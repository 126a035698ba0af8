use lowkit::cursor::Cursor;
use lowkit::AssetError;

#[test]
fn read_u8_advances() {
    let mut c = Cursor::new(vec![7, 9]);
    assert_eq!(c.read_u8(), Ok(7));
    assert_eq!(c.read_u8(), Ok(9));
    assert_eq!(c.read_u8(), Err(AssetError::Truncated));
}

#[test]
fn read_u32_is_big_endian() {
    let mut c = Cursor::new(vec![0x12, 0x34, 0x56, 0x78]);
    assert_eq!(c.read_u32(), Ok(0x1234_5678));
}

#[test]
fn read_u32_small_value() {
    let mut c = Cursor::new(vec![0, 0, 0, 3]);
    assert_eq!(c.read_u32(), Ok(3));
}

#[test]
fn read_u32_truncated() {
    let mut c = Cursor::new(vec![1, 2, 3]);
    assert_eq!(c.read_u32(), Err(AssetError::Truncated));
}

#[test]
fn read_str_stops_at_delimiter() {
    let mut c = Cursor::new(vec![b'h', b'i', b'#', b'x']);
    assert_eq!(c.read_str(), Ok(vec![b'h', b'i']));
    // The delimiter itself was consumed; the next byte is 'x'.
    assert_eq!(c.read_u8(), Ok(b'x'));
}

#[test]
fn read_str_empty_name() {
    let mut c = Cursor::new(vec![b'#']);
    assert_eq!(c.read_str(), Ok(vec![]));
}

#[test]
fn read_str_without_delimiter_fails() {
    let mut c = Cursor::new(vec![b'h', b'i']);
    assert_eq!(c.read_str(), Err(AssetError::Truncated));
}

#[test]
fn read_joints_widens_bytes() {
    let mut c = Cursor::new(vec![1, 2, 3, 255]);
    assert_eq!(c.read_joints(), Ok([1u32, 2, 3, 255]));
}

#[test]
fn read_vec3_three_words() {
    let mut bytes = Vec::new();
    for w in [1.0f32, 2.0, 3.0] {
        bytes.extend_from_slice(&w.to_bits().to_be_bytes());
    }
    let mut c = Cursor::new(bytes);
    assert_eq!(
        c.read_vec3(),
        Ok([1.0f32.to_bits(), 2.0f32.to_bits(), 3.0f32.to_bits()])
    );
}

#[test]
fn read_vec2_and_vec4() {
    let mut bytes = Vec::new();
    for w in 0u32..6 {
        bytes.extend_from_slice(&w.to_be_bytes());
    }
    let mut c = Cursor::new(bytes);
    assert_eq!(c.read_vec2(), Ok([0, 1]));
    assert_eq!(c.read_vec4(), Ok([2, 3, 4, 5]));
}

#[test]
fn read_mat4x4_sixteen_words() {
    let mut bytes = Vec::new();
    for w in 0u32..16 {
        bytes.extend_from_slice(&w.to_be_bytes());
    }
    let mut c = Cursor::new(bytes);
    let m = c.read_mat4x4().unwrap();
    assert_eq!(m.m, (0u32..16).collect::<Vec<u32>>());
}

#[test]
fn read_mat4x4_truncated() {
    let mut c = Cursor::new(vec![0; 63]);
    assert!(c.read_mat4x4().is_err());
    // A failed matrix read leaves the offset where it was.
    assert_eq!(c.read_u8(), Ok(0));
}

#[test]
fn read_mat3x3_nine_words() {
    let mut bytes = Vec::new();
    for w in 0u32..9 {
        bytes.extend_from_slice(&w.to_be_bytes());
    }
    let mut c = Cursor::new(bytes);
    let m = c.read_mat3x3().unwrap();
    assert_eq!(m.m, (0u32..9).collect::<Vec<u32>>());
}
