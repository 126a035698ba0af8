use lowkit::compiler::{
    append_joints, asset_kind, compile_image, compile_mesh, get_gltf_node_parent_id,
    is_private_name, sanitize_name, AssetKind, Config, MeshDoc, Primitive, SkinNode,
};
use lowkit::mat::Mat4;
use lowkit::AssetError;

fn basic_conf() -> Config {
    Config::new(Some(&b"VertexType=Basic".to_vec()))
}

fn skinned_conf() -> Config {
    Config::new(None)
}

fn mat(seed: u32) -> Mat4 {
    Mat4 { m: (0..16).map(|k| seed + k).collect() }
}

fn triangle_positions() -> Vec<[u32; 3]> {
    vec![
        [0.0f32.to_bits(), 0.0f32.to_bits(), 0.0f32.to_bits()],
        [1.0f32.to_bits(), 0.0f32.to_bits(), 0.0f32.to_bits()],
        [0.0f32.to_bits(), 1.0f32.to_bits(), 0.0f32.to_bits()],
    ]
}

fn basic_triangle_doc() -> MeshDoc {
    MeshDoc {
        primitives: vec![Primitive {
            indices: vec![0, 1, 2],
            positions: triangle_positions(),
            normals: None,
            uvs: None,
            joints: None,
            weights: None,
        }],
        skin: None,
    }
}

#[test]
fn single_triangle_basic_file_size() {
    // 1 (tag) + 6 (variant name) + 4 (count) + 3 * 12 (positions) bytes.
    let bytes = compile_mesh(&basic_conf(), &basic_triangle_doc()).unwrap();
    assert_eq!(bytes.len(), 1 + 6 + 4 + 3 * 12);
    assert_eq!(&bytes[0..7], b"MBasic#");
    assert_eq!(&bytes[7..11], &[0x00, 0x00, 0x00, 0x03]);
    // The vertex stream is the unrolled position data, big-endian: the
    // first vertex is the origin, the second starts with a float one.
    assert_eq!(&bytes[11..23], &[0u8; 12]);
    assert_eq!(&bytes[23..27], &1.0f32.to_bits().to_be_bytes());
    assert_eq!(bytes[23], 0x3F);
    assert_eq!(bytes[24], 0x80);
}

#[test]
fn index_unrolling_duplicates_shared_vertices() {
    let doc = MeshDoc {
        primitives: vec![Primitive {
            indices: vec![0, 1, 2, 2, 1, 0],
            positions: triangle_positions(),
            normals: None,
            uvs: None,
            joints: None,
            weights: None,
        }],
        skin: None,
    };
    let bytes = compile_mesh(&basic_conf(), &doc).unwrap();
    assert_eq!(bytes.len(), 1 + 6 + 4 + 6 * 12);
    assert_eq!(&bytes[7..11], &[0x00, 0x00, 0x00, 0x06]);
    // Vertex 0 and vertex 5 both gather position 0.
    assert_eq!(&bytes[11..23], &bytes[11 + 5 * 12..11 + 6 * 12]);
}

#[test]
fn vertex_count_sums_over_primitives() {
    let prim = |n: u32| Primitive {
        indices: (0..n).map(|i| i % 3).collect(),
        positions: triangle_positions(),
        normals: None,
        uvs: None,
        joints: None,
        weights: None,
    };
    let doc = MeshDoc { primitives: vec![prim(3), prim(6)], skin: None };
    let bytes = compile_mesh(&basic_conf(), &doc).unwrap();
    assert_eq!(&bytes[7..11], &[0x00, 0x00, 0x00, 0x09]);
}

#[test]
fn basic_index_out_of_range() {
    let doc = MeshDoc {
        primitives: vec![Primitive {
            indices: vec![0, 3, 1],
            positions: triangle_positions(),
            normals: None,
            uvs: None,
            joints: None,
            weights: None,
        }],
        skin: None,
    };
    assert_eq!(
        compile_mesh(&basic_conf(), &doc),
        Err(AssetError::IndexOutOfRange)
    );
}

#[test]
fn skinned_missing_attribute() {
    let doc = MeshDoc {
        primitives: vec![Primitive {
            indices: vec![0],
            positions: triangle_positions(),
            normals: None,
            uvs: None,
            joints: None,
            weights: None,
        }],
        skin: None,
    };
    assert_eq!(
        compile_mesh(&skinned_conf(), &doc),
        Err(AssetError::MissingAttribute)
    );
}

#[test]
fn skinned_missing_skin() {
    let doc = MeshDoc {
        primitives: vec![Primitive {
            indices: vec![0],
            positions: triangle_positions(),
            normals: Some(triangle_positions()),
            uvs: Some(vec![[0, 0], [0, 0], [0, 0]]),
            joints: Some(vec![[0, 0, 0, 0], [0, 0, 0, 0], [0, 0, 0, 0]]),
            weights: Some(vec![[0, 0, 0, 0], [0, 0, 0, 0], [0, 0, 0, 0]]),
        }],
        skin: None,
    };
    assert_eq!(
        compile_mesh(&skinned_conf(), &doc),
        Err(AssetError::MissingSkin)
    );
}

#[test]
fn sanitize_strips_delimiters() {
    assert_eq!(sanitize_name(&b"mixed#name#".to_vec()), b"mixedname".to_vec());
    assert_eq!(sanitize_name(&b"clean".to_vec()), b"clean".to_vec());
    assert_eq!(sanitize_name(&b"###".to_vec()), Vec::<u8>::new());
}

#[test]
fn append_joints_truncates_to_low_byte() {
    let mut b = Vec::new();
    append_joints(&mut b, [1, 255, 256, 300]);
    assert_eq!(b, vec![1, 255, 0, 44]);
}

#[test]
fn parent_id_found_by_children_list() {
    // Node 10 lists node 11 as a child; node 11 lists node 12.
    let sk = vec![
        SkinNode { id: 10, children: vec![11], name: b"root".to_vec(), tpose: mat(0), ibm: mat(16) },
        SkinNode { id: 11, children: vec![12], name: b"mid".to_vec(), tpose: mat(32), ibm: mat(48) },
        SkinNode { id: 12, children: vec![], name: b"leaf".to_vec(), tpose: mat(64), ibm: mat(80) },
    ];
    assert_eq!(get_gltf_node_parent_id(&sk, &sk[0]), 255);
    assert_eq!(get_gltf_node_parent_id(&sk, &sk[1]), 0);
    assert_eq!(get_gltf_node_parent_id(&sk, &sk[2]), 1);
}

#[test]
fn compiled_image_layout() {
    let rgb = vec![10, 20, 30, 40, 50, 60];
    let bytes = compile_image(2, 1, &rgb);
    assert_eq!(bytes[0], b'I');
    assert_eq!(&bytes[1..5], &[0, 0, 0, 2]);
    assert_eq!(&bytes[5..9], &[0, 0, 0, 1]);
    assert_eq!(&bytes[9..], &rgb[..]);
}

#[test]
fn private_names_start_with_underscore() {
    assert!(is_private_name(&b"_hidden.gltf".to_vec()));
    assert!(!is_private_name(&b"model.gltf".to_vec()));
    assert!(!is_private_name(&Vec::new()));
}

#[test]
fn asset_kinds_by_extension() {
    assert_eq!(asset_kind(&b"gltf".to_vec()), AssetKind::Mesh);
    assert_eq!(asset_kind(&b"glb".to_vec()), AssetKind::Mesh);
    assert_eq!(asset_kind(&b"png".to_vec()), AssetKind::Image);
    assert_eq!(asset_kind(&b"jpg".to_vec()), AssetKind::Image);
    assert_eq!(asset_kind(&b"jpeg".to_vec()), AssetKind::Image);
    assert_eq!(asset_kind(&b"txt".to_vec()), AssetKind::Other);
    assert_eq!(asset_kind(&b"conf".to_vec()), AssetKind::Other);
}
