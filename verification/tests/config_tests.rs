use lowkit::compiler::Config;
use lowkit::vertex::VertexType;

#[test]
fn default_is_skinned() {
    let conf = Config::new(None);
    assert_eq!(conf.vertex_type, VertexType::NJW);
}

#[test]
fn basic_selected_by_file() {
    let text = b"VertexType=Basic".to_vec();
    let conf = Config::new(Some(&text));
    assert_eq!(conf.vertex_type, VertexType::Basic);
}

#[test]
fn other_value_is_a_no_op() {
    let text = b"VertexType=NJW".to_vec();
    let conf = Config::new(Some(&text));
    assert_eq!(conf.vertex_type, VertexType::NJW);
    // Even with Basic inherited, another value changes nothing back.
    let basic = Config::new(Some(&b"VertexType=Basic".to_vec()));
    let conf = basic.read(Some(&text));
    assert_eq!(conf.vertex_type, VertexType::Basic);
}

#[test]
fn unknown_keys_and_lines_ignored() {
    let text = b"Quality=High\njunk line\n\nVertexType=Basic\nTail=1".to_vec();
    let conf = Config::new(Some(&text));
    assert_eq!(conf.vertex_type, VertexType::Basic);
}

#[test]
fn missing_file_inherits() {
    let basic = Config::new(Some(&b"VertexType=Basic".to_vec()));
    let sub = basic.read(None);
    assert_eq!(sub.vertex_type, VertexType::Basic);
    let subsub = sub.read(None);
    assert_eq!(subsub.vertex_type, VertexType::Basic);
}

#[test]
fn subdirectory_overrides_ancestor() {
    let root = Config::new(None);
    assert_eq!(root.vertex_type, VertexType::NJW);
    let sub = root.read(Some(&b"VertexType=Basic".to_vec()));
    assert_eq!(sub.vertex_type, VertexType::Basic);
}

#[test]
fn crlf_lines_are_handled() {
    let text = b"Quality=High\r\nVertexType=Basic\r\n".to_vec();
    let conf = Config::new(Some(&text));
    assert_eq!(conf.vertex_type, VertexType::Basic);
}

#[test]
fn value_stops_at_second_equals() {
    let text = b"VertexType=Basic=junk".to_vec();
    let conf = Config::new(Some(&text));
    assert_eq!(conf.vertex_type, VertexType::Basic);
    let text = b"VertexType=Bas=ic".to_vec();
    let conf = Config::new(Some(&text));
    assert_eq!(conf.vertex_type, VertexType::NJW);
}
