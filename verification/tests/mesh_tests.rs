use lowkit::compiler::{compile_mesh, Config, MeshDoc, Primitive, SkinNode};
use lowkit::mat::Mat4;
use lowkit::mesh::{Mesh, VertexData};
use lowkit::vertex::{MaterialKind, VertexType};
use lowkit::AssetError;

fn mat(seed: u32) -> Mat4 {
    Mat4 { m: (0..16).map(|k| seed + k).collect() }
}

fn quads(n: usize, v: u32) -> Vec<[u32; 4]> {
    vec![[v, 0, 0, 0]; n]
}

fn skinned_doc(skin: Vec<SkinNode>) -> MeshDoc {
    let positions = vec![[1, 2, 3], [4, 5, 6], [7, 8, 9]];
    MeshDoc {
        primitives: vec![Primitive {
            indices: vec![0, 1, 2, 1],
            positions: positions.clone(),
            normals: Some(positions),
            uvs: Some(vec![[0, 1], [2, 3], [4, 5]]),
            joints: Some(vec![[0, 1, 2, 300], [0, 0, 0, 0], [1, 1, 1, 1]]),
            weights: Some(quads(3, 77)),
        }],
        skin: Some(skin),
    }
}

fn three_node_skin() -> Vec<SkinNode> {
    vec![
        SkinNode { id: 5, children: vec![6], name: b"ro#ot".to_vec(), tpose: mat(0), ibm: mat(100) },
        SkinNode { id: 6, children: vec![7], name: b"mid".to_vec(), tpose: mat(200), ibm: mat(300) },
        SkinNode { id: 7, children: vec![], name: b"leaf".to_vec(), tpose: mat(400), ibm: mat(500) },
    ]
}

#[test]
fn basic_mesh_round_trip() {
    let doc = MeshDoc {
        primitives: vec![Primitive {
            indices: vec![0, 1, 2],
            positions: vec![[1, 2, 3], [4, 5, 6], [7, 8, 9]],
            normals: None,
            uvs: None,
            joints: None,
            weights: None,
        }],
        skin: None,
    };
    let conf = Config::new(Some(&b"VertexType=Basic".to_vec()));
    let bytes = compile_mesh(&conf, &doc).unwrap();
    let mesh = Mesh::load(bytes, MaterialKind::Basic).unwrap();
    assert_eq!(mesh.vertex_type, VertexType::Basic);
    assert_eq!(mesh.vertices_len, 3);
    match &mesh.vertices {
        VertexData::Basic(vs) => {
            assert_eq!(vs.len(), 3);
            assert_eq!(vs[0].position, [1, 2, 3]);
            assert_eq!(vs[2].position, [7, 8, 9]);
        },
        VertexData::NJW(_) => panic!("wrong layout"),
    }
    assert!(mesh.skeleton.is_none());
}

#[test]
fn skinned_mesh_round_trip() {
    let conf = Config::new(None);
    let bytes = compile_mesh(&conf, &skinned_doc(three_node_skin())).unwrap();
    let mesh = Mesh::load(bytes, MaterialKind::BasicAnim).unwrap();
    assert_eq!(mesh.vertex_type, VertexType::NJW);
    // One decoded vertex per index-buffer entry.
    assert_eq!(mesh.vertices_len, 4);
    match &mesh.vertices {
        VertexData::NJW(vs) => {
            assert_eq!(vs.len(), 4);
            assert_eq!(vs[0].position, [1, 2, 3]);
            assert_eq!(vs[3].position, [4, 5, 6]);
            assert_eq!(vs[0].uv, [0, 1]);
            // 16-bit joint indices came back truncated to their low byte.
            assert_eq!(vs[0].joints, [0, 1, 2, 44]);
            assert_eq!(vs[0].weights, [77, 0, 0, 0]);
        },
        VertexData::Basic(_) => panic!("wrong layout"),
    }
    let sk = mesh.skeleton.as_ref().unwrap();
    assert_eq!(sk.joints.len(), 3);
    // The stored name was sanitized: the delimiter byte is gone.
    assert_eq!(sk.joints[0].name, b"root".to_vec());
    assert_eq!(sk.joints[1].name, b"mid".to_vec());
    // Parent indices resolved through the children lists.
    assert_eq!(sk.joints[0].parent_id, 255);
    assert_eq!(sk.joints[1].parent_id, 0);
    assert_eq!(sk.joints[2].parent_id, 1);
    // Ancestor chains, root first.
    assert_eq!(sk.joints[0].parents, Vec::<usize>::new());
    assert_eq!(sk.joints[1].parents, vec![0]);
    assert_eq!(sk.joints[2].parents, vec![0, 1]);
    // Matrices carried through byte-for-byte.
    assert_eq!(sk.joints[2].tpose.m, mat(400).m);
    assert_eq!(sk.joints[2].ibm.m, mat(500).m);
}

#[test]
fn decoded_variant_follows_configuration() {
    let doc = MeshDoc {
        primitives: vec![Primitive {
            indices: vec![0],
            positions: vec![[0, 0, 0]],
            normals: None,
            uvs: None,
            joints: None,
            weights: None,
        }],
        skin: None,
    };
    let conf = Config::new(Some(&b"VertexType=Basic".to_vec()));
    let bytes = compile_mesh(&conf, &doc).unwrap();
    let mesh = Mesh::load(bytes, MaterialKind::Basic).unwrap();
    assert_eq!(mesh.vertex_type, conf.vertex_type);
}

#[test]
fn bad_magic() {
    assert!(matches!(
        Mesh::load(vec![b'X'], MaterialKind::Basic),
        Err(AssetError::BadMagic)
    ));
}

#[test]
fn empty_file_truncated() {
    assert!(matches!(
        Mesh::load(Vec::new(), MaterialKind::Basic),
        Err(AssetError::Truncated)
    ));
}

#[test]
fn unknown_vertex_variant() {
    let bytes = b"MFoo#\x00\x00\x00\x00".to_vec();
    assert!(matches!(
        Mesh::load(bytes, MaterialKind::Basic),
        Err(AssetError::UnknownVertexType)
    ));
}

#[test]
fn incompatible_material() {
    let bytes = b"MBasic#\x00\x00\x00\x00".to_vec();
    assert!(matches!(
        Mesh::load(bytes, MaterialKind::BasicAnim),
        Err(AssetError::IncompatibleMaterial)
    ));
    let conf = Config::new(None);
    let bytes = compile_mesh(&conf, &skinned_doc(three_node_skin())).unwrap();
    assert!(matches!(
        Mesh::load(bytes, MaterialKind::Basic),
        Err(AssetError::IncompatibleMaterial)
    ));
}

#[test]
fn truncated_vertex_stream() {
    // Claims three vertices but carries only one.
    let mut bytes = b"MBasic#\x00\x00\x00\x03".to_vec();
    bytes.extend_from_slice(&[0u8; 12]);
    assert!(matches!(
        Mesh::load(bytes, MaterialKind::Basic),
        Err(AssetError::Truncated)
    ));
}

fn flat_skin(n: usize) -> Vec<SkinNode> {
    (0..n)
        .map(|j| SkinNode {
            id: j,
            children: vec![],
            name: format!("joint{}", j).into_bytes(),
            tpose: mat(0),
            ibm: mat(16),
        })
        .collect()
}

#[test]
fn joint_capacity_sixty_four_fails() {
    let conf = Config::new(None);
    let bytes = compile_mesh(&conf, &skinned_doc(flat_skin(64))).unwrap();
    assert!(matches!(
        Mesh::load(bytes, MaterialKind::BasicAnim),
        Err(AssetError::TooManyJoints)
    ));
}

#[test]
fn joint_capacity_sixty_three_succeeds() {
    let conf = Config::new(None);
    let bytes = compile_mesh(&conf, &skinned_doc(flat_skin(63))).unwrap();
    let mesh = Mesh::load(bytes, MaterialKind::BasicAnim).unwrap();
    assert_eq!(mesh.skeleton.unwrap().joints.len(), 63);
}

#[test]
fn loader_dangling_parent_rejected() {
    // One joint whose stored parent index is 5: nothing valid to follow.
    let mut bytes = b"MNJW#\x00\x00\x00\x00\x01a#\x05".to_vec();
    bytes.extend_from_slice(&[0u8; 128]);
    assert!(matches!(
        Mesh::load(bytes, MaterialKind::BasicAnim),
        Err(AssetError::InvalidParent)
    ));
}

#[test]
fn loader_parent_cycle_rejected() {
    // Two nodes each listing the other as a child: the resolved parent
    // links form a loop the loader refuses.
    let skin = vec![
        SkinNode { id: 1, children: vec![2], name: b"a".to_vec(), tpose: mat(0), ibm: mat(16) },
        SkinNode { id: 2, children: vec![1], name: b"b".to_vec(), tpose: mat(0), ibm: mat(16) },
    ];
    let conf = Config::new(None);
    let bytes = compile_mesh(&conf, &skinned_doc(skin)).unwrap();
    assert!(matches!(
        Mesh::load(bytes, MaterialKind::BasicAnim),
        Err(AssetError::CyclicHierarchy)
    ));
}

#[test]
fn trailing_bytes_are_ignored() {
    let mut bytes = b"MBasic#\x00\x00\x00\x00".to_vec();
    bytes.extend_from_slice(&[9, 9, 9]);
    let mesh = Mesh::load(bytes, MaterialKind::Basic).unwrap();
    assert_eq!(mesh.vertices_len, 0);
}
