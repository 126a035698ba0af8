use lowkit::mat::{Mat4, F32_ONE_BITS};
use lowkit::skeleton::{Joint, LocalPose, Skeleton, MAX_JOINTS};
use lowkit::AssetError;

fn mat(seed: u32) -> Mat4 {
    Mat4 { m: (0..16).map(|k| seed + k).collect() }
}

fn joint(name: &[u8], parent: u8, seed: u32) -> Joint {
    Joint::new(name.to_vec(), parent, mat(seed), mat(seed + 16))
}

fn eval(steps: &[LocalPose]) -> cgmath::Matrix4<f32> {
    let mut acc = cgmath::Matrix4::<f32>::from_scale(1.0);
    for step in steps {
        let m = match step {
            LocalPose::Fixed(m) => to_cg(m),
            LocalPose::Product(a, b) => to_cg(a) * to_cg(b),
        };
        acc = m * acc;
    }
    acc
}

fn to_cg(m: &Mat4) -> cgmath::Matrix4<f32> {
    let mut a = [[0.0f32; 4]; 4];
    for r in 0..4 {
        for c in 0..4 {
            a[r][c] = f32::from_bits(m.m[r * 4 + c]);
        }
    }
    cgmath::Matrix4::from(a)
}

fn float_mat(vals: [f32; 16]) -> Mat4 {
    Mat4 { m: vals.iter().map(|v| v.to_bits()).collect() }
}

#[test]
fn three_level_chain_is_root_then_mid() {
    let joints = vec![joint(b"root", 255, 0), joint(b"mid", 0, 100), joint(b"leaf", 1, 200)];
    let sk = Skeleton::new(joints).unwrap();
    assert_eq!(sk.joints[2].parents, vec![0, 1]);
    assert_eq!(sk.joints[1].parents, vec![0]);
    assert_eq!(sk.joints[0].parents, Vec::<usize>::new());
}

#[test]
fn chain_order_does_not_depend_on_declaration_order() {
    // The leaf comes first in the list; its parent links still resolve.
    let joints = vec![joint(b"leaf", 2, 0), joint(b"mid", 2, 100), joint(b"root", 255, 200)];
    let sk = Skeleton::new(joints).unwrap();
    assert_eq!(sk.joints[0].parents, vec![2]);
    assert_eq!(sk.joints[1].parents, vec![2]);
}

#[test]
fn capacity_at_sixty_four_rejected() {
    let joints: Vec<Joint> = (0..MAX_JOINTS).map(|_| joint(b"j", 255, 0)).collect();
    assert!(matches!(Skeleton::new(joints), Err(AssetError::TooManyJoints)));
}

#[test]
fn capacity_at_sixty_three_accepted() {
    let joints: Vec<Joint> = (0..63).map(|_| joint(b"j", 255, 0)).collect();
    let sk = Skeleton::new(joints).unwrap();
    assert_eq!(sk.joints.len(), 63);
}

#[test]
fn dangling_parent_rejected() {
    let joints = vec![joint(b"a", 7, 0)];
    assert!(matches!(Skeleton::new(joints), Err(AssetError::InvalidParent)));
}

#[test]
fn parent_cycle_rejected() {
    let joints = vec![joint(b"a", 1, 0), joint(b"b", 0, 100)];
    assert!(matches!(Skeleton::new(joints), Err(AssetError::CyclicHierarchy)));
}

#[test]
fn self_parent_rejected() {
    let joints = vec![joint(b"a", 0, 0)];
    assert!(matches!(Skeleton::new(joints), Err(AssetError::CyclicHierarchy)));
}

#[test]
fn pose_table_starts_as_identities() {
    let sk = Skeleton::new(vec![joint(b"a", 255, 0)]).unwrap();
    assert_eq!(sk.pose_table.len(), MAX_JOINTS);
    for slot in &sk.pose_table {
        assert_eq!(slot.m[0], F32_ONE_BITS);
        assert_eq!(slot.m[1], 0);
        assert_eq!(slot.m[5], F32_ONE_BITS);
        assert_eq!(slot.m[15], F32_ONE_BITS);
    }
}

#[test]
fn store_pose_overwrites_one_slot() {
    let mut sk = Skeleton::new(vec![joint(b"a", 255, 0), joint(b"b", 0, 50)]).unwrap();
    sk.store_pose(1, mat(900));
    assert_eq!(sk.pose_table[1].m, mat(900).m);
    assert_eq!(sk.pose_table[0].m[0], F32_ONE_BITS);
}

#[test]
fn local_pose_prefers_live_matrix() {
    let mut sk = Skeleton::new(vec![joint(b"root", 255, 0), joint(b"kid", 0, 100)]).unwrap();
    sk.joints[1].local_anim_pose = Some(mat(700));
    let steps = sk.pose_steps(1);
    assert_eq!(steps.len(), 2);
    // The root has no parent and no live pose: its bind pose stands alone.
    match &steps[0] {
        LocalPose::Fixed(m) => assert_eq!(m.m, mat(0).m),
        _ => panic!("expected the root's bind pose"),
    }
    // The child has a live pose this frame.
    match &steps[1] {
        LocalPose::Fixed(m) => assert_eq!(m.m, mat(700).m),
        _ => panic!("expected the live pose"),
    }
}

#[test]
fn local_pose_composes_bind_with_parent_inverse_bind() {
    let sk = Skeleton::new(vec![joint(b"root", 255, 0), joint(b"kid", 0, 100)]).unwrap();
    let steps = sk.pose_steps(1);
    match &steps[1] {
        LocalPose::Product(t, pibm) => {
            assert_eq!(t.m, mat(100).m);
            // The right factor is the parent's inverse-bind matrix.
            assert_eq!(pibm.m, mat(16).m);
        },
        _ => panic!("expected tpose times the parent's inverse bind"),
    }
}

#[test]
fn stored_poses_do_not_affect_recomputation() {
    let mut sk = Skeleton::new(vec![joint(b"root", 255, 0), joint(b"kid", 0, 100)]).unwrap();
    let before = sk.pose_steps(1);
    sk.store_pose(0, mat(800));
    sk.store_pose(1, mat(900));
    let after = sk.pose_steps(1);
    assert_eq!(before.len(), after.len());
    for (x, y) in before.iter().zip(after.iter()) {
        match (x, y) {
            (LocalPose::Fixed(a), LocalPose::Fixed(b)) => assert_eq!(a.m, b.m),
            (LocalPose::Product(a1, a2), LocalPose::Product(b1, b2)) => {
                assert_eq!(a1.m, b1.m);
                assert_eq!(a2.m, b2.m);
            },
            _ => panic!("step shapes differ"),
        }
    }
}

#[test]
fn pose_recomputed_twice_is_identical() {
    let joints = vec![
        Joint::new(
            b"root".to_vec(),
            255,
            float_mat([
                1.0, 0.0, 0.0, 0.5, 0.0, 1.0, 0.0, 0.25, 0.0, 0.0, 1.0, 0.0, 0.0, 0.0, 0.0, 1.0,
            ]),
            float_mat([
                1.0, 0.0, 0.0, -0.5, 0.0, 1.0, 0.0, -0.25, 0.0, 0.0, 1.0, 0.0, 0.0, 0.0, 0.0, 1.0,
            ]),
        ),
        Joint::new(
            b"kid".to_vec(),
            0,
            float_mat([
                2.0, 0.0, 0.0, 0.0, 0.0, 2.0, 0.0, 0.0, 0.0, 0.0, 2.0, 0.0, 0.0, 0.0, 0.0, 1.0,
            ]),
            float_mat([
                0.5, 0.0, 0.0, 0.0, 0.0, 0.5, 0.0, 0.0, 0.0, 0.0, 0.5, 0.0, 0.0, 0.0, 0.0, 1.0,
            ]),
        ),
    ];
    let sk = Skeleton::new(joints).unwrap();
    let first = eval(&sk.pose_steps(1));
    let second = eval(&sk.pose_steps(1));
    let a: [[f32; 4]; 4] = first.into();
    let b: [[f32; 4]; 4] = second.into();
    for r in 0..4 {
        for c in 0..4 {
            assert_eq!(a[r][c].to_bits(), b[r][c].to_bits());
        }
    }
}
