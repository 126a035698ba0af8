use lowkit::animation::{Animation, Track};
use lowkit::mat::Mat4;
use lowkit::skeleton::{Joint, Skeleton};
use lowkit::AssetError;

fn mat(seed: u32) -> Mat4 {
    Mat4 { m: (0..16).map(|k| seed + k).collect() }
}

fn joint(name: &[u8], parent: u8, seed: u32) -> Joint {
    Joint::new(name.to_vec(), parent, mat(seed), mat(seed + 16))
}

fn clip_bytes(tracks: &[(&[u8], u32)], frames: u32) -> Vec<u8> {
    let mut b = vec![b'A', tracks.len() as u8];
    b.extend_from_slice(&frames.to_be_bytes());
    for (name, seed) in tracks {
        b.extend_from_slice(name);
        b.push(b'#');
        for f in 0..frames {
            for k in 0..16u32 {
                b.extend_from_slice(&(seed + 100 * f + k).to_be_bytes());
            }
        }
    }
    b
}

#[test]
fn clip_decodes_tracks_and_frames() {
    let bytes = clip_bytes(&[(b"hip", 1000), (b"knee", 2000)], 3);
    let clip = Animation::load(bytes).unwrap();
    assert_eq!(clip.frames, 3);
    assert_eq!(clip.tracks.len(), 2);
    assert_eq!(clip.tracks[0].name, b"hip".to_vec());
    assert_eq!(clip.tracks[1].name, b"knee".to_vec());
    assert_eq!(clip.tracks[0].matrices.len(), 3);
    assert_eq!(clip.tracks[0].matrices[0].m[0], 1000);
    assert_eq!(clip.tracks[0].matrices[2].m[0], 1200);
    assert_eq!(clip.tracks[1].matrices[1].m[15], 2115);
}

#[test]
fn clip_bad_magic() {
    assert!(matches!(
        Animation::load(vec![b'B', 0, 0, 0, 0, 0]),
        Err(AssetError::BadMagic)
    ));
}

#[test]
fn clip_truncated() {
    assert!(matches!(Animation::load(vec![b'A']), Err(AssetError::Truncated)));
    // A track that promises more frames than the buffer holds.
    let mut bytes = clip_bytes(&[(b"hip", 0)], 2);
    bytes.truncate(bytes.len() - 1);
    assert!(matches!(Animation::load(bytes), Err(AssetError::Truncated)));
}

#[test]
fn sampling_updates_matching_joints_only() {
    let mut sk = Skeleton::new(vec![
        joint(b"hip", 255, 0),
        joint(b"knee", 0, 100),
        joint(b"extra", 0, 200),
    ])
    .unwrap();
    // The joint the clip does not know keeps its existing live pose.
    sk.joints[2].local_anim_pose = Some(mat(900));
    let clip = Animation::load(clip_bytes(&[(b"hip", 1000), (b"knee", 2000)], 2)).unwrap();
    sk.set_pose(&clip, 1);
    assert_eq!(sk.joints[0].local_anim_pose.as_ref().unwrap().m, {
        let mut v = Vec::new();
        for k in 0..16u32 {
            v.push(1000 + 100 + k);
        }
        v
    });
    assert_eq!(sk.joints[1].local_anim_pose.as_ref().unwrap().m[0], 2100);
    // Untouched: the clip has no track named "extra".
    assert_eq!(sk.joints[2].local_anim_pose.as_ref().unwrap().m, mat(900).m);
}

#[test]
fn sampling_without_live_pose_leaves_missing_joint_bare() {
    let mut sk = Skeleton::new(vec![joint(b"hip", 255, 0), joint(b"toe", 0, 100)]).unwrap();
    let clip = Animation::load(clip_bytes(&[(b"hip", 1000)], 1)).unwrap();
    sk.set_pose(&clip, 0);
    assert!(sk.joints[0].local_anim_pose.is_some());
    assert!(sk.joints[1].local_anim_pose.is_none());
}

#[test]
fn repeated_track_name_later_occurrence_wins() {
    let clip = Animation::load(clip_bytes(&[(b"hip", 1000), (b"hip", 5000)], 1)).unwrap();
    let mut sk = Skeleton::new(vec![joint(b"hip", 255, 0)]).unwrap();
    sk.set_pose(&clip, 0);
    assert_eq!(sk.joints[0].local_anim_pose.as_ref().unwrap().m[0], 5000);
}

#[test]
fn handbuilt_clip_samples_by_frame() {
    let clip = Animation {
        tracks: vec![Track { name: b"a".to_vec(), matrices: vec![mat(10), mat(20)] }],
        frames: 2,
    };
    let mut sk = Skeleton::new(vec![joint(b"a", 255, 0)]).unwrap();
    sk.set_pose(&clip, 0);
    assert_eq!(sk.joints[0].local_anim_pose.as_ref().unwrap().m, mat(10).m);
    sk.set_pose(&clip, 1);
    assert_eq!(sk.joints[0].local_anim_pose.as_ref().unwrap().m, mat(20).m);
}
