//! Animation clips: per joint name, one baked world-space matrix per
//! frame, plus a frame count shared by every track. A clip is decoded once
//! from a compiled file and immutable afterwards; sampling it writes live
//! local poses into a skeleton.

use vstd::prelude::*;

use crate::codec::{parse_name_at, parse_u32_at, parse_u8_at, words_at};
use crate::cursor::Cursor;
use crate::mat::Mat4;
use crate::skeleton::{ancestor_chain, parent_ids, Joint, JointView, Skeleton};
use crate::AssetError;

verus! {

pub ghost struct TrackView {
    pub name: Seq<u8>,
    pub matrices: Seq<Seq<u32>>,
}

/// One joint's track: its name and one matrix per frame.
pub struct Track {
    pub name: Vec<u8>,
    pub matrices: Vec<Mat4>,
}

impl View for Track {
    type V = TrackView;

    open spec fn view(&self) -> TrackView {
        TrackView { name: self.name@, matrices: self.matrices.deep_view() }
    }
}

impl DeepView for Track {
    type V = TrackView;

    open spec fn deep_view(&self) -> TrackView {
        self@
    }
}

pub ghost struct AnimationView {
    pub tracks: Seq<TrackView>,
    pub frames: int,
}

impl AnimationView {
    pub open spec fn wf(self) -> bool {
        &&& 0 <= self.frames
        &&& forall|t: int| 0 <= t < self.tracks.len()
            ==> (#[trigger] self.tracks[t]).matrices.len() == self.frames
        &&& forall|t: int, f: int| 0 <= t < self.tracks.len()
            && 0 <= f < self.tracks[t].matrices.len()
            ==> (#[trigger] self.tracks[t].matrices[f]).len() == 16
    }
}

/// An animation clip, loaded once and then only read.
pub struct Animation {
    pub tracks: Vec<Track>,
    pub frames: usize,
}

impl View for Animation {
    type V = AnimationView;

    open spec fn view(&self) -> AnimationView {
        AnimationView { tracks: self.tracks.deep_view(), frames: self.frames as int }
    }
}

/// The matrices a clip holds for `name`, if any. When a clip carries a
/// joint name twice, the later occurrence wins, as the map insert that
/// built it would have it.
pub open spec fn track_lookup(tracks: Seq<TrackView>, name: Seq<u8>) -> Option<Seq<Seq<u32>>>
    decreases tracks.len(),
{
    if tracks.len() == 0 {
        None
    } else if tracks.last().name == name {
        Some(tracks.last().matrices)
    } else {
        track_lookup(tracks.drop_last(), name)
    }
}

/// One track at `pos`: a delimiter-terminated name, then `frames` 4x4
/// matrices.
pub open spec fn parse_track_at(s: Seq<u8>, pos: int, frames: nat) -> Result<
    (TrackView, int),
    AssetError,
> {
    match parse_name_at(s, pos) {
        Err(e) => Err(e),
        Ok((name, p1)) => if p1 + 64 * frames <= s.len() {
            Ok((
                TrackView {
                    name,
                    matrices: Seq::new(frames, |f: int| words_at(s, p1 + 64 * f, 16)),
                },
                p1 + 64 * frames,
            ))
        } else {
            Err(AssetError::Truncated)
        },
    }
}

/// `count` tracks in a row starting at `pos`.
pub open spec fn parse_tracks_at(s: Seq<u8>, pos: int, frames: nat, count: nat) -> Result<
    (Seq<TrackView>, int),
    AssetError,
>
    decreases count,
{
    if count == 0 {
        Ok((Seq::<TrackView>::empty(), pos))
    } else {
        match parse_track_at(s, pos, frames) {
            Err(e) => Err(e),
            Ok((t, p1)) => match parse_tracks_at(s, p1, frames, (count - 1) as nat) {
                Err(e) => Err(e),
                Ok((ts, p2)) => Ok((seq![t] + ts, p2)),
            },
        }
    }
}

/// A whole compiled animation file: its magic byte, a joint count, a frame
/// count, then one track per joint. Trailing bytes are ignored.
pub open spec fn parse_animation(s: Seq<u8>) -> Result<AnimationView, AssetError> {
    if s.len() < 1 {
        Err(AssetError::Truncated)
    } else if s[0] != 'A' as u8 {
        Err(AssetError::BadMagic)
    } else {
        match parse_u8_at(s, 1) {
            Err(e) => Err(e),
            Ok((count, p1)) => match parse_u32_at(s, p1) {
                Err(e) => Err(e),
                Ok((frames, p2)) => match parse_tracks_at(s, p2, frames as nat, count as nat) {
                    Err(e) => Err(e),
                    Ok((ts, _)) => Ok(AnimationView { tracks: ts, frames: frames as int }),
                },
            },
        }
    }
}

impl Animation {
    /// Decodes a compiled animation clip from its bytes.
    #[verifier::loop_isolation(false)]
    pub fn load(bytes: Vec<u8>) -> (r: Result<Animation, AssetError>)
        ensures
            match r {
                Ok(a) => parse_animation(bytes@) == Ok::<AnimationView, AssetError>(a@)
                    && a@.wf(),
                Err(e) => parse_animation(bytes@) == Err::<AnimationView, AssetError>(e),
            },
    {
        let ghost s = bytes@;
        let mut cur = Cursor::new(bytes);
        let magic = match cur.read_u8() {
            Ok(v) => v,
            Err(e) => {
                return Err(e);
            },
        };
        if magic != 'A' as u8 {
            return Err(AssetError::BadMagic);
        }
        let count = match cur.read_u8() {
            Ok(v) => v,
            Err(e) => {
                return Err(e);
            },
        };
        let frames_u32 = match cur.read_u32() {
            Ok(v) => v,
            Err(e) => {
                return Err(e);
            },
        };
        let frames = frames_u32 as usize;
        let ghost fr = frames_u32 as nat;
        let ghost total = count as nat;
        let mut tracks: Vec<Track> = Vec::new();
        proof {
            assert(tracks.deep_view() =~= Seq::<TrackView>::empty());
            match parse_tracks_at(s, cur.pos(), fr, total) {
                Ok((ts, p)) => {
                    assert(tracks.deep_view() + ts =~= ts);
                },
                Err(_) => {},
            }
        }
        let mut t: usize = 0;
        while t < count as usize
            invariant
                t <= count as usize,
                cur.wf(),
                cur.bytes() == s,
                tracks@.len() == t,
                forall|q: int| 0 <= q < t ==> (#[trigger] tracks.deep_view()[q]).matrices.len()
                    == fr,
                forall|q: int, f: int| 0 <= q < t
                    && 0 <= f < tracks.deep_view()[q].matrices.len()
                    ==> (#[trigger] tracks.deep_view()[q].matrices[f]).len() == 16,
                parse_tracks_at(s, 6, fr, total) == (match parse_tracks_at(
                    s,
                    cur.pos(),
                    fr,
                    (total - t) as nat,
                ) {
                    Ok((ts, p)) => Ok::<_, AssetError>((tracks.deep_view() + ts, p)),
                    Err(e) => Err(e),
                }),
            decreases count as usize - t,
        {
            let ghost p0 = cur.pos();
            let name = match cur.read_str() {
                Ok(v) => v,
                Err(e) => {
                    assert(parse_track_at(s, p0, fr) == Err::<(TrackView, int), _>(e));
                    return Err(e);
                },
            };
            let ghost p1 = cur.pos();
            assert(parse_name_at(s, p0) == Ok::<_, AssetError>((name@, p1)));
            let mut ms: Vec<Mat4> = Vec::new();
            let mut f: usize = 0;
            while f < frames
                invariant
                    f <= frames,
                    cur.wf(),
                    cur.bytes() == s,
                    cur.pos() == p1 + 64 * f,
                    ms@.len() == f,
                    forall|q: int| 0 <= q < f ==> #[trigger] ms.deep_view()[q]
                        == words_at(s, p1 + 64 * q, 16),
                decreases frames - f,
            {
                let ghost prevv = ms@;
                let ghost prevd = ms.deep_view();
                let m = match cur.read_mat4x4() {
                    Ok(v) => v,
                    Err(e) => {
                        proof {
                            assert(p1 + 64 * (f as int) + 64 > s.len());
                            assert(64 * (f as int) + 64 <= 64 * fr);
                            assert(parse_track_at(s, p0, fr) == Err::<(TrackView, int), _>(
                                AssetError::Truncated,
                            ));
                        }
                        return Err(e);
                    },
                };
                ms.push(m);
                assert forall|q: int| 0 <= q < f + 1 implies #[trigger] ms.deep_view()[q]
                    == words_at(s, p1 + 64 * q, 16) by {
                    if q < f {
                        assert(ms@[q] == prevv[q]);
                        assert(ms.deep_view()[q] == ms@[q].deep_view());
                        assert(prevd[q] == prevv[q].deep_view());
                    } else {
                        assert(ms.deep_view()[q] == m.deep_view());
                    }
                }
                f += 1;
            }
            let ghost p2 = cur.pos();
            let track = Track { name, matrices: ms };
            proof {
                assert(p2 == p1 + 64 * fr);
                assert(track@.matrices =~= Seq::new(fr, |q: int| words_at(s, p1 + 64 * q, 16)));
                assert(parse_track_at(s, p0, fr) == Ok::<_, AssetError>((track@, p2)));
            }
            let ghost prevtracks = tracks.deep_view();
            tracks.push(track);
            proof {
                assert(tracks.deep_view() =~= prevtracks.push(track@));
                assert(parse_tracks_at(s, p0, fr, (total - t) as nat) == (
                    match parse_tracks_at(s, p2, fr, (total - t - 1) as nat) {
                        Ok((ts, p)) => Ok::<_, AssetError>((seq![track@] + ts, p)),
                        Err(e) => Err(e),
                    }));
                if parse_tracks_at(s, p2, fr, (total - t - 1) as nat) is Ok {
                    let (ts, p) = parse_tracks_at(s, p2, fr, (total - t - 1) as nat).unwrap();
                    assert(prevtracks + (seq![track@] + ts) =~= tracks.deep_view() + ts);
                }
            }
            t += 1;
        }
        proof {
            assert(parse_tracks_at(s, cur.pos(), fr, 0) == Ok::<_, AssetError>((
                Seq::<TrackView>::empty(),
                cur.pos(),
            )));
            assert(tracks.deep_view() + Seq::<TrackView>::empty() =~= tracks.deep_view());
        }
        let a = Animation { tracks, frames };
        proof {
            assert(parse_u8_at(s, 1) == Ok::<_, AssetError>((count, 2int)));
            assert(parse_u32_at(s, 2) == Ok::<_, AssetError>((frames_u32, 6int)));
            assert(parse_animation(s) == Ok::<AnimationView, AssetError>(a@));
        }
        Ok(a)
    }
}

/// The joint as it stands after sampling a clip at `frame`: a joint whose
/// name the clip knows takes that frame's matrix as its live local pose; a
/// joint the clip does not know keeps the local pose it already had.
pub open spec fn joint_sampled(j: JointView, tracks: Seq<TrackView>, frame: int) -> JointView {
    JointView {
        local_anim_pose: match track_lookup(tracks, j.name) {
            Some(ms) => Some(ms[frame]),
            None => j.local_anim_pose,
        },
        ..j
    }
}

/// The index of the track for `name`, scanning so that a repeated name
/// resolves to its later occurrence.
fn find_track(tracks: &Vec<Track>, name: &Vec<u8>) -> (r: Option<usize>)
    ensures
        match r {
            Some(idx) => idx < tracks@.len()
                && track_lookup(tracks.deep_view(), name@)
                    == Some(tracks.deep_view()[idx as int].matrices),
            None => track_lookup(tracks.deep_view(), name@) is None,
        },
{
    let ghost ts = tracks.deep_view();
    let mut k: usize = tracks.len();
    assert(ts.take(k as int) =~= ts);
    while k > 0
        invariant
            k <= tracks@.len(),
            ts == tracks.deep_view(),
            track_lookup(ts, name@) == track_lookup(ts.take(k as int), name@),
        decreases k,
    {
        k -= 1;
        let hit = crate::codec::bytes_eq(&tracks[k].name, name);
        proof {
            assert(ts.take((k + 1) as int).last() == ts[k as int]);
            assert(ts.take((k + 1) as int).drop_last() =~= ts.take(k as int));
            assert(ts[k as int].name == tracks@[k as int]@.name);
        }
        if hit {
            assert(track_lookup(ts.take((k + 1) as int), name@) == Some(ts[k as int].matrices));
            return Some(k);
        }
        assert(track_lookup(ts.take((k + 1) as int), name@) == track_lookup(
            ts.take(k as int),
            name@,
        ));
    }
    proof {
        assert(ts.take(0) =~= Seq::<TrackView>::empty());
    }
    None
}

impl Skeleton {
    /// Samples `clip` at `frame` into this skeleton: every joint whose name
    /// the clip knows gets that frame's matrix as its live local pose, and
    /// a joint the clip lacks is left exactly as it was.
    #[verifier::loop_isolation(false)]
    pub fn set_pose(&mut self, clip: &Animation, frame: usize)
        requires
            old(self).wf(),
            clip@.wf(),
            (frame as int) < clip@.frames,
        ensures
            final(self).wf(),
            final(self)@.pose_table == old(self)@.pose_table,
            final(self)@.joints.len() == old(self)@.joints.len(),
            forall|i: int| 0 <= i < old(self)@.joints.len()
                ==> #[trigger] final(self)@.joints[i] == joint_sampled(
                    old(self)@.joints[i],
                    clip@.tracks,
                    frame as int,
                ),
    {
        let ghost js0v = old(self).joints@;
        let ghost js0 = old(self)@.joints;
        let n = self.joints.len();
        let mut out: Vec<Joint> = Vec::new();
        let mut i: usize = 0;
        while i < n
            invariant
                i <= n,
                out@.len() == i,
                self.joints@.len() == n - i,
                self.pose_table == old(self).pose_table,
                forall|q: int| 0 <= q < n - i ==> #[trigger] self.joints@[q] == js0v[i + q],
                forall|q: int| 0 <= q < i ==> #[trigger] out.deep_view()[q] == joint_sampled(
                    js0[q],
                    clip@.tracks,
                    frame as int,
                ),
            decreases n - i,
        {
            let ghost prevj = self.joints@;
            let mut j = self.joints.remove(0);
            assert(j == prevj[0]);
            assert(j@ == js0[i as int]);
            proof {
                assert(self.joints@ =~= prevj.subrange(1, prevj.len() as int));
                assert forall|q: int| 0 <= q < n - i - 1 implies #[trigger] self.joints@[q]
                    == js0v[i + 1 + q] by {
                    assert(self.joints@[q] == prevj[q + 1]);
                }
            }
            match find_track(&clip.tracks, &j.name) {
                Some(idx) => {
                    assert(clip.tracks.deep_view()[idx as int].matrices.len() == clip@.frames);
                    assert(clip.tracks@[idx as int]@.matrices.len() == clip@.frames);
                    let m = clip.tracks[idx].matrices[frame].clone_mat();
                    assert(m@ == clip.tracks.deep_view()[idx as int].matrices[frame as int]);
                    j.local_anim_pose = Some(m);
                },
                None => {},
            }
            assert(j@ == joint_sampled(js0[i as int], clip@.tracks, frame as int));
            let ghost prevd = out.deep_view();
            let ghost prevv = out@;
            out.push(j);
            proof {
                assert forall|q: int| 0 <= q < i + 1 implies #[trigger] out.deep_view()[q]
                    == joint_sampled(js0[q], clip@.tracks, frame as int) by {
                    if q < i {
                        assert(out@[q] == prevv[q]);
                        assert(out.deep_view()[q] == out@[q].deep_view());
                        assert(prevd[q] == prevv[q].deep_view());
                    } else {
                        assert(out.deep_view()[q] == j@);
                    }
                }
            }
            i += 1;
        }
        self.joints = out;
        proof {
            assert(self@.joints.len() == js0.len());
            assert forall|q: int| 0 <= q < js0.len() implies #[trigger] self@.joints[q]
                == joint_sampled(js0[q], clip@.tracks, frame as int) by {}
            assert forall|q: int| 0 <= q < self@.joints.len()
                implies (#[trigger] self@.joints[q]).wf() by {
                assert(self@.joints[q] == joint_sampled(js0[q], clip@.tracks, frame as int));
                assert(js0[q].wf());
                match track_lookup(clip@.tracks, js0[q].name) {
                    Some(ms) => {
                        lemma_track_lookup_wf(clip@.tracks, js0[q].name, clip@.frames);
                    },
                    None => {},
                }
            }
            assert(parent_ids(self@.joints) =~= parent_ids(js0));
            assert forall|q: int| 0 <= q < self@.joints.len()
                implies ancestor_chain(parent_ids(self@.joints), q, self@.joints.len() as nat)
                == Some((#[trigger] self@.joints[q]).parents) by {
                assert(self@.joints[q].parents == js0[q].parents);
            }
        }
    }
}

/// A hit in a well-formed clip's tracks has the clip's frame count and
/// 16-word matrices.
proof fn lemma_track_lookup_wf(tracks: Seq<TrackView>, name: Seq<u8>, frames: int)
    requires
        forall|t: int| 0 <= t < tracks.len()
            ==> (#[trigger] tracks[t]).matrices.len() == frames,
        forall|t: int, f: int| 0 <= t < tracks.len() && 0 <= f < tracks[t].matrices.len()
            ==> (#[trigger] tracks[t].matrices[f]).len() == 16,
        track_lookup(tracks, name) is Some,
    ensures
        track_lookup(tracks, name).unwrap().len() == frames,
        forall|f: int| 0 <= f < frames
            ==> (#[trigger] track_lookup(tracks, name).unwrap()[f]).len() == 16,
    decreases tracks.len(),
{
    if tracks.len() > 0 && tracks.last().name != name {
        assert(tracks.drop_last() =~= tracks.take(tracks.len() - 1));
        assert forall|t: int| 0 <= t < tracks.drop_last().len()
            implies (#[trigger] tracks.drop_last()[t]).matrices.len() == frames by {
            assert(tracks.drop_last()[t] == tracks[t]);
        }
        assert forall|t: int, f: int| 0 <= t < tracks.drop_last().len()
            && 0 <= f < tracks.drop_last()[t].matrices.len()
            implies (#[trigger] tracks.drop_last()[t].matrices[f]).len() == 16 by {
            assert(tracks.drop_last()[t] == tracks[t]);
        }
        lemma_track_lookup_wf(tracks.drop_last(), name, frames);
    }
}

} // verus!
