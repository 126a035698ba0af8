//! The runtime mesh loader: decodes a compiled mesh file into its vertex
//! stream and, for the skinned layout, the trailing skeleton block.

use vstd::prelude::*;

use crate::animation::{joint_sampled, Animation};
use crate::codec::{parse_name_at, parse_u32_at, parse_u8_at, parse_words_at, words_at};
use crate::cursor::Cursor;
use crate::skeleton::{skeleton_new_spec, Joint, JointView, Skeleton, SkeletonView, MAX_JOINTS};
use crate::vertex::{
    compatible_spec, variant_name_spec, Basic, BasicView, MaterialKind, VertexType, NJW, NJWView,
};
use crate::AssetError;

verus! {

/// The decoded vertex stream: one flat array of records in the layout the
/// file committed to.
pub enum VertexData {
    Basic(Vec<Basic>),
    NJW(Vec<NJW>),
}

pub ghost enum VertexDataView {
    Basic(Seq<BasicView>),
    NJW(Seq<NJWView>),
}

impl View for VertexData {
    type V = VertexDataView;

    open spec fn view(&self) -> VertexDataView {
        match self {
            VertexData::Basic(vs) => VertexDataView::Basic(vs.deep_view()),
            VertexData::NJW(vs) => VertexDataView::NJW(vs.deep_view()),
        }
    }
}

pub ghost struct MeshView {
    pub vertex_type: VertexType,
    pub vertices_len: u32,
    pub vertices: VertexDataView,
    pub skeleton: Option<SkeletonView>,
}

impl MeshView {
    pub open spec fn wf(self) -> bool {
        match self.vertices {
            VertexDataView::Basic(vs) => {
                &&& self.vertex_type == VertexType::Basic
                &&& vs.len() == self.vertices_len
                &&& forall|k: int| 0 <= k < vs.len() ==> (#[trigger] vs[k]).position.len() == 3
                &&& self.skeleton is None
            },
            VertexDataView::NJW(vs) => {
                &&& self.vertex_type == VertexType::NJW
                &&& vs.len() == self.vertices_len
                &&& forall|k: int| 0 <= k < vs.len() ==> {
                    &&& (#[trigger] vs[k]).position.len() == 3
                    &&& vs[k].normal.len() == 3
                    &&& vs[k].uv.len() == 2
                    &&& vs[k].joints.len() == 4
                    &&& vs[k].weights.len() == 4
                }
                &&& self.skeleton matches Some(sk) && sk.wf()
            },
        }
    }
}

/// A decoded mesh: the layout tag, the unrolled vertex stream, and the
/// skeleton when the layout carries one.
pub struct Mesh {
    pub vertex_type: VertexType,
    pub vertices_len: u32,
    pub vertices: VertexData,
    pub skeleton: Option<Skeleton>,
}

impl View for Mesh {
    type V = MeshView;

    open spec fn view(&self) -> MeshView {
        MeshView {
            vertex_type: self.vertex_type,
            vertices_len: self.vertices_len,
            vertices: self.vertices@,
            skeleton: match self.skeleton {
                Some(sk) => Some(sk@),
                None => None,
            },
        }
    }
}

/// One basic vertex record at `pos`: three position words.
pub open spec fn parse_basic_at(s: Seq<u8>, pos: int) -> Result<(BasicView, int), AssetError> {
    match parse_words_at(s, pos, 3) {
        Err(e) => Err(e),
        Ok((w, p)) => Ok((BasicView { position: w }, p)),
    }
}

/// `n` basic vertex records in a row.
pub open spec fn parse_basics_at(s: Seq<u8>, pos: int, n: nat) -> Result<
    (Seq<BasicView>, int),
    AssetError,
>
    decreases n,
{
    if n == 0 {
        Ok((Seq::<BasicView>::empty(), pos))
    } else {
        match parse_basic_at(s, pos) {
            Err(e) => Err(e),
            Ok((v, p1)) => match parse_basics_at(s, p1, (n - 1) as nat) {
                Err(e) => Err(e),
                Ok((vs, p2)) => Ok((seq![v] + vs, p2)),
            },
        }
    }
}

/// One skinned vertex record at `pos`: position, normal, UV, four one-byte
/// joint indices, four weights; 52 bytes in all.
pub open spec fn parse_njw_at(s: Seq<u8>, pos: int) -> Result<(NJWView, int), AssetError> {
    if 0 <= pos && pos + 52 <= s.len() {
        Ok((
            NJWView {
                position: words_at(s, pos, 3),
                normal: words_at(s, pos + 12, 3),
                uv: words_at(s, pos + 24, 2),
                joints: Seq::new(4, |k: int| s[pos + 32 + k] as u32),
                weights: words_at(s, pos + 36, 4),
            },
            pos + 52,
        ))
    } else {
        Err(AssetError::Truncated)
    }
}

/// `n` skinned vertex records in a row.
pub open spec fn parse_njws_at(s: Seq<u8>, pos: int, n: nat) -> Result<
    (Seq<NJWView>, int),
    AssetError,
>
    decreases n,
{
    if n == 0 {
        Ok((Seq::<NJWView>::empty(), pos))
    } else {
        match parse_njw_at(s, pos) {
            Err(e) => Err(e),
            Ok((v, p1)) => match parse_njws_at(s, p1, (n - 1) as nat) {
                Err(e) => Err(e),
                Ok((vs, p2)) => Ok((seq![v] + vs, p2)),
            },
        }
    }
}

/// One joint record at `pos`: a delimiter-terminated name, a one-byte
/// parent index, the bind-pose matrix, then the inverse-bind matrix.
pub open spec fn parse_joint_at(s: Seq<u8>, pos: int) -> Result<(JointView, int), AssetError> {
    match parse_name_at(s, pos) {
        Err(e) => Err(e),
        Ok((name, p1)) => match parse_u8_at(s, p1) {
            Err(e) => Err(e),
            Ok((parent, p2)) => match parse_words_at(s, p2, 16) {
                Err(e) => Err(e),
                Ok((tpose, p3)) => match parse_words_at(s, p3, 16) {
                    Err(e) => Err(e),
                    Ok((ibm, p4)) => Ok((
                        JointView {
                            name,
                            tpose,
                            ibm,
                            local_anim_pose: None,
                            parent_id: parent as int,
                            parents: Seq::<int>::empty(),
                        },
                        p4,
                    )),
                },
            },
        },
    }
}

/// `n` joint records in a row.
pub open spec fn parse_joints_at(s: Seq<u8>, pos: int, n: nat) -> Result<
    (Seq<JointView>, int),
    AssetError,
>
    decreases n,
{
    if n == 0 {
        Ok((Seq::<JointView>::empty(), pos))
    } else {
        match parse_joint_at(s, pos) {
            Err(e) => Err(e),
            Ok((j, p1)) => match parse_joints_at(s, p1, (n - 1) as nat) {
                Err(e) => Err(e),
                Ok((js, p2)) => Ok((seq![j] + js, p2)),
            },
        }
    }
}

/// A whole compiled mesh file against a material: the magic byte, the
/// vertex-variant name (which must be known and must fit the material), the
/// vertex count and stream, and, for the skinned layout, the joint count
/// (rejected at or over capacity) and the joint records, from which the
/// skeleton is built. Trailing bytes are ignored.
pub open spec fn parse_mesh(s: Seq<u8>, material: MaterialKind) -> Result<MeshView, AssetError> {
    if s.len() < 1 {
        Err(AssetError::Truncated)
    } else if s[0] != 'M' as u8 {
        Err(AssetError::BadMagic)
    } else {
        match parse_name_at(s, 1) {
            Err(e) => Err(e),
            Ok((vname, p1)) => if vname != variant_name_spec(VertexType::Basic)
                && vname != variant_name_spec(VertexType::NJW) {
                Err(AssetError::UnknownVertexType)
            } else {
                let vt = if vname == variant_name_spec(VertexType::Basic) {
                    VertexType::Basic
                } else {
                    VertexType::NJW
                };
                if !compatible_spec(vt, material) {
                    Err(AssetError::IncompatibleMaterial)
                } else {
                    match parse_u32_at(s, p1) {
                        Err(e) => Err(e),
                        Ok((n, p2)) => match vt {
                            VertexType::Basic => match parse_basics_at(s, p2, n as nat) {
                                Err(e) => Err(e),
                                Ok((vs, _)) => Ok(MeshView {
                                    vertex_type: vt,
                                    vertices_len: n,
                                    vertices: VertexDataView::Basic(vs),
                                    skeleton: None,
                                }),
                            },
                            VertexType::NJW => match parse_njws_at(s, p2, n as nat) {
                                Err(e) => Err(e),
                                Ok((vs, p3)) => match parse_u8_at(s, p3) {
                                    Err(e) => Err(e),
                                    Ok((jn, p4)) => if jn >= 64 {
                                        Err(AssetError::TooManyJoints)
                                    } else {
                                        match parse_joints_at(s, p4, jn as nat) {
                                            Err(e) => Err(e),
                                            Ok((js, _)) => match skeleton_new_spec(js) {
                                                Err(e) => Err(e),
                                                Ok(sk) => Ok(MeshView {
                                                    vertex_type: vt,
                                                    vertices_len: n,
                                                    vertices: VertexDataView::NJW(vs),
                                                    skeleton: Some(sk),
                                                }),
                                            },
                                        }
                                    },
                                },
                            },
                        },
                    }
                }
            },
        }
    }
}

impl Mesh {
    pub open spec fn wf(&self) -> bool {
        self@.wf()
    }

    /// Decodes a compiled mesh file for a material, failing exactly where
    /// the format or the pairing is wrong.
    #[verifier::loop_isolation(false)]
    #[verifier::rlimit(60)]
    pub fn load(bytes: Vec<u8>, material: MaterialKind) -> (r: Result<Mesh, AssetError>)
        ensures
            match r {
                Ok(m) => parse_mesh(bytes@, material) == Ok::<MeshView, AssetError>(m@)
                    && m.wf(),
                Err(e) => parse_mesh(bytes@, material) == Err::<MeshView, AssetError>(e),
            },
    {
        let ghost s = bytes@;
        let mut cur = Cursor::new(bytes);
        let magic = match cur.read_u8() {
            Ok(v) => v,
            Err(e) => {
                return Err(e);
            },
        };
        if magic != 'M' as u8 {
            return Err(AssetError::BadMagic);
        }
        let vname = match cur.read_str() {
            Ok(v) => v,
            Err(e) => {
                return Err(e);
            },
        };
        let ghost p1 = cur.pos();
        assert(parse_name_at(s, 1) == Ok::<_, AssetError>((vname@, p1)));
        let vt = match VertexType::parse(&vname) {
            Some(v) => v,
            None => {
                return Err(AssetError::UnknownVertexType);
            },
        };
        if !vt.compatible(&material) {
            return Err(AssetError::IncompatibleMaterial);
        }
        let n = match cur.read_u32() {
            Ok(v) => v,
            Err(e) => {
                return Err(e);
            },
        };
        let ghost p2 = cur.pos();
        assert(parse_u32_at(s, p1) == Ok::<_, AssetError>((n, p2)));
        let count = n as usize;
        match vt {
            VertexType::Basic => {
                let mut vs: Vec<Basic> = Vec::new();
                proof {
                    assert(vs.deep_view() =~= Seq::<BasicView>::empty());
                    match parse_basics_at(s, cur.pos(), count as nat) {
                        Ok((rest, p)) => {
                            assert(vs.deep_view() + rest =~= rest);
                        },
                        Err(_) => {},
                    }
                }
                let mut k: usize = 0;
                while k < count
                    invariant
                        k <= count,
                        cur.wf(),
                        cur.bytes() == s,
                        vs@.len() == k,
                        forall|q: int| 0 <= q < k ==> (#[trigger] vs.deep_view()[q]).position.len()
                            == 3,
                        parse_basics_at(s, p2, count as nat) == (match parse_basics_at(
                            s,
                            cur.pos(),
                            (count - k) as nat,
                        ) {
                            Ok((rest, p)) => Ok::<_, AssetError>((vs.deep_view() + rest, p)),
                            Err(e) => Err(e),
                        }),
                    decreases count - k,
                {
                    let ghost pk = cur.pos();
                    let position = match cur.read_vec3() {
                        Ok(v) => v,
                        Err(e) => {
                            assert(parse_basic_at(s, pk) == Err::<(BasicView, int), _>(e));
                            return Err(e);
                        },
                    };
                    let v = Basic { position };
                    assert(parse_basic_at(s, pk) == Ok::<_, AssetError>((v@, cur.pos())));
                    let ghost prevv = vs@;
                    let ghost prevd = vs.deep_view();
                    vs.push(v);
                    proof {
                        assert(vs.deep_view() =~= prevd.push(v@));
                        assert forall|q: int| 0 <= q < k + 1 implies (#[trigger] vs.deep_view()[q])
                            .position.len() == 3 by {
                            if q < k {
                                assert(vs.deep_view()[q] == prevd[q]);
                            }
                        }
                        assert(parse_basics_at(s, pk, (count - k) as nat) == (
                            match parse_basics_at(s, cur.pos(), (count - k - 1) as nat) {
                                Ok((rest, p)) => Ok::<_, AssetError>((seq![v@] + rest, p)),
                                Err(e) => Err(e),
                            }));
                        if parse_basics_at(s, cur.pos(), (count - k - 1) as nat) is Ok {
                            let (rest, p) = parse_basics_at(
                                s,
                                cur.pos(),
                                (count - k - 1) as nat,
                            ).unwrap();
                            assert(prevd + (seq![v@] + rest) =~= vs.deep_view() + rest);
                        }
                    }
                    k += 1;
                }
                proof {
                    assert(parse_basics_at(s, cur.pos(), 0) == Ok::<_, AssetError>((
                        Seq::<BasicView>::empty(),
                        cur.pos(),
                    )));
                    assert(vs.deep_view() + Seq::<BasicView>::empty() =~= vs.deep_view());
                }
                let m = Mesh {
                    vertex_type: vt,
                    vertices_len: n,
                    vertices: VertexData::Basic(vs),
                    skeleton: None,
                };
                assert(parse_mesh(s, material) == Ok::<MeshView, AssetError>(m@));
                Ok(m)
            },
            VertexType::NJW => {
                let mut vs: Vec<NJW> = Vec::new();
                proof {
                    assert(vs.deep_view() =~= Seq::<NJWView>::empty());
                    match parse_njws_at(s, cur.pos(), count as nat) {
                        Ok((rest, p)) => {
                            assert(vs.deep_view() + rest =~= rest);
                        },
                        Err(_) => {},
                    }
                }
                let mut k: usize = 0;
                while k < count
                    invariant
                        k <= count,
                        cur.wf(),
                        cur.bytes() == s,
                        vs@.len() == k,
                        forall|q: int| 0 <= q < k ==> {
                            &&& (#[trigger] vs.deep_view()[q]).position.len() == 3
                            &&& vs.deep_view()[q].normal.len() == 3
                            &&& vs.deep_view()[q].uv.len() == 2
                            &&& vs.deep_view()[q].joints.len() == 4
                            &&& vs.deep_view()[q].weights.len() == 4
                        },
                        parse_njws_at(s, p2, count as nat) == (match parse_njws_at(
                            s,
                            cur.pos(),
                            (count - k) as nat,
                        ) {
                            Ok((rest, p)) => Ok::<_, AssetError>((vs.deep_view() + rest, p)),
                            Err(e) => Err(e),
                        }),
                    decreases count - k,
                {
                    let ghost pk = cur.pos();
                    let position = match cur.read_vec3() {
                        Ok(v) => v,
                        Err(e) => {
                            assert(parse_njw_at(s, pk) == Err::<(NJWView, int), _>(e));
                            return Err(e);
                        },
                    };
                    let normal = match cur.read_vec3() {
                        Ok(v) => v,
                        Err(e) => {
                            assert(parse_njw_at(s, pk) == Err::<(NJWView, int), _>(e));
                            return Err(e);
                        },
                    };
                    let uv = match cur.read_vec2() {
                        Ok(v) => v,
                        Err(e) => {
                            assert(parse_njw_at(s, pk) == Err::<(NJWView, int), _>(e));
                            return Err(e);
                        },
                    };
                    let joints = match cur.read_joints() {
                        Ok(v) => v,
                        Err(e) => {
                            assert(parse_njw_at(s, pk) == Err::<(NJWView, int), _>(e));
                            return Err(e);
                        },
                    };
                    let weights = match cur.read_vec4() {
                        Ok(v) => v,
                        Err(e) => {
                            assert(parse_njw_at(s, pk) == Err::<(NJWView, int), _>(e));
                            return Err(e);
                        },
                    };
                    let v = NJW { position, normal, uv, joints, weights };
                    assert(v@.joints =~= Seq::new(4, |q: int| s[pk + 32 + q] as u32));
                    assert(parse_njw_at(s, pk) == Ok::<_, AssetError>((v@, cur.pos())));
                    let ghost prevd = vs.deep_view();
                    vs.push(v);
                    proof {
                        assert(vs.deep_view() =~= prevd.push(v@));
                        assert forall|q: int| 0 <= q < k + 1 implies {
                            &&& (#[trigger] vs.deep_view()[q]).position.len() == 3
                            &&& vs.deep_view()[q].normal.len() == 3
                            &&& vs.deep_view()[q].uv.len() == 2
                            &&& vs.deep_view()[q].joints.len() == 4
                            &&& vs.deep_view()[q].weights.len() == 4
                        } by {
                            if q < k {
                                assert(vs.deep_view()[q] == prevd[q]);
                            }
                        }
                        assert(parse_njws_at(s, pk, (count - k) as nat) == (
                            match parse_njws_at(s, cur.pos(), (count - k - 1) as nat) {
                                Ok((rest, p)) => Ok::<_, AssetError>((seq![v@] + rest, p)),
                                Err(e) => Err(e),
                            }));
                        if parse_njws_at(s, cur.pos(), (count - k - 1) as nat) is Ok {
                            let (rest, p) = parse_njws_at(
                                s,
                                cur.pos(),
                                (count - k - 1) as nat,
                            ).unwrap();
                            assert(prevd + (seq![v@] + rest) =~= vs.deep_view() + rest);
                        }
                    }
                    k += 1;
                }
                let ghost p3 = cur.pos();
                proof {
                    assert(parse_njws_at(s, p3, 0) == Ok::<_, AssetError>((
                        Seq::<NJWView>::empty(),
                        p3,
                    )));
                    assert(vs.deep_view() + Seq::<NJWView>::empty() =~= vs.deep_view());
                }
                let jn = match cur.read_u8() {
                    Ok(v) => v,
                    Err(e) => {
                        return Err(e);
                    },
                };
                let ghost p4 = cur.pos();
                if jn >= 64 {
                    return Err(AssetError::TooManyJoints);
                }
                let jcount = jn as usize;
                let mut joints: Vec<Joint> = Vec::new();
                proof {
                    assert(joints.deep_view() =~= Seq::<JointView>::empty());
                    match parse_joints_at(s, cur.pos(), jcount as nat) {
                        Ok((rest, p)) => {
                            assert(joints.deep_view() + rest =~= rest);
                        },
                        Err(_) => {},
                    }
                }
                let mut k: usize = 0;
                while k < jcount
                    invariant
                        k <= jcount,
                        cur.wf(),
                        cur.bytes() == s,
                        joints@.len() == k,
                        forall|q: int| 0 <= q < k ==> (#[trigger] joints.deep_view()[q]).wf(),
                        parse_joints_at(s, p4, jcount as nat) == (match parse_joints_at(
                            s,
                            cur.pos(),
                            (jcount - k) as nat,
                        ) {
                            Ok((rest, p)) => Ok::<_, AssetError>((joints.deep_view() + rest, p)),
                            Err(e) => Err(e),
                        }),
                    decreases jcount - k,
                {
                    let ghost pk = cur.pos();
                    let name = match cur.read_str() {
                        Ok(v) => v,
                        Err(e) => {
                            assert(parse_joint_at(s, pk) == Err::<(JointView, int), _>(e));
                            return Err(e);
                        },
                    };
                    let parent = match cur.read_u8() {
                        Ok(v) => v,
                        Err(e) => {
                            assert(parse_joint_at(s, pk) == Err::<(JointView, int), _>(e));
                            return Err(e);
                        },
                    };
                    let tpose = match cur.read_mat4x4() {
                        Ok(v) => v,
                        Err(e) => {
                            assert(parse_joint_at(s, pk) == Err::<(JointView, int), _>(e));
                            return Err(e);
                        },
                    };
                    let ibm = match cur.read_mat4x4() {
                        Ok(v) => v,
                        Err(e) => {
                            assert(parse_joint_at(s, pk) == Err::<(JointView, int), _>(e));
                            return Err(e);
                        },
                    };
                    let j = Joint::new(name, parent, tpose, ibm);
                    assert(parse_joint_at(s, pk) == Ok::<_, AssetError>((j@, cur.pos())));
                    let ghost prevd = joints.deep_view();
                    joints.push(j);
                    proof {
                        assert(joints.deep_view() =~= prevd.push(j@));
                        assert forall|q: int| 0 <= q < k + 1 implies (#[trigger] joints
                            .deep_view()[q]).wf() by {
                            if q < k {
                                assert(joints.deep_view()[q] == prevd[q]);
                            }
                        }
                        assert(parse_joints_at(s, pk, (jcount - k) as nat) == (
                            match parse_joints_at(s, cur.pos(), (jcount - k - 1) as nat) {
                                Ok((rest, p)) => Ok::<_, AssetError>((seq![j@] + rest, p)),
                                Err(e) => Err(e),
                            }));
                        if parse_joints_at(s, cur.pos(), (jcount - k - 1) as nat) is Ok {
                            let (rest, p) = parse_joints_at(
                                s,
                                cur.pos(),
                                (jcount - k - 1) as nat,
                            ).unwrap();
                            assert(prevd + (seq![j@] + rest) =~= joints.deep_view() + rest);
                        }
                    }
                    k += 1;
                }
                proof {
                    assert(parse_joints_at(s, cur.pos(), 0) == Ok::<_, AssetError>((
                        Seq::<JointView>::empty(),
                        cur.pos(),
                    )));
                    assert(joints.deep_view() + Seq::<JointView>::empty() =~= joints.deep_view());
                }
                let ghost jviews = joints.deep_view();
                let skeleton = match Skeleton::new(joints) {
                    Ok(sk) => sk,
                    Err(e) => {
                        assert(skeleton_new_spec(jviews) == Err::<SkeletonView, _>(e));
                        return Err(e);
                    },
                };
                let m = Mesh {
                    vertex_type: vt,
                    vertices_len: n,
                    vertices: VertexData::NJW(vs),
                    skeleton: Some(skeleton),
                };
                assert(parse_mesh(s, material) == Ok::<MeshView, AssetError>(m@));
                Ok(m)
            },
        }
    }

    /// Samples a clip into this mesh's skeleton, if it has one; a mesh
    /// without a skeleton is left untouched.
    pub fn set_animation_pose(&mut self, animation: &Animation, frame: usize)
        requires
            old(self).wf(),
            animation@.wf(),
            (frame as int) < animation@.frames,
        ensures
            final(self).wf(),
            final(self).vertex_type == old(self).vertex_type,
            final(self).vertices_len == old(self).vertices_len,
            final(self).vertices == old(self).vertices,
            match old(self)@.skeleton {
                Some(sk0) => final(self)@.skeleton matches Some(sk1)
                    && sk1.pose_table == sk0.pose_table
                    && sk1.joints.len() == sk0.joints.len()
                    && (forall|i: int| 0 <= i < sk0.joints.len()
                        ==> #[trigger] sk1.joints[i] == joint_sampled(
                            sk0.joints[i],
                            animation@.tracks,
                            frame as int,
                        )),
                None => final(self)@.skeleton is None,
            },
    {
        match &mut self.skeleton {
            Some(sk) => {
                sk.set_pose(animation, frame);
            },
            None => {},
        }
    }
}

} // verus!
