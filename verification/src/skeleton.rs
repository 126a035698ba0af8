//! Joint tables with parent links. Construction resolves every joint's
//! ancestor chain once, so per-frame pose evaluation never re-walks the
//! hierarchy; the float matrix products themselves are the renderer's work
//! and are described here as composition steps over bit-pattern matrices.

use vstd::prelude::*;

use crate::mat::{mat4_identity, Mat4};
use crate::AssetError;

verus! {

/// Fixed capacity of the GPU pose table; a skeleton must stay below it.
pub const MAX_JOINTS: usize = 64;

/// Parent value meaning "this joint is a root".
pub const ROOT_SENTINEL: usize = 255;

pub ghost struct JointView {
    pub name: Seq<u8>,
    pub tpose: Seq<u32>,
    pub ibm: Seq<u32>,
    pub local_anim_pose: Option<Seq<u32>>,
    pub parent_id: int,
    pub parents: Seq<int>,
}

impl JointView {
    pub open spec fn wf(self) -> bool {
        &&& self.tpose.len() == 16
        &&& self.ibm.len() == 16
        &&& match self.local_anim_pose {
            Some(m) => m.len() == 16,
            None => true,
        }
    }
}

/// One node of a skeletal rig: its name, bind-pose local matrix, inverse-
/// bind matrix, the live animation-supplied matrix if any, its parent (or
/// the root sentinel), and the precomputed ancestor chain, root first.
pub struct Joint {
    pub name: Vec<u8>,
    pub tpose: Mat4,
    pub ibm: Mat4,
    pub local_anim_pose: Option<Mat4>,
    pub parent_id: usize,
    pub parents: Vec<usize>,
}

impl View for Joint {
    type V = JointView;

    open spec fn view(&self) -> JointView {
        JointView {
            name: self.name@,
            tpose: self.tpose@,
            ibm: self.ibm@,
            local_anim_pose: match self.local_anim_pose {
                Some(m) => Some(m@),
                None => None,
            },
            parent_id: self.parent_id as int,
            parents: self.parents@.map_values(|p: usize| p as int),
        }
    }
}

impl DeepView for Joint {
    type V = JointView;

    open spec fn deep_view(&self) -> JointView {
        self@
    }
}

impl Joint {
    pub fn new(name: Vec<u8>, parent: u8, tpose: Mat4, ibm: Mat4) -> (r: Joint)
        ensures
            r@ == (JointView {
                name: name@,
                tpose: tpose@,
                ibm: ibm@,
                local_anim_pose: None,
                parent_id: parent as int,
                parents: Seq::<int>::empty(),
            }),
    {
        let r = Joint {
            name,
            tpose,
            ibm,
            local_anim_pose: None,
            parent_id: parent as usize,
            parents: Vec::new(),
        };
        assert(r@.parents =~= Seq::<int>::empty());
        r
    }
}

/// The parent index of each joint.
pub open spec fn parent_ids(js: Seq<JointView>) -> Seq<int> {
    js.map_values(|j: JointView| j.parent_id)
}

/// Every parent link is either the root sentinel or a valid joint index.
pub open spec fn parents_in_range(ps: Seq<int>) -> bool {
    forall|i: int| 0 <= i < ps.len() ==> (ps[i] == 255 || 0 <= ps[i] < ps.len())
}

/// The ancestors of joint `i`, root first, immediate parent last; `None`
/// when the walk steps out of range or does not reach a root within `fuel`
/// links (with `fuel` at least the joint count, that means a cycle).
pub open spec fn ancestor_chain(ps: Seq<int>, i: int, fuel: nat) -> Option<Seq<int>>
    decreases fuel,
{
    if !(0 <= i < ps.len()) {
        None
    } else if ps[i] == 255 {
        Some(Seq::<int>::empty())
    } else if !(0 <= ps[i] < ps.len()) {
        None
    } else if fuel == 0 {
        None
    } else {
        match ancestor_chain(ps, ps[i], (fuel - 1) as nat) {
            None => None,
            Some(c) => Some(c.push(ps[i])),
        }
    }
}

/// Every joint's parent walk reaches a root.
pub open spec fn acyclic(ps: Seq<int>) -> bool {
    forall|i: int| 0 <= i < ps.len() ==> ancestor_chain(ps, i, ps.len() as nat) is Some
}

/// A resolved ancestor chain only holds valid joint indices.
pub proof fn lemma_chain_in_range(ps: Seq<int>, i: int, fuel: nat)
    requires
        ancestor_chain(ps, i, fuel) is Some,
    ensures
        forall|k: int| 0 <= k < ancestor_chain(ps, i, fuel).unwrap().len()
            ==> 0 <= #[trigger] ancestor_chain(ps, i, fuel).unwrap()[k] < ps.len(),
    decreases fuel,
{
    if 0 <= i < ps.len() && ps[i] != 255 {
        lemma_chain_in_range(ps, ps[i], (fuel - 1) as nat);
    }
}

pub ghost struct SkeletonView {
    pub joints: Seq<JointView>,
    pub pose_table: Seq<Seq<u32>>,
}

impl SkeletonView {
    pub open spec fn wf(self) -> bool {
        &&& self.joints.len() < MAX_JOINTS
        &&& forall|i: int| 0 <= i < self.joints.len() ==> (#[trigger] self.joints[i]).wf()
        &&& parents_in_range(parent_ids(self.joints))
        &&& forall|i: int| 0 <= i < self.joints.len()
            ==> ancestor_chain(parent_ids(self.joints), i, self.joints.len() as nat)
                == Some((#[trigger] self.joints[i]).parents)
        &&& self.pose_table.len() == MAX_JOINTS
        &&& forall|k: int| 0 <= k < self.pose_table.len()
            ==> (#[trigger] self.pose_table[k]).len() == 16
    }
}

/// A skeleton: the joint list (index is the joint id) plus the GPU-facing
/// pose table, sized for the full capacity with identity in unused slots.
pub struct Skeleton {
    pub joints: Vec<Joint>,
    pub pose_table: Vec<Mat4>,
}

impl View for Skeleton {
    type V = SkeletonView;

    open spec fn view(&self) -> SkeletonView {
        SkeletonView {
            joints: self.joints.deep_view(),
            pose_table: self.pose_table.deep_view(),
        }
    }
}

/// What constructing a skeleton from a joint list yields: the capacity
/// check, the parent-link checks, then the same joints with their ancestor
/// chains resolved and an identity-filled pose table.
pub open spec fn skeleton_new_spec(js: Seq<JointView>) -> Result<SkeletonView, AssetError> {
    let ps = parent_ids(js);
    if js.len() >= MAX_JOINTS {
        Err(AssetError::TooManyJoints)
    } else if !parents_in_range(ps) {
        Err(AssetError::InvalidParent)
    } else if !acyclic(ps) {
        Err(AssetError::CyclicHierarchy)
    } else {
        Ok(SkeletonView {
            joints: Seq::new(js.len(), |i: int| JointView {
                parents: ancestor_chain(ps, i, js.len() as nat).unwrap(),
                ..js[i]
            }),
            pose_table: Seq::new(MAX_JOINTS as nat, |k: int| mat4_identity()),
        })
    }
}

/// Resolves the ancestor chain of joint `i` by walking parent links, with
/// enough fuel to rule out cycles.
#[verifier::loop_isolation(false)]
fn chain_of(pids: &Vec<usize>, i: usize, fuel: usize) -> (r: Result<Vec<usize>, AssetError>)
    requires
        i < pids@.len(),
        pids@.len() <= 255,
        parents_in_range(pids@.map_values(|p: usize| p as int)),
    ensures
        match r {
            Ok(c) => ancestor_chain(pids@.map_values(|p: usize| p as int), i as int, fuel as nat)
                == Some(c@.map_values(|p: usize| p as int)),
            Err(e) => e == AssetError::CyclicHierarchy
                && ancestor_chain(pids@.map_values(|p: usize| p as int), i as int, fuel as nat)
                    is None,
        },
    decreases fuel,
{
    let ghost ps = pids@.map_values(|p: usize| p as int);
    let p = pids[i];
    if p == ROOT_SENTINEL {
        let c: Vec<usize> = Vec::new();
        assert(c@.map_values(|q: usize| q as int) =~= Seq::<int>::empty());
        Ok(c)
    } else {
        assert(ps[i as int] == 255 || 0 <= ps[i as int] < ps.len());
        if fuel == 0 {
            Err(AssetError::CyclicHierarchy)
        } else {
            let mut c = match chain_of(pids, p, fuel - 1) {
                Ok(c) => c,
                Err(e) => {
                    return Err(e);
                },
            };
            c.push(p);
            assert(c@.map_values(|q: usize| q as int)
                =~= ancestor_chain(ps, p as int, (fuel - 1) as nat).unwrap().push(p as int));
            Ok(c)
        }
    }
}

impl Skeleton {
    pub open spec fn wf(&self) -> bool {
        self@.wf()
    }

    /// Builds a skeleton from an ordered joint list, rejecting one at or
    /// over capacity, with a dangling parent link, or with a parent cycle,
    /// and otherwise resolving every ancestor chain once.
    #[verifier::loop_isolation(false)]
    pub fn new(joints: Vec<Joint>) -> (r: Result<Skeleton, AssetError>)
        requires
            forall|i: int| 0 <= i < joints.deep_view().len()
                ==> (#[trigger] joints.deep_view()[i]).wf(),
        ensures
            match r {
                Ok(s) => skeleton_new_spec(joints.deep_view()) == Ok::<SkeletonView, AssetError>(s@)
                    && s.wf(),
                Err(e) => skeleton_new_spec(joints.deep_view()) == Err::<SkeletonView, _>(e),
            },
    {
        let ghost js0 = joints.deep_view();
        let ghost ps = parent_ids(js0);
        let n = joints.len();
        assert(js0.len() == n);
        if n >= MAX_JOINTS {
            return Err(AssetError::TooManyJoints);
        }
        // Gather the parent links and check them.
        let mut pids: Vec<usize> = Vec::new();
        let mut i: usize = 0;
        while i < n
            invariant
                i <= n,
                n == joints@.len(),
                js0 == joints.deep_view(),
                pids@.len() == i,
                forall|k: int| 0 <= k < i ==> pids@[k] == joints@[k].parent_id,
                forall|k: int| 0 <= k < i ==> (ps[k] == 255 || 0 <= ps[k] < n),
            decreases n - i,
        {
            let p = joints[i].parent_id;
            assert(js0[i as int] == joints@[i as int].deep_view());
            assert(js0[i as int].parent_id == p as int);
            assert(ps[i as int] == js0[i as int].parent_id);
            if p != ROOT_SENTINEL && p >= n {
                assert(!parents_in_range(ps));
                return Err(AssetError::InvalidParent);
            }
            pids.push(p);
            i += 1;
        }
        assert(pids@.map_values(|p: usize| p as int) =~= ps);
        assert(parents_in_range(ps));
        // Resolve every ancestor chain, then carry each joint over with its
        // chain filled in.
        let mut rest = joints;
        let mut out: Vec<Joint> = Vec::new();
        let mut i: usize = 0;
        while i < n
            invariant
                i <= n,
                n < MAX_JOINTS,
                pids@.len() == n,
                pids@.map_values(|p: usize| p as int) == ps,
                parents_in_range(ps),
                ps.len() == n,
                rest@.len() == n - i,
                forall|k: int| 0 <= k < n - i ==> rest@[k].deep_view() == js0[i + k],
                out@.len() == i,
                forall|k: int| 0 <= k < i ==> ancestor_chain(ps, k, n as nat) is Some,
                forall|k: int| 0 <= k < i ==> (#[trigger] out@[k]).deep_view() == (JointView {
                    parents: ancestor_chain(ps, k, n as nat).unwrap(),
                    ..js0[k]
                }),
            decreases n - i,
        {
            let c = match chain_of(&pids, i, n) {
                Ok(c) => c,
                Err(e) => {
                    assert(!acyclic(ps));
                    return Err(e);
                },
            };
            let mut j = rest.remove(0);
            j.parents = c;
            assert(j.deep_view() == (JointView {
                parents: ancestor_chain(ps, i as int, n as nat).unwrap(),
                ..js0[i as int]
            }));
            out.push(j);
            i += 1;
        }
        // An identity-filled pose table for the full capacity.
        let mut pose_table: Vec<Mat4> = Vec::new();
        let mut k: usize = 0;
        while k < MAX_JOINTS
            invariant
                k <= MAX_JOINTS,
                pose_table@.len() == k,
                forall|q: int| 0 <= q < k ==> #[trigger] pose_table.deep_view()[q]
                    == mat4_identity(),
            decreases MAX_JOINTS - k,
        {
            let m = Mat4::identity();
            assert(m.deep_view() == mat4_identity());
            let ghost prevv = pose_table@;
            let ghost prevd = pose_table.deep_view();
            pose_table.push(m);
            assert forall|q: int| 0 <= q < k + 1 implies #[trigger] pose_table.deep_view()[q]
                == mat4_identity() by {
                if q < k {
                    assert(pose_table@[q] == prevv[q]);
                    assert(pose_table.deep_view()[q] == pose_table@[q].deep_view());
                    assert(prevd[q] == prevv[q].deep_view());
                    assert(prevd[q] == mat4_identity());
                } else {
                    assert(pose_table.deep_view()[q] == m.deep_view());
                }
            }
            k += 1;
        }
        assert(pose_table.deep_view() =~= Seq::new(MAX_JOINTS as nat, |q: int| mat4_identity()));
        let s = Skeleton { joints: out, pose_table };
        proof {
            assert(acyclic(ps));
            assert(s@.joints =~= skeleton_new_spec(js0).unwrap().joints);
            assert(s@.pose_table =~= skeleton_new_spec(js0).unwrap().pose_table);
            assert(s@ == skeleton_new_spec(js0).unwrap());
            assert forall|q: int| 0 <= q < s@.joints.len() implies (#[trigger] s@.joints[q]).wf() by {
                assert(js0[q].wf());
            }
            assert(parent_ids(s@.joints) =~= ps);
        }
        Ok(s)
    }

    /// Overwrites one slot of the pose table (the renderer stores the
    /// skinning matrix it computed for that joint); all other slots keep
    /// their value.
    pub fn store_pose(&mut self, i: usize, m: Mat4)
        requires
            old(self).wf(),
            i < old(self)@.joints.len(),
            m.wf(),
        ensures
            final(self).wf(),
            final(self)@.joints == old(self)@.joints,
            final(self)@.pose_table == old(self)@.pose_table.update(i as int, m@),
    {
        assert(i < self.pose_table.len());
        self.pose_table[i] = m;
        assert(self@.pose_table =~= old(self)@.pose_table.update(i as int, m@));
    }
}

/// One composition step of a world pose: a matrix to fold into the
/// accumulator, either given outright or as a pending product of two
/// factors (left times right). Bit-pattern matrices cannot be multiplied
/// here; the renderer carries each step out in float arithmetic.
pub enum LocalPose {
    Fixed(Mat4),
    Product(Mat4, Mat4),
}

pub ghost enum LocalPoseView {
    Fixed(Seq<u32>),
    Product(Seq<u32>, Seq<u32>),
}

impl View for LocalPose {
    type V = LocalPoseView;

    open spec fn view(&self) -> LocalPoseView {
        match self {
            LocalPose::Fixed(m) => LocalPoseView::Fixed(m@),
            LocalPose::Product(a, b) => LocalPoseView::Product(a@, b@),
        }
    }
}

impl DeepView for LocalPose {
    type V = LocalPoseView;

    open spec fn deep_view(&self) -> LocalPoseView {
        self@
    }
}

/// The local pose of a joint: the live animation matrix if one is set this
/// frame, else the bind pose times the parent's inverse-bind matrix when a
/// parent exists, else the bind pose alone.
pub open spec fn local_pose_view(j: JointView, js: Seq<JointView>) -> LocalPoseView {
    match j.local_anim_pose {
        Some(m) => LocalPoseView::Fixed(m),
        None => if j.parent_id != 255 {
            LocalPoseView::Product(j.tpose, js[j.parent_id].ibm)
        } else {
            LocalPoseView::Fixed(j.tpose)
        },
    }
}

impl Joint {
    /// This joint's local pose, given the joint table it belongs to.
    pub fn local_pose(&self, joints: &Vec<Joint>) -> (r: LocalPose)
        requires
            self@.parent_id == 255 || 0 <= self@.parent_id < joints.deep_view().len(),
        ensures
            r@ == local_pose_view(self@, joints.deep_view()),
    {
        match &self.local_anim_pose {
            Some(m) => LocalPose::Fixed(m.clone_mat()),
            None => {
                if self.parent_id != ROOT_SENTINEL {
                    LocalPose::Product(
                        self.tpose.clone_mat(),
                        joints[self.parent_id].ibm.clone_mat(),
                    )
                } else {
                    LocalPose::Fixed(self.tpose.clone_mat())
                }
            },
        }
    }
}

/// The whole world-pose recipe for joint `i`: the local poses of its
/// ancestors, root first, then its own local pose. The renderer folds these
/// left-to-right into an identity accumulator and finally applies the
/// joint's inverse-bind matrix to get the skinning matrix.
pub open spec fn pose_steps_spec(js: Seq<JointView>, i: int) -> Seq<LocalPoseView> {
    js[i].parents.push(i).map_values(|k: int| local_pose_view(js[k], js))
}

impl Skeleton {
    /// The composition steps whose float evaluation is joint `i`'s world
    /// pose this frame. Recomputed from scratch on every call: nothing is
    /// cached across frames, and the result depends on the joint table
    /// alone.
    #[verifier::loop_isolation(false)]
    pub fn pose_steps(&self, i: usize) -> (r: Vec<LocalPose>)
        requires
            self.wf(),
            i < self@.joints.len(),
        ensures
            r.deep_view() == pose_steps_spec(self@.joints, i as int),
    {
        let ghost js = self@.joints;
        let ghost ext = js[i as int].parents.push(i as int);
        let n = self.joints.len();
        let mut r: Vec<LocalPose> = Vec::new();
        let parents_len = self.joints[i].parents.len();
        proof {
            lemma_chain_in_range(parent_ids(js), i as int, js.len() as nat);
            assert(js[i as int].parents == self.joints@[i as int]@.parents);
        }
        let mut k: usize = 0;
        while k < parents_len
            invariant
                k <= parents_len,
                r@.len() == k,
                forall|q: int| 0 <= q < k ==> #[trigger] r.deep_view()[q]
                    == local_pose_view(js[ext[q]], js),
            decreases parents_len - k,
        {
            let p = self.joints[i].parents[k];
            assert(ext[k as int] == p as int);
            proof {
                assert(ancestor_chain(parent_ids(js), i as int, js.len() as nat)
                    == Some(js[i as int].parents));
                assert(ancestor_chain(parent_ids(js), i as int, js.len() as nat).unwrap()[k as int]
                    == js[i as int].parents[k as int]);
            }
            assert(0 <= js[i as int].parents[k as int] < js.len());
            proof {
                assert(parent_ids(js)[p as int] == js[p as int].parent_id);
                assert(js[p as int].parent_id == 255 || 0 <= js[p as int].parent_id < js.len());
            }
            let ghost prevv = r@;
            let ghost prevd = r.deep_view();
            let lp = self.joints[p].local_pose(&self.joints);
            r.push(lp);
            assert forall|q: int| 0 <= q < k + 1 implies #[trigger] r.deep_view()[q]
                == local_pose_view(js[ext[q]], js) by {
                if q < k {
                    assert(r@[q] == prevv[q]);
                    assert(r.deep_view()[q] == r@[q].deep_view());
                    assert(prevd[q] == prevv[q].deep_view());
                }
            }
            k += 1;
        }
        let ghost prevv = r@;
        let ghost prevd = r.deep_view();
        let own = self.joints[i].local_pose(&self.joints);
        r.push(own);
        proof {
            assert(ext[parents_len as int] == i as int);
            assert forall|q: int| 0 <= q < r@.len() implies #[trigger] r.deep_view()[q]
                == local_pose_view(js[ext[q]], js) by {
                if q < parents_len {
                    assert(r@[q] == prevv[q]);
                    assert(r.deep_view()[q] == r@[q].deep_view());
                    assert(prevd[q] == prevv[q].deep_view());
                } else {
                    assert(r@[q] == own);
                    assert(r.deep_view()[q] == own@);
                }
            }
            assert(r.deep_view() =~= pose_steps_spec(js, i as int));
        }
        r
    }
}

/// Recomputing a pose with no joint change in between yields the same
/// composition steps: the recipe is a pure function of the joint table
/// alone. In particular it never reads the pose table, so the skinning
/// matrices one frame stores never bleed into the next frame's
/// recomputation.
pub proof fn lemma_pose_recompute_stable(a: SkeletonView, b: SkeletonView, i: int)
    requires
        a.joints == b.joints,
    ensures
        pose_steps_spec(a.joints, i) == pose_steps_spec(b.joints, i),
{
}

/// For a three-level chain root -> mid -> leaf, the leaf's resolved
/// ancestor list is exactly [root, mid], root first.
pub proof fn lemma_three_level_chain(ps: Seq<int>, root: int, mid: int, leaf: int, fuel: nat)
    requires
        0 <= root < ps.len(),
        0 <= mid < ps.len(),
        0 <= leaf < ps.len(),
        root != 255,
        mid != 255,
        ps[root] == 255,
        ps[mid] == root,
        ps[leaf] == mid,
        fuel >= 2,
    ensures
        ancestor_chain(ps, leaf, fuel) == Some(seq![root, mid]),
{
    assert(ancestor_chain(ps, root, (fuel - 2) as nat) == Some(Seq::<int>::empty()));
    assert(ancestor_chain(ps, mid, (fuel - 1) as nat) == Some(Seq::<int>::empty().push(root)));
    assert(ancestor_chain(ps, leaf, fuel) == Some(Seq::<int>::empty().push(root).push(mid)));
    assert(Seq::<int>::empty().push(root).push(mid) =~= seq![root, mid]);
}

} // verus!
