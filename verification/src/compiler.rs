//! The offline asset compiler's decision logic and serialization: per-
//! directory configuration, the mesh-document model handed over by the
//! interchange parser, index-buffer unrolling into the compiled vertex
//! stream, parent resolution for skin joints, and the byte layout of the
//! compiled files. Directory walking, file I/O and the interchange parsing
//! itself stay with the driver.

use vstd::prelude::*;

use crate::codec::{append_u32, be32, find_byte, DELIM};
use crate::mat::Mat4;
use crate::vertex::{variant_name_spec, VertexType};
use crate::AssetError;

verus! {

/// The newline byte that separates configuration lines.
pub const LF: u8 = 0x0a;

/// The carriage return a configuration line may end with.
pub const CR: u8 = 0x0d;

/// The bytes of the one recognized configuration key.
pub open spec fn vertex_type_key() -> Seq<u8> {
    seq![
        'V' as u8, 'e' as u8, 'r' as u8, 't' as u8, 'e' as u8, 'x' as u8,
        'T' as u8, 'y' as u8, 'p' as u8, 'e' as u8,
    ]
}

/// A configuration line with at most one trailing carriage return removed.
pub open spec fn strip_cr(line: Seq<u8>) -> Seq<u8> {
    if line.len() > 0 && line.last() == CR {
        line.drop_last()
    } else {
        line
    }
}

/// Whether a configuration line reads `VertexType=Basic`: the key is what
/// stands before the first `=`, the value what stands between the first
/// and the second `=` (or the end of the line). Any other line is ignored.
pub open spec fn line_selects_basic(line: Seq<u8>) -> bool {
    let l = strip_cr(line);
    match find_byte(l, '=' as u8, 0) {
        None => false,
        Some(k) => l.take(k) == vertex_type_key() && (match find_byte(l, '=' as u8, (k + 1) as nat) {
            None => l.subrange(k + 1, l.len() as int) == variant_name_spec(VertexType::Basic),
            Some(k2) => l.subrange(k + 1, k2) == variant_name_spec(VertexType::Basic),
        }),
    }
}

/// The layout after one line: `VertexType=Basic` selects the basic layout,
/// every other line (any other value included) leaves the current one.
pub open spec fn apply_line(cur: VertexType, line: Seq<u8>) -> VertexType {
    if line_selects_basic(line) {
        VertexType::Basic
    } else {
        cur
    }
}

/// The layout after a whole configuration text, read line by line.
pub open spec fn conf_vertex_type(cur: VertexType, text: Seq<u8>) -> VertexType
    decreases text.len(),
    via conf_vertex_type_decreases
{
    if text.len() == 0 {
        cur
    } else {
        match find_byte(text, LF, 0) {
            Some(j) => conf_vertex_type(apply_line(cur, text.take(j)), text.skip(j + 1)),
            None => apply_line(cur, text),
        }
    }
}

#[via_fn]
proof fn conf_vertex_type_decreases(cur: VertexType, text: Seq<u8>) {
    crate::codec::lemma_find_byte_props(text, LF, 0);
}

/// Per-directory compiler configuration: which vertex layout meshes at or
/// below the directory compile to. The skinned layout is the default.
#[derive(Clone, Copy, Debug)]
pub struct Config {
    pub vertex_type: VertexType,
}

impl Config {
    /// The root configuration: the skinned layout unless the root
    /// directory's configuration text (if there is one) says otherwise.
    pub fn new(text: Option<&Vec<u8>>) -> (r: Config)
        ensures
            r.vertex_type == (match text {
                Some(t) => conf_vertex_type(VertexType::NJW, t@),
                None => VertexType::NJW,
            }),
    {
        let base = Config { vertex_type: VertexType::NJW };
        base.read(text)
    }

    /// The configuration a directory hands to its entries: its own file's
    /// settings over the inherited ones; with no file, the inherited
    /// configuration stands unchanged.
    pub fn read(&self, text: Option<&Vec<u8>>) -> (r: Config)
        ensures
            r.vertex_type == (match text {
                Some(t) => conf_vertex_type(self.vertex_type, t@),
                None => self.vertex_type,
            }),
    {
        match text {
            None => Config { vertex_type: self.vertex_type },
            Some(t) => Config { vertex_type: apply_text(self.vertex_type, t) },
        }
    }
}

/// Scans a configuration text line by line.
#[verifier::loop_isolation(false)]
fn apply_text(cur: VertexType, t: &Vec<u8>) -> (r: VertexType)
    ensures
        r == conf_vertex_type(cur, t@),
{
    let mut vt = cur;
    let mut start: usize = 0;
    proof {
        assert(t@.skip(0) =~= t@);
    }
    while start < t.len()
        invariant
            start <= t@.len(),
            conf_vertex_type(cur, t@) == conf_vertex_type(vt, t@.skip(start as int)),
        decreases t@.len() - start,
    {
        let ghost remaining = t@.skip(start as int);
        let mut j: usize = start;
        while j < t.len() && t[j] != LF
            invariant
                start <= j <= t@.len(),
                find_byte(t@, LF, start as nat) == find_byte(t@, LF, j as nat),
            decreases t@.len() - j,
        {
            assert(find_byte(t@, LF, j as nat) == find_byte(t@, LF, (j + 1) as nat));
            j += 1;
        }
        let mut line: Vec<u8> = Vec::new();
        let mut q: usize = start;
        while q < j
            invariant
                start <= q <= j <= t@.len(),
                line@ == t@.subrange(start as int, q as int),
            decreases j - q,
        {
            line.push(t[q]);
            assert(line@ =~= t@.subrange(start as int, (q + 1) as int));
            q += 1;
        }
        proof {
            crate::codec::lemma_find_byte_skip(t@, LF, start as nat, 0);
            if j < t@.len() {
                assert(find_byte(t@, LF, j as nat) == Some(j as int));
            } else {
                assert(find_byte(t@, LF, j as nat) is None);
            }
            assert(remaining =~= t@.subrange(start as int, t@.len() as int));
            assert(line@ =~= remaining.take((j - start) as int));
        }
        let selects = line_basic(&line);
        if selects {
            vt = VertexType::Basic;
        }
        if j < t.len() {
            proof {
                assert(remaining.skip((j - start + 1) as int) =~= t@.skip((j + 1) as int));
                assert(conf_vertex_type(vt, remaining.skip((j - start + 1) as int))
                    == conf_vertex_type(vt, t@.skip((j + 1) as int)));
            }
            start = j + 1;
        } else {
            proof {
                assert(t@.skip(t@.len() as int) =~= Seq::<u8>::empty());
            }
            start = t.len();
        }
    }
    proof {
        assert(t@.skip(start as int) =~= Seq::<u8>::empty());
    }
    vt
}

/// The layout in force at the end of a chain of directories, given each
/// directory's configuration text from the root down (`None` where a
/// directory has no configuration file): the default layout is skinned,
/// and each file refines what its parent handed down.
pub open spec fn chain_vertex_type(texts: Seq<Option<Seq<u8>>>) -> VertexType
    decreases texts.len(),
{
    if texts.len() == 0 {
        VertexType::NJW
    } else {
        let inherited = chain_vertex_type(texts.drop_last());
        match texts.last() {
            Some(t) => conf_vertex_type(inherited, t),
            None => inherited,
        }
    }
}

/// A directory with no configuration file inherits its layout unchanged
/// from its parent chain.
pub proof fn lemma_config_inherited(texts: Seq<Option<Seq<u8>>>)
    requires
        texts.len() > 0,
        texts.last() is None,
    ensures
        chain_vertex_type(texts) == chain_vertex_type(texts.drop_last()),
{
}

/// The layout at the end of a chain is decided by the nearest directory
/// that has a configuration file: directories below it without one change
/// nothing.
pub proof fn lemma_config_nearest_ancestor(texts: Seq<Option<Seq<u8>>>, k: int)
    requires
        0 <= k < texts.len(),
        forall|q: int| k < q < texts.len() ==> texts[q] is None,
    ensures
        chain_vertex_type(texts) == chain_vertex_type(texts.take(k + 1)),
    decreases texts.len(),
{
    if texts.len() > k + 1 {
        assert(texts.last() is None);
        assert(texts.drop_last() =~= texts.take(texts.len() - 1));
        assert forall|q: int| k < q < texts.drop_last().len()
            implies texts.drop_last()[q] is None by {
            assert(texts.drop_last()[q] == texts[q]);
        }
        lemma_config_nearest_ancestor(texts.drop_last(), k);
        assert(texts.drop_last().take(k + 1) =~= texts.take(k + 1));
    } else {
        assert(texts.take(k + 1) =~= texts);
    }
}

/// With no configuration file anywhere on the chain, the layout is the
/// skinned default.
pub proof fn lemma_config_default(texts: Seq<Option<Seq<u8>>>)
    requires
        forall|q: int| 0 <= q < texts.len() ==> texts[q] is None,
    ensures
        chain_vertex_type(texts) == VertexType::NJW,
    decreases texts.len(),
{
    if texts.len() > 0 {
        lemma_config_default(texts.drop_last());
    }
}

/// One primitive of an interchange mesh, as the external parser yields it:
/// an index buffer over per-vertex attribute arrays. Floats stand as bit
/// patterns; joint indices keep the parser's 16-bit width.
pub struct Primitive {
    pub indices: Vec<u32>,
    pub positions: Vec<[u32; 3]>,
    pub normals: Option<Vec<[u32; 3]>>,
    pub uvs: Option<Vec<[u32; 2]>>,
    pub joints: Option<Vec<[u16; 4]>>,
    pub weights: Option<Vec<[u32; 4]>>,
}

pub ghost struct PrimitiveView {
    pub indices: Seq<u32>,
    pub positions: Seq<Seq<u32>>,
    pub normals: Option<Seq<Seq<u32>>>,
    pub uvs: Option<Seq<Seq<u32>>>,
    pub joints: Option<Seq<Seq<u16>>>,
    pub weights: Option<Seq<Seq<u32>>>,
}

impl View for Primitive {
    type V = PrimitiveView;

    open spec fn view(&self) -> PrimitiveView {
        PrimitiveView {
            indices: self.indices@,
            positions: self.positions.deep_view(),
            normals: match self.normals {
                Some(ref v) => Some(v.deep_view()),
                None => None,
            },
            uvs: match self.uvs {
                Some(ref v) => Some(v.deep_view()),
                None => None,
            },
            joints: match self.joints {
                Some(ref v) => Some(v.deep_view()),
                None => None,
            },
            weights: match self.weights {
                Some(ref v) => Some(v.deep_view()),
                None => None,
            },
        }
    }
}

impl DeepView for Primitive {
    type V = PrimitiveView;

    open spec fn deep_view(&self) -> PrimitiveView {
        self@
    }
}

/// One joint node of an interchange skin: the node's own index, its
/// children's node indices, its name, and its bind-pose and inverse-bind
/// matrices (the bind pose is the inverse of the inverse-bind matrix; the
/// driver inverts it before handing the node over).
pub struct SkinNode {
    pub id: usize,
    pub children: Vec<usize>,
    pub name: Vec<u8>,
    pub tpose: Mat4,
    pub ibm: Mat4,
}

pub ghost struct SkinNodeView {
    pub id: int,
    pub children: Seq<int>,
    pub name: Seq<u8>,
    pub tpose: Seq<u32>,
    pub ibm: Seq<u32>,
}

impl View for SkinNode {
    type V = SkinNodeView;

    open spec fn view(&self) -> SkinNodeView {
        SkinNodeView {
            id: self.id as int,
            children: self.children@.map_values(|c: usize| c as int),
            name: self.name@,
            tpose: self.tpose@,
            ibm: self.ibm@,
        }
    }
}

impl DeepView for SkinNode {
    type V = SkinNodeView;

    open spec fn deep_view(&self) -> SkinNodeView {
        self@
    }
}

/// A whole interchange mesh document: its primitives and, if it is
/// rigged, its skin's joint nodes in input order.
pub struct MeshDoc {
    pub primitives: Vec<Primitive>,
    pub skin: Option<Vec<SkinNode>>,
}

pub ghost struct MeshDocView {
    pub primitives: Seq<PrimitiveView>,
    pub skin: Option<Seq<SkinNodeView>>,
}

impl View for MeshDoc {
    type V = MeshDocView;

    open spec fn view(&self) -> MeshDocView {
        MeshDocView {
            primitives: self.primitives.deep_view(),
            skin: match self.skin {
                Some(ref sk) => Some(sk.deep_view()),
                None => None,
            },
        }
    }
}

/// A name as written to a compiled file: every delimiter byte is stripped,
/// so the stored name can always be read back to its own delimiter.
pub open spec fn sanitize(name: Seq<u8>) -> Seq<u8>
    decreases name.len(),
{
    if name.len() == 0 {
        Seq::<u8>::empty()
    } else {
        let rest = sanitize(name.drop_last());
        if name.last() == DELIM {
            rest
        } else {
            rest.push(name.last())
        }
    }
}

/// A sanitized name holds no delimiter.
pub proof fn lemma_sanitize_no_delim(name: Seq<u8>)
    ensures
        forall|j: int| 0 <= j < sanitize(name).len() ==> sanitize(name)[j] != DELIM,
    decreases name.len(),
{
    if name.len() > 0 {
        lemma_sanitize_no_delim(name.drop_last());
        let rest = sanitize(name.drop_last());
        assert forall|j: int| 0 <= j < sanitize(name).len()
            implies sanitize(name)[j] != DELIM by {
            if name.last() == DELIM {
                assert(sanitize(name)[j] == rest[j]);
            } else if j < rest.len() {
                assert(sanitize(name)[j] == rest[j]);
            } else {
                assert(sanitize(name)[j] == name.last());
            }
        }
    }
}

/// Strips every delimiter byte out of a name.
#[verifier::loop_isolation(false)]
pub fn sanitize_name(name: &Vec<u8>) -> (r: Vec<u8>)
    ensures
        r@ == sanitize(name@),
{
    let mut r: Vec<u8> = Vec::new();
    let mut k: usize = 0;
    while k < name.len()
        invariant
            k <= name@.len(),
            r@ == sanitize(name@.take(k as int)),
        decreases name@.len() - k,
    {
        proof {
            assert(name@.take((k + 1) as int).drop_last() =~= name@.take(k as int));
            assert(name@.take((k + 1) as int).last() == name@[k as int]);
        }
        if name[k] != DELIM {
            r.push(name[k]);
        }
        k += 1;
    }
    proof {
        assert(name@.take(name@.len() as int) =~= name@);
    }
    r
}

/// Appends four 16-bit joint indices as single bytes, truncated to their
/// low eight bits.
pub fn append_joints(b: &mut Vec<u8>, v: [u16; 4])
    ensures
        final(b)@ == old(b)@ + Seq::new(4, |k: int| (v@[k] % 256) as u8),
{
    b.push((v[0] % 256) as u8);
    b.push((v[1] % 256) as u8);
    b.push((v[2] % 256) as u8);
    b.push((v[3] % 256) as u8);
    assert(b@ =~= old(b)@ + Seq::new(4, |k: int| (v@[k] % 256) as u8));
}

/// The bytes of a word sequence, each word big-endian.
pub open spec fn enc_words(ws: Seq<u32>) -> Seq<u8>
    decreases ws.len(),
{
    if ws.len() == 0 {
        Seq::<u8>::empty()
    } else {
        enc_words(ws.drop_last()) + be32(ws.last())
    }
}

/// `enc_words` writes four bytes per word.
pub proof fn lemma_enc_words_len(ws: Seq<u32>)
    ensures
        enc_words(ws).len() == 4 * ws.len(),
    decreases ws.len(),
{
    if ws.len() > 0 {
        lemma_enc_words_len(ws.drop_last());
    }
}

/// Each word's bytes sit at their offset in the encoding.
pub proof fn lemma_enc_words_index(ws: Seq<u32>, k: int, j: int)
    requires
        0 <= k < ws.len(),
        0 <= j < 4,
    ensures
        enc_words(ws).len() == 4 * ws.len(),
        enc_words(ws)[4 * k + j] == be32(ws[k])[j],
    decreases ws.len(),
{
    lemma_enc_words_len(ws);
    if k < ws.len() - 1 {
        lemma_enc_words_index(ws.drop_last(), k, j);
        assert(ws.drop_last()[k] == ws[k]);
        lemma_enc_words_len(ws.drop_last());
        assert(enc_words(ws)[4 * k + j] == enc_words(ws.drop_last())[4 * k + j]);
    } else {
        lemma_enc_words_len(ws.drop_last());
        assert(enc_words(ws)[4 * k + j] == be32(ws.last())[j]);
    }
}

/// Appends a matrix's sixteen words, each big-endian.
#[verifier::loop_isolation(false)]
pub fn append_mat4x4(b: &mut Vec<u8>, m: &Mat4)
    requires
        m.wf(),
    ensures
        final(b)@ == old(b)@ + enc_words(m@),
{
    let mut k: usize = 0;
    while k < m.m.len()
        invariant
            k <= m@.len(),
            b@ == old(b)@ + enc_words(m@.take(k as int)),
        decreases m@.len() - k,
    {
        proof {
            assert(m@.take((k + 1) as int).drop_last() =~= m@.take(k as int));
            assert(m@.take((k + 1) as int).last() == m@[k as int]);
        }
        append_u32(b, m.m[k]);
        k += 1;
    }
    proof {
        assert(m@.take(m@.len() as int) =~= m@);
    }
}

/// The bytes of a stored name: the sanitized name, then the delimiter.
pub open spec fn enc_name(name: Seq<u8>) -> Seq<u8> {
    sanitize(name) + seq![DELIM]
}

/// Appends a name in stored form.
#[verifier::loop_isolation(false)]
pub fn append_name(b: &mut Vec<u8>, name: &Vec<u8>)
    ensures
        final(b)@ == old(b)@ + enc_name(name@),
{
    let clean = sanitize_name(name);
    let mut k: usize = 0;
    while k < clean.len()
        invariant
            k <= clean@.len(),
            clean@ == sanitize(name@),
            b@ == old(b)@ + clean@.take(k as int),
        decreases clean@.len() - k,
    {
        b.push(clean[k]);
        assert(b@ =~= old(b)@ + clean@.take((k + 1) as int));
        k += 1;
    }
    b.push(DELIM);
    proof {
        assert(clean@.take(clean@.len() as int) =~= clean@);
        assert(b@ =~= old(b)@ + enc_name(name@));
    }
}

/// Where a skin joint's parent sits in the joint list: the first node
/// whose children include the joint's node id, truncated to a byte; the
/// sentinel 255 when no node lists it.
pub open spec fn parent_search(sk: Seq<SkinNodeView>, id: int, from: nat) -> u8
    decreases sk.len() - from,
{
    if from >= sk.len() {
        255u8
    } else if sk[from as int].children.contains(id) {
        (from % 256) as u8
    } else {
        parent_search(sk, id, from + 1)
    }
}

/// The parent index written for joint `j`.
pub open spec fn parent_of(sk: Seq<SkinNodeView>, j: int) -> u8 {
    parent_search(sk, sk[j].id, 0)
}

/// Finds the position of the joint node whose children list names `j`'s
/// node, searching the joint list in order; 255 when none does.
#[verifier::loop_isolation(false)]
pub fn get_gltf_node_parent_id(joints: &Vec<SkinNode>, j: &SkinNode) -> (r: u8)
    ensures
        r == parent_search(joints.deep_view(), j@.id, 0),
{
    let ghost sk = joints.deep_view();
    let mut b: usize = 0;
    while b < joints.len()
        invariant
            b <= joints@.len(),
            sk == joints.deep_view(),
            parent_search(sk, j@.id, 0) == parent_search(sk, j@.id, b as nat),
        decreases joints@.len() - b,
    {
        let cs = &joints[b].children;
        let mut c: usize = 0;
        let mut found = false;
        while c < cs.len()
            invariant
                c <= cs@.len(),
                cs@ == joints@[b as int].children@,
                found <==> exists|q: int| 0 <= q < c && cs@[q] == j.id,
            decreases cs@.len() - c,
        {
            if cs[c] == j.id {
                found = true;
            }
            c += 1;
        }
        proof {
            assert(sk[b as int].children == cs@.map_values(|x: usize| x as int));
            if found {
                let q = choose|q: int| 0 <= q < cs@.len() && cs@[q] == j.id;
                assert(sk[b as int].children[q] == j@.id);
                assert(sk[b as int].children.contains(j@.id));
            } else {
                if sk[b as int].children.contains(j@.id) {
                    let q = choose|q: int| 0 <= q < sk[b as int].children.len()
                        && sk[b as int].children[q] == j@.id;
                    assert(cs@[q] as int == j@.id);
                    assert(cs@[q] == j.id);
                }
            }
        }
        if found {
            return (b % 256) as u8;
        }
        assert(parent_search(sk, j@.id, b as nat) == parent_search(sk, j@.id, (b + 1) as nat));
        b += 1;
    }
    255
}

/// Appends an array of words, each big-endian.
#[verifier::loop_isolation(false)]
fn append_words<const N: usize>(b: &mut Vec<u8>, v: &[u32; N])
    ensures
        final(b)@ == old(b)@ + enc_words(v@),
{
    let mut k: usize = 0;
    while k < N
        invariant
            k <= N,
            b@ == old(b)@ + enc_words(v@.take(k as int)),
        decreases N - k,
    {
        proof {
            assert(v@.take((k + 1) as int).drop_last() =~= v@.take(k as int));
            assert(v@.take((k + 1) as int).last() == v@[k as int]);
        }
        append_u32(b, v[k]);
        k += 1;
    }
    proof {
        assert(v@.take(v@.len() as int) =~= v@);
    }
}

/// What stops a primitive from compiling under a layout: the skinned
/// layout needs normals, UVs, joints and weights; and every index-buffer
/// entry must point into the attribute arrays it gathers from.
pub open spec fn prim_indices_ok(p: PrimitiveView, vt: VertexType) -> bool {
    match vt {
        VertexType::Basic => forall|i: int| 0 <= i < p.indices.len()
            ==> (#[trigger] p.indices[i]) < p.positions.len(),
        VertexType::NJW => forall|i: int| 0 <= i < p.indices.len() ==> {
            &&& (#[trigger] p.indices[i]) < p.positions.len()
            &&& p.indices[i] < p.normals.unwrap().len()
            &&& p.indices[i] < p.uvs.unwrap().len()
            &&& p.indices[i] < p.joints.unwrap().len()
            &&& p.indices[i] < p.weights.unwrap().len()
        },
    }
}

pub open spec fn prim_err(p: PrimitiveView, vt: VertexType) -> Option<AssetError> {
    if vt == VertexType::NJW && !(p.normals is Some && p.uvs is Some && p.joints is Some
        && p.weights is Some) {
        Some(AssetError::MissingAttribute)
    } else if !prim_indices_ok(p, vt) {
        Some(AssetError::IndexOutOfRange)
    } else {
        None
    }
}

/// The first primitive problem, in input order.
pub open spec fn prims_err(ps: Seq<PrimitiveView>, vt: VertexType) -> Option<AssetError>
    decreases ps.len(),
{
    if ps.len() == 0 {
        None
    } else {
        match prim_err(ps[0], vt) {
            Some(e) => Some(e),
            None => prims_err(ps.drop_first(), vt),
        }
    }
}

/// The bytes of one output vertex: the attributes gathered at index-buffer
/// entry `i` of primitive `p`.
pub open spec fn enc_vertex(p: PrimitiveView, vt: VertexType, i: int) -> Seq<u8> {
    let idx = p.indices[i] as int;
    match vt {
        VertexType::Basic => enc_words(p.positions[idx]),
        VertexType::NJW => enc_words(p.positions[idx]) + enc_words(p.normals.unwrap()[idx])
            + enc_words(p.uvs.unwrap()[idx])
            + Seq::new(4, |k: int| (p.joints.unwrap()[idx][k] % 256) as u8)
            + enc_words(p.weights.unwrap()[idx]),
    }
}

/// The bytes of a primitive's first `k` output vertices.
pub open spec fn enc_prim_upto(p: PrimitiveView, vt: VertexType, k: nat) -> Seq<u8>
    decreases k,
{
    if k == 0 {
        Seq::<u8>::empty()
    } else {
        enc_prim_upto(p, vt, (k - 1) as nat) + enc_vertex(p, vt, k - 1)
    }
}

/// The bytes of the first `k` primitives' output vertices.
pub open spec fn enc_prims_upto(ps: Seq<PrimitiveView>, vt: VertexType, k: nat) -> Seq<u8>
    decreases k,
{
    if k == 0 {
        Seq::<u8>::empty()
    } else {
        enc_prims_upto(ps, vt, (k - 1) as nat) + enc_prim_upto(
            ps[k - 1],
            vt,
            ps[k - 1].indices.len(),
        )
    }
}

/// How many output vertices the first `k` primitives yield: one per
/// index-buffer entry.
pub open spec fn sum_indices_upto(ps: Seq<PrimitiveView>, k: nat) -> int
    decreases k,
{
    if k == 0 {
        0
    } else {
        sum_indices_upto(ps, (k - 1) as nat) + ps[k - 1].indices.len()
    }
}

/// The total output vertex count of a document.
pub open spec fn sum_indices(ps: Seq<PrimitiveView>) -> int {
    sum_indices_upto(ps, ps.len())
}

/// Prefix sums never exceed the total.
pub proof fn lemma_sum_indices_mono(ps: Seq<PrimitiveView>, a: nat, c: nat)
    requires
        a <= c <= ps.len(),
    ensures
        sum_indices_upto(ps, a) <= sum_indices_upto(ps, c),
    decreases c,
{
    if a < c {
        lemma_sum_indices_mono(ps, a, (c - 1) as nat);
    }
}

/// The bytes of one skin joint record: the sanitized name, the resolved
/// parent index, the bind-pose matrix, the inverse-bind matrix.
pub open spec fn enc_skin_joint(sk: Seq<SkinNodeView>, j: int) -> Seq<u8> {
    enc_name(sk[j].name) + seq![parent_of(sk, j)] + enc_words(sk[j].tpose) + enc_words(
        sk[j].ibm,
    )
}

/// The bytes of the first `k` skin joint records.
pub open spec fn enc_skin_upto(sk: Seq<SkinNodeView>, k: nat) -> Seq<u8>
    decreases k,
{
    if k == 0 {
        Seq::<u8>::empty()
    } else {
        enc_skin_upto(sk, (k - 1) as nat) + enc_skin_joint(sk, k - 1)
    }
}

/// The whole skeleton block: the joint count as one byte, then the joint
/// records in input order.
pub open spec fn enc_skin(sk: Seq<SkinNodeView>) -> Seq<u8> {
    seq![(sk.len() % 256) as u8] + enc_skin_upto(sk, sk.len())
}

/// What the interchange parser guarantees of the attribute arrays it
/// yields: fixed record widths.
pub open spec fn prim_wf(p: PrimitiveView) -> bool {
    &&& forall|i: int| 0 <= i < p.positions.len() ==> (#[trigger] p.positions[i]).len() == 3
    &&& match p.normals {
        Some(ns) => forall|i: int| 0 <= i < ns.len() ==> (#[trigger] ns[i]).len() == 3,
        None => true,
    }
    &&& match p.uvs {
        Some(us) => forall|i: int| 0 <= i < us.len() ==> (#[trigger] us[i]).len() == 2,
        None => true,
    }
    &&& match p.weights {
        Some(ws) => forall|i: int| 0 <= i < ws.len() ==> (#[trigger] ws[i]).len() == 4,
        None => true,
    }
}

impl MeshDocView {
    /// What the interchange parser guarantees of a document it yields:
    /// fixed-width attribute records, matrices with their sixteen words.
    pub open spec fn wf(self) -> bool {
        &&& forall|k: int| 0 <= k < self.primitives.len()
            ==> prim_wf(#[trigger] self.primitives[k])
        &&& match self.skin {
            Some(sk) => forall|j: int| 0 <= j < sk.len() ==> (#[trigger] sk[j]).tpose.len() == 16
                && sk[j].ibm.len() == 16,
            None => true,
        }
    }
}

/// What compiling a mesh document under a layout yields: the magic byte,
/// the variant name, the output vertex count, the index-unrolled vertex
/// stream, and, for the skinned layout, the skeleton block; or the first
/// error the compiler meets.
pub open spec fn compile_mesh_spec(vt: VertexType, doc: MeshDocView) -> Result<Seq<u8>, AssetError> {
    match prims_err(doc.primitives, vt) {
        Some(e) => Err(e),
        None => {
            let head = seq!['M' as u8] + variant_name_spec(vt) + seq![DELIM] + be32(
                (sum_indices(doc.primitives) % 0x1_0000_0000) as u32,
            ) + enc_prims_upto(doc.primitives, vt, doc.primitives.len());
            match vt {
                VertexType::Basic => Ok(head),
                VertexType::NJW => match doc.skin {
                    None => Err(AssetError::MissingSkin),
                    Some(sk) => Ok(head + enc_skin(sk)),
                },
            }
        },
    }
}

/// Writes one primitive's output vertices: for every index-buffer entry,
/// the attributes gathered at that index, in the layout's record shape.
#[verifier::loop_isolation(false)]
#[verifier::rlimit(60)]
#[verifier::spinoff_prover]
fn append_prim_vertices(b: &mut Vec<u8>, p: &Primitive, vt: VertexType) -> (r: Result<
    (),
    AssetError,
>)
    ensures
        match r {
            Ok(_) => prim_err(p@, vt) is None && final(b)@ == old(b)@ + enc_prim_upto(
                p@,
                vt,
                p@.indices.len(),
            ),
            Err(e) => prim_err(p@, vt) == Some(e),
        },
{
    let nidx = p.indices.len();
    match vt {
        VertexType::Basic => {
            let mut i: usize = 0;
            while i < nidx
                invariant
                    i <= nidx,
                    b@ == old(b)@ + enc_prim_upto(p@, vt, i as nat),
                    forall|t: int| 0 <= t < i ==> (#[trigger] p@.indices[t])
                        < p@.positions.len(),
                decreases nidx - i,
            {
                let idx = p.indices[i] as usize;
                if idx >= p.positions.len() {
                    proof {
                        assert(!prim_indices_ok(p@, vt));
                    }
                    return Err(AssetError::IndexOutOfRange);
                }
                append_words(b, &p.positions[idx]);
                proof {
                    assert(p.positions.deep_view()[idx as int] == p.positions@[idx as int]@);
                    assert(b@ =~= old(b)@ + enc_prim_upto(p@, vt, (i + 1) as nat));
                }
                i += 1;
            }
            Ok(())
        },
        VertexType::NJW => {
            let (ns, uvs, js, ws) = match (&p.normals, &p.uvs, &p.joints, &p.weights) {
                (Some(ns), Some(uvs), Some(js), Some(ws)) => (ns, uvs, js, ws),
                _ => {
                    return Err(AssetError::MissingAttribute);
                },
            };
            let mut i: usize = 0;
            while i < nidx
                invariant
                    i <= nidx,
                    p@.normals is Some && p@.uvs is Some && p@.joints is Some
                        && p@.weights is Some,
                    p@.normals.unwrap() == ns.deep_view(),
                    p@.uvs.unwrap() == uvs.deep_view(),
                    p@.joints.unwrap() == js.deep_view(),
                    p@.weights.unwrap() == ws.deep_view(),
                    ns@.len() == ns.deep_view().len(),
                    b@ == old(b)@ + enc_prim_upto(p@, vt, i as nat),
                    forall|t: int| 0 <= t < i ==> {
                        &&& (#[trigger] p@.indices[t]) < p@.positions.len()
                        &&& p@.indices[t] < p@.normals.unwrap().len()
                        &&& p@.indices[t] < p@.uvs.unwrap().len()
                        &&& p@.indices[t] < p@.joints.unwrap().len()
                        &&& p@.indices[t] < p@.weights.unwrap().len()
                    },
                decreases nidx - i,
            {
                let idx = p.indices[i] as usize;
                if idx >= p.positions.len() || idx >= ns.len() || idx >= uvs.len()
                    || idx >= js.len() || idx >= ws.len() {
                    proof {
                        assert(!prim_indices_ok(p@, vt));
                    }
                    return Err(AssetError::IndexOutOfRange);
                }
                append_words(b, &p.positions[idx]);
                append_words(b, &ns[idx]);
                append_words(b, &uvs[idx]);
                append_joints(b, js[idx]);
                append_words(b, &ws[idx]);
                proof {
                    assert(p.positions.deep_view()[idx as int] == p.positions@[idx as int]@);
                    assert(ns.deep_view()[idx as int] == ns@[idx as int]@);
                    assert(uvs.deep_view()[idx as int] == uvs@[idx as int]@);
                    assert(js.deep_view()[idx as int] == js@[idx as int]@);
                    assert(ws.deep_view()[idx as int] == ws@[idx as int]@);
                    assert(Seq::new(4, |t: int| (js@[idx as int]@[t] % 256) as u8)
                        =~= Seq::new(4, |t: int| (p@.joints.unwrap()[idx as int][t] % 256) as u8));
                    assert(b@ =~= old(b)@ + enc_prim_upto(p@, vt, (i + 1) as nat));
                }
                i += 1;
            }
            Ok(())
        },
    }
}

/// Writes the skeleton block: the joint count as one byte, then each
/// joint's sanitized name, resolved parent index, bind-pose matrix and
/// inverse-bind matrix, in input order.
#[verifier::loop_isolation(false)]
#[verifier::rlimit(60)]
fn append_skin_block(b: &mut Vec<u8>, sk: &Vec<SkinNode>)
    requires
        forall|j: int| 0 <= j < sk.deep_view().len() ==> (#[trigger] sk.deep_view()[j]).tpose.len()
            == 16 && sk.deep_view()[j].ibm.len() == 16,
    ensures
        final(b)@ == old(b)@ + enc_skin(sk.deep_view()),
{
    let ghost skv = sk.deep_view();
    b.push((sk.len() % 256) as u8);
    let ghost head2 = old(b)@ + seq![(skv.len() % 256) as u8];
    assert(b@ =~= head2);
    let mut j: usize = 0;
    while j < sk.len()
        invariant
            j <= sk@.len(),
            skv == sk.deep_view(),
            b@ == head2 + enc_skin_upto(skv, j as nat),
        decreases sk@.len() - j,
    {
        let node = &sk[j];
        assert(node@ == skv[j as int]);
        append_name(b, &node.name);
        let pid = get_gltf_node_parent_id(sk, node);
        b.push(pid);
        assert(node@.tpose.len() == 16 && node@.ibm.len() == 16);
        append_mat4x4(b, &node.tpose);
        append_mat4x4(b, &node.ibm);
        proof {
            assert(pid == parent_of(skv, j as int));
            assert(enc_skin_upto(skv, (j + 1) as nat) == enc_skin_upto(skv, j as nat)
                + enc_skin_joint(skv, j as int));
            assert(b@ =~= head2 + enc_skin_upto(skv, (j + 1) as nat));
        }
        j += 1;
    }
    proof {
        assert(b@ =~= old(b)@ + enc_skin(skv));
    }
}

/// Compiles one mesh document under the directory's configured layout.
#[verifier::loop_isolation(false)]
#[verifier::rlimit(60)]
#[verifier::spinoff_prover]
pub fn compile_mesh(conf: &Config, doc: &MeshDoc) -> (r: Result<Vec<u8>, AssetError>)
    requires
        sum_indices(doc@.primitives) <= u32::MAX,
        doc@.wf(),
    ensures
        match r {
            Ok(b) => compile_mesh_spec(conf.vertex_type, doc@) == Ok::<Seq<u8>, AssetError>(b@),
            Err(e) => compile_mesh_spec(conf.vertex_type, doc@) == Err::<Seq<u8>, AssetError>(e),
        },
{
    let ghost ps = doc@.primitives;
    let vt = conf.vertex_type;
    let nprims = doc.primitives.len();
    // Count the output vertices: one per index-buffer entry.
    let mut total: u32 = 0;
    let mut k: usize = 0;
    while k < nprims
        invariant
            k <= nprims,
            total == sum_indices_upto(ps, k as nat),
        decreases nprims - k,
    {
        let c = doc.primitives[k].indices.len();
        proof {
            lemma_sum_indices_mono(ps, (k + 1) as nat, ps.len());
            assert(sum_indices_upto(ps, (k + 1) as nat) == total + c);
        }
        total = total + (c as u32);
        k += 1;
    }
    assert(total == sum_indices(ps));
    assert((sum_indices(ps) % 0x1_0000_0000) as u32 == total);
    // Header: magic, variant name, vertex count.
    let mut b: Vec<u8> = Vec::new();
    b.push('M' as u8);
    let nm = vt.name_bytes();
    let mut q: usize = 0;
    while q < nm.len()
        invariant
            q <= nm@.len(),
            nm@ == variant_name_spec(vt),
            b@ == seq!['M' as u8] + nm@.take(q as int),
        decreases nm@.len() - q,
    {
        b.push(nm[q]);
        assert(b@ =~= seq!['M' as u8] + nm@.take((q + 1) as int));
        q += 1;
    }
    b.push(DELIM);
    append_u32(&mut b, total);
    let ghost head = seq!['M' as u8] + variant_name_spec(vt) + seq![DELIM] + be32(total);
    proof {
        assert(nm@.take(nm@.len() as int) =~= nm@);
        assert(b@ =~= head);
    }
    // The unrolled vertex stream.
    proof {
        assert(ps.skip(0) =~= ps);
    }
    let mut k: usize = 0;
    while k < nprims
        invariant
            k <= nprims,
            b@ == head + enc_prims_upto(ps, vt, k as nat),
            prims_err(ps, vt) == prims_err(ps.skip(k as int), vt),
        decreases nprims - k,
    {
        let ghost rem = ps.skip(k as int);
        proof {
            assert(rem[0] == ps[k as int]);
            assert(rem.drop_first() =~= ps.skip((k + 1) as int));
        }
        let p = &doc.primitives[k];
        assert(p@ == ps[k as int]);
        match append_prim_vertices(&mut b, p, vt) {
            Ok(_) => {},
            Err(e) => {
                return Err(e);
            },
        }
        proof {
            assert(enc_prims_upto(ps, vt, (k + 1) as nat) == enc_prims_upto(ps, vt, k as nat)
                + enc_prim_upto(ps[k as int], vt, ps[k as int].indices.len()));
            assert(b@ =~= head + enc_prims_upto(ps, vt, (k + 1) as nat));
        }
        k += 1;
    }
    proof {
        assert(ps.skip(nprims as int) =~= Seq::<PrimitiveView>::empty());
        assert(prims_err(ps, vt) is None);
    }
    let ghost body = head + enc_prims_upto(ps, vt, ps.len());
    assert(b@ == body);
    match vt {
        VertexType::Basic => {
            assert(compile_mesh_spec(vt, doc@) == Ok::<Seq<u8>, AssetError>(b@));
            Ok(b)
        },
        VertexType::NJW => {
            let sk = match &doc.skin {
                Some(sk) => sk,
                None => {
                    return Err(AssetError::MissingSkin);
                },
            };
            append_skin_block(&mut b, sk);
            proof {
                assert(compile_mesh_spec(vt, doc@) == Ok::<Seq<u8>, AssetError>(b@));
            }
            Ok(b)
        },
    }
}


/// The bytes of a compiled image: the magic byte, the dimensions, then the
/// raw row-major RGB samples.
pub open spec fn image_bytes(width: u32, height: u32, rgb: Seq<u8>) -> Seq<u8> {
    seq!['I' as u8] + be32(width) + be32(height) + rgb
}

/// Serializes a decoded image: its dimensions and its flat RGB samples,
/// the alpha channel dropped by the decoding step that produced them.
#[verifier::loop_isolation(false)]
pub fn compile_image(width: u32, height: u32, rgb: &Vec<u8>) -> (r: Vec<u8>)
    ensures
        r@ == image_bytes(width, height, rgb@),
{
    let mut b: Vec<u8> = Vec::new();
    b.push('I' as u8);
    append_u32(&mut b, width);
    append_u32(&mut b, height);
    let mut k: usize = 0;
    while k < rgb.len()
        invariant
            k <= rgb@.len(),
            b@ == seq!['I' as u8] + be32(width) + be32(height) + rgb@.take(k as int),
        decreases rgb@.len() - k,
    {
        b.push(rgb[k]);
        assert(b@ =~= seq!['I' as u8] + be32(width) + be32(height) + rgb@.take((k + 1) as int));
        k += 1;
    }
    proof {
        assert(rgb@.take(rgb@.len() as int) =~= rgb@);
    }
    b
}

/// Whether an asset file name marks a private asset: one that begins with
/// an underscore is skipped by the compiler.
pub fn is_private_name(name: &Vec<u8>) -> (r: bool)
    ensures
        r == (name@.len() > 0 && name@[0] == '_' as u8),
{
    name.len() > 0 && name[0] == '_' as u8
}

/// The kinds of source file the compiler schedules work for.
#[derive(Clone, Copy, PartialEq, Eq, Structural, Debug)]
pub enum AssetKind {
    Mesh,
    Image,
    Other,
}

/// Whether a lower-case file extension names a mesh source, an image
/// source, or neither.
pub fn asset_kind(ext: &Vec<u8>) -> (r: AssetKind)
    ensures
        r == AssetKind::Mesh <==> (ext@ =~= seq!['g' as u8, 'l' as u8, 't' as u8, 'f' as u8]
            || ext@ =~= seq!['g' as u8, 'l' as u8, 'b' as u8]),
        r == AssetKind::Image <==> (ext@ =~= seq!['p' as u8, 'n' as u8, 'g' as u8]
            || ext@ =~= seq!['j' as u8, 'p' as u8, 'g' as u8]
            || ext@ =~= seq!['j' as u8, 'p' as u8, 'e' as u8, 'g' as u8]),
{
    if ext.len() == 4 && ext[0] == 'g' as u8 && ext[1] == 'l' as u8 && ext[2] == 't' as u8
        && ext[3] == 'f' as u8 {
        AssetKind::Mesh
    } else if ext.len() == 3 && ext[0] == 'g' as u8 && ext[1] == 'l' as u8 && ext[2] == 'b' as u8 {
        AssetKind::Mesh
    } else if ext.len() == 3 && ext[0] == 'p' as u8 && ext[1] == 'n' as u8 && ext[2] == 'g' as u8 {
        AssetKind::Image
    } else if ext.len() == 3 && ext[0] == 'j' as u8 && ext[1] == 'p' as u8 && ext[2] == 'g' as u8 {
        AssetKind::Image
    } else if ext.len() == 4 && ext[0] == 'j' as u8 && ext[1] == 'p' as u8 && ext[2] == 'e' as u8
        && ext[3] == 'g' as u8 {
        AssetKind::Image
    } else {
        AssetKind::Other
    }
}

/// Whether one configuration line selects the basic layout.
#[verifier::loop_isolation(false)]
fn line_basic(line: &Vec<u8>) -> (r: bool)
    ensures
        r == line_selects_basic(line@),
{
    // Strip one trailing carriage return.
    let mut l: Vec<u8> = Vec::new();
    let end: usize = if line.len() > 0 && line[line.len() - 1] == CR {
        line.len() - 1
    } else {
        line.len()
    };
    let mut q: usize = 0;
    while q < end
        invariant
            q <= end <= line@.len(),
            l@ == line@.subrange(0, q as int),
        decreases end - q,
    {
        l.push(line[q]);
        assert(l@ =~= line@.subrange(0, (q + 1) as int));
        q += 1;
    }
    proof {
        assert(l@ =~= strip_cr(line@));
    }
    // First '='.
    let mut k: usize = 0;
    while k < l.len() && l[k] != '=' as u8
        invariant
            k <= l@.len(),
            find_byte(l@, '=' as u8, 0) == find_byte(l@, '=' as u8, k as nat),
        decreases l@.len() - k,
    {
        assert(find_byte(l@, '=' as u8, k as nat) == find_byte(l@, '=' as u8, (k + 1) as nat));
        k += 1;
    }
    if k == l.len() {
        assert(find_byte(l@, '=' as u8, k as nat) is None);
        return false;
    }
    assert(find_byte(l@, '=' as u8, 0) == Some(k as int));
    // The key must be exactly `VertexType`.
    if !(k == 10 && l[0] == 'V' as u8 && l[1] == 'e' as u8 && l[2] == 'r' as u8
        && l[3] == 't' as u8 && l[4] == 'e' as u8 && l[5] == 'x' as u8 && l[6] == 'T' as u8
        && l[7] == 'y' as u8 && l[8] == 'p' as u8 && l[9] == 'e' as u8) {
        proof {
            if l@.take(k as int) == vertex_type_key() {
                assert(l@.take(k as int).len() == 10);
                assert(l@[0] == vertex_type_key()[0]);
                assert(l@[1] == vertex_type_key()[1]);
                assert(l@[2] == vertex_type_key()[2]);
                assert(l@[3] == vertex_type_key()[3]);
                assert(l@[4] == vertex_type_key()[4]);
                assert(l@[5] == vertex_type_key()[5]);
                assert(l@[6] == vertex_type_key()[6]);
                assert(l@[7] == vertex_type_key()[7]);
                assert(l@[8] == vertex_type_key()[8]);
                assert(l@[9] == vertex_type_key()[9]);
            }
        }
        return false;
    }
    assert(l@.take(k as int) =~= vertex_type_key());
    // Second '=' bounds the value; else the end of the line does.
    let mut k2: usize = k + 1;
    while k2 < l.len() && l[k2] != '=' as u8
        invariant
            k + 1 <= k2 <= l@.len(),
            find_byte(l@, '=' as u8, (k + 1) as nat) == find_byte(l@, '=' as u8, k2 as nat),
        decreases l@.len() - k2,
    {
        assert(find_byte(l@, '=' as u8, k2 as nat) == find_byte(l@, '=' as u8, (k2 + 1) as nat));
        k2 += 1;
    }
    let vend: usize = k2;
    proof {
        if k2 < l@.len() {
            assert(find_byte(l@, '=' as u8, k2 as nat) == Some(k2 as int));
        } else {
            assert(find_byte(l@, '=' as u8, k2 as nat) is None);
        }
    }
    // The value must be exactly `Basic`.
    let hit = vend - k == 6 && l[k + 1] == 'B' as u8 && l[k + 2] == 'a' as u8
        && l[k + 3] == 's' as u8 && l[k + 4] == 'i' as u8 && l[k + 5] == 'c' as u8;
    proof {
        let value = l@.subrange(k as int + 1, vend as int);
        if hit {
            assert(value =~= variant_name_spec(VertexType::Basic));
        } else {
            if value == variant_name_spec(VertexType::Basic) {
                assert(value.len() == 5);
                assert(l@[k + 1] == value[0]);
                assert(l@[k + 2] == value[1]);
                assert(l@[k + 3] == value[2]);
                assert(l@[k + 4] == value[3]);
                assert(l@[k + 5] == value[4]);
            }
        }
    }
    hit
}

} // verus!
