//! The compiled formats close the loop: whatever the compiler writes, the
//! runtime loader decodes, and the decoded mesh has one vertex per
//! index-buffer entry and the layout the configuration selected.

use vstd::prelude::*;

use crate::codec::{
    be32, lemma_be32_round_trip, lemma_find_byte_window, parse_name_at, parse_u32_at, parse_u8_at,
    parse_words_at, words_at, DELIM,
};
use crate::compiler::{
    compile_mesh_spec, enc_name, enc_skin, enc_skin_joint, enc_skin_upto, enc_words,
    image_bytes, lemma_enc_words_index, lemma_enc_words_len, lemma_sanitize_no_delim,
    lemma_sum_indices_mono, parent_of, parent_search, prim_err, prim_wf, prims_err, sanitize,
    sum_indices, sum_indices_upto, enc_prim_upto, enc_prims_upto, enc_vertex, MeshDocView,
    PrimitiveView, SkinNodeView,
};
use crate::mesh::{
    parse_basics_at, parse_joint_at, parse_joints_at, parse_mesh, parse_njw_at, parse_njws_at,
};
use crate::skeleton::{
    acyclic, parent_ids, parents_in_range, skeleton_new_spec, JointView, SkeletonView,
};
use crate::texture::{parse_image, ImageDataView};
use crate::vertex::{compatible_spec, variant_name_spec, MaterialKind, VertexType};
use crate::AssetError;

verus! {

/// Bytes of one output vertex record under a layout.
pub open spec fn vertex_width(vt: VertexType) -> int {
    match vt {
        VertexType::Basic => 12,
        VertexType::NJW => 52,
    }
}

/// When no primitive fails, each one is fine on its own.
proof fn lemma_prims_all_ok(ps: Seq<PrimitiveView>, vt: VertexType, k: int)
    requires
        prims_err(ps, vt) is None,
        0 <= k < ps.len(),
    ensures
        prim_err(ps[k], vt) is None,
    decreases ps.len(),
{
    if k > 0 {
        lemma_prims_all_ok(ps.drop_first(), vt, k - 1);
        assert(ps.drop_first()[k - 1] == ps[k]);
    }
}

proof fn lemma_enc_vertex_len(p: PrimitiveView, vt: VertexType, i: int)
    requires
        prim_wf(p),
        prim_err(p, vt) is None,
        0 <= i < p.indices.len(),
    ensures
        enc_vertex(p, vt, i).len() == vertex_width(vt),
{
    let idx = p.indices[i] as int;
    assert(p.indices[i] < p.positions.len());
    lemma_enc_words_len(p.positions[idx]);
    match vt {
        VertexType::Basic => {},
        VertexType::NJW => {
            lemma_enc_words_len(p.normals.unwrap()[idx]);
            lemma_enc_words_len(p.uvs.unwrap()[idx]);
            lemma_enc_words_len(p.weights.unwrap()[idx]);
        },
    }
}

proof fn lemma_enc_prim_upto_len(p: PrimitiveView, vt: VertexType, k: nat)
    requires
        prim_wf(p),
        prim_err(p, vt) is None,
        k <= p.indices.len(),
    ensures
        enc_prim_upto(p, vt, k).len() == vertex_width(vt) * k,
    decreases k,
{
    if k > 0 {
        lemma_enc_prim_upto_len(p, vt, (k - 1) as nat);
        lemma_enc_vertex_len(p, vt, k - 1);
        match vt {
            VertexType::Basic => {},
            VertexType::NJW => {},
        }
    }
}

proof fn lemma_enc_prims_upto_len(ps: Seq<PrimitiveView>, vt: VertexType, k: nat)
    requires
        forall|q: int| 0 <= q < ps.len() ==> prim_wf(#[trigger] ps[q]),
        prims_err(ps, vt) is None,
        k <= ps.len(),
    ensures
        enc_prims_upto(ps, vt, k).len() == vertex_width(vt) * sum_indices_upto(ps, k),
    decreases k,
{
    if k > 0 {
        lemma_enc_prims_upto_len(ps, vt, (k - 1) as nat);
        lemma_prims_all_ok(ps, vt, k - 1);
        lemma_enc_prim_upto_len(ps[k - 1], vt, ps[k - 1].indices.len());
        lemma_sum_indices_mono(ps, (k - 1) as nat, k);
        match vt {
            VertexType::Basic => {},
            VertexType::NJW => {},
        }
    }
}

/// Enough bytes mean `n` basic records parse, ending right after them.
proof fn lemma_parse_basics_len(s: Seq<u8>, pos: int, n: nat)
    requires
        0 <= pos,
        pos + 12 * n <= s.len(),
    ensures
        parse_basics_at(s, pos, n) is Ok,
        parse_basics_at(s, pos, n).unwrap().1 == pos + 12 * n,
    decreases n,
{
    if n > 0 {
        assert(parse_words_at(s, pos, 3) is Ok);
        lemma_parse_basics_len(s, pos + 12, (n - 1) as nat);
    }
}

/// Enough bytes mean `n` skinned records parse, ending right after them.
proof fn lemma_parse_njws_len(s: Seq<u8>, pos: int, n: nat)
    requires
        0 <= pos,
        pos + 52 * n <= s.len(),
    ensures
        parse_njws_at(s, pos, n) is Ok,
        parse_njws_at(s, pos, n).unwrap().1 == pos + 52 * n,
    decreases n,
{
    if n > 0 {
        assert(parse_njw_at(s, pos) is Ok);
        lemma_parse_njws_len(s, pos + 52, (n - 1) as nat);
    }
}

/// Words written big-endian read back as themselves.
proof fn lemma_parse_words_of_enc(s: Seq<u8>, pos: int, ws: Seq<u32>)
    requires
        0 <= pos,
        pos + 4 * ws.len() <= s.len(),
        s.subrange(pos, pos + 4 * ws.len()) == enc_words(ws),
    ensures
        parse_words_at(s, pos, ws.len()) == Ok::<(Seq<u32>, int), AssetError>((
            ws,
            pos + 4 * ws.len(),
        )),
{
    lemma_enc_words_len(ws);
    assert forall|k: int| 0 <= k < ws.len() implies words_at(s, pos, ws.len())[k] == ws[k] by {
        lemma_enc_words_index(ws, k, 0);
        lemma_enc_words_index(ws, k, 1);
        lemma_enc_words_index(ws, k, 2);
        lemma_enc_words_index(ws, k, 3);
        assert(s[pos + 4 * k] == s.subrange(pos, pos + 4 * ws.len())[4 * k]);
        assert(s[pos + 4 * k + 1] == s.subrange(pos, pos + 4 * ws.len())[4 * k + 1]);
        assert(s[pos + 4 * k + 2] == s.subrange(pos, pos + 4 * ws.len())[4 * k + 2]);
        assert(s[pos + 4 * k + 3] == s.subrange(pos, pos + 4 * ws.len())[4 * k + 3]);
        lemma_be32_round_trip(ws[k]);
    }
    assert(words_at(s, pos, ws.len()) =~= ws);
}

/// A stored name reads back as the sanitized name, stopping at its own
/// delimiter.
proof fn lemma_parse_name_of_enc(s: Seq<u8>, pos: int, name: Seq<u8>)
    requires
        0 <= pos,
        pos + sanitize(name).len() + 1 <= s.len(),
        s.subrange(pos, pos + sanitize(name).len() + 1) == enc_name(name),
    ensures
        parse_name_at(s, pos) == Ok::<(Seq<u8>, int), AssetError>((
            sanitize(name),
            pos + sanitize(name).len() + 1,
        )),
{
    let sn = sanitize(name);
    lemma_sanitize_no_delim(name);
    assert forall|j: int| pos <= j < pos + sn.len() implies s[j] != DELIM by {
        assert(s[j] == s.subrange(pos, pos + sn.len() + 1)[j - pos]);
        assert(enc_name(name)[j - pos] == sn[j - pos]);
    }
    assert(s[pos + sn.len()] == s.subrange(pos, pos + sn.len() + 1)[sn.len() as int]);
    assert(enc_name(name)[sn.len() as int] == DELIM);
    lemma_find_byte_window(s, DELIM, pos as nat, pos + sn.len());
    assert(s.subrange(pos, pos + sn.len()) =~= sn);
}

/// The joint view a stored skin joint record decodes to.
pub open spec fn decoded_joint(sk: Seq<SkinNodeView>, j: int) -> JointView {
    JointView {
        name: sanitize(sk[j].name),
        tpose: sk[j].tpose,
        ibm: sk[j].ibm,
        local_anim_pose: None,
        parent_id: parent_of(sk, j) as int,
        parents: Seq::<int>::empty(),
    }
}

/// The joint views a whole stored skin decodes to, in input order.
pub open spec fn decoded_joints(sk: Seq<SkinNodeView>) -> Seq<JointView> {
    Seq::new(sk.len(), |j: int| decoded_joint(sk, j))
}

/// One stored skin joint record reads back as its decoded joint.
proof fn lemma_parse_joint_of_enc(s: Seq<u8>, pos: int, sk: Seq<SkinNodeView>, j: int)
    requires
        0 <= j < sk.len(),
        sk[j].tpose.len() == 16,
        sk[j].ibm.len() == 16,
        0 <= pos,
        pos + enc_skin_joint(sk, j).len() <= s.len(),
        s.subrange(pos, pos + enc_skin_joint(sk, j).len()) == enc_skin_joint(sk, j),
    ensures
        parse_joint_at(s, pos) == Ok::<(JointView, int), AssetError>((
            decoded_joint(sk, j),
            pos + enc_skin_joint(sk, j).len(),
        )),
{
    let rec = enc_skin_joint(sk, j);
    let sn = sanitize(sk[j].name);
    lemma_enc_words_len(sk[j].tpose);
    lemma_enc_words_len(sk[j].ibm);
    assert(rec.len() == sn.len() + 130);
    assert forall|t: int| 0 <= t < rec.len() implies s[pos + t] == rec[t] by {
        assert(s[pos + t] == s.subrange(pos, pos + rec.len())[t]);
    }
    let p1 = pos + sn.len() + 1;
    assert(s.subrange(pos, p1) =~= enc_name(sk[j].name));
    lemma_parse_name_of_enc(s, pos, sk[j].name);
    assert(s[p1] == rec[sn.len() as int + 1]);
    assert(rec[sn.len() as int + 1] == parent_of(sk, j));
    assert(parse_u8_at(s, p1) == Ok::<(u8, int), AssetError>((parent_of(sk, j), p1 + 1)));
    let p2 = p1 + 1;
    assert forall|i: int| 0 <= i < 64 implies s.subrange(p2, p2 + 64)[i] == enc_words(
        sk[j].tpose,
    )[i] by {
        assert(s[p2 + i] == s.subrange(pos, pos + rec.len())[sn.len() as int + 2 + i]);
        assert(rec[sn.len() as int + 2 + i] == enc_words(sk[j].tpose)[i]);
    }
    assert(s.subrange(p2, p2 + 64) =~= enc_words(sk[j].tpose));
    lemma_parse_words_of_enc(s, p2, sk[j].tpose);
    let p3 = p2 + 64;
    assert forall|i: int| 0 <= i < 64 implies s.subrange(p3, p3 + 64)[i] == enc_words(
        sk[j].ibm,
    )[i] by {
        assert(s[p3 + i] == s.subrange(pos, pos + rec.len())[sn.len() as int + 66 + i]);
        assert(rec[sn.len() as int + 66 + i] == enc_words(sk[j].ibm)[i]);
    }
    assert(s.subrange(p3, p3 + 64) =~= enc_words(sk[j].ibm));
    lemma_parse_words_of_enc(s, p3, sk[j].ibm);
    assert(p3 + 64 == pos + rec.len());
}

/// The skin records from `j` on, in storage order.
pub open spec fn enc_skin_suffix(sk: Seq<SkinNodeView>, j: nat) -> Seq<u8>
    decreases sk.len() - j,
{
    if j >= sk.len() {
        Seq::<u8>::empty()
    } else {
        enc_skin_joint(sk, j as int) + enc_skin_suffix(sk, (j + 1) as nat)
    }
}

/// The whole skin block splits into a prefix and a suffix at any joint.
proof fn lemma_enc_skin_split(sk: Seq<SkinNodeView>, j: nat)
    requires
        j <= sk.len(),
    ensures
        enc_skin_upto(sk, sk.len() as nat) == enc_skin_upto(sk, j) + enc_skin_suffix(sk, j),
    decreases sk.len() - j,
{
    if j == sk.len() {
        assert(enc_skin_upto(sk, j) + enc_skin_suffix(sk, j) =~= enc_skin_upto(sk, j));
    } else {
        lemma_enc_skin_split(sk, (j + 1) as nat);
        assert((enc_skin_upto(sk, j) + enc_skin_joint(sk, j as int)) + enc_skin_suffix(
            sk,
            (j + 1) as nat,
        ) =~= enc_skin_upto(sk, j) + (enc_skin_joint(sk, j as int) + enc_skin_suffix(
            sk,
            (j + 1) as nat,
        )));
    }
}

/// A stored run of skin joint records reads back as the decoded joints.
proof fn lemma_parse_joints_of_enc(s: Seq<u8>, pos: int, sk: Seq<SkinNodeView>, j: nat)
    requires
        j <= sk.len(),
        sk.len() <= 255,
        forall|q: int| 0 <= q < sk.len() ==> (#[trigger] sk[q]).tpose.len() == 16
            && sk[q].ibm.len() == 16,
        0 <= pos,
        pos + enc_skin_suffix(sk, j).len() <= s.len(),
        s.subrange(pos, pos + enc_skin_suffix(sk, j).len()) == enc_skin_suffix(sk, j),
    ensures
        parse_joints_at(s, pos, (sk.len() - j) as nat) == Ok::<(Seq<JointView>, int), AssetError>((
            Seq::new((sk.len() - j) as nat, |t: int| decoded_joint(sk, j + t)),
            pos + enc_skin_suffix(sk, j).len(),
        )),
    decreases sk.len() - j,
{
    if j == sk.len() {
        assert(Seq::new(0, |t: int| decoded_joint(sk, j + t))
            =~= Seq::<JointView>::empty());
    } else {
        let rec = enc_skin_joint(sk, j as int);
        let rest = enc_skin_suffix(sk, (j + 1) as nat);
        let blk = enc_skin_suffix(sk, j);
        assert(blk == rec + rest);
        assert forall|t: int| 0 <= t < blk.len() implies s[pos + t] == blk[t] by {
            assert(s[pos + t] == s.subrange(pos, pos + blk.len())[t]);
        }
        assert(s.subrange(pos, pos + rec.len()) =~= rec);
        lemma_parse_joint_of_enc(s, pos, sk, j as int);
        assert forall|i: int| 0 <= i < rest.len() implies s.subrange(
            pos + rec.len() as int,
            pos + rec.len() + rest.len(),
        )[i] == rest[i] by {
            assert(s[pos + rec.len() + i] == s.subrange(pos, pos + blk.len())[rec.len() + i]);
            assert(blk[rec.len() + i] == rest[i]);
        }
        assert(s.subrange(pos + rec.len(), pos + rec.len() + rest.len()) =~= rest);
        lemma_parse_joints_of_enc(s, pos + rec.len(), sk, (j + 1) as nat);
        let count = (sk.len() - j) as nat;
        assert(parse_joints_at(s, pos + rec.len(), (count - 1) as nat)
            == Ok::<(Seq<JointView>, int), AssetError>((
            Seq::new((count - 1) as nat, |t: int| decoded_joint(sk, j + 1 + t)),
            pos + rec.len() + rest.len(),
        )));
        assert(seq![decoded_joint(sk, j as int)] + Seq::new(
            (count - 1) as nat,
            |t: int| decoded_joint(sk, j + 1 + t),
        ) =~= Seq::new(count, |t: int| decoded_joint(sk, j + t)));
    }
}

/// A resolved parent index is the sentinel or a valid position.
proof fn lemma_parent_search_range(sk: Seq<SkinNodeView>, id: int, from: nat)
    requires
        sk.len() <= 255,
    ensures
        parent_search(sk, id, from) == 255 || parent_search(sk, id, from) < sk.len(),
    decreases sk.len() - from,
{
    if from < sk.len() && !sk[from as int].children.contains(id) {
        lemma_parent_search_range(sk, id, from + 1);
    }
}

/// Round trip: a mesh document the compiler accepts loads back, under a
/// material that fits the configured layout, with the configured layout's
/// tag and one decoded vertex per index-buffer entry across all
/// primitives. For the skinned layout the stored skin must also pass the
/// loader's own checks: fewer joints than the capacity and no parent
/// cycle among the resolved parent links.
#[verifier::rlimit(100)]
#[verifier::spinoff_prover]
pub proof fn lemma_mesh_round_trip(vt: VertexType, doc: MeshDocView, material: MaterialKind)
    requires
        doc.wf(),
        compile_mesh_spec(vt, doc) is Ok,
        compatible_spec(vt, material),
        sum_indices(doc.primitives) <= u32::MAX,
        vt == VertexType::NJW ==> (doc.skin matches Some(sk) && sk.len() < 64
            && acyclic(parent_ids(decoded_joints(sk)))),
    ensures
        parse_mesh(compile_mesh_spec(vt, doc).unwrap(), material) is Ok,
        parse_mesh(compile_mesh_spec(vt, doc).unwrap(), material).unwrap().vertices_len
            == sum_indices(doc.primitives),
        parse_mesh(compile_mesh_spec(vt, doc).unwrap(), material).unwrap().vertex_type == vt,
{
    let ps = doc.primitives;
    let total = sum_indices(ps);
    lemma_sum_indices_mono(ps, 0, ps.len() as nat);
    assert(0 <= total);
    vstd::arithmetic::div_mod::lemma_small_mod(total as nat, 0x1_0000_0000nat);
    let total32 = (total % 0x1_0000_0000) as u32;
    assert(total32 == total);
    let vname = variant_name_spec(vt);
    let head = seq!['M' as u8] + vname + seq![DELIM] + be32(total32);
    let vbytes = enc_prims_upto(ps, vt, ps.len() as nat);
    let body = head + vbytes;
    let s = compile_mesh_spec(vt, doc).unwrap();
    assert(prims_err(ps, vt) is None);
    lemma_enc_prims_upto_len(ps, vt, ps.len() as nat);
    let w = vertex_width(vt);
    assert(vbytes.len() == w * total);
    match vt {
        VertexType::Basic => {
            assert(s == body);
        },
        VertexType::NJW => {
            assert(doc.skin is Some);
            assert(s == body + enc_skin(doc.skin.unwrap()));
        },
    }
    // The header decodes: magic, variant name, vertex count.
    assert(head.len() == vname.len() + 6);
    assert(s[0] == 'M' as u8);
    assert forall|j: int| 1 <= j < 1 + vname.len() as int implies s[j] != DELIM by {
        assert(s[j] == vname[j - 1]);
        assert(vname[j - 1] != DELIM);
    }
    assert(s[1 + vname.len() as int] == DELIM);
    lemma_find_byte_window(s, DELIM, 1, 1 + vname.len() as int);
    assert(parse_name_at(s, 1) == Ok::<(Seq<u8>, int), AssetError>((
        s.subrange(1, 1 + vname.len() as int),
        vname.len() as int + 2,
    )));
    assert(s.subrange(1, 1 + vname.len() as int) =~= vname);
    let p1 = vname.len() as int + 2;
    assert(s.subrange(p1 as int, p1 + 4) =~= be32(total32));
    lemma_be32_round_trip(total32);
    assert(parse_u32_at(s, p1 as int) == Ok::<(u32, int), AssetError>((total32, p1 + 4)));
    let p2 = p1 + 4;
    assert(p2 == head.len());
    assert(vname != variant_name_spec(VertexType::Basic)
        || vname != variant_name_spec(VertexType::NJW));
    match vt {
        VertexType::Basic => {
            assert(vname == variant_name_spec(VertexType::Basic));
            assert(vname != variant_name_spec(VertexType::NJW)) by {
                assert(vname.len() == 5);
            }
            lemma_parse_basics_len(s, p2 as int, total32 as nat);
            assert(parse_mesh(s, material) is Ok);
            assert(parse_mesh(s, material).unwrap().vertices_len == total32);
            assert(parse_mesh(s, material).unwrap().vertex_type == vt);
        },
        VertexType::NJW => {
            assert(vname == variant_name_spec(VertexType::NJW));
            assert(vname != variant_name_spec(VertexType::Basic)) by {
                assert(vname.len() == 3);
            }
            let sk = doc.skin.unwrap();
            lemma_parse_njws_len(s, p2 as int, total32 as nat);
            let p3 = p2 + 52 * total;
            assert(parse_njws_at(s, p2 as int, total32 as nat).unwrap().1 == p3);
            // The joint count byte.
            let cnt = (sk.len() % 256) as u8;
            assert(s[p3 as int] == cnt) by {
                assert(s[p3 as int] == enc_skin(sk)[0]);
            }
            assert(cnt == sk.len());
            assert(parse_u8_at(s, p3 as int) == Ok::<(u8, int), AssetError>((cnt, p3 + 1)));
            assert(cnt < 64);
            let p4 = p3 + 1;
            // The joint records.
            lemma_enc_skin_split(sk, 0);
            assert(enc_skin_upto(sk, 0nat) + enc_skin_suffix(sk, 0nat)
                =~= enc_skin_suffix(sk, 0nat));
            let blk = enc_skin_suffix(sk, 0nat);
            assert(enc_skin(sk) == seq![cnt] + enc_skin_upto(sk, sk.len() as nat));
            assert(s.subrange(p4 as int, p4 + blk.len()) =~= blk);
            assert(p4 + blk.len() == s.len());
            lemma_parse_joints_of_enc(s, p4 as int, sk, 0);
            let js = Seq::new(sk.len() as nat, |t: int| decoded_joint(sk, 0 + t));
            assert(js =~= decoded_joints(sk));
            assert(parse_joints_at(s, p4 as int, sk.len() as nat)
                == Ok::<(Seq<JointView>, int), AssetError>((js, p4 + blk.len())));
            // The decoded skeleton passes its checks.
            assert(parent_ids(js).len() == sk.len());
            assert forall|q: int| 0 <= q < sk.len() implies (parent_ids(js)[q] == 255
                || 0 <= parent_ids(js)[q] < sk.len()) by {
                assert(parent_ids(js)[q] == js[q].parent_id);
                assert(js[q].parent_id == parent_of(sk, q) as int);
                lemma_parent_search_range(sk, sk[q].id, 0);
            }
            assert(parents_in_range(parent_ids(js)));
            assert(parent_ids(js) == parent_ids(decoded_joints(sk)));
            assert(acyclic(parent_ids(js)));
            assert(skeleton_new_spec(js) is Ok);
            assert(parse_mesh(s, material) is Ok);
            assert(parse_mesh(s, material).unwrap().vertices_len == total32);
            assert(parse_mesh(s, material).unwrap().vertex_type == vt);
        },
    }
}

/// Round trip for images: a compiled image with its full complement of
/// RGB samples loads back exactly.
pub proof fn lemma_image_round_trip(width: u32, height: u32, rgb: Seq<u8>)
    requires
        rgb.len() == 3 * (width as int) * (height as int),
    ensures
        parse_image(image_bytes(width, height, rgb)) == Ok::<ImageDataView, AssetError>(
            ImageDataView { width, height, rgb },
        ),
{
    let s = image_bytes(width, height, rgb);
    assert(s.len() == 9 + rgb.len());
    assert(s[0] == 'I' as u8);
    assert(s.subrange(1, 5) =~= be32(width));
    lemma_be32_round_trip(width);
    assert(parse_u32_at(s, 1) == Ok::<(u32, int), AssetError>((width, 5)));
    assert(s.subrange(5, 9) =~= be32(height));
    lemma_be32_round_trip(height);
    assert(parse_u32_at(s, 5) == Ok::<(u32, int), AssetError>((height, 9)));
    assert(s.subrange(9, 9 + rgb.len() as int) =~= rgb);
}

/// Capacity law: a skeleton at or over the joint capacity is always
/// rejected; one just below it is accepted whenever its parent links are
/// sound.
pub proof fn lemma_joint_capacity(js: Seq<JointView>)
    ensures
        js.len() >= 64 ==> skeleton_new_spec(js) == Err::<SkeletonView, AssetError>(
            AssetError::TooManyJoints,
        ),
        js.len() == 63 && parents_in_range(parent_ids(js)) && acyclic(parent_ids(js))
            ==> skeleton_new_spec(js) is Ok,
{
}

/// Parent resolution law: when joint `b` is the first whose children list
/// names joint `a`'s node, `a`'s stored parent index is `b`; a joint no
/// children list names gets the root sentinel.
pub proof fn lemma_parent_resolution(sk: Seq<SkinNodeView>, a: int, b: int)
    requires
        0 <= a < sk.len(),
        0 <= b < sk.len(),
        sk.len() <= 255,
        sk[b].children.contains(sk[a].id),
        forall|q: int| 0 <= q < b ==> !(#[trigger] sk[q]).children.contains(sk[a].id),
    ensures
        parent_of(sk, a) == b,
{
    lemma_parent_search_hits(sk, sk[a].id, 0, b);
}

proof fn lemma_parent_search_hits(sk: Seq<SkinNodeView>, id: int, from: nat, b: int)
    requires
        from <= b < sk.len(),
        sk.len() <= 255,
        sk[b].children.contains(id),
        forall|q: int| from <= q < b ==> !(#[trigger] sk[q]).children.contains(id),
    ensures
        parent_search(sk, id, from) == b,
    decreases b - from,
{
    if from < b {
        lemma_parent_search_hits(sk, id, from + 1, b);
    }
}

/// The sentinel side of parent resolution.
pub proof fn lemma_parent_resolution_none(sk: Seq<SkinNodeView>, a: int)
    requires
        0 <= a < sk.len(),
        forall|q: int| 0 <= q < sk.len() ==> !(#[trigger] sk[q]).children.contains(sk[a].id),
    ensures
        parent_of(sk, a) == 255,
{
    lemma_parent_search_misses(sk, sk[a].id, 0);
}

proof fn lemma_parent_search_misses(sk: Seq<SkinNodeView>, id: int, from: nat)
    requires
        forall|q: int| from <= q < sk.len() ==> !(#[trigger] sk[q]).children.contains(id),
    ensures
        parent_search(sk, id, from) == 255,
    decreases sk.len() - from,
{
    if from < sk.len() {
        lemma_parent_search_misses(sk, id, from + 1);
    }
}

} // verus!
