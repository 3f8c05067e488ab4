//! The admission fast path: for a StatefulSet being created, build the
//! JSON patch that stamps the restarter annotations synchronously, so that
//! the first Pod does not restart right after creation.
use vstd::prelude::*;

use crate::annmap::AnnotationMap;
use crate::cache::MetaCache;
use crate::delayed::InitDropped;
use crate::json::spec_json_string;
use crate::statefulset::{
    get_updated_restarter_annotations, spec_sts_ann_kvs, Error, StatefulSet,
};
use vstd::string::StringSliceAdditionalSpecFns;

verus! {

/// JSON-Pointer escaping of one byte: `~` becomes `~0`, `/` becomes `~1`.
pub open spec fn ptr_escape_byte(b: u8) -> Seq<u8> {
    if b == 0x7e {
        seq![0x7eu8, 0x30u8]
    } else if b == 0x2f {
        seq![0x7eu8, 0x31u8]
    } else {
        seq![b]
    }
}

/// JSON-Pointer escaping of a key, so that it forms one reference token.
pub open spec fn ptr_escaped(s: Seq<u8>) -> Seq<u8>
    decreases s.len(),
{
    if s.len() == 0 {
        Seq::empty()
    } else {
        ptr_escape_byte(s[0]) + ptr_escaped(s.drop_first())
    }
}

/// JSON-Pointer unescaping: the inverse reading of a reference token.
pub open spec fn ptr_unescaped(s: Seq<u8>) -> Seq<u8>
    decreases s.len(),
{
    if s.len() == 0 {
        Seq::empty()
    } else if s[0] == 0x7e && s.len() >= 2 && s[1] == 0x30 {
        seq![0x7eu8] + ptr_unescaped(s.skip(2))
    } else if s[0] == 0x7e && s.len() >= 2 && s[1] == 0x31 {
        seq![0x2fu8] + ptr_unescaped(s.skip(2))
    } else {
        seq![s[0]] + ptr_unescaped(s.skip(1))
    }
}

proof fn lemma_ptr_unescape_step(b: u8, t: Seq<u8>)
    ensures
        ptr_unescaped(ptr_escape_byte(b) + t) == seq![b] + ptr_unescaped(t),
{
    let s = ptr_escape_byte(b) + t;
    if b == 0x7e {
        assert(s[0] == 0x7e && s.len() >= 2 && s[1] == 0x30);
        assert(s.skip(2) =~= t);
    } else if b == 0x2f {
        assert(s[0] == 0x7e && s.len() >= 2 && s[1] == 0x31);
        assert(s.skip(2) =~= t);
    } else {
        assert(s[0] == b && b != 0x7e);
        assert(s.skip(1) =~= t);
    }
}

/// Escaping a key and reading the token back yields the key: the patch
/// paths name exactly the intended annotation keys.
pub proof fn lemma_ptr_escape_roundtrip(s: Seq<u8>)
    ensures
        ptr_unescaped(ptr_escaped(s)) == s,
    decreases s.len(),
{
    if s.len() == 0 {
        assert(ptr_unescaped(ptr_escaped(s)) =~= s);
    } else {
        lemma_ptr_escape_roundtrip(s.drop_first());
        lemma_ptr_unescape_step(s[0], ptr_escaped(s.drop_first()));
        assert(seq![s[0]] + s.drop_first() =~= s);
    }
}

proof fn lemma_ptr_escaped_concat(a: Seq<u8>, b: Seq<u8>)
    ensures
        ptr_escaped(a + b) == ptr_escaped(a) + ptr_escaped(b),
    decreases a.len(),
{
    if a.len() == 0 {
        assert(a + b =~= b);
        assert(ptr_escaped(a) + ptr_escaped(b) =~= ptr_escaped(b));
    } else {
        assert((a + b).drop_first() =~= a.drop_first() + b);
        lemma_ptr_escaped_concat(a.drop_first(), b);
        assert((a + b)[0] == a[0]);
        assert(ptr_escape_byte(a[0]) + (ptr_escaped(a.drop_first()) + ptr_escaped(b))
            =~= ptr_escaped(a) + ptr_escaped(b));
    }
}

/// Append the JSON-Pointer escaping of `s` to `out`.
fn ptr_escape_into(out: &mut Vec<u8>, s: &[u8])
    ensures
        final(out)@ == old(out)@ + ptr_escaped(s@),
{
    let mut i: usize = 0;
    proof {
        assert(old(out)@ + ptr_escaped(s@.subrange(0, 0)) =~= old(out)@);
    }
    while i < s.len()
        invariant
            0 <= i <= s@.len(),
            out@ == old(out)@ + ptr_escaped(s@.subrange(0, i as int)),
        decreases s@.len() - i,
    {
        let b = s[i];
        if b == 0x7e {
            out.push(0x7e);
            out.push(0x30);
        } else if b == 0x2f {
            out.push(0x7e);
            out.push(0x31);
        } else {
            out.push(b);
        }
        proof {
            assert(s@.subrange(0, i + 1 as int) =~= s@.subrange(0, i as int) + seq![s@[i as int]]);
            lemma_ptr_escaped_concat(s@.subrange(0, i as int), seq![s@[i as int]]);
            assert(seq![s@[i as int]].drop_first() =~= Seq::<u8>::empty());
            assert(ptr_escaped(Seq::<u8>::empty()) == Seq::<u8>::empty());
            assert(ptr_escaped(seq![s@[i as int]]) =~= ptr_escape_byte(s@[i as int]));
            assert(out@ =~= old(out)@ + ptr_escaped(s@.subrange(0, i + 1 as int)));
        }
        i = i + 1;
    }
    proof {
        assert(s@.subrange(0, s@.len() as int) =~= s@);
    }
}

/// The value carried by one `add` operation of the admission patch.
pub enum PatchValue {
    /// An empty JSON object, creating a missing intermediate object.
    EmptyObject,
    /// A JSON string: one annotation value.
    Text(Vec<u8>),
}

/// One `add` operation of the admission patch.
pub struct PatchOp {
    pub path: Vec<u8>,
    pub value: PatchValue,
}

/// The view of an operation: its path and its value (`None` stands for the
/// empty object).
pub open spec fn op_view(op: PatchOp) -> (Seq<u8>, Option<Seq<u8>>) {
    (
        op.path@,
        match op.value {
            PatchValue::EmptyObject => None,
            PatchValue::Text(t) => Some(t@),
        },
    )
}

pub open spec fn ops_view(ops: Seq<PatchOp>) -> Seq<(Seq<u8>, Option<Seq<u8>>)> {
    ops.map_values(|op: PatchOp| op_view(op))
}

/// The path under which one annotation is added.
pub open spec fn spec_ann_path_prefix() -> Seq<u8> {
    "/spec/template/metadata/annotations/".spec_bytes()
}

/// The intermediate paths the patch must create first, because the
/// submitted object lacks them: `/spec`, then the template metadata, then
/// its annotations object.
pub open spec fn spec_create_paths(sts: &StatefulSet) -> Seq<Seq<u8>> {
    (if sts.spec is None {
        seq!["/spec".spec_bytes()]
    } else {
        Seq::empty()
    }) + (if !spec_has_template_metadata(sts) {
        seq!["/spec/template/metadata".spec_bytes()]
    } else {
        Seq::empty()
    }) + (if !spec_has_template_annotations(sts) {
        seq!["/spec/template/metadata/annotations".spec_bytes()]
    } else {
        Seq::empty()
    })
}

pub open spec fn spec_has_template_metadata(sts: &StatefulSet) -> bool {
    match sts.spec {
        Some(ss) => ss.template.metadata is Some,
        None => false,
    }
}

pub open spec fn spec_has_template_annotations(sts: &StatefulSet) -> bool {
    match sts.spec {
        Some(ss) => match ss.template.metadata {
            Some(md) => md.annotations is Some,
            None => false,
        },
        None => false,
    }
}

/// The operations of the admission patch: the missing intermediate objects
/// first, then one `add` per computed annotation, keys JSON-Pointer
/// escaped, in sorted key order.
pub open spec fn spec_admission_ops(sts: &StatefulSet, kvs: Seq<(Seq<u8>, Seq<u8>)>) -> Seq<
    (Seq<u8>, Option<Seq<u8>>),
> {
    spec_create_paths(sts).map_values(|p: Seq<u8>| (p, Option::<Seq<u8>>::None))
        + kvs.map_values(
        |kv: (Seq<u8>, Seq<u8>)| (spec_ann_path_prefix() + ptr_escaped(kv.0), Some(kv.1)),
    )
}

/// Build the admission patch operations for `sts` carrying `anns`.
pub fn build_admission_ops(sts: &StatefulSet, anns: &AnnotationMap) -> (r: Vec<PatchOp>)
    ensures
        ops_view(r@) == spec_admission_ops(sts, anns.kvs()),
{
    let mut ops: Vec<PatchOp> = Vec::new();
    let has_spec = sts.spec.is_some();
    let has_meta = match &sts.spec {
        Some(ss) => ss.template.metadata.is_some(),
        None => false,
    };
    let has_anns = match &sts.spec {
        Some(ss) => match &ss.template.metadata {
            Some(md) => md.annotations.is_some(),
            None => false,
        },
        None => false,
    };
    if !has_spec {
        let mut path: Vec<u8> = Vec::new();
        crate::bytestr::bytes_extend(&mut path, "/spec".as_bytes());
        ops.push(PatchOp { path, value: PatchValue::EmptyObject });
    }
    if !has_meta {
        let mut path: Vec<u8> = Vec::new();
        crate::bytestr::bytes_extend(&mut path, "/spec/template/metadata".as_bytes());
        ops.push(PatchOp { path, value: PatchValue::EmptyObject });
    }
    if !has_anns {
        let mut path: Vec<u8> = Vec::new();
        crate::bytestr::bytes_extend(&mut path, "/spec/template/metadata/annotations".as_bytes());
        ops.push(PatchOp { path, value: PatchValue::EmptyObject });
    }
    let ghost n_create = ops@.len();
    proof {
        assert(ops_view(ops@) =~= spec_create_paths(sts).map_values(
            |p: Seq<u8>| (p, Option::<Seq<u8>>::None),
        ));
    }
    let n = anns.len();
    let mut j: usize = 0;
    while j < n
        invariant
            0 <= j <= n,
            n == anns.kvs().len(),
            ops@.len() == n_create + j,
            ops_view(ops@) == spec_create_paths(sts).map_values(
                |p: Seq<u8>| (p, Option::<Seq<u8>>::None),
            ) + anns.kvs().subrange(0, j as int).map_values(
                |kv: (Seq<u8>, Seq<u8>)| (spec_ann_path_prefix() + ptr_escaped(kv.0), Some(kv.1)),
            ),
        decreases n - j,
    {
        let entry = anns.entry_at(j);
        let mut path: Vec<u8> = Vec::new();
        crate::bytestr::bytes_extend(&mut path, "/spec/template/metadata/annotations/".as_bytes());
        ptr_escape_into(&mut path, &entry.0);
        let value = entry.1.clone();
        proof {
            assert(value@ == entry.1@);
            assert(path@ == spec_ann_path_prefix() + ptr_escaped(anns.kvs()[j as int].0));
        }
        let ghost ops0 = ops@;
        let ghost op_new = PatchOp { path: path, value: PatchValue::Text(value) };
        ops.push(PatchOp { path, value: PatchValue::Text(value) });
        proof {
            let f = |kv: (Seq<u8>, Seq<u8>)| (spec_ann_path_prefix() + ptr_escaped(kv.0), Some(kv.1));
            let pre = spec_create_paths(sts).map_values(|p: Seq<u8>| (p, Option::<Seq<u8>>::None));
            assert(ops@ == ops0.push(op_new));
            assert(op_view(op_new) == f(anns.kvs()[j as int]));
            assert(anns.kvs().subrange(0, j + 1 as int) =~= anns.kvs().subrange(0, j as int)
                + seq![anns.kvs()[j as int]]);
            let old_part = anns.kvs().subrange(0, j as int).map_values(f);
            let new_part = anns.kvs().subrange(0, j + 1 as int).map_values(f);
            assert(new_part =~= old_part.push(f(anns.kvs()[j as int])));
            assert(old_part.len() == j);
            assert(new_part.len() == j + 1);
            assert(pre.len() == spec_create_paths(sts).len());
            assert(ops_view(ops0).len() == ops0.len());
            assert(ops_view(ops0) == pre + old_part);
            assert(ops0.len() == pre.len() + j);
            assert(ops_view(ops@).len() == ops@.len());
            assert forall|m: int| 0 <= m < ops@.len() implies ops_view(ops@)[m] == (pre
                + new_part)[m] by {
                assert(ops_view(ops@)[m] == op_view(ops@[m]));
                if m < ops0.len() {
                    assert(ops@[m] == ops0[m]);
                    assert(ops_view(ops0)[m] == op_view(ops0[m]));
                    assert(ops_view(ops0)[m] == (pre + old_part)[m]);
                    if m < pre.len() {
                        assert((pre + old_part)[m] == pre[m]);
                        assert((pre + new_part)[m] == pre[m]);
                    } else {
                        assert((pre + old_part)[m] == old_part[m - pre.len()]);
                        assert((pre + new_part)[m] == new_part[m - pre.len()]);
                        assert(new_part[m - pre.len()] == old_part[m - pre.len()]);
                    }
                } else {
                    assert(ops@[m] == op_new);
                    assert((pre + new_part)[m] == new_part[m - pre.len()]);
                    assert(new_part[m - pre.len()] == f(anns.kvs()[j as int]));
                }
            }
            assert(ops_view(ops@) =~= pre + new_part);
        }
        j = j + 1;
    }
    proof {
        assert(anns.kvs().subrange(0, n as int) =~= anns.kvs());
        assert(ops_view(ops@) =~= spec_admission_ops(sts, anns.kvs()));
    }
    ops
}

/// The JSON rendering of one patch operation.
pub open spec fn spec_op_json(p: (Seq<u8>, Option<Seq<u8>>)) -> Seq<u8> {
    "{\"op\":\"add\",\"path\":".spec_bytes() + spec_json_string(p.0) + ",\"value\":".spec_bytes()
        + (match p.1 {
        None => "{}".spec_bytes(),
        Some(t) => spec_json_string(t),
    }) + "}".spec_bytes()
}

pub open spec fn spec_ops_tail_json(s: Seq<(Seq<u8>, Option<Seq<u8>>)>) -> Seq<u8>
    decreases s.len(),
{
    if s.len() == 0 {
        Seq::empty()
    } else {
        seq![0x2cu8] + spec_op_json(s[0]) + spec_ops_tail_json(s.drop_first())
    }
}

/// The JSON Patch document: the operations as a JSON array.
pub open spec fn spec_patch_json(s: Seq<(Seq<u8>, Option<Seq<u8>>)>) -> Seq<u8> {
    seq![0x5bu8] + (if s.len() == 0 {
        Seq::empty()
    } else {
        spec_op_json(s[0]) + spec_ops_tail_json(s.drop_first())
    }) + seq![0x5du8]
}

proof fn lemma_ops_tail_concat(a: Seq<(Seq<u8>, Option<Seq<u8>>)>, b: Seq<(Seq<u8>, Option<Seq<u8>>)>)
    ensures
        spec_ops_tail_json(a + b) == spec_ops_tail_json(a) + spec_ops_tail_json(b),
    decreases a.len(),
{
    if a.len() == 0 {
        assert(a + b =~= b);
        assert(spec_ops_tail_json(a) + spec_ops_tail_json(b) =~= spec_ops_tail_json(b));
    } else {
        assert((a + b).drop_first() =~= a.drop_first() + b);
        lemma_ops_tail_concat(a.drop_first(), b);
        assert((a + b)[0] == a[0]);
        assert(seq![0x2cu8] + spec_op_json(a[0]) + (spec_ops_tail_json(a.drop_first())
            + spec_ops_tail_json(b)) =~= spec_ops_tail_json(a) + spec_ops_tail_json(b));
    }
}

/// Append one rendered operation to `out`.
fn op_json_into(out: &mut Vec<u8>, op: &PatchOp)
    ensures
        final(out)@ == old(out)@ + spec_op_json(op_view(*op)),
{
    crate::bytestr::bytes_extend(&mut *out, "{\"op\":\"add\",\"path\":".as_bytes());
    crate::json::json_string_into(out, &op.path);
    crate::bytestr::bytes_extend(&mut *out, ",\"value\":".as_bytes());
    match &op.value {
        PatchValue::EmptyObject => {
            crate::bytestr::bytes_extend(&mut *out, "{}".as_bytes());
        },
        PatchValue::Text(t) => {
            crate::json::json_string_into(out, t);
        },
    }
    crate::bytestr::bytes_extend(&mut *out, "}".as_bytes());
    proof {
        assert(out@ =~= old(out)@ + spec_op_json(op_view(*op)));
    }
}

/// Render the patch operations as a compact JSON Patch document.
pub fn render_patch_json(ops: &Vec<PatchOp>) -> (r: Vec<u8>)
    ensures
        r@ == spec_patch_json(ops_view(ops@)),
{
    let mut out: Vec<u8> = Vec::new();
    out.push(0x5b);
    let n = ops.len();
    let mut i: usize = 0;
    proof {
        assert(out@ =~= seq![0x5bu8]);
    }
    while i < n
        invariant
            0 <= i <= n,
            n == ops@.len(),
            i == 0 ==> out@ == seq![0x5bu8],
            i > 0 ==> out@ == seq![0x5bu8] + spec_op_json(op_view(ops@[0])) + spec_ops_tail_json(
                ops_view(ops@).subrange(1, i as int),
            ),
        decreases n - i,
    {
        if i > 0 {
            out.push(0x2c);
        }
        op_json_into(&mut out, &ops[i]);
        proof {
            if i > 0 {
                let tv = ops_view(ops@);
                assert(tv.subrange(1, i + 1 as int) =~= tv.subrange(1, i as int) + seq![
                    tv[i as int],
                ]);
                lemma_ops_tail_concat(tv.subrange(1, i as int), seq![tv[i as int]]);
                assert(seq![tv[i as int]].drop_first() =~= Seq::<
                    (Seq<u8>, Option<Seq<u8>>),
                >::empty());
                assert(spec_ops_tail_json(Seq::<(Seq<u8>, Option<Seq<u8>>)>::empty()) == Seq::<
                    u8,
                >::empty());
                assert(seq![tv[i as int]][0] == tv[i as int]);
                assert(spec_ops_tail_json(seq![tv[i as int]]) =~= seq![0x2cu8] + spec_op_json(
                    tv[i as int],
                ));
                assert(out@ =~= seq![0x5bu8] + spec_op_json(op_view(ops@[0]))
                    + spec_ops_tail_json(ops_view(ops@).subrange(1, i + 1 as int)));
            } else {
                assert(op_view(ops@[0]) == ops_view(ops@)[0]);
                assert(ops_view(ops@).subrange(1, 1) =~= Seq::<(Seq<u8>, Option<Seq<u8>>)>::empty());
                assert(spec_ops_tail_json(Seq::<(Seq<u8>, Option<Seq<u8>>)>::empty()) == Seq::<
                    u8,
                >::empty());
                assert(out@ =~= seq![0x5bu8] + spec_op_json(op_view(ops@[0]))
                    + spec_ops_tail_json(ops_view(ops@).subrange(1, 1)));
            }
        }
        i = i + 1;
    }
    out.push(0x5d);
    proof {
        if n == 0 {
            assert(out@ =~= spec_patch_json(ops_view(ops@)));
        } else {
            assert(ops_view(ops@).subrange(1, n as int) =~= ops_view(ops@).drop_first());
            assert(out@ =~= spec_patch_json(ops_view(ops@)));
        }
    }
    out
}

/// The base64 text of a byte string, standard alphabet with padding.
pub uninterp spec fn b64_of(s: Seq<u8>) -> Seq<u8>;

/// Relies on base64's `STANDARD` engine (standard alphabet, padded): the
/// encoding depends on the input bytes alone, and its length is four
/// characters for every started group of three bytes.
#[verifier::external_body]
fn base64_encode(v: &[u8]) -> (r: Vec<u8>)
    ensures
        r@ == b64_of(v@),
        r@.len() == 4 * ((v@.len() + 2) / 3),
{
    base64::Engine::encode(&base64::engine::general_purpose::STANDARD, v).into_bytes()
}

/// The base64-encoded JSON Patch carried by the admission response.
pub fn admission_patch_b64(ops: &Vec<PatchOp>) -> (r: Vec<u8>)
    ensures
        r@ == b64_of(spec_patch_json(ops_view(ops@))),
{
    let rendered = render_patch_json(ops);
    base64_encode(rendered.as_slice())
}

/// Failures of one admission request.
pub enum AdmissionError {
    /// The request carried no object; for a CREATE review it must.
    MissingObject,
    /// The annotation computation failed; the API server then applies the
    /// webhook's failure policy.
    AnnotationsFailed(Error),
}

/// The message of the response denying a request without an object.
pub fn missing_object_message() -> (r: String)
    ensures
        r@ == "object (of type StatefulSet) missing - for operation CREATE it must be always present"@,
{
    "object (of type StatefulSet) missing - for operation CREATE it must be always present".to_owned()
}

/// The admission mutation for a StatefulSet CREATE: the same annotation
/// computation as the reflector, emitted as JSON patch operations. The
/// request's object is `None` when the review carried none.
pub fn admission_mutate(
    sts: Option<&StatefulSet>,
    cms: Result<&MetaCache, InitDropped>,
    secrets: Result<&MetaCache, InitDropped>,
) -> (r: Result<Vec<PatchOp>, AdmissionError>)
    requires
        match sts {
            Some(s) => s.namespace is Some,
            None => true,
        },
        cms is Ok ==> cms->Ok_0.wf(),
        secrets is Ok ==> secrets->Ok_0.wf(),
    ensures
        match sts {
            None => r matches Err(AdmissionError::MissingObject),
            Some(s) => match (cms, secrets) {
                (Err(_), _) => r matches Err(
                    AdmissionError::AnnotationsFailed(Error::ConfigMapsUninitialized),
                ),
                (Ok(_), Err(_)) => r matches Err(
                    AdmissionError::AnnotationsFailed(Error::SecretsUninitialized),
                ),
                (Ok(c), Ok(sec)) => r matches Ok(ops) && ops_view(ops@) == spec_admission_ops(
                    s,
                    spec_sts_ann_kvs(s, c@, sec@),
                ),
            },
        },
{
    let sts = match sts {
        Some(s) => s,
        None => {
            return Err(AdmissionError::MissingObject);
        },
    };
    let anns = match get_updated_restarter_annotations(sts, cms, secrets) {
        Ok(anns) => anns,
        Err(e) => {
            return Err(AdmissionError::AnnotationsFailed(e));
        },
    };
    Ok(build_admission_ops(sts, &anns))
}

/// The annotation pairs a sequence of admission operations stamps: for
/// each `add` past the created intermediate objects, the key read back
/// from the path's reference token and the value text.
pub open spec fn spec_ops_ann_pairs(ops: Seq<(Seq<u8>, Option<Seq<u8>>)>, n_create: int) -> Seq<
    (Seq<u8>, Seq<u8>),
> {
    ops.skip(n_create).map_values(
        |p: (Seq<u8>, Option<Seq<u8>>)|
            (ptr_unescaped(p.0.skip(spec_ann_path_prefix().len() as int)), p.1->0),
    )
}

/// The reflector and the webhook stamp identical annotations: the pairs
/// embedded in the webhook's patch operations are exactly the sorted
/// entries the reflector embeds in its server-side-apply patch.
pub proof fn lemma_reflector_webhook_agree(
    sts: &StatefulSet,
    cms: crate::statefulset::CacheMap,
    secrets: crate::statefulset::CacheMap,
)
    requires
        sts.namespace is Some,
    ensures
        spec_ops_ann_pairs(
            spec_admission_ops(sts, spec_sts_ann_kvs(sts, cms, secrets)),
            spec_create_paths(sts).len() as int,
        ) == spec_sts_ann_kvs(sts, cms, secrets),
{
    let kvs = spec_sts_ann_kvs(sts, cms, secrets);
    let ops = spec_admission_ops(sts, kvs);
    let nc = spec_create_paths(sts).len() as int;
    let pairs = spec_ops_ann_pairs(ops, nc);
    assert forall|j: int| 0 <= j < kvs.len() implies pairs[j] == kvs[j] by {
        assert(ops.skip(nc)[j] == ops[nc + j]);
        assert(ops[nc + j] == (spec_ann_path_prefix() + ptr_escaped(kvs[j].0), Some(kvs[j].1)));
        assert((spec_ann_path_prefix() + ptr_escaped(kvs[j].0)).skip(
            spec_ann_path_prefix().len() as int,
        ) =~= ptr_escaped(kvs[j].0));
        lemma_ptr_escape_roundtrip(kvs[j].0);
    }
    assert(pairs =~= kvs);
}

/// The name of the MutatingWebhookConfiguration this controller maintains.
pub fn webhook_configuration_name() -> (r: String)
    ensures
        r@ == "restarter-sts-enricher.stackable.tech"@,
{
    "restarter-sts-enricher.stackable.tech".to_owned()
}

/// The registration's failure policy: if the webhook cannot answer, the
/// API server admits the object and the reflector catches up later.
pub fn webhook_failure_policy() -> (r: String)
    ensures
        r@ == "Ignore"@,
{
    "Ignore".to_owned()
}

/// The registration's reinvocation policy: other mutating webhooks may add
/// further ConfigMap or Secret mounts worth stamping.
pub fn webhook_reinvocation_policy() -> (r: String)
    ensures
        r@ == "IfNeeded"@,
{
    "IfNeeded".to_owned()
}

/// The registration's side-effect class: the webhook only reads cached
/// state and writes nothing outside the reviewed object.
pub fn webhook_side_effects() -> (r: String)
    ensures
        r@ == "None"@,
{
    "None".to_owned()
}

} // verus!
