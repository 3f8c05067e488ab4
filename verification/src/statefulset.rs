//! The StatefulSet restarter: computes the restarter annotations for a
//! StatefulSet from the referent caches, and renders the server-side-apply
//! patch that writes them into the Pod template.
use vstd::prelude::*;

use crate::annmap::{map_of, sorted_insert, AnnotationMap};
use crate::cache::MetaCache;
use crate::delayed::InitDropped;
use crate::json::{json_annotations_object_into, spec_json_object, spec_json_string};
use crate::refs::{find_pod_refs, pod_refs, PodSpec, RefKind};
use vstd::string::StringSliceAdditionalSpecFns;

verus! {

/// Pod template metadata, reduced to what the webhook patch inspects.
pub struct PodTemplateMeta {
    pub annotations: Option<Vec<(Vec<u8>, Vec<u8>)>>,
}

/// A Pod template: optional metadata and optional Pod spec.
pub struct PodTemplate {
    pub metadata: Option<PodTemplateMeta>,
    pub spec: Option<PodSpec>,
}

/// The spec of a StatefulSet, reduced to its Pod template.
pub struct StatefulSetSpec {
    pub template: PodTemplate,
}

/// A StatefulSet, reduced to the fields this controller reads.
pub struct StatefulSet {
    pub name: Option<Vec<u8>>,
    pub namespace: Option<Vec<u8>>,
    pub uid: Option<Vec<u8>>,
    pub labels: Vec<(Vec<u8>, Vec<u8>)>,
    pub spec: Option<StatefulSetSpec>,
}

/// What the reconciler asks the scheduler to do next.
#[derive(Clone, Copy, Debug, PartialEq, Eq, Structural)]
pub enum Action {
    /// Wait for the next watch event on the object.
    AwaitChange,
    /// Run again after this many seconds.
    RequeueAfterSecs(u64),
}

/// Failures of one StatefulSet reconciliation.
#[derive(Clone, Copy, Debug, PartialEq, Eq, Structural)]
pub enum Error {
    /// The watched object could not be deserialised.
    InvalidStatefulSet,
    /// The server-side-apply submission failed.
    PatchFailed,
    /// The ConfigMap cache initializer was cancelled.
    ConfigMapsUninitialized,
    /// The Secret cache initializer was cancelled.
    SecretsUninitialized,
}

impl Error {
    /// Stable short name of the error, used to categorise emitted events.
    pub fn category(&self) -> (r: String)
        ensures
            r@ == match *self {
                Error::InvalidStatefulSet => "InvalidStatefulSet"@,
                Error::PatchFailed => "PatchFailed"@,
                Error::ConfigMapsUninitialized => "ConfigMapsUninitialized"@,
                Error::SecretsUninitialized => "SecretsUninitialized"@,
            },
    {
        match self {
            Error::InvalidStatefulSet => "InvalidStatefulSet".to_owned(),
            Error::PatchFailed => "PatchFailed".to_owned(),
            Error::ConfigMapsUninitialized => "ConfigMapsUninitialized".to_owned(),
            Error::SecretsUninitialized => "SecretsUninitialized".to_owned(),
        }
    }
}

/// Key prefix of annotations that record a ConfigMap revision.
pub open spec fn spec_cm_prefix() -> Seq<u8> {
    "configmap.restarter.stackable.tech/".spec_bytes()
}

/// Key prefix of annotations that record a Secret revision.
pub open spec fn spec_secret_prefix() -> Seq<u8> {
    "secret.restarter.stackable.tech/".spec_bytes()
}

pub fn cm_annotation_prefix() -> (r: &'static [u8])
    ensures
        r@ == spec_cm_prefix(),
{
    "configmap.restarter.stackable.tech/".as_bytes()
}

pub fn secret_annotation_prefix() -> (r: &'static [u8])
    ensures
        r@ == spec_secret_prefix(),
{
    "secret.restarter.stackable.tech/".as_bytes()
}

/// The annotation key prefix of a referent kind.
pub open spec fn spec_kind_prefix(kind: RefKind) -> Seq<u8> {
    match kind {
        RefKind::ConfigMap => spec_cm_prefix(),
        RefKind::Secret => spec_secret_prefix(),
    }
}

/// The annotation key for a referent of `kind` named `name`.
pub open spec fn ann_key(kind: RefKind, name: Seq<u8>) -> Seq<u8> {
    spec_kind_prefix(kind) + name
}

/// The metadata map of one referent cache.
pub type CacheMap = Map<(Seq<u8>, Seq<u8>), (Option<Seq<u8>>, Option<Seq<u8>>)>;

/// The cache holds `(namespace, name)` and both `uid` and `resourceVersion`
/// are present.
pub open spec fn cached_complete(cache: CacheMap, ns: Seq<u8>, name: Seq<u8>) -> bool {
    cache.contains_key((ns, name)) && cache[(ns, name)].0 is Some && cache[(ns, name)].1 is Some
}

/// The annotation value for a cached referent: `<uid>/<resourceVersion>`.
pub open spec fn ann_value(meta: (Option<Seq<u8>>, Option<Seq<u8>>)) -> Seq<u8> {
    meta.0->0 + seq![47u8] + meta.1->0
}

/// The annotation for one referent name, if its cache entry is complete.
pub open spec fn ann_for(prefix: Seq<u8>, ns: Seq<u8>, name: Seq<u8>, cache: CacheMap) -> Option<
    (Seq<u8>, Seq<u8>),
> {
    if cached_complete(cache, ns, name) {
        Some((prefix + name, ann_value(cache[(ns, name)])))
    } else {
        None
    }
}

/// Insert the annotations of all `names` into the sorted sequence `s0`,
/// in order; cache misses and incomplete entries are dropped.
pub open spec fn refs_annotations(
    s0: Seq<(Seq<u8>, Seq<u8>)>,
    prefix: Seq<u8>,
    ns: Seq<u8>,
    names: Seq<Seq<u8>>,
    cache: CacheMap,
) -> Seq<(Seq<u8>, Seq<u8>)>
    decreases names.len(),
{
    if names.len() == 0 {
        s0
    } else {
        let s1 = match ann_for(prefix, ns, names[0], cache) {
            Some(kv) => sorted_insert(s0, kv.0, kv.1),
            None => s0,
        };
        refs_annotations(s1, prefix, ns, names.drop_first(), cache)
    }
}

/// The referent names of `kind` in the StatefulSet's Pod template.
pub open spec fn sts_pod_refs(sts: &StatefulSet, kind: RefKind) -> Seq<Seq<u8>> {
    match sts.spec {
        Some(ss) => match ss.template.spec {
            Some(ps) => pod_refs(&ps, kind),
            None => Seq::empty(),
        },
        None => Seq::empty(),
    }
}

/// The annotation entries of a StatefulSet, in sorted key order: ConfigMap
/// referents inserted first, Secret referents second.
pub open spec fn spec_sts_ann_kvs(sts: &StatefulSet, cms: CacheMap, secrets: CacheMap) -> Seq<
    (Seq<u8>, Seq<u8>),
> {
    let ns = sts.namespace->0@;
    refs_annotations(
        refs_annotations(
            Seq::empty(),
            spec_cm_prefix(),
            ns,
            sts_pod_refs(sts, RefKind::ConfigMap),
            cms,
        ),
        spec_secret_prefix(),
        ns,
        sts_pod_refs(sts, RefKind::Secret),
        secrets,
    )
}

proof fn lemma_refs_annotations_concat(
    s0: Seq<(Seq<u8>, Seq<u8>)>,
    prefix: Seq<u8>,
    ns: Seq<u8>,
    a: Seq<Seq<u8>>,
    b: Seq<Seq<u8>>,
    cache: CacheMap,
)
    ensures
        refs_annotations(s0, prefix, ns, a + b, cache) == refs_annotations(
            refs_annotations(s0, prefix, ns, a, cache),
            prefix,
            ns,
            b,
            cache,
        ),
    decreases a.len(),
{
    if a.len() == 0 {
        assert(a + b =~= b);
    } else {
        assert((a + b).drop_first() =~= a.drop_first() + b);
        assert((a + b)[0] == a[0]);
        let s1 = match ann_for(prefix, ns, a[0], cache) {
            Some(kv) => sorted_insert(s0, kv.0, kv.1),
            None => s0,
        };
        lemma_refs_annotations_concat(s1, prefix, ns, a.drop_first(), b, cache);
    }
}

/// Insert into `anns` one annotation per name whose cache entry is complete.
fn insert_cached_annotations(
    anns: &mut AnnotationMap,
    prefix: &[u8],
    ns: &[u8],
    names: &Vec<Vec<u8>>,
    cache: &MetaCache,
)
    requires
        old(anns).wf(),
        cache.wf(),
    ensures
        final(anns).wf(),
        final(anns).kvs() == refs_annotations(
            old(anns).kvs(),
            prefix@,
            ns@,
            crate::refs::views_of(names@),
            cache@,
        ),
{
    let ghost all = crate::refs::views_of(names@);
    let mut i: usize = 0;
    proof {
        assert(all.subrange(0, 0) =~= Seq::<Seq<u8>>::empty());
    }
    while i < names.len()
        invariant
            0 <= i <= names@.len(),
            all == crate::refs::views_of(names@),
            anns.wf(),
            cache.wf(),
            anns.kvs() == refs_annotations(
                old(anns).kvs(),
                prefix@,
                ns@,
                all.subrange(0, i as int),
                cache@,
            ),
        decreases names@.len() - i,
    {
        let name = &names[i];
        proof {
            assert(all[i as int] == name@);
        }
        match cache.get(ns, name) {
            Some(entry) => {
                match (&entry.uid, &entry.resource_version) {
                    (Some(uid), Some(rv)) => {
                        let mut key: Vec<u8> = Vec::new();
                        crate::bytestr::bytes_extend(&mut key, prefix);
                        crate::bytestr::bytes_extend(&mut key, name);
                        let mut value: Vec<u8> = Vec::new();
                        crate::bytestr::bytes_extend(&mut value, uid);
                        value.push(47);
                        crate::bytestr::bytes_extend(&mut value, rv);
                        proof {
                            assert(entry.meta() == cache@[(ns@, name@)]);
                            assert(value@ =~= ann_value(cache@[(ns@, name@)]));
                            assert(key@ == prefix@ + name@);
                            assert(ann_for(prefix@, ns@, name@, cache@) == Some(
                                (key@, value@),
                            ));
                        }
                        anns.insert(key, value);
                    },
                    _ => {
                        proof {
                            assert(entry.meta() == cache@[(ns@, name@)]);
                            assert(ann_for(prefix@, ns@, name@, cache@) is None);
                        }
                    },
                }
            },
            None => {
                proof {
                    assert(ann_for(prefix@, ns@, name@, cache@) is None);
                }
            },
        }
        proof {
            let pre = all.subrange(0, i as int);
            let spre = refs_annotations(old(anns).kvs(), prefix@, ns@, pre, cache@);
            let s1 = match ann_for(prefix@, ns@, all[i as int], cache@) {
                Some(kv) => sorted_insert(spre, kv.0, kv.1),
                None => spre,
            };
            assert(anns.kvs() == s1);
            assert(refs_annotations(s1, prefix@, ns@, Seq::<Seq<u8>>::empty(), cache@) == s1);
            assert(seq![all[i as int]].drop_first() =~= Seq::<Seq<u8>>::empty());
            assert(seq![all[i as int]][0] == all[i as int]);
            assert(refs_annotations(spre, prefix@, ns@, seq![all[i as int]], cache@) == s1);
            assert(all.subrange(0, i + 1 as int) =~= pre + seq![all[i as int]]);
            lemma_refs_annotations_concat(
                old(anns).kvs(),
                prefix@,
                ns@,
                pre,
                seq![all[i as int]],
                cache@,
            );
        }
        i = i + 1;
    }
    proof {
        assert(all.subrange(0, all.len() as int) =~= all);
    }
}

/// The ConfigMap and Secret names referenced by the StatefulSet's Pod
/// template, for one kind.
pub fn sts_find_refs(sts: &StatefulSet, kind: RefKind) -> (r: Vec<Vec<u8>>)
    ensures
        crate::refs::views_of(r@) == sts_pod_refs(sts, kind),
{
    match &sts.spec {
        Some(ss) => match &ss.template.spec {
            Some(ps) => find_pod_refs(ps, kind),
            None => {
                let r: Vec<Vec<u8>> = Vec::new();
                proof {
                    assert(crate::refs::views_of(r@) =~= Seq::<Seq<u8>>::empty());
                }
                r
            },
        },
        None => {
            let r: Vec<Vec<u8>> = Vec::new();
            proof {
                assert(crate::refs::views_of(r@) =~= Seq::<Seq<u8>>::empty());
            }
            r
        },
    }
}

/// Compute the restarter annotations of a StatefulSet against the two
/// referent caches. Pure: no patch is written. Shared by the reflector
/// reconciler and the admission webhook.
pub fn compute_annotations(sts: &StatefulSet, cms: &MetaCache, secrets: &MetaCache) -> (r:
    AnnotationMap)
    requires
        sts.namespace is Some,
        cms.wf(),
        secrets.wf(),
    ensures
        r.wf(),
        r.kvs() == spec_sts_ann_kvs(sts, cms@, secrets@),
        r@ == spec_sts_annotations(sts, cms@, secrets@),
{
    let ns_ref: &Vec<u8> = match &sts.namespace {
        Some(ns) => ns,
        None => unreached(),
    };
    let mut anns = AnnotationMap::new();
    let cm_names = sts_find_refs(sts, RefKind::ConfigMap);
    insert_cached_annotations(
        &mut anns,
        cm_annotation_prefix(),
        ns_ref.as_slice(),
        &cm_names,
        cms,
    );
    let secret_names = sts_find_refs(sts, RefKind::Secret);
    insert_cached_annotations(
        &mut anns,
        secret_annotation_prefix(),
        ns_ref.as_slice(),
        &secret_names,
        secrets,
    );
    proof {
        lemma_sts_ann_map(sts, cms@, secrets@);
    }
    anns
}

/// The restarter annotations of a StatefulSet, through the two delayed
/// cache handles: computation waits for both caches, and a cancelled
/// initializer surfaces as the corresponding error. The reflector and the
/// admission webhook both take their annotations from here.
pub fn get_updated_restarter_annotations(
    sts: &StatefulSet,
    cms: Result<&MetaCache, InitDropped>,
    secrets: Result<&MetaCache, InitDropped>,
) -> (r: Result<AnnotationMap, Error>)
    requires
        sts.namespace is Some,
        cms is Ok ==> cms->Ok_0.wf(),
        secrets is Ok ==> secrets->Ok_0.wf(),
    ensures
        match (cms, secrets) {
            (Err(_), _) => r matches Err(Error::ConfigMapsUninitialized),
            (Ok(_), Err(_)) => r matches Err(Error::SecretsUninitialized),
            (Ok(c), Ok(sec)) => r matches Ok(m) && m.wf() && m.kvs() == spec_sts_ann_kvs(
                sts,
                c@,
                sec@,
            ) && m@ == spec_sts_annotations(sts, c@, sec@),
        },
{
    let cms = match cms {
        Ok(c) => c,
        Err(_) => {
            return Err(Error::ConfigMapsUninitialized);
        },
    };
    let secrets = match secrets {
        Ok(c) => c,
        Err(_) => {
            return Err(Error::SecretsUninitialized);
        },
    };
    Ok(compute_annotations(sts, cms, secrets))
}

/// The annotations a batch of referent names contributes: one entry per
/// name whose cache entry is complete, keyed under `prefix`.
pub open spec fn spec_batch(prefix: Seq<u8>, ns: Seq<u8>, names: Seq<Seq<u8>>, cache: CacheMap) -> Map<
    Seq<u8>,
    Seq<u8>,
> {
    Map::new(
        |k: Seq<u8>|
            exists|i: int|
                0 <= i < names.len() && cached_complete(cache, ns, #[trigger] names[i]) && k
                    == prefix + names[i],
        |k: Seq<u8>| ann_value(cache[(ns, k.skip(prefix.len() as int))]),
    )
}

/// Folding a batch of names into `s0` denotes overriding `map_of(s0)` with
/// the batch's map.
proof fn lemma_refs_ann_map(
    s0: Seq<(Seq<u8>, Seq<u8>)>,
    prefix: Seq<u8>,
    ns: Seq<u8>,
    names: Seq<Seq<u8>>,
    cache: CacheMap,
)
    ensures
        map_of(refs_annotations(s0, prefix, ns, names, cache)) == map_of(s0).union_prefer_right(
            spec_batch(prefix, ns, names, cache),
        ),
    decreases names.len(),
{
    let b_all = spec_batch(prefix, ns, names, cache);
    if names.len() == 0 {
        assert forall|k: Seq<u8>| !(#[trigger] b_all.dom().contains(k)) by {
            if b_all.dom().contains(k) {
                let i = choose|i: int|
                    0 <= i < names.len() && cached_complete(cache, ns, #[trigger] names[i]) && k
                        == prefix + names[i];
            }
        }
        assert(map_of(s0).union_prefer_right(b_all) =~= map_of(s0));
    } else {
        let n0 = names[0];
        let rest = names.drop_first();
        let s1 = match ann_for(prefix, ns, n0, cache) {
            Some(kv) => sorted_insert(s0, kv.0, kv.1),
            None => s0,
        };
        if ann_for(prefix, ns, n0, cache) is Some {
            crate::annmap::lemma_sorted_insert_map(s0, prefix + n0, ann_value(cache[(ns, n0)]));
        }
        lemma_refs_ann_map(s1, prefix, ns, rest, cache);
        let b_rest = spec_batch(prefix, ns, rest, cache);
        // shifting indices between `names` and `rest`
        assert forall|k: Seq<u8>| #[trigger] b_rest.dom().contains(k) implies b_all.dom().contains(
            k,
        ) by {
            let i = choose|i: int|
                0 <= i < rest.len() && cached_complete(cache, ns, #[trigger] rest[i]) && k == prefix
                    + rest[i];
            assert(names[i + 1] == rest[i]);
            assert(cached_complete(cache, ns, names[i + 1]) && k == prefix + names[i + 1]);
        }
        assert forall|k: Seq<u8>| #[trigger] b_all.dom().contains(k) implies (b_rest.dom().contains(
            k,
        ) || (cached_complete(cache, ns, n0) && k == prefix + n0)) by {
            let i = choose|i: int|
                0 <= i < names.len() && cached_complete(cache, ns, #[trigger] names[i]) && k
                    == prefix + names[i];
            if i > 0 {
                assert(rest[i - 1] == names[i]);
                assert(cached_complete(cache, ns, rest[i - 1]) && k == prefix + rest[i - 1]);
            }
        }
        if cached_complete(cache, ns, n0) {
            assert(cached_complete(cache, ns, names[0]) && prefix + n0 == prefix + names[0]);
            assert(b_all.dom().contains(prefix + n0));
            assert((prefix + n0).skip(prefix.len() as int) =~= n0);
        }
        assert(map_of(refs_annotations(s0, prefix, ns, names, cache)) =~= map_of(
            s0,
        ).union_prefer_right(b_all));
    }
}

/// The restarter annotations of a StatefulSet as a map: the ConfigMap
/// batch joined with the Secret batch.
pub open spec fn spec_sts_annotations(sts: &StatefulSet, cms: CacheMap, secrets: CacheMap) -> Map<
    Seq<u8>,
    Seq<u8>,
> {
    let ns = sts.namespace->0@;
    spec_batch(spec_cm_prefix(), ns, sts_pod_refs(sts, RefKind::ConfigMap), cms)
        .union_prefer_right(
        spec_batch(spec_secret_prefix(), ns, sts_pod_refs(sts, RefKind::Secret), secrets),
    )
}

/// The sorted annotation entries denote exactly `spec_sts_annotations`.
pub proof fn lemma_sts_ann_map(sts: &StatefulSet, cms: CacheMap, secrets: CacheMap)
    requires
        sts.namespace is Some,
    ensures
        map_of(spec_sts_ann_kvs(sts, cms, secrets)) == spec_sts_annotations(sts, cms, secrets),
{
    let ns = sts.namespace->0@;
    let empty = Seq::<(Seq<u8>, Seq<u8>)>::empty();
    let cm_fold = refs_annotations(
        empty,
        spec_cm_prefix(),
        ns,
        sts_pod_refs(sts, RefKind::ConfigMap),
        cms,
    );
    lemma_refs_ann_map(empty, spec_cm_prefix(), ns, sts_pod_refs(sts, RefKind::ConfigMap), cms);
    lemma_refs_ann_map(
        cm_fold,
        spec_secret_prefix(),
        ns,
        sts_pod_refs(sts, RefKind::Secret),
        secrets,
    );
    assert(map_of(empty) =~= Map::<Seq<u8>, Seq<u8>>::empty());
    assert(map_of(spec_sts_ann_kvs(sts, cms, secrets)) =~= spec_sts_annotations(
        sts,
        cms,
        secrets,
    ));
}

/// The two annotation key prefixes begin with different bytes: `c` and `s`.
proof fn lemma_prefix_first_bytes()
    ensures
        spec_cm_prefix().len() > 0,
        spec_secret_prefix().len() > 0,
        spec_cm_prefix()[0] == 99u8,
        spec_secret_prefix()[0] == 115u8,
{
    reveal_strlit("configmap.restarter.stackable.tech/");
    reveal_strlit("secret.restarter.stackable.tech/");
    let c = "configmap.restarter.stackable.tech/"@;
    let s = "secret.restarter.stackable.tech/"@;
    assert(c[0] == 'c');
    assert(s[0] == 's');
    assert(('c' as u32) == 99);
    assert(('s' as u32) == 115);
    assert((99u32 & 0x7F) == 99u32) by (bit_vector);
    assert((115u32 & 0x7F) == 115u32) by (bit_vector);
    assert(vstd::utf8::encode_scalar(99u32) =~= seq![99u8]);
    assert(vstd::utf8::encode_scalar(115u32) =~= seq![115u8]);
    assert(spec_cm_prefix() == vstd::utf8::encode_scalar(c[0] as u32) + vstd::utf8::encode_utf8(
        c.drop_first(),
    ));
    assert(spec_secret_prefix() == vstd::utf8::encode_scalar(s[0] as u32)
        + vstd::utf8::encode_utf8(s.drop_first()));
    assert(spec_cm_prefix()[0] == 99u8);
    assert(spec_secret_prefix()[0] == 115u8);
}

/// A ConfigMap annotation key is never a Secret annotation key.
pub proof fn lemma_kind_keys_distinct(a: Seq<u8>, b: Seq<u8>)
    ensures
        ann_key(RefKind::ConfigMap, a) != ann_key(RefKind::Secret, b),
{
    lemma_prefix_first_bytes();
    assert(ann_key(RefKind::ConfigMap, a)[0] == 99u8);
    assert(ann_key(RefKind::Secret, b)[0] == 115u8);
}

/// A key of the batch for `kind` always starts with that kind's prefix.
proof fn lemma_batch_key_shape(
    kind: RefKind,
    ns: Seq<u8>,
    names: Seq<Seq<u8>>,
    cache: CacheMap,
    k: Seq<u8>,
)
    requires
        spec_batch(spec_kind_prefix(kind), ns, names, cache).dom().contains(k),
    ensures
        exists|i: int|
            0 <= i < names.len() && cached_complete(cache, ns, #[trigger] names[i]) && k == ann_key(
                kind,
                names[i],
            ),
{
}

/// Every StatefulSet referent that is present and complete in its cache is
/// annotated with `<uid>/<resourceVersion>` under its kind's key.
pub proof fn lemma_cached_referent_annotated(
    sts: &StatefulSet,
    cms: CacheMap,
    secrets: CacheMap,
    kind: RefKind,
    n: Seq<u8>,
)
    requires
        sts.namespace is Some,
        sts_pod_refs(sts, kind).contains(n),
        cached_complete(
            match kind {
                RefKind::ConfigMap => cms,
                RefKind::Secret => secrets,
            },
            sts.namespace->0@,
            n,
        ),
    ensures
        spec_sts_annotations(sts, cms, secrets).contains_key(ann_key(kind, n)),
        spec_sts_annotations(sts, cms, secrets)[ann_key(kind, n)] == ann_value(
            (match kind {
                RefKind::ConfigMap => cms,
                RefKind::Secret => secrets,
            })[(sts.namespace->0@, n)],
        ),
{
    let ns = sts.namespace->0@;
    let cache = match kind {
        RefKind::ConfigMap => cms,
        RefKind::Secret => secrets,
    };
    let names = sts_pod_refs(sts, kind);
    let prefix = spec_kind_prefix(kind);
    let b = spec_batch(prefix, ns, names, cache);
    let i = choose|i: int| 0 <= i < names.len() && names[i] == n;
    assert(cached_complete(cache, ns, names[i]) && ann_key(kind, n) == prefix + names[i]);
    assert(b.dom().contains(ann_key(kind, n)));
    assert((prefix + n).skip(prefix.len() as int) =~= n);
    match kind {
        RefKind::Secret => {},
        RefKind::ConfigMap => {
            let bs = spec_batch(
                spec_secret_prefix(),
                ns,
                sts_pod_refs(sts, RefKind::Secret),
                secrets,
            );
            assert(!bs.dom().contains(ann_key(kind, n))) by {
                if bs.dom().contains(ann_key(kind, n)) {
                    lemma_batch_key_shape(
                        RefKind::Secret,
                        ns,
                        sts_pod_refs(sts, RefKind::Secret),
                        secrets,
                        ann_key(kind, n),
                    );
                    let j = choose|j: int|
                        0 <= j < sts_pod_refs(sts, RefKind::Secret).len() && cached_complete(
                            secrets,
                            ns,
                            #[trigger] sts_pod_refs(sts, RefKind::Secret)[j],
                        ) && ann_key(kind, n) == ann_key(
                            RefKind::Secret,
                            sts_pod_refs(sts, RefKind::Secret)[j],
                        );
                    lemma_kind_keys_distinct(n, sts_pod_refs(sts, RefKind::Secret)[j]);
                }
            }
        },
    }
}

/// A referent that is absent from its cache, or whose cache entry lacks
/// `uid` or `resourceVersion`, contributes no annotation: its key is not in
/// the computed map.
pub proof fn lemma_uncached_referent_unannotated(
    sts: &StatefulSet,
    cms: CacheMap,
    secrets: CacheMap,
    kind: RefKind,
    n: Seq<u8>,
)
    requires
        sts.namespace is Some,
        !cached_complete(
            match kind {
                RefKind::ConfigMap => cms,
                RefKind::Secret => secrets,
            },
            sts.namespace->0@,
            n,
        ),
    ensures
        !spec_sts_annotations(sts, cms, secrets).contains_key(ann_key(kind, n)),
{
    let ns = sts.namespace->0@;
    let k = ann_key(kind, n);
    let b_cm = spec_batch(spec_cm_prefix(), ns, sts_pod_refs(sts, RefKind::ConfigMap), cms);
    let b_s = spec_batch(spec_secret_prefix(), ns, sts_pod_refs(sts, RefKind::Secret), secrets);
    assert(!b_cm.dom().contains(k)) by {
        if b_cm.dom().contains(k) {
            lemma_batch_key_shape(RefKind::ConfigMap, ns, sts_pod_refs(sts, RefKind::ConfigMap), cms, k);
            let j = choose|j: int|
                0 <= j < sts_pod_refs(sts, RefKind::ConfigMap).len() && cached_complete(
                    cms,
                    ns,
                    #[trigger] sts_pod_refs(sts, RefKind::ConfigMap)[j],
                ) && k == ann_key(RefKind::ConfigMap, sts_pod_refs(sts, RefKind::ConfigMap)[j]);
            let m = sts_pod_refs(sts, RefKind::ConfigMap)[j];
            match kind {
                RefKind::ConfigMap => {
                    crate::bytestr::lemma_concat_injective(spec_cm_prefix(), n, m);
                },
                RefKind::Secret => {
                    lemma_kind_keys_distinct(m, n);
                },
            }
        }
    }
    assert(!b_s.dom().contains(k)) by {
        if b_s.dom().contains(k) {
            lemma_batch_key_shape(RefKind::Secret, ns, sts_pod_refs(sts, RefKind::Secret), secrets, k);
            let j = choose|j: int|
                0 <= j < sts_pod_refs(sts, RefKind::Secret).len() && cached_complete(
                    secrets,
                    ns,
                    #[trigger] sts_pod_refs(sts, RefKind::Secret)[j],
                ) && k == ann_key(RefKind::Secret, sts_pod_refs(sts, RefKind::Secret)[j]);
            let m = sts_pod_refs(sts, RefKind::Secret)[j];
            match kind {
                RefKind::Secret => {
                    crate::bytestr::lemma_concat_injective(spec_secret_prefix(), n, m);
                },
                RefKind::ConfigMap => {
                    lemma_kind_keys_distinct(n, m);
                },
            }
        }
    }
}

/// The JSON rendering of an optional string: `null` when absent.
pub open spec fn spec_json_opt_string(o: Option<Seq<u8>>) -> Seq<u8> {
    match o {
        Some(s) => spec_json_string(s),
        None => "null".spec_bytes(),
    }
}

/// The server-side-apply patch body for a StatefulSet: its identity plus
/// the computed Pod template annotations, rendered as compact JSON with
/// keys in sorted order.
pub open spec fn spec_apply_patch(
    name: Seq<u8>,
    ns: Seq<u8>,
    uid: Option<Seq<u8>>,
    kvs: Seq<(Seq<u8>, Seq<u8>)>,
) -> Seq<u8> {
    "{\"apiVersion\":\"apps/v1\",\"kind\":\"StatefulSet\",\"metadata\":{\"name\":".spec_bytes()
        + spec_json_string(name) + ",\"namespace\":".spec_bytes() + spec_json_string(ns)
        + ",\"uid\":".spec_bytes() + spec_json_opt_string(uid)
        + "},\"spec\":{\"template\":{\"metadata\":{\"annotations\":".spec_bytes()
        + spec_json_object(kvs) + "}}}}".spec_bytes()
}

/// Render the server-side-apply patch for `sts` carrying `anns`.
pub fn render_apply_patch(sts: &StatefulSet, anns: &AnnotationMap) -> (r: Vec<u8>)
    requires
        sts.name is Some,
        sts.namespace is Some,
    ensures
        r@ == spec_apply_patch(
            sts.name->0@,
            sts.namespace->0@,
            crate::cache::opt_bytes(sts.uid),
            anns.kvs(),
        ),
{
    let mut out: Vec<u8> = Vec::new();
    crate::bytestr::bytes_extend(
        &mut out,
        "{\"apiVersion\":\"apps/v1\",\"kind\":\"StatefulSet\",\"metadata\":{\"name\":".as_bytes(),
    );
    let name: &Vec<u8> = match &sts.name {
        Some(n) => n,
        None => unreached(),
    };
    crate::json::json_string_into(&mut out, name.as_slice());
    crate::bytestr::bytes_extend(&mut out, ",\"namespace\":".as_bytes());
    let ns: &Vec<u8> = match &sts.namespace {
        Some(n) => n,
        None => unreached(),
    };
    crate::json::json_string_into(&mut out, ns.as_slice());
    crate::bytestr::bytes_extend(&mut out, ",\"uid\":".as_bytes());
    match &sts.uid {
        Some(u) => crate::json::json_string_into(&mut out, u.as_slice()),
        None => crate::bytestr::bytes_extend(&mut out, "null".as_bytes()),
    }
    crate::bytestr::bytes_extend(
        &mut out,
        "},\"spec\":{\"template\":{\"metadata\":{\"annotations\":".as_bytes(),
    );
    json_annotations_object_into(&mut out, anns);
    crate::bytestr::bytes_extend(&mut out, "}}}}".as_bytes());
    proof {
        assert(out@ =~= spec_apply_patch(
            sts.name->0@,
            sts.namespace->0@,
            crate::cache::opt_bytes(sts.uid),
            anns.kvs(),
        ));
    }
    out
}

/// The field manager identity under which the patch is applied.
pub fn ssa_field_manager() -> (r: String)
    ensures
        r@ == "restarter.stackable.tech/statefulset"@,
{
    "restarter.stackable.tech/statefulset".to_owned()
}

/// The label selector the StatefulSet watch passes to the API server: only
/// opted-in objects are delivered.
pub fn optin_label_selector() -> (r: String)
    ensures
        r@ == "restarter.stackable.tech/enabled=true"@,
{
    "restarter.stackable.tech/enabled=true".to_owned()
}

/// The full name of this controller, used for event reporting.
pub fn controller_name() -> (r: String)
    ensures
        r@ == "statefulset.restarter.commons.stackable.tech"@,
{
    "statefulset.restarter.commons.stackable.tech".to_owned()
}

/// The StatefulSet carries the opt-in label `restarter.stackable.tech/enabled=true`.
pub open spec fn spec_sts_opt_in(sts: &StatefulSet) -> bool {
    exists|i: int|
        0 <= i < sts.labels@.len() && (#[trigger] sts.labels@[i]).0@
            == "restarter.stackable.tech/enabled".spec_bytes() && sts.labels@[i].1@
            == "true".spec_bytes()
}

/// Does the StatefulSet opt in to restarter management? One not opted in is
/// never reconciled and never mutated.
pub fn sts_opt_in(sts: &StatefulSet) -> (r: bool)
    ensures
        r == spec_sts_opt_in(sts),
{
    let key = "restarter.stackable.tech/enabled".as_bytes();
    let value = "true".as_bytes();
    let n = sts.labels.len();
    let mut i: usize = 0;
    while i < n
        invariant
            0 <= i <= n,
            n == sts.labels@.len(),
            key@ == "restarter.stackable.tech/enabled".spec_bytes(),
            value@ == "true".spec_bytes(),
            forall|j: int|
                0 <= j < i ==> !((#[trigger] sts.labels@[j]).0@
                    == "restarter.stackable.tech/enabled".spec_bytes() && sts.labels@[j].1@
                    == "true".spec_bytes()),
        decreases n - i,
    {
        let l = &sts.labels[i];
        proof {
            assert(*l == sts.labels@[i as int]);
        }
        if crate::bytestr::bytes_eq(&l.0, key) && crate::bytestr::bytes_eq(&l.1, value) {
            proof {
                assert((sts.labels@[i as int]).0@ == "restarter.stackable.tech/enabled".spec_bytes()
                    && sts.labels@[i as int].1@ == "true".spec_bytes());
            }
            return true;
        }
        proof {
            assert(!((sts.labels@[i as int]).0@
                == "restarter.stackable.tech/enabled".spec_bytes() && sts.labels@[i as int].1@
                == "true".spec_bytes()));
        }
        i = i + 1;
    }
    false
}

/// One reconciliation step of the StatefulSet restarter, as a function of
/// the watched object and the two cache handles. `sts` is `None` when the
/// watched object could not be deserialised; a cache handle is `Err` when
/// its initializer was cancelled. On success the returned bytes are the
/// server-side-apply patch to submit under `ssa_field_manager()` with
/// `force`, and the action is `AwaitChange`.
pub fn reconcile_statefulset(
    sts: Option<&StatefulSet>,
    cms: Result<&MetaCache, InitDropped>,
    secrets: Result<&MetaCache, InitDropped>,
) -> (r: Result<(Vec<u8>, Action), Error>)
    requires
        match sts {
            Some(s) => s.name is Some && s.namespace is Some,
            None => true,
        },
        cms is Ok ==> cms->Ok_0.wf(),
        secrets is Ok ==> secrets->Ok_0.wf(),
    ensures
        match sts {
            None => r == Err::<(Vec<u8>, Action), Error>(Error::InvalidStatefulSet),
            Some(s) => match (cms, secrets) {
                (Err(_), _) => r == Err::<(Vec<u8>, Action), Error>(
                    Error::ConfigMapsUninitialized,
                ),
                (Ok(_), Err(_)) => r == Err::<(Vec<u8>, Action), Error>(
                    Error::SecretsUninitialized,
                ),
                (Ok(c), Ok(sec)) => {
                    &&& r is Ok
                    &&& r->Ok_0.1 == Action::AwaitChange
                    &&& r->Ok_0.0@ == spec_apply_patch(
                        s.name->0@,
                        s.namespace->0@,
                        crate::cache::opt_bytes(s.uid),
                        spec_sts_ann_kvs(s, c@, sec@),
                    )
                    &&& map_of(spec_sts_ann_kvs(s, c@, sec@)) == spec_sts_annotations(
                        s,
                        c@,
                        sec@,
                    )
                },
            },
        },
{
    let sts = match sts {
        Some(s) => s,
        None => {
            return Err(Error::InvalidStatefulSet);
        },
    };
    let anns = match get_updated_restarter_annotations(sts, cms, secrets) {
        Ok(anns) => anns,
        Err(e) => {
            return Err(e);
        },
    };
    let patch = render_apply_patch(sts, &anns);
    Ok((patch, Action::AwaitChange))
}

/// The retry policy: an invalid object waits for its next change (which
/// re-triggers reconciliation anyway); every other failure is retried
/// after a short fixed delay.
pub fn error_policy(e: &Error) -> (r: Action)
    ensures
        r == match *e {
            Error::InvalidStatefulSet => Action::AwaitChange,
            _ => Action::RequeueAfterSecs(5u64),
        },
{
    match e {
        Error::InvalidStatefulSet => Action::AwaitChange,
        _ => Action::RequeueAfterSecs(5),
    }
}

/// Reconciling twice against an unchanged cache yields byte-identical
/// patches: the patch is a function of the StatefulSet and cache contents
/// alone.
pub proof fn lemma_reconcile_deterministic(
    sts: &StatefulSet,
    cms: CacheMap,
    secrets: CacheMap,
    p1: Seq<u8>,
    p2: Seq<u8>,
)
    requires
        sts.name is Some,
        sts.namespace is Some,
        p1 == spec_apply_patch(
            sts.name->0@,
            sts.namespace->0@,
            crate::cache::opt_bytes(sts.uid),
            spec_sts_ann_kvs(sts, cms, secrets),
        ),
        p2 == spec_apply_patch(
            sts.name->0@,
            sts.namespace->0@,
            crate::cache::opt_bytes(sts.uid),
            spec_sts_ann_kvs(sts, cms, secrets),
        ),
    ensures
        p1 == p2,
{
}

} // verus!
