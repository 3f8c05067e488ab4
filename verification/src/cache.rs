//! Reflector cache: an in-memory index of watched objects, keyed by
//! `(namespace, name)` and holding only the metadata the reconciler reads,
//! the object's `uid` and `resourceVersion`.
use vstd::prelude::*;

use crate::bytestr::bytes_eq;

verus! {

/// What a metadata-only watch retains of one object.
pub struct CacheEntry {
    pub namespace: Vec<u8>,
    pub name: Vec<u8>,
    pub uid: Option<Vec<u8>>,
    pub resource_version: Option<Vec<u8>>,
}

/// View of an optional byte string.
pub open spec fn opt_bytes(o: Option<Vec<u8>>) -> Option<Seq<u8>> {
    match o {
        Some(v) => Some(v@),
        None => None,
    }
}

impl CacheEntry {
    pub open spec fn key(&self) -> (Seq<u8>, Seq<u8>) {
        (self.namespace@, self.name@)
    }

    /// The retained metadata: `(uid, resourceVersion)`.
    pub open spec fn meta(&self) -> (Option<Seq<u8>>, Option<Seq<u8>>) {
        (opt_bytes(self.uid), opt_bytes(self.resource_version))
    }

    /// Both `uid` and `resourceVersion` are present; only such entries yield
    /// an annotation.
    pub open spec fn complete(&self) -> bool {
        self.uid is Some && self.resource_version is Some
    }
}

/// First entry with key `k`, if any.
pub open spec fn cache_lookup(s: Seq<CacheEntry>, k: (Seq<u8>, Seq<u8>)) -> Option<CacheEntry>
    decreases s.len(),
{
    if s.len() == 0 {
        None
    } else if s[0].key() == k {
        Some(s[0])
    } else {
        cache_lookup(s.drop_first(), k)
    }
}

/// Entry keys are pairwise distinct.
pub open spec fn cache_keys_unique(s: Seq<CacheEntry>) -> bool {
    forall|i: int, j: int|
        0 <= i < j < s.len() ==> (#[trigger] s[i].key()) != (#[trigger] s[j].key())
}

proof fn lemma_cache_lookup_none_iff(s: Seq<CacheEntry>, k: (Seq<u8>, Seq<u8>))
    ensures
        cache_lookup(s, k) is None <==> forall|i: int|
            0 <= i < s.len() ==> (#[trigger] s[i].key()) != k,
    decreases s.len(),
{
    if s.len() > 0 {
        lemma_cache_lookup_none_iff(s.drop_first(), k);
        if s[0].key() != k {
            assert forall|i: int| 1 <= i < s.len() implies (#[trigger] s[i].key())
                == s.drop_first()[i - 1].key() by {}
        }
    }
}

proof fn lemma_cache_lookup_update(
    s: Seq<CacheEntry>,
    i: int,
    e: CacheEntry,
    k: (Seq<u8>, Seq<u8>),
)
    requires
        cache_keys_unique(s),
        0 <= i < s.len(),
        s[i].key() == e.key(),
    ensures
        cache_lookup(s.update(i, e), k) == (if k == e.key() {
            Some(e)
        } else {
            cache_lookup(s, k)
        }),
    decreases s.len(),
{
    let r = s.update(i, e);
    if i == 0 {
        assert(r[0] == e);
        if k != e.key() {
            assert(r.drop_first() =~= s.drop_first());
        }
    } else {
        assert(r[0] == s[0]);
        assert(s[0].key() != e.key());
        assert(r.drop_first() =~= s.drop_first().update(i - 1, e));
        assert(s.drop_first()[i - 1] == s[i]);
        assert forall|a: int, b: int| 0 <= a < b < s.drop_first().len() implies (
        #[trigger] s.drop_first()[a].key()) != (#[trigger] s.drop_first()[b].key()) by {
            assert(s.drop_first()[a] == s[a + 1]);
            assert(s.drop_first()[b] == s[b + 1]);
        }
        lemma_cache_lookup_update(s.drop_first(), i - 1, e, k);
    }
}

proof fn lemma_cache_lookup_push(s: Seq<CacheEntry>, e: CacheEntry, k: (Seq<u8>, Seq<u8>))
    ensures
        cache_lookup(s.push(e), k) == (if cache_lookup(s, k) is Some {
            cache_lookup(s, k)
        } else if k == e.key() {
            Some(e)
        } else {
            None
        }),
    decreases s.len(),
{
    if s.len() == 0 {
        assert(s.push(e)[0] == e);
        if k != e.key() {
            assert(cache_lookup(s.push(e).drop_first(), k) is None);
        }
    } else {
        assert(s.push(e)[0] == s[0]);
        assert(s.push(e).drop_first() =~= s.drop_first().push(e));
        lemma_cache_lookup_push(s.drop_first(), e, k);
    }
}

proof fn lemma_cache_lookup_remove(s: Seq<CacheEntry>, i: int, k: (Seq<u8>, Seq<u8>))
    requires
        cache_keys_unique(s),
        0 <= i < s.len(),
        forall|j: int| 0 <= j < i ==> (#[trigger] s[j].key()) != s[i].key(),
    ensures
        cache_lookup(s.remove(i), k) == (if k == s[i].key() {
            None
        } else {
            cache_lookup(s, k)
        }),
    decreases s.len(),
{
    let r = s.remove(i);
    if i == 0 {
        assert(r =~= s.drop_first());
        if k == s[0].key() {
            lemma_cache_lookup_none_iff(s.drop_first(), k);
            assert forall|j: int| 0 <= j < s.drop_first().len() implies (
            #[trigger] s.drop_first()[j].key()) != k by {
                assert(s.drop_first()[j] == s[j + 1]);
            }
        }
    } else {
        assert(r[0] == s[0]);
        assert(r.drop_first() =~= s.drop_first().remove(i - 1));
        assert forall|a: int, b: int| 0 <= a < b < s.drop_first().len() implies (
        #[trigger] s.drop_first()[a].key()) != (#[trigger] s.drop_first()[b].key()) by {
            assert(s.drop_first()[a] == s[a + 1]);
            assert(s.drop_first()[b] == s[b + 1]);
        }
        assert forall|j: int| 0 <= j < i - 1 implies (#[trigger] s.drop_first()[j].key())
            != s.drop_first()[i - 1].key() by {
            assert(s.drop_first()[j] == s[j + 1]);
            assert(s.drop_first()[i - 1] == s[i]);
        }
        assert(s.drop_first()[i - 1] == s[i]);
        lemma_cache_lookup_remove(s.drop_first(), i - 1, k);
    }
}

/// One reflector cache: all watched objects of one kind.
pub struct MetaCache {
    entries: Vec<CacheEntry>,
}

impl View for MetaCache {
    type V = Map<(Seq<u8>, Seq<u8>), (Option<Seq<u8>>, Option<Seq<u8>>)>;

    open spec fn view(&self) -> Map<(Seq<u8>, Seq<u8>), (Option<Seq<u8>>, Option<Seq<u8>>)> {
        Map::new(
            |k: (Seq<u8>, Seq<u8>)| cache_lookup(self.contents(), k) is Some,
            |k: (Seq<u8>, Seq<u8>)| cache_lookup(self.contents(), k)->0.meta(),
        )
    }
}

impl MetaCache {
    pub closed spec fn contents(&self) -> Seq<CacheEntry> {
        self.entries@
    }

    pub open spec fn wf(&self) -> bool {
        cache_keys_unique(self.contents())
    }

    /// An empty cache.
    pub fn new() -> (r: Self)
        ensures
            r.wf(),
            r@ == Map::<(Seq<u8>, Seq<u8>), (Option<Seq<u8>>, Option<Seq<u8>>)>::empty(),
    {
        let r = MetaCache { entries: Vec::new() };
        proof {
            assert(r@ =~= Map::<(Seq<u8>, Seq<u8>), (Option<Seq<u8>>, Option<Seq<u8>>)>::empty());
        }
        r
    }

    fn find(&self, namespace: &[u8], name: &[u8]) -> (r: Option<usize>)
        ensures
            match r {
                Some(i) => {
                    &&& i < self.contents().len()
                    &&& self.contents()[i as int].key() == (namespace@, name@)
                    &&& forall|j: int|
                        0 <= j < i ==> (#[trigger] self.contents()[j].key()) != (namespace@, name@)
                },
                None => forall|j: int|
                    0 <= j < self.contents().len() ==> (#[trigger] self.contents()[j].key()) != (
                    namespace@,
                    name@,
                    ),
            },
    {
        let n = self.entries.len();
        let mut i: usize = 0;
        while i < n
            invariant
                0 <= i <= n,
                n == self.contents().len(),
                forall|j: int|
                    0 <= j < i ==> (#[trigger] self.contents()[j].key()) != (namespace@, name@),
            decreases n - i,
        {
            let e = &self.entries[i];
            if bytes_eq(&e.namespace, namespace) && bytes_eq(&e.name, name) {
                return Some(i);
            }
            i = i + 1;
        }
        None
    }

    /// Record a watch event: create or overwrite the entry for
    /// `(namespace, name)`.
    pub fn upsert(
        &mut self,
        namespace: Vec<u8>,
        name: Vec<u8>,
        uid: Option<Vec<u8>>,
        resource_version: Option<Vec<u8>>,
    )
        requires
            old(self).wf(),
        ensures
            final(self).wf(),
            final(self)@ == old(self)@.insert(
                (namespace@, name@),
                (opt_bytes(uid), opt_bytes(resource_version)),
            ),
    {
        let ghost s0 = self.contents();
        let ghost key = (namespace@, name@);
        let found = self.find(&namespace, &name);
        let e = CacheEntry { namespace, name, uid, resource_version };
        match found {
            Some(i) => {
                self.entries.remove(i);
                self.entries.insert(i, e);
                proof {
                    assert(self.contents() =~= s0.update(i as int, e));
                    assert forall|k: (Seq<u8>, Seq<u8>)| true implies #[trigger] cache_lookup(
                        self.contents(),
                        k,
                    ) == (if k == key {
                        Some(e)
                    } else {
                        cache_lookup(s0, k)
                    }) by {
                        lemma_cache_lookup_update(s0, i as int, e, k);
                    }
                    assert forall|a: int, b: int|
                        0 <= a < b < self.contents().len() implies (
                    #[trigger] self.contents()[a].key()) != (#[trigger] self.contents()[b].key())
                        by {
                        assert(s0[a].key() != s0[b].key());
                    }
                    assert(self@ =~= old(self)@.insert(key, e.meta()));
                }
            },
            None => {
                self.entries.push(e);
                proof {
                    lemma_cache_lookup_none_iff(s0, key);
                    assert forall|k: (Seq<u8>, Seq<u8>)| true implies #[trigger] cache_lookup(
                        self.contents(),
                        k,
                    ) == (if k == key {
                        Some(e)
                    } else {
                        cache_lookup(s0, k)
                    }) by {
                        lemma_cache_lookup_push(s0, e, k);
                        if k != key && cache_lookup(s0, k) is None {
                        }
                    }
                    assert forall|a: int, b: int|
                        0 <= a < b < self.contents().len() implies (
                    #[trigger] self.contents()[a].key()) != (#[trigger] self.contents()[b].key())
                        by {
                        if b < s0.len() {
                            assert(s0[a].key() != s0[b].key());
                        } else {
                            assert(self.contents()[b] == e);
                            assert(self.contents()[a] == s0[a]);
                        }
                    }
                    assert(self@ =~= old(self)@.insert(key, e.meta()));
                }
            },
        }
    }

    /// Record a delete event: drop the entry for `(namespace, name)`, if any.
    pub fn delete(&mut self, namespace: &[u8], name: &[u8])
        requires
            old(self).wf(),
        ensures
            final(self).wf(),
            final(self)@ == old(self)@.remove((namespace@, name@)),
    {
        let ghost s0 = self.contents();
        let ghost key = (namespace@, name@);
        let found = self.find(namespace, name);
        match found {
            Some(i) => {
                self.entries.remove(i);
                proof {
                    assert(self.contents() =~= s0.remove(i as int));
                    assert forall|k: (Seq<u8>, Seq<u8>)| true implies #[trigger] cache_lookup(
                        self.contents(),
                        k,
                    ) == (if k == key {
                        None
                    } else {
                        cache_lookup(s0, k)
                    }) by {
                        lemma_cache_lookup_remove(s0, i as int, k);
                    }
                    assert forall|a: int, b: int|
                        0 <= a < b < self.contents().len() implies (
                    #[trigger] self.contents()[a].key()) != (#[trigger] self.contents()[b].key())
                        by {
                        let ghost sa = if a < i { a } else { a + 1 };
                        let ghost sb = if b < i { b } else { b + 1 };
                        assert(self.contents()[a] == s0[sa]);
                        assert(self.contents()[b] == s0[sb]);
                        assert(s0[sa].key() != s0[sb].key());
                    }
                    assert(self@ =~= old(self)@.remove(key));
                }
            },
            None => {
                proof {
                    lemma_cache_lookup_none_iff(s0, key);
                    assert(self@ =~= old(self)@.remove(key));
                }
            },
        }
    }

    /// The entry for `(namespace, name)`, if cached.
    pub fn get(&self, namespace: &[u8], name: &[u8]) -> (r: Option<&CacheEntry>)
        ensures
            r is Some <==> self@.dom().contains((namespace@, name@)),
            r is Some ==> r->0.key() == (namespace@, name@) && r->0.meta() == self@.index(
                (namespace@, name@),
            ),
    {
        let ghost key = (namespace@, name@);
        let found = self.find(namespace, name);
        match found {
            Some(i) => {
                proof {
                    lemma_cache_lookup_first(self.contents(), i as int, key);
                }
                Some(&self.entries[i])
            },
            None => {
                proof {
                    lemma_cache_lookup_none_iff(self.contents(), key);
                }
                None
            },
        }
    }
}

/// If the first `i` entries miss `k` and entry `i` matches, the lookup
/// returns entry `i`.
proof fn lemma_cache_lookup_first(s: Seq<CacheEntry>, i: int, k: (Seq<u8>, Seq<u8>))
    requires
        0 <= i < s.len(),
        s[i].key() == k,
        forall|j: int| 0 <= j < i ==> (#[trigger] s[j].key()) != k,
    ensures
        cache_lookup(s, k) == Some(s[i]),
    decreases i,
{
    if i > 0 {
        assert forall|j: int| 0 <= j < i - 1 implies (#[trigger] s.drop_first()[j].key()) != k by {
            assert(s.drop_first()[j] == s[j + 1]);
        }
        assert(s.drop_first()[i - 1] == s[i]);
        lemma_cache_lookup_first(s.drop_first(), i - 1, k);
    }
}

} // verus!
