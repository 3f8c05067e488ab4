//! An annotation map: byte-string keys and values, kept strictly sorted by
//! key so that every rendering of the same map is byte-identical.
use vstd::prelude::*;

use crate::bytestr::{
    bytes_cmp, lemma_lex_transitive, lemma_lex_trichotomy, lex_lt, KeyOrder,
};

verus! {

/// First value bound to `k` in an association sequence, if any.
pub open spec fn seq_lookup(s: Seq<(Seq<u8>, Seq<u8>)>, k: Seq<u8>) -> Option<Seq<u8>>
    decreases s.len(),
{
    if s.len() == 0 {
        None
    } else if s[0].0 == k {
        Some(s[0].1)
    } else {
        seq_lookup(s.drop_first(), k)
    }
}

/// The map an association sequence denotes.
pub open spec fn map_of(s: Seq<(Seq<u8>, Seq<u8>)>) -> Map<Seq<u8>, Seq<u8>> {
    Map::new(|k: Seq<u8>| seq_lookup(s, k) is Some, |k: Seq<u8>| seq_lookup(s, k)->0)
}

/// Keys strictly increase along the sequence.
pub open spec fn kvs_sorted(s: Seq<(Seq<u8>, Seq<u8>)>) -> bool {
    forall|i: int, j: int| 0 <= i < j < s.len() ==> lex_lt(#[trigger] s[i].0, #[trigger] s[j].0)
}

/// Insertion into a key-sorted association sequence, replacing the value on
/// an existing key.
pub open spec fn sorted_insert(s: Seq<(Seq<u8>, Seq<u8>)>, k: Seq<u8>, v: Seq<u8>) -> Seq<
    (Seq<u8>, Seq<u8>),
>
    decreases s.len(),
{
    if s.len() == 0 {
        seq![(k, v)]
    } else if lex_lt(k, s[0].0) {
        seq![(k, v)] + s
    } else if k == s[0].0 {
        seq![(k, v)] + s.drop_first()
    } else {
        seq![s[0]] + sorted_insert(s.drop_first(), k, v)
    }
}

/// Where the scan for `k` stops in a sorted sequence, that is where
/// `sorted_insert` places it.
proof fn lemma_sorted_insert_at(s: Seq<(Seq<u8>, Seq<u8>)>, k: Seq<u8>, v: Seq<u8>, i: int)
    requires
        kvs_sorted(s),
        0 <= i <= s.len(),
        forall|j: int| 0 <= j < i ==> lex_lt(#[trigger] s[j].0, k),
        i == s.len() || !lex_lt(s[i].0, k),
    ensures
        i < s.len() && s[i].0 == k ==> sorted_insert(s, k, v) == s.update(i, (k, v)),
        (i == s.len() || s[i].0 != k) ==> sorted_insert(s, k, v) == s.subrange(0, i) + seq![
            (k, v),
        ] + s.subrange(i, s.len() as int),
    decreases s.len(),
{
    if s.len() == 0 {
        assert(sorted_insert(s, k, v) =~= s.subrange(0, i) + seq![(k, v)] + s.subrange(
            i,
            s.len() as int,
        ));
    } else if i == 0 {
        lemma_lex_trichotomy(k, s[0].0);
        if s[0].0 == k {
            assert(sorted_insert(s, k, v) =~= s.update(0, (k, v)));
        } else {
            assert(lex_lt(k, s[0].0));
            assert(sorted_insert(s, k, v) =~= s.subrange(0, 0) + seq![(k, v)] + s.subrange(
                0,
                s.len() as int,
            ));
        }
    } else {
        // i >= 1, so s[0].0 < k and the recursive branch applies.
        assert(lex_lt(s[0].0, k));
        lemma_lex_trichotomy(s[0].0, k);
        let t = s.drop_first();
        assert forall|j: int| 0 <= j < i - 1 implies lex_lt(#[trigger] t[j].0, k) by {
            assert(t[j] == s[j + 1]);
        }
        if i - 1 < t.len() {
            assert(t[i - 1] == s[i]);
        }
        lemma_sorted_insert_at(t, k, v, i - 1);
        if i < s.len() && s[i].0 == k {
            assert(sorted_insert(s, k, v) == seq![s[0]] + sorted_insert(t, k, v));
            assert(sorted_insert(t, k, v) == t.update(i - 1, (k, v)));
            assert(seq![s[0]] + t.update(i - 1, (k, v)) =~= s.update(i, (k, v)));
        } else {
            assert(sorted_insert(t, k, v) == t.subrange(0, i - 1) + seq![(k, v)] + t.subrange(
                i - 1,
                t.len() as int,
            ));
            assert(seq![s[0]] + (t.subrange(0, i - 1) + seq![(k, v)] + t.subrange(
                i - 1,
                t.len() as int,
            )) =~= s.subrange(0, i) + seq![(k, v)] + s.subrange(i, s.len() as int));
        }
    }
}

/// `sorted_insert` keeps the sequence sorted.
proof fn lemma_sorted_insert_sorted(s: Seq<(Seq<u8>, Seq<u8>)>, k: Seq<u8>, v: Seq<u8>)
    requires
        kvs_sorted(s),
    ensures
        kvs_sorted(sorted_insert(s, k, v)),
    decreases s.len(),
{
    let r = sorted_insert(s, k, v);
    if s.len() == 0 {
    } else if lex_lt(k, s[0].0) {
        assert forall|i: int, j: int| 0 <= i < j < r.len() implies lex_lt(
            #[trigger] r[i].0,
            #[trigger] r[j].0,
        ) by {
            if i == 0 {
                if j > 1 {
                    lemma_lex_transitive(k, s[0].0, s[j - 1].0);
                }
            } else {
                assert(r[i] == s[i - 1] && r[j] == s[j - 1]);
            }
        }
    } else if k == s[0].0 {
        assert forall|i: int, j: int| 0 <= i < j < r.len() implies lex_lt(
            #[trigger] r[i].0,
            #[trigger] r[j].0,
        ) by {
            if i == 0 {
                assert(r[j] == s.drop_first()[j - 1]);
                assert(s.drop_first()[j - 1] == s[j]);
            } else {
                assert(r[i] == s[i] && r[j] == s[j]);
            }
        }
    } else {
        lemma_lex_trichotomy(k, s[0].0);
        let t = s.drop_first();
        lemma_sorted_insert_sorted(t, k, v);
        let rt = sorted_insert(t, k, v);
        // every key in rt is either k or a key of t, both above s[0].0
        lemma_sorted_insert_keys(t, k, v);
        assert forall|i: int, j: int| 0 <= i < j < r.len() implies lex_lt(
            #[trigger] r[i].0,
            #[trigger] r[j].0,
        ) by {
            if i == 0 {
                assert(r[j] == rt[j - 1]);
                if rt[j - 1].0 == k {
                    assert(lex_lt(s[0].0, k));
                } else {
                    let m = choose|m: int| 0 <= m < t.len() && t[m] == rt[j - 1];
                    assert(t[m] == s[m + 1]);
                }
            } else {
                assert(r[i] == rt[i - 1] && r[j] == rt[j - 1]);
            }
        }
    }
}

/// Every entry of `sorted_insert(s, k, v)` is `(k, v)` or an entry of `s`.
proof fn lemma_sorted_insert_keys(s: Seq<(Seq<u8>, Seq<u8>)>, k: Seq<u8>, v: Seq<u8>)
    ensures
        forall|i: int|
            0 <= i < sorted_insert(s, k, v).len() ==> (#[trigger] sorted_insert(s, k, v)[i] == (
            k,
            v,
            ) || exists|m: int| 0 <= m < s.len() && s[m] == sorted_insert(s, k, v)[i]),
    decreases s.len(),
{
    let r = sorted_insert(s, k, v);
    if s.len() == 0 {
    } else if lex_lt(k, s[0].0) {
        assert forall|i: int| 0 <= i < r.len() implies (#[trigger] r[i] == (k, v) || exists|m: int|
            0 <= m < s.len() && s[m] == r[i]) by {
            if i > 0 {
                assert(s[i - 1] == r[i]);
            }
        }
    } else if k == s[0].0 {
        assert forall|i: int| 0 <= i < r.len() implies (#[trigger] r[i] == (k, v) || exists|m: int|
            0 <= m < s.len() && s[m] == r[i]) by {
            if i > 0 {
                assert(s[i] == s.drop_first()[i - 1]);
                assert(s[i] == r[i]);
            }
        }
    } else {
        let t = s.drop_first();
        lemma_sorted_insert_keys(t, k, v);
        let rt = sorted_insert(t, k, v);
        assert forall|i: int| 0 <= i < r.len() implies (#[trigger] r[i] == (k, v) || exists|m: int|
            0 <= m < s.len() && s[m] == r[i]) by {
            if i == 0 {
                assert(s[0] == r[0]);
            } else {
                assert(r[i] == rt[i - 1]);
                if rt[i - 1] != (k, v) {
                    let m = choose|m: int| 0 <= m < t.len() && t[m] == rt[i - 1];
                    assert(s[m + 1] == rt[i - 1]);
                }
            }
        }
    }
}

/// `sorted_insert` denotes exactly `map insert`.
pub proof fn lemma_sorted_insert_map(s: Seq<(Seq<u8>, Seq<u8>)>, k: Seq<u8>, v: Seq<u8>)
    ensures
        map_of(sorted_insert(s, k, v)) == map_of(s).insert(k, v),
    decreases s.len(),
{
    let r = sorted_insert(s, k, v);
    assert forall|q: Seq<u8>| true implies #[trigger] seq_lookup(r, q) == (if q == k {
        Some(v)
    } else {
        seq_lookup(s, q)
    }) by {
        lemma_sorted_insert_lookup(s, k, v, q);
    }
    assert(map_of(r) =~= map_of(s).insert(k, v));
}

proof fn lemma_sorted_insert_lookup(s: Seq<(Seq<u8>, Seq<u8>)>, k: Seq<u8>, v: Seq<u8>, q: Seq<u8>)
    ensures
        seq_lookup(sorted_insert(s, k, v), q) == (if q == k {
            Some(v)
        } else {
            seq_lookup(s, q)
        }),
    decreases s.len(),
{
    let r = sorted_insert(s, k, v);
    if s.len() == 0 {
        assert(r.drop_first() =~= Seq::<(Seq<u8>, Seq<u8>)>::empty());
    } else if lex_lt(k, s[0].0) {
        lemma_lex_trichotomy(k, s[0].0);
        assert(r.drop_first() =~= s);
    } else if k == s[0].0 {
        assert(r.drop_first() =~= s.drop_first());
        if q != k {
            assert(seq_lookup(s, q) == seq_lookup(s.drop_first(), q));
        }
    } else {
        lemma_lex_trichotomy(k, s[0].0);
        assert(r[0] == s[0]);
        assert(r.drop_first() =~= sorted_insert(s.drop_first(), k, v));
        lemma_sorted_insert_lookup(s.drop_first(), k, v, q);
    }
}

/// A map of Kubernetes annotations: byte-string keys to byte-string values,
/// held in strictly increasing key order.
pub struct AnnotationMap {
    entries: Vec<(Vec<u8>, Vec<u8>)>,
}

impl View for AnnotationMap {
    type V = Map<Seq<u8>, Seq<u8>>;

    open spec fn view(&self) -> Map<Seq<u8>, Seq<u8>> {
        map_of(self.kvs())
    }
}

impl AnnotationMap {
    /// The entries in storage order, as pairs of byte sequences.
    pub closed spec fn kvs(&self) -> Seq<(Seq<u8>, Seq<u8>)> {
        self.entries@.map_values(|p: (Vec<u8>, Vec<u8>)| (p.0@, p.1@))
    }

    /// Entries are strictly sorted by key.
    pub open spec fn wf(&self) -> bool {
        kvs_sorted(self.kvs())
    }

    /// The empty map.
    pub fn new() -> (r: Self)
        ensures
            r.wf(),
            r.kvs() == Seq::<(Seq<u8>, Seq<u8>)>::empty(),
            r@ == Map::<Seq<u8>, Seq<u8>>::empty(),
    {
        let r = AnnotationMap { entries: Vec::new() };
        proof {
            assert(r.kvs() =~= Seq::<(Seq<u8>, Seq<u8>)>::empty());
            assert(r@ =~= Map::<Seq<u8>, Seq<u8>>::empty());
        }
        r
    }

    /// How many annotations the map holds.
    pub fn len(&self) -> (r: usize)
        ensures
            r == self.kvs().len(),
    {
        self.entries.len()
    }

    /// The `i`-th entry in key order.
    pub fn entry_at(&self, i: usize) -> (r: &(Vec<u8>, Vec<u8>))
        requires
            i < self.kvs().len(),
        ensures
            (r.0@, r.1@) == self.kvs()[i as int],
    {
        &self.entries[i]
    }

    /// Bind `k` to `v`, replacing any earlier binding of `k`.
    pub fn insert(&mut self, k: Vec<u8>, v: Vec<u8>)
        requires
            old(self).wf(),
        ensures
            final(self).wf(),
            final(self).kvs() == sorted_insert(old(self).kvs(), k@, v@),
            final(self)@ == old(self)@.insert(k@, v@),
    {
        let ghost s0 = self.kvs();
        let mut i: usize = 0;
        loop
            invariant
                self == old(self),
                0 <= i <= s0.len(),
                s0 == self.kvs(),
                kvs_sorted(s0),
                forall|j: int| 0 <= j < i ==> lex_lt(#[trigger] s0[j].0, k@),
            ensures
                self == old(self),
                0 <= i <= s0.len(),
                forall|j: int| 0 <= j < i ==> lex_lt(#[trigger] s0[j].0, k@),
                i == s0.len() || !lex_lt(s0[i as int].0, k@),
            decreases s0.len() - i,
        {
            if i == self.entries.len() {
                break;
            }
            let c = bytes_cmp(&self.entries[i].0, &k);
            if !matches!(c, KeyOrder::Less) {
                proof {
                    assert(s0[i as int].0 == self.entries@[i as int].0@);
                }
                break;
            }
            i = i + 1;
        }
        proof {
            lemma_sorted_insert_at(s0, k@, v@, i as int);
            lemma_sorted_insert_sorted(s0, k@, v@);
            lemma_sorted_insert_map(s0, k@, v@);
        }
        if i < self.entries.len() && matches!(bytes_cmp(&self.entries[i].0, &k), KeyOrder::Equal) {
            self.entries.remove(i);
            self.entries.insert(i, (k, v));
            proof {
                assert(self.kvs() =~= s0.update(i as int, (k@, v@)));
            }
        } else {
            self.entries.insert(i, (k, v));
            proof {
                assert(self.kvs() =~= s0.subrange(0, i as int) + seq![(k@, v@)] + s0.subrange(
                    i as int,
                    s0.len() as int,
                ));
            }
        }
    }

    /// Value bound to `k`, if any.
    pub fn get(&self, k: &[u8]) -> (r: Option<&Vec<u8>>)
        ensures
            match r {
                Some(v) => seq_lookup(self.kvs(), k@) == Some(v@),
                None => seq_lookup(self.kvs(), k@) is None,
            },
            r is Some <==> self@.dom().contains(k@),
            r is Some ==> r->0@ == self@[k@],
    {
        let n = self.entries.len();
        proof {
            assert(self.kvs().subrange(0, n as int) =~= self.kvs());
        }
        let mut i: usize = 0;
        while i < n
            invariant
                0 <= i <= n,
                n == self.kvs().len(),
                seq_lookup(self.kvs(), k@) == seq_lookup(
                    self.kvs().subrange(i as int, n as int),
                    k@,
                ),
            decreases n - i,
        {
            let c = bytes_cmp(&self.entries[i].0, &k);
            if matches!(c, KeyOrder::Equal) {
                proof {
                    assert(self.kvs().subrange(i as int, n as int)[0] == self.kvs()[i as int]);
                }
                return Some(&self.entries[i].1);
            }
            proof {
                assert(self.kvs().subrange(i as int, n as int)[0] == self.kvs()[i as int]);
                assert(self.kvs().subrange(i as int, n as int).drop_first() =~= self.kvs()
                    .subrange(i + 1 as int, n as int));
            }
            i = i + 1;
        }
        proof {
            assert(self.kvs().subrange(n as int, n as int) =~= Seq::<(Seq<u8>, Seq<u8>)>::empty());
        }
        None
    }
}

} // verus!
