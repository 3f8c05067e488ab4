//! Pod expiry: parse the `restarter.stackable.tech/expires-at.*`
//! annotations of a Pod, find the earliest deadline, and decide whether to
//! evict the Pod now, re-check later, or leave it alone.
use vstd::prelude::*;

use crate::annmap::AnnotationMap;
use crate::bytestr::is_prefix_of;
use vstd::string::StringSliceAdditionalSpecFns;

verus! {

/// An instant as chrono reports it: seconds since the Unix epoch and the
/// nanoseconds since the last second boundary (which may reach into
/// `1_000_000_000..2_000_000_000` during a leap second).
#[derive(Clone, Copy, Debug, PartialEq, Eq, Structural)]
pub struct Timestamp {
    pub secs: i64,
    pub nanos: u32,
}

/// The instant an RFC 3339 text denotes, as `(seconds, subsecond nanos)`,
/// or `None` if the text is not a valid RFC 3339 date-time.
pub uninterp spec fn rfc3339_instant(s: Seq<u8>) -> Option<(int, int)>;

/// Relies on `chrono::DateTime::parse_from_rfc3339`; `timestamp` and
/// `timestamp_subsec_nanos` convert the parsed date-time to plain values.
/// chrono documents the subsecond part as below two billion (a leap second
/// may push it past one billion). Text that is not UTF-8 is not a valid
/// RFC 3339 date-time.
#[verifier::external_body]
fn parse_rfc3339(v: &[u8]) -> (r: Option<Timestamp>)
    ensures
        match r {
            Some(t) => rfc3339_instant(v@) == Some((t.secs as int, t.nanos as int)) && t.nanos
                < 2_000_000_000,
            None => rfc3339_instant(v@) is None,
        },
{
    let s = match core::str::from_utf8(v) {
        Ok(s) => s,
        Err(_) => return None,
    };
    match chrono::DateTime::parse_from_rfc3339(s) {
        Ok(dt) => Some(Timestamp { secs: dt.timestamp(), nanos: dt.timestamp_subsec_nanos() }),
        Err(_) => None,
    }
}

/// Total nanoseconds since the epoch of an instant.
pub open spec fn instant_total(p: (int, int)) -> int {
    p.0 * 1_000_000_000 + p.1
}

/// chrono's order on date-times: by seconds, then by the stored subsecond
/// field (a leap second sorts before the next full second).
pub open spec fn instant_lt(a: (int, int), b: (int, int)) -> bool {
    a.0 < b.0 || (a.0 == b.0 && a.1 < b.1)
}

/// The key prefix of expiry annotations.
pub open spec fn spec_expiry_prefix() -> Seq<u8> {
    "restarter.stackable.tech/expires-at.".spec_bytes()
}

pub fn expiry_annotation_prefix() -> (r: &'static [u8])
    ensures
        r@ == spec_expiry_prefix(),
{
    "restarter.stackable.tech/expires-at.".as_bytes()
}

/// The annotation entries that carry an expiry, in key order.
pub open spec fn expiry_entries(s: Seq<(Seq<u8>, Seq<u8>)>) -> Seq<(Seq<u8>, Seq<u8>)>
    decreases s.len(),
{
    if s.len() == 0 {
        Seq::empty()
    } else {
        (if is_prefix_of(spec_expiry_prefix(), s[0].0) {
            seq![s[0]]
        } else {
            Seq::empty()
        }) + expiry_entries(s.drop_first())
    }
}

/// The first expiry entry whose value does not parse, if any.
pub open spec fn first_unparseable(es: Seq<(Seq<u8>, Seq<u8>)>) -> Option<(Seq<u8>, Seq<u8>)>
    decreases es.len(),
{
    if es.len() == 0 {
        None
    } else if rfc3339_instant(es[0].1) is None {
        Some(es[0])
    } else {
        first_unparseable(es.drop_first())
    }
}

/// The earliest parsed expiry among the entries; meaningful when all of
/// them parse. Of equal instants the earliest entry wins.
pub open spec fn min_expiry(es: Seq<(Seq<u8>, Seq<u8>)>) -> Option<(int, int)>
    decreases es.len(),
{
    if es.len() == 0 {
        None
    } else {
        let h = rfc3339_instant(es[0].1)->0;
        match min_expiry(es.drop_first()) {
            None => Some(h),
            Some(m) => if instant_lt(m, h) {
                Some(m)
            } else {
                Some(h)
            },
        }
    }
}

/// Partial Pod metadata, the part the expiry reconciler reads.
pub struct PodMeta {
    pub name: Option<Vec<u8>>,
    pub namespace: Option<Vec<u8>>,
    pub deletion_timestamp: Option<Vec<u8>>,
    pub annotations: AnnotationMap,
}

/// What the expiry reconciler decides for one Pod.
#[derive(Debug, PartialEq, Eq)]
pub enum PodDecision {
    /// Nothing to do until the Pod changes.
    AwaitChange,
    /// Call the eviction subresource for this Pod now.
    Evict { namespace: Vec<u8>, name: Vec<u8> },
    /// Check again once the earliest expiry is due.
    RequeueAfter { secs: u64, nanos: u32 },
}

/// Failures of one Pod expiry reconciliation.
#[derive(Debug, PartialEq, Eq)]
pub enum PodError {
    PodHasNoName,
    PodHasNoNamespace,
    /// An expiry annotation's value is not an RFC 3339 date-time; the Pod
    /// is malformed and needs operator intervention.
    UnparseableExpiryTimestamp { annotation: Vec<u8>, value: Vec<u8> },
    /// The eviction subresource call failed.
    EvictFailed,
}

impl PodError {
    /// Stable short name of the error, used to categorise emitted events.
    pub fn category(&self) -> (r: String)
        ensures
            r@ == match *self {
                PodError::PodHasNoName => "PodHasNoName"@,
                PodError::PodHasNoNamespace => "PodHasNoNamespace"@,
                PodError::UnparseableExpiryTimestamp { .. } => "UnparseableExpiryTimestamp"@,
                PodError::EvictFailed => "EvictFailed"@,
            },
    {
        match self {
            PodError::PodHasNoName => "PodHasNoName".to_owned(),
            PodError::PodHasNoNamespace => "PodHasNoNamespace".to_owned(),
            PodError::UnparseableExpiryTimestamp { .. } => "UnparseableExpiryTimestamp".to_owned(),
            PodError::EvictFailed => "EvictFailed".to_owned(),
        }
    }
}

/// Re-check at most six months out, keeping the scheduler's delay within
/// a range it accepts.
pub open spec fn spec_max_requeue_secs() -> int {
    15_552_000
}

proof fn lemma_expiry_entries_concat(a: Seq<(Seq<u8>, Seq<u8>)>, b: Seq<(Seq<u8>, Seq<u8>)>)
    ensures
        expiry_entries(a + b) == expiry_entries(a) + expiry_entries(b),
    decreases a.len(),
{
    if a.len() == 0 {
        assert(a + b =~= b);
        assert(expiry_entries(a) + expiry_entries(b) =~= expiry_entries(b));
    } else {
        assert((a + b).drop_first() =~= a.drop_first() + b);
        lemma_expiry_entries_concat(a.drop_first(), b);
        assert((a + b)[0] == a[0]);
        assert((if is_prefix_of(spec_expiry_prefix(), a[0].0) {
            seq![a[0]]
        } else {
            Seq::empty()
        }) + (expiry_entries(a.drop_first()) + expiry_entries(b)) =~= expiry_entries(a)
            + expiry_entries(b));
    }
}

proof fn lemma_first_unparseable_concat(a: Seq<(Seq<u8>, Seq<u8>)>, b: Seq<(Seq<u8>, Seq<u8>)>)
    ensures
        first_unparseable(a + b) == (if first_unparseable(a) is Some {
            first_unparseable(a)
        } else {
            first_unparseable(b)
        }),
    decreases a.len(),
{
    if a.len() == 0 {
        assert(a + b =~= b);
    } else {
        assert((a + b).drop_first() =~= a.drop_first() + b);
        assert((a + b)[0] == a[0]);
        lemma_first_unparseable_concat(a.drop_first(), b);
    }
}

/// All entries of `a` parse iff `first_unparseable(a)` is `None`.
proof fn lemma_first_unparseable_none(a: Seq<(Seq<u8>, Seq<u8>)>)
    ensures
        first_unparseable(a) is None <==> (forall|i: int|
            0 <= i < a.len() ==> rfc3339_instant((#[trigger] a[i]).1) is Some),
    decreases a.len(),
{
    if a.len() > 0 {
        lemma_first_unparseable_none(a.drop_first());
        if rfc3339_instant(a[0].1) is Some {
            if first_unparseable(a.drop_first()) is None {
                assert forall|i: int| 0 <= i < a.len() implies rfc3339_instant(
                    (#[trigger] a[i]).1,
                ) is Some by {
                    if i > 0 {
                        assert(a[i] == a.drop_first()[i - 1]);
                    }
                }
            } else {
                let j = choose|j: int|
                    0 <= j < a.drop_first().len() && rfc3339_instant(
                        (#[trigger] a.drop_first()[j]).1,
                    ) is None;
                assert(a[j + 1] == a.drop_first()[j]);
            }
        }
    }
}

/// The combination rule for the minimum over a split sequence: the left
/// part's minimum wins ties.
proof fn lemma_min_expiry_concat(a: Seq<(Seq<u8>, Seq<u8>)>, b: Seq<(Seq<u8>, Seq<u8>)>)
    ensures
        min_expiry(a + b) == (match (min_expiry(a), min_expiry(b)) {
            (None, mb) => mb,
            (Some(ma), None) => Some(ma),
            (Some(ma), Some(mb)) => if instant_lt(mb, ma) {
                Some(mb)
            } else {
                Some(ma)
            },
        }),
    decreases a.len(),
{
    if a.len() == 0 {
        assert(a + b =~= b);
    } else {
        assert((a + b).drop_first() =~= a.drop_first() + b);
        assert((a + b)[0] == a[0]);
        lemma_min_expiry_concat(a.drop_first(), b);
    }
}

/// Decide what the expiry reconciler does for `pod` at wall-clock `now`.
///
/// A Pod already being deleted is left alone. Otherwise every annotation
/// under the expiry prefix is parsed as RFC 3339; the first entry in key
/// order that does not parse aborts the reconciliation. With no expiry
/// annotations the Pod is out of scope. An expired Pod (earliest expiry
/// strictly before `now`, by total nanoseconds) is evicted, provided its
/// namespace and name are present; otherwise the remaining time, capped at
/// six months, becomes the requeue delay.
pub fn decide_pod_action(pod: &PodMeta, now: Timestamp) -> (r: Result<PodDecision, PodError>)
    requires
        pod.annotations.wf(),
    ensures
        ({
            let es = expiry_entries(pod.annotations.kvs());
            if pod.deletion_timestamp is Some {
                r == Ok::<PodDecision, PodError>(PodDecision::AwaitChange)
            } else if first_unparseable(es) is Some {
                r matches Err(PodError::UnparseableExpiryTimestamp { annotation, value })
                    && annotation@ == (first_unparseable(es)->0).0 && value@ == (
                first_unparseable(es)->0).1
            } else if es.len() == 0 {
                r == Ok::<PodDecision, PodError>(PodDecision::AwaitChange)
            } else {
                let e = min_expiry(es)->0;
                let now_p = (now.secs as int, now.nanos as int);
                if instant_total(e) < instant_total(now_p) {
                    if pod.namespace is None {
                        r == Err::<PodDecision, PodError>(PodError::PodHasNoNamespace)
                    } else if pod.name is None {
                        r == Err::<PodDecision, PodError>(PodError::PodHasNoName)
                    } else {
                        r matches Ok(PodDecision::Evict { namespace, name }) && namespace@
                            == pod.namespace->0@ && name@ == pod.name->0@
                    }
                } else {
                    r matches Ok(PodDecision::RequeueAfter { secs, nanos }) && nanos
                        < 1_000_000_000 && secs * 1_000_000_000 + nanos == (if instant_total(e)
                        - instant_total(now_p) > spec_max_requeue_secs() * 1_000_000_000 {
                        spec_max_requeue_secs() * 1_000_000_000
                    } else {
                        instant_total(e) - instant_total(now_p)
                    })
                }
            }
        }),
{
    if pod.deletion_timestamp.is_some() {
        return Ok(PodDecision::AwaitChange);
    }
    let ghost kvs = pod.annotations.kvs();
    let prefix = expiry_annotation_prefix();
    let n = pod.annotations.len();
    let mut i: usize = 0;
    let mut earliest: Option<Timestamp> = None;
    proof {
        assert(kvs.subrange(0, 0) =~= Seq::<(Seq<u8>, Seq<u8>)>::empty());
    }
    while i < n
        invariant
            0 <= i <= n,
            n == kvs.len(),
            kvs == pod.annotations.kvs(),
            pod.deletion_timestamp is None,
            prefix@ == spec_expiry_prefix(),
            first_unparseable(expiry_entries(kvs.subrange(0, i as int))) is None,
            match earliest {
                None => expiry_entries(kvs.subrange(0, i as int)).len() == 0,
                Some(t) => min_expiry(expiry_entries(kvs.subrange(0, i as int))) == Some(
                    (t.secs as int, t.nanos as int),
                ) && t.nanos < 2_000_000_000,
            },
        decreases n - i,
    {
        let ghost pre = expiry_entries(kvs.subrange(0, i as int));
        let entry = pod.annotations.entry_at(i);
        proof {
            assert((entry.0@, entry.1@) == kvs[i as int]);
            assert(kvs.subrange(0, i + 1 as int) =~= kvs.subrange(0, i as int) + seq![
                kvs[i as int],
            ]);
            lemma_expiry_entries_concat(kvs.subrange(0, i as int), seq![kvs[i as int]]);
            assert(seq![kvs[i as int]].drop_first() =~= Seq::<(Seq<u8>, Seq<u8>)>::empty());
            assert(seq![kvs[i as int]][0] == kvs[i as int]);
            assert(expiry_entries(Seq::<(Seq<u8>, Seq<u8>)>::empty()) == Seq::<
                (Seq<u8>, Seq<u8>),
            >::empty());
        }
        if crate::bytestr::bytes_starts_with(&entry.0, prefix) {
            let ghost single = seq![kvs[i as int]];
            proof {
                assert(expiry_entries(single) =~= single);
                assert(single[0] == kvs[i as int]);
                assert(single.drop_first() =~= Seq::<(Seq<u8>, Seq<u8>)>::empty());
                assert(first_unparseable(Seq::<(Seq<u8>, Seq<u8>)>::empty()) is None);
                assert(min_expiry(Seq::<(Seq<u8>, Seq<u8>)>::empty()) is None);
                lemma_first_unparseable_concat(pre, single);
                lemma_min_expiry_concat(pre, single);
            }
            match parse_rfc3339(&entry.1) {
                Some(t) => {
                    proof {
                        assert(first_unparseable(single) is None);
                        assert(min_expiry(single) == Some((t.secs as int, t.nanos as int)));
                    }
                    earliest = match earliest {
                        None => Some(t),
                        Some(m) => {
                            if t.secs < m.secs || (t.secs == m.secs && t.nanos < m.nanos) {
                                Some(t)
                            } else {
                                Some(m)
                            }
                        },
                    };
                },
                None => {
                    proof {
                        assert(first_unparseable(single) == Some(kvs[i as int]));
                        assert(first_unparseable(expiry_entries(kvs)) == Some(kvs[i as int])) by {
                            assert(kvs =~= kvs.subrange(0, i + 1 as int) + kvs.subrange(
                                i + 1 as int,
                                n as int,
                            ));
                            lemma_expiry_entries_concat(
                                kvs.subrange(0, i + 1 as int),
                                kvs.subrange(i + 1 as int, n as int),
                            );
                            lemma_first_unparseable_concat(
                                expiry_entries(kvs.subrange(0, i + 1 as int)),
                                expiry_entries(kvs.subrange(i + 1 as int, n as int)),
                            );
                            lemma_first_unparseable_concat(pre, single);
                        }
                    }
                    let annotation = entry.0.clone();
                    let value = entry.1.clone();
                    proof {
                        assert(annotation@ == entry.0@);
                        assert(value@ == entry.1@);
                    }
                    return Err(PodError::UnparseableExpiryTimestamp { annotation, value });
                },
            }
        } else {
            proof {
                assert(expiry_entries(seq![kvs[i as int]]) =~= Seq::<(Seq<u8>, Seq<u8>)>::empty());
                assert(expiry_entries(kvs.subrange(0, i + 1 as int)) =~= pre);
            }
        }
        i = i + 1;
    }
    proof {
        assert(kvs.subrange(0, n as int) =~= kvs);
    }
    let m = match earliest {
        None => {
            return Ok(PodDecision::AwaitChange);
        },
        Some(m) => m,
    };
    let e_total: i128 = (m.secs as i128) * 1_000_000_000 + (m.nanos as i128);
    let now_total: i128 = (now.secs as i128) * 1_000_000_000 + (now.nanos as i128);
    if e_total < now_total {
        let namespace = match &pod.namespace {
            Some(ns) => ns.clone(),
            None => {
                return Err(PodError::PodHasNoNamespace);
            },
        };
        let name = match &pod.name {
            Some(nm) => nm.clone(),
            None => {
                return Err(PodError::PodHasNoName);
            },
        };
        Ok(PodDecision::Evict { namespace, name })
    } else {
        let diff: u128 = (e_total - now_total) as u128;
        let capped: u128 = if diff > 15_552_000_000_000_000u128 {
            15_552_000_000_000_000u128
        } else {
            diff
        };
        let secs: u64 = (capped / 1_000_000_000) as u64;
        let nanos: u32 = (capped % 1_000_000_000) as u32;
        proof {
            vstd::arithmetic::div_mod::lemma_fundamental_div_mod(capped as int, 1_000_000_000);
            vstd::arithmetic::div_mod::lemma_mod_bound(capped as int, 1_000_000_000);
            vstd::arithmetic::div_mod::lemma_div_pos_is_pos(capped as int, 1_000_000_000);
        }
        Ok(PodDecision::RequeueAfter { secs, nanos })
    }
}

/// Is an eviction failure the API server refusing because the eviction
/// would violate the Pod's disruption budget?
pub fn evict_blocked_by_disruption_budget(code: u16) -> (r: bool)
    ensures
        r == (code == 429),
{
    code == 429
}

/// What to do once the eviction subresource call came back. `code` is the
/// HTTP status of a failure, `None` on success. An eviction blocked by the
/// Pod's disruption budget is expected and merely informational: it is
/// retried after a short fixed delay without reporting an error. Any other
/// failure is an error.
pub fn after_eviction(code: Option<u16>) -> (r: Result<PodDecision, PodError>)
    ensures
        code is None ==> r == Ok::<PodDecision, PodError>(PodDecision::AwaitChange),
        code == Some(429u16) ==> r == Ok::<PodDecision, PodError>(
            PodDecision::RequeueAfter { secs: 5u64, nanos: 0u32 },
        ),
        code is Some && code->0 != 429 ==> r == Err::<PodDecision, PodError>(
            PodError::EvictFailed,
        ),
{
    match code {
        None => Ok(PodDecision::AwaitChange),
        Some(c) => {
            if evict_blocked_by_disruption_budget(c) {
                Ok(PodDecision::RequeueAfter { secs: 5, nanos: 0 })
            } else {
                Err(PodError::EvictFailed)
            }
        },
    }
}

/// The retry policy of the Pod expiry reconciler: every failure is retried
/// after a short fixed delay.
pub fn pod_error_policy(e: &PodError) -> (r: PodDecision)
    ensures
        r == (PodDecision::RequeueAfter { secs: 5u64, nanos: 0u32 }),
{
    let _ = e;
    PodDecision::RequeueAfter { secs: 5, nanos: 0 }
}

/// The full name of the Pod expiry controller, used for event reporting.
pub fn pod_controller_name() -> (r: String)
    ensures
        r@ == "pod.restarter.commons.stackable.tech"@,
{
    "pod.restarter.commons.stackable.tech".to_owned()
}

} // verus!
