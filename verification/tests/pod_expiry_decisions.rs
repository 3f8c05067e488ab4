use commons_restarter::annmap::AnnotationMap;
use commons_restarter::pod_expiry::{
    after_eviction, decide_pod_action, evict_blocked_by_disruption_budget, pod_controller_name,
    pod_error_policy, PodDecision, PodError, PodMeta, Timestamp,
};

fn pod_with_annotations(entries: &[(&str, &str)]) -> PodMeta {
    let mut annotations = AnnotationMap::new();
    for (k, v) in entries {
        annotations.insert(k.as_bytes().to_vec(), v.as_bytes().to_vec());
    }
    PodMeta {
        name: Some(b"p1".to_vec()),
        namespace: Some(b"ns1".to_vec()),
        deletion_timestamp: None,
        annotations,
    }
}

// 2024-01-01T00:00:00Z as seconds since the Unix epoch.
const NEW_YEAR_2024: i64 = 1_704_067_200;

#[test]
fn pod_eviction_on_expiry() {
    let pod = pod_with_annotations(&[(
        "restarter.stackable.tech/expires-at.tls",
        "2024-01-01T00:00:00Z",
    )]);
    let now = Timestamp { secs: NEW_YEAR_2024 + 1, nanos: 0 };
    let r = decide_pod_action(&pod, now);
    assert_eq!(
        r,
        Ok(PodDecision::Evict { namespace: b"ns1".to_vec(), name: b"p1".to_vec() })
    );
}

#[test]
fn deletion_timestamp_suppresses_eviction() {
    let mut pod = pod_with_annotations(&[(
        "restarter.stackable.tech/expires-at.tls",
        "2024-01-01T00:00:00Z",
    )]);
    pod.deletion_timestamp = Some(b"2024-01-01T00:00:00Z".to_vec());
    let now = Timestamp { secs: NEW_YEAR_2024 + 1, nanos: 0 };
    assert_eq!(decide_pod_action(&pod, now), Ok(PodDecision::AwaitChange));
}

#[test]
fn no_expiry_annotations_means_no_action() {
    let pod = pod_with_annotations(&[("other.annotation/key", "whatever")]);
    let now = Timestamp { secs: NEW_YEAR_2024, nanos: 0 };
    assert_eq!(decide_pod_action(&pod, now), Ok(PodDecision::AwaitChange));
}

#[test]
fn future_expiry_requeues_exact_remaining_time() {
    let pod = pod_with_annotations(&[(
        "restarter.stackable.tech/expires-at.tls",
        "2024-01-01T00:00:10Z",
    )]);
    let now = Timestamp { secs: NEW_YEAR_2024 + 5, nanos: 0 };
    assert_eq!(
        decide_pod_action(&pod, now),
        Ok(PodDecision::RequeueAfter { secs: 5, nanos: 0 })
    );
}

#[test]
fn expiry_exactly_now_is_not_yet_expired() {
    let pod = pod_with_annotations(&[(
        "restarter.stackable.tech/expires-at.tls",
        "2024-01-01T00:00:00Z",
    )]);
    let now = Timestamp { secs: NEW_YEAR_2024, nanos: 0 };
    assert_eq!(
        decide_pod_action(&pod, now),
        Ok(PodDecision::RequeueAfter { secs: 0, nanos: 0 })
    );
}

#[test]
fn remaining_time_is_clamped_to_six_months() {
    let pod = pod_with_annotations(&[(
        "restarter.stackable.tech/expires-at.tls",
        "2099-01-01T00:00:00Z",
    )]);
    let now = Timestamp { secs: NEW_YEAR_2024, nanos: 0 };
    assert_eq!(
        decide_pod_action(&pod, now),
        Ok(PodDecision::RequeueAfter { secs: 15_552_000, nanos: 0 })
    );
}

#[test]
fn earliest_of_several_expiries_wins() {
    let pod = pod_with_annotations(&[
        ("restarter.stackable.tech/expires-at.a", "2024-06-01T00:00:00Z"),
        ("restarter.stackable.tech/expires-at.b", "2024-01-01T00:00:05Z"),
        ("restarter.stackable.tech/expires-at.c", "2024-03-01T00:00:00Z"),
    ]);
    let now = Timestamp { secs: NEW_YEAR_2024, nanos: 0 };
    assert_eq!(
        decide_pod_action(&pod, now),
        Ok(PodDecision::RequeueAfter { secs: 5, nanos: 0 })
    );
}

#[test]
fn timezone_offset_is_honoured() {
    // 01:00 at +01:00 is midnight UTC.
    let pod = pod_with_annotations(&[(
        "restarter.stackable.tech/expires-at.tls",
        "2024-01-01T01:00:00+01:00",
    )]);
    let now = Timestamp { secs: NEW_YEAR_2024 + 1, nanos: 0 };
    assert_eq!(
        decide_pod_action(&pod, now),
        Ok(PodDecision::Evict { namespace: b"ns1".to_vec(), name: b"p1".to_vec() })
    );
}

#[test]
fn unparseable_expiry_aborts() {
    let pod = pod_with_annotations(&[
        ("restarter.stackable.tech/expires-at.bad", "not-a-date"),
        ("restarter.stackable.tech/expires-at.good", "2024-01-01T00:00:00Z"),
    ]);
    let now = Timestamp { secs: NEW_YEAR_2024 + 1, nanos: 0 };
    assert_eq!(
        decide_pod_action(&pod, now),
        Err(PodError::UnparseableExpiryTimestamp {
            annotation: b"restarter.stackable.tech/expires-at.bad".to_vec(),
            value: b"not-a-date".to_vec(),
        })
    );
}

#[test]
fn expired_pod_without_namespace_or_name() {
    let mut pod = pod_with_annotations(&[(
        "restarter.stackable.tech/expires-at.tls",
        "2024-01-01T00:00:00Z",
    )]);
    let now = Timestamp { secs: NEW_YEAR_2024 + 1, nanos: 0 };
    pod.namespace = None;
    assert_eq!(decide_pod_action(&pod, now), Err(PodError::PodHasNoNamespace));
    pod.namespace = Some(b"ns1".to_vec());
    pod.name = None;
    assert_eq!(decide_pod_action(&pod, now), Err(PodError::PodHasNoName));
}

#[test]
fn disruption_budget_backoff() {
    assert_eq!(after_eviction(None), Ok(PodDecision::AwaitChange));
    assert_eq!(
        after_eviction(Some(429)),
        Ok(PodDecision::RequeueAfter { secs: 5, nanos: 0 })
    );
    assert_eq!(after_eviction(Some(500)), Err(PodError::EvictFailed));
    assert!(evict_blocked_by_disruption_budget(429));
    assert!(!evict_blocked_by_disruption_budget(404));
}

#[test]
fn error_policy_and_categories() {
    assert_eq!(
        pod_error_policy(&PodError::EvictFailed),
        PodDecision::RequeueAfter { secs: 5, nanos: 0 }
    );
    assert_eq!(PodError::PodHasNoName.category(), "PodHasNoName");
    assert_eq!(PodError::PodHasNoNamespace.category(), "PodHasNoNamespace");
    assert_eq!(
        PodError::UnparseableExpiryTimestamp {
            annotation: vec![],
            value: vec![],
        }
        .category(),
        "UnparseableExpiryTimestamp"
    );
    assert_eq!(PodError::EvictFailed.category(), "EvictFailed");
    assert_eq!(pod_controller_name(), "pod.restarter.commons.stackable.tech");
}

#[test]
fn epoch_parse_sanity() {
    // One second after the epoch: the remaining time at the epoch itself
    // must be exactly one second.
    let pod = pod_with_annotations(&[(
        "restarter.stackable.tech/expires-at.t",
        "1970-01-01T00:00:01Z",
    )]);
    let now = Timestamp { secs: 0, nanos: 0 };
    assert_eq!(
        decide_pod_action(&pod, now),
        Ok(PodDecision::RequeueAfter { secs: 1, nanos: 0 })
    );
}

#[test]
fn fractional_seconds_are_kept() {
    let pod = pod_with_annotations(&[(
        "restarter.stackable.tech/expires-at.t",
        "2024-01-01T00:00:01.500Z",
    )]);
    let now = Timestamp { secs: NEW_YEAR_2024, nanos: 250_000_000 };
    assert_eq!(
        decide_pod_action(&pod, now),
        Ok(PodDecision::RequeueAfter { secs: 1, nanos: 250_000_000 })
    );
}
