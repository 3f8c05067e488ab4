use commons_restarter::cache::MetaCache;
use commons_restarter::refs::{PodSpec, Volume};
use commons_restarter::statefulset::{PodTemplate, PodTemplateMeta, StatefulSet, StatefulSetSpec};
use commons_restarter::webhook::{
    admission_mutate, admission_patch_b64, build_admission_ops, render_patch_json,
    missing_object_message, webhook_configuration_name, webhook_failure_policy,
    webhook_reinvocation_policy, webhook_side_effects, AdmissionError, PatchOp, PatchValue,
};
use commons_restarter::statefulset::compute_annotations;
use commons_restarter::delayed::InitDropped;
use commons_restarter::statefulset::Error;
use base64::Engine;

fn sts_with_secret_volume(has_meta: bool, has_anns: bool) -> StatefulSet {
    StatefulSet {
        name: Some(b"s2".to_vec()),
        namespace: Some(b"ns1".to_vec()),
        uid: None,
        labels: vec![(b"restarter.stackable.tech/enabled".to_vec(), b"true".to_vec())],
        spec: Some(StatefulSetSpec {
            template: PodTemplate {
                metadata: if has_meta {
                    Some(PodTemplateMeta {
                        annotations: if has_anns { Some(vec![]) } else { None },
                    })
                } else {
                    None
                },
                spec: Some(PodSpec {
                    volumes: vec![Volume {
                        config_map_name: None,
                        secret_name: Some(b"sec-b".to_vec()),
                    }],
                    containers: vec![],
                    init_containers: vec![],
                }),
            },
        }),
    }
}

fn caches() -> (MetaCache, MetaCache) {
    let cms = MetaCache::new();
    let mut secrets = MetaCache::new();
    secrets.upsert(b"ns1".to_vec(), b"sec-b".to_vec(), Some(b"u2".to_vec()), Some(b"3".to_vec()));
    (cms, secrets)
}

fn op_path(op: &PatchOp) -> String {
    String::from_utf8(op.path.clone()).unwrap()
}

#[test]
fn webhook_synchronous_stamping() {
    let (cms, secrets) = caches();
    let sts = sts_with_secret_volume(false, false);
    let anns = compute_annotations(&sts, &cms, &secrets);
    let ops = build_admission_ops(&sts, &anns);
    assert_eq!(ops.len(), 3);
    assert_eq!(op_path(&ops[0]), "/spec/template/metadata");
    assert!(matches!(ops[0].value, PatchValue::EmptyObject));
    assert_eq!(op_path(&ops[1]), "/spec/template/metadata/annotations");
    assert!(matches!(ops[1].value, PatchValue::EmptyObject));
    assert_eq!(
        op_path(&ops[2]),
        "/spec/template/metadata/annotations/secret.restarter.stackable.tech~1sec-b"
    );
    match &ops[2].value {
        PatchValue::Text(t) => assert_eq!(t.as_slice(), b"u2/3".as_slice()),
        PatchValue::EmptyObject => panic!("annotation op must carry a value"),
    }
}

#[test]
fn missing_spec_creates_all_three_paths() {
    let (cms, secrets) = caches();
    let mut sts = sts_with_secret_volume(false, false);
    sts.spec = None;
    let anns = compute_annotations(&sts, &cms, &secrets);
    let ops = build_admission_ops(&sts, &anns);
    assert_eq!(ops.len(), 3);
    assert_eq!(op_path(&ops[0]), "/spec");
    assert_eq!(op_path(&ops[1]), "/spec/template/metadata");
    assert_eq!(op_path(&ops[2]), "/spec/template/metadata/annotations");
}

#[test]
fn present_annotations_object_needs_no_create_paths() {
    let (cms, secrets) = caches();
    let sts = sts_with_secret_volume(true, true);
    let anns = compute_annotations(&sts, &cms, &secrets);
    let ops = build_admission_ops(&sts, &anns);
    assert_eq!(ops.len(), 1);
    assert_eq!(
        op_path(&ops[0]),
        "/spec/template/metadata/annotations/secret.restarter.stackable.tech~1sec-b"
    );
}

#[test]
fn patch_json_bytes_exact() {
    let (cms, secrets) = caches();
    let sts = sts_with_secret_volume(true, true);
    let anns = compute_annotations(&sts, &cms, &secrets);
    let ops = build_admission_ops(&sts, &anns);
    let json = render_patch_json(&ops);
    let expected = "[{\"op\":\"add\",\"path\":\"/spec/template/metadata/annotations/secret.restarter.stackable.tech~1sec-b\",\"value\":\"u2/3\"}]";
    assert_eq!(String::from_utf8(json).unwrap(), expected);
}

#[test]
fn empty_patch_base64() {
    let ops: Vec<PatchOp> = vec![];
    let json = render_patch_json(&ops);
    assert_eq!(String::from_utf8(json).unwrap(), "[]");
    let b64 = admission_patch_b64(&ops);
    assert_eq!(String::from_utf8(b64).unwrap(), "W10=");
}

#[test]
fn patch_base64_matches_engine() {
    let (cms, secrets) = caches();
    let sts = sts_with_secret_volume(false, false);
    let anns = compute_annotations(&sts, &cms, &secrets);
    let ops = build_admission_ops(&sts, &anns);
    let json = render_patch_json(&ops);
    let b64 = admission_patch_b64(&ops);
    let expected = base64::engine::general_purpose::STANDARD.encode(&json);
    assert_eq!(String::from_utf8(b64).unwrap(), expected);
}

#[test]
fn reflector_and_webhook_stamp_the_same_annotations() {
    let (cms, secrets) = caches();
    let sts = sts_with_secret_volume(true, true);
    let anns = compute_annotations(&sts, &cms, &secrets);
    let ops = build_admission_ops(&sts, &anns);
    assert_eq!(ops.len(), anns.len());
    for i in 0..anns.len() {
        let entry = anns.entry_at(i);
        let escaped: Vec<u8> = entry
            .0
            .iter()
            .flat_map(|&b| match b {
                0x7e => vec![0x7e, 0x30],
                0x2f => vec![0x7e, 0x31],
                other => vec![other],
            })
            .collect();
        let mut path = b"/spec/template/metadata/annotations/".to_vec();
        path.extend_from_slice(&escaped);
        assert_eq!(ops[i].path, path);
        match &ops[i].value {
            PatchValue::Text(t) => assert_eq!(t, &entry.1),
            PatchValue::EmptyObject => panic!("annotation op must carry a value"),
        }
    }
}

#[test]
fn admission_without_object_is_invalid() {
    let (cms, secrets) = caches();
    let r = admission_mutate(None, Ok(&cms), Ok(&secrets));
    assert!(matches!(r, Err(AdmissionError::MissingObject)));
    assert_eq!(
        missing_object_message(),
        "object (of type StatefulSet) missing - for operation CREATE it must be always present"
    );
}

#[test]
fn admission_with_uninitialized_cache_fails() {
    let (cms, secrets) = caches();
    let sts = sts_with_secret_volume(true, true);
    let r = admission_mutate(Some(&sts), Err(InitDropped), Ok(&secrets));
    assert!(matches!(r, Err(AdmissionError::AnnotationsFailed(Error::ConfigMapsUninitialized))));
    let r = admission_mutate(Some(&sts), Ok(&cms), Err(InitDropped));
    assert!(matches!(r, Err(AdmissionError::AnnotationsFailed(Error::SecretsUninitialized))));
    let r = admission_mutate(Some(&sts), Ok(&cms), Ok(&secrets));
    assert!(r.is_ok());
}

#[test]
fn webhook_registration_constants() {
    assert_eq!(webhook_configuration_name(), "restarter-sts-enricher.stackable.tech");
    assert_eq!(webhook_failure_policy(), "Ignore");
    assert_eq!(webhook_reinvocation_policy(), "IfNeeded");
    assert_eq!(webhook_side_effects(), "None");
}
