use commons_restarter::cache::MetaCache;
use commons_restarter::refs::{Container, EnvFromSource, EnvVar, PodSpec, RefKind, Volume};
use commons_restarter::delayed::InitDropped;
use commons_restarter::statefulset::{
    compute_annotations, controller_name, get_updated_restarter_annotations,
    reconcile_statefulset, render_apply_patch, ssa_field_manager, sts_find_refs, sts_opt_in,
    optin_label_selector, Action, Error, PodTemplate, PodTemplateMeta, StatefulSet,
    StatefulSetSpec,
};

fn volume_cm(name: &str) -> Volume {
    Volume { config_map_name: Some(name.as_bytes().to_vec()), secret_name: None }
}

fn volume_secret(name: &str) -> Volume {
    Volume { config_map_name: None, secret_name: Some(name.as_bytes().to_vec()) }
}

fn sts_with_volumes(name: &str, namespace: &str, uid: Option<&str>, volumes: Vec<Volume>) -> StatefulSet {
    StatefulSet {
        name: Some(name.as_bytes().to_vec()),
        namespace: Some(namespace.as_bytes().to_vec()),
        uid: uid.map(|u| u.as_bytes().to_vec()),
        labels: vec![(b"restarter.stackable.tech/enabled".to_vec(), b"true".to_vec())],
        spec: Some(StatefulSetSpec {
            template: PodTemplate {
                metadata: Some(PodTemplateMeta { annotations: Some(vec![]) }),
                spec: Some(PodSpec { volumes, containers: vec![], init_containers: vec![] }),
            },
        }),
    }
}

#[test]
fn fresh_statefulset_configmap_volume() {
    let mut cms = MetaCache::new();
    cms.upsert(b"ns1".to_vec(), b"cm-a".to_vec(), Some(b"u1".to_vec()), Some(b"7".to_vec()));
    let secrets = MetaCache::new();
    let sts = sts_with_volumes("s", "ns1", None, vec![volume_cm("cm-a")]);
    let anns = compute_annotations(&sts, &cms, &secrets);
    let value = anns.get(b"configmap.restarter.stackable.tech/cm-a").expect("annotation present");
    assert_eq!(value.as_slice(), b"u1/7".as_slice());
    assert_eq!(anns.len(), 1);
}

#[test]
fn configmap_bump_updates_annotation() {
    let mut cms = MetaCache::new();
    cms.upsert(b"ns1".to_vec(), b"cm-a".to_vec(), Some(b"u1".to_vec()), Some(b"7".to_vec()));
    let secrets = MetaCache::new();
    let sts = sts_with_volumes("s", "ns1", None, vec![volume_cm("cm-a")]);
    let before = compute_annotations(&sts, &cms, &secrets);
    assert_eq!(
        before.get(b"configmap.restarter.stackable.tech/cm-a").unwrap().as_slice(),
        b"u1/7".as_slice()
    );
    cms.upsert(b"ns1".to_vec(), b"cm-a".to_vec(), Some(b"u1".to_vec()), Some(b"8".to_vec()));
    let after = compute_annotations(&sts, &cms, &secrets);
    assert_eq!(
        after.get(b"configmap.restarter.stackable.tech/cm-a").unwrap().as_slice(),
        b"u1/8".as_slice()
    );
}

#[test]
fn reconcile_is_deterministic() {
    let mut cms = MetaCache::new();
    cms.upsert(b"ns1".to_vec(), b"cm-a".to_vec(), Some(b"u1".to_vec()), Some(b"7".to_vec()));
    let mut secrets = MetaCache::new();
    secrets.upsert(b"ns1".to_vec(), b"sec-b".to_vec(), Some(b"u2".to_vec()), Some(b"3".to_vec()));
    let sts = sts_with_volumes(
        "s",
        "ns1",
        Some("sts-uid"),
        vec![volume_cm("cm-a"), volume_secret("sec-b")],
    );
    let anns1 = compute_annotations(&sts, &cms, &secrets);
    let patch1 = render_apply_patch(&sts, &anns1);
    let anns2 = compute_annotations(&sts, &cms, &secrets);
    let patch2 = render_apply_patch(&sts, &anns2);
    assert_eq!(patch1, patch2);
}

#[test]
fn apply_patch_bytes_exact() {
    let mut cms = MetaCache::new();
    cms.upsert(b"ns1".to_vec(), b"cm-a".to_vec(), Some(b"u1".to_vec()), Some(b"7".to_vec()));
    let secrets = MetaCache::new();
    let sts = sts_with_volumes("s", "ns1", Some("su"), vec![volume_cm("cm-a")]);
    let anns = compute_annotations(&sts, &cms, &secrets);
    let patch = render_apply_patch(&sts, &anns);
    let expected = "{\"apiVersion\":\"apps/v1\",\"kind\":\"StatefulSet\",\"metadata\":{\"name\":\"s\",\"namespace\":\"ns1\",\"uid\":\"su\"},\"spec\":{\"template\":{\"metadata\":{\"annotations\":{\"configmap.restarter.stackable.tech/cm-a\":\"u1/7\"}}}}}";
    assert_eq!(String::from_utf8(patch).unwrap(), expected);
}

#[test]
fn missing_uid_or_resource_version_yields_no_annotation() {
    let mut cms = MetaCache::new();
    cms.upsert(b"ns1".to_vec(), b"cm-a".to_vec(), None, Some(b"7".to_vec()));
    cms.upsert(b"ns1".to_vec(), b"cm-b".to_vec(), Some(b"u2".to_vec()), None);
    let secrets = MetaCache::new();
    let sts = sts_with_volumes("s", "ns1", None, vec![volume_cm("cm-a"), volume_cm("cm-b")]);
    let anns = compute_annotations(&sts, &cms, &secrets);
    assert_eq!(anns.len(), 0);
    assert!(anns.get(b"configmap.restarter.stackable.tech/cm-a").is_none());
    assert!(anns.get(b"configmap.restarter.stackable.tech/cm-b").is_none());
}

#[test]
fn absent_referent_yields_no_annotation() {
    let cms = MetaCache::new();
    let secrets = MetaCache::new();
    let sts = sts_with_volumes("s", "ns1", None, vec![volume_cm("cm-a")]);
    let anns = compute_annotations(&sts, &cms, &secrets);
    assert_eq!(anns.len(), 0);
}

#[test]
fn referent_in_other_namespace_is_a_miss() {
    let mut cms = MetaCache::new();
    cms.upsert(b"ns2".to_vec(), b"cm-a".to_vec(), Some(b"u1".to_vec()), Some(b"7".to_vec()));
    let secrets = MetaCache::new();
    let sts = sts_with_volumes("s", "ns1", None, vec![volume_cm("cm-a")]);
    let anns = compute_annotations(&sts, &cms, &secrets);
    assert_eq!(anns.len(), 0);
}

#[test]
fn annotations_are_sorted_by_key() {
    let mut cms = MetaCache::new();
    cms.upsert(b"ns1".to_vec(), b"zz".to_vec(), Some(b"u1".to_vec()), Some(b"1".to_vec()));
    cms.upsert(b"ns1".to_vec(), b"aa".to_vec(), Some(b"u2".to_vec()), Some(b"2".to_vec()));
    let mut secrets = MetaCache::new();
    secrets.upsert(b"ns1".to_vec(), b"mm".to_vec(), Some(b"u3".to_vec()), Some(b"4".to_vec()));
    let sts = sts_with_volumes(
        "s",
        "ns1",
        None,
        vec![volume_cm("zz"), volume_secret("mm"), volume_cm("aa")],
    );
    let anns = compute_annotations(&sts, &cms, &secrets);
    assert_eq!(anns.len(), 3);
    assert_eq!(anns.entry_at(0).0.as_slice(), b"configmap.restarter.stackable.tech/aa".as_slice());
    assert_eq!(anns.entry_at(1).0.as_slice(), b"configmap.restarter.stackable.tech/zz".as_slice());
    assert_eq!(anns.entry_at(2).0.as_slice(), b"secret.restarter.stackable.tech/mm".as_slice());
}

#[test]
fn extractor_covers_env_and_env_from_and_init_containers() {
    let spec = PodSpec {
        volumes: vec![volume_cm("vol-cm")],
        containers: vec![Container {
            env: vec![EnvVar {
                config_map_key_ref_name: Some(b"env-cm".to_vec()),
                secret_key_ref_name: Some(b"env-sec".to_vec()),
            }],
            env_from: vec![EnvFromSource {
                config_map_ref_name: Some(b"from-cm".to_vec()),
                secret_ref_name: None,
            }],
        }],
        init_containers: vec![Container {
            env: vec![EnvVar {
                config_map_key_ref_name: Some(b"init-env-cm".to_vec()),
                secret_key_ref_name: None,
            }],
            env_from: vec![EnvFromSource {
                config_map_ref_name: None,
                secret_ref_name: Some(b"init-from-sec".to_vec()),
            }],
        }],
    };
    let sts = StatefulSet {
        name: Some(b"s".to_vec()),
        namespace: Some(b"ns1".to_vec()),
        uid: None,
        labels: vec![],
        spec: Some(StatefulSetSpec {
            template: PodTemplate { metadata: None, spec: Some(spec) },
        }),
    };
    let cm_refs = sts_find_refs(&sts, RefKind::ConfigMap);
    assert_eq!(
        cm_refs,
        vec![b"vol-cm".to_vec(), b"env-cm".to_vec(), b"init-env-cm".to_vec(), b"from-cm".to_vec()]
    );
    let secret_refs = sts_find_refs(&sts, RefKind::Secret);
    assert_eq!(secret_refs, vec![b"env-sec".to_vec(), b"init-from-sec".to_vec()]);
}

#[test]
fn opt_out_statefulset_is_not_managed() {
    let mut sts = sts_with_volumes("s", "ns1", None, vec![volume_cm("cm-a")]);
    sts.labels = vec![];
    assert!(!sts_opt_in(&sts));
    sts.labels = vec![(b"restarter.stackable.tech/enabled".to_vec(), b"false".to_vec())];
    assert!(!sts_opt_in(&sts));
    sts.labels = vec![(b"restarter.stackable.tech/enabled".to_vec(), b"true".to_vec())];
    assert!(sts_opt_in(&sts));
    assert_eq!(optin_label_selector(), "restarter.stackable.tech/enabled=true");
}

#[test]
fn field_manager_identity() {
    assert_eq!(ssa_field_manager(), "restarter.stackable.tech/statefulset");
}

#[test]
fn empty_template_claims_empty_annotations() {
    let mut cms = MetaCache::new();
    cms.upsert(b"ns1".to_vec(), b"cm-a".to_vec(), Some(b"u1".to_vec()), Some(b"7".to_vec()));
    let secrets = MetaCache::new();
    let sts = StatefulSet {
        name: Some(b"s".to_vec()),
        namespace: Some(b"ns1".to_vec()),
        uid: None,
        labels: vec![],
        spec: None,
    };
    let anns = compute_annotations(&sts, &cms, &secrets);
    assert_eq!(anns.len(), 0);
    let patch = render_apply_patch(&sts, &anns);
    let expected = "{\"apiVersion\":\"apps/v1\",\"kind\":\"StatefulSet\",\"metadata\":{\"name\":\"s\",\"namespace\":\"ns1\",\"uid\":null},\"spec\":{\"template\":{\"metadata\":{\"annotations\":{}}}}}";
    assert_eq!(String::from_utf8(patch).unwrap(), expected);
}

#[test]
fn cache_delete_removes_annotation() {
    let mut cms = MetaCache::new();
    cms.upsert(b"ns1".to_vec(), b"cm-a".to_vec(), Some(b"u1".to_vec()), Some(b"7".to_vec()));
    let secrets = MetaCache::new();
    let sts = sts_with_volumes("s", "ns1", None, vec![volume_cm("cm-a")]);
    assert_eq!(compute_annotations(&sts, &cms, &secrets).len(), 1);
    cms.delete(b"ns1", b"cm-a");
    assert_eq!(compute_annotations(&sts, &cms, &secrets).len(), 0);
}

#[test]
fn reconcile_step_produces_patch_and_await_change() {
    let mut cms = MetaCache::new();
    cms.upsert(b"ns1".to_vec(), b"cm-a".to_vec(), Some(b"u1".to_vec()), Some(b"7".to_vec()));
    let secrets = MetaCache::new();
    let sts = sts_with_volumes("s", "ns1", Some("su"), vec![volume_cm("cm-a")]);
    let (patch, action) =
        reconcile_statefulset(Some(&sts), Ok(&cms), Ok(&secrets)).expect("reconcile succeeds");
    assert_eq!(action, Action::AwaitChange);
    let anns = compute_annotations(&sts, &cms, &secrets);
    assert_eq!(patch, render_apply_patch(&sts, &anns));
    assert_eq!(controller_name(), "statefulset.restarter.commons.stackable.tech");
}

#[test]
fn reconcile_step_error_cases() {
    let cms = MetaCache::new();
    let secrets = MetaCache::new();
    let sts = sts_with_volumes("s", "ns1", None, vec![volume_cm("cm-a")]);
    assert_eq!(
        reconcile_statefulset(None, Ok(&cms), Ok(&secrets)).unwrap_err(),
        Error::InvalidStatefulSet
    );
    assert_eq!(
        reconcile_statefulset(Some(&sts), Err(InitDropped), Ok(&secrets)).unwrap_err(),
        Error::ConfigMapsUninitialized
    );
    assert_eq!(
        reconcile_statefulset(Some(&sts), Ok(&cms), Err(InitDropped)).unwrap_err(),
        Error::SecretsUninitialized
    );
    assert!(get_updated_restarter_annotations(&sts, Err(InitDropped), Ok(&secrets)).is_err());
    let anns = get_updated_restarter_annotations(&sts, Ok(&cms), Ok(&secrets)).unwrap();
    assert_eq!(anns.len(), 0);
}
