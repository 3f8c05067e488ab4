use commons_restarter::annmap::AnnotationMap;
use commons_restarter::cluster::is_stackable_cluster_name;
use commons_restarter::delayed::{DelayedInit, InitDropped};
use commons_restarter::enrich::{
    node_address_type_from_name, node_enrichment_annotations, select_node_address,
    NodeAddressType,
};
use commons_restarter::json::json_string_into;
use commons_restarter::ldap::{
    AuthenticationClassProtocol, AuthenticationClassSpec, LdapAuthenticationProvider,
    LdapFieldNames, Tls,
};
use commons_restarter::statefulset::{error_policy, Action, Error};

fn ldap(tls: Option<Tls>) -> LdapAuthenticationProvider {
    LdapAuthenticationProvider {
        hostname: "ldap.example.com".to_string(),
        port: None,
        search_base: String::new(),
        search_filter: String::new(),
        ldap_field_names: LdapFieldNames {
            uid_field: LdapFieldNames::default_uid_field(),
            group_field: LdapFieldNames::default_group_field(),
            firstname_field: LdapFieldNames::default_firstname_field(),
            lastname_field: LdapFieldNames::default_lastname_field(),
            email_field: LdapFieldNames::default_email_field(),
        },
        bind_credentials: None,
        tls,
    }
}

#[test]
fn ldap_default_port_depends_on_tls() {
    assert_eq!(ldap(None).default_port(), 389);
    assert_eq!(ldap(Some(Tls {})).default_port(), 636);
}

#[test]
fn ldap_field_name_defaults() {
    assert_eq!(LdapFieldNames::default_uid_field(), "uid");
    assert_eq!(LdapFieldNames::default_group_field(), "memberof");
    assert_eq!(LdapFieldNames::default_firstname_field(), "givenName");
    assert_eq!(LdapFieldNames::default_lastname_field(), "sn");
    assert_eq!(LdapFieldNames::default_email_field(), "mail");
}

#[test]
fn authentication_class_roundtrip_construction() {
    let spec = AuthenticationClassSpec {
        provider: AuthenticationClassProtocol::Ldap(ldap(None)),
    };
    let AuthenticationClassProtocol::Ldap(p) = &spec.provider;
    assert_eq!(p.hostname, "ldap.example.com");
}

#[test]
fn handoff_publishes_once() {
    let mut cell: DelayedInit<u8> = DelayedInit::new();
    assert!(cell.try_get().is_none());
    cell.init(1);
    assert_eq!(cell.try_get(), Some(Ok(&1)));
    // a redundant initialization has no effect
    cell.init(2);
    assert_eq!(cell.try_get(), Some(Ok(&1)));
    // a writer drop after publication has no effect either
    cell.writer_dropped();
    assert_eq!(cell.try_get(), Some(Ok(&1)));
}

#[test]
fn handoff_reports_dropped_writer() {
    let mut cell: DelayedInit<u8> = DelayedInit::new();
    cell.writer_dropped();
    assert_eq!(cell.try_get(), Some(Err(InitDropped)));
    // publication after the drop does not resurrect the cell
    cell.init(1);
    assert_eq!(cell.try_get(), Some(Err(InitDropped)));
}

#[test]
fn node_address_prefers_external_ip() {
    let addrs = vec![
        (b"Hostname".to_vec(), b"node-1".to_vec()),
        (b"InternalIP".to_vec(), b"10.0.0.5".to_vec()),
        (b"ExternalIP".to_vec(), b"198.51.100.7".to_vec()),
    ];
    assert_eq!(select_node_address(&addrs), Some(b"198.51.100.7".to_vec()));
}

#[test]
fn node_address_first_of_equal_types_wins() {
    let addrs = vec![
        (b"InternalIP".to_vec(), b"10.0.0.5".to_vec()),
        (b"InternalIP".to_vec(), b"10.0.0.6".to_vec()),
    ];
    assert_eq!(select_node_address(&addrs), Some(b"10.0.0.5".to_vec()));
    assert_eq!(select_node_address(&vec![]), None);
    assert_eq!(
        node_address_type_from_name(b"ExternalIP"),
        Some(NodeAddressType::ExternalIP)
    );
    assert_eq!(
        node_address_type_from_name(b"InternalIP"),
        Some(NodeAddressType::InternalIP)
    );
    assert_eq!(node_address_type_from_name(b"Hostname"), None);
}

#[test]
fn node_enrichment_annotation_map() {
    let addrs = vec![(b"InternalIP".to_vec(), b"10.0.0.5".to_vec())];
    let anns = node_enrichment_annotations(&addrs);
    assert_eq!(anns.len(), 1);
    assert_eq!(
        anns.get(b"enrichment.stackable.tech/node-address").unwrap().as_slice(),
        b"10.0.0.5".as_slice()
    );
    let empty = node_enrichment_annotations(&vec![]);
    assert_eq!(empty.len(), 0);
}

#[test]
fn stackable_cluster_singleton_name() {
    assert!(is_stackable_cluster_name(b"stackable-cluster"));
    assert!(!is_stackable_cluster_name(b"other-cluster"));
}

#[test]
fn statefulset_error_policy_and_categories() {
    assert_eq!(error_policy(&Error::InvalidStatefulSet), Action::AwaitChange);
    assert_eq!(error_policy(&Error::PatchFailed), Action::RequeueAfterSecs(5));
    assert_eq!(
        error_policy(&Error::ConfigMapsUninitialized),
        Action::RequeueAfterSecs(5)
    );
    assert_eq!(
        error_policy(&Error::SecretsUninitialized),
        Action::RequeueAfterSecs(5)
    );
    assert_eq!(Error::InvalidStatefulSet.category(), "InvalidStatefulSet");
    assert_eq!(Error::PatchFailed.category(), "PatchFailed");
    assert_eq!(Error::ConfigMapsUninitialized.category(), "ConfigMapsUninitialized");
    assert_eq!(Error::SecretsUninitialized.category(), "SecretsUninitialized");
}

#[test]
fn annotation_map_insert_overwrites_equal_keys() {
    let mut m = AnnotationMap::new();
    m.insert(b"k".to_vec(), b"v1".to_vec());
    m.insert(b"k".to_vec(), b"v2".to_vec());
    assert_eq!(m.len(), 1);
    assert_eq!(m.get(b"k").unwrap().as_slice(), b"v2".as_slice());
    assert!(m.get(b"missing").is_none());
}

#[test]
fn json_string_escaping_exact() {
    let mut out: Vec<u8> = Vec::new();
    json_string_into(&mut out, b"a\"b\\c\nd\te\x01f");
    assert_eq!(
        String::from_utf8(out).unwrap(),
        "\"a\\\"b\\\\c\\nd\\te\\u0001f\""
    );
}
