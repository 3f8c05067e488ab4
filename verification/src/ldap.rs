//! The AuthenticationClass custom-resource data types: pure schema types
//! published for other operators, with the documented field defaults.
use vstd::prelude::*;

verus! {

/// TLS settings of the LDAP connection; presence alone selects the
/// TLS default port.
#[derive(Clone, Debug, PartialEq, Eq)]
pub struct Tls {}

/// A volume backed by a SecretClass, holding the bind credentials.
#[derive(Clone, Debug, PartialEq, Eq)]
pub struct SecretClassVolume {
    /// Name of the SecretClass the credentials come from.
    pub secret_class: String,
}

/// The names of the LDAP object fields.
#[derive(Clone, Debug, PartialEq, Eq)]
pub struct LdapFieldNames {
    /// The name of the username field
    pub uid_field: String,
    /// The name of the group field
    pub group_field: String,
    /// The name of the firstname field
    pub firstname_field: String,
    /// The name of the lastname field
    pub lastname_field: String,
    /// The name of the email field
    pub email_field: String,
}

impl LdapFieldNames {
    pub fn default_uid_field() -> (r: String)
        ensures
            r@ == "uid"@,
    {
        "uid".to_owned()
    }

    pub fn default_group_field() -> (r: String)
        ensures
            r@ == "memberof"@,
    {
        "memberof".to_owned()
    }

    pub fn default_firstname_field() -> (r: String)
        ensures
            r@ == "givenName"@,
    {
        "givenName".to_owned()
    }

    pub fn default_lastname_field() -> (r: String)
        ensures
            r@ == "sn"@,
    {
        "sn".to_owned()
    }

    pub fn default_email_field() -> (r: String)
        ensures
            r@ == "mail"@,
    {
        "mail".to_owned()
    }
}

/// LDAP provider settings.
#[derive(Clone, Debug, PartialEq, Eq)]
pub struct LdapAuthenticationProvider {
    /// Hostname of the LDAP server
    pub hostname: String,
    /// Port of the LDAP server. If TLS is used defaults to 636 otherwise to 389
    pub port: Option<u16>,
    /// LDAP search base
    pub search_base: String,
    /// LDAP query to filter users
    pub search_filter: String,
    /// The name of the LDAP object fields
    pub ldap_field_names: LdapFieldNames,
    /// In case you need a special account for searching the LDAP server you can specify it here
    pub bind_credentials: Option<SecretClassVolume>,
    /// Use a TLS connection. If not specified no TLS will be used
    pub tls: Option<Tls>,
}

impl LdapAuthenticationProvider {
    /// The port used when none is configured: the LDAPS port with TLS,
    /// the plain LDAP port without.
    pub fn default_port(&self) -> (r: u16)
        ensures
            r == (if self.tls is Some {
                636u16
            } else {
                389u16
            }),
    {
        match self.tls {
            None => 389,
            Some(_) => 636,
        }
    }
}

/// Provider used for authentication like LDAP or Kerberos
#[derive(Clone, Debug, PartialEq, Eq)]
pub enum AuthenticationClassProtocol {
    Ldap(LdapAuthenticationProvider),
}

/// The spec of an AuthenticationClass resource.
#[derive(Clone, Debug, PartialEq, Eq)]
pub struct AuthenticationClassSpec {
    /// Provider used for authentication like LDAP or Kerberos
    pub provider: AuthenticationClassProtocol,
}

} // verus!
