//! Core logic of a Kubernetes controller that restarts workloads when the
//! configuration objects they mount change, and evicts Pods whose attached
//! credentials have expired.
//!
//! Object names, annotation keys and annotation values are carried as byte
//! strings (`Vec<u8>`), the form in which they travel over the wire; all
//! ordering and rendering is specified over `Seq<u8>`.
pub mod annmap;
pub mod bytestr;
pub mod cache;
pub mod cluster;
pub mod delayed;
pub mod enrich;
pub mod json;
pub mod ldap;
pub mod pod_expiry;
pub mod refs;
pub mod statefulset;
pub mod webhook;
