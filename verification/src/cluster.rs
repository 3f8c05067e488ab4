//! The StackableCluster custom resource: a singleton that installs the
//! cluster-wide companion objects.
use vstd::prelude::*;

use vstd::string::StringSliceAdditionalSpecFns;

verus! {

/// The spec of the StackableCluster resource; it carries no fields.
#[derive(Clone, Debug, PartialEq, Eq)]
pub struct StackableClusterSpec {}

/// Only a single StackableCluster, under this exact name, is reconciled;
/// any other is rejected.
pub fn is_stackable_cluster_name(name: &[u8]) -> (r: bool)
    ensures
        r == (name@ == "stackable-cluster".spec_bytes()),
{
    crate::bytestr::bytes_eq(name, "stackable-cluster".as_bytes())
}

} // verus!
