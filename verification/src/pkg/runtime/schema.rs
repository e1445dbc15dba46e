//! Groups and resources of the cluster's API.

use vstd::prelude::*;

verus! {

/// GroupResource names a class of objects by its API group and its resource,
/// such as the deployments of the group apps.
#[derive(Debug)]
pub struct GroupResource {
    pub group: String,
    pub resource: String,
}

} // verus!
