//! Plain role assignments, as the resource manager lists them.

use vstd::prelude::*;
use crate::graph::Object;
use crate::models::scope::Scope;

verus! {

/// A role assignment that is not time-bound.
#[derive(Debug, Clone, PartialEq, Eq)]
pub struct Assignment {
    pub id: String,
    pub name: String,
    pub properties: Properties,
    pub type_: String,
    /// The principal behind the assignment, once it has been looked up and
    /// found in the directory.
    pub object: Option<Object>,
}

/// What an assignment says of itself.
#[derive(Debug, Clone, PartialEq, Eq)]
pub struct Properties {
    pub condition: Option<String>,
    pub condition_version: Option<String>,
    pub created_on: Option<String>,
    pub created_by: Option<String>,
    pub updated_on: Option<String>,
    pub updated_by: Option<String>,
    pub description: Option<String>,
    pub role_definition_id: String,
    pub delegated_managed_identity_resource_id: Option<String>,
    pub principal_id: String,
    pub principal_type: String,
    pub scope: Scope,
}

impl Assignment {
    /// Whether the principal behind the assignment is not in the directory.
    pub open spec fn orphaned(&self) -> bool {
        self.object is None
    }

    /// Whether the principal behind the assignment is not in the directory.
    pub fn is_orphaned(&self) -> (r: bool)
        ensures
            r == self.orphaned(),
    {
        self.object.is_none()
    }
}

} // verus!
