//! Role definitions.

use vstd::prelude::*;

verus! {

/// A role definition: what a role is called and what it permits.
#[derive(Debug, Clone, PartialEq, Eq)]
pub struct Definition {
    pub id: String,
    pub name: String,
    pub properties: Properties,
    pub type_: String,
}

/// What a role definition says of itself.
#[derive(Debug, Clone, PartialEq, Eq)]
pub struct Properties {
    pub assignable_scopes: Vec<String>,
    pub created_on: Option<String>,
    pub created_by: Option<String>,
    pub updated_on: Option<String>,
    pub updated_by: Option<String>,
    pub description: String,
    pub permissions: Vec<Permission>,
    pub role_name: String,
    pub type_: String,
}

/// One set of actions that a role permits or withholds.
#[derive(Debug, Clone, PartialEq, Eq)]
pub struct Permission {
    pub actions: Option<Vec<String>>,
    pub not_actions: Option<Vec<String>>,
    pub data_actions: Option<Vec<String>>,
    pub not_data_actions: Option<Vec<String>>,
}

/// The position of the first definition with identifier `id`, from `from` on.
pub open spec fn definition_index(defs: Seq<Definition>, id: Seq<char>, from: int) -> Option<int>
    decreases defs.len() - from,
{
    if from < 0 || from >= defs.len() {
        None
    } else if defs[from].id@ == id {
        Some(from)
    } else {
        definition_index(defs, id, from + 1)
    }
}

/// Finds the first definition with identifier `id`.
pub fn find_definition<'a>(defs: &'a Vec<Definition>, id: &str) -> (r: Option<&'a Definition>)
    ensures
        r is Some <==> definition_index(defs@, id@, 0) is Some,
        r matches Some(d) ==> *d == defs@[definition_index(defs@, id@, 0)->Some_0],
{
    let mut i: usize = 0;
    while i < defs.len()
        invariant
            i <= defs@.len(),
            definition_index(defs@, id@, 0) == definition_index(defs@, id@, i as int),
        decreases defs@.len() - i,
    {
        if crate::text::same_text(defs[i].id.as_str(), id) {
            return Some(&defs[i]);
        }
        i += 1;
    }
    None
}

} // verus!
