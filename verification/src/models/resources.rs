//! Resources beneath a scope on which the caller is eligible to act.

use vstd::prelude::*;
use crate::json::{entries_of, field, json_views, step, text_here, text_of, Json, JsonView};
use crate::order::{lemma_join_assoc, lemma_text_key_splits, push_text_key, text_key};
use crate::ordset::{increasing, lemma_placed_members, Keyed, OrdSet};
use crate::models::scope::{valid_path, Scope};

verus! {

/// A resource beneath a scope.
#[derive(Debug, Clone, PartialEq, Eq)]
pub struct ChildResource {
    pub id: Scope,
    pub name: String,
    pub type_: String,
}

/// The mathematical value of a child resource.
pub struct ChildResourceView {
    pub id: Seq<char>,
    pub name: Seq<char>,
    pub type_: Seq<char>,
}

impl View for ChildResource {
    type V = ChildResourceView;

    open spec fn view(&self) -> ChildResourceView {
        ChildResourceView { id: self.id@, name: self.name@, type_: self.type_@ }
    }
}

/// The identifiers of `children`.
pub open spec fn child_ids(children: Seq<ChildResourceView>) -> Set<Seq<char>> {
    Set::new(
        |id: Seq<char>| exists|i: int| 0 <= i < children.len() && (#[trigger] children[i]).id == id,
    )
}

/// The sort key of a child resource: by identifier, then name, then type.
pub open spec fn resource_key(c: ChildResourceView) -> Seq<u32> {
    text_key(c.id) + (text_key(c.name) + text_key(c.type_))
}

impl Keyed for ChildResource {
    open spec fn key_of(v: ChildResourceView) -> Seq<u32> {
        resource_key(v)
    }

    proof fn lemma_key_tells(a: ChildResourceView, b: ChildResourceView) {
        lemma_text_key_splits(
            a.id,
            text_key(a.name) + text_key(a.type_),
            b.id,
            text_key(b.name) + text_key(b.type_),
        );
        lemma_text_key_splits(a.name, text_key(a.type_), b.name, text_key(b.type_));
        String::lemma_key_tells(a.type_, b.type_);
    }

    fn key(&self) -> (r: Vec<u32>) {
        let mut out: Vec<u32> = Vec::new();
        push_text_key(&mut out, self.id.as_str());
        assert(out@ =~= text_key(self@.id));
        push_text_key(&mut out, self.name.as_str());
        push_text_key(&mut out, self.type_.as_str());
        proof {
            lemma_join_assoc(text_key(self@.id), text_key(self@.name), text_key(self@.type_));
        }
        out
    }

    fn duplicate(&self) -> (r: Self) {
        ChildResource { id: self.id.clone(), name: self.name.clone(), type_: self.type_.clone() }
    }
}

/// What one entry of a listing of child resources holds: the resource, or
/// nothing where the entry lacks a text `id` that begins with `/`, a text
/// `name` or a text `type`.
pub open spec fn read_child(v: JsonView) -> Option<ChildResourceView> {
    let id = text_of(field(v, "id"@));
    let name = text_of(field(v, "name"@));
    let type_ = text_of(field(v, "type"@));
    if id is Some && valid_path(id->Some_0) && name is Some && type_ is Some {
        Some(ChildResourceView { id: id->Some_0, name: name->Some_0, type_: type_->Some_0 })
    } else {
        None
    }
}

/// The resources that the first `n` entries describe.
pub open spec fn children_among(entries: Seq<JsonView>, n: int) -> Set<ChildResourceView> {
    Set::new(
        |c: ChildResourceView|
            exists|i: int| 0 <= i < n && read_child(#[trigger] entries[i]) == Some(c),
    )
}

/// Why a listing of child resources cannot be read.
#[derive(Debug, PartialEq, Eq)]
pub enum ResourceError {
    /// An entry is no child resource.
    Malformed { entry: Json },
}

impl ResourceError {
    /// The message shown to the operator.
    pub fn message(&self) -> (r: &'static str)
        ensures
            r@ == "unable to parse eligible child resource"@,
    {
        "unable to parse eligible child resource"
    }
}

/// Reads one entry of a listing of child resources.
pub fn parse_child(entry: &Json) -> (r: Result<ChildResource, ResourceError>)
    ensures
        r matches Ok(c) ==> read_child(entry@) == Some(c@),
        r matches Err(ResourceError::Malformed { entry: e }) ==> read_child(entry@) is None && e@
            == entry@,
{
    let id = match text_here(step(Some(entry), "id")) {
        Some(path) => match Scope::new(path.as_str()) {
            Ok(id) => Some(id),
            Err(_) => None,
        },
        None => None,
    };
    let name = text_here(step(Some(entry), "name"));
    let type_ = text_here(step(Some(entry), "type"));
    match (id, name, type_) {
        (Some(id), Some(name), Some(type_)) => Ok(ChildResource { id, name, type_ }),
        _ => Err(ResourceError::Malformed { entry: entry.duplicate() }),
    }
}

impl ChildResource {
    /// Reads a listing of child resources: the set of the resources that the
    /// items of its array `value` describe, and the empty set where there is
    /// no such array. The first entry that is no child resource makes the
    /// whole listing unreadable.
    pub fn parse(data: &Json) -> (r: Result<OrdSet<ChildResource>, ResourceError>)
        ensures
            r is Ok <==> forall|i: int|
                0 <= i < entries_of(data@).len() ==> read_child(#[trigger] entries_of(data@)[i]) is Some,
            r matches Ok(set) ==> set@.to_set() == children_among(
                entries_of(data@),
                entries_of(data@).len() as int,
            ) && increasing::<ChildResource>(set@),
            r matches Err(ResourceError::Malformed { entry }) ==> exists|k: int|
                0 <= k < entries_of(data@).len() && entry@ == #[trigger] entries_of(data@)[k] && read_child(
                    entries_of(data@)[k],
                ) is None && forall|j: int|
                    0 <= j < k ==> read_child(#[trigger] entries_of(data@)[j]) is Some,
    {
        let mut results: OrdSet<ChildResource> = OrdSet::new();
        let _ = results.len();
        let ghost entries = entries_of(data@);
        assert(results@.to_set() =~= children_among(entries, 0));
        let items = match step(Some(data), "value") {
            Some(inner) => match inner.as_array() {
                Some(items) => items,
                None => {
                    return Ok(results);
                },
            },
            None => {
                return Ok(results);
            },
        };
        let mut i: usize = 0;
        while i < items.len()
            invariant
                i <= items@.len(),
                entries == json_views(items@),
                entries == entries_of(data@),
                forall|j: int| 0 <= j < i ==> read_child(#[trigger] entries[j]) is Some,
                results@.to_set() == children_among(entries, i as int),
                increasing::<ChildResource>(results@),
            decreases items@.len() - i,
        {
            let ghost before = results@;
            assert(entries[i as int] == items@[i as int]@);
            match parse_child(&items[i]) {
                Err(e) => {
                    return Err(e);
                },
                Ok(child) => {
                    let ghost c = child@;
                    results.insert(child);
                    proof {
                        lemma_placed_members(before, c, results@);
                        assert(children_among(entries, i + 1) =~= children_among(
                            entries,
                            i as int,
                        ).insert(c));
                    }
                },
            }
            i += 1;
        }
        Ok(results)
    }
}

} // verus!
