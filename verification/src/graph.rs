//! Directory objects: the users, groups and service principals behind
//! role assignments.

use vstd::prelude::*;
use crate::json::{entries_of, field, json_views, member, text_of, Json, JsonView};
use crate::order::{
    lemma_join_assoc, lemma_opt_text_key_splits, lemma_text_key_splits, opt_text_key, push_opt_text_key,
    push_text_key, text_key,
};
use crate::ordset::{increasing, lemma_placed_members, Keyed, OrdSet};
use crate::text::same_text;

verus! {

/// The kind of a directory object.
#[derive(Debug, Clone, Copy, PartialEq, Eq, Structural)]
pub enum PrincipalType {
    User,
    Group,
    ServicePrincipal,
}

impl PrincipalType {
    /// The place of a kind in the order of kinds.
    pub open spec fn rank(self) -> u32 {
        match self {
            PrincipalType::User => 0,
            PrincipalType::Group => 1,
            PrincipalType::ServicePrincipal => 2,
        }
    }

    /// The place of a kind in the order of kinds.
    pub fn rank_of(&self) -> (r: u32)
        ensures
            r == self.rank(),
    {
        match self {
            PrincipalType::User => 0,
            PrincipalType::Group => 1,
            PrincipalType::ServicePrincipal => 2,
        }
    }

    /// The name of the kind.
    pub fn name(&self) -> (r: &'static str)
        ensures
            r@ == (match *self {
                PrincipalType::User => "User"@,
                PrincipalType::Group => "Group"@,
                PrincipalType::ServicePrincipal => "ServicePrincipal"@,
            }),
    {
        match self {
            PrincipalType::User => "User",
            PrincipalType::Group => "Group",
            PrincipalType::ServicePrincipal => "ServicePrincipal",
        }
    }
}

/// The kind that a directory type tag names.
pub open spec fn kind_of_tag(tag: Seq<char>) -> Option<PrincipalType> {
    if tag == "#microsoft.graph.user"@ {
        Some(PrincipalType::User)
    } else if tag == "#microsoft.graph.group"@ {
        Some(PrincipalType::Group)
    } else if tag == "#microsoft.graph.servicePrincipal"@ {
        Some(PrincipalType::ServicePrincipal)
    } else {
        None
    }
}

/// A directory object.
#[derive(Debug, Clone, PartialEq, Eq)]
pub struct Object {
    pub id: String,
    pub display_name: String,
    pub upn: Option<String>,
    pub object_type: PrincipalType,
}

/// The mathematical value of a directory object.
pub struct ObjectView {
    pub id: Seq<char>,
    pub display_name: Seq<char>,
    pub upn: Option<Seq<char>>,
    pub object_type: PrincipalType,
}

/// The text that an optional string holds.
pub open spec fn opt_view(o: Option<String>) -> Option<Seq<char>> {
    match o {
        Some(s) => Some(s@),
        None => None,
    }
}

impl View for Object {
    type V = ObjectView;

    open spec fn view(&self) -> ObjectView {
        ObjectView {
            id: self.id@,
            display_name: self.display_name@,
            upn: opt_view(self.upn),
            object_type: self.object_type,
        }
    }
}

/// The sort key of an object: by identifier, then name, then principal name,
/// then kind.
pub open spec fn object_key(o: ObjectView) -> Seq<u32> {
    text_key(o.id) + (text_key(o.display_name) + (opt_text_key(o.upn) + seq![o.object_type.rank()]))
}

/// An object's key tells the object.
pub proof fn lemma_object_key_tells(a: ObjectView, b: ObjectView)
    requires
        object_key(a) == object_key(b),
    ensures
        a == b,
{
    lemma_text_key_splits(
        a.id,
        text_key(a.display_name) + (opt_text_key(a.upn) + seq![a.object_type.rank()]),
        b.id,
        text_key(b.display_name) + (opt_text_key(b.upn) + seq![b.object_type.rank()]),
    );
    lemma_text_key_splits(
        a.display_name,
        opt_text_key(a.upn) + seq![a.object_type.rank()],
        b.display_name,
        opt_text_key(b.upn) + seq![b.object_type.rank()],
    );
    lemma_opt_text_key_splits(
        a.upn,
        seq![a.object_type.rank()],
        b.upn,
        seq![b.object_type.rank()],
    );
    assert(seq![a.object_type.rank()][0] == seq![b.object_type.rank()][0]);
}

/// A copy of an optional string.
pub fn copy_opt(o: &Option<String>) -> (r: Option<String>)
    ensures
        r == *o,
{
    match o {
        Some(s) => Some(s.clone()),
        None => None,
    }
}

impl Object {
    /// Appends the sort key of the object to `out`.
    pub fn push_key(&self, out: &mut Vec<u32>)
        ensures
            final(out)@ == old(out)@ + object_key(self@),
    {
        let ghost k1 = text_key(self@.id);
        let ghost k2 = text_key(self@.display_name);
        let ghost k3 = opt_text_key(self@.upn);
        let ghost k4 = seq![self.object_type.rank()];
        push_text_key(out, self.id.as_str());
        push_text_key(out, self.display_name.as_str());
        push_opt_text_key(out, &self.upn);
        let ghost head = out@;
        out.push(self.object_type.rank_of());
        proof {
            assert(out@ =~= head + k4);
            lemma_join_assoc((old(out)@ + k1) + k2, k3, k4);
            lemma_join_assoc(old(out)@ + k1, k2, k3 + k4);
            lemma_join_assoc(old(out)@, k1, k2 + (k3 + k4));
        }
    }
}

impl Keyed for Object {
    open spec fn key_of(v: ObjectView) -> Seq<u32> {
        object_key(v)
    }

    proof fn lemma_key_tells(a: ObjectView, b: ObjectView) {
        lemma_object_key_tells(a, b);
    }

    fn key(&self) -> (r: Vec<u32>) {
        let mut out: Vec<u32> = Vec::new();
        self.push_key(&mut out);
        assert(out@ =~= object_key(self@));
        out
    }

    fn duplicate(&self) -> (r: Self)
        ensures
            r == *self,
    {
        Object {
            id: self.id.clone(),
            display_name: self.display_name.clone(),
            upn: copy_opt(&self.upn),
            object_type: self.object_type,
        }
    }
}

/// What one entry of a directory answer holds.
pub enum Reading {
    /// The entry has no identifier or no display name and is passed over.
    Skipped,
    /// The entry has no type tag.
    MissingType,
    /// The entry's type tag names no known kind.
    UnknownType(Seq<char>),
    /// The entry describes this object.
    Found(ObjectView),
}

/// The text of a member that is there: the text itself, or the empty text
/// where the member is not a text.
pub open spec fn text_or_empty(v: JsonView) -> Seq<char> {
    match text_of(v) {
        Some(s) => s,
        None => Seq::<char>::empty(),
    }
}

/// Reads one entry of a directory answer.
pub open spec fn read_entry(v: JsonView) -> Reading {
    if member(v, "id"@) is None || member(v, "displayName"@) is None {
        Reading::Skipped
    } else if member(v, "@odata.type"@) is None {
        Reading::MissingType
    } else {
        let tag = text_or_empty(member(v, "@odata.type"@)->Some_0);
        match kind_of_tag(tag) {
            None => Reading::UnknownType(tag),
            Some(kind) => Reading::Found(
                ObjectView {
                    id: text_or_empty(member(v, "id"@)->Some_0),
                    display_name: text_or_empty(member(v, "displayName"@)->Some_0),
                    upn: text_of(field(v, "userPrincipalName"@)),
                    object_type: kind,
                },
            ),
        }
    }
}

/// Whether an entry cannot be read.
pub open spec fn unreadable(v: JsonView) -> bool {
    read_entry(v) is MissingType || read_entry(v) is UnknownType
}

/// The objects that the first `n` entries describe.
pub open spec fn found_among(entries: Seq<JsonView>, n: int) -> Set<ObjectView> {
    Set::new(|o: ObjectView| exists|i: int| 0 <= i < n && read_entry(#[trigger] entries[i]) == Reading::Found(o))
}

/// Why a directory answer cannot be read.
#[derive(Debug, PartialEq, Eq)]
pub enum GraphError {
    /// An entry has no `@odata.type`.
    MissingType { entry: Json },
    /// An entry's `@odata.type` names no known kind.
    UnknownType { name: String, entry: Json },
}

impl GraphError {
    /// Whether this error is what reading `v` gives.
    pub open spec fn reports(self, v: JsonView) -> bool {
        match self {
            GraphError::MissingType { entry } => entry@ == v && read_entry(v) is MissingType,
            GraphError::UnknownType { name, entry } => entry@ == v && read_entry(v)
                == Reading::UnknownType(name@),
        }
    }

    /// The message shown to the operator.
    pub fn message(&self) -> (r: String)
        ensures
            self is MissingType ==> r@ == "missing @odata.type"@,
            self matches GraphError::UnknownType { name, .. } ==> r@ == "unknown object type: "@
                + name@,
    {
        match self {
            GraphError::MissingType { .. } => "missing @odata.type".to_string(),
            GraphError::UnknownType { name, .. } => {
                let mut out: Vec<char> = Vec::new();
                crate::text::push_text(&mut out, "unknown object type: ");
                crate::text::push_text(&mut out, name.as_str());
                crate::text::string_of(&out)
            },
        }
    }
}

/// The text of a member that is there, or the empty text.
fn str_or_empty(v: &Json) -> (r: String)
    ensures
        r@ == text_or_empty(v@),
{
    match v.as_str() {
        Some(s) => s.to_string(),
        None => String::new(),
    }
}

/// Reads the kind that a type tag names.
fn kind_from_tag(tag: &str) -> (r: Option<PrincipalType>)
    ensures
        r == kind_of_tag(tag@),
{
    if same_text(tag, "#microsoft.graph.user") {
        Some(PrincipalType::User)
    } else if same_text(tag, "#microsoft.graph.group") {
        Some(PrincipalType::Group)
    } else if same_text(tag, "#microsoft.graph.servicePrincipal") {
        Some(PrincipalType::ServicePrincipal)
    } else {
        None
    }
}

/// Reads one entry of a directory answer: the object it describes, nothing
/// where it is passed over, or the reason why it cannot be read.
pub fn parse_object(entry: &Json) -> (r: Result<Option<Object>, GraphError>)
    ensures
        read_entry(entry@) is Skipped <==> r == Ok::<Option<Object>, GraphError>(None),
        r matches Ok(Some(o)) ==> read_entry(entry@) == Reading::Found(o@),
        r matches Err(e) ==> e.reports(entry@),
{
    let id = match entry.get("id") {
        Some(v) => str_or_empty(v),
        None => {
            return Ok(None);
        },
    };
    let display_name = match entry.get("displayName") {
        Some(v) => str_or_empty(v),
        None => {
            return Ok(None);
        },
    };
    let upn = match entry.text_at("userPrincipalName") {
        Some(s) => Some(s.to_string()),
        None => None,
    };
    let tag = match entry.get("@odata.type") {
        Some(v) => str_or_empty(v),
        None => {
            return Err(GraphError::MissingType { entry: entry.duplicate() });
        },
    };
    match kind_from_tag(tag.as_str()) {
        Some(object_type) => Ok(Some(Object { id, display_name, upn, object_type })),
        None => Err(GraphError::UnknownType { name: tag, entry: entry.duplicate() }),
    }
}

/// Reads a directory answer: the set of the objects that its entries
/// describe. Entries without identifier or display name are passed over; the
/// first entry that cannot be read makes the whole answer unreadable.
pub fn parse_objects(value: &Json) -> (r: Result<OrdSet<Object>, GraphError>)
    ensures
        r is Ok <==> forall|i: int|
            0 <= i < entries_of(value@).len() ==> !unreadable(
                #[trigger] entries_of(value@)[i],
            ),
        r matches Ok(set) ==> set@.to_set() == found_among(
            entries_of(value@),
            entries_of(value@).len() as int,
        ) && increasing::<Object>(set@),
        r matches Err(e) ==> exists|k: int|
            0 <= k < entries_of(value@).len() && e.reports(
                #[trigger] entries_of(value@)[k],
            ) && forall|j: int| 0 <= j < k ==> !unreadable(#[trigger] entries_of(value@)[j]),
{
    let mut results: OrdSet<Object> = OrdSet::new();
    let _ = results.len();
    let ghost entries = entries_of(value@);
    let items = match value.get("value") {
        Some(inner) => match inner.as_array() {
            Some(items) => items,
            None => {
                assert(results@.to_set() =~= found_among(entries, 0));
                return Ok(results);
            },
        },
        None => {
            assert(results@.to_set() =~= found_among(entries, 0));
            return Ok(results);
        },
    };
    assert(entries == json_views(items@));
    assert(results@.to_set() =~= found_among(entries, 0));
    let mut i: usize = 0;
    while i < items.len()
        invariant
            i <= items@.len(),
            entries == json_views(items@),
            entries == entries_of(value@),
            forall|j: int| 0 <= j < i ==> !unreadable(#[trigger] entries[j]),
            results@.to_set() == found_among(entries, i as int),
            increasing::<Object>(results@),
        decreases items@.len() - i,
    {
        let ghost before = results@;
        assert(entries[i as int] == items@[i as int]@);
        match parse_object(&items[i]) {
            Err(e) => {
                return Err(e);
            },
            Ok(None) => {
                assert(found_among(entries, i + 1) =~= found_among(entries, i as int));
            },
            Ok(Some(object)) => {
                let ghost o = object@;
                results.insert(object);
                proof {
                    lemma_placed_members(before, o, results@);
                    assert(found_among(entries, i + 1) =~= found_among(entries, i as int).insert(
                        o,
                    ));
                }
            },
        }
        i += 1;
    }
    Ok(results)
}

} // verus!
