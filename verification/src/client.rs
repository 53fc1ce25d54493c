//! The requests of the client and what it makes of the answers.

use vstd::prelude::*;
use crate::activate::ListFilter;
use crate::models::assignments::Assignment;
use crate::backend::{pairs, request_url, Method, Operation, Request, RequestBuilder, TokenScope};
use crate::graph::Object;
use crate::json::{json_views, member_views, Json, JsonView};
use crate::ordset::{increasing, lemma_placed_members, Keyed, OrdSet};
use crate::models::roles::{opt_object_view, RoleAssignment, RoleAssignmentView};
use crate::models::scope::Scope;
use crate::text::{push_text, same_text, string_of};

verus! {

/// The query of a listing: the version of the interface, then the filter
/// where there is one.
pub open spec fn listing_query(operation: Operation, filter: Option<ListFilter>) -> Seq<
    (Seq<char>, Seq<char>),
> {
    match filter {
        Some(ListFilter::AtScope) => seq![
            ("api-version"@, operation.version()),
            ("$filter"@, "atScope()"@),
        ],
        Some(ListFilter::AsTarget) => seq![
            ("api-version"@, operation.version()),
            ("$filter"@, "asTarget()"@),
        ],
        None => seq![("api-version"@, operation.version())],
    }
}

/// The request that lists what `operation` holds, at `scope` where one is
/// given, under `filter` where one is given.
pub fn list_request(operation: Operation, scope: Option<Scope>, filter: Option<ListFilter>) -> (r:
    Request)
    ensures
        r.method == Method::Get,
        r.url@ == request_url(crate::backend::scope_text(scope), operation, Seq::<char>::empty()),
        pairs(r.query@) == listing_query(operation, filter),
        r.token_scope == TokenScope::Management,
        r.body is None,
        r.validate is None,
{
    let mut builder = RequestBuilder::new(Method::Get, operation);
    let ghost wanted = scope;
    match scope {
        Some(s) => {
            builder = builder.scope(s);
        },
        None => {},
    }
    match filter {
        Some(f) => {
            builder = builder.query("$filter", f.as_str());
        },
        None => {},
    }
    let r = builder.build();
    assert(pairs(r.query@) =~= listing_query(operation, filter));
    r
}

/// The request that deletes the plain assignment `assignment_name` at `scope`.
pub fn delete_assignment_request(scope: &Scope, assignment_name: &str) -> (r: Request)
    ensures
        r.method == Method::Delete,
        r.url@ == request_url(
            scope@,
            Operation::RoleAssignments,
            seq!['/'] + assignment_name@,
        ),
        pairs(r.query@) == seq![("api-version"@, "2022-04-01"@)],
        r.token_scope == TokenScope::Management,
        r.body is None,
        r.validate is None,
{
    let mut extra: Vec<char> = Vec::new();
    extra.push('/');
    push_text(&mut extra, assignment_name);
    let r = RequestBuilder::new(Method::Delete, Operation::RoleAssignments).extra(
        string_of(&extra),
    ).scope(scope.clone()).build();
    assert(pairs(r.query@) =~= seq![("api-version"@, "2022-04-01"@)]);
    r
}

/// A request to the directory.
#[derive(Debug, PartialEq, Eq)]
pub struct GraphRequest {
    pub method: Method,
    pub url: String,
    pub token_scope: TokenScope,
    pub body: Option<Json>,
}

/// The texts of a vector of strings, as JSON texts.
pub open spec fn text_items(ids: Seq<String>) -> Seq<JsonView> {
    Seq::new(ids.len(), |i: int| JsonView::Text(ids[i]@))
}

/// The request that asks the directory for the objects with the given
/// identifiers.
pub fn lookup_request(ids: &Vec<String>) -> (r: GraphRequest)
    ensures
        r.method == Method::Post,
        r.url@ == "https://graph.microsoft.com/v1.0/directoryObjects/getByIds"@,
        r.token_scope == TokenScope::Graph,
        r.body is Some,
        r.body->Some_0@ == JsonView::Object(seq![("ids"@, JsonView::Array(text_items(ids@)))]),
{
    let mut items: Vec<Json> = Vec::new();
    let mut i: usize = 0;
    while i < ids.len()
        invariant
            i <= ids@.len(),
            items@.len() == i,
            forall|k: int| 0 <= k < i ==> (#[trigger] items@[k])@ == JsonView::Text(ids@[k]@),
        decreases ids@.len() - i,
    {
        items.push(Json::text(ids[i].as_str()));
        i += 1;
    }
    assert(json_views(items@) =~= text_items(ids@));
    let mut members: Vec<(String, Json)> = Vec::new();
    members.push(("ids".to_string(), Json::array(items)));
    assert(member_views(members@) =~= seq![("ids"@, JsonView::Array(text_items(ids@)))]);
    GraphRequest {
        method: Method::Post,
        url: "https://graph.microsoft.com/v1.0/directoryObjects/getByIds".to_string(),
        token_scope: TokenScope::Graph,
        body: Some(Json::object(members)),
    }
}

/// The request that asks the directory for the members of group `id`.
pub fn members_request(id: &str) -> (r: GraphRequest)
    ensures
        r.method == Method::Get,
        r.url@ == "https://graph.microsoft.com/v1.0/groups/"@ + id@ + "/members"@,
        r.token_scope == TokenScope::Graph,
        r.body is None,
{
    let mut url: Vec<char> = Vec::new();
    push_text(&mut url, "https://graph.microsoft.com/v1.0/groups/");
    push_text(&mut url, id);
    push_text(&mut url, "/members");
    GraphRequest {
        method: Method::Get,
        url: string_of(&url),
        token_scope: TokenScope::Graph,
        body: None,
    }
}

/// The identifiers of the principals that `s` names.
pub open spec fn principals(s: Seq<RoleAssignmentView>) -> Set<Seq<char>> {
    Set::new(
        |id: Seq<char>|
            exists|i: int| 0 <= i < s.len() && (#[trigger] s[i]).principal_id == Some(id),
    )
}

/// The identifiers of the principals that the assignments of `set` name.
pub fn principal_ids(set: &OrdSet<RoleAssignment>) -> (r: OrdSet<String>)
    ensures
        r@.to_set() == principals(set@),
        increasing::<String>(r@),
{
    let n = set.len();
    let mut ids: OrdSet<String> = OrdSet::new();
    let _ = ids.len();
    let mut i: usize = 0;
    assert(ids@.to_set() =~= principals(set@.take(0)));
    while i < n
        invariant
            i <= n,
            n == set@.len(),
            ids@.to_set() == principals(set@.take(i as int)),
            increasing::<String>(ids@),
        decreases n - i,
    {
        let ghost before = ids@;
        let ghost s = set@.take(i as int);
        let ghost t = set@.take(i + 1);
        proof {
            assert(t[i as int] == set@[i as int]);
            assert forall|x: Seq<char>|
                principals(t).contains(x) <==> principals(s).contains(x) || set@[i as int].principal_id
                    == Some(x) by {
                if principals(t).contains(x) {
                    let k = choose|k: int|
                        0 <= k < t.len() && (#[trigger] t[k]).principal_id == Some(x);
                    if k < i {
                        assert(s[k] == t[k]);
                    }
                }
                if principals(s).contains(x) {
                    let k = choose|k: int|
                        0 <= k < s.len() && (#[trigger] s[k]).principal_id == Some(x);
                    assert(t[k] == s[k]);
                }
            }
        }
        match &set.get(i).principal_id {
            Some(id) => {
                ids.insert(id.clone());
                proof {
                    lemma_placed_members(before, id@, ids@);
                    assert(ids@.to_set() =~= principals(t));
                }
            },
            None => {
                assert(principals(t) =~= principals(s));
            },
        }
        i += 1;
    }
    assert(set@.take(n as int) == set@);
    ids
}

/// The position of the first object with identifier `id`, from `from` on.
pub open spec fn object_index(objects: Seq<Object>, id: Seq<char>, from: int) -> Option<int>
    decreases objects.len() - from,
{
    if from < 0 || from >= objects.len() {
        None
    } else if objects[from].id@ == id {
        Some(from)
    } else {
        object_index(objects, id, from + 1)
    }
}

/// The first object with identifier `id`.
pub open spec fn object_for(objects: Seq<Object>, id: Seq<char>) -> Option<Object> {
    match object_index(objects, id, 0) {
        Some(i) => Some(objects[i]),
        None => None,
    }
}

/// Finds the first object with identifier `id`.
pub fn find_object<'a>(objects: &'a Vec<Object>, id: &str) -> (r: Option<&'a Object>)
    ensures
        r is Some <==> object_for(objects@, id@) is Some,
        r matches Some(o) ==> object_for(objects@, id@) == Some(*o),
{
    let mut i: usize = 0;
    while i < objects.len()
        invariant
            i <= objects@.len(),
            object_index(objects@, id@, 0) == object_index(objects@, id@, i as int),
        decreases objects@.len() - i,
    {
        if same_text(objects[i].id.as_str(), id) {
            return Some(&objects[i]);
        }
        i += 1;
    }
    None
}

/// An assignment with the object of its principal: the first of `objects`
/// with the identifier of the principal, or none where there is no such
/// object. An assignment that names no principal stays as it is.
pub open spec fn with_object(a: RoleAssignmentView, objects: Seq<Object>) -> RoleAssignmentView {
    match a.principal_id {
        Some(id) => RoleAssignmentView { object: opt_object_view(object_for(objects, id)), ..a },
        None => a,
    }
}

/// The assignments of `s`, up to position `n`, each with its object.
pub open spec fn with_objects(s: Seq<RoleAssignmentView>, objects: Seq<Object>, n: int) -> Set<
    RoleAssignmentView,
> {
    Set::new(
        |a: RoleAssignmentView|
            exists|i: int| 0 <= i < n && a == with_object(#[trigger] s[i], objects),
    )
}

/// Gives each assignment of `set` the object of its principal.
pub fn attach_objects(set: &OrdSet<RoleAssignment>, objects: &Vec<Object>) -> (r: OrdSet<
    RoleAssignment,
>)
    ensures
        r@.to_set() == with_objects(set@, objects@, set@.len() as int),
        increasing::<RoleAssignment>(r@),
{
    let n = set.len();
    let mut out: OrdSet<RoleAssignment> = OrdSet::new();
    let _ = out.len();
    let mut i: usize = 0;
    assert(out@.to_set() =~= with_objects(set@, objects@, 0));
    while i < n
        invariant
            i <= n,
            n == set@.len(),
            out@.to_set() == with_objects(set@, objects@, i as int),
            increasing::<RoleAssignment>(out@),
        decreases n - i,
    {
        let ghost before = out@;
        let mut entry = set.get(i).duplicate();
        match &entry.principal_id {
            Some(id) => {
                let found = match find_object(objects, id.as_str()) {
                    Some(o) => Some(o.duplicate()),
                    None => None,
                };
                entry.object = found;
            },
            None => {},
        }
        let ghost e = entry@;
        assert(e == with_object(set@[i as int], objects@));
        out.insert(entry);
        proof {
            lemma_placed_members(before, e, out@);
            assert(with_objects(set@, objects@, i + 1) =~= with_objects(
                set@,
                objects@,
                i as int,
            ).insert(e));
        }
        i += 1;
    }
    out
}

/// Gives each plain assignment of `list` the object of its principal: the
/// first of `objects` with the identifier of the principal, or none.
pub fn attach_to_assignments(list: Vec<Assignment>, objects: &Vec<Object>) -> (r: Vec<Assignment>)
    ensures
        r@.len() == list@.len(),
        forall|i: int|
            0 <= i < r@.len() ==> (#[trigger] r@[i]) == (Assignment {
                object: object_for(objects@, list@[i].properties.principal_id@),
                ..list@[i]
            }),
{
    let mut rest = list;
    let mut back: Vec<Assignment> = Vec::new();
    while rest.len() > 0
        invariant
            rest@.len() <= list@.len(),
            rest@ == list@.take(rest@.len() as int),
            back@.len() == list@.len() - rest@.len(),
            forall|k: int|
                0 <= k < back@.len() ==> (#[trigger] back@[k]) == (Assignment {
                    object: object_for(
                        objects@,
                        list@[list@.len() - 1 - k].properties.principal_id@,
                    ),
                    ..list@[list@.len() - 1 - k]
                }),
        decreases rest@.len(),
    {
        let ghost n = rest@.len();
        let mut entry = rest.pop().unwrap();
        assert(entry == list@[n - 1]);
        assert(rest@ =~= list@.take(n - 1));
        let found = match find_object(objects, entry.properties.principal_id.as_str()) {
            Some(o) => Some(o.duplicate()),
            None => None,
        };
        entry.object = found;
        back.push(entry);
    }
    let mut out: Vec<Assignment> = Vec::new();
    while back.len() > 0
        invariant
            back@.len() + out@.len() == list@.len(),
            forall|k: int|
                0 <= k < back@.len() ==> (#[trigger] back@[k]) == (Assignment {
                    object: object_for(
                        objects@,
                        list@[list@.len() - 1 - k].properties.principal_id@,
                    ),
                    ..list@[list@.len() - 1 - k]
                }),
            forall|i: int|
                0 <= i < out@.len() ==> (#[trigger] out@[i]) == (Assignment {
                    object: object_for(objects@, list@[i].properties.principal_id@),
                    ..list@[i]
                }),
        decreases back@.len(),
    {
        let ghost m = back@.len();
        let entry = back.pop().unwrap();
        out.push(entry);
    }
    out
}

} // verus!
