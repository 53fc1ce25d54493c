//! Roles and time-bound role assignments.

use vstd::prelude::*;
use crate::graph::{copy_opt, lemma_object_key_tells, object_key, opt_view, Object, ObjectView};
use crate::json::{field, items_of, json_views, step, text_here, text_of, Json, JsonView};
use crate::order::{
    lemma_join_assoc, lemma_opt_text_key_splits, lemma_text_key_splits, opt_text_key, push_opt_text_key,
    push_text_key, text_key,
};
use crate::ordset::{increasing, lemma_placed_members, Keyed, OrdSet};
use crate::models::scope::{valid_path, Scope};
use crate::text::{lowercase, push_text, same_text, string_of, texts, to_lowercase};

verus! {

/// The name of a role, in the letter case in which the service gave it.
#[derive(Debug, Clone, PartialEq, Eq)]
pub struct Role(pub String);

impl View for Role {
    type V = Seq<char>;

    open spec fn view(&self) -> Seq<char> {
        self.0@
    }
}

impl Role {
    /// The role named `name`.
    pub fn new(name: &str) -> (r: Role)
        ensures
            r@ == name@,
    {
        Role(name.to_string())
    }

    /// The name as text.
    pub fn as_str(&self) -> (r: &str)
        ensures
            r@ == self@,
    {
        self.0.as_str()
    }

    /// The name as an owned text.
    pub fn to_string(&self) -> (r: String)
        ensures
            r@ == self@,
    {
        self.0.clone()
    }
}

/// A role that a principal holds, or may activate, at a scope.
#[derive(Debug, Clone, PartialEq, Eq)]
pub struct RoleAssignment {
    pub role: Role,
    pub scope: Scope,
    pub scope_name: Option<String>,
    pub role_definition_id: String,
    pub principal_id: Option<String>,
    pub principal_type: Option<String>,
    pub object: Option<Object>,
}

/// The mathematical value of a role assignment.
pub struct RoleAssignmentView {
    pub role: Seq<char>,
    pub scope: Seq<char>,
    pub scope_name: Option<Seq<char>>,
    pub role_definition_id: Seq<char>,
    pub principal_id: Option<Seq<char>>,
    pub principal_type: Option<Seq<char>>,
    pub object: Option<ObjectView>,
}

/// The value of an optional object.
pub open spec fn opt_object_view(o: Option<Object>) -> Option<ObjectView> {
    match o {
        Some(x) => Some(x@),
        None => None,
    }
}

impl View for RoleAssignment {
    type V = RoleAssignmentView;

    open spec fn view(&self) -> RoleAssignmentView {
        RoleAssignmentView {
            role: self.role@,
            scope: self.scope@,
            scope_name: opt_view(self.scope_name),
            role_definition_id: self.role_definition_id@,
            principal_id: opt_view(self.principal_id),
            principal_type: opt_view(self.principal_type),
            object: opt_object_view(self.object),
        }
    }
}

/// The key of an optional object: a missing object comes first.
pub open spec fn opt_object_key(o: Option<ObjectView>) -> Seq<u32> {
    match o {
        None => seq![0u32],
        Some(x) => seq![1u32] + object_key(x),
    }
}

/// The later part of an assignment's sort key: definition, principal, object.
pub open spec fn assignment_key_tail(a: RoleAssignmentView) -> Seq<u32> {
    text_key(a.role_definition_id) + (opt_text_key(a.principal_id) + (opt_text_key(
        a.principal_type,
    ) + opt_object_key(a.object)))
}

/// The sort key of an assignment: by role, then scope, then scope name, then
/// the remaining fields.
pub open spec fn assignment_key(a: RoleAssignmentView) -> Seq<u32> {
    text_key(a.role) + (text_key(a.scope) + (opt_text_key(a.scope_name) + assignment_key_tail(a)))
}

/// An assignment's key tells the assignment.
pub proof fn lemma_assignment_key_tells(a: RoleAssignmentView, b: RoleAssignmentView)
    requires
        assignment_key(a) == assignment_key(b),
    ensures
        a == b,
{
    lemma_text_key_splits(
        a.role,
        text_key(a.scope) + (opt_text_key(a.scope_name) + assignment_key_tail(a)),
        b.role,
        text_key(b.scope) + (opt_text_key(b.scope_name) + assignment_key_tail(b)),
    );
    lemma_text_key_splits(
        a.scope,
        opt_text_key(a.scope_name) + assignment_key_tail(a),
        b.scope,
        opt_text_key(b.scope_name) + assignment_key_tail(b),
    );
    lemma_opt_text_key_splits(
        a.scope_name,
        assignment_key_tail(a),
        b.scope_name,
        assignment_key_tail(b),
    );
    lemma_text_key_splits(
        a.role_definition_id,
        opt_text_key(a.principal_id) + (opt_text_key(a.principal_type) + opt_object_key(a.object)),
        b.role_definition_id,
        opt_text_key(b.principal_id) + (opt_text_key(b.principal_type) + opt_object_key(b.object)),
    );
    lemma_opt_text_key_splits(
        a.principal_id,
        opt_text_key(a.principal_type) + opt_object_key(a.object),
        b.principal_id,
        opt_text_key(b.principal_type) + opt_object_key(b.object),
    );
    lemma_opt_text_key_splits(
        a.principal_type,
        opt_object_key(a.object),
        b.principal_type,
        opt_object_key(b.object),
    );
    let x = opt_object_key(a.object);
    let y = opt_object_key(b.object);
    assert(x[0] == y[0]);
    match (a.object, b.object) {
        (Some(p), Some(q)) => {
            assert(x.skip(1) =~= object_key(p));
            assert(y.skip(1) =~= object_key(q));
            lemma_object_key_tells(p, q);
        },
        (None, None) => {},
        _ => {
            assert(false);
        },
    }
}

/// A copy of an optional object.
pub fn copy_opt_object(o: &Option<Object>) -> (r: Option<Object>)
    ensures
        opt_object_view(r) == opt_object_view(*o),
{
    match o {
        Some(x) => Some(x.duplicate()),
        None => None,
    }
}

/// How an assignment is named to the operator.
pub open spec fn friendly_text(a: RoleAssignmentView) -> Seq<char> {
    match a.scope_name {
        Some(name) => seq!['"'] + a.role + "\" in \""@ + name + "\" ("@ + a.scope + seq![')'],
        None => seq!['"'] + a.role + "\" in "@ + a.scope,
    }
}

impl RoleAssignment {
    /// How the assignment is named to the operator: the role and the scope,
    /// by its display name where it has one.
    pub fn friendly(&self) -> (r: String)
        ensures
            r@ == friendly_text(self@),
    {
        let mut out: Vec<char> = Vec::new();
        out.push('"');
        push_text(&mut out, self.role.as_str());
        match &self.scope_name {
            Some(name) => {
                push_text(&mut out, "\" in \"");
                push_text(&mut out, name.as_str());
                push_text(&mut out, "\" (");
                push_text(&mut out, self.scope.as_str());
                out.push(')');
            },
            None => {
                push_text(&mut out, "\" in ");
                push_text(&mut out, self.scope.as_str());
            },
        }
        string_of(&out)
    }
}

impl Keyed for RoleAssignment {
    open spec fn key_of(v: RoleAssignmentView) -> Seq<u32> {
        assignment_key(v)
    }

    proof fn lemma_key_tells(a: RoleAssignmentView, b: RoleAssignmentView) {
        lemma_assignment_key_tells(a, b);
    }

    fn key(&self) -> (r: Vec<u32>) {
        let mut out: Vec<u32> = Vec::new();
        let ghost v = self@;
        let ghost k1 = text_key(v.role);
        let ghost k2 = text_key(v.scope);
        let ghost k3 = opt_text_key(v.scope_name);
        let ghost k4 = text_key(v.role_definition_id);
        let ghost k5 = opt_text_key(v.principal_id);
        let ghost k6 = opt_text_key(v.principal_type);
        let ghost k7 = opt_object_key(v.object);
        push_text_key(&mut out, self.role.as_str());
        assert(out@ =~= k1);
        push_text_key(&mut out, self.scope.as_str());
        push_opt_text_key(&mut out, &self.scope_name);
        push_text_key(&mut out, self.role_definition_id.as_str());
        push_opt_text_key(&mut out, &self.principal_id);
        push_opt_text_key(&mut out, &self.principal_type);
        let ghost head = out@;
        match &self.object {
            None => {
                out.push(0);
                assert(out@ =~= head + k7);
            },
            Some(o) => {
                out.push(1);
                o.push_key(&mut out);
                assert(out@ =~= head + k7);
            },
        }
        proof {
            assert(out@ == (((((k1 + k2) + k3) + k4) + k5) + k6) + k7);
            lemma_join_assoc((((k1 + k2) + k3) + k4) + k5, k6, k7);
            lemma_join_assoc(((k1 + k2) + k3) + k4, k5, k6 + k7);
            lemma_join_assoc((k1 + k2) + k3, k4, k5 + (k6 + k7));
            lemma_join_assoc(k1 + k2, k3, k4 + (k5 + (k6 + k7)));
            lemma_join_assoc(k1, k2, k3 + (k4 + (k5 + (k6 + k7))));
        }
        out
    }

    fn duplicate(&self) -> (r: Self) {
        RoleAssignment {
            role: Role(self.role.0.clone()),
            scope: self.scope.clone(),
            scope_name: copy_opt(&self.scope_name),
            role_definition_id: self.role_definition_id.clone(),
            principal_id: copy_opt(&self.principal_id),
            principal_type: copy_opt(&self.principal_type),
            object: copy_opt_object(&self.object),
        }
    }
}

/// The first assignment of `s`, from position `from` on, whose folded role
/// name is `wanted` and whose scope is `scope`. `names` holds the folded role
/// name of each assignment of `s`.
pub open spec fn first_hit(
    s: Seq<RoleAssignmentView>,
    names: Seq<Seq<char>>,
    wanted: Seq<char>,
    scope: Seq<char>,
    from: int,
) -> Option<RoleAssignmentView>
    decreases s.len() - from,
{
    if from < 0 || from >= s.len() || from >= names.len() {
        None
    } else if names[from] == wanted && s[from].scope == scope {
        Some(s[from])
    } else {
        first_hit(s, names, wanted, scope, from + 1)
    }
}

/// The role names of `s` in lower case.
pub open spec fn folded_roles(s: Seq<RoleAssignmentView>) -> Seq<Seq<char>> {
    Seq::new(s.len(), |i: int| lowercase(s[i].role))
}

/// The list shown to the operator: one line for each assignment, `* ` and
/// its friendly name, the lines joined by line feeds.
pub open spec fn friendly_lines(s: Seq<RoleAssignmentView>) -> Seq<char>
    decreases s.len(),
{
    if s.len() == 0 {
        Seq::<char>::empty()
    } else if s.len() == 1 {
        "* "@ + friendly_text(s[0])
    } else {
        friendly_lines(s.drop_last()) + seq!['\n'] + ("* "@ + friendly_text(s.last()))
    }
}

/// The first assignment of `set` whose folded role name, as `names` gives
/// it, is `wanted`, and whose scope is `scope`.
pub fn find_folded(
    set: &OrdSet<RoleAssignment>,
    names: &Vec<String>,
    wanted: &str,
    scope: &Scope,
) -> (r: Option<RoleAssignment>)
    ensures
        opt_assignment_view(r) == first_hit(set@, texts(names@), wanted@, scope@, 0),
{
    let n = set.len();
    let mut i: usize = 0;
    while i < n && i < names.len()
        invariant
            i <= n,
            n == set@.len(),
            first_hit(set@, texts(names@), wanted@, scope@, 0) == first_hit(
                set@,
                texts(names@),
                wanted@,
                scope@,
                i as int,
            ),
        decreases n - i,
    {
        let entry = set.get(i);
        assert(texts(names@)[i as int] == names@[i as int]@);
        if same_text(names[i].as_str(), wanted) && same_text(entry.scope.as_str(), scope.as_str()) {
            return Some(entry.duplicate());
        }
        i += 1;
    }
    None
}

/// The value of an optional assignment.
pub open spec fn opt_assignment_view(o: Option<RoleAssignment>) -> Option<RoleAssignmentView> {
    match o {
        Some(x) => Some(x@),
        None => None,
    }
}

/// Lookup and display for sets of role assignments.
pub trait RolesExt {
    /// The assignments, in order.
    spec fn assignments(&self) -> Seq<RoleAssignmentView>;

    /// The first assignment, in the order of the set, of the role named
    /// `role`, whatever its letter case, at exactly `scope`.
    fn find_role(&self, role: &Role, scope: &Scope) -> (r: Option<RoleAssignment>)
        ensures
            opt_assignment_view(r) == first_hit(
                self.assignments(),
                folded_roles(self.assignments()),
                lowercase(role@),
                scope@,
                0,
            ),
    ;

    /// The list of the assignments as shown to the operator.
    fn friendly(&self) -> (r: String)
        ensures
            r@ == friendly_lines(self.assignments()),
    ;
}

impl RolesExt for OrdSet<RoleAssignment> {
    open spec fn assignments(&self) -> Seq<RoleAssignmentView> {
        self@
    }

    fn find_role(&self, role: &Role, scope: &Scope) -> (r: Option<RoleAssignment>) {
        let wanted = to_lowercase(role.as_str());
        let n = self.len();
        let mut names: Vec<String> = Vec::new();
        let mut i: usize = 0;
        while i < n
            invariant
                i <= n,
                n == self@.len(),
                names@.len() == i,
                forall|k: int| 0 <= k < i ==> (#[trigger] names@[k])@ == lowercase(self@[k].role),
            decreases n - i,
        {
            names.push(to_lowercase(self.get(i).role.as_str()));
            i += 1;
        }
        assert(texts(names@) =~= folded_roles(self@));
        find_folded(self, &names, wanted.as_str(), scope)
    }

    fn friendly(&self) -> (r: String) {
        let n = self.len();
        let mut out: Vec<char> = Vec::new();
        let mut i: usize = 0;
        while i < n
            invariant
                i <= n,
                n == self@.len(),
                out@ == friendly_lines(self@.take(i as int)),
            decreases n - i,
        {
            let ghost t = self@.take(i + 1);
            assert(t.drop_last() == self@.take(i as int));
            assert(t.last() == self@[i as int]);
            let ghost before = out@;
            if i > 0 {
                out.push('\n');
            }
            let ghost mid = out@;
            push_text(&mut out, "* ");
            push_text(&mut out, self.get(i).friendly().as_str());
            proof {
                let line = "* "@ + friendly_text(self@[i as int]);
                assert(out@ =~= mid + line);
                if i == 0 {
                    assert(t[0] == self@[0]);
                    assert(mid + line =~= line);
                } else {
                    assert(mid == before + seq!['\n']);
                }
            }
            i += 1;
        }
        assert(self@.take(n as int) == self@);
        string_of(&out)
    }
}

/// What one entry of a listing of assignments holds.
pub enum AssignmentReading {
    /// The entry names no role.
    NoRoleName,
    /// The entry has no scope, or one that does not begin with `/`.
    NoScopeId,
    /// The entry has no role definition.
    NoRoleDefinitionId,
    /// The entry describes this assignment.
    Found(RoleAssignmentView),
}

/// The member `expandedProperties` of the member `properties` of an entry.
pub open spec fn expanded(v: JsonView) -> JsonView {
    field(field(v, "properties"@), "expandedProperties"@)
}

/// Reads one entry of a listing of assignments. The principal is read only
/// where `with_principal` says so.
pub open spec fn read_assignment(v: JsonView, with_principal: bool) -> AssignmentReading {
    let role = text_of(field(field(expanded(v), "roleDefinition"@), "displayName"@));
    let scope = text_of(field(field(expanded(v), "scope"@), "id"@));
    let scope_name = text_of(field(field(expanded(v), "scope"@), "displayName"@));
    let definition = text_of(field(field(v, "properties"@), "roleDefinitionId"@));
    if role is None {
        AssignmentReading::NoRoleName
    } else if scope is None || !valid_path(scope->Some_0) {
        AssignmentReading::NoScopeId
    } else if definition is None {
        AssignmentReading::NoRoleDefinitionId
    } else {
        AssignmentReading::Found(
            RoleAssignmentView {
                role: role->Some_0,
                scope: scope->Some_0,
                scope_name: scope_name,
                role_definition_id: definition->Some_0,
                principal_id: if with_principal {
                    text_of(field(field(v, "properties"@), "principalId"@))
                } else {
                    None
                },
                principal_type: if with_principal {
                    text_of(field(field(v, "properties"@), "principalType"@))
                } else {
                    None
                },
                object: None,
            },
        )
    }
}

/// The assignments that the first `n` entries describe.
pub open spec fn assignments_among(entries: Seq<JsonView>, with_principal: bool, n: int) -> Set<
    RoleAssignmentView,
> {
    Set::new(
        |a: RoleAssignmentView|
            exists|i: int|
                0 <= i < n && read_assignment(#[trigger] entries[i], with_principal)
                    == AssignmentReading::Found(a),
    )
}

/// Why a listing of assignments cannot be read.
#[derive(Debug, PartialEq, Eq)]
pub enum RoleParseError {
    /// The answer has no array `value`.
    MissingValueArray { body: Json },
    /// An entry names no role.
    NoRoleName { entry: Json },
    /// An entry has no scope, or one that does not begin with `/`.
    NoScopeId { entry: Json },
    /// An entry has no role definition.
    NoRoleDefinitionId { entry: Json },
}

impl RoleParseError {
    /// Whether this error is what reading the entry `v` gives.
    pub open spec fn reports(self, v: JsonView, with_principal: bool) -> bool {
        match self {
            RoleParseError::MissingValueArray { .. } => false,
            RoleParseError::NoRoleName { entry } => entry@ == v && read_assignment(
                v,
                with_principal,
            ) is NoRoleName,
            RoleParseError::NoScopeId { entry } => entry@ == v && read_assignment(
                v,
                with_principal,
            ) is NoScopeId,
            RoleParseError::NoRoleDefinitionId { entry } => entry@ == v && read_assignment(
                v,
                with_principal,
            ) is NoRoleDefinitionId,
        }
    }

    /// The message shown to the operator.
    pub fn message(&self) -> (r: &'static str)
        ensures
            r@ == (match *self {
                RoleParseError::MissingValueArray { .. } =>
                    "unable to parse response: missing value array"@,
                RoleParseError::NoRoleName { .. } => "no role name"@,
                RoleParseError::NoScopeId { .. } => "no scope id"@,
                RoleParseError::NoRoleDefinitionId { .. } => "no role definition id"@,
            }),
    {
        match self {
            RoleParseError::MissingValueArray { .. } =>
                "unable to parse response: missing value array",
            RoleParseError::NoRoleName { .. } => "no role name",
            RoleParseError::NoScopeId { .. } => "no scope id",
            RoleParseError::NoRoleDefinitionId { .. } => "no role definition id",
        }
    }
}

/// Reads one entry of a listing of assignments.
pub fn parse_assignment(entry: &Json, with_principal: bool) -> (r: Result<
    RoleAssignment,
    RoleParseError,
>)
    ensures
        r matches Ok(a) ==> read_assignment(entry@, with_principal) == AssignmentReading::Found(a@),
        r matches Err(e) ==> e.reports(entry@, with_principal),
{
    let properties = step(Some(entry), "properties");
    let expanded = step(properties, "expandedProperties");
    let scope_node = step(expanded, "scope");
    let role = match text_here(step(step(expanded, "roleDefinition"), "displayName")) {
        Some(name) => Role(name),
        None => {
            return Err(RoleParseError::NoRoleName { entry: entry.duplicate() });
        },
    };
    let scope = match text_here(step(scope_node, "id")) {
        Some(path) => match Scope::new(path.as_str()) {
            Ok(scope) => scope,
            Err(_) => {
                return Err(RoleParseError::NoScopeId { entry: entry.duplicate() });
            },
        },
        None => {
            return Err(RoleParseError::NoScopeId { entry: entry.duplicate() });
        },
    };
    let scope_name = text_here(step(scope_node, "displayName"));
    let role_definition_id = match text_here(step(properties, "roleDefinitionId")) {
        Some(id) => id,
        None => {
            return Err(RoleParseError::NoRoleDefinitionId { entry: entry.duplicate() });
        },
    };
    let principal_id = if with_principal {
        text_here(step(properties, "principalId"))
    } else {
        None
    };
    let principal_type = if with_principal {
        text_here(step(properties, "principalType"))
    } else {
        None
    };
    Ok(
        RoleAssignment {
            role,
            scope,
            scope_name,
            role_definition_id,
            principal_id,
            principal_type,
            object: None,
        },
    )
}

impl RoleAssignment {
    /// Reads a listing of assignments: the set of the assignments that the
    /// items of its array `value` describe. The first entry that cannot be
    /// read makes the whole listing unreadable, and so does a missing array.
    pub fn parse(body: &Json, with_principal: bool) -> (r: Result<
        OrdSet<RoleAssignment>,
        RoleParseError,
    >)
        ensures
            items_of(field(body@, "value"@)) is None ==> (r matches Err(
                RoleParseError::MissingValueArray { body: b },
            ) && b@ == body@),
            items_of(field(body@, "value"@)) matches Some(entries) ==> {
                &&& r is Ok <==> forall|i: int|
                    0 <= i < entries.len() ==> read_assignment(
                        #[trigger] entries[i],
                        with_principal,
                    ) is Found
                &&& r matches Ok(set) ==> set@.to_set() == assignments_among(
                    entries,
                    with_principal,
                    entries.len() as int,
                ) && increasing::<RoleAssignment>(set@)
                &&& r matches Err(e) ==> exists|k: int|
                    0 <= k < entries.len() && e.reports(#[trigger] entries[k], with_principal)
                        && forall|j: int|
                        0 <= j < k ==> read_assignment(#[trigger] entries[j], with_principal) is Found
            },
    {
        let items = match step(Some(body), "value") {
            Some(inner) => match inner.as_array() {
                Some(items) => items,
                None => {
                    return Err(RoleParseError::MissingValueArray { body: body.duplicate() });
                },
            },
            None => {
                return Err(RoleParseError::MissingValueArray { body: body.duplicate() });
            },
        };
        let ghost entries = json_views(items@);
        let mut results: OrdSet<RoleAssignment> = OrdSet::new();
        let _ = results.len();
        assert(results@.to_set() =~= assignments_among(entries, with_principal, 0));
        let mut i: usize = 0;
        while i < items.len()
            invariant
                i <= items@.len(),
                entries == json_views(items@),
                items_of(field(body@, "value"@)) == Some(entries),
                forall|j: int|
                    0 <= j < i ==> read_assignment(#[trigger] entries[j], with_principal) is Found,
                results@.to_set() == assignments_among(entries, with_principal, i as int),
                increasing::<RoleAssignment>(results@),
            decreases items@.len() - i,
        {
            let ghost before = results@;
            assert(entries[i as int] == items@[i as int]@);
            match parse_assignment(&items[i], with_principal) {
                Err(e) => {
                    return Err(e);
                },
                Ok(found) => {
                    let ghost a = found@;
                    results.insert(found);
                    proof {
                        lemma_placed_members(before, a, results@);
                        assert(assignments_among(entries, with_principal, i + 1)
                            =~= assignments_among(entries, with_principal, i as int).insert(a));
                    }
                },
            }
            i += 1;
        }
        Ok(results)
    }
}

} // verus!
