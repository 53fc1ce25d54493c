//! Finding and describing assignments whose principal is gone, and the
//! roles that permit their removal.

use vstd::prelude::*;
use crate::models::assignments::Assignment;
use crate::models::definitions::{definition_index, find_definition, Definition};
use crate::graph::opt_view;
use crate::models::resources::{child_ids, ChildResource};
use crate::ordset::{increasing, lemma_placed_members, Keyed, OrdSet};
use crate::models::roles::{first_hit, folded_roles, opt_assignment_view, Role, RoleAssignment, RoleAssignmentView, RolesExt};
use crate::models::scope::{path_contains, path_subscription, Scope};
use crate::text::{lowercase, push_text, same_text, string_of};

verus! {

/// Whether a role permits the management of role assignments.
pub open spec fn admin_role(role: Seq<char>) -> bool {
    role == "Owner"@ || role == "Role Based Access Control Administrator"@
}

/// Whether a role permits the management of role assignments.
pub fn is_admin_role(role: &Role) -> (r: bool)
    ensures
        r == admin_role(role@),
{
    same_text(role.as_str(), "Owner") || same_text(
        role.as_str(),
        "Role Based Access Control Administrator",
    )
}

/// Whether an assignment permits the management of role assignments at `scope`.
pub open spec fn administers(a: RoleAssignmentView, scope: Seq<char>) -> bool {
    path_contains(a.scope, scope) && admin_role(a.role)
}

/// The first assignment of `s`, from `from` on, that permits the management
/// of role assignments at `scope`.
pub open spec fn first_admin(s: Seq<RoleAssignmentView>, scope: Seq<char>, from: int) -> Option<
    RoleAssignmentView,
>
    decreases s.len() - from,
{
    if from < 0 || from >= s.len() {
        None
    } else if administers(s[from], scope) {
        Some(s[from])
    } else {
        first_admin(s, scope, from + 1)
    }
}

/// Finds the first assignment of `set` that permits the management of role
/// assignments at `scope`.
pub fn find_admin(set: &OrdSet<RoleAssignment>, scope: &Scope) -> (r: Option<RoleAssignment>)
    ensures
        opt_assignment_view(r) == first_admin(set@, scope@, 0),
{
    let n = set.len();
    let mut i: usize = 0;
    while i < n
        invariant
            i <= n,
            n == set@.len(),
            first_admin(set@, scope@, 0) == first_admin(set@, scope@, i as int),
        decreases n - i,
    {
        let entry = set.get(i);
        if entry.scope.contains(scope) && is_admin_role(&entry.role) {
            return Some(entry.duplicate());
        }
        i += 1;
    }
    None
}

/// How the caller comes to administer role assignments at a scope.
#[derive(Debug, PartialEq, Eq)]
pub enum AdminPlan {
    /// A role that permits it is active.
    AlreadyActive(RoleAssignment),
    /// This eligible role permits it once it is activated.
    Activate(RoleAssignment),
    /// No role of the caller permits it.
    NotFound,
}

/// Decides how the caller comes to administer role assignments at `scope`:
/// by an active role where there is one, else by activating an eligible one.
pub fn plan_admin(
    active: &OrdSet<RoleAssignment>,
    eligible: &OrdSet<RoleAssignment>,
    scope: &Scope,
) -> (r: AdminPlan)
    ensures
        first_admin(active@, scope@, 0) matches Some(a) ==> (r matches AdminPlan::AlreadyActive(x)
            && x@ == a),
        first_admin(active@, scope@, 0) is None ==> match first_admin(eligible@, scope@, 0) {
            Some(a) => r matches AdminPlan::Activate(x) && x@ == a,
            None => r is NotFound,
        },
{
    match find_admin(active, scope) {
        Some(a) => AdminPlan::AlreadyActive(a),
        None => match find_admin(eligible, scope) {
            Some(a) => AdminPlan::Activate(a),
            None => AdminPlan::NotFound,
        },
    }
}

/// The message for a scope that the caller cannot administer.
pub fn no_admin_message(scope: &Scope) -> (r: String)
    ensures
        r@ == "unable to find role to administrate RBAC for "@ + scope@,
{
    let mut out: Vec<char> = Vec::new();
    push_text(&mut out, "unable to find role to administrate RBAC for ");
    push_text(&mut out, scope.as_str());
    string_of(&out)
}

/// The scopes to go through beneath `scope`: in a nested sweep the
/// resources found beneath it, else the scope itself.
pub fn scopes_to_sweep(scope: &Scope, nested: bool, children: &OrdSet<ChildResource>) -> (r: OrdSet<
    Scope,
>)
    ensures
        r@.to_set() == (if nested {
            child_ids(children@)
        } else {
            set![scope@]
        }),
        increasing::<Scope>(r@),
{
    let mut out: OrdSet<Scope> = OrdSet::new();
    let _ = out.len();
    if !nested {
        let ghost before = out@;
        out.insert(scope.clone());
        proof {
            lemma_placed_members(before, scope@, out@);
            assert(before.to_set() =~= Set::<Seq<char>>::empty());
            assert(out@.to_set() =~= set![scope@]);
        }
        return out;
    }
    let n = children.len();
    let mut i: usize = 0;
    assert(out@.to_set() =~= child_ids(children@.take(0)));
    while i < n
        invariant
            i <= n,
            n == children@.len(),
            out@.to_set() == child_ids(children@.take(i as int)),
            increasing::<Scope>(out@),
        decreases n - i,
    {
        let ghost before = out@;
        let ghost s = children@.take(i as int);
        let ghost t = children@.take(i + 1);
        out.insert(children.get(i).id.clone());
        proof {
            lemma_placed_members(before, children@[i as int].id, out@);
            assert(t[i as int] == children@[i as int]);
            assert forall|x: Seq<char>|
                child_ids(t).contains(x) <==> child_ids(s).contains(x) || children@[i as int].id
                    == x by {
                if child_ids(t).contains(x) {
                    let k = choose|k: int| 0 <= k < t.len() && (#[trigger] t[k]).id == x;
                    if k < i {
                        assert(s[k] == t[k]);
                    }
                }
                if child_ids(s).contains(x) {
                    let k = choose|k: int| 0 <= k < s.len() && (#[trigger] s[k]).id == x;
                    assert(t[k] == s[k]);
                }
            }
            assert(out@.to_set() =~= child_ids(t));
        }
        i += 1;
    }
    assert(children@.take(n as int) == children@);
    out
}

/// Keeps of `list` the assignments whose principal is not in the directory.
pub fn retain_orphaned(list: &mut Vec<Assignment>)
    ensures
        final(list)@ == old(list)@.filter(|a: Assignment| a.orphaned()),
{
    let ghost orig = list@;
    let ghost keep = |a: Assignment| a.orphaned();
    let ghost mut done: int = 0;
    let mut i: usize = 0;
    proof {
        reveal(Seq::filter);
        assert(orig.take(0).filter(keep) =~= Seq::<Assignment>::empty());
        assert(orig.skip(0) =~= orig);
        assert(list@.take(0) =~= Seq::<Assignment>::empty());
    }
    while i < list.len()
        invariant
            orig == old(list)@,
            keep == (|a: Assignment| a.orphaned()),
            0 <= done <= orig.len(),
            i <= list@.len(),
            list@.take(i as int) == orig.take(done).filter(keep),
            list@.skip(i as int) == orig.skip(done),
        decreases list@.len() - i,
    {
        let ghost before = list@;
        proof {
            assert(before.skip(i as int).len() == orig.skip(done).len());
            assert(done < orig.len());
            assert(before.skip(i as int)[0] == before[i as int]);
            assert(orig.skip(done)[0] == orig[done]);
            let t = orig.take(done + 1);
            assert(t.drop_last() == orig.take(done));
            assert(t.last() == orig[done]);
            reveal(Seq::filter);
            assert(t.filter(keep) == if keep(orig[done]) {
                orig.take(done).filter(keep).push(orig[done])
            } else {
                orig.take(done).filter(keep)
            });
        }
        if list[i].is_orphaned() {
            proof {
                assert(before.take(i + 1) =~= before.take(i as int).push(before[i as int]));
                assert(before.skip(i + 1) =~= orig.skip(done + 1)) by {
                    assert(before.skip(i + 1) =~= before.skip(i as int).drop_first());
                    assert(orig.skip(done + 1) =~= orig.skip(done).drop_first());
                }
                done = done + 1;
            }
            i += 1;
        } else {
            list.remove(i);
            proof {
                assert(list@.take(i as int) =~= before.take(i as int));
                assert(list@.skip(i as int) =~= before.skip(i as int).drop_first());
                assert(orig.skip(done + 1) =~= orig.skip(done).drop_first());
                done = done + 1;
            }
        }
    }
    proof {
        assert(list@.take(list@.len() as int) == list@);
        assert(orig.skip(done).len() == 0);
        assert(orig.take(done) == orig);
    }
}

/// The assignments of `s`, up to position `n`, whose principal is not in
/// the directory.
pub open spec fn orphans_among(s: Seq<RoleAssignmentView>, n: int) -> Seq<RoleAssignmentView> {
    s.take(n).filter(|a: RoleAssignmentView| a.object is None)
}

/// The eligible assignments of `set` whose principal is not in the
/// directory, in order.
pub fn orphaned_eligible(set: &OrdSet<RoleAssignment>) -> (r: Vec<RoleAssignment>)
    ensures
        Seq::new(r@.len(), |i: int| r@[i]@) == orphans_among(set@, set@.len() as int),
{
    let n = set.len();
    let mut out: Vec<RoleAssignment> = Vec::new();
    let mut i: usize = 0;
    proof {
        reveal(Seq::filter);
        assert(set@.take(0).filter(|a: RoleAssignmentView| a.object is None) =~= Seq::<
            RoleAssignmentView,
        >::empty());
        assert(Seq::new(out@.len(), |i: int| out@[i]@) =~= Seq::<RoleAssignmentView>::empty());
    }
    while i < n
        invariant
            i <= n,
            n == set@.len(),
            Seq::new(out@.len(), |k: int| out@[k]@) == orphans_among(set@, i as int),
        decreases n - i,
    {
        let entry = set.get(i);
        let ghost so_far = orphans_among(set@, i as int);
        proof {
            let keep = |a: RoleAssignmentView| a.object is None;
            let t = set@.take(i + 1);
            assert(t.drop_last() == set@.take(i as int));
            assert(t.last() == set@[i as int]);
            reveal(Seq::filter);
            assert(t.filter(keep) == if keep(set@[i as int]) {
                so_far.push(set@[i as int])
            } else {
                so_far
            });
        }
        if entry.object.is_none() {
            out.push(entry.duplicate());
            assert(Seq::new(out@.len(), |k: int| out@[k]@) =~= so_far.push(set@[i as int]));
        }
        i += 1;
    }
    out
}

/// The line that describes an entry to the operator before it is deleted.
pub open spec fn description(
    role: Seq<char>,
    principal: Seq<char>,
    kind: Seq<char>,
    scope: Seq<char>,
) -> Seq<char> {
    "role:\""@ + role + "\" principal:"@ + principal + " (type: "@ + kind + ") scope:"@ + scope
}

fn describe(role: &str, principal: &str, kind: &str, scope: &str) -> (r: String)
    ensures
        r@ == description(role@, principal@, kind@, scope@),
{
    let mut out: Vec<char> = Vec::new();
    push_text(&mut out, "role:\"");
    push_text(&mut out, role);
    push_text(&mut out, "\" principal:");
    push_text(&mut out, principal);
    push_text(&mut out, " (type: ");
    push_text(&mut out, kind);
    push_text(&mut out, ") scope:");
    push_text(&mut out, scope);
    string_of(&out)
}

/// The name of the role with identifier `id`: that of the first definition
/// with this identifier, or `fallback` where there is none.
pub open spec fn role_name(defs: Seq<Definition>, id: Seq<char>, fallback: Seq<char>) -> Seq<char> {
    match definition_index(defs, id, 0) {
        Some(i) => defs[i].properties.role_name@,
        None => fallback,
    }
}

/// Describes a plain assignment: by the name of its role, or its own name
/// where the role is not among `definitions`.
pub fn describe_assignment(entry: &Assignment, definitions: &Vec<Definition>) -> (r: String)
    ensures
        r@ == description(
            role_name(definitions@, entry.properties.role_definition_id@, entry.name@),
            entry.properties.principal_id@,
            entry.properties.principal_type@,
            entry.properties.scope@,
        ),
{
    let role = match find_definition(definitions, entry.properties.role_definition_id.as_str()) {
        Some(d) => d.properties.role_name.as_str(),
        None => entry.name.as_str(),
    };
    describe(
        role,
        entry.properties.principal_id.as_str(),
        entry.properties.principal_type.as_str(),
        entry.properties.scope.as_str(),
    )
}

/// The text of an optional text, empty where there is none.
pub open spec fn or_empty(o: Option<Seq<char>>) -> Seq<char> {
    match o {
        Some(s) => s,
        None => Seq::<char>::empty(),
    }
}

/// Describes an eligible assignment: by the name of its role, or the
/// identifier of its definition where that is not among `definitions`, and
/// by the name of its scope where it has one.
pub fn describe_eligible(entry: &RoleAssignment, definitions: &Vec<Definition>) -> (r: String)
    ensures
        r@ == description(
            role_name(definitions@, entry.role_definition_id@, entry.role_definition_id@),
            or_empty(opt_view(entry.principal_id)),
            or_empty(opt_view(entry.principal_type)),
            match entry.scope_name {
                Some(name) => name@,
                None => entry.scope@,
            },
        ),
{
    let role = match find_definition(definitions, entry.role_definition_id.as_str()) {
        Some(d) => d.properties.role_name.as_str(),
        None => entry.role_definition_id.as_str(),
    };
    let principal = match &entry.principal_id {
        Some(s) => s.as_str(),
        None => "",
    };
    let kind = match &entry.principal_type {
        Some(s) => s.as_str(),
        None => "",
    };
    let scope = match &entry.scope_name {
        Some(s) => s.as_str(),
        None => entry.scope.as_str(),
    };
    proof {
        reveal_strlit("");
        assert(""@ =~= Seq::<char>::empty());
    }
    describe(role, principal, kind, scope)
}

/// Whether an entry is deleted: always where the operator said yes to all,
/// else where the operator confirms.
pub fn should_delete(answer_yes: bool, confirmed: bool) -> (r: bool)
    ensures
        r == (answer_yes || confirmed),
{
    answer_yes || confirmed
}

/// What an answer to a question means: yes for `y`, no for `n`, in either
/// letter case and with white space around it, and nothing for anything else.
pub open spec fn answer_of(input: Seq<char>) -> Option<bool> {
    let word = lowercase(crate::text::trimmed(input));
    if word == "y"@ {
        Some(true)
    } else if word == "n"@ {
        Some(false)
    } else {
        None
    }
}

/// What a trimmed and folded answer means.
pub fn answer_from_word(word: &str) -> (r: Option<bool>)
    ensures
        r == (if word@ == "y"@ {
            Some(true)
        } else if word@ == "n"@ {
            Some(false)
        } else {
            None
        }),
{
    if same_text(word, "y") {
        Some(true)
    } else if same_text(word, "n") {
        Some(false)
    } else {
        None
    }
}

/// Reads the operator's answer to a question.
pub fn read_answer(input: &str) -> (r: Option<bool>)
    ensures
        r == answer_of(input@),
{
    let word = crate::text::to_lowercase(crate::text::trim(input).as_str());
    answer_from_word(word.as_str())
}

/// A role at a scope that the operator asked for and the service does not list.
#[derive(Debug, PartialEq, Eq)]
pub struct RoleNotFound {
    pub role: Role,
    pub scope: Scope,
}

impl RoleNotFound {
    /// The message shown to the operator.
    pub fn message(&self) -> (r: String)
        ensures
            r@ == "role not found.  role:"@ + self.role@ + " scope:"@ + self.scope@,
    {
        let mut out: Vec<char> = Vec::new();
        push_text(&mut out, "role not found.  role:");
        push_text(&mut out, self.role.as_str());
        push_text(&mut out, " scope:");
        push_text(&mut out, self.scope.as_str());
        string_of(&out)
    }
}

/// What the lookup of one wanted pair finds in `s`.
pub open spec fn wanted_hit(s: Seq<RoleAssignmentView>, pair: (Role, Scope)) -> Option<
    RoleAssignmentView,
> {
    first_hit(s, folded_roles(s), lowercase(pair.0@), pair.1@, 0)
}

/// The assignments found for the first `n` wanted pairs.
pub open spec fn selected(s: Seq<RoleAssignmentView>, wanted: Seq<(Role, Scope)>, n: int) -> Set<
    RoleAssignmentView,
> {
    Set::new(
        |a: RoleAssignmentView|
            exists|i: int| 0 <= i < n && wanted_hit(s, #[trigger] wanted[i]) == Some(a),
    )
}

/// Picks from `assignments` the assignment for each wanted pair of role and
/// scope. The first pair for which there is none makes the selection fail.
pub fn select_roles(assignments: &OrdSet<RoleAssignment>, wanted: &Vec<(Role, Scope)>) -> (r: Result<
    OrdSet<RoleAssignment>,
    RoleNotFound,
>)
    ensures
        r is Ok <==> forall|i: int|
            0 <= i < wanted@.len() ==> wanted_hit(assignments@, #[trigger] wanted@[i]) is Some,
        r matches Ok(set) ==> set@.to_set() == selected(
            assignments@,
            wanted@,
            wanted@.len() as int,
        ) && increasing::<RoleAssignment>(set@),
        r matches Err(e) ==> exists|k: int|
            0 <= k < wanted@.len() && e.role@ == (#[trigger] wanted@[k]).0@ && e.scope@
                == wanted@[k].1@ && wanted_hit(assignments@, wanted@[k]) is None && forall|j: int|
                0 <= j < k ==> wanted_hit(assignments@, #[trigger] wanted@[j]) is Some,
{
    let mut out: OrdSet<RoleAssignment> = OrdSet::new();
    let _ = out.len();
    let mut i: usize = 0;
    assert(out@.to_set() =~= selected(assignments@, wanted@, 0));
    while i < wanted.len()
        invariant
            i <= wanted@.len(),
            forall|j: int| 0 <= j < i ==> wanted_hit(assignments@, #[trigger] wanted@[j]) is Some,
            out@.to_set() == selected(assignments@, wanted@, i as int),
            increasing::<RoleAssignment>(out@),
        decreases wanted@.len() - i,
    {
        let ghost before = out@;
        match assignments.find_role(&wanted[i].0, &wanted[i].1) {
            Some(entry) => {
                let ghost e = entry@;
                out.insert(entry);
                proof {
                    lemma_placed_members(before, e, out@);
                    assert(selected(assignments@, wanted@, i + 1) =~= selected(
                        assignments@,
                        wanted@,
                        i as int,
                    ).insert(e));
                }
            },
            None => {
                return Err(
                    RoleNotFound {
                        role: Role(wanted[i].0.0.clone()),
                        scope: wanted[i].1.clone(),
                    },
                );
            },
        }
        i += 1;
    }
    Ok(out)
}

/// Whether an assignment counts for a sweep of all subscriptions: it lies
/// in a subscription and permits the management of role assignments.
pub open spec fn sweepable(a: RoleAssignmentView) -> bool {
    path_subscription(a.scope) is Some && admin_role(a.role)
}

/// What a sweep of all subscriptions has to do first and where it goes.
pub struct SweepPlan {
    /// The roles to activate before anything is deleted.
    pub to_activate: OrdSet<RoleAssignment>,
    /// The scopes to sweep.
    pub scopes: OrdSet<Scope>,
}

/// The assignments, among the first `n` of `total`, to activate for a sweep.
pub open spec fn sweep_activations(
    total: Seq<RoleAssignmentView>,
    active: Seq<RoleAssignmentView>,
    n: int,
) -> Set<RoleAssignmentView> {
    Set::new(
        |a: RoleAssignmentView|
            exists|i: int|
                0 <= i < n && (#[trigger] total[i]) == a && sweepable(a) && !active.contains(a),
    )
}

/// The scopes, among the first `n` of `total`, to sweep.
pub open spec fn sweep_scopes(total: Seq<RoleAssignmentView>, n: int) -> Set<Seq<char>> {
    Set::new(
        |s: Seq<char>|
            exists|i: int| 0 <= i < n && sweepable(#[trigger] total[i]) && total[i].scope == s,
    )
}

/// Plans a sweep of all subscriptions from the roles of the caller, active
/// and eligible together in `total`: every role that lies in a subscription
/// and permits the management of assignments gives a scope to sweep, and is
/// to be activated unless it is active.
pub fn plan_sweep(total: &OrdSet<RoleAssignment>, active: &OrdSet<RoleAssignment>) -> (r: SweepPlan)
    ensures
        r.to_activate@.to_set() == sweep_activations(total@, active@, total@.len() as int),
        r.scopes@.to_set() == sweep_scopes(total@, total@.len() as int),
        increasing::<RoleAssignment>(r.to_activate@),
        increasing::<Scope>(r.scopes@),
{
    let n = total.len();
    let mut to_activate: OrdSet<RoleAssignment> = OrdSet::new();
    let mut scopes: OrdSet<Scope> = OrdSet::new();
    let _ = to_activate.len();
    let _ = scopes.len();
    let mut i: usize = 0;
    assert(to_activate@.to_set() =~= sweep_activations(total@, active@, 0));
    assert(scopes@.to_set() =~= sweep_scopes(total@, 0));
    while i < n
        invariant
            i <= n,
            n == total@.len(),
            to_activate@.to_set() == sweep_activations(total@, active@, i as int),
            scopes@.to_set() == sweep_scopes(total@, i as int),
            increasing::<RoleAssignment>(to_activate@),
            increasing::<Scope>(scopes@),
        decreases n - i,
    {
        let entry = total.get(i);
        let ghost a = entry@;
        let ghost act0 = to_activate@;
        let ghost sc0 = scopes@;
        if entry.scope.subscription().is_some() && is_admin_role(&entry.role) {
            if !active.contains(entry) {
                to_activate.insert(entry.duplicate());
                proof {
                    lemma_placed_members(act0, a, to_activate@);
                    assert(sweep_activations(total@, active@, i + 1) =~= sweep_activations(
                        total@,
                        active@,
                        i as int,
                    ).insert(a));
                }
            } else {
                assert(sweep_activations(total@, active@, i + 1) =~= sweep_activations(
                    total@,
                    active@,
                    i as int,
                ));
            }
            scopes.insert(entry.scope.clone());
            proof {
                lemma_placed_members(sc0, a.scope, scopes@);
                assert(sweep_scopes(total@, i + 1) =~= sweep_scopes(total@, i as int).insert(
                    a.scope,
                ));
            }
        } else {
            assert(sweep_activations(total@, active@, i + 1) =~= sweep_activations(
                total@,
                active@,
                i as int,
            ));
            assert(sweep_scopes(total@, i + 1) =~= sweep_scopes(total@, i as int));
        }
        i += 1;
    }
    SweepPlan { to_activate, scopes }
}

} // verus!
