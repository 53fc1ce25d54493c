//! Grants across nested scopes: a grant at a scope makes the same grant at
//! a scope beneath it redundant.

use vstd::prelude::*;
use crate::graph::{copy_opt, opt_view, Object, ObjectView, PrincipalType};
use crate::order::{lemma_join_assoc, lemma_opt_text_key_splits, lemma_text_key_splits, opt_text_key,
    push_opt_text_key, push_text_key, text_key};
use crate::ordset::{increasing, lemma_placed_members, Keyed, OrdSet};
use crate::models::roles::{Role, RoleAssignment, RoleAssignmentView};
use crate::models::scope::{path_contains, path_is_subscription, Scope};
use crate::text::same_text;

verus! {

/// A role that a principal holds at a scope, directly or through a group.
#[derive(Debug, Clone, PartialEq, Eq)]
pub struct Entry {
    pub role: Role,
    pub scope: Scope,
    pub id: String,
    pub display_name: String,
    pub upn: Option<String>,
    pub principal_type: PrincipalType,
    pub via_group: Option<String>,
}

/// The mathematical value of an entry.
pub struct EntryView {
    pub role: Seq<char>,
    pub scope: Seq<char>,
    pub id: Seq<char>,
    pub display_name: Seq<char>,
    pub upn: Option<Seq<char>>,
    pub principal_type: PrincipalType,
    pub via_group: Option<Seq<char>>,
}

impl View for Entry {
    type V = EntryView;

    open spec fn view(&self) -> EntryView {
        EntryView {
            role: self.role@,
            scope: self.scope@,
            id: self.id@,
            display_name: self.display_name@,
            upn: opt_view(self.upn),
            principal_type: self.principal_type,
            via_group: opt_view(self.via_group),
        }
    }
}

/// The later part of an entry's sort key: principal name, kind and group.
pub open spec fn entry_key_tail(e: EntryView) -> Seq<u32> {
    opt_text_key(e.upn) + (seq![e.principal_type.rank()] + opt_text_key(e.via_group))
}

/// The sort key of an entry: by role, then scope, then principal, then the
/// remaining fields.
pub open spec fn entry_key(e: EntryView) -> Seq<u32> {
    text_key(e.role) + (text_key(e.scope) + (text_key(e.id) + (text_key(e.display_name)
        + entry_key_tail(e))))
}

/// An entry's key tells the entry.
pub proof fn lemma_entry_key_tells(a: EntryView, b: EntryView)
    requires
        entry_key(a) == entry_key(b),
    ensures
        a == b,
{
    lemma_text_key_splits(
        a.role,
        text_key(a.scope) + (text_key(a.id) + (text_key(a.display_name) + entry_key_tail(a))),
        b.role,
        text_key(b.scope) + (text_key(b.id) + (text_key(b.display_name) + entry_key_tail(b))),
    );
    lemma_text_key_splits(
        a.scope,
        text_key(a.id) + (text_key(a.display_name) + entry_key_tail(a)),
        b.scope,
        text_key(b.id) + (text_key(b.display_name) + entry_key_tail(b)),
    );
    lemma_text_key_splits(
        a.id,
        text_key(a.display_name) + entry_key_tail(a),
        b.id,
        text_key(b.display_name) + entry_key_tail(b),
    );
    lemma_text_key_splits(a.display_name, entry_key_tail(a), b.display_name, entry_key_tail(b));
    let ra = seq![a.principal_type.rank()] + opt_text_key(a.via_group);
    let rb = seq![b.principal_type.rank()] + opt_text_key(b.via_group);
    lemma_opt_text_key_splits(a.upn, ra, b.upn, rb);
    assert(ra[0] == rb[0]);
    assert(ra.skip(1) =~= opt_text_key(a.via_group));
    assert(rb.skip(1) =~= opt_text_key(b.via_group));
    assert(opt_text_key(a.via_group) + Seq::<u32>::empty() =~= opt_text_key(a.via_group));
    assert(opt_text_key(b.via_group) + Seq::<u32>::empty() =~= opt_text_key(b.via_group));
    lemma_opt_text_key_splits(a.via_group, Seq::<u32>::empty(), b.via_group, Seq::<u32>::empty());
}

impl Keyed for Entry {
    open spec fn key_of(v: EntryView) -> Seq<u32> {
        entry_key(v)
    }

    proof fn lemma_key_tells(a: EntryView, b: EntryView) {
        lemma_entry_key_tells(a, b);
    }

    fn key(&self) -> (r: Vec<u32>) {
        let mut out: Vec<u32> = Vec::new();
        let ghost v = self@;
        let ghost k1 = text_key(v.role);
        let ghost k2 = text_key(v.scope);
        let ghost k3 = text_key(v.id);
        let ghost k4 = text_key(v.display_name);
        let ghost k5 = opt_text_key(v.upn);
        let ghost k6 = seq![v.principal_type.rank()];
        let ghost k7 = opt_text_key(v.via_group);
        push_text_key(&mut out, self.role.as_str());
        assert(out@ =~= k1);
        push_text_key(&mut out, self.scope.as_str());
        push_text_key(&mut out, self.id.as_str());
        push_text_key(&mut out, self.display_name.as_str());
        push_opt_text_key(&mut out, &self.upn);
        let ghost head = out@;
        out.push(self.principal_type.rank_of());
        assert(out@ =~= head + k6);
        push_opt_text_key(&mut out, &self.via_group);
        proof {
            assert(out@ == (((((k1 + k2) + k3) + k4) + k5) + k6) + k7);
            lemma_join_assoc((((k1 + k2) + k3) + k4) + k5, k6, k7);
            lemma_join_assoc(((k1 + k2) + k3) + k4, k5, k6 + k7);
            lemma_join_assoc((k1 + k2) + k3, k4, k5 + (k6 + k7));
            lemma_join_assoc(k1 + k2, k3, k4 + (k5 + (k6 + k7)));
            lemma_join_assoc(k1, k2, k3 + (k4 + (k5 + (k6 + k7))));
        }
        out
    }

    fn duplicate(&self) -> (r: Self) {
        Entry {
            role: Role(self.role.0.clone()),
            scope: self.scope.clone(),
            id: self.id.clone(),
            display_name: self.display_name.clone(),
            upn: copy_opt(&self.upn),
            principal_type: self.principal_type,
            via_group: copy_opt(&self.via_group),
        }
    }
}

/// Whether `other` makes `e` redundant: the same principal holds the same
/// role at a scope that contains the scope of `e`.
pub open spec fn dominated(e: EntryView, other: EntryView) -> bool {
    e.id == other.id && e.role == other.role && path_contains(other.scope, e.scope)
}

impl Entry {
    /// Whether `other` makes this entry redundant.
    pub fn is_dominated(&self, other: &Entry) -> (r: bool)
        ensures
            r == dominated(self@, other@),
    {
        same_text(self.id.as_str(), other.id.as_str()) && same_text(
            self.role.as_str(),
            other.role.as_str(),
        ) && other.scope.contains(&self.scope)
    }
}

/// Whether some entry of `s` makes `e` redundant.
pub open spec fn dominated_by_some(e: EntryView, s: Set<EntryView>) -> bool {
    exists|x: EntryView| s.contains(x) && #[trigger] dominated(e, x)
}

/// What is left when the entries of `rest` are added to `base` one after
/// the other, each unless an entry that is there makes it redundant.
pub open spec fn survivors(base: Set<EntryView>, rest: Seq<EntryView>) -> Set<EntryView>
    decreases rest.len(),
{
    if rest.len() == 0 {
        base
    } else {
        let before = survivors(base, rest.drop_last());
        if dominated_by_some(rest.last(), before) {
            before
        } else {
            before.insert(rest.last())
        }
    }
}

/// The entries of `data` at subscriptions.
pub open spec fn at_subscriptions(data: Seq<EntryView>) -> Seq<EntryView> {
    data.filter(|e: EntryView| path_is_subscription(e.scope))
}

/// The entries of `data` beneath subscriptions, in order.
pub open spec fn beneath_subscriptions(data: Seq<EntryView>) -> Seq<EntryView> {
    data.filter(|e: EntryView| !path_is_subscription(e.scope))
}

/// Whether some entry of `set` makes `entry` redundant.
fn any_dominates(set: &OrdSet<Entry>, entry: &Entry) -> (r: bool)
    ensures
        r == dominated_by_some(entry@, set@.to_set()),
{
    let n = set.len();
    let mut i: usize = 0;
    while i < n
        invariant
            i <= n,
            n == set@.len(),
            forall|j: int| 0 <= j < i ==> !dominated(entry@, #[trigger] set@[j]),
        decreases n - i,
    {
        if entry.is_dominated(set.get(i)) {
            assert(set@.to_set().contains(set@[i as int]));
            return true;
        }
        i += 1;
    }
    proof {
        if dominated_by_some(entry@, set@.to_set()) {
            let x = choose|x: EntryView| set@.to_set().contains(x) && #[trigger] dominated(entry@, x);
            let j = choose|j: int| 0 <= j < set@.len() && set@[j] == x;
            assert(!dominated(entry@, set@[j]));
        }
    }
    false
}

/// Removes the entries that are redundant. Entries at subscriptions all
/// stay. The others are taken in order, and one stays unless an entry that
/// stays already makes it redundant.
pub fn remove_dominated_scopes(data: &OrdSet<Entry>) -> (r: OrdSet<Entry>)
    ensures
        r@.to_set() == survivors(at_subscriptions(data@).to_set(), beneath_subscriptions(data@)),
        increasing::<Entry>(r@),
{
    let n = data.len();
    let ghost is_sub = |e: EntryView| path_is_subscription(e.scope);
    let ghost not_sub = |e: EntryView| !path_is_subscription(e.scope);
    let mut results: OrdSet<Entry> = OrdSet::new();
    let mut rest: Vec<Entry> = Vec::new();
    let _ = results.len();
    let mut i: usize = 0;
    proof {
        reveal(Seq::filter);
        assert(data@.take(0).filter(is_sub) =~= Seq::<EntryView>::empty());
        assert(data@.take(0).filter(not_sub) =~= Seq::<EntryView>::empty());
        assert(results@.to_set() =~= Seq::<EntryView>::empty().to_set());
    }
    while i < n
        invariant
            i <= n,
            n == data@.len(),
            is_sub == (|e: EntryView| path_is_subscription(e.scope)),
            not_sub == (|e: EntryView| !path_is_subscription(e.scope)),
            results@.to_set() == data@.take(i as int).filter(is_sub).to_set(),
            Seq::new(rest@.len(), |k: int| rest@[k]@) == data@.take(i as int).filter(not_sub),
            increasing::<Entry>(results@),
        decreases n - i,
    {
        let entry = data.get(i);
        let ghost subs = data@.take(i as int).filter(is_sub);
        let ghost others = data@.take(i as int).filter(not_sub);
        proof {
            let t = data@.take(i + 1);
            assert(t.drop_last() == data@.take(i as int));
            assert(t.last() == data@[i as int]);
            reveal(Seq::filter);
            assert(t.filter(is_sub) == if is_sub(data@[i as int]) {
                subs.push(data@[i as int])
            } else {
                subs
            });
            assert(t.filter(not_sub) == if not_sub(data@[i as int]) {
                others.push(data@[i as int])
            } else {
                others
            });
        }
        if entry.scope.is_subscription() {
            let ghost before = results@;
            results.insert(entry.duplicate());
            proof {
                lemma_placed_members(before, entry@, results@);
                assert(subs.push(entry@).to_set() =~= subs.to_set().insert(entry@)) by {
                    assert forall|x: EntryView|
                        subs.push(entry@).to_set().contains(x) <==> subs.to_set().insert(
                            entry@,
                        ).contains(x) by {
                        let p = subs.push(entry@);
                        if p.contains(x) {
                            let k = choose|k: int| 0 <= k < p.len() && p[k] == x;
                            if k < subs.len() {
                                assert(subs[k] == x);
                            }
                        }
                        if subs.contains(x) {
                            let k = choose|k: int| 0 <= k < subs.len() && subs[k] == x;
                            assert(p[k] == x);
                        }
                        if x == entry@ {
                            assert(p[subs.len() as int] == x);
                        }
                    }
                }
            }
        } else {
            rest.push(entry.duplicate());
            assert(Seq::new(rest@.len(), |k: int| rest@[k]@) =~= others.push(entry@));
        }
        i += 1;
    }
    assert(data@.take(n as int) == data@);
    let ghost base = at_subscriptions(data@).to_set();
    let ghost later = beneath_subscriptions(data@);
    let mut k: usize = 0;
    assert(later.take(0) =~= Seq::<EntryView>::empty());
    while k < rest.len()
        invariant
            k <= rest@.len(),
            later == Seq::new(rest@.len(), |j: int| rest@[j]@),
            results@.to_set() == survivors(base, later.take(k as int)),
            increasing::<Entry>(results@),
        decreases rest@.len() - k,
    {
        proof {
            let t = later.take(k + 1);
            assert(t.drop_last() == later.take(k as int));
            assert(t.last() == rest@[k as int]@);
        }
        if !any_dominates(&results, &rest[k]) {
            let ghost before = results@;
            results.insert(rest[k].duplicate());
            proof {
                lemma_placed_members(before, rest@[k as int]@, results@);
            }
        }
        k += 1;
    }
    assert(later.take(rest@.len() as int) == later);
    results
}

proof fn lemma_filter_no_duplicates(s: Seq<EntryView>, p: spec_fn(EntryView) -> bool)
    requires
        s.no_duplicates(),
    ensures
        s.filter(p).no_duplicates(),
    decreases s.len(),
{
    reveal(Seq::filter);
    if s.len() > 0 {
        let front = s.drop_last();
        assert(front.no_duplicates()) by {
            assert forall|i: int, j: int|
                0 <= i < front.len() && 0 <= j < front.len() && i != j implies front[i]
                != front[j] by {
                assert(front[i] == s[i]);
                assert(front[j] == s[j]);
            }
        }
        lemma_filter_no_duplicates(front, p);
        if p(s.last()) {
            let f = front.filter(p);
            if f.contains(s.last()) {
                front.lemma_filter_contains_rev(p, s.last());
                let j = choose|j: int| 0 <= j < front.len() && front[j] == s.last();
                assert(s[j] == s[s.len() - 1]);
            }
            assert(s.filter(p) == f.push(s.last()));
        }
    }
}

/// What is left is what the rule says: nothing is added, the entries of
/// `base` all stay, and each entry of `rest` that is gone is made redundant
/// by an entry that stays.
pub proof fn lemma_survivors(base: Set<EntryView>, rest: Seq<EntryView>)
    ensures
        forall|x: EntryView| #[trigger]
            survivors(base, rest).contains(x) ==> base.contains(x) || rest.contains(x),
        forall|x: EntryView| base.contains(x) ==> #[trigger] survivors(base, rest).contains(x),
        forall|i: int|
            0 <= i < rest.len() && !survivors(base, rest).contains(#[trigger] rest[i])
                ==> dominated_by_some(rest[i], survivors(base, rest)),
    decreases rest.len(),
{
    if rest.len() > 0 {
        let front = rest.drop_last();
        let before = survivors(base, front);
        let after = survivors(base, rest);
        lemma_survivors(base, front);
        assert forall|x: EntryView| #[trigger] after.contains(x) implies base.contains(x)
            || rest.contains(x) by {
            if before.contains(x) {
                if front.contains(x) {
                    let j = choose|j: int| 0 <= j < front.len() && front[j] == x;
                    assert(rest[j] == x);
                }
            } else {
                assert(rest[rest.len() - 1] == x);
            }
        }
        assert forall|i: int|
            0 <= i < rest.len() && !after.contains(#[trigger] rest[i]) implies dominated_by_some(
            rest[i],
            after,
        ) by {
            if i < front.len() {
                assert(front[i] == rest[i]);
                let y = choose|y: EntryView| before.contains(y) && #[trigger] dominated(rest[i], y);
                assert(after.contains(y));
            } else {
                let y = choose|y: EntryView|
                    before.contains(y) && #[trigger] dominated(rest.last(), y);
                assert(after.contains(y));
            }
        }
    }
}

proof fn lemma_dominated_dropped(base: Set<EntryView>, rest: Seq<EntryView>, a: EntryView, b: EntryView)
    requires
        base.contains(a),
        !base.contains(b),
        dominated(b, a),
        rest.no_duplicates(),
    ensures
        !survivors(base, rest).contains(b),
    decreases rest.len(),
{
    if rest.len() > 0 {
        let front = rest.drop_last();
        assert(front.no_duplicates()) by {
            assert forall|i: int, j: int|
                0 <= i < front.len() && 0 <= j < front.len() && i != j implies front[i]
                != front[j] by {
                assert(front[i] == rest[i]);
                assert(front[j] == rest[j]);
            }
        }
        lemma_dominated_dropped(base, front, a, b);
        if rest.last() == b {
            lemma_survivors(base, front);
        }
    }
}

/// Where a principal holds a role at a subscription and holds the same role
/// at a scope beneath it that is no subscription, the entry at the
/// subscription stays and the entry beneath it goes.
pub proof fn lemma_subscription_dominates(data: Seq<EntryView>, a: EntryView, b: EntryView)
    requires
        data.no_duplicates(),
        data.contains(a),
        data.contains(b),
        path_is_subscription(a.scope),
        !path_is_subscription(b.scope),
        dominated(b, a),
    ensures
        survivors(at_subscriptions(data).to_set(), beneath_subscriptions(data)).contains(a),
        !survivors(at_subscriptions(data).to_set(), beneath_subscriptions(data)).contains(b),
{
    let is_sub = |e: EntryView| path_is_subscription(e.scope);
    let not_sub = |e: EntryView| !path_is_subscription(e.scope);
    let base = at_subscriptions(data).to_set();
    let rest = beneath_subscriptions(data);
    let i = choose|i: int| 0 <= i < data.len() && data[i] == a;
    data.lemma_filter_contains(is_sub, i);
    assert(base.contains(a));
    if base.contains(b) {
        let j = choose|j: int|
            0 <= j < data.filter(is_sub).len() && data.filter(is_sub)[j] == b;
        data.lemma_filter_pred(is_sub, j);
    }
    lemma_filter_no_duplicates(data, not_sub);
    lemma_survivors(base, rest);
    lemma_dominated_dropped(base, rest, a, b);
}

/// The entry for a principal found behind a role at a scope.
pub fn entry_for(role: &Role, scope: &Scope, object: &Object, via_group: Option<
    &str,
>) -> (r: Entry)
    ensures
        r@ == (EntryView {
            role: role@,
            scope: scope@,
            id: object.id@,
            display_name: object.display_name@,
            upn: opt_view(object.upn),
            principal_type: object.object_type,
            via_group: match via_group {
                Some(g) => Some(g@),
                None => None,
            },
        }),
{
    Entry {
        role: Role(role.0.clone()),
        scope: scope.clone(),
        id: object.id.clone(),
        display_name: object.display_name.clone(),
        upn: copy_opt(&object.upn),
        principal_type: object.object_type,
        via_group: match via_group {
            Some(g) => Some(g.to_string()),
            None => None,
        },
    }
}

/// The entries that the first `n` assignments of `s` give at `scope`: one
/// for each assignment whose principal is in the directory.
pub open spec fn entries_at(scope: Seq<char>, s: Seq<RoleAssignmentView>, n: int) -> Set<EntryView> {
    Set::new(
        |e: EntryView|
            exists|i: int|
                0 <= i < n && (#[trigger] s[i]).object is Some && e == (EntryView {
                    role: s[i].role,
                    scope: scope,
                    id: s[i].object->Some_0.id,
                    display_name: s[i].object->Some_0.display_name,
                    upn: s[i].object->Some_0.upn,
                    principal_type: s[i].object->Some_0.object_type,
                    via_group: None,
                }),
    )
}

/// Adds to `into` an entry at `scope` for each of `assignments` whose
/// principal is in the directory.
pub fn add_direct_entries(into: &mut OrdSet<Entry>, scope: &Scope, assignments: &OrdSet<
    RoleAssignment,
>)
    ensures
        final(into)@.to_set() == old(into)@.to_set().union(
            entries_at(scope@, assignments@, assignments@.len() as int),
        ),
        increasing::<Entry>(final(into)@),
{
    let n = assignments.len();
    let _ = into.len();
    let mut i: usize = 0;
    assert(into@.to_set() =~= old(into)@.to_set().union(entries_at(scope@, assignments@, 0)));
    while i < n
        invariant
            i <= n,
            n == assignments@.len(),
            into@.to_set() == old(into)@.to_set().union(entries_at(scope@, assignments@, i as int)),
            increasing::<Entry>(into@),
        decreases n - i,
    {
        let entry = assignments.get(i);
        let ghost before = into@;
        match &entry.object {
            Some(object) => {
                let made = entry_for(&entry.role, scope, object, None);
                let ghost e = made@;
                into.insert(made);
                proof {
                    lemma_placed_members(before, e, into@);
                    assert(entries_at(scope@, assignments@, i + 1) =~= entries_at(
                        scope@,
                        assignments@,
                        i as int,
                    ).insert(e));
                    assert(into@.to_set() =~= old(into)@.to_set().union(
                        entries_at(scope@, assignments@, i + 1),
                    ));
                }
            },
            None => {
                assert(entries_at(scope@, assignments@, i + 1) =~= entries_at(
                    scope@,
                    assignments@,
                    i as int,
                ));
            },
        }
        i += 1;
    }
}

/// The entries of `s`, up to position `n`, that stand for groups.
pub open spec fn groups_among(s: Seq<EntryView>, n: int) -> Seq<EntryView> {
    s.take(n).filter(|e: EntryView| e.principal_type == PrincipalType::Group)
}

/// The entries of `set` that stand for groups, in order.
pub fn group_entries(set: &OrdSet<Entry>) -> (r: Vec<Entry>)
    ensures
        Seq::new(r@.len(), |i: int| r@[i]@) == groups_among(set@, set@.len() as int),
{
    let n = set.len();
    let mut out: Vec<Entry> = Vec::new();
    let mut i: usize = 0;
    proof {
        reveal(Seq::filter);
        assert(groups_among(set@, 0) =~= Seq::<EntryView>::empty());
        assert(Seq::new(out@.len(), |i: int| out@[i]@) =~= Seq::<EntryView>::empty());
    }
    while i < n
        invariant
            i <= n,
            n == set@.len(),
            Seq::new(out@.len(), |k: int| out@[k]@) == groups_among(set@, i as int),
        decreases n - i,
    {
        let entry = set.get(i);
        let ghost so_far = groups_among(set@, i as int);
        proof {
            let keep = |e: EntryView| e.principal_type == PrincipalType::Group;
            let t = set@.take(i + 1);
            assert(t.drop_last() == set@.take(i as int));
            assert(t.last() == set@[i as int]);
            reveal(Seq::filter);
            assert(t.filter(keep) == if keep(set@[i as int]) {
                so_far.push(set@[i as int])
            } else {
                so_far
            });
        }
        match entry.principal_type {
            PrincipalType::Group => {
                out.push(entry.duplicate());
                assert(Seq::new(out@.len(), |k: int| out@[k]@) =~= so_far.push(set@[i as int]));
            },
            _ => {},
        }
        i += 1;
    }
    out
}

/// The entries that the first `n` members of a group give: each member
/// holds the role of the group at the scope of the group, through the group.
pub open spec fn entries_through(group: EntryView, members: Seq<ObjectView>, n: int) -> Set<
    EntryView,
> {
    Set::new(
        |e: EntryView|
            exists|i: int|
                0 <= i < n && e == (EntryView {
                    role: group.role,
                    scope: group.scope,
                    id: (#[trigger] members[i]).id,
                    display_name: members[i].display_name,
                    upn: members[i].upn,
                    principal_type: members[i].object_type,
                    via_group: Some(group.display_name),
                }),
    )
}

/// Adds to `into` an entry for each member of the group that `group` stands
/// for.
pub fn add_member_entries(into: &mut OrdSet<Entry>, group: &Entry, members: &OrdSet<Object>)
    ensures
        final(into)@.to_set() == old(into)@.to_set().union(
            entries_through(group@, members@, members@.len() as int),
        ),
        increasing::<Entry>(final(into)@),
{
    let n = members.len();
    let _ = into.len();
    let mut i: usize = 0;
    assert(into@.to_set() =~= old(into)@.to_set().union(entries_through(group@, members@, 0)));
    while i < n
        invariant
            i <= n,
            n == members@.len(),
            into@.to_set() == old(into)@.to_set().union(
                entries_through(group@, members@, i as int),
            ),
            increasing::<Entry>(into@),
        decreases n - i,
    {
        let ghost before = into@;
        let made = entry_for(
            &group.role,
            &group.scope,
            members.get(i),
            Some(group.display_name.as_str()),
        );
        let ghost e = made@;
        into.insert(made);
        proof {
            lemma_placed_members(before, e, into@);
            assert(entries_through(group@, members@, i + 1) =~= entries_through(
                group@,
                members@,
                i as int,
            ).insert(e));
            assert(into@.to_set() =~= old(into)@.to_set().union(
                entries_through(group@, members@, i + 1),
            ));
        }
        i += 1;
    }
}

} // verus!
