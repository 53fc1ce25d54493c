//! The members of a group, with the members of the groups among them.
//!
//! Groups may hold each other. The walk keeps the groups it has still to
//! ask for and those it has asked for, and asks for none twice, so that it
//! ends however the groups are nested.

use vstd::prelude::*;
use crate::graph::{Object, ObjectView, PrincipalType};
use crate::order::{key_lt, lemma_lt_asymmetric, lemma_lt_irreflexive, text_key};
use crate::ordset::{increasing, lemma_increasing_no_duplicates, lemma_placed_members, Keyed, OrdSet};
use crate::text::same_text;

verus! {

/// The identifiers of the groups among `members`.
pub open spec fn group_ids(members: Seq<ObjectView>) -> Set<Seq<char>> {
    Set::new(
        |id: Seq<char>|
            exists|i: int|
                0 <= i < members.len() && (#[trigger] members[i]).object_type
                    == PrincipalType::Group && members[i].id == id,
    )
}

/// The state of a walk through nested groups.
pub struct Expansion {
    results: OrdSet<Object>,
    todo: OrdSet<String>,
    done: OrdSet<String>,
    nested: bool,
}

impl Expansion {
    /// The members gathered so far.
    pub closed spec fn results(&self) -> Set<ObjectView> {
        self.results@.to_set()
    }

    /// The groups that are still to be asked for.
    pub closed spec fn todo(&self) -> Set<Seq<char>> {
        self.todo@.to_set()
    }

    /// The groups that were asked for.
    pub closed spec fn done(&self) -> Set<Seq<char>> {
        self.done@.to_set()
    }

    /// Whether the walk goes on into the groups among the members.
    pub closed spec fn nested(&self) -> bool {
        self.nested
    }

    /// The start of a walk from the group `id`. A walk that is not nested
    /// asks for this group alone.
    pub fn new(id: &str, nested: bool) -> (r: Expansion)
        ensures
            r.results() == Set::<ObjectView>::empty(),
            r.todo() == set![id@],
            r.done() == Set::<Seq<char>>::empty(),
            r.nested() == nested,
    {
        let results: OrdSet<Object> = OrdSet::new();
        let mut todo: OrdSet<String> = OrdSet::new();
        let done: OrdSet<String> = OrdSet::new();
        let ghost empty = todo@;
        todo.insert(id.to_string());
        proof {
            lemma_placed_members(empty, id@, todo@);
            assert(empty.to_set() =~= Set::<Seq<char>>::empty());
            assert(todo@.to_set() =~= set![id@]);
            assert(results@.to_set() =~= Set::<ObjectView>::empty());
            assert(done@.to_set() =~= Set::<Seq<char>>::empty());
        }
        Expansion { results, todo, done, nested }
    }

    /// The next group to ask for: the first, in the order of identifiers,
    /// that is still to be asked for and was not asked for before. It counts
    /// as asked for from now on. Groups that come before it are struck from
    /// those to be asked for; they were asked for already.
    pub fn next(&mut self) -> (r: Option<String>)
        ensures
            final(self).results() == old(self).results(),
            final(self).nested() == old(self).nested(),
            r is None ==> final(self).todo() == Set::<Seq<char>>::empty() && final(self).done()
                == old(self).done() && old(self).todo().subset_of(old(self).done()),
            r matches Some(id) ==> {
                &&& old(self).todo().contains(id@)
                &&& !old(self).done().contains(id@)
                &&& final(self).done() == old(self).done().insert(id@)
                &&& forall|x: Seq<char>| #[trigger]
                    final(self).todo().contains(x) <==> old(self).todo().contains(x) && key_lt(
                        text_key(id@),
                        text_key(x),
                    )
                &&& forall|x: Seq<char>| #[trigger]
                    old(self).todo().contains(x) && key_lt(text_key(x), text_key(id@))
                        ==> old(self).done().contains(x)
            },
    {
        let ghost start = self.todo@;
        let ghost done_before = self.done@;
        let ghost mut popped: int = 0;
        let _ = self.todo.len();
        assert(start.skip(0) =~= start);
        loop
            invariant
                start == old(self).todo@,
                done_before == old(self).done@,
                increasing::<String>(start),
                0 <= popped <= start.len(),
                self.todo@ == start.skip(popped),
                self.done@ == done_before,
                self.results@ == old(self).results@,
                self.nested == old(self).nested,
                forall|j: int| 0 <= j < popped ==> done_before.contains(#[trigger] start[j]),
            ensures
                self.todo@.len() == 0,
            decreases start.len() - popped,
        {
            match self.todo.pop_first() {
                None => {
                    break ;
                },
                Some(id) => {
                    assert(start.skip(popped)[0] == start[popped]);
                    assert(start.skip(popped).drop_first() =~= start.skip(popped + 1));
                    if !self.done.contains(&id) {
                        let ghost before = self.done@;
                        self.done.insert(id.clone());
                        proof {
                            lemma_placed_members(before, id@, self.done@);
                            lemma_next(start, popped, done_before, self.todo@, self.done@);
                        }
                        return Some(id);
                    }
                    proof {
                        popped = popped + 1;
                    }
                },
            }
        }
        proof {
            assert(popped == start.len());
            assert(self.todo@.to_set() =~= Set::<Seq<char>>::empty());
            assert forall|x: Seq<char>| start.to_set().contains(x) implies done_before.to_set().contains(
                x,
            ) by {
                let j = choose|j: int| 0 <= j < start.len() && start[j] == x;
                assert(done_before.contains(start[j]));
            }
        }
        None
    }

    /// Takes in the members of the group that was asked for: they are
    /// gathered, and in a nested walk the groups among them are to be asked
    /// for.
    pub fn absorb(&mut self, members: &OrdSet<Object>)
        ensures
            final(self).results() == old(self).results().union(members@.to_set()),
            final(self).todo() == (if old(self).nested() {
                old(self).todo().union(group_ids(members@))
            } else {
                old(self).todo()
            }),
            final(self).done() == old(self).done(),
            final(self).nested() == old(self).nested(),
    {
        if !self.nested {
            self.results.extend(members);
            return ;
        }
        let n = members.len();
        let mut i: usize = 0;
        proof {
            assert(group_ids(members@.take(0)) =~= Set::<Seq<char>>::empty());
            assert(self.todo@.to_set().union(group_ids(members@.take(0))) =~= self.todo@.to_set());
        }
        while i < n
            invariant
                i <= n,
                n == members@.len(),
                self.done@ == old(self).done@,
                self.results@ == old(self).results@,
                self.nested == old(self).nested,
                self.todo@.to_set() == old(self).todo@.to_set().union(
                    group_ids(members@.take(i as int)),
                ),
            decreases n - i,
        {
            let member = members.get(i);
            let ghost before = self.todo@;
            proof {
                let t = members@.take(i + 1);
                let s = members@.take(i as int);
                assert(t[i as int] == members@[i as int]);
                assert forall|x: Seq<char>| group_ids(t).contains(x) <==> group_ids(s).contains(x)
                    || (members@[i as int].object_type == PrincipalType::Group && members@[i as int].id
                    == x) by {
                    if group_ids(t).contains(x) {
                        let k = choose|k: int|
                            0 <= k < t.len() && (#[trigger] t[k]).object_type
                                == PrincipalType::Group && t[k].id == x;
                        if k < i {
                            assert(s[k] == t[k]);
                        }
                    }
                    if group_ids(s).contains(x) {
                        let k = choose|k: int|
                            0 <= k < s.len() && (#[trigger] s[k]).object_type
                                == PrincipalType::Group && s[k].id == x;
                        assert(t[k] == s[k]);
                    }
                }
            }
            match member.object_type {
                PrincipalType::Group => {
                    self.todo.insert(member.id.clone());
                    proof {
                        lemma_placed_members(before, member.id@, self.todo@);
                        assert(self.todo@.to_set() =~= old(self).todo@.to_set().union(
                            group_ids(members@.take(i + 1)),
                        ));
                    }
                },
                _ => {
                    assert(self.todo@.to_set() =~= old(self).todo@.to_set().union(
                        group_ids(members@.take(i + 1)),
                    ));
                },
            }
            i += 1;
        }
        assert(members@.take(n as int) == members@);
        self.results.extend(members);
    }

    /// The members gathered.
    pub fn finish(self) -> (r: OrdSet<Object>)
        ensures
            r@.to_set() == self.results(),
            increasing::<Object>(r@),
    {
        let _ = self.results.len();
        self.results
    }
}

/// A directory held in memory: groups by identifier, each with its members.
pub type Groups = Vec<(String, OrdSet<Object>)>;

/// The members of group `id` in `dir`: those of the first entry under that
/// identifier from position `from` on, and none where there is no such entry.
pub open spec fn members_from(dir: Seq<(String, OrdSet<Object>)>, id: Seq<char>, from: int) -> Seq<
    ObjectView,
>
    decreases dir.len() - from,
{
    if from < 0 || from >= dir.len() {
        Seq::<ObjectView>::empty()
    } else if dir[from].0@ == id {
        dir[from].1@
    } else {
        members_from(dir, id, from + 1)
    }
}

/// The members of group `id` in `dir`.
pub open spec fn members_of(dir: Seq<(String, OrdSet<Object>)>, id: Seq<char>) -> Seq<ObjectView> {
    members_from(dir, id, 0)
}

/// Whether group `g` is a member of group `h`.
pub open spec fn holds_group(dir: Seq<(String, OrdSet<Object>)>, h: Seq<char>, g: Seq<char>) -> bool {
    group_ids(members_of(dir, h)).contains(g)
}

/// Whether `g` is reached from `start` in at most `n` steps from a group to
/// a group among its members.
pub open spec fn reached_in(
    dir: Seq<(String, OrdSet<Object>)>,
    start: Seq<char>,
    g: Seq<char>,
    n: nat,
) -> bool
    decreases n,
{
    if n == 0 {
        g == start
    } else {
        reached_in(dir, start, g, (n - 1) as nat) || exists|h: Seq<char>|
            reached_in(dir, start, h, (n - 1) as nat) && #[trigger] holds_group(dir, h, g)
    }
}

/// Whether `g` is `start` or is reached from it through nested groups.
pub open spec fn reached(dir: Seq<(String, OrdSet<Object>)>, start: Seq<char>, g: Seq<char>) -> bool {
    exists|n: nat| reached_in(dir, start, g, n)
}

/// The members of the groups in `groups`.
pub open spec fn members_of_all(dir: Seq<(String, OrdSet<Object>)>, groups: Set<Seq<char>>) -> Set<
    ObjectView,
> {
    Set::new(
        |o: ObjectView|
            exists|g: Seq<char>| groups.contains(g) && #[trigger] members_of(dir, g).contains(o),
    )
}

/// The members of `start` and of every group reached from it.
pub open spec fn expansion(dir: Seq<(String, OrdSet<Object>)>, start: Seq<char>) -> Set<ObjectView> {
    members_of_all(dir, Set::new(|g: Seq<char>| reached(dir, start, g)))
}

/// The members of group `id` as `dir` holds them.
pub fn find_members<'a>(dir: &'a Groups, id: &str) -> (r: Option<&'a OrdSet<Object>>)
    ensures
        r matches Some(set) ==> set@ == members_of(dir@, id@),
        r is None ==> members_of(dir@, id@).len() == 0,
{
    let mut i: usize = 0;
    while i < dir.len()
        invariant
            i <= dir@.len(),
            members_of(dir@, id@) == members_from(dir@, id@, i as int),
        decreases dir@.len() - i,
    {
        if same_text(dir[i].0.as_str(), id) {
            return Some(&dir[i].1);
        }
        i += 1;
    }
    None
}

/// Every identifier that a walk from `start` can come upon: `start` and
/// the groups that are members of any group of the directory.
fn candidates(dir: &Groups, start: &str) -> (r: OrdSet<String>)
    ensures
        r@.contains(start@),
        forall|h: Seq<char>, g: Seq<char>| #[trigger] holds_group(dir@, h, g) ==> r@.contains(g),
{
    let mut all: OrdSet<String> = OrdSet::new();
    let ghost empty = all@;
    all.insert(start.to_string());
    proof {
        lemma_placed_members(empty, start@, all@);
        assert(all@.to_set().contains(start@));
    }
    let mut e: usize = 0;
    while e < dir.len()
        invariant
            e <= dir@.len(),
            all@.to_set().contains(start@),
            forall|k: int, g: Seq<char>|
                0 <= k < e && #[trigger] group_ids(dir@[k].1@).contains(g)
                    ==> all@.to_set().contains(g),
        decreases dir@.len() - e,
    {
        let members = &dir[e].1;
        let n = members.len();
        let mut i: usize = 0;
        while i < n
            invariant
                i <= n,
                n == members@.len(),
                e < dir@.len(),
                members@ == dir@[e as int].1@,
                all@.to_set().contains(start@),
                forall|k: int, g: Seq<char>|
                    0 <= k < e && #[trigger] group_ids(dir@[k].1@).contains(g)
                        ==> all@.to_set().contains(g),
                forall|j: int|
                    0 <= j < i && (#[trigger] members@[j]).object_type == PrincipalType::Group
                        ==> all@.to_set().contains(members@[j].id),
            decreases n - i,
        {
            let member = members.get(i);
            match member.object_type {
                PrincipalType::Group => {
                    let ghost before = all@;
                    all.insert(member.id.clone());
                    proof {
                        lemma_placed_members(before, member.id@, all@);
                    }
                },
                _ => {},
            }
            i += 1;
        }
        proof {
            assert forall|g: Seq<char>| group_ids(dir@[e as int].1@).contains(g) implies all@.to_set().contains(
                g,
            ) by {
                let j = choose|j: int|
                    0 <= j < members@.len() && (#[trigger] members@[j]).object_type
                        == PrincipalType::Group && members@[j].id == g;
                assert(all@.to_set().contains(members@[j].id));
            }
        }
        e += 1;
    }
    proof {
        assert forall|h: Seq<char>, g: Seq<char>| #[trigger] holds_group(dir@, h, g) implies all@.contains(
            g,
        ) by {
            lemma_members_entry(dir@, h, 0);
            if members_of(dir@, h).len() > 0 {
                let k = choose|k: int| 0 <= k < dir@.len() && dir@[k].1@ == members_of(dir@, h);
                assert(group_ids(dir@[k].1@).contains(g));
                assert(all@.to_set().contains(g));
            } else {
                let j = choose|j: int|
                    0 <= j < members_of(dir@, h).len() && (#[trigger] members_of(
                        dir@,
                        h,
                    )[j]).object_type == PrincipalType::Group && members_of(dir@, h)[j].id == g;
            }
        }
    }
    all
}

proof fn lemma_members_entry(dir: Seq<(String, OrdSet<Object>)>, id: Seq<char>, from: int)
    requires
        0 <= from,
    ensures
        members_from(dir, id, from).len() > 0 ==> exists|k: int|
            0 <= k < dir.len() && (#[trigger] dir[k]).1@ == members_from(dir, id, from),
    decreases dir.len() - from,
{
    if from < dir.len() && dir[from].0@ != id {
        lemma_members_entry(dir, id, from + 1);
    }
}

proof fn lemma_closed_holds_all(
    dir: Seq<(String, OrdSet<Object>)>,
    start: Seq<char>,
    done: Set<Seq<char>>,
    g: Seq<char>,
    n: nat,
)
    requires
        done.contains(start),
        forall|h: Seq<char>, x: Seq<char>|
            done.contains(h) && #[trigger] holds_group(dir, h, x) ==> done.contains(x),
        reached_in(dir, start, g, n),
    ensures
        done.contains(g),
    decreases n,
{
    if n > 0 {
        if reached_in(dir, start, g, (n - 1) as nat) {
            lemma_closed_holds_all(dir, start, done, g, (n - 1) as nat);
        } else {
            let h = choose|h: Seq<char>|
                reached_in(dir, start, h, (n - 1) as nat) && #[trigger] holds_group(dir, h, g);
            lemma_closed_holds_all(dir, start, done, h, (n - 1) as nat);
        }
    }
}

/// The members of group `start` in `dir`, each once: in a nested walk with
/// those of every group nested in it, else its own members alone. The walk
/// asks for no group twice, so it ends even where groups hold each other.
pub fn expand_within(dir: &Groups, start: &str, nested: bool) -> (r: OrdSet<Object>)
    ensures
        r@.to_set() == (if nested {
            expansion(dir@, start@)
        } else {
            members_of(dir@, start@).to_set()
        }),
        r@.no_duplicates(),
{
    if !nested {
        let mut walk = Expansion::new(start, false);
        assert(walk.todo().contains(start@));
        match walk.next() {
            Some(id) => {
                assert(id@ == start@);
                match find_members(dir, id.as_str()) {
                    Some(members) => {
                        walk.absorb(members);
                        assert(walk.results() =~= members_of(dir@, start@).to_set());
                    },
                    None => {
                        assert(members_of(dir@, start@).to_set() =~= Set::<ObjectView>::empty());
                    },
                }
            },
            None => {
                assert(false);
            },
        }
        let r = walk.finish();
        proof {
            lemma_increasing_no_duplicates::<Object>(r@);
        }
        return r;
    }
    let mut unvisited = candidates(dir, start);
    let ghost all = unvisited@.to_set();
    let mut state = Expansion::new(start, true);
    assert(reached_in(dir@, start@, start@, 0));
    assert(state.results() =~= members_of_all(dir@, state.done()));
    loop
        invariant
            state.nested(),
            all.contains(start@),
            forall|h: Seq<char>, g: Seq<char>| #[trigger] holds_group(dir@, h, g) ==> all.contains(g),
            state.todo().subset_of(all),
            state.done().subset_of(all),
            state.done().contains(start@) || state.todo().contains(start@),
            forall|g: Seq<char>|
                all.contains(g) ==> state.done().contains(g) || unvisited@.to_set().contains(g),
            forall|g: Seq<char>|
                state.done().contains(g) || state.todo().contains(g) ==> reached(dir@, start@, g),
            state.results() == members_of_all(dir@, state.done()),
            forall|h: Seq<char>, g: Seq<char>|
                state.done().contains(h) && #[trigger] holds_group(dir@, h, g)
                    ==> state.done().contains(g) || state.todo().contains(g),
        ensures
            state.results() == expansion(dir@, start@),
        decreases unvisited@.len(),
    {
        let ghost done0 = state.done();
        let ghost todo0 = state.todo();
        match state.next() {
            None => {
                proof {
                    let done = state.done();
                    assert forall|g: Seq<char>| reached(dir@, start@, g) implies done.contains(g) by {
                        let n = choose|n: nat| reached_in(dir@, start@, g, n);
                        lemma_closed_holds_all(dir@, start@, done, g, n);
                    }
                    assert(done =~= Set::new(|g: Seq<char>| reached(dir@, start@, g)));
                }
                break ;
            },
            Some(id) => {
                let removed = unvisited.remove(&id);
                assert(removed);
                let ghost done1 = state.done();
                let ghost todo1 = state.todo();
                let ghost results1 = state.results();
                match find_members(dir, id.as_str()) {
                    Some(members) => {
                        state.absorb(members);
                    },
                    None => {
                        assert(state.todo().union(group_ids(members_of(dir@, id@))) =~= state.todo());
                        assert(state.results().union(members_of(dir@, id@).to_set())
                            =~= state.results());
                    },
                }
                proof {
                    let ms = members_of(dir@, id@);
                    assert(state.todo() =~= todo1.union(group_ids(ms)));
                    assert(state.results() =~= results1.union(ms.to_set()));
                    assert(state.done() == done0.insert(id@));
                    assert forall|g: Seq<char>|
                        state.done().contains(g) || state.todo().contains(g) implies reached(
                        dir@,
                        start@,
                        g,
                    ) by {
                        if group_ids(ms).contains(g) && !todo1.contains(g) && !done1.contains(g) {
                            let n = choose|n: nat| reached_in(dir@, start@, id@, n);
                            assert(holds_group(dir@, id@, g));
                            assert(reached_in(dir@, start@, g, n + 1));
                        }
                    }
                    assert forall|g: Seq<char>| state.todo().contains(g) implies all.contains(g) by {
                        if group_ids(ms).contains(g) {
                            assert(holds_group(dir@, id@, g));
                        }
                    }
                    assert forall|h: Seq<char>, g: Seq<char>|
                        state.done().contains(h) && #[trigger] holds_group(
                            dir@,
                            h,
                            g,
                        ) implies state.done().contains(g) || state.todo().contains(g) by {
                        if h != id@ {
                            assert(done0.contains(g) || todo0.contains(g));
                            if todo0.contains(g) && !todo1.contains(g) {
                                lemma_struck(todo0, todo1, done0, id@, g);
                            }
                        }
                    }
                    assert(state.results() =~= members_of_all(dir@, state.done())) by {
                        assert forall|o: ObjectView|
                            state.results().contains(o) <==> members_of_all(
                                dir@,
                                state.done(),
                            ).contains(o) by {
                            if results1.contains(o) {
                                let g = choose|g: Seq<char>|
                                    done0.contains(g) && #[trigger] members_of(dir@, g).contains(o);
                                assert(state.done().contains(g));
                            }
                            if ms.contains(o) {
                                assert(state.done().contains(id@) && members_of(dir@, id@).contains(
                                    o,
                                ));
                            }
                            if members_of_all(dir@, state.done()).contains(o) {
                                let g = choose|g: Seq<char>|
                                    state.done().contains(g) && #[trigger] members_of(
                                        dir@,
                                        g,
                                    ).contains(o);
                                if g != id@ {
                                    assert(done0.contains(g));
                                }
                            }
                        }
                    }
                    if todo0.contains(start@) && !todo1.contains(start@) {
                        lemma_struck(todo0, todo1, done0, id@, start@);
                    }
                }
            },
        }
    }
    let r = state.finish();
    proof {
        lemma_increasing_no_duplicates::<Object>(r@);
    }
    r
}

/// A group that is struck from those to be asked for is the one that is
/// asked for next, or was asked for before.
proof fn lemma_struck(
    todo0: Set<Seq<char>>,
    todo1: Set<Seq<char>>,
    done0: Set<Seq<char>>,
    id: Seq<char>,
    x: Seq<char>,
)
    requires
        todo0.contains(x),
        !todo1.contains(x),
        forall|y: Seq<char>| #[trigger]
            todo1.contains(y) <==> todo0.contains(y) && key_lt(text_key(id), text_key(y)),
        forall|y: Seq<char>| #[trigger]
            todo0.contains(y) && key_lt(text_key(y), text_key(id)) ==> done0.contains(y),
    ensures
        x == id || done0.contains(x),
{
    crate::order::lemma_lt_total(text_key(x), text_key(id));
    if text_key(x) == text_key(id) {
        String::lemma_key_tells(x, id);
    }
}

proof fn lemma_next(
    start: Seq<Seq<char>>,
    k: int,
    done_before: Seq<Seq<char>>,
    todo_after: Seq<Seq<char>>,
    done_after: Seq<Seq<char>>,
)
    requires
        increasing::<String>(start),
        0 <= k < start.len(),
        todo_after == start.skip(k + 1),
        !done_before.contains(start[k]),
        forall|j: int| 0 <= j < k ==> done_before.contains(#[trigger] start[j]),
        done_after.to_set() == done_before.to_set().insert(start[k]),
    ensures
        start.to_set().contains(start[k]),
        !done_before.to_set().contains(start[k]),
        forall|x: Seq<char>| #[trigger]
            todo_after.to_set().contains(x) <==> start.to_set().contains(x) && key_lt(
                text_key(start[k]),
                text_key(x),
            ),
        forall|x: Seq<char>| #[trigger]
            start.to_set().contains(x) && key_lt(text_key(x), text_key(start[k]))
                ==> done_before.to_set().contains(x),
{
    let id = start[k];
    assert forall|x: Seq<char>| #[trigger]
        todo_after.to_set().contains(x) <==> start.to_set().contains(x) && key_lt(
            text_key(id),
            text_key(x),
        ) by {
        if todo_after.contains(x) {
            let j = choose|j: int| 0 <= j < todo_after.len() && todo_after[j] == x;
            assert(start[k + 1 + j] == x);
            assert(key_lt(String::key_of(start[k]), String::key_of(start[k + 1 + j])));
        }
        if start.contains(x) && key_lt(text_key(id), text_key(x)) {
            let j = choose|j: int| 0 <= j < start.len() && start[j] == x;
            if j < k {
                assert(key_lt(String::key_of(start[j]), String::key_of(start[k])));
                lemma_lt_asymmetric(text_key(x), text_key(id));
            } else if j == k {
                lemma_lt_irreflexive(text_key(id));
            } else {
                assert(todo_after[j - k - 1] == x);
            }
        }
    }
    assert forall|x: Seq<char>| #[trigger]
        start.to_set().contains(x) && key_lt(
            text_key(x),
            text_key(id),
        ) implies done_before.to_set().contains(x) by {
        let j = choose|j: int| 0 <= j < start.len() && start[j] == x;
        if j == k {
            lemma_lt_irreflexive(text_key(id));
        } else if j > k {
            assert(key_lt(String::key_of(start[k]), String::key_of(start[j])));
            lemma_lt_asymmetric(text_key(x), text_key(id));
        } else {
            assert(done_before.contains(start[j]));
        }
    }
}

} // verus!
