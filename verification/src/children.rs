//! The search for the resources beneath a scope, level by level.

use vstd::prelude::*;
use crate::ordset::{increasing, lemma_placed_members, OrdSet};
use crate::models::resources::{child_ids, ChildResource, ChildResourceView};
use crate::models::scope::Scope;

verus! {

/// The state of a search for child resources.
pub struct ChildSearch {
    todo: OrdSet<Scope>,
    seen: OrdSet<Scope>,
    result: OrdSet<ChildResource>,
    nested: bool,
}

impl ChildSearch {
    /// The scopes that the next round asks for.
    pub closed spec fn todo(&self) -> Seq<Seq<char>> {
        self.todo@
    }

    /// The scopes that were asked for.
    pub closed spec fn seen(&self) -> Set<Seq<char>> {
        self.seen@.to_set()
    }

    /// The resources found.
    pub closed spec fn result(&self) -> Set<ChildResourceView> {
        self.result@.to_set()
    }

    /// Whether the search goes on beneath the resources that it finds.
    pub closed spec fn nested(&self) -> bool {
        self.nested
    }

    /// The start of a search beneath `scope`.
    pub fn new(scope: &Scope, nested: bool) -> (r: ChildSearch)
        ensures
            r.todo() == seq![scope@],
            r.seen() == Set::<Seq<char>>::empty(),
            r.result() == Set::<ChildResourceView>::empty(),
            r.nested() == nested,
    {
        let mut todo: OrdSet<Scope> = OrdSet::new();
        let ghost empty = todo@;
        todo.insert(scope.clone());
        let seen: OrdSet<Scope> = OrdSet::new();
        let result: OrdSet<ChildResource> = OrdSet::new();
        proof {
            assert(empty =~= Seq::<Seq<char>>::empty());
            assert(!empty.contains(scope@));
            let at = choose|at: int| 0 <= at <= empty.len() && todo@ == #[trigger] empty.insert(at, scope@);
            assert(todo@ =~= seq![scope@]);
            assert(seen@.to_set() =~= Set::<Seq<char>>::empty());
            assert(result@.to_set() =~= Set::<ChildResourceView>::empty());
        }
        ChildSearch { todo, seen, result, nested }
    }

    /// Begins a round: gives the scopes to ask for, in order, and counts
    /// them as asked for. The search is over when there are none.
    pub fn begin_round(&mut self) -> (r: Vec<Scope>)
        ensures
            Seq::new(r@.len(), |i: int| r@[i]@) == old(self).todo(),
            final(self).todo().len() == 0,
            final(self).seen() == old(self).seen().union(old(self).todo().to_set()),
            final(self).result() == old(self).result(),
            final(self).nested() == old(self).nested(),
    {
        let n = self.todo.len();
        let mut out: Vec<Scope> = Vec::new();
        let mut i: usize = 0;
        while i < n
            invariant
                i <= n,
                n == self.todo@.len(),
                out@.len() == i,
                forall|k: int| 0 <= k < i ==> (#[trigger] out@[k])@ == self.todo@[k],
            decreases n - i,
        {
            out.push(self.todo.get(i).clone());
            i += 1;
        }
        assert(Seq::new(out@.len(), |i: int| out@[i]@) =~= self.todo@);
        self.seen.extend(&self.todo);
        self.todo = OrdSet::new();
        out
    }

    /// Takes in the resources found beneath one scope of the round. All
    /// count as found; in a nested search those that were not asked for are
    /// asked for in the next round.
    pub fn absorb(&mut self, children: &OrdSet<ChildResource>)
        ensures
            final(self).result() == old(self).result().union(children@.to_set()),
            final(self).seen() == old(self).seen(),
            final(self).nested() == old(self).nested(),
            increasing::<Scope>(final(self).todo()),
            final(self).todo().to_set() == (if old(self).nested() {
                old(self).todo().to_set().union(child_ids(children@).difference(old(self).seen()))
            } else {
                old(self).todo().to_set()
            }),
    {
        let n = children.len();
        let mut i: usize = 0;
        proof {
            assert(child_ids(children@.take(0)) =~= Set::<Seq<char>>::empty());
            assert(self.todo@.to_set().union(
                child_ids(children@.take(0)).difference(self.seen@.to_set()),
            ) =~= self.todo@.to_set());
        }
        while i < n
            invariant
                i <= n,
                n == children@.len(),
                self.seen@ == old(self).seen@,
                self.result@ == old(self).result@,
                self.nested == old(self).nested,
                self.todo@.to_set() == (if self.nested {
                    old(self).todo@.to_set().union(
                        child_ids(children@.take(i as int)).difference(self.seen@.to_set()),
                    )
                } else {
                    old(self).todo@.to_set()
                }),
            decreases n - i,
        {
            let child = children.get(i);
            let ghost before = self.todo@;
            proof {
                let t = children@.take(i + 1);
                let s = children@.take(i as int);
                assert(t[i as int] == children@[i as int]);
                assert forall|x: Seq<char>|
                    child_ids(t).contains(x) <==> child_ids(s).contains(x) || children@[i as int].id
                        == x by {
                    if child_ids(t).contains(x) {
                        let k = choose|k: int| 0 <= k < t.len() && (#[trigger] t[k]).id == x;
                        if k < i {
                            assert(s[k] == t[k]);
                        }
                    }
                    if child_ids(s).contains(x) {
                        let k = choose|k: int| 0 <= k < s.len() && (#[trigger] s[k]).id == x;
                        assert(t[k] == s[k]);
                    }
                }
            }
            if self.nested && !self.seen.contains(&child.id) {
                self.todo.insert(child.id.clone());
                proof {
                    lemma_placed_members(before, child.id@, self.todo@);
                }
            }
            proof {
                if self.nested {
                    assert(self.todo@.to_set() =~= old(self).todo@.to_set().union(
                        child_ids(children@.take(i + 1)).difference(self.seen@.to_set()),
                    ));
                }
            }
            i += 1;
        }
        assert(children@.take(n as int) == children@);
        let _ = self.todo.len();
        self.result.extend(children);
    }

    /// The resources found.
    pub fn finish(self) -> (r: OrdSet<ChildResource>)
        ensures
            r@.to_set() == self.result(),
            increasing::<ChildResource>(r@),
    {
        let _ = self.result.len();
        self.result
    }
}

} // verus!
