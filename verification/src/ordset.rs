//! Ordered sets: no value twice, the values in the order of their sort keys.

use vstd::prelude::*;
use crate::order::{
    key_lt, lemma_lt_irreflexive, lemma_lt_transitive, lemma_text_key_splits, push_text_key,
    rank_keys, text_key, Rank,
};

verus! {

/// A value that can live in an ordered set: it has a sort key that tells it
/// from every other value, and it can be copied.
pub trait Keyed: View + Sized {
    /// The sort key of a value.
    spec fn key_of(v: Self::V) -> Seq<u32>;

    /// Two values with the same key are the same value.
    proof fn lemma_key_tells(a: Self::V, b: Self::V)
        requires
            Self::key_of(a) == Self::key_of(b),
        ensures
            a == b,
    ;

    /// Computes the sort key.
    fn key(&self) -> (r: Vec<u32>)
        ensures
            r@ == Self::key_of(self@),
    ;

    /// Copies the value.
    fn duplicate(&self) -> (r: Self)
        ensures
            r@ == self@,
    ;
}

impl Keyed for String {
    open spec fn key_of(v: Seq<char>) -> Seq<u32> {
        text_key(v)
    }

    proof fn lemma_key_tells(a: Seq<char>, b: Seq<char>) {
        let none = Seq::<u32>::empty();
        assert(text_key(a) + none =~= text_key(a));
        assert(text_key(b) + none =~= text_key(b));
        assert(String::key_of(a) == text_key(a));
        assert(text_key(a) + none == text_key(b) + none);
        lemma_text_key_splits(a, none, b, none);
    }

    fn key(&self) -> (r: Vec<u32>) {
        let mut out: Vec<u32> = Vec::new();
        push_text_key(&mut out, self.as_str());
        assert(out@ =~= text_key(self@));
        out
    }

    fn duplicate(&self) -> (r: Self) {
        self.clone()
    }
}

/// Whether the values of `s` stand in strictly increasing order of their keys.
pub open spec fn increasing<T: Keyed>(s: Seq<T::V>) -> bool {
    forall|i: int, j: int|
        0 <= i < j < s.len() ==> key_lt(T::key_of(#[trigger] s[i]), T::key_of(#[trigger] s[j]))
}

/// Whether `after` is `before` with `v` put in: unchanged where `before`
/// holds `v` already, else with `v` added at some position.
pub open spec fn placed<V>(before: Seq<V>, v: V, after: Seq<V>) -> bool {
    if before.contains(v) {
        after == before
    } else {
        exists|at: int| 0 <= at <= before.len() && after == #[trigger] before.insert(at, v)
    }
}

/// Putting a value in adds it to the values held, and nothing else.
pub proof fn lemma_placed_members<V>(before: Seq<V>, v: V, after: Seq<V>)
    requires
        placed(before, v, after),
    ensures
        after.to_set() == before.to_set().insert(v),
        after.len() == before.len() + (if before.contains(v) { 0int } else { 1 }),
{
    if before.contains(v) {
        assert(after.to_set() =~= before.to_set().insert(v));
    } else {
        let at = choose|at: int| 0 <= at <= before.len() && after == #[trigger] before.insert(at, v);
        assert forall|x: V| after.to_set().contains(x) <==> before.to_set().insert(v).contains(
            x,
        ) by {
            if after.contains(x) {
                let i = choose|i: int| 0 <= i < after.len() && after[i] == x;
                if i < at {
                    assert(before[i] == x);
                } else if i > at {
                    assert(before[i - 1] == x);
                }
            }
            if before.contains(x) {
                let i = choose|i: int| 0 <= i < before.len() && before[i] == x;
                if i < at {
                    assert(after[i] == x);
                } else {
                    assert(after[i + 1] == x);
                }
            }
            if x == v {
                assert(after[at] == x);
            }
        }
        assert(after.to_set() =~= before.to_set().insert(v));
    }
}

/// An ordered set of values. Its view is the sequence of its values in
/// increasing order, which holds no value twice.
#[derive(Debug, PartialEq, Eq)]
pub struct OrdSet<T: Keyed> {
    entries: Vec<(Vec<u32>, T)>,
}

impl<T: Keyed> View for OrdSet<T> {
    type V = Seq<T::V>;

    closed spec fn view(&self) -> Seq<T::V> {
        Seq::new(self.entries@.len(), |i: int| self.entries@[i].1@)
    }
}

/// In an increasing sequence no value stands twice.
pub proof fn lemma_increasing_no_duplicates<T: Keyed>(s: Seq<T::V>)
    requires
        increasing::<T>(s),
    ensures
        s.no_duplicates(),
{
    assert forall|i: int, j: int| 0 <= i < s.len() && 0 <= j < s.len() && i != j implies s[i]
        != s[j] by {
        if i < j {
            lemma_lt_irreflexive(T::key_of(s[i]));
        } else {
            lemma_lt_irreflexive(T::key_of(s[j]));
        }
    }
}

impl<T: Keyed> OrdSet<T> {
    #[verifier::type_invariant]
    spec fn well_formed(self) -> bool {
        &&& forall|i: int|
            0 <= i < self.entries@.len() ==> (#[trigger] self.entries@[i]).0@ == T::key_of(
                self.entries@[i].1@,
            )
        &&& forall|i: int, j: int|
            0 <= i < j < self.entries@.len() ==> key_lt(
                (#[trigger] self.entries@[i]).0@,
                (#[trigger] self.entries@[j]).0@,
            )
    }

    /// The values themselves, in order; the view holds their views.
    pub closed spec fn items(&self) -> Seq<T> {
        Seq::new(self.entries@.len(), |i: int| self.entries@[i].1)
    }

    /// The empty set.
    pub fn new() -> (r: Self)
        ensures
            r@.len() == 0,
    {
        OrdSet { entries: Vec::new() }
    }

    /// The number of values.
    pub fn len(&self) -> (r: usize)
        ensures
            r == self@.len(),
            increasing::<T>(self@),
            self.items().len() == self@.len(),
            forall|i: int| 0 <= i < self@.len() ==> (#[trigger] self.items()[i])@ == self@[i],
    {
        proof {
            use_type_invariant(self);
        }
        self.entries.len()
    }

    /// Whether the set holds no value.
    pub fn is_empty(&self) -> (r: bool)
        ensures
            r == (self@.len() == 0),
    {
        self.entries.len() == 0
    }

    /// The value at position `i` of the order.
    pub fn get(&self, i: usize) -> (r: &T)
        requires
            i < self@.len(),
        ensures
            r@ == self@[i as int],
            *r == self.items()[i as int],
    {
        &self.entries[i].1
    }

    /// The first position whose key is not before `key`, and whether the key
    /// there is `key` itself.
    fn search(&self, key: &Vec<u32>) -> (r: (usize, bool))
        ensures
            r.0 <= self.entries@.len(),
            forall|i: int| 0 <= i < r.0 ==> key_lt((#[trigger] self.entries@[i]).0@, key@),
            r.1 ==> r.0 < self.entries@.len() && self.entries@[r.0 as int].0@ == key@,
            !r.1 ==> forall|i: int|
                r.0 <= i < self.entries@.len() ==> key_lt(key@, (#[trigger] self.entries@[i]).0@),
    {
        proof {
            use_type_invariant(self);
        }
        let mut i: usize = 0;
        while i < self.entries.len()
            invariant
                i <= self.entries@.len(),
                forall|k: int| 0 <= k < i ==> key_lt((#[trigger] self.entries@[k]).0@, key@),
                forall|a: int, b: int|
                    0 <= a < b < self.entries@.len() ==> key_lt(
                        (#[trigger] self.entries@[a]).0@,
                        (#[trigger] self.entries@[b]).0@,
                    ),
            decreases self.entries@.len() - i,
        {
            match rank_keys(&self.entries[i].0, key) {
                Rank::Before => {},
                Rank::Same => {
                    return (i, true);
                },
                Rank::After => {
                    assert forall|k: int| i <= k < self.entries@.len() implies key_lt(
                        key@,
                        (#[trigger] self.entries@[k]).0@,
                    ) by {
                        if k > i {
                            lemma_lt_transitive(
                                key@,
                                self.entries@[i as int].0@,
                                self.entries@[k].0@,
                            );
                        }
                    }
                    return (i, false);
                },
            }
            i += 1;
        }
        (i, false)
    }

    /// Whether the set holds `value`.
    pub fn contains(&self, value: &T) -> (r: bool)
        ensures
            r == self@.contains(value@),
    {
        proof {
            use_type_invariant(self);
        }
        let key = value.key();
        let (at, found) = self.search(&key);
        proof {
            if found {
                T::lemma_key_tells(self.entries@[at as int].1@, value@);
                assert(self@[at as int] == value@);
            } else {
                assert forall|i: int| 0 <= i < self@.len() implies self@[i] != value@ by {
                    if i < at {
                        lemma_lt_irreflexive(key@);
                    } else {
                        lemma_lt_irreflexive(key@);
                    }
                }
            }
        }
        found
    }

    /// Puts `value` into the set, unless the set holds it already. Says
    /// whether the value was added.
    pub fn insert(&mut self, value: T) -> (added: bool)
        ensures
            added == !old(self)@.contains(value@),
            placed(old(self)@, value@, final(self)@),
            increasing::<T>(final(self)@),
    {
        proof {
            use_type_invariant(&*self);
        }
        let key = value.key();
        let (at, found) = self.search(&key);
        let ghost before = self.entries@;
        let ghost v = value@;
        if found {
            proof {
                T::lemma_key_tells(before[at as int].1@, v);
                assert(self@[at as int] == v);
            }
            return false;
        }
        proof {
            assert forall|i: int| 0 <= i < self@.len() implies self@[i] != v by {
                lemma_lt_irreflexive(key@);
            }
        }
        let mut entries: Vec<(Vec<u32>, T)> = Vec::new();
        std::mem::swap(&mut self.entries, &mut entries);
        entries.insert(at, (key, value));
        proof {
            let after = entries@;
            assert(after == before.insert(at as int, (key, value)));
            assert forall|i: int, j: int| 0 <= i < j < after.len() implies key_lt(
                (#[trigger] after[i]).0@,
                (#[trigger] after[j]).0@,
            ) by {
                if i < at && j > at {
                    lemma_lt_transitive(after[i].0@, key@, after[j].0@);
                }
            }
        }
        *self = OrdSet { entries };
        proof {
            assert(self@ =~= old(self)@.insert(at as int, v));
        }
        true
    }

    /// A copy of the set.
    pub fn duplicate(&self) -> (r: Self)
        ensures
            r@ == self@,
    {
        proof {
            use_type_invariant(self);
        }
        let mut entries: Vec<(Vec<u32>, T)> = Vec::new();
        let mut i: usize = 0;
        while i < self.entries.len()
            invariant
                i <= self.entries@.len(),
                entries@.len() == i,
                forall|k: int|
                    0 <= k < i ==> (#[trigger] entries@[k]).0@ == self.entries@[k].0@
                        && entries@[k].1@ == self.entries@[k].1@,
                forall|k: int|
                    0 <= k < self.entries@.len() ==> (#[trigger] self.entries@[k]).0@
                        == T::key_of(self.entries@[k].1@),
            decreases self.entries@.len() - i,
        {
            let copy = self.entries[i].1.duplicate();
            let key = copy.key();
            entries.push((key, copy));
            i += 1;
        }
        let r = OrdSet { entries };
        assert(r@ =~= self@);
        r
    }

    /// Puts every value of `other` into the set.
    pub fn extend(&mut self, other: &OrdSet<T>)
        ensures
            final(self)@.to_set() == old(self)@.to_set().union(other@.to_set()),
            increasing::<T>(final(self)@),
    {
        let n = other.len();
        let _ = self.len();
        let mut i: usize = 0;
        while i < n
            invariant
                i <= n,
                n == other@.len(),
                self@.to_set() == old(self)@.to_set().union(other@.take(i as int).to_set()),
                increasing::<T>(self@),
            decreases n - i,
        {
            let ghost before = self@;
            let added = self.insert(other.get(i).duplicate());
            proof {
                lemma_placed_members(before, other@[i as int], self@);
                let t = other@.take(i + 1);
                assert(t.drop_last() == other@.take(i as int));
                assert(t == other@.take(i as int).push(other@[i as int]));
                assert forall|x: T::V| t.to_set().contains(x) <==> other@.take(
                    i as int,
                ).to_set().insert(other@[i as int]).contains(x) by {
                    if t.contains(x) {
                        let k = choose|k: int| 0 <= k < t.len() && t[k] == x;
                        if k < i {
                            assert(other@.take(i as int)[k] == x);
                        }
                    }
                    if other@.take(i as int).contains(x) {
                        let k = choose|k: int|
                            0 <= k < other@.take(i as int).len() && other@.take(i as int)[k] == x;
                        assert(t[k] == x);
                    }
                    if x == other@[i as int] {
                        assert(t[i as int] == x);
                    }
                }
                assert(self@.to_set() =~= old(self)@.to_set().union(t.to_set()));
            }
            i += 1;
        }
        proof {
            assert(other@.take(n as int) == other@);
            assert(other@.take(0).to_set() =~= Set::<T::V>::empty()) by {
                assert(other@.take(0).len() == 0);
            }
        }
    }

    /// The values of this set that `other` does not hold, in order.
    pub fn without(&self, other: &OrdSet<T>) -> (r: OrdSet<T>)
        ensures
            r@ == self@.filter(|v: T::V| !other@.contains(v)),
            increasing::<T>(r@),
    {
        let n = self.len();
        let ghost keep = |v: T::V| !other@.contains(v);
        let mut entries: Vec<(Vec<u32>, T)> = Vec::new();
        let mut i: usize = 0;
        proof {
            use_type_invariant(self);
            assert(self@.take(0).filter(keep) =~= Seq::<T::V>::empty()) by {
                reveal(Seq::filter);
            }
        }
        while i < n
            invariant
                i <= n,
                n == self@.len(),
                n == self.entries@.len(),
                keep == (|v: T::V| !other@.contains(v)),
                increasing::<T>(self@),
                entries@.len() <= i,
                Seq::new(entries@.len(), |k: int| entries@[k].1@) == self@.take(i as int).filter(
                    keep,
                ),
                forall|k: int|
                    0 <= k < entries@.len() ==> (#[trigger] entries@[k]).0@ == T::key_of(
                        entries@[k].1@,
                    ),
                forall|a: int, b: int|
                    0 <= a < b < entries@.len() ==> key_lt(
                        (#[trigger] entries@[a]).0@,
                        (#[trigger] entries@[b]).0@,
                    ),
                forall|k: int|
                    0 <= k < entries@.len() ==> exists|j: int|
                        0 <= j < i && (#[trigger] entries@[k]).1@ == self@[j],
            decreases n - i,
        {
            let item = self.get(i);
            let ghost so_far = Seq::new(entries@.len(), |k: int| entries@[k].1@);
            proof {
                let t = self@.take(i + 1);
                assert(t.drop_last() == self@.take(i as int));
                assert(t.last() == self@[i as int]);
                reveal(Seq::filter);
                assert(t.filter(keep) == if keep(self@[i as int]) {
                    so_far.push(self@[i as int])
                } else {
                    so_far
                });
            }
            if !other.contains(item) {
                let copy = item.duplicate();
                let key = copy.key();
                proof {
                    assert forall|a: int| 0 <= a < entries@.len() implies key_lt(
                        (#[trigger] entries@[a]).0@,
                        key@,
                    ) by {
                        let j = choose|j: int| 0 <= j < i && entries@[a].1@ == self@[j];
                        assert(key_lt(T::key_of(self@[j]), T::key_of(self@[i as int])));
                    }
                }
                entries.push((key, copy));
                proof {
                    assert(entries@[entries@.len() - 1].1@ == self@[i as int]);
                    assert(Seq::new(entries@.len(), |k: int| entries@[k].1@) =~= so_far.push(
                        self@[i as int],
                    ));
                }
            }
            i += 1;
        }
        proof {
            assert(self@.take(n as int) == self@);
        }
        let r = OrdSet { entries };
        assert(r@ =~= self@.filter(keep));
        r
    }

    /// Takes `value` out of the set, if the set holds it. Says whether it did.
    pub fn remove(&mut self, value: &T) -> (removed: bool)
        ensures
            removed == old(self)@.contains(value@),
            !removed ==> final(self)@ == old(self)@,
            removed ==> final(self)@.len() == old(self)@.len() - 1,
            final(self)@.to_set() == old(self)@.to_set().remove(value@),
            increasing::<T>(final(self)@),
    {
        proof {
            use_type_invariant(&*self);
        }
        let key = value.key();
        let (at, found) = self.search(&key);
        if !found {
            proof {
                assert forall|i: int| 0 <= i < self@.len() implies self@[i] != value@ by {
                    lemma_lt_irreflexive(key@);
                }
                assert(self@.to_set() =~= self@.to_set().remove(value@));
            }
            return false;
        }
        let ghost before = self@;
        proof {
            T::lemma_key_tells(self.entries@[at as int].1@, value@);
            assert(before[at as int] == value@);
            lemma_increasing_no_duplicates::<T>(before);
        }
        let mut entries: Vec<(Vec<u32>, T)> = Vec::new();
        std::mem::swap(&mut self.entries, &mut entries);
        entries.remove(at);
        *self = OrdSet { entries };
        proof {
            assert(self@ =~= before.remove(at as int));
            assert forall|x: T::V| self@.to_set().contains(x) <==> before.to_set().remove(
                value@,
            ).contains(x) by {
                if self@.contains(x) {
                    let i = choose|i: int| 0 <= i < self@.len() && self@[i] == x;
                    if i < at {
                        assert(before[i] == x);
                    } else {
                        assert(before[i + 1] == x);
                    }
                }
                if before.contains(x) && x != value@ {
                    let i = choose|i: int| 0 <= i < before.len() && before[i] == x;
                    if i < at {
                        assert(self@[i] == x);
                    } else {
                        assert(self@[i - 1] == x);
                    }
                }
            }
            assert(self@.to_set() =~= before.to_set().remove(value@));
        }
        true
    }

    /// Takes the first value of the order out of the set.
    pub fn pop_first(&mut self) -> (r: Option<T>)
        ensures
            old(self)@.len() == 0 ==> r is None && final(self)@ == old(self)@,
            old(self)@.len() > 0 ==> r is Some && r->Some_0@ == old(self)@[0] && final(self)@
                == old(self)@.drop_first(),
            increasing::<T>(final(self)@),
    {
        proof {
            use_type_invariant(&*self);
        }
        if self.entries.len() == 0 {
            return None;
        }
        let mut entries: Vec<(Vec<u32>, T)> = Vec::new();
        std::mem::swap(&mut self.entries, &mut entries);
        let first = entries.remove(0);
        *self = OrdSet { entries };
        proof {
            assert(self@ =~= old(self)@.drop_first());
        }
        Some(first.1)
    }
}

} // verus!
