//! A map whose entries expire a fixed time after they were put in.
//!
//! Time is counted in nanoseconds since the map was made. Every operation
//! exists in two forms: one that takes the time as an argument, and one that
//! reads the clock and hands the time on to the first.

use vstd::prelude::*;
use std::time::Instant;
use crate::order::{rank_keys, Rank};
use crate::ordset::Keyed;

verus! {

/// `std::time::Instant`: a moment of the monotonic clock, carried as it is.
#[verifier::external_type_specification]
#[verifier::external_body]
pub struct ExInstant(Instant);

/// Starts a clock.
///
/// Trusted: `Instant::now` gives the present moment; nothing is known of it.
#[verifier::external_body]
fn clock_start() -> Instant {
    Instant::now()
}

/// The nanoseconds that have passed since `origin`.
///
/// Trusted: `Instant::elapsed` reads the clock; nothing is known of the count.
#[verifier::external_body]
fn clock_read(origin: &Instant) -> u128 {
    origin.elapsed().as_nanos()
}

/// A value and the time from which it counts as expired.
pub struct Timed<T> {
    pub value: T,
    pub expiration: u128,
}

impl<T> Timed<T> {
    /// A value that expires at `expiration`.
    pub fn new(value: T, expiration: u128) -> (r: Self)
        ensures
            r.value == value,
            r.expiration == expiration,
    {
        Timed { value, expiration }
    }

    /// The value.
    pub fn value(&self) -> (r: &T)
        ensures
            *r == self.value,
    {
        &self.value
    }

    /// Whether the value has expired at time `now`: its expiry has come.
    pub open spec fn expired_at(self, now: u128) -> bool {
        self.expiration <= now
    }

    /// Whether the value has expired at time `now`.
    pub fn is_expired_at(&self, now: u128) -> (r: bool)
        ensures
            r == self.expired_at(now),
    {
        self.expiration <= now
    }
}

/// The number of nanoseconds in a millisecond.
pub const NANOS_PER_MILLI: u128 = 1_000_000;

/// The time at which an entry put in at `now` expires: `ttl_millis`
/// milliseconds later, or never where that time cannot be counted.
pub open spec fn expiry(now: u128, ttl_millis: u64) -> u128 {
    if now + ttl_millis * NANOS_PER_MILLI > u128::MAX {
        u128::MAX
    } else {
        (now + ttl_millis * NANOS_PER_MILLI) as u128
    }
}

/// What a sweep at time `now` leaves of `m`: the entries that expire later
/// than `now`.
pub open spec fn swept<K, V>(m: Map<K, Timed<V>>, now: u128) -> Map<K, Timed<V>> {
    Map::new(|k: K| m.contains_key(k) && m[k].expiration > now, |k: K| m[k])
}

/// What a lookup of `k` at time `now` gives: the value stored under `k`,
/// unless it has expired.
pub open spec fn lookup<K, V>(m: Map<K, Timed<V>>, k: K, now: u128) -> Option<V> {
    if m.contains_key(k) && !m[k].expired_at(now) {
        Some(m[k].value)
    } else {
        None
    }
}

/// What putting `v` under `k` at time `now` makes of `m`: the map is swept,
/// and `k` then leads to `v`, which expires `ttl_millis` milliseconds later.
pub open spec fn inserted<K, V>(m: Map<K, Timed<V>>, ttl_millis: u64, k: K, v: V, now: u128) -> Map<
    K,
    Timed<V>,
> {
    swept(m, now).insert(k, Timed { value: v, expiration: expiry(now, ttl_millis) })
}

/// A value that was put in is found as long as it is younger than the time
/// to live.
pub proof fn lemma_insert_then_get<K, V>(
    m: Map<K, Timed<V>>,
    ttl_millis: u64,
    k: K,
    v: V,
    now: u128,
    later: u128,
)
    requires
        now <= later,
        later - now < ttl_millis * NANOS_PER_MILLI,
        later < u128::MAX,
    ensures
        lookup(inserted(m, ttl_millis, k, v, now), k, later) == Some(v),
{
}

/// A value that was put in is not found once it is as old as the time to
/// live: what a lookup shows is younger.
pub proof fn lemma_expired_is_gone<K, V>(
    m: Map<K, Timed<V>>,
    ttl_millis: u64,
    k: K,
    v: V,
    now: u128,
    later: u128,
)
    requires
        later - now >= ttl_millis * NANOS_PER_MILLI,
    ensures
        lookup(inserted(m, ttl_millis, k, v, now), k, later) is None,
{
}

/// After an insertion the map holds the new entry and, besides it, only
/// entries that have not expired.
pub proof fn lemma_insert_sweeps<K, V>(
    m: Map<K, Timed<V>>,
    ttl_millis: u64,
    k: K,
    v: V,
    now: u128,
    other: K,
)
    requires
        other != k,
        inserted(m, ttl_millis, k, v, now).contains_key(other),
    ensures
        m.contains_key(other),
        inserted(m, ttl_millis, k, v, now)[other] == m[other],
        m[other].expiration > now,
{
}

/// A lookup finds only what has not reached its expiry.
pub proof fn lemma_visible_is_live<K, V>(m: Map<K, Timed<V>>, k: K, now: u128)
    requires
        lookup(m, k, now) is Some,
    ensures
        m.contains_key(k),
        now < m[k].expiration,
{
}

/// A sweep removes nothing that a lookup at the same time shows, and a
/// lookup shows nothing that the sweep removes.
pub proof fn lemma_sweep_keeps_lookups<K, V>(m: Map<K, Timed<V>>, k: K, now: u128)
    ensures
        lookup(swept(m, now), k, now) == lookup(m, k, now),
        swept(m, now).contains_key(k) <==> lookup(m, k, now) is Some,
{
}

/// An insertion changes no lookup at the same time but that of its own key.
pub proof fn lemma_insert_keeps_lookups<K, V>(
    m: Map<K, Timed<V>>,
    ttl_millis: u64,
    k: K,
    v: V,
    now: u128,
    other: K,
)
    requires
        other != k,
    ensures
        lookup(inserted(m, ttl_millis, k, v, now), other, now) == lookup(m, other, now),
{
}

/// One stored entry: the key with its sort key, and the value with its expiry.
struct Slot<K, V> {
    code: Vec<u32>,
    key: K,
    entry: Timed<V>,
}

/// The map that a sequence of slots stands for.
spec fn map_of<K: Keyed, V>(slots: Seq<Slot<K, V>>) -> Map<K::V, Timed<V>> {
    Map::new(
        |k: K::V| exists|i: int| 0 <= i < slots.len() && (#[trigger] slots[i]).key@ == k,
        |k: K::V|
            slots[choose|i: int| 0 <= i < slots.len() && (#[trigger] slots[i]).key@ == k].entry,
    )
}

/// Whether each slot holds the code of its key, and no key stands twice.
spec fn slots_ok<K: Keyed, V>(slots: Seq<Slot<K, V>>) -> bool {
    &&& forall|i: int|
        0 <= i < slots.len() ==> (#[trigger] slots[i]).code@ == K::key_of(slots[i].key@)
    &&& forall|i: int, j: int|
        0 <= i < j < slots.len() ==> (#[trigger] slots[i]).key@ != (#[trigger] slots[j]).key@
}

proof fn lemma_map_of<K: Keyed, V>(slots: Seq<Slot<K, V>>)
    requires
        slots_ok(slots),
    ensures
        forall|i: int|
            0 <= i < slots.len() ==> map_of(slots).contains_key((#[trigger] slots[i]).key@)
                && map_of(slots)[slots[i].key@] == slots[i].entry,
        forall|k: K::V|
            map_of(slots).contains_key(k) ==> exists|i: int|
                0 <= i < slots.len() && (#[trigger] slots[i]).key@ == k,
{
    assert forall|i: int| 0 <= i < slots.len() implies map_of(slots).contains_key(
        (#[trigger] slots[i]).key@,
    ) && map_of(slots)[slots[i].key@] == slots[i].entry by {
        let k = slots[i].key@;
        let c = choose|c: int| 0 <= c < slots.len() && (#[trigger] slots[c]).key@ == k;
        assert(c == i);
    }
}

/// A map from keys to values in which every entry expires a fixed time after
/// it was put in. Its view is what is stored: each key with its value and
/// the time of its expiry. What has expired stays stored until the next
/// sweep, but is not found.
pub struct ExpiringMap<K: Keyed, V> {
    slots: Vec<Slot<K, V>>,
    ttl_millis: u64,
    origin: Instant,
}

impl<K: Keyed, V> View for ExpiringMap<K, V> {
    type V = Map<K::V, Timed<V>>;

    closed spec fn view(&self) -> Map<K::V, Timed<V>> {
        map_of(self.slots@)
    }
}

impl<K: Keyed, V> ExpiringMap<K, V> {
    #[verifier::type_invariant]
    spec fn well_formed(self) -> bool {
        slots_ok(self.slots@)
    }

    /// The time that an entry lives, in milliseconds.
    pub closed spec fn ttl(&self) -> u64 {
        self.ttl_millis
    }

    /// An empty map whose entries live for `ttl_millis` milliseconds.
    pub fn new(ttl_millis: u64) -> (r: Self)
        ensures
            r@ == Map::<K::V, Timed<V>>::empty(),
            r.ttl() == ttl_millis,
    {
        let r = ExpiringMap { slots: Vec::new(), ttl_millis, origin: clock_start() };
        assert(r@ =~= Map::<K::V, Timed<V>>::empty());
        r
    }

    /// The number of entries stored, expired ones included.
    pub fn len(&self) -> (r: usize)
        ensures
            r == self@.dom().len(),
            self@.dom().finite(),
    {
        proof {
            use_type_invariant(self);
            lemma_dom_len(self.slots@);
        }
        self.slots.len()
    }

    /// The nanoseconds that have passed since the map was made.
    pub fn now(&self) -> u128 {
        clock_read(&self.origin)
    }

    fn position(&self, code: &Vec<u32>) -> (r: Option<usize>)
        ensures
            r matches Some(i) ==> i < self.slots@.len() && self.slots@[i as int].code@ == code@,
            r is None ==> forall|i: int|
                0 <= i < self.slots@.len() ==> (#[trigger] self.slots@[i]).code@ != code@,
    {
        let mut i: usize = 0;
        while i < self.slots.len()
            invariant
                i <= self.slots@.len(),
                forall|k: int| 0 <= k < i ==> (#[trigger] self.slots@[k]).code@ != code@,
            decreases self.slots@.len() - i,
        {
            match rank_keys(&self.slots[i].code, code) {
                Rank::Same => {
                    return Some(i);
                },
                _ => {},
            }
            i += 1;
        }
        None
    }

    /// The value stored under `key`, unless it has expired at time `now`.
    pub fn get_at(&self, key: &K, now: u128) -> (r: Option<&V>)
        ensures
            r is Some <==> lookup(self@, key@, now) is Some,
            r matches Some(v) ==> lookup(self@, key@, now) == Some(*v),
    {
        proof {
            use_type_invariant(self);
            lemma_map_of(self.slots@);
        }
        let code = key.key();
        match self.position(&code) {
            Some(i) => {
                proof {
                    K::lemma_key_tells(self.slots@[i as int].key@, key@);
                }
                if self.slots[i].entry.is_expired_at(now) {
                    None
                } else {
                    Some(self.slots[i].entry.value())
                }
            },
            None => None,
        }
    }

    /// Whether a value is stored under `key` that has not expired at time `now`.
    pub fn contains_key_at(&self, key: &K, now: u128) -> (r: bool)
        ensures
            r == lookup(self@, key@, now) is Some,
    {
        self.get_at(key, now).is_some()
    }

    /// The value stored under `key`, unless it has expired by now: what
    /// `get_at` gives for the time that the clock shows.
    pub fn get(&self, key: &K) -> (r: Option<&V>)
        ensures
            exists|now: u128|
                (r is Some <==> #[trigger] lookup(self@, key@, now) is Some) && (r matches Some(v)
                    ==> lookup(self@, key@, now) == Some(*v)),
    {
        let now = self.now();
        self.get_at(key, now)
    }

    /// Whether a value is stored under `key` that has not expired by now:
    /// what `contains_key_at` gives for the time that the clock shows.
    pub fn contains_key(&self, key: &K) -> (r: bool)
        ensures
            exists|now: u128| r == #[trigger] lookup(self@, key@, now) is Some,
    {
        let now = self.now();
        self.contains_key_at(key, now)
    }

    /// Removes every entry that has expired at time `now`: what is left is
    /// what a lookup at `now` shows.
    pub fn cleanup_at(&mut self, now: u128)
        ensures
            final(self)@ == swept(old(self)@, now),
            final(self).ttl() == old(self).ttl(),
    {
        proof {
            use_type_invariant(&*self);
        }
        let mut rest: Vec<Slot<K, V>> = Vec::new();
        std::mem::swap(&mut self.slots, &mut rest);
        let ghost orig = rest@;
        let mut kept: Vec<Slot<K, V>> = Vec::new();
        while rest.len() > 0
            invariant
                slots_ok(orig),
                rest@.len() <= orig.len(),
                rest@ == orig.take(rest@.len() as int),
                forall|j: int|
                    0 <= j < kept@.len() ==> live_from(orig, #[trigger] kept@[j], rest@.len() as int, now),
                forall|i: int|
                    rest@.len() <= i < orig.len() && (#[trigger] orig[i]).entry.expiration > now
                        ==> kept@.contains(orig[i]),
                slots_ok(kept@),
            decreases rest@.len(),
        {
            let ghost n = rest@.len();
            let ghost before = kept@;
            let slot = rest.pop().unwrap();
            assert(slot == orig[n - 1]);
            assert(rest@ =~= orig.take(n - 1));
            if slot.entry.expiration > now {
                kept.push(slot);
                proof {
                    lemma_keep_one(orig, before, kept@, n as int, now);
                }
            } else {
                proof {
                    lemma_drop_one(orig, kept@, n as int, now);
                }
            }
        }
        proof {
            lemma_sweep_map(orig, kept@, now);
        }
        std::mem::swap(&mut self.slots, &mut kept);
    }

    /// Sweeps the map at time `now`, then stores `value` under `key`, to
    /// expire one time to live after `now`. Gives back the value that the
    /// swept map held under `key`.
    pub fn insert_at(&mut self, key: K, value: V, now: u128) -> (r: Option<V>)
        ensures
            final(self)@ == inserted(old(self)@, old(self).ttl(), key@, value, now),
            final(self).ttl() == old(self).ttl(),
            r == (if swept(old(self)@, now).contains_key(key@) {
                Some(old(self)@[key@].value)
            } else {
                None::<V>
            }),
    {
        self.cleanup_at(now);
        proof {
            use_type_invariant(&*self);
            lemma_map_of(self.slots@);
        }
        let ghost mid = self@;
        let code = key.key();
        let found = self.position(&code);
        let span: u128 = (self.ttl_millis as u128) * NANOS_PER_MILLI;
        let expiration: u128 = match now.checked_add(span) {
            Some(t) => t,
            None => u128::MAX,
        };
        let mut slots: Vec<Slot<K, V>> = Vec::new();
        std::mem::swap(&mut self.slots, &mut slots);
        let ghost before = slots@;
        let ghost k = key@;
        let entry = Timed { value, expiration };
        let r = match found {
            Some(i) => {
                proof {
                    K::lemma_key_tells(before[i as int].key@, k);
                }
                let old_slot = slots.remove(i);
                Some(old_slot.entry.value)
            },
            None => {
                proof {
                    assert forall|i: int| 0 <= i < before.len() implies (#[trigger] before[i]).key@
                        != k by {
                        if before[i].key@ == k {
                            assert(before[i].code@ == code@);
                        }
                    }
                }
                None
            },
        };
        let ghost trimmed = slots@;
        slots.push(Slot { code, key, entry });
        proof {
            let after = slots@;
            assert forall|i: int| 0 <= i < trimmed.len() implies (#[trigger] trimmed[i]).key@
                != k && exists|j: int| 0 <= j < before.len() && before[j] == trimmed[i] by {
                match found {
                    Some(at) => {
                        if i < at {
                            assert(trimmed[i] == before[i]);
                        } else {
                            assert(trimmed[i] == before[i + 1]);
                        }
                    },
                    None => {
                        assert(trimmed[i] == before[i]);
                    },
                }
            }
            assert(slots_ok(after)) by {
                assert forall|i: int| 0 <= i < after.len() implies (#[trigger] after[i]).code@
                    == K::key_of(after[i].key@) by {
                    if i < trimmed.len() {
                        let j = choose|j: int| 0 <= j < before.len() && before[j] == trimmed[i];
                    }
                }
                assert forall|a: int, b: int| 0 <= a < b < after.len() implies (
                #[trigger] after[a]).key@ != (#[trigger] after[b]).key@ by {
                    if b < trimmed.len() {
                        match found {
                            Some(at) => {
                                let x = if a < at { a } else { a + 1 };
                                let y = if b < at { b } else { b + 1 };
                                assert(trimmed[a] == before[x]);
                                assert(trimmed[b] == before[y]);
                            },
                            None => {
                                assert(trimmed[a] == before[a]);
                                assert(trimmed[b] == before[b]);
                            },
                        }
                    } else {
                        assert(after[a] == trimmed[a]);
                    }
                }
            }
            lemma_map_of(after);
            let goal = mid.insert(k, entry);
            assert forall|x: K::V| #[trigger] map_of(after).contains_key(x) <==> goal.contains_key(
                x,
            ) by {
                if map_of(after).contains_key(x) {
                    let i = choose|i: int| 0 <= i < after.len() && (#[trigger] after[i]).key@ == x;
                    if i < trimmed.len() {
                        let j = choose|j: int| 0 <= j < before.len() && before[j] == trimmed[i];
                        assert(before[j].key@ == x);
                    }
                }
                if goal.contains_key(x) && x != k {
                    let j = choose|j: int| 0 <= j < before.len() && (#[trigger] before[j]).key@ == x;
                    match found {
                        Some(at) => {
                            if j < at {
                                assert(after[j] == before[j]);
                            } else {
                                assert(j != at);
                                assert(after[j - 1] == before[j]);
                            }
                        },
                        None => {
                            assert(after[j] == before[j]);
                        },
                    }
                }
                if x == k {
                    assert(after[after.len() - 1].key@ == k);
                }
            }
            assert forall|x: K::V| #[trigger] map_of(after).contains_key(x) implies map_of(
                after,
            )[x] == goal[x] by {
                let i = choose|i: int| 0 <= i < after.len() && (#[trigger] after[i]).key@ == x;
                if i < trimmed.len() {
                    let j = choose|j: int| 0 <= j < before.len() && before[j] == trimmed[i];
                    assert(before[j].key@ == x);
                } else {
                    assert(x == k);
                }
            }
            assert(map_of(after) =~= goal);
        }
        std::mem::swap(&mut self.slots, &mut slots);
        r
    }

    /// Removes what has expired by now: what `cleanup_at` does for the time
    /// that the clock shows.
    pub fn cleanup(&mut self)
        ensures
            final(self).ttl() == old(self).ttl(),
            exists|now: u128| final(self)@ == #[trigger] swept(old(self)@, now),
    {
        let now = self.now();
        self.cleanup_at(now);
    }

    /// Removes what has expired by now, then stores `value` under `key`, to
    /// expire one time to live from now: what `insert_at` does for the time
    /// that the clock shows.
    pub fn insert(&mut self, key: K, value: V) -> (r: Option<V>)
        ensures
            final(self).ttl() == old(self).ttl(),
            exists|now: u128|
                final(self)@ == #[trigger] inserted(old(self)@, old(self).ttl(), key@, value, now)
                    && r == (if swept(old(self)@, now).contains_key(key@) {
                    Some(old(self)@[key@].value)
                } else {
                    None::<V>
                }),
    {
        let now = self.now();
        self.insert_at(key, value, now)
    }

    /// Removes every entry.
    pub fn clear(&mut self)
        ensures
            final(self)@ == Map::<K::V, Timed<V>>::empty(),
            final(self).ttl() == old(self).ttl(),
    {
        let mut slots: Vec<Slot<K, V>> = Vec::new();
        std::mem::swap(&mut self.slots, &mut slots);
        assert(self@ =~= Map::<K::V, Timed<V>>::empty());
    }
}

/// Whether `x` is one of the slots of `orig` from position `lo` on, and
/// expires later than `now`.
spec fn live_from<K: Keyed, V>(orig: Seq<Slot<K, V>>, x: Slot<K, V>, lo: int, now: u128) -> bool {
    exists|i: int| lo <= i < orig.len() && #[trigger] orig[i] == x && x.entry.expiration > now
}

proof fn lemma_drop_one<K: Keyed, V>(orig: Seq<Slot<K, V>>, kept: Seq<Slot<K, V>>, n: int, now: u128)
    requires
        0 < n <= orig.len(),
        forall|j: int| 0 <= j < kept.len() ==> live_from(orig, #[trigger] kept[j], n, now),
        forall|i: int|
            n <= i < orig.len() && (#[trigger] orig[i]).entry.expiration > now ==> kept.contains(
                orig[i],
            ),
        !(orig[n - 1].entry.expiration > now),
    ensures
        forall|j: int| 0 <= j < kept.len() ==> live_from(orig, #[trigger] kept[j], n - 1, now),
        forall|i: int|
            n - 1 <= i < orig.len() && (#[trigger] orig[i]).entry.expiration > now
                ==> kept.contains(orig[i]),
{
    assert forall|j: int| 0 <= j < kept.len() implies live_from(
        orig,
        #[trigger] kept[j],
        n - 1,
        now,
    ) by {
        let i = choose|i: int|
            n <= i < orig.len() && #[trigger] orig[i] == kept[j] && kept[j].entry.expiration > now;
        assert(n - 1 <= i < orig.len() && orig[i] == kept[j]);
    }
}

proof fn lemma_keep_one<K: Keyed, V>(
    orig: Seq<Slot<K, V>>,
    before: Seq<Slot<K, V>>,
    kept: Seq<Slot<K, V>>,
    n: int,
    now: u128,
)
    requires
        0 < n <= orig.len(),
        slots_ok(orig),
        slots_ok(before),
        kept == before.push(orig[n - 1]),
        forall|j: int| 0 <= j < before.len() ==> live_from(orig, #[trigger] before[j], n, now),
        forall|i: int|
            n <= i < orig.len() && (#[trigger] orig[i]).entry.expiration > now ==> before.contains(
                orig[i],
            ),
        orig[n - 1].entry.expiration > now,
    ensures
        slots_ok(kept),
        forall|j: int| 0 <= j < kept.len() ==> live_from(orig, #[trigger] kept[j], n - 1, now),
        forall|i: int|
            n - 1 <= i < orig.len() && (#[trigger] orig[i]).entry.expiration > now
                ==> kept.contains(orig[i]),
{
    assert forall|j: int| 0 <= j < kept.len() implies live_from(
        orig,
        #[trigger] kept[j],
        n - 1,
        now,
    ) by {
        if j < before.len() {
            let i = choose|i: int|
                n <= i < orig.len() && #[trigger] orig[i] == before[j] && before[j].entry.expiration
                    > now;
            assert(n - 1 <= i < orig.len() && orig[i] == kept[j]);
        } else {
            assert(orig[n - 1] == kept[j]);
        }
    }
    assert forall|i: int|
        n - 1 <= i < orig.len() && (#[trigger] orig[i]).entry.expiration > now implies kept.contains(
        orig[i],
    ) by {
        if i == n - 1 {
            assert(kept[kept.len() - 1] == orig[i]);
        } else {
            let j = choose|j: int| 0 <= j < before.len() && before[j] == orig[i];
            assert(kept[j] == orig[i]);
        }
    }
    assert forall|a: int| 0 <= a < kept.len() implies (#[trigger] kept[a]).code@ == K::key_of(
        kept[a].key@,
    ) by {
        if a < before.len() {
            assert(kept[a] == before[a]);
        }
    }
    assert forall|a: int, b: int| 0 <= a < b < kept.len() implies (#[trigger] kept[a]).key@ != (
    #[trigger] kept[b]).key@ by {
        if b == kept.len() - 1 {
            let i = choose|i: int|
                n <= i < orig.len() && #[trigger] orig[i] == before[a] && before[a].entry.expiration
                    > now;
            assert(orig[n - 1].key@ != orig[i].key@);
        } else {
            assert(before[a].key@ != before[b].key@);
        }
    }
}

proof fn lemma_sweep_map<K: Keyed, V>(orig: Seq<Slot<K, V>>, kept: Seq<Slot<K, V>>, now: u128)
    requires
        slots_ok(orig),
        slots_ok(kept),
        forall|j: int| 0 <= j < kept.len() ==> live_from(orig, #[trigger] kept[j], 0, now),
        forall|i: int|
            0 <= i < orig.len() && (#[trigger] orig[i]).entry.expiration > now ==> kept.contains(
                orig[i],
            ),
    ensures
        map_of(kept) == swept(map_of(orig), now),
{
    lemma_map_of(orig);
    lemma_map_of(kept);
    let goal = swept(map_of(orig), now);
    assert forall|k: K::V| #[trigger] map_of(kept).contains_key(k) implies goal.contains_key(k)
        && map_of(kept)[k] == goal[k] by {
        let j = choose|j: int| 0 <= j < kept.len() && (#[trigger] kept[j]).key@ == k;
        let i = choose|i: int|
            0 <= i < orig.len() && #[trigger] orig[i] == kept[j] && kept[j].entry.expiration > now;
        assert(orig[i].key@ == k);
    }
    assert forall|k: K::V| #[trigger] goal.contains_key(k) implies map_of(kept).contains_key(k) by {
        let i = choose|i: int| 0 <= i < orig.len() && (#[trigger] orig[i]).key@ == k;
        assert(kept.contains(orig[i]));
        let j = choose|j: int| 0 <= j < kept.len() && kept[j] == orig[i];
        assert(kept[j].key@ == k);
    }
    assert(map_of(kept) =~= goal);
}

proof fn lemma_dom_len<K: Keyed, V>(slots: Seq<Slot<K, V>>)
    requires
        slots_ok(slots),
    ensures
        map_of(slots).dom().finite(),
        map_of(slots).dom().len() == slots.len(),
    decreases slots.len(),
{
    if slots.len() == 0 {
        assert(map_of(slots).dom() =~= Set::<K::V>::empty());
    } else {
        let rest = slots.drop_last();
        let last = slots.last();
        assert(slots_ok(rest)) by {
            assert forall|i: int| 0 <= i < rest.len() implies (#[trigger] rest[i]).code@
                == K::key_of(rest[i].key@) by {
                assert(rest[i] == slots[i]);
            }
            assert forall|i: int, j: int| 0 <= i < j < rest.len() implies (#[trigger] rest[i]).key@
                != (#[trigger] rest[j]).key@ by {
                assert(rest[i] == slots[i]);
                assert(rest[j] == slots[j]);
            }
        }
        lemma_dom_len(rest);
        assert(!map_of(rest).dom().contains(last.key@)) by {
            if map_of(rest).dom().contains(last.key@) {
                let i = choose|i: int| 0 <= i < rest.len() && (#[trigger] rest[i]).key@ == last.key@;
                assert(rest[i] == slots[i]);
                assert(slots[i].key@ != slots[slots.len() - 1].key@);
            }
        }
        assert(map_of(slots).dom() =~= map_of(rest).dom().insert(last.key@)) by {
            assert forall|k: K::V| map_of(slots).dom().contains(k) <==> map_of(
                rest,
            ).dom().insert(last.key@).contains(k) by {
                if map_of(slots).dom().contains(k) {
                    let i = choose|i: int| 0 <= i < slots.len() && (#[trigger] slots[i]).key@ == k;
                    if i < rest.len() {
                        assert(rest[i] == slots[i]);
                    }
                }
                if map_of(rest).dom().contains(k) {
                    let i = choose|i: int| 0 <= i < rest.len() && (#[trigger] rest[i]).key@ == k;
                    assert(rest[i] == slots[i]);
                }
                if k == last.key@ {
                    assert(slots[slots.len() - 1].key@ == k);
                }
            }
        }
    }
}

} // verus!
