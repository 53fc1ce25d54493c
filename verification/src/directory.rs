//! Looking up directory objects with as few questions as possible.
//!
//! The cache maps an identifier to the object found for it, or to nothing
//! where the directory was asked and knew no such object. A lookup asks the
//! directory only for identifiers that the cache does not answer for, in
//! chunks of at most `CHUNK_SIZE`.

use vstd::prelude::*;
use crate::expiring::{
    expiry, inserted, lemma_insert_keeps_lookups, lookup, ExpiringMap, Timed, NANOS_PER_MILLI,
};
use crate::graph::Object;
use crate::ordset::{Keyed, OrdSet};
use crate::text::texts;

verus! {

/// The largest number of identifiers that the directory takes in one question.
pub const CHUNK_SIZE: usize = 50;

/// What is stored: for each identifier an object, or nothing for an
/// identifier that the directory does not know.
pub type Stored = Map<Seq<char>, Timed<Option<Object>>>;

/// Whether every object that is stored is stored under its own identifier.
pub open spec fn keyed(m: Stored) -> bool {
    forall|k: Seq<char>|
        #[trigger] m.contains_key(k) && m[k].value is Some ==> m[k].value->Some_0.id@ == k
}

/// The object that the cache shows for `id` at `now`, if it shows one.
pub open spec fn shown(m: Stored, id: Seq<char>, now: u128) -> Option<Object> {
    match lookup(m, id, now) {
        Some(Some(o)) => Some(o),
        _ => None,
    }
}

/// The cache of directory objects. Every object in it is stored under its
/// own identifier.
pub struct ObjectCache {
    map: ExpiringMap<String, Option<Object>>,
}

impl View for ObjectCache {
    type V = Stored;

    closed spec fn view(&self) -> Stored {
        self.map@
    }
}

impl ObjectCache {
    #[verifier::type_invariant]
    spec fn well_keyed(self) -> bool {
        keyed(self.map@)
    }

    /// The time that an entry lives, in milliseconds.
    pub closed spec fn ttl(&self) -> u64 {
        self.map.ttl()
    }

    /// An empty cache whose entries live for `ttl_millis` milliseconds.
    pub fn new(ttl_millis: u64) -> (r: ObjectCache)
        ensures
            r@ == Map::<Seq<char>, Timed<Option<Object>>>::empty(),
            r.ttl() == ttl_millis,
    {
        ObjectCache { map: ExpiringMap::new(ttl_millis) }
    }

    /// The nanoseconds that have passed since the cache was made.
    pub fn now(&self) -> u128 {
        self.map.now()
    }

    /// The number of entries stored, expired ones included.
    pub fn len(&self) -> (r: usize)
        ensures
            r == self@.dom().len(),
            keyed(self@),
    {
        proof {
            use_type_invariant(self);
        }
        self.map.len()
    }

    /// What the cache answers for `id` at `now`: an object, the mark of an
    /// unknown identifier, or nothing. An object that it gives has the
    /// identifier that was asked for.
    pub fn get_at(&self, id: &str, now: u128) -> (r: Option<&Option<Object>>)
        ensures
            r is Some <==> lookup(self@, id@, now) is Some,
            r matches Some(entry) ==> lookup(self@, id@, now) == Some(*entry),
            r matches Some(Some(o)) ==> o.id@ == id@,
            keyed(self@),
    {
        proof {
            use_type_invariant(self);
        }
        self.map.get_at(&id.to_string(), now)
    }

    /// Removes every entry.
    pub fn clear(&mut self)
        ensures
            final(self)@ == Map::<Seq<char>, Timed<Option<Object>>>::empty(),
            final(self).ttl() == old(self).ttl(),
    {
        let mut map: ExpiringMap<String, Option<Object>> = ExpiringMap::new(0);
        std::mem::swap(&mut self.map, &mut map);
        map.clear();
        std::mem::swap(&mut self.map, &mut map);
    }
}

/// The identifiers among `ids` that the cache does not answer for at `now`.
pub open spec fn unanswered(m: Stored, ids: Seq<Seq<char>>, now: u128) -> Seq<Seq<char>> {
    ids.filter(|id: Seq<char>| lookup(m, id, now) is None)
}

/// The texts of a vector of chunks, one after the other.
pub open spec fn chunk_texts(chunks: Seq<Vec<String>>) -> Seq<Seq<char>>
    decreases chunks.len(),
{
    if chunks.len() == 0 {
        Seq::<Seq<char>>::empty()
    } else {
        chunk_texts(chunks.drop_last()) + texts(chunks.last()@)
    }
}

/// Parts the identifiers that the cache does not answer for at `now` into
/// chunks for the directory: all of them, in order, each chunk full but the
/// last.
pub fn plan_lookup(cache: &ObjectCache, ids: &OrdSet<String>, now: u128) -> (r: Vec<Vec<String>>)
    ensures
        keyed(cache@),
        chunk_texts(r@) == unanswered(cache@, ids@, now),
        forall|i: int| 0 <= i < r@.len() ==> 0 < (#[trigger] r@[i])@.len() <= CHUNK_SIZE,
        forall|i: int| 0 <= i < r@.len() - 1 ==> (#[trigger] r@[i])@.len() == CHUNK_SIZE,
{
    proof {
        use_type_invariant(cache);
    }
    let n = ids.len();
    let ghost keep = |id: Seq<char>| lookup(cache@, id, now) is None;
    let mut chunks: Vec<Vec<String>> = Vec::new();
    let mut current: Vec<String> = Vec::new();
    let mut i: usize = 0;
    proof {
        reveal(Seq::filter);
        assert(ids@.take(0).filter(keep) =~= Seq::<Seq<char>>::empty());
        assert(chunk_texts(chunks@) + texts(current@) =~= Seq::<Seq<char>>::empty());
    }
    while i < n
        invariant
            i <= n,
            n == ids@.len(),
            keep == (|id: Seq<char>| lookup(cache@, id, now) is None),
            current@.len() < CHUNK_SIZE,
            chunk_texts(chunks@) + texts(current@) == ids@.take(i as int).filter(keep),
            forall|k: int| 0 <= k < chunks@.len() ==> (#[trigger] chunks@[k])@.len() == CHUNK_SIZE,
        decreases n - i,
    {
        let id = ids.get(i);
        let ghost so_far = ids@.take(i as int).filter(keep);
        proof {
            let t = ids@.take(i + 1);
            assert(t.drop_last() == ids@.take(i as int));
            assert(t.last() == ids@[i as int]);
            reveal(Seq::filter);
            assert(t.filter(keep) == if keep(ids@[i as int]) {
                so_far.push(ids@[i as int])
            } else {
                so_far
            });
        }
        if !cache.map.contains_key_at(id, now) {
            let ghost before = texts(current@);
            current.push(id.clone());
            assert(texts(current@) =~= before.push(ids@[i as int]));
            assert(chunk_texts(chunks@) + texts(current@) =~= so_far.push(ids@[i as int]));
            if current.len() == CHUNK_SIZE {
                let ghost done = chunks@;
                let ghost full = current@;
                let mut full_chunk: Vec<String> = Vec::new();
                std::mem::swap(&mut current, &mut full_chunk);
                chunks.push(full_chunk);
                proof {
                    assert(chunks@.drop_last() == done);
                    assert(chunks@.last()@ == full);
                    assert(chunk_texts(chunks@) == chunk_texts(done) + texts(full));
                    assert(chunk_texts(chunks@) + texts(current@) =~= chunk_texts(chunks@));
                }
            }
        }
        i += 1;
    }
    assert(ids@.take(n as int) == ids@);
    if current.len() > 0 {
        let ghost done = chunks@;
        let ghost last = current@;
        chunks.push(current);
        proof {
            assert(chunks@.drop_last() == done);
            assert(chunks@.last()@ == last);
        }
    } else {
        assert(chunk_texts(chunks@) + texts(current@) =~= chunk_texts(chunks@));
    }
    chunks
}

/// The cache after the objects of `found` were put in at `now`, one after
/// the other, each under its own identifier.
pub open spec fn absorbed(m: Stored, ttl: u64, found: Seq<Object>, now: u128) -> Stored
    decreases found.len(),
{
    if found.len() == 0 {
        m
    } else {
        inserted(
            absorbed(m, ttl, found.drop_last(), now),
            ttl,
            found.last().id@,
            Some(found.last()),
            now,
        )
    }
}

/// The cache after each of `ids` that it did not answer for at `now` was
/// marked as unknown, one after the other.
pub open spec fn settled(m: Stored, ttl: u64, ids: Seq<Seq<char>>, now: u128) -> Stored
    decreases ids.len(),
{
    if ids.len() == 0 {
        m
    } else {
        let before = settled(m, ttl, ids.drop_last(), now);
        if lookup(before, ids.last(), now) is Some {
            before
        } else {
            inserted(before, ttl, ids.last(), None::<Object>, now)
        }
    }
}

/// The objects that the cache shows at `now` for `ids`, in the order of
/// `ids`: one for each identifier that it shows an object for.
pub open spec fn answers(m: Stored, ids: Seq<Seq<char>>, now: u128) -> Seq<Object>
    decreases ids.len(),
{
    if ids.len() == 0 {
        Seq::<Object>::empty()
    } else {
        match shown(m, ids.last(), now) {
            Some(o) => answers(m, ids.drop_last(), now).push(o),
            None => answers(m, ids.drop_last(), now),
        }
    }
}

/// Putting objects in under their own identifiers keeps the cache keyed.
pub proof fn lemma_absorbed_keyed(m: Stored, ttl: u64, found: Seq<Object>, now: u128)
    requires
        keyed(m),
    ensures
        keyed(absorbed(m, ttl, found, now)),
    decreases found.len(),
{
    if found.len() > 0 {
        lemma_absorbed_keyed(m, ttl, found.drop_last(), now);
    }
}

/// Marking identifiers as unknown keeps the cache keyed, and changes no
/// object that the cache shows.
pub proof fn lemma_settled_shows(m: Stored, ttl: u64, ids: Seq<Seq<char>>, now: u128, id: Seq<char>)
    ensures
        keyed(m) ==> keyed(settled(m, ttl, ids, now)),
        lookup(m, id, now) is Some ==> lookup(settled(m, ttl, ids, now), id, now) == lookup(
            m,
            id,
            now,
        ),
        lookup(m, id, now) is None ==> lookup(settled(m, ttl, ids, now), id, now) is None || lookup(
            settled(m, ttl, ids, now),
            id,
            now,
        ) == Some(None::<Object>),
        shown(settled(m, ttl, ids, now), id, now) == shown(m, id, now),
    decreases ids.len(),
{
    if ids.len() > 0 {
        lemma_settled_shows(m, ttl, ids.drop_last(), now, id);
        let before = settled(m, ttl, ids.drop_last(), now);
        if !(lookup(before, ids.last(), now) is Some) && ids.last() != id {
            lemma_insert_keeps_lookups(before, ttl, ids.last(), None::<Object>, now, id);
        }
    }
}

/// What the answers are, identifier by identifier: each answer is the
/// object that the cache shows for its own identifier, which is one of
/// `ids`; and every object that the cache shows for one of `ids` is among
/// the answers.
pub proof fn lemma_answers(m: Stored, ids: Seq<Seq<char>>, now: u128)
    requires
        keyed(m),
    ensures
        forall|j: int|
            0 <= j < answers(m, ids, now).len() ==> ids.contains(
                (#[trigger] answers(m, ids, now)[j]).id@,
            ) && shown(m, answers(m, ids, now)[j].id@, now) == Some(answers(m, ids, now)[j]),
        forall|i: int|
            0 <= i < ids.len() && shown(m, #[trigger] ids[i], now) is Some ==> answers(
                m,
                ids,
                now,
            ).contains(shown(m, ids[i], now)->Some_0),
    decreases ids.len(),
{
    if ids.len() > 0 {
        let front = ids.drop_last();
        let a = answers(m, ids, now);
        let b = answers(m, front, now);
        lemma_answers(m, front, now);
        assert forall|j: int| 0 <= j < a.len() implies ids.contains((#[trigger] a[j]).id@) && shown(
            m,
            a[j].id@,
            now,
        ) == Some(a[j]) by {
            if j < b.len() {
                assert(a[j] == b[j]);
                let i = choose|i: int| 0 <= i < front.len() && front[i] == b[j].id@;
                assert(ids[i] == b[j].id@);
            } else {
                assert(shown(m, ids.last(), now) == Some(a[j]));
                assert(ids[ids.len() - 1] == a[j].id@);
            }
        }
        assert forall|i: int| 0 <= i < ids.len() && shown(m, #[trigger] ids[i], now) is Some implies a.contains(
            shown(m, ids[i], now)->Some_0,
        ) by {
            let o = shown(m, ids[i], now)->Some_0;
            if i < front.len() {
                assert(front[i] == ids[i]);
                let j = choose|j: int| 0 <= j < b.len() && b[j] == o;
                assert(a[j] == o);
            } else {
                assert(a[a.len() - 1] == o);
            }
        }
    }
}

/// Puts the objects of `found` into `map`.
fn absorb(map: &mut ExpiringMap<String, Option<Object>>, found: &Vec<Object>, now: u128)
    ensures
        final(map).ttl() == old(map).ttl(),
        final(map)@ == absorbed(old(map)@, old(map).ttl(), found@, now),
{
    let ghost ttl = map.ttl();
    let ghost start = map@;
    let mut i: usize = 0;
    while i < found.len()
        invariant
            i <= found@.len(),
            map.ttl() == ttl,
            map@ == absorbed(start, ttl, found@.take(i as int), now),
        decreases found@.len() - i,
    {
        proof {
            let t = found@.take(i + 1);
            assert(t.drop_last() == found@.take(i as int));
            assert(t.last() == found@[i as int]);
        }
        let object = found[i].duplicate();
        map.insert_at(object.id.clone(), Some(object), now);
        i += 1;
    }
    assert(found@.take(found@.len() as int) == found@);
}

/// Reads each of `ids` from `map` and marks as unknown those that it does
/// not answer for.
fn settle(map: &mut ExpiringMap<String, Option<Object>>, ids: &OrdSet<String>, now: u128) -> (r: Vec<
    Object,
>)
    ensures
        final(map).ttl() == old(map).ttl(),
        final(map)@ == settled(old(map)@, old(map).ttl(), ids@, now),
        r@ == answers(old(map)@, ids@, now),
{
    let ghost ttl = map.ttl();
    let ghost mid = map@;
    let n = ids.len();
    let mut result: Vec<Object> = Vec::new();
    let mut k: usize = 0;
    while k < n
        invariant
            k <= n,
            n == ids@.len(),
            map.ttl() == ttl,
            map@ == settled(mid, ttl, ids@.take(k as int), now),
            result@ == answers(mid, ids@.take(k as int), now),
        decreases n - k,
    {
        proof {
            let t = ids@.take(k + 1);
            assert(t.drop_last() == ids@.take(k as int));
            assert(t.last() == ids@[k as int]);
            lemma_settled_shows(mid, ttl, ids@.take(k as int), now, ids@[k as int]);
        }
        let id = ids.get(k);
        let hit: Option<Option<Object>> = match map.get_at(id, now) {
            Some(entry) => match entry {
                Some(o) => Some(Some(o.duplicate())),
                None => Some(None),
            },
            None => None,
        };
        match hit {
            Some(Some(o)) => {
                result.push(o);
            },
            Some(None) => {},
            None => {
                map.insert_at(id.clone(), None, now);
            },
        }
        k += 1;
    }
    assert(ids@.take(n as int) == ids@);
    result
}

/// Ends a lookup of `ids` at `now`: puts what the directory found into the
/// cache, then reads each identifier from the cache and marks as unknown
/// those that the cache does not answer for. Gives the objects that the
/// cache then shows for `ids`, in the order of `ids`: each has the
/// identifier it was asked under, and none is left out.
pub fn finish_lookup(cache: &mut ObjectCache, ids: &OrdSet<String>, found: &Vec<Object>, now: u128) -> (r:
    Vec<Object>)
    ensures
        keyed(old(cache)@),
        keyed(final(cache)@),
        final(cache).ttl() == old(cache).ttl(),
        final(cache)@ == settled(
            absorbed(old(cache)@, old(cache).ttl(), found@, now),
            old(cache).ttl(),
            ids@,
            now,
        ),
        r@ == answers(absorbed(old(cache)@, old(cache).ttl(), found@, now), ids@, now),
        forall|j: int|
            0 <= j < r@.len() ==> ids@.contains((#[trigger] r@[j]).id@) && shown(
                absorbed(old(cache)@, old(cache).ttl(), found@, now),
                r@[j].id@,
                now,
            ) == Some(r@[j]),
        forall|i: int|
            0 <= i < ids@.len() && shown(
                absorbed(old(cache)@, old(cache).ttl(), found@, now),
                #[trigger] ids@[i],
                now,
            ) is Some ==> r@.contains(
                shown(absorbed(old(cache)@, old(cache).ttl(), found@, now), ids@[i], now)->Some_0,
            ),
{
    proof {
        use_type_invariant(&*cache);
    }
    let ghost start = cache@;
    let ghost ttl = cache.ttl();
    let mut map: ExpiringMap<String, Option<Object>> = ExpiringMap::new(0);
    std::mem::swap(&mut cache.map, &mut map);
    absorb(&mut map, found, now);
    proof {
        lemma_absorbed_keyed(start, ttl, found@, now);
        lemma_answers(map@, ids@, now);
        lemma_settled_shows(map@, ttl, ids@, now, Seq::<char>::empty());
    }
    let result = settle(&mut map, ids, now);
    std::mem::swap(&mut cache.map, &mut map);
    result
}

/// The members of group `id` as the cache of groups holds them at `now`.
pub fn cached_members(
    groups: &ExpiringMap<String, OrdSet<Object>>,
    id: &str,
    now: u128,
) -> (r: Option<OrdSet<Object>>)
    ensures
        r is Some <==> lookup(groups@, id@, now) is Some,
        r matches Some(set) ==> set@ == lookup(groups@, id@, now)->Some_0@,
{
    match groups.get_at(&id.to_string(), now) {
        Some(set) => Some(set.duplicate()),
        None => None,
    }
}

/// The cache of objects after each of `members` that it did not answer for
/// at `now` was put in, one after the other.
pub open spec fn noted(m: Stored, ttl: u64, members: Seq<Object>, now: u128) -> Stored
    decreases members.len(),
{
    if members.len() == 0 {
        m
    } else {
        let before = noted(m, ttl, members.drop_last(), now);
        if lookup(before, members.last().id@, now) is Some {
            before
        } else {
            inserted(before, ttl, members.last().id@, Some(members.last()), now)
        }
    }
}

/// What noting members does to the cache of objects: it stays keyed, what
/// it showed it shows still, and it answers for every member, given a time
/// to live.
pub proof fn lemma_noted(m: Stored, ttl: u64, members: Seq<Object>, now: u128)
    ensures
        keyed(m) ==> keyed(noted(m, ttl, members, now)),
        forall|k: Seq<char>|
            lookup(m, k, now) is Some ==> #[trigger] lookup(noted(m, ttl, members, now), k, now)
                == lookup(m, k, now),
        ttl > 0 && now < u128::MAX ==> forall|i: int|
            0 <= i < members.len() ==> lookup(
                noted(m, ttl, members, now),
                (#[trigger] members[i]).id@,
                now,
            ) is Some,
    decreases members.len(),
{
    if members.len() > 0 {
        let front = members.drop_last();
        let before = noted(m, ttl, front, now);
        let after = noted(m, ttl, members, now);
        lemma_noted(m, ttl, front, now);
        assert forall|k: Seq<char>| lookup(m, k, now) is Some implies #[trigger] lookup(
            after,
            k,
            now,
        ) == lookup(m, k, now) by {
            assert(lookup(before, k, now) == lookup(m, k, now));
        }
        if ttl > 0 && now < u128::MAX {
            lemma_expiry_later(ttl, now);
            assert forall|i: int| 0 <= i < members.len() implies lookup(
                after,
                (#[trigger] members[i]).id@,
                now,
            ) is Some by {
                let k = members[i].id@;
                if i < front.len() {
                    assert(front[i] == members[i]);
                    assert(lookup(before, front[i].id@, now) is Some);
                }
            }
        }
    }
}

/// Takes in the members that the directory gave for group `id` at `now`:
/// each member that the cache of objects does not answer for is put into
/// it, and the group is cached with its members.
pub fn note_members(
    objects: &mut ObjectCache,
    groups: &mut ExpiringMap<String, OrdSet<Object>>,
    id: &str,
    members: &OrdSet<Object>,
    now: u128,
)
    ensures
        keyed(old(objects)@),
        keyed(final(objects)@),
        final(objects).ttl() == old(objects).ttl(),
        final(groups).ttl() == old(groups).ttl(),
        final(objects)@ == noted(old(objects)@, old(objects).ttl(), members.items(), now),
        final(groups)@.contains_key(id@),
        final(groups)@[id@].value@ == members@,
        final(groups)@ == inserted(
            old(groups)@,
            old(groups).ttl(),
            id@,
            final(groups)@[id@].value,
            now,
        ),
{
    proof {
        use_type_invariant(&*objects);
    }
    let n = members.len();
    let mut i: usize = 0;
    let ghost ttl = objects.ttl();
    let ghost start = objects@;
    let mut map: ExpiringMap<String, Option<Object>> = ExpiringMap::new(0);
    std::mem::swap(&mut objects.map, &mut map);
    while i < n
        invariant
            i <= n,
            n == members@.len(),
            n == members.items().len(),
            map.ttl() == ttl,
            map@ == noted(start, ttl, members.items().take(i as int), now),
            keyed(map@),
        decreases n - i,
    {
        let member = members.get(i);
        proof {
            let t = members.items().take(i + 1);
            assert(t.drop_last() == members.items().take(i as int));
            assert(t.last() == members.items()[i as int]);
        }
        if !map.contains_key_at(&member.id, now) {
            map.insert_at(member.id.clone(), Some(member.duplicate()), now);
        }
        i += 1;
    }
    assert(members.items().take(n as int) == members.items());
    std::mem::swap(&mut objects.map, &mut map);
    groups.insert_at(id.to_string(), members.duplicate(), now);
}

/// Whether the cache holds, under `id`, an entry that was put in at `now`.
pub open spec fn fresh(m: Stored, ttl: u64, id: Seq<char>, now: u128) -> bool {
    m.contains_key(id) && m[id].expiration == expiry(now, ttl)
}

/// An entry that is put in with a time to live lives beyond the moment.
proof fn lemma_expiry_later(ttl: u64, now: u128)
    requires
        ttl > 0,
        now < u128::MAX,
    ensures
        expiry(now, ttl) > now,
{
    assert(ttl * NANOS_PER_MILLI > 0) by (nonlinear_arith)
        requires
            ttl > 0,
            NANOS_PER_MILLI == 1_000_000,
    ;
}

/// Objects with other identifiers change nothing that the cache shows for
/// `id`.
proof fn lemma_absorbed_other(m: Stored, ttl: u64, found: Seq<Object>, id: Seq<char>, now: u128)
    requires
        forall|j: int| 0 <= j < found.len() ==> (#[trigger] found[j]).id@ != id,
    ensures
        lookup(absorbed(m, ttl, found, now), id, now) == lookup(m, id, now),
    decreases found.len(),
{
    if found.len() > 0 {
        assert forall|j: int| 0 <= j < found.drop_last().len() implies (
        #[trigger] found.drop_last()[j]).id@ != id by {
            assert(found.drop_last()[j] == found[j]);
        }
        lemma_absorbed_other(m, ttl, found.drop_last(), id, now);
        assert(found[found.len() - 1].id@ != id);
        lemma_insert_keeps_lookups(
            absorbed(m, ttl, found.drop_last(), now),
            ttl,
            found.last().id@,
            Some(found.last()),
            now,
            id,
        );
    }
}

/// An identifier that the directory gave an object for is shown with one of
/// the objects given for it.
proof fn lemma_absorbed_found(m: Stored, ttl: u64, found: Seq<Object>, j: int, now: u128)
    requires
        ttl > 0,
        now < u128::MAX,
        0 <= j < found.len(),
    ensures
        shown(absorbed(m, ttl, found, now), found[j].id@, now) is Some,
        found.contains(shown(absorbed(m, ttl, found, now), found[j].id@, now)->Some_0),
        shown(absorbed(m, ttl, found, now), found[j].id@, now)->Some_0.id@ == found[j].id@,
    decreases found.len(),
{
    lemma_expiry_later(ttl, now);
    let id = found[j].id@;
    let front = found.drop_last();
    if found.last().id@ == id {
        assert(found[found.len() - 1] == found.last());
    } else {
        assert(front[j] == found[j]);
        lemma_absorbed_found(m, ttl, front, j, now);
        lemma_insert_keeps_lookups(
            absorbed(m, ttl, front, now),
            ttl,
            found.last().id@,
            Some(found.last()),
            now,
            id,
        );
        let o = shown(absorbed(m, ttl, front, now), id, now)->Some_0;
        let i = choose|i: int| 0 <= i < front.len() && front[i] == o;
        assert(found[i] == o);
    }
}

/// An identifier that the cache did not answer for before a lookup is
/// answered for from then on as long as the entry is younger than the time
/// to live, whether the directory knew it or not: it is not asked for again
/// in that time.
pub proof fn lemma_lookup_answers(
    m: Stored,
    ttl: u64,
    found: Seq<Object>,
    ids: Seq<Seq<char>>,
    now: u128,
    i: int,
    later: u128,
)
    requires
        0 <= i < ids.len(),
        lookup(m, ids[i], now) is None,
        now <= later < expiry(now, ttl),
    ensures
        lookup(settled(absorbed(m, ttl, found, now), ttl, ids, now), ids[i], later) is Some,
        !unanswered(settled(absorbed(m, ttl, found, now), ttl, ids, now), ids, later).contains(
            ids[i],
        ),
{
    let mid = absorbed(m, ttl, found, now);
    let end = settled(mid, ttl, ids, now);
    lemma_fresh_absorbed(m, ttl, found, ids[i], now);
    lemma_fresh_settled(mid, ttl, ids, ids[i], now);
    assert(fresh(end, ttl, ids[i], now));
    let keep = |id: Seq<char>| lookup(end, id, later) is None;
    if ids.filter(keep).contains(ids[i]) {
        let j = choose|j: int| 0 <= j < ids.filter(keep).len() && ids.filter(keep)[j] == ids[i];
        ids.lemma_filter_pred(keep, j);
    }
}

proof fn lemma_fresh_absorbed(m: Stored, ttl: u64, found: Seq<Object>, id: Seq<char>, now: u128)
    requires
        expiry(now, ttl) > now,
        lookup(m, id, now) is None,
    ensures
        fresh(absorbed(m, ttl, found, now), ttl, id, now) || lookup(
            absorbed(m, ttl, found, now),
            id,
            now,
        ) is None,
    decreases found.len(),
{
    if found.len() > 0 {
        lemma_fresh_absorbed(m, ttl, found.drop_last(), id, now);
    }
}

proof fn lemma_fresh_settled(m: Stored, ttl: u64, ids: Seq<Seq<char>>, id: Seq<char>, now: u128)
    requires
        expiry(now, ttl) > now,
        fresh(m, ttl, id, now) || lookup(m, id, now) is None,
    ensures
        fresh(settled(m, ttl, ids, now), ttl, id, now) || (lookup(settled(m, ttl, ids, now), id, now)
            is None && !ids.contains(id)),
    decreases ids.len(),
{
    if ids.len() > 0 {
        let rest = ids.drop_last();
        lemma_fresh_settled(m, ttl, rest, id, now);
        if ids.contains(id) && ids.last() != id {
            let i = choose|i: int| 0 <= i < ids.len() && ids[i] == id;
            assert(rest[i] == id);
        }
    }
}

/// An identifier that neither the cache nor the directory knows is marked
/// as unknown by the lookup: the cache then answers for it with no object.
pub proof fn lemma_unknown_is_marked(
    m: Stored,
    ttl: u64,
    found: Seq<Object>,
    ids: Seq<Seq<char>>,
    now: u128,
    i: int,
)
    requires
        ttl > 0,
        now < u128::MAX,
        0 <= i < ids.len(),
        lookup(m, ids[i], now) is None,
        forall|j: int| 0 <= j < found.len() ==> (#[trigger] found[j]).id@ != ids[i],
    ensures
        lookup(settled(absorbed(m, ttl, found, now), ttl, ids, now), ids[i], now) == Some(
            None::<Object>,
        ),
{
    lemma_expiry_later(ttl, now);
    let mid = absorbed(m, ttl, found, now);
    lemma_absorbed_other(m, ttl, found, ids[i], now);
    lemma_settled_shows(mid, ttl, ids, now, ids[i]);
    lemma_fresh_settled(mid, ttl, ids, ids[i], now);
}

/// An object that the cache shows for an identifier that is asked for is
/// in the result, unless the directory gave another one for it: what the
/// cache shows at the time of a lookup is not lost by it.
pub proof fn lemma_shown_kept(
    m: Stored,
    ttl: u64,
    found: Seq<Object>,
    ids: Seq<Seq<char>>,
    now: u128,
    i: int,
)
    requires
        keyed(m),
        0 <= i < ids.len(),
        shown(m, ids[i], now) is Some,
        forall|j: int| 0 <= j < found.len() ==> (#[trigger] found[j]).id@ != ids[i],
    ensures
        shown(absorbed(m, ttl, found, now), ids[i], now) == shown(m, ids[i], now),
        answers(absorbed(m, ttl, found, now), ids, now).contains(shown(m, ids[i], now)->Some_0),
        lookup(settled(absorbed(m, ttl, found, now), ttl, ids, now), ids[i], now) == lookup(
            m,
            ids[i],
            now,
        ),
{
    let mid = absorbed(m, ttl, found, now);
    lemma_absorbed_keyed(m, ttl, found, now);
    lemma_absorbed_other(m, ttl, found, ids[i], now);
    lemma_answers(mid, ids, now);
    lemma_settled_shows(mid, ttl, ids, now, ids[i]);
}

/// An identifier for which the cache shows no object, and for which the
/// directory gave none, has no entry in the result: a miss yields nothing,
/// at the lookup that finds it out and at every later one that still has
/// its mark.
pub proof fn lemma_miss_yields_nothing(
    m: Stored,
    ttl: u64,
    found: Seq<Object>,
    ids: Seq<Seq<char>>,
    now: u128,
    x: Seq<char>,
)
    requires
        keyed(m),
        shown(m, x, now) is None,
        forall|j: int| 0 <= j < found.len() ==> (#[trigger] found[j]).id@ != x,
    ensures
        forall|j: int|
            0 <= j < answers(absorbed(m, ttl, found, now), ids, now).len() ==> (#[trigger] answers(
                absorbed(m, ttl, found, now),
                ids,
                now,
            )[j]).id@ != x,
{
    let mid = absorbed(m, ttl, found, now);
    lemma_absorbed_keyed(m, ttl, found, now);
    lemma_absorbed_other(m, ttl, found, x, now);
    lemma_answers(mid, ids, now);
}

/// An identifier that was asked for and for which the directory gave an
/// object has an entry in the result, with an object that the directory
/// gave for it.
pub proof fn lemma_resolved_is_present(
    m: Stored,
    ttl: u64,
    found: Seq<Object>,
    ids: Seq<Seq<char>>,
    now: u128,
    i: int,
    j: int,
)
    requires
        keyed(m),
        ttl > 0,
        now < u128::MAX,
        0 <= i < ids.len(),
        0 <= j < found.len(),
        found[j].id@ == ids[i],
    ensures
        exists|k: int|
            0 <= k < answers(absorbed(m, ttl, found, now), ids, now).len() && (#[trigger] answers(
                absorbed(m, ttl, found, now),
                ids,
                now,
            )[k]).id@ == ids[i] && found.contains(
                answers(absorbed(m, ttl, found, now), ids, now)[k],
            ),
{
    let mid = absorbed(m, ttl, found, now);
    lemma_absorbed_keyed(m, ttl, found, now);
    lemma_absorbed_found(m, ttl, found, j, now);
    lemma_answers(mid, ids, now);
    let o = shown(mid, ids[i], now)->Some_0;
    let a = answers(mid, ids, now);
    assert(a.contains(o));
    let k = choose|k: int| 0 <= k < a.len() && a[k] == o;
    assert(a[k].id@ == ids[i]);
}

} // verus!
