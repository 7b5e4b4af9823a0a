//! The cache of the public identities of peers.
//!
//! The cache is bounded in size: where it is full, the least recently used entry makes
//! room for a new one, whether or not it has expired. Each entry carries the time at which
//! it was recorded and counts as absent once the cache's window has passed since then,
//! whether or not it is still stored; an expired entry is dropped when it is next looked
//! up.

use crate::caches::{
    cache_capacity, cache_entries, cache_expires, cache_get, cache_insert, cache_remove, held,
    holds, new_public_id_cache, place, put, removed, used, MAX_CACHE_CAPACITY,
};
use crate::expiry::{fresh, is_fresh};
use crate::types::{NameType, PublicId, PublicPmidView};
use lru_time_cache::LruCache;
use vstd::prelude::*;

verus! {

/// No name stands twice in `entries`.
pub open spec fn distinct_names(entries: Seq<(Seq<u8>, (PublicPmidView, u64))>) -> bool {
    forall|i: int, j: int|
        0 <= i < entries.len() && 0 <= j < entries.len() && i != j ==> (#[trigger] entries[i]).0
            != (#[trigger] entries[j]).0
}

/// The identity that a lookup of `name` at `now` finds in `entries`: the one held under
/// the name, unless the window has passed since it was recorded.
pub open spec fn found(
    entries: Seq<(Seq<u8>, (PublicPmidView, u64))>,
    name: Seq<u8>,
    now: u64,
    window: u64,
) -> Option<PublicPmidView> {
    match held(entries, name) {
        Some((id, recorded)) => if fresh(recorded, now, window) {
            Some(id)
        } else {
            None
        },
        None => None,
    }
}

/// What a cache holds once `name` has been looked up at `now`: an entry that is found is
/// the most recently used one, an entry that has expired is gone.
pub open spec fn looked_up(
    entries: Seq<(Seq<u8>, (PublicPmidView, u64))>,
    name: Seq<u8>,
    now: u64,
    window: u64,
) -> Seq<(Seq<u8>, (PublicPmidView, u64))> {
    if found(entries, name, now, window) is Some {
        used(entries, name)
    } else {
        removed(entries, name)
    }
}

/// What a cache holds once the items of `items` have been put into it one after the
/// other.
pub open spec fn put_all(
    entries: Seq<(Seq<u8>, (PublicPmidView, u64))>,
    capacity: int,
    items: Seq<(Seq<u8>, (PublicPmidView, u64))>,
) -> Seq<(Seq<u8>, (PublicPmidView, u64))>
    decreases items.len(),
{
    if items.len() == 0 {
        entries
    } else {
        put(put_all(entries, capacity, items.drop_last()), capacity, items.last().0, items.last().1)
    }
}

/// Putting an identity into a cache keeps the names distinct and the cache within its
/// capacity, and the identity is then held under its name as the most recently used entry.
pub proof fn lemma_put(
    entries: Seq<(Seq<u8>, (PublicPmidView, u64))>,
    capacity: int,
    name: Seq<u8>,
    cached: (PublicPmidView, u64),
)
    requires
        capacity >= 1,
        distinct_names(entries),
        entries.len() <= capacity,
    ensures
        distinct_names(put(entries, capacity, name, cached)),
        0 < put(entries, capacity, name, cached).len() <= capacity,
        put(entries, capacity, name, cached).last() == (name, cached),
        held(put(entries, capacity, name, cached), name) == Some(cached),
{
    let after = put(entries, capacity, name, cached);
    assert(after[after.len() - 1] == (name, cached));
    if holds(entries, name) {
        let at = place(entries, name);
        let less = entries.remove(at);
        assert forall|i: int, j: int|
            0 <= i < after.len() && 0 <= j < after.len() && i != j implies (#[trigger] after[i]).0
            != (#[trigger] after[j]).0 by {
            let oi = if i < at { i } else { i + 1 };
            let oj = if j < at { j } else { j + 1 };
            if i < less.len() {
                assert(after[i] == entries[oi]);
            }
            if j < less.len() {
                assert(after[j] == entries[oj]);
            }
        }
    } else {
        let cut = if entries.len() >= capacity { entries.len() - capacity + 1 } else { 0 };
        assert forall|i: int, j: int|
            0 <= i < after.len() && 0 <= j < after.len() && i != j implies (#[trigger] after[i]).0
            != (#[trigger] after[j]).0 by {
            if i < after.len() - 1 {
                assert(after[i] == entries[i + cut]);
            }
            if j < after.len() - 1 {
                assert(after[j] == entries[j + cut]);
            }
        }
    }
    let at = place(after, name);
    if at != after.len() - 1 {
        assert(after[at].0 != after[after.len() - 1].0);
    }
}

/// Using an identity keeps the names distinct and the number of entries.
pub proof fn lemma_used(entries: Seq<(Seq<u8>, (PublicPmidView, u64))>, name: Seq<u8>)
    requires
        distinct_names(entries),
    ensures
        distinct_names(used(entries, name)),
        used(entries, name).len() == entries.len(),
{
    let after = used(entries, name);
    if holds(entries, name) {
        let at = place(entries, name);
        assert forall|i: int, j: int|
            0 <= i < after.len() && 0 <= j < after.len() && i != j implies (#[trigger] after[i]).0
            != (#[trigger] after[j]).0 by {
            let oi = if i == after.len() - 1 { at } else if i < at { i } else { i + 1 };
            let oj = if j == after.len() - 1 { at } else if j < at { j } else { j + 1 };
            assert(after[i] == entries[oi]);
            assert(after[j] == entries[oj]);
        }
    }
}

/// Taking an identity out keeps the names distinct, and the name is then held no more.
pub proof fn lemma_removed(entries: Seq<(Seq<u8>, (PublicPmidView, u64))>, name: Seq<u8>)
    requires
        distinct_names(entries),
    ensures
        distinct_names(removed(entries, name)),
        removed(entries, name).len() <= entries.len(),
        !holds(removed(entries, name), name),
{
    let after = removed(entries, name);
    if holds(entries, name) {
        let at = place(entries, name);
        assert forall|i: int, j: int|
            0 <= i < after.len() && 0 <= j < after.len() && i != j implies (#[trigger] after[i]).0
            != (#[trigger] after[j]).0 by {
            let oi = if i < at { i } else { i + 1 };
            let oj = if j < at { j } else { j + 1 };
            assert(after[i] == entries[oi]);
            assert(after[j] == entries[oj]);
        }
        if holds(after, name) {
            let k = place(after, name);
            let ok = if k < at { k } else { k + 1 };
            assert(after[k] == entries[ok]);
            assert(entries[ok].0 != entries[at].0);
        }
    }
}

/// Expiry: an identity that was cached at `recorded` is found again for as long as less
/// than the window has passed, and not from then on.
pub proof fn law_cached_identity_expires(
    entries: Seq<(Seq<u8>, (PublicPmidView, u64))>,
    capacity: int,
    name: Seq<u8>,
    id: PublicPmidView,
    recorded: u64,
    delta: u64,
    window: u64,
)
    requires
        capacity >= 1,
        distinct_names(entries),
        entries.len() <= capacity,
        recorded + delta <= u64::MAX,
    ensures
        found(put(entries, capacity, name, (id, recorded)), name, (recorded + delta) as u64, window)
            == if delta < window {
            Some(id)
        } else {
            None::<PublicPmidView>
        },
{
    lemma_put(entries, capacity, name, (id, recorded));
}

/// An identity that has expired is found no more, whether the cache still stores it or a
/// lookup has dropped it.
pub proof fn law_expired_is_absent_stored_or_not(
    entries: Seq<(Seq<u8>, (PublicPmidView, u64))>,
    name: Seq<u8>,
    now: u64,
    later: u64,
    window: u64,
)
    requires
        distinct_names(entries),
        now <= later,
        found(entries, name, now, window) is None,
    ensures
        found(entries, name, later, window) is None,
        found(looked_up(entries, name, now, window), name, later, window) is None,
{
    lemma_removed(entries, name);
}

/// Capacity eviction, one step: a new identity that is put into a full cache drives out
/// exactly the least recently used entry, expired or not, and all the others stay in their
/// order.
pub proof fn law_full_cache_evicts_least_recently_used(
    entries: Seq<(Seq<u8>, (PublicPmidView, u64))>,
    capacity: int,
    name: Seq<u8>,
    cached: (PublicPmidView, u64),
)
    requires
        capacity >= 1,
        entries.len() == capacity,
        !holds(entries, name),
    ensures
        put(entries, capacity, name, cached) == entries.skip(1).push((name, cached)),
{
}

/// Capacity eviction: of one identity more than the capacity, put into an empty cache
/// under names that all differ, exactly the first is driven out, and the cache holds all
/// the others in the order in which they came.
pub proof fn law_capacity_eviction(capacity: int, items: Seq<(Seq<u8>, (PublicPmidView, u64))>)
    requires
        capacity >= 1,
        items.len() == capacity + 1,
        distinct_names(items),
    ensures
        put_all(Seq::empty(), capacity, items) == items.skip(1),
        !holds(items.skip(1), items[0].0),
        forall|i: int| 1 <= i < items.len() ==> held(items.skip(1), #[trigger] items[i].0) == Some(
            items[i].1,
        ),
{
    let filled = items.drop_last();
    let left = items.skip(1);
    assert(distinct_names(filled)) by {
        assert forall|i: int, j: int|
            0 <= i < filled.len() && 0 <= j < filled.len() && i != j implies (
        #[trigger] filled[i]).0 != (#[trigger] filled[j]).0 by {
            assert(filled[i] == items[i] && filled[j] == items[j]);
        }
    }
    lemma_put_all_below_capacity(capacity, filled);
    assert(!holds(filled, items.last().0)) by {
        if holds(filled, items.last().0) {
            let at = place(filled, items.last().0);
            assert(filled[at] == items[at]);
            assert(items[at].0 != items[items.len() - 1].0);
        }
    }
    assert(filled.skip(1).push(items.last()) =~= left);
    if holds(left, items[0].0) {
        let at = place(left, items[0].0);
        assert(left[at] == items[at + 1]);
        assert(items[at + 1].0 != items[0].0);
    }
    assert forall|i: int| 1 <= i < items.len() implies held(left, #[trigger] items[i].0) == Some(
        items[i].1,
    ) by {
        assert(left[i - 1] == items[i]);
        let at = place(left, items[i].0);
        assert(left[at] == items[at + 1]);
        if at + 1 != i {
            assert(items[at + 1].0 != items[i].0);
        }
    }
}

/// Identities that are put into an empty cache under names that all differ, and are no
/// more than the cache can hold, are all held, in the order in which they came.
pub proof fn lemma_put_all_below_capacity(
    capacity: int,
    items: Seq<(Seq<u8>, (PublicPmidView, u64))>,
)
    requires
        items.len() <= capacity,
        distinct_names(items),
    ensures
        put_all(Seq::empty(), capacity, items) == items,
    decreases items.len(),
{
    if items.len() == 0 {
        assert(items =~= Seq::empty());
    } else {
        let before = items.drop_last();
        assert(distinct_names(before)) by {
            assert forall|i: int, j: int|
                0 <= i < before.len() && 0 <= j < before.len() && i != j implies (
            #[trigger] before[i]).0 != (#[trigger] before[j]).0 by {
                assert(before[i] == items[i] && before[j] == items[j]);
            }
        }
        lemma_put_all_below_capacity(capacity, before);
        assert(!holds(before, items.last().0)) by {
            if holds(before, items.last().0) {
                let at = place(before, items.last().0);
                assert(before[at] == items[at]);
                assert(items[at].0 != items[items.len() - 1].0);
            }
        }
        assert(before.push(items.last()) =~= items);
    }
}

/// The cache of the public identities of peers.
pub struct PublicIdCache {
    inner: LruCache<NameType, (PublicId, u64)>,
    window_ms: u64,
}

impl View for PublicIdCache {
    type V = Seq<(Seq<u8>, (PublicPmidView, u64))>;

    /// The identities that the cache stores, each with its name and the time at which it
    /// was recorded, the least recently used first.
    closed spec fn view(&self) -> Seq<(Seq<u8>, (PublicPmidView, u64))> {
        cache_entries(self.inner)
    }
}

impl PublicIdCache {
    /// The number of identities that the cache holds at most.
    pub closed spec fn capacity(&self) -> int {
        cache_capacity(self.inner)
    }

    /// The time in milliseconds for which an identity counts as present.
    pub closed spec fn window(&self) -> u64 {
        self.window_ms
    }

    /// The store behind the cache lets nothing expire by itself.
    pub closed spec fn steady(&self) -> bool {
        !cache_expires(self.inner)
    }

    /// The cache has room for an entry, holds no more than it may, and no name twice, and
    /// what it stores stays stored until the cache drops it.
    pub open spec fn wf(&self) -> bool {
        &&& self.steady()
        &&& self.capacity() >= 1
        &&& self@.len() <= self.capacity()
        &&& distinct_names(self@)
    }

    /// An empty cache in which an identity counts as present for `window_ms` milliseconds
    /// and which holds `capacity` identities at most. There is no cache without room for
    /// an entry, and none with room for more than `MAX_CACHE_CAPACITY`.
    pub fn new(window_ms: u64, capacity: usize) -> (r: Option<PublicIdCache>)
        ensures
            r is Some <==> 1 <= capacity <= MAX_CACHE_CAPACITY,
            r matches Some(cache) ==> cache.wf() && cache@ == Seq::<
                (Seq<u8>, (PublicPmidView, u64)),
            >::empty() && cache.window() == window_ms && cache.capacity() == capacity,
    {
        if capacity == 0 || capacity > MAX_CACHE_CAPACITY {
            None
        } else {
            Some(PublicIdCache { inner: new_public_id_cache(capacity), window_ms })
        }
    }

    /// Caches `id` under `name` as recorded at `now`. The entry is then the most recently
    /// used one. Where the name is new and the cache is full, the least recently used
    /// entry makes room, whether or not it has expired.
    pub fn insert(&mut self, name: NameType, id: PublicId, now: u64)
        requires
            old(self).wf(),
        ensures
            final(self).wf(),
            final(self).capacity() == old(self).capacity(),
            final(self).window() == old(self).window(),
            final(self)@ == put(old(self)@, old(self).capacity(), name@, (id@, now)),
    {
        proof {
            lemma_put(self@, self.capacity(), name@, (id@, now));
        }
        let _ = cache_insert(&mut self.inner, name, (id, now));
    }

    /// Looks up the identity of `name` at `now`. An identity that is found is then the most
    /// recently used entry. One that has expired counts as absent and is dropped.
    pub fn get(&mut self, name: &NameType, now: u64) -> (r: Option<PublicId>)
        requires
            old(self).wf(),
        ensures
            final(self).wf(),
            final(self).capacity() == old(self).capacity(),
            final(self).window() == old(self).window(),
            match r {
                Some(id) => found(old(self)@, name@, now, old(self).window()) == Some(id@),
                None => found(old(self)@, name@, now, old(self).window()) is None,
            },
            final(self)@ == looked_up(old(self)@, name@, now, old(self).window()),
    {
        proof {
            lemma_used(self@, name@);
            lemma_removed(self@, name@);
        }
        let window = self.window_ms;
        let hit = match cache_get(&mut self.inner, name) {
            Some(cached) => if is_fresh(cached.1, now, window) {
                Some(cached.0.clone())
            } else {
                None
            },
            None => None,
        };
        if hit.is_none() {
            proof {
                lemma_removed(self@, name@);
                lemma_used_then_removed(old(self)@, name@);
            }
            let _ = cache_remove(&mut self.inner, name);
        }
        hit
    }
}

/// Taking out an identity that has just been used leaves what taking it out at once would
/// have left.
proof fn lemma_used_then_removed(entries: Seq<(Seq<u8>, (PublicPmidView, u64))>, name: Seq<u8>)
    requires
        distinct_names(entries),
    ensures
        removed(used(entries, name), name) == removed(entries, name),
{
    if holds(entries, name) {
        let at = place(entries, name);
        let after = used(entries, name);
        lemma_used(entries, name);
        assert(after[after.len() - 1] == entries[at]);
        let k = place(after, name);
        if k != after.len() - 1 {
            assert(after[k].0 != after[after.len() - 1].0);
        }
        assert(after.remove(k) =~= entries.remove(at));
    } else {
        assert(!holds(used(entries, name), name));
    }
}

} // verus!
