//! The two expiring collections that the node takes from other crates: the filter that
//! knows the messages it has seen, and the cache of the public identities of peers.
//!
//! The filter reads the machine's clock whenever it is used, so what it holds at a given
//! moment is not a function of the calls that were made: what is stated of it is what it
//! is made with. The cache is made without a time to live and serves as a store that is
//! bounded in size and ordered by use: what it holds is a function of the calls, and each
//! call says what it does to it. The time at which an identity was recorded is stored with
//! the identity, for the node to judge by.

use crate::types::{FilterType, NameType, PublicId, PublicPmidView};
use lru_time_cache::LruCache;
use message_filter::MessageFilter;
use vstd::prelude::*;

verus! {

/// Trusted: makes the type `message_filter::MessageFilter` known. Nothing of its inside
/// is visible; what it holds goes by the names below.
#[verifier::external_type_specification]
#[verifier::external_body]
#[verifier::reject_recursive_types(M)]
pub struct ExMessageFilter<M>(MessageFilter<M>);

/// Trusted: makes the type `lru_time_cache::LruCache` known. Nothing of its inside is
/// visible; what it holds goes by the names below.
#[verifier::external_type_specification]
#[verifier::external_body]
#[verifier::reject_recursive_types(K)]
#[verifier::reject_recursive_types(V)]
pub struct ExLruCache<K, V>(LruCache<K, V>);

/// The hash codes of the messages that the filter holds, the oldest first.
pub uninterp spec fn filter_entries(filter: MessageFilter<FilterType>) -> Seq<u64>;

/// The time in milliseconds for which the filter keeps a message.
pub uninterp spec fn filter_window_ms(filter: MessageFilter<FilterType>) -> int;

/// The identities that the cache holds, each with the name it is held under and the time
/// at which it was recorded, the least recently used first.
pub uninterp spec fn cache_entries(cache: LruCache<NameType, (PublicId, u64)>) -> Seq<
    (Seq<u8>, (PublicPmidView, u64)),
>;

/// The number of identities that the cache holds at most.
pub uninterp spec fn cache_capacity(cache: LruCache<NameType, (PublicId, u64)>) -> int;

/// The cache was made with a time to live, so that it lets entries expire by the
/// machine's clock.
pub uninterp spec fn cache_expires(cache: LruCache<NameType, (PublicId, u64)>) -> bool;

/// Trusted: calls `MessageFilter::with_expiry_duration` with a duration of `window_ms`
/// milliseconds. The claim, from the constructor's body: the filter starts without
/// entries and keeps each message for the duration it was given.
#[verifier::external_body]
fn new_message_filter(window_ms: u64) -> (filter: MessageFilter<FilterType>)
    ensures
        filter_entries(filter) == Seq::<u64>::empty(),
        filter_window_ms(filter) == window_ms,
{
    MessageFilter::with_expiry_duration(std::time::Duration::from_millis(window_ms))
}

/// What an identity and the time at which it was recorded stand for.
pub open spec fn cached_view(cached: (PublicId, u64)) -> (PublicPmidView, u64) {
    (cached.0@, cached.1)
}

/// What an optional identity with its time stands for.
pub open spec fn optional_cached_view(cached: Option<(PublicId, u64)>) -> Option<
    (PublicPmidView, u64),
> {
    match cached {
        Some(cached) => Some(cached_view(cached)),
        None => None,
    }
}

/// `entries` holds an identity under `name`.
pub open spec fn holds(entries: Seq<(Seq<u8>, (PublicPmidView, u64))>, name: Seq<u8>) -> bool {
    exists|i: int| 0 <= i < entries.len() && (#[trigger] entries[i]).0 == name
}

/// A place at which `entries` holds an identity under `name`.
pub open spec fn place(entries: Seq<(Seq<u8>, (PublicPmidView, u64))>, name: Seq<u8>) -> int {
    choose|i: int| 0 <= i < entries.len() && (#[trigger] entries[i]).0 == name
}

/// What `entries` holds under `name`, if anything.
pub open spec fn held(entries: Seq<(Seq<u8>, (PublicPmidView, u64))>, name: Seq<u8>) -> Option<
    (PublicPmidView, u64),
> {
    if holds(entries, name) {
        Some(entries[place(entries, name)].1)
    } else {
        None
    }
}

/// What a cache of `capacity` entries holds once `cached` has been put under `name`: the
/// entry is the most recently used one; where the name is new and the cache is full, the
/// least recently used entries have made room for it.
pub open spec fn put(
    entries: Seq<(Seq<u8>, (PublicPmidView, u64))>,
    capacity: int,
    name: Seq<u8>,
    cached: (PublicPmidView, u64),
) -> Seq<(Seq<u8>, (PublicPmidView, u64))> {
    if holds(entries, name) {
        entries.remove(place(entries, name)).push((name, cached))
    } else if entries.len() >= capacity {
        entries.skip(entries.len() - capacity + 1).push((name, cached))
    } else {
        entries.push((name, cached))
    }
}

/// What a cache holds once the identity under `name` has been used: the entry is the most
/// recently used one.
pub open spec fn used(
    entries: Seq<(Seq<u8>, (PublicPmidView, u64))>,
    name: Seq<u8>,
) -> Seq<(Seq<u8>, (PublicPmidView, u64))> {
    if holds(entries, name) {
        entries.remove(place(entries, name)).push(entries[place(entries, name)])
    } else {
        entries
    }
}

/// What a cache holds once the identity under `name` has been taken out.
pub open spec fn removed(
    entries: Seq<(Seq<u8>, (PublicPmidView, u64))>,
    name: Seq<u8>,
) -> Seq<(Seq<u8>, (PublicPmidView, u64))> {
    if holds(entries, name) {
        entries.remove(place(entries, name))
    } else {
        entries
    }
}

/// The largest capacity that a cache is made with. The cache sets room aside for as many
/// entries as it may hold.
pub const MAX_CACHE_CAPACITY: usize = 65_536;

/// Trusted: calls `LruCache::with_capacity`, which makes a cache that is bounded in size
/// and lets nothing expire by itself. The claim, from the constructor's body: the cache
/// starts without entries, with the capacity it was given. The constructor sets room
/// aside for `capacity` entries, so a capacity beyond what can be set aside is left out.
#[verifier::external_body]
pub(crate) fn new_public_id_cache(capacity: usize) -> (cache: LruCache<NameType, (PublicId, u64)>)
    requires
        capacity <= MAX_CACHE_CAPACITY,
    ensures
        cache_entries(cache) == Seq::<(Seq<u8>, (PublicPmidView, u64))>::empty(),
        cache_capacity(cache) == capacity,
        !cache_expires(cache),
{
    LruCache::with_capacity(capacity)
}

/// Trusted: calls `LruCache::insert`. The claim, from the method's source for a cache
/// without a time to live: the value is put under the name as `put` says, and the value
/// that the name had before comes back. With a capacity of zero the method panics, so that
/// is left out.
#[verifier::external_body]
pub(crate) fn cache_insert(
    cache: &mut LruCache<NameType, (PublicId, u64)>,
    name: NameType,
    cached: (PublicId, u64),
) -> (previous: Option<(PublicId, u64)>)
    requires
        cache_capacity(*old(cache)) >= 1,
        !cache_expires(*old(cache)),
    ensures
        cache_entries(*final(cache)) == put(
            cache_entries(*old(cache)),
            cache_capacity(*old(cache)),
            name@,
            cached_view(cached),
        ),
        optional_cached_view(previous) == held(cache_entries(*old(cache)), name@),
        cache_capacity(*final(cache)) == cache_capacity(*old(cache)),
        !cache_expires(*final(cache)),
{
    cache.insert(name, cached)
}

/// Trusted: calls `LruCache::get`. The claim, from the method's source for a cache without
/// a time to live: the value under the name, where there is one, is handed out and is then
/// the most recently used entry; nothing else changes.
#[verifier::external_body]
pub(crate) fn cache_get<'a>(
    cache: &'a mut LruCache<NameType, (PublicId, u64)>,
    name: &NameType,
) -> (found: Option<&'a (PublicId, u64)>)
    requires
        !cache_expires(*old(cache)),
    ensures
        cache_entries(*final(cache)) == used(cache_entries(*old(cache)), name@),
        match found {
            Some(cached) => held(cache_entries(*old(cache)), name@) == Some(cached_view(*cached)),
            None => held(cache_entries(*old(cache)), name@) is None,
        },
        cache_capacity(*final(cache)) == cache_capacity(*old(cache)),
        !cache_expires(*final(cache)),
{
    cache.get(name)
}

/// Trusted: calls `LruCache::remove`. The claim, from the method's source: the entry under
/// the name, where there is one, leaves the cache and its value comes back; nothing else
/// changes.
#[verifier::external_body]
pub(crate) fn cache_remove(cache: &mut LruCache<NameType, (PublicId, u64)>, name: &NameType) -> (taken:
    Option<(PublicId, u64)>)
    ensures
        cache_entries(*final(cache)) == removed(cache_entries(*old(cache)), name@),
        optional_cached_view(taken) == held(cache_entries(*old(cache)), name@),
        cache_capacity(*final(cache)) == cache_capacity(*old(cache)),
        cache_expires(*final(cache)) == cache_expires(*old(cache)),
{
    cache.remove(name)
}

/// An empty replay filter that keeps each message for `window_ms` milliseconds.
pub fn replay_filter(window_ms: u64) -> (filter: MessageFilter<FilterType>)
    ensures
        filter_entries(filter) == Seq::<u64>::empty(),
        filter_window_ms(filter) == window_ms,
{
    new_message_filter(window_ms)
}

} // verus!
