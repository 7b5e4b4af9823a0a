use routing::caches::{replay_filter, MAX_CACHE_CAPACITY};
use routing::crypto::CryptoContext;
use routing::public_id_cache::PublicIdCache;
use routing::types::{FilterType, NameType, PublicPmid};
use std::time::{Duration, Instant};

fn name(byte: u8) -> NameType {
    NameType::new(vec![byte; 64])
}

fn credential(byte: u8) -> PublicPmid {
    PublicPmid {
        name: name(byte),
        public_key: vec![byte; 32],
        public_sign_key: vec![byte; 32],
        validation_token: vec![byte; 64],
    }
}

fn wait_until(start: Instant, millis: u64) {
    while start.elapsed() < Duration::from_millis(millis) {
        std::hint::spin_loop();
    }
}

#[test]
fn the_filter_forgets_a_message_once_its_window_has_passed() {
    let crypto = CryptoContext::init().unwrap();
    let message = FilterType::new(&crypto, &name(1), 1, &vec![1]);
    let mut filter = replay_filter(400);
    assert_eq!(filter.insert(&message), 0);
    assert!(filter.len() <= 1);
    let start = Instant::now();
    wait_until(start, 450);
    assert!(!filter.contains(&message));
    assert_eq!(filter.len(), 0);
    assert_eq!(filter.insert(&message), 0);
}

#[test]
fn the_filter_keeps_a_message_within_a_long_window() {
    let crypto = CryptoContext::init().unwrap();
    let message = FilterType::new(&crypto, &name(1), 1, &vec![1]);
    let mut filter = replay_filter(3_600_000);
    let start = Instant::now();
    assert_eq!(filter.insert(&message), 0);
    wait_until(start, 50);
    assert!(filter.contains(&message));
    assert_eq!(filter.insert(&message), 1);
    assert_eq!(filter.insert(&message), 2);
    assert_eq!(filter.len(), 1);
}

#[test]
fn there_is_no_cache_without_room_or_beyond_the_limit() {
    assert_eq!(MAX_CACHE_CAPACITY, 65_536);
    assert!(PublicIdCache::new(1000, 0).is_none());
    assert!(PublicIdCache::new(1000, 1).is_some());
    assert!(PublicIdCache::new(0, 1).is_some());
    assert!(PublicIdCache::new(1000, MAX_CACHE_CAPACITY).is_some());
    assert!(PublicIdCache::new(1000, MAX_CACHE_CAPACITY + 1).is_none());
    assert!(PublicIdCache::new(1000, usize::MAX).is_none());
}

#[test]
fn an_identity_is_found_until_its_window_has_passed() {
    let window = 600_000;
    for delta in [0u64, 1, 599_999, 600_000, 600_001, 10_000_000] {
        let mut cache = PublicIdCache::new(window, 10).unwrap();
        cache.insert(name(1), credential(1), 5_000);
        let expected = if delta < window { Some(credential(1)) } else { None };
        assert_eq!(cache.get(&name(1), 5_000 + delta), expected);
    }
}

#[test]
fn looking_up_does_not_renew_an_identity() {
    let mut cache = PublicIdCache::new(100, 10).unwrap();
    cache.insert(name(1), credential(1), 1_000);
    assert_eq!(cache.get(&name(1), 1_050), Some(credential(1)));
    assert_eq!(cache.get(&name(1), 1_099), Some(credential(1)));
    assert_eq!(cache.get(&name(1), 1_100), None);
    // the expired entry was dropped: an earlier reading of the clock finds nothing either
    assert_eq!(cache.get(&name(1), 1_000), None);
}

#[test]
fn caching_again_records_the_later_time_and_the_new_identity() {
    let mut cache = PublicIdCache::new(100, 2).unwrap();
    cache.insert(name(1), credential(1), 1_000);
    cache.insert(name(2), credential(2), 1_000);
    cache.insert(name(1), credential(9), 1_080);
    assert_eq!(cache.get(&name(1), 1_150), Some(credential(9)));
    assert_eq!(cache.get(&name(2), 1_099), Some(credential(2)));
    assert_eq!(cache.get(&name(1), 1_180), None);
}

#[test]
fn an_absent_identity_is_not_found() {
    let mut cache = PublicIdCache::new(100, 2).unwrap();
    assert_eq!(cache.get(&name(1), 0), None);
    cache.insert(name(1), credential(1), 0);
    assert_eq!(cache.get(&name(2), 0), None);
    assert_eq!(cache.get(&name(1), 0), Some(credential(1)));
}

#[test]
fn one_identity_more_than_the_capacity_evicts_the_least_recently_used() {
    for capacity in [1usize, 2, 5, 40] {
        let mut cache = PublicIdCache::new(3_600_000, capacity).unwrap();
        for i in 0..=capacity as u8 {
            cache.insert(name(i), credential(i), 10);
        }
        assert_eq!(cache.get(&name(0), 20), None);
        for i in 1..=capacity as u8 {
            assert_eq!(cache.get(&name(i), 20), Some(credential(i)));
        }
    }
}

#[test]
fn an_identity_that_was_used_is_not_the_one_to_go() {
    let mut cache = PublicIdCache::new(3_600_000, 3).unwrap();
    cache.insert(name(1), credential(1), 1);
    cache.insert(name(2), credential(2), 2);
    cache.insert(name(3), credential(3), 3);
    assert_eq!(cache.get(&name(1), 4), Some(credential(1)));
    cache.insert(name(4), credential(4), 5);
    assert_eq!(cache.get(&name(2), 6), None);
    assert_eq!(cache.get(&name(1), 6), Some(credential(1)));
    assert_eq!(cache.get(&name(3), 6), Some(credential(3)));
    assert_eq!(cache.get(&name(4), 6), Some(credential(4)));
    // the order of use is now 1, 3, 4: one more drives out 1
    cache.insert(name(5), credential(5), 7);
    assert_eq!(cache.get(&name(1), 8), None);
    assert_eq!(cache.get(&name(3), 8), Some(credential(3)));
}

#[test]
fn the_least_recently_used_makes_room_whether_expired_or_not() {
    let mut cache = PublicIdCache::new(100, 2).unwrap();
    cache.insert(name(1), credential(1), 1_000);
    cache.insert(name(2), credential(2), 0);
    // the second entry has expired, yet the first is the least recently used and goes
    cache.insert(name(3), credential(3), 1_050);
    assert_eq!(cache.get(&name(1), 1_050), None);
    assert_eq!(cache.get(&name(3), 1_050), Some(credential(3)));
    assert_eq!(cache.get(&name(2), 1_050), None);
}

#[test]
fn an_expired_identity_that_was_dropped_frees_its_place() {
    let mut cache = PublicIdCache::new(100, 2).unwrap();
    cache.insert(name(1), credential(1), 0);
    cache.insert(name(2), credential(2), 1_000);
    assert_eq!(cache.get(&name(1), 1_000), None);
    cache.insert(name(3), credential(3), 1_000);
    assert_eq!(cache.get(&name(2), 1_000), Some(credential(2)));
    assert_eq!(cache.get(&name(3), 1_000), Some(credential(3)));
}

/// The entries of a cache as the contract of the library describes them: the least
/// recently used first, each with its name, its identity and the time it was recorded at.
struct Model {
    entries: Vec<(u8, u8, u64)>,
    capacity: usize,
    window: u64,
}

impl Model {
    fn insert(&mut self, name: u8, id: u8, now: u64) {
        if let Some(at) = self.entries.iter().position(|e| e.0 == name) {
            self.entries.remove(at);
        } else if self.entries.len() >= self.capacity {
            let cut = self.entries.len() - self.capacity + 1;
            self.entries.drain(..cut);
        }
        self.entries.push((name, id, now));
    }

    fn get(&mut self, name: u8, now: u64) -> Option<u8> {
        let at = self.entries.iter().position(|e| e.0 == name)?;
        let entry = self.entries.remove(at);
        let age = if now >= entry.2 { now - entry.2 } else { 0 };
        if age < self.window {
            self.entries.push(entry);
            Some(entry.1)
        } else {
            None
        }
    }
}

#[test]
fn the_cache_does_what_its_contract_says_on_a_long_walk() {
    for capacity in [1usize, 2, 3, 7] {
        let window = 50;
        let mut cache = PublicIdCache::new(window, capacity).unwrap();
        let mut model = Model { entries: Vec::new(), capacity, window };
        let mut state: u32 = 2_463_534_242;
        let mut now: u64 = 0;
        for _ in 0..3000 {
            state ^= state << 13;
            state ^= state >> 17;
            state ^= state << 5;
            let who = ((state >> 8) % 10) as u8;
            now += ((state >> 16) % 12) as u64;
            if (state >> 4) % 3 == 0 {
                let id = (state >> 24) as u8;
                cache.insert(name(who), credential(id), now);
                model.insert(who, id, now);
            } else {
                let expected = model.get(who, now).map(credential);
                assert_eq!(cache.get(&name(who), now), expected);
            }
        }
        // what is left, asked for from the least recently used on
        let left: Vec<(u8, u8, u64)> = model.entries.clone();
        for (who, id, recorded) in left {
            assert_eq!(cache.get(&name(who), recorded), Some(credential(id)));
        }
    }
}
