use routing::connection_cache::ConnectionCache;
use routing::expiry::{is_fresh, FILTER_WINDOW_MS, PUBLIC_ID_WINDOW_MS};
use routing::types::NameType;

fn name(byte: u8) -> NameType {
    NameType::new(vec![byte; 64])
}

#[test]
fn windows_are_twenty_and_ten_minutes() {
    assert_eq!(FILTER_WINDOW_MS, 20 * 60 * 1000);
    assert_eq!(PUBLIC_ID_WINDOW_MS, 10 * 60 * 1000);
}

#[test]
fn an_entry_is_fresh_until_its_window_has_passed() {
    assert!(is_fresh(1000, 1000, 1));
    assert!(is_fresh(1000, 1499, 500));
    assert!(!is_fresh(1000, 1500, 500));
    assert!(!is_fresh(1000, 9000, 500));
    assert!(is_fresh(0, FILTER_WINDOW_MS - 1, FILTER_WINDOW_MS));
    assert!(!is_fresh(0, FILTER_WINDOW_MS, FILTER_WINDOW_MS));
    assert!(is_fresh(7, 7 + PUBLIC_ID_WINDOW_MS - 1, PUBLIC_ID_WINDOW_MS));
    assert!(!is_fresh(7, 7 + PUBLIC_ID_WINDOW_MS, PUBLIC_ID_WINDOW_MS));
}

#[test]
fn nothing_is_fresh_under_a_window_of_zero() {
    assert!(!is_fresh(1000, 1000, 0));
    assert!(!is_fresh(1000, 999, 0));
}

#[test]
fn a_clock_that_reads_less_counts_as_no_time_passed() {
    assert!(is_fresh(1000, 10, 1));
    assert!(is_fresh(u64::MAX, 0, 5));
}

#[test]
fn the_largest_readings_do_not_overflow() {
    assert!(!is_fresh(0, u64::MAX, u64::MAX));
    assert!(is_fresh(1, u64::MAX, u64::MAX));
}

#[test]
fn a_peer_is_alive_until_its_window_has_passed() {
    let mut cache = ConnectionCache::new();
    cache.touch(name(1), 5_000);
    for delta in [0u64, 1, 299, 300, 301, 10_000] {
        assert_eq!(cache.is_alive(&name(1), 5_000 + delta, 300), delta < 300);
    }
    assert!(!cache.is_alive(&name(2), 5_000, 300));
    assert_eq!(cache.last_seen(&name(1)), Some(5_000));
    assert_eq!(cache.last_seen(&name(2)), None);
}

#[test]
fn touching_again_records_the_later_time() {
    let mut cache = ConnectionCache::new();
    cache.touch(name(1), 100);
    cache.touch(name(1), 400);
    assert_eq!(cache.len(), 1);
    assert_eq!(cache.last_seen(&name(1)), Some(400));
    assert!(cache.is_alive(&name(1), 450, 100));
}

#[test]
fn sweeping_drops_the_stale_and_changes_no_answer() {
    let mut cache = ConnectionCache::new();
    cache.touch(name(3), 100);
    cache.touch(name(1), 200);
    cache.touch(name(2), 300);
    cache.touch(name(4), 50);
    let window = 150;
    let now = 300;
    let before: Vec<bool> =
        (1..=5).map(|b| cache.is_alive(&name(b), now, window)).collect();
    assert_eq!(before, vec![true, true, false, false, false]);
    assert_eq!(cache.stale_peers(now, window), vec![name(3), name(4)]);
    assert_eq!(cache.len(), 4);
    let stale = cache.sweep(now, window);
    assert_eq!(stale, vec![name(3), name(4)]);
    assert_eq!(cache.len(), 2);
    for later in [300u64, 349, 350, 449, 450] {
        for (i, byte) in (1..=5u8).enumerate() {
            let was = before[i] && later - [200, 300, 100, 50, 0][i] < window;
            assert_eq!(cache.is_alive(&name(byte), later, window), was);
        }
    }
    assert_eq!(cache.sweep(now, window), vec![]);
}

#[test]
fn remove_forgets_a_peer() {
    let mut cache = ConnectionCache::new();
    cache.touch(name(1), 100);
    cache.remove(&name(1));
    cache.remove(&name(2));
    assert_eq!(cache.len(), 0);
    assert!(!cache.is_alive(&name(1), 100, 10));
}
