use azure_pim_cli::expiring::{ExpiringMap, Timed};
use std::time::{Duration, Instant};

fn key(s: &str) -> String {
    s.to_string()
}

fn pause(millis: u64) {
    let start = Instant::now();
    while start.elapsed() <= Duration::from_millis(millis) {
        std::hint::spin_loop();
    }
}

#[test]
fn test_insert() {
    let mut cache: ExpiringMap<String, &str> = ExpiringMap::new(50);
    cache.insert(key("key"), "value");
    assert_eq!(cache.get(&key("key")), Some(&"value"));
    pause(60);
    assert!(cache.get(&key("key")).is_none());
    cache.cleanup();
    cache.insert(key("a"), "b");
    assert_eq!(cache.len(), 1);
}

#[test]
fn insert_sweeps_what_has_expired() {
    let mut cache: ExpiringMap<String, u32> = ExpiringMap::new(50);
    cache.insert(key("one"), 1);
    cache.insert(key("two"), 2);
    assert_eq!(cache.len(), 2);
    pause(60);
    // expired entries stay stored until the next insertion
    assert_eq!(cache.len(), 2);
    assert!(!cache.contains_key(&key("one")));
    cache.insert(key("three"), 3);
    assert_eq!(cache.len(), 1);
    assert!(cache.contains_key(&key("three")));
}

#[test]
fn entries_live_for_the_time_given() {
    let milli: u128 = 1_000_000;
    let mut cache: ExpiringMap<String, u32> = ExpiringMap::new(10);
    assert_eq!(cache.insert_at(key("a"), 1, 5 * milli), None);
    assert_eq!(cache.get_at(&key("a"), 5 * milli), Some(&1));
    assert_eq!(cache.get_at(&key("a"), 15 * milli - 1), Some(&1));
    // an entry that is as old as the time to live is shown no longer
    assert_eq!(cache.get_at(&key("a"), 15 * milli), None);
    assert_eq!(cache.get_at(&key("a"), 15 * milli + 1), None);
    assert!(cache.contains_key_at(&key("a"), 6 * milli));
    assert!(!cache.contains_key_at(&key("b"), 6 * milli));
    // what is found is stored still
    assert_eq!(cache.len(), 1);
}

#[test]
fn insert_gives_back_what_it_replaces() {
    let mut cache: ExpiringMap<String, u32> = ExpiringMap::new(10);
    assert_eq!(cache.insert_at(key("a"), 1, 0), None);
    assert_eq!(cache.insert_at(key("a"), 2, 1), Some(1));
    assert_eq!(cache.get_at(&key("a"), 2), Some(&2));
    assert_eq!(cache.len(), 1);
    // an entry that the sweep removed is not given back
    assert_eq!(cache.insert_at(key("a"), 3, 1_000_000_000), None);
    assert_eq!(cache.get_at(&key("a"), 1_000_000_000), Some(&3));
}

#[test]
fn sweep_removes_what_a_lookup_no_longer_shows() {
    let mut cache: ExpiringMap<String, u32> = ExpiringMap::new(1);
    cache.insert_at(key("a"), 1, 0);
    cache.insert_at(key("b"), 2, 500_000);
    assert_eq!(cache.len(), 2);
    // just before its expiry an entry is shown, and a sweep keeps it
    assert_eq!(cache.get_at(&key("a"), 999_999), Some(&1));
    cache.cleanup_at(999_999);
    assert_eq!(cache.len(), 2);
    // at its expiry it is shown no longer, and a sweep removes it
    assert_eq!(cache.get_at(&key("a"), 1_000_000), None);
    cache.cleanup_at(1_000_000);
    assert_eq!(cache.len(), 1);
    assert_eq!(cache.get_at(&key("a"), 1_000_000), None);
    assert_eq!(cache.get_at(&key("b"), 1_000_000), Some(&2));
    cache.clear();
    assert_eq!(cache.len(), 0);
}

#[test]
fn expiry_stops_at_the_largest_time() {
    let mut cache: ExpiringMap<String, u32> = ExpiringMap::new(u64::MAX);
    cache.insert_at(key("a"), 1, u128::MAX - 5);
    assert_eq!(cache.get_at(&key("a"), u128::MAX - 1), Some(&1));
    assert_eq!(cache.get_at(&key("a"), u128::MAX), None);
}

#[test]
fn timed_value_expires_at_its_time() {
    let v = Timed::new("x", 10);
    assert_eq!(*v.value(), "x");
    assert!(!v.is_expired_at(9));
    assert!(v.is_expired_at(10));
    assert!(v.is_expired_at(11));
}

#[test]
fn an_entry_without_time_to_live_is_never_shown() {
    let mut cache: ExpiringMap<String, u32> = ExpiringMap::new(0);
    cache.insert_at(key("a"), 1, 7);
    assert_eq!(cache.get_at(&key("a"), 7), None);
    assert_eq!(cache.len(), 1);
    cache.insert_at(key("b"), 2, 7);
    assert_eq!(cache.len(), 1);
}
