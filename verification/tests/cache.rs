use nosubvod::cache::{TimedCache, NANOS_PER_SEC};

#[test]
fn set_then_get_returns_value() {
    let mut c: TimedCache<String> = TimedCache::new();
    c.set("k", "v".to_string(), 1);
    assert_eq!(c.get("k"), Some("v".to_string()));
}

#[test]
fn get_of_unknown_key_is_nothing() {
    let c: TimedCache<u32> = TimedCache::new();
    assert_eq!(c.get("missing"), None);
    assert_eq!(c.get_at("missing", 0), None);
}

#[test]
fn entry_expires_when_ttl_has_run() {
    let mut c: TimedCache<u32> = TimedCache::new();
    c.set_at("k", 7, 1, 1_000);
    assert_eq!(c.get_at("k", 1_000), Some(7));
    assert_eq!(c.get_at("k", 1_000 + NANOS_PER_SEC - 1), Some(7));
    assert_eq!(c.get_at("k", 1_000 + NANOS_PER_SEC), None);
    assert_eq!(c.get_at("k", 5 * NANOS_PER_SEC), None);
}

#[test]
fn expired_entries_stay_until_overwritten() {
    let mut c: TimedCache<u32> = TimedCache::new();
    assert!(c.is_empty());
    c.set_at("k", 7, 0, 50);
    assert_eq!(c.get_at("k", 50), None);
    assert!(!c.is_empty());
}

#[test]
fn zero_ttl_is_never_read() {
    let mut c: TimedCache<u32> = TimedCache::new();
    c.set_at("k", 7, 0, 50);
    assert_eq!(c.get_at("k", 50), None);
}

#[test]
fn set_overwrites_and_leaves_other_keys() {
    let mut c: TimedCache<u32> = TimedCache::new();
    c.set_at("a", 1, 10, 0);
    c.set_at("b", 2, 10, 0);
    c.set_at("a", 3, 10, 0);
    assert_eq!(c.get_at("a", 1), Some(3));
    assert_eq!(c.get_at("b", 1), Some(2));
}

#[test]
fn overwrite_revives_expired_entry() {
    let mut c: TimedCache<u32> = TimedCache::new();
    c.set_at("a", 1, 1, 0);
    assert_eq!(c.get_at("a", 2 * NANOS_PER_SEC), None);
    c.set_at("a", 2, 1, 2 * NANOS_PER_SEC);
    assert_eq!(c.get_at("a", 2 * NANOS_PER_SEC), Some(2));
}

#[test]
fn expiry_saturates_at_the_end_of_time() {
    let mut c: TimedCache<u32> = TimedCache::new();
    c.set_at("a", 1, u64::MAX, u128::MAX - 5);
    assert_eq!(c.get_at("a", u128::MAX - 1), Some(1));
    assert_eq!(c.get_at("a", u128::MAX), None);
}

#[test]
fn clock_moves_forward() {
    let c: TimedCache<u32> = TimedCache::new();
    let a = c.now();
    let b = c.now();
    assert!(b >= a);
}

#[test]
fn real_clock_entry_expires_after_one_second() {
    let mut c: TimedCache<u32> = TimedCache::new();
    c.set("k", 9, 1);
    assert_eq!(c.get("k"), Some(9));
    let start = c.now();
    while c.now() < start + NANOS_PER_SEC + 50_000_000 {
        std::hint::spin_loop();
    }
    assert_eq!(c.get("k"), None);
}
