use turret::replay::{ReplayCache, ReplayError};

#[test]
fn replay_cache_rejects_duplicate_nonce() {
    let mut c = ReplayCache::new(120_000);
    c.check_and_record(1_000_000, 1_000_000, b"a", b"n").unwrap();
    assert!(matches!(
        c.check_and_record(1_000_100, 1_000_100, b"a", b"n"),
        Err(ReplayError::Replay)
    ));
}

#[test]
fn replay_cache_rejects_outside_window() {
    let mut c = ReplayCache::new(120_000);
    assert!(matches!(
        c.check_and_record(1_000_000, 1_000_000 + 120_001, b"a", b"n"),
        Err(ReplayError::OutsideWindow)
    ));
}

#[test]
fn replay_cache_accepts_at_window_edge() {
    let mut c = ReplayCache::new(120_000);
    c.check_and_record(1_000_000, 1_000_000 + 120_000, b"a", b"n").unwrap();
    let mut c2 = ReplayCache::new(120_000);
    c2.check_and_record(1_000_000, 1_000_000 - 120_000, b"a", b"n").unwrap();
}

#[test]
fn replay_cache_distinguishes_principals_and_nonces() {
    let mut c = ReplayCache::new(120_000);
    c.check_and_record(1_000_000, 1_000_000, b"a", b"n").unwrap();
    c.check_and_record(1_000_000, 1_000_000, b"b", b"n").unwrap();
    c.check_and_record(1_000_000, 1_000_000, b"a", b"m").unwrap();
}

#[test]
fn replay_cache_evicts_after_window() {
    let mut c = ReplayCache::new(1_000);
    c.check_and_record(10_000, 10_000, b"a", b"n").unwrap();
    // Within the window the pair is still held.
    assert!(matches!(
        c.check_and_record(10_500, 10_500, b"a", b"n"),
        Err(ReplayError::Replay)
    ));
    // Far enough later the record has been evicted; the same nonce passes.
    c.check_and_record(12_000, 12_000, b"a", b"n").unwrap();
}
