use zap_tracker::store::{ZapStore, freshness_boundary};

const NPUB: &str = "npub1examplequeryidentity";

#[test]
fn empty_store_has_no_records() {
    let store = ZapStore::new();
    assert!(store.get_most_recent_zap(NPUB).is_none());
    assert_eq!(store.get_most_recent_zaps(NPUB, 5).len(), 0);
    assert!(!store.zap_already_tracked(NPUB, "r1"));
    assert!(!store.has_fresh_zap(NPUB, 0));
}

#[test]
fn add_zap_deduplicates_on_identity_and_receipt() {
    let mut store = ZapStore::new();
    assert!(store.add_zap(NPUB, "r1", 100, 21000));
    assert!(!store.add_zap(NPUB, "r1", 100, 21000));
    assert_eq!(store.get_most_recent_zaps(NPUB, 10).len(), 1);
    // A different receipt for the same identity is a new record.
    assert!(store.add_zap(NPUB, "r2", 200, 1000));
    // The same receipt for a different identity is a new record.
    assert!(store.add_zap("npub1other", "r1", 300, 1000));
    assert_eq!(store.get_most_recent_zaps(NPUB, 10).len(), 2);
    assert_eq!(store.get_most_recent_zaps("npub1other", 10).len(), 1);
}

#[test]
fn most_recent_returns_latest_by_timestamp() {
    let mut store = ZapStore::new();
    assert!(store.add_zap(NPUB, "r1", 100, 1));
    assert!(store.add_zap(NPUB, "r3", 300, 3));
    assert!(store.add_zap(NPUB, "r2", 200, 2));
    let latest = store.get_most_recent_zap(NPUB).unwrap();
    assert_eq!(latest.receipt_id, "r3");
    assert_eq!(latest.zapped_at, 300);
    assert_eq!(latest.amount, 3);
    assert_eq!(latest.id.len(), 32);
}

#[test]
fn most_recent_n_returns_three_latest_descending() {
    let mut store = ZapStore::new();
    for (rid, ts) in [("r1", 100u64), ("r2", 200), ("r3", 300), ("r4", 400), ("r5", 500)] {
        assert!(store.add_zap(NPUB, rid, ts, 7));
    }
    let top = store.get_most_recent_zaps(NPUB, 3);
    assert_eq!(top.len(), 3);
    assert_eq!(top[0].receipt_id, "r5");
    assert_eq!(top[1].receipt_id, "r4");
    assert_eq!(top[2].receipt_id, "r3");
    assert!(top[0].zapped_at >= top[1].zapped_at && top[1].zapped_at >= top[2].zapped_at);
}

#[test]
fn most_recent_n_with_zero_and_with_excess() {
    let mut store = ZapStore::new();
    assert!(store.add_zap(NPUB, "r1", 100, 1));
    assert!(store.add_zap(NPUB, "r2", 200, 2));
    assert_eq!(store.get_most_recent_zaps(NPUB, 0).len(), 0);
    let all = store.get_most_recent_zaps(NPUB, 50);
    assert_eq!(all.len(), 2);
    assert_eq!(all[0].receipt_id, "r2");
    assert_eq!(all[1].receipt_id, "r1");
}

#[test]
fn queries_are_scoped_to_the_identity() {
    let mut store = ZapStore::new();
    assert!(store.add_zap(NPUB, "r1", 100, 1));
    assert!(store.add_zap("npub1other", "r2", 900, 2));
    let latest = store.get_most_recent_zap(NPUB).unwrap();
    assert_eq!(latest.receipt_id, "r1");
}

#[test]
fn freshness_boundary_is_start_of_day_minus_one_day() {
    // 1_700_000_000 is 80_000 seconds into its UTC day.
    assert_eq!(freshness_boundary(1_700_000_000), 1_699_833_600);
    // Early in the epoch the boundary saturates at zero.
    assert_eq!(freshness_boundary(10), 0);
}

#[test]
fn record_exactly_at_the_boundary_counts_as_fresh() {
    let boundary = freshness_boundary(1_700_000_000);
    let mut fresh = ZapStore::new();
    assert!(fresh.add_zap(NPUB, "r1", boundary, 21000));
    assert!(fresh.has_fresh_zap(NPUB, boundary));

    let mut stale = ZapStore::new();
    assert!(stale.add_zap(NPUB, "r1", boundary - 1, 21000));
    assert!(!stale.has_fresh_zap(NPUB, boundary));
}

#[test]
fn amount_sats_truncates_millisatoshis() {
    let mut store = ZapStore::new();
    assert!(store.add_zap(NPUB, "r1", 100, 21000));
    let zap = store.get_most_recent_zap(NPUB).unwrap();
    assert_eq!(zap.amount_sats(), 21);
    assert!(store.add_zap(NPUB, "r2", 200, 999));
    let zap = store.get_most_recent_zap(NPUB).unwrap();
    assert_eq!(zap.amount_sats(), 0);
}
