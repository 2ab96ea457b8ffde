use client_full::Db;

#[test]
fn empty_store_sums_to_zero() {
    let db = Db::new();
    assert_eq!(db.get(None, None), (0, 0));
    assert_eq!(db.get(Some(-5), Some(5)), (0, 0));
    let d = Db::default();
    assert_eq!(d.get(None, None), (0, 0));
}

#[test]
fn record_increments_count_and_cents() {
    let mut db = Db::new();
    db.set(100, 1000);
    assert_eq!(db.get(None, None), (1, 1000));
    assert_eq!(db.get(Some(100), Some(100)), (1, 1000));
    assert_eq!(db.get(Some(101), None), (0, 0));
    assert_eq!(db.get(None, Some(99)), (0, 0));
}

#[test]
fn repeated_stamp_accumulates() {
    let mut db = Db::new();
    db.set(7, 150);
    db.set(7, 250);
    db.set(7, 1);
    assert_eq!(db.get(Some(7), Some(7)), (3, 401));
    assert_eq!(db.get(None, None), (3, 401));
}

#[test]
fn bounds_are_inclusive() {
    let mut db = Db::new();
    db.set(10, 1);
    db.set(20, 10);
    db.set(30, 100);
    assert_eq!(db.get(Some(10), Some(30)), (3, 111));
    assert_eq!(db.get(Some(10), Some(10)), (1, 1));
    assert_eq!(db.get(Some(30), Some(30)), (1, 100));
    assert_eq!(db.get(Some(11), Some(29)), (1, 10));
    assert_eq!(db.get(Some(20), None), (2, 110));
    assert_eq!(db.get(None, Some(20)), (2, 11));
}

#[test]
fn inverted_window_is_empty() {
    let mut db = Db::new();
    db.set(10, 1);
    db.set(20, 10);
    assert_eq!(db.get(Some(20), Some(10)), (0, 0));
}

#[test]
fn range_sum_is_additive_over_adjacent_windows() {
    let mut db = Db::new();
    let stamps: [i64; 7] = [-40, -3, 0, 5, 5, 12, 90];
    for (i, ts) in stamps.iter().enumerate() {
        db.set(*ts, (i as u64 + 1) * 100);
    }
    for mid in [-41i64, -3, 0, 4, 5, 11, 90] {
        let whole = db.get(Some(-40), Some(90));
        let left = db.get(Some(-40), Some(mid));
        let right = db.get(Some(mid + 1), Some(90));
        assert_eq!(whole.0, left.0 + right.0);
        assert_eq!(whole.1, left.1 + right.1);
        let all = db.get(None, None);
        let lo = db.get(None, Some(mid));
        let hi = db.get(Some(mid + 1), None);
        assert_eq!(all, (lo.0 + hi.0, lo.1 + hi.1));
    }
}

#[test]
fn conservation_over_many_records() {
    let mut db = Db::new();
    let records: [(i64, u64); 6] = [(3, 1000), (1, 250), (3, 5), (-9, 19990), (1_000_000, 1), (1, 0)];
    let mut sum: u64 = 0;
    for (ts, cents) in records.iter() {
        db.set(*ts, *cents);
        sum += cents;
    }
    assert_eq!(db.get(None, None), (6, sum));
    assert_eq!(sum, 21246);
}

#[test]
fn extreme_stamps() {
    let mut db = Db::new();
    db.set(i64::MIN, 1);
    db.set(i64::MAX, 2);
    db.set(0, 4);
    assert_eq!(db.get(None, None), (3, 7));
    assert_eq!(db.get(Some(i64::MIN), Some(i64::MIN)), (1, 1));
    assert_eq!(db.get(Some(i64::MAX), Some(i64::MAX)), (1, 2));
    assert_eq!(db.get(Some(i64::MAX), None), (1, 2));
    assert_eq!(db.get(None, Some(i64::MAX)), (3, 7));
}

#[test]
fn room_runs_out_at_u64_limit() {
    let mut db = Db::new();
    assert!(db.has_room(u64::MAX));
    db.set(1, u64::MAX - 10);
    assert!(db.has_room(10));
    assert!(!db.has_room(11));
    db.set(2, 10);
    assert!(!db.has_room(1));
    assert!(db.has_room(0));
    assert_eq!(db.get(None, None), (2, u64::MAX));
}

#[test]
fn out_of_order_stamps() {
    let mut db = Db::new();
    for ts in [50i64, 10, 40, 20, 30, 10] {
        db.set(ts, ts as u64);
    }
    assert_eq!(db.get(None, None), (6, 160));
    assert_eq!(db.get(Some(15), Some(45)), (3, 90));
    assert_eq!(db.get(Some(10), Some(10)), (2, 20));
}
