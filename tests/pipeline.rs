use client_full::dispatch::outcome;
use client_full::summary::{peer_summary_url, wants_peer};
use client_full::{Inflight, Ledger, Outcome, Processor, ProcessorSummaries, Summary};

fn summaries(dr: u64, dc: u64, fr: u64, fc: u64) -> ProcessorSummaries {
    ProcessorSummaries {
        default_sum: Summary { total_requests: dr, total_cents: dc },
        fallback: Summary { total_requests: fr, total_cents: fc },
    }
}

#[test]
fn upstream_alternates_with_retry_count() {
    for k in 0u64..10 {
        let p = Processor::for_retry(k);
        assert_eq!(p == Processor::Default, k % 2 == 0);
    }
    assert_eq!(Processor::for_retry(u64::MAX), Processor::Fallback);
    assert_eq!(Processor::for_retry(u64::MAX - 1), Processor::Default);
}

#[test]
fn upstream_urls() {
    assert_eq!(Processor::Default.url(), "http://payment-processor-default:8080/payments");
    assert_eq!(Processor::Fallback.url(), "http://payment-processor-fallback:8080/payments");
}

#[test]
fn outcome_by_status() {
    assert_eq!(outcome(0, Some(200)), Outcome::Record(Processor::Default));
    assert_eq!(outcome(3, Some(204)), Outcome::Record(Processor::Fallback));
    assert_eq!(outcome(0, Some(299)), Outcome::Record(Processor::Default));
    assert_eq!(outcome(0, Some(500)), Outcome::Retry(1));
    assert_eq!(outcome(4, Some(503)), Outcome::Retry(5));
    assert_eq!(outcome(1, Some(599)), Outcome::Retry(2));
    assert_eq!(outcome(0, Some(429)), Outcome::Retry(1));
    assert_eq!(outcome(7, None), Outcome::Retry(8));
    assert_eq!(outcome(0, Some(422)), Outcome::GiveUp);
    assert_eq!(outcome(0, Some(404)), Outcome::GiveUp);
    assert_eq!(outcome(0, Some(400)), Outcome::GiveUp);
    assert_eq!(outcome(0, Some(302)), Outcome::GiveUp);
    assert_eq!(outcome(0, Some(600)), Outcome::GiveUp);
}

#[test]
fn happy_path() {
    let mut ledger = Ledger::new();
    let ts: i64 = 1_700_000_000_000_000;
    assert!(ledger.has_room(Processor::for_retry(0), 1000));
    assert_eq!(ledger.settle(0, Some(200), ts, 1000), Outcome::Record(Processor::Default));
    assert!(!wants_peer(Some(true)));
    assert_eq!(ledger.local_summary(None, None), summaries(1, 1000, 0, 0));
}

#[test]
fn failover() {
    let mut ledger = Ledger::new();
    let ts: i64 = 1_700_000_000_000_000;
    let next = ledger.settle(0, Some(500), ts, 1250);
    assert_eq!(next, Outcome::Retry(1));
    assert_eq!(ledger.local_summary(None, None), summaries(0, 0, 0, 0));
    assert_eq!(Processor::for_retry(1), Processor::Fallback);
    assert_eq!(ledger.settle(1, Some(200), ts, 1250), Outcome::Record(Processor::Fallback));
    assert_eq!(ledger.local_summary(None, None), summaries(0, 0, 1, 1250));
}

#[test]
fn terminal_client_error() {
    let mut ledger = Ledger::new();
    let ts: i64 = 1_700_000_000_000_000;
    assert_eq!(ledger.settle(0, Some(422), ts, 500), Outcome::GiveUp);
    assert_eq!(ledger.local_summary(None, None), summaries(0, 0, 0, 0));
}

#[test]
fn range_windowing() {
    let mut ledger = Ledger::new();
    let t1: i64 = 1_700_000_000_000_000;
    let t2: i64 = t1 + 1_000_000;
    let t3: i64 = t2 + 1_000_000;
    assert_eq!(ledger.settle(0, Some(200), t1, 100), Outcome::Record(Processor::Default));
    assert_eq!(ledger.settle(0, Some(200), t2, 2000), Outcome::Record(Processor::Default));
    assert_eq!(ledger.settle(0, Some(200), t3, 30000), Outcome::Record(Processor::Default));
    let s = ledger.local_summary(Some(t2), Some(t2));
    assert_eq!(s.default_sum.total_requests, 1);
    assert_eq!(s.default_sum.total_cents, 2000);
    assert_eq!(s.fallback, Summary { total_requests: 0, total_cents: 0 });
}

#[test]
fn peer_federation() {
    let mut ledger = Ledger::new();
    let ts: i64 = 1_700_000_000_000_000;
    ledger.settle(0, Some(200), ts, 100);
    ledger.settle(2, Some(201), ts + 1, 200);
    let local = ledger.local_summary(None, None);
    assert_eq!(local, summaries(2, 300, 0, 0));
    assert!(wants_peer(None));
    assert!(wants_peer(Some(false)));
    let peer = summaries(5, 750, 1, 100);
    assert_eq!(local.merge(&peer), Some(summaries(7, 1050, 1, 100)));
}

#[test]
fn merge_overflow_is_refused() {
    let a = summaries(u64::MAX, 0, 0, 0);
    let b = summaries(1, 0, 0, 0);
    assert_eq!(a.merge(&b), None);
    let c = summaries(0, 0, 0, u64::MAX - 1);
    assert_eq!(c.merge(&summaries(0, 0, 0, 1)), Some(summaries(0, 0, 0, u64::MAX)));
    assert_eq!(c.merge(&summaries(0, 0, 0, 2)), None);
}

#[test]
fn in_flight_wait() {
    let mut ledger = Ledger::new();
    let mut inflight = Inflight::new();
    let t: i64 = 1_700_000_000_000_000;
    let to = Some(t + 1_000_000);
    inflight.register(t);
    assert!(inflight.is_locked(None, to));
    assert_eq!(ledger.settle(0, Some(200), t, 999), Outcome::Record(Processor::Default));
    inflight.release(t);
    assert!(!inflight.is_locked(None, to));
    let s = ledger.local_summary(None, to);
    assert_eq!(s.default_sum.total_requests, 1);
}

#[test]
fn peer_url_drops_trailing_slashes() {
    assert_eq!(peer_summary_url("http://peer:9999"), "http://peer:9999/payments-summary");
    assert_eq!(peer_summary_url("http://peer:9999/"), "http://peer:9999/payments-summary");
    assert_eq!(peer_summary_url("http://peer:9999///"), "http://peer:9999/payments-summary");
    assert_eq!(peer_summary_url("http://peer/base/"), "http://peer/base/payments-summary");
    assert_eq!(peer_summary_url(""), "/payments-summary");
    assert_eq!(peer_summary_url("/"), "/payments-summary");
}

#[test]
fn record_goes_to_one_store_only() {
    let mut ledger = Ledger::new();
    ledger.record(Processor::Fallback, 5, 70);
    ledger.record(Processor::Default, 5, 30);
    ledger.record(Processor::Fallback, 6, 1);
    assert_eq!(ledger.local_summary(Some(5), Some(5)), summaries(1, 30, 1, 70));
    assert_eq!(ledger.local_summary(None, None), summaries(1, 30, 2, 71));
    assert_eq!(ledger.default_db.get(None, None), (1, 30));
    assert_eq!(ledger.fallback_db.get(None, None), (2, 71));
}
