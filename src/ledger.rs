//! The pair of aggregate stores, one per upstream, and the settling of an
//! upstream's answer into them.
use vstd::prelude::*;

use crate::db::Db;
use crate::dispatch::{is_retryable, is_success, outcome, processor_for, Outcome, Processor};
use crate::summary::{ProcessorSummaries, Summary};

verus! {

/// One aggregate store per upstream: a payment is recorded in the store of
/// the upstream that accepted it.
#[derive(Debug)]
pub struct Ledger {
    pub default_db: Db,
    pub fallback_db: Db,
}

impl Ledger {
    pub open spec fn wf(&self) -> bool {
        self.default_db.wf() && self.fallback_db.wf()
    }

    /// The store of upstream `p`.
    pub open spec fn store(&self, p: Processor) -> Db {
        match p {
            Processor::Default => self.default_db,
            Processor::Fallback => self.fallback_db,
        }
    }

    /// The upstream other than `p`.
    pub open spec fn other(p: Processor) -> Processor {
        match p {
            Processor::Default => Processor::Fallback,
            Processor::Fallback => Processor::Default,
        }
    }

    /// Two empty stores.
    pub fn new() -> (l: Ledger)
        ensures
            l.wf(),
            l.default_db.is_empty(),
            l.fallback_db.is_empty(),
    {
        Ledger { default_db: Db::new(), fallback_db: Db::new() }
    }

    /// Whether the store of `p` can take a payment of `amount` cents.
    pub fn has_room(&self, p: Processor, amount: u64) -> (r: bool)
        requires
            self.wf(),
        ensures
            r == self.store(p).has_room_for(amount),
    {
        match p {
            Processor::Default => self.default_db.has_room(amount),
            Processor::Fallback => self.fallback_db.has_room(amount),
        }
    }

    /// Records a payment of `amount` cents stamped `timestamp` in the store of
    /// `p`; the other store is left as it was.
    pub fn record(&mut self, p: Processor, timestamp: i64, amount: u64)
        requires
            old(self).wf(),
            old(self).store(p).has_room_for(amount),
        ensures
            final(self).wf(),
            Db::recorded(old(self).store(p), final(self).store(p), timestamp, amount),
            final(self).store(Ledger::other(p)) == old(self).store(Ledger::other(p)),
    {
        match p {
            Processor::Default => self.default_db.set(timestamp, amount),
            Processor::Fallback => self.fallback_db.set(timestamp, amount),
        }
    }

    /// Settles an attempt with `retry_count` earlier failures on payment
    /// (`timestamp`, `amount` cents) that got `status` back (`None`: no
    /// response). On success the payment is recorded in the store of the
    /// upstream that was tried; otherwise the stores are unchanged. Returns
    /// what becomes of the payment.
    pub fn settle(&mut self, retry_count: u64, status: Option<u16>, timestamp: i64, amount: u64) -> (r:
        Outcome)
        requires
            old(self).wf(),
            retry_count < u64::MAX,
            old(self).store(processor_for(retry_count)).has_room_for(amount),
        ensures
            final(self).wf(),
            status is None ==> r == Outcome::Retry((retry_count + 1) as u64),
            status matches Some(s) && is_success(s) ==> r == Outcome::Record(
                processor_for(retry_count),
            ),
            status matches Some(s) && is_retryable(s) ==> r == Outcome::Retry(
                (retry_count + 1) as u64,
            ),
            status matches Some(s) && !is_success(s) && !is_retryable(s) ==> r == Outcome::GiveUp,
            r matches Outcome::Record(p) ==> Db::recorded(
                old(self).store(p),
                final(self).store(p),
                timestamp,
                amount,
            ) && final(self).store(Ledger::other(p)) == old(self).store(Ledger::other(p)),
            !(r is Record) ==> *final(self) == *old(self),
    {
        let r = outcome(retry_count, status);
        if let Outcome::Record(p) = r {
            self.record(p, timestamp, amount);
        }
        r
    }

    /// Summaries of both stores over `[from, to]`, both ends included.
    pub fn local_summary(&self, from: Option<i64>, to: Option<i64>) -> (r: ProcessorSummaries)
        requires
            self.wf(),
        ensures
            r.default_sum.total_requests == self.default_db.range_sum(from, to).0,
            r.default_sum.total_cents == self.default_db.range_sum(from, to).1,
            r.fallback.total_requests == self.fallback_db.range_sum(from, to).0,
            r.fallback.total_cents == self.fallback_db.range_sum(from, to).1,
    {
        let (d_count, d_total) = self.default_db.get(from, to);
        let (f_count, f_total) = self.fallback_db.get(from, to);
        ProcessorSummaries {
            default_sum: Summary { total_requests: d_count, total_cents: d_total },
            fallback: Summary { total_requests: f_count, total_cents: f_total },
        }
    }
}

impl Default for Ledger {
    fn default() -> (l: Ledger)
        ensures
            l.wf(),
            l.default_db.is_empty(),
            l.fallback_db.is_empty(),
    {
        Ledger::new()
    }
}

} // verus!
