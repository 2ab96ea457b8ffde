//! The in-flight tracker: a multiset of the timestamps of payments that are
//! being dispatched, which bounded summary queries wait on.
use vstd::prelude::*;

use crate::window::{
    in_window, keys_increasing, lemma_sum_bounds, lemma_sum_insert, lemma_sum_outside,
    lemma_sum_point, lemma_sum_remove, lemma_sum_update, lower_bound, nonnegative, window_start,
    window_sum,
};

verus! {

/// Weight of an entry: its pending count.
pub open spec fn pending_weight() -> spec_fn(u64) -> int {
    |c: u64| c as int
}

/// Ordered multiset of timestamps (microseconds) of payments in flight.
///
/// Entries `(timestamp, pending_count)` are sorted by timestamp; an entry is
/// present only while its count is positive.
#[derive(Debug)]
pub struct Inflight {
    entries: Vec<(i64, u64)>,
}

impl View for Inflight {
    type V = Seq<(i64, u64)>;

    /// The entries in increasing timestamp order.
    closed spec fn view(&self) -> Seq<(i64, u64)> {
        self.entries@
    }
}

impl Inflight {
    pub closed spec fn wf(&self) -> bool {
        &&& keys_increasing(self.entries@)
        &&& forall|j: int| 0 <= j < self.entries@.len() ==> #[trigger] self.entries@[j].1 > 0
    }

    /// Number of payments in flight whose timestamp lies in `[from, to]`.
    pub open spec fn pending_in(&self, from: Option<i64>, to: Option<i64>) -> int {
        window_sum(self@, pending_weight(), from, to)
    }

    /// Number of payments in flight stamped exactly `ts`.
    pub open spec fn pending_at(&self, ts: i64) -> int {
        self.pending_in(Some(ts), Some(ts))
    }

    /// A window with an upper bound is locked while a payment stamped inside
    /// it is in flight; a window without one is never locked.
    pub open spec fn locked(&self, from: Option<i64>, to: Option<i64>) -> bool {
        to is Some && self.pending_in(from, to) > 0
    }

    /// No payment is in flight.
    pub open spec fn is_idle(&self) -> bool {
        forall|ts: i64| #[trigger] self.pending_at(ts) == 0
    }

    /// `after` is `before` with one more payment in flight at `ts`.
    pub open spec fn registered(before: Inflight, after: Inflight, ts: i64) -> bool {
        forall|from: Option<i64>, to: Option<i64>|
            #[trigger] after.pending_in(from, to) == before.pending_in(from, to) + if in_window(
                ts,
                from,
                to,
            ) {
                1int
            } else {
                0int
            }
    }

    /// `after` is `before` with one payment at `ts` no longer in flight.
    pub open spec fn released(before: Inflight, after: Inflight, ts: i64) -> bool {
        forall|from: Option<i64>, to: Option<i64>|
            #[trigger] after.pending_in(from, to) == before.pending_in(from, to) - if in_window(
                ts,
                from,
                to,
            ) {
                1int
            } else {
                0int
            }
    }

    /// A tracker with nothing in flight.
    pub fn new() -> (t: Inflight)
        ensures
            t.wf(),
            forall|from: Option<i64>, to: Option<i64>| #[trigger] t.pending_in(from, to) == 0,
    {
        Inflight { entries: Vec::new() }
    }

    /// Number of payments in flight stamped exactly `timestamp`.
    pub fn pending(&self, timestamp: i64) -> (r: u64)
        requires
            self.wf(),
        ensures
            r == self.pending_at(timestamp),
    {
        let i = lower_bound(&self.entries, timestamp);
        if i < self.entries.len() && self.entries[i].0 == timestamp {
            proof {
                lemma_sum_point(self.entries@, i as int, pending_weight());
            }
            self.entries[i].1
        } else {
            proof {
                self.lemma_absent(i as int, timestamp);
            }
            0
        }
    }

    /// Marks one more payment stamped `timestamp` as in flight.
    pub fn register(&mut self, timestamp: i64)
        requires
            old(self).wf(),
            old(self).pending_at(timestamp) < u64::MAX,
        ensures
            final(self).wf(),
            Inflight::registered(*old(self), *final(self), timestamp),
    {
        let ghost s = self.entries@;
        let i = lower_bound(&self.entries, timestamp);
        if i < self.entries.len() && self.entries[i].0 == timestamp {
            let c = self.entries[i].1;
            proof {
                lemma_sum_point(s, i as int, pending_weight());
            }
            let e = (timestamp, c + 1);
            self.entries.set(i, e);
            proof {
                assert forall|from: Option<i64>, to: Option<i64>|
                    #[trigger] self.pending_in(from, to) == old(self).pending_in(from, to)
                        + if in_window(timestamp, from, to) {
                        1int
                    } else {
                        0int
                    } by {
                    lemma_sum_update(s, i as int, e, pending_weight(), from, to);
                }
            }
        } else {
            let e = (timestamp, 1u64);
            self.entries.insert(i, e);
            proof {
                assert forall|from: Option<i64>, to: Option<i64>|
                    #[trigger] self.pending_in(from, to) == old(self).pending_in(from, to)
                        + if in_window(timestamp, from, to) {
                        1int
                    } else {
                        0int
                    } by {
                    lemma_sum_insert(s, i as int, e, pending_weight(), from, to);
                }
            }
        }
    }

    /// Marks one payment stamped `timestamp` as no longer in flight; the
    /// timestamp's entry goes when its count reaches zero.
    pub fn release(&mut self, timestamp: i64)
        requires
            old(self).wf(),
            old(self).pending_at(timestamp) > 0,
        ensures
            final(self).wf(),
            Inflight::released(*old(self), *final(self), timestamp),
    {
        let ghost s = self.entries@;
        let i = lower_bound(&self.entries, timestamp);
        if i >= self.entries.len() || self.entries[i].0 != timestamp {
            proof {
                self.lemma_absent(i as int, timestamp);
            }
            return;
        }
        let c = self.entries[i].1;
        if c == 1 {
            self.entries.remove(i);
            proof {
                assert forall|from: Option<i64>, to: Option<i64>|
                    #[trigger] self.pending_in(from, to) == old(self).pending_in(from, to)
                        - if in_window(timestamp, from, to) {
                        1int
                    } else {
                        0int
                    } by {
                    lemma_sum_remove(s, i as int, pending_weight(), from, to);
                }
            }
        } else {
            let e = (timestamp, c - 1);
            self.entries.set(i, e);
            proof {
                assert forall|from: Option<i64>, to: Option<i64>|
                    #[trigger] self.pending_in(from, to) == old(self).pending_in(from, to)
                        - if in_window(timestamp, from, to) {
                        1int
                    } else {
                        0int
                    } by {
                    lemma_sum_update(s, i as int, e, pending_weight(), from, to);
                }
            }
        }
    }

    /// Whether a payment stamped in `[from, to]` is in flight. A query with
    /// no upper bound is never locked, whatever is in flight.
    pub fn is_locked(&self, from: Option<i64>, to: Option<i64>) -> (r: bool)
        requires
            self.wf(),
        ensures
            r == self.locked(from, to),
            to is None ==> !r,
    {
        match to {
            None => false,
            Some(t) => {
                let ghost s = self.entries@;
                let i = window_start(&self.entries, from);
                let r = i < self.entries.len() && self.entries[i].0 <= t;
                proof {
                    assert(nonnegative(pending_weight()));
                    if r {
                        lemma_sum_bounds(s, i as int, pending_weight(), from, to);
                    } else {
                        assert forall|j: int| 0 <= j < s.len() implies !in_window(
                            #[trigger] s[j].0,
                            from,
                            to,
                        ) by {
                            if j > i {
                                assert(s[i as int].0 < s[j].0);
                            }
                        }
                        lemma_sum_outside(s, pending_weight(), from, to);
                    }
                }
                r
            },
        }
    }

    /// Nothing is in flight at `ts` when `i` is where `lower_bound` placed it
    /// and the entry there, if any, has another key.
    proof fn lemma_absent(&self, i: int, ts: i64)
        requires
            self.wf(),
            0 <= i <= self.entries@.len(),
            forall|j: int| 0 <= j < i ==> self.entries@[j].0 < ts,
            forall|j: int| i <= j < self.entries@.len() ==> self.entries@[j].0 >= ts,
            i < self.entries@.len() ==> self.entries@[i].0 != ts,
        ensures
            self.pending_at(ts) == 0,
    {
        let s = self.entries@;
        assert forall|j: int| 0 <= j < s.len() implies !in_window(
            #[trigger] s[j].0,
            Some(ts),
            Some(ts),
        ) by {
            if j > i {
                assert(s[i].0 < s[j].0);
            }
        }
        lemma_sum_outside(s, pending_weight(), Some(ts), Some(ts));
    }
}

/// Number of calls in `calls` that are `(register, ts)`: a registration of
/// `ts` when `register` is true, a release of `ts` when it is false.
pub open spec fn count_calls(calls: Seq<(bool, i64)>, register: bool, ts: i64) -> nat
    decreases calls.len(),
{
    if calls.len() == 0 {
        0
    } else {
        count_calls(calls.drop_last(), register, ts) + if calls.last() == (register, ts) {
            1nat
        } else {
            0nat
        }
    }
}

/// `after` is `before` after the call `call`: `(true, ts)` is `register(ts)`
/// and `(false, ts)` is `release(ts)`.
pub open spec fn tracker_step(before: Inflight, after: Inflight, call: (bool, i64)) -> bool {
    &&& after.wf()
    &&& if call.0 {
        Inflight::registered(before, after, call.1)
    } else {
        Inflight::released(before, after, call.1)
    }
}

/// In-flight liveness: once every registration made on a fresh tracker has
/// been released (each timestamp released as often as it was registered),
/// no window is locked. `states[i + 1]` is `states[i]` after `calls[i]`.
pub proof fn lemma_released_unlocks(
    states: Seq<Inflight>,
    calls: Seq<(bool, i64)>,
    from: Option<i64>,
    to: Option<i64>,
)
    requires
        states.len() == calls.len() + 1,
        states[0].wf(),
        states[0].is_idle(),
        forall|i: int|
            0 <= i < calls.len() ==> tracker_step(#[trigger] states[i], states[i + 1], calls[i]),
        forall|ts: i64| #[trigger] count_calls(calls, true, ts) == count_calls(calls, false, ts),
    ensures
        !states.last().locked(from, to),
{
    lemma_trace_pending(states, calls);
    let last = states.last();
    assert forall|ts: i64| #[trigger] last.pending_at(ts) == 0 by {
        assert(count_calls(calls, true, ts) == count_calls(calls, false, ts));
    }
    lemma_idle_unlocked(last, from, to);
}

/// Along a trace of calls, the count in flight at each timestamp is the
/// number of its registrations less the number of its releases.
proof fn lemma_trace_pending(states: Seq<Inflight>, calls: Seq<(bool, i64)>)
    requires
        states.len() == calls.len() + 1,
        states[0].wf(),
        states[0].is_idle(),
        forall|i: int|
            0 <= i < calls.len() ==> tracker_step(#[trigger] states[i], states[i + 1], calls[i]),
    ensures
        states.last().wf(),
        forall|ts: i64|
            #[trigger] states.last().pending_at(ts) + count_calls(calls, false, ts) == count_calls(
                calls,
                true,
                ts,
            ),
    decreases calls.len(),
{
    if calls.len() == 0 {
        assert forall|ts: i64|
            #[trigger] states.last().pending_at(ts) + count_calls(calls, false, ts)
                == count_calls(calls, true, ts) by {
            assert(states[0].pending_at(ts) == 0);
        }
    } else {
        let n = calls.len() - 1;
        let fewer = states.drop_last();
        assert forall|i: int| 0 <= i < n implies tracker_step(
            #[trigger] fewer[i],
            fewer[i + 1],
            calls.drop_last()[i],
        ) by {
            assert(fewer[i] == states[i]);
            assert(fewer[i + 1] == states[i + 1]);
            assert(tracker_step(states[i], states[i + 1], calls[i]));
        }
        lemma_trace_pending(fewer, calls.drop_last());
        assert(tracker_step(states[n], states[n + 1], calls[n]));
        assert forall|ts: i64|
            #[trigger] states.last().pending_at(ts) + count_calls(calls, false, ts)
                == count_calls(calls, true, ts) by {
            assert(fewer.last() == states[n]);
            assert(states[n].pending_at(ts) + count_calls(calls.drop_last(), false, ts)
                == count_calls(calls.drop_last(), true, ts));
            assert(states[n + 1].pending_in(Some(ts), Some(ts)) == states[n].pending_in(
                Some(ts),
                Some(ts),
            ) + if calls[n].0 && calls[n].1 == ts {
                1int
            } else if !calls[n].0 && calls[n].1 == ts {
                -1int
            } else {
                0int
            });
        }
    }
}

/// A tracker with nothing in flight at any timestamp locks no window.
pub proof fn lemma_idle_unlocked(t: Inflight, from: Option<i64>, to: Option<i64>)
    requires
        t.wf(),
        t.is_idle(),
    ensures
        !t.locked(from, to),
{
    let s = t.entries@;
    assert forall|j: int| 0 <= j < s.len() implies !in_window(#[trigger] s[j].0, from, to) by {
        lemma_sum_point(s, j, pending_weight());
        assert(t.pending_at(s[j].0) == 0);
    }
    lemma_sum_outside(s, pending_weight(), from, to);
}

impl Default for Inflight {
    fn default() -> (t: Inflight)
        ensures
            t.wf(),
            forall|from: Option<i64>, to: Option<i64>| #[trigger] t.pending_in(from, to) == 0,
    {
        Inflight::new()
    }
}

} // verus!
