//! The aggregate store: per-microsecond request counters with inclusive
//! range sums.
use vstd::prelude::*;

use crate::window::{
    in_window, keys_increasing, lemma_sum_adjacent, lemma_sum_bounds, lemma_sum_insert, lemma_sum_nonneg,
    lemma_sum_outside, lemma_sum_push, lemma_sum_split, lemma_sum_update, nonnegative, window_end,
    window_start, window_sum,
};

verus! {

/// Weight of an entry in request counts.
pub open spec fn count_weight() -> spec_fn((u64, u64)) -> int {
    |v: (u64, u64)| v.0 as int
}

/// Weight of an entry in cents.
pub open spec fn cents_weight() -> spec_fn((u64, u64)) -> int {
    |v: (u64, u64)| v.1 as int
}

/// Ordered map from a timestamp in microseconds to `(request_count, total_cents)`
/// of the payments recorded at exactly that microsecond.
///
/// Entries are kept in a vector sorted by timestamp, one entry per timestamp;
/// running totals over all entries are kept beside it.
#[derive(Debug)]
pub struct Db {
    entries: Vec<(i64, (u64, u64))>,
    total_count: u64,
    total_cents: u64,
}

impl View for Db {
    type V = Seq<(i64, (u64, u64))>;

    /// The entries in increasing timestamp order.
    closed spec fn view(&self) -> Seq<(i64, (u64, u64))> {
        self.entries@
    }
}

impl Db {
    pub closed spec fn wf(&self) -> bool {
        &&& keys_increasing(self.entries@)
        &&& self.total_count == window_sum(self.entries@, count_weight(), None, None)
        &&& self.total_cents == window_sum(self.entries@, cents_weight(), None, None)
    }

    /// `(request_count, total_cents)` summed over every timestamp `ts` with
    /// `from <= ts <= to`; a `None` bound is unbounded.
    pub open spec fn range_sum(&self, from: Option<i64>, to: Option<i64>) -> (int, int) {
        (window_sum(self@, count_weight(), from, to), window_sum(self@, cents_weight(), from, to))
    }

    /// `after` is `before` after one payment of `amount` cents was recorded at `ts`:
    /// every window holding `ts` gains one request and `amount` cents, and
    /// every other window is unchanged.
    pub open spec fn recorded(before: Db, after: Db, ts: i64, amount: u64) -> bool {
        forall|from: Option<i64>, to: Option<i64>|
            #[trigger] after.range_sum(from, to) == if in_window(ts, from, to) {
                (before.range_sum(from, to).0 + 1, before.range_sum(from, to).1 + amount)
            } else {
                before.range_sum(from, to)
            }
    }

    /// Recording `amount` more cents keeps both store totals within `u64`.
    pub open spec fn has_room_for(&self, amount: u64) -> bool {
        &&& self.range_sum(None, None).0 < u64::MAX
        &&& self.range_sum(None, None).1 + amount <= u64::MAX
    }

    /// Every window of the store is empty.
    pub open spec fn is_empty(&self) -> bool {
        forall|from: Option<i64>, to: Option<i64>| #[trigger] self.range_sum(from, to) == (0int, 0int)
    }

    /// An empty store.
    pub fn new() -> (db: Db)
        ensures
            db.wf(),
            db.is_empty(),
    {
        Db { entries: Vec::new(), total_count: 0, total_cents: 0 }
    }

    /// Whether `set(_, amount)` may be called: the totals over all
    /// timestamps stay within `u64`.
    pub fn has_room(&self, amount: u64) -> (r: bool)
        requires
            self.wf(),
        ensures
            r == self.has_room_for(amount),
    {
        self.total_count < u64::MAX && amount <= u64::MAX - self.total_cents
    }

    /// `(request_count, total_cents)` over all timestamps in `[from, to]`,
    /// both ends included; `None` leaves that end open.
    pub fn get(&self, from: Option<i64>, to: Option<i64>) -> (r: (u64, u64))
        requires
            self.wf(),
        ensures
            r.0 == self.range_sum(from, to).0,
            r.1 == self.range_sum(from, to).1,
    {
        let ghost s = self.entries@;
        let start = window_start(&self.entries, from);
        let end = window_end(&self.entries, to);
        proof {
            lemma_sum_outside(s.subrange(0, start as int), count_weight(), from, to);
            lemma_sum_outside(s.subrange(0, start as int), cents_weight(), from, to);
        }
        let mut i = start;
        let mut count: u64 = 0;
        let mut cents: u64 = 0;
        while i < end
            invariant
                self.wf(),
                s == self.entries@,
                start <= i <= s.len(),
                end <= s.len(),
                forall|j: int| 0 <= j < start ==> !in_window(#[trigger] s[j].0, from, None),
                forall|j: int| start <= j < s.len() ==> in_window(#[trigger] s[j].0, from, None),
                forall|j: int| 0 <= j < end ==> in_window(#[trigger] s[j].0, None, to),
                forall|j: int| end <= j < s.len() ==> !in_window(#[trigger] s[j].0, None, to),
                count == window_sum(s.subrange(0, i as int), count_weight(), from, to),
                cents == window_sum(s.subrange(0, i as int), cents_weight(), from, to),
            decreases end - i,
        {
            let e = self.entries[i];
            proof {
                let pre = s.subrange(0, i as int);
                let next = s.subrange(0, i + 1);
                assert(next =~= pre.push(s[i as int]));
                assert(in_window(s[i as int].0, from, to));
                lemma_sum_push(pre, s[i as int], count_weight(), from, to);
                lemma_sum_push(pre, s[i as int], cents_weight(), from, to);
                lemma_prefix_within_total(s, i + 1, count_weight(), from, to);
                lemma_prefix_within_total(s, i + 1, cents_weight(), from, to);
            }
            count = count + e.1.0;
            cents = cents + e.1.1;
            i = i + 1;
        }
        proof {
            lemma_sum_split(s, i as int, count_weight(), from, to);
            lemma_sum_split(s, i as int, cents_weight(), from, to);
            let post = s.subrange(i as int, s.len() as int);
            assert forall|j: int| 0 <= j < post.len() implies !in_window(#[trigger] post[j].0, from, to) by {
                assert(post[j] == s[i + j]);
            }
            lemma_sum_outside(post, count_weight(), from, to);
            lemma_sum_outside(post, cents_weight(), from, to);
        }
        (count, cents)
    }

    /// Records one payment of `amount` cents at `timestamp`: the entry at that
    /// timestamp gains one request and `amount` cents, and is created if absent.
    pub fn set(&mut self, timestamp: i64, amount: u64)
        requires
            old(self).wf(),
            old(self).has_room_for(amount),
        ensures
            final(self).wf(),
            Db::recorded(*old(self), *final(self), timestamp, amount),
    {
        let ghost s = self.entries@;
        self.total_count = self.total_count + 1;
        self.total_cents = self.total_cents + amount;
        let i = crate::window::lower_bound(&self.entries, timestamp);
        if i < self.entries.len() && self.entries[i].0 == timestamp {
            let (c, a) = self.entries[i].1;
            proof {
                lemma_sum_bounds(s, i as int, count_weight(), None, None);
                lemma_sum_bounds(s, i as int, cents_weight(), None, None);
            }
            let e = (timestamp, (c + 1, a + amount));
            self.entries.set(i, e);
            proof {
                assert forall|from: Option<i64>, to: Option<i64>|
                    #[trigger] self.range_sum(from, to) == if in_window(timestamp, from, to) {
                        (old(self).range_sum(from, to).0 + 1, old(self).range_sum(from, to).1
                            + amount)
                    } else {
                        old(self).range_sum(from, to)
                    } by {
                    lemma_sum_update(s, i as int, e, count_weight(), from, to);
                    lemma_sum_update(s, i as int, e, cents_weight(), from, to);
                }
                lemma_sum_update(s, i as int, e, count_weight(), None, None);
                lemma_sum_update(s, i as int, e, cents_weight(), None, None);
            }
        } else {
            let e = (timestamp, (1u64, amount));
            self.entries.insert(i, e);
            proof {
                assert forall|from: Option<i64>, to: Option<i64>|
                    #[trigger] self.range_sum(from, to) == if in_window(timestamp, from, to) {
                        (old(self).range_sum(from, to).0 + 1, old(self).range_sum(from, to).1
                            + amount)
                    } else {
                        old(self).range_sum(from, to)
                    } by {
                    lemma_sum_insert(s, i as int, e, count_weight(), from, to);
                    lemma_sum_insert(s, i as int, e, cents_weight(), from, to);
                }
                lemma_sum_insert(s, i as int, e, count_weight(), None, None);
                lemma_sum_insert(s, i as int, e, cents_weight(), None, None);
            }
        }
    }
}

impl Default for Db {
    fn default() -> (db: Db)
        ensures
            db.wf(),
            db.is_empty(),
    {
        Db::new()
    }
}

/// Sum of the amounts of a list of `(timestamp, cents)` records.
pub open spec fn total_amount(records: Seq<(i64, u64)>) -> int
    decreases records.len(),
{
    if records.len() == 0 {
        0
    } else {
        total_amount(records.drop_last()) + records.last().1
    }
}

/// Range sums are additive: for windows `[from, mid]` and `[mid + 1, to]`
/// that are disjoint and together cover `[from, to]`, the sums over the two
/// add up, field by field, to the sum over the whole.
pub proof fn lemma_range_sum_additive(db: Db, from: Option<i64>, mid: i64, to: Option<i64>)
    requires
        mid < i64::MAX,
        from matches Some(f) ==> f <= mid + 1,
        to matches Some(t) ==> mid <= t,
    ensures
        db.range_sum(from, to).0 == db.range_sum(from, Some(mid)).0 + db.range_sum(
            Some((mid + 1) as i64),
            to,
        ).0,
        db.range_sum(from, to).1 == db.range_sum(from, Some(mid)).1 + db.range_sum(
            Some((mid + 1) as i64),
            to,
        ).1,
{
    lemma_sum_adjacent(db@, count_weight(), from, mid, to);
    lemma_sum_adjacent(db@, cents_weight(), from, mid, to);
}

/// Conservation: after the records `records[0], ..., records[n - 1]` were
/// made one after another into an empty store (`stores[i + 1]` is
/// `stores[i]` after `records[i]`), the unbounded window holds `n` requests
/// and the sum of the recorded amounts, whether or not stamps repeat.
pub proof fn lemma_conservation(stores: Seq<Db>, records: Seq<(i64, u64)>)
    requires
        stores.len() == records.len() + 1,
        stores[0].is_empty(),
        forall|i: int|
            0 <= i < records.len() ==> Db::recorded(
                #[trigger] stores[i],
                stores[i + 1],
                records[i].0,
                records[i].1,
            ),
    ensures
        stores.last().range_sum(None, None) == (records.len() as int, total_amount(records)),
    decreases records.len(),
{
    if records.len() == 0 {
        assert(stores[0].range_sum(None, None) == (0int, 0int));
    } else {
        let n = records.len() - 1;
        let fewer = stores.drop_last();
        assert forall|i: int| 0 <= i < n implies Db::recorded(
            #[trigger] fewer[i],
            fewer[i + 1],
            records.drop_last()[i].0,
            records.drop_last()[i].1,
        ) by {
            assert(fewer[i] == stores[i]);
            assert(fewer[i + 1] == stores[i + 1]);
            assert(Db::recorded(stores[i], stores[i + 1], records[i].0, records[i].1));
        }
        lemma_conservation(fewer, records.drop_last());
        assert(Db::recorded(stores[n], stores[n + 1], records[n].0, records[n].1));
        assert(stores[n + 1].range_sum(None, None) == (
            stores[n].range_sum(None, None).0 + 1,
            stores[n].range_sum(None, None).1 + records[n].1,
        ));
    }
}

/// Both bounds of a window are inclusive: a payment recorded at exactly
/// `from` is counted in `[from, to]` (for `to` at or after it, or open), and one
/// recorded at exactly `to` is counted in `[from, to]` (for `from` at or
/// before it, or open).
pub proof fn lemma_bounds_inclusive(
    before: Db,
    after: Db,
    ts: i64,
    amount: u64,
    from: Option<i64>,
    to: Option<i64>,
)
    requires
        Db::recorded(before, after, ts, amount),
    ensures
        (to matches Some(t) ==> ts <= t) ==> after.range_sum(Some(ts), to) == (
            before.range_sum(Some(ts), to).0 + 1,
            before.range_sum(Some(ts), to).1 + amount,
        ),
        (from matches Some(f) ==> f <= ts) ==> after.range_sum(from, Some(ts)) == (
            before.range_sum(from, Some(ts)).0 + 1,
            before.range_sum(from, Some(ts)).1 + amount,
        ),
{
    assert(after.range_sum(Some(ts), to) == after.range_sum(Some(ts), to));
    assert(after.range_sum(from, Some(ts)) == after.range_sum(from, Some(ts)));
}

/// The window sum over a prefix never exceeds the total over the whole sequence.
proof fn lemma_prefix_within_total(
    s: Seq<(i64, (u64, u64))>,
    n: int,
    w: spec_fn((u64, u64)) -> int,
    from: Option<i64>,
    to: Option<i64>,
)
    requires
        0 < n <= s.len(),
        nonnegative(w),
    ensures
        window_sum(s.subrange(0, n), w, from, to) <= window_sum(s, w, None, None),
{
    lemma_sum_bounds(s.subrange(0, n), 0, w, from, to);
    lemma_sum_split(s, n, w, None, None);
    lemma_sum_nonneg(s.subrange(n, s.len() as int), w, None, None);
}

} // verus!
