//! Inclusive time windows and sums over key-ordered entry sequences.
use vstd::prelude::*;

verus! {

/// Whether `ts` lies in the inclusive window `[from, to]`; a missing bound
/// leaves that side of the window open.
pub open spec fn in_window(ts: i64, from: Option<i64>, to: Option<i64>) -> bool {
    &&& (from matches Some(f) ==> f <= ts)
    &&& (to matches Some(t) ==> ts <= t)
}

/// Keys strictly increase along the sequence (so each key occurs at most once).
pub open spec fn keys_increasing<V>(s: Seq<(i64, V)>) -> bool {
    forall|i: int, j: int| 0 <= i < j < s.len() ==> s[i].0 < s[j].0
}

/// Sum of `w` over the entries whose key lies in the window.
pub open spec fn window_sum<V>(
    s: Seq<(i64, V)>,
    w: spec_fn(V) -> int,
    from: Option<i64>,
    to: Option<i64>,
) -> int
    decreases s.len(),
{
    if s.len() == 0 {
        0
    } else {
        let rest = window_sum(s.drop_last(), w, from, to);
        if in_window(s.last().0, from, to) {
            rest + w(s.last().1)
        } else {
            rest
        }
    }
}

/// What a single entry adds to a window sum.
pub open spec fn entry_weight<V>(
    e: (i64, V),
    w: spec_fn(V) -> int,
    from: Option<i64>,
    to: Option<i64>,
) -> int {
    if in_window(e.0, from, to) {
        w(e.1)
    } else {
        0
    }
}

pub open spec fn nonnegative<V>(w: spec_fn(V) -> int) -> bool {
    forall|v: V| #[trigger] w(v) >= 0
}

pub proof fn lemma_sum_push<V>(
    s: Seq<(i64, V)>,
    e: (i64, V),
    w: spec_fn(V) -> int,
    from: Option<i64>,
    to: Option<i64>,
)
    ensures
        window_sum(s.push(e), w, from, to) == window_sum(s, w, from, to) + entry_weight(
            e,
            w,
            from,
            to,
        ),
{
    assert(s.push(e).drop_last() =~= s);
}

pub proof fn lemma_sum_concat<V>(
    a: Seq<(i64, V)>,
    b: Seq<(i64, V)>,
    w: spec_fn(V) -> int,
    from: Option<i64>,
    to: Option<i64>,
)
    ensures
        window_sum(a + b, w, from, to) == window_sum(a, w, from, to) + window_sum(b, w, from, to),
    decreases b.len(),
{
    if b.len() == 0 {
        assert(a + b =~= a);
    } else {
        lemma_sum_concat(a, b.drop_last(), w, from, to);
        assert((a + b).drop_last() =~= a + b.drop_last());
    }
}

/// Splitting a sequence at `i` splits its window sum.
pub proof fn lemma_sum_split<V>(
    s: Seq<(i64, V)>,
    i: int,
    w: spec_fn(V) -> int,
    from: Option<i64>,
    to: Option<i64>,
)
    requires
        0 <= i <= s.len(),
    ensures
        window_sum(s, w, from, to) == window_sum(s.subrange(0, i), w, from, to) + window_sum(
            s.subrange(i, s.len() as int),
            w,
            from,
            to,
        ),
{
    assert(s =~= s.subrange(0, i) + s.subrange(i, s.len() as int));
    lemma_sum_concat(s.subrange(0, i), s.subrange(i, s.len() as int), w, from, to);
}

/// A sequence none of whose keys lies in the window sums to zero.
pub proof fn lemma_sum_outside<V>(
    s: Seq<(i64, V)>,
    w: spec_fn(V) -> int,
    from: Option<i64>,
    to: Option<i64>,
)
    requires
        forall|j: int| 0 <= j < s.len() ==> !in_window(#[trigger] s[j].0, from, to),
    ensures
        window_sum(s, w, from, to) == 0,
    decreases s.len(),
{
    if s.len() > 0 {
        lemma_sum_outside(s.drop_last(), w, from, to);
    }
}

/// Inserting an entry anywhere adds exactly its weight.
pub proof fn lemma_sum_insert<V>(
    s: Seq<(i64, V)>,
    i: int,
    e: (i64, V),
    w: spec_fn(V) -> int,
    from: Option<i64>,
    to: Option<i64>,
)
    requires
        0 <= i <= s.len(),
    ensures
        window_sum(s.insert(i, e), w, from, to) == window_sum(s, w, from, to) + entry_weight(
            e,
            w,
            from,
            to,
        ),
{
    let pre = s.subrange(0, i);
    let post = s.subrange(i, s.len() as int);
    assert(s.insert(i, e) =~= pre.push(e) + post);
    lemma_sum_concat(pre.push(e), post, w, from, to);
    lemma_sum_push(pre, e, w, from, to);
    lemma_sum_split(s, i, w, from, to);
}

/// Removing the entry at `i` takes away exactly its weight.
pub proof fn lemma_sum_remove<V>(
    s: Seq<(i64, V)>,
    i: int,
    w: spec_fn(V) -> int,
    from: Option<i64>,
    to: Option<i64>,
)
    requires
        0 <= i < s.len(),
    ensures
        window_sum(s.remove(i), w, from, to) == window_sum(s, w, from, to) - entry_weight(
            s[i],
            w,
            from,
            to,
        ),
{
    assert(s.remove(i).insert(i, s[i]) =~= s);
    lemma_sum_insert(s.remove(i), i, s[i], w, from, to);
}

/// Replacing the entry at `i` swaps its weight for the new one's.
pub proof fn lemma_sum_update<V>(
    s: Seq<(i64, V)>,
    i: int,
    e: (i64, V),
    w: spec_fn(V) -> int,
    from: Option<i64>,
    to: Option<i64>,
)
    requires
        0 <= i < s.len(),
    ensures
        window_sum(s.update(i, e), w, from, to) == window_sum(s, w, from, to) - entry_weight(
            s[i],
            w,
            from,
            to,
        ) + entry_weight(e, w, from, to),
{
    assert(s.update(i, e) =~= s.remove(i).insert(i, e));
    lemma_sum_remove(s, i, w, from, to);
    lemma_sum_insert(s.remove(i), i, e, w, from, to);
}

/// With nonnegative weights, a window sum is at least the weight of any one
/// entry and at most the sum over the whole sequence.
pub proof fn lemma_sum_bounds<V>(
    s: Seq<(i64, V)>,
    i: int,
    w: spec_fn(V) -> int,
    from: Option<i64>,
    to: Option<i64>,
)
    requires
        nonnegative(w),
        0 <= i < s.len(),
    ensures
        entry_weight(s[i], w, from, to) <= window_sum(s, w, from, to),
        window_sum(s, w, from, to) <= window_sum(s, w, None, None),
    decreases s.len(),
{
    lemma_sum_nonneg(s, w, from, to);
    if i < s.len() - 1 {
        lemma_sum_bounds(s.drop_last(), i, w, from, to);
        assert(w(s.last().1) >= 0);
    } else {
        lemma_sum_nonneg(s.drop_last(), w, from, to);
        if s.len() > 1 {
            lemma_sum_bounds(s.drop_last(), 0, w, from, to);
        }
        assert(w(s.last().1) >= 0);
    }
}

pub proof fn lemma_sum_nonneg<V>(
    s: Seq<(i64, V)>,
    w: spec_fn(V) -> int,
    from: Option<i64>,
    to: Option<i64>,
)
    requires
        nonnegative(w),
    ensures
        window_sum(s, w, from, to) >= 0,
    decreases s.len(),
{
    if s.len() > 0 {
        lemma_sum_nonneg(s.drop_last(), w, from, to);
        assert(w(s.last().1) >= 0);
    }
}

/// In a sequence with increasing keys, the one-point window `[ts, ts]` holds
/// exactly the entry whose key is `ts`.
pub proof fn lemma_sum_point<V>(s: Seq<(i64, V)>, i: int, w: spec_fn(V) -> int)
    requires
        keys_increasing(s),
        0 <= i < s.len(),
    ensures
        window_sum(s, w, Some(s[i].0), Some(s[i].0)) == w(s[i].1),
{
    let ts = s[i].0;
    let rest = s.remove(i);
    assert forall|j: int| 0 <= j < rest.len() implies !in_window(
        #[trigger] rest[j].0,
        Some(ts),
        Some(ts),
    ) by {
        if j < i {
            assert(rest[j] == s[j]);
        } else {
            assert(rest[j] == s[j + 1]);
        }
    }
    lemma_sum_outside(rest, w, Some(ts), Some(ts));
    lemma_sum_remove(s, i, w, Some(ts), Some(ts));
}

/// Two adjacent windows `[from, mid]` and `[mid + 1, to]` that together
/// cover `[from, to]` split its sum.
pub proof fn lemma_sum_adjacent<V>(
    s: Seq<(i64, V)>,
    w: spec_fn(V) -> int,
    from: Option<i64>,
    mid: i64,
    to: Option<i64>,
)
    requires
        mid < i64::MAX,
        from matches Some(f) ==> f <= mid + 1,
        to matches Some(t) ==> mid <= t,
    ensures
        window_sum(s, w, from, to) == window_sum(s, w, from, Some(mid)) + window_sum(
            s,
            w,
            Some((mid + 1) as i64),
            to,
        ),
    decreases s.len(),
{
    if s.len() > 0 {
        lemma_sum_adjacent(s.drop_last(), w, from, mid, to);
    }
}

/// Index of the first entry whose key is at least `ts`.
pub fn lower_bound<V>(v: &Vec<(i64, V)>, ts: i64) -> (i: usize)
    requires
        keys_increasing(v@),
    ensures
        i <= v.len(),
        forall|j: int| 0 <= j < i ==> v@[j].0 < ts,
        forall|j: int| i <= j < v.len() ==> v@[j].0 >= ts,
{
    let mut lo: usize = 0;
    let mut hi: usize = v.len();
    while lo < hi
        invariant
            keys_increasing(v@),
            lo <= hi <= v.len(),
            forall|j: int| 0 <= j < lo ==> v@[j].0 < ts,
            forall|j: int| hi <= j < v.len() ==> v@[j].0 >= ts,
        decreases hi - lo,
    {
        let mid = lo + (hi - lo) / 2;
        if v[mid].0 < ts {
            lo = mid + 1;
        } else {
            hi = mid;
        }
    }
    lo
}

/// Index of the first entry at or after the window's lower bound.
pub fn window_start<V>(v: &Vec<(i64, V)>, from: Option<i64>) -> (i: usize)
    requires
        keys_increasing(v@),
    ensures
        i <= v.len(),
        forall|j: int| 0 <= j < i ==> !in_window(#[trigger] v@[j].0, from, None),
        forall|j: int| i <= j < v.len() ==> in_window(#[trigger] v@[j].0, from, None),
{
    match from {
        Some(f) => lower_bound(v, f),
        None => 0,
    }
}

/// Index just past the last entry at or before the window's upper bound.
pub fn window_end<V>(v: &Vec<(i64, V)>, to: Option<i64>) -> (i: usize)
    requires
        keys_increasing(v@),
    ensures
        i <= v.len(),
        forall|j: int| 0 <= j < i ==> in_window(#[trigger] v@[j].0, None, to),
        forall|j: int| i <= j < v.len() ==> !in_window(#[trigger] v@[j].0, None, to),
{
    match to {
        Some(t) => {
            if t < i64::MAX {
                lower_bound(v, t + 1)
            } else {
                v.len()
            }
        },
        None => v.len(),
    }
}

} // verus!
