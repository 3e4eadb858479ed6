//! The Largest-Triangle-Three-Buckets downsampler: reduces an ordered series
//! of length `N` to length `min(N, K)` while preserving its visual shape.
//!
//! The first and last samples are always kept. The interior samples are
//! split by position into `K - 2` contiguous buckets of as-equal-as-possible
//! size; from each bucket, the sample forming the largest triangle with the
//! previously selected sample and the centroid of the next bucket is
//! selected (for the last interior bucket the centroid is the final sample).
//! Exact ties select the earliest candidate in scan order, so the result is
//! reproducible.
//!
//! All geometry is exact: instead of dividing the next bucket's coordinate
//! sums by its size `m` to form the centroid, every triangle area is scaled
//! by `m`, which leaves the comparison between candidates of one bucket
//! unchanged and keeps the arithmetic in integers. Timestamps enter the
//! area in milliseconds; a change of time unit scales every area by the
//! same factor and so never changes which sample is selected.

use vstd::prelude::*;
use vstd::arithmetic::div_mod::{
    lemma_basic_div, lemma_div_is_ordered, lemma_div_multiples_vanish, lemma_div_plus_one,
    lemma_div_pos_is_pos,
};
use vstd::arithmetic::mul::{
    lemma_mul_inequality, lemma_mul_is_distributive_add_other_way, lemma_mul_nonnegative,
};
use crate::sample::{Sample, all_wf, strictly_ascending, MAX_COORD};

verus! {

/// Longest series the downsampler accepts: with both coordinates below
/// `MAX_COORD`, the scaled triangle areas of a series this long fit `i128`.
pub const MAX_LEN: usize = 0x4000_0000;

/// The one downsampler failure: a target bucket count below 2, which could
/// not retain both endpoints.
#[derive(Clone, Copy, Debug, PartialEq, Eq, Structural)]
pub enum DownsampleError {
    InvalidArgument,
}

/// Sum of the timestamps of `s[lo .. hi]`.
pub open spec fn sum_ts(s: Seq<Sample>, lo: int, hi: int) -> int
    decreases hi - lo,
{
    if hi <= lo {
        0
    } else {
        sum_ts(s, lo, hi - 1) + s[hi - 1].timestamp_ms
    }
}

/// Sum of the values of `s[lo .. hi]`.
pub open spec fn sum_val(s: Seq<Sample>, lo: int, hi: int) -> int
    decreases hi - lo,
{
    if hi <= lo {
        0
    } else {
        sum_val(s, lo, hi - 1) + s[hi - 1].value
    }
}

pub open spec fn abs_int(x: int) -> int {
    if x >= 0 {
        x
    } else {
        -x
    }
}

/// Twice the area of the triangle through the previously selected sample
/// `p`, a candidate `c`, and the centroid of a sample range of size `m`
/// with coordinate sums `(sx, sy)` — scaled by `m` to stay in integers.
pub open spec fn cross_m(p: Sample, c: Sample, m: int, sx: int, sy: int) -> int {
    (m * p.timestamp_ms - sx) * (c.value - p.value) - (p.timestamp_ms - c.timestamp_ms) * (sy - m
        * p.value)
}

/// The (scaled) triangle area of candidate `s[c]` against the previously
/// selected sample `prev` and the centroid of `s[alo .. ahi]`.
pub open spec fn area_metric(s: Seq<Sample>, prev: Sample, c: int, alo: int, ahi: int) -> int {
    abs_int(cross_m(prev, s[c], ahi - alo, sum_ts(s, alo, ahi), sum_val(s, alo, ahi)))
}

/// The index in `s[lo .. hi]` whose area against `prev` and the centroid of
/// `s[alo .. ahi]` is maximal; on exact ties, the earliest in scan order.
pub open spec fn best_in(s: Seq<Sample>, prev: Sample, lo: int, hi: int, alo: int, ahi: int) -> int
    decreases hi - lo,
{
    if hi - lo <= 1 {
        lo
    } else {
        let b = best_in(s, prev, lo, hi - 1, alo, ahi);
        if area_metric(s, prev, hi - 1, alo, ahi) > area_metric(s, prev, b, alo, ahi) {
            hi - 1
        } else {
            b
        }
    }
}

/// First index of the `i`-th interior bucket of a series of length `n` with
/// target `k`: interior indices `1 .. n-1` split into `k - 2` contiguous,
/// as-equal-as-possible runs by position.
pub open spec fn bucket_lo(n: int, k: int, i: int) -> int {
    1 + (i * (n - 2)) / (k - 2)
}

/// End (exclusive) of the index range averaged for bucket `i`'s centroid:
/// the next bucket, except that the last bucket's centroid is the final
/// sample itself.
pub open spec fn avg_hi(n: int, k: int, i: int) -> int {
    if i + 2 <= k - 2 {
        bucket_lo(n, k, i + 2)
    } else {
        n
    }
}

/// The index selected from bucket `i`, given that `s[prev]` was selected
/// from the bucket before.
pub open spec fn pick(s: Seq<Sample>, k: int, i: int, prev: int) -> int {
    let n = s.len() as int;
    best_in(
        s,
        s[prev],
        bucket_lo(n, k, i),
        bucket_lo(n, k, i + 1),
        bucket_lo(n, k, i + 1),
        avg_hi(n, k, i),
    )
}

/// The samples selected from buckets `i .. k-2`, followed by the final
/// sample, when `s[prev]` was the sample selected before bucket `i`.
pub open spec fn lttb_tail(s: Seq<Sample>, k: int, i: int, prev: int) -> Seq<Sample>
    decreases k - 2 - i,
{
    if i >= k - 2 {
        seq![s[s.len() - 1]]
    } else {
        seq![s[pick(s, k, i, prev)]] + lttb_tail(s, k, i + 1, pick(s, k, i, prev))
    }
}

/// The Largest-Triangle-Three-Buckets reduction of `s` to at most `k`
/// samples: the series itself when it already fits, otherwise the first
/// sample, one selection per interior bucket, and the last sample.
pub open spec fn lttb(s: Seq<Sample>, k: int) -> Seq<Sample> {
    if s.len() <= k {
        s
    } else {
        seq![s[0]] + lttb_tail(s, k, 0, 0)
    }
}

/// The selected index lies in its bucket, no candidate of the bucket has a
/// larger area, and every earlier candidate has a strictly smaller area:
/// the earliest-maximum tie-break rule.
pub proof fn lemma_best_in_props(s: Seq<Sample>, prev: Sample, lo: int, hi: int, alo: int, ahi: int)
    requires
        lo < hi,
    ensures
        lo <= best_in(s, prev, lo, hi, alo, ahi) < hi,
        forall|j: int| lo <= j < hi ==> #[trigger] area_metric(s, prev, j, alo, ahi)
            <= area_metric(s, prev, best_in(s, prev, lo, hi, alo, ahi), alo, ahi),
        forall|j: int| lo <= j < best_in(s, prev, lo, hi, alo, ahi) ==> #[trigger] area_metric(
            s,
            prev,
            j,
            alo,
            ahi,
        ) < area_metric(s, prev, best_in(s, prev, lo, hi, alo, ahi), alo, ahi),
    decreases hi - lo,
{
    if hi - lo > 1 {
        lemma_best_in_props(s, prev, lo, hi - 1, alo, ahi);
    }
}

/// `lttb_tail` emits one sample per remaining bucket plus the final sample.
proof fn lemma_lttb_tail_len(s: Seq<Sample>, k: int, i: int, prev: int)
    requires
        i <= k - 2,
    ensures
        lttb_tail(s, k, i, prev).len() == k - 1 - i,
    decreases k - 2 - i,
{
    if i < k - 2 {
        lemma_lttb_tail_len(s, k, i + 1, pick(s, k, i, prev));
    }
}

/// `lttb_tail` always ends with the final sample of the series.
proof fn lemma_lttb_tail_last(s: Seq<Sample>, k: int, i: int, prev: int)
    requires
        i <= k - 2,
        s.len() >= 1,
    ensures
        lttb_tail(s, k, i, prev).len() >= 1,
        lttb_tail(s, k, i, prev).last() == s[s.len() - 1],
    decreases k - 2 - i,
{
    if i < k - 2 {
        lemma_lttb_tail_last(s, k, i + 1, pick(s, k, i, prev));
        lemma_lttb_tail_len(s, k, i + 1, pick(s, k, i, prev));
    }
}

/// The downsampled series keeps length `min(n, k)` and both endpoints.
pub proof fn lemma_lttb_basics(s: Seq<Sample>, k: int)
    requires
        k >= 2,
    ensures
        lttb(s, k).len() == if s.len() <= k { s.len() as int } else { k },
        s.len() >= 1 ==> lttb(s, k)[0] == s[0],
        s.len() >= 1 ==> lttb(s, k).last() == s[s.len() - 1],
{
    if s.len() > k {
        lemma_lttb_tail_len(s, k, 0, 0);
        lemma_lttb_tail_last(s, k, 0, 0);
    }
}

/// Downsampling is deterministic: the result is a function of the series
/// and the target alone, so two runs on the same input agree exactly.
pub proof fn lemma_lttb_deterministic(s1: Seq<Sample>, s2: Seq<Sample>, k: int)
    requires
        s1 == s2,
    ensures
        lttb(s1, k) == lttb(s2, k),
{
}

/// The source index of the `j`-th output sample while the series is being
/// reduced: position 0 keeps the first sample, and each following position
/// takes its bucket's pick, seeded by the position before.
pub open spec fn sel_idx(s: Seq<Sample>, k: int, j: int) -> int
    decreases j,
{
    if j <= 0 {
        0
    } else {
        pick(s, k, j - 1, sel_idx(s, k, j - 1))
    }
}

/// The `m`-th sample of the remaining selection is the sample at the
/// selection index of the corresponding output position.
proof fn lemma_tail_index(s: Seq<Sample>, k: int, i: int, m: int)
    requires
        2 < k < s.len(),
        0 <= i,
        0 <= m,
        i + m < k - 2,
    ensures
        lttb_tail(s, k, i, sel_idx(s, k, i))[m] == s[sel_idx(s, k, i + m + 1)],
    decreases m,
{
    lemma_lttb_tail_len(s, k, i + 1, pick(s, k, i, sel_idx(s, k, i)));
    if m > 0 {
        lemma_tail_index(s, k, i + 1, m - 1);
    }
}

/// Every output position `0 .. k-2` shows the sample at its selection
/// index, and that index stays inside the interior of the series.
proof fn lemma_lttb_indices(s: Seq<Sample>, k: int, j: int)
    requires
        2 < k < s.len(),
        0 <= j <= k - 2,
    ensures
        0 <= sel_idx(s, k, j) < s.len() - 1,
        lttb(s, k)[j] == s[sel_idx(s, k, j)],
    decreases j,
{
    let n = s.len() as int;
    if j == 0 {
        assert(lttb(s, k)[0] == s[0]);
    } else {
        lemma_lttb_indices(s, k, j - 1);
        lemma_bucket_lo_props(n, k, j - 1);
        lemma_bucket_lo_props(n, k, j);
        lemma_best_in_props(
            s,
            s[sel_idx(s, k, j - 1)],
            bucket_lo(n, k, j - 1),
            bucket_lo(n, k, j),
            bucket_lo(n, k, j),
            avg_hi(n, k, j - 1),
        );
        lemma_tail_index(s, k, 0, j - 1);
        lemma_lttb_tail_len(s, k, 0, 0);
        assert(sel_idx(s, k, 0) == 0);
        assert(lttb(s, k) == seq![s[0]] + lttb_tail(s, k, 0, 0));
        assert(lttb(s, k)[j] == lttb_tail(s, k, 0, sel_idx(s, k, 0))[j - 1]);
    }
}

/// The greedy rule of the algorithm, stated over the output itself: each
/// interior output sample is the sample of its own bucket selected by the
/// earliest-maximal-area rule against the output sample before it and the
/// centroid range of the bucket after it. Together with the properties of
/// `best_in`, no sample of the bucket forms a larger triangle, and every
/// earlier bucket-mate forms a strictly smaller one.
pub proof fn lemma_lttb_selection(s: Seq<Sample>, k: int, j: int)
    requires
        2 < k < s.len(),
        1 <= j <= k - 2,
    ensures
        ({
            let n = s.len() as int;
            let out = lttb(s, k);
            let lo = bucket_lo(n, k, j - 1);
            let hi = bucket_lo(n, k, j);
            let b = best_in(s, out[j - 1], lo, hi, hi, avg_hi(n, k, j - 1));
            &&& lo <= b < hi
            &&& out[j] == s[b]
        }),
{
    let n = s.len() as int;
    lemma_lttb_indices(s, k, j - 1);
    lemma_lttb_indices(s, k, j);
    lemma_bucket_lo_props(n, k, j - 1);
    lemma_bucket_lo_props(n, k, j);
    lemma_best_in_props(
        s,
        s[sel_idx(s, k, j - 1)],
        bucket_lo(n, k, j - 1),
        bucket_lo(n, k, j),
        bucket_lo(n, k, j),
        avg_hi(n, k, j - 1),
    );
}

/// Prepending a sample strictly older than a strictly ascending tail keeps
/// the sequence strictly ascending.
proof fn lemma_cons_ascending(head: Sample, tail: Seq<Sample>)
    requires
        strictly_ascending(tail),
        tail.len() >= 1 ==> head.timestamp_ms < tail[0].timestamp_ms,
    ensures
        strictly_ascending(seq![head] + tail),
{
    let c = seq![head] + tail;
    assert forall|x: int, y: int| 0 <= x < y < c.len() implies #[trigger] c[x].timestamp_ms
        < #[trigger] c[y].timestamp_ms by {
        if x == 0 {
            assert(c[y] == tail[y - 1]);
            if y > 1 {
                assert(tail[0].timestamp_ms < tail[y - 1].timestamp_ms);
            }
        } else {
            assert(c[x] == tail[x - 1]);
            assert(c[y] == tail[y - 1]);
        }
    }
}

/// The tail of the selection is strictly ascending and strictly newer than
/// the previously selected sample: every bucket's selection lies in its own
/// bucket, and the buckets come one after another.
proof fn lemma_lttb_tail_ascending(s: Seq<Sample>, k: int, i: int, prev: int)
    requires
        strictly_ascending(s),
        2 <= k < s.len(),
        0 <= i <= k - 2,
        0 <= prev < s.len() - 1,
        i < k - 2 ==> prev < bucket_lo(s.len() as int, k, i),
    ensures
        strictly_ascending(lttb_tail(s, k, i, prev)),
        lttb_tail(s, k, i, prev).len() >= 1,
        s[prev].timestamp_ms < lttb_tail(s, k, i, prev)[0].timestamp_ms,
    decreases k - 2 - i,
{
    let n = s.len() as int;
    if i >= k - 2 {
        assert(lttb_tail(s, k, i, prev) =~= seq![s[n - 1]]);
        assert(s[prev].timestamp_ms < s[n - 1].timestamp_ms);
    } else {
        lemma_bucket_lo_props(n, k, i);
        lemma_bucket_lo_props(n, k, i + 1);
        let lo = bucket_lo(n, k, i);
        let hi = bucket_lo(n, k, i + 1);
        lemma_best_in_props(s, s[prev], lo, hi, hi, avg_hi(n, k, i));
        let b = pick(s, k, i, prev);
        assert(lo <= b < hi);
        assert(s[prev].timestamp_ms < s[b].timestamp_ms);
        lemma_lttb_tail_ascending(s, k, i + 1, b);
        lemma_cons_ascending(s[b], lttb_tail(s, k, i + 1, b));
        assert(lttb_tail(s, k, i, prev) =~= seq![s[b]] + lttb_tail(s, k, i + 1, b));
        assert(lttb_tail(s, k, i, prev)[0] == s[b]);
    }
}

/// Downsampling preserves strict time order: on a series with strictly
/// ascending timestamps, the selected samples, read left to right, are
/// taken at strictly increasing times.
pub proof fn lemma_lttb_preserves_ascending(s: Seq<Sample>, k: int)
    requires
        strictly_ascending(s),
        k >= 2,
    ensures
        strictly_ascending(lttb(s, k)),
{
    if s.len() > k {
        lemma_lttb_tail_ascending(s, k, 0, 0);
        lemma_cons_ascending(s[0], lttb_tail(s, k, 0, 0));
        assert(lttb(s, k) =~= seq![s[0]] + lttb_tail(s, k, 0, 0));
    }
}

/// Coordinate sums over a range of in-range samples are bounded by the
/// range's size times the coordinate bound.
proof fn lemma_sum_bounds(s: Seq<Sample>, lo: int, hi: int)
    requires
        0 <= lo <= hi <= s.len(),
        all_wf(s),
    ensures
        0 <= sum_ts(s, lo, hi) <= (hi - lo) * (MAX_COORD as int),
        0 <= sum_val(s, lo, hi) <= (hi - lo) * (MAX_COORD as int),
    decreases hi - lo,
{
    if hi > lo {
        lemma_sum_bounds(s, lo, hi - 1);
        assert(s[hi - 1].wf());
    }
}

/// Ordering and range of the bucket boundaries: they start at the first
/// interior index, never pass the last one, strictly increase while `n > k`,
/// and the boundary after the last bucket is exactly the final interior
/// index.
proof fn lemma_bucket_lo_props(n: int, k: int, i: int)
    requires
        2 < k < n,
        0 <= i <= k - 2,
    ensures
        1 <= bucket_lo(n, k, i) <= n - 1,
        i == 0 ==> bucket_lo(n, k, i) == 1,
        i == k - 2 ==> bucket_lo(n, k, i) == n - 1,
        i < k - 2 ==> bucket_lo(n, k, i) + 1 <= bucket_lo(n, k, i + 1),
{
    let n2 = n - 2;
    let k2 = k - 2;
    lemma_mul_nonnegative(i, n2);
    lemma_div_pos_is_pos(i * n2, k2);
    lemma_mul_inequality(i, k2, n2);
    lemma_div_is_ordered(i * n2, k2 * n2, k2);
    lemma_div_multiples_vanish(n2, k2);
    assert(k2 * n2 == n2 * k2) by (nonlinear_arith);
    if i == 0 {
        assert(0 * n2 == 0) by (nonlinear_arith);
        lemma_basic_div(0, k2);
    }
    if i < k - 2 {
        lemma_mul_is_distributive_add_other_way(n2, i, 1);
        assert((i + 1) * n2 == i * n2 + n2);
        assert(1 * n2 == n2) by (nonlinear_arith);
        lemma_div_plus_one(i * n2, k2);
        lemma_div_is_ordered(k2 + i * n2, (i + 1) * n2, k2);
    }
}

/// Exact scaled triangle area of a candidate, in `i128`: the bounds on the
/// coordinates, the range size and the sums keep every product within range.
fn area2m(prev: Sample, cand: Sample, m: u64, sx: i128, sy: i128) -> (r: i128)
    requires
        prev.wf(),
        cand.wf(),
        1 <= m <= MAX_LEN,
        0 <= sx <= m * (MAX_COORD as int),
        0 <= sy <= m * (MAX_COORD as int),
    ensures
        r == abs_int(cross_m(prev, cand, m as int, sx as int, sy as int)),
{
    let mi: i128 = m as i128;
    let pt: i128 = prev.timestamp_ms as i128;
    let pv: i128 = prev.value as i128;
    let ct: i128 = cand.timestamp_ms as i128;
    let cv: i128 = cand.value as i128;
    proof {
        assert(mi * pt <= 0x4000_0000 * (MAX_COORD as int) && mi * pt >= 0) by (nonlinear_arith)
            requires
                0 <= mi <= 0x4000_0000,
                0 <= pt <= MAX_COORD as int,
        ;
        assert(mi * pv <= 0x4000_0000 * (MAX_COORD as int) && mi * pv >= 0) by (nonlinear_arith)
            requires
                0 <= mi <= 0x4000_0000,
                0 <= pv <= MAX_COORD as int,
        ;
        assert(sx <= 0x4000_0000 * (MAX_COORD as int)) by {
            lemma_mul_inequality(m as int, 0x4000_0000, MAX_COORD as int);
        }
        assert(sy <= 0x4000_0000 * (MAX_COORD as int)) by {
            lemma_mul_inequality(m as int, 0x4000_0000, MAX_COORD as int);
        }
    }
    let t1: i128 = mi * pt - sx;
    let t2: i128 = cv - pv;
    let t3: i128 = pt - ct;
    let t4: i128 = sy - mi * pv;
    proof {
        let bb = 0x4000_0000 * (MAX_COORD as int);
        let cc = 0x4000_0000 * (MAX_COORD as int) * (MAX_COORD as int);
        assert(t1 * t2 <= cc && t1 * t2 >= -cc) by (nonlinear_arith)
            requires
                -bb <= t1 <= bb,
                -(MAX_COORD as int) <= t2 <= MAX_COORD as int,
                bb == 0x4000_0000 * (MAX_COORD as int),
                cc == 0x4000_0000 * (MAX_COORD as int) * (MAX_COORD as int),
        ;
        assert(t3 * t4 <= cc && t3 * t4 >= -cc) by (nonlinear_arith)
            requires
                -(MAX_COORD as int) <= t3 <= MAX_COORD as int,
                -bb <= t4 <= bb,
                bb == 0x4000_0000 * (MAX_COORD as int),
                cc == 0x4000_0000 * (MAX_COORD as int) * (MAX_COORD as int),
        ;
    }
    let cross: i128 = t1 * t2 - t3 * t4;
    if cross < 0 {
        -cross
    } else {
        cross
    }
}

/// Coordinate sums of `s[lo .. hi]`, exactly.
fn range_sums(s: &Vec<Sample>, lo: usize, hi: usize) -> (r: (i128, i128))
    requires
        all_wf(s@),
        lo <= hi <= s@.len(),
        s@.len() <= MAX_LEN,
    ensures
        r.0 == sum_ts(s@, lo as int, hi as int),
        r.1 == sum_val(s@, lo as int, hi as int),
        0 <= r.0 <= (hi - lo) * (MAX_COORD as int),
        0 <= r.1 <= (hi - lo) * (MAX_COORD as int),
{
    let mut sx: i128 = 0;
    let mut sy: i128 = 0;
    let mut j: usize = lo;
    while j < hi
        invariant
            lo <= j <= hi <= s@.len(),
            s@.len() <= MAX_LEN,
            all_wf(s@),
            sx == sum_ts(s@, lo as int, j as int),
            sy == sum_val(s@, lo as int, j as int),
            0 <= sx <= (j - lo) * (MAX_COORD as int),
            0 <= sy <= (j - lo) * (MAX_COORD as int),
        decreases hi - j,
    {
        proof {
            assert(s@[j as int].wf());
        }
        sx = sx + (s[j].timestamp_ms as i128);
        sy = sy + (s[j].value as i128);
        j = j + 1;
    }
    (sx, sy)
}

/// The first index of bucket `i`, computed exactly as `bucket_lo` states.
fn bucket_bound(i: usize, n: usize, k: usize) -> (r: usize)
    requires
        2 < k < n,
        n <= MAX_LEN,
        i <= k - 2,
    ensures
        r == bucket_lo(n as int, k as int, i as int),
        1 <= r <= n - 1,
    {
    proof {
        lemma_bucket_lo_props(n as int, k as int, i as int);
    }
    let n2: u64 = (n as u64) - 2;
    let k2: u64 = (k as u64) - 2;
    let iu: u64 = i as u64;
    proof {
        assert(iu * n2 <= 0x4000_0000 * 0x4000_0000 && iu * n2 >= 0) by (nonlinear_arith)
            requires
                0 <= iu <= 0x4000_0000,
                0 <= n2 <= 0x4000_0000,
        ;
    }
    let q: u64 = (iu * n2) / k2;
    1 + (q as usize)
}

/// Reduces `s` to at most `k` representative samples by
/// Largest-Triangle-Three-Buckets, exactly as the `lttb` function states:
/// identity when the series already fits, otherwise both endpoints plus the
/// largest-triangle selection of each interior bucket, ties resolved to the
/// earliest candidate. Fails only when `k < 2`.
pub fn downsample(s: &Vec<Sample>, k: usize) -> (r: Result<Vec<Sample>, DownsampleError>)
    requires
        all_wf(s@),
        s@.len() <= MAX_LEN,
    ensures
        k < 2 <==> r is Err,
        r is Err ==> r->Err_0 == DownsampleError::InvalidArgument,
        k >= 2 ==> r is Ok && r->Ok_0@ == lttb(s@, k as int),
        k >= 2 ==> r->Ok_0@.len() == if s@.len() <= k { s@.len() as int } else { k as int },
        k >= 2 && s@.len() <= k ==> r->Ok_0@ == s@,
        k >= 2 && s@.len() >= 1 ==> r->Ok_0@[0] == s@[0] && r->Ok_0@.last() == s@[s@.len() - 1],
{
    if k < 2 {
        return Err(DownsampleError::InvalidArgument);
    }
    let n = s.len();
    if n <= k {
        let copy = crate::sample::copy_samples(s);
        proof {
            lemma_lttb_basics(s@, k as int);
        }
        return Ok(copy);
    }
    // Here n > k >= 2, so n >= 3 and there is at least one interior bucket
    // only when k > 2; for k == 2 the result is just the two endpoints.
    let mut out: Vec<Sample> = Vec::new();
    out.push(s[0]);
    let mut prev_idx: usize = 0;
    let mut i: usize = 0;
    proof {
        assert(lttb(s@, k as int) == seq![s@[0]] + lttb_tail(s@, k as int, 0, 0));
        assert(out@ =~= seq![s@[0]]);
    }
    while i < k - 2
        invariant
            2 <= k < n == s@.len(),
            n <= MAX_LEN,
            all_wf(s@),
            0 <= i <= k - 2,
            prev_idx < n - 1,
            out@.len() == i + 1,
            lttb(s@, k as int) =~= out@ + lttb_tail(s@, k as int, i as int, prev_idx as int),
        decreases k - 2 - i,
    {
        let lo = bucket_bound(i, n, k);
        let hi = bucket_bound(i + 1, n, k);
        let ahi: usize = if i + 4 <= k { bucket_bound(i + 2, n, k) } else { n };
        proof {
            lemma_bucket_lo_props(n as int, k as int, i as int);
            lemma_bucket_lo_props(n as int, k as int, i as int + 1);
            if i + 4 <= k {
                lemma_bucket_lo_props(n as int, k as int, i as int + 2);
            }
            assert(ahi == avg_hi(n as int, k as int, i as int));
            assert(lo < hi <= n - 1);
            assert(hi < ahi <= n);
        }
        let (sx, sy) = range_sums(s, hi, ahi);
        let m: u64 = (ahi - hi) as u64;
        let prev = s[prev_idx];
        proof {
            assert(s@[prev_idx as int].wf());
            assert(s@[lo as int].wf());
        }
        let mut best_j: usize = lo;
        let mut best_a: i128 = area2m(prev, s[lo], m, sx, sy);
        let mut j: usize = lo + 1;
        while j < hi
            invariant
                all_wf(s@),
                n == s@.len() <= MAX_LEN,
                prev == s@[prev_idx as int],
                prev_idx < n,
                1 <= lo < hi <= n - 1,
                hi < ahi <= n,
                m == ahi - hi,
                1 <= m <= MAX_LEN,
                sx == sum_ts(s@, hi as int, ahi as int),
                sy == sum_val(s@, hi as int, ahi as int),
                0 <= sx <= m * (MAX_COORD as int),
                0 <= sy <= m * (MAX_COORD as int),
                lo < j <= hi,
                lo <= best_j < j,
                best_j == best_in(s@, prev, lo as int, j as int, hi as int, ahi as int),
                best_a == area_metric(s@, prev, best_j as int, hi as int, ahi as int),
            decreases hi - j,
        {
            proof {
                assert(s@[j as int].wf());
            }
            let a = area2m(prev, s[j], m, sx, sy);
            if a > best_a {
                best_j = j;
                best_a = a;
            }
            j = j + 1;
        }
        proof {
            assert(best_j == pick(s@, k as int, i as int, prev_idx as int));
            assert(lttb_tail(s@, k as int, i as int, prev_idx as int) == seq![
                s@[best_j as int],
            ] + lttb_tail(s@, k as int, i as int + 1, best_j as int));
            assert(out@.push(s@[best_j as int]) + lttb_tail(
                s@,
                k as int,
                i as int + 1,
                best_j as int,
            ) =~= out@ + (seq![s@[best_j as int]] + lttb_tail(
                s@,
                k as int,
                i as int + 1,
                best_j as int,
            )));
        }
        out.push(s[best_j]);
        prev_idx = best_j;
        i = i + 1;
    }
    proof {
        assert(lttb_tail(s@, k as int, i as int, prev_idx as int) == seq![s@[s@.len() - 1]]);
        assert(out@.push(s@[s@.len() - 1]) =~= out@ + seq![s@[s@.len() - 1]]);
        lemma_lttb_basics(s@, k as int);
    }
    out.push(s[n - 1]);
    Ok(out)
}

} // verus!
