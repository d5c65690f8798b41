//! Resampling: a series of arbitrary length is mapped onto the shared
//! discrete chart-index domain by nearest-neighbor lookup and linear
//! interpolation, with forward and backward fill at the edges.

use vstd::arithmetic::div_mod::{lemma_div_is_ordered, lemma_div_multiples_vanish, lemma_div_of0};
use vstd::arithmetic::mul::{lemma_mul_inequality, lemma_mul_upper_bound};
use vstd::prelude::*;

use crate::fixed::{coord_ok, COORD_LIMIT};
use crate::series::Sample;

verus! {

/// A series prepared for evaluation on the shared chart-index domain
/// `[0, domain)`: its points, the domain size, and the global time
/// bounds that the domain spans.
pub struct Resampler {
    pub points: Vec<Sample>,
    pub domain: usize,
    pub tmin: i64,
    pub tmax: i64,
}

/// Samples whose coordinates the pipeline's arithmetic can handle.
pub open spec fn samples_ok(s: Seq<Sample>) -> bool {
    forall|i: int|
        0 <= i < s.len() ==> coord_ok(#[trigger] s[i].ts as int) && coord_ok(s[i].val as int)
}

/// Timestamps strictly ascend.
pub open spec fn ts_strictly_ascending(s: Seq<Sample>) -> bool {
    forall|i: int, j: int| 0 <= i < j < s.len() ==> #[trigger] s[i].ts < #[trigger] s[j].ts
}

/// The least index whose timestamp is at or after `t`, if any.
pub open spec fn first_at_or_after(s: Seq<Sample>, t: int) -> Option<int>
    decreases s.len(),
{
    if s.len() == 0 {
        None
    } else if s[0].ts >= t {
        Some(0)
    } else {
        match first_at_or_after(s.drop_first(), t) {
            Some(j) => Some(j + 1),
            None => None,
        }
    }
}

/// The greatest index at most `end` whose timestamp is at or before
/// `t`, if any.
pub open spec fn last_at_or_before(s: Seq<Sample>, t: int, end: int) -> Option<int>
    recommends
        end < s.len(),
    decreases end + 1,
{
    if end < 0 {
        None
    } else if s[end].ts <= t {
        Some(end)
    } else {
        last_at_or_before(s, t, end - 1)
    }
}

/// Linear interpolation from `y1` toward `y2` by the fraction
/// `num / den`, the fractional step rounded toward `y1`.
pub open spec fn lerp(y1: int, y2: int, num: int, den: int) -> int
    recommends
        0 <= num <= den,
        0 < den,
{
    if y2 >= y1 {
        y1 + ((y2 - y1) * num) / den
    } else {
        y1 - ((y1 - y2) * num) / den
    }
}

/// The resampled value of a series at target time `t`: the bracketing
/// points interpolate; a missing right bracket forward-fills from the
/// last known point, a missing left bracket backward-fills from the
/// first known one; an empty series yields zero. The left bracket is
/// sought no further than the right one, as a single left-to-right
/// scan finds it.
pub open spec fn resampled(s: Seq<Sample>, t: int) -> int {
    let r_opt = first_at_or_after(s, t);
    let e = match r_opt {
        Some(r) => r,
        None => s.len() - 1,
    };
    let l_opt = last_at_or_before(s, t, e);
    match (l_opt, r_opt) {
        (Some(l), Some(r)) => if l == r {
            s[l].val as int
        } else if s[r].ts > s[l].ts {
            lerp(s[l].val as int, s[r].val as int, t - s[l].ts, s[r].ts - s[l].ts)
        } else {
            s[l].val as int
        },
        (Some(l), None) => s[l].val as int,
        (None, Some(r)) => s[r].val as int,
        (None, None) => 0,
    }
}

impl Resampler {
    /// The arithmetic preconditions of evaluation: ordered global time
    /// bounds and coordinates within range.
    pub open spec fn wf(&self) -> bool {
        &&& self.tmin <= self.tmax
        &&& coord_ok(self.tmin as int)
        &&& coord_ok(self.tmax as int)
        &&& samples_ok(self.points@)
    }

    /// The divisor of the index-to-progress map: one less than the
    /// domain size, at least one.
    pub open spec fn spec_step_div(&self) -> int {
        if self.domain > 1 {
            self.domain - 1
        } else {
            1
        }
    }

    /// The target time of chart index `i`: the global time bounds
    /// swept linearly as `i` crosses the domain (rounded toward the
    /// start).
    pub open spec fn spec_target_time(&self, i: int) -> int {
        self.tmin + (i * (self.tmax - self.tmin)) / self.spec_step_div()
    }

    /// The value of the series at chart index `i`: zero outside the
    /// domain or for an empty series, else the resampled value at the
    /// index's target time.
    pub open spec fn spec_evaluate(&self, i: int) -> int {
        if self.points@.len() == 0 || i >= self.domain {
            0
        } else {
            resampled(self.points@, self.spec_target_time(i))
        }
    }

    /// Computes the target time of chart index `i`.
    fn target_time(&self, i: usize) -> (t: i64)
        requires
            self.wf(),
            i < self.domain,
        ensures
            t == self.spec_target_time(i as int),
            self.tmin <= t <= self.tmax,
    {
        let d: usize = if self.domain > 1 {
            self.domain - 1
        } else {
            1
        };
        let span: u128 = (self.tmax - self.tmin) as u128;
        proof {
            assert(span == self.tmax - self.tmin);
            lemma_mul_upper_bound(i as int, 0xffff_ffff_ffff_ffff, span as int, 0x4000_0000_0000_0000);
        }
        let num: u128 = (i as u128) * span;
        let q: u128 = num / (d as u128);
        proof {
            assert(i as int <= d as int);
            lemma_mul_inequality(i as int, d as int, span as int);
            lemma_div_is_ordered(i as int * span as int, d as int * span as int, d as int);
            lemma_div_multiples_vanish(span as int, d as int);
            assert(d as int * span as int == span as int * d as int) by (nonlinear_arith);
            assert(q <= span);
        }
        self.tmin + (q as i64)
    }

    /// Evaluates the series at chart index `i`: exact point values at
    /// exact hits, linear interpolation between brackets, forward or
    /// backward fill past the ends, zero outside the domain or for an
    /// empty series. Evaluation is total over the domain: no input
    /// fails.
    pub fn evaluate(&self, i: usize) -> (v: i64)
        requires
            self.wf(),
        ensures
            v as int == self.spec_evaluate(i as int),
    {
        if self.points.len() == 0 || i >= self.domain {
            return 0;
        }
        let pts = &self.points;
        let target = self.target_time(i);
        let ghost s: Seq<Sample> = pts@;
        let ghost t: int = target as int;
        let mut left_set: bool = false;
        let mut left: usize = 0;
        let mut right_set: bool = false;
        let mut right: usize = 0;
        let mut idx: usize = 0;
        while idx < pts.len() && !right_set
            invariant
                s == pts@,
                t == target as int,
                idx <= s.len(),
                forall|j: int| 0 <= j < idx ==> #[trigger] s[j].ts < t,
                !right_set ==> left_set == (idx > 0) && (left_set ==> left == idx - 1),
                right_set ==> idx < s.len() && s[idx as int].ts >= t && right == idx,
                right_set ==> (if s[idx as int].ts <= t {
                    left_set && left == idx
                } else {
                    left_set == (idx > 0) && (left_set ==> left == idx - 1)
                }),
            decreases s.len() - idx + (if right_set { 0int } else { 1int }),
        {
            if pts[idx].ts <= target {
                left_set = true;
                left = idx;
            }
            if pts[idx].ts >= target {
                right_set = true;
                right = idx;
            } else {
                idx += 1;
            }
        }
        proof {
            if right_set {
                lemma_first_at_or_after_found(s, t, idx as int);
            } else {
                lemma_first_at_or_after_none(s, t);
            }
        }
        if right_set {
            proof {
                assert(first_at_or_after(s, t) == Some(idx as int));
                if s[idx as int].ts <= t {
                    assert(last_at_or_before(s, t, idx as int) == Some(idx as int));
                } else if idx > 0 {
                    lemma_last_at_or_before_all(s, t, idx as int - 1);
                    assert(last_at_or_before(s, t, idx as int) == Some(idx as int - 1));
                } else {
                    assert(last_at_or_before(s, t, -1) is None);
                    assert(last_at_or_before(s, t, 0) is None);
                }
            }
            if left_set && left == right {
                proof {
                    assert(resampled(s, t) == s[left as int].val as int);
                }
                pts[left].val
            } else if left_set {
                proof {
                    assert(left == idx - 1 && right == idx);
                    assert(coord_ok(s[left as int].ts as int) && coord_ok(
                        s[left as int].val as int,
                    ));
                    assert(coord_ok(s[right as int].ts as int) && coord_ok(
                        s[right as int].val as int,
                    ));
                    assert(s[left as int].ts < t);
                    assert(s[right as int].ts >= t);
                }
                let t1 = pts[left].ts;
                let t2 = pts[right].ts;
                if t2 > t1 {
                    lerp_exec(pts[left].val, pts[right].val, target - t1, t2 - t1)
                } else {
                    proof {
                        assert(resampled(s, t) == s[left as int].val as int);
                    }
                    pts[left].val
                }
            } else {
                proof {
                    assert(resampled(s, t) == s[right as int].val as int);
                }
                pts[right].val
            }
        } else {
            proof {
                assert(first_at_or_after(s, t) is None);
                assert(idx == s.len());
                lemma_last_at_or_before_all(s, t, s.len() - 1);
                assert(last_at_or_before(s, t, s.len() - 1) == Some(s.len() - 1));
                assert(left_set && left == s.len() - 1);
                assert(resampled(s, t) == s[s.len() - 1].val as int);
            }
            pts[pts.len() - 1].val
        }
    }
}

/// The direct, single-series mode: chart index `i` maps straight to
/// the point at `i`; indices past the series yield zero. It serves a
/// lone series drawn without cross-series time alignment.
pub fn point_value(points: &Vec<Sample>, i: usize) -> (v: i64)
    ensures
        i < points@.len() ==> v == points@[i as int].val,
        i >= points@.len() ==> v == 0,
{
    if i < points.len() {
        points[i].val
    } else {
        0
    }
}


/// If everything before `r` is strictly earlier than `t` and the
/// sample at `r` is not, then `r` is the first index at or after `t`.
proof fn lemma_first_at_or_after_found(s: Seq<Sample>, t: int, r: int)
    requires
        0 <= r < s.len(),
        s[r].ts >= t,
        forall|j: int| 0 <= j < r ==> #[trigger] s[j].ts < t,
    ensures
        first_at_or_after(s, t) == Some(r),
    decreases s.len(),
{
    if r == 0 {
    } else {
        assert(s[0].ts < t);
        let d = s.drop_first();
        assert(d[r - 1] == s[r]);
        assert forall|j: int| 0 <= j < r - 1 implies #[trigger] d[j].ts < t by {
            assert(d[j] == s[j + 1]);
        }
        lemma_first_at_or_after_found(d, t, r - 1);
    }
}

/// If every sample is strictly earlier than `t`, no index is at or
/// after `t`.
proof fn lemma_first_at_or_after_none(s: Seq<Sample>, t: int)
    requires
        forall|j: int| 0 <= j < s.len() ==> #[trigger] s[j].ts < t,
    ensures
        first_at_or_after(s, t) is None,
    decreases s.len(),
{
    if s.len() > 0 {
        let d = s.drop_first();
        assert forall|j: int| 0 <= j < d.len() implies #[trigger] d[j].ts < t by {
            assert(d[j] == s[j + 1]);
        }
        lemma_first_at_or_after_none(d, t);
    }
}

/// If every sample up to `end` is at or before `t`, then `end` itself
/// is the last such index.
proof fn lemma_last_at_or_before_all(s: Seq<Sample>, t: int, end: int)
    requires
        0 <= end < s.len(),
        forall|j: int| 0 <= j <= end ==> #[trigger] s[j].ts <= t,
    ensures
        last_at_or_before(s, t, end) == Some(end),
{
}

/// Interpolates linearly from `y1` toward `y2` by `num / den`.
fn lerp_exec(y1: i64, y2: i64, num: i64, den: i64) -> (v: i64)
    requires
        0 <= num <= den,
        0 < den,
        coord_ok(y1 as int),
        coord_ok(y2 as int),
        den < 2 * COORD_LIMIT,
    ensures
        v as int == lerp(y1 as int, y2 as int, num as int, den as int),
{
    if y2 >= y1 {
        let diff: u128 = (y2 - y1) as u128;
        proof {
            lemma_mul_upper_bound(diff as int, 0x4000_0000_0000_0000, num as int, 0x4000_0000_0000_0000);
        }
        let prod: u128 = diff * (num as u128);
        let q: u128 = prod / (den as u128);
        proof {
            lemma_mul_inequality(num as int, den as int, diff as int);
            assert(num as int * diff as int == diff as int * num as int) by (nonlinear_arith);
            assert(den as int * diff as int == diff as int * den as int) by (nonlinear_arith);
            lemma_div_is_ordered(diff as int * num as int, diff as int * den as int, den as int);
            lemma_div_multiples_vanish(diff as int, den as int);
            assert(den as int * diff as int == diff as int * den as int) by (nonlinear_arith);
            assert(q <= diff);
        }
        y1 + (q as i64)
    } else {
        let diff: u128 = (y1 - y2) as u128;
        proof {
            lemma_mul_upper_bound(diff as int, 0x4000_0000_0000_0000, num as int, 0x4000_0000_0000_0000);
        }
        let prod: u128 = diff * (num as u128);
        let q: u128 = prod / (den as u128);
        proof {
            lemma_mul_inequality(num as int, den as int, diff as int);
            assert(num as int * diff as int == diff as int * num as int) by (nonlinear_arith);
            lemma_div_is_ordered(diff as int * num as int, diff as int * den as int, den as int);
            lemma_div_multiples_vanish(diff as int, den as int);
            assert(den as int * diff as int == diff as int * den as int) by (nonlinear_arith);
            assert(q <= diff);
        }
        y1 - (q as i64)
    }
}

/// Law: resampling reproduces an aligned series exactly. When a series
/// with strictly ascending timestamps has one point per chart index
/// and its point at index `i` sits exactly at that index's target
/// time, evaluation at `i` returns that point's value unchanged.
pub proof fn lemma_resample_aligned(rs: Resampler, i: int)
    requires
        rs.wf(),
        rs.points@.len() == rs.domain,
        ts_strictly_ascending(rs.points@),
        0 <= i < rs.domain,
        rs.points@[i].ts == rs.spec_target_time(i),
    ensures
        rs.spec_evaluate(i) == rs.points@[i].val,
{
    let s = rs.points@;
    let t = rs.spec_target_time(i);
    assert forall|j: int| 0 <= j < i implies #[trigger] s[j].ts < t by {
        assert(s[j].ts < s[i].ts);
    }
    lemma_first_at_or_after_found(s, t, i);
    assert(last_at_or_before(s, t, i) == Some(i));
    assert(resampled(s, t) == s[i].val as int);
}

/// Law: at chart index zero the resampled value is the series' first
/// point value, for any series with at least one point, whenever the
/// global time range starts no later than the series does.
pub proof fn lemma_resample_first(rs: Resampler)
    requires
        rs.wf(),
        rs.points@.len() > 0,
        rs.domain >= 1,
        rs.tmin <= rs.points@[0].ts,
    ensures
        rs.spec_evaluate(0) == rs.points@[0].val,
{
    let s = rs.points@;
    let d = rs.spec_step_div();
    let t = rs.spec_target_time(0);
    assert(0 * (rs.tmax - rs.tmin) == 0);
    lemma_div_of0(d);
    assert(t == rs.tmin);
    lemma_first_at_or_after_found(s, t, 0);
    if s[0].ts <= t {
        assert(last_at_or_before(s, t, 0) == Some(0int));
        assert(resampled(s, t) == s[0].val as int);
    } else {
        assert(last_at_or_before(s, t, -1) is None);
        assert(last_at_or_before(s, t, 0) is None);
        assert(resampled(s, t) == s[0].val as int);
    }
}

/// Law: at the last chart index the resampled value is the series'
/// last point value, for any series with strictly ascending timestamps
/// that the global time range covers.
pub proof fn lemma_resample_last(rs: Resampler)
    requires
        rs.wf(),
        rs.points@.len() > 0,
        rs.domain >= 2,
        ts_strictly_ascending(rs.points@),
        forall|j: int| 0 <= j < rs.points@.len() ==> #[trigger] rs.points@[j].ts <= rs.tmax,
    ensures
        rs.spec_evaluate(rs.domain - 1) == rs.points@.last().val,
{
    let s = rs.points@;
    let d = rs.spec_step_div();
    let i = rs.domain - 1;
    assert(i == d);
    assert(i * (rs.tmax - rs.tmin) == d * (rs.tmax - rs.tmin));
    lemma_div_multiples_vanish(rs.tmax - rs.tmin, d);
    let t = rs.spec_target_time(i);
    assert(t == rs.tmax);
    let n = s.len() - 1;
    if s[n].ts == rs.tmax {
        assert forall|j: int| 0 <= j < n implies #[trigger] s[j].ts < t by {
            assert(s[j].ts < s[n].ts);
        }
        lemma_first_at_or_after_found(s, t, n);
        assert(last_at_or_before(s, t, n) == Some(n));
        assert(resampled(s, t) == s[n].val as int);
    } else {
        assert forall|j: int| 0 <= j < s.len() implies #[trigger] s[j].ts < t by {
            if j < n {
                assert(s[j].ts < s[n].ts);
            }
        }
        lemma_first_at_or_after_none(s, t);
        lemma_last_at_or_before_all(s, t, n);
        assert(resampled(s, t) == s[n].val as int);
    }
}

} // verus!
