//! Anchor-based color mapping.
//!
//! A small ordered set of anchor values in `[0, 1]` (fixed-point) divides
//! the unit interval into bands.  `map_circle` treats the anchors as points
//! on a circle of circumference one and `map_interval` as points on the
//! segment `[0, 1]`.  A position `x` is located in the band around one
//! anchor and linearly remapped into a window of half-width `w` around that
//! anchor's value, which yields a palette with one pure zone per anchor and
//! soft transitions between zones.

use vstd::prelude::*;
use crate::fixed::FX_ONE;
use crate::fixed::spec_map_range;
use crate::fixed::map_range;
use crate::fixed::spec_clamp;
use crate::fixed::clamp;
use crate::fixed::spec_emod;
use crate::fixed::emod;

verus! {

/// The view of a slice of fixed-point values as a sequence of integers.
pub open spec fn ints(s: Seq<i64>) -> Seq<int> {
    s.map_values(|v: i64| v as int)
}

/// A well-formed anchor array: at least two values, all in `[0, 1]`
/// (fixed-point) and nondecreasing.
pub open spec fn anchors_wf(xs: Seq<int>) -> bool {
    &&& xs.len() >= 2
    &&& forall|i: int| 0 <= i < xs.len() ==> 0 <= #[trigger] xs[i] <= FX_ONE
    &&& forall|i: int, j: int| 0 <= i <= j < xs.len() ==> xs[i] <= xs[j]
}

/// The anchors shifted up by one whole unit, with a wrap-around copy of
/// the first anchor one further unit up appended at the end.
pub open spec fn shifted(xs: Seq<int>) -> Seq<int> {
    Seq::new(
        (xs.len() + 1) as nat,
        |i: int|
            if i < xs.len() {
                xs[i] + FX_ONE
            } else {
                xs[0] + 2 * FX_ONE
            },
    )
}

/// Interval boundaries for the circular map: midpoints of consecutive
/// shifted anchors, closed by the first boundary moved up one whole
/// cycle.
pub open spec fn circle_mids(xs: Seq<int>) -> Seq<int> {
    let s = shifted(xs);
    Seq::new(
        (xs.len() + 1) as nat,
        |i: int|
            if i < xs.len() {
                (s[i] + s[i + 1]) / 2
            } else {
                (s[0] + s[1]) / 2 + FX_ONE
            },
    )
}

/// Interval boundaries for the linear map: midpoints of consecutive
/// anchors between the fixed outer boundaries `0` and `1`.
pub open spec fn interval_mids(xs: Seq<int>) -> Seq<int> {
    Seq::new(
        (xs.len() + 1) as nat,
        |i: int|
            if i == 0 {
                0
            } else if i < xs.len() {
                (xs[i - 1] + xs[i]) / 2
            } else {
                FX_ONE as int
            },
    )
}

/// `x` moved up by whole cycles until it reaches at least `lo`.
pub open spec fn lift_above(x: int, lo: int) -> int
    decreases (if lo <= x { 0int } else { lo - x }),
{
    if lo <= x {
        x
    } else {
        lift_above(x + FX_ONE, lo)
    }
}

/// The first index `i` at or after `k` with `mids[i] <= x < mids[i + 1]`,
/// or `-1` if there is none.
pub open spec fn find_iv(mids: Seq<int>, x: int, k: nat) -> int
    decreases mids.len() - k,
{
    if k + 1 >= mids.len() {
        -1
    } else if mids[k as int] <= x < mids[k as int + 1] {
        k as int
    } else {
        find_iv(mids, x, k + 1)
    }
}

/// The circular anchor map: `x` is lifted into the covered cycle, located
/// in its boundary interval, remapped linearly into the window of
/// half-width `w` around the interval's (shifted) anchor, and reduced
/// modulo one cycle.
pub open spec fn spec_map_circle(xs: Seq<int>, w: int, x: int) -> int {
    let s = shifted(xs);
    let mids = circle_mids(xs);
    let xl = lift_above(x, mids[0]);
    let i = find_iv(mids, xl, 0);
    spec_emod(spec_map_range(xl, mids[i], mids[i + 1], s[i + 1] - w, s[i + 1] + w), FX_ONE as int)
}

/// The linear anchor map: `x` is located in its boundary interval and
/// remapped linearly into the window of half-width `w` around the
/// interval's anchor, clamped to `[0, 1]`.
pub open spec fn spec_map_interval(xs: Seq<int>, w: int, x: int) -> int {
    let mids = interval_mids(xs);
    let i = find_iv(mids, x, 0);
    let v = xs[i % (xs.len() as int)];
    spec_map_range(
        x,
        mids[i],
        mids[i + 1],
        spec_clamp(v - w, 0, FX_ONE as int),
        spec_clamp(v + w, 0, FX_ONE as int),
    )
}

/// A sequence is nondecreasing.
pub open spec fn nondecreasing(s: Seq<int>) -> bool {
    forall|i: int, j: int| 0 <= i <= j < s.len() ==> s[i] <= s[j]
}

/// Lifting `x` by whole cycles lands in `[lo, lo + 1)` whenever `x`
/// starts below `lo`.
proof fn lemma_lift_above(x: int, lo: int)
    requires
        x < lo,
    ensures
        lo <= lift_above(x, lo) < lo + FX_ONE,
    decreases lo - x,
{
    if lo <= x + FX_ONE {
        assert(lift_above(x, lo) == lift_above(x + FX_ONE, lo));
        assert(lift_above(x + FX_ONE, lo) == x + FX_ONE);
    } else {
        lemma_lift_above(x + FX_ONE, lo);
    }
}

/// Some interval of a nondecreasing boundary sequence always contains a
/// position that lies between the first and the last boundary: the
/// located index is in range and its interval is a genuine half-open
/// interval around the position.
pub proof fn lemma_some_interval_contains(mids: Seq<int>, x: int, k: nat)
    requires
        nondecreasing(mids),
        k + 1 < mids.len(),
        mids[k as int] <= x < mids[mids.len() - 1],
    ensures
        k <= find_iv(mids, x, k) < mids.len() - 1,
        mids[find_iv(mids, x, k)] <= x < mids[find_iv(mids, x, k) + 1],
    decreases mids.len() - k,
{
    if mids[k as int] <= x < mids[k as int + 1] {
    } else {
        assert(mids[k as int + 1] <= x);
        lemma_some_interval_contains(mids, x, k + 1);
    }
}

/// Locating a position never lands below the starting index.
proof fn lemma_find_iv_lower(mids: Seq<int>, x: int, k: nat)
    ensures
        find_iv(mids, x, k) == -1 || find_iv(mids, x, k) >= k,
    decreases mids.len() - k,
{
    if k + 1 >= mids.len() {
    } else if mids[k as int] <= x < mids[k as int + 1] {
    } else {
        lemma_find_iv_lower(mids, x, k + 1);
    }
}

/// The boundaries of the circular map are nondecreasing, lie in
/// `[1, 3]` (fixed-point) and close one whole cycle above the first.
proof fn lemma_circle_mids_wf(xs: Seq<int>)
    requires
        anchors_wf(xs),
    ensures
        circle_mids(xs).len() == xs.len() + 1,
        nondecreasing(circle_mids(xs)),
        forall|i: int|
            0 <= i < circle_mids(xs).len() ==> FX_ONE <= #[trigger] circle_mids(xs)[i] <= 3
                * FX_ONE,
        circle_mids(xs)[circle_mids(xs).len() - 1] == circle_mids(xs)[0] + FX_ONE,
{
    let s = shifted(xs);
    let m = circle_mids(xs);
    let n = xs.len() as int;
    assert(forall|i: int, j: int| 0 <= i <= j < s.len() ==> s[i] <= s[j]) by {
        assert forall|i: int, j: int| 0 <= i <= j < s.len() implies s[i] <= s[j] by {
            if j < n {
            } else if i < n {
                assert(xs[i] <= FX_ONE);
                assert(0 <= xs[0]);
            }
        }
    }
    assert(forall|i: int| 0 <= i < s.len() ==> FX_ONE <= #[trigger] s[i] <= 3 * FX_ONE);
    assert forall|i: int| 0 <= i < m.len() implies FX_ONE <= #[trigger] m[i] <= 3 * FX_ONE by {
        if i < n {
            assert(2 * FX_ONE <= s[i] + s[i + 1] <= 6 * FX_ONE);
            vstd::arithmetic::div_mod::lemma_div_is_ordered(2 * FX_ONE, s[i] + s[i + 1], 2);
            vstd::arithmetic::div_mod::lemma_div_is_ordered(s[i] + s[i + 1], 6 * FX_ONE, 2);
        } else {
            assert(2 * FX_ONE <= s[0] + s[1] <= 4 * FX_ONE);
            vstd::arithmetic::div_mod::lemma_div_is_ordered(2 * FX_ONE, s[0] + s[1], 2);
            vstd::arithmetic::div_mod::lemma_div_is_ordered(s[0] + s[1], 4 * FX_ONE, 2);
        }
    }
    assert forall|i: int, j: int| 0 <= i <= j < m.len() implies m[i] <= m[j] by {
        if j < n {
            assert(s[i] + s[i + 1] <= s[j] + s[j + 1]);
            vstd::arithmetic::div_mod::lemma_div_is_ordered(s[i] + s[i + 1], s[j] + s[j + 1], 2);
        } else if i < n && j == n {
            // Every midpoint stays below the closing boundary one cycle up.
            assert(s[i] <= 2 * FX_ONE && s[0] >= FX_ONE);
            assert(s[i + 1] <= 3 * FX_ONE && s[1] >= FX_ONE);
            assert(s[i] + s[i + 1] <= s[0] + s[1] + 2 * FX_ONE);
            vstd::arithmetic::div_mod::lemma_div_is_ordered(
                s[i] + s[i + 1],
                s[0] + s[1] + 2 * FX_ONE,
                2,
            );
            assert((s[0] + s[1] + 2 * FX_ONE) / 2 == (s[0] + s[1]) / 2 + FX_ONE) by {
                vstd::arithmetic::div_mod::lemma_hoist_over_denominator(
                    s[0] + s[1],
                    FX_ONE as int,
                    2,
                );
            }
        }
    }
}

/// The boundaries of the linear map are nondecreasing, start at `0` and
/// end at one whole unit.
proof fn lemma_interval_mids_wf(xs: Seq<int>)
    requires
        anchors_wf(xs),
    ensures
        interval_mids(xs).len() == xs.len() + 1,
        nondecreasing(interval_mids(xs)),
        interval_mids(xs)[0] == 0,
        interval_mids(xs)[interval_mids(xs).len() - 1] == FX_ONE,
        forall|i: int|
            0 <= i < interval_mids(xs).len() ==> 0 <= #[trigger] interval_mids(xs)[i] <= FX_ONE,
{
    let m = interval_mids(xs);
    let n = xs.len() as int;
    assert forall|i: int| 0 <= i < m.len() implies 0 <= #[trigger] m[i] <= FX_ONE by {
        if 0 < i < n {
            assert(0 <= xs[i - 1] + xs[i] <= 2 * FX_ONE);
            vstd::arithmetic::div_mod::lemma_div_is_ordered(0, xs[i - 1] + xs[i], 2);
            vstd::arithmetic::div_mod::lemma_div_is_ordered(xs[i - 1] + xs[i], 2 * FX_ONE, 2);
        }
    }
    assert forall|i: int, j: int| 0 <= i <= j < m.len() implies m[i] <= m[j] by {
        if 0 < i && j < n {
            assert(xs[i - 1] + xs[i] <= xs[j - 1] + xs[j]);
            vstd::arithmetic::div_mod::lemma_div_is_ordered(
                xs[i - 1] + xs[i],
                xs[j - 1] + xs[j],
                2,
            );
        }
    }
}

/// `map_circle` locates `x` on the anchor circle and remaps it into the
/// window around the located anchor; the result is always in `[0, 1)`.
pub fn map_circle(xs: &[i64], w: i64, x: i64) -> (r: i64)
    requires
        anchors_wf(ints(xs@)),
        0 <= w <= FX_ONE,
        0 <= x < FX_ONE,
    ensures
        r == spec_map_circle(ints(xs@), w as int, x as int),
        0 <= r < FX_ONE,
{
    let ghost gxs = ints(xs@);
    proof {
        assert(gxs.len() == xs@.len());
        assert forall|j: int| 0 <= j < xs@.len() implies 0 <= #[trigger] xs@[j] <= FX_ONE by {
            assert(gxs[j] == xs@[j] as int);
        }
    }
    let n: usize = xs.len();
    let mut s: Vec<i64> = Vec::new();
    let mut i: usize = 0;
    while i < n
        invariant
            n == xs@.len(),
            n == gxs.len(),
            anchors_wf(gxs),
            gxs == ints(xs@),
            forall|j: int| 0 <= j < xs@.len() ==> 0 <= #[trigger] xs@[j] <= FX_ONE,
            i <= n,
            s@.len() == i,
            forall|j: int| 0 <= j < i ==> s@[j] == xs@[j] + FX_ONE,
        decreases n - i,
    {
        s.push(xs[i] + FX_ONE);
        i += 1;
    }
    s.push(xs[0] + 2 * FX_ONE);
    let ghost gs = shifted(gxs);
    proof {
        assert forall|j: int| 0 <= j < gs.len() implies gs[j] == s@[j] as int by {
            if j < gxs.len() {
                assert(gxs[j] == xs@[j] as int);
            } else {
                assert(gxs[0] == xs@[0] as int);
            }
        }
        assert(ints(s@) =~= gs);
        assert(forall|j: int| 0 <= j < s@.len() ==> FX_ONE <= #[trigger] s@[j] <= 3 * FX_ONE);
    }
    let mut mids: Vec<i64> = Vec::new();
    let mut i: usize = 0;
    while i < n
        invariant
            n == xs@.len(),
            n == gxs.len(),
            anchors_wf(gxs),
            s@.len() == n + 1,
            ints(s@) == gs,
            gs == shifted(gxs),
            forall|j: int| 0 <= j < s@.len() ==> FX_ONE <= #[trigger] s@[j] <= 3 * FX_ONE,
            i <= n,
            mids@.len() == i,
            forall|j: int| 0 <= j < i ==> mids@[j] == circle_mids(gxs)[j],
        decreases n - i,
    {
        proof {
            assert(gs[i as int] == s@[i as int] as int);
            assert(gs[i as int + 1] == s@[i as int + 1] as int);
            assert(circle_mids(gxs)[i as int] == (gs[i as int] + gs[i as int + 1]) / 2);
        }
        mids.push((s[i] + s[i + 1]) / 2);
        i += 1;
    }
    let first: i64 = mids[0];
    mids.push(first + FX_ONE);
    let ghost gm = circle_mids(gxs);
    proof {
        lemma_circle_mids_wf(gxs);
        assert(gm[n as int] == gm[0] + FX_ONE);
        assert forall|j: int| 0 <= j < gm.len() implies gm[j] == mids@[j] as int by {}
        assert(ints(mids@) =~= gm);
        lemma_lift_above(x as int, gm[0]);
    }
    let mut xl: i64 = x;
    while xl < first
        invariant
            first == gm[0] as i64,
            gm.len() > 0,
            FX_ONE <= gm[0] <= 3 * FX_ONE,
            0 <= xl < 4 * FX_ONE,
            lift_above(xl as int, gm[0]) == lift_above(x as int, gm[0]),
        decreases first + FX_ONE - xl,
    {
        proof {
            assert(lift_above(xl as int, gm[0]) == lift_above(xl as int + FX_ONE, gm[0]));
        }
        xl += FX_ONE;
    }
    proof {
        if x < gm[0] {
            lemma_lift_above(x as int, gm[0]);
        }
        assert(xl == lift_above(x as int, gm[0]));
        lemma_some_interval_contains(gm, xl as int, 0);
    }
    let ghost target = find_iv(gm, xl as int, 0);
    let m_len: usize = mids.len();
    let mut i: usize = 0;
    while i + 1 < m_len
        invariant
            m_len == mids@.len(),
            m_len == gm.len(),
            m_len == gxs.len() + 1,
            ints(mids@) == gm,
            s@.len() == m_len,
            ints(s@) == gs,
            anchors_wf(gxs),
            gxs == ints(xs@),
            gs == shifted(gxs),
            gm == circle_mids(gxs),
            forall|j: int| 0 <= j < s@.len() ==> FX_ONE <= #[trigger] s@[j] <= 3 * FX_ONE,
            forall|j: int| 0 <= j < gm.len() ==> FX_ONE <= #[trigger] gm[j] <= 3 * FX_ONE,
            0 <= w <= FX_ONE,
            0 <= xl < 4 * FX_ONE,
            xl == lift_above(x as int, gm[0]),
            0 <= target < gm.len() - 1,
            gm[target] <= xl < gm[target + 1],
            i <= target,
            target == find_iv(gm, xl as int, i as nat),
            target == find_iv(gm, xl as int, 0),
        decreases m_len - i,
    {
        proof {
            assert(gm[i as int] == mids@[i as int] as int);
            assert(gm[i as int + 1] == mids@[i as int + 1] as int);
        }
        if mids[i] <= xl && xl < mids[i + 1] {
            proof {
                assert(target == i as int);
                assert(gs[i as int + 1] == s@[i as int + 1] as int);
            }
            let v: i64 = s[i + 1];
            let mr: i64 = map_range(xl, mids[i], mids[i + 1], v - w, v + w);
            let r: i64 = emod(mr, FX_ONE);
            return r;
        }
        proof {
            assert(find_iv(gm, xl as int, i as nat) == find_iv(gm, xl as int, (i + 1) as nat));
            lemma_find_iv_lower(gm, xl as int, (i + 1) as nat);
        }
        i += 1;
    }
    proof {
        assert(false);
    }
    0
}

/// `map_interval` locates `x` between the fixed boundaries `0` and `1`
/// and remaps it into the clamped window around the located anchor; the
/// result is always in `[0, 1]`.
pub fn map_interval(xs: &[i64], w: i64, x: i64) -> (r: i64)
    requires
        anchors_wf(ints(xs@)),
        0 <= w <= FX_ONE,
        0 <= x < FX_ONE,
    ensures
        r == spec_map_interval(ints(xs@), w as int, x as int),
        0 <= r <= FX_ONE,
{
    let ghost gxs = ints(xs@);
    proof {
        assert(gxs.len() == xs@.len());
        assert forall|j: int| 0 <= j < xs@.len() implies 0 <= #[trigger] xs@[j] <= FX_ONE by {
            assert(gxs[j] == xs@[j] as int);
        }
    }
    let n: usize = xs.len();
    let mut mids: Vec<i64> = Vec::new();
    mids.push(0);
    let mut i: usize = 1;
    while i < n
        invariant
            n == xs@.len(),
            n == gxs.len(),
            anchors_wf(gxs),
            gxs == ints(xs@),
            forall|j: int| 0 <= j < xs@.len() ==> 0 <= #[trigger] xs@[j] <= FX_ONE,
            1 <= i <= n,
            mids@.len() == i,
            forall|j: int| 0 <= j < i ==> mids@[j] == interval_mids(gxs)[j],
        decreases n - i,
    {
        proof {
            assert(gxs[i as int - 1] == xs@[i as int - 1] as int);
            assert(gxs[i as int] == xs@[i as int] as int);
            assert(interval_mids(gxs)[i as int] == (gxs[i as int - 1] + gxs[i as int]) / 2);
        }
        mids.push((xs[i - 1] + xs[i]) / 2);
        i += 1;
    }
    mids.push(FX_ONE);
    let ghost gm = interval_mids(gxs);
    proof {
        lemma_interval_mids_wf(gxs);
        assert forall|j: int| 0 <= j < gm.len() implies gm[j] == mids@[j] as int by {}
        assert(ints(mids@) =~= gm);
        lemma_some_interval_contains(gm, x as int, 0);
    }
    let ghost target = find_iv(gm, x as int, 0);
    let m_len: usize = mids.len();
    let mut i: usize = 0;
    while i + 1 < m_len
        invariant
            m_len == mids@.len(),
            m_len == gm.len(),
            m_len == n + 1,
            n == xs@.len(),
            n == gxs.len(),
            ints(mids@) == gm,
            anchors_wf(gxs),
            gxs == ints(xs@),
            gm == interval_mids(gxs),
            forall|j: int| 0 <= j < xs@.len() ==> 0 <= #[trigger] xs@[j] <= FX_ONE,
            forall|j: int| 0 <= j < gm.len() ==> 0 <= #[trigger] gm[j] <= FX_ONE,
            0 <= w <= FX_ONE,
            0 <= x < FX_ONE,
            0 <= target < gm.len() - 1,
            gm[target] <= x < gm[target + 1],
            i <= target,
            target == find_iv(gm, x as int, i as nat),
            target == find_iv(gm, x as int, 0),
        decreases m_len - i,
    {
        proof {
            assert(gm[i as int] == mids@[i as int] as int);
            assert(gm[i as int + 1] == mids@[i as int + 1] as int);
        }
        if mids[i] <= x && x < mids[i + 1] {
            proof {
                assert(target == i as int);
                assert(gxs[(i as int) % (gxs.len() as int)] == xs@[(i as int) % (gxs.len()
                    as int)] as int);
            }
            let v: i64 = xs[i % n];
            let c: i64 = clamp(v - w, 0, FX_ONE);
            let d: i64 = clamp(v + w, 0, FX_ONE);
            let r: i64 = map_range(x, mids[i], mids[i + 1], c, d);
            proof {
                vstd::arithmetic::div_mod::lemma_small_mod(i as nat, n as nat);
            }
            return r;
        }
        proof {
            assert(find_iv(gm, x as int, i as nat) == find_iv(gm, x as int, (i + 1) as nat));
            lemma_find_iv_lower(gm, x as int, (i + 1) as nat);
        }
        i += 1;
    }
    proof {
        assert(false);
    }
    0
}

/// Within one located interval the linear map is monotone: it moves in
/// the (nondecreasing) direction of the window around the interval's
/// anchor as `x` grows.
pub proof fn lemma_map_interval_monotone(xs: Seq<int>, w: int, x1: int, x2: int)
    requires
        anchors_wf(xs),
        0 <= w <= FX_ONE,
        0 <= x1 <= x2 < FX_ONE,
        find_iv(interval_mids(xs), x1, 0) == find_iv(interval_mids(xs), x2, 0),
    ensures
        spec_map_interval(xs, w, x1) <= spec_map_interval(xs, w, x2),
{
    let m = interval_mids(xs);
    lemma_interval_mids_wf(xs);
    lemma_some_interval_contains(m, x1, 0);
    lemma_some_interval_contains(m, x2, 0);
    let i = find_iv(m, x1, 0);
    let v = xs[i % (xs.len() as int)];
    let c = spec_clamp(v - w, 0, FX_ONE as int);
    let d = spec_clamp(v + w, 0, FX_ONE as int);
    let a = m[i];
    let b = m[i + 1];
    assert(a <= x1 <= x2 < b);
    assert(c <= d);
    assert((x1 - a) * (d - c) <= (x2 - a) * (d - c)) by (nonlinear_arith)
        requires
            x1 <= x2,
            c <= d,
            a <= x1,
    ;
    vstd::arithmetic::div_mod::lemma_div_is_ordered((x1 - a) * (d - c), (x2 - a) * (d - c), b - a);
}

/// Within one located interval the linear map is continuous up to
/// fixed-point granularity: moving to the adjacent position changes
/// the value by at most the window's slope over the interval plus one
/// rounding step.
pub proof fn lemma_map_interval_step(xs: Seq<int>, w: int, x: int)
    requires
        anchors_wf(xs),
        0 <= w <= FX_ONE,
        0 <= x,
        x + 1 < FX_ONE,
        find_iv(interval_mids(xs), x, 0) == find_iv(interval_mids(xs), x + 1, 0),
    ensures
        ({
            let m = interval_mids(xs);
            let i = find_iv(m, x, 0);
            let v = xs[i % (xs.len() as int)];
            let c = spec_clamp(v - w, 0, FX_ONE as int);
            let d = spec_clamp(v + w, 0, FX_ONE as int);
            spec_map_interval(xs, w, x + 1) - spec_map_interval(xs, w, x) <= (d - c) / (m[i + 1]
                - m[i]) + 1
        }),
        spec_map_interval(xs, w, x) <= spec_map_interval(xs, w, x + 1),
{
    lemma_map_interval_monotone(xs, w, x, x + 1);
    let m = interval_mids(xs);
    lemma_interval_mids_wf(xs);
    lemma_some_interval_contains(m, x, 0);
    lemma_some_interval_contains(m, x + 1, 0);
    let i = find_iv(m, x, 0);
    let v = xs[i % (xs.len() as int)];
    let c = spec_clamp(v - w, 0, FX_ONE as int);
    let d = spec_clamp(v + w, 0, FX_ONE as int);
    let a = m[i];
    let b = m[i + 1];
    let k = d - c;
    let den = b - a;
    let u1 = (x - a) * k;
    let u2 = (x + 1 - a) * k;
    assert(u2 == u1 + k) by (nonlinear_arith)
        requires
            u1 == (x - a) * k,
            u2 == (x + 1 - a) * k,
    ;
    let q1 = u1 / den;
    let q2 = u2 / den;
    vstd::arithmetic::div_mod::lemma_fundamental_div_mod(u1, den);
    vstd::arithmetic::div_mod::lemma_fundamental_div_mod(u2, den);
    let r1 = u1 % den;
    let r2 = u2 % den;
    assert(den * (q2 - q1) == k + r1 - r2) by (nonlinear_arith)
        requires
            u1 == den * q1 + r1,
            u2 == den * q2 + r2,
            u2 == u1 + k,
    ;
    assert(den * (q2 - q1) <= k + den - 1);
    vstd::arithmetic::div_mod::lemma_div_is_ordered(den * (q2 - q1), k + den - 1, den);
    assert((den * (q2 - q1)) / den == q2 - q1) by {
        vstd::arithmetic::div_mod::lemma_div_by_multiple(q2 - q1, den);
        assert(den * (q2 - q1) == (q2 - q1) * den) by (nonlinear_arith);
    }
    assert((k + den - 1) / den == (k - 1) / den + 1) by {
        vstd::arithmetic::div_mod::lemma_hoist_over_denominator(k - 1, 1, den as nat);
    }
    vstd::arithmetic::div_mod::lemma_div_is_ordered(k - 1, k, den);
    assert(q2 - q1 <= k / den + 1);
}

} // verus!
