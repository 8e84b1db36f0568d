//! Low-discrepancy point sampling.
//!
//! The radical inverse of an index in a small base — the index's digits
//! mirrored around the radix point — gives a well-distributed sequence in
//! `[0, 1)`.  Pairing the inverses in base two and base three yields
//! two-dimensional sample points without grid artifacts.  Everything is
//! exact rational arithmetic, so the sequence is reproducible bit for bit.

use vstd::prelude::*;
use crate::fixed::FX_ONE;

verus! {

/// The digits of `n` in base `b`, reversed onto the accumulator `acc`:
/// the numerator of the radical inverse.
pub open spec fn rev_digits(n: nat, b: nat, acc: nat) -> nat
    decreases n,
    via rev_digits_decreases
{
    if n == 0 || b < 2 {
        acc
    } else {
        rev_digits(n / b, b, acc * b + n % b)
    }
}

#[via_fn]
proof fn rev_digits_decreases(n: nat, b: nat, acc: nat) {
    if n != 0 && b >= 2 {
        vstd::arithmetic::div_mod::lemma_div_decreases(n as int, b as int);
    }
}

/// `b` raised to the number of digits of `n`: the denominator of the
/// radical inverse.
pub open spec fn pow_digits(n: nat, b: nat) -> nat
    decreases n,
    via pow_digits_decreases
{
    if n == 0 || b < 2 {
        1
    } else {
        b * pow_digits(n / b, b)
    }
}

#[via_fn]
proof fn pow_digits_decreases(n: nat, b: nat) {
    if n != 0 && b >= 2 {
        vstd::arithmetic::div_mod::lemma_div_decreases(n as int, b as int);
    }
}

/// The reversed digits stay below `(acc + 1)` denominators' worth.
proof fn lemma_rev_digits_bound(n: nat, b: nat, acc: nat)
    requires
        2 <= b,
    ensures
        rev_digits(n, b, acc) < (acc + 1) * pow_digits(n, b),
    decreases n,
{
    if n == 0 {
        assert(rev_digits(n, b, acc) == acc);
        assert(pow_digits(n, b) == 1);
        assert(acc < (acc + 1) * pow_digits(n, b)) by (nonlinear_arith)
            requires
                pow_digits(n, b) == 1,
        ;
    } else {
        vstd::arithmetic::div_mod::lemma_div_decreases(n as int, b as int);
        lemma_rev_digits_bound(n / b, b, acc * b + n % b);
        assert(rev_digits(n, b, acc) == rev_digits(n / b, b, acc * b + n % b));
        assert(pow_digits(n, b) == b * pow_digits(n / b, b));
        assert(rev_digits(n, b, acc) < (acc + 1) * pow_digits(n, b)) by (nonlinear_arith)
            requires
                2 <= b,
                0 <= acc,
                0 <= n % b < b,
                pow_digits(n / b, b) >= 0,
                rev_digits(n, b, acc) == rev_digits(n / b, b, (acc * b + n % b) as nat),
                rev_digits(n / b, b, (acc * b + n % b) as nat) < (acc * b + n % b + 1)
                    * pow_digits(n / b, b),
                pow_digits(n, b) == b * pow_digits(n / b, b),
        ;
        assert(0 <= (acc + 1) * pow_digits(n, b)) by (nonlinear_arith);
    }
}

/// The denominator grows at most linearly with the index.
proof fn lemma_pow_digits_bound(n: nat, b: nat)
    requires
        2 <= b,
    ensures
        1 <= pow_digits(n, b),
        n == 0 ==> pow_digits(n, b) == 1,
        n >= 1 ==> pow_digits(n, b) <= b * n,
    decreases n,
{
    if n == 0 {
    } else {
        vstd::arithmetic::div_mod::lemma_div_decreases(n as int, b as int);
        lemma_pow_digits_bound(n / b, b);
        vstd::arithmetic::div_mod::lemma_fundamental_div_mod(n as int, b as int);
        assert(b * (n / b) <= n);
        assert(pow_digits(n, b) == b * pow_digits(n / b, b));
        assert(1 <= pow_digits(n, b)) by (nonlinear_arith)
            requires
                2 <= b,
                1 <= pow_digits(n / b, b),
                pow_digits(n, b) == b * pow_digits(n / b, b),
        ;
        if n / b == 0 {
            assert(pow_digits(n, b) == b * 1 <= b * n) by (nonlinear_arith)
                requires
                    1 <= n,
                    2 <= b,
                    pow_digits(n, b) == b * pow_digits(n / b, b),
                    pow_digits(n / b, b) == 1,
            ;
        } else {
            assert(pow_digits(n / b, b) <= n);
            assert(b * pow_digits(n / b, b) <= b * n) by (nonlinear_arith)
                requires
                    2 <= b,
                    pow_digits(n / b, b) <= n,
            ;
        }
    }
}

/// The radical inverse of index `i` in base `b`, as the exact fraction
/// `numerator / denominator` with `numerator < denominator`.
pub fn halton(i: u64, b: u64) -> (r: (u64, u64))
    requires
        2 <= b <= 16,
        i <= 1_000_000,
    ensures
        r.0 == rev_digits(i as nat, b as nat, 0),
        r.1 == pow_digits(i as nat, b as nat),
        r.0 < r.1,
        r.1 <= 16_000_000,
{
    let mut n: u64 = i;
    let mut num: u64 = 0;
    let mut den: u64 = 1;
    proof {
        lemma_pow_digits_bound(i as nat, b as nat);
        lemma_rev_digits_bound(i as nat, b as nat, 0);
        assert((b as nat) * (i as nat) <= 16_000_000) by (nonlinear_arith)
            requires
                b <= 16,
                i <= 1_000_000,
        ;
    }
    while n > 0
        invariant
            2 <= b <= 16,
            i <= 1_000_000,
            n <= i,
            num < den,
            den <= 16_000_000,
            rev_digits(i as nat, b as nat, 0) == rev_digits(n as nat, b as nat, num as nat),
            pow_digits(i as nat, b as nat) == den * pow_digits(n as nat, b as nat),
            pow_digits(i as nat, b as nat) <= 16_000_000,
        decreases n,
    {
        proof {
            vstd::arithmetic::div_mod::lemma_div_decreases(n as int, b as int);
            lemma_pow_digits_bound((n / b) as nat, b as nat);
            assert(1 <= pow_digits((n / b) as nat, b as nat));
            assert(pow_digits(n as nat, b as nat) == (b as nat) * pow_digits(
                (n / b) as nat,
                b as nat,
            ));
            assert(b as nat <= pow_digits(n as nat, b as nat)) by (nonlinear_arith)
                requires
                    2 <= b,
                    1 <= pow_digits((n / b) as nat, b as nat),
                    pow_digits(n as nat, b as nat) == (b as nat) * pow_digits(
                        (n / b) as nat,
                        b as nat,
                    ),
            ;
            assert(den * b <= den * pow_digits(n as nat, b as nat)) by (nonlinear_arith)
                requires
                    1 <= den,
                    b as nat <= pow_digits(n as nat, b as nat),
            ;
            assert(den * pow_digits(n as nat, b as nat) == (den * b) * pow_digits(
                (n / b) as nat,
                b as nat,
            )) by (nonlinear_arith)
                requires
                    pow_digits(n as nat, b as nat) == (b as nat) * pow_digits(
                        (n / b) as nat,
                        b as nat,
                    ),
            ;
            assert(rev_digits(n as nat, b as nat, num as nat) == rev_digits(
                (n / b) as nat,
                b as nat,
                (num * b + n % b) as nat,
            ));
            assert(num * b + n % b < den * b) by (nonlinear_arith)
                requires
                    num < den,
                    0 <= n % b < b,
            ;
        }
        let digit: u64 = n % b;
        num = num * b + digit;
        den = den * b;
        n = n / b;
    }
    proof {
        assert(pow_digits(n as nat, b as nat) == 1);
        assert(den * pow_digits(n as nat, b as nat) == den);
    }
    (num, den)
}

/// The horizontal extent scaled by a radical inverse, rounded down:
/// a fixed-point coordinate in `[0, extent)`.
pub open spec fn halton_coord(extent: int, idx: nat, b: nat) -> int {
    extent * rev_digits(idx, b, 0) / pow_digits(idx, b) as int
}

/// The `k`-th sample point of the sequence started at `seed`, in a
/// `w` by `h` pixel domain, as fixed-point coordinates.
pub open spec fn sample_point(w: int, h: int, seed: nat, k: nat) -> (int, int) {
    (
        halton_coord(w * FX_ONE, (seed + k) as nat, 2),
        halton_coord(h * FX_ONE, (seed + k) as nat, 3),
    )
}

/// The whole sample sequence of `count` points started at `seed`.
pub open spec fn spec_sample_points(w: int, h: int, count: nat, seed: nat) -> Seq<(i64, i64)> {
    Seq::new(
        count,
        |k: int|
            (
                sample_point(w, h, seed, k as nat).0 as i64,
                sample_point(w, h, seed, k as nat).1 as i64,
            ),
    )
}

/// Scaling a proper fraction never reaches the full extent.
pub proof fn lemma_coord_range(extent: int, num: nat, den: nat)
    requires
        1 <= extent,
        num < den,
        1 <= den,
    ensures
        0 <= extent * (num as int) / (den as int) < extent,
{
    assert(0 <= extent * num) by (nonlinear_arith)
        requires
            0 <= extent,
            0 <= num,
    ;
    assert(extent * num <= extent * den - extent) by (nonlinear_arith)
        requires
            num <= den - 1,
            0 <= extent,
    ;
    vstd::arithmetic::div_mod::lemma_div_is_ordered(0, extent * num, den as int);
    vstd::arithmetic::div_mod::lemma_div_is_ordered(
        extent * num,
        extent * den - extent,
        den as int,
    );
    vstd::arithmetic::div_mod::lemma_hoist_over_denominator(-extent, extent, den);
    assert((-extent) / (den as int) + extent == (-extent + extent * den) / (den as int));
    assert((-1) / (den as int) <= -1) by (nonlinear_arith)
        requires
            1 <= den,
    ;
    vstd::arithmetic::div_mod::lemma_div_is_ordered(-extent, -1, den as int);
    assert((-extent) / (den as int) <= -1);
}

/// `count` well-distributed sample points inside the `w` by `h` pixel
/// rectangle, derived from the radical-inverse sequence in bases two and
/// three starting at index `seed`.  The output order is the sequence
/// order and is significant to callers.
pub fn sample_points(w: u32, h: u32, count: u32, seed: u32) -> (r: Vec<(i64, i64)>)
    requires
        1 <= w <= 65_535,
        1 <= h <= 65_535,
        seed + count <= 1_000_000,
    ensures
        r@ == spec_sample_points(w as int, h as int, count as nat, seed as nat),
        r@.len() == count,
        forall|k: int|
            0 <= k < count ==> 0 <= (#[trigger] r@[k]).0 < w * FX_ONE && 0 <= r@[k].1 < h
                * FX_ONE,
{
    let mut out: Vec<(i64, i64)> = Vec::new();
    let mut k: u32 = 0;
    while k < count
        invariant
            1 <= w <= 65_535,
            1 <= h <= 65_535,
            seed + count <= 1_000_000,
            k <= count,
            out@.len() == k,
            forall|j: int|
                0 <= j < k ==> #[trigger] out@[j] == (
                    sample_point(w as int, h as int, seed as nat, j as nat).0 as i64,
                    sample_point(w as int, h as int, seed as nat, j as nat).1 as i64,
                ),
            forall|j: int|
                0 <= j < k ==> 0 <= (#[trigger] out@[j]).0 < w * FX_ONE && 0 <= out@[j].1 < h
                    * FX_ONE,
        decreases count - k,
    {
        let idx: u64 = (seed + k) as u64;
        let (nx, dx) = halton(idx, 2);
        let (ny, dy) = halton(idx, 3);
        let wfx: i64 = (w as i64) * FX_ONE;
        let hfx: i64 = (h as i64) * FX_ONE;
        proof {
            lemma_coord_range(wfx as int, nx as nat, dx as nat);
            assert(wfx * (nx as i64) <= 66_000_000_000 * 16_000_000) by (nonlinear_arith)
                requires
                    0 <= wfx <= 66_000_000_000,
                    0 <= nx <= 16_000_000,
            ;
            assert(hfx * (ny as i64) <= 66_000_000_000 * 16_000_000) by (nonlinear_arith)
                requires
                    0 <= hfx <= 66_000_000_000,
                    0 <= ny <= 16_000_000,
            ;
            assert(0 <= wfx * (nx as i64)) by (nonlinear_arith)
                requires
                    0 <= wfx,
                    0 <= nx as i64,
            ;
            assert(0 <= hfx * (ny as i64)) by (nonlinear_arith)
                requires
                    0 <= hfx,
                    0 <= ny as i64,
            ;
            lemma_coord_range(hfx as int, ny as nat, dy as nat);
            assert(wfx * nx <= wfx * dx) by (nonlinear_arith)
                requires
                    0 <= wfx,
                    0 <= nx <= dx,
            ;
            assert(hfx * ny <= hfx * dy) by (nonlinear_arith)
                requires
                    0 <= hfx,
                    0 <= ny <= dy,
            ;
        }
        let px: i64 = wfx * (nx as i64) / (dx as i64);
        let py: i64 = hfx * (ny as i64) / (dy as i64);
        out.push((px, py));
        k += 1;
    }
    proof {
        assert(out@ =~= spec_sample_points(w as int, h as int, count as nat, seed as nat));
    }
    out
}

/// The sampler is deterministic: two runs with identical arguments
/// yield identical point sequences.
pub proof fn lemma_sample_points_deterministic(
    w: int,
    h: int,
    count: nat,
    seed: nat,
    r1: Seq<(i64, i64)>,
    r2: Seq<(i64, i64)>,
)
    requires
        r1 == spec_sample_points(w, h, count, seed),
        r2 == spec_sample_points(w, h, count, seed),
    ensures
        r1 == r2,
{
}

} // verus!
