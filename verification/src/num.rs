//! Fixed-point arithmetic for the simulation.
//!
//! Every physical quantity (meters, seconds, m/s, radians, percent) is held
//! as an `i64` counting thousandths of its unit, the "milli" scale. Sums and
//! products saturate at `FP_LIMIT`, the edge of the representable range, so
//! every operation here is total; products are divided back by the scale with
//! truncation toward zero, mirroring the spec functions exactly.

use vstd::prelude::*;

verus! {

/// The fixed-point scale: one unit is `FP_SCALE` milli-units.
pub const FP_SCALE: i64 = 1000;

/// Largest magnitude a fixed-point quantity may take (one trillion units).
pub const FP_LIMIT: i64 = 1_000_000_000_000_000;

/// One past `u64::MAX`, the initial upper bracket of the square-root search.
pub const U64_CEIL: u128 = 0x1_0000_0000_0000_0000;

/// Clamp a mathematical integer into the representable fixed-point range.
pub open spec fn fp_clamp(x: int) -> int {
    if x > FP_LIMIT {
        FP_LIMIT as int
    } else if x < -FP_LIMIT {
        -FP_LIMIT as int
    } else {
        x
    }
}

/// Whether `x` lies in the representable fixed-point range.
pub open spec fn fp_in_range(x: int) -> bool {
    -FP_LIMIT <= x <= FP_LIMIT
}

/// Division truncating toward zero (what the executable code computes),
/// meaningful for positive divisors.
pub open spec fn trunc_div(a: int, b: int) -> int
    recommends
        b > 0,
{
    if a >= 0 {
        a / b
    } else {
        -((-a) / b)
    }
}

/// Saturating fixed-point sum.
pub open spec fn fp_add_spec(a: int, b: int) -> int {
    fp_clamp(a + b)
}

/// Saturating fixed-point difference.
pub open spec fn fp_sub_spec(a: int, b: int) -> int {
    fp_clamp(a - b)
}

/// Saturating fixed-point product: `a * b` scaled back down by `FP_SCALE`.
pub open spec fn fp_mul_milli_spec(a: int, b: int) -> int {
    fp_clamp(trunc_div(a * b, FP_SCALE as int))
}

/// Saturating `a * b / d` with truncation toward zero.
pub open spec fn fp_mul_div_spec(a: int, b: int, d: int) -> int
    recommends
        d > 0,
{
    fp_clamp(trunc_div(a * b, d))
}

fn clamp_i128(x: i128) -> (r: i64)
    ensures
        r == fp_clamp(x as int),
{
    if x > FP_LIMIT as i128 {
        FP_LIMIT
    } else if x < -(FP_LIMIT as i128) {
        -FP_LIMIT
    } else {
        x as i64
    }
}

fn div_trunc_i128(p: i128, d: i128) -> (q: i128)
    requires
        d > 0,
        p > i128::MIN,
    ensures
        q == trunc_div(p as int, d as int),
{
    if p >= 0 {
        let qq: u128 = (p as u128) / (d as u128);
        assert(qq == (p as int) / (d as int));
        assert(qq <= p as u128) by {
            vstd::arithmetic::div_mod::lemma_div_nonincreasing(p as int, d as int);
        }
        qq as i128
    } else {
        let m: i128 = -p;
        let qq: u128 = (m as u128) / (d as u128);
        assert(qq == (m as int) / (d as int));
        assert(qq <= m as u128) by {
            vstd::arithmetic::div_mod::lemma_div_nonincreasing(m as int, d as int);
        }
        -(qq as i128)
    }
}

/// Saturating sum of two fixed-point values.
pub fn fp_add(a: i64, b: i64) -> (r: i64)
    ensures
        r == fp_add_spec(a as int, b as int),
{
    clamp_i128(a as i128 + b as i128)
}

/// Saturating difference of two fixed-point values.
pub fn fp_sub(a: i64, b: i64) -> (r: i64)
    ensures
        r == fp_sub_spec(a as int, b as int),
{
    clamp_i128(a as i128 - b as i128)
}

/// Saturating fixed-point product, scaled back down by `FP_SCALE`.
pub fn fp_mul_milli(a: i64, b: i64) -> (r: i64)
    ensures
        r == fp_mul_milli_spec(a as int, b as int),
{
    proof {
        assert(i128::MIN < (a as int) * (b as int) <= i128::MAX) by (nonlinear_arith)
            requires
                i64::MIN <= a <= i64::MAX,
                i64::MIN <= b <= i64::MAX,
        ;
    }
    let p: i128 = (a as i128) * (b as i128);
    clamp_i128(div_trunc_i128(p, FP_SCALE as i128))
}

/// Saturating `a * b / d`, truncating toward zero.
pub fn fp_mul_div(a: i64, b: i64, d: i64) -> (r: i64)
    requires
        d >= 1,
    ensures
        r == fp_mul_div_spec(a as int, b as int, d as int),
{
    proof {
        assert(i128::MIN < (a as int) * (b as int) <= i128::MAX) by (nonlinear_arith)
            requires
                i64::MIN <= a <= i64::MAX,
                i64::MIN <= b <= i64::MAX,
        ;
    }
    let p: i128 = (a as i128) * (b as i128);
    clamp_i128(div_trunc_i128(p, d as i128))
}

/// `r` is the integer square root of `n` rounded down.
pub open spec fn is_sqrt_floor(n: int, r: int) -> bool {
    &&& 0 <= r
    &&& r * r <= n
    &&& n < (r + 1) * (r + 1)
}

/// The integer square root, rounded down.
pub open spec fn sqrt_floor(n: int) -> int {
    choose|r: int| is_sqrt_floor(n, r)
}

/// Two integers that both satisfy the square-root characterization are equal.
pub proof fn lemma_sqrt_floor_unique(n: int, r1: int, r2: int)
    requires
        is_sqrt_floor(n, r1),
        is_sqrt_floor(n, r2),
    ensures
        r1 == r2,
{
    assert(r1 == r2) by (nonlinear_arith)
        requires
            0 <= r1,
            0 <= r2,
            r1 * r1 <= n,
            n < (r1 + 1) * (r1 + 1),
            r2 * r2 <= n,
            n < (r2 + 1) * (r2 + 1),
    ;
}

/// A value meeting the characterization is `sqrt_floor`.
pub proof fn lemma_sqrt_floor_is(n: int, r: int)
    requires
        is_sqrt_floor(n, r),
    ensures
        sqrt_floor(n) == r,
{
    assert(is_sqrt_floor(n, sqrt_floor(n))) by {
        assert(exists|x: int| is_sqrt_floor(n, x));
    }
    lemma_sqrt_floor_unique(n, sqrt_floor(n), r);
}

/// Every non-negative integer has a floor square root, so `sqrt_floor`
/// denotes it.
pub proof fn lemma_sqrt_floor_exists(n: int)
    requires
        n >= 0,
    ensures
        is_sqrt_floor(n, sqrt_floor(n)),
        sqrt_floor(n) >= 0,
    decreases n,
{
    if n == 0 {
        assert(is_sqrt_floor(0, 0));
    } else {
        lemma_sqrt_floor_exists(n - 1);
        let r = sqrt_floor(n - 1);
        if (r + 1) * (r + 1) <= n {
            assert(is_sqrt_floor(n, r + 1)) by (nonlinear_arith)
                requires
                    0 <= r,
                    r * r <= n - 1,
                    n - 1 < (r + 1) * (r + 1),
                    (r + 1) * (r + 1) <= n,
            ;
            assert(exists|x: int| is_sqrt_floor(n, x));
        } else {
            assert(is_sqrt_floor(n, r));
            assert(exists|x: int| is_sqrt_floor(n, x));
        }
        assert(is_sqrt_floor(n, sqrt_floor(n)));
    }
}

/// Integer square root by bracketing, exact per `sqrt_floor`.
pub fn isqrt_u128(n: u128) -> (r: u128)
    ensures
        r == sqrt_floor(n as int),
        is_sqrt_floor(n as int, r as int),
{
    let mut lo: u128 = 0;
    let mut hi: u128 = U64_CEIL;
    proof {
        assert((n as int) < (hi as int) * (hi as int)) by (nonlinear_arith)
            requires
                hi == U64_CEIL,
                n <= u128::MAX,
        ;
    }
    while lo + 1 < hi
        invariant
            lo < hi <= U64_CEIL,
            (lo as int) * (lo as int) <= n as int,
            (n as int) < (hi as int) * (hi as int),
        decreases hi - lo,
    {
        let mid: u128 = lo + (hi - lo) / 2;
        assert(lo < mid < hi);
        proof {
            assert((mid as int) * (mid as int) < u128::MAX) by (nonlinear_arith)
                requires
                    0 <= mid < U64_CEIL,
            ;
        }
        if mid * mid <= n {
            lo = mid;
        } else {
            hi = mid;
        }
    }
    proof {
        lemma_sqrt_floor_is(n as int, lo as int);
    }
    lo
}

/// The speed (euclidean norm) of a velocity, in milli-units, saturating.
pub open spec fn speed_spec(vx: int, vy: int) -> int {
    fp_clamp(sqrt_floor(vx * vx + vy * vy))
}

/// Euclidean norm of a fixed-point vector, rounded down, saturating.
pub fn speed_milli(vx: i64, vy: i64) -> (s: i64)
    ensures
        s == speed_spec(vx as int, vy as int),
        s >= 0,
{
    let ax: u128 = if vx >= 0 {
        vx as u128
    } else {
        (-(vx as i128)) as u128
    };
    let ay: u128 = if vy >= 0 {
        vy as u128
    } else {
        (-(vy as i128)) as u128
    };
    proof {
        assert(ax * ax == (vx as int) * (vx as int) && ay * ay == (vy as int) * (vy as int))
            by (nonlinear_arith)
            requires
                ax == if vx >= 0 { vx as int } else { -(vx as int) },
                ay == if vy >= 0 { vy as int } else { -(vy as int) },
        ;
        assert(ax * ax + ay * ay <= u128::MAX) by (nonlinear_arith)
            requires
                0 <= ax <= 0x8000_0000_0000_0000u128,
                0 <= ay <= 0x8000_0000_0000_0000u128,
        ;
    }
    let sq: u128 = ax * ax + ay * ay;
    let rt: u128 = isqrt_u128(sq);
    proof {
        assert(rt < U64_CEIL) by (nonlinear_arith)
            requires
                (rt as int) * (rt as int) <= sq as int,
                sq <= u128::MAX,
                rt >= 0,
        ;
    }
    clamp_i128(rt as i128)
}

/// A saturating milli-product of two non-negatives is non-negative.
pub proof fn lemma_fp_mul_milli_nonneg(a: int, b: int)
    requires
        a >= 0,
        b >= 0,
    ensures
        fp_mul_milli_spec(a, b) >= 0,
{
    assert(a * b >= 0) by (nonlinear_arith)
        requires
            a >= 0,
            b >= 0,
    ;
    vstd::arithmetic::div_mod::lemma_div_pos_is_pos(a * b, 1000);
}

/// Pi in milliradians, rounded to the nearest whole milliradian.
pub const PI_MRAD: i64 = 3142;

/// Half pi in milliradians.
pub const HALF_PI_MRAD: i64 = 1571;

/// Two pi in milliradians.
pub const TWO_PI_MRAD: i64 = 6284;

/// 1/e in milli-units, rounded to the nearest.
pub const INV_E_MILLI: i64 = 368;

/// The rational sine approximation on `[0, pi]`, in milli-units:
/// `16 x (pi - x) / (5 pi^2 - 4 x (pi - x))`, exact at 0, pi/2 and pi and
/// within about two milli-units of the true sine elsewhere.
pub open spec fn sin_half_spec(x: int) -> int
    recommends
        0 <= x <= PI_MRAD,
{
    (16 * x * (PI_MRAD - x) * 1000) / (5 * PI_MRAD * PI_MRAD - 4 * x * (PI_MRAD - x))
}

/// Sine in milli-units of an angle in milliradians within two turns of zero.
pub open spec fn sin_spec(theta: int) -> int
    recommends
        -TWO_PI_MRAD <= theta <= TWO_PI_MRAD,
{
    let t = if theta < 0 {
        theta + TWO_PI_MRAD
    } else {
        theta
    };
    if t <= PI_MRAD {
        sin_half_spec(t)
    } else {
        -sin_half_spec(t - PI_MRAD)
    }
}

/// Cosine in milli-units: the sine shifted by a quarter turn.
pub open spec fn cos_spec(theta: int) -> int
    recommends
        -TWO_PI_MRAD <= theta <= TWO_PI_MRAD - HALF_PI_MRAD,
{
    sin_spec(theta + HALF_PI_MRAD)
}

fn sin_half(x: i64) -> (r: i64)
    requires
        0 <= x <= PI_MRAD,
    ensures
        r == sin_half_spec(x as int),
        0 <= r <= 1000,
{
    proof {
        assert(0 <= x * (PI_MRAD - x) && 4 * (x * (PI_MRAD - x)) <= PI_MRAD * PI_MRAD)
            by (nonlinear_arith)
            requires
                0 <= x <= PI_MRAD,
        ;
    }
    let k: i64 = x * (PI_MRAD - x);
    let num: i64 = 16 * k * 1000;
    let den: i64 = 5 * (PI_MRAD * PI_MRAD) - 4 * k;
    assert(den >= 4 * (PI_MRAD * PI_MRAD));
    let q: u64 = (num as u64) / (den as u64);
    proof {
        assert(num <= 1000 * den) by (nonlinear_arith)
            requires
                num == 16 * k * 1000,
                den == 5 * (PI_MRAD * PI_MRAD) - 4 * k,
                4 * k <= PI_MRAD * PI_MRAD,
                k >= 0,
        ;
        vstd::arithmetic::div_mod::lemma_div_is_ordered(num as int, 1000 * den, den as int);
        vstd::arithmetic::div_mod::lemma_div_multiples_vanish(1000, den as int);
        assert(den * 1000 == 1000 * den) by (nonlinear_arith);
        assert(num == 16 * (x as int) * (PI_MRAD - x as int) * 1000 && den == 5 * PI_MRAD
            * PI_MRAD - 4 * (x as int) * (PI_MRAD - x as int)) by (nonlinear_arith)
            requires
                num == 16 * k * 1000,
                den == 5 * (PI_MRAD * PI_MRAD) - 4 * k,
                k == x * (PI_MRAD - x),
        ;
    }
    q as i64
}

/// Sine in milli-units of an angle in milliradians.
pub fn sin_milli(theta: i64) -> (r: i64)
    requires
        -TWO_PI_MRAD <= theta <= TWO_PI_MRAD,
    ensures
        r == sin_spec(theta as int),
        -1000 <= r <= 1000,
{
    let t: i64 = if theta < 0 {
        theta + TWO_PI_MRAD
    } else {
        theta
    };
    if t <= PI_MRAD {
        sin_half(t)
    } else {
        -sin_half(t - PI_MRAD)
    }
}

/// Cosine in milli-units of an angle in milliradians.
pub fn cos_milli(theta: i64) -> (r: i64)
    requires
        -TWO_PI_MRAD <= theta <= TWO_PI_MRAD - HALF_PI_MRAD,
    ensures
        r == cos_spec(theta as int),
        -1000 <= r <= 1000,
{
    sin_milli(theta + HALF_PI_MRAD)
}

/// The alternating series for `e^(-r/1000)` on one scale step, in
/// milli-units, with each term rounded down: five terms past the constant.
pub open spec fn taylor_exp_neg_spec(r: int) -> int
    recommends
        0 <= r < 1000,
{
    1000 - r + (r * r) / 2000 - (r * r * r) / 6000000 + (r * r * r * r) / 24000000000
        - (r * r * r * r * r) / 120000000000000
}

/// `v` scaled by `1/e` (in milli-units, rounding down) `q` times over.
pub open spec fn shrink_by_inv_e(v: int, q: nat) -> int
    decreases q,
{
    if q == 0 {
        v
    } else {
        shrink_by_inv_e((v * INV_E_MILLI) / 1000, (q - 1) as nat)
    }
}

/// `e^(-x/1000)` in milli-units: zero from 21 units up (the true value is
/// below half a milli-unit there), otherwise the one-step series at the
/// fractional part, scaled down by `1/e` once per whole unit.
pub open spec fn exp_neg_spec(x: int) -> int
    recommends
        x >= 0,
{
    if x >= 21000 {
        0
    } else {
        shrink_by_inv_e(taylor_exp_neg_spec(x % 1000), (x / 1000) as nat)
    }
}

fn taylor_exp_neg(r: i64) -> (v: i64)
    requires
        0 <= r < 1000,
    ensures
        v == taylor_exp_neg_spec(r as int),
        0 <= v <= 1000,
{
    proof {
        assert(0 <= r * r <= 1000 * r && r * r <= 998001) by (nonlinear_arith)
            requires
                0 <= r < 1000,
        ;
        assert(0 <= (r * r) * r <= 1000 * (r * r) && (r * r) * r < 1000000000)
            by (nonlinear_arith)
            requires
                0 <= r < 1000,
        ;
        assert(0 <= ((r * r) * r) * r <= 1000 * ((r * r) * r) && ((r * r) * r) * r
            <= 1000000000 * r) by (nonlinear_arith)
            requires
                0 <= r < 1000,
        ;
        assert(0 <= (((r * r) * r) * r) * r <= 1000 * (((r * r) * r) * r))
            by (nonlinear_arith)
            requires
                0 <= r < 1000,
        ;
    }
    let r2: i64 = r * r;
    let r3: i64 = r2 * r;
    let r4: i64 = r3 * r;
    let r5: i64 = r4 * r;
    let t2: i64 = ((r2 as u64) / 2000) as i64;
    let t3: i64 = ((r3 as u64) / 6000000) as i64;
    let t4: i64 = ((r4 as u64) / 24000000000) as i64;
    let t5: i64 = ((r5 as u64) / 120000000000000) as i64;
    proof {
        // The terms shrink pairwise, so the alternating sum stays in range.
        vstd::arithmetic::div_mod::lemma_div_is_ordered(r3 as int, 1000 * r2, 6000000);
        vstd::arithmetic::div_mod::lemma_div_multiples_vanish_quotient(1000, r2 as int, 6000);
        vstd::arithmetic::div_mod::lemma_div_is_ordered_by_denominator(r2 as int, 2000, 6000);
        assert(t3 <= t2);
        vstd::arithmetic::div_mod::lemma_div_is_ordered(r5 as int, 1000 * r4, 120000000000000);
        vstd::arithmetic::div_mod::lemma_div_multiples_vanish_quotient(
            1000, r4 as int, 120000000000);
        vstd::arithmetic::div_mod::lemma_div_is_ordered_by_denominator(
            r4 as int, 24000000000, 120000000000);
        assert(t5 <= t4);
        vstd::arithmetic::div_mod::lemma_div_is_ordered(r2 as int, 1000 * r, 2000);
        vstd::arithmetic::div_mod::lemma_div_multiples_vanish_quotient(1000, r as int, 2);
        assert(t2 <= r / 2);
        vstd::arithmetic::div_mod::lemma_div_is_ordered(r4 as int, 1000000000 * r, 24000000000);
        vstd::arithmetic::div_mod::lemma_div_multiples_vanish_quotient(1000000000, r as int, 24);
        assert(t4 <= r / 24);
        vstd::arithmetic::div_mod::lemma_div_is_ordered_by_denominator(r as int, 2, 24);
        vstd::arithmetic::div_mod::lemma_fundamental_div_mod(r as int, 2);
        vstd::arithmetic::div_mod::lemma_remainder_lower(r as int, 2);
        assert(t2 + t4 <= r);
    }
    1000 - r + t2 - t3 + t4 - t5
}

/// `e^(-x/1000)` in milli-units, exact per `exp_neg_spec`.
pub fn exp_neg_milli(x: i64) -> (r: i64)
    requires
        x >= 0,
    ensures
        r == exp_neg_spec(x as int),
        0 <= r <= 1000,
{
    if x >= 21000 {
        return 0;
    }
    let q: u64 = (x as u64) / 1000;
    let rem: i64 = ((x as u64) % 1000) as i64;
    assert(q == (x as int) / 1000 && rem == (x as int) % 1000);
    let mut em: i64 = taylor_exp_neg(rem);
    let mut i: u64 = 0;
    while i < q
        invariant
            0 <= i <= q,
            q <= 21,
            0 <= em <= 1000,
            shrink_by_inv_e(em as int, (q - i) as nat) == exp_neg_spec(x as int),
        decreases q - i,
    {
        let next: i64 = (((em * INV_E_MILLI) as u64) / 1000) as i64;
        proof {
            assert(0 <= em * INV_E_MILLI <= 368000) by (nonlinear_arith)
                requires
                    0 <= em <= 1000,
                    INV_E_MILLI == 368,
            ;
            vstd::arithmetic::div_mod::lemma_div_is_ordered(
                (em * INV_E_MILLI) as int, 368000, 1000);
        }
        em = next;
        i = i + 1;
    }
    em
}

} // verus!
