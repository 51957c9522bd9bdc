//! Fixed-point arithmetic: a real quantity `q` is held as the integer
//! `q * SCALE`, rounded toward zero.

use vstd::prelude::*;

verus! {

/// Units per whole: values are held in millionths.
pub const SCALE: i64 = 1_000_000;

/// The largest magnitude that a network value may take (one million units).
pub const VALUE_MAX: i64 = 1_000_000_000_000;

pub open spec fn clamp(v: int, lo: int, hi: int) -> int {
    if v < lo {
        lo
    } else if v > hi {
        hi
    } else {
        v
    }
}

/// Integer division rounding toward zero, as Rust's `/` does on signed values.
pub open spec fn div_trunc(a: int, d: int) -> int {
    if a >= 0 {
        a / d
    } else {
        -((-a) / d)
    }
}

/// Divides by a positive divisor, rounding toward zero.
pub fn div_toward_zero(a: i64, d: i64) -> (r: i64)
    requires
        d > 0,
        a > i64::MIN,
    ensures
        r == div_trunc(a as int, d as int),
{
    if a >= 0 {
        a / d
    } else {
        -((-a) / d)
    }
}

/// The largest integer at most `k` whose square does not exceed `n`.
pub open spec fn root_below(n: int, k: nat) -> nat
    decreases k,
{
    if k * k <= n || k == 0 {
        k
    } else {
        root_below(n, (k - 1) as nat)
    }
}

/// The integer square root of `n >= 0`.
pub open spec fn isqrt_spec(n: int) -> int {
    root_below(n, n as nat) as int
}

proof fn lemma_root_below(n: int, r: nat, k: nat)
    requires
        r * r <= n < (r + 1) * (r + 1),
        r <= k,
    ensures
        root_below(n, k) == r,
    decreases k,
{
    if k > r {
        assert(k * k > n) by (nonlinear_arith)
            requires
                k >= r + 1,
                n < (r + 1) * (r + 1),
        ;
        lemma_root_below(n, r, (k - 1) as nat);
    }
}

/// The largest integer whose square does not exceed `n`.
pub fn isqrt(n: u64) -> (r: u64)
    ensures
        r == isqrt_spec(n as int),
        r * r <= n,
        n < (r + 1) * (r + 1),
{
    let mut lo: u64 = 0;
    let mut hi: u64 = 0x1_0000_0000;
    assert(n < hi * hi) by (nonlinear_arith)
        requires
            hi == 0x1_0000_0000,
            n <= u64::MAX,
    ;
    while hi - lo > 1
        invariant
            lo < hi <= 0x1_0000_0000,
            lo * lo <= n,
            n < hi * hi,
        decreases hi - lo,
    {
        let mid: u64 = lo + (hi - lo) / 2;
        assert(mid * mid < 0x1_0000_0000_0000_0000) by (nonlinear_arith)
            requires
                mid < 0x1_0000_0000,
        ;
        if mid * mid <= n {
            lo = mid;
        } else {
            hi = mid;
        }
    }
    proof {
        assert(lo + 1 == hi);
        assert(lo <= n) by (nonlinear_arith)
            requires
                lo * lo <= n,
                lo >= 0,
        ;
        lemma_root_below(n as int, lo as nat, n as nat);
    }
    lo
}


/// Half a turn, in fixed point.
pub const PI_FX: i64 = 3_141_592;

/// A whole turn, in fixed point.
pub const TWO_PI_FX: i64 = 6_283_184;

/// A quarter turn, in fixed point.
pub const HALF_PI_FX: i64 = 1_570_796;

/// The angle `x` brought into one turn, `[0, TWO_PI_FX)`.
pub open spec fn angle_reduce(x: int) -> int {
    x % (TWO_PI_FX as int)
}

/// Bhaskara's rational approximation of the sine on `[0, PI_FX]`,
/// scaled by `SCALE`.
pub open spec fn half_wave(t: int) -> int {
    let p = t * (PI_FX - t);
    (16 * p * SCALE) / (5 * PI_FX * PI_FX - 4 * p)
}

/// The fixed-point sine of the fixed-point angle `x`.
pub open spec fn sin_spec(x: int) -> int {
    let a = angle_reduce(x);
    if a < PI_FX {
        half_wave(a)
    } else {
        -half_wave(a - PI_FX)
    }
}

/// The fixed-point cosine of the fixed-point angle `x`.
pub open spec fn cos_spec(x: int) -> int {
    sin_spec(x + HALF_PI_FX)
}

/// Brings an angle into one turn.
pub fn reduce_angle(x: i64) -> (r: i64)
    requires
        x > i64::MIN,
    ensures
        r == angle_reduce(x as int),
        0 <= r < TWO_PI_FX,
{
    if x >= 0 {
        x % TWO_PI_FX
    } else {
        let m: i64 = (-x) % TWO_PI_FX;
        if m == 0 {
            assert((x as int) % (TWO_PI_FX as int) == 0) by (nonlinear_arith)
                requires
                    (-(x as int)) % (TWO_PI_FX as int) == 0,
                    x < 0,
            ;
            0
        } else {
            assert((x as int) % (TWO_PI_FX as int) == TWO_PI_FX - m) by (nonlinear_arith)
                requires
                    m == (-(x as int)) % (TWO_PI_FX as int),
                    0 < m,
                    x < 0,
            ;
            TWO_PI_FX - m
        }
    }
}

proof fn lemma_half_wave_bounds(t: int)
    requires
        0 <= t <= PI_FX,
    ensures
        0 <= half_wave(t) <= SCALE,
{
    let p = t * (PI_FX - t);
    assert(0 <= p && 4 * p <= PI_FX * PI_FX) by (nonlinear_arith)
        requires
            0 <= t <= PI_FX,
            p == t * (PI_FX - t),
    ;
    let den = 5 * PI_FX * PI_FX - 4 * p;
    assert(16 * p * SCALE <= den * SCALE) by (nonlinear_arith)
        requires
            4 * p <= PI_FX * PI_FX,
            den == 5 * PI_FX * PI_FX - 4 * p,
    ;
    assert(den > 0);
    assert((16 * p * SCALE) / den <= SCALE) by (nonlinear_arith)
        requires
            16 * p * SCALE <= den * SCALE,
            den > 0,
            p >= 0,
    ;
    assert(0 <= (16 * p * SCALE) / den) by (nonlinear_arith)
        requires
            den > 0,
            p >= 0,
    ;
}

/// Bhaskara's approximation on half a turn.
fn half_wave_fx(t: i64) -> (r: i64)
    requires
        0 <= t <= PI_FX,
    ensures
        r == half_wave(t as int),
        0 <= r <= SCALE,
{
    proof {
        lemma_half_wave_bounds(t as int);
    }
    assert(0 <= t * (PI_FX - t) <= PI_FX * PI_FX) by (nonlinear_arith)
        requires
            0 <= t <= PI_FX,
    ;
    let p: i64 = t * (PI_FX - t);
    let num: u128 = (16 * p) as u128 * (SCALE as u128);
    let den: u128 = (5 * PI_FX * PI_FX - 4 * p) as u128;
    (num / den) as i64
}

/// The fixed-point sine.
pub fn sin_fx(x: i64) -> (r: i64)
    requires
        x > i64::MIN,
    ensures
        r == sin_spec(x as int),
        -SCALE <= r <= SCALE,
{
    let a = reduce_angle(x);
    if a < PI_FX {
        half_wave_fx(a)
    } else {
        -half_wave_fx(a - PI_FX)
    }
}

/// The fixed-point cosine.
pub fn cos_fx(x: i64) -> (r: i64)
    requires
        x <= i64::MAX - HALF_PI_FX,
        x > i64::MIN,
    ensures
        r == cos_spec(x as int),
        -SCALE <= r <= SCALE,
{
    sin_fx(x + HALF_PI_FX)
}

/// The natural logarithm of two, in fixed point.
pub const LN2_FX: i64 = 693_147;

/// Arguments of the exponential are cut off here: beyond it the logistic
/// curve is flat at this precision.
pub const EXP_ARG_MAX: i64 = 20_000_000;

/// An upper bound of `exp_spec` on `[0, EXP_ARG_MAX]`.
pub const EXP_MAX: i64 = 2_684_354_560_000_000;

/// The `i`-th term of the Taylor series of the exponential at `r / SCALE`,
/// each term computed from the one before it and rounded down.
pub open spec fn taylor_term(r: int, i: nat) -> int
    decreases i,
{
    if i == 0 {
        SCALE as int
    } else {
        taylor_term(r, (i - 1) as nat) * r / (i * SCALE)
    }
}

/// The sum of the first `n` terms of `taylor_term`.
pub open spec fn taylor_sum(r: int, n: nat) -> int
    decreases n,
{
    if n == 0 {
        0
    } else {
        taylor_sum(r, (n - 1) as nat) + taylor_term(r, (n - 1) as nat)
    }
}

pub open spec fn two_pow(k: nat) -> int
    decreases k,
{
    if k == 0 {
        1
    } else {
        2 * two_pow((k - 1) as nat)
    }
}

/// The fixed-point exponential of a non-negative argument `y`: with
/// `y = k * ln 2 + r`, it is `2^k` times ten Taylor terms of `e^r`.
pub open spec fn exp_spec(y: int) -> int {
    taylor_sum(y % (LN2_FX as int), 10) * two_pow((y / (LN2_FX as int)) as nat)
}

proof fn lemma_taylor_term_bounds(r: int, i: nat)
    requires
        0 <= r < SCALE,
    ensures
        0 <= taylor_term(r, i) <= SCALE,
    decreases i,
{
    if i > 0 {
        lemma_taylor_term_bounds(r, (i - 1) as nat);
        let a = taylor_term(r, (i - 1) as nat);
        assert(0 <= a * r <= SCALE * (i * SCALE)) by (nonlinear_arith)
            requires
                0 <= a <= SCALE,
                0 <= r < SCALE,
                i >= 1,
        ;
        assert(0 <= a * r / (i * SCALE) <= SCALE) by (nonlinear_arith)
            requires
                0 <= a * r <= SCALE * (i * SCALE),
                i >= 1,
        ;
    }
}

proof fn lemma_taylor_sum_bounds(r: int, n: nat)
    requires
        0 <= r < SCALE,
        n >= 1,
    ensures
        SCALE <= taylor_sum(r, n) <= n * SCALE,
    decreases n,
{
    lemma_taylor_term_bounds(r, (n - 1) as nat);
    if n > 1 {
        lemma_taylor_sum_bounds(r, (n - 1) as nat);
    } else {
        assert(taylor_sum(r, 0) == 0);
        assert(taylor_term(r, 0) == SCALE);
    }
    assert(taylor_sum(r, n) == taylor_sum(r, (n - 1) as nat) + taylor_term(r, (n - 1) as nat));
    assert((n - 1) * SCALE + SCALE == n * SCALE) by (nonlinear_arith);
}

proof fn lemma_two_pow_monotone(j: nat, k: nat)
    requires
        j <= k,
    ensures
        1 <= two_pow(j) <= two_pow(k),
    decreases k,
{
    if k > j {
        lemma_two_pow_monotone(j, (k - 1) as nat);
    } else if j > 0 {
        lemma_two_pow_monotone((j - 1) as nat, (j - 1) as nat);
    }
}

proof fn lemma_two_pow_bounds(k: nat)
    requires
        k <= 28,
    ensures
        1 <= two_pow(k) <= 268_435_456,
{
    lemma_two_pow_monotone(k, 28);
    reveal_with_fuel(two_pow, 29);
}

/// The fixed-point exponential of `y`, for `0 <= y <= EXP_ARG_MAX`.
pub fn exp_fx(y: i64) -> (e: i64)
    requires
        0 <= y <= EXP_ARG_MAX,
    ensures
        e == exp_spec(y as int),
        SCALE <= e <= EXP_MAX,
{
    let k: i64 = y / LN2_FX;
    let r: i64 = y % LN2_FX;
    let mut term: i64 = SCALE;
    let mut sum: i64 = 0;
    let mut i: i64 = 0;
    while i < 10
        invariant
            0 <= i <= 10,
            0 <= r < LN2_FX,
            term == taylor_term(r as int, i as nat),
            sum == taylor_sum(r as int, i as nat),
            0 <= sum <= i * SCALE,
        decreases 10 - i,
    {
        proof {
            lemma_taylor_term_bounds(r as int, i as nat);
            lemma_taylor_term_bounds(r as int, (i + 1) as nat);
        }
        sum = sum + term;
        assert(0 <= term * r <= SCALE * SCALE) by (nonlinear_arith)
            requires
                0 <= term <= SCALE,
                0 <= r < SCALE,
        ;
        term = term * r / ((i + 1) * SCALE);
        i = i + 1;
    }
    proof {
        lemma_taylor_sum_bounds(r as int, 10);
        lemma_two_pow_bounds(k as nat);
    }
    let mut m: i64 = 1;
    let mut j: i64 = 0;
    while j < k
        invariant
            0 <= j <= k <= 28,
            m == two_pow(j as nat),
        decreases k - j,
    {
        proof {
            lemma_two_pow_monotone((j + 1) as nat, 28);
            lemma_two_pow_bounds(28);
        }
        m = m * 2;
        j = j + 1;
    }
    assert(SCALE <= sum * m <= EXP_MAX) by (nonlinear_arith)
        requires
            SCALE <= sum <= 10 * SCALE,
            1 <= m <= 268_435_456,
    ;
    sum * m
}

/// The logistic function `1 / (1 + e^-x)` in fixed point.
pub open spec fn sigmoid_spec(x: int) -> int {
    let y = if x >= 0 {
        x
    } else {
        -x
    };
    let e = exp_spec(clamp(y, 0, EXP_ARG_MAX as int));
    if x >= 0 {
        (SCALE * e) / (e + SCALE)
    } else {
        (SCALE * SCALE) / (SCALE + e)
    }
}

/// The hyperbolic tangent in fixed point, as `2 * sigmoid(2x) - 1`.
pub open spec fn tanh_spec(x: int) -> int {
    2 * sigmoid_spec(2 * x) - SCALE
}

/// `sin(x) / x`, and one at zero, in fixed point. Near zero the
/// approximated sine rises slightly faster than `x`, so the quotient is held
/// within `[-1, 1]`, where the true one lies.
pub open spec fn sinc_spec(x: int) -> int {
    if x == 0 {
        SCALE as int
    } else if x > 0 {
        clamp(div_trunc(sin_spec(x) * SCALE, x), -SCALE as int, SCALE as int)
    } else {
        clamp(div_trunc(-sin_spec(x) * SCALE, -x), -SCALE as int, SCALE as int)
    }
}

/// The logistic function.
pub fn sigmoid_fx(x: i64) -> (r: i64)
    requires
        -2 * VALUE_MAX <= x <= 2 * VALUE_MAX,
    ensures
        r == sigmoid_spec(x as int),
        0 <= r <= SCALE,
{
    let y: i64 = if x >= 0 {
        x
    } else {
        -x
    };
    let c: i64 = if y > EXP_ARG_MAX {
        EXP_ARG_MAX
    } else {
        y
    };
    let e = exp_fx(c);
    if x >= 0 {
        let num: u128 = (SCALE as u128) * (e as u128);
        let den: u128 = (e + SCALE) as u128;
        assert(num / den <= SCALE) by (nonlinear_arith)
            requires
                num == SCALE * e,
                den == e + SCALE,
                e >= SCALE,
        ;
        (num / den) as i64
    } else {
        let num: u128 = (SCALE as u128) * (SCALE as u128);
        let den: u128 = (SCALE + e) as u128;
        assert(num / den <= SCALE) by (nonlinear_arith)
            requires
                num == SCALE * SCALE,
                den == e + SCALE,
                e >= SCALE,
        ;
        (num / den) as i64
    }
}

/// The hyperbolic tangent.
pub fn tanh_fx(x: i64) -> (r: i64)
    requires
        -VALUE_MAX <= x <= VALUE_MAX,
    ensures
        r == tanh_spec(x as int),
        -SCALE <= r <= SCALE,
{
    2 * sigmoid_fx(2 * x) - SCALE
}

/// `sin(x) / x`, and one at zero.
pub fn sinc_fx(x: i64) -> (r: i64)
    requires
        -VALUE_MAX <= x <= VALUE_MAX,
    ensures
        r == sinc_spec(x as int),
        -SCALE <= r <= SCALE,
{
    if x == 0 {
        SCALE
    } else {
        let s = sin_fx(x);
        let (a, d): (i64, i64) = if x > 0 {
            (s * SCALE, x)
        } else {
            (-s * SCALE, -x)
        };
        let q = div_toward_zero(a, d);
        if q > SCALE {
            SCALE
        } else if q < -SCALE {
            -SCALE
        } else {
            q
        }
    }
}

} // verus!
