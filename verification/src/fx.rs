use vstd::prelude::*;

verus! {

/// One unit in the 16.16 fixed-point encoding used throughout the crate: a
/// raw value `r` stands for the real number `r / SCALE`.
pub const SCALE: i64 = 65536;

/// Largest raw magnitude accepted by the arithmetic helpers.  The product of
/// two such values, rescaled by `SCALE`, always fits in an `i64`.
pub const FX_LIM: i64 = 0x80_0000_0000;

pub open spec fn fits(a: int) -> bool {
    -FX_LIM <= a <= FX_LIM
}

/// Division of `n` by a positive divisor `d`, rounded toward zero.
pub open spec fn tdiv(n: int, d: int) -> int
    recommends
        d > 0,
{
    if n >= 0 {
        n / d
    } else {
        -((-n) / d)
    }
}

/// Division rounded toward zero, divisor of either sign.
pub open spec fn tdiv_signed(n: int, d: int) -> int
    recommends
        d != 0,
{
    if d > 0 {
        tdiv(n, d)
    } else {
        tdiv(-n, -d)
    }
}

/// Fixed-point product: the exact integer product, rescaled by `SCALE`,
/// rounded toward zero.
pub open spec fn fmul(a: int, b: int) -> int {
    tdiv(a * b, SCALE as int)
}

/// Fixed-point quotient: the scaled dividend divided by `b`, rounded toward
/// zero.
pub open spec fn fdiv(a: int, b: int) -> int
    recommends
        b != 0,
{
    tdiv_signed(a * SCALE, b)
}

/// The integer square root: the largest `r` with `r * r <= x`.
pub open spec fn isqrt_spec(x: nat) -> nat
    decreases x,
{
    if x == 0 {
        0
    } else {
        let r = isqrt_spec((x - 1) as nat);
        if (r + 1) * (r + 1) <= x {
            r + 1
        } else {
            r
        }
    }
}

pub proof fn lemma_isqrt_bounds(x: nat)
    ensures
        isqrt_spec(x) * isqrt_spec(x) <= x,
        (isqrt_spec(x) + 1) * (isqrt_spec(x) + 1) > x,
    decreases x,
{
    if x > 0 {
        lemma_isqrt_bounds((x - 1) as nat);
        let r = isqrt_spec((x - 1) as nat);
        assert(r * r <= x - 1);
        assert((r + 1) * (r + 1) > x - 1);
        if (r + 1) * (r + 1) <= x {
            assert(isqrt_spec(x) == r + 1);
            assert((r + 2) * (r + 2) > (r + 1) * (r + 1)) by (nonlinear_arith);
            assert((r + 2) * (r + 2) > x);
        } else {
            assert(isqrt_spec(x) == r);
        }
        assert(isqrt_spec(x) * isqrt_spec(x) <= x);
        assert((isqrt_spec(x) + 1) * (isqrt_spec(x) + 1) > x) by (nonlinear_arith)
            requires
                isqrt_spec(x) == r + 1 || isqrt_spec(x) == r,
                (r + 1) * (r + 1) > x - 1,
                isqrt_spec(x) == r ==> (r + 1) * (r + 1) > x,
        ;
    } else {
        assert(isqrt_spec(x) == 0);
        assert((isqrt_spec(x) + 1) * (isqrt_spec(x) + 1) > x) by (nonlinear_arith)
            requires
                isqrt_spec(x) == 0,
                x == 0,
        ;
    }
}

/// A square above `x` bounds the integer square root from above.
pub proof fn lemma_isqrt_lt(x: nat, b: nat)
    requires
        b * b > x,
    ensures
        isqrt_spec(x) < b,
{
    lemma_isqrt_bounds(x);
    let r = isqrt_spec(x);
    if r >= b {
        assert(r * r >= b * b) by (nonlinear_arith)
            requires
                r >= b,
        ;
    }
}

pub proof fn lemma_isqrt_unique(x: nat, r: nat)
    requires
        r * r <= x,
        (r + 1) * (r + 1) > x,
    ensures
        r == isqrt_spec(x),
{
    let s = isqrt_spec(x);
    lemma_isqrt_bounds(x);
    if r < s {
        assert((r + 1) * (r + 1) <= s * s) by (nonlinear_arith)
            requires
                r + 1 <= s,
        ;
    }
    if s < r {
        assert((s + 1) * (s + 1) <= r * r) by (nonlinear_arith)
            requires
                s + 1 <= r,
        ;
    }
}

/// The smaller of two integers; ties go to the right argument.
pub open spec fn imin(a: int, b: int) -> int {
    if a < b {
        a
    } else {
        b
    }
}

/// The larger of two integers; ties go to the right argument.
pub open spec fn imax(a: int, b: int) -> int {
    if a > b {
        a
    } else {
        b
    }
}

/// Integer magnitude.
pub open spec fn iabs(a: int) -> int {
    if a >= 0 {
        a
    } else {
        -a
    }
}

/// The fixed-point product of nonnegative values is nonnegative.
pub proof fn lemma_fmul_nonneg(a: int, b: int)
    requires
        a >= 0,
        b >= 0,
    ensures
        fmul(a, b) >= 0,
{
    assert(a * b >= 0) by (nonlinear_arith)
        requires
            a >= 0,
            b >= 0,
    ;
    vstd::arithmetic::div_mod::lemma_div_is_ordered(0, a * b, SCALE as int);
}

/// A dividend within `m` multiples of the divisor bounds the signed
/// truncating quotient by `m`.
pub proof fn lemma_tdiv_signed_bound(n: int, d: int, m: int)
    requires
        d != 0,
        0 <= m,
        -(m * iabs(d)) <= n <= m * iabs(d),
    ensures
        -m <= tdiv_signed(n, d) <= m,
{
    let dd = iabs(d);
    let nn = iabs(n);
    vstd::arithmetic::div_mod::lemma_div_is_ordered(nn, m * dd, dd);
    vstd::arithmetic::div_mod::lemma_div_multiples_vanish(m, dd);
    vstd::arithmetic::div_mod::lemma_div_is_ordered(0, nn, dd);
}

/// Magnitude of `a` as a `u64`.
pub fn fx_mag(a: i64) -> (r: u64)
    requires
        a > i64::MIN,
    ensures
        r == if a >= 0 { a as int } else { -(a as int) },
{
    if a >= 0 {
        a as u64
    } else {
        (-a) as u64
    }
}

/// Fixed-point multiplication, rounding toward zero.
pub fn fx_mul(a: i64, b: i64) -> (r: i64)
    requires
        fits(a as int),
        fits(b as int),
    ensures
        r == fmul(a as int, b as int),
{
    let neg = (a < 0) != (b < 0);
    let ua = fx_mag(a);
    let ub = fx_mag(b);
    assert(ua as int * ub as int <= FX_LIM as int * FX_LIM as int) by (nonlinear_arith)
        requires
            0 <= ua <= FX_LIM,
            0 <= ub <= FX_LIM,
    ;
    let p: u128 = (ua as u128) * (ub as u128);
    assert(p == if a as int * b as int >= 0 { a as int * b as int } else { -(a as int * b as int) })
        by (nonlinear_arith)
        requires
            ua == if a >= 0 { a as int } else { -(a as int) },
            ub == if b >= 0 { b as int } else { -(b as int) },
            p == ua as int * ub as int,
    ;
    assert(p <= FX_LIM as int * FX_LIM as int) by (nonlinear_arith)
        requires
            p == if a as int * b as int >= 0 { a as int * b as int } else { -(a as int * b as int) },
            fits(a as int),
            fits(b as int),
    ;
    let q: u128 = p / 65536;
    let qi: i64 = q as i64;
    if neg {
        assert(a as int * b as int <= 0) by (nonlinear_arith)
            requires
                (a < 0) != (b < 0),
        ;
        -qi
    } else {
        assert(a as int * b as int >= 0) by (nonlinear_arith)
            requires
                (a < 0) == (b < 0),
        ;
        qi
    }
}

/// Fixed-point division, rounding toward zero.
pub fn fx_div(a: i64, b: i64) -> (r: i64)
    requires
        fits(a as int),
        fits(b as int),
        b != 0,
    ensures
        r == fdiv(a as int, b as int),
{
    let neg = (a < 0) != (b < 0);
    let ua = fx_mag(a);
    let ub = fx_mag(b);
    let p: u128 = (ua as u128) * 65536;
    let q: u128 = p / (ub as u128);
    assert(q <= p);
    let qi: i64 = q as i64;
    proof {
        let ai = a as int;
        let bi = b as int;
        if b > 0 {
            if a >= 0 {
                assert(p == ai * SCALE) by (nonlinear_arith)
                    requires
                        ua == ai,
                        p == ua as int * 65536,
                        SCALE == 65536,
                ;
            } else {
                assert(p == -(ai * SCALE)) by (nonlinear_arith)
                    requires
                        ua == -ai,
                        p == ua as int * 65536,
                        SCALE == 65536,
                ;
            }
        } else {
            if a >= 0 {
                assert(p == ai * SCALE) by (nonlinear_arith)
                    requires
                        ua == ai,
                        p == ua as int * 65536,
                        SCALE == 65536,
                ;
            } else {
                assert(p == -(ai * SCALE)) by (nonlinear_arith)
                    requires
                        ua == -ai,
                        p == ua as int * 65536,
                        SCALE == 65536,
                ;
            }
        }
    }
    if neg {
        -qi
    } else {
        qi
    }
}

/// Square root of a nonnegative fixed-point value: the integer square root of
/// the raw value rescaled by `SCALE`, so that the result is again in 16.16
/// form and never overestimates the real square root.
pub fn fx_sqrt(a: i64) -> (r: i64)
    requires
        0 <= a <= 0x2000_0000_0000,
    ensures
        r == isqrt_spec((a * SCALE) as nat),
        0 <= r < 0x8000_0000,
{
    let x: u64 = (a as u64) * 65536;
    let r = isqrt64(x);
    proof {
        assert((0x8000_0000 as nat) * (0x8000_0000 as nat) > x as nat) by (nonlinear_arith)
            requires
                x <= 0x2000_0000_0000_0000u64,
        ;
        lemma_isqrt_lt(x as nat, 0x8000_0000 as nat);
    }
    r as i64
}

/// Integer square root of a `u64`, by binary search.
pub fn isqrt64(x: u64) -> (r: u64)
    ensures
        r == isqrt_spec(x as nat),
        r * r <= x,
{
    let mut lo: u64 = 0;
    let mut hi: u64 = 0x1_0000_0000;
    proof {
        assert((hi as int + 1) * (hi as int + 1) > x as int) by (nonlinear_arith)
            requires
                hi == 0x1_0000_0000u64,
                x <= u64::MAX,
        ;
    }
    while lo < hi
        invariant
            lo <= hi <= 0x1_0000_0000,
            lo as int * lo as int <= x as int,
            (hi + 1) * (hi + 1) > x as int,
        decreases hi - lo,
    {
        let mid = lo + (hi - lo + 1) / 2;
        assert(lo < mid <= hi);
        assert(mid as int * mid as int <= 0x1_0000_0000_0000_0000) by (nonlinear_arith)
            requires
                mid <= 0x1_0000_0000u64,
        ;
        let sq: u128 = (mid as u128) * (mid as u128);
        if sq <= x as u128 {
            lo = mid;
        } else {
            proof {
                assert((mid as int - 1 + 1) * (mid as int - 1 + 1) > x as int);
            }
            hi = mid - 1;
        }
    }
    proof {
        lemma_isqrt_unique(x as nat, lo as nat);
    }
    lo
}

/// The smaller of two raw values.
pub fn fx_min(a: i64, b: i64) -> (r: i64)
    ensures
        r == if a < b { a as int } else { b as int },
{
    if a < b {
        a
    } else {
        b
    }
}

/// The larger of two raw values.
pub fn fx_max(a: i64, b: i64) -> (r: i64)
    ensures
        r == if a > b { a as int } else { b as int },
{
    if a > b {
        a
    } else {
        b
    }
}

/// Magnitude of a raw value.
pub fn fx_abs(a: i64) -> (r: i64)
    requires
        a > i64::MIN,
    ensures
        r == if a >= 0 { a as int } else { -(a as int) },
{
    if a >= 0 {
        a
    } else {
        -a
    }
}

/// The unit-magnitude sign of a raw value; zero counts as positive, as the
/// sign of floating-point zero does.
pub fn fx_sign_unit(a: i64) -> (r: i64)
    ensures
        r == if a >= 0 { SCALE as int } else { -(SCALE as int) },
{
    if a >= 0 {
        SCALE
    } else {
        -SCALE
    }
}

/// Quarter of a turn in the angle encoding of `sin_turn`.
pub const QUARTER_TURN: i64 = 16384;

/// Half of a turn in the angle encoding of `sin_turn`.
pub const HALF_TURN: i64 = 32768;

/// One full turn in the angle encoding of `sin_turn`.
pub const FULL_TURN: i64 = 65536;

/// Parabolic approximation of the sine over the first half turn, `t` in
/// raw turn units: `4 * (t/H) * (1 - t/H)` rescaled to 16.16.
pub open spec fn sin_half_spec(t: int) -> int
    recommends
        0 <= t <= HALF_TURN,
{
    4 * t * (HALF_TURN - t) / 16384
}

/// Sine of an angle given as a fraction of a full turn, in 16.16 form.
pub open spec fn sin_turn_spec(t: int) -> int
    recommends
        0 <= t < FULL_TURN,
{
    if t < HALF_TURN {
        sin_half_spec(t)
    } else {
        -sin_half_spec(t - HALF_TURN)
    }
}

/// Cosine of an angle given as a fraction of a full turn.
pub open spec fn cos_turn_spec(t: int) -> int
    recommends
        0 <= t < FULL_TURN,
{
    sin_turn_spec((t + QUARTER_TURN as int) % (FULL_TURN as int))
}

proof fn lemma_sin_half_range(t: int)
    requires
        0 <= t <= HALF_TURN,
    ensures
        0 <= sin_half_spec(t) <= SCALE,
{
    assert(0 <= 4 * t * (HALF_TURN - t) <= 0x4000_0000) by (nonlinear_arith)
        requires
            0 <= t <= 32768,
            HALF_TURN == 32768,
    ;
}

/// Sine of a turn-fraction angle, by the parabolic approximation.
pub fn sin_turn(t: i64) -> (r: i64)
    requires
        0 <= t < FULL_TURN,
    ensures
        r == sin_turn_spec(t as int),
        -SCALE <= r <= SCALE,
{
    if t < HALF_TURN {
        let r = sin_half(t);
        r
    } else {
        let r = sin_half(t - HALF_TURN);
        -r
    }
}

/// The parabolic half-turn sine on raw turn units.
fn sin_half(t: i64) -> (r: i64)
    requires
        0 <= t <= HALF_TURN,
    ensures
        r == sin_half_spec(t as int),
        0 <= r <= SCALE,
{
    let tt = t as u64;
    assert(tt * (32768 - tt) <= 0x1000_0000) by (nonlinear_arith)
        requires
            0 <= tt <= 32768,
    ;
    let m: u64 = tt * (32768 - tt);
    let num: u64 = 4 * m;
    assert(num == 4 * (t as int) * (HALF_TURN - t as int)) by (nonlinear_arith)
        requires
            tt == t as int,
            m == tt as int * (32768 - tt as int),
            num == 4 * m,
            HALF_TURN == 32768,
    ;
    let r = (num / 16384) as i64;
    proof {
        lemma_sin_half_range(t as int);
    }
    r
}

/// Cosine of a turn-fraction angle: the sine a quarter turn later.
pub fn cos_turn(t: i64) -> (r: i64)
    requires
        0 <= t < FULL_TURN,
    ensures
        r == cos_turn_spec(t as int),
        -SCALE <= r <= SCALE,
{
    let shifted = (((t as u64) + 16384) % 65536) as i64;
    sin_turn(shifted)
}

} // verus!
