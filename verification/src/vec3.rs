use vstd::prelude::*;
use crate::fx::{
    fits, fmul, fdiv, tdiv, iabs, isqrt_spec, lemma_isqrt_bounds, fx_mul, fx_div, isqrt64,
    FX_LIM, SCALE,
};
use vstd::arithmetic::div_mod::lemma_div_is_ordered;

verus! {

/// Largest raw component magnitude the vector operations accept; it keeps
/// every dot product and cross product far from `i64` overflow.
pub const V_LIM: i64 = 0x8000_0000;

/// A three-component vector in 16.16 fixed point.
#[derive(Clone, Copy, PartialEq, Eq, Structural, Debug)]
pub struct V {
    pub x: i64,
    pub y: i64,
    pub z: i64,
}

/// The mathematical model of a vector: its raw components as unbounded
/// integers.
pub open spec fn vm(v: V) -> (int, int, int) {
    (v.x as int, v.y as int, v.z as int)
}

pub open spec fn v_fits(v: V) -> bool {
    &&& -V_LIM <= v.x <= V_LIM
    &&& -V_LIM <= v.y <= V_LIM
    &&& -V_LIM <= v.z <= V_LIM
}

pub open spec fn vadd(a: (int, int, int), b: (int, int, int)) -> (int, int, int) {
    (a.0 + b.0, a.1 + b.1, a.2 + b.2)
}

pub open spec fn vsub(a: (int, int, int), b: (int, int, int)) -> (int, int, int) {
    (a.0 - b.0, a.1 - b.1, a.2 - b.2)
}

/// Elementwise fixed-point product.
pub open spec fn vmul(a: (int, int, int), b: (int, int, int)) -> (int, int, int) {
    (fmul(a.0, b.0), fmul(a.1, b.1), fmul(a.2, b.2))
}

/// Broadcast product: every component scaled by the raw scalar `s`.
pub open spec fn vscale(a: (int, int, int), s: int) -> (int, int, int) {
    (fmul(a.0, s), fmul(a.1, s), fmul(a.2, s))
}

pub open spec fn vneg(a: (int, int, int)) -> (int, int, int) {
    (-a.0, -a.1, -a.2)
}

/// Fixed-point dot product: the elementwise products summed.
pub open spec fn vdot(a: (int, int, int), b: (int, int, int)) -> int {
    fmul(a.0, b.0) + fmul(a.1, b.1) + fmul(a.2, b.2)
}

/// Right-handed cross product in fixed point.
pub open spec fn vcross(a: (int, int, int), b: (int, int, int)) -> (int, int, int) {
    (
        fmul(a.1, b.2) - fmul(a.2, b.1),
        fmul(a.2, b.0) - fmul(a.0, b.2),
        fmul(a.0, b.1) - fmul(a.1, b.0),
    )
}

/// Normalization: each component divided by the integer square root of the
/// squared length.  The zero vector maps to zero.
pub open spec fn vnorm(a: (int, int, int)) -> (int, int, int) {
    let q = vdot(a, a);
    if q <= 0 {
        (0, 0, 0)
    } else {
        let l = isqrt_spec((q * SCALE) as nat) as int;
        (fdiv(a.0, l), fdiv(a.1, l), fdiv(a.2, l))
    }
}

pub proof fn lemma_fmul_comm(a: int, b: int)
    ensures
        fmul(a, b) == fmul(b, a),
{
    assert(a * b == b * a) by (nonlinear_arith);
}

/// A bound on the operands bounds the fixed-point product.
pub proof fn lemma_fmul_bound(a: int, b: int, ma: int, mb: int)
    requires
        -ma <= a <= ma,
        -mb <= b <= mb,
        0 <= ma,
        0 <= mb,
    ensures
        -tdiv(ma * mb, SCALE as int) <= fmul(a, b) <= tdiv(ma * mb, SCALE as int),
{
    let p = a * b;
    let m = ma * mb;
    assert(-m <= p <= m) by (nonlinear_arith)
        requires
            -ma <= a <= ma,
            -mb <= b <= mb,
            0 <= ma,
            0 <= mb,
            p == a * b,
            m == ma * mb,
    ;
    if p >= 0 {
        lemma_div_is_ordered(p, m, SCALE as int);
        lemma_div_nonneg(p, SCALE as int);
    } else {
        lemma_div_is_ordered(-p, m, SCALE as int);
        lemma_div_nonneg(-p, SCALE as int);
    }
}

proof fn lemma_div_nonneg(n: int, d: int)
    requires
        n >= 0,
        d > 0,
    ensures
        n / d >= 0,
{
    lemma_div_is_ordered(0, n, d);
}

/// Squares are nonnegative, so a fixed-point square is nonnegative.
pub proof fn lemma_fmul_square_nonneg(a: int)
    ensures
        fmul(a, a) >= 0,
{
    assert(a * a >= 0) by (nonlinear_arith);
    lemma_div_nonneg(a * a, SCALE as int);
}

impl V {
    /// The vector with the given raw components.
    pub fn new(x: i64, y: i64, z: i64) -> (r: V)
        ensures
            r == (V { x, y, z }),
    {
        V { x, y, z }
    }

    /// The broadcast vector: the raw scalar `a` in every component.
    pub fn from_scalar(a: i64) -> (r: V)
        ensures
            r == (V { x: a, y: a, z: a }),
    {
        V { x: a, y: a, z: a }
    }

    pub fn x(&self) -> (r: i64)
        ensures
            r == self.x,
    {
        self.x
    }

    pub fn y(&self) -> (r: i64)
        ensures
            r == self.y,
    {
        self.y
    }

    pub fn z(&self) -> (r: i64)
        ensures
            r == self.z,
    {
        self.z
    }

    /// Componentwise sum.
    pub fn add(self, o: V) -> (r: V)
        requires
            v_fits(self),
            v_fits(o),
        ensures
            vm(r) == vadd(vm(self), vm(o)),
    {
        V { x: self.x + o.x, y: self.y + o.y, z: self.z + o.z }
    }

    /// Componentwise difference.
    pub fn sub(self, o: V) -> (r: V)
        requires
            v_fits(self),
            v_fits(o),
        ensures
            vm(r) == vsub(vm(self), vm(o)),
    {
        V { x: self.x - o.x, y: self.y - o.y, z: self.z - o.z }
    }

    /// Elementwise fixed-point product.
    pub fn mul(self, o: V) -> (r: V)
        requires
            v_fits(self),
            v_fits(o),
        ensures
            vm(r) == vmul(vm(self), vm(o)),
    {
        V { x: fx_mul(self.x, o.x), y: fx_mul(self.y, o.y), z: fx_mul(self.z, o.z) }
    }

    /// Every component scaled by the raw scalar `s`.
    pub fn scale(self, s: i64) -> (r: V)
        requires
            v_fits(self),
            fits(s as int),
        ensures
            vm(r) == vscale(vm(self), s as int),
    {
        V { x: fx_mul(self.x, s), y: fx_mul(self.y, s), z: fx_mul(self.z, s) }
    }

    /// Fixed-point dot product.
    pub fn dot(self, o: V) -> (r: i64)
        requires
            v_fits(self),
            v_fits(o),
        ensures
            r == vdot(vm(self), vm(o)),
    {
        proof {
            lemma_fmul_bound(self.x as int, o.x as int, V_LIM as int, V_LIM as int);
            lemma_fmul_bound(self.y as int, o.y as int, V_LIM as int, V_LIM as int);
            lemma_fmul_bound(self.z as int, o.z as int, V_LIM as int, V_LIM as int);
        }
        fx_mul(self.x, o.x) + fx_mul(self.y, o.y) + fx_mul(self.z, o.z)
    }

    /// Right-handed cross product.
    pub fn cross(self, o: V) -> (r: V)
        requires
            v_fits(self),
            v_fits(o),
        ensures
            vm(r) == vcross(vm(self), vm(o)),
    {
        proof {
            lemma_fmul_bound(self.y as int, o.z as int, V_LIM as int, V_LIM as int);
            lemma_fmul_bound(self.z as int, o.y as int, V_LIM as int, V_LIM as int);
            lemma_fmul_bound(self.z as int, o.x as int, V_LIM as int, V_LIM as int);
            lemma_fmul_bound(self.x as int, o.z as int, V_LIM as int, V_LIM as int);
            lemma_fmul_bound(self.x as int, o.y as int, V_LIM as int, V_LIM as int);
            lemma_fmul_bound(self.y as int, o.x as int, V_LIM as int, V_LIM as int);
        }
        V {
            x: fx_mul(self.y, o.z) - fx_mul(self.z, o.y),
            y: fx_mul(self.z, o.x) - fx_mul(self.x, o.z),
            z: fx_mul(self.x, o.y) - fx_mul(self.y, o.x),
        }
    }

    /// The unit-length vector with the direction of `self`; zero stays zero.
    pub fn norm(self) -> (r: V)
        requires
            v_fits(self),
        ensures
            vm(r) == vnorm(vm(self)),
            -2 * SCALE <= r.x <= 2 * SCALE,
            -2 * SCALE <= r.y <= 2 * SCALE,
            -2 * SCALE <= r.z <= 2 * SCALE,
    {
        let q = self.dot(self);
        proof {
            lemma_fmul_square_nonneg(self.x as int);
            lemma_fmul_square_nonneg(self.y as int);
            lemma_fmul_square_nonneg(self.z as int);
            lemma_fmul_bound(self.x as int, self.x as int, V_LIM as int, V_LIM as int);
            lemma_fmul_bound(self.y as int, self.y as int, V_LIM as int, V_LIM as int);
            lemma_fmul_bound(self.z as int, self.z as int, V_LIM as int, V_LIM as int);
        }
        if q <= 0 {
            V { x: 0, y: 0, z: 0 }
        } else {
            let l64 = isqrt64((q as u64) * 65536);
            proof {
                lemma_isqrt_bounds((q * SCALE) as nat);
                let li = isqrt_spec((q * SCALE) as nat) as int;
                assert(li < 0x1_0000_0000) by (nonlinear_arith)
                    requires
                        li >= 0,
                        li * li <= q * SCALE,
                        q * SCALE < 0x1_0000_0000_0000_0000,
                ;
                lemma_norm_component_bound(self.x as int, q as int, li);
                lemma_norm_component_bound(self.y as int, q as int, li);
                lemma_norm_component_bound(self.z as int, q as int, li);
            }
            let l = l64 as i64;
            V { x: fx_div(self.x, l), y: fx_div(self.y, l), z: fx_div(self.z, l) }
        }
    }
}

/// A component of a normalized vector is at most twice the unit, because the
/// squared length cannot fall far below the square of any one component.
proof fn lemma_norm_component_bound(c: int, q: int, l: int)
    requires
        fmul(c, c) <= q,
        q >= 1,
        l == isqrt_spec((q * SCALE) as nat) as int,
        l * l <= q * SCALE,
        (l + 1) * (l + 1) > q * SCALE,
    ensures
        -2 * SCALE <= fdiv(c, l) <= 2 * SCALE,
        l >= 256,
{
    let s = SCALE as int;
    assert(l >= 256) by (nonlinear_arith)
        requires
            (l + 1) * (l + 1) > q * s,
            q >= 1,
            s == 65536,
            l >= 0,
    ;
    // c * c <= q * s + s - 1, since fmul truncates away less than one unit.
    assert(c * c <= fmul(c, c) * s + s - 1) by {
        assert(c * c >= 0) by (nonlinear_arith);
        vstd::arithmetic::div_mod::lemma_fundamental_div_mod(c * c, s);
        assert(0 <= (c * c) % s < s);
    }
    assert(c * c <= q * s + s - 1) by (nonlinear_arith)
        requires
            c * c <= fmul(c, c) * s + s - 1,
            fmul(c, c) <= q,
            s > 0,
    ;
    // So |c| <= 2 * l.
    assert(-2 * l <= c <= 2 * l) by (nonlinear_arith)
        requires
            c * c <= q * s + s - 1,
            (l + 1) * (l + 1) > q * s,
            l >= 256,
            s == 65536,
    ;
    // And the truncating division by l keeps the quotient within 2 * SCALE.
    if c >= 0 {
        lemma_div_is_ordered(c * s, 2 * l * s, l);
        assert((2 * l * s) / l == 2 * s) by (nonlinear_arith)
            requires
                l > 0,
                s > 0,
        ;
        lemma_div_nonneg(c * s, l);
    } else {
        lemma_div_is_ordered(-(c * s), 2 * l * s, l);
        assert((2 * l * s) / l == 2 * s) by (nonlinear_arith)
            requires
                l > 0,
                s > 0,
        ;
        lemma_div_nonneg(-(c * s), l);
    }
}

/// Every component of `a` within `m` of zero.
pub open spec fn bounded3(a: (int, int, int), m: int) -> bool {
    &&& -m <= a.0 <= m
    &&& -m <= a.1 <= m
    &&& -m <= a.2 <= m
}

/// Componentwise operand bounds carry to the dot product.
pub proof fn lemma_vdot_bound(a: (int, int, int), b: (int, int, int), ma: int, mb: int)
    requires
        bounded3(a, ma),
        bounded3(b, mb),
        0 <= ma,
        0 <= mb,
    ensures
        -3 * tdiv(ma * mb, SCALE as int) <= vdot(a, b) <= 3 * tdiv(ma * mb, SCALE as int),
{
    lemma_fmul_bound(a.0, b.0, ma, mb);
    lemma_fmul_bound(a.1, b.1, ma, mb);
    lemma_fmul_bound(a.2, b.2, ma, mb);
}

/// Componentwise operand bounds carry to the elementwise product.
pub proof fn lemma_vmul_bound(a: (int, int, int), b: (int, int, int), ma: int, mb: int)
    requires
        bounded3(a, ma),
        bounded3(b, mb),
        0 <= ma,
        0 <= mb,
    ensures
        bounded3(vmul(a, b), tdiv(ma * mb, SCALE as int)),
{
    lemma_fmul_bound(a.0, b.0, ma, mb);
    lemma_fmul_bound(a.1, b.1, ma, mb);
    lemma_fmul_bound(a.2, b.2, ma, mb);
}

/// Componentwise operand bounds carry to the broadcast product.
pub proof fn lemma_vscale_bound(a: (int, int, int), s: int, ma: int, ms: int)
    requires
        bounded3(a, ma),
        -ms <= s <= ms,
        0 <= ma,
        0 <= ms,
    ensures
        bounded3(vscale(a, s), tdiv(ma * ms, SCALE as int)),
{
    lemma_fmul_bound(a.0, s, ma, ms);
    lemma_fmul_bound(a.1, s, ma, ms);
    lemma_fmul_bound(a.2, s, ma, ms);
}

/// The dot product of a vector with itself is nonnegative.
pub proof fn lemma_vdot_self_nonneg(a: (int, int, int))
    ensures
        vdot(a, a) >= 0,
{
    lemma_fmul_square_nonneg(a.0);
    lemma_fmul_square_nonneg(a.1);
    lemma_fmul_square_nonneg(a.2);
}

/// The dot product does not depend on the order of its arguments.
pub proof fn lemma_dot_symmetric(a: (int, int, int), b: (int, int, int))
    ensures
        vdot(a, b) == vdot(b, a),
{
    lemma_fmul_comm(a.0, b.0);
    lemma_fmul_comm(a.1, b.1);
    lemma_fmul_comm(a.2, b.2);
}

/// Swapping the arguments of the cross product negates it exactly.
pub proof fn lemma_cross_antisymmetric(a: (int, int, int), b: (int, int, int))
    ensures
        vcross(a, b) == vneg(vcross(b, a)),
{
    lemma_fmul_comm(a.0, b.0);
    lemma_fmul_comm(a.0, b.1);
    lemma_fmul_comm(a.0, b.2);
    lemma_fmul_comm(a.1, b.0);
    lemma_fmul_comm(a.1, b.1);
    lemma_fmul_comm(a.1, b.2);
    lemma_fmul_comm(a.2, b.0);
    lemma_fmul_comm(a.2, b.1);
    lemma_fmul_comm(a.2, b.2);
}

/// Exact (unscaled) dot product over the integer model.
pub open spec fn edot(a: (int, int, int), b: (int, int, int)) -> int {
    a.0 * b.0 + a.1 * b.1 + a.2 * b.2
}

/// Exact mirror reflection of `d` about `n`, scaled through by the squared
/// length of `n` so that it stays within the integers.
pub open spec fn ereflect(d: (int, int, int), n: (int, int, int)) -> (int, int, int) {
    let k = edot(n, n);
    let t = 2 * edot(n, d);
    (k * d.0 - t * n.0, k * d.1 - t * n.1, k * d.2 - t * n.2)
}

/// Mirror reflection scales the squared length by the squared length of the
/// normal, squared: about a unit normal it preserves length exactly.
pub proof fn lemma_reflect_preserves_length(d: (int, int, int), n: (int, int, int))
    ensures
        edot(ereflect(d, n), ereflect(d, n)) == edot(n, n) * edot(n, n) * edot(d, d),
{
    let k = edot(n, n);
    let nd = edot(n, d);
    let t = 2 * nd;
    let r = ereflect(d, n);
    let dd = edot(d, d);
    lemma_reflect_sq_expand(r.0, k, t, d.0, n.0);
    lemma_reflect_sq_expand(r.1, k, t, d.1, n.1);
    lemma_reflect_sq_expand(r.2, k, t, d.2, n.2);
    lemma_distrib3(k * k, d.0 * d.0, d.1 * d.1, d.2 * d.2);
    lemma_distrib3(2 * (k * t), d.0 * n.0, d.1 * n.1, d.2 * n.2);
    lemma_distrib3(t * t, n.0 * n.0, n.1 * n.1, n.2 * n.2);
    lemma_dot_flip(d.0, d.1, d.2, n.0, n.1, n.2);
    lemma_reflect_cancel(k, nd, dd);
}

proof fn lemma_reflect_sq_expand(rr: int, k: int, t: int, di: int, ni: int)
    requires
        rr == k * di - t * ni,
    ensures
        rr * rr == k * k * (di * di) - 2 * (k * t) * (di * ni) + t * t * (ni * ni),
{
    let a = k * di;
    let b = t * ni;
    lemma_sq_diff(a, b);
    assert(rr * rr == a * a - 2 * (a * b) + b * b);
    lemma_mul_square(k, di);
    assert(a * a == k * k * (di * di));
    lemma_mul_shuffle(k, t, di, ni);
    assert(a * b == (k * t) * (di * ni));
    lemma_mul_square(t, ni);
    assert(b * b == t * t * (ni * ni));
    lemma_two_assoc(k * t, di * ni);
    assert(2 * (k * t) * (di * ni) == 2 * ((k * t) * (di * ni)));
}

proof fn lemma_two_assoc(u: int, v: int) by (nonlinear_arith)
    ensures
        2 * u * v == 2 * (u * v),
{
}

proof fn lemma_sq_diff(a: int, b: int) by (nonlinear_arith)
    ensures
        (a - b) * (a - b) == a * a - 2 * (a * b) + b * b,
{
}

proof fn lemma_mul_square(x: int, y: int) by (nonlinear_arith)
    ensures
        (x * y) * (x * y) == x * x * (y * y),
{
}

proof fn lemma_mul_shuffle(k: int, t: int, di: int, ni: int) by (nonlinear_arith)
    ensures
        (k * di) * (t * ni) == (k * t) * (di * ni),
{
}

proof fn lemma_distrib3(a: int, x: int, y: int, z: int) by (nonlinear_arith)
    ensures
        a * x + a * y + a * z == a * (x + y + z),
{
}

proof fn lemma_dot_flip(a0: int, a1: int, a2: int, b0: int, b1: int, b2: int)
    by (nonlinear_arith)
    ensures
        a0 * b0 + a1 * b1 + a2 * b2 == b0 * a0 + b1 * a1 + b2 * a2,
{
}

proof fn lemma_reflect_cancel(k: int, nd: int, dd: int) by (nonlinear_arith)
    ensures
        k * k * (dd) - 2 * (k * (2 * nd)) * (nd) + (2 * nd) * (2 * nd) * (k) == k * k * dd,
{
}


/// Truncating division leaves a remainder smaller than the divisor and never
/// grows the magnitude of the rounded multiple.
proof fn lemma_tdiv_close(n: int, d: int)
    requires
        d > 0,
    ensures
        iabs(n - tdiv(n, d) * d) < d,
        iabs(tdiv(n, d) * d) <= iabs(n),
        iabs(tdiv(n, d)) * d <= iabs(n),
        n >= 0 ==> tdiv(n, d) * d <= n,
{
    if n >= 0 {
        vstd::arithmetic::div_mod::lemma_fundamental_div_mod(n, d);
        lemma_div_nonneg(n, d);
        let qd = (n / d) * d;
        assert(qd == d * (n / d) && qd >= 0) by (nonlinear_arith)
            requires
                qd == (n / d) * d,
                n / d >= 0,
                d > 0,
        ;
        assert(tdiv(n, d) * d == qd);
        assert(n - qd == n % d);
        assert(0 <= n % d < d);
        assert(iabs(tdiv(n, d)) * d == qd);
    } else {
        vstd::arithmetic::div_mod::lemma_fundamental_div_mod(-n, d);
        lemma_div_nonneg(-n, d);
        let p = -n;
        let qd = (p / d) * d;
        assert(qd == d * (p / d) && qd >= 0) by (nonlinear_arith)
            requires
                qd == (p / d) * d,
                p / d >= 0,
                d > 0,
        ;
        assert(tdiv(n, d) == -(p / d));
        assert(tdiv(n, d) * d == -qd) by (nonlinear_arith)
            requires
                tdiv(n, d) == -(p / d),
                qd == (p / d) * d,
        ;
        assert(p - qd == p % d);
        assert(0 <= p % d < d);
        assert(iabs(tdiv(n, d)) * d == qd);
    }
}

/// A difference bound on two values bounds the difference of their squares.
proof fn lemma_sq_diff_close(u: int, x: int, e: int, m: int)
    requires
        iabs(u - x) <= e,
        iabs(u) <= m,
        iabs(x) <= m,
        0 <= e,
        0 <= m,
    ensures
        iabs(u * u - x * x) <= 2 * e * m,
{
    assert(u * u - x * x == (u - x) * (u + x)) by (nonlinear_arith);
    assert(iabs((u - x) * (u + x)) <= 2 * e * m) by (nonlinear_arith)
        requires
            iabs(u - x) <= e,
            iabs(u) <= m,
            iabs(x) <= m,
            0 <= e,
            0 <= m,
    ;
}

/// One component of the normalization: the division by the root keeps the
/// scaled square close to the exact one.
proof fn lemma_norm_component_sq(ai: int, l: int)
    requires
        l >= SCALE - 1,
        iabs(ai) <= l + 3,
    ensures
        iabs(fdiv(ai, l) * fdiv(ai, l) * (l * l) - ai * SCALE * (ai * SCALE)) <= 2 * l * (2 * l
            * SCALE + 3 * SCALE),
        iabs(fdiv(ai, l)) <= SCALE + 4,
{
    let x = ai * SCALE;
    let r = fdiv(ai, l);
    assert(r == tdiv(x, l));
    lemma_tdiv_close(x, l);
    assert(iabs(x) <= (l + 3) * SCALE) by (nonlinear_arith)
        requires
            iabs(ai) <= l + 3,
            x == ai * SCALE,
            SCALE == 65536,
            l >= 0,
    ;
    // The quotient magnitude stays within SCALE + 4.
    assert(iabs(r) <= SCALE + 4) by (nonlinear_arith)
        requires
            iabs(r) * l <= iabs(x),
            iabs(x) <= (l + 3) * SCALE,
            l >= SCALE - 1,
            SCALE == 65536,
    ;
    assert(iabs(r * l) <= iabs(x));
    lemma_sq_diff_close(r * l, x, l, (l + 3) * SCALE);
    assert(iabs((r * l) * (r * l) - x * x) <= 2 * l * ((l + 3) * SCALE));
    assert((r * l) * (r * l) == r * r * (l * l)) by (nonlinear_arith);
    assert(2 * l * ((l + 3) * SCALE) <= 2 * l * (2 * l * SCALE + 3 * SCALE)) by (nonlinear_arith)
        requires
            l >= 0,
            SCALE == 65536,
    ;
    assert(iabs(r * r * (l * l) - x * x) <= 2 * l * (2 * l * SCALE + 3 * SCALE));
}

/// Normalizing a vector of at least unit length yields a vector whose
/// squared length, in raw form, sits within sixteen raw steps of one unit:
/// the fixed-point statement that normalization returns a unit vector.
pub proof fn lemma_norm_unit_length(a: (int, int, int))
    requires
        vdot(a, a) >= SCALE,
    ensures
        SCALE - 32 <= vdot(vnorm(a), vnorm(a)) <= SCALE + 32,
{
    let s = SCALE as int;
    let q = vdot(a, a);
    let l = isqrt_spec((q * s) as nat) as int;
    crate::fx::lemma_isqrt_bounds((q * s) as nat);
    assert(l * l <= q * s < (l + 1) * (l + 1));
    // The root is at least SCALE - 1, because q * s >= s * s.
    assert(q * s >= s * s) by (nonlinear_arith)
        requires
            q >= s,
            s == 65536,
    ;
    assert(l >= s - 1) by (nonlinear_arith)
        requires
            (l + 1) * (l + 1) > q * s,
            q * s >= s * s,
            s == 65536,
            l >= 0,
    ;
    // Relate q to the exact sum of squares.
    lemma_tdiv_close(a.0 * a.0, s);
    lemma_tdiv_close(a.1 * a.1, s);
    lemma_tdiv_close(a.2 * a.2, s);
    lemma_fmul_square_nonneg(a.0);
    lemma_fmul_square_nonneg(a.1);
    lemma_fmul_square_nonneg(a.2);
    assert(a.0 * a.0 >= 0 && a.1 * a.1 >= 0 && a.2 * a.2 >= 0) by (nonlinear_arith);
    let sumsq = a.0 * a.0 + a.1 * a.1 + a.2 * a.2;
    assert(q * s <= sumsq < q * s + 3 * s) by (nonlinear_arith)
        requires
            iabs(a.0 * a.0 - fmul(a.0, a.0) * s) < s,
            iabs(a.1 * a.1 - fmul(a.1, a.1) * s) < s,
            iabs(a.2 * a.2 - fmul(a.2, a.2) * s) < s,
            a.0 * a.0 >= fmul(a.0, a.0) * s,
            a.1 * a.1 >= fmul(a.1, a.1) * s,
            a.2 * a.2 >= fmul(a.2, a.2) * s,
            q == fmul(a.0, a.0) + fmul(a.1, a.1) + fmul(a.2, a.2),
            sumsq == a.0 * a.0 + a.1 * a.1 + a.2 * a.2,
            s == 65536,
    ;
    // Each component is within three of the root.
    assert(iabs(a.0) <= l + 3 && iabs(a.1) <= l + 3 && iabs(a.2) <= l + 3) by (nonlinear_arith)
        requires
            a.0 * a.0 <= sumsq,
            a.1 * a.1 <= sumsq,
            a.2 * a.2 <= sumsq,
            a.0 * a.0 >= 0,
            a.1 * a.1 >= 0,
            a.2 * a.2 >= 0,
            sumsq < q * s + 3 * s,
            q * s < (l + 1) * (l + 1),
            l >= s - 1,
            s == 65536,
    ;
    lemma_norm_component_sq(a.0, l);
    lemma_norm_component_sq(a.1, l);
    lemma_norm_component_sq(a.2, l);
    let r0 = fdiv(a.0, l);
    let r1 = fdiv(a.1, l);
    let r2 = fdiv(a.2, l);
    let t = r0 * r0 + r1 * r1 + r2 * r2;
    let bigl = l * l;
    assert(a.0 * s * (a.0 * s) == a.0 * a.0 * (s * s)) by (nonlinear_arith);
    assert(a.1 * s * (a.1 * s) == a.1 * a.1 * (s * s)) by (nonlinear_arith);
    assert(a.2 * s * (a.2 * s) == a.2 * a.2 * (s * s)) by (nonlinear_arith);
    // The scaled squares sum close to the exact sum of squares times s * s.
    let m = sumsq * (s * s);
    assert(iabs(t * bigl - m) <= 6 * l * (2 * l * s + 3 * s)) by (nonlinear_arith)
        requires
            iabs(r0 * r0 * (bigl) - a.0 * s * (a.0 * s)) <= 2 * l * (2 * l * s + 3 * s),
            iabs(r1 * r1 * (bigl) - a.1 * s * (a.1 * s)) <= 2 * l * (2 * l * s + 3 * s),
            iabs(r2 * r2 * (bigl) - a.2 * s * (a.2 * s)) <= 2 * l * (2 * l * s + 3 * s),
            t == r0 * r0 + r1 * r1 + r2 * r2,
            m == sumsq * (s * s),
            sumsq == a.0 * a.0 + a.1 * a.1 + a.2 * a.2,
            a.0 * s * (a.0 * s) == a.0 * a.0 * (s * s),
            a.1 * s * (a.1 * s) == a.1 * a.1 * (s * s),
            a.2 * s * (a.2 * s) == a.2 * a.2 * (s * s),
            l >= 0,
            s == 65536,
    ;
    // The error term is at most thirteen root-squares of one unit.
    assert(6 * l * (2 * l * s + 3 * s) <= 13 * bigl * s) by (nonlinear_arith)
        requires
            bigl == l * l,
            l >= s - 1,
            s == 65536,
    ;
    // The exact mass sits between the squared root and slightly above it.
    assert(bigl * (s * s) <= m) by (nonlinear_arith)
        requires
            m == sumsq * (s * s),
            sumsq >= q * s,
            q * s >= bigl,
            s == 65536,
    ;
    assert(m <= (bigl + 2 * l + 3 * s) * (s * s)) by (nonlinear_arith)
        requires
            m == sumsq * (s * s),
            sumsq < q * s + 3 * s,
            q * s < (l + 1) * (l + 1),
            bigl == l * l,
            s == 65536,
    ;
    assert((2 * l + 3 * s) * (s * s) <= 6 * bigl * s) by (nonlinear_arith)
        requires
            bigl == l * l,
            l >= s - 1,
            s == 65536,
    ;
    // Bound t against s * s from both sides, cancelling the positive factor.
    assert(t * bigl >= (s * s - 13 * s) * bigl) by (nonlinear_arith)
        requires
            t * bigl >= m - 13 * bigl * s,
            m >= bigl * (s * s),
            bigl >= 0,
            s == 65536,
    ;
    assert(t * bigl <= (s * s + 19 * s) * bigl) by (nonlinear_arith)
        requires
            t * bigl <= m + 13 * bigl * s,
            m <= bigl * (s * s) + 6 * bigl * s,
            bigl >= 0,
            s == 65536,
    ;
    assert(bigl > 0) by (nonlinear_arith)
        requires
            bigl == l * l,
            l >= s - 1,
            s == 65536,
    ;
    lemma_cancel_ge(t, s * s - 13 * s, bigl);
    lemma_cancel_le(t, s * s + 19 * s, bigl);
    // Finally the truncations of the three component squares.
    lemma_tdiv_close(r0 * r0, s);
    lemma_tdiv_close(r1 * r1, s);
    lemma_tdiv_close(r2 * r2, s);
    assert(r0 * r0 >= 0 && r1 * r1 >= 0 && r2 * r2 >= 0) by (nonlinear_arith);
    let w = vdot(vnorm(a), vnorm(a));
    assert(vnorm(a) == (r0, r1, r2));
    assert(w == fmul(r0, r0) + fmul(r1, r1) + fmul(r2, r2));
    assert(s - 16 <= w <= s + 19) by (nonlinear_arith)
        requires
            w == fmul(r0, r0) + fmul(r1, r1) + fmul(r2, r2),
            iabs(r0 * r0 - fmul(r0, r0) * s) < s,
            iabs(r1 * r1 - fmul(r1, r1) * s) < s,
            r0 * r0 >= fmul(r0, r0) * s,
            r1 * r1 >= fmul(r1, r1) * s,
            r2 * r2 >= fmul(r2, r2) * s,
            s * s - 13 * s <= r0 * r0 + r1 * r1 + r2 * r2 <= s * s + 19 * s,
            s == 65536,
    ;
}

proof fn lemma_cancel_ge(t: int, b: int, k: int) by (nonlinear_arith)
    requires
        t * k >= b * k,
        k > 0,
    ensures
        t >= b,
{
}

proof fn lemma_cancel_le(t: int, b: int, k: int) by (nonlinear_arith)
    requires
        t * k <= b * k,
        k > 0,
    ensures
        t <= b,
{
}

} // verus!
