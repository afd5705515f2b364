//! Planar vectors over fixed-point (integer) coordinates, with exact
//! specifications for every operation: squared length, integer square roots
//! rounded both ways, rescaling a vector to a target length, and clamping a
//! vector's length.
//!
//! Lengths are irrational in general, so the operations round: a length used
//! to *limit* a vector rounds up (the limit is then never exceeded), while a
//! length used as a *budget* rounds down (the budget is then never overdrawn).

use vstd::prelude::*;
use vstd::arithmetic::div_mod::{
    lemma_div_pos_is_pos, lemma_fundamental_div_mod, lemma_mod_bound,
};

verus! {

/// Largest component magnitude accepted by the length-based operations;
/// keeps every intermediate product inside `u64`.
pub const COMP_LIMIT: i64 = 2_000_000_000;

/// Largest scale target accepted by `with_length` and `clamp_length_max`.
pub const SCALE_LIMIT: u64 = 4_000_000_000;

/// A planar vector; each component counts fixed-point subunits.
#[derive(Clone, Copy, Debug, PartialEq, Eq, Structural)]
pub struct Vec2 {
    pub x: i64,
    pub y: i64,
}

/// The mathematical value of a `Vec2`: a pair of unbounded integers.
pub struct V2 {
    pub x: int,
    pub y: int,
}

impl View for Vec2 {
    type V = V2;

    open spec fn view(&self) -> V2 {
        V2 { x: self.x as int, y: self.y as int }
    }
}

pub open spec fn v2_zero() -> V2 {
    V2 { x: 0, y: 0 }
}

pub open spec fn abs_i(a: int) -> int {
    if a < 0 {
        -a
    } else {
        a
    }
}

pub open spec fn v2_add_s(a: V2, b: V2) -> V2 {
    V2 { x: a.x + b.x, y: a.y + b.y }
}

pub open spec fn v2_neg_s(a: V2) -> V2 {
    V2 { x: -a.x, y: -a.y }
}

pub open spec fn v2_scale_s(a: V2, c: int) -> V2 {
    V2 { x: a.x * c, y: a.y * c }
}

/// Squared Euclidean length.
pub open spec fn len2_s(v: V2) -> int {
    v.x * v.x + v.y * v.y
}

pub open spec fn dot_s(a: V2, b: V2) -> int {
    a.x * b.x + a.y * b.y
}

/// Both components lie within `[-b, b]`.
pub open spec fn in_range(v: V2, b: int) -> bool {
    -b <= v.x <= b && -b <= v.y <= b
}

/// Division that truncates toward zero (the behaviour of machine-integer
/// division), defined for positive divisors.
pub open spec fn sdiv(a: int, b: int) -> int {
    if a >= 0 {
        a / b
    } else {
        -((-a) / b)
    }
}

/// Integer square root, rounded down.
pub open spec fn sqrt_floor(n: int) -> int
    decreases n,
{
    if n <= 0 {
        0
    } else {
        let r = sqrt_floor(n - 1);
        if (r + 1) * (r + 1) <= n {
            r + 1
        } else {
            r
        }
    }
}

/// Integer square root, rounded up.
pub open spec fn sqrt_ceil(n: int) -> int {
    if sqrt_floor(n) * sqrt_floor(n) == n {
        sqrt_floor(n)
    } else {
        sqrt_floor(n) + 1
    }
}

pub proof fn lemma_sqrt_floor(n: int)
    requires
        n >= 0,
    ensures
        sqrt_floor(n) >= 0,
        sqrt_floor(n) * sqrt_floor(n) <= n,
        n < (sqrt_floor(n) + 1) * (sqrt_floor(n) + 1),
    decreases n,
{
    if n == 0 {
    } else {
        lemma_sqrt_floor(n - 1);
        let r = sqrt_floor(n - 1);
        if (r + 1) * (r + 1) <= n {
            assert((r + 1) * (r + 1) < (r + 2) * (r + 2)) by (nonlinear_arith)
                requires
                    r >= 0,
            ;
        }
    }
}

pub proof fn lemma_sqrt_floor_unique(n: int, r: int)
    requires
        n >= 0,
        r >= 0,
        r * r <= n,
        n < (r + 1) * (r + 1),
    ensures
        r == sqrt_floor(n),
{
    lemma_sqrt_floor(n);
    let f = sqrt_floor(n);
    if r < f {
        assert((r + 1) * (r + 1) <= f * f) by (nonlinear_arith)
            requires
                0 <= r,
                r < f,
        ;
    }
    if f < r {
        assert((f + 1) * (f + 1) <= r * r) by (nonlinear_arith)
            requires
                0 <= f,
                f < r,
        ;
    }
}

pub proof fn lemma_sqrt_ceil(n: int)
    requires
        n >= 0,
    ensures
        sqrt_ceil(n) >= 0,
        n <= sqrt_ceil(n) * sqrt_ceil(n),
        n == 0 ==> sqrt_ceil(n) == 0,
        n > 0 ==> sqrt_ceil(n) >= 1,
{
    lemma_sqrt_floor(n);
    let f = sqrt_floor(n);
    if f * f == n {
        if n > 0 {
            assert(f >= 1) by (nonlinear_arith)
                requires
                    f >= 0,
                    f * f > 0,
            ;
        }
    } else {
        assert(n <= (f + 1) * (f + 1));
    }
}

/// The rounded-up square root never exceeds a bound whose square covers `n`.
pub proof fn lemma_sqrt_ceil_le(n: int, m: int)
    requires
        n >= 0,
        m >= 0,
        n <= m * m,
    ensures
        sqrt_ceil(n) <= m,
{
    lemma_sqrt_floor(n);
    let f = sqrt_floor(n);
    if f * f == n {
        if f > m {
            assert(m * m < f * f) by (nonlinear_arith)
                requires
                    0 <= m,
                    m < f,
            ;
        }
    } else {
        if f >= m {
            assert(m * m <= f * f) by (nonlinear_arith)
                requires
                    0 <= m,
                    m <= f,
            ;
        }
    }
}

/// Truncating division shrinks: the quotient times the divisor stays within
/// the dividend, and the quotient keeps the dividend's sign (or is zero).
pub proof fn lemma_sdiv_bounds(a: int, b: int)
    requires
        b > 0,
    ensures
        abs_i(sdiv(a, b)) * b <= abs_i(a),
        sdiv(a, b) * sdiv(a, b) * (b * b) <= a * a,
        a >= 0 ==> sdiv(a, b) >= 0,
        a <= 0 ==> sdiv(a, b) <= 0,
{
    let m = abs_i(a);
    lemma_div_pos_is_pos(m, b);
    lemma_fundamental_div_mod(m, b);
    lemma_mod_bound(m, b);
    let q = m / b;
    assert(q * b <= m);
    if a >= 0 {
        assert(sdiv(a, b) == q);
    } else {
        assert(sdiv(a, b) == -q);
    }
    assert(abs_i(sdiv(a, b)) == q);
    assert(q * q * (b * b) <= m * m) by (nonlinear_arith)
        requires
            q >= 0,
            b > 0,
            m >= 0,
            q * b <= m,
    ;
    assert(sdiv(a, b) * sdiv(a, b) == q * q) by (nonlinear_arith)
        requires
            sdiv(a, b) == q || sdiv(a, b) == -q,
    ;
    assert(m * m == a * a) by (nonlinear_arith)
        requires
            m == a || m == -a,
    ;
}

/// Truncating division is bounded by any multiple that covers the dividend.
pub proof fn lemma_sdiv_le(a: int, b: int, c: int)
    requires
        b > 0,
        c >= 0,
        abs_i(a) <= c * b,
    ensures
        abs_i(sdiv(a, b)) <= c,
{
    lemma_sdiv_bounds(a, b);
    let q = abs_i(sdiv(a, b));
    assert(q <= c) by (nonlinear_arith)
        requires
            q * b <= c * b,
            b > 0,
    ;
}

pub proof fn lemma_len2_nonneg(v: V2)
    ensures
        len2_s(v) >= 0,
        v.x * v.x <= len2_s(v),
        v.y * v.y <= len2_s(v),
{
    assert(v.x * v.x >= 0) by (nonlinear_arith);
    assert(v.y * v.y >= 0) by (nonlinear_arith);
}

/// A square below `m * m` keeps its base within `[-m, m]`.
pub proof fn lemma_abs_le_of_sq(a: int, m: int)
    requires
        m >= 0,
        a * a <= m * m,
    ensures
        -m <= a <= m,
{
    if a > m {
        assert(m * m < a * a) by (nonlinear_arith)
            requires
                0 <= m,
                m < a,
        ;
    }
    if a < -m {
        assert(m * m < a * a) by (nonlinear_arith)
            requires
                0 <= m,
                a < -m,
        ;
    }
}

proof fn lemma_sq_nonneg(a: int)
    by (nonlinear_arith)
    ensures
        a * a >= 0,
{
}

proof fn lemma_sq_zero(a: int)
    by (nonlinear_arith)
    requires
        a * a <= 0,
    ensures
        a == 0,
{
}

proof fn lemma_two_uv(u: int, v: int)
    by (nonlinear_arith)
    ensures
        2 * (u * v) <= u * u + v * v,
{
}

proof fn lemma_mul_rearrange(a: int, b: int, p: int, q: int)
    by (nonlinear_arith)
    ensures
        (q * a) * (p * b) == (p * q) * (a * b),
        (q * a) * (q * a) == (q * q) * (a * a),
        (p * b) * (p * b) == (p * p) * (b * b),
{
}

proof fn lemma_mul_distrib(c: int, u: int, v: int)
    by (nonlinear_arith)
    ensures
        c * (u + v) == c * u + c * v,
{
}

proof fn lemma_mul_le(c: int, x: int, y: int)
    by (nonlinear_arith)
    requires
        c >= 0,
        x <= y,
    ensures
        c * x <= c * y,
{
}

proof fn lemma_mul_comm(x: int, y: int)
    by (nonlinear_arith)
    ensures
        x * y == y * x,
{
}

proof fn lemma_cancel_le(d: int, k: int)
    by (nonlinear_arith)
    requires
        k >= 1,
        k * d <= k * k,
    ensures
        d <= k,
{
}

pub proof fn lemma_sq_mono(a: int, b: int)
    by (nonlinear_arith)
    requires
        0 <= a <= b,
    ensures
        a * a <= b * b,
{
}

proof fn lemma_mul_ge_one(p: int, q: int)
    by (nonlinear_arith)
    requires
        p >= 1,
        q >= 1,
    ensures
        p * q >= 1,
{
}

/// The dot product of two vectors fits under the product of radii that cover
/// them.
pub proof fn lemma_dot_le(a: V2, b: V2, p: int, q: int)
    requires
        p >= 0,
        q >= 0,
        len2_s(a) <= p * p,
        len2_s(b) <= q * q,
    ensures
        dot_s(a, b) <= p * q,
{
    lemma_sq_nonneg(a.x);
    lemma_sq_nonneg(a.y);
    lemma_sq_nonneg(b.x);
    lemma_sq_nonneg(b.y);
    if p == 0 {
        lemma_sq_zero(a.x);
        lemma_sq_zero(a.y);
        assert(dot_s(a, b) == 0);
    } else if q == 0 {
        lemma_sq_zero(b.x);
        lemma_sq_zero(b.y);
        assert(dot_s(a, b) == 0);
    } else {
        lemma_two_uv(q * a.x, p * b.x);
        lemma_two_uv(q * a.y, p * b.y);
        lemma_mul_rearrange(a.x, b.x, p, q);
        lemma_mul_rearrange(a.y, b.y, p, q);
        lemma_mul_distrib(p * q, a.x * b.x, a.y * b.y);
        lemma_mul_distrib(q * q, a.x * a.x, a.y * a.y);
        lemma_mul_distrib(p * p, b.x * b.x, b.y * b.y);
        lemma_mul_le(q * q, len2_s(a), p * p);
        lemma_mul_le(p * p, len2_s(b), q * q);
        lemma_mul_comm(q * q, p * p);
        lemma_prod_sq_swap(p, q);
        assert((p * q) * dot_s(a, b) <= (p * q) * (p * q));
        lemma_mul_ge_one(p, q);
        lemma_cancel_le(dot_s(a, b), p * q);
    }
}

/// Triangle inequality in squared form: if two vectors fit in radii `p` and
/// `q`, their sum fits in radius `p + q`.
pub proof fn lemma_triangle_cap(a: V2, b: V2, p: int, q: int)
    requires
        p >= 0,
        q >= 0,
        len2_s(a) <= p * p,
        len2_s(b) <= q * q,
    ensures
        len2_s(v2_add_s(a, b)) <= (p + q) * (p + q),
{
    lemma_len2_nonneg(a);
    lemma_len2_nonneg(b);
    lemma_dot_le(a, b, p, q);
    lemma_add_expand(a.x, a.y, b.x, b.y);
    lemma_sq_sum_expand(p, q);
}

proof fn lemma_add_expand(x1: int, y1: int, x2: int, y2: int)
    by (nonlinear_arith)
    ensures
        (x1 + x2) * (x1 + x2) + (y1 + y2) * (y1 + y2) == (x1 * x1 + y1 * y1) + 2 * (x1 * x2 + y1
            * y2) + (x2 * x2 + y2 * y2),
{
}

proof fn lemma_sq_sum_expand(p: int, q: int)
    by (nonlinear_arith)
    ensures
        (p + q) * (p + q) == p * p + 2 * (p * q) + q * q,
{
}

/// Each component scaled by `m / d`, truncating toward zero.
pub open spec fn scale_div_s(v: V2, m: int, d: int) -> V2 {
    V2 { x: sdiv(v.x * m, d), y: sdiv(v.y * m, d) }
}

/// The vector rescaled toward length `m`: zero stays zero, anything else is
/// divided by its length rounded up, so the result never exceeds `m`. The
/// divisions round toward zero, so on a short vector the result can fall
/// well below `m`; callers that need the length close to `m` magnify the
/// vector first.
pub open spec fn with_length_s(v: V2, m: int) -> V2 {
    if len2_s(v) == 0 {
        v2_zero()
    } else {
        scale_div_s(v, m, sqrt_ceil(len2_s(v)))
    }
}

/// The vector unchanged if its length is within `m`, else rescaled to `m`.
pub open spec fn clamp_len_s(v: V2, m: int) -> V2 {
    if len2_s(v) <= m * m {
        v
    } else {
        with_length_s(v, m)
    }
}

/// Scaling by `m / d` with `m <= d` shrinks each component and the length.
pub proof fn lemma_scale_div_shrinks(v: V2, m: int, d: int)
    requires
        0 <= m <= d,
        d > 0,
    ensures
        abs_i(scale_div_s(v, m, d).x) <= abs_i(v.x),
        abs_i(scale_div_s(v, m, d).y) <= abs_i(v.y),
        len2_s(scale_div_s(v, m, d)) <= len2_s(v),
{
    let r = scale_div_s(v, m, d);
    assert(abs_i(v.x * m) <= abs_i(v.x) * d) by (nonlinear_arith)
        requires
            0 <= m <= d,
    ;
    assert(abs_i(v.y * m) <= abs_i(v.y) * d) by (nonlinear_arith)
        requires
            0 <= m <= d,
    ;
    lemma_sdiv_le(v.x * m, d, abs_i(v.x));
    lemma_sdiv_le(v.y * m, d, abs_i(v.y));
    assert(r.x * r.x <= v.x * v.x) by (nonlinear_arith)
        requires
            abs_i(r.x) <= abs_i(v.x),
            abs_i(r.x) == r.x || abs_i(r.x) == -r.x,
            abs_i(v.x) == v.x || abs_i(v.x) == -v.x,
            abs_i(r.x) >= 0,
    ;
    assert(r.y * r.y <= v.y * v.y) by (nonlinear_arith)
        requires
            abs_i(r.y) <= abs_i(v.y),
            abs_i(r.y) == r.y || abs_i(r.y) == -r.y,
            abs_i(v.y) == v.y || abs_i(v.y) == -v.y,
            abs_i(r.y) >= 0,
    ;
}

/// Rescaling toward length `m` lands within radius `m`, componentwise too,
/// and keeps (or zeroes) the sign of each component.
pub proof fn lemma_with_length_bound(v: V2, m: int)
    requires
        m >= 0,
    ensures
        len2_s(with_length_s(v, m)) <= m * m,
        in_range(with_length_s(v, m), m),
        v.x >= 0 ==> with_length_s(v, m).x >= 0,
        v.x <= 0 ==> with_length_s(v, m).x <= 0,
        v.y >= 0 ==> with_length_s(v, m).y >= 0,
        v.y <= 0 ==> with_length_s(v, m).y <= 0,
{
    lemma_len2_nonneg(v);
    let r = with_length_s(v, m);
    if len2_s(v) == 0 {
        lemma_sq_nonneg(m);
        assert(r == v2_zero());
        assert(len2_s(r) == 0);
    } else {
        let n = len2_s(v);
        let l = sqrt_ceil(n);
        lemma_sqrt_ceil(n);
        lemma_sdiv_bounds(v.x * m, l);
        lemma_sdiv_bounds(v.y * m, l);
        lemma_scaled_len2_cap(r.x, r.y, v.x, v.y, m, l);
        assert(len2_s(r) <= m * m);
        lemma_len2_nonneg(r);
        lemma_abs_le_of_sq(r.x, m);
        lemma_abs_le_of_sq(r.y, m);
        lemma_mul_sign(v.x, m);
        lemma_mul_sign(v.y, m);
    }
}

/// Core of the rescaling bound: if each scaled component, times the rounded-up
/// length, stays within the exact product, the scaled vector fits in radius
/// `m`.
proof fn lemma_scaled_len2_cap(rx: int, ry: int, vx: int, vy: int, m: int, l: int)
    requires
        l >= 1,
        vx * vx + vy * vy <= l * l,
        rx * rx * (l * l) <= (vx * m) * (vx * m),
        ry * ry * (l * l) <= (vy * m) * (vy * m),
    ensures
        rx * rx + ry * ry <= m * m,
{
    lemma_prod_sq_swap(vx, m);
    lemma_prod_sq_swap(vy, m);
    lemma_sq_nonneg(rx);
    lemma_sq_nonneg(ry);
    lemma_sq_nonneg(m);
    lemma_mul_ge_one(l, l);
    lemma_scaled_len2_cancel(
        rx * rx,
        ry * ry,
        vx * vx,
        vy * vy,
        m * m,
        l * l,
    );
}

proof fn lemma_prod_sq_swap(a: int, b: int)
    by (nonlinear_arith)
    ensures
        (a * b) * (a * b) == (a * a) * (b * b),
{
}

proof fn lemma_scaled_len2_cancel(ra: int, rb: int, na: int, nb: int, msq: int, lsq: int)
    by (nonlinear_arith)
    requires
        lsq >= 1,
        ra >= 0,
        rb >= 0,
        msq >= 0,
        na + nb <= lsq,
        ra * lsq <= na * msq,
        rb * lsq <= nb * msq,
    ensures
        ra + rb <= msq,
{
}

proof fn lemma_mul_sign(a: int, m: int)
    by (nonlinear_arith)
    requires
        m >= 0,
    ensures
        a >= 0 ==> a * m >= 0,
        a <= 0 ==> a * m <= 0,
{
}

/// Clamping lands within radius `m`, componentwise too, and keeps (or
/// zeroes) the sign of each component.
pub proof fn lemma_clamp_len_bound(v: V2, m: int)
    requires
        m >= 0,
    ensures
        len2_s(clamp_len_s(v, m)) <= m * m,
        in_range(clamp_len_s(v, m), m),
        v.x >= 0 ==> clamp_len_s(v, m).x >= 0,
        v.x <= 0 ==> clamp_len_s(v, m).x <= 0,
        v.y >= 0 ==> clamp_len_s(v, m).y >= 0,
        v.y <= 0 ==> clamp_len_s(v, m).y <= 0,
{
    if len2_s(v) <= m * m {
        lemma_len2_nonneg(v);
        lemma_abs_le_of_sq(v.x, m);
        lemma_abs_le_of_sq(v.y, m);
    } else {
        lemma_with_length_bound(v, m);
    }
}

fn abs64(x: i64) -> (r: u64)
    requires
        x > i64::MIN,
    ensures
        r as int == abs_i(x as int),
{
    if x < 0 {
        (-x) as u64
    } else {
        x as u64
    }
}

proof fn lemma_neg_mul(a: int, b: int)
    by (nonlinear_arith)
    ensures
        (-a) * b == -(a * b),
{
}

/// `x * m / d` with truncation toward zero, exactly `sdiv(x * m, d)`.
pub fn scale_component(x: i64, m: u64, d: u64) -> (r: i64)
    requires
        d >= 1,
        x > i64::MIN,
        abs_i(x as int) * m <= i64::MAX,
    ensures
        r as int == sdiv(x as int * m as int, d as int),
{
    proof {
        lemma_mul_sign(x as int, m as int);
        lemma_neg_mul(x as int, m as int);
    }
    let ax = abs64(x);
    let p = ax * m;
    let q = p / d;
    proof {
        vstd::arithmetic::div_mod::lemma_div_nonincreasing(p as int, d as int);
        if x as int * m as int == 0 {
            vstd::arithmetic::div_mod::lemma_div_of0(d as int);
        }
    }
    if x < 0 {
        -(q as i64)
    } else {
        q as i64
    }
}

/// Integer square root by bisection, rounded down.
pub fn isqrt64(n: u64) -> (r: u64)
    ensures
        r as int == sqrt_floor(n as int),
        r <= 4_294_967_295,
{
    let mut lo: u64 = 0;
    let mut hi: u64 = 4_294_967_296;
    while lo + 1 < hi
        invariant
            lo < hi <= 4_294_967_296,
            lo as int * lo as int <= n as int,
            n < hi as int * hi as int,
        decreases hi - lo,
    {
        let mid = lo + (hi - lo) / 2;
        proof {
            assert((mid as int) * (mid as int) <= 18_446_744_073_709_551_616int) by (nonlinear_arith)
                requires
                    0 <= mid <= 4_294_967_296,
            ;
        }
        if (mid as u128) * (mid as u128) <= n as u128 {
            lo = mid;
        } else {
            hi = mid;
        }
    }
    proof {
        lemma_sqrt_floor_unique(n as int, lo as int);
    }
    lo
}

/// Integer square root, rounded up.
pub fn sqrt_ceil64(n: u64) -> (r: u64)
    ensures
        r as int == sqrt_ceil(n as int),
{
    let f = isqrt64(n);
    proof {
        assert((f as int) * (f as int) <= 18_446_744_073_709_551_616int) by (nonlinear_arith)
            requires
                0 <= f <= 4_294_967_296,
        ;
    }
    if (f as u128) * (f as u128) == n as u128 {
        f
    } else {
        f + 1
    }
}

/// Squared length, exact.
pub fn len2_of(v: &Vec2) -> (n: u64)
    requires
        in_range(v@, COMP_LIMIT as int),
    ensures
        n as int == len2_s(v@),
{
    let ax = abs64(v.x);
    let ay = abs64(v.y);
    proof {
        assert(ax as int * ax as int == v@.x * v@.x && ax as int * ax as int
            <= 4_000_000_000_000_000_000) by (nonlinear_arith)
            requires
                ax as int == abs_i(v@.x),
                ax == v@.x || ax == -v@.x,
                ax <= 2_000_000_000,
        ;
        assert(ay as int * ay as int == v@.y * v@.y && ay as int * ay as int
            <= 4_000_000_000_000_000_000) by (nonlinear_arith)
            requires
                ay as int == abs_i(v@.y),
                ay == v@.y || ay == -v@.y,
                ay <= 2_000_000_000,
        ;
    }
    ax * ax + ay * ay
}

/// Length rounded down: the speed a budget may rely on.
pub fn length_floor(v: &Vec2) -> (r: u64)
    requires
        in_range(v@, COMP_LIMIT as int),
    ensures
        r as int == sqrt_floor(len2_s(v@)),
{
    isqrt64(len2_of(v))
}

/// Length rounded up: the speed a limit must assume.
pub fn length_ceil(v: &Vec2) -> (r: u64)
    requires
        in_range(v@, COMP_LIMIT as int),
    ensures
        r as int == sqrt_ceil(len2_s(v@)),
{
    sqrt_ceil64(len2_of(v))
}

impl Vec2 {
    pub fn new(x: i64, y: i64) -> (v: Vec2)
        ensures
            v@ == (V2 { x: x as int, y: y as int }),
    {
        Vec2 { x, y }
    }

    pub fn zero() -> (v: Vec2)
        ensures
            v@ == v2_zero(),
    {
        Vec2 { x: 0, y: 0 }
    }

    /// Componentwise sum.
    pub fn plus(&self, other: &Vec2) -> (r: Vec2)
        requires
            i64::MIN <= self@.x + other@.x <= i64::MAX,
            i64::MIN <= self@.y + other@.y <= i64::MAX,
        ensures
            r@ == v2_add_s(self@, other@),
    {
        Vec2 { x: self.x + other.x, y: self.y + other.y }
    }

    /// Componentwise negation.
    pub fn negated(&self) -> (r: Vec2)
        requires
            self@.x > i64::MIN,
            self@.y > i64::MIN,
        ensures
            r@ == v2_neg_s(self@),
    {
        Vec2 { x: -self.x, y: -self.y }
    }
}

/// The vector rescaled toward length `m`: zero stays zero, anything else is
/// scaled by `m` over its rounded-up length, so the result never exceeds `m`
/// (and, on a short vector, can fall well below it; see `with_length_s`).
pub fn with_length(v: &Vec2, m: u64) -> (r: Vec2)
    requires
        in_range(v@, COMP_LIMIT as int),
        m <= SCALE_LIMIT,
    ensures
        r@ == with_length_s(v@, m as int),
        in_range(r@, m as int),
        len2_s(r@) <= m * m,
{
    proof {
        lemma_with_length_bound(v@, m as int);
    }
    let n = len2_of(v);
    if n == 0 {
        Vec2::zero()
    } else {
        let l = sqrt_ceil64(n);
        proof {
            lemma_len2_nonneg(v@);
            lemma_sqrt_ceil(n as int);
            assert(abs_i(v@.x) * m <= i64::MAX && abs_i(v@.y) * m <= i64::MAX)
                by (nonlinear_arith)
                requires
                    abs_i(v@.x) <= 2_000_000_000,
                    abs_i(v@.y) <= 2_000_000_000,
                    m <= 4_000_000_000,
            ;
        }
        Vec2 { x: scale_component(v.x, m, l), y: scale_component(v.y, m, l) }
    }
}

/// The vector unchanged if its length is within `m`, else rescaled to `m`.
pub fn clamp_length_max(v: &Vec2, m: u64) -> (r: Vec2)
    requires
        in_range(v@, COMP_LIMIT as int),
        m <= SCALE_LIMIT,
    ensures
        r@ == clamp_len_s(v@, m as int),
        in_range(r@, m as int),
        len2_s(r@) <= m * m,
{
    proof {
        lemma_clamp_len_bound(v@, m as int);
        assert(m as int * m as int <= u64::MAX) by (nonlinear_arith)
            requires
                m <= 4_000_000_000,
        ;
    }
    let n = len2_of(v);
    if n <= m * m {
        *v
    } else {
        with_length(v, m)
    }
}

} // verus!
