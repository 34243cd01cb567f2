use vstd::prelude::*;
use vstd::arithmetic::div_mod::lemma_div_is_ordered;

verus! {

/// Fixed-point scale: every scalar of the tracer is an integer count of
/// 1/65536 units, so that all geometry is verified over exact integers.
pub const SCALE: i64 = 65536;

/// Absolute value of a mathematical integer.
pub open spec fn abs_i(a: int) -> int {
    if a >= 0 { a } else { -a }
}

/// Truncating (round-toward-zero) division: the rounding that all scaled
/// arithmetic in this crate uses.
pub open spec fn div_t(a: int, b: int) -> int
    recommends b != 0,
{
    if (a >= 0) == (b >= 0) { abs_i(a) / abs_i(b) } else { -(abs_i(a) / abs_i(b)) }
}

/// Product of two scaled values, rescaled: the model of `a * b` on reals.
pub open spec fn mul_fx(a: int, b: int) -> int {
    div_t(a * b, SCALE as int)
}

/// Quotient of two scaled values, rescaled: the model of `a / b` on reals.
pub open spec fn div_fx(a: int, b: int) -> int
    recommends b != 0,
{
    div_t(a * (SCALE as int), b)
}

/// `r` is the integer square root of `n`.
pub open spec fn is_sqrt(n: int, r: int) -> bool {
    0 <= r && r * r <= n && n < (r + 1) * (r + 1)
}

/// The integer square root as a spec-level value.
pub open spec fn sqrt_i(n: int) -> int {
    choose|r: int| is_sqrt(n, r)
}

pub proof fn lemma_sqrt_unique(n: int, r1: int, r2: int)
    requires
        is_sqrt(n, r1),
        is_sqrt(n, r2),
    ensures
        r1 == r2,
{
    if r1 < r2 {
        assert(false) by (nonlinear_arith)
            requires 0 <= r1 < r2, n < (r1 + 1) * (r1 + 1), r2 * r2 <= n;
    }
    if r2 < r1 {
        assert(false) by (nonlinear_arith)
            requires 0 <= r2 < r1, n < (r2 + 1) * (r2 + 1), r1 * r1 <= n;
    }
}

pub proof fn lemma_sqrt_is(n: int, r: int)
    requires
        is_sqrt(n, r),
    ensures
        sqrt_i(n) == r,
{
    assert(is_sqrt(n, sqrt_i(n)));
    lemma_sqrt_unique(n, sqrt_i(n), r);
}

/// A value whose square is at most `n` is at most the square root of `n`.
pub proof fn lemma_sqrt_le(n: int, r: int, c: int)
    requires
        is_sqrt(n, r),
        c * c <= n,
    ensures
        abs_i(c) <= r,
{
    if abs_i(c) > r {
        assert(false) by (nonlinear_arith)
            requires 0 <= r, abs_i(c) > r, n < (r + 1) * (r + 1), c * c <= n,
                abs_i(c) == if c >= 0 { c } else { -c };
    }
}

/// |a * b| == |a| * |b|.
pub proof fn lemma_abs_mul(a: int, b: int)
    ensures
        abs_i(a * b) == abs_i(a) * abs_i(b),
{
    assert(abs_i(a * b) == abs_i(a) * abs_i(b)) by (nonlinear_arith);
}

/// Truncating division shrinks the magnitude: |a / b| <= |a| / |b|.
pub proof fn lemma_div_t_abs(a: int, b: int)
    requires
        b != 0,
    ensures
        abs_i(div_t(a, b)) == abs_i(a) / abs_i(b),
        abs_i(div_t(a, b)) <= abs_i(a),
{
    assert(abs_i(a) / abs_i(b) >= 0) by (nonlinear_arith)
        requires abs_i(a) >= 0, abs_i(b) >= 1;
    assert(abs_i(a) / abs_i(b) <= abs_i(a)) by (nonlinear_arith)
        requires abs_i(a) >= 0, abs_i(b) >= 1;
}

/// Bound on a rescaled product from bounds on its factors.
pub proof fn lemma_mul_fx_bound(a: int, b: int, ba: int, bb: int)
    requires
        abs_i(a) <= ba,
        abs_i(b) <= bb,
    ensures
        abs_i(mul_fx(a, b)) <= ba * bb / (SCALE as int),
        abs_i(a * b) <= ba * bb,
{
    lemma_abs_mul(a, b);
    assert(abs_i(a) * abs_i(b) <= ba * bb) by (nonlinear_arith)
        requires 0 <= abs_i(a) <= ba, 0 <= abs_i(b) <= bb;
    lemma_div_t_abs(a * b, SCALE as int);
    lemma_div_is_ordered(abs_i(a * b), ba * bb, SCALE as int);
}

/// Integer square root of a 128-bit value, by binary search.
pub fn isqrt(n: u128) -> (r: u128)
    ensures
        is_sqrt(n as int, r as int),
        r as int == sqrt_i(n as int),
        r <= 0xffff_ffff_ffff_ffffu128,
{
    let mut lo: u128 = 0;
    let mut hi: u128 = 0x1_0000_0000_0000_0000u128;
    proof {
        assert((hi as int) * (hi as int) > n as int) by (nonlinear_arith)
            requires hi == 0x1_0000_0000_0000_0000u128, n <= u128::MAX;
    }
    while lo + 1 < hi
        invariant
            lo < hi <= 0x1_0000_0000_0000_0000u128,
            (lo as int) * (lo as int) <= n as int,
            (hi as int) * (hi as int) > n as int,
        decreases hi - lo,
    {
        let mid = lo + (hi - lo) / 2;
        proof {
            assert((mid as int) * (mid as int) <= u128::MAX as int) by (nonlinear_arith)
                requires mid < 0x1_0000_0000_0000_0000u128;
        }
        if mid * mid <= n {
            lo = mid;
        } else {
            hi = mid;
        }
    }
    proof {
        lemma_sqrt_is(n as int, lo as int);
    }
    lo
}

/// Truncating division of a 128-bit value by a positive divisor.
pub fn div_t_i128(a: i128, b: i128) -> (q: i128)
    requires
        b > 0,
        a > i128::MIN,
    ensures
        q as int == div_t(a as int, b as int),
        abs_i(q as int) <= abs_i(a as int),
{
    let neg = a < 0;
    let m: u128 = if neg { (-a) as u128 } else { a as u128 };
    let q0 = m / (b as u128);
    proof {
        lemma_div_t_abs(a as int, b as int);
    }
    if neg {
        -(q0 as i128)
    } else {
        q0 as i128
    }
}

/// Rescaled product of two scaled values; exact fixed-point `a * b`.
pub fn fmul(a: i64, b: i64) -> (r: i64)
    requires
        abs_i(mul_fx(a as int, b as int)) <= i64::MAX as int,
    ensures
        r as int == mul_fx(a as int, b as int),
{
    proof {
        assert(i128::MIN < (a as int) * (b as int) <= i128::MAX) by (nonlinear_arith)
            requires i64::MIN <= a <= i64::MAX, i64::MIN <= b <= i64::MAX;
    }
    let p: i128 = (a as i128) * (b as i128);
    let q = div_t_i128(p, 65536);
    q as i64
}

/// Rescaled quotient of two scaled values; exact fixed-point `a / b`.
pub fn fdiv(a: i64, b: i64) -> (r: i64)
    requires
        b != 0,
        abs_i(div_fx(a as int, b as int)) <= i64::MAX as int,
    ensures
        r as int == div_fx(a as int, b as int),
{
    let neg = (a < 0) != (b < 0);
    let ua: u128 = if a < 0 { (-(a as i128)) as u128 } else { a as u128 };
    let ub: u128 = if b < 0 { (-(b as i128)) as u128 } else { b as u128 };
    let q0 = (ua * 65536) / ub;
    proof {
        assert(ua * 65536 == abs_i((a as int) * 65536)) by (nonlinear_arith)
            requires ua == abs_i(a as int), i64::MIN <= a <= i64::MAX;
        assert(abs_i(div_fx(a as int, b as int)) == abs_i((a as int) * 65536) / abs_i(b as int)
            && ((a as int) * 65536 >= 0) == (a >= 0)) by {
            lemma_div_t_abs((a as int) * 65536, b as int);
            assert((a as int) * 65536 >= 0 <==> a >= 0) by (nonlinear_arith);
        }
    }
    if neg {
        (-(q0 as i128)) as i64
    } else {
        q0 as i64
    }
}

/// Truncating division of a scaled value by a positive plain integer.
pub fn idiv(a: i64, b: i64) -> (r: i64)
    requires
        b > 0,
    ensures
        r as int == div_t(a as int, b as int),
        abs_i(r as int) <= abs_i(a as int),
{
    let q = div_t_i128(a as i128, b as i128);
    q as i64
}

/// A product of unit-interval factors stays under either factor: the heart
/// of the energy argument (attenuation never amplifies).
pub proof fn lemma_mul_fx_unit(a: int, b: int)
    requires
        0 <= a,
        0 <= b <= 65536,
    ensures
        0 <= mul_fx(a, b) <= a,
{
    assert(0 <= a * b <= a * 65536) by (nonlinear_arith)
        requires 0 <= a, 0 <= b <= 65536;
    lemma_div_is_ordered(a * b, a * 65536, 65536);
    vstd::arithmetic::div_mod::lemma_div_multiples_vanish(a, 65536);
    assert(a * 65536 == 65536 * a) by (nonlinear_arith);
    lemma_div_t_abs(a * b, 65536);
    assert(abs_i(a * b) == a * b);
    assert(div_t(a * b, 65536) == a * b / 65536);
}

/// Every nonnegative integer has an integer square root.
pub proof fn lemma_sqrt_exists(n: int)
    requires
        n >= 0,
    ensures
        is_sqrt(n, sqrt_i(n)),
    decreases n,
{
    if n == 0 {
        assert(is_sqrt(0, 0)) by (nonlinear_arith);
    } else {
        lemma_sqrt_exists(n - 1);
        let r = sqrt_i(n - 1);
        if n < (r + 1) * (r + 1) {
            assert(is_sqrt(n, r));
        } else {
            assert(n == (r + 1) * (r + 1));
            assert(n < (r + 2) * (r + 2)) by (nonlinear_arith)
                requires n == (r + 1) * (r + 1), r >= 0;
            assert(is_sqrt(n, r + 1));
        }
        assert(exists|q: int| is_sqrt(n, q));
    }
}

/// Truncating division lands within one divisor of the dividend:
/// |div_t(a, b) * b - a| < b for positive b.
pub proof fn lemma_div_t_close(a: int, b: int)
    requires
        b >= 1,
    ensures
        abs_i(div_t(a, b) * b - a) < b,
{
    if a >= 0 {
        vstd::arithmetic::div_mod::lemma_fundamental_div_mod(a, b);
        assert(div_t(a, b) == a / b);
        assert(a / b * b == a - a % b) by (nonlinear_arith)
            requires a == b * (a / b) + a % b;
        vstd::arithmetic::div_mod::lemma_mod_bound(a, b);
    } else {
        let m = -a;
        vstd::arithmetic::div_mod::lemma_fundamental_div_mod(m, b);
        assert(div_t(a, b) == -(m / b));
        assert((-(m / b)) * b - a == m % b) by (nonlinear_arith)
            requires m == b * (m / b) + m % b, a == -m;
        vstd::arithmetic::div_mod::lemma_mod_bound(m, b);
    }
}

} // verus!
