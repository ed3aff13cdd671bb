//! Fixed-point real numbers.
//!
//! A [`Scalar`] stands for the real number `raw / ONE_RAW`, so that one unit
//! of `raw` is one billionth. Every operation computes its exact result over
//! the integers, rounds it toward zero where it is not a whole number of
//! units, and saturates it to the symmetric range `-LIMIT_RAW ..= LIMIT_RAW`.
//! Nothing here overflows, divides by zero or panics: the largest value plays
//! the part of infinity.
//!
//! The model of a scalar is its raw count of units, an `int`; the spec
//! functions of this module are the arithmetic of those counts.
use vstd::prelude::*;

verus! {

/// The raw value of the number one: the units in a whole.
pub const ONE_RAW: i64 = 1_000_000_000;

/// The raw value of one half.
pub const HALF_RAW: i64 = 500_000_000;

/// The largest raw value; the smallest is its negative.
pub const LIMIT_RAW: i64 = 4_500_000_000_000_000_000;

/// The length, in units, to which a vector is stretched before its
/// direction is taken.
pub const FINE_RAW: i64 = 4_000_000_000_000_000_000;

/// Whether a count of units can be held by a [`Scalar`].
pub open spec fn in_range(x: int) -> bool {
    -LIMIT_RAW <= x <= LIMIT_RAW
}

/// The value in range that is nearest to `x`.
pub open spec fn sat(x: int) -> int {
    if x < -LIMIT_RAW {
        -LIMIT_RAW as int
    } else if x > LIMIT_RAW {
        LIMIT_RAW as int
    } else {
        x
    }
}

/// The quotient of `n` by `d`, rounded toward zero; zero where `d` is zero.
pub open spec fn quot(n: int, d: int) -> int {
    if d > 0 {
        if n >= 0 {
            n / d
        } else {
            -((-n) / d)
        }
    } else if d < 0 {
        if n >= 0 {
            -(n / (-d))
        } else {
            (-n) / (-d)
        }
    } else {
        0
    }
}

/// The integer square root: the largest `r` with `r * r <= n`, and zero for
/// a negative `n`.
pub open spec fn isqrt(n: int) -> int
    decreases n,
{
    if n <= 0 {
        0
    } else {
        let r = 2 * isqrt(n / 4);
        if (r + 1) * (r + 1) <= n {
            r + 1
        } else {
            r
        }
    }
}

/// The sum, saturated.
pub open spec fn add_spec(a: int, b: int) -> int {
    sat(a + b)
}

/// The difference, saturated.
pub open spec fn sub_spec(a: int, b: int) -> int {
    sat(a - b)
}

/// The opposite number, which is in range where the number is.
pub open spec fn neg_spec(a: int) -> int {
    -a
}

/// The absolute value.
pub open spec fn abs_spec(a: int) -> int {
    if a < 0 {
        -a
    } else {
        a
    }
}

/// The lesser of two numbers.
pub open spec fn min_spec(a: int, b: int) -> int {
    if a <= b {
        a
    } else {
        b
    }
}

/// The product, rounded toward zero and saturated.
pub open spec fn mul_spec(a: int, b: int) -> int {
    sat(quot(a * b, ONE_RAW as int))
}

/// Division. A division by zero gives the limit with the sign of the
/// dividend, and zero for zero by zero.
pub open spec fn div_spec(a: int, b: int) -> int {
    if b == 0 {
        if a > 0 {
            LIMIT_RAW as int
        } else if a < 0 {
            -LIMIT_RAW as int
        } else {
            0
        }
    } else {
        sat(quot(a * ONE_RAW, b))
    }
}

/// The square root, rounded down; zero for a negative number.
pub open spec fn sqrt_spec(a: int) -> int {
    isqrt(a * ONE_RAW)
}

/// `a1 * b1 + a2 * b2 + a3 * b3`, rounded once.
pub open spec fn dot3_spec(a1: int, b1: int, a2: int, b2: int, a3: int, b3: int) -> int {
    sat(quot(a1 * b1 + a2 * b2 + a3 * b3, ONE_RAW as int))
}

/// `a * b - c * d`, rounded once.
pub open spec fn det2_spec(a: int, b: int, c: int, d: int) -> int {
    sat(quot(a * b - c * d, ONE_RAW as int))
}

/// The square root of `a * a + b * b + c * c`, rounded down once.
pub open spec fn hypot3_spec(a: int, b: int, c: int) -> int {
    sat(isqrt(a * a + b * b + c * c))
}

/// The component `c` of a vector of length `len`, stretched so that the
/// vector gets the length `FINE_RAW`.
pub open spec fn stretch_spec(c: int, len: int) -> int {
    quot(c * FINE_RAW, len)
}

/// The vector of length one along `(a, b, c)`; the zero vector as it is.
/// The vector is first stretched to a length of `FINE_RAW` units, so that
/// its length is known to eighteen digits, and then shrunk by that length.
pub open spec fn unit3_spec(a: int, b: int, c: int) -> (int, int, int) {
    let len = hypot3_spec(a, b, c);
    if len == 0 {
        (a, b, c)
    } else {
        let x = stretch_spec(a, len);
        let y = stretch_spec(b, len);
        let z = stretch_spec(c, len);
        let fine = isqrt(x * x + y * y + z * z);
        (quot(x * ONE_RAW, fine), quot(y * ONE_RAW, fine), quot(z * ONE_RAW, fine))
    }
}

/// The whole part of a number, saturated to `0 ..= top`.
pub open spec fn whole_spec(a: int, top: int) -> int {
    let w = quot(a, ONE_RAW as int);
    if w < 0 {
        0
    } else if w > top {
        top
    } else {
        w
    }
}

/// The integer square root squares to at most `n`, and the next integer to
/// more than `n`.
pub proof fn lemma_isqrt_bounds(n: int)
    requires
        n >= 0,
    ensures
        0 <= isqrt(n),
        isqrt(n) * isqrt(n) <= n < (isqrt(n) + 1) * (isqrt(n) + 1),
    decreases n,
{
    if n > 0 {
        let m = n / 4;
        let s = isqrt(m);
        lemma_isqrt_bounds(m);
        let r = 2 * s;
        assert(r * r <= n && n < (r + 2) * (r + 2)) by (nonlinear_arith)
            requires
                r == 2 * s,
                0 <= s,
                s * s <= m < (s + 1) * (s + 1),
                4 * m <= n < 4 * m + 4,
        ;
        assert((r + 1 + 1) * (r + 1 + 1) == (r + 2) * (r + 2));
    }
}

/// Only one number is the integer square root of `n`.
pub proof fn lemma_isqrt_unique(n: int, r: int)
    requires
        0 <= r,
        r * r <= n < (r + 1) * (r + 1),
    ensures
        r == isqrt(n),
{
    assert(n >= 0) by (nonlinear_arith)
        requires
            r * r <= n,
    ;
    lemma_isqrt_bounds(n);
    let s = isqrt(n);
    assert(r == s) by (nonlinear_arith)
        requires
            0 <= r,
            0 <= s,
            r * r <= n < (r + 1) * (r + 1),
            s * s <= n < (s + 1) * (s + 1),
    ;
}

/// The integer square root does not decrease with its argument.
pub proof fn lemma_isqrt_monotone(a: int, b: int)
    requires
        a <= b,
    ensures
        isqrt(a) <= isqrt(b),
{
    if a > 0 {
        lemma_isqrt_bounds(a);
        lemma_isqrt_bounds(b);
        let r = isqrt(a);
        let s = isqrt(b);
        assert(r <= s) by (nonlinear_arith)
            requires
                0 <= r,
                0 <= s,
                r * r <= a,
                a <= b,
                b < (s + 1) * (s + 1),
        ;
    } else if b >= 0 {
        lemma_isqrt_bounds(b);
    }
}

/// Rounding toward zero commutes with negation.
pub proof fn lemma_quot_neg(n: int, d: int)
    ensures
        quot(-n, d) == -quot(n, d),
{
    if d > 0 {
        if n == 0 {
            assert(0int / d == 0) by (nonlinear_arith)
                requires
                    d > 0,
            ;
        }
    } else if d < 0 {
        if n == 0 {
            assert(0int / (-d) == 0) by (nonlinear_arith)
                requires
                    d < 0,
            ;
        }
    }
}

/// Negating the divisor negates the rounded quotient.
pub proof fn lemma_quot_neg_divisor(n: int, d: int)
    ensures
        quot(n, -d) == -quot(n, d),
{
    if d != 0 && n == 0 {
        assert(0int / d == 0 && 0int / (-d) == 0) by (nonlinear_arith)
            requires
                d != 0,
        ;
    }
}

/// Negating the dividend negates the quotient, and so does negating a
/// divisor other than zero.
pub proof fn lemma_div_spec_neg(a: int, b: int)
    ensures
        div_spec(-a, b) == -div_spec(a, b),
        b != 0 ==> div_spec(a, -b) == -div_spec(a, b),
{
    assert((-a) * ONE_RAW == -(a * ONE_RAW));
    lemma_quot_neg(a * ONE_RAW, b);
    lemma_quot_neg_divisor(a * ONE_RAW, b);
}

/// Negating one of the two vectors negates their dot product.
pub proof fn lemma_dot3_spec_neg(a1: int, b1: int, a2: int, b2: int, a3: int, b3: int)
    ensures
        dot3_spec(a1, -b1, a2, -b2, a3, -b3) == -dot3_spec(a1, b1, a2, b2, a3, b3),
        dot3_spec(-a1, b1, -a2, b2, -a3, b3) == -dot3_spec(a1, b1, a2, b2, a3, b3),
{
    assert(a1 * (-b1) + a2 * (-b2) + a3 * (-b3) == -(a1 * b1 + a2 * b2 + a3 * b3))
        by (nonlinear_arith);
    assert((-a1) * b1 + (-a2) * b2 + (-a3) * b3 == -(a1 * b1 + a2 * b2 + a3 * b3))
        by (nonlinear_arith);
    lemma_quot_neg(a1 * b1 + a2 * b2 + a3 * b3, ONE_RAW as int);
}

/// The dot product does not depend on the order of the two vectors.
pub proof fn lemma_dot3_spec_symmetric(a1: int, b1: int, a2: int, b2: int, a3: int, b3: int)
    ensures
        dot3_spec(a1, b1, a2, b2, a3, b3) == dot3_spec(b1, a1, b2, a2, b3, a3),
{
    assert(a1 * b1 + a2 * b2 + a3 * b3 == b1 * a1 + b2 * a2 + b3 * a3) by (nonlinear_arith);
}

/// A whole multiple of the divisor is divided without rounding.
pub proof fn lemma_quot_exact(k: int, d: int)
    requires
        d > 0,
    ensures
        quot(k * d, d) == k,
{
    if k >= 0 {
        assert(k * d >= 0 && (k * d) / d == k) by (nonlinear_arith)
            requires
                k >= 0,
                d > 0,
        ;
    } else {
        assert(k * d < 0 && (-(k * d)) / d == -k) by (nonlinear_arith)
            requires
                k < 0,
                d > 0,
        ;
    }
}

/// A quotient of nothing or less by nothing or more is nothing or less.
pub proof fn lemma_div_spec_sign(a: int, b: int)
    requires
        a <= 0,
        b >= 0,
    ensures
        div_spec(a, b) <= 0,
{
    if b > 0 {
        assert((-(a * ONE_RAW)) / b >= 0) by (nonlinear_arith)
            requires
                a * ONE_RAW <= 0,
                b > 0,
        ;
        if a == 0 {
            assert(0int / b == 0) by (nonlinear_arith)
                requires
                    b > 0,
            ;
        }
    }
}

/// The square root of a number is at most `bound` where the number is at
/// most the square of `bound`.
pub proof fn lemma_sqrt_spec_below(a: int, bound: int)
    requires
        0 <= bound,
        a * ONE_RAW <= bound * bound,
    ensures
        sqrt_spec(a) <= bound,
{
    lemma_isqrt_monotone(a * ONE_RAW, bound * bound);
    assert(bound * bound < (bound + 1) * (bound + 1)) by (nonlinear_arith)
        requires
            0 <= bound,
    ;
    lemma_isqrt_unique(bound * bound, bound);
}

/// The rounded quotient by a positive divisor lies within one divisor of the
/// exact one, on the side of zero.
pub proof fn lemma_quot_bounds(n: int, d: int)
    requires
        d > 0,
    ensures
        n >= 0 ==> 0 <= quot(n, d) && quot(n, d) * d <= n < quot(n, d) * d + d,
        n <= 0 ==> quot(n, d) <= 0 && quot(n, d) * d - d < n <= quot(n, d) * d,
{
    if n >= 0 {
        let q = n / d;
        assert(0 <= q && q * d <= n < q * d + d) by (nonlinear_arith)
            requires
                n >= 0,
                d > 0,
                q == n / d,
        ;
    } else {
        let q = (-n) / d;
        assert(0 <= q && q * d <= -n < q * d + d) by (nonlinear_arith)
            requires
                -n >= 0,
                d > 0,
                q == (-n) / d,
        ;
        assert((-q) * d == -(q * d)) by (nonlinear_arith);
    }
}

/// The rounded quotient by a positive divisor does not decrease with the
/// dividend.
pub proof fn lemma_quot_monotone(n: int, m: int, d: int)
    requires
        n <= m,
        d > 0,
    ensures
        quot(n, d) <= quot(m, d),
{
    if n >= 0 {
        assert(n / d <= m / d) by (nonlinear_arith)
            requires
                0 <= n <= m,
                d > 0,
        ;
    } else if m >= 0 {
        assert((-n) / d >= 0 && m / d >= 0) by (nonlinear_arith)
            requires
                n < 0 <= m,
                d > 0,
        ;
    } else {
        assert((-m) / d <= (-n) / d) by (nonlinear_arith)
            requires
                0 < -m <= -n,
                d > 0,
        ;
    }
}

/// Whether `rounded` units stand for `exact` billionths of a unit, rounded
/// toward zero: the two differ by less than one unit.
pub open spec fn rounds_to(exact: int, rounded: int) -> bool {
    exact - ONE_RAW < rounded * ONE_RAW < exact + ONE_RAW
}

/// A product that is held without saturation is the exact product, rounded.
pub proof fn lemma_mul_spec_rounds(a: int, b: int)
    requires
        in_range(quot(a * b, ONE_RAW as int)),
    ensures
        rounds_to(a * b, mul_spec(a, b)),
{
    lemma_quot_bounds(a * b, ONE_RAW as int);
}

/// A quotient that is held without saturation, times its divisor, differs
/// from the dividend by less than the divisor.
pub proof fn lemma_div_spec_rounds(a: int, b: int)
    requires
        b != 0,
        in_range(quot(a * ONE_RAW, b)),
    ensures
        -abs_spec(b) < div_spec(a, b) * b - a * ONE_RAW < abs_spec(b),
{
    let n = a * ONE_RAW;
    let q = quot(n, b);
    if b > 0 {
        lemma_quot_bounds(n, b);
    } else {
        lemma_quot_bounds(n, -b);
        lemma_quot_neg_divisor(n, -b);
        assert(quot(n, -b) * (-b) == q * b) by (nonlinear_arith)
            requires
                quot(n, -b) == -q,
        ;
    }
}

/// The square root of a number that is not negative squares to at most the
/// number, and the next scalar above it to more.
pub proof fn lemma_sqrt_spec_rounds(a: int)
    requires
        a >= 0,
    ensures
        0 <= sqrt_spec(a),
        sqrt_spec(a) * sqrt_spec(a) <= a * ONE_RAW < (sqrt_spec(a) + 1) * (sqrt_spec(a) + 1),
{
    lemma_isqrt_bounds(a * ONE_RAW);
}

/// No component of a vector is longer than the vector.
pub proof fn lemma_component_below_hypot(a: int, b: int, c: int)
    requires
        in_range(a),
        in_range(b),
        in_range(c),
    ensures
        -hypot3_spec(a, b, c) <= a <= hypot3_spec(a, b, c),
        0 <= hypot3_spec(a, b, c),
        hypot3_spec(a, b, c) * hypot3_spec(a, b, c) <= a * a + b * b + c * c,
{
    let n = a * a + b * b + c * c;
    assert(a * a >= 0 && b * b >= 0 && c * c >= 0) by (nonlinear_arith);
    lemma_isqrt_bounds(n);
    let r = isqrt(n);
    let len = hypot3_spec(a, b, c);
    if r <= LIMIT_RAW {
        assert(-r <= a <= r) by (nonlinear_arith)
            requires
                0 <= r,
                a * a <= n,
                n < (r + 1) * (r + 1),
        ;
    } else {
        assert(len * len <= r * r) by (nonlinear_arith)
            requires
                0 <= len <= r,
        ;
    }
}

/// A quotient of a product by a divisor at least as large as one factor is
/// no larger than the other factor.
proof fn lemma_quot_scaled(c: int, len: int, scale: int) -> (q: int)
    requires
        len > 0,
        scale > 0,
        -len <= c <= len,
    ensures
        q == quot(c * scale, len),
        -scale <= q <= scale,
        abs_spec(q) * len <= abs_spec(c) * scale < (abs_spec(q) + 1) * len,
        q * q * (len * len) <= c * c * (scale * scale),
        (abs_spec(q) + 1) * (abs_spec(q) + 1) * (len * len) > c * c * (scale * scale),
{
    let q = quot(c * scale, len);
    let m = abs_spec(c);
    let a = abs_spec(q);
    lemma_quot_bounds(c * scale, len);
    assert(c >= 0 ==> c * scale >= 0) by (nonlinear_arith)
        requires
            scale > 0,
    ;
    assert(c <= 0 ==> c * scale <= 0) by (nonlinear_arith)
        requires
            scale > 0,
    ;
    assert((-c) * scale == -(c * scale)) by (nonlinear_arith);
    assert((-q) * len == -(q * len)) by (nonlinear_arith);
    assert(a * len <= m * scale < a * len + len);
    assert((a + 1) * len == a * len + len) by (nonlinear_arith);
    assert(a <= scale) by (nonlinear_arith)
        requires
            a * len <= m * scale,
            0 <= m <= len,
            len > 0,
            a >= 0,
            scale > 0,
    ;
    assert(a * a * (len * len) <= m * m * (scale * scale)) by (nonlinear_arith)
        requires
            0 <= a * len <= m * scale,
    ;
    assert((a + 1) * (a + 1) * (len * len) > m * m * (scale * scale)) by (nonlinear_arith)
        requires
            0 <= m * scale < (a + 1) * len,
    ;
    assert(a * a == q * q && m * m == c * c) by (nonlinear_arith)
        requires
            a == q || a == -q,
            m == c || m == -c,
    ;
    q
}

/// The sum of the squares of three quotients, each of a component by the
/// length of the vector and times `scale`: it is at most the squared scale
/// times the squared vector over the squared length, and the sum with each
/// quotient raised by one is more.
proof fn lemma_scaled_squares(a: int, b: int, c: int, len: int, scale: int)
    requires
        len > 0,
        scale > 0,
        -len <= a <= len,
        -len <= b <= len,
        -len <= c <= len,
    ensures
        ({
            let x = quot(a * scale, len);
            let y = quot(b * scale, len);
            let z = quot(c * scale, len);
            let n = a * a + b * b + c * c;
            &&& -scale <= x <= scale && -scale <= y <= scale && -scale <= z <= scale
            &&& (x * x + y * y + z * z) * (len * len) <= n * (scale * scale)
            &&& (x * x + y * y + z * z + 2 * (abs_spec(x) + abs_spec(y) + abs_spec(z)) + 3) * (len
                * len) > n * (scale * scale)
        }),
{
    let x = lemma_quot_scaled(a, len, scale);
    let y = lemma_quot_scaled(b, len, scale);
    let z = lemma_quot_scaled(c, len, scale);
    let sq = len * len;
    let unit = scale * scale;
    let ax = abs_spec(x);
    let ay = abs_spec(y);
    let az = abs_spec(z);
    assert((x * x + y * y + z * z) * sq <= (a * a + b * b + c * c) * unit) by (nonlinear_arith)
        requires
            x * x * sq <= a * a * unit,
            y * y * sq <= b * b * unit,
            z * z * sq <= c * c * unit,
    ;
    assert(((ax + 1) * (ax + 1) + (ay + 1) * (ay + 1) + (az + 1) * (az + 1)) * sq > (a * a + b * b
        + c * c) * unit) by (nonlinear_arith)
        requires
            (ax + 1) * (ax + 1) * sq > a * a * unit,
            (ay + 1) * (ay + 1) * sq > b * b * unit,
            (az + 1) * (az + 1) * sq > c * c * unit,
    ;
    assert((ax + 1) * (ax + 1) + (ay + 1) * (ay + 1) + (az + 1) * (az + 1) == x * x + y * y + z * z
        + 2 * (ax + ay + az) + 3) by (nonlinear_arith)
        requires
            ax == x || ax == -x,
            ay == y || ay == -y,
            az == z || az == -z,
    ;
}

/// A vector that is not zero is stretched to a length that falls short of
/// `FINE_RAW` by at most four units, and no stretched component is longer
/// than that.
pub proof fn lemma_stretched_length(a: int, b: int, c: int)
    requires
        in_range(a),
        in_range(b),
        in_range(c),
        hypot3_spec(a, b, c) != 0,
    ensures
        ({
            let len = hypot3_spec(a, b, c);
            let x = stretch_spec(a, len);
            let y = stretch_spec(b, len);
            let z = stretch_spec(c, len);
            let fine = isqrt(x * x + y * y + z * z);
            &&& 0 < len
            &&& FINE_RAW - 4 <= fine
            &&& -fine <= x <= fine && -fine <= y <= fine && -fine <= z <= fine
            &&& unit3_spec(a, b, c) == (
                quot(x * ONE_RAW, fine),
                quot(y * ONE_RAW, fine),
                quot(z * ONE_RAW, fine),
            )
        }),
{
    let big = FINE_RAW as int;
    let len = hypot3_spec(a, b, c);
    let n = a * a + b * b + c * c;
    lemma_component_below_hypot(a, b, c);
    lemma_component_below_hypot(b, a, c);
    lemma_component_below_hypot(c, a, b);
    assert(b * b + a * a + c * c == n && c * c + a * a + b * b == n);
    lemma_scaled_squares(a, b, c, len, big);
    let x = stretch_spec(a, len);
    let y = stretch_spec(b, len);
    let z = stretch_spec(c, len);
    let n1 = x * x + y * y + z * z;
    let s1 = abs_spec(x) + abs_spec(y) + abs_spec(z);
    assert(x * x >= 0 && y * y >= 0 && z * z >= 0) by (nonlinear_arith);
    assert(n1 + 2 * s1 + 3 > big * big) by (nonlinear_arith)
        requires
            (n1 + 2 * s1 + 3) * (len * len) > n * (big * big),
            n >= len * len,
            len > 0,
            big > 0,
    ;
    assert((big - 4) * (big - 4) <= n1) by (nonlinear_arith)
        requires
            n1 + 2 * s1 + 3 > big * big,
            0 <= s1 <= 3 * big,
            big == 4_000_000_000_000_000_000,
    ;
    lemma_isqrt_bounds(n1);
    let fine = isqrt(n1);
    lemma_isqrt_monotone((big - 4) * (big - 4), n1);
    assert((big - 4) * (big - 4) < (big - 4 + 1) * (big - 4 + 1)) by (nonlinear_arith)
        requires
            big == 4_000_000_000_000_000_000,
    ;
    lemma_isqrt_unique((big - 4) * (big - 4), big - 4);
    assert(-fine <= x <= fine && -fine <= y <= fine && -fine <= z <= fine) by (nonlinear_arith)
        requires
            0 <= fine,
            x * x + y * y + z * z < (fine + 1) * (fine + 1),
            x * x >= 0,
            y * y >= 0,
            z * z >= 0,
    ;
}

/// Three quotients, each of a number times `scale` by `len`, weighted and
/// added, times `len`: the sum differs from `scale` times the weighted sum
/// of the numbers by at most `len` times the sum of the weights' absolute
/// values, for each quotient is rounded by less than one.
pub proof fn lemma_weighted_quotients(
    a: int,
    b: int,
    c: int,
    wa: int,
    wb: int,
    wc: int,
    scale: int,
    len: int,
)
    requires
        len > 0,
    ensures
        ({
            let x = quot(a * scale, len);
            let y = quot(b * scale, len);
            let z = quot(c * scale, len);
            let weights = abs_spec(wa) + abs_spec(wb) + abs_spec(wc);
            let rounded = (x * wa + y * wb + z * wc) * len;
            let exact = scale * (a * wa + b * wb + c * wc);
            exact - len * weights <= rounded <= exact + len * weights
        }),
{
    let x = quot(a * scale, len);
    let y = quot(b * scale, len);
    let z = quot(c * scale, len);
    lemma_quot_bounds(a * scale, len);
    lemma_quot_bounds(b * scale, len);
    lemma_quot_bounds(c * scale, len);
    let ra = x * len - a * scale;
    let rb = y * len - b * scale;
    let rc = z * len - c * scale;
    assert(-len < ra < len && -len < rb < len && -len < rc < len);
    assert(ra * wa == (x * wa) * len - scale * (a * wa)) by (nonlinear_arith)
        requires
            ra == x * len - a * scale,
    ;
    assert(rb * wb == (y * wb) * len - scale * (b * wb)) by (nonlinear_arith)
        requires
            rb == y * len - b * scale,
    ;
    assert(rc * wc == (z * wc) * len - scale * (c * wc)) by (nonlinear_arith)
        requires
            rc == z * len - c * scale,
    ;
    let p = x * wa;
    let q = y * wb;
    let r = z * wc;
    assert((p + q + r) * len == p * len + q * len + r * len) by (nonlinear_arith);
    let i = a * wa;
    let j = b * wb;
    let k = c * wc;
    assert(scale * (i + j + k) == scale * i + scale * j + scale * k) by (nonlinear_arith);
    lemma_bounded_product(ra, wa, len);
    lemma_bounded_product(rb, wb, len);
    lemma_bounded_product(rc, wc, len);
    assert(len * (abs_spec(wa) + abs_spec(wb) + abs_spec(wc)) == len * abs_spec(wa) + len
        * abs_spec(wb) + len * abs_spec(wc)) by (nonlinear_arith);
}

/// The product of a number within `bound` of zero and a weight lies within
/// `bound` times the weight's absolute value of zero.
proof fn lemma_bounded_product(r: int, w: int, bound: int)
    requires
        -bound <= r <= bound,
    ensures
        -(bound * abs_spec(w)) <= r * w <= bound * abs_spec(w),
{
    let m = abs_spec(w);
    assert(-(bound * m) <= r * w <= bound * m) by (nonlinear_arith)
        requires
            -bound <= r <= bound,
            m >= 0,
            w == m || w == -m,
    ;
}

/// The direction of a vector is parallel to the vector, up to rounding:
/// for two components `a` and `b` of the vector and the components `u` and
/// `v` of its direction that stand for them, `u * b` and `v * a` differ by
/// less than twice the sum of the absolute values of `a` and `b`, however
/// long or short the vector is.
pub proof fn lemma_unit3_parallel(a: int, b: int, c: int)
    requires
        in_range(a),
        in_range(b),
        in_range(c),
        hypot3_spec(a, b, c) != 0,
    ensures
        ({
            let u = unit3_spec(a, b, c);
            &&& -2 * (abs_spec(a) + abs_spec(b)) <= u.0 * b - u.1 * a <= 2 * (abs_spec(a)
                + abs_spec(b))
            &&& -2 * (abs_spec(b) + abs_spec(c)) <= u.1 * c - u.2 * b <= 2 * (abs_spec(b)
                + abs_spec(c))
            &&& -2 * (abs_spec(c) + abs_spec(a)) <= u.2 * a - u.0 * c <= 2 * (abs_spec(c)
                + abs_spec(a))
        }),
{
    assert(a * b + b * (-a) + c * 0 == 0) by (nonlinear_arith);
    assert(a * 0 + b * c + c * (-b) == 0) by (nonlinear_arith);
    assert(a * (-c) + b * 0 + c * a == 0) by (nonlinear_arith);
    lemma_unit3_turned(a, b, c, b, -a, 0);
    lemma_unit3_turned(a, b, c, 0, c, -b);
    lemma_unit3_turned(a, b, c, -c, 0, a);
    let u = unit3_spec(a, b, c);
    assert(u.0 * b + u.1 * (-a) + u.2 * 0 == u.0 * b - u.1 * a) by (nonlinear_arith);
    assert(u.0 * 0 + u.1 * c + u.2 * (-b) == u.1 * c - u.2 * b) by (nonlinear_arith);
    assert(u.0 * (-c) + u.1 * 0 + u.2 * a == u.2 * a - u.0 * c) by (nonlinear_arith);
}

/// The direction of a vector, weighted by weights at right angles to the
/// vector, adds up to less than twice the sum of the weights' absolute
/// values.
proof fn lemma_unit3_turned(a: int, b: int, c: int, wa: int, wb: int, wc: int)
    requires
        in_range(a),
        in_range(b),
        in_range(c),
        hypot3_spec(a, b, c) != 0,
        a * wa + b * wb + c * wc == 0,
    ensures
        ({
            let u = unit3_spec(a, b, c);
            let weights = abs_spec(wa) + abs_spec(wb) + abs_spec(wc);
            -2 * weights <= u.0 * wa + u.1 * wb + u.2 * wc <= 2 * weights
        }),
{
    let one = ONE_RAW as int;
    let big = FINE_RAW as int;
    let len = hypot3_spec(a, b, c);
    lemma_stretched_length(a, b, c);
    let x = stretch_spec(a, len);
    let y = stretch_spec(b, len);
    let z = stretch_spec(c, len);
    let fine = isqrt(x * x + y * y + z * z);
    let weights = abs_spec(wa) + abs_spec(wb) + abs_spec(wc);
    lemma_weighted_quotients(a, b, c, wa, wb, wc, big, len);
    let xw = x * wa + y * wb + z * wc;
    assert(big * (a * wa + b * wb + c * wc) == 0);
    assert(-weights <= xw <= weights) by (nonlinear_arith)
        requires
            -(len * weights) <= xw * len <= len * weights,
            len > 0,
    ;
    lemma_weighted_quotients(x, y, z, wa, wb, wc, one, fine);
    let u = unit3_spec(a, b, c);
    let uw = u.0 * wa + u.1 * wb + u.2 * wc;
    assert(-2 * weights <= uw <= 2 * weights) by (nonlinear_arith)
        requires
            one * xw - fine * weights <= uw * fine <= one * xw + fine * weights,
            -weights <= xw <= weights,
            fine >= one,
            one > 0,
            weights >= 0,
    ;
}

/// The direction of a vector that is not zero has length one, up to the
/// last digits of a scalar: none of its components exceeds one, and its
/// squared length is at most one and less than one by at most four
/// billionths.
pub proof fn lemma_unit3_length(a: int, b: int, c: int)
    requires
        in_range(a),
        in_range(b),
        in_range(c),
        hypot3_spec(a, b, c) != 0,
    ensures
        ({
            let u = unit3_spec(a, b, c);
            &&& -ONE_RAW <= u.0 <= ONE_RAW
            &&& -ONE_RAW <= u.1 <= ONE_RAW
            &&& -ONE_RAW <= u.2 <= ONE_RAW
            &&& ONE_RAW - 4 <= dot3_spec(u.0, u.0, u.1, u.1, u.2, u.2) <= ONE_RAW
        }),
{
    let one = ONE_RAW as int;
    let big = FINE_RAW as int;
    let len = hypot3_spec(a, b, c);
    let n = a * a + b * b + c * c;
    lemma_component_below_hypot(a, b, c);
    lemma_component_below_hypot(b, a, c);
    lemma_component_below_hypot(c, a, b);
    assert(b * b + a * a + c * c == n && c * c + a * a + b * b == n);
    lemma_scaled_squares(a, b, c, len, big);
    let x = stretch_spec(a, len);
    let y = stretch_spec(b, len);
    let z = stretch_spec(c, len);
    let n1 = x * x + y * y + z * z;
    let s1 = abs_spec(x) + abs_spec(y) + abs_spec(z);
    assert(x * x >= 0 && y * y >= 0 && z * z >= 0) by (nonlinear_arith);
    // the stretched vector is nearly as long as it is meant to be
    assert(n1 + 2 * s1 + 3 > big * big) by (nonlinear_arith)
        requires
            (n1 + 2 * s1 + 3) * (len * len) > n * (big * big),
            n >= len * len,
            len > 0,
            big > 0,
    ;
    assert((big - 4) * (big - 4) <= n1) by (nonlinear_arith)
        requires
            n1 + 2 * s1 + 3 > big * big,
            0 <= s1 <= 3 * big,
            big == 4_000_000_000_000_000_000,
    ;
    lemma_isqrt_bounds(n1);
    let fine = isqrt(n1);
    lemma_isqrt_monotone((big - 4) * (big - 4), n1);
    assert((big - 4) * (big - 4) < (big - 4 + 1) * (big - 4 + 1)) by (nonlinear_arith)
        requires
            big == 4_000_000_000_000_000_000,
    ;
    lemma_isqrt_unique((big - 4) * (big - 4), big - 4);
    assert(fine >= big - 4);
    assert(-fine <= x <= fine && -fine <= y <= fine && -fine <= z <= fine) by (nonlinear_arith)
        requires
            0 <= fine,
            x * x + y * y + z * z < (fine + 1) * (fine + 1),
            x * x >= 0,
            y * y >= 0,
            z * z >= 0,
    ;
    lemma_scaled_squares(x, y, z, fine, one);
    let u = unit3_spec(a, b, c);
    assert(u == (quot(x * one, fine), quot(y * one, fine), quot(z * one, fine)));
    let total = u.0 * u.0 + u.1 * u.1 + u.2 * u.2;
    let s = abs_spec(u.0) + abs_spec(u.1) + abs_spec(u.2);
    assert(u.0 * u.0 >= 0 && u.1 * u.1 >= 0 && u.2 * u.2 >= 0) by (nonlinear_arith);
    // at most one: the length is known to more digits than a scalar holds
    assert(total <= one * one) by (nonlinear_arith)
        requires
            total * (fine * fine) <= n1 * (one * one),
            n1 < (fine + 1) * (fine + 1),
            fine >= 3_999_999_999_999_999_996,
            one == 1_000_000_000,
            total >= 0,
    ;
    // at least one less four units
    assert(total + 2 * s + 3 > one * one) by (nonlinear_arith)
        requires
            (total + 2 * s + 3) * (fine * fine) > n1 * (one * one),
            n1 >= fine * fine,
            fine > 0,
            one > 0,
    ;
    let p = abs_spec(u.0);
    let q = abs_spec(u.1);
    let r = abs_spec(u.2);
    assert(p * p == u.0 * u.0 && q * q == u.1 * u.1 && r * r == u.2 * u.2) by (nonlinear_arith)
        requires
            p == u.0 || p == -u.0,
            q == u.1 || q == -u.1,
            r == u.2 || r == -u.2,
    ;
    assert(s * s <= 3 * total) by (nonlinear_arith)
        requires
            s == p + q + r,
            total == p * p + q * q + r * r,
    ;
    assert(s <= 1_732_050_808) by (nonlinear_arith)
        requires
            s * s <= 3 * total,
            total <= one * one,
            one == 1_000_000_000,
            s >= 0,
    ;
    lemma_quot_bounds(total, one);
}

/// A fixed-point real number.
#[derive(Clone, Copy, Debug)]
pub struct Scalar {
    raw: i64,
}

impl View for Scalar {
    type V = int;

    /// The count of units that the scalar holds.
    closed spec fn view(&self) -> int {
        self.raw as int
    }
}

impl Scalar {
    #[verifier::type_invariant]
    spec fn within_limit(self) -> bool {
        -LIMIT_RAW <= self.raw <= LIMIT_RAW
    }

    /// The scalar of `raw` units, saturated.
    pub fn from_raw(raw: i64) -> (r: Scalar)
        ensures
            r@ == sat(raw as int),
    {
        if raw < -LIMIT_RAW {
            Scalar { raw: -LIMIT_RAW }
        } else if raw > LIMIT_RAW {
            Scalar { raw: LIMIT_RAW }
        } else {
            Scalar { raw }
        }
    }

    fn from_wide(wide: i128) -> (r: Scalar)
        ensures
            r@ == sat(wide as int),
    {
        if wide < -(LIMIT_RAW as i128) {
            Scalar { raw: -LIMIT_RAW }
        } else if wide > LIMIT_RAW as i128 {
            Scalar { raw: LIMIT_RAW }
        } else {
            Scalar { raw: wide as i64 }
        }
    }

    /// The count of units, which is always in range.
    pub fn raw(self) -> (r: i64)
        ensures
            r == self@,
            in_range(self@),
    {
        proof {
            use_type_invariant(self);
        }
        self.raw
    }

    /// The number zero.
    pub fn zero() -> (r: Scalar)
        ensures
            r@ == 0,
    {
        Scalar { raw: 0 }
    }

    /// The number one.
    pub fn one() -> (r: Scalar)
        ensures
            r@ == ONE_RAW,
    {
        Scalar { raw: ONE_RAW }
    }

    /// The largest scalar, which bounds a range that has no upper end.
    pub fn limit() -> (r: Scalar)
        ensures
            r@ == LIMIT_RAW,
    {
        Scalar { raw: LIMIT_RAW }
    }

    /// The whole number `n`.
    pub fn from_u32(n: u32) -> (r: Scalar)
        ensures
            r@ == n * ONE_RAW,
    {
        let wide: i128 = n as i128 * 1_000_000_000;
        Scalar::from_wide(wide)
    }

    /// The sum, saturated.
    pub fn add(self, o: Scalar) -> (r: Scalar)
        ensures
            r@ == add_spec(self@, o@),
    {
        proof {
            use_type_invariant(self);
            use_type_invariant(o);
        }
        Scalar::from_wide(self.raw as i128 + o.raw as i128)
    }

    /// The difference, saturated.
    pub fn sub(self, o: Scalar) -> (r: Scalar)
        ensures
            r@ == sub_spec(self@, o@),
    {
        proof {
            use_type_invariant(self);
            use_type_invariant(o);
        }
        Scalar::from_wide(self.raw as i128 - o.raw as i128)
    }

    /// The opposite number.
    pub fn neg(self) -> (r: Scalar)
        ensures
            r@ == neg_spec(self@),
    {
        proof {
            use_type_invariant(self);
        }
        Scalar { raw: -self.raw }
    }

    /// The absolute value.
    pub fn abs(self) -> (r: Scalar)
        ensures
            r@ == abs_spec(self@),
    {
        proof {
            use_type_invariant(self);
        }
        if self.raw < 0 {
            Scalar { raw: -self.raw }
        } else {
            self
        }
    }

    /// The lesser of the two numbers.
    pub fn min(self, o: Scalar) -> (r: Scalar)
        ensures
            r@ == min_spec(self@, o@),
    {
        if self.raw <= o.raw {
            self
        } else {
            o
        }
    }

    /// Whether the number is less than `o`.
    pub fn lt(self, o: Scalar) -> (b: bool)
        ensures
            b == (self@ < o@),
    {
        self.raw < o.raw
    }

    /// Whether the number is at most `o`.
    pub fn le(self, o: Scalar) -> (b: bool)
        ensures
            b == (self@ <= o@),
    {
        self.raw <= o.raw
    }

    /// Whether the number is greater than `o`.
    pub fn gt(self, o: Scalar) -> (b: bool)
        ensures
            b == (self@ > o@),
    {
        self.raw > o.raw
    }

    /// Whether the number is at least `o`.
    pub fn ge(self, o: Scalar) -> (b: bool)
        ensures
            b == (self@ >= o@),
    {
        self.raw >= o.raw
    }

    /// Whether the number is zero.
    pub fn is_zero(self) -> (b: bool)
        ensures
            b == (self@ == 0),
    {
        self.raw == 0
    }

    /// The product, rounded toward zero and saturated.
    pub fn mul(self, o: Scalar) -> (r: Scalar)
        ensures
            r@ == mul_spec(self@, o@),
    {
        let p = wide_product(self, o);
        Scalar::from_wide(p / (ONE_RAW as i128))
    }

    /// The quotient, rounded toward zero and saturated. A division by zero
    /// gives the limit with the sign of the dividend, and zero for zero by
    /// zero.
    pub fn div(self, o: Scalar) -> (r: Scalar)
        ensures
            r@ == div_spec(self@, o@),
    {
        proof {
            use_type_invariant(self);
            use_type_invariant(o);
        }
        if o.raw == 0 {
            if self.raw > 0 {
                Scalar { raw: LIMIT_RAW }
            } else if self.raw < 0 {
                Scalar { raw: -LIMIT_RAW }
            } else {
                Scalar { raw: 0 }
            }
        } else {
            let negative = (self.raw < 0) != (o.raw < 0);
            let n: u128 = magnitude(self.raw) as u128 * 1_000_000_000;
            let d: u128 = magnitude(o.raw) as u128;
            let q: u128 = n / d;
            assert(q <= n) by (nonlinear_arith)
                requires
                    q == n / d,
                    d > 0,
            ;
            if negative {
                Scalar::from_wide(-(q as i128))
            } else {
                Scalar::from_wide(q as i128)
            }
        }
    }

    /// The square root, rounded down; zero for a negative number.
    pub fn sqrt(self) -> (r: Scalar)
        ensures
            r@ == sqrt_spec(self@),
    {
        proof {
            use_type_invariant(self);
        }
        if self.raw <= 0 {
            assert(isqrt(self.raw * ONE_RAW) == 0);
            Scalar { raw: 0 }
        } else {
            let n: u128 = self.raw as u128 * ONE_RAW as u128;
            let root = integer_sqrt(n);
            proof {
                lemma_isqrt_bounds(n as int);
                let s = isqrt(n as int);
                assert(s <= LIMIT_RAW) by (nonlinear_arith)
                    requires
                        0 <= s,
                        s * s <= n,
                        n <= 4_500_000_000_000_000_000_000_000_000,
                ;
            }
            Scalar { raw: root as i64 }
        }
    }

    /// The dot product of `(a1, a2, a3)` and `(b1, b2, b3)`.
    pub fn dot3(a1: Scalar, b1: Scalar, a2: Scalar, b2: Scalar, a3: Scalar, b3: Scalar) -> (r:
        Scalar)
        ensures
            r@ == dot3_spec(a1@, b1@, a2@, b2@, a3@, b3@),
    {
        let first = wide_product(a1, b1);
        let second = wide_product(a2, b2);
        let third = wide_product(a3, b3);
        Scalar::from_wide((first + second + third) / (ONE_RAW as i128))
    }

    /// The determinant `a * b - c * d`.
    pub fn det2(a: Scalar, b: Scalar, c: Scalar, d: Scalar) -> (r: Scalar)
        ensures
            r@ == det2_spec(a@, b@, c@, d@),
    {
        let first = wide_product(a, b);
        let second = wide_product(c, d);
        Scalar::from_wide((first - second) / (ONE_RAW as i128))
    }

    /// The length of the vector `(a, b, c)`.
    pub fn hypot3(a: Scalar, b: Scalar, c: Scalar) -> (r: Scalar)
        ensures
            r@ == hypot3_spec(a@, b@, c@),
    {
        let first = wide_product(a, a);
        let second = wide_product(b, b);
        let third = wide_product(c, c);
        proof {
            assert(a@ * a@ >= 0 && b@ * b@ >= 0 && c@ * c@ >= 0) by (nonlinear_arith);
        }
        let n: u128 = (first + second + third) as u128;
        let root = integer_sqrt(n);
        proof {
            lemma_isqrt_bounds(n as int);
            let s = isqrt(n as int);
            assert(s < 0x1_0000_0000_0000_0000) by (nonlinear_arith)
                requires
                    0 <= s,
                    s * s <= n,
                    n <= 0xffff_ffff_ffff_ffff_ffff_ffff_ffff_ffff,
            ;
        }
        if root > LIMIT_RAW as u64 {
            Scalar { raw: LIMIT_RAW }
        } else {
            Scalar { raw: root as i64 }
        }
    }

    /// The vector of length one along `(a, b, c)`; the zero vector as it
    /// is.
    pub fn unit3(a: Scalar, b: Scalar, c: Scalar) -> (r: (Scalar, Scalar, Scalar))
        ensures
            (r.0@, r.1@, r.2@) == unit3_spec(a@, b@, c@),
    {
        let len = Scalar::hypot3(a, b, c);
        if len.raw == 0 {
            return (a, b, c);
        }
        proof {
            use_type_invariant(a);
            use_type_invariant(b);
            use_type_invariant(c);
            use_type_invariant(len);
            lemma_component_below_hypot(a@, b@, c@);
            lemma_component_below_hypot(b@, a@, c@);
            lemma_component_below_hypot(c@, a@, b@);
            assert(b@ * b@ + a@ * a@ + c@ * c@ == a@ * a@ + b@ * b@ + c@ * c@);
            assert(c@ * c@ + a@ * a@ + b@ * b@ == a@ * a@ + b@ * b@ + c@ * c@);
            lemma_scaled_squares(a@, b@, c@, len@, FINE_RAW as int);
        }
        let x = stretched(a.raw, len.raw);
        let y = stretched(b.raw, len.raw);
        let z = stretched(c.raw, len.raw);
        let xx = square_of(x);
        let yy = square_of(y);
        let zz = square_of(z);
        let fine = integer_sqrt((xx + yy + zz) as u128);
        proof {
            lemma_stretched_length(a@, b@, c@);
            lemma_scaled_squares(x as int, y as int, z as int, fine as int, ONE_RAW as int);
        }
        (
            Scalar { raw: (x as i128 * 1_000_000_000 / (fine as i128)) as i64 },
            Scalar { raw: (y as i128 * 1_000_000_000 / (fine as i128)) as i64 },
            Scalar { raw: (z as i128 * 1_000_000_000 / (fine as i128)) as i64 },
        )
    }

    /// The whole part of the number, saturated to `0 ..= 255`.
    pub fn to_u8(self) -> (r: u8)
        ensures
            r == whole_spec(self@, 255),
    {
        let w: i64 = self.raw / ONE_RAW;
        if w < 0 {
            0
        } else if w > 255 {
            255
        } else {
            w as u8
        }
    }

    /// The whole part of the number, saturated to the range of `u32`.
    pub fn to_u32(self) -> (r: u32)
        ensures
            r == whole_spec(self@, u32::MAX as int),
    {
        let w: i64 = self.raw / ONE_RAW;
        if w < 0 {
            0
        } else if w > u32::MAX as i64 {
            u32::MAX
        } else {
            w as u32
        }
    }
}

/// The component `c` of a vector of length `len`, stretched to a vector of
/// the length `FINE_RAW`.
fn stretched(c: i64, len: i64) -> (x: i64)
    requires
        len > 0,
        -len <= c <= len,
        in_range(len as int),
    ensures
        x == stretch_spec(c as int, len as int),
        -FINE_RAW <= x <= FINE_RAW,
{
    proof {
        lemma_quot_scaled(c as int, len as int, FINE_RAW as int);
    }
    let wide: i128 = c as i128 * 4_000_000_000_000_000_000;
    (wide / (len as i128)) as i64
}

/// The square of a stretched component.
fn square_of(x: i64) -> (s: i128)
    requires
        -FINE_RAW <= x <= FINE_RAW,
    ensures
        s == x * x,
        0 <= s <= 16_000_000_000_000_000_000_000_000_000_000_000_000,
{
    let wide: i128 = x as i128;
    assert(0 <= wide * wide <= 16_000_000_000_000_000_000_000_000_000_000_000_000)
        by (nonlinear_arith)
        requires
            -4_000_000_000_000_000_000 <= wide <= 4_000_000_000_000_000_000,
    ;
    wide * wide
}

/// The absolute value of a raw count in range.
fn magnitude(raw: i64) -> (m: u64)
    requires
        in_range(raw as int),
    ensures
        m == abs_spec(raw as int),
{
    if raw < 0 {
        (-raw) as u64
    } else {
        raw as u64
    }
}

/// The exact product of two scalars, in units of a billionth of a unit.
fn wide_product(a: Scalar, b: Scalar) -> (p: i128)
    ensures
        p == a@ * b@,
        -20_250_000_000_000_000_000_000_000_000_000_000_000 <= p
            <= 20_250_000_000_000_000_000_000_000_000_000_000_000,
{
    let x: i128 = a.raw() as i128;
    let y: i128 = b.raw() as i128;
    assert(-20_250_000_000_000_000_000_000_000_000_000_000_000 <= x * y
        <= 20_250_000_000_000_000_000_000_000_000_000_000_000) by (nonlinear_arith)
        requires
            -4_500_000_000_000_000_000 <= x <= 4_500_000_000_000_000_000,
            -4_500_000_000_000_000_000 <= y <= 4_500_000_000_000_000_000,
    ;
    x * y
}

/// The integer square root of `n`, found by bisection.
fn integer_sqrt(n: u128) -> (r: u64)
    ensures
        r == isqrt(n as int),
{
    let mut lo: u128 = 0;
    let mut hi: u128 = 0x1_0000_0000_0000_0000;
    assert(n < hi * hi) by (nonlinear_arith)
        requires
            hi == 0x1_0000_0000_0000_0000,
            n <= 0xffff_ffff_ffff_ffff_ffff_ffff_ffff_ffff,
    ;
    assert(lo * lo <= n) by (nonlinear_arith)
        requires
            lo == 0,
            n >= 0,
    ;
    while hi - lo > 1
        invariant
            lo < hi <= 0x1_0000_0000_0000_0000,
            lo * lo <= n < hi * hi,
        decreases hi - lo,
    {
        let mid: u128 = lo + (hi - lo) / 2;
        assert(mid * mid <= 0xffff_ffff_ffff_ffff_ffff_ffff_ffff_ffff) by (nonlinear_arith)
            requires
                0 <= mid < 0x1_0000_0000_0000_0000,
        ;
        if mid * mid <= n {
            lo = mid;
        } else {
            hi = mid;
        }
    }
    proof {
        assert(hi == lo + 1);
        lemma_isqrt_unique(n as int, lo as int);
    }
    lo as u64
}

} // verus!
