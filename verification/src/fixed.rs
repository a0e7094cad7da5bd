//! Fixed-point helpers: order, saturation and rounding on integers.
use vstd::prelude::*;

verus! {

/// `x`, cut to the range of `i64`.
pub open spec fn clamp64(x: int) -> int {
    if x > i64::MAX {
        i64::MAX as int
    } else if x < i64::MIN {
        i64::MIN as int
    } else {
        x
    }
}

/// The larger of two numbers.
pub open spec fn larger(a: int, b: int) -> int {
    if a >= b {
        a
    } else {
        b
    }
}

/// The smaller of two numbers.
pub open spec fn smaller(a: int, b: int) -> int {
    if a <= b {
        a
    } else {
        b
    }
}

/// The size of a number.
pub open spec fn magnitude(a: int) -> int {
    if a < 0 {
        -a
    } else {
        a
    }
}

/// `x`, cut to the range of `i64`.
pub fn sat(x: i128) -> (r: i64)
    ensures
        r == clamp64(x as int),
{
    if x > i64::MAX as i128 {
        i64::MAX
    } else if x < i64::MIN as i128 {
        i64::MIN
    } else {
        x as i64
    }
}

/// The larger of two numbers.
pub fn max64(a: i64, b: i64) -> (r: i64)
    ensures
        r == larger(a as int, b as int),
{
    if a >= b {
        a
    } else {
        b
    }
}

/// The smaller of two numbers.
pub fn min64(a: i64, b: i64) -> (r: i64)
    ensures
        r == smaller(a as int, b as int),
{
    if a <= b {
        a
    } else {
        b
    }
}

/// The size of a number.
pub fn abs64(a: i64) -> (r: i128)
    ensures
        r == magnitude(a as int),
{
    if a < 0 {
        -(a as i128)
    } else {
        a as i128
    }
}

/// Division that rounds down.
pub fn div_floor(a: i128, b: i128) -> (r: i128)
    requires
        b > 0,
    ensures
        r == a as int / b as int,
{
    if a >= 0 {
        a / b
    } else {
        let m: i128 = -(a + 1);
        let q: i128 = m / b;
        let rem: i128 = m % b;
        proof {
            vstd::arithmetic::div_mod::lemma_fundamental_div_mod(m as int, b as int);
            assert(a == (-q - 1) * b + (b - rem - 1)) by (nonlinear_arith)
                requires
                    m == b * q + rem,
                    m == -(a + 1),
            ;
            vstd::arithmetic::div_mod::lemma_fundamental_div_mod_converse(
                a as int,
                b as int,
                (-q - 1) as int,
                (b - rem - 1) as int,
            );
        }
        -q - 1
    }
}

/// The quotient rounded down, whatever the signs.
pub open spec fn floor_quotient(a: int, b: int) -> int {
    if b > 0 {
        a / b
    } else {
        (-a) / (-b)
    }
}

/// Division that rounds down, whatever the signs.
pub fn floor_div(a: i64, b: i64) -> (r: i128)
    requires
        b != 0,
    ensures
        r == floor_quotient(a as int, b as int),
        -9223372036854775808 <= r <= 9223372036854775808,
{
    let x: i128 = if b > 0 {
        a as i128
    } else {
        -(a as i128)
    };
    let y: i128 = if b > 0 {
        b as i128
    } else {
        -(b as i128)
    };
    assert(-9223372036854775808 <= x as int / y as int <= 9223372036854775808) by (nonlinear_arith)
        requires
            y >= 1,
            -9223372036854775808 <= x <= 9223372036854775808,
    ;
    div_floor(x, y)
}

/// `x`, cut to the range of `i128` but for its lowest value.
pub open spec fn clamp128(x: int) -> int {
    if x > i128::MAX {
        i128::MAX as int
    } else if x < -i128::MAX {
        -i128::MAX
    } else {
        x
    }
}

/// The product of two numbers, cut to the range.
pub fn product128(a: i128, b: i128) -> (r: i128)
    ensures
        r == clamp128(a * b),
{
    match a.checked_mul(b) {
        Some(x) => if x < -i128::MAX {
            -i128::MAX
        } else {
            x
        },
        None => if (a > 0) == (b > 0) {
            assert(a * b >= 0) by (nonlinear_arith)
                requires
                    (a > 0 && b > 0) || (a <= 0 && b <= 0),
            ;
            i128::MAX
        } else {
            assert(a * b <= 0) by (nonlinear_arith)
                requires
                    (a > 0 && b <= 0) || (a <= 0 && b > 0),
            ;
            -i128::MAX
        },
    }
}

/// The sum of two numbers, cut to the range.
pub fn sum128(a: i128, b: i128) -> (r: i128)
    ensures
        r == clamp128(a + b),
{
    if b >= 0 {
        if a > i128::MAX - b {
            i128::MAX
        } else {
            let s: i128 = a + b;
            if s < -i128::MAX {
                -i128::MAX
            } else {
                s
            }
        }
    } else if a < i128::MIN - b {
        -i128::MAX
    } else {
        let s: i128 = a + b;
        if s < -i128::MAX {
            -i128::MAX
        } else {
            s
        }
    }
}

/// The product of two 64-bit numbers.
pub fn product(a: i64, b: i64) -> (r: i128)
    ensures
        r == a * b,
        -85070591730234615865843651857942052864 <= r <= 85070591730234615865843651857942052864,
{
    assert(-85070591730234615865843651857942052864 <= a * b
        <= 85070591730234615865843651857942052864) by (nonlinear_arith)
        requires
            -9223372036854775808 <= a <= 9223372036854775808,
            -9223372036854775808 <= b <= 9223372036854775808,
    ;
    a as i128 * b as i128
}

/// `x / d`, rounded toward zero.
pub open spec fn toward_zero(x: int, d: int) -> int {
    if x >= 0 {
        x / d
    } else {
        -((-x) / d)
    }
}

/// `x / d`, rounded toward zero.
pub fn div_toward_zero(x: i64, d: i64) -> (r: i64)
    requires
        d > 0,
    ensures
        r == toward_zero(x as int, d as int),
{
    if x >= 0 {
        x / d
    } else {
        let m: i128 = -(x as i128);
        let q: i128 = m / d as i128;
        assert(0 <= q <= m) by (nonlinear_arith)
            requires
                q == m as int / d as int,
                m >= 0,
                d > 0,
        ;
        (-q) as i64
    }
}

/// `a / b`, rounded toward zero.
pub open spec fn trunc_quotient(a: int, b: int) -> int {
    let q = magnitude(a) / magnitude(b);
    if (a < 0) == (b < 0) {
        q
    } else {
        -q
    }
}

/// `a / b`, rounded toward zero.
pub fn trunc_div(a: i64, b: i64) -> (r: i128)
    requires
        b != 0,
    ensures
        r == trunc_quotient(a as int, b as int),
        magnitude(r as int) <= magnitude(a as int),
{
    let x = abs64(a);
    let y = abs64(b);
    let q: i128 = x / y;
    assert(0 <= q <= x) by (nonlinear_arith)
        requires
            q == x as int / y as int,
            x >= 0,
            y > 0,
    ;
    if (a < 0) == (b < 0) {
        q
    } else {
        -q
    }
}

/// `a / b`, rounded toward zero, for a wide `a`.
pub fn trunc_div_wide(a: i128, b: i64) -> (r: i128)
    requires
        b != 0,
        a > i128::MIN,
    ensures
        r == trunc_quotient(a as int, b as int),
{
    let x: i128 = if a < 0 {
        -a
    } else {
        a
    };
    let y = abs64(b);
    let q: i128 = x / y;
    assert(0 <= q <= x) by (nonlinear_arith)
        requires
            q == x as int / y as int,
            x >= 0,
            y > 0,
    ;
    if (a < 0) == (b < 0) {
        q
    } else {
        -q
    }
}

/// What the helpers of rounding and cutting give, by what the result has to satisfy.
pub proof fn law_rounding_by_its_bounds(a: int, d: int)
    requires
        d > 0,
    ensures
        a >= 0 ==> toward_zero(a, d) * d <= a < (toward_zero(a, d) + 1) * d,
        a <= 0 ==> (toward_zero(a, d) - 1) * d < a <= toward_zero(a, d) * d,
        floor_quotient(a, d) * d <= a < (floor_quotient(a, d) + 1) * d,
        floor_quotient(-a, -d) == floor_quotient(a, d),
        trunc_quotient(a, d) == toward_zero(a, d),
        trunc_quotient(-a, d) == -trunc_quotient(a, d),
        trunc_quotient(a, -d) == -trunc_quotient(a, d),
        magnitude(a) >= 0 && (magnitude(a) == a || magnitude(a) == -a),
        larger(a, d) >= a && larger(a, d) >= d && (larger(a, d) == a || larger(a, d) == d),
        smaller(a, d) <= a && smaller(a, d) <= d && (smaller(a, d) == a || smaller(a, d) == d),
        i64::MIN <= clamp64(a) <= i64::MAX,
        i64::MIN <= a <= i64::MAX ==> clamp64(a) == a,
        a > i64::MAX ==> clamp64(a) == i64::MAX,
        a < i64::MIN ==> clamp64(a) == i64::MIN,
        -i128::MAX <= a <= i128::MAX ==> clamp128(a) == a,
{
    vstd::arithmetic::div_mod::lemma_fundamental_div_mod(a, d);
    vstd::arithmetic::div_mod::lemma_fundamental_div_mod(-a, d);
    let q = a / d;
    let p = (-a) / d;
    assert(q * d <= a < (q + 1) * d) by (nonlinear_arith)
        requires
            a == d * q + a % d,
            0 <= a % d < d,
    ;
    assert((-p - 1) * d < a <= (-p) * d) by (nonlinear_arith)
        requires
            -a == d * p + (-a) % d,
            0 <= (-a) % d < d,
    ;
    if a == 0 {
        assert(q == 0 && p == 0) by (nonlinear_arith)
            requires
                a == 0,
                q == a / d,
                p == (-a) / d,
                d > 0,
        ;
    }
}

} // verus!
