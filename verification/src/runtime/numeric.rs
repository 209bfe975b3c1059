//! Integer arithmetic of runtime values: floor division and remainder paired
//! so that the remainder takes the sign of the divisor, integer power
//! exponents, and the parity rule of `bool ± integer`.

use vstd::prelude::*;
use vstd::arithmetic::div_mod::{lemma_fundamental_div_mod, lemma_fundamental_div_mod_converse};
use crate::runtime::errors::RuntimeError;

verus! {

/// The quotient of `a` by `b` rounded towards negative infinity.
pub open spec fn floor_div(a: int, b: int) -> int
    recommends
        b != 0,
{
    if b > 0 {
        a / b
    } else {
        (-a) / (-b)
    }
}

/// The remainder that goes with [`floor_div`]; it takes the sign of `b`.
pub open spec fn floor_rem(a: int, b: int) -> int
    recommends
        b != 0,
{
    a - b * floor_div(a, b)
}

/// The quotient of `x` by `d` rounded towards zero.
pub open spec fn trunc_div(x: int, d: int) -> int {
    if x == 0 {
        0
    } else if x > 0 && d > 0 {
        x / d
    } else if x < 0 && d < 0 {
        (x * -1) / (d * -1)
    } else if x < 0 {
        ((x * -1) / d) * -1
    } else {
        (x / (d * -1)) * -1
    }
}

/// The remainder that goes with [`trunc_div`]; it takes the sign of `x`.
pub open spec fn trunc_rem(x: int, d: int) -> int {
    if x == 0 {
        0
    } else if x > 0 && d > 0 {
        x % d
    } else if x < 0 && d < 0 {
        ((x * -1) % (d * -1)) * -1
    } else if x < 0 {
        ((x * -1) % d) * -1
    } else {
        x % (d * -1)
    }
}

/// Truncated and floor division agree unless the truncated remainder is not
/// zero and has another sign than the divisor, where the floor is one less.
proof fn lemma_floor_from_truncation(x: int, d: int)
    requires
        d != 0,
    ensures
        x == d * trunc_div(x, d) + trunc_rem(x, d),
        floor_div(x, d) == if trunc_rem(x, d) != 0 && ((trunc_rem(x, d) < 0) != (d < 0)) {
            trunc_div(x, d) - 1
        } else {
            trunc_div(x, d)
        },
        (if trunc_rem(x, d) >= 0 { trunc_rem(x, d) } else { -trunc_rem(x, d) }) < (if d > 0 { d } else { -d }),
        d == -1 ==> trunc_div(x, d) == -x,
        trunc_rem(x, d) != 0 ==> (if trunc_div(x, d) >= 0 { trunc_div(x, d) } else { -trunc_div(x, d) }) < (if x >= 0 { x } else { -x }),
        (if trunc_div(x, d) >= 0 { trunc_div(x, d) } else { -trunc_div(x, d) }) <= (if x >= 0 { x } else { -x }),
{
    if x == 0 {
        assert(0int / d == 0) by {
            if d > 0 {
                lemma_fundamental_div_mod_converse(0, d, 0, 0);
            } else {
                lemma_fundamental_div_mod_converse(0, -d, 0, 0);
            }
        }
        let t = trunc_div(x, d);
        assert(t == 0);
        assert(d * t == 0) by (nonlinear_arith)
            requires
                t == 0,
        ;
    } else if d > 0 {
        let n = if x > 0 { x } else { -x };
        let a = n / d;
        let b = n % d;
        lemma_fundamental_div_mod(n, d);
        assert(0 <= b < d) by {
            vstd::arithmetic::div_mod::lemma_mod_bound(n, d);
        }
        assert(a >= 0 && a <= n) by (nonlinear_arith)
            requires
                n == d * a + b,
                0 <= b < d,
                d > 0,
                n > 0,
        ;
        assert(b != 0 ==> a < n) by (nonlinear_arith)
            requires
                n == d * a + b,
                0 <= b < d,
                d > 0,
                n > 0,
        ;
        if x > 0 {
            assert(trunc_div(x, d) == a && trunc_rem(x, d) == b);
            assert(x == d * a + b);
        } else {
            assert(trunc_div(x, d) == -a && trunc_rem(x, d) == -b);
            assert(x == d * (-a) + (-b)) by (nonlinear_arith)
                requires
                    x == -n,
                    n == d * a + b,
            ;
            if b == 0 {
                assert(x == (-a) * d + 0) by (nonlinear_arith)
                    requires
                        x == d * (-a) + (-b),
                        b == 0,
                ;
                lemma_fundamental_div_mod_converse(x, d, -a, 0);
            } else {
                assert(x == (-a - 1) * d + (d - b)) by (nonlinear_arith)
                    requires
                        x == -n,
                        n == d * a + b,
                ;
                lemma_fundamental_div_mod_converse(x, d, -a - 1, d - b);
            }
        }
    } else {
        let e = -d;
        let n = if x > 0 { x } else { -x };
        let a = n / e;
        let b = n % e;
        lemma_fundamental_div_mod(n, e);
        assert(0 <= b < e) by {
            vstd::arithmetic::div_mod::lemma_mod_bound(n, e);
        }
        assert(a >= 0 && a <= n) by (nonlinear_arith)
            requires
                n == e * a + b,
                0 <= b < e,
                e > 0,
                n > 0,
        ;
        assert(b != 0 ==> a < n) by (nonlinear_arith)
            requires
                n == e * a + b,
                0 <= b < e,
                e > 0,
                n > 0,
        ;
        assert(e == 1 ==> a == n && b == 0) by (nonlinear_arith)
            requires
                n == e * a + b,
                0 <= b < e,
        ;
        if x > 0 {
            assert(trunc_div(x, d) == -a && trunc_rem(x, d) == b);
            assert(x == d * (-a) + b) by (nonlinear_arith)
                requires
                    x == n,
                    n == e * a + b,
                    e == -d,
            ;
            if b == 0 {
                assert(-x == (-a) * e + 0) by (nonlinear_arith)
                    requires
                        x == n,
                        n == e * a + b,
                        b == 0,
                ;
                lemma_fundamental_div_mod_converse(-x, e, -a, 0);
            } else {
                assert(-x == (-a - 1) * e + (e - b)) by (nonlinear_arith)
                    requires
                        x == n,
                        n == e * a + b,
                ;
                lemma_fundamental_div_mod_converse(-x, e, -a - 1, e - b);
            }
        } else {
            assert(trunc_div(x, d) == a && trunc_rem(x, d) == -b);
            assert(x == d * a + (-b)) by (nonlinear_arith)
                requires
                    x == -n,
                    n == e * a + b,
                    e == -d,
            ;
        }
    }
}

/// Floor division of 64-bit integers.
///
/// A zero divisor is a division-by-zero error; a quotient that does not fit
/// (`i64::MIN // -1`) is a numeric overflow.
pub fn floor_div_int64(left: i64, right: i64) -> (r: Result<i64, RuntimeError>)
    ensures
        right == 0 ==> r == Err::<i64, RuntimeError>(RuntimeError::DivisionByZero { operator: "//" }),
        right != 0 && i64::MIN <= floor_div(left as int, right as int) <= i64::MAX ==> r == Ok::<i64, RuntimeError>(
            floor_div(left as int, right as int) as i64,
        ),
        right != 0 && !(i64::MIN <= floor_div(left as int, right as int) <= i64::MAX) ==> r
            == Err::<i64, RuntimeError>(RuntimeError::NumericOverflow { message: "int 整除溢出" }),
{
    if right == 0 {
        return Err(RuntimeError::DivisionByZero { operator: "//" });
    }
    proof {
        lemma_floor_from_truncation(left as int, right as int);
    }
    let truncated = match left.checked_div(right) {
        Some(value) => value,
        None => {
            return Err(RuntimeError::NumericOverflow { message: "int 整除溢出" });
        },
    };
    let remainder = match left.checked_rem(right) {
        Some(value) => value,
        None => {
            return Err(RuntimeError::NumericOverflow { message: "int 整除溢出" });
        },
    };
    if remainder != 0 && (remainder < 0) != (right < 0) {
        match truncated.checked_sub(1) {
            Some(value) => Ok(value),
            None => Err(RuntimeError::NumericOverflow { message: "int 整除溢出" }),
        }
    } else {
        Ok(truncated)
    }
}

/// Floor division of 32-bit integers.
///
/// A zero divisor is a division-by-zero error; a quotient that does not fit
/// (`i32::MIN // -1`) is a numeric overflow.
pub fn floor_div_int32(left: i32, right: i32) -> (r: Result<i32, RuntimeError>)
    ensures
        right == 0 ==> r == Err::<i32, RuntimeError>(RuntimeError::DivisionByZero { operator: "//" }),
        right != 0 && i32::MIN <= floor_div(left as int, right as int) <= i32::MAX ==> r == Ok::<i32, RuntimeError>(
            floor_div(left as int, right as int) as i32,
        ),
        right != 0 && !(i32::MIN <= floor_div(left as int, right as int) <= i32::MAX) ==> r
            == Err::<i32, RuntimeError>(RuntimeError::NumericOverflow { message: "sint 整除溢出" }),
{
    if right == 0 {
        return Err(RuntimeError::DivisionByZero { operator: "//" });
    }
    proof {
        lemma_floor_from_truncation(left as int, right as int);
    }
    let truncated = match left.checked_div(right) {
        Some(value) => value,
        None => {
            return Err(RuntimeError::NumericOverflow { message: "sint 整除溢出" });
        },
    };
    let remainder = match left.checked_rem(right) {
        Some(value) => value,
        None => {
            return Err(RuntimeError::NumericOverflow { message: "sint 整除溢出" });
        },
    };
    if remainder != 0 && (remainder < 0) != (right < 0) {
        match truncated.checked_sub(1) {
            Some(value) => Ok(value),
            None => Err(RuntimeError::NumericOverflow { message: "sint 整除溢出" }),
        }
    } else {
        Ok(truncated)
    }
}


/// The remainder of 64-bit floor division; it takes the sign of the divisor.
///
/// The errors of [`floor_div_int64`] come first; a quotient times divisor that
/// does not fit is a numeric overflow.
pub fn floor_rem_int64(left: i64, right: i64) -> (r: Result<i64, RuntimeError>)
    ensures
        right == 0 ==> r == Err::<i64, RuntimeError>(RuntimeError::DivisionByZero { operator: "//" }),
        right != 0 && !(i64::MIN <= floor_div(left as int, right as int) <= i64::MAX) ==> r
            == Err::<i64, RuntimeError>(RuntimeError::NumericOverflow { message: "int 整除溢出" }),
        right != 0 && i64::MIN <= floor_div(left as int, right as int) <= i64::MAX && i64::MIN
            <= floor_div(left as int, right as int) * right <= i64::MAX ==> r == Ok::<i64, RuntimeError>(
            floor_rem(left as int, right as int) as i64,
        ),
        right != 0 && i64::MIN <= floor_div(left as int, right as int) <= i64::MAX && !(i64::MIN
            <= floor_div(left as int, right as int) * right <= i64::MAX) ==> r == Err::<i64, RuntimeError>(
            RuntimeError::NumericOverflow { message: "int 取模溢出" },
        ),
{
    let quotient = floor_div_int64(left, right)?;
    proof {
        lemma_floor_division_pairs(left as int, right as int);
        let q = floor_div(left as int, right as int);
        assert(q * right == right * q) by (nonlinear_arith);
    }
    match quotient.checked_mul(right) {
        Some(product) => match left.checked_sub(product) {
            Some(value) => Ok(value),
            None => Err(RuntimeError::NumericOverflow { message: "int 取模溢出" }),
        },
        None => Err(RuntimeError::NumericOverflow { message: "int 取模溢出" }),
    }
}


/// The remainder of 32-bit floor division; it takes the sign of the divisor.
///
/// The errors of [`floor_div_int32`] come first; a quotient times divisor that
/// does not fit is a numeric overflow.
pub fn floor_rem_int32(left: i32, right: i32) -> (r: Result<i32, RuntimeError>)
    ensures
        right == 0 ==> r == Err::<i32, RuntimeError>(RuntimeError::DivisionByZero { operator: "//" }),
        right != 0 && !(i32::MIN <= floor_div(left as int, right as int) <= i32::MAX) ==> r
            == Err::<i32, RuntimeError>(RuntimeError::NumericOverflow { message: "sint 整除溢出" }),
        right != 0 && i32::MIN <= floor_div(left as int, right as int) <= i32::MAX && i32::MIN
            <= floor_div(left as int, right as int) * right <= i32::MAX ==> r == Ok::<i32, RuntimeError>(
            floor_rem(left as int, right as int) as i32,
        ),
        right != 0 && i32::MIN <= floor_div(left as int, right as int) <= i32::MAX && !(i32::MIN
            <= floor_div(left as int, right as int) * right <= i32::MAX) ==> r == Err::<i32, RuntimeError>(
            RuntimeError::NumericOverflow { message: "sint 取模溢出" },
        ),
{
    let quotient = floor_div_int32(left, right)?;
    proof {
        lemma_floor_division_pairs(left as int, right as int);
        let q = floor_div(left as int, right as int);
        assert(q * right == right * q) by (nonlinear_arith);
    }
    match quotient.checked_mul(right) {
        Some(product) => match left.checked_sub(product) {
            Some(value) => Ok(value),
            None => Err(RuntimeError::NumericOverflow { message: "sint 取模溢出" }),
        },
        None => Err(RuntimeError::NumericOverflow { message: "sint 取模溢出" }),
    }
}

/// Floor division and its remainder are paired: the divisor times the
/// quotient plus the remainder gives back the dividend, and the remainder is
/// smaller than the divisor and takes its sign.
pub proof fn lemma_floor_division_pairs(a: int, b: int)
    requires
        b != 0,
    ensures
        a == b * floor_div(a, b) + floor_rem(a, b),
        b > 0 ==> 0 <= floor_rem(a, b) < b,
        b < 0 ==> b < floor_rem(a, b) <= 0,
{
    if b > 0 {
        lemma_fundamental_div_mod(a, b);
        vstd::arithmetic::div_mod::lemma_mod_bound(a, b);
        assert(floor_rem(a, b) == a % b);
    } else {
        lemma_fundamental_div_mod(-a, -b);
        vstd::arithmetic::div_mod::lemma_mod_bound(-a, -b);
        let q = (-a) / (-b);
        assert(b * q == -((-b) * q)) by (nonlinear_arith);
        assert(floor_rem(a, b) == -((-a) % (-b)));
    }
}

/// Checks an integer power exponent and narrows it to the width `pow` takes.
///
/// A negative exponent would leave the integers; one beyond `u32` is a
/// numeric overflow.
pub fn non_negative_exponent(exponent: i64) -> (r: Result<u32, RuntimeError>)
    ensures
        exponent < 0 ==> r == Err::<u32, RuntimeError>(RuntimeError::InvalidValue {
            message: "整数幂的指数不能为负；负指数会得到整数无法表示的结果",
        }),
        0 <= exponent <= u32::MAX ==> r == Ok::<u32, RuntimeError>(exponent as u32),
        exponent > u32::MAX ==> r == Err::<u32, RuntimeError>(RuntimeError::NumericOverflow {
            message: "整数幂的指数过大",
        }),
{
    if exponent < 0 {
        return Err(
            RuntimeError::InvalidValue {
                message: "整数幂的指数不能为负；负指数会得到整数无法表示的结果",
            },
        );
    }
    if exponent > 0xffff_ffff {
        return Err(RuntimeError::NumericOverflow { message: "整数幂的指数过大" });
    }
    Ok(exponent as u32)
}

/// The parity rule of `bool ± integer`: an even amount keeps the value, an odd
/// amount flips it.
pub fn boolean_parity(value: bool, amount: i128) -> (r: bool)
    ensures
        r == (if amount % 2 == 0 { value } else { !value }),
{
    let magnitude: u128 = if amount < 0 {
        (-(amount + 1)) as u128 + 1
    } else {
        amount as u128
    };
    proof {
        assert(magnitude % 2 == amount % 2 || magnitude % 2 == (-amount) % 2);
    }
    if magnitude % 2 == 0 {
        value
    } else {
        !value
    }
}

} // verus!
