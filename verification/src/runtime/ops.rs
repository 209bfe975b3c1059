//! The runtime operator table: arithmetic, comparison and explicit
//! conversion of values.
//!
//! There is no implicit widening: both operands of a numeric operator have
//! the same width, or the operation is refused. `/` produces a float, so it
//! takes float operands only; `//` and `%` take integers only. `lint` and
//! `lfloat` have no arithmetic yet and say so. Floating-point arithmetic
//! itself is left to the caller: where both operands are floats, the result
//! names the operation and the operands' bit patterns.

use vstd::prelude::*;
use vstd::utf8::{encode_scalar, encode_utf8};
use crate::ast::ScalarType;
use crate::runtime::errors::RuntimeError;
use crate::runtime::numeric::{
    boolean_parity, floor_div, floor_div_int32, floor_div_int64, floor_rem, floor_rem_int32,
    floor_rem_int64, non_negative_exponent,
};
use crate::runtime::value::{duplicate, scalar_type_of, type_label_of, RuntimeValue, ValueKey};

verus! {

/// Whether a byte is an ASCII decimal digit.
pub open spec fn is_digit_byte(b: u8) -> bool {
    48 <= b <= 57
}

/// The value of a run of decimal digits.
pub open spec fn digits_value(digits: Seq<u8>) -> int
    decreases digits.len(),
{
    if digits.len() == 0 {
        0
    } else {
        digits_value(digits.drop_last()) * 10 + (digits.last() - 48)
    }
}

/// Whether every byte is a decimal digit.
pub open spec fn all_digit_bytes(digits: Seq<u8>) -> bool {
    forall|i: int| 0 <= i < digits.len() ==> is_digit_byte(#[trigger] digits[i])
}

/// Decimal text as `i128` reads it: an optional `+` or `-`, then one or more
/// digits, and a value that fits; anything else has no value.
pub open spec fn decimal_i128(text: Seq<u8>) -> Option<int> {
    let negative = text.len() > 0 && text[0] == 45u8;
    let signed = text.len() > 0 && (text[0] == 45u8 || text[0] == 43u8);
    let body = if signed { text.drop_first() } else { text };
    let value = if negative { -digits_value(body) } else { digits_value(body) };
    if body.len() > 0 && all_digit_bytes(body) && i128::MIN <= value <= i128::MAX {
        Some(value)
    } else {
        None
    }
}

/// A run of digits is worth at least as much as any prefix of it.
proof fn lemma_digits_value_grows(digits: Seq<u8>, j: int, k: int)
    requires
        all_digit_bytes(digits),
        0 <= j <= k <= digits.len(),
    ensures
        0 <= digits_value(digits.take(j)) <= digits_value(digits.take(k)),
    decreases k - j,
{
    if j < k {
        lemma_digits_value_grows(digits, j, k - 1);
        assert(digits.take(k).drop_last() =~= digits.take(k - 1));
        assert(is_digit_byte(digits[k - 1]));
    } else {
        lemma_digits_value_nonnegative(digits.take(j));
    }
}

/// A run of digits has a value of at least zero.
proof fn lemma_digits_value_nonnegative(digits: Seq<u8>)
    requires
        all_digit_bytes(digits),
    ensures
        digits_value(digits) >= 0,
    decreases digits.len(),
{
    if digits.len() > 0 {
        assert(all_digit_bytes(digits.drop_last())) by {
            assert forall|i: int| 0 <= i < digits.drop_last().len() implies is_digit_byte(
                #[trigger] digits.drop_last()[i],
            ) by {
                assert(digits.drop_last()[i] == digits[i]);
            }
        }
        lemma_digits_value_nonnegative(digits.drop_last());
        assert(is_digit_byte(digits[digits.len() - 1]));
    }
}

/// Reads decimal text as `i128` does.
fn parse_decimal_i128(text: &str) -> (r: Option<i128>)
    ensures
        match r {
            Some(v) => decimal_i128(encode_utf8(text@)) == Some(v as int),
            None => decimal_i128(encode_utf8(text@)) is None,
        },
{
    let bytes = text.as_bytes();
    let ghost s = bytes@;
    let n = bytes.len();
    if n == 0 {
        return None;
    }
    let negative = bytes[0] == 45u8;
    let start: usize = if bytes[0] == 45u8 || bytes[0] == 43u8 { 1 } else { 0 };
    let ghost body = if start == 1 { s.drop_first() } else { s };
    proof {
        assert(body =~= s.subrange(start as int, n as int));
    }
    if start == n {
        return None;
    }
    let mut value: i128 = 0;
    let mut i: usize = start;
    while i < n
        invariant
            s == encode_utf8(text@),
            bytes@ == s,
            n == s.len(),
            start <= i <= n,
            start < n,
            body =~= s.subrange(start as int, n as int),
            body == (if start == 1 { s.drop_first() } else { s }),
            negative == (s[0] == 45u8),
            (start == 1) == (s[0] == 45u8 || s[0] == 43u8),
            all_digit_bytes(body.take(i - start)),
            value == (if negative { -digits_value(body.take(i - start)) } else { digits_value(body.take(i - start)) }),
        decreases n - i,
    {
        let b = bytes[i];
        proof {
            assert(body[i - start] == b);
        }
        if b < 48u8 || b > 57u8 {
            proof {
                assert(!all_digit_bytes(body)) by {
                    assert(!is_digit_byte(body[i - start]));
                }
            }
            return None;
        }
        let d: i128 = (b - 48u8) as i128;
        proof {
            let k = i - start;
            assert(body.take(k + 1).drop_last() =~= body.take(k));
            assert(body.take(k + 1).last() == b);
            assert(all_digit_bytes(body.take(k + 1))) by {
                assert forall|j: int| 0 <= j < body.take(k + 1).len() implies is_digit_byte(
                    #[trigger] body.take(k + 1)[j],
                ) by {
                    if j < k {
                        assert(body.take(k + 1)[j] == body.take(k)[j]);
                    }
                }
            }
        }
        let next: Option<i128> = if negative {
            match value.checked_mul(10) {
                Some(m) => m.checked_sub(d),
                None => None,
            }
        } else {
            match value.checked_mul(10) {
                Some(m) => m.checked_add(d),
                None => None,
            }
        };
        match next {
            Some(v) => {
                value = v;
            },
            None => {
                proof {
                    let k = i - start;
                    let p = digits_value(body.take(k + 1));
                    assert(p == digits_value(body.take(k)) * 10 + d);
                    lemma_digits_value_nonnegative(body.take(k));
                    if negative {
                        assert(-p < i128::MIN);
                    } else {
                        assert(p > i128::MAX);
                    }
                    if all_digit_bytes(body) {
                        assert(body.take(body.len() as int) =~= body);
                        lemma_digits_value_grows(body, k + 1, body.len() as int);
                        assert(digits_value(body) >= p);
                    }
                    let signed = s.len() > 0 && (s[0] == 45u8 || s[0] == 43u8);
                    assert(body == (if signed { s.drop_first() } else { s }));
                    if all_digit_bytes(body) {
                        if negative {
                            assert(-digits_value(body) < i128::MIN);
                        } else {
                            assert(digits_value(body) > i128::MAX);
                        }
                    }
                    assert(decimal_i128(s) is None);
                }
                return None;
            },
        }
        i += 1;
    }
    proof {
        assert(body.take(n - start) =~= body);
    }
    Some(value)
}

/// `base` raised to `exponent`.
pub open spec fn power_of(base: int, exponent: nat) -> int
    decreases exponent,
{
    if exponent == 0 {
        1
    } else {
        base * power_of(base, (exponent - 1) as nat)
    }
}

/// The magnitude of an integer.
pub open spec fn magnitude(x: int) -> int {
    if x < 0 {
        -x
    } else {
        x
    }
}

/// Powers of a base of magnitude two or more at least double with each step.
proof fn lemma_power_magnitude_grows(base: int, k: nat, j: nat)
    requires
        magnitude(base) >= 2,
        k <= j,
    ensures
        magnitude(power_of(base, j)) >= magnitude(power_of(base, k)),
        k < j ==> magnitude(power_of(base, j)) >= 2 * magnitude(power_of(base, k)),
    decreases j - k,
{
    if k < j {
        let p = power_of(base, (j - 1) as nat);
        lemma_power_magnitude_grows(base, k, (j - 1) as nat);
        assert(power_of(base, j) == base * p);
        assert(magnitude(base * p) == magnitude(base) * magnitude(p)) by (nonlinear_arith);
        assert(magnitude(base) * magnitude(p) >= 2 * magnitude(p)) by (nonlinear_arith)
            requires
                magnitude(base) >= 2,
                magnitude(p) >= 0,
        ;
    }
}

/// Powers of zero, one and minus one.
proof fn lemma_small_powers(base: int, exponent: nat)
    requires
        -1 <= base <= 1,
    ensures
        power_of(base, exponent) == (if base == 0 {
            if exponent == 0 { 1int } else { 0int }
        } else if base == 1 {
            1int
        } else if exponent % 2 == 0 {
            1int
        } else {
            -1int
        }),
    decreases exponent,
{
    if exponent > 0 {
        let e1 = (exponent - 1) as nat;
        lemma_small_powers(base, e1);
        assert(power_of(base, exponent) == base * power_of(base, e1));
        if base == 0 {
            assert(power_of(base, exponent) == 0);
        } else if base == 1 {
            assert(power_of(base, exponent) == power_of(base, e1));
        } else {
            let p = power_of(base, e1);
            assert(base * p == -p) by (nonlinear_arith)
                requires
                    base == -1,
            ;
        }
    }
}

/// `base` raised to `exponent` where the result lies in `[min, max]`, and
/// `None` where it does not; the range is that of a two's-complement width.
fn checked_power(base: i64, exponent: u32, min: i64, max: i64) -> (r: Option<i64>)
    requires
        max >= 1,
        min == -max - 1,
        min <= base <= max,
    ensures
        min <= power_of(base as int, exponent as nat) <= max ==> r == Some(
            power_of(base as int, exponent as nat) as i64,
        ),
        !(min <= power_of(base as int, exponent as nat) <= max) ==> r is None,
{
    if -1 <= base && base <= 1 {
        proof {
            lemma_small_powers(base as int, exponent as nat);
        }
        if base == 0 {
            return if exponent == 0 { Some(1) } else { Some(0) };
        } else if base == 1 {
            return Some(1);
        } else {
            return if exponent % 2 == 0 { Some(1) } else { Some(-1) };
        }
    }
    let mut acc: i64 = 1;
    let mut k: u32 = 0;
    while k < exponent
        invariant
            max >= 1,
            min == -max - 1,
            min <= base <= max,
            magnitude(base as int) >= 2,
            k <= exponent,
            acc as int == power_of(base as int, k as nat),
            min <= acc <= max,
        decreases exponent - k,
    {
        proof {
            let a = acc as int;
            let b = base as int;
            assert(magnitude(a * b) == magnitude(a) * magnitude(b)) by (nonlinear_arith);
            assert(magnitude(a) * magnitude(b) <= 0x8000_0000_0000_0000 * 0x8000_0000_0000_0000)
                by (nonlinear_arith)
                requires
                    0 <= magnitude(a) <= 0x8000_0000_0000_0000,
                    0 <= magnitude(b) <= 0x8000_0000_0000_0000,
            ;
            assert(i128::MIN <= a * b <= i128::MAX);
        }
        let product: i128 = (acc as i128) * (base as i128);
        proof {
            assert(power_of(base as int, (k + 1) as nat) == base * power_of(base as int, k as nat));
            assert(acc * base == base * acc) by (nonlinear_arith);
            assert(product == power_of(base as int, (k + 1) as nat));
        }
        if product < min as i128 || product > max as i128 {
            proof {
                let step = power_of(base as int, (k + 1) as nat);
                assert(magnitude(step) >= max + 1);
                lemma_power_magnitude_grows(base as int, (k + 1) as nat, exponent as nat);
                if k + 1 < exponent {
                    assert(magnitude(power_of(base as int, exponent as nat)) >= 2 * (max + 1));
                }
            }
            return None;
        }
        acc = product as i64;
        k += 1;
    }
    Some(acc)
}

/// Two operands of one width, ready for a numeric operator.
#[derive(Clone, Copy, Debug, PartialEq, Eq, Structural)]
pub enum NumericPair {
    /// Two 64-bit integers.
    Int(i64, i64),
    /// Two 32-bit integers.
    Sint(i32, i32),
    /// Two 64-bit floats, by bit pattern.
    Float(u64, u64),
    /// Two 32-bit floats, by bit pattern.
    Sfloat(u32, u32),
}

/// The operands as a numeric pair, where both have one numeric width.
pub open spec fn numeric_pair_of(left: ValueKey, right: ValueKey) -> Option<NumericPair> {
    match (left, right) {
        (ValueKey::Int(a), ValueKey::Int(b)) => Some(NumericPair::Int(a, b)),
        (ValueKey::Sint(a), ValueKey::Sint(b)) => Some(NumericPair::Sint(a, b)),
        (ValueKey::Float(a), ValueKey::Float(b)) => Some(NumericPair::Float(a, b)),
        (ValueKey::Sfloat(a), ValueKey::Sfloat(b)) => Some(NumericPair::Sfloat(a, b)),
        _ => None,
    }
}

/// The error for operands of different widths.
pub open spec fn width_mismatch() -> RuntimeError {
    RuntimeError::InvalidValue { message: "操作数宽度不一致；后端必须先插入显式转换" }
}

/// Extracts operands of one numeric width; any other pair is refused.
fn numeric_pair(left: &RuntimeValue, right: &RuntimeValue) -> (r: Result<NumericPair, RuntimeError>)
    ensures
        match numeric_pair_of(left@, right@) {
            Some(pair) => r == Ok::<NumericPair, RuntimeError>(pair),
            None => r == Err::<NumericPair, RuntimeError>(width_mismatch()),
        },
{
    match (left, right) {
        (RuntimeValue::Int(a), RuntimeValue::Int(b)) => Ok(NumericPair::Int(*a, *b)),
        (RuntimeValue::Sint(a), RuntimeValue::Sint(b)) => Ok(NumericPair::Sint(*a, *b)),
        (RuntimeValue::Float(a), RuntimeValue::Float(b)) => Ok(NumericPair::Float(*a, *b)),
        (RuntimeValue::Sfloat(a), RuntimeValue::Sfloat(b)) => Ok(NumericPair::Sfloat(*a, *b)),
        _ => Err(RuntimeError::InvalidValue { message: "操作数宽度不一致；后端必须先插入显式转换" }),
    }
}

/// A floating-point operation.
#[derive(Clone, Copy, Debug, PartialEq, Eq, Structural)]
pub enum FloatOperation {
    /// `+`.
    Add,
    /// `-`.
    Subtract,
    /// `*`.
    Multiply,
    /// `/`.
    Divide,
    /// `**`.
    Power,
}

/// What an arithmetic operator gives: a value, or a floating-point operation
/// for the caller to carry out on the operands' bit patterns, refusing a
/// result that is not finite.
#[derive(Clone, Debug, PartialEq, Eq)]
pub enum Evaluation {
    /// The result.
    Value(RuntimeValue),
    /// A 64-bit float operation and its operands.
    Float64(FloatOperation, u64, u64),
    /// A 32-bit float operation and its operands.
    Float32(FloatOperation, u32, u32),
}

/// An evaluation with its value taken by what it compares by.
pub enum EvaluationKey {
    /// The result.
    Value(ValueKey),
    /// A 64-bit float operation and its operands.
    Float64(FloatOperation, u64, u64),
    /// A 32-bit float operation and its operands.
    Float32(FloatOperation, u32, u32),
}

impl View for Evaluation {
    type V = EvaluationKey;

    open spec fn view(&self) -> EvaluationKey {
        match self {
            Evaluation::Value(v) => EvaluationKey::Value(v@),
            Evaluation::Float64(op, a, b) => EvaluationKey::Float64(*op, *a, *b),
            Evaluation::Float32(op, a, b) => EvaluationKey::Float32(*op, *a, *b),
        }
    }
}

/// The outcome of an operator, its value taken by what it compares by.
pub open spec fn outcome(r: Result<Evaluation, RuntimeError>) -> Result<EvaluationKey, RuntimeError> {
    match r {
        Ok(e) => Ok(e@),
        Err(error) => Err(error),
    }
}

/// The exact integer result of `+`, `-` or `*`.
pub open spec fn exact(op: FloatOperation, a: int, b: int) -> int {
    match op {
        FloatOperation::Add => a + b,
        FloatOperation::Subtract => a - b,
        _ => a * b,
    }
}

/// `+`, `-` or `*` on a numeric pair: integers are checked for overflow,
/// floats are handed to the caller.
pub open spec fn checked_arith(pair: NumericPair, op: FloatOperation) -> Result<EvaluationKey, RuntimeError> {
    match pair {
        NumericPair::Int(a, b) => if i64::MIN <= exact(op, a as int, b as int) <= i64::MAX {
            Ok(EvaluationKey::Value(ValueKey::Int(exact(op, a as int, b as int) as i64)))
        } else {
            Err(RuntimeError::NumericOverflow { message: "int 运算溢出" })
        },
        NumericPair::Sint(a, b) => if i32::MIN <= exact(op, a as int, b as int) <= i32::MAX {
            Ok(EvaluationKey::Value(ValueKey::Sint(exact(op, a as int, b as int) as i32)))
        } else {
            Err(RuntimeError::NumericOverflow { message: "sint 运算溢出" })
        },
        NumericPair::Float(a, b) => Ok(EvaluationKey::Float64(op, a, b)),
        NumericPair::Sfloat(a, b) => Ok(EvaluationKey::Float32(op, a, b)),
    }
}

/// The integer a value adds to or takes from a boolean: `int`, `sint`, or
/// `lint` text that reads as an `i128`.
pub open spec fn integer_amount(value: ValueKey) -> Option<int> {
    match value {
        ValueKey::Int(a) => Some(a as int),
        ValueKey::Sint(a) => Some(a as int),
        ValueKey::Lint(text) => decimal_i128(encode_utf8(text)),
        _ => None,
    }
}

/// `bool ± amount`: an even amount keeps the value, an odd one flips it; an
/// amount that is no integer is a type mismatch.
pub open spec fn bool_adjusted(value: bool, amount: ValueKey) -> Result<EvaluationKey, RuntimeError> {
    match integer_amount(amount) {
        Some(n) => Ok(EvaluationKey::Value(ValueKey::Bool(if n % 2 == 0 { value } else { !value }))),
        None => Err(RuntimeError::TypeMismatch { expected: "int", actual: type_label_of(amount) }),
    }
}

/// `left + right`.
pub open spec fn add_outcome(left: ValueKey, right: ValueKey) -> Result<EvaluationKey, RuntimeError> {
    match (left, right) {
        (ValueKey::Bool(b), _) => bool_adjusted(b, right),
        (ValueKey::Str(a), ValueKey::Str(b)) => Ok(EvaluationKey::Value(ValueKey::Str(a + b))),
        _ => match numeric_pair_of(left, right) {
            Some(pair) => checked_arith(pair, FloatOperation::Add),
            None => Err(width_mismatch()),
        },
    }
}

/// `left - right`.
pub open spec fn subtract_outcome(left: ValueKey, right: ValueKey) -> Result<EvaluationKey, RuntimeError> {
    match left {
        ValueKey::Bool(b) => bool_adjusted(b, right),
        _ => match numeric_pair_of(left, right) {
            Some(pair) => checked_arith(pair, FloatOperation::Subtract),
            None => Err(width_mismatch()),
        },
    }
}

/// `left * right`.
pub open spec fn multiply_outcome(left: ValueKey, right: ValueKey) -> Result<EvaluationKey, RuntimeError> {
    match numeric_pair_of(left, right) {
        Some(pair) => checked_arith(pair, FloatOperation::Multiply),
        None => Err(width_mismatch()),
    }
}

/// `left / right`: floats only.
pub open spec fn divide_outcome(left: ValueKey, right: ValueKey) -> Result<EvaluationKey, RuntimeError> {
    match numeric_pair_of(left, right) {
        Some(NumericPair::Float(a, b)) => Ok(EvaluationKey::Float64(FloatOperation::Divide, a, b)),
        Some(NumericPair::Sfloat(a, b)) => Ok(EvaluationKey::Float32(FloatOperation::Divide, a, b)),
        Some(_) => Err(RuntimeError::InvalidValue {
            message: "/ 的结果类型是浮点；后端必须先把整数操作数显式转换为浮点",
        }),
        None => Err(width_mismatch()),
    }
}

/// Floor division of `a` by `b` in a width with bounds `[min, max]`.
pub open spec fn floor_div_checked(a: int, b: int, min: int, max: int, overflow: &'static str) -> Result<int, RuntimeError> {
    if b == 0 {
        Err(RuntimeError::DivisionByZero { operator: "//" })
    } else if min <= floor_div(a, b) <= max {
        Ok(floor_div(a, b))
    } else {
        Err(RuntimeError::NumericOverflow { message: overflow })
    }
}

/// The remainder paired with floor division, in a width with bounds `[min, max]`.
pub open spec fn floor_rem_checked(
    a: int,
    b: int,
    min: int,
    max: int,
    div_overflow: &'static str,
    rem_overflow: &'static str,
) -> Result<int, RuntimeError> {
    if b == 0 {
        Err(RuntimeError::DivisionByZero { operator: "//" })
    } else if !(min <= floor_div(a, b) <= max) {
        Err(RuntimeError::NumericOverflow { message: div_overflow })
    } else if min <= floor_div(a, b) * b <= max {
        Ok(floor_rem(a, b))
    } else {
        Err(RuntimeError::NumericOverflow { message: rem_overflow })
    }
}

/// `left // right`: integers only.
pub open spec fn floor_divide_outcome(left: ValueKey, right: ValueKey) -> Result<EvaluationKey, RuntimeError> {
    match numeric_pair_of(left, right) {
        Some(NumericPair::Int(a, b)) => match floor_div_checked(a as int, b as int, i64::MIN as int, i64::MAX as int, "int 整除溢出") {
            Ok(q) => Ok(EvaluationKey::Value(ValueKey::Int(q as i64))),
            Err(e) => Err(e),
        },
        Some(NumericPair::Sint(a, b)) => match floor_div_checked(a as int, b as int, i32::MIN as int, i32::MAX as int, "sint 整除溢出") {
            Ok(q) => Ok(EvaluationKey::Value(ValueKey::Sint(q as i32))),
            Err(e) => Err(e),
        },
        Some(_) => Err(RuntimeError::InvalidValue { message: "// 只接受整数操作数" }),
        None => Err(width_mismatch()),
    }
}

/// `left % right`: integers only; the result has the sign of the divisor.
pub open spec fn remainder_outcome(left: ValueKey, right: ValueKey) -> Result<EvaluationKey, RuntimeError> {
    match numeric_pair_of(left, right) {
        Some(NumericPair::Int(a, b)) => match floor_rem_checked(a as int, b as int, i64::MIN as int, i64::MAX as int, "int 整除溢出", "int 取模溢出") {
            Ok(m) => Ok(EvaluationKey::Value(ValueKey::Int(m as i64))),
            Err(e) => Err(e),
        },
        Some(NumericPair::Sint(a, b)) => match floor_rem_checked(a as int, b as int, i32::MIN as int, i32::MAX as int, "sint 整除溢出", "sint 取模溢出") {
            Ok(m) => Ok(EvaluationKey::Value(ValueKey::Sint(m as i32))),
            Err(e) => Err(e),
        },
        Some(_) => Err(RuntimeError::InvalidValue { message: "% 只接受整数操作数" }),
        None => Err(width_mismatch()),
    }
}

/// An integer power with a checked exponent and a checked result.
pub open spec fn integer_power(base: int, exponent: int, min: int, max: int, overflow: &'static str) -> Result<int, RuntimeError> {
    if exponent < 0 {
        Err(RuntimeError::InvalidValue { message: "整数幂的指数不能为负；负指数会得到整数无法表示的结果" })
    } else if exponent > u32::MAX {
        Err(RuntimeError::NumericOverflow { message: "整数幂的指数过大" })
    } else if min <= power_of(base, exponent as nat) <= max {
        Ok(power_of(base, exponent as nat))
    } else {
        Err(RuntimeError::NumericOverflow { message: overflow })
    }
}

/// `left ** right`.
pub open spec fn power_outcome(left: ValueKey, right: ValueKey) -> Result<EvaluationKey, RuntimeError> {
    match numeric_pair_of(left, right) {
        Some(NumericPair::Int(a, b)) => match integer_power(a as int, b as int, i64::MIN as int, i64::MAX as int, "int 幂运算溢出") {
            Ok(p) => Ok(EvaluationKey::Value(ValueKey::Int(p as i64))),
            Err(e) => Err(e),
        },
        Some(NumericPair::Sint(a, b)) => match integer_power(a as int, b as int, i32::MIN as int, i32::MAX as int, "sint 幂运算溢出") {
            Ok(p) => Ok(EvaluationKey::Value(ValueKey::Sint(p as i32))),
            Err(e) => Err(e),
        },
        Some(NumericPair::Float(a, b)) => Ok(EvaluationKey::Float64(FloatOperation::Power, a, b)),
        Some(NumericPair::Sfloat(a, b)) => Ok(EvaluationKey::Float32(FloatOperation::Power, a, b)),
        None => Err(width_mismatch()),
    }
}

/// `+`, `-` or `*` on a numeric pair.
fn arith(pair: NumericPair, op: FloatOperation) -> (r: Result<Evaluation, RuntimeError>)
    requires
        op is Add || op is Subtract || op is Multiply,
    ensures
        outcome(r) == checked_arith(pair, op),
{
    match pair {
        NumericPair::Int(a, b) => {
            let result = match op {
                FloatOperation::Add => a.checked_add(b),
                FloatOperation::Subtract => a.checked_sub(b),
                _ => a.checked_mul(b),
            };
            match result {
                Some(v) => Ok(Evaluation::Value(RuntimeValue::Int(v))),
                None => Err(RuntimeError::NumericOverflow { message: "int 运算溢出" }),
            }
        },
        NumericPair::Sint(a, b) => {
            let result = match op {
                FloatOperation::Add => a.checked_add(b),
                FloatOperation::Subtract => a.checked_sub(b),
                _ => a.checked_mul(b),
            };
            match result {
                Some(v) => Ok(Evaluation::Value(RuntimeValue::Sint(v))),
                None => Err(RuntimeError::NumericOverflow { message: "sint 运算溢出" }),
            }
        },
        NumericPair::Float(a, b) => Ok(Evaluation::Float64(op, a, b)),
        NumericPair::Sfloat(a, b) => Ok(Evaluation::Float32(op, a, b)),
    }
}

/// The integer a value adds to or takes from a boolean.
fn integer_value(value: &RuntimeValue) -> (r: Option<i128>)
    ensures
        match r {
            Some(n) => integer_amount(value@) == Some(n as int),
            None => integer_amount(value@) is None,
        },
{
    match value {
        RuntimeValue::Int(v) => Some(*v as i128),
        RuntimeValue::Sint(v) => Some(*v as i128),
        RuntimeValue::Lint(text) => parse_decimal_i128(text.as_str()),
        _ => None,
    }
}

/// `bool ± amount` on a boolean value.
fn adjust_bool(value: bool, amount: &RuntimeValue) -> (r: Result<Evaluation, RuntimeError>)
    ensures
        outcome(r) == bool_adjusted(value, amount@),
{
    match integer_value(amount) {
        Some(n) => Ok(Evaluation::Value(RuntimeValue::Bool(boolean_parity(value, n)))),
        None => Err(RuntimeError::TypeMismatch { expected: "int", actual: amount.type_label() }),
    }
}

impl RuntimeValue {
    /// `bool ± amount` with an integer amount: an even amount keeps the
    /// value, an odd one flips it; a value that is no boolean is refused.
    pub fn bool_adjust(&self, amount: i128) -> (r: Result<RuntimeValue, RuntimeError>)
        ensures
            match self@ {
                ValueKey::Bool(b) => r matches Ok(v) && v@ == ValueKey::Bool(
                    if amount % 2 == 0 { b } else { !b },
                ),
                _ => r == Err::<RuntimeValue, RuntimeError>(
                    RuntimeError::TypeMismatch { expected: "bool", actual: type_label_of(self@) },
                ),
            },
    {
        match self {
            RuntimeValue::Bool(b) => Ok(RuntimeValue::Bool(boolean_parity(*b, amount))),
            _ => Err(RuntimeError::TypeMismatch { expected: "bool", actual: self.type_label() }),
        }
    }

    /// `self + other`: boolean adjustment, string concatenation, or numeric
    /// addition of one width.
    pub fn add(&self, other: &Self) -> (r: Result<Evaluation, RuntimeError>)
        ensures
            outcome(r) == add_outcome(self@, other@),
    {
        if let RuntimeValue::Bool(b) = self {
            return adjust_bool(*b, other);
        }
        if let (RuntimeValue::Str(a), RuntimeValue::Str(b)) = (self, other) {
            let mut joined = a.clone();
            joined.push_str(b.as_str());
            return Ok(Evaluation::Value(RuntimeValue::Str(joined)));
        }
        match numeric_pair(self, other) {
            Ok(pair) => arith(pair, FloatOperation::Add),
            Err(e) => Err(e),
        }
    }

    /// `self - other`: boolean adjustment or numeric subtraction of one width.
    pub fn subtract(&self, other: &Self) -> (r: Result<Evaluation, RuntimeError>)
        ensures
            outcome(r) == subtract_outcome(self@, other@),
    {
        if let RuntimeValue::Bool(b) = self {
            return adjust_bool(*b, other);
        }
        match numeric_pair(self, other) {
            Ok(pair) => arith(pair, FloatOperation::Subtract),
            Err(e) => Err(e),
        }
    }

    /// `self * other` for numbers of one width.
    pub fn multiply(&self, other: &Self) -> (r: Result<Evaluation, RuntimeError>)
        ensures
            outcome(r) == multiply_outcome(self@, other@),
    {
        match numeric_pair(self, other) {
            Ok(pair) => arith(pair, FloatOperation::Multiply),
            Err(e) => Err(e),
        }
    }

    /// `self / other`: its result is a float, so it takes floats of one width.
    pub fn divide(&self, other: &Self) -> (r: Result<Evaluation, RuntimeError>)
        ensures
            outcome(r) == divide_outcome(self@, other@),
    {
        match numeric_pair(self, other) {
            Ok(NumericPair::Float(a, b)) => Ok(Evaluation::Float64(FloatOperation::Divide, a, b)),
            Ok(NumericPair::Sfloat(a, b)) => Ok(Evaluation::Float32(FloatOperation::Divide, a, b)),
            Ok(_) => Err(RuntimeError::InvalidValue {
                message: "/ 的结果类型是浮点；后端必须先把整数操作数显式转换为浮点",
            }),
            Err(e) => Err(e),
        }
    }

    /// `self // other`: floor division of integers of one width.
    pub fn floor_divide(&self, other: &Self) -> (r: Result<Evaluation, RuntimeError>)
        ensures
            outcome(r) == floor_divide_outcome(self@, other@),
    {
        match numeric_pair(self, other) {
            Ok(NumericPair::Int(a, b)) => match floor_div_int64(a, b) {
                Ok(q) => Ok(Evaluation::Value(RuntimeValue::Int(q))),
                Err(e) => Err(e),
            },
            Ok(NumericPair::Sint(a, b)) => match floor_div_int32(a, b) {
                Ok(q) => Ok(Evaluation::Value(RuntimeValue::Sint(q))),
                Err(e) => Err(e),
            },
            Ok(_) => Err(RuntimeError::InvalidValue { message: "// 只接受整数操作数" }),
            Err(e) => Err(e),
        }
    }

    /// `self % other`: the remainder of floor division of integers of one
    /// width, with the sign of the divisor.
    pub fn remainder(&self, other: &Self) -> (r: Result<Evaluation, RuntimeError>)
        ensures
            outcome(r) == remainder_outcome(self@, other@),
    {
        match numeric_pair(self, other) {
            Ok(NumericPair::Int(a, b)) => match floor_rem_int64(a, b) {
                Ok(m) => Ok(Evaluation::Value(RuntimeValue::Int(m))),
                Err(e) => Err(e),
            },
            Ok(NumericPair::Sint(a, b)) => match floor_rem_int32(a, b) {
                Ok(m) => Ok(Evaluation::Value(RuntimeValue::Sint(m))),
                Err(e) => Err(e),
            },
            Ok(_) => Err(RuntimeError::InvalidValue { message: "% 只接受整数操作数" }),
            Err(e) => Err(e),
        }
    }

    /// `self ** other`: an integer power takes an exponent of at least zero.
    pub fn power(&self, other: &Self) -> (r: Result<Evaluation, RuntimeError>)
        ensures
            outcome(r) == power_outcome(self@, other@),
    {
        match numeric_pair(self, other) {
            Ok(NumericPair::Int(a, b)) => {
                let exponent = match non_negative_exponent(b) {
                    Ok(e) => e,
                    Err(e) => {
                        return Err(e);
                    },
                };
                match checked_power(a, exponent, i64::MIN, i64::MAX) {
                    Some(v) => Ok(Evaluation::Value(RuntimeValue::Int(v))),
                    None => Err(RuntimeError::NumericOverflow { message: "int 幂运算溢出" }),
                }
            },
            Ok(NumericPair::Sint(a, b)) => {
                let exponent = match non_negative_exponent(b as i64) {
                    Ok(e) => e,
                    Err(e) => {
                        return Err(e);
                    },
                };
                match checked_power(a as i64, exponent, i32::MIN as i64, i32::MAX as i64) {
                    Some(v) => Ok(Evaluation::Value(RuntimeValue::Sint(v as i32))),
                    None => Err(RuntimeError::NumericOverflow { message: "sint 幂运算溢出" }),
                }
            },
            Ok(NumericPair::Float(a, b)) => Ok(Evaluation::Float64(FloatOperation::Power, a, b)),
            Ok(NumericPair::Sfloat(a, b)) => Ok(Evaluation::Float32(FloatOperation::Power, a, b)),
            Err(e) => Err(e),
        }
    }
}

/// An ordering relation between two values.
#[derive(Clone, Copy, Debug, PartialEq, Eq, Structural)]
pub enum Relation {
    /// `<`.
    Less,
    /// `<=`.
    LessEqual,
    /// `>`.
    Greater,
    /// `>=`.
    GreaterEqual,
}

/// Whether the relation holds of two values whose order has the given sign.
pub open spec fn relation_holds(relation: Relation, sign: int) -> bool {
    match relation {
        Relation::Less => sign < 0,
        Relation::LessEqual => sign <= 0,
        Relation::Greater => sign > 0,
        Relation::GreaterEqual => sign >= 0,
    }
}

/// What a comparison gives: a decision, or two floats of one width for the
/// caller to compare by the relation it asked for.
#[derive(Clone, Copy, Debug, PartialEq, Eq, Structural)]
pub enum Comparison {
    /// The relation holds or not.
    Decided(bool),
    /// Two 64-bit floats, by bit pattern.
    Float64(u64, u64),
    /// Two 32-bit floats, by bit pattern.
    Float32(u32, u32),
}

/// The sign of the lexicographic order of two byte strings.
pub open spec fn byte_order(a: Seq<u8>, b: Seq<u8>) -> int
    decreases a.len(),
{
    if a.len() == 0 && b.len() == 0 {
        0
    } else if a.len() == 0 {
        -1
    } else if b.len() == 0 {
        1
    } else if a[0] < b[0] {
        -1
    } else if a[0] > b[0] {
        1
    } else {
        byte_order(a.drop_first(), b.drop_first())
    }
}

/// The sign of the order of two integers.
pub open spec fn int_sign(a: int, b: int) -> int {
    if a < b {
        -1
    } else if a == b {
        0
    } else {
        1
    }
}

/// A relation between two values: strings by the order of their UTF-8
/// bytes, numbers of one width by value, and floats left to the caller.
pub open spec fn comparison_outcome(left: ValueKey, right: ValueKey, relation: Relation) -> Result<Comparison, RuntimeError> {
    match (left, right) {
        (ValueKey::Str(a), ValueKey::Str(b)) => Ok(
            Comparison::Decided(relation_holds(relation, byte_order(encode_utf8(a), encode_utf8(b)))),
        ),
        _ => match numeric_pair_of(left, right) {
            Some(NumericPair::Int(a, b)) => Ok(Comparison::Decided(relation_holds(relation, int_sign(a as int, b as int)))),
            Some(NumericPair::Sint(a, b)) => Ok(Comparison::Decided(relation_holds(relation, int_sign(a as int, b as int)))),
            Some(NumericPair::Float(a, b)) => Ok(Comparison::Float64(a, b)),
            Some(NumericPair::Sfloat(a, b)) => Ok(Comparison::Float32(a, b)),
            None => Err(width_mismatch()),
        },
    }
}

/// Orders two byte strings lexicographically; the result is the sign.
fn order_bytes(a: &[u8], b: &[u8]) -> (r: i8)
    ensures
        r as int == byte_order(a@, b@),
{
    let mut i: usize = 0;
    proof {
        assert(a@.skip(0) =~= a@);
        assert(b@.skip(0) =~= b@);
    }
    loop
        invariant
            i <= a.len(),
            i <= b.len(),
            byte_order(a@, b@) == byte_order(a@.skip(i as int), b@.skip(i as int)),
        decreases a.len() - i,
    {
        let ghost sa = a@.skip(i as int);
        let ghost sb = b@.skip(i as int);
        if i == a.len() && i == b.len() {
            return 0;
        }
        if i == a.len() {
            return -1;
        }
        if i == b.len() {
            return 1;
        }
        proof {
            assert(sa[0] == a@[i as int]);
            assert(sb[0] == b@[i as int]);
        }
        if a[i] < b[i] {
            return -1;
        }
        if a[i] > b[i] {
            return 1;
        }
        proof {
            assert(sa.drop_first() =~= a@.skip(i as int + 1));
            assert(sb.drop_first() =~= b@.skip(i as int + 1));
        }
        i += 1;
    }
}

/// Orders two integers; the result is the sign.
fn order_ints(a: i64, b: i64) -> (r: i8)
    ensures
        r as int == int_sign(a as int, b as int),
{
    if a < b {
        -1
    } else if a == b {
        0
    } else {
        1
    }
}

/// Whether a relation holds for a sign.
fn holds_for(relation: Relation, sign: i8) -> (r: bool)
    ensures
        r == relation_holds(relation, sign as int),
{
    match relation {
        Relation::Less => sign < 0,
        Relation::LessEqual => sign <= 0,
        Relation::Greater => sign > 0,
        Relation::GreaterEqual => sign >= 0,
    }
}

/// Whether a scalar type has a fixed machine width.
pub open spec fn machine_numeric(ty: ScalarType) -> bool {
    ty is Int || ty is Sint || ty is Float || ty is Sfloat
}

/// Whether a scalar type is a float of fixed width.
pub open spec fn machine_float(ty: ScalarType) -> bool {
    ty is Float || ty is Sfloat
}

/// Whether a scalar type has extensible precision.
pub open spec fn high_precision(ty: ScalarType) -> bool {
    ty is Lint || ty is Lfloat
}

/// What a conversion gives: a value, or a conversion through floating point
/// for the caller to carry out, refusing a result out of the target's range.
#[derive(Clone, Debug, PartialEq, Eq)]
pub enum Conversion {
    /// The converted value.
    Value(RuntimeValue),
    /// A numeric value to convert to a type, where the source or the target is
    /// a float.
    ThroughFloat(RuntimeValue, ScalarType),
}

/// A conversion with its values taken by what they compare by.
pub enum ConversionKey {
    /// The converted value.
    Value(ValueKey),
    /// The value and the target of a conversion through floating point.
    ThroughFloat(ValueKey, ScalarType),
}

/// The outcome of a conversion, its values taken by what they compare by.
pub open spec fn converted(r: Result<Conversion, RuntimeError>) -> Result<ConversionKey, RuntimeError> {
    match r {
        Ok(Conversion::Value(v)) => Ok(ConversionKey::Value(v@)),
        Ok(Conversion::ThroughFloat(v, ty)) => Ok(ConversionKey::ThroughFloat(v@, ty)),
        Err(error) => Err(error),
    }
}

/// `str` to `bool`: exactly `true`, `True`, `false` and `False` convert.
pub open spec fn text_to_bool(text: Seq<char>) -> Result<ConversionKey, RuntimeError> {
    if text == "true"@ || text == "True"@ {
        Ok(ConversionKey::Value(ValueKey::Bool(true)))
    } else if text == "false"@ || text == "False"@ {
        Ok(ConversionKey::Value(ValueKey::Bool(false)))
    } else {
        Err(RuntimeError::InvalidValue { message: "只有 true/True/false/False 可以转换为 bool" })
    }
}

/// The explicit conversion of a value to a scalar type.
pub open spec fn conversion_outcome(value: ValueKey, target: ScalarType) -> Result<ConversionKey, RuntimeError> {
    match scalar_type_of(value) {
        None => Err(RuntimeError::InvalidValue { message: "值不是标量，不能转换" }),
        Some(source) => if source == target {
            Ok(ConversionKey::Value(value))
        } else {
            match (value, target) {
                (ValueKey::Str(text), ScalarType::Bool) => text_to_bool(text),
                (ValueKey::Bool(b), ScalarType::Str) => Ok(
                    ConversionKey::Value(ValueKey::Str(if b { "true"@ } else { "false"@ })),
                ),
                (ValueKey::Sint(v), ScalarType::Int) => Ok(ConversionKey::Value(ValueKey::Int(v as i64))),
                (ValueKey::Int(v), ScalarType::Sint) => if i32::MIN <= v <= i32::MAX {
                    Ok(ConversionKey::Value(ValueKey::Sint(v as i32)))
                } else {
                    Err(RuntimeError::NumericOverflow { message: "转换结果超出 sint 的表示范围" })
                },
                _ => if machine_numeric(source) && machine_numeric(target) && (machine_float(source)
                    || machine_float(target)) {
                    Ok(ConversionKey::ThroughFloat(value, target))
                } else if high_precision(source) || high_precision(target) {
                    Err(RuntimeError::InvalidValue { message: "高精度数值之间的转换尚未实现" })
                } else {
                    Err(RuntimeError::InvalidValue { message: "不支持这种标量转换" })
                },
            }
        },
    }
}

/// Whether `text` has exactly the characters of `expected`.
fn text_equals(text: &str, expected: &str) -> (r: bool)
    ensures
        r == (text@ == expected@),
{
    let n = text.unicode_len();
    if n != expected.unicode_len() {
        return false;
    }
    let mut i: usize = 0;
    while i < n
        invariant
            n == text@.len(),
            n == expected@.len(),
            i <= n,
            forall|j: int| 0 <= j < i ==> text@[j] == expected@[j],
        decreases n - i,
    {
        if text.get_char(i) != expected.get_char(i) {
            return false;
        }
        i += 1;
    }
    proof {
        assert(text@ =~= expected@);
    }
    true
}

impl RuntimeValue {
    /// The relation between two values: strings by the order of their UTF-8
    /// bytes, numbers of one width by value; floats are left to the caller.
    fn compare(&self, other: &Self, relation: Relation) -> (r: Result<Comparison, RuntimeError>)
        ensures
            r == comparison_outcome(self@, other@, relation),
    {
        if let (RuntimeValue::Str(a), RuntimeValue::Str(b)) = (self, other) {
            let sign = order_bytes(a.as_str().as_bytes(), b.as_str().as_bytes());
            return Ok(Comparison::Decided(holds_for(relation, sign)));
        }
        match numeric_pair(self, other) {
            Ok(NumericPair::Int(a, b)) => Ok(Comparison::Decided(holds_for(relation, order_ints(a, b)))),
            Ok(NumericPair::Sint(a, b)) => Ok(
                Comparison::Decided(holds_for(relation, order_ints(a as i64, b as i64))),
            ),
            Ok(NumericPair::Float(a, b)) => Ok(Comparison::Float64(a, b)),
            Ok(NumericPair::Sfloat(a, b)) => Ok(Comparison::Float32(a, b)),
            Err(e) => Err(e),
        }
    }

    /// `self < other`.
    pub fn less(&self, other: &Self) -> (r: Result<Comparison, RuntimeError>)
        ensures
            r == comparison_outcome(self@, other@, Relation::Less),
    {
        self.compare(other, Relation::Less)
    }

    /// `self <= other`.
    pub fn less_equal(&self, other: &Self) -> (r: Result<Comparison, RuntimeError>)
        ensures
            r == comparison_outcome(self@, other@, Relation::LessEqual),
    {
        self.compare(other, Relation::LessEqual)
    }

    /// `self > other`.
    pub fn greater(&self, other: &Self) -> (r: Result<Comparison, RuntimeError>)
        ensures
            r == comparison_outcome(self@, other@, Relation::Greater),
    {
        self.compare(other, Relation::Greater)
    }

    /// `self >= other`.
    pub fn greater_equal(&self, other: &Self) -> (r: Result<Comparison, RuntimeError>)
        ensures
            r == comparison_outcome(self@, other@, Relation::GreaterEqual),
    {
        self.compare(other, Relation::GreaterEqual)
    }

    /// The explicit conversion `self as target`.
    pub fn convert_to(&self, target: ScalarType) -> (r: Result<Conversion, RuntimeError>)
        ensures
            converted(r) == conversion_outcome(self@, target),
    {
        let source = match self.scalar_type() {
            Some(ty) => ty,
            None => {
                return Err(RuntimeError::InvalidValue { message: "值不是标量，不能转换" });
            },
        };
        if source == target {
            return Ok(Conversion::Value(duplicate(self)));
        }
        match (self, target) {
            (RuntimeValue::Str(text), ScalarType::Bool) => {
                if text_equals(text.as_str(), "true") || text_equals(text.as_str(), "True") {
                    Ok(Conversion::Value(RuntimeValue::Bool(true)))
                } else if text_equals(text.as_str(), "false") || text_equals(text.as_str(), "False") {
                    Ok(Conversion::Value(RuntimeValue::Bool(false)))
                } else {
                    Err(RuntimeError::InvalidValue { message: "只有 true/True/false/False 可以转换为 bool" })
                }
            },
            (RuntimeValue::Bool(b), ScalarType::Str) => {
                let text = if *b { "true".to_owned() } else { "false".to_owned() };
                Ok(Conversion::Value(RuntimeValue::Str(text)))
            },
            (RuntimeValue::Sint(v), ScalarType::Int) => Ok(Conversion::Value(RuntimeValue::Int(*v as i64))),
            (RuntimeValue::Int(v), ScalarType::Sint) => {
                if i32::MIN as i64 <= *v && *v <= i32::MAX as i64 {
                    Ok(Conversion::Value(RuntimeValue::Sint(*v as i32)))
                } else {
                    Err(RuntimeError::NumericOverflow { message: "转换结果超出 sint 的表示范围" })
                }
            },
            _ => {
                let numeric_source = matches!(source, ScalarType::Int | ScalarType::Sint | ScalarType::Float | ScalarType::Sfloat);
                let numeric_target = matches!(target, ScalarType::Int | ScalarType::Sint | ScalarType::Float | ScalarType::Sfloat);
                let float_involved = matches!(source, ScalarType::Float | ScalarType::Sfloat)
                    || matches!(target, ScalarType::Float | ScalarType::Sfloat);
                if numeric_source && numeric_target && float_involved {
                    Ok(Conversion::ThroughFloat(duplicate(self), target))
                } else if matches!(source, ScalarType::Lint | ScalarType::Lfloat) || matches!(
                    target,
                    ScalarType::Lint | ScalarType::Lfloat
                ) {
                    Err(RuntimeError::InvalidValue { message: "高精度数值之间的转换尚未实现" })
                } else {
                    Err(RuntimeError::InvalidValue { message: "不支持这种标量转换" })
                }
            },
        }
    }
}

/// Swapping two byte strings negates the sign of their order.
pub proof fn lemma_byte_order_antisymmetric(a: Seq<u8>, b: Seq<u8>)
    ensures
        byte_order(a, b) == -byte_order(b, a),
    decreases a.len(),
{
    if a.len() > 0 && b.len() > 0 && a[0] == b[0] {
        lemma_byte_order_antisymmetric(a.drop_first(), b.drop_first());
    }
}

/// Comparisons are consistent in both directions: `a < b` decides as
/// `b > a` does and `a <= b` as `b >= a`, and both refuse or hand the same
/// floats over together.
pub proof fn lemma_comparison_converse(left: ValueKey, right: ValueKey)
    ensures
        comparison_outcome(left, right, Relation::Less) matches Ok(Comparison::Float64(a, b)) ==> comparison_outcome(right, left, Relation::Greater) == Ok::<Comparison, RuntimeError>(Comparison::Float64(b, a)),
        comparison_outcome(left, right, Relation::Less) matches Ok(Comparison::Float32(a, b)) ==> comparison_outcome(right, left, Relation::Greater) == Ok::<Comparison, RuntimeError>(Comparison::Float32(b, a)),
        comparison_outcome(left, right, Relation::Less) matches Ok(Comparison::Decided(x)) ==> comparison_outcome(right, left, Relation::Greater) == Ok::<Comparison, RuntimeError>(Comparison::Decided(x)),
        comparison_outcome(left, right, Relation::LessEqual) matches Ok(Comparison::Decided(x)) ==> comparison_outcome(right, left, Relation::GreaterEqual) == Ok::<Comparison, RuntimeError>(Comparison::Decided(x)),
        comparison_outcome(left, right, Relation::Less) is Err <==> comparison_outcome(right, left, Relation::Greater) is Err,
{
    match (left, right) {
        (ValueKey::Str(a), ValueKey::Str(b)) => {
            lemma_byte_order_antisymmetric(encode_utf8(a), encode_utf8(b));
        },
        _ => {},
    }
}

/// Operands of different widths are refused alike by every arithmetic
/// operator: no width is ever widened implicitly.
pub proof fn lemma_mixed_widths_refused(left: ValueKey, right: ValueKey)
    requires
        numeric_pair_of(left, right) is None,
        !(left is Bool),
        !(left is Str && right is Str),
    ensures
        add_outcome(left, right) == Err::<EvaluationKey, RuntimeError>(width_mismatch()),
        subtract_outcome(left, right) == Err::<EvaluationKey, RuntimeError>(width_mismatch()),
        multiply_outcome(left, right) == Err::<EvaluationKey, RuntimeError>(width_mismatch()),
        divide_outcome(left, right) == Err::<EvaluationKey, RuntimeError>(width_mismatch()),
        floor_divide_outcome(left, right) == Err::<EvaluationKey, RuntimeError>(width_mismatch()),
        remainder_outcome(left, right) == Err::<EvaluationKey, RuntimeError>(width_mismatch()),
        power_outcome(left, right) == Err::<EvaluationKey, RuntimeError>(width_mismatch()),
        comparison_outcome(left, right, Relation::Less) == Err::<Comparison, RuntimeError>(width_mismatch()),
{
}

/// Integer `+`, `-` and `*` on two `int` values give the exact sum,
/// difference (left minus right) and product when it fits in 64 bits, and
/// an overflow error otherwise.
pub proof fn lemma_int_arithmetic_is_exact(a: i64, b: i64)
    ensures
        i64::MIN <= a + b <= i64::MAX ==> add_outcome(ValueKey::Int(a), ValueKey::Int(b)) == Ok::<
            EvaluationKey,
            RuntimeError,
        >(EvaluationKey::Value(ValueKey::Int((a + b) as i64))),
        i64::MIN <= a - b <= i64::MAX ==> subtract_outcome(ValueKey::Int(a), ValueKey::Int(b)) == Ok::<
            EvaluationKey,
            RuntimeError,
        >(EvaluationKey::Value(ValueKey::Int((a - b) as i64))),
        i64::MIN <= a * b <= i64::MAX ==> multiply_outcome(ValueKey::Int(a), ValueKey::Int(b)) == Ok::<
            EvaluationKey,
            RuntimeError,
        >(EvaluationKey::Value(ValueKey::Int((a * b) as i64))),
        !(i64::MIN <= a + b <= i64::MAX) ==> add_outcome(ValueKey::Int(a), ValueKey::Int(b)) is Err,
        !(i64::MIN <= a - b <= i64::MAX) ==> subtract_outcome(ValueKey::Int(a), ValueKey::Int(b)) is Err,
        !(i64::MIN <= a * b <= i64::MAX) ==> multiply_outcome(ValueKey::Int(a), ValueKey::Int(b)) is Err,
{
}

/// Integer `+`, `-` and `*` on two `sint` values give the exact sum,
/// difference (left minus right) and product when it fits in 32 bits, and
/// an overflow error otherwise.
pub proof fn lemma_sint_arithmetic_is_exact(a: i32, b: i32)
    ensures
        i32::MIN <= a + b <= i32::MAX ==> add_outcome(ValueKey::Sint(a), ValueKey::Sint(b)) == Ok::<
            EvaluationKey,
            RuntimeError,
        >(EvaluationKey::Value(ValueKey::Sint((a + b) as i32))),
        i32::MIN <= a - b <= i32::MAX ==> subtract_outcome(ValueKey::Sint(a), ValueKey::Sint(b)) == Ok::<
            EvaluationKey,
            RuntimeError,
        >(EvaluationKey::Value(ValueKey::Sint((a - b) as i32))),
        i32::MIN <= a * b <= i32::MAX ==> multiply_outcome(ValueKey::Sint(a), ValueKey::Sint(b)) == Ok::<
            EvaluationKey,
            RuntimeError,
        >(EvaluationKey::Value(ValueKey::Sint((a * b) as i32))),
        !(i32::MIN <= a + b <= i32::MAX) ==> add_outcome(ValueKey::Sint(a), ValueKey::Sint(b)) is Err,
        !(i32::MIN <= a - b <= i32::MAX) ==> subtract_outcome(ValueKey::Sint(a), ValueKey::Sint(b)) is Err,
        !(i32::MIN <= a * b <= i32::MAX) ==> multiply_outcome(ValueKey::Sint(a), ValueKey::Sint(b)) is Err,
{
}

/// Subtraction undoes addition: when `a + b` fits, subtracting `b` from it
/// gives `a` back.
pub proof fn lemma_subtract_undoes_add(a: i64, b: i64)
    requires
        i64::MIN <= a + b <= i64::MAX,
    ensures
        add_outcome(ValueKey::Int(a), ValueKey::Int(b)) matches Ok(EvaluationKey::Value(ValueKey::Int(s)))
            && subtract_outcome(ValueKey::Int(s), ValueKey::Int(b)) == Ok::<EvaluationKey, RuntimeError>(
            EvaluationKey::Value(ValueKey::Int(a)),
        ),
{
}

/// The order comparisons decide integers of one width by their value:
/// `a < b`, `a <= b`, `a > b` and `a >= b` of left against right.
pub proof fn lemma_integer_comparisons(a: i64, b: i64, x: i32, y: i32)
    ensures
        comparison_outcome(ValueKey::Int(a), ValueKey::Int(b), Relation::Less) == Ok::<Comparison, RuntimeError>(
            Comparison::Decided(a < b),
        ),
        comparison_outcome(ValueKey::Int(a), ValueKey::Int(b), Relation::LessEqual) == Ok::<Comparison, RuntimeError>(
            Comparison::Decided(a <= b),
        ),
        comparison_outcome(ValueKey::Int(a), ValueKey::Int(b), Relation::Greater) == Ok::<Comparison, RuntimeError>(
            Comparison::Decided(a > b),
        ),
        comparison_outcome(ValueKey::Int(a), ValueKey::Int(b), Relation::GreaterEqual) == Ok::<
            Comparison,
            RuntimeError,
        >(Comparison::Decided(a >= b)),
        comparison_outcome(ValueKey::Sint(x), ValueKey::Sint(y), Relation::Less) == Ok::<Comparison, RuntimeError>(
            Comparison::Decided(x < y),
        ),
        comparison_outcome(ValueKey::Sint(x), ValueKey::Sint(y), Relation::LessEqual) == Ok::<
            Comparison,
            RuntimeError,
        >(Comparison::Decided(x <= y)),
        comparison_outcome(ValueKey::Sint(x), ValueKey::Sint(y), Relation::Greater) == Ok::<Comparison, RuntimeError>(
            Comparison::Decided(x > y),
        ),
        comparison_outcome(ValueKey::Sint(x), ValueKey::Sint(y), Relation::GreaterEqual) == Ok::<
            Comparison,
            RuntimeError,
        >(Comparison::Decided(x >= y)),
{
}

/// Floor division and remainder on `sint` values: where the quotient and
/// the quotient times the divisor fit, `a // b` and `a % b` give `q` and `m`
/// with `a == q * b + m`, `m` taking the sign of `b` and smaller than `b` in
/// size.
pub proof fn lemma_sint_floor_division(a: i32, b: i32)
    requires
        b != 0,
        i32::MIN <= floor_div(a as int, b as int) <= i32::MAX,
        i32::MIN <= floor_div(a as int, b as int) * b <= i32::MAX,
    ensures
        floor_divide_outcome(ValueKey::Sint(a), ValueKey::Sint(b)) matches Ok(
            EvaluationKey::Value(ValueKey::Sint(q)),
        ) && remainder_outcome(ValueKey::Sint(a), ValueKey::Sint(b)) matches Ok(
            EvaluationKey::Value(ValueKey::Sint(m)),
        ) && a == q * b + m && (b > 0 ==> 0 <= m < b) && (b < 0 ==> b < m <= 0),
{
    crate::runtime::numeric::lemma_floor_division_pairs(a as int, b as int);
    let q = floor_div(a as int, b as int);
    assert(q * b == b * q) by (nonlinear_arith);
}

/// Floor division and remainder on `int` values: where the quotient and the
/// quotient times the divisor fit, `a // b` and `a % b` give `q` and `m`
/// with `a == q * b + m`, `m` taking the sign of `b` and smaller than `b` in
/// size.
pub proof fn lemma_int_floor_division(a: i64, b: i64)
    requires
        b != 0,
        i64::MIN <= floor_div(a as int, b as int) <= i64::MAX,
        i64::MIN <= floor_div(a as int, b as int) * b <= i64::MAX,
    ensures
        floor_divide_outcome(ValueKey::Int(a), ValueKey::Int(b)) matches Ok(EvaluationKey::Value(ValueKey::Int(q)))
            && remainder_outcome(ValueKey::Int(a), ValueKey::Int(b)) matches Ok(
            EvaluationKey::Value(ValueKey::Int(m)),
        ) && a == q * b + m && (b > 0 ==> 0 <= m < b) && (b < 0 ==> b < m <= 0),
{
    crate::runtime::numeric::lemma_floor_division_pairs(a as int, b as int);
    let q = floor_div(a as int, b as int);
    assert(q * b == b * q) by (nonlinear_arith);
}

/// A division by zero is refused by `//` and `%` alike.
pub proof fn lemma_division_by_zero_refused(a: i64, x: i32)
    ensures
        floor_divide_outcome(ValueKey::Int(a), ValueKey::Int(0)) is Err,
        remainder_outcome(ValueKey::Int(a), ValueKey::Int(0)) is Err,
        floor_divide_outcome(ValueKey::Sint(x), ValueKey::Sint(0)) is Err,
        remainder_outcome(ValueKey::Sint(x), ValueKey::Sint(0)) is Err,
{
}

/// A string converts to `bool` exactly when it is spelled `true`, `True`,
/// `false` or `False`: the first two give `true`, the other two `false`, and
/// every other string is refused.
pub proof fn lemma_text_to_bool(text: Seq<char>)
    ensures
        text == "true"@ || text == "True"@ ==> conversion_outcome(ValueKey::Str(text), ScalarType::Bool) == Ok::<
            ConversionKey,
            RuntimeError,
        >(ConversionKey::Value(ValueKey::Bool(true))),
        text == "false"@ || text == "False"@ ==> conversion_outcome(ValueKey::Str(text), ScalarType::Bool) == Ok::<
            ConversionKey,
            RuntimeError,
        >(ConversionKey::Value(ValueKey::Bool(false))),
        !(text == "true"@ || text == "True"@ || text == "false"@ || text == "False"@) ==> conversion_outcome(
            ValueKey::Str(text),
            ScalarType::Bool,
        ) is Err,
{
    reveal_strlit("true");
    reveal_strlit("True");
    reveal_strlit("false");
    reveal_strlit("False");
    assert("true"@.len() == 4 && "True"@.len() == 4);
    assert("false"@.len() == 5 && "False"@.len() == 5);
}

/// A boolean written as a string reads back as the same boolean:
/// `(b as str) as bool == b`.
pub proof fn lemma_bool_text_round_trip(b: bool)
    ensures
        conversion_outcome(ValueKey::Bool(b), ScalarType::Str) matches Ok(ConversionKey::Value(ValueKey::Str(t)))
            && conversion_outcome(ValueKey::Str(t), ScalarType::Bool) == Ok::<ConversionKey, RuntimeError>(
            ConversionKey::Value(ValueKey::Bool(b)),
        ),
{
    reveal_strlit("true");
    reveal_strlit("True");
    reveal_strlit("false");
    reveal_strlit("False");
    assert("true"@.len() == 4 && "True"@.len() == 4);
    assert("false"@.len() == 5 && "False"@.len() == 5);
}

/// Integer powers step by one factor: `a ** 0` is `1`, and where `a ** n`
/// is `p` and `a * p` fits, `a ** (n + 1)` is `a * p`; a negative exponent
/// is refused.
pub proof fn lemma_int_power_steps(a: i64, n: i64)
    requires
        0 <= n < u32::MAX,
    ensures
        power_outcome(ValueKey::Int(a), ValueKey::Int(0)) == Ok::<EvaluationKey, RuntimeError>(
            EvaluationKey::Value(ValueKey::Int(1)),
        ),
        power_outcome(ValueKey::Int(a), ValueKey::Int(n)) matches Ok(EvaluationKey::Value(ValueKey::Int(p)))
            ==> (i64::MIN <= a * p <= i64::MAX ==> power_outcome(ValueKey::Int(a), ValueKey::Int((n + 1) as i64))
            == Ok::<EvaluationKey, RuntimeError>(EvaluationKey::Value(ValueKey::Int((a * p) as i64)))),
        power_outcome(ValueKey::Int(a), ValueKey::Int(-1i64)) is Err,
{
    assert(power_of(a as int, (n + 1) as nat) == a * power_of(a as int, n as nat));
}

/// `sint` powers step by one factor: `a ** 0` is `1`, and where `a ** n` is
/// `p` and `a * p` fits, `a ** (n + 1)` is `a * p`; a negative exponent is
/// refused.
pub proof fn lemma_sint_power_steps(a: i32, n: i32)
    requires
        0 <= n < i32::MAX,
    ensures
        power_outcome(ValueKey::Sint(a), ValueKey::Sint(0)) == Ok::<EvaluationKey, RuntimeError>(
            EvaluationKey::Value(ValueKey::Sint(1)),
        ),
        power_outcome(ValueKey::Sint(a), ValueKey::Sint(n)) matches Ok(EvaluationKey::Value(ValueKey::Sint(p)))
            ==> (i32::MIN <= a * p <= i32::MAX ==> power_outcome(ValueKey::Sint(a), ValueKey::Sint((n + 1) as i32))
            == Ok::<EvaluationKey, RuntimeError>(EvaluationKey::Value(ValueKey::Sint((a * p) as i32)))),
        power_outcome(ValueKey::Sint(a), ValueKey::Sint(-1i32)) is Err,
{
    assert(power_of(a as int, (n + 1) as nat) == a * power_of(a as int, n as nat));
}

/// `+` on two strings joins them, left first.
pub proof fn lemma_string_concatenation(a: Seq<char>, b: Seq<char>)
    ensures
        add_outcome(ValueKey::Str(a), ValueKey::Str(b)) matches Ok(EvaluationKey::Value(ValueKey::Str(t)))
            && t.len() == a.len() + b.len() && t.subrange(0, a.len() as int) == a && t.subrange(
            a.len() as int,
            t.len() as int,
        ) == b,
{
    assert((a + b).subrange(0, a.len() as int) =~= a);
    assert((a + b).subrange(a.len() as int, (a + b).len() as int) =~= b);
}

/// A boolean plus or minus an integer flips once per unit: an even amount
/// keeps it and an odd one negates it.
pub proof fn lemma_bool_steps(b: bool, n: i64)
    ensures
        add_outcome(ValueKey::Bool(b), ValueKey::Int(n)) == Ok::<EvaluationKey, RuntimeError>(
            EvaluationKey::Value(ValueKey::Bool(if n % 2 == 0 { b } else { !b })),
        ),
        subtract_outcome(ValueKey::Bool(b), ValueKey::Int(n)) == Ok::<EvaluationKey, RuntimeError>(
            EvaluationKey::Value(ValueKey::Bool(if n % 2 == 0 { b } else { !b })),
        ),
{
}

/// Conversions between the two integer widths keep the value: `sint` to
/// `int` always, `int` to `sint` exactly when it fits, and a value that
/// went from `sint` to `int` comes back unchanged.
pub proof fn lemma_integer_width_conversions(v: i64, w: i32)
    ensures
        conversion_outcome(ValueKey::Sint(w), ScalarType::Int) == Ok::<ConversionKey, RuntimeError>(
            ConversionKey::Value(ValueKey::Int(w as i64)),
        ),
        i32::MIN <= v <= i32::MAX ==> conversion_outcome(ValueKey::Int(v), ScalarType::Sint) == Ok::<
            ConversionKey,
            RuntimeError,
        >(ConversionKey::Value(ValueKey::Sint(v as i32))),
        !(i32::MIN <= v <= i32::MAX) ==> conversion_outcome(ValueKey::Int(v), ScalarType::Sint) is Err,
        conversion_outcome(ValueKey::Int(w as i64), ScalarType::Sint) == Ok::<ConversionKey, RuntimeError>(
            ConversionKey::Value(ValueKey::Sint(w)),
        ),
{
}

/// The bytes of two strings one after the other are the bytes of their
/// concatenation.
proof fn lemma_encode_concat(a: Seq<char>, b: Seq<char>)
    ensures
        encode_utf8(a + b) == encode_utf8(a) + encode_utf8(b),
    decreases a.len(),
{
    if a.len() > 0 {
        assert((a + b).drop_first() =~= a.drop_first() + b);
        assert((a + b)[0] == a[0]);
        lemma_encode_concat(a.drop_first(), b);
        assert(encode_utf8(a + b) =~= encode_utf8(a) + encode_utf8(b));
    } else {
        assert(a + b =~= b);
        assert(encode_utf8(a) + encode_utf8(b) =~= encode_utf8(b));
    }
}

/// A non-empty string has a non-empty encoding.
proof fn lemma_encode_nonempty(a: Seq<char>)
    requires
        a.len() > 0,
    ensures
        encode_utf8(a).len() > 0,
{
    assert(encode_scalar(a[0] as u32).len() > 0);
}

/// Byte strings are equal to themselves in their order.
proof fn lemma_byte_order_reflexive(a: Seq<u8>)
    ensures
        byte_order(a, a) == 0,
    decreases a.len(),
{
    if a.len() > 0 {
        lemma_byte_order_reflexive(a.drop_first());
    }
}

/// A byte string comes before any longer byte string it begins.
proof fn lemma_byte_order_prefix(a: Seq<u8>, b: Seq<u8>)
    requires
        b.len() > 0,
    ensures
        byte_order(a, a + b) == -1,
    decreases a.len(),
{
    if a.len() > 0 {
        assert((a + b).drop_first() =~= a.drop_first() + b);
        assert((a + b)[0] == a[0]);
        lemma_byte_order_prefix(a.drop_first(), b);
    } else {
        assert(a + b =~= b);
    }
}

/// Strings are ordered as words in a dictionary: a string is not less than
/// itself but at most itself, and it comes strictly before every longer
/// string that begins with it.
pub proof fn lemma_string_order(s: Seq<char>, t: Seq<char>)
    ensures
        comparison_outcome(ValueKey::Str(s), ValueKey::Str(s), Relation::Less) == Ok::<Comparison, RuntimeError>(
            Comparison::Decided(false),
        ),
        comparison_outcome(ValueKey::Str(s), ValueKey::Str(s), Relation::LessEqual) == Ok::<
            Comparison,
            RuntimeError,
        >(Comparison::Decided(true)),
        t.len() > 0 ==> comparison_outcome(ValueKey::Str(s), ValueKey::Str(s + t), Relation::Less) == Ok::<
            Comparison,
            RuntimeError,
        >(Comparison::Decided(true)),
        t.len() > 0 ==> comparison_outcome(ValueKey::Str(s + t), ValueKey::Str(s), Relation::Less) == Ok::<
            Comparison,
            RuntimeError,
        >(Comparison::Decided(false)),
{
    lemma_byte_order_reflexive(encode_utf8(s));
    if t.len() > 0 {
        lemma_encode_concat(s, t);
        lemma_encode_nonempty(t);
        lemma_byte_order_prefix(encode_utf8(s), encode_utf8(t));
        lemma_byte_order_antisymmetric(encode_utf8(s), encode_utf8(s + t));
    }
}

} // verus!
