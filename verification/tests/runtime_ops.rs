use xiao::ast::ScalarType;
use xiao::runtime::errors::RuntimeError;
use xiao::runtime::memory::RuntimeTypeTag;
use xiao::runtime::ops::{Comparison, Conversion, Evaluation, FloatOperation};
use xiao::runtime::sets::is_hashable;
use xiao::runtime::value::{RuntimeValue, StringHandle};

fn int_value(value: i64) -> RuntimeValue {
    RuntimeValue::Int(value)
}

fn text(value: &str) -> RuntimeValue {
    RuntimeValue::Str(value.to_owned())
}

/// The value an operator produced.
fn value(result: Result<Evaluation, RuntimeError>) -> Result<RuntimeValue, RuntimeError> {
    result.map(|evaluation| match evaluation {
        Evaluation::Value(value) => value,
        other => panic!("应为值，实际为 {other:?}"),
    })
}

fn decided(result: Result<Comparison, RuntimeError>) -> Result<bool, RuntimeError> {
    result.map(|comparison| match comparison {
        Comparison::Decided(answer) => answer,
        other => panic!("应已判定，实际为 {other:?}"),
    })
}

fn converted(result: Result<Conversion, RuntimeError>) -> Result<RuntimeValue, RuntimeError> {
    result.map(|conversion| match conversion {
        Conversion::Value(value) => value,
        other => panic!("应为值，实际为 {other:?}"),
    })
}

fn is_division_by_zero(error: RuntimeError) -> bool {
    matches!(error, RuntimeError::DivisionByZero { .. })
}

fn is_numeric_overflow(error: RuntimeError) -> bool {
    matches!(error, RuntimeError::NumericOverflow { .. })
}

fn message(error: RuntimeError) -> &'static str {
    match error {
        RuntimeError::InvalidValue { message } => message,
        other => panic!("应为值错误，实际为 {other:?}"),
    }
}

#[test]
fn supports_bool_parity_adjustment() {
    assert_eq!(value(RuntimeValue::Bool(false).add(&RuntimeValue::Int(1))), Ok(RuntimeValue::Bool(true)));
    assert_eq!(value(RuntimeValue::Bool(true).subtract(&RuntimeValue::Sint(2))), Ok(RuntimeValue::Bool(true)));
}

#[test]
fn supports_arithmetic_operators() {
    assert_eq!(value(int_value(6).multiply(&int_value(7))), Ok(int_value(42)));
    assert_eq!(value(int_value(7).floor_divide(&int_value(2))), Ok(int_value(3)));
    assert_eq!(value(int_value(7).remainder(&int_value(2))), Ok(int_value(1)));
    assert_eq!(value(int_value(2).power(&int_value(10))), Ok(int_value(1024)));
    let seven = 7.0f64.to_bits();
    let two = 2.0f64.to_bits();
    let division = RuntimeValue::Float(seven).divide(&RuntimeValue::Float(two));
    assert_eq!(division, Ok(Evaluation::Float64(FloatOperation::Divide, seven, two)));
    assert_eq!(f64::from_bits(seven) / f64::from_bits(two), 3.5);
}

#[test]
fn floor_division_pairs_with_remainder() {
    assert_eq!(value(int_value(-7).floor_divide(&int_value(2))), Ok(int_value(-4)));
    assert_eq!(value(int_value(-7).remainder(&int_value(2))), Ok(int_value(1)));
    assert_eq!(value(int_value(7).floor_divide(&int_value(-2))), Ok(int_value(-4)));
    assert_eq!(value(int_value(7).remainder(&int_value(-2))), Ok(int_value(-1)));
}

#[test]
fn division_by_zero_has_stable_identity() {
    assert!(is_division_by_zero(int_value(1).floor_divide(&int_value(0)).expect_err("除零应报错")));
    assert!(is_division_by_zero(int_value(1).remainder(&int_value(0)).expect_err("除零应报错")));
}

#[test]
fn overflow_uses_stable_identity() {
    assert!(is_numeric_overflow(int_value(i64::MAX).multiply(&int_value(2)).expect_err("应溢出")));
    assert!(is_numeric_overflow(int_value(i64::MIN).floor_divide(&int_value(-1)).expect_err("应溢出")));
}

#[test]
fn rejects_cross_width_operands() {
    let error = int_value(1).add(&RuntimeValue::Sint(1)).expect_err("应拒绝");
    assert!(message(error).contains("宽度不一致"));
}

#[test]
fn division_requires_float_operands() {
    let error = int_value(1).divide(&int_value(2)).expect_err("整数除法应被拒绝");
    assert!(message(error).contains("显式转换"));
}

#[test]
fn integer_power_rejects_negative_exponent() {
    assert!(int_value(2).power(&int_value(-1)).is_err());
}

#[test]
fn compares_numbers_and_strings() {
    assert_eq!(decided(int_value(1).less(&int_value(2))), Ok(true));
    assert_eq!(decided(int_value(2).less_equal(&int_value(2))), Ok(true));
    assert_eq!(decided(int_value(3).greater(&int_value(2))), Ok(true));
    assert_eq!(decided(int_value(3).greater_equal(&int_value(4))), Ok(false));
    assert_eq!(decided(int_value(i64::MIN).less(&int_value(i64::MAX))), Ok(true));
    assert_eq!(decided(text("apple").less(&text("banana"))), Ok(true));
}

#[test]
fn string_equality_compares_content() {
    assert!(text("same").equals(&text("same")));
    assert!(!text("same").equals(&text("other")));
    assert!(text("same").not_equals(&text("other")));
    assert!(!text("same").equals(&int_value(1)));
}

#[test]
fn converts_between_bool_and_str() {
    assert_eq!(converted(RuntimeValue::Bool(true).convert_to(ScalarType::Str)), Ok(text("true")));
    assert_eq!(converted(text("False").convert_to(ScalarType::Bool)), Ok(RuntimeValue::Bool(false)));
    assert!(text("yes").convert_to(ScalarType::Bool).is_err());
}

#[test]
fn converts_numeric_widths_with_range_check() {
    assert_eq!(converted(RuntimeValue::Sint(7).convert_to(ScalarType::Int)), Ok(int_value(7)));
    let positive = RuntimeValue::Float(3.9f64.to_bits());
    assert_eq!(
        positive.convert_to(ScalarType::Int),
        Ok(Conversion::ThroughFloat(positive.clone(), ScalarType::Int))
    );
    let negative = RuntimeValue::Float((-3.9f64).to_bits());
    assert_eq!(
        negative.convert_to(ScalarType::Int),
        Ok(Conversion::ThroughFloat(negative.clone(), ScalarType::Int))
    );
    assert!(is_numeric_overflow(
        RuntimeValue::Int(i64::MAX).convert_to(ScalarType::Sint).expect_err("应越界")
    ));
}

#[test]
fn high_precision_numerics_are_explicitly_unsupported() {
    let error = RuntimeValue::Lint("1".to_owned()).convert_to(ScalarType::Int).expect_err("应报错");
    assert!(message(error).contains("尚未实现"));
}

#[test]
fn bool_arithmetic_is_strict_and_overflow_is_reported() {
    assert_eq!(
        value(RuntimeValue::Bool(false).add(&RuntimeValue::Int(3)))
            .expect("奇数应翻转")
            .as_bool(),
        Some(true)
    );
    let overflow = RuntimeValue::Int(i64::MAX).add(&RuntimeValue::Int(1)).expect_err("应溢出");
    assert!(is_numeric_overflow(overflow));
    assert!(RuntimeValue::Bool(true).add(&RuntimeValue::Float(1.0f64.to_bits())).is_err());
}

#[test]
fn error_values_keep_identity_semantics() {
    let original = RuntimeValue::Error(1);
    assert!(original.equals(&original.clone()));
    assert!(!original.equals(&RuntimeValue::Error(2)));
}

#[test]
fn error_type_name_is_explicit() {
    let value = RuntimeValue::Error(1);
    assert_eq!(value.type_label(), "error");
    assert!(!is_hashable(&value));
}

#[test]
fn bool_adjustment_reads_lint_text_and_refuses_others() {
    assert_eq!(
        value(RuntimeValue::Bool(true).add(&RuntimeValue::Lint("-170141183460469231731687303715884105727".to_owned()))),
        Ok(RuntimeValue::Bool(false))
    );
    assert_eq!(
        value(RuntimeValue::Bool(true).add(&RuntimeValue::Lint("+12".to_owned()))),
        Ok(RuntimeValue::Bool(true))
    );
    assert_eq!(
        RuntimeValue::Bool(true).add(&RuntimeValue::Lint("170141183460469231731687303715884105728".to_owned())),
        Err(RuntimeError::TypeMismatch { expected: "int", actual: "lint" })
    );
    assert_eq!(
        RuntimeValue::Bool(true).add(&RuntimeValue::Lint("-".to_owned())),
        Err(RuntimeError::TypeMismatch { expected: "int", actual: "lint" })
    );
    assert_eq!(
        RuntimeValue::Bool(true).add(&text("1")),
        Err(RuntimeError::TypeMismatch { expected: "int", actual: "str" })
    );
    assert_eq!(RuntimeValue::Bool(false).bool_adjust(-3), Ok(RuntimeValue::Bool(true)));
    assert_eq!(
        int_value(1).bool_adjust(1),
        Err(RuntimeError::TypeMismatch { expected: "bool", actual: "int" })
    );
}

#[test]
fn strings_concatenate_and_order_by_bytes() {
    assert_eq!(value(text("小").add(&text("雪"))), Ok(text("小雪")));
    assert_eq!(decided(text("Z").less(&text("a"))), Ok(true));
    assert_eq!(decided(text("ab").less(&text("abc"))), Ok(true));
    assert_eq!(decided(text("abc").greater_equal(&text("abc"))), Ok(true));
    assert_eq!(decided(text("é").greater(&text("z"))), Ok(true));
    assert!(text("a").multiply(&text("b")).is_err());
}

#[test]
fn integer_powers_are_exact_or_overflow() {
    assert_eq!(value(int_value(-2).power(&int_value(63))), Ok(int_value(i64::MIN)));
    assert!(is_numeric_overflow(int_value(2).power(&int_value(63)).expect_err("应溢出")));
    assert!(is_numeric_overflow(int_value(-2).power(&int_value(64)).expect_err("应溢出")));
    assert_eq!(value(int_value(-1).power(&int_value(i64::from(u32::MAX)))), Ok(int_value(-1)));
    assert_eq!(value(int_value(0).power(&int_value(0))), Ok(int_value(1)));
    assert_eq!(value(RuntimeValue::Sint(3).power(&RuntimeValue::Sint(19))), Ok(RuntimeValue::Sint(1_162_261_467)));
    assert!(is_numeric_overflow(RuntimeValue::Sint(3).power(&RuntimeValue::Sint(20)).expect_err("应溢出")));
    assert!(is_numeric_overflow(int_value(2).power(&int_value(1 << 40)).expect_err("指数过大")));
}

#[test]
fn float_operands_are_handed_to_the_caller() {
    let a = 1.5f32.to_bits();
    let b = 2.5f32.to_bits();
    assert_eq!(
        RuntimeValue::Sfloat(a).add(&RuntimeValue::Sfloat(b)),
        Ok(Evaluation::Float32(FloatOperation::Add, a, b))
    );
    assert_eq!(RuntimeValue::Sfloat(a).less(&RuntimeValue::Sfloat(b)), Ok(Comparison::Float32(a, b)));
    assert!(message(RuntimeValue::Sfloat(a).floor_divide(&RuntimeValue::Sfloat(b)).expect_err("应拒绝")).contains("整数"));
}

#[test]
fn conversions_outside_the_matrix_are_refused() {
    assert!(message(int_value(1).convert_to(ScalarType::Str).expect_err("应拒绝")).contains("不支持"));
    assert!(message(RuntimeValue::NoneValue.convert_to(ScalarType::Int).expect_err("应拒绝")).contains("标量"));
    assert!(message(RuntimeValue::Object(RuntimeTypeTag::Array, 4).convert_to(ScalarType::Int).expect_err("应拒绝")).contains("标量"));
    assert_eq!(converted(int_value(5).convert_to(ScalarType::Int)), Ok(int_value(5)));
    assert_eq!(converted(RuntimeValue::Int(-5).convert_to(ScalarType::Sint)), Ok(RuntimeValue::Sint(-5)));
}

#[test]
fn stores_and_reads_utf8_string() {
    let value = StringHandle::new("小雪").expect("字符串应分配");
    assert_eq!(value.len(), 2);
    assert_eq!(value.to_string().expect("应读取"), "小雪");
}

#[test]
fn string_objects_report_emptiness_and_tag() {
    let empty = StringHandle::new("").expect("字符串应分配");
    assert!(empty.is_empty());
    assert_eq!(empty.type_tag(), RuntimeTypeTag::String);
    assert_eq!(RuntimeValue::new_string("é"), Ok(RuntimeValue::Str("é".to_owned())));
    assert_eq!(RuntimeValue::Error(7).as_error(), Some(7));
    assert_eq!(RuntimeValue::Int(7).as_error(), None);
}
