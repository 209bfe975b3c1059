use xiao::runtime::interchange::{bool_from_payload, dict_entries_unique, dict_kind_from_code};
use std::collections::hash_map::DefaultHasher;
use std::hash::{Hash, Hasher};

use xiao::runtime::containers::{ArrayHandle, DictHandle, DictKind, TupleHandle};
use xiao::runtime::memory::RuntimeTypeTag;
use xiao::runtime::value::RuntimeValue;

fn hash_of(value: &RuntimeValue) -> u64 {
    let mut hasher = DefaultHasher::new();
    value.hash(&mut hasher);
    hasher.finish()
}

#[test]
fn container_type_names_are_stable() {
    let array = RuntimeValue::Object(RuntimeTypeTag::Array, 1);
    let tuple = RuntimeValue::Object(RuntimeTypeTag::Tuple, 2);
    let table = RuntimeValue::Object(RuntimeTypeTag::DictTable, 3);
    let column = RuntimeValue::Object(RuntimeTypeTag::DictColumn, 4);
    let set = RuntimeValue::Object(RuntimeTypeTag::SetObject, 5);
    assert_eq!(array.type_label(), "array");
    assert_eq!(tuple.type_label(), "tuple");
    assert_eq!(table.type_label(), "dict_table");
    assert_eq!(column.type_label(), "dict_column");
    assert_eq!(set.type_label(), "set");
}

#[test]
fn containers_compare_by_identity() {
    let first = RuntimeValue::Object(RuntimeTypeTag::Array, 1);
    let second = RuntimeValue::Object(RuntimeTypeTag::Array, 2);
    let clone = first.clone();
    assert_eq!(first, clone, "同一对象头相等");
    assert!(first.equals(&clone));
    assert_ne!(first, second, "不同对象头不相等");
    assert!(!first.equals(&second));
    assert_eq!(hash_of(&first), hash_of(&clone), "相等必须同哈希");
    assert_eq!(first, first, "相等必须自反");
}

#[test]
fn scalar_hash_matches_equality() {
    let zero = RuntimeValue::Float(0.0f64.to_bits());
    let negative_zero = RuntimeValue::Float((-0.0f64).to_bits());
    assert_ne!(zero, negative_zero);
    assert!(!zero.equals(&negative_zero));
    assert_ne!(hash_of(&zero), hash_of(&negative_zero));
    assert_eq!(hash_of(&zero), hash_of(&zero.clone()));
    let nan = RuntimeValue::Float(f64::NAN.to_bits());
    assert_eq!(nan, nan.clone(), "位模式相等使 NaN 自反");
    assert!(nan.equals(&nan.clone()));
}

#[test]
fn arrays_and_tuples_hand_out_copies_by_position() {
    let array = ArrayHandle::new(vec![RuntimeValue::Int(1), RuntimeValue::Str("x".to_owned())]).expect("数组应分配");
    assert_eq!(array.len(), 2);
    assert!(!array.is_empty());
    assert_eq!(array.element(1), Ok(Some(RuntimeValue::Str("x".to_owned()))));
    assert_eq!(array.element(2), Ok(None));
    assert_eq!(array.type_tag(), RuntimeTypeTag::Array);
    let tuple = TupleHandle::new(Vec::new()).expect("元组应分配");
    assert!(tuple.is_empty());
    assert_eq!(tuple.element(0), Ok(None));
    assert_eq!(tuple.type_tag(), RuntimeTypeTag::Tuple);
}

#[test]
fn dictionaries_find_keys_at_their_first_entry() {
    let dict = DictHandle::new(
        DictKind::Column,
        vec![
            ("key".to_owned(), RuntimeValue::Int(1)),
            ("other".to_owned(), RuntimeValue::Bool(true)),
            ("key".to_owned(), RuntimeValue::Int(2)),
        ],
    )
    .expect("字典应分配");
    assert_eq!(dict.kind(), DictKind::Column);
    assert_eq!(dict.len(), 3);
    assert_eq!(dict.value("key"), Ok(Some(RuntimeValue::Int(1))));
    assert_eq!(dict.value("missing"), Ok(None));
    assert_eq!(dict.contains_key("other"), Ok(true));
    assert_eq!(dict.contains_key("missing"), Ok(false));
    assert_eq!(dict.type_tag(), RuntimeTypeTag::DictColumn);
    let empty = DictHandle::new(DictKind::Table, Vec::new()).expect("字典应分配");
    assert!(empty.is_empty());
    assert_eq!(empty.type_tag(), RuntimeTypeTag::DictTable);
}

#[test]
fn dictionary_keys_must_be_unique() {
    assert!(!dict_entries_unique(&vec!["duplicate".to_owned(), "duplicate".to_owned()]));
    assert!(dict_entries_unique(&vec!["a".to_owned(), "b".to_owned(), "c".to_owned()]));
    assert!(dict_entries_unique(&Vec::new()));
    assert!(!dict_entries_unique(&vec!["a".to_owned(), "b".to_owned(), "a".to_owned()]));
}

#[test]
fn boundary_codes_select_kinds_and_booleans() {
    assert_eq!(dict_kind_from_code(0), Some(DictKind::Table));
    assert_eq!(dict_kind_from_code(1), Some(DictKind::Column));
    assert_eq!(dict_kind_from_code(2), None);
    assert_eq!(bool_from_payload(0), Some(false));
    assert_eq!(bool_from_payload(1), Some(true));
    assert_eq!(bool_from_payload(2), None);
}
