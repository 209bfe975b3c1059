use xiao::runtime::errors::RuntimeError;
use xiao::runtime::memory::RuntimeTypeTag;
use xiao::runtime::sets::{is_hashable, SetHandle};
use xiao::runtime::value::RuntimeValue;

/// Builds a set of integers, as the runtime does for `Int` values.
fn int_set(values: &[i64]) -> SetHandle {
    SetHandle::new(values.iter().map(|value| RuntimeValue::Int(*value)).collect())
        .expect("集合应分配")
}

/// Reads the elements of a set of integers in their stored order.
fn int_elements(set: &SetHandle) -> Vec<i64> {
    set.elements()
        .into_iter()
        .map(|value| match value {
            RuntimeValue::Int(value) => value,
            other => panic!("应为整数元素，实际为 {other:?}"),
        })
        .collect()
}

#[test]
fn set_rejects_unhashable_elements() {
    let error = SetHandle::new(vec![RuntimeValue::Object(RuntimeTypeTag::Array, 1)])
        .expect_err("应拒绝数组元素");
    assert_eq!(error, RuntimeError::UnhashableElement { type_label: "array" });
}

#[test]
fn set_algebra_follows_operand_order() {
    let left = int_set(&[1, 2, 3]);
    let right = int_set(&[3, 4, 2]);

    assert_eq!(
        int_elements(&left.union(&right).expect("并集")),
        vec![1, 2, 3, 4],
        "并集是左侧原序，随后右侧中不在左侧者按右侧原序"
    );
    assert_eq!(
        int_elements(&left.intersection(&right).expect("交集")),
        vec![2, 3],
        "交集按左侧原序过滤"
    );
    assert_eq!(
        int_elements(&left.difference(&right).expect("差集")),
        vec![1],
        "差集按左侧原序过滤"
    );
    assert_eq!(
        int_elements(&left.symmetric_difference(&right).expect("对称差")),
        vec![1, 4],
        "对称差先左侧独有，再右侧独有"
    );
}

#[test]
fn set_algebra_results_stay_deduplicated() {
    let left = int_set(&[1, 1, 2]);
    let right = int_set(&[2, 2, 3]);
    let union = left.union(&right).expect("并集");
    assert_eq!(union.len(), 3);
    assert_eq!(int_elements(&union), vec![1, 2, 3]);
}

#[test]
fn set_equality_is_unordered_mutual_inclusion() {
    let left = int_set(&[1, 2]);
    let same = int_set(&[2, 1]);
    assert!(left.equals(&same).expect("相等判定"));
    assert!(!left.equals(&int_set(&[1, 2, 3])).expect("相等判定"));
    assert!(!left.equals(&int_set(&[1])).expect("相等判定"));
}

#[test]
fn set_subset_distinguishes_proper_from_equal() {
    let small = int_set(&[1, 2]);
    let same = int_set(&[2, 1]);
    let big = int_set(&[1, 2, 3]);

    assert!(small.is_subset(&big).expect("子集"));
    assert!(small.is_proper_subset(&big).expect("真子集"));
    assert!(small.is_subset(&same).expect("相等也是子集"));
    assert!(!small.is_proper_subset(&same).expect("真子集"));
    assert!(big.is_superset(&small).expect("超集"));
    assert!(big.is_proper_superset(&small).expect("真超集"));
    assert!(same.is_superset(&small).expect("相等也是超集"));
    assert!(!same.is_proper_superset(&small).expect("真超集"));
}

#[test]
fn set_empty_is_subset_of_everything_but_not_proper_of_itself() {
    let empty = int_set(&[]);
    let one = int_set(&[1]);

    assert!(empty.is_subset(&one).expect("子集"));
    assert!(empty.is_proper_subset(&one).expect("真子集"));
    assert!(!one.is_subset(&empty).expect("子集"), "方向不得反");
    assert!(empty.is_subset(&empty).expect("子集"));
    assert!(!empty.is_proper_subset(&empty).expect("真子集"));

    let subtracted = one.difference(&one).expect("差集");
    assert_eq!(subtracted.len(), 0);
    assert!(empty.equals(&subtracted).expect("相等判定"));
}

#[test]
fn heterogeneous_set_members_are_discriminated_by_variant() {
    let mixed = SetHandle::new(vec![
        RuntimeValue::Int(1),
        RuntimeValue::Bool(true),
        RuntimeValue::Float(1.0f64.to_bits()),
        RuntimeValue::Sint(1),
    ])
    .expect("集合应分配");
    assert_eq!(mixed.len(), 4, "判别式不同的值不得互相去重");

    let ints = int_set(&[1]);
    let bools = SetHandle::new(vec![RuntimeValue::Bool(true)]).expect("集合应分配");
    assert!(!ints.equals(&bools).expect("相等判定"), "1 与 true 不是同一元素");
    assert_eq!(
        int_elements(&mixed.intersection(&ints).expect("交集")),
        vec![1],
        "交集只应命中 Int(1)"
    );
}

#[test]
fn equal_strings_are_one_element_and_the_first_is_kept() {
    let set = SetHandle::new(vec![
        RuntimeValue::Str("same".to_owned()),
        RuntimeValue::Int(7),
        RuntimeValue::Str("same".to_owned()),
        RuntimeValue::Str("other".to_owned()),
    ])
    .expect("集合应分配");
    assert_eq!(set.len(), 3);
    assert_eq!(
        set.elements(),
        vec![
            RuntimeValue::Str("same".to_owned()),
            RuntimeValue::Int(7),
            RuntimeValue::Str("other".to_owned()),
        ]
    );
    assert!(set.contains(&RuntimeValue::Str("same".to_owned())).expect("应可查询"));
    assert!(!set.contains(&RuntimeValue::Str("sam".to_owned())).expect("应可查询"));
    assert!(set.is_empty() == false);
}

#[test]
fn floats_compare_by_bit_pattern() {
    let zero = RuntimeValue::Float(0.0f64.to_bits());
    let negative_zero = RuntimeValue::Float((-0.0f64).to_bits());
    let nan = RuntimeValue::Float(f64::NAN.to_bits());
    let set = SetHandle::new(vec![zero.clone(), negative_zero.clone(), nan.clone(), nan.clone()])
        .expect("集合应分配");
    assert_eq!(set.len(), 3, "0.0 与 -0.0 不同，NaN 与自身相同");
    assert!(set.contains(&nan).expect("应可查询"));
}

#[test]
fn the_first_unhashable_element_is_named() {
    let error = SetHandle::new(vec![
        RuntimeValue::Int(1),
        RuntimeValue::Object(RuntimeTypeTag::Table, 1),
        RuntimeValue::Object(RuntimeTypeTag::SetObject, 1),
    ])
    .expect_err("应拒绝表元素");
    assert_eq!(error, RuntimeError::UnhashableElement { type_label: "table" });
    assert!(!is_hashable(&RuntimeValue::Object(RuntimeTypeTag::DictColumn, 1)));
    assert!(is_hashable(&RuntimeValue::NoneValue));
    assert!(!is_hashable(&RuntimeValue::Error(3)));
}

#[test]
fn set_operations_obey_membership_laws() {
    let left = int_set(&[5, 1, 9, 3]);
    let right = int_set(&[3, 8, 5]);
    let union = left.union(&right).expect("并集");
    let intersection = left.intersection(&right).expect("交集");
    let difference = left.difference(&right).expect("差集");
    let symmetric = left.symmetric_difference(&right).expect("对称差");
    for value in 0..10 {
        let element = RuntimeValue::Int(value);
        let in_left = left.contains(&element).unwrap();
        let in_right = right.contains(&element).unwrap();
        assert_eq!(union.contains(&element).unwrap(), in_left || in_right);
        assert_eq!(intersection.contains(&element).unwrap(), in_left && in_right);
        assert_eq!(difference.contains(&element).unwrap(), in_left && !in_right);
        assert_eq!(symmetric.contains(&element).unwrap(), in_left != in_right);
    }
    assert_eq!(int_elements(&union), vec![5, 1, 9, 3, 8]);
    assert_eq!(int_elements(&symmetric), vec![1, 9, 8]);
    assert_eq!(union.type_tag(), RuntimeTypeTag::SetObject);
}

#[test]
fn a_set_rebuilt_from_its_elements_is_the_same_set() {
    let set = SetHandle::new(vec![
        RuntimeValue::Int(3),
        RuntimeValue::Str("x".to_owned()),
        RuntimeValue::Int(3),
        RuntimeValue::NoneValue,
    ])
    .expect("集合应分配");
    let rebuilt = SetHandle::new(set.elements()).expect("集合应分配");
    assert_eq!(rebuilt.elements(), set.elements());
    assert!(rebuilt.equals(&set).unwrap());
}

#[test]
fn proper_subset_is_a_subset_that_is_not_equal() {
    let cases: [(&[i64], &[i64], bool); 4] = [
        (&[1, 2], &[1, 2, 3], true),
        (&[1, 2], &[2, 1], false),
        (&[], &[1], true),
        (&[], &[], false),
    ];
    for (left, right, expected) in cases {
        let a = SetHandle::new(left.iter().map(|v| RuntimeValue::Int(*v)).collect()).expect("set");
        let b = SetHandle::new(right.iter().map(|v| RuntimeValue::Int(*v)).collect()).expect("set");
        let proper = a.is_proper_subset(&b).expect("answer");
        assert_eq!(proper, expected);
        assert_eq!(proper, a.is_subset(&b).unwrap() && !a.equals(&b).unwrap());
    }
}
