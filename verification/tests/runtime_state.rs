use xiao::runtime::containers::DictKind;
use xiao::runtime::errors::RuntimeError;
use xiao::runtime::memory::{
    CounterStrategyKind, NonAtomicRefCount, ObjectHeader, ObjectLayout, RefCountStrategy,
    ReleaseAction, RuntimeTypeTag,
};
use xiao::runtime::numeric::{
    boolean_parity, floor_div_int32, floor_div_int64, floor_rem_int32, floor_rem_int64,
    non_negative_exponent,
};
use xiao::runtime::tables::TableState;

fn header() -> ObjectHeader {
    ObjectHeader::new(RuntimeTypeTag::Custom(1), ObjectLayout::for_type::<u64>(RuntimeTypeTag::Custom(1)))
}

#[test]
fn releases_payload_on_last_strong_and_keeps_weak_header() {
    let mut object = header();
    object.try_add_weak().expect("弱引用应成功");
    assert_eq!(object.counter_strategy(), "non-atomic");
    assert!(object.is_alive());
    assert_eq!(object.release_strong(), Ok(ReleaseAction::PayloadReleased { free_header: false }));
    assert!(!object.is_alive());
    assert_eq!(object.upgrade(), Err(RuntimeError::WeakUpgrade));
    assert!(object.release_weak());
}

#[test]
fn new_header_holds_one_strong_and_the_implicit_weak_reference() {
    let object = header();
    assert_eq!(object.strong_count(), 1);
    assert_eq!(object.weak_count(), 1);
    assert_eq!(object.type_tag(), RuntimeTypeTag::Custom(1));
    assert_eq!(object.layout().payload_size, 8);
    assert_eq!(object.layout().payload_align, std::mem::align_of::<u64>());
}

#[test]
fn clone_then_release_restores_the_counts() {
    let mut object = header();
    object.try_clone_strong().expect("克隆应成功");
    assert_eq!(object.strong_count(), 2);
    assert_eq!(object.release_strong(), Ok(ReleaseAction::Retained));
    assert_eq!(object.strong_count(), 1);
    assert_eq!(object.weak_count(), 1);
    assert!(object.is_alive());
}

#[test]
fn last_release_without_weak_handles_frees_the_header() {
    let mut object = header();
    assert_eq!(object.release_strong(), Ok(ReleaseAction::PayloadReleased { free_header: true }));
    assert_eq!(object.weak_count(), 0);
    assert_eq!(object.try_clone_strong(), Err(RuntimeError::UseAfterRelease));
    assert_eq!(object.check_access(RuntimeTypeTag::Custom(1)), Err(RuntimeError::UseAfterRelease));
    assert!(matches!(object.release_strong(), Err(RuntimeError::RefcountInvariant { .. })));
}

#[test]
fn payload_access_checks_the_type_tag() {
    let object = ObjectHeader::new(RuntimeTypeTag::Array, ObjectLayout::for_type::<u8>(RuntimeTypeTag::Array));
    assert_eq!(object.check_access(RuntimeTypeTag::Array), Ok(()));
    assert_eq!(
        object.check_access(RuntimeTypeTag::String),
        Err(RuntimeError::TypeMismatch { expected: "str", actual: "array" })
    );
}

#[test]
fn non_atomic_counts_refuse_overflow_and_underflow() {
    let strategy = NonAtomicRefCount;
    assert_eq!(strategy.increment(4), Ok(5));
    assert_eq!(strategy.decrement(4), Ok(3));
    assert!(matches!(strategy.increment(usize::MAX), Err(RuntimeError::RefcountInvariant { .. })));
    assert!(matches!(strategy.decrement(0), Err(RuntimeError::RefcountInvariant { .. })));
    assert_eq!(strategy.name(), "non-atomic");
    assert_eq!(CounterStrategyKind::NonAtomic.as_str(), "non-atomic");
    assert_eq!(CounterStrategyKind::NonAtomic.implementation().name(), "non-atomic");
}

#[test]
fn type_tags_and_dict_kinds_have_stable_names() {
    assert_eq!(RuntimeTypeTag::String.as_str(), "str");
    assert_eq!(RuntimeTypeTag::DictColumn.as_str(), "dict_column");
    assert_eq!(RuntimeTypeTag::SetObject.as_str(), "set");
    assert_eq!(RuntimeTypeTag::Custom(9).as_str(), "custom");
    assert_eq!(DictKind::Table.as_str(), "dict_table");
    assert_eq!(DictKind::Column.type_tag(), RuntimeTypeTag::DictColumn);
}

#[test]
fn table_states_follow_the_construction_machine() {
    let mut state = TableState::Allocated;
    for next in [TableState::FieldsInitializing, TableState::InitCompleted, TableState::Usable, TableState::Dropping, TableState::Released] {
        state = state.transition_to(next).expect("合法转移");
    }
    assert_eq!(state, TableState::Released);
    assert_eq!(
        TableState::Usable.transition_to(TableState::Allocated),
        Err(RuntimeError::TableState { expected: "allocated", actual: "usable" })
    );
    assert_eq!(TableState::FieldsInitializing.transition_to(TableState::Dropping), Ok(TableState::Dropping));
    assert!(TableState::Usable.ensure_readable().is_ok());
    assert!(TableState::Allocated.ensure_readable().is_err());
    assert_eq!(
        TableState::Released.ensure_writable(),
        Err(RuntimeError::TableState { expected: "writable", actual: "released" })
    );
    assert_eq!(TableState::Usable.begin_drop(), Ok(TableState::Dropping));
    assert!(TableState::Released.begin_drop().is_err());
    assert_eq!(TableState::InitCompleted.as_str(), "init_completed");
}

#[test]
fn floor_kernels_pair_division_with_remainder() {
    assert_eq!(floor_div_int64(-7, 2), Ok(-4));
    assert_eq!(floor_rem_int64(-7, 2), Ok(1));
    assert_eq!(floor_div_int64(7, -2), Ok(-4));
    assert_eq!(floor_rem_int64(7, -2), Ok(-1));
    assert_eq!(floor_div_int64(7, 2), Ok(3));
    assert_eq!(floor_rem_int64(7, 2), Ok(1));
    assert_eq!(floor_div_int32(-8, 2), Ok(-4));
    assert_eq!(floor_rem_int32(-7, -2), Ok(-1));
}

#[test]
fn division_by_zero_and_overflow_have_stable_identities() {
    assert_eq!(floor_div_int64(1, 0), Err(RuntimeError::DivisionByZero { operator: "//" }));
    assert_eq!(floor_rem_int64(1, 0), Err(RuntimeError::DivisionByZero { operator: "//" }));
    assert_eq!(
        floor_div_int64(i64::MIN, -1),
        Err(RuntimeError::NumericOverflow { message: "int 整除溢出" })
    );
    assert_eq!(
        floor_div_int32(i32::MIN, -1),
        Err(RuntimeError::NumericOverflow { message: "sint 整除溢出" })
    );
    assert_eq!(
        floor_rem_int64(i64::MIN, 3),
        Err(RuntimeError::NumericOverflow { message: "int 取模溢出" })
    );
}

#[test]
fn negative_power_exponent_is_rejected() {
    assert!(matches!(non_negative_exponent(-1), Err(RuntimeError::InvalidValue { .. })));
    assert_eq!(non_negative_exponent(10), Ok(10));
    assert!(matches!(non_negative_exponent(1 << 40), Err(RuntimeError::NumericOverflow { .. })));
}

#[test]
fn bool_parity_follows_the_amount() {
    assert!(boolean_parity(false, 1));
    assert!(boolean_parity(true, 2));
    assert!(!boolean_parity(true, -3));
    assert!(boolean_parity(true, i128::MIN));
}

#[test]
fn weak_handle_survives_strong_release_but_cannot_upgrade() {
    let mut string = ObjectHeader::new(RuntimeTypeTag::String, ObjectLayout::for_type::<String>(RuntimeTypeTag::String));
    string.try_add_weak().expect("弱引用应成功");
    assert_eq!(string.strong_count(), 1);
    string.release_strong().expect("释放应成功");
    assert!(!string.is_alive());
    assert_eq!(string.upgrade().expect_err("升级应失败"), RuntimeError::WeakUpgrade);
}
