use xiao::ast::{ScalarType, TableKind};
use xiao::runtime::errors::RuntimeError;
use xiao::runtime::tables::{
    runtime_value_matches, FieldType, TableDefinition, TableInstance, TableMember, TableMemberKind,
    TableState, TableValueKind,
};
use xiao::runtime::value::RuntimeValue;

fn id_field() -> TableMember {
    TableMember {
        name: "id".to_owned(),
        kind: TableMemberKind::Field,
        public: true,
        ty: FieldType::Scalar(ScalarType::Int),
    }
}

fn definition_named(name: &str, kind: TableKind) -> TableDefinition {
    TableDefinition { name: name.to_owned(), kind, members: vec![id_field()] }
}

#[test]
fn follows_construct_state_machine_and_checks_fields() {
    let mut instance = TableInstance::new(definition_named("User", TableKind::Instance)).expect("实例应构造");
    assert_eq!(instance.state(), TableState::Usable);
    instance.set("id", RuntimeValue::Int(7)).expect("字段应可写");
    assert_eq!(instance.get("id").expect("读取应成功"), Some(RuntimeValue::Int(7)));
    assert!(instance.set("id", RuntimeValue::Bool(true)).is_err());
}

#[test]
fn init_failure_is_reported_and_object_is_released() {
    let table = TableInstance::begin_construction(definition_named("Broken", TableKind::Instance), TableKind::Instance)
        .expect("应开始构造");
    assert_eq!(table.state(), TableState::FieldsInitializing);
    let failing_init: Result<(), RuntimeError> = Err(RuntimeError::InvalidValue { message: "测试 init 失败" });
    let error = table.finish_construction(failing_init, Ok(())).expect_err("init 应失败");
    assert_eq!(
        error,
        RuntimeError::TableInit {
            message: "表 init 钩子失败",
            cause: Box::new(RuntimeError::InvalidValue { message: "测试 init 失败" }),
            suppressed: None,
        }
    );
}

#[test]
fn runs_init_and_drop_with_static_signature() {
    let mut drop_calls = 0;
    let mut table = TableInstance::begin_construction(definition_named("Resource", TableKind::Instance), TableKind::Instance)
        .expect("应开始构造");
    let init = table.set("id", RuntimeValue::Int(42));
    let mut instance = table.finish_construction(init, Ok(())).expect("实例应构造");
    assert_eq!(instance.state(), TableState::Usable);
    assert_eq!(instance.get("id").expect("读取成功"), Some(RuntimeValue::Int(42)));
    instance.begin_release().expect("应开始释放");
    assert_eq!(instance.state(), TableState::Dropping);
    assert_eq!(instance.field("id").expect("drop 钩子应能读取"), Some(RuntimeValue::Int(42)), "drop 钩子应能观察已初始化字段");
    drop_calls += 1;
    instance.finish_release(Ok(())).expect("drop 应成功");
    assert_eq!(drop_calls, 1);
}

#[test]
fn drop_failure_keeps_structured_identity() {
    let mut instance = TableInstance::new(definition_named("Resource", TableKind::Instance)).expect("构造应成功");
    instance.begin_release().expect("应开始释放");
    let failing_drop: Result<(), RuntimeError> = Err(RuntimeError::InvalidValue { message: "测试 drop 失败" });
    let error = instance.finish_release(failing_drop).expect_err("drop 应返回错误");
    assert_eq!(
        error,
        RuntimeError::TableDrop {
            message: "表 drop 钩子失败",
            cause: Box::new(RuntimeError::InvalidValue { message: "测试 drop 失败" }),
        }
    );
}

#[test]
fn singleton_and_instance_kinds_are_not_interchangeable() {
    let singleton = definition_named("Resource", TableKind::Singleton);
    assert!(TableInstance::new(singleton.clone()).is_err());
    let instance = TableInstance::singleton(singleton).expect("单例应创建");
    assert_eq!(instance.state(), TableState::Usable);
}

#[test]
fn member_access_checks_visibility_kind_and_state() {
    let definition = TableDefinition {
        name: "Account".to_owned(),
        kind: TableKind::Instance,
        members: vec![
            id_field(),
            TableMember { name: "secret".to_owned(), kind: TableMemberKind::Field, public: false, ty: FieldType::Dynamic },
            TableMember { name: "run".to_owned(), kind: TableMemberKind::Method, public: true, ty: FieldType::Dynamic },
        ],
    };
    let mut table = TableInstance::new(definition).expect("实例应构造");
    assert_eq!(table.name(), "Account");
    assert_eq!(table.get("id"), Ok(None), "未写入的字段读作空");
    assert_eq!(table.get("missing"), Err(RuntimeError::InvalidValue { message: "表没有该成员" }));
    assert_eq!(table.get("secret"), Err(RuntimeError::InvalidValue { message: "表成员不可从表外访问" }));
    assert_eq!(table.get("run"), Err(RuntimeError::InvalidValue { message: "成员是方法而不是字段" }));
    assert_eq!(table.set("secret", RuntimeValue::Int(1)), Err(RuntimeError::InvalidValue { message: "表成员不可从表外访问" }));
    table.set_internal("secret", RuntimeValue::Str("x".to_owned())).expect("内部可写私有字段");
    assert_eq!(table.field("secret"), Ok(Some(RuntimeValue::Str("x".to_owned()))));
    assert_eq!(
        table.set("id", RuntimeValue::Sint(1)),
        Err(RuntimeError::TypeMismatch { expected: "int", actual: "sint" })
    );
    table.set("id", RuntimeValue::Int(1)).expect("可写");
    table.set("id", RuntimeValue::Int(2)).expect("可覆盖");
    assert_eq!(table.get("id"), Ok(Some(RuntimeValue::Int(2))));
    assert_eq!(table.field("secret"), Ok(Some(RuntimeValue::Str("x".to_owned()))), "其他字段不变");
    table.begin_release().expect("应开始释放");
    assert_eq!(
        table.set("id", RuntimeValue::Int(3)),
        Err(RuntimeError::TableState { expected: "writable", actual: "dropping" })
    );
    table.finish_release(Ok(())).expect("应释放");
}

#[test]
fn field_types_check_table_names_and_kinds() {
    let instance_type = FieldType::Table("User".to_owned(), TableValueKind::Instance);
    let singleton_type = FieldType::Table("User".to_owned(), TableValueKind::Singleton);
    let user = RuntimeValue::Table("User".to_owned(), TableKind::Instance, 9);
    let other = RuntimeValue::Table("Other".to_owned(), TableKind::Instance, 9);
    assert!(runtime_value_matches(&user, &instance_type));
    assert!(!runtime_value_matches(&user, &singleton_type));
    assert!(!runtime_value_matches(&other, &instance_type));
    assert!(!runtime_value_matches(&user, &FieldType::Table("User".to_owned(), TableValueKind::Constructor)));
    assert!(runtime_value_matches(&RuntimeValue::NoneValue, &FieldType::NoneType));
    assert!(!runtime_value_matches(&RuntimeValue::Int(0), &FieldType::NoneType));
    assert!(runtime_value_matches(&RuntimeValue::Int(0), &FieldType::Dynamic));
    assert!(!runtime_value_matches(&RuntimeValue::Int(0), &FieldType::Unchecked));
}

#[test]
fn tables_release_with_or_without_hooks() {
    let mut table = TableInstance::new(definition_named("Once", TableKind::Instance)).expect("实例应构造");
    table.begin_release().expect("应开始释放");
    table.finish_release(Ok(())).expect("应释放");
    let fresh = TableInstance::new(definition_named("Twice", TableKind::Instance)).expect("实例应构造");
    fresh.try_release().expect("无钩子释放应成功");
}

#[test]
fn init_failure_keeps_the_drop_failure_as_suppressed() {
    let table = TableInstance::begin_construction(definition_named("Broken", TableKind::Instance), TableKind::Instance)
        .expect("应开始构造");
    let failing_init: Result<(), RuntimeError> = Err(RuntimeError::InvalidValue { message: "init" });
    let failing_drop: Result<(), RuntimeError> = Err(RuntimeError::InvalidValue { message: "drop" });
    let error = table.finish_construction(failing_init, failing_drop).expect_err("init 应失败");
    assert_eq!(
        error,
        RuntimeError::TableInit {
            message: "表 init 钩子失败",
            cause: Box::new(RuntimeError::InvalidValue { message: "init" }),
            suppressed: Some(Box::new(RuntimeError::TableDrop {
                message: "表 drop 钩子失败",
                cause: Box::new(RuntimeError::InvalidValue { message: "drop" }),
            })),
        }
    );
}
