//! The construction and release states of a table object.
//!
//! A table moves forward only: it is allocated, its fields are initialised,
//! `init` completes, it becomes usable, then it is dropped and released. A
//! failed `init` goes from field initialisation straight to dropping.
//!
//! Members cannot be added at run time and their types cannot change: a
//! table definition carries the static signature, and every field write is
//! checked against it.

use vstd::prelude::*;
use crate::ast::{ScalarType, TableKind};
use crate::runtime::errors::RuntimeError;
use crate::runtime::value::{duplicate, scalar_type_of, type_label_of, RuntimeValue, ValueKey};

verus! {

/// Explicit construction state of a table object.
#[derive(Clone, Copy, Debug, PartialEq, Eq, Structural, Hash)]
pub enum TableState {
    /// The header is allocated; field initialisation has not started.
    Allocated,
    /// `init` runs or constructor arguments are assembled.
    FieldsInitializing,
    /// `init` returned successfully; the table is about to become usable.
    InitCompleted,
    /// User code may access the table.
    Usable,
    /// `drop` runs.
    Dropping,
    /// Fields and hooks are all handled.
    Released,
}

impl TableState {
    /// The stable name of the state.
    pub open spec fn name(self) -> &'static str {
        match self {
            TableState::Allocated => "allocated",
            TableState::FieldsInitializing => "fields_initializing",
            TableState::InitCompleted => "init_completed",
            TableState::Usable => "usable",
            TableState::Dropping => "dropping",
            TableState::Released => "released",
        }
    }

    /// The position of the state in the lifecycle.
    pub open spec fn rank(self) -> int {
        match self {
            TableState::Allocated => 0,
            TableState::FieldsInitializing => 1,
            TableState::InitCompleted => 2,
            TableState::Usable => 3,
            TableState::Dropping => 4,
            TableState::Released => 5,
        }
    }

    /// The transitions a table may take.
    pub open spec fn allows(self, next: TableState) -> bool {
        ||| (self is Allocated && next is FieldsInitializing)
        ||| (self is FieldsInitializing && next is InitCompleted)
        ||| (self is FieldsInitializing && next is Dropping)
        ||| (self is InitCompleted && next is Usable)
        ||| (self is Usable && next is Dropping)
        ||| (self is Dropping && next is Released)
    }

    /// Fields may be read in this state.
    pub open spec fn readable(self) -> bool {
        self is InitCompleted || self is Usable || self is Dropping
    }

    /// Fields may be written in this state.
    pub open spec fn writable(self) -> bool {
        self is FieldsInitializing || self is InitCompleted || self is Usable
    }

    /// Returns the stable name of the state.
    pub fn as_str(self) -> (r: &'static str)
        ensures
            r == self.name(),
    {
        match self {
            TableState::Allocated => "allocated",
            TableState::FieldsInitializing => "fields_initializing",
            TableState::InitCompleted => "init_completed",
            TableState::Usable => "usable",
            TableState::Dropping => "dropping",
            TableState::Released => "released",
        }
    }

    /// Moves to `next` along an allowed transition; any other move is a table
    /// state error naming the target and the current state.
    pub fn transition_to(self, next: TableState) -> (r: Result<TableState, RuntimeError>)
        ensures
            self.allows(next) ==> r == Ok::<TableState, RuntimeError>(next),
            !self.allows(next) ==> r == Err::<TableState, RuntimeError>(
                RuntimeError::TableState { expected: next.name(), actual: self.name() },
            ),
    {
        let valid = match (self, next) {
            (TableState::Allocated, TableState::FieldsInitializing) => true,
            (TableState::FieldsInitializing, TableState::InitCompleted) => true,
            (TableState::FieldsInitializing, TableState::Dropping) => true,
            (TableState::InitCompleted, TableState::Usable) => true,
            (TableState::Usable, TableState::Dropping) => true,
            (TableState::Dropping, TableState::Released) => true,
            _ => false,
        };
        if !valid {
            return Err(RuntimeError::TableState { expected: next.as_str(), actual: self.as_str() });
        }
        Ok(next)
    }

    /// Checks that fields may be read in this state.
    pub fn ensure_readable(self) -> (r: Result<(), RuntimeError>)
        ensures
            self.readable() ==> r is Ok,
            !self.readable() ==> r == Err::<(), RuntimeError>(
                RuntimeError::TableState { expected: "usable", actual: self.name() },
            ),
    {
        match self {
            TableState::InitCompleted | TableState::Usable | TableState::Dropping => Ok(()),
            _ => Err(RuntimeError::TableState { expected: "usable", actual: self.as_str() }),
        }
    }

    /// Checks that fields may be written in this state.
    pub fn ensure_writable(self) -> (r: Result<(), RuntimeError>)
        ensures
            self.writable() ==> r is Ok,
            !self.writable() ==> r == Err::<(), RuntimeError>(
                RuntimeError::TableState { expected: "writable", actual: self.name() },
            ),
    {
        match self {
            TableState::FieldsInitializing | TableState::InitCompleted | TableState::Usable => Ok(()),
            _ => Err(RuntimeError::TableState { expected: "writable", actual: self.as_str() }),
        }
    }

    /// Starts releasing a table, as its `drop` does: any state but `Released`
    /// moves to `Dropping`; releasing twice is an error.
    pub fn begin_drop(self) -> (r: Result<TableState, RuntimeError>)
        ensures
            self is Released ==> r == Err::<TableState, RuntimeError>(
                RuntimeError::RefcountInvariant { message: "表对象被重复释放" },
            ),
            !(self is Released) ==> r == Ok::<TableState, RuntimeError>(TableState::Dropping),
    {
        match self {
            TableState::Released => Err(RuntimeError::RefcountInvariant { message: "表对象被重复释放" }),
            _ => Ok(TableState::Dropping),
        }
    }
}

/// The lifecycle only moves forward, so no state is ever entered twice and
/// `Released` is final.
pub proof fn lemma_transitions_move_forward(current: TableState, next: TableState)
    requires
        current.allows(next),
    ensures
        current.rank() < next.rank(),
        !(current is Released),
{
}

/// A table can be read only after `init` completed and written only before it
/// starts dropping; a released table can be neither read nor written.
pub proof fn lemma_access_follows_the_lifecycle(state: TableState)
    ensures
        state.readable() ==> state.rank() >= TableState::InitCompleted.rank(),
        state.writable() ==> TableState::FieldsInitializing.rank() <= state.rank()
            < TableState::Dropping.rank(),
        state is Released ==> !state.readable() && !state.writable(),
{
}

/// Whether a table member is a field or a method.
#[derive(Clone, Copy, Debug, PartialEq, Eq, Structural, Hash)]
pub enum TableMemberKind {
    /// A field holding a value.
    Field,
    /// A method.
    Method,
}

/// How a table type refers to its table.
#[derive(Clone, Copy, Debug, PartialEq, Eq, Structural, Hash)]
pub enum TableValueKind {
    /// The singleton value of a `[Name]` table.
    Singleton,
    /// The constructor of a `[[Name]]` table.
    Constructor,
    /// An instance of a `[[Name]]` table.
    Instance,
}

/// The static type of a field, as far as the runtime checks it.
#[derive(Clone, Debug, PartialEq, Eq)]
pub enum FieldType {
    /// Any value.
    Dynamic,
    /// Only `none`.
    NoneType,
    /// A scalar of the given type.
    Scalar(ScalarType),
    /// A table of the given name, referred to in the given way.
    Table(String, TableValueKind),
    /// A type no runtime value is checked to have: type variables, function,
    /// container and set types.
    Unchecked,
}

/// A member of a table signature.
#[derive(Clone, Debug, PartialEq, Eq)]
pub struct TableMember {
    /// Member name.
    pub name: String,
    /// Field or method.
    pub kind: TableMemberKind,
    /// Whether code outside the table may access it.
    pub public: bool,
    /// Its static type.
    pub ty: FieldType,
}

/// A static table signature: its name, declaration kind and members.
#[derive(Clone, Debug, PartialEq, Eq)]
pub struct TableDefinition {
    /// Table name.
    pub name: String,
    /// `[Name]` or `[[Name]]`.
    pub kind: TableKind,
    /// The members; a name is looked up at its first occurrence.
    pub members: Vec<TableMember>,
}

/// Whether a value has the static type of a field: a table type needs a
/// table of that name, an instance for an instance type and a singleton for
/// a singleton type; a constructor type is never a runtime value.
pub open spec fn value_matches(value: ValueKey, ty: FieldType) -> bool {
    match ty {
        FieldType::Dynamic => true,
        FieldType::NoneType => value is NoneValue,
        FieldType::Scalar(s) => scalar_type_of(value) == Some(s),
        FieldType::Table(name, kind) => match value {
            ValueKey::Table(value_name, value_kind, _) => value_name == name@ && match kind {
                TableValueKind::Singleton => value_kind is Singleton,
                TableValueKind::Constructor => false,
                TableValueKind::Instance => value_kind is Instance,
            },
            _ => false,
        },
        FieldType::Unchecked => false,
    }
}

/// Checks a value against the static type of a field.
pub fn runtime_value_matches(value: &RuntimeValue, ty: &FieldType) -> (r: bool)
    ensures
        r == value_matches(value@, *ty),
{
    match ty {
        FieldType::Dynamic => true,
        FieldType::NoneType => matches!(value, RuntimeValue::NoneValue),
        FieldType::Scalar(s) => match value.scalar_type() {
            Some(t) => t == *s,
            None => false,
        },
        FieldType::Table(name, kind) => match value {
            RuntimeValue::Table(value_name, value_kind, _) => {
                *value_name == *name && match kind {
                    TableValueKind::Singleton => matches!(value_kind, TableKind::Singleton),
                    TableValueKind::Constructor => false,
                    TableValueKind::Instance => matches!(value_kind, TableKind::Instance),
                }
            },
            _ => false,
        },
        FieldType::Unchecked => false,
    }
}

/// The position of the first member named `name`, searching from `i`.
pub open spec fn member_from(members: Seq<TableMember>, name: Seq<char>, i: int) -> Option<int>
    decreases members.len() - i,
{
    if i < 0 || i >= members.len() {
        None
    } else if members[i].name@ == name {
        Some(i)
    } else {
        member_from(members, name, i + 1)
    }
}

/// The position of the member named `name`.
pub open spec fn member_position(members: Seq<TableMember>, name: Seq<char>) -> Option<int> {
    member_from(members, name, 0)
}

/// Finds the member named `name`.
fn find_member(members: &Vec<TableMember>, name: &String) -> (r: Option<usize>)
    ensures
        match r {
            Some(i) => member_position(members@, name@) == Some(i as int),
            None => member_position(members@, name@) is None,
        },
        r matches Some(i) ==> i < members@.len() && members@[i as int].name@ == name@,
{
    let mut i: usize = 0;
    while i < members.len()
        invariant
            i <= members.len(),
            member_position(members@, name@) == member_from(members@, name@, i as int),
        decreases members.len() - i,
    {
        if members[i].name == *name {
            return Some(i);
        }
        i += 1;
    }
    None
}

/// The value of the first field named `name`, searching from `i`.
pub open spec fn field_from(fields: Seq<(Seq<char>, ValueKey)>, name: Seq<char>, i: int) -> Option<ValueKey>
    decreases fields.len() - i,
{
    if i < 0 || i >= fields.len() {
        None
    } else if fields[i].0 == name {
        Some(fields[i].1)
    } else {
        field_from(fields, name, i + 1)
    }
}

/// The position of the first field named `name`, searching from `i`.
pub open spec fn field_position_from(fields: Seq<(Seq<char>, ValueKey)>, name: Seq<char>, i: int) -> Option<int>
    decreases fields.len() - i,
{
    if i < 0 || i >= fields.len() {
        None
    } else if fields[i].0 == name {
        Some(i)
    } else {
        field_position_from(fields, name, i + 1)
    }
}

/// The fields of a table as names and values.
pub open spec fn fields_view(fields: Seq<(String, RuntimeValue)>) -> Seq<(Seq<char>, ValueKey)> {
    fields.map_values(|entry: (String, RuntimeValue)| (entry.0@, entry.1@))
}

/// A table object: its definition, its construction state and the fields
/// written so far.
#[derive(Debug)]
pub struct TableInstance {
    definition: TableDefinition,
    state: TableState,
    fields: Vec<(String, RuntimeValue)>,
}

impl TableInstance {
    /// The definition the table was built from.
    pub closed spec fn spec_definition(&self) -> TableDefinition {
        self.definition
    }

    /// The construction state.
    pub closed spec fn spec_state(&self) -> TableState {
        self.state
    }

    /// The value a field holds, if it was written.
    pub closed spec fn spec_field(&self, name: Seq<char>) -> Option<ValueKey> {
        field_from(fields_view(self.fields@), name, 0)
    }
}

/// A field's value does not depend on entries before position `k` when two
/// field lists agree from `k` on.
proof fn lemma_field_from_suffix(f: Seq<(Seq<char>, ValueKey)>, g: Seq<(Seq<char>, ValueKey)>, n: Seq<char>, k: int)
    requires
        0 <= k,
        f.len() == g.len(),
        forall|j: int| k <= j < f.len() ==> f[j] == g[j],
    ensures
        field_from(f, n, k) == field_from(g, n, k),
    decreases f.len() - k,
{
    if k < f.len() {
        lemma_field_from_suffix(f, g, n, k + 1);
    }
}

/// Where `field_position_from` finds a name, it is in range and has the name.
proof fn lemma_field_position_bounds(f: Seq<(Seq<char>, ValueKey)>, name: Seq<char>, i: int)
    requires
        0 <= i,
    ensures
        field_position_from(f, name, i) matches Some(p) ==> i <= p < f.len() && f[p].0 == name,
    decreases f.len() - i,
{
    if i < f.len() && f[i].0 != name {
        lemma_field_position_bounds(f, name, i + 1);
    }
}

/// Overwriting the entry a name is found at changes that name's value only.
proof fn lemma_field_overwrite(f: Seq<(Seq<char>, ValueKey)>, p: int, name: Seq<char>, v: ValueKey, n: Seq<char>, i: int)
    requires
        0 <= i <= p,
        field_position_from(f, name, i) == Some(p),
    ensures
        0 <= p < f.len(),
        field_from(f.update(p, (name, v)), n, i) == (if n == name { Some(v) } else { field_from(f, n, i) }),
    decreases p - i,
{
    let g = f.update(p, (name, v));
    lemma_field_position_bounds(f, name, i);
    if f[i].0 != name {
        assert(field_position_from(f, name, i) == field_position_from(f, name, i + 1));
        lemma_field_position_bounds(f, name, i + 1);
        lemma_field_overwrite(f, p, name, v, n, i + 1);
        assert(g[i] == f[i]);
    } else {
        assert(i == p);
        assert(g[i] == (name, v));
        if n != name {
            lemma_field_from_suffix(f, g, n, p + 1);
        }
    }
}

/// Appending an entry for a name that has none gives that name its value only.
proof fn lemma_field_append(f: Seq<(Seq<char>, ValueKey)>, name: Seq<char>, v: ValueKey, n: Seq<char>, i: int)
    requires
        0 <= i <= f.len(),
        field_position_from(f, name, i) is None,
    ensures
        field_from(f.push((name, v)), n, i) == (if n == name { Some(v) } else { field_from(f, n, i) }),
    decreases f.len() - i,
{
    let g = f.push((name, v));
    if i < f.len() {
        assert(g[i] == f[i]);
        assert(f[i].0 != name);
        assert(field_position_from(f, name, i + 1) is None);
        lemma_field_append(f, name, v, n, i + 1);
        if f[i].0 == n {
            assert(field_from(g, n, i) == Some(g[i].1));
            assert(field_from(f, n, i) == Some(f[i].1));
        } else {
            assert(field_from(g, n, i) == field_from(g, n, i + 1));
            assert(field_from(f, n, i) == field_from(f, n, i + 1));
        }
    } else {
        assert(g[i] == (name, v));
        assert(field_from(g, n, i + 1) is None);
        assert(field_from(f, n, i) is None);
    }
}

/// The stable label of a field type in error messages.
pub open spec fn field_type_label(ty: FieldType) -> &'static str {
    match ty {
        FieldType::Dynamic => "dynamic",
        FieldType::NoneType => "none",
        FieldType::Scalar(s) => s.spelling(),
        FieldType::Table(..) => "table",
        FieldType::Unchecked => "unchecked",
    }
}

/// The error for a name that is no member of the table.
pub open spec fn no_member() -> RuntimeError {
    RuntimeError::InvalidValue { message: "表没有该成员" }
}

/// The error for a member that code outside the table may not access.
pub open spec fn not_public() -> RuntimeError {
    RuntimeError::InvalidValue { message: "表成员不可从表外访问" }
}

/// The error for a method used as a field.
pub open spec fn not_a_field() -> RuntimeError {
    RuntimeError::InvalidValue { message: "成员是方法而不是字段" }
}

/// The error reported for a `drop` hook that failed with `cause`.
pub open spec fn drop_failure(cause: RuntimeError) -> RuntimeError {
    RuntimeError::TableDrop { message: "表 drop 钩子失败", cause: Box::new(cause) }
}

/// The error reported for an `init` hook that failed with `cause`, given the
/// outcome of the `drop` hook that ran while the table was released.
pub open spec fn init_failure(cause: RuntimeError, release: Result<(), RuntimeError>) -> RuntimeError {
    RuntimeError::TableInit {
        message: "表 init 钩子失败",
        cause: Box::new(cause),
        suppressed: match release {
            Ok(()) => None,
            Err(d) => Some(Box::new(drop_failure(d))),
        },
    }
}

/// What writing `value` to field `name` from inside the table gives, for a
/// table in `state` with `members`.
pub open spec fn write_outcome(state: TableState, members: Seq<TableMember>, name: Seq<char>, value: ValueKey) -> Result<(), RuntimeError> {
    if !state.writable() {
        Err(RuntimeError::TableState { expected: "writable", actual: state.name() })
    } else {
        match member_position(members, name) {
            None => Err(RuntimeError::InvalidValue { message: "表没有该字段" }),
            Some(i) => if members[i].kind is Method {
                Err(not_a_field())
            } else if !value_matches(value, members[i].ty) {
                Err(RuntimeError::TypeMismatch { expected: field_type_label(members[i].ty), actual: type_label_of(value) })
            } else {
                Ok(())
            },
        }
    }
}

/// What a public access to member `name` allows: an error, or nothing.
pub open spec fn public_access(members: Seq<TableMember>, name: Seq<char>) -> Result<(), RuntimeError> {
    match member_position(members, name) {
        None => Err(no_member()),
        Some(i) => if !members[i].public {
            Err(not_public())
        } else {
            Ok(())
        },
    }
}

/// Whether member `name` exists, is public and is a field.
pub open spec fn public_field(members: Seq<TableMember>, name: Seq<char>) -> bool {
    public_access(members, name) is Ok && members[member_position(members, name)->Some_0].kind is Field
}

/// The label of a field type.
fn field_type_name(ty: &FieldType) -> (r: &'static str)
    ensures
        r == field_type_label(*ty),
{
    match ty {
        FieldType::Dynamic => "dynamic",
        FieldType::NoneType => "none",
        FieldType::Scalar(s) => s.as_str(),
        FieldType::Table(..) => "table",
        FieldType::Unchecked => "unchecked",
    }
}

/// Copies a field type.
pub(crate) fn copy_field_type(ty: &FieldType) -> (r: FieldType)
    ensures
        r == *ty,
{
    match ty {
        FieldType::Dynamic => FieldType::Dynamic,
        FieldType::NoneType => FieldType::NoneType,
        FieldType::Scalar(s) => FieldType::Scalar(*s),
        FieldType::Table(name, kind) => FieldType::Table(name.clone(), *kind),
        FieldType::Unchecked => FieldType::Unchecked,
    }
}

/// Copies a table definition, member by member.
fn copy_definition(definition: &TableDefinition) -> (r: TableDefinition)
    ensures
        r.name == definition.name,
        r.kind == definition.kind,
        r.members@ == definition.members@,
{
    let mut members: Vec<TableMember> = Vec::new();
    let mut i: usize = 0;
    while i < definition.members.len()
        invariant
            i <= definition.members.len(),
            members@ == definition.members@.take(i as int),
        decreases definition.members.len() - i,
    {
        let member = &definition.members[i];
        let copy = TableMember {
            name: member.name.clone(),
            kind: member.kind,
            public: member.public,
            ty: copy_field_type(&member.ty),
        };
        members.push(copy);
        proof {
            assert(members@ =~= definition.members@.take(i as int + 1));
        }
        i += 1;
    }
    proof {
        assert(definition.members@.take(definition.members.len() as int) =~= definition.members@);
    }
    TableDefinition { name: definition.name.clone(), kind: definition.kind, members }
}

impl TableInstance {
    /// Allocates a table and starts building it: the kind of the definition
    /// must be `expected`; the table is then initialising its fields, ready
    /// for the `init` hook to write them.
    pub fn begin_construction(definition: TableDefinition, expected: TableKind) -> (r: Result<TableInstance, RuntimeError>)
        ensures
            definition.kind != expected ==> r == Err::<TableInstance, RuntimeError>(
                RuntimeError::InvalidValue {
                    message: if expected is Instance { "表不是可实例化构造目标" } else { "表不是单例表定义" },
                },
            ),
            definition.kind == expected ==> (r matches Ok(t) && t.spec_definition() == definition && t.spec_state()
                is FieldsInitializing && forall|n: Seq<char>| t.spec_field(n) is None),
    {
        if definition.kind != expected {
            return Err(RuntimeError::InvalidValue {
                message: if matches!(expected, TableKind::Instance) { "表不是可实例化构造目标" } else { "表不是单例表定义" },
            });
        }
        let state = match TableState::Allocated.transition_to(TableState::FieldsInitializing) {
            Ok(s) => s,
            Err(e) => {
                return Err(e);
            },
        };
        let table = TableInstance { definition, state, fields: Vec::new() };
        proof {
            assert(fields_view(table.fields@).len() == 0);
        }
        Ok(table)
    }

    /// Finishes building a table with the outcome of its `init` hook and, when
    /// `init` failed, the outcome of the `drop` hook that ran as the table was
    /// released: on success the table becomes usable; on failure it is
    /// released and the failure is reported as an `init` error that keeps the
    /// hook's error as its cause and a failed `drop` as a suppressed error.
    pub fn finish_construction(self, init: Result<(), RuntimeError>, release: Result<(), RuntimeError>) -> (r: Result<TableInstance, RuntimeError>)
        requires
            self.spec_state() is FieldsInitializing,
        ensures
            init is Ok ==> (r matches Ok(t) && t.spec_state() is Usable && t.spec_definition()
                == self.spec_definition() && forall|n: Seq<char>| t.spec_field(n) == self.spec_field(n)),
            (init matches Err(c) ==> r == Err::<TableInstance, RuntimeError>(init_failure(c, release))),
    {
        match init {
            Ok(()) => {
                let completed = match self.state.transition_to(TableState::InitCompleted) {
                    Ok(s) => s,
                    Err(e) => {
                        return Err(e);
                    },
                };
                let usable = match completed.transition_to(TableState::Usable) {
                    Ok(s) => s,
                    Err(e) => {
                        return Err(e);
                    },
                };
                let TableInstance { definition, state: _, fields } = self;
                Ok(TableInstance { definition, state: usable, fields })
            },
            Err(c) => {
                let mut failed = self;
                failed.state = TableState::Dropping;
                let suppressed = match failed.finish_release(release) {
                    Ok(()) => None,
                    Err(d) => Some(Box::new(d)),
                };
                Err(RuntimeError::TableInit { message: "表 init 钩子失败", cause: Box::new(c), suppressed })
            },
        }
    }

    /// Builds an instance of a `[[Table]]` definition that has no `init` hook.
    pub fn new(definition: TableDefinition) -> (r: Result<TableInstance, RuntimeError>)
        ensures
            !(definition.kind is Instance) ==> r == Err::<TableInstance, RuntimeError>(
                RuntimeError::InvalidValue { message: "表不是可实例化构造目标" },
            ),
            definition.kind is Instance ==> (r matches Ok(t) && t.spec_definition() == definition && t.spec_state()
                is Usable && forall|n: Seq<char>| t.spec_field(n) is None),
    {
        match TableInstance::begin_construction(definition, TableKind::Instance) {
            Ok(table) => table.finish_construction(Ok(()), Ok(())),
            Err(e) => Err(e),
        }
    }

    /// Builds the value of a `[Table]` singleton definition that has no
    /// `init` hook.
    pub fn singleton(definition: TableDefinition) -> (r: Result<TableInstance, RuntimeError>)
        ensures
            !(definition.kind is Singleton) ==> r == Err::<TableInstance, RuntimeError>(
                RuntimeError::InvalidValue { message: "表不是单例表定义" },
            ),
            definition.kind is Singleton ==> (r matches Ok(t) && t.spec_definition() == definition && t.spec_state()
                is Usable && forall|n: Seq<char>| t.spec_field(n) is None),
    {
        match TableInstance::begin_construction(definition, TableKind::Singleton) {
            Ok(table) => table.finish_construction(Ok(()), Ok(())),
            Err(e) => Err(e),
        }
    }

    /// Returns the construction state.
    pub fn state(&self) -> (r: TableState)
        ensures
            r == self.spec_state(),
    {
        self.state
    }

    /// Returns the table name.
    pub fn name(&self) -> (r: String)
        ensures
            r@ == self.spec_definition().name@,
    {
        self.definition.name.clone()
    }

    /// Returns a copy of the static definition.
    pub fn definition(&self) -> (r: Result<TableDefinition, RuntimeError>)
        ensures
            r matches Ok(d) && d.name == self.spec_definition().name && d.kind == self.spec_definition().kind
                && d.members@ == self.spec_definition().members@,
    {
        Ok(copy_definition(&self.definition))
    }

    /// Reads a field that was written, in a state that allows reading; a
    /// field not written yet reads as `None`.
    pub fn field(&self, name: &str) -> (r: Result<Option<RuntimeValue>, RuntimeError>)
        ensures
            !self.spec_state().readable() ==> r == Err::<Option<RuntimeValue>, RuntimeError>(
                RuntimeError::TableState { expected: "usable", actual: self.spec_state().name() },
            ),
            self.spec_state().readable() ==> (r matches Ok(v) && match v {
                Some(x) => self.spec_field(name@) == Some(x@),
                None => self.spec_field(name@) is None,
            }),
    {
        match self.state.ensure_readable() {
            Ok(()) => {},
            Err(e) => {
                return Err(e);
            },
        }
        let wanted = name.to_owned();
        let mut i: usize = 0;
        while i < self.fields.len()
            invariant
                i <= self.fields.len(),
                wanted@ == name@,
                self.spec_state().readable(),
                field_from(fields_view(self.fields@), name@, 0) == field_from(fields_view(self.fields@), name@, i as int),
            decreases self.fields.len() - i,
        {
            if self.fields[i].0 == wanted {
                return Ok(Some(duplicate(&self.fields[i].1)));
            }
            i += 1;
        }
        Ok(None)
    }

    /// Writes a field from inside the table (its `init` or its methods): the
    /// state must allow writing, the member must be a field, and the value
    /// must have the field's static type.
    pub fn set_internal(&mut self, name: &str, value: RuntimeValue) -> (r: Result<(), RuntimeError>)
        ensures
            r == write_outcome(old(self).spec_state(), old(self).spec_definition().members@, name@, value@),
            final(self).spec_state() == old(self).spec_state(),
            final(self).spec_definition() == old(self).spec_definition(),
            r is Ok ==> forall|n: Seq<char>| final(self).spec_field(n) == (if n == name@ {
                Some(value@)
            } else {
                old(self).spec_field(n)
            }),
            r is Err ==> forall|n: Seq<char>| final(self).spec_field(n) == old(self).spec_field(n),
    {
        match self.state.ensure_writable() {
            Ok(()) => {},
            Err(e) => {
                return Err(e);
            },
        }
        let wanted = name.to_owned();
        let index = match find_member(&self.definition.members, &wanted) {
            Some(i) => i,
            None => {
                return Err(RuntimeError::InvalidValue { message: "表没有该字段" });
            },
        };
        if matches!(self.definition.members[index].kind, TableMemberKind::Method) {
            return Err(RuntimeError::InvalidValue { message: "成员是方法而不是字段" });
        }
        if !runtime_value_matches(&value, &self.definition.members[index].ty) {
            let expected = field_type_name(&self.definition.members[index].ty);
            return Err(RuntimeError::TypeMismatch { expected, actual: value.type_label() });
        }
        let ghost before = fields_view(self.fields@);
        proof {
            assert(write_outcome(self.spec_state(), self.spec_definition().members@, name@, value@) is Ok);
        }
        let mut i: usize = 0;
        while i < self.fields.len()
            invariant
                i <= self.fields.len(),
                wanted@ == name@,
                before == fields_view(self.fields@),
                self.spec_state() == old(self).spec_state(),
                self.spec_definition() == old(self).spec_definition(),
                self.spec_field(name@) == old(self).spec_field(name@),
                before == fields_view(old(self).fields@),
                write_outcome(old(self).spec_state(), old(self).spec_definition().members@, name@, value@) is Ok,
                field_position_from(before, name@, 0) == field_position_from(before, name@, i as int),
            decreases self.fields.len() - i,
        {
            if self.fields[i].0 == wanted {
                proof {
                    assert forall|n: Seq<char>| field_from(before.update(i as int, (name@, value@)), n, 0) == (if n == name@ {
                        Some(value@)
                    } else {
                        field_from(before, n, 0)
                    }) by {
                        lemma_field_overwrite(before, i as int, name@, value@, n, 0);
                    }
                    assert(fields_view(self.fields@.update(i as int, (wanted, value))) =~= before.update(i as int, (name@, value@)));
                }
                self.fields.set(i, (wanted, value));
                return Ok(());
            }
            i += 1;
        }
        proof {
            assert forall|n: Seq<char>| field_from(before.push((name@, value@)), n, 0) == (if n == name@ {
                Some(value@)
            } else {
                field_from(before, n, 0)
            }) by {
                lemma_field_append(before, name@, value@, n, 0);
            }
            assert(fields_view(self.fields@.push((wanted, value))) =~= before.push((name@, value@)));
        }
        self.fields.push((wanted, value));
        Ok(())
    }

    /// Reads a public field from outside the table.
    pub fn get(&self, name: &str) -> (r: Result<Option<RuntimeValue>, RuntimeError>)
        ensures
            public_access(self.spec_definition().members@, name@) matches Err(e) ==> r == Err::<Option<RuntimeValue>, RuntimeError>(e),
            public_access(self.spec_definition().members@, name@) is Ok && !public_field(self.spec_definition().members@, name@)
                ==> r == Err::<Option<RuntimeValue>, RuntimeError>(not_a_field()),
            public_field(self.spec_definition().members@, name@) && !self.spec_state().readable()
                ==> r == Err::<Option<RuntimeValue>, RuntimeError>(
                RuntimeError::TableState { expected: "usable", actual: self.spec_state().name() },
            ),
            public_field(self.spec_definition().members@, name@) && self.spec_state().readable()
                ==> (r matches Ok(v) && match v {
                Some(x) => self.spec_field(name@) == Some(x@),
                None => self.spec_field(name@) is None,
            }),
    {
        let wanted = name.to_owned();
        let index = match find_member(&self.definition.members, &wanted) {
            Some(i) => i,
            None => {
                return Err(RuntimeError::InvalidValue { message: "表没有该成员" });
            },
        };
        if !self.definition.members[index].public {
            return Err(RuntimeError::InvalidValue { message: "表成员不可从表外访问" });
        }
        if matches!(self.definition.members[index].kind, TableMemberKind::Method) {
            return Err(RuntimeError::InvalidValue { message: "成员是方法而不是字段" });
        }
        self.field(name)
    }

    /// Writes a public field from outside the table, with the checks of
    /// [`Self::set_internal`].
    pub fn set(&mut self, name: &str, value: RuntimeValue) -> (r: Result<(), RuntimeError>)
        ensures
            public_access(old(self).spec_definition().members@, name@) matches Err(e) ==> r == Err::<(), RuntimeError>(e),
            public_access(old(self).spec_definition().members@, name@) is Ok ==> r == write_outcome(
                old(self).spec_state(),
                old(self).spec_definition().members@,
                name@,
                value@,
            ),
            final(self).spec_state() == old(self).spec_state(),
            final(self).spec_definition() == old(self).spec_definition(),
            r is Ok ==> forall|n: Seq<char>| final(self).spec_field(n) == (if n == name@ {
                Some(value@)
            } else {
                old(self).spec_field(n)
            }),
            r is Err ==> forall|n: Seq<char>| final(self).spec_field(n) == old(self).spec_field(n),
    {
        let wanted = name.to_owned();
        let index = match find_member(&self.definition.members, &wanted) {
            Some(i) => i,
            None => {
                return Err(RuntimeError::InvalidValue { message: "表没有该成员" });
            },
        };
        if !self.definition.members[index].public {
            return Err(RuntimeError::InvalidValue { message: "表成员不可从表外访问" });
        }
        self.set_internal(name, value)
    }

    /// Starts releasing the table, as its `drop` does: the table moves to
    /// dropping, where its `drop` hook may still read fields; releasing a
    /// released table is an error.
    pub fn begin_release(&mut self) -> (r: Result<(), RuntimeError>)
        ensures
            old(self).spec_state() is Released ==> r == Err::<(), RuntimeError>(
                RuntimeError::RefcountInvariant { message: "表对象被重复释放" },
            ) && final(self).spec_state() is Released,
            !(old(self).spec_state() is Released) ==> r is Ok && final(self).spec_state() is Dropping,
            final(self).spec_definition() == old(self).spec_definition(),
            forall|n: Seq<char>| final(self).spec_field(n) == old(self).spec_field(n),
    {
        match self.state.begin_drop() {
            Ok(s) => {
                self.state = s;
                Ok(())
            },
            Err(e) => Err(e),
        }
    }

    /// Finishes releasing the table with the outcome of its `drop` hook: the
    /// table is released either way, and a failed hook is reported as a
    /// `drop` error.
    pub fn finish_release(self, hook: Result<(), RuntimeError>) -> (r: Result<(), RuntimeError>)
        requires
            self.spec_state() is Dropping,
        ensures
            hook is Ok ==> r is Ok,
            (hook matches Err(c) ==> r == Err::<(), RuntimeError>(drop_failure(c))),
    {
        let released = self.state.transition_to(TableState::Released);
        match (released, hook) {
            (Ok(_), Ok(())) => Ok(()),
            (Ok(_), Err(c)) => Err(RuntimeError::TableDrop { message: "表 drop 钩子失败", cause: Box::new(c) }),
            (Err(e), _) => Err(e),
        }
    }

    /// Releases a table that has no `drop` hook.
    pub fn try_release(self) -> (r: Result<(), RuntimeError>)
        ensures
            self.spec_state() is Released ==> r == Err::<(), RuntimeError>(
                RuntimeError::RefcountInvariant { message: "表对象被重复释放" },
            ),
            !(self.spec_state() is Released) ==> r is Ok,
    {
        let mut table = self;
        match table.begin_release() {
            Ok(()) => table.finish_release(Ok(())),
            Err(e) => Err(e),
        }
    }
}

/// What a read gives back of a write: when a write of `value` to the public
/// field `name` is accepted (what `set` and `set_internal` leave behind on
/// `Ok`) in a state where fields may be read, reading `name` afterwards is
/// allowed and gives `value`, and every other field reads as before.
pub proof fn lemma_read_after_write(before: TableInstance, after: TableInstance, name: Seq<char>, value: ValueKey)
    requires
        public_access(before.spec_definition().members@, name) is Ok,
        write_outcome(before.spec_state(), before.spec_definition().members@, name, value) is Ok,
        before.spec_state().readable(),
        after.spec_state() == before.spec_state(),
        after.spec_definition() == before.spec_definition(),
        forall|n: Seq<char>| after.spec_field(n) == (if n == name {
            Some(value)
        } else {
            before.spec_field(n)
        }),
    ensures
        public_field(after.spec_definition().members@, name),
        after.spec_state().readable(),
        after.spec_field(name) == Some(value),
        forall|n: Seq<char>| n != name ==> after.spec_field(n) == before.spec_field(n),
{
    assert(after.spec_field(name) == Some(value));
}

} // verus!
