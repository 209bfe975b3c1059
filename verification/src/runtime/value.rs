//! Runtime values as plain data, and the language-level equality on them.
//!
//! Scalars are held inline; floats are held by their bit pattern, which is
//! also how they compare. Strings are held by their content. Tables,
//! containers and error objects are held by their identity, so two such
//! values are equal only when they are the same object; a table also carries
//! the name and kind of its definition, which field types are checked
//! against.

use vstd::prelude::*;
use crate::ast::{ScalarType, TableKind};
use crate::runtime::errors::RuntimeError;
use crate::runtime::memory::RuntimeTypeTag;

verus! {

/// A value that runtime code passes around.
#[derive(Clone, Debug, PartialEq, Eq, Hash)]
pub enum RuntimeValue {
    /// Default 64-bit integer.
    Int(i64),
    /// 32-bit integer.
    Sint(i32),
    /// Extensible-width integer in its canonical decimal text.
    Lint(String),
    /// Default 64-bit float, by its bit pattern.
    Float(u64),
    /// 32-bit float, by its bit pattern.
    Sfloat(u32),
    /// Extensible-precision float in its canonical text.
    Lfloat(String),
    /// Boolean.
    Bool(bool),
    /// String content.
    Str(String),
    /// A table object: the name and declaration kind of its definition, and
    /// its identity.
    Table(String, TableKind, u64),
    /// A container object: its type tag and its identity.
    Object(RuntimeTypeTag, u64),
    /// A recoverable error object, by its identity.
    Error(u64),
    /// The empty value.
    NoneValue,
}

/// What decides whether two runtime values are equal.
pub enum ValueKey {
    /// Default 64-bit integer.
    Int(i64),
    /// 32-bit integer.
    Sint(i32),
    /// Extensible-width integer text.
    Lint(Seq<char>),
    /// Bit pattern of a 64-bit float.
    Float(u64),
    /// Bit pattern of a 32-bit float.
    Sfloat(u32),
    /// Extensible-precision float text.
    Lfloat(Seq<char>),
    /// Boolean.
    Bool(bool),
    /// String content.
    Str(Seq<char>),
    /// Table definition name, declaration kind and identity.
    Table(Seq<char>, TableKind, u64),
    /// Object type tag and identity.
    Object(RuntimeTypeTag, u64),
    /// Error identity.
    Error(u64),
    /// The empty value.
    NoneValue,
}

impl View for RuntimeValue {
    type V = ValueKey;

    open spec fn view(&self) -> ValueKey {
        match self {
            RuntimeValue::Int(v) => ValueKey::Int(*v),
            RuntimeValue::Sint(v) => ValueKey::Sint(*v),
            RuntimeValue::Lint(v) => ValueKey::Lint(v@),
            RuntimeValue::Float(v) => ValueKey::Float(*v),
            RuntimeValue::Sfloat(v) => ValueKey::Sfloat(*v),
            RuntimeValue::Lfloat(v) => ValueKey::Lfloat(v@),
            RuntimeValue::Bool(v) => ValueKey::Bool(*v),
            RuntimeValue::Str(v) => ValueKey::Str(v@),
            RuntimeValue::Table(name, kind, id) => ValueKey::Table(name@, *kind, *id),
            RuntimeValue::Object(tag, id) => ValueKey::Object(*tag, *id),
            RuntimeValue::Error(v) => ValueKey::Error(*v),
            RuntimeValue::NoneValue => ValueKey::NoneValue,
        }
    }
}

/// The static scalar type of a value; tables, containers, errors and `none`
/// have none.
pub open spec fn scalar_type_of(key: ValueKey) -> Option<ScalarType> {
    match key {
        ValueKey::Int(_) => Some(ScalarType::Int),
        ValueKey::Sint(_) => Some(ScalarType::Sint),
        ValueKey::Lint(_) => Some(ScalarType::Lint),
        ValueKey::Float(_) => Some(ScalarType::Float),
        ValueKey::Sfloat(_) => Some(ScalarType::Sfloat),
        ValueKey::Lfloat(_) => Some(ScalarType::Lfloat),
        ValueKey::Bool(_) => Some(ScalarType::Bool),
        ValueKey::Str(_) => Some(ScalarType::Str),
        _ => None,
    }
}

/// The stable type name of a value.
pub open spec fn type_label_of(key: ValueKey) -> &'static str {
    match key {
        ValueKey::Table(..) => "table",
        ValueKey::Object(tag, _) => tag.name(),
        ValueKey::Error(_) => "error",
        ValueKey::NoneValue => "none",
        _ => match scalar_type_of(key) {
            Some(ty) => ty.spelling(),
            None => "dynamic",
        },
    }
}

impl RuntimeValue {
    /// Returns the static scalar type; tables, containers, errors and `none`
    /// give `None`.
    pub fn scalar_type(&self) -> (r: Option<ScalarType>)
        ensures
            r == scalar_type_of(self@),
    {
        match self {
            RuntimeValue::Int(_) => Some(ScalarType::Int),
            RuntimeValue::Sint(_) => Some(ScalarType::Sint),
            RuntimeValue::Lint(_) => Some(ScalarType::Lint),
            RuntimeValue::Float(_) => Some(ScalarType::Float),
            RuntimeValue::Sfloat(_) => Some(ScalarType::Sfloat),
            RuntimeValue::Lfloat(_) => Some(ScalarType::Lfloat),
            RuntimeValue::Bool(_) => Some(ScalarType::Bool),
            RuntimeValue::Str(_) => Some(ScalarType::Str),
            _ => None,
        }
    }

    /// Returns the stable type name: the scalar spelling, the object's tag
    /// name, `error` or `none`.
    pub fn type_label(&self) -> (r: &'static str)
        ensures
            r == type_label_of(self@),
    {
        match self {
            RuntimeValue::Table(..) => "table",
            RuntimeValue::Object(tag, _) => tag.as_str(),
            RuntimeValue::Error(_) => "error",
            RuntimeValue::NoneValue => "none",
            _ => match self.scalar_type() {
                Some(ty) => ty.as_str(),
                None => "dynamic",
            },
        }
    }

    /// Reads a boolean; other values give `None`.
    pub fn as_bool(&self) -> (r: Option<bool>)
        ensures
            r == (match self@ {
                ValueKey::Bool(b) => Some(b),
                _ => None::<bool>,
            }),
    {
        match self {
            RuntimeValue::Bool(b) => Some(*b),
            _ => None,
        }
    }

    /// Makes a string value from text.
    pub fn new_string(value: &str) -> (r: Result<RuntimeValue, RuntimeError>)
        ensures
            r matches Ok(v) && v@ == ValueKey::Str(value@),
    {
        Ok(RuntimeValue::Str(value.to_owned()))
    }

    /// Reads the identity of an error object; other values give `None`.
    pub fn as_error(&self) -> (r: Option<u64>)
        ensures
            r == (match self@ {
                ValueKey::Error(id) => Some(id),
                _ => None::<u64>,
            }),
    {
        match self {
            RuntimeValue::Error(id) => Some(*id),
            _ => None,
        }
    }

    /// Language-level equality: same kind and same content, floats by bit
    /// pattern, objects and errors by identity.
    pub fn equals(&self, other: &Self) -> (r: bool)
        ensures
            r == (self@ == other@),
    {
        equal_values(self, other)
    }

    /// Language-level inequality, the negation of [`Self::equals`].
    pub fn not_equals(&self, other: &Self) -> (r: bool)
        ensures
            r == (self@ != other@),
    {
        !equal_values(self, other)
    }
}

/// Compares two values as the language does.
pub fn equal_values(left: &RuntimeValue, right: &RuntimeValue) -> (r: bool)
    ensures
        r == (left@ == right@),
{
    match (left, right) {
        (RuntimeValue::Int(a), RuntimeValue::Int(b)) => *a == *b,
        (RuntimeValue::Sint(a), RuntimeValue::Sint(b)) => *a == *b,
        (RuntimeValue::Lint(a), RuntimeValue::Lint(b)) => *a == *b,
        (RuntimeValue::Float(a), RuntimeValue::Float(b)) => *a == *b,
        (RuntimeValue::Sfloat(a), RuntimeValue::Sfloat(b)) => *a == *b,
        (RuntimeValue::Lfloat(a), RuntimeValue::Lfloat(b)) => *a == *b,
        (RuntimeValue::Bool(a), RuntimeValue::Bool(b)) => *a == *b,
        (RuntimeValue::Str(a), RuntimeValue::Str(b)) => *a == *b,
        (RuntimeValue::Table(na, ka, a), RuntimeValue::Table(nb, kb, b)) => *na == *nb && *ka == *kb && *a == *b,
        (RuntimeValue::Object(ta, a), RuntimeValue::Object(tb, b)) => *ta == *tb && *a == *b,
        (RuntimeValue::Error(a), RuntimeValue::Error(b)) => *a == *b,
        (RuntimeValue::NoneValue, RuntimeValue::NoneValue) => true,
        _ => false,
    }
}

/// Copies a value, keeping what it compares by.
pub fn duplicate(value: &RuntimeValue) -> (r: RuntimeValue)
    ensures
        r@ == value@,
{
    match value {
        RuntimeValue::Int(v) => RuntimeValue::Int(*v),
        RuntimeValue::Sint(v) => RuntimeValue::Sint(*v),
        RuntimeValue::Lint(v) => RuntimeValue::Lint(v.clone()),
        RuntimeValue::Float(v) => RuntimeValue::Float(*v),
        RuntimeValue::Sfloat(v) => RuntimeValue::Sfloat(*v),
        RuntimeValue::Lfloat(v) => RuntimeValue::Lfloat(v.clone()),
        RuntimeValue::Bool(v) => RuntimeValue::Bool(*v),
        RuntimeValue::Str(v) => RuntimeValue::Str(v.clone()),
        RuntimeValue::Table(name, kind, id) => RuntimeValue::Table(name.clone(), *kind, *id),
        RuntimeValue::Object(tag, id) => RuntimeValue::Object(*tag, *id),
        RuntimeValue::Error(v) => RuntimeValue::Error(*v),
        RuntimeValue::NoneValue => RuntimeValue::NoneValue,
    }
}

/// A string object: its UTF-8 text.
#[derive(Debug)]
pub struct StringHandle {
    value: String,
}

impl View for StringHandle {
    type V = Seq<char>;

    closed spec fn view(&self) -> Seq<char> {
        self.value@
    }
}

impl StringHandle {
    /// Makes a string object holding `value`.
    pub fn new(value: &str) -> (r: Result<StringHandle, RuntimeError>)
        ensures
            r matches Ok(h) && h@ == value@,
    {
        Ok(StringHandle { value: value.to_owned() })
    }

    /// Returns a copy of the text.
    pub fn to_string(&self) -> (r: Result<String, RuntimeError>)
        ensures
            r matches Ok(text) && text@ == self@,
    {
        Ok(self.value.clone())
    }

    /// Returns the number of Unicode scalar values.
    pub fn len(&self) -> (r: usize)
        ensures
            r == self@.len(),
    {
        self.value.as_str().unicode_len()
    }

    /// Returns whether the text is empty.
    pub fn is_empty(&self) -> (r: bool)
        ensures
            r == (self@.len() == 0),
    {
        self.len() == 0
    }

    /// Returns the object type tag of a string.
    pub fn type_tag(&self) -> (r: RuntimeTypeTag)
        ensures
            r == RuntimeTypeTag::String,
    {
        RuntimeTypeTag::String
    }
}

} // verus!
