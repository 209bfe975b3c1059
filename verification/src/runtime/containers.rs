//! Runtime containers: arrays, tuples and dictionaries, which hold values
//! and hand out copies of them.
//!
//! A dictionary table makes no promise about the order of its entries; a
//! dictionary column keeps the order it was written in. Lookups find a key at
//! its first entry.

use vstd::prelude::*;
use crate::runtime::errors::RuntimeError;
use crate::runtime::memory::RuntimeTypeTag;
use crate::runtime::sets::keys_of;
use crate::runtime::tables::{field_from, fields_view};
use crate::runtime::value::{duplicate, RuntimeValue, ValueKey};

verus! {

/// The two shapes of a dictionary object.
#[derive(Clone, Copy, Debug, PartialEq, Eq, Structural, Hash)]
pub enum DictKind {
    /// Unordered dictionary table.
    Table,
    /// Dictionary column with a stable order.
    Column,
}

impl DictKind {
    /// Returns the stable name of the shape.
    pub fn as_str(self) -> (r: &'static str)
        ensures
            r == (if self is Table { "dict_table" } else { "dict_column" }),
    {
        match self {
            DictKind::Table => "dict_table",
            DictKind::Column => "dict_column",
        }
    }

    /// Returns the object type tag of the shape.
    pub fn type_tag(self) -> (r: RuntimeTypeTag)
        ensures
            r == (if self is Table { RuntimeTypeTag::DictTable } else { RuntimeTypeTag::DictColumn }),
            r.name() == (if self is Table { "dict_table" } else { "dict_column" }),
    {
        match self {
            DictKind::Table => RuntimeTypeTag::DictTable,
            DictKind::Column => RuntimeTypeTag::DictColumn,
        }
    }
}

/// Reads the element at `index` of `elements`, if there is one.
fn element_at(elements: &Vec<RuntimeValue>, index: usize) -> (r: Option<RuntimeValue>)
    ensures
        index < elements@.len() ==> (r matches Some(v) && v@ == elements@[index as int]@),
        index >= elements@.len() ==> r is None,
{
    if index < elements.len() {
        Some(duplicate(&elements[index]))
    } else {
        None
    }
}

/// An array object: a sequence of values.
#[derive(Debug)]
pub struct ArrayHandle {
    elements: Vec<RuntimeValue>,
}

impl View for ArrayHandle {
    type V = Seq<ValueKey>;

    closed spec fn view(&self) -> Seq<ValueKey> {
        keys_of(self.elements@)
    }
}

impl ArrayHandle {
    /// Makes an array of the given elements.
    pub fn new(elements: Vec<RuntimeValue>) -> (r: Result<ArrayHandle, RuntimeError>)
        ensures
            r matches Ok(a) && a@ == keys_of(elements@),
    {
        Ok(ArrayHandle { elements })
    }

    /// Returns the number of elements.
    pub fn len(&self) -> (r: usize)
        ensures
            r == self@.len(),
    {
        self.elements.len()
    }

    /// Returns whether the array has no element.
    pub fn is_empty(&self) -> (r: bool)
        ensures
            r == (self@.len() == 0),
    {
        self.elements.len() == 0
    }

    /// Reads a copy of the element at a zero-based position; a position past
    /// the end gives `None`.
    pub fn element(&self, index: usize) -> (r: Result<Option<RuntimeValue>, RuntimeError>)
        ensures
            index < self@.len() ==> (r matches Ok(Some(v)) && v@ == self@[index as int]),
            index >= self@.len() ==> r == Ok::<Option<RuntimeValue>, RuntimeError>(None),
    {
        Ok(element_at(&self.elements, index))
    }

    /// Returns the object type tag of an array.
    pub fn type_tag(&self) -> (r: RuntimeTypeTag)
        ensures
            r == RuntimeTypeTag::Array,
    {
        RuntimeTypeTag::Array
    }
}

/// A tuple object: a fixed sequence of values.
#[derive(Debug)]
pub struct TupleHandle {
    elements: Vec<RuntimeValue>,
}

impl View for TupleHandle {
    type V = Seq<ValueKey>;

    closed spec fn view(&self) -> Seq<ValueKey> {
        keys_of(self.elements@)
    }
}

impl TupleHandle {
    /// Makes a tuple of the given elements.
    pub fn new(elements: Vec<RuntimeValue>) -> (r: Result<TupleHandle, RuntimeError>)
        ensures
            r matches Ok(t) && t@ == keys_of(elements@),
    {
        Ok(TupleHandle { elements })
    }

    /// Returns the number of elements.
    pub fn len(&self) -> (r: usize)
        ensures
            r == self@.len(),
    {
        self.elements.len()
    }

    /// Returns whether the tuple has no element.
    pub fn is_empty(&self) -> (r: bool)
        ensures
            r == (self@.len() == 0),
    {
        self.elements.len() == 0
    }

    /// Reads a copy of the element at a zero-based position; a position past
    /// the end gives `None`.
    pub fn element(&self, index: usize) -> (r: Result<Option<RuntimeValue>, RuntimeError>)
        ensures
            index < self@.len() ==> (r matches Ok(Some(v)) && v@ == self@[index as int]),
            index >= self@.len() ==> r == Ok::<Option<RuntimeValue>, RuntimeError>(None),
    {
        Ok(element_at(&self.elements, index))
    }

    /// Returns the object type tag of a tuple.
    pub fn type_tag(&self) -> (r: RuntimeTypeTag)
        ensures
            r == RuntimeTypeTag::Tuple,
    {
        RuntimeTypeTag::Tuple
    }
}

/// A dictionary object: its shape and its entries.
#[derive(Debug)]
pub struct DictHandle {
    kind: DictKind,
    entries: Vec<(String, RuntimeValue)>,
}

impl View for DictHandle {
    type V = Seq<(Seq<char>, ValueKey)>;

    closed spec fn view(&self) -> Seq<(Seq<char>, ValueKey)> {
        fields_view(self.entries@)
    }
}

impl DictHandle {
    /// The shape of the dictionary.
    pub closed spec fn spec_kind(&self) -> DictKind {
        self.kind
    }

    /// Makes a dictionary of the given shape and entries.
    pub fn new(kind: DictKind, entries: Vec<(String, RuntimeValue)>) -> (r: Result<DictHandle, RuntimeError>)
        ensures
            r matches Ok(d) && d@ == fields_view(entries@) && d.spec_kind() == kind,
    {
        Ok(DictHandle { kind, entries })
    }

    /// Returns the shape.
    pub fn kind(&self) -> (r: DictKind)
        ensures
            r == self.spec_kind(),
    {
        self.kind
    }

    /// Returns the number of entries.
    pub fn len(&self) -> (r: usize)
        ensures
            r == self@.len(),
    {
        self.entries.len()
    }

    /// Returns whether the dictionary has no entry.
    pub fn is_empty(&self) -> (r: bool)
        ensures
            r == (self@.len() == 0),
    {
        self.entries.len() == 0
    }

    /// Reads a copy of the value of `key`; a missing key gives `None`.
    pub fn value(&self, key: &str) -> (r: Result<Option<RuntimeValue>, RuntimeError>)
        ensures
            r matches Ok(found) && match found {
                Some(v) => field_from(self@, key@, 0) == Some(v@),
                None => field_from(self@, key@, 0) is None,
            },
    {
        let wanted = key.to_owned();
        let mut i: usize = 0;
        while i < self.entries.len()
            invariant
                i <= self.entries.len(),
                wanted@ == key@,
                field_from(fields_view(self.entries@), key@, 0) == field_from(fields_view(self.entries@), key@, i as int),
            decreases self.entries.len() - i,
        {
            if self.entries[i].0 == wanted {
                return Ok(Some(duplicate(&self.entries[i].1)));
            }
            i += 1;
        }
        Ok(None)
    }

    /// Returns whether `key` has an entry.
    pub fn contains_key(&self, key: &str) -> (r: Result<bool, RuntimeError>)
        ensures
            r == Ok::<bool, RuntimeError>(field_from(self@, key@, 0) is Some),
    {
        match self.value(key) {
            Ok(Some(_)) => Ok(true),
            _ => Ok(false),
        }
    }

    /// Returns the object type tag of the dictionary's shape.
    pub fn type_tag(&self) -> (r: RuntimeTypeTag)
        ensures
            r == (if self.spec_kind() is Table { RuntimeTypeTag::DictTable } else { RuntimeTypeTag::DictColumn }),
    {
        self.kind.type_tag()
    }
}

} // verus!
