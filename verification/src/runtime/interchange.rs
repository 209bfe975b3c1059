//! Decisions taken where runtime values cross the C boundary: which
//! dictionary kind a number selects, which boolean payloads are valid, and
//! that the keys handed over for a new dictionary are all different.

use vstd::prelude::*;
use crate::ast::TableKind;
use crate::runtime::containers::DictKind;
use crate::runtime::tables::{copy_field_type, FieldType, TableDefinition, TableMember, TableMemberKind};
use crate::source::text_from_utf8;
use crate::token::same_text;
use vstd::utf8::{decode_utf8, valid_utf8};

verus! {

/// The dictionary kind that a boundary number selects: `0` a dictionary
/// table, `1` a dictionary column; other numbers select none.
pub fn dict_kind_from_code(code: u32) -> (r: Option<DictKind>)
    ensures
        code == 0 ==> r == Some(DictKind::Table),
        code == 1 ==> r == Some(DictKind::Column),
        code > 1 ==> r is None,
{
    match code {
        0 => Some(DictKind::Table),
        1 => Some(DictKind::Column),
        _ => None,
    }
}

/// The boolean that a boundary payload byte holds: only `0` and `1` are
/// booleans.
pub fn bool_from_payload(raw: u8) -> (r: Option<bool>)
    ensures
        raw == 0 ==> r == Some(false),
        raw == 1 ==> r == Some(true),
        raw > 1 ==> r is None,
{
    match raw {
        0 => Some(false),
        1 => Some(true),
        _ => None,
    }
}

/// The texts of a list of keys.
pub open spec fn key_texts(keys: Seq<String>) -> Seq<Seq<char>> {
    keys.map_values(|k: String| k@)
}

/// Whether no key occurs twice; a dictionary is refused otherwise, so that
/// lookups never depend on which of two equal keys comes first.
pub fn dict_entries_unique(keys: &Vec<String>) -> (r: bool)
    ensures
        r == key_texts(keys@).no_duplicates(),
{
    let ghost texts = key_texts(keys@);
    let mut j: usize = 0;
    while j < keys.len()
        invariant
            j <= keys@.len(),
            texts == key_texts(keys@),
            texts.len() == keys@.len(),
            forall|a: int, b: int| 0 <= a < b < j ==> texts[a] != texts[b],
        decreases keys.len() - j,
    {
        let mut i: usize = 0;
        while i < j
            invariant
                i <= j < keys@.len(),
                texts == key_texts(keys@),
                texts.len() == keys@.len(),
                forall|a: int, b: int| 0 <= a < b < j ==> texts[a] != texts[b],
                forall|a: int| 0 <= a < i ==> texts[a] != texts[j as int],
            decreases j - i,
        {
            if same_text(keys[i].as_str(), keys[j].as_str()) {
                proof {
                    assert(texts[i as int] == texts[j as int]);
                }
                return false;
            }
            i += 1;
        }
        j += 1;
    }
    true
}

/// The names of the fields of a table descriptor.
pub open spec fn field_names(fields: Seq<(String, FieldType, u8)>) -> Seq<Seq<char>> {
    fields.map_values(|f: (String, FieldType, u8)| f.0@)
}

/// A table descriptor is acceptable: the table has a name, its kind code is
/// `0` (singleton) or `1` (instance), every field has a name and a public
/// flag of `0` or `1`, and no field name occurs twice.
pub open spec fn descriptor_acceptable(name: Seq<char>, kind: u32, fields: Seq<(String, FieldType, u8)>) -> bool {
    &&& name.len() > 0
    &&& kind <= 1
    &&& forall|i: int| 0 <= i < fields.len() ==> (#[trigger] fields[i]).0@.len() > 0 && fields[i].2 <= 1
    &&& field_names(fields).no_duplicates()
}

/// Builds the static definition a table descriptor from the C boundary
/// describes, or refuses the descriptor.
pub fn table_definition_from_descriptor(name: String, kind: u32, fields: &Vec<(String, FieldType, u8)>) -> (r: Option<
    TableDefinition,
>)
    ensures
        r is Some <==> descriptor_acceptable(name@, kind, fields@),
        r matches Some(d) ==> {
            &&& d.name@ == name@
            &&& d.kind == (if kind == 0 { TableKind::Singleton } else { TableKind::Instance })
            &&& d.members@.len() == fields@.len()
            &&& forall|i: int|
                0 <= i < fields@.len() ==> (#[trigger] d.members@[i]).name@ == fields@[i].0@ && d.members@[i].kind
                    == TableMemberKind::Field && d.members@[i].public == (fields@[i].2 == 1) && d.members@[i].ty
                    == fields@[i].1
        },
{
    if name.as_str().unicode_len() == 0 {
        proof {
            assert(name@.len() == 0);
        }
        return None;
    }
    let table_kind = match kind {
        0 => TableKind::Singleton,
        1 => TableKind::Instance,
        _ => {
            return None;
        },
    };
    let ghost names = field_names(fields@);
    let mut members: Vec<TableMember> = Vec::new();
    let mut i: usize = 0;
    while i < fields.len()
        invariant
            i <= fields@.len(),
            names == field_names(fields@),
            names.len() == fields@.len(),
            members@.len() == i,
            forall|j: int| 0 <= j < i ==> (#[trigger] fields@[j]).0@.len() > 0 && fields@[j].2 <= 1,
            forall|a: int, b: int| 0 <= a < b < i ==> names[a] != names[b],
            forall|j: int|
                0 <= j < i ==> (#[trigger] members@[j]).name@ == fields@[j].0@ && members@[j].kind
                    == TableMemberKind::Field && members@[j].public == (fields@[j].2 == 1) && members@[j].ty
                    == fields@[j].1,
        decreases fields.len() - i,
    {
        let field = &fields[i];
        if field.0.as_str().unicode_len() == 0 || field.2 > 1 {
            return None;
        }
        let mut j: usize = 0;
        while j < i
            invariant
                j <= i < fields@.len(),
                names == field_names(fields@),
                names.len() == fields@.len(),
                forall|a: int| 0 <= a < j ==> names[a] != names[i as int],
            decreases i - j,
        {
            if same_text(fields[j].0.as_str(), fields[i].0.as_str()) {
                proof {
                    assert(names[j as int] == names[i as int]);
                }
                return None;
            }
            j += 1;
        }
        members.push(
            TableMember {
                name: field.0.clone(),
                kind: TableMemberKind::Field,
                public: field.2 == 1,
                ty: copy_field_type(&field.1),
            },
        );
        i += 1;
    }
    Some(TableDefinition { name, kind: table_kind, members })
}

/// Why a descriptor handed over as bytes is refused.
#[derive(Clone, Copy, Debug, PartialEq, Eq, Structural)]
pub enum DescriptorRefusal {
    /// A name is not UTF-8.
    InvalidUtf8,
    /// A name is empty, a kind or public flag is out of range, or a field
    /// name occurs twice.
    InvalidArgument,
}

/// The field at `i` of a byte descriptor passes its checks: its name is
/// UTF-8 and not empty, its public flag is `0` or `1`, and no earlier field
/// has the same name.
pub open spec fn byte_field_ok(fields: Seq<(Vec<u8>, FieldType, u8)>, i: int) -> bool {
    &&& valid_utf8(fields[i].0@)
    &&& decode_utf8(fields[i].0@).len() > 0
    &&& fields[i].2 <= 1
    &&& forall|j: int| 0 <= j < i ==> decode_utf8(#[trigger] fields[j].0@) != decode_utf8(fields[i].0@)
}

/// The table name and kind of a byte descriptor pass their checks.
pub open spec fn byte_header_ok(name: Seq<u8>, kind: u32) -> bool {
    valid_utf8(name) && decode_utf8(name).len() > 0 && kind <= 1
}

/// The checks run in order and the first that fails decides: a field at
/// `i` fails first when it fails and every field before it passes.
pub open spec fn first_bad_field(fields: Seq<(Vec<u8>, FieldType, u8)>, i: int) -> bool {
    &&& 0 <= i < fields.len()
    &&& !byte_field_ok(fields, i)
    &&& forall|j: int| 0 <= j < i ==> #[trigger] byte_field_ok(fields, j)
}

/// Builds the static definition a descriptor describes whose names arrive
/// as bytes, or says why it is refused. The table name is checked first,
/// then the kind, then each field in order: its name's encoding, that the
/// name is not empty, its public flag, and that no earlier field has the
/// same name.
pub fn table_definition_from_byte_descriptor(name: &[u8], kind: u32, fields: &Vec<(Vec<u8>, FieldType, u8)>) -> (r:
    Result<TableDefinition, DescriptorRefusal>)
    ensures
        !valid_utf8(name@) ==> r == Err::<TableDefinition, DescriptorRefusal>(DescriptorRefusal::InvalidUtf8),
        valid_utf8(name@) && !byte_header_ok(name@, kind) ==> r == Err::<TableDefinition, DescriptorRefusal>(
            DescriptorRefusal::InvalidArgument,
        ),
        forall|i: int|
            byte_header_ok(name@, kind) && #[trigger] first_bad_field(fields@, i) ==> r == Err::<
                TableDefinition,
                DescriptorRefusal,
            >(if valid_utf8(fields@[i].0@) {
                DescriptorRefusal::InvalidArgument
            } else {
                DescriptorRefusal::InvalidUtf8
            }),
        r is Ok <==> byte_header_ok(name@, kind) && forall|i: int| 0 <= i < fields@.len() ==> #[trigger] byte_field_ok(
            fields@,
            i,
        ),
        r matches Ok(d) ==> {
            &&& d.name@ == decode_utf8(name@)
            &&& d.kind == (if kind == 0 { TableKind::Singleton } else { TableKind::Instance })
            &&& d.members@.len() == fields@.len()
            &&& forall|i: int|
                0 <= i < fields@.len() ==> (#[trigger] d.members@[i]).name@ == decode_utf8(fields@[i].0@)
                    && d.members@[i].kind == TableMemberKind::Field && d.members@[i].public == (fields@[i].2 == 1)
                    && d.members@[i].ty == fields@[i].1
        },
{
    let table_name = match text_from_utf8(name) {
        Some(text) => text,
        None => {
            return Err(DescriptorRefusal::InvalidUtf8);
        },
    };
    if table_name.as_str().unicode_len() == 0 {
        return Err(DescriptorRefusal::InvalidArgument);
    }
    let table_kind = match kind {
        0 => TableKind::Singleton,
        1 => TableKind::Instance,
        _ => {
            return Err(DescriptorRefusal::InvalidArgument);
        },
    };
    let mut members: Vec<TableMember> = Vec::new();
    let mut i: usize = 0;
    while i < fields.len()
        invariant
            i <= fields@.len(),
            byte_header_ok(name@, kind),
            table_name@ == decode_utf8(name@),
            table_kind == (if kind == 0 { TableKind::Singleton } else { TableKind::Instance }),
            members@.len() == i,
            forall|j: int| 0 <= j < i ==> #[trigger] byte_field_ok(fields@, j),
            forall|j: int|
                0 <= j < i ==> (#[trigger] members@[j]).name@ == decode_utf8(fields@[j].0@) && members@[j].kind
                    == TableMemberKind::Field && members@[j].public == (fields@[j].2 == 1) && members@[j].ty
                    == fields@[j].1,
        decreases fields.len() - i,
    {
        let field = &fields[i];
        let field_name = match text_from_utf8(field.0.as_slice()) {
            Some(text) => text,
            None => {
                proof {
                    assert(first_bad_field(fields@, i as int));
                }
                return Err(DescriptorRefusal::InvalidUtf8);
            },
        };
        if field_name.as_str().unicode_len() == 0 || field.2 > 1 {
            proof {
                assert(first_bad_field(fields@, i as int));
            }
            return Err(DescriptorRefusal::InvalidArgument);
        }
        let mut j: usize = 0;
        while j < i
            invariant
                j <= i < fields@.len(),
                members@.len() == i,
                byte_header_ok(name@, kind),
                forall|a: int| 0 <= a < i ==> #[trigger] byte_field_ok(fields@, a),
                field_name@ == decode_utf8(fields@[i as int].0@),
                valid_utf8(fields@[i as int].0@),
                forall|a: int|
                    0 <= a < i ==> (#[trigger] members@[a]).name@ == decode_utf8(fields@[a].0@),
                forall|a: int| 0 <= a < j ==> decode_utf8(#[trigger] fields@[a].0@) != decode_utf8(fields@[i as int].0@),
            decreases i - j,
        {
            if same_text(members[j].name.as_str(), field_name.as_str()) {
                proof {
                    assert(decode_utf8(fields@[j as int].0@) == decode_utf8(fields@[i as int].0@));
                    assert(!byte_field_ok(fields@, i as int));
                    assert(first_bad_field(fields@, i as int));
                }
                return Err(DescriptorRefusal::InvalidArgument);
            }
            j += 1;
        }
        proof {
            assert(byte_field_ok(fields@, i as int));
        }
        members.push(
            TableMember {
                name: field_name,
                kind: TableMemberKind::Field,
                public: field.2 == 1,
                ty: copy_field_type(&field.1),
            },
        );
        i += 1;
    }
    Ok(TableDefinition { name: table_name, kind: table_kind, members })
}

} // verus!
