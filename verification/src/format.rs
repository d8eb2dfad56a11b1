//! The layout of a property stream, as functions on byte sequences: what a
//! stream holds, and the stream that holds a given tree.

use vstd::prelude::*;
use vstd::string::StringSliceAdditionalSpecFns;
use crate::cursor::{parse_bytes, parse_le, parse_text, Parsed};
use crate::error::ErrorModel;
use crate::le::{as_signed, as_unsigned, le_bytes};
use crate::registry::{find_layout, LayoutModel};
use crate::text::TextModel;
use crate::tree::{BodyModel, FieldKind, FieldModel, PropertyModel, TypeTag, ValueModel};

verus! {

/// The name under which a type tag is stored.
pub open spec fn tag_name(tag: TypeTag) -> Seq<u8> {
    match tag {
        TypeTag::Bool => "BoolProperty".spec_bytes(),
        TypeTag::Int8 => "Int8Property".spec_bytes(),
        TypeTag::Int16 => "Int16Property".spec_bytes(),
        TypeTag::Int32 => "IntProperty".spec_bytes(),
        TypeTag::Int64 => "Int64Property".spec_bytes(),
        TypeTag::UInt16 => "UInt16Property".spec_bytes(),
        TypeTag::UInt32 => "UInt32Property".spec_bytes(),
        TypeTag::UInt64 => "UInt64Property".spec_bytes(),
        TypeTag::Float => "FloatProperty".spec_bytes(),
        TypeTag::Double => "DoubleProperty".spec_bytes(),
        TypeTag::Str => "StrProperty".spec_bytes(),
        TypeTag::Name => "NameProperty".spec_bytes(),
        TypeTag::Text => "TextProperty".spec_bytes(),
        TypeTag::Enum => "EnumProperty".spec_bytes(),
        TypeTag::Byte => "ByteProperty".spec_bytes(),
        TypeTag::Struct => "StructProperty".spec_bytes(),
        TypeTag::Array => "ArrayProperty".spec_bytes(),
        TypeTag::Mapping => "MapProperty".spec_bytes(),
        TypeTag::UniqueSet => "SetProperty".spec_bytes(),
    }
}

/// The text that names a type tag in a stream.
pub open spec fn tag_text(tag: TypeTag) -> TextModel {
    TextModel::ascii(tag_name(tag))
}

/// The tags in the order in which a text is held against their names.
pub open spec fn tag_order() -> Seq<TypeTag> {
    seq![
        TypeTag::Bool,
        TypeTag::Int8,
        TypeTag::Int16,
        TypeTag::Int32,
        TypeTag::Int64,
        TypeTag::UInt16,
        TypeTag::UInt32,
        TypeTag::UInt64,
        TypeTag::Float,
        TypeTag::Double,
        TypeTag::Str,
        TypeTag::Name,
        TypeTag::Text,
        TypeTag::Enum,
        TypeTag::Byte,
        TypeTag::Struct,
        TypeTag::Array,
        TypeTag::Mapping,
        TypeTag::UniqueSet,
    ]
}

/// The first tag at or behind index `from` of [`tag_order`] that `text` names.
pub open spec fn tag_of_from(text: TextModel, from: int) -> Option<TypeTag>
    decreases tag_order().len() - from,
{
    if from < 0 || from >= tag_order().len() {
        None
    } else if text == tag_text(tag_order()[from]) {
        Some(tag_order()[from])
    } else {
        tag_of_from(text, from + 1)
    }
}

/// The tag that `text` names, if it names one.
pub open spec fn tag_of(text: TextModel) -> Option<TypeTag> {
    tag_of_from(text, 0)
}

/// The name that ends a scope, and that stands for "no enum" in a byte property.
pub open spec fn sentinel() -> TextModel {
    TextModel::ascii("None".spec_bytes())
}

/// The narrow text without any unit.
pub open spec fn empty_text() -> TextModel {
    TextModel::Narrow(Seq::empty())
}

/// Whether `end` is a position that a read from `start` can have reached.
pub open spec fn advanced(start: int, end: int, len: nat) -> bool {
    start <= end <= len
}

/// The type tag at `pos`: a text that names a tag of the vocabulary.
pub open spec fn parse_tag(bytes: Seq<u8>, pos: int) -> Parsed<TypeTag> {
    match parse_text(bytes, pos) {
        Err(e) => Err(e),
        Ok((text, end)) => match tag_of(text) {
            Some(tag) => Ok((tag, end)),
            None => Err(ErrorModel::UnknownPropertyType(text)),
        },
    }
}

/// The value at `pos` of a tag whose values are one number or one text.
#[verifier::opaque]
pub open spec fn parse_simple(tag: TypeTag, bytes: Seq<u8>, pos: int) -> Parsed<ValueModel> {
    match tag {
        TypeTag::Bool => match parse_le(bytes, pos, 1) {
            Err(e) => Err(e),
            Ok((v, end)) => Ok((ValueModel::Bool(v as u8), end)),
        },
        TypeTag::Int8 => match parse_le(bytes, pos, 1) {
            Err(e) => Err(e),
            Ok((v, end)) => Ok((ValueModel::Int8(as_signed(v, 1) as i8), end)),
        },
        TypeTag::Int16 => match parse_le(bytes, pos, 2) {
            Err(e) => Err(e),
            Ok((v, end)) => Ok((ValueModel::Int16(as_signed(v, 2) as i16), end)),
        },
        TypeTag::Int32 => match parse_le(bytes, pos, 4) {
            Err(e) => Err(e),
            Ok((v, end)) => Ok((ValueModel::Int32(as_signed(v, 4) as i32), end)),
        },
        TypeTag::Int64 => match parse_le(bytes, pos, 8) {
            Err(e) => Err(e),
            Ok((v, end)) => Ok((ValueModel::Int64(as_signed(v, 8) as i64), end)),
        },
        TypeTag::UInt16 => match parse_le(bytes, pos, 2) {
            Err(e) => Err(e),
            Ok((v, end)) => Ok((ValueModel::UInt16(v as u16), end)),
        },
        TypeTag::UInt32 => match parse_le(bytes, pos, 4) {
            Err(e) => Err(e),
            Ok((v, end)) => Ok((ValueModel::UInt32(v as u32), end)),
        },
        TypeTag::UInt64 => match parse_le(bytes, pos, 8) {
            Err(e) => Err(e),
            Ok((v, end)) => Ok((ValueModel::UInt64(v as u64), end)),
        },
        TypeTag::Float => match parse_le(bytes, pos, 4) {
            Err(e) => Err(e),
            Ok((v, end)) => Ok((ValueModel::Float32(v as u32), end)),
        },
        TypeTag::Double => match parse_le(bytes, pos, 8) {
            Err(e) => Err(e),
            Ok((v, end)) => Ok((ValueModel::Float64(v as u64), end)),
        },
        TypeTag::Str | TypeTag::Name | TypeTag::Text => match parse_text(bytes, pos) {
            Err(e) => Err(e),
            Ok((text, end)) => Ok((ValueModel::Str(text), end)),
        },
        _ => Err(ErrorModel::UnknownPropertyType(tag_text(tag))),
    }
}

/// The field of a fixed-layout struct at `pos`.
pub open spec fn parse_field(kind: FieldKind, bytes: Seq<u8>, pos: int) -> Parsed<FieldModel> {
    match kind {
        FieldKind::Float32 => match parse_le(bytes, pos, 4) {
            Err(e) => Err(e),
            Ok((v, end)) => Ok((FieldModel::Float32(v as u32), end)),
        },
        FieldKind::Float64 => match parse_le(bytes, pos, 8) {
            Err(e) => Err(e),
            Ok((v, end)) => Ok((FieldModel::Float64(v as u64), end)),
        },
        FieldKind::Int32 => match parse_le(bytes, pos, 4) {
            Err(e) => Err(e),
            Ok((v, end)) => Ok((FieldModel::Int32(as_signed(v, 4) as i32), end)),
        },
        FieldKind::Int64 => match parse_le(bytes, pos, 8) {
            Err(e) => Err(e),
            Ok((v, end)) => Ok((FieldModel::Int64(as_signed(v, 8) as i64), end)),
        },
        FieldKind::Guid => match parse_bytes(bytes, pos, 16) {
            Err(e) => Err(e),
            Ok((id, end)) => Ok((FieldModel::Guid(id), end)),
        },
    }
}

/// The fields of `layout` from index `done.len()` on, read from `pos` and put
/// behind `done`.
pub open spec fn parse_fields(layout: Seq<FieldKind>, bytes: Seq<u8>, pos: int, done: Seq<FieldModel>) -> Parsed<
    Seq<FieldModel>,
>
    decreases layout.len() - done.len(),
{
    if done.len() >= layout.len() {
        Ok((done, pos))
    } else {
        match parse_field(layout[done.len() as int], bytes, pos) {
            Err(e) => Err(e),
            Ok((field, end)) => parse_fields(layout, bytes, end, done.push(field)),
        }
    }
}

/// One element at `pos` that is no struct: an enum is its value name, a byte
/// is raw, a number or a text is as in a property, and a collection cannot
/// be an element.
#[verifier::opaque]
pub open spec fn parse_flat(tag: TypeTag, bytes: Seq<u8>, pos: int) -> Parsed<ValueModel> {
    match tag {
        TypeTag::Enum => match parse_text(bytes, pos) {
            Err(e) => Err(e),
            Ok((text, end)) => Ok((ValueModel::Str(text), end)),
        },
        TypeTag::Byte => match parse_le(bytes, pos, 1) {
            Err(e) => Err(e),
            Ok((v, end)) => Ok((ValueModel::Byte { enum_name: None, raw: v as u8 }, end)),
        },
        TypeTag::Struct | TypeTag::Array | TypeTag::Mapping | TypeTag::UniqueSet => Err(
            ErrorModel::UnknownPropertyType(tag_text(tag)),
        ),
        _ => parse_simple(tag, bytes, pos),
    }
}

/// One element of a collection at `pos`. Elements carry no header of their
/// own: a struct is read by the layout of `struct_type` or, where none is
/// registered, as a property list; any other element as [`parse_flat`] says.
pub open spec fn parse_element(
    registry: Seq<LayoutModel>,
    tag: TypeTag,
    struct_type: TextModel,
    bytes: Seq<u8>,
    pos: int,
) -> Parsed<ValueModel>
    decreases bytes.len() - pos, 1int, 0nat,
    when 0 <= pos
{
    if tag == TypeTag::Struct {
        match find_layout(registry, struct_type) {
            Some(layout) => match parse_fields(layout, bytes, pos, Seq::empty()) {
                Err(e) => Err(e),
                Ok((fields, end)) => Ok(
                    (
                        ValueModel::Struct {
                            struct_type,
                            guid: None,
                            body: BodyModel::Fixed(fields),
                        },
                        end,
                    ),
                ),
            },
            None => match parse_scope(registry, bytes, pos, Seq::empty()) {
                Err(e) => Err(e),
                Ok((properties, end)) => Ok(
                    (
                        ValueModel::Struct {
                            struct_type,
                            guid: None,
                            body: BodyModel::Fields(properties),
                        },
                        end,
                    ),
                ),
            },
        }
    } else {
        parse_flat(tag, bytes, pos)
    }
}

/// `count` elements from `pos` on, put behind `done`.
pub open spec fn parse_elements(
    registry: Seq<LayoutModel>,
    tag: TypeTag,
    struct_type: TextModel,
    bytes: Seq<u8>,
    pos: int,
    count: nat,
    done: Seq<ValueModel>,
) -> Parsed<Seq<ValueModel>>
    decreases bytes.len() - pos, 3int, count,
    when 0 <= pos
{
    if count == 0 {
        Ok((done, pos))
    } else {
        match parse_element(registry, tag, struct_type, bytes, pos) {
            Err(e) => Err(e),
            Ok((element, end)) => if advanced(pos, end, bytes.len()) {
                parse_elements(
                    registry,
                    tag,
                    struct_type,
                    bytes,
                    end,
                    (count - 1) as nat,
                    done.push(element),
                )
            } else {
                Err(ErrorModel::Truncated)
            },
        }
    }
}

/// One pair of a key and a value at `pos`. A struct among them has no type
/// name and is read as a property list.
pub open spec fn parse_pair(
    registry: Seq<LayoutModel>,
    key_tag: TypeTag,
    value_tag: TypeTag,
    bytes: Seq<u8>,
    pos: int,
) -> Parsed<(ValueModel, ValueModel)>
    decreases bytes.len() - pos, 2int, 0nat,
    when 0 <= pos
{
    match parse_element(registry, key_tag, empty_text(), bytes, pos) {
        Err(e) => Err(e),
        Ok((key, middle)) => if advanced(pos, middle, bytes.len()) {
            match parse_element(registry, value_tag, empty_text(), bytes, middle) {
                Err(e) => Err(e),
                Ok((value, end)) => Ok(((key, value), end)),
            }
        } else {
            Err(ErrorModel::Truncated)
        },
    }
}

/// `count` pairs of a key and a value from `pos` on, put behind `done`.
pub open spec fn parse_pairs(
    registry: Seq<LayoutModel>,
    key_tag: TypeTag,
    value_tag: TypeTag,
    bytes: Seq<u8>,
    pos: int,
    count: nat,
    done: Seq<(ValueModel, ValueModel)>,
) -> Parsed<Seq<(ValueModel, ValueModel)>>
    decreases bytes.len() - pos, 3int, count,
    when 0 <= pos
{
    if count == 0 {
        Ok((done, pos))
    } else {
        match parse_pair(registry, key_tag, value_tag, bytes, pos) {
            Err(e) => Err(e),
            Ok((pair, end)) => if advanced(pos, end, bytes.len()) {
                parse_pairs(
                    registry,
                    key_tag,
                    value_tag,
                    bytes,
                    end,
                    (count - 1) as nat,
                    done.push(pair),
                )
            } else {
                Err(ErrorModel::Truncated)
            },
        }
    }
}

/// What the payload of a struct property holds: the fields of the registered
/// layout or, where none is registered, a property list, if that reading takes
/// the payload exactly; the payload itself otherwise.
pub open spec fn parse_struct_body(registry: Seq<LayoutModel>, struct_type: TextModel, payload: Seq<u8>) -> BodyModel
    decreases payload.len(), 4int, 0nat,
{
    match find_layout(registry, struct_type) {
        Some(layout) => match parse_fields(layout, payload, 0, Seq::empty()) {
            Ok((fields, end)) => if end == payload.len() {
                BodyModel::Fixed(fields)
            } else {
                BodyModel::Raw(payload)
            },
            Err(_) => BodyModel::Raw(payload),
        },
        None => match parse_scope(registry, payload, 0, Seq::empty()) {
            Ok((properties, end)) => if end == payload.len() {
                BodyModel::Fields(properties)
            } else {
                BodyModel::Raw(payload)
            },
            Err(_) => BodyModel::Raw(payload),
        },
    }
}

/// The header and the elements of an array or a set at `pos`: the element
/// tag, the element count, for structs their one shared type name, then the
/// elements.
pub open spec fn parse_sequence(registry: Seq<LayoutModel>, bytes: Seq<u8>, pos: int) -> Parsed<
    (TypeTag, Option<TextModel>, Seq<ValueModel>),
>
    decreases bytes.len() - pos, 4int, 0nat,
    when 0 <= pos
{
    proof {
        reveal(parse_text);
    }
    match parse_tag(bytes, pos) {
        Err(e) => Err(e),
        Ok((tag, at1)) => match parse_le(bytes, at1, 4) {
            Err(e) => Err(e),
            Ok((count, at2)) => if tag == TypeTag::Struct {
                match parse_text(bytes, at2) {
                    Err(e) => Err(e),
                    Ok((struct_type, at3)) => match parse_elements(
                        registry,
                        tag,
                        struct_type,
                        bytes,
                        at3,
                        count,
                        Seq::empty(),
                    ) {
                        Err(e) => Err(e),
                        Ok((elements, end)) => Ok(((tag, Some(struct_type), elements), end)),
                    },
                }
            } else {
                match parse_elements(registry, tag, empty_text(), bytes, at2, count, Seq::empty()) {
                    Err(e) => Err(e),
                    Ok((elements, end)) => Ok(((tag, None, elements), end)),
                }
            },
        },
    }
}

/// The body of an enum property at `pos`: the name of the enum type, then the
/// name of the value.
pub open spec fn parse_enum(bytes: Seq<u8>, pos: int) -> Parsed<ValueModel> {
    match parse_text(bytes, pos) {
        Err(e) => Err(e),
        Ok((enum_type, at1)) => match parse_text(bytes, at1) {
            Err(e) => Err(e),
            Ok((value, end)) => Ok((ValueModel::Enum { enum_type, value }, end)),
        },
    }
}

/// The body of a byte property at `pos`: the name of an enum type, then the
/// name of a value or, where the type name is the sentinel, one raw byte.
pub open spec fn parse_byte(bytes: Seq<u8>, pos: int) -> Parsed<ValueModel> {
    match parse_text(bytes, pos) {
        Err(e) => Err(e),
        Ok((enum_name, at1)) => if enum_name == sentinel() {
            match parse_le(bytes, at1, 1) {
                Err(e) => Err(e),
                Ok((v, end)) => Ok((ValueModel::Byte { enum_name: None, raw: v as u8 }, end)),
            }
        } else {
            match parse_text(bytes, at1) {
                Err(e) => Err(e),
                Ok((value, end)) => Ok((ValueModel::Enum { enum_type: enum_name, value }, end)),
            }
        },
    }
}

/// The body of a struct property at `pos`: the type name, sixteen bytes of
/// identifier, then a payload of the declared size.
pub open spec fn parse_struct(registry: Seq<LayoutModel>, size: u64, bytes: Seq<u8>, pos: int) -> Parsed<
    ValueModel,
>
    decreases bytes.len() - pos, 4int, 0nat,
    when 0 <= pos
{
    proof {
        reveal(parse_text);
    }
    match parse_text(bytes, pos) {
        Err(e) => Err(e),
        Ok((struct_type, at1)) => match parse_bytes(bytes, at1, 16) {
            Err(e) => Err(e),
            Ok((guid, at2)) => match parse_bytes(bytes, at2, size as nat) {
                Err(e) => Err(e),
                Ok((payload, end)) => Ok(
                    (
                        ValueModel::Struct {
                            struct_type,
                            guid: Some(guid),
                            body: parse_struct_body(registry, struct_type, payload),
                        },
                        end,
                    ),
                ),
            },
        },
    }
}

/// The body of a map property at `pos`: the tags of keys and values, a word
/// of flags, the entry count, then the entries.
pub open spec fn parse_mapping(registry: Seq<LayoutModel>, bytes: Seq<u8>, pos: int) -> Parsed<ValueModel>
    decreases bytes.len() - pos, 4int, 0nat,
    when 0 <= pos
{
    proof {
        reveal(parse_text);
    }
    match parse_tag(bytes, pos) {
        Err(e) => Err(e),
        Ok((key_tag, at1)) => match parse_tag(bytes, at1) {
            Err(e) => Err(e),
            Ok((value_tag, at2)) => match parse_le(bytes, at2, 4) {
                Err(e) => Err(e),
                Ok((flags, at3)) => match parse_le(bytes, at3, 4) {
                    Err(e) => Err(e),
                    Ok((count, at4)) => match parse_pairs(
                        registry,
                        key_tag,
                        value_tag,
                        bytes,
                        at4,
                        count,
                        Seq::empty(),
                    ) {
                        Err(e) => Err(e),
                        Ok((entries, end)) => Ok(
                            (
                                ValueModel::Mapping {
                                    key_tag,
                                    value_tag,
                                    flags: flags as u32,
                                    entries,
                                },
                                end,
                            ),
                        ),
                    },
                },
            },
        },
    }
}

/// What follows the declared size of a property with the tag `tag`.
pub open spec fn parse_body(registry: Seq<LayoutModel>, tag: TypeTag, size: u64, bytes: Seq<u8>, pos: int) -> Parsed<
    ValueModel,
>
    decreases bytes.len() - pos, 5int, 0nat,
    when 0 <= pos
{
    match tag {
        TypeTag::Enum => parse_enum(bytes, pos),
        TypeTag::Byte => parse_byte(bytes, pos),
        TypeTag::Struct => parse_struct(registry, size, bytes, pos),
        TypeTag::Array => match parse_sequence(registry, bytes, pos) {
            Err(e) => Err(e),
            Ok(((element_tag, element_struct, elements), end)) => Ok(
                (ValueModel::Array { element_tag, element_struct, elements }, end),
            ),
        },
        TypeTag::UniqueSet => match parse_sequence(registry, bytes, pos) {
            Err(e) => Err(e),
            Ok(((element_tag, element_struct, elements), end)) => Ok(
                (ValueModel::UniqueSet { element_tag, element_struct, elements }, end),
            ),
        },
        TypeTag::Mapping => parse_mapping(registry, bytes, pos),
        _ => parse_simple(tag, bytes, pos),
    }
}

/// The properties of a scope from `pos` on, put behind `done`: each a name, a
/// type tag, a declared payload size of 64 bits and what the tag asks for,
/// until the name is the sentinel.
pub open spec fn parse_scope(registry: Seq<LayoutModel>, bytes: Seq<u8>, pos: int, done: Seq<PropertyModel>) -> Parsed<
    Seq<PropertyModel>,
>
    decreases bytes.len() - pos, 0int, 0nat,
    when 0 <= pos
{
    proof {
        reveal(parse_text);
    }
    match parse_text(bytes, pos) {
        Err(e) => Err(e),
        Ok((name, at1)) => if name == sentinel() {
            Ok((done, at1))
        } else {
            match parse_tag(bytes, at1) {
                Err(e) => Err(e),
                Ok((tag, at2)) => match parse_le(bytes, at2, 8) {
                    Err(e) => Err(e),
                    Ok((size, at3)) => match parse_body(registry, tag, size as u64, bytes, at3) {
                        Err(e) => Err(e),
                        Ok((value, end)) => if advanced(at3, end, bytes.len()) {
                            parse_scope(
                                registry,
                                bytes,
                                end,
                                done.push(PropertyModel { name, tag, size: size as u64, value }),
                            )
                        } else {
                            Err(ErrorModel::Truncated)
                        },
                    },
                },
            }
        },
    }
}

/// The bytes of a string of 16-bit units, each unit low byte first.
pub open spec fn wide_bytes(units: Seq<u16>) -> Seq<u8>
    decreases units.len(),
{
    if units.len() == 0 {
        Seq::empty()
    } else {
        wide_bytes(units.drop_last()) + le_bytes(units.last() as nat, 2)
    }
}

/// Whether the length of a text can be written as its signed 32-bit prefix.
pub open spec fn text_fits(text: TextModel) -> bool {
    match text {
        TextModel::Narrow(units) => units.len() <= 0x7fff_ffff,
        TextModel::Wide(units) => units.len() <= 0x8000_0000,
    }
}

/// The bytes of a text: the unit count as a signed 32-bit number, negated
/// for a wide text, then the units.
pub open spec fn encode_text(text: TextModel) -> Seq<u8> {
    match text {
        TextModel::Narrow(units) => le_bytes(units.len(), 4) + units,
        TextModel::Wide(units) => le_bytes(as_unsigned(-(units.len() as int), 4), 4) + wide_bytes(
            units,
        ),
    }
}

/// The bytes of one field of a fixed-layout struct.
pub open spec fn encode_field(field: FieldModel) -> Seq<u8> {
    match field {
        FieldModel::Float32(bits) => le_bytes(bits as nat, 4),
        FieldModel::Float64(bits) => le_bytes(bits as nat, 8),
        FieldModel::Int32(value) => le_bytes(as_unsigned(value as int, 4), 4),
        FieldModel::Int64(value) => le_bytes(as_unsigned(value as int, 8), 8),
        FieldModel::Guid(id) => id,
    }
}

/// The bytes of the fields of a fixed-layout struct, one after the other.
pub open spec fn encode_fields(fields: Seq<FieldModel>) -> Seq<u8>
    decreases fields.len(),
{
    if fields.len() == 0 {
        Seq::empty()
    } else {
        encode_fields(fields.drop_last()) + encode_field(fields.last())
    }
}

/// The sixteen bytes that stand for the identifier of a struct: zeros where
/// it has none.
pub open spec fn guid_bytes(guid: Option<Seq<u8>>) -> Seq<u8> {
    match guid {
        Some(id) => id,
        None => Seq::new(16, |i: int| 0u8),
    }
}

/// The text that stands for an optional name: `otherwise` where there is none.
pub open spec fn text_or(text: Option<TextModel>, otherwise: TextModel) -> TextModel {
    match text {
        Some(t) => t,
        None => otherwise,
    }
}

/// The values of `values` without those that occurred before in it.
pub open spec fn distinct(values: Seq<ValueModel>) -> Seq<ValueModel>
    decreases values.len(),
{
    if values.len() == 0 {
        values
    } else if values.drop_last().contains(values.last()) {
        distinct(values.drop_last())
    } else {
        distinct(values.drop_last()).push(values.last())
    }
}

/// The bytes of a value that is no struct, as an element of a collection: no
/// header, an enum as its value name, a byte as it is.
#[verifier::opaque]
pub open spec fn encode_flat(value: ValueModel) -> Seq<u8> {
    match value {
        ValueModel::Bool(raw) => seq![raw],
        ValueModel::Int8(v) => le_bytes(as_unsigned(v as int, 1), 1),
        ValueModel::Int16(v) => le_bytes(as_unsigned(v as int, 2), 2),
        ValueModel::Int32(v) => le_bytes(as_unsigned(v as int, 4), 4),
        ValueModel::Int64(v) => le_bytes(as_unsigned(v as int, 8), 8),
        ValueModel::UInt16(v) => le_bytes(v as nat, 2),
        ValueModel::UInt32(v) => le_bytes(v as nat, 4),
        ValueModel::UInt64(v) => le_bytes(v as nat, 8),
        ValueModel::Float32(bits) => le_bytes(bits as nat, 4),
        ValueModel::Float64(bits) => le_bytes(bits as nat, 8),
        ValueModel::Str(text) => encode_text(text),
        ValueModel::Enum { enum_type, value } => encode_text(value),
        ValueModel::Byte { enum_name, raw } => seq![raw],
        _ => Seq::empty(),
    }
}

/// The bytes of a value as an element of a collection: a struct as its body,
/// any other value as [`encode_flat`] says.
pub open spec fn encode_element(value: ValueModel) -> Seq<u8>
    decreases value, 0nat,
{
    match value {
        ValueModel::Struct { struct_type, guid, body } => encode_struct_body(body),
        _ => encode_flat(value),
    }
}

/// The bytes of the elements of a collection, one after the other.
pub open spec fn encode_elements(values: Seq<ValueModel>) -> Seq<u8>
    decreases values, 0nat,
{
    if values.len() == 0 {
        Seq::empty()
    } else {
        encode_elements(values.drop_last()) + encode_element(values.last())
    }
}

/// The bytes of the elements of a set: as [`encode_elements`], but an element
/// that occurred before is left out.
pub open spec fn encode_distinct(values: Seq<ValueModel>) -> Seq<u8>
    decreases values, 0nat,
{
    if values.len() == 0 {
        Seq::empty()
    } else if values.drop_last().contains(values.last()) {
        encode_distinct(values.drop_last())
    } else {
        encode_distinct(values.drop_last()) + encode_element(values.last())
    }
}

/// The bytes of the entries of a map, each key before its value.
pub open spec fn encode_pairs(pairs: Seq<(ValueModel, ValueModel)>) -> Seq<u8>
    decreases pairs, 0nat,
{
    if pairs.len() == 0 {
        Seq::empty()
    } else {
        encode_pairs(pairs.drop_last()) + encode_element(pairs.last().0) + encode_element(
            pairs.last().1,
        )
    }
}

/// The payload of a struct.
pub open spec fn encode_struct_body(body: BodyModel) -> Seq<u8>
    decreases body, 0nat,
{
    match body {
        BodyModel::Fixed(fields) => encode_fields(fields),
        BodyModel::Fields(properties) => encode_scope(properties),
        BodyModel::Raw(bytes) => bytes,
    }
}

/// The header of an array or a set of `count` elements: the element tag, the
/// count and, for structs, their shared type name.
pub open spec fn encode_sequence_header(tag: TypeTag, element_struct: Option<TextModel>, count: nat) -> Seq<u8> {
    encode_text(tag_text(tag)) + le_bytes(count, 4) + if tag == TypeTag::Struct {
        encode_text(text_or(element_struct, empty_text()))
    } else {
        Seq::empty()
    }
}

/// The bytes of a value as the body of a property: what follows the declared size.
pub open spec fn encode_body(value: ValueModel) -> Seq<u8>
    decreases value, 1nat,
{
    match value {
        ValueModel::Enum { enum_type, value } => encode_text(enum_type) + encode_text(value),
        ValueModel::Byte { enum_name, raw } => encode_text(text_or(enum_name, sentinel())) + seq![raw],
        ValueModel::Struct { struct_type, guid, body } => encode_text(struct_type) + guid_bytes(guid)
            + encode_struct_body(body),
        ValueModel::Array { element_tag, element_struct, elements } => encode_sequence_header(
            element_tag,
            element_struct,
            elements.len(),
        ) + encode_elements(elements),
        ValueModel::UniqueSet { element_tag, element_struct, elements } => encode_sequence_header(
            element_tag,
            element_struct,
            distinct(elements).len(),
        ) + encode_distinct(elements),
        ValueModel::Mapping { key_tag, value_tag, flags, entries } => encode_text(tag_text(key_tag))
            + encode_text(tag_text(value_tag)) + le_bytes(flags as nat, 4) + le_bytes(
            entries.len(),
            4,
        ) + encode_pairs(entries),
        _ => encode_element(value),
    }
}

/// The bytes of a property: name, type tag, the declared size as it was
/// recorded, then the body.
pub open spec fn encode_property(property: PropertyModel) -> Seq<u8>
    decreases property, 0nat,
{
    encode_text(property.name) + encode_text(tag_text(property.tag)) + le_bytes(property.size as nat, 8)
        + encode_body(property.value)
}

/// The bytes of a run of properties, one after the other.
pub open spec fn encode_properties(properties: Seq<PropertyModel>) -> Seq<u8>
    decreases properties, 0nat,
{
    if properties.len() == 0 {
        Seq::empty()
    } else {
        encode_properties(properties.drop_last()) + encode_property(properties.last())
    }
}

/// The bytes of a scope: its properties, then the name that ends it.
pub open spec fn encode_scope(properties: Seq<PropertyModel>) -> Seq<u8>
    decreases properties, 1nat,
{
    encode_properties(properties) + encode_text(sentinel())
}

/// Whether a value that is no struct can be written as an element of a
/// collection: its text fits, and it is no collection itself.
#[verifier::opaque]
pub open spec fn flat_fits(value: ValueModel) -> bool {
    match value {
        ValueModel::Str(text) => text_fits(text),
        ValueModel::Enum { enum_type, value } => text_fits(value),
        ValueModel::Array { .. } => false,
        ValueModel::Mapping { .. } => false,
        ValueModel::UniqueSet { .. } => false,
        _ => true,
    }
}

/// Whether a value can be written as an element of a collection.
pub open spec fn element_fits(value: ValueModel) -> bool
    decreases value, 0nat,
{
    match value {
        ValueModel::Struct { struct_type, guid, body } => body_fits(body),
        _ => flat_fits(value),
    }
}

/// Whether each of the values can be written as an element.
pub open spec fn elements_fit(values: Seq<ValueModel>) -> bool
    decreases values, 0nat,
{
    forall|i: int| 0 <= i < values.len() ==> element_fits(#[trigger] values[i])
}

/// Whether each key and each value can be written as an element.
pub open spec fn pairs_fit(pairs: Seq<(ValueModel, ValueModel)>) -> bool
    decreases pairs, 0nat,
{
    forall|i: int|
        0 <= i < pairs.len() ==> element_fits((#[trigger] pairs[i]).0) && element_fits(pairs[i].1)
}

/// Whether what a struct holds can be written.
pub open spec fn body_fits(body: BodyModel) -> bool
    decreases body, 0nat,
{
    match body {
        BodyModel::Fixed(fields) => true,
        BodyModel::Fields(properties) => properties_fit(properties),
        BodyModel::Raw(bytes) => true,
    }
}

/// Whether the header of an array or a set of `count` elements can be written.
pub open spec fn sequence_header_fits(tag: TypeTag, element_struct: Option<TextModel>, count: nat) -> bool {
    &&& count <= u32::MAX
    &&& tag == TypeTag::Struct ==> text_fits(text_or(element_struct, empty_text()))
}

/// Whether a value can be written as the body of a property: every length
/// and count in it can be written in its field.
pub open spec fn value_fits(value: ValueModel) -> bool
    decreases value, 1nat,
{
    match value {
        ValueModel::Enum { enum_type, value } => text_fits(enum_type) && text_fits(value),
        ValueModel::Byte { enum_name, raw } => text_fits(text_or(enum_name, empty_text())),
        ValueModel::Struct { struct_type, guid, body } => text_fits(struct_type) && body_fits(body),
        ValueModel::Array { element_tag, element_struct, elements } => sequence_header_fits(
            element_tag,
            element_struct,
            elements.len(),
        ) && elements_fit(elements),
        ValueModel::UniqueSet { element_tag, element_struct, elements } => sequence_header_fits(
            element_tag,
            element_struct,
            distinct(elements).len(),
        ) && elements_fit(elements),
        ValueModel::Mapping { key_tag, value_tag, flags, entries } => entries.len() <= u32::MAX
            && pairs_fit(entries),
        _ => element_fits(value),
    }
}

/// Whether the name and the value of each property can be written.
pub open spec fn properties_fit(properties: Seq<PropertyModel>) -> bool
    decreases properties, 0nat,
{
    forall|i: int|
        0 <= i < properties.len() ==> text_fits((#[trigger] properties[i]).name) && value_fits(
            properties[i].value,
        )
}

/// The names of the vocabulary are short.
pub proof fn lemma_name_lengths()
    ensures
        forall|tag: TypeTag| #[trigger] tag_name(tag).len() <= 14,
        "None".spec_bytes().len() == 4,
{
    reveal_strlit("BoolProperty");
    reveal_strlit("Int8Property");
    reveal_strlit("Int16Property");
    reveal_strlit("IntProperty");
    reveal_strlit("Int64Property");
    reveal_strlit("UInt16Property");
    reveal_strlit("UInt32Property");
    reveal_strlit("UInt64Property");
    reveal_strlit("FloatProperty");
    reveal_strlit("DoubleProperty");
    reveal_strlit("StrProperty");
    reveal_strlit("NameProperty");
    reveal_strlit("TextProperty");
    reveal_strlit("EnumProperty");
    reveal_strlit("ByteProperty");
    reveal_strlit("StructProperty");
    reveal_strlit("ArrayProperty");
    reveal_strlit("MapProperty");
    reveal_strlit("SetProperty");
    reveal_strlit("None");
    vstd::string::is_ascii_spec_bytes("BoolProperty");
    vstd::string::is_ascii_spec_bytes("Int8Property");
    vstd::string::is_ascii_spec_bytes("Int16Property");
    vstd::string::is_ascii_spec_bytes("IntProperty");
    vstd::string::is_ascii_spec_bytes("Int64Property");
    vstd::string::is_ascii_spec_bytes("UInt16Property");
    vstd::string::is_ascii_spec_bytes("UInt32Property");
    vstd::string::is_ascii_spec_bytes("UInt64Property");
    vstd::string::is_ascii_spec_bytes("FloatProperty");
    vstd::string::is_ascii_spec_bytes("DoubleProperty");
    vstd::string::is_ascii_spec_bytes("StrProperty");
    vstd::string::is_ascii_spec_bytes("NameProperty");
    vstd::string::is_ascii_spec_bytes("TextProperty");
    vstd::string::is_ascii_spec_bytes("EnumProperty");
    vstd::string::is_ascii_spec_bytes("ByteProperty");
    vstd::string::is_ascii_spec_bytes("StructProperty");
    vstd::string::is_ascii_spec_bytes("ArrayProperty");
    vstd::string::is_ascii_spec_bytes("MapProperty");
    vstd::string::is_ascii_spec_bytes("SetProperty");
    vstd::string::is_ascii_spec_bytes("None");
}

/// A value occurs among the distinct values where it occurs at all.
pub proof fn lemma_distinct_contains(values: Seq<ValueModel>, value: ValueModel)
    ensures
        distinct(values).contains(value) == values.contains(value),
    decreases values.len(),
{
    if values.len() > 0 {
        let front = values.drop_last();
        lemma_distinct_contains(front, value);
        lemma_distinct_contains(front, values.last());
        if values.contains(value) {
            let i = choose|i: int| 0 <= i < values.len() && values[i] == value;
            if i < values.len() - 1 {
                assert(front[i] == value);
            }
        }
        if front.contains(value) {
            let i = choose|i: int| 0 <= i < front.len() && front[i] == value;
            assert(values[i] == value);
        }
        if front.contains(values.last()) {
        } else {
            let kept = distinct(front);
            assert(kept.push(values.last()).last() == values.last());
            if kept.contains(value) {
                let i = choose|i: int| 0 <= i < kept.len() && kept[i] == value;
                assert(kept.push(values.last())[i] == value);
            }
            if kept.push(values.last()).contains(value) {
                let i = choose|i: int|
                    0 <= i < kept.push(values.last()).len() && kept.push(values.last())[i] == value;
                if i < kept.len() {
                    assert(kept[i] == value);
                } else {
                    assert(values[values.len() - 1] == value);
                }
            }
            if value == values.last() {
                assert(values[values.len() - 1] == value);
            }
        }
    }
}

/// The elements of a set are written as the distinct values, in their order.
pub proof fn lemma_encode_distinct(values: Seq<ValueModel>)
    ensures
        encode_distinct(values) == encode_elements(distinct(values)),
    decreases values.len(),
{
    if values.len() > 0 {
        lemma_encode_distinct(values.drop_last());
        if !values.drop_last().contains(values.last()) {
            let kept = distinct(values.drop_last());
            assert(kept.push(values.last()).drop_last() =~= kept);
        }
    }
}

/// All values fit as elements where the distinct ones do.
pub proof fn lemma_distinct_fit(values: Seq<ValueModel>)
    ensures
        elements_fit(values) == elements_fit(distinct(values)),
{
    let kept = distinct(values);
    if elements_fit(values) {
        assert forall|i: int| 0 <= i < kept.len() implies element_fits(#[trigger] kept[i]) by {
            lemma_distinct_contains(values, kept[i]);
            assert(kept.contains(kept[i]));
            let j = choose|j: int| 0 <= j < values.len() && values[j] == kept[i];
            assert(element_fits(values[j]));
        }
    }
    if elements_fit(kept) {
        assert forall|i: int| 0 <= i < values.len() implies element_fits(#[trigger] values[i]) by {
            lemma_distinct_contains(values, values[i]);
            assert(values.contains(values[i]));
            let j = choose|j: int| 0 <= j < kept.len() && kept[j] == values[i];
            assert(element_fits(kept[j]));
        }
    }
}

/// Where no value occurs twice, the distinct values are all of them.
pub proof fn lemma_distinct_all(values: Seq<ValueModel>)
    requires
        values.no_duplicates(),
    ensures
        distinct(values) == values,
    decreases values.len(),
{
    if values.len() > 0 {
        let front = values.drop_last();
        lemma_distinct_all(front);
        if front.contains(values.last()) {
            let i = choose|i: int| 0 <= i < front.len() && front[i] == values.last();
            assert(values[i] == values[values.len() - 1]);
        }
        assert(front.push(values.last()) =~= values);
    }
}

/// The number of bytes of a text in a stream.
pub open spec fn text_len(text: TextModel) -> nat {
    match text {
        TextModel::Narrow(units) => 4 + units.len(),
        TextModel::Wide(units) => 4 + 2 * units.len(),
    }
}

/// The number of bytes in the body of a property that stand in front of its
/// payload: the names of types and tags, and the identifier of a struct.
pub open spec fn header_len(value: ValueModel) -> nat {
    match value {
        ValueModel::Enum { enum_type, value } => text_len(enum_type),
        ValueModel::Byte { enum_name, raw } => text_len(text_or(enum_name, sentinel())),
        ValueModel::Struct { struct_type, guid, body } => text_len(struct_type) + 16,
        ValueModel::Array { element_tag, element_struct, elements } => text_len(tag_text(element_tag)),
        ValueModel::UniqueSet { element_tag, element_struct, elements } => text_len(
            tag_text(element_tag),
        ),
        ValueModel::Mapping { key_tag, value_tag, flags, entries } => text_len(tag_text(key_tag))
            + text_len(tag_text(value_tag)),
        _ => 0,
    }
}

/// The size to declare for a property that holds the value: the number of
/// bytes of its body behind the header, and 0 for a flag, which lies outside
/// the payload.
pub open spec fn payload_len(value: ValueModel) -> int {
    if value is Bool {
        0
    } else {
        encode_body(value).len() - header_len(value)
    }
}

/// The bytes of a string of 16-bit units are twice as many as the units.
pub proof fn lemma_wide_len(units: Seq<u16>)
    ensures
        wide_bytes(units).len() == 2 * units.len(),
    decreases units.len(),
{
    if units.len() > 0 {
        lemma_wide_len(units.drop_last());
        crate::le::lemma_le_bytes_len(units.last() as nat, 2);
    }
}

/// A text takes four bytes and its units.
pub proof fn lemma_text_len(text: TextModel)
    ensures
        encode_text(text).len() == text_len(text),
{
    match text {
        TextModel::Narrow(units) => {
            crate::le::lemma_le_bytes_len(units.len(), 4);
        },
        TextModel::Wide(units) => {
            crate::le::lemma_le_bytes_len(as_unsigned(-(units.len() as int), 4), 4);
            lemma_wide_len(units);
        },
    }
}

/// Leaving repeated values out makes a sequence no longer.
pub proof fn lemma_distinct_len(values: Seq<ValueModel>)
    ensures
        distinct(values).len() <= values.len(),
    decreases values.len(),
{
    if values.len() > 0 {
        lemma_distinct_len(values.drop_last());
    }
}

} // verus!
