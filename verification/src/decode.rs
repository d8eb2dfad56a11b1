//! The decoder: from the bytes of a property stream to the property tree.

use vstd::prelude::*;
use crate::cursor::{Cursor, Parsed};
use crate::error::{ErrorModel, FormatError};
use crate::format::{
    advanced, empty_text, parse_body, parse_flat, parse_element, parse_elements, parse_field,
    parse_fields, parse_byte, parse_enum, parse_mapping, parse_pair, parse_pairs, parse_scope,
    parse_sequence, parse_struct, parse_simple, parse_struct_body, parse_tag, sentinel, tag_name,
    tag_of, tag_of_from, tag_order,
};
use crate::le::lemma_pow256_values;
use crate::registry::StructRegistry;
use crate::text::{Text, TextModel};
use crate::tree::{
    fields_model, pairs_model, properties_model, values_model, FieldKind, FieldModel, FieldValue,
    Property, PropertyModel, PropertyTree, PropertyValue, StructBody, TypeTag, ValueModel,
};

verus! {

/// The outcome of a read without the position behind it.
pub open spec fn outcome_of<T>(parsed: Parsed<T>) -> Result<T, ErrorModel> {
    match parsed {
        Ok((value, _)) => Ok(value),
        Err(e) => Err(e),
    }
}

/// What a decoded value, or the failure to decode one, holds.
pub open spec fn value_outcome(r: Result<PropertyValue, FormatError>) -> Result<ValueModel, ErrorModel> {
    match r {
        Ok(value) => Ok(value@),
        Err(e) => Err(e@),
    }
}

impl TypeTag {
    /// The name under which the tag is stored.
    pub fn name(self) -> (name: &'static [u8])
        ensures
            name@ == tag_name(self),
    {
        match self {
            TypeTag::Bool => "BoolProperty".as_bytes(),
            TypeTag::Int8 => "Int8Property".as_bytes(),
            TypeTag::Int16 => "Int16Property".as_bytes(),
            TypeTag::Int32 => "IntProperty".as_bytes(),
            TypeTag::Int64 => "Int64Property".as_bytes(),
            TypeTag::UInt16 => "UInt16Property".as_bytes(),
            TypeTag::UInt32 => "UInt32Property".as_bytes(),
            TypeTag::UInt64 => "UInt64Property".as_bytes(),
            TypeTag::Float => "FloatProperty".as_bytes(),
            TypeTag::Double => "DoubleProperty".as_bytes(),
            TypeTag::Str => "StrProperty".as_bytes(),
            TypeTag::Name => "NameProperty".as_bytes(),
            TypeTag::Text => "TextProperty".as_bytes(),
            TypeTag::Enum => "EnumProperty".as_bytes(),
            TypeTag::Byte => "ByteProperty".as_bytes(),
            TypeTag::Struct => "StructProperty".as_bytes(),
            TypeTag::Array => "ArrayProperty".as_bytes(),
            TypeTag::Mapping => "MapProperty".as_bytes(),
            TypeTag::UniqueSet => "SetProperty".as_bytes(),
        }
    }

    /// The tag at a place of the order in which names are tried.
    fn at(index: usize) -> (tag: TypeTag)
        requires
            index < 19,
        ensures
            tag == tag_order()[index as int],
    {
        match index {
            0 => TypeTag::Bool,
            1 => TypeTag::Int8,
            2 => TypeTag::Int16,
            3 => TypeTag::Int32,
            4 => TypeTag::Int64,
            5 => TypeTag::UInt16,
            6 => TypeTag::UInt32,
            7 => TypeTag::UInt64,
            8 => TypeTag::Float,
            9 => TypeTag::Double,
            10 => TypeTag::Str,
            11 => TypeTag::Name,
            12 => TypeTag::Text,
            13 => TypeTag::Enum,
            14 => TypeTag::Byte,
            15 => TypeTag::Struct,
            16 => TypeTag::Array,
            17 => TypeTag::Mapping,
            _ => TypeTag::UniqueSet,
        }
    }

    /// The tag that a text names, if it names one.
    pub fn from_text(text: &Text) -> (tag: Option<TypeTag>)
        ensures
            tag == tag_of(text@),
    {
        let mut i: usize = 0;
        while i < 19
            invariant
                i <= 19,
                tag_order().len() == 19,
                tag_of(text@) == tag_of_from(text@, i as int),
            decreases 19 - i,
        {
            let tag = TypeTag::at(i);
            if text.is_ascii(tag.name()) {
                return Some(tag);
            }
            i = i + 1;
        }
        None
    }
}

/// Whether a name ends a scope.
pub fn is_sentinel(name: &Text) -> (ends: bool)
    ensures
        ends == (name@ == sentinel()),
{
    name.is_ascii("None".as_bytes())
}

/// Reads a type tag.
pub(crate) fn decode_tag(cursor: &mut Cursor) -> (r: Result<TypeTag, FormatError>)
    ensures
        final(cursor).reaches(old(cursor), parse_tag(old(cursor).bytes(), old(cursor).offset())),
        match parse_tag(old(cursor).bytes(), old(cursor).offset()) {
            Ok((tag, end)) => r == Ok::<TypeTag, FormatError>(tag) && advanced(
                old(cursor).offset(),
                end,
                old(cursor).bytes().len(),
            ),
            Err(e) => r matches Err(x) && x@ == e,
        },
{
    let _ = cursor.position();
    match cursor.read_text() {
        Err(e) => Err(e),
        Ok(text) => {
            match TypeTag::from_text(&text) {
                Some(tag) => Ok(tag),
                None => Err(FormatError::UnknownPropertyType(text)),
            }
        },
    }
}

/// Reads the value of a tag whose values are one number or one text.
pub(crate) fn decode_simple(tag: TypeTag, cursor: &mut Cursor) -> (r: Result<PropertyValue, FormatError>)
    ensures
        final(cursor).reaches(old(cursor), parse_simple(tag, old(cursor).bytes(), old(cursor).offset())),
        value_outcome(r) == outcome_of(parse_simple(tag, old(cursor).bytes(), old(cursor).offset())),
        parse_simple(tag, old(cursor).bytes(), old(cursor).offset()) matches Ok((_, end)) ==> advanced(
            old(cursor).offset(),
            end,
            old(cursor).bytes().len(),
        ),
{
    proof {
        reveal(parse_simple);
    }
    let _ = cursor.position();
    proof {
        lemma_pow256_values();
    }
    match tag {
        TypeTag::Bool => match cursor.read_u8() {
            Ok(v) => Ok(PropertyValue::Bool(v)),
            Err(e) => Err(e),
        },
        TypeTag::Int8 => match cursor.read_i8() {
            Ok(v) => Ok(PropertyValue::Int8(v)),
            Err(e) => Err(e),
        },
        TypeTag::Int16 => match cursor.read_i16() {
            Ok(v) => Ok(PropertyValue::Int16(v)),
            Err(e) => Err(e),
        },
        TypeTag::Int32 => match cursor.read_i32() {
            Ok(v) => Ok(PropertyValue::Int32(v)),
            Err(e) => Err(e),
        },
        TypeTag::Int64 => match cursor.read_i64() {
            Ok(v) => Ok(PropertyValue::Int64(v)),
            Err(e) => Err(e),
        },
        TypeTag::UInt16 => match cursor.read_u16() {
            Ok(v) => Ok(PropertyValue::UInt16(v)),
            Err(e) => Err(e),
        },
        TypeTag::UInt32 => match cursor.read_u32() {
            Ok(v) => Ok(PropertyValue::UInt32(v)),
            Err(e) => Err(e),
        },
        TypeTag::UInt64 => match cursor.read_u64() {
            Ok(v) => Ok(PropertyValue::UInt64(v)),
            Err(e) => Err(e),
        },
        TypeTag::Float => match cursor.read_f32_bits() {
            Ok(v) => Ok(PropertyValue::Float32(v)),
            Err(e) => Err(e),
        },
        TypeTag::Double => match cursor.read_f64_bits() {
            Ok(v) => Ok(PropertyValue::Float64(v)),
            Err(e) => Err(e),
        },
        TypeTag::Str | TypeTag::Name | TypeTag::Text => match cursor.read_text() {
            Ok(text) => Ok(PropertyValue::Str(text)),
            Err(e) => Err(e),
        },
        _ => Err(FormatError::UnknownPropertyType(Text::from_ascii(tag.name()))),
    }
}

/// What a decoded field, or the failure to decode one, holds.
pub open spec fn field_outcome(r: Result<FieldValue, FormatError>) -> Result<FieldModel, ErrorModel> {
    match r {
        Ok(value) => Ok(value@),
        Err(e) => Err(e@),
    }
}

/// Reads one field of a fixed-layout struct.
pub(crate) fn decode_field(kind: FieldKind, cursor: &mut Cursor) -> (r: Result<FieldValue, FormatError>)
    ensures
        final(cursor).reaches(old(cursor), parse_field(kind, old(cursor).bytes(), old(cursor).offset())),
        field_outcome(r) == outcome_of(parse_field(kind, old(cursor).bytes(), old(cursor).offset())),
        parse_field(kind, old(cursor).bytes(), old(cursor).offset()) matches Ok((_, end)) ==> advanced(
            old(cursor).offset(),
            end,
            old(cursor).bytes().len(),
        ),
{
    let _ = cursor.position();
    proof {
        lemma_pow256_values();
    }
    match kind {
        FieldKind::Float32 => match cursor.read_f32_bits() {
            Ok(v) => Ok(FieldValue::Float32(v)),
            Err(e) => Err(e),
        },
        FieldKind::Float64 => match cursor.read_f64_bits() {
            Ok(v) => Ok(FieldValue::Float64(v)),
            Err(e) => Err(e),
        },
        FieldKind::Int32 => match cursor.read_i32() {
            Ok(v) => Ok(FieldValue::Int32(v)),
            Err(e) => Err(e),
        },
        FieldKind::Int64 => match cursor.read_i64() {
            Ok(v) => Ok(FieldValue::Int64(v)),
            Err(e) => Err(e),
        },
        FieldKind::Guid => match cursor.read_guid() {
            Ok(id) => Ok(FieldValue::Guid(id)),
            Err(e) => Err(e),
        },
    }
}

/// Reads the fields of a fixed-layout struct, one after the other.
pub(crate) fn decode_fields(layout: &Vec<FieldKind>, cursor: &mut Cursor) -> (r: Result<Vec<FieldValue>, FormatError>)
    ensures
        final(cursor).reaches(
            old(cursor),
            parse_fields(layout@, old(cursor).bytes(), old(cursor).offset(), Seq::empty()),
        ),
        match parse_fields(layout@, old(cursor).bytes(), old(cursor).offset(), Seq::empty()) {
            Ok((fields, end)) => r matches Ok(found) && fields_model(found@) == fields && advanced(
                old(cursor).offset(),
                end,
                old(cursor).bytes().len(),
            ),
            Err(e) => r matches Err(x) && x@ == e,
        },
{
    let ghost start = cursor.offset();
    let ghost bytes = cursor.bytes();
    let _ = cursor.position();
    let mut fields: Vec<FieldValue> = Vec::new();
    let mut i: usize = 0;
    assert(fields_model(fields@) =~= Seq::empty());
    while i < layout.len()
        invariant
            i <= layout.len(),
            i == fields@.len(),
            cursor.bytes() == bytes,
            bytes == old(cursor).bytes(),
            start == old(cursor).offset(),
            advanced(start, cursor.offset(), bytes.len()),
            parse_fields(layout@, bytes, cursor.offset(), fields_model(fields@)) == parse_fields(
                layout@,
                bytes,
                start,
                Seq::empty(),
            ),
        decreases layout.len() - i,
    {
        let ghost before = fields_model(fields@);
        match decode_field(layout[i], cursor) {
            Err(e) => {
                return Err(e);
            },
            Ok(field) => {
                fields.push(field);
                assert(fields_model(fields@) =~= before.push(field@));
            },
        }
        i = i + 1;
    }
    Ok(fields)
}

/// What a decoded sequence of values, or the failure to decode one, holds.
pub open spec fn values_outcome(r: Result<Vec<PropertyValue>, FormatError>) -> Result<Seq<ValueModel>, ErrorModel> {
    match r {
        Ok(values) => Ok(values_model(values@)),
        Err(e) => Err(e@),
    }
}

/// What decoded pairs, or the failure to decode them, hold.
pub open spec fn pairs_outcome(r: Result<Vec<(PropertyValue, PropertyValue)>, FormatError>) -> Result<
    Seq<(ValueModel, ValueModel)>,
    ErrorModel,
> {
    match r {
        Ok(pairs) => Ok(pairs_model(pairs@)),
        Err(e) => Err(e@),
    }
}

/// What a decoded scope, or the failure to decode one, holds.
pub open spec fn tree_outcome(r: Result<PropertyTree, FormatError>) -> Result<Seq<PropertyModel>, ErrorModel> {
    match r {
        Ok(tree) => Ok(tree@),
        Err(e) => Err(e@),
    }
}

/// What the decoded header and elements of an array or a set hold.
pub open spec fn sequence_outcome(r: Result<(TypeTag, Option<Text>, Vec<PropertyValue>), FormatError>) -> Result<
    (TypeTag, Option<TextModel>, Seq<ValueModel>),
    ErrorModel,
> {
    match r {
        Ok((tag, element_struct, elements)) => Ok(
            (tag, crate::tree::optional_text(element_struct), values_model(elements@)),
        ),
        Err(e) => Err(e@),
    }
}

/// Whether a read that had the outcome `parsed` from the cursor `before`
/// moved forward and stayed inside the buffer.
pub open spec fn in_order<T>(before: &Cursor, parsed: Parsed<T>) -> bool {
    parsed matches Ok((_, end)) ==> advanced(before.offset(), end, before.bytes().len())
}

/// Reads one element that is no struct.
pub(crate) fn decode_flat(tag: TypeTag, cursor: &mut Cursor) -> (r: Result<PropertyValue, FormatError>)
    ensures
        final(cursor).reaches(old(cursor), parse_flat(tag, old(cursor).bytes(), old(cursor).offset())),
        value_outcome(r) == outcome_of(parse_flat(tag, old(cursor).bytes(), old(cursor).offset())),
        in_order(old(cursor), parse_flat(tag, old(cursor).bytes(), old(cursor).offset())),
{
    let _ = cursor.position();
    proof {
        reveal(parse_flat);
        lemma_pow256_values();
    }
    match tag {
        TypeTag::Enum => match cursor.read_text() {
            Ok(text) => Ok(PropertyValue::Str(text)),
            Err(e) => Err(e),
        },
        TypeTag::Byte => match cursor.read_u8() {
            Ok(raw) => Ok(PropertyValue::Byte { enum_name: None, raw }),
            Err(e) => Err(e),
        },
        TypeTag::Struct | TypeTag::Array | TypeTag::Mapping | TypeTag::UniqueSet => Err(
            FormatError::UnknownPropertyType(Text::from_ascii(tag.name())),
        ),
        _ => decode_simple(tag, cursor),
    }
}

/// Reads one element of a collection.
pub(crate) fn decode_element(registry: &StructRegistry, tag: TypeTag, struct_type: &Text, cursor: &mut Cursor) -> (r: Result<
    PropertyValue,
    FormatError,
>)
    ensures
        final(cursor).reaches(
            old(cursor),
            parse_element(registry@, tag, struct_type@, old(cursor).bytes(), old(cursor).offset()),
        ),
        value_outcome(r) == outcome_of(
            parse_element(registry@, tag, struct_type@, old(cursor).bytes(), old(cursor).offset()),
        ),
        in_order(
            old(cursor),
            parse_element(registry@, tag, struct_type@, old(cursor).bytes(), old(cursor).offset()),
        ),
    decreases old(cursor).left(), 1int, 0nat,
{
    let _ = cursor.position();
    match tag {
        TypeTag::Struct => match registry.find(struct_type) {
            Some(layout) => match decode_fields(layout, cursor) {
                Ok(fields) => Ok(
                    PropertyValue::Struct {
                        struct_type: struct_type.clone(),
                        guid: None,
                        body: StructBody::Fixed(fields),
                    },
                ),
                Err(e) => Err(e),
            },
            None => match decode_scope(registry, cursor) {
                Ok(tree) => Ok(
                    PropertyValue::Struct {
                        struct_type: struct_type.clone(),
                        guid: None,
                        body: StructBody::Fields(tree),
                    },
                ),
                Err(e) => Err(e),
            },
        },
        _ => decode_flat(tag, cursor),
    }
}

/// Reads `count` elements of a collection.
pub(crate) fn decode_elements(
    registry: &StructRegistry,
    tag: TypeTag,
    struct_type: &Text,
    cursor: &mut Cursor,
    count: u32,
) -> (r: Result<Vec<PropertyValue>, FormatError>)
    ensures
        final(cursor).reaches(
            old(cursor),
            parse_elements(
                registry@,
                tag,
                struct_type@,
                old(cursor).bytes(),
                old(cursor).offset(),
                count as nat,
                Seq::empty(),
            ),
        ),
        values_outcome(r) == outcome_of(
            parse_elements(
                registry@,
                tag,
                struct_type@,
                old(cursor).bytes(),
                old(cursor).offset(),
                count as nat,
                Seq::empty(),
            ),
        ),
        in_order(
            old(cursor),
            parse_elements(
                registry@,
                tag,
                struct_type@,
                old(cursor).bytes(),
                old(cursor).offset(),
                count as nat,
                Seq::empty(),
            ),
        ),
    decreases old(cursor).left(), 3int, count as nat,
{
    let ghost start = cursor.offset();
    let ghost bytes = cursor.bytes();
    let _ = cursor.position();
    let mut elements: Vec<PropertyValue> = Vec::new();
    let mut i: u32 = 0;
    assert(values_model(elements@) =~= Seq::empty());
    while i < count
        invariant
            i <= count,
            cursor.bytes() == bytes,
            bytes == old(cursor).bytes(),
            start == old(cursor).offset(),
            advanced(start, cursor.offset(), bytes.len()),
            0 <= start,
            parse_elements(
                registry@,
                tag,
                struct_type@,
                bytes,
                cursor.offset(),
                (count - i) as nat,
                values_model(elements@),
            ) == parse_elements(registry@, tag, struct_type@, bytes, start, count as nat, Seq::empty()),
        decreases count - i,
    {
        let ghost before = values_model(elements@);
        match decode_element(registry, tag, struct_type, cursor) {
            Err(e) => {
                return Err(e);
            },
            Ok(element) => {
                elements.push(element);
                assert(values_model(elements@) =~= before.push(element@));
            },
        }
        i = i + 1;
    }
    Ok(elements)
}

/// What a decoded pair, or the failure to decode one, holds.
pub open spec fn pair_outcome(r: Result<(PropertyValue, PropertyValue), FormatError>) -> Result<
    (ValueModel, ValueModel),
    ErrorModel,
> {
    match r {
        Ok((key, value)) => Ok((key@, value@)),
        Err(e) => Err(e@),
    }
}

/// Reads one pair of a key and a value.
pub(crate) fn decode_pair(registry: &StructRegistry, key_tag: TypeTag, value_tag: TypeTag, cursor: &mut Cursor) -> (r: Result<
    (PropertyValue, PropertyValue),
    FormatError,
>)
    ensures
        final(cursor).reaches(
            old(cursor),
            parse_pair(registry@, key_tag, value_tag, old(cursor).bytes(), old(cursor).offset()),
        ),
        pair_outcome(r) == outcome_of(
            parse_pair(registry@, key_tag, value_tag, old(cursor).bytes(), old(cursor).offset()),
        ),
        in_order(
            old(cursor),
            parse_pair(registry@, key_tag, value_tag, old(cursor).bytes(), old(cursor).offset()),
        ),
    decreases old(cursor).left(), 2int, 0nat,
{
    let _ = cursor.position();
    let no_type = Text::Narrow(Vec::new());
    assert(no_type@ == empty_text());
    let key = match decode_element(registry, key_tag, &no_type, cursor) {
        Err(e) => {
            return Err(e);
        },
        Ok(key) => key,
    };
    match decode_element(registry, value_tag, &no_type, cursor) {
        Err(e) => Err(e),
        Ok(value) => Ok((key, value)),
    }
}

/// Reads `count` pairs of a key and a value.
pub(crate) fn decode_pairs(
    registry: &StructRegistry,
    key_tag: TypeTag,
    value_tag: TypeTag,
    cursor: &mut Cursor,
    count: u32,
) -> (r: Result<Vec<(PropertyValue, PropertyValue)>, FormatError>)
    ensures
        final(cursor).reaches(
            old(cursor),
            parse_pairs(
                registry@,
                key_tag,
                value_tag,
                old(cursor).bytes(),
                old(cursor).offset(),
                count as nat,
                Seq::empty(),
            ),
        ),
        pairs_outcome(r) == outcome_of(
            parse_pairs(
                registry@,
                key_tag,
                value_tag,
                old(cursor).bytes(),
                old(cursor).offset(),
                count as nat,
                Seq::empty(),
            ),
        ),
        in_order(
            old(cursor),
            parse_pairs(
                registry@,
                key_tag,
                value_tag,
                old(cursor).bytes(),
                old(cursor).offset(),
                count as nat,
                Seq::empty(),
            ),
        ),
    decreases old(cursor).left(), 3int, count as nat,
{
    let ghost start = cursor.offset();
    let ghost bytes = cursor.bytes();
    let _ = cursor.position();
    let mut pairs: Vec<(PropertyValue, PropertyValue)> = Vec::new();
    let mut i: u32 = 0;
    assert(pairs_model(pairs@) =~= Seq::empty());
    while i < count
        invariant
            i <= count,
            cursor.bytes() == bytes,
            bytes == old(cursor).bytes(),
            start == old(cursor).offset(),
            advanced(start, cursor.offset(), bytes.len()),
            0 <= start,
            parse_pairs(
                registry@,
                key_tag,
                value_tag,
                bytes,
                cursor.offset(),
                (count - i) as nat,
                pairs_model(pairs@),
            ) == parse_pairs(registry@, key_tag, value_tag, bytes, start, count as nat, Seq::empty()),
        decreases count - i,
    {
        let ghost before = pairs_model(pairs@);
        match decode_pair(registry, key_tag, value_tag, cursor) {
            Err(e) => {
                return Err(e);
            },
            Ok((key, value)) => {
                let ghost pair = (key@, value@);
                pairs.push((key, value));
                assert(pairs_model(pairs@) =~= before.push(pair));
            },
        }
        i = i + 1;
    }
    Ok(pairs)
}

/// Reads the payload of a struct property: by the registered layout or as a
/// property list where that takes the payload exactly, as raw bytes otherwise.
pub(crate) fn decode_struct_body(registry: &StructRegistry, struct_type: &Text, payload: Cursor) -> (body: StructBody)
    requires
        payload.offset() == 0,
    ensures
        body@ == parse_struct_body(registry@, struct_type@, payload.bytes()),
    decreases payload.left(), 4int, 0nat,
{
    let mut inner = payload;
    let total: usize = inner.len();
    match registry.find(struct_type) {
        Some(layout) => match decode_fields(layout, &mut inner) {
            Ok(fields) => {
                if inner.position() == total {
                    return StructBody::Fixed(fields);
                }
            },
            Err(_) => {},
        },
        None => match decode_scope(registry, &mut inner) {
            Ok(tree) => {
                if inner.position() == total {
                    return StructBody::Fields(tree);
                }
            },
            Err(_) => {},
        },
    }
    StructBody::Raw(inner.to_vec())
}

/// Reads the header and the elements of an array or a set.
pub(crate) fn decode_sequence(registry: &StructRegistry, cursor: &mut Cursor) -> (r: Result<
    (TypeTag, Option<Text>, Vec<PropertyValue>),
    FormatError,
>)
    ensures
        final(cursor).reaches(old(cursor), parse_sequence(registry@, old(cursor).bytes(), old(cursor).offset())),
        sequence_outcome(r) == outcome_of(
            parse_sequence(registry@, old(cursor).bytes(), old(cursor).offset()),
        ),
        in_order(old(cursor), parse_sequence(registry@, old(cursor).bytes(), old(cursor).offset())),
    decreases old(cursor).left(), 4int, 0nat,
{
    let _ = cursor.position();
    proof {
        lemma_pow256_values();
    }
    let tag = match decode_tag(cursor) {
        Err(e) => {
            return Err(e);
        },
        Ok(tag) => tag,
    };
    let count = match cursor.read_u32() {
        Err(e) => {
            return Err(e);
        },
        Ok(count) => count,
    };
    match tag {
        TypeTag::Struct => {
            let struct_type = match cursor.read_text() {
                Err(e) => {
                    return Err(e);
                },
                Ok(text) => text,
            };
            match decode_elements(registry, tag, &struct_type, cursor, count) {
                Err(e) => Err(e),
                Ok(elements) => Ok((tag, Some(struct_type), elements)),
            }
        },
        _ => {
            let no_type = Text::Narrow(Vec::new());
            assert(no_type@ == empty_text());
            match decode_elements(registry, tag, &no_type, cursor, count) {
                Err(e) => Err(e),
                Ok(elements) => Ok((tag, None, elements)),
            }
        },
    }
}

/// Reads the body of an enum property.
pub(crate) fn decode_enum(cursor: &mut Cursor) -> (r: Result<PropertyValue, FormatError>)
    ensures
        final(cursor).reaches(old(cursor), parse_enum(old(cursor).bytes(), old(cursor).offset())),
        value_outcome(r) == outcome_of(parse_enum(old(cursor).bytes(), old(cursor).offset())),
        in_order(old(cursor), parse_enum(old(cursor).bytes(), old(cursor).offset())),
{
    let _ = cursor.position();
    let enum_type = match cursor.read_text() {
        Err(e) => {
            return Err(e);
        },
        Ok(text) => text,
    };
    match cursor.read_text() {
        Err(e) => Err(e),
        Ok(value) => Ok(PropertyValue::Enum { enum_type, value }),
    }
}

/// Reads the body of a byte property.
pub(crate) fn decode_byte(cursor: &mut Cursor) -> (r: Result<PropertyValue, FormatError>)
    ensures
        final(cursor).reaches(old(cursor), parse_byte(old(cursor).bytes(), old(cursor).offset())),
        value_outcome(r) == outcome_of(parse_byte(old(cursor).bytes(), old(cursor).offset())),
        in_order(old(cursor), parse_byte(old(cursor).bytes(), old(cursor).offset())),
{
    let _ = cursor.position();
    proof {
        lemma_pow256_values();
    }
    let enum_name = match cursor.read_text() {
        Err(e) => {
            return Err(e);
        },
        Ok(text) => text,
    };
    if is_sentinel(&enum_name) {
        match cursor.read_u8() {
            Err(e) => Err(e),
            Ok(raw) => Ok(PropertyValue::Byte { enum_name: None, raw }),
        }
    } else {
        match cursor.read_text() {
            Err(e) => Err(e),
            Ok(value) => Ok(PropertyValue::Enum { enum_type: enum_name, value }),
        }
    }
}

/// Reads the body of a struct property.
pub(crate) fn decode_struct(registry: &StructRegistry, size: u64, cursor: &mut Cursor) -> (r: Result<
    PropertyValue,
    FormatError,
>)
    ensures
        final(cursor).reaches(
            old(cursor),
            parse_struct(registry@, size, old(cursor).bytes(), old(cursor).offset()),
        ),
        value_outcome(r) == outcome_of(
            parse_struct(registry@, size, old(cursor).bytes(), old(cursor).offset()),
        ),
        in_order(old(cursor), parse_struct(registry@, size, old(cursor).bytes(), old(cursor).offset())),
    decreases old(cursor).left(), 4int, 0nat,
{
    let _ = cursor.position();
    let struct_type = match cursor.read_text() {
        Err(e) => {
            return Err(e);
        },
        Ok(text) => text,
    };
    let guid = match cursor.read_guid() {
        Err(e) => {
            return Err(e);
        },
        Ok(id) => id,
    };
    let payload = match cursor.window(size) {
        Err(e) => {
            return Err(e);
        },
        Ok(inner) => inner,
    };
    let body = decode_struct_body(registry, &struct_type, payload);
    Ok(PropertyValue::Struct { struct_type, guid: Some(guid), body })
}

/// Reads the body of a map property.
pub(crate) fn decode_mapping(registry: &StructRegistry, cursor: &mut Cursor) -> (r: Result<PropertyValue, FormatError>)
    ensures
        final(cursor).reaches(old(cursor), parse_mapping(registry@, old(cursor).bytes(), old(cursor).offset())),
        value_outcome(r) == outcome_of(parse_mapping(registry@, old(cursor).bytes(), old(cursor).offset())),
        in_order(old(cursor), parse_mapping(registry@, old(cursor).bytes(), old(cursor).offset())),
    decreases old(cursor).left(), 4int, 0nat,
{
    let _ = cursor.position();
    proof {
        lemma_pow256_values();
    }
    let key_tag = match decode_tag(cursor) {
        Err(e) => {
            return Err(e);
        },
        Ok(tag) => tag,
    };
    let value_tag = match decode_tag(cursor) {
        Err(e) => {
            return Err(e);
        },
        Ok(tag) => tag,
    };
    let flags = match cursor.read_u32() {
        Err(e) => {
            return Err(e);
        },
        Ok(flags) => flags,
    };
    let count = match cursor.read_u32() {
        Err(e) => {
            return Err(e);
        },
        Ok(count) => count,
    };
    match decode_pairs(registry, key_tag, value_tag, cursor, count) {
        Err(e) => Err(e),
        Ok(entries) => Ok(PropertyValue::Mapping { key_tag, value_tag, flags, entries }),
    }
}

/// Reads what follows the declared size of a property.
pub(crate) fn decode_body(registry: &StructRegistry, tag: TypeTag, size: u64, cursor: &mut Cursor) -> (r: Result<
    PropertyValue,
    FormatError,
>)
    ensures
        final(cursor).reaches(
            old(cursor),
            parse_body(registry@, tag, size, old(cursor).bytes(), old(cursor).offset()),
        ),
        value_outcome(r) == outcome_of(
            parse_body(registry@, tag, size, old(cursor).bytes(), old(cursor).offset()),
        ),
        in_order(old(cursor), parse_body(registry@, tag, size, old(cursor).bytes(), old(cursor).offset())),
    decreases old(cursor).left(), 5int, 0nat,
{
    let _ = cursor.position();
    match tag {
        TypeTag::Enum => decode_enum(cursor),
        TypeTag::Byte => decode_byte(cursor),
        TypeTag::Struct => decode_struct(registry, size, cursor),
        TypeTag::Array => match decode_sequence(registry, cursor) {
            Err(e) => Err(e),
            Ok((element_tag, element_struct, elements)) => Ok(
                PropertyValue::Array { element_tag, element_struct, elements },
            ),
        },
        TypeTag::UniqueSet => match decode_sequence(registry, cursor) {
            Err(e) => Err(e),
            Ok((element_tag, element_struct, elements)) => Ok(
                PropertyValue::UniqueSet { element_tag, element_struct, elements },
            ),
        },
        TypeTag::Mapping => decode_mapping(registry, cursor),
        _ => decode_simple(tag, cursor),
    }
}

/// Reads the properties of one scope, up to and with the name that ends it.
pub(crate) fn decode_scope(registry: &StructRegistry, cursor: &mut Cursor) -> (r: Result<PropertyTree, FormatError>)
    ensures
        final(cursor).reaches(
            old(cursor),
            parse_scope(registry@, old(cursor).bytes(), old(cursor).offset(), Seq::empty()),
        ),
        tree_outcome(r) == outcome_of(
            parse_scope(registry@, old(cursor).bytes(), old(cursor).offset(), Seq::empty()),
        ),
        in_order(
            old(cursor),
            parse_scope(registry@, old(cursor).bytes(), old(cursor).offset(), Seq::empty()),
        ),
    decreases old(cursor).left(), 0int, 0nat,
{
    let ghost start = cursor.offset();
    let ghost bytes = cursor.bytes();
    let _ = cursor.position();
    let mut entries: Vec<Property> = Vec::new();
    assert(properties_model(entries@) =~= Seq::empty());
    proof {
        lemma_pow256_values();
    }
    loop
        invariant
            cursor.bytes() == bytes,
            bytes == old(cursor).bytes(),
            start == old(cursor).offset(),
            advanced(start, cursor.offset(), bytes.len()),
            0 <= start,
            parse_scope(registry@, bytes, cursor.offset(), properties_model(entries@)) == parse_scope(
                registry@,
                bytes,
                start,
                Seq::empty(),
            ),
        decreases cursor.left(),
    {
        let ghost before = properties_model(entries@);
        let name = match cursor.read_text() {
            Err(e) => {
                return Err(e);
            },
            Ok(text) => text,
        };
        if is_sentinel(&name) {
            return Ok(PropertyTree { entries });
        }
        let tag = match decode_tag(cursor) {
            Err(e) => {
                return Err(e);
            },
            Ok(tag) => tag,
        };
        let size = match cursor.read_u64() {
            Err(e) => {
                return Err(e);
            },
            Ok(size) => size,
        };
        let value = match decode_body(registry, tag, size, cursor) {
            Err(e) => {
                return Err(e);
            },
            Ok(value) => value,
        };
        let property = Property { name, tag, size, value };
        let ghost added = property@;
        entries.push(property);
        assert(properties_model(entries@) =~= before.push(added));
    }
}

} // verus!
