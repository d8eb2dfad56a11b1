//! Reading back what was written: a tree in the form that the decoder gives
//! is what the decoder reads out of the bytes that the encoder wrote for it.

use vstd::prelude::*;
use vstd::string::StringSliceAdditionalSpecFns;
use crate::cursor::{le_units, parse_le, parse_text};
use crate::error::ErrorModel;
use crate::document::{
    document_fits, encode_document, encode_header, encode_version, encode_versions, parse_document,
    parse_header, parse_version, parse_versions, DocumentModel, HeaderModel, VersionModel,
};
use crate::format::{
    element_fits, elements_fit, empty_text, flat_fits, pairs_fit, properties_fit, text_fits,
    value_fits, encode_body, encode_element, encode_elements, encode_field, encode_fields,
    encode_flat, encode_pairs, encode_properties, encode_property, encode_scope,
    encode_sequence_header, encode_struct_body, encode_text, lemma_distinct_all,
    lemma_distinct_len, lemma_encode_distinct, lemma_text_len, lemma_wide_len, parse_body,
    parse_byte, parse_element, parse_elements, parse_enum, parse_field, parse_fields, parse_flat,
    parse_mapping, parse_pair, parse_pairs, parse_scope, parse_sequence, parse_simple,
    parse_struct, parse_struct_body, parse_tag, sentinel, tag_name, tag_of, tag_of_from, tag_text,
    text_len, text_or, wide_bytes,
};
use crate::registry::{find_layout, LayoutModel};
use crate::le::{
    as_unsigned, le_bytes, lemma_le_bytes_len, lemma_le_value_of_bytes, lemma_pow256_values,
    lemma_unsigned_round_trip, pow256,
};
use crate::text::TextModel;
use crate::tree::{BodyModel, FieldKind, FieldModel, PropertyModel, TypeTag, ValueModel};

verus! {

/// Whether the bytes `written` lie in `bytes` from `pos` on.
pub open spec fn holds_at(bytes: Seq<u8>, pos: int, written: Seq<u8>) -> bool {
    &&& 0 <= pos
    &&& pos + written.len() <= bytes.len()
    &&& bytes.subrange(pos, pos + written.len()) == written
}

/// Where two stretches lie one behind the other, each lies at its place.
pub proof fn lemma_holds_split(bytes: Seq<u8>, pos: int, first: Seq<u8>, second: Seq<u8>)
    requires
        holds_at(bytes, pos, first + second),
    ensures
        holds_at(bytes, pos, first),
        holds_at(bytes, pos + first.len(), second),
{
    let whole = bytes.subrange(pos, pos + (first + second).len());
    assert(bytes.subrange(pos, pos + first.len()) =~= whole.subrange(0, first.len() as int));
    assert((first + second).subrange(0, first.len() as int) =~= first);
    assert(bytes.subrange(pos + first.len(), pos + first.len() + second.len()) =~= whole.subrange(
        first.len() as int,
        (first + second).len() as int,
    ));
    assert((first + second).subrange(first.len() as int, (first + second).len() as int) =~= second);
}

/// A number that was written in `width` bytes is read back.
pub proof fn lemma_le_back(bytes: Seq<u8>, pos: int, value: nat, width: nat)
    requires
        value < pow256(width),
        holds_at(bytes, pos, le_bytes(value, width)),
    ensures
        parse_le(bytes, pos, width) == Ok::<(nat, int), ErrorModel>((value, pos + width)),
{
    lemma_le_bytes_len(value, width);
    lemma_le_value_of_bytes(value, width);
}

/// Sixteen-bit units that were written are read back.
pub proof fn lemma_units_back(units: Seq<u16>)
    ensures
        le_units(wide_bytes(units)) == units,
    decreases units.len(),
{
    lemma_wide_len(units);
    let bytes = wide_bytes(units);
    if units.len() == 0 {
        assert(le_units(bytes) =~= units);
    } else {
        let front = units.drop_last();
        lemma_units_back(front);
        lemma_wide_len(front);
        lemma_pow256_values();
        lemma_le_bytes_len(units.last() as nat, 2);
        lemma_le_value_of_bytes(units.last() as nat, 2);
        assert forall|i: int| 0 <= i < units.len() implies le_units(bytes)[i] == units[i] by {
            if i < front.len() {
                assert(bytes.subrange(2 * i, 2 * i + 2) =~= wide_bytes(front).subrange(2 * i, 2 * i + 2));
                assert(le_units(wide_bytes(front))[i] == front[i]);
            } else {
                assert(bytes.subrange(2 * i, 2 * i + 2) =~= le_bytes(units.last() as nat, 2));
            }
        }
        assert(le_units(bytes) =~= units);
    }
}

/// Whether a text is in the form in which the decoder gives texts: its
/// length fits the prefix, and a wide text has at least one unit.
pub open spec fn text_canonical(text: TextModel) -> bool {
    match text {
        TextModel::Narrow(units) => units.len() <= 0x7fff_ffff,
        TextModel::Wide(units) => 1 <= units.len() <= 0x8000_0000,
    }
}

/// A text that was written is read back.
pub proof fn lemma_text_back(bytes: Seq<u8>, pos: int, text: TextModel)
    requires
        text_canonical(text),
        holds_at(bytes, pos, encode_text(text)),
    ensures
        parse_text(bytes, pos) == Ok::<(TextModel, int), ErrorModel>((text, pos + text_len(text))),
        encode_text(text).len() == text_len(text),
{
    reveal(parse_text);
    lemma_pow256_values();
    lemma_text_len(text);
    match text {
        TextModel::Narrow(units) => {
            let prefix = le_bytes(units.len(), 4);
            lemma_le_bytes_len(units.len(), 4);
            lemma_holds_split(bytes, pos, prefix, units);
            lemma_le_back(bytes, pos, units.len(), 4);
        },
        TextModel::Wide(units) => {
            let raw = as_unsigned(-(units.len() as int), 4);
            let prefix = le_bytes(raw, 4);
            lemma_le_bytes_len(raw, 4);
            lemma_wide_len(units);
            lemma_holds_split(bytes, pos, prefix, wide_bytes(units));
            lemma_unsigned_round_trip(-(units.len() as int), 4);
            lemma_le_back(bytes, pos, raw, 4);
            lemma_units_back(units);
        },
    }
}

/// What tells the names of the vocabulary apart: the length and four of the
/// letters.
pub open spec fn mark(units: Seq<u8>) -> (nat, u8, u8, u8, u8) {
    (units.len(), units[0], units[1], units[3], units[4])
}

/// The mark of the name of each tag, with its terminator.
pub open spec fn tag_mark(tag: TypeTag) -> (nat, u8, u8, u8, u8) {
    match tag {
        TypeTag::Bool => (13, 66, 111, 108, 80),
        TypeTag::Int8 => (13, 73, 110, 56, 80),
        TypeTag::Int16 => (14, 73, 110, 49, 54),
        TypeTag::Int32 => (12, 73, 110, 80, 114),
        TypeTag::Int64 => (14, 73, 110, 54, 52),
        TypeTag::UInt16 => (15, 85, 73, 116, 49),
        TypeTag::UInt32 => (15, 85, 73, 116, 51),
        TypeTag::UInt64 => (15, 85, 73, 116, 54),
        TypeTag::Float => (14, 70, 108, 97, 116),
        TypeTag::Double => (15, 68, 111, 98, 108),
        TypeTag::Str => (12, 83, 116, 80, 114),
        TypeTag::Name => (13, 78, 97, 101, 80),
        TypeTag::Text => (13, 84, 101, 116, 80),
        TypeTag::Enum => (13, 69, 110, 109, 80),
        TypeTag::Byte => (13, 66, 121, 101, 80),
        TypeTag::Struct => (15, 83, 116, 117, 99),
        TypeTag::Array => (14, 65, 114, 97, 121),
        TypeTag::Mapping => (12, 77, 97, 80, 114),
        TypeTag::UniqueSet => (12, 83, 101, 80, 114),
    }
}

/// The names of the vocabulary have the marks of the table, and the name
/// that ends a scope has five units.
pub proof fn lemma_marks()
    ensures
        forall|tag: TypeTag| mark(#[trigger] tag_name(tag).push(0u8)) == tag_mark(tag),
        "None".spec_bytes().push(0u8).len() == 5,
{
    reveal_strlit("BoolProperty");
    reveal_strlit("Int8Property");
    reveal_strlit("Int16Property");
    reveal_strlit("IntProperty");
    reveal_strlit("Int64Property");
    reveal_strlit("UInt16Property");
    reveal_strlit("UInt32Property");
    reveal_strlit("UInt64Property");
    reveal_strlit("FloatProperty");
    reveal_strlit("DoubleProperty");
    reveal_strlit("StrProperty");
    reveal_strlit("NameProperty");
    reveal_strlit("TextProperty");
    reveal_strlit("EnumProperty");
    reveal_strlit("ByteProperty");
    reveal_strlit("StructProperty");
    reveal_strlit("ArrayProperty");
    reveal_strlit("MapProperty");
    reveal_strlit("SetProperty");
    reveal_strlit("None");
    vstd::string::is_ascii_spec_bytes("BoolProperty");
    vstd::string::is_ascii_spec_bytes("Int8Property");
    vstd::string::is_ascii_spec_bytes("Int16Property");
    vstd::string::is_ascii_spec_bytes("IntProperty");
    vstd::string::is_ascii_spec_bytes("Int64Property");
    vstd::string::is_ascii_spec_bytes("UInt16Property");
    vstd::string::is_ascii_spec_bytes("UInt32Property");
    vstd::string::is_ascii_spec_bytes("UInt64Property");
    vstd::string::is_ascii_spec_bytes("FloatProperty");
    vstd::string::is_ascii_spec_bytes("DoubleProperty");
    vstd::string::is_ascii_spec_bytes("StrProperty");
    vstd::string::is_ascii_spec_bytes("NameProperty");
    vstd::string::is_ascii_spec_bytes("TextProperty");
    vstd::string::is_ascii_spec_bytes("EnumProperty");
    vstd::string::is_ascii_spec_bytes("ByteProperty");
    vstd::string::is_ascii_spec_bytes("StructProperty");
    vstd::string::is_ascii_spec_bytes("ArrayProperty");
    vstd::string::is_ascii_spec_bytes("MapProperty");
    vstd::string::is_ascii_spec_bytes("SetProperty");
    vstd::string::is_ascii_spec_bytes("None");
}

/// No two tags have the same name, and no tag has the name that ends a scope.
pub proof fn lemma_names_differ(a: TypeTag, b: TypeTag)
    ensures
        tag_text(a) == tag_text(b) ==> a == b,
        tag_text(a) != sentinel(),
        text_canonical(tag_text(a)),
        text_canonical(sentinel()),
{
    lemma_marks();
    assert(mark(tag_name(a).push(0u8)) == tag_mark(a));
    assert(mark(tag_name(b).push(0u8)) == tag_mark(b));
}

/// The name of a tag names the tag.
pub proof fn lemma_tag_of_name(tag: TypeTag)
    ensures
        tag_of(tag_text(tag)) == Some(tag),
{
    assert forall|other: TypeTag| tag_text(tag) == tag_text(other) implies tag == other by {
        lemma_names_differ(tag, other);
    }
    reveal_with_fuel(tag_of_from, 20);
}

/// A type tag that was written is read back.
pub proof fn lemma_tag_back(bytes: Seq<u8>, pos: int, tag: TypeTag)
    requires
        holds_at(bytes, pos, encode_text(tag_text(tag))),
    ensures
        parse_tag(bytes, pos) == Ok::<(TypeTag, int), ErrorModel>(
            (tag, pos + text_len(tag_text(tag))),
        ),
        encode_text(tag_text(tag)).len() == text_len(tag_text(tag)),
{
    lemma_names_differ(tag, tag);
    lemma_text_back(bytes, pos, tag_text(tag));
    lemma_tag_of_name(tag);
}

/// Whether a value is what a tag of one number or one text reads.
pub open spec fn simple_canonical(tag: TypeTag, value: ValueModel) -> bool {
    match tag {
        TypeTag::Bool => value is Bool,
        TypeTag::Int8 => value is Int8,
        TypeTag::Int16 => value is Int16,
        TypeTag::Int32 => value is Int32,
        TypeTag::Int64 => value is Int64,
        TypeTag::UInt16 => value is UInt16,
        TypeTag::UInt32 => value is UInt32,
        TypeTag::UInt64 => value is UInt64,
        TypeTag::Float => value is Float32,
        TypeTag::Double => value is Float64,
        TypeTag::Str | TypeTag::Name | TypeTag::Text => value matches ValueModel::Str(text)
            && text_canonical(text),
        _ => false,
    }
}

/// A number or a text that was written is read back.
pub proof fn lemma_simple_back(tag: TypeTag, value: ValueModel, bytes: Seq<u8>, pos: int)
    requires
        simple_canonical(tag, value),
        holds_at(bytes, pos, encode_flat(value)),
    ensures
        parse_simple(tag, bytes, pos) == Ok::<(ValueModel, int), ErrorModel>(
            (value, pos + encode_flat(value).len()),
        ),
        !(value is Struct),
{
    reveal(parse_simple);
    reveal(encode_flat);
    lemma_pow256_values();
    match value {
        ValueModel::Bool(raw) => {
            reveal_with_fuel(le_bytes, 2);
            assert(le_bytes(raw as nat, 1) =~= seq![raw]);
            lemma_le_back(bytes, pos, raw as nat, 1);
        },
        ValueModel::Int8(v) => {
            lemma_unsigned_round_trip(v as int, 1);
            lemma_le_bytes_len(as_unsigned(v as int, 1), 1);
            lemma_le_back(bytes, pos, as_unsigned(v as int, 1), 1);
        },
        ValueModel::Int16(v) => {
            lemma_unsigned_round_trip(v as int, 2);
            lemma_le_bytes_len(as_unsigned(v as int, 2), 2);
            lemma_le_back(bytes, pos, as_unsigned(v as int, 2), 2);
        },
        ValueModel::Int32(v) => {
            lemma_unsigned_round_trip(v as int, 4);
            lemma_le_bytes_len(as_unsigned(v as int, 4), 4);
            lemma_le_back(bytes, pos, as_unsigned(v as int, 4), 4);
        },
        ValueModel::Int64(v) => {
            lemma_unsigned_round_trip(v as int, 8);
            lemma_le_bytes_len(as_unsigned(v as int, 8), 8);
            lemma_le_back(bytes, pos, as_unsigned(v as int, 8), 8);
        },
        ValueModel::UInt16(v) => {
            lemma_le_bytes_len(v as nat, 2);
            lemma_le_back(bytes, pos, v as nat, 2);
        },
        ValueModel::UInt32(v) => {
            lemma_le_bytes_len(v as nat, 4);
            lemma_le_back(bytes, pos, v as nat, 4);
        },
        ValueModel::UInt64(v) => {
            lemma_le_bytes_len(v as nat, 8);
            lemma_le_back(bytes, pos, v as nat, 8);
        },
        ValueModel::Float32(v) => {
            lemma_le_bytes_len(v as nat, 4);
            lemma_le_back(bytes, pos, v as nat, 4);
        },
        ValueModel::Float64(v) => {
            lemma_le_bytes_len(v as nat, 8);
            lemma_le_back(bytes, pos, v as nat, 8);
        },
        ValueModel::Str(text) => {
            lemma_text_back(bytes, pos, text);
        },
        _ => {},
    }
}

/// Whether a value is what an element tag other than that of structs reads.
pub open spec fn flat_canonical(tag: TypeTag, value: ValueModel) -> bool {
    match tag {
        TypeTag::Enum => value matches ValueModel::Str(text) && text_canonical(text),
        TypeTag::Byte => value matches ValueModel::Byte { enum_name, raw } && enum_name is None,
        TypeTag::Struct | TypeTag::Array | TypeTag::Mapping | TypeTag::UniqueSet => false,
        _ => simple_canonical(tag, value),
    }
}

/// An element that is no struct and was written is read back.
pub proof fn lemma_flat_back(tag: TypeTag, value: ValueModel, bytes: Seq<u8>, pos: int)
    requires
        flat_canonical(tag, value),
        holds_at(bytes, pos, encode_flat(value)),
    ensures
        parse_flat(tag, bytes, pos) == Ok::<(ValueModel, int), ErrorModel>(
            (value, pos + encode_flat(value).len()),
        ),
        !(value is Struct),
{
    reveal(parse_flat);
    lemma_pow256_values();
    match tag {
        TypeTag::Enum => {
            reveal(encode_flat);
            lemma_text_back(bytes, pos, value->Str_0);
        },
        TypeTag::Byte => {
            reveal(encode_flat);
            let raw = value->Byte_raw;
            reveal_with_fuel(le_bytes, 2);
            assert(le_bytes(raw as nat, 1) =~= seq![raw]);
            lemma_le_back(bytes, pos, raw as nat, 1);
        },
        TypeTag::Struct | TypeTag::Array | TypeTag::Mapping | TypeTag::UniqueSet => {},
        _ => {
            lemma_simple_back(tag, value, bytes, pos);
        },
    }
}

/// Whether a field is of a kind, and an identifier has its sixteen bytes.
pub open spec fn field_canonical(kind: FieldKind, field: FieldModel) -> bool {
    match kind {
        FieldKind::Float32 => field is Float32,
        FieldKind::Float64 => field is Float64,
        FieldKind::Int32 => field is Int32,
        FieldKind::Int64 => field is Int64,
        FieldKind::Guid => field matches FieldModel::Guid(id) && id.len() == 16,
    }
}

/// Whether fields are those of the layout from index `from` on.
pub open spec fn fields_canonical(layout: Seq<FieldKind>, from: int, fields: Seq<FieldModel>) -> bool {
    &&& 0 <= from
    &&& from + fields.len() == layout.len()
    &&& forall|i: int| 0 <= i < fields.len() ==> field_canonical(layout[from + i], #[trigger] fields[i])
}

/// A field that was written is read back.
pub proof fn lemma_field_back(kind: FieldKind, field: FieldModel, bytes: Seq<u8>, pos: int)
    requires
        field_canonical(kind, field),
        holds_at(bytes, pos, encode_field(field)),
    ensures
        parse_field(kind, bytes, pos) == Ok::<(FieldModel, int), ErrorModel>(
            (field, pos + encode_field(field).len()),
        ),
{
    lemma_pow256_values();
    match field {
        FieldModel::Float32(v) => {
            lemma_le_bytes_len(v as nat, 4);
            lemma_le_back(bytes, pos, v as nat, 4);
        },
        FieldModel::Float64(v) => {
            lemma_le_bytes_len(v as nat, 8);
            lemma_le_back(bytes, pos, v as nat, 8);
        },
        FieldModel::Int32(v) => {
            lemma_unsigned_round_trip(v as int, 4);
            lemma_le_bytes_len(as_unsigned(v as int, 4), 4);
            lemma_le_back(bytes, pos, as_unsigned(v as int, 4), 4);
        },
        FieldModel::Int64(v) => {
            lemma_unsigned_round_trip(v as int, 8);
            lemma_le_bytes_len(as_unsigned(v as int, 8), 8);
            lemma_le_back(bytes, pos, as_unsigned(v as int, 8), 8);
        },
        FieldModel::Guid(id) => {},
    }
}

/// The bytes of fields are those of the first, then those of the others.
pub proof fn lemma_encode_fields_front(fields: Seq<FieldModel>)
    requires
        fields.len() > 0,
    ensures
        encode_fields(fields) == encode_field(fields[0]) + encode_fields(fields.drop_first()),
    decreases fields.len(),
{
    if fields.len() == 1 {
        assert(fields.drop_last() =~= Seq::<FieldModel>::empty());
        assert(fields.drop_first() =~= Seq::<FieldModel>::empty());
        assert(encode_fields(fields) =~= encode_field(fields[0]) + encode_fields(fields.drop_first()));
    } else {
        lemma_encode_fields_front(fields.drop_last());
        assert(fields.drop_last().drop_first() =~= fields.drop_first().drop_last());
        assert(fields.drop_last()[0] == fields[0]);
        assert(fields.drop_first().last() == fields.last());
        assert(encode_fields(fields) =~= encode_field(fields[0]) + encode_fields(fields.drop_first()));
    }
}

/// Fields that were written are read back.
pub proof fn lemma_fields_back(
    layout: Seq<FieldKind>,
    fields: Seq<FieldModel>,
    bytes: Seq<u8>,
    pos: int,
    done: Seq<FieldModel>,
)
    requires
        fields_canonical(layout, done.len() as int, fields),
        holds_at(bytes, pos, encode_fields(fields)),
    ensures
        parse_fields(layout, bytes, pos, done) == Ok::<(Seq<FieldModel>, int), ErrorModel>(
            (done + fields, pos + encode_fields(fields).len()),
        ),
    decreases fields.len(),
{
    if fields.len() == 0 {
        assert(done + fields =~= done);
    } else {
        let first = fields[0];
        let rest = fields.drop_first();
        lemma_encode_fields_front(fields);
        lemma_holds_split(bytes, pos, encode_field(first), encode_fields(rest));
        lemma_field_back(layout[done.len() as int], first, bytes, pos);
        assert forall|i: int| 0 <= i < rest.len() implies field_canonical(
            layout[done.push(first).len() + i],
            #[trigger] rest[i],
        ) by {
            assert(rest[i] == fields[i + 1]);
        }
        lemma_fields_back(layout, rest, bytes, pos + encode_field(first).len(), done.push(first));
        assert(done.push(first) + rest =~= done + fields);
    }
}

/// Whether a value is what the decoder gives for an element of the tag: a
/// struct has the shared type name, no identifier, and the fields of the
/// registered layout or, where none is registered, a property list in the
/// same form.
pub open spec fn element_canonical(registry: Seq<LayoutModel>, tag: TypeTag, struct_type: TextModel, value: ValueModel) -> bool
    decreases value, 0nat,
{
    if tag == TypeTag::Struct {
        match value {
            ValueModel::Struct { struct_type: own, guid, body } => own == struct_type && guid is None
                && match body {
                BodyModel::Fixed(fields) => find_layout(registry, struct_type) matches Some(layout)
                    && fields_canonical(layout, 0, fields),
                BodyModel::Fields(properties) => find_layout(registry, struct_type) is None
                    && scope_canonical(registry, properties),
                BodyModel::Raw(_) => false,
            },
            _ => false,
        }
    } else {
        !(value is Struct) && flat_canonical(tag, value)
    }
}

/// Whether each value is what the decoder gives for an element of the tag.
pub open spec fn elements_canonical(
    registry: Seq<LayoutModel>,
    tag: TypeTag,
    struct_type: TextModel,
    values: Seq<ValueModel>,
) -> bool
    decreases values, 0nat,
{
    forall|i: int|
        0 <= i < values.len() ==> element_canonical(registry, tag, struct_type, #[trigger] values[i])
}

/// Whether each key and each value is what the decoder gives for an element
/// of its tag.
pub open spec fn pairs_canonical(
    registry: Seq<LayoutModel>,
    key_tag: TypeTag,
    value_tag: TypeTag,
    pairs: Seq<(ValueModel, ValueModel)>,
) -> bool
    decreases pairs, 0nat,
{
    forall|i: int|
        0 <= i < pairs.len() ==> element_canonical(
            registry,
            key_tag,
            empty_text(),
            (#[trigger] pairs[i]).0,
        ) && element_canonical(registry, value_tag, empty_text(), pairs[i].1)
}

/// Whether a body is what the decoder gives for the payload of a struct
/// property: the fields of the registered layout, a property list in the same
/// form where no layout is registered, or raw bytes that read as neither.
pub open spec fn body_canonical(registry: Seq<LayoutModel>, struct_type: TextModel, body: BodyModel) -> bool
    decreases body, 0nat,
{
    match body {
        BodyModel::Fixed(fields) => find_layout(registry, struct_type) matches Some(layout)
            && fields_canonical(layout, 0, fields),
        BodyModel::Fields(properties) => find_layout(registry, struct_type) is None && scope_canonical(
            registry,
            properties,
        ),
        BodyModel::Raw(bytes) => parse_struct_body(registry, struct_type, bytes) == BodyModel::Raw(bytes),
    }
}

/// Whether the header and the elements of an array or a set are what the
/// decoder gives: the count fits, only structs have a shared type name, and
/// each element is in that form.
pub open spec fn sequence_canonical(
    registry: Seq<LayoutModel>,
    tag: TypeTag,
    element_struct: Option<TextModel>,
    elements: Seq<ValueModel>,
) -> bool
    decreases elements, 1nat,
{
    &&& elements.len() <= u32::MAX
    &&& if tag == TypeTag::Struct {
        element_struct matches Some(name) && text_canonical(name)
    } else {
        element_struct is None
    }
    &&& elements_canonical(registry, tag, text_or(element_struct, empty_text()), elements)
}

/// Whether a value is what the decoder gives for a property of the tag and
/// the declared size.
pub open spec fn value_canonical(registry: Seq<LayoutModel>, tag: TypeTag, size: u64, value: ValueModel) -> bool
    decreases value, 2nat,
{
    match tag {
        TypeTag::Enum => value matches ValueModel::Enum { enum_type, value: name } && text_canonical(
            enum_type,
        ) && text_canonical(name),
        TypeTag::Byte => match value {
            ValueModel::Byte { enum_name, raw } => enum_name is None,
            ValueModel::Enum { enum_type, value: name } => text_canonical(enum_type) && text_canonical(
                name,
            ) && enum_type != sentinel(),
            _ => false,
        },
        TypeTag::Struct => match value {
            ValueModel::Struct { struct_type, guid, body } => text_canonical(struct_type) && (guid matches Some(
                id,
            ) && id.len() == 16) && body_canonical(registry, struct_type, body) && size
                == encode_struct_body(body).len(),
            _ => false,
        },
        TypeTag::Array => match value {
            ValueModel::Array { element_tag, element_struct, elements } => sequence_canonical(
                registry,
                element_tag,
                element_struct,
                elements,
            ),
            _ => false,
        },
        TypeTag::UniqueSet => match value {
            ValueModel::UniqueSet { element_tag, element_struct, elements } => sequence_canonical(
                registry,
                element_tag,
                element_struct,
                elements,
            ) && elements.no_duplicates(),
            _ => false,
        },
        TypeTag::Mapping => match value {
            ValueModel::Mapping { key_tag, value_tag, flags, entries } => entries.len() <= u32::MAX
                && pairs_canonical(registry, key_tag, value_tag, entries),
            _ => false,
        },
        _ => simple_canonical(tag, value),
    }
}

/// Whether a property is what the decoder gives: its name does not end a
/// scope, and its value is in the form of its tag.
pub open spec fn property_canonical(registry: Seq<LayoutModel>, property: PropertyModel) -> bool
    decreases property, 0nat,
{
    &&& text_canonical(property.name)
    &&& property.name != sentinel()
    &&& value_canonical(registry, property.tag, property.size, property.value)
}

/// Whether each property of a scope is what the decoder gives.
pub open spec fn scope_canonical(registry: Seq<LayoutModel>, properties: Seq<PropertyModel>) -> bool
    decreases properties, 0nat,
{
    forall|i: int|
        0 <= i < properties.len() ==> property_canonical(registry, #[trigger] properties[i])
}

/// The bytes of elements are those of the first, then those of the others.
pub proof fn lemma_encode_elements_front(values: Seq<ValueModel>)
    requires
        values.len() > 0,
    ensures
        encode_elements(values) == encode_element(values[0]) + encode_elements(values.drop_first()),
    decreases values.len(),
{
    if values.len() == 1 {
        assert(values.drop_last() =~= Seq::<ValueModel>::empty());
        assert(values.drop_first() =~= Seq::<ValueModel>::empty());
        assert(encode_elements(values) =~= encode_element(values[0]) + encode_elements(
            values.drop_first(),
        ));
    } else {
        lemma_encode_elements_front(values.drop_last());
        assert(values.drop_last().drop_first() =~= values.drop_first().drop_last());
        assert(values.drop_last()[0] == values[0]);
        assert(values.drop_first().last() == values.last());
        assert(encode_elements(values) =~= encode_element(values[0]) + encode_elements(
            values.drop_first(),
        ));
    }
}

/// The bytes of pairs are those of the first, then those of the others.
pub proof fn lemma_encode_pairs_front(pairs: Seq<(ValueModel, ValueModel)>)
    requires
        pairs.len() > 0,
    ensures
        encode_pairs(pairs) == encode_element(pairs[0].0) + encode_element(pairs[0].1) + encode_pairs(
            pairs.drop_first(),
        ),
    decreases pairs.len(),
{
    if pairs.len() == 1 {
        assert(pairs.drop_last() =~= Seq::<(ValueModel, ValueModel)>::empty());
        assert(pairs.drop_first() =~= Seq::<(ValueModel, ValueModel)>::empty());
        assert(encode_pairs(pairs) =~= encode_element(pairs[0].0) + encode_element(pairs[0].1)
            + encode_pairs(pairs.drop_first()));
    } else {
        lemma_encode_pairs_front(pairs.drop_last());
        assert(pairs.drop_last().drop_first() =~= pairs.drop_first().drop_last());
        assert(pairs.drop_last()[0] == pairs[0]);
        assert(pairs.drop_first().last() == pairs.last());
        assert(encode_pairs(pairs) =~= encode_element(pairs[0].0) + encode_element(pairs[0].1)
            + encode_pairs(pairs.drop_first()));
    }
}

/// The bytes of properties are those of the first, then those of the others.
pub proof fn lemma_encode_properties_front(properties: Seq<PropertyModel>)
    requires
        properties.len() > 0,
    ensures
        encode_properties(properties) == encode_property(properties[0]) + encode_properties(
            properties.drop_first(),
        ),
    decreases properties.len(),
{
    if properties.len() == 1 {
        assert(properties.drop_last() =~= Seq::<PropertyModel>::empty());
        assert(properties.drop_first() =~= Seq::<PropertyModel>::empty());
        assert(encode_properties(properties) =~= encode_property(properties[0]) + encode_properties(
            properties.drop_first(),
        ));
    } else {
        lemma_encode_properties_front(properties.drop_last());
        assert(properties.drop_last().drop_first() =~= properties.drop_first().drop_last());
        assert(properties.drop_last()[0] == properties[0]);
        assert(properties.drop_first().last() == properties.last());
        assert(encode_properties(properties) =~= encode_property(properties[0]) + encode_properties(
            properties.drop_first(),
        ));
    }
}

/// An element that was written is read back.
pub proof fn lemma_element_back(
    registry: Seq<LayoutModel>,
    tag: TypeTag,
    struct_type: TextModel,
    value: ValueModel,
    bytes: Seq<u8>,
    pos: int,
)
    requires
        element_canonical(registry, tag, struct_type, value),
        holds_at(bytes, pos, encode_element(value)),
    ensures
        parse_element(registry, tag, struct_type, bytes, pos) == Ok::<(ValueModel, int), ErrorModel>(
            (value, pos + encode_element(value).len()),
        ),
    decreases value, 0nat,
{
    if tag == TypeTag::Struct {
        match value {
            ValueModel::Struct { struct_type: own, guid, body } => match body {
                BodyModel::Fixed(fields) => {
                    let layout = find_layout(registry, struct_type)->Some_0;
                    lemma_fields_back(layout, fields, bytes, pos, Seq::empty());
                    assert(Seq::<FieldModel>::empty() + fields =~= fields);
                },
                BodyModel::Fields(properties) => {
                    lemma_scope_back(registry, properties, bytes, pos, Seq::empty());
                    assert(Seq::<PropertyModel>::empty() + properties =~= properties);
                },
                BodyModel::Raw(_) => {},
            },
            _ => {},
        }
    } else {
        lemma_flat_back(tag, value, bytes, pos);
    }
}

/// Elements that were written are read back.
pub proof fn lemma_elements_back(
    registry: Seq<LayoutModel>,
    tag: TypeTag,
    struct_type: TextModel,
    values: Seq<ValueModel>,
    bytes: Seq<u8>,
    pos: int,
    done: Seq<ValueModel>,
)
    requires
        elements_canonical(registry, tag, struct_type, values),
        holds_at(bytes, pos, encode_elements(values)),
    ensures
        parse_elements(registry, tag, struct_type, bytes, pos, values.len(), done) == Ok::<
            (Seq<ValueModel>, int),
            ErrorModel,
        >((done + values, pos + encode_elements(values).len())),
    decreases values, 0nat,
{
    if values.len() == 0 {
        assert(done + values =~= done);
    } else {
        let first = values[0];
        let rest = values.drop_first();
        lemma_encode_elements_front(values);
        lemma_holds_split(bytes, pos, encode_element(first), encode_elements(rest));
        lemma_element_back(registry, tag, struct_type, first, bytes, pos);
        assert forall|i: int| 0 <= i < rest.len() implies element_canonical(
            registry,
            tag,
            struct_type,
            #[trigger] rest[i],
        ) by {
            assert(rest[i] == values[i + 1]);
        }
        lemma_elements_back(
            registry,
            tag,
            struct_type,
            rest,
            bytes,
            pos + encode_element(first).len(),
            done.push(first),
        );
        assert(done.push(first) + rest =~= done + values);
    }
}

/// A pair that was written is read back.
pub proof fn lemma_pair_back(
    registry: Seq<LayoutModel>,
    key_tag: TypeTag,
    value_tag: TypeTag,
    pair: (ValueModel, ValueModel),
    bytes: Seq<u8>,
    pos: int,
)
    requires
        element_canonical(registry, key_tag, empty_text(), pair.0),
        element_canonical(registry, value_tag, empty_text(), pair.1),
        holds_at(bytes, pos, encode_element(pair.0) + encode_element(pair.1)),
    ensures
        parse_pair(registry, key_tag, value_tag, bytes, pos) == Ok::<
            ((ValueModel, ValueModel), int),
            ErrorModel,
        >((pair, pos + encode_element(pair.0).len() + encode_element(pair.1).len())),
    decreases pair, 0nat,
{
    lemma_holds_split(bytes, pos, encode_element(pair.0), encode_element(pair.1));
    lemma_element_back(registry, key_tag, empty_text(), pair.0, bytes, pos);
    lemma_element_back(
        registry,
        value_tag,
        empty_text(),
        pair.1,
        bytes,
        pos + encode_element(pair.0).len(),
    );
}

/// Pairs that were written are read back.
pub proof fn lemma_pairs_back(
    registry: Seq<LayoutModel>,
    key_tag: TypeTag,
    value_tag: TypeTag,
    pairs: Seq<(ValueModel, ValueModel)>,
    bytes: Seq<u8>,
    pos: int,
    done: Seq<(ValueModel, ValueModel)>,
)
    requires
        pairs_canonical(registry, key_tag, value_tag, pairs),
        holds_at(bytes, pos, encode_pairs(pairs)),
    ensures
        parse_pairs(registry, key_tag, value_tag, bytes, pos, pairs.len(), done) == Ok::<
            (Seq<(ValueModel, ValueModel)>, int),
            ErrorModel,
        >((done + pairs, pos + encode_pairs(pairs).len())),
    decreases pairs, 0nat,
{
    if pairs.len() == 0 {
        assert(done + pairs =~= done);
    } else {
        let first = pairs[0];
        let rest = pairs.drop_first();
        lemma_encode_pairs_front(pairs);
        lemma_holds_split(
            bytes,
            pos,
            encode_element(first.0) + encode_element(first.1),
            encode_pairs(rest),
        );
        lemma_pair_back(registry, key_tag, value_tag, first, bytes, pos);
        assert forall|i: int| 0 <= i < rest.len() implies element_canonical(
            registry,
            key_tag,
            empty_text(),
            (#[trigger] rest[i]).0,
        ) && element_canonical(registry, value_tag, empty_text(), rest[i].1) by {
            assert(rest[i] == pairs[i + 1]);
        }
        lemma_pairs_back(
            registry,
            key_tag,
            value_tag,
            rest,
            bytes,
            pos + encode_element(first.0).len() + encode_element(first.1).len(),
            done.push(first),
        );
        assert(done.push(first) + rest =~= done + pairs);
    }
}

/// The payload of a struct that was written is read back as the body.
pub proof fn lemma_struct_body_back(registry: Seq<LayoutModel>, struct_type: TextModel, body: BodyModel)
    requires
        body_canonical(registry, struct_type, body),
    ensures
        parse_struct_body(registry, struct_type, encode_struct_body(body)) == body,
    decreases body, 1nat,
{
    let payload = encode_struct_body(body);
    assert(payload.subrange(0, payload.len() as int) =~= payload);
    match body {
        BodyModel::Fixed(fields) => {
            let layout = find_layout(registry, struct_type)->Some_0;
            lemma_fields_back(layout, fields, payload, 0, Seq::empty());
            assert(Seq::<FieldModel>::empty() + fields =~= fields);
        },
        BodyModel::Fields(properties) => {
            lemma_scope_back(registry, properties, payload, 0, Seq::empty());
            assert(Seq::<PropertyModel>::empty() + properties =~= properties);
        },
        BodyModel::Raw(bytes) => {},
    }
}

/// The header and the elements of an array or a set that were written are
/// read back.
pub proof fn lemma_sequence_back(
    registry: Seq<LayoutModel>,
    tag: TypeTag,
    element_struct: Option<TextModel>,
    elements: Seq<ValueModel>,
    bytes: Seq<u8>,
    pos: int,
)
    requires
        sequence_canonical(registry, tag, element_struct, elements),
        holds_at(
            bytes,
            pos,
            encode_sequence_header(tag, element_struct, elements.len()) + encode_elements(elements),
        ),
    ensures
        parse_sequence(registry, bytes, pos) == Ok::<
            ((TypeTag, Option<TextModel>, Seq<ValueModel>), int),
            ErrorModel,
        >(
            (
                (tag, element_struct, elements),
                pos + encode_sequence_header(tag, element_struct, elements.len()).len()
                    + encode_elements(elements).len(),
            ),
        ),
    decreases elements, 2nat,
{
    lemma_pow256_values();
    let header = encode_sequence_header(tag, element_struct, elements.len());
    let name = encode_text(tag_text(tag));
    let count = le_bytes(elements.len(), 4);
    lemma_le_bytes_len(elements.len(), 4);
    lemma_holds_split(bytes, pos, header, encode_elements(elements));
    if tag == TypeTag::Struct {
        let shared = element_struct->Some_0;
        lemma_holds_split(bytes, pos, name + count, encode_text(shared));
        lemma_holds_split(bytes, pos, name, count);
        lemma_tag_back(bytes, pos, tag);
        lemma_le_back(bytes, pos + name.len(), elements.len(), 4);
        lemma_text_back(bytes, pos + name.len() + 4, shared);
        lemma_elements_back(registry, tag, shared, elements, bytes, pos + header.len(), Seq::empty());
    } else {
        assert(header =~= name + count);
        lemma_holds_split(bytes, pos, name, count);
        lemma_tag_back(bytes, pos, tag);
        lemma_le_back(bytes, pos + name.len(), elements.len(), 4);
        lemma_elements_back(
            registry,
            tag,
            empty_text(),
            elements,
            bytes,
            pos + header.len(),
            Seq::empty(),
        );
    }
    assert(Seq::<ValueModel>::empty() + elements =~= elements);
}

/// The body of an enum property, or of a byte property with a named value,
/// that was written is read back.
pub proof fn lemma_enum_back(enum_type: TextModel, name: TextModel, bytes: Seq<u8>, pos: int)
    requires
        text_canonical(enum_type),
        text_canonical(name),
        holds_at(bytes, pos, encode_text(enum_type) + encode_text(name)),
    ensures
        parse_enum(bytes, pos) == Ok::<(ValueModel, int), ErrorModel>(
            (
                ValueModel::Enum { enum_type, value: name },
                pos + encode_text(enum_type).len() + encode_text(name).len(),
            ),
        ),
        enum_type != sentinel() ==> parse_byte(bytes, pos) == parse_enum(bytes, pos),
{
    lemma_holds_split(bytes, pos, encode_text(enum_type), encode_text(name));
    lemma_text_back(bytes, pos, enum_type);
    lemma_text_back(bytes, pos + encode_text(enum_type).len(), name);
}

/// The body of a byte property with a raw value that was written is read back.
pub proof fn lemma_byte_back(raw: u8, bytes: Seq<u8>, pos: int)
    requires
        holds_at(bytes, pos, encode_text(sentinel()) + seq![raw]),
    ensures
        parse_byte(bytes, pos) == Ok::<(ValueModel, int), ErrorModel>(
            (ValueModel::Byte { enum_name: None, raw }, pos + encode_text(sentinel()).len() + 1),
        ),
{
    lemma_pow256_values();
    lemma_names_differ(TypeTag::Bool, TypeTag::Bool);
    lemma_holds_split(bytes, pos, encode_text(sentinel()), seq![raw]);
    lemma_text_back(bytes, pos, sentinel());
    reveal_with_fuel(le_bytes, 2);
    assert(le_bytes(raw as nat, 1) =~= seq![raw]);
    lemma_le_back(bytes, pos + encode_text(sentinel()).len(), raw as nat, 1);
}

/// The body of a struct property that was written is read back.
pub proof fn lemma_struct_back(
    registry: Seq<LayoutModel>,
    size: u64,
    struct_type: TextModel,
    id: Seq<u8>,
    body: BodyModel,
    bytes: Seq<u8>,
    pos: int,
)
    requires
        text_canonical(struct_type),
        id.len() == 16,
        body_canonical(registry, struct_type, body),
        size == encode_struct_body(body).len(),
        holds_at(bytes, pos, encode_text(struct_type) + id + encode_struct_body(body)),
    ensures
        parse_struct(registry, size, bytes, pos) == Ok::<(ValueModel, int), ErrorModel>(
            (
                ValueModel::Struct { struct_type, guid: Some(id), body },
                pos + encode_text(struct_type).len() + 16 + encode_struct_body(body).len(),
            ),
        ),
    decreases body, 2nat,
{
    let name = encode_text(struct_type);
    let payload = encode_struct_body(body);
    lemma_holds_split(bytes, pos, name + id, payload);
    lemma_holds_split(bytes, pos, name, id);
    lemma_text_back(bytes, pos, struct_type);
    lemma_struct_body_back(registry, struct_type, body);
}

/// The body of a map property that was written is read back.
pub proof fn lemma_mapping_back(
    registry: Seq<LayoutModel>,
    key_tag: TypeTag,
    value_tag: TypeTag,
    flags: u32,
    entries: Seq<(ValueModel, ValueModel)>,
    bytes: Seq<u8>,
    pos: int,
)
    requires
        entries.len() <= u32::MAX,
        pairs_canonical(registry, key_tag, value_tag, entries),
        holds_at(
            bytes,
            pos,
            encode_text(tag_text(key_tag)) + encode_text(tag_text(value_tag)) + le_bytes(
                flags as nat,
                4,
            ) + le_bytes(entries.len(), 4) + encode_pairs(entries),
        ),
    ensures
        parse_mapping(registry, bytes, pos) == Ok::<(ValueModel, int), ErrorModel>(
            (
                ValueModel::Mapping { key_tag, value_tag, flags, entries },
                pos + encode_text(tag_text(key_tag)).len() + encode_text(tag_text(value_tag)).len()
                    + 8 + encode_pairs(entries).len(),
            ),
        ),
    decreases entries, 1nat,
{
    lemma_pow256_values();
    let key = encode_text(tag_text(key_tag));
    let value = encode_text(tag_text(value_tag));
    let word = le_bytes(flags as nat, 4);
    let count = le_bytes(entries.len(), 4);
    lemma_le_bytes_len(flags as nat, 4);
    lemma_le_bytes_len(entries.len(), 4);
    lemma_holds_split(bytes, pos, key + value + word + count, encode_pairs(entries));
    lemma_holds_split(bytes, pos, key + value + word, count);
    lemma_holds_split(bytes, pos, key + value, word);
    lemma_holds_split(bytes, pos, key, value);
    lemma_tag_back(bytes, pos, key_tag);
    lemma_tag_back(bytes, pos + key.len(), value_tag);
    lemma_le_back(bytes, pos + key.len() + value.len(), flags as nat, 4);
    lemma_le_back(bytes, pos + key.len() + value.len() + 4, entries.len(), 4);
    lemma_pairs_back(
        registry,
        key_tag,
        value_tag,
        entries,
        bytes,
        pos + key.len() + value.len() + 8,
        Seq::empty(),
    );
    assert(Seq::<(ValueModel, ValueModel)>::empty() + entries =~= entries);
}

/// What follows the declared size of a property that was written is read back.
pub proof fn lemma_body_back(
    registry: Seq<LayoutModel>,
    tag: TypeTag,
    size: u64,
    value: ValueModel,
    bytes: Seq<u8>,
    pos: int,
)
    requires
        value_canonical(registry, tag, size, value),
        holds_at(bytes, pos, encode_body(value)),
    ensures
        parse_body(registry, tag, size, bytes, pos) == Ok::<(ValueModel, int), ErrorModel>(
            (value, pos + encode_body(value).len()),
        ),
    decreases value, 4nat,
{
    match tag {
        TypeTag::Enum | TypeTag::Byte => {
            lemma_named_body_back(registry, tag, size, value, bytes, pos);
        },
        TypeTag::Struct => {
            lemma_struct_body_property_back(registry, tag, size, value, bytes, pos);
        },
        TypeTag::Array | TypeTag::UniqueSet => {
            lemma_sequence_body_back(registry, tag, size, value, bytes, pos);
        },
        TypeTag::Mapping => {
            lemma_mapping_body_back(registry, tag, size, value, bytes, pos);
        },
        _ => {
            lemma_simple_body_back(registry, tag, size, value, bytes, pos);
        },
    }
}

/// The same for a property of an enum or a byte.
proof fn lemma_named_body_back(
    registry: Seq<LayoutModel>,
    tag: TypeTag,
    size: u64,
    value: ValueModel,
    bytes: Seq<u8>,
    pos: int,
)
    requires
        tag == TypeTag::Enum || tag == TypeTag::Byte,
        value_canonical(registry, tag, size, value),
        holds_at(bytes, pos, encode_body(value)),
    ensures
        parse_body(registry, tag, size, bytes, pos) == Ok::<(ValueModel, int), ErrorModel>(
            (value, pos + encode_body(value).len()),
        ),
    decreases value, 0nat,
{
    match value {
        ValueModel::Byte { enum_name, raw } => {
            lemma_byte_back(raw, bytes, pos);
        },
        ValueModel::Enum { enum_type, value: name } => {
            lemma_enum_back(enum_type, name, bytes, pos);
        },
        _ => {},
    }
}

/// The same for a property of a struct.
proof fn lemma_struct_body_property_back(
    registry: Seq<LayoutModel>,
    tag: TypeTag,
    size: u64,
    value: ValueModel,
    bytes: Seq<u8>,
    pos: int,
)
    requires
        tag == TypeTag::Struct,
        value_canonical(registry, tag, size, value),
        holds_at(bytes, pos, encode_body(value)),
    ensures
        parse_body(registry, tag, size, bytes, pos) == Ok::<(ValueModel, int), ErrorModel>(
            (value, pos + encode_body(value).len()),
        ),
    decreases value, 3nat,
{
    match value {
        ValueModel::Struct { struct_type, guid, body } => {
            lemma_struct_back(registry, size, struct_type, guid->Some_0, body, bytes, pos);
        },
        _ => {},
    }
}

/// The same for a property of an array or a set.
proof fn lemma_sequence_body_back(
    registry: Seq<LayoutModel>,
    tag: TypeTag,
    size: u64,
    value: ValueModel,
    bytes: Seq<u8>,
    pos: int,
)
    requires
        tag == TypeTag::Array || tag == TypeTag::UniqueSet,
        value_canonical(registry, tag, size, value),
        holds_at(bytes, pos, encode_body(value)),
    ensures
        parse_body(registry, tag, size, bytes, pos) == Ok::<(ValueModel, int), ErrorModel>(
            (value, pos + encode_body(value).len()),
        ),
    decreases value, 3nat,
{
    match value {
        ValueModel::Array { element_tag, element_struct, elements } => {
            lemma_sequence_back(registry, element_tag, element_struct, elements, bytes, pos);
        },
        ValueModel::UniqueSet { element_tag, element_struct, elements } => {
            lemma_distinct_all(elements);
            lemma_encode_distinct(elements);
            lemma_sequence_back(registry, element_tag, element_struct, elements, bytes, pos);
        },
        _ => {},
    }
}

/// The same for a property of a map.
proof fn lemma_mapping_body_back(
    registry: Seq<LayoutModel>,
    tag: TypeTag,
    size: u64,
    value: ValueModel,
    bytes: Seq<u8>,
    pos: int,
)
    requires
        tag == TypeTag::Mapping,
        value_canonical(registry, tag, size, value),
        holds_at(bytes, pos, encode_body(value)),
    ensures
        parse_body(registry, tag, size, bytes, pos) == Ok::<(ValueModel, int), ErrorModel>(
            (value, pos + encode_body(value).len()),
        ),
    decreases value, 3nat,
{
    match value {
        ValueModel::Mapping { key_tag, value_tag, flags, entries } => {
            let written = encode_text(tag_text(key_tag)) + encode_text(tag_text(value_tag)) + le_bytes(
                flags as nat,
                4,
            ) + le_bytes(entries.len(), 4) + encode_pairs(entries);
            assert(encode_body(value) == written);
            lemma_le_bytes_len(flags as nat, 4);
            lemma_le_bytes_len(entries.len(), 4);
            assert(written.len() == encode_text(tag_text(key_tag)).len() + encode_text(
                tag_text(value_tag),
            ).len() + 8 + encode_pairs(entries).len());
            lemma_mapping_back(registry, key_tag, value_tag, flags, entries, bytes, pos);
            assert(parse_body(registry, tag, size, bytes, pos) == parse_mapping(registry, bytes, pos));
        },
        _ => {},
    }
}

/// The same for a property of one number or one text.
proof fn lemma_simple_body_back(
    registry: Seq<LayoutModel>,
    tag: TypeTag,
    size: u64,
    value: ValueModel,
    bytes: Seq<u8>,
    pos: int,
)
    requires
        simple_canonical(tag, value),
        value_canonical(registry, tag, size, value),
        holds_at(bytes, pos, encode_body(value)),
    ensures
        parse_body(registry, tag, size, bytes, pos) == Ok::<(ValueModel, int), ErrorModel>(
            (value, pos + encode_body(value).len()),
        ),
    decreases value, 0nat,
{
    lemma_simple_back(tag, value, bytes, pos);
    reveal(parse_simple);
    reveal(encode_flat);
}

/// The properties of a scope that were written, with the name that ends the
/// scope, are read back.
pub proof fn lemma_scope_back(
    registry: Seq<LayoutModel>,
    properties: Seq<PropertyModel>,
    bytes: Seq<u8>,
    pos: int,
    done: Seq<PropertyModel>,
)
    requires
        scope_canonical(registry, properties),
        holds_at(bytes, pos, encode_scope(properties)),
    ensures
        parse_scope(registry, bytes, pos, done) == Ok::<(Seq<PropertyModel>, int), ErrorModel>(
            (done + properties, pos + encode_scope(properties).len()),
        ),
    decreases properties, 0nat,
{
    lemma_pow256_values();
    lemma_names_differ(TypeTag::Bool, TypeTag::Bool);
    let end = encode_text(sentinel());
    if properties.len() == 0 {
        assert(encode_scope(properties) =~= end);
        lemma_text_back(bytes, pos, sentinel());
        assert(done + properties =~= done);
    } else {
        let first = properties[0];
        let rest = properties.drop_first();
        lemma_encode_properties_front(properties);
        assert(encode_scope(properties) =~= encode_property(first) + encode_scope(rest));
        lemma_holds_split(bytes, pos, encode_property(first), encode_scope(rest));
        let name = encode_text(first.name);
        let tag = encode_text(tag_text(first.tag));
        let size = le_bytes(first.size as nat, 8);
        lemma_le_bytes_len(first.size as nat, 8);
        lemma_holds_split(bytes, pos, name + tag + size, encode_body(first.value));
        lemma_holds_split(bytes, pos, name + tag, size);
        lemma_holds_split(bytes, pos, name, tag);
        lemma_text_back(bytes, pos, first.name);
        lemma_tag_back(bytes, pos + name.len(), first.tag);
        lemma_le_back(bytes, pos + name.len() + tag.len(), first.size as nat, 8);
        lemma_body_back(
            registry,
            first.tag,
            first.size,
            first.value,
            bytes,
            pos + name.len() + tag.len() + 8,
        );
        assert forall|i: int| 0 <= i < rest.len() implies property_canonical(
            registry,
            #[trigger] rest[i],
        ) by {
            assert(rest[i] == properties[i + 1]);
        }
        lemma_scope_back(registry, rest, bytes, pos + encode_property(first).len(), done.push(first));
        assert(done.push(first) + rest =~= done + properties);
    }
}

/// The bytes of versions are those of the first, then those of the others.
pub proof fn lemma_encode_versions_front(versions: Seq<VersionModel>)
    requires
        versions.len() > 0,
    ensures
        encode_versions(versions) == encode_version(versions[0]) + encode_versions(
            versions.drop_first(),
        ),
    decreases versions.len(),
{
    if versions.len() == 1 {
        assert(versions.drop_last() =~= Seq::<VersionModel>::empty());
        assert(versions.drop_first() =~= Seq::<VersionModel>::empty());
        assert(encode_versions(versions) =~= encode_version(versions[0]) + encode_versions(
            versions.drop_first(),
        ));
    } else {
        lemma_encode_versions_front(versions.drop_last());
        assert(versions.drop_last().drop_first() =~= versions.drop_first().drop_last());
        assert(versions.drop_last()[0] == versions[0]);
        assert(versions.drop_first().last() == versions.last());
        assert(encode_versions(versions) =~= encode_version(versions[0]) + encode_versions(
            versions.drop_first(),
        ));
    }
}

/// Whether each identifier of the custom versions has its sixteen bytes.
pub open spec fn versions_canonical(versions: Seq<VersionModel>) -> bool {
    forall|i: int| 0 <= i < versions.len() ==> (#[trigger] versions[i]).id.len() == 16
}

/// Custom versions that were written are read back.
pub proof fn lemma_versions_back(versions: Seq<VersionModel>, bytes: Seq<u8>, pos: int, done: Seq<VersionModel>)
    requires
        versions_canonical(versions),
        holds_at(bytes, pos, encode_versions(versions)),
    ensures
        parse_versions(bytes, pos, versions.len(), done) == Ok::<(Seq<VersionModel>, int), ErrorModel>(
            (done + versions, pos + encode_versions(versions).len()),
        ),
    decreases versions.len(),
{
    if versions.len() == 0 {
        assert(done + versions =~= done);
    } else {
        lemma_pow256_values();
        let first = versions[0];
        let rest = versions.drop_first();
        let number = le_bytes(as_unsigned(first.version as int, 4), 4);
        lemma_encode_versions_front(versions);
        lemma_holds_split(bytes, pos, encode_version(first), encode_versions(rest));
        lemma_holds_split(bytes, pos, first.id, number);
        lemma_unsigned_round_trip(first.version as int, 4);
        lemma_le_bytes_len(as_unsigned(first.version as int, 4), 4);
        lemma_le_back(bytes, pos + 16, as_unsigned(first.version as int, 4), 4);
        assert(parse_version(bytes, pos) == Ok::<(VersionModel, int), ErrorModel>((first, pos + 20)));
        assert forall|i: int| 0 <= i < rest.len() implies (#[trigger] rest[i]).id.len() == 16 by {
            assert(rest[i] == versions[i + 1]);
        }
        lemma_versions_back(rest, bytes, pos + 20, done.push(first));
        assert(done.push(first) + rest =~= done + versions);
    }
}

/// Whether a document is in the form in which the decoder gives documents.
pub open spec fn document_canonical(registry: Seq<LayoutModel>, document: DocumentModel) -> bool {
    &&& document.header.custom_versions.len() <= u32::MAX
    &&& versions_canonical(document.header.custom_versions)
    &&& scope_canonical(registry, document.root)
}

/// A header that was written is read back.
pub proof fn lemma_header_back(header: HeaderModel, bytes: Seq<u8>, pos: int)
    requires
        header.custom_versions.len() <= u32::MAX,
        versions_canonical(header.custom_versions),
        holds_at(bytes, pos, encode_header(header)),
    ensures
        parse_header(bytes, pos) == Ok::<(HeaderModel, int), ErrorModel>(
            (header, pos + encode_header(header).len()),
        ),
{
    lemma_pow256_values();
    let major = le_bytes(header.engine_major as nat, 2);
    let minor = le_bytes(header.engine_minor as nat, 2);
    let patch = le_bytes(header.engine_patch as nat, 2);
    let count = le_bytes(header.custom_versions.len(), 4);
    lemma_le_bytes_len(header.engine_major as nat, 2);
    lemma_le_bytes_len(header.engine_minor as nat, 2);
    lemma_le_bytes_len(header.engine_patch as nat, 2);
    lemma_le_bytes_len(header.custom_versions.len(), 4);
    lemma_holds_split(bytes, pos, major + minor + patch + count, encode_versions(header.custom_versions));
    lemma_holds_split(bytes, pos, major + minor + patch, count);
    lemma_holds_split(bytes, pos, major + minor, patch);
    lemma_holds_split(bytes, pos, major, minor);
    lemma_le_back(bytes, pos, header.engine_major as nat, 2);
    lemma_le_back(bytes, pos + 2, header.engine_minor as nat, 2);
    lemma_le_back(bytes, pos + 4, header.engine_patch as nat, 2);
    lemma_le_back(bytes, pos + 6, header.custom_versions.len(), 4);
    lemma_versions_back(header.custom_versions, bytes, pos + 10, Seq::empty());
    assert(Seq::<VersionModel>::empty() + header.custom_versions =~= header.custom_versions);
}

/// Reading back. Of every document in the form in which the decoder gives
/// documents: the bytes that the encoder writes for it hold the document.
pub proof fn law_read_back(registry: Seq<LayoutModel>, document: DocumentModel)
    requires
        document_canonical(registry, document),
    ensures
        parse_document(registry, encode_document(document)) == Ok::<DocumentModel, ErrorModel>(
            document,
        ),
{
    let bytes = encode_document(document);
    let header = encode_header(document.header);
    let root = encode_scope(document.root);
    assert(bytes.subrange(0, bytes.len() as int) =~= bytes);
    lemma_holds_split(bytes, 0, header + root, document.trailer);
    lemma_holds_split(bytes, 0, header, root);
    lemma_header_back(document.header, bytes, 0);
    lemma_scope_back(registry, document.root, bytes, header.len() as int, Seq::empty());
    assert(Seq::<PropertyModel>::empty() + document.root =~= document.root);
    assert(bytes.subrange((header.len() + root.len()) as int, bytes.len() as int) =~= document.trailer);
}

/// Reading back one scope. Of every scope in the form in which the decoder
/// gives scopes: the bytes that the encoder writes for it hold the scope.
pub proof fn law_scope_read_back(registry: Seq<LayoutModel>, properties: Seq<PropertyModel>)
    requires
        scope_canonical(registry, properties),
    ensures
        parse_scope(registry, encode_scope(properties), 0, Seq::empty()) == Ok::<
            (Seq<PropertyModel>, int),
            ErrorModel,
        >((properties, encode_scope(properties).len() as int)),
{
    let bytes = encode_scope(properties);
    assert(bytes.subrange(0, bytes.len() as int) =~= bytes);
    lemma_scope_back(registry, properties, bytes, 0, Seq::empty());
    assert(Seq::<PropertyModel>::empty() + properties =~= properties);
}

/// An element in canonical form can be written.
pub proof fn lemma_element_fits(registry: Seq<LayoutModel>, tag: TypeTag, struct_type: TextModel, value: ValueModel)
    requires
        element_canonical(registry, tag, struct_type, value),
    ensures
        element_fits(value),
    decreases value, 0nat,
{
    reveal(flat_fits);
    match value {
        ValueModel::Struct { struct_type: own, guid, body } => match body {
            BodyModel::Fields(properties) => {
                lemma_scope_fits(registry, properties);
            },
            _ => {},
        },
        _ => {},
    }
}

/// Elements in canonical form can be written.
pub proof fn lemma_elements_fit(
    registry: Seq<LayoutModel>,
    tag: TypeTag,
    struct_type: TextModel,
    values: Seq<ValueModel>,
)
    requires
        elements_canonical(registry, tag, struct_type, values),
    ensures
        elements_fit(values),
    decreases values, 1nat,
{
    assert forall|i: int| 0 <= i < values.len() implies element_fits(#[trigger] values[i]) by {
        lemma_element_fits(registry, tag, struct_type, values[i]);
    }
}

/// Pairs in canonical form can be written.
pub proof fn lemma_pairs_fit(
    registry: Seq<LayoutModel>,
    key_tag: TypeTag,
    value_tag: TypeTag,
    pairs: Seq<(ValueModel, ValueModel)>,
)
    requires
        pairs_canonical(registry, key_tag, value_tag, pairs),
    ensures
        pairs_fit(pairs),
    decreases pairs, 1nat,
{
    assert forall|i: int| 0 <= i < pairs.len() implies element_fits((#[trigger] pairs[i]).0)
        && element_fits(pairs[i].1) by {
        lemma_element_fits(registry, key_tag, empty_text(), pairs[i].0);
        lemma_element_fits(registry, value_tag, empty_text(), pairs[i].1);
    }
}

/// A value in the canonical form of a property can be written.
pub proof fn lemma_value_fits(registry: Seq<LayoutModel>, tag: TypeTag, size: u64, value: ValueModel)
    requires
        value_canonical(registry, tag, size, value),
    ensures
        value_fits(value),
    decreases value, 3nat,
{
    reveal(flat_fits);
    match value {
        ValueModel::Struct { struct_type, guid, body } => match body {
            BodyModel::Fields(properties) => {
                lemma_scope_fits(registry, properties);
            },
            _ => {},
        },
        ValueModel::Array { element_tag, element_struct, elements } => {
            lemma_elements_fit(
                registry,
                element_tag,
                text_or(element_struct, empty_text()),
                elements,
            );
        },
        ValueModel::UniqueSet { element_tag, element_struct, elements } => {
            lemma_distinct_len(elements);
            lemma_elements_fit(
                registry,
                element_tag,
                text_or(element_struct, empty_text()),
                elements,
            );
        },
        ValueModel::Mapping { key_tag, value_tag, flags, entries } => {
            lemma_pairs_fit(registry, key_tag, value_tag, entries);
        },
        _ => {},
    }
}

/// A scope in canonical form can be written.
pub proof fn lemma_scope_fits(registry: Seq<LayoutModel>, properties: Seq<PropertyModel>)
    requires
        scope_canonical(registry, properties),
    ensures
        properties_fit(properties),
    decreases properties, 0nat,
{
    assert forall|i: int| 0 <= i < properties.len() implies text_fits(
        (#[trigger] properties[i]).name,
    ) && value_fits(properties[i].value) by {
        lemma_value_fits(registry, properties[i].tag, properties[i].size, properties[i].value);
    }
}

/// Writing what is in canonical form. Every document in canonical form can
/// be written: each length and each count in it fits its field.
pub proof fn law_canonical_fits(registry: Seq<LayoutModel>, document: DocumentModel)
    requires
        document_canonical(registry, document),
    ensures
        document_fits(document),
{
    lemma_scope_fits(registry, document.root);
}

} // verus!
