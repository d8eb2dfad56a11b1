//! Writing back what was read gives the bytes that were read.

use vstd::prelude::*;
use crate::cursor::{le_units, parse_bytes, parse_le, parse_text};
use crate::document::{
    document_fits, encode_document, encode_header, encode_version, encode_versions, parse_document,
    parse_header, parse_version, parse_versions, VersionModel,
};

use crate::format::{
    body_fits, encode_flat, flat_fits, element_fits, elements_fit, empty_text, encode_body,
    encode_element, encode_elements, encode_field, encode_fields, encode_pairs, encode_properties,
    encode_property, encode_scope, encode_sequence_header, encode_struct_body, encode_text,
    lemma_distinct_all, lemma_distinct_len, lemma_encode_distinct, pairs_fit, parse_body,
    parse_byte, parse_element, parse_elements, parse_enum, parse_field, parse_fields, parse_flat,
    parse_mapping, parse_pair, parse_pairs, parse_scope, parse_sequence, parse_simple,
    parse_struct, parse_struct_body, parse_tag, properties_fit, sentinel, sequence_header_fits,
    tag_of_from, tag_order, tag_text, text_fits, value_fits, wide_bytes,
};
use crate::registry::{find_layout, LayoutModel};
use crate::le::{
    as_signed, as_unsigned, le_bytes, le_value, lemma_le_bytes_of_value, lemma_le_value_bound,
    lemma_pow256_values, lemma_signed_round_trip, pow256,
};
use crate::text::TextModel;
use crate::tree::{BodyModel, FieldKind, FieldModel, PropertyModel, TypeTag, ValueModel};

verus! {

/// Two neighbouring stretches of a byte string make up the stretch over both.
pub proof fn lemma_join(bytes: Seq<u8>, start: int, middle: int, end: int)
    requires
        0 <= start <= middle <= end <= bytes.len(),
    ensures
        bytes.subrange(start, middle) + bytes.subrange(middle, end) == bytes.subrange(start, end),
{
    assert(bytes.subrange(start, middle) + bytes.subrange(middle, end) =~= bytes.subrange(
        start,
        end,
    ));
}

/// A number that was read is written back as the bytes it was read from.
pub proof fn lemma_le_round_trip(bytes: Seq<u8>, pos: int, width: nat)
    requires
        0 <= pos,
        parse_le(bytes, pos, width) is Ok,
    ensures
        parse_le(bytes, pos, width) matches Ok((value, end)) && end == pos + width && end
            <= bytes.len() && value < pow256(width) && le_bytes(value, width) == bytes.subrange(
            pos,
            end,
        ),
{
    let window = bytes.subrange(pos, pos + width);
    lemma_le_bytes_of_value(window);
    lemma_le_value_bound(window);
}

/// The same for a number that was read as two's complement.
pub proof fn lemma_signed_le_round_trip(bytes: Seq<u8>, pos: int, width: nat)
    requires
        0 <= pos,
        parse_le(bytes, pos, width) is Ok,
    ensures
        parse_le(bytes, pos, width) matches Ok((value, end)) && le_bytes(
            as_unsigned(as_signed(value, width), width),
            width,
        ) == bytes.subrange(pos, end) && -(pow256(width) as int) <= 2 * as_signed(value, width)
            < pow256(width),
{
    lemma_le_round_trip(bytes, pos, width);
    let value = parse_le(bytes, pos, width)->Ok_0.0;
    lemma_signed_round_trip(value, width);
}

/// A string of 16-bit units that was read is written back as its bytes.
pub proof fn lemma_wide_round_trip(bytes: Seq<u8>)
    requires
        bytes.len() % 2 == 0,
    ensures
        wide_bytes(le_units(bytes)) == bytes,
        le_units(bytes).len() == bytes.len() / 2,
    decreases bytes.len(),
{
    if bytes.len() == 0 {
        assert(wide_bytes(le_units(bytes)) =~= bytes);
    } else {
        let front = bytes.subrange(0, bytes.len() - 2);
        let units = le_units(bytes);
        lemma_wide_round_trip(front);
        assert(units.drop_last() =~= le_units(front)) by {
            assert forall|i: int| 0 <= i < units.len() - 1 implies units[i] == le_units(front)[i] by {
                assert(bytes.subrange(2 * i, 2 * i + 2) =~= front.subrange(2 * i, 2 * i + 2));
            }
        }
        let tail = bytes.subrange(bytes.len() - 2, bytes.len() as int);
        assert(tail =~= bytes.subrange(2 * (units.len() - 1), 2 * (units.len() - 1) + 2));
        lemma_le_bytes_of_value(tail);
        lemma_le_value_bound(tail);
        lemma_pow256_values();
        assert(units.last() as nat == le_value(tail));
        assert(front + tail =~= bytes);
    }
}

/// A text that was read is written back as the bytes it was read from, and
/// its length fits the prefix.
pub proof fn lemma_text_round_trip(bytes: Seq<u8>, pos: int)
    requires
        0 <= pos,
        parse_text(bytes, pos) is Ok,
    ensures
        parse_text(bytes, pos) matches Ok((text, end)) && pos + 4 <= end <= bytes.len()
            && text_fits(text) && encode_text(text) == bytes.subrange(pos, end),
{
    reveal(parse_text);
    lemma_pow256_values();
    lemma_le_round_trip(bytes, pos, 4);
    let raw = parse_le(bytes, pos, 4)->Ok_0.0;
    let body = pos + 4;
    let length = as_signed(raw, 4);
    lemma_signed_round_trip(raw, 4);
    if length >= 0 {
        let end = body + length;
        lemma_join(bytes, pos, body, end);
    } else {
        let end = body + 2 * -length;
        let units = bytes.subrange(body, end);
        lemma_wide_round_trip(units);
        lemma_join(bytes, pos, body, end);
    }
}

/// A text names the tag that was found for it.
pub proof fn lemma_tag_of(text: TextModel, from: int)
    requires
        0 <= from,
    ensures
        tag_of_from(text, from) matches Some(tag) ==> text == tag_text(tag),
    decreases tag_order().len() - from,
{
    if from < tag_order().len() && text != tag_text(tag_order()[from]) {
        lemma_tag_of(text, from + 1);
    }
}

/// A type tag that was read is written back as the bytes it was read from.
pub proof fn lemma_tag_round_trip(bytes: Seq<u8>, pos: int)
    requires
        0 <= pos,
        parse_tag(bytes, pos) is Ok,
    ensures
        parse_tag(bytes, pos) matches Ok((tag, end)) && pos + 4 <= end <= bytes.len() && encode_text(
            tag_text(tag),
        ) == bytes.subrange(pos, end),
{
    lemma_text_round_trip(bytes, pos);
    let text = parse_text(bytes, pos)->Ok_0.0;
    lemma_tag_of(text, 0);
}

/// A number or a text that was read as a value is written back, as an element
/// and as the body of a property alike, as the bytes it was read from.
pub proof fn lemma_simple_round_trip(tag: TypeTag, bytes: Seq<u8>, pos: int)
    requires
        0 <= pos,
        parse_simple(tag, bytes, pos) is Ok,
    ensures
        parse_simple(tag, bytes, pos) matches Ok((value, end)) && pos <= end <= bytes.len()
            && element_fits(value) && value_fits(value) && encode_element(value) == bytes.subrange(
            pos,
            end,
        ) && encode_body(value) == encode_element(value),
{
    reveal(parse_simple);
    reveal(encode_flat);
    reveal(flat_fits);
    lemma_pow256_values();
    match tag {
        TypeTag::Bool => {
            lemma_le_round_trip(bytes, pos, 1);
            let v = parse_le(bytes, pos, 1)->Ok_0.0;
            reveal_with_fuel(le_bytes, 2);
            assert(le_bytes(v, 1) =~= seq![v as u8]);
        },
        TypeTag::Int8 => {
            lemma_signed_le_round_trip(bytes, pos, 1);
        },
        TypeTag::Int16 => {
            lemma_signed_le_round_trip(bytes, pos, 2);
        },
        TypeTag::Int32 => {
            lemma_signed_le_round_trip(bytes, pos, 4);
        },
        TypeTag::Int64 => {
            lemma_signed_le_round_trip(bytes, pos, 8);
        },
        TypeTag::UInt16 => {
            lemma_le_round_trip(bytes, pos, 2);
        },
        TypeTag::UInt32 => {
            lemma_le_round_trip(bytes, pos, 4);
        },
        TypeTag::UInt64 => {
            lemma_le_round_trip(bytes, pos, 8);
        },
        TypeTag::Float => {
            lemma_le_round_trip(bytes, pos, 4);
        },
        TypeTag::Double => {
            lemma_le_round_trip(bytes, pos, 8);
        },
        TypeTag::Str | TypeTag::Name | TypeTag::Text => {
            lemma_text_round_trip(bytes, pos);
        },
        _ => {},
    }
}

/// A field that was read is written back as the bytes it was read from.
pub proof fn lemma_field_round_trip(kind: FieldKind, bytes: Seq<u8>, pos: int)
    requires
        0 <= pos,
        parse_field(kind, bytes, pos) is Ok,
    ensures
        parse_field(kind, bytes, pos) matches Ok((field, end)) && pos <= end <= bytes.len()
            && encode_field(field) == bytes.subrange(pos, end),
{
    lemma_pow256_values();
    match kind {
        FieldKind::Float32 => {
            lemma_le_round_trip(bytes, pos, 4);
        },
        FieldKind::Float64 => {
            lemma_le_round_trip(bytes, pos, 8);
        },
        FieldKind::Int32 => {
            lemma_signed_le_round_trip(bytes, pos, 4);
        },
        FieldKind::Int64 => {
            lemma_signed_le_round_trip(bytes, pos, 8);
        },
        FieldKind::Guid => {},
    }
}

/// Fields that were read are written back as the bytes they were read from.
pub proof fn lemma_fields_round_trip(layout: Seq<FieldKind>, bytes: Seq<u8>, pos: int, done: Seq<FieldModel>)
    requires
        0 <= pos <= bytes.len(),
        parse_fields(layout, bytes, pos, done) is Ok,
    ensures
        parse_fields(layout, bytes, pos, done) matches Ok((fields, end)) && pos <= end <= bytes.len()
            && encode_fields(fields) == encode_fields(done) + bytes.subrange(pos, end),
    decreases layout.len() - done.len(),
{
    if done.len() >= layout.len() {
        assert(encode_fields(done) + bytes.subrange(pos, pos) =~= encode_fields(done));
    } else {
        lemma_field_round_trip(layout[done.len() as int], bytes, pos);
        let (field, middle) = parse_field(layout[done.len() as int], bytes, pos)->Ok_0;
        lemma_fields_round_trip(layout, bytes, middle, done.push(field));
        let end = parse_fields(layout, bytes, pos, done)->Ok_0.1;
        assert(done.push(field).drop_last() =~= done);
        lemma_join(bytes, pos, middle, end);
        assert(encode_fields(done) + bytes.subrange(pos, middle) + bytes.subrange(middle, end)
            =~= encode_fields(done) + (bytes.subrange(pos, middle) + bytes.subrange(middle, end)));
    }
}

/// The body of an enum property that was read is written back as its bytes.
pub proof fn lemma_enum_round_trip(bytes: Seq<u8>, pos: int)
    requires
        0 <= pos,
        parse_enum(bytes, pos) is Ok,
    ensures
        parse_enum(bytes, pos) matches Ok((value, end)) && pos <= end <= bytes.len() && value_fits(value)
            && encode_body(value) == bytes.subrange(pos, end),
{
    lemma_text_round_trip(bytes, pos);
    let middle = parse_text(bytes, pos)->Ok_0.1;
    lemma_text_round_trip(bytes, middle);
    let end = parse_text(bytes, middle)->Ok_0.1;
    lemma_join(bytes, pos, middle, end);
}

/// The body of a byte property that was read is written back as its bytes.
pub proof fn lemma_byte_round_trip(bytes: Seq<u8>, pos: int)
    requires
        0 <= pos,
        parse_byte(bytes, pos) is Ok,
    ensures
        parse_byte(bytes, pos) matches Ok((value, end)) && pos <= end <= bytes.len() && value_fits(value)
            && encode_body(value) == bytes.subrange(pos, end),
{
    lemma_pow256_values();
    lemma_text_round_trip(bytes, pos);
    let (name, middle) = parse_text(bytes, pos)->Ok_0;
    if name == sentinel() {
        lemma_le_round_trip(bytes, middle, 1);
        let (v, end) = parse_le(bytes, middle, 1)->Ok_0;
        reveal_with_fuel(le_bytes, 2);
        assert(le_bytes(v, 1) =~= seq![v as u8]);
        lemma_join(bytes, pos, middle, end);
    } else {
        lemma_text_round_trip(bytes, middle);
        let end = parse_text(bytes, middle)->Ok_0.1;
        lemma_join(bytes, pos, middle, end);
    }
}

/// Whether no set in a value holds an element twice.
pub open spec fn value_repeat_free(value: ValueModel) -> bool
    decreases value, 0nat,
{
    match value {
        ValueModel::Struct { struct_type, guid, body } => body_repeat_free(body),
        ValueModel::Array { element_tag, element_struct, elements } => values_repeat_free(elements),
        ValueModel::UniqueSet { element_tag, element_struct, elements } => elements.no_duplicates()
            && values_repeat_free(elements),
        ValueModel::Mapping { key_tag, value_tag, flags, entries } => pairs_repeat_free(entries),
        _ => true,
    }
}

/// Whether no set in any of the values holds an element twice.
pub open spec fn values_repeat_free(values: Seq<ValueModel>) -> bool
    decreases values, 0nat,
{
    forall|i: int| 0 <= i < values.len() ==> value_repeat_free(#[trigger] values[i])
}

/// Whether no set in any key or value holds an element twice.
pub open spec fn pairs_repeat_free(pairs: Seq<(ValueModel, ValueModel)>) -> bool
    decreases pairs, 0nat,
{
    forall|i: int|
        0 <= i < pairs.len() ==> value_repeat_free((#[trigger] pairs[i]).0) && value_repeat_free(
            pairs[i].1,
        )
}

/// Whether no set in a struct body holds an element twice.
pub open spec fn body_repeat_free(body: BodyModel) -> bool
    decreases body, 0nat,
{
    match body {
        BodyModel::Fields(properties) => properties_repeat_free(properties),
        _ => true,
    }
}

/// Whether no set in any of the properties holds an element twice.
pub open spec fn properties_repeat_free(properties: Seq<PropertyModel>) -> bool
    decreases properties, 0nat,
{
    forall|i: int| 0 <= i < properties.len() ==> value_repeat_free((#[trigger] properties[i]).value)
}

/// Whether `all` starts with the values of `done`.
pub open spec fn starts_with<T>(all: Seq<T>, done: Seq<T>) -> bool {
    &&& done.len() <= all.len()
    &&& forall|i: int| 0 <= i < done.len() ==> all[i] == done[i]
}

/// A sequence that starts with `done` and one more value starts with `done`
/// and has that value behind it.
pub proof fn lemma_starts_with_push<T>(all: Seq<T>, done: Seq<T>, value: T)
    requires
        starts_with(all, done.push(value)),
    ensures
        starts_with(all, done),
        all[done.len() as int] == value,
{
    assert(all[done.len() as int] == done.push(value)[done.len() as int]);
    assert forall|i: int| 0 <= i < done.len() implies all[i] == done[i] by {
        assert(all[i] == done.push(value)[i]);
    }
}

/// Elements that fit, with one more that fits, fit.
pub proof fn lemma_elements_fit_push(done: Seq<ValueModel>, value: ValueModel)
    requires
        elements_fit(done),
        element_fits(value),
    ensures
        elements_fit(done.push(value)),
{
    let next = done.push(value);
    assert forall|i: int| 0 <= i < next.len() implies element_fits(#[trigger] next[i]) by {
        if i < done.len() {
            assert(next[i] == done[i]);
        }
    }
}

/// The bytes of elements and one more are the bytes of the elements, then
/// those of the one.
pub proof fn lemma_encode_elements_push(done: Seq<ValueModel>, value: ValueModel)
    ensures
        encode_elements(done.push(value)) == encode_elements(done) + encode_element(value),
{
    assert(done.push(value).drop_last() =~= done);
}

/// Pairs that fit, with one more that fits, fit.
pub proof fn lemma_pairs_fit_push(done: Seq<(ValueModel, ValueModel)>, pair: (ValueModel, ValueModel))
    requires
        pairs_fit(done),
        element_fits(pair.0),
        element_fits(pair.1),
    ensures
        pairs_fit(done.push(pair)),
{
    let next = done.push(pair);
    assert forall|i: int| 0 <= i < next.len() implies element_fits((#[trigger] next[i]).0)
        && element_fits(next[i].1) by {
        if i < done.len() {
            assert(next[i] == done[i]);
        }
    }
}

/// The bytes of pairs and one more are the bytes of the pairs, then those of
/// the one.
pub proof fn lemma_encode_pairs_push(done: Seq<(ValueModel, ValueModel)>, pair: (ValueModel, ValueModel))
    ensures
        encode_pairs(done.push(pair)) == encode_pairs(done) + encode_element(pair.0) + encode_element(
            pair.1,
        ),
{
    assert(done.push(pair).drop_last() =~= done);
}

/// Properties that fit, with one more that fits, fit.
pub proof fn lemma_properties_fit_push(done: Seq<PropertyModel>, property: PropertyModel)
    requires
        properties_fit(done),
        text_fits(property.name),
        value_fits(property.value),
    ensures
        properties_fit(done.push(property)),
{
    let next = done.push(property);
    assert forall|i: int| 0 <= i < next.len() implies text_fits((#[trigger] next[i]).name)
        && value_fits(next[i].value) by {
        if i < done.len() {
            assert(next[i] == done[i]);
        }
    }
}

/// The bytes of properties and one more are the bytes of the properties, then
/// those of the one.
pub proof fn lemma_encode_properties_push(done: Seq<PropertyModel>, property: PropertyModel)
    ensures
        encode_properties(done.push(property)) == encode_properties(done) + encode_property(property),
{
    assert(done.push(property).drop_last() =~= done);
}

/// Three stretches put together in either grouping are the same bytes.
pub proof fn lemma_concat3(a: Seq<u8>, b: Seq<u8>, c: Seq<u8>)
    ensures
        a + b + c == a + (b + c),
{
    assert(a + b + c =~= a + (b + c));
}

/// An element that is no struct, once read, can be written, and is written
/// back as the bytes it was read from.
pub proof fn lemma_flat_round_trip(tag: TypeTag, bytes: Seq<u8>, pos: int)
    requires
        0 <= pos,
        parse_flat(tag, bytes, pos) is Ok,
    ensures
        parse_flat(tag, bytes, pos) matches Ok((value, end)) && pos <= end <= bytes.len()
            && !(value is Struct) && flat_fits(value) && value_repeat_free(value) && encode_flat(value)
            == bytes.subrange(pos, end),
{
    reveal(parse_flat);
    reveal(parse_simple);
    reveal(encode_flat);
    reveal(flat_fits);
    lemma_pow256_values();
    match tag {
        TypeTag::Enum => {
            lemma_text_round_trip(bytes, pos);
        },
        TypeTag::Byte => {
            lemma_le_round_trip(bytes, pos, 1);
            let v = parse_le(bytes, pos, 1)->Ok_0.0;
            reveal_with_fuel(le_bytes, 2);
            assert(le_bytes(v, 1) =~= seq![v as u8]);
        },
        TypeTag::Struct | TypeTag::Array | TypeTag::Mapping | TypeTag::UniqueSet => {},
        _ => {
            lemma_simple_round_trip(tag, bytes, pos);
        },
    }
}

/// An element that was read can be written, and is written back as the bytes
/// it was read from.
pub proof fn lemma_element_round_trip(
    registry: Seq<LayoutModel>,
    tag: TypeTag,
    struct_type: TextModel,
    bytes: Seq<u8>,
    pos: int,
)
    requires
        0 <= pos <= bytes.len(),
        parse_element(registry, tag, struct_type, bytes, pos) is Ok,
    ensures
        parse_element(registry, tag, struct_type, bytes, pos) matches Ok((value, end)) && pos <= end
            <= bytes.len() && element_fits(value) && (value_repeat_free(value) ==> encode_element(
            value,
        ) == bytes.subrange(pos, end)),
    decreases bytes.len() - pos, 1int, 0nat,
{
    if tag == TypeTag::Struct {
        match find_layout(registry, struct_type) {
            Some(layout) => {
                lemma_fields_round_trip(layout, bytes, pos, Seq::empty());
                let (fields, end) = parse_fields(layout, bytes, pos, Seq::empty())->Ok_0;
                assert(encode_fields(Seq::empty()) + bytes.subrange(pos, end) =~= bytes.subrange(
                    pos,
                    end,
                ));
            },
            None => {
                lemma_scope_round_trip(registry, bytes, pos, Seq::empty());
                let (properties, end) = parse_scope(registry, bytes, pos, Seq::empty())->Ok_0;
                assert(encode_properties(Seq::empty()) + bytes.subrange(pos, end) =~= bytes.subrange(
                    pos,
                    end,
                ));
            },
        }
    } else {
        lemma_flat_round_trip(tag, bytes, pos);
    }
}

/// Elements that were read can be written, and are written back as the bytes
/// they were read from.
pub proof fn lemma_elements_round_trip(
    registry: Seq<LayoutModel>,
    tag: TypeTag,
    struct_type: TextModel,
    bytes: Seq<u8>,
    pos: int,
    count: nat,
    done: Seq<ValueModel>,
)
    requires
        0 <= pos <= bytes.len(),
        parse_elements(registry, tag, struct_type, bytes, pos, count, done) is Ok,
    ensures
        parse_elements(registry, tag, struct_type, bytes, pos, count, done) matches Ok((values, end))
            && pos <= end <= bytes.len() && values.len() == done.len() + count && starts_with(
            values,
            done,
        ) && (elements_fit(done) ==> elements_fit(values)) && (values_repeat_free(values)
            ==> encode_elements(values) == encode_elements(done) + bytes.subrange(pos, end)),
    decreases bytes.len() - pos, 3int, count,
{
    if count == 0 {
        assert(encode_elements(done) + bytes.subrange(pos, pos) =~= encode_elements(done));
    } else {
        lemma_element_round_trip(registry, tag, struct_type, bytes, pos);
        let (element, middle) = parse_element(registry, tag, struct_type, bytes, pos)->Ok_0;
        let next = done.push(element);
        lemma_elements_round_trip(registry, tag, struct_type, bytes, middle, (count - 1) as nat, next);
        let (values, end) = parse_elements(registry, tag, struct_type, bytes, pos, count, done)->Ok_0;
        lemma_starts_with_push(values, done, element);
        if elements_fit(done) {
            lemma_elements_fit_push(done, element);
        }
        if values_repeat_free(values) {
            assert(value_repeat_free(values[done.len() as int]));
            lemma_encode_elements_push(done, element);
            lemma_join(bytes, pos, middle, end);
            lemma_concat3(encode_elements(done), bytes.subrange(pos, middle), bytes.subrange(middle, end));
        }
    }
}

/// A pair that was read can be written, and is written back as its bytes.
pub proof fn lemma_pair_round_trip(
    registry: Seq<LayoutModel>,
    key_tag: TypeTag,
    value_tag: TypeTag,
    bytes: Seq<u8>,
    pos: int,
)
    requires
        0 <= pos <= bytes.len(),
        parse_pair(registry, key_tag, value_tag, bytes, pos) is Ok,
    ensures
        parse_pair(registry, key_tag, value_tag, bytes, pos) matches Ok((pair, end)) && pos <= end
            <= bytes.len() && element_fits(pair.0) && element_fits(pair.1) && (value_repeat_free(
            pair.0,
        ) && value_repeat_free(pair.1) ==> encode_element(pair.0) + encode_element(pair.1)
            == bytes.subrange(pos, end)),
    decreases bytes.len() - pos, 2int, 0nat,
{
    lemma_element_round_trip(registry, key_tag, empty_text(), bytes, pos);
    let (key, middle) = parse_element(registry, key_tag, empty_text(), bytes, pos)->Ok_0;
    lemma_element_round_trip(registry, value_tag, empty_text(), bytes, middle);
    let (value, end) = parse_element(registry, value_tag, empty_text(), bytes, middle)->Ok_0;
    lemma_join(bytes, pos, middle, end);
}

/// Pairs that were read can be written, and are written back as their bytes.
pub proof fn lemma_pairs_round_trip(
    registry: Seq<LayoutModel>,
    key_tag: TypeTag,
    value_tag: TypeTag,
    bytes: Seq<u8>,
    pos: int,
    count: nat,
    done: Seq<(ValueModel, ValueModel)>,
)
    requires
        0 <= pos <= bytes.len(),
        parse_pairs(registry, key_tag, value_tag, bytes, pos, count, done) is Ok,
    ensures
        parse_pairs(registry, key_tag, value_tag, bytes, pos, count, done) matches Ok((pairs, end))
            && pos <= end <= bytes.len() && pairs.len() == done.len() + count && starts_with(
            pairs,
            done,
        ) && (pairs_fit(done) ==> pairs_fit(pairs)) && (pairs_repeat_free(pairs) ==> encode_pairs(
            pairs,
        ) == encode_pairs(done) + bytes.subrange(pos, end)),
    decreases bytes.len() - pos, 3int, count,
{
    if count == 0 {
        assert(encode_pairs(done) + bytes.subrange(pos, pos) =~= encode_pairs(done));
    } else {
        lemma_pair_round_trip(registry, key_tag, value_tag, bytes, pos);
        let (pair, middle) = parse_pair(registry, key_tag, value_tag, bytes, pos)->Ok_0;
        let next = done.push(pair);
        lemma_pairs_round_trip(registry, key_tag, value_tag, bytes, middle, (count - 1) as nat, next);
        let (pairs, end) = parse_pairs(registry, key_tag, value_tag, bytes, pos, count, done)->Ok_0;
        lemma_starts_with_push(pairs, done, pair);
        if pairs_fit(done) {
            lemma_pairs_fit_push(done, pair);
        }
        if pairs_repeat_free(pairs) {
            assert(value_repeat_free(pairs[done.len() as int].0) && value_repeat_free(
                pairs[done.len() as int].1,
            ));
            lemma_encode_pairs_push(done, pair);
            lemma_join(bytes, pos, middle, end);
            lemma_concat3(encode_pairs(done), encode_element(pair.0), encode_element(pair.1));
            lemma_concat3(encode_pairs(done), bytes.subrange(pos, middle), bytes.subrange(middle, end));
        }
    }
}

/// What the payload of a struct was read as can be written, and is written
/// back as the payload.
pub proof fn lemma_struct_body_round_trip(registry: Seq<LayoutModel>, struct_type: TextModel, payload: Seq<u8>)
    ensures
        body_fits(parse_struct_body(registry, struct_type, payload)),
        body_repeat_free(parse_struct_body(registry, struct_type, payload)) ==> encode_struct_body(
            parse_struct_body(registry, struct_type, payload),
        ) == payload,
    decreases payload.len(), 4int, 0nat,
{
    match find_layout(registry, struct_type) {
        Some(layout) => {
            if parse_fields(layout, payload, 0, Seq::empty()) is Ok {
                lemma_fields_round_trip(layout, payload, 0, Seq::empty());
                assert(encode_fields(Seq::empty()) + payload.subrange(0, payload.len() as int)
                    =~= payload);
            }
        },
        None => {
            if parse_scope(registry, payload, 0, Seq::empty()) is Ok {
                lemma_scope_round_trip(registry, payload, 0, Seq::empty());
                assert(encode_properties(Seq::empty()) + payload.subrange(0, payload.len() as int)
                    =~= payload);
            }
        },
    }
}

/// The header and elements of an array or a set that were read can be
/// written, and are written back as their bytes.
pub proof fn lemma_sequence_round_trip(registry: Seq<LayoutModel>, bytes: Seq<u8>, pos: int)
    requires
        0 <= pos <= bytes.len(),
        parse_sequence(registry, bytes, pos) is Ok,
    ensures
        parse_sequence(registry, bytes, pos) matches Ok(((tag, element_struct, elements), end)) && pos
            <= end <= bytes.len() && sequence_header_fits(tag, element_struct, elements.len())
            && elements_fit(elements) && (values_repeat_free(elements) ==> encode_sequence_header(
            tag,
            element_struct,
            elements.len(),
        ) + encode_elements(elements) == bytes.subrange(pos, end)),
    decreases bytes.len() - pos, 4int, 0nat,
{
    lemma_pow256_values();
    lemma_tag_round_trip(bytes, pos);
    let (tag, at1) = parse_tag(bytes, pos)->Ok_0;
    lemma_le_round_trip(bytes, at1, 4);
    let (count, at2) = parse_le(bytes, at1, 4)->Ok_0;
    lemma_join(bytes, pos, at1, at2);
    if tag == TypeTag::Struct {
        lemma_text_round_trip(bytes, at2);
        let (struct_type, at3) = parse_text(bytes, at2)->Ok_0;
        lemma_elements_round_trip(registry, tag, struct_type, bytes, at3, count, Seq::empty());
        let (elements, end) = parse_elements(registry, tag, struct_type, bytes, at3, count, Seq::empty())->Ok_0;
        lemma_join(bytes, pos, at2, at3);
        lemma_join(bytes, pos, at3, end);
        assert(encode_elements(Seq::empty()) + bytes.subrange(at3, end) =~= bytes.subrange(at3, end));
        assert(encode_sequence_header(tag, Some(struct_type), elements.len()) =~= bytes.subrange(pos, at3));
    } else {
        lemma_elements_round_trip(registry, tag, empty_text(), bytes, at2, count, Seq::empty());
        let (elements, end) = parse_elements(registry, tag, empty_text(), bytes, at2, count, Seq::empty())->Ok_0;
        lemma_join(bytes, pos, at2, end);
        assert(encode_elements(Seq::empty()) + bytes.subrange(at2, end) =~= bytes.subrange(at2, end));
        assert(encode_sequence_header(tag, None, elements.len()) =~= bytes.subrange(pos, at2));
    }
}

/// The body of a struct property that was read can be written, and is
/// written back as its bytes.
pub proof fn lemma_struct_round_trip(registry: Seq<LayoutModel>, size: u64, bytes: Seq<u8>, pos: int)
    requires
        0 <= pos <= bytes.len(),
        parse_struct(registry, size, bytes, pos) is Ok,
    ensures
        parse_struct(registry, size, bytes, pos) matches Ok((value, end)) && pos <= end <= bytes.len()
            && value_fits(value) && (value_repeat_free(value) ==> encode_body(value)
            == bytes.subrange(pos, end)),
    decreases bytes.len() - pos, 4int, 0nat,
{
    lemma_text_round_trip(bytes, pos);
    let (struct_type, at1) = parse_text(bytes, pos)->Ok_0;
    let (guid, at2) = parse_bytes(bytes, at1, 16)->Ok_0;
    let (payload, end) = parse_bytes(bytes, at2, size as nat)->Ok_0;
    lemma_struct_body_round_trip(registry, struct_type, payload);
    lemma_join(bytes, pos, at1, at2);
    lemma_join(bytes, pos, at2, end);
}

/// The body of a map property that was read can be written, and is written
/// back as its bytes.
pub proof fn lemma_mapping_round_trip(registry: Seq<LayoutModel>, bytes: Seq<u8>, pos: int)
    requires
        0 <= pos <= bytes.len(),
        parse_mapping(registry, bytes, pos) is Ok,
    ensures
        parse_mapping(registry, bytes, pos) matches Ok((value, end)) && pos <= end <= bytes.len()
            && value_fits(value) && (value_repeat_free(value) ==> encode_body(value)
            == bytes.subrange(pos, end)),
    decreases bytes.len() - pos, 4int, 0nat,
{
    lemma_pow256_values();
    lemma_tag_round_trip(bytes, pos);
    let (key_tag, at1) = parse_tag(bytes, pos)->Ok_0;
    lemma_tag_round_trip(bytes, at1);
    let (value_tag, at2) = parse_tag(bytes, at1)->Ok_0;
    lemma_le_round_trip(bytes, at2, 4);
    let (flags, at3) = parse_le(bytes, at2, 4)->Ok_0;
    lemma_le_round_trip(bytes, at3, 4);
    let (count, at4) = parse_le(bytes, at3, 4)->Ok_0;
    lemma_pairs_round_trip(registry, key_tag, value_tag, bytes, at4, count, Seq::empty());
    let (entries, end) = parse_pairs(registry, key_tag, value_tag, bytes, at4, count, Seq::empty())->Ok_0;
    lemma_join(bytes, pos, at1, at2);
    lemma_join(bytes, pos, at2, at3);
    lemma_join(bytes, pos, at3, at4);
    lemma_join(bytes, pos, at4, end);
    assert(encode_pairs(Seq::empty()) + bytes.subrange(at4, end) =~= bytes.subrange(at4, end));
}

/// What follows the declared size of a property that was read can be
/// written, and is written back as its bytes.
pub proof fn lemma_body_round_trip(registry: Seq<LayoutModel>, tag: TypeTag, size: u64, bytes: Seq<u8>, pos: int)
    requires
        0 <= pos <= bytes.len(),
        parse_body(registry, tag, size, bytes, pos) is Ok,
    ensures
        parse_body(registry, tag, size, bytes, pos) matches Ok((value, end)) && pos <= end
            <= bytes.len() && value_fits(value) && (value_repeat_free(value) ==> encode_body(value)
            == bytes.subrange(pos, end)),
    decreases bytes.len() - pos, 5int, 0nat,
{
    match tag {
        TypeTag::Enum => {
            lemma_enum_round_trip(bytes, pos);
        },
        TypeTag::Byte => {
            lemma_byte_round_trip(bytes, pos);
        },
        TypeTag::Struct => {
            lemma_struct_round_trip(registry, size, bytes, pos);
        },
        TypeTag::Array => {
            lemma_sequence_round_trip(registry, bytes, pos);
        },
        TypeTag::UniqueSet => {
            lemma_sequence_round_trip(registry, bytes, pos);
            let ((element_tag, element_struct, elements), end) = parse_sequence(registry, bytes, pos)->Ok_0;
            lemma_distinct_len(elements);
            lemma_encode_distinct(elements);
            if elements.no_duplicates() {
                lemma_distinct_all(elements);
            }
        },
        TypeTag::Mapping => {
            lemma_mapping_round_trip(registry, bytes, pos);
        },
        _ => {
            lemma_simple_round_trip(tag, bytes, pos);
        },
    }
}

/// The properties of a scope that were read can be written, and are written
/// back, with the name that ends the scope, as the bytes they were read from.
pub proof fn lemma_scope_round_trip(registry: Seq<LayoutModel>, bytes: Seq<u8>, pos: int, done: Seq<PropertyModel>)
    requires
        0 <= pos <= bytes.len(),
        parse_scope(registry, bytes, pos, done) is Ok,
    ensures
        parse_scope(registry, bytes, pos, done) matches Ok((properties, end)) && pos <= end
            <= bytes.len() && starts_with(properties, done) && (properties_fit(done) ==> properties_fit(
            properties,
        )) && (properties_repeat_free(properties) ==> encode_scope(properties) == encode_properties(
            done,
        ) + bytes.subrange(pos, end)),
    decreases bytes.len() - pos, 0int, 0nat,
{
    lemma_pow256_values();
    lemma_text_round_trip(bytes, pos);
    let (name, at1) = parse_text(bytes, pos)->Ok_0;
    if name == sentinel() {
    } else {
        lemma_tag_round_trip(bytes, at1);
        let (tag, at2) = parse_tag(bytes, at1)->Ok_0;
        lemma_le_round_trip(bytes, at2, 8);
        let (size, at3) = parse_le(bytes, at2, 8)->Ok_0;
        lemma_body_round_trip(registry, tag, size as u64, bytes, at3);
        let (value, at4) = parse_body(registry, tag, size as u64, bytes, at3)->Ok_0;
        let property = PropertyModel { name, tag, size: size as u64, value };
        let next = done.push(property);
        lemma_scope_round_trip(registry, bytes, at4, next);
        let (properties, end) = parse_scope(registry, bytes, pos, done)->Ok_0;
        lemma_starts_with_push(properties, done, property);
        if properties_fit(done) {
            lemma_properties_fit_push(done, property);
        }
        if properties_repeat_free(properties) {
            assert(value_repeat_free(properties[done.len() as int].value));
            lemma_encode_properties_push(done, property);
            lemma_join(bytes, pos, at1, at2);
            lemma_join(bytes, pos, at2, at3);
            lemma_join(bytes, pos, at3, at4);
            lemma_join(bytes, pos, at4, end);
            assert(encode_property(property) =~= bytes.subrange(pos, at4));
            lemma_concat3(encode_properties(done), bytes.subrange(pos, at4), bytes.subrange(at4, end));
        }
    }
}

/// Custom versions that were read are written back as the bytes they were
/// read from.
pub proof fn lemma_versions_round_trip(bytes: Seq<u8>, pos: int, count: nat, done: Seq<VersionModel>)
    requires
        0 <= pos <= bytes.len(),
        parse_versions(bytes, pos, count, done) is Ok,
    ensures
        parse_versions(bytes, pos, count, done) matches Ok((versions, end)) && pos <= end
            <= bytes.len() && versions.len() == done.len() + count && encode_versions(versions)
            == encode_versions(done) + bytes.subrange(pos, end),
    decreases count,
{
    if count == 0 {
        assert(encode_versions(done) + bytes.subrange(pos, pos) =~= encode_versions(done));
    } else {
        lemma_pow256_values();
        let (id, at1) = parse_bytes(bytes, pos, 16)->Ok_0;
        lemma_signed_le_round_trip(bytes, at1, 4);
        let (version, middle) = parse_version(bytes, pos)->Ok_0;
        lemma_join(bytes, pos, at1, middle);
        assert(encode_version(version) == bytes.subrange(pos, middle));
        let next = done.push(version);
        lemma_versions_round_trip(bytes, middle, (count - 1) as nat, next);
        let end = parse_versions(bytes, pos, count, done)->Ok_0.1;
        assert(next.drop_last() =~= done);
        lemma_join(bytes, pos, middle, end);
        lemma_concat3(encode_versions(done), bytes.subrange(pos, middle), bytes.subrange(middle, end));
    }
}

/// A header that was read is written back as the bytes it was read from.
pub proof fn lemma_header_round_trip(bytes: Seq<u8>, pos: int)
    requires
        0 <= pos <= bytes.len(),
        parse_header(bytes, pos) is Ok,
    ensures
        parse_header(bytes, pos) matches Ok((header, end)) && pos <= end <= bytes.len()
            && header.custom_versions.len() <= u32::MAX && encode_header(header) == bytes.subrange(
            pos,
            end,
        ),
{
    lemma_pow256_values();
    lemma_le_round_trip(bytes, pos, 2);
    let at1 = pos + 2;
    lemma_le_round_trip(bytes, at1, 2);
    let at2 = at1 + 2;
    lemma_le_round_trip(bytes, at2, 2);
    let at3 = at2 + 2;
    lemma_le_round_trip(bytes, at3, 4);
    let (count, at4) = parse_le(bytes, at3, 4)->Ok_0;
    lemma_versions_round_trip(bytes, at4, count, Seq::empty());
    let end = parse_versions(bytes, at4, count, Seq::empty())->Ok_0.1;
    lemma_join(bytes, pos, at1, at2);
    lemma_join(bytes, pos, at2, at3);
    lemma_join(bytes, pos, at3, at4);
    lemma_join(bytes, pos, at4, end);
    assert(encode_versions(Seq::empty()) + bytes.subrange(at4, end) =~= bytes.subrange(at4, end));
}

/// Round trip. Of every byte string that holds a document in which no set
/// holds an element twice: the document can be written, writing it gives the
/// byte string again, and what was written holds the same document.
pub proof fn law_round_trip(registry: Seq<LayoutModel>, bytes: Seq<u8>)
    requires
        parse_document(registry, bytes) is Ok,
        properties_repeat_free(parse_document(registry, bytes)->Ok_0.root),
    ensures
        document_fits(parse_document(registry, bytes)->Ok_0),
        encode_document(parse_document(registry, bytes)->Ok_0) == bytes,
        parse_document(registry, encode_document(parse_document(registry, bytes)->Ok_0))
            == parse_document(registry, bytes),
{
    lemma_header_round_trip(bytes, 0);
    let (header, start) = parse_header(bytes, 0)->Ok_0;
    lemma_scope_round_trip(registry, bytes, start, Seq::empty());
    let (root, end) = parse_scope(registry, bytes, start, Seq::empty())->Ok_0;
    assert(encode_properties(Seq::empty()) + bytes.subrange(start, end) =~= bytes.subrange(
        start,
        end,
    ));
    lemma_join(bytes, 0, start, end);
    lemma_join(bytes, 0, end, bytes.len() as int);
    assert(bytes.subrange(0, bytes.len() as int) =~= bytes);
}

/// Round trip of one scope. Of every byte string that holds, from its start,
/// a scope in which no set holds an element twice: the scope can be written,
/// and writing it gives the bytes it was read from.
pub proof fn law_scope_round_trip(registry: Seq<LayoutModel>, bytes: Seq<u8>)
    requires
        parse_scope(registry, bytes, 0, Seq::empty()) is Ok,
        properties_repeat_free(parse_scope(registry, bytes, 0, Seq::empty())->Ok_0.0),
    ensures
        parse_scope(registry, bytes, 0, Seq::empty()) matches Ok((properties, end)) && 0 <= end
            <= bytes.len() && properties_fit(properties) && encode_scope(properties)
            == bytes.subrange(0, end),
{
    lemma_scope_round_trip(registry, bytes, 0, Seq::empty());
    let (root, end) = parse_scope(registry, bytes, 0, Seq::empty())->Ok_0;
    assert(encode_properties(Seq::empty()) + bytes.subrange(0, end) =~= bytes.subrange(0, end));
}

/// Containment. A struct property whose type name and identifier can be read
/// and whose declared payload lies inside the bytes is read whatever the
/// payload holds, and is written back as the bytes it was read from where no
/// set in it holds an element twice.
pub proof fn law_struct_contained(registry: Seq<LayoutModel>, size: u64, bytes: Seq<u8>, pos: int)
    requires
        0 <= pos <= bytes.len(),
        parse_text(bytes, pos) is Ok,
        bytes.len() - parse_text(bytes, pos)->Ok_0.1 >= 16 + size,
    ensures
        parse_struct(registry, size, bytes, pos) matches Ok((value, end)) && end == parse_text(
            bytes,
            pos,
        )->Ok_0.1 + 16 + size && value_fits(value) && (value_repeat_free(value) ==> encode_body(value)
            == bytes.subrange(pos, end)),
{
    lemma_struct_round_trip(registry, size, bytes, pos);
}

} // verus!
