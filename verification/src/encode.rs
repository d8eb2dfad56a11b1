//! The encoder: from the property tree to the bytes of a property stream.

use vstd::prelude::*;
use crate::compare::same_value;
use crate::format::{
    body_fits, distinct, encode_flat, flat_fits, element_fits, elements_fit, empty_text,
    encode_body, encode_distinct, encode_element, encode_elements, encode_field, encode_fields,
    encode_pairs, encode_properties, encode_property, encode_scope, encode_sequence_header,
    encode_struct_body, encode_text, guid_bytes, lemma_text_len, payload_len, text_len,
    lemma_distinct_contains, lemma_distinct_fit, lemma_encode_distinct, lemma_name_lengths,
    pairs_fit, properties_fit, sentinel, sequence_header_fits, tag_text, text_fits, text_or,
    value_fits, wide_bytes,
};
use crate::le::{
    le_bytes, lemma_pow256_values, unsigned16, unsigned32, unsigned64, unsigned8, write_le,
};
use crate::text::{Text, TextModel};
use crate::tree::{
    fields_model, optional_text, pairs_model, properties_model, value_model, values_model,
    FieldValue, Property, PropertyTree, PropertyValue, StructBody, TypeTag, ValueModel,
};

verus! {

/// Appends a text, if its unit count can be written as the length prefix.
pub fn write_text(text: &Text, out: &mut Vec<u8>) -> (ok: bool)
    ensures
        ok == text_fits(text@),
        ok ==> final(out)@ == old(out)@ + encode_text(text@),
        !ok ==> final(out)@ == old(out)@,
{
    proof {
        lemma_pow256_values();
    }
    match text {
        Text::Narrow(units) => {
            if units.len() > 0x7fff_ffff {
                return false;
            }
            write_le(out, units.len() as u64, 4);
            out.extend_from_slice(units.as_slice());
            assert(out@ =~= old(out)@ + encode_text(text@));
            true
        },
        Text::Wide(units) => {
            if units.len() > 0x8000_0000 {
                return false;
            }
            let count: i64 = units.len() as i64;
            let prefix: u32 = unsigned32((-count) as i32);
            write_le(out, prefix as u64, 4);
            let ghost base = out@;
            let mut i: usize = 0;
            assert(units@.take(0) =~= Seq::<u16>::empty());
            while i < units.len()
                invariant
                    i <= units.len(),
                    out@ == base + wide_bytes(units@.take(i as int)),
                decreases units.len() - i,
            {
                proof {
                    assert(units@.take(i + 1).drop_last() =~= units@.take(i as int));
                }
                let ghost before = out@;
                write_le(out, units[i] as u64, 2);
                assert(out@ =~= base + wide_bytes(units@.take(i + 1)));
                i = i + 1;
            }
            assert(units@.take(units.len() as int) =~= units@);
            assert(out@ =~= old(out)@ + encode_text(text@));
            true
        },
    }
}

/// Appends the narrow text that spells a short name.
pub(crate) fn write_name(name: &[u8], out: &mut Vec<u8>)
    requires
        name@.len() < 0x7fff_ffff,
    ensures
        final(out)@ == old(out)@ + encode_text(TextModel::ascii(name@)),
{
    write_le(out, (name.len() + 1) as u64, 4);
    out.extend_from_slice(name);
    out.push(0u8);
    assert(out@ =~= old(out)@ + encode_text(TextModel::ascii(name@)));
}

/// Appends one field of a fixed-layout struct.
pub fn write_field(field: &FieldValue, out: &mut Vec<u8>)
    ensures
        final(out)@ == old(out)@ + encode_field(field@),
{
    match field {
        FieldValue::Float32(bits) => write_le(out, *bits as u64, 4),
        FieldValue::Float64(bits) => write_le(out, *bits, 8),
        FieldValue::Int32(value) => write_le(out, unsigned32(*value) as u64, 4),
        FieldValue::Int64(value) => write_le(out, unsigned64(*value), 8),
        FieldValue::Guid(id) => {
            out.extend_from_slice(vstd::array::array_as_slice(&id.0));
            assert(out@ =~= old(out)@ + id@);
        },
    }
}

/// Appends the fields of a fixed-layout struct.
pub fn write_fields(fields: &Vec<FieldValue>, out: &mut Vec<u8>)
    ensures
        final(out)@ == old(out)@ + encode_fields(fields_model(fields@)),
{
    let ghost model = fields_model(fields@);
    let mut i: usize = 0;
    assert(model.take(0) =~= Seq::empty());
    assert(out@ =~= old(out)@ + encode_fields(model.take(0)));
    while i < fields.len()
        invariant
            i <= fields.len(),
            model == fields_model(fields@),
            out@ == old(out)@ + encode_fields(model.take(i as int)),
        decreases fields.len() - i,
    {
        proof {
            assert(model.take(i + 1).drop_last() =~= model.take(i as int));
            assert(model.take(i + 1).last() == fields@[i as int]@);
        }
        write_field(&fields[i], out);
        assert(out@ =~= old(out)@ + encode_fields(model.take(i + 1)));
        i = i + 1;
    }
    assert(model.take(fields.len() as int) =~= model);
}

/// The values of `model` at the places `kept`, in the order of `kept`.
pub open spec fn picked(model: Seq<ValueModel>, kept: Seq<usize>) -> Seq<ValueModel> {
    Seq::new(kept.len(), |k: int| model[kept[k] as int])
}

/// The places of the elements that no earlier element equals.
pub fn first_occurrences(elements: &Vec<PropertyValue>) -> (kept: Vec<usize>)
    ensures
        forall|k: int| 0 <= k < kept@.len() ==> kept@[k] < elements@.len(),
        picked(values_model(elements@), kept@) == distinct(values_model(elements@)),
{
    let ghost model = values_model(elements@);
    let mut kept: Vec<usize> = Vec::new();
    let mut i: usize = 0;
    assert(model.take(0) =~= Seq::empty());
    assert(picked(model, kept@) =~= distinct(model.take(0)));
    while i < elements.len()
        invariant
            i <= elements.len(),
            model == values_model(elements@),
            forall|k: int| 0 <= k < kept@.len() ==> kept@[k] < i,
            picked(model, kept@) == distinct(model.take(i as int)),
        decreases elements.len() - i,
    {
        let ghost seen = picked(model, kept@);
        let mut found = false;
        let mut j: usize = 0;
        while j < kept.len() && !found
            invariant
                j <= kept.len(),
                i < elements.len(),
                model == values_model(elements@),
                seen == picked(model, kept@),
                forall|k: int| 0 <= k < kept@.len() ==> kept@[k] < i,
                found ==> seen.contains(model[i as int]),
                !found ==> forall|k: int| 0 <= k < j ==> seen[k] != model[i as int],
            decreases kept.len() - j, (if found { 0nat } else { 1nat }),
        {
            if same_value(&elements[kept[j]], &elements[i]) {
                assert(seen[j as int] == model[i as int]);
                found = true;
            } else {
                j = j + 1;
            }
        }
        proof {
            lemma_distinct_contains(model.take(i as int), model[i as int]);
            assert(model.take(i + 1).drop_last() =~= model.take(i as int));
            assert(model.take(i + 1).last() == model[i as int]);
        }
        if !found {
            kept.push(i);
            assert(picked(model, kept@) =~= seen.push(model[i as int]));
        }
        i = i + 1;
    }
    assert(model.take(elements.len() as int) =~= model);
    kept
}

/// Appends a value that is no struct as an element of a collection.
pub(crate) fn write_flat(value: &PropertyValue, out: &mut Vec<u8>) -> (ok: bool)
    requires
        !(value is Struct),
    ensures
        ok == flat_fits(value@),
        ok ==> final(out)@ == old(out)@ + encode_flat(value@),
{
    proof {
        reveal(encode_flat);
        reveal(flat_fits);
    }
    match value {
        PropertyValue::Bool(raw) => {
            out.push(*raw);
            assert(out@ =~= old(out)@ + seq![*raw]);
            true
        },
        PropertyValue::Int8(v) => {
            write_le(out, unsigned8(*v) as u64, 1);
            true
        },
        PropertyValue::Int16(v) => {
            write_le(out, unsigned16(*v) as u64, 2);
            true
        },
        PropertyValue::Int32(v) => {
            write_le(out, unsigned32(*v) as u64, 4);
            true
        },
        PropertyValue::Int64(v) => {
            write_le(out, unsigned64(*v), 8);
            true
        },
        PropertyValue::UInt16(v) => {
            write_le(out, *v as u64, 2);
            true
        },
        PropertyValue::UInt32(v) => {
            write_le(out, *v as u64, 4);
            true
        },
        PropertyValue::UInt64(v) => {
            write_le(out, *v, 8);
            true
        },
        PropertyValue::Float32(bits) => {
            write_le(out, *bits as u64, 4);
            true
        },
        PropertyValue::Float64(bits) => {
            write_le(out, *bits, 8);
            true
        },
        PropertyValue::Str(text) => write_text(text, out),
        PropertyValue::Enum { enum_type, value } => write_text(value, out),
        PropertyValue::Byte { enum_name, raw } => {
            out.push(*raw);
            assert(out@ =~= old(out)@ + seq![*raw]);
            true
        },
        _ => false,
    }
}

/// Appends a value as an element of a collection.
pub(crate) fn write_element(value: &PropertyValue, out: &mut Vec<u8>) -> (ok: bool)
    ensures
        ok == element_fits(value@),
        ok ==> final(out)@ == old(out)@ + encode_element(value@),
    decreases value, 0nat,
{
    match value {
        PropertyValue::Struct { struct_type, guid, body } => write_struct_body(body, out),
        _ => write_flat(value, out),
    }
}

/// Appends the elements of a collection.
pub(crate) fn write_elements(elements: &Vec<PropertyValue>, out: &mut Vec<u8>) -> (ok: bool)
    ensures
        ok == elements_fit(values_model(elements@)),
        ok ==> final(out)@ == old(out)@ + encode_elements(values_model(elements@)),
    decreases elements, 0nat,
{
    let ghost model = values_model(elements@);
    let mut i: usize = 0;
    assert(model.take(0) =~= Seq::empty());
    assert(out@ =~= old(out)@ + encode_elements(model.take(0)));
    while i < elements.len()
        invariant
            i <= elements.len(),
            model == values_model(elements@),
            out@ == old(out)@ + encode_elements(model.take(i as int)),
            forall|k: int| 0 <= k < i ==> element_fits(#[trigger] model[k]),
        decreases elements.len() - i,
    {
        proof {
            assert(model.take(i + 1).drop_last() =~= model.take(i as int));
            assert(model.take(i + 1).last() == model[i as int]);
        }
        let ghost before = out@;
        if !write_element(&elements[i], out) {
            assert(!element_fits(model[i as int]));
            return false;
        }
        assert(out@ =~= old(out)@ + encode_elements(model.take(i + 1)));
        i = i + 1;
    }
    assert(model.take(elements.len() as int) =~= model);
    true
}

/// Appends the elements of a set that stand at the places `kept`.
fn write_picked(elements: &Vec<PropertyValue>, kept: &Vec<usize>, out: &mut Vec<u8>) -> (ok: bool)
    requires
        forall|k: int| 0 <= k < kept@.len() ==> kept@[k] < elements@.len(),
    ensures
        ok == elements_fit(picked(values_model(elements@), kept@)),
        ok ==> final(out)@ == old(out)@ + encode_elements(picked(values_model(elements@), kept@)),
    decreases elements, 0nat,
{
    let ghost model = picked(values_model(elements@), kept@);
    let mut i: usize = 0;
    assert(model.take(0) =~= Seq::empty());
    assert(out@ =~= old(out)@ + encode_elements(model.take(0)));
    while i < kept.len()
        invariant
            i <= kept.len(),
            forall|k: int| 0 <= k < kept@.len() ==> kept@[k] < elements@.len(),
            model == picked(values_model(elements@), kept@),
            out@ == old(out)@ + encode_elements(model.take(i as int)),
            forall|k: int| 0 <= k < i ==> element_fits(#[trigger] model[k]),
        decreases kept.len() - i,
    {
        proof {
            assert(model.take(i + 1).drop_last() =~= model.take(i as int));
            assert(model.take(i + 1).last() == model[i as int]);
            assert(model[i as int] == value_model(elements@[kept@[i as int] as int]));
        }
        if !write_element(&elements[kept[i]], out) {
            assert(!element_fits(model[i as int]));
            return false;
        }
        assert(out@ =~= old(out)@ + encode_elements(model.take(i + 1)));
        i = i + 1;
    }
    assert(model.take(kept.len() as int) =~= model);
    true
}

/// Appends the entries of a map.
pub(crate) fn write_pairs(pairs: &Vec<(PropertyValue, PropertyValue)>, out: &mut Vec<u8>) -> (ok: bool)
    ensures
        ok == pairs_fit(pairs_model(pairs@)),
        ok ==> final(out)@ == old(out)@ + encode_pairs(pairs_model(pairs@)),
    decreases pairs, 0nat,
{
    let ghost model = pairs_model(pairs@);
    let mut i: usize = 0;
    assert(model.take(0) =~= Seq::empty());
    assert(out@ =~= old(out)@ + encode_pairs(model.take(0)));
    while i < pairs.len()
        invariant
            i <= pairs.len(),
            model == pairs_model(pairs@),
            out@ == old(out)@ + encode_pairs(model.take(i as int)),
            forall|k: int|
                0 <= k < i ==> element_fits((#[trigger] model[k]).0) && element_fits(model[k].1),
        decreases pairs.len() - i,
    {
        proof {
            assert(model.take(i + 1).drop_last() =~= model.take(i as int));
            assert(model.take(i + 1).last() == model[i as int]);
        }
        if !write_element(&pairs[i].0, out) {
            assert(!element_fits(model[i as int].0));
            return false;
        }
        if !write_element(&pairs[i].1, out) {
            assert(!element_fits(model[i as int].1));
            return false;
        }
        assert(out@ =~= old(out)@ + encode_pairs(model.take(i + 1)));
        i = i + 1;
    }
    assert(model.take(pairs.len() as int) =~= model);
    true
}

/// Appends the payload of a struct.
pub(crate) fn write_struct_body(body: &StructBody, out: &mut Vec<u8>) -> (ok: bool)
    ensures
        ok == body_fits(body@),
        ok ==> final(out)@ == old(out)@ + encode_struct_body(body@),
    decreases body, 0nat,
{
    match body {
        StructBody::Fixed(fields) => {
            write_fields(fields, out);
            true
        },
        StructBody::Fields(tree) => write_scope(tree, out),
        StructBody::Raw(bytes) => {
            out.extend_from_slice(bytes.as_slice());
            assert(out@ =~= old(out)@ + bytes@);
            true
        },
    }
}

/// Appends the header of an array or a set of `count` elements.
fn write_sequence_header(tag: TypeTag, element_struct: &Option<Text>, count: usize, out: &mut Vec<u8>) -> (ok: bool)
    ensures
        ok == sequence_header_fits(tag, optional_text(*element_struct), count as nat),
        ok ==> final(out)@ == old(out)@ + encode_sequence_header(
            tag,
            optional_text(*element_struct),
            count as nat,
        ),
{
    proof {
        lemma_name_lengths();
    }
    if count > 0xffff_ffff {
        return false;
    }
    write_name(tag.name(), out);
    write_le(out, count as u64, 4);
    match tag {
        TypeTag::Struct => match element_struct {
            Some(name) => {
                let ok = write_text(name, out);
                assert(ok ==> out@ =~= old(out)@ + encode_sequence_header(
                    tag,
                    optional_text(*element_struct),
                    count as nat,
                ));
                ok
            },
            None => {
                let none = Text::Narrow(Vec::new());
                assert(none@ == empty_text());
                let ok = write_text(&none, out);
                assert(out@ =~= old(out)@ + encode_sequence_header(
                    tag,
                    optional_text(*element_struct),
                    count as nat,
                ));
                ok
            },
        },
        _ => {
            assert(out@ =~= old(out)@ + encode_sequence_header(
                tag,
                optional_text(*element_struct),
                count as nat,
            ));
            true
        },
    }
}

/// Appends the body of an enum property, or of a byte property with a named value.
fn write_enum_body(enum_type: &Text, value: &Text, out: &mut Vec<u8>) -> (ok: bool)
    ensures
        ok == (text_fits(enum_type@) && text_fits(value@)),
        ok ==> final(out)@ == old(out)@ + (encode_text(enum_type@) + encode_text(value@)),
{
    if !write_text(enum_type, out) {
        return false;
    }
    let ok = write_text(value, out);
    assert(ok ==> out@ =~= old(out)@ + (encode_text(enum_type@) + encode_text(value@)));
    ok
}

/// Appends the body of a byte property with a raw value.
fn write_byte_body(enum_name: &Option<Text>, raw: u8, out: &mut Vec<u8>) -> (ok: bool)
    ensures
        ok == text_fits(text_or(optional_text(*enum_name), empty_text())),
        ok ==> final(out)@ == old(out)@ + (encode_text(text_or(optional_text(*enum_name), sentinel()))
            + seq![raw]),
{
    proof {
        lemma_name_lengths();
    }
    match enum_name {
        Some(name) => {
            if !write_text(name, out) {
                return false;
            }
        },
        None => {
            write_name("None".as_bytes(), out);
        },
    }
    out.push(raw);
    assert(out@ =~= old(out)@ + (encode_text(text_or(optional_text(*enum_name), sentinel()))
        + seq![raw]));
    true
}

/// Appends the body of a struct property.
fn write_struct_property(struct_type: &Text, guid: &Option<crate::graphql::ID>, body: &StructBody, out: &mut Vec<u8>) -> (ok: bool)
    ensures
        ok == (text_fits(struct_type@) && body_fits(body@)),
        ok ==> final(out)@ == old(out)@ + (encode_text(struct_type@) + guid_bytes(
            crate::tree::optional_id(*guid),
        ) + encode_struct_body(body@)),
    decreases body, 1nat,
{
    if !write_text(struct_type, out) {
        return false;
    }
    match guid {
        Some(id) => {
            out.extend_from_slice(vstd::array::array_as_slice(&id.0));
        },
        None => {
            let zeros: [u8; 16] = [0u8; 16];
            out.extend_from_slice(vstd::array::array_as_slice(&zeros));
        },
    }
    assert(out@ =~= old(out)@ + encode_text(struct_type@) + guid_bytes(
        crate::tree::optional_id(*guid),
    ));
    let ok = write_struct_body(body, out);
    assert(ok ==> out@ =~= old(out)@ + (encode_text(struct_type@) + guid_bytes(
        crate::tree::optional_id(*guid),
    ) + encode_struct_body(body@)));
    ok
}

/// Appends the body of an array property.
fn write_array_body(tag: TypeTag, element_struct: &Option<Text>, elements: &Vec<PropertyValue>, out: &mut Vec<u8>) -> (ok: bool)
    ensures
        ok == (sequence_header_fits(tag, optional_text(*element_struct), elements@.len())
            && elements_fit(values_model(elements@))),
        ok ==> final(out)@ == old(out)@ + (encode_sequence_header(
            tag,
            optional_text(*element_struct),
            elements@.len(),
        ) + encode_elements(values_model(elements@))),
    decreases elements, 1nat,
{
    if !write_sequence_header(tag, element_struct, elements.len(), out) {
        return false;
    }
    let ok = write_elements(elements, out);
    assert(ok ==> out@ =~= old(out)@ + (encode_sequence_header(
        tag,
        optional_text(*element_struct),
        elements@.len(),
    ) + encode_elements(values_model(elements@))));
    ok
}

/// Appends the body of a set property: every element once, at its first place.
fn write_set_body(tag: TypeTag, element_struct: &Option<Text>, elements: &Vec<PropertyValue>, out: &mut Vec<u8>) -> (ok: bool)
    ensures
        ok == (sequence_header_fits(
            tag,
            optional_text(*element_struct),
            distinct(values_model(elements@)).len(),
        ) && elements_fit(values_model(elements@))),
        ok ==> final(out)@ == old(out)@ + (encode_sequence_header(
            tag,
            optional_text(*element_struct),
            distinct(values_model(elements@)).len(),
        ) + encode_distinct(values_model(elements@))),
    decreases elements, 1nat,
{
    let kept = first_occurrences(elements);
    proof {
        lemma_encode_distinct(values_model(elements@));
        lemma_distinct_fit(values_model(elements@));
    }
    if !write_sequence_header(tag, element_struct, kept.len(), out) {
        return false;
    }
    let ok = write_picked(elements, &kept, out);
    assert(ok ==> out@ =~= old(out)@ + (encode_sequence_header(
        tag,
        optional_text(*element_struct),
        distinct(values_model(elements@)).len(),
    ) + encode_distinct(values_model(elements@))));
    ok
}

/// Appends the body of a map property.
fn write_mapping_body(
    key_tag: TypeTag,
    value_tag: TypeTag,
    flags: u32,
    entries: &Vec<(PropertyValue, PropertyValue)>,
    out: &mut Vec<u8>,
) -> (ok: bool)
    ensures
        ok == (entries@.len() <= u32::MAX && pairs_fit(pairs_model(entries@))),
        ok ==> final(out)@ == old(out)@ + (encode_text(tag_text(key_tag)) + encode_text(
            tag_text(value_tag),
        ) + le_bytes(flags as nat, 4) + le_bytes(entries@.len(), 4) + encode_pairs(
            pairs_model(entries@),
        )),
    decreases entries, 1nat,
{
    proof {
        lemma_name_lengths();
    }
    if entries.len() > 0xffff_ffff {
        return false;
    }
    write_name(key_tag.name(), out);
    write_name(value_tag.name(), out);
    write_le(out, flags as u64, 4);
    write_le(out, entries.len() as u64, 4);
    let ok = write_pairs(entries, out);
    assert(ok ==> out@ =~= old(out)@ + (encode_text(tag_text(key_tag)) + encode_text(
        tag_text(value_tag),
    ) + le_bytes(flags as nat, 4) + le_bytes(entries@.len(), 4) + encode_pairs(
        pairs_model(entries@),
    )));
    ok
}

/// Appends a value as the body of a property.
pub(crate) fn write_body(value: &PropertyValue, out: &mut Vec<u8>) -> (ok: bool)
    ensures
        ok == value_fits(value@),
        ok ==> final(out)@ == old(out)@ + encode_body(value@),
    decreases value, 2nat,
{
    match value {
        PropertyValue::Enum { enum_type, value } => write_enum_body(enum_type, value, out),
        PropertyValue::Byte { enum_name, raw } => write_byte_body(enum_name, *raw, out),
        PropertyValue::Struct { struct_type, guid, body } => write_struct_property(
            struct_type,
            guid,
            body,
            out,
        ),
        PropertyValue::Array { element_tag, element_struct, elements } => write_array_body(
            *element_tag,
            element_struct,
            elements,
            out,
        ),
        PropertyValue::UniqueSet { element_tag, element_struct, elements } => write_set_body(
            *element_tag,
            element_struct,
            elements,
            out,
        ),
        PropertyValue::Mapping { key_tag, value_tag, flags, entries } => write_mapping_body(
            *key_tag,
            *value_tag,
            *flags,
            entries,
            out,
        ),
        _ => write_element(value, out),
    }
}

/// Appends a property: name, type tag, the declared size as recorded, body.
pub(crate) fn write_property(property: &Property, out: &mut Vec<u8>) -> (ok: bool)
    ensures
        ok == (text_fits(property@.name) && value_fits(property@.value)),
        ok ==> final(out)@ == old(out)@ + encode_property(property@),
    decreases property, 0nat,
{
    proof {
        lemma_name_lengths();
    }
    if !write_text(&property.name, out) {
        return false;
    }
    write_name(property.tag.name(), out);
    write_le(out, property.size, 8);
    let ok = write_body(&property.value, out);
    assert(ok ==> out@ =~= old(out)@ + (encode_text(property@.name) + encode_text(
        tag_text(property@.tag),
    ) + le_bytes(property@.size as nat, 8) + encode_body(property@.value)));
    ok
}

/// Appends a scope: its properties, then the name that ends it.
pub(crate) fn write_scope(tree: &PropertyTree, out: &mut Vec<u8>) -> (ok: bool)
    ensures
        ok == properties_fit(tree@),
        ok ==> final(out)@ == old(out)@ + encode_scope(tree@),
    decreases tree, 0nat,
{
    let ghost model = tree@;
    let mut i: usize = 0;
    proof {
        lemma_name_lengths();
    }
    assert(model.take(0) =~= Seq::empty());
    assert(out@ =~= old(out)@ + encode_properties(model.take(0)));
    while i < tree.entries.len()
        invariant
            i <= tree.entries.len(),
            model == properties_model(tree.entries@),
            out@ == old(out)@ + encode_properties(model.take(i as int)),
            forall|k: int|
                0 <= k < i ==> text_fits((#[trigger] model[k]).name) && value_fits(model[k].value),
        decreases tree.entries.len() - i,
    {
        proof {
            assert(model.take(i + 1).drop_last() =~= model.take(i as int));
            assert(model.take(i + 1).last() == model[i as int]);
        }
        if !write_property(&tree.entries[i], out) {
            assert(!(text_fits(model[i as int].name) && value_fits(model[i as int].value)));
            return false;
        }
        assert(out@ =~= old(out)@ + encode_properties(model.take(i + 1)));
        i = i + 1;
    }
    assert(model.take(tree.entries.len() as int) =~= model);
    write_name("None".as_bytes(), out);
    assert(out@ =~= old(out)@ + encode_scope(model));
    true
}

/// The number of bytes that a text takes in a stream.
fn text_size(text: &Text) -> (size: u64)
    requires
        text_fits(text@),
    ensures
        size == text_len(text@),
{
    match text {
        Text::Narrow(units) => 4 + units.len() as u64,
        Text::Wide(units) => 4 + 2 * (units.len() as u64),
    }
}

/// The number of bytes that the name of a tag takes in a stream.
fn tag_size(tag: TypeTag) -> (size: u64)
    ensures
        size == text_len(tag_text(tag)),
{
    proof {
        lemma_name_lengths();
    }
    5 + tag.name().len() as u64
}

/// The size to declare for a property that holds the value; none where the
/// value cannot be written.
pub fn payload_size(value: &PropertyValue) -> (size: Option<u64>)
    ensures
        size is Some == value_fits(value@),
        size matches Some(n) ==> n == payload_len(value@),
{
    let mut scratch: Vec<u8> = Vec::new();
    if !write_body(value, &mut scratch) {
        return None;
    }
    assert(scratch@ =~= encode_body(value@));
    proof {
        lemma_name_lengths();
        match value@ {
            ValueModel::Enum { enum_type, value: name } => {
                lemma_text_len(enum_type);
                lemma_text_len(name);
            },
            ValueModel::Byte { enum_name, raw } => {
                lemma_text_len(text_or(enum_name, sentinel()));
            },
            ValueModel::Struct { struct_type, guid, body } => {
                lemma_text_len(struct_type);
            },
            ValueModel::Array { element_tag, element_struct, elements } => {
                lemma_text_len(tag_text(element_tag));
            },
            ValueModel::UniqueSet { element_tag, element_struct, elements } => {
                lemma_text_len(tag_text(element_tag));
            },
            ValueModel::Mapping { key_tag, value_tag, flags, entries } => {
                lemma_text_len(tag_text(key_tag));
                lemma_text_len(tag_text(value_tag));
            },
            _ => {},
        }
    }
    let total: u64 = scratch.len() as u64;
    let header: u64 = match value {
        PropertyValue::Bool(_) => {
            return Some(0);
        },
        PropertyValue::Enum { enum_type, value } => text_size(enum_type),
        PropertyValue::Byte { enum_name, raw } => match enum_name {
            Some(name) => text_size(name),
            None => 9,
        },
        PropertyValue::Struct { struct_type, guid, body } => text_size(struct_type) + 16,
        PropertyValue::Array { element_tag, element_struct, elements } => tag_size(*element_tag),
        PropertyValue::UniqueSet { element_tag, element_struct, elements } => tag_size(*element_tag),
        PropertyValue::Mapping { key_tag, value_tag, flags, entries } => tag_size(*key_tag) + tag_size(
            *value_tag,
        ),
        _ => 0,
    };
    Some(total - header)
}

impl Property {
    /// A property that declares the size that its value has; none where the
    /// value cannot be written.
    pub fn new(name: Text, tag: TypeTag, value: PropertyValue) -> (property: Option<Property>)
        ensures
            property is Some == value_fits(value@),
            property matches Some(p) ==> p.name == name && p.tag == tag && p.value == value && p.size
                == payload_len(value@),
    {
        match payload_size(&value) {
            Some(size) => Some(Property { name, tag, size, value }),
            None => None,
        }
    }
}

} // verus!
