//! What the decoder gives is in canonical form.

use vstd::prelude::*;
use crate::canonical::{
    body_canonical, document_canonical, element_canonical, elements_canonical, field_canonical,
    fields_canonical, flat_canonical, pairs_canonical, property_canonical, scope_canonical,
    sequence_canonical, simple_canonical, text_canonical, value_canonical, versions_canonical,
};
use crate::cursor::{parse_bytes, parse_le, parse_text};
use crate::document::{parse_document, parse_header, parse_version, parse_versions, VersionModel};
use crate::format::{
    empty_text, parse_body, parse_element, parse_elements, parse_field, parse_fields, parse_flat,
    parse_mapping, parse_pair, parse_pairs, parse_scope, parse_sequence, parse_simple,
    parse_struct, parse_struct_body, parse_tag, sentinel,
};
use crate::le::{lemma_pow256_values, lemma_signed_round_trip};
use crate::registry::{find_layout, LayoutModel};
use crate::roundtrip::{
    body_repeat_free, lemma_body_round_trip, lemma_element_round_trip, lemma_elements_round_trip,
    lemma_field_round_trip, lemma_header_round_trip, lemma_le_round_trip, lemma_pair_round_trip,
    lemma_pairs_round_trip, lemma_scope_round_trip, lemma_struct_body_round_trip,
    lemma_tag_round_trip, lemma_text_round_trip, pairs_repeat_free, properties_repeat_free,
    value_repeat_free, values_repeat_free,
};
use crate::text::TextModel;
use crate::tree::{FieldKind, FieldModel, PropertyModel, TypeTag, ValueModel};

verus! {

/// A text that was read is in canonical form.
pub proof fn lemma_text_form(bytes: Seq<u8>, pos: int)
    requires
        0 <= pos,
        parse_text(bytes, pos) is Ok,
    ensures
        text_canonical(parse_text(bytes, pos)->Ok_0.0),
{
    reveal(parse_text);
    lemma_pow256_values();
    lemma_le_round_trip(bytes, pos, 4);
    let raw = parse_le(bytes, pos, 4)->Ok_0.0;
    lemma_signed_round_trip(raw, 4);
}

/// A number or a text that was read as a value is in the form of its tag.
pub proof fn lemma_simple_form(tag: TypeTag, bytes: Seq<u8>, pos: int)
    requires
        0 <= pos,
        parse_simple(tag, bytes, pos) is Ok,
    ensures
        simple_canonical(tag, parse_simple(tag, bytes, pos)->Ok_0.0),
{
    reveal(parse_simple);
    match tag {
        TypeTag::Str | TypeTag::Name | TypeTag::Text => {
            lemma_text_form(bytes, pos);
        },
        _ => {},
    }
}

/// An element that is no struct and was read is in the form of its tag.
pub proof fn lemma_flat_form(tag: TypeTag, bytes: Seq<u8>, pos: int)
    requires
        0 <= pos,
        parse_flat(tag, bytes, pos) is Ok,
    ensures
        flat_canonical(tag, parse_flat(tag, bytes, pos)->Ok_0.0),
        !(parse_flat(tag, bytes, pos)->Ok_0.0 is Struct),
{
    reveal(parse_flat);
    reveal(parse_simple);
    match tag {
        TypeTag::Enum => {
            lemma_text_form(bytes, pos);
        },
        TypeTag::Byte | TypeTag::Struct | TypeTag::Array | TypeTag::Mapping | TypeTag::UniqueSet => {},
        _ => {
            lemma_simple_form(tag, bytes, pos);
        },
    }
}

/// Fields that were read are those of the layout.
pub proof fn lemma_fields_form(layout: Seq<FieldKind>, bytes: Seq<u8>, pos: int, done: Seq<FieldModel>)
    requires
        0 <= pos <= bytes.len(),
        done.len() <= layout.len(),
        forall|i: int| 0 <= i < done.len() ==> field_canonical(layout[i], #[trigger] done[i]),
        parse_fields(layout, bytes, pos, done) is Ok,
    ensures
        fields_canonical(layout, 0, parse_fields(layout, bytes, pos, done)->Ok_0.0),
    decreases layout.len() - done.len(),
{
    if done.len() < layout.len() {
        let kind = layout[done.len() as int];
        lemma_field_round_trip(kind, bytes, pos);
        let (field, middle) = parse_field(kind, bytes, pos)->Ok_0;
        let next = done.push(field);
        assert forall|i: int| 0 <= i < next.len() implies field_canonical(
            layout[i],
            #[trigger] next[i],
        ) by {
            if i < done.len() {
                assert(next[i] == done[i]);
            }
        }
        lemma_fields_form(layout, bytes, middle, next);
    }
}

/// An element that was read is in canonical form, where no set in it holds
/// an element twice.
pub proof fn lemma_element_form(
    registry: Seq<LayoutModel>,
    tag: TypeTag,
    struct_type: TextModel,
    bytes: Seq<u8>,
    pos: int,
)
    requires
        0 <= pos <= bytes.len(),
        parse_element(registry, tag, struct_type, bytes, pos) is Ok,
        value_repeat_free(parse_element(registry, tag, struct_type, bytes, pos)->Ok_0.0),
    ensures
        element_canonical(
            registry,
            tag,
            struct_type,
            parse_element(registry, tag, struct_type, bytes, pos)->Ok_0.0,
        ),
    decreases bytes.len() - pos, 1int, 0nat,
{
    if tag == TypeTag::Struct {
        match find_layout(registry, struct_type) {
            Some(layout) => {
                lemma_fields_form(layout, bytes, pos, Seq::empty());
            },
            None => {
                lemma_scope_form(registry, bytes, pos, Seq::empty());
            },
        }
    } else {
        lemma_flat_form(tag, bytes, pos);
    }
}

/// Elements that were read are in canonical form, where no set in them holds
/// an element twice.
pub proof fn lemma_elements_form(
    registry: Seq<LayoutModel>,
    tag: TypeTag,
    struct_type: TextModel,
    bytes: Seq<u8>,
    pos: int,
    count: nat,
    done: Seq<ValueModel>,
)
    requires
        0 <= pos <= bytes.len(),
        elements_canonical(registry, tag, struct_type, done),
        parse_elements(registry, tag, struct_type, bytes, pos, count, done) is Ok,
        values_repeat_free(parse_elements(registry, tag, struct_type, bytes, pos, count, done)->Ok_0.0),
    ensures
        elements_canonical(
            registry,
            tag,
            struct_type,
            parse_elements(registry, tag, struct_type, bytes, pos, count, done)->Ok_0.0,
        ),
    decreases bytes.len() - pos, 3int, count,
{
    if count > 0 {
        lemma_element_round_trip(registry, tag, struct_type, bytes, pos);
        let (element, middle) = parse_element(registry, tag, struct_type, bytes, pos)->Ok_0;
        let next = done.push(element);
        lemma_elements_round_trip(registry, tag, struct_type, bytes, middle, (count - 1) as nat, next);
        let values = parse_elements(registry, tag, struct_type, bytes, pos, count, done)->Ok_0.0;
        assert(values[done.len() as int] == next[done.len() as int]);
        assert(value_repeat_free(values[done.len() as int]));
        lemma_element_form(registry, tag, struct_type, bytes, pos);
        assert forall|i: int| 0 <= i < next.len() implies element_canonical(
            registry,
            tag,
            struct_type,
            #[trigger] next[i],
        ) by {
            if i < done.len() {
                assert(next[i] == done[i]);
            }
        }
        lemma_elements_form(registry, tag, struct_type, bytes, middle, (count - 1) as nat, next);
    }
}

/// Pairs that were read are in canonical form, where no set in them holds an
/// element twice.
pub proof fn lemma_pairs_form(
    registry: Seq<LayoutModel>,
    key_tag: TypeTag,
    value_tag: TypeTag,
    bytes: Seq<u8>,
    pos: int,
    count: nat,
    done: Seq<(ValueModel, ValueModel)>,
)
    requires
        0 <= pos <= bytes.len(),
        pairs_canonical(registry, key_tag, value_tag, done),
        parse_pairs(registry, key_tag, value_tag, bytes, pos, count, done) is Ok,
        pairs_repeat_free(parse_pairs(registry, key_tag, value_tag, bytes, pos, count, done)->Ok_0.0),
    ensures
        pairs_canonical(
            registry,
            key_tag,
            value_tag,
            parse_pairs(registry, key_tag, value_tag, bytes, pos, count, done)->Ok_0.0,
        ),
    decreases bytes.len() - pos, 3int, count,
{
    if count > 0 {
        lemma_pair_round_trip(registry, key_tag, value_tag, bytes, pos);
        let (pair, middle) = parse_pair(registry, key_tag, value_tag, bytes, pos)->Ok_0;
        let next = done.push(pair);
        lemma_pairs_round_trip(registry, key_tag, value_tag, bytes, middle, (count - 1) as nat, next);
        let pairs = parse_pairs(registry, key_tag, value_tag, bytes, pos, count, done)->Ok_0.0;
        assert(pairs[done.len() as int] == next[done.len() as int]);
        assert(value_repeat_free(pairs[done.len() as int].0) && value_repeat_free(
            pairs[done.len() as int].1,
        ));
        lemma_element_round_trip(registry, key_tag, empty_text(), bytes, pos);
        lemma_element_form(registry, key_tag, empty_text(), bytes, pos);
        let between = parse_element(registry, key_tag, empty_text(), bytes, pos)->Ok_0.1;
        lemma_element_form(registry, value_tag, empty_text(), bytes, between);
        assert forall|i: int| 0 <= i < next.len() implies element_canonical(
            registry,
            key_tag,
            empty_text(),
            (#[trigger] next[i]).0,
        ) && element_canonical(registry, value_tag, empty_text(), next[i].1) by {
            if i < done.len() {
                assert(next[i] == done[i]);
            }
        }
        lemma_pairs_form(registry, key_tag, value_tag, bytes, middle, (count - 1) as nat, next);
    }
}

/// What the payload of a struct was read as is in canonical form, where no
/// set in it holds an element twice.
pub proof fn lemma_struct_body_form(registry: Seq<LayoutModel>, struct_type: TextModel, payload: Seq<u8>)
    requires
        body_repeat_free(parse_struct_body(registry, struct_type, payload)),
    ensures
        body_canonical(registry, struct_type, parse_struct_body(registry, struct_type, payload)),
    decreases payload.len(), 4int, 0nat,
{
    match find_layout(registry, struct_type) {
        Some(layout) => {
            if parse_fields(layout, payload, 0, Seq::empty()) is Ok {
                lemma_fields_form(layout, payload, 0, Seq::empty());
            }
        },
        None => {
            if parse_scope(registry, payload, 0, Seq::empty()) is Ok {
                let (properties, end) = parse_scope(registry, payload, 0, Seq::empty())->Ok_0;
                if end == payload.len() {
                    lemma_scope_form(registry, payload, 0, Seq::empty());
                }
            }
        },
    }
}

/// The header and the elements of an array or a set that were read are in
/// canonical form, where no set in them holds an element twice.
pub proof fn lemma_sequence_form(registry: Seq<LayoutModel>, bytes: Seq<u8>, pos: int)
    requires
        0 <= pos <= bytes.len(),
        parse_sequence(registry, bytes, pos) is Ok,
        values_repeat_free(parse_sequence(registry, bytes, pos)->Ok_0.0.2),
    ensures
        sequence_canonical(
            registry,
            parse_sequence(registry, bytes, pos)->Ok_0.0.0,
            parse_sequence(registry, bytes, pos)->Ok_0.0.1,
            parse_sequence(registry, bytes, pos)->Ok_0.0.2,
        ),
    decreases bytes.len() - pos, 4int, 0nat,
{
    lemma_pow256_values();
    lemma_tag_round_trip(bytes, pos);
    let (tag, at1) = parse_tag(bytes, pos)->Ok_0;
    lemma_le_round_trip(bytes, at1, 4);
    let (count, at2) = parse_le(bytes, at1, 4)->Ok_0;
    if tag == TypeTag::Struct {
        lemma_text_round_trip(bytes, at2);
        lemma_text_form(bytes, at2);
        let (struct_type, at3) = parse_text(bytes, at2)->Ok_0;
        lemma_elements_round_trip(registry, tag, struct_type, bytes, at3, count, Seq::empty());
        lemma_elements_form(registry, tag, struct_type, bytes, at3, count, Seq::empty());
    } else {
        lemma_elements_round_trip(registry, tag, empty_text(), bytes, at2, count, Seq::empty());
        lemma_elements_form(registry, tag, empty_text(), bytes, at2, count, Seq::empty());
    }
}

/// The body of a struct property that was read is in canonical form, where
/// no set in it holds an element twice.
pub proof fn lemma_struct_form(registry: Seq<LayoutModel>, size: u64, bytes: Seq<u8>, pos: int)
    requires
        0 <= pos <= bytes.len(),
        parse_struct(registry, size, bytes, pos) is Ok,
        value_repeat_free(parse_struct(registry, size, bytes, pos)->Ok_0.0),
    ensures
        value_canonical(registry, TypeTag::Struct, size, parse_struct(registry, size, bytes, pos)->Ok_0.0),
    decreases bytes.len() - pos, 4int, 0nat,
{
    lemma_text_round_trip(bytes, pos);
    lemma_text_form(bytes, pos);
    let (struct_type, at1) = parse_text(bytes, pos)->Ok_0;
    let (guid, at2) = parse_bytes(bytes, at1, 16)->Ok_0;
    let (payload, end) = parse_bytes(bytes, at2, size as nat)->Ok_0;
    lemma_struct_body_round_trip(registry, struct_type, payload);
    lemma_struct_body_form(registry, struct_type, payload);
}

/// The body of a map property that was read is in canonical form, where no
/// set in it holds an element twice.
pub proof fn lemma_mapping_form(registry: Seq<LayoutModel>, bytes: Seq<u8>, pos: int)
    requires
        0 <= pos <= bytes.len(),
        parse_mapping(registry, bytes, pos) is Ok,
        value_repeat_free(parse_mapping(registry, bytes, pos)->Ok_0.0),
    ensures
        value_canonical(registry, TypeTag::Mapping, 0, parse_mapping(registry, bytes, pos)->Ok_0.0),
    decreases bytes.len() - pos, 4int, 0nat,
{
    lemma_pow256_values();
    lemma_tag_round_trip(bytes, pos);
    let (key_tag, at1) = parse_tag(bytes, pos)->Ok_0;
    lemma_tag_round_trip(bytes, at1);
    let (value_tag, at2) = parse_tag(bytes, at1)->Ok_0;
    lemma_le_round_trip(bytes, at2, 4);
    let (flags, at3) = parse_le(bytes, at2, 4)->Ok_0;
    lemma_le_round_trip(bytes, at3, 4);
    let (count, at4) = parse_le(bytes, at3, 4)->Ok_0;
    lemma_pairs_round_trip(registry, key_tag, value_tag, bytes, at4, count, Seq::empty());
    lemma_pairs_form(registry, key_tag, value_tag, bytes, at4, count, Seq::empty());
}

/// What follows the declared size of a property that was read is in
/// canonical form, where no set in it holds an element twice.
pub proof fn lemma_body_form(registry: Seq<LayoutModel>, tag: TypeTag, size: u64, bytes: Seq<u8>, pos: int)
    requires
        0 <= pos <= bytes.len(),
        parse_body(registry, tag, size, bytes, pos) is Ok,
        value_repeat_free(parse_body(registry, tag, size, bytes, pos)->Ok_0.0),
    ensures
        value_canonical(registry, tag, size, parse_body(registry, tag, size, bytes, pos)->Ok_0.0),
    decreases bytes.len() - pos, 5int, 0nat,
{
    match tag {
        TypeTag::Enum => {
            lemma_text_round_trip(bytes, pos);
            lemma_text_form(bytes, pos);
            lemma_text_form(bytes, parse_text(bytes, pos)->Ok_0.1);
        },
        TypeTag::Byte => {
            lemma_text_round_trip(bytes, pos);
            lemma_text_form(bytes, pos);
            let (name, middle) = parse_text(bytes, pos)->Ok_0;
            if name != sentinel() {
                lemma_text_form(bytes, middle);
            }
        },
        TypeTag::Struct => {
            lemma_struct_form(registry, size, bytes, pos);
        },
        TypeTag::Array | TypeTag::UniqueSet => {
            lemma_sequence_form(registry, bytes, pos);
        },
        TypeTag::Mapping => {
            lemma_mapping_form(registry, bytes, pos);
        },
        _ => {
            lemma_simple_form(tag, bytes, pos);
        },
    }
}

/// The properties of a scope that were read are in canonical form, where no
/// set in them holds an element twice.
pub proof fn lemma_scope_form(registry: Seq<LayoutModel>, bytes: Seq<u8>, pos: int, done: Seq<PropertyModel>)
    requires
        0 <= pos <= bytes.len(),
        scope_canonical(registry, done),
        parse_scope(registry, bytes, pos, done) is Ok,
        properties_repeat_free(parse_scope(registry, bytes, pos, done)->Ok_0.0),
    ensures
        scope_canonical(registry, parse_scope(registry, bytes, pos, done)->Ok_0.0),
    decreases bytes.len() - pos, 0int, 0nat,
{
    lemma_pow256_values();
    lemma_text_round_trip(bytes, pos);
    lemma_text_form(bytes, pos);
    let (name, at1) = parse_text(bytes, pos)->Ok_0;
    if name != sentinel() {
        lemma_tag_round_trip(bytes, at1);
        let (tag, at2) = parse_tag(bytes, at1)->Ok_0;
        lemma_le_round_trip(bytes, at2, 8);
        let (size, at3) = parse_le(bytes, at2, 8)->Ok_0;
        lemma_body_round_trip(registry, tag, size as u64, bytes, at3);
        let (value, at4) = parse_body(registry, tag, size as u64, bytes, at3)->Ok_0;
        let property = PropertyModel { name, tag, size: size as u64, value };
        let next = done.push(property);
        lemma_scope_round_trip(registry, bytes, at4, next);
        let properties = parse_scope(registry, bytes, pos, done)->Ok_0.0;
        assert(properties[done.len() as int] == next[done.len() as int]);
        assert(value_repeat_free(properties[done.len() as int].value));
        lemma_body_form(registry, tag, size as u64, bytes, at3);
        assert forall|i: int| 0 <= i < next.len() implies property_canonical(
            registry,
            #[trigger] next[i],
        ) by {
            if i < done.len() {
                assert(next[i] == done[i]);
            }
        }
        lemma_scope_form(registry, bytes, at4, next);
    }
}

/// Custom versions that were read have identifiers of sixteen bytes.
pub proof fn lemma_versions_form(bytes: Seq<u8>, pos: int, count: nat, done: Seq<VersionModel>)
    requires
        0 <= pos <= bytes.len(),
        versions_canonical(done),
        parse_versions(bytes, pos, count, done) is Ok,
    ensures
        versions_canonical(parse_versions(bytes, pos, count, done)->Ok_0.0),
    decreases count,
{
    if count > 0 {
        let (id, at1) = parse_bytes(bytes, pos, 16)->Ok_0;
        lemma_le_round_trip(bytes, at1, 4);
        let (version, middle) = parse_version(bytes, pos)->Ok_0;
        let next = done.push(version);
        assert forall|i: int| 0 <= i < next.len() implies (#[trigger] next[i]).id.len() == 16 by {
            if i < done.len() {
                assert(next[i] == done[i]);
            }
        }
        lemma_versions_form(bytes, middle, (count - 1) as nat, next);
    }
}

/// The form of what was read. Of every byte string that holds a document in
/// which no set holds an element twice: the document is in canonical form.
pub proof fn law_decoded_is_canonical(registry: Seq<LayoutModel>, bytes: Seq<u8>)
    requires
        parse_document(registry, bytes) is Ok,
        properties_repeat_free(parse_document(registry, bytes)->Ok_0.root),
    ensures
        document_canonical(registry, parse_document(registry, bytes)->Ok_0),
{
    lemma_pow256_values();
    lemma_header_round_trip(bytes, 0);
    let (header, start) = parse_header(bytes, 0)->Ok_0;
    lemma_le_round_trip(bytes, 0, 2);
    lemma_le_round_trip(bytes, 2, 2);
    lemma_le_round_trip(bytes, 4, 2);
    lemma_le_round_trip(bytes, 6, 4);
    let count = parse_le(bytes, 6, 4)->Ok_0.0;
    lemma_versions_form(bytes, 10, count, Seq::empty());
    lemma_scope_form(registry, bytes, start, Seq::empty());
}

} // verus!
