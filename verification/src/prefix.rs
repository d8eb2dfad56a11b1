//! Cutting a stream short: a prefix of a readable stream reads the same as
//! far as it reaches, and fails as truncated where it ends too early.

use vstd::prelude::*;
use crate::cursor::{parse_bytes, parse_le, parse_text, Parsed};
use crate::document::{parse_document, parse_header, parse_version, parse_versions, VersionModel};
use crate::error::ErrorModel;
use crate::format::{
    empty_text, parse_body, parse_byte, parse_element, parse_elements, parse_enum, parse_field,
    parse_fields, parse_flat, parse_mapping, parse_pair, parse_pairs, parse_scope, parse_sequence,
    parse_simple, parse_struct, parse_tag, sentinel,
};
use crate::registry::{find_layout, LayoutModel};
use crate::roundtrip::{
    lemma_body_round_trip, lemma_element_round_trip, lemma_elements_round_trip,
    lemma_field_round_trip, lemma_fields_round_trip, lemma_header_round_trip, lemma_le_round_trip,
    lemma_pair_round_trip, lemma_pairs_round_trip, lemma_scope_round_trip, lemma_tag_round_trip,
    lemma_text_round_trip, lemma_versions_round_trip,
};
use crate::text::TextModel;
use crate::tree::{FieldKind, FieldModel, PropertyModel, TypeTag, ValueModel};

verus! {

/// What a read that had the outcome `full` on the whole stream has on its
/// first `n` bytes: the same where it ended inside them, truncation otherwise.
pub open spec fn cut<T>(full: Parsed<T>, n: int) -> Parsed<T> {
    match full {
        Ok((value, end)) => if end <= n {
            full
        } else {
            Err(ErrorModel::Truncated)
        },
        Err(e) => Err(e),
    }
}

/// A number reads the same in a prefix that holds it, and is truncated otherwise.
pub proof fn lemma_le_prefix(bytes: Seq<u8>, pos: int, width: nat, n: int)
    requires
        0 <= pos <= n <= bytes.len(),
        parse_le(bytes, pos, width) is Ok,
    ensures
        parse_le(bytes.take(n), pos, width) == cut(parse_le(bytes, pos, width), n),
{
    if pos + width <= n {
        assert(bytes.take(n).subrange(pos, pos + width) =~= bytes.subrange(pos, pos + width));
    }
}

/// The same for a run of bytes.
pub proof fn lemma_bytes_prefix(bytes: Seq<u8>, pos: int, count: nat, n: int)
    requires
        0 <= pos <= n <= bytes.len(),
        parse_bytes(bytes, pos, count) is Ok,
    ensures
        parse_bytes(bytes.take(n), pos, count) == cut(parse_bytes(bytes, pos, count), n),
{
    if pos + count <= n {
        assert(bytes.take(n).subrange(pos, pos + count) =~= bytes.subrange(pos, pos + count));
    }
}

/// The same for a text.
pub proof fn lemma_text_prefix(bytes: Seq<u8>, pos: int, n: int)
    requires
        0 <= pos <= n <= bytes.len(),
        parse_text(bytes, pos) is Ok,
    ensures
        parse_text(bytes.take(n), pos) == cut(parse_text(bytes, pos), n),
{
    reveal(parse_text);
    lemma_text_round_trip(bytes, pos);
    lemma_le_prefix(bytes, pos, 4, n);
    if pos + 4 <= n {
        let (raw, body) = parse_le(bytes, pos, 4)->Ok_0;
        let length = crate::le::as_signed(raw, 4);
        if length >= 0 {
            lemma_bytes_prefix(bytes, body, length as nat, n);
        } else {
            lemma_bytes_prefix(bytes, body, (2 * -length) as nat, n);
        }
    }
}

/// The same for a type tag.
pub proof fn lemma_tag_prefix(bytes: Seq<u8>, pos: int, n: int)
    requires
        0 <= pos <= n <= bytes.len(),
        parse_tag(bytes, pos) is Ok,
    ensures
        parse_tag(bytes.take(n), pos) == cut(parse_tag(bytes, pos), n),
{
    lemma_text_prefix(bytes, pos, n);
}

/// The same for a value of one number or one text.
pub proof fn lemma_simple_prefix(tag: TypeTag, bytes: Seq<u8>, pos: int, n: int)
    requires
        0 <= pos <= n <= bytes.len(),
        parse_simple(tag, bytes, pos) is Ok,
    ensures
        parse_simple(tag, bytes.take(n), pos) == cut(parse_simple(tag, bytes, pos), n),
{
    reveal(parse_simple);
    match tag {
        TypeTag::Bool | TypeTag::Int8 => {
            lemma_le_prefix(bytes, pos, 1, n);
        },
        TypeTag::Int16 | TypeTag::UInt16 => {
            lemma_le_prefix(bytes, pos, 2, n);
        },
        TypeTag::Int32 | TypeTag::UInt32 | TypeTag::Float => {
            lemma_le_prefix(bytes, pos, 4, n);
        },
        TypeTag::Int64 | TypeTag::UInt64 | TypeTag::Double => {
            lemma_le_prefix(bytes, pos, 8, n);
        },
        TypeTag::Str | TypeTag::Name | TypeTag::Text => {
            lemma_text_prefix(bytes, pos, n);
        },
        _ => {},
    }
}

/// The same for an element that is no struct.
pub proof fn lemma_flat_prefix(tag: TypeTag, bytes: Seq<u8>, pos: int, n: int)
    requires
        0 <= pos <= n <= bytes.len(),
        parse_flat(tag, bytes, pos) is Ok,
    ensures
        parse_flat(tag, bytes.take(n), pos) == cut(parse_flat(tag, bytes, pos), n),
{
    reveal(parse_flat);
    match tag {
        TypeTag::Enum => {
            lemma_text_prefix(bytes, pos, n);
        },
        TypeTag::Byte => {
            lemma_le_prefix(bytes, pos, 1, n);
        },
        TypeTag::Struct | TypeTag::Array | TypeTag::Mapping | TypeTag::UniqueSet => {},
        _ => {
            lemma_simple_prefix(tag, bytes, pos, n);
        },
    }
}

/// The same for a field of a fixed-layout struct.
pub proof fn lemma_field_prefix(kind: FieldKind, bytes: Seq<u8>, pos: int, n: int)
    requires
        0 <= pos <= n <= bytes.len(),
        parse_field(kind, bytes, pos) is Ok,
    ensures
        parse_field(kind, bytes.take(n), pos) == cut(parse_field(kind, bytes, pos), n),
{
    match kind {
        FieldKind::Float32 | FieldKind::Int32 => {
            lemma_le_prefix(bytes, pos, 4, n);
        },
        FieldKind::Float64 | FieldKind::Int64 => {
            lemma_le_prefix(bytes, pos, 8, n);
        },
        FieldKind::Guid => {
            lemma_bytes_prefix(bytes, pos, 16, n);
        },
    }
}

/// The same for the fields of a fixed-layout struct.
pub proof fn lemma_fields_prefix(layout: Seq<FieldKind>, bytes: Seq<u8>, pos: int, done: Seq<FieldModel>, n: int)
    requires
        0 <= pos <= n <= bytes.len(),
        parse_fields(layout, bytes, pos, done) is Ok,
    ensures
        parse_fields(layout, bytes.take(n), pos, done) == cut(parse_fields(layout, bytes, pos, done), n),
    decreases layout.len() - done.len(),
{
    if done.len() < layout.len() {
        let kind = layout[done.len() as int];
        lemma_field_round_trip(kind, bytes, pos);
        lemma_field_prefix(kind, bytes, pos, n);
        let (field, middle) = parse_field(kind, bytes, pos)->Ok_0;
        lemma_fields_round_trip(layout, bytes, middle, done.push(field));
        if middle <= n {
            lemma_fields_prefix(layout, bytes, middle, done.push(field), n);
        }
    }
}

/// The same for the body of an enum property.
pub proof fn lemma_enum_prefix(bytes: Seq<u8>, pos: int, n: int)
    requires
        0 <= pos <= n <= bytes.len(),
        parse_enum(bytes, pos) is Ok,
    ensures
        parse_enum(bytes.take(n), pos) == cut(parse_enum(bytes, pos), n),
{
    lemma_text_round_trip(bytes, pos);
    lemma_text_prefix(bytes, pos, n);
    let middle = parse_text(bytes, pos)->Ok_0.1;
    lemma_text_round_trip(bytes, middle);
    if middle <= n {
        lemma_text_prefix(bytes, middle, n);
    }
}

/// The same for the body of a byte property.
pub proof fn lemma_byte_prefix(bytes: Seq<u8>, pos: int, n: int)
    requires
        0 <= pos <= n <= bytes.len(),
        parse_byte(bytes, pos) is Ok,
    ensures
        parse_byte(bytes.take(n), pos) == cut(parse_byte(bytes, pos), n),
{
    lemma_text_round_trip(bytes, pos);
    lemma_text_prefix(bytes, pos, n);
    let (name, middle) = parse_text(bytes, pos)->Ok_0;
    if name == sentinel() {
        lemma_le_round_trip(bytes, middle, 1);
        if middle <= n {
            lemma_le_prefix(bytes, middle, 1, n);
        }
    } else {
        lemma_text_round_trip(bytes, middle);
        if middle <= n {
            lemma_text_prefix(bytes, middle, n);
        }
    }
}

/// The same for an element of a collection.
pub proof fn lemma_element_prefix(
    registry: Seq<LayoutModel>,
    tag: TypeTag,
    struct_type: TextModel,
    bytes: Seq<u8>,
    pos: int,
    n: int,
)
    requires
        0 <= pos <= n <= bytes.len(),
        parse_element(registry, tag, struct_type, bytes, pos) is Ok,
    ensures
        parse_element(registry, tag, struct_type, bytes.take(n), pos) == cut(
            parse_element(registry, tag, struct_type, bytes, pos),
            n,
        ),
    decreases bytes.len() - pos, 1int, 0nat,
{
    if tag == TypeTag::Struct {
        match find_layout(registry, struct_type) {
            Some(layout) => {
                lemma_fields_prefix(layout, bytes, pos, Seq::empty(), n);
            },
            None => {
                lemma_scope_prefix(registry, bytes, pos, Seq::empty(), n);
            },
        }
    } else {
        lemma_flat_prefix(tag, bytes, pos, n);
    }
}

/// The same for the elements of a collection.
pub proof fn lemma_elements_prefix(
    registry: Seq<LayoutModel>,
    tag: TypeTag,
    struct_type: TextModel,
    bytes: Seq<u8>,
    pos: int,
    count: nat,
    done: Seq<ValueModel>,
    n: int,
)
    requires
        0 <= pos <= n <= bytes.len(),
        parse_elements(registry, tag, struct_type, bytes, pos, count, done) is Ok,
    ensures
        parse_elements(registry, tag, struct_type, bytes.take(n), pos, count, done) == cut(
            parse_elements(registry, tag, struct_type, bytes, pos, count, done),
            n,
        ),
    decreases bytes.len() - pos, 3int, count,
{
    if count > 0 {
        lemma_element_round_trip(registry, tag, struct_type, bytes, pos);
        lemma_element_prefix(registry, tag, struct_type, bytes, pos, n);
        let (element, middle) = parse_element(registry, tag, struct_type, bytes, pos)->Ok_0;
        lemma_elements_round_trip(
            registry,
            tag,
            struct_type,
            bytes,
            middle,
            (count - 1) as nat,
            done.push(element),
        );
        if middle <= n {
            lemma_elements_prefix(
                registry,
                tag,
                struct_type,
                bytes,
                middle,
                (count - 1) as nat,
                done.push(element),
                n,
            );
        }
    }
}

/// The same for a pair of a key and a value.
pub proof fn lemma_pair_prefix(
    registry: Seq<LayoutModel>,
    key_tag: TypeTag,
    value_tag: TypeTag,
    bytes: Seq<u8>,
    pos: int,
    n: int,
)
    requires
        0 <= pos <= n <= bytes.len(),
        parse_pair(registry, key_tag, value_tag, bytes, pos) is Ok,
    ensures
        parse_pair(registry, key_tag, value_tag, bytes.take(n), pos) == cut(
            parse_pair(registry, key_tag, value_tag, bytes, pos),
            n,
        ),
    decreases bytes.len() - pos, 2int, 0nat,
{
    lemma_element_round_trip(registry, key_tag, empty_text(), bytes, pos);
    lemma_element_prefix(registry, key_tag, empty_text(), bytes, pos, n);
    let (key, middle) = parse_element(registry, key_tag, empty_text(), bytes, pos)->Ok_0;
    lemma_element_round_trip(registry, value_tag, empty_text(), bytes, middle);
    if middle <= n {
        lemma_element_prefix(registry, value_tag, empty_text(), bytes, middle, n);
    }
}

/// The same for the entries of a map.
pub proof fn lemma_pairs_prefix(
    registry: Seq<LayoutModel>,
    key_tag: TypeTag,
    value_tag: TypeTag,
    bytes: Seq<u8>,
    pos: int,
    count: nat,
    done: Seq<(ValueModel, ValueModel)>,
    n: int,
)
    requires
        0 <= pos <= n <= bytes.len(),
        parse_pairs(registry, key_tag, value_tag, bytes, pos, count, done) is Ok,
    ensures
        parse_pairs(registry, key_tag, value_tag, bytes.take(n), pos, count, done) == cut(
            parse_pairs(registry, key_tag, value_tag, bytes, pos, count, done),
            n,
        ),
    decreases bytes.len() - pos, 3int, count,
{
    if count > 0 {
        lemma_pair_round_trip(registry, key_tag, value_tag, bytes, pos);
        lemma_pair_prefix(registry, key_tag, value_tag, bytes, pos, n);
        let (pair, middle) = parse_pair(registry, key_tag, value_tag, bytes, pos)->Ok_0;
        lemma_pairs_round_trip(
            registry,
            key_tag,
            value_tag,
            bytes,
            middle,
            (count - 1) as nat,
            done.push(pair),
        );
        if middle <= n {
            lemma_pairs_prefix(
                registry,
                key_tag,
                value_tag,
                bytes,
                middle,
                (count - 1) as nat,
                done.push(pair),
                n,
            );
        }
    }
}

/// The same for the header and the elements of an array or a set.
pub proof fn lemma_sequence_prefix(registry: Seq<LayoutModel>, bytes: Seq<u8>, pos: int, n: int)
    requires
        0 <= pos <= n <= bytes.len(),
        parse_sequence(registry, bytes, pos) is Ok,
    ensures
        parse_sequence(registry, bytes.take(n), pos) == cut(parse_sequence(registry, bytes, pos), n),
    decreases bytes.len() - pos, 4int, 0nat,
{
    lemma_tag_round_trip(bytes, pos);
    lemma_tag_prefix(bytes, pos, n);
    let (tag, at1) = parse_tag(bytes, pos)->Ok_0;
    lemma_le_round_trip(bytes, at1, 4);
    let (count, at2) = parse_le(bytes, at1, 4)->Ok_0;
    if at1 <= n {
        lemma_le_prefix(bytes, at1, 4, n);
    }
    if tag == TypeTag::Struct {
        lemma_text_round_trip(bytes, at2);
        let (struct_type, at3) = parse_text(bytes, at2)->Ok_0;
        lemma_elements_round_trip(registry, tag, struct_type, bytes, at3, count, Seq::empty());
        if at2 <= n {
            lemma_text_prefix(bytes, at2, n);
        }
        if at3 <= n {
            lemma_elements_prefix(registry, tag, struct_type, bytes, at3, count, Seq::empty(), n);
        }
    } else {
        lemma_elements_round_trip(registry, tag, empty_text(), bytes, at2, count, Seq::empty());
        if at2 <= n {
            lemma_elements_prefix(registry, tag, empty_text(), bytes, at2, count, Seq::empty(), n);
        }
    }
}

/// The same for the body of a struct property, whose payload is taken whole.
pub proof fn lemma_struct_prefix(registry: Seq<LayoutModel>, size: u64, bytes: Seq<u8>, pos: int, n: int)
    requires
        0 <= pos <= n <= bytes.len(),
        parse_struct(registry, size, bytes, pos) is Ok,
    ensures
        parse_struct(registry, size, bytes.take(n), pos) == cut(
            parse_struct(registry, size, bytes, pos),
            n,
        ),
    decreases bytes.len() - pos, 4int, 0nat,
{
    lemma_text_round_trip(bytes, pos);
    lemma_text_prefix(bytes, pos, n);
    let (struct_type, at1) = parse_text(bytes, pos)->Ok_0;
    let (guid, at2) = parse_bytes(bytes, at1, 16)->Ok_0;
    if at1 <= n {
        lemma_bytes_prefix(bytes, at1, 16, n);
    }
    if at2 <= n {
        lemma_bytes_prefix(bytes, at2, size as nat, n);
    }
}

/// The same for the body of a map property.
pub proof fn lemma_mapping_prefix(registry: Seq<LayoutModel>, bytes: Seq<u8>, pos: int, n: int)
    requires
        0 <= pos <= n <= bytes.len(),
        parse_mapping(registry, bytes, pos) is Ok,
    ensures
        parse_mapping(registry, bytes.take(n), pos) == cut(parse_mapping(registry, bytes, pos), n),
    decreases bytes.len() - pos, 4int, 0nat,
{
    lemma_tag_round_trip(bytes, pos);
    lemma_tag_prefix(bytes, pos, n);
    let (key_tag, at1) = parse_tag(bytes, pos)->Ok_0;
    lemma_tag_round_trip(bytes, at1);
    let (value_tag, at2) = parse_tag(bytes, at1)->Ok_0;
    lemma_le_round_trip(bytes, at2, 4);
    let (flags, at3) = parse_le(bytes, at2, 4)->Ok_0;
    lemma_le_round_trip(bytes, at3, 4);
    let (count, at4) = parse_le(bytes, at3, 4)->Ok_0;
    lemma_pairs_round_trip(registry, key_tag, value_tag, bytes, at4, count, Seq::empty());
    if at1 <= n {
        lemma_tag_prefix(bytes, at1, n);
    }
    if at2 <= n {
        lemma_le_prefix(bytes, at2, 4, n);
    }
    if at3 <= n {
        lemma_le_prefix(bytes, at3, 4, n);
    }
    if at4 <= n {
        lemma_pairs_prefix(registry, key_tag, value_tag, bytes, at4, count, Seq::empty(), n);
    }
}

/// The same for what follows the declared size of a property.
pub proof fn lemma_body_prefix(registry: Seq<LayoutModel>, tag: TypeTag, size: u64, bytes: Seq<u8>, pos: int, n: int)
    requires
        0 <= pos <= n <= bytes.len(),
        parse_body(registry, tag, size, bytes, pos) is Ok,
    ensures
        parse_body(registry, tag, size, bytes.take(n), pos) == cut(
            parse_body(registry, tag, size, bytes, pos),
            n,
        ),
    decreases bytes.len() - pos, 5int, 0nat,
{
    match tag {
        TypeTag::Enum => {
            lemma_enum_prefix(bytes, pos, n);
        },
        TypeTag::Byte => {
            lemma_byte_prefix(bytes, pos, n);
        },
        TypeTag::Struct => {
            lemma_struct_prefix(registry, size, bytes, pos, n);
        },
        TypeTag::Array | TypeTag::UniqueSet => {
            lemma_sequence_prefix(registry, bytes, pos, n);
        },
        TypeTag::Mapping => {
            lemma_mapping_prefix(registry, bytes, pos, n);
        },
        _ => {
            lemma_simple_prefix(tag, bytes, pos, n);
        },
    }
}

/// The same for the properties of a scope.
pub proof fn lemma_scope_prefix(registry: Seq<LayoutModel>, bytes: Seq<u8>, pos: int, done: Seq<PropertyModel>, n: int)
    requires
        0 <= pos <= n <= bytes.len(),
        parse_scope(registry, bytes, pos, done) is Ok,
    ensures
        parse_scope(registry, bytes.take(n), pos, done) == cut(
            parse_scope(registry, bytes, pos, done),
            n,
        ),
    decreases bytes.len() - pos, 0int, 0nat,
{
    lemma_text_round_trip(bytes, pos);
    lemma_text_prefix(bytes, pos, n);
    let (name, at1) = parse_text(bytes, pos)->Ok_0;
    if name != sentinel() {
        lemma_tag_round_trip(bytes, at1);
        let (tag, at2) = parse_tag(bytes, at1)->Ok_0;
        lemma_le_round_trip(bytes, at2, 8);
        let (size, at3) = parse_le(bytes, at2, 8)->Ok_0;
        lemma_body_round_trip(registry, tag, size as u64, bytes, at3);
        let (value, at4) = parse_body(registry, tag, size as u64, bytes, at3)->Ok_0;
        let next = done.push(PropertyModel { name, tag, size: size as u64, value });
        lemma_scope_round_trip(registry, bytes, at4, next);
        if at1 <= n {
            lemma_tag_prefix(bytes, at1, n);
        }
        if at2 <= n {
            lemma_le_prefix(bytes, at2, 8, n);
        }
        if at3 <= n {
            lemma_body_prefix(registry, tag, size as u64, bytes, at3, n);
        }
        if at4 <= n {
            lemma_scope_prefix(registry, bytes, at4, next, n);
        }
    }
}

/// The same for the custom versions of a header.
pub proof fn lemma_versions_prefix(bytes: Seq<u8>, pos: int, count: nat, done: Seq<VersionModel>, n: int)
    requires
        0 <= pos <= n <= bytes.len(),
        parse_versions(bytes, pos, count, done) is Ok,
    ensures
        parse_versions(bytes.take(n), pos, count, done) == cut(
            parse_versions(bytes, pos, count, done),
            n,
        ),
    decreases count,
{
    if count > 0 {
        let (id, at1) = parse_bytes(bytes, pos, 16)->Ok_0;
        lemma_bytes_prefix(bytes, pos, 16, n);
        lemma_le_round_trip(bytes, at1, 4);
        if at1 <= n {
            lemma_le_prefix(bytes, at1, 4, n);
        }
        let (version, middle) = parse_version(bytes, pos)->Ok_0;
        lemma_versions_round_trip(bytes, middle, (count - 1) as nat, done.push(version));
        if middle <= n {
            lemma_versions_prefix(bytes, middle, (count - 1) as nat, done.push(version), n);
        }
    }
}

/// The same for a header.
pub proof fn lemma_header_prefix(bytes: Seq<u8>, pos: int, n: int)
    requires
        0 <= pos <= n <= bytes.len(),
        parse_header(bytes, pos) is Ok,
    ensures
        parse_header(bytes.take(n), pos) == cut(parse_header(bytes, pos), n),
{
    lemma_le_round_trip(bytes, pos, 2);
    lemma_le_prefix(bytes, pos, 2, n);
    let at1 = pos + 2;
    lemma_le_round_trip(bytes, at1, 2);
    let at2 = at1 + 2;
    lemma_le_round_trip(bytes, at2, 2);
    let at3 = at2 + 2;
    lemma_le_round_trip(bytes, at3, 4);
    let (count, at4) = parse_le(bytes, at3, 4)->Ok_0;
    lemma_versions_round_trip(bytes, at4, count, Seq::empty());
    if at1 <= n {
        lemma_le_prefix(bytes, at1, 2, n);
    }
    if at2 <= n {
        lemma_le_prefix(bytes, at2, 2, n);
    }
    if at3 <= n {
        lemma_le_prefix(bytes, at3, 4, n);
    }
    if at4 <= n {
        lemma_versions_prefix(bytes, at4, count, Seq::empty(), n);
    }
}

/// Truncation. Of every byte string that holds a document: each prefix that
/// ends before the end of the root scope fails to decode, as truncated.
pub proof fn law_truncation(registry: Seq<LayoutModel>, bytes: Seq<u8>, n: int)
    requires
        parse_document(registry, bytes) is Ok,
        0 <= n < bytes.len() - parse_document(registry, bytes)->Ok_0.trailer.len(),
    ensures
        parse_document(registry, bytes.take(n)) == Err::<crate::document::DocumentModel, ErrorModel>(
            ErrorModel::Truncated,
        ),
{
    lemma_header_round_trip(bytes, 0);
    lemma_header_prefix(bytes, 0, n);
    let (header, start) = parse_header(bytes, 0)->Ok_0;
    lemma_scope_round_trip(registry, bytes, start, Seq::empty());
    if start <= n {
        lemma_scope_prefix(registry, bytes, start, Seq::empty(), n);
    }
}

/// Prefixes that reach far enough. Of every byte string that holds a
/// document: each prefix that holds the whole root scope holds the same
/// header and the same root.
pub proof fn law_long_prefix(registry: Seq<LayoutModel>, bytes: Seq<u8>, n: int)
    requires
        parse_document(registry, bytes) is Ok,
        bytes.len() - parse_document(registry, bytes)->Ok_0.trailer.len() <= n <= bytes.len(),
    ensures
        parse_document(registry, bytes.take(n)) matches Ok(document) && document.header
            == parse_document(registry, bytes)->Ok_0.header && document.root == parse_document(
            registry,
            bytes,
        )->Ok_0.root,
{
    lemma_header_round_trip(bytes, 0);
    let (header, start) = parse_header(bytes, 0)->Ok_0;
    lemma_scope_round_trip(registry, bytes, start, Seq::empty());
    lemma_header_prefix(bytes, 0, n);
    lemma_scope_prefix(registry, bytes, start, Seq::empty(), n);
}

} // verus!
