use gvas_codec::compare::{same_tree, same_value};
use gvas_codec::container::open_container;
use gvas_codec::cursor::Cursor;
use gvas_codec::decode::is_sentinel;
use gvas_codec::document::{CustomVersion, Header, SaveDocument};
use gvas_codec::encode::{first_occurrences, payload_size, write_field, write_fields, write_text};
use gvas_codec::error::FormatError;
use gvas_codec::graphql::ID;
use gvas_codec::registry::StructRegistry;
use gvas_codec::text::Text;
use gvas_codec::tree::{FieldKind, FieldValue, Property, PropertyTree, PropertyValue, StructBody, TypeTag};

fn text(s: &str) -> Vec<u8> {
    let mut out = ((s.len() + 1) as i32).to_le_bytes().to_vec();
    out.extend_from_slice(s.as_bytes());
    out.push(0);
    out
}

fn wide(s: &str) -> Vec<u8> {
    let units: Vec<u16> = s.encode_utf16().collect();
    let mut out = (-((units.len() + 1) as i32)).to_le_bytes().to_vec();
    for unit in units {
        out.extend_from_slice(&unit.to_le_bytes());
    }
    out.extend_from_slice(&[0, 0]);
    out
}

fn property(name: &str, tag: &str, size: u64, body: &[u8]) -> Vec<u8> {
    let mut out = text(name);
    out.extend_from_slice(&text(tag));
    out.extend_from_slice(&size.to_le_bytes());
    out.extend_from_slice(body);
    out
}

fn struct_body(struct_type: &str, guid: [u8; 16], payload: &[u8]) -> Vec<u8> {
    let mut out = text(struct_type);
    out.extend_from_slice(&guid);
    out.extend_from_slice(payload);
    out
}

fn struct_property(name: &str, struct_type: &str, payload: &[u8]) -> Vec<u8> {
    property(name, "StructProperty", payload.len() as u64, &struct_body(struct_type, [0u8; 16], payload))
}

fn scope(properties: &[Vec<u8>]) -> Vec<u8> {
    let mut out = Vec::new();
    for p in properties {
        out.extend_from_slice(p);
    }
    out.extend_from_slice(&text("None"));
    out
}

fn header() -> Vec<u8> {
    let mut out = vec![5u8, 0, 1, 0, 2, 0];
    out.extend_from_slice(&2u32.to_le_bytes());
    out.extend_from_slice(&[0x11u8; 16]);
    out.extend_from_slice(&7i32.to_le_bytes());
    out.extend_from_slice(&[0x22u8; 16]);
    out.extend_from_slice(&(-3i32).to_le_bytes());
    out
}

fn id_bytes(seed: u8) -> [u8; 16] {
    let mut id = [0u8; 16];
    for (i, b) in id.iter_mut().enumerate() {
        *b = seed.wrapping_add(i as u8);
    }
    id
}

fn all_kinds() -> Vec<Vec<u8>> {
    let mut enum_body = text("EWeather");
    enum_body.extend_from_slice(&text("EWeather::Rain"));
    let mut byte_raw = text("None");
    byte_raw.push(200);
    let mut byte_named = text("EColor");
    byte_named.extend_from_slice(&text("EColor::Red"));
    let mut vector = Vec::new();
    for v in [1.0f64, -2.5, 3.25] {
        vector.extend_from_slice(&v.to_le_bytes());
    }
    let mut color = Vec::new();
    for v in [0.5f32, 0.25, 1.0, 0.0] {
        color.extend_from_slice(&v.to_le_bytes());
    }
    let nested = scope(&[
        property("Depth", "IntProperty", 4, &2i32.to_le_bytes()),
        struct_property("Inner", "Vector", &vector),
    ]);
    let mut ints = text("IntProperty");
    ints.extend_from_slice(&3u32.to_le_bytes());
    for v in [10i32, -20, 30] {
        ints.extend_from_slice(&v.to_le_bytes());
    }
    let mut structs = text("StructProperty");
    structs.extend_from_slice(&2u32.to_le_bytes());
    structs.extend_from_slice(&text("Item"));
    structs.extend_from_slice(&scope(&[property("Count", "IntProperty", 4, &1i32.to_le_bytes())]));
    structs.extend_from_slice(&scope(&[]));
    let mut guids = text("StructProperty");
    guids.extend_from_slice(&2u32.to_le_bytes());
    guids.extend_from_slice(&text("Guid"));
    guids.extend_from_slice(&id_bytes(1));
    guids.extend_from_slice(&id_bytes(50));
    let mut names = text("NameProperty");
    names.extend_from_slice(&2u32.to_le_bytes());
    names.extend_from_slice(&text("alpha"));
    names.extend_from_slice(&wide("b\u{e9}ta"));
    let mut flags = text("BoolProperty");
    flags.extend_from_slice(&3u32.to_le_bytes());
    flags.extend_from_slice(&[1, 0, 2]);
    let mut enums = text("EnumProperty");
    enums.extend_from_slice(&1u32.to_le_bytes());
    enums.extend_from_slice(&text("EWeather::Sun"));
    let mut bytes = text("ByteProperty");
    bytes.extend_from_slice(&4u32.to_le_bytes());
    bytes.extend_from_slice(&[9, 8, 7, 6]);
    let mut map = text("NameProperty");
    map.extend_from_slice(&text("StructProperty"));
    map.extend_from_slice(&0xabcdu32.to_le_bytes());
    map.extend_from_slice(&2u32.to_le_bytes());
    map.extend_from_slice(&text("first"));
    map.extend_from_slice(&scope(&[property("Value", "FloatProperty", 4, &1.5f32.to_le_bytes())]));
    map.extend_from_slice(&text("second"));
    map.extend_from_slice(&scope(&[]));
    let mut set = text("UInt32Property");
    set.extend_from_slice(&3u32.to_le_bytes());
    for v in [5u32, 1, 3] {
        set.extend_from_slice(&v.to_le_bytes());
    }
    vec![
        property("Flag", "BoolProperty", 0, &[1]),
        property("Odd", "BoolProperty", 0, &[7]),
        property("Tiny", "Int8Property", 1, &[0x80]),
        property("Short", "Int16Property", 2, &(-300i16).to_le_bytes()),
        property("Level", "IntProperty", 4, &15i32.to_le_bytes()),
        property("Big", "Int64Property", 8, &(-5_000_000_000i64).to_le_bytes()),
        property("U16", "UInt16Property", 2, &65535u16.to_le_bytes()),
        property("U32", "UInt32Property", 4, &4_000_000_000u32.to_le_bytes()),
        property("U64", "UInt64Property", 8, &u64::MAX.to_le_bytes()),
        property("Speed", "FloatProperty", 4, &1.25f32.to_le_bytes()),
        property("Time", "DoubleProperty", 8, &(-0.5f64).to_le_bytes()),
        property("PlayerName", "StrProperty", 12, &text("Tristan")),
        property("Wide", "StrProperty", 99, &wide("h\u{e9}llo")),
        property("Empty", "StrProperty", 4, &[0, 0, 0, 0]),
        property("Tag", "NameProperty", 9, &text("Hero")),
        property("Label", "TextProperty", 0, &text("Some label")),
        property("Weather", "EnumProperty", 19, &enum_body),
        property("Raw", "ByteProperty", 1, &byte_raw),
        property("Color", "ByteProperty", 16, &byte_named),
        property("Where", "StructProperty", 24, &struct_body("Vector", id_bytes(3), &vector)),
        struct_property("Tint", "LinearColor", &color),
        struct_property("When", "DateTime", &637_000_000_000_000_000i64.to_le_bytes()),
        struct_property("Who", "Guid", &id_bytes(9)),
        struct_property("Nested", "CustomThing", &nested),
        struct_property("Mystery", "Opaque", &[0xde, 0xad, 0xbe, 0xef, 0x01]),
        struct_property("ShortVector", "Vector", &[1, 2, 3, 4, 5, 6, 7, 8, 9, 10, 11, 12]),
        struct_property("Void", "Nothing", &[]),
        property("Numbers", "ArrayProperty", 0, &ints),
        property("Items", "ArrayProperty", 0, &structs),
        property("Ids", "ArrayProperty", 0, &guids),
        property("Names", "ArrayProperty", 0, &names),
        property("Flags", "ArrayProperty", 0, &flags),
        property("Seasons", "ArrayProperty", 0, &enums),
        property("Blob", "ArrayProperty", 0, &bytes),
        property("Table", "MapProperty", 0, &map),
        property("Unique", "SetProperty", 0, &set),
    ]
}

fn document_bytes() -> (Vec<u8>, usize) {
    let mut out = header();
    out.extend_from_slice(&scope(&all_kinds()));
    let end = out.len();
    out.extend_from_slice(&[0, 0, 0, 0]);
    (out, end)
}

fn find<'a>(tree: &'a PropertyTree, name: &[u8]) -> &'a Property {
    tree.entries.iter().find(|p| p.name.is_ascii(name)).unwrap()
}

#[test]
fn the_example_stream_decodes_to_two_named_entries() {
    let stream = scope(&[
        property("PlayerName", "StrProperty", 12, &text("Tristan")),
        property("Level", "IntProperty", 4, &15i32.to_le_bytes()),
    ]);
    let mut file = b"GVAS".to_vec();
    file.extend_from_slice(&(stream.len() as u32).to_le_bytes());
    file.extend_from_slice(&(stream.len() as u32).to_le_bytes());
    file.push(0);
    file.extend_from_slice(&stream);
    let raw = open_container(&file).unwrap();
    assert_eq!(raw, stream);
    let mut cursor = Cursor::new(&raw);
    let tree = PropertyTree::decode(&mut cursor, &StructRegistry::standard()).unwrap();
    assert_eq!(cursor.remaining(), 0);
    assert_eq!(tree.entries.len(), 2);
    assert!(tree.entries[0].name.is_ascii(b"PlayerName"));
    assert_eq!(tree.entries[0].tag, TypeTag::Str);
    assert_eq!(tree.entries[0].size, 12);
    assert!(matches!(&tree.entries[0].value, PropertyValue::Str(t) if t.to_string() == "Tristan"));
    assert!(tree.entries[1].name.is_ascii(b"Level"));
    assert_eq!(tree.entries[1].tag, TypeTag::Int32);
    assert_eq!(tree.entries[1].size, 4);
    assert!(matches!(tree.entries[1].value, PropertyValue::Int32(15)));
    assert_eq!(tree.encode().unwrap(), stream);
}

#[test]
fn every_kind_of_property_decodes_to_its_value() {
    let (bytes, end) = document_bytes();
    let document = SaveDocument::decode(&bytes, &StructRegistry::standard()).unwrap();
    assert_eq!(document.header.engine_major, 5);
    assert_eq!(document.header.engine_minor, 1);
    assert_eq!(document.header.engine_patch, 2);
    assert_eq!(document.header.custom_versions.len(), 2);
    assert_eq!(document.header.custom_versions[0].id, ID([0x11; 16]));
    assert_eq!(document.header.custom_versions[0].version, 7);
    assert_eq!(document.header.custom_versions[1].version, -3);
    assert_eq!(document.trailer, vec![0, 0, 0, 0]);
    assert_eq!(bytes.len() - document.trailer.len(), end);
    let root = &document.root;
    assert_eq!(root.entries.len(), 36);
    assert!(matches!(find(root, b"Flag").value, PropertyValue::Bool(1)));
    assert!(matches!(find(root, b"Odd").value, PropertyValue::Bool(7)));
    assert!(matches!(find(root, b"Tiny").value, PropertyValue::Int8(-128)));
    assert!(matches!(find(root, b"Short").value, PropertyValue::Int16(-300)));
    assert!(matches!(find(root, b"Level").value, PropertyValue::Int32(15)));
    assert!(matches!(find(root, b"Big").value, PropertyValue::Int64(-5_000_000_000)));
    assert!(matches!(find(root, b"U16").value, PropertyValue::UInt16(65535)));
    assert!(matches!(find(root, b"U32").value, PropertyValue::UInt32(4_000_000_000)));
    assert!(matches!(find(root, b"U64").value, PropertyValue::UInt64(u64::MAX)));
    assert!(matches!(find(root, b"Speed").value, PropertyValue::Float32(b) if f32::from_bits(b) == 1.25));
    assert!(matches!(find(root, b"Time").value, PropertyValue::Float64(b) if f64::from_bits(b) == -0.5));
    assert!(matches!(&find(root, b"Wide").value, PropertyValue::Str(t) if t.to_string() == "h\u{e9}llo"));
    assert_eq!(find(root, b"Wide").size, 99);
    assert!(matches!(&find(root, b"Empty").value, PropertyValue::Str(Text::Narrow(u)) if u.is_empty()));
    assert_eq!(find(root, b"Tag").tag, TypeTag::Name);
    assert_eq!(find(root, b"Label").tag, TypeTag::Text);
    assert!(matches!(&find(root, b"Weather").value,
        PropertyValue::Enum { enum_type, value } if enum_type.is_ascii(b"EWeather") && value.is_ascii(b"EWeather::Rain")));
    assert!(matches!(&find(root, b"Raw").value, PropertyValue::Byte { enum_name: None, raw: 200 }));
    assert_eq!(find(root, b"Color").tag, TypeTag::Byte);
    assert!(matches!(&find(root, b"Color").value,
        PropertyValue::Enum { enum_type, value } if enum_type.is_ascii(b"EColor") && value.is_ascii(b"EColor::Red")));
    match &find(root, b"Where").value {
        PropertyValue::Struct { struct_type, guid, body: StructBody::Fixed(fields) } => {
            assert!(struct_type.is_ascii(b"Vector"));
            assert_eq!(*guid, Some(ID(id_bytes(3))));
            assert_eq!(fields.len(), 3);
            assert!(matches!(fields[0], FieldValue::Float64(b) if f64::from_bits(b) == 1.0));
            assert!(matches!(fields[1], FieldValue::Float64(b) if f64::from_bits(b) == -2.5));
            assert!(matches!(fields[2], FieldValue::Float64(b) if f64::from_bits(b) == 3.25));
        },
        other => panic!("{:?}", other),
    }
    match &find(root, b"Tint").value {
        PropertyValue::Struct { body: StructBody::Fixed(fields), .. } => {
            assert_eq!(fields.len(), 4);
            assert!(matches!(fields[1], FieldValue::Float32(b) if f32::from_bits(b) == 0.25));
        },
        other => panic!("{:?}", other),
    }
    assert!(matches!(&find(root, b"When").value,
        PropertyValue::Struct { body: StructBody::Fixed(f), .. } if matches!(f[..], [FieldValue::Int64(637_000_000_000_000_000)])));
    assert!(matches!(&find(root, b"Who").value,
        PropertyValue::Struct { body: StructBody::Fixed(f), .. } if matches!(f[..], [FieldValue::Guid(id)] if id == ID(id_bytes(9)))));
    match &find(root, b"Nested").value {
        PropertyValue::Struct { struct_type, guid, body: StructBody::Fields(tree) } => {
            assert!(struct_type.is_ascii(b"CustomThing"));
            assert_eq!(*guid, Some(ID::nil()));
            assert_eq!(tree.entries.len(), 2);
            assert!(matches!(find(tree, b"Depth").value, PropertyValue::Int32(2)));
            assert!(matches!(&find(tree, b"Inner").value, PropertyValue::Struct { body: StructBody::Fixed(_), .. }));
        },
        other => panic!("{:?}", other),
    }
    assert!(matches!(&find(root, b"Void").value,
        PropertyValue::Struct { body: StructBody::Raw(b), .. } if b.is_empty()));
    match &find(root, b"Numbers").value {
        PropertyValue::Array { element_tag: TypeTag::Int32, element_struct: None, elements } => {
            assert!(matches!(elements[..], [PropertyValue::Int32(10), PropertyValue::Int32(-20), PropertyValue::Int32(30)]));
        },
        other => panic!("{:?}", other),
    }
    match &find(root, b"Items").value {
        PropertyValue::Array { element_tag: TypeTag::Struct, element_struct: Some(name), elements } => {
            assert!(name.is_ascii(b"Item"));
            assert_eq!(elements.len(), 2);
            match &elements[0] {
                PropertyValue::Struct { struct_type, guid: None, body: StructBody::Fields(tree) } => {
                    assert!(struct_type.is_ascii(b"Item"));
                    assert!(matches!(find(tree, b"Count").value, PropertyValue::Int32(1)));
                },
                other => panic!("{:?}", other),
            }
            assert!(matches!(&elements[1], PropertyValue::Struct { body: StructBody::Fields(t), .. } if t.entries.is_empty()));
        },
        other => panic!("{:?}", other),
    }
    match &find(root, b"Ids").value {
        PropertyValue::Array { elements, .. } => {
            assert_eq!(elements.len(), 2);
            assert!(matches!(&elements[1],
                PropertyValue::Struct { body: StructBody::Fixed(f), .. } if matches!(f[..], [FieldValue::Guid(id)] if id == ID(id_bytes(50)))));
        },
        other => panic!("{:?}", other),
    }
    match &find(root, b"Names").value {
        PropertyValue::Array { element_tag: TypeTag::Name, elements, .. } => {
            assert!(matches!(&elements[0], PropertyValue::Str(t) if t.to_string() == "alpha"));
            assert!(matches!(&elements[1], PropertyValue::Str(t) if t.to_string() == "b\u{e9}ta"));
        },
        other => panic!("{:?}", other),
    }
    assert!(matches!(&find(root, b"Flags").value,
        PropertyValue::Array { elements, .. } if matches!(elements[..], [PropertyValue::Bool(1), PropertyValue::Bool(0), PropertyValue::Bool(2)])));
    assert!(matches!(&find(root, b"Seasons").value,
        PropertyValue::Array { element_tag: TypeTag::Enum, elements, .. } if matches!(&elements[..], [PropertyValue::Str(t)] if t.is_ascii(b"EWeather::Sun"))));
    assert!(matches!(&find(root, b"Blob").value,
        PropertyValue::Array { element_tag: TypeTag::Byte, elements, .. } if elements.len() == 4
            && matches!(elements[3], PropertyValue::Byte { enum_name: None, raw: 6 })));
    match &find(root, b"Table").value {
        PropertyValue::Mapping { key_tag: TypeTag::Name, value_tag: TypeTag::Struct, flags: 0xabcd, entries } => {
            assert_eq!(entries.len(), 2);
            assert!(matches!(&entries[0].0, PropertyValue::Str(t) if t.is_ascii(b"first")));
            match &entries[0].1 {
                PropertyValue::Struct { struct_type: Text::Narrow(t), guid: None, body: StructBody::Fields(tree) } => {
                    assert!(t.is_empty());
                    assert!(matches!(find(tree, b"Value").value, PropertyValue::Float32(b) if f32::from_bits(b) == 1.5));
                },
                other => panic!("{:?}", other),
            }
            assert!(matches!(&entries[1].0, PropertyValue::Str(t) if t.is_ascii(b"second")));
        },
        other => panic!("{:?}", other),
    }
    assert!(matches!(&find(root, b"Unique").value,
        PropertyValue::UniqueSet { element_tag: TypeTag::UInt32, element_struct: None, elements }
            if matches!(elements[..], [PropertyValue::UInt32(5), PropertyValue::UInt32(1), PropertyValue::UInt32(3)])));
}

#[test]
fn encoding_a_decoded_document_gives_the_bytes_it_was_read_from() {
    let (bytes, _) = document_bytes();
    let registry = StructRegistry::standard();
    let document = SaveDocument::decode(&bytes, &registry).unwrap();
    let written = document.encode().unwrap();
    assert_eq!(written, bytes);
    let again = SaveDocument::decode(&written, &registry).unwrap();
    assert!(same_tree(&again.root, &document.root));
    assert_eq!(again.trailer, document.trailer);
    assert_eq!(again.header.custom_versions.len(), document.header.custom_versions.len());
    assert_eq!(again.encode().unwrap(), bytes);
}

#[test]
fn the_round_trip_holds_with_an_empty_registry_too() {
    let (bytes, _) = document_bytes();
    let registry = StructRegistry::new();
    let document = SaveDocument::decode(&bytes, &registry);
    // Without layouts the array of identifiers cannot be read as property lists.
    assert!(document.is_err());
    let mut small = header();
    small.extend_from_slice(&scope(&[
        struct_property("Who", "Guid", &id_bytes(9)),
        struct_property("Nested", "CustomThing", &scope(&[property("Depth", "IntProperty", 4, &2i32.to_le_bytes())])),
    ]));
    let document = SaveDocument::decode(&small, &registry).unwrap();
    assert!(matches!(&find(&document.root, b"Who").value,
        PropertyValue::Struct { body: StructBody::Raw(b), .. } if b[..] == id_bytes(9)));
    assert!(matches!(&find(&document.root, b"Nested").value, PropertyValue::Struct { body: StructBody::Fields(_), .. }));
    assert_eq!(document.encode().unwrap(), small);
    assert!(document.trailer.is_empty());
}

#[test]
fn every_prefix_that_ends_before_the_end_of_the_root_scope_is_truncated() {
    let (bytes, end) = document_bytes();
    let registry = StructRegistry::standard();
    for n in 0..end {
        let r = SaveDocument::decode(&bytes[..n], &registry);
        assert!(matches!(r, Err(FormatError::Truncated)), "prefix of {} bytes", n);
    }
    for n in end..=bytes.len() {
        let document = SaveDocument::decode(&bytes[..n], &registry).unwrap();
        assert_eq!(document.root.entries.len(), 36);
        assert_eq!(document.trailer.len(), n - end);
    }
}

#[test]
fn a_struct_of_an_unknown_layout_is_kept_raw_and_written_back() {
    let garbage = [0xde, 0xad, 0xbe, 0xef, 0x01];
    let mut bytes = header();
    bytes.extend_from_slice(&scope(&[
        property("Before", "IntProperty", 4, &1i32.to_le_bytes()),
        struct_property("Mystery", "Opaque", &garbage),
        property("After", "StrProperty", 0, &text("still here")),
    ]));
    let registry = StructRegistry::standard();
    let document = SaveDocument::decode(&bytes, &registry).unwrap();
    assert_eq!(document.root.entries.len(), 3);
    assert!(matches!(find(&document.root, b"Before").value, PropertyValue::Int32(1)));
    match &find(&document.root, b"Mystery").value {
        PropertyValue::Struct { struct_type, guid, body: StructBody::Raw(raw) } => {
            assert!(struct_type.is_ascii(b"Opaque"));
            assert_eq!(*guid, Some(ID::nil()));
            assert_eq!(raw[..], garbage);
        },
        other => panic!("{:?}", other),
    }
    assert_eq!(find(&document.root, b"Mystery").size, 5);
    assert!(matches!(&find(&document.root, b"After").value, PropertyValue::Str(t) if t.to_string() == "still here"));
    assert_eq!(document.encode().unwrap(), bytes);
}

#[test]
fn a_struct_whose_payload_is_a_list_and_more_is_kept_raw() {
    let mut payload = scope(&[property("Depth", "IntProperty", 4, &2i32.to_le_bytes())]);
    payload.push(0x77);
    let mut bytes = header();
    bytes.extend_from_slice(&scope(&[struct_property("Over", "Thing", &payload)]));
    let document = SaveDocument::decode(&bytes, &StructRegistry::standard()).unwrap();
    assert!(matches!(&find(&document.root, b"Over").value,
        PropertyValue::Struct { body: StructBody::Raw(raw), .. } if raw == &payload));
    assert_eq!(document.encode().unwrap(), bytes);
}

#[test]
fn an_unknown_tag_inside_a_struct_is_contained() {
    let payload = scope(&[property("Odd", "WeirdProperty", 0, &[])]);
    let mut bytes = header();
    bytes.extend_from_slice(&scope(&[struct_property("Holder", "Thing", &payload)]));
    let document = SaveDocument::decode(&bytes, &StructRegistry::standard()).unwrap();
    assert!(matches!(&find(&document.root, b"Holder").value,
        PropertyValue::Struct { body: StructBody::Raw(raw), .. } if raw == &payload));
}

#[test]
fn a_fixed_layout_of_another_size_than_declared_is_kept_raw() {
    let (bytes, _) = document_bytes();
    let document = SaveDocument::decode(&bytes, &StructRegistry::standard()).unwrap();
    assert!(matches!(&find(&document.root, b"ShortVector").value,
        PropertyValue::Struct { body: StructBody::Raw(raw), .. } if raw.len() == 12));
}

#[test]
fn an_unknown_tag_at_the_top_fails_the_document() {
    let mut bytes = header();
    bytes.extend_from_slice(&scope(&[
        property("Fine", "IntProperty", 4, &1i32.to_le_bytes()),
        property("Odd", "WeirdProperty", 0, &[]),
    ]));
    match SaveDocument::decode(&bytes, &StructRegistry::standard()) {
        Err(FormatError::UnknownPropertyType(tag)) => assert!(tag.is_ascii(b"WeirdProperty")),
        other => panic!("{:?}", other),
    }
    let mut wide_tag = header();
    wide_tag.extend_from_slice(&text("Fine"));
    wide_tag.extend_from_slice(&wide("IntProperty"));
    assert!(matches!(
        SaveDocument::decode(&wide_tag, &StructRegistry::standard()),
        Err(FormatError::UnknownPropertyType(Text::Wide(_)))
    ));
}

#[test]
fn a_collection_cannot_be_an_element() {
    let mut nested = text("ArrayProperty");
    nested.extend_from_slice(&1u32.to_le_bytes());
    let mut bytes = header();
    bytes.extend_from_slice(&scope(&[property("Deep", "ArrayProperty", 0, &nested)]));
    match SaveDocument::decode(&bytes, &StructRegistry::standard()) {
        Err(FormatError::UnknownPropertyType(tag)) => assert!(tag.is_ascii(b"ArrayProperty")),
        other => panic!("{:?}", other),
    }
    let tree = PropertyTree {
        entries: vec![Property {
            name: Text::from_ascii(b"Deep"),
            tag: TypeTag::Array,
            size: 0,
            value: PropertyValue::Array {
                element_tag: TypeTag::Array,
                element_struct: None,
                elements: vec![PropertyValue::Array { element_tag: TypeTag::Int32, element_struct: None, elements: vec![] }],
            },
        }],
    };
    assert!(tree.encode().is_none());
}

#[test]
fn a_set_keeps_repeats_when_read_and_drops_them_when_written() {
    let mut set = text("IntProperty");
    set.extend_from_slice(&5u32.to_le_bytes());
    for v in [4i32, 2, 4, 9, 2] {
        set.extend_from_slice(&v.to_le_bytes());
    }
    let stream = scope(&[property("Unique", "SetProperty", 24, &set)]);
    let mut cursor = Cursor::new(&stream);
    let tree = PropertyTree::decode(&mut cursor, &StructRegistry::standard()).unwrap();
    match &tree.entries[0].value {
        PropertyValue::UniqueSet { elements, .. } => {
            assert!(matches!(
                elements[..],
                [PropertyValue::Int32(4), PropertyValue::Int32(2), PropertyValue::Int32(4), PropertyValue::Int32(9), PropertyValue::Int32(2)]
            ));
            assert_eq!(first_occurrences(elements), vec![0, 1, 3]);
        },
        other => panic!("{:?}", other),
    }
    let mut distinct = text("IntProperty");
    distinct.extend_from_slice(&3u32.to_le_bytes());
    for v in [4i32, 2, 9] {
        distinct.extend_from_slice(&v.to_le_bytes());
    }
    let expected = scope(&[property("Unique", "SetProperty", 24, &distinct)]);
    assert_eq!(tree.encode().unwrap(), expected);
}

#[test]
fn decoding_a_scope_leaves_the_cursor_behind_the_sentinel_or_where_it_was() {
    let mut stream = vec![0xee];
    stream.extend_from_slice(&scope(&[property("Level", "IntProperty", 4, &15i32.to_le_bytes())]));
    let end = stream.len();
    stream.extend_from_slice(&[1, 2, 3]);
    let registry = StructRegistry::standard();
    let mut cursor = Cursor::new(&stream);
    cursor.read_u8().unwrap();
    let tree = PropertyTree::decode(&mut cursor, &registry).unwrap();
    assert_eq!(tree.entries.len(), 1);
    assert_eq!(cursor.position(), end);
    let broken = &stream[..end - 2];
    let mut cursor = Cursor::new(broken);
    cursor.read_u8().unwrap();
    assert!(matches!(PropertyTree::decode(&mut cursor, &registry), Err(FormatError::Truncated)));
    assert_eq!(cursor.position(), 1);
}

#[test]
fn a_header_is_written_back_as_it_was_read() {
    let document = SaveDocument {
        header: Header {
            engine_major: 4,
            engine_minor: 27,
            engine_patch: 2,
            custom_versions: vec![CustomVersion { id: ID(id_bytes(7)), version: -1 }],
        },
        root: PropertyTree { entries: vec![] },
        trailer: vec![9, 9],
    };
    let bytes = document.encode().unwrap();
    let mut expected = vec![4u8, 0, 27, 0, 2, 0, 1, 0, 0, 0];
    expected.extend_from_slice(&id_bytes(7));
    expected.extend_from_slice(&[0xff, 0xff, 0xff, 0xff]);
    expected.extend_from_slice(&[5, 0, 0, 0, b'N', b'o', b'n', b'e', 0]);
    expected.extend_from_slice(&[9, 9]);
    assert_eq!(bytes, expected);
    let again = SaveDocument::decode(&bytes, &StructRegistry::new()).unwrap();
    assert_eq!(again.header.engine_minor, 27);
    assert_eq!(again.header.custom_versions[0].id, ID(id_bytes(7)));
    assert_eq!(again.header.custom_versions[0].version, -1);
    assert_eq!(again.trailer, vec![9, 9]);
}

#[test]
fn a_built_tree_is_written_in_the_layout_of_the_stream() {
    let tree = PropertyTree {
        entries: vec![
            Property { name: Text::from_ascii(b"Raw"), tag: TypeTag::Byte, size: 1, value: PropertyValue::Byte { enum_name: None, raw: 3 } },
            Property {
                name: Text::from_ascii(b"Where"),
                tag: TypeTag::Struct,
                size: 4,
                value: PropertyValue::Struct {
                    struct_type: Text::from_ascii(b"Spot"),
                    guid: None,
                    body: StructBody::Fixed(vec![FieldValue::Int32(-2)]),
                },
            },
            Property {
                name: Text::Wide(vec![0x00e9, 0]),
                tag: TypeTag::Array,
                size: 0,
                value: PropertyValue::Array {
                    element_tag: TypeTag::Struct,
                    element_struct: None,
                    elements: vec![],
                },
            },
        ],
    };
    let mut raw_body = text("None");
    raw_body.push(3);
    let mut array_body = text("StructProperty");
    array_body.extend_from_slice(&0u32.to_le_bytes());
    array_body.extend_from_slice(&[0, 0, 0, 0]);
    let mut third = wide("\u{e9}");
    third.extend_from_slice(&text("ArrayProperty"));
    third.extend_from_slice(&0u64.to_le_bytes());
    third.extend_from_slice(&array_body);
    let expected = scope(&[
        property("Raw", "ByteProperty", 1, &raw_body),
        property("Where", "StructProperty", 4, &struct_body("Spot", [0u8; 16], &(-2i32).to_le_bytes())),
        third,
    ]);
    assert_eq!(tree.encode().unwrap(), expected);
}

#[test]
fn write_text_writes_the_prefix_and_the_units() {
    let mut out = vec![1u8];
    assert!(write_text(&Text::from_ascii(b"Hi"), &mut out));
    assert_eq!(out, vec![1, 3, 0, 0, 0, b'H', b'i', 0]);
    let mut out = Vec::new();
    assert!(write_text(&Text::Wide(vec![0x3042, 0]), &mut out));
    assert_eq!(out, vec![0xfe, 0xff, 0xff, 0xff, 0x42, 0x30, 0, 0]);
    let mut out = Vec::new();
    assert!(write_text(&Text::Narrow(vec![]), &mut out));
    assert_eq!(out, vec![0, 0, 0, 0]);
}

#[test]
fn fields_are_written_in_their_width() {
    let mut out = Vec::new();
    write_field(&FieldValue::Float32(1.0f32.to_bits()), &mut out);
    assert_eq!(out, 1.0f32.to_le_bytes().to_vec());
    let mut out = Vec::new();
    write_fields(&vec![FieldValue::Int32(-1), FieldValue::Int64(2), FieldValue::Guid(ID(id_bytes(1)))], &mut out);
    let mut expected = vec![0xff, 0xff, 0xff, 0xff, 2, 0, 0, 0, 0, 0, 0, 0];
    expected.extend_from_slice(&id_bytes(1));
    assert_eq!(out, expected);
    let mut out = Vec::new();
    write_field(&FieldValue::Float64(2.5f64.to_bits()), &mut out);
    assert_eq!(out, 2.5f64.to_le_bytes().to_vec());
}

#[test]
fn tags_are_named_as_in_the_stream() {
    assert_eq!(TypeTag::Int32.name(), b"IntProperty");
    assert_eq!(TypeTag::Mapping.name(), b"MapProperty");
    assert_eq!(TypeTag::UniqueSet.name(), b"SetProperty");
    assert_eq!(TypeTag::Double.name(), b"DoubleProperty");
    let all = [
        TypeTag::Bool, TypeTag::Int8, TypeTag::Int16, TypeTag::Int32, TypeTag::Int64, TypeTag::UInt16,
        TypeTag::UInt32, TypeTag::UInt64, TypeTag::Float, TypeTag::Double, TypeTag::Str, TypeTag::Name,
        TypeTag::Text, TypeTag::Enum, TypeTag::Byte, TypeTag::Struct, TypeTag::Array, TypeTag::Mapping,
        TypeTag::UniqueSet,
    ];
    for tag in all {
        assert_eq!(TypeTag::from_text(&Text::from_ascii(tag.name())), Some(tag));
    }
    assert_eq!(TypeTag::from_text(&Text::from_ascii(b"intproperty")), None);
    assert_eq!(TypeTag::from_text(&Text::Narrow(b"IntProperty".to_vec())), None);
    assert!(is_sentinel(&Text::from_ascii(b"None")));
    assert!(!is_sentinel(&Text::from_ascii(b"none")));
    assert!(!is_sentinel(&Text::Wide(vec![0x4e, 0x6f, 0x6e, 0x65, 0])));
}

#[test]
fn the_registry_finds_the_first_layout_of_a_name() {
    let mut registry = StructRegistry::new();
    assert!(registry.find(&Text::from_ascii(b"Vector")).is_none());
    registry.register(b"Pair", vec![FieldKind::Int32, FieldKind::Int32]);
    registry.register(b"Pair", vec![FieldKind::Int64]);
    assert_eq!(registry.find(&Text::from_ascii(b"Pair")).unwrap(), &vec![FieldKind::Int32, FieldKind::Int32]);
    assert!(registry.find(&Text::Narrow(b"Pair".to_vec())).is_none());
    let standard = StructRegistry::standard();
    assert_eq!(standard.find(&Text::from_ascii(b"Vector")).unwrap(), &vec![FieldKind::Float64; 3]);
    assert_eq!(standard.find(&Text::from_ascii(b"Rotator")).unwrap(), &vec![FieldKind::Float64; 3]);
    assert_eq!(standard.find(&Text::from_ascii(b"Quat")).unwrap(), &vec![FieldKind::Float64; 4]);
    assert_eq!(standard.find(&Text::from_ascii(b"DateTime")).unwrap(), &vec![FieldKind::Int64]);
    assert_eq!(standard.find(&Text::from_ascii(b"Guid")).unwrap(), &vec![FieldKind::Guid]);
    assert_eq!(standard.find(&Text::from_ascii(b"LinearColor")).unwrap(), &vec![FieldKind::Float32; 4]);
    assert!(standard.find(&Text::from_ascii(b"Opaque")).is_none());
    let stream = scope(&[struct_property("P", "Pair", &[1, 0, 0, 0, 2, 0, 0, 0])]);
    let mut cursor = Cursor::new(&stream);
    let tree = PropertyTree::decode(&mut cursor, &registry).unwrap();
    assert!(matches!(&tree.entries[0].value,
        PropertyValue::Struct { body: StructBody::Fixed(f), .. } if matches!(f[..], [FieldValue::Int32(1), FieldValue::Int32(2)])));
}

#[test]
fn values_are_the_same_where_they_hold_the_same() {
    let (bytes, _) = document_bytes();
    let registry = StructRegistry::standard();
    let a = SaveDocument::decode(&bytes, &registry).unwrap();
    let b = SaveDocument::decode(&bytes, &registry).unwrap();
    assert!(same_tree(&a.root, &b.root));
    for (x, y) in a.root.entries.iter().zip(b.root.entries.iter()) {
        assert!(same_value(&x.value, &y.value));
    }
    assert!(!same_value(&a.root.entries[0].value, &a.root.entries[1].value));
    assert!(!same_value(&PropertyValue::Int32(1), &PropertyValue::UInt32(1)));
    assert!(!same_value(&PropertyValue::Str(Text::Narrow(vec![65, 0])), &PropertyValue::Str(Text::Wide(vec![65, 0]))));
    let mut changed = SaveDocument::decode(&bytes, &registry).unwrap();
    changed.root.entries[4].value = PropertyValue::Int32(16);
    assert!(!same_tree(&a.root, &changed.root));
    let written = changed.encode().unwrap();
    assert_ne!(written, bytes);
    let reread = SaveDocument::decode(&written, &registry).unwrap();
    assert!(matches!(find(&reread.root, b"Level").value, PropertyValue::Int32(16)));
}

#[test]
fn a_property_declares_the_size_of_its_payload() {
    assert_eq!(payload_size(&PropertyValue::Bool(1)), Some(0));
    assert_eq!(payload_size(&PropertyValue::Int8(1)), Some(1));
    assert_eq!(payload_size(&PropertyValue::Int32(15)), Some(4));
    assert_eq!(payload_size(&PropertyValue::UInt64(15)), Some(8));
    assert_eq!(payload_size(&PropertyValue::Float64(0)), Some(8));
    assert_eq!(payload_size(&PropertyValue::Str(Text::from_ascii(b"Tristan"))), Some(12));
    assert_eq!(payload_size(&PropertyValue::Str(Text::Wide(vec![0x3042, 0]))), Some(8));
    assert_eq!(
        payload_size(&PropertyValue::Enum { enum_type: Text::from_ascii(b"EWeather"), value: Text::from_ascii(b"EWeather::Rain") }),
        Some(19)
    );
    assert_eq!(payload_size(&PropertyValue::Byte { enum_name: None, raw: 3 }), Some(1));
    assert_eq!(payload_size(&PropertyValue::Byte { enum_name: Some(Text::from_ascii(b"E")), raw: 3 }), Some(1));
    let vector = PropertyValue::Struct {
        struct_type: Text::from_ascii(b"Vector"),
        guid: Some(ID::nil()),
        body: StructBody::Fixed(vec![FieldValue::Float64(0), FieldValue::Float64(0), FieldValue::Float64(0)]),
    };
    assert_eq!(payload_size(&vector), Some(24));
    let numbers = PropertyValue::Array {
        element_tag: TypeTag::Int32,
        element_struct: None,
        elements: vec![PropertyValue::Int32(1), PropertyValue::Int32(2), PropertyValue::Int32(3)],
    };
    assert_eq!(payload_size(&numbers), Some(16));
    let unique = PropertyValue::UniqueSet {
        element_tag: TypeTag::Int32,
        element_struct: None,
        elements: vec![PropertyValue::Int32(1), PropertyValue::Int32(1), PropertyValue::Int32(3)],
    };
    assert_eq!(payload_size(&unique), Some(12));
    let table = PropertyValue::Mapping {
        key_tag: TypeTag::Int32,
        value_tag: TypeTag::Bool,
        flags: 0,
        entries: vec![(PropertyValue::Int32(1), PropertyValue::Bool(1))],
    };
    assert_eq!(payload_size(&table), Some(13));
    let deep = PropertyValue::Array {
        element_tag: TypeTag::Array,
        element_struct: None,
        elements: vec![PropertyValue::Array { element_tag: TypeTag::Int32, element_struct: None, elements: vec![] }],
    };
    assert_eq!(payload_size(&deep), None);
    let property = Property::new(Text::from_ascii(b"Level"), TypeTag::Int32, PropertyValue::Int32(15)).unwrap();
    assert_eq!(property.size, 4);
    assert_eq!(property.tag, TypeTag::Int32);
    assert!(property.name.is_ascii(b"Level"));
    assert!(matches!(property.value, PropertyValue::Int32(15)));
    assert!(Property::new(Text::from_ascii(b"Deep"), TypeTag::Array, deep).is_none());
}

#[test]
fn a_built_tree_is_read_back_from_what_was_written_for_it() {
    let inner = PropertyTree {
        entries: vec![
            Property::new(Text::from_ascii(b"Depth"), TypeTag::Int32, PropertyValue::Int32(2)).unwrap(),
            Property::new(Text::from_ascii(b"Title"), TypeTag::Str, PropertyValue::Str(Text::Wide(vec![0x00e9, 0]))).unwrap(),
        ],
    };
    let tree = PropertyTree {
        entries: vec![
            Property::new(Text::from_ascii(b"Flag"), TypeTag::Bool, PropertyValue::Bool(1)).unwrap(),
            Property::new(
                Text::from_ascii(b"Nested"),
                TypeTag::Struct,
                PropertyValue::Struct { struct_type: Text::from_ascii(b"Thing"), guid: Some(ID(id_bytes(5))), body: StructBody::Fields(inner) },
            )
            .unwrap(),
            Property::new(
                Text::from_ascii(b"Where"),
                TypeTag::Struct,
                PropertyValue::Struct {
                    struct_type: Text::from_ascii(b"DateTime"),
                    guid: Some(ID::nil()),
                    body: StructBody::Fixed(vec![FieldValue::Int64(-9)]),
                },
            )
            .unwrap(),
            Property::new(
                Text::from_ascii(b"Names"),
                TypeTag::Array,
                PropertyValue::Array {
                    element_tag: TypeTag::Str,
                    element_struct: None,
                    elements: vec![PropertyValue::Str(Text::from_ascii(b"a")), PropertyValue::Str(Text::Narrow(vec![]))],
                },
            )
            .unwrap(),
            Property::new(
                Text::from_ascii(b"Table"),
                TypeTag::Mapping,
                PropertyValue::Mapping {
                    key_tag: TypeTag::UInt16,
                    value_tag: TypeTag::Byte,
                    flags: 9,
                    entries: vec![(PropertyValue::UInt16(7), PropertyValue::Byte { enum_name: None, raw: 1 })],
                },
            )
            .unwrap(),
        ],
    };
    assert!(tree.has_distinct_names());
    let bytes = tree.encode().unwrap();
    let mut cursor = Cursor::new(&bytes);
    let again = PropertyTree::decode(&mut cursor, &StructRegistry::standard()).unwrap();
    assert_eq!(cursor.remaining(), 0);
    assert!(same_tree(&again, &tree));
    assert_eq!(again.encode().unwrap(), bytes);
}

#[test]
fn repeated_names_are_found() {
    let once = PropertyTree {
        entries: vec![
            Property::new(Text::from_ascii(b"A"), TypeTag::Int32, PropertyValue::Int32(1)).unwrap(),
            Property::new(Text::from_ascii(b"B"), TypeTag::Int32, PropertyValue::Int32(2)).unwrap(),
            Property::new(Text::Wide(vec![65, 0]), TypeTag::Int32, PropertyValue::Int32(3)).unwrap(),
        ],
    };
    assert!(once.has_distinct_names());
    let twice = PropertyTree {
        entries: vec![
            Property::new(Text::from_ascii(b"A"), TypeTag::Int32, PropertyValue::Int32(1)).unwrap(),
            Property::new(Text::from_ascii(b"B"), TypeTag::Int32, PropertyValue::Int32(2)).unwrap(),
            Property::new(Text::from_ascii(b"A"), TypeTag::Int32, PropertyValue::Int32(3)).unwrap(),
        ],
    };
    assert!(!twice.has_distinct_names());
    assert!(PropertyTree { entries: vec![] }.has_distinct_names());
    let (bytes, _) = document_bytes();
    assert!(SaveDocument::decode(&bytes, &StructRegistry::standard()).unwrap().root.has_distinct_names());
}
