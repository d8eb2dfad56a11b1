use gvas_codec::cursor::Cursor;
use gvas_codec::document::{Header, SaveDocument};
use gvas_codec::error::FormatError;
use gvas_codec::graphql::{Query, ID};
use gvas_codec::gvas_parser::{load_save, parse_save_file};
use gvas_codec::mapper::{
    find_table, get_guid, get_level, get_text, project, project_creature, project_creatures,
    project_player, Schema,
};
use gvas_codec::models::pal::{clone_pals, Pal};
use gvas_codec::models::player::{clone_players, Player};
use gvas_codec::registry::StructRegistry;
use gvas_codec::state::AppStateInner;
use gvas_codec::text::Text;
use gvas_codec::tree::{FieldValue, PropertyTree, PropertyValue, StructBody, TypeTag};

fn text(s: &str) -> Vec<u8> {
    let mut out = ((s.len() + 1) as i32).to_le_bytes().to_vec();
    out.extend_from_slice(s.as_bytes());
    out.push(0);
    out
}

fn property(name: &str, tag: &str, size: u64, body: &[u8]) -> Vec<u8> {
    let mut out = text(name);
    out.extend_from_slice(&text(tag));
    out.extend_from_slice(&size.to_le_bytes());
    out.extend_from_slice(body);
    out
}

fn struct_property(name: &str, struct_type: &str, payload: &[u8]) -> Vec<u8> {
    let mut body = text(struct_type);
    body.extend_from_slice(&[0u8; 16]);
    body.extend_from_slice(payload);
    property(name, "StructProperty", payload.len() as u64, &body)
}

fn scope(properties: &[Vec<u8>]) -> Vec<u8> {
    let mut out = Vec::new();
    for p in properties {
        out.extend_from_slice(p);
    }
    out.extend_from_slice(&text("None"));
    out
}

fn id_bytes(seed: u8) -> [u8; 16] {
    let mut id = [0u8; 16];
    for (i, b) in id.iter_mut().enumerate() {
        *b = seed.wrapping_add(i as u8);
    }
    id
}

fn guid_property(name: &str, seed: u8) -> Vec<u8> {
    struct_property(name, "Guid", &id_bytes(seed))
}

fn creature(id: Option<u8>, species: Option<&str>, nickname: Option<&str>, level: Option<i32>) -> Vec<u8> {
    let mut properties = Vec::new();
    if let Some(seed) = id {
        properties.push(guid_property("InstanceId", seed));
    }
    if let Some(s) = species {
        properties.push(property("CharacterID", "NameProperty", 0, &text(s)));
    }
    if let Some(n) = nickname {
        properties.push(property("NickName", "StrProperty", 0, &text(n)));
    }
    if let Some(l) = level {
        properties.push(property("Level", "IntProperty", 4, &l.to_le_bytes()));
    }
    scope(&properties)
}

fn creatures(list: &[Vec<u8>]) -> Vec<u8> {
    let mut body = text("StructProperty");
    body.extend_from_slice(&(list.len() as u32).to_le_bytes());
    body.extend_from_slice(&text("PalData"));
    for c in list {
        body.extend_from_slice(c);
    }
    property("Pals", "ArrayProperty", 0, &body)
}

fn table(entries: &[(Vec<u8>, Vec<u8>)]) -> Vec<u8> {
    let mut body = text("StructProperty");
    body.extend_from_slice(&text("StructProperty"));
    body.extend_from_slice(&0u32.to_le_bytes());
    body.extend_from_slice(&(entries.len() as u32).to_le_bytes());
    for (key, value) in entries {
        body.extend_from_slice(key);
        body.extend_from_slice(value);
    }
    property("CharacterSaveParameterMap", "MapProperty", 0, &body)
}

fn world(entries: &[(Vec<u8>, Vec<u8>)]) -> Vec<u8> {
    let inner = scope(&[property("Version", "IntProperty", 4, &1i32.to_le_bytes()), table(entries)]);
    let mut out = vec![5u8, 0, 1, 0, 0, 0, 0, 0, 0, 0];
    out.extend_from_slice(&scope(&[struct_property("worldSaveData", "WorldData", &inner)]));
    out
}

fn entries() -> Vec<(Vec<u8>, Vec<u8>)> {
    vec![
        (
            scope(&[guid_property("PlayerUId", 1)]),
            scope(&[
                property("PlayerName", "StrProperty", 0, &text("Tristan")),
                property("Level", "IntProperty", 4, &15i32.to_le_bytes()),
                creatures(&[
                    creature(Some(10), Some("Cattiva"), Some("Whiskers"), Some(5)),
                    creature(Some(11), Some("Lamball"), None, Some(3)),
                    creature(None, Some("Foxparks"), Some("Lost"), Some(9)),
                    creature(Some(12), None, Some("Nameless"), Some(9)),
                ]),
            ]),
        ),
        (
            scope(&[property("Other", "IntProperty", 4, &0i32.to_le_bytes())]),
            scope(&[property("PlayerName", "StrProperty", 0, &text("Ghost"))]),
        ),
        (
            scope(&[]),
            scope(&[
                guid_property("PlayerUId", 2),
                property("PlayerName", "StrProperty", 0, &text("Omar")),
                property("Level", "ByteProperty", 1, &{
                    let mut b = text("None");
                    b.push(12);
                    b
                }),
                creatures(&[creature(Some(20), Some("Chikipi"), Some("Nugget"), Some(2))]),
            ]),
        ),
        (scope(&[guid_property("PlayerUId", 3)]), scope(&[])),
    ]
}

fn decoded(bytes: &[u8]) -> SaveDocument {
    SaveDocument::decode(bytes, &StructRegistry::standard()).unwrap()
}

fn tree_of(properties: &[Vec<u8>]) -> PropertyTree {
    let stream = scope(properties);
    let mut cursor = Cursor::new(&stream);
    PropertyTree::decode(&mut cursor, &StructRegistry::standard()).unwrap()
}

#[test]
fn the_example_player_is_projected_with_name_and_level() {
    let document = decoded(&world(&[(
        scope(&[guid_property("PlayerUId", 1)]),
        scope(&[
            property("PlayerName", "StrProperty", 12, &text("Tristan")),
            property("Level", "IntProperty", 4, &15i32.to_le_bytes()),
        ]),
    )]));
    let projection = project(&Schema::standard(), &document).unwrap();
    assert_eq!(projection.skipped, 0);
    assert_eq!(projection.players.len(), 1);
    assert_eq!(projection.players[0].nickname, "Tristan");
    assert_eq!(projection.players[0].level, 15);
    assert_eq!(projection.players[0].uid, ID(id_bytes(1)));
    assert!(projection.players[0].pals.is_empty());
}

#[test]
fn players_and_creatures_are_projected_in_order() {
    let document = decoded(&world(&entries()));
    let projection = project(&Schema::standard(), &document).unwrap();
    assert_eq!(projection.players.len(), 3);
    assert_eq!(projection.skipped, 3);
    let first = &projection.players[0];
    assert_eq!(first.uid, ID(id_bytes(1)));
    assert_eq!(first.nickname, "Tristan");
    assert_eq!(first.level, 15);
    assert_eq!(first.pals.len(), 2);
    assert_eq!(first.pals[0].instance_id, ID(id_bytes(10)));
    assert_eq!(first.pals[0].character_id, "Cattiva");
    assert_eq!(first.pals[0].nickname.as_deref(), Some("Whiskers"));
    assert_eq!(first.pals[0].level, 5);
    assert_eq!(first.pals[1].instance_id, ID(id_bytes(11)));
    assert_eq!(first.pals[1].character_id, "Lamball");
    assert_eq!(first.pals[1].nickname, None);
    assert_eq!(first.pals[1].level, 3);
    let second = &projection.players[1];
    assert_eq!(second.uid, ID(id_bytes(2)));
    assert_eq!(second.nickname, "Omar");
    assert_eq!(second.level, 12);
    assert_eq!(second.pals.len(), 1);
    assert_eq!(second.pals[0].character_id, "Chikipi");
    assert_eq!(second.pals[0].nickname.as_deref(), Some("Nugget"));
    assert_eq!(second.pals[0].level, 2);
    let third = &projection.players[2];
    assert_eq!(third.uid, ID(id_bytes(3)));
    assert_eq!(third.nickname, "");
    assert_eq!(third.level, 0);
    assert!(third.pals.is_empty());
}

#[test]
fn projecting_twice_gives_the_same_list() {
    let document = decoded(&world(&entries()));
    let schema = Schema::standard();
    let first = project(&schema, &document).unwrap();
    let second = project(&schema, &document).unwrap();
    assert_eq!(first.skipped, second.skipped);
    assert_eq!(first.players.len(), second.players.len());
    for (a, b) in first.players.iter().zip(second.players.iter()) {
        assert_eq!(a.uid, b.uid);
        assert_eq!(a.nickname, b.nickname);
        assert_eq!(a.level, b.level);
        assert_eq!(a.pals.len(), b.pals.len());
        for (x, y) in a.pals.iter().zip(b.pals.iter()) {
            assert_eq!(x.instance_id, y.instance_id);
            assert_eq!(x.character_id, y.character_id);
            assert_eq!(x.nickname, y.nickname);
            assert_eq!(x.level, y.level);
        }
    }
}

#[test]
fn a_document_without_the_table_fails_with_the_missing_name() {
    let schema = Schema::standard();
    let empty = decoded(&{
        let mut out = vec![5u8, 0, 1, 0, 0, 0, 0, 0, 0, 0];
        out.extend_from_slice(&scope(&[property("Level", "IntProperty", 4, &1i32.to_le_bytes())]));
        out
    });
    match project(&schema, &empty) {
        Err(FormatError::MissingRequiredField(name)) => assert_eq!(name, b"worldSaveData"),
        other => panic!("{:?}", other),
    }
    let no_map = decoded(&{
        let mut out = vec![5u8, 0, 1, 0, 0, 0, 0, 0, 0, 0];
        out.extend_from_slice(&scope(&[struct_property("worldSaveData", "WorldData", &scope(&[]))]));
        out
    });
    match project(&schema, &no_map) {
        Err(FormatError::MissingRequiredField(name)) => assert_eq!(name, b"CharacterSaveParameterMap"),
        other => panic!("{:?}", other),
    }
    let not_a_struct = decoded(&{
        let mut out = vec![5u8, 0, 1, 0, 0, 0, 0, 0, 0, 0];
        out.extend_from_slice(&scope(&[property("worldSaveData", "IntProperty", 4, &1i32.to_le_bytes())]));
        out
    });
    match project(&schema, &not_a_struct) {
        Err(FormatError::MissingRequiredField(name)) => assert_eq!(name, b"worldSaveData"),
        other => panic!("{:?}", other),
    }
    let mut no_path = Schema::standard();
    no_path.table_path.clear();
    assert!(matches!(find_table(&no_path, &empty.root), Err(FormatError::MissingRequiredField(n)) if n.is_empty()));
}

#[test]
fn the_table_may_lie_at_the_root() {
    let mut schema = Schema::standard();
    schema.table_path = vec![b"Players".to_vec()];
    let mut body = text("StructProperty");
    body.extend_from_slice(&text("StructProperty"));
    body.extend_from_slice(&0u32.to_le_bytes());
    body.extend_from_slice(&1u32.to_le_bytes());
    body.extend_from_slice(&scope(&[guid_property("PlayerUId", 8)]));
    body.extend_from_slice(&scope(&[property("PlayerName", "StrProperty", 0, &text("Solo"))]));
    let tree = tree_of(&[property("Players", "MapProperty", 0, &body)]);
    let found = find_table(&schema, &tree).unwrap();
    assert_eq!(found.len(), 1);
    let document = SaveDocument {
        header: Header { engine_major: 5, engine_minor: 1, engine_patch: 0, custom_versions: vec![] },
        root: tree,
        trailer: vec![],
    };
    let projection = project(&schema, &document).unwrap();
    assert_eq!(projection.players.len(), 1);
    assert_eq!(projection.players[0].nickname, "Solo");
    assert_eq!(projection.players[0].uid, ID(id_bytes(8)));
}

#[test]
fn a_creature_needs_its_identifier_and_its_species() {
    let schema = Schema::standard();
    let array = tree_of(&[creatures(&[
        creature(Some(10), Some("Cattiva"), Some("Whiskers"), Some(5)),
        creature(None, Some("Foxparks"), None, None),
        creature(Some(12), None, None, None),
        creature(Some(13), Some("Lamball"), None, None),
    ])]);
    let elements = match &array.entries[0].value {
        PropertyValue::Array { elements, .. } => elements,
        other => panic!("{:?}", other),
    };
    let ok = project_creature(&schema, &elements[0]).unwrap();
    assert_eq!(ok.character_id, "Cattiva");
    match project_creature(&schema, &elements[1]) {
        Err(FormatError::MissingRequiredField(name)) => assert_eq!(name, b"InstanceId"),
        other => panic!("{:?}", other),
    }
    match project_creature(&schema, &elements[2]) {
        Err(FormatError::MissingRequiredField(name)) => assert_eq!(name, b"CharacterID"),
        other => panic!("{:?}", other),
    }
    let bare = project_creature(&schema, &elements[3]).unwrap();
    assert_eq!(bare.nickname, None);
    assert_eq!(bare.level, 0);
    match project_creature(&schema, &PropertyValue::Int32(1)) {
        Err(FormatError::MissingRequiredField(name)) => assert_eq!(name, b"InstanceId"),
        other => panic!("{:?}", other),
    }
    let raw = PropertyValue::Struct {
        struct_type: Text::from_ascii(b"Opaque"),
        guid: None,
        body: StructBody::Raw(vec![1, 2, 3]),
    };
    match project_creature(&schema, &raw) {
        Err(FormatError::UnknownStructLayout(name)) => assert!(name.is_ascii(b"Opaque")),
        other => panic!("{:?}", other),
    }
    let (list, skipped) = project_creatures(&schema, elements);
    assert_eq!(skipped, 2);
    assert_eq!(list.len(), 2);
    assert_eq!(list[0].instance_id, ID(id_bytes(10)));
    assert_eq!(list[1].instance_id, ID(id_bytes(13)));
    let (none, zero) = project_creatures(&schema, &Vec::new());
    assert!(none.is_empty());
    assert_eq!(zero, 0);
}

#[test]
fn a_player_takes_the_identifier_from_the_key_first() {
    let schema = Schema::standard();
    let key = PropertyValue::Struct {
        struct_type: Text::from_ascii(b"Guid"),
        guid: None,
        body: StructBody::Fixed(vec![FieldValue::Guid(ID(id_bytes(40)))]),
    };
    let value_tree = tree_of(&[guid_property("PlayerUId", 41), property("PlayerName", "StrProperty", 0, &text("Key"))]);
    let value = PropertyValue::Struct {
        struct_type: Text::Narrow(vec![]),
        guid: None,
        body: StructBody::Fields(value_tree),
    };
    let (player, skipped) = project_player(&schema, &key, &value).unwrap();
    assert_eq!(player.uid, ID(id_bytes(40)));
    assert_eq!(player.nickname, "Key");
    assert_eq!(skipped, 0);
    let (player, _) = project_player(&schema, &PropertyValue::Int32(0), &value).unwrap();
    assert_eq!(player.uid, ID(id_bytes(41)));
    match project_player(&schema, &key, &PropertyValue::Bool(1)) {
        Err(FormatError::MissingRequiredField(name)) => assert_eq!(name, b"PlayerUId"),
        other => panic!("{:?}", other),
    }
    let empty = PropertyValue::Struct {
        struct_type: Text::Narrow(vec![]),
        guid: None,
        body: StructBody::Fields(PropertyTree { entries: vec![] }),
    };
    match project_player(&schema, &PropertyValue::Int32(0), &empty) {
        Err(FormatError::MissingRequiredField(name)) => assert_eq!(name, b"PlayerUId"),
        other => panic!("{:?}", other),
    }
}

#[test]
fn values_are_read_by_name_and_kind() {
    let tree = tree_of(&[
        property("Level", "IntProperty", 4, &(-1i32).to_le_bytes()),
        property("Level", "IntProperty", 4, &7i32.to_le_bytes()),
        property("Big", "Int64Property", 8, &5_000_000_000i64.to_le_bytes()),
        property("Max", "UInt64Property", 8, &4_294_967_295u64.to_le_bytes()),
        property("Over", "UInt64Property", 8, &4_294_967_296u64.to_le_bytes()),
        property("Small", "Int8Property", 1, &[100]),
        property("Neg", "Int16Property", 2, &(-2i16).to_le_bytes()),
        property("Word", "UInt16Property", 2, &513u16.to_le_bytes()),
        property("Name", "StrProperty", 0, &text("abc")),
        guid_property("Id", 77),
        struct_property("Spot", "Vector", &[0u8; 24]),
    ]);
    assert!(matches!(tree.get(b"Level"), Some(PropertyValue::Int32(-1))));
    assert!(tree.get(b"level").is_none());
    assert!(tree.get(b"").is_none());
    assert_eq!(get_level(&tree, b"Level"), 0);
    assert_eq!(get_level(&tree, b"Big"), 0);
    assert_eq!(get_level(&tree, b"Max"), u32::MAX);
    assert_eq!(get_level(&tree, b"Over"), 0);
    assert_eq!(get_level(&tree, b"Small"), 100);
    assert_eq!(get_level(&tree, b"Neg"), 0);
    assert_eq!(get_level(&tree, b"Word"), 513);
    assert_eq!(get_level(&tree, b"Name"), 0);
    assert_eq!(get_level(&tree, b"Absent"), 0);
    assert_eq!(tree.get(b"Word").unwrap().as_level(), Some(513));
    assert_eq!(tree.get(b"Neg").unwrap().as_level(), None);
    assert_eq!(PropertyValue::UInt32(9).as_level(), Some(9));
    assert_eq!(PropertyValue::Int64(-1).as_level(), None);
    assert_eq!(PropertyValue::Float32(0).as_level(), None);
    assert_eq!(get_text(&tree, b"Name").as_deref(), Some("abc"));
    assert_eq!(get_text(&tree, b"Level"), None);
    assert_eq!(get_text(&tree, b"Absent"), None);
    assert_eq!(get_guid(&tree, b"Id"), Some(ID(id_bytes(77))));
    assert_eq!(get_guid(&tree, b"Spot"), None);
    assert_eq!(get_guid(&tree, b"Name"), None);
    assert_eq!(tree.get(b"Id").unwrap().as_guid(), Some(ID(id_bytes(77))));
    assert!(tree.get(b"Id").unwrap().fields().is_none());
    assert!(tree.get(b"Name").unwrap().fields().is_none());
    assert_eq!(tree.get(b"Id").unwrap().as_text(), None);
    assert_eq!(tree.entries[0].tag, TypeTag::Int32);
}

#[test]
fn a_save_file_is_read_from_container_to_players() {
    let stream = world(&entries());
    let mut file = b"GVAS".to_vec();
    file.extend_from_slice(&(stream.len() as u32).to_le_bytes());
    let packed = miniz_oxide::deflate::compress_to_vec(&miniz_oxide::deflate::compress_to_vec(&stream, 6), 6);
    file.extend_from_slice(&(packed.len() as u32).to_le_bytes());
    file.push(2);
    file.extend_from_slice(&packed);
    let players = parse_save_file(&file).unwrap();
    assert_eq!(players.len(), 3);
    assert_eq!(players[0].nickname, "Tristan");
    assert_eq!(players[0].level, 15);
    assert_eq!(players[1].nickname, "Omar");
    assert_eq!(players[1].level, 12);
    let projection = load_save(&file, &StructRegistry::standard(), &Schema::standard()).unwrap();
    assert_eq!(projection.players.len(), 3);
    assert_eq!(projection.skipped, 3);
    let unknown = load_save(&file, &StructRegistry::new(), &Schema::standard()).unwrap();
    assert!(unknown.players.is_empty());
    assert_eq!(unknown.skipped, 4);
    file[0] = b'X';
    assert!(matches!(parse_save_file(&file), Err(FormatError::BadMagic)));
    file[0] = b'G';
    file.pop();
    assert!(matches!(parse_save_file(&file), Err(FormatError::Truncated)));
    let mut cut = b"GVAS".to_vec();
    cut.extend_from_slice(&6u32.to_le_bytes());
    cut.extend_from_slice(&6u32.to_le_bytes());
    cut.push(0);
    cut.extend_from_slice(&stream[..6]);
    assert!(matches!(parse_save_file(&cut), Err(FormatError::Truncated)));
}

#[test]
fn the_query_serves_the_players_of_the_state() {
    let query = Query;
    let mut state = AppStateInner::default();
    assert!(state.players.is_none());
    assert!(query.players(&state).is_empty());
    let players = vec![Player {
        uid: ID(id_bytes(1)),
        nickname: "Tristan".to_string(),
        level: 15,
        pals: vec![
            Pal { instance_id: ID(id_bytes(2)), character_id: "Cattiva".to_string(), nickname: Some("Whiskers".to_string()), level: 5 },
            Pal { instance_id: ID(id_bytes(3)), character_id: "Lamball".to_string(), nickname: None, level: 3 },
        ],
    }];
    state.players = Some(clone_players(&players));
    let served = query.players(&state);
    assert_eq!(served.len(), 1);
    assert_eq!(served[0].uid, ID(id_bytes(1)));
    assert_eq!(served[0].nickname, "Tristan");
    assert_eq!(served[0].level, 15);
    assert_eq!(served[0].pals.len(), 2);
    assert_eq!(served[0].pals[0].nickname.as_deref(), Some("Whiskers"));
    assert_eq!(served[0].pals[1].nickname, None);
    assert_eq!(served[0].pals[1].character_id, "Lamball");
    let copy = state.clone();
    assert_eq!(copy.players.as_ref().unwrap().len(), 1);
    assert_eq!(copy.players.unwrap()[0].pals[1].level, 3);
    let one = players[0].clone();
    assert_eq!(one.pals.len(), 2);
    assert_eq!(clone_pals(&one.pals)[0].character_id, "Cattiva");
    assert_eq!(players[0].pals[1].clone().instance_id, ID(id_bytes(3)));
}

#[test]
fn each_failure_has_its_sentence() {
    let all = [
        FormatError::BadMagic,
        FormatError::SizeMismatch,
        FormatError::Truncated,
        FormatError::UnknownPropertyType(Text::from_ascii(b"X")),
        FormatError::UnknownStructLayout(Text::from_ascii(b"Y")),
        FormatError::MissingRequiredField(b"Z".to_vec()),
        FormatError::IoError("gone".to_string()),
    ];
    let mut seen = Vec::new();
    for e in &all {
        let m = e.message();
        assert!(!m.is_empty());
        assert!(!seen.contains(&m));
        seen.push(m);
    }
    assert_eq!(all[0].message(), "the file does not start with the signature of a save container");
    assert_eq!(all[2].message(), "the file ends in the middle of a value");
}

#[test]
fn the_standard_schema_names_the_world_table() {
    let schema = Schema::standard();
    assert_eq!(schema.table_path, vec![b"worldSaveData".to_vec(), b"CharacterSaveParameterMap".to_vec()]);
    assert_eq!(schema.id_field, b"PlayerUId");
    assert_eq!(schema.name_field, b"PlayerName");
    assert_eq!(schema.level_field, b"Level");
    assert_eq!(schema.creatures_field, b"Pals");
    assert_eq!(schema.creature_id_field, b"InstanceId");
    assert_eq!(schema.species_field, b"CharacterID");
    assert_eq!(schema.creature_name_field, b"NickName");
    assert_eq!(schema.creature_level_field, b"Level");
}
