//! The projection of a decoded document onto players and their creatures.

use vstd::prelude::*;
use vstd::string::StringSliceAdditionalSpecFns;
use crate::document::{DocumentModel, SaveDocument};
use crate::error::{ErrorModel, FormatError};
use crate::graphql::ID;
use crate::models::pal::{optional_string, pals_model, Pal, PalModel};
use crate::models::player::{players_model, Player, PlayerModel};
use crate::text::TextModel;
use crate::tree::{
    pairs_model, values_model, BodyModel, FieldModel, FieldValue, PropertyModel, PropertyTree,
    PropertyValue, StructBody, ValueModel,
};

verus! {

/// Where the entities lie in a document, all names without terminator.
#[derive(Debug)]
pub struct Schema {
    /// The names that lead from the root to the map of characters: each but
    /// the last names a struct, the last the map.
    pub table_path: Vec<Vec<u8>>,
    /// The identifier of a player, in the key of an entry or in its value.
    pub id_field: Vec<u8>,
    /// The display name of a player.
    pub name_field: Vec<u8>,
    /// The level of a player.
    pub level_field: Vec<u8>,
    /// The array of the creatures that a player owns.
    pub creatures_field: Vec<u8>,
    /// The identifier of a creature.
    pub creature_id_field: Vec<u8>,
    /// The species of a creature.
    pub species_field: Vec<u8>,
    /// The nickname of a creature.
    pub creature_name_field: Vec<u8>,
    /// The level of a creature.
    pub creature_level_field: Vec<u8>,
}

/// What a [`Schema`] holds.
pub struct SchemaModel {
    pub table_path: Seq<Seq<u8>>,
    pub id_field: Seq<u8>,
    pub name_field: Seq<u8>,
    pub level_field: Seq<u8>,
    pub creatures_field: Seq<u8>,
    pub creature_id_field: Seq<u8>,
    pub species_field: Seq<u8>,
    pub creature_name_field: Seq<u8>,
    pub creature_level_field: Seq<u8>,
}

impl View for Schema {
    type V = SchemaModel;

    open spec fn view(&self) -> SchemaModel {
        SchemaModel {
            table_path: Seq::new(self.table_path@.len(), |i: int| self.table_path@[i]@),
            id_field: self.id_field@,
            name_field: self.name_field@,
            level_field: self.level_field@,
            creatures_field: self.creatures_field@,
            creature_id_field: self.creature_id_field@,
            species_field: self.species_field@,
            creature_name_field: self.creature_name_field@,
            creature_level_field: self.creature_level_field@,
        }
    }
}

/// The schema of [`Schema::standard`].
pub open spec fn standard_schema() -> SchemaModel {
    SchemaModel {
        table_path: Seq::<Seq<u8>>::empty().push("worldSaveData".spec_bytes()).push(
            "CharacterSaveParameterMap".spec_bytes(),
        ),
        id_field: "PlayerUId".spec_bytes(),
        name_field: "PlayerName".spec_bytes(),
        level_field: "Level".spec_bytes(),
        creatures_field: "Pals".spec_bytes(),
        creature_id_field: "InstanceId".spec_bytes(),
        species_field: "CharacterID".spec_bytes(),
        creature_name_field: "NickName".spec_bytes(),
        creature_level_field: "Level".spec_bytes(),
    }
}

impl Schema {
    /// The names under which a world save keeps its characters.
    pub fn standard() -> (schema: Schema)
        ensures
            schema@ == standard_schema(),
    {
        let mut table_path: Vec<Vec<u8>> = Vec::new();
        table_path.push(vstd::slice::slice_to_vec("worldSaveData".as_bytes()));
        table_path.push(vstd::slice::slice_to_vec("CharacterSaveParameterMap".as_bytes()));
        let schema = Schema {
            table_path,
            id_field: vstd::slice::slice_to_vec("PlayerUId".as_bytes()),
            name_field: vstd::slice::slice_to_vec("PlayerName".as_bytes()),
            level_field: vstd::slice::slice_to_vec("Level".as_bytes()),
            creatures_field: vstd::slice::slice_to_vec("Pals".as_bytes()),
            creature_id_field: vstd::slice::slice_to_vec("InstanceId".as_bytes()),
            species_field: vstd::slice::slice_to_vec("CharacterID".as_bytes()),
            creature_name_field: vstd::slice::slice_to_vec("NickName".as_bytes()),
            creature_level_field: vstd::slice::slice_to_vec("Level".as_bytes()),
        };
        assert(schema@.table_path =~= standard_schema().table_path);
        schema
    }
}

/// The players of a document and the number of entities, players and
/// creatures, that were left out because a required field was missing. The
/// number stops at the largest that fits.
#[derive(Debug)]
pub struct Projection {
    pub players: Vec<Player>,
    pub skipped: u64,
}

/// The players of a document and the number of entities that were left out.
pub struct ProjectionModel {
    pub players: Seq<PlayerModel>,
    pub skipped: nat,
}

/// The number as far as 64 bits hold it.
pub open spec fn saturated(count: nat) -> u64 {
    if count > u64::MAX {
        u64::MAX
    } else {
        count as u64
    }
}

/// The value of the first property at or behind index `from` whose name is
/// the narrow text that spells `name`.
pub open spec fn find_from(properties: Seq<PropertyModel>, name: Seq<u8>, from: int) -> Option<ValueModel>
    decreases properties.len() - from,
{
    if from < 0 || from >= properties.len() {
        None
    } else if properties[from].name == TextModel::ascii(name) {
        Some(properties[from].value)
    } else {
        find_from(properties, name, from + 1)
    }
}

/// The value of the first property of the name.
pub open spec fn find(properties: Seq<PropertyModel>, name: Seq<u8>) -> Option<ValueModel> {
    find_from(properties, name, 0)
}

/// The properties of a value that is a struct read as a property list.
pub open spec fn fields_of(value: ValueModel) -> Option<Seq<PropertyModel>> {
    match value {
        ValueModel::Struct { struct_type, guid, body } => match body {
            BodyModel::Fields(properties) => Some(properties),
            _ => None,
        },
        _ => None,
    }
}

/// The identifier in a value that is a fixed-layout struct of one identifier.
pub open spec fn guid_of(value: ValueModel) -> Option<Seq<u8>> {
    match value {
        ValueModel::Struct { struct_type, guid, body } => match body {
            BodyModel::Fixed(fields) => if fields.len() == 1 {
                match fields[0] {
                    FieldModel::Guid(id) => Some(id),
                    _ => None,
                }
            } else {
                None
            },
            _ => None,
        },
        _ => None,
    }
}

/// The text of a value that is a string, as the host reads it.
pub open spec fn text_of(value: ValueModel) -> Option<Seq<char>> {
    match value {
        ValueModel::Str(text) => Some(text.host_text()),
        _ => None,
    }
}

/// The level in a value that is a whole number from 0 to the largest of 32
/// bits.
pub open spec fn level_of(value: ValueModel) -> Option<u32> {
    let number: Option<int> = match value {
        ValueModel::Int8(v) => Some(v as int),
        ValueModel::Int16(v) => Some(v as int),
        ValueModel::Int32(v) => Some(v as int),
        ValueModel::Int64(v) => Some(v as int),
        ValueModel::UInt16(v) => Some(v as int),
        ValueModel::UInt32(v) => Some(v as int),
        ValueModel::UInt64(v) => Some(v as int),
        ValueModel::Byte { enum_name, raw } => Some(raw as int),
        _ => None,
    };
    match number {
        Some(n) => if 0 <= n <= u32::MAX {
            Some(n as u32)
        } else {
            None
        },
        None => None,
    }
}

/// The identifier under a name among properties.
pub open spec fn find_guid(properties: Seq<PropertyModel>, name: Seq<u8>) -> Option<Seq<u8>> {
    match find(properties, name) {
        Some(value) => guid_of(value),
        None => None,
    }
}

/// The text under a name among properties.
pub open spec fn find_text(properties: Seq<PropertyModel>, name: Seq<u8>) -> Option<Seq<char>> {
    match find(properties, name) {
        Some(value) => text_of(value),
        None => None,
    }
}

/// The level under a name among properties: 0 where there is none.
pub open spec fn find_level(properties: Seq<PropertyModel>, name: Seq<u8>) -> u32 {
    match find(properties, name) {
        Some(value) => match level_of(value) {
            Some(level) => level,
            None => 0,
        },
        None => 0,
    }
}

/// The properties that describe an entity: those of a struct that was read as
/// a property list.
pub open spec fn entity_fields(id_field: Seq<u8>, value: ValueModel) -> Result<Seq<PropertyModel>, ErrorModel> {
    match value {
        ValueModel::Struct { struct_type, guid, body } => match body {
            BodyModel::Fields(properties) => Ok(properties),
            _ => Err(ErrorModel::UnknownStructLayout(struct_type)),
        },
        _ => Err(ErrorModel::MissingRequiredField(id_field)),
    }
}

/// The creature that a value describes: its identifier and its species are
/// required, its nickname may be absent, its level is 0 where it is absent.
pub open spec fn creature_of(schema: SchemaModel, value: ValueModel) -> Result<PalModel, ErrorModel> {
    match entity_fields(schema.creature_id_field, value) {
        Err(e) => Err(e),
        Ok(properties) => match find_guid(properties, schema.creature_id_field) {
            None => Err(ErrorModel::MissingRequiredField(schema.creature_id_field)),
            Some(instance_id) => match find_text(properties, schema.species_field) {
                None => Err(ErrorModel::MissingRequiredField(schema.species_field)),
                Some(character_id) => Ok(
                    PalModel {
                        instance_id,
                        character_id,
                        nickname: find_text(properties, schema.creature_name_field),
                        level: find_level(properties, schema.creature_level_field),
                    },
                ),
            },
        },
    }
}

/// The creatures that the values from index `from` on describe, put behind
/// those of `done`, with the number of values that describe none.
pub open spec fn creatures_from(schema: SchemaModel, values: Seq<ValueModel>, from: int, done: Seq<PalModel>, skipped: nat) -> (
    Seq<PalModel>,
    nat,
)
    decreases values.len() - from,
{
    if from < 0 || from >= values.len() {
        (done, skipped)
    } else {
        match creature_of(schema, values[from]) {
            Ok(creature) => creatures_from(schema, values, from + 1, done.push(creature), skipped),
            Err(_) => creatures_from(schema, values, from + 1, done, skipped + 1),
        }
    }
}

/// The creatures of an entity and the number that were left out: those of the
/// array under the name, none where there is no such array.
pub open spec fn creatures_of(schema: SchemaModel, properties: Seq<PropertyModel>) -> (Seq<PalModel>, nat) {
    match find(properties, schema.creatures_field) {
        Some(value) => match value {
            ValueModel::Array { element_tag, element_struct, elements } => creatures_from(
                schema,
                elements,
                0,
                Seq::empty(),
                0,
            ),
            _ => (Seq::empty(), 0),
        },
        None => (Seq::empty(), 0),
    }
}

/// The identifier that a key holds: the key itself where it is an identifier,
/// the identifier under the name where the key is a struct.
pub open spec fn key_id(id_field: Seq<u8>, key: ValueModel) -> Option<Seq<u8>> {
    match guid_of(key) {
        Some(id) => Some(id),
        None => match fields_of(key) {
            Some(properties) => find_guid(properties, id_field),
            None => None,
        },
    }
}

/// The identifier of an entry: that of its key or, where the key holds none,
/// the one among the properties of its value.
pub open spec fn entry_id(id_field: Seq<u8>, key: ValueModel, properties: Seq<PropertyModel>) -> Option<Seq<u8>> {
    match key_id(id_field, key) {
        Some(id) => Some(id),
        None => find_guid(properties, id_field),
    }
}

/// The text, or the empty string where there is none.
pub open spec fn text_or_empty(text: Option<Seq<char>>) -> Seq<char> {
    match text {
        Some(t) => t,
        None => Seq::empty(),
    }
}

/// The player that an entry describes, with the number of creatures that were
/// left out: the identifier is required, the name is empty and the level 0
/// where they are absent.
pub open spec fn player_of(schema: SchemaModel, key: ValueModel, value: ValueModel) -> Result<(PlayerModel, nat), ErrorModel> {
    match entity_fields(schema.id_field, value) {
        Err(e) => Err(e),
        Ok(properties) => match entry_id(schema.id_field, key, properties) {
            None => Err(ErrorModel::MissingRequiredField(schema.id_field)),
            Some(uid) => Ok(
                (
                    PlayerModel {
                        uid,
                        nickname: text_or_empty(find_text(properties, schema.name_field)),
                        level: find_level(properties, schema.level_field),
                        pals: creatures_of(schema, properties).0,
                    },
                    creatures_of(schema, properties).1,
                ),
            ),
        },
    }
}

/// The players that the entries from index `from` on describe, put behind
/// those of `done`, with the number of entities that were left out.
pub open spec fn players_from(
    schema: SchemaModel,
    entries: Seq<(ValueModel, ValueModel)>,
    from: int,
    done: Seq<PlayerModel>,
    skipped: nat,
) -> ProjectionModel
    decreases entries.len() - from,
{
    if from < 0 || from >= entries.len() {
        ProjectionModel { players: done, skipped }
    } else {
        match player_of(schema, entries[from].0, entries[from].1) {
            Ok((player, more)) => players_from(schema, entries, from + 1, done.push(player), skipped + more),
            Err(_) => players_from(schema, entries, from + 1, done, skipped + 1),
        }
    }
}

/// The entries of the map at the end of the path from index `from` on, or the
/// name at which the path breaks off.
pub open spec fn table_at(properties: Seq<PropertyModel>, path: Seq<Seq<u8>>, from: int) -> Result<
    Seq<(ValueModel, ValueModel)>,
    ErrorModel,
>
    decreases path.len() - from,
{
    if from < 0 || from >= path.len() {
        Err(ErrorModel::MissingRequiredField(Seq::empty()))
    } else {
        match find(properties, path[from]) {
            None => Err(ErrorModel::MissingRequiredField(path[from])),
            Some(value) => if from == path.len() - 1 {
                match value {
                    ValueModel::Mapping { key_tag, value_tag, flags, entries } => Ok(entries),
                    _ => Err(ErrorModel::MissingRequiredField(path[from])),
                }
            } else {
                match fields_of(value) {
                    Some(inner) => table_at(inner, path, from + 1),
                    None => Err(ErrorModel::MissingRequiredField(path[from])),
                }
            },
        }
    }
}

/// The players of a document: one for each entry of the map of characters
/// that describes one, in the order of the entries.
pub open spec fn project_document(schema: SchemaModel, document: DocumentModel) -> Result<ProjectionModel, ErrorModel> {
    match table_at(document.root, schema.table_path, 0) {
        Err(e) => Err(e),
        Ok(entries) => Ok(players_from(schema, entries, 0, Seq::empty(), 0)),
    }
}

/// Whether a projection, or the failure to make one, is what the document
/// holds under the schema.
pub open spec fn projects(schema: SchemaModel, document: DocumentModel, r: Result<Projection, FormatError>) -> bool {
    match project_document(schema, document) {
        Ok(expected) => r matches Ok(projection) && players_model(projection.players@)
            == expected.players && projection.skipped == saturated(expected.skipped),
        Err(e) => r matches Err(x) && x@ == e,
    }
}

/// Repeatable projection. Two projections of one document under one schema
/// list the same players in the same order, leave out as many entities, or
/// fail alike.
pub proof fn law_projection_repeats(
    schema: SchemaModel,
    document: DocumentModel,
    first: Result<Projection, FormatError>,
    second: Result<Projection, FormatError>,
)
    requires
        projects(schema, document, first),
        projects(schema, document, second),
    ensures
        match (first, second) {
            (Ok(a), Ok(b)) => players_model(a.players@) == players_model(b.players@) && a.skipped
                == b.skipped,
            (Err(a), Err(b)) => a@ == b@,
            _ => false,
        },
{
}

impl PropertyTree {
    /// The value of the first property of the name.
    pub fn get(&self, name: &[u8]) -> (found: Option<&PropertyValue>)
        ensures
            match found {
                Some(value) => find(self@, name@) == Some(value@),
                None => find(self@, name@) is None,
            },
    {
        let mut i: usize = 0;
        while i < self.entries.len()
            invariant
                i <= self.entries.len(),
                find(self@, name@) == find_from(self@, name@, i as int),
            decreases self.entries.len() - i,
        {
            assert(self@[i as int] == self.entries@[i as int]@);
            if self.entries[i].name.is_ascii(name) {
                return Some(&self.entries[i].value);
            }
            i = i + 1;
        }
        None
    }
}

impl PropertyValue {
    /// The properties of a struct that was read as a property list.
    pub fn fields(&self) -> (found: Option<&PropertyTree>)
        ensures
            match found {
                Some(tree) => fields_of(self@) == Some(tree@),
                None => fields_of(self@) is None,
            },
    {
        match self {
            PropertyValue::Struct { struct_type, guid, body } => match body {
                StructBody::Fields(tree) => Some(tree),
                _ => None,
            },
            _ => None,
        }
    }

    /// The identifier in a fixed-layout struct of one identifier.
    pub fn as_guid(&self) -> (found: Option<ID>)
        ensures
            match found {
                Some(id) => guid_of(self@) == Some(id@),
                None => guid_of(self@) is None,
            },
    {
        match self {
            PropertyValue::Struct { struct_type, guid, body } => match body {
                StructBody::Fixed(fields) => {
                    if fields.len() == 1 {
                        assert(crate::tree::fields_model(fields@)[0] == fields@[0]@);
                        match fields[0] {
                            FieldValue::Guid(id) => Some(id),
                            _ => None,
                        }
                    } else {
                        None
                    }
                },
                _ => None,
            },
            _ => None,
        }
    }

    /// The text of a string, as the host reads it.
    pub fn as_text(&self) -> (found: Option<String>)
        ensures
            optional_string(found) == text_of(self@),
    {
        match self {
            PropertyValue::Str(text) => Some(text.to_string()),
            _ => None,
        }
    }

    /// The level in a whole number from 0 to the largest of 32 bits.
    pub fn as_level(&self) -> (found: Option<u32>)
        ensures
            found == level_of(self@),
    {
        match self {
            PropertyValue::Int8(v) => if *v >= 0 {
                Some(*v as u32)
            } else {
                None
            },
            PropertyValue::Int16(v) => if *v >= 0 {
                Some(*v as u32)
            } else {
                None
            },
            PropertyValue::Int32(v) => if *v >= 0 {
                Some(*v as u32)
            } else {
                None
            },
            PropertyValue::Int64(v) => if 0 <= *v && *v <= 0xffff_ffff {
                Some(*v as u32)
            } else {
                None
            },
            PropertyValue::UInt16(v) => Some(*v as u32),
            PropertyValue::UInt32(v) => Some(*v),
            PropertyValue::UInt64(v) => if *v <= 0xffff_ffff {
                Some(*v as u32)
            } else {
                None
            },
            PropertyValue::Byte { enum_name, raw } => Some(*raw as u32),
            _ => None,
        }
    }
}

/// The identifier under a name in a tree.
pub fn get_guid(tree: &PropertyTree, name: &[u8]) -> (found: Option<ID>)
    ensures
        match found {
            Some(id) => find_guid(tree@, name@) == Some(id@),
            None => find_guid(tree@, name@) is None,
        },
{
    match tree.get(name) {
        Some(value) => value.as_guid(),
        None => None,
    }
}

/// The text under a name in a tree.
pub fn get_text(tree: &PropertyTree, name: &[u8]) -> (found: Option<String>)
    ensures
        optional_string(found) == find_text(tree@, name@),
{
    match tree.get(name) {
        Some(value) => value.as_text(),
        None => None,
    }
}

/// The level under a name in a tree: 0 where there is none.
pub fn get_level(tree: &PropertyTree, name: &[u8]) -> (level: u32)
    ensures
        level == find_level(tree@, name@),
{
    match tree.get(name) {
        Some(value) => match value.as_level() {
            Some(level) => level,
            None => 0,
        },
        None => 0,
    }
}

/// The properties that describe an entity.
fn get_entity<'a>(id_field: &[u8], value: &'a PropertyValue) -> (r: Result<&'a PropertyTree, FormatError>)
    ensures
        match entity_fields(id_field@, value@) {
            Ok(properties) => r matches Ok(tree) && tree@ == properties,
            Err(e) => r matches Err(x) && x@ == e,
        },
{
    match value {
        PropertyValue::Struct { struct_type, guid, body } => match body {
            StructBody::Fields(tree) => Ok(tree),
            _ => Err(FormatError::UnknownStructLayout(struct_type.clone())),
        },
        _ => Err(FormatError::MissingRequiredField(vstd::slice::slice_to_vec(id_field))),
    }
}

/// What a projected creature, or the failure to project one, holds.
pub open spec fn creature_outcome(r: Result<Pal, FormatError>) -> Result<PalModel, ErrorModel> {
    match r {
        Ok(creature) => Ok(creature@),
        Err(e) => Err(e@),
    }
}

/// Projects one value onto a creature.
pub fn project_creature(schema: &Schema, value: &PropertyValue) -> (r: Result<Pal, FormatError>)
    ensures
        creature_outcome(r) == creature_of(schema@, value@),
{
    let tree = match get_entity(schema.creature_id_field.as_slice(), value) {
        Err(e) => {
            return Err(e);
        },
        Ok(tree) => tree,
    };
    let instance_id = match get_guid(tree, schema.creature_id_field.as_slice()) {
        None => {
            return Err(
                FormatError::MissingRequiredField(
                    vstd::slice::slice_to_vec(schema.creature_id_field.as_slice()),
                ),
            );
        },
        Some(id) => id,
    };
    let character_id = match get_text(tree, schema.species_field.as_slice()) {
        None => {
            return Err(
                FormatError::MissingRequiredField(
                    vstd::slice::slice_to_vec(schema.species_field.as_slice()),
                ),
            );
        },
        Some(text) => text,
    };
    let nickname = get_text(tree, schema.creature_name_field.as_slice());
    let level = get_level(tree, schema.creature_level_field.as_slice());
    Ok(Pal { instance_id, character_id, nickname, level })
}

/// One more, as far as 64 bits hold it.
fn one_more(count: u64, Ghost(exact): Ghost<nat>) -> (next: u64)
    requires
        count == saturated(exact),
    ensures
        next == saturated(exact + 1),
{
    if count == u64::MAX {
        count
    } else {
        count + 1
    }
}

/// The sum, as far as 64 bits hold it.
fn sum_up(count: u64, more: u64, Ghost(exact): Ghost<nat>, Ghost(exact_more): Ghost<nat>) -> (next: u64)
    requires
        count == saturated(exact),
        more == saturated(exact_more),
    ensures
        next == saturated(exact + exact_more),
{
    if more > u64::MAX - count {
        u64::MAX
    } else {
        count + more
    }
}

/// Projects the elements of an array onto creatures and counts those that
/// describe none.
pub fn project_creatures(schema: &Schema, elements: &Vec<PropertyValue>) -> (r: (Vec<Pal>, u64))
    ensures
        pals_model(r.0@) == creatures_from(schema@, values_model(elements@), 0, Seq::empty(), 0).0,
        r.1 == saturated(creatures_from(schema@, values_model(elements@), 0, Seq::empty(), 0).1),
{
    let ghost model = values_model(elements@);
    let mut creatures: Vec<Pal> = Vec::new();
    let mut skipped: u64 = 0;
    let ghost mut exact: nat = 0;
    let mut i: usize = 0;
    assert(pals_model(creatures@) =~= Seq::empty());
    while i < elements.len()
        invariant
            i <= elements.len(),
            model == values_model(elements@),
            skipped == saturated(exact),
            creatures_from(schema@, model, i as int, pals_model(creatures@), exact) == creatures_from(
                schema@,
                model,
                0,
                Seq::empty(),
                0,
            ),
        decreases elements.len() - i,
    {
        let ghost before = pals_model(creatures@);
        assert(model[i as int] == elements@[i as int]@);
        match project_creature(schema, &elements[i]) {
            Ok(creature) => {
                let ghost added = creature@;
                creatures.push(creature);
                assert(pals_model(creatures@) =~= before.push(added));
            },
            Err(_) => {
                skipped = one_more(skipped, Ghost(exact));
                proof {
                    exact = exact + 1;
                }
            },
        }
        i = i + 1;
    }
    (creatures, skipped)
}

/// The identifier that a key holds.
fn get_key_id(id_field: &[u8], key: &PropertyValue) -> (found: Option<ID>)
    ensures
        match found {
            Some(id) => key_id(id_field@, key@) == Some(id@),
            None => key_id(id_field@, key@) is None,
        },
{
    match key.as_guid() {
        Some(id) => Some(id),
        None => match key.fields() {
            Some(tree) => get_guid(tree, id_field),
            None => None,
        },
    }
}

/// Projects one entry of the map of characters onto a player, and counts the
/// creatures that were left out.
pub fn project_player(schema: &Schema, key: &PropertyValue, value: &PropertyValue) -> (r: Result<
    (Player, u64),
    FormatError,
>)
    ensures
        match player_of(schema@, key@, value@) {
            Ok((player, skipped)) => r matches Ok(found) && found.0@ == player && found.1 == saturated(
                skipped,
            ),
            Err(e) => r matches Err(x) && x@ == e,
        },
{
    let tree = match get_entity(schema.id_field.as_slice(), value) {
        Err(e) => {
            return Err(e);
        },
        Ok(tree) => tree,
    };
    let from_key = get_key_id(schema.id_field.as_slice(), key);
    let uid = match from_key {
        Some(id) => id,
        None => match get_guid(tree, schema.id_field.as_slice()) {
            Some(id) => id,
            None => {
                return Err(
                    FormatError::MissingRequiredField(
                        vstd::slice::slice_to_vec(schema.id_field.as_slice()),
                    ),
                );
            },
        },
    };
    let nickname = match get_text(tree, schema.name_field.as_slice()) {
        Some(text) => text,
        None => String::new(),
    };
    let level = get_level(tree, schema.level_field.as_slice());
    let (pals, skipped) = match tree.get(schema.creatures_field.as_slice()) {
        Some(value) => match value {
            PropertyValue::Array { element_tag, element_struct, elements } => project_creatures(
                schema,
                elements,
            ),
            _ => {
                let none: Vec<Pal> = Vec::new();
                assert(pals_model(none@) =~= Seq::empty());
                (none, 0)
            },
        },
        None => {
            let none: Vec<Pal> = Vec::new();
            assert(pals_model(none@) =~= Seq::empty());
            (none, 0)
        },
    };
    Ok((Player { uid, nickname, level, pals }, skipped))
}

/// Finds the map of characters at the end of the path of the schema.
pub fn find_table<'a>(schema: &Schema, root: &'a PropertyTree) -> (r: Result<
    &'a Vec<(PropertyValue, PropertyValue)>,
    FormatError,
>)
    ensures
        match table_at(root@, schema@.table_path, 0) {
            Ok(entries) => r matches Ok(found) && pairs_model(found@) == entries,
            Err(e) => r matches Err(x) && x@ == e,
        },
{
    if schema.table_path.len() == 0 {
        return Err(FormatError::MissingRequiredField(Vec::new()));
    }
    let ghost path = schema@.table_path;
    let mut scope: &PropertyTree = root;
    let mut i: usize = 0;
    loop
        invariant
            i < schema.table_path.len(),
            path == schema@.table_path,
            table_at(scope@, path, i as int) == table_at(root@, path, 0),
        decreases schema.table_path.len() - i,
    {
        let name = schema.table_path[i].as_slice();
        assert(path[i as int] == name@);
        let value = match scope.get(name) {
            None => {
                return Err(FormatError::MissingRequiredField(vstd::slice::slice_to_vec(name)));
            },
            Some(value) => value,
        };
        if i == schema.table_path.len() - 1 {
            match value {
                PropertyValue::Mapping { key_tag, value_tag, flags, entries } => {
                    return Ok(entries);
                },
                _ => {
                    return Err(FormatError::MissingRequiredField(vstd::slice::slice_to_vec(name)));
                },
            }
        }
        match value.fields() {
            Some(inner) => {
                scope = inner;
            },
            None => {
                return Err(FormatError::MissingRequiredField(vstd::slice::slice_to_vec(name)));
            },
        }
        i = i + 1;
    }
}

/// Projects a document onto its players. An entry that lacks a required
/// field is left out and counted; the projection fails only where the map of
/// characters cannot be found.
pub fn project(schema: &Schema, document: &SaveDocument) -> (r: Result<Projection, FormatError>)
    ensures
        projects(schema@, document@, r),
{
    let entries = match find_table(schema, &document.root) {
        Err(e) => {
            return Err(e);
        },
        Ok(entries) => entries,
    };
    let ghost model = pairs_model(entries@);
    let mut players: Vec<Player> = Vec::new();
    let mut skipped: u64 = 0;
    let ghost mut exact: nat = 0;
    let mut i: usize = 0;
    assert(players_model(players@) =~= Seq::empty());
    while i < entries.len()
        invariant
            i <= entries.len(),
            model == pairs_model(entries@),
            skipped == saturated(exact),
            players_from(schema@, model, i as int, players_model(players@), exact) == players_from(
                schema@,
                model,
                0,
                Seq::empty(),
                0,
            ),
        decreases entries.len() - i,
    {
        let ghost before = players_model(players@);
        assert(model[i as int] == (entries@[i as int].0@, entries@[i as int].1@));
        match project_player(schema, &entries[i].0, &entries[i].1) {
            Ok((player, more)) => {
                let ghost added = player@;
                let ghost exact_more = player_of(schema@, model[i as int].0, model[i as int].1)->Ok_0.1;
                players.push(player);
                assert(players_model(players@) =~= before.push(added));
                skipped = sum_up(skipped, more, Ghost(exact), Ghost(exact_more));
                proof {
                    exact = exact + exact_more;
                }
            },
            Err(_) => {
                skipped = one_more(skipped, Ghost(exact));
                proof {
                    exact = exact + 1;
                }
            },
        }
        i = i + 1;
    }
    Ok(Projection { players, skipped })
}

} // verus!
