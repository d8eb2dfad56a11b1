//! From the bytes of a save file to its players.

use vstd::prelude::*;
use crate::container::{container_payload, open_container};
use crate::document::{parse_document, SaveDocument};
use crate::error::{ErrorModel, FormatError};
use crate::mapper::{
    project, project_document, saturated, standard_schema, Projection, ProjectionModel, Schema,
    SchemaModel,
};
use crate::models::player::{players_model, Player};
use crate::registry::{standard_layouts, LayoutModel, StructRegistry};

verus! {

/// The players that a file holds and the number of entities that were left
/// out: the container is opened, the property stream inside is read as a
/// document, and the document is projected.
pub open spec fn save_projection(registry: Seq<LayoutModel>, schema: SchemaModel, file: Seq<u8>) -> Result<
    ProjectionModel,
    ErrorModel,
> {
    match container_payload(file) {
        Err(e) => Err(e),
        Ok(stream) => match parse_document(registry, stream) {
            Err(e) => Err(e),
            Ok(document) => project_document(schema, document),
        },
    }
}

/// Reads the bytes of a save file with the given struct types and names.
pub fn load_save(file: &[u8], registry: &StructRegistry, schema: &Schema) -> (r: Result<Projection, FormatError>)
    ensures
        match save_projection(registry@, schema@, file@) {
            Ok(expected) => r matches Ok(projection) && players_model(projection.players@)
                == expected.players && projection.skipped == saturated(expected.skipped),
            Err(e) => r matches Err(x) && x@ == e,
        },
{
    let stream = match open_container(file) {
        Err(e) => {
            return Err(e);
        },
        Ok(stream) => stream,
    };
    let document = match SaveDocument::decode(stream.as_slice(), registry) {
        Err(e) => {
            return Err(e);
        },
        Ok(document) => document,
    };
    project(schema, &document)
}

/// Reads the players out of the bytes of a save file, with the standard
/// struct types and names.
pub fn parse_save_file(file: &[u8]) -> (r: Result<Vec<Player>, FormatError>)
    ensures
        match save_projection(standard_layouts(), standard_schema(), file@) {
            Ok(expected) => r matches Ok(players) && players_model(players@) == expected.players,
            Err(e) => r matches Err(x) && x@ == e,
        },
{
    let registry = StructRegistry::standard();
    let schema = Schema::standard();
    match load_save(file, &registry, &schema) {
        Ok(projection) => Ok(projection.players),
        Err(e) => Err(e),
    }
}

} // verus!
