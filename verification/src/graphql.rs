//! What the query layer serves: the identifier of an entity, sixteen bytes
//! written as a hyphenated UUID, and the list of players.

use vstd::prelude::*;
use crate::models::player::{clone_players, players_model, Player};
use crate::state::AppStateInner;

verus! {

/// Sixteen raw bytes that name a player or a creature.
#[derive(Clone, Copy, Debug, PartialEq, Eq, PartialOrd, Ord, Hash)]
pub struct ID(pub [u8; 16]);

impl View for ID {
    type V = Seq<u8>;

    open spec fn view(&self) -> Seq<u8> {
        self.0@
    }
}

/// The bytes that `Uuid::parse_str` reads out of a text, if it accepts the text.
pub uninterp spec fn uuid_parsed(text: Seq<char>) -> Option<Seq<u8>>;

/// The lower-case hexadecimal digit of a number below sixteen.
pub open spec fn hex_digit(nibble: int) -> char {
    if nibble < 10 {
        ('0' as int + nibble) as char
    } else {
        ('a' as int + nibble - 10) as char
    }
}

/// The hyphenated form of sixteen bytes: 32 lower-case hexadecimal digits, the
/// first byte first and its high half first, in groups of 8, 4, 4, 4 and 12.
pub open spec fn hyphenated(bytes: Seq<u8>) -> Seq<char> {
    Seq::new(
        36,
        |i: int|
            if i == 8 || i == 13 || i == 18 || i == 23 {
                '-'
            } else {
                let digit = if i > 23 {
                    i - 4
                } else if i > 18 {
                    i - 3
                } else if i > 13 {
                    i - 2
                } else if i > 8 {
                    i - 1
                } else {
                    i
                };
                let byte = bytes[digit / 2] as int;
                hex_digit(
                    if digit % 2 == 0 {
                        byte / 16
                    } else {
                        byte % 16
                    },
                )
            },
    )
}

/// `Uuid::parse_str` of the uuid crate: which texts it accepts and the bytes it
/// reads are a matter of the text alone.
#[verifier::external_body]
fn uuid_parse_str(text: &str) -> (bytes: Option<[u8; 16]>)
    ensures
        match bytes {
            Some(b) => uuid_parsed(text@) == Some(b@),
            None => uuid_parsed(text@) is None,
        },
{
    match uuid::Uuid::parse_str(text) {
        Ok(id) => Some(id.into_bytes()),
        Err(_) => None,
    }
}

/// `Uuid::from_bytes` and the `Display` of the uuid crate: the hyphenated
/// lower-case form of the bytes.
#[verifier::external_body]
fn uuid_to_string(bytes: &[u8; 16]) -> (text: String)
    ensures
        text@ == hyphenated(bytes@),
{
    uuid::Uuid::from_bytes(*bytes).to_string()
}

impl ID {
    /// The identifier of sixteen zero bytes, which stands for "none".
    pub fn nil() -> (id: ID)
        ensures
            id@ == Seq::new(16, |i: int| 0u8),
    {
        let id = ID([0u8; 16]);
        assert(id@ =~= Seq::new(16, |i: int| 0u8));
        id
    }

    /// Reads an identifier from its textual form.
    pub fn parse(text: &str) -> (id: Option<ID>)
        ensures
            match id {
                Some(found) => uuid_parsed(text@) == Some(found@),
                None => uuid_parsed(text@) is None,
            },
    {
        match uuid_parse_str(text) {
            Some(bytes) => Some(ID(bytes)),
            None => None,
        }
    }

    /// The identifier in the standard textual layout.
    pub fn to_value(&self) -> (text: String)
        ensures
            text@ == hyphenated(self@),
    {
        uuid_to_string(&self.0)
    }
}

/// The root of the queries that a session answers.
#[derive(Clone, Copy, Debug, Default)]
pub struct Query;

impl Query {
    /// All players of the save that was loaded last; none before a save was
    /// loaded.
    pub fn players(&self, state: &AppStateInner) -> (players: Vec<Player>)
        ensures
            players_model(players@) == state.loaded(),
    {
        match &state.players {
            Some(players) => clone_players(players),
            None => {
                let players: Vec<Player> = Vec::new();
                assert(players_model(players@) =~= Seq::empty());
                players
            },
        }
    }
}

} // verus!
