//! What a session keeps of the save that was loaded last.

use vstd::prelude::*;
use crate::models::player::{clone_players, players_model, Player, PlayerModel};

verus! {

/// The players of the save that was loaded last, if one was loaded.
#[derive(Debug)]
pub struct AppStateInner {
    pub players: Option<Vec<Player>>,
}

impl AppStateInner {
    /// The players that the state holds: none before a save was loaded.
    pub open spec fn loaded(&self) -> Seq<PlayerModel> {
        match self.players {
            Some(players) => players_model(players@),
            None => Seq::empty(),
        }
    }
}

impl Default for AppStateInner {
    fn default() -> (state: AppStateInner)
        ensures
            state.players is None,
    {
        AppStateInner { players: None }
    }
}

impl Clone for AppStateInner {
    fn clone(&self) -> (copy: AppStateInner)
        ensures
            copy.players is Some == self.players is Some,
            copy.loaded() == self.loaded(),
    {
        match &self.players {
            Some(players) => AppStateInner { players: Some(clone_players(players)) },
            None => AppStateInner { players: None },
        }
    }
}

} // verus!
