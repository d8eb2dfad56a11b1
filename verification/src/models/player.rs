//! A player.

use vstd::prelude::*;
use crate::graphql::ID;
use crate::models::pal::{clone_pals, pals_model, Pal, PalModel};

verus! {

/// One player with the creatures that they own, as read from the save.
#[derive(Debug)]
pub struct Player {
    pub uid: ID,
    pub nickname: String,
    pub level: u32,
    pub pals: Vec<Pal>,
}

/// What a [`Player`] holds.
pub struct PlayerModel {
    pub uid: Seq<u8>,
    pub nickname: Seq<char>,
    pub level: u32,
    pub pals: Seq<PalModel>,
}

impl View for Player {
    type V = PlayerModel;

    open spec fn view(&self) -> PlayerModel {
        PlayerModel {
            uid: self.uid@,
            nickname: self.nickname@,
            level: self.level,
            pals: pals_model(self.pals@),
        }
    }
}

/// The players of a list, each by what it holds.
pub open spec fn players_model(players: Seq<Player>) -> Seq<PlayerModel> {
    Seq::new(players.len(), |i: int| players[i]@)
}

impl Clone for Player {
    fn clone(&self) -> (copy: Player)
        ensures
            copy@ == self@,
    {
        Player {
            uid: self.uid,
            nickname: self.nickname.clone(),
            level: self.level,
            pals: clone_pals(&self.pals),
        }
    }
}

/// A copy of a list of players.
pub fn clone_players(players: &Vec<Player>) -> (copy: Vec<Player>)
    ensures
        players_model(copy@) == players_model(players@),
{
    let mut copy: Vec<Player> = Vec::new();
    let mut i: usize = 0;
    while i < players.len()
        invariant
            i <= players.len(),
            copy@.len() == i,
            forall|k: int| 0 <= k < i ==> copy@[k]@ == players@[k]@,
        decreases players.len() - i,
    {
        copy.push(players[i].clone());
        i = i + 1;
    }
    assert(players_model(copy@) =~= players_model(players@));
    copy
}

} // verus!
