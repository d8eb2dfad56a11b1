//! An owned creature.

use vstd::prelude::*;
use crate::graphql::ID;

verus! {

/// One creature that a player owns, as read from the save.
#[derive(Debug)]
pub struct Pal {
    pub instance_id: ID,
    pub character_id: String,
    pub nickname: Option<String>,
    pub level: u32,
}

/// What a [`Pal`] holds.
pub struct PalModel {
    pub instance_id: Seq<u8>,
    pub character_id: Seq<char>,
    pub nickname: Option<Seq<char>>,
    pub level: u32,
}

/// The characters of an optional string.
pub open spec fn optional_string(text: Option<String>) -> Option<Seq<char>> {
    match text {
        Some(t) => Some(t@),
        None => None,
    }
}

impl View for Pal {
    type V = PalModel;

    open spec fn view(&self) -> PalModel {
        PalModel {
            instance_id: self.instance_id@,
            character_id: self.character_id@,
            nickname: optional_string(self.nickname),
            level: self.level,
        }
    }
}

/// The creatures of a list, each by what it holds.
pub open spec fn pals_model(pals: Seq<Pal>) -> Seq<PalModel> {
    Seq::new(pals.len(), |i: int| pals[i]@)
}

impl Clone for Pal {
    fn clone(&self) -> (copy: Pal)
        ensures
            copy@ == self@,
    {
        let nickname = match &self.nickname {
            Some(name) => Some(name.clone()),
            None => None,
        };
        Pal {
            instance_id: self.instance_id,
            character_id: self.character_id.clone(),
            nickname,
            level: self.level,
        }
    }
}

/// A copy of a list of creatures.
pub fn clone_pals(pals: &Vec<Pal>) -> (copy: Vec<Pal>)
    ensures
        pals_model(copy@) == pals_model(pals@),
{
    let mut copy: Vec<Pal> = Vec::new();
    let mut i: usize = 0;
    while i < pals.len()
        invariant
            i <= pals.len(),
            copy@.len() == i,
            forall|k: int| 0 <= k < i ==> copy@[k]@ == pals@[k]@,
        decreases pals.len() - i,
    {
        copy.push(pals[i].clone());
        i = i + 1;
    }
    assert(pals_model(copy@) =~= pals_model(pals@));
    copy
}

} // verus!
