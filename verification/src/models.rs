//! The records that a save is projected onto.

pub mod pal;
pub mod player;
