//! A two-player "war" card game: each round both players reveal the front
//! card of their draw stack, the higher rank captures the revealed cards,
//! and ties escalate until one side wins the whole contested pile or a
//! player runs out of cards.

pub mod card;
pub mod game;
pub mod outcome;
