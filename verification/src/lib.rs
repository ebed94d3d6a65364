//! Rules of a rock-paper-scissors swarm simulation: which collision layer a
//! player is on, who converts whom when two players touch, the roster of
//! player types the user edits, the ranking of types by population, and the
//! screen navigation of the game.

pub mod components;
pub mod layers;
pub mod rules;
pub mod collision;
pub mod rank;
pub mod roster;
pub mod state;
pub mod count_text;
pub mod credits;
