//! Card rendering, synergy tracking and augment drawing for a terminal
//! take on the ARAM "brawl" augment mode.

pub mod text;
pub mod wrap;
pub mod model;
pub mod style;
pub mod synergy;
pub mod card;
pub mod panel;
pub mod draw;
pub mod input;
pub mod game;
pub mod laws;
pub mod screen_laws;
pub mod wrap_laws;
