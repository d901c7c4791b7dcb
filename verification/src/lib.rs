//! A verified rules engine for a tile-drafting board game: players draft
//! colored tiles from factory displays and a shared pool into staging
//! rows, flush completed rows onto a scoring wall at round end, and gain
//! or lose points by adjacency and penalty rules.
//!
//! The engine is the single owner of game truth. A presentation layer
//! reads it through the query methods and drives it through
//! `Game::handle_user_input` and `Game::handle`; every mutation carries
//! a contract that pins down what it does.

pub mod bag;
pub mod buildingarea;
pub mod common_area;
pub mod factory;
pub mod game;
pub mod floorline;
pub mod laws;
pub mod patternline;
pub mod player;
pub mod scroll;
pub mod tile;
pub mod tilecollection;
pub mod wall;
