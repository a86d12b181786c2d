//! A turn-based planet conquest engine.
//!
//! - `rules`: the game world and how one turn changes it.
//! - `config`: the initial world built from a map.
//! - `protocol`: commands, reports and the messages exchanged with players.
//! - `serializer`: the world as each player is shown it.
//! - `game`: the controller of one session, which applies commands, advances
//!   the world and addresses every player.
//! - `barrier`: the per-turn collection of player inputs.
//! - `manager`: the registry of sessions and their status.
//! - `sessions`: the lobby's listing of running and finished games.
//! - `context`: the navigation context of the web pages.

pub mod barrier;
pub mod config;
pub mod context;
pub mod game;
pub mod manager;
pub mod protocol;
pub mod rules;
pub mod serializer;
pub mod sessions;
