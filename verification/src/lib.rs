//! Game logic of a grid-based bomb arena game: the tile map and its generation,
//! explosions and chain reactions, path finding for enemies and bots, player
//! input state machines and the campaign rules.

pub mod assets;
pub mod bomb;
pub mod collision;
pub mod direction;
pub mod enemy;
pub mod event;
pub mod game_settings;
pub mod game_state;
pub mod input;
pub mod map;
pub mod player;
pub mod powerup;
mod route;
mod rng;
pub mod settings;
mod strings;
