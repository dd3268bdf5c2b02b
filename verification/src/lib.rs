//! Core logic of a turn-based hex-grid tactics game.
//!
//! The crate models the game world explicitly: a dense arena of units, a
//! tile map, a round/phase state machine and a combat-resolution engine.
//! Rendering, input polling and asset loading are host concerns and stay
//! outside; the library exposes plain-value entry points that a host loop
//! drives.

pub mod abilities;
pub mod assets;
pub mod codec;
pub mod combat;
pub mod decimal;
pub mod dice;
pub mod driver;
pub mod engagement;
pub mod flow;
pub mod game_log;
pub mod hex;
pub mod input;
pub mod movement;
pub mod reachable;
pub mod round;
pub mod strutil;
pub mod terrain;
pub mod units;
pub mod world;
