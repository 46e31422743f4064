//! Session/room coordinator for a two-player, turn-based card game.
//!
//! The crate models the authoritative server core: an entity/component
//! store for game facts, a closed set of auditable state mutations
//! ("actions"), a room that owns one game's lifecycle together with its
//! request/response correlation table and per-player event queues, and a
//! manager that maps room names to rooms. Transport, timing and task
//! scheduling live outside the library and drive it through plain calls.

pub mod action;
pub mod card;
pub mod events;
pub mod game;
pub mod logic;
pub mod player;
pub mod room;
pub mod running;
pub mod state;
pub mod store;
pub mod system;
pub mod utils;

pub use store::Entity;
