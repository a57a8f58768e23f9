//! Authoritative world state of a small real-time multiplayer 2D game:
//! players and projectiles, the simulation tick (motion, collisions, damage,
//! respawns), the decisions of each client connection, and the parts of the
//! wire protocol that need no floating point.
//!
//! Quantities are fixed-point integers: positions in micro-units (see
//! `components::POS_SCALE`), velocities in micro-units per millisecond,
//! durations in milliseconds and hit points in thousandths.
pub mod components;
pub mod world;
pub mod game_logic;
pub mod text;
pub mod session;
pub mod laws;
pub mod http_server;
