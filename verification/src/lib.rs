//! Authoritative simulation core for a small multiplayer eating game.
//!
//! The crate holds the verified heart of the server: the identity
//! registry (who is connected, and at which transport endpoint), the
//! login handshake that hands out identities, the dispatcher that turns
//! client messages into world-state changes, and the tick simulation
//! that resolves movement, pairwise consumption and food.  Socket I/O,
//! async scheduling and byte encoding live outside the library and talk
//! to it through plain values.

pub mod game_state;
pub mod message;
mod rng;
pub mod registry;
pub mod login;
pub mod world;
pub mod dispatch;
