//! The authoritative core of an online two-player Reversi server: the rule
//! engine, the matchmaking queue, the wire codec, the per-connection session
//! state machine and the game coordinator, each with a machine-checked
//! contract.

pub mod board;
pub mod client;
pub mod clock;
pub mod codec;
pub mod game;
pub mod ident;
pub mod invariants;
pub mod json;
pub mod logger;
pub mod matchmaking;
pub mod message;
pub mod registry;
pub mod sequences;
pub mod server;
pub mod session;
pub mod text;

