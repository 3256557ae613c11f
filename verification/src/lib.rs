//! Session orchestrator of a two-player trivia server: the registry of connected
//! players, the matchmaking slots, the per-match round machine, the dispatch of
//! inbound documents and the queue of outbound ones.
//!
//! The library owns no socket, clock or database. Whoever runs it hands in each
//! transport event together with the current time, carries out the storage
//! queries it asks for, delivers what `send_packets` drains, stores what
//! `take_saves` drains, and deals with what `take_unsent` reports.

pub mod command;
pub mod database;
pub mod game;
pub mod matchmaking;
pub mod player;
pub mod protocol;
pub mod round;
pub mod server;
pub mod social;
pub mod state;
pub mod theorems;
pub mod wire;
