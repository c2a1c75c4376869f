//! A lobby service for games of two players.
//!
//! - `code`: session codes and how they are drawn.
//! - `board`, `game`: boards and the two message vocabularies.
//! - `wire`: the binary form of messages.
//! - `roster`: lists of names and the events addressed to them.
//! - `lobby`: one session and its state machine.
//! - `sessions`: the table of sessions and what each command does to it.
//! - `coordinator`: the table together with the players' queues; it carries
//!   out commands, sends events and replies.
//! - `relay`: what the relay of one connection does with each thing that
//!   reaches it.

pub mod board;
pub mod code;
pub mod coordinator;
pub mod game;
pub mod lobby;
pub mod relay;
pub mod roster;
pub mod sessions;
pub mod wire;
