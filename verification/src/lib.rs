//! A multiplayer typing-race room coordinator.
//!
//! Each participant owns an independent execution context (a "location",
//! identified by a `ChainId`). One location hosts the authoritative copy of a
//! game room; every other participating location holds a replica kept
//! consistent through one-way, at-least-once messages. This crate holds the
//! verified core: the authoritative room state machine, the replica handlers,
//! scoring, per-player statistics, and prompt selection. The surrounding
//! substrate (storage, transport, identity, queries) supplies plain values and
//! delivers the messages the machine emits.

use vstd::prelude::*;

pub mod dispatch;
pub mod machine;
pub mod prompts;
pub mod protocol;
pub mod replica;
pub mod room;
pub mod score;
pub mod stats;

verus! {

/// Identity of a player (model of the substrate's account-owner key).
pub type AccountOwner = u64;

/// Identity of a location: one participant's own execution context.
pub type ChainId = u64;

/// Unique key of a game room.
pub type RoomId = u64;

/// A point in logical time, supplied by the execution substrate.
pub type Timestamp = u64;

/// Marker tying together the operation and message surface of the arena.
pub struct TypeArenaAbi;

/// The fatal failure class: violated preconditions of operations executed by
/// the initiating participant. Every fatal error aborts the whole operation
/// with no partial mutation. Cross-location races (unknown room, duplicate
/// submission, full lobby) are never errors: they are silent no-ops.
#[derive(Clone, Copy, Debug, PartialEq, Eq, Structural)]
pub enum TypeArenaError {
    /// Room creation asked for fewer than 2 or more than 8 players.
    InvalidPlayerCount,
    /// Room creation asked for fewer than 1 or more than 10 rounds.
    InvalidRoundCount,
    /// Room creation under a key that is already taken.
    RoomAlreadyExists,
    /// A start was issued for a room this location does not know.
    RoomNotFound,
    /// A start was issued by someone other than the room's host.
    NotHost,
    /// A start was issued for a room that is no longer in its lobby.
    GameAlreadyStarted,
    /// A start was issued with fewer than 2 members present.
    NotEnoughPlayers,
}

} // verus!
