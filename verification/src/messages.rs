//! The messages that cross the wire.

use crate::input::PlayerInputMessage;
use crate::scalar::Vec3;
use crate::snapshot::Snapshot;
use vstd::prelude::*;

verus! {

/// Sent by the authority on the reliable channel.
#[derive(Clone, Copy, Debug, PartialEq, Eq)]
pub enum ReliableServerMessage {
    /// An entity has come into the world: its owner's raw id, where it
    /// stands, and how fast it moves.
    SpawnCharacter(u64, Vec3, Vec3),
}

/// Sent by the authority on the unreliable channel.
#[derive(Clone, Debug, PartialEq, Eq)]
pub enum UnreliableServerMessage {
    Snapshot(Snapshot),
}

/// Sent by a client on the unreliable channel.
#[derive(Clone, Debug, PartialEq, Eq)]
pub enum UnreliableClientMessage {
    PlayerInputMessage(PlayerInputMessage),
}

} // verus!
