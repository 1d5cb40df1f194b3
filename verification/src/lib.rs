//! Client prediction and server reconciliation for a fixed-tick movement
//! simulation.
//!
//! Every participant controls one entity. The authority simulates all of
//! them once per fixed tick from the inputs its clients send, and answers
//! with snapshots of the world. A client does not wait for the answer: it
//! integrates its own inputs at once, keeps them for a second, and when a
//! snapshot contradicts what it predicted, takes the authority's word and
//! integrates the inputs the authority had not yet seen once more.
//!
//! The parts, leaves first:
//!
//! - [`scalar`]: single-precision numbers as bit patterns, and their
//!   comparison.
//! - [`sequence`]: finding the first match, and keeping what is wanted.
//! - [`numerics`]: what is asked of the arithmetic the caller supplies.
//! - [`identity`]: client identifiers and the local player.
//! - [`input`]: inputs, input messages and time slices.
//! - [`movement`]: entities, and integrating inputs into them.
//! - [`history`]: the client's input history and its tick.
//! - [`snapshot`]: snapshots, their differences, and the authority's
//!   snapshot history.
//! - [`messages`]: what crosses the wire.
//! - [`client`]: receiving snapshots, with correction and replay.
//! - [`server`]: the per-client input cache, the authority's tick, and the
//!   sending of snapshots.
//! - [`visuals`]: where entities are drawn between ticks.
//! - [`agreement`] and [`timing`]: laws that relate the two sides.

pub mod agreement;
pub mod client;
pub mod history;
pub mod identity;
pub mod input;
pub mod messages;
pub mod movement;
pub mod numerics;
pub mod scalar;
pub mod sequence;
pub mod server;
pub mod snapshot;
pub mod timing;
pub mod visuals;
