//! What a participant asks of its entity: one input per rendered frame.

use crate::scalar::{Scalar, Vec3};
use vstd::prelude::*;

verus! {

/// One frame's worth of intent, tagged by the session that captured it.
///
/// Only the id, the five flags and the two angles travel to the authority.
/// The timestamp stays with the session that captured the input, and the
/// resulting translation is filled in by whoever integrates it.
#[derive(Clone, Copy, Debug, PartialEq, Eq, Structural)]
pub struct PlayerInput {
    pub id: u32,
    pub forward: bool,
    pub backward: bool,
    pub left: bool,
    pub right: bool,
    pub jump: bool,
    pub pitch: Scalar,
    pub yaw: Scalar,
    /// Where the entity stood once this input had been integrated.
    pub final_translation: Vec3,
    /// Capture time in milliseconds.
    pub timestamp: u128,
}

/// What the capture source delivers each frame: debounced keys and the
/// orientation the camera has settled on.
#[derive(Clone, Copy, Debug, PartialEq, Eq, Structural)]
pub struct InputSample {
    pub forward: bool,
    pub backward: bool,
    pub left: bool,
    pub right: bool,
    pub jump: bool,
    pub pitch: Scalar,
    pub yaw: Scalar,
}

/// Where integrating one input left the entity.
#[derive(Clone, Copy, Debug, PartialEq, Eq, Structural)]
pub struct PlayerInputOutcome {
    pub translation: Vec3,
    pub velocity: Vec3,
}

/// What a client sends to the authority: the newest snapshot it has processed
/// and the inputs of its latest tick.
#[derive(Clone, Debug, PartialEq, Eq)]
pub struct PlayerInputMessage {
    pub latest_processed_snapshot_id: Option<u32>,
    pub inputs: Vec<PlayerInput>,
}

/// A share of one fixed tick: the tick's duration divided by `batches`, and
/// that again by `entries`.
///
/// The two divisions are kept apart because they are carried out one after
/// the other on the tick's duration, and a single division by the product
/// need not round the same way.
#[derive(Clone, Copy, Debug, PartialEq, Eq, Structural)]
pub struct TimeSlice {
    pub batches: usize,
    pub entries: usize,
}

impl TimeSlice {
    /// A whole tick.
    pub open spec fn spec_whole() -> TimeSlice {
        TimeSlice { batches: 1, entries: 1 }
    }

    /// One of `entries` equal parts of a whole tick.
    pub open spec fn spec_part(entries: usize) -> TimeSlice {
        TimeSlice { batches: 1, entries }
    }

    /// How long the slice lasts when a tick lasts `tick`, in whatever unit
    /// `tick` is given in. Exact where the divisions leave no remainder.
    pub open spec fn of(self, tick: int) -> int {
        tick / (self.batches as int) / (self.entries as int)
    }

    #[verifier::when_used_as_spec(spec_whole)]
    pub fn whole() -> (slice: TimeSlice)
        ensures
            slice == TimeSlice::spec_whole(),
    {
        TimeSlice { batches: 1, entries: 1 }
    }

    #[verifier::when_used_as_spec(spec_part)]
    pub fn part(entries: usize) -> (slice: TimeSlice)
        ensures
            slice == TimeSlice::spec_part(entries),
    {
        TimeSlice { batches: 1, entries }
    }
}

impl PlayerInput {
    /// The input a sample becomes once it has an id and a capture time. It
    /// has not been integrated yet, so it leads nowhere: the origin.
    pub open spec fn spec_from_sample(sample: InputSample, id: u32, timestamp: u128) -> PlayerInput {
        PlayerInput {
            id,
            forward: sample.forward,
            backward: sample.backward,
            left: sample.left,
            right: sample.right,
            jump: sample.jump,
            pitch: sample.pitch,
            yaw: sample.yaw,
            final_translation: Vec3::spec_zero(),
            timestamp,
        }
    }

    #[verifier::when_used_as_spec(spec_from_sample)]
    pub fn from_sample(sample: InputSample, id: u32, timestamp: u128) -> (input: PlayerInput)
        ensures
            input == PlayerInput::spec_from_sample(sample, id, timestamp),
    {
        PlayerInput {
            id,
            forward: sample.forward,
            backward: sample.backward,
            left: sample.left,
            right: sample.right,
            jump: sample.jump,
            pitch: sample.pitch,
            yaw: sample.yaw,
            final_translation: Vec3::zero(),
            timestamp,
        }
    }

    /// Whether this input is `other` but for the translation it led to.
    pub open spec fn same_but_for_outcome(self, other: PlayerInput) -> bool {
        self == (PlayerInput { final_translation: self.final_translation, ..other })
    }

    /// Whether this input was captured less than a second before `now`. An
    /// input stamped in the future counts as recent.
    pub open spec fn spec_is_recent(&self, now: u128) -> bool {
        now - self.timestamp < RETENTION_MILLIS
    }

    #[verifier::when_used_as_spec(spec_is_recent)]
    pub fn is_recent(&self, now: u128) -> (r: bool)
        ensures
            r == self.spec_is_recent(now),
    {
        self.timestamp >= now || now - self.timestamp < RETENTION_MILLIS
    }
}

/// How long inputs and snapshots are kept, in milliseconds.
pub const RETENTION_MILLIS: u128 = 1000;

} // verus!
