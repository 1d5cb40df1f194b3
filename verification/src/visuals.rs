//! Where an entity is drawn.
//!
//! The simulation moves entities once per fixed tick; frames are drawn more
//! often. Each drawn entity keeps a sample of its position that is taken
//! after every tick, and between ticks it is drawn ahead of that sample along
//! its velocity. Nothing here writes to the simulation's own state: the
//! entity and its position are only read.
//!
//! The arithmetic (extrapolating, measuring, blending) is floating-point and
//! is supplied by the caller, like the movement model.

use crate::identity::LocalPlayer;
use crate::movement::Character;
use crate::numerics::{answered, asked, is_function, Asked};
use crate::scalar::{Scalar, Vec3};
use bevy_renet::renet::ClientId;
use vstd::prelude::*;

verus! {

/// Bit pattern of the distance, 0.001, beyond which the drawn position is
/// eased towards the simulated one instead of being put there.
pub const SMOOTH_CORRECTION_DISTANCE_THRESHOLD_BITS: u32 = 0x3a83_126f;

/// The drawn counterpart of an entity.
#[derive(Clone, Copy, Debug)]
pub struct CharacterVisuals {
    pub owner_client_id: ClientId,
    /// The position sampled after the last fixed tick.
    pub last_physics_translation: Vec3,
}

/// What extrapolation starts from: the sample, the entity's velocity, and
/// how much of a tick has passed since the sample was taken.
#[derive(Clone, Copy, Debug, PartialEq, Eq, Structural)]
pub struct Drift {
    pub from: Vec3,
    pub velocity: Vec3,
    /// The part of a tick that has passed, between zero and one.
    pub fraction: Scalar,
}

/// What easing starts from: where the entity is drawn, where the simulation
/// has it, and how far apart the two are.
#[derive(Clone, Copy, Debug, PartialEq, Eq, Structural)]
pub struct Divergence {
    pub rendered: Vec3,
    pub simulated: Vec3,
    pub distance: Scalar,
}

impl CharacterVisuals {
    /// The visuals of an entity that has just come into the world.
    pub fn new(owner_client_id: ClientId, translation: Vec3) -> (visuals: CharacterVisuals)
        ensures
            visuals.owner_client_id == owner_client_id,
            visuals.last_physics_translation == translation,
    {
        CharacterVisuals { owner_client_id, last_physics_translation: translation }
    }

    /// Where the entity is drawn between ticks: ahead of the sample along
    /// the velocity by the part of a tick that has passed, or where it was
    /// drawn before if the velocity is not finite. `elapsed` is the time
    /// since the sample was taken, in ticks; no more than one tick of it
    /// counts.
    pub open spec fn spec_extrapolate(
        &self,
        character: Character,
        rendered: Vec3,
        elapsed: Scalar,
        advance: spec_fn(Drift) -> Asked<Vec3>,
    ) -> Asked<Vec3> {
        if character.velocity.spec_is_finite() {
            advance(
                Drift {
                    from: self.last_physics_translation,
                    velocity: character.velocity,
                    fraction: elapsed.spec_clamp_unit(),
                },
            )
        } else {
            answered(rendered)
        }
    }

    /// Whether a distance between the drawn and the simulated position is
    /// too large to close at once.
    pub open spec fn spec_needs_easing(distance: Scalar) -> bool {
        distance.spec_float_gt(Scalar { bits: SMOOTH_CORRECTION_DISTANCE_THRESHOLD_BITS })
    }

    /// Whether the entity is one whose drawn position may lag behind the
    /// simulation: the local player's own, on an instance that is not the
    /// authority.
    pub open spec fn is_predicted(character: Character, local_player: LocalPlayer) -> bool {
        local_player.spec_owns(character.owner_client_id) && !local_player.spec_is_authority()
    }

    /// The sample after a fixed tick. For a predicted entity that is drawn
    /// further from the simulated position than the threshold, the sample is
    /// eased from the drawn position towards the simulated one. In every
    /// other case it is the simulated position.
    pub open spec fn spec_sample(
        character: Character,
        simulated: Vec3,
        rendered: Vec3,
        local_player: LocalPlayer,
        distance: spec_fn((Vec3, Vec3)) -> Asked<Scalar>,
        ease: spec_fn(Divergence) -> Asked<Vec3>,
    ) -> Asked<Vec3> {
        if CharacterVisuals::is_predicted(character, local_player) {
            let apart = distance((rendered, simulated));
            if CharacterVisuals::spec_needs_easing(apart.value) {
                let eased = ease(Divergence { rendered, simulated, distance: apart.value });
                Asked { value: eased.value, answered: apart.answered && eased.answered }
            } else {
                Asked { value: simulated, answered: apart.answered }
            }
        } else {
            answered(simulated)
        }
    }

    /// Decides whether a distance between the drawn and the simulated
    /// position is eased rather than closed: it is when it is a number above
    /// 0.001.
    #[verifier::when_used_as_spec(spec_needs_easing)]
    pub fn needs_easing(distance: Scalar) -> (r: bool)
        ensures
            r == CharacterVisuals::spec_needs_easing(distance),
    {
        distance.float_gt(Scalar::from_bits(SMOOTH_CORRECTION_DISTANCE_THRESHOLD_BITS))
    }

    /// Moves the drawn position for the current frame.
    pub fn extrapolate<A: Fn(Drift) -> Vec3>(
        &self,
        character: &Character,
        rendered: &mut Vec3,
        elapsed: Scalar,
        advance: &A,
    )
        requires
            is_function(*advance),
        ensures
            self.spec_extrapolate(*character, *old(rendered), elapsed, asked(*advance)) == answered(*final(rendered)),
    {
        if character.velocity.is_finite() {
            *rendered = advance(
                Drift {
                    from: self.last_physics_translation,
                    velocity: character.velocity,
                    fraction: elapsed.clamp_unit(),
                },
            );
        }
    }

    /// Takes the sample after a fixed tick.
    pub fn post_fixed<D: Fn((Vec3, Vec3)) -> Scalar, N: Fn(Divergence) -> Vec3>(
        &mut self,
        character: &Character,
        simulated: &Vec3,
        rendered: &Vec3,
        local_player: &LocalPlayer,
        distance: &D,
        ease: &N,
    )
        requires
            is_function(*distance),
            is_function(*ease),
        ensures
            final(self).owner_client_id == old(self).owner_client_id,
            CharacterVisuals::spec_sample(
                *character,
                *simulated,
                *rendered,
                *local_player,
                asked(*distance),
                asked(*ease),
            ) == answered(final(self).last_physics_translation),
    {
        if !local_player.owns(character.owner_client_id) {
            self.last_physics_translation = *simulated;
        } else if local_player.is_authority() {
            self.last_physics_translation = *simulated;
        } else {
            let apart = distance((*rendered, *simulated));
            if CharacterVisuals::needs_easing(apart) {
                self.last_physics_translation = ease(
                    Divergence { rendered: *rendered, simulated: *simulated, distance: apart },
                );
            } else {
                self.last_physics_translation = *simulated;
            }
        }
    }
}

} // verus!
