//! Moving entities, and the seam through which the movement model acts on
//! them.
//!
//! The model itself (friction, acceleration towards the wish direction,
//! integration of velocity into position) is floating-point arithmetic and is
//! supplied by the caller as a function from a [`Motion`] to a
//! [`PlayerInputOutcome`]. Everything here is stated for any such function
//! that accepts every motion and maps equal motions to equal outcomes.

use crate::identity::client_id_raw;
use crate::input::{PlayerInput, PlayerInputOutcome, TimeSlice};
use crate::numerics::{answered, asked, is_function, Asked};
use crate::scalar::{Scalar, Vec3};
use crate::sequence::{first_index, lemma_first_index_is, lemma_first_index_none, same_index};
use bevy_renet::renet::ClientId;
use vstd::prelude::*;

verus! {

/// Bit pattern of the default acceleration, 8.
pub const CHARACTER_ACCEL_BITS: u32 = 0x4100_0000;

/// Bit pattern of the default top speed, 5.
pub const CHARACTER_SPEED_BITS: u32 = 0x40a0_0000;

/// Bit pattern of the default friction, 8.
pub const CHARACTER_FRICTION_BITS: u32 = 0x4100_0000;

/// The motion state of one controlled entity.
#[derive(Clone, Copy, Debug)]
pub struct Character {
    pub owner_client_id: ClientId,
    pub move_accel: Scalar,
    pub move_speed: Scalar,
    pub move_friction: Scalar,
    pub velocity: Vec3,
    pub pitch: Scalar,
    pub yaw: Scalar,
}

/// An entity of the simulation: its motion state and where it stands.
#[derive(Clone, Copy, Debug)]
pub struct Body {
    pub character: Character,
    pub translation: Vec3,
}

/// Everything the movement model reads to integrate one input.
#[derive(Clone, Copy, Debug)]
pub struct Motion {
    /// The entity's motion state, already turned the way the input looks.
    pub character: Character,
    pub translation: Vec3,
    pub input: PlayerInput,
    pub slice: TimeSlice,
}

/// An entity and the input that was just integrated into it.
pub struct Processed {
    pub body: Body,
    pub input: PlayerInput,
}

/// A body and the inputs that were run past it.
pub struct Run {
    pub body: Body,
    pub inputs: Seq<PlayerInput>,
}

impl Character {
    /// A character at rest with the default tuning.
    pub open spec fn spec_new(owner_client_id: ClientId, velocity: Vec3) -> Character {
        Character {
            owner_client_id,
            move_accel: Scalar { bits: CHARACTER_ACCEL_BITS },
            move_speed: Scalar { bits: CHARACTER_SPEED_BITS },
            move_friction: Scalar { bits: CHARACTER_FRICTION_BITS },
            velocity,
            pitch: Scalar { bits: 0 },
            yaw: Scalar { bits: 0 },
        }
    }

    #[verifier::when_used_as_spec(spec_new)]
    pub fn new(owner_client_id: ClientId, velocity: Vec3) -> (character: Character)
        ensures
            character == Character::spec_new(owner_client_id, velocity),
    {
        Character {
            owner_client_id,
            move_accel: Scalar { bits: CHARACTER_ACCEL_BITS },
            move_speed: Scalar { bits: CHARACTER_SPEED_BITS },
            move_friction: Scalar { bits: CHARACTER_FRICTION_BITS },
            velocity,
            pitch: Scalar { bits: 0 },
            yaw: Scalar { bits: 0 },
        }
    }

    /// The raw id of the owner.
    pub open spec fn owner(&self) -> u64 {
        client_id_raw(self.owner_client_id)
    }

    /// This character looking the way `input` looks.
    pub open spec fn facing(self, input: PlayerInput) -> Character {
        Character { pitch: input.pitch, yaw: input.yaw, ..self }
    }

    /// What the movement model is handed to integrate `input` over `slice`:
    /// the character turned to face the input, where it stands, the input
    /// and the slice.
    pub open spec fn spec_motion(self, input: PlayerInput, translation: Vec3, slice: TimeSlice) -> Motion {
        Motion { character: self.facing(input), translation, input, slice }
    }

    /// The character and the input once the model has said where
    /// integrating the input leads: the character faces the input and moves
    /// as the model says, it stands where the model says, and the input
    /// remembers that place.
    pub open spec fn spec_adopt(self, input: PlayerInput, outcome: PlayerInputOutcome) -> Processed {
        Processed {
            body: Body {
                character: Character { velocity: outcome.velocity, ..self.facing(input) },
                translation: outcome.translation,
            },
            input: PlayerInput { final_translation: outcome.translation, ..input },
        }
    }

    /// Integrating `input` over `slice`: the model is handed the motion, and
    /// its outcome is adopted.
    pub open spec fn spec_process_input(
        self,
        input: PlayerInput,
        translation: Vec3,
        slice: TimeSlice,
        model: spec_fn(Motion) -> Asked<PlayerInputOutcome>,
    ) -> Asked<Processed> {
        let outcome = model(self.spec_motion(input, translation, slice));
        Asked { value: self.spec_adopt(input, outcome.value), answered: outcome.answered }
    }

    /// Says what the movement model is to be handed.
    pub fn motion(&self, input: &PlayerInput, translation: &Vec3, slice: TimeSlice) -> (motion: Motion)
        ensures
            motion == self.spec_motion(*input, *translation, slice),
    {
        let mut character = *self;
        character.pitch = input.pitch;
        character.yaw = input.yaw;
        Motion { character, translation: *translation, input: *input, slice }
    }

    /// Adopts what the movement model returned for `input`.
    pub fn adopt(&mut self, input: &mut PlayerInput, translation: &mut Vec3, outcome: PlayerInputOutcome)
        ensures
            (Processed {
                body: Body { character: *final(self), translation: *final(translation) },
                input: *final(input),
            }) == old(self).spec_adopt(*old(input), outcome),
    {
        self.pitch = input.pitch;
        self.yaw = input.yaw;
        self.velocity = outcome.velocity;
        *translation = outcome.translation;
        input.final_translation = outcome.translation;
    }

    /// Integrates one input into this character: consults the model once
    /// and adopts what it returns.
    pub fn process_input<F: Fn(Motion) -> PlayerInputOutcome>(
        &mut self,
        input: &mut PlayerInput,
        translation: &mut Vec3,
        slice: TimeSlice,
        integrate: &F,
    )
        requires
            is_function(*integrate),
        ensures
            old(self).spec_process_input(*old(input), *old(translation), slice, asked(*integrate)) == answered(
                Processed {
                    body: Body { character: *final(self), translation: *final(translation) },
                    input: *final(input),
                },
            ),
    {
        let outcome = integrate(self.motion(input, translation, slice));
        self.adopt(input, translation, outcome);
    }
}

impl Body {
    /// A freshly spawned entity.
    pub open spec fn spec_spawn(owner_client_id: ClientId, translation: Vec3, velocity: Vec3) -> Body {
        Body { character: Character::spec_new(owner_client_id, velocity), translation }
    }

    #[verifier::when_used_as_spec(spec_spawn)]
    pub fn spawn(owner_client_id: ClientId, translation: Vec3, velocity: Vec3) -> (body: Body)
        ensures
            body == Body::spec_spawn(owner_client_id, translation, velocity),
    {
        Body { character: Character::new(owner_client_id, velocity), translation }
    }

    /// The raw id of the owner.
    pub open spec fn owner(&self) -> u64 {
        self.character.owner()
    }

    /// This body after `input` has been integrated over `slice`.
    pub open spec fn step(
        self,
        input: PlayerInput,
        slice: TimeSlice,
        model: spec_fn(Motion) -> Asked<PlayerInputOutcome>,
    ) -> Asked<Processed> {
        self.character.spec_process_input(input, self.translation, slice, model)
    }
}

/// Accepts the bodies whose owner has the raw id `owner`.
pub open spec fn body_of(owner: u64) -> spec_fn(Body) -> bool {
    |body: Body| body.owner() == owner
}

/// Finds the first body that `owner` owns.
pub fn find_body(bodies: &Vec<Body>, owner: ClientId) -> (found: Option<usize>)
    ensures
        same_index(found, first_index(bodies@, body_of(client_id_raw(owner)))),
        found matches Some(i) ==> i < bodies@.len(),
{
    let raw = owner.raw();
    let mut i: usize = 0;
    while i < bodies.len()
        invariant
            i <= bodies.len(),
            raw == client_id_raw(owner),
            forall|j: int| 0 <= j < i ==> !body_of(raw)(#[trigger] bodies@[j]),
        decreases bodies.len() - i,
    {
        if bodies[i].character.owner_client_id.raw() == raw {
            proof {
                lemma_first_index_is(bodies@, body_of(raw), i as int);
            }
            return Some(i);
        }
        i += 1;
    }
    proof {
        lemma_first_index_none(bodies@, body_of(raw));
    }
    None
}

/// Whether an input takes part in a run that only integrates inputs newer
/// than `newer_than`. Without a bound every input takes part.
pub open spec fn takes_part(input: PlayerInput, newer_than: Option<u32>) -> bool {
    match newer_than {
        Some(id) => input.id > id,
        None => true,
    }
}

/// Runs `inputs` past `body` in order, each over `slice`. Inputs that take
/// no part pass through untouched and leave the body alone.
pub open spec fn run_group(
    body: Body,
    inputs: Seq<PlayerInput>,
    slice: TimeSlice,
    newer_than: Option<u32>,
    model: spec_fn(Motion) -> Asked<PlayerInputOutcome>,
) -> Asked<Run>
    decreases inputs.len(),
{
    if inputs.len() == 0 {
        answered(Run { body, inputs: Seq::empty() })
    } else {
        let before = run_group(body, inputs.drop_last(), slice, newer_than, model);
        if takes_part(inputs.last(), newer_than) {
            let now = before.value.body.step(inputs.last(), slice, model);
            Asked {
                value: Run { body: now.value.body, inputs: before.value.inputs.push(now.value.input) },
                answered: before.answered && now.answered,
            }
        } else {
            Asked {
                value: Run { body: before.value.body, inputs: before.value.inputs.push(inputs.last()) },
                answered: before.answered,
            }
        }
    }
}

/// A run hands back the inputs it was given, changed in nothing but the
/// translations they led to, and leaves the body with its owner.
pub proof fn lemma_run_group_keeps_inputs(
    body: Body,
    inputs: Seq<PlayerInput>,
    slice: TimeSlice,
    newer_than: Option<u32>,
    model: spec_fn(Motion) -> Asked<PlayerInputOutcome>,
)
    ensures
        run_group(body, inputs, slice, newer_than, model).value.inputs.len() == inputs.len(),
        forall|i: int|
            0 <= i < inputs.len() ==> (#[trigger] run_group(
                body,
                inputs,
                slice,
                newer_than,
                model,
            ).value.inputs[i]).same_but_for_outcome(inputs[i]),
        run_group(body, inputs, slice, newer_than, model).value.body.owner() == body.owner(),
    decreases inputs.len(),
{
    if inputs.len() > 0 {
        lemma_run_group_keeps_inputs(body, inputs.drop_last(), slice, newer_than, model);
        let before = run_group(body, inputs.drop_last(), slice, newer_than, model).value.inputs;
        let after = run_group(body, inputs, slice, newer_than, model).value.inputs;
        assert forall|i: int| 0 <= i < inputs.len() implies (#[trigger] after[i]).same_but_for_outcome(inputs[i]) by {
            if i < inputs.len() - 1 {
                assert(after[i] == before[i]);
                assert(inputs[i] == inputs.drop_last()[i]);
            }
        }
    }
}

/// Runs a group of inputs past `body` and returns them with their resulting
/// translations filled in.
pub fn integrate_group<F: Fn(Motion) -> PlayerInputOutcome>(
    body: &mut Body,
    inputs: &Vec<PlayerInput>,
    slice: TimeSlice,
    newer_than: Option<u32>,
    integrate: &F,
) -> (done: Vec<PlayerInput>)
    requires
        is_function(*integrate),
    ensures
        run_group(*old(body), inputs@, slice, newer_than, asked(*integrate)) == answered(
            Run { body: *final(body), inputs: done@ },
        ),
{
    let mut done: Vec<PlayerInput> = Vec::new();
    let mut i: usize = 0;
    while i < inputs.len()
        invariant
            i <= inputs.len(),
            is_function(*integrate),
            run_group(*old(body), inputs@.take(i as int), slice, newer_than, asked(*integrate)) == answered(
                Run { body: *body, inputs: done@ },
            ),
        decreases inputs.len() - i,
    {
        let mut input = inputs[i];
        let part = match newer_than {
            Some(id) => input.id > id,
            None => true,
        };
        proof {
            assert(inputs@.take(i + 1).drop_last() == inputs@.take(i as int));
        }
        if part {
            body.character.process_input(&mut input, &mut body.translation, slice, integrate);
        }
        done.push(input);
        i += 1;
    }
    proof {
        assert(inputs@.take(i as int) == inputs@);
    }
    done
}

} // verus!
