//! Reconciliation: what a client does with the authority's snapshots.
//!
//! Entities of other participants simply take on what the snapshot says. The
//! local entity is ahead of the authority, so the snapshot is compared with
//! the prediction made for the input the authority had reached. Where the two
//! agree nothing happens. Where they differ the entity is put where the
//! authority had it and every later input is integrated afresh.

use crate::history::{
    find_input, group_views, lemma_same_groups_stay_well_formed, same_groups, same_inputs, InputHistory, InputHistoryView,
};
use crate::identity::{client_id_raw, LocalPlayer};
use crate::input::{PlayerInput, PlayerInputOutcome, TimeSlice};
use crate::messages::ReliableServerMessage;
use crate::movement::{
    body_of, find_body, integrate_group, lemma_run_group_keeps_inputs, run_group, Body, Character, Motion,
};
use crate::numerics::{answered, asked, is_function, Asked};
use crate::scalar::{Scalar, Vec3};
use crate::sequence::first_index;
use crate::snapshot::{
    apply_entries, apply_entry, apply_to_world, distinct_bodies, CharacterSnapshot, Snapshot, SnapshotView,
};
use bevy_renet::renet::ClientId;
use vstd::prelude::*;

verus! {

/// Bit pattern of the squared distance, 0.0001, beyond which a prediction
/// counts as wrong.
pub const CORRECTION_THRESHOLD_BITS: u32 = 0x38d1_b717;

/// A body and the groups of inputs that were replayed past it.
pub struct Replay {
    pub body: Body,
    pub groups: Seq<Seq<PlayerInput>>,
}

/// The local entity and the history it was predicted from.
pub struct Prediction {
    pub history: InputHistoryView,
    pub body: Body,
}

/// What a client holds: its input history and its copy of the world.
pub struct ClientState {
    pub history: InputHistoryView,
    pub bodies: Seq<Body>,
}

/// Replays the groups past `body` in order. Each group shares one tick
/// evenly among its inputs, as it did when it was first integrated, and only
/// inputs newer than `newer_than` are integrated.
pub open spec fn replay(
    body: Body,
    groups: Seq<Seq<PlayerInput>>,
    newer_than: u32,
    model: spec_fn(Motion) -> Asked<PlayerInputOutcome>,
) -> Asked<Replay>
    decreases groups.len(),
{
    if groups.len() == 0 {
        answered(Replay { body, groups: Seq::empty() })
    } else {
        let before = replay(body, groups.drop_last(), newer_than, model);
        let run = run_group(
            before.value.body,
            groups.last(),
            TimeSlice::spec_part(groups.last().len() as usize),
            Some(newer_than),
            model,
        );
        Asked {
            value: Replay { body: run.value.body, groups: before.value.groups.push(run.value.inputs) },
            answered: before.answered && run.answered,
        }
    }
}

/// Whether a snapshot with the id `id` comes too late for a client that has
/// processed `latest`.
pub open spec fn is_stale(latest: Option<u32>, id: u32) -> bool {
    latest matches Some(processed) && id <= processed
}

/// The two positions a snapshot's entry for the local entity puts side by
/// side, if it has anything to compare: where the authority has the entity,
/// and where the prediction had it after the input the authority had reached.
/// There is nothing to compare when the entry carries no translation, the
/// snapshot names no input, or the input is no longer in the history.
pub open spec fn compared(groups: Seq<Seq<PlayerInput>>, entry: CharacterSnapshot, processed: Option<u32>) -> Option<
    (Vec3, Vec3),
> {
    match (entry.translation, processed) {
        (Some(authoritative), Some(id)) => match find_input(groups, id) {
            Some(reference) => Some((authoritative, reference.final_translation)),
            None => None,
        },
        _ => None,
    }
}

/// Whether a squared distance between prediction and authority is too
/// large to let the prediction stand.
pub open spec fn spec_exceeds_threshold(distance: Scalar) -> bool {
    distance.spec_float_gt(Scalar { bits: CORRECTION_THRESHOLD_BITS })
}

/// Whether the snapshot contradicts the prediction: there is something to
/// compare, and the squared distance between the two positions exceeds the
/// threshold.
pub open spec fn mispredicted(
    groups: Seq<Seq<PlayerInput>>,
    entry: CharacterSnapshot,
    processed: Option<u32>,
    measure: spec_fn((Vec3, Vec3)) -> Asked<Scalar>,
) -> Asked<bool> {
    match compared(groups, entry, processed) {
        Some(pair) => Asked { value: spec_exceeds_threshold(measure(pair).value), answered: measure(pair).answered },
        None => answered(false),
    }
}

/// The local entity and the history after a correction: the entity takes on
/// what the snapshot says, the inputs newer than `acked` are replayed from
/// there, and the entity looks where it looked before.
pub open spec fn corrected(
    before: Prediction,
    entry: CharacterSnapshot,
    acked: u32,
    model: spec_fn(Motion) -> Asked<PlayerInputOutcome>,
) -> Asked<Prediction> {
    let replayed = replay(entry.spec_apply(before.body), before.history.input_groups, acked, model);
    Asked {
        value: Prediction {
            history: InputHistoryView { input_groups: replayed.value.groups, ..before.history },
            body: Body {
                character: Character {
                    pitch: before.body.character.pitch,
                    yaw: before.body.character.yaw,
                    ..replayed.value.body.character
                },
                translation: replayed.value.body.translation,
            },
        },
        answered: replayed.answered,
    }
}

/// The local entity and the history after the snapshot's entry for the
/// local entity has been dealt with: corrected where the snapshot
/// contradicts the prediction, and as they were where it does not.
pub open spec fn reconciled(
    before: Prediction,
    entry: CharacterSnapshot,
    processed: Option<u32>,
    measure: spec_fn((Vec3, Vec3)) -> Asked<Scalar>,
    model: spec_fn(Motion) -> Asked<PlayerInputOutcome>,
) -> Asked<Prediction> {
    let verdict = mispredicted(before.history.input_groups, entry, processed, measure);
    if verdict.value {
        let after = corrected(before, entry, processed.unwrap(), model);
        Asked { value: after.value, answered: verdict.answered && after.answered }
    } else {
        Asked { value: before, answered: verdict.answered }
    }
}

/// The client after one entry of a snapshot has been dealt with. The local
/// player's entity is reconciled if the client knows it, every other entity
/// takes on what the entry says, and an entry for an entity the client does
/// not know is ignored.
pub open spec fn absorbed(
    state: ClientState,
    local_player: LocalPlayer,
    entry: CharacterSnapshot,
    processed: Option<u32>,
    measure: spec_fn((Vec3, Vec3)) -> Asked<Scalar>,
    model: spec_fn(Motion) -> Asked<PlayerInputOutcome>,
) -> Asked<ClientState> {
    if client_id_raw(local_player.client_id) == entry.client_id {
        match first_index(state.bodies, body_of(entry.client_id)) {
            Some(k) => {
                let after = reconciled(
                    Prediction { history: state.history, body: state.bodies[k] },
                    entry,
                    processed,
                    measure,
                    model,
                );
                Asked {
                    value: ClientState { history: after.value.history, bodies: state.bodies.update(k, after.value.body) },
                    answered: after.answered,
                }
            },
            None => answered(state),
        }
    } else {
        answered(ClientState { history: state.history, bodies: apply_entry(state.bodies, entry) })
    }
}

/// The client after the entries have been dealt with in order.
pub open spec fn absorbed_all(
    state: ClientState,
    local_player: LocalPlayer,
    entries: Seq<CharacterSnapshot>,
    processed: Option<u32>,
    measure: spec_fn((Vec3, Vec3)) -> Asked<Scalar>,
    model: spec_fn(Motion) -> Asked<PlayerInputOutcome>,
) -> Asked<ClientState>
    decreases entries.len(),
{
    if entries.len() == 0 {
        answered(state)
    } else {
        let before = absorbed_all(state, local_player, entries.drop_last(), processed, measure, model);
        let after = absorbed(before.value, local_player, entries.last(), processed, measure, model);
        Asked { value: after.value, answered: before.answered && after.answered }
    }
}

/// The client after a snapshot has arrived. A stale snapshot changes
/// nothing. A fresh one is remembered as the latest and its entries are
/// dealt with in order.
pub open spec fn received(
    state: ClientState,
    local_player: LocalPlayer,
    snapshot: SnapshotView,
    measure: spec_fn((Vec3, Vec3)) -> Asked<Scalar>,
    model: spec_fn(Motion) -> Asked<PlayerInputOutcome>,
) -> Asked<ClientState> {
    if is_stale(state.history.latest_processed_snapshot_id, snapshot.id) {
        answered(state)
    } else {
        absorbed_all(
            ClientState {
                history: InputHistoryView { latest_processed_snapshot_id: Some(snapshot.id), ..state.history },
                bodies: state.bodies,
            },
            local_player,
            snapshot.character_snapshots,
            snapshot.latest_processed_input_id,
            measure,
            model,
        )
    }
}

/// A replay hands back the groups it was given, changed in nothing but the
/// translations the inputs led to, and leaves the body with its owner.
pub proof fn lemma_replay_keeps_inputs(
    body: Body,
    groups: Seq<Seq<PlayerInput>>,
    newer_than: u32,
    model: spec_fn(Motion) -> Asked<PlayerInputOutcome>,
)
    ensures
        same_groups(replay(body, groups, newer_than, model).value.groups, groups),
        replay(body, groups, newer_than, model).value.body.owner() == body.owner(),
    decreases groups.len(),
{
    if groups.len() > 0 {
        lemma_replay_keeps_inputs(body, groups.drop_last(), newer_than, model);
        let before = replay(body, groups.drop_last(), newer_than, model).value;
        let after = replay(body, groups, newer_than, model).value;
        lemma_run_group_keeps_inputs(
            before.body,
            groups.last(),
            TimeSlice::spec_part(groups.last().len() as usize),
            Some(newer_than),
            model,
        );
        assert forall|g: int| 0 <= g < after.groups.len() implies same_inputs(#[trigger] after.groups[g], groups[g]) by {
            if g < groups.len() - 1 {
                assert(after.groups[g] == before.groups[g]);
                assert(groups[g] == groups.drop_last()[g]);
            }
        }
    }
}

/// Dealing with a snapshot's entry for the local entity leaves the inputs
/// of the history what they were but for the translations they led to,
/// keeps their ids in order, and leaves the entity with its owner.
pub proof fn lemma_reconciled_keeps_inputs(
    before: Prediction,
    entry: CharacterSnapshot,
    processed: Option<u32>,
    measure: spec_fn((Vec3, Vec3)) -> Asked<Scalar>,
    model: spec_fn(Motion) -> Asked<PlayerInputOutcome>,
)
    ensures
        same_groups(
            reconciled(before, entry, processed, measure, model).value.history.input_groups,
            before.history.input_groups,
        ),
        reconciled(before, entry, processed, measure, model).value.history == (InputHistoryView {
            input_groups: reconciled(before, entry, processed, measure, model).value.history.input_groups,
            ..before.history
        }),
        before.history.well_formed() ==> reconciled(before, entry, processed, measure, model).value.history.well_formed(),
        reconciled(before, entry, processed, measure, model).value.body.owner() == before.body.owner(),
{
    let after = reconciled(before, entry, processed, measure, model).value;
    if mispredicted(before.history.input_groups, entry, processed, measure).value {
        lemma_replay_keeps_inputs(entry.spec_apply(before.body), before.history.input_groups, processed.unwrap(), model);
    } else {
        assert forall|g: int| 0 <= g < before.history.input_groups.len() implies same_inputs(
            #[trigger] after.history.input_groups[g],
            before.history.input_groups[g],
        ) by {}
    }
    if before.history.well_formed() {
        lemma_same_groups_stay_well_formed(before.history, after.history.input_groups);
    }
}

/// Entries that describe entities of others are simply applied: where no
/// entry describes the local player's entity, dealing with the entries
/// leaves the history alone, consults neither the measure nor the model, and
/// leaves the world as applying the entries in order leaves it.
pub proof fn lemma_entries_of_others_are_applied(
    state: ClientState,
    local_player: LocalPlayer,
    entries: Seq<CharacterSnapshot>,
    processed: Option<u32>,
    measure: spec_fn((Vec3, Vec3)) -> Asked<Scalar>,
    model: spec_fn(Motion) -> Asked<PlayerInputOutcome>,
)
    requires
        forall|i: int| 0 <= i < entries.len() ==> (#[trigger] entries[i]).client_id != client_id_raw(local_player.client_id),
    ensures
        absorbed_all(state, local_player, entries, processed, measure, model) == answered(
            ClientState { history: state.history, bodies: apply_entries(state.bodies, entries) },
        ),
    decreases entries.len(),
{
    if entries.len() > 0 {
        assert forall|i: int| 0 <= i < entries.drop_last().len() implies (#[trigger] entries.drop_last()[i]).client_id
            != client_id_raw(local_player.client_id) by {
            assert(entries.drop_last()[i] == entries[i]);
        }
        lemma_entries_of_others_are_applied(state, local_player, entries.drop_last(), processed, measure, model);
        assert(entries.last() == entries[entries.len() - 1]);
    }
}

/// Decides whether a squared distance between prediction and authority
/// calls for a correction: it does when it is a number above 0.0001.
#[verifier::when_used_as_spec(spec_exceeds_threshold)]
pub fn exceeds_threshold(distance: Scalar) -> (r: bool)
    ensures
        r == spec_exceeds_threshold(distance),
{
    distance.float_gt(Scalar::from_bits(CORRECTION_THRESHOLD_BITS))
}

/// Replays the groups past `body` and returns them with their resulting
/// translations brought up to date.
pub fn replay_groups<F: Fn(Motion) -> PlayerInputOutcome>(
    body: &mut Body,
    groups: &Vec<Vec<PlayerInput>>,
    newer_than: u32,
    integrate: &F,
) -> (done: Vec<Vec<PlayerInput>>)
    requires
        is_function(*integrate),
    ensures
        replay(*old(body), group_views(groups@), newer_than, asked(*integrate)) == answered(
            Replay { body: *final(body), groups: group_views(done@) },
        ),
{
    let mut done: Vec<Vec<PlayerInput>> = Vec::new();
    let mut i: usize = 0;
    proof {
        assert(group_views(done@) =~= Seq::empty());
    }
    while i < groups.len()
        invariant
            i <= groups.len(),
            is_function(*integrate),
            replay(*old(body), group_views(groups@).take(i as int), newer_than, asked(*integrate)) == answered(
                Replay { body: *body, groups: group_views(done@) },
            ),
        decreases groups.len() - i,
    {
        let group = &groups[i];
        proof {
            assert(group_views(groups@).take(i + 1).drop_last() == group_views(groups@).take(i as int));
            assert(group_views(groups@)[i as int] == group@);
        }
        let ghost before = group_views(done@);
        let run = integrate_group(body, group, TimeSlice::part(group.len()), Some(newer_than), integrate);
        done.push(run);
        proof {
            assert(group_views(done@) == before.push(run@));
        }
        i += 1;
    }
    proof {
        assert(group_views(groups@).take(i as int) == group_views(groups@));
    }
    done
}

/// Deals with the snapshot's entry for the local entity. Returns whether a
/// correction took place.
///
/// Without a correction nothing changes: not the entity, and not the
/// history. With one, the entity ends up where replaying the newer inputs
/// from the authority's state leads.
pub fn reconcile<D: Fn((Vec3, Vec3)) -> Scalar, F: Fn(Motion) -> PlayerInputOutcome>(
    history: &mut InputHistory,
    body: &mut Body,
    entry: &CharacterSnapshot,
    processed: Option<u32>,
    measure: &D,
    integrate: &F,
) -> (replayed: bool)
    requires
        is_function(*measure),
        is_function(*integrate),
    ensures
        mispredicted(old(history)@.input_groups, *entry, processed, asked(*measure)) == answered(replayed),
        reconciled(
            Prediction { history: old(history)@, body: *old(body) },
            *entry,
            processed,
            asked(*measure),
            asked(*integrate),
        ) == answered(Prediction { history: final(history)@, body: *final(body) }),
        !replayed ==> final(history)@ == old(history)@ && *final(body) == *old(body),
        same_groups(final(history)@.input_groups, old(history)@.input_groups),
        old(history)@.well_formed() ==> final(history)@.well_formed(),
        final(body).owner() == old(body).owner(),
{
    proof {
        lemma_reconciled_keeps_inputs(
            Prediction { history: old(history)@, body: *old(body) },
            *entry,
            processed,
            asked(*measure),
            asked(*integrate),
        );
    }
    let authoritative = match entry.translation {
        Some(translation) => translation,
        None => {
            return false;
        },
    };
    let acked = match processed {
        Some(id) => id,
        None => {
            return false;
        },
    };
    let reference = match history.find(acked) {
        Some(input) => input,
        None => {
            return false;
        },
    };
    let distance = measure((authoritative, reference.final_translation));
    if !exceeds_threshold(distance) {
        return false;
    }
    let pitch = body.character.pitch;
    let yaw = body.character.yaw;
    entry.apply(&mut body.character, &mut body.translation);
    let done = replay_groups(body, &history.input_groups, acked, integrate);
    history.input_groups = done;
    body.character.pitch = pitch;
    body.character.yaw = yaw;
    true
}

/// Deals with one entry of a snapshot.
pub fn absorb<D: Fn((Vec3, Vec3)) -> Scalar, F: Fn(Motion) -> PlayerInputOutcome>(
    history: &mut InputHistory,
    bodies: &mut Vec<Body>,
    local_player: &LocalPlayer,
    entry: &CharacterSnapshot,
    processed: Option<u32>,
    measure: &D,
    integrate: &F,
)
    requires
        is_function(*measure),
        is_function(*integrate),
    ensures
        absorbed(
            ClientState { history: old(history)@, bodies: old(bodies)@ },
            *local_player,
            *entry,
            processed,
            asked(*measure),
            asked(*integrate),
        ) == answered(ClientState { history: final(history)@, bodies: final(bodies)@ }),
        final(bodies)@.len() == old(bodies)@.len(),
        forall|k: int| 0 <= k < old(bodies)@.len() ==> (#[trigger] final(bodies)@[k]).owner() == old(bodies)@[k].owner(),
        old(history)@.well_formed() ==> final(history)@.well_formed(),
{
    let client_id = ClientId::from_raw(entry.client_id);
    if local_player.owns(client_id) {
        match find_body(bodies, client_id) {
            Some(k) => {
                let mut body = bodies[k];
                reconcile(history, &mut body, entry, processed, measure, integrate);
                bodies.set(k, body);
            },
            None => {},
        }
    } else {
        apply_to_world(entry, bodies);
    }
}

/// Receives a snapshot from the authority. Returns whether the snapshot was
/// fresh.
///
/// A snapshot whose id is not above the last processed one alters nothing.
pub fn receive_snapshot<D: Fn((Vec3, Vec3)) -> Scalar, F: Fn(Motion) -> PlayerInputOutcome>(
    history: &mut InputHistory,
    bodies: &mut Vec<Body>,
    local_player: &LocalPlayer,
    snapshot: &Snapshot,
    measure: &D,
    integrate: &F,
) -> (fresh: bool)
    requires
        is_function(*measure),
        is_function(*integrate),
    ensures
        fresh == !is_stale(old(history)@.latest_processed_snapshot_id, snapshot.id),
        received(
            ClientState { history: old(history)@, bodies: old(bodies)@ },
            *local_player,
            snapshot@,
            asked(*measure),
            asked(*integrate),
        ) == answered(ClientState { history: final(history)@, bodies: final(bodies)@ }),
        !fresh ==> final(history)@ == old(history)@ && final(bodies)@ == old(bodies)@,
        fresh ==> final(history)@.latest_processed_snapshot_id == Some(snapshot.id),
        final(bodies)@.len() == old(bodies)@.len(),
        forall|k: int| 0 <= k < old(bodies)@.len() ==> (#[trigger] final(bodies)@[k]).owner() == old(bodies)@[k].owner(),
        old(history)@.well_formed() ==> final(history)@.well_formed(),
        distinct_bodies(old(bodies)@) ==> distinct_bodies(final(bodies)@),
{
    if let Some(processed) = history.latest_processed_snapshot_id {
        if snapshot.id <= processed {
            return false;
        }
    }
    history.latest_processed_snapshot_id = Some(snapshot.id);
    let ghost start = ClientState { history: history@, bodies: bodies@ };
    proof {
        assert(start.history.input_groups == old(history)@.input_groups);
        assert(start.history.input_group_for_next_fixed_tick == old(history)@.input_group_for_next_fixed_tick);
        assert(old(history)@.well_formed() ==> start.history.well_formed());
    }
    let mut i: usize = 0;
    while i < snapshot.character_snapshots.len()
        invariant
            i <= snapshot.character_snapshots.len(),
            is_function(*measure),
            is_function(*integrate),
            absorbed_all(
                start,
                *local_player,
                snapshot.character_snapshots@.take(i as int),
                snapshot.latest_processed_input_id,
                asked(*measure),
                asked(*integrate),
            ) == answered(ClientState { history: history@, bodies: bodies@ }),
            history@.latest_processed_snapshot_id == Some(snapshot.id),
            bodies@.len() == start.bodies.len(),
            forall|k: int| 0 <= k < start.bodies.len() ==> (#[trigger] bodies@[k]).owner() == start.bodies[k].owner(),
            start.history.well_formed() ==> history@.well_formed(),
        decreases snapshot.character_snapshots.len() - i,
    {
        proof {
            assert(snapshot.character_snapshots@.take(i + 1).drop_last() == snapshot.character_snapshots@.take(
                i as int,
            ));
        }
        absorb(
            history,
            bodies,
            local_player,
            &snapshot.character_snapshots[i],
            snapshot.latest_processed_input_id,
            measure,
            integrate,
        );
        i += 1;
    }
    proof {
        assert(snapshot.character_snapshots@.take(i as int) == snapshot.character_snapshots@);
    }
    true
}

/// Whether `body` is the entity that `message` announces: a fresh entity of
/// the announced owner, standing and moving as announced.
pub open spec fn is_spawn_of(body: Body, message: ReliableServerMessage) -> bool {
    match message {
        ReliableServerMessage::SpawnCharacter(client_id, translation, velocity) => {
            &&& body.owner() == client_id
            &&& body == Body::spec_spawn(body.character.owner_client_id, translation, velocity)
        },
    }
}

/// Receives a reliable message from the authority: the entity it announces
/// joins the client's copy of the world.
pub fn receive_spawn(bodies: &mut Vec<Body>, message: &ReliableServerMessage)
    ensures
        final(bodies)@.len() == old(bodies)@.len() + 1,
        final(bodies)@.drop_last() == old(bodies)@,
        is_spawn_of(final(bodies)@.last(), *message),
{
    match message {
        ReliableServerMessage::SpawnCharacter(client_id, translation, velocity) => {
            bodies.push(Body::spawn(ClientId::from_raw(*client_id), *translation, *velocity));
        },
    }
}

} // verus!
