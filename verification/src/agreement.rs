//! Why reconciliation works: prediction and authority agree.
//!
//! A client integrates its inputs ahead of the authority, and when the
//! authority contradicts it, integrates them again from the authority's
//! state. Both are sound only if integrating the same inputs from the same
//! state gives the same result on either side. The laws here say that it
//! does, for every movement model.

use crate::client::{corrected, replay, Prediction};
use crate::input::{PlayerInput, PlayerInputOutcome, TimeSlice};
use crate::movement::{run_group, takes_part, Body, Motion, Run};
use crate::numerics::{answered, Asked};
use crate::sequence::keep;
use crate::server::{run_batches, Batches, PlayerInputCacheEntryView};
use crate::snapshot::CharacterSnapshot;
use vstd::prelude::*;

verus! {

/// The entry of a client of whom the authority holds exactly one group.
pub open spec fn holding(group: Seq<PlayerInput>, latest: Option<PlayerInput>) -> PlayerInputCacheEntryView {
    PlayerInputCacheEntryView {
        input_groups: seq![group],
        latest_processed_input: latest,
        client_latest_processed_snapshot_id: None,
    }
}

/// The entity after the authority has spent one tick on each of the groups,
/// in order, having received each group as the only message of its tick.
pub open spec fn authority_ticks(
    body: Body,
    groups: Seq<Seq<PlayerInput>>,
    model: spec_fn(Motion) -> Asked<PlayerInputOutcome>,
) -> Asked<Body>
    decreases groups.len(),
{
    if groups.len() == 0 {
        answered(body)
    } else {
        let before = authority_ticks(body, groups.drop_last(), model);
        let tick = holding(groups.last(), None).stepped(before.value, model);
        Asked { value: tick.value.body, answered: before.answered && tick.answered }
    }
}

/// The group was integrated after the acknowledged input: it holds an
/// input, no more inputs than can be counted, and each is newer than
/// `acked`.
pub open spec fn is_ahead(group: Seq<PlayerInput>, acked: u32) -> bool {
    &&& 0 < group.len() <= usize::MAX
    &&& forall|i: int| 0 <= i < group.len() ==> (#[trigger] group[i]).id > acked
}

/// The group was integrated up to the acknowledged input: no input of it is
/// newer than `acked`.
pub open spec fn is_settled(group: Seq<PlayerInput>, acked: u32) -> bool {
    forall|i: int| 0 <= i < group.len() ==> (#[trigger] group[i]).id <= acked
}

/// Accepts the groups that were integrated after the acknowledged input.
pub open spec fn ahead_of(acked: u32) -> spec_fn(Seq<PlayerInput>) -> bool {
    |group: Seq<PlayerInput>| is_ahead(group, acked)
}

/// The acknowledged input closes a group: every group lies on one side of
/// it. This is so whenever the authority integrates each of the client's
/// groups within one tick, since it then acknowledges the last input of a
/// group.
pub open spec fn splits_at(groups: Seq<Seq<PlayerInput>>, acked: u32) -> bool {
    forall|g: int| 0 <= g < groups.len() ==> is_settled(#[trigger] groups[g], acked) || is_ahead(groups[g], acked)
}

/// Two runs of the same inputs over the same slices from the same state end
/// in the same state and record the same translations.
pub proof fn lemma_runs_are_reproducible(
    first: Run,
    second: Run,
    body: Body,
    inputs: Seq<PlayerInput>,
    slice: TimeSlice,
    newer_than: Option<u32>,
    model: spec_fn(Motion) -> Asked<PlayerInputOutcome>,
)
    requires
        run_group(body, inputs, slice, newer_than, model) == answered(first),
        run_group(body, inputs, slice, newer_than, model) == answered(second),
    ensures
        first == second,
{
}

/// A bound that every input exceeds is no bound.
pub proof fn lemma_run_of_newer_inputs(
    body: Body,
    inputs: Seq<PlayerInput>,
    slice: TimeSlice,
    acked: u32,
    model: spec_fn(Motion) -> Asked<PlayerInputOutcome>,
)
    requires
        forall|i: int| 0 <= i < inputs.len() ==> (#[trigger] inputs[i]).id > acked,
    ensures
        run_group(body, inputs, slice, Some(acked), model) == run_group(body, inputs, slice, None, model),
    decreases inputs.len(),
{
    if inputs.len() > 0 {
        assert forall|i: int| 0 <= i < inputs.drop_last().len() implies (#[trigger] inputs.drop_last()[i]).id > acked by {
            assert(inputs.drop_last()[i] == inputs[i]);
        }
        lemma_run_of_newer_inputs(body, inputs.drop_last(), slice, acked, model);
        assert(takes_part(inputs[inputs.len() - 1], Some(acked)));
    }
}

/// Prediction and authority agree on a tick: where the authority holds
/// exactly the one group that the client integrated in its tick, and both
/// start from the same state, the authority leaves the entity where the
/// client's prediction left it, and records the same resulting translation
/// for the group's last input.
pub proof fn lemma_authority_agrees_with_prediction(
    body: Body,
    group: Seq<PlayerInput>,
    latest: Option<PlayerInput>,
    model: spec_fn(Motion) -> Asked<PlayerInputOutcome>,
)
    requires
        0 < group.len() <= usize::MAX,
    ensures
        ({
            let predicted = run_group(body, group, TimeSlice::spec_part(group.len() as usize), None, model);
            let stepped = holding(group, latest).stepped(body, model);
            &&& stepped.value.body == predicted.value.body
            &&& stepped.value.entry.latest_processed_input == Some(predicted.value.inputs.last())
            &&& stepped.value.entry.input_groups.len() == 0
            &&& stepped.answered == predicted.answered
        }),
{
    let groups = holding(group, latest).input_groups;
    assert(groups.drop_last() =~= Seq::empty());
    assert(groups.last() == group);
    assert(run_batches(body, groups.drop_last(), 1, latest, model) == answered(Batches { body, latest }));
}

/// Inputs up to the bound pass through a bounded run untouched.
pub proof fn lemma_run_of_settled_inputs(
    body: Body,
    inputs: Seq<PlayerInput>,
    slice: TimeSlice,
    acked: u32,
    model: spec_fn(Motion) -> Asked<PlayerInputOutcome>,
)
    requires
        is_settled(inputs, acked),
    ensures
        run_group(body, inputs, slice, Some(acked), model) == answered(Run { body, inputs }),
    decreases inputs.len(),
{
    if inputs.len() > 0 {
        assert(is_settled(inputs.drop_last(), acked)) by {
            assert forall|i: int| 0 <= i < inputs.drop_last().len() implies (#[trigger] inputs.drop_last()[i]).id
                <= acked by {
                assert(inputs.drop_last()[i] == inputs[i]);
            }
        }
        lemma_run_of_settled_inputs(body, inputs.drop_last(), slice, acked, model);
        assert(!takes_part(inputs[inputs.len() - 1], Some(acked)));
        assert(inputs.drop_last().push(inputs.last()) == inputs);
    } else {
        assert(inputs == Seq::<PlayerInput>::empty());
    }
}

/// Replaying is integrating afresh: a replay leaves the entity where the
/// authority's ticks leave it, when the authority starts from the same
/// state and spends one tick on each group that was integrated after the
/// acknowledged input.
pub proof fn lemma_replay_agrees_with_authority(
    body: Body,
    groups: Seq<Seq<PlayerInput>>,
    acked: u32,
    model: spec_fn(Motion) -> Asked<PlayerInputOutcome>,
)
    requires
        splits_at(groups, acked),
    ensures
        replay(body, groups, acked, model).value.body == authority_ticks(
            body,
            keep(groups, ahead_of(acked)),
            model,
        ).value,
        replay(body, groups, acked, model).answered == authority_ticks(
            body,
            keep(groups, ahead_of(acked)),
            model,
        ).answered,
    decreases groups.len(),
{
    if groups.len() > 0 {
        let fewer = groups.drop_last();
        assert(splits_at(fewer, acked)) by {
            assert forall|g: int| 0 <= g < fewer.len() implies is_settled(#[trigger] fewer[g], acked) || is_ahead(
                fewer[g],
                acked,
            ) by {
                assert(fewer[g] == groups[g]);
            }
        }
        lemma_replay_agrees_with_authority(body, fewer, acked, model);
        let group = groups[groups.len() - 1];
        let before = replay(body, fewer, acked, model).value.body;
        let slice = TimeSlice::spec_part(group.len() as usize);
        if is_ahead(group, acked) {
            lemma_run_of_newer_inputs(before, group, slice, acked, model);
            lemma_authority_agrees_with_prediction(before, group, None, model);
            assert(keep(groups, ahead_of(acked)).drop_last() == keep(fewer, ahead_of(acked)));
        } else {
            lemma_run_of_settled_inputs(before, group, slice, acked, model);
        }
    }
}

/// A correction puts the entity where the authority will have it: after a
/// correction from the authority's state at the acknowledged input, the
/// entity stands and moves as it does for the authority once the authority
/// has spent a tick on each of the groups that were integrated after the
/// acknowledged input.
pub proof fn lemma_correction_agrees_with_authority(
    before: Prediction,
    entry: CharacterSnapshot,
    acked: u32,
    model: spec_fn(Motion) -> Asked<PlayerInputOutcome>,
)
    requires
        splits_at(before.history.input_groups, acked),
    ensures
        ({
            let after = corrected(before, entry, acked, model);
            let authority = authority_ticks(
                entry.spec_apply(before.body),
                keep(before.history.input_groups, ahead_of(acked)),
                model,
            );
            &&& after.value.body.translation == authority.value.translation
            &&& after.value.body.character.velocity == authority.value.character.velocity
            &&& after.answered == authority.answered
        }),
{
    lemma_replay_agrees_with_authority(entry.spec_apply(before.body), before.history.input_groups, acked, model);
}

} // verus!
