//! How much time a tick integrates.
//!
//! However many inputs a tick has to integrate, and however many messages
//! they arrived in, the slices it hands to the movement model add up to one
//! tick. The laws here show it with a model that does nothing but keep time.

use crate::input::{PlayerInput, PlayerInputOutcome, TimeSlice};
use crate::movement::{run_group, Body, Motion};
use crate::numerics::{answered, Asked};
use crate::scalar::{Scalar, Vec3};
use crate::server::{run_batches, PlayerInputCacheEntryView};
use vstd::prelude::*;

verus! {

/// A movement model that keeps time and does nothing else: it adds the
/// length of the slice it is given to the first coordinate of the
/// translation, read as a whole number, where a tick lasts `tick`.
pub open spec fn clock(tick: int) -> spec_fn(Motion) -> Asked<PlayerInputOutcome> {
    |motion: Motion|
        answered(
            PlayerInputOutcome {
                translation: Vec3 {
                    x: Scalar { bits: (motion.translation.x.bits + motion.slice.of(tick)) as u32 },
                    ..motion.translation
                },
                velocity: motion.character.velocity,
            },
        )
}

/// What the clock shows.
pub open spec fn reading(body: Body) -> int {
    body.translation.x.bits as int
}

/// The parts of a slice make up the tick: a tick divided among `batches`
/// batches and then among `entries` entries gives back the batch's part
/// when taken `entries` times, and the tick when that is taken `batches`
/// times.
pub proof fn lemma_slices_make_up_the_tick(slice: TimeSlice, tick: int)
    requires
        slice.batches > 0,
        slice.entries > 0,
        tick >= 0,
        tick % ((slice.batches * slice.entries) as int) == 0,
    ensures
        slice.of(tick) >= 0,
        slice.entries * slice.of(tick) == tick / (slice.batches as int),
        slice.batches * (tick / (slice.batches as int)) == tick,
        slice.batches * (slice.entries * slice.of(tick)) == tick,
{
    let b = slice.batches as int;
    let n = slice.entries as int;
    let q = tick / (b * n);
    assert(tick == (b * n) * q) by (nonlinear_arith)
        requires
            q == tick / (b * n),
            tick % (b * n) == 0,
            b > 0,
            n > 0,
    ;
    assert(q >= 0) by (nonlinear_arith)
        requires
            q == tick / (b * n),
            tick >= 0,
            b > 0,
            n > 0,
    ;
    assert(tick / b == n * q) by (nonlinear_arith)
        requires
            tick == (b * n) * q,
            b > 0,
    ;
    assert((n * q) / n == q) by (nonlinear_arith)
        requires
            n > 0,
    ;
    assert(b * (n * q) == tick) by (nonlinear_arith)
        requires
            tick == (b * n) * q,
    ;
}

/// A group of inputs takes as many slices as it has inputs.
pub proof fn lemma_group_takes_its_slices(body: Body, inputs: Seq<PlayerInput>, slice: TimeSlice, tick: int)
    requires
        slice.of(tick) >= 0,
        reading(body) + inputs.len() * slice.of(tick) <= u32::MAX,
    ensures
        reading(run_group(body, inputs, slice, None, clock(tick)).value.body) == reading(body) + inputs.len()
            * slice.of(tick),
        run_group(body, inputs, slice, None, clock(tick)).answered,
    decreases inputs.len(),
{
    if inputs.len() > 0 {
        let fewer = inputs.drop_last();
        assert(fewer.len() * slice.of(tick) <= inputs.len() * slice.of(tick)) by (nonlinear_arith)
            requires
                fewer.len() <= inputs.len(),
                slice.of(tick) >= 0,
        ;
        lemma_group_takes_its_slices(body, fewer, slice, tick);
        assert(fewer.len() * slice.of(tick) + slice.of(tick) == inputs.len() * slice.of(tick)) by (nonlinear_arith)
            requires
                fewer.len() + 1 == inputs.len(),
        ;
    }
}

/// A tick of prediction integrates one tick: the slices of the pending
/// inputs add up to it.
pub proof fn lemma_prediction_spends_one_tick(body: Body, pending: Seq<PlayerInput>, tick: int)
    requires
        0 < pending.len() <= usize::MAX,
        tick >= 0,
        tick % (pending.len() as int) == 0,
        reading(body) + tick <= u32::MAX,
    ensures
        reading(
            run_group(body, pending, TimeSlice::spec_part(pending.len() as usize), None, clock(tick)).value.body,
        ) == reading(body) + tick,
{
    let slice = TimeSlice::spec_part(pending.len() as usize);
    assert(slice.batches * slice.entries == pending.len()) by (nonlinear_arith)
        requires
            slice.batches == 1,
            slice.entries == pending.len(),
    ;
    lemma_slices_make_up_the_tick(slice, tick);
    assert(pending.len() * slice.of(tick) == tick);
    lemma_group_takes_its_slices(body, pending, slice, tick);
}

/// Whatever the authority has queued for a client takes up one tick, as
/// long as every message held an input: the slices of all inputs of all
/// groups add up to it. An empty message leaves its part of the tick unused.
pub proof fn lemma_authority_spends_one_tick(entry: PlayerInputCacheEntryView, body: Body, tick: int)
    requires
        0 < entry.input_groups.len() <= usize::MAX,
        forall|g: int| 0 <= g < entry.input_groups.len() ==> 0 < (#[trigger] entry.input_groups[g]).len() <= usize::MAX,
        tick >= 0,
        forall|g: int|
            0 <= g < entry.input_groups.len() ==> tick % ((entry.input_groups.len() * (
            #[trigger] entry.input_groups[g]).len()) as int) == 0,
        reading(body) + tick <= u32::MAX,
    ensures
        reading(entry.stepped(body, clock(tick)).value.body) == reading(body) + tick,
{
    let groups = entry.input_groups;
    let batches = groups.len() as usize;
    lemma_slices_make_up_the_tick(TimeSlice { batches, entries: groups[0].len() as usize }, tick);
    lemma_batches_take_their_parts(body, groups, groups.len() as int, batches, entry.latest_processed_input, tick);
    assert(groups.take(groups.len() as int) == groups);
}

/// With nothing queued, the last input is integrated again over the whole
/// tick.
pub proof fn lemma_continuity_spends_one_tick(entry: PlayerInputCacheEntryView, body: Body, tick: int)
    requires
        entry.input_groups.len() == 0,
        entry.latest_processed_input is Some,
        tick >= 0,
        reading(body) + tick <= u32::MAX,
    ensures
        reading(entry.stepped(body, clock(tick)).value.body) == reading(body) + tick,
{
    assert(TimeSlice::spec_whole().of(tick) == tick) by (nonlinear_arith)
        requires
            TimeSlice::spec_whole().of(tick) == tick / 1 / 1,
    ;
}

/// The first `n` of the queued groups take up `n` parts of the tick.
proof fn lemma_batches_take_their_parts(
    body: Body,
    groups: Seq<Seq<PlayerInput>>,
    n: int,
    batches: usize,
    latest: Option<PlayerInput>,
    tick: int,
)
    requires
        0 <= n <= groups.len(),
        batches > 0,
        n <= batches,
        forall|g: int| 0 <= g < groups.len() ==> 0 < (#[trigger] groups[g]).len() <= usize::MAX,
        tick >= 0,
        forall|g: int| 0 <= g < groups.len() ==> tick % ((batches * (#[trigger] groups[g]).len()) as int) == 0,
        batches * (tick / (batches as int)) == tick,
        tick / (batches as int) >= 0,
        reading(body) + tick <= u32::MAX,
    ensures
        reading(run_batches(body, groups.take(n), batches, latest, clock(tick)).value.body) == reading(body) + n * (
        tick / (batches as int)),
    decreases n,
{
    let part = tick / (batches as int);
    if n > 0 {
        lemma_batches_take_their_parts(body, groups, n - 1, batches, latest, tick);
        assert(groups.take(n).drop_last() == groups.take(n - 1));
        let group = groups[n - 1];
        assert(groups.take(n).last() == group);
        let before = run_batches(body, groups.take(n - 1), batches, latest, clock(tick)).value.body;
        let slice = TimeSlice { batches, entries: group.len() as usize };
        assert(slice.entries == group.len());
        assert(tick % ((slice.batches * slice.entries) as int) == 0);
        lemma_slices_make_up_the_tick(slice, tick);
        assert(group.len() * slice.of(tick) == part);
        assert(n * part <= batches * part) by (nonlinear_arith)
            requires
                n <= batches,
                part >= 0,
        ;
        assert((n - 1) * part + part == n * part) by (nonlinear_arith);
        assert(reading(before) == reading(body) + (n - 1) * part);
        assert(reading(before) + group.len() * slice.of(tick) <= u32::MAX);
        lemma_group_takes_its_slices(before, group, slice, tick);
        let after = run_group(before, group, slice, None, clock(tick)).value.body;
        assert(reading(after) == reading(body) + n * part);
        assert(run_batches(body, groups.take(n), batches, latest, clock(tick)).value.body == after);
    } else {
        assert(groups.take(0) =~= Seq::<Seq<PlayerInput>>::empty());
        assert(n * part == 0) by (nonlinear_arith)
            requires
                n == 0,
        ;
    }
}

} // verus!
