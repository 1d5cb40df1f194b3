//! The client's record of its own inputs.
//!
//! Inputs are captured once per rendered frame and gathered into a group
//! until the next fixed tick. The tick integrates the group, keeps it for a
//! second in case the authority disagrees with the prediction, and marks it
//! for sending.

use crate::input::{InputSample, PlayerInput, PlayerInputMessage, PlayerInputOutcome, TimeSlice};
use crate::movement::{integrate_group, lemma_run_group_keeps_inputs, run_group, Body, Character, Motion, Run};
use crate::numerics::{answered, asked, is_function};
use crate::sequence::{
    first_index, keep, lemma_first_index_is, lemma_first_index_none, lemma_keep_all, lemma_keep_order, same_index,
};
use vstd::prelude::*;

verus! {

/// The input history of one local session.
#[derive(Clone, Debug, PartialEq, Eq)]
pub struct InputHistory {
    /// The id the next captured input gets.
    pub next_id: u32,
    /// The inputs captured since the last fixed tick.
    pub input_group_for_next_fixed_tick: Vec<PlayerInput>,
    /// The group the last fixed tick integrated, to be sent next.
    pub inputs_for_next_send: Vec<PlayerInput>,
    /// The groups of the last second, oldest first.
    pub input_groups: Vec<Vec<PlayerInput>>,
    /// The id of the last input a fixed tick integrated.
    pub latest_processed_input_id: u32,
    /// The id of the last snapshot that was processed.
    pub latest_processed_snapshot_id: Option<u32>,
}

/// The mathematical content of an [`InputHistory`].
pub struct InputHistoryView {
    pub next_id: u32,
    pub input_group_for_next_fixed_tick: Seq<PlayerInput>,
    pub inputs_for_next_send: Seq<PlayerInput>,
    pub input_groups: Seq<Seq<PlayerInput>>,
    pub latest_processed_input_id: u32,
    pub latest_processed_snapshot_id: Option<u32>,
}

/// The contents of a list of groups.
pub open spec fn group_views(groups: Seq<Vec<PlayerInput>>) -> Seq<Seq<PlayerInput>> {
    Seq::new(groups.len(), |i: int| groups[i]@)
}

impl View for InputHistory {
    type V = InputHistoryView;

    open spec fn view(&self) -> InputHistoryView {
        InputHistoryView {
            next_id: self.next_id,
            input_group_for_next_fixed_tick: self.input_group_for_next_fixed_tick@,
            inputs_for_next_send: self.inputs_for_next_send@,
            input_groups: group_views(self.input_groups@),
            latest_processed_input_id: self.latest_processed_input_id,
            latest_processed_snapshot_id: self.latest_processed_snapshot_id,
        }
    }
}

/// Whether a group is kept at `now`: it is not empty, and its last input was
/// captured less than a second ago.
pub open spec fn is_kept(group: Seq<PlayerInput>, now: u128) -> bool {
    group.len() > 0 && group.last().spec_is_recent(now)
}

/// Accepts the groups that are kept at `now`.
pub open spec fn kept_at(now: u128) -> spec_fn(Seq<PlayerInput>) -> bool {
    |group: Seq<PlayerInput>| is_kept(group, now)
}

/// The groups that are kept at `now`, in their order.
pub open spec fn kept_groups(groups: Seq<Seq<PlayerInput>>, now: u128) -> Seq<Seq<PlayerInput>> {
    keep(groups, kept_at(now))
}

/// The ids grow along the inputs.
pub open spec fn ids_grow(inputs: Seq<PlayerInput>) -> bool {
    forall|i: int, j: int| 0 <= i < j < inputs.len() ==> inputs[i].id < inputs[j].id
}

/// Every id is below `bound`.
pub open spec fn ids_below(inputs: Seq<PlayerInput>, bound: int) -> bool {
    forall|i: int| 0 <= i < inputs.len() ==> (#[trigger] inputs[i]).id < bound
}

/// Every id of `earlier` is below every id of `later`.
pub open spec fn precedes(earlier: Seq<PlayerInput>, later: Seq<PlayerInput>) -> bool {
    forall|i: int, j: int|
        0 <= i < earlier.len() && 0 <= j < later.len() ==> (#[trigger] earlier[i]).id < (#[trigger] later[j]).id
}

/// The two groups hold the same inputs but for the translations they led to.
pub open spec fn same_inputs(a: Seq<PlayerInput>, b: Seq<PlayerInput>) -> bool {
    &&& a.len() == b.len()
    &&& forall|i: int| 0 <= i < a.len() ==> (#[trigger] a[i]).same_but_for_outcome(b[i])
}

/// The two lists hold the same groups but for the translations the inputs
/// led to.
pub open spec fn same_groups(a: Seq<Seq<PlayerInput>>, b: Seq<Seq<PlayerInput>>) -> bool {
    &&& a.len() == b.len()
    &&& forall|g: int| 0 <= g < a.len() ==> same_inputs(#[trigger] a[g], b[g])
}

/// Accepts the inputs with the id `id`.
pub open spec fn input_with(id: u32) -> spec_fn(PlayerInput) -> bool {
    |input: PlayerInput| input.id == id
}

/// The first input with the id `id`, looking through the groups in order
/// and through each group from its start.
pub open spec fn find_input(groups: Seq<Seq<PlayerInput>>, id: u32) -> Option<PlayerInput>
    decreases groups.len(),
{
    if groups.len() == 0 {
        None
    } else {
        match find_input(groups.drop_last(), id) {
            Some(input) => Some(input),
            None => match first_index(groups.last(), input_with(id)) {
                Some(i) => Some(groups.last()[i]),
                None => None,
            },
        }
    }
}

impl InputHistoryView {
    /// The history of a session that has captured nothing yet.
    pub open spec fn empty() -> InputHistoryView {
        InputHistoryView {
            next_id: 0,
            input_group_for_next_fixed_tick: Seq::empty(),
            inputs_for_next_send: Seq::empty(),
            input_groups: Seq::empty(),
            latest_processed_input_id: 0,
            latest_processed_snapshot_id: None,
        }
    }

    /// Ids are handed out once and in growing order: along the kept groups
    /// and on through the pending inputs the ids grow, and all of them are
    /// below the next id to hand out.
    pub open spec fn well_formed(self) -> bool {
        &&& ids_grow(self.input_group_for_next_fixed_tick)
        &&& ids_below(self.input_group_for_next_fixed_tick, self.next_id as int)
        &&& forall|g: int|
            0 <= g < self.input_groups.len() ==> {
                &&& ids_grow(#[trigger] self.input_groups[g])
                &&& ids_below(self.input_groups[g], self.next_id as int)
                &&& precedes(self.input_groups[g], self.input_group_for_next_fixed_tick)
            }
        &&& forall|g: int, h: int|
            0 <= g < h < self.input_groups.len() ==> precedes(
                #[trigger] self.input_groups[g],
                #[trigger] self.input_groups[h],
            )
    }

    /// The history after `sample` has been captured at `now`.
    pub open spec fn captured(self, sample: InputSample, now: u128) -> InputHistoryView {
        InputHistoryView {
            next_id: (self.next_id + 1) as u32,
            input_group_for_next_fixed_tick: self.input_group_for_next_fixed_tick.push(
                PlayerInput::spec_from_sample(sample, self.next_id, now),
            ),
            input_groups: kept_groups(self.input_groups, now),
            ..self
        }
    }

    /// The history after a fixed tick has integrated the pending group,
    /// where `done` is that group as it came out of the integration.
    pub open spec fn ticked(self, done: Seq<PlayerInput>) -> InputHistoryView {
        InputHistoryView {
            input_group_for_next_fixed_tick: Seq::empty(),
            inputs_for_next_send: done,
            input_groups: self.input_groups.push(done),
            latest_processed_input_id: done.last().id,
            ..self
        }
    }

    /// The message that reports this history to the authority.
    pub open spec fn outgoing(self) -> (Option<u32>, Seq<PlayerInput>) {
        (self.latest_processed_snapshot_id, self.inputs_for_next_send)
    }
}

/// Copies a group of inputs.
pub fn copy_group(group: &Vec<PlayerInput>) -> (copy: Vec<PlayerInput>)
    ensures
        copy@ == group@,
{
    let mut copy: Vec<PlayerInput> = Vec::new();
    let mut i: usize = 0;
    while i < group.len()
        invariant
            i <= group.len(),
            copy@ == group@.take(i as int),
        decreases group.len() - i,
    {
        copy.push(group[i]);
        i += 1;
    }
    proof {
        assert(group@.take(i as int) == group@);
    }
    copy
}

/// Finds the first input of `group` with the id `id`.
pub fn find_in_group(group: &Vec<PlayerInput>, id: u32) -> (found: Option<usize>)
    ensures
        same_index(found, first_index(group@, input_with(id))),
        found matches Some(i) ==> i < group@.len(),
{
    let mut i: usize = 0;
    while i < group.len()
        invariant
            i <= group.len(),
            forall|j: int| 0 <= j < i ==> !input_with(id)(#[trigger] group@[j]),
        decreases group.len() - i,
    {
        if group[i].id == id {
            proof {
                lemma_first_index_is(group@, input_with(id), i as int);
            }
            return Some(i);
        }
        i += 1;
    }
    proof {
        lemma_first_index_none(group@, input_with(id));
    }
    None
}

impl Default for InputHistory {
    fn default() -> (history: InputHistory)
        ensures
            history@ == InputHistoryView::empty(),
    {
        InputHistory::new()
    }
}

impl InputHistory {
    /// An empty history that hands out ids from zero.
    pub fn new() -> (history: InputHistory)
        ensures
            history@ == InputHistoryView::empty(),
            history@.well_formed(),
    {
        let history = InputHistory {
            next_id: 0,
            input_group_for_next_fixed_tick: Vec::new(),
            inputs_for_next_send: Vec::new(),
            input_groups: Vec::new(),
            latest_processed_input_id: 0,
            latest_processed_snapshot_id: None,
        };
        proof {
            assert(history@.input_groups =~= Seq::empty());
        }
        history
    }

    /// Captures one frame's input: gives it the next id, turns the local
    /// character the way it looks, adds it to the pending group, and lets go
    /// of the groups that have grown old.
    pub fn capture(&mut self, character: &mut Character, sample: InputSample, now: u128) -> (input: PlayerInput)
        requires
            old(self).next_id < u32::MAX,
        ensures
            input == PlayerInput::spec_from_sample(sample, old(self).next_id, now),
            final(self)@ == old(self)@.captured(sample, now),
            *final(character) == old(character).facing(input),
            old(self)@.well_formed() ==> final(self)@.well_formed(),
    {
        let input = PlayerInput::from_sample(sample, self.next_id, now);
        character.pitch = input.pitch;
        character.yaw = input.yaw;
        self.input_group_for_next_fixed_tick.push(input);
        self.next_id += 1;
        self.evict(now);
        proof {
            if old(self)@.well_formed() {
                lemma_capture_stays_well_formed(old(self)@, sample, now);
            }
        }
        input
    }

    /// Lets go of the groups that are empty or whose last input is a second
    /// old or older at `now`.
    pub fn evict(&mut self, now: u128)
        ensures
            final(self)@ == (InputHistoryView { input_groups: kept_groups(old(self)@.input_groups, now), ..old(self)@ }),
            old(self)@.well_formed() ==> final(self)@.well_formed(),
    {
        let mut kept: Vec<Vec<PlayerInput>> = Vec::new();
        let mut i: usize = 0;
        while i < self.input_groups.len()
            invariant
                i <= self.input_groups.len(),
                group_views(kept@) == kept_groups(self@.input_groups.take(i as int), now),
            decreases self.input_groups.len() - i,
        {
            let group = &self.input_groups[i];
            proof {
                assert(self@.input_groups.take(i + 1).drop_last() == self@.input_groups.take(i as int));
                assert(self@.input_groups[i as int] == group@);
            }
            if group.len() > 0 && group[group.len() - 1].is_recent(now) {
                let ghost before = group_views(kept@);
                let copy = copy_group(group);
                kept.push(copy);
                proof {
                    assert(group_views(kept@) == before.push(copy@));
                }
            }
            i += 1;
        }
        proof {
            assert(self@.input_groups.take(i as int) == self@.input_groups);
            if self@.well_formed() {
                lemma_evict_stays_well_formed(self@, now);
            }
        }
        self.input_groups = kept;
    }

    /// Runs one fixed tick of prediction. With nothing pending the tick does
    /// nothing. Otherwise the tick's duration is shared evenly among the
    /// pending inputs, each is integrated into `body` in order, and the
    /// group joins the history and becomes the next thing to send.
    pub fn apply_inputs<F: Fn(Motion) -> PlayerInputOutcome>(&mut self, body: &mut Body, integrate: &F) -> (ran:
        bool)
        requires
            is_function(*integrate),
        ensures
            ran == (old(self)@.input_group_for_next_fixed_tick.len() > 0),
            !ran ==> final(self)@ == old(self)@ && *final(body) == *old(body),
            ran ==> run_group(
                *old(body),
                old(self)@.input_group_for_next_fixed_tick,
                TimeSlice::spec_part(old(self)@.input_group_for_next_fixed_tick.len() as usize),
                None,
                asked(*integrate),
            ) == answered(Run { body: *final(body), inputs: final(self)@.inputs_for_next_send }),
            ran ==> final(self)@ == old(self)@.ticked(final(self)@.inputs_for_next_send),
            ran ==> same_inputs(final(self)@.inputs_for_next_send, old(self)@.input_group_for_next_fixed_tick),
            old(self)@.well_formed() ==> final(self)@.well_formed(),
    {
        let count = self.input_group_for_next_fixed_tick.len();
        if count == 0 {
            return false;
        }
        let done = integrate_group(
            body,
            &self.input_group_for_next_fixed_tick,
            TimeSlice::part(count),
            None,
            integrate,
        );
        proof {
            lemma_run_group_keeps_inputs(
                *old(body),
                old(self)@.input_group_for_next_fixed_tick,
                TimeSlice::spec_part(count),
                None,
                asked(*integrate),
            );
        }
        self.latest_processed_input_id = done[done.len() - 1].id;
        let ghost before = self@.input_groups;
        let copy = copy_group(&done);
        self.input_groups.push(copy);
        self.inputs_for_next_send = done;
        self.input_group_for_next_fixed_tick.clear();
        proof {
            assert(self@.input_groups == before.push(done@));
            if old(self)@.well_formed() {
                lemma_tick_stays_well_formed(old(self)@, done@);
            }
        }
        true
    }

    /// Builds the message that reports the last tick to the authority.
    pub fn outgoing(&self) -> (message: PlayerInputMessage)
        ensures
            (message.latest_processed_snapshot_id, message.inputs@) == self@.outgoing(),
    {
        PlayerInputMessage {
            latest_processed_snapshot_id: self.latest_processed_snapshot_id,
            inputs: copy_group(&self.inputs_for_next_send),
        }
    }

    /// Finds the first input with the id `id` among the kept groups.
    pub fn find(&self, id: u32) -> (found: Option<PlayerInput>)
        ensures
            found == find_input(self@.input_groups, id),
    {
        let mut i: usize = 0;
        while i < self.input_groups.len()
            invariant
                i <= self.input_groups.len(),
                find_input(self@.input_groups.take(i as int), id) is None,
            decreases self.input_groups.len() - i,
        {
            let group = &self.input_groups[i];
            proof {
                assert(self@.input_groups.take(i + 1).drop_last() == self@.input_groups.take(i as int));
                assert(self@.input_groups[i as int] == group@);
            }
            match find_in_group(group, id) {
                Some(k) => {
                    proof {
                        lemma_find_input_settles(self@.input_groups, i + 1, id);
                    }
                    return Some(group[k]);
                },
                None => {},
            }
            i += 1;
        }
        proof {
            assert(self@.input_groups.take(i as int) == self@.input_groups);
        }
        None
    }
}

/// Letting go of old groups leaves the ids in order.
pub proof fn lemma_evict_stays_well_formed(history: InputHistoryView, now: u128)
    requires
        history.well_formed(),
    ensures
        (InputHistoryView { input_groups: kept_groups(history.input_groups, now), ..history }).well_formed(),
{
    let pending = history.input_group_for_next_fixed_tick;
    let bound = history.next_id as int;
    lemma_keep_all(
        history.input_groups,
        kept_at(now),
        |group: Seq<PlayerInput>| ids_grow(group) && ids_below(group, bound) && precedes(group, pending),
    );
    lemma_keep_order(history.input_groups, kept_at(now), |a: Seq<PlayerInput>, b: Seq<PlayerInput>| precedes(a, b));
}

/// Capturing an input leaves the ids in order: the new input gets an id
/// that no input in the history has, and that is above them all.
pub proof fn lemma_capture_stays_well_formed(history: InputHistoryView, sample: InputSample, now: u128)
    requires
        history.well_formed(),
        history.next_id < u32::MAX,
    ensures
        history.captured(sample, now).well_formed(),
{
    let after = history.captured(sample, now);
    let pending = history.input_group_for_next_fixed_tick;
    let longer = after.input_group_for_next_fixed_tick;
    lemma_evict_stays_well_formed(history, now);
    let evicted = InputHistoryView { input_groups: kept_groups(history.input_groups, now), ..history };
    assert(evicted.well_formed());
    assert forall|i: int| 0 <= i < longer.len() implies (#[trigger] longer[i]).id < after.next_id as int by {
        if i < pending.len() {
            assert(longer[i] == pending[i]);
        }
    }
    assert forall|i: int, j: int| 0 <= i < j < longer.len() implies longer[i].id < longer[j].id by {
        assert(longer[i] == pending[i]);
        if j < pending.len() {
            assert(longer[j] == pending[j]);
        }
    }
    assert forall|g: int| 0 <= g < after.input_groups.len() implies {
        &&& ids_grow(#[trigger] after.input_groups[g])
        &&& ids_below(after.input_groups[g], after.next_id as int)
        &&& precedes(after.input_groups[g], longer)
    } by {
        let group = after.input_groups[g];
        assert(group == evicted.input_groups[g]);
        assert(ids_below(group, history.next_id as int));
        assert(precedes(group, pending));
        assert forall|i: int, j: int| 0 <= i < group.len() && 0 <= j < longer.len() implies (#[trigger] group[i]).id
            < (#[trigger] longer[j]).id by {
            if j < pending.len() {
                assert(longer[j] == pending[j]);
            }
        }
    }
    assert(ids_grow(longer));
    assert(ids_below(longer, after.next_id as int));
    assert forall|g: int, h: int| 0 <= g < h < after.input_groups.len() implies precedes(
        #[trigger] after.input_groups[g],
        #[trigger] after.input_groups[h],
    ) by {
        assert(precedes(evicted.input_groups[g], evicted.input_groups[h]));
    }
}

/// A tick leaves the ids in order: the pending inputs join the history as
/// its newest group, with the ids they had.
pub proof fn lemma_tick_stays_well_formed(history: InputHistoryView, done: Seq<PlayerInput>)
    requires
        history.well_formed(),
        same_inputs(done, history.input_group_for_next_fixed_tick),
        done.len() > 0,
    ensures
        history.ticked(done).well_formed(),
{
    let after = history.ticked(done);
    let pending = history.input_group_for_next_fixed_tick;
    assert(after.input_group_for_next_fixed_tick.len() == 0);
    assert(ids_grow(done)) by {
        assert forall|i: int, j: int| 0 <= i < j < done.len() implies done[i].id < done[j].id by {
            assert(done[i].same_but_for_outcome(pending[i]));
            assert(done[j].same_but_for_outcome(pending[j]));
        }
    }
    assert(ids_below(done, history.next_id as int)) by {
        assert forall|i: int| 0 <= i < done.len() implies (#[trigger] done[i]).id < history.next_id as int by {
            assert(done[i].same_but_for_outcome(pending[i]));
        }
    }
    assert forall|g: int| 0 <= g < history.input_groups.len() implies precedes(
        #[trigger] history.input_groups[g],
        done,
    ) by {
        let group = history.input_groups[g];
        assert(precedes(group, pending));
        assert forall|i: int, j: int| 0 <= i < group.len() && 0 <= j < done.len() implies (#[trigger] group[i]).id < (
        #[trigger] done[j]).id by {
            assert(done[j].same_but_for_outcome(pending[j]));
            assert(group[i].id < pending[j].id);
        }
    }
    assert forall|g: int| 0 <= g < after.input_groups.len() implies {
        &&& ids_grow(#[trigger] after.input_groups[g])
        &&& ids_below(after.input_groups[g], after.next_id as int)
        &&& precedes(after.input_groups[g], after.input_group_for_next_fixed_tick)
    } by {
        if g < history.input_groups.len() {
            assert(after.input_groups[g] == history.input_groups[g]);
        } else {
            assert(after.input_groups[g] == done);
        }
    }
    assert forall|g: int, h: int| 0 <= g < h < after.input_groups.len() implies precedes(
        #[trigger] after.input_groups[g],
        #[trigger] after.input_groups[h],
    ) by {
        assert(after.input_groups[g] == history.input_groups[g]);
        if h < history.input_groups.len() {
            assert(after.input_groups[h] == history.input_groups[h]);
        } else {
            assert(after.input_groups[h] == done);
        }
    }
}

/// A history whose groups are replaced by the same groups, but for the
/// translations the inputs led to, keeps its ids in order.
pub proof fn lemma_same_groups_stay_well_formed(history: InputHistoryView, groups: Seq<Seq<PlayerInput>>)
    requires
        history.well_formed(),
        same_groups(groups, history.input_groups),
    ensures
        (InputHistoryView { input_groups: groups, ..history }).well_formed(),
{
    let pending = history.input_group_for_next_fixed_tick;
    let after = InputHistoryView { input_groups: groups, ..history };
    assert forall|g: int| 0 <= g < groups.len() implies {
        &&& ids_grow(#[trigger] after.input_groups[g])
        &&& ids_below(after.input_groups[g], after.next_id as int)
        &&& precedes(after.input_groups[g], pending)
    } by {
        let new = groups[g];
        let old = history.input_groups[g];
        assert(same_inputs(new, old));
        assert(ids_grow(old) && ids_below(old, history.next_id as int) && precedes(old, pending));
        assert forall|i: int, j: int| 0 <= i < j < new.len() implies new[i].id < new[j].id by {
            assert(new[i].same_but_for_outcome(old[i]));
            assert(new[j].same_but_for_outcome(old[j]));
        }
        assert forall|i: int| 0 <= i < new.len() implies (#[trigger] new[i]).id < history.next_id as int by {
            assert(new[i].same_but_for_outcome(old[i]));
        }
        assert forall|i: int, j: int| 0 <= i < new.len() && 0 <= j < pending.len() implies (#[trigger] new[i]).id < (
        #[trigger] pending[j]).id by {
            assert(new[i].same_but_for_outcome(old[i]));
            assert(old[i].id < pending[j].id);
        }
    }
    assert forall|g: int, h: int| 0 <= g < h < groups.len() implies precedes(
        #[trigger] after.input_groups[g],
        #[trigger] after.input_groups[h],
    ) by {
        let a = groups[g];
        let b = groups[h];
        assert(same_inputs(a, history.input_groups[g]));
        assert(same_inputs(b, history.input_groups[h]));
        assert(precedes(history.input_groups[g], history.input_groups[h]));
        assert forall|i: int, j: int| 0 <= i < a.len() && 0 <= j < b.len() implies (#[trigger] a[i]).id < (
        #[trigger] b[j]).id by {
            assert(a[i].same_but_for_outcome(history.input_groups[g][i]));
            assert(b[j].same_but_for_outcome(history.input_groups[h][j]));
            assert(history.input_groups[g][i].id < history.input_groups[h][j].id);
        }
    }
}

/// Once a prefix of the groups holds the input, looking further changes
/// nothing.
pub proof fn lemma_find_input_settles(groups: Seq<Seq<PlayerInput>>, n: int, id: u32)
    requires
        0 <= n <= groups.len(),
        find_input(groups.take(n), id) is Some,
    ensures
        find_input(groups, id) == find_input(groups.take(n), id),
    decreases groups.len() - n,
{
    if n < groups.len() {
        assert(groups.take(n + 1).drop_last() == groups.take(n));
        lemma_find_input_settles(groups, n + 1, id);
    } else {
        assert(groups.take(n) == groups);
    }
}

} // verus!
