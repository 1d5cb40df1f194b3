//! World snapshots, and the differences between them.
//!
//! The authority describes the world once per tick as one entry per entity.
//! What it sends to a client is either that description in full or, when the
//! client is known to hold an earlier one, only what has changed since. An
//! absent field of an entry means "as in the baseline".

use crate::input::RETENTION_MILLIS;
use crate::movement::{body_of, find_body, Body, Character};
use crate::scalar::Vec3;
use crate::sequence::{
    first_index, keep, lemma_first_index, lemma_first_index_is, lemma_first_index_none, lemma_keep_all, lemma_keep_order,
    same_index,
};
use bevy_renet::renet::ClientId;
use vstd::prelude::*;

verus! {

/// One entity as a snapshot describes it.
#[derive(Clone, Copy, Debug, PartialEq, Eq)]
pub struct CharacterSnapshot {
    pub client_id: u64,
    pub translation: Option<Vec3>,
    pub velocity: Option<Vec3>,
}

/// The world at one tick, as sent to one recipient.
#[derive(Clone, Debug, PartialEq, Eq)]
pub struct Snapshot {
    pub id: u32,
    /// The last input of the recipient that the authority had integrated
    /// when it took the snapshot.
    pub latest_processed_input_id: Option<u32>,
    pub character_snapshots: Vec<CharacterSnapshot>,
    /// When the snapshot was taken, in milliseconds. Not transmitted.
    pub timestamp: u128,
}

/// The mathematical content of a [`Snapshot`].
pub struct SnapshotView {
    pub id: u32,
    pub latest_processed_input_id: Option<u32>,
    pub character_snapshots: Seq<CharacterSnapshot>,
    pub timestamp: u128,
}

impl View for Snapshot {
    type V = SnapshotView;

    open spec fn view(&self) -> SnapshotView {
        SnapshotView {
            id: self.id,
            latest_processed_input_id: self.latest_processed_input_id,
            character_snapshots: self.character_snapshots@,
            timestamp: self.timestamp,
        }
    }
}

/// A field of a difference: the new value where both sides have one and the
/// two are not the same number, nothing otherwise.
pub open spec fn changed(new: Option<Vec3>, old: Option<Vec3>) -> Option<Vec3> {
    match (new, old) {
        (Some(n), Some(o)) => if n.spec_float_ne(o) {
            Some(n)
        } else {
            None
        },
        _ => None,
    }
}

/// A field after a snapshot entry has been applied to it: the entry's value
/// where it has one, the old value otherwise.
pub open spec fn overwritten(field: Option<Vec3>, current: Vec3) -> Vec3 {
    match field {
        Some(value) => value,
        None => current,
    }
}

/// Accepts the entries that describe the entity of `client_id`.
pub open spec fn entry_of(client_id: u64) -> spec_fn(CharacterSnapshot) -> bool {
    |entry: CharacterSnapshot| entry.client_id == client_id
}

fn changed_field(new: Option<Vec3>, old: Option<Vec3>) -> (field: Option<Vec3>)
    ensures
        field == changed(new, old),
{
    match (new, old) {
        (Some(n), Some(o)) => if n.float_ne(o) {
            Some(n)
        } else {
            None
        },
        _ => None,
    }
}

impl CharacterSnapshot {
    /// The full description of an entity: both fields present.
    pub open spec fn spec_from_character(character: Character, translation: Vec3) -> CharacterSnapshot {
        CharacterSnapshot {
            client_id: character.owner(),
            translation: Some(translation),
            velocity: Some(character.velocity),
        }
    }

    /// The entity after this entry has been applied: each present field
    /// replaces the entity's value, and nothing else changes.
    pub open spec fn spec_apply(self, body: Body) -> Body {
        Body {
            character: Character { velocity: overwritten(self.velocity, body.character.velocity), ..body.character },
            translation: overwritten(self.translation, body.translation),
        }
    }

    /// What this entry changes relative to `old`.
    pub open spec fn spec_diff(self, old: CharacterSnapshot) -> CharacterSnapshot {
        CharacterSnapshot {
            client_id: self.client_id,
            translation: changed(self.translation, old.translation),
            velocity: changed(self.velocity, old.velocity),
        }
    }

    /// Whether the entry carries no field.
    pub open spec fn spec_is_empty(&self) -> bool {
        self.translation is None && self.velocity is None
    }

    /// What this entry contributes to a difference against `baseline`: its
    /// changes relative to the first baseline entry for the same entity, or
    /// all of it when the baseline does not know the entity.
    pub open spec fn against(self, baseline: Seq<CharacterSnapshot>) -> CharacterSnapshot {
        match first_index(baseline, entry_of(self.client_id)) {
            Some(i) => self.spec_diff(baseline[i]),
            None => self,
        }
    }

    /// Describes an entity in full.
    pub fn from_character(character: &Character, translation: &Vec3) -> (entry: Self)
        ensures
            entry == CharacterSnapshot::spec_from_character(*character, *translation),
    {
        Self {
            client_id: character.owner_client_id.raw(),
            translation: Some(*translation),
            velocity: Some(character.velocity),
        }
    }

    /// Applies the entry to an entity.
    pub fn apply(&self, character: &mut Character, translation: &mut Vec3)
        ensures
            (Body { character: *final(character), translation: *final(translation) }) == self.spec_apply(
                Body { character: *old(character), translation: *old(translation) },
            ),
    {
        if let Some(value) = self.translation {
            *translation = value;
        }
        if let Some(value) = self.velocity {
            character.velocity = value;
        }
    }

    /// Computes what this entry changes relative to `old`.
    pub fn diff(&self, old: &Self) -> (difference: Self)
        ensures
            difference == self.spec_diff(*old),
    {
        Self {
            client_id: self.client_id,
            translation: changed_field(self.translation, old.translation),
            velocity: changed_field(self.velocity, old.velocity),
        }
    }

    #[verifier::when_used_as_spec(spec_is_empty)]
    pub fn is_empty(&self) -> (r: bool)
        ensures
            r == self.spec_is_empty(),
    {
        self.translation.is_none() && self.velocity.is_none()
    }
}

/// Finds the first entry that describes the entity of `client_id`.
pub fn find_entry(entries: &Vec<CharacterSnapshot>, client_id: u64) -> (found: Option<usize>)
    ensures
        same_index(found, first_index(entries@, entry_of(client_id))),
        found matches Some(i) ==> i < entries@.len(),
{
    let mut i: usize = 0;
    while i < entries.len()
        invariant
            i <= entries.len(),
            forall|j: int| 0 <= j < i ==> !entry_of(client_id)(#[trigger] entries@[j]),
        decreases entries.len() - i,
    {
        if entries[i].client_id == client_id {
            proof {
                lemma_first_index_is(entries@, entry_of(client_id), i as int);
            }
            return Some(i);
        }
        i += 1;
    }
    proof {
        lemma_first_index_none(entries@, entry_of(client_id));
    }
    None
}

/// The entries of the difference between `new` and `baseline`: in the order
/// of `new`, what each entry contributes, without those that contribute
/// nothing.
pub open spec fn diff_entries(new: Seq<CharacterSnapshot>, baseline: Seq<CharacterSnapshot>) -> Seq<
    CharacterSnapshot,
>
    decreases new.len(),
{
    if new.len() == 0 {
        Seq::empty()
    } else {
        let before = diff_entries(new.drop_last(), baseline);
        let entry = new.last().against(baseline);
        if entry.spec_is_empty() {
            before
        } else {
            before.push(entry)
        }
    }
}

/// The full description of a world: one full entry per body, in order.
pub open spec fn full_entries(bodies: Seq<Body>) -> Seq<CharacterSnapshot> {
    Seq::new(bodies.len(), |i: int| CharacterSnapshot::spec_from_character(bodies[i].character, bodies[i].translation))
}

impl Snapshot {
    /// The difference between `new` and `old`: the identity of `new`, and of
    /// its entries only what changed.
    pub open spec fn spec_diff(new: SnapshotView, old: SnapshotView) -> SnapshotView {
        SnapshotView {
            id: new.id,
            latest_processed_input_id: new.latest_processed_input_id,
            character_snapshots: diff_entries(new.character_snapshots, old.character_snapshots),
            timestamp: new.timestamp,
        }
    }

    /// The full snapshot of a world, addressed to nobody yet.
    pub open spec fn spec_capture(id: u32, bodies: Seq<Body>, timestamp: u128) -> SnapshotView {
        SnapshotView { id, latest_processed_input_id: None, character_snapshots: full_entries(bodies), timestamp }
    }

    /// Computes what this snapshot changes relative to `old`.
    pub fn diff(&self, old: &Self) -> (difference: Snapshot)
        ensures
            difference@ == Snapshot::spec_diff(self@, old@),
            forall|i: int|
                0 <= i < difference.character_snapshots@.len() ==> !(
                #[trigger] difference.character_snapshots@[i]).spec_is_empty(),
    {
        let mut diffs: Vec<CharacterSnapshot> = Vec::new();
        let mut i: usize = 0;
        while i < self.character_snapshots.len()
            invariant
                i <= self.character_snapshots.len(),
                diffs@ == diff_entries(self.character_snapshots@.take(i as int), old.character_snapshots@),
                forall|k: int| 0 <= k < diffs@.len() ==> !(#[trigger] diffs@[k]).spec_is_empty(),
            decreases self.character_snapshots.len() - i,
        {
            let entry = self.character_snapshots[i];
            proof {
                assert(self.character_snapshots@.take(i + 1).drop_last() == self.character_snapshots@.take(i as int));
            }
            let difference = match find_entry(&old.character_snapshots, entry.client_id) {
                Some(k) => entry.diff(&old.character_snapshots[k]),
                None => entry,
            };
            if !difference.is_empty() {
                diffs.push(difference);
            }
            i += 1;
        }
        proof {
            assert(self.character_snapshots@.take(i as int) == self.character_snapshots@);
        }
        Snapshot {
            id: self.id,
            timestamp: self.timestamp,
            latest_processed_input_id: self.latest_processed_input_id,
            character_snapshots: diffs,
        }
    }

    /// Describes a world in full.
    pub fn capture(id: u32, bodies: &Vec<Body>, timestamp: u128) -> (snapshot: Snapshot)
        ensures
            snapshot@ == Snapshot::spec_capture(id, bodies@, timestamp),
    {
        let mut entries: Vec<CharacterSnapshot> = Vec::new();
        let mut i: usize = 0;
        while i < bodies.len()
            invariant
                i <= bodies.len(),
                entries@ == full_entries(bodies@.take(i as int)),
            decreases bodies.len() - i,
        {
            entries.push(CharacterSnapshot::from_character(&bodies[i].character, &bodies[i].translation));
            proof {
                assert(entries@ == full_entries(bodies@.take(i + 1)));
            }
            i += 1;
        }
        proof {
            assert(bodies@.take(i as int) == bodies@);
        }
        Snapshot { id, latest_processed_input_id: None, character_snapshots: entries, timestamp }
    }

    /// Copies the snapshot.
    pub fn duplicate(&self) -> (copy: Snapshot)
        ensures
            copy@ == self@,
    {
        let mut entries: Vec<CharacterSnapshot> = Vec::new();
        let mut i: usize = 0;
        while i < self.character_snapshots.len()
            invariant
                i <= self.character_snapshots.len(),
                entries@ == self.character_snapshots@.take(i as int),
            decreases self.character_snapshots.len() - i,
        {
            entries.push(self.character_snapshots[i]);
            i += 1;
        }
        proof {
            assert(self.character_snapshots@.take(i as int) == self.character_snapshots@);
        }
        Snapshot {
            id: self.id,
            latest_processed_input_id: self.latest_processed_input_id,
            character_snapshots: entries,
            timestamp: self.timestamp,
        }
    }
}

/// A world after `entry` has been applied to the first body of the entity it
/// describes. A world without such a body stays as it is.
pub open spec fn apply_entry(bodies: Seq<Body>, entry: CharacterSnapshot) -> Seq<Body> {
    match first_index(bodies, body_of(entry.client_id)) {
        Some(k) => bodies.update(k, entry.spec_apply(bodies[k])),
        None => bodies,
    }
}

/// A world after `entries` have been applied to it in order.
pub open spec fn apply_entries(bodies: Seq<Body>, entries: Seq<CharacterSnapshot>) -> Seq<Body>
    decreases entries.len(),
{
    if entries.len() == 0 {
        bodies
    } else {
        apply_entry(apply_entries(bodies, entries.drop_last()), entries.last())
    }
}

/// Applies `entry` to the world.
pub fn apply_to_world(entry: &CharacterSnapshot, bodies: &mut Vec<Body>)
    ensures
        final(bodies)@ == apply_entry(old(bodies)@, *entry),
        final(bodies)@.len() == old(bodies)@.len(),
        forall|k: int| 0 <= k < old(bodies)@.len() ==> (#[trigger] final(bodies)@[k]).owner() == old(bodies)@[k].owner(),
{
    match find_body(bodies, ClientId::from_raw(entry.client_id)) {
        Some(k) => {
            let mut body = bodies[k];
            entry.apply(&mut body.character, &mut body.translation);
            bodies.set(k, body);
        },
        None => {},
    }
}

/// No two entries describe the same entity.
pub open spec fn distinct_owners(entries: Seq<CharacterSnapshot>) -> bool {
    forall|i: int, j: int| 0 <= i < j < entries.len() ==> entries[i].client_id != entries[j].client_id
}

/// No present field of an entry has a NaN component.
pub open spec fn free_of_nan(entries: Seq<CharacterSnapshot>) -> bool {
    forall|i: int|
        0 <= i < entries.len() ==> {
            &&& (#[trigger] entries[i]).translation matches Some(t) ==> !t.spec_is_nan()
            &&& entries[i].velocity matches Some(v) ==> !v.spec_is_nan()
        }
}

/// Two values a receiver cannot tell apart: the same bit pattern, or the
/// same number.
pub open spec fn same_value(a: Vec3, b: Vec3) -> bool {
    a == b || a.spec_float_eq(b)
}

/// Whether an entity is in the state that `entry` describes, as far as the
/// entry describes it.
pub open spec fn agrees_with(body: Body, entry: CharacterSnapshot) -> bool {
    &&& entry.translation matches Some(t) ==> same_value(body.translation, t)
    &&& entry.velocity matches Some(v) ==> same_value(body.character.velocity, v)
}

proof fn lemma_diff_of_prefix_is_empty(entries: Seq<CharacterSnapshot>, n: int)
    requires
        distinct_owners(entries),
        free_of_nan(entries),
        0 <= n <= entries.len(),
    ensures
        diff_entries(entries.take(n), entries).len() == 0,
    decreases n,
{
    if n > 0 {
        lemma_diff_of_prefix_is_empty(entries, n - 1);
        assert(entries.take(n).drop_last() == entries.take(n - 1));
        let entry = entries[n - 1];
        assert(entries.take(n).last() == entry);
        lemma_first_index_is(entries, entry_of(entry.client_id), n - 1);
    }
}

/// A snapshot does not differ from itself: the difference between a
/// snapshot and itself has no entries. This holds of snapshots that describe
/// each entity once and hold no NaN, which is not the same number as itself.
pub proof fn lemma_diff_of_itself_is_empty(snapshot: SnapshotView)
    requires
        distinct_owners(snapshot.character_snapshots),
        free_of_nan(snapshot.character_snapshots),
    ensures
        Snapshot::spec_diff(snapshot, snapshot).character_snapshots.len() == 0,
{
    lemma_diff_of_prefix_is_empty(snapshot.character_snapshots, snapshot.character_snapshots.len() as int);
    assert(snapshot.character_snapshots.take(snapshot.character_snapshots.len() as int) == snapshot.character_snapshots);
}

/// No two bodies have the same owner.
pub open spec fn distinct_bodies(bodies: Seq<Body>) -> bool {
    forall|i: int, j: int| 0 <= i < j < bodies.len() ==> bodies[i].owner() != bodies[j].owner()
}

/// No body stands or moves at a NaN.
pub open spec fn bodies_free_of_nan(bodies: Seq<Body>) -> bool {
    forall|i: int|
        0 <= i < bodies.len() ==> !(#[trigger] bodies[i]).translation.spec_is_nan()
            && !bodies[i].character.velocity.spec_is_nan()
}

/// A world that has not changed since the baseline was taken is described
/// by a difference without entries. This holds of worlds in which each
/// owner has one entity and nothing stands or moves at a NaN.
pub proof fn lemma_unchanged_world_has_an_empty_diff(
    bodies: Seq<Body>,
    new_id: u32,
    new_timestamp: u128,
    baseline_id: u32,
    baseline_timestamp: u128,
)
    requires
        distinct_bodies(bodies),
        bodies_free_of_nan(bodies),
    ensures
        Snapshot::spec_diff(
            Snapshot::spec_capture(new_id, bodies, new_timestamp),
            Snapshot::spec_capture(baseline_id, bodies, baseline_timestamp),
        ).character_snapshots.len() == 0,
{
    let entries = full_entries(bodies);
    assert(distinct_owners(entries));
    assert(free_of_nan(entries));
    lemma_diff_of_prefix_is_empty(entries, entries.len() as int);
    assert(entries.take(entries.len() as int) == entries);
}

/// No entry of a difference is empty.
pub proof fn lemma_diff_entries_are_not_empty(new: Seq<CharacterSnapshot>, baseline: Seq<CharacterSnapshot>)
    ensures
        forall|i: int|
            0 <= i < diff_entries(new, baseline).len() ==> !(#[trigger] diff_entries(
                new,
                baseline,
            )[i]).spec_is_empty(),
    decreases new.len(),
{
    if new.len() > 0 {
        lemma_diff_entries_are_not_empty(new.drop_last(), baseline);
        let before = diff_entries(new.drop_last(), baseline);
        let all = diff_entries(new, baseline);
        assert forall|i: int| 0 <= i < all.len() implies !(#[trigger] all[i]).spec_is_empty() by {
            if i < before.len() {
                assert(all[i] == before[i]);
            }
        }
    }
}

proof fn lemma_full_entries_index(bodies: Seq<Body>, client_id: u64)
    ensures
        first_index(full_entries(bodies), entry_of(client_id)) == first_index(bodies, body_of(client_id)),
{
    let entries = full_entries(bodies);
    lemma_first_index(bodies, body_of(client_id));
    match first_index(bodies, body_of(client_id)) {
        Some(k) => {
            assert forall|j: int| 0 <= j < k implies !entry_of(client_id)(#[trigger] entries[j]) by {
                assert(!body_of(client_id)(bodies[j]));
            }
            lemma_first_index_is(entries, entry_of(client_id), k);
        },
        None => {
            assert forall|j: int| 0 <= j < entries.len() implies !entry_of(client_id)(#[trigger] entries[j]) by {
                assert(!body_of(client_id)(bodies[j]));
            }
            lemma_first_index_none(entries, entry_of(client_id));
        },
    }
}

/// What applying the difference of a prefix of `new` leaves behind: the
/// owners stay where they are, bodies that the prefix does not describe are
/// untouched, and each described body agrees with its description.
spec fn round_trip_holds(bodies: Seq<Body>, new: Seq<CharacterSnapshot>, n: int) -> bool {
    let after = apply_entries(bodies, diff_entries(new.take(n), full_entries(bodies)));
    &&& after.len() == bodies.len()
    &&& forall|j: int| 0 <= j < bodies.len() ==> (#[trigger] after[j]).owner() == bodies[j].owner()
    &&& forall|j: int|
        0 <= j < bodies.len() && (forall|m: int| 0 <= m < n ==> (#[trigger] new[m]).client_id != bodies[j].owner())
            ==> #[trigger] after[j] == bodies[j]
    &&& forall|m: int|
        0 <= m < n ==> (first_index(bodies, body_of((#[trigger] new[m]).client_id)) matches Some(k) ==> agrees_with(
            after[k],
            new[m],
        ))
}

proof fn lemma_owners_fix_the_index(before: Seq<Body>, after: Seq<Body>, client_id: u64)
    requires
        before.len() == after.len(),
        forall|j: int| 0 <= j < before.len() ==> (#[trigger] after[j]).owner() == before[j].owner(),
    ensures
        first_index(after, body_of(client_id)) == first_index(before, body_of(client_id)),
{
    lemma_first_index(before, body_of(client_id));
    match first_index(before, body_of(client_id)) {
        Some(k) => {
            assert(body_of(client_id)(after[k]));
            assert forall|j: int| 0 <= j < k implies !body_of(client_id)(#[trigger] after[j]) by {
                assert(!body_of(client_id)(before[j]));
            }
            lemma_first_index_is(after, body_of(client_id), k);
        },
        None => {
            assert forall|j: int| 0 <= j < after.len() implies !body_of(client_id)(#[trigger] after[j]) by {
                assert(!body_of(client_id)(before[j]));
            }
            lemma_first_index_none(after, body_of(client_id));
        },
    }
}

proof fn lemma_round_trip_prefix(bodies: Seq<Body>, new: Seq<CharacterSnapshot>, n: int)
    requires
        distinct_owners(new),
        0 <= n <= new.len(),
    ensures
        round_trip_holds(bodies, new, n),
    decreases n,
{
    let baseline = full_entries(bodies);
    if n == 0 {
        assert(new.take(0) =~= Seq::<CharacterSnapshot>::empty());
    } else {
        lemma_round_trip_prefix(bodies, new, n - 1);
        assert(new.take(n).drop_last() == new.take(n - 1));
        let entry = new[n - 1];
        assert(new.take(n).last() == entry);
        let before = apply_entries(bodies, diff_entries(new.take(n - 1), baseline));
        let after = apply_entries(bodies, diff_entries(new.take(n), baseline));
        let part = entry.against(baseline);
        lemma_full_entries_index(bodies, entry.client_id);
        lemma_owners_fix_the_index(bodies, before, entry.client_id);
        lemma_first_index(bodies, body_of(entry.client_id));
        assert(part.client_id == entry.client_id);
        let earlier = diff_entries(new.take(n - 1), baseline);
        assert(earlier.push(part).drop_last() == earlier);
        assert(after == if part.spec_is_empty() {
            before
        } else {
            apply_entry(before, part)
        });
        match first_index(bodies, body_of(entry.client_id)) {
            Some(k) => {
                assert(before[k] == bodies[k]) by {
                    assert forall|m: int| 0 <= m < n - 1 implies (#[trigger] new[m]).client_id != bodies[k].owner() by {}
                }
                assert(baseline[k] == CharacterSnapshot::spec_from_character(bodies[k].character, bodies[k].translation));
                assert(agrees_with(after[k], entry));
                assert forall|m: int| 0 <= m < n - 1 implies (first_index(
                    bodies,
                    body_of((#[trigger] new[m]).client_id),
                ) matches Some(other) ==> agrees_with(after[other], new[m])) by {
                    lemma_first_index(bodies, body_of(new[m].client_id));
                }
            },
            None => {
                assert(after == before);
            },
        }
        assert(round_trip_holds(bodies, new, n));
    }
}

/// Applying the difference between a snapshot and a world to that world
/// brings every entity the two share into the state the snapshot describes:
/// field by field the same bit pattern or the same number. This holds of
/// snapshots that describe each entity once.
pub proof fn lemma_diff_round_trip(bodies: Seq<Body>, new: Seq<CharacterSnapshot>, i: int)
    requires
        distinct_owners(new),
        0 <= i < new.len(),
        first_index(bodies, body_of(new[i].client_id)) is Some,
    ensures
        apply_entries(bodies, diff_entries(new, full_entries(bodies))).len() == bodies.len(),
        agrees_with(
            apply_entries(bodies, diff_entries(new, full_entries(bodies)))[first_index(
                bodies,
                body_of(new[i].client_id),
            ).unwrap()],
            new[i],
        ),
{
    lemma_round_trip_prefix(bodies, new, new.len() as int);
    assert(new.take(new.len() as int) == new);
}

/// The snapshots the authority keeps as baselines, oldest first.
#[derive(Clone, Debug, PartialEq, Eq)]
pub struct SnapshotHistory {
    pub snapshots: Vec<Snapshot>,
    pub next_id: u32,
}

/// The mathematical content of a [`SnapshotHistory`].
pub struct SnapshotHistoryView {
    pub snapshots: Seq<SnapshotView>,
    pub next_id: u32,
}

/// The contents of a list of snapshots.
pub open spec fn snapshot_views(snapshots: Seq<Snapshot>) -> Seq<SnapshotView> {
    Seq::new(snapshots.len(), |i: int| snapshots[i]@)
}

impl View for SnapshotHistory {
    type V = SnapshotHistoryView;

    open spec fn view(&self) -> SnapshotHistoryView {
        SnapshotHistoryView { snapshots: snapshot_views(self.snapshots@), next_id: self.next_id }
    }
}

/// Accepts the snapshots with the id `id`.
pub open spec fn snapshot_with(id: u32) -> spec_fn(SnapshotView) -> bool {
    |snapshot: SnapshotView| snapshot.id == id
}

/// Whether something stamped `timestamp` is less than a second old at
/// `now`. A stamp from the future counts as fresh.
pub open spec fn is_fresh(timestamp: u128, now: u128) -> bool {
    now - timestamp < RETENTION_MILLIS
}

/// Accepts the snapshots that are less than a second old at `now`.
pub open spec fn fresh_at(now: u128) -> spec_fn(SnapshotView) -> bool {
    |snapshot: SnapshotView| is_fresh(snapshot.timestamp, now)
}

/// The snapshots that are less than a second old at `now`, in their order.
pub open spec fn fresh_snapshots(snapshots: Seq<SnapshotView>, now: u128) -> Seq<SnapshotView> {
    keep(snapshots, fresh_at(now))
}

impl SnapshotView {
    /// This snapshot addressed to a recipient whose last integrated input
    /// is `processed`.
    pub open spec fn addressed(self, processed: Option<u32>) -> SnapshotView {
        SnapshotView { latest_processed_input_id: processed, ..self }
    }
}

impl SnapshotHistoryView {
    /// Ids grow along the history and stay below the next id to hand out.
    pub open spec fn well_formed(self) -> bool {
        &&& forall|i: int, j: int|
            0 <= i < j < self.snapshots.len() ==> self.snapshots[i].id < self.snapshots[j].id
        &&& forall|i: int| 0 <= i < self.snapshots.len() ==> (#[trigger] self.snapshots[i]).id < self.next_id
    }

    /// What a recipient is sent: `full` addressed to it, reduced to the
    /// difference from the snapshot it acknowledged while the history still
    /// holds that snapshot, and whole otherwise.
    pub open spec fn snapshot_for(self, full: SnapshotView, processed: Option<u32>, acked: Option<u32>) -> SnapshotView {
        match acked {
            Some(id) => match first_index(self.snapshots, snapshot_with(id)) {
                Some(k) => Snapshot::spec_diff(full.addressed(processed), self.snapshots[k]),
                None => full.addressed(processed),
            },
            None => full.addressed(processed),
        }
    }

    /// The history after `full` has been appended.
    pub open spec fn recorded(self, full: SnapshotView) -> SnapshotHistoryView {
        SnapshotHistoryView { snapshots: self.snapshots.push(full.addressed(None)), next_id: (self.next_id + 1) as u32 }
    }
}

impl Default for SnapshotHistory {
    fn default() -> (history: SnapshotHistory)
        ensures
            history@.snapshots.len() == 0,
            history@.next_id == 0,
            history@.well_formed(),
    {
        SnapshotHistory::new()
    }
}

impl SnapshotHistory {
    /// An empty history that hands out ids from zero.
    pub fn new() -> (history: SnapshotHistory)
        ensures
            history@.snapshots.len() == 0,
            history@.next_id == 0,
            history@.well_formed(),
    {
        SnapshotHistory { snapshots: Vec::new(), next_id: 0 }
    }

    /// Finds the first snapshot with the id `id`.
    pub fn find(&self, id: u32) -> (found: Option<usize>)
        ensures
            same_index(found, first_index(self@.snapshots, snapshot_with(id))),
            found matches Some(i) ==> i < self.snapshots@.len(),
    {
        let mut i: usize = 0;
        while i < self.snapshots.len()
            invariant
                i <= self.snapshots.len(),
                forall|j: int| 0 <= j < i ==> !snapshot_with(id)(#[trigger] self@.snapshots[j]),
            decreases self.snapshots.len() - i,
        {
            if self.snapshots[i].id == id {
                proof {
                    lemma_first_index_is(self@.snapshots, snapshot_with(id), i as int);
                }
                return Some(i);
            }
            i += 1;
        }
        proof {
            lemma_first_index_none(self@.snapshots, snapshot_with(id));
        }
        None
    }

    /// Drops the snapshots that are a second old or older at `now`.
    pub fn prune(&mut self, now: u128)
        ensures
            final(self)@.snapshots == fresh_snapshots(old(self)@.snapshots, now),
            final(self)@.next_id == old(self)@.next_id,
            old(self)@.well_formed() ==> final(self)@.well_formed(),
    {
        let mut kept: Vec<Snapshot> = Vec::new();
        let mut i: usize = 0;
        while i < self.snapshots.len()
            invariant
                i <= self.snapshots.len(),
                snapshot_views(kept@) == fresh_snapshots(self@.snapshots.take(i as int), now),
            decreases self.snapshots.len() - i,
        {
            let timestamp = self.snapshots[i].timestamp;
            proof {
                assert(self@.snapshots.take(i + 1).drop_last() == self@.snapshots.take(i as int));
            }
            if timestamp >= now || now - timestamp < RETENTION_MILLIS {
                let ghost before = snapshot_views(kept@);
                let copy = self.snapshots[i].duplicate();
                kept.push(copy);
                proof {
                    assert(snapshot_views(kept@) == before.push(copy@));
                }
            }
            i += 1;
        }
        proof {
            assert(self@.snapshots.take(i as int) == self@.snapshots);
            if self@.well_formed() {
                lemma_fresh_snapshots_stay_well_formed(self@, now);
            }
        }
        self.snapshots = kept;
    }

    /// Builds what is sent to one recipient.
    pub fn snapshot_for(&self, full: &Snapshot, processed: Option<u32>, acked: Option<u32>) -> (sent: Snapshot)
        ensures
            sent@ == self@.snapshot_for(full@, processed, acked),
    {
        let mut addressed = full.duplicate();
        addressed.latest_processed_input_id = processed;
        match acked {
            Some(id) => match self.find(id) {
                Some(k) => addressed.diff(&self.snapshots[k]),
                None => addressed,
            },
            None => addressed,
        }
    }

    /// Appends the tick's full snapshot, addressed to nobody, and moves on
    /// to the next id.
    pub fn record(&mut self, full: Snapshot)
        requires
            old(self).next_id < u32::MAX,
        ensures
            final(self)@ == old(self)@.recorded(full@),
            old(self)@.well_formed() && full.id == old(self).next_id ==> final(self)@.well_formed(),
    {
        let mut full = full;
        full.latest_processed_input_id = None;
        let ghost before = self@.snapshots;
        self.snapshots.push(full);
        self.next_id += 1;
        proof {
            assert(self@.snapshots == before.push(full@));
        }
    }
}

/// Dropping old snapshots leaves the ids growing and below the next id.
pub proof fn lemma_fresh_snapshots_stay_well_formed(history: SnapshotHistoryView, now: u128)
    requires
        history.well_formed(),
    ensures
        (SnapshotHistoryView { snapshots: fresh_snapshots(history.snapshots, now), next_id: history.next_id })
            .well_formed(),
{
    lemma_keep_order(history.snapshots, fresh_at(now), |a: SnapshotView, b: SnapshotView| a.id < b.id);
    lemma_keep_all(history.snapshots, fresh_at(now), |a: SnapshotView| a.id < history.next_id);
}

} // verus!
