//! The authority's side: what clients have sent, the tick that consumes it,
//! and the snapshots that answer it.

use crate::history::group_views;
use crate::identity::client_id_raw;
use crate::input::{PlayerInput, PlayerInputMessage, PlayerInputOutcome, TimeSlice};
use crate::messages::{ReliableServerMessage, UnreliableServerMessage};
use crate::movement::{body_of, integrate_group, lemma_run_group_keeps_inputs, run_group, Body, Motion};
use crate::numerics::{answered, asked, is_function, Asked};
use crate::scalar::Vec3;
use crate::sequence::{first_index, lemma_first_index};
use crate::snapshot::{
    distinct_bodies, fresh_snapshots, Snapshot, SnapshotHistory, SnapshotHistoryView, SnapshotView,
};
use bevy::utils::HashMap;
use bevy_renet::renet::ClientId;
use vstd::prelude::*;

verus! {

/// What the authority holds for one connected client.
#[derive(Clone, Debug, PartialEq, Eq)]
pub struct PlayerInputCacheEntry {
    /// The groups of inputs received since the last tick, in order of
    /// arrival.
    pub input_groups: Vec<Vec<PlayerInput>>,
    /// The last input that was integrated for this client.
    pub latest_processed_input: Option<PlayerInput>,
    /// The newest snapshot the client has said it processed.
    pub client_latest_processed_snapshot_id: Option<u32>,
}

/// The mathematical content of a [`PlayerInputCacheEntry`].
pub struct PlayerInputCacheEntryView {
    pub input_groups: Seq<Seq<PlayerInput>>,
    pub latest_processed_input: Option<PlayerInput>,
    pub client_latest_processed_snapshot_id: Option<u32>,
}

impl View for PlayerInputCacheEntry {
    type V = PlayerInputCacheEntryView;

    open spec fn view(&self) -> PlayerInputCacheEntryView {
        PlayerInputCacheEntryView {
            input_groups: group_views(self.input_groups@),
            latest_processed_input: self.latest_processed_input,
            client_latest_processed_snapshot_id: self.client_latest_processed_snapshot_id,
        }
    }
}

/// The entries of all connected clients, by client id.
///
/// The entries live in the hash map of `bevy::utils`. The verifier does not
/// look into that map: all it knows of a cache is [`cache_entries`], and all
/// it knows of the map's operations is what the five functions below it
/// state.
#[verifier::external_body]
pub struct PlayerInputCache {
    inputs: HashMap<ClientId, PlayerInputCacheEntry>,
}

/// What a cache holds: for each raw client id that has an entry, the content
/// of that entry.
pub uninterp spec fn cache_entries(cache: PlayerInputCache) -> Map<u64, PlayerInputCacheEntryView>;

/// The content of a cache without entries.
pub open spec fn no_entries() -> Map<u64, PlayerInputCacheEntryView> {
    Map::empty()
}

/// `HashMap::default` makes a map without entries.
#[verifier::external_body]
fn cache_new() -> (cache: PlayerInputCache)
    ensures
        cache_entries(cache) == no_entries(),
{
    PlayerInputCache { inputs: HashMap::default() }
}

/// `HashMap::get` returns the entry stored under the key, if there is one.
#[verifier::external_body]
fn cache_get(cache: &PlayerInputCache, client_id: ClientId) -> (found: Option<&PlayerInputCacheEntry>)
    ensures
        match found {
            Some(entry) => cache_entries(*cache).contains_key(client_id_raw(client_id)) && entry@ == cache_entries(
                *cache,
            )[client_id_raw(client_id)],
            None => !cache_entries(*cache).contains_key(client_id_raw(client_id)),
        },
{
    cache.inputs.get(&client_id)
}

/// `HashMap::get_mut` lends the entry stored under the key, if there is
/// one. What the borrower leaves in the entry is what the map holds
/// afterwards, and no other entry changes.
#[verifier::external_body]
fn cache_get_mut(cache: &mut PlayerInputCache, client_id: ClientId) -> (found: Option<&mut PlayerInputCacheEntry>)
    ensures
        match found {
            Some(entry) => {
                &&& cache_entries(*old(cache)).contains_key(client_id_raw(client_id))
                &&& entry@ == cache_entries(*old(cache))[client_id_raw(client_id)]
                &&& cache_entries(*final(cache)) == cache_entries(*old(cache)).insert(
                    client_id_raw(client_id),
                    final(entry)@,
                )
            },
            None => {
                &&& !cache_entries(*old(cache)).contains_key(client_id_raw(client_id))
                &&& cache_entries(*final(cache)) == cache_entries(*old(cache))
            },
        },
{
    cache.inputs.get_mut(&client_id)
}

/// `HashMap::entry` followed by `Entry::or_insert_with` lends the entry
/// stored under the key, after storing a blank one if there was none. What
/// the borrower leaves in the entry is what the map holds afterwards, and no
/// other entry changes.
#[verifier::external_body]
fn cache_entry(cache: &mut PlayerInputCache, client_id: ClientId) -> (entry: &mut PlayerInputCacheEntry)
    ensures
        entry@ == (if cache_entries(*old(cache)).contains_key(client_id_raw(client_id)) {
            cache_entries(*old(cache))[client_id_raw(client_id)]
        } else {
            PlayerInputCacheEntryView::blank()
        }),
        cache_entries(*final(cache)) == cache_entries(*old(cache)).insert(client_id_raw(client_id), final(entry)@),
{
    cache.inputs.entry(client_id).or_insert_with(PlayerInputCacheEntry::new)
}

/// `HashMap::remove` takes the entry stored under the key out of the map,
/// if there is one, and leaves every other entry alone.
#[verifier::external_body]
fn cache_remove(cache: &mut PlayerInputCache, client_id: ClientId)
    ensures
        cache_entries(*final(cache)) == cache_entries(*old(cache)).remove(client_id_raw(client_id)),
{
    cache.inputs.remove(&client_id);
}

/// A client's entry and entity.
pub struct Stepped {
    pub entry: PlayerInputCacheEntryView,
    pub body: Body,
}

/// A body and the last input that was integrated into it.
pub struct Batches {
    pub body: Body,
    pub latest: Option<PlayerInput>,
}

/// Runs the groups a client has sent past `body`, in order of arrival. The
/// tick is shared evenly among the `batches` groups, and each group shares
/// its part evenly among its inputs. An empty group uses none of its part.
pub open spec fn run_batches(
    body: Body,
    groups: Seq<Seq<PlayerInput>>,
    batches: usize,
    latest: Option<PlayerInput>,
    model: spec_fn(Motion) -> Asked<PlayerInputOutcome>,
) -> Asked<Batches>
    decreases groups.len(),
{
    if groups.len() == 0 {
        answered(Batches { body, latest })
    } else {
        let before = run_batches(body, groups.drop_last(), batches, latest, model);
        let group = groups.last();
        if group.len() == 0 {
            before
        } else {
            let run = run_group(
                before.value.body,
                group,
                TimeSlice { batches, entries: group.len() as usize },
                None,
                model,
            );
            Asked {
                value: Batches { body: run.value.body, latest: Some(run.value.inputs.last()) },
                answered: before.answered && run.answered,
            }
        }
    }
}

/// The newer of two acknowledgements. No acknowledgement is older than any.
pub open spec fn newer_ack(stored: Option<u32>, incoming: Option<u32>) -> Option<u32> {
    match (stored, incoming) {
        (Some(s), Some(i)) => if i > s {
            Some(i)
        } else {
            Some(s)
        },
        (Some(s), None) => Some(s),
        (None, _) => incoming,
    }
}

/// The id of an input, if there is an input.
pub open spec fn id_of(input: Option<PlayerInput>) -> Option<u32> {
    match input {
        Some(input) => Some(input.id),
        None => None,
    }
}

impl PlayerInputCacheEntryView {
    /// The entry of a client that has sent nothing yet.
    pub open spec fn blank() -> PlayerInputCacheEntryView {
        PlayerInputCacheEntryView {
            input_groups: Seq::empty(),
            latest_processed_input: None,
            client_latest_processed_snapshot_id: None,
        }
    }

    /// The entry after a message has arrived: its inputs join the queue as
    /// one group, and its acknowledgement is kept if it is newer than the
    /// one on record.
    pub open spec fn received(self, acked: Option<u32>, inputs: Seq<PlayerInput>) -> PlayerInputCacheEntryView {
        PlayerInputCacheEntryView {
            input_groups: self.input_groups.push(inputs),
            client_latest_processed_snapshot_id: newer_ack(self.client_latest_processed_snapshot_id, acked),
            ..self
        }
    }

    /// The entry and the client's entity after one tick. With nothing
    /// queued the last integrated input, if there is one, is integrated
    /// again over the whole tick. Otherwise everything queued is integrated
    /// within the one tick and the queue is emptied.
    pub open spec fn stepped(self, body: Body, model: spec_fn(Motion) -> Asked<PlayerInputOutcome>) -> Asked<
        Stepped,
    > {
        if self.input_groups.len() == 0 {
            match self.latest_processed_input {
                Some(input) => {
                    let again = body.step(input, TimeSlice::spec_whole(), model);
                    Asked {
                        value: Stepped {
                            entry: PlayerInputCacheEntryView {
                                latest_processed_input: Some(again.value.input),
                                ..self
                            },
                            body: again.value.body,
                        },
                        answered: again.answered,
                    }
                },
                None => answered(Stepped { entry: self, body }),
            }
        } else {
            let run = run_batches(
                body,
                self.input_groups,
                self.input_groups.len() as usize,
                self.latest_processed_input,
                model,
            );
            Asked {
                value: Stepped {
                    entry: PlayerInputCacheEntryView {
                        input_groups: Seq::empty(),
                        latest_processed_input: run.value.latest,
                        ..self
                    },
                    body: run.value.body,
                },
                answered: run.answered,
            }
        }
    }
}

impl Default for PlayerInputCacheEntry {
    fn default() -> (entry: PlayerInputCacheEntry)
        ensures
            entry@ == PlayerInputCacheEntryView::blank(),
    {
        PlayerInputCacheEntry::new()
    }
}

impl Default for PlayerInputCache {
    fn default() -> (cache: PlayerInputCache)
        ensures
            cache_entries(cache) == no_entries(),
    {
        PlayerInputCache::new()
    }
}

impl PlayerInputCacheEntry {
    /// The entry of a client that has sent nothing yet.
    pub fn new() -> (entry: PlayerInputCacheEntry)
        ensures
            entry@ == PlayerInputCacheEntryView::blank(),
    {
        let entry = PlayerInputCacheEntry {
            input_groups: Vec::new(),
            latest_processed_input: None,
            client_latest_processed_snapshot_id: None,
        };
        proof {
            assert(entry@.input_groups =~= Seq::empty());
        }
        entry
    }

    /// Takes in a message from the client.
    pub fn receive(&mut self, message: PlayerInputMessage)
        ensures
            final(self)@ == old(self)@.received(message.latest_processed_snapshot_id, message.inputs@),
    {
        self.client_latest_processed_snapshot_id = match (
            self.client_latest_processed_snapshot_id,
            message.latest_processed_snapshot_id,
        ) {
            (Some(stored), Some(incoming)) => if incoming > stored {
                Some(incoming)
            } else {
                Some(stored)
            },
            (Some(stored), None) => Some(stored),
            (None, incoming) => incoming,
        };
        let ghost before = self@.input_groups;
        self.input_groups.push(message.inputs);
        proof {
            assert(self@.input_groups == before.push(message.inputs@));
        }
    }

    /// Advances the client's entity by one tick.
    pub fn step<F: Fn(Motion) -> PlayerInputOutcome>(&mut self, body: &mut Body, integrate: &F)
        requires
            is_function(*integrate),
        ensures
            old(self)@.stepped(*old(body), asked(*integrate)) == answered(
                Stepped { entry: final(self)@, body: *final(body) },
            ),
            final(body).owner() == old(body).owner(),
    {
        proof {
            lemma_stepped_keeps_owner(old(self)@, *old(body), asked(*integrate));
        }
        let batches = self.input_groups.len();
        if batches == 0 {
            match self.latest_processed_input {
                Some(input) => {
                    let mut input = input;
                    body.character.process_input(&mut input, &mut body.translation, TimeSlice::whole(), integrate);
                    self.latest_processed_input = Some(input);
                },
                None => {},
            }
            return ;
        }
        let mut latest = self.latest_processed_input;
        let mut i: usize = 0;
        while i < batches
            invariant
                i <= batches,
                batches == self.input_groups.len(),
                is_function(*integrate),
                self.input_groups == old(self).input_groups,
                run_batches(
                    *old(body),
                    old(self)@.input_groups.take(i as int),
                    batches,
                    old(self)@.latest_processed_input,
                    asked(*integrate),
                ) == answered(Batches { body: *body, latest }),
            decreases batches - i,
        {
            let group = &self.input_groups[i];
            proof {
                assert(old(self)@.input_groups.take(i + 1).drop_last() == old(self)@.input_groups.take(i as int));
                assert(old(self)@.input_groups[i as int] == group@);
            }
            if group.len() > 0 {
                let ghost before = *body;
                let done = integrate_group(
                    body,
                    group,
                    TimeSlice { batches, entries: group.len() },
                    None,
                    integrate,
                );
                proof {
                    lemma_run_group_keeps_inputs(
                        before,
                        group@,
                        TimeSlice { batches, entries: group.len() },
                        None,
                        asked(*integrate),
                    );
                }
                latest = Some(done[done.len() - 1]);
            }
            i += 1;
        }
        proof {
            assert(old(self)@.input_groups.take(i as int) == old(self)@.input_groups);
        }
        self.latest_processed_input = latest;
        self.input_groups.clear();
        proof {
            assert(self@.input_groups =~= Seq::empty());
        }
    }
}

/// The authority's caches and its world.
pub struct ServerState {
    pub entries: Map<u64, PlayerInputCacheEntryView>,
    pub bodies: Seq<Body>,
}

impl ServerState {
    /// The state after the body at `k` has had its tick: where its owner
    /// has an entry, the entry is stepped; a body without one stays put.
    pub open spec fn stepped_at(self, k: int, model: spec_fn(Motion) -> Asked<PlayerInputOutcome>) -> Asked<
        ServerState,
    > {
        let owner = self.bodies[k].owner();
        if self.entries.contains_key(owner) {
            let after = self.entries[owner].stepped(self.bodies[k], model);
            Asked {
                value: ServerState {
                    entries: self.entries.insert(owner, after.value.entry),
                    bodies: self.bodies.update(k, after.value.body),
                },
                answered: after.answered,
            }
        } else {
            answered(self)
        }
    }

    /// The state after the first `n` bodies have had their tick, in order.
    pub open spec fn stepped_through(self, n: nat, model: spec_fn(Motion) -> Asked<PlayerInputOutcome>) -> Asked<
        ServerState,
    >
        decreases n,
    {
        if n == 0 {
            answered(self)
        } else {
            let before = self.stepped_through((n - 1) as nat, model);
            let after = before.value.stepped_at(n - 1, model);
            Asked { value: after.value, answered: before.answered && after.answered }
        }
    }
}

/// What each of `clients` is sent, in order: for every client with an entry
/// the tick's snapshot as the history addresses it to that client. Clients
/// without an entry are sent nothing.
pub open spec fn mail(
    entries: Map<u64, PlayerInputCacheEntryView>,
    history: SnapshotHistoryView,
    full: SnapshotView,
    clients: Seq<ClientId>,
) -> Seq<(ClientId, SnapshotView)>
    decreases clients.len(),
{
    if clients.len() == 0 {
        Seq::empty()
    } else {
        let before = mail(entries, history, full, clients.drop_last());
        let client = clients.last();
        if entries.contains_key(client_id_raw(client)) {
            let entry = entries[client_id_raw(client)];
            before.push(
                (
                    client,
                    history.snapshot_for(
                        full,
                        id_of(entry.latest_processed_input),
                        entry.client_latest_processed_snapshot_id,
                    ),
                ),
            )
        } else {
            before
        }
    }
}

/// The snapshot a message carries.
pub open spec fn carried(message: UnreliableServerMessage) -> SnapshotView {
    match message {
        UnreliableServerMessage::Snapshot(snapshot) => snapshot@,
    }
}

/// The contents of a list of addressed messages.
pub open spec fn mail_views(mail: Seq<(ClientId, UnreliableServerMessage)>) -> Seq<(ClientId, SnapshotView)> {
    Seq::new(mail.len(), |i: int| (mail[i].0, carried(mail[i].1)))
}

/// The announcement of an entity.
pub open spec fn announcement(body: Body) -> ReliableServerMessage {
    ReliableServerMessage::SpawnCharacter(body.owner(), body.translation, body.character.velocity)
}

/// The announcements of all entities of a world, in order.
pub open spec fn announcements(bodies: Seq<Body>) -> Seq<ReliableServerMessage> {
    Seq::new(bodies.len(), |i: int| announcement(bodies[i]))
}

/// What the authority sends when a client has connected.
#[derive(Clone, Debug, PartialEq, Eq)]
pub struct Welcome {
    /// The announcement of the newcomer's entity, for every client.
    pub to_everyone: ReliableServerMessage,
    /// The announcements of the entities that were there before, for the
    /// newcomer alone.
    pub to_newcomer: Vec<ReliableServerMessage>,
}

impl PlayerInputCache {
    /// A cache without entries.
    pub fn new() -> (cache: PlayerInputCache)
        ensures
            cache_entries(cache) == no_entries(),
    {
        cache_new()
    }

    /// Looks up the entry of a client.
    pub fn get(&self, client_id: ClientId) -> (found: Option<&PlayerInputCacheEntry>)
        ensures
            match found {
                Some(entry) => cache_entries(*self).contains_key(client_id_raw(client_id)) && entry@
                    == cache_entries(*self)[client_id_raw(client_id)],
                None => !cache_entries(*self).contains_key(client_id_raw(client_id)),
            },
    {
        cache_get(self, client_id)
    }

    /// Takes in a newly connected client: the client gets an entry, unless
    /// it has one, and its entity comes into the world, at rest at the
    /// origin. Returns what to tell whom about it.
    pub fn connect(&mut self, bodies: &mut Vec<Body>, client_id: ClientId) -> (welcome: Welcome)
        ensures
            cache_entries(*final(self)) == cache_entries(*old(self)).insert(
                client_id_raw(client_id),
                if cache_entries(*old(self)).contains_key(client_id_raw(client_id)) {
                    cache_entries(*old(self))[client_id_raw(client_id)]
                } else {
                    PlayerInputCacheEntryView::blank()
                },
            ),
            final(bodies)@ == old(bodies)@.push(Body::spec_spawn(client_id, Vec3::spec_zero(), Vec3::spec_zero())),
            welcome.to_everyone == announcement(final(bodies)@.last()),
            welcome.to_newcomer@ == announcements(old(bodies)@),
            distinct_bodies(old(bodies)@) && first_index(old(bodies)@, body_of(client_id_raw(client_id))) is None
                ==> distinct_bodies(final(bodies)@),
    {
        proof {
            lemma_first_index(old(bodies)@, body_of(client_id_raw(client_id)));
        }
        let _ = cache_entry(self, client_id);
        let mut to_newcomer: Vec<ReliableServerMessage> = Vec::new();
        let mut i: usize = 0;
        while i < bodies.len()
            invariant
                i <= bodies.len(),
                *bodies == *old(bodies),
                to_newcomer@ == announcements(bodies@.take(i as int)),
            decreases bodies.len() - i,
        {
            let body = &bodies[i];
            to_newcomer.push(
                ReliableServerMessage::SpawnCharacter(
                    body.character.owner_client_id.raw(),
                    body.translation,
                    body.character.velocity,
                ),
            );
            proof {
                assert(to_newcomer@ == announcements(bodies@.take(i + 1)));
            }
            i += 1;
        }
        proof {
            assert(bodies@.take(i as int) == bodies@);
        }
        let start_position = Vec3::zero();
        let start_velocity = Vec3::zero();
        bodies.push(Body::spawn(client_id, start_position, start_velocity));
        Welcome {
            to_everyone: ReliableServerMessage::SpawnCharacter(client_id.raw(), start_position, start_velocity),
            to_newcomer,
        }
    }

    /// Takes in a message from a client, starting an entry for the client
    /// if it has none.
    pub fn receive_inputs(&mut self, client_id: ClientId, message: PlayerInputMessage)
        ensures
            cache_entries(*final(self)) == cache_entries(*old(self)).insert(
                client_id_raw(client_id),
                (if cache_entries(*old(self)).contains_key(client_id_raw(client_id)) {
                    cache_entries(*old(self))[client_id_raw(client_id)]
                } else {
                    PlayerInputCacheEntryView::blank()
                }).received(message.latest_processed_snapshot_id, message.inputs@),
            ),
    {
        let entry = cache_entry(self, client_id);
        entry.receive(message);
    }

    /// Forgets a client that has disconnected. Forgetting a client that has
    /// no entry changes nothing.
    pub fn disconnect(&mut self, client_id: ClientId)
        ensures
            cache_entries(*final(self)) == cache_entries(*old(self)).remove(client_id_raw(client_id)),
            !cache_entries(*old(self)).contains_key(client_id_raw(client_id)) ==> cache_entries(*final(self))
                == cache_entries(*old(self)),
    {
        cache_remove(self, client_id);
        proof {
            if !cache_entries(*old(self)).contains_key(client_id_raw(client_id)) {
                assert(cache_entries(*old(self)).remove(client_id_raw(client_id)) =~= cache_entries(*old(self)));
            }
        }
    }

    /// Runs one tick of the authority: every body whose owner has an entry
    /// is advanced by what that entry holds.
    pub fn process_inputs<F: Fn(Motion) -> PlayerInputOutcome>(&mut self, bodies: &mut Vec<Body>, integrate: &F)
        requires
            is_function(*integrate),
        ensures
            (ServerState { entries: cache_entries(*old(self)), bodies: old(bodies)@ }).stepped_through(
                old(bodies)@.len(),
                asked(*integrate),
            ) == answered(ServerState { entries: cache_entries(*final(self)), bodies: final(bodies)@ }),
            final(bodies)@.len() == old(bodies)@.len(),
            forall|k: int|
                0 <= k < old(bodies)@.len() ==> (#[trigger] final(bodies)@[k]).owner() == old(bodies)@[k].owner(),
            distinct_bodies(old(bodies)@) ==> distinct_bodies(final(bodies)@),
    {
        let ghost start = ServerState { entries: cache_entries(*self), bodies: bodies@ };
        let mut i: usize = 0;
        while i < bodies.len()
            invariant
                i <= bodies.len(),
                bodies@.len() == start.bodies.len(),
                forall|k: int| 0 <= k < start.bodies.len() ==> (#[trigger] bodies@[k]).owner() == start.bodies[k].owner(),
                is_function(*integrate),
                start.stepped_through(i as nat, asked(*integrate)) == answered(
                    ServerState { entries: cache_entries(*self), bodies: bodies@ },
                ),
            decreases bodies.len() - i,
        {
            let mut body = bodies[i];
            match cache_get_mut(self, body.character.owner_client_id) {
                Some(entry) => {
                    entry.step(&mut body, integrate);
                    bodies.set(i, body);
                },
                None => {},
            }
            i += 1;
        }
    }

    /// Takes the tick's snapshot and says what to send to whom.
    ///
    /// The history lets go of snapshots that have grown old, every client
    /// with an entry is sent the snapshot as the history addresses it to
    /// that client, and the snapshot joins the history in full.
    pub fn snapshot_send(
        &self,
        bodies: &Vec<Body>,
        clients: &Vec<ClientId>,
        history: &mut SnapshotHistory,
        now: u128,
    ) -> (sent: Vec<(ClientId, UnreliableServerMessage)>)
        requires
            old(history).next_id < u32::MAX,
        ensures
            ({
                let full = Snapshot::spec_capture(old(history).next_id, bodies@, now);
                let kept = SnapshotHistoryView {
                    snapshots: fresh_snapshots(old(history)@.snapshots, now),
                    next_id: old(history).next_id,
                };
                &&& mail_views(sent@) == mail(cache_entries(*self), kept, full, clients@)
                &&& final(history)@ == kept.recorded(full)
            }),
            old(history)@.well_formed() ==> final(history)@.well_formed(),
    {
        let full = Snapshot::capture(history.next_id, bodies, now);
        history.prune(now);
        let ghost kept = history@;
        let mut sent: Vec<(ClientId, UnreliableServerMessage)> = Vec::new();
        let mut i: usize = 0;
        proof {
            assert(mail_views(sent@) =~= Seq::empty());
        }
        while i < clients.len()
            invariant
                i <= clients.len(),
                history@ == kept,
                mail_views(sent@) == mail(cache_entries(*self), kept, full@, clients@.take(i as int)),
            decreases clients.len() - i,
        {
            let client = clients[i];
            proof {
                assert(clients@.take(i + 1).drop_last() == clients@.take(i as int));
            }
            match cache_get(self, client) {
                Some(entry) => {
                    let processed = match entry.latest_processed_input {
                        Some(input) => Some(input.id),
                        None => None,
                    };
                    let snapshot = history.snapshot_for(&full, processed, entry.client_latest_processed_snapshot_id);
                    let ghost before = mail_views(sent@);
                    sent.push((client, UnreliableServerMessage::Snapshot(snapshot)));
                    proof {
                        assert(mail_views(sent@) == before.push((client, snapshot@)));
                    }
                },
                None => {},
            }
            i += 1;
        }
        proof {
            assert(clients@.take(i as int) == clients@);
        }
        history.record(full);
        sent
    }
}

/// Running the queued groups leaves the body with its owner.
pub proof fn lemma_run_batches_keeps_owner(
    body: Body,
    groups: Seq<Seq<PlayerInput>>,
    batches: usize,
    latest: Option<PlayerInput>,
    model: spec_fn(Motion) -> Asked<PlayerInputOutcome>,
)
    ensures
        run_batches(body, groups, batches, latest, model).value.body.owner() == body.owner(),
    decreases groups.len(),
{
    if groups.len() > 0 {
        lemma_run_batches_keeps_owner(body, groups.drop_last(), batches, latest, model);
        let before = run_batches(body, groups.drop_last(), batches, latest, model).value;
        lemma_run_group_keeps_inputs(
            before.body,
            groups.last(),
            TimeSlice { batches, entries: groups.last().len() as usize },
            None,
            model,
        );
    }
}

/// A tick leaves the entity with its owner.
pub proof fn lemma_stepped_keeps_owner(
    entry: PlayerInputCacheEntryView,
    body: Body,
    model: spec_fn(Motion) -> Asked<PlayerInputOutcome>,
)
    ensures
        entry.stepped(body, model).value.body.owner() == body.owner(),
{
    lemma_run_batches_keeps_owner(
        body,
        entry.input_groups,
        entry.input_groups.len() as usize,
        entry.latest_processed_input,
        model,
    );
}

/// Forgetting a client twice is forgetting it once.
pub proof fn lemma_disconnect_is_idempotent(entries: Map<u64, PlayerInputCacheEntryView>, client: u64)
    ensures
        entries.remove(client).remove(client) == entries.remove(client),
{
    assert(entries.remove(client).remove(client) =~= entries.remove(client));
}

} // verus!
