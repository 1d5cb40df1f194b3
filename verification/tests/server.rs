use bevy::math::{Quat, Vec3 as V3};
use bevy_renet::renet::ClientId;
use rollback_netcode::input::{PlayerInput, PlayerInputMessage, PlayerInputOutcome, TimeSlice};
use rollback_netcode::messages::{ReliableServerMessage, UnreliableServerMessage};
use rollback_netcode::movement::{Body, Motion};
use rollback_netcode::scalar::{Scalar, Vec3};
use rollback_netcode::server::{PlayerInputCache, PlayerInputCacheEntry};
use rollback_netcode::snapshot::{CharacterSnapshot, SnapshotHistory};
use std::cell::RefCell;

const TICK: f32 = 1.0 / 64.0;

fn v(x: f32, y: f32, z: f32) -> Vec3 {
    Vec3::from_bits(x.to_bits(), y.to_bits(), z.to_bits())
}

fn bits(vector: V3) -> Vec3 {
    v(vector.x, vector.y, vector.z)
}

fn floats(vector: Vec3) -> V3 {
    V3::new(f32::from_bits(vector.x.bits), f32::from_bits(vector.y.bits), f32::from_bits(vector.z.bits))
}

fn seconds(slice: TimeSlice) -> f32 {
    TICK / slice.batches as f32 / slice.entries as f32
}

fn move_direction(input: &PlayerInput, rotation: Quat) -> V3 {
    let mut direction = V3::ZERO;
    if input.forward {
        direction -= rotation.mul_vec3(V3::Z);
    }
    if input.backward {
        direction += rotation.mul_vec3(V3::Z);
    }
    if input.left {
        direction -= rotation.mul_vec3(V3::X);
    }
    if input.right {
        direction += rotation.mul_vec3(V3::X);
    }
    if direction.length() > 0.0 {
        direction = direction.normalize();
    }
    direction
}

fn accelerate(wish_direction: V3, wish_speed: f32, current_speed: f32, accel: f32, delta_seconds: f32) -> V3 {
    let add_speed = wish_speed - current_speed;
    if add_speed <= 0.0 {
        return V3::ZERO;
    }
    let mut accel_speed = accel * delta_seconds * wish_speed;
    if accel_speed > add_speed {
        accel_speed = add_speed;
    }
    wish_direction * accel_speed
}

fn deccelerate(velocity: V3, current_speed: f32, friction: f32, delta_seconds: f32) -> V3 {
    let drop = current_speed * friction * delta_seconds;
    let mut new_speed = current_speed - drop;
    if new_speed < 0.0 {
        new_speed = 0.0;
    }
    if new_speed != 0.0 {
        new_speed /= current_speed;
    }
    velocity * new_speed
}

fn integrate(motion: Motion) -> PlayerInputOutcome {
    let delta_seconds = seconds(motion.slice);
    let character = motion.character;
    let rotation = Quat::from_rotation_y(f32::from_bits(character.yaw.bits));
    let wish_direction = move_direction(&motion.input, rotation);
    let mut velocity = floats(character.velocity);
    velocity = deccelerate(velocity, velocity.length(), f32::from_bits(character.move_friction.bits), delta_seconds);
    velocity += accelerate(
        wish_direction,
        f32::from_bits(character.move_speed.bits),
        velocity.length(),
        f32::from_bits(character.move_accel.bits),
        delta_seconds,
    );
    let translation = floats(motion.translation) + velocity * delta_seconds;
    PlayerInputOutcome { translation: bits(translation), velocity: bits(velocity) }
}


fn input(id: u32, forward: bool, right: bool, timestamp: u128) -> PlayerInput {
    PlayerInput {
        id,
        forward,
        backward: false,
        left: false,
        right,
        jump: false,
        pitch: Scalar::from_bits(0),
        yaw: Scalar::from_bits(0),
        final_translation: Vec3::zero(),
        timestamp,
    }
}

fn body(owner: u64, translation: Vec3, velocity: Vec3) -> Body {
    Body::spawn(ClientId::from_raw(owner), translation, velocity)
}

fn message(acked: Option<u32>, inputs: Vec<PlayerInput>) -> PlayerInputMessage {
    PlayerInputMessage { latest_processed_snapshot_id: acked, inputs }
}

fn snapshot_of(message: &UnreliableServerMessage) -> &rollback_netcode::snapshot::Snapshot {
    match message {
        UnreliableServerMessage::Snapshot(snapshot) => snapshot,
    }
}

#[test]
fn entity_keeps_moving_when_its_client_sends_nothing() {
    let mut entry = PlayerInputCacheEntry::new();
    entry.latest_processed_input = Some(input(4, true, false, 0));
    let mut entity = body(7, v(0.0, 0.0, 0.0), v(1.0, 0.0, 0.0));

    entry.step(&mut entity, &integrate);

    let velocity = floats(entity.character.velocity);
    let translation = floats(entity.translation);
    assert_eq!(velocity, V3::new(0.875, 0.0, -0.625));
    assert!(translation.x > 0.0);
    assert_eq!(translation.x, velocity.x * TICK);
    assert_eq!(translation, V3::new(0.013671875, 0.0, -0.009765625));
    assert!(entry.input_groups.is_empty());
    let latest = entry.latest_processed_input.unwrap();
    assert_eq!(latest.id, 4);
    assert_eq!(latest.final_translation, entity.translation);
}

#[test]
fn entity_without_any_input_so_far_stays_put() {
    let mut entry = PlayerInputCacheEntry::new();
    let mut entity = body(7, v(1.0, 2.0, 3.0), v(1.0, 0.0, 0.0));
    entry.step(&mut entity, &integrate);
    assert_eq!(entity.translation, v(1.0, 2.0, 3.0));
    assert_eq!(entity.character.velocity, v(1.0, 0.0, 0.0));
    assert!(entry.latest_processed_input.is_none());
}

#[test]
fn three_batches_share_one_tick() {
    let slices: RefCell<Vec<TimeSlice>> = RefCell::new(Vec::new());
    let recording = |motion: Motion| {
        slices.borrow_mut().push(motion.slice);
        integrate(motion)
    };

    let mut single = PlayerInputCacheEntry::new();
    single.receive(message(None, vec![input(0, true, false, 0)]));
    let mut entity = body(7, v(0.0, 0.0, 0.0), v(0.0, 0.0, 0.0));
    single.step(&mut entity, &recording);
    assert_eq!(*slices.borrow(), vec![TimeSlice { batches: 1, entries: 1 }]);
    let single_slice = seconds(slices.borrow()[0]);
    assert_eq!(single_slice, TICK);
    slices.borrow_mut().clear();

    let mut burst = PlayerInputCacheEntry::new();
    burst.receive(message(None, vec![input(0, true, false, 0)]));
    burst.receive(message(None, vec![input(1, true, false, 0)]));
    burst.receive(message(None, vec![input(2, true, false, 0)]));
    let mut entity = body(7, v(0.0, 0.0, 0.0), v(0.0, 0.0, 0.0));
    burst.step(&mut entity, &recording);

    let seen = slices.borrow().clone();
    assert_eq!(seen, vec![TimeSlice { batches: 3, entries: 1 }; 3]);
    for slice in &seen {
        assert_eq!(seconds(*slice) * 3.0, single_slice);
    }
    let total: f32 = seen.iter().map(|slice| seconds(*slice)).sum();
    assert!((total - TICK).abs() <= f32::EPSILON * TICK);
    assert!(burst.input_groups.is_empty());
    assert_eq!(burst.latest_processed_input.unwrap().id, 2);
}

#[test]
fn each_batch_shares_its_part_among_its_entries() {
    let slices: RefCell<Vec<(u32, TimeSlice)>> = RefCell::new(Vec::new());
    let recording = |motion: Motion| {
        slices.borrow_mut().push((motion.input.id, motion.slice));
        integrate(motion)
    };
    let mut entry = PlayerInputCacheEntry::new();
    entry.receive(message(None, vec![input(0, true, false, 0), input(1, true, false, 0)]));
    entry.receive(message(None, Vec::new()));
    entry.receive(message(None, vec![input(2, false, true, 0), input(3, false, true, 0), input(4, false, true, 0), input(5, true, false, 0)]));
    let mut entity = body(7, v(0.0, 0.0, 0.0), v(0.0, 0.0, 0.0));
    entry.step(&mut entity, &recording);
    assert_eq!(
        *slices.borrow(),
        vec![
            (0, TimeSlice { batches: 3, entries: 2 }),
            (1, TimeSlice { batches: 3, entries: 2 }),
            (2, TimeSlice { batches: 3, entries: 4 }),
            (3, TimeSlice { batches: 3, entries: 4 }),
            (4, TimeSlice { batches: 3, entries: 4 }),
            (5, TimeSlice { batches: 3, entries: 4 }),
        ]
    );
    assert!(entry.input_groups.is_empty());
    let latest = entry.latest_processed_input.unwrap();
    assert_eq!(latest.id, 5);
    assert_eq!(latest.final_translation, entity.translation);
}

#[test]
fn stepping_matches_integrating_by_hand() {
    let mut entry = PlayerInputCacheEntry::new();
    entry.receive(message(None, vec![input(0, true, false, 0), input(1, true, true, 0)]));
    entry.receive(message(None, vec![input(2, false, true, 0)]));
    let mut entity = body(7, v(1.0, 0.0, 1.0), v(0.5, 0.0, 0.0));
    let start = entity;
    entry.step(&mut entity, &integrate);

    let mut expected = start;
    for (one, slice) in [
        (input(0, true, false, 0), TimeSlice { batches: 2, entries: 2 }),
        (input(1, true, true, 0), TimeSlice { batches: 2, entries: 2 }),
        (input(2, false, true, 0), TimeSlice { batches: 2, entries: 1 }),
    ] {
        let outcome = integrate(Motion { character: expected.character, translation: expected.translation, input: one, slice });
        expected.character.velocity = outcome.velocity;
        expected.translation = outcome.translation;
    }
    assert_eq!(entity.translation, expected.translation);
    assert_eq!(entity.character.velocity, expected.character.velocity);
    assert_ne!(entity.translation, start.translation);
}

#[test]
fn stepping_turns_the_entity_the_way_the_input_looks() {
    let mut entry = PlayerInputCacheEntry::new();
    let mut turned = input(0, true, false, 0);
    turned.pitch = Scalar::from_bits(0.25f32.to_bits());
    turned.yaw = Scalar::from_bits(1.5f32.to_bits());
    entry.receive(message(None, vec![turned]));
    let mut entity = body(7, v(0.0, 0.0, 0.0), v(0.0, 0.0, 0.0));
    entry.step(&mut entity, &integrate);
    assert_eq!(entity.character.pitch.bits, 0.25f32.to_bits());
    assert_eq!(entity.character.yaw.bits, 1.5f32.to_bits());
    let velocity = floats(entity.character.velocity);
    let forward = Quat::from_rotation_y(1.5).mul_vec3(-V3::Z);
    assert!((velocity.normalize() - forward).length() < 1.0e-6);
}

#[test]
fn messages_are_queued_in_order_of_arrival() {
    let mut cache = PlayerInputCache::new();
    let client = ClientId::from_raw(11);
    assert!(cache.get(client).is_none());
    cache.receive_inputs(client, message(None, vec![input(0, true, false, 0)]));
    cache.receive_inputs(client, message(Some(3), vec![input(1, false, true, 0), input(2, false, true, 0)]));
    cache.receive_inputs(ClientId::from_raw(12), message(Some(1), Vec::new()));

    let entry = cache.get(client).unwrap();
    assert_eq!(entry.input_groups.len(), 2);
    assert_eq!(entry.input_groups[0], vec![input(0, true, false, 0)]);
    assert_eq!(entry.input_groups[1], vec![input(1, false, true, 0), input(2, false, true, 0)]);
    assert_eq!(entry.client_latest_processed_snapshot_id, Some(3));
    assert!(entry.latest_processed_input.is_none());

    let other = cache.get(ClientId::from_raw(12)).unwrap();
    assert_eq!(other.input_groups, vec![Vec::new()]);
    assert_eq!(other.client_latest_processed_snapshot_id, Some(1));
    assert!(cache.get(ClientId::from_raw(13)).is_none());
}

#[test]
fn a_stale_acknowledgement_is_dropped() {
    let mut entry = PlayerInputCacheEntry::new();
    entry.receive(message(Some(5), Vec::new()));
    assert_eq!(entry.client_latest_processed_snapshot_id, Some(5));
    entry.receive(message(Some(3), Vec::new()));
    assert_eq!(entry.client_latest_processed_snapshot_id, Some(5));
    entry.receive(message(Some(5), Vec::new()));
    assert_eq!(entry.client_latest_processed_snapshot_id, Some(5));
    entry.receive(message(None, Vec::new()));
    assert_eq!(entry.client_latest_processed_snapshot_id, Some(5));
    entry.receive(message(Some(6), Vec::new()));
    assert_eq!(entry.client_latest_processed_snapshot_id, Some(6));
    assert_eq!(entry.input_groups.len(), 5);
}

#[test]
fn disconnecting_forgets_the_client() {
    let mut cache = PlayerInputCache::new();
    cache.receive_inputs(ClientId::from_raw(1), message(None, Vec::new()));
    cache.receive_inputs(ClientId::from_raw(2), message(Some(4), Vec::new()));
    cache.disconnect(ClientId::from_raw(1));
    assert!(cache.get(ClientId::from_raw(1)).is_none());
    assert_eq!(cache.get(ClientId::from_raw(2)).unwrap().client_latest_processed_snapshot_id, Some(4));
    cache.disconnect(ClientId::from_raw(1));
    assert!(cache.get(ClientId::from_raw(1)).is_none());
    assert!(cache.get(ClientId::from_raw(2)).is_some());
    cache.disconnect(ClientId::from_raw(99));
    assert!(cache.get(ClientId::from_raw(2)).is_some());
}

#[test]
fn the_tick_moves_the_bodies_of_clients_with_an_entry() {
    let mut cache = PlayerInputCache::new();
    cache.receive_inputs(ClientId::from_raw(2), message(None, vec![input(0, true, false, 0)]));
    cache.receive_inputs(ClientId::from_raw(3), message(None, vec![input(0, false, true, 0)]));
    let mut world = vec![
        body(0, v(0.0, 0.0, 0.0), v(1.0, 0.0, 0.0)),
        body(2, v(0.0, 0.0, 0.0), v(0.0, 0.0, 0.0)),
        body(3, v(0.0, 0.0, 0.0), v(0.0, 0.0, 0.0)),
    ];
    cache.process_inputs(&mut world, &integrate);

    assert_eq!(world[0].translation, v(0.0, 0.0, 0.0));
    assert_eq!(world[0].character.velocity, v(1.0, 0.0, 0.0));
    assert_eq!(floats(world[1].character.velocity), V3::new(0.0, 0.0, -0.625));
    assert_eq!(floats(world[1].translation), V3::new(0.0, 0.0, -0.009765625));
    assert_eq!(floats(world[2].character.velocity), V3::new(0.625, 0.0, 0.0));
    assert_eq!(floats(world[2].translation), V3::new(0.009765625, 0.0, 0.0));

    for raw in [2u64, 3] {
        let entry = cache.get(ClientId::from_raw(raw)).unwrap();
        assert!(entry.input_groups.is_empty());
        assert_eq!(entry.latest_processed_input.unwrap().id, 0);
    }
    assert_eq!(cache.get(ClientId::from_raw(2)).unwrap().latest_processed_input.unwrap().final_translation, world[1].translation);
    assert!(cache.get(ClientId::from_raw(0)).is_none());

    let before = world.clone();
    cache.process_inputs(&mut world, &integrate);
    assert_eq!(world[0].translation, before[0].translation);
    assert_ne!(world[1].translation, before[1].translation);
    assert_eq!(cache.get(ClientId::from_raw(2)).unwrap().latest_processed_input.unwrap().final_translation, world[1].translation);
}

#[test]
fn every_client_with_an_entry_is_sent_a_snapshot() {
    let mut cache = PlayerInputCache::new();
    let mut history = SnapshotHistory::new();
    cache.receive_inputs(ClientId::from_raw(2), message(None, vec![input(8, true, false, 0)]));
    cache.receive_inputs(ClientId::from_raw(3), message(None, Vec::new()));
    let mut world = vec![body(2, v(0.0, 0.0, 0.0), v(0.0, 0.0, 0.0)), body(3, v(4.0, 0.0, 0.0), v(0.0, 0.0, 0.0))];
    cache.process_inputs(&mut world, &integrate);
    let clients = vec![ClientId::from_raw(3), ClientId::from_raw(5), ClientId::from_raw(2)];

    let sent = cache.snapshot_send(&world, &clients, &mut history, 1000);

    assert_eq!(sent.len(), 2);
    assert_eq!(sent[0].0, ClientId::from_raw(3));
    assert_eq!(sent[1].0, ClientId::from_raw(2));
    let full = vec![
        CharacterSnapshot { client_id: 2, translation: Some(world[0].translation), velocity: Some(world[0].character.velocity) },
        CharacterSnapshot { client_id: 3, translation: Some(world[1].translation), velocity: Some(world[1].character.velocity) },
    ];
    for (_, message) in &sent {
        assert_eq!(snapshot_of(message).id, 0);
        assert_eq!(snapshot_of(message).character_snapshots, full);
    }
    assert_eq!(snapshot_of(&sent[0].1).latest_processed_input_id, None);
    assert_eq!(snapshot_of(&sent[1].1).latest_processed_input_id, Some(8));

    assert_eq!(history.next_id, 1);
    assert_eq!(history.snapshots.len(), 1);
    assert_eq!(history.snapshots[0].id, 0);
    assert_eq!(history.snapshots[0].timestamp, 1000);
    assert_eq!(history.snapshots[0].latest_processed_input_id, None);
    assert_eq!(history.snapshots[0].character_snapshots, full);
}

#[test]
fn a_client_that_acknowledged_a_kept_snapshot_is_sent_a_diff() {
    let mut cache = PlayerInputCache::new();
    let mut history = SnapshotHistory::new();
    let clients = vec![ClientId::from_raw(2), ClientId::from_raw(3)];
    let mut world = vec![body(2, v(0.0, 0.0, 0.0), v(0.0, 0.0, 0.0)), body(3, v(4.0, 0.0, 0.0), v(0.0, 0.0, 0.0))];
    cache.receive_inputs(ClientId::from_raw(2), message(None, Vec::new()));
    cache.receive_inputs(ClientId::from_raw(3), message(None, Vec::new()));
    cache.process_inputs(&mut world, &integrate);
    let first = cache.snapshot_send(&world, &clients, &mut history, 1000);
    assert_eq!(snapshot_of(&first[0].1).character_snapshots.len(), 2);

    cache.receive_inputs(ClientId::from_raw(2), message(Some(0), vec![input(0, true, false, 0)]));
    cache.process_inputs(&mut world, &integrate);
    let second = cache.snapshot_send(&world, &clients, &mut history, 1016);

    let to_acker = snapshot_of(&second[0].1);
    assert_eq!(to_acker.id, 1);
    assert_eq!(to_acker.latest_processed_input_id, Some(0));
    assert_eq!(
        to_acker.character_snapshots,
        vec![CharacterSnapshot {
            client_id: 2,
            translation: Some(world[0].translation),
            velocity: Some(world[0].character.velocity),
        }]
    );
    let to_other = snapshot_of(&second[1].1);
    assert_eq!(to_other.id, 1);
    assert_eq!(to_other.latest_processed_input_id, None);
    assert_eq!(to_other.character_snapshots.len(), 2);
    assert_eq!(history.next_id, 2);
    assert_eq!(history.snapshots.len(), 2);
    assert_eq!(history.snapshots[1].character_snapshots.len(), 2);
    assert_eq!(history.snapshots[1].latest_processed_input_id, None);
}

#[test]
fn nothing_changed_since_the_acknowledged_snapshot_means_an_empty_diff() {
    let mut cache = PlayerInputCache::new();
    let mut history = SnapshotHistory::new();
    history.next_id = 5;
    let clients = vec![ClientId::from_raw(2)];
    let world = vec![body(2, v(0.0, 0.0, 0.0), v(0.0, 0.0, 0.0))];
    cache.receive_inputs(ClientId::from_raw(2), message(None, Vec::new()));
    let fifth = cache.snapshot_send(&world, &clients, &mut history, 1000);
    assert_eq!(snapshot_of(&fifth[0].1).id, 5);
    assert_eq!(history.snapshots[0].id, 5);
    assert_eq!(history.snapshots[0].character_snapshots[0].translation, Some(v(0.0, 0.0, 0.0)));

    cache.receive_inputs(ClientId::from_raw(2), message(Some(5), Vec::new()));
    let mut unchanged = world.clone();
    cache.process_inputs(&mut unchanged, &integrate);
    assert_eq!(unchanged[0].translation, v(0.0, 0.0, 0.0));
    let sixth = cache.snapshot_send(&unchanged, &clients, &mut history, 1016);
    assert_eq!(snapshot_of(&sixth[0].1).id, 6);
    assert_eq!(snapshot_of(&sixth[0].1).character_snapshots.len(), 0);
}

#[test]
fn an_acknowledged_snapshot_that_has_grown_old_means_a_full_snapshot() {
    let mut cache = PlayerInputCache::new();
    let mut history = SnapshotHistory::new();
    let clients = vec![ClientId::from_raw(2)];
    let world = vec![body(2, v(0.0, 0.0, 0.0), v(0.0, 0.0, 0.0))];
    cache.receive_inputs(ClientId::from_raw(2), message(None, Vec::new()));
    cache.snapshot_send(&world, &clients, &mut history, 1000);
    cache.receive_inputs(ClientId::from_raw(2), message(Some(0), Vec::new()));

    let late = cache.snapshot_send(&world, &clients, &mut history, 2000);
    assert_eq!(snapshot_of(&late[0].1).id, 1);
    assert_eq!(snapshot_of(&late[0].1).character_snapshots.len(), 1);
    let ids: Vec<u32> = history.snapshots.iter().map(|s| s.id).collect();
    assert_eq!(ids, vec![1]);

    cache.receive_inputs(ClientId::from_raw(2), message(Some(9), Vec::new()));
    let unknown = cache.snapshot_send(&world, &clients, &mut history, 2016);
    assert_eq!(snapshot_of(&unknown[0].1).character_snapshots.len(), 1);
}

#[test]
fn a_newcomer_is_told_of_everyone_and_everyone_of_the_newcomer() {
    let mut cache = PlayerInputCache::new();
    let mut world = vec![body(0, v(1.0, 0.0, 2.0), v(0.0, 0.0, -1.0)), body(4, v(3.0, 0.0, 0.0), v(0.0, 0.0, 0.0))];
    let welcome = cache.connect(&mut world, ClientId::from_raw(9));
    assert_eq!(welcome.to_everyone, ReliableServerMessage::SpawnCharacter(9, v(0.0, 0.0, 0.0), v(0.0, 0.0, 0.0)));
    assert_eq!(
        welcome.to_newcomer,
        vec![
            ReliableServerMessage::SpawnCharacter(0, v(1.0, 0.0, 2.0), v(0.0, 0.0, -1.0)),
            ReliableServerMessage::SpawnCharacter(4, v(3.0, 0.0, 0.0), v(0.0, 0.0, 0.0)),
        ]
    );
    assert_eq!(world.len(), 3);
    assert_eq!(world[2].character.owner_client_id, ClientId::from_raw(9));
    assert_eq!(world[2].translation, v(0.0, 0.0, 0.0));
    assert_eq!(world[2].character.velocity, v(0.0, 0.0, 0.0));
    assert_eq!(world[2].character.move_speed.bits, 5.0f32.to_bits());
    assert_eq!(world[2].character.move_accel.bits, 8.0f32.to_bits());
    assert_eq!(world[2].character.move_friction.bits, 8.0f32.to_bits());
    assert_eq!(world[0].translation, v(1.0, 0.0, 2.0));
}

#[test]
fn the_first_to_connect_is_told_of_nobody_else() {
    let mut cache = PlayerInputCache::new();
    let mut world = Vec::new();
    let welcome = cache.connect(&mut world, ClientId::from_raw(1));
    assert!(welcome.to_newcomer.is_empty());
    assert_eq!(welcome.to_everyone, ReliableServerMessage::SpawnCharacter(1, v(0.0, 0.0, 0.0), v(0.0, 0.0, 0.0)));
    assert_eq!(world.len(), 1);
}

#[test]
fn connecting_starts_an_entry() {
    let mut cache = PlayerInputCache::new();
    let mut world = Vec::new();
    assert!(cache.get(ClientId::from_raw(1)).is_none());
    cache.connect(&mut world, ClientId::from_raw(1));
    let entry = cache.get(ClientId::from_raw(1)).unwrap();
    assert!(entry.input_groups.is_empty());
    assert!(entry.latest_processed_input.is_none());
    assert_eq!(entry.client_latest_processed_snapshot_id, None);
    assert!(cache.get(ClientId::from_raw(2)).is_none());

    cache.receive_inputs(ClientId::from_raw(1), message(Some(3), vec![input(0, true, false, 0)]));
    cache.connect(&mut world, ClientId::from_raw(1));
    let entry = cache.get(ClientId::from_raw(1)).unwrap();
    assert_eq!(entry.input_groups.len(), 1);
    assert_eq!(entry.client_latest_processed_snapshot_id, Some(3));
    assert_eq!(world.len(), 2);
}

#[test]
fn a_client_that_has_only_connected_is_sent_the_full_snapshot() {
    let mut cache = PlayerInputCache::new();
    let mut history = SnapshotHistory::new();
    let mut world = vec![body(0, v(1.0, 0.0, 2.0), v(0.0, 0.0, -1.0))];
    cache.connect(&mut world, ClientId::from_raw(6));
    cache.process_inputs(&mut world, &integrate);
    assert_eq!(world[1].translation, v(0.0, 0.0, 0.0));
    let sent = cache.snapshot_send(&world, &vec![ClientId::from_raw(6)], &mut history, 1000);
    assert_eq!(sent.len(), 1);
    assert_eq!(sent[0].0, ClientId::from_raw(6));
    assert_eq!(snapshot_of(&sent[0].1).character_snapshots.len(), 2);
    assert_eq!(snapshot_of(&sent[0].1).latest_processed_input_id, None);
}

#[test]
fn the_authority_and_the_prediction_agree_on_a_tick() {
    let group = vec![input(0, true, false, 0), input(1, true, true, 0), input(2, false, true, 0)];
    let start = body(7, v(1.0, 0.0, 1.0), v(0.5, 0.0, 0.0));

    let mut history = rollback_netcode::history::InputHistory::new();
    history.input_group_for_next_fixed_tick = group.clone();
    let mut predicted = start;
    assert!(history.apply_inputs(&mut predicted, &integrate));

    let mut entry = PlayerInputCacheEntry::new();
    entry.receive(history.outgoing());
    let mut authoritative = start;
    entry.step(&mut authoritative, &integrate);

    assert_eq!(authoritative.translation, predicted.translation);
    assert_eq!(authoritative.character.velocity, predicted.character.velocity);
    assert_ne!(authoritative.translation, start.translation);
    assert_eq!(entry.latest_processed_input, history.inputs_for_next_send.last().copied());
}

#[test]
fn the_defaults_are_empty() {
    let entry = PlayerInputCacheEntry::default();
    assert_eq!(entry, PlayerInputCacheEntry::new());
    assert!(entry.input_groups.is_empty());
    assert!(entry.latest_processed_input.is_none());
    assert!(entry.client_latest_processed_snapshot_id.is_none());
    let cache = PlayerInputCache::default();
    assert!(cache.get(ClientId::from_raw(0)).is_none());
    let history = SnapshotHistory::default();
    assert_eq!(history, SnapshotHistory::new());
    assert_eq!(history.next_id, 0);
}
