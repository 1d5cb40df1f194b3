use bevy::math::Vec3 as V3;
use bevy_renet::renet::ClientId;
use rollback_netcode::identity::LocalPlayer;
use rollback_netcode::movement::Character;
use rollback_netcode::scalar::{Scalar, Vec3};
use rollback_netcode::visuals::{CharacterVisuals, Divergence, Drift, SMOOTH_CORRECTION_DISTANCE_THRESHOLD_BITS};

const TICK: f32 = 1.0 / 64.0;

fn v(x: f32, y: f32, z: f32) -> Vec3 {
    Vec3::from_bits(x.to_bits(), y.to_bits(), z.to_bits())
}

fn bits(vector: V3) -> Vec3 {
    v(vector.x, vector.y, vector.z)
}

fn floats(vector: Vec3) -> V3 {
    V3::new(f32::from_bits(vector.x.bits), f32::from_bits(vector.y.bits), f32::from_bits(vector.z.bits))
}

fn ahead(drift: Drift) -> Vec3 {
    bits(floats(drift.from) + floats(drift.velocity) * TICK * f32::from_bits(drift.fraction.bits))
}

fn s(value: f32) -> Scalar {
    Scalar::from_bits(value.to_bits())
}

fn distance(pair: (Vec3, Vec3)) -> Scalar {
    Scalar::from_bits(floats(pair.0).distance(floats(pair.1)).to_bits())
}

fn quarter_of_the_way(divergence: Divergence) -> Vec3 {
    bits(floats(divergence.rendered).lerp(floats(divergence.simulated), 0.25))
}

fn character(owner: u64, velocity: Vec3) -> Character {
    Character::new(ClientId::from_raw(owner), velocity)
}

fn player(raw: u64) -> LocalPlayer {
    LocalPlayer { client_id: ClientId::from_raw(raw) }
}

#[test]
fn new_visuals_start_at_the_spawn_position() {
    let visuals = CharacterVisuals::new(ClientId::from_raw(3), v(1.0, 2.0, 3.0));
    assert_eq!(visuals.owner_client_id, ClientId::from_raw(3));
    assert_eq!(visuals.last_physics_translation, v(1.0, 2.0, 3.0));
}

#[test]
fn the_entity_is_drawn_ahead_of_the_sample() {
    let visuals = CharacterVisuals::new(ClientId::from_raw(3), v(1.0, 0.0, 0.0));
    let mut rendered = v(9.0, 9.0, 9.0);
    visuals.extrapolate(&character(3, v(2.0, 0.0, -4.0)), &mut rendered, s(0.5), &ahead);
    assert_eq!(rendered, v(1.015625, 0.0, -0.03125));
    assert_eq!(visuals.last_physics_translation, v(1.0, 0.0, 0.0));
}

#[test]
fn no_more_than_one_tick_is_extrapolated() {
    let visuals = CharacterVisuals::new(ClientId::from_raw(3), v(1.0, 0.0, 0.0));
    let moving = character(3, v(2.0, 0.0, -4.0));
    for (elapsed, expected) in [
        (0.0f32, v(1.0, 0.0, 0.0)),
        (-0.0, v(1.0, 0.0, 0.0)),
        (-3.0, v(1.0, 0.0, 0.0)),
        (f32::NEG_INFINITY, v(1.0, 0.0, 0.0)),
        (0.25, v(1.0078125, 0.0, -0.015625)),
        (1.0, v(1.03125, 0.0, -0.0625)),
        (1.5, v(1.03125, 0.0, -0.0625)),
        (f32::INFINITY, v(1.03125, 0.0, -0.0625)),
    ] {
        let mut rendered = v(9.0, 9.0, 9.0);
        visuals.extrapolate(&moving, &mut rendered, s(elapsed), &ahead);
        assert!(rendered.float_eq(expected), "{elapsed}");
    }
}

#[test]
fn the_fraction_handed_on_is_clamped_as_the_hardware_clamps() {
    for elapsed in [0.0f32, -0.0, -3.0, 0.25, 1.0, 1.5, f32::MIN_POSITIVE, -f32::MIN_POSITIVE, f32::INFINITY, f32::NEG_INFINITY, f32::NAN] {
        let seen = std::cell::Cell::new(None);
        let watching = |drift: Drift| {
            seen.set(Some(drift.fraction));
            drift.from
        };
        let visuals = CharacterVisuals::new(ClientId::from_raw(3), v(1.0, 0.0, 0.0));
        let mut rendered = v(9.0, 9.0, 9.0);
        visuals.extrapolate(&character(3, v(2.0, 0.0, -4.0)), &mut rendered, s(elapsed), &watching);
        assert_eq!(seen.get().unwrap().bits, elapsed.clamp(0.0, 1.0).to_bits(), "{elapsed}");
        assert_eq!(s(elapsed).clamp_unit().bits, elapsed.clamp(0.0, 1.0).to_bits(), "{elapsed}");
    }
}

#[test]
fn a_velocity_that_is_not_finite_holds_the_drawn_position() {
    let visuals = CharacterVisuals::new(ClientId::from_raw(3), v(1.0, 0.0, 0.0));
    for velocity in [
        v(f32::NAN, 0.0, 0.0),
        v(0.0, f32::INFINITY, 0.0),
        v(0.0, 0.0, f32::NEG_INFINITY),
        v(f32::NAN, f32::NAN, f32::NAN),
    ] {
        let mut rendered = v(9.0, 9.0, 9.0);
        visuals.extrapolate(&character(3, velocity), &mut rendered, s(0.5), &ahead);
        assert_eq!(rendered, v(9.0, 9.0, 9.0));
    }
    let mut rendered = v(9.0, 9.0, 9.0);
    visuals.extrapolate(&character(3, v(f32::MAX, 0.0, 0.0)), &mut rendered, s(0.5), &ahead);
    assert_ne!(rendered, v(9.0, 9.0, 9.0));
}

#[test]
fn entities_of_others_are_sampled_where_the_simulation_has_them() {
    let mut visuals = CharacterVisuals::new(ClientId::from_raw(3), v(0.0, 0.0, 0.0));
    visuals.post_fixed(
        &character(3, v(0.0, 0.0, 0.0)),
        &v(4.0, 0.0, 0.0),
        &v(1.0, 0.0, 0.0),
        &player(8),
        &distance,
        &quarter_of_the_way,
    );
    assert_eq!(visuals.last_physics_translation, v(4.0, 0.0, 0.0));
    assert_eq!(visuals.owner_client_id, ClientId::from_raw(3));
}

#[test]
fn the_authority_samples_its_own_entity_where_the_simulation_has_it() {
    let mut visuals = CharacterVisuals::new(ClientId::from_raw(0), v(0.0, 0.0, 0.0));
    visuals.post_fixed(
        &character(0, v(0.0, 0.0, 0.0)),
        &v(4.0, 0.0, 0.0),
        &v(1.0, 0.0, 0.0),
        &LocalPlayer::authority(),
        &distance,
        &quarter_of_the_way,
    );
    assert_eq!(visuals.last_physics_translation, v(4.0, 0.0, 0.0));
}

#[test]
fn a_client_eases_its_own_entity_towards_the_simulation() {
    let mut visuals = CharacterVisuals::new(ClientId::from_raw(8), v(0.0, 0.0, 0.0));
    visuals.post_fixed(
        &character(8, v(0.0, 0.0, 0.0)),
        &v(4.0, 0.0, 0.0),
        &v(1.0, 0.0, 0.0),
        &player(8),
        &distance,
        &quarter_of_the_way,
    );
    assert_eq!(visuals.last_physics_translation, v(1.75, 0.0, 0.0));
}

#[test]
fn easing_is_handed_the_measured_distance() {
    let seen = std::cell::Cell::new(None);
    let watching = |divergence: Divergence| {
        seen.set(Some(divergence));
        divergence.simulated
    };
    let mut visuals = CharacterVisuals::new(ClientId::from_raw(8), v(0.0, 0.0, 0.0));
    visuals.post_fixed(&character(8, v(0.0, 0.0, 0.0)), &v(4.0, 0.0, 0.0), &v(1.0, 0.0, 0.0), &player(8), &distance, &watching);
    assert_eq!(
        seen.get(),
        Some(Divergence { rendered: v(1.0, 0.0, 0.0), simulated: v(4.0, 0.0, 0.0), distance: Scalar::from_bits(3.0f32.to_bits()) })
    );
}

#[test]
fn easing_starts_above_a_thousandth() {
    for apart in [0.0f32, -0.0, 0.0005, 0.001, 0.0010001, 3.0, -3.0, f32::INFINITY, f32::NAN] {
        assert_eq!(CharacterVisuals::needs_easing(Scalar::from_bits(apart.to_bits())), apart > 0.001, "{apart}");
    }
}

#[test]
fn a_small_divergence_is_not_eased() {
    assert_eq!(SMOOTH_CORRECTION_DISTANCE_THRESHOLD_BITS, 0.001f32.to_bits());
    for (apart, eased) in [
        (0.0f32, false),
        (0.0005, false),
        (0.001, false),
        (f32::from_bits(0.001f32.to_bits() + 1), true),
        (0.5, true),
        (f32::NAN, false),
    ] {
        let fixed = |_: (Vec3, Vec3)| Scalar::from_bits(apart.to_bits());
        let mut visuals = CharacterVisuals::new(ClientId::from_raw(8), v(0.0, 0.0, 0.0));
        visuals.post_fixed(
            &character(8, v(0.0, 0.0, 0.0)),
            &v(4.0, 0.0, 0.0),
            &v(0.0, 0.0, 0.0),
            &player(8),
            &fixed,
            &quarter_of_the_way,
        );
        let expected = if eased { v(1.0, 0.0, 0.0) } else { v(4.0, 0.0, 0.0) };
        assert_eq!(visuals.last_physics_translation, expected, "{apart}");
    }
}
