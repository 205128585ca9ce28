use elevator::control::{arrived, command_for, decide, Thrust};
use elevator::motion::{acceleration_of, step, ActuatorCommand, KinematicState};

#[test]
fn starts_upward_toward_a_floor_above() {
    assert_eq!(decide(0, 0, 9_000_000), Thrust::Up);
}

#[test]
fn starts_downward_toward_a_floor_below() {
    assert_eq!(decide(9_000_000, 0, 0), Thrust::Down);
}

#[test]
fn coasts_at_cruise_speed_toward_goal() {
    assert_eq!(decide(0, 5_000_000, 9_000_000), Thrust::Coast);
    assert_eq!(decide(8_999_000, 6_000_000, 9_000_000), Thrust::Coast);
    assert_eq!(decide(9_000_000, -5_000_000, 0), Thrust::Coast);
}

#[test]
fn turns_around_at_cruise_speed_away_from_goal() {
    assert_eq!(decide(0, -5_000_000, 9_000_000), Thrust::Up);
    assert_eq!(decide(9_000_000, 5_000_000, 0), Thrust::Down);
}

#[test]
fn brakes_within_braking_distance() {
    // Braking from 2 m/s at 1 m/s^2 covers 2 m; 1 m remains.
    assert_eq!(decide(8_000_000, 2_000_000, 9_000_000), Thrust::Down);
    // The braking distance keeps the sign of the velocity, so moving down it
    // is negative and the braking branch does not fire.
    assert_eq!(decide(1_000_000, -2_000_000, 0), Thrust::Down);
    // 9 m remain: keep accelerating.
    assert_eq!(decide(0, 2_000_000, 9_000_000), Thrust::Up);
    // Exactly at the braking distance: not yet.
    assert_eq!(decide(7_000_000, 2_000_000, 9_000_000), Thrust::Up);
}

#[test]
fn commands_cancel_gravity_and_add_the_step() {
    assert_eq!(command_for(&Thrust::Up), ActuatorCommand { up_voltage: 1_620_000_000, down_voltage: 0 });
    assert_eq!(command_for(&Thrust::Coast), ActuatorCommand { up_voltage: 1_470_000_000, down_voltage: 0 });
    assert_eq!(command_for(&Thrust::Down), ActuatorCommand { up_voltage: 1_320_000_000, down_voltage: 0 });
}

#[test]
fn commands_produce_their_acceleration() {
    assert_eq!(acceleration_of(&command_for(&Thrust::Up)), 1_000_000);
    assert_eq!(acceleration_of(&command_for(&Thrust::Coast)), 0);
    assert_eq!(acceleration_of(&command_for(&Thrust::Down)), -1_000_000);
    assert_eq!(acceleration_of(&ActuatorCommand::idle()), -9_800_000);
    assert_eq!(acceleration_of(&ActuatorCommand { up_voltage: 0, down_voltage: 150_000_000 }), -10_800_000);
}

#[test]
fn step_integrates_velocity_then_location() {
    let s = KinematicState { location: 0, velocity: 0, acceleration: 1_000_000 };
    let next = step(&s, &ActuatorCommand::idle(), 10_000).unwrap();
    assert_eq!(next, KinematicState { location: 100, velocity: 10_000, acceleration: -9_800_000 });
    let s = KinematicState { location: 5, velocity: -3, acceleration: -1_000_001 };
    let next = step(&s, &command_for(&Thrust::Up), 1).unwrap();
    // -1_000_001 * 1 / 1_000_000 rounds toward zero to -1.
    assert_eq!(next, KinematicState { location: 5, velocity: -4, acceleration: 1_000_000 });
}

#[test]
fn step_refuses_to_overflow() {
    let s = KinematicState { location: i64::MAX, velocity: 1_000_000, acceleration: 0 };
    assert_eq!(step(&s, &ActuatorCommand::idle(), 1_000_000), None);
    let s = KinematicState { location: 0, velocity: i64::MAX, acceleration: 1_000_000 };
    assert_eq!(step(&s, &ActuatorCommand::idle(), 1_000_000), None);
}

#[test]
fn arrival_needs_both_position_and_speed() {
    let here = KinematicState { location: 3_009_999, velocity: -9_999, acceleration: 0 };
    assert!(arrived(&here, 3_000_000));
    let far = KinematicState { location: 3_010_000, velocity: 0, acceleration: 0 };
    assert!(!arrived(&far, 3_000_000));
    let fast = KinematicState { location: 3_000_000, velocity: 10_000, acceleration: 0 };
    assert!(!arrived(&fast, 3_000_000));
}
