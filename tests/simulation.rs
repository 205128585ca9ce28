use elevator::control::{command_for, Thrust};
use elevator::motion::{ActuatorCommand, KinematicState};
use elevator::simulation::{carriage_floor, filter_requests, Simulation};

fn run_until_done(sim: &mut Simulation, dt: u64, max_ticks: u64) -> u64 {
    let mut ticks: u64 = 0;
    while !sim.requests.is_empty() && ticks < max_ticks {
        assert!(sim.tick(dt));
        ticks += 1;
    }
    ticks
}

#[test]
fn reaches_requested_floor_and_stops() {
    let mut sim = Simulation::new(5, 3_000_000, &vec![3]).unwrap();
    let ticks = run_until_done(&mut sim, 10_000, 100_000);
    assert!(sim.requests.is_empty());
    assert!(ticks < 100_000);
    assert!((sim.state.location - 9_000_000).abs() < 10_000);
    assert_eq!(sim.state.velocity, 0);
    assert_eq!(sim.trajectory.location.len() as u64, ticks);
    assert_eq!(sim.trajectory.voltage.len() as u64, ticks);
}

#[test]
fn serves_several_requests_with_uneven_ticks() {
    let mut sim = Simulation::new(10, 3_000_000, &vec![3, 0, 9, 5]).unwrap();
    let mut ticks: u64 = 0;
    while !sim.requests.is_empty() && ticks < 200_000 {
        assert!(sim.tick(10_000 + (ticks % 7) * 300));
        ticks += 1;
    }
    assert!(sim.requests.is_empty());
    assert!((sim.state.location - 15_000_000).abs() < 10_000);
}

#[test]
fn arrival_pops_request_in_the_same_tick() {
    let mut sim = Simulation::new(5, 3_000_000, &vec![0, 2]).unwrap();
    assert!(sim.tick(10_000));
    assert_eq!(sim.requests, vec![2]);
    assert_eq!(sim.state, KinematicState { location: 0, velocity: 0, acceleration: -9_800_000 });
    // The controller already aims for floor 2.
    assert_eq!(sim.command, command_for(&Thrust::Up));
    assert_eq!(sim.trajectory.voltage, vec![1_620_000_000]);
    assert_eq!(sim.trajectory.location, vec![0]);
}

#[test]
fn last_arrival_leaves_command_unchanged() {
    let mut sim = Simulation::new(3, 3_000_000, &vec![0]).unwrap();
    assert!(sim.tick(10_000));
    assert!(sim.requests.is_empty());
    assert_eq!(sim.command, ActuatorCommand::idle());
    assert_eq!(sim.trajectory.voltage, vec![0]);
}

#[test]
fn floor_is_not_served_twice() {
    let mut sim = Simulation::new(5, 3_000_000, &vec![1, 3]).unwrap();
    let mut served_first = false;
    let mut ticks: u64 = 0;
    while !sim.requests.is_empty() && ticks < 100_000 {
        let before = sim.requests.len();
        assert!(sim.tick(10_000));
        if sim.requests.len() < before {
            if !served_first {
                served_first = true;
                assert_eq!(sim.requests, vec![3]);
                assert!((sim.state.location - 3_000_000).abs() < 10_000);
            } else {
                assert!((sim.state.location - 9_000_000).abs() < 10_000);
            }
        }
        ticks += 1;
    }
    assert!(served_first);
    assert!(sim.requests.is_empty());
}

#[test]
fn out_of_range_requests_are_dropped() {
    let sim = Simulation::new(5, 3_000_000, &vec![3, 5, 4, 7, 0]).unwrap();
    assert_eq!(sim.requests, vec![3, 4, 0]);
    let sim = Simulation::new(1, 3_000_000, &vec![1, 0, 1]).unwrap();
    assert_eq!(sim.requests, vec![0]);
    assert_eq!(filter_requests(&vec![2, 9, 2], 3), vec![2, 2]);
    assert_eq!(filter_requests(&vec![], 3), Vec::<u64>::new());
}

#[test]
fn building_must_be_representable() {
    assert!(Simulation::new(0, 3_000_000, &vec![0]).is_none());
    assert!(Simulation::new(5, 0, &vec![0]).is_none());
    assert!(Simulation::new(u64::MAX, 2, &vec![0]).is_none());
    assert!(Simulation::new(2, i64::MAX as u64, &vec![0]).is_none());
    assert!(Simulation::new(1, i64::MAX as u64, &vec![0]).is_some());
}

#[test]
fn new_simulation_starts_at_rest() {
    let sim = Simulation::new(4, 2_500_000, &vec![2]).unwrap();
    assert_eq!(sim.state, KinematicState::at_rest());
    assert_eq!(sim.command, ActuatorCommand::idle());
    assert!(sim.trajectory.location.is_empty());
}

#[test]
fn tick_that_overflows_changes_nothing() {
    let mut sim = Simulation::new(5, 3_000_000, &vec![3]).unwrap();
    sim.state = KinematicState { location: i64::MAX, velocity: 1_000_000, acceleration: 0 };
    assert!(!sim.tick(1_000_000));
    assert_eq!(sim.state.location, i64::MAX);
    assert_eq!(sim.requests, vec![3]);
    assert!(sim.trajectory.location.is_empty());
}

#[test]
fn carriage_floor_is_clamped() {
    assert_eq!(carriage_floor(-5, 3_000_000, 5), 0);
    assert_eq!(carriage_floor(0, 3_000_000, 5), 0);
    assert_eq!(carriage_floor(8_999_999, 3_000_000, 5), 2);
    assert_eq!(carriage_floor(9_000_000, 3_000_000, 5), 3);
    assert_eq!(carriage_floor(100_000_000, 3_000_000, 5), 4);
}
