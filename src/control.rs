use vstd::prelude::*;
use crate::motion::{
    abs_int, command_acceleration, ActuatorCommand, KinematicState, ACTUATOR_GAIN, CABIN_MASS,
    GRAVITY,
};

verus! {

/// Magnitude of the commanded acceleration step, in micrometres per second squared.
pub const STEP_ACCELERATION: i64 = 1_000_000;

/// Speed at which the controller stops accelerating, in micrometres per second.
pub const CRUISE_SPEED: i64 = 5_000_000;

/// Largest distance (micrometres) and speed (micrometres per second) below
/// which the cabin counts as stopped at a floor.
pub const ARRIVAL_TOLERANCE: i64 = 10_000;

/// The three modes of the bang-bang controller.
#[derive(Clone, Copy, Debug, PartialEq, Eq, Structural)]
pub enum Thrust {
    /// Accelerate upward.
    Up,
    /// Accelerate downward.
    Down,
    /// No acceleration: the actuator just cancels gravity.
    Coast,
}

impl Thrust {
    pub open spec fn accel(self) -> int {
        match self {
            Thrust::Up => STEP_ACCELERATION as int,
            Thrust::Down => -STEP_ACCELERATION,
            Thrust::Coast => 0,
        }
    }

    /// The commanded acceleration of this mode.
    pub fn acceleration(&self) -> (r: i64)
        ensures
            r == self.accel(),
    {
        match self {
            Thrust::Up => STEP_ACCELERATION,
            Thrust::Down => -STEP_ACCELERATION,
            Thrust::Coast => 0,
        }
    }
}

/// Full thrust toward the goal.
pub open spec fn toward(going_up: bool) -> Thrust {
    if going_up { Thrust::Up } else { Thrust::Down }
}

/// Full thrust away from the goal, to brake.
pub open spec fn away(going_up: bool) -> Thrust {
    if going_up { Thrust::Down } else { Thrust::Up }
}

/// Whether the cabin would overshoot the goal if it began braking now:
/// braking from speed |v| at the step acceleration takes |v| / step seconds,
/// during which the cabin covers v / 2 per second, so the signed braking
/// distance is |v| * v / (2 * step).
pub open spec fn within_braking_distance(distance: int, velocity: int) -> bool {
    2 * STEP_ACCELERATION * distance < abs_int(velocity) * velocity
}

/// The control law: the mode chosen from location, velocity and the goal
/// location.
pub open spec fn decide_spec(location: int, velocity: int, goal: int) -> Thrust {
    let going_up = location < goal;
    let distance = abs_int(location - goal);
    if abs_int(velocity) >= CRUISE_SPEED {
        if (going_up && velocity > 0) || (!going_up && velocity < 0) {
            Thrust::Coast
        } else {
            toward(going_up)
        }
    } else if within_braking_distance(distance, velocity) && going_up == (velocity > 0) {
        away(going_up)
    } else {
        toward(going_up)
    }
}

/// Chooses the controller's mode for the cabin at `location` with `velocity`,
/// heading for the floor at `goal`.
pub fn decide(location: i64, velocity: i64, goal: i64) -> (r: Thrust)
    ensures
        r == decide_spec(location as int, velocity as int, goal as int),
{
    let going_up = location < goal;
    let distance: i128 = if going_up {
        goal as i128 - location as i128
    } else {
        location as i128 - goal as i128
    };
    let speed: i128 = if velocity < 0 { -(velocity as i128) } else { velocity as i128 };
    let v: i128 = velocity as i128;
    assert(-0x4000_0000_0000_0000_0000_0000_0000_0000 <= speed * v <= 0x4000_0000_0000_0000_0000_0000_0000_0000) by (nonlinear_arith)
        requires
            0 <= speed <= 0x8000_0000_0000_0000,
            -0x8000_0000_0000_0000 <= v <= 0x7fff_ffff_ffff_ffff,
    ;
    assert(0 <= distance <= 0x1_0000_0000_0000_0000);
    let braking: i128 = 2_000_000 * distance;
    assert(braking == 2 * STEP_ACCELERATION * distance);
    if speed >= CRUISE_SPEED as i128 {
        if (going_up && velocity > 0) || (!going_up && velocity < 0) {
            Thrust::Coast
        } else if going_up {
            Thrust::Up
        } else {
            Thrust::Down
        }
    } else if braking < speed * v && going_up == (velocity > 0) {
        if going_up {
            Thrust::Down
        } else {
            Thrust::Up
        }
    } else if going_up {
        Thrust::Up
    } else {
        Thrust::Down
    }
}

/// Voltage, in millivolts, that makes the cabin accelerate by `accel`:
/// gravity is cancelled and the step added, the force is mass times that
/// acceleration, and the voltage is force over gain.
pub open spec fn target_voltage(accel: int) -> int {
    CABIN_MASS * (accel + GRAVITY) / (ACTUATOR_GAIN * 1000)
}

/// The command for a mode: a positive voltage drives up, otherwise its
/// magnitude drives down.
pub open spec fn command_spec(t: Thrust) -> ActuatorCommand {
    let v = target_voltage(t.accel());
    if v > 0 {
        ActuatorCommand { up_voltage: v as u64, down_voltage: 0 }
    } else {
        ActuatorCommand { up_voltage: 0, down_voltage: (-v) as u64 }
    }
}

/// Turns a mode into the actuator command that produces it.
pub fn command_for(t: &Thrust) -> (r: ActuatorCommand)
    ensures
        r == command_spec(*t),
        r.up_voltage == 0 || r.down_voltage == 0,
        r.up_voltage <= i64::MAX && r.down_voltage <= i64::MAX,
        command_acceleration(r) == t.accel(),
{
    let accel: i64 = t.acceleration();
    let gravity_adjusted: i64 = accel + GRAVITY;
    let force_required: i64 = CABIN_MASS * gravity_adjusted;
    let voltage: i64 = force_required / (ACTUATOR_GAIN * 1000);
    if voltage > 0 {
        ActuatorCommand { up_voltage: voltage as u64, down_voltage: 0 }
    } else {
        ActuatorCommand { up_voltage: 0, down_voltage: (-voltage) as u64 }
    }
}

/// Whether the cabin is stopped at the goal location.
pub open spec fn arrived_spec(s: KinematicState, goal: int) -> bool {
    abs_int(s.location - goal) < ARRIVAL_TOLERANCE && abs_int(s.velocity as int) < ARRIVAL_TOLERANCE
}

/// Tests whether the cabin has arrived at the goal location.
pub fn arrived(s: &KinematicState, goal: i64) -> (r: bool)
    ensures
        r == arrived_spec(*s, goal as int),
{
    let gap: i128 = s.location as i128 - goal as i128;
    let v: i128 = s.velocity as i128;
    let tol: i128 = ARRIVAL_TOLERANCE as i128;
    -tol < gap && gap < tol && -tol < v && v < tol
}

/// Starting from rest below the goal, the controller accelerates upward.
pub proof fn lemma_starts_toward_goal_above(location: int, goal: int)
    requires
        location < goal,
    ensures
        decide_spec(location, 0, goal) == Thrust::Up,
{
}

/// At or above cruise speed and moving toward the goal, the controller
/// coasts, however far the goal is.
pub proof fn lemma_cruise_cap(location: int, velocity: int, goal: int)
    requires
        abs_int(velocity) >= CRUISE_SPEED,
        (location < goal && velocity > 0) || (location >= goal && velocity < 0),
    ensures
        decide_spec(location, velocity, goal) == Thrust::Coast,
{
}

} // verus!
