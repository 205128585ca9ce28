use vstd::prelude::*;

verus! {

/// Micrometres in a metre (and microseconds in a second).
pub const MICRO: i64 = 1_000_000;

/// Gravitational acceleration, in micrometres per second squared.
pub const GRAVITY: i64 = 9_800_000;

/// Mass of a fully loaded cabin, in kilograms.
pub const CABIN_MASS: i64 = 1_200_000;

/// Newtons of force per volt of actuator command.
pub const ACTUATOR_GAIN: i64 = 8;

/// Position, velocity and acceleration of the cabin.
#[derive(Clone, Copy, Debug, PartialEq, Eq, Structural)]
pub struct KinematicState {
    /// Micrometres above the floor-0 datum.
    pub location: i64,
    /// Micrometres per second, positive upward.
    pub velocity: i64,
    /// Micrometres per second squared, positive upward.
    pub acceleration: i64,
}

/// Voltages applied to the actuator, in millivolts. At most one is non-zero.
#[derive(Clone, Copy, Debug, PartialEq, Eq, Structural)]
pub struct ActuatorCommand {
    pub up_voltage: u64,
    pub down_voltage: u64,
}

impl KinematicState {
    pub open spec fn at_rest_spec() -> KinematicState {
        KinematicState { location: 0, velocity: 0, acceleration: 0 }
    }

    /// The cabin at rest on the floor-0 datum.
    pub fn at_rest() -> (r: KinematicState)
        ensures
            r == KinematicState::at_rest_spec(),
    {
        KinematicState { location: 0, velocity: 0, acceleration: 0 }
    }
}

impl ActuatorCommand {
    /// No voltage in either direction.
    pub fn idle() -> (r: ActuatorCommand)
        ensures
            r.up_voltage == 0 && r.down_voltage == 0,
    {
        ActuatorCommand { up_voltage: 0, down_voltage: 0 }
    }

    /// Net voltage, up minus down, in millivolts.
    pub fn net_voltage(&self) -> (r: i128)
        ensures
            r == self.up_voltage - self.down_voltage,
    {
        self.up_voltage as i128 - self.down_voltage as i128
    }
}

pub open spec fn abs_int(x: int) -> int {
    if x < 0 { -x } else { x }
}

/// Division rounding toward zero, as integer division does on machine integers.
pub open spec fn div_toward_zero(a: int, b: int) -> int
    recommends
        b > 0,
{
    if a >= 0 { a / b } else { -((-a) / b) }
}

pub open spec fn fits_i64(x: int) -> bool {
    i64::MIN <= x <= i64::MAX
}

/// Velocity after `dt` microseconds at the old acceleration.
pub open spec fn next_velocity(s: KinematicState, dt: int) -> int {
    s.velocity + div_toward_zero(s.acceleration * dt, MICRO as int)
}

/// Location after `dt` microseconds at velocity `v`.
pub open spec fn next_location(s: KinematicState, v: int, dt: int) -> int {
    s.location + div_toward_zero(v * dt, MICRO as int)
}

/// Acceleration produced by a command: gravity plus force over mass.
/// Force in millinewtons is the net voltage in millivolts times the gain,
/// and a millinewton on one kilogram gives a thousand micrometres per second squared.
pub open spec fn command_acceleration(c: ActuatorCommand) -> int {
    -GRAVITY + div_toward_zero(
        (c.up_voltage - c.down_voltage) * ACTUATOR_GAIN * 1000,
        CABIN_MASS as int,
    )
}

/// Whether one step of the motion model stays within machine integers.
pub open spec fn step_fits(s: KinematicState, dt: int) -> bool {
    fits_i64(next_velocity(s, dt)) && fits_i64(next_location(s, next_velocity(s, dt), dt))
}

/// One semi-implicit Euler step: velocity from the previous acceleration,
/// then location from the new velocity, then the new acceleration from the
/// previous command.
pub open spec fn step_spec(s: KinematicState, c: ActuatorCommand, dt: int) -> KinematicState {
    let v = next_velocity(s, dt);
    KinematicState {
        location: next_location(s, v, dt) as i64,
        velocity: v as i64,
        acceleration: command_acceleration(c) as i64,
    }
}

/// Division rounding toward zero of a signed value by a positive divisor.
fn div_toward_zero_i128(a: i128, b: i128) -> (r: i128)
    requires
        b > 0,
    ensures
        r == div_toward_zero(a as int, b as int),
{
    if a >= 0 {
        a / b
    } else {
        let m: u128 = (-(a + 1)) as u128 + 1;
        let q: u128 = m / (b as u128);
        assert(q <= m) by (nonlinear_arith)
            requires
                q == m / (b as u128),
                b > 0,
        ;
        if q == 0 {
            0
        } else {
            -((q - 1) as i128) - 1
        }
    }
}

/// Acceleration that a command produces, in micrometres per second squared.
pub fn acceleration_of(c: &ActuatorCommand) -> (r: i64)
    ensures
        r == command_acceleration(*c),
{
    let net: i128 = c.net_voltage();
    assert(-(u64::MAX as int) <= net <= u64::MAX);
    let per_millivolt: i128 = ACTUATOR_GAIN as i128 * 1000;
    assert(per_millivolt == 8000);
    let force: i128 = net * per_millivolt;
    let a: i128 = div_toward_zero_i128(force, CABIN_MASS as i128);
    assert(-(u64::MAX as int) * 8000 <= force <= (u64::MAX as int) * 8000);
    assert(abs_int(a as int) <= abs_int(force as int)) by (nonlinear_arith)
        requires
            a == div_toward_zero(force as int, CABIN_MASS as int),
    ;
    (a - GRAVITY as i128) as i64
}

/// Advances the cabin by `dt` microseconds under command `c`.
/// Returns `None` exactly when the new location or velocity leaves `i64`.
pub fn step(s: &KinematicState, c: &ActuatorCommand, dt: u64) -> (r: Option<KinematicState>)
    ensures
        r.is_some() == step_fits(*s, dt as int),
        r.is_some() ==> r.unwrap() == step_spec(*s, *c, dt as int),
{
    let a: i128 = s.acceleration as i128;
    let t: i128 = dt as i128;
    assert(-0x8000_0000_0000_0000_0000_0000_0000_0000 <= a * t <= 0x7fff_ffff_ffff_ffff_ffff_ffff_ffff_ffff) by (nonlinear_arith)
        requires
            i64::MIN <= a <= i64::MAX,
            0 <= t <= u64::MAX,
    ;
    let dv: i128 = div_toward_zero_i128(a * t, MICRO as i128);
    let v: i128 = s.velocity as i128 + dv;
    assert(abs_int(dv as int) <= abs_int((a as int) * (t as int))) by (nonlinear_arith)
        requires
            dv == div_toward_zero((a as int) * (t as int), MICRO as int),
    ;
    if v < i64::MIN as i128 || v > i64::MAX as i128 {
        return None;
    }
    assert(-0x8000_0000_0000_0000_0000_0000_0000_0000 <= v * t <= 0x7fff_ffff_ffff_ffff_ffff_ffff_ffff_ffff) by (nonlinear_arith)
        requires
            i64::MIN <= v <= i64::MAX,
            0 <= t <= u64::MAX,
    ;
    let dx: i128 = div_toward_zero_i128(v * t, MICRO as i128);
    assert(abs_int(dx as int) <= abs_int((v as int) * (t as int))) by (nonlinear_arith)
        requires
            dx == div_toward_zero((v as int) * (t as int), MICRO as int),
    ;
    let x: i128 = s.location as i128 + dx;
    if x < i64::MIN as i128 || x > i64::MAX as i128 {
        return None;
    }
    Some(KinematicState { location: x as i64, velocity: v as i64, acceleration: acceleration_of(c) })
}

} // verus!
