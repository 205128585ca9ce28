use vstd::prelude::*;
use std::collections::VecDeque;
use crate::control::{arrived, arrived_spec, command_for, command_spec, decide, decide_spec};
use crate::motion::{step, step_fits, step_spec, ActuatorCommand, KinematicState};

verus! {

broadcast use vstd::std_specs::vecdeque::group_vec_dequeue_axioms;

/// The requests that name an existing floor, in their original order.
pub open spec fn in_range_requests(requests: Seq<u64>, floor_count: u64) -> Seq<u64> {
    requests.filter(|r: u64| r < floor_count)
}

/// Drops every request at or above `floor_count`, keeping the others in order.
pub fn filter_requests(requests: &Vec<u64>, floor_count: u64) -> (r: Vec<u64>)
    ensures
        r@ == in_range_requests(requests@, floor_count),
{
    let mut kept: Vec<u64> = Vec::new();
    let mut i: usize = 0;
    while i < requests.len()
        invariant
            i <= requests@.len(),
            kept@ == in_range_requests(requests@.subrange(0, i as int), floor_count),
        decreases requests@.len() - i,
    {
        let r = requests[i];
        proof {
            reveal(Seq::filter);
            assert(requests@.subrange(0, i + 1).drop_last() =~= requests@.subrange(0, i as int));
            assert(requests@.subrange(0, i + 1).last() == r);
        }
        if r < floor_count {
            kept.push(r);
        }
        i = i + 1;
    }
    assert(requests@.subrange(0, i as int) =~= requests@);
    kept
}

/// A request for the top floor's successor, or any higher one, never
/// reaches the simulation, and every request that does names a floor.
pub proof fn lemma_out_of_range_dropped(requests: Seq<u64>, floor_count: u64)
    requires
        floor_count >= 1,
    ensures
        !in_range_requests(requests, floor_count).contains(floor_count),
        forall|i: int|
            0 <= i < in_range_requests(requests, floor_count).len()
                ==> in_range_requests(requests, floor_count)[i] < floor_count,
{
    broadcast use vstd::seq_lib::group_filter_ensures;
    let kept = in_range_requests(requests, floor_count);
    assert forall|i: int| 0 <= i < kept.len() implies kept[i] < floor_count by {
        requests.lemma_filter_pred(|r: u64| r < floor_count, i);
    }
}

/// Floor the cabin is at: the floor whose level is at or below `location`,
/// clamped to the floors that exist.
pub open spec fn carriage_floor_spec(location: int, floor_height: int, floor_count: int) -> int {
    let f = location / floor_height;
    if f < 0 {
        0
    } else if f > floor_count - 1 {
        floor_count - 1
    } else {
        f
    }
}

/// Index of the floor the cabin is at, for display.
pub fn carriage_floor(location: i64, floor_height: u64, floor_count: u64) -> (r: u64)
    requires
        floor_height >= 1,
        floor_count >= 1,
    ensures
        r == carriage_floor_spec(location as int, floor_height as int, floor_count as int),
{
    if location < 0 {
        assert((location as int) / (floor_height as int) < 0) by (nonlinear_arith)
            requires
                location < 0,
                floor_height >= 1,
        ;
        return 0;
    }
    let f: u64 = (location as u64) / floor_height;
    if f > floor_count - 1 {
        floor_count - 1
    } else {
        f
    }
}

/// The four sequences sampled once per tick.
#[derive(Debug)]
pub struct Trajectory {
    pub location: Vec<i64>,
    pub velocity: Vec<i64>,
    pub acceleration: Vec<i64>,
    /// Net voltage, up minus down, in millivolts.
    pub voltage: Vec<i64>,
}

/// A cabin serving a queue of floor requests.
#[derive(Debug)]
pub struct Simulation {
    pub floor_count: u64,
    /// Height of one floor, in micrometres.
    pub floor_height: u64,
    /// Floors still to visit, the next one first.
    pub requests: VecDeque<u64>,
    pub state: KinematicState,
    /// The command chosen on the last tick, applied on the next one.
    pub command: ActuatorCommand,
    pub trajectory: Trajectory,
}

/// Location of a floor, in micrometres above the datum.
pub open spec fn floor_location(floor: u64, floor_height: u64) -> int {
    floor * floor_height
}

/// Whether a building of `floor_count` floors of `floor_height` can be
/// modelled: at least one floor, a positive height, and a top that fits
/// in `i64`.
pub open spec fn valid_building(floor_count: u64, floor_height: u64) -> bool {
    floor_count >= 1 && floor_height >= 1 && floor_count * floor_height <= i64::MAX
}

/// What a tick appends to each recorded sequence.
pub open spec fn recorded(t: Trajectory, s: KinematicState, c: ActuatorCommand) -> bool {
    &&& t.location@.last() == s.location
    &&& t.velocity@.last() == s.velocity
    &&& t.acceleration@.last() == s.acceleration
    &&& t.voltage@.last() == c.up_voltage - c.down_voltage
}

impl Simulation {
    pub open spec fn wf(&self) -> bool {
        &&& valid_building(self.floor_count, self.floor_height)
        &&& forall|i: int| 0 <= i < self.requests@.len() ==> self.requests@[i] < self.floor_count
        &&& self.command.up_voltage <= i64::MAX
        &&& self.command.down_voltage <= i64::MAX
    }

    /// Goal location of the next request.
    pub open spec fn goal(&self) -> int {
        floor_location(self.requests@[0], self.floor_height)
    }

    pub open spec fn done(&self) -> bool {
        self.requests@.len() == 0
    }

    /// A simulation at rest on floor 0 with no command applied and nothing
    /// recorded. Requests for floors that do not exist are dropped.
    /// Returns `None` exactly when the building cannot be modelled.
    pub fn new(floor_count: u64, floor_height: u64, requests: &Vec<u64>) -> (r: Option<Simulation>)
        ensures
            r.is_some() == valid_building(floor_count, floor_height),
            r matches Some(sim) ==> {
                &&& sim.wf()
                &&& sim.floor_count == floor_count
                &&& sim.floor_height == floor_height
                &&& sim.requests@ == in_range_requests(requests@, floor_count)
                &&& sim.state == KinematicState::at_rest_spec()
                &&& sim.command == (ActuatorCommand { up_voltage: 0, down_voltage: 0 })
                &&& sim.trajectory.location@.len() == 0
                &&& sim.trajectory.velocity@.len() == 0
                &&& sim.trajectory.acceleration@.len() == 0
                &&& sim.trajectory.voltage@.len() == 0
            },
    {
        if floor_count == 0 || floor_height == 0 {
            return None;
        }
        match floor_count.checked_mul(floor_height) {
            None => return None,
            Some(top) => {
                if top > i64::MAX as u64 {
                    return None;
                }
            },
        }
        let kept = filter_requests(requests, floor_count);
        proof {
            lemma_out_of_range_dropped(requests@, floor_count);
        }
        let mut queue: VecDeque<u64> = VecDeque::new();
        let mut i: usize = 0;
        while i < kept.len()
            invariant
                i <= kept@.len(),
                queue@ == kept@.subrange(0, i as int),
            decreases kept@.len() - i,
        {
            queue.push_back(kept[i]);
            assert(queue@ =~= kept@.subrange(0, i + 1));
            i = i + 1;
        }
        assert(kept@.subrange(0, i as int) =~= kept@);
        Some(Simulation {
            floor_count,
            floor_height,
            requests: queue,
            state: KinematicState::at_rest(),
            command: ActuatorCommand::idle(),
            trajectory: Trajectory {
                location: Vec::new(),
                velocity: Vec::new(),
                acceleration: Vec::new(),
                voltage: Vec::new(),
            },
        })
    }

    /// Location of the floor of the next request.
    pub fn goal_location(&self) -> (r: i64)
        requires
            self.wf(),
            !self.done(),
        ensures
            r == self.goal(),
    {
        let floor = self.requests[0];
        let h = self.floor_height;
        let n = self.floor_count;
        assert(floor * h <= n * h) by (nonlinear_arith)
            requires
                floor < n,
        ;
        (floor * h) as i64
    }

    /// One tick of `dt` microseconds: the motion model advances the cabin
    /// under the last command; if it is then stopped at the next requested
    /// floor its velocity is zeroed and that request is removed; if a
    /// request remains, the controller chooses the next command for it.
    /// Finally the new state and command are recorded. A request that is
    /// reached is removed before the controller runs, so the controller
    /// never aims at it again.
    ///
    /// Returns `false`, changing nothing, exactly when the step would leave
    /// `i64`.
    pub fn tick(&mut self, dt: u64) -> (ok: bool)
        requires
            old(self).wf(),
            !old(self).done(),
        ensures
            ok == step_fits(old(self).state, dt as int),
            !ok ==> *final(self) == *old(self),
            final(self).wf(),
            final(self).floor_count == old(self).floor_count,
            final(self).floor_height == old(self).floor_height,
            ok ==> {
                let moved = step_spec(old(self).state, old(self).command, dt as int);
                let at_floor = arrived_spec(moved, old(self).goal());
                &&& final(self).requests@ == (if at_floor {
                    old(self).requests@.drop_first()
                } else {
                    old(self).requests@
                })
                &&& final(self).state == (if at_floor {
                    KinematicState { velocity: 0, ..moved }
                } else {
                    moved
                })
                &&& final(self).command == (if final(self).done() {
                    old(self).command
                } else {
                    command_spec(
                        decide_spec(
                            final(self).state.location as int,
                            final(self).state.velocity as int,
                            final(self).goal(),
                        ),
                    )
                })
                &&& final(self).trajectory.location@.len() == old(self).trajectory.location@.len() + 1
                &&& final(self).trajectory.velocity@.len() == old(self).trajectory.velocity@.len() + 1
                &&& final(self).trajectory.acceleration@.len()
                    == old(self).trajectory.acceleration@.len() + 1
                &&& final(self).trajectory.voltage@.len() == old(self).trajectory.voltage@.len() + 1
                &&& old(self).trajectory.location@ == final(self).trajectory.location@.drop_last()
                &&& old(self).trajectory.velocity@ == final(self).trajectory.velocity@.drop_last()
                &&& old(self).trajectory.acceleration@
                    == final(self).trajectory.acceleration@.drop_last()
                &&& old(self).trajectory.voltage@ == final(self).trajectory.voltage@.drop_last()
                &&& recorded(final(self).trajectory, final(self).state, final(self).command)
            },
    {
        let moved = match step(&self.state, &self.command, dt) {
            None => return false,
            Some(s) => s,
        };
        let goal = self.goal_location();
        self.state = moved;
        if arrived(&self.state, goal) {
            self.state.velocity = 0;
            self.requests.pop_front();
            assert(self.requests@ =~= old(self).requests@.drop_first());
        }
        if self.requests.len() > 0 {
            let next_goal = self.goal_location();
            let mode = decide(self.state.location, self.state.velocity, next_goal);
            self.command = command_for(&mode);
        }
        self.trajectory.location.push(self.state.location);
        self.trajectory.velocity.push(self.state.velocity);
        self.trajectory.acceleration.push(self.state.acceleration);
        self.trajectory.voltage.push(self.command.up_voltage as i64 - self.command.down_voltage as i64);
        proof {
            assert(final(self).trajectory.location@.drop_last() =~= old(self).trajectory.location@);
        }
        true
    }
}

} // verus!
