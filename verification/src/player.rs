//! The worker that carries transfers out: it waits for an instruction,
//! walks to the cell that the instruction names, one step for each period
//! that has passed, and then applies the transfer to the partition state.

use crate::grid::Grid;
use crate::map::{Instruction, MapData};
use crate::route::{get_move_delta, inside, is_route, route_planning, clamp_delta, Movement};
use std::collections::VecDeque;
use vstd::prelude::*;

verus! {

/// The time between two steps of the worker, and between two decisions of
/// the optimizer, in nanoseconds.
pub const PERIOD: u64 = 50_000_000;

/// What the worker is doing.
#[derive(Clone, Copy, Debug, PartialEq, Eq, Structural)]
pub enum State {
    Idle,
    Moving,
}

/// What one call of `player_control` did.
#[derive(Clone, Copy, Debug)]
pub enum Event {
    /// No period had passed: nothing was done.
    Waiting,
    /// The worker is idle and has no instruction.
    Resting,
    /// The worker has planned its route to the cell of the next instruction.
    Started,
    /// The worker has taken this step.
    Stepped(Movement),
    /// The worker has arrived and has applied this instruction.
    Completed(Instruction),
    /// The worker has arrived and found no instruction to apply.
    Underrun,
    /// The next instruction cannot be carried out on the partition state:
    /// its cell belongs to no group, or it names no group. Nothing was done.
    Invalid(Instruction),
}

/// The time that has built up once `elapsed` is added to `interval`; it
/// stops at the largest value that 64 bits hold.
pub open spec fn built_up(interval: u64, elapsed: u64) -> u64 {
    if interval + elapsed > u64::MAX {
        u64::MAX
    } else {
        (interval + elapsed) as u64
    }
}

/// Adds `elapsed` to the time that has built up in `interval`. Where more
/// than one period has built up, one period is taken off and the step is due.
pub fn period_passed(interval: &mut u64, elapsed: u64) -> (due: bool)
    ensures
        due == (built_up(*old(interval), elapsed) > PERIOD),
        *final(interval) == if due {
            (built_up(*old(interval), elapsed) - PERIOD) as u64
        } else {
            built_up(*old(interval), elapsed)
        },
{
    let sum: u64 = if elapsed > u64::MAX - *interval {
        u64::MAX
    } else {
        *interval + elapsed
    };
    if sum > PERIOD {
        *interval = sum - PERIOD;
        true
    } else {
        *interval = sum;
        false
    }
}

/// The worker.
pub struct Player {
    pub state: State,
    pub interval: u64,
    pub move_queue: Vec<Movement>,
    pub instruction_queue: VecDeque<Instruction>,
    pub position: (i32, i32),
}

impl Player {
    /// The world coordinate of the cell that an instruction names.
    pub open spec fn target_of(grid: Grid, i: Instruction) -> (int, int) {
        (grid.x_min + i.transfer_point.0, grid.y_min + i.transfer_point.1)
    }

    /// Whether the first instruction of the queue names a cell of the grid.
    pub open spec fn aims_within(&self, grid: Grid) -> bool {
        let c = self.instruction_queue@[0].transfer_point;
        c.0 <= grid.x_span() && c.1 <= grid.y_span()
    }

    /// Whether `steps` is the worker's list of steps with a route to the
    /// cell of the instruction `job` added at its end.
    pub open spec fn sets_out(&self, grid: Grid, job: Instruction, steps: Seq<Movement>) -> bool {
        let kept = self.move_queue@.len() as int;
        &&& steps.len() >= kept
        &&& steps.subrange(0, kept) == self.move_queue@
        &&& is_route(
            steps.subrange(kept, steps.len() as int),
            Self::target_of(grid, job).0 - self.position.0,
            Self::target_of(grid, job).1 - self.position.1,
        )
    }

    /// Whether `after` is this worker with nothing changed but the time that
    /// has built up.
    pub open spec fn only_time_passed(&self, after: Player, interval: u64) -> bool {
        &&& after.state == self.state
        &&& after.interval == interval
        &&& after.move_queue@ == self.move_queue@
        &&& after.instruction_queue@ == self.instruction_queue@
        &&& after.position == self.position
    }

    /// An idle worker at `position`, with no route and no instruction.
    pub fn new(position: (i32, i32)) -> (p: Player)
        ensures
            p.state == State::Idle,
            p.interval == 0,
            p.move_queue@.len() == 0,
            p.instruction_queue@.len() == 0,
            p.position == position,
    {
        Player {
            state: State::Idle,
            interval: 0,
            move_queue: Vec::new(),
            instruction_queue: VecDeque::new(),
            position,
        }
    }

    /// Puts an instruction at the back of the queue. The worker's state is
    /// left as it is.
    pub fn queue_instruction(&mut self, instruction: Instruction)
        ensures
            final(self).instruction_queue@ == old(self).instruction_queue@.push(instruction),
            final(self).state == old(self).state,
            final(self).interval == old(self).interval,
            final(self).move_queue@ == old(self).move_queue@,
            final(self).position == old(self).position,
    {
        self.instruction_queue.push_back(instruction);
    }

    /// Plans the route to the cell of the first instruction in the queue and
    /// sets out; with no instruction, stays as it is. The cell must be one of
    /// the grid.
    pub fn start_moving(&mut self, grid: &Grid)
        requires
            grid.wf(),
            old(self).instruction_queue@.len() > 0 ==> old(self).aims_within(*grid),
        ensures
            final(self).interval == old(self).interval,
            final(self).instruction_queue@ == old(self).instruction_queue@,
            final(self).position == old(self).position,
            old(self).instruction_queue@.len() == 0 ==> final(self).state == old(self).state
                && final(self).move_queue@ == old(self).move_queue@,
            old(self).instruction_queue@.len() > 0 ==> final(self).state == State::Moving
                && old(self).sets_out(
                *grid,
                old(self).instruction_queue@[0],
                final(self).move_queue@,
            ),
    {
        if self.instruction_queue.len() > 0 {
            let job: Instruction = self.instruction_queue[0];
            let target = grid.to_world(job.transfer_point);
            let mut route = route_planning(self.position, target);
            let ghost planned = route@;
            self.move_queue.append(&mut route);
            self.state = State::Moving;
            proof {
                let before = old(self).move_queue@;
                assert(self.move_queue@ =~= before + planned);
                assert(self.move_queue@.subrange(0, before.len() as int) =~= before);
                assert(self.move_queue@.subrange(
                    before.len() as int,
                    self.move_queue@.len() as int,
                ) =~= planned);
            }
        }
    }

    /// One call of the worker's clock, `elapsed` nanoseconds after the last.
    /// Until more than one period has built up, nothing is done. Then one
    /// period is used up:
    /// an idle worker with an instruction plans its route and sets out;
    /// a moving worker with steps left takes the last one of its list,
    /// stopping short of the border ring;
    /// a moving worker with no step left takes the first instruction from
    /// the queue, applies it to the partition state and is idle again.
    pub fn player_control(&mut self, map: &mut MapData, elapsed: u64, radius: usize) -> (event:
        Event)
        requires
            old(map).wf(),
        ensures
            final(map).wf(),
            inside(old(map).grid, old(self).position) ==> inside(
                final(map).grid,
                final(self).position,
            ),
            old(self).stepped(*old(map), elapsed, radius, *final(self), *final(map), event),
    {
        if !period_passed(&mut self.interval, elapsed) {
            return Event::Waiting;
        }
        match self.state {
            State::Idle => {
                if self.instruction_queue.len() == 0 {
                    return Event::Resting;
                }
                let job: Instruction = self.instruction_queue[0];
                if !map.accepts(&job) {
                    return Event::Invalid(job);
                }
                self.start_moving(&map.grid);
                Event::Started
            },
            State::Moving => {
                if self.move_queue.len() == 0 {
                    if self.instruction_queue.len() == 0 {
                        self.state = State::Idle;
                        return Event::Underrun;
                    }
                    let job: Instruction = self.instruction_queue[0];
                    if !map.accepts(&job) {
                        return Event::Invalid(job);
                    }
                    let _ = self.instruction_queue.pop_front();
                    map.reassign_group(job.transfer_point, job.to_group, radius);
                    self.interval = 0;
                    self.state = State::Idle;
                    Event::Completed(job)
                } else {
                    let step = self.move_queue.pop().unwrap();
                    let delta = get_move_delta(&map.grid, self.position, step, 1);
                    self.position = (
                        (self.position.0 as i64 + delta.0) as i32,
                        (self.position.1 as i64 + delta.1) as i32,
                    );
                    Event::Stepped(step)
                }
            },
        }
    }

    /// What one call of the worker's clock does: `after` and `map_after` are
    /// the worker and the partition state after it, `event` is what it
    /// reports.
    pub open spec fn stepped(
        &self,
        map: MapData,
        elapsed: u64,
        radius: usize,
        after: Player,
        map_after: MapData,
        event: Event,
    ) -> bool {
        let time = built_up(self.interval, elapsed);
        let left = (time - PERIOD) as u64;
        if time <= PERIOD {
            event == Event::Waiting && self.only_time_passed(after, time) && map_after == map
        } else if self.state == State::Idle {
            if self.instruction_queue@.len() == 0 {
                event == Event::Resting && self.only_time_passed(after, left) && map_after == map
            } else if !map.admits(self.instruction_queue@[0]) {
                &&& event == Event::Invalid(self.instruction_queue@[0])
                &&& self.only_time_passed(after, left)
                &&& map_after == map
            } else {
                &&& event == Event::Started
                &&& map_after == map
                &&& after.state == State::Moving
                &&& after.interval == left
                &&& after.instruction_queue@ == self.instruction_queue@
                &&& after.position == self.position
                &&& self.sets_out(map.grid, self.instruction_queue@[0], after.move_queue@)
            }
        } else if self.move_queue@.len() > 0 {
            let step = self.move_queue@.last();
            let delta = clamp_delta(
                map.grid,
                (self.position.0 + step.unit().0, self.position.1 + step.unit().1),
                (self.position.0 as int, self.position.1 as int),
            );
            &&& event == Event::Stepped(step)
            &&& map_after == map
            &&& after.state == State::Moving
            &&& after.interval == left
            &&& after.instruction_queue@ == self.instruction_queue@
            &&& after.move_queue@ == self.move_queue@.drop_last()
            &&& after.position.0 == self.position.0 + delta.0
            &&& after.position.1 == self.position.1 + delta.1
        } else if self.instruction_queue@.len() == 0 {
            &&& event == Event::Underrun
            &&& map_after == map
            &&& after.state == State::Idle
            &&& after.interval == left
            &&& after.instruction_queue@ == self.instruction_queue@
            &&& after.move_queue@ == self.move_queue@
            &&& after.position == self.position
        } else if !map.admits(self.instruction_queue@[0]) {
            &&& event == Event::Invalid(self.instruction_queue@[0])
            &&& self.only_time_passed(after, left)
            &&& map_after == map
        } else {
            let job = self.instruction_queue@[0];
            &&& event == Event::Completed(job)
            &&& map.reassigned(map_after, job.transfer_point, job.to_group, radius)
            &&& after.state == State::Idle
            &&& after.interval == 0
            &&& after.instruction_queue@ == self.instruction_queue@.drop_first()
            &&& after.move_queue@ == self.move_queue@
            &&& after.position == self.position
        }
    }
}

} // verus!
