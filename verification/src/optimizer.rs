//! The optimizer's decision: while the balance is not under the threshold
//! and the worker is idle, look for one improving transfer into the poorest
//! group and hand it to the worker. Once the balance is under the threshold,
//! or no transfer improves it, the optimizer halts for good.

use crate::map::{Instruction, MapData};
use crate::player::{built_up, period_passed, Player, State, PERIOD};
use vstd::prelude::*;

verus! {

/// What one call of `start_algorithm` decided.
#[derive(Clone, Copy, Debug)]
pub enum Decision {
    /// The optimizer had halted before: nothing was decided.
    Halted,
    /// The balance is under the threshold: the optimizer halts.
    Converged,
    /// No period had passed: nothing was decided.
    Waiting,
    /// The worker is on its way: nothing was decided.
    Busy,
    /// This transfer was handed to the worker.
    Proposed(Instruction),
    /// No transfer into the poorest group improves the balance: the
    /// optimizer halts.
    NoMove,
}

/// The optimizer: the time that has built up since its last decision, the
/// threshold under which the balance counts as reached, and whether it has
/// halted.
#[derive(Clone, Copy, Debug, PartialEq, Eq, Structural)]
pub struct Optimizer {
    pub interval: u64,
    pub threshold: u32,
    pub halted: bool,
}

impl Optimizer {
    /// An optimizer that has not halted, with no time built up.
    pub fn new(threshold: u32) -> (o: Optimizer)
        ensures
            o == (Optimizer { interval: 0, threshold, halted: false }),
    {
        Optimizer { interval: 0, threshold, halted: false }
    }

    /// Whether the balance of `map` is under the threshold.
    pub fn converged(&self, map: &MapData) -> (r: bool)
        ensures
            r == map.group_balance.under(self.threshold),
    {
        map.group_balance.below(self.threshold)
    }

    /// Whether `after`, `player_after` and `decision` are what one call of
    /// the optimizer's clock gives, `elapsed` nanoseconds after the last.
    pub open spec fn decided(
        self,
        map: MapData,
        player: Player,
        elapsed: u64,
        after: Optimizer,
        player_after: Player,
        decision: Decision,
    ) -> bool {
        let time = built_up(self.interval, elapsed);
        let same = player.only_time_passed(player_after, player.interval);
        let left = (time - PERIOD) as u64;
        &&& after.threshold == self.threshold
        &&& if self.halted {
            decision == Decision::Halted && same && after == self
        } else if map.group_balance.under(self.threshold) {
            &&& decision == Decision::Converged
            &&& same
            &&& after.halted
            &&& after.interval == self.interval
        } else if time <= PERIOD {
            decision == Decision::Waiting && same && !after.halted && after.interval == time
        } else if player.state != State::Idle {
            decision == Decision::Busy && same && !after.halted && after.interval == left
        } else {
            &&& after.interval == left
            &&& match decision {
                Decision::Proposed(i) => {
                    &&& map.proposes(map.poorest() as usize, i)
                    &&& !after.halted
                    &&& player_after.state == player.state
                    &&& player_after.interval == player.interval
                    &&& player_after.move_queue@ == player.move_queue@
                    &&& player_after.position == player.position
                    &&& player_after.instruction_queue@ == player.instruction_queue@.push(i)
                },
                Decision::NoMove => {
                    &&& map.none_improves(map.poorest() as usize)
                    &&& after.halted
                    &&& same
                },
                _ => false,
            }
        }
    }
}

/// One call of the optimizer's clock, `elapsed` nanoseconds after the last.
/// An optimizer that has halted does nothing. With the balance under the
/// threshold it halts. Else, once more than one period has built up and the
/// worker is idle, the first improving transfer into the poorest group is
/// put into the worker's queue; where there is none, the optimizer halts.
pub fn start_algorithm(
    optimizer: &mut Optimizer,
    map: &MapData,
    player: &mut Player,
    elapsed: u64,
) -> (decision: Decision)
    requires
        map.wf(),
    ensures
        old(optimizer).decided(
            *map,
            *old(player),
            elapsed,
            *final(optimizer),
            *final(player),
            decision,
        ),
{
    if optimizer.halted {
        return Decision::Halted;
    }
    if optimizer.converged(map) {
        optimizer.halted = true;
        return Decision::Converged;
    }
    if !period_passed(&mut optimizer.interval, elapsed) {
        return Decision::Waiting;
    }
    match player.state {
        State::Idle => {
            let start_group = map.find_min_group();
            match map.create_player_instruction(start_group) {
                Some(i) => {
                    player.queue_instruction(i);
                    Decision::Proposed(i)
                },
                None => {
                    optimizer.halted = true;
                    Decision::NoMove
                },
            }
        },
        State::Moving => Decision::Busy,
    }
}

} // verus!
