//! Unit steps on the grid: the route from one cell to another as a shuffled
//! list of steps, and one step that stops short of the border ring.

use crate::grid::Grid;
use rand::seq::SliceRandom;
use rand::thread_rng;
use vstd::prelude::*;
use vstd::seq_lib::{group_to_multiset_ensures, lemma_fold_left_permutation};

verus! {

/// One step to a cell next to the current one.
#[derive(Clone, Copy, Debug, PartialEq, Eq, Structural)]
pub enum Movement {
    Up,
    Down,
    Left,
    Right,
}

impl Movement {
    /// The step as a change of the x and of the y coordinate.
    pub open spec fn unit(self) -> (int, int) {
        match self {
            Movement::Up => (0, 1),
            Movement::Down => (0, -1),
            Movement::Left => (-1, 0),
            Movement::Right => (1, 0),
        }
    }

    /// The step as a change of the x and of the y coordinate.
    pub fn v(&self) -> (r: (i32, i32))
        ensures
            r.0 == self.unit().0,
            r.1 == self.unit().1,
    {
        match *self {
            Movement::Up => (0, 1),
            Movement::Down => (0, -1),
            Movement::Left => (-1, 0),
            Movement::Right => (1, 0),
        }
    }
}

/// How often the step `m` occurs in `s`.
pub open spec fn count_of(s: Seq<Movement>, m: Movement) -> nat
    decreases s.len(),
{
    if s.len() == 0 {
        0
    } else {
        count_of(s.drop_last(), m) + if s.last() == m {
            1nat
        } else {
            0nat
        }
    }
}

/// Whether `moves` leads over `dx` cells on the x axis and `dy` cells on the
/// y axis, in whatever order: it holds as many steps to the right as `dx` is
/// above zero, as many to the left as it is below, and the same upwards and
/// downwards for `dy`.
pub open spec fn is_route(moves: Seq<Movement>, dx: int, dy: int) -> bool {
    &&& count_of(moves, Movement::Right) == if dx > 0 { dx } else { 0 }
    &&& count_of(moves, Movement::Left) == if dx < 0 { -dx } else { 0 }
    &&& count_of(moves, Movement::Up) == if dy > 0 { dy } else { 0 }
    &&& count_of(moves, Movement::Down) == if dy < 0 { -dy } else { 0 }
    &&& moves.len() == (if dx < 0 { -dx } else { dx }) + (if dy < 0 { -dy } else { dy })
}

/// Adds one for each number below `bound`.
pub open spec fn tally(bound: u64) -> spec_fn(int, u64) -> int {
    |acc: int, v: u64| if v < bound { acc + 1 } else { acc }
}

/// How many numbers in `s` lie below `bound`.
pub open spec fn count_below(s: Seq<u64>, bound: u64) -> int {
    s.fold_left(0, tally(bound))
}

/// The numbers from zero up to `n`, without `n`.
pub open spec fn iota(n: u64) -> Seq<u64> {
    Seq::new(n as nat, |i: int| i as u64)
}

/// Of the numbers below `n`, those below `bound` are `bound` many, or all.
proof fn lemma_count_below_iota(n: u64, bound: u64)
    ensures
        count_below(iota(n), bound) == if bound <= n { bound } else { n },
    decreases n,
{
    if n > 0 {
        let m = (n - 1) as u64;
        assert(iota(n).drop_last() =~= iota(m));
        lemma_count_below_iota(m, bound);
    }
}

/// `SliceRandom::shuffle` with the generator of the thread: the vector is
/// reordered in place by swaps, so it holds the same elements afterwards,
/// each as often as before. The order is left open.
#[verifier::external_body]
fn shuffle(v: &mut Vec<u64>)
    ensures
        final(v)@.to_multiset() == old(v)@.to_multiset(),
{
    v.shuffle(&mut thread_rng());
}

/// Lays `horizontal` steps of `x_move` and `vertical` steps of `y_move` out
/// in the order that `order` gives: a number below `horizontal` stands for a
/// step of `x_move`, any other for one of `y_move`.
pub fn lay_out(order: &Vec<u64>, horizontal: u64, x_move: Movement, y_move: Movement) -> (moves:
    Vec<Movement>)
    ensures
        moves@.len() == order@.len(),
        forall|k: int|
            0 <= k < order@.len() ==> #[trigger] moves@[k] == if order@[k] < horizontal {
                x_move
            } else {
                y_move
            },
        x_move != y_move ==> count_of(moves@, x_move) == count_below(order@, horizontal),
        x_move != y_move ==> count_of(moves@, y_move) == order@.len() - count_below(
            order@,
            horizontal,
        ),
        forall|m: Movement| m != x_move && m != y_move ==> count_of(moves@, m) == 0,
{
    let mut moves: Vec<Movement> = Vec::new();
    let mut k: usize = 0;
    while k < order.len()
        invariant
            k <= order@.len(),
            moves@.len() == k,
            forall|j: int|
                0 <= j < k ==> #[trigger] moves@[j] == if order@[j] < horizontal {
                    x_move
                } else {
                    y_move
                },
            x_move != y_move ==> count_of(moves@, x_move) == count_below(
                order@.take(k as int),
                horizontal,
            ),
            x_move != y_move ==> count_of(moves@, y_move) == k - count_below(
                order@.take(k as int),
                horizontal,
            ),
            forall|m: Movement| m != x_move && m != y_move ==> count_of(moves@, m) == 0,
        decreases order@.len() - k,
    {
        let ghost before = moves@;
        let step = if order[k] < horizontal {
            x_move
        } else {
            y_move
        };
        moves.push(step);
        proof {
            assert(moves@.drop_last() =~= before);
            assert(order@.take(k + 1).drop_last() =~= order@.take(k as int));
            assert(order@.take(k + 1).last() == order@[k as int]);
            assert forall|m: Movement| m != x_move && m != y_move implies count_of(moves@, m)
                == 0 by {
                assert(count_of(before, m) == 0);
            }
        }
        k = k + 1;
    }
    proof {
        assert(order@.take(k as int) =~= order@);
    }
    moves
}

/// The steps from the cell `current_pos` to the cell `target`, in a random
/// order: as many steps along each axis as the two cells lie apart on it,
/// each towards the target.
pub fn route_planning(current_pos: (i32, i32), target: (i32, i32)) -> (moves: Vec<Movement>)
    ensures
        is_route(moves@, target.0 - current_pos.0, target.1 - current_pos.1),
{
    broadcast use group_to_multiset_ensures;

    let x_diff: i64 = target.0 as i64 - current_pos.0 as i64;
    let y_diff: i64 = target.1 as i64 - current_pos.1 as i64;
    let x_abs: u64 = if x_diff < 0 {
        (-x_diff) as u64
    } else {
        x_diff as u64
    };
    let y_abs: u64 = if y_diff < 0 {
        (-y_diff) as u64
    } else {
        y_diff as u64
    };
    let sum: u64 = x_abs + y_abs;
    let x_move = if x_diff < 0 {
        Movement::Left
    } else {
        Movement::Right
    };
    let y_move = if y_diff < 0 {
        Movement::Down
    } else {
        Movement::Up
    };
    let mut random_vec: Vec<u64> = Vec::new();
    let mut i: u64 = 0;
    while i < sum
        invariant
            i <= sum,
            random_vec@ =~= iota(i),
        decreases sum - i,
    {
        random_vec.push(i);
        i = i + 1;
    }
    shuffle(&mut random_vec);
    proof {
        lemma_fold_left_permutation(random_vec@, iota(sum), tally(x_abs), 0int);
        lemma_count_below_iota(sum, x_abs);
        assert(random_vec@.len() == random_vec@.to_multiset().len());
        assert(iota(sum).len() == iota(sum).to_multiset().len());
    }
    lay_out(&random_vec, x_abs, x_move, y_move)
}

/// The change of position that leads from `player` towards `target` and
/// stops one cell short of the border ring: a target on or beyond the ring
/// on the x axis is replaced by the cell next to the ring on that axis, with
/// no change on the y axis; then the same for the y axis.
pub open spec fn clamp_delta(grid: Grid, target: (int, int), player: (int, int)) -> (int, int) {
    if target.0 <= grid.x_min {
        (grid.x_min + 1 - player.0, 0)
    } else if grid.x_max <= target.0 {
        (grid.x_max - 1 - player.0, 0)
    } else if target.1 <= grid.y_min {
        (0, grid.y_min + 1 - player.1)
    } else if grid.y_max <= target.1 {
        (0, grid.y_max - 1 - player.1)
    } else {
        (target.0 - player.0, target.1 - player.1)
    }
}

/// Whether a position lies strictly within the border ring.
pub open spec fn inside(grid: Grid, p: (i32, i32)) -> bool {
    grid.x_min < p.0 < grid.x_max && grid.y_min < p.1 < grid.y_max
}

/// The change of position that leads from `player` towards `target` without
/// reaching the border ring.
pub fn overshoot_check(grid: &Grid, target: (i64, i64), player: (i32, i32)) -> (delta: (i64, i64))
    requires
        -0x1_0000_0000_0000 <= target.0 <= 0x1_0000_0000_0000,
        -0x1_0000_0000_0000 <= target.1 <= 0x1_0000_0000_0000,
    ensures
        (delta.0 as int, delta.1 as int) == clamp_delta(
            *grid,
            (target.0 as int, target.1 as int),
            (player.0 as int, player.1 as int),
        ),
{
    if target.0 <= grid.x_min as i64 {
        return (grid.x_min as i64 + 1 - player.0 as i64, 0);
    }
    if grid.x_max as i64 <= target.0 {
        return (grid.x_max as i64 - 1 - player.0 as i64, 0);
    }
    if target.1 <= grid.y_min as i64 {
        return (0, grid.y_min as i64 + 1 - player.1 as i64);
    }
    if grid.y_max as i64 <= target.1 {
        return (0, grid.y_max as i64 - 1 - player.1 as i64);
    }
    (target.0 - player.0 as i64, target.1 - player.1 as i64)
}

/// The change of position of `length` steps in the direction `dir` from
/// `current_pos`, cut so that the border ring is not reached.
pub fn get_move_delta(grid: &Grid, current_pos: (i32, i32), dir: Movement, length: i32) -> (delta:
    (i64, i64))
    ensures
        (delta.0 as int, delta.1 as int) == clamp_delta(
            *grid,
            (current_pos.0 + length * dir.unit().0, current_pos.1 + length * dir.unit().1),
            (current_pos.0 as int, current_pos.1 as int),
        ),
        inside(*grid, current_pos) && length == 1 ==> inside(
            *grid,
            ((current_pos.0 + delta.0) as i32, (current_pos.1 + delta.1) as i32),
        ),
        grid.x_min < grid.x_max && grid.y_min < grid.y_max ==> i32::MIN <= current_pos.0 + delta.0
            <= i32::MAX && i32::MIN <= current_pos.1 + delta.1 <= i32::MAX,
{
    let temp = dir.v();
    assert(-0x8000_0000 <= length * temp.0 <= 0x8000_0000 && -0x8000_0000 <= length * temp.1
        <= 0x8000_0000) by (nonlinear_arith)
        requires
            -0x8000_0000 <= length <= 0x7fff_ffff,
            -1 <= temp.0 <= 1,
            -1 <= temp.1 <= 1,
    ;
    let step_x: i64 = length as i64 * temp.0 as i64;
    let step_y: i64 = length as i64 * temp.1 as i64;
    let target: (i64, i64) = (current_pos.0 as i64 + step_x, current_pos.1 as i64 + step_y);
    overshoot_check(grid, target, current_pos)
}

} // verus!
