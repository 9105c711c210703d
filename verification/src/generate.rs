//! A random first partition of the grid: about a third of the cells within
//! the border ring are filled, each with the group of its quadrant and a
//! weight that the group bounds.

use crate::grid::Grid;
use crate::map::{cell_ok, group_of, is_cell, table_fits, valid_tables, MapData};
use crate::weights::{row_weight, table_weight, weight_below};
use rand::thread_rng;
use rand::Rng;
use vstd::prelude::*;

verus! {

/// The number of groups of a generated partition.
pub const GROUP_SIZE: u8 = 3;

/// Of a hundred cells within the border ring, about so many are filled.
pub const FILL_PERCENT: u32 = 33;

/// The largest weight of a filled cell of group `g` is `g + 1` times this.
pub const WEIGHT_STEP: u32 = 10;

/// The largest number of cells for which a generated partition is owed.
pub const MAX_CELLS: u64 = 40_000_000;

/// The group of a filled cell at the world coordinate `(x, y)`.
pub open spec fn quadrant_group(x: int, y: int) -> u8 {
    if x < 0 && y <= 0 {
        1
    } else if x >= 0 && y <= 0 {
        2
    } else {
        0
    }
}

/// What a generated partition may hold in the cell `c`: no group and no
/// weight on the border ring; within it either the same, or the group of
/// the cell's quadrant and a weight from one up to the group's bound.
pub open spec fn cell_generated(grid: Grid, group: u8, value: u32, c: (usize, usize)) -> bool {
    ||| group == GROUP_SIZE && value == 0
    ||| {
        &&& grid.interior(c)
        &&& group == quadrant_group(grid.x_min + c.0, grid.y_min + c.1)
        &&& 1 <= value <= (group + 1) * WEIGHT_STEP
    }
}

/// `Rng::gen_range` on the generator of the thread, with the range from
/// `low` up to and with `high`: some number of that range. Which one is left
/// open. (The generator stops the program where the system gives it no
/// seed.)
#[verifier::external_body]
fn random_in(low: u32, high: u32) -> (r: u32)
    requires
        low <= high,
    ensures
        low <= r <= high,
{
    thread_rng().gen_range(low..=high)
}

/// The group of the cell at the world coordinate `(x, y)` for the roll
/// `roll`: none on the border ring and for a roll of `FILL_PERCENT` or more,
/// else the group of the quadrant.
pub fn pick_group(grid: &Grid, x: i32, y: i32, roll: u32) -> (g: u8)
    ensures
        g == if x == grid.x_min || x == grid.x_max || y == grid.y_min || y == grid.y_max || roll
            >= FILL_PERCENT {
            GROUP_SIZE
        } else {
            quadrant_group(x as int, y as int)
        },
{
    if grid.is_border(x, y) || roll >= FILL_PERCENT {
        GROUP_SIZE
    } else if x < 0 && y <= 0 {
        1
    } else if x >= 0 && y <= 0 {
        2
    } else {
        0
    }
}

/// A column of `n` cells of weight 30 at most weighs `30 * n` at most.
proof fn lemma_row_weight_small(groups: Seq<u8>, values: Seq<u32>, g: u8, n: int)
    requires
        0 <= n <= values.len(),
        forall|j: int| 0 <= j < values.len() ==> values[j] <= 30,
    ensures
        row_weight(groups, values, g, n) <= 30 * n,
    decreases n,
{
    if n > 0 {
        lemma_row_weight_small(groups, values, g, n - 1);
    }
}

/// Tables of `n` columns of that kind weigh `30 * height * n` at most.
proof fn lemma_table_weight_small(
    groups: Seq<Vec<u8>>,
    values: Seq<Vec<u32>>,
    g: u8,
    n: int,
    height: int,
)
    requires
        0 <= n <= groups.len(),
        groups.len() == values.len(),
        forall|x: int|
            0 <= x < groups.len() ==> groups[x]@.len() == height && values[x]@.len() == height,
        forall|x: int, y: int|
            0 <= x < values.len() && 0 <= y < height ==> (#[trigger] values[x]@[y]) <= 30,
    ensures
        table_weight(groups, values, g, n) <= 30 * height * n,
    decreases n,
{
    if n > 0 {
        lemma_table_weight_small(groups, values, g, n - 1, height);
        lemma_row_weight_small(groups[n - 1]@, values[n - 1]@, g, height);
        assert(30 * height * (n - 1) + 30 * height == 30 * height * n) by (nonlinear_arith);
    }
}

/// A random partition of the grid into `GROUP_SIZE` groups, with the sums,
/// the balance and the neighbour lists that follow from it. Nothing comes
/// back for bounds that are out of order, or where the weights do not fit
/// together, which does not happen up to `MAX_CELLS` cells.
pub fn generate_map(grid: Grid, radius: usize) -> (r: Option<MapData>)
    ensures
        grid.wf() && (grid.x_span() + 1) * (grid.y_span() + 1) <= MAX_CELLS ==> r.is_some(),
        match r {
            Some(m) => {
                &&& m.wf()
                &&& m.grid == grid
                &&& m.group_count == GROUP_SIZE
                &&& forall|c: (usize, usize)|
                    is_cell(grid, c) ==> cell_generated(
                        grid,
                        #[trigger] m.group_at(c),
                        m.weight_at(c),
                        c,
                    )
                &&& m.fresh(radius)
            },
            None => true,
        },
{
    if Grid::new(grid.x_min, grid.x_max, grid.y_min, grid.y_max).is_none() {
        return None;
    }
    let x_range = grid.x_range();
    let y_range = grid.y_range();
    let mut tile_groups: Vec<Vec<u8>> = Vec::new();
    let mut tile_values: Vec<Vec<u32>> = Vec::new();
    let mut x_idx: usize = 0;
    while x_idx <= x_range
        invariant
            grid.wf(),
            x_idx <= x_range + 1,
            x_range == grid.x_span(),
            y_range == grid.y_span(),
            tile_groups@.len() == x_idx,
            tile_values@.len() == x_idx,
            forall|i: int|
                0 <= i < x_idx ==> (#[trigger] tile_groups@[i])@.len() == grid.y_span() + 1,
            forall|i: int|
                0 <= i < x_idx ==> (#[trigger] tile_values@[i])@.len() == grid.y_span() + 1,
            forall|c: (usize, usize)|
                c.0 < x_idx && c.1 <= grid.y_span() ==> cell_generated(
                    grid,
                    #[trigger] group_of(tile_groups@, c),
                    tile_values@[c.0 as int]@[c.1 as int],
                    c,
                ),
        decreases x_range + 1 - x_idx,
    {
        let mut row_tile_groups: Vec<u8> = Vec::new();
        let mut row_tile_values: Vec<u32> = Vec::new();
        let mut y_idx: usize = 0;
        while y_idx <= y_range
            invariant
                grid.wf(),
                x_idx <= x_range,
                y_idx <= y_range + 1,
                x_range == grid.x_span(),
                y_range == grid.y_span(),
                row_tile_groups@.len() == y_idx,
                row_tile_values@.len() == y_idx,
                forall|j: int|
                    0 <= j < y_idx ==> cell_generated(
                        grid,
                        #[trigger] row_tile_groups@[j],
                        row_tile_values@[j],
                        (x_idx, j as usize),
                    ),
            decreases y_range + 1 - y_idx,
        {
            let (x, y) = grid.to_world((x_idx, y_idx));
            let group = pick_group(&grid, x, y, random_in(0, 99));
            let value: u32 = if group < GROUP_SIZE {
                random_in(1, (group as u32 + 1) * WEIGHT_STEP)
            } else {
                0
            };
            row_tile_groups.push(group);
            row_tile_values.push(value);
            y_idx = y_idx + 1;
        }
        let ghost groups_before = tile_groups@;
        let ghost values_before = tile_values@;
        tile_groups.push(row_tile_groups);
        tile_values.push(row_tile_values);
        proof {
            assert forall|c: (usize, usize)|
                c.0 < x_idx + 1 && c.1 <= grid.y_span() implies cell_generated(
                grid,
                #[trigger] group_of(tile_groups@, c),
                tile_values@[c.0 as int]@[c.1 as int],
                c,
            ) by {
                if c.0 < x_idx {
                    assert(tile_groups@[c.0 as int] == groups_before[c.0 as int]);
                    assert(tile_values@[c.0 as int] == values_before[c.0 as int]);
                    assert(cell_generated(
                        grid,
                        group_of(groups_before, c),
                        values_before[c.0 as int]@[c.1 as int],
                        c,
                    ));
                } else {
                    assert(c == (x_idx, c.1 as int as usize));
                }
            }
        }
        x_idx = x_idx + 1;
    }
    proof {
        let height = grid.y_span() + 1;
        let width = grid.x_span() + 1;
        assert forall|x: int, y: int| 0 <= x < tile_values@.len() && 0 <= y < height implies (
        #[trigger] tile_values@[x]@[y]) <= 30 by {
            let c = (x as usize, y as usize);
            assert(cell_generated(grid, group_of(tile_groups@, c), tile_values@[x]@[y], c));
        }
        lemma_table_weight_small(tile_groups@, tile_values@, 0, width, height);
        lemma_table_weight_small(tile_groups@, tile_values@, 1, width, height);
        lemma_table_weight_small(tile_groups@, tile_values@, 2, width, height);
        assert(weight_below(tile_groups@, tile_values@, 3) == table_weight(
            tile_groups@,
            tile_values@,
            0,
            width,
        ) + table_weight(tile_groups@, tile_values@, 1, width) + table_weight(
            tile_groups@,
            tile_values@,
            2,
            width,
        )) by {
            assert(weight_below(tile_groups@, tile_values@, 0) == 0);
            assert(weight_below(tile_groups@, tile_values@, 1) == weight_below(
                tile_groups@,
                tile_values@,
                0,
            ) + table_weight(tile_groups@, tile_values@, 0, width));
            assert(weight_below(tile_groups@, tile_values@, 2) == weight_below(
                tile_groups@,
                tile_values@,
                1,
            ) + table_weight(tile_groups@, tile_values@, 1, width));
        }
        if width * height <= MAX_CELLS {
            assert(3 * (30 * height * width) <= u32::MAX) by (nonlinear_arith)
                requires
                    width * height <= 40_000_000,
            ;
        }
        assert forall|c: (usize, usize)| is_cell(grid, c) implies #[trigger] cell_ok(
            grid,
            tile_groups@,
            GROUP_SIZE,
            c,
        ) by {
            assert(cell_generated(
                grid,
                group_of(tile_groups@, c),
                tile_values@[c.0 as int]@[c.1 as int],
                c,
            ));
        }
        assert(table_fits(grid, tile_groups@));
        assert(table_fits(grid, tile_values@));
        assert(width * height <= MAX_CELLS ==> valid_tables(
            grid,
            GROUP_SIZE,
            tile_groups@,
            tile_values@,
        ));
    }
    MapData::new(grid, GROUP_SIZE, tile_groups, tile_values, radius)
}

} // verus!
