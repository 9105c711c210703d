//! The partition state: which group each cell belongs to, what it weighs,
//! the weight sum of each group, the balance of those sums, and for each
//! cell the nearby cells that belong to another group. On it, the local
//! search for one transfer that improves the balance.

use crate::balance::{
    calc_balance, lemma_pair_count_positive, lemma_pairwise_gap_bound, Balance,
};
use crate::grid::Grid;
use crate::weights::{
    group_weight, lemma_moved_total, lemma_table_weight_covers, lemma_table_weight_update,
    lemma_weight_below_bounds, moved, sum_all, table_weight, total, weight_below,
};
use vstd::prelude::*;

verus! {

/// One proposed transfer: the cell at `transfer_point` is to join `to_group`.
#[derive(Clone, Copy, Debug)]
pub struct Instruction {
    pub transfer_point: (usize, usize),
    pub to_group: u8,
}

/// The place of a displayed tile on the grid.
#[derive(Clone, Copy, Debug)]
pub struct Tile {
    pub loc: (usize, usize),
}

/// The group of the cell `c` in a table of groups.
pub open spec fn group_of(groups: Seq<Vec<u8>>, c: (usize, usize)) -> u8 {
    groups[c.0 as int]@[c.1 as int]
}

/// Whether a table has one column for each x index and one cell for each y
/// index of the grid.
pub open spec fn table_fits<T>(grid: Grid, table: Seq<Vec<T>>) -> bool {
    &&& table.len() == grid.x_span() + 1
    &&& forall|x: int| 0 <= x < table.len() ==> (#[trigger] table[x])@.len() == grid.y_span() + 1
}

/// Whether `c` names a cell of the grid.
pub open spec fn is_cell(grid: Grid, c: (usize, usize)) -> bool {
    c.0 <= grid.x_span() && c.1 <= grid.y_span()
}

/// Whether `d` may stand in the neighbour list of `c`: it belongs to one of
/// the `count` groups, and not to the group of `c`.
pub open spec fn crosses(groups: Seq<Vec<u8>>, count: u8, c: (usize, usize), d: (usize, usize))
    -> bool {
    group_of(groups, d) < count && group_of(groups, d) != group_of(groups, c)
}

/// The neighbour list of `c` as a scan of its neighbourhood gives it: the
/// cells within `radius` that belong to another of the `count` groups, in
/// the order of the neighbourhood.
pub open spec fn cross_neighbors(
    grid: Grid,
    groups: Seq<Vec<u8>>,
    count: u8,
    c: (usize, usize),
    radius: usize,
) -> Seq<(usize, usize)> {
    grid.neighborhood(c, radius).filter(crossing(groups, count, c))
}

/// `crosses`, as a predicate on the cells that may stand in the list of `c`.
pub open spec fn crossing(groups: Seq<Vec<u8>>, count: u8, c: (usize, usize)) -> spec_fn(
    (usize, usize),
) -> bool {
    |d: (usize, usize)| crosses(groups, count, c, d)
}

/// Whether the candidate `k1` of the home cell `c1` is looked at before the
/// candidate `k2` of the home cell `c2`: homes go by x, then by y.
pub open spec fn scanned_before(c1: (usize, usize), k1: int, c2: (usize, usize), k2: int) -> bool {
    c1.0 < c2.0 || (c1.0 == c2.0 && (c1.1 < c2.1 || (c1.1 == c2.1 && k1 < k2)))
}

/// The grid's partition into groups. A cell whose group is `group_count`
/// belongs to no group; the border ring is made of such cells.
pub struct MapData {
    pub grid: Grid,
    pub group_count: u8,
    pub tile_groups: Vec<Vec<u8>>,
    pub tile_values: Vec<Vec<u32>>,
    pub group_sum: Vec<u32>,
    pub group_balance: Balance,
    pub tile_neighbors: Vec<Vec<Vec<(usize, usize)>>>,
}

impl MapData {
    /// The group of the cell `c`.
    pub open spec fn group_at(&self, c: (usize, usize)) -> u8 {
        group_of(self.tile_groups@, c)
    }

    /// The weight of the cell `c`.
    pub open spec fn weight_at(&self, c: (usize, usize)) -> u32 {
        self.tile_values@[c.0 as int]@[c.1 as int]
    }

    /// The neighbour list of the cell `c`.
    pub open spec fn neighbors_at(&self, c: (usize, usize)) -> Seq<(usize, usize)> {
        self.tile_neighbors@[c.0 as int]@[c.1 as int]@
    }

    /// Whether `c` is a cell of the grid that belongs to one of the groups.
    pub open spec fn grouped(&self, c: (usize, usize)) -> bool {
        is_cell(self.grid, c) && self.group_at(c) < self.group_count
    }

    /// The tables have the grid's shape, no cell has a group beyond
    /// `group_count`, and the border ring belongs to no group.
    pub open spec fn tables_ok(&self) -> bool {
        &&& self.grid.wf()
        &&& self.group_count >= 3
        &&& table_fits(self.grid, self.tile_groups@)
        &&& table_fits(self.grid, self.tile_values@)
        &&& table_fits(self.grid, self.tile_neighbors@)
        &&& forall|c: (usize, usize)|
            is_cell(self.grid, c) ==> #[trigger] group_of(self.tile_groups@, c) <= self.group_count
        &&& forall|c: (usize, usize)|
            is_cell(self.grid, c) && !self.grid.interior(c) ==> #[trigger] group_of(
                self.tile_groups@,
                c,
            ) == self.group_count
    }

    /// Each group sum is the weight of the group's cells, and together they
    /// fit 32 bits.
    pub open spec fn sums_ok(&self) -> bool {
        &&& self.group_sum@.len() == self.group_count
        &&& forall|g: u8|
            g < self.group_count ==> #[trigger] self.group_sum@[g as int] == table_weight(
                self.tile_groups@,
                self.tile_values@,
                g,
                self.tile_groups@.len() as int,
            )
        &&& total(self.group_sum@) <= u32::MAX
    }

    /// Each neighbour list holds cells of the grid that belong to a group,
    /// and a cell that belongs to no group has an empty list.
    pub open spec fn lists_ok(&self) -> bool {
        &&& forall|c: (usize, usize), k: int|
            is_cell(self.grid, c) && 0 <= k < self.neighbors_at(c).len() ==> self.grouped(
                #[trigger] self.neighbors_at(c)[k],
            )
        &&& forall|c: (usize, usize)|
            is_cell(self.grid, c) && group_of(self.tile_groups@, c) == self.group_count
                ==> (#[trigger] self.neighbors_at(c)).len() == 0
    }

    /// The invariant of the partition state.
    pub open spec fn wf(&self) -> bool {
        &&& self.tables_ok()
        &&& self.sums_ok()
        &&& self.lists_ok()
        &&& self.group_balance == Balance::of(self.group_sum@)
    }

    /// Whether the balance would improve if the cell `p` joined the group
    /// `taker`.
    pub open spec fn feasible(&self, p: (usize, usize), taker: u8) -> bool {
        Balance::of(
            moved(self.group_sum@, self.group_at(p) as int, taker as int, self.weight_at(p)),
        ).lt(self.group_balance)
    }

    /// Whether the candidate `k` of the home cell `c` gives a transfer to
    /// `group`: the home belongs to `group`, and the balance would improve if
    /// the candidate joined it.
    pub open spec fn hit(&self, group: usize, c: (usize, usize), k: int) -> bool {
        &&& is_cell(self.grid, c)
        &&& self.group_at(c) == group
        &&& 0 <= k < self.neighbors_at(c).len()
        &&& self.feasible(self.neighbors_at(c)[k], self.group_at(c))
    }

    /// Whether `(c, k)` is the first hit of the scan.
    pub open spec fn first_hit(&self, group: usize, c: (usize, usize), k: int) -> bool {
        &&& self.hit(group, c, k)
        &&& forall|c2: (usize, usize), k2: int|
            scanned_before(c2, k2, c, k) ==> !#[trigger] self.hit(group, c2, k2)
    }

    /// Whether `after` is this state once the cell `point` has left its group
    /// for `to_group`: the cell has its new group and the others theirs, no
    /// weight has changed, the weight of the cell has gone from the sum of
    /// the one group to the sum of the other, the balance is that of the new
    /// sums, the neighbour list of `point` is what a scan of its
    /// neighbourhood gives, and the other lists are as they were.
    pub open spec fn reassigned(
        &self,
        after: MapData,
        point: (usize, usize),
        to_group: u8,
        radius: usize,
    ) -> bool {
        &&& after.grid == self.grid
        &&& after.group_count == self.group_count
        &&& after.tile_values == self.tile_values
        &&& table_fits(after.grid, after.tile_groups@)
        &&& table_fits(after.grid, after.tile_neighbors@)
        &&& after.group_at(point) == to_group
        &&& forall|d: (usize, usize)|
            is_cell(self.grid, d) && d != point ==> #[trigger] group_of(after.tile_groups@, d)
                == group_of(self.tile_groups@, d)
        &&& after.group_sum@ == moved(
            self.group_sum@,
            self.group_at(point) as int,
            to_group as int,
            self.weight_at(point),
        )
        &&& total(after.group_sum@) == total(self.group_sum@)
        &&& after.group_balance == Balance::of(after.group_sum@)
        &&& after.neighbors_at(point) == cross_neighbors(
            after.grid,
            after.tile_groups@,
            after.group_count,
            point,
            radius,
        )
        &&& forall|d: (usize, usize)|
            is_cell(self.grid, d) && d != point ==> #[trigger] after.neighbors_at(d)
                == self.neighbors_at(d)
    }

    /// Whether each neighbour list is what a scan with `radius` gives: that
    /// of a cell with a group holds the cells of other groups within the
    /// radius, that of a cell without a group is empty.
    pub open spec fn fresh(&self, radius: usize) -> bool {
        &&& forall|c: (usize, usize)|
            self.grouped(c) ==> #[trigger] self.neighbors_at(c) == cross_neighbors(
                self.grid,
                self.tile_groups@,
                self.group_count,
                c,
                radius,
            )
        &&& forall|c: (usize, usize)|
            is_cell(self.grid, c) && !self.grouped(c) ==> (#[trigger] self.neighbors_at(c)).len()
                == 0
    }

    /// Whether `i` is what the scan for a transfer into `group` proposes: the
    /// first candidate whose joining `group` would improve the balance.
    pub open spec fn proposes(&self, group: usize, i: Instruction) -> bool {
        exists|c: (usize, usize), k: int|
            #![trigger self.hit(group, c, k)]
            self.first_hit(group, c, k) && i.transfer_point == self.neighbors_at(c)[k]
                && i.to_group == group
    }

    /// Whether no candidate of any home cell gives a transfer into `group`.
    pub open spec fn none_improves(&self, group: usize) -> bool {
        forall|c: (usize, usize), k: int| !#[trigger] self.hit(group, c, k)
    }

    /// Whether `g` is the group with the smallest sum, the lowest such group
    /// where several have it.
    pub open spec fn is_poorest(&self, g: int) -> bool {
        &&& 0 <= g < self.group_sum@.len()
        &&& forall|i: int|
            0 <= i < self.group_sum@.len() ==> self.group_sum@[g] <= #[trigger] self.group_sum@[i]
        &&& forall|i: int| 0 <= i < g ==> self.group_sum@[g] < #[trigger] self.group_sum@[i]
    }

    /// The group with the smallest sum, the lowest such group where several
    /// have it.
    pub open spec fn poorest(&self) -> int {
        choose|g: int| self.is_poorest(g)
    }

    /// Whether a transfer can be carried out on this state: its cell belongs
    /// to a group, and the group that it names is one.
    pub open spec fn admits(&self, i: Instruction) -> bool {
        self.grouped(i.transfer_point) && i.to_group < self.group_count
    }

    /// Tells whether a transfer can be carried out on this state.
    pub fn accepts(&self, i: &Instruction) -> (r: bool)
        requires
            self.tables_ok(),
        ensures
            r == self.admits(*i),
    {
        let c = i.transfer_point;
        if !self.grid.in_bounds(c) {
            return false;
        }
        let g: u8 = self.tile_groups[c.0][c.1];
        g < self.group_count && i.to_group < self.group_count
    }

    /// Sets the balance to that of the group sums.
    pub fn update_balance(&mut self)
        requires
            old(self).group_sum@.len() <= 255,
        ensures
            final(self).group_balance == Balance::of(old(self).group_sum@),
            final(self).grid == old(self).grid,
            final(self).group_count == old(self).group_count,
            final(self).tile_groups == old(self).tile_groups,
            final(self).tile_values == old(self).tile_values,
            final(self).group_sum == old(self).group_sum,
            final(self).tile_neighbors == old(self).tile_neighbors,
    {
        self.group_balance = calc_balance(&self.group_sum);
    }

    /// The group with the smallest sum; among equal sums, the lowest group.
    pub fn find_min_group(&self) -> (g: usize)
        requires
            self.group_sum@.len() > 0,
        ensures
            self.is_poorest(g as int),
            g == self.poorest(),
    {
        let mut min_idx: usize = 0;
        let mut min_val: u32 = self.group_sum[0];
        let mut i: usize = 1;
        while i < self.group_sum.len()
            invariant
                1 <= i <= self.group_sum@.len(),
                min_idx < i,
                min_val == self.group_sum@[min_idx as int],
                forall|j: int| 0 <= j < i ==> min_val <= self.group_sum@[j],
                forall|j: int| 0 <= j < min_idx ==> min_val < self.group_sum@[j],
            decreases self.group_sum@.len() - i,
        {
            if self.group_sum[i] < min_val {
                min_val = self.group_sum[i];
                min_idx = i;
            }
            i = i + 1;
        }
        proof {
            assert(self.is_poorest(min_idx as int));
            let p = self.poorest();
            assert(self.is_poorest(p));
            if p < min_idx {
                assert(self.group_sum@[p] >= self.group_sum@[min_idx as int]);
            } else if min_idx < p {
                assert(self.group_sum@[min_idx as int] >= self.group_sum@[p]);
            }
        }
        min_idx
    }

    /// Whether moving the weight of the cell `giver_point` from its group
    /// `giver_group` to `taker_group` would make the balance strictly
    /// smaller. The state is left as it is.
    pub fn should_take(&self, giver_point: (usize, usize), giver_group: u8, taker_group: u8) -> (r:
        bool)
        requires
            self.wf(),
            self.grouped(giver_point),
            giver_group == self.group_at(giver_point),
            taker_group < self.group_count,
        ensures
            r == self.feasible(giver_point, taker_group),
    {
        let mut temp_group_sum: Vec<u32> = self.group_sum.clone();
        let value_transfered: u32 = self.tile_values[giver_point.0][giver_point.1];
        proof {
            assert(group_of(self.tile_groups@, giver_point) == giver_group);
            lemma_table_weight_covers(
                self.tile_groups@,
                self.tile_values@,
                giver_point.0 as int,
                giver_point.1 as int,
            );
            lemma_moved_total(
                self.group_sum@,
                giver_group as int,
                taker_group as int,
                value_transfered,
            );
            assert(temp_group_sum@ =~= self.group_sum@);
        }
        let given: u32 = temp_group_sum[giver_group as usize] - value_transfered;
        temp_group_sum[giver_group as usize] = given;
        let taken: u32 = temp_group_sum[taker_group as usize] + value_transfered;
        temp_group_sum[taker_group as usize] = taken;
        assert(temp_group_sum@ =~= moved(
            self.group_sum@,
            giver_group as int,
            taker_group as int,
            value_transfered,
        ));
        let new_balance = calc_balance(&temp_group_sum);
        new_balance.less_than(&self.group_balance)
    }
}

impl MapData {
    /// Puts the cell `c` into the group `g`.
    fn set_group(&mut self, c: (usize, usize), g: u8)
        requires
            table_fits(old(self).grid, old(self).tile_groups@),
            is_cell(old(self).grid, c),
        ensures
            table_fits(final(self).grid, final(self).tile_groups@),
            final(self).group_at(c) == g,
            forall|d: (usize, usize)|
                is_cell(old(self).grid, d) && d != c ==> #[trigger] group_of(
                    final(self).tile_groups@,
                    d,
                ) == group_of(old(self).tile_groups@, d),
            final(self).tile_groups@.len() == old(self).tile_groups@.len(),
            final(self).tile_groups@[c.0 as int]@ == old(self).tile_groups@[c.0 as int]@.update(
                c.1 as int,
                g,
            ),
            forall|i: int|
                0 <= i < old(self).tile_groups@.len() && i != c.0 ==> final(self).tile_groups@[i]
                    == old(self).tile_groups@[i],
            final(self).grid == old(self).grid,
            final(self).group_count == old(self).group_count,
            final(self).tile_values == old(self).tile_values,
            final(self).group_sum == old(self).group_sum,
            final(self).group_balance == old(self).group_balance,
            final(self).tile_neighbors == old(self).tile_neighbors,
    {
        self.tile_groups[c.0][c.1] = g;
    }

    /// Gives the cell `c` the neighbour list `list`.
    fn set_neighbors(&mut self, c: (usize, usize), list: Vec<(usize, usize)>)
        requires
            table_fits(old(self).grid, old(self).tile_neighbors@),
            is_cell(old(self).grid, c),
        ensures
            table_fits(final(self).grid, final(self).tile_neighbors@),
            final(self).neighbors_at(c) == list@,
            forall|d: (usize, usize)|
                is_cell(old(self).grid, d) && d != c ==> #[trigger] final(self).neighbors_at(d)
                    == old(self).neighbors_at(d),
            final(self).grid == old(self).grid,
            final(self).group_count == old(self).group_count,
            final(self).tile_groups == old(self).tile_groups,
            final(self).tile_values == old(self).tile_values,
            final(self).group_sum == old(self).group_sum,
            final(self).group_balance == old(self).group_balance,
    {
        self.tile_neighbors[c.0][c.1] = list;
    }

    /// Scans the neighbourhood of `point` for the cells that belong to
    /// another group.
    fn scan_neighbors(&self, point: (usize, usize), radius: usize) -> (list: Vec<(usize, usize)>)
        requires
            self.tables_ok(),
            is_cell(self.grid, point),
        ensures
            list@ == cross_neighbors(
                self.grid,
                self.tile_groups@,
                self.group_count,
                point,
                radius,
            ),
            forall|k: int| 0 <= k < list@.len() ==> self.grouped(#[trigger] list@[k]),
    {
        let nbhd = self.grid.get_nbhd(point, radius);
        let group: u8 = self.tile_groups[point.0][point.1];
        let ghost keep = crossing(self.tile_groups@, self.group_count, point);
        let mut list: Vec<(usize, usize)> = Vec::new();
        let mut k: usize = 0;
        proof {
            reveal(Seq::filter);
        }
        while k < nbhd.len()
            invariant
                k <= nbhd.len(),
                self.tables_ok(),
                is_cell(self.grid, point),
                nbhd@ == self.grid.neighborhood(point, radius),
                group == group_of(self.tile_groups@, point),
                keep == crossing(self.tile_groups@, self.group_count, point),
                list@ == nbhd@.take(k as int).filter(keep),
                forall|j: int| 0 <= j < list@.len() ==> self.grouped(#[trigger] list@[j]),
            decreases nbhd.len() - k,
        {
            let (xx, yy) = nbhd[k];
            proof {
                assert(nbhd@.contains(nbhd@[k as int]));
                self.grid.lemma_neighborhood_members(point, radius, (xx, yy));
                assert(is_cell(self.grid, (xx, yy)));
                assert(nbhd@.take(k + 1).drop_last() =~= nbhd@.take(k as int));
                assert(nbhd@.take(k + 1).last() == (xx, yy));
                reveal(Seq::filter);
                assert(keep((xx, yy)) == crosses(
                    self.tile_groups@,
                    self.group_count,
                    point,
                    (xx, yy),
                ));
            }
            let other: u8 = self.tile_groups[xx][yy];
            if other < self.group_count && other != group {
                list.push((xx, yy));
            }
            k = k + 1;
        }
        proof {
            assert(nbhd@.take(k as int) =~= nbhd@);
        }
        list
    }

    /// Rebuilds the neighbour list of every cell that belongs to a group.
    pub fn calculate_neighbors(&mut self, radius: usize)
        requires
            old(self).wf(),
        ensures
            final(self).wf(),
            final(self).grid == old(self).grid,
            final(self).group_count == old(self).group_count,
            final(self).tile_groups == old(self).tile_groups,
            final(self).tile_values == old(self).tile_values,
            final(self).group_sum == old(self).group_sum,
            final(self).group_balance == old(self).group_balance,
            final(self).fresh(radius),
    {
        let x_range = self.grid.x_range();
        let y_range = self.grid.y_range();
        let ghost start = *self;
        let mut x: usize = 1;
        while x < x_range
            invariant
                1 <= x <= x_range,
                x_range == self.grid.x_span(),
                y_range == self.grid.y_span(),
                self.tables_ok(),
                self.lists_ok(),
                start.wf(),
                self.grid == start.grid,
                self.group_count == start.group_count,
                self.tile_groups == start.tile_groups,
                self.tile_values == start.tile_values,
                self.group_sum == start.group_sum,
                self.group_balance == start.group_balance,
                forall|c: (usize, usize)|
                    self.grouped(c) && c.0 < x ==> #[trigger] self.neighbors_at(c)
                        == cross_neighbors(
                        self.grid,
                        self.tile_groups@,
                        self.group_count,
                        c,
                        radius,
                    ),
            decreases x_range - x,
        {
            let mut y: usize = 1;
            while y < y_range
                invariant
                    1 <= x < x_range,
                    1 <= y <= y_range,
                    x_range == self.grid.x_span(),
                    y_range == self.grid.y_span(),
                    self.tables_ok(),
                    self.lists_ok(),
                    start.wf(),
                    self.grid == start.grid,
                    self.group_count == start.group_count,
                    self.tile_groups == start.tile_groups,
                    self.tile_values == start.tile_values,
                    self.group_sum == start.group_sum,
                    self.group_balance == start.group_balance,
                    forall|c: (usize, usize)|
                        self.grouped(c) && (c.0 < x || (c.0 == x && c.1 < y))
                            ==> #[trigger] self.neighbors_at(c) == cross_neighbors(
                            self.grid,
                            self.tile_groups@,
                            self.group_count,
                            c,
                            radius,
                        ),
                decreases y_range - y,
            {
                let group: u8 = self.tile_groups[x][y];
                assert(group == group_of(self.tile_groups@, (x, y)));
                if group != self.group_count {
                    let list = self.scan_neighbors((x, y), radius);
                    let ghost before = *self;
                    self.set_neighbors((x, y), list);
                    assert(self.lists_ok()) by {
                        assert forall|c: (usize, usize), k: int|
                            is_cell(self.grid, c) && 0 <= k < self.neighbors_at(c).len()
                            implies self.grouped(#[trigger] self.neighbors_at(c)[k]) by {
                            if c != (x, y) {
                                assert(self.neighbors_at(c) == before.neighbors_at(c));
                                assert(before.grouped(before.neighbors_at(c)[k]));
                            }
                        }
                        assert forall|c: (usize, usize)|
                            is_cell(self.grid, c) && group_of(self.tile_groups@, c)
                                == self.group_count implies (#[trigger] self.neighbors_at(
                            c,
                        )).len() == 0 by {
                            assert(self.neighbors_at(c) == before.neighbors_at(c));
                        }
                    }
                    assert forall|c: (usize, usize)|
                        self.grouped(c) && (c.0 < x || (c.0 == x && c.1 < y + 1))
                        implies #[trigger] self.neighbors_at(c) == cross_neighbors(
                        self.grid,
                        self.tile_groups@,
                        self.group_count,
                        c,
                        radius,
                    ) by {
                        if c != (x, y) {
                            assert(self.neighbors_at(c) == before.neighbors_at(c));
                        }
                    }
                }
                y = y + 1;
            }
            x = x + 1;
        }
        proof {
            assert forall|c: (usize, usize)|
                is_cell(self.grid, c) && !self.grouped(c) implies (#[trigger] self.neighbors_at(
                c,
            )).len() == 0 by {
                assert(group_of(self.tile_groups@, c) <= self.group_count);
            }
            assert forall|c: (usize, usize)| self.grouped(c) implies c.0 < x by {
                if !self.grid.interior(c) {
                    assert(group_of(self.tile_groups@, c) == self.group_count);
                }
            }
        }
    }

    /// Carries out one transfer: the cell `point` leaves its group for
    /// `to_group` and takes its weight along. The balance is set anew and the
    /// neighbour list of `point` is rebuilt; the lists of other cells stay as
    /// they are.
    pub fn reassign_group(&mut self, point: (usize, usize), to_group: u8, radius: usize)
        requires
            old(self).wf(),
            old(self).grouped(point),
            to_group < old(self).group_count,
        ensures
            final(self).wf(),
            old(self).reassigned(*final(self), point, to_group, radius),
            total(final(self).group_sum@) == total(old(self).group_sum@),
    {
        let ghost start = *self;
        let v: u32 = self.tile_values[point.0][point.1];
        let from_group: u8 = self.tile_groups[point.0][point.1];
        proof {
            assert(from_group == group_of(self.tile_groups@, point));
            lemma_table_weight_covers(
                self.tile_groups@,
                self.tile_values@,
                point.0 as int,
                point.1 as int,
            );
            lemma_moved_total(self.group_sum@, from_group as int, to_group as int, v);
        }
        let given: u32 = self.group_sum[from_group as usize] - v;
        self.group_sum[from_group as usize] = given;
        let taken: u32 = self.group_sum[to_group as usize] + v;
        self.group_sum[to_group as usize] = taken;
        assert(self.group_sum@ =~= moved(start.group_sum@, from_group as int, to_group as int, v));
        self.set_group(point, to_group);
        self.update_balance();
        proof {
            assert(self.tables_ok()) by {
                assert forall|c: (usize, usize)| is_cell(self.grid, c) implies #[trigger] group_of(
                    self.tile_groups@,
                    c,
                ) <= self.group_count by {
                    if c != point {
                        assert(group_of(start.tile_groups@, c) <= start.group_count);
                    }
                }
                assert forall|c: (usize, usize)|
                    is_cell(self.grid, c) && !self.grid.interior(c) implies #[trigger] group_of(
                    self.tile_groups@,
                    c,
                ) == self.group_count by {
                    assert(group_of(start.tile_groups@, c) == start.group_count);
                }
            }
            assert forall|g: u8| g < self.group_count implies #[trigger] self.group_sum@[g as int]
                == table_weight(
                self.tile_groups@,
                self.tile_values@,
                g,
                self.tile_groups@.len() as int,
            ) by {
                lemma_table_weight_update(
                    start.tile_groups@,
                    self.tile_groups@,
                    self.tile_values@,
                    g,
                    start.tile_groups@.len() as int,
                    point.0 as int,
                    point.1 as int,
                    to_group,
                );
                assert(start.group_sum@[g as int] == table_weight(
                    start.tile_groups@,
                    start.tile_values@,
                    g,
                    start.tile_groups@.len() as int,
                ));
            }
        }
        let list = self.scan_neighbors(point, radius);
        let ghost before = *self;
        self.set_neighbors(point, list);
        proof {
            assert forall|c: (usize, usize), k: int|
                is_cell(self.grid, c) && 0 <= k < self.neighbors_at(c).len()
                implies self.grouped(#[trigger] self.neighbors_at(c)[k]) by {
                if c != point {
                    assert(self.neighbors_at(c) == start.neighbors_at(c));
                    let e = start.neighbors_at(c)[k];
                    assert(start.grouped(e));
                    if e != point {
                        assert(group_of(self.tile_groups@, e) == group_of(start.tile_groups@, e));
                    }
                } else {
                    assert(before.grouped(list@[k]));
                }
            }
            assert forall|c: (usize, usize)|
                is_cell(self.grid, c) && group_of(self.tile_groups@, c)
                    == self.group_count implies (#[trigger] self.neighbors_at(c)).len() == 0 by {
                assert(c != point);
                assert(group_of(self.tile_groups@, c) == group_of(start.tile_groups@, c));
                assert(self.neighbors_at(c) == start.neighbors_at(c));
            }
        }
    }

    /// Looks for one transfer into `group` that improves the balance. The
    /// cells are gone through by x and then by y; for each one that belongs
    /// to `group`, its neighbour list is gone through in order. The first
    /// neighbour whose joining `group` would improve the balance is
    /// proposed. Where there is none, nothing is proposed.
    pub fn create_player_instruction(&self, group: usize) -> (r: Option<Instruction>)
        requires
            self.wf(),
        ensures
            match r {
                Some(i) => {
                    &&& self.proposes(group, i)
                    &&& self.admits(i)
                    &&& self.feasible(i.transfer_point, i.to_group)
                },
                None => self.none_improves(group),
            },
    {
        let x_range = self.grid.x_range();
        let y_range = self.grid.y_range();
        let mut x: usize = 0;
        while x <= x_range
            invariant
                x <= x_range + 1,
                x_range == self.grid.x_span(),
                y_range == self.grid.y_span(),
                self.wf(),
                forall|c: (usize, usize), k: int| c.0 < x ==> !#[trigger] self.hit(group, c, k),
            decreases x_range + 1 - x,
        {
            let mut y: usize = 0;
            while y <= y_range
                invariant
                    x <= x_range,
                    y <= y_range + 1,
                    x_range == self.grid.x_span(),
                    y_range == self.grid.y_span(),
                    self.wf(),
                    forall|c: (usize, usize), k: int|
                        c.0 < x || (c.0 == x && c.1 < y) ==> !#[trigger] self.hit(group, c, k),
                decreases y_range + 1 - y,
            {
                let taker: u8 = self.tile_groups[x][y];
                assert(taker == group_of(self.tile_groups@, (x, y)));
                let nbhd = &self.tile_neighbors[x][y];
                assert(nbhd@ == self.neighbors_at((x, y)));
                if nbhd.len() != 0 && taker as usize == group {
                    let mut k: usize = 0;
                    while k < nbhd.len()
                        invariant
                            x <= x_range,
                            y <= y_range,
                            k <= nbhd.len(),
                            x_range == self.grid.x_span(),
                            y_range == self.grid.y_span(),
                            self.wf(),
                            nbhd@ == self.neighbors_at((x, y)),
                            nbhd.len() != 0,
                            taker == group_of(self.tile_groups@, (x, y)),
                            taker == group,
                            forall|c: (usize, usize), j: int|
                                scanned_before(c, j, (x, y), k as int) ==> !#[trigger] self.hit(
                                    group,
                                    c,
                                    j,
                                ),
                        decreases nbhd.len() - k,
                    {
                        let test_point: (usize, usize) = nbhd[k];
                        assert(self.grouped(self.neighbors_at((x, y))[k as int]));
                        let giver: u8 = self.tile_groups[test_point.0][test_point.1];
                        assert(giver == group_of(self.tile_groups@, test_point));
                        if self.should_take(test_point, giver, taker) {
                            assert(self.first_hit(group, (x, y), k as int));
                            return Some(
                                Instruction { transfer_point: test_point, to_group: taker },
                            );
                        }
                        k = k + 1;
                    }
                }
                y = y + 1;
            }
            x = x + 1;
        }
        None
    }
}

/// Whether the cell `c` has a group that the tables may hold: none beyond
/// `count`, and `count` itself on the border ring.
pub open spec fn cell_ok(grid: Grid, groups: Seq<Vec<u8>>, count: u8, c: (usize, usize)) -> bool {
    group_of(groups, c) <= count && (!grid.interior(c) ==> group_of(groups, c) == count)
}

/// Whether a partition state can be made of the tables: the grid is in
/// order, there are at least three groups, both tables have the grid's shape,
/// each cell has a group that it may have, and the whole weight of the groups
/// fits 32 bits.
pub open spec fn valid_tables(
    grid: Grid,
    count: u8,
    groups: Seq<Vec<u8>>,
    values: Seq<Vec<u32>>,
) -> bool {
    &&& grid.wf()
    &&& count >= 3
    &&& table_fits(grid, groups)
    &&& table_fits(grid, values)
    &&& forall|c: (usize, usize)| is_cell(grid, c) ==> #[trigger] cell_ok(grid, groups, count, c)
    &&& weight_below(groups, values, count as int) <= u32::MAX
}

/// Whether a table has the grid's shape.
fn shape_fits<T>(grid: &Grid, table: &Vec<Vec<T>>) -> (r: bool)
    requires
        grid.wf(),
    ensures
        r == table_fits(*grid, table@),
{
    if table.len() != grid.x_range() + 1 {
        return false;
    }
    let height = grid.y_range() + 1;
    let mut x: usize = 0;
    while x < table.len()
        invariant
            x <= table@.len(),
            table@.len() == grid.x_span() + 1,
            height == grid.y_span() + 1,
            forall|i: int| 0 <= i < x ==> (#[trigger] table@[i])@.len() == grid.y_span() + 1,
        decreases table@.len() - x,
    {
        if table[x].len() != height {
            return false;
        }
        x = x + 1;
    }
    true
}

/// Whether each cell of a table of groups has a group that it may have.
fn groups_fit(grid: &Grid, count: u8, groups: &Vec<Vec<u8>>) -> (r: bool)
    requires
        grid.wf(),
        table_fits(*grid, groups@),
    ensures
        r == (forall|c: (usize, usize)|
            is_cell(*grid, c) ==> #[trigger] cell_ok(*grid, groups@, count, c)),
{
    let x_range = grid.x_range();
    let y_range = grid.y_range();
    let mut x: usize = 0;
    while x <= x_range
        invariant
            x <= x_range + 1,
            grid.wf(),
            x_range == grid.x_span(),
            y_range == grid.y_span(),
            table_fits(*grid, groups@),
            forall|c: (usize, usize)|
                is_cell(*grid, c) && c.0 < x ==> #[trigger] cell_ok(*grid, groups@, count, c),
        decreases x_range + 1 - x,
    {
        let mut y: usize = 0;
        while y <= y_range
            invariant
                x <= x_range,
                y <= y_range + 1,
                grid.wf(),
                x_range == grid.x_span(),
                y_range == grid.y_span(),
                table_fits(*grid, groups@),
                forall|c: (usize, usize)|
                    is_cell(*grid, c) && (c.0 < x || (c.0 == x && c.1 < y)) ==> #[trigger] cell_ok(
                        *grid,
                        groups@,
                        count,
                        c,
                    ),
            decreases y_range + 1 - y,
        {
            let g: u8 = groups[x][y];
            let on_ring = x == 0 || x == x_range || y == 0 || y == y_range;
            if g > count || (on_ring && g != count) {
                assert(is_cell(*grid, (x, y)) && !cell_ok(*grid, groups@, count, (x, y)));
                return false;
            }
            assert(cell_ok(*grid, groups@, count, (x, y)));
            y = y + 1;
        }
        x = x + 1;
    }
    true
}

/// A table of the grid's shape in which every neighbour list is empty.
fn empty_lists(grid: &Grid) -> (table: Vec<Vec<Vec<(usize, usize)>>>)
    requires
        grid.wf(),
    ensures
        table_fits(*grid, table@),
        forall|x: int, y: int|
            0 <= x <= grid.x_span() && 0 <= y <= grid.y_span() ==> (#[trigger] table@[x]@[y])@.len()
                == 0,
{
    let x_range = grid.x_range();
    let y_range = grid.y_range();
    let mut table: Vec<Vec<Vec<(usize, usize)>>> = Vec::new();
    let mut x: usize = 0;
    while x <= x_range
        invariant
            x <= x_range + 1,
            grid.wf(),
            x_range == grid.x_span(),
            y_range == grid.y_span(),
            table@.len() == x,
            forall|i: int| 0 <= i < x ==> (#[trigger] table@[i])@.len() == grid.y_span() + 1,
            forall|i: int, j: int|
                0 <= i < x && 0 <= j <= grid.y_span() ==> (#[trigger] table@[i]@[j])@.len() == 0,
        decreases x_range + 1 - x,
    {
        let mut column: Vec<Vec<(usize, usize)>> = Vec::new();
        let mut y: usize = 0;
        while y <= y_range
            invariant
                y <= y_range + 1,
                grid.wf(),
                y_range == grid.y_span(),
                column@.len() == y,
                forall|j: int| 0 <= j < y ==> (#[trigger] column@[j])@.len() == 0,
            decreases y_range + 1 - y,
        {
            column.push(Vec::new());
            y = y + 1;
        }
        table.push(column);
        x = x + 1;
    }
    table
}

impl MapData {
    /// The partition state of the given tables of groups and weights, with
    /// the group sums, the balance and the neighbour lists that follow from
    /// them; nothing where the tables are not valid.
    pub fn new(
        grid: Grid,
        group_count: u8,
        tile_groups: Vec<Vec<u8>>,
        tile_values: Vec<Vec<u32>>,
        radius: usize,
    ) -> (r: Option<MapData>)
        ensures
            r.is_some() == valid_tables(grid, group_count, tile_groups@, tile_values@),
            match r {
                Some(m) => {
                    &&& m.wf()
                    &&& m.grid == grid
                    &&& m.group_count == group_count
                    &&& m.tile_groups == tile_groups
                    &&& m.tile_values == tile_values
                    &&& m.fresh(radius)
                },
                None => true,
            },
    {
        if Grid::new(grid.x_min, grid.x_max, grid.y_min, grid.y_max).is_none() || group_count < 3 {
            return None;
        }
        if !shape_fits(&grid, &tile_groups) || !shape_fits(&grid, &tile_values) {
            return None;
        }
        if !groups_fit(&grid, group_count, &tile_groups) {
            return None;
        }
        let mut group_sum: Vec<u32> = Vec::new();
        let mut acc: u32 = 0;
        let mut g: u8 = 0;
        while g < group_count
            invariant
                g <= group_count,
                table_fits(grid, tile_groups@),
                table_fits(grid, tile_values@),
                group_sum@.len() == g,
                forall|j: u8|
                    j < g ==> #[trigger] group_sum@[j as int] == table_weight(
                        tile_groups@,
                        tile_values@,
                        j,
                        tile_groups@.len() as int,
                    ),
                acc == weight_below(tile_groups@, tile_values@, g as int),
                acc == total(group_sum@),
            decreases group_count - g,
        {
            proof {
                lemma_weight_below_bounds(tile_groups@, tile_values@, g + 1, group_count as int);
                lemma_weight_below_bounds(tile_groups@, tile_values@, g as int, g as int);
            }
            let w: u32 = match group_weight(&tile_groups, &tile_values, g) {
                Some(w) => w,
                None => {
                    return None;
                },
            };
            if acc > u32::MAX - w {
                return None;
            }
            acc = acc + w;
            let ghost before = group_sum@;
            group_sum.push(w);
            assert(group_sum@.drop_last() =~= before);
            g = g + 1;
        }
        let group_balance = calc_balance(&group_sum);
        let tile_neighbors = empty_lists(&grid);
        let mut m = MapData {
            grid,
            group_count,
            tile_groups,
            tile_values,
            group_sum,
            group_balance,
            tile_neighbors,
        };
        proof {
            assert forall|c: (usize, usize)| is_cell(m.grid, c) implies #[trigger] group_of(
                m.tile_groups@,
                c,
            ) <= m.group_count by {
                assert(cell_ok(grid, m.tile_groups@, group_count, c));
            }
            assert forall|c: (usize, usize)|
                is_cell(m.grid, c) && !m.grid.interior(c) implies #[trigger] group_of(
                m.tile_groups@,
                c,
            ) == m.group_count by {
                assert(cell_ok(grid, m.tile_groups@, group_count, c));
            }
            assert forall|c: (usize, usize)| is_cell(m.grid, c) implies (#[trigger] m.neighbors_at(
                c,
            )).len() == 0 by {
                assert(m.tile_neighbors@[c.0 as int]@[c.1 as int]@.len() == 0);
            }
        }
        m.calculate_neighbors(radius);
        Some(m)
    }
}

/// A transfer that the feasibility test lets pass makes the balance strictly
/// smaller once it is carried out.
pub proof fn lemma_accepted_transfer_improves(
    before: MapData,
    after: MapData,
    point: (usize, usize),
    to_group: u8,
    radius: usize,
)
    requires
        before.wf(),
        before.grouped(point),
        to_group < before.group_count,
        before.feasible(point, to_group),
        before.reassigned(after, point, to_group, radius),
    ensures
        after.group_balance.lt(before.group_balance),
        after.group_balance.total < before.group_balance.total,
{
    lemma_pairwise_gap_bound(before.group_sum@);
    lemma_pairwise_gap_bound(after.group_sum@);
    let a = after.group_balance.total as int;
    let b = before.group_balance.total as int;
    let p = before.group_balance.pairs as int;
    assert(after.group_balance.pairs == p);
    assert(a < b) by (nonlinear_arith)
        requires
            a * p < b * p,
            p >= 0,
    ;
}

/// A transfer leaves the sum of the group sums as it was.
pub proof fn lemma_transfer_keeps_weight(
    before: MapData,
    after: MapData,
    point: (usize, usize),
    to_group: u8,
    radius: usize,
)
    requires
        before.wf(),
        before.grouped(point),
        to_group < before.group_count,
        before.reassigned(after, point, to_group, radius),
    ensures
        total(after.group_sum@) == total(before.group_sum@),
{
}

/// A neighbour list that a scan has built holds no cell of the home cell's
/// own group, no cell that belongs to no group, and so no cell of the border
/// ring; each of its cells lies in the grid.
pub proof fn lemma_cross_neighbors_cross(
    grid: Grid,
    groups: Seq<Vec<u8>>,
    count: u8,
    c: (usize, usize),
    radius: usize,
    k: int,
)
    requires
        grid.wf(),
        table_fits(grid, groups),
        forall|d: (usize, usize)|
            is_cell(grid, d) && !grid.interior(d) ==> #[trigger] group_of(groups, d) == count,
        0 <= k < cross_neighbors(grid, groups, count, c, radius).len(),
    ensures
        group_of(groups, cross_neighbors(grid, groups, count, c, radius)[k]) != group_of(groups, c),
        group_of(groups, cross_neighbors(grid, groups, count, c, radius)[k]) < count,
        is_cell(grid, cross_neighbors(grid, groups, count, c, radius)[k]),
        grid.interior(cross_neighbors(grid, groups, count, c, radius)[k]),
{
    let all = grid.neighborhood(c, radius);
    let keep = crossing(groups, count, c);
    let d = all.filter(keep)[k];
    all.lemma_filter_pred(keep, k);
    assert(all.filter(keep).contains(d));
    all.lemma_filter_contains_rev(keep, d);
    grid.lemma_neighborhood_members(c, radius, d);
}

/// Whether `states` is a run of transfers: each state is well formed and
/// admits the transfer that `moves` names for it, and the next state is what
/// the transfer makes of it.
pub open spec fn is_run(states: Seq<MapData>, moves: Seq<Instruction>, radius: usize) -> bool {
    &&& states.len() == moves.len() + 1
    &&& forall|k: int|
        0 <= k < moves.len() ==> {
            &&& (#[trigger] states[k]).wf()
            &&& states[k].admits(moves[k])
            &&& states[k].reassigned(
                states[k + 1],
                moves[k].transfer_point,
                moves[k].to_group,
                radius,
            )
        }
}

/// Whether each transfer of a run has passed the feasibility test on the
/// state that it was applied to.
pub open spec fn all_accepted(states: Seq<MapData>, moves: Seq<Instruction>) -> bool {
    forall|k: int|
        0 <= k < moves.len() ==> (#[trigger] states[k]).feasible(
            moves[k].transfer_point,
            moves[k].to_group,
        )
}

/// Over any run of transfers, however long, the sum of the group sums stays
/// what it was at the start.
pub proof fn lemma_run_keeps_weight(
    states: Seq<MapData>,
    moves: Seq<Instruction>,
    radius: usize,
    j: int,
)
    requires
        is_run(states, moves, radius),
        0 <= j < states.len(),
    ensures
        total(states[j].group_sum@) == total(states[0].group_sum@),
    decreases j,
{
    if j > 0 {
        lemma_run_keeps_weight(states, moves, radius, j - 1);
        assert(states[j - 1].wf());
    }
}

/// Over a run of transfers that have all passed the feasibility test, the
/// balance after each transfer is strictly smaller than before it, and so
/// than at any earlier state.
pub proof fn lemma_accepted_run_improves(
    states: Seq<MapData>,
    moves: Seq<Instruction>,
    radius: usize,
    i: int,
    j: int,
)
    requires
        is_run(states, moves, radius),
        all_accepted(states, moves),
        0 <= i < j < states.len(),
    ensures
        states[j].group_balance.total < states[i].group_balance.total,
        states[j].group_balance.pairs == states[i].group_balance.pairs,
        states[j].group_balance.lt(states[i].group_balance),
    decreases j - i,
{
    let before = states[j - 1];
    let m = moves[j - 1];
    assert(before.wf());
    assert(before.feasible(m.transfer_point, m.to_group));
    lemma_accepted_transfer_improves(before, states[j], m.transfer_point, m.to_group, radius);
    if i < j - 1 {
        lemma_accepted_run_improves(states, moves, radius, i, j - 1);
    }
    let a = states[j].group_balance.total as int;
    let b = states[i].group_balance.total as int;
    let p = states[i].group_balance.pairs as int;
    assert(states[i].wf());
    lemma_pairwise_gap_bound(states[i].group_sum@);
    lemma_pair_count_positive(states[i].group_sum@.len());
    assert(a * p < b * p) by (nonlinear_arith)
        requires
            a < b,
            p > 0,
    ;
}

/// Where the neighbour lists are what a scan gives, no list holds a cell of
/// its home cell's own group, no cell of the border ring is the home of a
/// listed cell, and none is listed.
pub proof fn lemma_fresh_lists_cross(m: MapData, radius: usize, c: (usize, usize), k: int)
    requires
        m.wf(),
        m.fresh(radius),
        is_cell(m.grid, c),
        0 <= k < m.neighbors_at(c).len(),
    ensures
        m.group_at(m.neighbors_at(c)[k]) != m.group_at(c),
        m.grouped(m.neighbors_at(c)[k]),
        m.grid.interior(m.neighbors_at(c)[k]),
        m.grouped(c),
        m.grid.interior(c),
{
    assert(m.grouped(c));
    assert(group_of(m.tile_groups@, c) < m.group_count);
    lemma_cross_neighbors_cross(m.grid, m.tile_groups@, m.group_count, c, radius, k);
}

impl MapData {
    /// Whether each group sum is the weight of its group.
    fn sums_fit(&self) -> (r: bool)
        requires
            self.grid.wf(),
            table_fits(self.grid, self.tile_groups@),
            table_fits(self.grid, self.tile_values@),
            self.group_sum@.len() == self.group_count,
        ensures
            r == (forall|g: u8|
                g < self.group_count ==> #[trigger] self.group_sum@[g as int] == table_weight(
                    self.tile_groups@,
                    self.tile_values@,
                    g,
                    self.tile_groups@.len() as int,
                )),
    {
        let mut g: u8 = 0;
        while g < self.group_count
            invariant
                g <= self.group_count,
                table_fits(self.grid, self.tile_groups@),
                table_fits(self.grid, self.tile_values@),
                self.group_sum@.len() == self.group_count,
                forall|j: u8|
                    j < g ==> #[trigger] self.group_sum@[j as int] == table_weight(
                        self.tile_groups@,
                        self.tile_values@,
                        j,
                        self.tile_groups@.len() as int,
                    ),
            decreases self.group_count - g,
        {
            match group_weight(&self.tile_groups, &self.tile_values, g) {
                Some(w) => {
                    if w != self.group_sum[g as usize] {
                        return false;
                    }
                },
                None => {
                    assert(self.group_sum@[g as int] != table_weight(
                        self.tile_groups@,
                        self.tile_values@,
                        g,
                        self.tile_groups@.len() as int,
                    ));
                    return false;
                },
            }
            g = g + 1;
        }
        true
    }

    /// Whether the neighbour list of the cell `c` holds only cells of the
    /// grid that belong to a group, and none where `c` belongs to no group.
    pub open spec fn list_ok(&self, c: (usize, usize)) -> bool {
        &&& forall|k: int|
            0 <= k < self.neighbors_at(c).len() ==> self.grouped(#[trigger] self.neighbors_at(c)[k])
        &&& group_of(self.tile_groups@, c) == self.group_count ==> self.neighbors_at(c).len() == 0
    }

    /// Whether the neighbour list of each cell is in order.
    fn lists_fit(&self) -> (r: bool)
        requires
            self.tables_ok(),
        ensures
            r == self.lists_ok(),
    {
        let x_range = self.grid.x_range();
        let y_range = self.grid.y_range();
        let mut x: usize = 0;
        while x <= x_range
            invariant
                x <= x_range + 1,
                x_range == self.grid.x_span(),
                y_range == self.grid.y_span(),
                self.tables_ok(),
                forall|c: (usize, usize)|
                    is_cell(self.grid, c) && c.0 < x ==> #[trigger] self.list_ok(c),
            decreases x_range + 1 - x,
        {
            let mut y: usize = 0;
            while y <= y_range
                invariant
                    x <= x_range,
                    y <= y_range + 1,
                    x_range == self.grid.x_span(),
                    y_range == self.grid.y_span(),
                    self.tables_ok(),
                    forall|c: (usize, usize)|
                        is_cell(self.grid, c) && (c.0 < x || (c.0 == x && c.1 < y))
                            ==> #[trigger] self.list_ok(c),
                decreases y_range + 1 - y,
            {
                let list = &self.tile_neighbors[x][y];
                assert(list@ == self.neighbors_at((x, y)));
                let home: u8 = self.tile_groups[x][y];
                assert(home == group_of(self.tile_groups@, (x, y)));
                if home == self.group_count && list.len() != 0 {
                    assert(is_cell(self.grid, (x, y)));
                    return false;
                }
                let mut k: usize = 0;
                while k < list.len()
                    invariant
                        x <= x_range,
                        y <= y_range,
                        k <= list@.len(),
                        x_range == self.grid.x_span(),
                        y_range == self.grid.y_span(),
                        self.tables_ok(),
                        list@ == self.neighbors_at((x, y)),
                        forall|j: int| 0 <= j < k ==> self.grouped(#[trigger] list@[j]),
                    decreases list@.len() - k,
                {
                    let d: (usize, usize) = list[k];
                    if !self.grid.in_bounds(d) || self.tile_groups[d.0][d.1] >= self.group_count {
                        assert(!self.grouped(self.neighbors_at((x, y))[k as int]));
                        assert(is_cell(self.grid, (x, y)));
                        return false;
                    }
                    k = k + 1;
                }
                assert(self.list_ok((x, y)));
                y = y + 1;
            }
            x = x + 1;
        }
        proof {
            assert forall|c: (usize, usize), k: int|
                is_cell(self.grid, c) && 0 <= k < self.neighbors_at(c).len()
                implies self.grouped(#[trigger] self.neighbors_at(c)[k]) by {
                assert(self.list_ok(c));
            }
            assert forall|c: (usize, usize)|
                is_cell(self.grid, c) && group_of(self.tile_groups@, c)
                    == self.group_count implies (#[trigger] self.neighbors_at(c)).len() == 0 by {
                assert(self.list_ok(c));
            }
        }
        true
    }

    /// Tells whether the state is well formed. A state that `new` or
    /// `generate_map` has made and that only the functions of this library
    /// have changed is; one that was put together by hand need not be.
    pub fn is_valid(&self) -> (r: bool)
        ensures
            r == self.wf(),
    {
        let grid = self.grid;
        if Grid::new(grid.x_min, grid.x_max, grid.y_min, grid.y_max).is_none() || self.group_count
            < 3 {
            return false;
        }
        if !shape_fits(&self.grid, &self.tile_groups) || !shape_fits(&self.grid, &self.tile_values)
            || !shape_fits(&self.grid, &self.tile_neighbors) {
            return false;
        }
        if !groups_fit(&self.grid, self.group_count, &self.tile_groups) {
            proof {
                if self.tables_ok() {
                    assert forall|c: (usize, usize)|
                        is_cell(self.grid, c) implies #[trigger] cell_ok(
                        self.grid,
                        self.tile_groups@,
                        self.group_count,
                        c,
                    ) by {
                        assert(group_of(self.tile_groups@, c) <= self.group_count);
                    }
                }
            }
            return false;
        }
        proof {
            assert forall|c: (usize, usize)| is_cell(self.grid, c) implies #[trigger] group_of(
                self.tile_groups@,
                c,
            ) <= self.group_count by {
                assert(cell_ok(self.grid, self.tile_groups@, self.group_count, c));
            }
            assert forall|c: (usize, usize)|
                is_cell(self.grid, c) && !self.grid.interior(c) implies #[trigger] group_of(
                self.tile_groups@,
                c,
            ) == self.group_count by {
                assert(cell_ok(self.grid, self.tile_groups@, self.group_count, c));
            }
            assert(self.tables_ok());
        }
        if self.group_sum.len() != self.group_count as usize {
            return false;
        }
        if !self.sums_fit() || sum_all(&self.group_sum) > 0xffff_ffff {
            return false;
        }
        let balance = calc_balance(&self.group_sum);
        if balance.total != self.group_balance.total || balance.pairs != self.group_balance.pairs {
            return false;
        }
        self.lists_fit()
    }
}

} // verus!
