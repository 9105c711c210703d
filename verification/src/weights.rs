//! Sums of cell weights by group, and what a transfer does to them.

use vstd::prelude::*;

verus! {

/// The weight that the first `n` cells of a column hold in group `g`.
pub open spec fn row_weight(groups: Seq<u8>, values: Seq<u32>, g: u8, n: int) -> int
    decreases n,
{
    if n <= 0 {
        0
    } else {
        row_weight(groups, values, g, n - 1) + if groups[n - 1] == g {
            values[n - 1] as int
        } else {
            0
        }
    }
}

/// The weight that the first `n` columns of the tables hold in group `g`.
pub open spec fn table_weight(groups: Seq<Vec<u8>>, values: Seq<Vec<u32>>, g: u8, n: int) -> int
    decreases n,
{
    if n <= 0 {
        0
    } else {
        table_weight(groups, values, g, n - 1) + row_weight(
            groups[n - 1]@,
            values[n - 1]@,
            g,
            groups[n - 1]@.len() as int,
        )
    }
}

/// The sum of the elements of `s`.
pub open spec fn total(s: Seq<u32>) -> int
    decreases s.len(),
{
    if s.len() == 0 {
        0
    } else {
        total(s.drop_last()) + s.last()
    }
}

/// The group sums after `v` has left group `from` and has come to group `to`.
pub open spec fn moved(s: Seq<u32>, from: int, to: int, v: u32) -> Seq<u32> {
    let t = s.update(from, (s[from] - v) as u32);
    t.update(to, (t[to] + v) as u32)
}

/// What a cell of weight `v` that leaves group `a` for group `b` adds to the
/// weight of group `g`.
pub open spec fn shift(g: u8, a: u8, b: u8, v: u32) -> int {
    (if g == b { v as int } else { 0 }) - (if g == a { v as int } else { 0 })
}

/// The weight of a group in a column is never negative and grows with the
/// number of cells that are counted.
pub proof fn lemma_row_weight_bounds(groups: Seq<u8>, values: Seq<u32>, g: u8, n: int, m: int)
    requires
        n <= m,
    ensures
        0 <= row_weight(groups, values, g, n) <= row_weight(groups, values, g, m),
    decreases m,
{
    if n < m && m > 0 {
        lemma_row_weight_bounds(groups, values, g, n, m - 1);
    } else if n > 0 {
        lemma_row_weight_bounds(groups, values, g, n - 1, n - 1);
    }
}

/// The weight of a group in the tables is never negative and grows with the
/// number of columns that are counted.
pub proof fn lemma_table_weight_bounds(
    groups: Seq<Vec<u8>>,
    values: Seq<Vec<u32>>,
    g: u8,
    n: int,
    m: int,
)
    requires
        n <= m,
    ensures
        0 <= table_weight(groups, values, g, n) <= table_weight(groups, values, g, m),
    decreases m,
{
    if n < m && m > 0 {
        lemma_table_weight_bounds(groups, values, g, n, m - 1);
        lemma_row_weight_bounds(groups[m - 1]@, values[m - 1]@, g, 0, groups[m - 1]@.len() as int);
    } else if n > 0 {
        lemma_table_weight_bounds(groups, values, g, n - 1, n - 1);
        lemma_row_weight_bounds(groups[n - 1]@, values[n - 1]@, g, 0, groups[n - 1]@.len() as int);
    }
}

/// The weight of a group changes by `shift` when one cell of a column
/// changes its group.
pub proof fn lemma_row_weight_update(
    groups: Seq<u8>,
    values: Seq<u32>,
    g: u8,
    n: int,
    y: int,
    b: u8,
)
    requires
        0 <= y < groups.len(),
        n <= groups.len(),
    ensures
        row_weight(groups.update(y, b), values, g, n) == row_weight(groups, values, g, n) + if n
            > y {
            shift(g, groups[y], b, values[y])
        } else {
            0
        },
    decreases n,
{
    if n > 0 {
        lemma_row_weight_update(groups, values, g, n - 1, y, b);
    }
}

/// The weight of a group changes by `shift` when one cell of the tables
/// changes its group.
pub proof fn lemma_table_weight_update(
    before: Seq<Vec<u8>>,
    after: Seq<Vec<u8>>,
    values: Seq<Vec<u32>>,
    g: u8,
    n: int,
    x: int,
    y: int,
    b: u8,
)
    requires
        0 <= x < before.len(),
        0 <= y < before[x]@.len(),
        n <= before.len(),
        after.len() == before.len(),
        after[x]@ == before[x]@.update(y, b),
        forall|i: int| 0 <= i < before.len() && i != x ==> after[i] == before[i],
    ensures
        table_weight(after, values, g, n) == table_weight(before, values, g, n) + if n > x {
            shift(g, before[x]@[y], b, values[x]@[y])
        } else {
            0
        },
    decreases n,
{
    if n > 0 {
        lemma_table_weight_update(before, after, values, g, n - 1, x, y, b);
        if n - 1 == x {
            lemma_row_weight_update(before[x]@, values[x]@, g, before[x]@.len() as int, y, b);
        }
    }
}

/// A group's weight is at least the weight of any one of its cells.
pub proof fn lemma_table_weight_covers(
    groups: Seq<Vec<u8>>,
    values: Seq<Vec<u32>>,
    x: int,
    y: int,
)
    requires
        0 <= x < groups.len(),
        0 <= y < groups[x]@.len(),
    ensures
        table_weight(groups, values, groups[x]@[y], groups.len() as int) >= values[x]@[y],
    decreases groups.len() - x,
{
    let g = groups[x]@[y];
    let n = groups.len() as int;
    lemma_table_weight_bounds(groups, values, g, x, x);
    lemma_table_weight_bounds(groups, values, g, x + 1, n);
    lemma_row_weight_bounds(groups[x]@, values[x]@, g, y, y);
    lemma_row_weight_bounds(groups[x]@, values[x]@, g, y + 1, groups[x]@.len() as int);
}

/// Replacing one element changes the sum by the difference.
pub proof fn lemma_total_update(s: Seq<u32>, i: int, v: u32)
    requires
        0 <= i < s.len(),
    ensures
        total(s.update(i, v)) == total(s) - s[i] + v,
    decreases s.len(),
{
    if i == s.len() - 1 {
        assert(s.update(i, v).drop_last() =~= s.drop_last());
    } else {
        assert(s.update(i, v).drop_last() =~= s.drop_last().update(i, v));
        lemma_total_update(s.drop_last(), i, v);
    }
}

/// No element exceeds the sum, and two elements at different places do not
/// exceed it together.
pub proof fn lemma_total_covers(s: Seq<u32>, i: int, j: int)
    requires
        0 <= i < s.len(),
        0 <= j < s.len(),
    ensures
        0 <= total(s),
        s[i] <= total(s),
        i != j ==> s[i] + s[j] <= total(s),
    decreases s.len(),
{
    lemma_total_nonneg(s);
    lemma_total_nonneg(s.drop_last());
    let last = s.len() - 1;
    if i < last && j < last {
        lemma_total_covers(s.drop_last(), i, j);
    } else if i < last {
        lemma_total_covers(s.drop_last(), i, i);
    } else if j < last {
        lemma_total_covers(s.drop_last(), j, j);
    }
}

/// A sum of elements is never negative.
pub proof fn lemma_total_nonneg(s: Seq<u32>)
    ensures
        0 <= total(s),
    decreases s.len(),
{
    if s.len() > 0 {
        lemma_total_nonneg(s.drop_last());
    }
}

/// A transfer between two groups leaves the sum of the group sums as it was.
pub proof fn lemma_moved_total(s: Seq<u32>, from: int, to: int, v: u32)
    requires
        0 <= from < s.len(),
        0 <= to < s.len(),
        v <= s[from],
        total(s) <= u32::MAX,
    ensures
        total(moved(s, from, to, v)) == total(s),
        moved(s, from, to, v).len() == s.len(),
        from != to ==> s[to] + v <= u32::MAX,
{
    lemma_total_covers(s, from, to);
    let t = s.update(from, (s[from] - v) as u32);
    lemma_total_update(s, from, (s[from] - v) as u32);
    lemma_total_update(t, to, (t[to] + v) as u32);
}

/// The weight that the tables hold in the groups below `k`.
pub open spec fn weight_below(groups: Seq<Vec<u8>>, values: Seq<Vec<u32>>, k: int) -> int
    decreases k,
{
    if k <= 0 {
        0
    } else {
        weight_below(groups, values, k - 1) + table_weight(
            groups,
            values,
            (k - 1) as u8,
            groups.len() as int,
        )
    }
}

/// The weight of the groups below `k` is never negative and grows with `k`.
pub proof fn lemma_weight_below_bounds(groups: Seq<Vec<u8>>, values: Seq<Vec<u32>>, k: int, m: int)
    requires
        k <= m,
    ensures
        0 <= weight_below(groups, values, k) <= weight_below(groups, values, m),
    decreases m,
{
    if k < m && m > 0 {
        lemma_weight_below_bounds(groups, values, k, m - 1);
        lemma_table_weight_bounds(groups, values, (m - 1) as u8, 0, groups.len() as int);
    } else if k > 0 {
        lemma_weight_below_bounds(groups, values, k - 1, k - 1);
        lemma_table_weight_bounds(groups, values, (k - 1) as u8, 0, groups.len() as int);
    }
}

/// The weight that the tables hold in group `g`, where it fits 32 bits.
pub fn group_weight(groups: &Vec<Vec<u8>>, values: &Vec<Vec<u32>>, g: u8) -> (r: Option<u32>)
    requires
        groups@.len() == values@.len(),
        forall|x: int| 0 <= x < groups@.len() ==> groups@[x]@.len() == values@[x]@.len(),
    ensures
        match r {
            Some(w) => w == table_weight(groups@, values@, g, groups@.len() as int),
            None => table_weight(groups@, values@, g, groups@.len() as int) > u32::MAX,
        },
{
    let mut acc: u32 = 0;
    let mut x: usize = 0;
    while x < groups.len()
        invariant
            x <= groups@.len(),
            groups@.len() == values@.len(),
            forall|i: int| 0 <= i < groups@.len() ==> groups@[i]@.len() == values@[i]@.len(),
            acc == table_weight(groups@, values@, g, x as int),
        decreases groups@.len() - x,
    {
        let row = &groups[x];
        let weights = &values[x];
        let ghost base = acc;
        let mut y: usize = 0;
        while y < row.len()
            invariant
                x < groups@.len(),
                y <= row@.len(),
                row@ == groups@[x as int]@,
                weights@ == values@[x as int]@,
                row@.len() == weights@.len(),
                base == table_weight(groups@, values@, g, x as int),
                acc == base + row_weight(row@, weights@, g, y as int),
            decreases row@.len() - y,
        {
            if row[y] == g {
                let v: u32 = weights[y];
                if acc > u32::MAX - v {
                    proof {
                        lemma_row_weight_bounds(row@, weights@, g, y + 1, row@.len() as int);
                        lemma_table_weight_bounds(groups@, values@, g, x + 1, groups@.len() as int);
                    }
                    return None;
                }
                acc = acc + v;
            }
            y = y + 1;
        }
        x = x + 1;
    }
    Some(acc)
}

/// The sum of at most 255 elements, which fits 64 bits.
pub fn sum_all(s: &Vec<u32>) -> (r: u64)
    requires
        s@.len() <= 255,
    ensures
        r == total(s@),
{
    let mut acc: u64 = 0;
    let mut i: usize = 0;
    while i < s.len()
        invariant
            i <= s@.len() <= 255,
            acc == total(s@.take(i as int)),
            acc <= i * 0xffff_ffff,
        decreases s@.len() - i,
    {
        proof {
            assert(s@.take(i + 1).drop_last() =~= s@.take(i as int));
            assert(i * 0xffff_ffff + 0xffff_ffff == (i + 1) * 0xffff_ffff) by (nonlinear_arith);
            assert(i * 0xffff_ffff <= 255 * 0xffff_ffff) by (nonlinear_arith)
                requires
                    i <= 255,
            ;
        }
        acc = acc + s[i] as u64;
        i = i + 1;
    }
    proof {
        assert(s@.take(i as int) =~= s@);
    }
    acc
}

} // verus!
