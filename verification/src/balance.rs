//! The balance measure: the mean absolute difference between the weight sums
//! of two groups, taken over all unordered pairs of groups.

use itertools::Itertools;
use vstd::prelude::*;
use vstd::seq_lib::{group_to_multiset_ensures, lemma_fold_left_permutation, to_multiset_insert};

verus! {

/// The absolute difference of two sums.
pub open spec fn gap(a: u32, b: u32) -> int {
    if a <= b {
        b - a
    } else {
        a - b
    }
}

/// The sum of the gaps between `x` and each element of `s`.
pub open spec fn gap_to_all(s: Seq<u32>, x: u32) -> int
    decreases s.len(),
{
    if s.len() == 0 {
        0
    } else {
        gap_to_all(s.drop_last(), x) + gap(x, s.last())
    }
}

/// The sum of the gaps over all unordered pairs of positions of `s`.
pub open spec fn pairwise_gap(s: Seq<u32>) -> int
    decreases s.len(),
{
    if s.len() == 0 {
        0
    } else {
        gap_to_all(s.drop_first(), s.first()) + pairwise_gap(s.drop_first())
    }
}

/// The number of unordered pairs among `n` things.
pub open spec fn pair_count(n: nat) -> nat
    decreases n,
{
    if n == 0 {
        0
    } else {
        (n - 1) as nat + pair_count((n - 1) as nat)
    }
}

/// The pairs `(i, i + 1), .., (i, i + m)`.
pub open spec fn pair_row(i: nat, m: nat) -> Seq<(usize, usize)> {
    Seq::new(m, |k: int| (i as usize, (i + 1 + k) as usize))
}

/// The pairs `(a, b)` with `i <= a < b < n`, ordered by `a` and then by `b`.
pub open spec fn pairs_from(i: nat, n: nat) -> Seq<(usize, usize)>
    decreases n - i,
{
    if i + 1 >= n {
        Seq::empty()
    } else {
        pair_row(i, (n - 1 - i) as nat) + pairs_from(i + 1, n)
    }
}

/// The sum of the gaps between the two positions of `s` that each pair names.
pub open spec fn gap_over(pairs: Seq<(usize, usize)>, s: Seq<u32>) -> int
    decreases pairs.len(),
{
    if pairs.len() == 0 {
        0
    } else {
        gap_over(pairs.drop_last(), s) + gap(s[pairs.last().0 as int], s[pairs.last().1 as int])
    }
}

/// Whether the pair `p` comes before the pair `q`: by the first index, then
/// by the second.
pub open spec fn pair_before(p: (usize, usize), q: (usize, usize)) -> bool {
    p.0 < q.0 || (p.0 == q.0 && p.1 < q.1)
}

/// Whether each pair of `s` comes before the pairs that follow it.
pub open spec fn ascending(s: Seq<(usize, usize)>) -> bool {
    forall|k: int, l: int| 0 <= k < l < s.len() ==> pair_before(s[k], s[l])
}

/// Whether `s` lists the pairs of indices below `n`: each pair holds two
/// indices below `n`, the smaller one first; each such pair is there; and
/// the pairs ascend, so that none is there twice.
pub open spec fn lists_pairs(s: Seq<(usize, usize)>, n: nat) -> bool {
    &&& ascending(s)
    &&& forall|k: int| 0 <= k < s.len() ==> (#[trigger] s[k]).0 < s[k].1 < n
    &&& forall|a: usize, b: usize| a < b < n ==> #[trigger] s.contains((a, b))
}

/// `Itertools::tuple_combinations` on the range `0..n`, collected: every pair
/// of indices below `n` whose first is the smaller, each once, ordered by the
/// first index and then by the second.
#[verifier::external_body]
fn index_pairs(n: usize) -> (pairs: Vec<(usize, usize)>)
    ensures
        lists_pairs(pairs@, n as nat),
{
    (0..n).tuple_combinations::<(usize, usize)>().collect()
}

/// Two ascending lists that hold the same pairs are one list.
proof fn lemma_ascending_unique(s: Seq<(usize, usize)>, t: Seq<(usize, usize)>)
    requires
        ascending(s),
        ascending(t),
        forall|x: (usize, usize)| s.contains(x) <==> t.contains(x),
    ensures
        s == t,
    decreases s.len(),
{
    if s.len() == 0 {
        if t.len() > 0 {
            assert(t.contains(t[0]));
        }
        assert(s =~= t);
    } else {
        let top = s.last();
        assert(s.contains(top));
        assert(t.contains(top));
        let j = choose|j: int| 0 <= j < t.len() && t[j] == top;
        assert(t.contains(t.last()));
        assert(s.contains(t.last()));
        let i = choose|i: int| 0 <= i < s.len() && s[i] == t.last();
        assert(top == t.last()) by {
            if j < t.len() - 1 {
                assert(pair_before(t[j], t[t.len() - 1]));
            }
            if i < s.len() - 1 {
                assert(pair_before(s[i], s[s.len() - 1]));
            }
        }
        let s0 = s.drop_last();
        let t0 = t.drop_last();
        assert forall|x: (usize, usize)| s0.contains(x) <==> t0.contains(x) by {
            if s0.contains(x) {
                let a = choose|a: int| 0 <= a < s0.len() && s0[a] == x;
                assert(pair_before(s[a], s[s.len() - 1]));
                assert(s.contains(x));
                assert(t.contains(x));
                let b = choose|b: int| 0 <= b < t.len() && t[b] == x;
                assert(b < t.len() - 1);
                assert(t0[b] == x);
            }
            if t0.contains(x) {
                let b = choose|b: int| 0 <= b < t0.len() && t0[b] == x;
                assert(pair_before(t[b], t[t.len() - 1]));
                assert(t.contains(x));
                assert(s.contains(x));
                let a = choose|a: int| 0 <= a < s.len() && s[a] == x;
                assert(a < s.len() - 1);
                assert(s0[a] == x);
            }
        }
        assert(ascending(s0)) by {
            assert forall|k: int, l: int| 0 <= k < l < s0.len() implies pair_before(
                s0[k],
                s0[l],
            ) by {
                assert(pair_before(s[k], s[l]));
            }
        }
        assert(ascending(t0)) by {
            assert forall|k: int, l: int| 0 <= k < l < t0.len() implies pair_before(
                t0[k],
                t0[l],
            ) by {
                assert(pair_before(t[k], t[l]));
            }
        }
        lemma_ascending_unique(s0, t0);
        assert(s =~= s0.push(top));
        assert(t =~= t0.push(top));
    }
}

/// The pairs from `i` on ascend, and they are the pairs of indices from `i`
/// up to `n`.
proof fn lemma_pairs_from_lists(i: nat, n: nat)
    requires
        i <= n <= usize::MAX,
    ensures
        ascending(pairs_from(i, n)),
        forall|k: int|
            0 <= k < pairs_from(i, n).len() ==> i <= (#[trigger] pairs_from(i, n)[k]).0
                < pairs_from(i, n)[k].1 < n,
        forall|a: usize, b: usize|
            i <= a < b < n ==> #[trigger] pairs_from(i, n).contains((a, b)),
    decreases n - i,
{
    if i + 1 < n {
        let row = pair_row(i, (n - 1 - i) as nat);
        let rest = pairs_from(i + 1, n);
        let all = pairs_from(i, n);
        lemma_pairs_from_lists(i + 1, n);
        assert(all =~= row + rest);
        assert forall|k: int, l: int| 0 <= k < l < all.len() implies pair_before(
            all[k],
            all[l],
        ) by {
            if l < row.len() {
                assert(all[k] == row[k] && all[l] == row[l]);
            } else if k < row.len() {
                assert(all[k] == row[k]);
                assert(all[l] == rest[l - row.len()]);
            } else {
                assert(all[k] == rest[k - row.len()]);
                assert(all[l] == rest[l - row.len()]);
                assert(pair_before(rest[k - row.len()], rest[l - row.len()]));
            }
        }
        assert forall|k: int| 0 <= k < all.len() implies i <= (#[trigger] all[k]).0 < all[k].1
            < n by {
            if k < row.len() {
                assert(all[k] == row[k]);
            } else {
                assert(all[k] == rest[k - row.len()]);
            }
        }
        assert forall|a: usize, b: usize| i <= a < b < n implies #[trigger] all.contains(
            (a, b),
        ) by {
            if a == i {
                let k = b - i - 1;
                assert(row[k] == (a, b));
                assert(all[k] == (a, b));
            } else {
                assert(rest.contains((a, b)));
                let k = choose|k: int| 0 <= k < rest.len() && rest[k] == (a, b);
                assert(all[row.len() + k] == (a, b));
            }
        }
    }
}

/// A list of the pairs of indices below `n` is the list of the pairs from
/// zero on.
proof fn lemma_lists_pairs_unique(s: Seq<(usize, usize)>, n: nat)
    requires
        lists_pairs(s, n),
        n <= usize::MAX,
    ensures
        s == pairs_from(0, n),
{
    let t = pairs_from(0, n);
    lemma_pairs_from_lists(0, n);
    assert forall|x: (usize, usize)| s.contains(x) <==> t.contains(x) by {
        if s.contains(x) {
            let k = choose|k: int| 0 <= k < s.len() && s[k] == x;
            assert(s[k].0 < s[k].1 < n);
            assert(t.contains((x.0, x.1)));
        }
        if t.contains(x) {
            let k = choose|k: int| 0 <= k < t.len() && t[k] == x;
            assert(t[k].0 < t[k].1 < n);
            assert(s.contains((x.0, x.1)));
        }
    }
    lemma_ascending_unique(s, t);
}

/// A mean gap, held exactly as a total over a number of pairs.
#[derive(Clone, Copy, Debug, PartialEq, Eq, Structural)]
pub struct Balance {
    /// The sum of the gaps.
    pub total: u64,
    /// The number of pairs that the sum was taken over.
    pub pairs: u64,
}

impl Balance {
    /// Whether the mean `self` is strictly smaller than the mean `other`.
    pub open spec fn lt(self, other: Balance) -> bool {
        self.total * other.pairs < other.total * self.pairs
    }

    /// Whether the mean is strictly smaller than `threshold`.
    pub open spec fn under(self, threshold: u32) -> bool {
        self.total < threshold * self.pairs
    }

    /// The balance of the group sums `s`.
    pub open spec fn of(s: Seq<u32>) -> Balance {
        Balance { total: pairwise_gap(s) as u64, pairs: pair_count(s.len()) as u64 }
    }

    /// Compares two means exactly.
    pub fn less_than(&self, other: &Balance) -> (r: bool)
        ensures
            r == self.lt(*other),
    {
        let a: u128 = self.total as u128;
        let b: u128 = other.pairs as u128;
        let c: u128 = other.total as u128;
        let d: u128 = self.pairs as u128;
        assert(a * b <= 0xffff_ffff_ffff_ffff * 0xffff_ffff_ffff_ffff) by (nonlinear_arith)
            requires
                a <= 0xffff_ffff_ffff_ffff,
                b <= 0xffff_ffff_ffff_ffff,
        ;
        assert(c * d <= 0xffff_ffff_ffff_ffff * 0xffff_ffff_ffff_ffff) by (nonlinear_arith)
            requires
                c <= 0xffff_ffff_ffff_ffff,
                d <= 0xffff_ffff_ffff_ffff,
        ;
        a * b < c * d
    }

    /// Compares the mean with a whole threshold.
    pub fn below(&self, threshold: u32) -> (r: bool)
        ensures
            r == self.under(threshold),
    {
        let t: u128 = threshold as u128;
        let p: u128 = self.pairs as u128;
        assert(t * p <= 0xffff_ffff * 0xffff_ffff_ffff_ffff) by (nonlinear_arith)
            requires
                t <= 0xffff_ffff,
                p <= 0xffff_ffff_ffff_ffff,
        ;
        (self.total as u128) < t * p
    }

    /// Whether the mean is zero.
    pub fn is_zero(&self) -> (r: bool)
        ensures
            r == (self.total == 0),
    {
        self.total == 0
    }
}

/// The gaps over two lists of pairs add up.
proof fn lemma_gap_over_concat(a: Seq<(usize, usize)>, b: Seq<(usize, usize)>, s: Seq<u32>)
    ensures
        gap_over(a + b, s) == gap_over(a, s) + gap_over(b, s),
    decreases b.len(),
{
    if b.len() == 0 {
        assert(a + b =~= a);
    } else {
        assert((a + b).drop_last() =~= a + b.drop_last());
        lemma_gap_over_concat(a, b.drop_last(), s);
    }
}

/// One row of pairs sums the gaps between `s[i]` and the `m` elements after it.
proof fn lemma_gap_over_row(i: nat, m: nat, s: Seq<u32>)
    requires
        i + m < s.len() <= usize::MAX,
    ensures
        gap_over(pair_row(i, m), s) == gap_to_all(
            s.subrange(i as int + 1, i as int + 1 + m as int),
            s[i as int],
        ),
    decreases m,
{
    if m > 0 {
        let k = (m - 1) as nat;
        assert(pair_row(i, m).drop_last() =~= pair_row(i, k));
        assert(s.subrange(i as int + 1, i as int + 1 + m as int).drop_last() =~= s.subrange(
            i as int + 1,
            i as int + 1 + k as int,
        ));
        lemma_gap_over_row(i, k, s);
    }
}

/// The pairs from `i` on sum the gaps of the tail of `s` that starts at `i`.
proof fn lemma_gap_over_pairs(i: nat, s: Seq<u32>)
    requires
        i <= s.len() <= usize::MAX,
    ensures
        gap_over(pairs_from(i, s.len()), s) == pairwise_gap(s.subrange(i as int, s.len() as int)),
    decreases s.len() - i,
{
    let n = s.len();
    let tail = s.subrange(i as int, n as int);
    if i + 1 >= n {
        if i + 1 == n {
            assert(tail.drop_first().len() == 0);
            assert(pairwise_gap(tail.drop_first()) == 0);
            assert(gap_to_all(tail.drop_first(), tail.first()) == 0);
        }
    } else {
        let m = (n - 1 - i) as nat;
        lemma_gap_over_concat(pair_row(i, m), pairs_from(i + 1, n), s);
        lemma_gap_over_row(i, m, s);
        lemma_gap_over_pairs(i + 1, s);
        assert(tail.drop_first() =~= s.subrange(i as int + 1, n as int));
        assert(tail.first() == s[i as int]);
        assert(i as int + 1 + m as int == n as int);
    }
}

/// Each pair from `i` on names two positions below `n`, and there are
/// `pair_count(n - i)` of them.
proof fn lemma_pairs_shape(i: nat, n: nat)
    requires
        i <= n <= usize::MAX,
    ensures
        pairs_from(i, n).len() == pair_count((n - i) as nat),
        forall|k: int|
            0 <= k < pairs_from(i, n).len() ==> (#[trigger] pairs_from(i, n)[k]).0
                < pairs_from(i, n)[k].1 < n,
    decreases n - i,
{
    if i + 1 < n {
        lemma_pairs_shape(i + 1, n);
        let m = (n - 1 - i) as nat;
        assert(pair_count((n - i) as nat) == m + pair_count(m));
    } else if i + 1 == n {
        assert(pair_count(1) == 0 + pair_count(0));
    }
}

/// There are at most `n * n` pairs among `n` things.
pub proof fn lemma_pair_count_bound(n: nat)
    ensures
        pair_count(n) <= n * n,
    decreases n,
{
    if n > 0 {
        lemma_pair_count_bound((n - 1) as nat);
        assert((n - 1) + (n - 1) * (n - 1) <= n * n) by (nonlinear_arith)
            requires
                n >= 1,
        ;
    }
}

/// Two things or more make at least one pair.
pub proof fn lemma_pair_count_positive(n: nat)
    requires
        n >= 2,
    ensures
        pair_count(n) >= 1,
{
    assert(pair_count(n) == (n - 1) + pair_count((n - 1) as nat));
}

/// A sum of gaps is never negative, and each gap is at most `u32::MAX`.
proof fn lemma_gap_over_bound(pairs: Seq<(usize, usize)>, s: Seq<u32>)
    ensures
        0 <= gap_over(pairs, s) <= pairs.len() * 0xffff_ffff,
    decreases pairs.len(),
{
    if pairs.len() > 0 {
        lemma_gap_over_bound(pairs.drop_last(), s);
        assert((pairs.len() - 1) * 0xffff_ffff + 0xffff_ffff == pairs.len() * 0xffff_ffff)
            by (nonlinear_arith);
    }
}

/// The total gap of at most 255 sums fits 64 bits.
pub proof fn lemma_pairwise_gap_bound(s: Seq<u32>)
    requires
        s.len() <= 255,
    ensures
        0 <= pairwise_gap(s) <= 65025 * 0xffff_ffff,
        pair_count(s.len()) <= 65025,
{
    lemma_gap_over_pairs(0, s);
    assert(s.subrange(0, s.len() as int) =~= s);
    lemma_pairs_shape(0, s.len());
    lemma_pair_count_bound(s.len());
    lemma_gap_over_bound(pairs_from(0, s.len()), s);
    assert(s.len() * s.len() <= 65025) by (nonlinear_arith)
        requires
            s.len() <= 255,
    ;
    assert(pairs_from(0, s.len()).len() * 0xffff_ffff <= 65025 * 0xffff_ffff) by (nonlinear_arith)
        requires
            pairs_from(0, s.len()).len() <= 65025,
    ;
}

/// The balance of the group sums `data`: the sum of the absolute differences
/// over all unordered pairs of groups, and the number of those pairs.
pub fn calc_balance(data: &Vec<u32>) -> (b: Balance)
    requires
        data.len() <= 255,
    ensures
        b == Balance::of(data@),
        b.total == pairwise_gap(data@),
        b.pairs == pair_count(data@.len()),
{
    let pairs = index_pairs(data.len());
    proof {
        lemma_lists_pairs_unique(pairs@, data@.len());
        lemma_pairs_shape(0, data@.len());
        lemma_gap_over_pairs(0, data@);
        assert(data@.subrange(0, data@.len() as int) =~= data@);
        lemma_pairwise_gap_bound(data@);
    }
    let mut s: u64 = 0;
    let mut k: usize = 0;
    while k < pairs.len()
        invariant
            k <= pairs.len(),
            pairs@ == pairs_from(0, data@.len()),
            pairs.len() <= 65025,
            s == gap_over(pairs@.take(k as int), data@),
            forall|t: int|
                0 <= t < pairs@.len() ==> (#[trigger] pairs@[t]).0 < pairs@[t].1 < data@.len(),
        decreases pairs.len() - k,
    {
        let (i, j) = pairs[k];
        let a: u32 = data[i];
        let b: u32 = data[j];
        let d: u32 = if a <= b {
            b - a
        } else {
            a - b
        };
        proof {
            assert(pairs@.take(k + 1).drop_last() =~= pairs@.take(k as int));
            lemma_gap_over_bound(pairs@.take(k + 1), data@);
            assert(pairs@.take(k + 1).len() * 0xffff_ffff <= 65025 * 0xffff_ffff)
                by (nonlinear_arith)
                requires
                    pairs@.take(k + 1).len() <= 65025,
            ;
        }
        s = s + d as u64;
        k = k + 1;
    }
    proof {
        assert(pairs@.take(k as int) =~= pairs@);
    }
    Balance { total: s, pairs: pairs.len() as u64 }
}

/// Adds the gap between `x` and one more element.
pub open spec fn add_gap(x: u32) -> spec_fn(int, u32) -> int {
    |acc: int, v: u32| acc + gap(x, v)
}

/// The sum of the gaps to `x` is a fold over the elements.
proof fn lemma_gap_to_all_is_fold(s: Seq<u32>, x: u32)
    ensures
        gap_to_all(s, x) == s.fold_left(0int, add_gap(x)),
    decreases s.len(),
{
    if s.len() > 0 {
        lemma_gap_to_all_is_fold(s.drop_last(), x);
    }
}

/// The gaps between `x` and the elements of `s` do not depend on the order
/// of `s`.
pub proof fn lemma_gap_to_all_permutation(s: Seq<u32>, t: Seq<u32>, x: u32)
    requires
        s.to_multiset() == t.to_multiset(),
    ensures
        gap_to_all(s, x) == gap_to_all(t, x),
{
    lemma_gap_to_all_is_fold(s, x);
    lemma_gap_to_all_is_fold(t, x);
    lemma_fold_left_permutation(s, t, add_gap(x), 0int);
}

/// One more element `x`, put in at any place, adds its gap to `y`.
proof fn lemma_gap_to_all_insert(s: Seq<u32>, k: int, x: u32, y: u32)
    requires
        0 <= k <= s.len(),
    ensures
        gap_to_all(s.insert(k, x), y) == gap_to_all(s, y) + gap(y, x),
{
    broadcast use group_to_multiset_ensures;

    to_multiset_insert(s, k, x);
    assert(s.insert(k, x).to_multiset() =~= s.push(x).to_multiset());
    lemma_gap_to_all_permutation(s.insert(k, x), s.push(x), y);
    assert(s.push(x).drop_last() =~= s);
}

/// One more element `x`, put in at any place, adds its gaps to all others.
proof fn lemma_pairwise_gap_insert(s: Seq<u32>, k: int, x: u32)
    requires
        0 <= k <= s.len(),
    ensures
        pairwise_gap(s.insert(k, x)) == pairwise_gap(s) + gap_to_all(s, x),
    decreases k,
{
    let wide = s.insert(k, x);
    if k == 0 {
        assert(wide.drop_first() =~= s);
        assert(wide.first() == x);
    } else {
        let rest = s.drop_first();
        assert(wide.first() == s.first());
        assert(wide.drop_first() =~= rest.insert(k - 1, x));
        lemma_pairwise_gap_insert(rest, k - 1, x);
        lemma_gap_to_all_insert(rest, k - 1, x, s.first());
        assert(s =~= rest.insert(0, s.first()));
        lemma_gap_to_all_insert(rest, 0, s.first(), x);
    }
}

/// The total gap does not depend on the order of the sums: two lists that
/// hold the same sums, each as often as the other, have the same total gap
/// and the same balance.
pub proof fn lemma_pairwise_gap_permutation(a: Seq<u32>, b: Seq<u32>)
    requires
        a.to_multiset() == b.to_multiset(),
    ensures
        pairwise_gap(a) == pairwise_gap(b),
        Balance::of(a) == Balance::of(b),
    decreases a.len(),
{
    broadcast use group_to_multiset_ensures;

    assert(a.len() == b.len()) by {
        assert(a.len() == a.to_multiset().len());
        assert(b.len() == b.to_multiset().len());
    }
    if a.len() > 0 {
        let x = a.first();
        assert(a.contains(x));
        assert(b.to_multiset().count(x) > 0);
        assert(b.contains(x));
        let k = choose|k: int| 0 <= k < b.len() && b[k] == x;
        let rest_a = a.remove(0);
        let rest_b = b.remove(k);
        assert(rest_a =~= a.drop_first());
        assert(rest_a.to_multiset() =~= a.to_multiset().remove(x));
        assert(rest_b.to_multiset() =~= b.to_multiset().remove(x));
        lemma_pairwise_gap_permutation(rest_a, rest_b);
        lemma_gap_to_all_permutation(rest_a, rest_b, x);
        assert(b =~= rest_b.insert(k, x));
        lemma_pairwise_gap_insert(rest_b, k, x);
    }
}

/// The gaps between `x` and the elements of `s` add up to zero exactly
/// where each element is `x`.
proof fn lemma_gap_to_all_zero(s: Seq<u32>, x: u32)
    ensures
        gap_to_all(s, x) >= 0,
        gap_to_all(s, x) == 0 <==> forall|i: int| 0 <= i < s.len() ==> s[i] == x,
    decreases s.len(),
{
    if s.len() > 0 {
        lemma_gap_to_all_zero(s.drop_last(), x);
        if gap_to_all(s, x) == 0 {
            assert forall|i: int| 0 <= i < s.len() implies s[i] == x by {
                if i < s.len() - 1 {
                    assert(s.drop_last()[i] == x);
                }
            }
        }
        if forall|i: int| 0 <= i < s.len() ==> s[i] == x {
            assert forall|i: int| 0 <= i < s.drop_last().len() implies s.drop_last()[i] == x by {
                assert(s[i] == x);
            }
        }
    }
}

/// The total gap is never negative, and it is zero exactly where all sums
/// are equal.
pub proof fn lemma_pairwise_gap_zero(s: Seq<u32>)
    ensures
        pairwise_gap(s) >= 0,
        pairwise_gap(s) == 0 <==> forall|i: int, j: int|
            0 <= i < s.len() && 0 <= j < s.len() ==> s[i] == s[j],
    decreases s.len(),
{
    if s.len() > 0 {
        let rest = s.drop_first();
        lemma_pairwise_gap_zero(rest);
        lemma_gap_to_all_zero(rest, s.first());
        if pairwise_gap(s) == 0 {
            assert forall|i: int, j: int| 0 <= i < s.len() && 0 <= j < s.len() implies s[i]
                == s[j] by {
                if i > 0 {
                    assert(rest[i - 1] == s.first());
                }
                if j > 0 {
                    assert(rest[j - 1] == s.first());
                }
            }
        }
        if forall|i: int, j: int| 0 <= i < s.len() && 0 <= j < s.len() ==> s[i] == s[j] {
            assert forall|i: int| 0 <= i < rest.len() implies rest[i] == s.first() by {
                assert(s[i + 1] == s[0]);
            }
            assert forall|i: int, j: int|
                0 <= i < rest.len() && 0 <= j < rest.len() implies rest[i] == rest[j] by {
                assert(s[i + 1] == s[j + 1]);
            }
        }
    }
}

/// The balance of at most 255 group sums is zero exactly where all sums are
/// equal.
pub proof fn lemma_balance_zero(s: Seq<u32>)
    requires
        s.len() <= 255,
    ensures
        Balance::of(s).total == 0 <==> forall|i: int, j: int|
            0 <= i < s.len() && 0 <= j < s.len() ==> s[i] == s[j],
{
    lemma_pairwise_gap_zero(s);
    lemma_pairwise_gap_bound(s);
}

} // verus!
