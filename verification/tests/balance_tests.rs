use grid_balancer::balance::{calc_balance, Balance};

#[test]
fn balance_of_three_sums() {
    let b = calc_balance(&vec![0, 10, 5]);
    assert_eq!(b.total, 20);
    assert_eq!(b.pairs, 3);
}

#[test]
fn balance_of_equal_sums_is_zero() {
    let b = calc_balance(&vec![7, 7, 7]);
    assert_eq!(b.total, 0);
    assert_eq!(b.pairs, 3);
    assert!(b.is_zero());
    let c = calc_balance(&vec![9, 9, 9, 9, 9]);
    assert_eq!(c.total, 0);
    assert_eq!(c.pairs, 10);
}

#[test]
fn balance_is_zero_only_for_equal_sums() {
    assert!(!calc_balance(&vec![7, 7, 8]).is_zero());
    assert!(!calc_balance(&vec![0, 1, 0]).is_zero());
}

#[test]
fn balance_ignores_the_order_of_the_sums() {
    let orders: Vec<Vec<u32>> = vec![
        vec![1, 10, 5],
        vec![1, 5, 10],
        vec![5, 1, 10],
        vec![5, 10, 1],
        vec![10, 1, 5],
        vec![10, 5, 1],
    ];
    for o in orders.iter() {
        let b = calc_balance(o);
        assert_eq!(b.total, 18);
        assert_eq!(b.pairs, 3);
    }
}

#[test]
fn balance_of_four_sums_counts_six_pairs() {
    let b = calc_balance(&vec![1, 2, 4, 8]);
    // 1 + 3 + 7 + 2 + 6 + 4
    assert_eq!(b.total, 23);
    assert_eq!(b.pairs, 6);
}

#[test]
fn balance_of_few_sums() {
    assert_eq!(calc_balance(&vec![]).pairs, 0);
    assert_eq!(calc_balance(&vec![3]).pairs, 0);
    assert_eq!(calc_balance(&vec![3]).total, 0);
    let two = calc_balance(&vec![3, 10]);
    assert_eq!(two.total, 7);
    assert_eq!(two.pairs, 1);
}

#[test]
fn balance_of_extreme_sums_does_not_overflow() {
    let b = calc_balance(&vec![0, u32::MAX, 0]);
    assert_eq!(b.total, 2 * (u32::MAX as u64));
}

#[test]
fn balance_comparison_is_exact() {
    let a = Balance { total: 22, pairs: 3 };
    let b = Balance { total: 18, pairs: 3 };
    assert!(b.less_than(&a));
    assert!(!a.less_than(&b));
    assert!(!a.less_than(&a));
    // 7/3 < 5/2
    let c = Balance { total: 7, pairs: 3 };
    let d = Balance { total: 5, pairs: 2 };
    assert!(c.less_than(&d));
    assert!(!d.less_than(&c));
}

#[test]
fn balance_against_a_threshold() {
    let b = Balance { total: 20, pairs: 3 };
    assert!(!b.below(0));
    assert!(!b.below(6));
    assert!(b.below(7));
    let exact = Balance { total: 18, pairs: 3 };
    assert!(!exact.below(6));
    assert!(exact.below(7));
}
