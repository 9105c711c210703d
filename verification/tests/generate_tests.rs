use grid_balancer::generate::{generate_map, pick_group, GROUP_SIZE};
use grid_balancer::grid::Grid;

#[test]
fn group_follows_the_quadrant() {
    let g = Grid::new(-50, 50, -50, 50).unwrap();
    assert_eq!(pick_group(&g, -1, 0, 0), 1);
    assert_eq!(pick_group(&g, -7, -7, 32), 1);
    assert_eq!(pick_group(&g, 0, 0, 5), 2);
    assert_eq!(pick_group(&g, 9, -3, 5), 2);
    assert_eq!(pick_group(&g, 0, 1, 5), 0);
    assert_eq!(pick_group(&g, -4, 1, 5), 0);
}

#[test]
fn high_rolls_and_the_ring_give_no_group() {
    let g = Grid::new(-50, 50, -50, 50).unwrap();
    assert_eq!(pick_group(&g, 3, 3, 33), GROUP_SIZE);
    assert_eq!(pick_group(&g, 3, 3, 99), GROUP_SIZE);
    assert_eq!(pick_group(&g, -50, 3, 0), GROUP_SIZE);
    assert_eq!(pick_group(&g, 50, 3, 0), GROUP_SIZE);
    assert_eq!(pick_group(&g, 3, -50, 0), GROUP_SIZE);
    assert_eq!(pick_group(&g, 3, 50, 0), GROUP_SIZE);
}

#[test]
fn generated_partition_is_consistent() {
    let grid = Grid::new(-10, 10, -10, 10).unwrap();
    let map = generate_map(grid, 2).unwrap();
    assert_eq!(map.group_count, 3);
    assert_eq!(map.tile_groups.len(), 21);
    let mut sums = vec![0u32; 3];
    let mut filled = 0;
    for x in 0..=20usize {
        assert_eq!(map.tile_groups[x].len(), 21);
        for y in 0..=20usize {
            let g = map.tile_groups[x][y];
            let v = map.tile_values[x][y];
            let ring = x == 0 || x == 20 || y == 0 || y == 20;
            if ring || g == GROUP_SIZE {
                assert_eq!(g, GROUP_SIZE);
                assert_eq!(v, 0);
                assert!(map.tile_neighbors[x][y].is_empty());
                continue;
            }
            filled += 1;
            let (wx, wy) = grid.to_world((x, y));
            let expected = if wx < 0 && wy <= 0 {
                1
            } else if wx >= 0 && wy <= 0 {
                2
            } else {
                0
            };
            assert_eq!(g, expected);
            assert!(v >= 1 && v <= (g as u32 + 1) * 10);
            sums[g as usize] += v;
            for d in map.tile_neighbors[x][y].iter() {
                let other = map.tile_groups[d.0][d.1];
                assert!(other < GROUP_SIZE);
                assert_ne!(other, g);
                assert!(d.0.abs_diff(x) <= 2 && d.1.abs_diff(y) <= 2);
            }
        }
    }
    assert!(filled > 0);
    assert_eq!(map.group_sum, sums);
    let gaps = sums[0].abs_diff(sums[1]) + sums[0].abs_diff(sums[2]) + sums[1].abs_diff(sums[2]);
    assert_eq!(map.group_balance.total, gaps as u64);
    assert_eq!(map.group_balance.pairs, 3);
}

#[test]
fn generated_partitions_differ() {
    let grid = Grid::new(-10, 10, -10, 10).unwrap();
    let first = generate_map(grid, 2).unwrap();
    let mut differs = false;
    for _ in 0..8 {
        let next = generate_map(grid, 2).unwrap();
        if next.tile_values != first.tile_values {
            differs = true;
        }
    }
    assert!(differs);
}

#[test]
fn bounds_out_of_order_give_no_partition() {
    let bad = Grid { x_min: 5, x_max: 5, y_min: 0, y_max: 9 };
    assert!(generate_map(bad, 2).is_none());
}
