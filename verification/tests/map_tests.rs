use grid_balancer::balance::calc_balance;
use grid_balancer::grid::Grid;
use grid_balancer::map::{Instruction, MapData, Tile};
use grid_balancer::optimizer::{start_algorithm, Decision, Optimizer};
use grid_balancer::player::{Player, State};

const NONE: u8 = 3;

fn tables(cells: &[((usize, usize), u8, u32)]) -> (Vec<Vec<u8>>, Vec<Vec<u32>>) {
    let mut groups = vec![vec![NONE; 5]; 5];
    let mut values = vec![vec![0u32; 5]; 5];
    for (c, g, w) in cells.iter() {
        groups[c.0][c.1] = *g;
        values[c.0][c.1] = *w;
    }
    (groups, values)
}

fn map_of(cells: &[((usize, usize), u8, u32)]) -> MapData {
    let grid = Grid::new(-2, 2, -2, 2).unwrap();
    let (groups, values) = tables(cells);
    MapData::new(grid, 3, groups, values, 2).unwrap()
}

#[test]
fn two_seeded_cells_give_no_move() {
    let map = map_of(&[((1, 1), 1, 10), ((3, 3), 2, 5)]);
    assert_eq!(map.group_sum, vec![0, 10, 5]);
    assert_eq!(map.group_balance.total, 20);
    assert_eq!(map.group_balance.pairs, 3);
    assert!(!map.group_balance.below(0));
    assert_eq!(map.find_min_group(), 0);
    assert!(map.create_player_instruction(0).is_none());

    let mut player = Player::new((0, 0));
    let mut optimizer = Optimizer::new(0);
    assert!(!optimizer.converged(&map));
    let d = start_algorithm(&mut optimizer, &map, &mut player, 60_000_000);
    assert!(matches!(d, Decision::NoMove));
    assert!(optimizer.halted);
    assert!(!optimizer.converged(&map));
    assert_eq!(player.instruction_queue.len(), 0);
    assert_eq!(optimizer.interval, 10_000_000);
    assert_eq!(player.state, State::Idle);
    assert_eq!(map.group_balance.total, 20);
    // halted for good
    let again = start_algorithm(&mut optimizer, &map, &mut player, 60_000_000);
    assert!(matches!(again, Decision::Halted));
    assert_eq!(optimizer.interval, 10_000_000);
}

#[test]
fn worsening_candidates_are_rejected() {
    let map = map_of(&[((1, 1), 1, 10), ((3, 3), 2, 5), ((2, 1), 0, 1)]);
    assert_eq!(map.group_sum, vec![1, 10, 5]);
    assert_eq!(map.group_balance.total, 18);
    assert_eq!(map.find_min_group(), 0);
    assert_eq!(map.tile_neighbors[2][1], vec![(1, 1), (3, 3)]);
    // sums would be [11, 0, 5]: 22 over 3 pairs
    let moved = calc_balance(&vec![11, 0, 5]);
    assert_eq!(moved.total, 22);
    assert_eq!(moved.pairs, 3);
    assert!(!moved.less_than(&map.group_balance));
    assert!(!map.should_take((1, 1), 1, 0));
    // sums would be [6, 10, 0]: 20 over 3 pairs
    assert!(!map.should_take((3, 3), 2, 0));
    assert!(map.create_player_instruction(0).is_none());
}

#[test]
fn first_improving_candidate_is_proposed() {
    let map = map_of(&[((1, 1), 1, 10), ((1, 2), 1, 2), ((2, 1), 0, 1)]);
    assert_eq!(map.group_sum, vec![1, 12, 0]);
    assert_eq!(map.group_balance.total, 24);
    assert_eq!(map.find_min_group(), 2);
    assert!(map.create_player_instruction(2).is_none());
    assert!(map.should_take((1, 1), 1, 0));
    assert!(map.should_take((1, 2), 1, 0));
    let i = map.create_player_instruction(0).unwrap();
    assert_eq!(i.transfer_point, (1, 1));
    assert_eq!(i.to_group, 0);
}

#[test]
fn equal_balance_is_no_improvement() {
    // moving the weight 5 from group 1 to group 0 swaps the two sums
    let map = map_of(&[((1, 1), 1, 5), ((2, 1), 0, 0), ((3, 3), 2, 2), ((3, 2), 2, 0)]);
    assert_eq!(map.group_sum, vec![0, 5, 2]);
    assert!(!map.should_take((1, 1), 1, 0));
}

#[test]
fn poorest_group_is_the_lowest_among_equals() {
    let map = map_of(&[((1, 1), 0, 4), ((2, 2), 1, 2), ((3, 3), 2, 2)]);
    assert_eq!(map.find_min_group(), 1);
    let flat = map_of(&[((1, 1), 0, 4), ((2, 2), 1, 4), ((3, 3), 2, 4)]);
    assert_eq!(flat.find_min_group(), 0);
    assert!(flat.group_balance.is_zero());
}

#[test]
fn neighbour_lists_hold_only_other_groups() {
    let map = map_of(&[
        ((1, 1), 1, 10),
        ((1, 2), 1, 2),
        ((2, 1), 0, 1),
        ((3, 3), 2, 5),
        ((2, 2), 0, 0),
    ]);
    for x in 0..5usize {
        for y in 0..5usize {
            let home = map.tile_groups[x][y];
            let list = &map.tile_neighbors[x][y];
            if home == NONE {
                assert!(list.is_empty());
            }
            for d in list.iter() {
                let g = map.tile_groups[d.0][d.1];
                assert!(g < 3);
                assert_ne!(g, home);
                assert!(d.0 >= 1 && d.0 <= 3 && d.1 >= 1 && d.1 <= 3);
            }
        }
    }
    assert_eq!(map.tile_neighbors[1][1], vec![(2, 1), (2, 2), (3, 3)]);
    assert_eq!(map.tile_neighbors[2][2], vec![(1, 1), (1, 2), (3, 3)]);
}

#[test]
fn radius_limits_the_neighbour_lists() {
    let grid = Grid::new(-2, 2, -2, 2).unwrap();
    let (groups, values) = tables(&[((1, 1), 1, 10), ((3, 3), 2, 5), ((2, 1), 0, 1)]);
    let map = MapData::new(grid, 3, groups, values, 1).unwrap();
    assert_eq!(map.tile_neighbors[2][1], vec![(1, 1)]);
    assert_eq!(map.tile_neighbors[3][3], Vec::<(usize, usize)>::new());
}

#[test]
fn reassign_moves_weight_and_rebuilds_one_list() {
    let mut map = map_of(&[((1, 1), 1, 10), ((1, 2), 1, 2), ((2, 1), 0, 1)]);
    let before_total: u32 = map.group_sum.iter().sum();
    let old_list_of_c = map.tile_neighbors[2][1].clone();
    assert!(map.should_take((1, 1), 1, 0));
    map.reassign_group((1, 1), 0, 2);
    assert_eq!(map.tile_groups[1][1], 0);
    assert_eq!(map.group_sum, vec![11, 2, 0]);
    let after_total: u32 = map.group_sum.iter().sum();
    assert_eq!(before_total, after_total);
    assert_eq!(map.group_balance.total, 22);
    assert!(map.group_balance.total < 24);
    assert_eq!(map.tile_neighbors[1][1], vec![(1, 2)]);
    // the list of the other cell is left as it was
    assert_eq!(map.tile_neighbors[2][1], old_list_of_c);
    assert_eq!(old_list_of_c, vec![(1, 1), (1, 2)]);
}

#[test]
fn reassign_to_the_own_group_changes_no_sum() {
    let mut map = map_of(&[((1, 1), 1, 10), ((2, 1), 0, 1)]);
    map.reassign_group((1, 1), 1, 2);
    assert_eq!(map.group_sum, vec![1, 10, 0]);
    assert_eq!(map.tile_groups[1][1], 1);
    assert_eq!(map.group_balance.total, 20);
}

#[test]
fn balance_falls_with_each_accepted_transfer() {
    let mut map = map_of(&[
        ((1, 1), 1, 10),
        ((1, 2), 1, 2),
        ((1, 3), 1, 3),
        ((2, 1), 0, 1),
        ((3, 3), 2, 5),
    ]);
    let weight: u32 = map.group_sum.iter().sum();
    let mut rounds = 0;
    loop {
        let g = map.find_min_group();
        let i = match map.create_player_instruction(g) {
            Some(i) => i,
            None => break,
        };
        let before = map.group_balance.total;
        map.reassign_group(i.transfer_point, i.to_group, 2);
        assert!(map.group_balance.total < before);
        let now: u32 = map.group_sum.iter().sum();
        assert_eq!(now, weight);
        rounds += 1;
        assert!(rounds < 100);
    }
    assert!(rounds > 0);
}

#[test]
fn invalid_tables_are_refused() {
    let grid = Grid::new(-2, 2, -2, 2).unwrap();
    let (g, v) = tables(&[((1, 1), 1, 10)]);
    assert!(MapData::new(grid, 3, g.clone(), v.clone(), 2).is_some());
    // fewer than three groups
    assert!(MapData::new(grid, 2, g.clone(), v.clone(), 2).is_none());
    // a group on the border ring
    let (gb, vb) = tables(&[((0, 1), 1, 10)]);
    assert!(MapData::new(grid, 3, gb, vb, 2).is_none());
    // a group beyond the count
    let (gc, vc) = tables(&[((1, 1), 4, 10)]);
    assert!(MapData::new(grid, 3, gc, vc, 2).is_none());
    // a table of another shape
    let mut short = g.clone();
    short.pop();
    assert!(MapData::new(grid, 3, short, v.clone(), 2).is_none());
    let mut ragged = v.clone();
    ragged[2].push(0);
    assert!(MapData::new(grid, 3, g.clone(), ragged, 2).is_none());
    // weights that do not fit together
    let (gw, vw) = tables(&[((1, 1), 1, u32::MAX), ((2, 2), 0, 1)]);
    assert!(MapData::new(grid, 3, gw, vw, 2).is_none());
    let (gm, vm) = tables(&[((1, 1), 1, u32::MAX), ((2, 2), 3, 1)]);
    assert!(MapData::new(grid, 3, gm, vm, 2).is_some());
    // bounds out of order
    let bad = Grid { x_min: 2, x_max: -2, y_min: -2, y_max: 2 };
    assert!(MapData::new(bad, 3, g, v, 2).is_none());
}

#[test]
fn instructions_are_checked_against_the_state() {
    let map = map_of(&[((1, 1), 1, 10), ((2, 1), 0, 1)]);
    assert!(map.accepts(&Instruction { transfer_point: (1, 1), to_group: 0 }));
    assert!(map.accepts(&Instruction { transfer_point: (1, 1), to_group: 2 }));
    assert!(!map.accepts(&Instruction { transfer_point: (1, 1), to_group: 3 }));
    assert!(!map.accepts(&Instruction { transfer_point: (0, 1), to_group: 0 }));
    assert!(!map.accepts(&Instruction { transfer_point: (2, 2), to_group: 0 }));
    assert!(!map.accepts(&Instruction { transfer_point: (7, 1), to_group: 0 }));
}

#[test]
fn tile_holds_its_place() {
    let t = Tile { loc: (3, 4) };
    assert_eq!(t.loc, (3, 4));
}

#[test]
fn optimizer_waits_for_its_period_and_for_the_worker() {
    let map = map_of(&[((1, 1), 1, 10), ((1, 2), 1, 2), ((2, 1), 0, 1), ((3, 3), 2, 0)]);
    assert_eq!(map.find_min_group(), 2);
    let mut player = Player::new((0, 0));
    let mut optimizer = Optimizer::new(8);
    assert!(matches!(
        start_algorithm(&mut optimizer, &map, &mut player, 50_000_000),
        Decision::Waiting
    ));
    assert_eq!(optimizer.interval, 50_000_000);
    let d = start_algorithm(&mut optimizer, &map, &mut player, 1);
    assert_eq!(optimizer.interval, 1);
    match d {
        Decision::Proposed(i) => {
            // sums would be [1, 2, 10]: 18 over 3 pairs
            assert_eq!(i.transfer_point, (1, 1));
            assert_eq!(i.to_group, 2);
        }
        _ => panic!("a transfer should have been proposed"),
    }
    assert!(!optimizer.halted);
    assert_eq!(player.instruction_queue.len(), 1);
    assert_eq!(player.instruction_queue[0].transfer_point, (1, 1));
    assert_eq!(player.state, State::Idle);
    player.state = State::Moving;
    assert!(matches!(
        start_algorithm(&mut optimizer, &map, &mut player, 60_000_000),
        Decision::Busy
    ));
    assert_eq!(optimizer.interval, 10_000_001);
    assert_eq!(player.instruction_queue.len(), 1);
}

#[test]
fn optimizer_halts_under_the_threshold() {
    let map = map_of(&[((1, 1), 1, 10), ((1, 2), 1, 2), ((2, 1), 0, 1), ((3, 3), 2, 0)]);
    let mut player = Player::new((0, 0));
    // the balance is 24 over 3 pairs, which is under 9 and not under 8
    let mut optimizer = Optimizer::new(9);
    assert!(optimizer.converged(&map));
    assert!(!Optimizer::new(8).converged(&map));
    assert!(matches!(
        start_algorithm(&mut optimizer, &map, &mut player, 90_000_000),
        Decision::Converged
    ));
    assert!(optimizer.halted);
    assert_eq!(optimizer.interval, 0);
    assert!(matches!(
        start_algorithm(&mut optimizer, &map, &mut player, 90_000_000),
        Decision::Halted
    ));
    assert_eq!(player.instruction_queue.len(), 0);
}

#[test]
fn optimizer_and_worker_balance_the_grid() {
    let mut map = map_of(&[
        ((1, 1), 1, 10),
        ((1, 2), 1, 2),
        ((1, 3), 1, 3),
        ((2, 1), 0, 1),
        ((3, 3), 2, 5),
    ]);
    let mut player = Player::new((0, 0));
    let mut optimizer = Optimizer::new(0);
    let weight: u32 = map.group_sum.iter().sum();
    let mut last = map.group_balance.total;
    let mut applied = 0;
    for _ in 0..2000 {
        let d = start_algorithm(&mut optimizer, &map, &mut player, 30_000_000);
        if matches!(d, Decision::Proposed(_)) {
            assert_eq!(player.instruction_queue.len(), 1);
        }
        let e = player.player_control(&mut map, 30_000_000, 2);
        if matches!(e, grid_balancer::player::Event::Completed(_)) {
            assert!(map.group_balance.total < last);
            last = map.group_balance.total;
            applied += 1;
        }
        assert!(!matches!(e, grid_balancer::player::Event::Invalid(_)));
        assert!(player.position.0 >= -1 && player.position.0 <= 1);
        assert!(player.position.1 >= -1 && player.position.1 <= 1);
        let now: u32 = map.group_sum.iter().sum();
        assert_eq!(now, weight);
        if optimizer.halted && player.state == State::Idle && player.instruction_queue.is_empty() {
            break;
        }
    }
    assert!(optimizer.halted);
    assert!(applied > 0);
    assert!(map.create_player_instruction(map.find_min_group()).is_none());
}

#[test]
fn made_states_are_valid() {
    let mut map = map_of(&[((1, 1), 1, 10), ((1, 2), 1, 2), ((2, 1), 0, 1)]);
    assert!(map.is_valid());
    map.reassign_group((1, 1), 0, 2);
    assert!(map.is_valid());
    map.calculate_neighbors(1);
    assert!(map.is_valid());
    assert_eq!(map.tile_neighbors[1][1], vec![(1, 2)]);
    assert_eq!(map.tile_neighbors[2][1], vec![(1, 2)]);
}

#[test]
fn tampered_states_are_not_valid() {
    let good = [((1, 1), 1, 10), ((1, 2), 1, 2), ((2, 1), 0, 1)];
    let mut a = map_of(&good);
    a.group_sum[0] = 2;
    assert!(!a.is_valid());
    let mut b = map_of(&good);
    b.group_balance.total = 23;
    assert!(!b.is_valid());
    let mut c = map_of(&good);
    c.tile_neighbors[1][1].push((0, 0));
    assert!(!c.is_valid());
    let mut d = map_of(&good);
    d.tile_neighbors[3][3].push((1, 1));
    assert!(!d.is_valid());
    let mut e = map_of(&good);
    e.tile_groups[0][0] = 1;
    assert!(!e.is_valid());
    let mut f = map_of(&good);
    f.tile_values[1][1] = 11;
    assert!(!f.is_valid());
    let mut g = map_of(&good);
    g.tile_neighbors[1][1].push((9, 9));
    assert!(!g.is_valid());
    let mut h = map_of(&good);
    h.group_sum.push(0);
    assert!(!h.is_valid());
    let mut i = map_of(&good);
    i.tile_groups[2].pop();
    assert!(!i.is_valid());
    // a list that is out of date, but holds cells with a group, is in order
    let mut j = map_of(&good);
    j.tile_neighbors[1][1].push((1, 2));
    assert!(j.is_valid());
}
