use grid_balancer::grid::Grid;
use grid_balancer::map::{Instruction, MapData};
use grid_balancer::player::{period_passed, Event, Player, State, PERIOD};
use grid_balancer::route::{get_move_delta, lay_out, overshoot_check, route_planning, Movement};

fn count(moves: &[Movement], m: Movement) -> usize {
    moves.iter().filter(|s| **s == m).count()
}

fn small_map() -> MapData {
    let grid = Grid::new(-2, 2, -2, 2).unwrap();
    let mut groups = vec![vec![3u8; 5]; 5];
    let mut values = vec![vec![0u32; 5]; 5];
    groups[1][1] = 1;
    values[1][1] = 10;
    groups[1][2] = 1;
    values[1][2] = 2;
    groups[2][1] = 0;
    values[2][1] = 1;
    MapData::new(grid, 3, groups, values, 2).unwrap()
}

#[test]
fn steps_as_coordinate_changes() {
    assert_eq!(Movement::Up.v(), (0, 1));
    assert_eq!(Movement::Down.v(), (0, -1));
    assert_eq!(Movement::Left.v(), (-1, 0));
    assert_eq!(Movement::Right.v(), (1, 0));
}

#[test]
fn route_holds_the_steps_of_both_axes() {
    let r = route_planning((0, 0), (3, -2));
    assert_eq!(r.len(), 5);
    assert_eq!(count(&r, Movement::Right), 3);
    assert_eq!(count(&r, Movement::Down), 2);
    assert_eq!(count(&r, Movement::Left), 0);
    assert_eq!(count(&r, Movement::Up), 0);

    let l = route_planning((4, -7), (-1, -3));
    assert_eq!(l.len(), 9);
    assert_eq!(count(&l, Movement::Left), 5);
    assert_eq!(count(&l, Movement::Up), 4);
}

#[test]
fn route_to_the_own_cell_is_empty() {
    assert!(route_planning((5, 5), (5, 5)).is_empty());
}

#[test]
fn route_along_one_axis() {
    let r = route_planning((0, 0), (0, 4));
    assert_eq!(r, vec![Movement::Up; 4]);
    let l = route_planning((0, 0), (-3, 0));
    assert_eq!(l, vec![Movement::Left; 3]);
}

#[test]
fn route_order_varies() {
    let first = route_planning((0, 0), (6, 6));
    let mut differs = false;
    for _ in 0..64 {
        let next = route_planning((0, 0), (6, 6));
        assert_eq!(count(&next, Movement::Right), 6);
        assert_eq!(count(&next, Movement::Up), 6);
        if next != first {
            differs = true;
        }
    }
    assert!(differs);
}

#[test]
fn steps_are_laid_out_in_the_given_order() {
    let moves = lay_out(&vec![3, 0, 4, 1, 2], 2, Movement::Left, Movement::Up);
    assert_eq!(
        moves,
        vec![Movement::Up, Movement::Left, Movement::Up, Movement::Left, Movement::Up]
    );
}

#[test]
fn a_step_inside_the_ring_is_taken() {
    let g = Grid::new(-2, 2, -2, 2).unwrap();
    assert_eq!(get_move_delta(&g, (0, 0), Movement::Up, 1), (0, 1));
    assert_eq!(get_move_delta(&g, (0, 0), Movement::Left, 1), (-1, 0));
    assert_eq!(overshoot_check(&g, (1, 1), (0, 0)), (1, 1));
}

#[test]
fn a_step_onto_the_ring_is_cut() {
    let g = Grid::new(-2, 2, -2, 2).unwrap();
    assert_eq!(get_move_delta(&g, (1, 0), Movement::Right, 1), (0, 0));
    assert_eq!(get_move_delta(&g, (-1, 0), Movement::Left, 1), (0, 0));
    assert_eq!(get_move_delta(&g, (0, 1), Movement::Up, 1), (0, 0));
    assert_eq!(get_move_delta(&g, (0, -1), Movement::Down, 1), (0, 0));
    assert_eq!(get_move_delta(&g, (0, 0), Movement::Right, 5), (1, 0));
    assert_eq!(get_move_delta(&g, (0, 0), Movement::Down, 9), (0, -1));
    assert_eq!(overshoot_check(&g, (2, 0), (0, 0)), (1, 0));
    assert_eq!(overshoot_check(&g, (-7, 1), (0, 0)), (-1, 0));
    assert_eq!(overshoot_check(&g, (1, 2), (0, 0)), (0, 1));
}

#[test]
fn period_gates_the_steps() {
    let mut interval: u64 = 0;
    assert!(!period_passed(&mut interval, PERIOD));
    assert_eq!(interval, PERIOD);
    assert!(period_passed(&mut interval, 1));
    assert_eq!(interval, 1);
    assert!(period_passed(&mut interval, 3 * PERIOD));
    assert_eq!(interval, 2 * PERIOD + 1);
    assert!(period_passed(&mut interval, 0));
    assert_eq!(interval, PERIOD + 1);
    let mut full: u64 = u64::MAX - 1;
    assert!(period_passed(&mut full, 5));
    assert_eq!(full, u64::MAX - PERIOD);
}

#[test]
fn queueing_does_not_change_the_state() {
    let mut p = Player::new((0, 0));
    assert_eq!(p.state, State::Idle);
    p.queue_instruction(Instruction { transfer_point: (1, 1), to_group: 0 });
    p.queue_instruction(Instruction { transfer_point: (1, 2), to_group: 0 });
    assert_eq!(p.state, State::Idle);
    assert_eq!(p.instruction_queue.len(), 2);
    assert_eq!(p.instruction_queue[0].transfer_point, (1, 1));
    assert_eq!(p.instruction_queue[1].transfer_point, (1, 2));
    assert!(p.move_queue.is_empty());
}

#[test]
fn idle_worker_without_work_rests() {
    let mut map = small_map();
    let mut p = Player::new((0, 0));
    assert!(matches!(p.player_control(&mut map, PERIOD, 2), Event::Waiting));
    assert_eq!(p.interval, PERIOD);
    assert!(matches!(p.player_control(&mut map, 1, 2), Event::Resting));
    assert_eq!(p.interval, 1);
    assert_eq!(p.state, State::Idle);
}

#[test]
fn worker_walks_and_applies_the_transfer() {
    let mut map = small_map();
    let mut p = Player::new((1, 1));
    p.queue_instruction(Instruction { transfer_point: (1, 1), to_group: 0 });
    let tick = PERIOD + 1;
    assert!(matches!(p.player_control(&mut map, tick, 2), Event::Started));
    assert_eq!(p.state, State::Moving);
    // from (1, 1) to the world cell (-1, -1)
    assert_eq!(p.move_queue.len(), 4);
    assert_eq!(count(&p.move_queue, Movement::Left), 2);
    assert_eq!(count(&p.move_queue, Movement::Down), 2);
    assert_eq!(p.instruction_queue.len(), 1);
    assert_eq!(map.group_sum, vec![1, 12, 0]);
    for left in (0..4usize).rev() {
        let e = p.player_control(&mut map, tick, 2);
        assert!(matches!(e, Event::Stepped(_)));
        assert_eq!(p.move_queue.len(), left);
        assert!(p.position.0 >= -1 && p.position.0 <= 1);
        assert!(p.position.1 >= -1 && p.position.1 <= 1);
    }
    assert_eq!(p.position, (-1, -1));
    assert_eq!(map.group_sum, vec![1, 12, 0]);
    match p.player_control(&mut map, tick, 2) {
        Event::Completed(i) => {
            assert_eq!(i.transfer_point, (1, 1));
            assert_eq!(i.to_group, 0);
        }
        _ => panic!("the transfer should have been applied"),
    }
    assert_eq!(p.state, State::Idle);
    assert_eq!(p.interval, 0);
    assert!(p.instruction_queue.is_empty());
    assert_eq!(map.group_sum, vec![11, 2, 0]);
    assert_eq!(map.tile_groups[1][1], 0);
    assert_eq!(map.group_balance.total, 22);
}

#[test]
fn worker_stops_short_of_the_ring() {
    let mut map = small_map();
    let mut p = Player::new((1, 1));
    p.state = State::Moving;
    p.move_queue = vec![Movement::Up, Movement::Right, Movement::Right];
    let tick = PERIOD + 1;
    assert!(matches!(p.player_control(&mut map, tick, 2), Event::Stepped(Movement::Right)));
    assert_eq!(p.position, (1, 1));
    assert!(matches!(p.player_control(&mut map, tick, 2), Event::Stepped(Movement::Right)));
    assert_eq!(p.position, (1, 1));
    assert!(matches!(p.player_control(&mut map, tick, 2), Event::Stepped(Movement::Up)));
    assert_eq!(p.position, (1, 1));
}

#[test]
fn arrival_without_an_instruction_leaves_the_state_alone() {
    let mut map = small_map();
    let mut p = Player::new((0, 0));
    p.state = State::Moving;
    assert!(matches!(p.player_control(&mut map, PERIOD + 1, 2), Event::Underrun));
    assert_eq!(p.state, State::Idle);
    assert_eq!(map.group_sum, vec![1, 12, 0]);
    assert_eq!(p.position, (0, 0));
}

#[test]
fn instruction_for_a_cell_without_group_is_reported() {
    let mut map = small_map();
    let mut p = Player::new((0, 0));
    p.queue_instruction(Instruction { transfer_point: (0, 0), to_group: 1 });
    match p.player_control(&mut map, PERIOD + 1, 2) {
        Event::Invalid(i) => assert_eq!(i.transfer_point, (0, 0)),
        _ => panic!("the instruction should have been reported"),
    }
    assert_eq!(p.state, State::Idle);
    assert_eq!(p.instruction_queue.len(), 1);
    assert_eq!(map.group_sum, vec![1, 12, 0]);

    let mut q = Player::new((0, 0));
    q.state = State::Moving;
    q.queue_instruction(Instruction { transfer_point: (1, 1), to_group: 3 });
    match q.player_control(&mut map, PERIOD + 1, 2) {
        Event::Invalid(i) => assert_eq!(i.to_group, 3),
        _ => panic!("the instruction should have been reported"),
    }
    assert_eq!(map.group_sum, vec![1, 12, 0]);
}

#[test]
fn start_moving_without_work_does_nothing() {
    let g = Grid::new(-2, 2, -2, 2).unwrap();
    let mut p = Player::new((0, 0));
    p.start_moving(&g);
    assert_eq!(p.state, State::Idle);
    assert!(p.move_queue.is_empty());
    p.queue_instruction(Instruction { transfer_point: (3, 2), to_group: 0 });
    p.start_moving(&g);
    assert_eq!(p.state, State::Moving);
    assert_eq!(p.move_queue, vec![Movement::Right]);
}
