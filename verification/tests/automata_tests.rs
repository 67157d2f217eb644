use rusty_robots::high_fidelity_warehouse::{warehouse_defaults, Info, WarehouseWord};
use rusty_robots::low_fidelity_warehouse::LowResWord;
use rusty_robots::task_automata::{
    done, drop_rack, fail, finish, finish_regen, goto_feed_position, goto_queue_pos,
    goto_rack_position, hr_replenishment, lr_replenishment, pickup_rack_at_pos, regeneration,
    TaskAutomaton, TaskKind,
};

fn info_with(racks: Vec<(i32, i32)>, feeds: Vec<(i32, i32)>, queue: (i32, i32)) -> Info {
    let (r0, c0, rot) = warehouse_defaults();
    let mut info = Info::make(r0, c0, rot, feeds, 4, 4);
    info.set_racks(Some(racks)).unwrap();
    info.set_rotation_mapping();
    info.queue_point = queue;
    info
}

#[test]
fn coarse_replenishment_progression() {
    // lookup_rack selects the rack at (2, 1), feed_option the feed at (0, 1)
    let info = info_with(vec![(2, 1)], vec![(0, 1)], (0, 0));
    let words = [(2, 1), (0, 1), (2, 1)];
    let mut q = 0;
    let mut visited = vec![q];
    for p in words {
        q = lr_replenishment(q, &LowResWord::new(&p), &info);
        visited.push(q);
    }
    assert_eq!(visited, vec![0, 1, 2, 3]);
}

#[test]
fn coarse_replenishment_self_loops_and_tail() {
    let info = info_with(vec![(2, 1)], vec![(0, 1)], (0, 0));
    let away = LowResWord::new(&(3, 3));
    assert_eq!(lr_replenishment(0, &away, &info), 0);
    assert_eq!(lr_replenishment(1, &away, &info), 1);
    assert_eq!(lr_replenishment(2, &away, &info), 2);
    assert_eq!(lr_replenishment(3, &away, &info), 4);
    assert_eq!(lr_replenishment(4, &away, &info), 4);
    assert_eq!(lr_replenishment(9, &away, &info), -1);
}

#[test]
fn coarse_helpers() {
    let info = info_with(vec![(2, 1)], vec![(0, 1)], (0, 0));
    assert_eq!(goto_rack_position(&LowResWord::new(&(2, 1)), &info, 1, 0), 1);
    assert_eq!(goto_rack_position(&LowResWord::new(&(0, 0)), &info, 1, 0), 0);
    assert_eq!(goto_feed_position(&LowResWord::new(&(0, 1)), &info), 2);
    assert_eq!(goto_feed_position(&LowResWord::new(&(2, 2)), &info), 1);
    assert_eq!(finish(4), 4);
    assert_eq!(done(6), 6);
    assert_eq!(fail(), 7);
    assert_eq!(finish_regen(), 2);
}

#[test]
fn fine_replenishment_progression() {
    let info = info_with(vec![(2, 1)], vec![(0, 1)], (0, 0));
    // facing the rack from (1, 1) looking right, not carrying
    let facing_rack_empty = WarehouseWord::new((1, 1), 0, 0, None);
    assert_eq!(hr_replenishment(0, &facing_rack_empty, &info), 1);
    // picked up
    let carrying = WarehouseWord::new((1, 1), 0, 1, None);
    assert_eq!(hr_replenishment(1, &carrying, &info), 2);
    // facing the feed from (1, 1) looking left, carrying
    let facing_feed_carrying = WarehouseWord::new((1, 1), 2, 1, None);
    assert_eq!(hr_replenishment(2, &facing_feed_carrying, &info), 3);
    // facing the rack again while carrying
    let facing_rack_carrying = WarehouseWord::new((1, 1), 0, 1, None);
    assert_eq!(hr_replenishment(3, &facing_rack_carrying, &info), 4);
    // dropped
    let empty = WarehouseWord::new((1, 1), 0, 0, None);
    assert_eq!(hr_replenishment(4, &empty, &info), 5);
    assert_eq!(hr_replenishment(5, &empty, &info), 6);
    assert_eq!(hr_replenishment(6, &empty, &info), 6);
}

#[test]
fn fine_replenishment_fail_sink() {
    let info = info_with(vec![(2, 1)], vec![(0, 1)], (0, 0));
    // carrying before the pickup step falls into the fail sink
    let carrying = WarehouseWord::new((1, 1), 0, 1, None);
    assert_eq!(hr_replenishment(0, &carrying, &info), 7);
    // an empty gripper during the carry steps falls into the fail sink
    let empty = WarehouseWord::new((1, 1), 0, 0, None);
    assert_eq!(hr_replenishment(2, &empty, &info), 7);
    assert_eq!(hr_replenishment(3, &empty, &info), 7);
    // the fail sink absorbs
    assert_eq!(hr_replenishment(7, &empty, &info), 7);
    // an unknown state is the invalid sentinel
    assert_eq!(hr_replenishment(8, &empty, &info), -1);
}

#[test]
fn fine_helpers() {
    let info = info_with(vec![(2, 1)], vec![(0, 1)], (0, 0));
    let carrying = WarehouseWord::new((1, 1), 0, 1, None);
    let empty = WarehouseWord::new((3, 3), 0, 0, None);
    assert_eq!(pickup_rack_at_pos(&carrying, &info), 2);
    assert_eq!(pickup_rack_at_pos(&empty, &info), 1);
    assert_eq!(drop_rack(&empty, &info), 5);
    assert_eq!(drop_rack(&carrying, &info), 4);
}

#[test]
fn regeneration_progression() {
    let info = info_with(vec![(2, 1)], vec![(0, 1)], (3, 3));
    let away = WarehouseWord::new((1, 1), 0, 0, None);
    let at_queue = WarehouseWord::new((3, 3), 0, 0, None);
    assert_eq!(goto_queue_pos(&away, &info), 0);
    assert_eq!(goto_queue_pos(&at_queue, &info), 1);
    assert_eq!(regeneration(0, &away, &info), 0);
    assert_eq!(regeneration(0, &at_queue, &info), 1);
    assert_eq!(regeneration(1, &away, &info), 2);
    assert_eq!(regeneration(2, &away, &info), 2);
    assert_eq!(regeneration(5, &away, &info), -1);
}

#[test]
fn automaton_dispatch() {
    let info = info_with(vec![(2, 1)], vec![(0, 1)], (3, 3));
    let coarse = TaskAutomaton::init(
        0,
        vec![0, 1, 2, 3, 4],
        vec![3],
        vec![],
        TaskKind::LowResReplenishment,
    );
    assert_eq!(coarse.q0, 0);
    assert_eq!(coarse.accepting, vec![3]);
    assert_eq!(coarse.step_low(0, &LowResWord::new(&(2, 1)), &info), 1);
    let fine = TaskAutomaton::init(
        0,
        (0..8).collect(),
        vec![5],
        vec![7],
        TaskKind::HighResReplenishment,
    );
    let facing_rack_empty = WarehouseWord::new((1, 1), 0, 0, None);
    assert_eq!(fine.step_high(0, &facing_rack_empty, &info), 1);
    let regen = TaskAutomaton::init(0, vec![0, 1, 2], vec![1], vec![], TaskKind::Regeneration);
    let at_queue = WarehouseWord::new((3, 3), 0, 0, None);
    assert_eq!(regen.step_high(0, &at_queue, &info), 1);
}
