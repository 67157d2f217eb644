use rusty_robots::allocation::{
    allocate_tasks, chain_successor_indices, resolve_allocation, InitialStates,
};
use rusty_robots::high_fidelity_warehouse::{warehouse_defaults, Info, State, WarehouseModel};
use rusty_robots::low_fidelity_warehouse::LowResModel;
use rusty_robots::schedule::create_decoded_sched_to_file;
use rusty_robots::task_automata::{TaskAutomaton, TaskKind};

/// The two-phase pipeline on a small grid, with the external solving
/// capability replaced by fixed answers: the coarse products are built and
/// chained for every (agent, task) pair, the allocation is resolved from a
/// given mass table, and the fine product of the allocated agent is decoded
/// into an exhaustive schedule.
#[test]
fn two_phase_pipeline_composes() {
    let na: usize = 2;
    let nt: usize = 1;
    let (r0, c0, rot) = warehouse_defaults();
    let mut info = Info::make(r0, c0, rot, vec![(0, 0)], 2, 2);
    info.set_racks(Some(vec![(1, 0)])).unwrap();
    info.set_corridors(None);
    info.set_rotation_mapping();

    // phase one: build and chain one coarse product per (agent, task) pair
    let starts = [(0, 1), (1, 1)];
    let mut initial_states = InitialStates::new();
    let mut product_sizes = Vec::new();
    for t in 0..nt {
        info.set_lookup_rack(0);
        info.feed_option = 0;
        for (a, start) in starts.iter().enumerate() {
            let mut env = LowResModel::make(4, *start);
            env.state_space(&2, &2, 1);
            env.transition_map(1, &2, &2, &info);
            let task = TaskAutomaton::init(
                0,
                (0..5).collect(),
                vec![3],
                vec![],
                TaskKind::LowResReplenishment,
            );
            let mdp = env.product(&task, a as i32, t as i32, &info).unwrap();
            // the initial product state always sits at index zero
            initial_states.record(a, t, 0);
            product_sizes.push(mdp.states.len());
        }
    }
    // chaining: the first agent points at the second, the last at itself
    let (next_agent, next_task) = chain_successor_indices(&initial_states, 0, 0, na, nt, 0).unwrap();
    assert_eq!((next_agent, next_task), (0, 0));

    // a fixed stand-in for the synthesis oracle's output: one policy with
    // mass only at the second agent
    let mass = vec![vec![vec![false], vec![true]]];
    let alloc = allocate_tasks(nt, na, 1, &mass);
    let agent = resolve_allocation(&alloc, 0, 0).unwrap();
    assert_eq!(agent, 1);

    // phase two: fine product for the allocated agent, decoded with a fixed
    // stand-in for the value-iteration oracle's action vector
    let mut fine = WarehouseModel::warehouse_make(5, State {
        agent_dir: 1,
        agent_position: starts[agent],
        carrying: 0,
        pack_available: 0,
        pack_position: (-1, -1),
    });
    let corridors = info.corridor_positions.clone();
    fine.warehouse_state_space(&corridors, &info);
    fine.warehouse_transition_map(1, &info).unwrap();
    let task = TaskAutomaton::init(
        0,
        (0..8).collect(),
        vec![5],
        vec![7],
        TaskKind::HighResReplenishment,
    );
    let mdp = fine.product(&task, agent as i32, 0, &info).unwrap();
    let actions: Vec<i32> = vec![0; mdp.states.len()];
    let sched = create_decoded_sched_to_file(&actions, &mdp.states, &fine.states).unwrap();
    let total: usize = sched
        .iter()
        .map(|(_, dirs)| dirs.iter().map(|(_, v)| v.len()).sum::<usize>())
        .sum();
    assert_eq!(total, mdp.states.len());
}
