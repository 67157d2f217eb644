use rusty_robots::errors::PlanningError;
use rusty_robots::high_fidelity_warehouse::{warehouse_defaults, Info, State, WarehouseModel};
use rusty_robots::low_fidelity_warehouse::LowResModel;
use rusty_robots::schedule::create_decoded_sched_to_file;
use rusty_robots::task_automata::{TaskAutomaton, TaskKind};

fn full_info(w: usize, h: usize, racks: Vec<(i32, i32)>, feeds: Vec<(i32, i32)>) -> Info {
    let (r0, c0, rot) = warehouse_defaults();
    let mut info = Info::make(r0, c0, rot, feeds, w, h);
    info.set_racks(Some(racks)).unwrap();
    info.set_corridors(None);
    info.set_rotation_mapping();
    info
}

#[test]
fn coarse_product_reaches_accepting() {
    let info = full_info(2, 2, vec![(1, 0)], vec![(0, 0)]);
    let mut env = LowResModel::make(4, (0, 1));
    env.state_space(&2, &2, 1);
    env.transition_map(1, &2, &2, &info);
    let task = TaskAutomaton::init(
        0,
        (0..5).collect(),
        vec![3],
        vec![],
        TaskKind::LowResReplenishment,
    );
    let mdp = env.product(&task, 0, 0, &info).unwrap();
    assert_eq!(mdp.agent, 0);
    assert_eq!(mdp.task, 0);
    // the initial product state sits at index zero
    assert_eq!(mdp.states[0], mdp.init_state);
    assert_eq!(mdp.init_state.1, 0);
    assert_eq!(env.states[mdp.init_state.0], (0, 1));
    // dense, deterministic transition table
    assert_eq!(mdp.transitions.len(), mdp.states.len());
    for row in mdp.transitions.iter() {
        assert_eq!(row.len(), 4);
        for &succ in row.iter() {
            assert!(succ < mdp.states.len());
        }
    }
    // the accepting automaton state is reached somewhere
    assert!(mdp.states.iter().any(|s| s.1 == 3));
    // rewards are inherited unchanged from the environment edge
    for (i, row) in mdp.rewards.iter().enumerate() {
        for (a, &r) in row.iter().enumerate() {
            assert_eq!(r, env.rewards[mdp.states[i].0][a]);
        }
    }
}

#[test]
fn product_states_are_distinct() {
    let info = full_info(2, 2, vec![(1, 0)], vec![(0, 0)]);
    let mut env = LowResModel::make(4, (0, 1));
    env.state_space(&2, &2, 1);
    env.transition_map(1, &2, &2, &info);
    let task = TaskAutomaton::init(
        0,
        (0..5).collect(),
        vec![3],
        vec![],
        TaskKind::LowResReplenishment,
    );
    let mdp = env.product(&task, 1, 2, &info).unwrap();
    for i in 0..mdp.states.len() {
        for j in (i + 1)..mdp.states.len() {
            assert_ne!(mdp.states[i], mdp.states[j]);
        }
    }
}

#[test]
fn fine_regeneration_product() {
    let info = {
        let mut i = full_info(2, 2, vec![], vec![]);
        i.queue_point = (1, 1);
        i
    };
    let corridors = info.corridor_positions.clone();
    let mut env = WarehouseModel::warehouse_make(5, State {
        agent_dir: 0,
        agent_position: (0, 0),
        carrying: 0,
        pack_available: 0,
        pack_position: (-1, -1),
    });
    env.warehouse_state_space(&corridors, &info);
    env.warehouse_transition_map(1, &info).unwrap();
    let task = TaskAutomaton::init(0, vec![0, 1, 2], vec![1], vec![], TaskKind::Regeneration);
    let mdp = env.product(&task, 0, 0, &info).unwrap();
    assert_eq!(mdp.states[0], mdp.init_state);
    // the agent can reach its queue point, so the accepting state appears
    assert!(mdp.states.iter().any(|s| s.1 == 1));
    // every transition is within the discovered space
    for row in mdp.transitions.iter() {
        assert_eq!(row.len(), 5);
        for &succ in row.iter() {
            assert!(succ < mdp.states.len());
        }
    }
}

#[test]
fn truncated_automaton_range_is_malformed() {
    // declare only the states 0..3 for the fine replenishment automaton:
    // its fail sink 7 is reachable, which leaves the declared range
    let info = full_info(2, 2, vec![(1, 0)], vec![(0, 0)]);
    let corridors = info.corridor_positions.clone();
    let mut env = WarehouseModel::warehouse_make(5, State {
        agent_dir: 0,
        agent_position: (0, 1),
        carrying: 0,
        pack_available: 0,
        pack_position: (-1, -1),
    });
    env.warehouse_state_space(&corridors, &info);
    env.warehouse_transition_map(1, &info).unwrap();
    let task = TaskAutomaton::init(
        0,
        vec![0, 1, 2],
        vec![],
        vec![],
        TaskKind::HighResReplenishment,
    );
    let err = match env.product(&task, 4, 9, &info) {
        Err(e) => e,
        Ok(_) => panic!("expected a malformed automaton state"),
    };
    match err {
        PlanningError::MalformedAutomatonState { agent, task, state } => {
            assert_eq!(agent, 4);
            assert_eq!(task, 9);
            assert!(state < 0 || state >= 3);
        },
        other => panic!("unexpected error {:?}", other),
    }
}

#[test]
fn solver_input_helpers() {
    let info = full_info(2, 2, vec![(1, 0)], vec![(0, 0)]);
    let mut env = LowResModel::make(4, (0, 1));
    env.state_space(&2, &2, 1);
    env.transition_map(1, &2, &2, &info);
    let task = TaskAutomaton::init(
        0,
        (0..5).collect(),
        vec![3],
        vec![],
        TaskKind::LowResReplenishment,
    );
    let mdp = env.product(&task, 0, 0, &info).unwrap();
    let avail = mdp.set_available_actions(0, 4);
    assert_eq!(avail.len(), mdp.states.len());
    for row in avail.iter() {
        assert_eq!(*row, vec![0, 1, 2, 3]);
    }
    for a in 0..4usize {
        let col = mdp.action_successors(a);
        let rew = mdp.action_rewards(a);
        assert_eq!(col.len(), mdp.states.len());
        assert_eq!(rew.len(), mdp.states.len());
        for i in 0..col.len() {
            assert_eq!(col[i], mdp.transitions[i][a]);
            assert_eq!(rew[i], mdp.rewards[i][a]);
        }
    }
}

#[test]
fn schedule_decode_is_exhaustive() {
    // four product states over two environment states
    let env_states = vec![
        State {
            agent_dir: 0,
            agent_position: (0, 0),
            carrying: 0,
            pack_available: 0,
            pack_position: (-1, -1),
        },
        State {
            agent_dir: 1,
            agent_position: (0, 0),
            carrying: 1,
            pack_available: 0,
            pack_position: (-1, -1),
        },
    ];
    let prod_reverse = vec![(0usize, 0i32), (0usize, 2i32), (1usize, 0i32), (1usize, 1i32)];
    let pi = vec![4i32, 2, 1, 0];
    let sched = create_decoded_sched_to_file(&pi, &prod_reverse, &env_states).unwrap();
    // exactly N records over all buckets, no duplicates, no omissions
    let total: usize = sched
        .iter()
        .map(|(_, dirs)| dirs.iter().map(|(_, v)| v.len()).sum::<usize>())
        .sum();
    assert_eq!(total, pi.len());
    // one position bucket, two direction groups
    assert_eq!(sched.len(), 1);
    assert_eq!(sched[0].0, (0, 0));
    assert_eq!(sched[0].1.len(), 2);
    // the direction-0 group holds the records of indices 0 and 1, in order
    let g0 = &sched[0].1[0];
    assert_eq!(g0.0, 0);
    assert_eq!(g0.1.len(), 2);
    assert_eq!(g0.1[0].action, 4);
    assert_eq!(g0.1[0].q, 0);
    assert_eq!(g0.1[1].action, 2);
    assert_eq!(g0.1[1].q, 2);
    // the direction-1 group carries the carrying flag through
    let g1 = &sched[0].1[1];
    assert_eq!(g1.0, 1);
    assert_eq!(g1.1.len(), 2);
    assert_eq!(g1.1[0].carrying, 1);
    assert_eq!(g1.1[1].action, 0);
    assert_eq!(g1.1[1].q, 1);
}

#[test]
fn schedule_decode_missing_entries() {
    let env_states = vec![State {
        agent_dir: 0,
        agent_position: (0, 0),
        carrying: 0,
        pack_available: 0,
        pack_position: (-1, -1),
    }];
    // the product reverse map is shorter than the action vector
    let short = vec![(0usize, 0i32)];
    let pi = vec![0i32, 1];
    match create_decoded_sched_to_file(&pi, &short, &env_states).unwrap_err() {
        PlanningError::MissingProductState { index } => assert_eq!(index, 1),
        other => panic!("unexpected error {:?}", other),
    }
    // an environment index outside the reverse map
    let bad_env = vec![(7usize, 0i32), (0usize, 0i32)];
    let pi2 = vec![0i32, 1];
    match create_decoded_sched_to_file(&pi2, &bad_env, &env_states).unwrap_err() {
        PlanningError::MissingRobotState { index } => assert_eq!(index, 7),
        other => panic!("unexpected error {:?}", other),
    }
}

#[test]
fn proper_pairs_reach_the_goal() {
    let info = full_info(2, 2, vec![(1, 0)], vec![(0, 0)]);
    let mut env = LowResModel::make(4, (0, 1));
    env.state_space(&2, &2, 1);
    env.transition_map(1, &2, &2, &info);
    let task = TaskAutomaton::init(
        0,
        (0..5).collect(),
        vec![3],
        vec![],
        TaskKind::LowResReplenishment,
    );
    let mdp = env.product(&task, 0, 0, &info).unwrap();
    let proper = mdp.proper_policies(&task.accepting);
    assert_eq!(proper.len(), mdp.states.len());
    // a pair is proper exactly when its successor has not passed into the
    // absorbing done state: from there the accepting state never recurs,
    // while from every earlier automaton state the rack and the feed stay
    // reachable on this grid
    for (i, row) in proper.iter().enumerate() {
        assert_eq!(row.len(), mdp.transitions[i].len());
        for (a, &p) in row.iter().enumerate() {
            let succ_q = mdp.states[mdp.transitions[i][a]].1;
            assert_eq!(p, succ_q != 4);
        }
    }
    // an unreachable goal leaves no pair proper
    let nowhere = vec![42];
    let improper = mdp.proper_policies(&nowhere);
    for row in improper.iter() {
        for &p in row.iter() {
            assert!(!p);
        }
    }
}
