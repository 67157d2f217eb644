use rusty_robots::high_fidelity_warehouse::{warehouse_defaults, Info};
use rusty_robots::low_fidelity_warehouse::{
    construct_agent_scheduler_hdd, lex_max_point, lex_min_point, LowResModel, LowResWord, Mappings,
    MdpState, StateActionRecord,
};

fn coarse_info(racks: Vec<(i32, i32)>) -> Info {
    let (r0, c0, rot) = warehouse_defaults();
    let mut info = Info::make(r0, c0, rot, vec![(0, 1)], 4, 4);
    info.set_racks(Some(racks)).unwrap();
    info.set_rotation_mapping();
    info
}

#[test]
fn lex_extremes() {
    let pts = [(2, 3), (1, 9), (2, 1), (1, 4)];
    assert_eq!(lex_min_point(&pts), (1, 4));
    assert_eq!(lex_max_point(&pts), (2, 3));
    let single = [(5, 5)];
    assert_eq!(lex_min_point(&single), (5, 5));
    assert_eq!(lex_max_point(&single), (5, 5));
}

#[test]
fn coarse_state_space_indexing() {
    let mut m = LowResModel::make(4, (0, 0));
    let (wnew, hnew) = m.state_space(&3, &3, 1);
    assert_eq!((wnew, hnew), (3, 3));
    assert_eq!(m.states.len(), 9);
    for (i, s) in m.states.iter().enumerate() {
        assert_eq!(*s, ((i / 3) as i32, (i % 3) as i32));
    }
    assert_eq!(m.alphabet.len(), 9);
    assert_eq!(m.alphabet[4].agent_position, m.states[4]);
}

#[test]
fn coarse_state_space_scaled() {
    let mut m = LowResModel::make(4, (0, 0));
    let (wnew, hnew) = m.state_space(&5, &4, 2);
    assert_eq!((wnew, hnew), (3, 2));
    assert_eq!(m.states.len(), 6);
}

#[test]
fn coarse_step_boundaries_and_rack_span() {
    // racks at (2, 1) and (3, 1): vertical movement is blocked on odd
    // columns up to two left of the rightmost rack, inside the rack rows
    let info = coarse_info(vec![(2, 1), (3, 1)]);
    let mut m = LowResModel::make(4, (0, 0));
    m.state_space(&4, &4, 1);
    // left at the west wall is a no-op
    let (idx, reward, word) = m.step(&(0, 2), 0, &4, &4, &info);
    assert_eq!(m.states[idx as usize], (0, 2));
    assert_eq!(reward, 1);
    assert_eq!(word.agent_position, (0, 2));
    // ordinary moves
    let (idx, _, _) = m.step(&(1, 2), 0, &4, &4, &info);
    assert_eq!(m.states[idx as usize], (0, 2));
    let (idx, _, _) = m.step(&(1, 2), 1, &4, &4, &info);
    assert_eq!(m.states[idx as usize], (2, 2));
    // blocked vertical move: x = 1 (odd, within span), y = 1 (rack row)
    let (idx, _, _) = m.step(&(1, 1), 2, &4, &4, &info);
    assert_eq!(m.states[idx as usize], (1, 1));
    let (idx, _, _) = m.step(&(1, 1), 3, &4, &4, &info);
    assert_eq!(m.states[idx as usize], (1, 1));
    // an even column moves vertically
    let (idx, _, _) = m.step(&(2, 1), 2, &4, &4, &info);
    assert_eq!(m.states[idx as usize], (2, 2));
    // outside the rack rows the odd column moves too
    let (idx, _, _) = m.step(&(1, 2), 2, &4, &4, &info);
    assert_eq!(m.states[idx as usize], (1, 3));
}

#[test]
fn coarse_step_is_deterministic() {
    let info = coarse_info(vec![(2, 1), (3, 1)]);
    let mut m = LowResModel::make(4, (0, 0));
    m.state_space(&4, &4, 1);
    for a in 0..4 {
        let r1 = m.step(&(1, 1), a, &4, &4, &info);
        let r2 = m.step(&(1, 1), a, &4, &4, &info);
        assert_eq!((r1.0, r1.1, r1.2.agent_position), (r2.0, r2.1, r2.2.agent_position));
    }
}

#[test]
fn coarse_transition_map_links_cells() {
    let info = coarse_info(vec![(2, 1), (3, 1)]);
    let mut m = LowResModel::make(4, (0, 0));
    m.state_space(&4, &4, 1);
    m.transition_map(1, &4, &4, &info);
    assert_eq!(m.transitions.len(), 16);
    for (i, row) in m.transitions.iter().enumerate() {
        assert_eq!(row.len(), 4);
        for (a, &succ) in row.iter().enumerate() {
            let (idx, _, _) = m.step(&m.states[i], a as i32, &4, &4, &info);
            assert_eq!(succ, idx as usize);
            assert_eq!(m.rewards[i][a], 1);
        }
    }
}

#[test]
fn scheduler_decode_within_one_pair() {
    let mappings = Mappings {
        current: vec![MdpState { s: 0, q: 0 }, MdpState { s: 1, q: 1 }],
        next_agent: None,
        next_task: None,
    };
    let robot_reverse = vec![(0, 0), (1, 0)];
    let data = vec![StateActionRecord {
        s: 0,
        sprime: 1,
        action: 1,
        s_a: 0,
        s_t: 0,
        sprime_a: 0,
        sprime_t: 0,
    }];
    let inits = vec![(9, 9)];
    let out = construct_agent_scheduler_hdd(&robot_reverse, &mappings, &data, &inits).unwrap();
    assert_eq!(out.len(), 1);
    assert_eq!(out[0].state, (0, 0));
    assert_eq!(out[0].value.a, 1);
    assert_eq!(out[0].value.state, (1, 0));
}

#[test]
fn scheduler_decode_crossing_edge_uses_initial_cell() {
    let mappings = Mappings {
        current: vec![MdpState { s: 0, q: 0 }],
        next_agent: Some(vec![MdpState { s: 0, q: 0 }]),
        next_task: None,
    };
    let robot_reverse = vec![(2, 2)];
    let data = vec![StateActionRecord {
        s: 0,
        sprime: 0,
        action: 3,
        s_a: 0,
        s_t: 0,
        sprime_a: 1,
        sprime_t: 0,
    }];
    let inits = vec![(0, 0), (3, 1)];
    let out = construct_agent_scheduler_hdd(&robot_reverse, &mappings, &data, &inits).unwrap();
    assert_eq!(out.len(), 1);
    assert_eq!(out[0].state, (2, 2));
    assert_eq!(out[0].value.state, (3, 1));
}

#[test]
fn scheduler_decode_missing_entries_are_fatal() {
    let mappings = Mappings {
        current: vec![MdpState { s: 0, q: 0 }],
        next_agent: None,
        next_task: None,
    };
    let robot_reverse = vec![(0, 0)];
    let inits = vec![(0, 0)];
    // a product state outside the current map
    let data = vec![StateActionRecord {
        s: 5,
        sprime: 0,
        action: 0,
        s_a: 0,
        s_t: 0,
        sprime_a: 0,
        sprime_t: 0,
    }];
    assert!(construct_agent_scheduler_hdd(&robot_reverse, &mappings, &data, &inits).is_err());
    // a crossing edge without the next-agent map
    let data2 = vec![StateActionRecord {
        s: 0,
        sprime: 0,
        action: 0,
        s_a: 0,
        s_t: 0,
        sprime_a: 1,
        sprime_t: 0,
    }];
    assert!(construct_agent_scheduler_hdd(&robot_reverse, &mappings, &data2, &inits).is_err());
}

#[test]
fn low_res_word_default() {
    let w: LowResWord = Default::default();
    assert_eq!(w.agent_position, (0, 0));
    let w2 = LowResWord::new(&(4, 5));
    assert_eq!(w2.agent_position, (4, 5));
}
