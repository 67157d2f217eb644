use rusty_robots::high_fidelity_warehouse::{
    contains_point, front_pos, fwd_cell, state_key, warehouse_defaults, CellType, Info, State,
    WarehouseModel, WarehouseWord,
};

fn small_info(w: usize, h: usize, racks: Vec<(i32, i32)>, feeds: Vec<(i32, i32)>) -> Info {
    let (r0, c0, rot) = warehouse_defaults();
    let mut info = Info::make(r0, c0, rot, feeds, w, h);
    info.set_racks(Some(racks)).unwrap();
    info.set_corridors(None);
    info.set_rotation_mapping();
    info
}

#[test]
fn default_state_fields() {
    let s: State = Default::default();
    assert_eq!(s.agent_dir, 0);
    assert_eq!(s.agent_position, (1, 0));
    assert_eq!(s.carrying, 0);
    assert_eq!(s.pack_available, 0);
    assert_eq!(s.pack_position, (-1, -1));
}

#[test]
fn word_accessors() {
    let w = WarehouseWord::new((2, 3), 1, 1, Some((0, 0)));
    assert_eq!(*w.get_agent_position(), (2, 3));
    assert_eq!(*w.is_carrying(), 1);
    assert_eq!(w.pack_position, Some((0, 0)));
}

#[test]
fn front_pos_moves_by_unit_vector() {
    let info = small_info(4, 4, vec![], vec![]);
    // right, down, left, up from (1, 1)
    assert_eq!(front_pos(&(1, 1), &0, &info.rotation_mapping, 4, 4), Some((2, 1)));
    assert_eq!(front_pos(&(1, 1), &1, &info.rotation_mapping, 4, 4), Some((1, 2)));
    assert_eq!(front_pos(&(1, 1), &2, &info.rotation_mapping, 4, 4), Some((0, 1)));
    assert_eq!(front_pos(&(1, 1), &3, &info.rotation_mapping, 4, 4), Some((1, 0)));
    // off the grid
    assert_eq!(front_pos(&(3, 1), &0, &info.rotation_mapping, 4, 4), None);
    assert_eq!(front_pos(&(0, 0), &3, &info.rotation_mapping, 4, 4), None);
}

#[test]
fn fwd_cell_classification_order() {
    let racks = [(1, 0)];
    let feeds = [(0, 0)];
    assert!(matches!(fwd_cell(None, 0, &(-1, -1), &racks, &feeds), CellType::OutOfBounds));
    assert!(matches!(fwd_cell(Some((1, 0)), 0, &(-1, -1), &racks, &feeds), CellType::Rack));
    assert!(matches!(fwd_cell(Some((0, 0)), 0, &(-1, -1), &racks, &feeds), CellType::Feed));
    assert!(matches!(fwd_cell(Some((0, 1)), 0, &(-1, -1), &racks, &feeds), CellType::Free));
    // a floor pack at the faced cell wins over feed membership
    assert!(matches!(fwd_cell(Some((0, 0)), 1, &(0, 0), &racks, &feeds), CellType::Pack));
    // rack membership is checked before the pack
    assert!(matches!(fwd_cell(Some((1, 0)), 1, &(1, 0), &racks, &feeds), CellType::Rack));
}

#[test]
fn contains_point_matches_membership() {
    let pts = [(0, 0), (2, 1)];
    assert!(contains_point(&pts, &(2, 1)));
    assert!(!contains_point(&pts, &(1, 2)));
}

#[test]
fn step_is_deterministic() {
    let info = small_info(4, 4, vec![(1, 0)], vec![(0, 0)]);
    let m = WarehouseModel::warehouse_make(5, Default::default());
    let s = State {
        agent_dir: 0,
        agent_position: (1, 1),
        carrying: 0,
        pack_available: 0,
        pack_position: (-1, -1),
    };
    for a in 0..5 {
        let r1 = m.warehouse_step(&s, a, &info);
        let r2 = m.warehouse_step(&s, a, &info);
        assert_eq!(r1, r2);
    }
}

#[test]
fn boundary_moves_are_noops() {
    let info = small_info(4, 4, vec![], vec![]);
    let m = WarehouseModel::warehouse_make(5, Default::default());
    for dir in [2u8, 3u8] {
        let s = State {
            agent_dir: dir,
            agent_position: (0, 0),
            carrying: 0,
            pack_available: 0,
            pack_position: (-1, -1),
        };
        let (next, reward, _word) = m.warehouse_step(&s, 2, &info);
        assert_eq!(next.agent_position, (0, 0));
        assert_eq!(reward, 1);
    }
}

#[test]
fn step_rotations_cycle() {
    let info = small_info(4, 4, vec![], vec![]);
    let m = WarehouseModel::warehouse_make(5, Default::default());
    let s = State {
        agent_dir: 0,
        agent_position: (1, 1),
        carrying: 0,
        pack_available: 0,
        pack_position: (-1, -1),
    };
    let (left, _, _) = m.warehouse_step(&s, 0, &info);
    assert_eq!(left.agent_dir, 3);
    let (right, _, _) = m.warehouse_step(&s, 1, &info);
    assert_eq!(right.agent_dir, 1);
}

#[test]
fn drop_places_pack_and_pickup_clears_it() {
    let info = small_info(4, 4, vec![(1, 0)], vec![(0, 0)]);
    let m = WarehouseModel::warehouse_make(5, Default::default());
    let carrying = State {
        agent_dir: 0,
        agent_position: (1, 1),
        carrying: 1,
        pack_available: 0,
        pack_position: (-1, -1),
    };
    let (dropped, _, word) = m.warehouse_step(&carrying, 4, &info);
    assert_eq!(dropped.carrying, 0);
    assert_eq!(dropped.pack_available, 1);
    assert_eq!(dropped.pack_position, (2, 1));
    assert_eq!(word.pack_position, Some((2, 1)));
    let (back, _, word2) = m.warehouse_step(&dropped, 3, &info);
    assert_eq!(back.carrying, 1);
    assert_eq!(back.pack_available, 0);
    assert_eq!(back.pack_position, (-1, -1));
    assert_eq!(word2.pack_position, None);
}

#[test]
fn concrete_two_by_two_scenario() {
    // 2 x 2 grid, one rack at (1, 0), one feed at (0, 0); the agent starts
    // at (0, 1) facing right, not carrying, no floor pack.
    let info = small_info(2, 2, vec![(1, 0)], vec![(0, 0)]);
    let m = WarehouseModel::warehouse_make(5, Default::default());
    let mut s = State {
        agent_dir: 0,
        agent_position: (0, 1),
        carrying: 0,
        pack_available: 0,
        pack_position: (-1, -1),
    };
    for a in [1, 1, 2, 2] {
        let (next, _, _) = m.warehouse_step(&s, a, &info);
        s = next;
        // no pickup was issued, so nothing is carried and no pack exists
        assert_eq!(s.carrying, 0);
        assert_eq!(s.pack_available, 0);
    }
    // with the rack cell in front and no floor pack, a pickup succeeds
    let facing_rack = State {
        agent_dir: 3,
        agent_position: (1, 1),
        carrying: 0,
        pack_available: 0,
        pack_position: (-1, -1),
    };
    let (picked, _, _) = m.warehouse_step(&facing_rack, 3, &info);
    assert_eq!(picked.carrying, 1);
    assert_eq!(picked.pack_available, 0);
}

#[test]
fn state_space_counts_and_carrying_invariant() {
    let info = small_info(2, 2, vec![(1, 0)], vec![(0, 0)]);
    let corridors = info.corridor_positions.clone();
    assert_eq!(corridors.len(), 4);
    let mut m = WarehouseModel::warehouse_make(5, Default::default());
    m.warehouse_state_space(&corridors, &info);
    // |C| * 4 * (|C| + 1)
    assert_eq!(m.states.len(), 4 * 4 * 5);
    assert_eq!(m.alphabet.len(), m.states.len());
    for s in m.states.iter() {
        // the carrying invariant: no floor pack means the sentinel position
        if s.pack_available == 0 {
            assert_eq!(s.pack_position, (-1, -1));
        } else {
            assert_eq!(s.carrying, 0);
            assert_ne!(s.pack_position, s.agent_position);
        }
    }
}

#[test]
fn transition_map_links_enumerated_states() {
    let info = small_info(2, 2, vec![], vec![]);
    let corridors = info.corridor_positions.clone();
    let mut m = WarehouseModel::warehouse_make(5, Default::default());
    m.warehouse_state_space(&corridors, &info);
    m.warehouse_transition_map(1, &info).unwrap();
    assert_eq!(m.transitions.len(), m.states.len());
    for (i, row) in m.transitions.iter().enumerate() {
        assert_eq!(row.len(), 5);
        for (a, &succ) in row.iter().enumerate() {
            assert!(succ < m.states.len());
            let (expect, _, _) = m.warehouse_step(&m.states[i], a as i32, &info);
            assert_eq!(m.states[succ], expect);
            assert_eq!(m.rewards[i][a], 1);
        }
    }
}

#[test]
fn state_key_distinguishes_states() {
    let s1 = State {
        agent_dir: 0,
        agent_position: (0, 1),
        carrying: 0,
        pack_available: 0,
        pack_position: (-1, -1),
    };
    let s2 = State { agent_dir: 1, ..s1 };
    let s3 = State { carrying: 1, ..s1 };
    let k1 = state_key(&s1, 2, 2);
    assert_ne!(k1, state_key(&s2, 2, 2));
    assert_ne!(k1, state_key(&s3, 2, 2));
    assert_eq!(k1, state_key(&s1, 2, 2));
}

#[test]
fn default_racks_layout() {
    let (r0, c0, rot) = warehouse_defaults();
    let mut info = Info::make(r0, c0, rot, vec![(0, 5)], 12, 12);
    info.set_racks(None).unwrap();
    // (12 - 2) / 3 column pairs, rows 1..11, two racks per row
    assert_eq!(info.rack_positions.len(), 3 * 10 * 2);
    assert_eq!(info.rack_positions[0], (2, 1));
    assert_eq!(info.rack_positions[1], (3, 1));
    assert_eq!(info.rack_positions[2], (2, 2));
    assert!(info.rack_positions.contains(&(8, 10)));
    assert!(!info.rack_positions.contains(&(4, 1)));
}

#[test]
fn too_narrow_grid_is_rejected() {
    let (r0, c0, rot) = warehouse_defaults();
    let mut info = Info::make(r0, c0, rot, vec![], 4, 12);
    let e = info.set_racks(None);
    assert!(e.is_err());
    assert!(info.rack_positions.is_empty());
}

#[test]
fn default_corridors_cover_grid() {
    let info = small_info(2, 2, vec![(1, 0)], vec![(0, 0)]);
    // no cell is both rack and feed, so every cell is a corridor
    assert_eq!(info.corridor_positions.len(), 4);
    assert_eq!(info.corridor_positions, vec![(0, 0), (0, 1), (1, 0), (1, 1)]);
    // a cell that is both rack and feed is excluded
    let both = small_info(2, 2, vec![(1, 1)], vec![(1, 1)]);
    assert_eq!(both.corridor_positions.len(), 3);
    assert!(!both.corridor_positions.contains(&(1, 1)));
}

#[test]
fn lookup_rack_setter_and_getter() {
    let mut info = small_info(4, 4, vec![(1, 0), (2, 0)], vec![(0, 0)]);
    info.set_lookup_rack(1);
    assert_eq!(*info.get_lookup_rack(), 1);
}
