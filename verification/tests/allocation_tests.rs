use rusty_robots::allocation::{
    allocate_tasks, chain_successor_indices, resolve_allocation, worker_count, InitialStates,
};
use rusty_robots::errors::PlanningError;

#[test]
fn first_matching_agent_wins() {
    // two tasks, three agents, two policy indices
    let mass = vec![
        // task 0: policy 0 has mass at agents 1 and 2, policy 1 nowhere
        vec![vec![false, false], vec![true, false], vec![true, false]],
        // task 1: policy 0 at agent 0, policy 1 at agent 2
        vec![vec![true, false], vec![false, false], vec![false, true]],
    ];
    let alloc = allocate_tasks(2, 3, 2, &mass);
    assert_eq!(resolve_allocation(&alloc, 0, 0).unwrap(), 1);
    assert_eq!(resolve_allocation(&alloc, 1, 0).unwrap(), 0);
    assert_eq!(resolve_allocation(&alloc, 1, 1).unwrap(), 2);
    // a policy no agent can serve stays unallocated, which is fatal at
    // resolution time
    match resolve_allocation(&alloc, 0, 1).unwrap_err() {
        PlanningError::MissingAllocation { task, policy } => {
            assert_eq!((task, policy), (0, 1));
        },
        other => panic!("unexpected error {:?}", other),
    }
}

#[test]
fn allocation_is_per_task() {
    // the same policy index may serve different agents on different tasks
    let mass = vec![
        vec![vec![true], vec![true]],
        vec![vec![false], vec![true]],
    ];
    let alloc = allocate_tasks(2, 2, 1, &mass);
    assert_eq!(resolve_allocation(&alloc, 0, 0).unwrap(), 0);
    assert_eq!(resolve_allocation(&alloc, 1, 0).unwrap(), 1);
}

#[test]
fn resolution_is_stable() {
    let mass = vec![vec![vec![true], vec![true]]];
    let alloc = allocate_tasks(1, 2, 1, &mass);
    let a1 = resolve_allocation(&alloc, 0, 0).unwrap();
    let a2 = resolve_allocation(&alloc, 0, 0).unwrap();
    assert_eq!(a1, a2);
}

#[test]
fn initial_state_record_and_get() {
    let mut inits = InitialStates::new();
    assert_eq!(inits.get(0, 0), None);
    inits.record(0, 0, 17);
    inits.record(1, 0, 23);
    inits.record(0, 1, 31);
    assert_eq!(inits.get(0, 0), Some(17));
    assert_eq!(inits.get(1, 0), Some(23));
    assert_eq!(inits.get(0, 1), Some(31));
    assert_eq!(inits.get(1, 1), None);
}

#[test]
fn chaining_links_next_agent_and_next_task() {
    let mut inits = InitialStates::new();
    // two agents, two tasks
    inits.record(0, 0, 10);
    inits.record(1, 0, 11);
    inits.record(0, 1, 20);
    inits.record(1, 1, 21);
    // middle of the grid: both successors come from the record
    let (next_agent, next_task) = chain_successor_indices(&inits, 0, 0, 2, 2, 10).unwrap();
    assert_eq!(next_agent, 11);
    assert_eq!(next_task, 20);
    // last agent chains to itself, next task to the first agent
    let (next_agent, next_task) = chain_successor_indices(&inits, 1, 0, 2, 2, 11).unwrap();
    assert_eq!(next_agent, 11);
    assert_eq!(next_task, 20);
    // last agent of the last task chains to itself twice
    let (next_agent, next_task) = chain_successor_indices(&inits, 1, 1, 2, 2, 21).unwrap();
    assert_eq!(next_agent, 21);
    assert_eq!(next_task, 21);
}

#[test]
fn chaining_missing_record_is_fatal() {
    let mut inits = InitialStates::new();
    inits.record(0, 0, 10);
    match chain_successor_indices(&inits, 0, 0, 2, 2, 10).unwrap_err() {
        PlanningError::MissingInitialState { agent, task } => {
            assert_eq!((agent, task), (1, 0));
        },
        other => panic!("unexpected error {:?}", other),
    }
}

#[test]
fn worker_count_is_bounded_minimum() {
    assert_eq!(worker_count(64, 30), 30);
    assert_eq!(worker_count(8, 30), 8);
    assert_eq!(worker_count(10, 10), 10);
}
