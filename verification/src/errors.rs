use vstd::prelude::*;

verus! {

/// The failures the planner distinguishes.
///
/// Every variant is fatal for the run that raises it: a malformed automaton
/// state aborts the product construction that met it, a geometry
/// misconfiguration aborts setup, and a missing table entry marks an
/// inconsistency between the allocation phase and the synthesis phase.
#[derive(PartialEq, Eq, Structural, Clone, Copy, Debug)]
#[allow(inconsistent_fields)]
pub enum PlanningError {
    /// The task automaton was asked to step from a state outside its
    /// declared state set; `state` is the offending automaton state.
    MalformedAutomatonState { agent: i32, task: i32, state: i32 },
    /// The grid is too narrow to place any rack columns.
    GridTooNarrow,
    /// A product-state index was expected in a reverse state map but absent.
    MissingProductState { index: usize },
    /// An environment-state index was expected in a reverse state map but
    /// absent.
    MissingRobotState { index: usize },
    /// No initial-state index was recorded for this (agent, task) pair.
    MissingInitialState { agent: usize, task: usize },
    /// No agent was allocated for this (task, policy) pair.
    MissingAllocation { task: usize, policy: usize },
}

} // verus!
