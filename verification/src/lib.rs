//! Planner for a fleet of grid-world warehouse robots.
//!
//! The crate models a warehouse at two resolutions (a coarse cell grid and a
//! fine grid with facing direction and pack handling), drives task automata
//! from the observations the environment emits, composes environment and
//! automaton into product decision models, allocates tasks to agents, and
//! decodes optimal-action vectors into position-indexed schedules.

pub mod allocation;
pub mod encoding;
pub mod errors;
pub mod high_fidelity_warehouse;
pub mod low_fidelity_warehouse;
pub mod product_mdp;
pub mod schedule;
pub mod tables;
pub mod task_automata;
