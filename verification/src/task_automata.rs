//! The task automata driven by environment observations.
//!
//! Each task is a finite automaton over the words the environment emits,
//! together with the shared planning context that selects the task's rack
//! and feed point. Three concrete automata exist: replenishment at coarse
//! resolution, replenishment at fine resolution, and regeneration (return
//! to the agent's queue point). An automaton asked to step from a state
//! outside its case analysis answers the invalid sentinel `-1`; callers
//! treat that as a malformed automaton state and abort the product
//! construction that met it.

use vstd::prelude::*;
use crate::high_fidelity_warehouse::{
    front_pos, in_grid, info_wf, spec_front_pos, spec_rotation, Info, WarehouseWord,
};
use crate::low_fidelity_warehouse::LowResWord;

verus! {

/// Which concrete transition relation a task automaton uses.
#[derive(PartialEq, Eq, Structural, Clone, Copy, Debug)]
pub enum TaskKind {
    LowResReplenishment,
    HighResReplenishment,
    Regeneration,
}

/// A fine-resolution word that the automata can safely inspect: the
/// direction is one of four and the pose lies on the grid.
pub open spec fn word_wf(w: WarehouseWord, info: Info) -> bool {
    &&& w.dir < 4
    &&& in_grid(w.agent_position, info.width as int, info.height as int)
}

/// Coarse replenishment, from the current state: reach the selected rack,
/// then the selected feed point, then the rack again; then finish and stay
/// done. An unknown state answers `-1`.
pub open spec fn spec_lr_replenishment(q: i32, w: LowResWord, info: Info) -> i32 {
    if q == 0 {
        if w.agent_position == info.rack_positions@[info.lookup_rack as int] {
            1
        } else {
            0
        }
    } else if q == 1 {
        if w.agent_position == info.feed_points@[info.feed_option as int] {
            2
        } else {
            1
        }
    } else if q == 2 {
        if w.agent_position == info.rack_positions@[info.lookup_rack as int] {
            3
        } else {
            2
        }
    } else if q == 3 {
        4
    } else if q == 4 {
        4
    } else {
        (-1) as i32
    }
}

/// Fine replenishment, from the current state: face the selected rack while
/// not carrying, pick up, face the selected feed while carrying, face the
/// rack again while carrying, drop; then finish and stay done. Carrying at
/// the wrong step falls into the absorbing fail state `7`. An unknown state
/// answers `-1`.
pub open spec fn spec_hr_replenishment(q: i32, w: WarehouseWord, info: Info) -> i32 {
    let front = spec_front_pos(
        w.agent_position,
        w.dir,
        info.rotation_mapping@,
        info.width as int,
        info.height as int,
    );
    if q == 0 {
        if w.carrying == 0 {
            if front == Some(info.rack_positions@[info.lookup_rack as int]) {
                1
            } else {
                0
            }
        } else {
            7
        }
    } else if q == 1 {
        if w.carrying == 1 {
            2
        } else {
            1
        }
    } else if q == 2 {
        if w.carrying == 1 {
            if front == Some(info.feed_points@[info.feed_option as int]) {
                3
            } else {
                2
            }
        } else {
            7
        }
    } else if q == 3 {
        if w.carrying == 1 {
            if front == Some(info.rack_positions@[info.lookup_rack as int]) {
                4
            } else {
                3
            }
        } else {
            7
        }
    } else if q == 4 {
        if w.carrying == 0 {
            5
        } else {
            4
        }
    } else if q == 5 {
        6
    } else if q == 6 {
        6
    } else if q == 7 {
        7
    } else {
        (-1) as i32
    }
}

/// Regeneration, from the current state: reach the agent's queue point,
/// then finish and stay done. An unknown state answers `-1`.
pub open spec fn spec_regeneration(q: i32, w: WarehouseWord, info: Info) -> i32 {
    if q == 0 {
        if w.agent_position == info.queue_point {
            1
        } else {
            0
        }
    } else if q == 1 {
        2
    } else if q == 2 {
        2
    } else {
        (-1) as i32
    }
}

/// The transition relation a fine-word automaton of the given kind obeys; a
/// coarse kind asked to read a fine word answers `-1`.
pub open spec fn spec_dfa_step_high(kind: TaskKind, q: i32, w: WarehouseWord, info: Info) -> i32 {
    match kind {
        TaskKind::HighResReplenishment => spec_hr_replenishment(q, w, info),
        TaskKind::Regeneration => spec_regeneration(q, w, info),
        TaskKind::LowResReplenishment => (-1) as i32,
    }
}

/// The transition relation a coarse-word automaton of the given kind obeys;
/// a fine kind asked to read a coarse word answers `-1`.
pub open spec fn spec_dfa_step_low(kind: TaskKind, q: i32, w: LowResWord, info: Info) -> i32 {
    match kind {
        TaskKind::LowResReplenishment => spec_lr_replenishment(q, w, info),
        TaskKind::HighResReplenishment => (-1) as i32,
        TaskKind::Regeneration => (-1) as i32,
    }
}

/// Progress toward the selected rack: `qprime` once the agent stands on it,
/// else `q`.
pub fn goto_rack_position(w: &LowResWord, info: &Info, qprime: i32, q: i32) -> (r: i32)
    requires
        info_wf(*info),
    ensures
        r == if w.agent_position == info.rack_positions@[info.lookup_rack as int] {
            qprime
        } else {
            q
        },
{
    let rack = info.rack_positions[info.lookup_rack];
    if w.agent_position.0 == rack.0 && w.agent_position.1 == rack.1 {
        qprime
    } else {
        q
    }
}

/// Progress toward the selected feed point: `2` once the agent stands on
/// it, else `1`.
pub fn goto_feed_position(w: &LowResWord, info: &Info) -> (r: i32)
    requires
        info_wf(*info),
    ensures
        r == if w.agent_position == info.feed_points@[info.feed_option as int] {
            2i32
        } else {
            1i32
        },
{
    let feed = info.feed_points[info.feed_option];
    if w.agent_position.0 == feed.0 && w.agent_position.1 == feed.1 {
        2
    } else {
        1
    }
}

/// The finishing move of an automaton: hands back the state it is given.
pub fn finish(q: i32) -> (r: i32)
    ensures
        r == q,
{
    q
}

/// The absorbing done move of an automaton: hands back the state it is
/// given.
pub fn done(q: i32) -> (r: i32)
    ensures
        r == q,
{
    q
}

/// The coarse replenishment transition function.
pub fn lr_replenishment(q: i32, w: &LowResWord, info: &Info) -> (r: i32)
    requires
        info_wf(*info),
    ensures
        r == spec_lr_replenishment(q, *w, *info),
{
    match q {
        0 => goto_rack_position(w, info, 1, 0),
        1 => goto_feed_position(w, info),
        2 => goto_rack_position(w, info, 3, 2),
        3 => finish(4),
        4 => done(4),
        _ => -1,
    }
}

/// The position the fine word's pose faces, under the context's rotation
/// mapping.
fn word_front(w: &WarehouseWord, info: &Info) -> (r: Option<crate::high_fidelity_warehouse::Point>)
    requires
        info_wf(*info),
        word_wf(*w, *info),
    ensures
        r == spec_front_pos(
            w.agent_position,
            w.dir,
            info.rotation_mapping@,
            info.width as int,
            info.height as int,
        ),
{
    proof {
        assert(info.rotation_mapping@.dom().contains(w.dir));
        assert(info.rotation_mapping@[w.dir] == spec_rotation(w.dir));
    }
    front_pos(&w.agent_position, &w.dir, &info.rotation_mapping, info.width, info.height)
}

/// Progress toward facing the selected rack while not carrying; carrying
/// here falls into the fail state.
pub fn goto_rand_rackpos(w: &WarehouseWord, info: &Info) -> (r: i32)
    requires
        info_wf(*info),
        word_wf(*w, *info),
    ensures
        r == spec_hr_replenishment(0, *w, *info),
{
    let front = word_front(w, info);
    if *w.is_carrying() == 0 {
        match front {
            Some(point) => {
                let rack = info.rack_positions[info.lookup_rack];
                if point.0 == rack.0 && point.1 == rack.1 {
                    return 1;
                }
            },
            None => {},
        }
    } else {
        return 7;
    }
    0
}

/// Progress past the pickup: done once the agent carries.
pub fn pickup_rack_at_pos(w: &WarehouseWord, info: &Info) -> (r: i32)
    ensures
        r == spec_hr_replenishment(1, *w, *info),
{
    if *w.is_carrying() == 1 {
        2
    } else {
        1
    }
}

/// Progress toward facing the selected feed point while carrying; an empty
/// gripper here falls into the fail state.
pub fn carry_rack_to_feed0(w: &WarehouseWord, info: &Info) -> (r: i32)
    requires
        info_wf(*info),
        word_wf(*w, *info),
    ensures
        r == spec_hr_replenishment(2, *w, *info),
{
    let front = word_front(w, info);
    if *w.is_carrying() == 1 {
        match front {
            Some(point) => {
                let feed = info.feed_points[info.feed_option];
                if point.0 == feed.0 && point.1 == feed.1 {
                    return 3;
                }
            },
            None => {},
        }
    } else {
        return 7;
    }
    2
}

/// Progress toward facing the rack again while carrying; an empty gripper
/// here falls into the fail state.
pub fn carry_rack_back_to_pos(w: &WarehouseWord, info: &Info) -> (r: i32)
    requires
        info_wf(*info),
        word_wf(*w, *info),
    ensures
        r == spec_hr_replenishment(3, *w, *info),
{
    let front = word_front(w, info);
    if *w.is_carrying() == 1 {
        match front {
            Some(point) => {
                let rack = info.rack_positions[info.lookup_rack];
                if point.0 == rack.0 && point.1 == rack.1 {
                    return 4;
                }
            },
            None => {},
        }
    } else {
        return 7;
    }
    3
}

/// Progress past the drop: done once the gripper is empty.
pub fn drop_rack(w: &WarehouseWord, info: &Info) -> (r: i32)
    ensures
        r == spec_hr_replenishment(4, *w, *info),
{
    if *w.is_carrying() == 0 {
        5
    } else {
        4
    }
}

/// The absorbing fail state.
pub fn fail() -> (r: i32)
    ensures
        r == 7,
{
    7
}

/// The fine replenishment transition function.
pub fn hr_replenishment(q: i32, w: &WarehouseWord, info: &Info) -> (r: i32)
    requires
        info_wf(*info),
        word_wf(*w, *info),
    ensures
        r == spec_hr_replenishment(q, *w, *info),
{
    match q {
        0 => goto_rand_rackpos(w, info),
        1 => pickup_rack_at_pos(w, info),
        2 => carry_rack_to_feed0(w, info),
        3 => carry_rack_back_to_pos(w, info),
        4 => drop_rack(w, info),
        5 => finish(6),
        6 => done(6),
        7 => fail(),
        _ => -1,
    }
}

/// Progress toward the agent's queue point.
pub fn goto_queue_pos(w: &WarehouseWord, info: &Info) -> (r: i32)
    ensures
        r == spec_regeneration(0, *w, *info),
{
    if w.agent_position.0 == info.queue_point.0 && w.agent_position.1 == info.queue_point.1 {
        return 1;
    }
    0
}

/// The finishing move of the regeneration automaton.
pub fn finish_regen() -> (r: i32)
    ensures
        r == 2,
{
    2
}

/// The absorbing done move of the regeneration automaton.
pub fn done_regen() -> (r: i32)
    ensures
        r == 2,
{
    2
}

/// The regeneration transition function.
pub fn regeneration(q: i32, w: &WarehouseWord, info: &Info) -> (r: i32)
    ensures
        r == spec_regeneration(q, *w, *info),
{
    match q {
        0 => goto_queue_pos(w, info),
        1 => finish_regen(),
        2 => done_regen(),
        _ => -1,
    }
}

/// A task automaton: the declared finite state set, the initial, accepting
/// and fail states, and one of the three concrete transition relations.
pub struct TaskAutomaton {
    pub q0: i32,
    pub states: Vec<i32>,
    pub accepting: Vec<i32>,
    pub fail: Vec<i32>,
    pub kind: TaskKind,
}

impl TaskAutomaton {
    /// Builds an automaton instance from its parts.
    pub fn init(q0: i32, states: Vec<i32>, accepting: Vec<i32>, fail: Vec<i32>, kind: TaskKind) -> (t: TaskAutomaton)
        ensures
            t.q0 == q0,
            t.states == states,
            t.accepting == accepting,
            t.fail == fail,
            t.kind == kind,
    {
        TaskAutomaton { q0, states, accepting, fail, kind }
    }

    /// Steps the automaton on a coarse word.
    pub fn step_low(&self, q: i32, word: &LowResWord, info: &Info) -> (qn: i32)
        requires
            info_wf(*info),
        ensures
            qn == spec_dfa_step_low(self.kind, q, *word, *info),
    {
        match self.kind {
            TaskKind::LowResReplenishment => lr_replenishment(q, word, info),
            TaskKind::HighResReplenishment => -1,
            TaskKind::Regeneration => -1,
        }
    }

    /// Steps the automaton on a fine word.
    pub fn step_high(&self, q: i32, word: &WarehouseWord, info: &Info) -> (qn: i32)
        requires
            info_wf(*info),
            word_wf(*word, *info),
        ensures
            qn == spec_dfa_step_high(self.kind, q, *word, *info),
    {
        match self.kind {
            TaskKind::HighResReplenishment => hr_replenishment(q, word, info),
            TaskKind::Regeneration => regeneration(q, word, info),
            TaskKind::LowResReplenishment => -1,
        }
    }
}

} // verus!
