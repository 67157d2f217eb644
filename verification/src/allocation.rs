//! Task allocation and pipeline bookkeeping.
//!
//! The coarse phase scans, for every task, the agents in a fixed order and
//! allocates each not-yet-used policy index to the first agent whose policy
//! has probability mass at that agent's initial product state; each policy
//! index is allocated to at most one agent per task, first match wins, with
//! no optimality search across ties. The fine phase later samples a policy
//! index per task and resolves the recorded allocation; a missing entry
//! there is a fatal inconsistency between the two phases. This module also
//! records the initial product-state indices that chain the per-pair
//! product models together, and the bounded worker-pool size.

use vstd::prelude::*;
use crate::encoding::{lemma_pair_bound, lemma_pair_injective, spec_pair};
use crate::errors::PlanningError;
use crate::tables::IndexTable;

verus! {

/// The packed table key of an index pair.
pub open spec fn spec_pair_key(a: int, b: int) -> int {
    spec_pair(a, b, 0x1_0000_0000)
}

/// The key as the tables store it.
pub open spec fn pair_key_u64(a: int, b: int) -> u64 {
    spec_pair_key(a, b) as u64
}

/// The pair key is bounded and injective on 32-bit components.
pub proof fn lemma_pair_key_injective(a1: int, b1: int, a2: int, b2: int)
    requires
        0 <= a1 < 0x1_0000_0000,
        0 <= b1 < 0x1_0000_0000,
        0 <= a2 < 0x1_0000_0000,
        0 <= b2 < 0x1_0000_0000,
        pair_key_u64(a1, b1) == pair_key_u64(a2, b2),
    ensures
        a1 == a2,
        b1 == b2,
{
    lemma_pair_bound(a1, b1, 0x1_0000_0000, 0x1_0000_0000);
    lemma_pair_bound(a2, b2, 0x1_0000_0000, 0x1_0000_0000);
    lemma_pair_injective(a1, b1, a2, b2, 0x1_0000_0000);
}

/// Computes the packed table key of an index pair.
pub fn pair_key(a: usize, b: usize) -> (k: u64)
    requires
        a < 0x1_0000_0000,
        b < 0x1_0000_0000,
    ensures
        k == pair_key_u64(a as int, b as int),
        k as int == spec_pair_key(a as int, b as int),
{
    proof {
        lemma_pair_bound(a as int, b as int, 0x1_0000_0000, 0x1_0000_0000);
    }
    (a as u64) * 0x1_0000_0000 + (b as u64)
}

/// A three-level mass table, as a sequence of sequences of sequences:
/// `[task][agent][policy]` tells whether that agent's candidate policy has
/// probability mass at the agent's initial product state for that task.
pub open spec fn mass_view(m: Seq<Vec<Vec<bool>>>) -> Seq<Seq<Seq<bool>>> {
    Seq::new(m.len(), |t: int| Seq::new(m[t]@.len(), |a: int| m[t]@[a]@))
}

/// The least agent whose policy has mass at policy index `k`, or the agent
/// count when none has.
pub open spec fn spec_first_agent(row: Seq<Seq<bool>>, k: int) -> int
    decreases row.len(),
{
    if row.len() == 0 {
        0
    } else if row[0][k] {
        0
    } else {
        1 + spec_first_agent(row.drop_first(), k)
    }
}

/// The first-agent selection is sound: it stays within the agent range
/// exactly when some agent has mass, it points at an agent with mass, and
/// every earlier agent has none.
pub proof fn lemma_first_agent_props(row: Seq<Seq<bool>>, k: int)
    ensures
        0 <= spec_first_agent(row, k) <= row.len(),
        spec_first_agent(row, k) < row.len() ==> row[spec_first_agent(row, k)][k],
        forall|a: int| 0 <= a < spec_first_agent(row, k) ==> !(#[trigger] row[a][k]),
        (exists|a: int| 0 <= a < row.len() && #[trigger] row[a][k]) ==> spec_first_agent(row, k)
            < row.len(),
    decreases row.len(),
{
    if row.len() > 0 && !row[0][k] {
        let rest = row.drop_first();
        lemma_first_agent_props(rest, k);
        assert forall|a: int| 0 <= a < spec_first_agent(row, k) implies !(#[trigger] row[a][k]) by {
            if a > 0 {
                assert(rest[a - 1] == row[a]);
                assert(!rest[a - 1][k]);
            }
        }
        if exists|a: int| 0 <= a < row.len() && #[trigger] row[a][k] {
            let a = choose|a: int| 0 <= a < row.len() && #[trigger] row[a][k];
            assert(a > 0);
            assert(rest[a - 1] == row[a]);
            assert(rest[a - 1][k]);
        }
        if spec_first_agent(row, k) < row.len() {
            assert(rest[spec_first_agent(rest, k)] == row[spec_first_agent(row, k)]);
        }
    }
}

/// The allocation built in the coarse phase: for every (task, policy) pair
/// that some agent can serve, the first such agent in scan order.
pub struct AllocationTable {
    table: IndexTable,
}

impl View for AllocationTable {
    type V = Map<u64, usize>;

    closed spec fn view(&self) -> Map<u64, usize> {
        self.table@
    }
}

/// Whether the allocation holds the right verdict for one (task, policy)
/// pair: allocated to the first agent with mass when one exists, absent
/// otherwise.
pub open spec fn alloc_clause(contents: Map<u64, usize>, mv: Seq<Seq<Seq<bool>>>, t: int, k: int) -> bool {
    let fa = spec_first_agent(mv[t], k);
    if fa < mv[t].len() {
        contents.dom().contains(pair_key_u64(t, k)) && contents[pair_key_u64(t, k)] == fa
    } else {
        !contents.dom().contains(pair_key_u64(t, k))
    }
}

/// Builds the phase-one allocation. For every task the agents are scanned
/// in a fixed order, and every not-yet-used policy index is allocated to
/// the first agent whose policy has mass there; first match wins.
#[verifier::loop_isolation(false)]
pub fn allocate_tasks(nt: usize, na: usize, npolicies: usize, mass: &Vec<Vec<Vec<bool>>>) -> (alloc:
    AllocationTable)
    requires
        mass@.len() == nt,
        forall|t: int| 0 <= t < nt ==> (#[trigger] mass@[t])@.len() == na,
        forall|t: int, a: int|
            0 <= t < nt && 0 <= a < na ==> (#[trigger] mass@[t]@[a])@.len() == npolicies,
        nt < 0x1_0000_0000,
        npolicies < 0x1_0000_0000,
    ensures
        forall|t: int, k: int|
            0 <= t < nt && 0 <= k < npolicies ==> #[trigger] alloc_clause(
                alloc@,
                mass_view(mass@),
                t,
                k,
            ),
{
    let ghost mv = mass_view(mass@);
    let mut table = IndexTable::new();
    let mut t: usize = 0;
    while t < nt
        invariant
            0 <= t <= nt,
            forall|t2: int, k2: int|
                0 <= t2 < t && 0 <= k2 < npolicies ==> #[trigger] alloc_clause(
                    crate::tables::index_table_contents(table),
                    mv,
                    t2,
                    k2,
                ),
            forall|t2: int, k2: int|
                t <= t2 < nt && 0 <= k2 < npolicies
                    ==> !crate::tables::index_table_contents(table).dom().contains(
                    #[trigger] pair_key_u64(t2, k2),
                ),
        decreases nt - t,
    {
        let mut allocated: Vec<bool> = Vec::new();
        let mut i: usize = 0;
        while i < npolicies
            invariant
                allocated@.len() == i,
                i <= npolicies,
                forall|k2: int| 0 <= k2 < i ==> !(#[trigger] allocated@[k2]),
            decreases npolicies - i,
        {
            allocated.push(false);
            i = i + 1;
        }
        proof {
            assert(mv[t as int].len() == na);
            assert forall|k2: int| 0 <= k2 < npolicies implies #[trigger] spec_first_agent(
                mv[t as int],
                k2,
            ) >= 0 by {
                lemma_first_agent_props(mv[t as int], k2);
            }
        }
        let mut a: usize = 0;
        while a < na
            invariant
                0 <= a <= na,
                t < nt,
                allocated@.len() == npolicies,
                forall|k2: int|
                    0 <= k2 < npolicies ==> #[trigger] allocated@[k2] == (spec_first_agent(
                        mv[t as int],
                        k2,
                    ) < a),
                forall|t2: int, k2: int|
                    0 <= t2 < t && 0 <= k2 < npolicies ==> #[trigger] alloc_clause(
                        crate::tables::index_table_contents(table),
                        mv,
                        t2,
                        k2,
                    ),
                forall|t2: int, k2: int|
                    t < t2 < nt && 0 <= k2 < npolicies
                        ==> !crate::tables::index_table_contents(table).dom().contains(
                        #[trigger] pair_key_u64(t2, k2),
                    ),
                forall|k2: int|
                    0 <= k2 < npolicies ==> (if spec_first_agent(mv[t as int], k2) < a {
                        crate::tables::index_table_contents(table).dom().contains(
                            #[trigger] pair_key_u64(t as int, k2),
                        ) && crate::tables::index_table_contents(table)[pair_key_u64(t as int, k2)]
                            == spec_first_agent(mv[t as int], k2)
                    } else {
                        !crate::tables::index_table_contents(table).dom().contains(
                            pair_key_u64(t as int, k2),
                        )
                    }),
            decreases na - a,
        {
            let mut k: usize = 0;
            while k < npolicies
                invariant
                    0 <= k <= npolicies,
                    a < na,
                    t < nt,
                    allocated@.len() == npolicies,
                    forall|k2: int|
                        k <= k2 < npolicies ==> #[trigger] allocated@[k2] == (spec_first_agent(
                            mv[t as int],
                            k2,
                        ) < a),
                    forall|k2: int|
                        0 <= k2 < k ==> #[trigger] allocated@[k2] == (spec_first_agent(
                            mv[t as int],
                            k2,
                        ) < a + 1),
                    forall|t2: int, k2: int|
                        0 <= t2 < t && 0 <= k2 < npolicies ==> #[trigger] alloc_clause(
                            crate::tables::index_table_contents(table),
                            mv,
                            t2,
                            k2,
                        ),
                    forall|t2: int, k2: int|
                        t < t2 < nt && 0 <= k2 < npolicies
                            ==> !crate::tables::index_table_contents(table).dom().contains(
                            #[trigger] pair_key_u64(t2, k2),
                        ),
                    forall|k2: int|
                        0 <= k2 < npolicies ==> (if spec_first_agent(mv[t as int], k2) < (if k2 < k {
                            a + 1
                        } else {
                            a as int
                        }) {
                            crate::tables::index_table_contents(table).dom().contains(
                                #[trigger] pair_key_u64(t as int, k2),
                            ) && crate::tables::index_table_contents(table)[pair_key_u64(
                                t as int,
                                k2,
                            )] == spec_first_agent(mv[t as int], k2)
                        } else {
                            !crate::tables::index_table_contents(table).dom().contains(
                                pair_key_u64(t as int, k2),
                            )
                        }),
                decreases npolicies - k,
            {
                let has_mass = mass[t][a][k];
                let was_allocated = allocated[k];
                proof {
                    assert(mv[t as int][a as int] == mass@[t as int]@[a as int]@);
                    assert(has_mass == mv[t as int][a as int][k as int]);
                    lemma_first_agent_props(mv[t as int], k as int);
                }
                if has_mass && !was_allocated {
                    allocated.set(k, true);
                    let key = pair_key(t, k);
                    let ghost oldc = crate::tables::index_table_contents(table);
                    table.insert(key, a);
                    proof {
                        let newc = crate::tables::index_table_contents(table);
                        assert(newc == oldc.insert(key, a));
                        lemma_first_agent_props(mv[t as int], k as int);
                        assert(spec_first_agent(mv[t as int], k as int) >= a as int);
                        if spec_first_agent(mv[t as int], k as int) > a as int {
                            assert(!mv[t as int][a as int][k as int]);
                            assert(false);
                        }
                        assert(spec_first_agent(mv[t as int], k as int) == a as int);
                        assert forall|t2: int, k2: int|
                            0 <= t2 < t && 0 <= k2 < npolicies implies #[trigger] alloc_clause(
                            newc,
                            mv,
                            t2,
                            k2,
                        ) by {
                            assert(alloc_clause(oldc, mv, t2, k2));
                            if pair_key_u64(t2, k2) == pair_key_u64(t as int, k as int) {
                                lemma_pair_key_injective(t2, k2, t as int, k as int);
                                assert(false);
                            }
                        }
                        assert forall|t2: int, k2: int|
                            t < t2 < nt && 0 <= k2 < npolicies implies !newc.dom().contains(
                            #[trigger] pair_key_u64(t2, k2),
                        ) by {
                            assert(!oldc.dom().contains(pair_key_u64(t2, k2)));
                            if pair_key_u64(t2, k2) == pair_key_u64(t as int, k as int) {
                                lemma_pair_key_injective(t2, k2, t as int, k as int);
                                assert(false);
                            }
                        }
                        assert forall|k2: int|
                            0 <= k2 < npolicies implies (if spec_first_agent(mv[t as int], k2)
                            < (if k2 < k as int + 1 {
                                a as int + 1
                            } else {
                                a as int
                            }) {
                            newc.dom().contains(#[trigger] pair_key_u64(t as int, k2))
                                && newc[pair_key_u64(t as int, k2)] == spec_first_agent(
                                mv[t as int],
                                k2,
                            )
                        } else {
                            !newc.dom().contains(pair_key_u64(t as int, k2))
                        }) by {
                            if k2 == k as int {
                                assert(newc.dom().contains(key));
                                assert(newc[key] == a);
                            } else {
                                if pair_key_u64(t as int, k2) == pair_key_u64(
                                    t as int,
                                    k as int,
                                ) {
                                    lemma_pair_key_injective(t as int, k2, t as int, k as int);
                                    assert(false);
                                }
                            }
                        }
                    }
                }
                k = k + 1;
            }
            a = a + 1;
        }
        proof {
            assert forall|k2: int| 0 <= k2 < npolicies implies #[trigger] alloc_clause(
                crate::tables::index_table_contents(table),
                mv,
                t as int,
                k2,
            ) by {
                lemma_first_agent_props(mv[t as int], k2);
            }
        }
        t = t + 1;
    }
    AllocationTable { table }
}

/// The agent recorded for the sampled policy index of a task; a missing
/// entry is a fatal inconsistency between the allocation phase and the
/// synthesis phase.
pub fn resolve_allocation(alloc: &AllocationTable, t: usize, k: usize) -> (r: Result<
    usize,
    PlanningError,
>)
    requires
        t < 0x1_0000_0000,
        k < 0x1_0000_0000,
    ensures
        r is Ok <==> alloc@.dom().contains(pair_key_u64(t as int, k as int)),
        match r {
            Ok(a) => alloc@.dom().contains(pair_key_u64(t as int, k as int)) && a == alloc@[
                pair_key_u64(t as int, k as int)
            ],
            Err(e) => e == (PlanningError::MissingAllocation { task: t, policy: k }),
        },
{
    let key = pair_key(t, k);
    match alloc.table.get(key) {
        Some(a) => Ok(a),
        None => Err(PlanningError::MissingAllocation { task: t, policy: k }),
    }
}

/// Two resolutions of the same (task, policy) pair name the same agent: the
/// allocation gives each pair at most one agent.
pub proof fn lemma_allocation_unique(alloc: AllocationTable, t: int, k: int, a1: usize, a2: usize)
    requires
        alloc@.dom().contains(pair_key_u64(t, k)),
        a1 == alloc@[pair_key_u64(t, k)],
        a2 == alloc@[pair_key_u64(t, k)],
    ensures
        a1 == a2,
{
}

/// A (task, policy) pair that some agent can serve is always allocated,
/// and to the least such agent in scan order; so a policy that the witness
/// solver weights, having been evaluated for some agent, resolves to an
/// agent.
pub proof fn lemma_massed_pair_allocated(
    contents: Map<u64, usize>,
    mv: Seq<Seq<Seq<bool>>>,
    t: int,
    k: int,
    a: int,
)
    requires
        alloc_clause(contents, mv, t, k),
        0 <= a < mv[t].len(),
        mv[t][a][k],
    ensures
        contents.dom().contains(pair_key_u64(t, k)),
        contents[pair_key_u64(t, k)] == spec_first_agent(mv[t], k),
        mv[t][spec_first_agent(mv[t], k)][k],
        forall|a2: int| 0 <= a2 < spec_first_agent(mv[t], k) ==> !(#[trigger] mv[t][a2][k]),
{
    lemma_first_agent_props(mv[t], k);
}

/// The recorded initial product-state index of every (agent, task) pair,
/// needed to chain the per-pair product models together before solving.
pub struct InitialStates {
    table: IndexTable,
}

impl View for InitialStates {
    type V = Map<u64, usize>;

    closed spec fn view(&self) -> Map<u64, usize> {
        self.table@
    }
}

impl InitialStates {
    /// An empty record.
    pub fn new() -> (r: InitialStates)
        ensures
            r@ == crate::tables::empty_index_map(),
    {
        InitialStates { table: IndexTable::new() }
    }

    /// Records the initial product-state index of one (agent, task) pair.
    pub fn record(&mut self, agent: usize, task: usize, init_idx: usize)
        requires
            agent < 0x1_0000_0000,
            task < 0x1_0000_0000,
        ensures
            final(self)@ == old(self)@.insert(pair_key_u64(agent as int, task as int), init_idx),
    {
        let key = pair_key(agent, task);
        self.table.insert(key, init_idx);
    }

    /// The recorded initial index of one (agent, task) pair, if any.
    pub fn get(&self, agent: usize, task: usize) -> (r: Option<usize>)
        requires
            agent < 0x1_0000_0000,
            task < 0x1_0000_0000,
        ensures
            r == if self@.dom().contains(pair_key_u64(agent as int, task as int)) {
                Some(self@[pair_key_u64(agent as int, task as int)])
            } else {
                None::<usize>
            },
    {
        let key = pair_key(agent, task);
        self.table.get(key)
    }
}

/// The two chaining successors of an (agent, task) product model: the
/// initial index of the same task with the next agent (or this model's own
/// initial index for the last agent), and the initial index of the first
/// agent on the next task (or the own initial index for the last task). A
/// missing record is a fatal inconsistency.
pub fn chain_successor_indices(
    initial_states: &InitialStates,
    a: usize,
    t: usize,
    na: usize,
    nt: usize,
    init_idx: usize,
) -> (r: Result<(usize, usize), PlanningError>)
    requires
        a < na,
        t < nt,
        na < 0x1_0000_0000,
        nt < 0x1_0000_0000,
    ensures
        r is Ok <==> ((a + 1 < na ==> initial_states@.dom().contains(
            pair_key_u64(a + 1, t as int),
        )) && (t + 1 < nt ==> initial_states@.dom().contains(pair_key_u64(0, t + 1)))),
        match r {
            Ok(pair) => {
                &&& (a + 1 < na ==> pair.0 == initial_states@[pair_key_u64(a + 1, t as int)])
                &&& (a + 1 == na ==> pair.0 == init_idx)
                &&& (t + 1 < nt ==> pair.1 == initial_states@[pair_key_u64(0, t + 1)])
                &&& (t + 1 == nt ==> pair.1 == init_idx)
            },
            Err(e) => {
                ||| (a + 1 < na && !initial_states@.dom().contains(pair_key_u64(a + 1, t as int))
                    && e == (PlanningError::MissingInitialState { agent: (a + 1) as usize, task: t }))
                ||| (t + 1 < nt && !initial_states@.dom().contains(pair_key_u64(0, t + 1)) && e
                    == (PlanningError::MissingInitialState { agent: 0, task: (t + 1) as usize }))
            },
        },
{
    let next_agent_idx: usize = if a + 1 < na {
        match initial_states.get(a + 1, t) {
            Some(idx) => idx,
            None => {
                return Err(PlanningError::MissingInitialState { agent: a + 1, task: t });
            },
        }
    } else {
        init_idx
    };
    let next_task_idx: usize = if t + 1 < nt {
        match initial_states.get(0, t + 1) {
            Some(idx) => idx,
            None => {
                return Err(PlanningError::MissingInitialState { agent: 0, task: t + 1 });
            },
        }
    } else {
        init_idx
    };
    Ok((next_agent_idx, next_task_idx))
}

/// The bounded worker-pool size: all available processing units, up to the
/// configured ceiling.
pub fn worker_count(available: usize, ceiling: usize) -> (r: usize)
    ensures
        r == if available > ceiling {
            ceiling as int
        } else {
            available as int
        },
{
    if available > ceiling {
        ceiling
    } else {
        available
    }
}

} // verus!
