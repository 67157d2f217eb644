//! The product of an environment model and a task automaton.
//!
//! A product state pairs a dense environment-state index with an automaton
//! state. The constructor simulates from the product initial state: for
//! every discovered product state and every action it looks up the
//! environment successor, feeds the successor's word to the automaton, and
//! creates or finds the target product state in a dense index. The
//! composition of two deterministic maps is deterministic, so every action
//! from every reachable product state has exactly one successor. An
//! automaton answer outside the declared state range is a malformed
//! automaton state and aborts the construction.

use vstd::prelude::*;
use crate::encoding::{lemma_pair_bound, lemma_pair_injective, spec_pair};
use crate::errors::PlanningError;
use crate::high_fidelity_warehouse::{
    info_wf, spec_word_of, state_key, state_key_u64, warehouse_model_built, Info, WarehouseModel,
};
use crate::low_fidelity_warehouse::{low_key, low_state_key_u64, LowResModel, LowResWord};
use crate::tables::IndexTable;
use crate::task_automata::{spec_dfa_step_high, spec_dfa_step_low, TaskAutomaton, TaskKind};

verus! {

/// A product decision model: the discovered product states in discovery
/// order (the reverse state map), their dense index by key, and the dense
/// transition and reward tables.
pub struct ProductMdp {
    pub agent: i32,
    pub task: i32,
    pub init_state: (usize, i32),
    pub states: Vec<(usize, i32)>,
    pub state_mapping: IndexTable,
    pub transitions: Vec<Vec<usize>>,
    pub rewards: Vec<Vec<i64>>,
}

/// A dense table of vectors, as a sequence of sequences.
pub open spec fn table_view_usize(t: Seq<Vec<usize>>) -> Seq<Seq<usize>> {
    Seq::new(t.len(), |i: int| t[i]@)
}

/// A dense table of vectors, as a sequence of sequences.
pub open spec fn table_view_i32(t: Seq<Vec<i32>>) -> Seq<Seq<i32>> {
    Seq::new(t.len(), |i: int| t[i]@)
}

/// A dense table of vectors, as a sequence of sequences.
pub open spec fn table_view_i64(t: Seq<Vec<i64>>) -> Seq<Seq<i64>> {
    Seq::new(t.len(), |i: int| t[i]@)
}

/// The environment successor table is rectangular with `na` actions per
/// state and every successor in range.
pub open spec fn env_table_wf(trans: Seq<Seq<usize>>, na: int) -> bool {
    &&& forall|e: int| 0 <= e < trans.len() ==> (#[trigger] trans[e]).len() == na
    &&& forall|e: int, a: int|
        0 <= e < trans.len() && 0 <= a < na ==> (#[trigger] trans[e][a]) < trans.len()
}

/// The one successor of a product state under an action: the environment
/// successor paired with the automaton's answer to its word.
pub open spec fn table_next(
    trans: Seq<Seq<usize>>,
    qnext: Seq<Seq<i32>>,
    s: (usize, i32),
    a: int,
) -> (usize, i32) {
    let e2 = trans[s.0 as int][a];
    (e2, qnext[e2 as int][s.1 as int])
}

/// The automaton component lies inside the declared state range.
pub open spec fn prod_state_valid(s: (usize, i32), nq: int) -> bool {
    0 <= s.1 < nq
}

/// The product state `s` is reached from `init` in exactly `n` expansion
/// steps, every intermediate state being expandable (in range on both
/// components).
pub open spec fn table_reachable_n(
    trans: Seq<Seq<usize>>,
    qnext: Seq<Seq<i32>>,
    na: int,
    nq: int,
    init: (usize, i32),
    s: (usize, i32),
    n: nat,
) -> bool
    decreases n,
{
    if n == 0 {
        s == init
    } else {
        exists|p: (usize, i32), a: int|
            table_reachable_n(trans, qnext, na, nq, init, p, (n - 1) as nat) && (p.0 as int)
                < trans.len() && prod_state_valid(p, nq) && 0 <= a < na && s == table_next(
                trans,
                qnext,
                p,
                a,
            )
    }
}

/// The product state `s` is reachable from `init`.
pub open spec fn table_reachable(
    trans: Seq<Seq<usize>>,
    qnext: Seq<Seq<i32>>,
    na: int,
    nq: int,
    init: (usize, i32),
    s: (usize, i32),
) -> bool {
    exists|n: nat| table_reachable_n(trans, qnext, na, nq, init, s, n)
}

/// Any two successors taken of the same product state and action under the
/// same tables agree: the composition of two deterministic maps is
/// deterministic, so every action from every product state has exactly one
/// successor.
pub proof fn lemma_product_step_deterministic(
    trans: Seq<Seq<usize>>,
    qnext: Seq<Seq<i32>>,
    s: (usize, i32),
    a: int,
    r1: (usize, i32),
    r2: (usize, i32),
)
    requires
        r1 == table_next(trans, qnext, s, a),
        r2 == table_next(trans, qnext, s, a),
    ensures
        r1 == r2,
{
}

/// One expansion step out of a reachable, expandable product state reaches
/// the successor.
pub proof fn lemma_table_reachable_step(
    trans: Seq<Seq<usize>>,
    qnext: Seq<Seq<i32>>,
    na: int,
    nq: int,
    init: (usize, i32),
    p: (usize, i32),
    a: int,
)
    requires
        table_reachable(trans, qnext, na, nq, init, p),
        (p.0 as int) < trans.len(),
        prod_state_valid(p, nq),
        0 <= a < na,
    ensures
        table_reachable(trans, qnext, na, nq, init, table_next(trans, qnext, p, a)),
{
    let n = choose|n: nat| table_reachable_n(trans, qnext, na, nq, init, p, n);
    let s2 = table_next(trans, qnext, p, a);
    assert(table_reachable_n(trans, qnext, na, nq, init, s2, n + 1));
}

/// Every state reachable from `init` appears in a state list that holds
/// `init` and is closed under expansion.
pub proof fn lemma_reachable_in_closed_list(
    trans: Seq<Seq<usize>>,
    qnext: Seq<Seq<i32>>,
    na: int,
    nq: int,
    init: (usize, i32),
    states: Seq<(usize, i32)>,
    s: (usize, i32),
    n: nat,
)
    requires
        states.contains(init),
        forall|i: int, a: int|
            0 <= i < states.len() && 0 <= a < na && (states[i].0 as int) < trans.len()
                && prod_state_valid(#[trigger] states[i], nq) ==> states.contains(
                #[trigger] table_next(trans, qnext, states[i], a),
            ),
        table_reachable_n(trans, qnext, na, nq, init, s, n),
    ensures
        states.contains(s),
    decreases n,
{
    if n > 0 {
        let (p, a) = choose|p: (usize, i32), a: int|
            table_reachable_n(trans, qnext, na, nq, init, p, (n - 1) as nat) && (p.0 as int)
                < trans.len() && prod_state_valid(p, nq) && 0 <= a < na && s == table_next(
                trans,
                qnext,
                p,
                a,
            );
        lemma_reachable_in_closed_list(trans, qnext, na, nq, init, states, p, (n - 1) as nat);
        let i = choose|i: int| 0 <= i < states.len() && states[i] == p;
        assert(prod_state_valid(states[i], nq));
        assert(states.contains(table_next(trans, qnext, states[i], a)));
    }
}

/// The integer key of a product state.
pub open spec fn spec_prod_key(s: (usize, i32), nq: int) -> int {
    spec_pair(s.0 as int, s.1 as int, nq)
}

/// The key as the table stores it.
pub open spec fn prod_key_u64(s: (usize, i32), nq: int) -> u64 {
    spec_prod_key(s, nq) as u64
}

/// The product key is bounded and injective on valid product states.
pub proof fn lemma_prod_key_bounds(s: (usize, i32), nq: int, ns: int)
    requires
        0 < nq <= 0x8000,
        (s.0 as int) < ns,
        ns <= 0x1000_0000_0000,
        prod_state_valid(s, nq),
    ensures
        0 <= spec_prod_key(s, nq) < ns * nq,
        prod_key_u64(s, nq) as int == spec_prod_key(s, nq),
{
    lemma_pair_bound(s.0 as int, s.1 as int, nq, ns);
    assert(ns * nq <= 0x1000_0000_0000 * 0x8000) by (nonlinear_arith)
        requires
            0 < nq <= 0x8000,
            0 <= ns <= 0x1000_0000_0000,
    ;
}

/// Two valid product states with the same key are equal.
pub proof fn lemma_prod_key_injective(s1: (usize, i32), s2: (usize, i32), nq: int)
    requires
        0 < nq,
        prod_state_valid(s1, nq),
        prod_state_valid(s2, nq),
        spec_prod_key(s1, nq) == spec_prod_key(s2, nq),
    ensures
        s1 == s2,
{
    lemma_pair_injective(s1.0 as int, s1.1 as int, s2.0 as int, s2.1 as int, nq);
}

/// Computes the table key of a valid product state.
fn prod_key(e: usize, q: i32, nq: usize, Ghost(ns): Ghost<int>) -> (k: u64)
    requires
        0 < nq <= 0x8000,
        0 <= q < nq,
        (e as int) < ns,
        ns <= 0x1000_0000_0000,
    ensures
        k == prod_key_u64((e, q), nq as int),
        k as int == spec_prod_key((e, q), nq as int),
{
    proof {
        lemma_prod_key_bounds((e, q), nq as int, ns);
        assert((e as int) * (nq as int) + (q as int) < 0x1000_0000_0000 * 0x8000)
            by (nonlinear_arith)
            requires
                0 <= (e as int) < 0x1000_0000_0000,
                0 < (nq as int) <= 0x8000,
                0 <= (q as int) < (nq as int),
        ;
    }
    (e as u64) * (nq as u64) + (q as u64)
}

/// A list of pairwise distinct valid product states over `ns` environment
/// states has at most `ns * nq` entries.
proof fn lemma_distinct_states_bounded(s: Seq<(usize, i32)>, nq: int, ns: int)
    requires
        0 < nq,
        0 <= ns,
        forall|i: int, j: int| 0 <= i < j < s.len() ==> s[i] != s[j],
        forall|i: int|
            0 <= i < s.len() ==> (#[trigger] s[i]).0 < ns && prod_state_valid(s[i], nq),
    ensures
        s.len() <= ns * nq,
{
    broadcast use vstd::seq_lib::group_seq_properties;

    let keys = s.map_values(|p: (usize, i32)| spec_prod_key(p, nq));
    assert forall|i: int, j: int| 0 <= i < j < keys.len() implies keys[i] != keys[j] by {
        if keys[i] == keys[j] {
            lemma_prod_key_injective(s[i], s[j], nq);
        }
    }
    assert(keys.no_duplicates());
    keys.unique_seq_to_set();
    let range = vstd::set_lib::set_int_range(0, ns * nq);
    vstd::set_lib::lemma_int_range(0, ns * nq);
    assert forall|k: int| keys.to_set().contains(k) implies range.contains(k) by {
        let i = choose|i: int| 0 <= i < keys.len() && keys[i] == k;
        lemma_pair_bound(s[i].0 as int, s[i].1 as int, nq, ns);
    }
    assert(keys.to_set().subset_of(range));
    vstd::set_lib::lemma_len_subset(keys.to_set(), range);
}

/// The product's state list and state mapping agree exactly: each state is
/// indexed by its key at its own position, and the table holds no other
/// keys.
pub open spec fn prod_mapping_exact(m: ProductMdp, nq: int) -> bool {
    &&& forall|i: int|
        0 <= i < m.states@.len() ==> m.state_mapping@.dom().contains(
            prod_key_u64(#[trigger] m.states@[i], nq),
        ) && m.state_mapping@[prod_key_u64(m.states@[i], nq)] == i
    &&& forall|k: u64| #[trigger]
        m.state_mapping@.dom().contains(k) ==> exists|i: int|
            0 <= i < m.states@.len() && prod_key_u64(m.states@[i], nq) == k
}

/// All the properties a successfully built product model enjoys, against
/// the environment successor table `trans`, the automaton answer table
/// `qnext` and the environment reward table `rew`: the initial state sits
/// at index zero, the discovered states are pairwise distinct, valid, each
/// reachable, and every reachable state is discovered; the dense transition
/// table is total and agrees with the one-step successor; rewards are
/// inherited unchanged from the environment edge.
pub open spec fn product_built(
    m: ProductMdp,
    trans: Seq<Seq<usize>>,
    qnext: Seq<Seq<i32>>,
    rew: Seq<Seq<i64>>,
    na: int,
    nq: int,
    init: (usize, i32),
) -> bool {
    &&& m.init_state == init
    &&& m.states@.len() >= 1
    &&& m.states@[0] == init
    &&& forall|i: int, j: int| 0 <= i < j < m.states@.len() ==> m.states@[i] != m.states@[j]
    &&& forall|i: int|
        0 <= i < m.states@.len() ==> ((#[trigger] m.states@[i]).0 as int) < trans.len()
            && prod_state_valid(m.states@[i], nq)
    &&& prod_mapping_exact(m, nq)
    &&& forall|i: int|
        0 <= i < m.states@.len() ==> table_reachable(
            trans,
            qnext,
            na,
            nq,
            init,
            #[trigger] m.states@[i],
        )
    &&& forall|s: (usize, i32)|
        table_reachable(trans, qnext, na, nq, init, s) ==> m.states@.contains(s)
    &&& m.transitions@.len() == m.states@.len()
    &&& forall|i: int| 0 <= i < m.states@.len() ==> (#[trigger] m.transitions@[i])@.len() == na
    &&& forall|i: int, a: int|
        0 <= i < m.states@.len() && 0 <= a < na ==> (#[trigger] m.transitions@[i]@[a])
            < m.states@.len()
    &&& forall|i: int, a: int|
        0 <= i < m.states@.len() && 0 <= a < na ==> m.states@[
            #[trigger] m.transitions@[i]@[a] as int
        ] == table_next(trans, qnext, m.states@[i], a)
    &&& m.rewards@.len() == m.states@.len()
    &&& forall|i: int| 0 <= i < m.states@.len() ==> (#[trigger] m.rewards@[i])@.len() == na
    &&& forall|i: int, a: int|
        0 <= i < m.states@.len() && 0 <= a < na ==> #[trigger] m.rewards@[i]@[a] == rew[
            m.states@[i].0 as int
        ][a]
}

/// Builds the product of a dense deterministic environment (successor table
/// `trans`, per-edge automaton answers `qnext`, rewards `rewards`) with
/// initial environment index `init_e` and initial automaton state `q0`, by
/// breadth-first simulation from the initial product state. Fails with a
/// malformed-automaton-state error as soon as a reachable expansion leaves
/// the declared automaton range `0 .. nq`.
#[verifier::loop_isolation(false)]
#[verifier::rlimit(30)]
pub fn build_product(
    trans: &Vec<Vec<usize>>,
    qnext: &Vec<Vec<i32>>,
    rewards: &Vec<Vec<i64>>,
    init_e: usize,
    q0: i32,
    na: usize,
    nq: usize,
    agent: i32,
    task_id: i32,
) -> (r: Result<ProductMdp, PlanningError>)
    requires
        env_table_wf(table_view_usize(trans@), na as int),
        qnext@.len() == trans@.len(),
        forall|e: int| 0 <= e < qnext@.len() ==> (#[trigger] qnext@[e])@.len() == nq,
        rewards@.len() == trans@.len(),
        forall|e: int| 0 <= e < rewards@.len() ==> (#[trigger] rewards@[e])@.len() == na,
        (init_e as int) < trans@.len(),
        0 <= q0 < nq,
        0 < nq <= 0x8000,
        trans@.len() <= 0x1000_0000_0000,
        na <= 0x8000_0000,
    ensures
        match r {
            Ok(m) => {
                &&& m.agent == agent
                &&& m.task == task_id
                &&& product_built(
                    m,
                    table_view_usize(trans@),
                    table_view_i32(qnext@),
                    table_view_i64(rewards@),
                    na as int,
                    nq as int,
                    (init_e, q0),
                )
            },
            Err(e) => exists|s: (usize, i32)|
                table_reachable(
                    table_view_usize(trans@),
                    table_view_i32(qnext@),
                    na as int,
                    nq as int,
                    (init_e, q0),
                    s,
                ) && !prod_state_valid(s, nq as int) && e == (PlanningError::MalformedAutomatonState {
                    agent: agent,
                    task: task_id,
                    state: s.1,
                }),
        },
{
    let ghost tv = table_view_usize(trans@);
    let ghost qv = table_view_i32(qnext@);
    let ghost rv = table_view_i64(rewards@);
    let ghost ns = trans@.len() as int;
    let ghost init = (init_e, q0);
    let ghost cap = ns * (nq as int);
    let mut m = ProductMdp {
        agent,
        task: task_id,
        init_state: (init_e, q0),
        states: Vec::new(),
        state_mapping: IndexTable::new(),
        transitions: Vec::new(),
        rewards: Vec::new(),
    };
    let k0: u64 = prod_key(init_e, q0, nq, Ghost(ns));
    m.states.push((init_e, q0));
    m.state_mapping.insert(k0, 0);
    proof {
        assert(table_reachable_n(tv, qv, na as int, nq as int, init, init, 0));
        assert(table_reachable(tv, qv, na as int, nq as int, init, init));
        lemma_distinct_states_bounded(m.states@, nq as int, ns);
        assert(m.states@[0] == init);
        assert forall|i: int|
            0 <= i < m.states@.len() implies m.state_mapping@.dom().contains(
            prod_key_u64(#[trigger] m.states@[i], nq as int),
        ) && m.state_mapping@[prod_key_u64(m.states@[i], nq as int)] == i by {
            assert(m.states@[i] == init);
        }
        assert forall|kk: u64| #[trigger]
            m.state_mapping@.dom().contains(kk) implies exists|i: int|
            0 <= i < m.states@.len() && prod_key_u64(m.states@[i], nq as int) == kk by {
            assert(kk == k0);
            assert(prod_key_u64(m.states@[0], nq as int) == kk);
        }
    }
    let mut next: usize = 0;
    while next < m.states.len()
        invariant
            next <= m.states@.len(),
            1 <= m.states@.len() <= cap,
            m.states@[0] == init,
            m.agent == agent,
            m.task == task_id,
            m.init_state == init,
            forall|i: int, j: int| 0 <= i < j < m.states@.len() ==> m.states@[i] != m.states@[j],
            forall|i: int|
                0 <= i < m.states@.len() ==> ((#[trigger] m.states@[i]).0 as int) < ns
                    && prod_state_valid(m.states@[i], nq as int),
            prod_mapping_exact(m, nq as int),
            forall|i: int|
                0 <= i < m.states@.len() ==> table_reachable(
                    tv,
                    qv,
                    na as int,
                    nq as int,
                    init,
                    #[trigger] m.states@[i],
                ),
            m.transitions@.len() == next,
            forall|i: int| 0 <= i < next ==> (#[trigger] m.transitions@[i])@.len() == na,
            forall|i: int, a: int|
                0 <= i < next && 0 <= a < na ==> (#[trigger] m.transitions@[i]@[a])
                    < m.states@.len(),
            forall|i: int, a: int|
                0 <= i < next && 0 <= a < na ==> m.states@[
                    #[trigger] m.transitions@[i]@[a] as int
                ] == table_next(tv, qv, m.states@[i], a),
            m.rewards@.len() == next,
            forall|i: int| 0 <= i < next ==> (#[trigger] m.rewards@[i])@.len() == na,
            forall|i: int, a: int|
                0 <= i < next && 0 <= a < na ==> #[trigger] m.rewards@[i]@[a] == rv[
                    m.states@[i].0 as int
                ][a],
        decreases cap - next,
    {
        let s = m.states[next];
        let e: usize = s.0;
        let q: i32 = s.1;
        let mut row: Vec<usize> = Vec::new();
        let mut rrow: Vec<i64> = Vec::new();
        let mut a: usize = 0;
        while a < na
            invariant
                0 <= a <= na,
                next < m.states@.len(),
                s == m.states@[next as int],
                e == s.0,
                q == s.1,
                m.states@.len() <= cap,
                m.states@[0] == init,
                m.agent == agent,
                m.task == task_id,
                m.init_state == init,
                forall|i: int, j: int|
                    0 <= i < j < m.states@.len() ==> m.states@[i] != m.states@[j],
                forall|i: int|
                    0 <= i < m.states@.len() ==> ((#[trigger] m.states@[i]).0 as int) < ns
                        && prod_state_valid(m.states@[i], nq as int),
                prod_mapping_exact(m, nq as int),
                forall|i: int|
                    0 <= i < m.states@.len() ==> table_reachable(
                        tv,
                        qv,
                        na as int,
                        nq as int,
                        init,
                        #[trigger] m.states@[i],
                    ),
                m.transitions@.len() == next,
                forall|i: int| 0 <= i < next ==> (#[trigger] m.transitions@[i])@.len() == na,
                forall|i: int, a2: int|
                    0 <= i < next && 0 <= a2 < na ==> (#[trigger] m.transitions@[i]@[a2])
                        < m.states@.len(),
                forall|i: int, a2: int|
                    0 <= i < next && 0 <= a2 < na ==> m.states@[
                        #[trigger] m.transitions@[i]@[a2] as int
                    ] == table_next(tv, qv, m.states@[i], a2),
                m.rewards@.len() == next,
                forall|i: int| 0 <= i < next ==> (#[trigger] m.rewards@[i])@.len() == na,
                forall|i: int, a2: int|
                    0 <= i < next && 0 <= a2 < na ==> #[trigger] m.rewards@[i]@[a2] == rv[
                        m.states@[i].0 as int
                    ][a2],
                row@.len() == a,
                forall|a2: int|
                    0 <= a2 < a ==> (#[trigger] row@[a2]) < m.states@.len(),
                forall|a2: int|
                    0 <= a2 < a ==> m.states@[#[trigger] row@[a2] as int] == table_next(
                        tv,
                        qv,
                        m.states@[next as int],
                        a2,
                    ),
                rrow@.len() == a,
                forall|a2: int| 0 <= a2 < a ==> #[trigger] rrow@[a2] == rv[s.0 as int][a2],
            decreases na - a,
        {
            proof {
                assert((s.0 as int) < ns);
                assert(tv[e as int] == trans@[e as int]@);
                assert(tv[e as int].len() == na as int);
            }
            let e2: usize = trans[e][a];
            proof {
                assert(tv[e as int][a as int] == e2);
                assert((e2 as int) < tv.len());
                assert(qv[e2 as int] == qnext@[e2 as int]@);
                assert(qv[e2 as int].len() == nq as int);
            }
            let q2: i32 = qnext[e2][q as usize];
            proof {
                assert(qv[e2 as int][q as int] == q2);
                assert((e2, q2) == table_next(tv, qv, s, a as int));
                lemma_table_reachable_step(tv, qv, na as int, nq as int, init, s, a as int);
            }
            if q2 < 0 || q2 >= nq as i32 {
                proof {
                    let bad = (e2, q2);
                    assert(table_reachable(tv, qv, na as int, nq as int, init, bad));
                    assert(!prod_state_valid(bad, nq as int));
                }
                return Err(
                    PlanningError::MalformedAutomatonState { agent, task: task_id, state: q2 },
                );
            }
            let k: u64 = prod_key(e2, q2, nq, Ghost(ns));
            let got = m.state_mapping.get(k);
            let idx: usize = match got {
                Some(j) => {
                    proof {
                        assert(m.state_mapping@.dom().contains(k));
                        let i = choose|i: int|
                            0 <= i < m.states@.len() && prod_key_u64(m.states@[i], nq as int)
                                == k;
                        assert(m.state_mapping@[k] == i);
                        lemma_prod_key_bounds(m.states@[i], nq as int, ns);
                        lemma_prod_key_bounds((e2, q2), nq as int, ns);
                        lemma_prod_key_injective(m.states@[i], (e2, q2), nq as int);
                    }
                    j
                },
                None => {
                    let j = m.states.len();
                    let ghost olds = m.states@;
                    let ghost oldmap = m.state_mapping@;
                    proof {
                        assert forall|i: int| 0 <= i < olds.len() implies olds[i] != (e2, q2) by {
                            if olds[i] == (e2, q2) {
                                assert(oldmap.dom().contains(
                                    prod_key_u64(olds[i], nq as int),
                                ));
                                lemma_prod_key_bounds(olds[i], nq as int, ns);
                            }
                        }
                    }
                    m.states.push((e2, q2));
                    m.state_mapping.insert(k, j);
                    proof {
                        let news = m.states@;
                        let newmap = m.state_mapping@;
                        assert(news == olds.push((e2, q2)));
                        assert(news[j as int] == (e2, q2));
                        assert forall|i: int|
                            0 <= i < news.len() implies newmap.dom().contains(
                            prod_key_u64(#[trigger] news[i], nq as int),
                        ) && newmap[prod_key_u64(news[i], nq as int)] == i by {
                            if i < j {
                                assert(news[i] == olds[i]);
                                assert(oldmap.dom().contains(prod_key_u64(olds[i], nq as int)));
                                assert(oldmap[prod_key_u64(olds[i], nq as int)] == i);
                                assert(prod_key_u64(news[i], nq as int) != k) by {
                                    lemma_prod_key_bounds(news[i], nq as int, ns);
                                    lemma_prod_key_bounds((e2, q2), nq as int, ns);
                                    if prod_key_u64(news[i], nq as int) == k {
                                        lemma_prod_key_injective(
                                            news[i],
                                            (e2, q2),
                                            nq as int,
                                        );
                                    }
                                }
                            } else {
                                assert(news[i] == (e2, q2));
                            }
                        }
                        assert forall|kk: u64| #[trigger]
                            newmap.dom().contains(kk) implies exists|i: int|
                            0 <= i < news.len() && prod_key_u64(news[i], nq as int) == kk by {
                            if kk == k {
                                assert(prod_key_u64(news[j as int], nq as int) == kk);
                            } else {
                                assert(oldmap.dom().contains(kk));
                                let i = choose|i: int|
                                    0 <= i < olds.len() && prod_key_u64(olds[i], nq as int)
                                        == kk;
                                assert(prod_key_u64(news[i], nq as int) == kk);
                            }
                        }
                        lemma_distinct_states_bounded(m.states@, nq as int, ns);
                    }
                    j
                },
            };
            row.push(idx);
            let rwd: i64 = rewards[e][a];
            rrow.push(rwd);
            a = a + 1;
        }
        let ghost states_snap = m.states@;
        let ghost map_snap = m.state_mapping@;
        proof {
            assert(prod_mapping_exact(m, nq as int));
        }
        m.transitions.push(row);
        m.rewards.push(rrow);
        proof {
            assert(m.states@ == states_snap);
            assert(m.state_mapping@ == map_snap);
            assert forall|kk: u64| #[trigger]
                m.state_mapping@.dom().contains(kk) implies exists|i: int|
                0 <= i < m.states@.len() && prod_key_u64(m.states@[i], nq as int) == kk by {
                assert(map_snap.dom().contains(kk));
                let i = choose|i: int|
                    0 <= i < states_snap.len() && prod_key_u64(states_snap[i], nq as int) == kk;
                assert(prod_key_u64(m.states@[i], nq as int) == kk);
            }
        }
        next = next + 1;
    }
    proof {
        assert forall|s: (usize, i32)|
            table_reachable(tv, qv, na as int, nq as int, init, s) implies m.states@.contains(
            s,
        ) by {
            let n = choose|n: nat| table_reachable_n(tv, qv, na as int, nq as int, init, s, n);
            assert(m.states@.contains(init)) by {
                assert(m.states@[0] == init);
            }
            assert forall|i: int, a: int|
                0 <= i < m.states@.len() && 0 <= a < na as int && (m.states@[i].0 as int)
                    < tv.len() && prod_state_valid(#[trigger] m.states@[i], nq as int) implies m.states@.contains(
                #[trigger] table_next(tv, qv, m.states@[i], a),
            ) by {
                assert(m.states@[m.transitions@[i]@[a] as int] == table_next(
                    tv,
                    qv,
                    m.states@[i],
                    a,
                ));
            }
            lemma_reachable_in_closed_list(
                tv,
                qv,
                na as int,
                nq as int,
                init,
                m.states@,
                s,
                n,
            );
        }
    }
    Ok(m)
}

/// An accepting automaton state can be reached from product state `i`
/// within `n` expansion steps of the product transition table — `i` itself
/// counting when its automaton component accepts.
pub open spec fn spec_goal_reach_n(
    trans: Seq<Vec<usize>>,
    qs: Seq<(usize, i32)>,
    accepting: Seq<i32>,
    i: int,
    n: nat,
) -> bool
    decreases n,
{
    if accepting.contains(qs[i].1) {
        true
    } else if n == 0 {
        false
    } else {
        exists|a: int|
            0 <= a < trans[i]@.len() && spec_goal_reach_n(
                trans,
                qs,
                accepting,
                trans[i]@[a] as int,
                (n - 1) as nat,
            )
    }
}

/// An accepting automaton state is reachable from product state `i`.
pub open spec fn spec_goal_reachable(
    trans: Seq<Vec<usize>>,
    qs: Seq<(usize, i32)>,
    accepting: Seq<i32>,
    i: int,
) -> bool {
    exists|n: nat| spec_goal_reach_n(trans, qs, accepting, i, n)
}

/// One expansion step backward: if the goal is reachable from a successor,
/// it is reachable from the state.
proof fn lemma_goal_reach_step(
    trans: Seq<Vec<usize>>,
    qs: Seq<(usize, i32)>,
    accepting: Seq<i32>,
    i: int,
    a: int,
)
    requires
        0 <= a < trans[i]@.len(),
        spec_goal_reachable(trans, qs, accepting, trans[i]@[a] as int),
    ensures
        spec_goal_reachable(trans, qs, accepting, i),
{
    let n = choose|n: nat| spec_goal_reach_n(trans, qs, accepting, trans[i]@[a] as int, n);
    assert(spec_goal_reach_n(trans, qs, accepting, i, n + 1));
}

/// In a goal-marking that holds every accepting state and is closed under
/// predecessors, every state that can reach the goal is marked.
proof fn lemma_goal_reach_in_closed_marking(
    trans: Seq<Vec<usize>>,
    qs: Seq<(usize, i32)>,
    accepting: Seq<i32>,
    good: Seq<bool>,
    i: int,
    n: nat,
)
    requires
        good.len() == qs.len(),
        0 <= i < qs.len(),
        forall|j: int, a: int|
            0 <= j < qs.len() && 0 <= a < trans[j]@.len() && 0 <= ((#[trigger] trans[j]@[a]) as int)
                < qs.len() && good[trans[j]@[a] as int] ==> good[j],
        forall|j: int| 0 <= j < qs.len() && accepting.contains((#[trigger] qs[j]).1) ==> good[j],
        forall|j: int, a: int|
            0 <= j < qs.len() && 0 <= a < trans[j]@.len() ==> (#[trigger] trans[j]@[a])
                < qs.len(),
        spec_goal_reach_n(trans, qs, accepting, i, n),
    ensures
        good[i],
    decreases n,
{
    if !accepting.contains(qs[i].1) {
        let a = choose|a: int|
            0 <= a < trans[i]@.len() && spec_goal_reach_n(
                trans,
                qs,
                accepting,
                trans[i]@[a] as int,
                (n - 1) as nat,
            );
        lemma_goal_reach_in_closed_marking(
            trans,
            qs,
            accepting,
            good,
            trans[i]@[a] as int,
            (n - 1) as nat,
        );
    }
}

/// How many states the marking still leaves out.
pub open spec fn count_false(s: Seq<bool>) -> int
    decreases s.len(),
{
    if s.len() == 0 {
        0
    } else {
        (if s[0] {
            0int
        } else {
            1int
        }) + count_false(s.drop_first())
    }
}

/// Marking one unmarked state shrinks the leftover count by one.
proof fn lemma_count_false_update(s: Seq<bool>, i: int)
    requires
        0 <= i < s.len(),
        !s[i],
    ensures
        count_false(s.update(i, true)) == count_false(s) - 1,
    decreases i,
{
    if i == 0 {
        assert(s.update(0, true).drop_first() =~= s.drop_first());
    } else {
        assert(s.update(i, true).drop_first() =~= s.drop_first().update(i - 1, true));
        lemma_count_false_update(s.drop_first(), i - 1);
    }
}

/// The leftover count is never negative.
proof fn lemma_count_false_nonneg(s: Seq<bool>)
    ensures
        count_false(s) >= 0,
    decreases s.len(),
{
    if s.len() > 0 {
        lemma_count_false_nonneg(s.drop_first());
    }
}

/// Whether the vector holds the value.
fn contains_i32(v: &Vec<i32>, x: i32) -> (r: bool)
    ensures
        r == v@.contains(x),
{
    let n: usize = v.len();
    let mut i: usize = 0;
    while i < n
        invariant
            0 <= i <= n,
            n == v@.len(),
            forall|j: int| 0 <= j < i ==> v@[j] != x,
        decreases n - i,
    {
        if v[i] == x {
            return true;
        }
        i = i + 1;
    }
    false
}

impl ProductMdp {
    /// The proper state/action pairs: those from which the task goal is
    /// reachable — entry `[i][a]` holds exactly when an accepting automaton
    /// state is reachable from the successor of state `i` under action `a`.
    /// Pairs that can only lead into the fail sink or never terminate are
    /// excluded.
    #[verifier::loop_isolation(false)]
    pub fn proper_policies(&self, accepting: &Vec<i32>) -> (r: Vec<Vec<bool>>)
        requires
            self.transitions@.len() == self.states@.len(),
            forall|i: int, a: int|
                0 <= i < self.transitions@.len() && 0 <= a < self.transitions@[i]@.len() ==> (
                #[trigger] self.transitions@[i]@[a]) < self.states@.len(),
        ensures
            r@.len() == self.states@.len(),
            forall|i: int| 0 <= i < r@.len() ==> (#[trigger] r@[i])@.len()
                == self.transitions@[i]@.len(),
            forall|i: int, a: int|
                0 <= i < r@.len() && 0 <= a < r@[i]@.len() ==> (#[trigger] r@[i]@[a])
                    == spec_goal_reachable(
                    self.transitions@,
                    self.states@,
                    accepting@,
                    self.transitions@[i]@[a] as int,
                ),
    {
        let ghost trans = self.transitions@;
        let ghost qs = self.states@;
        let n: usize = self.states.len();
        let mut good: Vec<bool> = Vec::new();
        let mut i: usize = 0;
        while i < n
            invariant
                0 <= i <= n,
                good@.len() == i,
                forall|j: int|
                    0 <= j < i ==> #[trigger] good@[j] == accepting@.contains(qs[j].1),
            decreases n - i,
        {
            let s = self.states[i];
            let marked = contains_i32(accepting, s.1);
            good.push(marked);
            i = i + 1;
        }
        proof {
            assert forall|j: int| 0 <= j < n && #[trigger] good@[j] implies spec_goal_reachable(
                trans,
                qs,
                accepting@,
                j,
            ) by {
                assert(spec_goal_reach_n(trans, qs, accepting@, j, 0));
            }
        }
        let mut changed: bool = true;
        while changed
            invariant
                good@.len() == n,
                forall|j: int|
                    0 <= j < n && #[trigger] good@[j] ==> spec_goal_reachable(
                        trans,
                        qs,
                        accepting@,
                        j,
                    ),
                forall|j: int|
                    0 <= j < n && accepting@.contains((#[trigger] qs[j]).1) ==> good@[j],
                !changed ==> (forall|j: int, a: int|
                    0 <= j < n && 0 <= a < trans[j]@.len() && 0 <= ((#[trigger] trans[j]@[a]) as int)
                        < n && good@[trans[j]@[a] as int] ==> good@[j]),
            decreases count_false(good@), (if changed { 1int } else { 0int }),
        {
            let ghost pre = good@;
            changed = false;
            let mut j: usize = 0;
            while j < n
                invariant
                    0 <= j <= n,
                    good@.len() == n,
                    forall|j2: int|
                        0 <= j2 < n && #[trigger] good@[j2] ==> spec_goal_reachable(
                            trans,
                            qs,
                            accepting@,
                            j2,
                        ),
                    forall|j2: int|
                        0 <= j2 < n && accepting@.contains((#[trigger] qs[j2]).1) ==> good@[j2],
                    forall|j2: int| 0 <= j2 < n && pre[j2] ==> #[trigger] good@[j2],
                    changed ==> count_false(good@) < count_false(pre),
                    !changed ==> good@ == pre,
                    !changed ==> (forall|j2: int, a: int|
                        0 <= j2 < j && 0 <= a < trans[j2]@.len() && 0 <= ((
                        #[trigger] trans[j2]@[a]) as int) < n && good@[trans[j2]@[a] as int]
                            ==> good@[j2]),
                decreases n - j,
            {
                let row_len: usize = self.transitions[j].len();
                let mut a: usize = 0;
                while a < row_len
                    invariant
                        0 <= a <= row_len,
                        j < n,
                        row_len == trans[j as int]@.len(),
                        good@.len() == n,
                        forall|j2: int|
                            0 <= j2 < n && #[trigger] good@[j2] ==> spec_goal_reachable(
                                trans,
                                qs,
                                accepting@,
                                j2,
                            ),
                        forall|j2: int|
                            0 <= j2 < n && accepting@.contains((#[trigger] qs[j2]).1)
                                ==> good@[j2],
                        forall|j2: int| 0 <= j2 < n && pre[j2] ==> #[trigger] good@[j2],
                        changed ==> count_false(good@) < count_false(pre),
                        !changed ==> good@ == pre,
                        !changed ==> (forall|j2: int, a2: int|
                            0 <= j2 < j && 0 <= a2 < trans[j2]@.len() && 0 <= ((
                            #[trigger] trans[j2]@[a2]) as int) < n && good@[trans[j2]@[a2] as int]
                                ==> good@[j2]),
                        !changed ==> (forall|a2: int|
                            0 <= a2 < a && 0 <= ((#[trigger] trans[j as int]@[a2]) as int) < n
                                && good@[trans[j as int]@[a2] as int] ==> good@[j as int]),
                    decreases row_len - a,
                {
                    let succ: usize = self.transitions[j][a];
                    let succ_good = good[succ];
                    let self_good = good[j];
                    if succ_good && !self_good {
                        proof {
                            lemma_goal_reach_step(trans, qs, accepting@, j as int, a as int);
                            lemma_count_false_update(good@, j as int);
                        }
                        good.set(j, true);
                        changed = true;
                    }
                    a = a + 1;
                }
                j = j + 1;
            }
            proof {
                lemma_count_false_nonneg(good@);
            }
        }
        proof {
            assert forall|j: int| 0 <= j < n implies #[trigger] good@[j] == spec_goal_reachable(
                trans,
                qs,
                accepting@,
                j,
            ) by {
                if spec_goal_reachable(trans, qs, accepting@, j) {
                    let nn = choose|nn: nat| spec_goal_reach_n(trans, qs, accepting@, j, nn);
                    lemma_goal_reach_in_closed_marking(trans, qs, accepting@, good@, j, nn);
                }
            }
        }
        let mut r: Vec<Vec<bool>> = Vec::new();
        let mut i2: usize = 0;
        while i2 < n
            invariant
                0 <= i2 <= n,
                r@.len() == i2,
                good@.len() == n,
                forall|j: int| 0 <= j < i2 ==> (#[trigger] r@[j])@.len() == trans[j]@.len(),
                forall|j: int, a: int|
                    0 <= j < i2 && 0 <= a < trans[j]@.len() ==> #[trigger] r@[j]@[a]
                        == good@[trans[j]@[a] as int],
                forall|j: int|
                    0 <= j < n ==> #[trigger] good@[j] == spec_goal_reachable(
                        trans,
                        qs,
                        accepting@,
                        j,
                    ),
            decreases n - i2,
        {
            let row_len: usize = self.transitions[i2].len();
            let mut row: Vec<bool> = Vec::new();
            let mut a: usize = 0;
            while a < row_len
                invariant
                    0 <= a <= row_len,
                    i2 < n,
                    row_len == trans[i2 as int]@.len(),
                    row@.len() == a,
                    good@.len() == n,
                    forall|a2: int|
                        0 <= a2 < a ==> #[trigger] row@[a2] == good@[trans[i2 as int]@[a2] as int],
                decreases row_len - a,
            {
                let succ: usize = self.transitions[i2][a];
                row.push(good[succ]);
                a = a + 1;
            }
            r.push(row);
            i2 = i2 + 1;
        }
        r
    }

    /// The actions available in every product state: the whole action
    /// range, since the deterministic product defines every action
    /// everywhere.
    #[verifier::loop_isolation(false)]
    pub fn set_available_actions(&self, start: i32, end: i32) -> (r: Vec<Vec<i32>>)
        requires
            0 <= start <= end,
        ensures
            r@.len() == self.states@.len(),
            forall|i: int| 0 <= i < r@.len() ==> (#[trigger] r@[i])@.len() == end - start,
            forall|i: int, j: int|
                0 <= i < r@.len() && 0 <= j < end - start ==> #[trigger] r@[i]@[j] == start + j,
    {
        let n: usize = self.states.len();
        let mut r: Vec<Vec<i32>> = Vec::new();
        let mut i: usize = 0;
        while i < n
            invariant
                0 <= i <= n,
                r@.len() == i,
                forall|i2: int| 0 <= i2 < i ==> (#[trigger] r@[i2])@.len() == end - start,
                forall|i2: int, j: int|
                    0 <= i2 < i && 0 <= j < end - start ==> #[trigger] r@[i2]@[j] == start + j,
            decreases n - i,
        {
            let mut row: Vec<i32> = Vec::new();
            let mut a: i32 = start;
            while a < end
                invariant
                    start <= a <= end,
                    row@.len() == a - start,
                    forall|j: int| 0 <= j < a - start ==> #[trigger] row@[j] == start + j,
                decreases end - a,
            {
                row.push(a);
                a = a + 1;
            }
            r.push(row);
            i = i + 1;
        }
        r
    }

    /// One column of the product's sparse transition structure: entry `i`
    /// is the successor of product state `i` under the action — the single
    /// nonzero row index of that state's column in the per-action matrix.
    #[verifier::loop_isolation(false)]
    pub fn action_successors(&self, a: usize) -> (r: Vec<usize>)
        requires
            self.transitions@.len() == self.states@.len(),
            forall|i: int|
                0 <= i < self.transitions@.len() ==> (a as int) < (
                #[trigger] self.transitions@[i])@.len(),
        ensures
            r@.len() == self.states@.len(),
            forall|i: int| 0 <= i < r@.len() ==> #[trigger] r@[i] == self.transitions@[i]@[a as int],
    {
        let n: usize = self.transitions.len();
        let mut r: Vec<usize> = Vec::new();
        let mut i: usize = 0;
        while i < n
            invariant
                0 <= i <= n,
                r@.len() == i,
                forall|i2: int|
                    0 <= i2 < i ==> #[trigger] r@[i2] == self.transitions@[i2]@[a as int],
            decreases n - i,
        {
            let v: usize = self.transitions[i][a];
            r.push(v);
            i = i + 1;
        }
        r
    }

    /// One per-action reward vector: entry `i` is the reward of product
    /// state `i` under the action.
    #[verifier::loop_isolation(false)]
    pub fn action_rewards(&self, a: usize) -> (r: Vec<i64>)
        requires
            self.rewards@.len() == self.states@.len(),
            forall|i: int|
                0 <= i < self.rewards@.len() ==> (a as int) < (#[trigger] self.rewards@[i])@.len(),
        ensures
            r@.len() == self.states@.len(),
            forall|i: int| 0 <= i < r@.len() ==> #[trigger] r@[i] == self.rewards@[i]@[a as int],
    {
        let n: usize = self.rewards.len();
        let mut r: Vec<i64> = Vec::new();
        let mut i: usize = 0;
        while i < n
            invariant
                0 <= i <= n,
                r@.len() == i,
                forall|i2: int| 0 <= i2 < i ==> #[trigger] r@[i2] == self.rewards@[i2]@[a as int],
            decreases n - i,
        {
            let v: i64 = self.rewards[i][a];
            r.push(v);
            i = i + 1;
        }
        r
    }
}

/// The automaton answer table of a fine model under a task kind: entry
/// `[e][q]` is the automaton's answer, from state `q`, to the word of
/// environment state `e`.
pub open spec fn high_qnext_table(
    env: WarehouseModel,
    kind: TaskKind,
    info: Info,
    nq: int,
) -> Seq<Seq<i32>> {
    Seq::new(
        env.states@.len(),
        |e: int|
            Seq::new(
                nq as nat,
                |q: int| spec_dfa_step_high(kind, q as i32, spec_word_of(env.states@[e]), info),
            ),
    )
}

/// The automaton answer table of a coarse model under a task kind: entry
/// `[e][q]` is the automaton's answer, from state `q`, to the word of
/// environment cell `e`.
pub open spec fn low_qnext_table(
    env: LowResModel,
    kind: TaskKind,
    info: Info,
    nq: int,
) -> Seq<Seq<i32>> {
    Seq::new(
        env.states@.len(),
        |e: int|
            Seq::new(
                nq as nat,
                |q: int|
                    spec_dfa_step_low(
                        kind,
                        q as i32,
                        LowResWord { agent_position: env.states@[e] },
                        info,
                    ),
            ),
    )
}

impl WarehouseModel {
    /// Composes the fine environment with a task automaton into a product
    /// model, simulating from the environment's initial state paired with
    /// the automaton's initial state. Rewards are inherited unchanged from
    /// the environment edge. Fails with a malformed-automaton-state error
    /// when a reachable expansion leaves the declared automaton range.
    #[verifier::loop_isolation(false)]
    pub fn product(&self, task: &TaskAutomaton, agent: i32, task_id: i32, info: &Info) -> (r:
        Result<ProductMdp, PlanningError>)
        requires
            info_wf(*info),
            warehouse_model_built(*self, *info),
            self.states@.contains(self.init_state),
            task.kind == TaskKind::HighResReplenishment || task.kind == TaskKind::Regeneration,
            0 <= task.q0 < task.states@.len(),
            task.states@.len() <= 0x8000,
            self.states@.len() <= 0x1000_0000_0000,
        ensures
            match r {
                Ok(m) => {
                    &&& m.agent == agent
                    &&& m.task == task_id
                    &&& (m.init_state.0 as int) < self.states@.len()
                    &&& self.states@[m.init_state.0 as int] == self.init_state
                    &&& m.init_state.1 == task.q0
                    &&& product_built(
                        m,
                        table_view_usize(self.transitions@),
                        high_qnext_table(*self, task.kind, *info, task.states@.len() as int),
                        table_view_i64(self.rewards@),
                        self.na as int,
                        task.states@.len() as int,
                        m.init_state,
                    )
                },
                Err(e) => exists|e0: int, s: (usize, i32)|
                    0 <= e0 < self.states@.len() && self.states@[e0] == self.init_state
                        && table_reachable(
                        table_view_usize(self.transitions@),
                        high_qnext_table(*self, task.kind, *info, task.states@.len() as int),
                        self.na as int,
                        task.states@.len() as int,
                        (e0 as usize, task.q0),
                        s,
                    ) && !prod_state_valid(s, task.states@.len() as int) && e == (
                    PlanningError::MalformedAutomatonState {
                        agent: agent,
                        task: task_id,
                        state: s.1,
                    }),
            },
    {
        let ghost wi = info.width as int;
        let ghost hi = info.height as int;
        let nq: usize = task.states.len();
        let k0: u64 = state_key(&self.init_state, info.width, info.height);
        let got = self.state_mapping.get(k0);
        let e0: usize = match got {
            Some(i) => i,
            None => 0,
        };
        proof {
            let ix = choose|ix: int|
                0 <= ix < self.states@.len() && self.states@[ix] == self.init_state;
            assert(self.state_mapping@.dom().contains(state_key_u64(self.states@[ix], wi, hi)));
            assert(self.state_mapping@.dom().contains(k0));
            crate::high_fidelity_warehouse::lemma_state_key_bounds(
                self.states@[e0 as int],
                wi,
                hi,
            );
            crate::high_fidelity_warehouse::lemma_state_key_bounds(self.init_state, wi, hi);
            crate::high_fidelity_warehouse::lemma_state_key_injective(
                self.states@[e0 as int],
                self.init_state,
                wi,
                hi,
            );
        }
        let ns: usize = self.states.len();
        let mut qnext: Vec<Vec<i32>> = Vec::new();
        let mut e: usize = 0;
        while e < ns
            invariant
                e <= ns,
                qnext@.len() == e,
                forall|e2: int| 0 <= e2 < e ==> (#[trigger] qnext@[e2])@.len() == nq,
                forall|e2: int, q2: int|
                    0 <= e2 < e && 0 <= q2 < nq ==> #[trigger] qnext@[e2]@[q2]
                        == spec_dfa_step_high(
                        task.kind,
                        q2 as i32,
                        spec_word_of(self.states@[e2]),
                        *info,
                    ),
            decreases ns - e,
        {
            proof {
                assert(crate::high_fidelity_warehouse::state_wf(self.states@[e as int], wi, hi));
                assert(self.alphabet@[e as int] == spec_word_of(self.states@[e as int]));
            }
            let word = &self.alphabet[e];
            let mut qrow: Vec<i32> = Vec::new();
            let mut q: usize = 0;
            while q < nq
                invariant
                    q <= nq,
                    e < ns,
                    qrow@.len() == q,
                    forall|q2: int|
                        0 <= q2 < q ==> #[trigger] qrow@[q2] == spec_dfa_step_high(
                            task.kind,
                            q2 as i32,
                            spec_word_of(self.states@[e as int]),
                            *info,
                        ),
                decreases nq - q,
            {
                let qn = task.step_high(q as i32, word, info);
                qrow.push(qn);
                q = q + 1;
            }
            qnext.push(qrow);
            e = e + 1;
        }
        proof {
            let tv = table_view_usize(self.transitions@);
            assert forall|e2: int| 0 <= e2 < tv.len() implies (#[trigger] tv[e2]).len()
                == self.na as int by {
                assert(tv[e2] == self.transitions@[e2]@);
            }
            assert forall|e2: int, a2: int|
                0 <= e2 < tv.len() && 0 <= a2 < self.na as int implies (#[trigger] tv[e2][a2])
                < tv.len() by {
                assert(tv[e2] == self.transitions@[e2]@);
            }
            assert(env_table_wf(tv, self.na as int));
            assert forall|e2: int| 0 <= e2 < qnext@.len() implies table_view_i32(qnext@)[e2]
                =~= high_qnext_table(*self, task.kind, *info, nq as int)[e2] by {
                assert(table_view_i32(qnext@)[e2] == qnext@[e2]@);
            }
            assert(table_view_i32(qnext@) =~~= high_qnext_table(*self, task.kind, *info, nq as int));
        }
        build_product(
            &self.transitions,
            &qnext,
            &self.rewards,
            e0,
            task.q0,
            self.na as usize,
            nq,
            agent,
            task_id,
        )
    }
}

impl LowResModel {
    /// Composes the coarse environment with a task automaton into a product
    /// model, simulating from the environment's initial cell paired with
    /// the automaton's initial state. Rewards are inherited unchanged from
    /// the environment edge. Fails with a malformed-automaton-state error
    /// when a reachable expansion leaves the declared automaton range.
    #[verifier::loop_isolation(false)]
    pub fn product(&self, task: &TaskAutomaton, agent: i32, task_id: i32, info: &Info) -> (r:
        Result<ProductMdp, PlanningError>)
        requires
            info_wf(*info),
            crate::low_fidelity_warehouse::low_mapping_wf(*self),
            0 <= self.na,
            self.transitions@.len() == self.states@.len(),
            forall|e: int|
                0 <= e < self.transitions@.len() ==> (#[trigger] self.transitions@[e])@.len()
                    == self.na,
            forall|e: int, a: int|
                0 <= e < self.transitions@.len() && 0 <= a < self.na ==> (
                #[trigger] self.transitions@[e]@[a]) < self.states@.len(),
            self.rewards@.len() == self.states@.len(),
            forall|e: int|
                0 <= e < self.rewards@.len() ==> (#[trigger] self.rewards@[e])@.len() == self.na,
            self.states@.contains(self.init_state),
            task.kind == TaskKind::LowResReplenishment,
            0 <= task.q0 < task.states@.len(),
            task.states@.len() <= 0x8000,
            self.states@.len() <= 0x1000_0000_0000,
        ensures
            match r {
                Ok(m) => {
                    &&& m.agent == agent
                    &&& m.task == task_id
                    &&& (m.init_state.0 as int) < self.states@.len()
                    &&& self.states@[m.init_state.0 as int] == self.init_state
                    &&& m.init_state.1 == task.q0
                    &&& product_built(
                        m,
                        table_view_usize(self.transitions@),
                        low_qnext_table(*self, task.kind, *info, task.states@.len() as int),
                        table_view_i64(self.rewards@),
                        self.na as int,
                        task.states@.len() as int,
                        m.init_state,
                    )
                },
                Err(e) => exists|e0: int, s: (usize, i32)|
                    0 <= e0 < self.states@.len() && self.states@[e0] == self.init_state
                        && table_reachable(
                        table_view_usize(self.transitions@),
                        low_qnext_table(*self, task.kind, *info, task.states@.len() as int),
                        self.na as int,
                        task.states@.len() as int,
                        (e0 as usize, task.q0),
                        s,
                    ) && !prod_state_valid(s, task.states@.len() as int) && e == (
                    PlanningError::MalformedAutomatonState {
                        agent: agent,
                        task: task_id,
                        state: s.1,
                    }),
            },
    {
        let nq: usize = task.states.len();
        let k0: u64 = low_key(&self.init_state);
        let got = self.state_mapping.get(k0);
        let e0: usize = match got {
            Some(i) => i,
            None => 0,
        };
        proof {
            let ix = choose|ix: int|
                0 <= ix < self.states@.len() && self.states@[ix] == self.init_state;
            assert(self.state_mapping@.dom().contains(low_state_key_u64(self.states@[ix])));
            assert(self.state_mapping@.dom().contains(k0));
            crate::low_fidelity_warehouse::lemma_low_state_key_bounds(self.states@[e0 as int]);
            crate::low_fidelity_warehouse::lemma_low_state_key_bounds(self.init_state);
            crate::low_fidelity_warehouse::lemma_low_state_key_injective(
                self.states@[e0 as int],
                self.init_state,
            );
        }
        let ns: usize = self.states.len();
        let mut qnext: Vec<Vec<i32>> = Vec::new();
        let mut e: usize = 0;
        while e < ns
            invariant
                e <= ns,
                qnext@.len() == e,
                forall|e2: int| 0 <= e2 < e ==> (#[trigger] qnext@[e2])@.len() == nq,
                forall|e2: int, q2: int|
                    0 <= e2 < e && 0 <= q2 < nq ==> #[trigger] qnext@[e2]@[q2]
                        == spec_dfa_step_low(
                        task.kind,
                        q2 as i32,
                        LowResWord { agent_position: self.states@[e2] },
                        *info,
                    ),
            decreases ns - e,
        {
            proof {
                assert(self.alphabet@[e as int].agent_position == self.states@[e as int]);
            }
            let word = &self.alphabet[e];
            let mut qrow: Vec<i32> = Vec::new();
            let mut q: usize = 0;
            while q < nq
                invariant
                    q <= nq,
                    e < ns,
                    qrow@.len() == q,
                    forall|q2: int|
                        0 <= q2 < q ==> #[trigger] qrow@[q2] == spec_dfa_step_low(
                            task.kind,
                            q2 as i32,
                            LowResWord { agent_position: self.states@[e as int] },
                            *info,
                        ),
                decreases nq - q,
            {
                let qn = task.step_low(q as i32, word, info);
                proof {
                    assert(*word == (LowResWord { agent_position: self.states@[e as int] }));
                }
                qrow.push(qn);
                q = q + 1;
            }
            qnext.push(qrow);
            e = e + 1;
        }
        proof {
            let tv = table_view_usize(self.transitions@);
            assert forall|e2: int| 0 <= e2 < tv.len() implies (#[trigger] tv[e2]).len()
                == self.na as int by {
                assert(tv[e2] == self.transitions@[e2]@);
            }
            assert forall|e2: int, a2: int|
                0 <= e2 < tv.len() && 0 <= a2 < self.na as int implies (#[trigger] tv[e2][a2])
                < tv.len() by {
                assert(tv[e2] == self.transitions@[e2]@);
            }
            assert(env_table_wf(tv, self.na as int));
            assert forall|e2: int| 0 <= e2 < qnext@.len() implies table_view_i32(qnext@)[e2]
                =~= low_qnext_table(*self, task.kind, *info, nq as int)[e2] by {
                assert(table_view_i32(qnext@)[e2] == qnext@[e2]@);
            }
            assert(table_view_i32(qnext@) =~~= low_qnext_table(*self, task.kind, *info, nq as int));
        }
        build_product(
            &self.transitions,
            &qnext,
            &self.rewards,
            e0,
            task.q0,
            self.na as usize,
            nq,
            agent,
            task_id,
        )
    }
}

} // verus!
