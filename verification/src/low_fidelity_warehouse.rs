//! The coarse-resolution warehouse model.
//!
//! A state is a bare grid cell; the four actions move one cell left, right,
//! up or down. Movement is blocked at the grid boundary, and a cell inside
//! the rack aisle span with an odd column cannot move vertically, which
//! encodes "no cutting through rack aisles" at coarse resolution. The module
//! also holds the decoder that turns a solved coarse schedule back into
//! state-to-state instructions.

use vstd::prelude::*;
use crate::encoding::{lemma_pair_bound, lemma_pair_injective, spec_pair};
use crate::errors::PlanningError;
use crate::high_fidelity_warehouse::{in_grid, lex_lt, Info, Point};
use crate::tables::IndexTable;

verus! {

/// A coarse-resolution state: the cell the agent occupies.
pub type LowResState = (i32, i32);

/// The observation a coarse transition emits: the cell reached.
#[derive(Clone, Copy, Debug)]
pub struct LowResWord {
    pub agent_position: Point,
}

impl LowResWord {
    pub fn new(p: &Point) -> (w: LowResWord)
        ensures
            w.agent_position == *p,
    {
        LowResWord { agent_position: *p }
    }
}

impl Default for LowResWord {
    fn default() -> (w: LowResWord)
        ensures
            w.agent_position == (0i32, 0i32),
    {
        LowResWord { agent_position: (0, 0) }
    }
}

/// The lexicographically least point among the first `n`.
pub open spec fn seq_lex_min_upto(s: Seq<Point>, n: int) -> Point
    decreases n,
{
    if n <= 1 {
        s[0]
    } else {
        let prev = seq_lex_min_upto(s, n - 1);
        let cur = s[n - 1];
        if lex_lt(cur, prev) {
            cur
        } else {
            prev
        }
    }
}

/// The lexicographically greatest point among the first `n`.
pub open spec fn seq_lex_max_upto(s: Seq<Point>, n: int) -> Point
    decreases n,
{
    if n <= 1 {
        s[0]
    } else {
        let prev = seq_lex_max_upto(s, n - 1);
        let cur = s[n - 1];
        if lex_lt(prev, cur) {
            cur
        } else {
            prev
        }
    }
}

/// The lexicographically least point of a nonempty slice.
pub fn lex_min_point(points: &[Point]) -> (r: Point)
    requires
        points@.len() >= 1,
    ensures
        r == seq_lex_min_upto(points@, points@.len() as int),
{
    let n: usize = points.len();
    let mut best: Point = points[0];
    let mut i: usize = 1;
    while i < n
        invariant
            1 <= i <= n,
            n == points@.len(),
            best == seq_lex_min_upto(points@, i as int),
        decreases n - i,
    {
        let cur = points[i];
        if cur.0 < best.0 || (cur.0 == best.0 && cur.1 < best.1) {
            best = cur;
        }
        i = i + 1;
    }
    best
}

/// The lexicographically greatest point of a nonempty slice.
pub fn lex_max_point(points: &[Point]) -> (r: Point)
    requires
        points@.len() >= 1,
    ensures
        r == seq_lex_max_upto(points@, points@.len() as int),
{
    let n: usize = points.len();
    let mut best: Point = points[0];
    let mut i: usize = 1;
    while i < n
        invariant
            1 <= i <= n,
            n == points@.len(),
            best == seq_lex_max_upto(points@, i as int),
        decreases n - i,
    {
        let cur = points[i];
        if best.0 < cur.0 || (best.0 == cur.0 && best.1 < cur.1) {
            best = cur;
        }
        i = i + 1;
    }
    best
}

/// The successor cell of one coarse action: `0` left, `1` right, `2` up,
/// `3` down. Horizontal moves stop at the grid boundary. A vertical move is
/// blocked on odd columns within the rack span (bounded by the
/// lexicographically extreme rack cells); elsewhere it stops at the
/// boundary.
pub open spec fn spec_low_step(s: LowResState, a: i32, w: int, h: int, racks: Seq<Point>) -> LowResState {
    let mn = seq_lex_min_upto(racks, racks.len() as int);
    let mx = seq_lex_max_upto(racks, racks.len() as int);
    let min_y = mn.1;
    let max_x = mx.0;
    let max_y = mx.1;
    let px = s.0;
    let py = s.1;
    if a == 0 {
        if px > 0 {
            ((px - 1) as i32, py)
        } else {
            s
        }
    } else if a == 1 {
        if px < w - 1 {
            ((px + 1) as i32, py)
        } else {
            s
        }
    } else if a == 2 {
        if px <= max_x - 2 && py >= min_y && py <= max_y && px % 2 != 0 {
            s
        } else if py < h - 1 {
            (px, (py + 1) as i32)
        } else {
            s
        }
    } else {
        if px <= max_x - 2 && py >= min_y && py <= max_y && px % 2 != 0 {
            s
        } else if py > 0 {
            (px, (py - 1) as i32)
        } else {
            s
        }
    }
}

/// A coordinate pair that fits the coarse key radix.
pub open spec fn low_point_wf(p: Point) -> bool {
    0 <= p.0 < 0x4000 && 0 <= p.1 < 0x4000
}

/// The integer key of a coarse state.
pub open spec fn low_state_key(p: Point) -> int {
    spec_pair(p.0 as int, p.1 as int, 0x4000)
}

/// The key as the table stores it.
pub open spec fn low_state_key_u64(p: Point) -> u64 {
    low_state_key(p) as u64
}

/// The coarse key is bounded and injective on key-sized points.
pub proof fn lemma_low_state_key_bounds(p: Point)
    requires
        low_point_wf(p),
    ensures
        0 <= low_state_key(p) < 0x1000_0000,
        low_state_key_u64(p) as int == low_state_key(p),
{
    lemma_pair_bound(p.0 as int, p.1 as int, 0x4000, 0x4000);
}

/// Two key-sized points with the same key are equal.
pub proof fn lemma_low_state_key_injective(p1: Point, p2: Point)
    requires
        low_point_wf(p1),
        low_point_wf(p2),
        low_state_key(p1) == low_state_key(p2),
    ensures
        p1 == p2,
{
    lemma_pair_injective(p1.0 as int, p1.1 as int, p2.0 as int, p2.1 as int, 0x4000);
}

/// Computes the table key of a coarse state.
pub fn low_key(p: &Point) -> (k: u64)
    requires
        low_point_wf(*p),
    ensures
        k == low_state_key_u64(*p),
        k as int == low_state_key(*p),
{
    proof {
        lemma_low_state_key_bounds(*p);
    }
    (p.0 as u64) * 0x4000 + (p.1 as u64)
}

/// The coarse environment model: the enumerated cell grid with its dense
/// indexing, the word of every state, and the dense transition and reward
/// tables.
pub struct LowResModel {
    pub init_state: LowResState,
    pub na: i32,
    pub states: Vec<LowResState>,
    pub alphabet: Vec<LowResWord>,
    pub state_mapping: IndexTable,
    pub transitions: Vec<Vec<usize>>,
    pub rewards: Vec<Vec<i64>>,
}

/// The coarse model's state list, alphabet and state mapping agree.
pub open spec fn low_mapping_wf(m: LowResModel) -> bool {
    &&& m.states@.len() == m.alphabet@.len()
    &&& forall|i: int| 0 <= i < m.states@.len() ==> low_point_wf(#[trigger] m.states@[i])
    &&& forall|i: int|
        0 <= i < m.states@.len() ==> (#[trigger] m.alphabet@[i]).agent_position == m.states@[i]
    &&& forall|i: int|
        0 <= i < m.states@.len() ==> m.state_mapping@.dom().contains(
            low_state_key_u64(#[trigger] m.states@[i]),
        )
    &&& forall|k: u64| #[trigger]
        m.state_mapping@.dom().contains(k) ==> m.state_mapping@[k] < m.states@.len()
            && low_state_key_u64(m.states@[m.state_mapping@[k] as int]) == k
}

/// Every cell of the `w` by `h` box is indexed by the state mapping.
pub open spec fn low_model_covers(m: LowResModel, w: int, h: int) -> bool {
    forall|x: int, y: int|
        0 <= x < w && 0 <= y < h ==> #[trigger] m.state_mapping@.dom().contains(
            low_state_key_u64((x as i32, y as i32)),
        )
}

/// A fully built coarse model for a `w` by `h` grid under the given racks.
pub open spec fn low_model_built(m: LowResModel, w: int, h: int, racks: Seq<Point>) -> bool {
    &&& low_mapping_wf(m)
    &&& 0 <= m.na <= 4
    &&& m.transitions@.len() == m.states@.len()
    &&& m.rewards@.len() == m.states@.len()
    &&& forall|i: int| 0 <= i < m.states@.len() ==> (#[trigger] m.transitions@[i])@.len() == m.na
    &&& forall|i: int| 0 <= i < m.states@.len() ==> (#[trigger] m.rewards@[i])@.len() == m.na
    &&& forall|i: int, a: int|
        0 <= i < m.states@.len() && 0 <= a < m.na ==> (#[trigger] m.transitions@[i]@[a])
            < m.states@.len()
    &&& forall|i: int, a: int|
        0 <= i < m.states@.len() && 0 <= a < m.na ==> m.states@[
            #[trigger] m.transitions@[i]@[a] as int
        ] == spec_low_step(m.states@[i], a as i32, w, h, racks)
}

/// Rounds the quotient up.
pub open spec fn ceil_div(a: int, b: int) -> int {
    (a + b - 1) / b
}

impl LowResModel {
    /// A fresh coarse model with `na` actions and the given start cell.
    pub fn make(na: i32, init_state: LowResState) -> (m: LowResModel)
        ensures
            m.init_state == init_state,
            m.na == na,
            m.states@ =~= Seq::<LowResState>::empty(),
            m.alphabet@ =~= Seq::<LowResWord>::empty(),
            m.state_mapping@ =~= Map::<u64, usize>::empty(),
            m.transitions@ =~= Seq::<Vec<usize>>::empty(),
            m.rewards@ =~= Seq::<Vec<i64>>::empty(),
    {
        LowResModel {
            init_state,
            na,
            states: Vec::new(),
            alphabet: Vec::new(),
            state_mapping: IndexTable::new(),
            transitions: Vec::new(),
            rewards: Vec::new(),
        }
    }

    /// Appends one cell, stores its word, and indexes it by its key.
    fn push_state(&mut self, p: LowResState)
        requires
            low_mapping_wf(*old(self)),
            low_point_wf(p),
        ensures
            low_mapping_wf(*final(self)),
            final(self).states@ == old(self).states@.push(p),
            final(self).alphabet@.len() == old(self).alphabet@.len() + 1,
            final(self).transitions == old(self).transitions,
            final(self).rewards == old(self).rewards,
            final(self).na == old(self).na,
            final(self).init_state == old(self).init_state,
    {
        let idx: usize = self.states.len();
        let k: u64 = low_key(&p);
        self.states.push(p);
        self.alphabet.push(LowResWord { agent_position: p });
        self.state_mapping.insert(k, idx);
        proof {
            let olds = old(self).states@;
            let oldmap = old(self).state_mapping@;
            let m = *self;
            assert(m.states@[idx as int] == p);
            assert forall|i: int| 0 <= i < m.states@.len() implies low_point_wf(
                #[trigger] m.states@[i],
            ) by {
                if i < olds.len() {
                    assert(m.states@[i] == olds[i]);
                }
            }
            assert forall|i: int| 0 <= i < m.states@.len() implies (#[trigger] m.alphabet@[i]).agent_position
                == m.states@[i] by {
                if i < olds.len() {
                    assert(m.states@[i] == olds[i]);
                    assert(m.alphabet@[i] == old(self).alphabet@[i]);
                }
            }
            assert forall|i: int| 0 <= i < m.states@.len() implies m.state_mapping@.dom().contains(
                low_state_key_u64(#[trigger] m.states@[i]),
            ) by {
                if i < olds.len() {
                    assert(m.states@[i] == olds[i]);
                    assert(oldmap.dom().contains(low_state_key_u64(olds[i])));
                } else {
                    assert(m.states@[i] == p);
                }
            }
            assert forall|kk: u64| #[trigger]
                m.state_mapping@.dom().contains(kk) implies m.state_mapping@[kk] < m.states@.len()
                && low_state_key_u64(m.states@[m.state_mapping@[kk] as int]) == kk by {
                if kk == k {
                    assert(m.state_mapping@[kk] == idx);
                } else {
                    assert(oldmap.dom().contains(kk));
                    let v = oldmap[kk];
                    assert(m.state_mapping@[kk] == v);
                    assert(m.states@[v as int] == olds[v as int]);
                }
            }
        }
    }

    /// Enumerates the coarse cell grid, scaling `grid_square` full-resolution
    /// cells into one coarse cell, column by column, and returns the coarse
    /// grid size.
    #[verifier::loop_isolation(false)]
    pub fn state_space(&mut self, w: &i32, h: &i32, grid_square: usize) -> (r: (i32, i32))
        requires
            old(self).states@.len() == 0,
            old(self).alphabet@.len() == 0,
            old(self).state_mapping@ == crate::tables::empty_index_map(),
            1 <= *w <= 0x4000,
            1 <= *h <= 0x4000,
            1 <= grid_square <= 0x4000,
        ensures
            r.0 == ceil_div(*w as int, grid_square as int),
            r.1 == ceil_div(*h as int, grid_square as int),
            1 <= r.0 <= 0x4000,
            1 <= r.1 <= 0x4000,
            low_mapping_wf(*final(self)),
            final(self).states@.len() == (r.0 as int) * (r.1 as int),
            forall|i: int|
                0 <= i < final(self).states@.len() ==> #[trigger] final(self).states@[i] == ((
                (i / (r.1 as int)) as i32,
                (i % (r.1 as int)) as i32,
            )),
            low_model_covers(*final(self), r.0 as int, r.1 as int),
            final(self).transitions == old(self).transitions,
            final(self).rewards == old(self).rewards,
            final(self).na == old(self).na,
            final(self).init_state == old(self).init_state,
    {
        let gs: i32 = grid_square as i32;
        proof {
            assert(1 <= (*w as int + gs as int - 1) / (gs as int) <= 0x4000) by (nonlinear_arith)
                requires
                    1 <= *w as int <= 0x4000,
                    1 <= gs as int <= 0x4000,
            ;
            assert(1 <= (*h as int + gs as int - 1) / (gs as int) <= 0x4000) by (nonlinear_arith)
                requires
                    1 <= *h as int <= 0x4000,
                    1 <= gs as int <= 0x4000,
            ;
        }
        let wnew: i32 = (*w + gs - 1) / gs;
        let hnew: i32 = (*h + gs - 1) / gs;
        let mut x: i32 = 0;
        while x < wnew
            invariant
                0 <= x <= wnew,
                low_mapping_wf(*self),
                self.states@.len() == (x as int) * (hnew as int),
                forall|i: int|
                    0 <= i < self.states@.len() ==> #[trigger] self.states@[i] == ((
                    (i / (hnew as int)) as i32,
                    (i % (hnew as int)) as i32,
                )),
                self.transitions == old(self).transitions,
                self.rewards == old(self).rewards,
                self.na == old(self).na,
                self.init_state == old(self).init_state,
            decreases wnew - x,
        {
            let mut y: i32 = 0;
            while y < hnew
                invariant
                    0 <= y <= hnew,
                    x < wnew,
                    low_mapping_wf(*self),
                    self.states@.len() == (x as int) * (hnew as int) + (y as int),
                    forall|i: int|
                        0 <= i < self.states@.len() ==> #[trigger] self.states@[i] == ((
                        (i / (hnew as int)) as i32,
                        (i % (hnew as int)) as i32,
                    )),
                    self.transitions == old(self).transitions,
                    self.rewards == old(self).rewards,
                    self.na == old(self).na,
                    self.init_state == old(self).init_state,
                decreases hnew - y,
            {
                let p: LowResState = (x, y);
                proof {
                    vstd::arithmetic::div_mod::lemma_fundamental_div_mod_converse(
                        (x as int) * (hnew as int) + (y as int),
                        hnew as int,
                        x as int,
                        y as int,
                    );
                }
                self.push_state(p);
                y = y + 1;
            }
            proof {
                assert((x as int + 1) * (hnew as int) == (x as int) * (hnew as int) + (
                hnew as int)) by (nonlinear_arith);
            }
            x = x + 1;
        }
        proof {
            assert forall|xx: int, yy: int| 0 <= xx < wnew as int && 0 <= yy < hnew as int implies #[trigger] self.state_mapping@.dom().contains(
                low_state_key_u64((xx as i32, yy as i32)),
            ) by {
                let i = xx * (hnew as int) + yy;
                vstd::arithmetic::div_mod::lemma_fundamental_div_mod_converse(
                    i,
                    hnew as int,
                    xx,
                    yy,
                );
                assert(i < (wnew as int) * (hnew as int)) by (nonlinear_arith)
                    requires
                        0 <= xx < wnew as int,
                        0 <= yy < hnew as int,
                        i == xx * (hnew as int) + yy,
                ;
                assert(0 <= i) by (nonlinear_arith)
                    requires
                        0 <= xx,
                        0 <= yy,
                        hnew as int >= 1,
                        i == xx * (hnew as int) + yy,
                ;
                assert(self.states@[i] == (xx as i32, yy as i32));
            }
        }
        (wnew, hnew)
    }

    /// One deterministic coarse transition: the dense index of the successor
    /// cell, the constant step reward, and the emitted word.
    pub fn step(&self, state: &LowResState, a: i32, w: &i32, h: &i32, info: &Info) -> (r: (
        i32,
        i64,
        LowResWord,
    ))
        requires
            low_mapping_wf(*self),
            self.states@.len() <= 0x1000_0000,
            low_model_covers(*self, *w as int, *h as int),
            0 <= a < 4,
            1 <= *w <= 0x4000,
            1 <= *h <= 0x4000,
            0 <= state.0 < *w,
            0 <= state.1 < *h,
            info.rack_positions@.len() >= 1,
            forall|j: int|
                0 <= j < info.rack_positions@.len() ==> low_point_wf(
                    #[trigger] info.rack_positions@[j],
                ),
        ensures
            r.1 == 1i64,
            0 <= r.0 < self.states@.len(),
            self.states@[r.0 as int] == spec_low_step(
                *state,
                a,
                *w as int,
                *h as int,
                info.rack_positions@,
            ),
            r.2.agent_position == spec_low_step(
                *state,
                a,
                *w as int,
                *h as int,
                info.rack_positions@,
            ),
    {
        let mn = lex_min_point(info.rack_positions.as_slice());
        let mx = lex_max_point(info.rack_positions.as_slice());
        let min_y: i32 = mn.1;
        let max_x: i32 = mx.0;
        let max_y: i32 = mx.1;
        let px: i32 = state.0;
        let py: i32 = state.1;
        let snew: LowResState = if a == 0 {
            if px > 0 {
                (px - 1, py)
            } else {
                (px, py)
            }
        } else if a == 1 {
            if px < *w - 1 {
                (px + 1, py)
            } else {
                (px, py)
            }
        } else if a == 2 {
            if px <= max_x - 2 && py >= min_y && py <= max_y && px % 2 != 0 {
                (px, py)
            } else {
                if py < *h - 1 {
                    (px, py + 1)
                } else {
                    (px, py)
                }
            }
        } else {
            if px <= max_x - 2 && py >= min_y && py <= max_y && px % 2 != 0 {
                (px, py)
            } else {
                if py > 0 {
                    (px, py - 1)
                } else {
                    (px, py)
                }
            }
        };
        proof {
            assert(snew == spec_low_step(*state, a, *w as int, *h as int, info.rack_positions@));
            let sx = snew.0 as int;
            let sy = snew.1 as int;
            assert(0 <= sx < *w as int && 0 <= sy < *h as int);
            assert(self.state_mapping@.dom().contains(low_state_key_u64((sx as i32, sy as i32))));
            assert((sx as i32, sy as i32) == snew);
        }
        let k: u64 = low_key(&snew);
        let got = self.state_mapping.get(k);
        let idx: usize = match got {
            Some(i) => i,
            None => 0,
        };
        proof {
            let target = self.states@[idx as int];
            lemma_low_state_key_bounds(snew);
            lemma_low_state_key_bounds(target);
            lemma_low_state_key_injective(target, snew);
        }
        (idx as i32, 1, LowResWord::new(&snew))
    }

    /// Fills the dense transition and reward tables: for every cell and
    /// every action, the index of the unique successor and the constant
    /// step reward `r`.
    #[verifier::loop_isolation(false)]
    pub fn transition_map(&mut self, r: i64, w: &i32, h: &i32, info: &Info)
        requires
            low_mapping_wf(*old(self)),
            old(self).states@.len() <= 0x1000_0000,
            low_model_covers(*old(self), *w as int, *h as int),
            old(self).transitions@.len() == 0,
            old(self).rewards@.len() == 0,
            0 <= old(self).na <= 4,
            1 <= *w <= 0x4000,
            1 <= *h <= 0x4000,
            forall|i: int|
                0 <= i < old(self).states@.len() ==> 0 <= (#[trigger] old(self).states@[i]).0
                    < *w as int && 0 <= old(self).states@[i].1 < *h as int,
            info.rack_positions@.len() >= 1,
            forall|j: int|
                0 <= j < info.rack_positions@.len() ==> low_point_wf(
                    #[trigger] info.rack_positions@[j],
                ),
        ensures
            final(self).states == old(self).states,
            final(self).alphabet == old(self).alphabet,
            final(self).state_mapping == old(self).state_mapping,
            final(self).na == old(self).na,
            final(self).init_state == old(self).init_state,
            low_model_built(*final(self), *w as int, *h as int, info.rack_positions@),
            forall|i: int, a: int|
                0 <= i < final(self).states@.len() && 0 <= a < final(self).na
                    ==> final(self).rewards@[i]@[a] == r,
    {
        let n: usize = self.states.len();
        let mut trans: Vec<Vec<usize>> = Vec::new();
        let mut rews: Vec<Vec<i64>> = Vec::new();
        let mut i: usize = 0;
        while i < n
            invariant
                0 <= i <= n,
                trans@.len() == i,
                rews@.len() == i,
                forall|i2: int| 0 <= i2 < i ==> (#[trigger] trans@[i2])@.len() == self.na,
                forall|i2: int| 0 <= i2 < i ==> (#[trigger] rews@[i2])@.len() == self.na,
                forall|i2: int, a2: int|
                    0 <= i2 < i && 0 <= a2 < self.na ==> (#[trigger] trans@[i2]@[a2]) < n
                        && self.states@[trans@[i2]@[a2] as int] == spec_low_step(
                        self.states@[i2],
                        a2 as i32,
                        *w as int,
                        *h as int,
                        info.rack_positions@,
                    ),
                forall|i2: int, a2: int|
                    0 <= i2 < i && 0 <= a2 < self.na ==> #[trigger] rews@[i2]@[a2] == r,
            decreases n - i,
        {
            let st = self.states[i];
            let mut row: Vec<usize> = Vec::new();
            let mut rrow: Vec<i64> = Vec::new();
            let mut a: i32 = 0;
            while a < self.na
                invariant
                    0 <= a <= self.na,
                    i < n,
                    st == self.states@[i as int],
                    row@.len() == a,
                    rrow@.len() == a,
                    forall|a2: int|
                        0 <= a2 < a ==> (#[trigger] row@[a2]) < n && self.states@[row@[a2] as int]
                            == spec_low_step(
                            self.states@[i as int],
                            a2 as i32,
                            *w as int,
                            *h as int,
                            info.rack_positions@,
                        ),
                    forall|a2: int| 0 <= a2 < a ==> #[trigger] rrow@[a2] == r,
                decreases self.na - a,
            {
                let (sidx, _rew, _word) = self.step(&st, a, w, h, info);
                row.push(sidx as usize);
                rrow.push(r);
                a = a + 1;
            }
            trans.push(row);
            rews.push(rrow);
            i = i + 1;
        }
        self.transitions = trans;
        self.rewards = rews;
    }
}

/// One product state of a solved coarse model, as its serialised state
/// mapping records it: the environment-state index and the automaton state.
#[derive(PartialEq, Eq, Clone, Copy, Debug)]
pub struct MdpState {
    pub s: i32,
    pub q: i32,
}

/// The reverse state maps needed to decode a chained coarse schedule: the
/// current (agent, task) model's map and, for optimal actions that jump to
/// the next agent or the next task of the chain, that model's map.
pub struct Mappings {
    pub current: Vec<MdpState>,
    pub next_agent: Option<Vec<MdpState>>,
    pub next_task: Option<Vec<MdpState>>,
}

/// One optimal state-action edge of the chained coarse model, as the
/// solver reports it: product state, action, successor product state, and
/// the (agent, task) coordinates of both ends.
#[derive(PartialEq, Eq, Clone, Copy, Debug)]
pub struct StateActionRecord {
    pub s: usize,
    pub sprime: usize,
    pub action: i32,
    pub s_a: i32,
    pub s_t: i32,
    pub sprime_a: i32,
    pub sprime_t: i32,
}

/// The decoded value of one schedule entry: the action and the cell it
/// leads to.
#[derive(PartialEq, Eq, Clone, Copy, Debug)]
pub struct MapResult {
    pub a: i32,
    pub state: LowResState,
}

/// One decoded schedule entry: a cell, and what to do there.
#[derive(PartialEq, Eq, Clone, Copy, Debug)]
pub struct Mapping {
    pub state: LowResState,
    pub value: MapResult,
}

/// The optimal edge stays with the same (agent, task) pair but steps to
/// the next agent of the chain.
pub open spec fn spec_uses_next_agent(rec: StateActionRecord) -> bool {
    rec.sprime_a == rec.s_a + 1 && rec.sprime_t == rec.s_t
}

/// The optimal edge steps to the first agent of the next task of the
/// chain.
pub open spec fn spec_uses_next_task(rec: StateActionRecord) -> bool {
    rec.sprime_a == 0 && rec.sprime_t == rec.s_t + 1
}

/// The edge leaves its own (agent, task) pair.
pub open spec fn spec_crosses(rec: StateActionRecord) -> bool {
    rec.sprime_a != rec.s_a || rec.sprime_t != rec.s_t
}

/// Every reverse-map entry one record's decoding reads is present: the
/// product state in the current map, the successor product state in
/// whichever map its coordinates select, the environment cell of the
/// product state, and, for a crossing edge, the initial cell of the target
/// agent.
pub open spec fn spec_record_ok(
    rec: StateActionRecord,
    current: Seq<MdpState>,
    next_agent: Option<Vec<MdpState>>,
    next_task: Option<Vec<MdpState>>,
    robot_reverse: Seq<LowResState>,
    robot_initial_states: Seq<LowResState>,
) -> bool {
    &&& (rec.s as int) < current.len()
    &&& 0 <= current[rec.s as int].s
    &&& (current[rec.s as int].s as int) < robot_reverse.len()
    &&& (if spec_uses_next_agent(rec) {
        next_agent is Some && (rec.sprime as int) < next_agent->Some_0@.len()
    } else if spec_uses_next_task(rec) {
        next_task is Some && (rec.sprime as int) < next_task->Some_0@.len()
    } else {
        (rec.sprime as int) < current.len()
    })
    &&& (if spec_crosses(rec) {
        0 <= rec.sprime_a && (rec.sprime_a as int) < robot_initial_states.len()
    } else {
        0 <= current[rec.sprime as int].s && (current[rec.sprime as int].s as int)
            < robot_reverse.len()
    })
}

/// The decoded entry of one record: the cell of its product state, its
/// action, and the cell the edge leads to — the target agent's initial
/// cell for a crossing edge, the successor's own cell otherwise.
pub open spec fn spec_decode_record(
    rec: StateActionRecord,
    current: Seq<MdpState>,
    robot_reverse: Seq<LowResState>,
    robot_initial_states: Seq<LowResState>,
) -> Mapping {
    let sq = current[rec.s as int];
    let s_point = robot_reverse[sq.s as int];
    let sprime_point = if spec_crosses(rec) {
        robot_initial_states[rec.sprime_a as int]
    } else {
        robot_reverse[current[rec.sprime as int].s as int]
    };
    Mapping { state: s_point, value: MapResult { a: rec.action, state: sprime_point } }
}

/// Decodes the solver's optimal state-action edges of the chained coarse
/// model into cell-to-cell schedule entries, resolving every product state
/// through the reverse state maps. Any entry a reverse map lacks is a
/// fatal missing-entry error.
#[verifier::loop_isolation(false)]
pub fn construct_agent_scheduler_hdd(
    robot_reverse_state_mapping: &Vec<LowResState>,
    mappings: &Mappings,
    data: &Vec<StateActionRecord>,
    robot_initial_states: &Vec<LowResState>,
) -> (r: Result<Vec<Mapping>, PlanningError>)
    ensures
        r is Ok <==> (forall|i: int|
            0 <= i < data@.len() ==> spec_record_ok(
                #[trigger] data@[i],
                mappings.current@,
                mappings.next_agent,
                mappings.next_task,
                robot_reverse_state_mapping@,
                robot_initial_states@,
            )),
        match r {
            Ok(out) => {
                &&& out@.len() == data@.len()
                &&& forall|i: int|
                    0 <= i < data@.len() ==> #[trigger] out@[i] == spec_decode_record(
                        data@[i],
                        mappings.current@,
                        robot_reverse_state_mapping@,
                        robot_initial_states@,
                    )
            },
            Err(e) => exists|i: int|
                0 <= i < data@.len() && !spec_record_ok(
                    #[trigger] data@[i],
                    mappings.current@,
                    mappings.next_agent,
                    mappings.next_task,
                    robot_reverse_state_mapping@,
                    robot_initial_states@,
                ),
        },
{
    let mut new_map: Vec<Mapping> = Vec::new();
    let n: usize = data.len();
    let mut i: usize = 0;
    while i < n
        invariant
            0 <= i <= n,
            new_map@.len() == i,
            forall|j: int|
                0 <= j < i ==> spec_record_ok(
                    #[trigger] data@[j],
                    mappings.current@,
                    mappings.next_agent,
                    mappings.next_task,
                    robot_reverse_state_mapping@,
                    robot_initial_states@,
                ),
            forall|j: int|
                0 <= j < i ==> #[trigger] new_map@[j] == spec_decode_record(
                    data@[j],
                    mappings.current@,
                    robot_reverse_state_mapping@,
                    robot_initial_states@,
                ),
        decreases n - i,
    {
        let rec = data[i];
        if rec.s >= mappings.current.len() {
            return Err(PlanningError::MissingProductState { index: rec.s });
        }
        let sq = mappings.current[rec.s];
        if sq.s < 0 || sq.s as usize >= robot_reverse_state_mapping.len() {
            return Err(PlanningError::MissingRobotState { index: rec.s });
        }
        let uses_next_agent = (rec.sprime_a as i64) == (rec.s_a as i64) + 1 && rec.sprime_t
            == rec.s_t;
        let uses_next_task = rec.sprime_a == 0 && (rec.sprime_t as i64) == (rec.s_t as i64) + 1;
        let sqprime: MdpState = if uses_next_agent {
            match &mappings.next_agent {
                Some(v) => {
                    if rec.sprime >= v.len() {
                        return Err(PlanningError::MissingProductState { index: rec.sprime });
                    }
                    v[rec.sprime]
                },
                None => {
                    return Err(PlanningError::MissingProductState { index: rec.sprime });
                },
            }
        } else if uses_next_task {
            match &mappings.next_task {
                Some(v) => {
                    if rec.sprime >= v.len() {
                        return Err(PlanningError::MissingProductState { index: rec.sprime });
                    }
                    v[rec.sprime]
                },
                None => {
                    return Err(PlanningError::MissingProductState { index: rec.sprime });
                },
            }
        } else {
            if rec.sprime >= mappings.current.len() {
                return Err(PlanningError::MissingProductState { index: rec.sprime });
            }
            mappings.current[rec.sprime]
        };
        let crosses = rec.sprime_a != rec.s_a || rec.sprime_t != rec.s_t;
        let s_point = robot_reverse_state_mapping[sq.s as usize];
        let sprime_point: LowResState = if crosses {
            if rec.sprime_a < 0 || rec.sprime_a as usize >= robot_initial_states.len() {
                return Err(PlanningError::MissingRobotState { index: rec.sprime });
            }
            robot_initial_states[rec.sprime_a as usize]
        } else {
            if sqprime.s < 0 || sqprime.s as usize >= robot_reverse_state_mapping.len() {
                return Err(PlanningError::MissingRobotState { index: rec.sprime });
            }
            robot_reverse_state_mapping[sqprime.s as usize]
        };
        let entry = Mapping { state: s_point, value: MapResult { a: rec.action, state: sprime_point } };
        proof {
            assert(spec_record_ok(
                data@[i as int],
                mappings.current@,
                mappings.next_agent,
                mappings.next_task,
                robot_reverse_state_mapping@,
                robot_initial_states@,
            ));
            assert(entry == spec_decode_record(
                data@[i as int],
                mappings.current@,
                robot_reverse_state_mapping@,
                robot_initial_states@,
            ));
        }
        new_map.push(entry);
        i = i + 1;
    }
    Ok(new_map)
}

/// Any two coarse transitions taken from the same state, action, grid and
/// racks return the same successor: the coarse environment is
/// deterministic.
pub proof fn lemma_low_step_deterministic(
    s: LowResState,
    a: i32,
    w: int,
    h: int,
    racks: Seq<Point>,
    r1: LowResState,
    r2: LowResState,
)
    requires
        r1 == spec_low_step(s, a, w, h, racks),
        r2 == spec_low_step(s, a, w, h, racks),
    ensures
        r1 == r2,
{
}

} // verus!
