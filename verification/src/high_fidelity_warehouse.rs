//! The fine-resolution warehouse model.
//!
//! An agent occupies a grid cell, faces one of four directions, may carry one
//! pack, and at most one pack may lie on the floor. The shared [`Info`] value
//! holds the warehouse geometry (racks, corridors, feed points, a queue
//! point), the rotation mapping from a direction to its unit vector, and the
//! two selector fields that pick the rack and feed point of the task being
//! planned.

use vstd::prelude::*;
use crate::errors::PlanningError;
use crate::tables::RotationTable;

verus! {

/// A grid coordinate.
pub type Point = (i32, i32);

/// One record of a decoded schedule: the full observable state together with
/// the optimal action and the automaton state that disambiguates it.
#[derive(PartialEq, Eq, Clone, Copy, Debug)]
pub struct TaskActionPair {
    pub agent_dir: u8,
    pub agent_position: Point,
    pub carrying: u8,
    pub pack_available: u8,
    pub pack_position: Point,
    pub action: i32,
    pub q: i32,
}

/// What the cell in front of the agent holds.
#[derive(PartialEq, Eq, Clone, Copy, Debug)]
pub enum CellType {
    OutOfBounds,
    Free,
    Pack,
    Rack,
    Feed,
}

/// A fine-resolution state. Directions are `0`: right, `1`: down, `2`: left,
/// `3`: up. `pack_position == (-1, -1)` is the sentinel for "no pack placed";
/// it always accompanies `pack_available == 0`.
#[derive(Hash, Eq, PartialEq, Copy, Clone, Debug)]
pub struct State {
    pub agent_dir: u8,
    pub agent_position: Point,
    pub carrying: u8,
    pub pack_available: u8,
    pub pack_position: Point,
}

impl Default for State {
    fn default() -> (s: State)
        ensures
            s.agent_dir == 0,
            s.agent_position == (1i32, 0i32),
            s.carrying == 0,
            s.pack_available == 0,
            s.pack_position == ((-1) as i32, (-1) as i32),
    {
        State {
            agent_dir: 0,
            agent_position: (1, 0),
            carrying: 0,
            pack_available: 0,
            pack_position: (-1, -1),
        }
    }
}

/// The observation a fine-resolution transition emits: the pose reached by
/// the move, whether the agent carries a pack, and where a floor pack lies,
/// if any.
#[derive(PartialEq, Eq, Clone, Copy, Debug)]
pub struct WarehouseWord {
    pub agent_position: Point,
    pub dir: u8,
    pub carrying: u8,
    pub pack_position: Option<Point>,
}

impl WarehouseWord {
    pub fn get_agent_position(&self) -> (r: &Point)
        ensures
            *r == self.agent_position,
    {
        &self.agent_position
    }

    pub fn is_carrying(&self) -> (r: &u8)
        ensures
            *r == self.carrying,
    {
        &self.carrying
    }

    pub fn new(pos: Point, dir: u8, carrying: u8, packpos: Option<Point>) -> (w: WarehouseWord)
        ensures
            w.agent_position == pos,
            w.dir == dir,
            w.carrying == carrying,
            w.pack_position == packpos,
    {
        WarehouseWord { agent_position: pos, dir, carrying, pack_position: packpos }
    }
}

/// The observation that belongs to a state: its pose, its carrying flag, and
/// the floor pack when one is placed.
pub open spec fn spec_word_of(s: State) -> WarehouseWord {
    WarehouseWord {
        agent_position: s.agent_position,
        dir: s.agent_dir,
        carrying: s.carrying,
        pack_position: if s.pack_available == 1 {
            Some(s.pack_position)
        } else {
            None
        },
    }
}

/// Geometry shared with consumers of persisted schedules.
#[derive(Clone, Debug)]
pub struct RobotMetaData {
    pub feed_points: Vec<Point>,
    pub width: usize,
    pub height: usize,
}

/// The shared planning context: warehouse geometry, the rotation mapping,
/// and the two selector fields (`lookup_rack`, `feed_option`) that the
/// pipeline moves from task to task.
pub struct Info {
    pub rack_positions: Vec<Point>,
    pub lookup_rack: usize,
    pub feed_option: usize,
    pub corridor_positions: Vec<Point>,
    pub feed_points: Vec<Point>,
    pub queue_point: Point,
    pub width: usize,
    pub height: usize,
    pub rotation_mapping: RotationTable,
}

/// The unit vector of a facing direction.
pub open spec fn spec_rotation(dir: u8) -> (i32, i32) {
    if dir == 0 {
        (1i32, 0i32)
    } else if dir == 1 {
        (0i32, 1i32)
    } else if dir == 2 {
        ((-1) as i32, 0i32)
    } else {
        (0i32, (-1) as i32)
    }
}

/// The rotation mapping holds the standard unit vector for each of the four
/// directions.
pub open spec fn rotation_std(rot: Map<u8, (i32, i32)>) -> bool {
    forall|d: u8| d < 4 ==> #[trigger] rot.dom().contains(d) && rot[d] == spec_rotation(d)
}

/// The point lies on the grid.
pub open spec fn in_grid(p: Point, w: int, h: int) -> bool {
    0 <= p.0 < w && 0 <= p.1 < h
}

/// A well-formed fine-resolution state for a `w` by `h` grid: the direction
/// is one of four, the agent is on the grid, the two flags are binary, a
/// placed pack lies on the grid, an absent pack is the sentinel, and a
/// carried pack and a floor pack never exist at once.
pub open spec fn state_wf(s: State, w: int, h: int) -> bool {
    &&& s.agent_dir < 4
    &&& in_grid(s.agent_position, w, h)
    &&& (s.carrying == 0 || s.carrying == 1)
    &&& (s.pack_available == 0 || s.pack_available == 1)
    &&& (s.pack_available == 1 ==> in_grid(s.pack_position, w, h))
    &&& (s.pack_available == 0 ==> s.pack_position == ((-1) as i32, (-1) as i32))
    &&& !(s.carrying == 1 && s.pack_available == 1)
}

/// A well-formed planning context: grid dimensions in range, both task
/// selectors in range, and the standard rotation mapping installed.
pub open spec fn info_wf(info: Info) -> bool {
    &&& 1 <= info.width <= 0x4000
    &&& 1 <= info.height <= 0x4000
    &&& info.lookup_rack < info.rack_positions@.len()
    &&& info.feed_option < info.feed_points@.len()
    &&& rotation_std(info.rotation_mapping@)
}

impl Info {
    pub fn make(
        racks: Vec<Point>,
        corridors: Vec<Point>,
        rotation_mapping: RotationTable,
        feedpoints: Vec<Point>,
        w: usize,
        h: usize,
    ) -> (info: Info)
        ensures
            info.rack_positions == racks,
            info.lookup_rack == 0,
            info.feed_option == 0,
            info.corridor_positions == corridors,
            info.feed_points == feedpoints,
            info.queue_point == (0i32, 0i32),
            info.width == w,
            info.height == h,
            info.rotation_mapping == rotation_mapping,
    {
        Info {
            rack_positions: racks,
            lookup_rack: 0,
            feed_option: 0,
            corridor_positions: corridors,
            feed_points: feedpoints,
            queue_point: (0, 0),
            width: w,
            height: h,
            rotation_mapping,
        }
    }

    /// Appends the given racks or, with `None`, generates the default
    /// layout: rack column pairs every three cells starting at x = 2 over
    /// the interior rows. A grid too narrow for one rack column pair is a
    /// fatal setup error.
    #[verifier::loop_isolation(false)]
    pub fn set_racks(&mut self, input: Option<Vec<Point>>) -> (res: Result<(), PlanningError>)
        requires
            1 <= old(self).width <= 0x4000,
            1 <= old(self).height <= 0x4000,
        ensures
            final(self).lookup_rack == old(self).lookup_rack,
            final(self).feed_option == old(self).feed_option,
            final(self).corridor_positions == old(self).corridor_positions,
            final(self).feed_points == old(self).feed_points,
            final(self).queue_point == old(self).queue_point,
            final(self).width == old(self).width,
            final(self).height == old(self).height,
            final(self).rotation_mapping == old(self).rotation_mapping,
            match input {
                Some(x) => res is Ok && final(self).rack_positions@ == old(self).rack_positions@
                    + x@,
                None => if old(self).width >= 5 {
                    res is Ok && final(self).rack_positions@ == old(self).rack_positions@
                        + default_racks(old(self).width as int, old(self).height as int)
                } else {
                    res is Err && res->Err_0 == PlanningError::GridTooNarrow
                        && final(self).rack_positions == old(self).rack_positions
                },
            },
    {
        match input {
            Some(mut x) => {
                self.rack_positions.append(&mut x);
                Ok(())
            },
            None => {
                if self.width < 5 {
                    return Err(PlanningError::GridTooNarrow);
                }
                let ghost w = self.width as int;
                let ghost h = self.height as int;
                let ghost old_racks = self.rack_positions@;
                let ghost old_len = old_racks.len() as int;
                let cells: usize = (self.width - 2) / 3;
                let mut c: usize = 0;
                while c < cells
                    invariant
                        0 <= c <= cells,
                        self.width == old(self).width,
                        self.height == old(self).height,
                        self.lookup_rack == old(self).lookup_rack,
                        self.feed_option == old(self).feed_option,
                        self.corridor_positions == old(self).corridor_positions,
                        self.feed_points == old(self).feed_points,
                        self.queue_point == old(self).queue_point,
                        self.rotation_mapping == old(self).rotation_mapping,
                        self.rack_positions@.len() == old_len + c * rack_block(h),
                        forall|t: int|
                            0 <= t < old_len ==> #[trigger] self.rack_positions@[t]
                                == old_racks[t],
                        forall|t: int|
                            0 <= t < c * rack_block(h) ==> #[trigger] self.rack_positions@[old_len
                                + t] == default_rack_at(w, h, t),
                    decreases cells - c,
                {
                    let mut y: usize = 1;
                    while y < self.height - 1
                        invariant
                            1 <= y,
                            h >= 2 ==> y <= h - 1,
                            h < 2 ==> y == 1,
                            c < cells,
                            self.width == old(self).width,
                            self.height == old(self).height,
                            self.lookup_rack == old(self).lookup_rack,
                            self.feed_option == old(self).feed_option,
                            self.corridor_positions == old(self).corridor_positions,
                            self.feed_points == old(self).feed_points,
                            self.queue_point == old(self).queue_point,
                            self.rotation_mapping == old(self).rotation_mapping,
                            self.rack_positions@.len() == old_len + c * rack_block(h) + (y - 1)
                                * 2,
                            forall|t: int|
                                0 <= t < old_len ==> #[trigger] self.rack_positions@[t]
                                    == old_racks[t],
                            forall|t: int|
                                0 <= t < c * rack_block(h) + (y - 1) * 2
                                    ==> #[trigger] self.rack_positions@[old_len + t]
                                    == default_rack_at(w, h, t),
                        decreases self.height - 1 - y,
                    {
                        let xbase: usize = c * 3 + 2;
                        let p0: Point = (xbase as i32, y as i32);
                        let p1: Point = ((xbase + 1) as i32, y as i32);
                        self.rack_positions.push(p0);
                        self.rack_positions.push(p1);
                        proof {
                            lemma_default_rack_decode(w, h, c as int, y as int, 0);
                            lemma_default_rack_decode(w, h, c as int, y as int, 1);
                        }
                        y = y + 1;
                    }
                    proof {
                        assert((c as int + 1) * rack_block(h) == (c as int) * rack_block(h)
                            + rack_block(h)) by (nonlinear_arith);
                    }
                    c = c + 1;
                }
                proof {
                    assert(cells as int == (w - 2) / 3);
                    assert forall|idx: int|
                        0 <= idx < self.rack_positions@.len() implies self.rack_positions@[idx]
                        == (old_racks + default_racks(w, h))[idx] by {
                        if idx >= old_len {
                            let t = idx - old_len;
                            assert(self.rack_positions@[old_len + t] == default_rack_at(w, h, t));
                        }
                    }
                    assert(self.rack_positions@ =~= old_racks + default_racks(w, h));
                }
                Ok(())
            },
        }
    }

    /// Appends the given corridors or, with `None`, every grid cell that is
    /// not both a rack cell and a feed cell, in ascending column-then-row
    /// order.
    #[verifier::loop_isolation(false)]
    pub fn set_corridors(&mut self, input: Option<Vec<Point>>)
        requires
            old(self).width <= 0x4000,
            old(self).height <= 0x4000,
        ensures
            final(self).rack_positions == old(self).rack_positions,
            final(self).lookup_rack == old(self).lookup_rack,
            final(self).feed_option == old(self).feed_option,
            final(self).feed_points == old(self).feed_points,
            final(self).queue_point == old(self).queue_point,
            final(self).width == old(self).width,
            final(self).height == old(self).height,
            final(self).rotation_mapping == old(self).rotation_mapping,
            match input {
                Some(x) => final(self).corridor_positions@ == old(self).corridor_positions@ + x@,
                None => {
                    &&& final(self).corridor_positions@.len()
                        >= old(self).corridor_positions@.len()
                    &&& forall|t: int|
                        0 <= t < old(self).corridor_positions@.len()
                            ==> #[trigger] final(self).corridor_positions@[t] == old(
                            self,
                        ).corridor_positions@[t]
                    &&& forall|t: int|
                        old(self).corridor_positions@.len() <= t < final(self).corridor_positions@.len() ==> in_grid(
                            #[trigger] final(self).corridor_positions@[t],
                            old(self).width as int,
                            old(self).height as int,
                        ) && !(old(self).rack_positions@.contains(final(self).corridor_positions@[t])
                            && old(self).feed_points@.contains(final(self).corridor_positions@[t]))
                    &&& forall|p: Point|
                        in_grid(p, old(self).width as int, old(self).height as int) && !(old(
                            self,
                        ).rack_positions@.contains(p) && old(self).feed_points@.contains(p))
                            ==> #[trigger] final(self).corridor_positions@.contains(p)
                    &&& forall|t1: int, t2: int|
                        old(self).corridor_positions@.len() <= t1 < t2 < final(self).corridor_positions@.len() ==> lex_lt(
                            #[trigger] final(self).corridor_positions@[t1],
                            #[trigger] final(self).corridor_positions@[t2],
                        )
                    &&& old(self).corridor_positions@.len() == 0 ==> final(self).corridor_positions@.no_duplicates()
                },
            },
    {
        match input {
            Some(mut x) => {
                self.corridor_positions.append(&mut x);
            },
            None => {
                let ghost w = self.width as int;
                let ghost h = self.height as int;
                let ghost racks = self.rack_positions@;
                let ghost feeds = self.feed_points@;
                let ghost old_len = self.corridor_positions@.len() as int;
                let mut x: usize = 0;
                while x < self.width
                    invariant
                        0 <= x <= self.width,
                        self.width == old(self).width,
                        self.height == old(self).height,
                        self.lookup_rack == old(self).lookup_rack,
                        self.feed_option == old(self).feed_option,
                        self.rack_positions == old(self).rack_positions,
                        self.feed_points == old(self).feed_points,
                        self.queue_point == old(self).queue_point,
                        self.rotation_mapping == old(self).rotation_mapping,
                        racks == self.rack_positions@,
                        feeds == self.feed_points@,
                        self.corridor_positions@.len() >= old_len,
                        forall|t: int|
                            0 <= t < old_len ==> #[trigger] self.corridor_positions@[t] == old(
                                self,
                            ).corridor_positions@[t],
                        forall|t: int|
                            old_len <= t < self.corridor_positions@.len() ==> in_grid(
                                #[trigger] self.corridor_positions@[t],
                                w,
                                h,
                            ) && !(racks.contains(self.corridor_positions@[t]) && feeds.contains(
                                self.corridor_positions@[t],
                            )) && lex_lt(self.corridor_positions@[t], (x as i32, 0i32)),
                        forall|t1: int, t2: int|
                            old_len <= t1 < t2 < self.corridor_positions@.len() ==> lex_lt(
                                #[trigger] self.corridor_positions@[t1],
                                #[trigger] self.corridor_positions@[t2],
                            ),
                        forall|p: Point|
                            in_grid(p, w, h) && !(racks.contains(p) && feeds.contains(p))
                                && lex_lt(p, (x as i32, 0i32))
                                ==> #[trigger] self.corridor_positions@.contains(p),
                    decreases self.width - x,
                {
                    let mut y: usize = 0;
                    while y < self.height
                        invariant
                            x < self.width,
                            0 <= y <= self.height,
                            self.width == old(self).width,
                            self.height == old(self).height,
                            self.lookup_rack == old(self).lookup_rack,
                            self.feed_option == old(self).feed_option,
                            self.rack_positions == old(self).rack_positions,
                            self.feed_points == old(self).feed_points,
                            self.queue_point == old(self).queue_point,
                            self.rotation_mapping == old(self).rotation_mapping,
                            racks == self.rack_positions@,
                            feeds == self.feed_points@,
                            self.corridor_positions@.len() >= old_len,
                            forall|t: int|
                                0 <= t < old_len ==> #[trigger] self.corridor_positions@[t] == old(
                                    self,
                                ).corridor_positions@[t],
                            forall|t: int|
                                old_len <= t < self.corridor_positions@.len() ==> in_grid(
                                    #[trigger] self.corridor_positions@[t],
                                    w,
                                    h,
                                ) && !(racks.contains(self.corridor_positions@[t])
                                    && feeds.contains(self.corridor_positions@[t])) && lex_lt(
                                    self.corridor_positions@[t],
                                    (x as i32, y as i32),
                                ),
                            forall|t1: int, t2: int|
                                old_len <= t1 < t2 < self.corridor_positions@.len() ==> lex_lt(
                                    #[trigger] self.corridor_positions@[t1],
                                    #[trigger] self.corridor_positions@[t2],
                                ),
                            forall|p: Point|
                                in_grid(p, w, h) && !(racks.contains(p) && feeds.contains(p))
                                    && lex_lt(p, (x as i32, y as i32))
                                    ==> #[trigger] self.corridor_positions@.contains(p),
                        decreases self.height - y,
                    {
                        let grid: Point = (x as i32, y as i32);
                        let in_racks = contains_point(self.rack_positions.as_slice(), &grid);
                        let in_feeds = contains_point(self.feed_points.as_slice(), &grid);
                        let ghost pre = self.corridor_positions@;
                        if !(in_racks && in_feeds) {
                            self.corridor_positions.push(grid);
                        }
                        proof {
                            assert forall|p: Point|
                                in_grid(p, w, h) && !(racks.contains(p) && feeds.contains(p))
                                    && lex_lt(p, (x as i32, (y + 1) as i32)) implies
                                self.corridor_positions@.contains(p) by {
                                if lex_lt(p, (x as i32, y as i32)) {
                                    assert(pre.contains(p));
                                    if self.corridor_positions@ != pre {
                                        vstd::seq_lib::lemma_seq_contains_after_push(
                                            pre,
                                            grid,
                                            p,
                                        );
                                    }
                                } else {
                                    assert(p.0 == x as i32 && p.1 == y as i32);
                                    assert(p == grid);
                                    vstd::seq_lib::lemma_seq_contains_after_push(pre, grid, p);
                                }
                            }
                        }
                        y = y + 1;
                    }
                    x = x + 1;
                }
                proof {
                    if old_len == 0 {
                        let cp = self.corridor_positions@;
                        assert forall|t1: int, t2: int|
                            0 <= t1 < cp.len() && 0 <= t2 < cp.len() && t1 != t2 implies cp[t1]
                            != cp[t2] by {
                            if t1 < t2 {
                                assert(lex_lt(cp[t1], cp[t2]));
                            } else {
                                assert(lex_lt(cp[t2], cp[t1]));
                            }
                        }
                        assert(cp.no_duplicates());
                    }
                }
            },
        }
    }

    pub fn set_lookup_rack(&mut self, rack: usize)
        ensures
            *final(self) == (Info { lookup_rack: rack, ..*old(self) }),
    {
        self.lookup_rack = rack;
    }

    pub fn get_lookup_rack(&self) -> (r: &usize)
        ensures
            *r == self.lookup_rack,
    {
        &self.lookup_rack
    }

    /// Installs the standard rotation mapping: right, down, left, up.
    pub fn set_rotation_mapping(&mut self)
        ensures
            final(self).rotation_mapping@ == old(self).rotation_mapping@.insert(
                0u8,
                (1i32, 0i32),
            ).insert(1u8, (0i32, 1i32)).insert(2u8, ((-1) as i32, 0i32)).insert(
                3u8,
                (0i32, (-1) as i32),
            ),
            rotation_std(final(self).rotation_mapping@),
            final(self).rack_positions == old(self).rack_positions,
            final(self).lookup_rack == old(self).lookup_rack,
            final(self).feed_option == old(self).feed_option,
            final(self).corridor_positions == old(self).corridor_positions,
            final(self).feed_points == old(self).feed_points,
            final(self).queue_point == old(self).queue_point,
            final(self).width == old(self).width,
            final(self).height == old(self).height,
    {
        self.rotation_mapping.insert(0, (1, 0));
        self.rotation_mapping.insert(1, (0, 1));
        self.rotation_mapping.insert(2, (-1, 0));
        self.rotation_mapping.insert(3, (0, -1));
        proof {
            let rot = self.rotation_mapping@;
            assert forall|d: u8| d < 4 implies #[trigger] rot.dom().contains(d) && rot[d]
                == spec_rotation(d) by {
                assert(d == 0 || d == 1 || d == 2 || d == 3);
            }
        }
    }
}

/// Rack slots per rack column pair: two per interior row.
pub open spec fn rack_block(h: int) -> int {
    if h >= 2 {
        (h - 2) * 2
    } else {
        0
    }
}

/// How many racks the default layout places on a `w` by `h` grid.
pub open spec fn default_rack_count(w: int, h: int) -> int {
    ((w - 2) / 3) * rack_block(h)
}

/// The rack cell at index `i` of the default layout: rack column pairs every
/// three cells starting at x = 2, spanning the interior rows.
pub open spec fn default_rack_at(w: int, h: int, i: int) -> Point {
    let block = rack_block(h);
    let c = i / block;
    let rem = i % block;
    let y = rem / 2 + 1;
    let ii = rem % 2;
    ((c * 3 + 2 + ii) as i32, y as i32)
}

/// The default rack layout as a sequence, in generation order.
pub open spec fn default_racks(w: int, h: int) -> Seq<Point> {
    Seq::new(default_rack_count(w, h) as nat, |i: int| default_rack_at(w, h, i))
}

/// Decodes the flat rack index back into its column pair, row and side.
proof fn lemma_default_rack_decode(w: int, h: int, c: int, y: int, ii: int)
    requires
        h >= 2,
        0 <= c,
        1 <= y <= h - 2,
        0 <= ii < 2,
    ensures
        default_rack_at(w, h, c * rack_block(h) + (y - 1) * 2 + ii) == ((c * 3 + 2 + ii) as i32, y as i32),
{
    let block = rack_block(h);
    let rem = (y - 1) * 2 + ii;
    assert(0 <= rem < block) by (nonlinear_arith)
        requires
            h >= 2,
            1 <= y <= h - 2,
            0 <= ii < 2,
            block == (h - 2) * 2,
            rem == (y - 1) * 2 + ii,
    ;
    vstd::arithmetic::div_mod::lemma_fundamental_div_mod_converse(
        c * block + rem,
        block,
        c,
        rem,
    );
    vstd::arithmetic::div_mod::lemma_fundamental_div_mod_converse(rem, 2, y - 1, ii);
}

/// Strict lexicographic order on grid points, x first.
pub open spec fn lex_lt(a: Point, b: Point) -> bool {
    a.0 < b.0 || (a.0 == b.0 && a.1 < b.1)
}

/// Empty rack and corridor lists and an empty rotation mapping, for a caller
/// to fill through [`Info`]'s setters.
pub fn warehouse_defaults() -> (r: (Vec<Point>, Vec<Point>, RotationTable))
    ensures
        r.0@ =~= Seq::<Point>::empty(),
        r.1@ =~= Seq::<Point>::empty(),
        r.2@ =~= Map::<u8, (i32, i32)>::empty(),
{
    let rotation_mapping = RotationTable::new();
    let rack_positions: Vec<Point> = Vec::new();
    let corridor_positions: Vec<Point> = Vec::new();
    (rack_positions, corridor_positions, rotation_mapping)
}

/// Whether the slice holds the point.
pub fn contains_point(points: &[Point], p: &Point) -> (r: bool)
    ensures
        r == points@.contains(*p),
{
    let n: usize = points.len();
    let mut i: usize = 0;
    while i < n
        invariant
            n == points@.len(),
            0 <= i <= n,
            forall|j: int| 0 <= j < i ==> points@[j] != *p,
        decreases n - i,
    {
        if points[i].0 == p.0 && points[i].1 == p.1 {
            assert(points@[i as int] == *p);
            return true;
        }
        i = i + 1;
    }
    false
}

/// The cell one step ahead of the pose, or `None` off the grid.
pub open spec fn spec_front_pos(
    p: Point,
    dir: u8,
    rot: Map<u8, (i32, i32)>,
    w: int,
    h: int,
) -> Option<Point> {
    let r = rot[dir];
    let x = p.0 + r.0;
    let y = p.1 + r.1;
    if 0 <= x && 0 <= y && x < w && y < h {
        Some((x as i32, y as i32))
    } else {
        None
    }
}

/// The position the agent faces, or `None` when it faces off the grid.
pub fn front_pos(
    agent_position: &Point,
    dir: &u8,
    rotation_mapping: &RotationTable,
    w: usize,
    h: usize,
) -> (r: Option<Point>)
    requires
        rotation_mapping@.dom().contains(*dir),
        i32::MIN <= agent_position.0 + rotation_mapping@[*dir].0 <= i32::MAX,
        i32::MIN <= agent_position.1 + rotation_mapping@[*dir].1 <= i32::MAX,
        w <= i32::MAX,
        h <= i32::MAX,
    ensures
        r == spec_front_pos(*agent_position, *dir, rotation_mapping@, w as int, h as int),
{
    let (ax, ay) = *agent_position;
    let rot = rotation_mapping.get(*dir);
    match rot {
        Some(rv) => {
            let (rx, ry) = rv;
            let x = ax + rx;
            let y = ay + ry;
            if x >= 0 && y >= 0 && x < w as i32 && y < h as i32 {
                Some((x, y))
            } else {
                None
            }
        },
        None => None,
    }
}

/// The classification of the cell ahead: rack membership first, then a floor
/// pack at exactly that cell, then feed membership, else free.
pub open spec fn spec_fwd_cell(
    p: Option<Point>,
    pack_available: u8,
    pack_point: Point,
    racks: Seq<Point>,
    feeds: Seq<Point>,
) -> CellType {
    match p {
        None => CellType::OutOfBounds,
        Some(point) => if racks.contains(point) {
            CellType::Rack
        } else if pack_available == 1 && pack_point == point {
            CellType::Pack
        } else if feeds.contains(point) {
            CellType::Feed
        } else {
            CellType::Free
        },
    }
}

/// The successor state of one fine-resolution action, and the word the
/// transition emits. Rotations cycle the direction; a forward move succeeds
/// only onto a free cell; pickup succeeds from a pack cell always and from a
/// feed or rack cell only while no floor pack exists; a drop onto rack or
/// feed consumes the pack and a drop onto a free cell places it there. Any
/// other action leaves the state unchanged.
pub open spec fn spec_warehouse_step(s: State, a: i32, info: Info) -> (State, WarehouseWord) {
    let fwd_position = spec_front_pos(
        s.agent_position,
        s.agent_dir,
        info.rotation_mapping@,
        info.width as int,
        info.height as int,
    );
    let cell = spec_fwd_cell(
        fwd_position,
        s.pack_available,
        s.pack_position,
        info.rack_positions@,
        info.feed_points@,
    );
    let ns = if a == 0 {
        (State { agent_dir: if s.agent_dir == 0 { 3u8 } else { (s.agent_dir - 1) as u8 }, ..s })
    } else if a == 1 {
        (State { agent_dir: ((s.agent_dir + 1) as u8 % 4) as u8, ..s })
    } else if a == 2 {
        match (cell, fwd_position) {
            (CellType::Free, Some(fp)) => (State { agent_position: fp, ..s }),
            _ => s,
        }
    } else if a == 3 {
        if s.carrying == 0 {
            match cell {
                CellType::Feed => if s.pack_available == 0 {
                    (State { carrying: 1u8, ..s })
                } else {
                    s
                },
                CellType::Pack => (State {
                    carrying: 1u8,
                    pack_available: 0u8,
                    pack_position: ((-1) as i32, (-1) as i32),
                    ..s
                }),
                CellType::Rack => if s.pack_available == 0 {
                    (State { carrying: 1u8, ..s })
                } else {
                    s
                },
                _ => s,
            }
        } else {
            s
        }
    } else if a == 4 {
        if s.carrying == 1 {
            match (cell, fwd_position) {
                (CellType::Rack, _) => (State {
                    carrying: 0u8,
                    pack_available: 0u8,
                    pack_position: ((-1) as i32, (-1) as i32),
                    ..s
                }),
                (CellType::Feed, _) => (State {
                    carrying: 0u8,
                    pack_available: 0u8,
                    pack_position: ((-1) as i32, (-1) as i32),
                    ..s
                }),
                (CellType::Free, Some(fp)) => (State {
                    carrying: 0u8,
                    pack_available: 1u8,
                    pack_position: fp,
                    ..s
                }),
                _ => s,
            }
        } else {
            s
        }
    } else {
        s
    };
    (ns, spec_word_of(ns))
}

/// Classifies the cell the agent faces.
pub fn fwd_cell(
    p: Option<Point>,
    pack_available: u8,
    pack_point: &Point,
    rack_positions: &[Point],
    feedpoint: &[Point],
) -> (c: CellType)
    ensures
        c == spec_fwd_cell(p, pack_available, *pack_point, rack_positions@, feedpoint@),
{
    match p {
        None => CellType::OutOfBounds,
        Some(point) => {
            if contains_point(rack_positions, &point) {
                CellType::Rack
            } else if pack_available == 1 && pack_point.0 == point.0 && pack_point.1 == point.1 {
                CellType::Pack
            } else if contains_point(feedpoint, &point) {
                CellType::Feed
            } else {
                CellType::Free
            }
        },
    }
}

/// The dense code of a grid position: row-major order.
pub open spec fn spec_pos_code(p: Point, w: int) -> int {
    crate::encoding::spec_pair(p.1 as int, p.0 as int, w)
}

/// The code of the floor-pack slot: `0` for no pack, else one past the
/// position code of the pack cell.
pub open spec fn spec_pack_code(s: State, w: int) -> int {
    if s.pack_available == 1 {
        1 + spec_pos_code(s.pack_position, w)
    } else {
        0
    }
}

/// The integer key of a fine-resolution state: a mixed-radix packing of the
/// pack slot, the two flags, the position and the direction.
pub open spec fn spec_state_key(s: State, w: int, h: int) -> int {
    let k1 = crate::encoding::spec_pair(spec_pack_code(s, w), s.pack_available as int, 2);
    let k2 = crate::encoding::spec_pair(k1, s.carrying as int, 2);
    let k3 = crate::encoding::spec_pair(k2, spec_pos_code(s.agent_position, w), w * h);
    crate::encoding::spec_pair(k3, s.agent_dir as int, 4)
}

/// The key as the table stores it.
pub open spec fn state_key_u64(s: State, w: int, h: int) -> u64 {
    spec_state_key(s, w, h) as u64
}

/// The key of a well-formed state is nonnegative and fits comfortably in a
/// `u64`.
pub proof fn lemma_state_key_bounds(s: State, w: int, h: int)
    requires
        1 <= w <= 0x4000,
        1 <= h <= 0x4000,
        state_wf(s, w, h),
    ensures
        0 <= spec_state_key(s, w, h) < 0x4000_0000_0000_0000,
        state_key_u64(s, w, h) as int == spec_state_key(s, w, h),
{
    assert(1 <= w * h <= 0x1000_0000) by (nonlinear_arith)
        requires
            1 <= w <= 0x4000,
            1 <= h <= 0x4000,
    ;
    let wh = w * h;
    crate::encoding::lemma_pair_bound(s.agent_position.1 as int, s.agent_position.0 as int, w, h);
    if s.pack_available == 1 {
        crate::encoding::lemma_pair_bound(s.pack_position.1 as int, s.pack_position.0 as int, w, h);
    }
    assert(0 <= spec_pack_code(s, w) < wh + 1);
    let k1 = crate::encoding::spec_pair(spec_pack_code(s, w), s.pack_available as int, 2);
    crate::encoding::lemma_pair_bound(spec_pack_code(s, w), s.pack_available as int, 2, wh + 1);
    let k2 = crate::encoding::spec_pair(k1, s.carrying as int, 2);
    crate::encoding::lemma_pair_bound(k1, s.carrying as int, 2, (wh + 1) * 2);
    let k3 = crate::encoding::spec_pair(k2, spec_pos_code(s.agent_position, w), wh);
    crate::encoding::lemma_pair_bound(k2, spec_pos_code(s.agent_position, w), wh, (wh + 1) * 4);
    crate::encoding::lemma_pair_bound(k3, s.agent_dir as int, 4, (wh + 1) * 4 * wh);
    assert(((w * h + 1) * 4 * (w * h)) * 4 <= 0x4000_0000_0000_0000) by (nonlinear_arith)
        requires
            1 <= w * h <= 0x1000_0000,
    ;
}

/// The key determines the state: two well-formed states with the same key
/// are equal.
pub proof fn lemma_state_key_injective(s1: State, s2: State, w: int, h: int)
    requires
        1 <= w <= 0x4000,
        1 <= h <= 0x4000,
        state_wf(s1, w, h),
        state_wf(s2, w, h),
        spec_state_key(s1, w, h) == spec_state_key(s2, w, h),
    ensures
        s1 == s2,
{
    assert(1 <= w * h) by (nonlinear_arith)
        requires
            1 <= w,
            1 <= h,
    ;
    let wh = w * h;
    crate::encoding::lemma_pair_bound(s1.agent_position.1 as int, s1.agent_position.0 as int, w, h);
    crate::encoding::lemma_pair_bound(s2.agent_position.1 as int, s2.agent_position.0 as int, w, h);
    let k1a = crate::encoding::spec_pair(spec_pack_code(s1, w), s1.pack_available as int, 2);
    let k2a = crate::encoding::spec_pair(k1a, s1.carrying as int, 2);
    let k3a = crate::encoding::spec_pair(k2a, spec_pos_code(s1.agent_position, w), wh);
    let k1b = crate::encoding::spec_pair(spec_pack_code(s2, w), s2.pack_available as int, 2);
    let k2b = crate::encoding::spec_pair(k1b, s2.carrying as int, 2);
    let k3b = crate::encoding::spec_pair(k2b, spec_pos_code(s2.agent_position, w), wh);
    crate::encoding::lemma_pair_injective(k3a, s1.agent_dir as int, k3b, s2.agent_dir as int, 4);
    crate::encoding::lemma_pair_injective(
        k2a,
        spec_pos_code(s1.agent_position, w),
        k2b,
        spec_pos_code(s2.agent_position, w),
        wh,
    );
    crate::encoding::lemma_pair_injective(
        s1.agent_position.1 as int,
        s1.agent_position.0 as int,
        s2.agent_position.1 as int,
        s2.agent_position.0 as int,
        w,
    );
    crate::encoding::lemma_pair_injective(
        k1a,
        s1.carrying as int,
        k1b,
        s2.carrying as int,
        2,
    );
    crate::encoding::lemma_pair_injective(
        spec_pack_code(s1, w),
        s1.pack_available as int,
        spec_pack_code(s2, w),
        s2.pack_available as int,
        2,
    );
    if s1.pack_available == 1 {
        crate::encoding::lemma_pair_injective(
            s1.pack_position.1 as int,
            s1.pack_position.0 as int,
            s2.pack_position.1 as int,
            s2.pack_position.0 as int,
            w,
        );
        assert(s1.pack_position == s2.pack_position);
    }
    assert(s1.agent_position == s2.agent_position);
    assert(s1 == s2);
}

/// Computes the table key of a well-formed state.
pub fn state_key(state: &State, w: usize, h: usize) -> (k: u64)
    requires
        1 <= w <= 0x4000,
        1 <= h <= 0x4000,
        state_wf(*state, w as int, h as int),
    ensures
        k == state_key_u64(*state, w as int, h as int),
        k as int == spec_state_key(*state, w as int, h as int),
{
    proof {
        lemma_state_key_bounds(*state, w as int, h as int);
        assert(1 <= (w as int) * (h as int) <= 0x1000_0000) by (nonlinear_arith)
            requires
                1 <= w <= 0x4000,
                1 <= h <= 0x4000,
        ;
        assert((state.agent_position.1 as int) * (w as int) + (state.agent_position.0 as int)
            < 0x1000_0000) by (nonlinear_arith)
            requires
                0 <= state.agent_position.0 < w as int,
                0 <= state.agent_position.1 < h as int,
                w <= 0x4000,
                h <= 0x4000,
        ;
        if state.pack_available == 1 {
            assert((state.pack_position.1 as int) * (w as int) + (state.pack_position.0 as int)
                < 0x1000_0000) by (nonlinear_arith)
                requires
                    0 <= state.pack_position.0 < w as int,
                    0 <= state.pack_position.1 < h as int,
                    w <= 0x4000,
                    h <= 0x4000,
            ;
        }
    }
    let wu: u64 = w as u64;
    let hu: u64 = h as u64;
    let wh: u64 = wu * hu;
    let pos: u64 = (state.agent_position.1 as u64) * wu + (state.agent_position.0 as u64);
    let pack: u64 = if state.pack_available == 1 {
        1 + (state.pack_position.1 as u64) * wu + (state.pack_position.0 as u64)
    } else {
        0
    };
    let k1: u64 = pack * 2 + (state.pack_available as u64);
    let k2: u64 = k1 * 2 + (state.carrying as u64);
    proof {
        assert((k2 as int) * (wh as int) + (pos as int) < 0x2000_0000_0000_0000) by (nonlinear_arith)
            requires
                0 <= k2 as int <= 0x8000_0010,
                0 <= wh as int <= 0x1000_0000,
                0 <= pos as int <= 0x1000_0000,
        ;
    }
    let k3: u64 = k2 * wh + pos;
    k3 * 4 + (state.agent_dir as u64)
}

/// The enumerated state in which the agent carries the pack: no floor pack
/// exists.
pub open spec fn carry_state(p: Point, dir: u8) -> State {
    State {
        agent_dir: dir,
        agent_position: p,
        carrying: 1u8,
        pack_available: 0u8,
        pack_position: ((-1) as i32, (-1) as i32),
    }
}

/// The enumerated state in which nothing is carried and no pack is placed.
pub open spec fn nopack_state(p: Point, dir: u8) -> State {
    State {
        agent_dir: dir,
        agent_position: p,
        carrying: 0u8,
        pack_available: 0u8,
        pack_position: ((-1) as i32, (-1) as i32),
    }
}

/// The enumerated state in which a floor pack lies at `p2`, away from the
/// agent.
pub open spec fn pack_state(p: Point, dir: u8, p2: Point) -> State {
    State {
        agent_dir: dir,
        agent_position: p,
        carrying: 0u8,
        pack_available: 1u8,
        pack_position: p2,
    }
}

/// The states the fine state space enumerates over the corridor set `cs`:
/// the agent stands on a corridor cell facing one of four directions, and
/// either carries the pack with no floor pack, or carries nothing while a
/// floor pack lies on a different corridor cell, or carries nothing with no
/// pack placed.
pub open spec fn enumerated_state(s: State, cs: Seq<Point>) -> bool {
    &&& cs.contains(s.agent_position)
    &&& s.agent_dir < 4
    &&& {
        ||| (s.carrying == 1 && s.pack_available == 0 && s.pack_position == (
            (-1) as i32,
            (-1) as i32,
        ))
        ||| (s.carrying == 0 && s.pack_available == 1 && cs.contains(s.pack_position)
            && s.pack_position != s.agent_position)
        ||| (s.carrying == 0 && s.pack_available == 0 && s.pack_position == (
            (-1) as i32,
            (-1) as i32,
        ))
    }
}

/// The model's state list, alphabet and state mapping agree: every state is
/// well formed, carries its own word, and is indexed by its key; every key
/// the table holds points back to a state bearing that key.
pub open spec fn warehouse_mapping_wf(m: WarehouseModel, w: int, h: int) -> bool {
    &&& m.states@.len() == m.alphabet@.len()
    &&& forall|i: int| 0 <= i < m.states@.len() ==> state_wf(#[trigger] m.states@[i], w, h)
    &&& forall|i: int|
        0 <= i < m.states@.len() ==> m.alphabet@[i] == spec_word_of(#[trigger] m.states@[i])
    &&& forall|i: int|
        0 <= i < m.states@.len() ==> m.state_mapping@.dom().contains(
            state_key_u64(#[trigger] m.states@[i], w, h),
        )
    &&& forall|k: u64| #[trigger]
        m.state_mapping@.dom().contains(k) ==> m.state_mapping@[k] < m.states@.len()
            && state_key_u64(m.states@[m.state_mapping@[k] as int], w, h) == k
}

/// A fully built fine-resolution model: the mapping is consistent and the
/// dense transition table holds, for every state and action, the index of
/// the successor that the transition function gives.
pub open spec fn warehouse_model_built(m: WarehouseModel, info: Info) -> bool {
    &&& warehouse_mapping_wf(m, info.width as int, info.height as int)
    &&& 0 <= m.na
    &&& m.transitions@.len() == m.states@.len()
    &&& m.rewards@.len() == m.states@.len()
    &&& forall|i: int| 0 <= i < m.states@.len() ==> (#[trigger] m.transitions@[i])@.len() == m.na
    &&& forall|i: int| 0 <= i < m.states@.len() ==> (#[trigger] m.rewards@[i])@.len() == m.na
    &&& forall|i: int, a: int|
        0 <= i < m.states@.len() && 0 <= a < m.na ==> (#[trigger] m.transitions@[i]@[a])
            < m.states@.len()
    &&& forall|i: int, a: int|
        0 <= i < m.states@.len() && 0 <= a < m.na ==> m.states@[
            #[trigger] m.transitions@[i]@[a] as int
        ] == spec_warehouse_step(m.states@[i], a as i32, info).0
}

/// The fine-resolution environment model: the enumerated state space with
/// its dense indexing, the word of every state, and the dense transition and
/// reward tables that the product constructor reads.
pub struct WarehouseModel {
    pub init_state: State,
    pub na: i32,
    pub states: Vec<State>,
    pub alphabet: Vec<WarehouseWord>,
    pub state_mapping: crate::tables::IndexTable,
    pub transitions: Vec<Vec<usize>>,
    pub rewards: Vec<Vec<i64>>,
}

impl WarehouseModel {
    /// A fresh model with `na` actions and the given start state; the state
    /// space and the tables are still empty.
    pub fn warehouse_make(na: i32, init_state: State) -> (m: WarehouseModel)
        ensures
            m.init_state == init_state,
            m.na == na,
            m.states@ =~= Seq::<State>::empty(),
            m.alphabet@ =~= Seq::<WarehouseWord>::empty(),
            m.state_mapping@ =~= Map::<u64, usize>::empty(),
            m.transitions@ =~= Seq::<Vec<usize>>::empty(),
            m.rewards@ =~= Seq::<Vec<i64>>::empty(),
    {
        WarehouseModel {
            init_state,
            na,
            states: Vec::new(),
            alphabet: Vec::new(),
            state_mapping: crate::tables::IndexTable::new(),
            transitions: Vec::new(),
            rewards: Vec::new(),
        }
    }

    /// Appends one state, stores its word, and indexes it by its key.
    fn push_state(&mut self, s: State, w: usize, h: usize)
        requires
            1 <= w <= 0x4000,
            1 <= h <= 0x4000,
            warehouse_mapping_wf(*old(self), w as int, h as int),
            state_wf(s, w as int, h as int),
        ensures
            warehouse_mapping_wf(*final(self), w as int, h as int),
            final(self).states@ == old(self).states@.push(s),
            final(self).alphabet@ == old(self).alphabet@.push(spec_word_of(s)),
            final(self).transitions == old(self).transitions,
            final(self).rewards == old(self).rewards,
            final(self).na == old(self).na,
            final(self).init_state == old(self).init_state,
    {
        let idx: usize = self.states.len();
        let k: u64 = state_key(&s, w, h);
        self.states.push(s);
        let word = WarehouseWord::new(
            s.agent_position,
            s.agent_dir,
            s.carrying,
            if s.pack_available == 1 {
                Some(s.pack_position)
            } else {
                None
            },
        );
        self.alphabet.push(word);
        self.state_mapping.insert(k, idx);
        proof {
            let wi = w as int;
            let hi = h as int;
            let olds = old(self).states@;
            let oldmap = old(self).state_mapping@;
            let m = *self;
            assert(word == spec_word_of(s));
            assert(m.states@[idx as int] == s);
            assert forall|i: int| 0 <= i < m.states@.len() implies state_wf(
                #[trigger] m.states@[i],
                wi,
                hi,
            ) by {
                if i < olds.len() {
                    assert(m.states@[i] == olds[i]);
                }
            }
            assert forall|i: int| 0 <= i < m.states@.len() implies m.alphabet@[i] == spec_word_of(
                #[trigger] m.states@[i],
            ) by {
                if i < olds.len() {
                    assert(m.states@[i] == olds[i]);
                    assert(m.alphabet@[i] == old(self).alphabet@[i]);
                }
            }
            assert forall|i: int| 0 <= i < m.states@.len() implies m.state_mapping@.dom().contains(
                state_key_u64(#[trigger] m.states@[i], wi, hi),
            ) by {
                if i < olds.len() {
                    assert(m.states@[i] == olds[i]);
                    assert(oldmap.dom().contains(state_key_u64(olds[i], wi, hi)));
                } else {
                    assert(m.states@[i] == s);
                    assert(m.state_mapping@.dom().contains(k));
                }
            }
            assert forall|kk: u64| #[trigger]
                m.state_mapping@.dom().contains(kk) implies m.state_mapping@[kk] < m.states@.len()
                && state_key_u64(m.states@[m.state_mapping@[kk] as int], wi, hi) == kk by {
                if kk == k {
                    assert(m.state_mapping@[kk] == idx);
                    assert(m.states@[idx as int] == s);
                } else {
                    assert(oldmap.dom().contains(kk));
                    let v = oldmap[kk];
                    assert(m.state_mapping@[kk] == v);
                    assert(m.states@[v as int] == olds[v as int]);
                }
            }
        }
    }

    /// Enumerates the fine state space over the corridor cells: for every
    /// corridor cell and every direction, one state per possible floor-pack
    /// cell, one state with no pack placed, and one carrying state. Each
    /// state is indexed by its key and paired with its word.
    #[verifier::loop_isolation(false)]
    pub fn warehouse_state_space(&mut self, corridor_positions: &[Point], info: &Info)
        requires
            old(self).states@.len() == 0,
            old(self).alphabet@.len() == 0,
            old(self).state_mapping@ == crate::tables::empty_index_map(),
            1 <= info.width <= 0x4000,
            1 <= info.height <= 0x4000,
            forall|j: int|
                0 <= j < corridor_positions@.len() ==> in_grid(
                    #[trigger] corridor_positions@[j],
                    info.width as int,
                    info.height as int,
                ),
            corridor_positions@.no_duplicates(),
        ensures
            warehouse_mapping_wf(*final(self), info.width as int, info.height as int),
            forall|i: int|
                0 <= i < final(self).states@.len() ==> enumerated_state(
                    #[trigger] final(self).states@[i],
                    corridor_positions@,
                ),
            forall|s: State|
                enumerated_state(s, corridor_positions@) ==> final(self).states@.contains(s),
            final(self).states@.len() == corridor_positions@.len() * 4 * (
            corridor_positions@.len() + 1),
            final(self).transitions == old(self).transitions,
            final(self).rewards == old(self).rewards,
            final(self).na == old(self).na,
            final(self).init_state == old(self).init_state,
    {
        broadcast use vstd::seq_lib::lemma_seq_contains_after_push;

        let n: usize = corridor_positions.len();
        let w: usize = info.width;
        let h: usize = info.height;
        let ghost cs = corridor_positions@;
        let mut i: usize = 0;
        while i < n
            invariant
                0 <= i <= n,
                warehouse_mapping_wf(*self, w as int, h as int),
                self.states@.len() == (i as int) * (4 * (n as int + 1)),
                forall|idx: int|
                    0 <= idx < self.states@.len() ==> enumerated_state(
                        #[trigger] self.states@[idx],
                        cs,
                    ),
                forall|ii: int, d: u8|
                    0 <= ii < i && d < 4 ==> self.states@.contains(
                        #[trigger] carry_state(cs[ii], d),
                    ),
                forall|ii: int, d: u8|
                    0 <= ii < i && d < 4 ==> self.states@.contains(
                        #[trigger] nopack_state(cs[ii], d),
                    ),
                forall|ii: int, d: u8, j: int|
                    0 <= ii < i && d < 4 && 0 <= j < cs.len() && cs[j] != cs[ii]
                        ==> self.states@.contains(#[trigger] pack_state(cs[ii], d, cs[j])),
                self.transitions == old(self).transitions,
                self.rewards == old(self).rewards,
                self.na == old(self).na,
                self.init_state == old(self).init_state,
            decreases n - i,
        {
            let p = corridor_positions[i];
            let mut dir: u8 = 0;
            while dir < 4
                invariant
                    0 <= dir <= 4,
                    i < n,
                    p == cs[i as int],
                    warehouse_mapping_wf(*self, w as int, h as int),
                    self.states@.len() == (i as int) * (4 * (n as int + 1)) + (dir as int) * (
                    n as int + 1),
                    forall|idx: int|
                        0 <= idx < self.states@.len() ==> enumerated_state(
                            #[trigger] self.states@[idx],
                            cs,
                        ),
                    forall|ii: int, d: u8|
                        0 <= ii < i && d < 4 ==> self.states@.contains(
                            #[trigger] carry_state(cs[ii], d),
                        ),
                    forall|ii: int, d: u8|
                        0 <= ii < i && d < 4 ==> self.states@.contains(
                            #[trigger] nopack_state(cs[ii], d),
                        ),
                    forall|ii: int, d: u8, j: int|
                        0 <= ii < i && d < 4 && 0 <= j < cs.len() && cs[j] != cs[ii]
                            ==> self.states@.contains(#[trigger] pack_state(cs[ii], d, cs[j])),
                    forall|d: u8|
                        d < dir ==> self.states@.contains(#[trigger] carry_state(cs[i as int], d)),
                    forall|d: u8|
                        d < dir ==> self.states@.contains(#[trigger] nopack_state(cs[i as int], d)),
                    forall|d: u8, j: int|
                        d < dir && 0 <= j < cs.len() && cs[j] != cs[i as int]
                            ==> self.states@.contains(#[trigger] pack_state(cs[i as int], d, cs[j])),
                    self.transitions == old(self).transitions,
                    self.rewards == old(self).rewards,
                    self.na == old(self).na,
                    self.init_state == old(self).init_state,
                decreases 4 - dir,
            {
                let ghost len_at_dir = self.states@.len();
                let mut j: usize = 0;
                while j < n
                    invariant
                        0 <= j <= n,
                        dir < 4,
                        warehouse_mapping_wf(*self, w as int, h as int),
                        self.states@.len() == len_at_dir + (if (i as int) < (j as int) {
                            (j as int) - 1
                        } else {
                            j as int
                        }),
                        len_at_dir == (i as int) * (4 * (n as int + 1)) + (dir as int) * (
                        n as int + 1),
                        forall|idx: int|
                            0 <= idx < self.states@.len() ==> enumerated_state(
                                #[trigger] self.states@[idx],
                                cs,
                            ),
                        forall|ii: int, d: u8|
                            0 <= ii < i && d < 4 ==> self.states@.contains(
                                #[trigger] carry_state(cs[ii], d),
                            ),
                        forall|ii: int, d: u8|
                            0 <= ii < i && d < 4 ==> self.states@.contains(
                                #[trigger] nopack_state(cs[ii], d),
                            ),
                        forall|ii: int, d: u8, j2: int|
                            0 <= ii < i && d < 4 && 0 <= j2 < cs.len() && cs[j2] != cs[ii]
                                ==> self.states@.contains(#[trigger] pack_state(cs[ii], d, cs[j2])),
                        forall|d: u8|
                            d < dir ==> self.states@.contains(
                                #[trigger] carry_state(cs[i as int], d),
                            ),
                        forall|d: u8|
                            d < dir ==> self.states@.contains(
                                #[trigger] nopack_state(cs[i as int], d),
                            ),
                        forall|d: u8, j2: int|
                            d < dir && 0 <= j2 < cs.len() && cs[j2] != cs[i as int]
                                ==> self.states@.contains(
                                #[trigger] pack_state(cs[i as int], d, cs[j2]),
                            ),
                        forall|j2: int|
                            0 <= j2 < j && cs[j2] != cs[i as int] ==> self.states@.contains(
                                #[trigger] pack_state(cs[i as int], dir, cs[j2]),
                            ),
                        self.transitions == old(self).transitions,
                        self.rewards == old(self).rewards,
                        self.na == old(self).na,
                        self.init_state == old(self).init_state,
                    decreases n - j,
                {
                    let p2 = corridor_positions[j];
                    if !(p2.0 == p.0 && p2.1 == p.1) {
                        let s = State {
                            agent_dir: dir,
                            agent_position: p,
                            carrying: 0,
                            pack_available: 1,
                            pack_position: p2,
                        };
                        proof {
                            assert(s == pack_state(cs[i as int], dir, cs[j as int]));
                            assert(enumerated_state(s, cs));
                        }
                        self.push_state(s, w, h);
                    } else {
                        proof {
                            assert(cs[j as int] == cs[i as int]);
                            assert(j == i);
                        }
                    }
                    j = j + 1;
                }
                let s_nopack = State {
                    agent_dir: dir,
                    agent_position: p,
                    carrying: 0,
                    pack_available: 0,
                    pack_position: (-1, -1),
                };
                proof {
                    assert(s_nopack == nopack_state(cs[i as int], dir));
                    assert(enumerated_state(s_nopack, cs));
                }
                self.push_state(s_nopack, w, h);
                let s_carry = State {
                    agent_dir: dir,
                    agent_position: p,
                    carrying: 1,
                    pack_available: 0,
                    pack_position: (-1, -1),
                };
                proof {
                    assert(s_carry == carry_state(cs[i as int], dir));
                    assert(enumerated_state(s_carry, cs));
                }
                self.push_state(s_carry, w, h);
                proof {
                    assert((i as int) * (4 * (n as int + 1)) + (dir as int + 1) * (n as int + 1)
                        == (i as int) * (4 * (n as int + 1)) + (dir as int) * (n as int + 1) + (
                    n as int + 1)) by (nonlinear_arith);
                }
                dir = dir + 1;
            }
            proof {
                assert((i as int + 1) * (4 * (n as int + 1)) == (i as int) * (4 * (n as int + 1))
                    + 4 * (n as int + 1)) by (nonlinear_arith);
            }
            i = i + 1;
        }
        proof {
            assert forall|s: State| enumerated_state(s, cs) implies self.states@.contains(s) by {
                let pi = choose|pi: int| 0 <= pi < cs.len() && cs[pi] == s.agent_position;
                if s.carrying == 1 {
                    assert(s == carry_state(cs[pi], s.agent_dir));
                } else if s.pack_available == 1 {
                    let pj = choose|pj: int| 0 <= pj < cs.len() && cs[pj] == s.pack_position;
                    assert(cs[pj] != cs[pi]);
                    assert(s == pack_state(cs[pi], s.agent_dir, cs[pj]));
                } else {
                    assert(s == nopack_state(cs[pi], s.agent_dir));
                }
            }
            assert((n as int) * (4 * (n as int + 1)) == (n as int) * 4 * (n as int + 1))
                by (nonlinear_arith);
        }
    }

    /// One deterministic transition: the successor state, the constant step
    /// reward, and the emitted word.
    pub fn warehouse_step(&self, state: &State, a: i32, info: &Info) -> (r: (
        State,
        i64,
        WarehouseWord,
    ))
        requires
            info_wf(*info),
            state_wf(*state, info.width as int, info.height as int),
        ensures
            r.0 == spec_warehouse_step(*state, a, *info).0,
            r.1 == 1i64,
            r.2 == spec_warehouse_step(*state, a, *info).1,
            state_wf(r.0, info.width as int, info.height as int),
    {
        let mut new_dir: u8 = state.agent_dir;
        let mut new_agent_position: Point = state.agent_position;
        let mut new_carrying: u8 = state.carrying;
        let mut is_pack: u8 = state.pack_available;
        let mut pack_position: Point = state.pack_position;
        proof {
            assert(info.rotation_mapping@.dom().contains(state.agent_dir));
            assert(info.rotation_mapping@[state.agent_dir] == spec_rotation(state.agent_dir));
        }
        let fwd_position = front_pos(
            &state.agent_position,
            &state.agent_dir,
            &info.rotation_mapping,
            info.width,
            info.height,
        );
        let cell = fwd_cell(
            fwd_position,
            is_pack,
            &pack_position,
            info.rack_positions.as_slice(),
            info.feed_points.as_slice(),
        );
        match a {
            // rotate left
            0 => {
                if new_dir == 0 {
                    new_dir = new_dir + 3;
                } else {
                    new_dir = new_dir - 1;
                }
            },
            // rotate right
            1 => {
                new_dir = (new_dir + 1) % 4;
            },
            // go forward
            2 => {
                match cell {
                    CellType::Free => {
                        match fwd_position {
                            Some(fp) => {
                                new_agent_position = fp;
                            },
                            None => {},
                        }
                    },
                    _ => {},
                }
            },
            // pickup
            3 => {
                if state.carrying == 0 {
                    match cell {
                        CellType::Feed => {
                            if state.pack_available == 0 {
                                new_carrying = 1;
                            }
                        },
                        CellType::Pack => {
                            new_carrying = 1;
                            is_pack = 0;
                            pack_position = (-1, -1);
                        },
                        CellType::Rack => {
                            if state.pack_available == 0 {
                                new_carrying = 1;
                            }
                        },
                        _ => {},
                    }
                }
            },
            // place
            4 => {
                if state.carrying == 1 {
                    match cell {
                        CellType::Rack => {
                            new_carrying = 0;
                            pack_position = (-1, -1);
                            is_pack = 0;
                        },
                        CellType::Feed => {
                            new_carrying = 0;
                            pack_position = (-1, -1);
                            is_pack = 0;
                        },
                        CellType::Free => {
                            match fwd_position {
                                Some(fp) => {
                                    new_carrying = 0;
                                    pack_position = fp;
                                    is_pack = 1;
                                },
                                None => {},
                            }
                        },
                        _ => {},
                    }
                }
            },
            _ => {},
        }
        let new_state = State {
            agent_position: new_agent_position,
            carrying: new_carrying,
            agent_dir: new_dir,
            pack_available: is_pack,
            pack_position,
        };
        let warehouse_word = WarehouseWord {
            agent_position: new_agent_position,
            dir: new_dir,
            carrying: new_carrying,
            pack_position: if new_state.pack_available == 1 {
                Some(new_state.pack_position)
            } else {
                None
            },
        };
        (new_state, 1, warehouse_word)
    }

    /// Fills the dense transition and reward tables: for every state and
    /// every action, the index of the unique successor and the constant
    /// step reward `r`. Fails with a missing-entry error when some successor
    /// is not an enumerated state, and leaves the model unchanged then.
    #[verifier::loop_isolation(false)]
    pub fn warehouse_transition_map(&mut self, r: i64, info: &Info) -> (res: Result<
        (),
        PlanningError,
    >)
        requires
            info_wf(*info),
            warehouse_mapping_wf(*old(self), info.width as int, info.height as int),
            old(self).transitions@.len() == 0,
            old(self).rewards@.len() == 0,
            0 <= old(self).na,
        ensures
            final(self).states == old(self).states,
            final(self).alphabet == old(self).alphabet,
            final(self).state_mapping == old(self).state_mapping,
            final(self).na == old(self).na,
            final(self).init_state == old(self).init_state,
            match res {
                Ok(u) => {
                    &&& warehouse_model_built(*final(self), *info)
                    &&& forall|i: int, a: int|
                        0 <= i < final(self).states@.len() && 0 <= a < final(self).na
                            ==> final(self).rewards@[i]@[a] == r
                },
                Err(e) => {
                    &&& final(self).transitions == old(self).transitions
                    &&& final(self).rewards == old(self).rewards
                    &&& exists|i2: usize, a2: i32|
                        i2 < old(self).states@.len() && 0 <= a2 < old(self).na && !old(
                            self,
                        ).states@.contains(
                            spec_warehouse_step(old(self).states@[i2 as int], a2, *info).0,
                        ) && e == (PlanningError::MissingRobotState { index: i2 })
                },
            },
    {
        let ghost wi = info.width as int;
        let ghost hi = info.height as int;
        let n: usize = self.states.len();
        let mut trans: Vec<Vec<usize>> = Vec::new();
        let mut rews: Vec<Vec<i64>> = Vec::new();
        let mut i: usize = 0;
        while i < n
            invariant
                0 <= i <= n,
                trans@.len() == i,
                rews@.len() == i,
                forall|i2: int| 0 <= i2 < i ==> (#[trigger] trans@[i2])@.len() == self.na,
                forall|i2: int| 0 <= i2 < i ==> (#[trigger] rews@[i2])@.len() == self.na,
                forall|i2: int, a2: int|
                    0 <= i2 < i && 0 <= a2 < self.na ==> (#[trigger] trans@[i2]@[a2]) < n
                        && self.states@[trans@[i2]@[a2] as int] == spec_warehouse_step(
                        self.states@[i2],
                        a2 as i32,
                        *info,
                    ).0,
                forall|i2: int, a2: int|
                    0 <= i2 < i && 0 <= a2 < self.na ==> #[trigger] rews@[i2]@[a2] == r,
            decreases n - i,
        {
            let st = self.states[i];
            let mut row: Vec<usize> = Vec::new();
            let mut rrow: Vec<i64> = Vec::new();
            let mut a: i32 = 0;
            while a < self.na
                invariant
                    0 <= a <= self.na,
                    i < n,
                    st == self.states@[i as int],
                    row@.len() == a,
                    rrow@.len() == a,
                    forall|a2: int|
                        0 <= a2 < a ==> (#[trigger] row@[a2]) < n && self.states@[row@[a2] as int]
                            == spec_warehouse_step(self.states@[i as int], a2 as i32, *info).0,
                    forall|a2: int| 0 <= a2 < a ==> #[trigger] rrow@[a2] == r,
                decreases self.na - a,
            {
                let (succ, _rew, _word) = self.warehouse_step(&st, a, info);
                let k: u64 = state_key(&succ, info.width, info.height);
                let got = self.state_mapping.get(k);
                match got {
                    Some(idx) => {
                        proof {
                            assert(self.state_mapping@.dom().contains(k));
                            let target = self.states@[idx as int];
                            lemma_state_key_bounds(succ, wi, hi);
                            lemma_state_key_bounds(target, wi, hi);
                            lemma_state_key_injective(target, succ, wi, hi);
                        }
                        row.push(idx);
                        rrow.push(r);
                    },
                    None => {
                        proof {
                            if self.states@.contains(succ) {
                                let ix = choose|ix: int|
                                    0 <= ix < self.states@.len() && self.states@[ix] == succ;
                                assert(self.state_mapping@.dom().contains(
                                    state_key_u64(self.states@[ix], wi, hi),
                                ));
                                lemma_state_key_bounds(succ, wi, hi);
                                assert(false);
                            }
                        }
                        return Err(PlanningError::MissingRobotState { index: i });
                    },
                }
                a = a + 1;
            }
            trans.push(row);
            rews.push(rrow);
            i = i + 1;
        }
        self.transitions = trans;
        self.rewards = rews;
        Ok(())
    }
}

/// Any two transitions taken from the same state, with the same action and
/// context, return the very same successor, reward and word: the fine
/// environment is deterministic.
pub proof fn lemma_warehouse_step_deterministic(
    s: State,
    a: i32,
    info: Info,
    r1: (State, i64, WarehouseWord),
    r2: (State, i64, WarehouseWord),
)
    requires
        r1.0 == spec_warehouse_step(s, a, info).0,
        r1.1 == 1i64,
        r1.2 == spec_warehouse_step(s, a, info).1,
        r2.0 == spec_warehouse_step(s, a, info).0,
        r2.1 == 1i64,
        r2.2 == spec_warehouse_step(s, a, info).1,
    ensures
        r1 == r2,
{
}

/// In the corner cell `(0, 0)`, facing left or up means facing off the grid,
/// so a forward move leaves the position unchanged.
pub proof fn lemma_boundary_noop(s: State, info: Info)
    requires
        info_wf(info),
        state_wf(s, info.width as int, info.height as int),
        s.agent_position == (0i32, 0i32),
        s.agent_dir == 2 || s.agent_dir == 3,
    ensures
        spec_warehouse_step(s, 2, info).0.agent_position == s.agent_position,
{
    assert(info.rotation_mapping@.dom().contains(s.agent_dir));
}

/// Every state a built fine model holds keeps the carrying invariant: no
/// available floor pack means the sentinel pack position. Since the
/// transition table is closed over the state list, every reachable state is
/// among them.
pub proof fn lemma_carrying_invariant(m: WarehouseModel, info: Info)
    requires
        warehouse_model_built(m, info),
    ensures
        forall|i: int|
            0 <= i < m.states@.len() && (#[trigger] m.states@[i]).pack_available == 0
                ==> m.states@[i].pack_position == ((-1) as i32, (-1) as i32),
{
    assert forall|i: int|
        0 <= i < m.states@.len() && (#[trigger] m.states@[i]).pack_available == 0 implies
        m.states@[i].pack_position == ((-1) as i32, (-1) as i32) by {
        assert(state_wf(m.states@[i], info.width as int, info.height as int));
    }
}

/// A fine-resolution transition preserves well-formedness; in particular,
/// whenever no floor pack is available after the step, the pack position is
/// the sentinel `(-1, -1)`.
pub proof fn lemma_step_preserves_carrying_invariant(s: State, a: i32, info: Info)
    requires
        info_wf(info),
        state_wf(s, info.width as int, info.height as int),
    ensures
        state_wf(spec_warehouse_step(s, a, info).0, info.width as int, info.height as int),
        spec_warehouse_step(s, a, info).0.pack_available == 0 ==> spec_warehouse_step(
            s,
            a,
            info,
        ).0.pack_position == ((-1) as i32, (-1) as i32),
{
}

} // verus!
