//! The schedule codec.
//!
//! A solved product model yields one optimal action per product-state
//! index. Decoding recovers, for every index, the environment state and the
//! automaton state through the two reverse state maps, and groups the
//! resulting records first by position and then by facing direction. Since
//! several automaton states and pack configurations can share one position
//! and direction, each group holds an ordered list of records; a consumer
//! filters the list on the carrying, pack and automaton fields to find the
//! unique match. Every index of the action vector contributes exactly one
//! record.

use vstd::prelude::*;
use crate::errors::PlanningError;
use crate::high_fidelity_warehouse::{Point, State, TaskActionPair};

verus! {

/// The per-direction record lists of one position.
pub type DirectionGroup = (u8, Vec<TaskActionPair>);

/// One position with its per-direction record lists.
pub type PositionGroup = (Point, Vec<DirectionGroup>);

/// The decoded schedule: positions, each with its per-direction record
/// lists.
pub type Schedule = Vec<PositionGroup>;

/// The record decoded for product-state index `i`.
pub open spec fn spec_record_at(
    pi: Seq<i32>,
    prod: Seq<(usize, i32)>,
    env: Seq<State>,
    i: int,
) -> TaskActionPair {
    let sq = prod[i];
    let st = env[sq.0 as int];
    TaskActionPair {
        agent_dir: st.agent_dir,
        agent_position: st.agent_position,
        carrying: st.carrying,
        pack_available: st.pack_available,
        pack_position: st.pack_position,
        action: pi[i],
        q: sq.1,
    }
}

/// The decoded pose of product-state index `i`.
pub open spec fn spec_pose_at(prod: Seq<(usize, i32)>, env: Seq<State>, i: int) -> (Point, u8) {
    let st = env[prod[i].0 as int];
    (st.agent_position, st.agent_dir)
}

/// The records among the first `n` indices whose decoded pose is
/// `(pos, dir)`, in index order.
pub open spec fn spec_bucket_upto(
    pi: Seq<i32>,
    prod: Seq<(usize, i32)>,
    env: Seq<State>,
    pos: Point,
    dir: u8,
    n: int,
) -> Seq<TaskActionPair>
    decreases n,
{
    if n <= 0 {
        Seq::<TaskActionPair>::empty()
    } else {
        let rest = spec_bucket_upto(pi, prod, env, pos, dir, n - 1);
        if spec_pose_at(prod, env, n - 1) == (pos, dir) {
            rest.push(spec_record_at(pi, prod, env, n - 1))
        } else {
            rest
        }
    }
}

/// When no index below `n` decodes to the pose, its bucket prefix is empty.
proof fn lemma_bucket_upto_empty(
    pi: Seq<i32>,
    prod: Seq<(usize, i32)>,
    env: Seq<State>,
    pos: Point,
    dir: u8,
    n: int,
)
    requires
        forall|j: int| 0 <= j < n ==> spec_pose_at(prod, env, j) != (pos, dir),
    ensures
        spec_bucket_upto(pi, prod, env, pos, dir, n) == Seq::<TaskActionPair>::empty(),
    decreases n,
{
    if n > 0 {
        lemma_bucket_upto_empty(pi, prod, env, pos, dir, n - 1);
    }
}

/// How many records one position's direction lists hold.
pub open spec fn group_size(dirs: Seq<DirectionGroup>) -> int
    decreases dirs.len(),
{
    if dirs.len() == 0 {
        0
    } else {
        dirs[0].1@.len() + group_size(dirs.drop_first())
    }
}

/// How many records the whole schedule holds.
pub open spec fn total_records(sched: Seq<PositionGroup>) -> int
    decreases sched.len(),
{
    if sched.len() == 0 {
        0
    } else {
        group_size(sched[0].1@) + total_records(sched.drop_first())
    }
}

/// Appending one direction entry grows the group by that entry's records.
proof fn lemma_group_size_push(dirs: Seq<DirectionGroup>, e: DirectionGroup)
    ensures
        group_size(dirs.push(e)) == group_size(dirs) + e.1@.len(),
    decreases dirs.len(),
{
    if dirs.len() == 0 {
        assert(dirs.push(e).drop_first() =~= dirs);
    } else {
        assert(dirs.push(e).drop_first() =~= dirs.drop_first().push(e));
        lemma_group_size_push(dirs.drop_first(), e);
    }
}

/// Replacing one direction entry shifts the group size by the list-length
/// difference.
proof fn lemma_group_size_update(dirs: Seq<DirectionGroup>, d: int, e: DirectionGroup)
    requires
        0 <= d < dirs.len(),
    ensures
        group_size(dirs.update(d, e)) == group_size(dirs) - dirs[d].1@.len() + e.1@.len(),
    decreases d,
{
    if d == 0 {
        assert(dirs.update(0, e).drop_first() =~= dirs.drop_first());
    } else {
        assert(dirs.update(d, e).drop_first() =~= dirs.drop_first().update(d - 1, e));
        lemma_group_size_update(dirs.drop_first(), d - 1, e);
    }
}

/// Appending one position group grows the total by that group's records.
proof fn lemma_total_records_push(sched: Seq<PositionGroup>, g: PositionGroup)
    ensures
        total_records(sched.push(g)) == total_records(sched) + group_size(g.1@),
    decreases sched.len(),
{
    if sched.len() == 0 {
        assert(sched.push(g).drop_first() =~= sched);
    } else {
        assert(sched.push(g).drop_first() =~= sched.drop_first().push(g));
        lemma_total_records_push(sched.drop_first(), g);
    }
}

/// Replacing one position group shifts the total by the group-size
/// difference.
proof fn lemma_total_records_update(sched: Seq<PositionGroup>, b: int, g: PositionGroup)
    requires
        0 <= b < sched.len(),
    ensures
        total_records(sched.update(b, g)) == total_records(sched) - group_size(sched[b].1@)
            + group_size(g.1@),
    decreases b,
{
    if b == 0 {
        assert(sched.update(0, g).drop_first() =~= sched.drop_first());
    } else {
        assert(sched.update(b, g).drop_first() =~= sched.drop_first().update(b - 1, g));
        lemma_total_records_update(sched.drop_first(), b - 1, g);
    }
}

/// The first position group with the given position, if any.
fn find_bucket(sched: &Schedule, pos: &Point) -> (r: Option<usize>)
    ensures
        match r {
            Some(b) => (b as int) < sched@.len() && sched@[b as int].0 == *pos,
            None => forall|j: int| 0 <= j < sched@.len() ==> (#[trigger] sched@[j]).0 != *pos,
        },
{
    let n: usize = sched.len();
    let mut b: usize = 0;
    while b < n
        invariant
            0 <= b <= n,
            n == sched@.len(),
            forall|j: int| 0 <= j < b ==> (#[trigger] sched@[j]).0 != *pos,
        decreases n - b,
    {
        if sched[b].0.0 == pos.0 && sched[b].0.1 == pos.1 {
            return Some(b);
        }
        b = b + 1;
    }
    None
}

/// The first direction entry with the given direction, if any.
fn find_dir(dirs: &Vec<DirectionGroup>, dir: u8) -> (r: Option<usize>)
    ensures
        match r {
            Some(d) => (d as int) < dirs@.len() && dirs@[d as int].0 == dir,
            None => forall|j: int| 0 <= j < dirs@.len() ==> (#[trigger] dirs@[j]).0 != dir,
        },
{
    let n: usize = dirs.len();
    let mut d: usize = 0;
    while d < n
        invariant
            0 <= d <= n,
            n == dirs@.len(),
            forall|j: int| 0 <= j < d ==> (#[trigger] dirs@[j]).0 != dir,
        decreases n - d,
    {
        if dirs[d].0 == dir {
            return Some(d);
        }
        d = d + 1;
    }
    None
}

/// The decoded schedule is well formed against its inputs up to index `n`:
/// position keys are unique, direction keys are unique within a position,
/// every group list holds exactly the records of its pose among the first
/// `n` indices, and every decoded index has its group present.
pub open spec fn sched_wf(
    sched: Seq<PositionGroup>,
    pi: Seq<i32>,
    prod: Seq<(usize, i32)>,
    env: Seq<State>,
    n: int,
) -> bool {
    &&& forall|b1: int, b2: int|
        0 <= b1 < b2 < sched.len() ==> (#[trigger] sched[b1]).0 != (#[trigger] sched[b2]).0
    &&& forall|b: int, d1: int, d2: int|
        #![trigger sched[b].1@[d1], sched[b].1@[d2]]
        0 <= b < sched.len() && 0 <= d1 < d2 < sched[b].1@.len() ==> sched[b].1@[d1].0
            != sched[b].1@[d2].0
    &&& forall|b: int, d: int|
        0 <= b < sched.len() && 0 <= d < sched[b].1@.len()
            ==> (#[trigger] sched[b].1@[d]).1@ == spec_bucket_upto(
            pi,
            prod,
            env,
            sched[b].0,
            sched[b].1@[d].0,
            n,
        )
    &&& forall|i: int|
        #![trigger spec_pose_at(prod, env, i)]
        0 <= i < n ==> exists|b: int, d: int|
            #![trigger sched[b].1@[d]]
            0 <= b < sched.len() && sched[b].0 == spec_pose_at(prod, env, i).0 && 0 <= d
                < sched[b].1@.len() && sched[b].1@[d].0 == spec_pose_at(prod, env, i).1
}

/// Decodes an optimal-action vector into a schedule. Every product-state
/// index is resolved through the product reverse state map and the
/// environment reverse state map, and contributes exactly one record to the
/// list of its position and direction. An index that either reverse map
/// cannot resolve is a fatal missing-entry error.
#[verifier::loop_isolation(false)]
pub fn create_decoded_sched_to_file(
    pi: &Vec<i32>,
    reverse_state_map: &Vec<(usize, i32)>,
    robot_reverse_state_map: &Vec<State>,
) -> (r: Result<Schedule, PlanningError>)
    ensures
        r is Ok <==> pi@.len() <= reverse_state_map@.len() && (forall|i: int|
            0 <= i < pi@.len() ==> ((#[trigger] reverse_state_map@[i]).0 as int)
                < robot_reverse_state_map@.len()),
        match r {
            Ok(sched) => {
                &&& sched_wf(
                    sched@,
                    pi@,
                    reverse_state_map@,
                    robot_reverse_state_map@,
                    pi@.len() as int,
                )
                &&& total_records(sched@) == pi@.len()
            },
            Err(e) => {
                ||| (e == (PlanningError::MissingProductState {
                    index: reverse_state_map@.len() as usize,
                }) && pi@.len() > reverse_state_map@.len())
                ||| exists|i: int|
                    0 <= i < pi@.len() && ((#[trigger] reverse_state_map@[i]).0 as int)
                        >= robot_reverse_state_map@.len() && e == (
                    PlanningError::MissingRobotState { index: reverse_state_map@[i].0 })
            },
        },
{
    let ghost piv = pi@;
    let ghost prod = reverse_state_map@;
    let ghost env = robot_reverse_state_map@;
    if pi.len() > reverse_state_map.len() {
        return Err(PlanningError::MissingProductState { index: reverse_state_map.len() });
    }
    let mut sched: Schedule = Vec::new();
    let mut sidx: usize = 0;
    while sidx < pi.len()
        invariant
            0 <= sidx <= piv.len(),
            piv.len() <= prod.len(),
            sched_wf(sched@, piv, prod, env, sidx as int),
            total_records(sched@) == sidx,
            forall|i: int| 0 <= i < sidx ==> ((#[trigger] prod[i]).0 as int) < env.len(),
        decreases piv.len() - sidx,
    {
        let sq = reverse_state_map[sidx];
        let s: usize = sq.0;
        let q: i32 = sq.1;
        if s >= robot_reverse_state_map.len() {
            return Err(PlanningError::MissingRobotState { index: s });
        }
        let st = robot_reverse_state_map[s];
        let rec = TaskActionPair {
            agent_dir: st.agent_dir,
            agent_position: st.agent_position,
            carrying: st.carrying,
            pack_available: st.pack_available,
            pack_position: st.pack_position,
            action: pi[sidx],
            q,
        };
        proof {
            assert(rec == spec_record_at(piv, prod, env, sidx as int));
            assert(spec_pose_at(prod, env, sidx as int) == (st.agent_position, st.agent_dir));
        }
        let ghost oldsched = sched@;
        match find_bucket(&sched, &st.agent_position) {
            None => {
                let mut lst: Vec<TaskActionPair> = Vec::new();
                lst.push(rec);
                let mut dirs: Vec<DirectionGroup> = Vec::new();
                dirs.push((st.agent_dir, lst));
                let g: PositionGroup = (st.agent_position, dirs);
                let ghost gg = g;
                sched.push(g);
                proof {
                    let news = sched@;
                    let nb = oldsched.len() as int;
                    assert(news == oldsched.push(gg));
                    assert forall|j: int|
                        0 <= j < sidx as int implies spec_pose_at(prod, env, j) != (
                        st.agent_position,
                        st.agent_dir,
                    ) by {
                        if spec_pose_at(prod, env, j) == (st.agent_position, st.agent_dir) {
                            let (b0, d0) = choose|b0: int, d0: int|
                                #![trigger oldsched[b0].1@[d0]]
                                0 <= b0 < oldsched.len() && oldsched[b0].0
                                    == spec_pose_at(prod, env, j).0 && 0 <= d0
                                    < oldsched[b0].1@.len() && oldsched[b0].1@[d0].0
                                    == spec_pose_at(prod, env, j).1;
                            assert(oldsched[b0].0 == st.agent_position);
                        }
                    }
                    lemma_bucket_upto_empty(
                        piv,
                        prod,
                        env,
                        st.agent_position,
                        st.agent_dir,
                        sidx as int,
                    );
                    assert(news[nb].1@[0].1@ =~= spec_bucket_upto(
                        piv,
                        prod,
                        env,
                        st.agent_position,
                        st.agent_dir,
                        sidx as int + 1,
                    ));
                    assert forall|b: int, d: int|
                        0 <= b < news.len() && 0 <= d < (#[trigger] news[b]).1@.len() implies (
                    #[trigger] news[b].1@[d]).1@ == spec_bucket_upto(
                        piv,
                        prod,
                        env,
                        news[b].0,
                        news[b].1@[d].0,
                        sidx as int + 1,
                    ) by {
                        if b < nb {
                            assert(news[b] == oldsched[b]);
                            assert(news[b].0 != st.agent_position);
                            assert(spec_pose_at(prod, env, sidx as int) != (
                                news[b].0,
                                news[b].1@[d].0,
                            ));
                        }
                    }
                    lemma_total_records_push(oldsched, gg);
                    assert(group_size(gg.1@) == 1) by {
                        assert(gg.1@.drop_first() =~= Seq::<DirectionGroup>::empty());
                        assert(group_size(gg.1@.drop_first()) == 0);
                        assert(gg.1@[0].1@.len() == 1);
                    }
                    assert forall|i: int|
                        #![trigger spec_pose_at(prod, env, i)]
                    0 <= i < sidx as int + 1 implies exists|b: int, d: int|
                        #![trigger news[b].1@[d]]
                        0 <= b < news.len() && news[b].0 == spec_pose_at(
                            prod,
                            env,
                            i,
                        ).0 && 0 <= d < news[b].1@.len() && news[b].1@[d].0 == spec_pose_at(
                            prod,
                            env,
                            i,
                        ).1 by {
                        if i < sidx as int {
                            let (b0, d0) = choose|b0: int, d0: int|
                                #![trigger oldsched[b0].1@[d0]]
                                0 <= b0 < oldsched.len() && oldsched[b0].0
                                    == spec_pose_at(prod, env, i).0 && 0 <= d0
                                    < oldsched[b0].1@.len() && oldsched[b0].1@[d0].0
                                    == spec_pose_at(prod, env, i).1;
                            assert(news[b0] == oldsched[b0]);
                            assert(0 <= b0 < news.len() && news[b0].0 == spec_pose_at(
                                prod,
                                env,
                                i,
                            ).0 && 0 <= d0 < news[b0].1@.len() && news[b0].1@[d0].0
                                == spec_pose_at(prod, env, i).1);
                        } else {
                            assert(0 <= nb < news.len() && news[nb].0 == spec_pose_at(
                                prod,
                                env,
                                i,
                            ).0 && 0 <= 0 < news[nb].1@.len() && news[nb].1@[0].0
                                == spec_pose_at(prod, env, i).1);
                        }
                    }
                }
            },
            Some(b) => {
                let mut group = sched.remove(b);
                let ghost olddirs = group.1@;
                proof {
                    assert(sched_wf(oldsched, piv, prod, env, sidx as int));
                    assert(group.0 == oldsched[b as int].0);
                    assert(group.0 == st.agent_position);
                }
                match find_dir(&group.1, st.agent_dir) {
                    None => {
                        let mut lst: Vec<TaskActionPair> = Vec::new();
                        lst.push(rec);
                        let e: DirectionGroup = (st.agent_dir, lst);
                        let ghost ge = e;
                        group.1.push(e);
                        let ghost ggroup = group;
                        let ghost newdirs = group.1@;
                        sched.insert(b, group);
                        proof {
                            let news = sched@;
                            let nd = olddirs.len() as int;
                            assert(newdirs == olddirs.push(ge));
                            assert(news =~= oldsched.update(b as int, ggroup));
                            assert(news[b as int].0 == st.agent_position);
                            assert(news[b as int].1@ == newdirs);
                            lemma_total_records_update(oldsched, b as int, ggroup);
                            lemma_group_size_push(olddirs, ge);
                            assert(ge.1@.len() == 1);
                            // no earlier index decodes to this position and direction
                            assert forall|j: int|
                                0 <= j < sidx as int implies spec_pose_at(prod, env, j) != (
                                st.agent_position,
                                st.agent_dir,
                            ) by {
                                if spec_pose_at(prod, env, j) == (st.agent_position, st.agent_dir) {
                                    let (b0, d0) = choose|b0: int, d0: int|
                                        #![trigger oldsched[b0].1@[d0]]
                                        0 <= b0 < oldsched.len() && oldsched[b0].0
                                            == spec_pose_at(prod, env, j).0 && 0 <= d0
                                            < oldsched[b0].1@.len() && oldsched[b0].1@[d0].0
                                            == spec_pose_at(prod, env, j).1;
                                    assert(b0 == b as int);
                                    assert(olddirs[d0].0 == st.agent_dir);
                                }
                            }
                            lemma_bucket_upto_empty(
                                piv,
                                prod,
                                env,
                                st.agent_position,
                                st.agent_dir,
                                sidx as int,
                            );
                            assert(newdirs[nd].1@ =~= spec_bucket_upto(
                                piv,
                                prod,
                                env,
                                st.agent_position,
                                st.agent_dir,
                                sidx as int + 1,
                            ));
                            assert forall|bb: int, dd: int|
                                0 <= bb < news.len() && 0 <= dd < news[bb].1@.len() implies (
                            #[trigger] news[bb].1@[dd]).1@ == spec_bucket_upto(
                                piv,
                                prod,
                                env,
                                news[bb].0,
                                news[bb].1@[dd].0,
                                sidx as int + 1,
                            ) by {
                                if bb != b as int {
                                    assert(news[bb] == oldsched[bb]);
                                    assert(news[bb].0 != st.agent_position);
                                    assert(spec_pose_at(prod, env, sidx as int) != (
                                        news[bb].0,
                                        news[bb].1@[dd].0,
                                    ));
                                    assert(oldsched[bb].1@[dd].1@ == spec_bucket_upto(
                                        piv,
                                        prod,
                                        env,
                                        oldsched[bb].0,
                                        oldsched[bb].1@[dd].0,
                                        sidx as int,
                                    ));
                                } else {
                                    if dd < nd {
                                        assert(news[bb].1@[dd] == olddirs[dd]);
                                        assert(oldsched[b as int].1@[dd] == olddirs[dd]);
                                        assert(olddirs[dd].0 != st.agent_dir);
                                        assert(spec_pose_at(prod, env, sidx as int) != (
                                            news[bb].0,
                                            news[bb].1@[dd].0,
                                        ));
                                    } else {
                                        assert(news[bb].1@[dd] == ge);
                                    }
                                }
                            }
                            assert forall|i: int|
                                #![trigger spec_pose_at(prod, env, i)]
                            0 <= i < sidx as int + 1 implies exists|b0: int, d0: int|
                                #![trigger news[b0].1@[d0]]
                                0 <= b0 < news.len() && news[b0].0 == spec_pose_at(
                                    prod,
                                    env,
                                    i,
                                ).0 && 0 <= d0 < news[b0].1@.len() && news[b0].1@[d0].0
                                == spec_pose_at(prod, env, i).1 by {
                                if i < sidx as int {
                                    let (b0, d0) = choose|b0: int, d0: int|
                                        #![trigger oldsched[b0].1@[d0]]
                                        0 <= b0 < oldsched.len() && oldsched[b0].0
                                            == spec_pose_at(prod, env, i).0 && 0 <= d0
                                            < oldsched[b0].1@.len() && oldsched[b0].1@[d0].0
                                            == spec_pose_at(prod, env, i).1;
                                    if b0 == b as int {
                                        assert(news[b0].1@[d0] == olddirs[d0]);
                                        assert(0 <= b0 < news.len() && news[b0].0
                                            == spec_pose_at(prod, env, i).0 && 0 <= d0
                                            < news[b0].1@.len() && news[b0].1@[d0].0
                                            == spec_pose_at(prod, env, i).1);
                                    } else {
                                        assert(news[b0] == oldsched[b0]);
                                        assert(0 <= b0 < news.len() && news[b0].0
                                            == spec_pose_at(prod, env, i).0 && 0 <= d0
                                            < news[b0].1@.len() && news[b0].1@[d0].0
                                            == spec_pose_at(prod, env, i).1);
                                    }
                                } else {
                                    assert(0 <= (b as int) < news.len() && news[b as int].0
                                        == spec_pose_at(prod, env, i).0 && 0 <= nd
                                        < news[b as int].1@.len() && news[b as int].1@[nd].0
                                        == spec_pose_at(prod, env, i).1);
                                }
                            }
                        }
                    },
                    Some(d) => {
                        let mut entry = group.1.remove(d);
                        entry.1.push(rec);
                        let ghost ge = entry;
                        group.1.insert(d, entry);
                        proof {
                            assert(group.1@ =~= olddirs.update(d as int, ge));
                            assert(ge.0 == olddirs[d as int].0);
                            assert(ge.1@ == olddirs[d as int].1@.push(
                                spec_record_at(piv, prod, env, sidx as int),
                            ));
                            lemma_group_size_update(olddirs, d as int, ge);
                        }
                        let ghost ggroup = group;
                        let ghost newdirs = group.1@;
                        sched.insert(b, group);
                        proof {
                            let news = sched@;
                            assert(news =~= oldsched.update(b as int, ggroup));
                            assert(news[b as int].0 == st.agent_position);
                            assert(news[b as int].1@ == newdirs);
                            lemma_total_records_update(oldsched, b as int, ggroup);
                            assert forall|bb: int, dd: int|
                                0 <= bb < news.len() && 0 <= dd < news[bb].1@.len() implies (
                            #[trigger] news[bb].1@[dd]).1@ == spec_bucket_upto(
                                piv,
                                prod,
                                env,
                                news[bb].0,
                                news[bb].1@[dd].0,
                                sidx as int + 1,
                            ) by {
                                if bb != b as int {
                                    assert(news[bb] == oldsched[bb]);
                                    assert(news[bb].0 != st.agent_position);
                                    assert(spec_pose_at(prod, env, sidx as int) != (
                                        news[bb].0,
                                        news[bb].1@[dd].0,
                                    ));
                                    assert(oldsched[bb].1@[dd].1@ == spec_bucket_upto(
                                        piv,
                                        prod,
                                        env,
                                        oldsched[bb].0,
                                        oldsched[bb].1@[dd].0,
                                        sidx as int,
                                    ));
                                } else {
                                    if dd != d as int {
                                        assert(news[bb].1@[dd] == olddirs[dd]);
                                        assert(oldsched[b as int].1@[dd] == olddirs[dd]);
                                        assert(olddirs[d as int].0 == st.agent_dir);
                                        assert(olddirs[dd].0 != st.agent_dir);
                                        assert(spec_pose_at(prod, env, sidx as int) != (
                                            news[bb].0,
                                            news[bb].1@[dd].0,
                                        ));
                                    } else {
                                        assert(news[bb].1@[dd] == ge);
                                        assert(oldsched[b as int].1@[d as int] == olddirs[
                                            d as int
                                        ]);
                                        assert(olddirs[d as int].1@ == spec_bucket_upto(
                                            piv,
                                            prod,
                                            env,
                                            st.agent_position,
                                            st.agent_dir,
                                            sidx as int,
                                        ));
                                        assert(spec_pose_at(prod, env, sidx as int) == (
                                            news[bb].0,
                                            news[bb].1@[dd].0,
                                        ));
                                    }
                                }
                            }
                            assert forall|i: int|
                                #![trigger spec_pose_at(prod, env, i)]
                            0 <= i < sidx as int + 1 implies exists|b0: int, d0: int|
                                #![trigger news[b0].1@[d0]]
                                0 <= b0 < news.len() && news[b0].0 == spec_pose_at(
                                    prod,
                                    env,
                                    i,
                                ).0 && 0 <= d0 < news[b0].1@.len() && news[b0].1@[d0].0
                                == spec_pose_at(prod, env, i).1 by {
                                if i < sidx as int {
                                    let (b0, d0) = choose|b0: int, d0: int|
                                        #![trigger oldsched[b0].1@[d0]]
                                        0 <= b0 < oldsched.len() && oldsched[b0].0
                                            == spec_pose_at(prod, env, i).0 && 0 <= d0
                                            < oldsched[b0].1@.len() && oldsched[b0].1@[d0].0
                                            == spec_pose_at(prod, env, i).1;
                                    if b0 == b as int {
                                        if d0 == d as int {
                                            assert(news[b0].1@[d0] == ge);
                                            assert(0 <= b0 < news.len() && news[b0].0
                                                == spec_pose_at(prod, env, i).0 && 0 <= d0
                                                < news[b0].1@.len() && news[b0].1@[d0].0
                                                == spec_pose_at(prod, env, i).1);
                                        } else {
                                            assert(news[b0].1@[d0] == olddirs[d0]);
                                            assert(0 <= b0 < news.len() && news[b0].0
                                                == spec_pose_at(prod, env, i).0 && 0 <= d0
                                                < news[b0].1@.len() && news[b0].1@[d0].0
                                                == spec_pose_at(prod, env, i).1);
                                        }
                                    } else {
                                        assert(news[b0] == oldsched[b0]);
                                        assert(0 <= b0 < news.len() && news[b0].0
                                            == spec_pose_at(prod, env, i).0 && 0 <= d0
                                            < news[b0].1@.len() && news[b0].1@[d0].0
                                            == spec_pose_at(prod, env, i).1);
                                    }
                                } else {
                                    assert(news[b as int].1@[d as int] == ge);
                                    assert(0 <= (b as int) < news.len() && news[b as int].0
                                        == spec_pose_at(prod, env, i).0 && 0 <= (d as int)
                                        < news[b as int].1@.len() && news[b as int].1@[
                                        d as int
                                    ].0 == spec_pose_at(prod, env, i).1);
                                }
                            }
                        }
                    },
                }
            },
        }
        sidx = sidx + 1;
    }
    Ok(sched)
}

} // verus!
