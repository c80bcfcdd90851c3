//! Phase one: from any cube to the subgroup where edges are oriented, corners are
//! oriented and the middle-slice edges sit in the middle slice, with all eighteen
//! moves, by iterative deepening over the edge orientation, corner orientation and
//! slice coordinates. The search is resumable: each call of `next` continues where the
//! previous one stopped and yields the next solution of the current depth bound.

use vstd::prelude::*;
use crate::cube::{Cube, CubeState};
use crate::coords::{KociembaCube, eo_coord, co_coord, uds_coord};
use crate::moves::{SingleMove, spec_move_at, move_at};
use crate::colors::{valid_state, lemma_turn_keeps_valid};
use crate::cube::{turned, apply_moves, lemma_apply_push};
use crate::search::{
    in_g1,
    axes_ok,
    step_ok,
    may_follow,
    may_follow_exec,
    last_axis_of,
    last_last_axis_of,
    lemma_axes_push,
    lemma_axes_prefix,
    dfs_measure,
    Frame,
    Coords,
    frame_coords,
    stack_path,
    tried_of,
    lemma_path_prefix,
    lemma_path_grow,
    lemma_measure_bump,
    lemma_measure_descend,
    lemma_measure_pop,
    done_at,
    passed,
    linked,
    lemma_descend_unpassed,
};

verus! {

/// The lookup tables of phase one. Move tables hold eighteen entries per coordinate
/// value, one per move of the standard list: `eo_move` for the 2048 edge orientations,
/// `co_move` for the 2187 corner orientations, `uds_move` for the 495 slice positions.
/// The pruning tables hold, per slice position and edge (or corner) orientation, a
/// lower bound on the moves left.
pub struct G1Tables {
    pub eo_move: Vec<u16>,
    pub co_move: Vec<u16>,
    pub uds_move: Vec<u16>,
    pub eo_uds_table: Vec<u8>,
    pub co_uds_table: Vec<u8>,
}

impl G1Tables {
    /// The tables have their sizes, and every move-table entry is a coordinate value.
    pub open spec fn wf(&self) -> bool {
        &&& self.eo_move@.len() == 36864
        &&& self.co_move@.len() == 39366
        &&& self.uds_move@.len() == 8910
        &&& self.eo_uds_table@.len() == 1013760
        &&& self.co_uds_table@.len() == 1082565
        &&& forall|i: int| 0 <= i < 36864 ==> #[trigger] self.eo_move@[i] < 2048
        &&& forall|i: int| 0 <= i < 39366 ==> #[trigger] self.co_move@[i] < 2187
        &&& forall|i: int| 0 <= i < 8910 ==> #[trigger] self.uds_move@[i] < 495
    }
}

pub open spec fn g1_in_range(st: Coords) -> bool {
    0 <= st.0 < 2048 && 0 <= st.1 < 2187 && 0 <= st.2 < 495
}

/// The phase-one coordinates of a cube state.
pub open spec fn g1_coords(s: CubeState) -> Coords {
    (eo_coord(s), co_coord(s), uds_coord(s))
}

/// The estimate of the moves left: the larger of the two pruning-table entries.
pub open spec fn g1_h(t: G1Tables, st: Coords) -> int {
    let a = t.eo_uds_table@[st.2 * 2048 + st.0] as int;
    let b = t.co_uds_table@[st.2 * 2187 + st.1] as int;
    if a >= b {
        a
    } else {
        b
    }
}

/// The position after move `m` of the standard list, by the move tables.
pub open spec fn g1_step(t: G1Tables, st: Coords, m: int) -> Coords {
    (
        t.eo_move@[st.0 * 18 + m] as int,
        t.co_move@[st.1 * 18 + m] as int,
        t.uds_move@[st.2 * 18 + m] as int,
    )
}

/// The position after a sequence of moves.
pub open spec fn g1_run(t: G1Tables, st: Coords, path: Seq<int>) -> Coords
    decreases path.len(),
{
    if path.len() == 0 {
        st
    } else {
        g1_step(t, g1_run(t, st, path.drop_last()), path.last())
    }
}

/// The moves that a sequence of move numbers stands for.
pub open spec fn moves_of(path: Seq<int>) -> Seq<SingleMove> {
    path.map_values(|i: int| spec_move_at(i))
}

/// `path` (move numbers 0 to 17, axes in search order) leads from `st` to a position
/// whose estimate is 0.
pub open spec fn g1_solves(t: G1Tables, st: Coords, path: Seq<int>) -> bool {
    &&& forall|i: int| 0 <= i < path.len() ==> 0 <= #[trigger] path[i] < 18
    &&& axes_ok(moves_of(path))
    &&& g1_h(t, g1_run(t, st, path)) == 0
}

/// The move numbers of a returned path, as integers.
pub open spec fn path_ints(path: Seq<usize>) -> Seq<int> {
    path.map_values(|i: usize| i as int)
}

/// The phase-one tables follow the cube: each move of the standard list moves the
/// coordinates of every complete cube as the move tables say, and the pruning tables
/// rate a complete cube 0 exactly when it lies in the phase-two group.
pub open spec fn g1_exact(t: G1Tables) -> bool {
    &&& forall|s: CubeState, m: int|
        valid_state(s) && 0 <= m < 18 ==> #[trigger] g1_coords(turned(s, spec_move_at(m))) == g1_step(
            t,
            g1_coords(s),
            m,
        )
    &&& forall|s: CubeState| valid_state(s) ==> (#[trigger] g1_h(t, g1_coords(s)) == 0 <==> in_g1(s))
}

/// Under exact tables, a run of the move tables is the coordinates of the cube the
/// moves give, which stays complete.
pub proof fn lemma_g1_run_exact(t: G1Tables, s: CubeState, p: Seq<int>)
    requires
        g1_exact(t),
        valid_state(s),
        forall|i: int| 0 <= i < p.len() ==> 0 <= #[trigger] p[i] < 18,
    ensures
        valid_state(apply_moves(s, moves_of(p))),
        g1_coords(apply_moves(s, moves_of(p))) == g1_run(t, g1_coords(s), p),
    decreases p.len(),
{
    if p.len() == 0 {
        assert(moves_of(p) =~= Seq::<SingleMove>::empty());
    } else {
        let q = p.drop_last();
        let m = p.last();
        assert forall|i: int| 0 <= i < q.len() implies 0 <= #[trigger] q[i] < 18 by {
            assert(q[i] == p[i]);
        }
        lemma_g1_run_exact(t, s, q);
        assert(moves_of(p) =~= moves_of(q).push(spec_move_at(m)));
        lemma_apply_push(s, moves_of(q), spec_move_at(m));
        let a = apply_moves(s, moves_of(q));
        assert(0 <= m < 18) by {
            assert(p[p.len() - 1] == m);
        }
        lemma_turn_keeps_valid(a, spec_move_at(m));
        assert(g1_coords(turned(a, spec_move_at(m))) == g1_step(t, g1_coords(a), m));
    }
}

/// Under exact tables, a phase-one answer leads a complete cube into the phase-two
/// group.
pub proof fn lemma_g1_answer_reaches_g1(t: G1Tables, s: CubeState, path: Seq<int>)
    requires
        g1_exact(t),
        valid_state(s),
        g1_solves(t, g1_coords(s), path),
    ensures
        in_g1(apply_moves(s, moves_of(path))),
{
    lemma_g1_run_exact(t, s, path);
}

/// Under exact tables, a solution that the search hands out leads a complete cube into
/// the phase-two group, and no proper prefix of it does.
pub proof fn lemma_first_reaches_g1(t: G1Tables, s: CubeState, p: Seq<int>, limit: int)
    requires
        g1_exact(t),
        valid_state(s),
        g1_first(t, g1_coords(s), p, limit),
    ensures
        in_g1(apply_moves(s, moves_of(p))),
        forall|k: int| 0 <= k < p.len() ==> !in_g1(#[trigger] apply_moves(s, moves_of(p.take(k)))),
{
    lemma_g1_run_exact(t, s, p);
    assert forall|k: int| 0 <= k < p.len() implies !in_g1(#[trigger] apply_moves(s, moves_of(p.take(k)))) by {
        let q = p.take(k);
        assert forall|i: int| 0 <= i < q.len() implies 0 <= #[trigger] q[i] < 18 by {
            assert(q[i] == p[i]);
        }
        lemma_g1_run_exact(t, s, q);
        assert(g1_h(t, g1_run(t, g1_coords(s), p.take(k))) != 0);
    }
}

/// The estimate for a position, read from the pruning tables.
fn g1_estimate(t: &G1Tables, eo: usize, co: usize, uds: usize) -> (h: usize)
    requires
        t.wf(),
        g1_in_range((eo as int, co as int, uds as int)),
    ensures
        h == g1_h(*t, (eo as int, co as int, uds as int)),
        h <= 255,
{
    assert(uds * 2048 + eo < 1013760) by (nonlinear_arith)
        requires
            uds < 495,
            eo < 2048,
    ;
    assert(uds * 2187 + co < 1082565) by (nonlinear_arith)
        requires
            uds < 495,
            co < 2187,
    ;
    let a = t.eo_uds_table[uds * 2048 + eo];
    let b = t.co_uds_table[uds * 2187 + co];
    if a >= b {
        a as usize
    } else {
        b as usize
    }
}

spec fn frame_ok(t: G1Tables, start: Coords, stack: Seq<Frame>, k: int, limit: int) -> bool {
    let f = stack[k];
    let path = stack_path(stack, k);
    &&& frame_coords(f) == g1_run(t, start, path)
    &&& g1_in_range(frame_coords(f))
    &&& f.depth == k
    &&& k <= limit
    &&& f.move_idx <= 18
    &&& 0 < f.move_idx < 18 ==> g1_h(t, frame_coords(f)) > 0
    &&& k < stack.len() - 1 ==> g1_h(t, frame_coords(f)) > 0
    &&& k < stack.len() - 1 ==> k + g1_h(t, frame_coords(f)) <= limit
    &&& (k >= 1 ==> f.last_move_idx < 18)
    &&& f.last_axis == last_axis_of(moves_of(path))
    &&& f.last_last_axis == last_last_axis_of(moves_of(path))
}

spec fn stack_ok(t: G1Tables, start: Coords, stack: Seq<Frame>, limit: int) -> bool {
    &&& forall|k: int| 0 <= k < stack.len() ==> #[trigger] frame_ok(t, start, stack, k, limit)
    &&& stack.len() >= 1 ==> axes_ok(moves_of(stack_path(stack, stack.len() - 1)))
    &&& g1_h(t, start) > limit ==> stack.len() <= 1
}

proof fn lemma_moves_push(path: Seq<int>, m: int)
    ensures
        moves_of(path.push(m)) == moves_of(path).push(spec_move_at(m)),
        moves_of(path).len() == path.len(),
{
    assert(moves_of(path.push(m)) =~= moves_of(path).push(spec_move_at(m)));
}

proof fn lemma_moves_take(path: Seq<int>, k: int)
    requires
        0 <= k <= path.len(),
    ensures
        moves_of(path.take(k)) == moves_of(path).take(k),
{
    assert(moves_of(path.take(k)) =~= moves_of(path).take(k));
}

/// Replacing the top frame by one with more moves tried keeps the stack in order.
proof fn lemma_stack_bump(t: G1Tables, start: Coords, stack: Seq<Frame>, limit: int, f: Frame)
    requires
        stack_ok(t, start, stack, limit),
        stack.len() >= 1,
        f == (Frame { move_idx: f.move_idx, ..stack.last() }),
        stack.last().move_idx < f.move_idx <= 18,
        f.move_idx < 18 ==> g1_h(t, frame_coords(stack.last())) > 0,
    ensures
        stack_ok(t, start, stack.drop_last().push(f), limit),
{
    let n = stack.len() as int;
    let s2 = stack.drop_last().push(f);
    assert forall|k: int| 0 <= k < n implies #[trigger] frame_ok(t, start, s2, k, limit) by {
        assert(frame_ok(t, start, stack, k, limit));
        assert(stack_path(s2, k) =~= stack_path(stack, k));
    }
    assert(stack_path(s2, n - 1) =~= stack_path(stack, n - 1));
}

/// Dropping the top frame keeps the stack in order.
proof fn lemma_stack_pop(t: G1Tables, start: Coords, stack: Seq<Frame>, limit: int)
    requires
        stack_ok(t, start, stack, limit),
        stack.len() >= 1,
    ensures
        stack_ok(t, start, stack.drop_last(), limit),
{
    let n = stack.len() as int;
    let s2 = stack.drop_last();
    assert forall|k: int| 0 <= k < n - 1 implies #[trigger] frame_ok(t, start, s2, k, limit) by {
        assert(frame_ok(t, start, stack, k, limit));
        lemma_path_prefix(stack, n - 1, k);
    }
    if n >= 2 {
        lemma_path_prefix(stack, n - 1, n - 2);
        lemma_moves_take(stack_path(stack, n - 1), n - 2);
        lemma_axes_prefix(moves_of(stack_path(stack, n - 1)), n - 2);
    }
}

/// Pushing the frame that move `m` leads to keeps the stack in order.
proof fn lemma_stack_push(t: G1Tables, start: Coords, stack: Seq<Frame>, limit: int, f: Frame)
    requires
        t.wf(),
        stack_ok(t, start, stack, limit),
        stack.len() >= 1,
        0 <= f.last_move_idx < 18,
        stack.len() <= limit,
        g1_h(t, start) <= limit,
        g1_h(t, frame_coords(stack.last())) > 0,
        (stack.len() - 1) + g1_h(t, frame_coords(stack.last())) <= limit,
        may_follow(
            stack.last().last_axis,
            stack.last().last_last_axis,
            spec_move_at(f.last_move_idx as int).axis,
        ),
        frame_coords(f) == g1_step(t, frame_coords(stack.last()), f.last_move_idx as int),
        f.move_idx == 0,
        f.depth == stack.len(),
        f.last_axis == Some(spec_move_at(f.last_move_idx as int).axis),
        f.last_last_axis == stack.last().last_axis,
    ensures
        stack_ok(t, start, stack.push(f), limit),
{
    let n = stack.len() as int;
    let s2 = stack.push(f);
    let top = stack.last();
    assert(frame_ok(t, start, stack, n - 1, limit));
    let p = stack_path(stack, n - 1);
    let m = f.last_move_idx as int;
    assert forall|k: int| 0 <= k <= n implies #[trigger] frame_ok(t, start, s2, k, limit) by {
        lemma_path_grow(stack, f, k);
        if k < n {
            assert(frame_ok(t, start, stack, k, limit));
            assert(s2[k] == stack[k]);
        } else {
            assert(s2[k] == f);
            assert(stack_path(s2, n) =~= p.push(m));
            assert(p.push(m).drop_last() =~= p);
            lemma_moves_push(p, m);
            let q = frame_coords(top);
            assert(0 <= q.0 * 18 + m < 36864) by (nonlinear_arith)
                requires
                    0 <= q.0 < 2048,
                    0 <= m < 18,
            ;
            assert(0 <= q.1 * 18 + m < 39366) by (nonlinear_arith)
                requires
                    0 <= q.1 < 2187,
                    0 <= m < 18,
            ;
            assert(0 <= q.2 * 18 + m < 8910) by (nonlinear_arith)
                requires
                    0 <= q.2 < 495,
                    0 <= m < 18,
            ;
            let mv = moves_of(p);
            if n >= 2 {
                assert(mv.push(spec_move_at(m))[mv.len() - 1] == mv[mv.len() - 1]);
            }
        }
    }
    assert(stack_path(s2, n) =~= p.push(m));
    lemma_moves_push(p, m);
    lemma_axes_push(moves_of(p), spec_move_at(m));
}

/// `p` is a solution that a search with bound `limit` reaches: move numbers 0 to 17,
/// axes in search order, every prefix's length plus the estimate after it within the
/// bound, and estimate 0 at the end.
pub open spec fn g1_bounded(t: G1Tables, st: Coords, p: Seq<int>, limit: int) -> bool {
    &&& forall|i: int| 0 <= i < p.len() ==> 0 <= #[trigger] p[i] < 18
    &&& axes_ok(moves_of(p))
    &&& forall|j: int| 0 <= j <= p.len() ==> j + g1_h(t, #[trigger] g1_run(t, st, p.take(j))) <= limit
    &&& g1_h(t, g1_run(t, st, p)) == 0
}

/// No search whose bound lies below the estimate of the start reaches a solution.
proof fn lemma_bounded_start(t: G1Tables, st: Coords, p: Seq<int>, l: int)
    requires
        l < g1_h(t, st),
    ensures
        !g1_bounded(t, st, p, l),
{
    assert(p.take(0) =~= Seq::<int>::empty());
    assert(g1_run(t, st, p.take(0)) == st);
}

/// Whether a move may follow is the axis rule at that place of the sequence.
proof fn lemma_step_is_follow(p: Seq<int>, stack: Seq<Frame>, t: G1Tables, start: Coords, limit: int)
    requires
        stack_ok(t, start, stack, limit),
        stack.len() >= 1,
        p.len() > stack.len() - 1,
        p.take(stack.len() - 1) == stack_path(stack, stack.len() - 1),
        axes_ok(moves_of(p)),
    ensures
        may_follow(
            stack.last().last_axis,
            stack.last().last_last_axis,
            spec_move_at(p[stack.len() - 1]).axis,
        ),
{
    let n = stack.len() as int;
    assert(frame_ok(t, start, stack, n - 1, limit));
    let ms = moves_of(p);
    let pre = moves_of(stack_path(stack, n - 1));
    assert(pre =~= ms.take(n - 1)) by {
        lemma_moves_take(p, n - 1);
    }
    if n - 1 >= 1 {
        assert(step_ok(ms, n - 1));
        assert(pre.last() == ms[n - 2]);
        if n - 1 >= 2 {
            assert(pre[pre.len() - 2] == ms[n - 3]);
        }
    }
}

/// `p` is a solution that a search with bound `limit` hands out: a bounded solution
/// no proper prefix of which is already rated 0.
pub open spec fn g1_first(t: G1Tables, st: Coords, p: Seq<int>, limit: int) -> bool {
    &&& g1_bounded(t, st, p, limit)
    &&& forall|k: int| 0 <= k < p.len() ==> g1_h(t, #[trigger] g1_run(t, st, p.take(k))) != 0
}

/// Every bounded solution has a prefix that the search hands out.
pub proof fn lemma_first_prefix(t: G1Tables, st: Coords, p: Seq<int>, limit: int)
    requires
        g1_bounded(t, st, p, limit),
    ensures
        exists|q: Seq<int>| #[trigger] g1_first(t, st, q, limit),
    decreases p.len(),
{
    if exists|k: int| 0 <= k < p.len() && g1_h(t, #[trigger] g1_run(t, st, p.take(k))) == 0 {
        let k = choose|k: int| 0 <= k < p.len() && g1_h(t, #[trigger] g1_run(t, st, p.take(k))) == 0;
        let q = p.take(k);
        assert forall|i: int| 0 <= i < q.len() implies 0 <= #[trigger] q[i] < 18 by {
            assert(q[i] == p[i]);
        }
        lemma_moves_take(p, k);
        lemma_axes_prefix(moves_of(p), k);
        assert(moves_of(q) =~= moves_of(p).take(k));
        assert forall|j: int| 0 <= j <= q.len() implies j + g1_h(t, #[trigger] g1_run(t, st, q.take(j))) <= limit by {
            assert(q.take(j) =~= p.take(j));
            assert(j + g1_h(t, g1_run(t, st, p.take(j))) <= limit);
        }
        lemma_first_prefix(t, st, q, limit);
    } else {
        assert(g1_first(t, st, p, limit));
    }
}

/// The top frame is a goal that has already been handed out.
spec fn spent_top(t: G1Tables, stack: Seq<Frame>, p: Seq<int>) -> bool {
    &&& stack.len() >= 1
    &&& p == stack_path(stack, stack.len() - 1)
    &&& stack.last().move_idx > 0
    &&& g1_h(t, frame_coords(stack.last())) == 0
}

/// What the search has handed out, against its stack: each handed-out path is behind
/// the search or is the goal at its top; each path the search hands out that is behind
/// it has been handed out.
spec fn record_ok(t: G1Tables, start: Coords, stack: Seq<Frame>, limit: int, handed: Set<Seq<int>>) -> bool {
    &&& linked(stack)
    &&& forall|p: Seq<int>| #[trigger] handed.contains(p) ==> passed(stack, p) || spent_top(t, stack, p)
    &&& forall|p: Seq<int>| #[trigger] g1_first(t, start, p, limit) && passed(stack, p) ==> handed.contains(p)
    &&& stack.len() >= 1 && stack.last().move_idx > 0 && g1_h(t, frame_coords(stack.last())) == 0
        ==> handed.contains(stack_path(stack, stack.len() - 1))
}

/// The path to the top of a linked stack is not behind the search.
proof fn lemma_top_path_ahead(stack: Seq<Frame>)
    requires
        stack.len() >= 1,
        linked(stack),
    ensures
        !passed(stack, stack_path(stack, stack.len() - 1)),
{
    let n = stack.len() as int;
    let p = stack_path(stack, n - 1);
    if passed(stack, p) {
        let k = choose|k: int|
            #![trigger done_at(stack, k)]
            0 <= k < stack.len() && p.len() > k && p.take(k) == stack_path(stack, k) && p[k] < done_at(
                stack,
                k,
            );
        assert(k < n - 1);
        assert(stack[k + 1].last_move_idx == stack[k].move_idx - 1);
        assert(p[k] == stack[k + 1].last_move_idx);
    }
}

/// Raising the tried count of the top keeps what is behind the search behind it.
proof fn lemma_passed_bump(stack: Seq<Frame>, f: Frame, p: Seq<int>)
    requires
        stack.len() >= 1,
        f == (Frame { move_idx: f.move_idx, ..stack.last() }),
        f.move_idx >= stack.last().move_idx,
        passed(stack, p),
    ensures
        passed(stack.drop_last().push(f), p),
{
    let n = stack.len() as int;
    let s2 = stack.drop_last().push(f);
    let k = choose|k: int|
        #![trigger done_at(stack, k)]
        0 <= k < stack.len() && p.len() > k && p.take(k) == stack_path(stack, k) && p[k] < done_at(
            stack,
            k,
        );
    assert(stack_path(s2, k) =~= stack_path(stack, k));
    assert(done_at(s2, k) >= done_at(stack, k));
}

/// A path newly behind the search after a raise of the top's tried count leaves the
/// stack at the top.
proof fn lemma_passed_bump_new(stack: Seq<Frame>, f: Frame, p: Seq<int>)
    requires
        stack.len() >= 1,
        f == (Frame { move_idx: f.move_idx, ..stack.last() }),
        passed(stack.drop_last().push(f), p),
        !passed(stack, p),
    ensures
        p.len() > stack.len() - 1,
        p.take(stack.len() - 1) == stack_path(stack, stack.len() - 1),
        stack.last().move_idx <= p[stack.len() - 1] < f.move_idx,
{
    let n = stack.len() as int;
    let s2 = stack.drop_last().push(f);
    let k = choose|k: int|
        #![trigger done_at(s2, k)]
        0 <= k < s2.len() && p.len() > k && p.take(k) == stack_path(s2, k) && p[k] < done_at(s2, k);
    assert(stack_path(s2, k) =~= stack_path(stack, k));
    if k < n - 1 {
        assert(done_at(stack, k) == done_at(s2, k));
    } else {
        assert(done_at(stack, k) == stack.last().move_idx);
    }
}

/// Dropping the top keeps what is behind the search behind it, puts the handed-out goal
/// at the top behind it, and newly puts behind it only paths through the top.
proof fn lemma_passed_pop(t: G1Tables, stack: Seq<Frame>, p: Seq<int>)
    requires
        stack.len() >= 1,
        linked(stack),
    ensures
        passed(stack, p) ==> passed(stack.drop_last(), p),
        spent_top(t, stack, p) ==> passed(stack.drop_last(), p),
        passed(stack.drop_last(), p) && !passed(stack, p) ==> p.len() >= stack.len() - 1 && p.take(
            stack.len() - 1,
        ) == stack_path(stack, stack.len() - 1),
{
    let n = stack.len() as int;
    let s2 = stack.drop_last();
    if n == 1 {
        assert(p.take(0) =~= stack_path(stack, 0));
    } else {
        if passed(stack, p) {
            let k = choose|k: int|
                #![trigger done_at(stack, k)]
                0 <= k < stack.len() && p.len() > k && p.take(k) == stack_path(stack, k) && p[k]
                    < done_at(stack, k);
            if k < n - 1 {
                lemma_path_prefix(stack, n - 1, k);
                assert(done_at(s2, k) >= done_at(stack, k));
            } else {
                lemma_path_prefix(stack, n - 1, n - 2);
                assert(stack[n - 1].last_move_idx == stack[n - 2].move_idx - 1);
                assert(p.take(n - 1) =~= stack_path(stack, n - 1));
                assert(p[n - 2] == p.take(n - 1)[n - 2]);
                assert(p.take(n - 2) =~= p.take(n - 1).take(n - 2));
                assert(stack_path(stack, n - 2) =~= stack_path(stack, n - 1).take(n - 2));
                assert(done_at(s2, n - 2) == stack[n - 2].move_idx);
            }
        }
        if spent_top(t, stack, p) {
            lemma_path_prefix(stack, n - 1, n - 2);
            assert(stack[n - 1].last_move_idx == stack[n - 2].move_idx - 1);
            assert(p[n - 2] == stack[n - 1].last_move_idx);
            assert(p.take(n - 2) =~= stack_path(stack, n - 2));
            assert(done_at(s2, n - 2) == stack[n - 2].move_idx);
        }
        if passed(s2, p) && !passed(stack, p) {
            let k = choose|k: int|
                #![trigger done_at(s2, k)]
                0 <= k < s2.len() && p.len() > k && p.take(k) == stack_path(s2, k) && p[k] < done_at(
                    s2,
                    k,
                );
            lemma_path_prefix(stack, n - 1, k);
            if k < n - 2 {
                assert(done_at(stack, k) == done_at(s2, k));
            } else {
                if p[k] < stack[k].move_idx - 1 {
                    assert(done_at(stack, k) == stack[k].move_idx - 1);
                } else {
                    assert(stack[n - 1].last_move_idx == stack[n - 2].move_idx - 1);
                    assert(p.take(n - 1) =~= p.take(k).push(p[k]));
                    assert(stack_path(stack, n - 1) =~= stack_path(stack, k).push(
                        stack[n - 1].last_move_idx as int,
                    ));
                }
            }
        }
    }
}

/// Handing out the goal at the top (tried count 0, rated 0) and marking it done keeps
/// the record.
proof fn lemma_record_yield(
    t: G1Tables,
    start: Coords,
    stack: Seq<Frame>,
    limit: int,
    handed: Set<Seq<int>>,
    f: Frame,
)
    requires
        stack_ok(t, start, stack, limit),
        stack.len() >= 1,
        record_ok(t, start, stack, limit, handed),
        stack.last().move_idx == 0,
        g1_h(t, frame_coords(stack.last())) == 0,
        f == (Frame { move_idx: 18, ..stack.last() }),
    ensures
        record_ok(
            t,
            start,
            stack.drop_last().push(f),
            limit,
            handed.insert(stack_path(stack, stack.len() - 1)),
        ),
{
    let n = stack.len() as int;
    let s2 = stack.drop_last().push(f);
    let top_path = stack_path(stack, n - 1);
    let h2 = handed.insert(top_path);
    assert(stack_path(s2, n - 1) =~= top_path);
    assert(frame_ok(t, start, stack, n - 1, limit));
    assert forall|k: int| 1 <= k < s2.len() implies #[trigger] s2[k].last_move_idx == s2[k - 1].move_idx - 1 by {
        assert(stack[k].last_move_idx == stack[k - 1].move_idx - 1);
    }
    assert forall|p: Seq<int>| #[trigger] h2.contains(p) implies passed(s2, p) || spent_top(t, s2, p) by {
        if p != top_path {
            assert(handed.contains(p));
            if passed(stack, p) {
                lemma_passed_bump(stack, f, p);
            }
        }
    }
    assert forall|p: Seq<int>| #[trigger] g1_first(t, start, p, limit) && passed(s2, p) implies h2.contains(p) by {
        if !passed(stack, p) {
            lemma_passed_bump_new(stack, f, p);
            assert(p.take(n - 1) == stack_path(stack, n - 1));
            assert(g1_run(t, start, p.take(n - 1)) == frame_coords(stack.last()));
        }
    }
}

/// Dropping a pruned or finished top keeps the record.
proof fn lemma_record_pop(t: G1Tables, start: Coords, stack: Seq<Frame>, limit: int, handed: Set<Seq<int>>)
    requires
        stack_ok(t, start, stack, limit),
        stack.len() >= 1,
        record_ok(t, start, stack, limit, handed),
        ({
            let n = stack.len() as int;
            let top = stack[n - 1];
            (n - 1) + g1_h(t, frame_coords(top)) > limit || top.move_idx >= 18
        }),
    ensures
        record_ok(t, start, stack.drop_last(), limit, handed),
{
    let n = stack.len() as int;
    let s2 = stack.drop_last();
    let top = stack[n - 1];
    assert(frame_ok(t, start, stack, n - 1, limit));
    assert forall|k: int| 1 <= k < s2.len() implies #[trigger] s2[k].last_move_idx == s2[k - 1].move_idx - 1 by {
        assert(stack[k].last_move_idx == stack[k - 1].move_idx - 1);
    }
    assert forall|p: Seq<int>| #[trigger] handed.contains(p) implies passed(s2, p) || spent_top(t, s2, p) by {
        lemma_passed_pop(t, stack, p);
    }
    assert forall|p: Seq<int>| #[trigger] g1_first(t, start, p, limit) && passed(s2, p) implies handed.contains(p) by {
        lemma_passed_pop(t, stack, p);
        if !passed(stack, p) {
            let c = g1_run(t, start, p.take(n - 1));
            assert(c == frame_coords(top));
            assert((n - 1) + g1_h(t, c) <= limit);
            if p.len() == n - 1 {
                assert(p.take(n - 1) =~= p);
                assert(g1_h(t, c) == 0);
            } else {
                assert(p[n - 1] < 18);
                assert(done_at(stack, n - 1) == top.move_idx);
                assert(p.take(n - 1) == stack_path(stack, n - 1));
                assert(passed(stack, p));
            }
        }
    }
    if s2.len() >= 1 {
        assert(frame_ok(t, start, stack, n - 2, limit));
        assert(s2.last() == stack[n - 2]);
    }
}

/// Trying a move at the top that may not follow, without descending, keeps the record.
proof fn lemma_record_skip(
    t: G1Tables,
    start: Coords,
    stack: Seq<Frame>,
    limit: int,
    handed: Set<Seq<int>>,
    f: Frame,
)
    requires
        stack_ok(t, start, stack, limit),
        stack.len() >= 1,
        record_ok(t, start, stack, limit, handed),
        g1_h(t, frame_coords(stack.last())) > 0,
        f == (Frame { move_idx: f.move_idx, ..stack.last() }),
        f.move_idx == stack.last().move_idx + 1,
        !may_follow(
            stack.last().last_axis,
            stack.last().last_last_axis,
            spec_move_at(stack.last().move_idx as int).axis,
        ),
    ensures
        record_ok(t, start, stack.drop_last().push(f), limit, handed),
{
    let n = stack.len() as int;
    let s2 = stack.drop_last().push(f);
    assert(stack_path(s2, n - 1) =~= stack_path(stack, n - 1));
    assert forall|k: int| 1 <= k < s2.len() implies #[trigger] s2[k].last_move_idx == s2[k - 1].move_idx - 1 by {
        assert(stack[k].last_move_idx == stack[k - 1].move_idx - 1);
    }
    assert forall|p: Seq<int>| #[trigger] handed.contains(p) implies passed(s2, p) || spent_top(t, s2, p) by {
        if passed(stack, p) {
            lemma_passed_bump(stack, f, p);
        }
    }
    assert forall|p: Seq<int>| #[trigger] g1_first(t, start, p, limit) && passed(s2, p) implies handed.contains(p) by {
        if !passed(stack, p) {
            lemma_passed_bump_new(stack, f, p);
            lemma_step_is_follow(p, stack, t, start, limit);
        }
    }
}

/// Trying a move at the top and descending into it keeps the record.
proof fn lemma_record_descend(
    t: G1Tables,
    start: Coords,
    stack: Seq<Frame>,
    limit: int,
    handed: Set<Seq<int>>,
    f: Frame,
    child: Frame,
)
    requires
        stack_ok(t, start, stack, limit),
        stack.len() >= 1,
        record_ok(t, start, stack, limit, handed),
        g1_h(t, frame_coords(stack.last())) > 0,
        f == (Frame { move_idx: f.move_idx, ..stack.last() }),
        f.move_idx == stack.last().move_idx + 1,
        child.move_idx == 0,
        child.last_move_idx == stack.last().move_idx,
    ensures
        record_ok(t, start, stack.drop_last().push(f).push(child), limit, handed),
{
    let n = stack.len() as int;
    let s3 = stack.drop_last().push(f).push(child);
    assert forall|k: int| 1 <= k < s3.len() implies #[trigger] s3[k].last_move_idx == s3[k - 1].move_idx - 1 by {
        if k < n {
            assert(stack[k].last_move_idx == stack[k - 1].move_idx - 1);
        }
    }
    assert forall|p: Seq<int>| #[trigger] handed.contains(p) implies passed(s3, p) || spent_top(t, s3, p) by {
        if passed(stack, p) {
            let k = choose|k: int|
                #![trigger done_at(stack, k)]
                0 <= k < stack.len() && p.len() > k && p.take(k) == stack_path(stack, k) && p[k]
                    < done_at(stack, k);
            assert(stack_path(s3, k) =~= stack_path(stack, k));
            assert(done_at(s3, k) == done_at(stack, k));
        }
    }
    assert forall|p: Seq<int>| #[trigger] g1_first(t, start, p, limit) && passed(s3, p) implies handed.contains(p) by {
        if !passed(stack, p) {
            assert forall|i: int| 0 <= i < p.len() implies 0 <= #[trigger] p[i] by {}
            lemma_descend_unpassed(stack, f, child, p);
        }
    }
}

/// The move numbers that led to the top frame.
fn path_indices(stack: &Vec<Frame>) -> (r: Vec<usize>)
    requires
        stack@.len() >= 1,
    ensures
        path_ints(r@) == stack_path(stack@, stack@.len() - 1),
{
    let mut r: Vec<usize> = Vec::new();
    let mut j: usize = 1;
    while j < stack.len()
        invariant
            1 <= j <= stack@.len(),
            path_ints(r@) == stack_path(stack@, j - 1),
        decreases stack@.len() - j,
    {
        let m = stack[j].last_move_idx;
        let ghost before = r@;
        r.push(m);
        proof {
            assert(path_ints(r@) =~= path_ints(before).push(m as int));
            assert(stack_path(stack@, j as int) =~= stack_path(stack@, j - 1).push(m as int));
        }
        j = j + 1;
    }
    r
}

/// The numbers of a phase-one solution are move numbers.
pub proof fn lemma_solves_indices(t: G1Tables, st: Coords, path: Seq<usize>)
    requires
        g1_solves(t, st, path_ints(path)),
    ensures
        forall|i: int| 0 <= i < path.len() ==> #[trigger] path[i] < 18,
{
    assert forall|i: int| 0 <= i < path.len() implies #[trigger] path[i] < 18 by {
        assert(path_ints(path)[i] == path[i] as int);
    }
}

/// The moves of the standard list with the given numbers.
pub fn indices_to_moves(path: &Vec<usize>) -> (moves: Vec<SingleMove>)
    requires
        forall|i: int| 0 <= i < path@.len() ==> #[trigger] path@[i] < 18,
    ensures
        moves@ == moves_of(path_ints(path@)),
{
    let mut moves: Vec<SingleMove> = Vec::new();
    let mut i: usize = 0;
    while i < path.len()
        invariant
            i <= path@.len(),
            forall|i: int| 0 <= i < path@.len() ==> #[trigger] path@[i] < 18,
            moves@ == moves_of(path_ints(path@).take(i as int)),
        decreases path@.len() - i,
    {
        let mv = move_at(path[i]);
        moves.push(mv);
        proof {
            assert(path_ints(path@).take(i + 1) =~= path_ints(path@).take(i as int).push(
                path@[i as int] as int,
            ));
            lemma_moves_push(path_ints(path@).take(i as int), path@[i as int] as int);
        }
        i = i + 1;
    }
    proof {
        assert(path_ints(path@).take(path@.len() as int) =~= path_ints(path@));
    }
    moves
}

/// The phase-one solver: a depth-first search with a depth bound, kept between calls,
/// with a record of the solutions it has handed out since the last reset.
pub struct G1Solver<'a> {
    tables: &'a G1Tables,
    stack: Vec<Frame>,
    limit: usize,
    initial_state: (usize, usize, usize),
    handed: Ghost<Set<Seq<int>>>,
}

impl<'a> G1Solver<'a> {
    /// The tables the solver reads.
    pub closed spec fn tables(&self) -> G1Tables {
        *self.tables
    }

    /// The coordinates of the cube being solved.
    pub closed spec fn start(&self) -> Coords {
        (self.initial_state.0 as int, self.initial_state.1 as int, self.initial_state.2 as int)
    }

    /// The current depth bound.
    pub closed spec fn limit(&self) -> int {
        self.limit as int
    }

    /// No solution is left at the current bound.
    pub closed spec fn exhausted(&self) -> bool {
        self.stack@.len() == 0
    }

    /// The solutions handed out since the last reset.
    pub closed spec fn handed_out(&self) -> Set<Seq<int>> {
        self.handed@
    }

    /// How much of the search at the current bound is left; every solution found lowers
    /// it.
    pub closed spec fn remaining(&self) -> nat {
        dfs_measure(tried_of(self.stack@), 18, self.limit as nat)
    }

    /// Nothing has been handed out since the last reset.
    pub open spec fn untouched(&self) -> bool {
        self.handed_out() == Set::<Seq<int>>::empty()
    }

    /// The solver's stack describes a search from the start position, and the record
    /// of what it handed out fits the stack.
    pub closed spec fn wf(&self) -> bool {
        &&& self.tables.wf()
        &&& g1_in_range(self.start())
        &&& stack_ok(*self.tables, self.start(), self.stack@, self.limit as int)
        &&& record_ok(*self.tables, self.start(), self.stack@, self.limit as int, self.handed@)
    }

    /// A solver for the cube at depth bound `limit`.
    pub fn new(cube: &Cube, limit: usize, tables: &'a G1Tables) -> (s: Self)
        requires
            tables.wf(),
            co_coord(cube@) < 2187,
            uds_coord(cube@) < 495,
        ensures
            s.wf(),
            s.tables() == *tables,
            s.start() == g1_coords(cube@),
            s.limit() == limit,
            !s.exhausted(),
            s.untouched(),
            g1_in_range(s.start()),
    {
        let kociemba_cube = KociembaCube(*cube);
        let state = (
            kociemba_cube.get_eo_coord() as usize,
            kociemba_cube.get_co_coord() as usize,
            kociemba_cube.get_uds_coord() as usize,
        );
        let mut s = G1Solver {
            tables,
            stack: Vec::new(),
            limit,
            initial_state: state,
            handed: Ghost(Set::empty()),
        };
        s.reset(limit);
        s
    }

    /// Starts the search over at depth bound `limit`.
    pub fn reset(&mut self, limit: usize)
        requires
            old(self).tables().wf(),
            g1_in_range(old(self).start()),
        ensures
            final(self).wf(),
            final(self).tables() == old(self).tables(),
            final(self).start() == old(self).start(),
            final(self).limit() == limit,
            !final(self).exhausted(),
            final(self).untouched(),
    {
        self.limit = limit;
        self.stack.clear();
        self.stack.push(
            Frame {
                state: self.initial_state,
                move_idx: 0,
                depth: 0,
                last_axis: None,
                last_last_axis: None,
                last_move_idx: 0,
            },
        );
        self.handed = Ghost(Set::empty());
        proof {
            let start = self.start();
            let t = *self.tables;
            assert(stack_path(self.stack@, 0) =~= Seq::<int>::empty());
            assert(moves_of(Seq::<int>::empty()) =~= Seq::<SingleMove>::empty());
            assert(frame_ok(t, start, self.stack@, 0, limit as int));
            assert forall|p: Seq<int>| #[trigger] g1_first(t, start, p, limit as int) && passed(
                self.stack@,
                p,
            ) implies self.handed@.contains(p) by {
                let k = choose|k: int|
                    #![trigger done_at(self.stack@, k)]
                    0 <= k < self.stack@.len() && p.len() > k && p.take(k) == stack_path(
                        self.stack@,
                        k,
                    ) && p[k] < done_at(self.stack@, k);
                assert(k == 0);
                assert(p[0] >= 0);
            }
        }
    }

    /// The next solution at the current depth bound: the numbers (in the standard move
    /// list) of a sequence of at most `limit` moves that leads the start position to one
    /// the pruning tables rate 0, and no proper prefix of which does. Solutions come in
    /// depth-first order, none twice since the last reset, and none once the search is
    /// exhausted; when it is, every such solution has been handed out.
    pub fn next(&mut self) -> (r: Option<Vec<usize>>)
        requires
            old(self).wf(),
        ensures
            final(self).wf(),
            final(self).tables() == old(self).tables(),
            final(self).start() == old(self).start(),
            final(self).limit() == old(self).limit(),
            r matches Some(path) ==> g1_solves(final(self).tables(), final(self).start(), path_ints(path@))
                && path@.len() <= final(self).limit(),
            r matches Some(path) ==> g1_first(
                final(self).tables(),
                final(self).start(),
                path_ints(path@),
                final(self).limit(),
            ) && !old(self).handed_out().contains(path_ints(path@)) && final(self).handed_out()
                == old(self).handed_out().insert(path_ints(path@)),
            r is None ==> final(self).handed_out() == old(self).handed_out(),
            r is None ==> forall|p: Seq<int>|
                #[trigger] g1_first(final(self).tables(), final(self).start(), p, final(self).limit())
                    ==> final(self).handed_out().contains(p),
            r is None <==> final(self).exhausted(),
            old(self).exhausted() ==> r is None,
            g1_h(old(self).tables(), old(self).start()) > old(self).limit() ==> r is None,
            final(self).remaining() <= old(self).remaining(),
            r is Some ==> final(self).remaining() < old(self).remaining(),
            old(self).untouched() && (exists|p: Seq<int>|
                #[trigger] g1_bounded(old(self).tables(), old(self).start(), p, old(self).limit()))
                ==> r is Some,
    {
        let ghost t = *self.tables;
        let ghost start = self.start();
        let limit = self.limit;
        loop
            invariant
                t == *self.tables,
                t.wf(),
                start == self.start(),
                g1_in_range(start),
                limit == self.limit,
                self.tables == old(self).tables,
                self.initial_state == old(self).initial_state,
                self.limit == old(self).limit,
                self.handed == old(self).handed,
                old(self).stack@.len() == 0 ==> self.stack@.len() == 0,
                dfs_measure(tried_of(self.stack@), 18, limit as nat) <= old(self).remaining(),
                stack_ok(t, start, self.stack@, limit as int),
                record_ok(t, start, self.stack@, limit as int, self.handed@),
            decreases dfs_measure(tried_of(self.stack@), 18, limit as nat),
        {
            let n = self.stack.len();
            if n == 0 {
                proof {
                    assert forall|p: Seq<int>| #[trigger] g1_first(t, start, p, limit as int) implies self.handed@.contains(p) by {
                        assert(passed(self.stack@, p));
                    }
                    if old(self).untouched() {
                        assert forall|p: Seq<int>| !#[trigger] g1_bounded(t, start, p, limit as int) by {
                            if g1_bounded(t, start, p, limit as int) {
                                lemma_first_prefix(t, start, p, limit as int);
                                let q = choose|q: Seq<int>| #[trigger] g1_first(t, start, q, limit as int);
                                assert(self.handed@.contains(q));
                            }
                        }
                    }
                }
                return None;
            }
            let top = self.stack[n - 1];
            proof {
                assert(frame_ok(t, start, self.stack@, n - 1, limit as int));
                if n == 1 {
                    assert(stack_path(self.stack@, 0) =~= Seq::<int>::empty());
                }
            }
            let h = g1_estimate(self.tables, top.state.0, top.state.1, top.state.2);
            let ghost tried = tried_of(self.stack@);
            proof {
                assert(tried.last() == top.move_idx);
                assert(tried.len() - 1 <= limit);
            }
            if h == 0 && top.move_idx == 0 {
                let path = path_indices(&self.stack);
                let ghost p = stack_path(self.stack@, n - 1);
                proof {
                    assert forall|i: int| 0 <= i < p.len() implies 0 <= #[trigger] p[i] < 18 by {
                        assert(frame_ok(t, start, self.stack@, i + 1, limit as int));
                    }
                    assert(g1_solves(t, start, p));
                    assert(g1_h(t, start) <= limit) by {
                        if g1_h(t, start) > limit {
                            assert(n == 1);
                        }
                    }
                    assert forall|k: int| 0 <= k < p.len() implies g1_h(t, #[trigger] g1_run(t, start, p.take(k))) != 0 by {
                        assert(frame_ok(t, start, self.stack@, k, limit as int));
                        lemma_path_prefix(self.stack@, n as int, k);
                    }
                    assert forall|j: int| 0 <= j <= p.len() implies j + g1_h(t, #[trigger] g1_run(t, start, p.take(j))) <= limit by {
                        assert(frame_ok(t, start, self.stack@, j, limit as int));
                        if j < p.len() {
                            lemma_path_prefix(self.stack@, n as int, j);
                        } else {
                            assert(p.take(j) =~= p);
                        }
                    }
                    assert(g1_first(t, start, p, limit as int));
                    lemma_top_path_ahead(self.stack@);
                    assert(!self.handed@.contains(p)) by {
                        if self.handed@.contains(p) {
                            assert(passed(self.stack@, p) || spent_top(t, self.stack@, p));
                        }
                    }
                }
                let spent = Frame { move_idx: 18, ..top };
                proof {
                    lemma_stack_bump(t, start, self.stack@, limit as int, spent);
                    lemma_measure_bump(tried, 18, 18, limit as nat);
                }
                let ghost before = self.stack@;
                self.stack.set(n - 1, spent);
                let ghost old_handed = self.handed@;
                self.handed = Ghost(self.handed@.insert(p));
                proof {
                    assert(self.stack@ =~= before.drop_last().push(spent));
                    assert(tried_of(self.stack@) =~= tried.drop_last().push(18));
                    lemma_record_yield(t, start, before, limit as int, old_handed, spent);
                    assert(path_ints(path@) == p);
                }
                return Some(path);
            }
            if h > limit - top.depth || top.move_idx >= 18 {
                let ghost before = self.stack@;
                self.stack.pop();
                proof {
                    lemma_measure_pop(tried, 18, limit as nat);
                    assert(self.stack@ =~= before.drop_last());
                    assert(tried_of(self.stack@) =~= tried.drop_last());
                    lemma_stack_pop(t, start, before, limit as int);
                    lemma_record_pop(t, start, before, limit as int, self.handed@);
                }
                continue;
            }
            proof {
                assert(h > 0);
                assert(n <= limit);
            }
            let cur = top.move_idx;
            let bumped = Frame { move_idx: cur + 1, ..top };
            let ghost before_bump = self.stack@;
            proof {
                lemma_stack_bump(t, start, self.stack@, limit as int, bumped);
                lemma_measure_bump(tried, cur + 1, 18, limit as nat);
            }
            self.stack.set(n - 1, bumped);
            proof {
                assert(tried_of(self.stack@) =~= tried.drop_last().push(cur + 1));
                assert(self.stack@ =~= before_bump.drop_last().push(bumped));
            }
            let mv = move_at(cur);
            if !may_follow_exec(top.last_axis, top.last_last_axis, mv.axis) {
                proof {
                    lemma_record_skip(t, start, before_bump, limit as int, self.handed@, bumped);
                }
                continue;
            }
            let ghost before = self.stack@;
            proof {
                assert(top.state.0 * 18 + cur < 36864) by (nonlinear_arith)
                    requires
                        top.state.0 < 2048,
                        cur < 18,
                ;
                assert(top.state.1 * 18 + cur < 39366) by (nonlinear_arith)
                    requires
                        top.state.1 < 2187,
                        cur < 18,
                ;
                assert(top.state.2 * 18 + cur < 8910) by (nonlinear_arith)
                    requires
                        top.state.2 < 495,
                        cur < 18,
                ;
                assert(g1_h(t, start) <= limit) by {
                    if g1_h(t, start) > limit {
                        assert(n == 1);
                    }
                }
            }
            let child = Frame {
                state: (
                    self.tables.eo_move[top.state.0 * 18 + cur] as usize,
                    self.tables.co_move[top.state.1 * 18 + cur] as usize,
                    self.tables.uds_move[top.state.2 * 18 + cur] as usize,
                ),
                move_idx: 0,
                depth: top.depth + 1,
                last_axis: Some(mv.axis),
                last_last_axis: top.last_axis,
                last_move_idx: cur,
            };
            self.stack.push(child);
            proof {
                lemma_stack_push(t, start, before, limit as int, child);
                lemma_measure_descend(tried, 18, limit as nat);
                assert(tried_of(self.stack@) =~= tried.drop_last().push(cur + 1).push(0));
                assert(self.stack@ =~= before_bump.drop_last().push(bumped).push(child));
                lemma_record_descend(t, start, before_bump, limit as int, self.handed@, bumped, child);
            }
        }
    }
}

impl<'a> G1Solver<'a> {
    /// Solves phase one in at most twelve moves: for each bound from 0 to 12, takes the
    /// last solution of the depth-first search, if there is one. It finds one whenever a
    /// search bounded by twelve moves can reach one, and no search with a bound below the
    /// length of the sequence it returns could have.
    pub fn solve(cube: &Cube, tables: &G1Tables) -> (r: Option<Vec<SingleMove>>)
        requires
            tables.wf(),
            co_coord(cube@) < 2187,
            uds_coord(cube@) < 495,
        ensures
            r matches Some(moves) ==> exists|path: Seq<int>|
                #![trigger moves_of(path)]
                g1_solves(*tables, g1_coords(cube@), path) && path.len() <= 12 && moves@
                    == moves_of(path),
            g1_h(*tables, g1_coords(cube@)) > 12 ==> r is None,
            (exists|p: Seq<int>| #[trigger] g1_bounded(*tables, g1_coords(cube@), p, 12)) ==> r is Some,
            r matches Some(moves) ==> forall|p: Seq<int>|
                !#[trigger] g1_bounded(*tables, g1_coords(cube@), p, moves@.len() - 1),
            r matches Some(moves) ==> exists|path: Seq<int>, l: int|
                #![trigger g1_first(*tables, g1_coords(cube@), path, l)]
                moves@ == moves_of(path) && g1_first(*tables, g1_coords(cube@), path, l) && l <= 12 && forall|
                    p: Seq<int>,
                | !#[trigger] g1_bounded(*tables, g1_coords(cube@), p, l - 1),
            r matches Some(moves) ==> (g1_exact(*tables) && valid_state(cube@) ==> in_g1(
                apply_moves(cube@, moves@),
            )),
    {
        let ghost st = g1_coords(cube@);
        let mut solver = G1Solver::new(cube, 0, tables);
        let mut limit: usize = 0;
        proof {
            assert forall|p: Seq<int>, l: int| l < 0 implies !#[trigger] g1_bounded(
                *tables,
                st,
                p,
                l,
            ) by {
                lemma_bounded_start(*tables, st, p, l);
            }
        }
        while limit <= 12
            invariant
                solver.wf(),
                solver.tables() == *tables,
                solver.start() == g1_coords(cube@),
                st == g1_coords(cube@),
                limit <= 13,
                forall|p: Seq<int>, l: int| l < limit ==> !#[trigger] g1_bounded(*tables, st, p, l),
            decreases 13 - limit,
        {
            solver.reset(limit);
            let mut result: Option<Vec<usize>> = None;
            let mut done = false;
            while !done
                invariant
                    solver.wf(),
                    solver.tables() == *tables,
                    solver.start() == g1_coords(cube@),
                    solver.limit() == limit,
                    limit <= 12,
                    result matches Some(p) ==> g1_solves(*tables, g1_coords(cube@), path_ints(p@))
                        && p@.len() <= limit,
                    result matches Some(p) ==> g1_first(*tables, st, path_ints(p@), limit as int),
                    g1_h(*tables, g1_coords(cube@)) > 12 ==> result is None,
                    st == g1_coords(cube@),
                    !done && result is None ==> solver.untouched(),
                    done && result is None ==> forall|p: Seq<int>|
                        !#[trigger] g1_bounded(*tables, st, p, limit as int),
                    forall|p: Seq<int>, l: int| l < limit ==> !#[trigger] g1_bounded(*tables, st, p, l),
                decreases solver.remaining() * 2 + (if done {
                    0nat
                } else {
                    1nat
                }),
            {
                let ghost pre = solver;
                match solver.next() {
                    Some(p) => {
                        result = Some(p);
                    },
                    None => {
                        proof {
                            if result is None {
                                assert forall|q: Seq<int>| !#[trigger] g1_bounded(
                                    *tables,
                                    st,
                                    q,
                                    limit as int,
                                ) by {
                                    if g1_bounded(*tables, st, q, limit as int) {
                                        assert(g1_bounded(pre.tables(), pre.start(), q, pre.limit()));
                                    }
                                }
                            }
                        }
                        done = true;
                    },
                }
            }
            if let Some(path) = result {
                proof {
                    lemma_solves_indices(*tables, g1_coords(cube@), path@);
                }
                let moves = indices_to_moves(&path);
                proof {
                    let pi = path_ints(path@);
                    assert(g1_first(*tables, g1_coords(cube@), pi, limit as int));
                    assert forall|q: Seq<int>| !#[trigger] g1_bounded(*tables, g1_coords(cube@), q, limit - 1) by {
                        assert(!g1_bounded(*tables, st, q, limit - 1));
                    }
                    if g1_exact(*tables) && valid_state(cube@) {
                        lemma_g1_answer_reaches_g1(*tables, cube@, pi);
                    }
                }
                return Some(moves);
            }
            limit = limit + 1;
        }
        None
    }
}

} // verus!
