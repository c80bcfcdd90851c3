//! The search model shared by both phases: coordinate triples moved by lookup
//! tables, distance estimates read from pruning tables, and the rule that keeps
//! redundant face sequences out of a search.

use vstd::prelude::*;
use crate::moves::{MoveAxis, SingleMove, MoveDirection, spec_group, stitch_all, is_clean, lemma_stitch_all_clean};
use crate::cube::{CubeState, apply_moves, well_sized, lemma_stitch_all_effect};

verus! {

/// The ten moves that keep a cube inside the phase-two group: quarter and half turns
/// of U and D, half turns of the four side faces.
pub open spec fn spec_g1_move(i: int) -> SingleMove {
    if i == 0 {
        SingleMove { axis: MoveAxis::U, dir: MoveDirection::Clk }
    } else if i == 1 {
        SingleMove { axis: MoveAxis::U, dir: MoveDirection::CCw }
    } else if i == 2 {
        SingleMove { axis: MoveAxis::U, dir: MoveDirection::Dbl }
    } else if i == 3 {
        SingleMove { axis: MoveAxis::F, dir: MoveDirection::Dbl }
    } else if i == 4 {
        SingleMove { axis: MoveAxis::R, dir: MoveDirection::Dbl }
    } else if i == 5 {
        SingleMove { axis: MoveAxis::B, dir: MoveDirection::Dbl }
    } else if i == 6 {
        SingleMove { axis: MoveAxis::L, dir: MoveDirection::Dbl }
    } else if i == 7 {
        SingleMove { axis: MoveAxis::D, dir: MoveDirection::Clk }
    } else if i == 8 {
        SingleMove { axis: MoveAxis::D, dir: MoveDirection::CCw }
    } else {
        SingleMove { axis: MoveAxis::D, dir: MoveDirection::Dbl }
    }
}

/// Move `i` (0 to 9) of the phase-two move list.
pub fn g1_move(i: usize) -> (mv: SingleMove)
    requires
        i < 10,
    ensures
        mv == spec_g1_move(i as int),
{
    if i == 0 {
        SingleMove { axis: MoveAxis::U, dir: MoveDirection::Clk }
    } else if i == 1 {
        SingleMove { axis: MoveAxis::U, dir: MoveDirection::CCw }
    } else if i == 2 {
        SingleMove { axis: MoveAxis::U, dir: MoveDirection::Dbl }
    } else if i == 3 {
        SingleMove { axis: MoveAxis::F, dir: MoveDirection::Dbl }
    } else if i == 4 {
        SingleMove { axis: MoveAxis::R, dir: MoveDirection::Dbl }
    } else if i == 5 {
        SingleMove { axis: MoveAxis::B, dir: MoveDirection::Dbl }
    } else if i == 6 {
        SingleMove { axis: MoveAxis::L, dir: MoveDirection::Dbl }
    } else if i == 7 {
        SingleMove { axis: MoveAxis::D, dir: MoveDirection::Clk }
    } else if i == 8 {
        SingleMove { axis: MoveAxis::D, dir: MoveDirection::CCw }
    } else {
        SingleMove { axis: MoveAxis::D, dir: MoveDirection::Dbl }
    }
}

/// Move `k` of a sequence may follow the two before it: it turns another face than
/// move `k - 1`, and not the face of move `k - 2` when move `k - 1` turned the
/// opposite face.
pub open spec fn step_ok(moves: Seq<SingleMove>, k: int) -> bool {
    &&& moves[k].axis != moves[k - 1].axis
    &&& k >= 2 ==> !(moves[k].axis == moves[k - 2].axis && spec_group(moves[k - 1].axis)
        == spec_group(moves[k].axis))
}

/// The moves of a sequence that a search may make in a row: no face twice in a row,
/// and no face again after one move of the opposite face in between.
pub open spec fn axes_ok(moves: Seq<SingleMove>) -> bool {
    forall|k: int| 1 <= k < moves.len() ==> #[trigger] step_ok(moves, k)
}

/// Whether a search may make `next` after moves on the faces `last` (the latest)
/// and `last_last`.
pub open spec fn may_follow(
    last: Option<MoveAxis>,
    last_last: Option<MoveAxis>,
    next: MoveAxis,
) -> bool {
    match last {
        None => true,
        Some(la) => next != la && match last_last {
            None => true,
            Some(lla) => !(next == lla && spec_group(la) == spec_group(next)),
        },
    }
}

/// Whether a search may make a move on face `next` after moves on `last` (the
/// latest) and `last_last`.
pub fn may_follow_exec(last: Option<MoveAxis>, last_last: Option<MoveAxis>, next: MoveAxis) -> (b:
    bool)
    ensures
        b == may_follow(last, last_last, next),
{
    match last {
        None => true,
        Some(la) => {
            if next == la {
                false
            } else {
                match last_last {
                    None => true,
                    Some(lla) => !(next == lla && la.group() == next.group()),
                }
            }
        },
    }
}

/// The face of the latest move of a sequence, if any.
pub open spec fn last_axis_of(moves: Seq<SingleMove>) -> Option<MoveAxis> {
    if moves.len() == 0 {
        None
    } else {
        Some(moves.last().axis)
    }
}

/// The face of the move before the latest, if any.
pub open spec fn last_last_axis_of(moves: Seq<SingleMove>) -> Option<MoveAxis> {
    if moves.len() < 2 {
        None
    } else {
        Some(moves[moves.len() - 2].axis)
    }
}

/// Appending a move that may follow keeps a sequence's axes in order.
pub proof fn lemma_axes_push(moves: Seq<SingleMove>, m: SingleMove)
    requires
        axes_ok(moves),
        may_follow(last_axis_of(moves), last_last_axis_of(moves), m.axis),
    ensures
        axes_ok(moves.push(m)),
{
    let s = moves.push(m);
    assert forall|k: int| 1 <= k < s.len() implies #[trigger] step_ok(s, k) by {
        if k < moves.len() {
            assert(step_ok(moves, k));
            assert(s[k] == moves[k] && s[k - 1] == moves[k - 1]);
            if k >= 2 {
                assert(s[k - 2] == moves[k - 2]);
            }
        } else {
            assert(s[k] == m);
            assert(s[k - 1] == moves.last());
            if k >= 2 {
                assert(s[k - 2] == moves[moves.len() - 2]);
            }
        }
    }
}

/// The rule is exact: a move may follow a sequence whose axes are in order just when
/// the longer sequence still has its axes in order.
pub proof fn lemma_may_follow_exact(moves: Seq<SingleMove>, m: SingleMove)
    requires
        axes_ok(moves),
    ensures
        may_follow(last_axis_of(moves), last_last_axis_of(moves), m.axis) <==> axes_ok(moves.push(m)),
{
    let s = moves.push(m);
    let n = moves.len() as int;
    if may_follow(last_axis_of(moves), last_last_axis_of(moves), m.axis) {
        lemma_axes_push(moves, m);
    }
    if axes_ok(s) && n >= 1 {
        assert(step_ok(s, n));
        assert(s[n] == m && s[n - 1] == moves.last());
        if n >= 2 {
            assert(s[n - 2] == moves[n - 2]);
        }
    }
}

/// The rule loses no answer: whatever a sequence of moves does to a cube, a sequence
/// whose faces the rule allows does too, with no more moves.
pub proof fn lemma_axis_rule_complete(moves: Seq<SingleMove>)
    ensures
        exists|q: Seq<SingleMove>|
            #![trigger axes_ok(q)]
            axes_ok(q) && q.len() <= moves.len() && forall|s: CubeState|
                well_sized(s) ==> #[trigger] apply_moves(s, q) == apply_moves(s, moves),
{
    let q = stitch_all(moves);
    lemma_stitch_all_clean(moves);
    assert forall|k: int| 1 <= k < q.len() implies #[trigger] step_ok(q, k) by {
        assert(q[k - 1].axis != q[k].axis);
        if k >= 2 {
            assert(!(q[k - 2].axis == q[k].axis && spec_group(q[k - 2].axis) == spec_group(
                q[k - 1].axis,
            )));
        }
    }
    assert forall|s: CubeState| well_sized(s) implies #[trigger] apply_moves(s, q) == apply_moves(
        s,
        moves,
    ) by {
        lemma_stitch_all_effect(s, moves);
    }
    assert(axes_ok(q));
}

/// A prefix of a sequence whose axes are in order has its axes in order.
pub proof fn lemma_axes_prefix(moves: Seq<SingleMove>, n: int)
    requires
        axes_ok(moves),
        0 <= n <= moves.len(),
    ensures
        axes_ok(moves.take(n)),
{
    let s = moves.take(n);
    assert forall|k: int| 1 <= k < s.len() implies #[trigger] step_ok(s, k) by {
        assert(step_ok(moves, k));
        assert(s[k] == moves[k] && s[k - 1] == moves[k - 1]);
        if k >= 2 {
            assert(s[k - 2] == moves[k - 2]);
        }
    }
}

/// `b` to the power `k`, for the depth-first search measures.
pub open spec fn pow_nat(b: nat, k: nat) -> nat
    decreases k,
{
    if k == 0 {
        1
    } else {
        b * pow_nat(b, (k - 1) as nat)
    }
}

pub proof fn lemma_pow_nat_pos(b: nat, k: nat)
    requires
        b >= 1,
    ensures
        pow_nat(b, k) >= 1,
    decreases k,
{
    if k > 0 {
        lemma_pow_nat_pos(b, (k - 1) as nat);
        assert(b * pow_nat(b, (k - 1) as nat) >= pow_nat(b, (k - 1) as nat)) by (nonlinear_arith)
            requires
                b >= 1,
                pow_nat(b, (k - 1) as nat) >= 1,
        ;
    }
}

/// How much work a depth-first search has left: the untried move counts of the frames
/// on its stack (`tried[k]` moves tried at depth `k`, `width` the number of moves), each
/// weighted by the size of the subtree below it, for depths up to `depth`.
pub open spec fn dfs_measure(tried: Seq<int>, width: nat, depth: nat) -> nat
    decreases tried.len(),
{
    if tried.len() == 0 {
        0
    } else {
        let k = (tried.len() - 1) as nat;
        let rest = dfs_measure(tried.drop_last(), width, depth);
        let left = width + 1 - tried.last();
        if left >= 0 && depth >= k {
            rest + (left as nat) * pow_nat(width + 2, (depth - k) as nat)
        } else {
            rest
        }
    }
}

/// Raising the count of tried moves at the top of the stack lowers the measure.
pub proof fn lemma_measure_bump(tried: Seq<int>, v: int, width: nat, depth: nat)
    requires
        tried.len() >= 1,
        tried.len() - 1 <= depth,
        0 <= tried.last() < v <= width + 1,
    ensures
        dfs_measure(tried.drop_last().push(v), width, depth) < dfs_measure(tried, width, depth),
{
    let t2 = tried.drop_last().push(v);
    assert(t2.drop_last() =~= tried.drop_last());
    let k = (tried.len() - 1) as nat;
    lemma_pow_nat_pos(width + 2, (depth - k) as nat);
    let p = pow_nat(width + 2, (depth - k) as nat);
    let a = width + 1 - tried.last();
    let b = width + 1 - v;
    assert(b * p < a * p) by (nonlinear_arith)
        requires
            p >= 1,
            0 <= b < a,
    ;
}

/// Trying one more move at the top and pushing a fresh frame below it lowers the
/// measure.
pub proof fn lemma_measure_descend(tried: Seq<int>, width: nat, depth: nat)
    requires
        tried.len() >= 1,
        tried.len() <= depth,
        0 <= tried.last() <= width,
    ensures
        dfs_measure(tried.drop_last().push(tried.last() + 1).push(0), width, depth) < dfs_measure(
            tried,
            width,
            depth,
        ),
{
    let t2 = tried.drop_last().push(tried.last() + 1);
    let t3 = t2.push(0);
    assert(t3.drop_last() =~= t2);
    assert(t2.drop_last() =~= tried.drop_last());
    let k = (tried.len() - 1) as nat;
    let e = (depth - k - 1) as nat;
    lemma_pow_nat_pos(width + 2, e);
    let q = pow_nat(width + 2, e);
    assert(pow_nat(width + 2, (depth - k) as nat) == (width + 2) * q);
    let a = width + 1 - tried.last();
    let base = dfs_measure(tried.drop_last(), width, depth);
    assert(dfs_measure(tried, width, depth) == base + a * ((width + 2) * q));
    assert(dfs_measure(t2, width, depth) == base + (a - 1) * ((width + 2) * q));
    assert(dfs_measure(t3, width, depth) == dfs_measure(t2, width, depth) + (width + 1) * q);
    assert((a - 1) * ((width + 2) * q) + (width + 1) * q < a * ((width + 2) * q))
        by (nonlinear_arith)
        requires
            q >= 1,
    ;
}

/// Dropping the top frame lowers the measure.
pub proof fn lemma_measure_pop(tried: Seq<int>, width: nat, depth: nat)
    requires
        tried.len() >= 1,
        tried.len() - 1 <= depth,
        0 <= tried.last() <= width,
    ensures
        dfs_measure(tried.drop_last(), width, depth) < dfs_measure(tried, width, depth),
{
    let k = (tried.len() - 1) as nat;
    lemma_pow_nat_pos(width + 2, (depth - k) as nat);
    let p = pow_nat(width + 2, (depth - k) as nat);
    let a = width + 1 - tried.last();
    assert(a * p >= 1) by (nonlinear_arith)
        requires
            p >= 1,
            a >= 1,
    ;
}

/// A stack frame of the depth-first search: a position, how many moves have been
/// tried from it, its depth, the faces of the two moves that led to it, and the number
/// of the move that led to it.
#[derive(Clone, Copy)]
pub struct Frame {
    pub state: (usize, usize, usize),
    pub move_idx: usize,
    pub depth: usize,
    pub last_axis: Option<MoveAxis>,
    pub last_last_axis: Option<MoveAxis>,
    pub last_move_idx: usize,
}

/// A position of either phase: three coordinates.
pub type Coords = (int, int, int);

pub open spec fn frame_coords(f: Frame) -> Coords {
    (f.state.0 as int, f.state.1 as int, f.state.2 as int)
}

/// The move numbers that led to frame `k` of the stack.
pub open spec fn stack_path(stack: Seq<Frame>, k: int) -> Seq<int> {
    Seq::new(k as nat, |j: int| stack[j + 1].last_move_idx as int)
}

pub open spec fn tried_of(stack: Seq<Frame>) -> Seq<int> {
    Seq::new(stack.len(), |k: int| stack[k].move_idx as int)
}

pub proof fn lemma_path_prefix(stack: Seq<Frame>, n: int, k: int)
    requires
        0 <= k < n <= stack.len(),
    ensures
        stack_path(stack.take(n), k) == stack_path(stack, k),
        stack_path(stack, k) == stack_path(stack, stack.len() - 1).take(k),
{
    assert(stack_path(stack.take(n), k) =~= stack_path(stack, k));
    assert(stack_path(stack, k) =~= stack_path(stack, stack.len() - 1).take(k));
}

pub proof fn lemma_path_grow(stack: Seq<Frame>, f: Frame, k: int)
    requires
        0 <= k <= stack.len(),
    ensures
        k < stack.len() ==> stack_path(stack.push(f), k) == stack_path(stack, k),
        k == stack.len() && k >= 1 ==> stack_path(stack.push(f), k) == stack_path(
            stack,
            k - 1,
        ).push(f.last_move_idx as int),
{
    if k < stack.len() {
        assert(stack_path(stack.push(f), k) =~= stack_path(stack, k));
    } else if k >= 1 {
        assert(stack_path(stack.push(f), k) =~= stack_path(stack, k - 1).push(
            f.last_move_idx as int,
        ));
    }
}

} // verus!

verus! {

/// Below frame `k` of the stack, the moves tried and finished: all tried at the top,
/// all but the one in progress below it.
pub open spec fn done_at(stack: Seq<Frame>, k: int) -> int {
    if k == stack.len() - 1 {
        stack[k].move_idx as int
    } else {
        stack[k].move_idx - 1
    }
}

/// The search has finished with the subtree that `p` lies in: the stack is empty, or
/// `p` leaves the stack's path at some frame by a move already finished there.
pub open spec fn passed(stack: Seq<Frame>, p: Seq<int>) -> bool {
    ||| stack.len() == 0
    ||| exists|k: int|
        #![trigger done_at(stack, k)]
        0 <= k < stack.len() && p.len() > k && p.take(k) == stack_path(stack, k) && p[k] < done_at(
            stack,
            k,
        )
}

/// Each frame above the first was reached by the last move tried below it.
pub open spec fn linked(stack: Seq<Frame>) -> bool {
    forall|k: int| 1 <= k < stack.len() ==> #[trigger] stack[k].last_move_idx == stack[k - 1].move_idx - 1
}

/// Trying one more move at the top and descending into it keeps every reachable
/// solution ahead.
pub proof fn lemma_descend_unpassed(stack: Seq<Frame>, f: Frame, child: Frame, p: Seq<int>)
    requires
        stack.len() >= 1,
        f == (Frame { move_idx: f.move_idx, ..stack.last() }),
        f.move_idx == stack.last().move_idx + 1,
        child.move_idx == 0,
        forall|i: int| 0 <= i < p.len() ==> 0 <= #[trigger] p[i],
        !passed(stack, p),
    ensures
        !passed(stack.drop_last().push(f).push(child), p),
{
    let n = stack.len() as int;
    let s3 = stack.drop_last().push(f).push(child);
    if passed(s3, p) {
        let k = choose|k: int|
            #![trigger done_at(s3, k)]
            0 <= k < s3.len() && p.len() > k && p.take(k) == stack_path(s3, k) && p[k] < done_at(
                s3,
                k,
            );
        if k < n {
            assert(stack_path(s3, k) =~= stack_path(stack, k));
            assert(done_at(stack, k) == done_at(s3, k));
        } else {
            assert(p[k] >= 0);
        }
    }
}

/// A state of the subgroup that phase two works in: every edge and corner oriented,
/// and the middle-slice slots holding middle-slice edges.
pub open spec fn in_g1(s: crate::cube::CubeState) -> bool {
    &&& s.edges.len() == 12
    &&& s.corners.len() == 8
    &&& forall|j: int| 0 <= j < 12 ==> #[trigger] s.edges[j] / 16 == 0
    &&& forall|j: int| 0 <= j < 8 ==> #[trigger] s.corners[j] / 8 == 0
    &&& forall|j: int| 8 <= j < 12 ==> 8 <= #[trigger] (s.edges[j] % 16) < 12
}

/// The ten phase-two moves keep a state in the phase-two subgroup.
pub proof fn lemma_g1_moves_keep_g1(s: crate::cube::CubeState, i: int)
    requires
        in_g1(s),
        0 <= i < 10,
    ensures
        in_g1(crate::cube::turned(s, spec_g1_move(i))),
{
    let mv = spec_g1_move(i);
    let t = crate::cube::turned(s, mv);
    let f = crate::cube::face_edges(mv.axis);
    let g = crate::cube::face_corners(mv.axis);
    let q = crate::moves::spec_quarters(mv.dir);
    assert forall|j: int| 0 <= j < 12 implies #[trigger] t.edges[j] / 16 == 0 && (8 <= j ==> 8 <= (
    t.edges[j] % 16) < 12) by {
        let src = crate::cube::source_slot(f, q, j as u64);
        assert(t.edges[j] == crate::cube::edge_after(s.edges, mv, j));
        assert(src < 12);
        assert(t.edges[j] == s.edges[src as int]);
        assert(8 <= j ==> 8 <= src < 12);
    }
    assert forall|j: int| 0 <= j < 8 implies #[trigger] t.corners[j] / 8 == 0 by {
        let src = crate::cube::source_slot(g, q, j as u64);
        assert(t.corners[j] == crate::cube::corner_after(s.corners, mv, j));
        assert(src < 8);
        assert(s.corners[src as int] / 8 == 0);
    }
}

} // verus!
