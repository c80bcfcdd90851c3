//! Phase two: from a cube in the subgroup reached by phase one to the solved cube,
//! with the ten moves that stay in that subgroup, by iterative deepening over the
//! corner permutation, outer-edge permutation and slice-edge permutation coordinates.

use vstd::prelude::*;
use crate::cube::{Cube, CubeState, solved_state};
use crate::coords::{corner_ids, edge_ids, ids_between, pad_zeros};
use crate::colors::{valid_state, lemma_turn_keeps_valid};
use crate::cube::{turned, apply_moves, lemma_apply_push};
use crate::search::lemma_g1_moves_keep_g1;
use crate::combinatorics::{lemma_lehmer_zero, lemma_increasing_below_len, lemma_lehmer_value_bound, lemma_fact_12};
use crate::tables::lemma_solved_coords;
use crate::coords::{
    KociembaCube,
    cp_coord,
    ep_no_uds_coord,
    ep_uds_coord,
    outer_edges,
    slice_edges,
};
use crate::moves::{MoveAxis, SingleMove};
use crate::search::{
    spec_g1_move,
    g1_move,
    axes_ok,
    step_ok,
    may_follow,
    may_follow_exec,
    last_axis_of,
    last_last_axis_of,
    lemma_axes_push,
    lemma_axes_prefix,
    dfs_measure,
    Frame,
    Coords,
    frame_coords,
    stack_path,
    tried_of,
    lemma_path_prefix,
    lemma_path_grow,
    lemma_measure_bump,
    lemma_measure_descend,
    lemma_measure_pop,
    done_at,
    passed,
    linked,
    lemma_descend_unpassed,
    in_g1,
};

verus! {

/// The lookup tables of phase two. Move tables hold ten entries per coordinate value,
/// one per phase-two move: `cp_move` and `ep_no_uds_move` for the 40320 values of the
/// corner and outer-edge permutations, `ep_uds_move` for the 24 values of the slice
/// permutation. The pruning tables hold, per slice permutation and corner (or outer
/// edge) permutation, a lower bound on the moves left.
pub struct G2Tables {
    pub cp_move: Vec<u16>,
    pub ep_no_uds_move: Vec<u16>,
    pub ep_uds_move: Vec<u16>,
    pub cp_uds_table: Vec<u8>,
    pub ep_table: Vec<u8>,
}

impl G2Tables {
    /// The tables have their sizes, and every move-table entry is a coordinate value.
    pub open spec fn wf(&self) -> bool {
        &&& self.cp_move@.len() == 403200
        &&& self.ep_no_uds_move@.len() == 403200
        &&& self.ep_uds_move@.len() == 240
        &&& self.cp_uds_table@.len() == 967680
        &&& self.ep_table@.len() == 967680
        &&& forall|i: int| 0 <= i < 403200 ==> #[trigger] self.cp_move@[i] < 40320
        &&& forall|i: int| 0 <= i < 403200 ==> #[trigger] self.ep_no_uds_move@[i] < 40320
        &&& forall|i: int| 0 <= i < 240 ==> #[trigger] self.ep_uds_move@[i] < 24
    }
}


pub open spec fn g2_in_range(st: Coords) -> bool {
    0 <= st.0 < 40320 && 0 <= st.1 < 40320 && 0 <= st.2 < 24
}

/// The coordinates of a cube state.
pub open spec fn g2_coords(s: CubeState) -> Coords {
    (cp_coord(s), ep_no_uds_coord(s), ep_uds_coord(s))
}

/// The estimate of the moves left: the larger of the two pruning-table entries.
pub open spec fn g2_h(t: G2Tables, st: Coords) -> int {
    let a = t.cp_uds_table@[st.2 * 40320 + st.0] as int;
    let b = t.ep_table@[st.2 * 40320 + st.1] as int;
    if a >= b {
        a
    } else {
        b
    }
}

/// The position after phase-two move `m`, by the move tables.
pub open spec fn g2_step(t: G2Tables, st: Coords, m: int) -> Coords {
    (
        t.cp_move@[st.0 * 10 + m] as int,
        t.ep_no_uds_move@[st.1 * 10 + m] as int,
        t.ep_uds_move@[st.2 * 10 + m] as int,
    )
}

/// The position after a sequence of phase-two moves.
pub open spec fn g2_run(t: G2Tables, st: Coords, path: Seq<int>) -> Coords
    decreases path.len(),
{
    if path.len() == 0 {
        st
    } else {
        g2_step(t, g2_run(t, st, path.drop_last()), path.last())
    }
}

/// The moves that a sequence of phase-two move numbers stands for.
pub open spec fn g1_moves_of(path: Seq<int>) -> Seq<SingleMove> {
    path.map_values(|i: int| spec_g1_move(i))
}

/// `path` (move numbers 0 to 9, axes in search order) leads from `st` to a position
/// whose estimate is 0.
pub open spec fn g2_solves(t: G2Tables, st: Coords, path: Seq<int>) -> bool {
    &&& forall|i: int| 0 <= i < path.len() ==> 0 <= #[trigger] path[i] < 10
    &&& axes_ok(g1_moves_of(path))
    &&& g2_h(t, g2_run(t, st, path)) == 0
}

pub proof fn lemma_g2_run_in_range(t: G2Tables, st: Coords, path: Seq<int>)
    requires
        t.wf(),
        g2_in_range(st),
        forall|i: int| 0 <= i < path.len() ==> 0 <= #[trigger] path[i] < 10,
    ensures
        g2_in_range(g2_run(t, st, path)),
    decreases path.len(),
{
    if path.len() > 0 {
        let p = path.drop_last();
        assert forall|i: int| 0 <= i < p.len() implies 0 <= #[trigger] p[i] < 10 by {
            assert(p[i] == path[i]);
        }
        lemma_g2_run_in_range(t, st, p);
        let q = g2_run(t, st, p);
        let m = path.last();
        assert(0 <= m < 10) by {
            assert(path[path.len() - 1] == m);
        }
        assert(0 <= q.0 * 10 + m < 403200) by (nonlinear_arith)
            requires
                0 <= q.0 < 40320,
                0 <= m < 10,
        ;
        assert(0 <= q.1 * 10 + m < 403200) by (nonlinear_arith)
            requires
                0 <= q.1 < 40320,
                0 <= m < 10,
        ;
        assert(0 <= q.2 * 10 + m < 240) by (nonlinear_arith)
            requires
                0 <= q.2 < 24,
                0 <= m < 10,
        ;
    }
}

/// When the solved pair is the only one at distance 0 in both pruning tables (as in
/// the generated tables), the positions that phase two accepts as finished are exactly
/// the coordinates of the solved cube.
pub proof fn lemma_goal_is_solved(t: G2Tables, st: Coords)
    requires
        t.wf(),
        g2_in_range(st),
        forall|i: int| 0 <= i < 967680 ==> (#[trigger] t.cp_uds_table@[i] == 0 <==> i == 0),
        forall|i: int| 0 <= i < 967680 ==> (#[trigger] t.ep_table@[i] == 0 <==> i == 0),
    ensures
        g2_h(t, st) == 0 <==> st == (0int, 0int, 0int),
{
    let a = st.2 * 40320 + st.0;
    let b = st.2 * 40320 + st.1;
    assert(0 <= a < 967680 && 0 <= b < 967680) by (nonlinear_arith)
        requires
            a == st.2 * 40320 + st.0,
            b == st.2 * 40320 + st.1,
            g2_in_range(st),
    ;
    assert(a == 0 <==> st.2 == 0 && st.0 == 0) by (nonlinear_arith)
        requires
            a == st.2 * 40320 + st.0,
            g2_in_range(st),
    ;
    assert(b == 0 <==> st.2 == 0 && st.1 == 0) by (nonlinear_arith)
        requires
            b == st.2 * 40320 + st.1,
            g2_in_range(st),
    ;
    assert(t.cp_uds_table@[a] == 0 <==> a == 0);
    assert(t.ep_table@[b] == 0 <==> b == 0);
}

/// In the phase-two group, with all edges present, the outer slots hold the outer edges
/// and the middle-slice slots the middle-slice edges.
proof fn lemma_g1_edge_slots(s: CubeState)
    requires
        valid_state(s),
        in_g1(s),
    ensures
        forall|j: int| 0 <= j < 8 ==> #[trigger] edge_ids(s)[j] < 8,
        forall|j: int| 8 <= j < 12 ==> 8 <= #[trigger] edge_ids(s)[j] < 12,
{
    let ids = edge_ids(s);
    assert forall|j: int| 0 <= j < 8 implies #[trigger] ids[j] < 8 by {
        assert(s.edges[j] % 16 < 12);
        if ids[j] >= 8 {
            assert(8 <= ids[8] < 12 && 8 <= ids[9] < 12 && 8 <= ids[10] < 12 && 8 <= ids[11] < 12);
            assert(s.edges[j] % 16 != s.edges[8] % 16);
            assert(s.edges[j] % 16 != s.edges[9] % 16);
            assert(s.edges[j] % 16 != s.edges[10] % 16);
            assert(s.edges[j] % 16 != s.edges[11] % 16);
            assert(s.edges[8] % 16 != s.edges[9] % 16);
            assert(s.edges[8] % 16 != s.edges[10] % 16);
            assert(s.edges[8] % 16 != s.edges[11] % 16);
            assert(s.edges[9] % 16 != s.edges[10] % 16);
            assert(s.edges[9] % 16 != s.edges[11] % 16);
            assert(s.edges[10] % 16 != s.edges[11] % 16);
        }
    }
    assert forall|j: int| 8 <= j < 12 implies 8 <= #[trigger] ids[j] < 12 by {
        assert(8 <= s.edges[j] % 16 < 12);
    }
}

/// In the phase-two group, with all edges present, the outer edges are read from the
/// first eight slots and the middle-slice edges from the last four.
proof fn lemma_g1_edge_lists(s: CubeState)
    requires
        valid_state(s),
        in_g1(s),
    ensures
        outer_edges(s) == edge_ids(s).take(8),
        slice_edges(s) == Seq::new(4, |i: int| (edge_ids(s)[i + 8] - 8) as u64),
{
    lemma_g1_edge_slots(s);
    let ids = edge_ids(s);
    lemma_between_run(ids, 0, 12, 0, 8, 8);
    assert(outer_edges(s) =~= ids.take(8));
    lemma_between_run(ids, 8, 12, 8, 16, 12);
    assert(slice_edges(s) =~= Seq::new(4, |i: int| (ids[i + 8] - 8) as u64));
}

/// The ids among the first `m` that lie in `lo .. hi`, when exactly those in slots
/// `a .. b` do: the ids of those slots, less `lo`.
proof fn lemma_between_run(ids: Seq<u64>, a: int, m: int, lo: u64, hi: u64, b: int)
    requires
        0 <= a <= b <= m <= ids.len(),
        forall|k: int| 0 <= k < m ==> (lo <= #[trigger] ids[k] < hi <==> a <= k < b),
    ensures
        ids_between(ids, m, lo, hi) == Seq::new((b - a) as nat, |i: int| (ids[a + i] - lo) as u64),
    decreases m,
{
    if m > 0 {
        if a < b && b == m {
            lemma_between_run(ids, a, m - 1, lo, hi, b - 1);
            let prev = Seq::new((b - 1 - a) as nat, |i: int| (ids[a + i] - lo) as u64);
            assert(lo <= ids[m - 1] < hi);
            assert(prev.push((ids[m - 1] - lo) as u64) =~= Seq::new(
                (b - a) as nat,
                |i: int| (ids[a + i] - lo) as u64,
            ));
        } else if b == m {
            lemma_between_run(ids, m - 1, m - 1, lo, hi, m - 1);
            assert(!(lo <= ids[m - 1] < hi));
        } else {
            lemma_between_run(ids, a, m - 1, lo, hi, b);
            assert(!(lo <= ids[m - 1] < hi));
        }
    }
}

/// A cube of the phase-two group with all its pieces (twelve different edges, eight
/// different corners) whose three phase-two coordinates are 0 has every piece home and
/// oriented: the goal of phase two is the solved cube.
pub proof fn lemma_zero_coords_solved(s: CubeState)
    requires
        valid_state(s),
        in_g1(s),
        cp_coord(s) == 0,
        ep_no_uds_coord(s) == 0,
        ep_uds_coord(s) == 0,
    ensures
        s.edges == solved_state().edges,
        s.corners == solved_state().corners,
{
    let c = corner_ids(s);
    assert forall|i: int, j: int| 0 <= i < j <= 7 implies c[i] != c[j] by {
        assert(s.corners[i] % 8 != s.corners[j] % 8);
    }
    lemma_lehmer_zero(c, 7);
    lemma_increasing_below_len(c);
    assert forall|i: int| 0 <= i < 8 implies s.corners[i] == i by {
        assert(s.corners[i] / 8 == 0);
        assert(c[i] == i);
    }
    assert(s.corners =~= solved_state().corners);
    let ids = edge_ids(s);
    lemma_g1_edge_slots(s);
    lemma_g1_edge_lists(s);
    let outer = pad_zeros(outer_edges(s), 8);
    let slice = pad_zeros(slice_edges(s), 4);
    assert(outer =~= outer_edges(s));
    assert(slice =~= slice_edges(s));
    assert forall|i: int, j: int| 0 <= i < j <= 7 implies outer[i] != outer[j] by {
        assert(s.edges[i] % 16 != s.edges[j] % 16);
    }
    lemma_lehmer_zero(outer, 7);
    lemma_increasing_below_len(outer);
    assert forall|i: int, j: int| 0 <= i < j <= 3 implies slice[i] != slice[j] by {
        assert(s.edges[i + 8] % 16 != s.edges[j + 8] % 16);
    }
    lemma_lehmer_zero(slice, 3);
    lemma_increasing_below_len(slice);
    assert forall|i: int| 0 <= i < 12 implies s.edges[i] == i by {
        assert(s.edges[i] / 16 == 0);
        if i < 8 {
            assert(outer[i] == i);
        } else {
            assert(slice[i - 8] == i - 8);
        }
    }
    assert(s.edges =~= solved_state().edges);
}

/// The coordinates of any cube state lie in the tables' ranges.
pub proof fn lemma_coords_in_range(s: CubeState)
    ensures
        g2_in_range(g2_coords(s)),
{
    lemma_fact_12();
    lemma_lehmer_value_bound(corner_ids(s), 7);
    lemma_lehmer_value_bound(pad_zeros(outer_edges(s), 8), 7);
    lemma_lehmer_value_bound(pad_zeros(slice_edges(s), 4), 3);
}

/// With pruning tables that rate only the solved pair 0 (as the generated tables do),
/// a cube of the phase-two group with all its pieces is rated 0 exactly when every
/// piece is home and oriented: phase two stops at the solved cube and nowhere else.
pub proof fn lemma_rated_zero_iff_solved(t: G2Tables, s: CubeState)
    requires
        t.wf(),
        forall|i: int| 0 <= i < 967680 ==> (#[trigger] t.cp_uds_table@[i] == 0 <==> i == 0),
        forall|i: int| 0 <= i < 967680 ==> (#[trigger] t.ep_table@[i] == 0 <==> i == 0),
        valid_state(s),
        in_g1(s),
    ensures
        g2_h(t, g2_coords(s)) == 0 <==> (s.edges == solved_state().edges && s.corners
            == solved_state().corners),
{
    lemma_coords_in_range(s);
    lemma_goal_is_solved(t, g2_coords(s));
    if g2_h(t, g2_coords(s)) == 0 {
        lemma_zero_coords_solved(s);
    }
    if s.edges == solved_state().edges && s.corners == solved_state().corners {
        lemma_solved_coords();
        assert(corner_ids(s) =~= corner_ids(solved_state()));
        assert(edge_ids(s) =~= edge_ids(solved_state()));
    }
}

/// The phase-two tables follow the cube: each phase-two move moves the coordinates of
/// every complete cube of the phase-two group as the move tables say, and only the
/// solved pairs are rated 0.
pub open spec fn g2_exact(t: G2Tables) -> bool {
    &&& t.wf()
    &&& forall|s: CubeState, m: int|
        valid_state(s) && in_g1(s) && 0 <= m < 10 ==> #[trigger] g2_coords(turned(s, spec_g1_move(m)))
            == g2_step(t, g2_coords(s), m)
    &&& forall|i: int| 0 <= i < 967680 ==> (#[trigger] t.cp_uds_table@[i] == 0 <==> i == 0)
    &&& forall|i: int| 0 <= i < 967680 ==> (#[trigger] t.ep_table@[i] == 0 <==> i == 0)
}

/// Under exact tables, a run of the move tables is the coordinates of the cube the
/// moves give, which stays complete and in the phase-two group.
pub proof fn lemma_g2_run_exact(t: G2Tables, s: CubeState, p: Seq<int>)
    requires
        g2_exact(t),
        valid_state(s),
        in_g1(s),
        forall|i: int| 0 <= i < p.len() ==> 0 <= #[trigger] p[i] < 10,
    ensures
        valid_state(apply_moves(s, g1_moves_of(p))),
        in_g1(apply_moves(s, g1_moves_of(p))),
        g2_coords(apply_moves(s, g1_moves_of(p))) == g2_run(t, g2_coords(s), p),
    decreases p.len(),
{
    if p.len() == 0 {
        assert(g1_moves_of(p) =~= Seq::<SingleMove>::empty());
    } else {
        let q = p.drop_last();
        let m = p.last();
        assert forall|i: int| 0 <= i < q.len() implies 0 <= #[trigger] q[i] < 10 by {
            assert(q[i] == p[i]);
        }
        lemma_g2_run_exact(t, s, q);
        assert(g1_moves_of(p) =~= g1_moves_of(q).push(spec_g1_move(m)));
        lemma_apply_push(s, g1_moves_of(q), spec_g1_move(m));
        let a = apply_moves(s, g1_moves_of(q));
        assert(0 <= m < 10) by {
            assert(p[p.len() - 1] == m);
        }
        lemma_turn_keeps_valid(a, spec_g1_move(m));
        lemma_g1_moves_keep_g1(a, m);
        assert(g2_coords(turned(a, spec_g1_move(m))) == g2_step(t, g2_coords(a), m));
    }
}

/// Under exact tables, a phase-two answer solves a complete cube of the phase-two
/// group: every piece ends home and oriented.
pub proof fn lemma_g2_answer_solves(t: G2Tables, s: CubeState, path: Seq<int>)
    requires
        g2_exact(t),
        valid_state(s),
        in_g1(s),
        g2_solves(t, g2_coords(s), path),
    ensures
        apply_moves(s, g1_moves_of(path)).edges == solved_state().edges,
        apply_moves(s, g1_moves_of(path)).corners == solved_state().corners,
{
    lemma_g2_run_exact(t, s, path);
    lemma_rated_zero_iff_solved(t, apply_moves(s, g1_moves_of(path)));
}

/// The estimate for a position, read from the pruning tables.
fn g2_estimate(t: &G2Tables, cp: usize, ep_no_uds: usize, ep_uds: usize) -> (h: usize)
    requires
        t.wf(),
        g2_in_range((cp as int, ep_no_uds as int, ep_uds as int)),
    ensures
        h == g2_h(*t, (cp as int, ep_no_uds as int, ep_uds as int)),
        h <= 255,
{
    assert(ep_uds * 40320 + cp < 967680) by (nonlinear_arith)
        requires
            ep_uds < 24,
            cp < 40320,
    ;
    assert(ep_uds * 40320 + ep_no_uds < 967680) by (nonlinear_arith)
        requires
            ep_uds < 24,
            ep_no_uds < 40320,
    ;
    let a = t.cp_uds_table[ep_uds * 40320 + cp];
    let b = t.ep_table[ep_uds * 40320 + ep_no_uds];
    if a >= b {
        a as usize
    } else {
        b as usize
    }
}

spec fn frame_ok(t: G2Tables, start: Coords, stack: Seq<Frame>, k: int, limit: int) -> bool {
    let f = stack[k];
    let path = stack_path(stack, k);
    &&& frame_coords(f) == g2_run(t, start, path)
    &&& g2_in_range(frame_coords(f))
    &&& f.depth == k
    &&& k <= limit
    &&& f.move_idx <= 10
    &&& f.move_idx > 0 ==> g2_h(t, frame_coords(f)) > 0
    &&& (k >= 1 ==> f.last_move_idx < 10)
    &&& f.last_axis == last_axis_of(g1_moves_of(path))
    &&& f.last_last_axis == last_last_axis_of(g1_moves_of(path))
}

spec fn stack_ok(t: G2Tables, start: Coords, stack: Seq<Frame>, limit: int) -> bool {
    &&& stack.len() >= 1
    &&& forall|k: int| 0 <= k < stack.len() ==> #[trigger] frame_ok(t, start, stack, k, limit)
    &&& axes_ok(g1_moves_of(stack_path(stack, stack.len() - 1)))
}

proof fn lemma_moves_push(path: Seq<int>, m: int)
    ensures
        g1_moves_of(path.push(m)) == g1_moves_of(path).push(spec_g1_move(m)),
        g1_moves_of(path).len() == path.len(),
{
    assert(g1_moves_of(path.push(m)) =~= g1_moves_of(path).push(spec_g1_move(m)));
}

proof fn lemma_moves_take(path: Seq<int>, k: int)
    requires
        0 <= k <= path.len(),
    ensures
        g1_moves_of(path.take(k)) == g1_moves_of(path).take(k),
{
    assert(g1_moves_of(path.take(k)) =~= g1_moves_of(path).take(k));
}

/// Replacing the top frame by one with more moves tried keeps the stack in order.
proof fn lemma_stack_bump(
    t: G2Tables,
    start: Coords,
    stack: Seq<Frame>,
    limit: int,
    f: Frame,
)
    requires
        stack_ok(t, start, stack, limit),
        f == (Frame { move_idx: f.move_idx, ..stack.last() }),
        stack.last().move_idx < f.move_idx <= 10,
        g2_h(t, frame_coords(stack.last())) > 0,
    ensures
        stack_ok(t, start, stack.drop_last().push(f), limit),
{
    let n = stack.len() as int;
    let s2 = stack.drop_last().push(f);
    assert forall|k: int| 0 <= k < n implies #[trigger] frame_ok(t, start, s2, k, limit) by {
        assert(frame_ok(t, start, stack, k, limit));
        assert(stack_path(s2, k) =~= stack_path(stack, k));
    }
    assert(stack_path(s2, n - 1) =~= stack_path(stack, n - 1));
}

/// Dropping the top frame keeps the stack in order.
proof fn lemma_stack_pop(t: G2Tables, start: Coords, stack: Seq<Frame>, limit: int)
    requires
        stack_ok(t, start, stack, limit),
        stack.len() >= 2,
    ensures
        stack_ok(t, start, stack.drop_last(), limit),
{
    let n = stack.len() as int;
    let s2 = stack.drop_last();
    assert forall|k: int| 0 <= k < n - 1 implies #[trigger] frame_ok(t, start, s2, k, limit) by {
        assert(frame_ok(t, start, stack, k, limit));
        lemma_path_prefix(stack, n - 1, k);
    }
    lemma_path_prefix(stack, n - 1, n - 2);
    lemma_moves_take(stack_path(stack, n - 1), n - 2);
    lemma_axes_prefix(g1_moves_of(stack_path(stack, n - 1)), n - 2);
}

/// Pushing the frame that move `m` leads to keeps the stack in order.
proof fn lemma_stack_push(
    t: G2Tables,
    start: Coords,
    stack: Seq<Frame>,
    limit: int,
    f: Frame,
)
    requires
        t.wf(),
        stack_ok(t, start, stack, limit),
        0 <= f.last_move_idx < 10,
        stack.len() <= limit,
        may_follow(
            stack.last().last_axis,
            stack.last().last_last_axis,
            spec_g1_move(f.last_move_idx as int).axis,
        ),
        frame_coords(f) == g2_step(t, frame_coords(stack.last()), f.last_move_idx as int),
        f.move_idx == 0,
        f.depth == stack.len(),
        f.last_axis == Some(spec_g1_move(f.last_move_idx as int).axis),
        f.last_last_axis == stack.last().last_axis,
    ensures
        stack_ok(t, start, stack.push(f), limit),
{
    let n = stack.len() as int;
    let s2 = stack.push(f);
    let top = stack.last();
    assert(frame_ok(t, start, stack, n - 1, limit));
    let p = stack_path(stack, n - 1);
    let m = f.last_move_idx as int;
    assert forall|k: int| 0 <= k <= n implies #[trigger] frame_ok(t, start, s2, k, limit) by {
        lemma_path_grow(stack, f, k);
        if k < n {
            assert(frame_ok(t, start, stack, k, limit));
            assert(s2[k] == stack[k]);
        } else {
            assert(s2[k] == f);
            assert(stack_path(s2, n) =~= p.push(m));
            assert(p.push(m).drop_last() =~= p);
            lemma_moves_push(p, m);
            let q = frame_coords(top);
            assert(0 <= q.0 * 10 + m < 403200) by (nonlinear_arith)
                requires
                    0 <= q.0 < 40320,
                    0 <= m < 10,
            ;
            assert(0 <= q.1 * 10 + m < 403200) by (nonlinear_arith)
                requires
                    0 <= q.1 < 40320,
                    0 <= m < 10,
            ;
            assert(0 <= q.2 * 10 + m < 240) by (nonlinear_arith)
                requires
                    0 <= q.2 < 24,
                    0 <= m < 10,
            ;
            let mv = g1_moves_of(p);
            if n >= 2 {
                assert(mv.push(spec_g1_move(m))[mv.len() - 1] == mv[mv.len() - 1]);
            }
        }
    }
    assert(stack_path(s2, n) =~= p.push(m));
    lemma_moves_push(p, m);
    lemma_axes_push(g1_moves_of(p), spec_g1_move(m));
}

/// `p` is a solution that a search with bound `limit` reaches: move numbers 0 to 9,
/// axes in search order, every prefix's length plus the estimate after it within the
/// bound, and estimate 0 at the end.
pub open spec fn g2_bounded(t: G2Tables, st: Coords, p: Seq<int>, limit: int) -> bool {
    &&& forall|i: int| 0 <= i < p.len() ==> 0 <= #[trigger] p[i] < 10
    &&& axes_ok(g1_moves_of(p))
    &&& forall|j: int| 0 <= j <= p.len() ==> j + g2_h(t, #[trigger] g2_run(t, st, p.take(j))) <= limit
    &&& g2_h(t, g2_run(t, st, p)) == 0
}

/// No search whose bound lies below the estimate of the start reaches a solution.
proof fn lemma_bounded_start(t: G2Tables, st: Coords, p: Seq<int>, l: int)
    requires
        l < g2_h(t, st),
    ensures
        !g2_bounded(t, st, p, l),
{
    assert(p.take(0) =~= Seq::<int>::empty());
    assert(g2_run(t, st, p.take(0)) == st);
}

/// A path that follows the stack to its top lies in a finished subtree when the top is
/// pruned or has tried all its moves.
proof fn lemma_top_finished(t: G2Tables, start: Coords, stack: Seq<Frame>, limit: int, p: Seq<int>)
    requires
        stack_ok(t, start, stack, limit),
        ({
            let n = stack.len() as int;
            let top = stack[n - 1];
            (n - 1) + g2_h(t, frame_coords(top)) > limit || top.move_idx >= 10
        }),
        g2_bounded(t, start, p, limit),
        p.len() >= stack.len() - 1,
        p.take(stack.len() - 1) == stack_path(stack, stack.len() - 1),
    ensures
        passed(stack, p),
{
    let n = stack.len() as int;
    let top = stack[n - 1];
    assert(frame_ok(t, start, stack, n - 1, limit));
    let c = g2_run(t, start, p.take(n - 1));
    assert(c == frame_coords(top));
    assert((n - 1) + g2_h(t, c) <= limit);
    if p.len() == n - 1 {
        assert(p.take(n - 1) =~= p);
        assert(g2_h(t, c) == 0);
    } else {
        assert(p[n - 1] < 10);
        assert(done_at(stack, n - 1) == top.move_idx);
    }
}

/// Dropping a pruned or finished top keeps every reachable solution ahead.
proof fn lemma_pop_unpassed(t: G2Tables, start: Coords, stack: Seq<Frame>, limit: int, p: Seq<int>)
    requires
        stack_ok(t, start, stack, limit),
        linked(stack),
        ({
            let n = stack.len() as int;
            let top = stack[n - 1];
            (n - 1) + g2_h(t, frame_coords(top)) > limit || top.move_idx >= 10
        }),
        g2_bounded(t, start, p, limit),
        !passed(stack, p),
    ensures
        !passed(stack.drop_last(), p),
{
    let n = stack.len() as int;
    let s2 = stack.drop_last();
    if n == 1 {
        assert(p.take(0) =~= stack_path(stack, 0));
        lemma_top_finished(t, start, stack, limit, p);
    } else if passed(s2, p) {
        let k = choose|k: int|
            #![trigger done_at(s2, k)]
            0 <= k < s2.len() && p.len() > k && p.take(k) == stack_path(s2, k) && p[k] < done_at(
                s2,
                k,
            );
        lemma_path_prefix(stack, n - 1, k);
        if k < n - 2 {
            assert(done_at(stack, k) == done_at(s2, k));
        } else {
            assert(k == n - 2);
            if p[k] < stack[k].move_idx - 1 {
                assert(done_at(stack, k) == stack[k].move_idx - 1);
            } else {
                assert(stack[n - 1].last_move_idx == stack[n - 2].move_idx - 1);
                assert(p[k] == stack[n - 1].last_move_idx);
                assert(p.take(n - 1) =~= stack_path(stack, n - 1)) by {
                    assert(p.take(n - 1) =~= p.take(k).push(p[k]));
                    assert(stack_path(stack, n - 1) =~= stack_path(stack, k).push(
                        stack[n - 1].last_move_idx as int,
                    ));
                }
                lemma_top_finished(t, start, stack, limit, p);
            }
        }
    }
}

/// Whether a move may follow is the axis rule at that place of the sequence.
proof fn lemma_step_is_follow(p: Seq<int>, stack: Seq<Frame>, t: G2Tables, start: Coords, limit: int)
    requires
        stack_ok(t, start, stack, limit),
        stack.len() >= 1,
        p.len() > stack.len() - 1,
        p.take(stack.len() - 1) == stack_path(stack, stack.len() - 1),
        axes_ok(g1_moves_of(p)),
    ensures
        may_follow(
            stack.last().last_axis,
            stack.last().last_last_axis,
            spec_g1_move(p[stack.len() - 1]).axis,
        ),
{
    let n = stack.len() as int;
    assert(frame_ok(t, start, stack, n - 1, limit));
    let ms = g1_moves_of(p);
    let pre = g1_moves_of(stack_path(stack, n - 1));
    assert(pre =~= ms.take(n - 1)) by {
        lemma_moves_take(p, n - 1);
    }
    if n - 1 >= 1 {
        assert(step_ok(ms, n - 1));
        assert(pre.last() == ms[n - 2]);
        if n - 1 >= 2 {
            assert(pre[pre.len() - 2] == ms[n - 3]);
        }
    }
}

/// Trying one more move at the top without descending keeps every reachable solution
/// ahead, when the move may not follow.
proof fn lemma_skip_unpassed(
    t: G2Tables,
    start: Coords,
    stack: Seq<Frame>,
    limit: int,
    f: Frame,
    p: Seq<int>,
)
    requires
        stack_ok(t, start, stack, limit),
        stack.len() >= 1,
        f == (Frame { move_idx: f.move_idx, ..stack.last() }),
        f.move_idx == stack.last().move_idx + 1,
        !may_follow(
            stack.last().last_axis,
            stack.last().last_last_axis,
            spec_g1_move(stack.last().move_idx as int).axis,
        ),
        g2_bounded(t, start, p, limit),
        !passed(stack, p),
    ensures
        !passed(stack.drop_last().push(f), p),
{
    let n = stack.len() as int;
    let s2 = stack.drop_last().push(f);
    if passed(s2, p) {
        let k = choose|k: int|
            #![trigger done_at(s2, k)]
            0 <= k < s2.len() && p.len() > k && p.take(k) == stack_path(s2, k) && p[k] < done_at(
                s2,
                k,
            );
        assert(stack_path(s2, k) =~= stack_path(stack, k));
        if k < n - 1 {
            assert(done_at(stack, k) == done_at(s2, k));
        } else if p[k] < stack.last().move_idx {
            assert(done_at(stack, k) == stack.last().move_idx);
        } else {
            lemma_step_is_follow(p, stack, t, start, limit);
        }
    }
}

/// The moves that led to the top frame.
fn path_moves(stack: &Vec<Frame>) -> (r: Vec<SingleMove>)
    requires
        stack@.len() >= 1,
        forall|k: int| 1 <= k < stack@.len() ==> #[trigger] stack@[k].last_move_idx < 10,
    ensures
        r@ == g1_moves_of(stack_path(stack@, stack@.len() - 1)),
{
    let mut r: Vec<SingleMove> = Vec::new();
    let mut j: usize = 1;
    while j < stack.len()
        invariant
            1 <= j <= stack@.len(),
            forall|k: int| 1 <= k < stack@.len() ==> #[trigger] stack@[k].last_move_idx < 10,
            r@ == g1_moves_of(stack_path(stack@, j - 1)),
        decreases stack@.len() - j,
    {
        let m = stack[j].last_move_idx;
        r.push(g1_move(m));
        proof {
            assert(stack_path(stack@, j as int) =~= stack_path(stack@, j - 1).push(m as int));
            lemma_moves_push(stack_path(stack@, j - 1), m as int);
        }
        j = j + 1;
    }
    r
}

/// One depth-first pass with a bound of `limit` moves.
fn g2_dfs(t: &G2Tables, cp0: usize, enu0: usize, eu0: usize, limit: usize) -> (r: Option<
    Vec<SingleMove>,
>)
    requires
        t.wf(),
        g2_in_range((cp0 as int, enu0 as int, eu0 as int)),
    ensures
        r matches Some(moves) ==> exists|path: Seq<int>|
            #![trigger g1_moves_of(path)]
            g2_solves(*t, (cp0 as int, enu0 as int, eu0 as int), path) && path.len() <= limit
                && moves@ == g1_moves_of(path),
        g2_h(*t, (cp0 as int, enu0 as int, eu0 as int)) == 0 ==> (r matches Some(moves)
            && moves@.len() == 0),
        r is None ==> forall|p: Seq<int>|
            !#[trigger] g2_bounded(*t, (cp0 as int, enu0 as int, eu0 as int), p, limit as int),
{
    let ghost start: Coords = (cp0 as int, enu0 as int, eu0 as int);
    let mut stack: Vec<Frame> = Vec::new();
    stack.push(
        Frame {
            state: (cp0, enu0, eu0),
            move_idx: 0,
            depth: 0,
            last_axis: None,
            last_last_axis: None,
            last_move_idx: 0,
        },
    );
    proof {
        assert(stack_path(stack@, 0) =~= Seq::<int>::empty());
        assert(g1_moves_of(Seq::<int>::empty()) =~= Seq::<SingleMove>::empty());
        assert(frame_ok(*t, start, stack@, 0, limit as int));
        assert forall|p: Seq<int>| #[trigger] g2_bounded(*t, start, p, limit as int) implies !passed(
            stack@,
            p,
        ) by {
            if passed(stack@, p) {
                let k = choose|k: int|
                    #![trigger done_at(stack@, k)]
                    0 <= k < stack@.len() && p.len() > k && p.take(k) == stack_path(stack@, k)
                        && p[k] < done_at(stack@, k);
                assert(k == 0);
                assert(p[0] >= 0);
            }
        }
    }
    while stack.len() > 0
        invariant
            t.wf(),
            start == (cp0 as int, enu0 as int, eu0 as int),
            stack@.len() > 0 ==> stack_ok(*t, start, stack@, limit as int),
            stack@.len() > 0 ==> linked(stack@),
            forall|p: Seq<int>| #[trigger] g2_bounded(*t, start, p, limit as int) ==> !passed(stack@, p),
            g2_h(*t, start) == 0 ==> stack@.len() == 1 && stack@[0].move_idx == 0,
        decreases dfs_measure(tried_of(stack@), 10, limit as nat),
    {
        let n = stack.len();
        let top = stack[n - 1];
        proof {
            assert(frame_ok(*t, start, stack@, n - 1, limit as int));
        }
        let h = g2_estimate(t, top.state.0, top.state.1, top.state.2);
        proof {
            if n == 1 {
                assert(stack_path(stack@, 0) =~= Seq::<int>::empty());
            }
        }
        if h == 0 && top.move_idx == 0 {
            proof {
                assert forall|k: int| 1 <= k < stack@.len() implies #[trigger] stack@[k].last_move_idx
                    < 10 by {
                    assert(frame_ok(*t, start, stack@, k, limit as int));
                }
            }
            let moves = path_moves(&stack);
            proof {
                let path = stack_path(stack@, n - 1);
                assert forall|i: int| 0 <= i < path.len() implies 0 <= #[trigger] path[i] < 10 by {
                    assert(frame_ok(*t, start, stack@, i + 1, limit as int));
                }
                assert(g2_solves(*t, start, path));
                assert(g1_moves_of(path) == moves@);
            }
            return Some(moves);
        }
        let ghost tried = tried_of(stack@);
        proof {
            assert(tried.last() == top.move_idx);
            assert(tried.len() - 1 <= limit);
        }
        if h > limit - top.depth || top.move_idx >= 10 {
            let ghost before = stack@;
            stack.pop();
            proof {
                lemma_measure_pop(tried, 10, limit as nat);
                assert(stack@ =~= before.drop_last());
                assert(tried_of(stack@) =~= tried.drop_last());
                if stack@.len() > 0 {
                    lemma_stack_pop(*t, start, before, limit as int);
                    assert forall|k: int| 1 <= k < stack@.len() implies #[trigger] stack@[k].last_move_idx
                        == stack@[k - 1].move_idx - 1 by {
                        assert(before[k].last_move_idx == before[k - 1].move_idx - 1);
                    }
                }
                assert forall|p: Seq<int>| #[trigger] g2_bounded(*t, start, p, limit as int) implies !passed(
                    stack@,
                    p,
                ) by {
                    lemma_pop_unpassed(*t, start, before, limit as int, p);
                }
            }
            continue;
        }
        proof {
            assert(h > 0);
            assert(n <= limit);
        }
        let cur = top.move_idx;
        let bumped = Frame { move_idx: cur + 1, ..top };
        let ghost before_bump = stack@;
        proof {
            lemma_stack_bump(*t, start, stack@, limit as int, bumped);
            lemma_measure_bump(tried, cur + 1, 10, limit as nat);
        }
        stack.set(n - 1, bumped);
        proof {
            assert(tried_of(stack@) =~= tried.drop_last().push(cur + 1));
            assert(stack@ =~= before_bump.drop_last().push(bumped));
        }
        proof {
            assert forall|k: int| 1 <= k < stack@.len() implies #[trigger] stack@[k].last_move_idx
                == stack@[k - 1].move_idx - 1 by {
                assert(before_bump[k].last_move_idx == before_bump[k - 1].move_idx - 1);
            }
        }
        let mv = g1_move(cur);
        if !may_follow_exec(top.last_axis, top.last_last_axis, mv.axis) {
            proof {
                assert forall|p: Seq<int>| #[trigger] g2_bounded(*t, start, p, limit as int) implies !passed(
                    stack@,
                    p,
                ) by {
                    lemma_skip_unpassed(*t, start, before_bump, limit as int, bumped, p);
                }
            }
            continue;
        }
        let ghost before = stack@;
        proof {
            assert(top.state.0 * 10 + cur < 403200) by (nonlinear_arith)
                requires
                    top.state.0 < 40320,
                    cur < 10,
            ;
            assert(top.state.1 * 10 + cur < 403200) by (nonlinear_arith)
                requires
                    top.state.1 < 40320,
                    cur < 10,
            ;
            assert(top.state.2 * 10 + cur < 240) by (nonlinear_arith)
                requires
                    top.state.2 < 24,
                    cur < 10,
            ;
        }
        let child = Frame {
            state: (
                t.cp_move[top.state.0 * 10 + cur] as usize,
                t.ep_no_uds_move[top.state.1 * 10 + cur] as usize,
                t.ep_uds_move[top.state.2 * 10 + cur] as usize,
            ),
            move_idx: 0,
            depth: top.depth + 1,
            last_axis: Some(mv.axis),
            last_last_axis: top.last_axis,
            last_move_idx: cur,
        };
        stack.push(child);
        proof {
            lemma_stack_push(*t, start, before, limit as int, child);
            lemma_measure_descend(tried, 10, limit as nat);
            assert(tried_of(stack@) =~= tried.drop_last().push(cur + 1).push(0));
            assert(stack@ =~= before_bump.drop_last().push(bumped).push(child));
            assert forall|k: int| 1 <= k < stack@.len() implies #[trigger] stack@[k].last_move_idx
                == stack@[k - 1].move_idx - 1 by {
                if k < n {
                    assert(before[k].last_move_idx == before[k - 1].move_idx - 1);
                }
            }
            assert forall|p: Seq<int>| #[trigger] g2_bounded(*t, start, p, limit as int) implies !passed(
                stack@,
                p,
            ) by {
                lemma_descend_unpassed(before_bump, bumped, child, p);
            }
        }
    }
    None
}

/// The phase-two solver.
pub struct G2Solver;

impl G2Solver {
    /// Searches for a phase-two sequence of at most `max_limit` moves that leads the
    /// cube's coordinates to a position the pruning tables rate 0, deepening the bound
    /// from the tables' estimate of the start up to `max_limit`. It finds one whenever a
    /// search bounded by `max_limit` can reach one, and no search with a bound below the
    /// length of the sequence it returns could have.
    pub fn solve(cube: &Cube, max_limit: usize, tables: &G2Tables) -> (r: Option<Vec<SingleMove>>)
        requires
            tables.wf(),
            outer_edges(cube@).len() <= 8,
            slice_edges(cube@).len() <= 4,
        ensures
            r matches Some(moves) ==> exists|path: Seq<int>|
                #![trigger g1_moves_of(path)]
                g2_solves(*tables, g2_coords(cube@), path) && path.len() <= max_limit
                    && moves@ == g1_moves_of(path),
            g2_h(*tables, g2_coords(cube@)) > max_limit ==> r is None,
            g2_h(*tables, g2_coords(cube@)) == 0 ==> (r matches Some(moves) && moves@.len() == 0),
            (exists|p: Seq<int>| #[trigger] g2_bounded(*tables, g2_coords(cube@), p, max_limit as int))
                ==> r is Some,
            r matches Some(moves) ==> forall|p: Seq<int>|
                !#[trigger] g2_bounded(*tables, g2_coords(cube@), p, moves@.len() - 1),
            r matches Some(moves) ==> (g2_exact(*tables) && valid_state(cube@) && in_g1(cube@)
                ==> apply_moves(cube@, moves@).edges == solved_state().edges && apply_moves(
                cube@,
                moves@,
            ).corners == solved_state().corners),
    {
        let kcube = KociembaCube(*cube);
        let cp0 = kcube.get_cp_coord() as usize;
        let enu0 = kcube.get_ep_no_uds_coord() as usize;
        let eu0 = kcube.get_ep_uds_coord() as usize;
        let h0 = g2_estimate(tables, cp0, enu0, eu0);
        let ghost st = g2_coords(cube@);
        proof {
            assert forall|p: Seq<int>, l: int| l < h0 implies !#[trigger] g2_bounded(
                *tables,
                st,
                p,
                l,
            ) by {
                lemma_bounded_start(*tables, st, p, l);
            }
        }
        if h0 > max_limit {
            return None;
        }
        let mut limit = h0;
        while limit < max_limit
            invariant
                tables.wf(),
                g2_in_range((cp0 as int, enu0 as int, eu0 as int)),
                (cp0 as int, enu0 as int, eu0 as int) == st,
                st == g2_coords(cube@),
                h0 == g2_h(*tables, st),
                h0 <= limit <= max_limit,
                h0 == 0 ==> limit == 0,
                forall|p: Seq<int>, l: int| l < limit ==> !#[trigger] g2_bounded(*tables, st, p, l),
            decreases max_limit - limit,
        {
            let found = g2_dfs(tables, cp0, enu0, eu0, limit);
            if found.is_some() {
                proof {
                    let moves = found->0;
                    if g2_exact(*tables) && valid_state(cube@) && in_g1(cube@) {
                        let path = choose|path: Seq<int>|
                            #![trigger g1_moves_of(path)]
                            g2_solves(*tables, g2_coords(cube@), path) && path.len() <= limit
                                && moves@ == g1_moves_of(path);
                        lemma_g2_answer_solves(*tables, cube@, path);
                    }
                }
                return found;
            }
            limit = limit + 1;
        }
        let last = g2_dfs(tables, cp0, enu0, eu0, max_limit);
        proof {
            if last is Some && g2_exact(*tables) && valid_state(cube@) && in_g1(cube@) {
                let moves = last->0;
                let path = choose|path: Seq<int>|
                    #![trigger g1_moves_of(path)]
                    g2_solves(*tables, g2_coords(cube@), path) && path.len() <= max_limit
                        && moves@ == g1_moves_of(path);
                lemma_g2_answer_solves(*tables, cube@, path);
            }
        }
        last
    }
}

} // verus!
