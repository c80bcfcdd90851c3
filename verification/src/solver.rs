//! The two-phase solver: phase one brings the cube into the subgroup, phase two
//! finishes it with the moves of the subgroup.

use vstd::prelude::*;
use crate::bitboard::lemma_xor_mask;
use crate::cube::{
    Cube,
    CubeState,
    turned,
    apply_moves,
    oris_ok,
    face_edges,
    source_slot,
    edge_after,
    face_pos,
    face_flips,
    lemma_apply_ok,
};
use crate::cube::{lemma_turn_keeps_oris, turn_ok};
use crate::coords::{
    co_coord,
    uds_coord,
    outer_edges,
    slice_edges,
    edge_ids,
    ids_between,
    count_true,
    slice_occupancy,
};
use crate::combinatorics::{powi, radix_value, lemma_radix_bound};
use crate::moves::{SingleMove, spec_quarters, MoveAxis, move_at};
use crate::cube::lemma_apply_push;
use crate::phase_one::{
    G1Tables,
    G1Solver,
    g1_solves,
    g1_coords,
    g1_h,
    g1_bounded,
    g1_first,
    g1_in_range,
    moves_of,
    path_ints,
    indices_to_moves,
    lemma_solves_indices,
};
use crate::phase_two::{G2Tables, G2Solver, g2_solves, g2_coords, g1_moves_of, g2_bounded, g2_step, g2_run, g2_h, lemma_rated_zero_iff_solved, g2_exact, lemma_g2_run_exact};
use crate::phase_one::{g1_step, g1_run, g1_exact, lemma_g1_run_exact};
use crate::colors::{valid_state, lemma_turn_keeps_valid};
use crate::search::{in_g1, lemma_g1_moves_keep_g1, spec_g1_move};
use crate::moves::spec_move_at;
use crate::cube::{lemma_apply_concat, solved_state};

verus! {

/// 1 when `v` lies in `lo..hi`, else 0.
pub open spec fn in_span(v: u64, lo: u64, hi: u64) -> int {
    if lo <= v < hi {
        1
    } else {
        0
    }
}

/// How many of the first `m` ids lie in `lo..hi`.
pub open spec fn count_in(ids: Seq<u64>, m: int, lo: u64, hi: u64) -> int
    decreases m,
{
    if m <= 0 {
        0
    } else {
        count_in(ids, m - 1, lo, hi) + in_span(ids[m - 1], lo, hi)
    }
}

proof fn lemma_ids_between_len(ids: Seq<u64>, m: int, lo: u64, hi: u64)
    ensures
        ids_between(ids, m, lo, hi).len() == count_in(ids, m, lo, hi),
    decreases m,
{
    if m > 0 {
        lemma_ids_between_len(ids, m - 1, lo, hi);
    }
}

/// The twelve-slot count written out.
proof fn lemma_count12(ids: Seq<u64>, lo: u64, hi: u64)
    ensures
        count_in(ids, 12, lo, hi) == in_span(ids[0], lo, hi) + in_span(ids[1], lo, hi) + in_span(
            ids[2],
            lo,
            hi,
        ) + in_span(ids[3], lo, hi) + in_span(ids[4], lo, hi) + in_span(ids[5], lo, hi)
            + in_span(ids[6], lo, hi) + in_span(ids[7], lo, hi) + in_span(ids[8], lo, hi)
            + in_span(ids[9], lo, hi) + in_span(ids[10], lo, hi) + in_span(ids[11], lo, hi),
{
    reveal_with_fuel(count_in, 13);
}

pub proof fn lemma_flip_keeps_id(v: u64)
    by (bit_vector)
    ensures
        (v ^ 0x10) % 16 == v % 16,
{
}

#[verifier::spinoff_prover]
proof fn lemma_counts_u(a: Seq<u64>, b: Seq<u64>, q: int, lo: u64, hi: u64)
    requires
        1 <= q <= 3,
        a.len() == 12,
        forall|i: int| 0 <= i < 12 ==> #[trigger] b[i] == a[source_slot(face_edges(MoveAxis::U), q, i as u64) as int],
    ensures
        count_in(b, 12, lo, hi) == count_in(a, 12, lo, hi),
{
    lemma_count12(a, lo, hi);
    lemma_count12(b, lo, hi);
    let f = face_edges(MoveAxis::U);
    assert(b[0] == a[source_slot(f, q, 0) as int]);
    assert(b[1] == a[source_slot(f, q, 1) as int]);
    assert(b[2] == a[source_slot(f, q, 2) as int]);
    assert(b[3] == a[source_slot(f, q, 3) as int]);
    assert(b[4] == a[source_slot(f, q, 4) as int]);
    assert(b[5] == a[source_slot(f, q, 5) as int]);
    assert(b[6] == a[source_slot(f, q, 6) as int]);
    assert(b[7] == a[source_slot(f, q, 7) as int]);
    assert(b[8] == a[source_slot(f, q, 8) as int]);
    assert(b[9] == a[source_slot(f, q, 9) as int]);
    assert(b[10] == a[source_slot(f, q, 10) as int]);
    assert(b[11] == a[source_slot(f, q, 11) as int]);
}

#[verifier::spinoff_prover]
proof fn lemma_counts_f(a: Seq<u64>, b: Seq<u64>, q: int, lo: u64, hi: u64)
    requires
        1 <= q <= 3,
        a.len() == 12,
        forall|i: int| 0 <= i < 12 ==> #[trigger] b[i] == a[source_slot(face_edges(MoveAxis::F), q, i as u64) as int],
    ensures
        count_in(b, 12, lo, hi) == count_in(a, 12, lo, hi),
{
    lemma_count12(a, lo, hi);
    lemma_count12(b, lo, hi);
    let f = face_edges(MoveAxis::F);
    assert(b[0] == a[source_slot(f, q, 0) as int]);
    assert(b[1] == a[source_slot(f, q, 1) as int]);
    assert(b[2] == a[source_slot(f, q, 2) as int]);
    assert(b[3] == a[source_slot(f, q, 3) as int]);
    assert(b[4] == a[source_slot(f, q, 4) as int]);
    assert(b[5] == a[source_slot(f, q, 5) as int]);
    assert(b[6] == a[source_slot(f, q, 6) as int]);
    assert(b[7] == a[source_slot(f, q, 7) as int]);
    assert(b[8] == a[source_slot(f, q, 8) as int]);
    assert(b[9] == a[source_slot(f, q, 9) as int]);
    assert(b[10] == a[source_slot(f, q, 10) as int]);
    assert(b[11] == a[source_slot(f, q, 11) as int]);
}

#[verifier::spinoff_prover]
proof fn lemma_counts_r(a: Seq<u64>, b: Seq<u64>, q: int, lo: u64, hi: u64)
    requires
        1 <= q <= 3,
        a.len() == 12,
        forall|i: int| 0 <= i < 12 ==> #[trigger] b[i] == a[source_slot(face_edges(MoveAxis::R), q, i as u64) as int],
    ensures
        count_in(b, 12, lo, hi) == count_in(a, 12, lo, hi),
{
    lemma_count12(a, lo, hi);
    lemma_count12(b, lo, hi);
    let f = face_edges(MoveAxis::R);
    assert(b[0] == a[source_slot(f, q, 0) as int]);
    assert(b[1] == a[source_slot(f, q, 1) as int]);
    assert(b[2] == a[source_slot(f, q, 2) as int]);
    assert(b[3] == a[source_slot(f, q, 3) as int]);
    assert(b[4] == a[source_slot(f, q, 4) as int]);
    assert(b[5] == a[source_slot(f, q, 5) as int]);
    assert(b[6] == a[source_slot(f, q, 6) as int]);
    assert(b[7] == a[source_slot(f, q, 7) as int]);
    assert(b[8] == a[source_slot(f, q, 8) as int]);
    assert(b[9] == a[source_slot(f, q, 9) as int]);
    assert(b[10] == a[source_slot(f, q, 10) as int]);
    assert(b[11] == a[source_slot(f, q, 11) as int]);
}

#[verifier::spinoff_prover]
proof fn lemma_counts_b(a: Seq<u64>, b: Seq<u64>, q: int, lo: u64, hi: u64)
    requires
        1 <= q <= 3,
        a.len() == 12,
        forall|i: int| 0 <= i < 12 ==> #[trigger] b[i] == a[source_slot(face_edges(MoveAxis::B), q, i as u64) as int],
    ensures
        count_in(b, 12, lo, hi) == count_in(a, 12, lo, hi),
{
    lemma_count12(a, lo, hi);
    lemma_count12(b, lo, hi);
    let f = face_edges(MoveAxis::B);
    assert(b[0] == a[source_slot(f, q, 0) as int]);
    assert(b[1] == a[source_slot(f, q, 1) as int]);
    assert(b[2] == a[source_slot(f, q, 2) as int]);
    assert(b[3] == a[source_slot(f, q, 3) as int]);
    assert(b[4] == a[source_slot(f, q, 4) as int]);
    assert(b[5] == a[source_slot(f, q, 5) as int]);
    assert(b[6] == a[source_slot(f, q, 6) as int]);
    assert(b[7] == a[source_slot(f, q, 7) as int]);
    assert(b[8] == a[source_slot(f, q, 8) as int]);
    assert(b[9] == a[source_slot(f, q, 9) as int]);
    assert(b[10] == a[source_slot(f, q, 10) as int]);
    assert(b[11] == a[source_slot(f, q, 11) as int]);
}

#[verifier::spinoff_prover]
proof fn lemma_counts_l(a: Seq<u64>, b: Seq<u64>, q: int, lo: u64, hi: u64)
    requires
        1 <= q <= 3,
        a.len() == 12,
        forall|i: int| 0 <= i < 12 ==> #[trigger] b[i] == a[source_slot(face_edges(MoveAxis::L), q, i as u64) as int],
    ensures
        count_in(b, 12, lo, hi) == count_in(a, 12, lo, hi),
{
    lemma_count12(a, lo, hi);
    lemma_count12(b, lo, hi);
    let f = face_edges(MoveAxis::L);
    assert(b[0] == a[source_slot(f, q, 0) as int]);
    assert(b[1] == a[source_slot(f, q, 1) as int]);
    assert(b[2] == a[source_slot(f, q, 2) as int]);
    assert(b[3] == a[source_slot(f, q, 3) as int]);
    assert(b[4] == a[source_slot(f, q, 4) as int]);
    assert(b[5] == a[source_slot(f, q, 5) as int]);
    assert(b[6] == a[source_slot(f, q, 6) as int]);
    assert(b[7] == a[source_slot(f, q, 7) as int]);
    assert(b[8] == a[source_slot(f, q, 8) as int]);
    assert(b[9] == a[source_slot(f, q, 9) as int]);
    assert(b[10] == a[source_slot(f, q, 10) as int]);
    assert(b[11] == a[source_slot(f, q, 11) as int]);
}

#[verifier::spinoff_prover]
proof fn lemma_counts_d(a: Seq<u64>, b: Seq<u64>, q: int, lo: u64, hi: u64)
    requires
        1 <= q <= 3,
        a.len() == 12,
        forall|i: int| 0 <= i < 12 ==> #[trigger] b[i] == a[source_slot(face_edges(MoveAxis::D), q, i as u64) as int],
    ensures
        count_in(b, 12, lo, hi) == count_in(a, 12, lo, hi),
{
    lemma_count12(a, lo, hi);
    lemma_count12(b, lo, hi);
    let f = face_edges(MoveAxis::D);
    assert(b[0] == a[source_slot(f, q, 0) as int]);
    assert(b[1] == a[source_slot(f, q, 1) as int]);
    assert(b[2] == a[source_slot(f, q, 2) as int]);
    assert(b[3] == a[source_slot(f, q, 3) as int]);
    assert(b[4] == a[source_slot(f, q, 4) as int]);
    assert(b[5] == a[source_slot(f, q, 5) as int]);
    assert(b[6] == a[source_slot(f, q, 6) as int]);
    assert(b[7] == a[source_slot(f, q, 7) as int]);
    assert(b[8] == a[source_slot(f, q, 8) as int]);
    assert(b[9] == a[source_slot(f, q, 9) as int]);
    assert(b[10] == a[source_slot(f, q, 10) as int]);
    assert(b[11] == a[source_slot(f, q, 11) as int]);
}

/// A face turn only moves edges between slots, so as many edge ids as before lie in
/// any range.
pub proof fn lemma_turn_keeps_counts(s: CubeState, mv: SingleMove, lo: u64, hi: u64)
    requires
        s.edges.len() == 12,
    ensures
        count_in(edge_ids(turned(s, mv)), 12, lo, hi) == count_in(edge_ids(s), 12, lo, hi),
{
    let t = turned(s, mv);
    let a = edge_ids(s);
    let b = edge_ids(t);
    let f = face_edges(mv.axis);
    let q = spec_quarters(mv.dir);
    assert forall|i: int| 0 <= i < 12 implies #[trigger] b[i] == a[source_slot(f, q, i as u64) as int]
        by {
        let v = s.edges[source_slot(f, q, i as u64) as int];
        lemma_flip_keeps_id(v);
        assert(t.edges[i] == edge_after(s.edges, mv, i));
    }
    match mv.axis {
        MoveAxis::U => lemma_counts_u(a, b, q, lo, hi),
        MoveAxis::F => lemma_counts_f(a, b, q, lo, hi),
        MoveAxis::R => lemma_counts_r(a, b, q, lo, hi),
        MoveAxis::B => lemma_counts_b(a, b, q, lo, hi),
        MoveAxis::L => lemma_counts_l(a, b, q, lo, hi),
        MoveAxis::D => lemma_counts_d(a, b, q, lo, hi),
    }
}

/// Moves keep the number of edge ids in any range.
pub proof fn lemma_apply_keeps_counts(s: CubeState, moves: Seq<SingleMove>, lo: u64, hi: u64)
    requires
        s.edges.len() == 12,
    ensures
        count_in(edge_ids(apply_moves(s, moves)), 12, lo, hi) == count_in(edge_ids(s), 12, lo, hi),
    decreases moves.len(),
{
    if moves.len() > 0 {
        lemma_turn_keeps_counts(s, moves[0], lo, hi);
        lemma_apply_keeps_counts(turned(s, moves[0]), moves.drop_first(), lo, hi);
    }
}

/// The phase-two coordinates of a cube stay readable after any moves.
proof fn lemma_apply_keeps_g2_ready(s: CubeState, moves: Seq<SingleMove>)
    requires
        s.edges.len() == 12,
        outer_edges(s).len() <= 8,
        slice_edges(s).len() <= 4,
    ensures
        outer_edges(apply_moves(s, moves)).len() <= 8,
        slice_edges(apply_moves(s, moves)).len() <= 4,
{
    let t = apply_moves(s, moves);
    lemma_apply_keeps_counts(s, moves, 0, 8);
    lemma_apply_keeps_counts(s, moves, 8, 16);
    lemma_ids_between_len(edge_ids(s), 12, 0, 8);
    lemma_ids_between_len(edge_ids(s), 12, 8, 16);
    lemma_ids_between_len(edge_ids(t), 12, 0, 8);
    lemma_ids_between_len(edge_ids(t), 12, 8, 16);
}

proof fn lemma_occupancy_count(s: CubeState, m: int)
    requires
        s.edges.len() == 12,
        0 <= m <= 12,
    ensures
        count_true(slice_occupancy(s), m) == count_in(edge_ids(s), m, 8, 12),
    decreases m,
{
    if m > 0 {
        lemma_occupancy_count(s, m - 1);
    }
}

/// A face turn keeps the number of middle-slice edges.
pub proof fn lemma_turn_keeps_slice_count(s: CubeState, mv: SingleMove)
    requires
        s.edges.len() == 12,
    ensures
        count_true(slice_occupancy(turned(s, mv)), 12) == count_true(slice_occupancy(s), 12),
{
    lemma_turn_keeps_counts(s, mv, 8, 12);
    lemma_occupancy_count(s, 12);
    lemma_occupancy_count(turned(s, mv), 12);
}

/// A cube state that moves can be made on and whose phase-two coordinates can be read.
pub open spec fn g2_ready(s: CubeState) -> bool {
    &&& oris_ok(s)
    &&& outer_edges(s).len() <= 8
    &&& slice_edges(s).len() <= 4
}

/// A face turn keeps a state ready.
pub proof fn lemma_turn_keeps_g2_ready(s: CubeState, mv: SingleMove)
    requires
        g2_ready(s),
    ensures
        g2_ready(turned(s, mv)),
        turn_ok(s, mv),
{
    lemma_turn_keeps_oris(s, mv);
    let t = turned(s, mv);
    lemma_turn_keeps_counts(s, mv, 0, 8);
    lemma_turn_keeps_counts(s, mv, 8, 16);
    lemma_ids_between_len(edge_ids(s), 12, 0, 8);
    lemma_ids_between_len(edge_ids(s), 12, 8, 16);
    lemma_ids_between_len(edge_ids(t), 12, 0, 8);
    lemma_ids_between_len(edge_ids(t), 12, 8, 16);
}

/// A face turn keeps the number of outer and of middle-slice edge ids.
pub proof fn lemma_turn_keeps_edge_lists(s: CubeState, mv: SingleMove)
    requires
        s.edges.len() == 12,
    ensures
        outer_edges(turned(s, mv)).len() == outer_edges(s).len(),
        slice_edges(turned(s, mv)).len() == slice_edges(s).len(),
{
    let t = turned(s, mv);
    lemma_turn_keeps_counts(s, mv, 0, 8);
    lemma_turn_keeps_counts(s, mv, 8, 16);
    lemma_ids_between_len(edge_ids(s), 12, 0, 8);
    lemma_ids_between_len(edge_ids(s), 12, 8, 16);
    lemma_ids_between_len(edge_ids(t), 12, 0, 8);
    lemma_ids_between_len(edge_ids(t), 12, 8, 16);
}

/// With every corner orientation 0, 1 or 2, the corner orientation coordinate is below
/// 3^7.
pub proof fn lemma_co_bound(s: CubeState)
    requires
        oris_ok(s),
    ensures
        0 <= co_coord(s) < 2187,
{
    let f = |k: int| (s.corners[6 - k] / 8) as int;
    assert forall|k: int| 0 <= k < 7 implies 0 <= #[trigger] f(k) < 3 by {
        assert(s.corners[6 - k] / 8 < 3);
    }
    lemma_radix_bound(f, 3, 7);
    assert(powi(3, 7) == 2187) by {
        reveal_with_fuel(powi, 8);
    }
}

/// Makes the moves on the cube, one after the other.
fn turn_all(cube: &mut Cube, moves: &Vec<SingleMove>)
    requires
        oris_ok(old(cube)@),
    ensures
        final(cube)@ == apply_moves(old(cube)@, moves@),
        oris_ok(final(cube)@),
{
    let ghost start = cube@;
    let mut i: usize = 0;
    while i < moves.len()
        invariant
            i <= moves@.len(),
            cube@ == apply_moves(start, moves@.take(i as int)),
            oris_ok(cube@),
        decreases moves@.len() - i,
    {
        proof {
            lemma_turn_keeps_oris(cube@, moves@[i as int]);
            lemma_apply_push(start, moves@.take(i as int), moves@[i as int]);
            assert(moves@.take(i + 1) =~= moves@.take(i as int).push(moves@[i as int]));
        }
        cube.turn(&moves[i]);
        i = i + 1;
    }
    proof {
        assert(moves@.take(moves@.len() as int) =~= moves@);
    }
}

/// A two-phase solution of the cube by the tables: a phase-one path `p1` that leads the
/// cube's phase-one coordinates to a position rated 0, then a phase-two path `p2`
/// that does the same for the phase-two coordinates of the cube after `p1`.
pub open spec fn two_phase(
    g1: G1Tables,
    g2: G2Tables,
    s: CubeState,
    p1: Seq<int>,
    p2: Seq<int>,
    sol: Seq<SingleMove>,
) -> bool {
    &&& g1_solves(g1, g1_coords(s), p1)
    &&& g2_solves(g2, g2_coords(apply_moves(s, moves_of(p1))), p2)
    &&& sol == moves_of(p1) + g1_moves_of(p2)
}

/// With tables that follow the cube, a two-phase solution solves it: applying it to a
/// complete cube puts every piece home and oriented.
pub proof fn lemma_two_phase_solves(
    g1: G1Tables,
    g2: G2Tables,
    s: CubeState,
    p1: Seq<int>,
    p2: Seq<int>,
    sol: Seq<SingleMove>,
)
    requires
        two_phase(g1, g2, s, p1, p2, sol),
        g1_exact(g1),
        g2_exact(g2),
        valid_state(s),
    ensures
        apply_moves(s, sol).edges == solved_state().edges,
        apply_moves(s, sol).corners == solved_state().corners,
{
    lemma_g1_run_exact(g1, s, p1);
    let s1 = apply_moves(s, moves_of(p1));
    assert(in_g1(s1));
    lemma_g2_run_exact(g2, s1, p2);
    let s2 = apply_moves(s1, g1_moves_of(p2));
    lemma_rated_zero_iff_solved(g2, s2);
    lemma_apply_concat(s, moves_of(p1), g1_moves_of(p2));
}

/// What a cube needs for the solver to read its coordinates: corner orientations 0 to
/// 2, the middle-slice edges in one of the 495 slot sets, at most eight outer and four
/// middle-slice edge ids. Every cube reached by moves from the solved cube has them.
pub open spec fn solvable_input(s: CubeState) -> bool {
    &&& oris_ok(s)
    &&& uds_coord(s) < 495
    &&& outer_edges(s).len() <= 8
    &&& slice_edges(s).len() <= 4
}

/// Solves the cube with Kociemba's two-phase algorithm: phase one in at most twelve
/// moves, then phase two in at most eighteen. It gives up only when phase one finds
/// nothing within its bound, or phase two finds nothing from where phase one left.
pub fn solve(cube: &Cube, g1: &G1Tables, g2: &G2Tables) -> (r: Option<Vec<SingleMove>>)
    requires
        g1.wf(),
        g2.wf(),
        solvable_input(cube@),
    ensures
        r matches Some(sol) ==> exists|p1: Seq<int>, p2: Seq<int>|
            #![trigger moves_of(p1), g1_moves_of(p2)]
            two_phase(*g1, *g2, cube@, p1, p2, sol@) && p1.len() <= 12 && p2.len() <= 18,
        r matches Some(sol) ==> (g1_exact(*g1) && g2_exact(*g2) && valid_state(cube@) ==> apply_moves(
            cube@,
            sol@,
        ).edges == solved_state().edges && apply_moves(cube@, sol@).corners == solved_state().corners),
        g1_h(*g1, g1_coords(cube@)) > 12 ==> r is None,
        r is None ==> (forall|p: Seq<int>| !#[trigger] g1_bounded(*g1, g1_coords(cube@), p, 12))
            || exists|p1: Seq<int>, l: int|
            #![trigger g1_first(*g1, g1_coords(cube@), p1, l)]
            g1_first(*g1, g1_coords(cube@), p1, l) && l <= 12 && (forall|p: Seq<int>|
                !#[trigger] g1_bounded(*g1, g1_coords(cube@), p, l - 1)) && forall|p2: Seq<int>|
                !#[trigger] g2_bounded(
                    *g2,
                    g2_coords(apply_moves(cube@, moves_of(p1))),
                    p2,
                    18,
                ),
{
    proof {
        lemma_co_bound(cube@);
    }
    let mut current_cube = *cube;
    let mut solution = match G1Solver::solve(&current_cube, g1) {
        Some(moves) => moves,
        None => {
            return None;
        },
    };
    let ghost (p1, l1) = choose|path: Seq<int>, l: int|
        #![trigger g1_first(*g1, g1_coords(cube@), path, l)]
        solution@ == moves_of(path) && g1_first(*g1, g1_coords(cube@), path, l) && l <= 12 && forall|
            p: Seq<int>,
        | !#[trigger] g1_bounded(*g1, g1_coords(cube@), p, l - 1);
    proof {
        assert(moves_of(p1).len() == p1.len());
        assert(p1.len() <= 12);
    }
    turn_all(&mut current_cube, &solution);
    proof {
        lemma_apply_keeps_g2_ready(cube@, solution@);
    }
    match G2Solver::solve(&current_cube, 18, g2) {
        Some(mut moves) => {
            let ghost p2 = choose|p2: Seq<int>|
                #![trigger g1_moves_of(p2)]
                g2_solves(*g2, g2_coords(current_cube@), p2) && p2.len() <= 18 && moves@
                    == g1_moves_of(p2);
            let ghost first = solution@;
            solution.append(&mut moves);
            proof {
                assert(two_phase(*g1, *g2, cube@, p1, p2, solution@));
                if g1_exact(*g1) && g2_exact(*g2) && valid_state(cube@) {
                    lemma_two_phase_solves(*g1, *g2, cube@, p1, p2, solution@);
                }
            }
            Some(solution)
        },
        None => None,
    }
}

/// `p1` is a phase-one solution of at most `max` moves from which phase two reaches no
/// goal within the moves left.
pub open spec fn dead_end(g1: G1Tables, g2: G2Tables, s: CubeState, p1: Seq<int>, max: int) -> bool {
    &&& g1_solves(g1, g1_coords(s), p1)
    &&& p1.len() <= max
    &&& forall|p2: Seq<int>|
        !#[trigger] g2_bounded(g2, g2_coords(apply_moves(s, moves_of(p1))), p2, max - p1.len())
}

/// Solves the cube in at most `max_moves` moves: for each phase-one bound from 0 up to
/// `max_moves`, tries every phase-one solution at that bound in turn, and finishes with
/// the first one that phase two can complete in the moves left. It gives up only when
/// phase two can complete none of the phase-one solutions of the largest bound.
pub fn solve_max_moves(cube: &Cube, max_moves: usize, g1: &G1Tables, g2: &G2Tables) -> (r:
    Option<Vec<SingleMove>>)
    requires
        g1.wf(),
        g2.wf(),
        solvable_input(cube@),
    ensures
        r matches Some(sol) ==> exists|p1: Seq<int>, p2: Seq<int>|
            #![trigger moves_of(p1), g1_moves_of(p2)]
            two_phase(*g1, *g2, cube@, p1, p2, sol@) && sol@.len() <= max_moves,
        r matches Some(sol) ==> (g1_exact(*g1) && g2_exact(*g2) && valid_state(cube@) ==> apply_moves(
            cube@,
            sol@,
        ).edges == solved_state().edges && apply_moves(cube@, sol@).corners == solved_state().corners),
        g1_h(*g1, g1_coords(cube@)) > max_moves ==> r is None,
        r is None ==> forall|p1: Seq<int>|
            #[trigger] g1_first(*g1, g1_coords(cube@), p1, max_moves as int) ==> dead_end(
                *g1,
                *g2,
                cube@,
                p1,
                max_moves as int,
            ),
{
    proof {
        lemma_co_bound(cube@);
    }
    let mut g1_solver = G1Solver::new(cube, 0, g1);
    let mut g1_limit: usize = 0;
    let mut finished = false;
    while !finished
        invariant
            g1.wf(),
            g2.wf(),
            solvable_input(cube@),
            g1_solver.wf(),
            g1_solver.tables() == *g1,
            g1_solver.start() == g1_coords(cube@),
            g1_in_range(g1_solver.start()),
            g1_limit <= max_moves,
            finished ==> forall|p1: Seq<int>|
                #[trigger] g1_first(*g1, g1_coords(cube@), p1, max_moves as int) ==> dead_end(
                    *g1,
                    *g2,
                    cube@,
                    p1,
                    max_moves as int,
                ),
        decreases max_moves - g1_limit + (if finished {
            0int
        } else {
            1int
        }),
    {
        g1_solver.reset(g1_limit);
        let mut searching = true;
        while searching
            invariant
                g1.wf(),
                g2.wf(),
                solvable_input(cube@),
                g1_solver.wf(),
                g1_solver.tables() == *g1,
                g1_solver.start() == g1_coords(cube@),
                g1_in_range(g1_solver.start()),
                g1_solver.limit() == g1_limit,
                g1_limit <= max_moves,
                forall|q: Seq<int>|
                    #[trigger] g1_solver.handed_out().contains(q) ==> dead_end(
                        *g1,
                        *g2,
                        cube@,
                        q,
                        max_moves as int,
                    ),
                !searching ==> forall|p1: Seq<int>|
                    #[trigger] g1_first(*g1, g1_coords(cube@), p1, g1_limit as int)
                        ==> g1_solver.handed_out().contains(p1),
            decreases g1_solver.remaining() * 2 + (if searching {
                1nat
            } else {
                0nat
            }),
        {
            let ghost pre = g1_solver;
            match g1_solver.next() {
                Some(path_indices) => {
                    let ghost p1 = path_ints(path_indices@);
                    proof {
                        lemma_solves_indices(*g1, g1_coords(cube@), path_indices@);
                    }
                    let mut solution = indices_to_moves(&path_indices);
                    let mut current_cube = *cube;
                    turn_all(&mut current_cube, &solution);
                    proof {
                        lemma_apply_keeps_g2_ready(cube@, solution@);
                        assert(solution@.len() == p1.len());
                    }
                    let remaining_limit = if solution.len() <= max_moves {
                        max_moves - solution.len()
                    } else {
                        0
                    };
                    if let Some(mut g2_moves) = G2Solver::solve(
                        &current_cube,
                        remaining_limit,
                        g2,
                    ) {
                        let ghost p2 = choose|p2: Seq<int>|
                            #![trigger g1_moves_of(p2)]
                            g2_solves(*g2, g2_coords(current_cube@), p2) && p2.len()
                                <= remaining_limit && g2_moves@ == g1_moves_of(p2);
                        solution.append(&mut g2_moves);
                        proof {
                            assert(two_phase(*g1, *g2, cube@, p1, p2, solution@));
                            if g1_exact(*g1) && g2_exact(*g2) && valid_state(cube@) {
                                lemma_two_phase_solves(*g1, *g2, cube@, p1, p2, solution@);
                            }
                        }
                        return Some(solution);
                    }
                    proof {
                        let st = g2_coords(apply_moves(cube@, moves_of(p1)));
                        assert(current_cube@ == apply_moves(cube@, moves_of(p1)));
                        assert forall|p2: Seq<int>|
                            !#[trigger] g2_bounded(*g2, st, p2, max_moves - p1.len()) by {
                            if g2_bounded(*g2, st, p2, max_moves - p1.len()) {
                                assert(g2_bounded(*g2, g2_coords(current_cube@), p2, remaining_limit as int));
                            }
                        }
                        assert(dead_end(*g1, *g2, cube@, p1, max_moves as int));
                        assert forall|q: Seq<int>|
                            #[trigger] g1_solver.handed_out().contains(q) implies dead_end(
                                *g1,
                                *g2,
                                cube@,
                                q,
                                max_moves as int,
                            ) by {
                            if q != p1 {
                                assert(pre.handed_out().contains(q));
                            }
                        }
                    }
                },
                None => {
                    searching = false;
                },
            }
        }
        if g1_limit == max_moves {
            finished = true;
        } else {
            g1_limit = g1_limit + 1;
        }
    }
    None
}

/// How many edge slots hold an id in `lo..hi`.
fn count_edge_ids(cube: &Cube, lo: u64, hi: u64) -> (n: usize)
    ensures
        n == count_in(edge_ids(cube@), 12, lo, hi),
{
    let mut n: usize = 0;
    let mut i: u64 = 0;
    while i < 12
        invariant
            i <= 12,
            n == count_in(edge_ids(cube@), i as int, lo, hi),
            n <= i,
        decreases 12 - i,
    {
        let v = (cube.edges >> (5 * i)) & 0b11111;
        let id = v & 0b1111;
        proof {
            assert(v == crate::bitboard::slot(cube.edges, i));
            crate::bitboard::lemma_slot_bound(cube.edges, i);
            lemma_low_bits(v);
            assert(edge_ids(cube@)[i as int] == id);
        }
        if lo <= id && id < hi {
            n = n + 1;
        }
        i = i + 1;
    }
    n
}

proof fn lemma_low_bits(v: u64)
    by (bit_vector)
    ensures
        v & 0b1111 == v % 16,
{
}

/// Whether the solver can read the cube's coordinates (see `solvable_input`).
pub fn is_solvable_input(cube: &Cube) -> (b: bool)
    ensures
        b == solvable_input(cube@),
{
    let mut i: u64 = 0;
    while i < 8
        invariant
            i <= 8,
            forall|j: int| 0 <= j < i ==> #[trigger] cube@.corners[j] / 8 < 3,
        decreases 8 - i,
    {
        let v = (cube.corners >> (5 * i)) & 0b11111;
        proof {
            assert(v == crate::bitboard::slot(cube.corners, i));
            crate::bitboard::lemma_slot_bound(cube.corners, i);
            lemma_ori_value(v);
        }
        if (v >> 3) & 3 == 3 {
            proof {
                assert(cube@.corners[i as int] / 8 >= 3);
            }
            return false;
        }
        i = i + 1;
    }
    let k = crate::coords::KociembaCube(*cube);
    if k.get_uds_coord() >= 495 {
        return false;
    }
    proof {
        lemma_ids_between_len(edge_ids(cube@), 12, 0, 8);
        lemma_ids_between_len(edge_ids(cube@), 12, 8, 16);
    }
    count_edge_ids(cube, 0, 8) <= 8 && count_edge_ids(cube, 8, 16) <= 4
}

proof fn lemma_ori_value(v: u64)
    by (bit_vector)
    requires
        v < 32,
    ensures
        ((v >> 3) & 3 == 3) == (v / 8 >= 3),
{
}

} // verus!
