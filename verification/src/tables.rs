//! Generation of the lookup tables: move tables that say where each move takes each
//! coordinate value, symmetry tables, and pruning tables of distances found by
//! breadth-first search.

use vstd::prelude::*;
use std::collections::VecDeque;
use crate::coords::KociembaCube;
use crate::cube::{Cube, CubeState};
use crate::coords::{
    cp_coord,
    ep_no_uds_coord,
    ep_uds_coord,
    corner_ids,
    ids_between,
    pad_zeros,
    outer_edges,
    slice_edges,
};
use crate::combinatorics::lemma_lehmer_increasing;
use crate::coords::{eo_coord, co_coord, uds_coord, from_eo_state, from_co_state, from_uds_state, lemma_co_state_ok};
use crate::cube::{turned, oris_ok, lemma_turn_keeps_oris};
use crate::moves::{spec_move_at, move_at};
use crate::solver::lemma_co_bound;
use crate::sym_tables::lemma_slot_index;
use crate::phase_two::G2Tables;
use crate::search::{g1_move, spec_g1_move};
use crate::coords::{
    from_cp_state,
    from_ep_no_uds_state,
    from_uds_perm_state,
    lemma_iota_increasing,
    lemma_ep_no_uds_roundtrip,
    lemma_uds_perm_roundtrip,
};
use crate::combinatorics::{lemma_unrank_roundtrip, iota};
use crate::solver::lemma_turn_keeps_edge_lists;
use crate::solver::{g2_ready, lemma_turn_keeps_g2_ready};
use crate::cube::{lemma_solved_oris_ok, solved_state};

verus! {

/// How many entries of `s` are 255, the mark of an entry no search has reached.
pub open spec fn count_unreached(s: Seq<u8>) -> nat
    decreases s.len(),
{
    if s.len() == 0 {
        0
    } else {
        count_unreached(s.drop_last()) + if s.last() == 255 {
            1nat
        } else {
            0nat
        }
    }
}

/// Filling an unreached entry lowers the count by one.
pub proof fn lemma_count_fill(s: Seq<u8>, i: int, w: u8)
    requires
        0 <= i < s.len(),
        s[i] == 255,
        w != 255,
    ensures
        count_unreached(s.update(i, w)) + 1 == count_unreached(s),
    decreases s.len(),
{
    let t = s.update(i, w);
    if i < s.len() - 1 {
        assert(t.drop_last() =~= s.drop_last().update(i, w));
        lemma_count_fill(s.drop_last(), i, w);
    } else {
        assert(t.drop_last() =~= s.drop_last());
    }
}

/// A vector of `n` copies of `v`.
pub fn filled_u8(n: usize, v: u8) -> (r: Vec<u8>)
    ensures
        r@.len() == n,
        forall|i: int| 0 <= i < n ==> #[trigger] r@[i] == v,
{
    let mut r: Vec<u8> = Vec::new();
    let mut i: usize = 0;
    while i < n
        invariant
            i <= n,
            r@.len() == i,
            forall|j: int| 0 <= j < i ==> #[trigger] r@[j] == v,
        decreases n - i,
    {
        r.push(v);
        i = i + 1;
    }
    r
}

/// A vector of `n` copies of `v`.
pub fn filled_u16(n: usize, v: u16) -> (r: Vec<u16>)
    ensures
        r@.len() == n,
        forall|i: int| 0 <= i < n ==> #[trigger] r@[i] == v,
{
    let mut r: Vec<u16> = Vec::new();
    let mut i: usize = 0;
    while i < n
        invariant
            i <= n,
            r@.len() == i,
            forall|j: int| 0 <= j < i ==> #[trigger] r@[j] == v,
        decreases n - i,
    {
        r.push(v);
        i = i + 1;
    }
    r
}

/// A vector of `n` copies of `v`.
pub fn filled_u32(n: usize, v: u32) -> (r: Vec<u32>)
    ensures
        r@.len() == n,
        forall|i: int| 0 <= i < n ==> #[trigger] r@[i] == v,
{
    let mut r: Vec<u32> = Vec::new();
    let mut i: usize = 0;
    while i < n
        invariant
            i <= n,
            r@.len() == i,
            forall|j: int| 0 <= j < i ==> #[trigger] r@[j] == v,
        decreases n - i,
    {
        r.push(v);
        i = i + 1;
    }
    r
}

/// One more than a distance, kept below 255 (which marks unreached entries).
fn next_distance(d: u8) -> (r: u8)
    ensures
        r != 255,
        d < 254 ==> r == d + 1,
        d >= 254 ==> r == 254,
{
    if d < 254 {
        d + 1
    } else {
        254
    }
}

/// The solved cube's permutation coordinates are 0.
pub proof fn lemma_solved_coords()
    ensures
        cp_coord(solved_state()) == 0,
        ep_no_uds_coord(solved_state()) == 0,
        ep_uds_coord(solved_state()) == 0,
{
    let s = solved_state();
    let c = corner_ids(s);
    assert forall|i: int, j: int| 0 <= i < j <= 7 implies c[i] < c[j] by {}
    lemma_lehmer_increasing(c, 7);
    reveal_with_fuel(ids_between, 13);
    let o = pad_zeros(outer_edges(s), 8);
    assert(o =~= seq![0u64, 1, 2, 3, 4, 5, 6, 7]);
    assert forall|i: int, j: int| 0 <= i < j <= 7 implies o[i] < o[j] by {}
    lemma_lehmer_increasing(o, 7);
    let u = pad_zeros(slice_edges(s), 4);
    assert(u =~= seq![0u64, 1, 2, 3]);
    assert forall|i: int, j: int| 0 <= i < j <= 3 implies u[i] < u[j] by {}
    lemma_lehmer_increasing(u, 3);
}

/// Entry `v * 10 + m` of the corner permutation move table is where phase-two move `m` takes the
/// cube that ``from_cp`` builds for coordinate value `v`.
pub open spec fn cp_move_ok(t: Seq<u16>, v: int, m: int) -> bool {
    t[v * 10 + m] == cp_coord(turned(from_cp_state(v), spec_g1_move(m)))
}

/// The corner permutation move table of phase two: for each of the 40320 values and each of the
/// ten phase-two moves, the value after the move.
fn gen_cp_move() -> (t: Vec<u16>)
    ensures
        t@.len() == 403200,
        forall|v: int, m: int| 0 <= v < 40320 && 0 <= m < 10 ==> #[trigger] cp_move_ok(t@, v, m),
        forall|i: int| 0 <= i < 403200 ==> #[trigger] t@[i] < 40320,
{
    let mut t = filled_u16(403200, 0);
    let mut v: u16 = 0;
    while v < 40320
        invariant
            v <= 40320,
            t@.len() == 403200,
            forall|w: int, m: int| 0 <= w < v && 0 <= m < 10 ==> #[trigger] cp_move_ok(t@, w, m),
            forall|i: int| 0 <= i < 403200 ==> #[trigger] t@[i] < 40320,
        decreases 40320 - v,
    {
        let cube = KociembaCube::from_cp(v);
        proof {
            lemma_iota_increasing(8);
            lemma_unrank_roundtrip(v as int, iota(8), 8);
            assert forall|i: int| 0 <= i < 8 implies #[trigger] cube.0@.corners[i] / 8 < 3 by {
                assert(cube.0@.corners[i] < 8);
            }
        }
        let mut m: usize = 0;
        while m < 10
            invariant
                v < 40320,
                m <= 10,
                cube.0@ == from_cp_state(v as int),
                oris_ok(cube.0@) && cube.0@.edges.len() == 12,
                t@.len() == 403200,
                forall|i: int| 0 <= i < 403200 ==> #[trigger] t@[i] < 40320,
                forall|w: int, mm: int|
                    0 <= mm < 10 && (0 <= w < v || (w == v && mm < m)) ==> #[trigger] cp_move_ok(t@, w, mm),
            decreases 10 - m,
        {
            let mv = g1_move(m);
            let mut next = cube;
            proof {
                lemma_turn_keeps_oris(cube.0@, mv);
                lemma_turn_keeps_edge_lists(cube.0@, mv);
            }
            next.0.turn(&mv);
            let c = next.get_cp_coord();
            proof {
                assert(v * 10 + m < 403200) by (nonlinear_arith)
                    requires
                        v < 40320,
                        m < 10,
                ;
            }
            let ghost before = t@;
            t.set((v as usize) * 10 + m, c);
            proof {
                assert forall|w: int, mm: int|
                    0 <= mm < 10 && (0 <= w < v || (w == v && mm <= m)) implies #[trigger] cp_move_ok(t@, w, mm) by {
                    if w != v || mm != m {
                        lemma_slot_index(w, mm, v as int, m as int, 10);
                        assert(cp_move_ok(before, w, mm));
                    }
                }
            }
            m = m + 1;
        }
        v = v + 1;
    }
    t
}

/// Entry `v * 10 + m` of the outer-edge permutation move table is where phase-two move `m` takes the
/// cube that ``from_ep_no_uds`` builds for coordinate value `v`.
pub open spec fn ep_no_uds_move_ok(t: Seq<u16>, v: int, m: int) -> bool {
    t[v * 10 + m] == ep_no_uds_coord(turned(from_ep_no_uds_state(v), spec_g1_move(m)))
}

/// The outer-edge permutation move table of phase two: for each of the 40320 values and each of the
/// ten phase-two moves, the value after the move.
fn gen_ep_no_uds_move() -> (t: Vec<u16>)
    ensures
        t@.len() == 403200,
        forall|v: int, m: int| 0 <= v < 40320 && 0 <= m < 10 ==> #[trigger] ep_no_uds_move_ok(t@, v, m),
        forall|i: int| 0 <= i < 403200 ==> #[trigger] t@[i] < 40320,
{
    let mut t = filled_u16(403200, 0);
    let mut v: u16 = 0;
    while v < 40320
        invariant
            v <= 40320,
            t@.len() == 403200,
            forall|w: int, m: int| 0 <= w < v && 0 <= m < 10 ==> #[trigger] ep_no_uds_move_ok(t@, w, m),
            forall|i: int| 0 <= i < 403200 ==> #[trigger] t@[i] < 40320,
        decreases 40320 - v,
    {
        let cube = KociembaCube::from_ep_no_uds(v);
        proof {
            lemma_ep_no_uds_roundtrip(v as int);
            lemma_iota_increasing(8);
            lemma_unrank_roundtrip(v as int, iota(8), 8);
            lemma_solved_oris_ok();
        }
        let mut m: usize = 0;
        while m < 10
            invariant
                v < 40320,
                m <= 10,
                cube.0@ == from_ep_no_uds_state(v as int),
                oris_ok(cube.0@) && cube.0@.edges.len() == 12 && outer_edges(cube.0@).len() <= 8,
                t@.len() == 403200,
                forall|i: int| 0 <= i < 403200 ==> #[trigger] t@[i] < 40320,
                forall|w: int, mm: int|
                    0 <= mm < 10 && (0 <= w < v || (w == v && mm < m)) ==> #[trigger] ep_no_uds_move_ok(t@, w, mm),
            decreases 10 - m,
        {
            let mv = g1_move(m);
            let mut next = cube;
            proof {
                lemma_turn_keeps_oris(cube.0@, mv);
                lemma_turn_keeps_edge_lists(cube.0@, mv);
            }
            next.0.turn(&mv);
            let c = next.get_ep_no_uds_coord();
            proof {
                assert(v * 10 + m < 403200) by (nonlinear_arith)
                    requires
                        v < 40320,
                        m < 10,
                ;
            }
            let ghost before = t@;
            t.set((v as usize) * 10 + m, c);
            proof {
                assert forall|w: int, mm: int|
                    0 <= mm < 10 && (0 <= w < v || (w == v && mm <= m)) implies #[trigger] ep_no_uds_move_ok(t@, w, mm) by {
                    if w != v || mm != m {
                        lemma_slot_index(w, mm, v as int, m as int, 10);
                        assert(ep_no_uds_move_ok(before, w, mm));
                    }
                }
            }
            m = m + 1;
        }
        v = v + 1;
    }
    t
}

/// Entry `v * 10 + m` of the middle-slice permutation move table is where phase-two move `m` takes the
/// cube that ``from_uds_perm`` builds for coordinate value `v`.
pub open spec fn ep_uds_move_ok(t: Seq<u16>, v: int, m: int) -> bool {
    t[v * 10 + m] == ep_uds_coord(turned(from_uds_perm_state(v), spec_g1_move(m)))
}

/// The middle-slice permutation move table of phase two: for each of the 24 values and each of the
/// ten phase-two moves, the value after the move.
fn gen_ep_uds_move() -> (t: Vec<u16>)
    ensures
        t@.len() == 240,
        forall|v: int, m: int| 0 <= v < 24 && 0 <= m < 10 ==> #[trigger] ep_uds_move_ok(t@, v, m),
        forall|i: int| 0 <= i < 240 ==> #[trigger] t@[i] < 24,
{
    let mut t = filled_u16(240, 0);
    let mut v: u16 = 0;
    while v < 24
        invariant
            v <= 24,
            t@.len() == 240,
            forall|w: int, m: int| 0 <= w < v && 0 <= m < 10 ==> #[trigger] ep_uds_move_ok(t@, w, m),
            forall|i: int| 0 <= i < 240 ==> #[trigger] t@[i] < 24,
        decreases 24 - v,
    {
        let cube = KociembaCube::from_uds_perm(v);
        proof {
            lemma_uds_perm_roundtrip(v as int);
            lemma_iota_increasing(4);
            lemma_unrank_roundtrip(v as int, iota(4), 4);
            lemma_solved_oris_ok();
        }
        let mut m: usize = 0;
        while m < 10
            invariant
                v < 24,
                m <= 10,
                cube.0@ == from_uds_perm_state(v as int),
                oris_ok(cube.0@) && cube.0@.edges.len() == 12 && slice_edges(cube.0@).len() <= 4,
                t@.len() == 240,
                forall|i: int| 0 <= i < 240 ==> #[trigger] t@[i] < 24,
                forall|w: int, mm: int|
                    0 <= mm < 10 && (0 <= w < v || (w == v && mm < m)) ==> #[trigger] ep_uds_move_ok(t@, w, mm),
            decreases 10 - m,
        {
            let mv = g1_move(m);
            let mut next = cube;
            proof {
                lemma_turn_keeps_oris(cube.0@, mv);
                lemma_turn_keeps_edge_lists(cube.0@, mv);
            }
            next.0.turn(&mv);
            let c = next.get_ep_uds_coord();
            proof {
                assert(v * 10 + m < 240) by (nonlinear_arith)
                    requires
                        v < 24,
                        m < 10,
                ;
            }
            let ghost before = t@;
            t.set((v as usize) * 10 + m, c);
            proof {
                assert forall|w: int, mm: int|
                    0 <= mm < 10 && (0 <= w < v || (w == v && mm <= m)) implies #[trigger] ep_uds_move_ok(t@, w, mm) by {
                    if w != v || mm != m {
                        lemma_slot_index(w, mm, v as int, m as int, 10);
                        assert(ep_uds_move_ok(before, w, mm));
                    }
                }
            }
            m = m + 1;
        }
        v = v + 1;
    }
    t
}

/// The move tables that a pruning table of phase two is searched over: `slow` moves
/// the slice permutation (24 values), `fast` the other coordinate (40320 values).
pub open spec fn pair_tables_ok(slow: Seq<u16>, fast: Seq<u16>) -> bool {
    &&& slow.len() == 240
    &&& fast.len() == 403200
    &&& forall|i: int| 0 <= i < 240 ==> #[trigger] slow[i] < 24
    &&& forall|i: int| 0 <= i < 403200 ==> #[trigger] fast[i] < 40320
}

/// The pair (slice permutation `idx / 40320`, other coordinate `idx % 40320`) after
/// phase-two move `m`, by the move tables.
pub open spec fn pair_step(slow: Seq<u16>, fast: Seq<u16>, idx: int, m: int) -> int {
    slow[(idx / 40320) * 10 + m] as int * 40320 + fast[(idx % 40320) * 10 + m] as int
}

/// The pair that a sequence of phase-two moves leads the solved pair (index 0) to.
pub open spec fn pair_run(slow: Seq<u16>, fast: Seq<u16>, path: Seq<int>) -> int
    decreases path.len(),
{
    if path.len() == 0 {
        0
    } else {
        pair_step(slow, fast, pair_run(slow, fast, path.drop_last()), path.last())
    }
}

/// Every entry is the number of a phase-two move.
pub open spec fn moves_ok(path: Seq<int>) -> bool {
    forall|k: int| 0 <= k < path.len() ==> 0 <= #[trigger] path[k] < 10
}

/// `path` leads the solved pair to pair `i`, in `d` moves when `d` is below 254.
pub open spec fn pair_witness(slow: Seq<u16>, fast: Seq<u16>, i: int, d: int, path: Seq<int>) -> bool {
    &&& moves_ok(path)
    &&& pair_run(slow, fast, path) == i
    &&& d < 254 ==> path.len() == d
}

/// Pair `i` is reached from the solved pair by phase-two moves through the tables.
pub open spec fn pair_reachable(slow: Seq<u16>, fast: Seq<u16>, i: int) -> bool {
    exists|path: Seq<int>| #[trigger] moves_ok(path) && pair_run(slow, fast, path) == i
}

/// Every move leads from pair `i` to a pair with a distance.
pub open spec fn pair_closed(slow: Seq<u16>, fast: Seq<u16>, dist: Seq<u8>, i: int) -> bool {
    forall|m: int|
        0 <= m < 10 ==> #[trigger] dist[pair_step(slow, fast, i, m)] != 255 && dist[pair_step(
            slow,
            fast,
            i,
            m,
        )] <= dist_after(dist[i])
}

/// The distance one move further than `d`: one more, up to 254.
pub open spec fn dist_after(d: u8) -> int {
    if d < 254 {
        d + 1
    } else {
        254
    }
}

/// `path` has at least as many moves as the distance of the pair it leads to (up to
/// 254): no entry is larger than the length of any path to its pair.
pub open spec fn no_shorter(dist: Seq<u8>, end: int, path: Seq<int>) -> bool {
    dist[end] <= (if path.len() < 254 {
        path.len() as int
    } else {
        254
    })
}

/// Pair `i` has no distance yet, waits in the queue, or is done.
spec fn pair_settled(slow: Seq<u16>, fast: Seq<u16>, dist: Seq<u8>, q: Seq<usize>, i: int) -> bool {
    dist[i] == 255 || q.contains(i as usize) || pair_closed(slow, fast, dist, i)
}

/// Pair `i`, where it has a distance, is reached by a path of that length.
pub open spec fn pair_known(slow: Seq<u16>, fast: Seq<u16>, dist: Seq<u8>, i: int) -> bool {
    dist[i] != 255 ==> exists|path: Seq<int>| #[trigger] pair_witness(slow, fast, i, dist[i] as int, path)
}

proof fn lemma_pair_step_range(slow: Seq<u16>, fast: Seq<u16>, idx: int, m: int)
    requires
        pair_tables_ok(slow, fast),
        0 <= idx < 967680,
        0 <= m < 10,
    ensures
        0 <= (idx / 40320) * 10 + m < 240,
        0 <= (idx % 40320) * 10 + m < 403200,
        0 <= pair_step(slow, fast, idx, m) < 967680,
{
    let a = idx / 40320;
    let b = idx % 40320;
    assert(0 <= a < 24 && 0 <= b < 40320) by (nonlinear_arith)
        requires
            0 <= idx < 967680,
            a == idx / 40320,
            b == idx % 40320,
    ;
    assert(0 <= a * 10 + m < 240) by (nonlinear_arith)
        requires
            0 <= a < 24,
            0 <= m < 10,
    ;
    assert(0 <= b * 10 + m < 403200) by (nonlinear_arith)
        requires
            0 <= b < 40320,
            0 <= m < 10,
    ;
    let x = slow[a * 10 + m] as int;
    let y = fast[b * 10 + m] as int;
    assert(0 <= x * 40320 + y < 967680) by (nonlinear_arith)
        requires
            0 <= x < 24,
            0 <= y < 40320,
    ;
}

/// Where every pair with a distance is closed, every reachable pair has one.
pub proof fn lemma_pair_reach_closed(slow: Seq<u16>, fast: Seq<u16>, dist: Seq<u8>, path: Seq<int>)
    requires
        pair_tables_ok(slow, fast),
        dist.len() == 967680,
        dist[0] != 255,
        forall|i: int| 0 <= i < 967680 && dist[i] != 255 ==> #[trigger] pair_closed(slow, fast, dist, i),
        moves_ok(path),
    ensures
        0 <= pair_run(slow, fast, path) < 967680,
        dist[pair_run(slow, fast, path)] != 255,
        dist[0] == 0 ==> no_shorter(dist, pair_run(slow, fast, path), path),
    decreases path.len(),
{
    if path.len() > 0 {
        let p = path.drop_last();
        assert(moves_ok(p)) by {
            assert forall|k: int| 0 <= k < p.len() implies 0 <= #[trigger] p[k] < 10 by {
                assert(p[k] == path[k]);
            }
        }
        lemma_pair_reach_closed(slow, fast, dist, p);
        let c = pair_run(slow, fast, p);
        let m = path.last();
        assert(0 <= m < 10) by {
            assert(path[path.len() - 1] == m);
        }
        lemma_pair_step_range(slow, fast, c, m);
        assert(pair_closed(slow, fast, dist, c));
        assert(dist[pair_step(slow, fast, c, m)] != 255);
    }
}

/// The queue of a breadth-first fill: in order of distance, all within one move of
/// its front, as is every pair already reached.
spec fn queue_ok(dist: Seq<u8>, q: Seq<usize>) -> bool {
    &&& forall|j: int, k: int| 0 <= j < k < q.len() ==> dist[#[trigger] q[j] as int] <= dist[#[trigger] q[k] as int]
    &&& q.len() > 0 ==> forall|i: int|
        0 <= i < dist.len() && dist[i] != 255 ==> #[trigger] dist[i] <= dist_after(dist[q[0] as int])
}

/// The distances of the pairs of two phase-two coordinates from the solved pair, by a
/// breadth-first search through the move tables: 0 for the solved pair, the least
/// number of moves that reaches the pair (up to 254) for the others, 255 where no move
/// sequence reaches the pair.
fn pair_distances(slow: &Vec<u16>, fast: &Vec<u16>) -> (dist: Vec<u8>)
    requires
        pair_tables_ok(slow@, fast@),
    ensures
        dist@.len() == 967680,
        forall|i: int| 0 <= i < 967680 ==> (#[trigger] dist@[i] == 0 <==> i == 0),
        forall|i: int|
            0 <= i < 967680 && dist@[i] != 255 ==> #[trigger] pair_closed(slow@, fast@, dist@, i),
        forall|i: int| 0 <= i < 967680 ==> #[trigger] pair_known(slow@, fast@, dist@, i),
{
    let mut dist = filled_u8(967680, 255);
    dist.set(0, 0);
    let mut queue: VecDeque<usize> = VecDeque::new();
    queue.push_back(0);
    proof {
        assert(pair_witness(slow@, fast@, 0, 0, Seq::<int>::empty()));
        assert forall|i: int| 0 <= i < 967680 implies #[trigger] pair_settled(
            slow@,
            fast@,
            dist@,
            queue@,
            i,
        ) by {
            if i == 0 {
                assert(queue@[0] == 0usize);
            }
        }
        assert forall|i: int| 0 <= i < 967680 implies #[trigger] pair_known(slow@, fast@, dist@, i) by {
            if i == 0 {
                assert(pair_witness(slow@, fast@, 0, dist@[0] as int, Seq::<int>::empty()));
            }
        }
        assert forall|i: int| 0 <= i < dist@.len() && dist@[i] != 255 implies #[trigger] dist@[i] <= dist_after(
            dist@[queue@[0] as int],
        ) by {
            assert(i == 0);
        }
    }
    let mut more = true;
    while more
        invariant
            pair_tables_ok(slow@, fast@),
            dist@.len() == 967680,
            forall|i: int| 0 <= i < 967680 ==> (#[trigger] dist@[i] == 0 ==> i == 0),
            dist@[0] == 0,
            forall|j: int| 0 <= j < queue@.len() ==> #[trigger] queue@[j] < 967680,
            forall|j: int| 0 <= j < queue@.len() ==> dist@[#[trigger] queue@[j] as int] != 255,
            queue_ok(dist@, queue@),
            forall|i: int| 0 <= i < 967680 ==> #[trigger] pair_settled(slow@, fast@, dist@, queue@, i),
            forall|i: int| 0 <= i < 967680 ==> #[trigger] pair_known(slow@, fast@, dist@, i),
            !more ==> queue@.len() == 0,
        decreases count_unreached(dist@), queue@.len() + (if more {
            1int
        } else {
            0int
        }),
    {
        let ghost q0 = queue@;
        match queue.pop_front() {
            None => {
                more = false;
            },
            Some(c) => {
                let d = dist[c];
                let ghost unreached_at_pop = count_unreached(dist@);
                let ghost len_at_pop = queue@.len();
                proof {
                    assert(q0[0] == c);
                    assert forall|i: int| 0 <= i < 967680 && i != c implies #[trigger] pair_settled(
                        slow@,
                        fast@,
                        dist@,
                        queue@,
                        i,
                    ) by {
                        assert(pair_settled(slow@, fast@, dist@, q0, i));
                        if dist@[i] != 255 && q0.contains(i as usize) && !pair_closed(slow@, fast@, dist@, i) {
                            let k = choose|k: int| 0 <= k < q0.len() && q0[k] == i as usize;
                            assert(k != 0);
                            assert(queue@[k - 1] == q0[k]);
                        }
                    }
                    assert forall|j: int| 0 <= j < queue@.len() implies d <= dist@[#[trigger] queue@[j] as int]
                        && dist@[queue@[j] as int] <= dist_after(d) by {
                        assert(queue@[j] == q0[j + 1]);
                        assert(dist@[q0[0] as int] <= dist@[q0[j + 1] as int]);
                    }
                    assert forall|j: int, k: int| 0 <= j < k < queue@.len() implies dist@[#[trigger] queue@[j] as int]
                        <= dist@[#[trigger] queue@[k] as int] by {
                        assert(queue@[j] == q0[j + 1] && queue@[k] == q0[k + 1]);
                        assert(dist@[q0[j + 1] as int] <= dist@[q0[k + 1] as int]);
                    }
                }
                let mut m: usize = 0;
                while m < 10
                    invariant
                        pair_tables_ok(slow@, fast@),
                        c < 967680,
                        m <= 10,
                        dist@.len() == 967680,
                        dist@[c as int] == d,
                        d != 255,
                        forall|i: int| 0 <= i < 967680 ==> (#[trigger] dist@[i] == 0 ==> i == 0),
                        dist@[0] == 0,
                        forall|j: int| 0 <= j < queue@.len() ==> #[trigger] queue@[j] < 967680,
                        forall|j: int| 0 <= j < queue@.len() ==> dist@[#[trigger] queue@[j] as int] != 255,
                        forall|j: int|
                            0 <= j < queue@.len() ==> d <= dist@[#[trigger] queue@[j] as int] && dist@[queue@[j] as int]
                                <= dist_after(d),
                        forall|j: int, k: int|
                            0 <= j < k < queue@.len() ==> dist@[#[trigger] queue@[j] as int]
                                <= dist@[#[trigger] queue@[k] as int],
                        forall|i: int| 0 <= i < dist@.len() && dist@[i] != 255 ==> #[trigger] dist@[i] <= dist_after(d),
                        forall|i: int|
                            0 <= i < 967680 && i != c ==> #[trigger] pair_settled(
                                slow@,
                                fast@,
                                dist@,
                                queue@,
                                i,
                            ),
                        forall|i: int| 0 <= i < 967680 ==> #[trigger] pair_known(slow@, fast@, dist@, i),
                        forall|mm: int|
                            0 <= mm < m ==> #[trigger] dist@[pair_step(slow@, fast@, c as int, mm)] != 255
                                && dist@[pair_step(slow@, fast@, c as int, mm)] <= dist_after(d),
                        queue@.len() >= len_at_pop,
                        count_unreached(dist@) + (queue@.len() - len_at_pop) <= unreached_at_pop,
                    decreases 10 - m,
                {
                    proof {
                        lemma_pair_step_range(slow@, fast@, c as int, m as int);
                    }
                    let a = c / 40320;
                    let b = c % 40320;
                    let nb = (slow[a * 10 + m] as usize) * 40320 + (fast[b * 10 + m] as usize);
                    proof {
                        assert(nb == pair_step(slow@, fast@, c as int, m as int));
                    }
                    if dist[nb] == 255 {
                        let ghost before = dist@;
                        let ghost qb = queue@;
                        let nd = next_distance(d);
                        dist.set(nb, nd);
                        queue.push_back(nb);
                        proof {
                            assert(nd == dist_after(d));
                            lemma_count_fill(before, nb as int, nd);
                            assert(pair_known(slow@, fast@, before, c as int));
                            let p = choose|p: Seq<int>| #[trigger] pair_witness(slow@, fast@, c as int, d as int, p);
                            let p2 = p.push(m as int);
                            assert(p2.drop_last() =~= p);
                            assert(moves_ok(p2)) by {
                                assert forall|k: int| 0 <= k < p2.len() implies 0 <= #[trigger] p2[k] < 10 by {
                                    if k < p.len() {
                                        assert(p2[k] == p[k]);
                                    }
                                }
                            }
                            assert(pair_witness(slow@, fast@, nb as int, nd as int, p2));
                            assert forall|i: int| 0 <= i < 967680 implies #[trigger] pair_known(
                                slow@,
                                fast@,
                                dist@,
                                i,
                            ) by {
                                if i != nb {
                                    assert(pair_known(slow@, fast@, before, i));
                                }
                            }
                            assert forall|i: int| 0 <= i < 967680 && i != c implies #[trigger] pair_settled(
                                slow@,
                                fast@,
                                dist@,
                                queue@,
                                i,
                            ) by {
                                if i == nb {
                                    assert(queue@[queue@.len() - 1] == nb);
                                } else {
                                    assert(pair_settled(slow@, fast@, before, qb, i));
                                    if qb.contains(i as usize) {
                                        let k = choose|k: int| 0 <= k < qb.len() && qb[k] == i as usize;
                                        assert(queue@[k] == qb[k]);
                                    }
                                    if pair_closed(slow@, fast@, before, i) {
                                        assert forall|mm: int| 0 <= mm < 10 implies #[trigger] dist@[pair_step(slow@, fast@, i, mm)] != 255
                                            && dist@[pair_step(slow@, fast@, i, mm)] <= dist_after(dist@[i]) by {
                                            assert(before[pair_step(slow@, fast@, i, mm)] != 255);
                                        }
                                    }
                                }
                            }
                            assert forall|j: int| 0 <= j < queue@.len() implies dist@[#[trigger] queue@[j] as int] != 255 by {
                                if j < qb.len() {
                                    assert(queue@[j] == qb[j]);
                                }
                            }
                            assert forall|j: int| 0 <= j < queue@.len() implies #[trigger] queue@[j] < 967680 by {
                                if j < qb.len() {
                                    assert(queue@[j] == qb[j]);
                                }
                            }
                            assert forall|j: int| 0 <= j < queue@.len() implies d <= dist@[#[trigger] queue@[j] as int]
                                && dist@[queue@[j] as int] <= dist_after(d) by {
                                if j < qb.len() {
                                    assert(queue@[j] == qb[j]);
                                }
                            }
                            assert forall|j: int, k: int| 0 <= j < k < queue@.len() implies dist@[#[trigger] queue@[j] as int]
                                <= dist@[#[trigger] queue@[k] as int] by {
                                assert(queue@[j] == qb[j]);
                                if k < qb.len() {
                                    assert(queue@[k] == qb[k]);
                                }
                            }
                            assert forall|i: int| 0 <= i < dist@.len() && dist@[i] != 255 implies #[trigger] dist@[i] <= dist_after(d) by {
                                if i != nb {
                                    assert(before[i] == dist@[i]);
                                }
                            }
                            assert forall|mm: int| 0 <= mm <= m implies #[trigger] dist@[pair_step(slow@, fast@, c as int, mm)] != 255
                                && dist@[pair_step(slow@, fast@, c as int, mm)] <= dist_after(d) by {
                                if mm < m {
                                    assert(before[pair_step(slow@, fast@, c as int, mm)] != 255);
                                }
                            }
                        }
                    }
                    m = m + 1;
                }
                proof {
                    assert(pair_closed(slow@, fast@, dist@, c as int));
                    assert(pair_settled(slow@, fast@, dist@, queue@, c as int));
                    if queue@.len() > 0 {
                        let f = dist@[queue@[0] as int];
                        assert(d <= f);
                        assert forall|i: int| 0 <= i < dist@.len() && dist@[i] != 255 implies #[trigger] dist@[i]
                            <= dist_after(dist@[queue@[0] as int]) by {
                            assert(dist@[i] <= dist_after(d));
                        }
                    }
                }
            },
        }
    }
    proof {
        assert forall|i: int| 0 <= i < 967680 && dist@[i] != 255 implies #[trigger] pair_closed(
            slow@,
            fast@,
            dist@,
            i,
        ) by {
            assert(pair_settled(slow@, fast@, dist@, queue@, i));
        }
    }
    dist
}

/// Generates the phase-two tables: the move tables of the corner, outer-edge and
/// middle-slice permutations, computed on the cubes that `from_cp`, `from_ep_no_uds`
/// and `from_uds_perm` build, and as pruning tables the distances from the solved pair
/// of each pair of slice permutation and outer-edge (or corner) permutation, by a
/// breadth-first search through the move tables: each entry is the least number of
/// phase-two moves that reaches its pair, capped at 254; 255 marks a pair that no
/// sequence of phase-two moves reaches.
pub fn gen_g2_tables() -> (t: G2Tables)
    ensures
        t.wf(),
        forall|v: int, m: int| 0 <= v < 40320 && 0 <= m < 10 ==> #[trigger] cp_move_ok(t.cp_move@, v, m),
        forall|v: int, m: int|
            0 <= v < 40320 && 0 <= m < 10 ==> #[trigger] ep_no_uds_move_ok(t.ep_no_uds_move@, v, m),
        forall|v: int, m: int| 0 <= v < 24 && 0 <= m < 10 ==> #[trigger] ep_uds_move_ok(t.ep_uds_move@, v, m),
        forall|i: int| 0 <= i < 967680 ==> (#[trigger] t.cp_uds_table@[i] == 0 <==> i == 0),
        forall|i: int| 0 <= i < 967680 ==> (#[trigger] t.ep_table@[i] == 0 <==> i == 0),
        forall|i: int|
            0 <= i < 967680 ==> (#[trigger] t.cp_uds_table@[i] == 255 <==> !pair_reachable(
                t.ep_uds_move@,
                t.cp_move@,
                i,
            )),
        forall|i: int|
            0 <= i < 967680 ==> (#[trigger] t.ep_table@[i] == 255 <==> !pair_reachable(
                t.ep_uds_move@,
                t.ep_no_uds_move@,
                i,
            )),
        forall|i: int| 0 <= i < 967680 ==> #[trigger] pair_known(t.ep_uds_move@, t.cp_move@, t.cp_uds_table@, i),
        forall|i: int|
            0 <= i < 967680 ==> #[trigger] pair_known(t.ep_uds_move@, t.ep_no_uds_move@, t.ep_table@, i),
        forall|i: int|
            0 <= i < 967680 && t.cp_uds_table@[i] != 255 ==> #[trigger] pair_closed(
                t.ep_uds_move@,
                t.cp_move@,
                t.cp_uds_table@,
                i,
            ),
        forall|i: int|
            0 <= i < 967680 && t.ep_table@[i] != 255 ==> #[trigger] pair_closed(
                t.ep_uds_move@,
                t.ep_no_uds_move@,
                t.ep_table@,
                i,
            ),
        forall|path: Seq<int>|
            moves_ok(path) ==> no_shorter(
                t.cp_uds_table@,
                #[trigger] pair_run(t.ep_uds_move@, t.cp_move@, path),
                path,
            ),
        forall|path: Seq<int>|
            moves_ok(path) ==> no_shorter(
                t.ep_table@,
                #[trigger] pair_run(t.ep_uds_move@, t.ep_no_uds_move@, path),
                path,
            ),
{
    let cp_move = gen_cp_move();
    let ep_no_uds_move = gen_ep_no_uds_move();
    let ep_uds_move = gen_ep_uds_move();
    let cp_uds_table = pair_distances(&ep_uds_move, &cp_move);
    let ep_table = pair_distances(&ep_uds_move, &ep_no_uds_move);
    proof {
        lemma_reachable_iff(ep_uds_move@, cp_move@, cp_uds_table@);
        lemma_reachable_iff(ep_uds_move@, ep_no_uds_move@, ep_table@);
        assert forall|path: Seq<int>| moves_ok(path) implies no_shorter(
            cp_uds_table@,
            #[trigger] pair_run(ep_uds_move@, cp_move@, path),
            path,
        ) by {
            lemma_pair_reach_closed(ep_uds_move@, cp_move@, cp_uds_table@, path);
        }
        assert forall|path: Seq<int>| moves_ok(path) implies no_shorter(
            ep_table@,
            #[trigger] pair_run(ep_uds_move@, ep_no_uds_move@, path),
            path,
        ) by {
            lemma_pair_reach_closed(ep_uds_move@, ep_no_uds_move@, ep_table@, path);
        }
    }
    G2Tables { cp_move, ep_no_uds_move, ep_uds_move, cp_uds_table, ep_table }
}

/// With every pair that has a distance closed and each one witnessed by a path, a pair
/// has a distance exactly when some move sequence reaches it.
proof fn lemma_reachable_iff(slow: Seq<u16>, fast: Seq<u16>, dist: Seq<u8>)
    requires
        pair_tables_ok(slow, fast),
        dist.len() == 967680,
        dist[0] == 0,
        forall|i: int| 0 <= i < 967680 && dist[i] != 255 ==> #[trigger] pair_closed(slow, fast, dist, i),
        forall|i: int| 0 <= i < 967680 ==> #[trigger] pair_known(slow, fast, dist, i),
    ensures
        forall|i: int| 0 <= i < 967680 ==> (#[trigger] dist[i] == 255 <==> !pair_reachable(slow, fast, i)),
{
    assert forall|i: int| 0 <= i < 967680 implies (#[trigger] dist[i] == 255 <==> !pair_reachable(
        slow,
        fast,
        i,
    )) by {
        if pair_reachable(slow, fast, i) {
            let p = choose|p: Seq<int>| #[trigger] moves_ok(p) && pair_run(slow, fast, p) == i;
            lemma_pair_reach_closed(slow, fast, dist, p);
        }
        if dist[i] != 255 {
            assert(pair_known(slow, fast, dist, i));
            let p = choose|p: Seq<int>| #[trigger] pair_witness(slow, fast, i, dist[i] as int, p);
            assert(moves_ok(p) && pair_run(slow, fast, p) == i);
        }
    }
}

/// The move table of one coordinate: entry `v * 18 + m` is where move `m` takes value `v`.
pub open spec fn eo_move_ok(t: Seq<u16>, v: int, m: int) -> bool {
    t[v * 18 + m] == eo_coord(turned(from_eo_state(v), spec_move_at(m)))
}

pub open spec fn co_move_ok(t: Seq<u16>, v: int, m: int) -> bool {
    t[v * 18 + m] == co_coord(turned(from_co_state(v), spec_move_at(m)))
}

pub open spec fn uds_move_ok(t: Seq<u16>, v: int, m: int) -> bool {
    t[v * 18 + m] == uds_coord(turned(from_uds_state(v), spec_move_at(m)))
}

/// The phase-one tables that `gen_g1_tables` makes.
pub struct G1GenTables {
    pub eo_move: Vec<u16>,
    pub co_move: Vec<u16>,
    pub uds_move: Vec<u16>,
    /// Entry `class * 2187 + co`: the depth at which the breadth-first search over
    /// symmetry classes of (edge orientation, slice) and corner orientations first
    /// reaches the pair; 255 where it never does.
    pub eo_co_uds_table: Vec<u8>,
}

/// The edge orientation move table.
fn gen_eo_move() -> (t: Vec<u16>)
    ensures
        t@.len() == 36864,
        forall|v: int, m: int| 0 <= v < 2048 && 0 <= m < 18 ==> #[trigger] eo_move_ok(t@, v, m),
{
    let mut t = filled_u16(36864, 0);
    let mut v: u16 = 0;
    while v < 2048
        invariant
            v <= 2048,
            t@.len() == 36864,
            forall|w: int, m: int| 0 <= w < v && 0 <= m < 18 ==> #[trigger] eo_move_ok(t@, w, m),
        decreases 2048 - v,
    {
        let cube = KociembaCube::from_eo(v);
        let mut m: usize = 0;
        while m < 18
            invariant
                v < 2048,
                m <= 18,
                cube.0@ == from_eo_state(v as int),
                t@.len() == 36864,
                forall|w: int, mm: int|
                    0 <= mm < 18 && (0 <= w < v || (w == v && mm < m)) ==> #[trigger] eo_move_ok(t@, w, mm),
            decreases 18 - m,
        {
            let mv = move_at(m);
            let mut next = cube;
            proof {
                assert(oris_ok(cube.0@));
                lemma_turn_keeps_oris(cube.0@, mv);
            }
            next.0.turn(&mv);
            let c = next.get_eo_coord();
            proof {
                assert(v * 18 + m < 36864) by (nonlinear_arith)
                    requires
                        v < 2048,
                        m < 18,
                ;
            }
            let ghost before = t@;
            t.set((v as usize) * 18 + m, c);
            proof {
                assert forall|w: int, mm: int|
                    0 <= mm < 18 && (0 <= w < v || (w == v && mm <= m)) implies #[trigger] eo_move_ok(t@, w, mm) by {
                    if w != v || mm != m {
                        lemma_slot_index(w, mm, v as int, m as int, 18);
                        assert(eo_move_ok(before, w, mm));
                    }
                }
            }
            m = m + 1;
        }
        v = v + 1;
    }
    t
}

/// The corner orientation move table.
fn gen_co_move() -> (t: Vec<u16>)
    ensures
        t@.len() == 39366,
        forall|v: int, m: int| 0 <= v < 2187 && 0 <= m < 18 ==> #[trigger] co_move_ok(t@, v, m),
        forall|i: int| 0 <= i < 39366 ==> #[trigger] t@[i] < 2187,
{
    let mut t = filled_u16(39366, 0);
    let mut v: u16 = 0;
    while v < 2187
        invariant
            v <= 2187,
            t@.len() == 39366,
            forall|w: int, m: int| 0 <= w < v && 0 <= m < 18 ==> #[trigger] co_move_ok(t@, w, m),
            forall|i: int| 0 <= i < 39366 ==> #[trigger] t@[i] < 2187,
        decreases 2187 - v,
    {
        let cube = KociembaCube::from_co(v);
        proof {
            lemma_co_state_ok(v as int);
        }
        let mut m: usize = 0;
        while m < 18
            invariant
                v < 2187,
                m <= 18,
                cube.0@ == from_co_state(v as int),
                oris_ok(cube.0@),
                t@.len() == 39366,
                forall|w: int, mm: int|
                    0 <= mm < 18 && (0 <= w < v || (w == v && mm < m)) ==> #[trigger] co_move_ok(t@, w, mm),
                forall|i: int| 0 <= i < 39366 ==> #[trigger] t@[i] < 2187,
            decreases 18 - m,
        {
            let mv = move_at(m);
            let mut next = cube;
            proof {
                lemma_turn_keeps_oris(cube.0@, mv);
            }
            next.0.turn(&mv);
            let c = next.get_co_coord();
            proof {
                lemma_co_bound(next.0@);
                assert(v * 18 + m < 39366) by (nonlinear_arith)
                    requires
                        v < 2187,
                        m < 18,
                ;
            }
            let ghost before = t@;
            t.set((v as usize) * 18 + m, c);
            proof {
                assert forall|w: int, mm: int|
                    0 <= mm < 18 && (0 <= w < v || (w == v && mm <= m)) implies #[trigger] co_move_ok(t@, w, mm) by {
                    if w != v || mm != m {
                        lemma_slot_index(w, mm, v as int, m as int, 18);
                        assert(co_move_ok(before, w, mm));
                    }
                }
            }
            m = m + 1;
        }
        v = v + 1;
    }
    t
}

/// The slice move table.
fn gen_uds_move() -> (t: Vec<u16>)
    ensures
        t@.len() == 8910,
        forall|v: int, m: int| 0 <= v < 495 && 0 <= m < 18 ==> #[trigger] uds_move_ok(t@, v, m),
{
    let mut t = filled_u16(8910, 0);
    let mut v: u16 = 0;
    while v < 495
        invariant
            v <= 495,
            t@.len() == 8910,
            forall|w: int, m: int| 0 <= w < v && 0 <= m < 18 ==> #[trigger] uds_move_ok(t@, w, m),
        decreases 495 - v,
    {
        let cube = KociembaCube::from_uds_ori(v);
        let mut m: usize = 0;
        while m < 18
            invariant
                v < 495,
                m <= 18,
                cube.0@ == from_uds_state(v as int),
                t@.len() == 8910,
                forall|w: int, mm: int|
                    0 <= mm < 18 && (0 <= w < v || (w == v && mm < m)) ==> #[trigger] uds_move_ok(t@, w, mm),
            decreases 18 - m,
        {
            let mv = move_at(m);
            let mut next = cube;
            proof {
                assert(oris_ok(cube.0@));
                lemma_turn_keeps_oris(cube.0@, mv);
            }
            next.0.turn(&mv);
            let c = next.get_uds_coord();
            proof {
                assert(v * 18 + m < 8910) by (nonlinear_arith)
                    requires
                        v < 495,
                        m < 18,
                ;
            }
            let ghost before = t@;
            t.set((v as usize) * 18 + m, c);
            proof {
                assert forall|w: int, mm: int|
                    0 <= mm < 18 && (0 <= w < v || (w == v && mm <= m)) implies #[trigger] uds_move_ok(t@, w, mm) by {
                    if w != v || mm != m {
                        lemma_slot_index(w, mm, v as int, m as int, 18);
                        assert(uds_move_ok(before, w, mm));
                    }
                }
            }
            m = m + 1;
        }
        v = v + 1;
    }
    t
}

proof fn lemma_unpack(x: u32)
    by (bit_vector)
    ensures
        x >> 4 == x / 16,
        x & 0xf == x % 16,
{
}

/// The pair (symmetry class `idx / 2187`, corner orientation `idx % 2187`) after move
/// `m`: the class moved by the class move table `sm` (class times 16 plus a symmetry),
/// the corner orientation moved by `com` and brought into the class's frame by `csm`.
pub open spec fn g1_pair_step(sm: Seq<u32>, csm: Seq<u16>, com: Seq<u16>, idx: int, m: int) -> int {
    let packed = sm[(idx / 2187) * 18 + m];
    (packed / 16) as int * 2187 + csm[com[(idx % 2187) * 18 + m] as int * 16 + (packed % 16) as int] as int
}

/// The pair that a sequence of moves leads the start pair (index 0) to.
pub open spec fn g1_pair_run(sm: Seq<u32>, csm: Seq<u16>, com: Seq<u16>, path: Seq<int>) -> int
    decreases path.len(),
{
    if path.len() == 0 {
        0
    } else {
        g1_pair_step(sm, csm, com, g1_pair_run(sm, csm, com, path.drop_last()), path.last())
    }
}

/// Every entry is the number of a move of the standard list.
pub open spec fn g1_moves_ok(path: Seq<int>) -> bool {
    forall|k: int| 0 <= k < path.len() ==> 0 <= #[trigger] path[k] < 18
}

/// `path` leads the start pair to pair `i`, in `d` moves when `d` is below 254.
pub open spec fn g1_pair_witness(sm: Seq<u32>, csm: Seq<u16>, com: Seq<u16>, i: int, d: int, path: Seq<int>) -> bool {
    &&& g1_moves_ok(path)
    &&& g1_pair_run(sm, csm, com, path) == i
    &&& d < 254 ==> path.len() == d
}

/// Pair `i` is reached from the start pair by moves through the tables.
pub open spec fn g1_pair_reachable(sm: Seq<u32>, csm: Seq<u16>, com: Seq<u16>, i: int) -> bool {
    exists|path: Seq<int>| #[trigger] g1_moves_ok(path) && g1_pair_run(sm, csm, com, path) == i
}

/// Every move leads from pair `i` to a pair with a distance.
pub open spec fn g1_pair_closed(sm: Seq<u32>, csm: Seq<u16>, com: Seq<u16>, dist: Seq<u8>, i: int) -> bool {
    forall|m: int|
        0 <= m < 18 ==> #[trigger] dist[g1_pair_step(sm, csm, com, i, m)] != 255 && dist[g1_pair_step(
            sm,
            csm,
            com,
            i,
            m,
        )] <= dist_after(dist[i])
}

/// Pair `i`, where it has a distance, is reached by a path of that length.
pub open spec fn g1_pair_known(sm: Seq<u32>, csm: Seq<u16>, com: Seq<u16>, dist: Seq<u8>, i: int) -> bool {
    dist[i] != 255 ==> exists|path: Seq<int>| #[trigger] g1_pair_witness(sm, csm, com, i, dist[i] as int, path)
}

spec fn g1_settled(sm: Seq<u32>, csm: Seq<u16>, com: Seq<u16>, dist: Seq<u8>, q: Seq<usize>, i: int) -> bool {
    dist[i] == 255 || q.contains(i as usize) || g1_pair_closed(sm, csm, com, dist, i)
}

/// The tables the phase-one search runs through.
pub open spec fn g1_search_tables_ok(sm: Seq<u32>, csm: Seq<u16>, com: Seq<u16>) -> bool {
    &&& csm.len() == 34992
    &&& forall|i: int| 0 <= i < 34992 ==> #[trigger] csm[i] < 2187
    &&& sm.len() % 18 == 0
    &&& 18 <= sm.len() <= 18 * 1013760
    &&& forall|i: int| 0 <= i < sm.len() ==> #[trigger] sm[i] / 16 < sm.len() / 18
    &&& com.len() == 39366
    &&& forall|i: int| 0 <= i < 39366 ==> #[trigger] com[i] < 2187
}

proof fn lemma_g1_step_range(sm: Seq<u32>, csm: Seq<u16>, com: Seq<u16>, idx: int, m: int)
    requires
        g1_search_tables_ok(sm, csm, com),
        0 <= idx < sm.len() / 18 * 2187,
        0 <= m < 18,
    ensures
        0 <= (idx / 2187) * 18 + m < sm.len(),
        0 <= (idx % 2187) * 18 + m < 39366,
        0 <= com[(idx % 2187) * 18 + m] as int * 16 + ((sm[(idx / 2187) * 18 + m] % 16) as int) < 34992,
        0 <= g1_pair_step(sm, csm, com, idx, m) < sm.len() / 18 * 2187,
{
    let classes = sm.len() / 18;
    let a = idx / 2187;
    let b = idx % 2187;
    assert(0 <= a < classes && 0 <= b < 2187) by (nonlinear_arith)
        requires
            0 <= idx < classes * 2187,
            a == idx / 2187,
            b == idx % 2187,
    ;
    assert(0 <= a * 18 + m < classes * 18) by (nonlinear_arith)
        requires
            0 <= a < classes,
            0 <= m < 18,
    ;
    assert(0 <= b * 18 + m < 39366) by (nonlinear_arith)
        requires
            0 <= b < 2187,
            0 <= m < 18,
    ;
    let packed = sm[a * 18 + m];
    let c = com[b * 18 + m] as int;
    let y = (packed % 16) as int;
    assert(0 <= c * 16 + y < 34992) by (nonlinear_arith)
        requires
            0 <= c < 2187,
            0 <= y < 16,
    ;
    let x = (packed / 16) as int;
    let z = csm[c * 16 + y] as int;
    assert(0 <= x * 2187 + z < classes * 2187) by (nonlinear_arith)
        requires
            0 <= x < classes,
            0 <= z < 2187,
    ;
}

/// Where every pair with a distance is closed, every reachable pair has one.
proof fn lemma_g1_reach_closed(sm: Seq<u32>, csm: Seq<u16>, com: Seq<u16>, dist: Seq<u8>, path: Seq<int>)
    requires
        g1_search_tables_ok(sm, csm, com),
        dist.len() == sm.len() / 18 * 2187,
        dist[0] != 255,
        forall|i: int| 0 <= i < dist.len() && dist[i] != 255 ==> #[trigger] g1_pair_closed(sm, csm, com, dist, i),
        g1_moves_ok(path),
    ensures
        0 <= g1_pair_run(sm, csm, com, path) < dist.len(),
        dist[g1_pair_run(sm, csm, com, path)] != 255,
        dist[0] == 0 ==> no_shorter(dist, g1_pair_run(sm, csm, com, path), path),
    decreases path.len(),
{
    if path.len() > 0 {
        let p = path.drop_last();
        assert(g1_moves_ok(p)) by {
            assert forall|k: int| 0 <= k < p.len() implies 0 <= #[trigger] p[k] < 18 by {
                assert(p[k] == path[k]);
            }
        }
        lemma_g1_reach_closed(sm, csm, com, dist, p);
        let c = g1_pair_run(sm, csm, com, p);
        let m = path.last();
        assert(0 <= m < 18) by {
            assert(path[path.len() - 1] == m);
        }
        lemma_g1_step_range(sm, csm, com, c, m);
        assert(g1_pair_closed(sm, csm, com, dist, c));
        assert(dist[g1_pair_step(sm, csm, com, c, m)] != 255);
    }
}

/// A sequence that is 255 throughout counts every entry as unreached.
proof fn lemma_count_all(s: Seq<u8>)
    requires
        forall|i: int| 0 <= i < s.len() ==> #[trigger] s[i] == 255,
    ensures
        count_unreached(s) == s.len(),
    decreases s.len(),
{
    if s.len() > 0 {
        lemma_count_all(s.drop_last());
    }
}

/// A count of 0 means no entry is unreached.
proof fn lemma_count_none(s: Seq<u8>)
    requires
        count_unreached(s) == 0,
    ensures
        forall|i: int| 0 <= i < s.len() ==> #[trigger] s[i] != 255,
    decreases s.len(),
{
    if s.len() > 0 {
        lemma_count_none(s.drop_last());
        assert forall|i: int| 0 <= i < s.len() implies #[trigger] s[i] != 255 by {
            if i < s.len() - 1 {
                assert(s[i] == s.drop_last()[i]);
            }
        }
    }
}

/// Generates the phase-one tables: the move tables of the edge orientation, corner
/// orientation and slice coordinates, computed on the cubes that `from_eo`, `from_co`
/// and `from_uds_ori` build, and a pruning table by breadth-first search over pairs
/// of a symmetry class and a corner orientation, with the class move table
/// `eo_uds_sym_move` and the corner symmetry map `co_sym_map`. Distances stop growing
/// at 254; 255 marks a pair no move sequence reaches; the search stops once every pair
/// is reached.
pub fn gen_g1_tables(co_sym_map: &[u16], eo_uds_sym_move: &[u32]) -> (t: G1GenTables)
    requires
        co_sym_map@.len() == 34992,
        forall|i: int| 0 <= i < 34992 ==> #[trigger] co_sym_map@[i] < 2187,
        eo_uds_sym_move@.len() % 18 == 0,
        18 <= eo_uds_sym_move@.len() <= 18 * 1013760,
        forall|i: int|
            0 <= i < eo_uds_sym_move@.len() ==> #[trigger] eo_uds_sym_move@[i] / 16
                < eo_uds_sym_move@.len() / 18,
    ensures
        t.eo_move@.len() == 36864,
        t.co_move@.len() == 39366,
        t.uds_move@.len() == 8910,
        forall|v: int, m: int| 0 <= v < 2048 && 0 <= m < 18 ==> #[trigger] eo_move_ok(t.eo_move@, v, m),
        forall|v: int, m: int| 0 <= v < 2187 && 0 <= m < 18 ==> #[trigger] co_move_ok(t.co_move@, v, m),
        forall|v: int, m: int| 0 <= v < 495 && 0 <= m < 18 ==> #[trigger] uds_move_ok(t.uds_move@, v, m),
        t.eo_co_uds_table@.len() == eo_uds_sym_move@.len() / 18 * 2187,
        t.eo_co_uds_table@[0] == 0,
        forall|i: int|
            0 <= i < t.eo_co_uds_table@.len() ==> (#[trigger] t.eo_co_uds_table@[i] == 0 <==> i == 0),
        forall|i: int|
            0 <= i < t.eo_co_uds_table@.len() && t.eo_co_uds_table@[i] != 255 ==> #[trigger] g1_pair_closed(
                eo_uds_sym_move@,
                co_sym_map@,
                t.co_move@,
                t.eo_co_uds_table@,
                i,
            ),
        forall|i: int|
            0 <= i < t.eo_co_uds_table@.len() ==> #[trigger] g1_pair_known(
                eo_uds_sym_move@,
                co_sym_map@,
                t.co_move@,
                t.eo_co_uds_table@,
                i,
            ),
        forall|i: int|
            0 <= i < t.eo_co_uds_table@.len() ==> (#[trigger] t.eo_co_uds_table@[i] == 255
                <==> !g1_pair_reachable(eo_uds_sym_move@, co_sym_map@, t.co_move@, i)),
        forall|path: Seq<int>|
            g1_moves_ok(path) ==> no_shorter(
                t.eo_co_uds_table@,
                #[trigger] g1_pair_run(eo_uds_sym_move@, co_sym_map@, t.co_move@, path),
                path,
            ),
{
    let eo_move = gen_eo_move();
    let co_move = gen_co_move();
    let uds_move = gen_uds_move();
    let ghost sm = eo_uds_sym_move@;
    let ghost csm = co_sym_map@;
    let ghost com = co_move@;
    proof {
        assert forall|i: int| 0 <= i < 39366 implies #[trigger] com[i] < 2187 by {
            let v = i / 18;
            let m = i % 18;
            assert(0 <= v < 2187 && 0 <= m < 18 && i == v * 18 + m) by (nonlinear_arith)
                requires
                    0 <= i < 39366,
                    v == i / 18,
                    m == i % 18,
            ;
            assert(co_move_ok(com, v, m));
            lemma_co_state_ok(v);
            lemma_co_bound(turned(from_co_state(v), spec_move_at(m)));
        }
        assert(g1_search_tables_ok(sm, csm, com));
    }
    let classes = eo_uds_sym_move.len() / 18;
    let total_states = classes * 2187;
    let mut pruning_table = filled_u8(total_states, 255);
    proof {
        lemma_count_all(pruning_table@);
        lemma_count_fill(pruning_table@, 0, 0);
    }
    pruning_table.set(0, 0);
    let mut queue: VecDeque<usize> = VecDeque::new();
    queue.push_back(0);
    let mut visited_count: usize = 1;
    proof {
        assert(g1_pair_witness(sm, csm, com, 0, 0, Seq::<int>::empty()));
        assert forall|i: int| 0 <= i < total_states implies #[trigger] g1_settled(
            sm,
            csm,
            com,
            pruning_table@,
            queue@,
            i,
        ) by {
            if i == 0 {
                assert(queue@[0] == 0usize);
            }
        }
        assert forall|i: int| 0 <= i < total_states implies #[trigger] g1_pair_known(
            sm,
            csm,
            com,
            pruning_table@,
            i,
        ) by {
            if i == 0 {
                assert(g1_pair_witness(sm, csm, com, 0, pruning_table@[0] as int, Seq::<int>::empty()));
            }
        }
        assert forall|i: int| 0 <= i < pruning_table@.len() && pruning_table@[i] != 255 implies #[trigger] pruning_table@[i]
            <= dist_after(pruning_table@[queue@[0] as int]) by {
            assert(i == 0);
        }
    }
    let mut more = true;
    while more
        invariant
            g1_search_tables_ok(sm, csm, com),
            sm == eo_uds_sym_move@,
            csm == co_sym_map@,
            com == co_move@,
            classes == sm.len() / 18,
            1 <= classes <= 1013760,
            total_states == classes * 2187,
            pruning_table@.len() == total_states,
            pruning_table@[0] == 0,
            forall|i: int| 0 <= i < total_states ==> (#[trigger] pruning_table@[i] == 0 ==> i == 0),
            visited_count + count_unreached(pruning_table@) == total_states,
            1 <= visited_count <= total_states,
            forall|j: int| 0 <= j < queue@.len() ==> #[trigger] queue@[j] < total_states,
            forall|j: int| 0 <= j < queue@.len() ==> pruning_table@[#[trigger] queue@[j] as int] != 255,
            queue_ok(pruning_table@, queue@),
            forall|i: int|
                0 <= i < total_states ==> #[trigger] g1_settled(sm, csm, com, pruning_table@, queue@, i),
            forall|i: int| 0 <= i < total_states ==> #[trigger] g1_pair_known(sm, csm, com, pruning_table@, i),
            !more ==> queue@.len() == 0 || visited_count == total_states,
        decreases total_states - visited_count, queue@.len() + (if more {
            1int
        } else {
            0int
        }),
    {
        if visited_count == total_states {
            more = false;
        } else {
            let ghost q0 = queue@;
            match queue.pop_front() {
                None => {
                    more = false;
                },
                Some(c) => {
                    let curr_dist = pruning_table[c];
                    let ghost visited_at_pop = visited_count;
                    let ghost len_at_pop = queue@.len();
                    proof {
                        assert(q0[0] == c);
                        assert forall|i: int| 0 <= i < total_states && i != c implies #[trigger] g1_settled(
                            sm,
                            csm,
                            com,
                            pruning_table@,
                            queue@,
                            i,
                        ) by {
                            assert(g1_settled(sm, csm, com, pruning_table@, q0, i));
                            if pruning_table@[i] != 255 && q0.contains(i as usize) && !g1_pair_closed(
                                sm,
                                csm,
                                com,
                                pruning_table@,
                                i,
                            ) {
                                let k = choose|k: int| 0 <= k < q0.len() && q0[k] == i as usize;
                                assert(k != 0);
                                assert(queue@[k - 1] == q0[k]);
                            }
                        }
                        assert forall|j: int| 0 <= j < queue@.len() implies curr_dist <= pruning_table@[#[trigger] queue@[j] as int]
                            && pruning_table@[queue@[j] as int] <= dist_after(curr_dist) by {
                            assert(queue@[j] == q0[j + 1]);
                            assert(pruning_table@[q0[0] as int] <= pruning_table@[q0[j + 1] as int]);
                        }
                        assert forall|j: int, k: int| 0 <= j < k < queue@.len() implies pruning_table@[#[trigger] queue@[j] as int]
                            <= pruning_table@[#[trigger] queue@[k] as int] by {
                            assert(queue@[j] == q0[j + 1] && queue@[k] == q0[k + 1]);
                            assert(pruning_table@[q0[j + 1] as int] <= pruning_table@[q0[k + 1] as int]);
                        }
                    }
                    let curr_class = c / 2187;
                    let curr_co = c % 2187;
                    let mut i: usize = 0;
                    let mut stop = false;
                    while i < 18 && !stop
                        invariant
                            g1_search_tables_ok(sm, csm, com),
                            sm == eo_uds_sym_move@,
                            csm == co_sym_map@,
                            com == co_move@,
                            c < total_states,
                            curr_class == c / 2187,
                            curr_co == c % 2187,
                            0 <= i <= 18,
                            classes == sm.len() / 18,
                            1 <= classes <= 1013760,
                            total_states == classes * 2187,
                            pruning_table@.len() == total_states,
                            pruning_table@[c as int] == curr_dist,
                            curr_dist != 255,
                            pruning_table@[0] == 0,
                            forall|i: int|
                                0 <= i < total_states ==> (#[trigger] pruning_table@[i] == 0 ==> i == 0),
                            visited_count + count_unreached(pruning_table@) == total_states,
                            1 <= visited_count <= total_states,
                            stop ==> visited_count == total_states,
                            forall|j: int| 0 <= j < queue@.len() ==> #[trigger] queue@[j] < total_states,
                            forall|j: int|
                                0 <= j < queue@.len() ==> pruning_table@[#[trigger] queue@[j] as int] != 255,
                            forall|j: int|
                                0 <= j < queue@.len() ==> curr_dist <= pruning_table@[#[trigger] queue@[j] as int]
                                    && pruning_table@[queue@[j] as int] <= dist_after(curr_dist),
                            forall|j: int, k: int|
                                0 <= j < k < queue@.len() ==> pruning_table@[#[trigger] queue@[j] as int]
                                    <= pruning_table@[#[trigger] queue@[k] as int],
                            forall|k: int|
                                0 <= k < pruning_table@.len() && pruning_table@[k] != 255 ==> #[trigger] pruning_table@[k]
                                    <= dist_after(curr_dist),
                            forall|k: int|
                                0 <= k < total_states && k != c ==> #[trigger] g1_settled(
                                    sm,
                                    csm,
                                    com,
                                    pruning_table@,
                                    queue@,
                                    k,
                                ),
                            forall|k: int|
                                0 <= k < total_states ==> #[trigger] g1_pair_known(
                                    sm,
                                    csm,
                                    com,
                                    pruning_table@,
                                    k,
                                ),
                            forall|mm: int|
                                0 <= mm < i ==> #[trigger] pruning_table@[g1_pair_step(sm, csm, com, c as int, mm)]
                                    != 255 && pruning_table@[g1_pair_step(sm, csm, com, c as int, mm)] <= dist_after(
                                    curr_dist,
                                ),
                            queue@.len() >= len_at_pop,
                            visited_count - visited_at_pop == queue@.len() - len_at_pop,
                        decreases 18 - i,
                    {
                        proof {
                            lemma_g1_step_range(sm, csm, com, c as int, i as int);
                        }
                        let packed_move = eo_uds_sym_move[curr_class * 18 + i];
                        proof {
                            lemma_unpack(packed_move);
                        }
                        let next_class = packed_move >> 4;
                        let sym = (packed_move & 0xf) as usize;
                        if total_states == visited_count {
                            proof {
                                lemma_count_none(pruning_table@);
                                assert(pruning_table@[g1_pair_step(sm, csm, com, c as int, i as int)] != 255);
                                assert(pruning_table@[g1_pair_step(sm, csm, com, c as int, i as int)] <= dist_after(curr_dist));
                            }
                            stop = true;
                        } else {
                            let raw_next_co = co_move[curr_co * 18 + i] as usize;
                            let next_co = co_sym_map[raw_next_co * 16 + sym];
                            let next_idx = (next_class as usize) * 2187 + (next_co as usize);
                            proof {
                                assert(next_idx == g1_pair_step(sm, csm, com, c as int, i as int));
                            }
                            if pruning_table[next_idx] == 255 {
                                let ghost before = pruning_table@;
                                let ghost qb = queue@;
                                let nd = next_distance(curr_dist);
                                pruning_table.set(next_idx, nd);
                                queue.push_back(next_idx);
                                visited_count = visited_count + 1;
                                proof {
                                    lemma_count_fill(before, next_idx as int, nd);
                                    assert(nd == dist_after(curr_dist));
                                    assert forall|j: int| 0 <= j < queue@.len() implies curr_dist <= pruning_table@[#[trigger] queue@[j] as int]
                                        && pruning_table@[queue@[j] as int] <= dist_after(curr_dist) by {
                                        if j < qb.len() {
                                            assert(queue@[j] == qb[j]);
                                        }
                                    }
                                    assert forall|j: int, k: int| 0 <= j < k < queue@.len() implies pruning_table@[#[trigger] queue@[j] as int]
                                        <= pruning_table@[#[trigger] queue@[k] as int] by {
                                        assert(queue@[j] == qb[j]);
                                        if k < qb.len() {
                                            assert(queue@[k] == qb[k]);
                                        }
                                    }
                                    assert forall|k: int| 0 <= k < pruning_table@.len() && pruning_table@[k] != 255 implies #[trigger] pruning_table@[k]
                                        <= dist_after(curr_dist) by {
                                        if k != next_idx {
                                            assert(before[k] == pruning_table@[k]);
                                        }
                                    }
                                    assert(g1_pair_known(sm, csm, com, before, c as int));
                                    let p = choose|p: Seq<int>| #[trigger] g1_pair_witness(sm, csm, com, c as int, curr_dist as int, p);
                                    let p2 = p.push(i as int);
                                    assert(p2.drop_last() =~= p);
                                    assert(g1_moves_ok(p2)) by {
                                        assert forall|k: int| 0 <= k < p2.len() implies 0 <= #[trigger] p2[k] < 18 by {
                                            if k < p.len() {
                                                assert(p2[k] == p[k]);
                                            }
                                        }
                                    }
                                    assert(g1_pair_witness(sm, csm, com, next_idx as int, nd as int, p2));
                                    assert forall|k: int| 0 <= k < total_states implies #[trigger] g1_pair_known(
                                        sm,
                                        csm,
                                        com,
                                        pruning_table@,
                                        k,
                                    ) by {
                                        if k != next_idx {
                                            assert(g1_pair_known(sm, csm, com, before, k));
                                        }
                                    }
                                    assert forall|k: int| 0 <= k < total_states && k != c implies #[trigger] g1_settled(
                                        sm,
                                        csm,
                                        com,
                                        pruning_table@,
                                        queue@,
                                        k,
                                    ) by {
                                        if k == next_idx {
                                            assert(queue@[queue@.len() - 1] == next_idx);
                                        } else {
                                            assert(g1_settled(sm, csm, com, before, qb, k));
                                            if qb.contains(k as usize) {
                                                let kk = choose|kk: int| 0 <= kk < qb.len() && qb[kk] == k as usize;
                                                assert(queue@[kk] == qb[kk]);
                                            }
                                            if g1_pair_closed(sm, csm, com, before, k) {
                                                assert forall|mm: int| 0 <= mm < 18 implies #[trigger] pruning_table@[g1_pair_step(sm, csm, com, k, mm)] != 255
                                                    && pruning_table@[g1_pair_step(sm, csm, com, k, mm)] <= dist_after(pruning_table@[k]) by {
                                                    assert(before[g1_pair_step(sm, csm, com, k, mm)] != 255);
                                                }
                                            }
                                        }
                                    }
                                    assert forall|j: int| 0 <= j < queue@.len() implies pruning_table@[#[trigger] queue@[j] as int] != 255 by {
                                        if j < qb.len() {
                                            assert(queue@[j] == qb[j]);
                                        }
                                    }
                                    assert forall|j: int| 0 <= j < queue@.len() implies #[trigger] queue@[j] < total_states by {
                                        if j < qb.len() {
                                            assert(queue@[j] == qb[j]);
                                        }
                                    }
                                    assert forall|mm: int| 0 <= mm <= i implies #[trigger] pruning_table@[g1_pair_step(sm, csm, com, c as int, mm)] != 255
                                        && pruning_table@[g1_pair_step(sm, csm, com, c as int, mm)] <= dist_after(curr_dist) by {
                                        if mm < i {
                                            assert(before[g1_pair_step(sm, csm, com, c as int, mm)] != 255);
                                        }
                                    }
                                }
                                if total_states == visited_count {
                                    stop = true;
                                }
                            }
                        }
                        i = i + 1;
                    }
                    proof {
                        if !stop {
                            assert(g1_pair_closed(sm, csm, com, pruning_table@, c as int));
                            assert(g1_settled(sm, csm, com, pruning_table@, queue@, c as int));
                        } else {
                            lemma_count_none(pruning_table@);
                            lemma_g1_step_range(sm, csm, com, c as int, 0);
                            assert forall|mm: int| 0 <= mm < 18 implies #[trigger] pruning_table@[g1_pair_step(sm, csm, com, c as int, mm)] != 255
                                && pruning_table@[g1_pair_step(sm, csm, com, c as int, mm)] <= dist_after(pruning_table@[c as int]) by {
                                lemma_g1_step_range(sm, csm, com, c as int, mm);
                            }
                            assert(g1_settled(sm, csm, com, pruning_table@, queue@, c as int));
                        }
                        if queue@.len() > 0 {
                            assert(curr_dist <= pruning_table@[queue@[0] as int]);
                            assert forall|k: int| 0 <= k < pruning_table@.len() && pruning_table@[k] != 255 implies #[trigger] pruning_table@[k]
                                <= dist_after(pruning_table@[queue@[0] as int]) by {
                                assert(pruning_table@[k] <= dist_after(curr_dist));
                            }
                        }
                    }
                },
            }
        }
    }
    proof {
        if visited_count == total_states {
            lemma_count_none(pruning_table@);
        }
        assert forall|k: int| 0 <= k < total_states && pruning_table@[k] != 255 implies #[trigger] g1_pair_closed(
            sm,
            csm,
            com,
            pruning_table@,
            k,
        ) by {
            assert(g1_settled(sm, csm, com, pruning_table@, queue@, k));
            if visited_count == total_states && !g1_pair_closed(sm, csm, com, pruning_table@, k) {
                assert(queue@.contains(k as usize));
                let j = choose|j: int| 0 <= j < queue@.len() && queue@[j] == k as usize;
                assert(pruning_table@[queue@[0] as int] <= pruning_table@[queue@[j] as int]) by {
                    if j > 0 {
                        assert(pruning_table@[queue@[0] as int] <= pruning_table@[queue@[j] as int]);
                    }
                }
                assert forall|mm: int| 0 <= mm < 18 implies #[trigger] pruning_table@[g1_pair_step(sm, csm, com, k, mm)] != 255
                    && pruning_table@[g1_pair_step(sm, csm, com, k, mm)] <= dist_after(pruning_table@[k]) by {
                    lemma_g1_step_range(sm, csm, com, k, mm);
                    let nb = g1_pair_step(sm, csm, com, k, mm);
                    assert(pruning_table@[nb] <= dist_after(pruning_table@[queue@[0] as int]));
                }
            }
        }
        assert forall|path: Seq<int>| g1_moves_ok(path) implies no_shorter(
            pruning_table@,
            #[trigger] g1_pair_run(sm, csm, com, path),
            path,
        ) by {
            lemma_g1_reach_closed(sm, csm, com, pruning_table@, path);
        }
        assert forall|k: int| 0 <= k < total_states implies (#[trigger] pruning_table@[k] == 255
            <==> !g1_pair_reachable(sm, csm, com, k)) by {
            if g1_pair_reachable(sm, csm, com, k) {
                let p = choose|p: Seq<int>| #[trigger] g1_moves_ok(p) && g1_pair_run(sm, csm, com, p) == k;
                lemma_g1_reach_closed(sm, csm, com, pruning_table@, p);
            }
            if pruning_table@[k] != 255 {
                assert(g1_pair_known(sm, csm, com, pruning_table@, k));
                let p = choose|p: Seq<int>| #[trigger] g1_pair_witness(sm, csm, com, k, pruning_table@[k] as int, p);
                assert(g1_moves_ok(p) && g1_pair_run(sm, csm, com, p) == k);
            }
        }
    }
    G1GenTables { eo_move, co_move, uds_move, eo_co_uds_table: pruning_table }
}

} // verus!
