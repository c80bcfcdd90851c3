//! Coordinates of the cube for Kociemba's two-phase algorithm, and the cubes
//! built back from them.

use vstd::prelude::*;
use crate::bitboard::{slot, high, pack_slots, scatter_slots, lemma_slot_bound, lemma_high8_of_zero_slots};
use crate::combinatorics::{
    powi, radix_value, radix_digit, lemma_radix_digits, lemma_radix_ext, lemma_radix_bound,
    lemma_radix_loose_bound, lemma_powi_pos, lehmer_value, lehmer_rank, lemma_fact_12, fact,
    pick, fact_digits, iota, iota_vec, lehmer_unrank, lemma_unrank_roundtrip, increasing, binom,
    lemma_binom_basics, n_cr, pow2_int, lemma_pow2_mono,
};
use crate::cube::{Cube, CubeState, state_of, solved_state, apply_moves, lemma_solved_view, CORNERS_SOLVED, EDGES_SOLVED, oris_ok};
use crate::moves::{Scramble, SingleMove, is_clean, built_from_draws, draws_ok};

verus! {

/// A cube seen through the coordinates of Kociemba's algorithm.
#[derive(Clone, Copy)]
pub struct KociembaCube(pub Cube);

/// Edge orientation coordinate: the orientation bits of edges 0 to 10, edge `i`
/// weighing `2^i`.
pub open spec fn eo_coord(s: CubeState) -> int {
    radix_value(|k: int| (s.edges[k] / 16) as int, 2, 11)
}

/// Corner orientation coordinate: the orientations of corners 6 down to 0 in base 3,
/// corner `6 - k` weighing `3^k`.
pub open spec fn co_coord(s: CubeState) -> int {
    radix_value(|k: int| (s.corners[6 - k] / 8) as int, 3, 7)
}

/// The corners whose orientation counts with 1 and 2 swapped in the orientation total.
pub open spec fn swapped_corner(i: int) -> bool {
    i == 1 || i == 3 || i == 4 || i == 6
}

pub open spec fn corner_twist_value(i: int, o: int) -> int {
    if swapped_corner(i) && o == 1 {
        2
    } else if swapped_corner(i) && o == 2 {
        1
    } else {
        o
    }
}

/// The twist total of corners `i .. 7` when corner `j` has orientation digit `6 - j` of `co`.
pub open spec fn co_twist_total(co: int, i: int) -> int
    decreases 7 - i,
{
    if i >= 7 || i < 0 {
        0
    } else {
        corner_twist_value(i, radix_digit(co, 3, 6 - i)) + co_twist_total(co, i + 1)
    }
}

/// How many of the first `m` bits of `x` are set.
pub open spec fn bit_total(x: int, m: int) -> int
    decreases m,
{
    if m <= 0 {
        0
    } else {
        bit_total(x, m - 1) + radix_digit(x, 2, m - 1)
    }
}

proof fn lemma_slot_parts(v: u64)
    by (bit_vector)
    requires
        v < 32,
    ensures
        v >> 4 == v / 16,
        v >> 3 == v / 8,
        (v >> 4) <= 1,
        (v >> 3) <= 3,
{
}

impl KociembaCube {
    /// The solved cube.
    pub fn new() -> (k: KociembaCube)
        ensures
            k.0@ == solved_state(),
    {
        KociembaCube(Cube::new())
    }

    /// A cube scrambled at random (see `Cube::new_random`).
    pub fn new_random(size: usize) -> (k: KociembaCube)
        ensures
            exists|ms: Seq<SingleMove>|
                #![trigger apply_moves(solved_state(), ms)]
                is_clean(ms) && ms.len() == (if size == 0 {
                    25
                } else {
                    size
                }) && k.0@ == apply_moves(solved_state(), ms) && exists|draws: Seq<(int, int)>|
                    #![trigger built_from_draws(draws)]
                    draws_ok(draws) && ms == built_from_draws(draws),
    {
        KociembaCube(Cube::new_random(size))
    }

    /// The solved cube with a scramble applied.
    pub fn new_with(move_list: &Scramble) -> (k: KociembaCube)
        ensures
            k.0@ == apply_moves(solved_state(), move_list.move_list@),
    {
        KociembaCube(Cube::new_with(move_list))
    }

    /// The cube of a minimal representation.
    pub fn new_from_minimal(representation: u128) -> (k: KociembaCube)
        ensures
            k.0.edges == representation / 0x1_0000_0000_0000_0000u128,
            k.0.corners == representation % 0x1_0000_0000_0000_0000u128,
    {
        KociembaCube(Cube::new_from_minimal(representation))
    }

    /// The edge orientation coordinate (0 to 2047).
    pub fn get_eo_coord(&self) -> (r: u16)
        ensures
            r == eo_coord(self.0@),
            r < 2048,
    {
        let ghost s = self.0@;
        let ghost f = |k: int| (s.edges[k] / 16) as int;
        let mut coord: u16 = 0;
        let mut w: u16 = 1;
        let mut i: u64 = 0;
        while i < 11
            invariant
                i <= 11,
                s == self.0@,
                f == (|k: int| (s.edges[k] / 16) as int),
                coord == radix_value(f, 2, i as int),
                w == powi(2, i as int),
                coord < w,
            decreases 11 - i,
        {
            let v = (self.0.edges >> (i * 5)) & 0x1f;
            proof {
                lemma_slot_bound(self.0.edges, i);
                lemma_slot_parts(v);
                assert(s.edges[i as int] == v);
                assert(f(i as int) == v / 16);
            }
            let ori = (v >> 4) as u16;
            proof {
                assert(powi(2, i + 1) == 2 * powi(2, i as int));
                assert(powi(2, 10) == 1024) by {
                    reveal_with_fuel(powi, 11);
                }
                lemma_powi_mono2(i as int, 10);
                assert(ori * w <= w) by (nonlinear_arith)
                    requires
                        ori <= 1,
                ;
                assert(ori * w == f(i as int) * powi(2, i as int));
            }
            coord = coord + ori * w;
            w = w * 2;
            i = i + 1;
        }
        proof {
            assert(powi(2, 11) == 2 * powi(2, 10));
            assert(powi(2, 10) == 1024) by {
                reveal_with_fuel(powi, 11);
            }
        }
        coord
    }

    /// The corner orientation coordinate (0 to 2186 for corners with orientations
    /// 0, 1 and 2).
    pub fn get_co_coord(&self) -> (r: u16)
        ensures
            r == co_coord(self.0@),
    {
        let ghost s = self.0@;
        let ghost f = |k: int| (s.corners[6 - k] / 8) as int;
        let mut coord: u16 = 0;
        let mut multiplier: u16 = 1;
        let mut i: u64 = 7;
        proof {
            assert forall|k: int| 0 <= k < 7 implies 0 <= #[trigger] f(k) <= 3 by {
                lemma_slot_bound(self.0.corners, (6 - k) as u64);
                assert(s.corners[6 - k] == slot(self.0.corners, (6 - k) as u64));
            }
            assert(powi(3, 7) == 2187) by {
                reveal_with_fuel(powi, 8);
            }
        }
        while i > 0
            invariant
                i <= 7,
                s == self.0@,
                f == (|k: int| (s.corners[6 - k] / 8) as int),
                forall|k: int| 0 <= k < 7 ==> 0 <= #[trigger] f(k) <= 3,
                coord == radix_value(f, 3, 7 - i),
                multiplier == powi(3, 7 - i),
                powi(3, 7) == 2187,
            decreases i,
        {
            i = i - 1;
            let v = (self.0.corners >> (i * 5)) & 0x1f;
            proof {
                lemma_slot_bound(self.0.corners, i);
                lemma_slot_parts(v);
                assert(s.corners[i as int] == v);
                assert(f(6 - i) == v / 8);
                lemma_radix_loose_bound(f, 3, 3, 7 - i);
                lemma_powi_mono3(7 - i, 7);
                assert(powi(3, 7 - i) == 3 * powi(3, 6 - i));
                assert((v / 8) * powi(3, 6 - i) == f(6 - i) * powi(3, 6 - i));
            }
            let ori = (v >> 3) as u16;
            coord = coord + ori * multiplier;
            multiplier = multiplier * 3;
        }
        coord
    }
}

proof fn lemma_powi_mono2(a: int, b: int)
    requires
        0 <= a <= b,
    ensures
        powi(2, a) <= powi(2, b),
    decreases b,
{
    lemma_powi_pos(2, a);
    if a < b {
        lemma_powi_mono2(a, b - 1);
        lemma_powi_pos(2, b - 1);
    }
}

proof fn lemma_powi_mono3(a: int, b: int)
    requires
        0 <= a <= b,
    ensures
        powi(3, a) <= powi(3, b),
    decreases b,
{
    lemma_powi_pos(3, a);
    if a < b {
        lemma_powi_mono3(a, b - 1);
        lemma_powi_pos(3, b - 1);
    }
}

} // verus!

verus! {

/// The cube `from_eo` builds: edge `i < 11` in its own slot with orientation bit `i`
/// of `eo`, edge 11 oriented so that the number of flipped edges is even, and all
/// corners solved.
pub open spec fn from_eo_state(eo: int) -> CubeState {
    CubeState {
        edges: Seq::new(
            12,
            |i: int|
                if i < 11 {
                    (radix_digit(eo, 2, i) * 16 + i) as u64
                } else {
                    ((bit_total(eo, 11) % 2) * 16 + 11) as u64
                },
        ),
        edge_high: 0,
        corners: solved_state().corners,
        corner_high: 0,
    }
}

/// The cube `from_co` builds: corner `i < 7` in its own slot with base-3 digit
/// `6 - i` of `co` as orientation, corner 7 oriented so that the twist total is a
/// multiple of 3, and all edges solved.
pub open spec fn from_co_state(co: int) -> CubeState {
    CubeState {
        edges: solved_state().edges,
        edge_high: 0,
        corners: Seq::new(
            8,
            |i: int|
                if i < 7 {
                    (radix_digit(co, 3, 6 - i) * 8 + i) as u64
                } else {
                    (((3 - (co_twist_total(co, 0) % 3)) % 3) * 8 + 7) as u64
                },
        ),
        corner_high: 0,
    }
}

proof fn lemma_digit_ranges(x: int, k: int)
    requires
        x >= 0,
    ensures
        0 <= radix_digit(x, 2, k) < 2,
        0 <= radix_digit(x, 3, k) < 3,
{
}

pub proof fn lemma_bit_total_bound(x: int, m: int)
    requires
        x >= 0,
        m >= 0,
    ensures
        0 <= bit_total(x, m) <= m,
    decreases m,
{
    if m > 0 {
        lemma_bit_total_bound(x, m - 1);
        lemma_digit_ranges(x, m - 1);
    }
}

pub proof fn lemma_co_twist_total_bound(co: int, i: int)
    requires
        co >= 0,
        0 <= i <= 7,
    ensures
        0 <= co_twist_total(co, i) <= 2 * (7 - i),
    decreases 7 - i,
{
    if i < 7 {
        lemma_co_twist_total_bound(co, i + 1);
        lemma_digit_ranges(co, 6 - i);
    }
}

impl KociembaCube {
    /// The cube with edge orientation coordinate `eo` (0 to 2047): see `from_eo_state`.
    pub fn from_eo(eo: u16) -> (k: KociembaCube)
        ensures
            k.0@ == from_eo_state(eo as int),
    {
        let mut vals: Vec<u64> = Vec::new();
        let mut parity: u64 = 0;
        let mut w: u16 = 1;
        let mut i: u64 = 0;
        while i < 11
            invariant
                i <= 11,
                vals@.len() == i,
                w == powi(2, i as int),
                parity == bit_total(eo as int, i as int) % 2,
                forall|k: int|
                    0 <= k < i ==> #[trigger] vals@[k] == (radix_digit(eo as int, 2, k) * 16 + k) as u64,
            decreases 11 - i,
        {
            proof {
                assert(powi(2, 10) == 1024) by {
                    reveal_with_fuel(powi, 11);
                }
                lemma_powi_mono2(i as int, 10);
                lemma_powi_pos(2, i as int);
                lemma_digit_ranges(eo as int, i as int);
            }
            let ori = ((eo / w) % 2) as u64;
            parity = (parity + ori) % 2;
            vals.push(ori * 16 + i);
            w = w * 2;
            i = i + 1;
        }
        vals.push(parity * 16 + 11);
        let edges = pack_slots(&vals);
        let k = KociembaCube(Cube { edges, corners: CORNERS_SOLVED });
        proof {
            lemma_solved_view();
            let t = from_eo_state(eo as int);
            assert forall|j: int| 0 <= j < 12 implies k.0@.edges[j] == t.edges[j] by {
                assert(k.0@.edges[j] == slot(edges, j as u64));
            }
            assert(k.0@.edges =~= t.edges);
            assert(k.0@.corners =~= t.corners);
        }
        k
    }

    /// The cube with corner orientation coordinate `co` (0 to 2186): see `from_co_state`.
    pub fn from_co(co: u16) -> (k: KociembaCube)
        ensures
            k.0@ == from_co_state(co as int),
    {
        let mut vals: Vec<u64> = Vec::new();
        let mut temp_co = co;
        let mut sum_ori: u64 = 0;
        let mut i: u64 = 7;
        proof {
            assert(co as int / powi(3, 0) == co);
        }
        while i > 0
            invariant
                i <= 7,
                vals@.len() == 7 - i,
                temp_co == co as int / powi(3, 7 - i),
                sum_ori == co_twist_total(co as int, i as int),
                forall|k: int|
                    0 <= k < 7 - i ==> #[trigger] vals@[k] == (radix_digit(co as int, 3, k) * 8 + (6
                        - k)) as u64,
            decreases i,
        {
            i = i - 1;
            proof {
                lemma_powi_pos(3, 6 - i);
                lemma_digit_ranges(co as int, 6 - i);
                lemma_co_twist_total_bound(co as int, i + 1);
                vstd::arithmetic::div_mod::lemma_div_denominator(co as int, powi(3, 6 - i), 3);
                assert(powi(3, 7 - i) == 3 * powi(3, 6 - i));
                assert(powi(3, 6 - i) * 3 == 3 * powi(3, 6 - i)) by (nonlinear_arith);
            }
            let ori = (temp_co % 3) as u64;
            temp_co = temp_co / 3;
            let real_ori = if i == 1 || i == 3 || i == 4 || i == 6 {
                if ori == 1 {
                    2
                } else if ori == 2 {
                    1
                } else {
                    ori
                }
            } else {
                ori
            };
            sum_ori = sum_ori + real_ori;
            vals.push(ori * 8 + i);
        }
        // vals holds corners 6, 5, ..., 0; put them in slot order
        let mut slots: Vec<u64> = Vec::new();
        let mut j: usize = 0;
        while j < 7
            invariant
                j <= 7,
                vals@.len() == 7,
                slots@.len() == j,
                forall|k: int|
                    0 <= k < 7 ==> #[trigger] vals@[k] == (radix_digit(co as int, 3, k) * 8 + (6
                        - k)) as u64,
                forall|k: int|
                    0 <= k < j ==> #[trigger] slots@[k] == (radix_digit(co as int, 3, 6 - k) * 8 + k) as u64,
            decreases 7 - j,
        {
            slots.push(vals[6 - j]);
            j = j + 1;
        }
        proof {
            lemma_co_twist_total_bound(co as int, 0);
        }
        let last_ori = (3 - (sum_ori % 3)) % 3;
        slots.push(last_ori * 8 + 7);
        proof {
            assert forall|k: int| 0 <= k < 8 implies #[trigger] slots@[k] < 32 by {
                if k < 7 {
                    lemma_digit_ranges(co as int, 6 - k);
                }
            }
        }
        let corners = pack_slots(&slots);
        let k = KociembaCube(Cube { edges: EDGES_SOLVED, corners });
        proof {
            lemma_solved_view();
            let t = from_co_state(co as int);
            assert forall|j: int| 0 <= j < 8 implies k.0@.corners[j] == t.corners[j] by {
                assert(k.0@.corners[j] == slot(corners, j as u64));
            }
            assert(k.0@.corners =~= t.corners);
            assert(k.0@.edges =~= t.edges);
        }
        k
    }
}

/// Reading the edge orientation coordinate of the cube built from it gives it back
/// (modulo 2048).
pub proof fn lemma_eo_roundtrip(eo: int)
    requires
        eo >= 0,
    ensures
        eo_coord(from_eo_state(eo)) == eo % 2048,
{
    let s = from_eo_state(eo);
    let f = |k: int| (s.edges[k] / 16) as int;
    let g = |k: int| radix_digit(eo, 2, k);
    assert forall|k: int| 0 <= k < 11 implies #[trigger] f(k) == g(k) by {
        lemma_digit_ranges(eo, k);
    }
    lemma_radix_ext(f, g, 2, 11);
    lemma_radix_digits(eo, 2, 11);
    assert(powi(2, 11) == 2048) by {
        reveal_with_fuel(powi, 12);
    }
}

/// Reading the corner orientation coordinate of the cube built from it gives it back
/// (modulo 2187).
pub proof fn lemma_co_roundtrip(co: int)
    requires
        co >= 0,
    ensures
        co_coord(from_co_state(co)) == co % 2187,
{
    let s = from_co_state(co);
    let f = |k: int| (s.corners[6 - k] / 8) as int;
    let g = |k: int| radix_digit(co, 3, k);
    assert forall|k: int| 0 <= k < 7 implies #[trigger] f(k) == g(k) by {
        lemma_digit_ranges(co, k);
    }
    lemma_radix_ext(f, g, 3, 7);
    lemma_radix_digits(co, 3, 7);
    assert(powi(3, 7) == 2187) by {
        reveal_with_fuel(powi, 8);
    }
}

} // verus!

verus! {

/// The piece ids of the corner slots.
pub open spec fn corner_ids(s: CubeState) -> Seq<u64> {
    Seq::new(8, |i: int| s.corners[i] % 8)
}

/// The piece ids of the edge slots.
pub open spec fn edge_ids(s: CubeState) -> Seq<u64> {
    Seq::new(12, |i: int| s.edges[i] % 16)
}

/// Corner permutation coordinate: the Lehmer code of the corner ids.
pub open spec fn cp_coord(s: CubeState) -> int {
    lehmer_value(corner_ids(s), 7)
}

/// Edge permutation coordinate: the Lehmer code of the twelve edge ids.
pub open spec fn ep_coord(s: CubeState) -> int {
    lehmer_value(edge_ids(s), 11)
}

/// The ids among the first `m` of `ids` that lie in `lo .. hi`, in order, less `lo`.
pub open spec fn ids_between(ids: Seq<u64>, m: int, lo: u64, hi: u64) -> Seq<u64>
    decreases m,
{
    if m <= 0 {
        seq![]
    } else if lo <= ids[m - 1] < hi {
        ids_between(ids, m - 1, lo, hi).push((ids[m - 1] - lo) as u64)
    } else {
        ids_between(ids, m - 1, lo, hi)
    }
}

/// `s` followed by zeros up to length `n`.
pub open spec fn pad_zeros(s: Seq<u64>, n: int) -> Seq<u64> {
    s + Seq::new((n - s.len()) as nat, |i: int| 0u64)
}

/// The ids of the eight edges outside the middle slice (ids 0 to 7), in slot order.
pub open spec fn outer_edges(s: CubeState) -> Seq<u64> {
    ids_between(edge_ids(s), 12, 0, 8)
}

/// The ids of the four middle-slice edges (ids 8 to 15), less 8, in slot order.
pub open spec fn slice_edges(s: CubeState) -> Seq<u64> {
    ids_between(edge_ids(s), 12, 8, 16)
}

/// Permutation coordinate of the outer edges.
pub open spec fn ep_no_uds_coord(s: CubeState) -> int {
    lehmer_value(pad_zeros(outer_edges(s), 8), 7)
}

/// Permutation coordinate of the middle-slice edges.
pub open spec fn ep_uds_coord(s: CubeState) -> int {
    lehmer_value(pad_zeros(slice_edges(s), 4), 3)
}

proof fn lemma_id_bits(v: u64)
    by (bit_vector)
    requires
        v < 32,
    ensures
        v & 0x0f == v % 16,
        v & 0x07 == v % 8,
{
}

proof fn lemma_ids_between_len(ids: Seq<u64>, m: int, lo: u64, hi: u64)
    requires
        m >= 0,
    ensures
        ids_between(ids, m, lo, hi).len() <= m,
    decreases m,
{
    if m > 0 {
        lemma_ids_between_len(ids, m - 1, lo, hi);
    }
}

/// The ids in `lo .. hi` of the edge slots, less `lo`, padded with zeros to `n` entries.
fn collect_ids(edges: u64, lo: u64, hi: u64, n: usize) -> (perm: Vec<u64>)
    requires
        lo <= hi <= 16,
        n <= 12,
        ids_between(edge_ids(state_of(edges, 0)), 12, lo, hi).len() <= n,
    ensures
        perm@ == pad_zeros(ids_between(edge_ids(state_of(edges, 0)), 12, lo, hi), n as int),
{
    let ghost ids = edge_ids(state_of(edges, 0));
    let mut perm: Vec<u64> = Vec::new();
    let mut i: u64 = 0;
    while i < 12
        invariant
            i <= 12,
            lo <= hi <= 16,
            ids == edge_ids(state_of(edges, 0)),
            perm@ == ids_between(ids, i as int, lo, hi),
            ids_between(ids, 12, lo, hi).len() <= n,
        decreases 12 - i,
    {
        let v = (edges >> (i * 5)) & 0x1f;
        proof {
            lemma_slot_bound(edges, i);
            lemma_id_bits(v);
            assert(ids[i as int] == v % 16);
        }
        let id = v & 0x0f;
        if lo <= id && id < hi {
            perm.push(id - lo);
        }
        i = i + 1;
    }
    let ghost found = perm@;
    while perm.len() < n
        invariant
            perm@.len() <= n,
            found.len() <= perm@.len(),
            perm@ == found + Seq::new((perm@.len() - found.len()) as nat, |i: int| 0u64),
        decreases n - perm@.len(),
    {
        let ghost before = perm@;
        perm.push(0);
        proof {
            assert(perm@ =~= found + Seq::new((perm@.len() - found.len()) as nat, |i: int| 0u64));
        }
    }
    proof {
        lemma_ids_between_len(ids, 12, lo, hi);
    }
    perm
}

impl KociembaCube {
    /// The full edge permutation coordinate (0 to 12! - 1).
    pub fn get_ep_coord(&self) -> (r: u32)
        ensures
            r == ep_coord(self.0@),
    {
        let mut ids: Vec<u64> = Vec::new();
        let mut i: u64 = 0;
        while i < 12
            invariant
                i <= 12,
                ids@ == edge_ids(self.0@).take(i as int),
            decreases 12 - i,
        {
            let v = (self.0.edges >> (i * 5)) & 0x1f;
            proof {
                lemma_slot_bound(self.0.edges, i);
                lemma_id_bits(v);
                assert(edge_ids(self.0@)[i as int] == v % 16);
            }
            ids.push(v & 0x0f);
            proof {
                assert(ids@ =~= edge_ids(self.0@).take(i + 1));
            }
            i = i + 1;
        }
        proof {
            assert(ids@ =~= edge_ids(self.0@));
        }
        lehmer_rank(&ids)
    }

    /// The corner permutation coordinate (0 to 40319).
    pub fn get_cp_coord(&self) -> (r: u16)
        ensures
            r == cp_coord(self.0@),
            r < 40320,
    {
        let mut ids: Vec<u64> = Vec::new();
        let mut i: u64 = 0;
        while i < 8
            invariant
                i <= 8,
                ids@ == corner_ids(self.0@).take(i as int),
            decreases 8 - i,
        {
            let v = (self.0.corners >> (i * 5)) & 0x1f;
            proof {
                lemma_slot_bound(self.0.corners, i);
                lemma_id_bits(v);
                assert(corner_ids(self.0@)[i as int] == v % 8);
            }
            ids.push(v & 0x07);
            proof {
                assert(ids@ =~= corner_ids(self.0@).take(i + 1));
            }
            i = i + 1;
        }
        proof {
            assert(ids@ =~= corner_ids(self.0@));
            lemma_fact_12();
        }
        lehmer_rank(&ids) as u16
    }

    /// The permutation coordinate of the eight outer edges (0 to 40319). A state with
    /// more than eight outer edge ids has no such coordinate (the list of ids would
    /// overrun its eight places), so it is excluded.
    pub fn get_ep_no_uds_coord(&self) -> (r: u16)
        requires
            outer_edges(self.0@).len() <= 8,
        ensures
            r == ep_no_uds_coord(self.0@),
            r < 40320,
    {
        proof {
            assert(state_of(self.0.edges, 0).edges =~= self.0@.edges);
            assert(edge_ids(state_of(self.0.edges, 0)) =~= edge_ids(self.0@));
        }
        let perm = collect_ids(self.0.edges, 0, 8, 8);
        proof {
            lemma_fact_12();
        }
        lehmer_rank(&perm) as u16
    }

    /// The permutation coordinate of the four middle-slice edges (0 to 23). More
    /// than four edges with slice ids are excluded, as for the outer edges.
    pub fn get_ep_uds_coord(&self) -> (r: u16)
        requires
            slice_edges(self.0@).len() <= 4,
        ensures
            r == ep_uds_coord(self.0@),
            r < 24,
    {
        proof {
            assert(state_of(self.0.edges, 0).edges =~= self.0@.edges);
            assert(edge_ids(state_of(self.0.edges, 0)) =~= edge_ids(self.0@));
        }
        let perm = collect_ids(self.0.edges, 8, 16, 4);
        proof {
            lemma_fact_12();
        }
        lehmer_rank(&perm) as u16
    }
}

} // verus!

verus! {

/// The cube `from_cp` builds: corners permuted by the permutation whose Lehmer code
/// is `cp` (modulo 8!), all oriented; edges solved.
pub open spec fn from_cp_state(cp: int) -> CubeState {
    CubeState {
        edges: solved_state().edges,
        edge_high: 0,
        corners: pick(iota(8), fact_digits(cp, 8), 7),
        corner_high: 0,
    }
}

/// The cube `from_ep12` builds: edges permuted by the permutation whose Lehmer code
/// is `ep` (modulo 12!), all oriented; corners solved.
pub open spec fn from_ep12_state(ep: int) -> CubeState {
    CubeState {
        edges: pick(iota(12), fact_digits(ep, 12), 11),
        edge_high: 0,
        corners: solved_state().corners,
        corner_high: 0,
    }
}

/// The cube `from_ep_no_uds` builds: the eight outer edges permuted in slots 0 to 7
/// by the permutation whose Lehmer code is `ep` (modulo 8!), the slice edges home.
pub open spec fn from_ep_no_uds_state(ep: int) -> CubeState {
    CubeState {
        edges: pick(iota(8), fact_digits(ep, 8), 7) + seq![8u64, 9, 10, 11],
        edge_high: 0,
        corners: solved_state().corners,
        corner_high: 0,
    }
}

/// The cube `from_uds_perm` builds: the outer edges home, the four slice edges
/// permuted in slots 8 to 11 by the permutation whose Lehmer code is `p` (modulo 4!).
pub open spec fn from_uds_perm_state(p: int) -> CubeState {
    CubeState {
        edges: iota(8) + pick(iota(4), fact_digits(p, 4), 3).map_values(|x: u64| (x + 8) as u64),
        edge_high: 0,
        corners: solved_state().corners,
        corner_high: 0,
    }
}

pub(crate) proof fn lemma_iota_increasing(n: int)
    requires
        0 <= n <= 12,
    ensures
        increasing(iota(n)),
        forall|k: int| 0 <= k < n ==> #[trigger] iota(n)[k] < n,
{
    assert forall|i: int, j: int| 0 <= i < j < iota(n).len() implies iota(n)[i] < iota(n)[j] by {
        assert(iota(n)[i] == i as u64);
        assert(iota(n)[j] == j as u64);
    }
}

/// Builds the state of a corner bitboard packed from `vals`, with solved edges.
proof fn lemma_packed_state(edges: u64, corners: u64, es: Seq<u64>, cs: Seq<u64>)
    requires
        es.len() == 12,
        cs.len() == 8,
        forall|i: int| 0 <= i < 12 ==> #[trigger] slot(edges, i as u64) == es[i],
        forall|i: int| 0 <= i < 8 ==> #[trigger] slot(corners, i as u64) == cs[i],
    ensures
        state_of(edges, corners).edges == es,
        state_of(edges, corners).corners == cs,
{
    assert(state_of(edges, corners).edges =~= es);
    assert(state_of(edges, corners).corners =~= cs);
}

impl KociembaCube {
    /// The cube with corner permutation coordinate `cp`: see `from_cp_state`.
    pub fn from_cp(cp: u16) -> (k: KociembaCube)
        ensures
            k.0@ == from_cp_state(cp as int),
    {
        let avail = iota_vec(8);
        proof {
            lemma_iota_increasing(8);
            lemma_unrank_roundtrip(cp as int, iota(8), 8);
        }
        let perm = lehmer_unrank(cp as u32, avail);
        let corners = pack_slots(&perm);
        let k = KociembaCube(Cube { edges: EDGES_SOLVED, corners });
        proof {
            lemma_solved_view();
            lemma_packed_state(EDGES_SOLVED, corners, solved_state().edges, perm@);
        }
        k
    }

    /// The cube with full edge permutation coordinate `ep`: see `from_ep12_state`.
    pub fn from_ep12(ep: u32) -> (k: KociembaCube)
        ensures
            k.0@ == from_ep12_state(ep as int),
    {
        let avail = iota_vec(12);
        proof {
            lemma_iota_increasing(12);
            lemma_unrank_roundtrip(ep as int, iota(12), 12);
        }
        let perm = lehmer_unrank(ep, avail);
        let edges = pack_slots(&perm);
        let k = KociembaCube(Cube { edges, corners: CORNERS_SOLVED });
        proof {
            lemma_solved_view();
            lemma_packed_state(edges, CORNERS_SOLVED, perm@, solved_state().corners);
        }
        k
    }

    /// The cube with outer edge permutation coordinate `ep`: see `from_ep_no_uds_state`.
    pub fn from_ep_no_uds(ep: u16) -> (k: KociembaCube)
        ensures
            k.0@ == from_ep_no_uds_state(ep as int),
    {
        let avail = iota_vec(8);
        proof {
            lemma_iota_increasing(8);
            lemma_unrank_roundtrip(ep as int, iota(8), 8);
        }
        let mut vals = lehmer_unrank(ep as u32, avail);
        let ghost p = vals@;
        let mut i: u64 = 8;
        while i < 12
            invariant
                8 <= i <= 12,
                p.len() == 8,
                vals@ == p + Seq::new((i - 8) as nat, |j: int| (j + 8) as u64),
            decreases 12 - i,
        {
            vals.push(i);
            proof {
                assert(vals@ =~= p + Seq::new((i + 1 - 8) as nat, |j: int| (j + 8) as u64));
            }
            i = i + 1;
        }
        proof {
            assert(vals@ =~= from_ep_no_uds_state(ep as int).edges);
        }
        let edges = pack_slots(&vals);
        let k = KociembaCube(Cube { edges, corners: CORNERS_SOLVED });
        proof {
            lemma_solved_view();
            lemma_packed_state(edges, CORNERS_SOLVED, vals@, solved_state().corners);
        }
        k
    }

    /// The cube with slice edge permutation coordinate `uds_perm`: see
    /// `from_uds_perm_state`.
    pub fn from_uds_perm(uds_perm: u16) -> (k: KociembaCube)
        ensures
            k.0@ == from_uds_perm_state(uds_perm as int),
    {
        let avail = iota_vec(4);
        proof {
            lemma_iota_increasing(4);
            lemma_unrank_roundtrip(uds_perm as int, iota(4), 4);
        }
        let perm = lehmer_unrank(uds_perm as u32, avail);
        let mut vals = iota_vec(8);
        let mut i: usize = 0;
        while i < 4
            invariant
                i <= 4,
                perm@.len() == 4,
                forall|j: int| 0 <= j < 4 ==> #[trigger] perm@[j] < 4,
                vals@ == iota(8) + perm@.take(i as int).map_values(|x: u64| (x + 8) as u64),
            decreases 4 - i,
        {
            vals.push(perm[i] + 8);
            proof {
                assert(vals@ =~= iota(8) + perm@.take(i + 1).map_values(|x: u64| (x + 8) as u64));
            }
            i = i + 1;
        }
        proof {
            assert(perm@.take(4) =~= perm@);
            assert(vals@ =~= from_uds_perm_state(uds_perm as int).edges);
        }
        let edges = pack_slots(&vals);
        let k = KociembaCube(Cube { edges, corners: CORNERS_SOLVED });
        proof {
            lemma_solved_view();
            lemma_packed_state(edges, CORNERS_SOLVED, vals@, solved_state().corners);
        }
        k
    }
}

} // verus!

verus! {

/// Reading the corner permutation coordinate of the cube built from it gives it back
/// (modulo 8! = 40320).
pub proof fn lemma_cp_roundtrip(cp: int)
    requires
        cp >= 0,
    ensures
        cp_coord(from_cp_state(cp)) == cp % 40320,
{
    lemma_iota_increasing(8);
    lemma_unrank_roundtrip(cp, iota(8), 8);
    lemma_fact_12();
    let p = pick(iota(8), fact_digits(cp, 8), 7);
    assert(corner_ids(from_cp_state(cp)) =~= p);
}

/// Reading the full edge permutation coordinate of the cube built from it gives it
/// back (modulo 12! = 479001600).
pub proof fn lemma_ep12_roundtrip(ep: int)
    requires
        ep >= 0,
    ensures
        ep_coord(from_ep12_state(ep)) == ep % 479001600,
{
    lemma_iota_increasing(12);
    lemma_unrank_roundtrip(ep, iota(12), 12);
    lemma_fact_12();
    let p = pick(iota(12), fact_digits(ep, 12), 11);
    assert(edge_ids(from_ep12_state(ep)) =~= p);
}

proof fn lemma_ids_between_prefix_in(ids: Seq<u64>, m: int, hi: u64)
    requires
        0 <= m <= ids.len(),
        forall|k: int| 0 <= k < m ==> #[trigger] ids[k] < hi,
    ensures
        ids_between(ids, m, 0, hi) == ids.take(m),
    decreases m,
{
    if m > 0 {
        lemma_ids_between_prefix_in(ids, m - 1, hi);
        assert(ids.take(m - 1).push(ids[m - 1]) =~= ids.take(m));
    } else {
        assert(ids.take(0) =~= Seq::<u64>::empty());
    }
}

proof fn lemma_ids_between_skip(ids: Seq<u64>, m: int, from: int, lo: u64, hi: u64)
    requires
        0 <= from <= m <= ids.len(),
        forall|k: int| from <= k < m ==> !(lo <= #[trigger] ids[k] < hi),
    ensures
        ids_between(ids, m, lo, hi) == ids_between(ids, from, lo, hi),
    decreases m,
{
    if m > from {
        lemma_ids_between_skip(ids, m - 1, from, lo, hi);
    }
}

proof fn lemma_ids_between_slice(ids: Seq<u64>, m: int)
    requires
        8 <= m <= ids.len(),
        forall|k: int| 0 <= k < 8 ==> #[trigger] ids[k] < 8,
        forall|k: int| 8 <= k < m ==> 8 <= #[trigger] ids[k] < 16,
    ensures
        ids_between(ids, m, 8, 16) == ids.subrange(8, m).map_values(|x: u64| (x - 8) as u64),
    decreases m,
{
    if m > 8 {
        lemma_ids_between_slice(ids, m - 1);
        assert(ids.subrange(8, m - 1).map_values(|x: u64| (x - 8) as u64).push(
            (ids[m - 1] - 8) as u64,
        ) =~= ids.subrange(8, m).map_values(|x: u64| (x - 8) as u64));
    } else {
        lemma_ids_between_skip(ids, 8, 0, 8, 16);
        assert(ids.subrange(8, 8).map_values(|x: u64| (x - 8) as u64) =~= Seq::<u64>::empty());
    }
}

/// Reading the outer edge permutation coordinate of the cube built from it gives it
/// back (modulo 8! = 40320).
pub proof fn lemma_ep_no_uds_roundtrip(ep: int)
    requires
        ep >= 0,
    ensures
        outer_edges(from_ep_no_uds_state(ep)).len() <= 8,
        ep_no_uds_coord(from_ep_no_uds_state(ep)) == ep % 40320,
{
    lemma_iota_increasing(8);
    lemma_unrank_roundtrip(ep, iota(8), 8);
    lemma_fact_12();
    let p = pick(iota(8), fact_digits(ep, 8), 7);
    let s = from_ep_no_uds_state(ep);
    let ids = edge_ids(s);
    assert(ids =~= p + seq![8u64, 9, 10, 11]);
    lemma_ids_between_prefix_in(ids, 8, 8);
    lemma_ids_between_skip(ids, 12, 8, 0, 8);
    assert(ids.take(8) =~= p);
    assert(pad_zeros(p, 8) =~= p);
}

/// Reading the slice edge permutation coordinate of the cube built from it gives it
/// back (modulo 4! = 24).
pub proof fn lemma_uds_perm_roundtrip(u: int)
    requires
        u >= 0,
    ensures
        slice_edges(from_uds_perm_state(u)).len() <= 4,
        ep_uds_coord(from_uds_perm_state(u)) == u % 24,
{
    lemma_iota_increasing(4);
    lemma_unrank_roundtrip(u, iota(4), 4);
    lemma_fact_12();
    let p = pick(iota(4), fact_digits(u, 4), 3);
    let s = from_uds_perm_state(u);
    let ids = edge_ids(s);
    assert forall|k: int| 8 <= k < 12 implies 8 <= #[trigger] ids[k] < 16 by {
        assert(ids[k] == (p[k - 8] + 8) as u64);
    }
    lemma_ids_between_slice(ids, 12);
    assert(ids.subrange(8, 12).map_values(|x: u64| (x - 8) as u64) =~= p);
    assert(pad_zeros(p, 4) =~= p);
}

} // verus!

verus! {

/// Which slots hold a middle-slice edge (piece id 8 to 11).
pub open spec fn slice_occupancy(s: CubeState) -> Seq<bool> {
    Seq::new(12, |i: int| 8 <= s.edges[i] % 16 <= 11)
}

/// How many of the first `m` entries are set.
pub open spec fn count_true(occ: Seq<bool>, m: int) -> int
    decreases m,
{
    if m <= 0 {
        0
    } else {
        count_true(occ, m - 1) + if occ[m - 1] {
            1int
        } else {
            0
        }
    }
}

/// The rank of the occupancy of the first `m` slots: each free slot `n` adds
/// C(n, c - 1), with `c` the number of occupied slots below it.
pub open spec fn occupancy_rank(occ: Seq<bool>, m: int) -> int
    decreases m,
{
    if m <= 0 {
        0
    } else {
        occupancy_rank(occ, m - 1) + if occ[m - 1] {
            0
        } else {
            binom(m - 1, count_true(occ, m - 1) - 1)
        }
    }
}

/// The slice coordinate: the rank of the slots that hold slice edges (0 to 494).
pub open spec fn uds_coord(s: CubeState) -> int {
    occupancy_rank(slice_occupancy(s), 12)
}

/// The occupancy of slots `0 ..= n` that ranks `s` with `k` occupied slots, found
/// greedily from the top slot down.
pub open spec fn occupancy_of(s: int, k: int, n: int) -> Seq<bool>
    decreases n + 1,
{
    if n < 0 {
        seq![]
    } else if k <= 0 {
        Seq::new((n + 1) as nat, |i: int| false)
    } else if s >= binom(n, k - 1) {
        occupancy_of(s - binom(n, k - 1), k, n - 1).push(false)
    } else {
        occupancy_of(s, k - 1, n - 1).push(true)
    }
}

/// The piece id `from_uds_ori` puts in slot `i`: the slice edges 8 to 11 in order in
/// the occupied slots, the other edges 0 to 7 in order in the rest.
pub open spec fn occupancy_piece(occ: Seq<bool>, i: int) -> u64 {
    if occ[i] {
        (8 + count_true(occ, i)) as u64
    } else {
        (i - count_true(occ, i)) as u64
    }
}

/// The cube `from_uds_ori` builds: slice edges placed by the slice coordinate `uds`,
/// all edges oriented, corners solved.
pub open spec fn from_uds_state(uds: int) -> CubeState {
    CubeState {
        edges: Seq::new(12, |i: int| occupancy_piece(occupancy_of(uds, 4, 11), i)),
        edge_high: 0,
        corners: solved_state().corners,
        corner_high: 0,
    }
}

/// The cube `from_eo_uds` builds: slice edges placed by `uds`, edge orientations as in
/// `from_eo_state(eo)`, corners solved.
pub open spec fn from_eo_uds_state(eo: int, uds: int) -> CubeState {
    CubeState {
        edges: Seq::new(
            12,
            |i: int|
                (occupancy_piece(occupancy_of(uds, 4, 11), i) + (if i < 11 {
                    radix_digit(eo, 2, i)
                } else {
                    bit_total(eo, 11) % 2
                }) * 16) as u64,
        ),
        edge_high: 0,
        corners: solved_state().corners,
        corner_high: 0,
    }
}

proof fn lemma_count_true_bound(occ: Seq<bool>, m: int)
    requires
        m >= 0,
    ensures
        0 <= count_true(occ, m) <= m,
    decreases m,
{
    if m > 0 {
        lemma_count_true_bound(occ, m - 1);
    }
}

proof fn lemma_count_true_push(occ: Seq<bool>, b: bool, m: int)
    requires
        0 <= m <= occ.len(),
    ensures
        count_true(occ.push(b), m) == count_true(occ, m),
        occupancy_rank(occ.push(b), m) == occupancy_rank(occ, m),
    decreases m,
{
    if m > 0 {
        lemma_count_true_push(occ, b, m - 1);
    }
}

/// The greedy occupancy has `n + 1` slots, `k` of them occupied, and ranks `s`.
proof fn lemma_occupancy_of(s: int, k: int, n: int)
    requires
        n >= -1,
        k >= 0,
        0 <= s < binom(n + 1, k),
    ensures
        occupancy_of(s, k, n).len() == n + 1,
        count_true(occupancy_of(s, k, n), n + 1) == k,
        occupancy_rank(occupancy_of(s, k, n), n + 1) == s,
    decreases n + 1,
{
    let occ = occupancy_of(s, k, n);
    if n < 0 {
        if k > 0 {
            assert(binom(0, k) == 0);
        }
    } else if k == 0 {
        lemma_all_false(n + 1);
    } else if s >= binom(n, k - 1) {
        assert(binom(n + 1, k) == binom(n, k - 1) + binom(n, k));
        lemma_occupancy_of(s - binom(n, k - 1), k, n - 1);
        let prev = occupancy_of(s - binom(n, k - 1), k, n - 1);
        lemma_count_true_push(prev, false, n);
        assert(occ.take(n) =~= prev);
    } else {
        lemma_binom_basics_nonneg(n, k - 1);
        lemma_occupancy_of(s, k - 1, n - 1);
        let prev = occupancy_of(s, k - 1, n - 1);
        lemma_count_true_push(prev, true, n);
    }
}

proof fn lemma_binom_basics_nonneg(n: int, k: int)
    requires
        n >= 0,
    ensures
        binom(n, k) >= 0,
{
    lemma_binom_basics(n, k);
}

proof fn lemma_all_false(m: int)
    requires
        m >= 0,
    ensures
        count_true(Seq::new(m as nat, |i: int| false), m) == 0,
        occupancy_rank(Seq::new(m as nat, |i: int| false), m) == 0,
{
    lemma_all_false_upto(Seq::new(m as nat, |i: int| false), m);
}

proof fn lemma_all_false_upto(occ: Seq<bool>, j: int)
    requires
        0 <= j <= occ.len(),
        forall|i: int| 0 <= i < occ.len() ==> !occ[i],
    ensures
        count_true(occ, j) == 0,
        occupancy_rank(occ, j) == 0,
    decreases j,
{
    if j > 0 {
        lemma_all_false_upto(occ, j - 1);
        assert(binom(j - 1, -1) == 0);
    }
}

} // verus!

verus! {

proof fn lemma_binom_12_4()
    ensures
        binom(12, 4) == 495,
{
    crate::combinatorics::lemma_binom_step(12, 0);
    crate::combinatorics::lemma_binom_step(12, 1);
    crate::combinatorics::lemma_binom_step(12, 2);
    crate::combinatorics::lemma_binom_step(12, 3);
    assert(binom(12, 0) == 1);
}

/// Occupied and free slots only grow along the slots.
proof fn lemma_count_true_mono(occ: Seq<bool>, i: int, j: int)
    requires
        0 <= i <= j,
    ensures
        count_true(occ, i) <= count_true(occ, j),
        i - count_true(occ, i) <= j - count_true(occ, j),
    decreases j,
{
    if j > i {
        lemma_count_true_mono(occ, i, j - 1);
    }
}

/// In the greedy occupancy of `uds < 495` the slice edges get ids 8 to 11 and the
/// others ids 0 to 7.
proof fn lemma_occupancy_pieces(uds: int)
    requires
        0 <= uds < 495,
    ensures
        occupancy_of(uds, 4, 11).len() == 12,
        count_true(occupancy_of(uds, 4, 11), 12) == 4,
        occupancy_rank(occupancy_of(uds, 4, 11), 12) == uds,
        forall|i: int|
            0 <= i < 12 ==> (occupancy_of(uds, 4, 11)[i] ==> 8 <= #[trigger] occupancy_piece(
                occupancy_of(uds, 4, 11),
                i,
            ) <= 11) && (!occupancy_of(uds, 4, 11)[i] ==> occupancy_piece(
                occupancy_of(uds, 4, 11),
                i,
            ) <= 7),
{
    lemma_binom_12_4();
    lemma_occupancy_of(uds, 4, 11);
    let occ = occupancy_of(uds, 4, 11);
    assert forall|i: int| 0 <= i < 12 implies {
        &&& occ[i] ==> 8 <= #[trigger] occupancy_piece(occ, i) <= 11
        &&& !occ[i] ==> occupancy_piece(occ, i) <= 7
    } by {
        lemma_count_true_mono(occ, i + 1, 12);
        lemma_count_true_bound(occ, i);
        lemma_count_true_mono(occ, i, i + 1);
    }
}

/// The slots of the slice edges for a slice coordinate below 495.
fn uds_occupancy(uds: u16) -> (occupied: Vec<bool>)
    requires
        uds < 495,
    ensures
        occupied@ == occupancy_of(uds as int, 4, 11),
{
    let mut occupied: Vec<bool> = Vec::new();
    let mut j: usize = 0;
    while j < 12
        invariant
            j <= 12,
            occupied@ == Seq::new(j as nat, |i: int| false),
        decreases 12 - j,
    {
        occupied.push(false);
        proof {
            assert(occupied@ =~= Seq::new((j + 1) as nat, |i: int| false));
        }
        j = j + 1;
    }
    proof {
        lemma_binom_12_4();
    }
    let mut s: u16 = uds;
    let mut k: i32 = 4;
    let mut n: i32 = 12;
    let ghost target = occupancy_of(uds as int, 4, 11);
    proof {
        assert(occupied@.subrange(12, 12) =~= Seq::<bool>::empty());
        assert(target =~= occupancy_of(s as int, k as int, n - 1) + occupied@.subrange(n as int, 12));
    }
    // Convert the lexicographical index back to slice edge positions, from the top slot down
    while n > 0 && k > 0
        invariant
            0 <= n <= 12,
            0 <= k <= 4,
            occupied@.len() == 12,
            forall|i: int| 0 <= i < n ==> !occupied@[i],
            0 <= s < binom(n as int, k as int),
            target == occupancy_of(s as int, k as int, n - 1) + occupied@.subrange(n as int, 12),
        decreases n,
    {
        n = n - 1;
        proof {
            lemma_binom_basics(n as int, k - 1);
            lemma_pow2_mono(n as int, 11);
            assert(pow2_int(11) == 2048) by {
                reveal_with_fuel(pow2_int, 12);
            }
            assert(binom(n + 1, k as int) == binom(n as int, k - 1) + binom(n as int, k as int));
            lemma_binom_basics(n as int, k as int);
        }
        let ncr = n_cr(n, k - 1) as u16;
        let ghost old_occ = occupied@;
        if s >= ncr {
            s = s - ncr;
            proof {
                assert(occupancy_of((s + ncr) as int, k as int, n as int) == occupancy_of(
                    s as int,
                    k as int,
                    n - 1,
                ).push(false));
                assert(occupied@.subrange(n as int, 12) =~= seq![false] + occupied@.subrange(
                    n + 1,
                    12,
                ));
                assert(target =~= occupancy_of(s as int, k as int, n - 1) + occupied@.subrange(
                    n as int,
                    12,
                ));
            }
        } else {
            occupied.set(n as usize, true);
            k = k - 1;
            proof {
                assert(occupancy_of(s as int, k + 1, n as int) == occupancy_of(
                    s as int,
                    k as int,
                    n - 1,
                ).push(true));
                assert(occupied@.subrange(n as int, 12) =~= seq![true] + old_occ.subrange(n + 1, 12));
                assert(target =~= occupancy_of(s as int, k as int, n - 1) + occupied@.subrange(
                    n as int,
                    12,
                ));
            }
        }
    }
    proof {
        if k > 0 {
            assert(n == 0);
            assert(binom(0, k as int) == 0);
        }
        assert(occupancy_of(s as int, 0, n - 1) =~= occupied@.subrange(0, n as int));
        assert(occupied@ =~= occupied@.subrange(0, n as int) + occupied@.subrange(n as int, 12));
    }
    occupied
}

/// The edge slot values for an occupancy, each with orientation `oris[i]`.
fn occupancy_edges(occupied: &Vec<bool>, oris: &Vec<u64>) -> (edges: u64)
    requires
        occupied@.len() == 12,
        oris@.len() == 12,
        forall|i: int| 0 <= i < 12 ==> #[trigger] oris@[i] <= 1,
        count_true(occupied@, 12) == 4,
    ensures
        forall|i: int|
            0 <= i < 12 ==> #[trigger] slot(edges, i as u64) == occupancy_piece(occupied@, i)
                + oris@[i] * 16,
        high(edges, 12) == 0,
{
    let mut vals: Vec<u64> = Vec::new();
    let mut s_idx: u64 = 0;
    let mut o_idx: u64 = 0;
    let mut i: usize = 0;
    while i < 12
        invariant
            i <= 12,
            occupied@.len() == 12,
            oris@.len() == 12,
            forall|j: int| 0 <= j < 12 ==> #[trigger] oris@[j] <= 1,
            count_true(occupied@, 12) == 4,
            s_idx == count_true(occupied@, i as int),
            o_idx == i - count_true(occupied@, i as int),
            vals@.len() == i,
            forall|j: int|
                0 <= j < i ==> #[trigger] vals@[j] == occupancy_piece(occupied@, j) + oris@[j] * 16,
            forall|j: int| 0 <= j < i ==> #[trigger] vals@[j] < 32,
        decreases 12 - i,
    {
        proof {
            lemma_count_true_mono(occupied@, i + 1, 12);
            lemma_count_true_mono(occupied@, i as int, i + 1);
            lemma_count_true_bound(occupied@, i as int);
        }
        let piece_id = if occupied[i] {
            let id = 8 + s_idx;
            s_idx = s_idx + 1;
            id
        } else {
            let id = o_idx;
            o_idx = o_idx + 1;
            id
        };
        vals.push(oris[i] * 16 + piece_id);
        i = i + 1;
    }
    pack_slots(&vals)
}

impl KociembaCube {
    /// The slice coordinate (0 to 494): the rank of the four slots that hold
    /// middle-slice edges.
    pub fn get_uds_coord(&self) -> (r: u16)
        ensures
            r == uds_coord(self.0@),
    {
        let ghost occ = slice_occupancy(self.0@);
        let mut occupied: Vec<bool> = Vec::new();
        let mut i: u64 = 0;
        while i < 12
            invariant
                i <= 12,
                occ == slice_occupancy(self.0@),
                occupied@ == occ.take(i as int),
            decreases 12 - i,
        {
            let v = (self.0.edges >> (i * 5)) & 0x1f;
            proof {
                lemma_slot_bound(self.0.edges, i);
                lemma_id_bits(v);
                assert(self.0@.edges[i as int] == v);
            }
            let edge_val = v & 0x0f;
            occupied.push(8 <= edge_val && edge_val <= 11);
            proof {
                assert(occupied@ =~= occ.take(i + 1));
            }
            i = i + 1;
        }
        proof {
            assert(occupied@ =~= occ);
            assert(pow2_int(11) == 2048) by {
                reveal_with_fuel(pow2_int, 12);
            }
        }
        let mut s: usize = 0;
        let mut k: i32 = -1;
        let mut n: usize = 0;
        // Lexicographical rank of the slice edge slots among the 12C4 combinations
        while n < 12
            invariant
                n <= 12,
                occupied@ == occ,
                occ.len() == 12,
                k == count_true(occ, n as int) - 1,
                s == occupancy_rank(occ, n as int),
                s <= n * 2048,
                pow2_int(11) == 2048,
            decreases 12 - n,
        {
            proof {
                lemma_count_true_bound(occ, n as int);
            }
            if occupied[n] {
                k = k + 1;
            } else {
                proof {
                    lemma_binom_basics(n as int, k as int);
                    lemma_pow2_mono(n as int, 11);
                }
                s = s + n_cr(n as i32, k);
            }
            n = n + 1;
        }
        s as u16
    }

    /// The cube with slice coordinate `uds`: see `from_uds_state`. Coordinates of
    /// 495 and more leave fewer than four slice slots, where the four slice pieces
    /// cannot all be placed, so they are excluded.
    pub fn from_uds_ori(uds: u16) -> (k: KociembaCube)
        requires
            uds < 495,
        ensures
            k.0@ == from_uds_state(uds as int),
    {
        let occupied = uds_occupancy(uds);
        proof {
            lemma_occupancy_pieces(uds as int);
        }
        let mut oris: Vec<u64> = Vec::new();
        let mut i: usize = 0;
        while i < 12
            invariant
                i <= 12,
                oris@ == Seq::new(i as nat, |j: int| 0u64),
            decreases 12 - i,
        {
            oris.push(0);
            proof {
                assert(oris@ =~= Seq::new((i + 1) as nat, |j: int| 0u64));
            }
            i = i + 1;
        }
        let edges = occupancy_edges(&occupied, &oris);
        let k = KociembaCube(Cube { edges, corners: CORNERS_SOLVED });
        proof {
            lemma_solved_view();
            let t = from_uds_state(uds as int);
            assert forall|j: int| 0 <= j < 12 implies k.0@.edges[j] == t.edges[j] by {
                assert(k.0@.edges[j] == slot(edges, j as u64));
            }
            assert(k.0@.edges =~= t.edges);
        }
        k
    }

    /// The cube with edge orientation coordinate `eo` and slice coordinate `uds`: see
    /// `from_eo_uds_state`. Slice coordinates of 495 and more are excluded as for
    /// `from_uds_ori`.
    pub fn from_eo_uds(eo: u16, uds: u16) -> (k: KociembaCube)
        requires
            uds < 495,
        ensures
            k.0@ == from_eo_uds_state(eo as int, uds as int),
    {
        let occupied = uds_occupancy(uds);
        proof {
            lemma_occupancy_pieces(uds as int);
        }
        let mut oris: Vec<u64> = Vec::new();
        let mut parity: u64 = 0;
        let mut w: u16 = 1;
        let mut i: u64 = 0;
        while i < 11
            invariant
                i <= 11,
                oris@.len() == i,
                w == powi(2, i as int),
                parity == bit_total(eo as int, i as int) % 2,
                forall|j: int| 0 <= j < i ==> #[trigger] oris@[j] == radix_digit(eo as int, 2, j),
            decreases 11 - i,
        {
            proof {
                assert(powi(2, 10) == 1024) by {
                    reveal_with_fuel(powi, 11);
                }
                lemma_powi_mono2(i as int, 10);
                lemma_powi_pos(2, i as int);
                lemma_digit_ranges(eo as int, i as int);
            }
            let o = ((eo / w) % 2) as u64;
            parity = (parity + o) % 2;
            oris.push(o);
            w = w * 2;
            i = i + 1;
        }
        oris.push(parity);
        proof {
            assert forall|j: int| 0 <= j < 12 implies #[trigger] oris@[j] <= 1 by {
                if j < 11 {
                    lemma_digit_ranges(eo as int, j);
                }
            }
        }
        let edges = occupancy_edges(&occupied, &oris);
        let k = KociembaCube(Cube { edges, corners: CORNERS_SOLVED });
        proof {
            lemma_solved_view();
            let t = from_eo_uds_state(eo as int, uds as int);
            assert forall|j: int| 0 <= j < 12 implies k.0@.edges[j] == t.edges[j] by {
                assert(k.0@.edges[j] == slot(edges, j as u64));
            }
            assert(k.0@.edges =~= t.edges);
        }
        k
    }
}

/// Reading the slice coordinate of the cube built from it gives it back.
pub proof fn lemma_uds_roundtrip(uds: int)
    requires
        0 <= uds < 495,
    ensures
        uds_coord(from_uds_state(uds)) == uds,
{
    lemma_occupancy_pieces(uds);
    let occ = occupancy_of(uds, 4, 11);
    assert(slice_occupancy(from_uds_state(uds)) =~= occ);
}

proof fn lemma_eo_uds_slot(eo: int, uds: int, i: int)
    requires
        eo >= 0,
        0 <= uds < 495,
        0 <= i < 12,
    ensures
        slice_occupancy(from_eo_uds_state(eo, uds))[i] == occupancy_of(uds, 4, 11)[i],
        from_eo_uds_state(eo, uds).edges[i] / 16 == if i < 11 {
            radix_digit(eo, 2, i)
        } else {
            bit_total(eo, 11) % 2
        },
{
    lemma_occupancy_pieces(uds);
    lemma_digit_ranges(eo, i);
    lemma_bit_total_bound(eo, 11);
    let occ = occupancy_of(uds, 4, 11);
    let p = occupancy_piece(occ, i);
    let o = if i < 11 {
        radix_digit(eo, 2, i)
    } else {
        bit_total(eo, 11) % 2
    };
    assert(p <= 11);
    assert(0 <= o <= 1);
    assert(from_eo_uds_state(eo, uds).edges[i] == (p + o * 16) as u64);
}

/// Reading the edge orientation and slice coordinates of the cube built from both
/// gives both back (the orientation modulo 2048).
pub proof fn lemma_eo_uds_roundtrip(eo: int, uds: int)
    requires
        eo >= 0,
        0 <= uds < 495,
    ensures
        eo_coord(from_eo_uds_state(eo, uds)) == eo % 2048,
        uds_coord(from_eo_uds_state(eo, uds)) == uds,
{
    lemma_occupancy_pieces(uds);
    let occ = occupancy_of(uds, 4, 11);
    let s = from_eo_uds_state(eo, uds);
    assert forall|i: int| 0 <= i < 12 implies #[trigger] slice_occupancy(s)[i] == occ[i] by {
        lemma_eo_uds_slot(eo, uds, i);
    }
    assert(slice_occupancy(s) =~= occ);
    let f = |k: int| (s.edges[k] / 16) as int;
    let g = |k: int| radix_digit(eo, 2, k);
    assert forall|k: int| 0 <= k < 11 implies #[trigger] f(k) == g(k) by {
        lemma_eo_uds_slot(eo, uds, k);
    }
    lemma_radix_ext(f, g, 2, 11);
    lemma_radix_digits(eo, 2, 11);
    assert(powi(2, 11) == 2048) by {
        reveal_with_fuel(powi, 12);
    }
}

} // verus!

verus! {

/// Bit `k` of `m`.
pub open spec fn mask_bit(m: u64, k: u64) -> u64 {
    (m >> k) & 1
}

/// The corners on one diagonal of the cube (bit `i` set for corner `i`).
pub open spec fn corner_diagonal() -> u64 {
    0b01011010
}

/// A whole-cube rotation or reflection: where each edge and corner slot goes
/// (`ne`, `nc`) and back (`ie`, `ic`), how corner orientations change on and off the
/// diagonal (`rules`), and which slots' edges count as flipped (`emask`).
pub struct Rotation {
    pub ne: Seq<u64>,
    pub ie: Seq<u64>,
    pub nc: Seq<u64>,
    pub ic: Seq<u64>,
    pub rules: Seq<Seq<u64>>,
    pub emask: u64,
}

/// The edge a rotation puts in slot `ne[i]`, from the edge `v` of slot `i`.
pub open spec fn rotated_edge(r: Rotation, v: u64, i: u64) -> u64 {
    let id = v % 16;
    let ori = v / 16;
    let swap: int = if mask_bit(r.emask, i) != mask_bit(r.emask, id) {
        1
    } else {
        0
    };
    (((swap + ori) % 2) * 16 + r.ne[id as int]) as u64
}

/// The corner a rotation puts in slot `nc[i]`, from the corner `v` of slot `i`.
pub open spec fn rotated_corner(r: Rotation, v: u64, i: u64) -> u64 {
    let id = v % 8;
    let ori = v / 8;
    let diag: int = if mask_bit(corner_diagonal(), i) != mask_bit(corner_diagonal(), id) {
        1
    } else {
        0
    };
    (r.rules[diag][ori as int] * 8 + r.nc[id as int]) as u64
}

/// The state after a rotation.
pub open spec fn rotated_state(s: CubeState, r: Rotation) -> CubeState {
    CubeState {
        edges: Seq::new(12, |j: int| rotated_edge(r, s.edges[r.ie[j] as int], r.ie[j])),
        edge_high: 0,
        corners: Seq::new(8, |j: int| rotated_corner(r, s.corners[r.ic[j] as int], r.ic[j])),
        corner_high: 0,
    }
}

/// Edge ids are 0 to 11 and corner orientations 0 to 2: what a rotation can read.
pub open spec fn rotation_ok(s: CubeState) -> bool {
    &&& s.edges.len() == 12
    &&& s.corners.len() == 8
    &&& forall|i: int| 0 <= i < 12 ==> #[trigger] s.edges[i] % 16 < 12 && s.edges[i] < 32
    &&& forall|i: int| 0 <= i < 8 ==> #[trigger] s.corners[i] / 8 < 3 && s.corners[i] < 32
}

pub open spec fn rotation_wf(r: Rotation) -> bool {
    &&& r.ne.len() == 12 && r.ie.len() == 12 && r.nc.len() == 8 && r.ic.len() == 8
    &&& forall|i: int| 0 <= i < 12 ==> #[trigger] r.ne[i] < 12 && r.ie[r.ne[i] as int] == i
    &&& forall|j: int| 0 <= j < 12 ==> #[trigger] r.ie[j] < 12 && r.ne[r.ie[j] as int] == j
    &&& forall|i: int| 0 <= i < 8 ==> #[trigger] r.nc[i] < 8 && r.ic[r.nc[i] as int] == i
    &&& forall|j: int| 0 <= j < 8 ==> #[trigger] r.ic[j] < 8 && r.nc[r.ic[j] as int] == j
    &&& r.rules.len() == 2
    &&& forall|d: int, o: int| 0 <= d < 2 && 0 <= o < 3 ==> #[trigger] r.rules[d][o] < 3
    &&& r.rules[0].len() == 3 && r.rules[1].len() == 3
}

pub open spec fn rot_x() -> Rotation {
    Rotation {
        ne: seq![8u64, 5, 9, 1, 11, 7, 10, 3, 4, 6, 2, 0],
        ie: seq![11u64, 3, 10, 7, 8, 1, 9, 5, 0, 2, 6, 4],
        nc: seq![4u64, 5, 1, 0, 7, 6, 2, 3],
        ic: seq![3u64, 2, 6, 7, 0, 1, 5, 4],
        rules: seq![seq![0u64, 2, 1], seq![2u64, 1, 0]],
        emask: 0b111101010101,
    }
}

pub open spec fn rot_y() -> Rotation {
    Rotation {
        ne: seq![1u64, 2, 3, 0, 5, 6, 7, 4, 9, 10, 11, 8],
        ie: seq![3u64, 0, 1, 2, 7, 4, 5, 6, 11, 8, 9, 10],
        nc: seq![1u64, 2, 3, 0, 5, 6, 7, 4],
        ic: seq![3u64, 0, 1, 2, 7, 4, 5, 6],
        rules: seq![seq![0u64, 2, 1], seq![0u64, 2, 1]],
        emask: 0b111100000000,
    }
}

pub open spec fn rot_z() -> Rotation {
    Rotation {
        ne: seq![4u64, 8, 0, 11, 6, 9, 2, 10, 5, 1, 3, 7],
        ie: seq![2u64, 9, 6, 10, 0, 8, 4, 11, 1, 5, 7, 3],
        nc: seq![4u64, 0, 3, 7, 5, 1, 2, 6],
        ic: seq![1u64, 5, 6, 2, 0, 4, 7, 3],
        rules: seq![seq![0u64, 2, 1], seq![1u64, 0, 2]],
        emask: 0,
    }
}

pub open spec fn rot_reflect() -> Rotation {
    Rotation {
        ne: seq![2u64, 1, 0, 3, 6, 5, 4, 7, 9, 8, 11, 10],
        ie: seq![2u64, 1, 0, 3, 6, 5, 4, 7, 9, 8, 11, 10],
        nc: seq![1u64, 0, 3, 2, 5, 4, 7, 6],
        ic: seq![1u64, 0, 3, 2, 5, 4, 7, 6],
        rules: seq![seq![0u64, 1, 2], seq![0u64, 1, 2]],
        emask: 0,
    }
}

pub proof fn lemma_rotations_wf()
    ensures
        rotation_wf(rot_x()),
        rotation_wf(rot_y()),
        rotation_wf(rot_z()),
        rotation_wf(rot_reflect()),
{
}

proof fn lemma_rotate_bits(sw: u64, v: u64, f: u64)
    by (bit_vector)
    requires
        sw <= 1,
        v < 32,
        f < 16,
    ensures
        ((sw ^ ((v >> 4) & 1)) << 4) | f == ((sw + v / 16) % 2) * 16 + f,
        v & 0x0f == v % 16,
        v & 0x07 == v % 8,
        v >> 3 == v / 8,
{
}

proof fn lemma_corner_pack(o: u64, f: u64)
    by (bit_vector)
    requires
        o < 3,
        f < 8,
    ensures
        (o << 3) | f == o * 8 + f,
        o * 8 + f < 32,
{
}

/// A rotation keeps a state rotatable.
pub proof fn lemma_rotation_keeps_ok(s: CubeState, r: Rotation)
    requires
        rotation_ok(s),
        rotation_wf(r),
    ensures
        rotation_ok(rotated_state(s, r)),
{
    let t = rotated_state(s, r);
    assert forall|j: int| 0 <= j < 12 implies #[trigger] t.edges[j] % 16 < 12 && t.edges[j] < 32 by {
        let i = r.ie[j] as int;
        let v = s.edges[i];
        assert(r.ne[(v % 16) as int] < 12);
    }
    assert forall|j: int| 0 <= j < 8 implies #[trigger] t.corners[j] / 8 < 3 && t.corners[j] < 32 by {
        let i = r.ic[j] as int;
        let v = s.corners[i];
        let diag: int = if mask_bit(corner_diagonal(), i as u64) != mask_bit(
            corner_diagonal(),
            v % 8,
        ) {
            1
        } else {
            0
        };
        assert(r.rules[diag][(v / 8) as int] < 3);
        assert(r.nc[(v % 8) as int] < 8);
    }
}

impl KociembaCube {
    /// Moves every piece as the rotation given by the tables describes.
    fn rotate_axis(
        &self,
        next_edge_pos: [u64; 12],
        next_corner_pos: [u64; 8],
        corner_ori_rules: [[u64; 3]; 2],
        edge_ori_mask: u16,
        Ghost(r): Ghost<Rotation>,
    ) -> (k: KociembaCube)
        requires
            rotation_wf(r),
            rotation_ok(self.0@),
            next_edge_pos@ == r.ne,
            next_corner_pos@ == r.nc,
            corner_ori_rules@.len() == 2,
            corner_ori_rules[0]@ == r.rules[0],
            corner_ori_rules[1]@ == r.rules[1],
            edge_ori_mask == r.emask,
        ensures
            k.0@ == rotated_state(self.0@, r),
    {
        let mut evals: Vec<u64> = Vec::new();
        let mut epos: Vec<u64> = Vec::new();
        let mut i: u64 = 0;
        while i < 12
            invariant
                i <= 12,
                rotation_wf(r),
                rotation_ok(self.0@),
                next_edge_pos@ == r.ne,
                edge_ori_mask == r.emask,
                evals@.len() == i,
                epos@.len() == i,
                forall|j: int| 0 <= j < i ==> #[trigger] epos@[j] == r.ne[j],
                forall|j: int|
                    0 <= j < i ==> #[trigger] evals@[j] == rotated_edge(r, self.0@.edges[j], j as u64),
                forall|j: int| 0 <= j < i ==> #[trigger] evals@[j] < 32,
            decreases 12 - i,
        {
            let current_edge = (self.0.edges >> (5 * i)) & 0b11111;
            proof {
                assert(self.0@.edges[i as int] == current_edge);
                lemma_rotate_bits(0, current_edge, 0);
            }
            let current_edge_id = current_edge & 0b1111;
            let future_edge_id = next_edge_pos[current_edge_id as usize];
            let need_swap: u64 = if ((edge_ori_mask >> i) & 1) != ((edge_ori_mask >> current_edge_id)
                & 1) {
                1
            } else {
                0
            };
            proof {
                lemma_rotate_bits(need_swap, current_edge, future_edge_id);
                assert(((edge_ori_mask >> i) & 1) == mask_bit(r.emask, i));
                assert(((edge_ori_mask >> current_edge_id) & 1) == mask_bit(
                    r.emask,
                    current_edge % 16,
                ));
            }
            let new_edge = ((need_swap ^ ((current_edge >> 4) & 1)) << 4) | future_edge_id;
            evals.push(new_edge);
            epos.push(next_edge_pos[i as usize]);
            i = i + 1;
        }
        let mut cvals: Vec<u64> = Vec::new();
        let mut cpos: Vec<u64> = Vec::new();
        let mut i: u64 = 0;
        while i < 8
            invariant
                i <= 8,
                rotation_wf(r),
                rotation_ok(self.0@),
                next_corner_pos@ == r.nc,
                corner_ori_rules@.len() == 2,
                corner_ori_rules[0]@ == r.rules[0],
                corner_ori_rules[1]@ == r.rules[1],
                cvals@.len() == i,
                cpos@.len() == i,
                forall|j: int| 0 <= j < i ==> #[trigger] cpos@[j] == r.nc[j],
                forall|j: int|
                    0 <= j < i ==> #[trigger] cvals@[j] == rotated_corner(r, self.0@.corners[j], j as u64),
                forall|j: int| 0 <= j < i ==> #[trigger] cvals@[j] < 32,
            decreases 8 - i,
        {
            let current_corner = (self.0.corners >> (5 * i)) & 0b11111;
            proof {
                assert(self.0@.corners[i as int] == current_corner);
                lemma_rotate_bits(0, current_corner, 0);
            }
            let current_corner_id = current_corner & 0b111;
            let future_corner_id = next_corner_pos[current_corner_id as usize];
            let diagonal: usize = if ((0b01011010u64 >> i) & 1) != ((0b01011010u64
                >> current_corner_id) & 1) {
                1
            } else {
                0
            };
            let ori = corner_ori_rules[diagonal][(current_corner >> 3) as usize];
            proof {
                assert(r.rules[diagonal as int][(current_corner / 8) as int] < 3);
                assert(ori == r.rules[diagonal as int][(current_corner / 8) as int]);
                lemma_corner_pack(ori, future_corner_id);
            }
            let new_corner = (ori << 3) | future_corner_id;
            cvals.push(new_corner);
            cpos.push(next_corner_pos[i as usize]);
            i = i + 1;
        }
        proof {
            assert forall|a: int, b: int| 0 <= a < b < 12 implies epos@[a] != epos@[b] by {
                assert(r.ie[r.ne[a] as int] == a);
                assert(r.ie[r.ne[b] as int] == b);
            }
            assert forall|a: int, b: int| 0 <= a < b < 8 implies cpos@[a] != cpos@[b] by {
                assert(r.ic[r.nc[a] as int] == a);
                assert(r.ic[r.nc[b] as int] == b);
            }
        }
        let new_edges = scatter_slots(&evals, &epos);
        let new_corners = scatter_slots(&cvals, &cpos);
        let k = KociembaCube(Cube { edges: new_edges, corners: new_corners });
        proof {
            let t = rotated_state(self.0@, r);
            assert forall|j: int| 0 <= j < 12 implies k.0@.edges[j] == t.edges[j] by {
                let i = r.ie[j] as int;
                assert(epos@[i] == j);
                assert(k.0@.edges[j] == slot(new_edges, j as u64));
            }
            assert forall|j: int| 0 <= j < 8 implies k.0@.corners[j] == t.corners[j] by {
                let i = r.ic[j] as int;
                assert(cpos@[i] == j);
                assert(k.0@.corners[j] == slot(new_corners, j as u64));
            }
            assert forall|kk: u64| 8 <= kk < 12 implies slot(new_corners, kk) == 0 by {
                assert forall|a: int| 0 <= a < cpos@.len() implies cpos@[a] != kk by {
                    assert(cpos@[a] == r.nc[a]);
                }
            }
            lemma_high8_of_zero_slots(new_corners);
            assert(k.0@.edges =~= t.edges);
            assert(k.0@.corners =~= t.corners);
        }
        k
    }
}


/// The state after the uniform-slice symmetry numbered `i` (0 to 15): a quarter turn of
/// the cube about the vertical axis repeated `i % 4` times, after a half turn about the
/// x axis (4 to 7) or the z axis (6, 7), and before a reflection (8 to 15).
pub open spec fn uds_symmetry(s: CubeState, i: int) -> CubeState {
    let m = i % 16;
    let base = if m % 8 < 4 {
        s
    } else if m % 8 < 6 {
        rotated_state(rotated_state(s, rot_x()), rot_x())
    } else {
        rotated_state(rotated_state(s, rot_z()), rot_z())
    };
    let turns: int = if m % 8 < 4 { m % 4 } else { m % 2 };
    let spun = if turns == 0 {
        base
    } else if turns == 1 {
        rotated_state(base, rot_y())
    } else if turns == 2 {
        rotated_state(rotated_state(base, rot_y()), rot_y())
    } else {
        rotated_state(rotated_state(rotated_state(base, rot_y()), rot_y()), rot_y())
    };
    if m < 8 {
        spun
    } else {
        rotated_state(spun, rot_reflect())
    }
}

proof fn lemma_x_mask_bits()
    by (bit_vector)
    ensures
        mask_bit(0b111101010101u64, 0) == 1,
        mask_bit(0b111101010101u64, 1) == 0,
        mask_bit(0b111101010101u64, 2) == 1,
        mask_bit(0b111101010101u64, 3) == 0,
        mask_bit(0b111101010101u64, 4) == 1,
        mask_bit(0b111101010101u64, 5) == 0,
        mask_bit(0b111101010101u64, 6) == 1,
        mask_bit(0b111101010101u64, 7) == 0,
        mask_bit(0b111101010101u64, 8) == 1,
        mask_bit(0b111101010101u64, 9) == 1,
        mask_bit(0b111101010101u64, 10) == 1,
        mask_bit(0b111101010101u64, 11) == 1,
        mask_bit(0b01011010u64, 0) == 0,
        mask_bit(0b01011010u64, 1) == 1,
        mask_bit(0b01011010u64, 2) == 0,
        mask_bit(0b01011010u64, 3) == 1,
        mask_bit(0b01011010u64, 4) == 1,
        mask_bit(0b01011010u64, 5) == 0,
        mask_bit(0b01011010u64, 6) == 1,
        mask_bit(0b01011010u64, 7) == 0,
{
}

/// An edge carried four times round by x rotations comes back as it was.
#[verifier::spinoff_prover]
#[verifier::rlimit(80)]
proof fn lemma_x_edge_cycle(v: u64, j: u64)
    requires
        v < 32,
        v % 16 < 12,
        j < 12,
    ensures
        ({
            let r = rot_x();
            let e1 = rotated_edge(r, v, j);
            let e2 = rotated_edge(r, e1, r.ie[r.ie[r.ie[j as int] as int] as int]);
            let e3 = rotated_edge(r, e2, r.ie[r.ie[j as int] as int]);
            let e4 = rotated_edge(r, e3, r.ie[j as int]);
            e4 == v
        }),
{
    lemma_x_mask_bits();
    let r = rot_x();
    assert(r.ie =~= seq![11u64, 3, 10, 7, 8, 1, 9, 5, 0, 2, 6, 4]);
    assert(r.ne =~= seq![8u64, 5, 9, 1, 11, 7, 10, 3, 4, 6, 2, 0]);
    let id = v % 16;
    assert(v == (v / 16) * 16 + id);
    assert(v / 16 < 2);
}

/// A corner carried four times round by x rotations comes back as it was.
#[verifier::spinoff_prover]
#[verifier::rlimit(80)]
proof fn lemma_x_corner_cycle(v: u64, j: u64)
    requires
        v < 32,
        v / 8 < 3,
        j < 8,
    ensures
        ({
            let r = rot_x();
            let c1 = rotated_corner(r, v, j);
            let c2 = rotated_corner(r, c1, r.ic[r.ic[r.ic[j as int] as int] as int]);
            let c3 = rotated_corner(r, c2, r.ic[r.ic[j as int] as int]);
            let c4 = rotated_corner(r, c3, r.ic[j as int]);
            c4 == v
        }),
{
    lemma_x_mask_bits();
    let r = rot_x();
    assert(r.ic =~= seq![3u64, 2, 6, 7, 0, 1, 5, 4]);
    assert(r.nc =~= seq![4u64, 5, 1, 0, 7, 6, 2, 3]);
    assert(r.rules[0] =~= seq![0u64, 2, 1]);
    assert(r.rules[1] =~= seq![2u64, 1, 0]);
    let id = v % 8;
    assert(v == (v / 8) * 8 + id);
}

/// Four quarter turns of the whole cube about the x axis give back every edge and
/// corner as it was.
pub proof fn lemma_rotate_x_four(s: CubeState)
    requires
        rotation_ok(s),
    ensures
        rotated_state(rotated_state(rotated_state(rotated_state(s, rot_x()), rot_x()), rot_x()), rot_x()).edges
            == s.edges,
        rotated_state(rotated_state(rotated_state(rotated_state(s, rot_x()), rot_x()), rot_x()), rot_x()).corners
            == s.corners,
{
    let r = rot_x();
    let s1 = rotated_state(s, r);
    let s2 = rotated_state(s1, r);
    let s3 = rotated_state(s2, r);
    let s4 = rotated_state(s3, r);
    assert(r.ie =~= seq![11u64, 3, 10, 7, 8, 1, 9, 5, 0, 2, 6, 4]);
    assert(r.ic =~= seq![3u64, 2, 6, 7, 0, 1, 5, 4]);
    assert forall|j: int| 0 <= j < 12 implies s4.edges[j] == s.edges[j] by {
        assert(r.ie[r.ie[r.ie[r.ie[j] as int] as int] as int] == j);
        lemma_x_edge_cycle(s.edges[j], j as u64);
    }
    assert forall|j: int| 0 <= j < 8 implies s4.corners[j] == s.corners[j] by {
        assert(r.ic[r.ic[r.ic[r.ic[j] as int] as int] as int] == j);
        lemma_x_corner_cycle(s.corners[j], j as u64);
    }
    assert(s4.edges =~= s.edges);
    assert(s4.corners =~= s.corners);
}

/// The solved cube is the same after a quarter turn of the whole cube about x.
pub proof fn lemma_rotate_x_solved()
    ensures
        rotated_state(solved_state(), rot_x()).edges == solved_state().edges,
        rotated_state(solved_state(), rot_x()).corners == solved_state().corners,
{
    lemma_x_mask_bits();
    let r = rot_x();
    let s = solved_state();
    let t = rotated_state(s, r);
    assert(r.ie =~= seq![11u64, 3, 10, 7, 8, 1, 9, 5, 0, 2, 6, 4]);
    assert(r.ne =~= seq![8u64, 5, 9, 1, 11, 7, 10, 3, 4, 6, 2, 0]);
    assert(r.ic =~= seq![3u64, 2, 6, 7, 0, 1, 5, 4]);
    assert(r.nc =~= seq![4u64, 5, 1, 0, 7, 6, 2, 3]);
    assert(r.rules[0] =~= seq![0u64, 2, 1]);
    assert(r.rules[1] =~= seq![2u64, 1, 0]);
    assert(t.edges =~= s.edges);
    assert(t.corners =~= s.corners);
}

impl KociembaCube {
    /// Turns the whole cube a quarter about the x axis (the axis through R and L).
    pub fn rotate_x(&self) -> (k: KociembaCube)
        requires
            rotation_ok(self.0@),
        ensures
            k.0@ == rotated_state(self.0@, rot_x()),
            rotation_ok(k.0@),
    {
        let ne: [u64; 12] = [8, 5, 9, 1, 11, 7, 10, 3, 4, 6, 2, 0];
        let nc: [u64; 8] = [4, 5, 1, 0, 7, 6, 2, 3];
        let rules: [[u64; 3]; 2] = [[0, 2, 1], [2, 1, 0]];
        proof {
            lemma_rotations_wf();
            assert(ne@ =~= rot_x().ne);
            assert(nc@ =~= rot_x().nc);
            assert(rules[0]@ =~= rot_x().rules[0]);
            assert(rules[1]@ =~= rot_x().rules[1]);
            lemma_rotation_keeps_ok(self.0@, rot_x());
        }
        self.rotate_axis(ne, nc, rules, 0b111101010101, Ghost(rot_x()))
    }

    /// Turns the whole cube a quarter about the y axis (the axis through U and D).
    pub fn rotate_y(&self) -> (k: KociembaCube)
        requires
            rotation_ok(self.0@),
        ensures
            k.0@ == rotated_state(self.0@, rot_y()),
            rotation_ok(k.0@),
    {
        let ne: [u64; 12] = [1, 2, 3, 0, 5, 6, 7, 4, 9, 10, 11, 8];
        let nc: [u64; 8] = [1, 2, 3, 0, 5, 6, 7, 4];
        let rules: [[u64; 3]; 2] = [[0, 2, 1], [0, 2, 1]];
        proof {
            lemma_rotations_wf();
            assert(ne@ =~= rot_y().ne);
            assert(nc@ =~= rot_y().nc);
            assert(rules[0]@ =~= rot_y().rules[0]);
            assert(rules[1]@ =~= rot_y().rules[1]);
            lemma_rotation_keeps_ok(self.0@, rot_y());
        }
        self.rotate_axis(ne, nc, rules, 0b111100000000, Ghost(rot_y()))
    }

    /// Turns the whole cube a quarter about the z axis (the axis through F and B).
    pub fn rotate_z(&self) -> (k: KociembaCube)
        requires
            rotation_ok(self.0@),
        ensures
            k.0@ == rotated_state(self.0@, rot_z()),
            rotation_ok(k.0@),
    {
        let ne: [u64; 12] = [4, 8, 0, 11, 6, 9, 2, 10, 5, 1, 3, 7];
        let nc: [u64; 8] = [4, 0, 3, 7, 5, 1, 2, 6];
        let rules: [[u64; 3]; 2] = [[0, 2, 1], [1, 0, 2]];
        proof {
            lemma_rotations_wf();
            assert(ne@ =~= rot_z().ne);
            assert(nc@ =~= rot_z().nc);
            assert(rules[0]@ =~= rot_z().rules[0]);
            assert(rules[1]@ =~= rot_z().rules[1]);
            lemma_rotation_keeps_ok(self.0@, rot_z());
        }
        self.rotate_axis(ne, nc, rules, 0, Ghost(rot_z()))
    }

    /// Mirrors the cube left to right.
    pub fn reflection(&self) -> (k: KociembaCube)
        requires
            rotation_ok(self.0@),
        ensures
            k.0@ == rotated_state(self.0@, rot_reflect()),
            rotation_ok(k.0@),
    {
        let ne: [u64; 12] = [2, 1, 0, 3, 6, 5, 4, 7, 9, 8, 11, 10];
        let nc: [u64; 8] = [1, 0, 3, 2, 5, 4, 7, 6];
        let rules: [[u64; 3]; 2] = [[0, 1, 2], [0, 1, 2]];
        proof {
            lemma_rotations_wf();
            assert(ne@ =~= rot_reflect().ne);
            assert(nc@ =~= rot_reflect().nc);
            assert(rules[0]@ =~= rot_reflect().rules[0]);
            assert(rules[1]@ =~= rot_reflect().rules[1]);
            lemma_rotation_keeps_ok(self.0@, rot_reflect());
        }
        self.rotate_axis(ne, nc, rules, 0, Ghost(rot_reflect()))
    }

    /// Applies the uniform-slice symmetry numbered `i % 16`.
    pub fn apply_uds_symmetry(&self, i: u8) -> (k: KociembaCube)
        requires
            rotation_ok(self.0@),
        ensures
            k.0@ == uds_symmetry(self.0@, i as int),
            rotation_ok(k.0@),
    {
        let m = i % 16;
        let base = if m % 8 < 4 {
            *self
        } else if m % 8 < 6 {
            self.rotate_x().rotate_x()
        } else {
            self.rotate_z().rotate_z()
        };
        let turns: u8 = if m % 8 < 4 { m % 4 } else { m % 2 };
        let spun = if turns == 0 {
            base
        } else if turns == 1 {
            base.rotate_y()
        } else if turns == 2 {
            base.rotate_y().rotate_y()
        } else {
            base.rotate_y().rotate_y().rotate_y()
        };
        if m < 8 {
            spun
        } else {
            spun.reflection()
        }
    }
}

} // verus!

verus! {

/// The rank of an occupancy is below the number of occupancies of as many slots with
/// as many occupied.
pub proof fn lemma_rank_bound(occ: Seq<bool>, m: int)
    requires
        m >= 0,
    ensures
        0 <= occupancy_rank(occ, m) < binom(m, count_true(occ, m)),
    decreases m,
{
    lemma_count_true_bound(occ, m);
    if m > 0 {
        lemma_rank_bound(occ, m - 1);
        lemma_count_true_bound(occ, m - 1);
        let c = count_true(occ, m - 1);
        lemma_binom_basics(m - 1, c);
        lemma_binom_basics(m - 1, c - 1);
        lemma_binom_basics(m - 1, c + 1);
        if occ[m - 1] {
            assert(binom(m, c + 1) == binom(m - 1, c) + binom(m - 1, c + 1));
        } else if c > 0 {
            assert(binom(m, c) == binom(m - 1, c - 1) + binom(m - 1, c));
        } else {
            assert(binom(m - 1, -1) == 0);
            assert(binom(m, 0) == 1);
        }
    }
}

/// With exactly four middle-slice edges in the twelve slots, the slice coordinate is
/// below 495.
pub proof fn lemma_uds_four(s: CubeState)
    requires
        count_true(slice_occupancy(s), 12) == 4,
    ensures
        0 <= uds_coord(s) < 495,
{
    lemma_rank_bound(slice_occupancy(s), 12);
    lemma_binom_12_4();
}

/// The cubes built from an edge orientation and a slice coordinate have four
/// middle-slice edges.
pub proof fn lemma_eo_uds_state_four(eo: int, uds: int)
    requires
        eo >= 0,
        0 <= uds < 495,
    ensures
        count_true(slice_occupancy(from_eo_uds_state(eo, uds)), 12) == 4,
{
    lemma_occupancy_pieces(uds);
    let s = from_eo_uds_state(eo, uds);
    let occ = occupancy_of(uds, 4, 11);
    assert forall|i: int| 0 <= i < 12 implies #[trigger] slice_occupancy(s)[i] == occ[i] by {
        lemma_eo_uds_slot(eo, uds, i);
    }
    assert(slice_occupancy(s) =~= occ);
}

/// The cubes built from an edge orientation and a slice coordinate have edge ids below
/// 12 and corner orientations below 3.
#[verifier::spinoff_prover]
pub proof fn lemma_eo_uds_state_ok(eo: int, uds: int)
    requires
        eo >= 0,
        0 <= uds < 495,
    ensures
        rotation_ok(from_eo_uds_state(eo, uds)),
{
    lemma_occupancy_pieces(uds);
    lemma_bit_total_bound(eo, 11);
    let s = from_eo_uds_state(eo, uds);
    let occ = occupancy_of(uds, 4, 11);
    assert forall|i: int| 0 <= i < 12 implies #[trigger] s.edges[i] % 16 < 12 && s.edges[i] < 32 by {
        lemma_digit_ranges(eo, i);
        let p = occupancy_piece(occ, i);
        let o = if i < 11 {
            radix_digit(eo, 2, i)
        } else {
            bit_total(eo, 11) % 2
        };
        assert(p <= 11);
        assert(0 <= o <= 1);
        assert(s.edges[i] == (p + o * 16) as u64);
    }
}

/// The cubes built from a corner orientation coordinate have edge ids below 12 and
/// corner orientations below 3.
pub proof fn lemma_co_state_ok(co: int)
    requires
        co >= 0,
    ensures
        rotation_ok(from_co_state(co)),
        oris_ok(from_co_state(co)),
{
    let s = from_co_state(co);
    assert forall|i: int| 0 <= i < 8 implies #[trigger] s.corners[i] / 8 < 3 && s.corners[i] < 32 by {
        if i < 7 {
            lemma_digit_ranges(co, 6 - i);
        }
    }
}

} // verus!
