//! The cube state as two bitboards and the face turns that act on it.
//!
//! Edges: twelve 5-bit slots (bit 4 orientation, bits 0-3 piece id).
//! Corners: eight 5-bit slots (bits 3-4 orientation, bits 0-2 piece id).

use vstd::prelude::*;
use crate::bitboard::{slot, high, mask4, replace4, lemma_eq_by_slots12, lemma_eq_by_slots8, lemma_mask4, lemma_replace4, lemma_slot_bound, lemma_corner_bits, lemma_small_bits, lemma_xor_twice};
use crate::moves::{MoveAxis, MoveDirection, SingleMove, Scramble, spec_quarters, spec_invert, spec_combine, spec_group, stitch, stitch_all, is_clean, built_from_draws, draws_ok};

verus! {

/// A 3x3 Rubik's Cube stored as bitboards for edges and corners.
#[derive(Debug, Clone, Copy, PartialEq, Eq, Structural)]
pub struct Cube {
    pub edges: u64,
    pub corners: u64,
}

/// The mathematical state of a cube: the content of every slot, and the
/// unused bits above the slots.
pub struct CubeState {
    pub edges: Seq<u64>,
    pub edge_high: u64,
    pub corners: Seq<u64>,
    pub corner_high: u64,
}

pub open spec fn state_of(edges: u64, corners: u64) -> CubeState {
    CubeState {
        edges: Seq::new(12, |i: int| slot(edges, i as u64)),
        edge_high: high(edges, 12),
        corners: Seq::new(8, |i: int| slot(corners, i as u64)),
        corner_high: high(corners, 8),
    }
}

impl View for Cube {
    type V = CubeState;

    open spec fn view(&self) -> CubeState {
        state_of(self.edges, self.corners)
    }
}

pub const EDGES_SOLVED: u64 = 0b01011_01010_01001_01000_00111_00110_00101_00100_00011_00010_00001_00000;

pub const CORNERS_SOLVED: u64 = 0b00111_00110_00101_00100_00011_00010_00001_00000;

/// The solved cube: every piece in its own slot, oriented.
pub open spec fn solved_state() -> CubeState {
    CubeState {
        edges: Seq::new(12, |i: int| i as u64),
        edge_high: 0,
        corners: Seq::new(8, |i: int| i as u64),
        corner_high: 0,
    }
}

proof fn lemma_solved_bits()
    by (bit_vector)
    ensures
        slot(0b01011_01010_01001_01000_00111_00110_00101_00100_00011_00010_00001_00000u64, 0) == 0,
        slot(0b01011_01010_01001_01000_00111_00110_00101_00100_00011_00010_00001_00000u64, 1) == 1,
        slot(0b01011_01010_01001_01000_00111_00110_00101_00100_00011_00010_00001_00000u64, 2) == 2,
        slot(0b01011_01010_01001_01000_00111_00110_00101_00100_00011_00010_00001_00000u64, 3) == 3,
        slot(0b01011_01010_01001_01000_00111_00110_00101_00100_00011_00010_00001_00000u64, 4) == 4,
        slot(0b01011_01010_01001_01000_00111_00110_00101_00100_00011_00010_00001_00000u64, 5) == 5,
        slot(0b01011_01010_01001_01000_00111_00110_00101_00100_00011_00010_00001_00000u64, 6) == 6,
        slot(0b01011_01010_01001_01000_00111_00110_00101_00100_00011_00010_00001_00000u64, 7) == 7,
        slot(0b01011_01010_01001_01000_00111_00110_00101_00100_00011_00010_00001_00000u64, 8) == 8,
        slot(0b01011_01010_01001_01000_00111_00110_00101_00100_00011_00010_00001_00000u64, 9) == 9,
        slot(0b01011_01010_01001_01000_00111_00110_00101_00100_00011_00010_00001_00000u64, 10) == 10,
        slot(0b01011_01010_01001_01000_00111_00110_00101_00100_00011_00010_00001_00000u64, 11) == 11,
        high(0b01011_01010_01001_01000_00111_00110_00101_00100_00011_00010_00001_00000u64, 12) == 0,
        slot(0b00111_00110_00101_00100_00011_00010_00001_00000u64, 0) == 0,
        slot(0b00111_00110_00101_00100_00011_00010_00001_00000u64, 1) == 1,
        slot(0b00111_00110_00101_00100_00011_00010_00001_00000u64, 2) == 2,
        slot(0b00111_00110_00101_00100_00011_00010_00001_00000u64, 3) == 3,
        slot(0b00111_00110_00101_00100_00011_00010_00001_00000u64, 4) == 4,
        slot(0b00111_00110_00101_00100_00011_00010_00001_00000u64, 5) == 5,
        slot(0b00111_00110_00101_00100_00011_00010_00001_00000u64, 6) == 6,
        slot(0b00111_00110_00101_00100_00011_00010_00001_00000u64, 7) == 7,
        high(0b00111_00110_00101_00100_00011_00010_00001_00000u64, 8) == 0,
{
}

pub proof fn lemma_solved_view()
    ensures
        state_of(EDGES_SOLVED, CORNERS_SOLVED) == solved_state(),
{
    lemma_solved_bits();
    assert(state_of(EDGES_SOLVED, CORNERS_SOLVED).edges =~= solved_state().edges);
    assert(state_of(EDGES_SOLVED, CORNERS_SOLVED).corners =~= solved_state().corners);
}

/// Two cubes with the same state are the same cube.
pub proof fn lemma_view_injective(a: Cube, b: Cube)
    requires
        a@ == b@,
    ensures
        a == b,
{
    assert forall|i: u64| i < 12 implies slot(a.edges, i) == slot(b.edges, i) by {
        assert(a@.edges[i as int] == b@.edges[i as int]);
        assert(a@.edges[i as int] == slot(a.edges, i));
    }
    assert forall|i: u64| i < 8 implies slot(a.corners, i) == slot(b.corners, i) by {
        assert(a@.corners[i as int] == b@.corners[i as int]);
        assert(a@.corners[i as int] == slot(a.corners, i));
    }
    lemma_eq_by_slots12(a.edges, b.edges);
    lemma_eq_by_slots8(a.corners, b.corners);
}

} // verus!

verus! {

/// The four edge slots a face turn cycles, in the order a clockwise turn moves them.
pub open spec fn face_edges(axis: MoveAxis) -> Seq<u64> {
    match axis {
        MoveAxis::U => seq![0u64, 1, 2, 3],
        MoveAxis::F => seq![1u64, 8, 5, 9],
        MoveAxis::R => seq![0u64, 11, 4, 8],
        MoveAxis::B => seq![3u64, 10, 7, 11],
        MoveAxis::L => seq![2u64, 9, 6, 10],
        MoveAxis::D => seq![4u64, 7, 6, 5],
    }
}

/// The four corner slots a face turn cycles, in the order a clockwise turn moves them.
pub open spec fn face_corners(axis: MoveAxis) -> Seq<u64> {
    match axis {
        MoveAxis::U => seq![0u64, 1, 2, 3],
        MoveAxis::F => seq![0u64, 4, 5, 1],
        MoveAxis::R => seq![0u64, 3, 7, 4],
        MoveAxis::B => seq![2u64, 6, 7, 3],
        MoveAxis::L => seq![1u64, 5, 6, 2],
        MoveAxis::D => seq![4u64, 7, 6, 5],
    }
}

/// Whether a quarter turn of the face flips the edges it moves.
pub open spec fn face_flips(axis: MoveAxis) -> bool {
    axis == MoveAxis::F || axis == MoveAxis::B
}

/// How a quarter turn of the face changes the orientation (0, 1, 2) of a corner it moves.
pub open spec fn face_twist(axis: MoveAxis) -> Seq<u64> {
    match axis {
        MoveAxis::U | MoveAxis::D => seq![0u64, 2, 1],
        MoveAxis::F | MoveAxis::B => seq![2u64, 1, 0],
        MoveAxis::R | MoveAxis::L => seq![1u64, 0, 2],
    }
}

/// The position of slot `i` in a face cycle, or -1 when the face does not move it.
pub open spec fn face_pos(f: Seq<u64>, i: u64) -> int {
    if f[0] == i {
        0
    } else if f[1] == i {
        1
    } else if f[2] == i {
        2
    } else if f[3] == i {
        3
    } else {
        -1
    }
}

/// The slot whose content a move brings into slot `i`.
pub open spec fn source_slot(f: Seq<u64>, q: int, i: u64) -> u64 {
    let k = face_pos(f, i);
    if k < 0 {
        i
    } else {
        f[(k + 4 - q) % 4]
    }
}

/// A corner slot value with its orientation changed by the table `t`.
pub open spec fn twisted(t: Seq<u64>, v: u64) -> u64 {
    let o = v / 8;
    let o2 = if o < 3 { t[o as int] } else { o };
    (o2 * 8 + v % 8) as u64
}

/// Edge slot `i` after move `mv`.
pub open spec fn edge_after(e: Seq<u64>, mv: SingleMove, i: int) -> u64 {
    let f = face_edges(mv.axis);
    let q = spec_quarters(mv.dir);
    let v = e[source_slot(f, q, i as u64) as int];
    if face_pos(f, i as u64) >= 0 && face_flips(mv.axis) && q % 2 == 1 {
        v ^ 0x10
    } else {
        v
    }
}

/// Corner slot `i` after move `mv`.
pub open spec fn corner_after(c: Seq<u64>, mv: SingleMove, i: int) -> u64 {
    let f = face_corners(mv.axis);
    let q = spec_quarters(mv.dir);
    let v = c[source_slot(f, q, i as u64) as int];
    if face_pos(f, i as u64) >= 0 && q % 2 == 1 {
        twisted(face_twist(mv.axis), v)
    } else {
        v
    }
}

/// The state after one face turn.
pub open spec fn turned(s: CubeState, mv: SingleMove) -> CubeState {
    CubeState {
        edges: Seq::new(12, |i: int| edge_after(s.edges, mv, i)),
        edge_high: s.edge_high,
        corners: Seq::new(8, |i: int| corner_after(s.corners, mv, i)),
        corner_high: s.corner_high,
    }
}

/// A face turn reads the orientation of each corner it moves from a three-entry
/// table, so those corners must have orientation 0, 1 or 2.
pub open spec fn turn_ok(s: CubeState, mv: SingleMove) -> bool {
    forall|k: int| 0 <= k < 4 ==> #[trigger] s.corners[face_corners(mv.axis)[k] as int] / 8 < 3
}

/// The state after a sequence of moves.
pub open spec fn apply_moves(s: CubeState, moves: Seq<SingleMove>) -> CubeState
    decreases moves.len(),
{
    if moves.len() == 0 {
        s
    } else {
        apply_moves(turned(s, moves[0]), moves.drop_first())
    }
}

/// Every move of the sequence meets `turn_ok` at the moment it is made.
pub open spec fn apply_ok(s: CubeState, moves: Seq<SingleMove>) -> bool
    decreases moves.len(),
{
    if moves.len() == 0 {
        true
    } else {
        turn_ok(s, moves[0]) && apply_ok(turned(s, moves[0]), moves.drop_first())
    }
}

/// Precomputed data for one move: masks of the slots it touches, source and
/// destination shift of each moved piece, whether edges flip, and the corner
/// orientation table.
#[derive(Clone, Copy)]
pub struct MoveData {
    pub e_mask: u64,
    pub c_mask: u64,
    pub e_shifts: [(u64, u64); 4],
    pub c_shifts: [(u64, u64); 4],
    pub e_flip: bool,
    pub c_ori_lut: [u8; 3],
}

pub open spec fn data_of(d: MoveData, mv: SingleMove) -> bool {
    let f = face_edges(mv.axis);
    let g = face_corners(mv.axis);
    let q = spec_quarters(mv.dir);
    &&& forall|k: int|
        0 <= k < 4 ==> (#[trigger] d.e_shifts[k]).0 == f[k] * 5 && d.e_shifts[k].1 == f[(k + q)
            % 4] * 5
    &&& forall|k: int|
        0 <= k < 4 ==> (#[trigger] d.c_shifts[k]).0 == g[k] * 5 && d.c_shifts[k].1 == g[(k + q)
            % 4] * 5
    &&& d.e_mask == mask4(f[0], f[1], f[2], f[3])
    &&& d.c_mask == mask4(g[0], g[1], g[2], g[3])
    &&& d.e_flip == (face_flips(mv.axis) && q % 2 == 1)
    &&& forall|o: int|
        0 <= o < 3 ==> #[trigger] d.c_ori_lut[o] as u64 == if q % 2 == 1 {
            face_twist(mv.axis)[o]
        } else {
            o as u64
        }
}

impl SingleMove {
    /// The precomputed data of this move.
    pub fn get_data(&self) -> (d: MoveData)
        ensures
            data_of(d, *self),
    {
        let (f, g, flip, lut): ([u64; 4], [u64; 4], bool, [u8; 3]) = match self.axis {
            MoveAxis::U => ([0, 1, 2, 3], [0, 1, 2, 3], false, [0, 2, 1]),
            MoveAxis::F => ([1, 8, 5, 9], [0, 4, 5, 1], true, [2, 1, 0]),
            MoveAxis::R => ([0, 11, 4, 8], [0, 3, 7, 4], false, [1, 0, 2]),
            MoveAxis::B => ([3, 10, 7, 11], [2, 6, 7, 3], true, [2, 1, 0]),
            MoveAxis::L => ([2, 9, 6, 10], [1, 5, 6, 2], false, [1, 0, 2]),
            MoveAxis::D => ([4, 7, 6, 5], [4, 7, 6, 5], false, [0, 2, 1]),
        };
        proof {
            assert(f@ =~= face_edges(self.axis));
            assert(g@ =~= face_corners(self.axis));
        }
        let q: usize = match self.dir {
            MoveDirection::Clk => 1,
            MoveDirection::Dbl => 2,
            MoveDirection::CCw => 3,
        };
        let e_mask = (0x1fu64 << (f[0] * 5)) | (0x1fu64 << (f[1] * 5)) | (0x1fu64 << (f[2] * 5)) | (
        0x1fu64 << (f[3] * 5));
        let c_mask = (0x1fu64 << (g[0] * 5)) | (0x1fu64 << (g[1] * 5)) | (0x1fu64 << (g[2] * 5)) | (
        0x1fu64 << (g[3] * 5));
        let e_shifts = [
            (f[0] * 5, f[q % 4] * 5),
            (f[1] * 5, f[(1 + q) % 4] * 5),
            (f[2] * 5, f[(2 + q) % 4] * 5),
            (f[3] * 5, f[(3 + q) % 4] * 5),
        ];
        let c_shifts = [
            (g[0] * 5, g[q % 4] * 5),
            (g[1] * 5, g[(1 + q) % 4] * 5),
            (g[2] * 5, g[(2 + q) % 4] * 5),
            (g[3] * 5, g[(3 + q) % 4] * 5),
        ];
        let odd = q % 2 == 1;
        let d = MoveData {
            e_mask,
            c_mask,
            e_shifts,
            c_shifts,
            e_flip: flip && odd,
            c_ori_lut: if odd { lut } else { [0, 1, 2] },
        };
        proof {
            assert(forall|k: int| 0 <= k < 4 ==> (#[trigger] d.e_shifts[k]).0 == f[k] * 5);
        }
        d
    }
}

} // verus!

verus! {

/// An edge slot value as a move leaves it: flipped when the move flips edges.
pub open spec fn moved_edge(x: u64, mv: SingleMove, k: int) -> u64 {
    let f = face_edges(mv.axis);
    let q = spec_quarters(mv.dir);
    if face_flips(mv.axis) && q % 2 == 1 {
        slot(x, f[k]) ^ 0x10
    } else {
        slot(x, f[k])
    }
}

/// A corner slot value as a move leaves it: twisted by an odd number of quarter turns.
pub open spec fn moved_corner(x: u64, mv: SingleMove, k: int) -> u64 {
    let g = face_corners(mv.axis);
    let q = spec_quarters(mv.dir);
    if q % 2 == 1 {
        twisted(face_twist(mv.axis), slot(x, g[k]))
    } else {
        slot(x, g[k])
    }
}

/// The edge bitboard after a move.
pub open spec fn turn_edge_bits(x: u64, mv: SingleMove) -> u64 {
    let f = face_edges(mv.axis);
    let q = spec_quarters(mv.dir);
    replace4(
        x,
        mask4(f[0], f[1], f[2], f[3]),
        moved_edge(x, mv, 0),
        moved_edge(x, mv, 1),
        moved_edge(x, mv, 2),
        moved_edge(x, mv, 3),
        f[q % 4],
        f[(1 + q) % 4],
        f[(2 + q) % 4],
        f[(3 + q) % 4],
    )
}

/// The corner bitboard after a move.
pub open spec fn turn_corner_bits(x: u64, mv: SingleMove) -> u64 {
    let g = face_corners(mv.axis);
    let q = spec_quarters(mv.dir);
    replace4(
        x,
        mask4(g[0], g[1], g[2], g[3]),
        moved_corner(x, mv, 0),
        moved_corner(x, mv, 1),
        moved_corner(x, mv, 2),
        moved_corner(x, mv, 3),
        g[q % 4],
        g[(1 + q) % 4],
        g[(2 + q) % 4],
        g[(3 + q) % 4],
    )
}

proof fn lemma_twisted_bound(t: Seq<u64>, v: u64)
    requires
        v < 32,
        t.len() == 3,
        forall|o: int| 0 <= o < 3 ==> #[trigger] t[o] < 3,
    ensures
        twisted(t, v) < 32,
{
}

/// Edge slots of the bitboard a move computes.
proof fn lemma_turn_edge_slots(e: u64, mv: SingleMove)
    ensures
        forall|i: int|
            0 <= i < 12 ==> #[trigger] slot(turn_edge_bits(e, mv), i as u64) == edge_after(
                state_of(e, 0).edges,
                mv,
                i,
            ),
        high(turn_edge_bits(e, mv), 12) == high(e, 12),
{
    let f = face_edges(mv.axis);
    let q = spec_quarters(mv.dir);
    let s = state_of(e, 0).edges;
    lemma_mask4(f[0], f[1], f[2], f[3], 12);
    assert forall|k: int| 0 <= k < 4 implies #[trigger] moved_edge(e, mv, k) < 32 by {
        lemma_slot_bound(e, f[k]);
        lemma_small_bits(slot(e, f[k]), 0);
    }
    lemma_replace4(
        e,
        mask4(f[0], f[1], f[2], f[3]),
        moved_edge(e, mv, 0),
        moved_edge(e, mv, 1),
        moved_edge(e, mv, 2),
        moved_edge(e, mv, 3),
        f[q % 4],
        f[(1 + q) % 4],
        f[(2 + q) % 4],
        f[(3 + q) % 4],
        12,
    );
    assert forall|i: int| 0 <= i < 12 implies #[trigger] slot(turn_edge_bits(e, mv), i as u64)
        == edge_after(s, mv, i) by {
        assert(s[source_slot(f, q, i as u64) as int] == slot(e, source_slot(f, q, i as u64)));
    }
}

/// Corner slots of the bitboard a move computes.
#[verifier::rlimit(80)]
#[verifier::spinoff_prover]
proof fn lemma_turn_corner_slots(c: u64, mv: SingleMove)
    ensures
        forall|i: int|
            0 <= i < 8 ==> #[trigger] slot(turn_corner_bits(c, mv), i as u64) == corner_after(
                state_of(0, c).corners,
                mv,
                i,
            ),
        high(turn_corner_bits(c, mv), 8) == high(c, 8),
{
    let g = face_corners(mv.axis);
    let q = spec_quarters(mv.dir);
    let s = state_of(0, c).corners;
    let t = face_twist(mv.axis);
    lemma_mask4(g[0], g[1], g[2], g[3], 8);
    assert forall|k: int| 0 <= k < 4 implies #[trigger] moved_corner(c, mv, k) < 32 by {
        lemma_slot_bound(c, g[k]);
        lemma_twisted_bound(t, slot(c, g[k]));
    }
    lemma_replace4(
        c,
        mask4(g[0], g[1], g[2], g[3]),
        moved_corner(c, mv, 0),
        moved_corner(c, mv, 1),
        moved_corner(c, mv, 2),
        moved_corner(c, mv, 3),
        g[q % 4],
        g[(1 + q) % 4],
        g[(2 + q) % 4],
        g[(3 + q) % 4],
        8,
    );
    assert forall|i: int| 0 <= i < 8 implies #[trigger] slot(turn_corner_bits(c, mv), i as u64)
        == corner_after(s, mv, i) by {
        assert(s[source_slot(g, q, i as u64) as int] == slot(c, source_slot(g, q, i as u64)));
    }
}

/// The bitboards computed by a move hold the state `turned` describes.
pub proof fn lemma_turn_bits(e: u64, c: u64, mv: SingleMove)
    ensures
        state_of(turn_edge_bits(e, mv), turn_corner_bits(c, mv)) == turned(state_of(e, c), mv),
{
    lemma_turn_edge_slots(e, mv);
    lemma_turn_corner_slots(c, mv);
    let r = state_of(turn_edge_bits(e, mv), turn_corner_bits(c, mv));
    let w = turned(state_of(e, c), mv);
    assert(state_of(e, 0).edges =~= state_of(e, c).edges);
    assert(state_of(0, c).corners =~= state_of(e, c).corners);
    assert forall|i: int| 0 <= i < 12 implies r.edges[i] == w.edges[i] by {
        assert(r.edges[i] == slot(turn_edge_bits(e, mv), i as u64));
    }
    assert forall|i: int| 0 <= i < 8 implies r.corners[i] == w.corners[i] by {
        assert(r.corners[i] == slot(turn_corner_bits(c, mv), i as u64));
    }
    assert(r.edges =~= w.edges);
    assert(r.corners =~= w.corners);
}

} // verus!

verus! {

impl Cube {
    /// The solved cube.
    pub fn new() -> (c: Cube)
        ensures
            c@ == solved_state(),
            c.edges == EDGES_SOLVED,
            c.corners == CORNERS_SOLVED,
    {
        proof {
            lemma_solved_view();
        }
        Cube { edges: EDGES_SOLVED, corners: CORNERS_SOLVED }
    }

    /// The edge bitboard.
    pub fn edges(&self) -> (e: u64)
        ensures
            e == self.edges,
    {
        self.edges
    }

    /// The corner bitboard.
    pub fn corners(&self) -> (c: u64)
        ensures
            c == self.corners,
    {
        self.corners
    }

    /// Whether the cube is solved.
    pub fn is_solved(&self) -> (b: bool)
        ensures
            b == (self@ == solved_state()),
    {
        proof {
            lemma_solved_view();
            if self@ == solved_state() {
                lemma_view_injective(*self, Cube { edges: EDGES_SOLVED, corners: CORNERS_SOLVED });
            }
        }
        self.edges == EDGES_SOLVED && self.corners == CORNERS_SOLVED
    }

    /// Turns one face: the four edges and four corners of the face move one slot
    /// along the face cycle per quarter turn, edges flip on F and B quarter turns,
    /// and corners twist on quarter turns of any face.
    #[verifier::rlimit(40)]
    pub fn turn(&mut self, mv: &SingleMove)
        requires
            turn_ok(old(self)@, *mv),
        ensures
            final(self)@ == turned(old(self)@, *mv),
            final(self).edges == turn_edge_bits(old(self).edges, *mv),
            final(self).corners == turn_corner_bits(old(self).corners, *mv),
    {
        let data = mv.get_data();
        let ghost f = face_edges(mv.axis);
        let ghost g = face_corners(mv.axis);
        let ghost q = spec_quarters(mv.dir);
        let ghost e = self.edges;
        let ghost c = self.corners;
        let ghost t = face_twist(mv.axis);
        assert(data.e_shifts[0].0 == f[0] * 5);
        assert(data.e_shifts[1].0 == f[1] * 5);
        assert(data.e_shifts[2].0 == f[2] * 5);
        assert(data.e_shifts[3].0 == f[3] * 5);
        assert(data.c_shifts[0].0 == g[0] * 5);
        assert(data.c_shifts[1].0 == g[1] * 5);
        assert(data.c_shifts[2].0 == g[2] * 5);
        assert(data.c_shifts[3].0 == g[3] * 5);

        // Extract the pieces (5 bits each) from their source slots
        let mut e0 = (self.edges >> data.e_shifts[0].0) & 0x1F;
        let mut e1 = (self.edges >> data.e_shifts[1].0) & 0x1F;
        let mut e2 = (self.edges >> data.e_shifts[2].0) & 0x1F;
        let mut e3 = (self.edges >> data.e_shifts[3].0) & 0x1F;

        let mut c0 = (self.corners >> data.c_shifts[0].0) & 0x1F;
        let mut c1 = (self.corners >> data.c_shifts[1].0) & 0x1F;
        let mut c2 = (self.corners >> data.c_shifts[2].0) & 0x1F;
        let mut c3 = (self.corners >> data.c_shifts[3].0) & 0x1F;
        proof {
            lemma_slot_bound(c, g[0]);
            lemma_slot_bound(c, g[1]);
            lemma_slot_bound(c, g[2]);
            lemma_slot_bound(c, g[3]);
            lemma_corner_bits(c0, 0);
            lemma_corner_bits(c1, 0);
            lemma_corner_bits(c2, 0);
            lemma_corner_bits(c3, 0);
            assert(old(self)@.corners[g[0] as int] == c0);
            assert(old(self)@.corners[g[1] as int] == c1);
            assert(old(self)@.corners[g[2] as int] == c2);
            assert(old(self)@.corners[g[3] as int] == c3);
            assert(turn_ok(old(self)@, *mv) ==> old(self)@.corners[g[3] as int] / 8 < 3);
        }

        // Flip the edges where the move flips them
        if data.e_flip {
            e0 = e0 ^ 0x10;
            e1 = e1 ^ 0x10;
            e2 = e2 ^ 0x10;
            e3 = e3 ^ 0x10;
        }

        // Twist the corners by the orientation table
        let l = data.c_ori_lut;
        c0 = ((l[(c0 >> 3) as usize] as u64) << 3) | (c0 & 0x07);
        c1 = ((l[(c1 >> 3) as usize] as u64) << 3) | (c1 & 0x07);
        c2 = ((l[(c2 >> 3) as usize] as u64) << 3) | (c2 & 0x07);
        c3 = ((l[(c3 >> 3) as usize] as u64) << 3) | (c3 & 0x07);
        proof {
            lemma_corner_bits(slot(c, g[0]), l[(slot(c, g[0]) / 8) as int] as u64);
            lemma_corner_bits(slot(c, g[1]), l[(slot(c, g[1]) / 8) as int] as u64);
            lemma_corner_bits(slot(c, g[2]), l[(slot(c, g[2]) / 8) as int] as u64);
            lemma_corner_bits(slot(c, g[3]), l[(slot(c, g[3]) / 8) as int] as u64);
            assert(c0 == moved_corner(c, *mv, 0));
            assert(c1 == moved_corner(c, *mv, 1));
            assert(c2 == moved_corner(c, *mv, 2));
            assert(c3 == moved_corner(c, *mv, 3));
            assert(e0 == moved_edge(e, *mv, 0));
            assert(e1 == moved_edge(e, *mv, 1));
            assert(e2 == moved_edge(e, *mv, 2));
            assert(e3 == moved_edge(e, *mv, 3));
            assert(data.e_shifts[0].1 == f[q % 4] * 5);
            assert(data.e_shifts[1].1 == f[(1 + q) % 4] * 5);
            assert(data.e_shifts[2].1 == f[(2 + q) % 4] * 5);
            assert(data.e_shifts[3].1 == f[(3 + q) % 4] * 5);
            assert(data.c_shifts[0].1 == g[q % 4] * 5);
            assert(data.c_shifts[1].1 == g[(1 + q) % 4] * 5);
            assert(data.c_shifts[2].1 == g[(2 + q) % 4] * 5);
            assert(data.c_shifts[3].1 == g[(3 + q) % 4] * 5);
        }

        // Put the pieces into their destination slots
        let e_ins = (e0 << data.e_shifts[0].1) | (e1 << data.e_shifts[1].1) | (e2
            << data.e_shifts[2].1) | (e3 << data.e_shifts[3].1);
        let c_ins = (c0 << data.c_shifts[0].1) | (c1 << data.c_shifts[1].1) | (c2
            << data.c_shifts[2].1) | (c3 << data.c_shifts[3].1);
        self.edges = (self.edges & !data.e_mask) | e_ins;
        self.corners = (self.corners & !data.c_mask) | c_ins;
        proof {
            lemma_turn_bits(e, c, *mv);
        }
    }
}

} // verus!

verus! {

proof fn lemma_twisted_twice(t: Seq<u64>, v: u64)
    requires
        t.len() == 3,
        forall|o: int| 0 <= o < 3 ==> #[trigger] t[o] < 3 && t[t[o] as int] == o,
    ensures
        twisted(t, twisted(t, v)) == v,
        twisted(t, v) / 8 < 3 <==> v / 8 < 3,
{
}

/// The four slots of a face cycle are distinct.
pub open spec fn cycle4(f: Seq<u64>) -> bool {
    &&& f.len() == 4
    &&& f[0] != f[1] && f[0] != f[2] && f[0] != f[3] && f[1] != f[2] && f[1] != f[3] && f[2] != f[3]
}

pub proof fn lemma_face_cycles(axis: MoveAxis)
    ensures
        cycle4(face_edges(axis)),
        cycle4(face_corners(axis)),
        forall|k: int| 0 <= k < 4 ==> #[trigger] face_edges(axis)[k] < 12,
        forall|k: int| 0 <= k < 4 ==> #[trigger] face_corners(axis)[k] < 8,
        face_twist(axis).len() == 3,
        forall|o: int|
            0 <= o < 3 ==> #[trigger] face_twist(axis)[o] < 3 && face_twist(axis)[face_twist(
                axis,
            )[o] as int] == o,
{
}

/// Moving along a face cycle by `q` and then by `p` quarter turns, with `p + q` a
/// whole number of turns, comes back to the start.
pub proof fn lemma_source_back(f: Seq<u64>, q: int, p: int, i: u64)
    requires
        cycle4(f),
        1 <= q <= 3,
        1 <= p <= 3,
        (p + q) % 4 == 0,
    ensures
        source_slot(f, q, source_slot(f, p, i)) == i,
        face_pos(f, source_slot(f, p, i)) >= 0 <==> face_pos(f, i) >= 0,
{
}

proof fn lemma_invert_quarters_back(mv: SingleMove)
    ensures
        (spec_quarters(mv.dir) + spec_quarters(spec_invert(mv).dir)) % 4 == 0,
        spec_quarters(spec_invert(mv).dir) % 2 == spec_quarters(mv.dir) % 2,
        1 <= spec_quarters(mv.dir) <= 3,
        1 <= spec_quarters(spec_invert(mv).dir) <= 3,
        spec_invert(mv).axis == mv.axis,
{
}

/// Undoing a move: a face turn followed by the inverse turn leaves every state as it was.
pub proof fn lemma_turn_then_invert(s: CubeState, mv: SingleMove)
    requires
        s.edges.len() == 12,
        s.corners.len() == 8,
    ensures
        turned(turned(s, mv), spec_invert(mv)) == s,
        turn_ok(s, mv) ==> turn_ok(turned(s, mv), spec_invert(mv)),
{
    let inv = spec_invert(mv);
    let t1 = turned(s, mv);
    let t2 = turned(t1, inv);
    let f = face_edges(mv.axis);
    let g = face_corners(mv.axis);
    let q = spec_quarters(mv.dir);
    let p = spec_quarters(inv.dir);
    let tw = face_twist(mv.axis);
    lemma_face_cycles(mv.axis);
    lemma_invert_quarters_back(mv);
    assert forall|i: int| 0 <= i < 12 implies t2.edges[i] == s.edges[i] by {
        lemma_source_back(f, q, p, i as u64);
        let j = source_slot(f, p, i as u64);
        assert(t2.edges[i] == edge_after(t1.edges, inv, i));
        assert(t1.edges[j as int] == edge_after(s.edges, mv, j as int));
        lemma_xor_twice(s.edges[i]);
    }
    assert forall|i: int| 0 <= i < 8 implies t2.corners[i] == s.corners[i] by {
        lemma_source_back(g, q, p, i as u64);
        let j = source_slot(g, p, i as u64);
        assert(t2.corners[i] == corner_after(t1.corners, inv, i));
        assert(t1.corners[j as int] == corner_after(s.corners, mv, j as int));
        lemma_twisted_twice(tw, s.corners[i]);
    }
    assert(t2.edges =~= s.edges);
    assert(t2.corners =~= s.corners);
    if turn_ok(s, mv) {
        assert forall|k: int| 0 <= k < 4 implies #[trigger] t1.corners[g[k] as int] / 8 < 3 by {
            let src = source_slot(g, q, g[k]);
            assert(t1.corners[g[k] as int] == corner_after(s.corners, mv, g[k] as int));
            assert(face_pos(g, g[k]) >= 0);
            assert(s.corners[src as int] / 8 < 3);
            lemma_twisted_twice(tw, s.corners[src as int]);
        }
    }
}

} // verus!

verus! {

proof fn lemma_u128_split(e: u64, c: u64, r: u128)
    by (bit_vector)
    ensures
        ((e as u128) << 64) | (c as u128) == (e as u128) * 0x1_0000_0000_0000_0000u128 + (c as u128),
        (r >> 64) as u64 == r / 0x1_0000_0000_0000_0000u128,
        r as u64 == r % 0x1_0000_0000_0000_0000u128,
{
}

impl Cube {
    /// The cube whose edge bitboard is the high half of `representation` and whose
    /// corner bitboard is the low half.
    pub fn new_from_minimal(representation: u128) -> (c: Cube)
        ensures
            c.edges == representation / 0x1_0000_0000_0000_0000u128,
            c.corners == representation % 0x1_0000_0000_0000_0000u128,
    {
        proof {
            lemma_u128_split(0, 0, representation);
        }
        let edges = (representation >> 64) as u64;
        let corners = representation as u64;
        Cube { edges, corners }
    }

    /// Both bitboards in one number: edges in the high half, corners in the low half.
    pub fn minimal_representation(&self) -> (r: u128)
        ensures
            r == self.edges * 0x1_0000_0000_0000_0000u128 + self.corners,
    {
        proof {
            lemma_u128_split(self.edges, self.corners, 0);
        }
        ((self.edges as u128) << 64) | (self.corners as u128)
    }
}

/// A cube rebuilt from its minimal representation is the same cube.
pub proof fn lemma_minimal_roundtrip(c: Cube)
    ensures
        ({
            let r = c.edges * 0x1_0000_0000_0000_0000int + c.corners;
            r / 0x1_0000_0000_0000_0000int == c.edges && r % 0x1_0000_0000_0000_0000int
                == c.corners
        }),
{
    let r = c.edges * 0x1_0000_0000_0000_0000int + c.corners;
    assert(r / 0x1_0000_0000_0000_0000int == c.edges && r % 0x1_0000_0000_0000_0000int
        == c.corners) by (nonlinear_arith)
        requires
            r == c.edges * 0x1_0000_0000_0000_0000int + c.corners,
            c.corners < 0x1_0000_0000_0000_0000int,
    ;
}

} // verus!

verus! {

/// Every corner of the state has orientation 0, 1 or 2.
pub open spec fn oris_ok(s: CubeState) -> bool {
    &&& s.corners.len() == 8
    &&& s.edges.len() == 12
    &&& forall|i: int| 0 <= i < 8 ==> #[trigger] s.corners[i] / 8 < 3
}

/// A state whose corner orientations are all 0, 1 or 2 can be turned by any move,
/// and stays so.
pub proof fn lemma_turn_keeps_oris(s: CubeState, mv: SingleMove)
    requires
        oris_ok(s),
    ensures
        turn_ok(s, mv),
        oris_ok(turned(s, mv)),
{
    lemma_face_cycles(mv.axis);
    let g = face_corners(mv.axis);
    let q = spec_quarters(mv.dir);
    let t = turned(s, mv);
    assert forall|i: int| 0 <= i < 8 implies #[trigger] t.corners[i] / 8 < 3 by {
        let src = source_slot(g, q, i as u64);
        assert(t.corners[i] == corner_after(s.corners, mv, i));
        assert(s.corners[src as int] / 8 < 3);
        lemma_twisted_twice(face_twist(mv.axis), s.corners[src as int]);
    }
}

/// From such a state any sequence of moves can be made.
pub proof fn lemma_apply_ok(s: CubeState, moves: Seq<SingleMove>)
    requires
        oris_ok(s),
    ensures
        apply_ok(s, moves),
        oris_ok(apply_moves(s, moves)),
    decreases moves.len(),
{
    if moves.len() > 0 {
        lemma_turn_keeps_oris(s, moves[0]);
        lemma_apply_ok(turned(s, moves[0]), moves.drop_first());
    }
}

pub proof fn lemma_solved_oris_ok()
    ensures
        oris_ok(solved_state()),
{
}

/// Making `l1` and then `l2` is making `l1 + l2`.
pub proof fn lemma_apply_concat(s: CubeState, l1: Seq<SingleMove>, l2: Seq<SingleMove>)
    ensures
        apply_moves(s, l1 + l2) == apply_moves(apply_moves(s, l1), l2),
        apply_ok(s, l1 + l2) == (apply_ok(s, l1) && apply_ok(apply_moves(s, l1), l2)),
    decreases l1.len(),
{
    if l1.len() > 0 {
        assert((l1 + l2).drop_first() =~= l1.drop_first() + l2);
        assert((l1 + l2)[0] == l1[0]);
        lemma_apply_concat(turned(s, l1[0]), l1.drop_first(), l2);
    } else {
        assert(l1 + l2 =~= l2);
    }
}

pub proof fn lemma_apply_push(s: CubeState, l: Seq<SingleMove>, m: SingleMove)
    ensures
        apply_moves(s, l.push(m)) == turned(apply_moves(s, l), m),
{
    lemma_apply_concat(s, l, seq![m]);
    assert(l.push(m) =~= l + seq![m]);
    let t = apply_moves(s, l);
    assert(seq![m].drop_first() =~= Seq::<SingleMove>::empty());
    assert(apply_moves(turned(t, m), Seq::<SingleMove>::empty()) == turned(t, m));
    assert(apply_moves(t, seq![m]) == apply_moves(turned(t, seq![m][0]), seq![m].drop_first()));
}

proof fn lemma_source_compose(f: Seq<u64>, qa: int, qb: int, i: u64)
    requires
        cycle4(f),
        1 <= qa <= 3,
        1 <= qb <= 3,
    ensures
        (qa + qb) % 4 != 0 ==> source_slot(f, qa, source_slot(f, qb, i)) == source_slot(
            f,
            (qa + qb) % 4,
            i,
        ),
        (qa + qb) % 4 == 0 ==> source_slot(f, qa, source_slot(f, qb, i)) == i,
        face_pos(f, source_slot(f, qb, i)) >= 0 <==> face_pos(f, i) >= 0,
{
}

#[verifier::spinoff_prover]
#[verifier::rlimit(40)]
proof fn lemma_turn_combine_edges(s: CubeState, a: SingleMove, b: SingleMove, i: int)
    requires
        s.edges.len() == 12,
        s.corners.len() == 8,
        a.axis == b.axis,
        0 <= i < 12,
    ensures
        turned(turned(s, a), b).edges[i] == (match spec_combine(a, b) {
            Some(c) => turned(s, c),
            None => s,
        }).edges[i],
{
    let f = face_edges(a.axis);
    let qa = spec_quarters(a.dir);
    let qb = spec_quarters(b.dir);
    lemma_face_cycles(a.axis);
    let t1 = turned(s, a);
    lemma_source_compose(f, qa, qb, i as u64);
    let j = source_slot(f, qb, i as u64);
    assert(turned(t1, b).edges[i] == edge_after(t1.edges, b, i));
    assert(t1.edges[j as int] == edge_after(s.edges, a, j as int));
    lemma_xor_twice(s.edges[source_slot(f, qa, j) as int]);
}

#[verifier::spinoff_prover]
#[verifier::rlimit(40)]
proof fn lemma_turn_combine_corners(s: CubeState, a: SingleMove, b: SingleMove, i: int)
    requires
        s.edges.len() == 12,
        s.corners.len() == 8,
        a.axis == b.axis,
        0 <= i < 8,
    ensures
        turned(turned(s, a), b).corners[i] == (match spec_combine(a, b) {
            Some(c) => turned(s, c),
            None => s,
        }).corners[i],
{
    let g = face_corners(a.axis);
    let qa = spec_quarters(a.dir);
    let qb = spec_quarters(b.dir);
    let tw = face_twist(a.axis);
    lemma_face_cycles(a.axis);
    let t1 = turned(s, a);
    lemma_source_compose(g, qa, qb, i as u64);
    let j = source_slot(g, qb, i as u64);
    assert(turned(t1, b).corners[i] == corner_after(t1.corners, b, i));
    assert(t1.corners[j as int] == corner_after(s.corners, a, j as int));
    lemma_twisted_twice(tw, s.corners[source_slot(g, qa, j) as int]);
}

/// Two turns of one face make the combined turn, or nothing when they cancel.
pub proof fn lemma_turn_combine(s: CubeState, a: SingleMove, b: SingleMove)
    requires
        s.edges.len() == 12,
        s.corners.len() == 8,
        a.axis == b.axis,
    ensures
        turned(turned(s, a), b) == match spec_combine(a, b) {
            Some(c) => turned(s, c),
            None => s,
        },
{
    let t2 = turned(turned(s, a), b);
    let r = match spec_combine(a, b) {
        Some(c) => turned(s, c),
        None => s,
    };
    assert forall|i: int| 0 <= i < 12 implies t2.edges[i] == r.edges[i] by {
        lemma_turn_combine_edges(s, a, b, i);
    }
    assert forall|i: int| 0 <= i < 8 implies t2.corners[i] == r.corners[i] by {
        lemma_turn_combine_corners(s, a, b, i);
    }
    assert(t2.edges =~= r.edges);
    assert(t2.corners =~= r.corners);
}

proof fn lemma_opposite_faces_apart(a: MoveAxis, b: MoveAxis)
    requires
        a != b,
        spec_group(a) == spec_group(b),
    ensures
        forall|i: u64| face_pos(face_edges(a), i) >= 0 ==> face_pos(face_edges(b), i) < 0,
        forall|i: u64| face_pos(face_corners(a), i) >= 0 ==> face_pos(face_corners(b), i) < 0,
{
}

/// Turns of opposite faces commute.
pub proof fn lemma_turn_commute(s: CubeState, a: SingleMove, b: SingleMove)
    requires
        s.edges.len() == 12,
        s.corners.len() == 8,
        a.axis != b.axis,
        spec_group(a.axis) == spec_group(b.axis),
    ensures
        turned(turned(s, a), b) == turned(turned(s, b), a),
{
    lemma_face_cycles(a.axis);
    lemma_face_cycles(b.axis);
    lemma_opposite_faces_apart(a.axis, b.axis);
    lemma_opposite_faces_apart(b.axis, a.axis);
    let x = turned(turned(s, a), b);
    let y = turned(turned(s, b), a);
    let fa = face_edges(a.axis);
    let fb = face_edges(b.axis);
    let ga = face_corners(a.axis);
    let gb = face_corners(b.axis);
    let qa = spec_quarters(a.dir);
    let qb = spec_quarters(b.dir);
    assert forall|i: int| 0 <= i < 12 implies x.edges[i] == y.edges[i] by {
        lemma_source_compose(fa, qa, qa, i as u64);
        lemma_source_compose(fb, qb, qb, i as u64);
        assert(x.edges[i] == edge_after(turned(s, a).edges, b, i));
        assert(y.edges[i] == edge_after(turned(s, b).edges, a, i));
        let ja = source_slot(fa, qa, i as u64);
        let jb = source_slot(fb, qb, i as u64);
        assert(turned(s, a).edges[jb as int] == edge_after(s.edges, a, jb as int));
        assert(turned(s, b).edges[ja as int] == edge_after(s.edges, b, ja as int));
    }
    assert forall|i: int| 0 <= i < 8 implies x.corners[i] == y.corners[i] by {
        lemma_source_compose(ga, qa, qa, i as u64);
        lemma_source_compose(gb, qb, qb, i as u64);
        assert(x.corners[i] == corner_after(turned(s, a).corners, b, i));
        assert(y.corners[i] == corner_after(turned(s, b).corners, a, i));
        let ja = source_slot(ga, qa, i as u64);
        let jb = source_slot(gb, qb, i as u64);
        assert(turned(s, a).corners[jb as int] == corner_after(s.corners, a, jb as int));
        assert(turned(s, b).corners[ja as int] == corner_after(s.corners, b, ja as int));
    }
    assert(x.edges =~= y.edges);
    assert(x.corners =~= y.corners);
}

} // verus!

verus! {

/// A state with twelve edge slots and eight corner slots.
pub open spec fn well_sized(s: CubeState) -> bool {
    s.edges.len() == 12 && s.corners.len() == 8
}

pub proof fn lemma_apply_sized(s: CubeState, moves: Seq<SingleMove>)
    requires
        well_sized(s),
    ensures
        well_sized(apply_moves(s, moves)),
    decreases moves.len(),
{
    if moves.len() > 0 {
        lemma_apply_sized(turned(s, moves[0]), moves.drop_first());
    }
}

/// Stitching a move onto a list does not change what the list does to a cube.
pub proof fn lemma_stitch_effect(s: CubeState, l: Seq<SingleMove>, m: SingleMove)
    requires
        well_sized(s),
    ensures
        apply_moves(s, stitch(l, m)) == apply_moves(s, l.push(m)),
{
    let n = l.len();
    lemma_apply_push(s, l, m);
    if n == 0 {
        assert(l.push(m) =~= seq![m]);
    } else if l[n - 1].axis == m.axis {
        let l1 = l.drop_last();
        assert(l1.push(l[n - 1]) =~= l);
        lemma_apply_push(s, l1, l[n - 1]);
        lemma_apply_sized(s, l1);
        lemma_turn_combine(apply_moves(s, l1), l[n - 1], m);
        match spec_combine(l[n - 1], m) {
            Some(c) => {
                lemma_apply_push(s, l1, c);
            },
            None => {},
        }
    } else if n >= 2 && l[n - 2].axis == m.axis && spec_group(l[n - 2].axis) == spec_group(
        l[n - 1].axis,
    ) {
        let base = l.take(n - 2);
        let a = l[n - 2];
        let b = l[n - 1];
        assert(base.push(a).push(b) =~= l);
        lemma_apply_push(s, base, a);
        lemma_apply_push(s, base.push(a), b);
        lemma_apply_sized(s, base);
        let x = apply_moves(s, base);
        lemma_turn_commute(turned(x, a), b, m);
        lemma_turn_combine(x, a, m);
        match spec_combine(a, m) {
            Some(c) => {
                lemma_apply_push(s, base, c);
                lemma_apply_push(s, base.push(c), b);
            },
            None => {
                lemma_apply_push(s, base, b);
            },
        }
    }
}

/// The moves of `Scramble::from_moves` do to a cube what the moves it was given do.
pub proof fn lemma_stitch_all_effect(s: CubeState, moves: Seq<SingleMove>)
    requires
        well_sized(s),
    ensures
        apply_moves(s, stitch_all(moves)) == apply_moves(s, moves),
    decreases moves.len(),
{
    if moves.len() > 0 {
        let init = moves.drop_last();
        lemma_stitch_all_effect(s, init);
        lemma_stitch_effect(s, stitch_all(init), moves.last());
        lemma_apply_push(s, stitch_all(init), moves.last());
        lemma_apply_push(s, init, moves.last());
        assert(init.push(moves.last()) =~= moves);
    }
}

impl Cube {
    /// Makes every move of the scramble, in order.
    pub fn apply(&mut self, move_list: &Scramble)
        requires
            apply_ok(old(self)@, move_list.move_list@),
        ensures
            final(self)@ == apply_moves(old(self)@, move_list.move_list@),
    {
        let n = move_list.move_list.len();
        let ghost start = self@;
        let ghost moves = move_list.move_list@;
        let mut i: usize = 0;
        proof {
            assert(moves.skip(0) =~= moves);
        }
        while i < n
            invariant
                n == moves.len(),
                moves == move_list.move_list@,
                i <= n,
                apply_moves(self@, moves.skip(i as int)) == apply_moves(start, moves),
                apply_ok(self@, moves.skip(i as int)),
            decreases n - i,
        {
            let mv = move_list.move_list[i];
            proof {
                let rest = moves.skip(i as int);
                assert(rest[0] == mv);
                assert(rest.drop_first() =~= moves.skip(i + 1));
            }
            self.turn(&mv);
            i = i + 1;
        }
        proof {
            assert(moves.skip(n as int) =~= Seq::<SingleMove>::empty());
        }
    }

    /// A cube scrambled by `Scramble::random` with `size` moves (25 when `size` is 0).
    pub fn new_random(size: usize) -> (c: Cube)
        ensures
            exists|ms: Seq<SingleMove>|
                #![trigger apply_moves(solved_state(), ms)]
                is_clean(ms) && ms.len() == (if size == 0 {
                    25
                } else {
                    size
                }) && c@ == apply_moves(solved_state(), ms) && exists|draws: Seq<(int, int)>|
                    #![trigger built_from_draws(draws)]
                    draws_ok(draws) && ms == built_from_draws(draws),
    {
        let initial_scramble = if size == 0 {
            Scramble::random(25)
        } else {
            Scramble::random(size)
        };
        let cube = Cube::new_with(&initial_scramble);
        proof {
            let ms = initial_scramble.move_list@;
            assert(is_clean(ms) && ms.len() == (if size == 0 {
                25
            } else {
                size
            }) && cube@ == apply_moves(solved_state(), ms));
        }
        cube
    }

    /// The solved cube with the scramble applied.
    pub fn new_with(move_list: &Scramble) -> (c: Cube)
        ensures
            c@ == apply_moves(solved_state(), move_list.move_list@),
    {
        let mut cube = Cube::new();
        proof {
            lemma_apply_ok(solved_state(), move_list.move_list@);
        }
        cube.apply(move_list);
        cube
    }
}

} // verus!

verus! {

/// The corner slots a face turn cycles.
fn face_corner_slots(axis: MoveAxis) -> (r: [u64; 4])
    ensures
        r@ == face_corners(axis),
{
    let r: [u64; 4] = match axis {
        MoveAxis::U => [0, 1, 2, 3],
        MoveAxis::F => [0, 4, 5, 1],
        MoveAxis::R => [0, 3, 7, 4],
        MoveAxis::B => [2, 6, 7, 3],
        MoveAxis::L => [1, 5, 6, 2],
        MoveAxis::D => [4, 7, 6, 5],
    };
    proof {
        assert(r@ =~= face_corners(axis));
    }
    r
}

proof fn lemma_ori_bits(v: u64)
    by (bit_vector)
    requires
        v < 32,
    ensures
        ((v >> 3) & 3 != 3) == (v / 8 < 3),
{
}

impl Cube {
    /// Whether the move can be made: the corners it moves have orientation 0, 1 or 2.
    pub fn can_turn(&self, mv: &SingleMove) -> (b: bool)
        ensures
            b == turn_ok(self@, *mv),
    {
        let slots = face_corner_slots(mv.axis);
        let mut k: usize = 0;
        while k < 4
            invariant
                k <= 4,
                slots@ == face_corners(mv.axis),
                forall|j: int| 0 <= j < k ==> #[trigger] self@.corners[face_corners(mv.axis)[j] as int] / 8 < 3,
            decreases 4 - k,
        {
            let s = slots[k];
            proof {
                assert(s < 8);
            }
            let v = (self.corners >> (5 * s)) & 0b11111;
            proof {
                assert(v == slot(self.corners, s));
                lemma_slot_bound(self.corners, s);
                lemma_ori_bits(v);
            }
            if (v >> 3) & 3 == 3 {
                proof {
                    assert(self@.corners[face_corners(mv.axis)[k as int] as int] / 8 >= 3);
                }
                return false;
            }
            k = k + 1;
        }
        true
    }
}

} // verus!

verus! {

impl Cube {
    /// Whether every move of the scramble can be made, in turn, from this cube.
    pub fn can_apply(&self, move_list: &Scramble) -> (b: bool)
        ensures
            b == apply_ok(self@, move_list.move_list@),
    {
        let moves = &move_list.move_list;
        let ghost all = moves@;
        let mut cur = *self;
        let mut i: usize = 0;
        proof {
            assert(all.skip(0) =~= all);
        }
        while i < moves.len()
            invariant
                all == moves@,
                all == move_list.move_list@,
                i <= all.len(),
                apply_ok(self@, all) == apply_ok(cur@, all.skip(i as int)),
            decreases all.len() - i,
        {
            let m = moves[i];
            proof {
                let rest = all.skip(i as int);
                assert(rest[0] == m);
                assert(rest.drop_first() =~= all.skip(i + 1));
            }
            if !cur.can_turn(&m) {
                proof {
                    let rest = all.skip(i as int);
                    assert(rest.len() > 0);
                    assert(!turn_ok(cur@, rest[0]));
                    assert(!apply_ok(cur@, rest));
                }
                return false;
            }
            cur.turn(&m);
            i = i + 1;
        }
        proof {
            assert(all.skip(all.len() as int) =~= Seq::<SingleMove>::empty());
        }
        true
    }
}

} // verus!
