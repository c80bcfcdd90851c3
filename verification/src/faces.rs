//! The stickers of a cube: the colour on each of the 54 facelets, read from the
//! bitboards, and the cube drawn as an unfolded net.

use vstd::prelude::*;
use crate::bitboard::{slot, lemma_slot_bound};
use crate::cube::{Cube, CubeState};

verus! {

/// Colour `k` (0 or 1) of edge piece `id`: its U/D or F/B colour first.
pub open spec fn edge_color_of(id: int, k: int) -> char {
    let pair: Seq<char> = if id == 0 {
        seq!['W', 'R']
    } else if id == 1 {
        seq!['W', 'G']
    } else if id == 2 {
        seq!['W', 'O']
    } else if id == 3 {
        seq!['W', 'B']
    } else if id == 4 {
        seq!['Y', 'R']
    } else if id == 5 {
        seq!['Y', 'G']
    } else if id == 6 {
        seq!['Y', 'O']
    } else if id == 7 {
        seq!['Y', 'B']
    } else if id == 8 {
        seq!['G', 'R']
    } else if id == 9 {
        seq!['G', 'O']
    } else if id == 10 {
        seq!['B', 'O']
    } else {
        seq!['B', 'R']
    };
    pair[k]
}

/// Colour `k` (0 to 2) of corner piece `id`: U/D colour, F/B colour, R/L colour.
pub open spec fn corner_color_of(id: int, k: int) -> char {
    let triple: Seq<char> = if id == 0 {
        seq!['W', 'G', 'R']
    } else if id == 1 {
        seq!['W', 'G', 'O']
    } else if id == 2 {
        seq!['W', 'B', 'O']
    } else if id == 3 {
        seq!['W', 'B', 'R']
    } else if id == 4 {
        seq!['Y', 'G', 'R']
    } else if id == 5 {
        seq!['Y', 'G', 'O']
    } else if id == 6 {
        seq!['Y', 'B', 'O']
    } else {
        seq!['Y', 'B', 'R']
    };
    triple[k]
}

/// Which colour of a corner piece shows on sticker `sticker` of its slot, given the
/// relative parity of slot and piece and the piece's orientation.
pub open spec fn corner_index(rel: int, ori: int, sticker: int) -> int {
    let perm: Seq<int> = if rel == 0 && ori == 1 {
        seq![2, 0, 1]
    } else if rel == 0 && ori == 2 {
        seq![1, 2, 0]
    } else if rel == 1 && ori == 0 {
        seq![0, 2, 1]
    } else if rel == 1 && ori == 1 {
        seq![1, 0, 2]
    } else if rel == 1 && ori == 2 {
        seq![2, 1, 0]
    } else {
        seq![0, 1, 2]
    };
    perm[sticker]
}

/// The colour on sticker `sticker` (0 or 1) of edge slot `slot`.
pub open spec fn edge_sticker(s: CubeState, slot: int, sticker: int) -> char {
    let v = s.edges[slot];
    edge_color_of((v % 16) as int, (sticker + v / 16) % 2)
}

/// The parity of a corner position: bit 0 xor bit 2.
pub open spec fn corner_parity(i: int) -> int {
    (i % 2 + i / 4) % 2
}

/// The colour on sticker `sticker` (0 to 2) of corner slot `slot`.
pub open spec fn corner_sticker(s: CubeState, slot: int, sticker: int) -> char {
    let v = s.corners[slot];
    let pos = (v % 8) as int;
    let ori = ((v / 8) % 4) as int;
    let rel = (corner_parity(slot) + corner_parity(pos)) % 2;
    corner_color_of(pos, corner_index(rel, ori, sticker))
}

/// The colour of cell `k` (row-major, 0 to 8) of face `f` (U, F, R, B, L, D).
pub open spec fn sticker(s: CubeState, f: int, k: int) -> char {
    if f == 0 && k == 0 {
        corner_sticker(s, 2, 0)
    } else if f == 0 && k == 1 {
        edge_sticker(s, 3, 0)
    } else if f == 0 && k == 2 {
        corner_sticker(s, 3, 0)
    } else if f == 0 && k == 3 {
        edge_sticker(s, 2, 0)
    } else if f == 0 && k == 4 {
        'W'
    } else if f == 0 && k == 5 {
        edge_sticker(s, 0, 0)
    } else if f == 0 && k == 6 {
        corner_sticker(s, 1, 0)
    } else if f == 0 && k == 7 {
        edge_sticker(s, 1, 0)
    } else if f == 0 && k == 8 {
        corner_sticker(s, 0, 0)
    } else if f == 1 && k == 0 {
        corner_sticker(s, 1, 1)
    } else if f == 1 && k == 1 {
        edge_sticker(s, 1, 1)
    } else if f == 1 && k == 2 {
        corner_sticker(s, 0, 1)
    } else if f == 1 && k == 3 {
        edge_sticker(s, 9, 0)
    } else if f == 1 && k == 4 {
        'G'
    } else if f == 1 && k == 5 {
        edge_sticker(s, 8, 0)
    } else if f == 1 && k == 6 {
        corner_sticker(s, 5, 1)
    } else if f == 1 && k == 7 {
        edge_sticker(s, 5, 1)
    } else if f == 1 && k == 8 {
        corner_sticker(s, 4, 1)
    } else if f == 2 && k == 0 {
        corner_sticker(s, 0, 2)
    } else if f == 2 && k == 1 {
        edge_sticker(s, 0, 1)
    } else if f == 2 && k == 2 {
        corner_sticker(s, 3, 2)
    } else if f == 2 && k == 3 {
        edge_sticker(s, 8, 1)
    } else if f == 2 && k == 4 {
        'R'
    } else if f == 2 && k == 5 {
        edge_sticker(s, 11, 1)
    } else if f == 2 && k == 6 {
        corner_sticker(s, 4, 2)
    } else if f == 2 && k == 7 {
        edge_sticker(s, 4, 1)
    } else if f == 2 && k == 8 {
        corner_sticker(s, 7, 2)
    } else if f == 3 && k == 0 {
        corner_sticker(s, 3, 1)
    } else if f == 3 && k == 1 {
        edge_sticker(s, 3, 1)
    } else if f == 3 && k == 2 {
        corner_sticker(s, 2, 1)
    } else if f == 3 && k == 3 {
        edge_sticker(s, 11, 0)
    } else if f == 3 && k == 4 {
        'B'
    } else if f == 3 && k == 5 {
        edge_sticker(s, 10, 0)
    } else if f == 3 && k == 6 {
        corner_sticker(s, 7, 1)
    } else if f == 3 && k == 7 {
        edge_sticker(s, 7, 1)
    } else if f == 3 && k == 8 {
        corner_sticker(s, 6, 1)
    } else if f == 4 && k == 0 {
        corner_sticker(s, 2, 2)
    } else if f == 4 && k == 1 {
        edge_sticker(s, 2, 1)
    } else if f == 4 && k == 2 {
        corner_sticker(s, 1, 2)
    } else if f == 4 && k == 3 {
        edge_sticker(s, 10, 1)
    } else if f == 4 && k == 4 {
        'O'
    } else if f == 4 && k == 5 {
        edge_sticker(s, 9, 1)
    } else if f == 4 && k == 6 {
        corner_sticker(s, 6, 2)
    } else if f == 4 && k == 7 {
        edge_sticker(s, 6, 1)
    } else if f == 4 && k == 8 {
        corner_sticker(s, 5, 2)
    } else if f == 5 && k == 0 {
        corner_sticker(s, 5, 0)
    } else if f == 5 && k == 1 {
        edge_sticker(s, 5, 0)
    } else if f == 5 && k == 2 {
        corner_sticker(s, 4, 0)
    } else if f == 5 && k == 3 {
        edge_sticker(s, 6, 0)
    } else if f == 5 && k == 4 {
        'Y'
    } else if f == 5 && k == 5 {
        edge_sticker(s, 4, 0)
    } else if f == 5 && k == 6 {
        corner_sticker(s, 6, 0)
    } else if f == 5 && k == 7 {
        edge_sticker(s, 7, 0)
    } else {
        corner_sticker(s, 7, 0)
    }
}

/// Every edge slot holds one of the twelve edge pieces, so each sticker has a colour.
pub open spec fn colors_ok(s: CubeState) -> bool {
    &&& s.edges.len() == 12
    &&& s.corners.len() == 8
    &&& forall|i: int| 0 <= i < 12 ==> #[trigger] s.edges[i] % 16 < 12
}

/// The six faces, nine cells each, face by face in the order U, F, R, B, L, D.
pub open spec fn face_data(s: CubeState) -> Seq<char> {
    Seq::new(54, |i: int| sticker(s, i / 9, i % 9))
}

/// The face shown at position `j` of the net: U, L, F, R, B, D.
pub open spec fn net_face(j: int) -> int {
    if j == 0 {
        0
    } else if j == 1 {
        4
    } else if j == 2 {
        1
    } else if j == 3 {
        2
    } else if j == 4 {
        3
    } else {
        5
    }
}

/// The 54 stickers in the order U, L, F, R, B, D, each face row by row.
pub open spec fn net_of(s: CubeState) -> Seq<char> {
    Seq::new(54, |i: int| sticker(s, net_face(i / 9), i % 9))
}

/// One of the six sticker colours.
pub open spec fn is_color(c: char) -> bool {
    c == 'W' || c == 'G' || c == 'R' || c == 'B' || c == 'O' || c == 'Y'
}

proof fn lemma_edge_bits(val: u64)
    by (bit_vector)
    requires
        val < 32,
    ensures
        val >> 4 == val / 16,
        val & 0b1111 == val % 16,
        (val >> 3) & 0b11 == (val / 8) % 4,
        val & 0b111 == val % 8,
        val / 16 < 2,
{
}

proof fn lemma_xor_bit(a: u64, b: u64)
    by (bit_vector)
    requires
        a < 2,
        b < 2,
    ensures
        (a ^ b) % 2 == (a + b) % 2,
        (a ^ b) < 2,
{
}

/// Colour `k` of edge piece `id`.
fn edge_color(id: u64, k: u64) -> (c: char)
    requires
        id < 12,
        k < 2,
    ensures
        c == edge_color_of(id as int, k as int),
        is_color(c),
{
    let (a, b) = if id == 0 {
        ('W', 'R')
    } else if id == 1 {
        ('W', 'G')
    } else if id == 2 {
        ('W', 'O')
    } else if id == 3 {
        ('W', 'B')
    } else if id == 4 {
        ('Y', 'R')
    } else if id == 5 {
        ('Y', 'G')
    } else if id == 6 {
        ('Y', 'O')
    } else if id == 7 {
        ('Y', 'B')
    } else if id == 8 {
        ('G', 'R')
    } else if id == 9 {
        ('G', 'O')
    } else if id == 10 {
        ('B', 'O')
    } else {
        ('B', 'R')
    };
    if k == 0 {
        a
    } else {
        b
    }
}

/// Colour `k` of corner piece `id`.
fn corner_color(id: u64, k: u64) -> (c: char)
    requires
        id < 8,
        k < 3,
    ensures
        c == corner_color_of(id as int, k as int),
        is_color(c),
{
    let (a, b, d) = if id == 0 {
        ('W', 'G', 'R')
    } else if id == 1 {
        ('W', 'G', 'O')
    } else if id == 2 {
        ('W', 'B', 'O')
    } else if id == 3 {
        ('W', 'B', 'R')
    } else if id == 4 {
        ('Y', 'G', 'R')
    } else if id == 5 {
        ('Y', 'G', 'O')
    } else if id == 6 {
        ('Y', 'B', 'O')
    } else {
        ('Y', 'B', 'R')
    };
    if k == 0 {
        a
    } else if k == 1 {
        b
    } else {
        d
    }
}

impl Cube {
    /// The orientation and piece id in edge slot `i`.
    fn get_edge_slot(&self, i: u64) -> (r: (u64, u64))
        requires
            i < 12,
        ensures
            r.0 == self@.edges[i as int] / 16,
            r.1 == self@.edges[i as int] % 16,
            r.0 < 2,
    {
        let val = (self.edges >> (5 * i)) & 0b11111;
        proof {
            assert(val == slot(self.edges, i));
            lemma_slot_bound(self.edges, i);
            lemma_edge_bits(val);
        }
        (val >> 4, val & 0b1111)
    }

    /// The orientation and piece id in corner slot `i`.
    fn get_corner_slot(&self, i: u64) -> (r: (u64, u64))
        requires
            i < 8,
        ensures
            r.0 == (self@.corners[i as int] / 8) % 4,
            r.1 == self@.corners[i as int] % 8,
    {
        let val = (self.corners >> (5 * i)) & 0b11111;
        proof {
            assert(val == slot(self.corners, i));
            lemma_slot_bound(self.corners, i);
            lemma_edge_bits(val);
        }
        ((val >> 3) & 0b11, val & 0b111)
    }

    /// The colour on sticker `sticker` of edge slot `slot`.
    fn get_edge_color(&self, slot: u64, sticker: u64) -> (c: char)
        requires
            slot < 12,
            sticker < 2,
            colors_ok(self@),
        ensures
            c == edge_sticker(self@, slot as int, sticker as int),
            is_color(c),
    {
        let (ori, pos) = self.get_edge_slot(slot);
        proof {
            lemma_xor_bit(sticker, ori);
        }
        edge_color(pos, (sticker ^ ori) % 2)
    }

    /// The colour on sticker `sticker` of corner slot `slot`: which of the piece's
    /// colours shows there depends on its orientation and on whether slot and piece have
    /// the same parity.
    fn get_corner_color(&self, slot: u64, sticker: u64) -> (c: char)
        requires
            slot < 8,
            sticker < 3,
            colors_ok(self@),
        ensures
            c == corner_sticker(self@, slot as int, sticker as int),
            is_color(c),
    {
        let (ori, pos) = self.get_corner_slot(slot);
        let slot_parity = (slot % 2 + slot / 4) % 2;
        let piece_parity = (pos % 2 + pos / 4) % 2;
        let rel_parity = (slot_parity + piece_parity) % 2;
        let idx: u64 = if rel_parity == 0 && ori == 1 {
            if sticker == 0 { 2 } else if sticker == 1 { 0 } else { 1 }
        } else if rel_parity == 0 && ori == 2 {
            if sticker == 0 { 1 } else if sticker == 1 { 2 } else { 0 }
        } else if rel_parity == 1 && ori == 0 {
            if sticker == 0 { 0 } else if sticker == 1 { 2 } else { 1 }
        } else if rel_parity == 1 && ori == 1 {
            if sticker == 0 { 1 } else if sticker == 1 { 0 } else { 2 }
        } else if rel_parity == 1 && ori == 2 {
            if sticker == 0 { 2 } else if sticker == 1 { 1 } else { 0 }
        } else {
            sticker
        };
        corner_color(pos, idx)
    }

    /// The colour of cell `k` (row-major) of face `f` (U, F, R, B, L, D).
    fn face_cell(&self, f: u64, k: u64) -> (c: char)
        requires
            f < 6,
            k < 9,
            colors_ok(self@),
        ensures
            c == sticker(self@, f as int, k as int),
            is_color(c),
    {
        if f == 0 && k == 0 {
            self.get_corner_color(2, 0)
        } else if f == 0 && k == 1 {
            self.get_edge_color(3, 0)
        } else if f == 0 && k == 2 {
            self.get_corner_color(3, 0)
        } else if f == 0 && k == 3 {
            self.get_edge_color(2, 0)
        } else if f == 0 && k == 4 {
            'W'
        } else if f == 0 && k == 5 {
            self.get_edge_color(0, 0)
        } else if f == 0 && k == 6 {
            self.get_corner_color(1, 0)
        } else if f == 0 && k == 7 {
            self.get_edge_color(1, 0)
        } else if f == 0 && k == 8 {
            self.get_corner_color(0, 0)
        } else if f == 1 && k == 0 {
            self.get_corner_color(1, 1)
        } else if f == 1 && k == 1 {
            self.get_edge_color(1, 1)
        } else if f == 1 && k == 2 {
            self.get_corner_color(0, 1)
        } else if f == 1 && k == 3 {
            self.get_edge_color(9, 0)
        } else if f == 1 && k == 4 {
            'G'
        } else if f == 1 && k == 5 {
            self.get_edge_color(8, 0)
        } else if f == 1 && k == 6 {
            self.get_corner_color(5, 1)
        } else if f == 1 && k == 7 {
            self.get_edge_color(5, 1)
        } else if f == 1 && k == 8 {
            self.get_corner_color(4, 1)
        } else if f == 2 && k == 0 {
            self.get_corner_color(0, 2)
        } else if f == 2 && k == 1 {
            self.get_edge_color(0, 1)
        } else if f == 2 && k == 2 {
            self.get_corner_color(3, 2)
        } else if f == 2 && k == 3 {
            self.get_edge_color(8, 1)
        } else if f == 2 && k == 4 {
            'R'
        } else if f == 2 && k == 5 {
            self.get_edge_color(11, 1)
        } else if f == 2 && k == 6 {
            self.get_corner_color(4, 2)
        } else if f == 2 && k == 7 {
            self.get_edge_color(4, 1)
        } else if f == 2 && k == 8 {
            self.get_corner_color(7, 2)
        } else if f == 3 && k == 0 {
            self.get_corner_color(3, 1)
        } else if f == 3 && k == 1 {
            self.get_edge_color(3, 1)
        } else if f == 3 && k == 2 {
            self.get_corner_color(2, 1)
        } else if f == 3 && k == 3 {
            self.get_edge_color(11, 0)
        } else if f == 3 && k == 4 {
            'B'
        } else if f == 3 && k == 5 {
            self.get_edge_color(10, 0)
        } else if f == 3 && k == 6 {
            self.get_corner_color(7, 1)
        } else if f == 3 && k == 7 {
            self.get_edge_color(7, 1)
        } else if f == 3 && k == 8 {
            self.get_corner_color(6, 1)
        } else if f == 4 && k == 0 {
            self.get_corner_color(2, 2)
        } else if f == 4 && k == 1 {
            self.get_edge_color(2, 1)
        } else if f == 4 && k == 2 {
            self.get_corner_color(1, 2)
        } else if f == 4 && k == 3 {
            self.get_edge_color(10, 1)
        } else if f == 4 && k == 4 {
            'O'
        } else if f == 4 && k == 5 {
            self.get_edge_color(9, 1)
        } else if f == 4 && k == 6 {
            self.get_corner_color(6, 2)
        } else if f == 4 && k == 7 {
            self.get_edge_color(6, 1)
        } else if f == 4 && k == 8 {
            self.get_corner_color(5, 2)
        } else if f == 5 && k == 0 {
            self.get_corner_color(5, 0)
        } else if f == 5 && k == 1 {
            self.get_edge_color(5, 0)
        } else if f == 5 && k == 2 {
            self.get_corner_color(4, 0)
        } else if f == 5 && k == 3 {
            self.get_edge_color(6, 0)
        } else if f == 5 && k == 4 {
            'Y'
        } else if f == 5 && k == 5 {
            self.get_edge_color(4, 0)
        } else if f == 5 && k == 6 {
            self.get_corner_color(6, 0)
        } else if f == 5 && k == 7 {
            self.get_edge_color(7, 0)
        } else {
            self.get_corner_color(7, 0)
        }
    }

    /// The six faces, nine cells each (row-major), face by face in the order U, F, R, B,
    /// L, D.
    fn get_face_data(&self) -> (data: Vec<char>)
        requires
            colors_ok(self@),
        ensures
            data@ == face_data(self@),
            forall|i: int| 0 <= i < 54 ==> #[trigger] is_color(data@[i]),
    {
        let mut data: Vec<char> = Vec::new();
        let mut f: u64 = 0;
        while f < 6
            invariant
                f <= 6,
                colors_ok(self@),
                data@.len() == f * 9,
                forall|i: int| 0 <= i < f * 9 ==> #[trigger] data@[i] == face_data(self@)[i],
                forall|i: int| 0 <= i < f * 9 ==> #[trigger] is_color(data@[i]),
            decreases 6 - f,
        {
            let mut k: u64 = 0;
            while k < 9
                invariant
                    f < 6,
                    k <= 9,
                    colors_ok(self@),
                    data@.len() == f * 9 + k,
                    forall|i: int| 0 <= i < f * 9 + k ==> #[trigger] data@[i] == face_data(self@)[i],
                    forall|i: int| 0 <= i < f * 9 + k ==> #[trigger] is_color(data@[i]),
                decreases 9 - k,
            {
                let c = self.face_cell(f, k);
                let ghost before = data@;
                data.push(c);
                proof {
                    let i = f * 9 + k;
                    assert(i / 9 == f && i % 9 == k) by (nonlinear_arith)
                        requires
                            i == f * 9 + k,
                            k < 9,
                    ;
                    assert forall|j: int| 0 <= j < f * 9 + k + 1 implies #[trigger] data@[j]
                        == face_data(self@)[j] && is_color(data@[j]) by {
                        if j < f * 9 + k {
                            assert(data@[j] == before[j]);
                        }
                    }
                }
                k = k + 1;
            }
            f = f + 1;
        }
        proof {
            assert(data@ =~= face_data(self@));
        }
        data
    }
}

/// The terminal escape that colours a sticker's background.
pub open spec fn code_of(c: char) -> Seq<char> {
    if c == 'W' {
        "\x1b[48;2;255;255;255;38;2;0;0;0m"@
    } else if c == 'G' {
        "\x1b[48;2;0;155;72;38;2;255;255;255m"@
    } else if c == 'R' {
        "\x1b[48;2;183;18;52;38;2;255;255;255m"@
    } else if c == 'B' {
        "\x1b[48;2;0;70;173;38;2;255;255;255m"@
    } else if c == 'O' {
        "\x1b[48;2;255;88;0;38;2;0;0;0m"@
    } else if c == 'Y' {
        "\x1b[48;2;255;213;0;38;2;0;0;0m"@
    } else {
        "\x1b[0m"@
    }
}

/// The escape that colours a sticker of colour `c`; for any other character, the reset
/// escape.
fn code_str(c: char) -> (s: &'static str)
    ensures
        s@ == code_of(c),
{
    if c == 'W' {
        "\x1b[48;2;255;255;255;38;2;0;0;0m"
    } else if c == 'G' {
        "\x1b[48;2;0;155;72;38;2;255;255;255m"
    } else if c == 'R' {
        "\x1b[48;2;183;18;52;38;2;255;255;255m"
    } else if c == 'B' {
        "\x1b[48;2;0;70;173;38;2;255;255;255m"
    } else if c == 'O' {
        "\x1b[48;2;255;88;0;38;2;0;0;0m"
    } else if c == 'Y' {
        "\x1b[48;2;255;213;0;38;2;0;0;0m"
    } else {
        "\x1b[0m"
    }
}

/// `String::push` of std, which appends the character to the end of the string.
#[verifier::external_body]
fn push_char(s: &mut String, c: char)
    ensures
        final(s)@ == old(s)@.push(c),
{
    s.push(c);
}

/// The colour letter as a string.
fn color_str(c: char) -> (s: &'static str)
    requires
        is_color(c),
    ensures
        s@ == seq![c],
{
    if c == 'W' {
        proof {
            reveal_strlit("W");
        }
        "W"
    } else if c == 'G' {
        proof {
            reveal_strlit("G");
        }
        "G"
    } else if c == 'R' {
        proof {
            reveal_strlit("R");
        }
        "R"
    } else if c == 'B' {
        proof {
            reveal_strlit("B");
        }
        "B"
    } else if c == 'O' {
        proof {
            reveal_strlit("O");
        }
        "O"
    } else {
        proof {
            reveal_strlit("Y");
        }
        "Y"
    }
}

/// A sticker drawn in the terminal: its letter, padded by spaces, on its colour.
pub open spec fn sticker_text(c: char) -> Seq<char> {
    code_of(c) + seq![' ', c, ' '] + "\x1b[0m"@
}

/// Stickers `start .. start + count` of the net, drawn one after the other.
pub open spec fn cells_text(net: Seq<char>, start: int, count: int) -> Seq<char>
    decreases count,
{
    if count <= 0 {
        Seq::empty()
    } else {
        cells_text(net, start, count - 1) + sticker_text(net[start + count - 1])
    }
}

/// The margin in front of the rows of the U and D faces, as wide as one face.
pub open spec fn margin() -> Seq<char> {
    "         "@
}

/// The net drawn in the terminal: the three rows of U, indented by one face's width,
/// then the three rows of L, F, R and B side by side, then the three rows of D,
/// indented; each row ends with a line break.
pub open spec fn display_text(net: Seq<char>) -> Seq<char> {
    top_rows(net, 3) + middle_rows(net, 3) + bottom_rows(net, 3)
}

impl Cube {
    /// The 54 stickers as colour letters, in the order U, L, F, R, B, D, each face row
    /// by row.
    pub fn net_map(&self) -> (s: String)
        requires
            colors_ok(self@),
        ensures
            s@ == net_of(self@),
    {
        let faces = self.get_face_data();
        let mut output = String::new();
        let mut j: usize = 0;
        while j < 6
            invariant
                j <= 6,
                faces@ == face_data(self@),
                forall|i: int| 0 <= i < 54 ==> #[trigger] is_color(faces@[i]),
                output@ == net_of(self@).take(j * 9),
            decreases 6 - j,
        {
            let face_idx: usize = if j == 0 {
                0
            } else if j == 1 {
                4
            } else if j == 2 {
                1
            } else if j == 3 {
                2
            } else if j == 4 {
                3
            } else {
                5
            };
            let mut k: usize = 0;
            while k < 9
                invariant
                    j < 6,
                    k <= 9,
                    face_idx == net_face(j as int),
                    face_idx < 6,
                    faces@ == face_data(self@),
                    forall|i: int| 0 <= i < 54 ==> #[trigger] is_color(faces@[i]),
                    output@ == net_of(self@).take(j * 9 + k),
                decreases 9 - k,
            {
                proof {
                    assert(face_idx * 9 + k < 54) by (nonlinear_arith)
                        requires
                            face_idx < 6,
                            k < 9,
                    ;
                }
                let c = faces[face_idx * 9 + k];
                let ghost before = output@;
                output.append(color_str(c));
                proof {
                    let i = face_idx * 9 + k;
                    let n = j * 9 + k;
                    assert(i / 9 == face_idx && i % 9 == k) by (nonlinear_arith)
                        requires
                            i == face_idx * 9 + k,
                            k < 9,
                    ;
                    assert(n / 9 == j && n % 9 == k) by (nonlinear_arith)
                        requires
                            n == j * 9 + k,
                            k < 9,
                    ;
                    assert(n < 54) by (nonlinear_arith)
                        requires
                            n == j * 9 + k,
                            k < 9,
                            j < 6,
                    ;
                    assert(net_of(self@).take(n + 1) =~= net_of(self@).take(n).push(c));
                }
                k = k + 1;
            }
            j = j + 1;
        }
        proof {
            assert(net_of(self@).take(54) =~= net_of(self@));
        }
        output
    }

    /// A sticker drawn for the terminal: its colour letter, padded by spaces, on its
    /// colour; any other character is drawn the same way without a colour.
    pub fn format_sticker(&self, c: char) -> (s: String)
        ensures
            s@ == sticker_text(c),
    {
        let mut s = String::new();
        s.append(code_str(c));
        proof {
            reveal_strlit(" ");
        }
        s.append(" ");
        push_char(&mut s, c);
        s.append(" ");
        s.append("\x1b[0m");
        proof {
            assert(s@ =~= sticker_text(c));
        }
        s
    }

    /// Appends stickers `start .. start + 3` of the net.
    fn append_cells(&self, text: &mut String, net: &Vec<char>, start: usize)
        requires
            start + 3 <= net@.len(),
            forall|i: int| 0 <= i < net@.len() ==> #[trigger] is_color(net@[i]),
        ensures
            final(text)@ == old(text)@ + cells_text(net@, start as int, 3),
    {
        let mut k: usize = 0;
        let ghost start_text = text@;
        let len = net.len();
        while k < 3
            invariant
                k <= 3,
                len == net@.len(),
                start + 3 <= net@.len(),
                forall|i: int| 0 <= i < net@.len() ==> #[trigger] is_color(net@[i]),
                text@ == start_text + cells_text(net@, start as int, k as int),
            decreases 3 - k,
        {
            let piece = self.format_sticker(net[start + k]);
            text.append(piece.as_str());
            proof {
                assert(start_text + cells_text(net@, start as int, k + 1) =~= start_text
                    + cells_text(net@, start as int, k as int) + sticker_text(net@[start + k]));
            }
            k = k + 1;
        }
    }

    /// Appends row `r` of the L, F, R and B faces.
    fn append_middle_row(&self, text: &mut String, net: &Vec<char>, r: usize)
        requires
            r < 3,
            net@.len() == 54,
            forall|i: int| 0 <= i < 54 ==> #[trigger] is_color(net@[i]),
        ensures
            final(text)@ == old(text)@ + middle_row(net@, r as int),
    {
        let ghost start = text@;
        self.append_cells(text, net, 9 + r * 3);
        self.append_cells(text, net, 18 + r * 3);
        self.append_cells(text, net, 27 + r * 3);
        self.append_cells(text, net, 36 + r * 3);
        text.append("\n");
        proof {
            reveal_strlit("\n");
            assert(text@ =~= start + middle_row(net@, r as int));
        }
    }

    /// The cube drawn for a terminal: the net with U on top, L, F, R and B side by side
    /// below it, and D at the bottom, each sticker on its colour.
    pub fn to_display(&self) -> (s: String)
        requires
            colors_ok(self@),
        ensures
            s@ == display_text(net_of(self@)),
    {
        let raw_str = self.net_map();
        let raw = net_chars(&raw_str);
        proof {
            reveal_strlit("         ");
            reveal_strlit("\n");
            lemma_net_colors(self@);
        }
        let mut f = String::new();
        let mut r: usize = 0;
        while r < 3
            invariant
                r <= 3,
                raw@ == net_of(self@),
                forall|i: int| 0 <= i < 54 ==> #[trigger] is_color(raw@[i]),
                f@ == top_rows(raw@, r as int),
            decreases 3 - r,
        {
            let ghost before = f@;
            f.append("         ");
            self.append_cells(&mut f, &raw, r * 3);
            f.append("\n");
            proof {
                reveal_strlit("\n");
                assert(f@ =~= top_rows(raw@, r as int) + margin() + cells_text(raw@, (r * 3) as int, 3)
                    + seq!['\n']);
            }
            r = r + 1;
        }
        let ghost after_top = f@;
        let mut r: usize = 0;
        while r < 3
            invariant
                r <= 3,
                raw@ == net_of(self@),
                forall|i: int| 0 <= i < 54 ==> #[trigger] is_color(raw@[i]),
                f@ == after_top + middle_rows(raw@, r as int),
            decreases 3 - r,
        {
            self.append_middle_row(&mut f, &raw, r);
            proof {
                assert(f@ =~= after_top + middle_rows(raw@, r + 1));
            }
            r = r + 1;
        }
        let ghost after_middle = f@;
        let mut r: usize = 0;
        while r < 3
            invariant
                r <= 3,
                raw@ == net_of(self@),
                forall|i: int| 0 <= i < 54 ==> #[trigger] is_color(raw@[i]),
                f@ == after_middle + bottom_rows(raw@, r as int),
            decreases 3 - r,
        {
            let ghost before = f@;
            f.append("         ");
            self.append_cells(&mut f, &raw, 45 + r * 3);
            f.append("\n");
            proof {
                reveal_strlit("\n");
                assert(f@ =~= after_middle + bottom_rows(raw@, r + 1)) by {
                    let m = bottom_rows(raw@, r as int);
                    let x = margin() + cells_text(raw@, 45 + r * 3, 3) + seq!['\n'];
                    assert(f@ =~= after_middle + m + x);
                    assert(bottom_rows(raw@, r + 1) =~= m + x);
                }
            }
            r = r + 1;
        }

        f
    }
}

/// The first `r` rows of the U face, drawn.
pub open spec fn top_rows(net: Seq<char>, r: int) -> Seq<char>
    decreases r,
{
    if r <= 0 {
        Seq::empty()
    } else {
        top_rows(net, r - 1) + margin() + cells_text(net, (r - 1) * 3, 3) + seq!['\n']
    }
}

/// Row `r` of the L, F, R and B faces, drawn side by side.
pub open spec fn middle_row(net: Seq<char>, r: int) -> Seq<char> {
    cells_text(net, 9 + r * 3, 3) + cells_text(net, 18 + r * 3, 3) + cells_text(net, 27 + r * 3, 3)
        + cells_text(net, 36 + r * 3, 3) + seq!['\n']
}

/// The first `r` rows of the L, F, R and B faces, drawn side by side.
pub open spec fn middle_rows(net: Seq<char>, r: int) -> Seq<char>
    decreases r,
{
    if r <= 0 {
        Seq::empty()
    } else {
        middle_rows(net, r - 1) + middle_row(net, r - 1)
    }
}

/// The first `r` rows of the D face, drawn.
pub open spec fn bottom_rows(net: Seq<char>, r: int) -> Seq<char>
    decreases r,
{
    if r <= 0 {
        Seq::empty()
    } else {
        bottom_rows(net, r - 1) + margin() + cells_text(net, 45 + (r - 1) * 3, 3) + seq!['\n']
    }
}

/// Every sticker of the net is a colour.
pub proof fn lemma_net_colors(s: CubeState)
    requires
        colors_ok(s),
    ensures
        forall|i: int| 0 <= i < 54 ==> #[trigger] is_color(net_of(s)[i]),
{
    assert forall|i: int| 0 <= i < 54 implies #[trigger] is_color(net_of(s)[i]) by {
        lemma_sticker_color(s, net_face(i / 9), i % 9);
    }
}

/// Every sticker is one of the six colours.
pub proof fn lemma_sticker_color(s: CubeState, f: int, k: int)
    requires
        colors_ok(s),
        0 <= f < 6,
        0 <= k < 9,
    ensures
        is_color(sticker(s, f, k)),
{
    assert forall|slot: int, st: int| 0 <= slot < 12 && 0 <= st < 2 implies is_color(
        #[trigger] edge_sticker(s, slot, st),
    ) by {
        assert(s.edges[slot] % 16 < 12);
    }
    assert forall|slot: int, st: int| 0 <= slot < 8 && 0 <= st < 3 implies is_color(
        #[trigger] corner_sticker(s, slot, st),
    ) by {
        let v = s.corners[slot];
        let pos = (v % 8) as int;
        let ori = ((v / 8) % 4) as int;
        let rel = (corner_parity(slot) + corner_parity(pos)) % 2;
        assert(0 <= corner_index(rel, ori, st) < 3);
    }
}

/// The characters of a net string.
fn net_chars(s: &String) -> (v: Vec<char>)
    ensures
        v@ == s@,
{
    crate::moves::str_chars(s.as_str())
}

impl Cube {
    /// Whether every edge slot holds one of the twelve edge pieces, so that every
    /// sticker has a colour.
    pub fn has_colors(&self) -> (b: bool)
        ensures
            b == colors_ok(self@),
    {
        let mut i: u64 = 0;
        while i < 12
            invariant
                i <= 12,
                forall|j: int| 0 <= j < i ==> #[trigger] self@.edges[j] % 16 < 12,
            decreases 12 - i,
        {
            let (_, id) = self.get_edge_slot(i);
            if id >= 12 {
                return false;
            }
            i = i + 1;
        }
        true
    }
}

} // verus!
