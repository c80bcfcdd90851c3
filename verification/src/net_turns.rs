//! How the stickers of the drawn net move when a face turns: every move carries the
//! 54 stickers along one fixed permutation of the net positions, whatever the cube.

use vstd::prelude::*;
use crate::cube::{
    CubeState,
    turned,
    face_edges,
    face_corners,
    face_pos,
    face_flips,
    face_twist,
    source_slot,
    twisted,
    lemma_face_cycles,
    lemma_turn_combine,
};
use crate::moves::{MoveAxis, MoveDirection, SingleMove, spec_quarters, spec_combine};
use crate::faces::{
    edge_sticker,
    corner_sticker,
    corner_index,
    corner_parity,
    net_of,
    sticker_text,
    cells_text,
    margin,
    display_text,
    top_rows,
    middle_row,
    middle_rows,
    bottom_rows,
};
use crate::colors::{valid_state, lemma_turn_keeps_valid};
use crate::timer::net_cell_at;

verus! {

proof fn lemma_flip_bits(v: u64)
    by (bit_vector)
    requires
        v < 32,
    ensures
        (v ^ 0x10) % 16 == v % 16,
        (v ^ 0x10) / 16 + v / 16 == 1,
{
}

/// A quarter turn moves the sticker `st` of an edge into the same sticker of the
/// next slot of the face, swapped when the face flips edges.
proof fn lemma_edge_quarter(s: CubeState, a: MoveAxis)
    requires
        valid_state(s),
    ensures
        forall|slot: int, st: int|
            0 <= slot < 12 && 0 <= st < 2 ==> #[trigger] edge_sticker(turned(s, quarter(a)), slot, st)
                == edge_sticker(
                s,
                source_slot(face_edges(a), 1, slot as u64) as int,
                if face_pos(face_edges(a), slot as u64) >= 0 && face_flips(a) {
                    1 - st
                } else {
                    st
                },
            ),
{
    lemma_face_cycles(a);
    assert forall|slot: int, st: int|
        0 <= slot < 12 && 0 <= st < 2 implies #[trigger] edge_sticker(turned(s, quarter(a)), slot, st)
        == edge_sticker(
        s,
        source_slot(face_edges(a), 1, slot as u64) as int,
        if face_pos(face_edges(a), slot as u64) >= 0 && face_flips(a) {
            1 - st
        } else {
            st
        },
    ) by {
        let f = face_edges(a);
        let src = source_slot(f, 1, slot as u64);
        assert(src < 12);
        let v = s.edges[src as int];
        assert(v < 32);
        if face_pos(f, slot as u64) >= 0 && face_flips(a) {
            lemma_flip_bits(v);
            let b = v / 16;
            assert(b == 0 || b == 1);
            assert((st + (1 - b)) % 2 == ((1 - st) + b) % 2);
        }
    }
}

/// The colour index a twisted corner shows after moving to a slot of the other
/// parity is the one the untwisted corner showed on the twisted sticker.
proof fn lemma_index_twist(a: MoveAxis, r: int, o: int, st: int)
    requires
        0 <= r < 2,
        0 <= o < 3,
        0 <= st < 3,
    ensures
        corner_index(1 - r, face_twist(a)[o] as int, st) == corner_index(r, o, face_twist(a)[st] as int),
{
}

/// A quarter turn carries a corner between slots of opposite parity.
proof fn lemma_quarter_parity(a: MoveAxis, slot: u64)
    requires
        face_pos(face_corners(a), slot) >= 0,
    ensures
        corner_parity(slot as int) + corner_parity(source_slot(face_corners(a), 1, slot) as int) == 1,
{
}

/// A quarter turn moves sticker `st` of a corner into the sticker that the face's
/// twist table gives, in the next slot of the face.
proof fn lemma_corner_quarter(s: CubeState, a: MoveAxis)
    requires
        valid_state(s),
    ensures
        forall|slot: int, st: int|
            0 <= slot < 8 && 0 <= st < 3 ==> #[trigger] corner_sticker(turned(s, quarter(a)), slot, st)
                == corner_sticker(
                s,
                source_slot(face_corners(a), 1, slot as u64) as int,
                if face_pos(face_corners(a), slot as u64) >= 0 {
                    face_twist(a)[st] as int
                } else {
                    st
                },
            ),
{
    lemma_face_cycles(a);
    assert forall|slot: int, st: int|
        0 <= slot < 8 && 0 <= st < 3 implies #[trigger] corner_sticker(turned(s, quarter(a)), slot, st)
        == corner_sticker(
        s,
        source_slot(face_corners(a), 1, slot as u64) as int,
        if face_pos(face_corners(a), slot as u64) >= 0 {
            face_twist(a)[st] as int
        } else {
            st
        },
    ) by {
        let f = face_corners(a);
        let src = source_slot(f, 1, slot as u64);
        assert(src < 8);
        let v = s.corners[src as int];
        assert(v < 32 && v / 8 < 3);
        if face_pos(f, slot as u64) >= 0 {
            let t = face_twist(a);
            let o = v / 8;
            let w = twisted(t, v);
            assert(t[o as int] < 3);
            assert(w == t[o as int] * 8 + v % 8);
            assert(w % 8 == v % 8 && w / 8 == t[o as int]);
            lemma_quarter_parity(a, slot as u64);
            let p = (v % 8) as int;
            let r = (corner_parity(src as int) + corner_parity(p)) % 2;
            assert((corner_parity(slot) + corner_parity(p)) % 2 == 1 - r);
            lemma_index_twist(a, r, o as int, st);
        }
    }
}

/// A clockwise quarter turn of a face.
pub open spec fn quarter(axis: MoveAxis) -> SingleMove {
    SingleMove { axis, dir: MoveDirection::Clk }
}

/// Where the stickers go in a clockwise quarter turn of `axis`: the net position
/// (order U, L, F, R, B, D) whose sticker the turn brings to net position `i`.
pub open spec fn quarter_net_source(axis: MoveAxis, i: int) -> int {
    match axis {
        MoveAxis::U => {
            if i == 0 {
                6
            } else if i == 1 {
                3
            } else if i == 2 {
                0
            } else if i == 3 {
                7
            } else if i == 4 {
                4
            } else if i == 5 {
                1
            } else if i == 6 {
                8
            } else if i == 7 {
                5
            } else if i == 8 {
                2
            } else if i == 9 {
                18
            } else if i == 10 {
                19
            } else if i == 11 {
                20
            } else if i == 12 {
                12
            } else if i == 13 {
                13
            } else if i == 14 {
                14
            } else if i == 15 {
                15
            } else if i == 16 {
                16
            } else if i == 17 {
                17
            } else if i == 18 {
                27
            } else if i == 19 {
                28
            } else if i == 20 {
                29
            } else if i == 21 {
                21
            } else if i == 22 {
                22
            } else if i == 23 {
                23
            } else if i == 24 {
                24
            } else if i == 25 {
                25
            } else if i == 26 {
                26
            } else if i == 27 {
                36
            } else if i == 28 {
                37
            } else if i == 29 {
                38
            } else if i == 30 {
                30
            } else if i == 31 {
                31
            } else if i == 32 {
                32
            } else if i == 33 {
                33
            } else if i == 34 {
                34
            } else if i == 35 {
                35
            } else if i == 36 {
                9
            } else if i == 37 {
                10
            } else if i == 38 {
                11
            } else if i == 39 {
                39
            } else if i == 40 {
                40
            } else if i == 41 {
                41
            } else if i == 42 {
                42
            } else if i == 43 {
                43
            } else if i == 44 {
                44
            } else if i == 45 {
                45
            } else if i == 46 {
                46
            } else if i == 47 {
                47
            } else if i == 48 {
                48
            } else if i == 49 {
                49
            } else if i == 50 {
                50
            } else if i == 51 {
                51
            } else if i == 52 {
                52
            } else {
                53
            }
        },
        MoveAxis::F => {
            if i == 0 {
                0
            } else if i == 1 {
                1
            } else if i == 2 {
                2
            } else if i == 3 {
                3
            } else if i == 4 {
                4
            } else if i == 5 {
                5
            } else if i == 6 {
                17
            } else if i == 7 {
                14
            } else if i == 8 {
                11
            } else if i == 9 {
                9
            } else if i == 10 {
                10
            } else if i == 11 {
                45
            } else if i == 12 {
                12
            } else if i == 13 {
                13
            } else if i == 14 {
                46
            } else if i == 15 {
                15
            } else if i == 16 {
                16
            } else if i == 17 {
                47
            } else if i == 18 {
                24
            } else if i == 19 {
                21
            } else if i == 20 {
                18
            } else if i == 21 {
                25
            } else if i == 22 {
                22
            } else if i == 23 {
                19
            } else if i == 24 {
                26
            } else if i == 25 {
                23
            } else if i == 26 {
                20
            } else if i == 27 {
                6
            } else if i == 28 {
                28
            } else if i == 29 {
                29
            } else if i == 30 {
                7
            } else if i == 31 {
                31
            } else if i == 32 {
                32
            } else if i == 33 {
                8
            } else if i == 34 {
                34
            } else if i == 35 {
                35
            } else if i == 36 {
                36
            } else if i == 37 {
                37
            } else if i == 38 {
                38
            } else if i == 39 {
                39
            } else if i == 40 {
                40
            } else if i == 41 {
                41
            } else if i == 42 {
                42
            } else if i == 43 {
                43
            } else if i == 44 {
                44
            } else if i == 45 {
                33
            } else if i == 46 {
                30
            } else if i == 47 {
                27
            } else if i == 48 {
                48
            } else if i == 49 {
                49
            } else if i == 50 {
                50
            } else if i == 51 {
                51
            } else if i == 52 {
                52
            } else {
                53
            }
        },
        MoveAxis::R => {
            if i == 0 {
                0
            } else if i == 1 {
                1
            } else if i == 2 {
                20
            } else if i == 3 {
                3
            } else if i == 4 {
                4
            } else if i == 5 {
                23
            } else if i == 6 {
                6
            } else if i == 7 {
                7
            } else if i == 8 {
                26
            } else if i == 9 {
                9
            } else if i == 10 {
                10
            } else if i == 11 {
                11
            } else if i == 12 {
                12
            } else if i == 13 {
                13
            } else if i == 14 {
                14
            } else if i == 15 {
                15
            } else if i == 16 {
                16
            } else if i == 17 {
                17
            } else if i == 18 {
                18
            } else if i == 19 {
                19
            } else if i == 20 {
                47
            } else if i == 21 {
                21
            } else if i == 22 {
                22
            } else if i == 23 {
                50
            } else if i == 24 {
                24
            } else if i == 25 {
                25
            } else if i == 26 {
                53
            } else if i == 27 {
                33
            } else if i == 28 {
                30
            } else if i == 29 {
                27
            } else if i == 30 {
                34
            } else if i == 31 {
                31
            } else if i == 32 {
                28
            } else if i == 33 {
                35
            } else if i == 34 {
                32
            } else if i == 35 {
                29
            } else if i == 36 {
                8
            } else if i == 37 {
                37
            } else if i == 38 {
                38
            } else if i == 39 {
                5
            } else if i == 40 {
                40
            } else if i == 41 {
                41
            } else if i == 42 {
                2
            } else if i == 43 {
                43
            } else if i == 44 {
                44
            } else if i == 45 {
                45
            } else if i == 46 {
                46
            } else if i == 47 {
                42
            } else if i == 48 {
                48
            } else if i == 49 {
                49
            } else if i == 50 {
                39
            } else if i == 51 {
                51
            } else if i == 52 {
                52
            } else {
                36
            }
        },
        MoveAxis::B => {
            if i == 0 {
                29
            } else if i == 1 {
                32
            } else if i == 2 {
                35
            } else if i == 3 {
                3
            } else if i == 4 {
                4
            } else if i == 5 {
                5
            } else if i == 6 {
                6
            } else if i == 7 {
                7
            } else if i == 8 {
                8
            } else if i == 9 {
                2
            } else if i == 10 {
                10
            } else if i == 11 {
                11
            } else if i == 12 {
                1
            } else if i == 13 {
                13
            } else if i == 14 {
                14
            } else if i == 15 {
                0
            } else if i == 16 {
                16
            } else if i == 17 {
                17
            } else if i == 18 {
                18
            } else if i == 19 {
                19
            } else if i == 20 {
                20
            } else if i == 21 {
                21
            } else if i == 22 {
                22
            } else if i == 23 {
                23
            } else if i == 24 {
                24
            } else if i == 25 {
                25
            } else if i == 26 {
                26
            } else if i == 27 {
                27
            } else if i == 28 {
                28
            } else if i == 29 {
                53
            } else if i == 30 {
                30
            } else if i == 31 {
                31
            } else if i == 32 {
                52
            } else if i == 33 {
                33
            } else if i == 34 {
                34
            } else if i == 35 {
                51
            } else if i == 36 {
                42
            } else if i == 37 {
                39
            } else if i == 38 {
                36
            } else if i == 39 {
                43
            } else if i == 40 {
                40
            } else if i == 41 {
                37
            } else if i == 42 {
                44
            } else if i == 43 {
                41
            } else if i == 44 {
                38
            } else if i == 45 {
                45
            } else if i == 46 {
                46
            } else if i == 47 {
                47
            } else if i == 48 {
                48
            } else if i == 49 {
                49
            } else if i == 50 {
                50
            } else if i == 51 {
                9
            } else if i == 52 {
                12
            } else {
                15
            }
        },
        MoveAxis::L => {
            if i == 0 {
                44
            } else if i == 1 {
                1
            } else if i == 2 {
                2
            } else if i == 3 {
                41
            } else if i == 4 {
                4
            } else if i == 5 {
                5
            } else if i == 6 {
                38
            } else if i == 7 {
                7
            } else if i == 8 {
                8
            } else if i == 9 {
                15
            } else if i == 10 {
                12
            } else if i == 11 {
                9
            } else if i == 12 {
                16
            } else if i == 13 {
                13
            } else if i == 14 {
                10
            } else if i == 15 {
                17
            } else if i == 16 {
                14
            } else if i == 17 {
                11
            } else if i == 18 {
                0
            } else if i == 19 {
                19
            } else if i == 20 {
                20
            } else if i == 21 {
                3
            } else if i == 22 {
                22
            } else if i == 23 {
                23
            } else if i == 24 {
                6
            } else if i == 25 {
                25
            } else if i == 26 {
                26
            } else if i == 27 {
                27
            } else if i == 28 {
                28
            } else if i == 29 {
                29
            } else if i == 30 {
                30
            } else if i == 31 {
                31
            } else if i == 32 {
                32
            } else if i == 33 {
                33
            } else if i == 34 {
                34
            } else if i == 35 {
                35
            } else if i == 36 {
                36
            } else if i == 37 {
                37
            } else if i == 38 {
                51
            } else if i == 39 {
                39
            } else if i == 40 {
                40
            } else if i == 41 {
                48
            } else if i == 42 {
                42
            } else if i == 43 {
                43
            } else if i == 44 {
                45
            } else if i == 45 {
                18
            } else if i == 46 {
                46
            } else if i == 47 {
                47
            } else if i == 48 {
                21
            } else if i == 49 {
                49
            } else if i == 50 {
                50
            } else if i == 51 {
                24
            } else if i == 52 {
                52
            } else {
                53
            }
        },
        MoveAxis::D => {
            if i == 0 {
                0
            } else if i == 1 {
                1
            } else if i == 2 {
                2
            } else if i == 3 {
                3
            } else if i == 4 {
                4
            } else if i == 5 {
                5
            } else if i == 6 {
                6
            } else if i == 7 {
                7
            } else if i == 8 {
                8
            } else if i == 9 {
                9
            } else if i == 10 {
                10
            } else if i == 11 {
                11
            } else if i == 12 {
                12
            } else if i == 13 {
                13
            } else if i == 14 {
                14
            } else if i == 15 {
                42
            } else if i == 16 {
                43
            } else if i == 17 {
                44
            } else if i == 18 {
                18
            } else if i == 19 {
                19
            } else if i == 20 {
                20
            } else if i == 21 {
                21
            } else if i == 22 {
                22
            } else if i == 23 {
                23
            } else if i == 24 {
                15
            } else if i == 25 {
                16
            } else if i == 26 {
                17
            } else if i == 27 {
                27
            } else if i == 28 {
                28
            } else if i == 29 {
                29
            } else if i == 30 {
                30
            } else if i == 31 {
                31
            } else if i == 32 {
                32
            } else if i == 33 {
                24
            } else if i == 34 {
                25
            } else if i == 35 {
                26
            } else if i == 36 {
                36
            } else if i == 37 {
                37
            } else if i == 38 {
                38
            } else if i == 39 {
                39
            } else if i == 40 {
                40
            } else if i == 41 {
                41
            } else if i == 42 {
                33
            } else if i == 43 {
                34
            } else if i == 44 {
                35
            } else if i == 45 {
                51
            } else if i == 46 {
                48
            } else if i == 47 {
                45
            } else if i == 48 {
                52
            } else if i == 49 {
                49
            } else if i == 50 {
                46
            } else if i == 51 {
                53
            } else if i == 52 {
                50
            } else {
                47
            }
        },
    }
}

#[verifier::spinoff_prover]
#[verifier::rlimit(50)]
proof fn lemma_quarter_facelet_u(s: CubeState, i: int)
    requires
        valid_state(s),
        0 <= i < 54,
    ensures
        net_of(turned(s, quarter(MoveAxis::U)))[i] == net_of(s)[quarter_net_source(MoveAxis::U, i)],
{
    lemma_edge_quarter(s, MoveAxis::U);
    lemma_corner_quarter(s, MoveAxis::U);
    let t = turned(s, quarter(MoveAxis::U));
    if i == 0 {
        assert(net_of(t)[0] == net_of(s)[6]);
    } else if i == 1 {
        assert(net_of(t)[1] == net_of(s)[3]);
    } else if i == 2 {
        assert(net_of(t)[2] == net_of(s)[0]);
    } else if i == 3 {
        assert(net_of(t)[3] == net_of(s)[7]);
    } else if i == 4 {
        assert(net_of(t)[4] == net_of(s)[4]);
    } else if i == 5 {
        assert(net_of(t)[5] == net_of(s)[1]);
    } else if i == 6 {
        assert(net_of(t)[6] == net_of(s)[8]);
    } else if i == 7 {
        assert(net_of(t)[7] == net_of(s)[5]);
    } else if i == 8 {
        assert(net_of(t)[8] == net_of(s)[2]);
    } else if i == 9 {
        assert(net_of(t)[9] == net_of(s)[18]);
    } else if i == 10 {
        assert(net_of(t)[10] == net_of(s)[19]);
    } else if i == 11 {
        assert(net_of(t)[11] == net_of(s)[20]);
    } else if i == 12 {
        assert(net_of(t)[12] == net_of(s)[12]);
    } else if i == 13 {
        assert(net_of(t)[13] == net_of(s)[13]);
    } else if i == 14 {
        assert(net_of(t)[14] == net_of(s)[14]);
    } else if i == 15 {
        assert(net_of(t)[15] == net_of(s)[15]);
    } else if i == 16 {
        assert(net_of(t)[16] == net_of(s)[16]);
    } else if i == 17 {
        assert(net_of(t)[17] == net_of(s)[17]);
    } else if i == 18 {
        assert(net_of(t)[18] == net_of(s)[27]);
    } else if i == 19 {
        assert(net_of(t)[19] == net_of(s)[28]);
    } else if i == 20 {
        assert(net_of(t)[20] == net_of(s)[29]);
    } else if i == 21 {
        assert(net_of(t)[21] == net_of(s)[21]);
    } else if i == 22 {
        assert(net_of(t)[22] == net_of(s)[22]);
    } else if i == 23 {
        assert(net_of(t)[23] == net_of(s)[23]);
    } else if i == 24 {
        assert(net_of(t)[24] == net_of(s)[24]);
    } else if i == 25 {
        assert(net_of(t)[25] == net_of(s)[25]);
    } else if i == 26 {
        assert(net_of(t)[26] == net_of(s)[26]);
    } else if i == 27 {
        assert(net_of(t)[27] == net_of(s)[36]);
    } else if i == 28 {
        assert(net_of(t)[28] == net_of(s)[37]);
    } else if i == 29 {
        assert(net_of(t)[29] == net_of(s)[38]);
    } else if i == 30 {
        assert(net_of(t)[30] == net_of(s)[30]);
    } else if i == 31 {
        assert(net_of(t)[31] == net_of(s)[31]);
    } else if i == 32 {
        assert(net_of(t)[32] == net_of(s)[32]);
    } else if i == 33 {
        assert(net_of(t)[33] == net_of(s)[33]);
    } else if i == 34 {
        assert(net_of(t)[34] == net_of(s)[34]);
    } else if i == 35 {
        assert(net_of(t)[35] == net_of(s)[35]);
    } else if i == 36 {
        assert(net_of(t)[36] == net_of(s)[9]);
    } else if i == 37 {
        assert(net_of(t)[37] == net_of(s)[10]);
    } else if i == 38 {
        assert(net_of(t)[38] == net_of(s)[11]);
    } else if i == 39 {
        assert(net_of(t)[39] == net_of(s)[39]);
    } else if i == 40 {
        assert(net_of(t)[40] == net_of(s)[40]);
    } else if i == 41 {
        assert(net_of(t)[41] == net_of(s)[41]);
    } else if i == 42 {
        assert(net_of(t)[42] == net_of(s)[42]);
    } else if i == 43 {
        assert(net_of(t)[43] == net_of(s)[43]);
    } else if i == 44 {
        assert(net_of(t)[44] == net_of(s)[44]);
    } else if i == 45 {
        assert(net_of(t)[45] == net_of(s)[45]);
    } else if i == 46 {
        assert(net_of(t)[46] == net_of(s)[46]);
    } else if i == 47 {
        assert(net_of(t)[47] == net_of(s)[47]);
    } else if i == 48 {
        assert(net_of(t)[48] == net_of(s)[48]);
    } else if i == 49 {
        assert(net_of(t)[49] == net_of(s)[49]);
    } else if i == 50 {
        assert(net_of(t)[50] == net_of(s)[50]);
    } else if i == 51 {
        assert(net_of(t)[51] == net_of(s)[51]);
    } else if i == 52 {
        assert(net_of(t)[52] == net_of(s)[52]);
    } else if i == 53 {
        assert(net_of(t)[53] == net_of(s)[53]);
    }
}

#[verifier::spinoff_prover]
#[verifier::rlimit(50)]
proof fn lemma_quarter_facelet_f(s: CubeState, i: int)
    requires
        valid_state(s),
        0 <= i < 54,
    ensures
        net_of(turned(s, quarter(MoveAxis::F)))[i] == net_of(s)[quarter_net_source(MoveAxis::F, i)],
{
    lemma_edge_quarter(s, MoveAxis::F);
    lemma_corner_quarter(s, MoveAxis::F);
    let t = turned(s, quarter(MoveAxis::F));
    if i == 0 {
        assert(net_of(t)[0] == net_of(s)[0]);
    } else if i == 1 {
        assert(net_of(t)[1] == net_of(s)[1]);
    } else if i == 2 {
        assert(net_of(t)[2] == net_of(s)[2]);
    } else if i == 3 {
        assert(net_of(t)[3] == net_of(s)[3]);
    } else if i == 4 {
        assert(net_of(t)[4] == net_of(s)[4]);
    } else if i == 5 {
        assert(net_of(t)[5] == net_of(s)[5]);
    } else if i == 6 {
        assert(net_of(t)[6] == net_of(s)[17]);
    } else if i == 7 {
        assert(net_of(t)[7] == net_of(s)[14]);
    } else if i == 8 {
        assert(net_of(t)[8] == net_of(s)[11]);
    } else if i == 9 {
        assert(net_of(t)[9] == net_of(s)[9]);
    } else if i == 10 {
        assert(net_of(t)[10] == net_of(s)[10]);
    } else if i == 11 {
        assert(net_of(t)[11] == net_of(s)[45]);
    } else if i == 12 {
        assert(net_of(t)[12] == net_of(s)[12]);
    } else if i == 13 {
        assert(net_of(t)[13] == net_of(s)[13]);
    } else if i == 14 {
        assert(net_of(t)[14] == net_of(s)[46]);
    } else if i == 15 {
        assert(net_of(t)[15] == net_of(s)[15]);
    } else if i == 16 {
        assert(net_of(t)[16] == net_of(s)[16]);
    } else if i == 17 {
        assert(net_of(t)[17] == net_of(s)[47]);
    } else if i == 18 {
        assert(net_of(t)[18] == net_of(s)[24]);
    } else if i == 19 {
        assert(net_of(t)[19] == net_of(s)[21]);
    } else if i == 20 {
        assert(net_of(t)[20] == net_of(s)[18]);
    } else if i == 21 {
        assert(net_of(t)[21] == net_of(s)[25]);
    } else if i == 22 {
        assert(net_of(t)[22] == net_of(s)[22]);
    } else if i == 23 {
        assert(net_of(t)[23] == net_of(s)[19]);
    } else if i == 24 {
        assert(net_of(t)[24] == net_of(s)[26]);
    } else if i == 25 {
        assert(net_of(t)[25] == net_of(s)[23]);
    } else if i == 26 {
        assert(net_of(t)[26] == net_of(s)[20]);
    } else if i == 27 {
        assert(net_of(t)[27] == net_of(s)[6]);
    } else if i == 28 {
        assert(net_of(t)[28] == net_of(s)[28]);
    } else if i == 29 {
        assert(net_of(t)[29] == net_of(s)[29]);
    } else if i == 30 {
        assert(net_of(t)[30] == net_of(s)[7]);
    } else if i == 31 {
        assert(net_of(t)[31] == net_of(s)[31]);
    } else if i == 32 {
        assert(net_of(t)[32] == net_of(s)[32]);
    } else if i == 33 {
        assert(net_of(t)[33] == net_of(s)[8]);
    } else if i == 34 {
        assert(net_of(t)[34] == net_of(s)[34]);
    } else if i == 35 {
        assert(net_of(t)[35] == net_of(s)[35]);
    } else if i == 36 {
        assert(net_of(t)[36] == net_of(s)[36]);
    } else if i == 37 {
        assert(net_of(t)[37] == net_of(s)[37]);
    } else if i == 38 {
        assert(net_of(t)[38] == net_of(s)[38]);
    } else if i == 39 {
        assert(net_of(t)[39] == net_of(s)[39]);
    } else if i == 40 {
        assert(net_of(t)[40] == net_of(s)[40]);
    } else if i == 41 {
        assert(net_of(t)[41] == net_of(s)[41]);
    } else if i == 42 {
        assert(net_of(t)[42] == net_of(s)[42]);
    } else if i == 43 {
        assert(net_of(t)[43] == net_of(s)[43]);
    } else if i == 44 {
        assert(net_of(t)[44] == net_of(s)[44]);
    } else if i == 45 {
        assert(net_of(t)[45] == net_of(s)[33]);
    } else if i == 46 {
        assert(net_of(t)[46] == net_of(s)[30]);
    } else if i == 47 {
        assert(net_of(t)[47] == net_of(s)[27]);
    } else if i == 48 {
        assert(net_of(t)[48] == net_of(s)[48]);
    } else if i == 49 {
        assert(net_of(t)[49] == net_of(s)[49]);
    } else if i == 50 {
        assert(net_of(t)[50] == net_of(s)[50]);
    } else if i == 51 {
        assert(net_of(t)[51] == net_of(s)[51]);
    } else if i == 52 {
        assert(net_of(t)[52] == net_of(s)[52]);
    } else if i == 53 {
        assert(net_of(t)[53] == net_of(s)[53]);
    }
}

#[verifier::spinoff_prover]
#[verifier::rlimit(50)]
proof fn lemma_quarter_facelet_r(s: CubeState, i: int)
    requires
        valid_state(s),
        0 <= i < 54,
    ensures
        net_of(turned(s, quarter(MoveAxis::R)))[i] == net_of(s)[quarter_net_source(MoveAxis::R, i)],
{
    lemma_edge_quarter(s, MoveAxis::R);
    lemma_corner_quarter(s, MoveAxis::R);
    let t = turned(s, quarter(MoveAxis::R));
    if i == 0 {
        assert(net_of(t)[0] == net_of(s)[0]);
    } else if i == 1 {
        assert(net_of(t)[1] == net_of(s)[1]);
    } else if i == 2 {
        assert(net_of(t)[2] == net_of(s)[20]);
    } else if i == 3 {
        assert(net_of(t)[3] == net_of(s)[3]);
    } else if i == 4 {
        assert(net_of(t)[4] == net_of(s)[4]);
    } else if i == 5 {
        assert(net_of(t)[5] == net_of(s)[23]);
    } else if i == 6 {
        assert(net_of(t)[6] == net_of(s)[6]);
    } else if i == 7 {
        assert(net_of(t)[7] == net_of(s)[7]);
    } else if i == 8 {
        assert(net_of(t)[8] == net_of(s)[26]);
    } else if i == 9 {
        assert(net_of(t)[9] == net_of(s)[9]);
    } else if i == 10 {
        assert(net_of(t)[10] == net_of(s)[10]);
    } else if i == 11 {
        assert(net_of(t)[11] == net_of(s)[11]);
    } else if i == 12 {
        assert(net_of(t)[12] == net_of(s)[12]);
    } else if i == 13 {
        assert(net_of(t)[13] == net_of(s)[13]);
    } else if i == 14 {
        assert(net_of(t)[14] == net_of(s)[14]);
    } else if i == 15 {
        assert(net_of(t)[15] == net_of(s)[15]);
    } else if i == 16 {
        assert(net_of(t)[16] == net_of(s)[16]);
    } else if i == 17 {
        assert(net_of(t)[17] == net_of(s)[17]);
    } else if i == 18 {
        assert(net_of(t)[18] == net_of(s)[18]);
    } else if i == 19 {
        assert(net_of(t)[19] == net_of(s)[19]);
    } else if i == 20 {
        assert(net_of(t)[20] == net_of(s)[47]);
    } else if i == 21 {
        assert(net_of(t)[21] == net_of(s)[21]);
    } else if i == 22 {
        assert(net_of(t)[22] == net_of(s)[22]);
    } else if i == 23 {
        assert(net_of(t)[23] == net_of(s)[50]);
    } else if i == 24 {
        assert(net_of(t)[24] == net_of(s)[24]);
    } else if i == 25 {
        assert(net_of(t)[25] == net_of(s)[25]);
    } else if i == 26 {
        assert(net_of(t)[26] == net_of(s)[53]);
    } else if i == 27 {
        assert(net_of(t)[27] == net_of(s)[33]);
    } else if i == 28 {
        assert(net_of(t)[28] == net_of(s)[30]);
    } else if i == 29 {
        assert(net_of(t)[29] == net_of(s)[27]);
    } else if i == 30 {
        assert(net_of(t)[30] == net_of(s)[34]);
    } else if i == 31 {
        assert(net_of(t)[31] == net_of(s)[31]);
    } else if i == 32 {
        assert(net_of(t)[32] == net_of(s)[28]);
    } else if i == 33 {
        assert(net_of(t)[33] == net_of(s)[35]);
    } else if i == 34 {
        assert(net_of(t)[34] == net_of(s)[32]);
    } else if i == 35 {
        assert(net_of(t)[35] == net_of(s)[29]);
    } else if i == 36 {
        assert(net_of(t)[36] == net_of(s)[8]);
    } else if i == 37 {
        assert(net_of(t)[37] == net_of(s)[37]);
    } else if i == 38 {
        assert(net_of(t)[38] == net_of(s)[38]);
    } else if i == 39 {
        assert(net_of(t)[39] == net_of(s)[5]);
    } else if i == 40 {
        assert(net_of(t)[40] == net_of(s)[40]);
    } else if i == 41 {
        assert(net_of(t)[41] == net_of(s)[41]);
    } else if i == 42 {
        assert(net_of(t)[42] == net_of(s)[2]);
    } else if i == 43 {
        assert(net_of(t)[43] == net_of(s)[43]);
    } else if i == 44 {
        assert(net_of(t)[44] == net_of(s)[44]);
    } else if i == 45 {
        assert(net_of(t)[45] == net_of(s)[45]);
    } else if i == 46 {
        assert(net_of(t)[46] == net_of(s)[46]);
    } else if i == 47 {
        assert(net_of(t)[47] == net_of(s)[42]);
    } else if i == 48 {
        assert(net_of(t)[48] == net_of(s)[48]);
    } else if i == 49 {
        assert(net_of(t)[49] == net_of(s)[49]);
    } else if i == 50 {
        assert(net_of(t)[50] == net_of(s)[39]);
    } else if i == 51 {
        assert(net_of(t)[51] == net_of(s)[51]);
    } else if i == 52 {
        assert(net_of(t)[52] == net_of(s)[52]);
    } else if i == 53 {
        assert(net_of(t)[53] == net_of(s)[36]);
    }
}

#[verifier::spinoff_prover]
#[verifier::rlimit(50)]
proof fn lemma_quarter_facelet_b(s: CubeState, i: int)
    requires
        valid_state(s),
        0 <= i < 54,
    ensures
        net_of(turned(s, quarter(MoveAxis::B)))[i] == net_of(s)[quarter_net_source(MoveAxis::B, i)],
{
    lemma_edge_quarter(s, MoveAxis::B);
    lemma_corner_quarter(s, MoveAxis::B);
    let t = turned(s, quarter(MoveAxis::B));
    if i == 0 {
        assert(net_of(t)[0] == net_of(s)[29]);
    } else if i == 1 {
        assert(net_of(t)[1] == net_of(s)[32]);
    } else if i == 2 {
        assert(net_of(t)[2] == net_of(s)[35]);
    } else if i == 3 {
        assert(net_of(t)[3] == net_of(s)[3]);
    } else if i == 4 {
        assert(net_of(t)[4] == net_of(s)[4]);
    } else if i == 5 {
        assert(net_of(t)[5] == net_of(s)[5]);
    } else if i == 6 {
        assert(net_of(t)[6] == net_of(s)[6]);
    } else if i == 7 {
        assert(net_of(t)[7] == net_of(s)[7]);
    } else if i == 8 {
        assert(net_of(t)[8] == net_of(s)[8]);
    } else if i == 9 {
        assert(net_of(t)[9] == net_of(s)[2]);
    } else if i == 10 {
        assert(net_of(t)[10] == net_of(s)[10]);
    } else if i == 11 {
        assert(net_of(t)[11] == net_of(s)[11]);
    } else if i == 12 {
        assert(net_of(t)[12] == net_of(s)[1]);
    } else if i == 13 {
        assert(net_of(t)[13] == net_of(s)[13]);
    } else if i == 14 {
        assert(net_of(t)[14] == net_of(s)[14]);
    } else if i == 15 {
        assert(net_of(t)[15] == net_of(s)[0]);
    } else if i == 16 {
        assert(net_of(t)[16] == net_of(s)[16]);
    } else if i == 17 {
        assert(net_of(t)[17] == net_of(s)[17]);
    } else if i == 18 {
        assert(net_of(t)[18] == net_of(s)[18]);
    } else if i == 19 {
        assert(net_of(t)[19] == net_of(s)[19]);
    } else if i == 20 {
        assert(net_of(t)[20] == net_of(s)[20]);
    } else if i == 21 {
        assert(net_of(t)[21] == net_of(s)[21]);
    } else if i == 22 {
        assert(net_of(t)[22] == net_of(s)[22]);
    } else if i == 23 {
        assert(net_of(t)[23] == net_of(s)[23]);
    } else if i == 24 {
        assert(net_of(t)[24] == net_of(s)[24]);
    } else if i == 25 {
        assert(net_of(t)[25] == net_of(s)[25]);
    } else if i == 26 {
        assert(net_of(t)[26] == net_of(s)[26]);
    } else if i == 27 {
        assert(net_of(t)[27] == net_of(s)[27]);
    } else if i == 28 {
        assert(net_of(t)[28] == net_of(s)[28]);
    } else if i == 29 {
        assert(net_of(t)[29] == net_of(s)[53]);
    } else if i == 30 {
        assert(net_of(t)[30] == net_of(s)[30]);
    } else if i == 31 {
        assert(net_of(t)[31] == net_of(s)[31]);
    } else if i == 32 {
        assert(net_of(t)[32] == net_of(s)[52]);
    } else if i == 33 {
        assert(net_of(t)[33] == net_of(s)[33]);
    } else if i == 34 {
        assert(net_of(t)[34] == net_of(s)[34]);
    } else if i == 35 {
        assert(net_of(t)[35] == net_of(s)[51]);
    } else if i == 36 {
        assert(net_of(t)[36] == net_of(s)[42]);
    } else if i == 37 {
        assert(net_of(t)[37] == net_of(s)[39]);
    } else if i == 38 {
        assert(net_of(t)[38] == net_of(s)[36]);
    } else if i == 39 {
        assert(net_of(t)[39] == net_of(s)[43]);
    } else if i == 40 {
        assert(net_of(t)[40] == net_of(s)[40]);
    } else if i == 41 {
        assert(net_of(t)[41] == net_of(s)[37]);
    } else if i == 42 {
        assert(net_of(t)[42] == net_of(s)[44]);
    } else if i == 43 {
        assert(net_of(t)[43] == net_of(s)[41]);
    } else if i == 44 {
        assert(net_of(t)[44] == net_of(s)[38]);
    } else if i == 45 {
        assert(net_of(t)[45] == net_of(s)[45]);
    } else if i == 46 {
        assert(net_of(t)[46] == net_of(s)[46]);
    } else if i == 47 {
        assert(net_of(t)[47] == net_of(s)[47]);
    } else if i == 48 {
        assert(net_of(t)[48] == net_of(s)[48]);
    } else if i == 49 {
        assert(net_of(t)[49] == net_of(s)[49]);
    } else if i == 50 {
        assert(net_of(t)[50] == net_of(s)[50]);
    } else if i == 51 {
        assert(net_of(t)[51] == net_of(s)[9]);
    } else if i == 52 {
        assert(net_of(t)[52] == net_of(s)[12]);
    } else if i == 53 {
        assert(net_of(t)[53] == net_of(s)[15]);
    }
}

#[verifier::spinoff_prover]
#[verifier::rlimit(50)]
proof fn lemma_quarter_facelet_l(s: CubeState, i: int)
    requires
        valid_state(s),
        0 <= i < 54,
    ensures
        net_of(turned(s, quarter(MoveAxis::L)))[i] == net_of(s)[quarter_net_source(MoveAxis::L, i)],
{
    lemma_edge_quarter(s, MoveAxis::L);
    lemma_corner_quarter(s, MoveAxis::L);
    let t = turned(s, quarter(MoveAxis::L));
    if i == 0 {
        assert(net_of(t)[0] == net_of(s)[44]);
    } else if i == 1 {
        assert(net_of(t)[1] == net_of(s)[1]);
    } else if i == 2 {
        assert(net_of(t)[2] == net_of(s)[2]);
    } else if i == 3 {
        assert(net_of(t)[3] == net_of(s)[41]);
    } else if i == 4 {
        assert(net_of(t)[4] == net_of(s)[4]);
    } else if i == 5 {
        assert(net_of(t)[5] == net_of(s)[5]);
    } else if i == 6 {
        assert(net_of(t)[6] == net_of(s)[38]);
    } else if i == 7 {
        assert(net_of(t)[7] == net_of(s)[7]);
    } else if i == 8 {
        assert(net_of(t)[8] == net_of(s)[8]);
    } else if i == 9 {
        assert(net_of(t)[9] == net_of(s)[15]);
    } else if i == 10 {
        assert(net_of(t)[10] == net_of(s)[12]);
    } else if i == 11 {
        assert(net_of(t)[11] == net_of(s)[9]);
    } else if i == 12 {
        assert(net_of(t)[12] == net_of(s)[16]);
    } else if i == 13 {
        assert(net_of(t)[13] == net_of(s)[13]);
    } else if i == 14 {
        assert(net_of(t)[14] == net_of(s)[10]);
    } else if i == 15 {
        assert(net_of(t)[15] == net_of(s)[17]);
    } else if i == 16 {
        assert(net_of(t)[16] == net_of(s)[14]);
    } else if i == 17 {
        assert(net_of(t)[17] == net_of(s)[11]);
    } else if i == 18 {
        assert(net_of(t)[18] == net_of(s)[0]);
    } else if i == 19 {
        assert(net_of(t)[19] == net_of(s)[19]);
    } else if i == 20 {
        assert(net_of(t)[20] == net_of(s)[20]);
    } else if i == 21 {
        assert(net_of(t)[21] == net_of(s)[3]);
    } else if i == 22 {
        assert(net_of(t)[22] == net_of(s)[22]);
    } else if i == 23 {
        assert(net_of(t)[23] == net_of(s)[23]);
    } else if i == 24 {
        assert(net_of(t)[24] == net_of(s)[6]);
    } else if i == 25 {
        assert(net_of(t)[25] == net_of(s)[25]);
    } else if i == 26 {
        assert(net_of(t)[26] == net_of(s)[26]);
    } else if i == 27 {
        assert(net_of(t)[27] == net_of(s)[27]);
    } else if i == 28 {
        assert(net_of(t)[28] == net_of(s)[28]);
    } else if i == 29 {
        assert(net_of(t)[29] == net_of(s)[29]);
    } else if i == 30 {
        assert(net_of(t)[30] == net_of(s)[30]);
    } else if i == 31 {
        assert(net_of(t)[31] == net_of(s)[31]);
    } else if i == 32 {
        assert(net_of(t)[32] == net_of(s)[32]);
    } else if i == 33 {
        assert(net_of(t)[33] == net_of(s)[33]);
    } else if i == 34 {
        assert(net_of(t)[34] == net_of(s)[34]);
    } else if i == 35 {
        assert(net_of(t)[35] == net_of(s)[35]);
    } else if i == 36 {
        assert(net_of(t)[36] == net_of(s)[36]);
    } else if i == 37 {
        assert(net_of(t)[37] == net_of(s)[37]);
    } else if i == 38 {
        assert(net_of(t)[38] == net_of(s)[51]);
    } else if i == 39 {
        assert(net_of(t)[39] == net_of(s)[39]);
    } else if i == 40 {
        assert(net_of(t)[40] == net_of(s)[40]);
    } else if i == 41 {
        assert(net_of(t)[41] == net_of(s)[48]);
    } else if i == 42 {
        assert(net_of(t)[42] == net_of(s)[42]);
    } else if i == 43 {
        assert(net_of(t)[43] == net_of(s)[43]);
    } else if i == 44 {
        assert(net_of(t)[44] == net_of(s)[45]);
    } else if i == 45 {
        assert(net_of(t)[45] == net_of(s)[18]);
    } else if i == 46 {
        assert(net_of(t)[46] == net_of(s)[46]);
    } else if i == 47 {
        assert(net_of(t)[47] == net_of(s)[47]);
    } else if i == 48 {
        assert(net_of(t)[48] == net_of(s)[21]);
    } else if i == 49 {
        assert(net_of(t)[49] == net_of(s)[49]);
    } else if i == 50 {
        assert(net_of(t)[50] == net_of(s)[50]);
    } else if i == 51 {
        assert(net_of(t)[51] == net_of(s)[24]);
    } else if i == 52 {
        assert(net_of(t)[52] == net_of(s)[52]);
    } else if i == 53 {
        assert(net_of(t)[53] == net_of(s)[53]);
    }
}

#[verifier::spinoff_prover]
#[verifier::rlimit(50)]
proof fn lemma_quarter_facelet_d(s: CubeState, i: int)
    requires
        valid_state(s),
        0 <= i < 54,
    ensures
        net_of(turned(s, quarter(MoveAxis::D)))[i] == net_of(s)[quarter_net_source(MoveAxis::D, i)],
{
    lemma_edge_quarter(s, MoveAxis::D);
    lemma_corner_quarter(s, MoveAxis::D);
    let t = turned(s, quarter(MoveAxis::D));
    if i == 0 {
        assert(net_of(t)[0] == net_of(s)[0]);
    } else if i == 1 {
        assert(net_of(t)[1] == net_of(s)[1]);
    } else if i == 2 {
        assert(net_of(t)[2] == net_of(s)[2]);
    } else if i == 3 {
        assert(net_of(t)[3] == net_of(s)[3]);
    } else if i == 4 {
        assert(net_of(t)[4] == net_of(s)[4]);
    } else if i == 5 {
        assert(net_of(t)[5] == net_of(s)[5]);
    } else if i == 6 {
        assert(net_of(t)[6] == net_of(s)[6]);
    } else if i == 7 {
        assert(net_of(t)[7] == net_of(s)[7]);
    } else if i == 8 {
        assert(net_of(t)[8] == net_of(s)[8]);
    } else if i == 9 {
        assert(net_of(t)[9] == net_of(s)[9]);
    } else if i == 10 {
        assert(net_of(t)[10] == net_of(s)[10]);
    } else if i == 11 {
        assert(net_of(t)[11] == net_of(s)[11]);
    } else if i == 12 {
        assert(net_of(t)[12] == net_of(s)[12]);
    } else if i == 13 {
        assert(net_of(t)[13] == net_of(s)[13]);
    } else if i == 14 {
        assert(net_of(t)[14] == net_of(s)[14]);
    } else if i == 15 {
        assert(net_of(t)[15] == net_of(s)[42]);
    } else if i == 16 {
        assert(net_of(t)[16] == net_of(s)[43]);
    } else if i == 17 {
        assert(net_of(t)[17] == net_of(s)[44]);
    } else if i == 18 {
        assert(net_of(t)[18] == net_of(s)[18]);
    } else if i == 19 {
        assert(net_of(t)[19] == net_of(s)[19]);
    } else if i == 20 {
        assert(net_of(t)[20] == net_of(s)[20]);
    } else if i == 21 {
        assert(net_of(t)[21] == net_of(s)[21]);
    } else if i == 22 {
        assert(net_of(t)[22] == net_of(s)[22]);
    } else if i == 23 {
        assert(net_of(t)[23] == net_of(s)[23]);
    } else if i == 24 {
        assert(net_of(t)[24] == net_of(s)[15]);
    } else if i == 25 {
        assert(net_of(t)[25] == net_of(s)[16]);
    } else if i == 26 {
        assert(net_of(t)[26] == net_of(s)[17]);
    } else if i == 27 {
        assert(net_of(t)[27] == net_of(s)[27]);
    } else if i == 28 {
        assert(net_of(t)[28] == net_of(s)[28]);
    } else if i == 29 {
        assert(net_of(t)[29] == net_of(s)[29]);
    } else if i == 30 {
        assert(net_of(t)[30] == net_of(s)[30]);
    } else if i == 31 {
        assert(net_of(t)[31] == net_of(s)[31]);
    } else if i == 32 {
        assert(net_of(t)[32] == net_of(s)[32]);
    } else if i == 33 {
        assert(net_of(t)[33] == net_of(s)[24]);
    } else if i == 34 {
        assert(net_of(t)[34] == net_of(s)[25]);
    } else if i == 35 {
        assert(net_of(t)[35] == net_of(s)[26]);
    } else if i == 36 {
        assert(net_of(t)[36] == net_of(s)[36]);
    } else if i == 37 {
        assert(net_of(t)[37] == net_of(s)[37]);
    } else if i == 38 {
        assert(net_of(t)[38] == net_of(s)[38]);
    } else if i == 39 {
        assert(net_of(t)[39] == net_of(s)[39]);
    } else if i == 40 {
        assert(net_of(t)[40] == net_of(s)[40]);
    } else if i == 41 {
        assert(net_of(t)[41] == net_of(s)[41]);
    } else if i == 42 {
        assert(net_of(t)[42] == net_of(s)[33]);
    } else if i == 43 {
        assert(net_of(t)[43] == net_of(s)[34]);
    } else if i == 44 {
        assert(net_of(t)[44] == net_of(s)[35]);
    } else if i == 45 {
        assert(net_of(t)[45] == net_of(s)[51]);
    } else if i == 46 {
        assert(net_of(t)[46] == net_of(s)[48]);
    } else if i == 47 {
        assert(net_of(t)[47] == net_of(s)[45]);
    } else if i == 48 {
        assert(net_of(t)[48] == net_of(s)[52]);
    } else if i == 49 {
        assert(net_of(t)[49] == net_of(s)[49]);
    } else if i == 50 {
        assert(net_of(t)[50] == net_of(s)[46]);
    } else if i == 51 {
        assert(net_of(t)[51] == net_of(s)[53]);
    } else if i == 52 {
        assert(net_of(t)[52] == net_of(s)[50]);
    } else if i == 53 {
        assert(net_of(t)[53] == net_of(s)[47]);
    }
}


/// The net position that a clockwise quarter turn of `axis` sends the sticker at net
/// position `j` to.
pub open spec fn quarter_net_target(axis: MoveAxis, j: int) -> int {
    match axis {
        MoveAxis::U => {
            if j == 0 {
                2
            } else if j == 1 {
                5
            } else if j == 2 {
                8
            } else if j == 3 {
                1
            } else if j == 4 {
                4
            } else if j == 5 {
                7
            } else if j == 6 {
                0
            } else if j == 7 {
                3
            } else if j == 8 {
                6
            } else if j == 9 {
                36
            } else if j == 10 {
                37
            } else if j == 11 {
                38
            } else if j == 12 {
                12
            } else if j == 13 {
                13
            } else if j == 14 {
                14
            } else if j == 15 {
                15
            } else if j == 16 {
                16
            } else if j == 17 {
                17
            } else if j == 18 {
                9
            } else if j == 19 {
                10
            } else if j == 20 {
                11
            } else if j == 21 {
                21
            } else if j == 22 {
                22
            } else if j == 23 {
                23
            } else if j == 24 {
                24
            } else if j == 25 {
                25
            } else if j == 26 {
                26
            } else if j == 27 {
                18
            } else if j == 28 {
                19
            } else if j == 29 {
                20
            } else if j == 30 {
                30
            } else if j == 31 {
                31
            } else if j == 32 {
                32
            } else if j == 33 {
                33
            } else if j == 34 {
                34
            } else if j == 35 {
                35
            } else if j == 36 {
                27
            } else if j == 37 {
                28
            } else if j == 38 {
                29
            } else if j == 39 {
                39
            } else if j == 40 {
                40
            } else if j == 41 {
                41
            } else if j == 42 {
                42
            } else if j == 43 {
                43
            } else if j == 44 {
                44
            } else if j == 45 {
                45
            } else if j == 46 {
                46
            } else if j == 47 {
                47
            } else if j == 48 {
                48
            } else if j == 49 {
                49
            } else if j == 50 {
                50
            } else if j == 51 {
                51
            } else if j == 52 {
                52
            } else {
                53
            }
        },
        MoveAxis::F => {
            if j == 0 {
                0
            } else if j == 1 {
                1
            } else if j == 2 {
                2
            } else if j == 3 {
                3
            } else if j == 4 {
                4
            } else if j == 5 {
                5
            } else if j == 6 {
                27
            } else if j == 7 {
                30
            } else if j == 8 {
                33
            } else if j == 9 {
                9
            } else if j == 10 {
                10
            } else if j == 11 {
                8
            } else if j == 12 {
                12
            } else if j == 13 {
                13
            } else if j == 14 {
                7
            } else if j == 15 {
                15
            } else if j == 16 {
                16
            } else if j == 17 {
                6
            } else if j == 18 {
                20
            } else if j == 19 {
                23
            } else if j == 20 {
                26
            } else if j == 21 {
                19
            } else if j == 22 {
                22
            } else if j == 23 {
                25
            } else if j == 24 {
                18
            } else if j == 25 {
                21
            } else if j == 26 {
                24
            } else if j == 27 {
                47
            } else if j == 28 {
                28
            } else if j == 29 {
                29
            } else if j == 30 {
                46
            } else if j == 31 {
                31
            } else if j == 32 {
                32
            } else if j == 33 {
                45
            } else if j == 34 {
                34
            } else if j == 35 {
                35
            } else if j == 36 {
                36
            } else if j == 37 {
                37
            } else if j == 38 {
                38
            } else if j == 39 {
                39
            } else if j == 40 {
                40
            } else if j == 41 {
                41
            } else if j == 42 {
                42
            } else if j == 43 {
                43
            } else if j == 44 {
                44
            } else if j == 45 {
                11
            } else if j == 46 {
                14
            } else if j == 47 {
                17
            } else if j == 48 {
                48
            } else if j == 49 {
                49
            } else if j == 50 {
                50
            } else if j == 51 {
                51
            } else if j == 52 {
                52
            } else {
                53
            }
        },
        MoveAxis::R => {
            if j == 0 {
                0
            } else if j == 1 {
                1
            } else if j == 2 {
                42
            } else if j == 3 {
                3
            } else if j == 4 {
                4
            } else if j == 5 {
                39
            } else if j == 6 {
                6
            } else if j == 7 {
                7
            } else if j == 8 {
                36
            } else if j == 9 {
                9
            } else if j == 10 {
                10
            } else if j == 11 {
                11
            } else if j == 12 {
                12
            } else if j == 13 {
                13
            } else if j == 14 {
                14
            } else if j == 15 {
                15
            } else if j == 16 {
                16
            } else if j == 17 {
                17
            } else if j == 18 {
                18
            } else if j == 19 {
                19
            } else if j == 20 {
                2
            } else if j == 21 {
                21
            } else if j == 22 {
                22
            } else if j == 23 {
                5
            } else if j == 24 {
                24
            } else if j == 25 {
                25
            } else if j == 26 {
                8
            } else if j == 27 {
                29
            } else if j == 28 {
                32
            } else if j == 29 {
                35
            } else if j == 30 {
                28
            } else if j == 31 {
                31
            } else if j == 32 {
                34
            } else if j == 33 {
                27
            } else if j == 34 {
                30
            } else if j == 35 {
                33
            } else if j == 36 {
                53
            } else if j == 37 {
                37
            } else if j == 38 {
                38
            } else if j == 39 {
                50
            } else if j == 40 {
                40
            } else if j == 41 {
                41
            } else if j == 42 {
                47
            } else if j == 43 {
                43
            } else if j == 44 {
                44
            } else if j == 45 {
                45
            } else if j == 46 {
                46
            } else if j == 47 {
                20
            } else if j == 48 {
                48
            } else if j == 49 {
                49
            } else if j == 50 {
                23
            } else if j == 51 {
                51
            } else if j == 52 {
                52
            } else {
                26
            }
        },
        MoveAxis::B => {
            if j == 0 {
                15
            } else if j == 1 {
                12
            } else if j == 2 {
                9
            } else if j == 3 {
                3
            } else if j == 4 {
                4
            } else if j == 5 {
                5
            } else if j == 6 {
                6
            } else if j == 7 {
                7
            } else if j == 8 {
                8
            } else if j == 9 {
                51
            } else if j == 10 {
                10
            } else if j == 11 {
                11
            } else if j == 12 {
                52
            } else if j == 13 {
                13
            } else if j == 14 {
                14
            } else if j == 15 {
                53
            } else if j == 16 {
                16
            } else if j == 17 {
                17
            } else if j == 18 {
                18
            } else if j == 19 {
                19
            } else if j == 20 {
                20
            } else if j == 21 {
                21
            } else if j == 22 {
                22
            } else if j == 23 {
                23
            } else if j == 24 {
                24
            } else if j == 25 {
                25
            } else if j == 26 {
                26
            } else if j == 27 {
                27
            } else if j == 28 {
                28
            } else if j == 29 {
                0
            } else if j == 30 {
                30
            } else if j == 31 {
                31
            } else if j == 32 {
                1
            } else if j == 33 {
                33
            } else if j == 34 {
                34
            } else if j == 35 {
                2
            } else if j == 36 {
                38
            } else if j == 37 {
                41
            } else if j == 38 {
                44
            } else if j == 39 {
                37
            } else if j == 40 {
                40
            } else if j == 41 {
                43
            } else if j == 42 {
                36
            } else if j == 43 {
                39
            } else if j == 44 {
                42
            } else if j == 45 {
                45
            } else if j == 46 {
                46
            } else if j == 47 {
                47
            } else if j == 48 {
                48
            } else if j == 49 {
                49
            } else if j == 50 {
                50
            } else if j == 51 {
                35
            } else if j == 52 {
                32
            } else {
                29
            }
        },
        MoveAxis::L => {
            if j == 0 {
                18
            } else if j == 1 {
                1
            } else if j == 2 {
                2
            } else if j == 3 {
                21
            } else if j == 4 {
                4
            } else if j == 5 {
                5
            } else if j == 6 {
                24
            } else if j == 7 {
                7
            } else if j == 8 {
                8
            } else if j == 9 {
                11
            } else if j == 10 {
                14
            } else if j == 11 {
                17
            } else if j == 12 {
                10
            } else if j == 13 {
                13
            } else if j == 14 {
                16
            } else if j == 15 {
                9
            } else if j == 16 {
                12
            } else if j == 17 {
                15
            } else if j == 18 {
                45
            } else if j == 19 {
                19
            } else if j == 20 {
                20
            } else if j == 21 {
                48
            } else if j == 22 {
                22
            } else if j == 23 {
                23
            } else if j == 24 {
                51
            } else if j == 25 {
                25
            } else if j == 26 {
                26
            } else if j == 27 {
                27
            } else if j == 28 {
                28
            } else if j == 29 {
                29
            } else if j == 30 {
                30
            } else if j == 31 {
                31
            } else if j == 32 {
                32
            } else if j == 33 {
                33
            } else if j == 34 {
                34
            } else if j == 35 {
                35
            } else if j == 36 {
                36
            } else if j == 37 {
                37
            } else if j == 38 {
                6
            } else if j == 39 {
                39
            } else if j == 40 {
                40
            } else if j == 41 {
                3
            } else if j == 42 {
                42
            } else if j == 43 {
                43
            } else if j == 44 {
                0
            } else if j == 45 {
                44
            } else if j == 46 {
                46
            } else if j == 47 {
                47
            } else if j == 48 {
                41
            } else if j == 49 {
                49
            } else if j == 50 {
                50
            } else if j == 51 {
                38
            } else if j == 52 {
                52
            } else {
                53
            }
        },
        MoveAxis::D => {
            if j == 0 {
                0
            } else if j == 1 {
                1
            } else if j == 2 {
                2
            } else if j == 3 {
                3
            } else if j == 4 {
                4
            } else if j == 5 {
                5
            } else if j == 6 {
                6
            } else if j == 7 {
                7
            } else if j == 8 {
                8
            } else if j == 9 {
                9
            } else if j == 10 {
                10
            } else if j == 11 {
                11
            } else if j == 12 {
                12
            } else if j == 13 {
                13
            } else if j == 14 {
                14
            } else if j == 15 {
                24
            } else if j == 16 {
                25
            } else if j == 17 {
                26
            } else if j == 18 {
                18
            } else if j == 19 {
                19
            } else if j == 20 {
                20
            } else if j == 21 {
                21
            } else if j == 22 {
                22
            } else if j == 23 {
                23
            } else if j == 24 {
                33
            } else if j == 25 {
                34
            } else if j == 26 {
                35
            } else if j == 27 {
                27
            } else if j == 28 {
                28
            } else if j == 29 {
                29
            } else if j == 30 {
                30
            } else if j == 31 {
                31
            } else if j == 32 {
                32
            } else if j == 33 {
                42
            } else if j == 34 {
                43
            } else if j == 35 {
                44
            } else if j == 36 {
                36
            } else if j == 37 {
                37
            } else if j == 38 {
                38
            } else if j == 39 {
                39
            } else if j == 40 {
                40
            } else if j == 41 {
                41
            } else if j == 42 {
                15
            } else if j == 43 {
                16
            } else if j == 44 {
                17
            } else if j == 45 {
                47
            } else if j == 46 {
                50
            } else if j == 47 {
                53
            } else if j == 48 {
                46
            } else if j == 49 {
                49
            } else if j == 50 {
                52
            } else if j == 51 {
                45
            } else if j == 52 {
                48
            } else {
                51
            }
        },
    }
}

proof fn lemma_quarter_inverse_u(i: int)
    requires
        0 <= i < 54,
    ensures
        0 <= quarter_net_source(MoveAxis::U, i) < 54,
        quarter_net_target(MoveAxis::U, quarter_net_source(MoveAxis::U, i)) == i,
{
    if i == 0 {
    } else if i == 1 {
    } else if i == 2 {
    } else if i == 3 {
    } else if i == 4 {
    } else if i == 5 {
    } else if i == 6 {
    } else if i == 7 {
    } else if i == 8 {
    } else if i == 9 {
    } else if i == 10 {
    } else if i == 11 {
    } else if i == 12 {
    } else if i == 13 {
    } else if i == 14 {
    } else if i == 15 {
    } else if i == 16 {
    } else if i == 17 {
    } else if i == 18 {
    } else if i == 19 {
    } else if i == 20 {
    } else if i == 21 {
    } else if i == 22 {
    } else if i == 23 {
    } else if i == 24 {
    } else if i == 25 {
    } else if i == 26 {
    } else if i == 27 {
    } else if i == 28 {
    } else if i == 29 {
    } else if i == 30 {
    } else if i == 31 {
    } else if i == 32 {
    } else if i == 33 {
    } else if i == 34 {
    } else if i == 35 {
    } else if i == 36 {
    } else if i == 37 {
    } else if i == 38 {
    } else if i == 39 {
    } else if i == 40 {
    } else if i == 41 {
    } else if i == 42 {
    } else if i == 43 {
    } else if i == 44 {
    } else if i == 45 {
    } else if i == 46 {
    } else if i == 47 {
    } else if i == 48 {
    } else if i == 49 {
    } else if i == 50 {
    } else if i == 51 {
    } else if i == 52 {
    } else if i == 53 {
    }
}

proof fn lemma_quarter_inverse_f(i: int)
    requires
        0 <= i < 54,
    ensures
        0 <= quarter_net_source(MoveAxis::F, i) < 54,
        quarter_net_target(MoveAxis::F, quarter_net_source(MoveAxis::F, i)) == i,
{
    if i == 0 {
    } else if i == 1 {
    } else if i == 2 {
    } else if i == 3 {
    } else if i == 4 {
    } else if i == 5 {
    } else if i == 6 {
    } else if i == 7 {
    } else if i == 8 {
    } else if i == 9 {
    } else if i == 10 {
    } else if i == 11 {
    } else if i == 12 {
    } else if i == 13 {
    } else if i == 14 {
    } else if i == 15 {
    } else if i == 16 {
    } else if i == 17 {
    } else if i == 18 {
    } else if i == 19 {
    } else if i == 20 {
    } else if i == 21 {
    } else if i == 22 {
    } else if i == 23 {
    } else if i == 24 {
    } else if i == 25 {
    } else if i == 26 {
    } else if i == 27 {
    } else if i == 28 {
    } else if i == 29 {
    } else if i == 30 {
    } else if i == 31 {
    } else if i == 32 {
    } else if i == 33 {
    } else if i == 34 {
    } else if i == 35 {
    } else if i == 36 {
    } else if i == 37 {
    } else if i == 38 {
    } else if i == 39 {
    } else if i == 40 {
    } else if i == 41 {
    } else if i == 42 {
    } else if i == 43 {
    } else if i == 44 {
    } else if i == 45 {
    } else if i == 46 {
    } else if i == 47 {
    } else if i == 48 {
    } else if i == 49 {
    } else if i == 50 {
    } else if i == 51 {
    } else if i == 52 {
    } else if i == 53 {
    }
}

proof fn lemma_quarter_inverse_r(i: int)
    requires
        0 <= i < 54,
    ensures
        0 <= quarter_net_source(MoveAxis::R, i) < 54,
        quarter_net_target(MoveAxis::R, quarter_net_source(MoveAxis::R, i)) == i,
{
    if i == 0 {
    } else if i == 1 {
    } else if i == 2 {
    } else if i == 3 {
    } else if i == 4 {
    } else if i == 5 {
    } else if i == 6 {
    } else if i == 7 {
    } else if i == 8 {
    } else if i == 9 {
    } else if i == 10 {
    } else if i == 11 {
    } else if i == 12 {
    } else if i == 13 {
    } else if i == 14 {
    } else if i == 15 {
    } else if i == 16 {
    } else if i == 17 {
    } else if i == 18 {
    } else if i == 19 {
    } else if i == 20 {
    } else if i == 21 {
    } else if i == 22 {
    } else if i == 23 {
    } else if i == 24 {
    } else if i == 25 {
    } else if i == 26 {
    } else if i == 27 {
    } else if i == 28 {
    } else if i == 29 {
    } else if i == 30 {
    } else if i == 31 {
    } else if i == 32 {
    } else if i == 33 {
    } else if i == 34 {
    } else if i == 35 {
    } else if i == 36 {
    } else if i == 37 {
    } else if i == 38 {
    } else if i == 39 {
    } else if i == 40 {
    } else if i == 41 {
    } else if i == 42 {
    } else if i == 43 {
    } else if i == 44 {
    } else if i == 45 {
    } else if i == 46 {
    } else if i == 47 {
    } else if i == 48 {
    } else if i == 49 {
    } else if i == 50 {
    } else if i == 51 {
    } else if i == 52 {
    } else if i == 53 {
    }
}

proof fn lemma_quarter_inverse_b(i: int)
    requires
        0 <= i < 54,
    ensures
        0 <= quarter_net_source(MoveAxis::B, i) < 54,
        quarter_net_target(MoveAxis::B, quarter_net_source(MoveAxis::B, i)) == i,
{
    if i == 0 {
    } else if i == 1 {
    } else if i == 2 {
    } else if i == 3 {
    } else if i == 4 {
    } else if i == 5 {
    } else if i == 6 {
    } else if i == 7 {
    } else if i == 8 {
    } else if i == 9 {
    } else if i == 10 {
    } else if i == 11 {
    } else if i == 12 {
    } else if i == 13 {
    } else if i == 14 {
    } else if i == 15 {
    } else if i == 16 {
    } else if i == 17 {
    } else if i == 18 {
    } else if i == 19 {
    } else if i == 20 {
    } else if i == 21 {
    } else if i == 22 {
    } else if i == 23 {
    } else if i == 24 {
    } else if i == 25 {
    } else if i == 26 {
    } else if i == 27 {
    } else if i == 28 {
    } else if i == 29 {
    } else if i == 30 {
    } else if i == 31 {
    } else if i == 32 {
    } else if i == 33 {
    } else if i == 34 {
    } else if i == 35 {
    } else if i == 36 {
    } else if i == 37 {
    } else if i == 38 {
    } else if i == 39 {
    } else if i == 40 {
    } else if i == 41 {
    } else if i == 42 {
    } else if i == 43 {
    } else if i == 44 {
    } else if i == 45 {
    } else if i == 46 {
    } else if i == 47 {
    } else if i == 48 {
    } else if i == 49 {
    } else if i == 50 {
    } else if i == 51 {
    } else if i == 52 {
    } else if i == 53 {
    }
}

proof fn lemma_quarter_inverse_l(i: int)
    requires
        0 <= i < 54,
    ensures
        0 <= quarter_net_source(MoveAxis::L, i) < 54,
        quarter_net_target(MoveAxis::L, quarter_net_source(MoveAxis::L, i)) == i,
{
    if i == 0 {
    } else if i == 1 {
    } else if i == 2 {
    } else if i == 3 {
    } else if i == 4 {
    } else if i == 5 {
    } else if i == 6 {
    } else if i == 7 {
    } else if i == 8 {
    } else if i == 9 {
    } else if i == 10 {
    } else if i == 11 {
    } else if i == 12 {
    } else if i == 13 {
    } else if i == 14 {
    } else if i == 15 {
    } else if i == 16 {
    } else if i == 17 {
    } else if i == 18 {
    } else if i == 19 {
    } else if i == 20 {
    } else if i == 21 {
    } else if i == 22 {
    } else if i == 23 {
    } else if i == 24 {
    } else if i == 25 {
    } else if i == 26 {
    } else if i == 27 {
    } else if i == 28 {
    } else if i == 29 {
    } else if i == 30 {
    } else if i == 31 {
    } else if i == 32 {
    } else if i == 33 {
    } else if i == 34 {
    } else if i == 35 {
    } else if i == 36 {
    } else if i == 37 {
    } else if i == 38 {
    } else if i == 39 {
    } else if i == 40 {
    } else if i == 41 {
    } else if i == 42 {
    } else if i == 43 {
    } else if i == 44 {
    } else if i == 45 {
    } else if i == 46 {
    } else if i == 47 {
    } else if i == 48 {
    } else if i == 49 {
    } else if i == 50 {
    } else if i == 51 {
    } else if i == 52 {
    } else if i == 53 {
    }
}

proof fn lemma_quarter_inverse_d(i: int)
    requires
        0 <= i < 54,
    ensures
        0 <= quarter_net_source(MoveAxis::D, i) < 54,
        quarter_net_target(MoveAxis::D, quarter_net_source(MoveAxis::D, i)) == i,
{
    if i == 0 {
    } else if i == 1 {
    } else if i == 2 {
    } else if i == 3 {
    } else if i == 4 {
    } else if i == 5 {
    } else if i == 6 {
    } else if i == 7 {
    } else if i == 8 {
    } else if i == 9 {
    } else if i == 10 {
    } else if i == 11 {
    } else if i == 12 {
    } else if i == 13 {
    } else if i == 14 {
    } else if i == 15 {
    } else if i == 16 {
    } else if i == 17 {
    } else if i == 18 {
    } else if i == 19 {
    } else if i == 20 {
    } else if i == 21 {
    } else if i == 22 {
    } else if i == 23 {
    } else if i == 24 {
    } else if i == 25 {
    } else if i == 26 {
    } else if i == 27 {
    } else if i == 28 {
    } else if i == 29 {
    } else if i == 30 {
    } else if i == 31 {
    } else if i == 32 {
    } else if i == 33 {
    } else if i == 34 {
    } else if i == 35 {
    } else if i == 36 {
    } else if i == 37 {
    } else if i == 38 {
    } else if i == 39 {
    } else if i == 40 {
    } else if i == 41 {
    } else if i == 42 {
    } else if i == 43 {
    } else if i == 44 {
    } else if i == 45 {
    } else if i == 46 {
    } else if i == 47 {
    } else if i == 48 {
    } else if i == 49 {
    } else if i == 50 {
    } else if i == 51 {
    } else if i == 52 {
    } else if i == 53 {
    }
}

proof fn lemma_quarter_facelet(s: CubeState, a: MoveAxis, i: int)
    requires
        valid_state(s),
        0 <= i < 54,
    ensures
        net_of(turned(s, quarter(a)))[i] == net_of(s)[quarter_net_source(a, i)],
{
    match a {
        MoveAxis::U => lemma_quarter_facelet_u(s, i),
        MoveAxis::F => lemma_quarter_facelet_f(s, i),
        MoveAxis::R => lemma_quarter_facelet_r(s, i),
        MoveAxis::B => lemma_quarter_facelet_b(s, i),
        MoveAxis::L => lemma_quarter_facelet_l(s, i),
        MoveAxis::D => lemma_quarter_facelet_d(s, i),
    }
}

proof fn lemma_quarter_inverse(a: MoveAxis, i: int)
    requires
        0 <= i < 54,
    ensures
        0 <= quarter_net_source(a, i) < 54,
        quarter_net_target(a, quarter_net_source(a, i)) == i,
{
    match a {
        MoveAxis::U => lemma_quarter_inverse_u(i),
        MoveAxis::F => lemma_quarter_inverse_f(i),
        MoveAxis::R => lemma_quarter_inverse_r(i),
        MoveAxis::B => lemma_quarter_inverse_b(i),
        MoveAxis::L => lemma_quarter_inverse_l(i),
        MoveAxis::D => lemma_quarter_inverse_d(i),
    }
}

/// A clockwise quarter turn of any face carries the 54 stickers of the net along one
/// fixed permutation of the net positions, the same for every cube: the sticker at
/// position `i` afterwards is the one that was at `quarter_net_source(axis, i)`.
pub proof fn lemma_net_quarter_turn(s: CubeState, a: MoveAxis)
    requires
        valid_state(s),
    ensures
        forall|i: int| 0 <= i < 54 ==> 0 <= #[trigger] quarter_net_source(a, i) < 54,
        forall|i: int, j: int|
            0 <= i < 54 && 0 <= j < 54 && i != j ==> #[trigger] quarter_net_source(a, i)
                != #[trigger] quarter_net_source(a, j),
        forall|i: int|
            0 <= i < 54 ==> #[trigger] net_of(turned(s, quarter(a)))[i] == net_of(s)[quarter_net_source(
                a,
                i,
            )],
{
    assert forall|i: int| 0 <= i < 54 implies 0 <= #[trigger] quarter_net_source(a, i) < 54 by {
        lemma_quarter_inverse(a, i);
    }
    assert forall|i: int, j: int|
        0 <= i < 54 && 0 <= j < 54 && i != j implies #[trigger] quarter_net_source(a, i)
            != #[trigger] quarter_net_source(a, j) by {
        lemma_quarter_inverse(a, i);
        lemma_quarter_inverse(a, j);
    }
    assert forall|i: int| 0 <= i < 54 implies #[trigger] net_of(turned(s, quarter(a)))[i] == net_of(
        s,
    )[quarter_net_source(a, i)] by {
        lemma_quarter_facelet(s, a, i);
    }
}

/// The net position whose sticker move `mv` brings to net position `i`: the quarter
/// turn's permutation followed once per clockwise quarter turn of the move.
pub open spec fn move_net_source(mv: SingleMove, i: int) -> int {
    let q = spec_quarters(mv.dir);
    let p1 = quarter_net_source(mv.axis, i);
    let p2 = quarter_net_source(mv.axis, p1);
    if q == 1 {
        p1
    } else if q == 2 {
        p2
    } else {
        quarter_net_source(mv.axis, p2)
    }
}

/// Every move carries the 54 stickers of the net along one fixed permutation of the
/// net positions, the same for every cube: after the move, position `i` shows the
/// sticker that was at `move_net_source(mv, i)`, and no two positions take their
/// sticker from the same place.
pub proof fn lemma_net_follows_move(s: CubeState, mv: SingleMove)
    requires
        valid_state(s),
    ensures
        forall|i: int| 0 <= i < 54 ==> 0 <= #[trigger] move_net_source(mv, i) < 54,
        forall|i: int, j: int|
            0 <= i < 54 && 0 <= j < 54 && i != j ==> #[trigger] move_net_source(mv, i)
                != #[trigger] move_net_source(mv, j),
        forall|i: int|
            0 <= i < 54 ==> #[trigger] net_of(turned(s, mv))[i] == net_of(s)[move_net_source(mv, i)],
{
    let a = mv.axis;
    let q1 = quarter(a);
    lemma_net_quarter_turn(s, a);
    let t1 = turned(s, q1);
    lemma_turn_keeps_valid(s, q1);
    lemma_net_quarter_turn(t1, a);
    let t2 = turned(t1, q1);
    lemma_turn_keeps_valid(t1, q1);
    lemma_net_quarter_turn(t2, a);
    lemma_turn_combine(s, q1, q1);
    let dbl = SingleMove { axis: a, dir: MoveDirection::Dbl };
    assert(spec_combine(q1, q1) == Some(dbl));
    lemma_turn_combine(s, dbl, q1);
    let ccw = SingleMove { axis: a, dir: MoveDirection::CCw };
    assert(spec_combine(dbl, q1) == Some(ccw));
    assert(t2 == turned(s, dbl));
    assert(turned(t2, q1) == turned(s, ccw));
    assert(mv == q1 || mv == dbl || mv == ccw);
}


/// The sticker of `s` drawn at `row`, `col` of the timer screen's net, or a space
/// where the net has no cell.
pub open spec fn drawn_sticker(s: CubeState, row: int, col: int) -> char {
    match net_cell_at(row, col) {
        Some(i) => net_of(s)[i],
        None => ' ',
    }
}

proof fn lemma_block_turns_u(s: CubeState, r: int, c: int)
    requires
        valid_state(s),
        0 <= r < 3,
        0 <= c < 3,
    ensures
        drawn_sticker(turned(s, quarter(MoveAxis::U)), 0 + r, 3 + c) == drawn_sticker(s, 0 + 2 - c, 3 + r),
{
    lemma_net_quarter_turn(s, MoveAxis::U);
    if r == 0 && c == 0 {
    } else if r == 0 && c == 1 {
    } else if r == 0 && c == 2 {
    } else if r == 1 && c == 0 {
    } else if r == 1 && c == 1 {
    } else if r == 1 && c == 2 {
    } else if r == 2 && c == 0 {
    } else if r == 2 && c == 1 {
    } else if r == 2 && c == 2 {
    }
}

proof fn lemma_block_turns_l(s: CubeState, r: int, c: int)
    requires
        valid_state(s),
        0 <= r < 3,
        0 <= c < 3,
    ensures
        drawn_sticker(turned(s, quarter(MoveAxis::L)), 3 + r, 0 + c) == drawn_sticker(s, 3 + 2 - c, 0 + r),
{
    lemma_net_quarter_turn(s, MoveAxis::L);
    if r == 0 && c == 0 {
    } else if r == 0 && c == 1 {
    } else if r == 0 && c == 2 {
    } else if r == 1 && c == 0 {
    } else if r == 1 && c == 1 {
    } else if r == 1 && c == 2 {
    } else if r == 2 && c == 0 {
    } else if r == 2 && c == 1 {
    } else if r == 2 && c == 2 {
    }
}

proof fn lemma_block_turns_f(s: CubeState, r: int, c: int)
    requires
        valid_state(s),
        0 <= r < 3,
        0 <= c < 3,
    ensures
        drawn_sticker(turned(s, quarter(MoveAxis::F)), 3 + r, 3 + c) == drawn_sticker(s, 3 + 2 - c, 3 + r),
{
    lemma_net_quarter_turn(s, MoveAxis::F);
    if r == 0 && c == 0 {
    } else if r == 0 && c == 1 {
    } else if r == 0 && c == 2 {
    } else if r == 1 && c == 0 {
    } else if r == 1 && c == 1 {
    } else if r == 1 && c == 2 {
    } else if r == 2 && c == 0 {
    } else if r == 2 && c == 1 {
    } else if r == 2 && c == 2 {
    }
}

proof fn lemma_block_turns_r(s: CubeState, r: int, c: int)
    requires
        valid_state(s),
        0 <= r < 3,
        0 <= c < 3,
    ensures
        drawn_sticker(turned(s, quarter(MoveAxis::R)), 3 + r, 6 + c) == drawn_sticker(s, 3 + 2 - c, 6 + r),
{
    lemma_net_quarter_turn(s, MoveAxis::R);
    if r == 0 && c == 0 {
    } else if r == 0 && c == 1 {
    } else if r == 0 && c == 2 {
    } else if r == 1 && c == 0 {
    } else if r == 1 && c == 1 {
    } else if r == 1 && c == 2 {
    } else if r == 2 && c == 0 {
    } else if r == 2 && c == 1 {
    } else if r == 2 && c == 2 {
    }
}

proof fn lemma_block_turns_b(s: CubeState, r: int, c: int)
    requires
        valid_state(s),
        0 <= r < 3,
        0 <= c < 3,
    ensures
        drawn_sticker(turned(s, quarter(MoveAxis::B)), 3 + r, 9 + c) == drawn_sticker(s, 3 + 2 - c, 9 + r),
{
    lemma_net_quarter_turn(s, MoveAxis::B);
    if r == 0 && c == 0 {
    } else if r == 0 && c == 1 {
    } else if r == 0 && c == 2 {
    } else if r == 1 && c == 0 {
    } else if r == 1 && c == 1 {
    } else if r == 1 && c == 2 {
    } else if r == 2 && c == 0 {
    } else if r == 2 && c == 1 {
    } else if r == 2 && c == 2 {
    }
}

proof fn lemma_block_turns_d(s: CubeState, r: int, c: int)
    requires
        valid_state(s),
        0 <= r < 3,
        0 <= c < 3,
    ensures
        drawn_sticker(turned(s, quarter(MoveAxis::D)), 6 + r, 3 + c) == drawn_sticker(s, 6 + 2 - c, 3 + r),
{
    lemma_net_quarter_turn(s, MoveAxis::D);
    if r == 0 && c == 0 {
    } else if r == 0 && c == 1 {
    } else if r == 0 && c == 2 {
    } else if r == 1 && c == 0 {
    } else if r == 1 && c == 1 {
    } else if r == 1 && c == 2 {
    } else if r == 2 && c == 0 {
    } else if r == 2 && c == 1 {
    } else if r == 2 && c == 2 {
    }
}

proof fn lemma_ring_turns_u(s: CubeState, col: int)
    requires
        valid_state(s),
        0 <= col < 12,
    ensures
        drawn_sticker(turned(s, quarter(MoveAxis::U)), 3, col) == drawn_sticker(s, 3, (col + 3) % 12),
{
    lemma_net_quarter_turn(s, MoveAxis::U);
    if col == 0 {
        assert((col + 3) % 12 == 3);
    } else if col == 1 {
        assert((col + 3) % 12 == 4);
    } else if col == 2 {
        assert((col + 3) % 12 == 5);
    } else if col == 3 {
        assert((col + 3) % 12 == 6);
    } else if col == 4 {
        assert((col + 3) % 12 == 7);
    } else if col == 5 {
        assert((col + 3) % 12 == 8);
    } else if col == 6 {
        assert((col + 3) % 12 == 9);
    } else if col == 7 {
        assert((col + 3) % 12 == 10);
    } else if col == 8 {
        assert((col + 3) % 12 == 11);
    } else if col == 9 {
        assert((col + 3) % 12 == 0);
    } else if col == 10 {
        assert((col + 3) % 12 == 1);
    } else if col == 11 {
        assert((col + 3) % 12 == 2);
    }
}

proof fn lemma_ring_turns_d(s: CubeState, col: int)
    requires
        valid_state(s),
        0 <= col < 12,
    ensures
        drawn_sticker(turned(s, quarter(MoveAxis::D)), 5, col) == drawn_sticker(s, 5, (col + 9) % 12),
{
    lemma_net_quarter_turn(s, MoveAxis::D);
    if col == 0 {
        assert((col + 9) % 12 == 9);
    } else if col == 1 {
        assert((col + 9) % 12 == 10);
    } else if col == 2 {
        assert((col + 9) % 12 == 11);
    } else if col == 3 {
        assert((col + 9) % 12 == 0);
    } else if col == 4 {
        assert((col + 9) % 12 == 1);
    } else if col == 5 {
        assert((col + 9) % 12 == 2);
    } else if col == 6 {
        assert((col + 9) % 12 == 3);
    } else if col == 7 {
        assert((col + 9) % 12 == 4);
    } else if col == 8 {
        assert((col + 9) % 12 == 5);
    } else if col == 9 {
        assert((col + 9) % 12 == 6);
    } else if col == 10 {
        assert((col + 9) % 12 == 7);
    } else if col == 11 {
        assert((col + 9) % 12 == 8);
    }
}

/// The drawn net matches the cube's geometry: turning a face clockwise turns its
/// drawn block a quarter clockwise (U at the top, L, F, R and B side by side below it,
/// D at the bottom), and turning U carries the top row of the four side faces one face
/// to the left around the row, turning D carries their bottom row one face to the
/// right.
pub proof fn lemma_drawn_net_turns(s: CubeState)
    requires
        valid_state(s),
    ensures
        forall|r: int, c: int|
            0 <= r < 3 && 0 <= c < 3 ==> #[trigger] drawn_sticker(turned(s, quarter(MoveAxis::U)), 0 + r, 3 + c)
                == drawn_sticker(s, 0 + 2 - c, 3 + r),
        forall|r: int, c: int|
            0 <= r < 3 && 0 <= c < 3 ==> #[trigger] drawn_sticker(turned(s, quarter(MoveAxis::L)), 3 + r, 0 + c)
                == drawn_sticker(s, 3 + 2 - c, 0 + r),
        forall|r: int, c: int|
            0 <= r < 3 && 0 <= c < 3 ==> #[trigger] drawn_sticker(turned(s, quarter(MoveAxis::F)), 3 + r, 3 + c)
                == drawn_sticker(s, 3 + 2 - c, 3 + r),
        forall|r: int, c: int|
            0 <= r < 3 && 0 <= c < 3 ==> #[trigger] drawn_sticker(turned(s, quarter(MoveAxis::R)), 3 + r, 6 + c)
                == drawn_sticker(s, 3 + 2 - c, 6 + r),
        forall|r: int, c: int|
            0 <= r < 3 && 0 <= c < 3 ==> #[trigger] drawn_sticker(turned(s, quarter(MoveAxis::B)), 3 + r, 9 + c)
                == drawn_sticker(s, 3 + 2 - c, 9 + r),
        forall|r: int, c: int|
            0 <= r < 3 && 0 <= c < 3 ==> #[trigger] drawn_sticker(turned(s, quarter(MoveAxis::D)), 6 + r, 3 + c)
                == drawn_sticker(s, 6 + 2 - c, 3 + r),
        forall|col: int|
            0 <= col < 12 ==> #[trigger] drawn_sticker(turned(s, quarter(MoveAxis::U)), 3, col)
                == drawn_sticker(s, 3, (col + 3) % 12),
        forall|col: int|
            0 <= col < 12 ==> #[trigger] drawn_sticker(turned(s, quarter(MoveAxis::D)), 5, col)
                == drawn_sticker(s, 5, (col + 9) % 12),
{
    assert forall|r: int, c: int|
        0 <= r < 3 && 0 <= c < 3 implies #[trigger] drawn_sticker(turned(s, quarter(MoveAxis::U)), 0 + r, 3 + c)
            == drawn_sticker(s, 0 + 2 - c, 3 + r) by {
        lemma_block_turns_u(s, r, c);
    }
    assert forall|r: int, c: int|
        0 <= r < 3 && 0 <= c < 3 implies #[trigger] drawn_sticker(turned(s, quarter(MoveAxis::L)), 3 + r, 0 + c)
            == drawn_sticker(s, 3 + 2 - c, 0 + r) by {
        lemma_block_turns_l(s, r, c);
    }
    assert forall|r: int, c: int|
        0 <= r < 3 && 0 <= c < 3 implies #[trigger] drawn_sticker(turned(s, quarter(MoveAxis::F)), 3 + r, 3 + c)
            == drawn_sticker(s, 3 + 2 - c, 3 + r) by {
        lemma_block_turns_f(s, r, c);
    }
    assert forall|r: int, c: int|
        0 <= r < 3 && 0 <= c < 3 implies #[trigger] drawn_sticker(turned(s, quarter(MoveAxis::R)), 3 + r, 6 + c)
            == drawn_sticker(s, 3 + 2 - c, 6 + r) by {
        lemma_block_turns_r(s, r, c);
    }
    assert forall|r: int, c: int|
        0 <= r < 3 && 0 <= c < 3 implies #[trigger] drawn_sticker(turned(s, quarter(MoveAxis::B)), 3 + r, 9 + c)
            == drawn_sticker(s, 3 + 2 - c, 9 + r) by {
        lemma_block_turns_b(s, r, c);
    }
    assert forall|r: int, c: int|
        0 <= r < 3 && 0 <= c < 3 implies #[trigger] drawn_sticker(turned(s, quarter(MoveAxis::D)), 6 + r, 3 + c)
            == drawn_sticker(s, 6 + 2 - c, 3 + r) by {
        lemma_block_turns_d(s, r, c);
    }
    assert forall|col: int|
        0 <= col < 12 implies #[trigger] drawn_sticker(turned(s, quarter(MoveAxis::U)), 3, col)
            == drawn_sticker(s, 3, (col + 3) % 12) by {
        lemma_ring_turns_u(s, col);
    }
    assert forall|col: int|
        0 <= col < 12 implies #[trigger] drawn_sticker(turned(s, quarter(MoveAxis::D)), 5, col)
            == drawn_sticker(s, 5, (col + 9) % 12) by {
        lemma_ring_turns_d(s, col);
    }
}


/// A cell of the drawn net as the terminal shows it: the sticker that `net_cell_at`
/// puts there, or three spaces where the net has no cell.
pub open spec fn drawn_cell_text(net: Seq<char>, row: int, col: int) -> Seq<char> {
    match net_cell_at(row, col) {
        Some(i) => sticker_text(net[i]),
        None => seq![' ', ' ', ' '],
    }
}

/// The first `n` cells of row `row` of the drawn net.
pub open spec fn drawn_line(net: Seq<char>, row: int, n: int) -> Seq<char>
    decreases n,
{
    if n <= 0 {
        Seq::empty()
    } else {
        drawn_line(net, row, n - 1) + drawn_cell_text(net, row, n - 1)
    }
}

/// How many cells a row of the drawn net shows before its line ends: the U and D rows
/// end after their face, the middle rows after the fourth face.
pub open spec fn drawn_width(row: int) -> int {
    if 3 <= row < 6 {
        12
    } else {
        6
    }
}

/// The first `rows` rows of the drawn net, each ending with a line break.
pub open spec fn drawn_net_text(net: Seq<char>, rows: int) -> Seq<char>
    decreases rows,
{
    if rows <= 0 {
        Seq::empty()
    } else {
        drawn_net_text(net, rows - 1) + drawn_line(net, rows - 1, drawn_width(rows - 1)) + seq!['\n']
    }
}

proof fn lemma_cells_three(net: Seq<char>, start: int)
    ensures
        cells_text(net, start, 3) == sticker_text(net[start]) + sticker_text(net[start + 1])
            + sticker_text(net[start + 2]),
{
    reveal_with_fuel(cells_text, 4);
    assert(cells_text(net, start, 0) =~= Seq::<char>::empty());
    assert(cells_text(net, start, 1) =~= sticker_text(net[start]));
}

proof fn lemma_outer_line(net: Seq<char>, row: int, start: int)
    requires
        0 <= row < 3 && start == row * 3 || 6 <= row < 9 && start == 45 + (row - 6) * 3,
    ensures
        drawn_line(net, row, 6) == margin() + cells_text(net, start, 3),
{
    reveal_with_fuel(drawn_line, 7);
    lemma_cells_three(net, start);
    reveal_strlit("         ");
    assert(margin() =~= seq![' ', ' ', ' '] + seq![' ', ' ', ' '] + seq![' ', ' ', ' ']);
    assert(drawn_line(net, row, 0) =~= Seq::<char>::empty());
    assert(drawn_line(net, row, 6) =~= margin() + cells_text(net, start, 3));
}

proof fn lemma_middle_line(net: Seq<char>, r: int)
    requires
        0 <= r < 3,
    ensures
        drawn_line(net, 3 + r, 12) + seq!['\n'] == middle_row(net, r),
{
    reveal_with_fuel(drawn_line, 13);
    lemma_cells_three(net, 9 + r * 3);
    lemma_cells_three(net, 18 + r * 3);
    lemma_cells_three(net, 27 + r * 3);
    lemma_cells_three(net, 36 + r * 3);
    assert(drawn_line(net, 3 + r, 0) =~= Seq::<char>::empty());
    assert(drawn_line(net, 3 + r, 12) + seq!['\n'] =~= middle_row(net, r));
}

proof fn lemma_top_part(net: Seq<char>, k: int)
    requires
        0 <= k <= 3,
    ensures
        drawn_net_text(net, k) == top_rows(net, k),
    decreases k,
{
    if k > 0 {
        lemma_top_part(net, k - 1);
        lemma_outer_line(net, k - 1, (k - 1) * 3);
    }
}

proof fn lemma_middle_part(net: Seq<char>, k: int)
    requires
        0 <= k <= 3,
    ensures
        drawn_net_text(net, 3 + k) == top_rows(net, 3) + middle_rows(net, k),
    decreases k,
{
    if k == 0 {
        lemma_top_part(net, 3);
        assert(middle_rows(net, 0) =~= Seq::<char>::empty());
        assert(top_rows(net, 3) + middle_rows(net, 0) =~= top_rows(net, 3));
    } else {
        lemma_middle_part(net, k - 1);
        lemma_middle_line(net, k - 1);
        assert(drawn_net_text(net, 3 + k) =~= top_rows(net, 3) + middle_rows(net, k));
    }
}

proof fn lemma_bottom_part(net: Seq<char>, k: int)
    requires
        0 <= k <= 3,
    ensures
        drawn_net_text(net, 6 + k) == top_rows(net, 3) + middle_rows(net, 3) + bottom_rows(net, k),
    decreases k,
{
    if k == 0 {
        lemma_middle_part(net, 3);
        assert(bottom_rows(net, 0) =~= Seq::<char>::empty());
        assert(top_rows(net, 3) + middle_rows(net, 3) + bottom_rows(net, 0) =~= top_rows(net, 3)
            + middle_rows(net, 3));
    } else {
        lemma_bottom_part(net, k - 1);
        lemma_outer_line(net, 5 + k, 45 + (k - 1) * 3);
        assert(drawn_net_text(net, 6 + k) =~= top_rows(net, 3) + middle_rows(net, 3) + bottom_rows(
            net,
            k,
        ));
    }
}

/// The terminal drawing of a cube (`Cube::to_display`) is the timer screen's net
/// (`net_cell`) written out row by row: each cell shows the sticker `net_cell` puts
/// there, three spaces stand for a cell without a sticker, and each row ends after its
/// last sticker.
pub proof fn lemma_display_is_drawn_net(net: Seq<char>)
    requires
        net.len() == 54,
    ensures
        display_text(net) == drawn_net_text(net, 9),
{
    lemma_bottom_part(net, 3);
}

} // verus!
