//! The colours of a cube reached by moves: each of the six colours shows on exactly
//! nine stickers.

use vstd::prelude::*;
use crate::cube::{
    CubeState,
    turned,
    apply_moves,
    solved_state,
    face_edges,
    face_corners,
    source_slot,
    edge_after,
    corner_after,
    twisted,
    face_twist,
    lemma_face_cycles,
    lemma_source_back,
    lemma_turn_keeps_oris,
    oris_ok,
};
use crate::moves::{SingleMove, spec_quarters};
use crate::solver::lemma_flip_keeps_id;
use crate::faces::{edge_color_of, corner_color_of, edge_sticker, corner_sticker, net_of, net_face, sticker, is_color, colors_ok};

verus! {

/// A state whose pieces are all there: twelve different edge pieces, eight different
/// corner pieces, edge values of five bits and corner orientations 0 to 2.
pub open spec fn valid_state(s: CubeState) -> bool {
    &&& s.edges.len() == 12
    &&& s.corners.len() == 8
    &&& forall|i: int| 0 <= i < 12 ==> #[trigger] s.edges[i] < 32 && s.edges[i] % 16 < 12
    &&& forall|i: int| 0 <= i < 8 ==> #[trigger] s.corners[i] < 32 && s.corners[i] / 8 < 3
    &&& forall|i: int, j: int| 0 <= i < j < 12 ==> #[trigger] s.edges[i] % 16 != #[trigger] s.edges[j] % 16
    &&& forall|i: int, j: int| 0 <= i < j < 8 ==> #[trigger] s.corners[i] % 8 != #[trigger] s.corners[j] % 8
}

proof fn lemma_flip_small(v: u64)
    by (bit_vector)
    requires
        v < 32,
    ensures
        (v ^ 0x10) < 32,
{
}

/// A face turn moves the slots of a face along a cycle, so two slots never take their
/// content from the same slot.
proof fn lemma_source_injective(f: Seq<u64>, q: int, a: u64, b: u64)
    requires
        crate::cube::cycle4(f),
        1 <= q <= 3,
        a != b,
    ensures
        source_slot(f, q, a) != source_slot(f, q, b),
{
    lemma_source_back(f, 4 - q, q, a);
    lemma_source_back(f, 4 - q, q, b);
}

/// A face turn keeps a state valid.
pub proof fn lemma_turn_keeps_valid(s: CubeState, mv: SingleMove)
    requires
        valid_state(s),
    ensures
        valid_state(turned(s, mv)),
{
    lemma_face_cycles(mv.axis);
    lemma_turn_keeps_oris(s, mv);
    let t = turned(s, mv);
    let f = face_edges(mv.axis);
    let g = face_corners(mv.axis);
    let q = spec_quarters(mv.dir);
    assert forall|i: int| 0 <= i < 12 implies #[trigger] t.edges[i] < 32 && t.edges[i] % 16 < 12
        && t.edges[i] % 16 == s.edges[source_slot(f, q, i as u64) as int] % 16 by {
        let v = s.edges[source_slot(f, q, i as u64) as int];
        lemma_flip_keeps_id(v);
        lemma_flip_small(v);
        assert(t.edges[i] == edge_after(s.edges, mv, i));
    }
    assert forall|i: int| 0 <= i < 8 implies #[trigger] t.corners[i] < 32 && t.corners[i] % 8
        == s.corners[source_slot(g, q, i as u64) as int] % 8 by {
        let v = s.corners[source_slot(g, q, i as u64) as int];
        assert(t.corners[i] == corner_after(s.corners, mv, i));
        assert(v / 8 < 3);
        assert(twisted(face_twist(mv.axis), v) % 8 == v % 8);
    }
    assert forall|i: int, j: int| 0 <= i < j < 12 implies #[trigger] t.edges[i] % 16
        != #[trigger] t.edges[j] % 16 by {
        lemma_source_injective(f, q, i as u64, j as u64);
        let a = source_slot(f, q, i as u64) as int;
        let b = source_slot(f, q, j as u64) as int;
        assert(t.edges[i] % 16 == s.edges[a] % 16);
        assert(t.edges[j] % 16 == s.edges[b] % 16);
        if a < b {
            assert(s.edges[a] % 16 != s.edges[b] % 16);
        } else {
            assert(s.edges[b] % 16 != s.edges[a] % 16);
        }
    }
    assert forall|i: int, j: int| 0 <= i < j < 8 implies #[trigger] t.corners[i] % 8
        != #[trigger] t.corners[j] % 8 by {
        lemma_source_injective(g, q, i as u64, j as u64);
        let a = source_slot(g, q, i as u64) as int;
        let b = source_slot(g, q, j as u64) as int;
        assert(t.corners[i] % 8 == s.corners[a] % 8);
        assert(t.corners[j] % 8 == s.corners[b] % 8);
        if a < b {
            assert(s.corners[a] % 8 != s.corners[b] % 8);
        } else {
            assert(s.corners[b] % 8 != s.corners[a] % 8);
        }
    }
}

/// Every state reached by moves from the solved cube is valid.
pub proof fn lemma_apply_keeps_valid(s: CubeState, moves: Seq<SingleMove>)
    requires
        valid_state(s),
    ensures
        valid_state(apply_moves(s, moves)),
    decreases moves.len(),
{
    if moves.len() > 0 {
        lemma_turn_keeps_valid(s, moves[0]);
        lemma_apply_keeps_valid(turned(s, moves[0]), moves.drop_first());
    }
}

pub proof fn lemma_solved_valid()
    ensures
        valid_state(solved_state()),
{
}

/// 1 for true, 0 for false.
pub open spec fn ind(b: bool) -> int {
    if b {
        1
    } else {
        0
    }
}

/// How many of the first `n` entries of `s` are `c`.
pub open spec fn count_upto(s: Seq<char>, n: int, c: char) -> int
    decreases n,
{
    if n <= 0 {
        0
    } else {
        count_upto(s, n - 1, c) + ind(s[n - 1] == c)
    }
}

/// How many entries of `s` are `c`.
pub open spec fn count_char(s: Seq<char>, c: char) -> int {
    count_upto(s, s.len() as int, c)
}

/// `f(0) + ... + f(n - 1)`.
pub open spec fn sum_to(f: spec_fn(int) -> int, n: int) -> int
    decreases n,
{
    if n <= 0 {
        0
    } else {
        sum_to(f, n - 1) + f(n - 1)
    }
}

/// `f(s[0]) + ... + f(s[n - 1])`.
pub open spec fn sum_over(s: Seq<int>, f: spec_fn(int) -> int, n: int) -> int
    decreases n,
{
    if n <= 0 {
        0
    } else {
        sum_over(s, f, n - 1) + f(s[n - 1])
    }
}

proof fn lemma_sum_to_ext(f: spec_fn(int) -> int, g: spec_fn(int) -> int, n: int)
    requires
        forall|x: int| 0 <= x < n ==> #[trigger] f(x) == g(x),
    ensures
        sum_to(f, n) == sum_to(g, n),
    decreases n,
{
    if n > 0 {
        lemma_sum_to_ext(f, g, n - 1);
    }
}

proof fn lemma_sum_over_ext(s: Seq<int>, f: spec_fn(int) -> int, t: Seq<int>, g: spec_fn(int) -> int, n: int)
    requires
        forall|i: int| 0 <= i < n ==> #[trigger] f(s[i]) == g(t[i]),
    ensures
        sum_over(s, f, n) == sum_over(t, g, n),
    decreases n,
{
    if n > 0 {
        lemma_sum_over_ext(s, f, t, g, n - 1);
    }
}

/// The sum over `0 .. n` without `v`, written over `0 .. n - 1` by shifting the values
/// above `v` down by one.
pub open spec fn skip_at(f: spec_fn(int) -> int, v: int) -> spec_fn(int) -> int {
    |x: int|
        if x >= v {
            f(x + 1)
        } else {
            f(x)
        }
}

proof fn lemma_sum_skip(f: spec_fn(int) -> int, v: int, n: int)
    requires
        0 <= v < n,
    ensures
        sum_to(skip_at(f, v), n - 1) + f(v) == sum_to(f, n),
    decreases n,
{
    let g = skip_at(f, v);
    if v == n - 1 {
        assert forall|x: int| 0 <= x < n - 1 implies #[trigger] g(x) == f(x) by {}
        lemma_sum_to_ext(g, f, n - 1);
    } else {
        lemma_sum_skip(f, v, n - 1);
        assert(g(n - 2) == f(n - 1));
    }
}

/// Summing over a permutation of `0 .. n` is summing over `0 .. n`.
pub proof fn lemma_perm_sum(s: Seq<int>, f: spec_fn(int) -> int)
    requires
        forall|i: int| 0 <= i < s.len() ==> 0 <= #[trigger] s[i] < s.len(),
        forall|i: int, j: int| 0 <= i < j < s.len() ==> #[trigger] s[i] != #[trigger] s[j],
    ensures
        sum_over(s, f, s.len() as int) == sum_to(f, s.len() as int),
    decreases s.len(),
{
    let n = s.len() as int;
    if n > 0 {
        let v = s[n - 1];
        let t = Seq::new((n - 1) as nat, |i: int| if s[i] > v { s[i] - 1 } else { s[i] });
        let g = skip_at(f, v);
        assert forall|i: int| 0 <= i < t.len() implies 0 <= #[trigger] t[i] < t.len() by {
            assert(s[i] != s[n - 1]);
        }
        assert forall|i: int, j: int| 0 <= i < j < t.len() implies #[trigger] t[i] != #[trigger] t[j] by {
            assert(s[i] != s[j]);
            assert(s[i] != s[n - 1]);
            assert(s[j] != s[n - 1]);
        }
        lemma_perm_sum(t, g);
        assert forall|i: int| 0 <= i < n - 1 implies #[trigger] f(s[i]) == g(t[i]) by {
            assert(s[i] != s[n - 1]);
        }
        lemma_sum_over_ext(s, f, t, g, n - 1);
        lemma_sum_skip(f, v, n);
    }
}

/// How many stickers of edge piece `p` have colour `c`.
pub open spec fn edge_piece_count(p: int, c: char) -> int {
    ind(edge_color_of(p, 0) == c) + ind(edge_color_of(p, 1) == c)
}

/// How many stickers of corner piece `p` have colour `c`.
pub open spec fn corner_piece_count(p: int, c: char) -> int {
    ind(corner_color_of(p, 0) == c) + ind(corner_color_of(p, 1) == c) + ind(
        corner_color_of(p, 2) == c,
    )
}

/// How many stickers of edge slot `i` show colour `c`.
pub open spec fn edge_slot_count(s: CubeState, c: char) -> spec_fn(int) -> int {
    |i: int| ind(edge_sticker(s, i, 0) == c) + ind(edge_sticker(s, i, 1) == c)
}

/// How many stickers of corner slot `i` show colour `c`.
pub open spec fn corner_slot_count(s: CubeState, c: char) -> spec_fn(int) -> int {
    |i: int|
        ind(corner_sticker(s, i, 0) == c) + ind(corner_sticker(s, i, 1) == c) + ind(
            corner_sticker(s, i, 2) == c,
        )
}

/// How many face centres have colour `c`.
pub open spec fn center_count(c: char) -> int {
    ind('W' == c) + ind('G' == c) + ind('R' == c) + ind('B' == c) + ind('O' == c) + ind(
        'Y' == c,
    )
}

/// How many stickers of face `f` show colour `c`.
pub open spec fn face_count(s: CubeState, f: int, c: char) -> int {
    ind(sticker(s, f, 0) == c) + ind(sticker(s, f, 1) == c) + ind(sticker(s, f, 2) == c) + ind(
        sticker(s, f, 3) == c,
    ) + ind(sticker(s, f, 4) == c) + ind(sticker(s, f, 5) == c) + ind(sticker(s, f, 6) == c)
        + ind(sticker(s, f, 7) == c) + ind(sticker(s, f, 8) == c)
}

proof fn lemma_net_block(s: CubeState, c: char, j: int)
    requires
        0 <= j < 6,
    ensures
        count_upto(net_of(s), 9 * j + 9, c) == count_upto(net_of(s), 9 * j, c) + face_count(
            s,
            net_face(j),
            c,
        ),
{
    reveal_with_fuel(count_upto, 10);
    assert forall|k: int| 0 <= k < 9 implies #[trigger] net_of(s)[9 * j + k] == sticker(
        s,
        net_face(j),
        k,
    ) by {
        assert((9 * j + k) / 9 == j && (9 * j + k) % 9 == k) by (nonlinear_arith)
            requires
                0 <= k < 9,
        ;
    }
    assert(net_of(s)[9 * j + 0] == sticker(s, net_face(j), 0));
    assert(net_of(s)[9 * j + 1] == sticker(s, net_face(j), 1));
    assert(net_of(s)[9 * j + 2] == sticker(s, net_face(j), 2));
    assert(net_of(s)[9 * j + 3] == sticker(s, net_face(j), 3));
    assert(net_of(s)[9 * j + 4] == sticker(s, net_face(j), 4));
    assert(net_of(s)[9 * j + 5] == sticker(s, net_face(j), 5));
    assert(net_of(s)[9 * j + 6] == sticker(s, net_face(j), 6));
    assert(net_of(s)[9 * j + 7] == sticker(s, net_face(j), 7));
    assert(net_of(s)[9 * j + 8] == sticker(s, net_face(j), 8));
}

proof fn lemma_face_0(s: CubeState, c: char)
    ensures
        face_count(s, 0, c) == ind(corner_sticker(s, 2, 0) == c) + ind(edge_sticker(s, 3, 0) == c) + ind(corner_sticker(s, 3, 0) == c) + ind(edge_sticker(s, 2, 0) == c) + ind('W' == c) + ind(edge_sticker(s, 0, 0) == c) + ind(corner_sticker(s, 1, 0) == c) + ind(edge_sticker(s, 1, 0) == c) + ind(corner_sticker(s, 0, 0) == c),
{
}

proof fn lemma_face_1(s: CubeState, c: char)
    ensures
        face_count(s, 1, c) == ind(corner_sticker(s, 1, 1) == c) + ind(edge_sticker(s, 1, 1) == c) + ind(corner_sticker(s, 0, 1) == c) + ind(edge_sticker(s, 9, 0) == c) + ind('G' == c) + ind(edge_sticker(s, 8, 0) == c) + ind(corner_sticker(s, 5, 1) == c) + ind(edge_sticker(s, 5, 1) == c) + ind(corner_sticker(s, 4, 1) == c),
{
}

proof fn lemma_face_2(s: CubeState, c: char)
    ensures
        face_count(s, 2, c) == ind(corner_sticker(s, 0, 2) == c) + ind(edge_sticker(s, 0, 1) == c) + ind(corner_sticker(s, 3, 2) == c) + ind(edge_sticker(s, 8, 1) == c) + ind('R' == c) + ind(edge_sticker(s, 11, 1) == c) + ind(corner_sticker(s, 4, 2) == c) + ind(edge_sticker(s, 4, 1) == c) + ind(corner_sticker(s, 7, 2) == c),
{
}

proof fn lemma_face_3(s: CubeState, c: char)
    ensures
        face_count(s, 3, c) == ind(corner_sticker(s, 3, 1) == c) + ind(edge_sticker(s, 3, 1) == c) + ind(corner_sticker(s, 2, 1) == c) + ind(edge_sticker(s, 11, 0) == c) + ind('B' == c) + ind(edge_sticker(s, 10, 0) == c) + ind(corner_sticker(s, 7, 1) == c) + ind(edge_sticker(s, 7, 1) == c) + ind(corner_sticker(s, 6, 1) == c),
{
}

proof fn lemma_face_4(s: CubeState, c: char)
    ensures
        face_count(s, 4, c) == ind(corner_sticker(s, 2, 2) == c) + ind(edge_sticker(s, 2, 1) == c) + ind(corner_sticker(s, 1, 2) == c) + ind(edge_sticker(s, 10, 1) == c) + ind('O' == c) + ind(edge_sticker(s, 9, 1) == c) + ind(corner_sticker(s, 6, 2) == c) + ind(edge_sticker(s, 6, 1) == c) + ind(corner_sticker(s, 5, 2) == c),
{
}

proof fn lemma_face_5(s: CubeState, c: char)
    ensures
        face_count(s, 5, c) == ind(corner_sticker(s, 5, 0) == c) + ind(edge_sticker(s, 5, 0) == c) + ind(corner_sticker(s, 4, 0) == c) + ind(edge_sticker(s, 6, 0) == c) + ind('Y' == c) + ind(edge_sticker(s, 4, 0) == c) + ind(corner_sticker(s, 6, 0) == c) + ind(edge_sticker(s, 7, 0) == c) + ind(corner_sticker(s, 7, 0) == c),
{
}

/// The net shows the six centres and every sticker of every edge and corner slot once.
proof fn lemma_net_count(s: CubeState, c: char)
    ensures
        count_char(net_of(s), c) == center_count(c) + sum_to(edge_slot_count(s, c), 12) + sum_to(
            corner_slot_count(s, c),
            8,
        ),
{
    lemma_net_block(s, c, 0);
    lemma_net_block(s, c, 1);
    lemma_net_block(s, c, 2);
    lemma_net_block(s, c, 3);
    lemma_net_block(s, c, 4);
    lemma_net_block(s, c, 5);
    lemma_face_0(s, c);
    lemma_face_1(s, c);
    lemma_face_2(s, c);
    lemma_face_3(s, c);
    lemma_face_4(s, c);
    lemma_face_5(s, c);
    reveal_with_fuel(sum_to, 13);
    assert(count_upto(net_of(s), 0, c) == 0);
}

proof fn lemma_edge_slot(s: CubeState, c: char, i: int)
    requires
        valid_state(s),
        0 <= i < 12,
    ensures
        edge_slot_count(s, c)(i) == edge_piece_count((s.edges[i] % 16) as int, c),
{
    assert(s.edges[i] < 32);
}

proof fn lemma_corner_slot(s: CubeState, c: char, i: int)
    requires
        valid_state(s),
        0 <= i < 8,
    ensures
        corner_slot_count(s, c)(i) == corner_piece_count((s.corners[i] % 8) as int, c),
{
    assert(s.corners[i] / 8 < 3);
}

proof fn lemma_sum_to_over(f: spec_fn(int) -> int, ids: Seq<int>, g: spec_fn(int) -> int, n: int)
    requires
        forall|i: int| 0 <= i < n ==> #[trigger] f(i) == g(ids[i]),
    ensures
        sum_to(f, n) == sum_over(ids, g, n),
    decreases n,
{
    if n > 0 {
        lemma_sum_to_over(f, ids, g, n - 1);
    }
}

/// Every colour is on four edge pieces and four corner pieces.
proof fn lemma_piece_totals(c: char)
    requires
        is_color(c),
    ensures
        sum_to(|p: int| edge_piece_count(p, c), 12) == 4,
        sum_to(|p: int| corner_piece_count(p, c), 8) == 4,
        center_count(c) == 1,
{
    reveal_with_fuel(sum_to, 13);
}

/// A cube whose pieces are all there shows each of the six colours on exactly nine
/// stickers.
pub proof fn lemma_nine_of_each(s: CubeState, c: char)
    requires
        valid_state(s),
        is_color(c),
    ensures
        colors_ok(s),
        count_char(net_of(s), c) == 9,
{
    lemma_net_count(s, c);
    let ids = Seq::new(12, |i: int| (s.edges[i] % 16) as int);
    let pos = Seq::new(8, |i: int| (s.corners[i] % 8) as int);
    let ge = |p: int| edge_piece_count(p, c);
    let gc = |p: int| corner_piece_count(p, c);
    assert forall|i: int| 0 <= i < 12 implies #[trigger] edge_slot_count(s, c)(i) == ge(ids[i]) by {
        lemma_edge_slot(s, c, i);
    }
    assert forall|i: int| 0 <= i < 8 implies #[trigger] corner_slot_count(s, c)(i) == gc(pos[i]) by {
        lemma_corner_slot(s, c, i);
    }
    lemma_sum_to_over(edge_slot_count(s, c), ids, ge, 12);
    lemma_sum_to_over(corner_slot_count(s, c), pos, gc, 8);
    assert forall|i: int, j: int| 0 <= i < j < 12 implies #[trigger] ids[i] != #[trigger] ids[j] by {
        assert(s.edges[i] % 16 != s.edges[j] % 16);
    }
    assert forall|i: int, j: int| 0 <= i < j < 8 implies #[trigger] pos[i] != #[trigger] pos[j] by {
        assert(s.corners[i] % 8 != s.corners[j] % 8);
    }
    lemma_perm_sum(ids, ge);
    lemma_perm_sum(pos, gc);
    lemma_piece_totals(c);
}

/// Every cube reached by moves from the solved cube shows each of the six colours on
/// exactly nine stickers.
pub proof fn lemma_scrambled_colors(moves: Seq<SingleMove>, c: char)
    requires
        is_color(c),
    ensures
        colors_ok(apply_moves(solved_state(), moves)),
        count_char(net_of(apply_moves(solved_state(), moves)), c) == 9,
{
    lemma_solved_valid();
    lemma_apply_keeps_valid(solved_state(), moves);
    lemma_nine_of_each(apply_moves(solved_state(), moves), c);
}

} // verus!
