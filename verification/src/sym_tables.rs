//! The symmetry tables of phase one: corner orientations under the sixteen symmetries
//! that keep the middle slice in place, and the classes of (edge orientation, slice)
//! pairs that those symmetries map onto each other, with a move table over the classes.

use vstd::prelude::*;
use std::collections::HashMap;
use crate::cube::{CubeState, turned, oris_ok, solved_state};
use crate::coords::{
    KociembaCube,
    uds_symmetry,
    from_co_state,
    from_eo_uds_state,
    eo_coord,
    co_coord,
    uds_coord,
    rotation_ok,
    lemma_co_state_ok,
    lemma_eo_uds_state_ok,
    lemma_eo_uds_state_four,
    lemma_uds_four,
    lemma_eo_uds_roundtrip,
};
use crate::moves::{spec_move_at, move_at};
use crate::solver::lemma_turn_keeps_slice_count;
use crate::cube::lemma_turn_keeps_oris;
use crate::tables::{filled_u16, filled_u32};

verus! {

/// The edge orientation and slice coordinates of the cube built from `(eo, uds)` after
/// symmetry `i`.
pub open spec fn sym_pair(eo: int, uds: int, i: int) -> (int, int) {
    let s = uds_symmetry(from_eo_uds_state(eo, uds), i);
    (eo_coord(s), uds_coord(s))
}

/// The least pair (by edge orientation, then slice) among symmetries `0 .. n`, with the
/// first symmetry that gives it.
pub open spec fn canon_upto(eo: int, uds: int, n: int) -> (int, int, int)
    decreases n,
{
    if n <= 1 {
        (sym_pair(eo, uds, 0).0, sym_pair(eo, uds, 0).1, 0)
    } else {
        let c = canon_upto(eo, uds, n - 1);
        let p = sym_pair(eo, uds, n - 1);
        if p.0 < c.0 || (p.0 == c.0 && p.1 < c.1) {
            (p.0, p.1, n - 1)
        } else {
            c
        }
    }
}

/// The canonical pair of `(eo, uds)` over all sixteen symmetries, and its symmetry.
pub open spec fn canon_of(eo: int, uds: int) -> (int, int, int) {
    canon_upto(eo, uds, 16)
}

/// The canonical pair as one number.
pub open spec fn canon_key(eo: int, uds: int) -> int {
    canon_of(eo, uds).0 * 65536 + canon_of(eo, uds).1
}

/// Where move `m` takes the cube built from `(eo, uds)`, as an index of the
/// symmetry map.
pub open spec fn move_target(eo: int, uds: int, m: int) -> int {
    let t = turned(from_eo_uds_state(eo, uds), spec_move_at(m));
    eo_coord(t) * 495 + uds_coord(t)
}

/// The symmetry tables of phase one.
pub struct G1SymTables {
    /// Entry `co * 16 + sym`: the corner orientation coordinate of the cube built from
    /// `co` after symmetry `sym`.
    pub co_sym_map: Vec<u16>,
    /// Entry `eo * 495 + uds`: the class of the pair times 16, plus the symmetry that
    /// takes the pair to its canonical pair.
    pub eo_uds_sym_map: Vec<u32>,
    /// Entry `class * 18 + m`: the symmetry-map entry of the pair that move `m` leads
    /// to from a member of the class.
    pub eo_uds_sym_move: Vec<u32>,
}

spec fn co_entry_ok(map: Seq<u16>, co: int, sym: int) -> bool {
    map[co * 16 + sym] == co_coord(uds_symmetry(from_co_state(co), sym))
}

spec fn pair_done(e: int, u: int, eo: int, uds: int) -> bool {
    e < eo || (e == eo && u < uds)
}

spec fn pair_entry_ok(map: Seq<u32>, hm: Map<u32, u32>, e: int, u: int) -> bool {
    let v = map[e * 495 + u];
    &&& 0 <= canon_key(e, u) < 0x1_0000_0000
    &&& hm.contains_key(canon_key(e, u) as u32)
    &&& v / 16 == hm[canon_key(e, u) as u32]
    &&& v % 16 == canon_of(e, u).2
}

spec fn example_ok(hm: Map<u32, u32>, ex: (u16, u16), c: int) -> bool {
    &&& ex.0 < 2048
    &&& ex.1 < 495
    &&& hm.contains_key(canon_key(ex.0 as int, ex.1 as int) as u32)
    &&& hm[canon_key(ex.0 as int, ex.1 as int) as u32] == c
}

spec fn ids_distinct(hm: Map<u32, u32>) -> bool {
    forall|a: u32, b: u32|
        #![trigger hm[a], hm[b]]
        hm.contains_key(a) && hm.contains_key(b) && hm[a] == hm[b] ==> a == b
}

spec fn move_entry_ok(mv: Seq<u32>, map: Seq<u32>, ex: (u16, u16), c: int, m: int) -> bool {
    mv[c * 18 + m] == map[move_target(ex.0 as int, ex.1 as int, m)]
}

/// Two different (row, column) pairs of a table with rows of width `w` have different
/// flat indices.
pub(crate) proof fn lemma_slot_index(a: int, b: int, a2: int, b2: int, w: int)
    by (nonlinear_arith)
    requires
        0 <= b < w,
        0 <= b2 < w,
        a >= 0,
        a2 >= 0,
        a != a2 || b != b2,
    ensures
        a * w + b != a2 * w + b2,
{
    if a < a2 {
        assert(a * w + b < (a + 1) * w);
        assert((a + 1) * w <= a2 * w);
    } else if a > a2 {
        assert(a2 * w + b2 < (a2 + 1) * w);
        assert((a2 + 1) * w <= a * w);
    }
}

proof fn lemma_pack_class(id: u32, sym: u32)
    by (bit_vector)
    requires
        id < 0x100_0000,
        sym < 16,
    ensures
        ((id << 4) | sym) / 16 == id,
        ((id << 4) | sym) % 16 == sym,
{
}

/// The canonical pair of a cube and the symmetry that gives it, by trying all sixteen.
fn canonical_pair(cube: &KociembaCube, Ghost(eo): Ghost<int>, Ghost(uds): Ghost<int>) -> (r: (
    u16,
    u16,
    u8,
))
    requires
        cube.0@ == from_eo_uds_state(eo, uds),
        rotation_ok(cube.0@),
    ensures
        r.0 == canon_of(eo, uds).0,
        r.1 == canon_of(eo, uds).1,
        r.2 == canon_of(eo, uds).2,
        r.0 < 2048,
        r.2 < 16,
{
    let mut canon_eo = cube.get_eo_coord();
    let mut canon_uds = cube.get_uds_coord();
    let mut canon_sym: u8 = 0;
    let mut i: u8 = 1;
    while i < 16
        invariant
            1 <= i <= 16,
            cube.0@ == from_eo_uds_state(eo, uds),
            rotation_ok(cube.0@),
            canon_eo == canon_upto(eo, uds, i as int).0,
            canon_uds == canon_upto(eo, uds, i as int).1,
            canon_sym == canon_upto(eo, uds, i as int).2,
            canon_eo < 2048,
            canon_sym < i,
        decreases 16 - i,
    {
        let sym_cube = cube.apply_uds_symmetry(i);
        let sym_eo = sym_cube.get_eo_coord();
        if sym_eo < canon_eo {
            let sym_uds = sym_cube.get_uds_coord();
            canon_eo = sym_eo;
            canon_uds = sym_uds;
            canon_sym = i;
        } else if sym_eo == canon_eo {
            let sym_uds = sym_cube.get_uds_coord();
            if sym_uds < canon_uds {
                canon_eo = sym_eo;
                canon_uds = sym_uds;
                canon_sym = i;
            }
        }
        i = i + 1;
    }
    (canon_eo, canon_uds, canon_sym)
}

/// The corner orientation symmetry map.
fn gen_co_sym_map() -> (map: Vec<u16>)
    ensures
        map@.len() == 34992,
        forall|co: int, sym: int|
            0 <= co < 2187 && 0 <= sym < 16 ==> #[trigger] co_entry_ok(map@, co, sym),
{
    let mut map = filled_u16(34992, 0);
    let mut co: u16 = 0;
    while co < 2187
        invariant
            0 <= co <= 2187,
            map@.len() == 34992,
            forall|c: int, s: int| 0 <= c < co && 0 <= s < 16 ==> #[trigger] co_entry_ok(map@, c, s),
        decreases 2187 - co,
    {
        let cube = KociembaCube::from_co(co);
        proof {
            lemma_co_state_ok(co as int);
        }
        let mut sym: u8 = 0;
        while sym < 16
            invariant
                0 <= co < 2187,
                0 <= sym <= 16,
                cube.0@ == from_co_state(co as int),
                rotation_ok(cube.0@),
                map@.len() == 34992,
                forall|c: int, s: int|
                    0 <= s < 16 && (0 <= c < co || (c == co && 0 <= s < sym)) ==> #[trigger] co_entry_ok(
                        map@,
                        c,
                        s,
                    ),
            decreases 16 - sym,
        {
            let sym_cube = cube.apply_uds_symmetry(sym);
            let v = sym_cube.get_co_coord();
            proof {
                assert(co * 16 + sym < 34992) by (nonlinear_arith)
                    requires
                        co < 2187,
                        sym < 16,
                ;
            }
            let ghost before = map@;
            map.set((co as usize) * 16 + (sym as usize), v);
            proof {
                assert forall|c: int, s: int|
                    0 <= s < 16 && (0 <= c < co || (c == co && 0 <= s <= sym)) implies #[trigger] co_entry_ok(
                    map@,
                    c,
                    s,
                ) by {
                    if c != co || s != sym {
                        lemma_slot_index(c, s, co as int, sym as int, 16);
                        assert(co_entry_ok(before, c, s));
                    }
                }
            }
            sym = sym + 1;
        }
        co = co + 1;
    }
    map
}

/// `(eo, uds)` is its own canonical pair.
pub open spec fn is_canonical(eo: int, uds: int) -> bool {
    canon_of(eo, uds).0 == eo && canon_of(eo, uds).1 == uds
}

/// No pair before `(eo, uds)` in (edge orientation, slice) order is in its class.
pub open spec fn first_member(map: Seq<u32>, eo: int, uds: int) -> bool {
    forall|e: int, u: int|
        0 <= e < 2048 && 0 <= u < 495 && (e < eo || (e == eo && u < uds)) ==> #[trigger] class_of(
            map,
            e,
            u,
        ) != class_of(map, eo, uds)
}

proof fn lemma_canon_upto_le(eo: int, uds: int, n: int)
    requires
        n >= 1,
    ensures
        ({
            let c = canon_upto(eo, uds, n);
            let p = sym_pair(eo, uds, 0);
            c.0 < p.0 || (c.0 == p.0 && c.1 <= p.1)
        }),
    decreases n,
{
    if n > 1 {
        lemma_canon_upto_le(eo, uds, n - 1);
    }
}

/// A pair's canonical pair comes no later than the pair itself in (edge orientation,
/// slice) order, since the first of the symmetries leaves the pair as it is.
proof fn lemma_canon_le(eo: int, uds: int)
    requires
        0 <= eo < 2048,
        0 <= uds < 495,
    ensures
        canon_of(eo, uds).0 < eo || (canon_of(eo, uds).0 == eo && canon_of(eo, uds).1 <= uds),
{
    lemma_canon_upto_le(eo, uds, 16);
    lemma_eo_uds_roundtrip(eo, uds);
    let s = from_eo_uds_state(eo, uds);
    assert(uds_symmetry(s, 0) == s);
}

proof fn lemma_key_pair(a: int, b: int, c: int, d: int)
    by (nonlinear_arith)
    requires
        0 <= b < 65536,
        0 <= d < 65536,
        a * 65536 + b == c * 65536 + d,
    ensures
        a == c,
        b == d,
{
}

/// The examples of the classes: in increasing order, each met before the pair in
/// progress, each the first member of its class, and each canonical pair met so far the
/// example of its class.
spec fn examples_ok(map: Seq<u32>, hm: Map<u32, u32>, examples: Seq<(u16, u16)>, eo: int, uds: int) -> bool {
    &&& forall|i: int, j: int|
        0 <= i < j < examples.len() ==> pair_done(
            #[trigger] examples[i].0 as int,
            examples[i].1 as int,
            #[trigger] examples[j].0 as int,
            examples[j].1 as int,
        )
    &&& forall|c: int|
        0 <= c < examples.len() ==> pair_done(
            #[trigger] examples[c].0 as int,
            examples[c].1 as int,
            eo,
            uds,
        ) && 0 <= canon_of(examples[c].0 as int, examples[c].1 as int).0 < 2048 && 0 <= canon_of(
            examples[c].0 as int,
            examples[c].1 as int,
        ).1 < 65536
    &&& forall|c: int, e: int, u: int|
        #![trigger class_of(map, e, u), examples[c]]
        0 <= c < examples.len() && 0 <= e < 2048 && 0 <= u < 495 && pair_done(
            e,
            u,
            examples[c].0 as int,
            examples[c].1 as int,
        ) ==> class_of(map, e, u) != c
    &&& forall|e: int, u: int|
        0 <= e < 2048 && 0 <= u < 495 && pair_done(e, u, eo, uds) && #[trigger] is_canonical(e, u)
            ==> examples[hm[canon_key(e, u) as u32] as int] == (e as u16, u as u16)
}

spec fn classes_ok(map: Seq<u32>, hm: Map<u32, u32>, examples: Seq<(u16, u16)>, eo: int, uds: int) -> bool {
    &&& map.len() == 1013760
    &&& ids_distinct(hm)
    &&& forall|k: u32| #[trigger] hm.contains_key(k) ==> hm[k] < examples.len()
    &&& forall|c: int| 0 <= c < examples.len() ==> #[trigger] example_ok(hm, examples[c], c)
    &&& forall|e: int, u: int|
        0 <= e < 2048 && 0 <= u < 495 && pair_done(e, u, eo, uds) ==> #[trigger] pair_entry_ok(
            map,
            hm,
            e,
            u,
        )
}

/// Numbers the classes of (edge orientation, slice) pairs in the order their first
/// members come, and maps each pair to its class and canonical symmetry.
fn gen_eo_uds_classes() -> (r: (Vec<u32>, Vec<(u16, u16)>, Ghost<Map<u32, u32>>))
    ensures
        classes_ok(r.0@, r.2@, r.1@, 2048, 0),
        examples_ok(r.0@, r.2@, r.1@, 2048, 0),
        r.1@.len() <= 1013760,
        r.0@[0] / 16 == 0,
{
    let mut map = filled_u32(1013760, 0);
    let mut raw_to_compact: HashMap<u32, u32> = HashMap::new();
    let mut examples: Vec<(u16, u16)> = Vec::new();
    let mut next_id: u32 = 0;
    let mut eo: u16 = 0;
    while eo < 2048
        invariant
            0 <= eo <= 2048,
            classes_ok(map@, raw_to_compact@, examples@, eo as int, 0),
            examples_ok(map@, raw_to_compact@, examples@, eo as int, 0),
            next_id == examples@.len(),
            next_id <= eo * 495,
            eo > 0 ==> map@[0] / 16 == 0,
        decreases 2048 - eo,
    {
        let mut uds: u16 = 0;
        while uds < 495
            invariant
                0 <= eo < 2048,
                0 <= uds <= 495,
                classes_ok(map@, raw_to_compact@, examples@, eo as int, uds as int),
                examples_ok(map@, raw_to_compact@, examples@, eo as int, uds as int),
                next_id == examples@.len(),
                next_id <= eo * 495 + uds,
                eo > 0 || uds > 0 ==> map@[0] / 16 == 0,
            decreases 495 - uds,
        {
            let cube = KociembaCube::from_eo_uds(eo, uds);
            proof {
                lemma_eo_uds_state_ok(eo as int, uds as int);
            }
            let (c_eo, c_uds, c_sym) = canonical_pair(&cube, Ghost(eo as int), Ghost(uds as int));
            let key: u32 = (c_eo as u32) * 65536 + (c_uds as u32);
            proof {
                assert(eo * 495 + uds < 1013760) by (nonlinear_arith)
                    requires
                        eo < 2048,
                        uds < 495,
                ;
                assert(key == canon_key(eo as int, uds as int));
            }
            let idx = (eo as usize) * 495 + (uds as usize);
            let ghost hm0 = raw_to_compact@;
            let ghost map0 = map@;
            let ghost ex0 = examples@;
            match raw_to_compact.get(&key) {
                Some(id) => {
                    let id = *id;
                    proof {
                        assert(hm0.contains_key(key) && hm0[key] == id);
                        lemma_pack_class(id, c_sym as u32);
                        if is_canonical(eo as int, uds as int) {
                            let ex = ex0[id as int];
                            assert(example_ok(hm0, ex, id as int));
                            let k2 = canon_key(ex.0 as int, ex.1 as int) as u32;
                            assert(hm0[k2] == hm0[key]);
                            assert(k2 == key);
                            let a = canon_of(ex.0 as int, ex.1 as int).0;
                            let b = canon_of(ex.0 as int, ex.1 as int).1;
                            assert(pair_done(ex.0 as int, ex.1 as int, eo as int, uds as int));
                            assert(0 <= a * 65536 + b < 0x1_0000_0000) by (nonlinear_arith)
                                requires
                                    0 <= a < 2048,
                                    0 <= b < 65536,
                            ;
                            lemma_key_pair(a, b, eo as int, uds as int);
                            lemma_canon_le(ex.0 as int, ex.1 as int);
                            assert(false);
                        }
                    }
                    map.set(idx, (id << 4) | (c_sym as u32));
                },
                None => {
                    proof {
                        assert(!hm0.contains_key(key));
                        lemma_pack_class(next_id, c_sym as u32);
                    }
                    raw_to_compact.insert(key, next_id);
                    examples.push((eo, uds));
                    map.set(idx, (next_id << 4) | (c_sym as u32));
                    proof {
                        let hm = raw_to_compact@;
                        assert(hm == hm0.insert(key, next_id));
                        assert forall|a: u32, b: u32|
                            #![trigger hm[a], hm[b]]
                            hm.contains_key(a) && hm.contains_key(b) && hm[a] == hm[b] implies a
                            == b by {
                            if a != key && b != key {
                                assert(hm0[a] == hm[a] && hm0[b] == hm[b]);
                            } else if a != key {
                                assert(hm0.contains_key(a));
                                assert(hm0[a] < ex0.len());
                            } else if b != key {
                                assert(hm0.contains_key(b));
                                assert(hm0[b] < ex0.len());
                            }
                        }
                        assert forall|c: int| 0 <= c < examples@.len() implies #[trigger] example_ok(
                            hm,
                            examples@[c],
                            c,
                        ) by {
                            if c < ex0.len() {
                                assert(examples@[c] == ex0[c]);
                                assert(example_ok(hm0, ex0[c], c));
                                let k2 = canon_key(ex0[c].0 as int, ex0[c].1 as int) as u32;
                                assert(hm0.contains_key(k2));
                                assert(k2 != key);
                            } else {
                                assert(examples@[c] == (eo, uds));
                            }
                        }
                    }
                    next_id = next_id + 1;
                },
            }
            proof {
                let hm = raw_to_compact@;
                assert forall|e: int, u: int|
                    0 <= e < 2048 && 0 <= u < 495 && pair_done(
                        e,
                        u,
                        eo as int,
                        uds + 1,
                    ) implies #[trigger] pair_entry_ok(map@, hm, e, u) by {
                    if e != eo || u != uds {
                        lemma_slot_index(e, u, eo as int, uds as int, 495);
                        assert(pair_entry_ok(map0, hm0, e, u));
                        assert(hm0.contains_key(canon_key(e, u) as u32));
                    }
                }
                assert forall|k: u32| #[trigger] hm.contains_key(k) implies hm[k] < examples@.len() by {
                    if hm0.contains_key(k) {
                        assert(hm0[k] < ex0.len());
                    }
                }
                let n0 = ex0.len();
                assert(examples@.len() == n0 || (examples@.len() == n0 + 1 && examples@[n0 as int] == (
                    eo,
                    uds,
                ) && !hm0.contains_key(key) && hm[key] == n0));
                assert(forall|c: int| 0 <= c < n0 ==> #[trigger] examples@[c] == ex0[c]);
                assert forall|i: int, j: int| 0 <= i < j < examples@.len() implies pair_done(
                    #[trigger] examples@[i].0 as int,
                    examples@[i].1 as int,
                    #[trigger] examples@[j].0 as int,
                    examples@[j].1 as int,
                ) by {
                    if j < n0 {
                    } else {
                        assert(pair_done(ex0[i].0 as int, ex0[i].1 as int, eo as int, uds as int));
                    }
                }
                assert forall|c: int| 0 <= c < examples@.len() implies pair_done(
                    #[trigger] examples@[c].0 as int,
                    examples@[c].1 as int,
                    eo as int,
                    uds + 1,
                ) && 0 <= canon_of(examples@[c].0 as int, examples@[c].1 as int).0 < 2048 && 0 <= canon_of(
                    examples@[c].0 as int,
                    examples@[c].1 as int,
                ).1 < 65536 by {
                    if c < n0 {
                        assert(pair_done(ex0[c].0 as int, ex0[c].1 as int, eo as int, uds as int));
                    }
                }
                assert forall|c: int, e: int, u: int|
                    #![trigger class_of(map@, e, u), examples@[c]]
                    0 <= c < examples@.len() && 0 <= e < 2048 && 0 <= u < 495 && pair_done(
                        e,
                        u,
                        examples@[c].0 as int,
                        examples@[c].1 as int,
                    ) implies class_of(map@, e, u) != c by {
                    let ex = examples@[c];
                    assert(pair_done(e, u, eo as int, uds as int)) by {
                        if c < n0 {
                            assert(pair_done(ex0[c].0 as int, ex0[c].1 as int, eo as int, uds as int));
                        }
                    }
                    lemma_slot_index(e, u, eo as int, uds as int, 495);
                    assert(map@[e * 495 + u] == map0[e * 495 + u]);
                    if c < n0 {
                        assert(examples@[c] == ex0[c]);
                        assert(class_of(map0, e, u) != c);
                    } else {
                        assert(pair_entry_ok(map0, hm0, e, u));
                        assert(hm0[canon_key(e, u) as u32] < n0);
                    }
                }
                assert forall|e: int, u: int|
                    0 <= e < 2048 && 0 <= u < 495 && pair_done(e, u, eo as int, uds + 1)
                        && #[trigger] is_canonical(e, u) implies examples@[hm[canon_key(e, u) as u32] as int]
                    == (e as u16, u as u16) by {
                    if e != eo || u != uds {
                        assert(pair_entry_ok(map0, hm0, e, u));
                        let k = canon_key(e, u) as u32;
                        assert(hm0.contains_key(k));
                        assert(hm[k] == hm0[k]);
                        assert(hm0[k] < n0);
                    }
                }
            }
            uds = uds + 1;
        }
        proof {
            assert forall|e: int, u: int|
                0 <= e < 2048 && 0 <= u < 495 && pair_done(e, u, eo + 1, 0) implies #[trigger] pair_entry_ok(
                map@,
                raw_to_compact@,
                e,
                u,
            ) by {
                assert(pair_done(e, u, eo as int, 495));
            }
            let ex = examples@;
            assert forall|c: int| 0 <= c < ex.len() implies pair_done(
                #[trigger] ex[c].0 as int,
                ex[c].1 as int,
                eo + 1,
                0,
            ) && 0 <= canon_of(ex[c].0 as int, ex[c].1 as int).0 < 2048 && 0 <= canon_of(
                ex[c].0 as int,
                ex[c].1 as int,
            ).1 < 65536 by {
                assert(pair_done(ex[c].0 as int, ex[c].1 as int, eo as int, 495));
            }
            assert forall|e: int, u: int|
                0 <= e < 2048 && 0 <= u < 495 && pair_done(e, u, eo + 1, 0) && #[trigger] is_canonical(e, u)
                    implies ex[raw_to_compact@[canon_key(e, u) as u32] as int] == (e as u16, u as u16) by {
                assert(pair_done(e, u, eo as int, 495));
            }
        }
        eo = eo + 1;
    }
    (map, examples, Ghost(raw_to_compact@))
}

/// The move table over classes, from one member of each class.
fn gen_eo_uds_sym_move(
    map: &Vec<u32>,
    examples: &Vec<(u16, u16)>,
    Ghost(hm): Ghost<Map<u32, u32>>,
) -> (mv: Vec<u32>)
    requires
        classes_ok(map@, hm, examples@, 2048, 0),
        examples@.len() <= 1013760,
    ensures
        mv@.len() == examples@.len() * 18,
        forall|c: int, m: int|
            0 <= c < examples@.len() && 0 <= m < 18 ==> #[trigger] move_entry_ok(
                mv@,
                map@,
                examples@[c],
                c,
                m,
            ),
{
    let n = examples.len();
    let mut mv = filled_u32(n * 18, 0);
    let mut c: usize = 0;
    while c < n
        invariant
            n == examples@.len(),
            n <= 1013760,
            c <= n,
            classes_ok(map@, hm, examples@, 2048, 0),
            mv@.len() == n * 18,
            forall|c2: int, m: int|
                0 <= c2 < c && 0 <= m < 18 ==> #[trigger] move_entry_ok(mv@, map@, examples@[c2], c2, m),
        decreases n - c,
    {
        let (eo, uds) = examples[c];
        proof {
            assert(example_ok(hm, examples@[c as int], c as int));
        }
        let cube = KociembaCube::from_eo_uds(eo, uds);
        proof {
            lemma_eo_uds_state_four(eo as int, uds as int);
        }
        let mut i: usize = 0;
        while i < 18
            invariant
                n == examples@.len(),
                n <= 1013760,
                c < n,
                i <= 18,
                (eo, uds) == examples@[c as int],
                uds < 495,
                cube.0@ == from_eo_uds_state(eo as int, uds as int),
                count_true_four(cube.0@),
                classes_ok(map@, hm, examples@, 2048, 0),
                mv@.len() == n * 18,
                forall|c2: int, m: int|
                    0 <= m < 18 && (0 <= c2 < c || (c2 == c && 0 <= m < i)) ==> #[trigger] move_entry_ok(
                        mv@,
                        map@,
                        examples@[c2],
                        c2,
                        m,
                    ),
            decreases 18 - i,
        {
            let m = move_at(i);
            let mut n_cube = cube;
            proof {
                assert(oris_ok(cube.0@));
                lemma_turn_keeps_oris(cube.0@, m);
                lemma_turn_keeps_slice_count(cube.0@, m);
            }
            n_cube.0.turn(&m);
            let n_eo = n_cube.get_eo_coord();
            let n_uds = n_cube.get_uds_coord();
            proof {
                lemma_uds_four(n_cube.0@);
                assert(n_eo * 495 + n_uds < 1013760) by (nonlinear_arith)
                    requires
                        n_eo < 2048,
                        n_uds < 495,
                ;
                assert(c * 18 + i < n * 18) by (nonlinear_arith)
                    requires
                        c < n,
                        i < 18,
                ;
            }
            let target = map[(n_eo as usize) * 495 + (n_uds as usize)];
            let ghost before = mv@;
            mv.set(c * 18 + i, target);
            proof {
                assert forall|c2: int, mm: int|
                    0 <= mm < 18 && (0 <= c2 < c || (c2 == c && 0 <= mm <= i)) implies #[trigger] move_entry_ok(
                    mv@,
                    map@,
                    examples@[c2],
                    c2,
                    mm,
                ) by {
                    if c2 != c || mm != i {
                        lemma_slot_index(c2, mm, c as int, i as int, 18);
                        assert(move_entry_ok(before, map@, examples@[c2], c2, mm));
                    }
                }
            }
            i = i + 1;
        }
        c = c + 1;
    }
    mv
}

spec fn count_true_four(s: CubeState) -> bool {
    crate::coords::count_true(crate::coords::slice_occupancy(s), 12) == 4
}

/// The class of the pair `(eo, uds)` in a symmetry map.
pub open spec fn class_of(map: Seq<u32>, eo: int, uds: int) -> int {
    (map[eo * 495 + uds] / 16) as int
}

/// The symmetry that takes `(eo, uds)` to its canonical pair, in a symmetry map.
pub open spec fn sym_of(map: Seq<u32>, eo: int, uds: int) -> int {
    (map[eo * 495 + uds] % 16) as int
}

/// Class `c` has a member that no pair before it in (edge orientation, slice) order
/// shares its class with.
pub open spec fn class_has_first(map: Seq<u32>, c: int) -> bool {
    exists|e: int, u: int|
        #![trigger class_of(map, e, u)]
        0 <= e < 2048 && 0 <= u < 495 && class_of(map, e, u) == c && first_member(map, e, u)
}

/// Generates the phase-one symmetry tables. The corner map is exact; each pair of the
/// edge map gets its canonical symmetry and a class number, with the same class for
/// two pairs exactly when their canonical pairs agree, the pair of the solved cube in
/// class 0, the classes numbered in the order their first members come in (edge
/// orientation, slice) order; and the move table gives, per class and move, the map
/// entry where the move leads the class's canonical pair.
pub fn gen_g1_sym_tables() -> (t: G1SymTables)
    ensures
        t.co_sym_map@.len() == 34992,
        class_of(t.eo_uds_sym_map@, 0, 0) == 0,
        forall|co: int, sym: int|
            0 <= co < 2187 && 0 <= sym < 16 ==> #[trigger] t.co_sym_map@[co * 16 + sym] == co_coord(
                uds_symmetry(from_co_state(co), sym),
            ),
        t.eo_uds_sym_map@.len() == 1013760,
        t.eo_uds_sym_move@.len() % 18 == 0,
        forall|e: int, u: int|
            0 <= e < 2048 && 0 <= u < 495 ==> #[trigger] sym_of(t.eo_uds_sym_map@, e, u) == canon_of(
                e,
                u,
            ).2 && class_of(t.eo_uds_sym_map@, e, u) < t.eo_uds_sym_move@.len() / 18,
        forall|e1: int, u1: int, e2: int, u2: int|
            0 <= e1 < 2048 && 0 <= u1 < 495 && 0 <= e2 < 2048 && 0 <= u2 < 495 ==> (#[trigger] class_of(
                t.eo_uds_sym_map@,
                e1,
                u1,
            ) == #[trigger] class_of(t.eo_uds_sym_map@, e2, u2) <==> canon_key(e1, u1) == canon_key(
                e2,
                u2,
            )),
        forall|e: int, u: int, m: int|
            0 <= e < 2048 && 0 <= u < 495 && 0 <= m < 18 && is_canonical(e, u) ==> t.eo_uds_sym_move@[
                #[trigger] class_of(t.eo_uds_sym_map@, e, u) * 18 + m] == t.eo_uds_sym_map@[
                #[trigger] move_target(e, u, m)],
        forall|e: int, u: int, m: int|
            0 <= e < 2048 && 0 <= u < 495 && 0 <= m < 18 && first_member(t.eo_uds_sym_map@, e, u)
                ==> t.eo_uds_sym_move@[#[trigger] class_of(t.eo_uds_sym_map@, e, u) * 18 + m]
                == t.eo_uds_sym_map@[#[trigger] move_target(e, u, m)],
        forall|c: int|
            0 <= c < t.eo_uds_sym_move@.len() / 18 ==> #[trigger] class_has_first(
                t.eo_uds_sym_map@,
                c,
            ),
        forall|e1: int, u1: int, e2: int, u2: int|
            0 <= e1 < 2048 && 0 <= u1 < 495 && 0 <= e2 < 2048 && 0 <= u2 < 495 && #[trigger] first_member(
                t.eo_uds_sym_map@,
                e1,
                u1,
            ) && #[trigger] first_member(t.eo_uds_sym_map@, e2, u2) && (e1 < e2 || (e1 == e2 && u1
                < u2)) ==> class_of(t.eo_uds_sym_map@, e1, u1) < class_of(t.eo_uds_sym_map@, e2, u2),
{
    let co_sym_map = gen_co_sym_map();
    let (eo_uds_sym_map, examples, Ghost(hm)) = gen_eo_uds_classes();
    let eo_uds_sym_move = gen_eo_uds_sym_move(&eo_uds_sym_map, &examples, Ghost(hm));
    let t = G1SymTables { co_sym_map, eo_uds_sym_map, eo_uds_sym_move };
    proof {
        let map = t.eo_uds_sym_map@;
        let n = examples@.len();
        assert(t.eo_uds_sym_move@.len() / 18 == n) by (nonlinear_arith)
            requires
                t.eo_uds_sym_move@.len() == n * 18,
        ;
        assert forall|co: int, sym: int| 0 <= co < 2187 && 0 <= sym < 16 implies #[trigger] t.co_sym_map@[co
            * 16 + sym] == co_coord(uds_symmetry(from_co_state(co), sym)) by {
            assert(co_entry_ok(co_sym_map@, co, sym));
        }
        assert forall|e: int, u: int| 0 <= e < 2048 && 0 <= u < 495 implies #[trigger] sym_of(
            map,
            e,
            u,
        ) == canon_of(e, u).2 && class_of(map, e, u) < n by {
            assert(pair_done(e, u, 2048, 0));
            assert(pair_entry_ok(map, hm, e, u));
        }
        assert forall|e1: int, u1: int, e2: int, u2: int|
            0 <= e1 < 2048 && 0 <= u1 < 495 && 0 <= e2 < 2048 && 0 <= u2 < 495 implies (#[trigger] class_of(
            map,
            e1,
            u1,
        ) == #[trigger] class_of(map, e2, u2) <==> canon_key(e1, u1) == canon_key(e2, u2)) by {
            assert(pair_done(e1, u1, 2048, 0));
            assert(pair_done(e2, u2, 2048, 0));
            assert(pair_entry_ok(map, hm, e1, u1));
            assert(pair_entry_ok(map, hm, e2, u2));
            let k1 = canon_key(e1, u1) as u32;
            let k2 = canon_key(e2, u2) as u32;
            if hm[k1] == hm[k2] {
                assert(k1 == k2);
            }
        }
        let mv = t.eo_uds_sym_move@;
        assert forall|e: int, u: int, m: int|
            0 <= e < 2048 && 0 <= u < 495 && 0 <= m < 18 && is_canonical(e, u) implies mv[
            #[trigger] class_of(map, e, u) * 18 + m] == map[#[trigger] move_target(e, u, m)] by {
            assert(pair_done(e, u, 2048, 0));
            assert(pair_entry_ok(map, hm, e, u));
            let c = class_of(map, e, u);
            assert(examples@[c] == (e as u16, u as u16));
            assert(move_entry_ok(mv, map, examples@[c], c, m));
        }
        assert forall|e: int, u: int, m: int|
            0 <= e < 2048 && 0 <= u < 495 && 0 <= m < 18 && first_member(map, e, u) implies mv[
            #[trigger] class_of(map, e, u) * 18 + m] == map[#[trigger] move_target(e, u, m)] by {
            lemma_first_is_example(map, hm, examples@, e, u);
            let c = class_of(map, e, u);
            assert(move_entry_ok(mv, map, examples@[c], c, m));
        }
        assert forall|c: int| 0 <= c < n implies #[trigger] class_has_first(map, c) by {
            let ex = examples@[c];
            assert(example_ok(hm, ex, c));
            let e = ex.0 as int;
            let u = ex.1 as int;
            assert(pair_done(e, u, 2048, 0));
            assert(pair_entry_ok(map, hm, e, u));
            assert(class_of(map, e, u) == c);
            assert forall|e2: int, u2: int|
                0 <= e2 < 2048 && 0 <= u2 < 495 && (e2 < e || (e2 == e && u2 < u)) implies #[trigger] class_of(
                map,
                e2,
                u2,
            ) != class_of(map, e, u) by {
                assert(pair_done(e2, u2, e, u));
                assert(class_of(map, e2, u2) != c);
            }
        }
        assert forall|e1: int, u1: int, e2: int, u2: int|
            0 <= e1 < 2048 && 0 <= u1 < 495 && 0 <= e2 < 2048 && 0 <= u2 < 495 && #[trigger] first_member(
                map,
                e1,
                u1,
            ) && #[trigger] first_member(map, e2, u2) && (e1 < e2 || (e1 == e2 && u1 < u2)) implies class_of(
            map,
            e1,
            u1,
        ) < class_of(map, e2, u2) by {
            lemma_first_is_example(map, hm, examples@, e1, u1);
            lemma_first_is_example(map, hm, examples@, e2, u2);
            let c1 = class_of(map, e1, u1);
            let c2 = class_of(map, e2, u2);
            if c1 >= c2 {
                if c1 > c2 {
                    assert(pair_done(
                        examples@[c2].0 as int,
                        examples@[c2].1 as int,
                        examples@[c1].0 as int,
                        examples@[c1].1 as int,
                    ));
                }
            }
        }
    }
    t
}

/// The first member of a class is the class's example.
proof fn lemma_first_is_example(
    map: Seq<u32>,
    hm: Map<u32, u32>,
    examples: Seq<(u16, u16)>,
    e: int,
    u: int,
)
    requires
        classes_ok(map, hm, examples, 2048, 0),
        examples_ok(map, hm, examples, 2048, 0),
        0 <= e < 2048,
        0 <= u < 495,
        first_member(map, e, u),
    ensures
        0 <= class_of(map, e, u) < examples.len(),
        examples[class_of(map, e, u)] == (e as u16, u as u16),
{
    assert(pair_done(e, u, 2048, 0));
    assert(pair_entry_ok(map, hm, e, u));
    let c = class_of(map, e, u);
    let ex = examples[c];
    assert(example_ok(hm, ex, c));
    let e2 = ex.0 as int;
    let u2 = ex.1 as int;
    assert(pair_done(e2, u2, 2048, 0));
    assert(pair_entry_ok(map, hm, e2, u2));
    assert(class_of(map, e2, u2) == c);
    if pair_done(e, u, e2, u2) {
        assert(class_of(map, e, u) != c);
    }
    if e2 < e || (e2 == e && u2 < u) {
        assert(class_of(map, e2, u2) != class_of(map, e, u));
    }
}

} // verus!
