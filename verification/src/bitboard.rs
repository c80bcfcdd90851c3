//! Five-bit slots packed into a `u64`, the storage format of the cube state.
//!
//! A `u64` holds up to twelve slots of five bits each: slot `i` occupies bits
//! `5*i .. 5*i + 5`. The bits above the last slot in use are the "high" part.

use vstd::prelude::*;

verus! {

/// The five bits of slot `i` of `x`.
pub open spec fn slot(x: u64, i: u64) -> u64 {
    (x >> ((i * 5) as u64)) & 0x1f
}

/// The bits of `x` above its first `n` slots.
pub open spec fn high(x: u64, n: u64) -> u64 {
    x >> ((n * 5) as u64)
}

pub proof fn lemma_slot_and(x: u64, y: u64, i: u64)
    by (bit_vector)
    requires
        i < 12,
    ensures
        slot(x & y, i) == slot(x, i) & slot(y, i),
{
}

pub proof fn lemma_slot_or(x: u64, y: u64, i: u64)
    by (bit_vector)
    requires
        i < 12,
    ensures
        slot(x | y, i) == slot(x, i) | slot(y, i),
{
}

pub proof fn lemma_slot_not(x: u64, i: u64)
    by (bit_vector)
    requires
        i < 12,
    ensures
        slot(!x, i) == 0x1f ^ slot(x, i),
{
}

pub proof fn lemma_slot_shl(v: u64, d: u64, i: u64)
    by (bit_vector)
    requires
        v < 32,
        d < 12,
        i < 12,
    ensures
        slot(v << ((d * 5) as u64), i) == if i == d { v } else { 0 },
{
}

pub proof fn lemma_high_shl(v: u64, d: u64, n: u64)
    by (bit_vector)
    requires
        v < 32,
        d < n,
        n <= 12,
    ensures
        high(v << ((d * 5) as u64), n) == 0,
{
}

pub proof fn lemma_high_and_or(x: u64, y: u64, n: u64)
    by (bit_vector)
    requires
        n <= 12,
    ensures
        high(x & y, n) == high(x, n) & high(y, n),
        high(x | y, n) == high(x, n) | high(y, n),
{
}

pub proof fn lemma_high_clear(x: u64, m: u64, n: u64)
    by (bit_vector)
    requires
        n <= 12,
        high(m, n) == 0,
    ensures
        high(x & !m, n) == high(x, n),
{
}

/// Small bit facts used when slot values are combined.
pub proof fn lemma_small_bits(a: u64, b: u64)
    by (bit_vector)
    requires
        a < 32,
        b < 32,
    ensures
        a | b < 32,
        a & b < 32,
        a | 0 == a,
        0 | a == a,
        a & 0x1f == a,
        a & 0 == 0,
        a ^ 0x10 < 32,
        (a ^ 0x10) ^ 0x10 == a,
{
}

/// Twelve slots and the high part determine a `u64`.
pub proof fn lemma_eq_by_slots12(x: u64, y: u64)
    by (bit_vector)
    requires
        slot(x, 0) == slot(y, 0),
        slot(x, 1) == slot(y, 1),
        slot(x, 2) == slot(y, 2),
        slot(x, 3) == slot(y, 3),
        slot(x, 4) == slot(y, 4),
        slot(x, 5) == slot(y, 5),
        slot(x, 6) == slot(y, 6),
        slot(x, 7) == slot(y, 7),
        slot(x, 8) == slot(y, 8),
        slot(x, 9) == slot(y, 9),
        slot(x, 10) == slot(y, 10),
        slot(x, 11) == slot(y, 11),
        high(x, 12) == high(y, 12),
    ensures
        x == y,
{
}

/// Eight slots and the high part determine a `u64`.
pub proof fn lemma_eq_by_slots8(x: u64, y: u64)
    by (bit_vector)
    requires
        slot(x, 0) == slot(y, 0),
        slot(x, 1) == slot(y, 1),
        slot(x, 2) == slot(y, 2),
        slot(x, 3) == slot(y, 3),
        slot(x, 4) == slot(y, 4),
        slot(x, 5) == slot(y, 5),
        slot(x, 6) == slot(y, 6),
        slot(x, 7) == slot(y, 7),
        high(x, 8) == high(y, 8),
    ensures
        x == y,
{
}

} // verus!

verus! {

/// The mask that covers slots `a0`, `a1`, `a2` and `a3`.
pub open spec fn mask4(a0: u64, a1: u64, a2: u64, a3: u64) -> u64 {
    (0x1fu64 << ((a0 * 5) as u64)) | (0x1fu64 << ((a1 * 5) as u64)) | (0x1fu64 << ((a2 * 5) as u64)) | (
    0x1fu64 << ((a3 * 5) as u64))
}

/// `x` with slots `d0..d3` replaced by `v0..v3`, the other slots kept.
pub open spec fn replace4(
    x: u64,
    m: u64,
    v0: u64,
    v1: u64,
    v2: u64,
    v3: u64,
    d0: u64,
    d1: u64,
    d2: u64,
    d3: u64,
) -> u64 {
    (x & !m) | ((v0 << ((d0 * 5) as u64)) | (v1 << ((d1 * 5) as u64)) | (v2 << ((d2 * 5) as u64))
        | (v3 << ((d3 * 5) as u64)))
}

pub proof fn lemma_mask4(a0: u64, a1: u64, a2: u64, a3: u64, n: u64)
    requires
        n <= 12,
        a0 < n,
        a1 < n,
        a2 < n,
        a3 < n,
    ensures
        forall|i: u64|
            i < 12 ==> #[trigger] slot(mask4(a0, a1, a2, a3), i) == if i == a0 || i == a1 || i == a2
                || i == a3 {
                0x1fu64
            } else {
                0u64
            },
        high(mask4(a0, a1, a2, a3), n) == 0,
{
    let s0 = 0x1fu64 << ((a0 * 5) as u64);
    let s1 = 0x1fu64 << ((a1 * 5) as u64);
    let s2 = 0x1fu64 << ((a2 * 5) as u64);
    let s3 = 0x1fu64 << ((a3 * 5) as u64);
    assert forall|i: u64| i < 12 implies #[trigger] slot(mask4(a0, a1, a2, a3), i) == if i == a0
        || i == a1 || i == a2 || i == a3 {
        0x1fu64
    } else {
        0u64
    } by {
        lemma_slot_or(s0 | s1 | s2, s3, i);
        lemma_slot_or(s0 | s1, s2, i);
        lemma_slot_or(s0, s1, i);
        lemma_slot_shl(0x1f, a0, i);
        lemma_slot_shl(0x1f, a1, i);
        lemma_slot_shl(0x1f, a2, i);
        lemma_slot_shl(0x1f, a3, i);
        lemma_or_cases(slot(s0, i), slot(s1, i));
        lemma_or_cases(slot(s0 | s1, i), slot(s2, i));
        lemma_or_cases(slot(s0 | s1 | s2, i), slot(s3, i));
    }
    lemma_or_zero(0);
    lemma_high_and_or(s0 | s1 | s2, s3, n);
    lemma_high_and_or(s0 | s1, s2, n);
    lemma_high_and_or(s0, s1, n);
    lemma_high_shl(0x1f, a0, n);
    lemma_high_shl(0x1f, a1, n);
    lemma_high_shl(0x1f, a2, n);
    lemma_high_shl(0x1f, a3, n);
}

/// The slots and high part of `replace4`.
pub proof fn lemma_replace4(
    x: u64,
    m: u64,
    v0: u64,
    v1: u64,
    v2: u64,
    v3: u64,
    d0: u64,
    d1: u64,
    d2: u64,
    d3: u64,
    n: u64,
)
    requires
        n <= 12,
        d0 < n,
        d1 < n,
        d2 < n,
        d3 < n,
        v0 < 32,
        v1 < 32,
        v2 < 32,
        v3 < 32,
        d0 != d1 && d0 != d2 && d0 != d3 && d1 != d2 && d1 != d3 && d2 != d3,
        high(m, n) == 0,
        forall|i: u64|
            i < 12 ==> #[trigger] slot(m, i) == if i == d0 || i == d1 || i == d2 || i == d3 {
                0x1fu64
            } else {
                0u64
            },
    ensures
        forall|i: u64|
            i < n ==> #[trigger] slot(replace4(x, m, v0, v1, v2, v3, d0, d1, d2, d3), i) == if i
                == d0 {
                v0
            } else if i == d1 {
                v1
            } else if i == d2 {
                v2
            } else if i == d3 {
                v3
            } else {
                slot(x, i)
            },
        high(replace4(x, m, v0, v1, v2, v3, d0, d1, d2, d3), n) == high(x, n),
{
    let w0 = v0 << ((d0 * 5) as u64);
    let w1 = v1 << ((d1 * 5) as u64);
    let w2 = v2 << ((d2 * 5) as u64);
    let w3 = v3 << ((d3 * 5) as u64);
    let c = x & !m;
    assert forall|i: u64| i < n implies #[trigger] slot(
        replace4(x, m, v0, v1, v2, v3, d0, d1, d2, d3),
        i,
    ) == if i == d0 {
        v0
    } else if i == d1 {
        v1
    } else if i == d2 {
        v2
    } else if i == d3 {
        v3
    } else {
        slot(x, i)
    } by {
        lemma_slot_or(c, w0 | w1 | w2 | w3, i);
        lemma_slot_or(w0 | w1 | w2, w3, i);
        lemma_slot_or(w0 | w1, w2, i);
        lemma_slot_or(w0, w1, i);
        lemma_slot_and(x, !m, i);
        lemma_slot_not(m, i);
        lemma_slot_shl(v0, d0, i);
        lemma_slot_shl(v1, d1, i);
        lemma_slot_shl(v2, d2, i);
        lemma_slot_shl(v3, d3, i);
        lemma_slot_bound(x, i);
        lemma_or_zero(v0);
        lemma_or_zero(v1);
        lemma_or_zero(v2);
        lemma_or_zero(v3);
        lemma_or_zero(0);
        lemma_or_zero(slot(x, i));
        lemma_xor_mask(slot(x, i));
    }
    lemma_high_and_or(c, w0 | w1 | w2 | w3, n);
    lemma_high_and_or(w0 | w1 | w2, w3, n);
    lemma_high_and_or(w0 | w1, w2, n);
    lemma_high_and_or(w0, w1, n);
    lemma_high_clear(x, m, n);
    lemma_high_shl(v0, d0, n);
    lemma_high_shl(v1, d1, n);
    lemma_high_shl(v2, d2, n);
    lemma_high_shl(v3, d3, n);
    lemma_or_zero(high(c, n));
    lemma_or_zero(0);
}

pub proof fn lemma_slot_bound(x: u64, i: u64)
    by (bit_vector)
    ensures
        slot(x, i) < 32,
{
}

pub proof fn lemma_xor_mask(a: u64)
    by (bit_vector)
    requires
        a < 32,
    ensures
        a & (0x1f ^ 0x1fu64) == 0,
        a & (0x1f ^ 0u64) == a,
{
}

pub proof fn lemma_or_cases(a: u64, b: u64)
    by (bit_vector)
    requires
        a == 0 || a == 0x1f,
        b == 0 || b == 0x1f,
    ensures
        a | b == if a == 0x1f || b == 0x1f { 0x1fu64 } else { 0u64 },
{
}

pub proof fn lemma_or_zero(a: u64)
    by (bit_vector)
    ensures
        a | 0 == a,
        0 | a == a,
{
}

} // verus!

verus! {

/// Splitting a corner slot into orientation and piece id, and putting it back together.
pub proof fn lemma_corner_bits(c: u64, l: u64)
    by (bit_vector)
    requires
        c < 32,
        l < 4,
    ensures
        c >> 3 == c / 8,
        c & 7 == c % 8,
        (l << 3) | (c & 7) == l * 8 + c % 8,
        (l << 3) | (c & 7) < 32,
{
}

} // verus!

verus! {

pub proof fn lemma_xor_twice(a: u64)
    by (bit_vector)
    ensures
        (a ^ 0x10) ^ 0x10 == a,
{
}

} // verus!

verus! {

pub proof fn lemma_high_zero_slot(x: u64, i: u64, j: u64)
    by (bit_vector)
    requires
        high(x, i) == 0,
        i <= j <= 12,
    ensures
        slot(x, j) == 0,
        high(x, j) == 0,
        high(x, 12) == 0,
{
}

pub proof fn lemma_zero_bits()
    by (bit_vector)
    ensures
        forall|i: u64| i < 12 ==> #[trigger] slot(0, i) == 0,
        high(0, 0) == 0,
{
}

/// Packs up to twelve 5-bit values into the slots of a `u64`, in order.
pub fn pack_slots(vals: &Vec<u64>) -> (x: u64)
    requires
        vals@.len() <= 12,
        forall|i: int| 0 <= i < vals@.len() ==> #[trigger] vals@[i] < 32,
    ensures
        forall|i: int| 0 <= i < vals@.len() ==> #[trigger] slot(x, i as u64) == vals@[i],
        forall|i: u64| vals@.len() <= i < 12 ==> #[trigger] slot(x, i) == 0,
        high(x, vals@.len() as u64) == 0,
{
    let n = vals.len();
    let mut x: u64 = 0;
    let mut i: usize = 0;
    proof {
        lemma_zero_bits();
    }
    while i < n
        invariant
            n == vals@.len() <= 12,
            i <= n,
            forall|k: int| 0 <= k < vals@.len() ==> #[trigger] vals@[k] < 32,
            forall|k: int| 0 <= k < i ==> #[trigger] slot(x, k as u64) == vals@[k],
            high(x, i as u64) == 0,
        decreases n - i,
    {
        let v = vals[i];
        let w = v << ((i as u64) * 5);
        proof {
            lemma_high_zero_slot(x, i as u64, i as u64);
            lemma_high_zero_slot(x, i as u64, (i + 1) as u64);
            assert forall|k: int| 0 <= k <= i implies #[trigger] slot(x | w, k as u64) == vals@[k] by {
                lemma_slot_or(x, w, k as u64);
                lemma_slot_shl(v, i as u64, k as u64);
                lemma_slot_bound(x, k as u64);
                lemma_or_zero(slot(x, k as u64));
                lemma_or_zero(v);
            }
            lemma_high_and_or(x, w, (i + 1) as u64);
            lemma_high_shl(v, i as u64, (i + 1) as u64);
            lemma_or_zero(0);
        }
        x = x | w;
        i = i + 1;
    }
    proof {
        assert forall|k: u64| n <= k < 12 implies #[trigger] slot(x, k) == 0 by {
            lemma_high_zero_slot(x, n as u64, k);
        }
    }
    x
}

} // verus!

verus! {

/// Writes 5-bit values into distinct slots of a `u64`: value `i` into slot `pos[i]`,
/// all other slots zero.
pub fn scatter_slots(vals: &Vec<u64>, pos: &Vec<u64>) -> (x: u64)
    requires
        vals@.len() == pos@.len(),
        pos@.len() <= 12,
        forall|i: int| 0 <= i < vals@.len() ==> #[trigger] vals@[i] < 32,
        forall|i: int| 0 <= i < pos@.len() ==> #[trigger] pos@[i] < 12,
        forall|i: int, j: int| 0 <= i < j < pos@.len() ==> pos@[i] != pos@[j],
    ensures
        forall|i: int| 0 <= i < pos@.len() ==> #[trigger] slot(x, pos@[i]) == vals@[i],
        forall|k: u64|
            k < 12 && (forall|i: int| 0 <= i < pos@.len() ==> pos@[i] != k) ==> #[trigger] slot(
                x,
                k,
            ) == 0,
        high(x, 12) == 0,
{
    let n = vals.len();
    let mut x: u64 = 0;
    let mut i: usize = 0;
    proof {
        lemma_zero_bits();
        lemma_high_zero_slot(0, 0, 12);
    }
    while i < n
        invariant
            n == vals@.len() == pos@.len() <= 12,
            i <= n,
            forall|k: int| 0 <= k < vals@.len() ==> #[trigger] vals@[k] < 32,
            forall|k: int| 0 <= k < pos@.len() ==> #[trigger] pos@[k] < 12,
            forall|a: int, b: int| 0 <= a < b < pos@.len() ==> pos@[a] != pos@[b],
            forall|k: int| 0 <= k < i ==> #[trigger] slot(x, pos@[k]) == vals@[k],
            forall|k: u64|
                k < 12 && (forall|a: int| 0 <= a < i ==> pos@[a] != k) ==> #[trigger] slot(x, k)
                    == 0,
            high(x, 12) == 0,
        decreases n - i,
    {
        let v = vals[i];
        let p = pos[i];
        let w = v << (p * 5);
        proof {
            assert forall|k: u64| k < 12 implies #[trigger] slot(x | w, k) == if k == p {
                v
            } else {
                slot(x, k)
            } by {
                lemma_slot_or(x, w, k);
                lemma_slot_shl(v, p, k);
                lemma_slot_bound(x, k);
                lemma_or_zero(slot(x, k));
                lemma_or_zero(v);
                if k == p {
                    assert(forall|a: int| 0 <= a < i ==> pos@[a] != k);
                }
            }
            assert forall|k: int| 0 <= k <= i implies #[trigger] slot(x | w, pos@[k]) == vals@[k] by {
                assert(slot(x | w, pos@[k]) == if pos@[k] == p {
                    v
                } else {
                    slot(x, pos@[k])
                });
            }
            lemma_high_and_or(x, w, 12);
            lemma_high_shl(v, p, 12);
            lemma_or_zero(0);
        }
        x = x | w;
        i = i + 1;
    }
    x
}

} // verus!

verus! {

pub proof fn lemma_high8_of_zero_slots(x: u64)
    by (bit_vector)
    requires
        slot(x, 8) == 0,
        slot(x, 9) == 0,
        slot(x, 10) == 0,
        slot(x, 11) == 0,
        high(x, 12) == 0,
    ensures
        high(x, 8) == 0,
{
}

} // verus!
