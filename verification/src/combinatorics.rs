//! Binomial coefficients, factorials and the number systems the cube
//! coordinates are written in.

use vstd::prelude::*;

verus! {

/// The binomial coefficient "n choose k" (zero when k is negative or above n).
pub open spec fn binom(n: int, k: int) -> int
    decreases n,
{
    if k < 0 || n < 0 {
        0
    } else if k == 0 {
        1
    } else if n == 0 {
        0
    } else {
        binom(n - 1, k - 1) + binom(n - 1, k)
    }
}

pub proof fn lemma_binom_basics(n: int, k: int)
    requires
        n >= 0,
    ensures
        binom(n, k) >= 0,
        k > n ==> binom(n, k) == 0,
        binom(n, n) == 1,
        binom(n, k) <= pow2_int(n),
    decreases n,
{
    if n > 0 {
        lemma_binom_basics(n - 1, k - 1);
        lemma_binom_basics(n - 1, k);
        lemma_binom_basics(n - 1, n - 1);
        lemma_binom_basics(n - 1, n);
    }
}

/// `2^n`.
pub open spec fn pow2_int(n: int) -> int
    decreases n,
{
    if n <= 0 {
        1
    } else {
        2 * pow2_int(n - 1)
    }
}

/// The step of the multiplicative formula: (i + 1) * C(n, i + 1) == (n - i) * C(n, i).
pub proof fn lemma_binom_step(n: int, i: int)
    requires
        n >= 0,
        i >= 0,
    ensures
        (i + 1) * binom(n, i + 1) == (n - i) * binom(n, i),
    decreases n,
{
    if n > 0 {
        lemma_binom_step(n - 1, i);
        if i > 0 {
            lemma_binom_step(n - 1, i - 1);
        } else {
            assert(binom(n - 1, 0) == 1);
        }
        let a = binom(n - 1, i - 1);
        let b = binom(n - 1, i);
        let c = binom(n - 1, i + 1);
        assert(binom(n, i + 1) == b + c);
        assert(binom(n, i) == a + b) by {
            if i == 0 {
                assert(binom(n, 0) == 1);
                assert(a == 0);
            }
        }
        assert((i + 1) * c == (n - 1 - i) * b);
        assert(i > 0 ==> i * b == (n - i) * a);
        assert(i == 0 ==> a == 0);
        assert((i + 1) * (b + c) == (i + 1) * b + (i + 1) * c) by (nonlinear_arith);
        assert((n - i) * (a + b) == (n - i) * a + (n - i) * b) by (nonlinear_arith);
        assert((i + 1) * b == i * b + b) by (nonlinear_arith);
        assert((n - 1 - i) * b == (n - i) * b - b) by (nonlinear_arith);
        if i == 0 {
            assert(b == 1);
            assert((n - i) * a == 0) by (nonlinear_arith)
                requires
                    a == 0,
            ;
            assert(0 * b == 0);
        }
    } else {
        assert(binom(0, i + 1) == 0);
        if i > 0 {
            assert(binom(0, i) == 0);
        }
    }
}

/// C(n, k) == C(n, n - k).
pub proof fn lemma_binom_symmetric(n: int, k: int)
    requires
        n >= 0,
        0 <= k <= n,
    ensures
        binom(n, k) == binom(n, n - k),
    decreases n,
{
    if n > 0 {
        if k == 0 {
            lemma_binom_basics(n, n);
        } else if k == n {
            lemma_binom_basics(n, n);
        } else {
            lemma_binom_symmetric(n - 1, k - 1);
            lemma_binom_symmetric(n - 1, k);
        }
    }
}

/// Calculates the binomial coefficient nCr.
pub fn n_cr(n: i32, k: i32) -> (r: usize)
    requires
        n <= 20,
    ensures
        r == binom(n as int, k as int),
{
    if k < 0 || k > n {
        proof {
            if n >= 0 {
                lemma_binom_basics(n as int, k as int);
            }
        }
        0
    } else {
        let mut res: usize = 1;
        let mut k = k;
        // Use the symmetry nCr(n, k) == nCr(n, n - k)
        if k > n - k {
            proof {
                lemma_binom_symmetric(n as int, k as int);
            }
            k = n - k;
        }
        let ghost k0 = k;
        let mut i: i32 = 0;
        while i < k
            invariant
                0 <= i <= k,
                k == k0,
                0 <= k <= n <= 20,
                res == binom(n as int, i as int),
            decreases k - i,
        {
            proof {
                lemma_binom_step(n as int, i as int);
                lemma_binom_basics(n as int, i as int);
                lemma_binom_basics(n as int, i + 1);
                lemma_pow2_bound(n as int);
                assert(res * ((n - i) as usize) <= 1048576 * 20) by (nonlinear_arith)
                    requires
                        res <= 1048576,
                        0 <= n - i <= 20,
                ;
            }
            let num = res * ((n - i) as usize);
            let den = (i + 1) as usize;
            proof {
                assert(res * (n - i) == (n - i) * res) by (nonlinear_arith);
                assert(num == den * binom(n as int, i + 1));
                assert(num / den == binom(n as int, i + 1)) by (nonlinear_arith)
                    requires
                        num == den * binom(n as int, i + 1),
                        den > 0,
                ;
            }
            res = num / den;
            i = i + 1;
        }
        res
    }
}

pub proof fn lemma_pow2_bound(n: int)
    requires
        0 <= n <= 20,
    ensures
        pow2_int(n) <= 1048576,
    decreases n,
{
    lemma_pow2_mono(n, 20);
    assert(pow2_int(20) == 1048576) by {
        reveal_with_fuel(pow2_int, 21);
    }
}

pub proof fn lemma_pow2_mono(a: int, b: int)
    requires
        0 <= a <= b,
    ensures
        pow2_int(a) <= pow2_int(b),
        pow2_int(a) >= 1,
    decreases b,
{
    if b > a {
        lemma_pow2_mono(a, b - 1);
    } else if a > 0 {
        lemma_pow2_mono(a - 1, a - 1);
    }
}

} // verus!

verus! {

/// `n!`.
pub open spec fn fact(n: int) -> int
    decreases n,
{
    if n <= 0 {
        1
    } else {
        n * fact(n - 1)
    }
}

pub proof fn lemma_fact_pos(n: int)
    ensures
        fact(n) >= 1,
    decreases n,
{
    if n > 0 {
        lemma_fact_pos(n - 1);
        assert(n * fact(n - 1) >= 1) by (nonlinear_arith)
            requires
                n >= 1,
                fact(n - 1) >= 1,
        ;
    }
}

/// How many entries of `s` are greater than `v`.
pub open spec fn count_greater(s: Seq<u64>, v: u64) -> int
    decreases s.len(),
{
    if s.len() == 0 {
        0
    } else {
        count_greater(s.drop_last(), v) + if s.last() > v {
            1int
        } else {
            0
        }
    }
}

/// Lehmer digit `i` of `p`: how many entries before position `i` are greater than `p[i]`.
pub open spec fn lehmer_digit(p: Seq<u64>, i: int) -> int {
    count_greater(p.take(i), p[i])
}

/// The rank of the first `m + 1` entries of `p` in the factorial number system:
/// the sum of `lehmer_digit(p, k) * k!` for `k` from 1 to `m`.
pub open spec fn lehmer_value(p: Seq<u64>, m: int) -> int
    decreases m,
{
    if m <= 0 {
        0
    } else {
        lehmer_value(p, m - 1) + lehmer_digit(p, m) * fact(m)
    }
}

/// Digit `k` of `c` in the factorial number system.
pub open spec fn fact_digit(c: int, k: int) -> int {
    (c / fact(k)) % (k + 1)
}

/// The sum of `d[k] * k!` for `k` from 1 to `m`.
pub open spec fn digits_value(d: Seq<int>, m: int) -> int
    decreases m,
{
    if m <= 0 {
        0
    } else {
        digits_value(d, m - 1) + d[m] * fact(m)
    }
}

/// Strictly increasing.
pub open spec fn increasing(s: Seq<u64>) -> bool {
    forall|i: int, j: int| 0 <= i < j < s.len() ==> s[i] < s[j]
}

/// The permutation that the factorial digits `d` pick from the sorted list `avail`:
/// entry `m` is the entry of `avail` with exactly `d[m]` greater entries, and the
/// entries before it are picked the same way from what is left.
pub open spec fn pick(avail: Seq<u64>, d: Seq<int>, m: int) -> Seq<u64>
    decreases m,
{
    if m <= 0 {
        seq![avail[0]]
    } else {
        let idx = m - d[m];
        pick(avail.remove(idx), d, m - 1).push(avail[idx])
    }
}

pub proof fn lemma_count_greater_bound(s: Seq<u64>, v: u64)
    ensures
        0 <= count_greater(s, v) <= s.len(),
    decreases s.len(),
{
    if s.len() > 0 {
        lemma_count_greater_bound(s.drop_last(), v);
    }
}

pub proof fn lemma_count_greater_push(s: Seq<u64>, x: u64, v: u64)
    ensures
        count_greater(s.push(x), v) == count_greater(s, v) + if x > v {
            1int
        } else {
            0
        },
{
    assert(s.push(x).drop_last() =~= s);
}

pub proof fn lemma_count_greater_remove(s: Seq<u64>, i: int, v: u64)
    requires
        0 <= i < s.len(),
    ensures
        count_greater(s.remove(i), v) + (if s[i] > v {
            1int
        } else {
            0
        }) == count_greater(s, v),
    decreases s.len(),
{
    if i == s.len() - 1 {
        assert(s.remove(i) =~= s.drop_last());
    } else {
        let t = s.drop_last();
        lemma_count_greater_remove(t, i, v);
        assert(s.remove(i) =~= t.remove(i).push(s.last()));
        lemma_count_greater_push(t.remove(i), s.last(), v);
    }
}

pub proof fn lemma_count_greater_sorted(s: Seq<u64>, i: int)
    requires
        increasing(s),
        0 <= i < s.len(),
    ensures
        count_greater(s, s[i]) == s.len() - 1 - i,
    decreases s.len(),
{
    if i < s.len() - 1 {
        lemma_count_greater_sorted(s.drop_last(), i);
    } else {
        lemma_count_greater_zero(s.drop_last(), s[i]);
    }
}

proof fn lemma_count_greater_zero(s: Seq<u64>, v: u64)
    requires
        forall|k: int| 0 <= k < s.len() ==> s[k] < v,
    ensures
        count_greater(s, v) == 0,
    decreases s.len(),
{
    if s.len() > 0 {
        lemma_count_greater_zero(s.drop_last(), v);
    }
}

/// The factorial digits of a valid Lehmer code.
pub open spec fn digits_ok(d: Seq<int>, m: int) -> bool {
    &&& d.len() > m
    &&& forall|k: int| 1 <= k <= m ==> 0 <= #[trigger] d[k] <= k
}

/// `pick` rearranges `avail`, keeping how many entries exceed any value.
pub proof fn lemma_pick_count(avail: Seq<u64>, d: Seq<int>, m: int, v: u64)
    requires
        avail.len() == m + 1,
        m >= 0,
        digits_ok(d, m),
    ensures
        pick(avail, d, m).len() == m + 1,
        count_greater(pick(avail, d, m), v) == count_greater(avail, v),
    decreases m,
{
    if m == 0 {
        assert(avail =~= seq![avail[0]]);
    } else {
        let idx = m - d[m];
        lemma_pick_count(avail.remove(idx), d, m - 1, v);
        lemma_count_greater_push(pick(avail.remove(idx), d, m - 1), avail[idx], v);
        lemma_count_greater_remove(avail, idx, v);
    }
}

/// The Lehmer digits of the permutation `pick` builds are the digits it was given.
pub proof fn lemma_pick_digits(avail: Seq<u64>, d: Seq<int>, m: int)
    requires
        avail.len() == m + 1,
        m >= 0,
        digits_ok(d, m),
        increasing(avail),
    ensures
        pick(avail, d, m).len() == m + 1,
        forall|k: int| 1 <= k <= m ==> #[trigger] lehmer_digit(pick(avail, d, m), k) == d[k],
    decreases m,
{
    lemma_pick_count(avail, d, m, 0);
    if m > 0 {
        let idx = m - d[m];
        let rest = avail.remove(idx);
        assert(increasing(rest));
        lemma_pick_digits(rest, d, m - 1);
        let q = pick(rest, d, m - 1);
        let p = pick(avail, d, m);
        assert(p == q.push(avail[idx]));
        assert forall|k: int| 1 <= k <= m implies #[trigger] lehmer_digit(p, k) == d[k] by {
            if k < m {
                assert(p.take(k) =~= q.take(k));
                assert(p[k] == q[k]);
                assert(lehmer_digit(q, k) == d[k]);
            } else {
                assert(p.take(m) =~= q);
                lemma_pick_count(rest, d, m - 1, avail[idx]);
                lemma_count_greater_remove(avail, idx, avail[idx]);
                lemma_count_greater_sorted(avail, idx);
            }
        }
    }
}

/// Equal digits up to `m` give equal values.
pub proof fn lemma_lehmer_value_digits(p: Seq<u64>, d: Seq<int>, m: int)
    requires
        forall|k: int| 1 <= k <= m ==> #[trigger] lehmer_digit(p, k) == d[k],
    ensures
        lehmer_value(p, m) == digits_value(d, m),
    decreases m,
{
    if m > 0 {
        lemma_lehmer_value_digits(p, d, m - 1);
    }
}

/// The factorial digits of `c` give back `c` modulo `(m + 1)!`.
pub proof fn lemma_fact_digits_value(c: int, d: Seq<int>, m: int)
    requires
        c >= 0,
        m >= 0,
        d.len() > m,
        forall|k: int| 1 <= k <= m ==> #[trigger] d[k] == fact_digit(c, k),
    ensures
        digits_value(d, m) == c % fact(m + 1),
    decreases m,
{
    lemma_fact_pos(m);
    lemma_fact_pos(m + 1);
    if m == 0 {
        assert(fact(1) == 1 * fact(0));
        assert(c % 1 == 0) by (nonlinear_arith);
    } else {
        lemma_fact_digits_value(c, d, m - 1);
        // c % ((m + 1) * m!) == m! * ((c / m!) % (m + 1)) + c % m!
        vstd::arithmetic::div_mod::lemma_mod_breakdown(c, fact(m), m + 1);
        assert(fact(m + 1) == (m + 1) * fact(m));
        assert(fact(m) * (m + 1) == (m + 1) * fact(m)) by (nonlinear_arith);
        assert(fact(m) * fact_digit(c, m) == fact_digit(c, m) * fact(m)) by (nonlinear_arith);
    }
}

/// Digit `k` of a value below `(m + 1)!` is at most `k`; the digits are valid.
pub proof fn lemma_fact_digit_bound(c: int, k: int)
    requires
        c >= 0,
        k >= 0,
    ensures
        0 <= fact_digit(c, k) <= k,
{
    lemma_fact_pos(k);
    assert(c / fact(k) >= 0) by (nonlinear_arith)
        requires
            c >= 0,
            fact(k) >= 1,
    ;
}

/// A value written with valid Lehmer digits is below `(m + 1)!`.
pub proof fn lemma_lehmer_value_bound(p: Seq<u64>, m: int)
    requires
        0 <= m < p.len(),
    ensures
        0 <= lehmer_value(p, m) < fact(m + 1),
    decreases m,
{
    lemma_fact_pos(m);
    if m > 0 {
        lemma_lehmer_value_bound(p, m - 1);
        lemma_count_greater_bound(p.take(m), p[m]);
        let dm = lehmer_digit(p, m);
        assert(dm * fact(m) <= m * fact(m)) by (nonlinear_arith)
            requires
                0 <= dm <= m,
                fact(m) >= 1,
        ;
        assert(dm * fact(m) >= 0) by (nonlinear_arith)
            requires
                0 <= dm,
                fact(m) >= 1,
        ;
        assert(fact(m + 1) == (m + 1) * fact(m));
        assert((m + 1) * fact(m) == m * fact(m) + fact(m)) by (nonlinear_arith);
    }
}

} // verus!

verus! {

pub proof fn lemma_fact_mono(a: int, b: int)
    requires
        0 <= a <= b,
    ensures
        fact(a) <= fact(b),
    decreases b,
{
    lemma_fact_pos(b);
    if a < b {
        lemma_fact_mono(a, b - 1);
        lemma_fact_pos(b - 1);
        assert(b * fact(b - 1) >= fact(b - 1)) by (nonlinear_arith)
            requires
                b >= 1,
                fact(b - 1) >= 1,
        ;
    }
}

pub proof fn lemma_fact_12()
    ensures
        fact(12) == 479001600,
        fact(8) == 40320,
        fact(4) == 24,
{
    assert(fact(0) == 1);
    assert(fact(1) == 1);
    assert(fact(2) == 2);
    assert(fact(3) == 6);
    assert(fact(4) == 24);
    assert(fact(5) == 120);
    assert(fact(6) == 720);
    assert(fact(7) == 5040);
    assert(fact(8) == 40320);
    assert(fact(9) == 362880);
    assert(fact(10) == 3628800);
    assert(fact(11) == 39916800);
    assert(fact(12) == 479001600);
}

/// The factorial digits of `code`, for positions `0 .. n` (position 0 is always 0).
pub open spec fn fact_digits(code: int, n: int) -> Seq<int> {
    Seq::new(n as nat, |k: int| if k == 0 { 0 } else { fact_digit(code, k) })
}

/// How many of `p[0..i]` are greater than `p[i]`.
fn count_greater_before(p: &Vec<u64>, i: usize) -> (c: u32)
    requires
        i < p@.len() <= 12,
    ensures
        c == lehmer_digit(p@, i as int),
        c <= i,
{
    let mut c: u32 = 0;
    let mut j: usize = 0;
    while j < i
        invariant
            i < p@.len() <= 12,
            j <= i,
            c == count_greater(p@.take(j as int), p@[i as int]),
            c <= j,
        decreases i - j,
    {
        proof {
            assert(p@.take(j + 1) =~= p@.take(j as int).push(p@[j as int]));
            lemma_count_greater_push(p@.take(j as int), p@[j as int], p@[i as int]);
        }
        if p[j] > p[i] {
            c = c + 1;
        }
        j = j + 1;
    }
    c
}

/// The rank of a sequence in the factorial number system (its Lehmer code).
pub fn lehmer_rank(p: &Vec<u64>) -> (r: u32)
    requires
        1 <= p@.len() <= 12,
    ensures
        r == lehmer_value(p@, p@.len() - 1),
        r < fact(p@.len() as int),
{
    let n = p.len();
    let mut coord: u32 = 0;
    let mut f: u32 = 1;
    let mut i: usize = 1;
    proof {
        lemma_fact_12();
        assert(fact(1) == 1 * fact(0));
    }
    while i < n
        invariant
            1 <= i <= n,
            n == p@.len() <= 12,
            coord == lehmer_value(p@, i - 1),
            coord < fact(i as int),
            f == fact(i - 1),
            fact(12) == 479001600,
        decreases n - i,
    {
        proof {
            lemma_fact_mono(i as int, 12);
            lemma_lehmer_value_bound(p@, i as int);
            lemma_fact_mono(i + 1, 12);
            assert(fact(i as int) == i * fact(i - 1));
            lemma_fact_pos(i - 1);
            assert(f * i == i * f) by (nonlinear_arith);
        }
        f = f * (i as u32);
        let d = count_greater_before(p, i);
        proof {
            lemma_fact_pos(i as int);
            assert(d * f <= i * f) by (nonlinear_arith)
                requires
                    d <= i,
                    f >= 1,
            ;
            assert(coord + d * f == lehmer_value(p@, i as int));
        }
        coord = coord + d * f;
        i = i + 1;
    }
    coord
}

/// The factorial digits of `code` for positions `0 .. n`.
fn code_digits(code: u32, n: usize) -> (d: Vec<u32>)
    requires
        1 <= n <= 12,
    ensures
        d@.len() == n,
        forall|k: int| 0 <= k < n ==> #[trigger] d@[k] == fact_digits(code as int, n as int)[k],
{
    let mut d: Vec<u32> = Vec::new();
    d.push(0);
    let mut temp: u32 = code;
    let mut i: usize = 1;
    proof {
        assert(fact(0) == 1);
        assert(code as int / 1 == code);
    }
    while i < n
        invariant
            1 <= i <= n <= 12,
            d@.len() == i,
            forall|k: int| 0 <= k < i ==> #[trigger] d@[k] == fact_digits(code as int, n as int)[k],
            temp == code as int / fact(i - 1) / i as int,
        decreases n - i,
    {
        proof {
            lemma_fact_pos(i - 1);
            vstd::arithmetic::div_mod::lemma_div_denominator(code as int, fact(i - 1), i as int);
            assert(fact(i as int) == i * fact(i - 1));
            assert(fact(i - 1) * i == i * fact(i - 1)) by (nonlinear_arith);
        }
        d.push(temp % ((i + 1) as u32));
        proof {
            lemma_fact_pos(i as int);
            vstd::arithmetic::div_mod::lemma_div_denominator(code as int, fact(i as int), i + 1);
        }
        temp = temp / ((i + 1) as u32);
        i = i + 1;
    }
    d
}

/// The permutation of the increasing list `avail` whose Lehmer code is `code`
/// (taken modulo `n!`): positions are filled from the last down, each with the
/// remaining entry that has as many greater entries left as the code's digit says.
pub fn lehmer_unrank(code: u32, avail: Vec<u64>) -> (p: Vec<u64>)
    requires
        1 <= avail@.len() <= 12,
        increasing(avail@),
    ensures
        p@ == pick(avail@, fact_digits(code as int, avail@.len() as int), avail@.len() - 1),
        p@.len() == avail@.len(),
{
    let n = avail.len();
    let d = code_digits(code, n);
    let ghost ds = fact_digits(code as int, n as int);
    let ghost target = pick(avail@, ds, n - 1);
    proof {
        assert forall|k: int| 1 <= k < n implies 0 <= #[trigger] ds[k] <= k by {
            lemma_fact_digit_bound(code as int, k);
        }
        assert(digits_ok(ds, n - 1));
    }
    let mut available = avail;
    let mut perm: Vec<u64> = Vec::new();
    let mut i: usize = n - 1;
    proof {
        assert(target =~= pick(available@, ds, i as int) + perm@);
    }
    while i > 0
        invariant
            i < n <= 12,
            d@.len() == n,
            forall|k: int| 0 <= k < n ==> #[trigger] d@[k] == ds[k],
            digits_ok(ds, n - 1),
            available@.len() == i + 1,
            perm@.len() == n - 1 - i,
            target == pick(available@, ds, i as int) + perm@,
        decreases i,
    {
        proof {
            assert(0 <= ds[i as int] <= i);
        }
        let index = i - d[i] as usize;
        let ghost before_av = available@;
        let ghost before_perm = perm@;
        proof {
            assert(pick(before_av, ds, i as int) == pick(before_av.remove(index as int), ds, i - 1).push(
                before_av[index as int],
            ));
        }
        let x = available.remove(index);
        perm.insert(0, x);
        proof {
            assert(perm@ =~= seq![x] + before_perm);
            assert(target =~= pick(available@, ds, i - 1) + perm@);
        }
        i = i - 1;
    }
    let first = available[0];
    let ghost before_perm = perm@;
    perm.insert(0, first);
    proof {
        assert(perm@ =~= seq![first] + before_perm);
        assert(pick(available@, ds, 0) == seq![available@[0]]);
        assert(target =~= perm@);
    }
    perm
}

} // verus!

verus! {

/// `b^k`.
pub open spec fn powi(b: int, k: int) -> int
    decreases k,
{
    if k <= 0 {
        1
    } else {
        b * powi(b, k - 1)
    }
}

/// The value of the digits `f(0), ..., f(m - 1)` in base `b`, least significant first.
pub open spec fn radix_value(f: spec_fn(int) -> int, b: int, m: int) -> int
    decreases m,
{
    if m <= 0 {
        0
    } else {
        radix_value(f, b, m - 1) + f(m - 1) * powi(b, m - 1)
    }
}

/// Digit `k` of `x` in base `b`.
pub open spec fn radix_digit(x: int, b: int, k: int) -> int {
    (x / powi(b, k)) % b
}

pub proof fn lemma_powi_pos(b: int, k: int)
    requires
        b >= 1,
    ensures
        powi(b, k) >= 1,
    decreases k,
{
    if k > 0 {
        lemma_powi_pos(b, k - 1);
        assert(b * powi(b, k - 1) >= 1) by (nonlinear_arith)
            requires
                b >= 1,
                powi(b, k - 1) >= 1,
        ;
    }
}

/// Digit sums only depend on the digits.
pub proof fn lemma_radix_ext(f: spec_fn(int) -> int, g: spec_fn(int) -> int, b: int, m: int)
    requires
        forall|k: int| 0 <= k < m ==> #[trigger] f(k) == g(k),
    ensures
        radix_value(f, b, m) == radix_value(g, b, m),
    decreases m,
{
    if m > 0 {
        lemma_radix_ext(f, g, b, m - 1);
    }
}

/// The base-`b` digits of `x` give back `x` modulo `b^m`.
pub proof fn lemma_radix_digits(x: int, b: int, m: int)
    requires
        x >= 0,
        b >= 2,
        m >= 0,
    ensures
        radix_value(|k: int| radix_digit(x, b, k), b, m) == x % powi(b, m),
    decreases m,
{
    lemma_powi_pos(b, m);
    if m == 0 {
        assert(x % 1 == 0) by (nonlinear_arith);
    } else {
        lemma_radix_digits(x, b, m - 1);
        lemma_powi_pos(b, m - 1);
        let p = powi(b, m - 1);
        vstd::arithmetic::div_mod::lemma_mod_breakdown(x, p, b);
        assert(p * b == b * p) by (nonlinear_arith);
        assert(p * radix_digit(x, b, m - 1) == radix_digit(x, b, m - 1) * p) by (nonlinear_arith);
    }
}

/// A value with digits below `b` is below `b^m`.
pub proof fn lemma_radix_bound(f: spec_fn(int) -> int, b: int, m: int)
    requires
        b >= 1,
        m >= 0,
        forall|k: int| 0 <= k < m ==> 0 <= #[trigger] f(k) < b,
    ensures
        0 <= radix_value(f, b, m) < powi(b, m),
    decreases m,
{
    lemma_powi_pos(b, m);
    if m > 0 {
        lemma_radix_bound(f, b, m - 1);
        lemma_powi_pos(b, m - 1);
        let p = powi(b, m - 1);
        let d = f(m - 1);
        assert(d * p <= (b - 1) * p) by (nonlinear_arith)
            requires
                0 <= d < b,
                p >= 1,
        ;
        assert(d * p >= 0) by (nonlinear_arith)
            requires
                0 <= d,
                p >= 1,
        ;
        assert((b - 1) * p + p == b * p) by (nonlinear_arith);
    }
}

} // verus!

verus! {

/// With digits at most `c`, the value is at most `c * (b^m - 1)`.
pub proof fn lemma_radix_loose_bound(f: spec_fn(int) -> int, b: int, c: int, m: int)
    requires
        b >= 2,
        c >= 0,
        m >= 0,
        forall|k: int| 0 <= k < m ==> 0 <= #[trigger] f(k) <= c,
    ensures
        0 <= radix_value(f, b, m) <= c * (powi(b, m) - 1),
    decreases m,
{
    lemma_powi_pos(b, m);
    if m > 0 {
        lemma_radix_loose_bound(f, b, c, m - 1);
        lemma_powi_pos(b, m - 1);
        let p = powi(b, m - 1);
        let d = f(m - 1);
        assert(d * p <= c * p) by (nonlinear_arith)
            requires
                0 <= d <= c,
                p >= 1,
        ;
        assert(d * p >= 0) by (nonlinear_arith)
            requires
                0 <= d,
                p >= 1,
        ;
        assert(c * (p - 1) + c * p <= c * (b * p - 1)) by (nonlinear_arith)
            requires
                b >= 2,
                c >= 0,
                p >= 1,
        ;
    } else {
        assert(c * (1 - 1) == 0) by (nonlinear_arith);
    }
}

} // verus!

verus! {

/// `[0, 1, ..., n - 1]`.
pub open spec fn iota(n: int) -> Seq<u64> {
    Seq::new(n as nat, |i: int| i as u64)
}

pub proof fn lemma_count_greater_zero_inv(s: Seq<u64>, v: u64)
    requires
        count_greater(s, v) == 0,
    ensures
        forall|k: int| 0 <= k < s.len() ==> #[trigger] s[k] <= v,
    decreases s.len(),
{
    if s.len() > 0 {
        lemma_count_greater_bound(s.drop_last(), v);
        lemma_count_greater_zero_inv(s.drop_last(), v);
        assert forall|k: int| 0 <= k < s.len() implies #[trigger] s[k] <= v by {
            if k < s.len() - 1 {
                assert(s.drop_last()[k] == s[k]);
            }
        }
    }
}

/// The Lehmer code of the permutation built from `code` is `code` modulo `n!`, and
/// the permutation stays within the bounds of `avail`.
pub proof fn lemma_unrank_roundtrip(code: int, avail: Seq<u64>, bound: u64)
    requires
        code >= 0,
        1 <= avail.len() <= 12,
        increasing(avail),
        forall|k: int| 0 <= k < avail.len() ==> #[trigger] avail[k] < bound,
    ensures
        ({
            let n = avail.len() as int;
            let p = pick(avail, fact_digits(code, n), n - 1);
            &&& p.len() == n
            &&& lehmer_value(p, n - 1) == code % fact(n)
            &&& forall|k: int| 0 <= k < n ==> #[trigger] p[k] < bound
        }),
{
    let n = avail.len() as int;
    let d = fact_digits(code, n);
    assert forall|k: int| 1 <= k <= n - 1 implies 0 <= #[trigger] d[k] <= k by {
        lemma_fact_digit_bound(code, k);
    }
    lemma_pick_digits(avail, d, n - 1);
    let p = pick(avail, d, n - 1);
    lemma_lehmer_value_digits(p, d, n - 1);
    lemma_fact_digits_value(code, d, n - 1);
    if bound > 0 {
        lemma_pick_count(avail, d, n - 1, (bound - 1) as u64);
        lemma_count_greater_zero((avail), bound);
        assert(count_greater(avail, (bound - 1) as u64) == 0) by {
            lemma_count_greater_le_zero(avail, (bound - 1) as u64);
        }
        lemma_count_greater_zero_inv(p, (bound - 1) as u64);
    }
}

/// No entry of `s` is greater than `v` when none is counted.
proof fn lemma_count_greater_none(s: Seq<u64>, v: u64)
    requires
        count_greater(s, v) == 0,
    ensures
        forall|k: int| 0 <= k < s.len() ==> s[k] <= v,
    decreases s.len(),
{
    if s.len() > 0 {
        lemma_count_greater_bound(s.drop_last(), v);
        lemma_count_greater_none(s.drop_last(), v);
        assert forall|k: int| 0 <= k < s.len() implies s[k] <= v by {
            if k < s.len() - 1 {
                assert(s[k] == s.drop_last()[k]);
            }
        }
    }
}

/// Entries `0 ..= m` of `p`, all different, whose Lehmer code is 0 come in increasing
/// order.
pub proof fn lemma_lehmer_zero(p: Seq<u64>, m: int)
    requires
        0 <= m < p.len(),
        lehmer_value(p, m) == 0,
        forall|i: int, j: int| 0 <= i < j <= m ==> p[i] != p[j],
    ensures
        forall|i: int, j: int| 0 <= i < j <= m ==> p[i] < p[j],
    decreases m,
{
    if m > 0 {
        lemma_lehmer_value_bound(p, m - 1);
        lemma_count_greater_bound(p.take(m), p[m]);
        lemma_fact_pos(m);
        let dm = lehmer_digit(p, m);
        assert(dm * fact(m) >= 0) by (nonlinear_arith)
            requires
                0 <= dm,
                fact(m) >= 1,
        ;
        assert(dm == 0) by (nonlinear_arith)
            requires
                dm * fact(m) == 0,
                fact(m) >= 1,
        ;
        lemma_lehmer_zero(p, m - 1);
        lemma_count_greater_none(p.take(m), p[m]);
        assert forall|i: int, j: int| 0 <= i < j <= m implies p[i] < p[j] by {
            if j == m {
                assert(p.take(m)[i] == p[i]);
            }
        }
    }
}

/// Increasing entries all below the length are the identity.
pub proof fn lemma_increasing_below_len(s: Seq<u64>)
    requires
        forall|i: int, j: int| 0 <= i < j < s.len() ==> s[i] < s[j],
        forall|i: int| 0 <= i < s.len() ==> s[i] < s.len(),
    ensures
        forall|i: int| 0 <= i < s.len() ==> s[i] == i,
{
    assert forall|i: int| 0 <= i < s.len() implies s[i] >= i by {
        lemma_increasing_from_start(s, i);
    }
    assert forall|i: int| 0 <= i < s.len() implies s[i] <= i by {
        lemma_increasing_to_end(s, i);
    }
}

proof fn lemma_increasing_from_start(s: Seq<u64>, i: int)
    requires
        forall|a: int, b: int| 0 <= a < b < s.len() ==> s[a] < s[b],
        0 <= i < s.len(),
    ensures
        s[i] >= i,
    decreases i,
{
    if i > 0 {
        lemma_increasing_from_start(s, i - 1);
        assert(s[i - 1] < s[i]);
    }
}

proof fn lemma_increasing_to_end(s: Seq<u64>, i: int)
    requires
        forall|a: int, b: int| 0 <= a < b < s.len() ==> s[a] < s[b],
        forall|a: int| 0 <= a < s.len() ==> s[a] < s.len(),
        0 <= i < s.len(),
    ensures
        s[i] <= i,
    decreases s.len() - i,
{
    if i < s.len() - 1 {
        lemma_increasing_to_end(s, i + 1);
        assert(s[i] < s[i + 1]);
    } else {
        assert(s[i] < s.len());
    }
}

/// An increasing sequence has Lehmer code 0.
pub proof fn lemma_lehmer_increasing(p: Seq<u64>, m: int)
    requires
        0 <= m < p.len(),
        forall|i: int, j: int| 0 <= i < j <= m ==> p[i] < p[j],
    ensures
        lehmer_value(p, m) == 0,
    decreases m,
{
    if m > 0 {
        lemma_lehmer_increasing(p, m - 1);
        let t = p.take(m);
        assert forall|k: int| 0 <= k < t.len() implies t[k] < p[m] by {
            assert(t[k] == p[k]);
        }
        lemma_count_greater_zero(t, p[m]);
    }
}

proof fn lemma_count_greater_le_zero(s: Seq<u64>, v: u64)
    requires
        forall|k: int| 0 <= k < s.len() ==> #[trigger] s[k] <= v,
    ensures
        count_greater(s, v) == 0,
    decreases s.len(),
{
    if s.len() > 0 {
        lemma_count_greater_le_zero(s.drop_last(), v);
    }
}

/// `[0, 1, ..., n - 1]` as a vector.
pub fn iota_vec(n: u64) -> (v: Vec<u64>)
    requires
        n <= 12,
    ensures
        v@ == iota(n as int),
        increasing(v@),
{
    let mut v: Vec<u64> = Vec::new();
    let mut i: u64 = 0;
    while i < n
        invariant
            i <= n <= 12,
            v@ == iota(i as int),
        decreases n - i,
    {
        v.push(i);
        proof {
            assert(v@ =~= iota(i + 1));
        }
        i = i + 1;
    }
    v
}

} // verus!
