//! Choosing the size of a model for a vocabulary: the bands that it asks for, and what they are
//! enough for.

use vstd::prelude::*;
use crate::arith::Arith;
#[allow(unused_imports)]
use crate::arith::{Expr, minus, one, over, plus};
use crate::estimates::bands_wanted;
#[allow(unused_imports)]
use crate::estimates::{asked_for, bands_needed_of};
#[allow(unused_imports)]
use crate::exact::{
    Curves, Dual, dual_of, inverse, lemma_minus, lemma_over, lemma_plus, prod, value,
};
use crate::recommend::{
    DataProfile, MIN_BANDS, Recommendation, compute_recommendation, find_coprime_moduli,
    next_practical,
};
#[allow(unused_imports)]
use crate::recommend::{at_least, block_estimate, in_reach, is_ceil_root, law_practical_is_least};

verus! {

/// Whether the estimates of a model fit machine numbers.
pub fn estimates_fit(min_bands: usize) -> (fit: bool)
    ensures
        fit == in_reach(min_bands as int),
{
    if min_bands > usize::MAX - 63 {
        return false;
    }
    let n: usize = next_practical(
        if min_bands >= MIN_BANDS {
            min_bands
        } else {
            MIN_BANDS
        },
    );
    let ghost b = n as int;
    assert(block_estimate(b) == 20 * (b * b) + 17 * b + 2) by (nonlinear_arith);
    if n as u64 >= 0x1_0000_0000 {
        assert(b * b >= 0x1_0000_0000 * 0x1_0000_0000) by (nonlinear_arith)
            requires
                b >= 0x1_0000_0000,
        ;
        return false;
    }
    assert(b * b <= 0x1_0000_0000 * 0x1_0000_0000) by (nonlinear_arith)
        requires
            0 <= b < 0x1_0000_0000,
    ;
    let wide: u128 = n as u128;
    let block: u128 = 20 * (wide * wide) + 17 * wide + 2;
    block <= usize::MAX as u128 && 8 * block + wide <= usize::MAX as u128
}

/// A number has one root.
proof fn lemma_one_root(a: int, b: int, v: int)
    requires
        v >= 0,
    ensures
        is_ceil_root(a, v) && is_ceil_root(b, v) ==> a == b,
{
    if is_ceil_root(a, v) && is_ceil_root(b, v) {
        assert(a <= b) by (nonlinear_arith)
            requires
                b >= 0,
                b * b >= v,
                a > 0 ==> (a - 1) * (a - 1) < v,
        ;
        assert(b <= a) by (nonlinear_arith)
            requires
                a >= 0,
                a * a >= v,
                b > 0 ==> (b - 1) * (b - 1) < v,
        ;
    }
}

/// Recommends a configuration for data: with as many bands as their vocabulary asks for.
/// Without a result where the estimates for that many bands fit no machine number.
pub fn recommend<T: Copy, A: Arith<T>>(
    ops: &A,
    profile: &DataProfile,
    seq_override: Option<usize>,
) -> (res: Option<Recommendation>)
    ensures
        exists|m1: usize, m2: usize, n: usize| #[trigger]
            asked_for(*ops, profile.vocab_size, m1, m2, n) && (res is Some) == in_reach(n as int)
                && (res matches Some(rec) ==> rec.m1 == m1 && rec.m2 == m2 && rec.suits(
                *profile,
                seq_override,
                n as int,
            )),
{
    let (m1, m2) = find_coprime_moduli(profile.vocab_size);
    let n: usize = bands_wanted(ops, profile.vocab_size, m1, m2);
    if !estimates_fit(n) {
        return None;
    }
    let rec: Recommendation = compute_recommendation(profile, seq_override, n);
    proof {
        let v = profile.vocab_size as int;
        lemma_one_root(m1 as int, rec.m1 as int, v);
        lemma_one_root(m1 - 1, rec.m1 as int, v);
        lemma_one_root(m1 as int, rec.m1 - 1, v);
        lemma_one_root(m1 - 1, rec.m1 - 1, v);
    }
    Some(rec)
}

/// In exact numbers: a whole part of a half, held against the inverse of what it was taken by.
#[verifier::spinoff_prover]
proof fn lemma_dead(n: int, m: int, i: real)
    requires
        n >= 0,
        m > 0,
        i * (m as real) == 1real,
    ensures
        2real * ((n / 2 / m) as real) <= i * (n as real),
        i > 0real,
{
    let d = n / 2 / m;
    assert(2 * (d * m) <= n) by (nonlinear_arith)
        requires
            d == n / 2 / m,
            m > 0,
            n >= 0,
    ;
    let p = d * m;
    assert(p as real == (d as real) * (m as real)) by (nonlinear_arith)
        requires
            p == d * m,
    ;
    let (dr, mr, nr, pr) = (d as real, m as real, n as real, p as real);
    assert(2real * pr <= nr);
    assert(i > 0real) by (nonlinear_arith)
        requires
            i * mr == 1real,
            mr > 0real,
    ;
    assert(2real * dr <= i * nr) by (nonlinear_arith)
        requires
            pr == dr * mr,
            2real * pr <= nr,
            i * mr == 1real,
            i > 0real,
    ;
}

/// What a model needs, in exact numbers.
#[verifier::spinoff_prover]
proof fn lemma_needed(cu: Curves, active: usize, m1: usize, m2: usize) -> (inverses: (real, real))
    requires
        m1 > 0,
        m2 > 0,
    ensures
        inverses.0 * (m1 as real) == 1real,
        inverses.1 * (m2 as real) == 1real,
        1real - (inverses.0 + inverses.1) != 0real ==> value(
            cu,
            bands_needed_of(active, m1, m2),
        ) * (1real - (inverses.0 + inverses.1)) * 85real == 100real * (active as real),
{
    reveal(dual_of);
    reveal(prod);
    reveal(inverse);
    let (a, b) = (m1 as real, m2 as real);
    let (i, j) = (1real / a, 1real / b);
    assert(i * a == 1real) by (nonlinear_arith)
        requires
            i == 1real / a,
            a > 0real,
    ;
    assert(j * b == 1real) by (nonlinear_arith)
        requires
            j == 1real / b,
            b > 0real,
    ;
    let left = over::<Dual>(one(), Expr::Count(m1));
    let right = over::<Dual>(one(), Expr::Count(m2));
    lemma_over(cu, one(), Expr::Count(m1));
    lemma_over(cu, one(), Expr::Count(m2));
    assert(value(cu, one()) == 1u64 as real / 1u64 as real);
    assert(value(cu, left) == i);
    assert(value(cu, right) == j);
    lemma_plus(cu, left, right);
    lemma_minus(cu, one(), plus(left, right));
    let q = 1real - (i + j);
    let kept = minus(one(), plus(left, right));
    assert(value(cu, kept) == q);
    let c = active as real;
    let whole = over(Expr::Count(active), kept);
    lemma_over(cu, Expr::Count(active), kept);
    lemma_over(cu, whole, Expr::Ratio(85, 100));
    assert(value(cu, Expr::Ratio(85, 100)) == 85real / 100real);
    let v = value(cu, bands_needed_of(active, m1, m2));
    if q != 0real {
        let (p, r) = (1real / q, 1real / (85real / 100real));
        assert(p * q == 1real) by (nonlinear_arith)
            requires
                p == 1real / q,
                q != 0real,
        ;
        assert(85real * r == 100real);
        assert(v == (c * p) * r);
        assert(v * q * 85real == 100real * c) by (nonlinear_arith)
            requires
                v == (c * p) * r,
                p * q == 1real,
                85real * r == 100real,
        ;
    }
    (i, j)
}

/// The bands that a recommendation settles on are enough: in exact numbers, where they come from
/// no fewer bands than a vocabulary needs, more of them are active than it has tokens.
#[verifier::spinoff_prover]
pub proof fn law_recommended_bands_suffice(
    cu: Curves,
    rec: Recommendation,
    profile: DataProfile,
    seq_override: Option<usize>,
    active: usize,
    n: usize,
)
    requires
        rec.suits(profile, seq_override, n as int),
        active >= profile.vocab_size,
        n as real >= value(cu, bands_needed_of(active, rec.m1, rec.m2)),
    ensures
        rec.active_bands > profile.vocab_size,
{
    let (m1, m2, bands) = (rec.m1 as int, rec.m2 as int, rec.n_bands as int);
    law_practical_is_least(at_least(n as int, 42), 0);
    assert(m1 > 0) by {
        assert(m1 % 2 == 1);
    }
    let (i, j) = lemma_needed(cu, active, rec.m1, rec.m2);
    lemma_dead(bands, m1, i);
    lemma_dead(bands, m2, j);
    if m1 == 1 {
        assert(rec.m1 * rec.m2 == 3) by (nonlinear_arith)
            requires
                rec.m1 == 1,
                rec.m2 == 3,
        ;
        assert(bands / 2 / m1 == bands / 2);
    } else {
        let (a, b) = (m1 as real, m2 as real);
        assert(i <= 1real / 3real) by (nonlinear_arith)
            requires
                i * a == 1real,
                a >= 3real,
                i > 0real,
        ;
        assert(j <= 1real / 3real) by (nonlinear_arith)
            requires
                j * b == 1real,
                b >= 3real,
                j > 0real,
        ;
        let q = 1real - (i + j);
        let v = value(cu, bands_needed_of(active, rec.m1, rec.m2));
        let (size, c) = (bands as real, active as real);
        assert(v * q <= size * q) by (nonlinear_arith)
            requires
                v <= size,
                q > 0real,
        ;
        assert(v * q * 85real == 100real * c);
        let w = v * q;
        assert(size * q >= c);
        let (x, y) = (i * size, j * size);
        assert(size * q == size - x - y) by (nonlinear_arith)
            requires
                q == 1real - (i + j),
                x == i * size,
                y == j * size,
        ;
        assert(x > 0real && y > 0real) by (nonlinear_arith)
            requires
                x == i * size,
                y == j * size,
                i > 0real,
                j > 0real,
                size > 0real,
        ;
        let (d1, d2) = ((bands / 2 / m1) as real, (bands / 2 / m2) as real);
        assert(size - d1 - d2 > c);
    }
}

} // verus!
