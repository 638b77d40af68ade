//! Correlations and similarities of series.

use vstd::prelude::*;
use crate::arith::{Arith, Test, Traced, TracedVec, build, holds, pick_on};
#[allow(unused_imports)]
use crate::arith::{
    Expr, Unary, dot_of, entry, fits, minus, over, pick, test_is, times, un, vals, zero,
};
use crate::attention::stretch;
use crate::layers::{mean_on, score, traced};
#[allow(unused_imports)]
use crate::layers::mean_of;
use crate::loss::norm_on;
#[allow(unused_imports)]
use crate::loss::norm_of;

verus! {

/// The entries less their mean.
pub open spec fn centred_of<T>(xs: Seq<Expr<T>>) -> Seq<Expr<T>> {
    Seq::new(xs.len(), |i: int| minus(xs[i], mean_of(xs)))
}

/// The entries less their mean, traced.
pub fn centred_on<T: Copy, A: Arith<T>>(ops: &A, xs: &TracedVec<T>) -> (out: TracedVec<T>)
    requires
        xs.ok(*ops),
    ensures
        out.ok(*ops),
        out.v@.len() == xs.v@.len(),
        out.e@ == centred_of(xs.e@),
{
    let n: usize = xs.len();
    let mean: Traced<T> = mean_on(ops, xs);
    let f = |i: usize| -> (r: Traced<T>)
        requires
            i < n,
        ensures
            r.ok(*ops),
            r.e@ == entry(centred_of(xs.e@), i),
    {
        xs.get(ops, i).minus(ops, mean)
    };
    build(ops, n, Ghost(centred_of(xs.e@)), f)
}

/// The sum of the products of two series' deviations.
pub open spec fn codeviation_of<T>(xs: Seq<Expr<T>>, ys: Seq<Expr<T>>) -> Expr<T> {
    dot_of(zero(), centred_of(xs), centred_of(ys))
}

/// The correlation of two series.
pub open spec fn correlation_of<T>(xs: Seq<Expr<T>>, ys: Seq<Expr<T>>) -> Expr<T> {
    over(
        codeviation_of(xs, ys),
        times(
            un(Unary::Root, codeviation_of(xs, xs)),
            un(Unary::Root, codeviation_of(ys, ys)),
        ),
    )
}

/// The comparison of a formula's value with zero gave `out`.
pub open spec fn not_positive<T: Copy, A: Arith<T>>(ops: A, e: Expr<T>, out: bool) -> bool {
    exists|v: T, z: T| #[trigger]
        test_is(ops, Test::AtMost, v, z, out) && fits(ops, e, v) && fits(ops, zero(), z)
}

/// The correlation of two series. There is none between series of different lengths, of
/// fewer than two entries, or where one of them does not vary.
pub fn pearson_correlation<T: Copy, A: Arith<T>>(ops: &A, xs: &[T], ys: &[T]) -> (out: Option<T>)
    ensures
        xs@.len() != ys@.len() || xs@.len() < 2 ==> out is None,
        xs@.len() == ys@.len() && xs@.len() >= 2 ==> {
            let (x, y) = (vals(xs@), vals(ys@));
            match out {
                Some(r) => {
                    &&& not_positive(*ops, codeviation_of(x, x), false)
                    &&& not_positive(*ops, codeviation_of(y, y), false)
                    &&& fits(*ops, correlation_of(x, y), r)
                },
                None => not_positive(*ops, codeviation_of(x, x), true) || not_positive(
                    *ops,
                    codeviation_of(y, y),
                    true,
                ),
            }
        },
{
    let n: usize = xs.len();
    let m: usize = ys.len();
    if n != m || n < 2 {
        return None;
    }
    let dx: TracedVec<T> = centred_on(ops, &traced(ops, xs));
    let dy: TracedVec<T> = centred_on(ops, &traced(ops, ys));
    let cov: Traced<T> = score(ops, &dx, &dy);
    let var_x: Traced<T> = score(ops, &dx, &dx);
    let var_y: Traced<T> = score(ops, &dy, &dy);
    let nought: Traced<T> = Traced::ratio(ops, 0, 1);
    let flat_x: bool = holds(ops, Test::AtMost, var_x.v, nought.v);
    assert(not_positive(*ops, codeviation_of(vals(xs@), vals(xs@)), flat_x));
    if flat_x {
        return None;
    }
    let flat_y: bool = holds(ops, Test::AtMost, var_y.v, nought.v);
    assert(not_positive(*ops, codeviation_of(vals(ys@), vals(ys@)), flat_y));
    if flat_y {
        return None;
    }
    Some(cov.over(ops, var_x.root(ops).times(ops, var_y.root(ops))).v)
}

/// Too little to divide by.
pub open spec fn faint<T>() -> Expr<T> {
    Expr::Ratio(1, 10000000000)
}

/// `x`, but zero where `a` or `b` is too small to divide by.
pub open spec fn unless_faint<T>(a: Expr<T>, b: Expr<T>, x: Expr<T>) -> Expr<T> {
    pick(
        Test::Exceeds,
        faint(),
        a,
        zero(),
        pick(Test::Exceeds, faint(), b, zero(), x),
    )
}

fn unless_faint_on<T: Copy, A: Arith<T>>(ops: &A, a: Traced<T>, b: Traced<T>, x: Traced<T>) -> (out:
    Traced<T>)
    requires
        a.ok(*ops),
        b.ok(*ops),
        x.ok(*ops),
    ensures
        out.ok(*ops),
        out.e@ == unless_faint(a.e@, b.e@, x.e@),
{
    let eps: Traced<T> = Traced::ratio(ops, 1, 10000000000);
    let nought: Traced<T> = Traced::ratio(ops, 0, 1);
    let inner: Traced<T> = pick_on(ops, Test::Exceeds, eps, b, nought, x);
    pick_on(ops, Test::Exceeds, eps, a, nought, inner)
}

/// The correlation of two series as the diagnostics take it: zero where there are fewer than
/// two entries or where one of the series hardly varies.
pub open spec fn loose_correlation_of<T>(xs: Seq<Expr<T>>, ys: Seq<Expr<T>>) -> Expr<T> {
    if xs.len() < 2 {
        zero()
    } else {
        unless_faint(codeviation_of(xs, xs), codeviation_of(ys, ys), correlation_of(xs, ys))
    }
}

/// The correlation of two series as the diagnostics take it, traced.
pub fn loose_correlation_on<T: Copy, A: Arith<T>>(ops: &A, xs: &TracedVec<T>, ys: &TracedVec<T>) -> (out:
    Traced<T>)
    requires
        xs.ok(*ops),
        ys.ok(*ops),
        xs.v@.len() == ys.v@.len(),
    ensures
        out.ok(*ops),
        out.e@ == loose_correlation_of(xs.e@, ys.e@),
{
    let n: usize = xs.len();
    if n < 2 {
        return Traced::ratio(ops, 0, 1);
    }
    let dx: TracedVec<T> = centred_on(ops, xs);
    let dy: TracedVec<T> = centred_on(ops, ys);
    let cov: Traced<T> = score(ops, &dx, &dy);
    let var_x: Traced<T> = score(ops, &dx, &dx);
    let var_y: Traced<T> = score(ops, &dy, &dy);
    let r: Traced<T> = cov.over(ops, var_x.root(ops).times(ops, var_y.root(ops)));
    unless_faint_on(ops, var_x, var_y, r)
}

/// The products of the entries that both vectors have, added up.
pub open spec fn shared_dot<T>(a: Seq<Expr<T>>, b: Seq<Expr<T>>) -> Expr<T> {
    if a.len() <= b.len() {
        dot_of(zero(), a, b)
    } else {
        dot_of(zero(), a.subrange(0, b.len() as int), b)
    }
}

/// The products of the entries that both vectors have, added up, traced.
pub fn shared_dot_on<T: Copy, A: Arith<T>>(ops: &A, a: &TracedVec<T>, b: &TracedVec<T>) -> (out:
    Traced<T>)
    requires
        a.ok(*ops),
        b.ok(*ops),
    ensures
        out.ok(*ops),
        out.e@ == shared_dot(a.e@, b.e@),
{
    let (la, lb): (usize, usize) = (a.len(), b.len());
    if la <= lb {
        score(ops, a, b)
    } else {
        score(ops, &stretch(ops, a, 0, lb), b)
    }
}

/// The cosine between two vectors: zero where one of them hardly has a length.
pub open spec fn similarity_of<T>(a: Seq<Expr<T>>, b: Seq<Expr<T>>) -> Expr<T> {
    unless_faint(
        norm_of(a),
        norm_of(b),
        over(shared_dot(a, b), times(norm_of(a), norm_of(b))),
    )
}

/// The cosine between two vectors, traced.
pub fn similarity_on<T: Copy, A: Arith<T>>(ops: &A, a: &TracedVec<T>, b: &TracedVec<T>) -> (out:
    Traced<T>)
    requires
        a.ok(*ops),
        b.ok(*ops),
    ensures
        out.ok(*ops),
        out.e@ == similarity_of(a.e@, b.e@),
{
    let d: Traced<T> = shared_dot_on(ops, a, b);
    let na: Traced<T> = norm_on(ops, a);
    let nb: Traced<T> = norm_on(ops, b);
    unless_faint_on(ops, na, nb, d.over(ops, na.times(ops, nb)))
}

/// The cosine between two vectors.
pub fn cosine_similarity<T: Copy, A: Arith<T>>(ops: &A, a: &[T], b: &[T]) -> (out: T)
    ensures
        fits(*ops, similarity_of(vals(a@), vals(b@)), out),
{
    similarity_on(ops, &traced(ops, a), &traced(ops, b)).v
}

/// Whether `x` exceeds a ratio came out as `c`.
pub open spec fn exceeds_ratio<T: Copy, A: Arith<T>>(
    ops: A,
    x: T,
    num: u64,
    den: u64,
    c: bool,
) -> bool {
    exists|limit: T| #[trigger]
        test_is(ops, Test::Exceeds, x, limit, c) && fits(ops, Expr::Ratio(num, den), limit)
}

/// Whether `x` exceeds a ratio.
pub fn over_ratio<T: Copy, A: Arith<T>>(ops: &A, x: T, num: u64, den: u64) -> (c: bool)
    ensures
        exceeds_ratio(*ops, x, num, den, c),
{
    let limit: Traced<T> = Traced::ratio(ops, num, den);
    let c: bool = holds(ops, Test::Exceeds, x, limit.v);
    assert(test_is(*ops, Test::Exceeds, x, limit.v, c));
    c
}

} // verus!
