//! Means and weighted means, in exact arithmetic.

use vstd::prelude::*;
#[allow(unused_imports)]
use crate::arith::{Expr, one, over, products_of, times, total_of};
#[allow(unused_imports)]
use crate::exact::{Curves, Dual, inverse, lemma_nothing, lemma_shared, prod, value};
#[allow(unused_imports)]
use crate::linear_exact::{lemma_summed_same, lemma_summed_scaled, summed};
#[allow(unused_imports)]
use crate::loss::norm_of;
#[allow(unused_imports)]
use crate::loss_exact::lemma_inverse;
#[allow(unused_imports)]
use crate::values::{group_value, lemma_total};

verus! {

/// `m` is the mean of the first `n` values: `n` times it is their sum.
pub open spec fn is_mean(m: real, f: spec_fn(int) -> real, n: int) -> bool {
    prod(m, n as real) == summed(f, n)
}

/// `m` is the mean of the first `n` values by their weights.
pub open spec fn is_weighted_mean(
    m: real,
    w: spec_fn(int) -> real,
    f: spec_fn(int) -> real,
    n: int,
) -> bool {
    prod(m, summed(w, n)) == summed(|k: int| prod(w(k), f(k)), n)
}

#[verifier::spinoff_prover]
pub proof fn lemma_quotient_undone(a: real, b: real)
    requires
        b != 0real,
    ensures
        prod(prod(a, inverse(b)), b) == a,
{
    lemma_inverse(b);
    let i = inverse(b);
    reveal(prod);
    assert(a * i * b == a) by (nonlinear_arith)
        requires
            b * i == 1real,
    ;
}

#[verifier::spinoff_prover]
pub proof fn lemma_cancel(a: real, b: real, c: real)
    requires
        c != 0real,
        prod(a, c) == prod(b, c),
    ensures
        a == b,
{
    reveal(prod);
    assert(a == b) by (nonlinear_arith)
        requires
            c != 0real,
            a * c == b * c,
    ;
}

#[verifier::spinoff_prover]
pub proof fn lemma_product_ordered(a: real, b: real, c: real)
    requires
        c >= 0real,
        a <= b,
    ensures
        prod(a, c) <= prod(b, c),
        prod(c, a) <= prod(c, b),
{
    reveal(prod);
    assert(a * c <= b * c) by (nonlinear_arith)
        requires
            c >= 0real,
            a <= b,
    ;
    assert(c * a <= c * b) by (nonlinear_arith)
        requires
            c >= 0real,
            a <= b,
    ;
}

#[verifier::spinoff_prover]
pub proof fn lemma_cancel_ordered(a: real, b: real, c: real)
    requires
        c > 0real,
        prod(a, c) <= prod(b, c),
    ensures
        a <= b,
{
    reveal(prod);
    assert(a <= b) by (nonlinear_arith)
        requires
            c > 0real,
            a * c <= b * c,
    ;
}

#[verifier::spinoff_prover]
pub proof fn lemma_either_way(a: real, b: real)
    ensures
        prod(a, b) == prod(b, a),
{
    reveal(prod);
    assert(a * b == b * a) by (nonlinear_arith);
}

#[verifier::spinoff_prover]
pub proof fn lemma_by_one(a: real)
    ensures
        prod(a, 1real) == a,
        prod(1real, a) == a,
{
    reveal(prod);
}

#[verifier::spinoff_prover]
pub proof fn lemma_summed_ordered(f: spec_fn(int) -> real, g: spec_fn(int) -> real, n: int)
    requires
        forall|i: int| 0 <= i < n ==> #[trigger] f(i) <= g(i),
    ensures
        summed(f, n) <= summed(g, n),
    decreases n,
{
    if n > 0 {
        lemma_summed_ordered(f, g, n - 1);
        assert(f(n - 1) <= g(n - 1));
    }
}

#[verifier::spinoff_prover]
pub proof fn lemma_summed_alike(f: spec_fn(int) -> real, c: real, n: int)
    requires
        n >= 0,
        forall|i: int| 0 <= i < n ==> #[trigger] f(i) == c,
    ensures
        summed(f, n) == prod(c, n as real),
    decreases n,
{
    lemma_nothing(c);
    if n > 0 {
        lemma_summed_alike(f, c, n - 1);
        lemma_shared(c, (n - 1) as real, 1real);
        lemma_by_one(c);
        assert((n - 1) as real + 1real == n as real);
        assert(f(n - 1) == c);
    }
}

/// A weighted mean lies between bounds of the values, and there is only one.
#[verifier::spinoff_prover]
pub proof fn lemma_weighted_mean_between(
    m: real,
    w: spec_fn(int) -> real,
    f: spec_fn(int) -> real,
    n: int,
    least: real,
    most: real,
)
    requires
        is_weighted_mean(m, w, f, n),
        summed(w, n) > 0real,
        forall|k: int| 0 <= k < n ==> #[trigger] w(k) >= 0real,
        forall|k: int| 0 <= k < n ==> least <= #[trigger] f(k) <= most,
    ensures
        least <= m <= most,
{
    let s = summed(w, n);
    let low = |k: int| prod(least, w(k));
    let mid = |k: int| prod(w(k), f(k));
    let high = |k: int| prod(most, w(k));
    assert forall|k: int| 0 <= k < n implies #[trigger] low(k) <= mid(k) by {
        assert(w(k) >= 0real && least <= f(k));
        lemma_product_ordered(least, f(k), w(k));
        lemma_either_way(f(k), w(k));
    }
    assert forall|k: int| 0 <= k < n implies #[trigger] mid(k) <= high(k) by {
        assert(w(k) >= 0real && f(k) <= most);
        lemma_product_ordered(f(k), most, w(k));
        lemma_either_way(f(k), w(k));
    }
    lemma_summed_ordered(low, mid, n);
    lemma_summed_ordered(mid, high, n);
    lemma_summed_scaled(low, w, least, n);
    lemma_summed_scaled(high, w, most, n);
    lemma_summed_same(mid, |k: int| prod(w(k), f(k)), n);
    lemma_cancel_ordered(least, m, s);
    lemma_cancel_ordered(m, most, s);
}

/// A mean lies between bounds of the values.
#[verifier::spinoff_prover]
pub proof fn lemma_mean_between(
    m: real,
    f: spec_fn(int) -> real,
    n: int,
    least: real,
    most: real,
)
    requires
        is_mean(m, f, n),
        n > 0,
        forall|k: int| 0 <= k < n ==> least <= #[trigger] f(k) <= most,
    ensures
        least <= m <= most,
{
    let low = |k: int| least;
    let high = |k: int| most;
    lemma_summed_ordered(low, f, n);
    lemma_summed_ordered(f, high, n);
    lemma_summed_alike(low, least, n);
    lemma_summed_alike(high, most, n);
    lemma_cancel_ordered(least, m, n as real);
    lemma_cancel_ordered(m, most, n as real);
}

/// A sum over its number of entries is their mean.
#[verifier::spinoff_prover]
pub proof fn lemma_mean_value(cu: Curves, xs: Seq<Expr<Dual>>)
    requires
        0 < xs.len() <= usize::MAX,
    ensures
        is_mean(
            value(cu, over(total_of(xs), Expr::Count(xs.len() as usize))),
            |k: int| value(cu, xs[k]),
            xs.len() as int,
        ),
{
    broadcast use group_value;

    lemma_total(cu, xs);
    lemma_quotient_undone(
        summed(|k: int| value(cu, xs[k]), xs.len() as int),
        xs.len() as real,
    );
}

/// The length of a vector is the root of the sum of its squares.
#[verifier::spinoff_prover]
pub proof fn lemma_length_value(cu: Curves, xs: Seq<Expr<Dual>>)
    ensures
        value(cu, norm_of(xs)) == (cu.root)(
            summed(|k: int| prod(value(cu, xs[k]), value(cu, xs[k])), xs.len() as int),
        ),
{
    broadcast use group_value;

    let es = products_of(xs, xs);
    lemma_total(cu, es);
    let f = |k: int| value(cu, es[k]);
    let g = |k: int| prod(value(cu, xs[k]), value(cu, xs[k]));
    assert forall|k: int| 0 <= k < xs.len() implies #[trigger] f(k) == g(k) by {
        assert(es[k] == times(xs[k], xs[k]));
    }
    lemma_summed_same(f, g, xs.len() as int);
}

} // verus!
