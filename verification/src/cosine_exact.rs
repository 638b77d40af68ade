//! In exact arithmetic the gradients of the cosine loss are its derivative.

use vstd::prelude::*;
#[allow(unused_imports)]
use crate::arith::{
    Expr, Test, Unary, dot_of, minus, one, over, pick, products_of, times, total_of, un, zero,
};
#[allow(unused_imports)]
use crate::damping_exact::lemma_exceeds;
#[allow(unused_imports)]
use crate::exact::{
    Curves, Dual, dual_of, inverse, lemma_constants, lemma_minus, lemma_negated, lemma_nothing,
    lemma_over, lemma_shared, lemma_sign, lemma_three, lemma_times, prod, rate, value,
};
#[allow(unused_imports)]
use crate::linear_exact::{
    lemma_dot, lemma_fold, lemma_summed_both, lemma_summed_nothing, lemma_summed_scaled, summed,
};
#[allow(unused_imports)]
use crate::loss::{
    cosine_grad, cosine_grads, cosine_of, cube_of, lengths_of, norm_of, tiny, unless_short,
};
#[allow(unused_imports)]
use crate::loss_exact::{
    lemma_cross, lemma_curves, lemma_inverse, lemma_neutral, lemma_numbers, lemma_unique,
};

verus! {

/// How the entries of a vector change along themselves.
pub open spec fn along_itself(cu: Curves, xs: Seq<Expr<Dual>>) -> real {
    summed(|k: int| prod(value(cu, xs[k]), rate(cu, xs[k])), xs.len() as int)
}

#[verifier::spinoff_prover]
pub proof fn lemma_halved(n: real, w: real)
    requires
        n != 0real,
    ensures
        prod(inverse(prod(2real, n)), w + w) == prod(inverse(n), w),
{
    let i = inverse(n);
    let h = 1real / 2real;
    lemma_inverse(n);
    lemma_cross(2real, n, h, i);
    assert(prod(2real, h) == 1real) by {
        reveal(prod);
    }
    lemma_neutral(1real);
    lemma_unique(prod(2real, n), prod(h, i));
    lemma_three(h, i, w + w);
    lemma_shared(i, w, w);
    let v = prod(i, w);
    assert(prod(h, v + v) == v) by {
        reveal(prod);
        assert(h * (v + v) == v) by (nonlinear_arith)
            requires
                h == 1real / 2real,
        ;
    }
}

/// How a length changes.
#[verifier::spinoff_prover]
proof fn lemma_norm(cu: Curves, xs: Seq<Expr<Dual>>)
    requires
        value(cu, norm_of(xs)) != 0real,
    ensures
        rate(cu, norm_of(xs)) == prod(inverse(value(cu, norm_of(xs))), along_itself(cu, xs)),
{
    let n = xs.len() as int;
    let squares = products_of(xs, xs);
    let sum = total_of(squares);
    lemma_constants(cu);
    lemma_fold(cu, zero(), squares);
    let f = |k: int| rate(cu, squares[k]);
    let g = |k: int| prod(value(cu, xs[k]), rate(cu, xs[k]));
    assert forall|k: int| 0 <= k < n implies #[trigger] f(k) == g(k) + g(k) by {
        lemma_times(cu, xs[k], xs[k]);
        lemma_sign(value(cu, xs[k]), rate(cu, xs[k]));
        assert(squares[k] == times(xs[k], xs[k]));
    }
    lemma_summed_both(f, g, g, n);
    lemma_curves(cu, sum);
    lemma_halved(value(cu, norm_of(xs)), along_itself(cu, xs));
}

/// A vector whose entries stand still.
pub open spec fn stands(cu: Curves, xs: Seq<Expr<Dual>>) -> bool {
    forall|k: int| 0 <= k < xs.len() ==> rate(cu, #[trigger] xs[k]) == 0real
}

/// The length of a vector that stands still.
#[verifier::spinoff_prover]
proof fn lemma_still_norm(cu: Curves, xs: Seq<Expr<Dual>>)
    requires
        stands(cu, xs),
        value(cu, norm_of(xs)) != 0real,
    ensures
        rate(cu, norm_of(xs)) == 0real,
{
    let g = |k: int| prod(value(cu, xs[k]), rate(cu, xs[k]));
    assert forall|k: int| 0 <= k < xs.len() implies #[trigger] g(k) == 0real by {
        assert(rate(cu, xs[k]) == 0real);
        lemma_nothing(value(cu, xs[k]));
    }
    lemma_summed_nothing(g, xs.len() as int);
    lemma_norm(cu, xs);
    lemma_nothing(inverse(value(cu, norm_of(xs))));
}

/// The inverses of products of lengths.
#[verifier::spinoff_prover]
proof fn lemma_inverses(p: real, t: real)
    requires
        p != 0real,
        t != 0real,
    ensures
        inverse(prod(p, t)) == prod(inverse(p), inverse(t)),
        inverse(prod(prod(p, t), prod(p, t))) == prod(
            prod(inverse(p), inverse(t)),
            prod(inverse(p), inverse(t)),
        ),
        inverse(prod(prod(prod(p, p), p), t)) == prod(
            prod(prod(inverse(p), inverse(p)), inverse(p)),
            inverse(t),
        ),
        prod(prod(p, t), prod(inverse(p), inverse(t))) == 1real,
{
    let (i, j) = (inverse(p), inverse(t));
    lemma_inverse(p);
    lemma_inverse(t);
    lemma_neutral(1real);
    lemma_cross(p, t, i, j);
    lemma_unique(prod(p, t), prod(i, j));
    lemma_cross(prod(p, t), prod(p, t), prod(i, j), prod(i, j));
    lemma_unique(prod(prod(p, t), prod(p, t)), prod(prod(i, j), prod(i, j)));
    lemma_cross(p, p, i, i);
    lemma_cross(prod(p, p), p, prod(i, i), i);
    lemma_cross(prod(prod(p, p), p), t, prod(prod(i, i), i), j);
    lemma_unique(prod(prod(prod(p, p), p), t), prod(prod(prod(i, i), i), j));
}

/// How a quotient by two lengths changes, of which the first changes by `w` over itself.
#[verifier::spinoff_prover]
proof fn lemma_quotient(d: real, dd: real, p: real, t: real, w: real)
    requires
        p != 0real,
        t != 0real,
    ensures
        prod(
            prod(dd, prod(p, t)) - prod(d, prod(prod(inverse(p), w), t)),
            inverse(prod(prod(p, t), prod(p, t))),
        ) == prod(dd, inverse(prod(p, t))) - prod(
            prod(d, w),
            inverse(prod(prod(prod(p, p), p), t)),
        ),
{
    let (i, j) = (inverse(p), inverse(t));
    let (l, m) = (prod(p, t), prod(i, j));
    lemma_inverses(p, t);
    lemma_inverse(t);
    lemma_neutral(m);
    let q = prod(prod(i, w), t);
    lemma_shared(prod(m, m), prod(dd, l), prod(d, q));
    // The first part.
    lemma_three(dd, l, prod(m, m));
    lemma_three(l, m, m);
    assert(prod(l, prod(m, m)) == m);
    // The second part.
    lemma_three(d, q, prod(m, m));
    lemma_three(prod(i, w), t, prod(m, m));
    lemma_three(t, m, m);
    lemma_sign(i, j);
    lemma_three(t, j, i);
    lemma_neutral(i);
    assert(prod(t, m) == i);
    assert(prod(q, prod(m, m)) == prod(prod(i, w), prod(i, m)));
    lemma_three(i, w, prod(i, m));
    lemma_three(w, i, prod(i, m));
    lemma_three(i, i, m);
    lemma_three(prod(i, i), i, j);
    lemma_three(i, i, prod(i, m));
    lemma_sign(w, prod(i, prod(i, m)));
    assert(prod(q, prod(m, m)) == prod(w, prod(i, prod(i, m))));
    assert(prod(i, prod(i, m)) == prod(prod(prod(i, i), i), j));
    lemma_three(d, w, prod(prod(prod(i, i), i), j));
}

/// Vectors that are long enough to have a direction.
pub open spec fn long_enough(cu: Curves, xs: Seq<Expr<Dual>>) -> bool {
    value(cu, norm_of(xs)) >= value(cu, tiny())
}

#[verifier::spinoff_prover]
proof fn lemma_tiny(cu: Curves)
    ensures
        value(cu, tiny()) > 0real,
{
    reveal(dual_of);
    assert(value(cu, tiny()) == 1u64 as real / 100000000u64 as real);
}

/// A choice that length decides.
#[verifier::spinoff_prover]
proof fn lemma_unless_short(
    cu: Curves,
    pred: Seq<Expr<Dual>>,
    target: Seq<Expr<Dual>>,
    dull: Expr<Dual>,
    x: Expr<Dual>,
)
    requires
        long_enough(cu, pred),
        long_enough(cu, target),
    ensures
        dual_of(cu, unless_short(pred, target, dull, x)) == dual_of(cu, x),
{
    lemma_exceeds(
        cu,
        tiny(),
        norm_of(pred),
        dull,
        pick(Test::Exceeds, tiny(), norm_of(target), dull, x),
    );
    lemma_exceeds(cu, tiny(), norm_of(target), dull, x);
}

/// A component's gradient, in numbers.
#[verifier::spinoff_prover]
proof fn lemma_cosine_grad(
    cu: Curves,
    pred: Seq<Expr<Dual>>,
    target: Seq<Expr<Dual>>,
    k: int,
)
    requires
        long_enough(cu, pred),
        long_enough(cu, target),
        0 <= k < pred.len(),
    ensures
        ({
            let (p, t) = (value(cu, norm_of(pred)), value(cu, norm_of(target)));
            let d = value(cu, dot_of(zero(), pred, target));
            let i = inverse(prod(p, t));
            let c = inverse(prod(prod(prod(p, p), p), t));
            prod(value(cu, cosine_grad(pred, target, k)), rate(cu, pred[k])) == prod(
                -i,
                prod(rate(cu, pred[k]), value(cu, target[k])),
            ) + prod(prod(d, c), prod(value(cu, pred[k]), rate(cu, pred[k])))
        }),
{
    let (a, b) = (norm_of(pred), norm_of(target));
    let (p, t) = (value(cu, a), value(cu, b));
    let dot = dot_of(zero(), pred, target);
    let d = value(cu, dot);
    let i = inverse(prod(p, t));
    let c = inverse(prod(prod(prod(p, p), p), t));
    let (x, y, r) = (value(cu, pred[k]), value(cu, target[k]), rate(cu, pred[k]));
    let first = over(target[k], lengths_of(pred, target));
    let second = over(times(pred[k], dot), times(cube_of(a), b));
    lemma_unless_short(
        cu,
        pred,
        target,
        zero(),
        un(Unary::Negated, minus(first, second)),
    );
    lemma_times(cu, a, b);
    lemma_over(cu, target[k], lengths_of(pred, target));
    lemma_times(cu, a, a);
    lemma_times(cu, times(a, a), a);
    lemma_times(cu, cube_of(a), b);
    lemma_times(cu, pred[k], dot);
    lemma_over(cu, times(pred[k], dot), times(cube_of(a), b));
    lemma_minus(cu, first, second);
    lemma_negated(cu, minus(first, second));
    assert(value(cu, first) == prod(y, i));
    assert(value(cu, second) == prod(prod(x, d), c));
    lemma_shared(r, prod(prod(x, d), c), prod(y, i));
    // The first part.
    lemma_sign(y, i);
    lemma_three(i, y, r);
    lemma_sign(y, r);
    lemma_sign(i, prod(r, y));
    // The second part.
    lemma_three(x, d, c);
    lemma_three(x, prod(d, c), r);
    lemma_three(prod(d, c), x, r);
}

/// The gradients of the cosine loss are its derivative: in exact arithmetic, with the target held
/// still and both vectors long enough to have a direction, the loss changes along any direction of
/// the prediction by as much as the gradients amount to along it.
#[verifier::spinoff_prover]
pub proof fn law_cosine_grads_are_the_derivative(
    cu: Curves,
    pred: Seq<Expr<Dual>>,
    target: Seq<Expr<Dual>>,
)
    requires
        pred.len() == target.len(),
        stands(cu, target),
        long_enough(cu, pred),
        long_enough(cu, target),
    ensures
        rate(cu, cosine_of(pred, target)) == summed(
            |k: int| prod(value(cu, cosine_grads(pred, target)[k]), rate(cu, pred[k])),
            pred.len() as int,
        ),
{
    let n = pred.len() as int;
    let (a, b) = (norm_of(pred), norm_of(target));
    let (p, t) = (value(cu, a), value(cu, b));
    let dot = dot_of(zero(), pred, target);
    let d = value(cu, dot);
    let w = along_itself(cu, pred);
    lemma_tiny(cu);
    lemma_constants(cu);
    // How the scalar product changes.
    lemma_dot(cu, zero(), pred, target);
    let still = |k: int| prod(value(cu, pred[k]), rate(cu, target[k]));
    assert forall|k: int| 0 <= k < n implies #[trigger] still(k) == 0real by {
        assert(rate(cu, target[k]) == 0real);
        lemma_nothing(value(cu, pred[k]));
    }
    lemma_summed_nothing(still, n);
    let moved = |k: int| prod(rate(cu, pred[k]), value(cu, target[k]));
    let dd = summed(moved, n);
    assert(rate(cu, dot) == dd);
    // How the loss changes.
    lemma_norm(cu, pred);
    lemma_still_norm(cu, target);
    let lengths = lengths_of(pred, target);
    lemma_times(cu, a, b);
    lemma_nothing(p);
    lemma_over(cu, dot, lengths);
    lemma_quotient(d, dd, p, t, w);
    lemma_numbers(cu, 0);
    lemma_minus(cu, one(), over(dot, lengths));
    lemma_unless_short(cu, pred, target, one(), minus(one(), over(dot, lengths)));
    let i = inverse(prod(p, t));
    let c = inverse(prod(prod(prod(p, p), p), t));
    lemma_three(d, w, c);
    lemma_three(d, c, w);
    lemma_sign(i, dd);
    assert(rate(cu, cosine_of(pred, target)) == prod(-i, dd) + prod(prod(d, c), w));
    // What the gradients amount to.
    let own = |k: int| prod(value(cu, pred[k]), rate(cu, pred[k]));
    let whole = |k: int| prod(value(cu, cosine_grads(pred, target)[k]), rate(cu, pred[k]));
    let first = |k: int| prod(-i, moved(k));
    let second = |k: int| prod(prod(d, c), own(k));
    assert forall|k: int| 0 <= k < n implies #[trigger] whole(k) == first(k) + second(k) by {
        lemma_cosine_grad(cu, pred, target, k);
    }
    lemma_summed_both(whole, first, second, n);
    lemma_summed_scaled(first, moved, -i, n);
    lemma_summed_scaled(second, own, prod(d, c), n);
}

} // verus!
