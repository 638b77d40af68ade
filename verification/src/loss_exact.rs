//! In exact arithmetic the gradients of the losses are those of their derivatives.

use vstd::prelude::*;
#[allow(unused_imports)]
use crate::arith::{
    Expr, Unary, dot_of, larger, minus, one, over, plus, times, top_of, total_of, un, val, vals,
    zero,
};
#[allow(unused_imports)]
use crate::attention::{raised_of, softmax_of};
#[allow(unused_imports)]
use crate::decoder::logit_grads;
#[allow(unused_imports)]
use crate::exact::{
    Curves, Dual, curve_at, dual_of, inverse, lemma_constants, lemma_minus, lemma_negated,
    lemma_nothing, lemma_over, lemma_plus, lemma_shared, lemma_sign, lemma_three, lemma_times, prod,
    rate, value,
};
#[allow(unused_imports)]
use crate::linear_exact::{
    lemma_dot, lemma_fold, lemma_summed_both, lemma_summed_nothing, lemma_summed_same,
    lemma_summed_scaled, lemma_summed_swapped, summed, summed_table,
};
#[allow(unused_imports)]
use crate::loss::{entropies_of, entropy_grads, entropy_of, mean_entropy, shared_of};
#[allow(unused_imports)]
use crate::phase_loss::{
    Tuning, angle_grads, coherences_of, native_grads, native_loss, pulls_of, share_loss, tuned,
    turned_back, turned_grads, turned_of, width_scale,
};
#[allow(unused_imports)]
use crate::proj::column_vals;

verus! {

/// A curve in a formula.
#[verifier::spinoff_prover]
pub proof fn lemma_curves(cu: Curves, x: Expr<Dual>)
    ensures
        dual_of(cu, un(Unary::Exp, x)) == curve_at(
            (cu.exp)(value(cu, x)),
            (cu.exp)(value(cu, x)),
            dual_of(cu, x),
        ),
        dual_of(cu, un(Unary::Ln, x)) == curve_at(
            (cu.ln)(value(cu, x)),
            inverse(value(cu, x)),
            dual_of(cu, x),
        ),
        dual_of(cu, un(Unary::Root, x)) == curve_at(
            (cu.root)(value(cu, x)),
            inverse(prod(2real, (cu.root)(value(cu, x)))),
            dual_of(cu, x),
        ),
        dual_of(cu, un(Unary::Sin, x)) == curve_at(
            (cu.sin)(value(cu, x)),
            (cu.cos)(value(cu, x)),
            dual_of(cu, x),
        ),
        dual_of(cu, un(Unary::Cos, x)) == curve_at(
            (cu.cos)(value(cu, x)),
            -(cu.sin)(value(cu, x)),
            dual_of(cu, x),
        ),
        dual_of(cu, un(Unary::Tanh, x)) == curve_at(
            (cu.tanh)(value(cu, x)),
            1real - prod((cu.tanh)(value(cu, x)), (cu.tanh)(value(cu, x))),
            dual_of(cu, x),
        ),
{
    reveal(dual_of);
}

/// The larger of two numbers.
#[verifier::spinoff_prover]
pub proof fn lemma_larger(cu: Curves, x: Expr<Dual>, y: Expr<Dual>)
    ensures
        dual_of(cu, larger(x, y)) == (if value(cu, x) >= value(cu, y) {
            dual_of(cu, x)
        } else {
            dual_of(cu, y)
        }),
{
    reveal(dual_of);
}

/// Counts and one stand still.
#[verifier::spinoff_prover]
pub proof fn lemma_numbers(cu: Curves, n: usize)
    ensures
        value(cu, Expr::Count(n)) == n as real,
        rate(cu, Expr::Count(n)) == 0real,
        value(cu, one()) == 1real,
        rate(cu, one()) == 0real,
{
    reveal(dual_of);
    assert(value(cu, one()) == 1u64 as real / 1u64 as real);
}

/// An inverse undoes a product.
#[verifier::spinoff_prover]
pub proof fn lemma_inverse(a: real)
    requires
        a != 0real,
    ensures
        prod(a, inverse(a)) == 1real,
        prod(inverse(a), a) == 1real,
        prod(a, inverse(prod(a, a))) == inverse(a),
        inverse(a) != 0real,
{
    reveal(prod);
    reveal(inverse);
    assert(a * (1real / a) == 1real) by (nonlinear_arith)
        requires
            a != 0real,
    ;
    assert((1real / a) * a == 1real) by (nonlinear_arith)
        requires
            a != 0real,
    ;
    assert(a * (1real / (a * a)) == 1real / a) by (nonlinear_arith)
        requires
            a != 0real,
    ;
    assert(1real / a != 0real) by (nonlinear_arith)
        requires
            a != 0real,
    ;
}

/// One is neutral.
#[verifier::spinoff_prover]
pub proof fn lemma_neutral(a: real)
    ensures
        prod(1real, a) == a,
        prod(a, 1real) == a,
{
    reveal(prod);
    assert(1real * a == a) by (nonlinear_arith);
    assert(a * 1real == a) by (nonlinear_arith);
}

/// What makes one with a number is its inverse.
#[verifier::spinoff_prover]
pub proof fn lemma_unique(a: real, b: real)
    requires
        prod(a, b) == 1real,
    ensures
        inverse(a) == b,
        a != 0real,
{
    lemma_nothing(b);
    lemma_inverse(a);
    lemma_three(inverse(a), a, b);
    lemma_neutral(b);
    lemma_neutral(inverse(a));
}

/// The factors of two products, paired the other way.
#[verifier::spinoff_prover]
pub proof fn lemma_cross(a: real, b: real, c: real, d: real)
    ensures
        prod(prod(a, b), prod(c, d)) == prod(prod(a, c), prod(b, d)),
{
    lemma_three(a, b, prod(c, d));
    lemma_three(b, c, d);
    lemma_three(a, c, prod(b, d));
}

#[verifier::spinoff_prover]
proof fn lemma_regroup(u: real, s: real, e: real, b: real, i: real)
    ensures
        prod(prod(u, s), prod(prod(e, b), prod(i, i))) == prod(
            prod(prod(u, e), prod(s, i)),
            prod(b, i),
        ),
{
    lemma_cross(e, b, i, i);
    lemma_three(prod(u, s), prod(e, i), prod(b, i));
    lemma_cross(u, s, e, i);
}

/// How the logarithm of a share changes: `e` over `s`, where `e` changes by `e * r` and `s` by
/// `sp`.
#[verifier::spinoff_prover]
proof fn lemma_share_rate(e: real, s: real, r: real, sp: real)
    requires
        e != 0real,
        s != 0real,
    ensures
        prod(
            inverse(prod(e, inverse(s))),
            prod(prod(prod(e, r), s) - prod(e, sp), inverse(prod(s, s))),
        ) == r - prod(inverse(s), sp),
{
    let (i, u) = (inverse(s), inverse(e));
    lemma_inverse(s);
    lemma_inverse(e);
    // The inverses.
    assert(prod(prod(s, s), prod(i, i)) == 1real) by {
        lemma_cross(s, s, i, i);
        lemma_neutral(1real);
    }
    lemma_unique(prod(s, s), prod(i, i));
    assert(prod(prod(e, i), prod(u, s)) == 1real) by {
        lemma_cross(e, i, u, s);
        lemma_neutral(1real);
    }
    lemma_unique(prod(e, i), prod(u, s));
    // The change of the share.
    let b = prod(r, s) - sp;
    lemma_three(e, r, s);
    lemma_shared(e, prod(r, s), sp);
    assert(prod(prod(e, r), s) - prod(e, sp) == prod(e, b));
    lemma_regroup(u, s, e, b, i);
    assert(prod(u, e) == 1real && prod(s, i) == 1real);
    lemma_neutral(1real);
    lemma_neutral(prod(b, i));
    lemma_shared(i, prod(r, s), sp);
    lemma_three(r, s, i);
    lemma_neutral(r);
    lemma_sign(sp, i);
}

/// A sum of which one term is left.
#[verifier::spinoff_prover]
proof fn lemma_summed_one(f: spec_fn(int) -> real, g: spec_fn(int) -> real, t: int, n: int)
    requires
        forall|i: int|
            0 <= i < n ==> #[trigger] g(i) == (if i == t {
                f(i)
            } else {
                0real
            }),
    ensures
        summed(g, n) == (if 0 <= t < n {
            f(t)
        } else {
            0real
        }),
    decreases n,
{
    if n > 0 {
        lemma_summed_one(f, g, t, n - 1);
        assert(g(n - 1) == (if n - 1 == t {
            f(n - 1)
        } else {
            0real
        }));
    }
}

#[verifier::spinoff_prover]
pub proof fn lemma_summed_positive(f: spec_fn(int) -> real, n: int)
    requires
        forall|i: int| 0 <= i < n ==> #[trigger] f(i) > 0real,
    ensures
        0 < n ==> summed(f, n) > 0real,
        summed(f, n) >= 0real,
    decreases n,
{
    if n > 0 {
        lemma_summed_positive(f, n - 1);
        assert(f(n - 1) > 0real);
    }
}

/// An exponential is never zero or less.
pub open spec fn exp_positive(cu: Curves) -> bool {
    forall|x: real| #[trigger] (cu.exp)(x) > 0real
}

/// The weight of entry `v` among shares.
pub open spec fn weight_of(cu: Curves, xs: Seq<Expr<Dual>>, v: int) -> real {
    value(cu, raised_of(xs)[v])
}

/// The weights of all entries.
pub open spec fn weights_sum(cu: Curves, xs: Seq<Expr<Dual>>) -> real {
    summed(|v: int| weight_of(cu, xs, v), xs.len() as int)
}

/// How far an entry changes beyond the largest.
pub open spec fn lead_of(cu: Curves, xs: Seq<Expr<Dual>>, v: int) -> real {
    rate(cu, xs[v]) - rate(cu, top_of(xs))
}

#[verifier::spinoff_prover]
pub proof fn lemma_weight(cu: Curves, xs: Seq<Expr<Dual>>, w: int)
    requires
        exp_positive(cu),
        0 <= w < xs.len(),
    ensures
        weight_of(cu, xs, w) > 0real,
        rate(cu, raised_of(xs)[w]) == prod(weight_of(cu, xs, w), lead_of(cu, xs, w)),
{
    let x = minus(xs[w], top_of(xs));
    lemma_curves(cu, x);
    lemma_minus(cu, xs[w], top_of(xs));
    assert(raised_of(xs)[w] == un(Unary::Exp, x));
    assert((cu.exp)(value(cu, x)) > 0real);
}

/// What shares are made of, and how it changes.
#[verifier::spinoff_prover]
pub proof fn lemma_softmax(cu: Curves, xs: Seq<Expr<Dual>>, v: int)
    requires
        exp_positive(cu),
        0 <= v < xs.len(),
    ensures
        weight_of(cu, xs, v) > 0real,
        weights_sum(cu, xs) > 0real,
        value(cu, softmax_of(xs)[v]) == prod(weight_of(cu, xs, v), inverse(weights_sum(cu, xs))),
        rate(cu, softmax_of(xs)[v]) == prod(
            prod(
                prod(weight_of(cu, xs, v), lead_of(cu, xs, v)),
                weights_sum(cu, xs),
            ) - prod(
                weight_of(cu, xs, v),
                summed(
                    |w: int| prod(weight_of(cu, xs, w), lead_of(cu, xs, w)),
                    xs.len() as int,
                ),
            ),
            inverse(prod(weights_sum(cu, xs), weights_sum(cu, xs))),
        ),
{
    let n = xs.len() as int;
    let es = raised_of(xs);
    let f = |w: int| weight_of(cu, xs, w);
    let g = |w: int| prod(weight_of(cu, xs, w), lead_of(cu, xs, w));
    let changes = |w: int| rate(cu, es[w]);
    assert forall|w: int| 0 <= w < n implies #[trigger] f(w) > 0real by {
        lemma_weight(cu, xs, w);
    }
    assert forall|w: int| 0 <= w < n implies #[trigger] changes(w) == g(w) by {
        lemma_weight(cu, xs, w);
    }
    lemma_summed_positive(f, n);
    lemma_fold(cu, zero(), es);
    lemma_constants(cu);
    lemma_summed_same(|k: int| value(cu, es[k]), f, n);
    lemma_summed_same(changes, g, n);
    lemma_weight(cu, xs, v);
    lemma_over(cu, es[v], total_of(es));
}

/// One for the target, none for the others.
pub open spec fn hit(v: int, target: int) -> real {
    if v == target {
        1real
    } else {
        0real
    }
}

/// Shares less one for the target, with what the entries change by, add up as the leads do.
#[verifier::spinoff_prover]
proof fn lemma_leads(cu: Curves, xs: Seq<Expr<Dual>>, target: int)
    requires
        exp_positive(cu),
        0 <= target < xs.len(),
    ensures
        prod(
            inverse(weights_sum(cu, xs)),
            summed(
                |w: int| prod(weight_of(cu, xs, w), lead_of(cu, xs, w)),
                xs.len() as int,
            ),
        ) - lead_of(cu, xs, target) == summed(
            |v: int| prod(value(cu, softmax_of(xs)[v]) - hit(v, target), rate(cu, xs[v])),
            xs.len() as int,
        ),
{
    let n = xs.len() as int;
    let (sum, top) = (weights_sum(cu, xs), rate(cu, top_of(xs)));
    let i = inverse(sum);
    lemma_softmax(cu, xs, target);
    lemma_inverse(sum);
    let weights = |w: int| weight_of(cu, xs, w);
    let raw = |w: int| prod(weight_of(cu, xs, w), lead_of(cu, xs, w));
    let led = |w: int| prod(i, raw(w));
    let shared = |w: int| prod(i, weights(w));
    let topped = |w: int| prod(top, shared(w));
    let hits = |v: int| prod(hit(v, target), rate(cu, xs[v]));
    let changes = |v: int| rate(cu, xs[v]);
    let want = |v: int| prod(value(cu, softmax_of(xs)[v]) - hit(v, target), rate(cu, xs[v]));
    let minus_hits = |v: int| prod(-1real, hits(v));
    let both = |v: int| led(v) + topped(v);
    lemma_summed_scaled(led, raw, i, n);
    lemma_summed_scaled(shared, weights, i, n);
    lemma_summed_scaled(topped, shared, top, n);
    lemma_neutral(top);
    assert(summed(topped, n) == top);
    assert forall|v: int| 0 <= v < n implies #[trigger] hits(v) == (if v == target {
        changes(v)
    } else {
        0real
    }) by {
        lemma_neutral(rate(cu, xs[v]));
        lemma_nothing(rate(cu, xs[v]));
    }
    lemma_summed_one(changes, hits, target, n);
    lemma_summed_scaled(minus_hits, hits, -1real, n);
    lemma_sign(1real, summed(hits, n));
    lemma_neutral(summed(hits, n));
    lemma_summed_both(both, led, topped, n);
    assert forall|v: int| 0 <= v < n implies #[trigger] want(v) == both(v) + minus_hits(v) by {
        lemma_softmax(cu, xs, v);
        let (w, l, x) = (weight_of(cu, xs, v), lead_of(cu, xs, v), rate(cu, xs[v]));
        lemma_shared(x, prod(w, i), hit(v, target));
        lemma_sign(1real, hits(v));
        lemma_neutral(hits(v));
        // The share of the change is that of the lead and of the top.
        lemma_sign(w, i);
        lemma_shared(prod(i, w), l, top);
        lemma_three(i, w, l);
        lemma_sign(prod(i, w), top);
    }
    lemma_summed_both(want, both, minus_hits, n);
}

/// How the negated logarithm of a share changes: every entry counts by its share, less one for
/// the target.
#[verifier::spinoff_prover]
proof fn lemma_entropy(cu: Curves, xs: Seq<Expr<Dual>>, target: int)
    requires
        exp_positive(cu),
        0 <= target < xs.len(),
    ensures
        rate(cu, entropy_of(xs, target)) == summed(
            |v: int| prod(value(cu, softmax_of(xs)[v]) - hit(v, target), rate(cu, xs[v])),
            xs.len() as int,
        ),
{
    let p = softmax_of(xs)[target];
    lemma_curves(cu, p);
    lemma_negated(cu, un(Unary::Ln, p));
    lemma_softmax(cu, xs, target);
    lemma_share_rate(
        weight_of(cu, xs, target),
        weights_sum(cu, xs),
        lead_of(cu, xs, target),
        summed(
            |w: int| prod(weight_of(cu, xs, w), lead_of(cu, xs, w)),
            xs.len() as int,
        ),
    );
    lemma_leads(cu, xs, target);
}

/// Above its floor the loss of a share changes as without one.
#[verifier::spinoff_prover]
proof fn lemma_share_loss(cu: Curves, xs: Seq<Expr<Dual>>, target: int, floor: Expr<Dual>)
    requires
        exp_positive(cu),
        0 <= target < xs.len(),
        value(cu, softmax_of(xs)[target]) > value(cu, floor),
    ensures
        rate(cu, share_loss(xs, target, floor)) == summed(
            |v: int| prod(value(cu, softmax_of(xs)[v]) - hit(v, target), rate(cu, xs[v])),
            xs.len() as int,
        ),
{
    let p = softmax_of(xs)[target];
    let kept = larger(p, floor);
    lemma_larger(cu, p, floor);
    lemma_curves(cu, kept);
    lemma_curves(cu, p);
    lemma_negated(cu, un(Unary::Ln, kept));
    lemma_negated(cu, un(Unary::Ln, p));
    lemma_entropy(cu, xs, target);
}

/// What the gradients of a position's logits are in numbers.
#[verifier::spinoff_prover]
proof fn lemma_entropy_grad(cu: Curves, xs: Seq<Expr<Dual>>, target: int, n: usize, v: int)
    requires
        0 <= target < xs.len(),
        0 <= v < xs.len(),
        n > 0,
    ensures
        value(cu, shared_of(entropy_grads(xs, target), n)[v]) == prod(
            inverse(n as real),
            value(cu, softmax_of(xs)[v]) - hit(v, target),
        ),
{
    let g = entropy_grads(xs, target)[v];
    let p = softmax_of(xs)[v];
    lemma_numbers(cu, n);
    lemma_over_still(cu, g, Expr::Count(n));
    lemma_minus(cu, p, one());
}

/// What the logits of a position add to the change of the mean loss.
pub open spec fn paired_logits(cu: Curves, d: Seq<Expr<Dual>>, logits: Seq<Dual>) -> real {
    summed(|v: int| prod(value(cu, d[v]), rate(cu, val(logits[v]))), logits.len() as int)
}

#[verifier::spinoff_prover]
proof fn lemma_position_loss(cu: Curves, logits: Seq<Dual>, target: int, n: usize)
    requires
        exp_positive(cu),
        0 <= target < logits.len(),
        n > 0,
    ensures
        paired_logits(cu, shared_of(entropy_grads(vals(logits), target), n), logits) == prod(
            inverse(n as real),
            rate(cu, entropy_of(vals(logits), target)),
        ),
{
    let xs = vals(logits);
    let i = inverse(n as real);
    let d = shared_of(entropy_grads(xs, target), n);
    lemma_entropy(cu, xs, target);
    let f = |v: int| prod(value(cu, softmax_of(xs)[v]) - hit(v, target), rate(cu, xs[v]));
    let g = |v: int| prod(value(cu, d[v]), rate(cu, val(logits[v])));
    assert forall|v: int| 0 <= v < xs.len() implies #[trigger] g(v) == prod(i, f(v)) by {
        lemma_entropy_grad(cu, xs, target, n, v);
        lemma_three(i, value(cu, softmax_of(xs)[v]) - hit(v, target), rate(cu, xs[v]));
    }
    lemma_summed_scaled(g, f, i, xs.len() as int);
}

/// The gradients of the logits are the derivative of the mean loss: in exact arithmetic the loss
/// changes along any direction of the logits by as much as the gradients amount to along it.
#[verifier::spinoff_prover]
pub proof fn law_logit_grads_are_the_derivative(
    cu: Curves,
    logits: Seq<Vec<Dual>>,
    targets: Seq<usize>,
)
    requires
        exp_positive(cu),
        0 < logits.len() <= usize::MAX,
        logits.len() <= targets.len(),
        forall|p: int| 0 <= p < logits.len() ==> #[trigger] targets[p] < logits[p]@.len(),
    ensures
        rate(cu, mean_entropy(logits, targets)) == summed(
            |p: int| paired_logits(cu, logit_grads(logits, targets)[p], logits[p]@),
            logits.len() as int,
        ),
{
    let len = logits.len() as int;
    let n = len as usize;
    let es = entropies_of(logits, targets);
    lemma_numbers(cu, n);
    lemma_constants(cu);
    lemma_fold(cu, zero(), es);
    lemma_over_still(cu, total_of(es), Expr::Count(n));
    let f = |p: int| rate(cu, es[p]);
    let g = |p: int| paired_logits(cu, logit_grads(logits, targets)[p], logits[p]@);
    assert forall|p: int| 0 <= p < len implies #[trigger] g(p) == prod(
        inverse(n as real),
        f(p),
    ) by {
        assert(targets[p] < logits[p]@.len());
        lemma_position_loss(cu, logits[p]@, targets[p] as int, n);
    }
    lemma_summed_scaled(g, f, inverse(n as real), len);
}

/// What a tuned score is multiplied by.
pub open spec fn tuning_factor(cu: Curves, t: Tuning<Dual>, n_embd: usize) -> real {
    if t.scaled {
        prod(value(cu, width_scale(n_embd)), inverse(value(cu, t.temperature)))
    } else {
        inverse(value(cu, t.temperature))
    }
}

/// A quotient by a number that stands still.
#[verifier::spinoff_prover]
pub proof fn lemma_over_still(cu: Curves, x: Expr<Dual>, y: Expr<Dual>)
    requires
        rate(cu, y) == 0real,
        value(cu, y) != 0real,
    ensures
        value(cu, over(x, y)) == prod(inverse(value(cu, y)), value(cu, x)),
        rate(cu, over(x, y)) == prod(inverse(value(cu, y)), rate(cu, x)),
{
    let (v, d, t) = (value(cu, x), rate(cu, x), value(cu, y));
    lemma_over(cu, x, y);
    lemma_nothing(v);
    lemma_inverse(t);
    lemma_three(d, t, inverse(prod(t, t)));
    lemma_sign(v, inverse(t));
    lemma_sign(d, inverse(t));
}

#[verifier::spinoff_prover]
proof fn lemma_tuned(cu: Curves, x: Expr<Dual>, t: Tuning<Dual>, n_embd: usize)
    requires
        rate(cu, t.temperature) == 0real,
        value(cu, t.temperature) != 0real,
    ensures
        value(cu, tuned(x, t, n_embd)) == prod(tuning_factor(cu, t, n_embd), value(cu, x)),
        rate(cu, tuned(x, t, n_embd)) == prod(tuning_factor(cu, t, n_embd), rate(cu, x)),
{
    if t.scaled {
        let count: Expr<Dual> = Expr::Count(n_embd);
        let root = un(Unary::Root, count);
        let scale = width_scale::<Dual>(n_embd);
        let y = times(x, scale);
        let i = inverse(value(cu, t.temperature));
        lemma_numbers(cu, n_embd);
        lemma_curves(cu, count);
        lemma_nothing(inverse(prod(2real, (cu.root)(value(cu, count)))));
        lemma_over(cu, one(), root);
        lemma_nothing(value(cu, root));
        lemma_nothing(1real);
        lemma_nothing(inverse(prod(value(cu, root), value(cu, root))));
        assert(rate(cu, scale) == 0real);
        lemma_times(cu, x, scale);
        lemma_nothing(value(cu, x));
        lemma_over_still(cu, y, t.temperature);
        let w = value(cu, scale);
        lemma_sign(w, i);
        lemma_sign(value(cu, x), w);
        lemma_sign(rate(cu, x), w);
        lemma_three(i, w, value(cu, x));
        lemma_three(i, w, rate(cu, x));
    } else {
        lemma_over_still(cu, x, t.temperature);
    }
}

/// Rows that stand still.
pub open spec fn rows_stand(cu: Curves, rows: Seq<Vec<Dual>>) -> bool {
    forall|v: int, j: int|
        0 <= v < rows.len() && 0 <= j < rows[v]@.len() ==> rate(
            cu,
            val(#[trigger] rows[v]@[j]),
        ) == 0real
}

/// The rate of a score against numbers that stand still.
#[verifier::spinoff_prover]
proof fn lemma_score_rate(cu: Curves, x: Seq<Expr<Dual>>, row: Seq<Dual>)
    requires
        x.len() <= row.len(),
        forall|j: int| 0 <= j < row.len() ==> rate(cu, val(#[trigger] row[j])) == 0real,
    ensures
        rate(cu, dot_of(zero(), x, vals(row))) == summed(
            |j: int| prod(rate(cu, x[j]), value(cu, val(row[j]))),
            x.len() as int,
        ),
{
    let n = x.len() as int;
    let b = vals(row);
    lemma_dot(cu, zero(), x, b);
    lemma_constants(cu);
    let f = |j: int| prod(value(cu, x[j]), rate(cu, b[j]));
    assert forall|j: int| 0 <= j < n implies #[trigger] f(j) == 0real by {
        assert(rate(cu, val(row[j])) == 0real);
        lemma_nothing(value(cu, x[j]));
    }
    lemma_summed_nothing(f, n);
    lemma_summed_same(
        |j: int| prod(rate(cu, x[j]), value(cu, b[j])),
        |j: int| prod(rate(cu, x[j]), value(cu, val(row[j]))),
        n,
    );
}

/// What entry `j` of a row adds to the change of a loss, where the row's score is pulled by `q`.
spec fn pulled(cu: Curves, x: Seq<Expr<Dual>>, row: Seq<Dual>, q: real, j: int) -> real {
    prod(prod(q, value(cu, val(row[j]))), rate(cu, x[j]))
}

/// A score's change, weighed.
#[verifier::spinoff_prover]
proof fn lemma_score_pulled(
    cu: Curves,
    x: Seq<Expr<Dual>>,
    row: Seq<Dual>,
    t: Tuning<Dual>,
    n_embd: usize,
    p: real,
)
    requires
        x.len() <= row.len(),
        forall|j: int| 0 <= j < row.len() ==> rate(cu, val(#[trigger] row[j])) == 0real,
        rate(cu, t.temperature) == 0real,
        value(cu, t.temperature) != 0real,
    ensures
        prod(p, rate(cu, tuned(dot_of(zero(), x, vals(row)), t, n_embd))) == summed(
            |j: int| pulled(cu, x, row, prod(tuning_factor(cu, t, n_embd), p), j),
            x.len() as int,
        ),
{
    let n = x.len() as int;
    let k = tuning_factor(cu, t, n_embd);
    let q = prod(k, p);
    let s = dot_of(zero(), x, vals(row));
    lemma_tuned(cu, s, t, n_embd);
    lemma_score_rate(cu, x, row);
    let f = |j: int| prod(rate(cu, x[j]), value(cu, val(row[j])));
    let g = |j: int| pulled(cu, x, row, q, j);
    assert forall|j: int| 0 <= j < n implies #[trigger] g(j) == prod(q, f(j)) by {
        lemma_three(q, value(cu, val(row[j])), rate(cu, x[j]));
        lemma_sign(value(cu, val(row[j])), rate(cu, x[j]));
    }
    lemma_summed_scaled(g, f, q, n);
    lemma_three(p, k, rate(cu, s));
    lemma_sign(p, k);
}

/// The pulls of all rows, gathered entry by entry.
#[verifier::spinoff_prover]
proof fn lemma_gathered(
    cu: Curves,
    x: Seq<Expr<Dual>>,
    rows: Seq<Vec<Dual>>,
    pulls: Seq<Expr<Dual>>,
)
    requires
        pulls.len() == rows.len(),
    ensures
        summed_table(
            |v: int, j: int| pulled(cu, x, rows[v]@, value(cu, pulls[v]), j),
            rows.len() as int,
            x.len() as int,
        ) == summed(
            |j: int|
                prod(
                    value(cu, turned_grads(pulls, rows, x.len() as int)[j]),
                    rate(cu, x[j]),
                ),
            x.len() as int,
        ),
{
    let (m, n) = (rows.len() as int, x.len() as int);
    let f = |v: int, j: int| pulled(cu, x, rows[v]@, value(cu, pulls[v]), j);
    lemma_summed_swapped(f, m, n);
    let by_cols = |j: int| summed(|v: int| f(v, j), m);
    let want = |j: int|
        prod(value(cu, turned_grads(pulls, rows, n)[j]), rate(cu, x[j]));
    lemma_constants(cu);
    assert forall|j: int| 0 <= j < n implies #[trigger] by_cols(j) == want(j) by {
        let col = vals(column_vals(rows, j));
        let c = rate(cu, x[j]);
        let p = |v: int| prod(value(cu, pulls[v]), value(cu, col[v]));
        let q = |v: int| f(v, j);
        lemma_dot(cu, zero(), pulls, col);
        assert forall|v: int| 0 <= v < m implies #[trigger] q(v) == prod(c, p(v)) by {
            lemma_sign(c, p(v));
        }
        lemma_summed_scaled(q, p, c, m);
        lemma_sign(c, summed(p, m));
        assert(turned_grads(pulls, rows, n)[j] == dot_of(zero(), pulls, col));
    }
    lemma_summed_same(by_cols, want, n);
}

/// How the loss of a turned state changes: by its gradients.
#[verifier::spinoff_prover]
proof fn lemma_turned_loss(
    cu: Curves,
    x: Seq<Expr<Dual>>,
    rows: Seq<Vec<Dual>>,
    target: int,
    t: Tuning<Dual>,
    floor: Expr<Dual>,
)
    requires
        exp_positive(cu),
        0 <= target < rows.len(),
        x.len() <= usize::MAX,
        forall|v: int| 0 <= v < rows.len() ==> x.len() <= (#[trigger] rows[v])@.len(),
        rows_stand(cu, rows),
        rate(cu, t.temperature) == 0real,
        value(cu, t.temperature) != 0real,
        value(cu, softmax_of(coherences_of(x, rows, t))[target]) > value(cu, floor),
    ensures
        ({
            let c = coherences_of(x, rows, t);
            let d = turned_grads(
                pulls_of(c, target, t, x.len() as usize),
                rows,
                x.len() as int,
            );
            rate(cu, share_loss(c, target, floor)) == summed(
                |j: int| prod(value(cu, d[j]), rate(cu, x[j])),
                x.len() as int,
            )
        }),
{
    let (m, n) = (rows.len() as int, x.len() as int);
    let n_embd = x.len() as usize;
    let c = coherences_of(x, rows, t);
    let pulls = pulls_of(c, target, t, n_embd);
    lemma_share_loss(cu, c, target, floor);
    lemma_gathered(cu, x, rows, pulls);
    let f = |v: int, j: int| pulled(cu, x, rows[v]@, value(cu, pulls[v]), j);
    let by_rows = |v: int| summed(|j: int| f(v, j), n);
    let got = |v: int| prod(value(cu, softmax_of(c)[v]) - hit(v, target), rate(cu, c[v]));
    assert forall|v: int| 0 <= v < m implies #[trigger] got(v) == by_rows(v) by {
        let share = softmax_of(c)[v];
        let p = value(cu, share) - hit(v, target);
        let row = rows[v]@;
        assert(x.len() <= rows[v]@.len());
        assert forall|j: int| 0 <= j < row.len() implies rate(cu, val(#[trigger] row[j])) == 0real by {
            assert(rate(cu, val(rows[v]@[j])) == 0real);
        }
        lemma_score_pulled(cu, x, row, t, n_embd, p);
        let less: Expr<Dual> = if v == target {
            one()
        } else {
            zero()
        };
        lemma_numbers(cu, n_embd);
        lemma_constants(cu);
        lemma_minus(cu, share, less);
        lemma_tuned(cu, minus(share, less), t, n_embd);
        lemma_summed_same(
            |j: int| pulled(cu, x, row, prod(tuning_factor(cu, t, n_embd), p), j),
            |j: int| f(v, j),
            n,
        );
    }
    lemma_summed_same(got, by_rows, m);
}

/// Three factors, of which the middle one is a difference.
#[verifier::spinoff_prover]
proof fn lemma_spread(d: real, p: real, q: real, u: real, v: real)
    ensures
        prod(d, (p + q) - (u + v)) == prod(d, p) + prod(d, q) - prod(d, u) - prod(d, v),
        prod(d, (p + q) + (u + v)) == prod(d, p) + prod(d, q) + prod(d, u) + prod(d, v),
{
    lemma_shared(d, p + q, u + v);
    lemma_shared(d, p, q);
    lemma_shared(d, u, v);
}

/// A turned band's change, paired with its gradients: what comes back to the band and to its
/// angle.
#[verifier::spinoff_prover]
proof fn lemma_turn_paired(
    c: real,
    s: real,
    d0: real,
    d1: real,
    x: real,
    y: real,
    dx: real,
    dy: real,
    a: real,
)
    ensures
        prod(
            d0,
            (prod(dx, c) + prod(x, prod(-s, a))) - (prod(dy, s) + prod(y, prod(c, a))),
        ) + prod(
            d1,
            (prod(dx, s) + prod(x, prod(c, a))) + (prod(dy, c) + prod(y, prod(-s, a))),
        ) == prod(prod(c, d0) + prod(s, d1), dx) + prod(prod(-s, d0) + prod(c, d1), dy) + prod(
            prod(d0, prod(-x, s) - prod(y, c)) + prod(d1, prod(x, c) - prod(y, s)),
            a,
        ),
{
    lemma_spread(d0, prod(dx, c), prod(x, prod(-s, a)), prod(dy, s), prod(y, prod(c, a)));
    lemma_spread(d1, prod(dx, s), prod(x, prod(c, a)), prod(dy, c), prod(y, prod(-s, a)));
    // What comes back to the band.
    lemma_shared(dx, prod(c, d0), prod(s, d1));
    lemma_shared(dy, prod(-s, d0), prod(c, d1));
    lemma_round(c, d0, dx);
    lemma_round(s, d1, dx);
    lemma_round(s, d0, dy);
    lemma_round(c, d1, dy);
    lemma_sign(s, d0);
    lemma_sign(prod(s, d0), dy);
    // What comes back to the angle.
    lemma_shared(d0, prod(-x, s), prod(y, c));
    lemma_shared(d1, prod(x, c), prod(y, s));
    let (p0, q0) = (prod(d0, prod(-x, s)), prod(d0, prod(y, c)));
    let (p1, q1) = (prod(d1, prod(x, c)), prod(d1, prod(y, s)));
    lemma_shared(a, p0 - q0, p1 - q1);
    lemma_shared(a, p0, q0);
    lemma_shared(a, p1, q1);
    lemma_sign(x, s);
    lemma_sign(d0, prod(x, s));
    lemma_sign(prod(d0, prod(x, s)), a);
    lemma_along(d0, x, s, a);
    lemma_along(d0, y, c, a);
    lemma_along(d1, x, c, a);
    lemma_along(d1, y, s, a);
    lemma_sign(s, a);
    lemma_sign(x, prod(s, a));
    lemma_sign(y, prod(s, a));
    lemma_sign(d0, prod(x, prod(s, a)));
    lemma_sign(d1, prod(y, prod(s, a)));
}

#[verifier::spinoff_prover]
proof fn lemma_round(c: real, d: real, x: real)
    ensures
        prod(prod(c, d), x) == prod(d, prod(x, c)),
{
    lemma_sign(c, d);
    lemma_three(d, c, x);
    lemma_sign(c, x);
}

#[verifier::spinoff_prover]
proof fn lemma_along(d: real, x: real, s: real, a: real)
    ensures
        prod(prod(d, prod(x, s)), a) == prod(d, prod(x, prod(s, a))),
{
    lemma_three(d, prod(x, s), a);
    lemma_three(x, s, a);
}

/// A band of a turned state.
#[verifier::spinoff_prover]
proof fn lemma_turned_band(
    cu: Curves,
    hidden: Seq<Expr<Dual>>,
    angles: Seq<Expr<Dual>>,
    d: Seq<Expr<Dual>>,
    k: int,
)
    requires
        0 <= k < angles.len(),
        2 * angles.len() <= hidden.len(),
        d.len() == 2 * angles.len(),
    ensures
        ({
            let x = turned_of(hidden, angles);
            let back = turned_back(d, angles);
            let g = angle_grads(hidden, d, angles);
            prod(value(cu, d[2 * k]), rate(cu, x[2 * k])) + prod(
                value(cu, d[2 * k + 1]),
                rate(cu, x[2 * k + 1]),
            ) == prod(value(cu, back[2 * k]), rate(cu, hidden[2 * k])) + prod(
                value(cu, back[2 * k + 1]),
                rate(cu, hidden[2 * k + 1]),
            ) + prod(value(cu, g[k]), rate(cu, angles[k]))
        }),
{
    let (e0, e1) = (hidden[2 * k], hidden[2 * k + 1]);
    let (g0, g1) = (d[2 * k], d[2 * k + 1]);
    let co = un(Unary::Cos, angles[k]);
    let si = un(Unary::Sin, angles[k]);
    assert((2 * k) / 2 == k && (2 * k) % 2 == 0);
    assert((2 * k + 1) / 2 == k && (2 * k + 1) % 2 == 1);
    let x = turned_of(hidden, angles);
    let back = turned_back(d, angles);
    let g = angle_grads(hidden, d, angles);
    assert(x[2 * k] == minus(times(e0, co), times(e1, si)));
    assert(x[2 * k + 1] == plus(times(e0, si), times(e1, co)));
    assert(back[2 * k] == plus(times(co, g0), times(si, g1)));
    assert(back[2 * k + 1] == plus(times(un(Unary::Negated, si), g0), times(co, g1)));
    let (u0, u1) = (times(un(Unary::Negated, e0), si), times(e1, co));
    let (w0, w1) = (times(e0, co), times(e1, si));
    assert(g[k] == plus(times(g0, minus(u0, u1)), times(g1, minus(w0, w1))));
    lemma_curves(cu, angles[k]);
    let a = rate(cu, angles[k]);
    let (c, s) = (value(cu, co), value(cu, si));
    assert(rate(cu, co) == prod(-s, a) && rate(cu, si) == prod(c, a));
    // The turned band.
    lemma_times(cu, e0, co);
    lemma_times(cu, e1, si);
    lemma_times(cu, e0, si);
    lemma_times(cu, e1, co);
    lemma_minus(cu, w0, w1);
    lemma_plus(cu, times(e0, si), u1);
    // What comes back.
    lemma_times(cu, co, g0);
    lemma_times(cu, si, g1);
    lemma_negated(cu, si);
    lemma_times(cu, un(Unary::Negated, si), g0);
    lemma_times(cu, co, g1);
    lemma_plus(cu, times(co, g0), times(si, g1));
    lemma_plus(cu, times(un(Unary::Negated, si), g0), times(co, g1));
    lemma_negated(cu, e0);
    lemma_times(cu, un(Unary::Negated, e0), si);
    lemma_minus(cu, u0, u1);
    lemma_times(cu, g0, minus(u0, u1));
    lemma_times(cu, g1, minus(w0, w1));
    lemma_plus(cu, times(g0, minus(u0, u1)), times(g1, minus(w0, w1)));
    lemma_turn_paired(
        c,
        s,
        value(cu, g0),
        value(cu, g1),
        value(cu, e0),
        value(cu, e1),
        rate(cu, e0),
        rate(cu, e1),
        a,
    );
}

/// A sum over pairs.
#[verifier::spinoff_prover]
pub proof fn lemma_summed_pairs(f: spec_fn(int) -> real, g: spec_fn(int) -> real, n: int)
    requires
        0 <= n,
        forall|k: int| 0 <= k < n ==> #[trigger] g(k) == f(2 * k) + f(2 * k + 1),
    ensures
        summed(f, 2 * n) == summed(g, n),
    decreases n,
{
    if n > 0 {
        lemma_summed_pairs(f, g, n - 1);
        assert(g(n - 1) == f(2 * (n - 1)) + f(2 * (n - 1) + 1));
        assert(summed(f, 2 * n) == summed(f, 2 * n - 1) + f(2 * n - 1));
        assert(summed(f, 2 * n - 1) == summed(f, 2 * n - 2) + f(2 * n - 2));
    }
}

/// A turned state's change, paired with its gradients: what comes back to the state and to the
/// angles.
#[verifier::spinoff_prover]
proof fn lemma_turned_state(
    cu: Curves,
    hidden: Seq<Expr<Dual>>,
    angles: Seq<Expr<Dual>>,
    d: Seq<Expr<Dual>>,
)
    requires
        2 * angles.len() <= hidden.len(),
        d.len() == 2 * angles.len(),
    ensures
        summed(
            |j: int| prod(value(cu, d[j]), rate(cu, turned_of(hidden, angles)[j])),
            (2 * angles.len()) as int,
        ) == summed(
            |j: int| prod(value(cu, turned_back(d, angles)[j]), rate(cu, hidden[j])),
            (2 * angles.len()) as int,
        ) + summed(
            |k: int| prod(value(cu, angle_grads(hidden, d, angles)[k]), rate(cu, angles[k])),
            angles.len() as int,
        ),
{
    let n = angles.len() as int;
    let f = |j: int| prod(value(cu, d[j]), rate(cu, turned_of(hidden, angles)[j]));
    let h = |j: int| prod(value(cu, turned_back(d, angles)[j]), rate(cu, hidden[j]));
    let g = |k: int| prod(value(cu, angle_grads(hidden, d, angles)[k]), rate(cu, angles[k]));
    let fs = |k: int| f(2 * k) + f(2 * k + 1);
    let hs = |k: int| h(2 * k) + h(2 * k + 1);
    lemma_summed_pairs(f, fs, n);
    lemma_summed_pairs(h, hs, n);
    assert forall|k: int| 0 <= k < n implies #[trigger] fs(k) == hs(k) + g(k) by {
        lemma_turned_band(cu, hidden, angles, d, k);
    }
    lemma_summed_both(fs, hs, g, n);
}

/// The gradients of the phase-native loss are its derivative: in exact arithmetic, with the
/// embeddings and the temperature held still, the loss changes along any direction by as much as
/// the gradients of the state and of the angles amount to along it. The target's share has to lie
/// above the floor, below which the loss stands still.
#[verifier::spinoff_prover]
pub proof fn law_native_grads_are_the_derivative(
    cu: Curves,
    hidden: Seq<Dual>,
    embeddings: Seq<Vec<Dual>>,
    target: int,
    t: Tuning<Dual>,
    angles: Seq<Dual>,
    floor: Expr<Dual>,
)
    requires
        exp_positive(cu),
        0 <= target < embeddings.len(),
        2 * angles.len() <= hidden.len(),
        2 * angles.len() <= usize::MAX,
        forall|v: int|
            0 <= v < embeddings.len() ==> 2 * angles.len() <= (#[trigger] embeddings[v])@.len(),
        rows_stand(cu, embeddings),
        rate(cu, t.temperature) == 0real,
        value(cu, t.temperature) != 0real,
        value(
            cu,
            softmax_of(
                coherences_of(turned_of(vals(hidden), vals(angles)), embeddings, t),
            )[target],
        ) > value(cu, floor),
    ensures
        ({
            let d = native_grads(hidden, embeddings, target, t, angles);
            let back = turned_back(d, vals(angles));
            let turns = angle_grads(vals(hidden), d, vals(angles));
            rate(cu, native_loss(hidden, embeddings, target, t, angles, floor)) == summed(
                |j: int| prod(value(cu, back[j]), rate(cu, val(hidden[j]))),
                (2 * angles.len()) as int,
            ) + summed(
                |k: int| prod(value(cu, turns[k]), rate(cu, val(angles[k]))),
                angles.len() as int,
            )
        }),
{
    let n = angles.len() as int;
    let (h, a) = (vals(hidden), vals(angles));
    let x = turned_of(h, a);
    let d = native_grads(hidden, embeddings, target, t, angles);
    lemma_turned_loss(cu, x, embeddings, target, t, floor);
    lemma_turned_state(cu, h, a, d);
    lemma_summed_same(
        |j: int| prod(value(cu, turned_back(d, a)[j]), rate(cu, h[j])),
        |j: int| prod(value(cu, turned_back(d, a)[j]), rate(cu, val(hidden[j]))),
        2 * n,
    );
    lemma_summed_same(
        |k: int| prod(value(cu, angle_grads(h, d, a)[k]), rate(cu, a[k])),
        |k: int| prod(value(cu, angle_grads(h, d, a)[k]), rate(cu, val(angles[k]))),
        n,
    );
}

} // verus!
