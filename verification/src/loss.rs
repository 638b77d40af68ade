//! Losses and their gradients.

use vstd::prelude::*;
use crate::arith::{Arith, Test, Traced, TracedVec, pick_on, total};
#[allow(unused_imports)]
use crate::arith::{
    Expr, Unary, dot_of, fits, fits_all, minus, one, over, pick, plus, products_of, times, test_is,
    total_of, un, vals, zero,
};
use crate::attention::softmax_on;
#[allow(unused_imports)]
use crate::attention::{rows_fit, softmax_of};
use crate::layers::{score, traced};

verus! {

/// The gradients of logits: the shares, less one at the target.
pub open spec fn entropy_grads<T>(logits: Seq<Expr<T>>, target: int) -> Seq<Expr<T>> {
    softmax_of(logits).update(target, minus(softmax_of(logits)[target], one()))
}

/// The gradients of logits, traced.
pub fn entropy_grads_on<T: Copy, A: Arith<T>>(
    ops: &A,
    logits: &TracedVec<T>,
    target: usize,
) -> (out: TracedVec<T>)
    requires
        logits.ok(*ops),
        target < logits.v@.len(),
    ensures
        out.ok(*ops),
        out.e@ == entropy_grads(logits.e@, target as int),
{
    let n: usize = logits.len();
    let mut shares: TracedVec<T> = softmax_on(ops, logits);
    let less: Traced<T> = shares.get(ops, target).minus(ops, Traced::ratio(ops, 1, 1));
    shares.set(ops, target, less);
    shares
}

/// The gradients of the logits of a position.
pub fn cross_entropy_backward<T: Copy, A: Arith<T>>(ops: &A, logits: &[T], target: usize) -> (out:
    Vec<T>)
    requires
        target < logits@.len(),
    ensures
        fits_all(*ops, entropy_grads(vals(logits@), target as int), out@),
{
    entropy_grads_on(ops, &traced(ops, logits), target).v
}

/// The loss of the logits of a position: the negated logarithm of the target's share.
pub open spec fn entropy_of<T>(logits: Seq<Expr<T>>, target: int) -> Expr<T> {
    un(Unary::Negated, un(Unary::Ln, softmax_of(logits)[target]))
}

/// The losses of all positions.
pub open spec fn entropies_of<T>(logits: Seq<Vec<T>>, targets: Seq<usize>) -> Seq<Expr<T>> {
    Seq::new(logits.len(), |p: int| entropy_of(vals(logits[p]@), targets[p] as int))
}

/// The mean loss over the positions.
pub open spec fn mean_entropy<T>(logits: Seq<Vec<T>>, targets: Seq<usize>) -> Expr<T> {
    over(total_of(entropies_of(logits, targets)), Expr::Count(logits.len() as usize))
}

/// The entries over a number.
pub open spec fn shared_of<T>(xs: Seq<Expr<T>>, n: usize) -> Seq<Expr<T>> {
    Seq::new(xs.len(), |i: int| over(xs[i], Expr::Count(n)))
}

/// The entries over a number, traced.
pub fn shared_on<T: Copy, A: Arith<T>>(ops: &A, xs: &TracedVec<T>, n: usize) -> (out: TracedVec<T>)
    requires
        xs.ok(*ops),
    ensures
        out.ok(*ops),
        out.e@ == shared_of(xs.e@, n),
{
    let len: usize = xs.len();
    let ghost es = shared_of(xs.e@, n);
    let mut out: TracedVec<T> = TracedVec::new(ops);
    let mut i: usize = 0;
    assert(out.e@ =~= es.take(0));
    while i < len
        invariant
            xs.ok(*ops),
            len == xs.v@.len(),
            es == shared_of(xs.e@, n),
            i <= len,
            out.ok(*ops),
            out.e@ == es.take(i as int),
        decreases len - i,
    {
        out.push(ops, xs.get(ops, i).over(ops, Traced::count(ops, n)));
        i += 1;
        assert(out.e@ =~= es.take(i as int));
    }
    assert(es.take(len as int) =~= es);
    out
}

/// The mean loss over the positions, and the gradients of the logits: the mean's share of
/// every position.
pub fn cross_entropy<T: Copy, A: Arith<T>>(ops: &A, logits: &Vec<Vec<T>>, targets: &[usize]) -> (res:
    (T, Vec<Vec<T>>))
    requires
        logits@.len() <= targets@.len(),
        forall|p: int|
            0 <= p < logits@.len() ==> (#[trigger] targets@[p]) < logits@[p]@.len(),
    ensures
        fits(*ops, mean_entropy(logits@, targets@), res.0),
        rows_fit(
            *ops,
            Seq::new(
                logits@.len(),
                |p: int|
                    shared_of(
                        entropy_grads(vals(logits@[p]@), targets@[p] as int),
                        logits@.len() as usize,
                    ),
            ),
            res.1@,
        ),
{
    let t: usize = logits.len();
    let n_targets: usize = targets.len();
    let ghost es = entropies_of(logits@, targets@);
    let mut losses: TracedVec<T> = TracedVec::new(ops);
    let mut grads: Vec<Vec<T>> = Vec::new();
    let mut p: usize = 0;
    assert(losses.e@ =~= es.take(0));
    while p < t
        invariant
            t == logits@.len(),
            n_targets == targets@.len(),
            t <= n_targets,
            forall|p: int|
                0 <= p < logits@.len() ==> (#[trigger] targets@[p]) < logits@[p]@.len(),
            es == entropies_of(logits@, targets@),
            p <= t,
            losses.ok(*ops),
            losses.e@ == es.take(p as int),
            grads@.len() == p,
            forall|i: int|
                0 <= i < p ==> fits_all(
                    *ops,
                    shared_of(entropy_grads(vals(logits@[i]@), targets@[i] as int), t),
                    (#[trigger] grads@[i])@,
                ),
        decreases t - p,
    {
        let target: usize = targets[p];
        let row: TracedVec<T> = traced(ops, &logits[p]);
        let shares: TracedVec<T> = softmax_on(ops, &row);
        let loss: Traced<T> = shares.get(ops, target).ln(ops).negated(ops);
        losses.push(ops, loss);
        let d: TracedVec<T> = entropy_grads_on(ops, &row, target);
        let d: TracedVec<T> = shared_on(ops, &d, t);
        grads.push(d.v);
        p += 1;
        assert(losses.e@ =~= es.take(p as int));
    }
    assert(losses.e@ =~= es);
    let mean: Traced<T> = total(ops, &losses).over(ops, Traced::count(ops, t));
    (mean.v, grads)
}

/// The length of a vector.
pub open spec fn norm_of<T>(xs: Seq<Expr<T>>) -> Expr<T> {
    un(Unary::Root, total_of(products_of(xs, xs)))
}

/// The length of a vector, traced.
pub fn norm_on<T: Copy, A: Arith<T>>(ops: &A, xs: &TracedVec<T>) -> (out: Traced<T>)
    requires
        xs.ok(*ops),
    ensures
        out.ok(*ops),
        out.e@ == norm_of(xs.e@),
{
    score(ops, xs, xs).root(ops)
}

/// Nothing like a direction: shorter than a hundred-millionth.
pub open spec fn tiny<T>() -> Expr<T> {
    Expr::Ratio(1, 100000000)
}

/// `x` unless one of the vectors is too short to have a direction; then `dull`.
pub open spec fn unless_short<T>(
    pred: Seq<Expr<T>>,
    target: Seq<Expr<T>>,
    dull: Expr<T>,
    x: Expr<T>,
) -> Expr<T> {
    pick(
        Test::Exceeds,
        tiny(),
        norm_of(pred),
        dull,
        pick(Test::Exceeds, tiny(), norm_of(target), dull, x),
    )
}

/// The product of two vectors' lengths.
pub open spec fn lengths_of<T>(pred: Seq<Expr<T>>, target: Seq<Expr<T>>) -> Expr<T> {
    times(norm_of(pred), norm_of(target))
}

/// One less the cosine between two vectors; one where a vector is too short.
pub open spec fn cosine_of<T>(pred: Seq<Expr<T>>, target: Seq<Expr<T>>) -> Expr<T> {
    unless_short(
        pred,
        target,
        one(),
        minus(one(), over(dot_of(zero(), pred, target), lengths_of(pred, target))),
    )
}

/// The cube of a number.
pub open spec fn cube_of<T>(x: Expr<T>) -> Expr<T> {
    times(times(x, x), x)
}

/// The gradient of component `i`.
pub open spec fn cosine_grad<T>(pred: Seq<Expr<T>>, target: Seq<Expr<T>>, i: int) -> Expr<T> {
    unless_short(
        pred,
        target,
        zero(),
        un(
            Unary::Negated,
            minus(
                over(target[i], lengths_of(pred, target)),
                over(
                    times(pred[i], dot_of(zero(), pred, target)),
                    times(cube_of(norm_of(pred)), norm_of(target)),
                ),
            ),
        ),
    )
}

/// The gradients of all components.
pub open spec fn cosine_grads<T>(pred: Seq<Expr<T>>, target: Seq<Expr<T>>) -> Seq<Expr<T>> {
    Seq::new(pred.len(), |i: int| cosine_grad(pred, target, i))
}

fn unless_short_on<T: Copy, A: Arith<T>>(
    ops: &A,
    np: Traced<T>,
    nt: Traced<T>,
    dull: Traced<T>,
    x: Traced<T>,
) -> (out: Traced<T>)
    requires
        np.ok(*ops),
        nt.ok(*ops),
        dull.ok(*ops),
        x.ok(*ops),
    ensures
        out.ok(*ops),
        out.e@ == pick(
            Test::Exceeds,
            tiny(),
            np.e@,
            dull.e@,
            pick(Test::Exceeds, tiny(), nt.e@, dull.e@, x.e@),
        ),
{
    let eps: Traced<T> = Traced::ratio(ops, 1, 100000000);
    let inner: Traced<T> = pick_on(ops, Test::Exceeds, eps, nt, dull, x);
    pick_on(ops, Test::Exceeds, eps, np, dull, inner)
}

/// The loss between two vectors, traced.
fn cosine_on<T: Copy, A: Arith<T>>(ops: &A, pred: &TracedVec<T>, target: &TracedVec<T>) -> (out:
    Traced<T>)
    requires
        pred.ok(*ops),
        target.ok(*ops),
        pred.v@.len() <= target.v@.len(),
    ensures
        out.ok(*ops),
        out.e@ == cosine_of(pred.e@, target.e@),
{
    let d: Traced<T> = score(ops, pred, target);
    let np: Traced<T> = norm_on(ops, pred);
    let nt: Traced<T> = norm_on(ops, target);
    let unit: Traced<T> = Traced::ratio(ops, 1, 1);
    let loss: Traced<T> = unit.minus(ops, d.over(ops, np.times(ops, nt)));
    unless_short_on(ops, np, nt, unit, loss)
}

/// The gradients of a loss between two vectors, traced.
fn cosine_grads_on<T: Copy, A: Arith<T>>(
    ops: &A,
    pred: &TracedVec<T>,
    target: &TracedVec<T>,
) -> (out: TracedVec<T>)
    requires
        pred.ok(*ops),
        target.ok(*ops),
        pred.v@.len() <= target.v@.len(),
    ensures
        out.ok(*ops),
        out.e@ == cosine_grads(pred.e@, target.e@),
{
    let n: usize = pred.len();
    let d: Traced<T> = score(ops, pred, target);
    let np: Traced<T> = norm_on(ops, pred);
    let nt: Traced<T> = norm_on(ops, target);
    let lengths: Traced<T> = np.times(ops, nt);
    let cube: Traced<T> = np.times(ops, np).times(ops, np).times(ops, nt);
    let nought: Traced<T> = Traced::ratio(ops, 0, 1);
    let ghost es = cosine_grads(pred.e@, target.e@);
    let mut out: TracedVec<T> = TracedVec::new(ops);
    let mut i: usize = 0;
    assert(out.e@ =~= es.take(0));
    while i < n
        invariant
            pred.ok(*ops),
            target.ok(*ops),
            n == pred.v@.len(),
            n <= target.v@.len(),
            d.ok(*ops),
            d.e@ == dot_of(zero(), pred.e@, target.e@),
            np.ok(*ops),
            np.e@ == norm_of(pred.e@),
            nt.ok(*ops),
            nt.e@ == norm_of(target.e@),
            lengths.ok(*ops),
            lengths.e@ == lengths_of(pred.e@, target.e@),
            cube.ok(*ops),
            cube.e@ == times(cube_of(norm_of(pred.e@)), norm_of(target.e@)),
            nought.ok(*ops),
            nought.e@ == zero::<T>(),
            es == cosine_grads(pred.e@, target.e@),
            i <= n,
            out.ok(*ops),
            out.e@ == es.take(i as int),
        decreases n - i,
    {
        let slope: Traced<T> = target.get(ops, i).over(ops, lengths).minus(
            ops,
            pred.get(ops, i).times(ops, d).over(ops, cube),
        ).negated(ops);
        out.push(ops, unless_short_on(ops, np, nt, nought, slope));
        i += 1;
        assert(out.e@ =~= es.take(i as int));
    }
    assert(es.take(n as int) =~= es);
    out
}

/// The loss between two vectors, and its gradients.
pub fn cosine_loss<T: Copy, A: Arith<T>>(ops: &A, pred: &[T], target: &[T]) -> (res: (T, Vec<T>))
    requires
        pred@.len() <= target@.len(),
    ensures
        fits(*ops, cosine_of(vals(pred@), vals(target@)), res.0),
        fits_all(*ops, cosine_grads(vals(pred@), vals(target@)), res.1@),
{
    let p: TracedVec<T> = traced(ops, pred);
    let t: TracedVec<T> = traced(ops, target);
    let loss: Traced<T> = cosine_on(ops, &p, &t);
    let grads: TracedVec<T> = cosine_grads_on(ops, &p, &t);
    (loss.v, grads.v)
}

/// The number of positions that both have.
pub open spec fn common_len<T>(a: Seq<Vec<T>>, b: Seq<Vec<T>>) -> int {
    if a.len() <= b.len() {
        a.len() as int
    } else {
        b.len() as int
    }
}

/// The losses of the positions that both have.
pub open spec fn cosines_of<T>(a: Seq<Vec<T>>, b: Seq<Vec<T>>) -> Seq<Expr<T>> {
    Seq::new(common_len(a, b) as nat, |p: int| cosine_of(vals(a[p]@), vals(b[p]@)))
}

/// The mean loss over the positions that both have, and the gradients there.
pub fn batch_cosine_loss<T: Copy, A: Arith<T>>(
    ops: &A,
    predictions: &Vec<Vec<T>>,
    targets: &Vec<Vec<T>>,
) -> (res: (T, Vec<Vec<T>>))
    requires
        forall|p: int|
            0 <= p < common_len(predictions@, targets@) ==> (#[trigger] predictions@[p])@.len()
                <= targets@[p]@.len(),
    ensures
        fits(
            *ops,
            over(
                total_of(cosines_of(predictions@, targets@)),
                Expr::Count(common_len(predictions@, targets@) as usize),
            ),
            res.0,
        ),
        rows_fit(
            *ops,
            Seq::new(
                common_len(predictions@, targets@) as nat,
                |p: int|
                    shared_of(
                        cosine_grads(vals(predictions@[p]@), vals(targets@[p]@)),
                        common_len(predictions@, targets@) as usize,
                    ),
            ),
            res.1@,
        ),
{
    let na: usize = predictions.len();
    let nb: usize = targets.len();
    let t: usize = if na <= nb {
        na
    } else {
        nb
    };
    let ghost es = cosines_of(predictions@, targets@);
    let mut losses: TracedVec<T> = TracedVec::new(ops);
    let mut grads: Vec<Vec<T>> = Vec::new();
    let mut p: usize = 0;
    assert(losses.e@ =~= es.take(0));
    while p < t
        invariant
            t == common_len(predictions@, targets@),
            t <= predictions@.len(),
            t <= targets@.len(),
            forall|p: int|
                0 <= p < common_len(predictions@, targets@) ==> (
                #[trigger] predictions@[p])@.len() <= targets@[p]@.len(),
            es == cosines_of(predictions@, targets@),
            p <= t,
            losses.ok(*ops),
            losses.e@ == es.take(p as int),
            grads@.len() == p,
            forall|i: int|
                0 <= i < p ==> fits_all(
                    *ops,
                    shared_of(cosine_grads(vals(predictions@[i]@), vals(targets@[i]@)), t),
                    (#[trigger] grads@[i])@,
                ),
        decreases t - p,
    {
        assert(predictions@[p as int]@.len() <= targets@[p as int]@.len());
        let a: TracedVec<T> = traced(ops, &predictions[p]);
        let b: TracedVec<T> = traced(ops, &targets[p]);
        losses.push(ops, cosine_on(ops, &a, &b));
        let g: TracedVec<T> = cosine_grads_on(ops, &a, &b);
        let g: TracedVec<T> = shared_on(ops, &g, t);
        grads.push(g.v);
        p += 1;
        assert(losses.e@ =~= es.take(p as int));
    }
    assert(losses.e@ =~= es);
    let mean: Traced<T> = total(ops, &losses).over(ops, Traced::count(ops, t));
    (mean.v, grads)
}

/// A ten-thousandth: how far the gradient check moves a component.
pub open spec fn nudge<T>() -> Expr<T> {
    Expr::Ratio(1, 10000)
}

/// The slope of the loss between a nudge up and a nudge down of component `i`.
pub open spec fn measured_slope<T>(pred: Seq<Expr<T>>, target: Seq<Expr<T>>, i: int) -> Expr<T> {
    over(
        minus(
            cosine_of(pred.update(i, plus(pred[i], nudge())), target),
            cosine_of(pred.update(i, minus(pred[i], nudge())), target),
        ),
        times(Expr::Ratio(2, 1), nudge()),
    )
}

/// How far a measured slope is from the gradient: relative to it where that is more than a
/// millionth.
pub open spec fn slope_error<T>(measured: Expr<T>, grad: Expr<T>) -> Expr<T> {
    pick(
        Test::Exceeds,
        un(Unary::Abs, grad),
        Expr::Ratio(1, 1000000),
        un(Unary::Abs, over(minus(measured, grad), grad)),
        un(Unary::Abs, minus(measured, grad)),
    )
}

/// The largest error among the first `n` components.
pub open spec fn worst_error<T>(pred: Seq<Expr<T>>, target: Seq<Expr<T>>, n: int) -> Expr<T>
    decreases n,
{
    if n <= 0 {
        zero()
    } else {
        let before = worst_error(pred, target, n - 1);
        let err = slope_error(
            measured_slope(pred, target, n - 1),
            cosine_grad(pred, target, n - 1),
        );
        pick(Test::Exceeds, err, before, err, before)
    }
}

/// The number of components that the gradient check looks at: the first twenty.
pub open spec fn checked_len(n: int) -> int {
    if n <= 20 {
        n
    } else {
        20
    }
}

/// Compares the gradients of the loss with measured slopes. The largest error, and whether
/// it is below a hundredth.
pub fn check_cosine_gradient<T: Copy, A: Arith<T>>(ops: &A, pred: &[T], target: &[T]) -> (res: (
    bool,
    T,
))
    requires
        pred@.len() <= target@.len(),
    ensures
        fits(
            *ops,
            worst_error(vals(pred@), vals(target@), checked_len(pred@.len() as int)),
            res.1,
        ),
        exists|limit: T| #[trigger]
            test_is(*ops, Test::Exceeds, limit, res.1, res.0) && fits(
                *ops,
                Expr::Ratio(1, 100),
                limit,
            ),
{
    let len: usize = pred.len();
    let n: usize = if len <= 20 {
        len
    } else {
        20
    };
    let p: TracedVec<T> = traced(ops, pred);
    let t: TracedVec<T> = traced(ops, target);
    let grads: TracedVec<T> = cosine_grads_on(ops, &p, &t);
    let eps: Traced<T> = Traced::ratio(ops, 1, 10000);
    let mut worst: Traced<T> = Traced::ratio(ops, 0, 1);
    let mut i: usize = 0;
    while i < n
        invariant
            p.ok(*ops),
            t.ok(*ops),
            grads.ok(*ops),
            p.e@ == vals(pred@),
            t.e@ == vals(target@),
            p.v@.len() == pred@.len(),
            p.v@.len() <= t.v@.len(),
            n <= p.v@.len(),
            grads.e@ == cosine_grads(p.e@, t.e@),
            eps.ok(*ops),
            eps.e@ == nudge::<T>(),
            i <= n,
            worst.ok(*ops),
            worst.e@ == worst_error(vals(pred@), vals(target@), i as int),
        decreases n - i,
    {
        let mut up: TracedVec<T> = p.clone_of(ops);
        let mut down: TracedVec<T> = p.clone_of(ops);
        up.set(ops, i, p.get(ops, i).plus(ops, eps));
        down.set(ops, i, p.get(ops, i).minus(ops, eps));
        let measured: Traced<T> = cosine_on(ops, &up, &t).minus(ops, cosine_on(ops, &down, &t)).over(
            ops,
            Traced::ratio(ops, 2, 1).times(ops, eps),
        );
        let g: Traced<T> = grads.get(ops, i);
        let err: Traced<T> = pick_on(
            ops,
            Test::Exceeds,
            g.abs(ops),
            Traced::ratio(ops, 1, 1000000),
            measured.minus(ops, g).over(ops, g).abs(ops),
            measured.minus(ops, g).abs(ops),
        );
        worst = pick_on(ops, Test::Exceeds, err, worst, err, worst);
        i += 1;
    }
    let limit: Traced<T> = Traced::ratio(ops, 1, 100);
    let passed: bool = ops.exceeds(limit.v, worst.v);
    assert(test_is(*ops, Test::Exceeds, limit.v, worst.v, passed));
    assert(fits(*ops, Expr::<T>::Ratio(1, 100), limit.v));
    let res: (bool, T) = (passed, worst.v);
    assert(test_is(*ops, Test::Exceeds, limit.v, res.1, res.0));
    res
}

} // verus!
