//! The layers of the model, each with the formula of every component of its output.

use vstd::prelude::*;
use crate::arith::{Arith, Traced, TracedVec, dot, total};
#[allow(unused_imports)]
use crate::arith::{
    Expr, Test, Unary, dot_of, fits, fits_all, minus, one, over, pick, plus, test_is, times,
    total_of, un, val, vals, zero,
};
use crate::seqs::extend_from;
#[allow(unused_imports)]
use crate::seqs::rows_width;
use crate::weights::MaestroWeights;

verus! {

/// A copy of a vector, each entry its own formula.
pub fn traced<T: Copy, A: Arith<T>>(ops: &A, x: &[T]) -> (out: TracedVec<T>)
    ensures
        out.ok(*ops),
        out.v@ == x@,
        out.e@ == vals(x@),
{
    let mut v: Vec<T> = Vec::new();
    extend_from(&mut v, x);
    assert(v@ =~= x@);
    TracedVec::of(ops, v)
}

/// `x / 2 * (1 + tanh(sqrt(2 / pi) * (x + 0.044715 * x * x * x)))`
pub open spec fn gelu_of<T>(x: Expr<T>) -> Expr<T> {
    times(
        times(Expr::Ratio(1, 2), x),
        plus(
            one(),
            un(
                Unary::Tanh,
                times(
                    un(Unary::Root, over(Expr::Ratio(2, 1), Expr::Pi)),
                    plus(x, times(times(times(Expr::Ratio(44715, 1000000), x), x), x)),
                ),
            ),
        ),
    )
}

fn gelu_on<T: Copy, A: Arith<T>>(ops: &A, x: Traced<T>) -> (out: Traced<T>)
    requires
        x.ok(*ops),
    ensures
        out.ok(*ops),
        out.e@ == gelu_of(x.e@),
{
    let cubic: Traced<T> = Traced::ratio(ops, 44715, 1000000).times(ops, x).times(ops, x).times(
        ops,
        x,
    );
    let slope: Traced<T> = Traced::ratio(ops, 2, 1).over(ops, Traced::pi(ops)).root(ops);
    let bend: Traced<T> = slope.times(ops, x.plus(ops, cubic)).tanh(ops);
    let gate: Traced<T> = Traced::ratio(ops, 1, 1).plus(ops, bend);
    Traced::ratio(ops, 1, 2).times(ops, x).times(ops, gate)
}

/// The activation of a regulator.
pub fn gelu<T: Copy, A: Arith<T>>(ops: &A, x: T) -> (out: T)
    ensures
        fits(*ops, gelu_of(val(x)), out),
{
    gelu_on(ops, Traced::of(ops, x)).v
}

/// `ln(1 + exp(x))`, or `x` itself where that is above 20.
pub open spec fn softplus_of<T>(x: Expr<T>) -> Expr<T> {
    pick(
        Test::Exceeds,
        x,
        Expr::Ratio(20, 1),
        x,
        un(Unary::Ln, plus(one(), un(Unary::Exp, x))),
    )
}

/// Damping out of its raw value, traced.
pub fn softplus_on<T: Copy, A: Arith<T>>(ops: &A, x: Traced<T>) -> (out: Traced<T>)
    requires
        x.ok(*ops),
    ensures
        out.ok(*ops),
        out.e@ == softplus_of(x.e@),
{
    let limit: Traced<T> = Traced::ratio(ops, 20, 1);
    let large: bool = ops.exceeds(x.v, limit.v);
    assert(test_is(*ops, Test::Exceeds, x.v, limit.v, large));
    if large {
        return Traced { v: x.v, e: Ghost(softplus_of(x.e@)) };
    }
    let y: Traced<T> = Traced::ratio(ops, 1, 1).plus(ops, x.exp(ops)).ln(ops);
    Traced { v: y.v, e: Ghost(softplus_of(x.e@)) }
}

/// Damping out of its raw value.
pub fn softplus<T: Copy, A: Arith<T>>(ops: &A, x: T) -> (out: T)
    ensures
        fits(*ops, softplus_of(val(x)), out),
{
    softplus_on(ops, Traced::of(ops, x)).v
}

/// The slope of the softplus: `1 / (1 + exp(-x))`, or 1 where `x` is above 20.
pub open spec fn softplus_slope_of<T>(x: Expr<T>) -> Expr<T> {
    pick(
        Test::Exceeds,
        x,
        Expr::Ratio(20, 1),
        one(),
        over(one(), plus(one(), un(Unary::Exp, un(Unary::Negated, x)))),
    )
}

/// The slope of the softplus, traced.
pub fn softplus_slope_on<T: Copy, A: Arith<T>>(ops: &A, x: Traced<T>) -> (out: Traced<T>)
    requires
        x.ok(*ops),
    ensures
        out.ok(*ops),
        out.e@ == softplus_slope_of(x.e@),
{
    let limit: Traced<T> = Traced::ratio(ops, 20, 1);
    let large: bool = ops.exceeds(x.v, limit.v);
    assert(test_is(*ops, Test::Exceeds, x.v, limit.v, large));
    let unit: Traced<T> = Traced::ratio(ops, 1, 1);
    if large {
        return Traced { v: unit.v, e: Ghost(softplus_slope_of(x.e@)) };
    }
    let y: Traced<T> = unit.over(ops, unit.plus(ops, x.negated(ops).exp(ops)));
    Traced { v: y.v, e: Ghost(softplus_slope_of(x.e@)) }
}

/// The slope of the softplus.
pub fn softplus_derivative<T: Copy, A: Arith<T>>(ops: &A, x: T) -> (out: T)
    ensures
        fits(*ops, softplus_slope_of(val(x)), out),
{
    softplus_slope_on(ops, Traced::of(ops, x)).v
}

/// The products of two vectors, added to zero.
pub fn score<T: Copy, A: Arith<T>>(ops: &A, a: &TracedVec<T>, b: &TracedVec<T>) -> (out: Traced<T>)
    requires
        a.ok(*ops),
        b.ok(*ops),
        a.v@.len() <= b.v@.len(),
    ensures
        out.ok(*ops),
        out.e@ == dot_of(zero(), a.e@, b.e@),
{
    dot(ops, Traced::ratio(ops, 0, 1), a, b)
}

/// The components of a linear layer's output: the products of a row with the input, added
/// to zero, then to the bias.
pub open spec fn linear_of<T>(w: Seq<Vec<T>>, b: Seq<T>, x: Seq<Expr<T>>) -> Seq<Expr<T>> {
    Seq::new(w.len(), |i: int| plus(val(b[i]), dot_of(zero(), vals(w[i]@), x)))
}

/// A linear layer, traced.
pub fn linear_on<T: Copy, A: Arith<T>>(
    ops: &A,
    w: &Vec<Vec<T>>,
    b: &[T],
    x: &TracedVec<T>,
) -> (out: TracedVec<T>)
    requires
        w@.len() <= b@.len(),
        rows_width(w@, x.v@.len() as int),
        x.ok(*ops),
    ensures
        out.ok(*ops),
        out.e@ == linear_of(w@, b@, x.e@),
{
    let n: usize = w.len();
    let m: usize = b.len();
    let mut out: TracedVec<T> = TracedVec::new(ops);
    let mut i: usize = 0;
    assert(out.e@ =~= linear_of(w@, b@, x.e@).take(0));
    while i < n
        invariant
            n == w@.len(),
            m == b@.len(),
            n <= m,
            rows_width(w@, x.v@.len() as int),
            x.ok(*ops),
            i <= n,
            out.ok(*ops),
            out.e@ == linear_of(w@, b@, x.e@).take(i as int),
        decreases n - i,
    {
        assert(w@[i as int]@.len() == x.v@.len());
        let row: TracedVec<T> = traced(ops, &w[i]);
        let y: Traced<T> = Traced::of(ops, b[i]).plus(ops, score(ops, &row, x));
        out.push(ops, y);
        i += 1;
        assert(out.e@ =~= linear_of(w@, b@, x.e@).take(i as int));
    }
    assert(linear_of(w@, b@, x.e@).take(n as int) =~= linear_of(w@, b@, x.e@));
    out
}

/// A linear layer.
pub fn linear_fn<T: Copy, A: Arith<T>>(ops: &A, w: &Vec<Vec<T>>, b: &[T], x: &[T]) -> (out: Vec<T>)
    requires
        w@.len() <= b@.len(),
        rows_width(w@, x@.len() as int),
    ensures
        fits_all(*ops, linear_of(w@, b@, vals(x@)), out@),
{
    linear_on(ops, w, b, &traced(ops, x)).v
}

/// The components of a linear layer without bias.
pub open spec fn scores_of<T>(w: Seq<Vec<T>>, x: Seq<Expr<T>>) -> Seq<Expr<T>> {
    Seq::new(w.len(), |i: int| dot_of(zero(), vals(w[i]@), x))
}

/// A linear layer without bias, traced.
pub fn scores_on<T: Copy, A: Arith<T>>(ops: &A, w: &Vec<Vec<T>>, x: &TracedVec<T>) -> (out:
    TracedVec<T>)
    requires
        rows_width(w@, x.v@.len() as int),
        x.ok(*ops),
    ensures
        out.ok(*ops),
        out.e@ == scores_of(w@, x.e@),
{
    let n: usize = w.len();
    let mut out: TracedVec<T> = TracedVec::new(ops);
    let mut i: usize = 0;
    assert(out.e@ =~= scores_of(w@, x.e@).take(0));
    while i < n
        invariant
            n == w@.len(),
            rows_width(w@, x.v@.len() as int),
            x.ok(*ops),
            i <= n,
            out.ok(*ops),
            out.e@ == scores_of(w@, x.e@).take(i as int),
        decreases n - i,
    {
        assert(w@[i as int]@.len() == x.v@.len());
        let row: TracedVec<T> = traced(ops, &w[i]);
        out.push(ops, score(ops, &row, x));
        i += 1;
        assert(out.e@ =~= scores_of(w@, x.e@).take(i as int));
    }
    assert(scores_of(w@, x.e@).take(n as int) =~= scores_of(w@, x.e@));
    out
}

/// The sums of the entries at the same place.
pub open spec fn sums_of<T>(a: Seq<Expr<T>>, b: Seq<Expr<T>>) -> Seq<Expr<T>> {
    Seq::new(a.len(), |i: int| plus(a[i], b[i]))
}

/// Adds two vectors, traced.
pub fn sums_on<T: Copy, A: Arith<T>>(ops: &A, a: &TracedVec<T>, b: &TracedVec<T>) -> (out:
    TracedVec<T>)
    requires
        a.ok(*ops),
        b.ok(*ops),
        a.v@.len() <= b.v@.len(),
    ensures
        out.ok(*ops),
        out.e@ == sums_of(a.e@, b.e@),
{
    let n: usize = a.len();
    let m: usize = b.len();
    let mut out: TracedVec<T> = TracedVec::new(ops);
    let mut i: usize = 0;
    assert(out.e@ =~= sums_of(a.e@, b.e@).take(0));
    while i < n
        invariant
            a.ok(*ops),
            b.ok(*ops),
            n == a.v@.len(),
            m == b.v@.len(),
            n <= m,
            i <= n,
            out.ok(*ops),
            out.e@ == sums_of(a.e@, b.e@).take(i as int),
        decreases n - i,
    {
        out.push(ops, a.get(ops, i).plus(ops, b.get(ops, i)));
        i += 1;
        assert(out.e@ =~= sums_of(a.e@, b.e@).take(i as int));
    }
    assert(sums_of(a.e@, b.e@).take(n as int) =~= sums_of(a.e@, b.e@));
    out
}

/// The mean of the entries.
pub open spec fn mean_of<T>(xs: Seq<Expr<T>>) -> Expr<T> {
    over(total_of(xs), Expr::Count(xs.len() as usize))
}

/// The mean of the entries, traced.
pub fn mean_on<T: Copy, A: Arith<T>>(ops: &A, xs: &TracedVec<T>) -> (out: Traced<T>)
    requires
        xs.ok(*ops),
    ensures
        out.ok(*ops),
        out.e@ == mean_of(xs.e@),
{
    let n: usize = xs.len();
    total(ops, xs).over(ops, Traced::count(ops, n))
}

/// The squared distances from the mean.
pub open spec fn deviations_of<T>(xs: Seq<Expr<T>>) -> Seq<Expr<T>> {
    Seq::new(
        xs.len(),
        |i: int| times(minus(xs[i], mean_of(xs)), minus(xs[i], mean_of(xs))),
    )
}

/// The root of the mean squared distance from the mean, a hundred-thousandth added.
pub open spec fn spread_of<T>(xs: Seq<Expr<T>>) -> Expr<T> {
    un(Unary::Root, plus(mean_of(deviations_of(xs)), Expr::Ratio(1, 100000)))
}

/// The components less their mean, over their spread, times weight, plus bias.
pub open spec fn norm_of<T>(xs: Seq<Expr<T>>, weight: Seq<T>, bias: Seq<T>) -> Seq<Expr<T>> {
    Seq::new(
        xs.len(),
        |i: int|
            plus(
                times(over(minus(xs[i], mean_of(xs)), spread_of(xs)), val(weight[i])),
                val(bias[i]),
            ),
    )
}

/// Normalises a vector, traced.
pub fn norm_on<T: Copy, A: Arith<T>>(
    ops: &A,
    x: &TracedVec<T>,
    weight: &[T],
    bias: &[T],
) -> (out: TracedVec<T>)
    requires
        x.ok(*ops),
        x.v@.len() <= weight@.len(),
        x.v@.len() <= bias@.len(),
    ensures
        out.ok(*ops),
        out.e@ == norm_of(x.e@, weight@, bias@),
{
    let n: usize = x.len();
    let nw: usize = weight.len();
    let nb: usize = bias.len();
    let m: Traced<T> = mean_on(ops, x);
    let mut dev: TracedVec<T> = TracedVec::new(ops);
    let mut i: usize = 0;
    assert(dev.e@ =~= deviations_of(x.e@).take(0));
    while i < n
        invariant
            x.ok(*ops),
            n == x.v@.len(),
            i <= n,
            m.ok(*ops),
            m.e@ == mean_of(x.e@),
            dev.ok(*ops),
            dev.e@ == deviations_of(x.e@).take(i as int),
        decreases n - i,
    {
        let d: Traced<T> = x.get(ops, i).minus(ops, m);
        dev.push(ops, d.times(ops, d));
        i += 1;
        assert(dev.e@ =~= deviations_of(x.e@).take(i as int));
    }
    assert(dev.e@ =~= deviations_of(x.e@));
    let sd: Traced<T> = mean_on(ops, &dev).plus(ops, Traced::ratio(ops, 1, 100000)).root(ops);
    let mut out: TracedVec<T> = TracedVec::new(ops);
    let mut j: usize = 0;
    assert(out.e@ =~= norm_of(x.e@, weight@, bias@).take(0));
    while j < n
        invariant
            x.ok(*ops),
            n == x.v@.len(),
            nw == weight@.len(),
            nb == bias@.len(),
            n <= nw,
            n <= nb,
            j <= n,
            m.ok(*ops),
            m.e@ == mean_of(x.e@),
            sd.ok(*ops),
            sd.e@ == spread_of(x.e@),
            out.ok(*ops),
            out.e@ == norm_of(x.e@, weight@, bias@).take(j as int),
        decreases n - j,
    {
        let q: Traced<T> = x.get(ops, j).minus(ops, m).over(ops, sd);
        let y: Traced<T> = q.times(ops, Traced::of(ops, weight[j])).plus(
            ops,
            Traced::of(ops, bias[j]),
        );
        out.push(ops, y);
        j += 1;
        assert(out.e@ =~= norm_of(x.e@, weight@, bias@).take(j as int));
    }
    assert(norm_of(x.e@, weight@, bias@).take(n as int) =~= norm_of(x.e@, weight@, bias@));
    out
}

/// Normalises a vector.
pub fn layer_norm<T: Copy, A: Arith<T>>(ops: &A, x: &[T], weight: &[T], bias: &[T]) -> (out: Vec<T>)
    requires
        x@.len() <= weight@.len(),
        x@.len() <= bias@.len(),
    ensures
        fits_all(*ops, norm_of(vals(x@), weight@, bias@), out@),
{
    norm_on(ops, &traced(ops, x), weight, bias).v
}

/// The activations of a vector.
pub open spec fn gelus_of<T>(xs: Seq<Expr<T>>) -> Seq<Expr<T>> {
    Seq::new(xs.len(), |i: int| gelu_of(xs[i]))
}

/// The activations of a vector, traced.
pub fn gelus_on<T: Copy, A: Arith<T>>(ops: &A, xs: &TracedVec<T>) -> (out: TracedVec<T>)
    requires
        xs.ok(*ops),
    ensures
        out.ok(*ops),
        out.e@ == gelus_of(xs.e@),
{
    let n: usize = xs.len();
    let mut out: TracedVec<T> = TracedVec::new(ops);
    let mut i: usize = 0;
    assert(out.e@ =~= gelus_of(xs.e@).take(0));
    while i < n
        invariant
            xs.ok(*ops),
            n == xs.v@.len(),
            i <= n,
            out.ok(*ops),
            out.e@ == gelus_of(xs.e@).take(i as int),
        decreases n - i,
    {
        out.push(ops, gelu_on(ops, xs.get(ops, i)));
        i += 1;
        assert(out.e@ =~= gelus_of(xs.e@).take(i as int));
    }
    assert(gelus_of(xs.e@).take(n as int) =~= gelus_of(xs.e@));
    out
}

/// What a regulator computes: squeeze, activate, expand.
pub open spec fn maestro_of<T>(m: MaestroWeights<T>, x: Seq<Expr<T>>) -> Seq<Expr<T>> {
    linear_of(
        m.process_1.w@,
        m.process_1.b@,
        gelus_of(linear_of(m.squeeze.w@, m.squeeze.b@, x)),
    )
}

/// A regulator with `n` inputs and outputs.
pub open spec fn maestro_shaped<T>(m: MaestroWeights<T>, n: int) -> bool {
    &&& m.squeeze.shaped(m.squeeze.w@.len() as int, n)
    &&& m.process_1.shaped(n, m.squeeze.w@.len() as int)
}

/// Runs a regulator, traced.
pub fn maestro_on<T: Copy, A: Arith<T>>(ops: &A, m: &MaestroWeights<T>, x: &TracedVec<T>) -> (out:
    TracedVec<T>)
    requires
        x.ok(*ops),
        maestro_shaped(*m, x.v@.len() as int),
    ensures
        out.ok(*ops),
        out.e@ == maestro_of(*m, x.e@),
{
    let squeezed: TracedVec<T> = linear_on(ops, &m.squeeze.w, &m.squeeze.b, x);
    let activated: TracedVec<T> = gelus_on(ops, &squeezed);
    linear_on(ops, &m.process_1.w, &m.process_1.b, &activated)
}

} // verus!
