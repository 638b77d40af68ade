//! In exact arithmetic the gradients of a regulator are its derivative.

use vstd::prelude::*;
#[allow(unused_imports)]
use crate::arith::{Expr, Unary, minus, one, over, plus, times, un, val, vals};
#[allow(unused_imports)]
use crate::attention::rows_vals;
#[allow(unused_imports)]
use crate::backprop::{
    bend, bent, cubic, gelu_slope, grown_of, outer_of, regulator_rows, squeezed_grads,
    squeezed_rows, transposed_of, zero_rows,
};
#[allow(unused_imports)]
use crate::exact::{
    Curves, Dual, dual_of, inverse, lemma_constants, lemma_minus, lemma_nothing, lemma_over,
    lemma_plus, lemma_shared, lemma_three, lemma_times, prod, rate, value,
};
#[allow(unused_imports)]
use crate::layers::{gelu_of, linear_of, maestro_shaped, sums_of};
#[allow(unused_imports)]
use crate::linear_exact::{
    law_linear_back_is_transposed, lemma_summed_both, lemma_summed_same, summed, summed_table,
};
#[allow(unused_imports)]
use crate::loss_exact::{lemma_curves, lemma_neutral};
#[allow(unused_imports)]
use crate::seqs::rows_width;
#[allow(unused_imports)]
use crate::split_band::zeros_of;
#[allow(unused_imports)]
use crate::weights::MaestroWeights;

verus! {

/// The factor in the activation, as the way back has it.
pub open spec fn bend_agrees(cu: Curves) -> bool {
    value(cu, un(Unary::Root, over(Expr::Ratio(2, 1), Expr::Pi))) == value(cu, bend())
}

/// Constants stand still.
#[verifier::spinoff_prover]
proof fn lemma_still(cu: Curves)
    ensures
        rate(cu, cubic()) == 0real,
        rate(cu, bend()) == 0real,
        value(cu, one()) == 1real,
        rate(cu, one()) == 0real,
        value(cu, Expr::Ratio(3, 1)) == 3real,
        rate(cu, Expr::Ratio(3, 1)) == 0real,
        rate(cu, un(Unary::Root, over(Expr::Ratio(2, 1), Expr::Pi))) == 0real,
{
    reveal(dual_of);
    let quotient = over(Expr::<Dual>::Ratio(2, 1), Expr::Pi);
    assert(value(cu, one()) == 1u64 as real / 1u64 as real);
    assert(value(cu, Expr::Ratio(3, 1)) == 3u64 as real / 1u64 as real);
    lemma_over(cu, Expr::Ratio(2, 1), Expr::Pi);
    assert(rate(cu, Expr::<Dual>::Ratio(2, 1)) == 0real && rate(cu, Expr::<Dual>::Pi) == 0real);
    lemma_nothing(value(cu, Expr::<Dual>::Ratio(2, 1)));
    lemma_nothing(value(cu, Expr::<Dual>::Pi));
    lemma_nothing(inverse(prod(cu.pi, cu.pi)));
    assert(rate(cu, quotient) == 0real);
    lemma_curves(cu, quotient);
    lemma_nothing(inverse(prod(2real, (cu.root)(value(cu, quotient)))));
}

/// How a cube changes.
#[verifier::spinoff_prover]
proof fn lemma_cube(k: real, v: real, r: real)
    ensures
        prod(prod(prod(k, r), v) + prod(prod(k, v), r), v) == prod(prod(prod(k, v), v), r) + prod(
            prod(prod(k, v), v),
            r,
        ),
{
    lemma_shared(v, prod(prod(k, r), v), prod(prod(k, v), r));
    lemma_three(k, r, v);
    lemma_three(prod(k, v), r, v);
}

#[verifier::spinoff_prover]
proof fn lemma_triple(q: real)
    ensures
        prod(3real, q) == q + q + q,
{
    reveal(prod);
    assert(3real * q == q + q + q) by (nonlinear_arith);
}

/// How an activation changes, put together.
#[verifier::spinoff_prover]
proof fn lemma_activation(h: real, v: real, r: real, b: real, s: real, w: real, q: real)
    ensures
        prod(prod(h, r), w) + prod(
            prod(h, v),
            prod(s, prod(b, r + (prod(q, r) + prod(q, r) + prod(q, r)))),
        ) == prod(prod(h, w) + prod(prod(prod(h, v), s), prod(b, 1real + prod(3real, q))), r),
{
    let y = 1real + prod(3real, q);
    let x = prod(prod(prod(h, v), s), prod(b, y));
    lemma_shared(r, prod(h, w), x);
    lemma_three(h, w, r);
    lemma_three(prod(prod(h, v), s), prod(b, y), r);
    lemma_three(b, y, r);
    lemma_shared(r, 1real, prod(3real, q));
    lemma_neutral(r);
    lemma_three(3real, q, r);
    lemma_triple(prod(q, r));
    assert(prod(y, r) == r + (prod(q, r) + prod(q, r) + prod(q, r)));
    lemma_three(prod(h, v), s, prod(b, prod(y, r)));
}

/// The activation changes by its slope, where the factor in it is the same on both ways.
#[verifier::spinoff_prover]
pub proof fn law_gelu_slope_is_the_derivative(cu: Curves, x: Expr<Dual>)
    requires
        bend_agrees(cu),
    ensures
        rate(cu, gelu_of(x)) == prod(value(cu, gelu_slope(x)), rate(cu, x)),
{
    let (v, r) = (value(cu, x), rate(cu, x));
    let half = Expr::<Dual>::Ratio(1, 2);
    let k = cubic::<Dual>();
    lemma_constants(cu);
    lemma_still(cu);
    let (h, kv, b) = (value(cu, half), value(cu, k), value(cu, bend()));
    let linear = times(k, x);
    let square = times(linear, x);
    let cube = times(square, x);
    lemma_times(cu, k, x);
    lemma_nothing(v);
    lemma_times(cu, linear, x);
    lemma_times(cu, square, x);
    let q = prod(prod(kv, v), v);
    assert(rate(cu, linear) == prod(kv, r));
    assert(rate(cu, square) == prod(prod(kv, r), v) + prod(prod(kv, v), r));
    lemma_cube(kv, v, r);
    assert(rate(cu, cube) == prod(q, r) + prod(q, r) + prod(q, r));
    // The activation.
    let root = un(Unary::Root, over(Expr::Ratio(2, 1), Expr::<Dual>::Pi));
    let sum = plus(x, cube);
    let inner = times(root, sum);
    lemma_plus(cu, x, cube);
    lemma_times(cu, root, sum);
    lemma_nothing(value(cu, sum));
    lemma_curves(cu, inner);
    let th = un(Unary::Tanh, inner);
    let front = times(half, x);
    lemma_times(cu, half, x);
    lemma_plus(cu, one(), th);
    lemma_times(cu, front, plus(one(), th));
    // The slope.
    let inner_back = times(bend(), sum);
    lemma_times(cu, bend(), sum);
    lemma_curves(cu, inner_back);
    assert(value(cu, inner_back) == value(cu, inner));
    let tb = bent(x);
    assert(tb == un(Unary::Tanh, inner_back));
    assert(value(cu, tb) == value(cu, th));
    let sech = minus(one(), times(tb, tb));
    lemma_times(cu, tb, tb);
    lemma_minus(cu, one(), times(tb, tb));
    let s = value(cu, sech);
    let three = Expr::<Dual>::Ratio(3, 1);
    lemma_times(cu, three, k);
    lemma_times(cu, times(three, k), x);
    lemma_times(cu, times(times(three, k), x), x);
    let bump = times(times(times(three, k), x), x);
    lemma_three(3real, kv, v);
    lemma_three(3real, prod(kv, v), v);
    assert(value(cu, bump) == prod(3real, q));
    lemma_plus(cu, one(), bump);
    let steep = times(bend(), plus(one(), bump));
    lemma_times(cu, bend(), plus(one(), bump));
    lemma_times(cu, half, plus(one(), tb));
    lemma_plus(cu, one(), tb);
    lemma_times(cu, front, sech);
    lemma_times(cu, times(front, sech), steep);
    lemma_plus(cu, times(half, plus(one(), tb)), times(times(front, sech), steep));
    lemma_activation(h, v, r, b, s, 1real + value(cu, th), q);
    assert(rate(cu, th) == prod(s, prod(b, r + (prod(q, r) + prod(q, r) + prod(q, r)))));
}

/// What the gradients of a vector amount to along the direction.
pub open spec fn paired_row(cu: Curves, d: Seq<Expr<Dual>>, y: Seq<Expr<Dual>>, cols: int) -> real {
    summed(|i: int| prod(value(cu, d[i]), rate(cu, y[i])), cols)
}

/// What the gradients at every position amount to along the direction.
pub open spec fn paired_rows(
    cu: Curves,
    d: Seq<Seq<Expr<Dual>>>,
    y: Seq<Seq<Expr<Dual>>>,
    cols: int,
) -> real {
    summed(|t: int| paired_row(cu, d[t], y[t], cols), d.len() as int)
}

/// What the gradients of a layer's weights and biases amount to along the direction: `ds` holds
/// the gradients of its outputs, `xs` its inputs.
pub open spec fn paired_layer(
    cu: Curves,
    w: Seq<Vec<Dual>>,
    b: Seq<Dual>,
    ds: Seq<Seq<Expr<Dual>>>,
    xs: Seq<Seq<Expr<Dual>>>,
    n: int,
) -> real {
    summed_table(
        |i: int, j: int|
            prod(
                value(cu, outer_of(zero_rows(w.len() as int, n), ds, xs, n)[i][j]),
                rate(cu, val(w[i]@[j])),
            ),
        w.len() as int,
        n,
    ) + paired_row(cu, grown_of(zeros_of(w.len() as int), ds), vals(b), w.len() as int)
}

/// The outputs of a layer at every position.
pub open spec fn layer_rows(
    w: Seq<Vec<Dual>>,
    b: Seq<Dual>,
    xs: Seq<Seq<Expr<Dual>>>,
) -> Seq<Seq<Expr<Dual>>> {
    Seq::new(xs.len(), |t: int| linear_of(w, b, xs[t]))
}

#[verifier::spinoff_prover]
proof fn lemma_layer(
    cu: Curves,
    w: Seq<Vec<Dual>>,
    b: Seq<Dual>,
    xs: Seq<Seq<Expr<Dual>>>,
    ds: Seq<Seq<Expr<Dual>>>,
    n: int,
)
    requires
        rows_width(w, n),
        b.len() == w.len(),
        xs.len() == ds.len(),
        forall|t: int| 0 <= t < xs.len() ==> (#[trigger] xs[t]).len() == n,
        forall|t: int| 0 <= t < ds.len() ==> (#[trigger] ds[t]).len() == w.len(),
    ensures
        paired_rows(cu, ds, layer_rows(w, b, xs), w.len() as int) == paired_rows(
            cu,
            Seq::new(ds.len(), |t: int| transposed_of(w, ds[t], n)),
            xs,
            n,
        ) + paired_layer(cu, w, b, ds, xs, n),
{
    let rows = w.len() as int;
    let len = xs.len() as int;
    let back = Seq::new(ds.len(), |t: int| transposed_of(w, ds[t], n));
    law_linear_back_is_transposed(cu, w, b, xs, ds, n);
    lemma_summed_same(
        |t: int|
            summed(
                |i: int| prod(value(cu, ds[t][i]), rate(cu, linear_of(w, b, xs[t])[i])),
                rows,
            ),
        |t: int| paired_row(cu, ds[t], layer_rows(w, b, xs)[t], rows),
        len,
    );
    lemma_summed_same(
        |t: int|
            summed(
                |j: int| prod(value(cu, transposed_of(w, ds[t], n)[j]), rate(cu, xs[t][j])),
                n,
            ),
        |t: int| paired_row(cu, back[t], xs[t], n),
        len,
    );
    lemma_summed_same(
        |i: int| prod(value(cu, grown_of(zeros_of(rows), ds)[i]), rate(cu, val(b[i]))),
        |i: int| prod(value(cu, grown_of(zeros_of(rows), ds)[i]), rate(cu, vals(b)[i])),
        rows,
    );
}

/// The stages of a regulator change with what they are made of: the squeezed values with the
/// inputs, the activations with the squeezed values.
pub open spec fn stages_along(
    cu: Curves,
    m: MaestroWeights<Dual>,
    x: Seq<Vec<Dual>>,
    sq: Seq<Vec<Dual>>,
    act: Seq<Vec<Dual>>,
) -> bool {
    forall|t: int, i: int|
        #![trigger sq[t]@[i]]
        #![trigger act[t]@[i]]
        0 <= t < x.len() && 0 <= i < m.squeeze.w@.len() ==> {
            &&& rate(cu, val(sq[t]@[i])) == rate(
                cu,
                linear_of(m.squeeze.w@, m.squeeze.b@, vals(x[t]@))[i],
            )
            &&& rate(cu, val(act[t]@[i])) == rate(cu, gelu_of(val(sq[t]@[i])))
        }
}

/// What comes back to the activations of a position comes back to what was squeezed.
#[verifier::spinoff_prover]
proof fn lemma_squeezed(
    cu: Curves,
    m: MaestroWeights<Dual>,
    x: Seq<Vec<Dual>>,
    sq: Seq<Vec<Dual>>,
    act: Seq<Vec<Dual>>,
    d: Seq<Expr<Dual>>,
    t: int,
)
    requires
        bend_agrees(cu),
        stages_along(cu, m, x, sq, act),
        0 <= t < x.len(),
        sq[t]@.len() == m.squeeze.w@.len(),
        act[t]@.len() == m.squeeze.w@.len(),
    ensures
        paired_row(
            cu,
            transposed_of(m.process_1.w@, d, m.squeeze.w@.len() as int),
            vals(act[t]@),
            m.squeeze.w@.len() as int,
        ) == paired_row(
            cu,
            squeezed_grads(m, d, sq[t]@),
            linear_of(m.squeeze.w@, m.squeeze.b@, vals(x[t]@)),
            m.squeeze.w@.len() as int,
        ),
{
    let narrow = m.squeeze.w@.len() as int;
    let d_act = transposed_of(m.process_1.w@, d, narrow);
    let d_sq = squeezed_grads(m, d, sq[t]@);
    let y = linear_of(m.squeeze.w@, m.squeeze.b@, vals(x[t]@));
    let f = |i: int| prod(value(cu, d_act[i]), rate(cu, vals(act[t]@)[i]));
    let g = |i: int| prod(value(cu, d_sq[i]), rate(cu, y[i]));
    assert forall|i: int| 0 <= i < narrow implies #[trigger] f(i) == g(i) by {
        let z = val(sq[t]@[i]);
        law_gelu_slope_is_the_derivative(cu, z);
        assert(d_sq[i] == times(d_act[i], gelu_slope(z)));
        lemma_times(cu, d_act[i], gelu_slope(z));
        lemma_three(value(cu, d_act[i]), value(cu, gelu_slope(z)), rate(cu, z));
        assert(rate(cu, val(act[t]@[i])) == rate(cu, gelu_of(z)));
        assert(rate(cu, z) == rate(cu, y[i]));
    }
    lemma_summed_same(f, g, narrow);
}

/// The outputs of a regulator at every position, the inputs added.
pub open spec fn regulated_rows(
    m: MaestroWeights<Dual>,
    x: Seq<Vec<Dual>>,
    act: Seq<Vec<Dual>>,
) -> Seq<Seq<Expr<Dual>>> {
    Seq::new(
        x.len(),
        |t: int| sums_of(vals(x[t]@), linear_of(m.process_1.w@, m.process_1.b@, vals(act[t]@))),
    )
}

/// A sum paired with gradients, or gradients that are a sum.
#[verifier::spinoff_prover]
proof fn lemma_paired_sums(
    cu: Curves,
    d: Seq<Expr<Dual>>,
    e: Seq<Expr<Dual>>,
    y: Seq<Expr<Dual>>,
    z: Seq<Expr<Dual>>,
    n: int,
)
    requires
        d.len() == n,
        e.len() == n,
        y.len() == n,
        z.len() == n,
    ensures
        paired_row(cu, d, sums_of(y, z), n) == paired_row(cu, d, y, n) + paired_row(cu, d, z, n),
        paired_row(cu, sums_of(e, d), y, n) == paired_row(cu, e, y, n) + paired_row(cu, d, y, n),
{
    let f = |i: int| prod(value(cu, d[i]), rate(cu, sums_of(y, z)[i]));
    let fy = |i: int| prod(value(cu, d[i]), rate(cu, y[i]));
    let fz = |i: int| prod(value(cu, d[i]), rate(cu, z[i]));
    assert forall|i: int| 0 <= i < n implies #[trigger] f(i) == fy(i) + fz(i) by {
        lemma_plus(cu, y[i], z[i]);
        lemma_shared(value(cu, d[i]), rate(cu, y[i]), rate(cu, z[i]));
    }
    lemma_summed_both(f, fy, fz, n);
    let g = |i: int| prod(value(cu, sums_of(e, d)[i]), rate(cu, y[i]));
    let ge = |i: int| prod(value(cu, e[i]), rate(cu, y[i]));
    assert forall|i: int| 0 <= i < n implies #[trigger] g(i) == ge(i) + fy(i) by {
        lemma_plus(cu, e[i], d[i]);
        lemma_shared(rate(cu, y[i]), value(cu, e[i]), value(cu, d[i]));
    }
    lemma_summed_both(g, ge, fy, n);
}

/// The gradients that a regulator hands back are its derivative: in exact arithmetic its outputs,
/// with the inputs added to them, change along any direction of the inputs and of the weights by
/// as much as the gradients of these amount to along it. `d` holds the gradients of the outputs.
/// The factor in the activation has to be the same on both ways.
#[verifier::spinoff_prover]
pub proof fn law_regulator_back_is_the_derivative(
    cu: Curves,
    m: MaestroWeights<Dual>,
    x: Seq<Vec<Dual>>,
    sq: Seq<Vec<Dual>>,
    act: Seq<Vec<Dual>>,
    d: Seq<Seq<Expr<Dual>>>,
    n: int,
)
    requires
        bend_agrees(cu),
        maestro_shaped(m, n),
        d.len() == x.len(),
        sq.len() == x.len(),
        act.len() == x.len(),
        forall|t: int| 0 <= t < d.len() ==> (#[trigger] d[t]).len() == n,
        rows_width(x, n),
        rows_width(sq, m.squeeze.w@.len() as int),
        rows_width(act, m.squeeze.w@.len() as int),
        stages_along(cu, m, x, sq, act),
    ensures
        paired_rows(cu, d, regulated_rows(m, x, act), n) == paired_rows(
            cu,
            regulator_rows(m, d, sq),
            rows_vals(x),
            n,
        ) + paired_layer(
            cu,
            m.process_1.w@,
            m.process_1.b@,
            d,
            rows_vals(act),
            m.squeeze.w@.len() as int,
        ) + paired_layer(
            cu,
            m.squeeze.w@,
            m.squeeze.b@,
            squeezed_rows(m, d, sq),
            rows_vals(x),
            n,
        ),
{
    let len = x.len() as int;
    let narrow = m.squeeze.w@.len() as int;
    let (pw, pb) = (m.process_1.w@, m.process_1.b@);
    let (sw, sb) = (m.squeeze.w@, m.squeeze.b@);
    let (xs, acts) = (rows_vals(x), rows_vals(act));
    let d_sq = squeezed_rows(m, d, sq);
    assert(xs.len() == len && acts.len() == len && d_sq.len() == len);
    assert forall|t: int| 0 <= t < len implies (#[trigger] xs[t]).len() == n by {
        assert(x[t]@.len() == n);
    }
    assert forall|t: int| 0 <= t < len implies (#[trigger] acts[t]).len() == narrow by {
        assert(act[t]@.len() == narrow);
    }
    assert forall|t: int| 0 <= t < len implies (#[trigger] d_sq[t]).len() == narrow by {}
    lemma_layer(cu, pw, pb, acts, d, narrow);
    lemma_layer(cu, sw, sb, xs, d_sq, n);
    // What comes back to the activations.
    let d_act = Seq::new(d.len(), |t: int| transposed_of(pw, d[t], narrow));
    let f = |t: int| paired_row(cu, d_act[t], acts[t], narrow);
    let g = |t: int| paired_row(cu, d_sq[t], layer_rows(sw, sb, xs)[t], narrow);
    assert forall|t: int| 0 <= t < len implies #[trigger] f(t) == g(t) by {
        assert(sq[t]@.len() == narrow && act[t]@.len() == narrow);
        lemma_squeezed(cu, m, x, sq, act, d[t], t);
    }
    lemma_summed_same(f, g, len);
    // The inputs, added to the outputs.
    let whole = |t: int| paired_row(cu, d[t], regulated_rows(m, x, act)[t], n);
    let own = |t: int| paired_row(cu, d[t], xs[t], n);
    let made = |t: int| paired_row(cu, d[t], layer_rows(pw, pb, acts)[t], n);
    let d_x = Seq::new(d_sq.len(), |t: int| transposed_of(sw, d_sq[t], n));
    let back = |t: int| paired_row(cu, regulator_rows(m, d, sq)[t], xs[t], n);
    let through = |t: int| paired_row(cu, d_x[t], xs[t], n);
    assert forall|t: int| 0 <= t < len implies #[trigger] whole(t) == own(t) + made(t) by {
        assert(x[t]@.len() == n);
        lemma_paired_sums(cu, d[t], d[t], xs[t], linear_of(pw, pb, vals(act[t]@)), n);
    }
    assert forall|t: int| 0 <= t < len implies #[trigger] back(t) == through(t) + own(t) by {
        assert(x[t]@.len() == n);
        lemma_paired_sums(cu, d[t], d_x[t], xs[t], xs[t], n);
    }
    lemma_summed_both(whole, own, made, len);
    lemma_summed_both(back, through, own, len);
}

} // verus!
