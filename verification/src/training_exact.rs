//! In exact arithmetic: what steps of the optimiser, clipping, rates and springs do.

use vstd::prelude::*;
use crate::arith::Arith;
#[allow(unused_imports)]
use crate::arith::{fits_all, one, over, products_of, times, val, vals};
#[allow(unused_imports)]
use crate::correlation_exact::{lemma_squares, root_squares};
#[allow(unused_imports)]
use crate::exact::{
    Curves, Dual, inverse, lemma_nothing, lemma_sign, lemma_three, powered, prod, value,
};
#[allow(unused_imports)]
use crate::linear_exact::{lemma_summed_same, lemma_summed_scaled, summed};
#[allow(unused_imports)]
use crate::loss::norm_of;
#[allow(unused_imports)]
use crate::loss_exact::{lemma_cross, lemma_inverse, lemma_neutral};
#[allow(unused_imports)]
use crate::optimizer::{
    Adam, adam_eps, beta1, beta2, clipped_of, decayed, next_m, next_means, next_params,
    next_squares, next_v, step_fits, stepped, unbiased,
};
#[allow(unused_imports)]
use crate::values::{exact, group_value, lemma_fits_all, lemma_total};

verus! {

/// What a running mean becomes: it moves the given part of the way to the new entry.
pub open spec fn moved(mean: real, entry: real, part: real) -> real {
    mean + prod(part, entry - mean)
}

/// A parameter after decay: less by the product of rate, decay and itself where the decay is
/// positive.
pub open spec fn shrunk(p: real, lr: real, wd: real) -> real {
    if wd > 0real {
        p - prod(prod(lr, wd), p)
    } else {
        p
    }
}

/// How far a step goes: the rate times the mean gradient over the root of the mean square, both
/// without the pull of the zeros that they started from.
pub open spec fn stride(cu: Curves, lr: real, m: real, v: real, t: nat) -> real {
    let mean = prod(m, inverse(1real - powered(9real / 10real, t)));
    let square = prod(v, inverse(1real - powered(999real / 1000real, t)));
    prod(prod(lr, mean), inverse((cu.root)(square) + 1real / 100000000real))
}

#[verifier::spinoff_prover]
proof fn lemma_moved(b: real, m: real, g: real)
    ensures
        prod(b, m) + prod(1real - b, g) == moved(m, g, 1real - b),
{
    reveal(prod);
    let c = 1real - b;
    assert(b * m + c * g == m + c * (g - m)) by (nonlinear_arith)
        requires
            c == 1real - b,
    ;
}

/// A step of the optimiser, in exact arithmetic: the running mean of every gradient moves a tenth
/// of the way to the gradient, that of its square a thousandth of the way to the square, and the
/// parameter, after its decay, moves against the mean gradient by the stride that the new means
/// give. Means beyond the parameters stay.
#[verifier::spinoff_prover]
pub proof fn law_step_moves_means_and_parameters<A: Arith<Dual>>(
    cu: Curves,
    ops: A,
    before: Adam<Dual>,
    after: Adam<Dual>,
    params: Seq<Dual>,
    params_after: Seq<Dual>,
    grads: Seq<Dual>,
    wd: Dual,
    i: int,
)
    requires
        exact(cu, ops),
        step_fits(ops, before, after, params, params_after, grads, wd),
        before.steps() < usize::MAX,
        0 <= i < params.len(),
        params.len() <= before.means().len(),
        params.len() <= before.squares().len(),
    ensures
        params_after.len() == params.len(),
        after.steps() == before.steps() + 1,
        after.means()[i].v == moved(before.means()[i].v, grads[i].v, 1real / 10real),
        after.squares()[i].v == moved(
            before.squares()[i].v,
            prod(grads[i].v, grads[i].v),
            1real / 1000real,
        ),
        params_after[i].v == shrunk(params[i].v, before.lr.v, wd.v) - stride(
            cu,
            before.lr.v,
            after.means()[i].v,
            after.squares()[i].v,
            (before.steps() + 1) as nat,
        ),
        forall|k: int|
            params.len() <= k < before.means().len() ==> #[trigger] after.means()[k]
                == before.means()[k],
{
    broadcast use group_value;

    let n = params.len() as int;
    let (g, m, v) = (grads[i], before.means()[i], before.squares()[i]);
    let (ms, vs) = (next_means(before, grads, n), next_squares(before, grads, n));
    lemma_fits_all(cu, ops, ms, after.means().take(n));
    lemma_fits_all(cu, ops, vs, after.squares().take(n));
    lemma_fits_all(cu, ops, next_params(before, params, grads, wd), params_after);
    assert(after.means().take(n)[i] == after.means()[i]);
    assert(after.squares().take(n)[i] == after.squares()[i]);
    assert(ms[i] == next_m(m, g) && vs[i] == next_v(v, g));
    assert(value(cu, beta1()) == 9real / 10real);
    assert(value(cu, beta2()) == 999real / 1000real);
    assert(value(cu, adam_eps()) == 1real / 100000000real);
    lemma_moved(9real / 10real, m.v, g.v);
    lemma_moved(999real / 1000real, v.v, prod(g.v, g.v));
    assert(1real - 9real / 10real == 1real / 10real);
    assert(1real - 999real / 1000real == 1real / 1000real);
    lemma_three(1real - 999real / 1000real, g.v, g.v);
    let t = (before.steps() + 1) as usize;
    assert(next_params(before, params, grads, wd)[i] == stepped(
        params[i],
        g,
        m,
        v,
        before.lr,
        wd,
        t,
    ));
    let (x, y) = (unbiased(next_m(m, g), beta1(), t), unbiased(next_v(v, g), beta2(), t));
    assert(value(cu, x) == prod(
        after.means()[i].v,
        inverse(1real - powered(9real / 10real, t as nat)),
    ));
    assert(value(cu, y) == prod(
        after.squares()[i].v,
        inverse(1real - powered(999real / 1000real, t as nat)),
    ));
    assert(value(cu, decayed(params[i], before.lr, wd)) == shrunk(
        params[i].v,
        before.lr.v,
        wd.v,
    ));
}

/// Powers of a number between nothing and one stay below one.
#[verifier::spinoff_prover]
proof fn lemma_powers_fall(x: real, n: nat)
    requires
        0real < x < 1real,
    ensures
        0real < powered(x, n) <= 1real,
        n > 0 ==> powered(x, n) < 1real,
    decreases n,
{
    if n > 0 {
        lemma_powers_fall(x, (n - 1) as nat);
        let y = powered(x, (n - 1) as nat);
        reveal(prod);
        assert(0real < y * x < 1real) by (nonlinear_arith)
            requires
                0real < y <= 1real,
                0real < x < 1real,
        ;
    }
}

#[verifier::spinoff_prover]
proof fn lemma_steady_mean(b: real, p: real, g: real)
    ensures
        moved(prod(1real - p, g), g, 1real - b) == prod(1real - prod(p, b), g),
{
    reveal(prod);
    let c = 1real - b;
    let (x, y) = (p * g, b * g);
    assert((1real - p) * g == g - x) by (nonlinear_arith)
        requires
            x == p * g,
    ;
    assert(c * (g - (g - x)) == x - (p * b) * g) by (nonlinear_arith)
        requires
            c == 1real - b,
            x == p * g,
    ;
    assert((1real - p * b) * g == g - (p * b) * g) by (nonlinear_arith);
}

/// A run of the optimiser from a fresh start, with one and the same gradients in every step.
pub open spec fn steady_run<A: Arith<Dual>>(
    ops: A,
    states: Seq<Adam<Dual>>,
    params: Seq<Seq<Dual>>,
    grads: Seq<Dual>,
    wd: Dual,
) -> bool {
    &&& states.len() == params.len()
    &&& states.len() > 0
    &&& states[0].steps() == 0
    &&& forall|i: int|
        0 <= i < params[0].len() ==> (#[trigger] states[0].means()[i]).v == 0real
            && states[0].squares()[i].v == 0real
    &&& forall|k: int|
        0 <= k < states.len() ==> (#[trigger] params[k]).len() == params[0].len()
            && states[k].means().len() >= params[0].len() && states[k].squares().len()
            >= params[0].len()
    &&& forall|k: int|
        0 <= k < states.len() - 1 ==> #[trigger] step_fits(
            ops,
            states[k],
            states[k + 1],
            params[k],
            params[k + 1],
            grads,
            wd,
        )
}

#[verifier::spinoff_prover]
proof fn lemma_steady_state<A: Arith<Dual>>(
    cu: Curves,
    ops: A,
    states: Seq<Adam<Dual>>,
    params: Seq<Seq<Dual>>,
    grads: Seq<Dual>,
    wd: Dual,
    k: int,
    i: int,
)
    requires
        exact(cu, ops),
        steady_run(ops, states, params, grads, wd),
        states.len() <= usize::MAX,
        0 <= k < states.len(),
        0 <= i < params[0].len(),
    ensures
        states[k].steps() == k,
        states[k].lr == states[0].lr,
        states[k].means()[i].v == prod(1real - powered(9real / 10real, k as nat), grads[i].v),
        states[k].squares()[i].v == prod(
            1real - powered(999real / 1000real, k as nat),
            prod(grads[i].v, grads[i].v),
        ),
    decreases k,
{
    let g = grads[i].v;
    if k == 0 {
        lemma_nothing(g);
        lemma_nothing(prod(g, g));
        assert(states[0].means()[i].v == 0real);
    } else {
        lemma_steady_state(cu, ops, states, params, grads, wd, k - 1, i);
        assert(step_fits(
            ops,
            states[k - 1],
            states[k - 1 + 1],
            params[k - 1],
            params[k - 1 + 1],
            grads,
            wd,
        ));
        assert(params[k - 1].len() == params[0].len());
        law_step_moves_means_and_parameters(
            cu,
            ops,
            states[k - 1],
            states[k],
            params[k - 1],
            params[k],
            grads,
            wd,
            i,
        );
        lemma_steady_mean(9real / 10real, powered(9real / 10real, (k - 1) as nat), g);
        lemma_steady_mean(
            999real / 1000real,
            powered(999real / 1000real, (k - 1) as nat),
            prod(g, g),
        );
        assert(1real - 9real / 10real == 1real / 10real);
        assert(1real - 999real / 1000real == 1real / 1000real);
    }
}

/// A number without its sign.
pub open spec fn size(x: real) -> real {
    if x >= 0real {
        x
    } else {
        -x
    }
}

#[verifier::spinoff_prover]
pub proof fn lemma_root_of_square(cu: Curves, x: real)
    requires
        root_squares(cu),
    ensures
        prod(x, x) >= 0real,
        (cu.root)(prod(x, x)) == size(x),
{
    let s = size(x);
    let r = (cu.root)(prod(x, x));
    reveal(prod);
    assert(x * x >= 0real) by (nonlinear_arith);
    assert(s * s == x * x) by (nonlinear_arith)
        requires
            s == x || s == -x,
    ;
    assert(r >= 0real && prod(r, r) == prod(x, x));
    assert(r == s) by (nonlinear_arith)
        requires
            r * r == s * s,
            r >= 0real,
            s >= 0real,
    ;
}

/// With one and the same gradients in every step of a fresh optimiser, in exact arithmetic, every
/// step moves a parameter, after its decay, by as much as the first: against its gradient, by the
/// rate times the gradient over its size.
#[verifier::spinoff_prover]
pub proof fn law_steady_gradient_moves_by_the_rate<A: Arith<Dual>>(
    cu: Curves,
    ops: A,
    states: Seq<Adam<Dual>>,
    params: Seq<Seq<Dual>>,
    grads: Seq<Dual>,
    wd: Dual,
    k: int,
    i: int,
)
    requires
        exact(cu, ops),
        root_squares(cu),
        steady_run(ops, states, params, grads, wd),
        states.len() <= usize::MAX,
        0 <= k < states.len() - 1,
        0 <= i < params[0].len(),
    ensures
        params[k + 1][i].v == shrunk(params[k][i].v, states[0].lr.v, wd.v) - prod(
            prod(states[0].lr.v, grads[i].v),
            inverse(size(grads[i].v) + 1real / 100000000real),
        ),
{
    let g = grads[i].v;
    let t = (k + 1) as nat;
    lemma_steady_state(cu, ops, states, params, grads, wd, k, i);
    lemma_steady_state(cu, ops, states, params, grads, wd, k + 1, i);
    assert(step_fits(ops, states[k], states[k + 1], params[k], params[k + 1], grads, wd));
    assert(params[k].len() == params[0].len());
    law_step_moves_means_and_parameters(
        cu,
        ops,
        states[k],
        states[k + 1],
        params[k],
        params[k + 1],
        grads,
        wd,
        i,
    );
    let (p, q) = (powered(9real / 10real, t), powered(999real / 1000real, t));
    lemma_powers_fall(9real / 10real, t);
    lemma_powers_fall(999real / 1000real, t);
    lemma_undone(1real - p, g);
    lemma_undone(1real - q, prod(g, g));
    lemma_root_of_square(cu, g);
}

#[verifier::spinoff_prover]
proof fn lemma_undone(a: real, x: real)
    requires
        a != 0real,
    ensures
        prod(prod(a, x), inverse(a)) == x,
{
    lemma_inverse(a);
    lemma_three(a, x, inverse(a));
    lemma_neutral(x);
}

/// The square of a vector's length.
pub open spec fn square_sum(xs: Seq<Dual>) -> real {
    summed(|i: int| prod(xs[i].v, xs[i].v), xs.len() as int)
}

#[verifier::spinoff_prover]
pub proof fn lemma_norm_value(cu: Curves, xs: Seq<Dual>)
    ensures
        value(cu, norm_of(vals(xs))) == (cu.root)(square_sum(xs)),
{
    broadcast use group_value;

    let es = products_of(vals(xs), vals(xs));
    lemma_total(cu, es);
    let f = |k: int| value(cu, es[k]);
    let g = |i: int| prod(xs[i].v, xs[i].v);
    assert forall|k: int| 0 <= k < xs.len() implies #[trigger] f(k) == g(k) by {
        assert(vals(xs)[k] == val(xs[k]));
        assert(es[k] == times(val(xs[k]), val(xs[k])));
    }
    lemma_summed_same(f, g, xs.len() as int);
}

#[verifier::spinoff_prover]
proof fn lemma_square_sum_scaled(xs: Seq<Dual>, ys: Seq<Dual>, c: real)
    requires
        xs.len() == ys.len(),
        forall|i: int| 0 <= i < xs.len() ==> (#[trigger] ys[i]).v == prod(xs[i].v, c),
    ensures
        square_sum(ys) == prod(prod(c, c), square_sum(xs)),
{
    let f = |i: int| prod(xs[i].v, xs[i].v);
    let g = |i: int| prod(ys[i].v, ys[i].v);
    assert forall|i: int| 0 <= i < xs.len() implies #[trigger] g(i) == prod(prod(c, c), f(i)) by {
        assert(ys[i].v == prod(xs[i].v, c));
        lemma_cross(xs[i].v, c, xs[i].v, c);
        lemma_sign(prod(xs[i].v, xs[i].v), prod(c, c));
    }
    lemma_summed_scaled(g, f, prod(c, c), xs.len() as int);
}

/// Clipped gradients keep their direction, in exact arithmetic: all are multiplied by one number,
/// which is one where they are not longer than the limit, and otherwise makes them as long as the
/// limit.
#[verifier::spinoff_prover]
pub proof fn law_clipping_keeps_direction<A: Arith<Dual>>(
    cu: Curves,
    ops: A,
    grads: Seq<Dual>,
    max_norm: Dual,
    out: Seq<Dual>,
)
    requires
        exact(cu, ops),
        root_squares(cu),
        max_norm.v >= 0real,
        fits_all(ops, clipped_of(grads, max_norm), out),
    ensures
        out.len() == grads.len(),
        (cu.root)(square_sum(grads)) <= max_norm.v ==> forall|i: int|
            0 <= i < out.len() ==> (#[trigger] out[i]).v == grads[i].v,
        (cu.root)(square_sum(grads)) > max_norm.v ==> {
            &&& square_sum(out) == prod(max_norm.v, max_norm.v)
            &&& forall|i: int|
                0 <= i < out.len() ==> prod(
                    (#[trigger] out[i]).v,
                    (cu.root)(square_sum(grads)),
                ) == prod(grads[i].v, max_norm.v)
        },
{
    broadcast use group_value;

    lemma_fits_all(cu, ops, clipped_of(grads, max_norm), out);
    lemma_norm_value(cu, grads);
    lemma_squares(
        |i: int| grads[i].v,
        |i: int| prod(grads[i].v, grads[i].v),
        grads.len() as int,
    );
    let r = (cu.root)(square_sum(grads));
    let m = max_norm.v;
    if r > m {
        let c = prod(m, inverse(r));
        lemma_inverse(r);
        assert forall|i: int| 0 <= i < out.len() implies (#[trigger] out[i]).v == prod(
            grads[i].v,
            c,
        ) && prod(out[i].v, r) == prod(grads[i].v, m) by {
            lemma_three(m, inverse(r), r);
            lemma_neutral(m);
            lemma_three(grads[i].v, c, r);
        }
        lemma_square_sum_scaled(grads, out, c);
        lemma_cross(m, inverse(r), m, inverse(r));
        lemma_cross(inverse(r), inverse(r), r, r);
        lemma_three(prod(m, m), prod(inverse(r), inverse(r)), prod(r, r));
        lemma_neutral(1real);
        lemma_neutral(prod(m, m));
    }
}

} // verus!
