//! In exact arithmetic the gradients of the raw dampings are those of the integrations.

use vstd::prelude::*;
#[allow(unused_imports)]
use crate::arith::{Expr, Test, Unary, one, over, pick, plus, times, un, val, vals};
#[allow(unused_imports)]
use crate::exact::{
    Curves, Dual, dual_of, inverse, lemma_negated, lemma_over, lemma_plus, lemma_shared, lemma_sign,
    lemma_three, lemma_times, prod, rate, value,
};
#[allow(unused_imports)]
use crate::kerr::{Waves, waves_of};
#[allow(unused_imports)]
use crate::layers::{softplus_of, softplus_slope_of};
#[allow(unused_imports)]
use crate::loss_exact::{
    exp_positive, lemma_curves, lemma_inverse, lemma_neutral, lemma_numbers, lemma_unique,
};
#[allow(unused_imports)]
use crate::ode_backward::{OdeForwardCache, cache_shaped, ode_back, raw_of};
#[allow(unused_imports)]
use crate::ode_exact::{
    integration_along, law_ode_back_is_transposed, paired_medium, reached, waves_back,
};
#[allow(unused_imports)]
use crate::split_band::{
    SplitBandForwardCache, kept_at, split_back, split_medium, split_shaped, steps_in,
};
#[allow(unused_imports)]
use crate::split_exact::{
    cache_along, law_split_back_is_transposed, paired_numbers, paired_shared, paired_state,
    state_back,
};
#[allow(unused_imports)]
use crate::weights::KerrWeights;

verus! {

/// The exponentials of a number and of its opposite make one.
pub open spec fn exp_opposite(cu: Curves) -> bool {
    forall|x: real| prod(#[trigger] (cu.exp)(x), (cu.exp)(-x)) == 1real
}

/// A choice by which number is larger.
#[verifier::spinoff_prover]
pub proof fn lemma_exceeds(cu: Curves, x: Expr<Dual>, y: Expr<Dual>, yes: Expr<Dual>, no: Expr<Dual>)
    ensures
        dual_of(cu, pick(Test::Exceeds, x, y, yes, no)) == (if value(cu, x) > value(cu, y) {
            dual_of(cu, yes)
        } else {
            dual_of(cu, no)
        }),
{
    reveal(dual_of);
}

/// Where two numbers make one, either tells the slope of a softplus.
#[verifier::spinoff_prover]
proof fn lemma_logistic(a: real, b: real)
    requires
        prod(a, b) == 1real,
        a > 0real,
    ensures
        prod(inverse(1real + a), a) == inverse(1real + b),
{
    let i = inverse(1real + a);
    lemma_inverse(1real + a);
    lemma_shared(a, 1real, b);
    lemma_neutral(a);
    lemma_sign(a, 1real + b);
    assert(prod(1real + b, a) == a + 1real);
    lemma_three(1real + b, i, a);
    lemma_three(i, 1real + b, a);
    lemma_three(1real + b, a, i);
    lemma_sign(prod(1real + b, a), i);
    lemma_sign(a, i);
    lemma_unique(1real + b, prod(i, a));
}

/// A damping changes along its raw value by the slope of the softplus.
#[verifier::spinoff_prover]
pub proof fn law_softplus_slope_is_the_derivative(cu: Curves, x: Expr<Dual>)
    requires
        exp_positive(cu),
        exp_opposite(cu),
    ensures
        rate(cu, softplus_of(x)) == prod(value(cu, softplus_slope_of(x)), rate(cu, x)),
{
    let limit = Expr::<Dual>::Ratio(20, 1);
    let low = un(Unary::Exp, x);
    let opposite = un(Unary::Negated, x);
    let high = un(Unary::Exp, opposite);
    let r = rate(cu, x);
    let a = (cu.exp)(value(cu, x));
    lemma_numbers(cu, 0);
    lemma_curves(cu, x);
    lemma_plus(cu, one(), low);
    lemma_curves(cu, plus(one(), low));
    lemma_negated(cu, x);
    lemma_curves(cu, opposite);
    lemma_plus(cu, one(), high);
    lemma_over(cu, one(), plus(one(), high));
    lemma_exceeds(cu, x, limit, x, un(Unary::Ln, plus(one(), low)));
    lemma_exceeds(cu, x, limit, one(), over(one(), plus(one(), high)));
    lemma_neutral(r);
    let b = (cu.exp)(-value(cu, x));
    assert(a > 0real && prod(a, b) == 1real);
    lemma_logistic(a, b);
    lemma_neutral(inverse(1real + b));
    lemma_three(inverse(1real + a), a, r);
    assert(rate(cu, low) == prod(a, r));
    assert(value(cu, high) == b);
    assert(0real + prod(a, r) == prod(a, r));
}

/// Dampings that follow their raw values.
pub open spec fn dampings_along(
    cu: Curves,
    gamma: Seq<Dual>,
    gamma_raw: Seq<Dual>,
    n: int,
) -> bool {
    forall|k: int|
        0 <= k < n ==> rate(cu, #[trigger] vals(gamma)[k]) == rate(
            cu,
            softplus_of(val(gamma_raw[k])),
        )
}

/// The gradients of raw dampings amount to what those of the dampings do.
#[verifier::spinoff_prover]
proof fn lemma_raw(
    cu: Curves,
    d_gamma: Seq<Expr<Dual>>,
    gamma: Seq<Dual>,
    gamma_raw: Seq<Dual>,
    n: int,
)
    requires
        exp_positive(cu),
        exp_opposite(cu),
        dampings_along(cu, gamma, gamma_raw, n),
        n <= d_gamma.len(),
        n <= gamma.len(),
        n <= gamma_raw.len(),
    ensures
        paired_numbers(cu, raw_of(d_gamma, gamma_raw), vals(gamma_raw), n) == paired_numbers(
            cu,
            d_gamma,
            vals(gamma),
            n,
        ),
    decreases n,
{
    if n > 0 {
        lemma_raw(cu, d_gamma, gamma, gamma_raw, n - 1);
        let x = val(gamma_raw[n - 1]);
        let d = d_gamma[n - 1];
        law_softplus_slope_is_the_derivative(cu, x);
        lemma_times(cu, d, softplus_slope_of(x));
        lemma_three(value(cu, d), value(cu, softplus_slope_of(x)), rate(cu, x));
        assert(rate(cu, vals(gamma)[n - 1]) == rate(cu, softplus_of(x)));
        assert(raw_of(d_gamma, gamma_raw)[n - 1] == times(d, softplus_slope_of(x)));
        assert(vals(gamma_raw)[n - 1] == x);
    }
}

/// The gradients that an integration hands back are the derivative of its end, the raw dampings
/// included: in exact arithmetic, where the dampings follow their raw values.
#[verifier::spinoff_prover]
pub proof fn law_ode_back_reaches_raw_dampings(
    cu: Curves,
    d_output: Seq<Dual>,
    c: OdeForwardCache<Dual>,
    w: KerrWeights<Dual>,
    end: Waves<Dual>,
)
    requires
        exp_positive(cu),
        exp_opposite(cu),
        cache_shaped(c, w),
        2 * c.n_bands <= d_output.len(),
        integration_along(cu, c, w, end),
        dampings_along(cu, c.gamma@, w.gamma_raw@, c.n_bands as int),
    ensures
        ({
            let n = c.n_bands as int;
            let out = ode_back(d_output, c, w);
            paired_state(cu, waves_of(vals(d_output), n), end, n) == paired_state(
                cu,
                waves_back(out),
                reached(c, end, 0),
                n,
            ) + paired_numbers(cu, raw_of(out.d_gamma, w.gamma_raw@), vals(w.gamma_raw@), n)
                + prod(value(cu, out.d_alpha), rate(cu, val(w.alpha))) + prod(
                value(cu, out.d_beta),
                rate(cu, val(w.beta)),
            )
        }),
{
    let out = ode_back(d_output, c, w);
    law_ode_back_is_transposed(cu, d_output, c, w, end);
    lemma_raw(cu, out.d_gamma, c.gamma@, w.gamma_raw@, c.n_bands as int);
    reveal(paired_medium);
}

/// The gradients that a split integration hands back are the derivative of its end, the raw
/// dampings included: in exact arithmetic, where the dampings follow their raw values.
#[verifier::spinoff_prover]
pub proof fn law_split_back_reaches_raw_dampings(
    cu: Curves,
    d_output: Seq<Dual>,
    c: SplitBandForwardCache<Dual>,
    w: KerrWeights<Dual>,
)
    requires
        exp_positive(cu),
        exp_opposite(cu),
        split_shaped(c, w),
        2 * c.n_bands <= d_output.len(),
        cache_along(cu, c, w),
        dampings_along(cu, c.gamma@, w.gamma_raw@, c.n_bands as int),
    ensures
        ({
            let n = c.n_bands as int;
            let m = split_medium(c, w);
            let out = split_back(d_output, c, w);
            let end = kept_at(c.b_state_r@, c.b_state_s@, steps_in(c.b_state_r@));
            let start = kept_at(c.a_state_r@, c.a_state_s@, 0);
            paired_state(cu, waves_of(vals(d_output), n), end, n) == paired_state(
                cu,
                state_back(out),
                start,
                n,
            ) + paired_numbers(cu, raw_of(out.d_gamma, w.gamma_raw@), vals(w.gamma_raw@), n)
                + paired_shared(cu, out, m, vals(w.rk4_weights@))
        }),
{
    let out = split_back(d_output, c, w);
    law_split_back_is_transposed(cu, d_output, c, w);
    lemma_raw(cu, out.d_gamma, c.gamma@, w.gamma_raw@, c.n_bands as int);
}

} // verus!
