//! In exact arithmetic: what fresh models start from, and when readings fall due.

use vstd::prelude::*;
#[allow(unused_imports)]
use vstd::arithmetic::div_mod::{lemma_add_mod_noop, lemma_mod_self_0, lemma_small_mod};
use crate::arith::Arith;
#[allow(unused_imports)]
use crate::arith::{Expr, Unary, one, times, un, val, zero};
#[allow(unused_imports)]
use crate::averages::lemma_by_one;
#[allow(unused_imports)]
use crate::correlation_exact::root_squares;
#[allow(unused_imports)]
use crate::exact::{Curves, Dual, prod, value};
#[allow(unused_imports)]
use crate::forward_exact::{exp_undoes_ln, law_norm_layer_normalises, normalised};
#[allow(unused_imports)]
use crate::health::health_due;
#[allow(unused_imports)]
use crate::layers::{norm_of, softplus_of};
#[allow(unused_imports)]
use crate::model::{InitValues, copies, fresh_kerr, neutral_norm};
#[allow(unused_imports)]
use crate::tables::values_fit;
#[allow(unused_imports)]
use crate::tables_exact::{law_fresh_values, ln_undoes_exp};
#[allow(unused_imports)]
use crate::values::{exact, group_value, lemma_fits, lemma_fits_all};
#[allow(unused_imports)]
use crate::wave_decode::WaveDecodeState;
#[allow(unused_imports)]
use crate::wave_init::fresh_head;
#[allow(unused_imports)]
use crate::wave_model::WaveAttnHeadWeights;
#[allow(unused_imports)]
use crate::wave_score::fresh_decoder;
#[allow(unused_imports)]
use crate::weights::{KerrWeights, LayerNormWeights};

verus! {

/// A fresh normalisation does nothing but normalise.
#[verifier::spinoff_prover]
pub proof fn law_fresh_norm_only_normalises(
    cu: Curves,
    ln: LayerNormWeights<Dual>,
    v: InitValues<Dual>,
    xs: Seq<Expr<Dual>>,
) -> (res: (spec_fn(int) -> real, real, real))
    requires
        root_squares(cu),
        0 < xs.len() <= usize::MAX,
        neutral_norm(ln, v, xs.len() as int),
        v.one.v == 1real,
        v.zero.v == 0real,
    ensures
        normalised(|i: int| value(cu, xs[i]), xs.len() as int, res.0, res.1, res.2),
        forall|i: int|
            0 <= i < xs.len() ==> value(cu, #[trigger] norm_of(xs, ln.weight@, ln.bias@)[i]) == (
            res.0)(i),
{
    let res = law_norm_layer_normalises(cu, xs, ln.weight@, ln.bias@);
    assert forall|i: int| 0 <= i < xs.len() implies value(
        cu,
        #[trigger] norm_of(xs, ln.weight@, ln.bias@)[i],
    ) == (res.0)(i) by {
        assert(ln.weight@[i] == v.one && ln.bias@[i] == v.zero);
        lemma_by_one((res.0)(i));
    }
    res
}

/// A fresh head `i` listens at half of `i + 1`, behind the exponential, and has no biases.
#[verifier::spinoff_prover]
pub proof fn law_fresh_heads_start_at_half_their_number<A: Arith<Dual>>(
    cu: Curves,
    ops: A,
    h: WaveAttnHeadWeights<Dual>,
    v: InitValues<Dual>,
    i: int,
    e: int,
    hd: int,
)
    requires
        exact(cu, ops),
        exp_undoes_ln(cu),
        0 <= i < usize::MAX,
        fresh_head(ops, h, v, i, e, hd),
    ensures
        2real * (cu.exp)(h.harmonic_raw.v) == (i + 1) as real,
        h.phase_proj_b@ == copies(v.zero, 2),
        h.v_proj_b@ == copies(v.zero, hd),
{
    broadcast use group_value;

    lemma_fits(
        cu,
        ops,
        un(Unary::Ln, times(Expr::Count((i + 1) as usize), Expr::Ratio(1, 2))),
        h.harmonic_raw,
    );
    assert(value(cu, Expr::<Dual>::Ratio(1, 2)) == 1real / 2real);
    assert(((i + 1) as usize) as real == (i + 1) as real);
    lemma_halved((i + 1) as real);
}

#[verifier::spinoff_prover]
proof fn lemma_halved(x: real)
    ensures
        2real * prod(x, 1real / 2real) == x,
{
    reveal(prod);
}

/// A fresh ODE layer damps every band by a tenth, has slopes' weights that add up to one, and
/// neither corrects phases nor mixes.
#[verifier::spinoff_prover]
pub proof fn law_fresh_oscillators<A: Arith<Dual>>(
    cu: Curves,
    ops: A,
    k: KerrWeights<Dual>,
    v: InitValues<Dual>,
    n: usize,
    steps: usize,
    b: int,
)
    requires
        exact(cu, ops),
        values_fit(ops, n as int, v),
        fresh_kerr(k, v, n, steps),
        exp_undoes_ln(cu),
        ln_undoes_exp(cu),
        (cu.exp)(1real / 10real) > 1real,
        v.gamma_raw.v <= 20real,
        0 <= b < n,
    ensures
        value(cu, softplus_of(val(k.gamma_raw@[b]))) == 1real / 10real,
        k.rk4_weights[0].v + k.rk4_weights[1].v + k.rk4_weights[2].v + k.rk4_weights[3].v == 1real,
        k.phase_correction@[b].v == 0real,
        k.chi.v == 0real,
        k.mix_strength.v == 0real,
        k.rk4_n_steps == steps,
{
    law_fresh_values(cu, ops, n as int, v);
    assert(k.gamma_raw@[b] == v.gamma_raw);
    assert(k.phase_correction@[b] == v.zero);
}

/// A fresh wave decoder weighs all bands alike, by one, at a temperature of a fiftieth.
#[verifier::spinoff_prover]
pub proof fn law_fresh_wave_decoder<A: Arith<Dual>>(
    cu: Curves,
    ops: A,
    s: WaveDecodeState<Dual>,
    vocab: int,
    n: int,
    k: int,
)
    requires
        exact(cu, ops),
        fresh_decoder(ops, s, vocab, n),
        0 <= k < n,
    ensures
        s.band_weights@.len() == n,
        s.band_weights@[k].v == 1real,
        50real * s.temperature.v == 1real,
        s.vocab_size == vocab,
        s.n_bands == n,
{
    broadcast use group_value;

    let es = Seq::new(n as nat, |k: int| one::<Dual>());
    lemma_fits_all(cu, ops, es, s.band_weights@);
    assert(s.band_weights@[k].v == value(cu, es[k]));
    lemma_fits(cu, ops, Expr::<Dual>::Ratio(2, 100), s.temperature);
    assert(value(cu, Expr::<Dual>::Ratio(2, 100)) == 2real / 100real);
}

/// Health falls due once in every interval: again after it, and not in between.
#[verifier::spinoff_prover]
pub proof fn law_health_falls_due_once_an_interval(
    interval: usize,
    iter: usize,
    later: usize,
    now: bool,
    again: bool,
)
    requires
        0 < interval,
        iter < later <= iter + interval,
        call_ensures(health_due, (interval, iter), now),
        call_ensures(health_due, (interval, later), again),
    ensures
        now && later == iter + interval ==> again,
        now && later < iter + interval ==> !again,
{
    let (i, n, d) = (iter as int, interval as int, later - iter);
    lemma_add_mod_noop(i, d, n);
    if d < n {
        lemma_small_mod(d as nat, n as nat);
    } else {
        lemma_mod_self_0(n);
        lemma_small_mod(0, n as nat);
    }
}

} // verus!
