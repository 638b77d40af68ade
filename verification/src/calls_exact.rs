//! In exact arithmetic: what calls give.

use vstd::prelude::*;
use crate::arith::Arith;
#[allow(unused_imports)]
use crate::arith::{
    Expr, Test, fits, larger, minus, one, over, pick, times, total_of, val, vals, zero,
};
#[allow(unused_imports)]
use crate::attention::{column_of, rows_vals};
#[allow(unused_imports)]
use crate::averages::{is_mean, lemma_mean_value, lemma_quotient_undone};
#[allow(unused_imports)]
use crate::coherence::{DecodeMode, decode_v2};
#[allow(unused_imports)]
use crate::correlation_exact::{lemma_squares, root_squares};
#[allow(unused_imports)]
use crate::decode_exact::{
    cosine_bounded, decodes, law_decoding_scores_phases, law_same_differences_same_score, phase_in,
    strength_in, turned_by,
};
#[allow(unused_imports)]
use crate::decoder::loss_temperature;
#[allow(unused_imports)]
use crate::exact::{Curves, Dual, prod, value};
#[allow(unused_imports)]
use crate::forward::integrates;
#[allow(unused_imports)]
use crate::forward_exact::law_pass_runs_blocks_in_turn;
#[allow(unused_imports)]
use crate::kerr::Offsets;
#[allow(unused_imports)]
use crate::layers::{mean_of, softplus_of};
#[allow(unused_imports)]
use crate::likeness_exact::law_discrimination_compares;
#[allow(unused_imports)]
use crate::linear_exact::{lemma_summed_same, summed};
#[allow(unused_imports)]
use crate::loss::norm_of;
#[allow(unused_imports)]
use crate::memory_exact::law_extracted_states_average;
#[allow(unused_imports)]
use crate::model::{ModelWeights, ffn_kind};
#[allow(unused_imports)]
use crate::model_forward::{ends_of, hidden_of, logits_of, memory_of, states_of};
#[allow(unused_imports)]
use crate::monitor_exact::law_rate_is_per_second;
#[allow(unused_imports)]
use crate::ode_monitor::{ThroughputStats, compute, rate_of};
#[allow(unused_imports)]
use crate::readings::{
    census_percents, dampings_of, gradient_norm, mean_damping, per_iteration, percent_of,
};
#[allow(unused_imports)]
use crate::run_setup::{least_bands, tokens_per_band};
#[allow(unused_imports)]
use crate::statistics::similarity_of;
#[allow(unused_imports)]
use crate::structure_exact::{
    law_clustering_averages_pairs, law_energy_ratio_divides, law_resultant_is_mean_direction,
};
#[allow(unused_imports)]
use crate::sub_harmonic::{
    CouplingBudget, CrossBandDiscrimination, coupling_budget, cross_band_discrimination,
    cross_means, differential_phase_clustering, energy_ratio, mag_rows, own_means, phase_rows,
    resultant_of, step_resultants, step_rows,
};
#[allow(unused_imports)]
use crate::training_exact::{lemma_norm_value, size, square_sum};
#[allow(unused_imports)]
use crate::training_step::{batch_grads, reduce_batch, train_split};
#[allow(unused_imports)]
use crate::values::{exact, group_value, lemma_fits, lemma_fits_all, lemma_total, lemma_whole};
#[allow(unused_imports)]
use crate::wave_analysis::{
    closeness_of, dispersion_of, dispersions_of, mean_resultant_length, phase_clustering,
};

verus! {

/// Decoding by harmonics: every token gets the score of its phases against those of the turned
/// state.
#[verifier::spinoff_prover]
pub proof fn law_decode_v2_scores_phases<A: Arith<Dual>>(
    cu: Curves,
    ops: A,
    hidden: &[Dual],
    embeddings: Vec<Vec<Dual>>,
    angles: &[Dual],
    n: usize,
    vocab: usize,
    mode: DecodeMode,
    out: Vec<Dual>,
    v: int,
)
    requires
        exact(cu, ops),
        cosine_bounded(cu),
        root_squares(cu),
        cu.lowest <= -1real,
        0 < n <= angles@.len(),
        2 * n <= hidden@.len(),
        0 <= v < vocab <= embeddings@.len(),
        2 * n <= embeddings@[v]@.len(),
        call_ensures(
            decode_v2::<Dual, A>,
            (&ops, hidden, &embeddings, angles, n, vocab, mode),
            out,
        ),
    ensures
        decodes(
            cu,
            mode,
            |i: int| hidden@[i].v,
            |i: int| embeddings@[v]@[i].v,
            |k: int| angles@[k].v,
            n as int,
            out@[v].v,
        ),
{
    let taken = angles@.take(n as int);
    law_decoding_scores_phases(
        cu,
        ops,
        mode,
        hidden@,
        embeddings@,
        taken,
        vocab as int,
        out@,
        v,
    );
    let x = |i: int| hidden@[i].v;
    let e = |i: int| embeddings@[v]@[i].v;
    let a0 = |k: int| taken[k].v;
    let a = |k: int| angles@[k].v;
    let t0 = turned_by(cu, x, a0);
    let t = turned_by(cu, x, a);
    let d0 = |k: int| phase_in(cu, t0, k) - phase_in(cu, e, k);
    let w0 = |k: int| strength_in(cu, t0, k);
    let d = |k: int| phase_in(cu, t, k) - phase_in(cu, e, k);
    let w = |k: int| strength_in(cu, t, k);
    assert forall|k: int| 0 <= k < n implies #[trigger] d0(k) == d(k) && w0(k) == w(k) by {
        assert(a0(k) == a(k));
        assert((2 * k) / 2 == k && (2 * k + 1) / 2 == k);
        assert(t0(2 * k) == t(2 * k));
        assert(t0(2 * k + 1) == t(2 * k + 1));
    }
    law_same_differences_same_score(
        cu,
        mode,
        d0,
        w0,
        d,
        w,
        n as int,
        out@[v].v,
    );
}

/// Comparing bands: each of the three ratios compares the mean likeness of the related rows with
/// that of the random ones, for the phases, their steps and the magnitudes.
#[verifier::spinoff_prover]
pub proof fn law_cross_band_discrimination_compares<A: Arith<Dual>>(
    cu: Curves,
    ops: A,
    states: Vec<Vec<Dual>>,
    related: &[(usize, usize)],
    random: &[(usize, usize)],
    n: usize,
    out: CrossBandDiscrimination<Dual>,
    rows: Seq<Seq<Expr<Dual>>>,
    ratio: Dual,
    near: real,
    far: real,
)
    requires
        exact(cu, ops),
        call_ensures(
            cross_band_discrimination::<Dual, A>,
            (&ops, &states, related, random, n),
            out,
        ),
        related@.len() <= usize::MAX,
        random@.len() <= usize::MAX,
        (rows == phase_rows(states@, n as int) && ratio == out.per_band_ratio) || (rows
            == step_rows(states@, n as int) && ratio == out.diff_phase_ratio) || (rows
            == mag_rows(states@, n as int) && ratio == out.magnitude_ratio),
        is_mean(
            near,
            |i: int|
                size(
                    value(
                        cu,
                        similarity_of(rows[related@[i].0 as int], rows[related@[i].1 as int]),
                    ),
                ),
            related@.len() as int,
        ),
        is_mean(
            far,
            |i: int|
                size(
                    value(
                        cu,
                        similarity_of(rows[random@[i].0 as int], rows[random@[i].1 as int]),
                    ),
                ),
            random@.len() as int,
        ),
    ensures
        related@.len() == 0 || random@.len() == 0 ==> ratio.v == 1real,
        related@.len() > 0 && random@.len() > 0 && far >= 1real / 10000000000real ==> {
            &&& prod(ratio.v, far) == near
            &&& (ratio.v > 1real <==> near > far)
        },
{
    law_discrimination_compares(cu, ops, rows, related@, random@, ratio, near, far);
}

/// Reading states off a model: what is given of a block that integrates is the mean over the
/// positions of the states in which its oscillators end.
#[verifier::spinoff_prover]
pub proof fn law_extract_ode_states_averages<A: Arith<Dual>>(
    cu: Curves,
    ops: A,
    m: ModelWeights<Dual>,
    tokens: &[usize],
    offsets: Option<&Vec<Offsets<Dual>>>,
    states: Vec<Offsets<Dual>>,
    l: int,
    k: int,
)
    requires
        exact(cu, ops),
        call_ensures(
            ModelWeights::<Dual>::extract_ode_states::<A>,
            (&m, &ops, tokens, offsets),
            states,
        ),
        0 <= l < m.blocks@.len(),
        integrates(ffn_kind(m.blocks@[l].ffn)),
        0 <= k < m.config.n_bands,
        0 < hidden_of(m, tokens@, offsets, l).len() <= usize::MAX,
    ensures
        ({
            let at = states_of(m, tokens@, offsets, l).len() as int;
            let ends = ends_of(
                m.blocks@[l],
                hidden_of(m, tokens@, offsets, l),
                2 * m.config.n_bands,
                memory_of(m, offsets, l),
            );
            &&& is_mean(
                states@[at].r@[k].v,
                |p: int| value(cu, ends[p].r[k]),
                ends.len() as int,
            )
            &&& is_mean(
                states@[at].s@[k].v,
                |p: int| value(cu, ends[p].s[k]),
                ends.len() as int,
            )
        }),
{
    law_extracted_states_average(cu, ops, m, tokens@, offsets, states@, l, k);
}

/// The forward pass: a logit is the product of its row with the normalised output of the last
/// block.
#[verifier::spinoff_prover]
pub proof fn law_forward_gives_logits<A: Arith<Dual>>(
    cu: Curves,
    ops: A,
    m: ModelWeights<Dual>,
    tokens: &[usize],
    offsets: Option<&Vec<Offsets<Dual>>>,
    logits: Vec<Vec<Dual>>,
    p: int,
    v: int,
)
    requires
        exact(cu, ops),
        call_ensures(
            ModelWeights::<Dual>::forward_with_memory::<A>,
            (&m, &ops, tokens, offsets),
            logits,
        ),
        0 <= p < tokens@.len(),
        0 <= v < m.lm_head@.len(),
        m.lm_head@[v]@.len() == hidden_of(m, tokens@, offsets, m.blocks@.len() as int)[p].len(),
    ensures
        ({
            let last = hidden_of(m, tokens@, offsets, m.blocks@.len() as int)[p];
            let y = crate::layers::norm_of(last, m.ln_f.weight@, m.ln_f.bias@);
            logits@[p]@[v].v == summed(
                |k: int| prod(m.lm_head@[v]@[k].v, value(cu, y[k])),
                y.len() as int,
            )
        }),
{
    let es = logits_of(m, tokens@, offsets);
    lemma_fits_all(cu, ops, es[p], logits@[p]@);
    assert(logits@[p]@[v].v == value(cu, es[p][v]));
    law_pass_runs_blocks_in_turn(cu, m, tokens@, offsets, 0, p, v);
}

/// The clustering of differential phases is the mean over the pairs of adjacent bands.
#[verifier::spinoff_prover]
pub proof fn law_differential_clustering_averages<A: Arith<Dual>>(
    cu: Curves,
    ops: A,
    states: Vec<Vec<Dual>>,
    n_bands: usize,
    out: Dual,
)
    requires
        exact(cu, ops),
        2 <= n_bands,
        call_ensures(differential_phase_clustering::<Dual, A>, (&ops, &states, n_bands), out),
    ensures
        is_mean(
            out.v,
            |k: int| value(cu, resultant_of(column_of(step_rows(states@, n_bands as int), k))),
            n_bands - 1,
        ),
{
    let n = n_bands as int;
    lemma_fits(
        cu,
        ops,
        over(total_of(step_resultants(states@, n)), Expr::Count((n - 1) as usize)),
        out,
    );
    law_clustering_averages_pairs(cu, states@, n);
}

/// A batch: its loss times its size is the sum of its windows' losses, and its gradients, times
/// its size, are the sums of theirs.
#[verifier::spinoff_prover]
pub proof fn law_batch_shares_out_sums<A: Arith<Dual>>(
    cu: Curves,
    ops: A,
    losses: Vec<Dual>,
    grads: Vec<Vec<Dual>>,
    n: usize,
    batch: usize,
    out: (Dual, Vec<Dual>),
    i: int,
)
    requires
        exact(cu, ops),
        batch > 0,
        0 <= i < n,
        forall|b: int| 0 <= b < grads@.len() ==> i < (#[trigger] grads@[b])@.len(),
        call_ensures(reduce_batch::<Dual, A>, (&ops, &losses, &grads, n, batch), out),
    ensures
        prod(out.0.v, batch as real) == summed(|b: int| losses@[b].v, losses@.len() as int),
        prod(out.1@[i].v, batch as real) == summed(
            |b: int| grads@[b]@[i].v,
            grads@.len() as int,
        ),
{
    broadcast use group_value;

    let es = vals(losses@);
    lemma_fits(cu, ops, over(total_of(es), Expr::Count(batch)), out.0);
    lemma_total(cu, es);
    let f = |k: int| value(cu, es[k]);
    let g = |b: int| losses@[b].v;
    assert forall|b: int| 0 <= b < losses@.len() implies #[trigger] f(b) == g(b) by {
        assert(es[b] == val(losses@[b]));
    }
    lemma_summed_same(f, g, losses@.len() as int);
    lemma_quotient_undone(summed(g, losses@.len() as int), batch as real);
    let gs = batch_grads(grads@, n as int, batch);
    lemma_fits_all(cu, ops, gs, out.1@);
    assert(out.1@[i].v == value(cu, gs[i]));
    let col = column_of(rows_vals(grads@), i);
    lemma_total(cu, col);
    let a = |k: int| value(cu, col[k]);
    let b = |b: int| grads@[b]@[i].v;
    assert forall|k: int| 0 <= k < grads@.len() implies #[trigger] a(k) == b(k) by {
        assert(i < grads@[k]@.len());
        assert(vals(grads@[k]@)[i] == val(grads@[k]@[i]));
    }
    lemma_summed_same(a, b, grads@.len() as int);
    lemma_quotient_undone(summed(b, grads@.len() as int), batch as real);
}

/// How closely phases keep together: the length of their mean direction.
#[verifier::spinoff_prover]
pub proof fn law_mean_resultant_is_the_mean_direction<A: Arith<Dual>>(
    cu: Curves,
    ops: A,
    phases: &[Dual],
    out: Dual,
    c: real,
    s: real,
)
    requires
        exact(cu, ops),
        root_squares(cu),
        0 < phases@.len() <= usize::MAX,
        call_ensures(mean_resultant_length::<Dual, A>, (&ops, phases), out),
        is_mean(c, |k: int| (cu.cos)(phases@[k].v), phases@.len() as int),
        is_mean(s, |k: int| (cu.sin)(phases@[k].v), phases@.len() as int),
    ensures
        out.v >= 0real,
        prod(out.v, out.v) == prod(c, c) + prod(s, s),
{
    broadcast use group_value;

    let es = vals(phases@);
    let n = phases@.len() as int;
    lemma_fits(cu, ops, minus(one(), dispersion_of(es)), out);
    assert forall|k: int| 0 <= k < n implies value(cu, #[trigger] es[k]) == phases@[k].v by {
        assert(es[k] == val(phases@[k]));
    }
    lemma_summed_same(
        |k: int| (cu.cos)(phases@[k].v),
        |k: int| (cu.cos)(value(cu, es[k])),
        n,
    );
    lemma_summed_same(
        |k: int| (cu.sin)(phases@[k].v),
        |k: int| (cu.sin)(value(cu, es[k])),
        n,
    );
    law_resultant_is_mean_direction(cu, es, c, s);
}

/// The clustering of phases is the mean over the bands of what their dispersion leaves of one.
#[verifier::spinoff_prover]
pub proof fn law_phase_clustering_averages_bands<A: Arith<Dual>>(
    cu: Curves,
    ops: A,
    phases: Vec<Vec<Dual>>,
    n: usize,
    out: Dual,
)
    requires
        exact(cu, ops),
        n > 0,
        call_ensures(phase_clustering::<Dual, A>, (&ops, &phases, n), out),
    ensures
        is_mean(
            out.v,
            |k: int|
                1real - value(
                    cu,
                    dispersions_of(phases@, n as int)[k],
                ),
            n as int,
        ),
{
    broadcast use group_value;

    let es = closeness_of(phases@, n as int);
    lemma_fits(cu, ops, mean_of(es), out);
    lemma_mean_value(cu, es);
    let f = |k: int| value(cu, es[k]);
    let g = |k: int|
        1real - value(cu, dispersions_of(phases@, n as int)[k]);
    assert forall|k: int| 0 <= k < n implies #[trigger] f(k) == g(k) by {}
    lemma_summed_same(f, g, n as int);
}

/// The length of gradients: its square is the sum of their squares.
#[verifier::spinoff_prover]
pub proof fn law_gradient_norm_is_the_length<A: Arith<Dual>>(
    cu: Curves,
    ops: A,
    grads: &[Dual],
    out: Dual,
)
    requires
        exact(cu, ops),
        root_squares(cu),
        call_ensures(gradient_norm::<Dual, A>, (&ops, grads), out),
    ensures
        out.v >= 0real,
        prod(out.v, out.v) == square_sum(grads@),
{
    lemma_fits(cu, ops, norm_of(vals(grads@)), out);
    lemma_norm_value(cu, grads@);
    lemma_squares(
        |i: int| grads@[i].v,
        |i: int| prod(grads@[i].v, grads@[i].v),
        grads@.len() as int,
    );
}

/// The mean damping of a layer's bands.
#[verifier::spinoff_prover]
pub proof fn law_mean_damping_averages_bands<A: Arith<Dual>>(
    cu: Curves,
    ops: A,
    gamma_raw: &[Dual],
    out: Dual,
)
    requires
        exact(cu, ops),
        0 < gamma_raw@.len() <= usize::MAX,
        call_ensures(mean_damping::<Dual, A>, (&ops, gamma_raw), out),
    ensures
        is_mean(
            out.v,
            |k: int| value(cu, softplus_of(val(gamma_raw@[k]))),
            gamma_raw@.len() as int,
        ),
{
    let es = dampings_of(gamma_raw@);
    lemma_fits(cu, ops, mean_of(es), out);
    lemma_mean_value(cu, es);
    lemma_summed_same(
        |k: int| value(cu, es[k]),
        |k: int| value(cu, softplus_of(val(gamma_raw@[k]))),
        gamma_raw@.len() as int,
    );
}

/// The energies of a coupling budget: the means over the bands, and their ratio.
#[verifier::spinoff_prover]
pub proof fn law_budget_compares_energies<A: Arith<Dual>>(
    cu: Curves,
    ops: A,
    states: Vec<Vec<Dual>>,
    n: usize,
    alpha: Dual,
    beta: Dual,
    out: CouplingBudget<Dual>,
)
    requires
        exact(cu, ops),
        n > 0,
        call_ensures(coupling_budget::<Dual, A>, (&ops, &states, n, alpha, beta), out),
    ensures
        is_mean(
            out.self_mod_energy.v,
            |k: int| value(cu, own_means(states@, n as int, alpha)[k]),
            n as int,
        ),
        is_mean(
            out.cross_mod_energy.v,
            |k: int| value(cu, cross_means(states@, n as int, beta)[k]),
            n as int,
        ),
        out.self_mod_energy.v > 1real / 10000000000real ==> prod(
            out.cross_self_ratio.v,
            out.self_mod_energy.v,
        ) == out.cross_mod_energy.v,
{
    let own = own_means(states@, n as int, alpha);
    let cross = cross_means(states@, n as int, beta);
    lemma_fits(cu, ops, mean_of(own), out.self_mod_energy);
    lemma_fits(cu, ops, mean_of(cross), out.cross_mod_energy);
    lemma_fits(cu, ops, energy_ratio(mean_of(own), mean_of(cross)), out.cross_self_ratio);
    lemma_mean_value(cu, own);
    lemma_mean_value(cu, cross);
    law_energy_ratio_divides(cu, mean_of(own), mean_of(cross));
}

/// Throughput: tokens and iterations for every second, and what the other two parts leave of an
/// iteration's time.
#[verifier::spinoff_prover]
pub proof fn law_throughput_divides_time<A: Arith<Dual>>(
    cu: Curves,
    ops: A,
    batch: usize,
    positions: usize,
    whole: Dual,
    forth: Dual,
    step: Dual,
    s: ThroughputStats<Dual>,
)
    requires
        exact(cu, ops),
        batch * positions <= usize::MAX,
        whole.v > 0real,
        call_ensures(compute::<Dual, A>, (&ops, batch, positions, whole, forth, step), s),
    ensures
        prod(s.tokens_per_sec.v, whole.v) == 1000real * ((batch * positions) as real),
        prod(s.iters_per_sec.v, whole.v) == 1000real,
        s.forward_ms == forth,
        s.optimizer_ms == step,
        whole.v >= forth.v + step.v ==> s.forward_ms.v + s.backward_ms.v + s.optimizer_ms.v
            == whole.v,
        whole.v < forth.v + step.v ==> s.backward_ms.v == 0real,
{
    broadcast use group_value;

    let count = (batch * positions) as usize;
    lemma_fits(cu, ops, rate_of(Expr::Count(count), whole), s.tokens_per_sec);
    lemma_fits(cu, ops, rate_of(one(), whole), s.iters_per_sec);
    lemma_fits(
        cu,
        ops,
        larger(minus(minus(val(whole), val(forth)), val(step)), zero()),
        s.backward_ms,
    );
    law_rate_is_per_second(cu, Expr::Count(count), whole);
    law_rate_is_per_second(cu, one(), whole);
}

/// Small readings: the two percentages of a census make a hundred, a time is shared out over the
/// iterations, and a vocabulary over the bands.
#[verifier::spinoff_prover]
pub proof fn law_small_readings<A: Arith<Dual>>(
    cu: Curves,
    ops: A,
    part: usize,
    whole: usize,
    percents: (Dual, Dual),
    time: Dual,
    n_iters: usize,
    each: Dual,
    vocab: usize,
    n_bands: usize,
    per_band: Dual,
)
    requires
        exact(cu, ops),
        n_iters > 0,
        n_bands > 0,
        call_ensures(census_percents::<Dual, A>, (&ops, part, whole), percents),
        call_ensures(per_iteration::<Dual, A>, (&ops, time, n_iters), each),
        call_ensures(tokens_per_band::<Dual, A>, (&ops, vocab, n_bands), per_band),
    ensures
        percents.0.v + percents.1.v == 100real,
        prod(each.v, n_iters as real) == time.v,
        prod(per_band.v, n_bands as real) == vocab as real,
{
    broadcast use group_value;

    lemma_whole(cu, 100);
    lemma_fits(cu, ops, percent_of(part, whole), percents.0);
    lemma_fits(cu, ops, minus(Expr::Ratio(100, 1), percent_of(part, whole)), percents.1);
    lemma_fits(cu, ops, over(val(time), Expr::Count(n_iters)), each);
    lemma_fits(cu, ops, over(Expr::Count(vocab), Expr::Count(n_bands)), per_band);
    lemma_quotient_undone(time.v, n_iters as real);
    lemma_quotient_undone(vocab as real, n_bands as real);
}

/// The tokens to train on are nine tenths of all, rounded down; the least bands for a vocabulary
/// are eight thousandths of it, rounded down; and the temperature of a loss is the one asked for,
/// or one.
#[verifier::spinoff_prover]
pub proof fn law_small_choices<A: Arith<Dual>>(
    cu: Curves,
    ops: A,
    tokens: usize,
    train: usize,
    vocab: usize,
    least: usize,
    asked: Dual,
    heat: Dual,
)
    requires
        exact(cu, ops),
        call_ensures(train_split::<Dual, A>, (&ops, tokens), train),
        call_ensures(least_bands::<Dual, A>, (&ops, vocab), least),
        call_ensures(loss_temperature::<Dual, A>, (&ops, asked), heat),
    ensures
        10real * (train as real) <= 9real * (tokens as real) < 10real * (train as real + 1real),
        1000real * (least as real) <= 8real * (vocab as real) < 1000real * (least as real + 1real),
        heat.v == if asked.v > 0real {
            asked.v
        } else {
            1real
        },
{
    broadcast use group_value;

    let a = choose|x: Dual| #[trigger]
        call_ensures(A::whole, (&ops, x), train) && fits(
            ops,
            times(Expr::Count(tokens), Expr::Ratio(9, 10)),
            x,
        );
    lemma_fits(cu, ops, times(Expr::Count(tokens), Expr::Ratio(9, 10)), a);
    let b = choose|x: Dual| #[trigger]
        call_ensures(A::whole, (&ops, x), least) && fits(
            ops,
            times(Expr::Count(vocab), Expr::Ratio(8, 1000)),
            x,
        );
    lemma_fits(cu, ops, times(Expr::Count(vocab), Expr::Ratio(8, 1000)), b);
    assert(value(cu, Expr::<Dual>::Ratio(9, 10)) == 9real / 10real);
    assert(value(cu, Expr::<Dual>::Ratio(8, 1000)) == 8real / 1000real);
    lemma_shares_of(tokens as real, vocab as real);
    lemma_fits(
        cu,
        ops,
        pick(Test::Exceeds, val(asked), zero(), val(asked), one()),
        heat,
    );
}

#[verifier::spinoff_prover]
proof fn lemma_shares_of(t: real, v: real)
    requires
        t >= 0real,
        v >= 0real,
    ensures
        10real * prod(t, 9real / 10real) == 9real * t,
        1000real * prod(v, 8real / 1000real) == 8real * v,
        prod(t, 9real / 10real) >= 0real,
        prod(v, 8real / 1000real) >= 0real,
{
    reveal(prod);
}

} // verus!
