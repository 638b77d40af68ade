//! In exact arithmetic: what calls hand to the formulas that they go by.

use vstd::prelude::*;
use crate::arith::Arith;
#[allow(unused_imports)]
use crate::arith::{Expr, Test, angle, fits, over, test_is, total_of, val, vals};
#[allow(unused_imports)]
use crate::attention::rows_vals;
#[allow(unused_imports)]
use crate::averages::{is_mean, lemma_mean_value, lemma_quotient_undone};
#[allow(unused_imports)]
use crate::backprop::{outer_of, zero_rows};
#[allow(unused_imports)]
use crate::coherence::{mags_of, phases_of};
#[allow(unused_imports)]
use crate::correlation_exact::root_squares;
#[allow(unused_imports)]
use crate::decode_exact::{phase_in, strength_in};
#[allow(unused_imports)]
use crate::decoder::{
    DecoderBack, low_rank_back_fits, native_back_fits, native_losses, native_pull,
    native_state_grads, scored_rows, transposed_rows,
};
#[allow(unused_imports)]
use crate::exact::{Curves, Dual, holds_of, prod, value};
#[allow(unused_imports)]
use crate::ffn::{FfnCache, Regulated, cache_fits};
#[allow(unused_imports)]
use crate::gpu_ode::{GpuOdeParams, all_perturbed, kerr_ode_gpu, spun_of};
#[allow(unused_imports)]
use crate::gradient_check::{mean_loss, wave_gap, wave_gaps, wave_loss};
#[allow(unused_imports)]
use crate::kerr::{derivative_of, kerr_derivative, plain_medium, plain_waves};
#[allow(unused_imports)]
use crate::linear_exact::{lemma_summed_same, summed};
#[allow(unused_imports)]
use crate::monitor_exact::law_gains_compare_magnitudes;
#[allow(unused_imports)]
use crate::ode_distortion::{OdeDistortion, distortion_fits, gains_fit};
#[allow(unused_imports)]
use crate::ode_monitor::{BandState, to_band_states};
#[allow(unused_imports)]
use crate::oscillator_exact::{
    entries_are, law_bands_damp_and_turn, law_short_step_turns_by_energy,
    law_without_mixing_bands_drift,
};
#[allow(unused_imports)]
use crate::phase_exact::law_growth_is_a_ratio;
#[allow(unused_imports)]
use crate::phase_loss::{Tuning, native_loss, turned_back};
#[allow(unused_imports)]
use crate::phase_report::{ComparisonReport, compare_states, delta_fits, growth_of};
#[allow(unused_imports)]
use crate::pipeline_exact::{lemma_outer, lemma_transposed};
#[allow(unused_imports)]
use crate::run_setup::{chi_of, effective_chi};
#[allow(unused_imports)]
use crate::stage_exact::law_regulator_stages;
#[allow(unused_imports)]
use crate::structure_exact::energy_in;
#[allow(unused_imports)]
use crate::tables::{build_harmonic_table_sized, harmonic_table};
#[allow(unused_imports)]
use crate::tables_exact::law_token_rows_hold_harmonics;
#[allow(unused_imports)]
use crate::train_loop::{related_positions, spec_unrelated, unrelated_positions};
#[allow(unused_imports)]
use crate::training_step::{Separation, embedding_separation, separation_of, under};
#[allow(unused_imports)]
use crate::values::{exact, group_value, lemma_fits, lemma_fits_all, lemma_scalar};
#[allow(unused_imports)]
use crate::wave_analysis::{coherence_of, harmonic_coherence};
#[allow(unused_imports)]
use crate::wave_model::WavePacketModel;
#[allow(unused_imports)]
use crate::weights::KerrDualMaestroWeights;

verus! {

/// How well two phases agree at a harmonic: the cosine of the harmonic times what they differ by.
#[verifier::spinoff_prover]
pub proof fn law_harmonic_coherence_is_a_cosine<A: Arith<Dual>>(
    cu: Curves,
    ops: A,
    a: Dual,
    b: Dual,
    n: Dual,
    out: Dual,
)
    requires
        exact(cu, ops),
        call_ensures(harmonic_coherence::<Dual, A>, (&ops, a, b, n), out),
    ensures
        out.v == (cu.cos)(prod(n.v, a.v - b.v)),
{
    broadcast use group_value;

    lemma_fits(cu, ops, coherence_of(val(a), val(b), val(n)), out);
}

/// The derivative of the oscillators without four-wave mixing: a band loses energy at the rate of
/// its damping, and turns at the rate of its frequency and of the energies by their couplings.
#[verifier::spinoff_prover]
pub proof fn law_derivative_damps_and_turns<A: Arith<Dual>>(
    cu: Curves,
    ops: A,
    r: &[Dual],
    s: &[Dual],
    gamma: &[Dual],
    omega: &[Dual],
    alpha: Dual,
    beta: Dual,
    chi: Dual,
    out: (Vec<Dual>, Vec<Dual>),
    x: spec_fn(int) -> real,
    k: int,
)
    requires
        exact(cu, ops),
        call_ensures(
            kerr_derivative::<Dual, A>,
            (&ops, r, s, gamma, omega, alpha, beta, chi),
            out,
        ),
        r@.len() == s@.len(),
        r@.len() <= gamma@.len(),
        r@.len() <= omega@.len(),
        0 <= k < r@.len() <= usize::MAX,
        r@.len() <= 4 || chi.v == 0real,
        forall|j: int| 0 <= j < r@.len() ==> (#[trigger] r@[j]).v == x(2 * j),
        forall|j: int| 0 <= j < s@.len() ==> (#[trigger] s@[j]).v == x(2 * j + 1),
    ensures
        ({
            let n = r@.len() as int;
            let own = energy_in(x, n, k);
            let around = energy_in(x, n, k - 2) + energy_in(x, n, k - 1) + energy_in(x, n, k + 1)
                + energy_in(x, n, k + 2);
            let turn = omega@[k].v + prod(alpha.v, own) + prod(beta.v, around);
            let (dr, ds) = (out.0@[k].v, out.1@[k].v);
            &&& prod(x(2 * k), dr) + prod(x(2 * k + 1), ds) == -prod(gamma@[k].v, own)
            &&& prod(x(2 * k), ds) - prod(x(2 * k + 1), dr) == prod(turn, own)
        }),
{
    broadcast use group_value;

    let m = plain_medium(gamma@, omega@, alpha, beta, chi);
    let z = plain_waves(r@, s@);
    let d = derivative_of(m, z);
    lemma_fits_all(cu, ops, d.r, out.0@);
    lemma_fits_all(cu, ops, d.s, out.1@);
    assert forall|j: int| 0 <= j < z.r.len() implies value(cu, #[trigger] z.r[j]) == x(2 * j) by {
        assert(z.r[j] == val(r@[j]));
        assert(r@[j].v == x(2 * j));
    }
    assert forall|j: int| 0 <= j < z.s.len() implies value(cu, #[trigger] z.s[j]) == x(
        2 * j + 1,
    ) by {
        assert(z.s[j] == val(s@[j]));
        assert(s@[j].v == x(2 * j + 1));
    }
    law_without_mixing_bands_drift(cu, m, z, k);
    law_bands_damp_and_turn(cu, m, z, x, k);
    assert(out.0@[k].v == value(cu, d.r[k]));
    assert(out.1@[k].v == value(cu, d.s[k]));
    assert(m.gamma[k] == val(gamma@[k]));
    assert(m.omega[k] == val(omega@[k]));
}

/// The bands of a vector: their magnitudes and their phases.
#[verifier::spinoff_prover]
pub proof fn law_bands_are_read<A: Arith<Dual>>(
    cu: Curves,
    ops: A,
    data: &[Dual],
    n: usize,
    bands: Vec<BandState<Dual>>,
    k: int,
)
    requires
        exact(cu, ops),
        call_ensures(to_band_states::<Dual, A>, (&ops, data, n), bands),
        0 <= k < n,
        2 * n <= data@.len(),
    ensures
        bands@.len() == n,
        bands@[k].mag.v == strength_in(cu, |i: int| data@[i].v, k),
        bands@[k].phase.v == phase_in(cu, |i: int| data@[i].v, k),
{
    broadcast use group_value;

    let x = vals(data@);
    assert(fits(ops, mags_of(x, n as int)[k], bands@[k].mag));
    lemma_fits(cu, ops, mags_of(x, n as int)[k], bands@[k].mag);
    lemma_fits(cu, ops, phases_of(x, n as int)[k], bands@[k].phase);
    assert(x[2 * k] == val(data@[2 * k]));
    assert(x[2 * k + 1] == val(data@[2 * k + 1]));
}

/// A comparison of two states, band by band: the phases and magnitudes of either, and how much
/// larger the magnitude became.
#[verifier::spinoff_prover]
pub proof fn law_comparison_reads_both_states<A: Arith<Dual>>(
    cu: Curves,
    ops: A,
    input: &[Dual],
    output: &[Dual],
    report: ComparisonReport<Dual>,
    k: int,
)
    requires
        exact(cu, ops),
        call_ensures(compare_states::<Dual, A>, (&ops, input, output), report),
        0 <= k < input@.len() as int / 2,
        input@.len() as int / 2 <= output@.len() as int / 2,
    ensures
        ({
            let d = report.per_band@[k];
            let x = |i: int| input@[i].v;
            let y = |i: int| output@[i].v;
            &&& d.index == k
            &&& d.input_phase.v == phase_in(cu, x, k)
            &&& d.output_phase.v == phase_in(cu, y, k)
            &&& d.input_mag.v == strength_in(cu, x, k)
            &&& d.output_mag.v == strength_in(cu, y, k)
            &&& d.input_mag.v >= 1real / 100000000real ==> prod(d.mag_ratio.v, d.input_mag.v)
                == d.output_mag.v
        }),
{
    broadcast use group_value;

    let (x, y) = (vals(input@), vals(output@));
    let d = report.per_band@[k];
    assert(delta_fits(ops, x, y, k, d));
    let px = angle(x[2 * k + 1], x[2 * k]);
    let py = angle(y[2 * k + 1], y[2 * k]);
    let mx = mags_of(x, k + 1)[k];
    let my = mags_of(y, k + 1)[k];
    lemma_fits(cu, ops, px, d.input_phase);
    lemma_fits(cu, ops, py, d.output_phase);
    lemma_fits(cu, ops, mx, d.input_mag);
    lemma_fits(cu, ops, my, d.output_mag);
    lemma_fits(cu, ops, growth_of(mx, my), d.mag_ratio);
    assert(x[2 * k] == val(input@[2 * k]) && x[2 * k + 1] == val(input@[2 * k + 1]));
    assert(y[2 * k] == val(output@[2 * k]) && y[2 * k + 1] == val(output@[2 * k + 1]));
    if d.input_mag.v >= 1real / 100000000real {
        law_growth_is_a_ratio(cu, mx, my);
    }
}

/// A measurement of distortion compares what comes out of the oscillators with what goes in: the
/// mean gain is that of gains which, times the magnitudes that go in, give those that come out.
#[verifier::spinoff_prover]
pub proof fn law_distortion_compares_out_with_in<A: Arith<Dual>>(
    cu: Curves,
    ops: A,
    precond: Seq<Dual>,
    kerr_out: Seq<Dual>,
    omega: Seq<Dual>,
    n: int,
    d: OdeDistortion<Dual>,
) -> (gains: Seq<Dual>)
    requires
        exact(cu, ops),
        distortion_fits(ops, precond, kerr_out, omega, n, d),
        0 < n <= usize::MAX,
        2 * n <= precond.len(),
        2 * n <= kerr_out.len(),
    ensures
        gains.len() == n,
        is_mean(d.gain_mean.v, |k: int| gains[k].v, n),
        forall|k: int|
            0 <= k < n && strength_in(cu, |i: int| precond[i].v, k) >= 1real / 100000000real
                ==> prod((#[trigger] gains[k]).v, strength_in(cu, |i: int| precond[i].v, k))
                == strength_in(cu, |i: int| kerr_out[i].v, k),
{
    broadcast use group_value;

    let mi = mags_of(vals(precond), n);
    let mo = mags_of(vals(kerr_out), n);
    let (gains, limit) = choose|gains: Seq<Dual>, limit: Dual| #[trigger]
        gains_fit(ops, mi, mo, d, gains, limit);
    law_gains_compare_magnitudes(cu, ops, mi, mo, d, gains, limit);
    assert forall|k: int|
        0 <= k < n && strength_in(cu, |i: int| precond[i].v, k) >= 1real / 100000000real
        implies prod((#[trigger] gains[k]).v, strength_in(cu, |i: int| precond[i].v, k))
        == strength_in(cu, |i: int| kerr_out[i].v, k) by {
        assert(vals(precond)[2 * k] == val(precond[2 * k]));
        assert(vals(precond)[2 * k + 1] == val(precond[2 * k + 1]));
        assert(vals(kerr_out)[2 * k] == val(kerr_out[2 * k]));
        assert(vals(kerr_out)[2 * k + 1] == val(kerr_out[2 * k + 1]));
        assert(value(cu, mi[k]) == strength_in(cu, |i: int| precond[i].v, k));
        assert(value(cu, mo[k]) == strength_in(cu, |i: int| kerr_out[i].v, k));
    }
    gains
}

/// The device's step of all positions: each by itself, turned to first order by the energies.
#[verifier::spinoff_prover]
pub proof fn law_device_step_turns_by_energy<A: Arith<Dual>>(
    cu: Curves,
    ops: A,
    x: Vec<Vec<Dual>>,
    params: GpuOdeParams<Dual>,
    rows: Vec<Vec<Dual>>,
    p: int,
    z: spec_fn(int) -> real,
    k: int,
)
    requires
        exact(cu, ops),
        call_ensures(kerr_ode_gpu::<Dual, A>, (&ops, &x, &params), Some(rows)),
        0 <= p < x@.len(),
        0 <= k < params.n_bands,
        entries_are(cu, spun_of(params, x@[p]@), z),
    ensures
        ({
            let n = params.n_bands as int;
            let around = energy_in(z, n, k - 2) + energy_in(z, n, k - 1) + energy_in(z, n, k + 1)
                + energy_in(z, n, k + 2);
            let turn = prod(energy_in(z, n, k), params.alpha.v) + prod(around, params.beta.v);
            &&& rows@[p]@[2 * k].v == z(2 * k) - prod(turn, z(2 * k + 1))
            &&& rows@[p]@[2 * k + 1].v == z(2 * k + 1) + prod(turn, z(2 * k))
        }),
{
    let es = all_perturbed(params, x@);
    lemma_fits_all(cu, ops, es[p], rows@[p]@);
    law_short_step_turns_by_energy(cu, params, x@[p]@, z, k);
    assert(rows@[p]@[2 * k].v == value(cu, es[p][2 * k]));
    assert(rows@[p]@[2 * k + 1].v == value(cu, es[p][2 * k + 1]));
}

/// The loss of waves against waves is the mean of the positions' distances.
#[verifier::spinoff_prover]
pub proof fn law_wave_loss_averages_distances<A: Arith<Dual>>(
    cu: Curves,
    ops: A,
    post: Vec<Vec<Dual>>,
    targets: Vec<Vec<Dual>>,
    n: usize,
    loss: Dual,
)
    requires
        exact(cu, ops),
        post@.len() == targets@.len(),
        0 < post@.len() <= usize::MAX,
        call_ensures(wave_loss::<Dual, A>, (&ops, &post, &targets, n), loss),
    ensures
        is_mean(
            loss.v,
            |p: int| value(cu, wave_gap(post@[p]@, targets@[p]@, n as int)),
            post@.len() as int,
        ),
{
    let es = wave_gaps(post@, targets@, post@.len() as int, n as int);
    lemma_fits(cu, ops, mean_loss(es), loss);
    lemma_mean_value(cu, es);
    lemma_summed_same(
        |k: int| value(cu, es[k]),
        |p: int| value(cu, wave_gap(post@[p]@, targets@[p]@, n as int)),
        post@.len() as int,
    );
}

/// The table of tokens holds a row of harmonics for every token.
#[verifier::spinoff_prover]
pub proof fn law_harmonic_table_holds_token_rows<A: Arith<Dual>>(
    cu: Curves,
    ops: A,
    vocab: usize,
    n_embd: usize,
    table: Vec<Vec<Dual>>,
    c: int,
    h: int,
    place: real,
)
    requires
        exact(cu, ops),
        root_squares(cu),
        call_ensures(build_harmonic_table_sized::<Dual, A>, (&ops, vocab, n_embd), table),
        0 <= c < vocab,
        0 <= h < n_embd / 2,
        prod(place, vocab as real) == prod(c as real, prod(2real, cu.pi)),
    ensures
        table@.len() == vocab,
        table@[c]@.len() == n_embd,
        ({
            let unit = (cu.root)((n_embd / 2) as real);
            let a = prod((h + 1) as real, place);
            &&& prod(table@[c]@[2 * h].v, unit) == (cu.cos)(a)
            &&& prod(table@[c]@[2 * h + 1].v, unit) == (cu.sin)(a)
        }),
{
    let es = harmonic_table::<Dual>(vocab, n_embd);
    lemma_fits_all(cu, ops, es[c], table@[c]@);
    law_token_rows_hold_harmonics(cu, vocab, n_embd, c, h, place);
    assert(table@[c]@[2 * h].v == value(cu, es[c][2 * h]));
    assert(table@[c]@[2 * h + 1].v == value(cu, es[c][2 * h + 1]));
}

/// How far the first embedding is told from the second: what its product with itself exceeds that
/// with the second by; it is degenerate below a hundredth, clear from a tenth on.
#[verifier::spinoff_prover]
pub proof fn law_separation_compares_embeddings<A: Arith<Dual>>(
    cu: Curves,
    ops: A,
    wte: Vec<Vec<Dual>>,
    out: (Dual, Separation),
)
    requires
        exact(cu, ops),
        wte@.len() > 1,
        wte@[0]@.len() <= wte@[1]@.len(),
        call_ensures(embedding_separation::<Dual, A>, (&ops, &wte), out),
    ensures
        out.0.v == summed(
            |i: int| prod(wte@[0]@[i].v, wte@[0]@[i].v),
            wte@[0]@.len() as int,
        ) - summed(|i: int| prod(wte@[0]@[i].v, wte@[1]@[i].v), wte@[0]@.len() as int),
        out.1 == Separation::Degenerate <==> out.0.v < 1real / 100real,
        out.1 == Separation::Clear <==> out.0.v >= 1real / 10real,
{
    broadcast use group_value;

    let (a, b) = (vals(wte@[0]@), vals(wte@[1]@));
    let n = wte@[0]@.len() as int;
    lemma_fits(cu, ops, separation_of(wte@), out.0);
    lemma_scalar(cu, a, a);
    lemma_scalar(cu, a, b);
    let f = |k: int| prod(value(cu, a[k]), value(cu, a[k]));
    let g = |i: int| prod(wte@[0]@[i].v, wte@[0]@[i].v);
    let p = |k: int| prod(value(cu, a[k]), value(cu, b[k]));
    let q = |i: int| prod(wte@[0]@[i].v, wte@[1]@[i].v);
    assert forall|i: int| 0 <= i < n implies #[trigger] f(i) == g(i) by {
        assert(a[i] == val(wte@[0]@[i]));
    }
    assert forall|i: int| 0 <= i < n implies #[trigger] p(i) == q(i) by {
        assert(a[i] == val(wte@[0]@[i]) && b[i] == val(wte@[1]@[i]));
    }
    lemma_summed_same(f, g, n);
    lemma_summed_same(p, q, n);
    assert(value(cu, Expr::<Dual>::Ratio(1, 100)) == 1real / 100real);
    assert(value(cu, Expr::<Dual>::Ratio(1, 10)) == 1real / 10real);
    lemma_under(cu, ops, out.0, 1, 100);
    lemma_under(cu, ops, out.0, 1, 10);
}

#[verifier::spinoff_prover]
proof fn lemma_under<A: Arith<Dual>>(cu: Curves, ops: A, x: Dual, num: u64, den: u64)
    requires
        exact(cu, ops),
    ensures
        under(ops, x, num, den, true) ==> x.v < num as real / den as real,
        under(ops, x, num, den, false) ==> x.v >= num as real / den as real,
{
    broadcast use group_value;

    if under(ops, x, num, den, true) {
        let limit = choose|limit: Dual| #[trigger]
            test_is(ops, Test::Exceeds, limit, x, true) && fits(
                ops,
                Expr::Ratio(num, den),
                limit,
            );
        lemma_fits(cu, ops, Expr::Ratio(num, den), limit);
        assert(true == holds_of(Test::Exceeds, limit.v, x.v));
    }
    if under(ops, x, num, den, false) {
        let limit = choose|limit: Dual| #[trigger]
            test_is(ops, Test::Exceeds, limit, x, false) && fits(
                ops,
                Expr::Ratio(num, den),
                limit,
            );
        lemma_fits(cu, ops, Expr::Ratio(num, den), limit);
        assert(false == holds_of(Test::Exceeds, limit.v, x.v));
    }
}

/// The strength of four-wave mixing is the one asked for where that is positive, else the one kept.
#[verifier::spinoff_prover]
pub proof fn law_mixing_asked_for_goes_first<A: Arith<Dual>>(
    cu: Curves,
    ops: A,
    asked: Dual,
    kept: Dual,
    chi: Dual,
)
    requires
        exact(cu, ops),
        call_ensures(effective_chi::<Dual, A>, (&ops, asked, kept), chi),
    ensures
        chi.v == if asked.v > 0real {
            asked.v
        } else {
            kept.v
        },
{
    broadcast use group_value;

    lemma_fits(cu, ops, chi_of(asked, kept), chi);
}

/// The stages of a feed-forward part: the first regulator works on the input, the second on what
/// the oscillators give, and each adds to what it works on.
#[verifier::spinoff_prover]
pub proof fn law_regulators_stand_before_and_after<A: Arith<Dual>>(
    cu: Curves,
    ops: A,
    w: KerrDualMaestroWeights<Dual>,
    x: Seq<Vec<Dual>>,
    c: FfnCache<Dual>,
    p: int,
    j: int,
)
    requires
        exact(cu, ops),
        cache_fits(ops, w, x, c),
        0 <= p < x.len(),
        c.kerr_out@.len() == x.len(),
        0 <= j < x[p]@.len(),
        c.kerr_out@[p]@.len() == x[p]@.len(),
        w.maestro_in.squeeze.w@.len() > 0,
        w.maestro_in.squeeze.w@[0]@.len() == x[p]@.len(),
        w.maestro_in.process_1.w@.len() == x[p]@.len(),
        w.maestro_in.process_1.w@[j]@.len() == w.maestro_in.squeeze.w@.len(),
        w.maestro_out.squeeze.w@.len() > 0,
        w.maestro_out.squeeze.w@[0]@.len() == x[p]@.len(),
        w.maestro_out.process_1.w@.len() == x[p]@.len(),
        w.maestro_out.process_1.w@[j]@.len() == w.maestro_out.squeeze.w@.len(),
    ensures
        c.precond@[p]@[j].v - x[p]@[j].v == w.maestro_in.process_1.b@[j].v + summed(
            |k: int| prod(w.maestro_in.process_1.w@[j]@[k].v, c.mae_in_act@[p]@[k].v),
            w.maestro_in.squeeze.w@.len() as int,
        ),
        c.regulated@[p]@[j].v - c.kerr_out@[p]@[j].v == w.maestro_out.process_1.b@[j].v + summed(
            |k: int| prod(w.maestro_out.process_1.w@[j]@[k].v, c.mae_out_act@[p]@[k].v),
            w.maestro_out.squeeze.w@.len() as int,
        ),
{
    let before = Regulated { sq: c.mae_in_sq, act: c.mae_in_act, sum: c.precond };
    let after = Regulated { sq: c.mae_out_sq, act: c.mae_out_act, sum: c.regulated };
    law_regulator_stages(cu, ops, w.maestro_in, x, before, p, 0, j);
    law_regulator_stages(cu, ops, w.maestro_out, c.kerr_out@, after, p, 0, j);
}

#[verifier::spinoff_prover]
proof fn lemma_unrelated(t: int, n: int, i: int)
    requires
        0 <= n,
        0 <= i < spec_unrelated(t, n).len(),
    ensures
        ({
            let pair = spec_unrelated(t, n)[i];
            &&& 0 <= pair.0 < n
            &&& pair.1 == (pair.0 + t / 2) % t
            &&& pair.0 != pair.1
        }),
    decreases n,
{
    if n > 0 && i < spec_unrelated(t, n - 1).len() {
        lemma_unrelated(t, n - 1, i);
    }
}

/// Positions that are compared as related are next to one another; those compared as unrelated
/// are not the same, and lie half a sequence apart going round.
#[verifier::spinoff_prover]
pub proof fn law_compared_positions(
    t: usize,
    near: Vec<(usize, usize)>,
    far: Vec<(usize, usize)>,
    i: int,
    j: int,
)
    requires
        call_ensures(related_positions, (t,), near),
        call_ensures(unrelated_positions, (t,), far),
        0 <= i < near@.len(),
        0 <= j < far@.len(),
    ensures
        near@[i].1 == near@[i].0 + 1,
        near@[i].0 == 2 * i,
        near@[i].1 < t,
        near@[i].1 < 10,
        far@[j].0 < 5,
        far@[j].0 != far@[j].1,
        far@[j].1 == (far@[j].0 + t / 2) % (t as int),
{
    let first = if t < 5 {
        t as int
    } else {
        5
    };
    lemma_unrelated(t as int, first, j);
    assert(far@[j].0 == spec_unrelated(t as int, first)[j].0);
}

/// What comes back through a bottleneck: both tables pass gradients back along their rows, and
/// either table's gradients add up, over the positions, what came back to it times what it was
/// given.
#[verifier::spinoff_prover]
pub proof fn law_bottleneck_passes_gradients_back<A: Arith<Dual>>(
    cu: Curves,
    ops: A,
    model: WavePacketModel<Dual>,
    post: Seq<Vec<Dual>>,
    n_embd: int,
    b: DecoderBack<Dual>,
    p: int,
    v: int,
    r: int,
    j: int,
)
    requires
        exact(cu, ops),
        low_rank_back_fits(ops, model, post, n_embd, b),
        b.d_logits@.len() == post.len(),
        0 <= p < post.len(),
        0 <= j < n_embd,
        0 <= r < model.lm_down@.len(),
        0 <= v < model.lm_up@.len(),
        forall|q: int|
            0 <= q < post.len() ==> (#[trigger] b.d_logits@[q])@.len() == model.lm_up@.len()
                && n_embd <= post[q]@.len(),
    ensures
        ({
            let dl = rows_vals(b.d_logits@);
            let xs = rows_vals(post);
            let rank = model.lm_down@.len() as int;
            let inner = |q: int, s: int|
                summed(
                    |u: int| prod(model.lm_up@[u]@[s].v, value(cu, dl[q][u])),
                    model.lm_up@.len() as int,
                );
            &&& b.d_hidden@[p]@[j].v == summed(
                |s: int| prod(model.lm_down@[s]@[j].v, inner(p, s)),
                rank,
            )
            &&& b.lm_down@[r]@[j].v == summed(
                |q: int| prod(inner(q, r), value(cu, xs[q][j])),
                post.len() as int,
            )
            &&& b.lm_up@[v]@[r].v == summed(
                |q: int|
                    prod(
                        value(cu, dl[q][v]),
                        value(cu, scored_rows(model.lm_down@, xs)[q][r]),
                    ),
                post.len() as int,
            )
        }),
{
    let dl = rows_vals(b.d_logits@);
    let xs = rows_vals(post);
    let rank = model.lm_down@.len() as int;
    let narrow = scored_rows(model.lm_down@, xs);
    let dn = transposed_rows(model.lm_up@, dl, rank);
    let inner = |q: int, s: int|
        summed(
            |u: int| prod(model.lm_up@[u]@[s].v, value(cu, dl[q][u])),
            model.lm_up@.len() as int,
        );
    assert forall|q: int, s: int| 0 <= q < post.len() && 0 <= s < rank implies value(
        cu,
        #[trigger] dn[q][s],
    ) == inner(q, s) by {
        assert(b.d_logits@[q]@.len() == model.lm_up@.len());
        lemma_transposed(cu, model.lm_up@, dl[q], rank, s);
    }
    let back = transposed_rows(model.lm_down@, dn, n_embd);
    lemma_fits_all(cu, ops, back[p], b.d_hidden@[p]@);
    assert(b.d_hidden@[p]@[j].v == value(cu, back[p][j]));
    lemma_transposed(cu, model.lm_down@, dn[p], n_embd, j);
    let f = |s: int| prod(model.lm_down@[s]@[j].v, value(cu, dn[p][s]));
    let g = |s: int| prod(model.lm_down@[s]@[j].v, inner(p, s));
    assert forall|s: int| 0 <= s < rank implies #[trigger] f(s) == g(s) by {
        assert(value(cu, dn[p][s]) == inner(p, s));
    }
    lemma_summed_same(f, g, rank);
    let up = outer_of(zero_rows(model.lm_up@.len() as int, rank), dl, narrow, rank);
    lemma_fits_all(cu, ops, up[v], b.lm_up@[v]@);
    assert(b.lm_up@[v]@[r].v == value(cu, up[v][r]));
    lemma_outer(cu, dl, narrow, model.lm_up@.len() as int, rank, v, r);
    let down = outer_of(zero_rows(rank, n_embd), dn, xs, n_embd);
    lemma_fits_all(cu, ops, down[r], b.lm_down@[r]@);
    assert(b.lm_down@[r]@[j].v == value(cu, down[r][j]));
    lemma_outer(cu, dn, xs, rank, n_embd, r, j);
    let a = |q: int| prod(value(cu, dn[q][r]), value(cu, xs[q][j]));
    let c = |q: int| prod(inner(q, r), value(cu, xs[q][j]));
    assert forall|q: int| 0 <= q < post.len() implies #[trigger] a(q) == c(q) by {
        assert(value(cu, dn[q][r]) == inner(q, r));
    }
    lemma_summed_same(a, c, post.len() as int);
}

/// What comes back through a decoder that compares states with embeddings: the loss is the mean of
/// the positions' losses, and a state's gradient, times their number, is what its own loss pulls,
/// turned back.
#[verifier::spinoff_prover]
pub proof fn law_native_back_averages_positions<A: Arith<Dual>>(
    cu: Curves,
    ops: A,
    model: WavePacketModel<Dual>,
    n: int,
    temperature: Dual,
    post: Seq<Vec<Dual>>,
    targets: Seq<usize>,
    b: DecoderBack<Dual>,
    p: int,
    j: int,
)
    requires
        exact(cu, ops),
        native_back_fits(ops, model, n, temperature, post, targets, b),
        0 < post.len() <= usize::MAX,
        0 <= p < post.len(),
        0 <= j < b.d_hidden@[p]@.len(),
    ensures
        is_mean(
            b.loss.v,
            |q: int|
                value(
                    cu,
                    native_loss(
                        post[q]@,
                        model.wte@,
                        targets[q] as int,
                        (Tuning { temperature: val(temperature), scaled: true }),
                        model.output_corrector@.take(n),
                        Expr::Ratio(1, 10000000000),
                    ),
                ),
            post.len() as int,
        ),
        prod(b.d_hidden@[p]@[j].v, post.len() as real) == value(
            cu,
            turned_back(
                native_pull(model, n, temperature, post, targets, p),
                vals(model.output_corrector@.take(n)),
            )[j],
        ),
{
    broadcast use group_value;

    let es = native_losses(model, n, temperature, post, targets);
    lemma_fits(cu, ops, over(total_of(es), Expr::Count(post.len() as usize)), b.loss);
    lemma_mean_value(cu, es);
    lemma_summed_same(
        |k: int| value(cu, es[k]),
        |q: int|
            value(
                cu,
                native_loss(
                    post[q]@,
                    model.wte@,
                    targets[q] as int,
                    (Tuning { temperature: val(temperature), scaled: true }),
                    model.output_corrector@.take(n),
                    Expr::Ratio(1, 10000000000),
                ),
            ),
        post.len() as int,
    );
    let gs = native_state_grads(model, n, temperature, post, targets);
    lemma_fits_all(cu, ops, gs[p], b.d_hidden@[p]@);
    assert(b.d_hidden@[p]@[j].v == value(cu, gs[p][j]));
    let own = turned_back(
        native_pull(model, n, temperature, post, targets, p),
        vals(model.output_corrector@.take(n)),
    );
    lemma_quotient_undone(value(cu, own[j]), post.len() as real);
}

} // verus!
