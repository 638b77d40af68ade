//! In exact arithmetic: the stages of a feed-forward part, and further readings.

use vstd::prelude::*;
use crate::arith::Arith;
#[allow(unused_imports)]
use crate::arith::{Expr, Test, Unary, fits, minus, one, plus, test_is, times, val, vals};
#[allow(unused_imports)]
use crate::attention_exact::law_linear_applies_rows;
#[allow(unused_imports)]
use crate::averages::{
    is_mean, lemma_cancel, lemma_mean_value, lemma_quotient_undone, lemma_summed_alike,
};
#[allow(unused_imports)]
use crate::backward::{BackwardRun, NormBack, row_sums};
#[allow(unused_imports)]
use crate::decode_exact::phase_in;
#[allow(unused_imports)]
use crate::exact::{Curves, Dual, holds_of, inverse, prod, value};
#[allow(unused_imports)]
use crate::ffn::{Regulated, activated_of, regulated_fits, regulated_of, squeezed_of};
#[allow(unused_imports)]
use crate::layers::{gelu_of, mean_of};
#[allow(unused_imports)]
use crate::linear_exact::{lemma_dot, lemma_summed_both, lemma_summed_same, summed};
#[allow(unused_imports)]
use crate::parity_cases::{drawn_of, rising_omega};
#[allow(unused_imports)]
use crate::passes::block_norm_passed;
#[allow(unused_imports)]
use crate::proj::proj_of;
#[allow(unused_imports)]
use crate::sub_harmonic::{profile_of, resultant_of, spectrum_input};
#[allow(unused_imports)]
use crate::values::{exact, group_value, lemma_fits, lemma_fits_all, lemma_whole};
#[allow(unused_imports)]
use crate::wave_analysis::{
    HistogramRow, closeness_of, contrast, curve_of, dispersion_of, dispersions_of, pair_bests,
    pair_mean, row_fits,
};
#[allow(unused_imports)]
use crate::wave_decode::WaveDecodeState;
#[allow(unused_imports)]
use crate::wave_score::{frozen_tables, token_phases, waves_of_phases};
#[allow(unused_imports)]
use crate::weights::{BlockDiagonalWeights, MaestroWeights, OutProjWeights};

verus! {

/// The stages of a regulator at a position: the squeezed values are the squeezing layer's, the
/// activations are theirs, and the sum is the input and what the expanding layer makes of the
/// activations.
#[verifier::spinoff_prover]
pub proof fn law_regulator_stages<A: Arith<Dual>>(
    cu: Curves,
    ops: A,
    m: MaestroWeights<Dual>,
    x: Seq<Vec<Dual>>,
    r: Regulated<Dual>,
    p: int,
    i: int,
    j: int,
)
    requires
        exact(cu, ops),
        regulated_fits(ops, m, x, r),
        0 <= p < x.len(),
        0 <= i < m.squeeze.w@.len(),
        m.squeeze.w@[i]@.len() == x[p]@.len(),
        0 <= j < x[p]@.len(),
        x[p]@.len() == m.process_1.w@.len(),
        m.process_1.w@[j]@.len() == m.squeeze.w@.len(),
    ensures
        r.sq@[p]@[i].v == m.squeeze.b@[i].v + summed(
            |k: int| prod(m.squeeze.w@[i]@[k].v, x[p]@[k].v),
            x[p]@.len() as int,
        ),
        r.act@[p]@[i].v == value(cu, gelu_of(val(r.sq@[p]@[i]))),
        r.sum@[p]@[j].v - x[p]@[j].v == m.process_1.b@[j].v + summed(
            |k: int| prod(m.process_1.w@[j]@[k].v, r.act@[p]@[k].v),
            m.squeeze.w@.len() as int,
        ),
{
    broadcast use group_value;

    let sq = squeezed_of(m, x)[p];
    let act = activated_of(m, x)[p];
    let sum = regulated_of(m, x)[p];
    lemma_fits_all(cu, ops, sq, r.sq@[p]@);
    lemma_fits_all(cu, ops, act, r.act@[p]@);
    lemma_fits_all(cu, ops, sum, r.sum@[p]@);
    assert(r.sq@[p]@[i].v == value(cu, sq[i]));
    assert(r.act@[p]@[i].v == value(cu, act[i]));
    assert(r.sum@[p]@[j].v == value(cu, sum[j]));
    let xs = vals(x[p]@);
    law_linear_applies_rows(cu, m.squeeze.w@, m.squeeze.b@, xs, i);
    let f = |k: int| prod(m.squeeze.w@[i]@[k].v, value(cu, xs[k]));
    let g = |k: int| prod(m.squeeze.w@[i]@[k].v, x[p]@[k].v);
    assert forall|k: int| 0 <= k < xs.len() implies #[trigger] f(k) == g(k) by {
        assert(xs[k] == val(x[p]@[k]));
    }
    lemma_summed_same(f, g, xs.len() as int);
    law_linear_applies_rows(cu, m.process_1.w@, m.process_1.b@, act, j);
    let a = |k: int| prod(m.process_1.w@[j]@[k].v, value(cu, act[k]));
    let b = |k: int| prod(m.process_1.w@[j]@[k].v, r.act@[p]@[k].v);
    assert forall|k: int| 0 <= k < act.len() implies #[trigger] a(k) == b(k) by {
        assert(r.act@[p]@[k].v == value(cu, act[k]));
    }
    lemma_summed_same(a, b, act.len() as int);
    assert(xs[j] == val(x[p]@[j]));
}

/// A block-diagonal projection applies to every group's part of the input the group's own rows and
/// biases.
#[verifier::spinoff_prover]
pub proof fn law_groups_project_apart(
    cu: Curves,
    bd: BlockDiagonalWeights<Dual>,
    x: Seq<Expr<Dual>>,
    g: int,
    i: int,
)
    requires
        0 <= g < bd.groups@.len(),
        0 <= i < bd.group_size,
        x.len() == bd.groups@.len() * bd.group_size,
        0 <= g * bd.group_size,
        g * bd.group_size + bd.group_size <= x.len(),
        (g * bd.group_size + i) / (bd.group_size as int) == g,
        (g * bd.group_size + i) % (bd.group_size as int) == i,
        bd.groups@[g].w@[i]@.len() == bd.group_size,
    ensures
        ({
            let size = bd.group_size as int;
            value(
                cu,
                proj_of(OutProjWeights::BlockDiagonal(bd), x)[g * size + i],
            ) == bd.groups@[g].b@[i].v + summed(
                |j: int| prod(bd.groups@[g].w@[i]@[j].v, value(cu, x[g * size + j])),
                size,
            )
        }),
{
    broadcast use group_value;

    let size = bd.group_size as int;
    let row = vals(bd.groups@[g].w@[i]@);
    let part = x.subrange(g * size, g * size + size);
    lemma_dot(cu, val(bd.groups@[g].b@[i]), row, part);
    let given = |j: int| prod(value(cu, row[j]), value(cu, part[j]));
    let wanted = |j: int| prod(bd.groups@[g].w@[i]@[j].v, value(cu, x[g * size + j]));
    assert forall|j: int| 0 <= j < size implies #[trigger] given(j) == wanted(j) by {
        assert(row[j] == val(bd.groups@[g].w@[i]@[j]));
    }
    lemma_summed_same(given, wanted, size);
}

/// Gradients go back past a block's norm and through it: what reaches the block before is what
/// came back through the norm and what went past it.
#[verifier::spinoff_prover]
pub proof fn law_gradients_pass_a_block_both_ways<A: Arith<Dual>>(
    cu: Curves,
    ops: A,
    n_blocks: int,
    layer: int,
    back: NormBack<Dual>,
    before: BackwardRun<Dual>,
    after: BackwardRun<Dual>,
    p: int,
    j: int,
)
    requires
        exact(cu, ops),
        block_norm_passed(ops, n_blocks, layer, back, before, after),
        0 <= p < back.d_x@.len(),
        0 <= j < back.d_x@[p]@.len(),
        j < before.d_hidden@[p]@.len(),
    ensures
        after.d_hidden@[p]@[j].v == back.d_x@[p]@[j].v + before.d_hidden@[p]@[j].v,
{
    broadcast use group_value;

    let es = row_sums(back.d_x@, before.d_hidden@);
    lemma_fits_all(cu, ops, es[p], after.d_hidden@[p]@);
    assert(after.d_hidden@[p]@[j].v == value(cu, es[p][j]));
    assert(vals(back.d_x@[p]@)[j] == val(back.d_x@[p]@[j]));
    assert(vals(before.d_hidden@[p]@)[j] == val(before.d_hidden@[p]@[j]));
}

/// How dispersed angles are and how closely they keep together make one.
#[verifier::spinoff_prover]
pub proof fn law_dispersion_and_closeness_make_one(
    cu: Curves,
    angles: Seq<Expr<Dual>>,
    phases: Seq<Vec<Dual>>,
    n: int,
    k: int,
)
    requires
        angles.len() > 0,
        0 <= k < n,
    ensures
        value(cu, dispersion_of(angles)) + value(cu, resultant_of(angles)) == 1real,
        value(cu, closeness_of(phases, n)[k]) + value(cu, dispersions_of(phases, n)[k]) == 1real,
{
    broadcast use group_value;

}

/// The contrast of a layer, times how well its random pairs agree, is how well its related ones
/// do.
#[verifier::spinoff_prover]
pub proof fn law_curve_contrasts_layers(
    cu: Curves,
    layers: Seq<Vec<Vec<Dual>>>,
    related: Seq<(usize, usize)>,
    random: Seq<(usize, usize)>,
    max_n: int,
    l: int,
)
    requires
        0 <= l < layers.len(),
    ensures
        ({
            let near = value(cu, pair_mean(pair_bests(layers[l]@, related, max_n)));
            let far = value(cu, pair_mean(pair_bests(layers[l]@, random, max_n)));
            let c = value(cu, curve_of(layers, related, random, max_n)[l]);
            &&& far >= 1real / 1000real ==> prod(c, far) == near
            &&& far < 1real / 1000real ==> prod(c, 1real / 1000real) == near
        }),
{
    broadcast use group_value;

    let near = value(cu, pair_mean(pair_bests(layers[l]@, related, max_n)));
    let far = value(cu, pair_mean(pair_bests(layers[l]@, random, max_n)));
    assert(value(cu, Expr::<Dual>::Ratio(1, 1000)) == 1real / 1000real);
    if far >= 1real / 1000real {
        lemma_quotient_undone(near, far);
    } else {
        lemma_quotient_undone(near, 1real / 1000real);
    }
}

/// A row of a histogram: its edges lie a width apart, the first one that many widths from the
/// least, and it is universal exactly where it begins below a half.
#[verifier::spinoff_prover]
pub proof fn law_histogram_rows_have_edges<A: Arith<Dual>>(
    cu: Curves,
    ops: A,
    low: Dual,
    width: Dual,
    bins: Seq<usize>,
    most: int,
    i: int,
    r: HistogramRow<Dual>,
)
    requires
        exact(cu, ops),
        0 <= i <= usize::MAX,
        row_fits(ops, low, width, bins, most, i, r),
    ensures
        r.lo.v - low.v == prod(i as real, width.v),
        r.hi.v - r.lo.v == width.v,
        r.universal <==> r.lo.v < 1real / 2real,
        r.count == bins[i],
{
    broadcast use group_value;

    let lo = plus(val(low), times(Expr::Count(i as usize), val(width)));
    lemma_fits(cu, ops, lo, r.lo);
    lemma_fits(cu, ops, plus(lo, val(width)), r.hi);
    let half = choose|half: Dual| #[trigger]
        test_is(ops, Test::Exceeds, half, r.lo, r.universal) && fits(
            ops,
            Expr::Ratio(1, 2),
            half,
        );
    lemma_fits(cu, ops, Expr::Ratio(1, 2), half);
    assert(value(cu, Expr::<Dual>::Ratio(1, 2)) == 1real / 2real);
    assert(r.universal == holds_of(Test::Exceeds, half.v, r.lo.v));
    assert((i as usize) as real == i as real);
}

/// What is transformed: the profile less its mean, so that the bands' entries add up to nothing,
/// and nothing beyond the bands.
#[verifier::spinoff_prover]
pub proof fn law_spectrum_input_is_centred(
    cu: Curves,
    states: Seq<Vec<Dual>>,
    n: int,
    len: int,
    mean: real,
)
    requires
        0 < n <= len,
        n <= usize::MAX,
        is_mean(mean, |k: int| value(cu, profile_of(states, n)[k]), n),
    ensures
        forall|i: int|
            0 <= i < n ==> value(cu, #[trigger] spectrum_input(states, n, len)[i]) == value(
                cu,
                profile_of(states, n)[i],
            ) - mean,
        forall|i: int|
            n <= i < len ==> value(cu, #[trigger] spectrum_input(states, n, len)[i]) == 0real,
        summed(|i: int| value(cu, spectrum_input(states, n, len)[i]), n) == 0real,
{
    broadcast use group_value;

    let prof = profile_of(states, n);
    lemma_mean_value(cu, prof);
    lemma_cancel(value(cu, mean_of(prof)), mean, n as real);
    let out = |i: int| value(cu, spectrum_input(states, n, len)[i]);
    let level = |i: int| mean;
    let given = |k: int| value(cu, prof[k]);
    lemma_summed_alike(level, mean, n);
    assert forall|i: int| 0 <= i < n implies #[trigger] given(i) == out(i) + level(i) by {}
    lemma_summed_both(given, out, level, n);
}

/// The tables of a fresh wave decoder hold the cosines and sines of the embeddings' phases.
#[verifier::spinoff_prover]
pub proof fn law_decoder_tables_hold_phases<A: Arith<Dual>>(
    cu: Curves,
    ops: A,
    s: WaveDecodeState<Dual>,
    wte: Seq<Vec<Dual>>,
    n: int,
    v: int,
    k: int,
)
    requires
        exact(cu, ops),
        frozen_tables(ops, s, wte, n),
        0 <= v < wte.len(),
        0 <= k < n,
        2 * n <= wte[v]@.len(),
    ensures
        s.token_cos@[v]@[k].v == (cu.cos)(phase_in(cu, |i: int| wte[v]@[i].v, k)),
        s.token_sin@[v]@[k].v == (cu.sin)(phase_in(cu, |i: int| wte[v]@[i].v, k)),
{
    broadcast use group_value;

    let ph = token_phases(wte, n, v);
    let cs = waves_of_phases(Unary::Cos, ph);
    let ss = waves_of_phases(Unary::Sin, ph);
    lemma_fits_all(cu, ops, cs, s.token_cos@[v]@);
    lemma_fits_all(cu, ops, ss, s.token_sin@[v]@);
    assert(s.token_cos@[v]@[k].v == value(cu, cs[k]));
    assert(s.token_sin@[v]@[k].v == value(cu, ss[k]));
    let xs = vals(wte[v]@);
    assert(xs[2 * k] == val(wte[v]@[2 * k]));
    assert(xs[2 * k + 1] == val(wte[v]@[2 * k + 1]));
}

/// A number that is drawn lies from minus one up to below one, and grows with the upper bits of the
/// state.
#[verifier::spinoff_prover]
pub proof fn law_draws_lie_within_one(cu: Curves, state: u64)
    ensures
        -1real <= value(cu, drawn_of::<Dual>(state)) < 1real,
        1073741824real * (value(cu, drawn_of::<Dual>(state)) + 1real) == (state as int
            / 8589934592) as real,
{
    broadcast use group_value;

    lemma_whole(cu, 2147483648);
    lemma_whole(cu, 2);
    let top = state as int / 8589934592;
    assert(0 <= top < 2147483648);
    assert((top as usize) as real == top as real);
    let q = prod(top as real, inverse(2147483648real));
    lemma_quotient_undone(top as real, 2147483648real);
    lemma_fraction(q, top as real);
    assert(top as real <= 2147483647real);
}

#[verifier::spinoff_prover]
proof fn lemma_fraction(q: real, top: real)
    requires
        prod(q, 2147483648real) == top,
    ensures
        1073741824real * prod(q, 2real) == top,
{
    reveal(prod);
}

/// The frequencies of a parity case rise to a half turn in equal steps.
#[verifier::spinoff_prover]
pub proof fn law_case_frequencies_rise_to_half_a_turn(cu: Curves, n: int, k: int)
    requires
        0 <= k < n <= usize::MAX,
    ensures
        prod(value(cu, rising_omega::<Dual>(n)[k]), n as real) == prod((k + 1) as real, cu.pi),
{
    broadcast use group_value;

    lemma_quotient_undone(prod((k + 1) as real, cu.pi), n as real);
    assert(((k + 1) as usize) as real == (k + 1) as real);
    assert((n as usize) as real == n as real);
}

} // verus!
