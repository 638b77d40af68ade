//! In exact arithmetic: what further calls give.

use vstd::prelude::*;
use crate::arith::Arith;
#[allow(unused_imports)]
use crate::arith::{
    Expr, Test, Unary, fits, one, over, test_is, times, total_of, un, val, vals, zero,
};
#[allow(unused_imports)]
use crate::attention::softmax_of;
#[allow(unused_imports)]
use crate::averages::{is_mean, lemma_cancel, lemma_mean_value, lemma_quotient_undone};
#[allow(unused_imports)]
use crate::correlation_exact::{lemma_squares, root_squares};
#[allow(unused_imports)]
use crate::exact::{Curves, Dual, holds_of, prod, value};
#[allow(unused_imports)]
use crate::forward_exact::{exp_undoes_ln, law_norm_layer_normalises, normalised};
#[allow(unused_imports)]
use crate::layers::{deviations_of, layer_norm, mean_of};
#[allow(unused_imports)]
use crate::likeness_exact::{alike, law_similarity_is_likeness};
#[allow(unused_imports)]
use crate::linear_exact::{lemma_summed_same, summed};
#[allow(unused_imports)]
use crate::loss::{batch_cosine_loss, cosine_of, cosines_of};
#[allow(unused_imports)]
use crate::phase_loss::{Tuning, coherences_of, native_loss, phase_native_loss, turned_of};
#[allow(unused_imports)]
use crate::phase_report::{Strength, strength};
#[allow(unused_imports)]
use crate::readings::{
    GradientReport, gradient_report, is_concentrated, magnitude_sums, magnitudes_of,
};
#[allow(unused_imports)]
use crate::ode_monitor::BandState;
#[allow(unused_imports)]
use crate::run_setup::{CorrectorStats, corrector_stats};
#[allow(unused_imports)]
use crate::score_exact::law_native_loss_is_the_targets_share;
#[allow(unused_imports)]
use crate::statistics::{
    centred_of, codeviation_of, correlation_of, cosine_similarity, exceeds_ratio, not_positive,
    pearson_correlation, similarity_of,
};
#[allow(unused_imports)]
use crate::sub_harmonic::decay_matches;
#[allow(unused_imports)]
use crate::training_exact::{lemma_norm_value, size, square_sum};
#[allow(unused_imports)]
use crate::values::{exact, group_value, lemma_fits, lemma_fits_all, lemma_scalar, lemma_total};
#[allow(unused_imports)]
use crate::wave_analysis::{
    DiscriminationResult, consistencies, grammar_coherence, pair_bests, semantic_discrimination,
    shared_len,
};
#[allow(unused_imports)]
use crate::analysis_exact::law_contrast_compares;

verus! {

/// The correlation of two series: times the roots of both deviations it is the sum of the products
/// of what the entries differ from their means by. There is none exactly where the series differ in
/// length, have fewer than two entries, or where one of them does not vary.
#[verifier::spinoff_prover]
pub proof fn law_correlation_measures_deviations<A: Arith<Dual>>(
    cu: Curves,
    ops: A,
    xs: &[Dual],
    ys: &[Dual],
    out: Option<Dual>,
    mx: real,
    my: real,
)
    requires
        exact(cu, ops),
        root_squares(cu),
        xs@.len() == ys@.len(),
        2 <= xs@.len() <= usize::MAX,
        call_ensures(pearson_correlation::<Dual, A>, (&ops, xs, ys), out),
        is_mean(mx, |k: int| xs@[k].v, xs@.len() as int),
        is_mean(my, |k: int| ys@[k].v, ys@.len() as int),
    ensures
        ({
            let n = xs@.len() as int;
            let vx = summed(|k: int| prod(xs@[k].v - mx, xs@[k].v - mx), n);
            let vy = summed(|k: int| prod(ys@[k].v - my, ys@[k].v - my), n);
            let shared = summed(|k: int| prod(xs@[k].v - mx, ys@[k].v - my), n);
            &&& out is None <==> vx <= 0real || vy <= 0real
            &&& out matches Some(r) ==> prod(r.v, prod((cu.root)(vx), (cu.root)(vy))) == shared
        }),
{
    broadcast use group_value;

    let n = xs@.len() as int;
    let (x, y) = (vals(xs@), vals(ys@));
    lemma_centred(cu, xs@, mx);
    lemma_centred(cu, ys@, my);
    let vx = summed(|k: int| prod(xs@[k].v - mx, xs@[k].v - mx), n);
    let vy = summed(|k: int| prod(ys@[k].v - my, ys@[k].v - my), n);
    let shared = summed(|k: int| prod(xs@[k].v - mx, ys@[k].v - my), n);
    lemma_codeviations(cu, xs@, xs@, mx, mx);
    lemma_codeviations(cu, ys@, ys@, my, my);
    lemma_codeviations(cu, xs@, ys@, mx, my);
    lemma_flat(cu, ops, codeviation_of(x, x));
    lemma_flat(cu, ops, codeviation_of(y, y));
    if let Some(r) = out {
        lemma_fits(cu, ops, correlation_of(x, y), r);
        lemma_roots_positive(cu, vx, vy);
        lemma_quotient_undone(shared, prod((cu.root)(vx), (cu.root)(vy)));
    }
}

#[verifier::spinoff_prover]
proof fn lemma_roots_positive(cu: Curves, a: real, b: real)
    requires
        root_squares(cu),
        a > 0real,
        b > 0real,
    ensures
        prod((cu.root)(a), (cu.root)(b)) != 0real,
{
    let (u, v) = ((cu.root)(a), (cu.root)(b));
    assert(prod(u, u) == a && prod(v, v) == b);
    reveal(prod);
    assert(u * v != 0real) by (nonlinear_arith)
        requires
            u * u > 0real,
            v * v > 0real,
    ;
}

#[verifier::spinoff_prover]
proof fn lemma_flat<A: Arith<Dual>>(cu: Curves, ops: A, e: Expr<Dual>)
    requires
        exact(cu, ops),
    ensures
        not_positive(ops, e, true) ==> value(cu, e) <= 0real,
        not_positive(ops, e, false) ==> value(cu, e) > 0real,
{
    broadcast use group_value;

    if not_positive(ops, e, true) {
        let (v, z) = choose|v: Dual, z: Dual| #[trigger]
            test_is(ops, Test::AtMost, v, z, true) && fits(ops, e, v) && fits(ops, zero(), z);
        lemma_fits(cu, ops, e, v);
        lemma_fits(cu, ops, zero(), z);
        assert(true == holds_of(Test::AtMost, v.v, z.v));
    }
    if not_positive(ops, e, false) {
        let (v, z) = choose|v: Dual, z: Dual| #[trigger]
            test_is(ops, Test::AtMost, v, z, false) && fits(ops, e, v) && fits(ops, zero(), z);
        lemma_fits(cu, ops, e, v);
        lemma_fits(cu, ops, zero(), z);
        assert(false == holds_of(Test::AtMost, v.v, z.v));
    }
}

#[verifier::spinoff_prover]
proof fn lemma_centred(cu: Curves, xs: Seq<Dual>, m: real)
    requires
        0 < xs.len() <= usize::MAX,
        is_mean(m, |k: int| xs[k].v, xs.len() as int),
    ensures
        forall|k: int|
            0 <= k < xs.len() ==> value(cu, #[trigger] centred_of(vals(xs))[k]) == xs[k].v - m,
{
    broadcast use group_value;

    let es = vals(xs);
    lemma_mean_value(cu, es);
    let f = |k: int| value(cu, es[k]);
    let g = |k: int| xs[k].v;
    assert forall|k: int| 0 <= k < xs.len() implies #[trigger] f(k) == g(k) by {
        assert(es[k] == val(xs[k]));
    }
    lemma_summed_same(f, g, xs.len() as int);
    lemma_cancel(value(cu, mean_of(es)), m, xs.len() as real);
    assert forall|k: int| 0 <= k < xs.len() implies value(
        cu,
        #[trigger] centred_of(vals(xs))[k],
    ) == xs[k].v - m by {
        assert(f(k) == g(k));
    }
}

#[verifier::spinoff_prover]
proof fn lemma_codeviations(cu: Curves, xs: Seq<Dual>, ys: Seq<Dual>, mx: real, my: real)
    requires
        xs.len() == ys.len(),
        forall|k: int|
            0 <= k < xs.len() ==> value(cu, #[trigger] centred_of(vals(xs))[k]) == xs[k].v - mx,
        forall|k: int|
            0 <= k < ys.len() ==> value(cu, #[trigger] centred_of(vals(ys))[k]) == ys[k].v - my,
    ensures
        value(cu, codeviation_of(vals(xs), vals(ys))) == summed(
            |k: int| prod(xs[k].v - mx, ys[k].v - my),
            xs.len() as int,
        ),
{
    let a = centred_of(vals(xs));
    let b = centred_of(vals(ys));
    lemma_scalar(cu, a, b);
    let f = |k: int| prod(value(cu, a[k]), value(cu, b[k]));
    let g = |k: int| prod(xs[k].v - mx, ys[k].v - my);
    assert forall|k: int| 0 <= k < xs.len() implies #[trigger] f(k) == g(k) by {
        assert(value(cu, a[k]) == xs[k].v - mx);
        assert(value(cu, b[k]) == ys[k].v - my);
    }
    lemma_summed_same(f, g, xs.len() as int);
}

/// The similarity of two vectors of one length is how alike they are.
#[verifier::spinoff_prover]
pub proof fn law_cosine_similarity_is_likeness<A: Arith<Dual>>(
    cu: Curves,
    ops: A,
    a: &[Dual],
    b: &[Dual],
    out: Dual,
)
    requires
        exact(cu, ops),
        a@.len() == b@.len(),
        call_ensures(cosine_similarity::<Dual, A>, (&ops, a, b), out),
    ensures
        alike(
            cu,
            |k: int| value(cu, vals(a@)[k]),
            |k: int| value(cu, vals(b@)[k]),
            a@.len() as int,
            out.v,
        ),
{
    lemma_fits(cu, ops, similarity_of(vals(a@), vals(b@)), out);
    law_similarity_is_likeness(cu, vals(a@), vals(b@));
}

/// A layer norm: every component is a normalised one, times its weight, and its bias.
#[verifier::spinoff_prover]
pub proof fn law_layer_norm_normalises<A: Arith<Dual>>(
    cu: Curves,
    ops: A,
    x: &[Dual],
    weight: &[Dual],
    bias: &[Dual],
    out: Vec<Dual>,
) -> (res: (spec_fn(int) -> real, real, real))
    requires
        exact(cu, ops),
        root_squares(cu),
        0 < x@.len() <= usize::MAX,
        call_ensures(layer_norm::<Dual, A>, (&ops, x, weight, bias), out),
    ensures
        out@.len() == x@.len(),
        normalised(|i: int| value(cu, vals(x@)[i]), x@.len() as int, res.0, res.1, res.2),
        forall|i: int|
            0 <= i < x@.len() ==> (#[trigger] out@[i]).v == prod((res.0)(i), weight@[i].v)
                + bias@[i].v,
{
    let es = crate::layers::norm_of(vals(x@), weight@, bias@);
    lemma_fits_all(cu, ops, es, out@);
    let res = law_norm_layer_normalises(cu, vals(x@), weight@, bias@);
    assert forall|i: int| 0 <= i < x@.len() implies (#[trigger] out@[i]).v == prod(
        (res.0)(i),
        weight@[i].v,
    ) + bias@[i].v by {
        assert(out@[i].v == value(cu, es[i]));
    }
    res
}

/// The loss of a state against the embeddings: the exponential of the negated loss is the target's
/// share, or a ten-billionth where the share is less.
#[verifier::spinoff_prover]
pub proof fn law_phase_native_loss_is_the_share<A: Arith<Dual>>(
    cu: Curves,
    ops: A,
    hidden: &[Dual],
    embeddings: Vec<Vec<Dual>>,
    target: usize,
    n: usize,
    temperature: Dual,
    angles: &[Dual],
    res: (Dual, Vec<Dual>, Vec<Dual>),
)
    requires
        exact(cu, ops),
        exp_undoes_ln(cu),
        temperature.v != 0real,
        0 < n <= angles@.len(),
        2 * n <= usize::MAX,
        (cu.root)((2 * n) as real) != 0real,
        2 * n <= hidden@.len(),
        target < embeddings@.len(),
        2 * n <= embeddings@[target as int]@.len(),
        call_ensures(
            phase_native_loss::<Dual, A>,
            (&ops, hidden, &embeddings, target, n, temperature, angles),
            res,
        ),
    ensures
        ({
            let t = Tuning { temperature: val(temperature), scaled: true };
            let turned = turned_of(vals(hidden@), vals(angles@.take(n as int)));
            let scores = coherences_of(turned, embeddings@, t);
            let share = value(cu, softmax_of(scores)[target as int]);
            let least = 1real / 10000000000real;
            (cu.exp)(-res.0.v) == if share >= least {
                share
            } else {
                least
            }
        }),
{
    broadcast use group_value;

    let t = Tuning { temperature: val(temperature), scaled: true };
    let a = angles@.take(n as int);
    let floor = Expr::<Dual>::Ratio(1, 10000000000);
    assert(value(cu, floor) == 1real / 10000000000real);
    lemma_fits(
        cu,
        ops,
        native_loss(hidden@, embeddings@, target as int, t, a, floor),
        res.0,
    );
    assert(2 * a.len() == 2 * n);
    law_native_loss_is_the_targets_share(
        cu,
        hidden@,
        embeddings@,
        target as int,
        t,
        a,
        floor,
        target as int,
    );
}

/// The loss of a batch by direction is the mean of the positions' losses.
#[verifier::spinoff_prover]
pub proof fn law_batch_cosine_loss_averages<A: Arith<Dual>>(
    cu: Curves,
    ops: A,
    predictions: Vec<Vec<Dual>>,
    targets: Vec<Vec<Dual>>,
    res: (Dual, Vec<Vec<Dual>>),
)
    requires
        exact(cu, ops),
        predictions@.len() == targets@.len(),
        0 < predictions@.len() <= usize::MAX,
        call_ensures(batch_cosine_loss::<Dual, A>, (&ops, &predictions, &targets), res),
    ensures
        is_mean(
            res.0.v,
            |p: int| value(cu, cosine_of(vals(predictions@[p]@), vals(targets@[p]@))),
            predictions@.len() as int,
        ),
{
    let es = cosines_of(predictions@, targets@);
    lemma_fits(
        cu,
        ops,
        over(total_of(es), Expr::Count(predictions@.len() as usize)),
        res.0,
    );
    lemma_mean_value(cu, es);
    lemma_summed_same(
        |k: int| value(cu, es[k]),
        |p: int| value(cu, cosine_of(vals(predictions@[p]@), vals(targets@[p]@))),
        predictions@.len() as int,
    );
}

/// A report on gradients: the squares of the two lengths are the sums of the squares before the
/// head and of the head.
#[verifier::spinoff_prover]
pub proof fn law_gradient_report_measures_parts<A: Arith<Dual>>(
    cu: Curves,
    ops: A,
    grads: Vec<Dual>,
    n: usize,
    vocab: usize,
    width: usize,
    layers: usize,
    norm: Dual,
    out: GradientReport<Dual>,
)
    requires
        exact(cu, ops),
        root_squares(cu),
        vocab * width <= n <= grads@.len(),
        call_ensures(
            gradient_report::<Dual, A>,
            (&ops, &grads, n, vocab, width, layers, norm),
            out,
        ),
    ensures
        prod(out.model_gn.v, out.model_gn.v) == square_sum(
            grads@.subrange(0, n - vocab * width),
        ),
        prod(out.head_gn.v, out.head_gn.v) == square_sum(
            grads@.subrange(n - vocab * width, grads@.len() as int),
        ),
{
    let start = n - vocab * width;
    let model = grads@.subrange(0, start);
    let head = grads@.subrange(start, grads@.len() as int);
    lemma_fits(cu, ops, crate::loss::norm_of(vals(model)), out.model_gn);
    lemma_fits(cu, ops, crate::loss::norm_of(vals(head)), out.head_gn);
    lemma_norm_value(cu, model);
    lemma_norm_value(cu, head);
    lemma_squares(
        |i: int| model[i].v,
        |i: int| prod(model[i].v, model[i].v),
        model.len() as int,
    );
    lemma_squares(|i: int| head[i].v, |i: int| prod(head[i].v, head[i].v), head.len() as int);
}

/// The sum and the mean of the bands' magnitudes.
#[verifier::spinoff_prover]
pub proof fn law_magnitudes_are_summed<A: Arith<Dual>>(
    cu: Curves,
    ops: A,
    bands: Vec<BandState<Dual>>,
    out: (Dual, Dual),
)
    requires
        exact(cu, ops),
        0 < bands@.len() <= usize::MAX,
        call_ensures(magnitude_sums::<Dual, A>, (&ops, &bands), out),
    ensures
        out.0.v == summed(|k: int| bands@[k].mag.v, bands@.len() as int),
        is_mean(out.1.v, |k: int| bands@[k].mag.v, bands@.len() as int),
{
    broadcast use group_value;

    let es = vals(magnitudes_of(bands@));
    let n = bands@.len() as int;
    lemma_fits(cu, ops, total_of(es), out.0);
    lemma_fits(cu, ops, mean_of(es), out.1);
    lemma_total(cu, es);
    lemma_mean_value(cu, es);
    let f = |k: int| value(cu, es[k]);
    let g = |k: int| bands@[k].mag.v;
    assert forall|k: int| 0 <= k < n implies #[trigger] f(k) == g(k) by {
        assert(es[k] == val(magnitudes_of(bands@)[k]));
    }
    lemma_summed_same(f, g, n);
}

/// The statistics of the corrector's angles: their mean, and their deviation from it; there are
/// none without angles.
#[verifier::spinoff_prover]
pub proof fn law_corrector_statistics<A: Arith<Dual>>(
    cu: Curves,
    ops: A,
    angles: &[Dual],
    out: Option<CorrectorStats<Dual>>,
)
    requires
        exact(cu, ops),
        root_squares(cu),
        angles@.len() <= usize::MAX,
        call_ensures(corrector_stats::<Dual, A>, (&ops, angles), out),
    ensures
        out is None <==> angles@.len() == 0,
        out matches Some(s) ==> is_mean(
            s.mean.v,
            |k: int| angles@[k].v,
            angles@.len() as int,
        ),
        out matches Some(s) ==> s.std.v == (cu.root)(
            value(cu, mean_of(deviations_of(vals(angles@)))),
        ),
{
    broadcast use group_value;

    if let Some(s) = out {
        let es = vals(angles@);
        lemma_fits(cu, ops, mean_of(es), s.mean);
        lemma_fits(cu, ops, un(Unary::Root, mean_of(deviations_of(es))), s.std);
        lemma_mean_value(cu, es);
        let f = |k: int| value(cu, es[k]);
        let g = |k: int| angles@[k].v;
        assert forall|k: int| 0 <= k < angles@.len() implies #[trigger] f(k) == g(k) by {
            assert(es[k] == val(angles@[k]));
        }
        lemma_summed_same(f, g, angles@.len() as int);
    }
}

/// How alike two sentences agree: times the number of pairs it is the sum over the corresponding
/// pairs; nothing without pairs.
#[verifier::spinoff_prover]
pub proof fn law_grammar_coherence_averages<A: Arith<Dual>>(
    cu: Curves,
    ops: A,
    phases_a: Vec<Vec<Dual>>,
    phases_b: Vec<Vec<Dual>>,
    pairs_a: &[(usize, usize)],
    pairs_b: &[(usize, usize)],
    max_n: usize,
    out: Dual,
)
    requires
        exact(cu, ops),
        pairs_a@.len() <= usize::MAX,
        call_ensures(
            grammar_coherence::<Dual, A>,
            (&ops, &phases_a, &phases_b, pairs_a, pairs_b, max_n),
            out,
        ),
    ensures
        pairs_a@.len() == 0 ==> out.v == 0real,
        pairs_a@.len() > 0 ==> prod(out.v, pairs_a@.len() as real) == summed(
            |i: int|
                value(
                    cu,
                    consistencies(phases_a@, phases_b@, pairs_a@, pairs_b@, max_n as int)[i],
                ),
            shared_len(pairs_a@, pairs_b@),
        ),
{
    broadcast use group_value;

    let es = consistencies(phases_a@, phases_b@, pairs_a@, pairs_b@, max_n as int);
    if pairs_a@.len() == 0 {
        lemma_fits(cu, ops, zero(), out);
    } else {
        lemma_fits(
            cu,
            ops,
            over(total_of(es), Expr::Count(pairs_a@.len() as usize)),
            out,
        );
        lemma_total(cu, es);
        lemma_quotient_undone(
            summed(|i: int| value(cu, es[i]), es.len() as int),
            pairs_a@.len() as real,
        );
    }
}

/// Telling related tokens from random ones: the ratio times the mean agreement of the random pairs
/// is that of the related ones, and exceeds one exactly where these agree the better.
#[verifier::spinoff_prover]
pub proof fn law_semantic_discrimination_compares<A: Arith<Dual>>(
    cu: Curves,
    ops: A,
    phases: Vec<Vec<Dual>>,
    related: &[(usize, usize)],
    random: &[(usize, usize)],
    max_n: usize,
    out: DiscriminationResult<Dual>,
)
    requires
        exact(cu, ops),
        related@.len() <= usize::MAX,
        random@.len() <= usize::MAX,
        call_ensures(
            semantic_discrimination::<Dual, A>,
            (&ops, &phases, related, random, max_n),
            out,
        ),
        out.random_mean.v >= 1real / 1000real,
    ensures
        is_mean(
            out.related_mean.v,
            |k: int| value(cu, pair_bests(phases@, related@, max_n as int)[k]),
            related@.len() as int,
        ),
        is_mean(
            out.random_mean.v,
            |k: int| value(cu, pair_bests(phases@, random@, max_n as int)[k]),
            random@.len() as int,
        ),
        prod(out.ratio.v, out.random_mean.v) == out.related_mean.v,
        out.ratio.v > 1real <==> out.related_mean.v > out.random_mean.v,
{
    law_contrast_compares(
        cu,
        ops,
        pair_bests(phases@, related@, max_n as int),
        pair_bests(phases@, random@, max_n as int),
        out,
    );
}

/// Words for readings: an agreement is strong above seven tenths, moderate above three; entropy is
/// concentrated below seven tenths; and a coupling decays as expected where the first distance has
/// more than one and a half times the third.
#[verifier::spinoff_prover]
pub proof fn law_words_follow_limits<A: Arith<Dual>>(
    cu: Curves,
    ops: A,
    mean: Dual,
    s: Strength,
    entropy: Dual,
    tight: bool,
    decay: Vec<Dual>,
    expected: bool,
)
    requires
        exact(cu, ops),
        call_ensures(strength::<Dual, A>, (&ops, mean), s),
        call_ensures(is_concentrated::<Dual, A>, (&ops, entropy), tight),
        call_ensures(decay_matches::<Dual, A>, (&ops, &decay), expected),
    ensures
        s == Strength::Strong <==> size(mean.v) > 7real / 10real,
        s == Strength::Weak <==> size(mean.v) <= 3real / 10real,
        tight <==> entropy.v < 7real / 10real,
        expected <==> decay@.len() >= 3 && 2real * decay@[0].v > 3real * decay@[2].v,
{
    broadcast use group_value;

    assert(value(cu, Expr::<Dual>::Ratio(7, 10)) == 7real / 10real);
    assert(value(cu, Expr::<Dual>::Ratio(3, 10)) == 3real / 10real);
    assert(value(cu, Expr::<Dual>::Ratio(3, 2)) == 3real / 2real);
    let (got, strong) = choose|size: Dual, strong: bool|
        {
            &&& #[trigger] exceeds_ratio(ops, size, 7, 10, strong)
            &&& fits(ops, un(Unary::Abs, val(mean)), size)
            &&& strong ==> s == Strength::Strong
            &&& !strong ==> (s == Strength::Moderate && exceeds_ratio(ops, size, 3, 10, true))
                || (s == Strength::Weak && exceeds_ratio(ops, size, 3, 10, false))
        };
    lemma_fits(cu, ops, un(Unary::Abs, val(mean)), got);
    lemma_exceeds(cu, ops, got, 7, 10);
    lemma_exceeds(cu, ops, got, 3, 10);
    let limit = choose|limit: Dual| #[trigger]
        test_is(ops, Test::Exceeds, limit, entropy, tight) && fits(
            ops,
            Expr::Ratio(7, 10),
            limit,
        );
    lemma_fits(cu, ops, Expr::Ratio(7, 10), limit);
    assert(tight == holds_of(Test::Exceeds, limit.v, entropy.v));
    if decay@.len() >= 3 {
        let most = choose|limit: Dual| #[trigger]
            test_is(ops, Test::Exceeds, decay@[0], limit, expected) && fits(
                ops,
                times(val(decay@[2]), Expr::Ratio(3, 2)),
                limit,
            );
        lemma_fits(cu, ops, times(val(decay@[2]), Expr::Ratio(3, 2)), most);
        assert(expected == holds_of(Test::Exceeds, decay@[0].v, most.v));
        lemma_half_more(decay@[2].v);
    }
}

#[verifier::spinoff_prover]
proof fn lemma_half_more(x: real)
    ensures
        2real * prod(x, 3real / 2real) == 3real * x,
{
    reveal(prod);
}

#[verifier::spinoff_prover]
proof fn lemma_exceeds<A: Arith<Dual>>(cu: Curves, ops: A, x: Dual, num: u64, den: u64)
    requires
        exact(cu, ops),
    ensures
        exceeds_ratio(ops, x, num, den, true) ==> x.v > num as real / den as real,
        exceeds_ratio(ops, x, num, den, false) ==> x.v <= num as real / den as real,
{
    broadcast use group_value;

    if exceeds_ratio(ops, x, num, den, true) {
        let limit = choose|limit: Dual| #[trigger]
            test_is(ops, Test::Exceeds, x, limit, true) && fits(
                ops,
                Expr::Ratio(num, den),
                limit,
            );
        lemma_fits(cu, ops, Expr::Ratio(num, den), limit);
        assert(true == holds_of(Test::Exceeds, x.v, limit.v));
    }
    if exceeds_ratio(ops, x, num, den, false) {
        let limit = choose|limit: Dual| #[trigger]
            test_is(ops, Test::Exceeds, x, limit, false) && fits(
                ops,
                Expr::Ratio(num, den),
                limit,
            );
        lemma_fits(cu, ops, Expr::Ratio(num, den), limit);
        assert(false == holds_of(Test::Exceeds, x.v, limit.v));
    }
}

} // verus!
