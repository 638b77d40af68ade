//! In exact arithmetic: the logits of a position, and the losses that they have.

use vstd::prelude::*;
#[allow(unused_imports)]
use crate::arith::{Expr, one, times, val, vals};
#[allow(unused_imports)]
use crate::attention::softmax_of;
#[allow(unused_imports)]
use crate::averages::{
    is_mean, lemma_by_one, lemma_length_value, lemma_mean_value, lemma_quotient_undone,
};
#[allow(unused_imports)]
use crate::coherence::{mags_of, phases_of};
#[allow(unused_imports)]
use crate::decode_exact::turned_by;
#[allow(unused_imports)]
use crate::decoder::decoded;
#[allow(unused_imports)]
use crate::exact::{Curves, Dual, inverse, lemma_shared, lemma_three, prod, value};
#[allow(unused_imports)]
use crate::forward_exact::exp_undoes_ln;
#[allow(unused_imports)]
use crate::layers::scores_of;
#[allow(unused_imports)]
use crate::likeness_exact::length_of;
#[allow(unused_imports)]
use crate::linear_exact::{lemma_summed_same, summed};
#[allow(unused_imports)]
use crate::loss::{cosine_of, entropies_of, entropy_of, mean_entropy, norm_of};
#[allow(unused_imports)]
use crate::phase_loss::{Tuning, coherences_of, native_loss, turned_of};
#[allow(unused_imports)]
use crate::values::{group_value, lemma_scalar, lemma_total};
#[allow(unused_imports)]
use crate::wave_model::WavePacketModel;
#[allow(unused_imports)]
use crate::wave_decode::WaveDecodeState;
#[allow(unused_imports)]
use crate::wave_score::{band_scores, reading_of, wave_logits};

verus! {

/// The length of a point, times the cosine and the sine of its angle, are its two coordinates.
pub open spec fn polar(cu: Curves) -> bool {
    forall|y: real, x: real|
        {
            let a = #[trigger] (cu.angle)(y, x);
            let m = (cu.root)(prod(x, x) + prod(y, y));
            prod(m, (cu.cos)(a)) == x && prod(m, (cu.sin)(a)) == y
        }
}

#[verifier::spinoff_prover]
proof fn lemma_band_score(w: real, m: real, c: real, s: real, tc: real, ts: real)
    ensures
        prod(prod(prod(w, m), c), tc) + prod(prod(prod(w, m), s), ts) == prod(
            w,
            prod(prod(m, c), tc) + prod(prod(m, s), ts),
        ),
{
    lemma_three(w, m, c);
    lemma_three(w, m, s);
    lemma_three(w, prod(m, c), tc);
    lemma_three(w, prod(m, s), ts);
    lemma_shared(w, prod(prod(m, c), tc), prod(prod(m, s), ts));
}

/// The wave decoder scores a token by the products of the state's bands with the token's waves,
/// each times the band's weight, all times the temperature.
#[verifier::spinoff_prover]
pub proof fn law_wave_logits_weigh_bands(
    cu: Curves,
    x: Seq<Expr<Dual>>,
    s: WaveDecodeState<Dual>,
    v: int,
)
    requires
        polar(cu),
        0 <= v < s.vocab_size,
        s.band_weights@.len() == s.n_bands,
        2 * s.n_bands <= x.len(),
    ensures
        value(cu, wave_logits(x, s)[v]) == prod(
            summed(
                |k: int|
                    prod(
                        s.band_weights@[k].v,
                        prod(value(cu, x[2 * k]), s.token_cos@[v]@[k].v) + prod(
                            value(cu, x[2 * k + 1]),
                            s.token_sin@[v]@[k].v,
                        ),
                    ),
                s.n_bands as int,
            ),
            s.temperature.v,
        ),
{
    broadcast use group_value;

    let n = s.n_bands as int;
    let list = band_scores(
        reading_of(x, n, false),
        s.band_weights@,
        s.token_cos@[v]@,
        s.token_sin@[v]@,
    );
    lemma_total(cu, list);
    let given = |k: int| value(cu, list[k]);
    let wanted = |k: int|
        prod(
            s.band_weights@[k].v,
            prod(value(cu, x[2 * k]), s.token_cos@[v]@[k].v) + prod(
                value(cu, x[2 * k + 1]),
                s.token_sin@[v]@[k].v,
            ),
        );
    assert forall|k: int| 0 <= k < n implies #[trigger] given(k) == wanted(k) by {
        let (p, q) = (value(cu, x[2 * k]), value(cu, x[2 * k + 1]));
        let a = (cu.angle)(q, p);
        let m = (cu.root)(prod(p, p) + prod(q, q));
        assert(value(cu, phases_of(x, n)[k]) == a);
        assert(value(cu, mags_of(x, n)[k]) == m);
        lemma_band_score(
            s.band_weights@[k].v,
            m,
            (cu.cos)(a),
            (cu.sin)(a),
            s.token_cos@[v]@[k].v,
            s.token_sin@[v]@[k].v,
        );
    }
    lemma_summed_same(given, wanted, n);
}

#[verifier::spinoff_prover]
proof fn lemma_row_score(cu: Curves, w: Seq<Vec<Dual>>, x: Seq<Expr<Dual>>, v: int)
    requires
        0 <= v < w.len(),
        w[v]@.len() == x.len(),
    ensures
        value(cu, scores_of(w, x)[v]) == summed(
            |j: int| prod(w[v]@[j].v, value(cu, x[j])),
            x.len() as int,
        ),
{
    broadcast use group_value;

    let row = vals(w[v]@);
    lemma_scalar(cu, row, x);
    let given = |k: int| prod(value(cu, row[k]), value(cu, x[k]));
    let wanted = |j: int| prod(w[v]@[j].v, value(cu, x[j]));
    assert forall|j: int| 0 <= j < x.len() implies #[trigger] given(j) == wanted(j) by {
        assert(row[j] == val(w[v]@[j]));
    }
    lemma_summed_same(given, wanted, x.len() as int);
}

/// A model's logits come from the first decoder that it has: the phases' against the embeddings,
/// the wave decoder, the bottleneck, the tied embeddings times their temperature, or its own
/// matrix.
#[verifier::spinoff_prover]
pub proof fn law_logits_come_from_one_decoder(
    cu: Curves,
    m: WavePacketModel<Dual>,
    n_bands: int,
    tied: bool,
    x: Seq<Expr<Dual>>,
    v: int,
)
    requires
        !m.phase_native,
        m.wd_state is None,
        m.lm_rank > 0 ==> {
            &&& 0 <= v < m.lm_up@.len()
            &&& m.lm_up@[v]@.len() == m.lm_down@.len()
            &&& forall|r: int|
                0 <= r < m.lm_down@.len() ==> (#[trigger] m.lm_down@[r])@.len() == x.len()
        },
        m.lm_rank == 0 && tied ==> 0 <= v < m.wte@.len() && m.wte@[v]@.len() == x.len(),
        m.lm_rank == 0 && !tied ==> 0 <= v < m.lm_head@.len() && m.lm_head@[v]@.len() == x.len(),
    ensures
        value(cu, decoded(m, n_bands, tied, x)[v]) == if m.lm_rank > 0 {
            summed(
                |r: int|
                    prod(
                        m.lm_up@[v]@[r].v,
                        summed(
                            |j: int| prod(m.lm_down@[r]@[j].v, value(cu, x[j])),
                            x.len() as int,
                        ),
                    ),
                m.lm_down@.len() as int,
            )
        } else if tied {
            prod(
                summed(|j: int| prod(m.wte@[v]@[j].v, value(cu, x[j])), x.len() as int),
                m.tied_temperature.v,
            )
        } else {
            summed(|j: int| prod(m.lm_head@[v]@[j].v, value(cu, x[j])), x.len() as int)
        },
{
    broadcast use group_value;

    if m.lm_rank > 0 {
        let inner = scores_of(m.lm_down@, x);
        lemma_row_score(cu, m.lm_up@, inner, v);
        let given = |j: int| prod(m.lm_up@[v]@[j].v, value(cu, inner[j]));
        let wanted = |r: int|
            prod(
                m.lm_up@[v]@[r].v,
                summed(|j: int| prod(m.lm_down@[r]@[j].v, value(cu, x[j])), x.len() as int),
            );
        assert forall|r: int| 0 <= r < inner.len() implies #[trigger] given(r) == wanted(r) by {
            assert(m.lm_down@[r]@.len() == x.len());
            lemma_row_score(cu, m.lm_down@, x, r);
        }
        lemma_summed_same(given, wanted, inner.len() as int);
    } else if tied {
        lemma_row_score(cu, m.wte@, x, v);
    } else {
        lemma_row_score(cu, m.lm_head@, x, v);
        lemma_by_one(value(cu, scores_of(m.lm_head@, x)[v]));
    }
}

/// A model that compares phases scores a token by the product of its embedding with the state,
/// whose bands are turned; one with a wave decoder by that.
#[verifier::spinoff_prover]
pub proof fn law_phase_logits_multiply(
    cu: Curves,
    m: WavePacketModel<Dual>,
    n_bands: int,
    tied: bool,
    x: Seq<Expr<Dual>>,
    v: int,
)
    requires
        0 <= n_bands <= m.output_corrector@.len(),
        2 * n_bands <= x.len(),
        0 <= v < m.wte@.len(),
        2 * n_bands <= m.wte@[v]@.len(),
    ensures
        m.phase_native ==> value(cu, decoded(m, n_bands, tied, x)[v]) == summed(
            |i: int|
                prod(
                    turned_by(
                        cu,
                        |i: int| value(cu, x[i]),
                        |k: int| m.output_corrector@[k].v,
                    )(i),
                    m.wte@[v]@[i].v,
                ),
            2 * n_bands,
        ),
        !m.phase_native && m.wd_state is Some ==> decoded(m, n_bands, tied, x) == wave_logits(
            x,
            m.wd_state->0,
        ),
{
    broadcast use group_value;

    if m.phase_native {
        let angles = vals(m.output_corrector@.take(n_bands));
        let y = turned_of(x, angles);
        let row = vals(m.wte@[v]@);
        lemma_scalar(cu, y, row);
        let given = |k: int| prod(value(cu, y[k]), value(cu, row[k]));
        let turned = turned_by(cu, |i: int| value(cu, x[i]), |k: int| m.output_corrector@[k].v);
        let wanted = |i: int|
            prod(
                turned_by(
                    cu,
                    |i: int| value(cu, x[i]),
                    |k: int| m.output_corrector@[k].v,
                )(i),
                m.wte@[v]@[i].v,
            );
        assert forall|i: int| 0 <= i < 2 * n_bands implies #[trigger] given(i) == wanted(i) by {
            let k = i / 2;
            assert(angles[k] == val(m.output_corrector@[k]));
            assert(row[i] == val(m.wte@[v]@[i]));
            if i % 2 == 0 {
                assert(i == 2 * k);
            } else {
                assert(i == 2 * k + 1);
            }
            assert(value(cu, y[i]) == turned(i));
        }
        lemma_summed_same(given, wanted, 2 * n_bands);
    }
}

/// The exponential of a position's negated loss is the share that the softmax gives its target.
#[verifier::spinoff_prover]
pub proof fn law_entropy_is_the_targets_share(cu: Curves, logits: Seq<Expr<Dual>>, target: int)
    requires
        exp_undoes_ln(cu),
        value(cu, softmax_of(logits)[target]) > 0real,
    ensures
        (cu.exp)(-value(cu, entropy_of(logits, target))) == value(cu, softmax_of(logits)[target]),
{
    broadcast use group_value;

    let share = value(cu, softmax_of(logits)[target]);
    assert(-value(cu, entropy_of(logits, target)) == (cu.ln)(share));
}

/// The loss of a sequence is the mean of its positions' losses.
#[verifier::spinoff_prover]
pub proof fn law_mean_loss_averages_positions(
    cu: Curves,
    logits: Seq<Vec<Dual>>,
    targets: Seq<usize>,
)
    requires
        0 < logits.len() <= usize::MAX,
    ensures
        is_mean(
            value(cu, mean_entropy(logits, targets)),
            |p: int| value(cu, entropy_of(vals(logits[p]@), targets[p] as int)),
            logits.len() as int,
        ),
{
    let es = entropies_of(logits, targets);
    lemma_mean_value(cu, es);
    lemma_summed_same(
        |k: int| value(cu, es[k]),
        |p: int| value(cu, entropy_of(vals(logits[p]@), targets[p] as int)),
        logits.len() as int,
    );
}

/// What the cosine loss leaves of one, times both lengths, is the product of the vectors; it is one
/// where a vector is too short to have a direction.
#[verifier::spinoff_prover]
pub proof fn law_cosine_loss_measures_direction(
    cu: Curves,
    pred: Seq<Expr<Dual>>,
    target: Seq<Expr<Dual>>,
)
    requires
        pred.len() == target.len(),
    ensures
        ({
            let n = pred.len() as int;
            let a = length_of(cu, |k: int| value(cu, pred[k]), n);
            let b = length_of(cu, |k: int| value(cu, target[k]), n);
            let least = 1real / 100000000real;
            let loss = value(cu, cosine_of(pred, target));
            if a < least || b < least {
                loss == 1real
            } else {
                prod(1real - loss, prod(a, b)) == summed(
                    |k: int| prod(value(cu, pred[k]), value(cu, target[k])),
                    n,
                )
            }
        }),
{
    broadcast use group_value;

    let n = pred.len() as int;
    let x = |k: int| value(cu, pred[k]);
    let y = |k: int| value(cu, target[k]);
    let a = length_of(cu, x, n);
    let b = length_of(cu, y, n);
    lemma_length_value(cu, pred);
    lemma_length_value(cu, target);
    lemma_summed_same(
        |k: int| prod(value(cu, pred[k]), value(cu, pred[k])),
        |k: int| prod(x(k), x(k)),
        n,
    );
    lemma_summed_same(
        |k: int| prod(value(cu, target[k]), value(cu, target[k])),
        |k: int| prod(y(k), y(k)),
        n,
    );
    assert(value(cu, norm_of(pred)) == a);
    assert(value(cu, norm_of(target)) == b);
    lemma_scalar(cu, pred, target);
    assert(value(cu, Expr::<Dual>::Ratio(1, 100000000)) == 1real / 100000000real);
    let least = 1real / 100000000real;
    if a >= least && b >= least {
        lemma_both_positive(a, b);
        lemma_quotient_undone(
            summed(|k: int| prod(value(cu, pred[k]), value(cu, target[k])), n),
            prod(a, b),
        );
    }
}

#[verifier::spinoff_prover]
proof fn lemma_both_positive(a: real, b: real)
    requires
        a > 0real,
        b > 0real,
    ensures
        prod(a, b) > 0real,
{
    reveal(prod);
    assert(a * b > 0real) by (nonlinear_arith)
        requires
            a > 0real,
            b > 0real,
    ;
}

/// The loss of a state against the embeddings: the exponential of the negated loss is the target's
/// share, or the floor where the share is less; and every score, times the temperature (and, where
/// it is scaled, the root of the width), is the product of the turned state with an embedding.
#[verifier::spinoff_prover]
pub proof fn law_native_loss_is_the_targets_share(
    cu: Curves,
    hidden: Seq<Dual>,
    embeddings: Seq<Vec<Dual>>,
    target: int,
    t: Tuning<Dual>,
    angles: Seq<Dual>,
    floor: Expr<Dual>,
    v: int,
)
    requires
        exp_undoes_ln(cu),
        value(cu, floor) > 0real,
        value(cu, t.temperature) != 0real,
        0 < angles.len(),
        2 * angles.len() <= usize::MAX,
        (cu.root)((2 * angles.len()) as real) != 0real,
        2 * angles.len() <= hidden.len(),
        0 <= v < embeddings.len(),
        2 * angles.len() <= embeddings[v]@.len(),
    ensures
        ({
            let turned = turned_of(vals(hidden), vals(angles));
            let scores = coherences_of(turned, embeddings, t);
            let share = value(cu, softmax_of(scores)[target]);
            let product = summed(
                |i: int| prod(value(cu, turned[i]), embeddings[v]@[i].v),
                2 * angles.len() as int,
            );
            let unit = if t.scaled {
                (cu.root)((2 * angles.len()) as real)
            } else {
                1real
            };
            &&& (cu.exp)(
                -value(cu, native_loss(hidden, embeddings, target, t, angles, floor)),
            ) == if share >= value(cu, floor) {
                share
            } else {
                value(cu, floor)
            }
            &&& prod(prod(value(cu, scores[v]), value(cu, t.temperature)), unit) == product
        }),
{
    broadcast use group_value;

    let turned = turned_of(vals(hidden), vals(angles));
    let scores = coherences_of(turned, embeddings, t);
    let row = vals(embeddings[v]@);
    lemma_scalar(cu, turned, row);
    let given = |k: int| prod(value(cu, turned[k]), value(cu, row[k]));
    let wanted = |i: int| prod(value(cu, turned[i]), embeddings[v]@[i].v);
    assert forall|i: int| 0 <= i < turned.len() implies #[trigger] given(i) == wanted(i) by {
        assert(row[i] == val(embeddings[v]@[i]));
    }
    lemma_summed_same(given, wanted, turned.len() as int);
    let product = summed(wanted, turned.len() as int);
    let heat = value(cu, t.temperature);
    let w = (cu.root)((2 * angles.len()) as real);
    assert(turned.len() == 2 * angles.len());
    assert((turned.len() as usize) as real == (2 * angles.len()) as real);
    if t.scaled {
        lemma_by_one(inverse(w));
        lemma_quotient_undone(prod(product, inverse(w)), heat);
        lemma_quotient_undone(product, w);
    } else {
        lemma_quotient_undone(product, heat);
        lemma_by_one(product);
    }
}

} // verus!
