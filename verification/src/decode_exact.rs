//! In exact arithmetic: decoders that score tokens by how well phases agree.

use vstd::prelude::*;
use crate::arith::Arith;
#[allow(unused_imports)]
use crate::arith::{Expr, Test, Unary, dot_of, fits_all, minus, test_is, top_of, un, vals, zero};
#[allow(unused_imports)]
use crate::averages::{
    is_mean, is_weighted_mean, lemma_by_one, lemma_cancel, lemma_mean_between,
    lemma_quotient_undone, lemma_summed_alike, lemma_weighted_mean_between,
};
#[allow(unused_imports)]
use crate::coherence::{
    DecodeMode, TokenCoherence, agreement_of, agreements_of, coherences_of, decode_of,
    harmonic_scores, harmonics, last_top, logits_of, mags_of, phase_coherence, phases_of,
    plain_scores, read_by_phase, token_score,
};
#[allow(unused_imports)]
use crate::correlation_exact::{lemma_square, root_squares};
#[allow(unused_imports)]
use crate::exact::{Curves, Dual, holds_of, lemma_nothing, prod, value};
#[allow(unused_imports)]
use crate::linear_exact::{lemma_summed_same, summed};
#[allow(unused_imports)]
use crate::phase_loss::turned_of;
#[allow(unused_imports)]
use crate::values::{exact, group_value, lemma_fits, lemma_scalar, lemma_top, lemma_total};

verus! {

/// The entries of a state of bands, each turned by its angle.
pub open spec fn turned_by(
    cu: Curves,
    x: spec_fn(int) -> real,
    angles: spec_fn(int) -> real,
) -> spec_fn(int) -> real {
    |i: int|
        {
            let k = i / 2;
            let c = (cu.cos)(angles(k));
            let s = (cu.sin)(angles(k));
            if i % 2 == 0 {
                prod(x(2 * k), c) - prod(x(2 * k + 1), s)
            } else {
                prod(x(2 * k), s) + prod(x(2 * k + 1), c)
            }
        }
}

/// The phase of band `k` of a state.
pub open spec fn phase_in(cu: Curves, x: spec_fn(int) -> real, k: int) -> real {
    (cu.angle)(x(2 * k + 1), x(2 * k))
}

/// The magnitude of band `k` of a state.
pub open spec fn strength_in(cu: Curves, x: spec_fn(int) -> real, k: int) -> real {
    (cu.root)(prod(x(2 * k), x(2 * k)) + prod(x(2 * k + 1), x(2 * k + 1)))
}

/// How well phases that differ by `d` agree at harmonic `h`: the mean cosine of `h` times the
/// difference, over bands alike or by their strength.
pub open spec fn agrees_at(
    cu: Curves,
    mode: DecodeMode,
    d: spec_fn(int) -> real,
    w: spec_fn(int) -> real,
    n: int,
    h: real,
    c: real,
) -> bool {
    let cosines = |k: int| (cu.cos)(prod(h, d(k)));
    if mode == DecodeMode::MagWeighted {
        if summed(w, n) > 1real / 100000000real {
            is_weighted_mean(c, w, cosines, n)
        } else {
            c == 0real
        }
    } else {
        is_mean(c, cosines, n)
    }
}

/// How well phases agree at the first four harmonics and the sixth.
pub open spec fn agrees(
    cu: Curves,
    mode: DecodeMode,
    d: spec_fn(int) -> real,
    w: spec_fn(int) -> real,
    n: int,
    c: spec_fn(int) -> real,
) -> bool {
    &&& agrees_at(cu, mode, d, w, n, 1real, c(0))
    &&& agrees_at(cu, mode, d, w, n, 2real, c(1))
    &&& agrees_at(cu, mode, d, w, n, 3real, c(2))
    &&& agrees_at(cu, mode, d, w, n, 4real, c(3))
    &&& agrees_at(cu, mode, d, w, n, 6real, c(4))
}

/// A score by phases that differ by `d`: the mean of the five agreements, or the best of them.
pub open spec fn scored(
    cu: Curves,
    mode: DecodeMode,
    d: spec_fn(int) -> real,
    w: spec_fn(int) -> real,
    n: int,
    score: real,
) -> bool {
    exists|c: spec_fn(int) -> real|
        #![trigger agrees(cu, mode, d, w, n, c)]
        agrees(cu, mode, d, w, n, c) && if mode == DecodeMode::SumHarmonic {
            5real * score == c(0) + c(1) + c(2) + c(3) + c(4)
        } else {
            &&& forall|i: int| 0 <= i < 5 ==> #[trigger] c(i) <= score
            &&& score == c(0) || score == c(1) || score == c(2) || score == c(3) || score == c(4)
        }
}

/// The cosine lies between minus one and one, and is one at zero.
pub open spec fn cosine_bounded(cu: Curves) -> bool {
    &&& (cu.cos)(0real) == 1real
    &&& forall|x: real| -1real <= #[trigger] (cu.cos)(x) <= 1real
}

#[verifier::spinoff_prover]
proof fn lemma_agreement(
    cu: Curves,
    mode: DecodeMode,
    a: Seq<Expr<Dual>>,
    mags: Seq<Expr<Dual>>,
    b: Seq<Expr<Dual>>,
    h: usize,
)
    requires
        a.len() > 0,
        a.len() <= usize::MAX,
        mags.len() == a.len(),
        b.len() == a.len(),
    ensures
        agrees_at(
            cu,
            mode,
            |k: int| value(cu, a[k]) - value(cu, b[k]),
            |k: int| value(cu, mags[k]),
            a.len() as int,
            h as real,
            value(cu, agreement_of(mode, agreements_of(a, b, h), mags)),
        ),
{
    broadcast use group_value;

    let n = a.len() as int;
    let list = agreements_of(a, b, h);
    let d = |k: int| value(cu, a[k]) - value(cu, b[k]);
    let w = |k: int| value(cu, mags[k]);
    let cosines = |k: int| (cu.cos)(prod(h as real, d(k)));
    let f = |k: int| value(cu, list[k]);
    assert forall|k: int| 0 <= k < n implies #[trigger] f(k) == cosines(k) by {}
    lemma_summed_same(f, cosines, n);
    if mode == DecodeMode::MagWeighted {
        lemma_total(cu, mags);
        lemma_summed_same(w, |k: int| value(cu, mags[k]), n);
        lemma_scalar(cu, mags, list);
        let both = |k: int| prod(w(k), cosines(k));
        let given = |k: int| prod(value(cu, mags[k]), value(cu, list[k]));
        assert forall|k: int| 0 <= k < n implies #[trigger] given(k) == both(k) by {
            assert(f(k) == cosines(k));
        }
        lemma_summed_same(given, both, n);
        if summed(w, n) > 1real / 100000000real {
            lemma_quotient_undone(summed(both, n), summed(w, n));
        }
    } else {
        lemma_total(cu, list);
        lemma_summed_same(f, |k: int| value(cu, list[k]), n);
        lemma_quotient_undone(summed(cosines, n), n as real);
    }
}

/// The score of a token goes by how its phases differ from the state's, and by the magnitudes of
/// the state, in exact arithmetic.
#[verifier::spinoff_prover]
proof fn lemma_scored(
    cu: Curves,
    mode: DecodeMode,
    a: Seq<Expr<Dual>>,
    mags: Seq<Expr<Dual>>,
    b: Seq<Expr<Dual>>,
)
    requires
        cosine_bounded(cu),
        cu.lowest <= -1real,
        a.len() > 0,
        a.len() <= usize::MAX,
        mags.len() == a.len(),
        b.len() == a.len(),
        forall|k: int| 0 <= k < mags.len() ==> value(cu, #[trigger] mags[k]) >= 0real,
    ensures
        scored(
            cu,
            mode,
            |k: int| value(cu, a[k]) - value(cu, b[k]),
            |k: int| value(cu, mags[k]),
            a.len() as int,
            value(cu, token_score(mode, a, mags, b)),
        ),
{
    broadcast use group_value;

    let n = a.len() as int;
    let d = |k: int| value(cu, a[k]) - value(cu, b[k]);
    let w = |k: int| value(cu, mags[k]);
    let scores = harmonic_scores(mode, a, mags, b);
    let c = |i: int| value(cu, scores[i]);
    lemma_agreement(cu, mode, a, mags, b, 1);
    lemma_agreement(cu, mode, a, mags, b, 2);
    lemma_agreement(cu, mode, a, mags, b, 3);
    lemma_agreement(cu, mode, a, mags, b, 4);
    lemma_agreement(cu, mode, a, mags, b, 6);
    assert(harmonics()[0] == 1 && harmonics()[1] == 2 && harmonics()[2] == 3);
    assert(harmonics()[3] == 4 && harmonics()[4] == 6);
    assert(agrees(cu, mode, d, w, n, c));
    if mode == DecodeMode::SumHarmonic {
        lemma_total(cu, scores);
        lemma_summed_same(c, |k: int| value(cu, scores[k]), 5);
        reveal_with_fuel(summed, 6);
        lemma_quotient_undone(summed(c, 5), 5real);
        lemma_five(value(cu, token_score(mode, a, mags, b)));
    } else {
        lemma_top(cu, scores);
        lemma_agreement_bounds(cu, mode, d, w, n, 1real, c(0));
        assert(c(0) == value(cu, scores[0]) && c(1) == value(cu, scores[1]));
        assert(c(2) == value(cu, scores[2]) && c(3) == value(cu, scores[3]));
        assert(c(4) == value(cu, scores[4]));
        if value(cu, top_of(scores)) == cu.lowest {
            assert(value(cu, scores[0]) <= cu.lowest);
        }
    }
}

#[verifier::spinoff_prover]
proof fn lemma_five(x: real)
    ensures
        prod(x, 5real) == 5real * x,
{
    reveal(prod);
}

#[verifier::spinoff_prover]
proof fn lemma_agreement_bounds(
    cu: Curves,
    mode: DecodeMode,
    d: spec_fn(int) -> real,
    w: spec_fn(int) -> real,
    n: int,
    h: real,
    c: real,
)
    requires
        cosine_bounded(cu),
        n > 0,
        agrees_at(cu, mode, d, w, n, h, c),
        forall|k: int| 0 <= k < n ==> #[trigger] w(k) >= 0real,
    ensures
        -1real <= c <= 1real,
{
    let cosines = |k: int| (cu.cos)(prod(h, d(k)));
    if mode == DecodeMode::MagWeighted {
        if summed(w, n) > 1real / 100000000real {
            lemma_weighted_mean_between(c, w, cosines, n, -1real, 1real);
        }
    } else {
        lemma_mean_between(c, cosines, n, -1real, 1real);
    }
}

/// Whatever a decoder reads, a score lies between minus one and one.
#[verifier::spinoff_prover]
pub proof fn law_scores_bounded(
    cu: Curves,
    mode: DecodeMode,
    d: spec_fn(int) -> real,
    w: spec_fn(int) -> real,
    n: int,
    score: real,
)
    requires
        cosine_bounded(cu),
        n > 0,
        forall|k: int| 0 <= k < n ==> #[trigger] w(k) >= 0real,
        scored(cu, mode, d, w, n, score),
    ensures
        -1real <= score <= 1real,
{
    let c = choose|c: spec_fn(int) -> real|
        #![trigger agrees(cu, mode, d, w, n, c)]
        agrees(cu, mode, d, w, n, c) && if mode == DecodeMode::SumHarmonic {
            5real * score == c(0) + c(1) + c(2) + c(3) + c(4)
        } else {
            &&& forall|i: int| 0 <= i < 5 ==> #[trigger] c(i) <= score
            &&& score == c(0) || score == c(1) || score == c(2) || score == c(3) || score == c(4)
        };
    lemma_agreement_bounds(cu, mode, d, w, n, 1real, c(0));
    lemma_agreement_bounds(cu, mode, d, w, n, 2real, c(1));
    lemma_agreement_bounds(cu, mode, d, w, n, 3real, c(2));
    lemma_agreement_bounds(cu, mode, d, w, n, 4real, c(3));
    lemma_agreement_bounds(cu, mode, d, w, n, 6real, c(4));
}

#[verifier::spinoff_prover]
proof fn lemma_agreement_whole(
    cu: Curves,
    mode: DecodeMode,
    d: spec_fn(int) -> real,
    w: spec_fn(int) -> real,
    n: int,
    h: real,
    c: real,
)
    requires
        cosine_bounded(cu),
        n > 0,
        agrees_at(cu, mode, d, w, n, h, c),
        mode == DecodeMode::MagWeighted ==> summed(w, n) > 1real / 100000000real,
        forall|k: int| 0 <= k < n ==> #[trigger] d(k) == 0real,
    ensures
        c == 1real,
{
    let cosines = |k: int| (cu.cos)(prod(h, d(k)));
    lemma_nothing(h);
    assert forall|k: int| 0 <= k < n implies #[trigger] cosines(k) == 1real by {
        assert(d(k) == 0real);
    }
    if mode == DecodeMode::MagWeighted {
        let both = |k: int| prod(w(k), cosines(k));
        assert forall|k: int| 0 <= k < n implies #[trigger] both(k) == w(k) by {
            assert(cosines(k) == 1real);
            lemma_by_one(w(k));
        }
        lemma_summed_same(both, w, n);
        lemma_by_one(summed(w, n));
        lemma_cancel(c, 1real, summed(w, n));
    } else {
        lemma_summed_alike(cosines, 1real, n);
        lemma_cancel(c, 1real, n as real);
    }
}

/// A token whose phases are those of the state that is read scores one, and so at least as much as
/// any token. (By strength, where the state's magnitudes add up to more than the faint limit.)
#[verifier::spinoff_prover]
pub proof fn law_matching_phases_score_one(
    cu: Curves,
    mode: DecodeMode,
    d: spec_fn(int) -> real,
    w: spec_fn(int) -> real,
    n: int,
    score: real,
)
    requires
        cosine_bounded(cu),
        n > 0,
        mode == DecodeMode::MagWeighted ==> summed(w, n) > 1real / 100000000real,
        forall|k: int| 0 <= k < n ==> #[trigger] d(k) == 0real,
        scored(cu, mode, d, w, n, score),
    ensures
        score == 1real,
{
    let c = choose|c: spec_fn(int) -> real|
        #![trigger agrees(cu, mode, d, w, n, c)]
        agrees(cu, mode, d, w, n, c) && if mode == DecodeMode::SumHarmonic {
            5real * score == c(0) + c(1) + c(2) + c(3) + c(4)
        } else {
            &&& forall|i: int| 0 <= i < 5 ==> #[trigger] c(i) <= score
            &&& score == c(0) || score == c(1) || score == c(2) || score == c(3) || score == c(4)
        };
    lemma_agreement_whole(cu, mode, d, w, n, 1real, c(0));
    lemma_agreement_whole(cu, mode, d, w, n, 2real, c(1));
    lemma_agreement_whole(cu, mode, d, w, n, 3real, c(2));
    lemma_agreement_whole(cu, mode, d, w, n, 4real, c(3));
    lemma_agreement_whole(cu, mode, d, w, n, 6real, c(4));
}

/// What a decoder makes of a state and an embedding: the state's bands turned, then the score by
/// how the phases differ.
pub open spec fn decodes(
    cu: Curves,
    mode: DecodeMode,
    x: spec_fn(int) -> real,
    e: spec_fn(int) -> real,
    angles: spec_fn(int) -> real,
    n: int,
    score: real,
) -> bool {
    let turned = turned_by(cu, x, angles);
    scored(
        cu,
        mode,
        |k: int| phase_in(cu, turned, k) - phase_in(cu, e, k),
        |k: int| strength_in(cu, turned, k),
        n,
        score,
    )
}

#[verifier::spinoff_prover]
proof fn lemma_turned(cu: Curves, hidden: Seq<Dual>, angles: Seq<Dual>, i: int)
    requires
        0 <= i < 2 * angles.len(),
        2 * angles.len() <= hidden.len(),
    ensures
        value(cu, turned_of(vals(hidden), vals(angles))[i]) == turned_by(
            cu,
            |i: int| hidden[i].v,
            |k: int| angles[k].v,
        )(i),
{
    broadcast use group_value;

    let k = i / 2;
    assert(vals(angles)[k] == Expr::Val(angles[k]));
    assert(vals(hidden)[2 * k] == Expr::Val(hidden[2 * k]));
    assert(vals(hidden)[2 * k + 1] == Expr::Val(hidden[2 * k + 1]));
    if i % 2 == 0 {
        assert(i == 2 * k);
    } else {
        assert(i == 2 * k + 1);
    }
}

/// Every score that decoding gives is the score of the turned state's phases against the token's.
#[verifier::spinoff_prover]
pub proof fn law_decoding_scores_phases<A: Arith<Dual>>(
    cu: Curves,
    ops: A,
    mode: DecodeMode,
    hidden: Seq<Dual>,
    embeddings: Seq<Vec<Dual>>,
    angles: Seq<Dual>,
    vocab: int,
    out: Seq<Dual>,
    v: int,
)
    requires
        exact(cu, ops),
        cosine_bounded(cu),
        root_squares(cu),
        cu.lowest <= -1real,
        0 < angles.len() <= usize::MAX,
        2 * angles.len() <= hidden.len(),
        2 * angles.len() <= embeddings[v]@.len(),
        0 <= v < vocab,
        fits_all(ops, decode_of(mode, hidden, embeddings, angles, vocab), out),
    ensures
        decodes(
            cu,
            mode,
            |i: int| hidden[i].v,
            |i: int| embeddings[v]@[i].v,
            |k: int| angles[k].v,
            angles.len() as int,
            out[v].v,
        ),
{
    broadcast use group_value;

    let n = angles.len() as int;
    let x = turned_of(vals(hidden), vals(angles));
    let e = vals(embeddings[v]@);
    let a = phases_of(x, n);
    let mags = mags_of(x, n);
    let b = phases_of(e, n);
    lemma_fits(cu, ops, token_score(mode, a, mags, b), out[v]);
    let turned = turned_by(cu, |i: int| hidden[i].v, |k: int| angles[k].v);
    let own = |i: int| embeddings[v]@[i].v;
    let d = |k: int| phase_in(cu, turned, k) - phase_in(cu, own, k);
    let w = |k: int| strength_in(cu, turned, k);
    let d0 = |k: int| value(cu, a[k]) - value(cu, b[k]);
    let w0 = |k: int| value(cu, mags[k]);
    assert forall|k: int| 0 <= k < n implies #[trigger] d0(k) == d(k) && w0(k) == w(k) by {
        lemma_turned(cu, hidden, angles, 2 * k);
        lemma_turned(cu, hidden, angles, 2 * k + 1);
        assert(e[2 * k] == Expr::Val(embeddings[v]@[2 * k]));
        assert(e[2 * k + 1] == Expr::Val(embeddings[v]@[2 * k + 1]));
    }
    assert forall|k: int| 0 <= k < n implies value(cu, #[trigger] mags[k]) >= 0real by {
        assert(d0(k) == d(k) && w0(k) == w(k));
        lemma_square(turned(2 * k));
        lemma_square(turned(2 * k + 1));
    }
    lemma_scored(cu, mode, a, mags, b);
    law_same_differences_same_score(
        cu,
        mode,
        d0,
        w0,
        d,
        w,
        n,
        value(cu, token_score(mode, a, mags, b)),
    );
}

#[verifier::spinoff_prover]
proof fn lemma_agreement_same(
    cu: Curves,
    mode: DecodeMode,
    d0: spec_fn(int) -> real,
    w0: spec_fn(int) -> real,
    d: spec_fn(int) -> real,
    w: spec_fn(int) -> real,
    n: int,
    h: real,
    c: real,
)
    requires
        agrees_at(cu, mode, d0, w0, n, h, c),
        forall|k: int| 0 <= k < n ==> #[trigger] d0(k) == d(k) && w0(k) == w(k),
    ensures
        agrees_at(cu, mode, d, w, n, h, c),
{
    let cos0 = |k: int| (cu.cos)(prod(h, d0(k)));
    let cosines = |k: int| (cu.cos)(prod(h, d(k)));
    assert forall|k: int| 0 <= k < n implies #[trigger] cos0(k) == cosines(k) by {
        assert(d0(k) == d(k));
    }
    lemma_summed_same(cos0, cosines, n);
    assert forall|k: int| 0 <= k < n implies #[trigger] w0(k) == w(k) by {
        assert(d0(k) == d(k));
    }
    lemma_summed_same(w0, w, n);
    let both0 = |k: int| prod(w0(k), cos0(k));
    let both = |k: int| prod(w(k), cosines(k));
    assert forall|k: int| 0 <= k < n implies #[trigger] both0(k) == both(k) by {
        assert(cos0(k) == cosines(k) && w0(k) == w(k));
    }
    lemma_summed_same(both0, both, n);
}

/// Two states and tokens whose phases differ alike, band by band, and whose magnitudes are the
/// same, have the same scores: turning both by a common angle changes nothing.
#[verifier::spinoff_prover]
pub proof fn law_same_differences_same_score(
    cu: Curves,
    mode: DecodeMode,
    d0: spec_fn(int) -> real,
    w0: spec_fn(int) -> real,
    d: spec_fn(int) -> real,
    w: spec_fn(int) -> real,
    n: int,
    score: real,
)
    requires
        scored(cu, mode, d0, w0, n, score),
        forall|k: int| 0 <= k < n ==> #[trigger] d0(k) == d(k) && w0(k) == w(k),
    ensures
        scored(cu, mode, d, w, n, score),
{
    let c = choose|c: spec_fn(int) -> real|
        #![trigger agrees(cu, mode, d0, w0, n, c)]
        agrees(cu, mode, d0, w0, n, c) && if mode == DecodeMode::SumHarmonic {
            5real * score == c(0) + c(1) + c(2) + c(3) + c(4)
        } else {
            &&& forall|i: int| 0 <= i < 5 ==> #[trigger] c(i) <= score
            &&& score == c(0) || score == c(1) || score == c(2) || score == c(3) || score == c(4)
        };
    lemma_agreement_same(cu, mode, d0, w0, d, w, n, 1real, c(0));
    lemma_agreement_same(cu, mode, d0, w0, d, w, n, 2real, c(1));
    lemma_agreement_same(cu, mode, d0, w0, d, w, n, 3real, c(2));
    lemma_agreement_same(cu, mode, d0, w0, d, w, n, 4real, c(3));
    lemma_agreement_same(cu, mode, d0, w0, d, w, n, 6real, c(4));
    assert(agrees(cu, mode, d, w, n, c));
}

/// The plain decoder scores a token by the product of its embedding with the turned state.
#[verifier::spinoff_prover]
pub proof fn law_plain_decoding_multiplies<A: Arith<Dual>>(
    cu: Curves,
    ops: A,
    hidden: Seq<Dual>,
    embeddings: Seq<Vec<Dual>>,
    angles: Seq<Dual>,
    vocab: int,
    out: Seq<Dual>,
    v: int,
)
    requires
        exact(cu, ops),
        2 * angles.len() <= hidden.len(),
        2 * angles.len() <= embeddings[v]@.len(),
        0 <= v < vocab,
        fits_all(ops, plain_scores(hidden, embeddings, angles, vocab), out),
    ensures
        out[v].v == summed(
            |i: int|
                prod(
                    turned_by(cu, |i: int| hidden[i].v, |k: int| angles[k].v)(i),
                    embeddings[v]@[i].v,
                ),
            2 * angles.len() as int,
        ),
{
    broadcast use group_value;

    let n = 2 * angles.len() as int;
    let x = turned_of(vals(hidden), vals(angles));
    let e = vals(embeddings[v]@);
    lemma_fits(cu, ops, plain_scores(hidden, embeddings, angles, vocab)[v], out[v]);
    lemma_scalar(cu, x, e);
    let given = |k: int| prod(value(cu, x[k]), value(cu, e[k]));
    let wanted = |i: int|
        prod(
            turned_by(cu, |i: int| hidden[i].v, |k: int| angles[k].v)(i),
            embeddings[v]@[i].v,
        );
    assert forall|i: int| 0 <= i < n implies #[trigger] given(i) == wanted(i) by {
        lemma_turned(cu, hidden, angles, i);
        assert(e[i] == Expr::Val(embeddings[v]@[i]));
    }
    lemma_summed_same(given, wanted, n);
}

/// In exact arithmetic the place that is found holds an entry that none exceeds, and every later
/// entry is less.
#[verifier::spinoff_prover]
pub proof fn law_last_top_is_largest<A: Arith<Dual>>(
    cu: Curves,
    ops: A,
    xs: Seq<Dual>,
    n: int,
    at: int,
)
    requires
        exact(cu, ops),
        0 < n <= xs.len(),
        last_top(ops, xs, n, at),
    ensures
        0 <= at < n,
        forall|j: int| 0 <= j < n ==> (#[trigger] xs[j]).v <= xs[at].v,
        forall|j: int| at < j < n ==> (#[trigger] xs[j]).v < xs[at].v,
    decreases n,
{
    if n > 1 {
        let (held, keeps) = choose|held: int, keeps: bool| #[trigger]
            test_is(ops, Test::Exceeds, xs[held], xs[n - 1], keeps) && last_top(
                ops,
                xs,
                n - 1,
                held,
            ) && 0 <= held < n - 1 && at == (if keeps {
                held
            } else {
                n - 1
            });
        law_last_top_is_largest(cu, ops, xs, n - 1, held);
        assert(keeps == holds_of(Test::Exceeds, xs[held].v, xs[n - 1].v));
    }
}

/// A state read by its phases: every token's coherence is the mean cosine of its phases to the
/// state's, its logit is the product of its output row with the state, and the two tokens that
/// come out are those of the largest coherence and the largest logit.
#[verifier::spinoff_prover]
pub proof fn law_reading_by_phase<A: Arith<Dual>>(
    cu: Curves,
    ops: A,
    hidden: Seq<Dual>,
    wte: Seq<Vec<Dual>>,
    lm_head: Seq<Vec<Dual>>,
    n: int,
    vocab: int,
    res: (usize, usize, Vec<TokenCoherence<Dual>>),
    v: int,
)
    requires
        exact(cu, ops),
        0 < n <= usize::MAX,
        2 * n <= hidden.len(),
        2 * n <= wte[v]@.len(),
        lm_head[v]@.len() == hidden.len(),
        0 <= v < vocab,
        read_by_phase(ops, hidden, wte, lm_head, n, vocab, res),
    ensures
        is_mean(
            res.2@[v].coherence.v,
            |k: int|
                (cu.cos)(
                    phase_in(cu, |i: int| hidden[i].v, k) - phase_in(
                        cu,
                        |i: int| wte[v]@[i].v,
                        k,
                    ),
                ),
            n,
        ),
        res.2@[v].logit.v == summed(
            |i: int| prod(lm_head[v]@[i].v, hidden[i].v),
            hidden.len() as int,
        ),
        res.2@[v].coherence.v <= res.2@[res.0 as int].coherence.v,
        res.2@[v].logit.v <= res.2@[res.1 as int].logit.v,
{
    broadcast use group_value;

    let h = vals(hidden);
    let e = vals(wte[v]@);
    let row = vals(lm_head[v]@);
    let got = res.2@[v];
    lemma_fits(cu, ops, phase_coherence(h, e, n), got.coherence);
    lemma_fits(cu, ops, dot_of(zero(), row, h), got.logit);
    let list = Seq::new(
        n as nat,
        |k: int|
            un(
                Unary::Cos,
                minus(phases_of(h, n)[k], phases_of(e, n)[k]),
            ),
    );
    let wanted = |k: int|
        (cu.cos)(
            phase_in(cu, |i: int| hidden[i].v, k) - phase_in(cu, |i: int| wte[v]@[i].v, k),
        );
    let f = |k: int| value(cu, list[k]);
    assert forall|k: int| 0 <= k < n implies #[trigger] f(k) == wanted(k) by {
        assert(h[2 * k] == Expr::Val(hidden[2 * k]));
        assert(h[2 * k + 1] == Expr::Val(hidden[2 * k + 1]));
        assert(e[2 * k] == Expr::Val(wte[v]@[2 * k]));
        assert(e[2 * k + 1] == Expr::Val(wte[v]@[2 * k + 1]));
    }
    lemma_total(cu, list);
    lemma_summed_same(f, wanted, n);
    lemma_summed_same(f, |k: int| value(cu, list[k]), n);
    lemma_quotient_undone(summed(wanted, n), n as real);
    lemma_scalar(cu, row, h);
    let given = |k: int| prod(value(cu, row[k]), value(cu, h[k]));
    let logit = |i: int| prod(lm_head[v]@[i].v, hidden[i].v);
    assert forall|i: int| 0 <= i < hidden.len() implies #[trigger] given(i) == logit(i) by {
        assert(h[i] == Expr::Val(hidden[i]));
        assert(row[i] == Expr::Val(lm_head[v]@[i]));
    }
    lemma_summed_same(given, logit, hidden.len() as int);
    let cs = coherences_of(res.2@);
    let ls = logits_of(res.2@);
    law_last_top_is_largest(cu, ops, cs, vocab, res.0 as int);
    law_last_top_is_largest(cu, ops, ls, vocab, res.1 as int);
    assert(cs[v] == got.coherence);
    assert(ls[v] == got.logit);
}

} // verus!
