//! Decoders that score tokens by how well phases agree.

use vstd::prelude::*;
use crate::arith::{Arith, Test, Traced, TracedVec, pick_on, top, total};
#[allow(unused_imports)]
use crate::arith::{
    Expr, Unary, angle, fits, fits_all, minus, one, over, pick, test_is, times, top_of, total_of,
    un, vals, zero,
};
use crate::kerr::energy_on;
#[allow(unused_imports)]
use crate::kerr::energy_of;
use crate::layers::{score, traced};
#[allow(unused_imports)]
use crate::arith::dot_of;
use crate::phase_loss::turned_on;
#[allow(unused_imports)]
use crate::phase_loss::turned_of;
use crate::seqs::take;
use crate::wave_model::WavePacketModel;

verus! {

/// How the harmonics of a token become one score.
#[derive(Clone, Copy, Debug, PartialEq, Eq, Structural)]
pub enum DecodeMode {
    /// The best harmonic, over bands alike.
    MaxHarmonic,
    /// The mean of the harmonics, over bands alike.
    SumHarmonic,
    /// The best harmonic, over bands by their magnitude.
    MagWeighted,
}

/// The harmonics that are looked at.
pub open spec fn harmonics() -> Seq<usize> {
    seq![1, 2, 3, 4, 6]
}

/// The phases of a vector's bands.
pub open spec fn phases_of<T>(x: Seq<Expr<T>>, n: int) -> Seq<Expr<T>> {
    Seq::new(n as nat, |k: int| angle(x[2 * k + 1], x[2 * k]))
}

/// The magnitudes of a vector's bands.
pub open spec fn mags_of<T>(x: Seq<Expr<T>>, n: int) -> Seq<Expr<T>> {
    Seq::new(n as nat, |k: int| un(Unary::Root, energy_of(x[2 * k], x[2 * k + 1])))
}

/// How well every band agrees at harmonic `h`.
pub open spec fn agreements_of<T>(a: Seq<Expr<T>>, b: Seq<Expr<T>>, h: usize) -> Seq<Expr<T>> {
    Seq::new(
        a.len(),
        |k: int| un(Unary::Cos, times(Expr::Count(h), minus(a[k], b[k]))),
    )
}

/// How well all bands agree at a harmonic.
pub open spec fn agreement_of<T>(
    mode: DecodeMode,
    agreements: Seq<Expr<T>>,
    mags: Seq<Expr<T>>,
) -> Expr<T> {
    match mode {
        DecodeMode::MagWeighted => pick(
            Test::Exceeds,
            total_of(mags),
            Expr::Ratio(1, 100000000),
            over(dot_of(zero(), mags, agreements), total_of(mags)),
            zero(),
        ),
        _ => over(total_of(agreements), Expr::Count(agreements.len() as usize)),
    }
}

/// How well two states agree at every harmonic.
pub open spec fn harmonic_scores<T>(
    mode: DecodeMode,
    a: Seq<Expr<T>>,
    mags: Seq<Expr<T>>,
    b: Seq<Expr<T>>,
) -> Seq<Expr<T>> {
    Seq::new(5, |i: int| agreement_of(mode, agreements_of(a, b, harmonics()[i]), mags))
}

/// The score of a token.
pub open spec fn token_score<T>(
    mode: DecodeMode,
    a: Seq<Expr<T>>,
    mags: Seq<Expr<T>>,
    b: Seq<Expr<T>>,
) -> Expr<T> {
    let scores = harmonic_scores(mode, a, mags, b);
    match mode {
        DecodeMode::SumHarmonic => over(total_of(scores), Expr::Count(5)),
        _ => top_of(scores),
    }
}

/// The scores of all tokens for a state turned by `angles`.
pub open spec fn decode_of<T>(
    mode: DecodeMode,
    hidden: Seq<T>,
    embeddings: Seq<Vec<T>>,
    angles: Seq<T>,
    vocab_size: int,
) -> Seq<Expr<T>> {
    let n = angles.len() as int;
    let x = turned_of(vals(hidden), vals(angles));
    Seq::new(
        vocab_size as nat,
        |v: int|
            token_score(
                mode,
                phases_of(x, n),
                mags_of(x, n),
                phases_of(vals(embeddings[v]@), n),
            ),
    )
}

/// The phases of a vector's bands, traced.
pub fn phases_on<T: Copy, A: Arith<T>>(ops: &A, x: &TracedVec<T>, n: usize) -> (out: TracedVec<T>)
    requires
        x.ok(*ops),
        2 * n <= x.v@.len(),
    ensures
        out.ok(*ops),
        out.e@ == phases_of(x.e@, n as int),
{
    let total_len: usize = x.len();
    let ghost es = phases_of(x.e@, n as int);
    let mut out: TracedVec<T> = TracedVec::new(ops);
    let mut k: usize = 0;
    assert(out.e@ =~= es.take(0));
    while k < n
        invariant
            x.ok(*ops),
            total_len == x.v@.len(),
            2 * n <= total_len,
            es == phases_of(x.e@, n as int),
            k <= n,
            out.ok(*ops),
            out.e@ == es.take(k as int),
        decreases n - k,
    {
        out.push(ops, x.get(ops, k * 2 + 1).angle(ops, x.get(ops, k * 2)));
        k += 1;
        assert(out.e@ =~= es.take(k as int));
    }
    assert(es.take(n as int) =~= es);
    out
}

/// The magnitudes of a vector's bands, traced.
pub fn mags_on<T: Copy, A: Arith<T>>(ops: &A, x: &TracedVec<T>, n: usize) -> (out: TracedVec<T>)
    requires
        x.ok(*ops),
        2 * n <= x.v@.len(),
    ensures
        out.ok(*ops),
        out.e@ == mags_of(x.e@, n as int),
{
    let total_len: usize = x.len();
    let ghost es = mags_of(x.e@, n as int);
    let mut out: TracedVec<T> = TracedVec::new(ops);
    let mut k: usize = 0;
    assert(out.e@ =~= es.take(0));
    while k < n
        invariant
            x.ok(*ops),
            total_len == x.v@.len(),
            2 * n <= total_len,
            es == mags_of(x.e@, n as int),
            k <= n,
            out.ok(*ops),
            out.e@ == es.take(k as int),
        decreases n - k,
    {
        out.push(ops, energy_on(ops, x.get(ops, k * 2), x.get(ops, k * 2 + 1)).root(ops));
        k += 1;
        assert(out.e@ =~= es.take(k as int));
    }
    assert(es.take(n as int) =~= es);
    out
}

fn agreement_on<T: Copy, A: Arith<T>>(
    ops: &A,
    mode: DecodeMode,
    a: &TracedVec<T>,
    mags: &TracedVec<T>,
    b: &TracedVec<T>,
    h: usize,
) -> (out: Traced<T>)
    requires
        a.ok(*ops),
        b.ok(*ops),
        mags.ok(*ops),
        a.v@.len() == b.v@.len(),
        a.v@.len() == mags.v@.len(),
    ensures
        out.ok(*ops),
        out.e@ == agreement_of(mode, agreements_of(a.e@, b.e@, h), mags.e@),
{
    let n: usize = a.len();
    let ghost es = agreements_of(a.e@, b.e@, h);
    let mut list: TracedVec<T> = TracedVec::new(ops);
    let mut k: usize = 0;
    assert(list.e@ =~= es.take(0));
    while k < n
        invariant
            a.ok(*ops),
            b.ok(*ops),
            n == a.v@.len(),
            n == b.v@.len(),
            es == agreements_of(a.e@, b.e@, h),
            k <= n,
            list.ok(*ops),
            list.e@ == es.take(k as int),
        decreases n - k,
    {
        let diff: Traced<T> = a.get(ops, k).minus(ops, b.get(ops, k));
        list.push(ops, Traced::count(ops, h).times(ops, diff).cos(ops));
        k += 1;
        assert(list.e@ =~= es.take(k as int));
    }
    assert(list.e@ =~= es);
    match mode {
        DecodeMode::MagWeighted => {
            let weight: Traced<T> = total(ops, mags);
            let sum: Traced<T> = score(ops, mags, &list);
            pick_on(
                ops,
                Test::Exceeds,
                weight,
                Traced::ratio(ops, 1, 100000000),
                sum.over(ops, weight),
                Traced::ratio(ops, 0, 1),
            )
        },
        _ => total(ops, &list).over(ops, Traced::count(ops, n)),
    }
}

fn token_score_on<T: Copy, A: Arith<T>>(
    ops: &A,
    mode: DecodeMode,
    a: &TracedVec<T>,
    mags: &TracedVec<T>,
    b: &TracedVec<T>,
) -> (out: Traced<T>)
    requires
        a.ok(*ops),
        b.ok(*ops),
        mags.ok(*ops),
        a.v@.len() == b.v@.len(),
        a.v@.len() == mags.v@.len(),
    ensures
        out.ok(*ops),
        out.e@ == token_score(mode, a.e@, mags.e@, b.e@),
{
    let mut scores: TracedVec<T> = TracedVec::new(ops);
    scores.push(ops, agreement_on(ops, mode, a, mags, b, 1));
    scores.push(ops, agreement_on(ops, mode, a, mags, b, 2));
    scores.push(ops, agreement_on(ops, mode, a, mags, b, 3));
    scores.push(ops, agreement_on(ops, mode, a, mags, b, 4));
    scores.push(ops, agreement_on(ops, mode, a, mags, b, 6));
    assert(scores.e@ =~= harmonic_scores(mode, a.e@, mags.e@, b.e@));
    match mode {
        DecodeMode::SumHarmonic => total(ops, &scores).over(ops, Traced::count(ops, 5)),
        _ => top(ops, &scores),
    }
}

/// Scores every token by the harmonics at which its embedding agrees with the state, after
/// the state's bands are turned.
pub fn decode_v2<T: Copy, A: Arith<T>>(
    ops: &A,
    hidden: &[T],
    embeddings: &Vec<Vec<T>>,
    output_corrector: &[T],
    n_bands: usize,
    vocab_size: usize,
    mode: DecodeMode,
) -> (out: Vec<T>)
    requires
        n_bands <= output_corrector@.len(),
        2 * n_bands <= hidden@.len(),
        vocab_size <= embeddings@.len(),
        forall|v: int|
            0 <= v < vocab_size ==> 2 * n_bands <= (#[trigger] embeddings@[v])@.len(),
    ensures
        fits_all(
            *ops,
            decode_of(
                mode,
                hidden@,
                embeddings@,
                output_corrector@.take(n_bands as int),
                vocab_size as int,
            ),
            out@,
        ),
{
    let angles: TracedVec<T> = TracedVec::of(ops, take(output_corrector, 0, n_bands));
    assert(output_corrector@.subrange(0, n_bands as int) =~= output_corrector@.take(
        n_bands as int,
    ));
    let x: TracedVec<T> = turned_on(ops, &traced(ops, hidden), &angles, n_bands);
    let phases: TracedVec<T> = phases_on(ops, &x, n_bands);
    let mags: TracedVec<T> = mags_on(ops, &x, n_bands);
    let ghost es = decode_of(
        mode,
        hidden@,
        embeddings@,
        output_corrector@.take(n_bands as int),
        vocab_size as int,
    );
    let mut out: TracedVec<T> = TracedVec::new(ops);
    let mut v: usize = 0;
    assert(out.e@ =~= es.take(0));
    while v < vocab_size
        invariant
            vocab_size <= embeddings@.len(),
            forall|v: int|
                0 <= v < vocab_size ==> 2 * n_bands <= (#[trigger] embeddings@[v])@.len(),
            angles.e@ == vals(output_corrector@.take(n_bands as int)),
            n_bands <= output_corrector@.len(),
            x.e@ == turned_of(vals(hidden@), angles.e@),
            phases.ok(*ops),
            mags.ok(*ops),
            phases.v@.len() == n_bands,
            mags.v@.len() == n_bands,
            phases.e@ == phases_of(x.e@, n_bands as int),
            mags.e@ == mags_of(x.e@, n_bands as int),
            es == decode_of(
                mode,
                hidden@,
                embeddings@,
                output_corrector@.take(n_bands as int),
                vocab_size as int,
            ),
            v <= vocab_size,
            out.ok(*ops),
            out.e@ == es.take(v as int),
        decreases vocab_size - v,
    {
        assert(2 * n_bands <= embeddings@[v as int]@.len());
        let row: TracedVec<T> = traced(ops, &embeddings[v]);
        let theirs: TracedVec<T> = phases_on(ops, &row, n_bands);
        out.push(ops, token_score_on(ops, mode, &phases, &mags, &theirs));
        v += 1;
        assert(out.e@ =~= es.take(v as int));
    }
    assert(es.take(vocab_size as int) =~= es);
    out.v
}

/// The scores of a state turned by `angles` against the embeddings.
pub open spec fn plain_scores<T>(
    hidden: Seq<T>,
    embeddings: Seq<Vec<T>>,
    angles: Seq<T>,
    vocab_size: int,
) -> Seq<Expr<T>> {
    Seq::new(
        vocab_size as nat,
        |v: int| dot_of(zero(), turned_of(vals(hidden), vals(angles)), vals(embeddings[v]@)),
    )
}

/// Scores every token by the product of its embedding with the state, after the state's
/// bands are turned.
pub fn decode_v1<T: Copy, A: Arith<T>>(
    ops: &A,
    hidden: &[T],
    embeddings: &Vec<Vec<T>>,
    output_corrector: &[T],
    n_bands: usize,
    vocab_size: usize,
) -> (out: Vec<T>)
    requires
        n_bands <= output_corrector@.len(),
        2 * n_bands <= hidden@.len(),
        vocab_size <= embeddings@.len(),
        forall|v: int|
            0 <= v < vocab_size ==> 2 * n_bands <= (#[trigger] embeddings@[v])@.len(),
    ensures
        fits_all(
            *ops,
            plain_scores(
                hidden@,
                embeddings@,
                output_corrector@.take(n_bands as int),
                vocab_size as int,
            ),
            out@,
        ),
{
    let angles: TracedVec<T> = TracedVec::of(ops, take(output_corrector, 0, n_bands));
    assert(output_corrector@.subrange(0, n_bands as int) =~= output_corrector@.take(
        n_bands as int,
    ));
    let x: TracedVec<T> = turned_on(ops, &traced(ops, hidden), &angles, n_bands);
    let ghost es = plain_scores(
        hidden@,
        embeddings@,
        output_corrector@.take(n_bands as int),
        vocab_size as int,
    );
    let mut out: TracedVec<T> = TracedVec::new(ops);
    let mut v: usize = 0;
    assert(out.e@ =~= es.take(0));
    while v < vocab_size
        invariant
            vocab_size <= embeddings@.len(),
            forall|v: int|
                0 <= v < vocab_size ==> 2 * n_bands <= (#[trigger] embeddings@[v])@.len(),
            x.ok(*ops),
            x.v@.len() == 2 * n_bands,
            x.e@ == turned_of(vals(hidden@), vals(output_corrector@.take(n_bands as int))),
            es == plain_scores(
                hidden@,
                embeddings@,
                output_corrector@.take(n_bands as int),
                vocab_size as int,
            ),
            v <= vocab_size,
            out.ok(*ops),
            out.e@ == es.take(v as int),
        decreases vocab_size - v,
    {
        assert(2 * n_bands <= embeddings@[v as int]@.len());
        out.push(ops, score(ops, &x, &traced(ops, &embeddings[v])));
        v += 1;
        assert(out.e@ =~= es.take(v as int));
    }
    assert(es.take(vocab_size as int) =~= es);
    out.v
}

/// The last of the largest among the first `n` entries is at `at`: entry by entry, the one
/// held gives way unless it exceeds the next.
pub open spec fn last_top<T: Copy, A: Arith<T>>(ops: A, xs: Seq<T>, n: int, at: int) -> bool
    decreases n,
{
    if n <= 1 {
        at == 0
    } else {
        exists|held: int, keeps: bool| #[trigger]
            test_is(ops, Test::Exceeds, xs[held], xs[n - 1], keeps) && last_top(
                ops,
                xs,
                n - 1,
                held,
            ) && 0 <= held < n - 1 && at == (if keeps {
                held
            } else {
                n - 1
            })
    }
}

/// The place of the last of the largest entries.
pub fn argmax<T: Copy, A: Arith<T>>(ops: &A, xs: &[T]) -> (at: usize)
    requires
        xs@.len() > 0,
    ensures
        at < xs@.len(),
        last_top(*ops, xs@, xs@.len() as int, at as int),
{
    let n: usize = xs.len();
    let mut at: usize = 0;
    let mut i: usize = 1;
    while i < n
        invariant
            n == xs@.len(),
            1 <= i <= n,
            at < i,
            last_top(*ops, xs@, i as int, at as int),
        decreases n - i,
    {
        let keeps: bool = ops.exceeds(xs[at], xs[i]);
        let ghost held = at as int;
        if !keeps {
            at = i;
        }
        i += 1;
        assert(test_is(*ops, Test::Exceeds, xs@[held], xs@[i - 1], keeps));
    }
    at
}

/// The mean cosine between the phases of two vectors' bands.
pub open spec fn phase_coherence<T>(a: Seq<Expr<T>>, b: Seq<Expr<T>>, n: int) -> Expr<T> {
    over(
        total_of(
            Seq::new(
                n as nat,
                |k: int| un(Unary::Cos, minus(phases_of(a, n)[k], phases_of(b, n)[k])),
            ),
        ),
        Expr::Count(n as usize),
    )
}

/// How a token fares with a state.
pub struct TokenCoherence<T> {
    pub token: usize,
    pub coherence: T,
    pub logit: T,
}

fn phase_coherence_on<T: Copy, A: Arith<T>>(
    ops: &A,
    a: &TracedVec<T>,
    b: &TracedVec<T>,
    n: usize,
) -> (out: Traced<T>)
    requires
        a.ok(*ops),
        b.ok(*ops),
        2 * n <= a.v@.len(),
        2 * n <= b.v@.len(),
    ensures
        out.ok(*ops),
        out.e@ == phase_coherence(a.e@, b.e@, n as int),
{
    let pa: TracedVec<T> = phases_on(ops, a, n);
    let pb: TracedVec<T> = phases_on(ops, b, n);
    let ghost es = Seq::new(
        n as nat,
        |k: int|
            un(Unary::Cos, minus(phases_of(a.e@, n as int)[k], phases_of(b.e@, n as int)[k])),
    );
    let mut list: TracedVec<T> = TracedVec::new(ops);
    let mut k: usize = 0;
    assert(list.e@ =~= es.take(0));
    while k < n
        invariant
            pa.ok(*ops),
            pb.ok(*ops),
            pa.v@.len() == n,
            pb.v@.len() == n,
            pa.e@ == phases_of(a.e@, n as int),
            pb.e@ == phases_of(b.e@, n as int),
            es == Seq::new(
                n as nat,
                |k: int|
                    un(
                        Unary::Cos,
                        minus(phases_of(a.e@, n as int)[k], phases_of(b.e@, n as int)[k]),
                    ),
            ),
            k <= n,
            list.ok(*ops),
            list.e@ == es.take(k as int),
        decreases n - k,
    {
        list.push(ops, pa.get(ops, k).minus(ops, pb.get(ops, k)).cos(ops));
        k += 1;
        assert(list.e@ =~= es.take(k as int));
    }
    assert(list.e@ =~= es);
    total(ops, &list).over(ops, Traced::count(ops, n))
}

/// The coherences of the first `n` tokens.
pub open spec fn coherences_of<T>(list: Seq<TokenCoherence<T>>) -> Seq<T> {
    list.map_values(|c: TokenCoherence<T>| c.coherence)
}

/// The logits of the first `n` tokens.
pub open spec fn logits_of<T>(list: Seq<TokenCoherence<T>>) -> Seq<T> {
    list.map_values(|c: TokenCoherence<T>| c.logit)
}

/// A state read by its phases against the embeddings of the first `vocab` tokens, and by the rows
/// of the output matrix: the token whose embedding agrees best in phase, the token of the highest
/// logit, and what each token got.
pub open spec fn read_by_phase<T: Copy, A: Arith<T>>(
    ops: A,
    hidden: Seq<T>,
    wte: Seq<Vec<T>>,
    lm_head: Seq<Vec<T>>,
    n_bands: int,
    vocab: int,
    res: (usize, usize, Vec<TokenCoherence<T>>),
) -> bool {
    &&& res.2@.len() == vocab
    &&& forall|v: int|
        0 <= v < res.2@.len() ==> {
            &&& (#[trigger] res.2@[v]).token == v
            &&& fits(
                ops,
                phase_coherence(vals(hidden), vals(wte[v]@), n_bands),
                res.2@[v].coherence,
            )
            &&& fits(ops, dot_of(zero(), vals(lm_head[v]@), vals(hidden)), res.2@[v].logit)
        }
    &&& res.0 < vocab
    &&& res.1 < vocab
    &&& last_top(ops, coherences_of(res.2@), res.2@.len() as int, res.0 as int)
    &&& last_top(ops, logits_of(res.2@), res.2@.len() as int, res.1 as int)
}

/// Decodes a state in two ways: by phase coherence with the tokens' embeddings, and by the
/// products with the rows of the output matrix. The two tokens, and how every token fares.
pub fn phase_decode<T: Copy, A: Arith<T>>(
    ops: &A,
    hidden: &[T],
    wte: &Vec<Vec<T>>,
    lm_head: &Vec<Vec<T>>,
    n_bands: usize,
    vocab: usize,
) -> (res: (usize, usize, Vec<TokenCoherence<T>>))
    requires
        vocab > 0,
        vocab <= lm_head@.len(),
        vocab <= wte@.len(),
        2 * n_bands <= hidden@.len(),
        forall|v: int| 0 <= v < vocab ==> (#[trigger] lm_head@[v])@.len() == hidden@.len(),
        forall|v: int| 0 <= v < vocab ==> 2 * n_bands <= (#[trigger] wte@[v])@.len(),
    ensures
        read_by_phase(
            *ops,
            hidden@,
            wte@,
            lm_head@,
            n_bands as int,
            vocab as int,
            res,
        ),
{
    let h: TracedVec<T> = traced(ops, hidden);
    let mut list: Vec<TokenCoherence<T>> = Vec::new();
    let mut coherences: Vec<T> = Vec::new();
    let mut logits: Vec<T> = Vec::new();
    let mut v: usize = 0;
    while v < vocab
        invariant
            vocab <= lm_head@.len(),
            vocab <= wte@.len(),
            2 * n_bands <= hidden@.len(),
            forall|v: int| 0 <= v < vocab ==> (#[trigger] lm_head@[v])@.len() == hidden@.len(),
            forall|v: int| 0 <= v < vocab ==> 2 * n_bands <= (#[trigger] wte@[v])@.len(),
            h.ok(*ops),
            h.v@ == hidden@,
            h.e@ == vals(hidden@),
            v <= vocab,
            list@.len() == v,
            forall|i: int|
                0 <= i < v ==> {
                    &&& (#[trigger] list@[i]).token == i
                    &&& fits(
                        *ops,
                        phase_coherence(vals(hidden@), vals(wte@[i]@), n_bands as int),
                        list@[i].coherence,
                    )
                    &&& fits(
                        *ops,
                        dot_of(zero(), vals(lm_head@[i]@), vals(hidden@)),
                        list@[i].logit,
                    )
                },
            coherences@ == coherences_of(list@),
            logits@ == logits_of(list@),
        decreases vocab - v,
    {
        assert(lm_head@[v as int]@.len() == hidden@.len());
        let row: TracedVec<T> = traced(ops, &lm_head[v]);
        let logit: Traced<T> = score(ops, &row, &h);
        assert(2 * n_bands <= wte@[v as int]@.len());
        let own: TracedVec<T> = traced(ops, &wte[v]);
        let coherence: Traced<T> = phase_coherence_on(ops, &h, &own, n_bands);
        coherences.push(coherence.v);
        logits.push(logit.v);
        list.push(TokenCoherence { token: v, coherence: coherence.v, logit: logit.v });
        v += 1;
        assert(coherences@ =~= coherences_of(list@));
        assert(logits@ =~= logits_of(list@));
    }
    let phase_token: usize = argmax(ops, &coherences);
    let lm_token: usize = argmax(ops, &logits);
    (phase_token, lm_token, list)
}

/// The scores of both decoders on the last position of a pass.
pub fn compare_decoders<T: Copy, A: Arith<T>>(
    ops: &A,
    model: &WavePacketModel<T>,
    post_ln_f: &Vec<Vec<T>>,
    n_bands: usize,
    mode: DecodeMode,
) -> (scores: (Vec<T>, Vec<T>))
    requires
        post_ln_f@.len() > 0,
        2 * n_bands <= post_ln_f@.last()@.len(),
        n_bands <= model.output_corrector@.len(),
        model.vocab_size <= model.wte@.len(),
        forall|v: int|
            0 <= v < model.vocab_size ==> 2 * n_bands <= (#[trigger] model.wte@[v])@.len(),
    ensures
        fits_all(
            *ops,
            plain_scores(
                post_ln_f@.last()@,
                model.wte@,
                model.output_corrector@.take(n_bands as int),
                model.vocab_size as int,
            ),
            scores.0@,
        ),
        fits_all(
            *ops,
            decode_of(
                mode,
                post_ln_f@.last()@,
                model.wte@,
                model.output_corrector@.take(n_bands as int),
                model.vocab_size as int,
            ),
            scores.1@,
        ),
{
    let hidden: &[T] = post_ln_f[post_ln_f.len() - 1].as_slice();
    let corrector: &[T] = model.output_corrector.as_slice();
    let first: Vec<T> = decode_v1(
        ops,
        hidden,
        &model.wte,
        corrector,
        n_bands,
        model.vocab_size,
    );
    let second: Vec<T> = decode_v2(
        ops,
        hidden,
        &model.wte,
        corrector,
        n_bands,
        model.vocab_size,
        mode,
    );
    (first, second)
}

/// The last position of a pass, read by its phases against every token's embedding and by the rows
/// of the output matrix: the token whose embedding agrees best in phase, the token of the highest
/// logit, and what each token got.
pub fn phase_decode_compare<T: Copy, A: Arith<T>>(
    ops: &A,
    model: &WavePacketModel<T>,
    post_ln_f: &Vec<Vec<T>>,
    n_bands: usize,
) -> (res: (usize, usize, Vec<TokenCoherence<T>>))
    requires
        post_ln_f@.len() > 0,
        2 * n_bands <= post_ln_f@.last()@.len(),
        model.vocab_size > 0,
        model.vocab_size <= model.lm_head@.len(),
        model.vocab_size <= model.wte@.len(),
        forall|v: int|
            0 <= v < model.vocab_size ==> (#[trigger] model.lm_head@[v])@.len()
                == post_ln_f@.last()@.len(),
        forall|v: int|
            0 <= v < model.vocab_size ==> 2 * n_bands <= (#[trigger] model.wte@[v])@.len(),
    ensures
        read_by_phase(
            *ops,
            post_ln_f@.last()@,
            model.wte@,
            model.lm_head@,
            n_bands as int,
            model.vocab_size as int,
            res,
        ),
{
    let hidden: &[T] = post_ln_f[post_ln_f.len() - 1].as_slice();
    phase_decode(ops, hidden, &model.wte, &model.lm_head, n_bands, model.vocab_size)
}

} // verus!
