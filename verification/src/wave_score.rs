//! The wave decoder: tokens scored by the agreement of phases with reference phases.

use vstd::prelude::*;
use crate::arith::{Arith, Test, Traced, TracedVec, pick_on, total};
#[allow(unused_imports)]
use crate::arith::{
    Expr, Unary, fits, fits_all, larger, minus, one, over, pick, plus, times, total_of, un, val,
    vals, zero,
};
#[allow(unused_imports)]
use crate::attention::rows_fit;
use crate::coherence::{mags_on, phases_on};
#[allow(unused_imports)]
use crate::coherence::{mags_of, phases_of};
use crate::kerr::energy_on;
#[allow(unused_imports)]
use crate::kerr::energy_of;
use crate::layers::traced;
use crate::wave_decode::{WaveDecodeGrads, WaveDecodeState};

verus! {

/// What the wave decoder reads off a state: the cosine, the sine and the magnitude of every
/// band.
pub struct Reading<T> {
    pub cos: Seq<Expr<T>>,
    pub sin: Seq<Expr<T>>,
    pub mag: Seq<Expr<T>>,
}

/// The reading of a state. On the way back magnitudes count as no less than a millionth.
pub open spec fn reading_of<T>(x: Seq<Expr<T>>, n: int, floored: bool) -> Reading<T> {
    Reading {
        cos: Seq::new(n as nat, |k: int| un(Unary::Cos, phases_of(x, n)[k])),
        sin: Seq::new(n as nat, |k: int| un(Unary::Sin, phases_of(x, n)[k])),
        mag: Seq::new(
            n as nat,
            |k: int|
                if floored {
                    larger(mags_of(x, n)[k], Expr::Ratio(1, 1000000))
                } else {
                    mags_of(x, n)[k]
                },
        ),
    }
}

/// A reading, traced.
struct ReadingState<T> {
    cos: TracedVec<T>,
    sin: TracedVec<T>,
    mag: TracedVec<T>,
}

impl<T: Copy> ReadingState<T> {
    spec fn ok<A: Arith<T>>(&self, ops: A, n: int) -> bool {
        &&& self.cos.ok(ops)
        &&& self.sin.ok(ops)
        &&& self.mag.ok(ops)
        &&& self.cos.v@.len() == n
        &&& self.sin.v@.len() == n
        &&& self.mag.v@.len() == n
    }

    spec fn reading(&self) -> Reading<T> {
        Reading { cos: self.cos.e@, sin: self.sin.e@, mag: self.mag.e@ }
    }
}

fn reading_on<T: Copy, A: Arith<T>>(ops: &A, x: &TracedVec<T>, n: usize, floored: bool) -> (out:
    ReadingState<T>)
    requires
        x.ok(*ops),
        2 * n <= x.v@.len(),
    ensures
        out.ok(*ops, n as int),
        out.reading() == reading_of(x.e@, n as int, floored),
{
    let phases: TracedVec<T> = phases_on(ops, x, n);
    let mags: TracedVec<T> = mags_on(ops, x, n);
    let ghost want = reading_of(x.e@, n as int, floored);
    let mut cos: TracedVec<T> = TracedVec::new(ops);
    let mut sin: TracedVec<T> = TracedVec::new(ops);
    let mut mag: TracedVec<T> = TracedVec::new(ops);
    let mut k: usize = 0;
    assert(cos.e@ =~= want.cos.take(0));
    assert(sin.e@ =~= want.sin.take(0));
    assert(mag.e@ =~= want.mag.take(0));
    while k < n
        invariant
            phases.ok(*ops),
            mags.ok(*ops),
            phases.v@.len() == n,
            mags.v@.len() == n,
            phases.e@ == phases_of(x.e@, n as int),
            mags.e@ == mags_of(x.e@, n as int),
            want == reading_of(x.e@, n as int, floored),
            k <= n,
            cos.ok(*ops),
            sin.ok(*ops),
            mag.ok(*ops),
            cos.e@ == want.cos.take(k as int),
            sin.e@ == want.sin.take(k as int),
            mag.e@ == want.mag.take(k as int),
        decreases n - k,
    {
        let theta: Traced<T> = phases.get(ops, k);
        cos.push(ops, theta.cos(ops));
        sin.push(ops, theta.sin(ops));
        if floored {
            mag.push(ops, mags.get(ops, k).larger(ops, Traced::ratio(ops, 1, 1000000)));
        } else {
            mag.push(ops, mags.get(ops, k));
        }
        k += 1;
        assert(cos.e@ =~= want.cos.take(k as int));
        assert(sin.e@ =~= want.sin.take(k as int));
        assert(mag.e@ =~= want.mag.take(k as int));
    }
    assert(want.cos.take(n as int) =~= want.cos);
    assert(want.sin.take(n as int) =~= want.sin);
    assert(want.mag.take(n as int) =~= want.mag);
    ReadingState { cos, sin, mag }
}

/// What every band adds to the score of a token: the weighted cosine of the difference of
/// phases, written out.
pub open spec fn band_scores<T>(
    x: Reading<T>,
    weights: Seq<T>,
    cos: Seq<T>,
    sin: Seq<T>,
) -> Seq<Expr<T>> {
    Seq::new(
        weights.len(),
        |k: int|
            {
                let wm = times(val(weights[k]), x.mag[k]);
                plus(
                    times(times(wm, x.cos[k]), val(cos[k])),
                    times(times(wm, x.sin[k]), val(sin[k])),
                )
            },
    )
}

/// The logits of a state.
pub open spec fn wave_logits<T>(x: Seq<Expr<T>>, s: WaveDecodeState<T>) -> Seq<Expr<T>> {
    Seq::new(
        s.vocab_size as nat,
        |v: int|
            times(
                total_of(
                    band_scores(
                        reading_of(x, s.n_bands as int, false),
                        s.band_weights@,
                        s.token_cos@[v]@,
                        s.token_sin@[v]@,
                    ),
                ),
                val(s.temperature),
            ),
    )
}

/// A decoder whose tables cover its tokens and bands.
pub open spec fn tables_cover<T>(s: WaveDecodeState<T>) -> bool {
    &&& s.band_weights@.len() == s.n_bands
    &&& s.vocab_size <= s.token_cos@.len()
    &&& s.vocab_size <= s.token_sin@.len()
    &&& forall|v: int|
        0 <= v < s.vocab_size ==> s.n_bands <= (#[trigger] s.token_cos@[v])@.len()
    &&& forall|v: int|
        0 <= v < s.vocab_size ==> s.n_bands <= (#[trigger] s.token_sin@[v])@.len()
}

fn wave_logits_on<T: Copy, A: Arith<T>>(ops: &A, x: &TracedVec<T>, s: &WaveDecodeState<T>) -> (out:
    TracedVec<T>)
    requires
        x.ok(*ops),
        tables_cover(*s),
        2 * s.n_bands <= x.v@.len(),
    ensures
        out.ok(*ops),
        out.e@ == wave_logits(x.e@, *s),
{
    let n: usize = s.n_bands;
    let vocab: usize = s.vocab_size;
    let read: ReadingState<T> = reading_on(ops, x, n, false);
    let ghost es = wave_logits(x.e@, *s);
    let mut out: TracedVec<T> = TracedVec::new(ops);
    let mut v: usize = 0;
    assert(out.e@ =~= es.take(0));
    while v < vocab
        invariant
            tables_cover(*s),
            n == s.n_bands,
            vocab == s.vocab_size,
            read.ok(*ops, n as int),
            read.reading() == reading_of(x.e@, n as int, false),
            es == wave_logits(x.e@, *s),
            v <= vocab,
            out.ok(*ops),
            out.e@ == es.take(v as int),
        decreases vocab - v,
    {
        assert(n <= s.token_cos@[v as int]@.len());
        assert(n <= s.token_sin@[v as int]@.len());
        let tc: &Vec<T> = &s.token_cos[v];
        let ts: &Vec<T> = &s.token_sin[v];
        let ghost bs = band_scores(read.reading(), s.band_weights@, tc@, ts@);
        let mut parts: TracedVec<T> = TracedVec::new(ops);
        let mut k: usize = 0;
        assert(parts.e@ =~= bs.take(0));
        while k < n
            invariant
                n == s.band_weights@.len(),
                n <= tc@.len(),
                n <= ts@.len(),
                read.ok(*ops, n as int),
                bs == band_scores(read.reading(), s.band_weights@, tc@, ts@),
                k <= n,
                parts.ok(*ops),
                parts.e@ == bs.take(k as int),
            decreases n - k,
        {
            let wm: Traced<T> = Traced::of(ops, s.band_weights[k]).times(
                ops,
                read.mag.get(ops, k),
            );
            let a: Traced<T> = wm.times(ops, read.cos.get(ops, k)).times(
                ops,
                Traced::of(ops, tc[k]),
            );
            let b: Traced<T> = wm.times(ops, read.sin.get(ops, k)).times(
                ops,
                Traced::of(ops, ts[k]),
            );
            parts.push(ops, a.plus(ops, b));
            k += 1;
            assert(parts.e@ =~= bs.take(k as int));
        }
        assert(parts.e@ =~= bs);
        out.push(ops, total(ops, &parts).times(ops, Traced::of(ops, s.temperature)));
        v += 1;
        assert(out.e@ =~= es.take(v as int));
    }
    assert(es.take(vocab as int) =~= es);
    out
}

/// The logits of every position through the wave decoder.
pub fn forward<T: Copy, A: Arith<T>>(
    ops: &A,
    post_ln_f: &Vec<Vec<T>>,
    state: &WaveDecodeState<T>,
) -> (out: Vec<Vec<T>>)
    requires
        tables_cover(*state),
        forall|p: int|
            0 <= p < post_ln_f@.len() ==> 2 * state.n_bands <= (#[trigger] post_ln_f@[p])@.len(),
    ensures
        rows_fit(
            *ops,
            Seq::new(post_ln_f@.len(), |p: int| wave_logits(vals(post_ln_f@[p]@), *state)),
            out@,
        ),
{
    let t: usize = post_ln_f.len();
    let mut out: Vec<Vec<T>> = Vec::new();
    let mut p: usize = 0;
    while p < t
        invariant
            t == post_ln_f@.len(),
            tables_cover(*state),
            forall|p: int|
                0 <= p < post_ln_f@.len() ==> 2 * state.n_bands <= (
                #[trigger] post_ln_f@[p])@.len(),
            p <= t,
            out@.len() == p,
            forall|i: int|
                0 <= i < p ==> fits_all(
                    *ops,
                    wave_logits(vals(post_ln_f@[i]@), *state),
                    (#[trigger] out@[i])@,
                ),
        decreases t - p,
    {
        assert(2 * state.n_bands <= post_ln_f@[p as int]@.len());
        let row: TracedVec<T> = wave_logits_on(ops, &traced(ops, &post_ln_f[p]), state);
        out.push(row.v);
        p += 1;
    }
    out
}

/// What token `v` and band `k` of a position come to on the way back.
pub struct Pair<T> {
    /// Cosine of the difference of phases.
    pub cos_d: Expr<T>,
    /// Sine of the difference of phases.
    pub sin_d: Expr<T>,
}

/// The difference of phases of token `v` and band `k`.
pub open spec fn pair_of<T>(x: Reading<T>, s: WaveDecodeState<T>, v: int, k: int) -> Pair<T> {
    let tc = val(s.token_cos@[v]@[k]);
    let ts = val(s.token_sin@[v]@[k]);
    Pair {
        cos_d: plus(times(x.cos[k], tc), times(x.sin[k], ts)),
        sin_d: minus(times(x.sin[k], tc), times(x.cos[k], ts)),
    }
}

/// A gradient of a logit, with the temperature.
pub open spec fn heated<T>(dl: T, s: WaveDecodeState<T>) -> Expr<T> {
    times(val(dl), val(s.temperature))
}

/// What a logit adds to the gradient of weight `k`.
pub open spec fn weight_gain<T>(
    x: Reading<T>,
    s: WaveDecodeState<T>,
    dl: T,
    v: int,
    k: int,
) -> Expr<T> {
    times(times(heated(dl, s), x.mag[k]), pair_of(x, s, v, k).cos_d)
}

/// What a logit adds to the gradient of a component of band `k`: through the phase and
/// through the magnitude.
pub open spec fn state_gain<T>(
    h: Seq<T>,
    x: Reading<T>,
    s: WaveDecodeState<T>,
    dl: T,
    v: int,
    k: int,
    first: bool,
) -> Expr<T> {
    let p = pair_of(x, s, v, k);
    let w = val(s.band_weights@[k]);
    let (r, i) = (val(h[2 * k]), val(h[2 * k + 1]));
    let sq = larger(energy_of(r, i), Expr::Ratio(1, 1000000000000));
    let by_theta = times(times(un(Unary::Negated, w), x.mag[k]), p.sin_d);
    let by_mag = times(w, p.cos_d);
    let theta_slope = if first {
        over(un(Unary::Negated, i), sq)
    } else {
        over(r, sq)
    };
    let mag_slope = if first {
        over(r, x.mag[k])
    } else {
        over(i, x.mag[k])
    };
    times(heated(dl, s), plus(times(by_theta, theta_slope), times(by_mag, mag_slope)))
}

/// What a logit adds to the gradient of the reference phase of token `v` and band `k`.
pub open spec fn phase_gain<T>(
    x: Reading<T>,
    s: WaveDecodeState<T>,
    dl: T,
    v: int,
    k: int,
) -> Expr<T> {
    times(
        times(times(heated(dl, s), val(s.band_weights@[k])), x.mag[k]),
        pair_of(x, s, v, k).sin_d,
    )
}

/// `acc` with `gain` added, unless the gradient `dl` is next to nothing.
pub open spec fn guarded<T>(acc: Expr<T>, dl: T, gain: Expr<T>) -> Expr<T> {
    pick(
        Test::Exceeds,
        Expr::Ratio(1, 10000000000),
        un(Unary::Abs, val(dl)),
        acc,
        plus(acc, gain),
    )
}

/// What all of the first `n` logits of a position add to the gradient of weight `k`.
pub open spec fn weight_sum<T>(
    start: Expr<T>,
    x: Reading<T>,
    s: WaveDecodeState<T>,
    dls: Seq<T>,
    k: int,
    n: int,
) -> Expr<T>
    decreases n,
{
    if n <= 0 {
        start
    } else {
        guarded(
            weight_sum(start, x, s, dls, k, n - 1),
            dls[n - 1],
            weight_gain(x, s, dls[n - 1], n - 1, k),
        )
    }
}

/// What all of the first `n` logits of a position add to the gradient of a component.
pub open spec fn state_sum<T>(
    h: Seq<T>,
    x: Reading<T>,
    s: WaveDecodeState<T>,
    dls: Seq<T>,
    k: int,
    first: bool,
    n: int,
) -> Expr<T>
    decreases n,
{
    if n <= 0 {
        zero()
    } else {
        guarded(
            state_sum(h, x, s, dls, k, first, n - 1),
            dls[n - 1],
            state_gain(h, x, s, dls[n - 1], n - 1, k, first),
        )
    }
}

/// The reading of a position on the way back.
pub open spec fn read_back<T>(hs: Seq<Vec<T>>, s: WaveDecodeState<T>, p: int) -> Reading<T> {
    reading_of(vals(hs[p]@), s.n_bands as int, true)
}

/// The gradient of weight `k` after the first `n` positions.
pub open spec fn weight_grad<T>(
    dls: Seq<Vec<T>>,
    hs: Seq<Vec<T>>,
    s: WaveDecodeState<T>,
    k: int,
    n: int,
) -> Expr<T>
    decreases n,
{
    if n <= 0 {
        zero()
    } else {
        weight_sum(
            weight_grad(dls, hs, s, k, n - 1),
            read_back(hs, s, n - 1),
            s,
            dls[n - 1]@,
            k,
            s.vocab_size as int,
        )
    }
}

/// The gradient of the reference phase of token `v` and band `k` after the first `n`
/// positions.
pub open spec fn phase_grad<T>(
    dls: Seq<Vec<T>>,
    hs: Seq<Vec<T>>,
    s: WaveDecodeState<T>,
    v: int,
    k: int,
    n: int,
) -> Expr<T>
    decreases n,
{
    if n <= 0 {
        zero()
    } else {
        guarded(
            phase_grad(dls, hs, s, v, k, n - 1),
            dls[n - 1]@[v],
            phase_gain(read_back(hs, s, n - 1), s, dls[n - 1]@[v], v, k),
        )
    }
}

/// The gradients of a position's components.
pub open spec fn state_grads<T>(h: Seq<T>, s: WaveDecodeState<T>, dls: Seq<T>) -> Seq<Expr<T>> {
    let x = reading_of(vals(h), s.n_bands as int, true);
    Seq::new(
        2 * s.n_bands as nat,
        |i: int| state_sum(h, x, s, dls, i / 2, i % 2 == 0, s.vocab_size as int),
    )
}

/// What every band adds to the score of token `v` before the temperature.
pub open spec fn raw_parts<T>(x: Reading<T>, s: WaveDecodeState<T>, v: int) -> Seq<Expr<T>> {
    Seq::new(
        s.n_bands as nat,
        |k: int|
            times(times(val(s.band_weights@[k]), x.mag[k]), pair_of(x, s, v, k).cos_d),
    )
}

/// What every token of a position adds to the gradient of the temperature.
pub open spec fn heat_parts<T>(x: Reading<T>, s: WaveDecodeState<T>, dls: Seq<T>) -> Seq<Expr<T>> {
    Seq::new(
        s.vocab_size as nat,
        |v: int| times(total_of(raw_parts(x, s, v)), val(dls[v])),
    )
}

/// What every position adds to the gradient of the temperature.
pub open spec fn heats_of<T>(dls: Seq<Vec<T>>, hs: Seq<Vec<T>>, s: WaveDecodeState<T>) -> Seq<
    Expr<T>,
> {
    Seq::new(
        dls.len(),
        |p: int| total_of(heat_parts(read_back(hs, s, p), s, dls[p]@)),
    )
}

/// Gradients of logits and states that a decoder can go back through.
pub open spec fn grads_cover<T>(
    dls: Seq<Vec<T>>,
    hs: Seq<Vec<T>>,
    s: WaveDecodeState<T>,
) -> bool {
    &&& dls.len() <= hs.len()
    &&& forall|p: int| 0 <= p < dls.len() ==> s.vocab_size <= (#[trigger] dls[p])@.len()
    &&& forall|p: int| 0 <= p < dls.len() ==> 2 * s.n_bands <= (#[trigger] hs[p])@.len()
}

fn guarded_on<T: Copy, A: Arith<T>>(ops: &A, acc: Traced<T>, dl: T, gain: Traced<T>) -> (out:
    Traced<T>)
    requires
        acc.ok(*ops),
        gain.ok(*ops),
    ensures
        out.ok(*ops),
        out.e@ == guarded(acc.e@, dl, gain.e@),
{
    pick_on(
        ops,
        Test::Exceeds,
        Traced::ratio(ops, 1, 10000000000),
        Traced::of(ops, dl).abs(ops),
        acc,
        acc.plus(ops, gain),
    )
}

/// Both parts of a difference of phases, traced.
fn pair_on<T: Copy, A: Arith<T>>(
    ops: &A,
    x: &ReadingState<T>,
    s: &WaveDecodeState<T>,
    v: usize,
    k: usize,
) -> (out: (Traced<T>, Traced<T>))
    requires
        tables_cover(*s),
        x.ok(*ops, s.n_bands as int),
        v < s.vocab_size,
        k < s.n_bands,
    ensures
        out.0.ok(*ops),
        out.1.ok(*ops),
        out.0.e@ == pair_of(x.reading(), *s, v as int, k as int).cos_d,
        out.1.e@ == pair_of(x.reading(), *s, v as int, k as int).sin_d,
{
    assert(s.n_bands <= s.token_cos@[v as int]@.len());
    assert(s.n_bands <= s.token_sin@[v as int]@.len());
    let cs: &Vec<T> = &s.token_cos[v];
    let ss: &Vec<T> = &s.token_sin[v];
    let tc: Traced<T> = Traced::of(ops, cs[k]);
    let ts: Traced<T> = Traced::of(ops, ss[k]);
    let xc: Traced<T> = x.cos.get(ops, k);
    let xs: Traced<T> = x.sin.get(ops, k);
    (
        xc.times(ops, tc).plus(ops, xs.times(ops, ts)),
        xs.times(ops, tc).minus(ops, xc.times(ops, ts)),
    )
}

fn state_gain_on<T: Copy, A: Arith<T>>(
    ops: &A,
    h: &[T],
    x: &ReadingState<T>,
    s: &WaveDecodeState<T>,
    dl: T,
    v: usize,
    k: usize,
    first: bool,
) -> (out: Traced<T>)
    requires
        tables_cover(*s),
        x.ok(*ops, s.n_bands as int),
        v < s.vocab_size,
        k < s.n_bands,
        2 * s.n_bands <= h@.len(),
    ensures
        out.ok(*ops),
        out.e@ == state_gain(h@, x.reading(), *s, dl, v as int, k as int, first),
{
    let len: usize = h.len();
    let (cos_d, sin_d) = pair_on(ops, x, s, v, k);
    let w: Traced<T> = Traced::of(ops, s.band_weights[k]);
    let mag: Traced<T> = x.mag.get(ops, k);
    let r: Traced<T> = Traced::of(ops, h[2 * k]);
    let i: Traced<T> = Traced::of(ops, h[2 * k + 1]);
    let sq: Traced<T> = energy_on(ops, r, i).larger(ops, Traced::ratio(ops, 1, 1000000000000));
    let by_theta: Traced<T> = w.negated(ops).times(ops, mag).times(ops, sin_d);
    let by_mag: Traced<T> = w.times(ops, cos_d);
    let heat: Traced<T> = Traced::of(ops, dl).times(ops, Traced::of(ops, s.temperature));
    if first {
        let a: Traced<T> = by_theta.times(ops, i.negated(ops).over(ops, sq));
        heat.times(ops, a.plus(ops, by_mag.times(ops, r.over(ops, mag))))
    } else {
        let a: Traced<T> = by_theta.times(ops, r.over(ops, sq));
        heat.times(ops, a.plus(ops, by_mag.times(ops, i.over(ops, mag))))
    }
}

/// The gradients of a position's components, traced.
fn state_grads_on<T: Copy, A: Arith<T>>(
    ops: &A,
    h: &[T],
    x: &ReadingState<T>,
    s: &WaveDecodeState<T>,
    dls: &[T],
) -> (out: TracedVec<T>)
    requires
        tables_cover(*s),
        x.ok(*ops, s.n_bands as int),
        x.reading() == reading_of(vals(h@), s.n_bands as int, true),
        2 * s.n_bands <= h@.len(),
        s.vocab_size <= dls@.len(),
    ensures
        out.ok(*ops),
        out.e@ == state_grads(h@, *s, dls@),
{
    let len: usize = h.len();
    let n: usize = 2 * s.n_bands;
    let vocab: usize = s.vocab_size;
    let ghost xr = x.reading();
    let ghost es = state_grads(h@, *s, dls@);
    let mut out: TracedVec<T> = TracedVec::new(ops);
    let mut i: usize = 0;
    assert(out.e@ =~= es.take(0));
    while i < n
        invariant
            tables_cover(*s),
            x.ok(*ops, s.n_bands as int),
            xr == x.reading(),
            xr == reading_of(vals(h@), s.n_bands as int, true),
            n == 2 * s.n_bands,
            vocab == s.vocab_size,
            n <= h@.len(),
            vocab <= dls@.len(),
            es == state_grads(h@, *s, dls@),
            i <= n,
            out.ok(*ops),
            out.e@ == es.take(i as int),
        decreases n - i,
    {
        let k: usize = i / 2;
        let first: bool = i % 2 == 0;
        let mut acc: Traced<T> = Traced::ratio(ops, 0, 1);
        let mut v: usize = 0;
        while v < vocab
            invariant
                tables_cover(*s),
                x.ok(*ops, s.n_bands as int),
                xr == x.reading(),
                k < s.n_bands,
                vocab == s.vocab_size,
                2 * s.n_bands <= h@.len(),
                vocab <= dls@.len(),
                v <= vocab,
                acc.ok(*ops),
                acc.e@ == state_sum(h@, xr, *s, dls@, k as int, first, v as int),
            decreases vocab - v,
        {
            let dl: T = dls[v];
            let gain: Traced<T> = state_gain_on(ops, h, x, s, dl, v, k, first);
            acc = guarded_on(ops, acc, dl, gain);
            v += 1;
        }
        out.push(ops, acc);
        i += 1;
        assert(out.e@ =~= es.take(i as int));
    }
    assert(es.take(n as int) =~= es);
    out
}

/// The readings of all positions on the way back.
fn readings_on<T: Copy, A: Arith<T>>(
    ops: &A,
    hs: &Vec<Vec<T>>,
    s: &WaveDecodeState<T>,
    t: usize,
) -> (out: Vec<ReadingState<T>>)
    requires
        t <= hs@.len(),
        forall|p: int| 0 <= p < t ==> 2 * s.n_bands <= (#[trigger] hs@[p])@.len(),
    ensures
        out@.len() == t,
        forall|p: int|
            0 <= p < t ==> (#[trigger] out@[p]).ok(*ops, s.n_bands as int) && out@[p].reading()
                == read_back(hs@, *s, p),
{
    let mut out: Vec<ReadingState<T>> = Vec::new();
    let mut p: usize = 0;
    while p < t
        invariant
            t <= hs@.len(),
            forall|p: int| 0 <= p < t ==> 2 * s.n_bands <= (#[trigger] hs@[p])@.len(),
            p <= t,
            out@.len() == p,
            forall|i: int|
                0 <= i < p ==> (#[trigger] out@[i]).ok(*ops, s.n_bands as int)
                    && out@[i].reading() == read_back(hs@, *s, i),
        decreases t - p,
    {
        assert(2 * s.n_bands <= hs@[p as int]@.len());
        let r: ReadingState<T> = reading_on(ops, &traced(ops, &hs[p]), s.n_bands, true);
        out.push(r);
        p += 1;
    }
    out
}

fn weight_grad_on<T: Copy, A: Arith<T>>(
    ops: &A,
    dls: &Vec<Vec<T>>,
    hs: &Vec<Vec<T>>,
    reads: &Vec<ReadingState<T>>,
    s: &WaveDecodeState<T>,
    k: usize,
) -> (out: Traced<T>)
    requires
        tables_cover(*s),
        grads_cover(dls@, hs@, *s),
        reads@.len() == dls@.len(),
        forall|p: int|
            0 <= p < reads@.len() ==> (#[trigger] reads@[p]).ok(*ops, s.n_bands as int)
                && reads@[p].reading() == read_back(hs@, *s, p),
        k < s.n_bands,
    ensures
        out.ok(*ops),
        out.e@ == weight_grad(dls@, hs@, *s, k as int, dls@.len() as int),
{
    let t: usize = dls.len();
    let vocab: usize = s.vocab_size;
    let mut acc: Traced<T> = Traced::ratio(ops, 0, 1);
    let mut p: usize = 0;
    while p < t
        invariant
            tables_cover(*s),
            grads_cover(dls@, hs@, *s),
            t == dls@.len(),
            reads@.len() == t,
            vocab == s.vocab_size,
            forall|p: int|
                0 <= p < reads@.len() ==> (#[trigger] reads@[p]).ok(*ops, s.n_bands as int)
                    && reads@[p].reading() == read_back(hs@, *s, p),
            k < s.n_bands,
            p <= t,
            acc.ok(*ops),
            acc.e@ == weight_grad(dls@, hs@, *s, k as int, p as int),
        decreases t - p,
    {
        let ghost start = acc.e@;
        assert(reads@[p as int].ok(*ops, s.n_bands as int));
        assert(vocab <= dls@[p as int]@.len());
        let read: &ReadingState<T> = &reads[p];
        let row: &Vec<T> = &dls[p];
        let mut v: usize = 0;
        while v < vocab
            invariant
                tables_cover(*s),
                read.ok(*ops, s.n_bands as int),
                vocab == s.vocab_size,
                vocab <= row@.len(),
                k < s.n_bands,
                v <= vocab,
                acc.ok(*ops),
                acc.e@ == weight_sum(start, read.reading(), *s, row@, k as int, v as int),
            decreases vocab - v,
        {
            let dl: T = row[v];
            let (cos_d, sin_d) = pair_on(ops, read, s, v, k);
            let heat: Traced<T> = Traced::of(ops, dl).times(ops, Traced::of(ops, s.temperature));
            let gain: Traced<T> = heat.times(ops, read.mag.get(ops, k)).times(ops, cos_d);
            acc = guarded_on(ops, acc, dl, gain);
            v += 1;
        }
        p += 1;
    }
    acc
}

fn phase_grad_on<T: Copy, A: Arith<T>>(
    ops: &A,
    dls: &Vec<Vec<T>>,
    hs: &Vec<Vec<T>>,
    reads: &Vec<ReadingState<T>>,
    s: &WaveDecodeState<T>,
    v: usize,
    k: usize,
) -> (out: Traced<T>)
    requires
        tables_cover(*s),
        grads_cover(dls@, hs@, *s),
        reads@.len() == dls@.len(),
        forall|p: int|
            0 <= p < reads@.len() ==> (#[trigger] reads@[p]).ok(*ops, s.n_bands as int)
                && reads@[p].reading() == read_back(hs@, *s, p),
        v < s.vocab_size,
        k < s.n_bands,
    ensures
        out.ok(*ops),
        out.e@ == phase_grad(dls@, hs@, *s, v as int, k as int, dls@.len() as int),
{
    let t: usize = dls.len();
    let mut acc: Traced<T> = Traced::ratio(ops, 0, 1);
    let mut p: usize = 0;
    while p < t
        invariant
            tables_cover(*s),
            grads_cover(dls@, hs@, *s),
            t == dls@.len(),
            reads@.len() == t,
            forall|p: int|
                0 <= p < reads@.len() ==> (#[trigger] reads@[p]).ok(*ops, s.n_bands as int)
                    && reads@[p].reading() == read_back(hs@, *s, p),
            v < s.vocab_size,
            k < s.n_bands,
            p <= t,
            acc.ok(*ops),
            acc.e@ == phase_grad(dls@, hs@, *s, v as int, k as int, p as int),
        decreases t - p,
    {
        assert(reads@[p as int].ok(*ops, s.n_bands as int));
        assert(s.vocab_size <= dls@[p as int]@.len());
        let read: &ReadingState<T> = &reads[p];
        let row: &Vec<T> = &dls[p];
        let dl: T = row[v];
        let (cos_d, sin_d) = pair_on(ops, read, s, v, k);
        let heat: Traced<T> = Traced::of(ops, dl).times(ops, Traced::of(ops, s.temperature));
        let gain: Traced<T> = heat.times(ops, Traced::of(ops, s.band_weights[k])).times(
            ops,
            read.mag.get(ops, k),
        ).times(ops, sin_d);
        acc = guarded_on(ops, acc, dl, gain);
        p += 1;
    }
    acc
}

fn heat_on<T: Copy, A: Arith<T>>(
    ops: &A,
    dls: &[T],
    read: &ReadingState<T>,
    s: &WaveDecodeState<T>,
) -> (out: Traced<T>)
    requires
        tables_cover(*s),
        read.ok(*ops, s.n_bands as int),
        s.vocab_size <= dls@.len(),
    ensures
        out.ok(*ops),
        out.e@ == total_of(heat_parts(read.reading(), *s, dls@)),
{
    let n: usize = s.n_bands;
    let vocab: usize = s.vocab_size;
    let ghost es = heat_parts(read.reading(), *s, dls@);
    let mut parts: TracedVec<T> = TracedVec::new(ops);
    let mut v: usize = 0;
    assert(parts.e@ =~= es.take(0));
    while v < vocab
        invariant
            tables_cover(*s),
            read.ok(*ops, s.n_bands as int),
            n == s.n_bands,
            vocab == s.vocab_size,
            vocab <= dls@.len(),
            es == heat_parts(read.reading(), *s, dls@),
            v <= vocab,
            parts.ok(*ops),
            parts.e@ == es.take(v as int),
        decreases vocab - v,
    {
        let ghost bs = raw_parts(read.reading(), *s, v as int);
        let mut bands: TracedVec<T> = TracedVec::new(ops);
        let mut k: usize = 0;
        assert(bands.e@ =~= bs.take(0));
        while k < n
            invariant
                tables_cover(*s),
                read.ok(*ops, s.n_bands as int),
                n == s.n_bands,
                v < s.vocab_size,
                bs == raw_parts(read.reading(), *s, v as int),
                k <= n,
                bands.ok(*ops),
                bands.e@ == bs.take(k as int),
            decreases n - k,
        {
            let (cos_d, sin_d) = pair_on(ops, read, s, v, k);
            let wm: Traced<T> = Traced::of(ops, s.band_weights[k]).times(
                ops,
                read.mag.get(ops, k),
            );
            bands.push(ops, wm.times(ops, cos_d));
            k += 1;
            assert(bands.e@ =~= bs.take(k as int));
        }
        assert(bands.e@ =~= bs);
        parts.push(ops, total(ops, &bands).times(ops, Traced::of(ops, dls[v])));
        v += 1;
        assert(parts.e@ =~= es.take(v as int));
    }
    assert(parts.e@ =~= es);
    total(ops, &parts)
}

/// The gradients of the states and of the decoder, out of those of the logits.
pub fn backward<T: Copy, A: Arith<T>>(
    ops: &A,
    d_logits: &Vec<Vec<T>>,
    post_ln_f: &Vec<Vec<T>>,
    state: &WaveDecodeState<T>,
) -> (res: (Vec<Vec<T>>, WaveDecodeGrads<T>))
    requires
        tables_cover(*state),
        grads_cover(d_logits@, post_ln_f@, *state),
        2 * state.n_bands <= usize::MAX,
    ensures
        rows_fit(
            *ops,
            Seq::new(
                d_logits@.len(),
                |p: int| state_grads(post_ln_f@[p]@, *state, d_logits@[p]@),
            ),
            res.0@,
        ),
        fits_all(
            *ops,
            Seq::new(
                state.n_bands as nat,
                |k: int|
                    weight_grad(d_logits@, post_ln_f@, *state, k, d_logits@.len() as int),
            ),
            res.1.d_band_weights@,
        ),
        fits(*ops, total_of(heats_of(d_logits@, post_ln_f@, *state)), res.1.d_temperature),
        res.1.d_ref_phases is Some <==> state.ref_phases is Some,
        res.1.d_ref_phases matches Some(rows) ==> rows_fit(
            *ops,
            Seq::new(
                state.vocab_size as nat,
                |v: int|
                    Seq::new(
                        state.n_bands as nat,
                        |k: int|
                            phase_grad(
                                d_logits@,
                                post_ln_f@,
                                *state,
                                v,
                                k,
                                d_logits@.len() as int,
                            ),
                    ),
            ),
            rows@,
        ),
{
    let t: usize = d_logits.len();
    let n: usize = state.n_bands;
    let vocab: usize = state.vocab_size;
    let reads: Vec<ReadingState<T>> = readings_on(ops, post_ln_f, state, t);
    let ghost hs_of = heats_of(d_logits@, post_ln_f@, *state);
    let mut d_hidden: Vec<Vec<T>> = Vec::new();
    let mut heats: TracedVec<T> = TracedVec::new(ops);
    let mut p: usize = 0;
    assert(heats.e@ =~= hs_of.take(0));
    while p < t
        invariant
            tables_cover(*state),
            grads_cover(d_logits@, post_ln_f@, *state),
            t == d_logits@.len(),
            reads@.len() == t,
            forall|p: int|
                0 <= p < reads@.len() ==> (#[trigger] reads@[p]).ok(*ops, state.n_bands as int)
                    && reads@[p].reading() == read_back(post_ln_f@, *state, p),
            hs_of == heats_of(d_logits@, post_ln_f@, *state),
            p <= t,
            d_hidden@.len() == p,
            forall|i: int|
                0 <= i < p ==> fits_all(
                    *ops,
                    state_grads(post_ln_f@[i]@, *state, d_logits@[i]@),
                    (#[trigger] d_hidden@[i])@,
                ),
            heats.ok(*ops),
            heats.e@ == hs_of.take(p as int),
        decreases t - p,
    {
        assert(reads@[p as int].ok(*ops, state.n_bands as int));
        assert(state.vocab_size <= d_logits@[p as int]@.len());
        assert(2 * state.n_bands <= post_ln_f@[p as int]@.len());
        let row: TracedVec<T> = state_grads_on(
            ops,
            &post_ln_f[p],
            &reads[p],
            state,
            &d_logits[p],
        );
        d_hidden.push(row.v);
        heats.push(ops, heat_on(ops, &d_logits[p], &reads[p], state));
        p += 1;
        assert(heats.e@ =~= hs_of.take(p as int));
    }
    assert(heats.e@ =~= hs_of);
    let d_temperature: Traced<T> = total(ops, &heats);
    let ghost ws_of = Seq::new(
        state.n_bands as nat,
        |k: int| weight_grad(d_logits@, post_ln_f@, *state, k, d_logits@.len() as int),
    );
    let mut weights: TracedVec<T> = TracedVec::new(ops);
    let mut k: usize = 0;
    assert(weights.e@ =~= ws_of.take(0));
    while k < n
        invariant
            tables_cover(*state),
            grads_cover(d_logits@, post_ln_f@, *state),
            n == state.n_bands,
            reads@.len() == d_logits@.len(),
            forall|p: int|
                0 <= p < reads@.len() ==> (#[trigger] reads@[p]).ok(*ops, state.n_bands as int)
                    && reads@[p].reading() == read_back(post_ln_f@, *state, p),
            ws_of == Seq::new(
                state.n_bands as nat,
                |k: int| weight_grad(d_logits@, post_ln_f@, *state, k, d_logits@.len() as int),
            ),
            k <= n,
            weights.ok(*ops),
            weights.e@ == ws_of.take(k as int),
        decreases n - k,
    {
        weights.push(ops, weight_grad_on(ops, d_logits, post_ln_f, &reads, state, k));
        k += 1;
        assert(weights.e@ =~= ws_of.take(k as int));
    }
    assert(ws_of.take(n as int) =~= ws_of);
    let d_ref_phases: Option<Vec<Vec<T>>> = match state.ref_phases {
        Some(_) => {
            let mut rows: Vec<Vec<T>> = Vec::new();
            let mut v: usize = 0;
            while v < vocab
                invariant
                    tables_cover(*state),
                    grads_cover(d_logits@, post_ln_f@, *state),
                    n == state.n_bands,
                    vocab == state.vocab_size,
                    reads@.len() == d_logits@.len(),
                    forall|p: int|
                        0 <= p < reads@.len() ==> (#[trigger] reads@[p]).ok(
                            *ops,
                            state.n_bands as int,
                        ) && reads@[p].reading() == read_back(post_ln_f@, *state, p),
                    v <= vocab,
                    rows@.len() == v,
                    forall|i: int|
                        0 <= i < v ==> fits_all(
                            *ops,
                            Seq::new(
                                n as nat,
                                |k: int|
                                    phase_grad(
                                        d_logits@,
                                        post_ln_f@,
                                        *state,
                                        i,
                                        k,
                                        d_logits@.len() as int,
                                    ),
                            ),
                            (#[trigger] rows@[i])@,
                        ),
                decreases vocab - v,
            {
                let ghost es = Seq::new(
                    n as nat,
                    |k: int|
                        phase_grad(
                            d_logits@,
                            post_ln_f@,
                            *state,
                            v as int,
                            k,
                            d_logits@.len() as int,
                        ),
                );
                let mut row: TracedVec<T> = TracedVec::new(ops);
                let mut j: usize = 0;
                assert(row.e@ =~= es.take(0));
                while j < n
                    invariant
                        tables_cover(*state),
                        grads_cover(d_logits@, post_ln_f@, *state),
                        n == state.n_bands,
                        v < state.vocab_size,
                        reads@.len() == d_logits@.len(),
                        forall|p: int|
                            0 <= p < reads@.len() ==> (#[trigger] reads@[p]).ok(
                                *ops,
                                state.n_bands as int,
                            ) && reads@[p].reading() == read_back(post_ln_f@, *state, p),
                        es == Seq::new(
                            n as nat,
                            |k: int|
                                phase_grad(
                                    d_logits@,
                                    post_ln_f@,
                                    *state,
                                    v as int,
                                    k,
                                    d_logits@.len() as int,
                                ),
                        ),
                        j <= n,
                        row.ok(*ops),
                        row.e@ == es.take(j as int),
                    decreases n - j,
                {
                    row.push(ops, phase_grad_on(ops, d_logits, post_ln_f, &reads, state, v, j));
                    j += 1;
                    assert(row.e@ =~= es.take(j as int));
                }
                assert(es.take(n as int) =~= es);
                rows.push(row.v);
                v += 1;
            }
            Some(rows)
        },
        None => None,
    };
    (
        d_hidden,
        WaveDecodeGrads {
            d_band_weights: weights.v,
            d_temperature: d_temperature.v,
            d_ref_phases,
        },
    )
}

/// The reference phases of the tokens: those of their embeddings.
pub open spec fn token_phases<T>(wte: Seq<Vec<T>>, n: int, v: int) -> Seq<Expr<T>> {
    phases_of(vals(wte[v]@), n)
}

/// The cosines or sines of phases.
pub open spec fn waves_of_phases<T>(op: Unary, phases: Seq<Expr<T>>) -> Seq<Expr<T>> {
    Seq::new(phases.len(), |k: int| un(op, phases[k]))
}

/// A fresh decoder: weights of one and a temperature of a fiftieth.
pub open spec fn fresh_decoder<T: Copy, A: Arith<T>>(
    ops: A,
    s: WaveDecodeState<T>,
    vocab_size: int,
    n_bands: int,
) -> bool {
    &&& s.n_bands == n_bands
    &&& s.vocab_size == vocab_size
    &&& fits_all(ops, Seq::new(n_bands as nat, |k: int| one::<T>()), s.band_weights@)
    &&& fits(ops, Expr::<T>::Ratio(2, 100), s.temperature)
}

fn cos_sin_on<T: Copy, A: Arith<T>>(ops: &A, phases: &TracedVec<T>) -> (out: (
    TracedVec<T>,
    TracedVec<T>,
))
    requires
        phases.ok(*ops),
    ensures
        out.0.ok(*ops),
        out.1.ok(*ops),
        out.0.e@ == waves_of_phases(Unary::Cos, phases.e@),
        out.1.e@ == waves_of_phases(Unary::Sin, phases.e@),
{
    let n: usize = phases.len();
    let ghost cs = waves_of_phases(Unary::Cos, phases.e@);
    let ghost ss = waves_of_phases(Unary::Sin, phases.e@);
    let mut cos: TracedVec<T> = TracedVec::new(ops);
    let mut sin: TracedVec<T> = TracedVec::new(ops);
    let mut k: usize = 0;
    assert(cos.e@ =~= cs.take(0));
    assert(sin.e@ =~= ss.take(0));
    while k < n
        invariant
            phases.ok(*ops),
            n == phases.v@.len(),
            cs == waves_of_phases(Unary::Cos, phases.e@),
            ss == waves_of_phases(Unary::Sin, phases.e@),
            k <= n,
            cos.ok(*ops),
            sin.ok(*ops),
            cos.e@ == cs.take(k as int),
            sin.e@ == ss.take(k as int),
        decreases n - k,
    {
        cos.push(ops, phases.get(ops, k).cos(ops));
        sin.push(ops, phases.get(ops, k).sin(ops));
        k += 1;
        assert(cos.e@ =~= cs.take(k as int));
        assert(sin.e@ =~= ss.take(k as int));
    }
    assert(cs.take(n as int) =~= cs);
    assert(ss.take(n as int) =~= ss);
    (cos, sin)
}

fn ones_on<T: Copy, A: Arith<T>>(ops: &A, n: usize) -> (out: TracedVec<T>)
    ensures
        out.ok(*ops),
        out.e@ == Seq::new(n as nat, |k: int| one::<T>()),
{
    let mut out: TracedVec<T> = TracedVec::new(ops);
    let mut k: usize = 0;
    assert(out.e@ =~= Seq::new(0, |k: int| one::<T>()));
    while k < n
        invariant
            k <= n,
            out.ok(*ops),
            out.e@ == Seq::new(k as nat, |k: int| one::<T>()),
        decreases n - k,
    {
        out.push(ops, Traced::ratio(ops, 1, 1));
        k += 1;
        assert(out.e@ =~= Seq::new(k as nat, |k: int| one::<T>()));
    }
    out
}

/// Tables of the cosines and sines of the embeddings' phases, without references to train.
pub open spec fn frozen_tables<T: Copy, A: Arith<T>>(
    ops: A,
    s: WaveDecodeState<T>,
    wte: Seq<Vec<T>>,
    n_bands: int,
) -> bool {
    &&& rows_fit(
        ops,
        Seq::new(
            wte.len(),
            |v: int| waves_of_phases(Unary::Cos, token_phases(wte, n_bands, v)),
        ),
        s.token_cos@,
    )
    &&& rows_fit(
        ops,
        Seq::new(
            wte.len(),
            |v: int| waves_of_phases(Unary::Sin, token_phases(wte, n_bands, v)),
        ),
        s.token_sin@,
    )
    &&& s.ref_phases is None
}

/// References that start as the embeddings' phases, with the tables of their cosines and sines.
pub open spec fn trained_tables<T: Copy, A: Arith<T>>(
    ops: A,
    s: WaveDecodeState<T>,
    wte: Seq<Vec<T>>,
    n_bands: int,
) -> bool {
    s.ref_phases matches Some(phases) && {
        &&& rows_fit(
            ops,
            Seq::new(wte.len(), |v: int| token_phases(wte, n_bands, v)),
            phases@,
        )
        &&& tables_of_phases(ops, phases@, s.token_cos@, s.token_sin@)
    }
}

/// A decoder whose references are the phases of the embeddings, and stay so.
pub fn init_frozen<T: Copy, A: Arith<T>>(ops: &A, wte: &Vec<Vec<T>>, n_bands: usize) -> (s:
    WaveDecodeState<T>)
    requires
        forall|v: int| 0 <= v < wte@.len() ==> 2 * n_bands <= (#[trigger] wte@[v])@.len(),
    ensures
        fresh_decoder(*ops, s, wte@.len() as int, n_bands as int),
        frozen_tables(*ops, s, wte@, n_bands as int),
{
    let vocab: usize = wte.len();
    let mut token_cos: Vec<Vec<T>> = Vec::new();
    let mut token_sin: Vec<Vec<T>> = Vec::new();
    let mut v: usize = 0;
    while v < vocab
        invariant
            vocab == wte@.len(),
            forall|v: int| 0 <= v < wte@.len() ==> 2 * n_bands <= (#[trigger] wte@[v])@.len(),
            v <= vocab,
            token_cos@.len() == v,
            token_sin@.len() == v,
            forall|i: int|
                0 <= i < v ==> fits_all(
                    *ops,
                    waves_of_phases(Unary::Cos, token_phases(wte@, n_bands as int, i)),
                    (#[trigger] token_cos@[i])@,
                ),
            forall|i: int|
                0 <= i < v ==> fits_all(
                    *ops,
                    waves_of_phases(Unary::Sin, token_phases(wte@, n_bands as int, i)),
                    (#[trigger] token_sin@[i])@,
                ),
        decreases vocab - v,
    {
        assert(2 * n_bands <= wte@[v as int]@.len());
        let phases: TracedVec<T> = phases_on(ops, &traced(ops, &wte[v]), n_bands);
        let (c, s) = cos_sin_on(ops, &phases);
        token_cos.push(c.v);
        token_sin.push(s.v);
        v += 1;
    }
    let temperature: Traced<T> = Traced::ratio(ops, 2, 100);
    WaveDecodeState {
        band_weights: ones_on(ops, n_bands).v,
        temperature: temperature.v,
        token_cos,
        token_sin,
        ref_phases: None,
        n_bands,
        vocab_size: vocab,
    }
}

/// The tables hold the cosines and sines of the reference phases.
pub open spec fn tables_of_phases<T: Copy, A: Arith<T>>(
    ops: A,
    phases: Seq<Vec<T>>,
    cos: Seq<Vec<T>>,
    sin: Seq<Vec<T>>,
) -> bool {
    &&& rows_fit(
        ops,
        Seq::new(phases.len(), |v: int| waves_of_phases(Unary::Cos, vals(phases[v]@))),
        cos,
    )
    &&& rows_fit(
        ops,
        Seq::new(phases.len(), |v: int| waves_of_phases(Unary::Sin, vals(phases[v]@))),
        sin,
    )
}

/// The cosines and sines of reference phases.
fn tables_on<T: Copy, A: Arith<T>>(ops: &A, phases: &Vec<Vec<T>>) -> (out: (
    Vec<Vec<T>>,
    Vec<Vec<T>>,
))
    ensures
        tables_of_phases(*ops, phases@, out.0@, out.1@),
{
    let vocab: usize = phases.len();
    let mut cos: Vec<Vec<T>> = Vec::new();
    let mut sin: Vec<Vec<T>> = Vec::new();
    let mut v: usize = 0;
    while v < vocab
        invariant
            vocab == phases@.len(),
            v <= vocab,
            cos@.len() == v,
            sin@.len() == v,
            forall|i: int|
                0 <= i < v ==> fits_all(
                    *ops,
                    waves_of_phases(Unary::Cos, vals(phases@[i]@)),
                    (#[trigger] cos@[i])@,
                ),
            forall|i: int|
                0 <= i < v ==> fits_all(
                    *ops,
                    waves_of_phases(Unary::Sin, vals(phases@[i]@)),
                    (#[trigger] sin@[i])@,
                ),
        decreases vocab - v,
    {
        let (c, s) = cos_sin_on(ops, &traced(ops, &phases[v]));
        cos.push(c.v);
        sin.push(s.v);
        v += 1;
    }
    (cos, sin)
}

/// A decoder whose references start as the phases of the embeddings, and are trained.
pub fn init_unfrozen<T: Copy, A: Arith<T>>(ops: &A, wte: &Vec<Vec<T>>, n_bands: usize) -> (s:
    WaveDecodeState<T>)
    requires
        forall|v: int| 0 <= v < wte@.len() ==> 2 * n_bands <= (#[trigger] wte@[v])@.len(),
    ensures
        fresh_decoder(*ops, s, wte@.len() as int, n_bands as int),
        trained_tables(*ops, s, wte@, n_bands as int),
{
    let vocab: usize = wte.len();
    let mut phases: Vec<Vec<T>> = Vec::new();
    let mut v: usize = 0;
    while v < vocab
        invariant
            vocab == wte@.len(),
            forall|v: int| 0 <= v < wte@.len() ==> 2 * n_bands <= (#[trigger] wte@[v])@.len(),
            v <= vocab,
            phases@.len() == v,
            forall|i: int|
                0 <= i < v ==> fits_all(
                    *ops,
                    token_phases(wte@, n_bands as int, i),
                    (#[trigger] phases@[i])@,
                ),
        decreases vocab - v,
    {
        assert(2 * n_bands <= wte@[v as int]@.len());
        let row: TracedVec<T> = phases_on(ops, &traced(ops, &wte[v]), n_bands);
        phases.push(row.v);
        v += 1;
    }
    let (token_cos, token_sin) = tables_on(ops, &phases);
    let temperature: Traced<T> = Traced::ratio(ops, 2, 100);
    WaveDecodeState {
        band_weights: ones_on(ops, n_bands).v,
        temperature: temperature.v,
        token_cos,
        token_sin,
        ref_phases: Some(phases),
        n_bands,
        vocab_size: vocab,
    }
}

/// Brings the tables up to date with the reference phases, where those are trained.
pub fn refresh_cos_sin_cache<T: Copy, A: Arith<T>>(ops: &A, state: &mut WaveDecodeState<T>)
    requires
        old(state).wf(),
    ensures
        final(state).wf(),
        final(state).ref_phases == old(state).ref_phases,
        final(state).band_weights == old(state).band_weights,
        final(state).temperature == old(state).temperature,
        final(state).n_bands == old(state).n_bands,
        final(state).vocab_size == old(state).vocab_size,
        match old(state).ref_phases {
            Some(phases) => tables_of_phases(
                *ops,
                phases@,
                final(state).token_cos@,
                final(state).token_sin@,
            ),
            None => final(state).token_cos == old(state).token_cos && final(state).token_sin
                == old(state).token_sin,
        },
{
    let tables: Option<(Vec<Vec<T>>, Vec<Vec<T>>)> = match &state.ref_phases {
        Some(phases) => Some(tables_on(ops, phases)),
        None => None,
    };
    if let Some((cos, sin)) = tables {
        state.token_cos = cos;
        state.token_sin = sin;
    }
}

} // verus!
