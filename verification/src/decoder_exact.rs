//! In exact arithmetic the gradients of the wave decoder are its derivative.

use vstd::prelude::*;
#[allow(unused_imports)]
use crate::arith::{Expr, Unary, angle, larger, over, plus, times, total_of, un, val, vals, zero};
#[allow(unused_imports)]
use crate::cosine_exact::lemma_halved;
#[allow(unused_imports)]
use crate::damping_exact::lemma_exceeds;
#[allow(unused_imports)]
use crate::exact::{
    Curves, Dual, dual_of, inverse, lemma_constants, lemma_minus, lemma_negated, lemma_nothing,
    lemma_over, lemma_plus, lemma_shared, lemma_sign, lemma_three, lemma_times, prod, rate, value,
};
#[allow(unused_imports)]
use crate::kerr::energy_of;
#[allow(unused_imports)]
use crate::linear_exact::{
    lemma_fold, lemma_summed_both, lemma_summed_same, lemma_summed_scaled, lemma_summed_swapped,
    summed,
};
#[allow(unused_imports)]
use crate::loss_exact::{lemma_curves, lemma_larger, lemma_summed_pairs};
#[allow(unused_imports)]
use crate::wave_decode::WaveDecodeState;
#[allow(unused_imports)]
use crate::wave_score::{
    Reading, band_scores, guarded, heat_parts, heated, heats_of, pair_of, phase_gain, phase_grad,
    raw_parts, read_back, reading_of, state_gain, state_grads, state_sum, wave_logits, weight_gain,
    weight_grad, weight_sum,
};

verus! {

/// How a pair of waves turns, the state by `t` and the reference by `f`.
#[verifier::spinoff_prover]
proof fn lemma_turned(c: real, s: real, x: real, y: real, t: real, f: real)
    ensures
        prod(prod(-s, t), x) + prod(prod(c, t), y) == -prod(t, prod(s, x) - prod(c, y)),
        prod(c, prod(-y, f)) + prod(s, prod(x, f)) == prod(f, prod(s, x) - prod(c, y)),
{
    lemma_shared(t, prod(s, x), prod(c, y));
    lemma_sign(s, t);
    lemma_sign(prod(s, t), x);
    lemma_sign(s, t);
    lemma_three(t, s, x);
    lemma_sign(c, t);
    lemma_three(t, c, y);
    lemma_shared(f, prod(s, x), prod(c, y));
    lemma_sign(y, f);
    lemma_sign(c, prod(y, f));
    lemma_three(c, y, f);
    lemma_sign(prod(c, y), f);
    lemma_three(s, x, f);
    lemma_sign(prod(s, x), f);
}

#[verifier::spinoff_prover]
proof fn lemma_part_rate(u: real, g: real, c: real, dc: real, x: real, dx: real)
    ensures
        prod(prod(u, c) + prod(g, dc), x) + prod(prod(g, c), dx) == prod(u, prod(c, x)) + prod(
            g,
            prod(dc, x),
        ) + prod(g, prod(c, dx)),
{
    lemma_shared(x, prod(u, c), prod(g, dc));
    lemma_three(u, c, x);
    lemma_three(g, dc, x);
    lemma_three(g, c, dx);
}

/// How the score of a band changes: with its weight and magnitude together by `u`, with the angle
/// of the state by `t` and with that of the reference by `f`.
#[verifier::spinoff_prover]
proof fn lemma_score_rate(
    u: real,
    g: real,
    c: real,
    s: real,
    x: real,
    y: real,
    t: real,
    f: real,
)
    ensures
        (prod(prod(u, c) + prod(g, prod(-s, t)), x) + prod(prod(g, c), prod(-y, f))) + (prod(
            prod(u, s) + prod(g, prod(c, t)),
            y,
        ) + prod(prod(g, s), prod(x, f))) == prod(u, prod(c, x) + prod(s, y)) - prod(
            g,
            prod(t, prod(s, x) - prod(c, y)),
        ) + prod(g, prod(f, prod(s, x) - prod(c, y))),
{
    lemma_part_rate(u, g, c, prod(-s, t), x, prod(-y, f));
    lemma_part_rate(u, g, s, prod(c, t), y, prod(x, f));
    lemma_turned(c, s, x, y, t, f);
    lemma_shared(u, prod(c, x), prod(s, y));
    lemma_shared(g, prod(prod(-s, t), x), prod(prod(c, t), y));
    lemma_shared(g, prod(c, prod(-y, f)), prod(s, prod(x, f)));
    lemma_sign(g, prod(t, prod(s, x) - prod(c, y)));
}

/// What comes back to the components of a band, put together.
#[verifier::spinoff_prover]
proof fn lemma_components(
    q: real,
    bt: real,
    bm: real,
    r: real,
    i: real,
    dr: real,
    di: real,
    near: real,
    far: real,
)
    ensures
        prod(prod(q, prod(bt, prod(-i, near)) + prod(bm, prod(r, far))), dr) + prod(
            prod(q, prod(bt, prod(r, near)) + prod(bm, prod(i, far))),
            di,
        ) == prod(
            q,
            prod(bt, prod(prod(r, di) - prod(i, dr), near)) + prod(
                bm,
                prod(far, prod(r, dr) + prod(i, di)),
            ),
        ),
{
    let (x1, x2) = (prod(bt, prod(-i, near)), prod(bm, prod(r, far)));
    let (y1, y2) = (prod(bt, prod(r, near)), prod(bm, prod(i, far)));
    lemma_three(q, x1 + x2, dr);
    lemma_three(q, y1 + y2, di);
    lemma_shared(q, prod(x1 + x2, dr), prod(y1 + y2, di));
    lemma_shared(dr, x1, x2);
    lemma_shared(di, y1, y2);
    // Through the angle.
    lemma_three(bt, prod(-i, near), dr);
    lemma_three(bt, prod(r, near), di);
    lemma_shared(bt, prod(prod(r, near), di), prod(prod(-i, near), dr));
    lemma_three(r, near, di);
    lemma_three(-i, near, dr);
    lemma_sign(i, dr);
    lemma_shared(near, prod(r, di), prod(i, dr));
    lemma_sign(prod(i, dr), near);
    // Through the magnitude.
    lemma_three(bm, prod(r, far), dr);
    lemma_three(bm, prod(i, far), di);
    lemma_shared(bm, prod(prod(r, far), dr), prod(prod(i, far), di));
    lemma_three(r, far, dr);
    lemma_three(i, far, di);
    lemma_shared(far, prod(r, dr), prod(i, di));
    lemma_sign(prod(r, dr), far);
    lemma_sign(prod(i, di), far);
}

/// The change of a score, times the gradient of its logit, shared out.
#[verifier::spinoff_prover]
proof fn lemma_shared_out(
    q: real,
    w: real,
    dw: real,
    m: real,
    dm: real,
    e: real,
    h: real,
    t: real,
    f: real,
)
    ensures
        prod(
            q,
            prod(prod(dw, m) + prod(w, dm), e) - prod(prod(w, m), prod(t, h)) + prod(
                prod(w, m),
                prod(f, h),
            ),
        ) == prod(prod(prod(q, m), e), dw) + prod(prod(prod(prod(q, w), m), h), f) + prod(
            q,
            prod(prod(prod(-w, m), h), t) + prod(prod(w, e), dm),
        ),
{
    let g = prod(w, m);
    let (a, b, c) = (
        prod(prod(dw, m) + prod(w, dm), e),
        prod(g, prod(t, h)),
        prod(g, prod(f, h)),
    );
    lemma_shared(q, a - b, c);
    lemma_shared(q, a, b);
    lemma_shared(e, prod(dw, m), prod(w, dm));
    lemma_shared(q, prod(prod(dw, m), e), prod(prod(w, dm), e));
    // The weight.
    lemma_three(dw, m, e);
    lemma_three(q, dw, prod(m, e));
    lemma_three(q, m, e);
    lemma_sign(dw, prod(q, prod(m, e)));
    // The reference.
    lemma_sign(f, h);
    lemma_three(g, h, f);
    lemma_three(q, prod(g, h), f);
    lemma_three(q, g, h);
    lemma_three(q, w, m);
    // The state.
    let z = prod(prod(prod(-w, m), h), t);
    lemma_sign(w, m);
    lemma_sign(g, h);
    lemma_sign(prod(g, h), t);
    lemma_sign(t, h);
    lemma_three(g, h, t);
    assert(z == -b);
    lemma_three(w, dm, e);
    lemma_shared(q, z, prod(prod(w, e), dm));
    lemma_sign(q, b);
}

/// The least magnitude on the way back.
pub open spec fn least_mag() -> Expr<Dual> {
    Expr::Ratio(1, 1000000)
}

/// The least energy on the way back.
pub open spec fn least_energy() -> Expr<Dual> {
    Expr::Ratio(1, 1000000000000)
}

/// A band whose magnitude and energy are not below the least ones.
pub open spec fn clear(cu: Curves, h: Seq<Dual>, k: int) -> bool {
    let e = energy_of(val(h[2 * k]), val(h[2 * k + 1]));
    &&& value(cu, un(Unary::Root, e)) >= value(cu, least_mag())
    &&& value(cu, e) >= value(cu, least_energy())
}

#[verifier::spinoff_prover]
proof fn lemma_least(cu: Curves)
    ensures
        value(cu, least_mag()) > 0real,
{
    reveal(dual_of);
    assert(value(cu, least_mag()) == 1u64 as real / 1000000u64 as real);
}

/// How an angle changes.
#[verifier::spinoff_prover]
proof fn lemma_angle(cu: Curves, y: Expr<Dual>, x: Expr<Dual>)
    ensures
        rate(cu, angle(y, x)) == prod(
            prod(value(cu, x), rate(cu, y)) - prod(value(cu, y), rate(cu, x)),
            inverse(prod(value(cu, x), value(cu, x)) + prod(value(cu, y), value(cu, y))),
        ),
{
    reveal(dual_of);
}

/// How a band turns.
pub open spec fn turn(cu: Curves, h: Seq<Dual>, k: int) -> real {
    rate(cu, angle(val(h[2 * k + 1]), val(h[2 * k])))
}

/// How the reading of a band changes.
#[verifier::spinoff_prover]
proof fn lemma_reading(cu: Curves, h: Seq<Dual>, n: int, floored: bool, k: int)
    requires
        0 <= k < n,
        2 * n <= h.len(),
        clear(cu, h, k),
    ensures
        ({
            let x = reading_of(vals(h), n, floored);
            let (r, i) = (val(h[2 * k]), val(h[2 * k + 1]));
            let e = energy_of(r, i);
            let t = turn(cu, h, k);
            &&& value(cu, x.mag[k]) == value(cu, un(Unary::Root, e))
            &&& rate(cu, x.mag[k]) == prod(
                inverse(value(cu, x.mag[k])),
                prod(value(cu, r), rate(cu, r)) + prod(value(cu, i), rate(cu, i)),
            )
            &&& rate(cu, x.cos[k]) == prod(-value(cu, x.sin[k]), t)
            &&& rate(cu, x.sin[k]) == prod(value(cu, x.cos[k]), t)
            &&& t == prod(
                prod(value(cu, r), rate(cu, i)) - prod(value(cu, i), rate(cu, r)),
                inverse(value(cu, larger(e, least_energy()))),
            )
        }),
{
    let x = reading_of(vals(h), n, floored);
    let (r, i) = (val(h[2 * k]), val(h[2 * k + 1]));
    let e = energy_of(r, i);
    let root = un(Unary::Root, e);
    assert(vals(h)[2 * k] == r && vals(h)[2 * k + 1] == i);
    lemma_least(cu);
    lemma_larger(cu, root, least_mag());
    lemma_larger(cu, e, least_energy());
    assert(dual_of(cu, x.mag[k]) == dual_of(cu, root));
    lemma_times(cu, r, r);
    lemma_times(cu, i, i);
    lemma_plus(cu, times(r, r), times(i, i));
    lemma_curves(cu, e);
    let w = prod(value(cu, r), rate(cu, r)) + prod(value(cu, i), rate(cu, i));
    lemma_sign(value(cu, r), rate(cu, r));
    lemma_sign(value(cu, i), rate(cu, i));
    assert(rate(cu, e) == w + w);
    lemma_halved(value(cu, root), w);
    lemma_angle(cu, i, r);
    lemma_curves(cu, angle(i, r));
}

/// Reference waves that turn by `f`.
pub open spec fn tables_turn(
    cu: Curves,
    s: WaveDecodeState<Dual>,
    f: spec_fn(int, int) -> real,
) -> bool {
    forall|v: int, k: int|
        #![trigger f(v, k)]
        0 <= v < s.vocab_size && 0 <= k < s.n_bands ==> {
            let (x, y) = (val(s.token_cos@[v]@[k]), val(s.token_sin@[v]@[k]));
            &&& rate(cu, x) == prod(-value(cu, y), f(v, k))
            &&& rate(cu, y) == prod(value(cu, x), f(v, k))
        }
}

/// What the gradients that a token and a band hand back amount to along the direction.
pub open spec fn pair_back(
    cu: Curves,
    h: Seq<Dual>,
    s: WaveDecodeState<Dual>,
    dl: Dual,
    f: real,
    v: int,
    k: int,
) -> real {
    let x = reading_of(vals(h), s.n_bands as int, true);
    prod(value(cu, weight_gain(x, s, dl, v, k)), rate(cu, val(s.band_weights@[k]))) + prod(
        value(cu, phase_gain(x, s, dl, v, k)),
        f,
    ) + (prod(value(cu, state_gain(h, x, s, dl, v, k, true)), rate(cu, val(h[2 * k]))) + prod(
        value(cu, state_gain(h, x, s, dl, v, k, false)),
        rate(cu, val(h[2 * k + 1])),
    ))
}

/// The score of a token and a band changes by what the gradients amount to.
#[verifier::spinoff_prover]
proof fn lemma_pair(
    cu: Curves,
    h: Seq<Dual>,
    s: WaveDecodeState<Dual>,
    dl: Dual,
    f: spec_fn(int, int) -> real,
    v: int,
    k: int,
)
    requires
        0 <= k < s.n_bands,
        s.n_bands <= s.band_weights@.len(),
        2 * s.n_bands <= h.len(),
        0 <= v < s.vocab_size,
        clear(cu, h, k),
        tables_turn(cu, s, f),
    ensures
        ({
            let n = s.n_bands as int;
            let xf = reading_of(vals(h), n, false);
            let score = band_scores(xf, s.band_weights@, s.token_cos@[v]@, s.token_sin@[v]@)[k];
            let x = reading_of(vals(h), n, true);
            &&& prod(value(cu, heated(dl, s)), rate(cu, score)) == pair_back(
                cu,
                h,
                s,
                dl,
                f(v, k),
                v,
                k,
            )
            &&& value(cu, score) == value(cu, raw_parts(x, s, v)[k])
        }),
{
    let n = s.n_bands as int;
    let xf = reading_of(vals(h), n, false);
    let x = reading_of(vals(h), n, true);
    lemma_reading(cu, h, n, false, k);
    lemma_reading(cu, h, n, true, k);
    let w = val(s.band_weights@[k]);
    let (tc, ts) = (val(s.token_cos@[v]@[k]), val(s.token_sin@[v]@[k]));
    let (co, si, mf, mag) = (x.cos[k], x.sin[k], xf.mag[k], x.mag[k]);
    assert(xf.cos[k] == co && xf.sin[k] == si);
    let t = turn(cu, h, k);
    let turned = f(v, k);
    assert(rate(cu, tc) == prod(-value(cu, ts), turned) && rate(cu, ts) == prod(
        value(cu, tc),
        turned,
    ));
    // The score.
    let wm = times(w, mf);
    let (a, b) = (times(wm, co), times(wm, si));
    let (a2, b2) = (times(a, tc), times(b, ts));
    lemma_times(cu, w, mf);
    lemma_times(cu, wm, co);
    lemma_times(cu, wm, si);
    lemma_times(cu, a, tc);
    lemma_times(cu, b, ts);
    lemma_plus(cu, a2, b2);
    let score = plus(a2, b2);
    assert(band_scores(xf, s.band_weights@, s.token_cos@[v]@, s.token_sin@[v]@)[k] == score);
    let (wv, dw, mv, dm) = (value(cu, w), rate(cu, w), value(cu, mag), rate(cu, mag));
    let (c, z, p, q) = (value(cu, co), value(cu, si), value(cu, tc), value(cu, ts));
    let u = prod(dw, mv) + prod(wv, dm);
    let g = prod(wv, mv);
    assert(dm == rate(cu, mf) && mv == value(cu, mf));
    lemma_score_rate(u, g, c, z, p, q, t, turned);
    let (e, d) = (prod(c, p) + prod(z, q), prod(z, p) - prod(c, q));
    assert(rate(cu, score) == prod(u, e) - prod(g, prod(t, d)) + prod(g, prod(turned, d)));
    let hot = heated(dl, s);
    let y = value(cu, hot);
    lemma_shared_out(y, wv, dw, mv, dm, e, d, t, turned);
    // The differences of phases.
    let pair = pair_of(x, s, v, k);
    lemma_times(cu, co, tc);
    lemma_times(cu, si, ts);
    lemma_times(cu, si, tc);
    lemma_times(cu, co, ts);
    lemma_plus(cu, times(co, tc), times(si, ts));
    lemma_minus(cu, times(si, tc), times(co, ts));
    assert(value(cu, pair.cos_d) == e && value(cu, pair.sin_d) == d);
    // The weight and the reference.
    lemma_times(cu, hot, mag);
    lemma_times(cu, times(hot, mag), pair.cos_d);
    lemma_times(cu, hot, w);
    lemma_times(cu, times(hot, w), mag);
    lemma_times(cu, times(times(hot, w), mag), pair.sin_d);
    // The components.
    let (r, i) = (val(h[2 * k]), val(h[2 * k + 1]));
    let sq = larger(energy_of(r, i), least_energy());
    let loss = un(Unary::Negated, w);
    lemma_negated(cu, w);
    lemma_times(cu, loss, mag);
    let by_theta = times(times(loss, mag), pair.sin_d);
    lemma_times(cu, times(loss, mag), pair.sin_d);
    let by_mag = times(w, pair.cos_d);
    lemma_times(cu, w, pair.cos_d);
    lemma_negated(cu, i);
    let (t1, t2) = (over(un(Unary::Negated, i), sq), over(r, sq));
    let (m1, m2) = (over(r, mag), over(i, mag));
    lemma_over(cu, un(Unary::Negated, i), sq);
    lemma_over(cu, r, sq);
    lemma_over(cu, r, mag);
    lemma_over(cu, i, mag);
    lemma_times(cu, by_theta, t1);
    lemma_times(cu, by_theta, t2);
    lemma_times(cu, by_mag, m1);
    lemma_times(cu, by_mag, m2);
    lemma_plus(cu, times(by_theta, t1), times(by_mag, m1));
    lemma_plus(cu, times(by_theta, t2), times(by_mag, m2));
    lemma_times(cu, hot, plus(times(by_theta, t1), times(by_mag, m1)));
    lemma_times(cu, hot, plus(times(by_theta, t2), times(by_mag, m2)));
    lemma_components(
        y,
        value(cu, by_theta),
        value(cu, by_mag),
        value(cu, r),
        value(cu, i),
        rate(cu, r),
        rate(cu, i),
        inverse(value(cu, sq)),
        inverse(mv),
    );
    // The score itself.
    let raw = times(times(w, mag), pair.cos_d);
    lemma_times(cu, w, mag);
    lemma_times(cu, times(w, mag), pair.cos_d);
    lemma_shared(g, prod(c, p), prod(z, q));
    lemma_three(g, c, p);
    lemma_three(g, z, q);
    assert(raw_parts(x, s, v)[k] == raw);
}

/// A decoder with one weight for every band.
pub open spec fn weights_match(s: WaveDecodeState<Dual>) -> bool {
    s.band_weights@.len() == s.n_bands
}

/// The logit of a token changes by what the gradients amount to.
#[verifier::spinoff_prover]
proof fn lemma_token(
    cu: Curves,
    h: Seq<Dual>,
    s: WaveDecodeState<Dual>,
    dls: Seq<Dual>,
    f: spec_fn(int, int) -> real,
    v: int,
)
    requires
        weights_match(s),
        2 * s.n_bands <= h.len(),
        0 <= v < s.vocab_size,
        forall|k: int| 0 <= k < s.n_bands ==> #[trigger] clear(cu, h, k),
        tables_turn(cu, s, f),
    ensures
        prod(value(cu, val(dls[v])), rate(cu, wave_logits(vals(h), s)[v])) == summed(
            |k: int| pair_back(cu, h, s, dls[v], f(v, k), v, k),
            s.n_bands as int,
        ) + prod(
            value(cu, heat_parts(reading_of(vals(h), s.n_bands as int, true), s, dls)[v]),
            rate(cu, val(s.temperature)),
        ),
{
    let n = s.n_bands as int;
    let xf = reading_of(vals(h), n, false);
    let x = reading_of(vals(h), n, true);
    let scores = band_scores(xf, s.band_weights@, s.token_cos@[v]@, s.token_sin@[v]@);
    let raws = raw_parts(x, s, v);
    let (dl, heat) = (val(dls[v]), val(s.temperature));
    let hot = heated(dls[v], s);
    lemma_constants(cu);
    lemma_fold(cu, zero(), scores);
    lemma_fold(cu, zero(), raws);
    lemma_times(cu, total_of(scores), heat);
    lemma_times(cu, dl, heat);
    lemma_times(cu, total_of(raws), dl);
    let sf = |k: int| value(cu, scores[k]);
    let rf = |k: int| value(cu, raws[k]);
    let df = |k: int| rate(cu, scores[k]);
    let bf = |k: int| pair_back(cu, h, s, dls[v], f(v, k), v, k);
    assert forall|k: int| 0 <= k < n implies #[trigger] sf(k) == rf(k) by {
        assert(clear(cu, h, k));
        lemma_pair(cu, h, s, dls[v], f, v, k);
    }
    assert forall|k: int| 0 <= k < n implies #[trigger] bf(k) == prod(value(cu, hot), df(k)) by {
        assert(clear(cu, h, k));
        lemma_pair(cu, h, s, dls[v], f, v, k);
    }
    lemma_summed_same(sf, rf, n);
    lemma_summed_scaled(bf, df, value(cu, hot), n);
    let (d, t, dt) = (value(cu, dl), value(cu, heat), rate(cu, heat));
    let (dsum, sum) = (summed(df, n), summed(sf, n));
    lemma_shared(d, prod(dsum, t), prod(sum, dt));
    lemma_sign(dsum, t);
    lemma_three(d, t, dsum);
    lemma_three(d, sum, dt);
    lemma_sign(d, sum);
}

/// A gradient that counts: nothing at all, or not next to nothing.
pub open spec fn counts(cu: Curves, dl: Dual) -> bool {
    ||| value(cu, val(dl)) == 0real
    ||| value(cu, un(Unary::Abs, val(dl))) >= value(cu, Expr::Ratio(1, 10000000000))
}

/// What a gradient that counts adds.
#[verifier::spinoff_prover]
proof fn lemma_guarded(cu: Curves, acc: Expr<Dual>, dl: Dual, gain: Expr<Dual>)
    requires
        counts(cu, dl),
        value(cu, val(dl)) == 0real ==> value(cu, gain) == 0real,
    ensures
        value(cu, guarded(acc, dl, gain)) == value(cu, acc) + value(cu, gain),
{
    lemma_exceeds(
        cu,
        Expr::Ratio(1, 10000000000),
        un(Unary::Abs, val(dl)),
        acc,
        plus(acc, gain),
    );
    lemma_plus(cu, acc, gain);
}

/// Without a gradient there is no gain.
#[verifier::spinoff_prover]
proof fn lemma_no_gain(
    cu: Curves,
    h: Seq<Dual>,
    x: Reading<Dual>,
    s: WaveDecodeState<Dual>,
    dl: Dual,
    v: int,
    k: int,
    first: bool,
)
    requires
        value(cu, val(dl)) == 0real,
    ensures
        value(cu, weight_gain(x, s, dl, v, k)) == 0real,
        value(cu, phase_gain(x, s, dl, v, k)) == 0real,
        value(cu, state_gain(h, x, s, dl, v, k, first)) == 0real,
{
    let hot = heated(dl, s);
    let pair = pair_of(x, s, v, k);
    let w = val(s.band_weights@[k]);
    lemma_times(cu, val(dl), val(s.temperature));
    lemma_nothing(value(cu, val(s.temperature)));
    assert(value(cu, hot) == 0real);
    lemma_times(cu, hot, x.mag[k]);
    lemma_nothing(value(cu, x.mag[k]));
    lemma_times(cu, times(hot, x.mag[k]), pair.cos_d);
    lemma_nothing(value(cu, pair.cos_d));
    lemma_times(cu, hot, w);
    lemma_nothing(value(cu, w));
    lemma_times(cu, times(hot, w), x.mag[k]);
    lemma_times(cu, times(times(hot, w), x.mag[k]), pair.sin_d);
    lemma_nothing(value(cu, pair.sin_d));
    let (r, i) = (val(h[2 * k]), val(h[2 * k + 1]));
    let sq = larger(energy_of(r, i), least_energy());
    let by_theta = times(times(un(Unary::Negated, w), x.mag[k]), pair.sin_d);
    let by_mag = times(w, pair.cos_d);
    let theta_slope = if first {
        over(un(Unary::Negated, i), sq)
    } else {
        over(r, sq)
    };
    let mag_slope = if first {
        over(r, x.mag[k])
    } else {
        over(i, x.mag[k])
    };
    let sum = plus(times(by_theta, theta_slope), times(by_mag, mag_slope));
    lemma_times(cu, hot, sum);
    lemma_nothing(value(cu, sum));
}

/// All gradients of a position count.
pub open spec fn all_count(cu: Curves, dls: Seq<Dual>, vocab: int) -> bool {
    forall|v: int| 0 <= v < vocab ==> counts(cu, #[trigger] dls[v])
}

#[verifier::spinoff_prover]
proof fn lemma_state_sum(
    cu: Curves,
    h: Seq<Dual>,
    x: Reading<Dual>,
    s: WaveDecodeState<Dual>,
    dls: Seq<Dual>,
    k: int,
    first: bool,
    n: int,
)
    requires
        0 <= n,
        all_count(cu, dls, n),
    ensures
        value(cu, state_sum(h, x, s, dls, k, first, n)) == summed(
            |v: int| value(cu, state_gain(h, x, s, dls[v], v, k, first)),
            n,
        ),
    decreases n,
{
    lemma_constants(cu);
    if n > 0 {
        lemma_state_sum(cu, h, x, s, dls, k, first, n - 1);
        assert(counts(cu, dls[n - 1]));
        if value(cu, val(dls[n - 1])) == 0real {
            lemma_no_gain(cu, h, x, s, dls[n - 1], n - 1, k, first);
        }
        lemma_guarded(
            cu,
            state_sum(h, x, s, dls, k, first, n - 1),
            dls[n - 1],
            state_gain(h, x, s, dls[n - 1], n - 1, k, first),
        );
    }
}

#[verifier::spinoff_prover]
proof fn lemma_weight_sum(
    cu: Curves,
    start: Expr<Dual>,
    x: Reading<Dual>,
    s: WaveDecodeState<Dual>,
    dls: Seq<Dual>,
    k: int,
    n: int,
)
    requires
        0 <= n,
        all_count(cu, dls, n),
    ensures
        value(cu, weight_sum(start, x, s, dls, k, n)) == value(cu, start) + summed(
            |v: int| value(cu, weight_gain(x, s, dls[v], v, k)),
            n,
        ),
    decreases n,
{
    if n > 0 {
        lemma_weight_sum(cu, start, x, s, dls, k, n - 1);
        assert(counts(cu, dls[n - 1]));
        if value(cu, val(dls[n - 1])) == 0real {
            lemma_no_gain(cu, dls, x, s, dls[n - 1], n - 1, k, true);
        }
        lemma_guarded(
            cu,
            weight_sum(start, x, s, dls, k, n - 1),
            dls[n - 1],
            weight_gain(x, s, dls[n - 1], n - 1, k),
        );
    }
}

/// Factors of columns, gathered.
#[verifier::spinoff_prover]
proof fn lemma_gather(
    g: spec_fn(int, int) -> real,
    w: spec_fn(int) -> real,
    rows: int,
    cols: int,
)
    ensures
        summed(|v: int| summed(|k: int| prod(g(v, k), w(k)), cols), rows) == summed(
            |k: int| prod(summed(|v: int| g(v, k), rows), w(k)),
            cols,
        ),
{
    let f = |v: int, k: int| prod(g(v, k), w(k));
    lemma_summed_swapped(f, rows, cols);
    let by_table = |v: int| summed(|k: int| f(v, k), cols);
    let by_row = |v: int| summed(|k: int| prod(g(v, k), w(k)), cols);
    assert forall|v: int| 0 <= v < rows implies #[trigger] by_table(v) == by_row(v) by {
        lemma_summed_same(|k: int| f(v, k), |k: int| prod(g(v, k), w(k)), cols);
    }
    lemma_summed_same(by_table, by_row, rows);
    let p = |k: int| summed(|v: int| f(v, k), rows);
    let q = |k: int| prod(summed(|v: int| g(v, k), rows), w(k));
    assert forall|k: int| 0 <= k < cols implies #[trigger] p(k) == q(k) by {
        let col = |v: int| g(v, k);
        let scaled = |v: int| f(v, k);
        assert forall|v: int| 0 <= v < rows implies #[trigger] scaled(v) == prod(
            w(k),
            col(v),
        ) by {
            lemma_sign(g(v, k), w(k));
        }
        lemma_summed_scaled(scaled, col, w(k), rows);
        lemma_sign(w(k), summed(col, rows));
    }
    lemma_summed_same(p, q, cols);
}

/// What a position adds to the gradient of weight `k`.
pub open spec fn weight_share(
    cu: Curves,
    h: Seq<Dual>,
    s: WaveDecodeState<Dual>,
    dls: Seq<Dual>,
    k: int,
) -> real {
    let x = reading_of(vals(h), s.n_bands as int, true);
    summed(|v: int| value(cu, weight_gain(x, s, dls[v], v, k)), s.vocab_size as int)
}

/// What a position adds to the gradient of a reference phase.
pub open spec fn phase_share(
    cu: Curves,
    h: Seq<Dual>,
    s: WaveDecodeState<Dual>,
    dls: Seq<Dual>,
    v: int,
    k: int,
) -> real {
    value(cu, phase_gain(reading_of(vals(h), s.n_bands as int, true), s, dls[v], v, k))
}

/// What the gradients of a position's components amount to along the direction.
pub open spec fn paired_components(
    cu: Curves,
    h: Seq<Dual>,
    s: WaveDecodeState<Dual>,
    dls: Seq<Dual>,
) -> real {
    summed(
        |j: int| prod(value(cu, state_grads(h, s, dls)[j]), rate(cu, val(h[j]))),
        2 * s.n_bands as int,
    )
}

/// What a position adds to the gradient of the temperature.
pub open spec fn heat_share(
    cu: Curves,
    h: Seq<Dual>,
    s: WaveDecodeState<Dual>,
    dls: Seq<Dual>,
) -> real {
    value(cu, total_of(heat_parts(reading_of(vals(h), s.n_bands as int, true), s, dls)))
}

/// What the gradients of a position's logits amount to along the direction.
pub open spec fn paired_scores(
    cu: Curves,
    h: Seq<Dual>,
    s: WaveDecodeState<Dual>,
    dls: Seq<Dual>,
) -> real {
    summed(
        |v: int| prod(value(cu, val(dls[v])), rate(cu, wave_logits(vals(h), s)[v])),
        s.vocab_size as int,
    )
}

/// What comes back to the components, gathered over the tokens.
#[verifier::spinoff_prover]
proof fn lemma_components_gathered(
    cu: Curves,
    h: Seq<Dual>,
    s: WaveDecodeState<Dual>,
    dls: Seq<Dual>,
)
    requires
        2 * s.n_bands <= h.len(),
        all_count(cu, dls, s.vocab_size as int),
    ensures
        ({
            let x = reading_of(vals(h), s.n_bands as int, true);
            let (n, len) = (s.n_bands as int, s.vocab_size as int);
            let g1 = |v: int, k: int| value(cu, state_gain(h, x, s, dls[v], v, k, true));
            let g2 = |v: int, k: int| value(cu, state_gain(h, x, s, dls[v], v, k, false));
            let w1 = |k: int| rate(cu, val(h[2 * k]));
            let w2 = |k: int| rate(cu, val(h[2 * k + 1]));
            paired_components(cu, h, s, dls) == summed(
                |v: int| summed(|k: int| prod(g1(v, k), w1(k)), n),
                len,
            ) + summed(|v: int| summed(|k: int| prod(g2(v, k), w2(k)), n), len)
        }),
{
    let x = reading_of(vals(h), s.n_bands as int, true);
    let (n, len) = (s.n_bands as int, s.vocab_size as int);
    let g1 = |v: int, k: int| value(cu, state_gain(h, x, s, dls[v], v, k, true));
    let g2 = |v: int, k: int| value(cu, state_gain(h, x, s, dls[v], v, k, false));
    let w1 = |k: int| rate(cu, val(h[2 * k]));
    let w2 = |k: int| rate(cu, val(h[2 * k + 1]));
    lemma_gather(g1, w1, len, n);
    lemma_gather(g2, w2, len, n);
    let grads = state_grads(h, s, dls);
    let f = |j: int| prod(value(cu, grads[j]), rate(cu, val(h[j])));
    let c1 = |k: int| prod(summed(|v: int| g1(v, k), len), w1(k));
    let c2 = |k: int| prod(summed(|v: int| g2(v, k), len), w2(k));
    let both = |k: int| c1(k) + c2(k);
    assert forall|k: int| 0 <= k < n implies #[trigger] both(k) == f(2 * k) + f(2 * k + 1) by {
        assert((2 * k) / 2 == k && (2 * k) % 2 == 0);
        assert((2 * k + 1) / 2 == k && (2 * k + 1) % 2 == 1);
        lemma_state_sum(cu, h, x, s, dls, k, true, len);
        lemma_state_sum(cu, h, x, s, dls, k, false, len);
        lemma_summed_same(
            |v: int| g1(v, k),
            |v: int| value(cu, state_gain(h, x, s, dls[v], v, k, true)),
            len,
        );
        lemma_summed_same(
            |v: int| g2(v, k),
            |v: int| value(cu, state_gain(h, x, s, dls[v], v, k, false)),
            len,
        );
        assert(grads[2 * k] == state_sum(h, x, s, dls, k, true, len));
        assert(grads[2 * k + 1] == state_sum(h, x, s, dls, k, false, len));
    }
    lemma_summed_pairs(f, both, n);
    lemma_summed_both(both, c1, c2, n);
}

/// The logits of a position change by what the gradients amount to.
#[verifier::spinoff_prover]
proof fn lemma_position(
    cu: Curves,
    h: Seq<Dual>,
    s: WaveDecodeState<Dual>,
    dls: Seq<Dual>,
    f: spec_fn(int, int) -> real,
)
    requires
        weights_match(s),
        2 * s.n_bands <= h.len(),
        forall|k: int| 0 <= k < s.n_bands ==> #[trigger] clear(cu, h, k),
        tables_turn(cu, s, f),
        all_count(cu, dls, s.vocab_size as int),
    ensures
        paired_scores(cu, h, s, dls) == summed(
            |k: int| prod(weight_share(cu, h, s, dls, k), rate(cu, val(s.band_weights@[k]))),
            s.n_bands as int,
        ) + summed(
            |v: int|
                summed(
                    |k: int| prod(phase_share(cu, h, s, dls, v, k), f(v, k)),
                    s.n_bands as int,
                ),
            s.vocab_size as int,
        ) + paired_components(cu, h, s, dls) + prod(
            heat_share(cu, h, s, dls),
            rate(cu, val(s.temperature)),
        ),
{
    let x = reading_of(vals(h), s.n_bands as int, true);
    let (n, len) = (s.n_bands as int, s.vocab_size as int);
    let dt = rate(cu, val(s.temperature));
    let heats = heat_parts(x, s, dls);
    let gw = |v: int, k: int| value(cu, weight_gain(x, s, dls[v], v, k));
    let ww = |k: int| rate(cu, val(s.band_weights@[k]));
    let g1 = |v: int, k: int| value(cu, state_gain(h, x, s, dls[v], v, k, true));
    let g2 = |v: int, k: int| value(cu, state_gain(h, x, s, dls[v], v, k, false));
    let w1 = |k: int| rate(cu, val(h[2 * k]));
    let w2 = |k: int| rate(cu, val(h[2 * k + 1]));
    let score = |v: int| prod(value(cu, val(dls[v])), rate(cu, wave_logits(vals(h), s)[v]));
    let ra = |v: int| summed(|k: int| prod(gw(v, k), ww(k)), n);
    let rb = |v: int| summed(|k: int| prod(phase_share(cu, h, s, dls, v, k), f(v, k)), n);
    let rc = |v: int| summed(|k: int| prod(g1(v, k), w1(k)), n);
    let rd = |v: int| summed(|k: int| prod(g2(v, k), w2(k)), n);
    let re = |v: int| prod(dt, value(cu, heats[v]));
    let ab = |v: int| ra(v) + rb(v);
    let cd = |v: int| rc(v) + rd(v);
    let cde = |v: int| cd(v) + re(v);
    assert forall|v: int| 0 <= v < len implies #[trigger] score(v) == ab(v) + cde(v) by {
        lemma_token(cu, h, s, dls, f, v);
        let whole = |k: int| pair_back(cu, h, s, dls[v], f(v, k), v, k);
        let pa = |k: int| prod(gw(v, k), ww(k));
        let pb = |k: int| prod(phase_share(cu, h, s, dls, v, k), f(v, k));
        let pc = |k: int| prod(g1(v, k), w1(k));
        let pd = |k: int| prod(g2(v, k), w2(k));
        let pab = |k: int| pa(k) + pb(k);
        let pcd = |k: int| pc(k) + pd(k);
        lemma_summed_both(pab, pa, pb, n);
        lemma_summed_both(pcd, pc, pd, n);
        lemma_summed_both(whole, pab, pcd, n);
        lemma_sign(value(cu, heats[v]), dt);
    }
    lemma_summed_both(score, ab, cde, len);
    lemma_summed_both(ab, ra, rb, len);
    lemma_summed_both(cde, cd, re, len);
    lemma_summed_both(cd, rc, rd, len);
    // The weights.
    lemma_gather(gw, ww, len, n);
    let gathered = |k: int| prod(summed(|v: int| gw(v, k), len), ww(k));
    let shares = |k: int|
        prod(weight_share(cu, h, s, dls, k), rate(cu, val(s.band_weights@[k])));
    assert forall|k: int| 0 <= k < n implies #[trigger] gathered(k) == shares(k) by {
        lemma_summed_same(
            |v: int| gw(v, k),
            |v: int| value(cu, weight_gain(x, s, dls[v], v, k)),
            len,
        );
    }
    lemma_summed_same(gathered, shares, n);
    lemma_components_gathered(cu, h, s, dls);
    // The temperature.
    let parts = |v: int| value(cu, heats[v]);
    lemma_summed_scaled(re, parts, dt, len);
    lemma_fold(cu, zero(), heats);
    lemma_constants(cu);
    lemma_sign(dt, summed(parts, len));
}

/// The gradient of a weight, out of what every position adds.
#[verifier::spinoff_prover]
proof fn lemma_weight_grad(
    cu: Curves,
    dls: Seq<Vec<Dual>>,
    hs: Seq<Vec<Dual>>,
    s: WaveDecodeState<Dual>,
    k: int,
    n: int,
)
    requires
        0 <= n,
        forall|p: int| 0 <= p < n ==> all_count(cu, (#[trigger] dls[p])@, s.vocab_size as int),
    ensures
        value(cu, weight_grad(dls, hs, s, k, n)) == summed(
            |p: int| weight_share(cu, hs[p]@, s, dls[p]@, k),
            n,
        ),
    decreases n,
{
    lemma_constants(cu);
    if n > 0 {
        lemma_weight_grad(cu, dls, hs, s, k, n - 1);
        assert(all_count(cu, dls[n - 1]@, s.vocab_size as int));
        lemma_weight_sum(
            cu,
            weight_grad(dls, hs, s, k, n - 1),
            read_back(hs, s, n - 1),
            s,
            dls[n - 1]@,
            k,
            s.vocab_size as int,
        );
    }
}

/// The gradient of a reference phase, out of what every position adds.
#[verifier::spinoff_prover]
proof fn lemma_phase_grad(
    cu: Curves,
    dls: Seq<Vec<Dual>>,
    hs: Seq<Vec<Dual>>,
    s: WaveDecodeState<Dual>,
    v: int,
    k: int,
    n: int,
)
    requires
        0 <= n,
        0 <= v < s.vocab_size,
        forall|p: int| 0 <= p < n ==> all_count(cu, (#[trigger] dls[p])@, s.vocab_size as int),
    ensures
        value(cu, phase_grad(dls, hs, s, v, k, n)) == summed(
            |p: int| phase_share(cu, hs[p]@, s, dls[p]@, v, k),
            n,
        ),
    decreases n,
{
    lemma_constants(cu);
    if n > 0 {
        lemma_phase_grad(cu, dls, hs, s, v, k, n - 1);
        let x = read_back(hs, s, n - 1);
        let dl = dls[n - 1]@[v];
        assert(all_count(cu, dls[n - 1]@, s.vocab_size as int));
        assert(counts(cu, dl));
        if value(cu, val(dl)) == 0real {
            lemma_no_gain(cu, hs[n - 1]@, x, s, dl, v, k, true);
        }
        lemma_guarded(
            cu,
            phase_grad(dls, hs, s, v, k, n - 1),
            dl,
            phase_gain(x, s, dl, v, k),
        );
    }
}

/// The gradients that the wave decoder hands back are its derivative: in exact arithmetic the
/// logits of all positions change along any direction of the states, of the weights, of the
/// reference phases and of the temperature by as much as the gradients of these amount to along
/// it. `f` tells how the reference phases turn. Gradients of logits have to be nothing or above
/// what is passed over, and bands above the least magnitude and energy.
#[verifier::spinoff_prover]
pub proof fn law_wave_decoder_back_is_the_derivative(
    cu: Curves,
    hs: Seq<Vec<Dual>>,
    s: WaveDecodeState<Dual>,
    dls: Seq<Vec<Dual>>,
    f: spec_fn(int, int) -> real,
)
    requires
        weights_match(s),
        hs.len() == dls.len(),
        forall|p: int| 0 <= p < hs.len() ==> 2 * s.n_bands <= (#[trigger] hs[p])@.len(),
        forall|p: int, k: int|
            0 <= p < hs.len() && 0 <= k < s.n_bands ==> #[trigger] clear(cu, hs[p]@, k),
        forall|p: int|
            0 <= p < dls.len() ==> all_count(cu, (#[trigger] dls[p])@, s.vocab_size as int),
        tables_turn(cu, s, f),
    ensures
        ({
            let len = hs.len() as int;
            summed(|p: int| paired_scores(cu, hs[p]@, s, dls[p]@), len) == summed(
                |k: int|
                    prod(
                        value(cu, weight_grad(dls, hs, s, k, len)),
                        rate(cu, val(s.band_weights@[k])),
                    ),
                s.n_bands as int,
            ) + summed(
                |v: int|
                    summed(
                        |k: int| prod(value(cu, phase_grad(dls, hs, s, v, k, len)), f(v, k)),
                        s.n_bands as int,
                    ),
                s.vocab_size as int,
            ) + summed(|p: int| paired_components(cu, hs[p]@, s, dls[p]@), len) + prod(
                value(cu, total_of(heats_of(dls, hs, s))),
                rate(cu, val(s.temperature)),
            )
        }),
{
    let len = hs.len() as int;
    let (n, vocab) = (s.n_bands as int, s.vocab_size as int);
    let dt = rate(cu, val(s.temperature));
    let gw = |p: int, k: int| weight_share(cu, hs[p]@, s, dls[p]@, k);
    let ww = |k: int| rate(cu, val(s.band_weights@[k]));
    let whole = |p: int| paired_scores(cu, hs[p]@, s, dls[p]@);
    let ra = |p: int| summed(|k: int| prod(gw(p, k), ww(k)), n);
    let rb = |p: int|
        summed(
            |v: int|
                summed(|k: int| prod(phase_share(cu, hs[p]@, s, dls[p]@, v, k), f(v, k)), n),
            vocab,
        );
    let rc = |p: int| paired_components(cu, hs[p]@, s, dls[p]@);
    let re = |p: int| prod(dt, heat_share(cu, hs[p]@, s, dls[p]@));
    let ab = |p: int| ra(p) + rb(p);
    let ce = |p: int| rc(p) + re(p);
    assert forall|p: int| 0 <= p < len implies #[trigger] whole(p) == ab(p) + ce(p) by {
        assert(2 * s.n_bands <= hs[p]@.len());
        assert(all_count(cu, dls[p]@, vocab));
        lemma_position(cu, hs[p]@, s, dls[p]@, f);
        lemma_summed_same(
            |k: int|
                prod(
                    weight_share(cu, hs[p]@, s, dls[p]@, k),
                    rate(cu, val(s.band_weights@[k])),
                ),
            |k: int| prod(gw(p, k), ww(k)),
            n,
        );
        lemma_sign(heat_share(cu, hs[p]@, s, dls[p]@), dt);
    }
    lemma_summed_both(whole, ab, ce, len);
    lemma_summed_both(ab, ra, rb, len);
    lemma_summed_both(ce, rc, re, len);
    // The weights.
    lemma_gather(gw, ww, len, n);
    let gathered = |k: int| prod(summed(|p: int| gw(p, k), len), ww(k));
    let grads = |k: int|
        prod(value(cu, weight_grad(dls, hs, s, k, len)), rate(cu, val(s.band_weights@[k])));
    assert forall|k: int| 0 <= k < n implies #[trigger] gathered(k) == grads(k) by {
        lemma_weight_grad(cu, dls, hs, s, k, len);
        lemma_summed_same(
            |p: int| gw(p, k),
            |p: int| weight_share(cu, hs[p]@, s, dls[p]@, k),
            len,
        );
    }
    lemma_summed_same(gathered, grads, n);
    // The reference phases.
    let row = |p: int, v: int|
        summed(|k: int| prod(phase_share(cu, hs[p]@, s, dls[p]@, v, k), f(v, k)), n);
    lemma_summed_swapped(row, len, vocab);
    let by_table = |p: int| summed(|v: int| row(p, v), vocab);
    assert forall|p: int| 0 <= p < len implies #[trigger] by_table(p) == rb(p) by {
        lemma_summed_same(
            |v: int| row(p, v),
            |v: int|
                summed(|k: int| prod(phase_share(cu, hs[p]@, s, dls[p]@, v, k), f(v, k)), n),
            vocab,
        );
    }
    lemma_summed_same(by_table, rb, len);
    let by_token = |v: int| summed(|p: int| row(p, v), len);
    let phases = |v: int|
        summed(|k: int| prod(value(cu, phase_grad(dls, hs, s, v, k, len)), f(v, k)), n);
    assert forall|v: int| 0 <= v < vocab implies #[trigger] by_token(v) == phases(v) by {
        let gp = |p: int, k: int| phase_share(cu, hs[p]@, s, dls[p]@, v, k);
        let wf = |k: int| f(v, k);
        lemma_gather(gp, wf, len, n);
        let rows = |p: int| summed(|k: int| prod(gp(p, k), wf(k)), n);
        let plain = |p: int| row(p, v);
        assert forall|p: int| 0 <= p < len implies #[trigger] plain(p) == rows(p) by {
            lemma_summed_same(
                |k: int| prod(phase_share(cu, hs[p]@, s, dls[p]@, v, k), f(v, k)),
                |k: int| prod(gp(p, k), wf(k)),
                n,
            );
        }
        lemma_summed_same(plain, rows, len);
        let cols = |k: int| prod(summed(|p: int| gp(p, k), len), wf(k));
        let made = |k: int| prod(value(cu, phase_grad(dls, hs, s, v, k, len)), f(v, k));
        assert forall|k: int| 0 <= k < n implies #[trigger] cols(k) == made(k) by {
            lemma_phase_grad(cu, dls, hs, s, v, k, len);
            lemma_summed_same(
                |p: int| gp(p, k),
                |p: int| phase_share(cu, hs[p]@, s, dls[p]@, v, k),
                len,
            );
        }
        lemma_summed_same(cols, made, n);
    }
    lemma_summed_same(by_token, phases, vocab);
    // The temperature.
    let heats = heats_of(dls, hs, s);
    let parts = |p: int| heat_share(cu, hs[p]@, s, dls[p]@);
    lemma_summed_scaled(re, parts, dt, len);
    lemma_fold(cu, zero(), heats);
    lemma_constants(cu);
    lemma_summed_same(|p: int| value(cu, heats[p]), parts, len);
    lemma_sign(dt, summed(parts, len));
}

} // verus!
