//! From the last state to logits, and the way back: the decoders of the wave model.

use vstd::prelude::*;
use crate::arith::{Arith, Binary, Test, Traced, TracedVec, pick_on, sum_from, total};
#[allow(unused_imports)]
use crate::arith::{
    Expr, dot_of, fits, fits_all, fold_of, one, over, pick, times, total_of, val, vals, zero,
};
use crate::attention::{column, untraced_rows};
#[allow(unused_imports)]
use crate::attention::{column_of, formulas, rows_fit, rows_ok, rows_vals};
use crate::backprop::{outer_on, transposed_on, value_rows_on, zero_rows_on};
#[allow(unused_imports)]
use crate::backprop::{outer_of, transposed_of, zero_rows};
use crate::layers::{scores_on, traced};
#[allow(unused_imports)]
use crate::layers::scores_of;
use crate::loss::{cross_entropy, shared_on};
#[allow(unused_imports)]
use crate::loss::{entropy_grads, mean_entropy, shared_of};
use crate::phase_loss::{native_on, turned_on};
#[allow(unused_imports)]
use crate::phase_loss::{Tuning, angle_grads, native_grads, native_loss, turned_back, turned_of};
use crate::seqs::take;
#[allow(unused_imports)]
use crate::seqs::rows_width;
use crate::wave_decode::WaveDecodeGrads;
use crate::wave_model::WavePacketModel;
use crate::wave_score;
#[allow(unused_imports)]
use crate::wave_score::{grads_cover, tables_cover, wave_logits};

verus! {

/// The logits of a position through a bottleneck.
pub open spec fn low_rank_of<T>(down: Seq<Vec<T>>, up: Seq<Vec<T>>, x: Seq<Expr<T>>) -> Seq<
    Expr<T>,
> {
    scores_of(up, scores_of(down, x))
}

/// The logits of every position through a bottleneck.
pub fn low_rank_logits<T: Copy, A: Arith<T>>(
    ops: &A,
    down: &Vec<Vec<T>>,
    up: &Vec<Vec<T>>,
    x: &Vec<Vec<T>>,
) -> (out: Vec<Vec<T>>)
    requires
        forall|p: int|
            0 <= p < x@.len() ==> #[trigger] rows_width(down@, x@[p]@.len() as int),
        rows_width(up@, down@.len() as int),
    ensures
        rows_fit(
            *ops,
            Seq::new(x@.len(), |p: int| low_rank_of(down@, up@, vals(x@[p]@))),
            out@,
        ),
{
    let t: usize = x.len();
    let mut out: Vec<Vec<T>> = Vec::new();
    let mut p: usize = 0;
    while p < t
        invariant
            t == x@.len(),
            forall|p: int|
                0 <= p < x@.len() ==> #[trigger] rows_width(down@, x@[p]@.len() as int),
            rows_width(up@, down@.len() as int),
            p <= t,
            out@.len() == p,
            forall|i: int|
                0 <= i < p ==> fits_all(
                    *ops,
                    low_rank_of(down@, up@, vals(x@[i]@)),
                    (#[trigger] out@[i])@,
                ),
        decreases t - p,
    {
        assert(rows_width(down@, x@[p as int]@.len() as int));
        let narrow: TracedVec<T> = scores_on(ops, down, &traced(ops, &x[p]));
        let row: TracedVec<T> = scores_on(ops, up, &narrow);
        out.push(row.v);
        p += 1;
    }
    out
}

/// The logits of a position through a table, times a temperature.
pub open spec fn table_of<T>(table: Seq<Vec<T>>, x: Seq<Expr<T>>, heat: Expr<T>) -> Seq<Expr<T>> {
    Seq::new(table.len(), |v: int| times(scores_of(table, x)[v], heat))
}

/// The logits of every position through a table: times the temperature where there is one,
/// else times one.
pub fn table_logits<T: Copy, A: Arith<T>>(
    ops: &A,
    table: &Vec<Vec<T>>,
    temperature: Option<T>,
    x: &Vec<Vec<T>>,
) -> (out: Vec<Vec<T>>)
    requires
        forall|p: int|
            0 <= p < x@.len() ==> #[trigger] rows_width(table@, x@[p]@.len() as int),
    ensures
        rows_fit(
            *ops,
            Seq::new(
                x@.len(),
                |p: int|
                    table_of(
                        table@,
                        vals(x@[p]@),
                        match temperature {
                            Some(h) => val(h),
                            None => one(),
                        },
                    ),
            ),
            out@,
        ),
{
    let t: usize = x.len();
    let vocab: usize = table.len();
    let heat: Traced<T> = match temperature {
        Some(h) => Traced::of(ops, h),
        None => Traced::ratio(ops, 1, 1),
    };
    let mut out: Vec<Vec<T>> = Vec::new();
    let mut p: usize = 0;
    while p < t
        invariant
            t == x@.len(),
            vocab == table@.len(),
            forall|p: int|
                0 <= p < x@.len() ==> #[trigger] rows_width(table@, x@[p]@.len() as int),
            heat.ok(*ops),
            heat.e@ == (match temperature {
                Some(h) => val(h),
                None => one(),
            }),
            p <= t,
            out@.len() == p,
            forall|i: int|
                0 <= i < p ==> fits_all(
                    *ops,
                    table_of(table@, vals(x@[i]@), heat.e@),
                    (#[trigger] out@[i])@,
                ),
        decreases t - p,
    {
        assert(rows_width(table@, x@[p as int]@.len() as int));
        let plain: TracedVec<T> = scores_on(ops, table, &traced(ops, &x[p]));
        let ghost es = table_of(table@, vals(x@[p as int]@), heat.e@);
        let mut row: TracedVec<T> = TracedVec::new(ops);
        let mut v: usize = 0;
        assert(row.e@ =~= es.take(0));
        while v < vocab
            invariant
                vocab == table@.len(),
                heat.ok(*ops),
                plain.ok(*ops),
                plain.v@.len() == vocab,
                plain.e@ == scores_of(table@, vals(x@[p as int]@)),
                es == table_of(table@, vals(x@[p as int]@), heat.e@),
                v <= vocab,
                row.ok(*ops),
                row.e@ == es.take(v as int),
            decreases vocab - v,
        {
            row.push(ops, plain.get(ops, v).times(ops, heat));
            v += 1;
            assert(row.e@ =~= es.take(v as int));
        }
        assert(es.take(vocab as int) =~= es);
        out.push(row.v);
        p += 1;
    }
    out
}

/// The logits of a position compared with the embeddings, after its bands are turned.
pub open spec fn phase_logits<T>(x: Seq<Expr<T>>, angles: Seq<T>, table: Seq<Vec<T>>) -> Seq<
    Expr<T>,
> {
    Seq::new(
        table.len(),
        |v: int| dot_of(zero(), turned_of(x, vals(angles)), vals(table[v]@)),
    )
}

/// The logits of every position compared with the embeddings.
fn native_logits<T: Copy, A: Arith<T>>(
    ops: &A,
    table: &Vec<Vec<T>>,
    angles: &[T],
    n_bands: usize,
    x: &Vec<Vec<T>>,
) -> (out: Vec<Vec<T>>)
    requires
        n_bands <= angles@.len(),
        forall|p: int| 0 <= p < x@.len() ==> 2 * n_bands <= (#[trigger] x@[p])@.len(),
        forall|v: int| 0 <= v < table@.len() ==> 2 * n_bands <= (#[trigger] table@[v])@.len(),
    ensures
        rows_fit(
            *ops,
            Seq::new(
                x@.len(),
                |p: int| phase_logits(vals(x@[p]@), angles@.take(n_bands as int), table@),
            ),
            out@,
        ),
{
    let t: usize = x.len();
    let vocab: usize = table.len();
    let turns: TracedVec<T> = TracedVec::of(ops, take(angles, 0, n_bands));
    let ghost a = angles@.take(n_bands as int);
    assert(angles@.subrange(0, n_bands as int) =~= a);
    let mut out: Vec<Vec<T>> = Vec::new();
    let mut p: usize = 0;
    while p < t
        invariant
            t == x@.len(),
            vocab == table@.len(),
            turns.ok(*ops),
            turns.v@.len() == n_bands,
            turns.e@ == vals(a),
            forall|p: int| 0 <= p < x@.len() ==> 2 * n_bands <= (#[trigger] x@[p])@.len(),
            forall|v: int| 0 <= v < table@.len() ==> 2 * n_bands <= (#[trigger] table@[v])@.len(),
            p <= t,
            out@.len() == p,
            forall|i: int|
                0 <= i < p ==> fits_all(
                    *ops,
                    phase_logits(vals(x@[i]@), a, table@),
                    (#[trigger] out@[i])@,
                ),
        decreases t - p,
    {
        assert(2 * n_bands <= x@[p as int]@.len());
        let turned: TracedVec<T> = turned_on(ops, &traced(ops, &x[p]), &turns, n_bands);
        let ghost es = phase_logits(vals(x@[p as int]@), a, table@);
        let mut row: TracedVec<T> = TracedVec::new(ops);
        let mut v: usize = 0;
        assert(row.e@ =~= es.take(0));
        while v < vocab
            invariant
                vocab == table@.len(),
                turned.ok(*ops),
                turned.v@.len() == 2 * n_bands,
                turned.e@ == turned_of(vals(x@[p as int]@), vals(a)),
                forall|v: int|
                    0 <= v < table@.len() ==> 2 * n_bands <= (#[trigger] table@[v])@.len(),
                es == phase_logits(vals(x@[p as int]@), a, table@),
                v <= vocab,
                row.ok(*ops),
                row.e@ == es.take(v as int),
            decreases vocab - v,
        {
            assert(2 * n_bands <= table@[v as int]@.len());
            row.push(ops, crate::layers::score(ops, &turned, &traced(ops, &table[v])));
            v += 1;
            assert(row.e@ =~= es.take(v as int));
        }
        assert(es.take(vocab as int) =~= es);
        out.push(row.v);
        p += 1;
    }
    out
}

/// The logits of a position: through the first decoder that the model has.
pub open spec fn decoded<T>(
    model: WavePacketModel<T>,
    n_bands: int,
    tied: bool,
    x: Seq<Expr<T>>,
) -> Seq<Expr<T>> {
    if model.phase_native {
        phase_logits(x, model.output_corrector@.take(n_bands), model.wte@)
    } else if let Some(s) = model.wd_state {
        wave_logits(x, s)
    } else if model.lm_rank > 0 {
        low_rank_of(model.lm_down@, model.lm_up@, x)
    } else if tied {
        table_of(model.wte@, x, val(model.tied_temperature))
    } else {
        table_of(model.lm_head@, x, one())
    }
}

/// The model's decoder takes states of `n_embd` components.
pub open spec fn decodes<T>(
    model: WavePacketModel<T>,
    n_bands: int,
    tied: bool,
    n_embd: int,
) -> bool {
    if model.phase_native {
        &&& n_embd == 2 * n_bands
        &&& n_bands <= model.output_corrector@.len()
        &&& forall|v: int|
            0 <= v < model.wte@.len() ==> 2 * n_bands <= (#[trigger] model.wte@[v])@.len()
    } else if let Some(s) = model.wd_state {
        &&& tables_cover(s)
        &&& 2 * s.n_bands <= n_embd
    } else if model.lm_rank > 0 {
        &&& rows_width(model.lm_down@, n_embd)
        &&& rows_width(model.lm_up@, model.lm_down@.len() as int)
    } else if tied {
        rows_width(model.wte@, n_embd)
    } else {
        rows_width(model.lm_head@, n_embd)
    }
}

/// The logits of every position.
pub fn decode<T: Copy, A: Arith<T>>(
    ops: &A,
    model: &WavePacketModel<T>,
    n_bands: usize,
    tied: bool,
    n_embd: usize,
    x: &Vec<Vec<T>>,
) -> (out: Vec<Vec<T>>)
    requires
        rows_width(x@, n_embd as int),
        decodes(*model, n_bands as int, tied, n_embd as int),
    ensures
        rows_fit(
            *ops,
            Seq::new(x@.len(), |p: int| decoded(*model, n_bands as int, tied, vals(x@[p]@))),
            out@,
        ),
{
    let ghost want = Seq::new(
        x@.len(),
        |p: int| decoded(*model, n_bands as int, tied, vals(x@[p]@)),
    );
    if model.phase_native {
        let out: Vec<Vec<T>> = native_logits(
            ops,
            &model.wte,
            &model.output_corrector,
            n_bands,
            x,
        );
        assert(rows_fit(*ops, want, out@));
        return out;
    }
    if let Some(s) = &model.wd_state {
        let out: Vec<Vec<T>> = wave_score::forward(ops, x, s);
        assert(rows_fit(*ops, want, out@));
        return out;
    }
    let out: Vec<Vec<T>> = if model.lm_rank > 0 {
        low_rank_logits(ops, &model.lm_down, &model.lm_up, x)
    } else if tied {
        table_logits(ops, &model.wte, Some(model.tied_temperature), x)
    } else {
        table_logits(ops, &model.lm_head, None, x)
    };
    assert(rows_fit(*ops, want, out@));
    out
}

/// What comes back through the decoder: the loss, the gradients of the logits where the loss
/// goes through logits, those of the states, and those of the decoder's own weights.
pub struct DecoderBack<T> {
    pub loss: T,
    pub d_logits: Vec<Vec<T>>,
    pub d_hidden: Vec<Vec<T>>,
    pub lm_head: Vec<Vec<T>>,
    pub lm_down: Vec<Vec<T>>,
    pub lm_up: Vec<Vec<T>>,
    pub d_output_corrector: Vec<T>,
    pub wd_grads: Option<WaveDecodeGrads<T>>,
}

/// The gradients of logits: of the mean loss over the positions.
pub open spec fn logit_grads<T>(logits: Seq<Vec<T>>, targets: Seq<usize>) -> Seq<Seq<Expr<T>>> {
    Seq::new(
        logits.len(),
        |p: int|
            shared_of(entropy_grads(vals(logits[p]@), targets[p] as int), logits.len() as usize),
    )
}

/// A transposed table applied at every position.
pub open spec fn transposed_rows<T>(w: Seq<Vec<T>>, d: Seq<Seq<Expr<T>>>, n: int) -> Seq<
    Seq<Expr<T>>,
> {
    Seq::new(d.len(), |p: int| transposed_of(w, d[p], n))
}

fn transposed_rows_on<T: Copy, A: Arith<T>>(
    ops: &A,
    w: &Vec<Vec<T>>,
    d: &Vec<TracedVec<T>>,
    n: usize,
) -> (out: Vec<TracedVec<T>>)
    requires
        rows_ok(*ops, d@, w@.len() as int),
        rows_width(w@, n as int),
    ensures
        out@.len() == d@.len(),
        rows_ok(*ops, out@, n as int),
        formulas(out@) == transposed_rows(w@, formulas(d@), n as int),
{
    let t: usize = d.len();
    let ghost want = transposed_rows(w@, formulas(d@), n as int);
    let mut out: Vec<TracedVec<T>> = Vec::new();
    let mut p: usize = 0;
    assert(formulas(out@) =~= want.take(0));
    while p < t
        invariant
            t == d@.len(),
            rows_ok(*ops, d@, w@.len() as int),
            rows_width(w@, n as int),
            want == transposed_rows(w@, formulas(d@), n as int),
            p <= t,
            out@.len() == p,
            rows_ok(*ops, out@, n as int),
            formulas(out@) == want.take(p as int),
        decreases t - p,
    {
        assert(d@[p as int].ok(*ops));
        let row: TracedVec<T> = transposed_on(ops, w, &d[p], n);
        let ghost before = formulas(out@);
        out.push(row);
        p += 1;
        assert(formulas(out@) =~= before.push(row.e@));
        assert(formulas(out@) =~= want.take(p as int));
    }
    assert(want.take(t as int) =~= want);
    out
}

/// A table applied at every position.
pub open spec fn scored_rows<T>(w: Seq<Vec<T>>, x: Seq<Seq<Expr<T>>>) -> Seq<Seq<Expr<T>>> {
    Seq::new(x.len(), |p: int| scores_of(w, x[p]))
}

fn scored_rows_on<T: Copy, A: Arith<T>>(
    ops: &A,
    w: &Vec<Vec<T>>,
    x: &Vec<TracedVec<T>>,
    Ghost(n): Ghost<int>,
) -> (out: Vec<TracedVec<T>>)
    requires
        rows_ok(*ops, x@, n),
        rows_width(w@, n),
    ensures
        out@.len() == x@.len(),
        rows_ok(*ops, out@, w@.len() as int),
        formulas(out@) == scored_rows(w@, formulas(x@)),
{
    let t: usize = x.len();
    let ghost want = scored_rows(w@, formulas(x@));
    let mut out: Vec<TracedVec<T>> = Vec::new();
    let mut p: usize = 0;
    assert(formulas(out@) =~= want.take(0));
    while p < t
        invariant
            t == x@.len(),
            rows_ok(*ops, x@, n),
            rows_width(w@, n),
            want == scored_rows(w@, formulas(x@)),
            p <= t,
            out@.len() == p,
            rows_ok(*ops, out@, w@.len() as int),
            formulas(out@) == want.take(p as int),
        decreases t - p,
    {
        assert(x@[p as int].ok(*ops));
        let row: TracedVec<T> = scores_on(ops, w, &x[p]);
        let ghost before = formulas(out@);
        out.push(row);
        p += 1;
        assert(formulas(out@) =~= before.push(row.e@));
        assert(formulas(out@) =~= want.take(p as int));
    }
    assert(want.take(t as int) =~= want);
    out
}

/// The losses of the positions of a model that compares states with embeddings.
pub open spec fn native_losses<T>(
    model: WavePacketModel<T>,
    n_bands: int,
    temperature: T,
    post: Seq<Vec<T>>,
    targets: Seq<usize>,
) -> Seq<Expr<T>> {
    Seq::new(
        post.len(),
        |p: int|
            native_loss(
                post[p]@,
                model.wte@,
                targets[p] as int,
                Tuning { temperature: val(temperature), scaled: true },
                model.output_corrector@.take(n_bands),
                Expr::Ratio(1, 10000000000),
            ),
    )
}

/// The gradients of the turned state at a position.
pub open spec fn native_pull<T>(
    model: WavePacketModel<T>,
    n_bands: int,
    temperature: T,
    post: Seq<Vec<T>>,
    targets: Seq<usize>,
    p: int,
) -> Seq<Expr<T>> {
    native_grads(
        post[p]@,
        model.wte@,
        targets[p] as int,
        Tuning { temperature: val(temperature), scaled: true },
        model.output_corrector@.take(n_bands),
    )
}

/// The gradients of the states of such a model: those of the mean loss.
pub open spec fn native_state_grads<T>(
    model: WavePacketModel<T>,
    n_bands: int,
    temperature: T,
    post: Seq<Vec<T>>,
    targets: Seq<usize>,
) -> Seq<Seq<Expr<T>>> {
    Seq::new(
        post.len(),
        |p: int|
            shared_of(
                turned_back(
                    native_pull(model, n_bands, temperature, post, targets, p),
                    vals(model.output_corrector@.take(n_bands)),
                ),
                post.len() as usize,
            ),
    )
}

/// What every position adds to the gradients of the angles.
pub open spec fn native_angle_grads<T>(
    model: WavePacketModel<T>,
    n_bands: int,
    temperature: T,
    post: Seq<Vec<T>>,
    targets: Seq<usize>,
) -> Seq<Seq<Expr<T>>> {
    Seq::new(
        post.len(),
        |p: int|
            shared_of(
                angle_grads(
                    vals(post[p]@),
                    native_pull(model, n_bands, temperature, post, targets, p),
                    vals(model.output_corrector@.take(n_bands)),
                ),
                post.len() as usize,
            ),
    )
}

/// What comes back through a decoder that compares states with embeddings.
pub open spec fn native_back_fits<T: Copy, A: Arith<T>>(
    ops: A,
    model: WavePacketModel<T>,
    n_bands: int,
    temperature: T,
    post: Seq<Vec<T>>,
    targets: Seq<usize>,
    b: DecoderBack<T>,
) -> bool {
    let gains = native_angle_grads(model, n_bands, temperature, post, targets);
    &&& fits(
        ops,
        over(
            total_of(native_losses(model, n_bands, temperature, post, targets)),
            Expr::Count(post.len() as usize),
        ),
        b.loss,
    )
    &&& b.d_logits@.len() == 0
    &&& rows_fit(
        ops,
        native_state_grads(model, n_bands, temperature, post, targets),
        b.d_hidden@,
    )
    &&& fits_all(
        ops,
        Seq::new(
            n_bands as nat,
            |k: int| fold_of(Binary::Plus, zero(), column_of(gains, k)),
        ),
        b.d_output_corrector@,
    )
    &&& b.lm_head@.len() == 0
    &&& b.lm_down@.len() == 0
    &&& b.lm_up@.len() == 0
    &&& b.wd_grads is None
}

fn native_back<T: Copy, A: Arith<T>>(
    ops: &A,
    model: &WavePacketModel<T>,
    n_bands: usize,
    temperature: T,
    post: &Vec<Vec<T>>,
    targets: &[usize],
) -> (b: DecoderBack<T>)
    requires
        model.phase_native,
        2 * n_bands <= usize::MAX,
        rows_width(post@, 2 * n_bands),
        decodes(*model, n_bands as int, false, 2 * n_bands),
        post@.len() <= targets@.len(),
        forall|p: int|
            0 <= p < post@.len() ==> (#[trigger] targets@[p]) < model.wte@.len(),
    ensures
        native_back_fits(*ops, *model, n_bands as int, temperature, post@, targets@, b),
{
    let t: usize = post.len();
    let n_targets: usize = targets.len();
    let ghost nb = n_bands as int;
    let ghost losses_of = native_losses(*model, nb, temperature, post@, targets@);
    let ghost states_of = native_state_grads(*model, nb, temperature, post@, targets@);
    let ghost gains_of = native_angle_grads(*model, nb, temperature, post@, targets@);
    let mut losses: TracedVec<T> = TracedVec::new(ops);
    let mut d_hidden: Vec<Vec<T>> = Vec::new();
    let mut gains: Vec<TracedVec<T>> = Vec::new();
    let mut p: usize = 0;
    assert(losses.e@ =~= losses_of.take(0));
    assert(formulas(gains@) =~= gains_of.take(0));
    while p < t
        invariant
            t == post@.len(),
            n_targets == targets@.len(),
            t <= n_targets,
            nb == n_bands,
            model.phase_native,
            2 * n_bands <= usize::MAX,
            rows_width(post@, 2 * n_bands),
            decodes(*model, n_bands as int, false, 2 * n_bands),
            forall|p: int|
                0 <= p < post@.len() ==> (#[trigger] targets@[p]) < model.wte@.len(),
            losses_of == native_losses(*model, nb, temperature, post@, targets@),
            states_of == native_state_grads(*model, nb, temperature, post@, targets@),
            gains_of == native_angle_grads(*model, nb, temperature, post@, targets@),
            p <= t,
            losses.ok(*ops),
            losses.e@ == losses_of.take(p as int),
            d_hidden@.len() == p,
            forall|i: int|
                0 <= i < p ==> fits_all(*ops, states_of[i], (#[trigger] d_hidden@[i])@),
            gains@.len() == p,
            rows_ok(*ops, gains@, nb),
            formulas(gains@) == gains_of.take(p as int),
        decreases t - p,
    {
        let target: usize = targets[p];
        assert(post@[p as int]@.len() == 2 * n_bands);
        let (loss, d_h, d_oc) = native_on(
            ops,
            &post[p],
            &model.wte,
            target,
            n_bands,
            temperature,
            &model.output_corrector,
            true,
        );
        losses.push(ops, loss);
        let row: TracedVec<T> = shared_on(ops, &d_h, t);
        d_hidden.push(row.v);
        let gain: TracedVec<T> = shared_on(ops, &d_oc, t);
        let ghost before = formulas(gains@);
        gains.push(gain);
        p += 1;
        proof {
            assert(losses.e@ =~= losses_of.take(p as int));
            assert(formulas(gains@) =~= before.push(gain.e@));
            assert(formulas(gains@) =~= gains_of.take(p as int));
            assert(states_of[p - 1] == row.e@);
        }
    }
    assert(losses.e@ =~= losses_of);
    assert(gains_of.take(t as int) =~= gains_of);
    let mean: Traced<T> = total(ops, &losses).over(ops, Traced::count(ops, t));
    let ghost want = Seq::new(
        n_bands as nat,
        |k: int| fold_of(Binary::Plus, zero(), column_of(gains_of, k)),
    );
    let mut d_output_corrector: TracedVec<T> = TracedVec::new(ops);
    let mut k: usize = 0;
    assert(d_output_corrector.e@ =~= want.take(0));
    while k < n_bands
        invariant
            t == gains@.len(),
            rows_ok(*ops, gains@, n_bands as int),
            formulas(gains@) == gains_of,
            gains_of.take(t as int) == gains_of,
            want == Seq::new(
                n_bands as nat,
                |k: int| fold_of(Binary::Plus, zero(), column_of(gains_of, k)),
            ),
            k <= n_bands,
            d_output_corrector.ok(*ops),
            d_output_corrector.e@ == want.take(k as int),
        decreases n_bands - k,
    {
        let col: TracedVec<T> = column(ops, &gains, t, k, Ghost(n_bands as int));
        d_output_corrector.push(ops, sum_from(ops, Traced::ratio(ops, 0, 1), &col));
        k += 1;
        assert(d_output_corrector.e@ =~= want.take(k as int));
    }
    assert(want.take(n_bands as int) =~= want);
    DecoderBack {
        loss: mean.v,
        d_logits: Vec::new(),
        d_hidden,
        lm_head: Vec::new(),
        lm_down: Vec::new(),
        lm_up: Vec::new(),
        d_output_corrector: d_output_corrector.v,
        wd_grads: None,
    }
}

/// What comes back through a bottleneck.
pub open spec fn low_rank_back_fits<T: Copy, A: Arith<T>>(
    ops: A,
    model: WavePacketModel<T>,
    post: Seq<Vec<T>>,
    n_embd: int,
    b: DecoderBack<T>,
) -> bool {
    let rank = model.lm_down@.len() as int;
    let dl = rows_vals(b.d_logits@);
    let narrow = scored_rows(model.lm_down@, rows_vals(post));
    let d_narrow = transposed_rows(model.lm_up@, dl, rank);
    &&& rows_fit(ops, transposed_rows(model.lm_down@, d_narrow, n_embd), b.d_hidden@)
    &&& rows_fit(
        ops,
        outer_of(zero_rows(model.lm_up@.len() as int, rank), dl, narrow, rank),
        b.lm_up@,
    )
    &&& rows_fit(
        ops,
        outer_of(zero_rows(rank, n_embd), d_narrow, rows_vals(post), n_embd),
        b.lm_down@,
    )
    &&& b.lm_head@.len() == 0
    &&& b.wd_grads is None
}

/// What comes back through a table: its own gradients only where it is not the embeddings.
pub open spec fn table_back_fits<T: Copy, A: Arith<T>>(
    ops: A,
    model: WavePacketModel<T>,
    tied: bool,
    post: Seq<Vec<T>>,
    n_embd: int,
    b: DecoderBack<T>,
) -> bool {
    let table = if tied {
        model.wte@
    } else {
        model.lm_head@
    };
    let dl = rows_vals(b.d_logits@);
    &&& rows_fit(ops, transposed_rows(table, dl, n_embd), b.d_hidden@)
    &&& if tied {
        b.lm_head@.len() == 0
    } else {
        rows_fit(
            ops,
            outer_of(
                zero_rows(table.len() as int, n_embd),
                dl,
                rows_vals(post),
                n_embd,
            ),
            b.lm_head@,
        )
    }
    &&& b.lm_down@.len() == 0
    &&& b.lm_up@.len() == 0
    &&& b.wd_grads is None
}

/// The gradients of a wave decoder, out of those of the logits.
pub open spec fn wave_back_fits<T: Copy, A: Arith<T>>(
    ops: A,
    s: crate::wave_decode::WaveDecodeState<T>,
    post: Seq<Vec<T>>,
    b: DecoderBack<T>,
) -> bool {
    let dl = b.d_logits@;
    &&& rows_fit(
        ops,
        Seq::new(dl.len(), |p: int| wave_score::state_grads(post[p]@, s, dl[p]@)),
        b.d_hidden@,
    )
    &&& b.wd_grads matches Some(g) && wave_grads_fit(ops, s, dl, post, g)
    &&& b.lm_head@.len() == 0
    &&& b.lm_down@.len() == 0
    &&& b.lm_up@.len() == 0
}

/// The gradients of a wave decoder's weights, temperature and reference phases.
pub open spec fn wave_grads_fit<T: Copy, A: Arith<T>>(
    ops: A,
    s: crate::wave_decode::WaveDecodeState<T>,
    dl: Seq<Vec<T>>,
    post: Seq<Vec<T>>,
    g: WaveDecodeGrads<T>,
) -> bool {
    let t = dl.len() as int;
    &&& fits_all(
        ops,
        Seq::new(
            s.n_bands as nat,
            |k: int| wave_score::weight_grad(dl, post, s, k, t),
        ),
        g.d_band_weights@,
    )
    &&& fits(ops, total_of(wave_score::heats_of(dl, post, s)), g.d_temperature)
    &&& g.d_ref_phases is Some <==> s.ref_phases is Some
    &&& g.d_ref_phases matches Some(rows) ==> rows_fit(
        ops,
        Seq::new(
            s.vocab_size as nat,
            |v: int|
                Seq::new(
                    s.n_bands as nat,
                    |k: int| wave_score::phase_grad(dl, post, s, v, k, t),
                ),
        ),
        rows@,
    )
}

/// What comes back through a decoder with logits.
pub open spec fn logit_back_fits<T: Copy, A: Arith<T>>(
    ops: A,
    model: WavePacketModel<T>,
    tied: bool,
    post: Seq<Vec<T>>,
    logits: Seq<Vec<T>>,
    targets: Seq<usize>,
    n_embd: int,
    b: DecoderBack<T>,
) -> bool {
    &&& fits(ops, mean_entropy(logits, targets), b.loss)
    &&& rows_fit(ops, logit_grads(logits, targets), b.d_logits@)
    &&& b.d_output_corrector@.len() == 0
    &&& if let Some(s) = model.wd_state {
        wave_back_fits(ops, s, post, b)
    } else if model.lm_rank > 0 {
        low_rank_back_fits(ops, model, post, n_embd, b)
    } else {
        table_back_fits(ops, model, tied, post, n_embd, b)
    }
}

/// Number of tokens that the model's decoder scores.
pub open spec fn scored_tokens<T>(model: WavePacketModel<T>, tied: bool) -> int {
    if let Some(s) = model.wd_state {
        s.vocab_size as int
    } else if model.lm_rank > 0 {
        model.lm_up@.len() as int
    } else if tied {
        model.wte@.len() as int
    } else {
        model.lm_head@.len() as int
    }
}

fn low_rank_back<T: Copy, A: Arith<T>>(
    ops: &A,
    model: &WavePacketModel<T>,
    post: &Vec<Vec<T>>,
    loss: T,
    d_logits: Vec<Vec<T>>,
    n_embd: usize,
) -> (b: DecoderBack<T>)
    requires
        rows_width(post@, n_embd as int),
        post@.len() == d_logits@.len(),
        rows_width(d_logits@, model.lm_up@.len() as int),
        rows_width(model.lm_down@, n_embd as int),
        rows_width(model.lm_up@, model.lm_down@.len() as int),
    ensures
        b.loss == loss,
        b.d_logits == d_logits,
        b.d_output_corrector@.len() == 0,
        low_rank_back_fits(*ops, *model, post@, n_embd as int, b),
{
    let rank: usize = model.lm_down.len();
    let vocab: usize = model.lm_up.len();
    let dl: Vec<TracedVec<T>> = value_rows_on(ops, &d_logits, vocab);
    let xs: Vec<TracedVec<T>> = value_rows_on(ops, post, n_embd);
    let narrow: Vec<TracedVec<T>> = scored_rows_on(ops, &model.lm_down, &xs, Ghost(n_embd as int));
    let d_narrow: Vec<TracedVec<T>> = transposed_rows_on(ops, &model.lm_up, &dl, rank);
    let back: Vec<TracedVec<T>> = transposed_rows_on(ops, &model.lm_down, &d_narrow, n_embd);
    let lm_up: Vec<Vec<T>> = outer_on(
        ops,
        &zero_rows_on(ops, vocab, rank),
        &dl,
        &narrow,
        vocab,
        rank,
    );
    let lm_down: Vec<Vec<T>> = outer_on(
        ops,
        &zero_rows_on(ops, rank, n_embd),
        &d_narrow,
        &xs,
        rank,
        n_embd,
    );
    let d_hidden: Vec<Vec<T>> = untraced_rows(ops, back);
    DecoderBack {
        loss,
        d_logits,
        d_hidden,
        lm_head: Vec::new(),
        lm_down,
        lm_up,
        d_output_corrector: Vec::new(),
        wd_grads: None,
    }
}

fn table_back<T: Copy, A: Arith<T>>(
    ops: &A,
    model: &WavePacketModel<T>,
    tied: bool,
    post: &Vec<Vec<T>>,
    loss: T,
    d_logits: Vec<Vec<T>>,
    n_embd: usize,
) -> (b: DecoderBack<T>)
    requires
        rows_width(post@, n_embd as int),
        post@.len() == d_logits@.len(),
        tied ==> rows_width(model.wte@, n_embd as int) && rows_width(
            d_logits@,
            model.wte@.len() as int,
        ),
        !tied ==> rows_width(model.lm_head@, n_embd as int) && rows_width(
            d_logits@,
            model.lm_head@.len() as int,
        ),
    ensures
        b.loss == loss,
        b.d_logits == d_logits,
        b.d_output_corrector@.len() == 0,
        table_back_fits(*ops, *model, tied, post@, n_embd as int, b),
{
    let table: &Vec<Vec<T>> = if tied {
        &model.wte
    } else {
        &model.lm_head
    };
    let vocab: usize = table.len();
    let dl: Vec<TracedVec<T>> = value_rows_on(ops, &d_logits, vocab);
    let back: Vec<TracedVec<T>> = transposed_rows_on(ops, table, &dl, n_embd);
    let lm_head: Vec<Vec<T>> = if tied {
        Vec::new()
    } else {
        let xs: Vec<TracedVec<T>> = value_rows_on(ops, post, n_embd);
        outer_on(ops, &zero_rows_on(ops, vocab, n_embd), &dl, &xs, vocab, n_embd)
    };
    let d_hidden: Vec<Vec<T>> = untraced_rows(ops, back);
    DecoderBack {
        loss,
        d_logits,
        d_hidden,
        lm_head,
        lm_down: Vec::new(),
        lm_up: Vec::new(),
        d_output_corrector: Vec::new(),
        wd_grads: None,
    }
}

/// The way back through the model's decoder, from the loss to the gradients of the states.
/// A model that compares states with embeddings needs no logits.
pub fn decode_back<T: Copy, A: Arith<T>>(
    ops: &A,
    model: &WavePacketModel<T>,
    n_bands: usize,
    tied: bool,
    temperature: T,
    post: &Vec<Vec<T>>,
    logits: &Vec<Vec<T>>,
    targets: &[usize],
    n_embd: usize,
) -> (b: DecoderBack<T>)
    requires
        rows_width(post@, n_embd as int),
        decodes(*model, n_bands as int, tied, n_embd as int),
        post@.len() <= targets@.len(),
        model.phase_native ==> forall|p: int|
            0 <= p < post@.len() ==> (#[trigger] targets@[p]) < model.wte@.len(),
        !model.phase_native ==> {
            &&& logits@.len() == post@.len()
            &&& rows_width(logits@, scored_tokens(*model, tied))
            &&& forall|p: int|
                0 <= p < post@.len() ==> (#[trigger] targets@[p]) < scored_tokens(*model, tied)
        },
    ensures
        model.phase_native ==> native_back_fits(
            *ops,
            *model,
            n_bands as int,
            temperature,
            post@,
            targets@,
            b,
        ),
        !model.phase_native ==> logit_back_fits(
            *ops,
            *model,
            tied,
            post@,
            logits@,
            targets@,
            n_embd as int,
            b,
        ),
{
    if model.phase_native {
        return native_back(ops, model, n_bands, temperature, post, targets);
    }
    assert forall|p: int| 0 <= p < logits@.len() implies (#[trigger] targets@[p])
        < logits@[p]@.len() by {}
    let (loss, d_logits) = cross_entropy(ops, logits, targets);
    let ghost want = logit_grads(logits@, targets@);
    assert(rows_fit(*ops, want, d_logits@));
    assert forall|p: int| 0 <= p < d_logits@.len() implies (#[trigger] d_logits@[p])@.len()
        == scored_tokens(*model, tied) by {
        assert(fits_all(*ops, want[p], d_logits@[p]@));
        assert(logits@[p]@.len() == scored_tokens(*model, tied));
    }
    if let Some(s) = &model.wd_state {
        assert(grads_cover(d_logits@, post@, *s));
        let (d_hidden, grads) = wave_score::backward(ops, &d_logits, post, s);
        return DecoderBack {
            loss,
            d_logits,
            d_hidden,
            lm_head: Vec::new(),
            lm_down: Vec::new(),
            lm_up: Vec::new(),
            d_output_corrector: Vec::new(),
            wd_grads: Some(grads),
        };
    }
    if model.lm_rank > 0 {
        low_rank_back(ops, model, post, loss, d_logits, n_embd)
    } else {
        table_back(ops, model, tied, post, loss, d_logits, n_embd)
    }
}

/// The temperature of a loss: the one that is set, where it is positive, else one.
pub fn loss_temperature<T: Copy, A: Arith<T>>(ops: &A, phase_temp: T) -> (out: T)
    ensures
        fits(
            *ops,
            pick(Test::Exceeds, val(phase_temp), zero(), val(phase_temp), one()),
            out,
        ),
{
    let temp: Traced<T> = Traced::of(ops, phase_temp);
    pick_on(
        ops,
        Test::Exceeds,
        temp,
        Traced::ratio(ops, 0, 1),
        temp,
        Traced::ratio(ops, 1, 1),
    ).v
}

} // verus!
