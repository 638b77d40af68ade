//! The numbers of a training iteration: its learning rate, the mean of a batch, and the step
//! that the optimiser takes; and what is checked before a run starts.

use vstd::prelude::*;
use crate::arith::{Arith, Test, Traced, TracedVec, build, holds, pick_on, total};
#[allow(unused_imports)]
use crate::arith::{
    Expr, Unary, dot_of, entry, fits, fits_all, larger, minus, one, over, pick, plus, test_is, times,
    total_of, un, val, vals, zero,
};
use crate::attention::{column, traced_rows};
#[allow(unused_imports)]
use crate::attention::{column_of, formulas, rows_vals};
use crate::layers::{mean_on, score, traced};
#[allow(unused_imports)]
use crate::layers::mean_of;
use crate::loss::norm_on;
#[allow(unused_imports)]
use crate::loss::norm_of;
use crate::optimizer::{Adam, clip_grad_norm};
#[allow(unused_imports)]
use crate::optimizer::{clipped_of, step_fits};
use crate::param_groups::GroupLayout;
use crate::regulation::{SpringConfig, apply_lr_scale, apply_per_group_wd, apply_springs};
#[allow(unused_imports)]
use crate::regulation::{grads_scaled, group_decayed, may_pull, model_sprung, rate_scales_of};
#[allow(unused_imports)]
use crate::seqs::rows_width;
use crate::statistics::{over_ratio, shared_dot_on};
#[allow(unused_imports)]
use crate::statistics::{exceeds_ratio, shared_dot};
use crate::train::{DynParam, LrPhase, WARMUP_ITERS, lr_phase};
use crate::wave_model::{WavePacketModel, flatten_params_ex, unflatten_params_ex};
#[allow(unused_imports)]
use crate::wave_model::holds_params;
#[allow(unused_imports)]
use crate::wave_model::WaveBlockWeights;

verus! {

/// The learning rate of an iteration: a linear warm-up, then a cosine that falls to a tenth.
pub open spec fn rate_of<T>(lr: T, iter: int, total_iters: int) -> Expr<T> {
    if iter < WARMUP_ITERS {
        over(
            times(val(lr), plus(Expr::Count(iter as usize), one())),
            Expr::Count(WARMUP_ITERS),
        )
    } else {
        let low = times(val(lr), Expr::Ratio(1, 10));
        let progress = over(
            Expr::Count((iter - WARMUP_ITERS) as usize),
            Expr::Count((total_iters - WARMUP_ITERS) as usize),
        );
        plus(
            low,
            times(
                times(Expr::Ratio(1, 2), minus(val(lr), low)),
                plus(one(), un(Unary::Cos, times(progress, Expr::Pi))),
            ),
        )
    }
}

/// The learning rate of an iteration.
pub fn learning_rate<T: Copy, A: Arith<T>>(ops: &A, lr: T, iter: usize, total_iters: usize) -> (out: T)
    requires
        iter < total_iters,
    ensures
        fits(*ops, rate_of(lr, iter as int, total_iters as int), out),
{
    let base: Traced<T> = Traced::of(ops, lr);
    let unit: Traced<T> = Traced::ratio(ops, 1, 1);
    match lr_phase(iter, total_iters) {
        LrPhase::Warmup { step: _, of } => base.times(
            ops,
            Traced::count(ops, iter).plus(ops, unit),
        ).over(ops, Traced::count(ops, of)).v,
        LrPhase::Cosine { done, span } => {
            let low: Traced<T> = base.times(ops, Traced::ratio(ops, 1, 10));
            let progress: Traced<T> = Traced::count(ops, done).over(ops, Traced::count(ops, span));
            let half: Traced<T> = Traced::ratio(ops, 1, 2).times(ops, base.minus(ops, low));
            let wave: Traced<T> = unit.plus(ops, progress.times(ops, Traced::pi(ops)).cos(ops));
            low.plus(ops, half.times(ops, wave)).v
        },
    }
}

/// The mean of a batch's gradients, parameter by parameter.
pub open spec fn batch_grads<T>(grads: Seq<Vec<T>>, n: int, batch: usize) -> Seq<Expr<T>> {
    Seq::new(
        n as nat,
        |i: int| over(total_of(column_of(rows_vals(grads), i)), Expr::Count(batch)),
    )
}

/// The mean loss and the mean gradients of a batch of `batch_size` windows.
pub fn reduce_batch<T: Copy, A: Arith<T>>(
    ops: &A,
    losses: &Vec<T>,
    grads: &Vec<Vec<T>>,
    n_trainable: usize,
    batch_size: usize,
) -> (out: (T, Vec<T>))
    requires
        rows_width(grads@, n_trainable as int),
    ensures
        fits(*ops, over(total_of(vals(losses@)), Expr::Count(batch_size)), out.0),
        fits_all(*ops, batch_grads(grads@, n_trainable as int, batch_size), out.1@),
{
    let count: Traced<T> = Traced::count(ops, batch_size);
    let loss: Traced<T> = total(ops, &traced(ops, losses)).over(ops, count);
    let rows: Vec<TracedVec<T>> = traced_rows(ops, grads, n_trainable);
    let n: usize = rows.len();
    let f = |i: usize| -> (r: Traced<T>)
        requires
            i < n_trainable,
        ensures
            r.ok(*ops),
            r.e@ == entry(batch_grads(grads@, n_trainable as int, batch_size), i),
    {
        assert(formulas(rows@).take(n as int) =~= rows_vals(grads@));
        total(ops, &column(ops, &rows, n, i, Ghost(n_trainable as int))).over(ops, count)
    };
    let out: TracedVec<T> = build(
        ops,
        n_trainable,
        Ghost(batch_grads(grads@, n_trainable as int, batch_size)),
        f,
    );
    (loss.v, out.v)
}

/// Whether the floor under the head's learning rate lifts its gradients came out as `c`: the
/// floor is positive and above the rate, and the run is past its first 500 iterations.
pub open spec fn floor_lifts<T: Copy, A: Arith<T>>(
    ops: A,
    floor: T,
    lr: T,
    iters_into_run: int,
    c: bool,
) -> bool {
    exists|positive: bool, above: bool, nought: T|
        {
            &&& #[trigger] test_is(ops, Test::Exceeds, floor, nought, positive)
            &&& fits(ops, zero(), nought)
            &&& #[trigger] test_is(ops, Test::Exceeds, floor, lr, above)
            &&& c == (positive && iters_into_run > 500 && above)
        }
}

/// The factor that lifts the head's gradients.
pub open spec fn lift_of<T>(floor: T, lr: T) -> Expr<T> {
    over(val(floor), larger(val(lr), Expr::Ratio(1, 100000000)))
}

/// The factor that lifts the head's gradients, where they are lifted.
pub fn head_boost<T: Copy, A: Arith<T>>(ops: &A, floor: T, lr: T, iters_into_run: usize) -> (boost: Option<
    T,
>)
    ensures
        floor_lifts(*ops, floor, lr, iters_into_run as int, boost is Some),
        boost matches Some(b) ==> fits(*ops, lift_of(floor, lr), b),
{
    let nought: Traced<T> = Traced::ratio(ops, 0, 1);
    let positive: bool = holds(ops, Test::Exceeds, floor, nought.v);
    let above: bool = holds(ops, Test::Exceeds, floor, lr);
    assert(test_is(*ops, Test::Exceeds, floor, nought.v, positive));
    assert(test_is(*ops, Test::Exceeds, floor, lr, above));
    if positive && iters_into_run > 500 && above {
        let b: Traced<T> = Traced::of(ops, floor).over(
            ops,
            Traced::of(ops, lr).larger(ops, Traced::ratio(ops, 1, 100000000)),
        );
        Some(b.v)
    } else {
        None
    }
}

/// Gradients of which those from `start` on are lifted.
pub open spec fn lifted_of<T>(grads: Seq<T>, start: int, boost: T) -> Seq<Expr<T>> {
    Seq::new(
        grads.len(),
        |i: int|
            if i >= start {
                times(val(grads[i]), val(boost))
            } else {
                val(grads[i])
            },
    )
}

/// Lifts the gradients from `start` on.
pub fn lift_head<T: Copy, A: Arith<T>>(ops: &A, grads: &mut Vec<T>, start: usize, boost: T)
    ensures
        fits_all(*ops, lifted_of(old(grads)@, start as int, boost), final(grads)@),
{
    let n: usize = grads.len();
    let gs: &Vec<T> = grads;
    let f = |i: usize| -> (r: Traced<T>)
        requires
            i < n,
        ensures
            r.ok(*ops),
            r.e@ == entry(lifted_of(gs@, start as int, boost), i),
    {
        let g: Traced<T> = Traced::of(ops, gs[i]);
        if i >= start {
            g.times(ops, Traced::of(ops, boost))
        } else {
            g
        }
    };
    let out: TracedVec<T> = build(ops, n, Ghost(lifted_of(gs@, start as int, boost)), f);
    *grads = out.v;
}

/// The loss that a console line shows: the mean of the recent losses once there are ten, else
/// the loss itself.
pub open spec fn shown_loss<T>(recent: Seq<T>, loss: T) -> Expr<T> {
    if recent.len() >= 10 {
        mean_of(vals(recent))
    } else {
        val(loss)
    }
}

/// The loss that a console line shows.
pub fn average_loss<T: Copy, A: Arith<T>>(ops: &A, recent: &Vec<T>, loss: T) -> (out: T)
    ensures
        fits(*ops, shown_loss(recent@, loss), out),
{
    if recent.len() >= 10 {
        mean_on(ops, &traced(ops, recent)).v
    } else {
        Traced::of(ops, loss).v
    }
}

/// How the groups of parameters are treated: their rates and their decay.
///
/// The two layouts tell the groups apart for the rates and for the decay.
pub struct GroupModes<T> {
    pub lr_layout: GroupLayout,
    pub wd_layout: GroupLayout,
    pub lr_scale: DynParam<T>,
    pub wd: DynParam<T>,
    pub spring_k: T,
}

/// The gradients after the groups' rates were applied, and the rates after it.
pub open spec fn rates_applied<T: Copy, A: Arith<T>>(
    ops: A,
    modes: GroupModes<T>,
    lr: T,
    scales: Seq<T>,
    grads: Seq<T>,
    scales_after: Seq<T>,
    grads_after: Seq<T>,
) -> bool {
    &&& modes.lr_scale is Off ==> grads_after == grads && scales_after == scales
    &&& !(modes.lr_scale is Off) ==> fits_all(
        ops,
        grads_scaled(modes.lr_layout, scales, grads),
        grads_after,
    )
    &&& modes.lr_scale is Fixed ==> scales_after == scales
    &&& modes.lr_scale is Dynamic ==> fits_all(
        ops,
        rate_scales_of(scales, lr, modes.spring_k, modes.lr_layout, grads_after),
        scales_after,
    )
}

/// The gradients after clipping to length one and lifting the head's.
pub open spec fn prepared<T: Copy, A: Arith<T>>(
    ops: A,
    grads: Seq<T>,
    lift: Option<(usize, T)>,
    out: Seq<T>,
) -> bool {
    exists|limit: T, clipped: Seq<T>|
        {
            &&& fits(ops, one(), limit)
            &&& #[trigger] fits_all(ops, clipped_of(grads, limit), clipped)
            &&& match lift {
                Some(l) => fits_all(ops, lifted_of(clipped, l.0 as int, l.1), out),
                None => out == clipped,
            }
        }
}

/// The step of the optimiser: with a decay of its own, or, where the groups have theirs,
/// after it and without.
pub open spec fn stepped<T: Copy, A: Arith<T>>(
    ops: A,
    modes: GroupModes<T>,
    lr: T,
    wd_scales: Seq<T>,
    before: Adam<T>,
    after: Adam<T>,
    params: Seq<T>,
    out: Seq<T>,
    grads: Seq<T>,
) -> bool {
    if modes.wd is Off {
        exists|wd: T| #[trigger]
            fits(ops, Expr::Ratio(1, 100), wd) && step_fits(
                ops,
                before,
                after,
                params,
                out,
                grads,
                wd,
            )
    } else {
        exists|decayed: Seq<T>, none: T|
            {
                &&& #[trigger] step_fits(ops, before, after, decayed, out, grads, none)
                &&& fits(ops, zero(), none)
                &&& fits_all(ops, group_decayed(modes.wd_layout, wd_scales, params, lr), decayed)
            }
    }
}

/// Moves parameters along the mean gradients of a batch: the gradients are clipped, the
/// head's are lifted where a lift is given, the groups' rates and decay are applied, and the
/// optimiser takes its step.
pub fn optimise<T: Copy, A: Arith<T>>(
    ops: &A,
    params: &mut Vec<T>,
    grads: &mut Vec<T>,
    adam: &mut Adam<T>,
    modes: &GroupModes<T>,
    lr_scales: &mut Vec<T>,
    wd_scales: &Vec<T>,
    lift: Option<(usize, T)>,
    lr: T,
)
    requires
        modes.lr_layout.wf(),
        modes.wd_layout.wf(),
        !(modes.lr_scale is Off) ==> modes.lr_layout.n_layers < old(lr_scales)@.len(),
        !(modes.wd is Off) ==> modes.wd_layout.n_layers < wd_scales@.len(),
        modes.lr_scale is Dynamic && modes.lr_layout.n_layers > 0 ==> (modes.lr_layout.n_layers
            - 1) * modes.lr_layout.block_total <= old(grads)@.len(),
        old(adam).steps() < 0x7fff_ffff,
        old(params)@.len() <= old(grads)@.len(),
        old(params)@.len() <= old(adam).means().len(),
        old(params)@.len() <= old(adam).squares().len(),
    ensures
        exists|ready: Seq<T>|
            {
                &&& #[trigger] prepared(*ops, old(grads)@, lift, ready)
                &&& rates_applied(
                    *ops,
                    *modes,
                    lr,
                    old(lr_scales)@,
                    ready,
                    final(lr_scales)@,
                    final(grads)@,
                )
            },
        stepped(
            *ops,
            *modes,
            lr,
            wd_scales@,
            *old(adam),
            *final(adam),
            old(params)@,
            final(params)@,
            final(grads)@,
        ),
{
    let limit: Traced<T> = Traced::ratio(ops, 1, 1);
    let ghost g0 = grads@;
    let ghost p0 = params@;
    clip_grad_norm(ops, grads, limit.v);
    let ghost clipped = grads@;
    assert(fits_all(*ops, clipped_of(g0, limit.v), clipped));
    match lift {
        Some(l) => {
            lift_head(ops, grads, l.0, l.1);
        },
        None => {},
    }
    let ghost ready = grads@;
    assert(prepared(*ops, g0, lift, ready));
    apply_lr_scale(
        ops,
        &modes.lr_layout,
        &modes.lr_scale,
        lr_scales,
        grads,
        lr,
        modes.spring_k,
    );
    if modes.wd.is_active() {
        let none: Traced<T> = Traced::ratio(ops, 0, 1);
        apply_per_group_wd(ops, &modes.wd_layout, &modes.wd, wd_scales, params, lr);
        let ghost decayed = params@;
        let ghost before = *adam;
        adam.step_wd(ops, params, grads, none.v);
        assert(step_fits(*ops, before, *adam, decayed, params@, grads@, none.v));
        assert(fits_all(*ops, group_decayed(modes.wd_layout, wd_scales@, p0, lr), decayed));
    } else {
        adam.step(ops, params, grads);
    }
}

/// One training step of a model on the gradients of a batch: the parameters are stepped as one
/// flat vector, put back, and then drawn by the springs.
pub open spec fn model_stepped<T: Copy, A: Arith<T>>(
    ops: A,
    modes: GroupModes<T>,
    springs: SpringConfig<T>,
    tied: bool,
    lift: Option<(usize, T)>,
    lr: T,
    top: T,
    before: WavePacketModel<T>,
    after: WavePacketModel<T>,
    adam_before: Adam<T>,
    adam_after: Adam<T>,
    grads_before: Seq<T>,
    grads_after: Seq<T>,
    wd_before: Seq<T>,
    wd_after: Seq<T>,
    headroom_before: Seq<T>,
    headroom_after: Seq<T>,
    ceiling: Option<T>,
    ready: Seq<T>,
    params: Seq<T>,
    updated: WavePacketModel<T>,
) -> bool {
    &&& prepared(ops, grads_before, lift, ready)
    &&& rates_applied(
        ops,
        modes,
        lr,
        before.lr_scale@,
        ready,
        updated.lr_scale@,
        grads_after,
    )
    &&& stepped(
        ops,
        modes,
        lr,
        wd_before,
        adam_before,
        adam_after,
        before.flat(tied),
        params,
        grads_after,
    )
    &&& holds_params(
        ops,
        (WavePacketModel { lr_scale: updated.lr_scale, ..before }),
        params,
        tied,
        updated,
    )
    &&& model_sprung(
        ops,
        springs,
        lr,
        top,
        updated,
        after,
        wd_before,
        wd_after,
        headroom_before,
        headroom_after,
        ceiling,
    )
}

/// One training step of a model: the gradients are clipped, lifted at the head and scaled by
/// group, the optimizer steps all parameters, and the springs draw what is dynamic back. The
/// result is the ceiling of the gain control that the springs leave.
pub fn train_step<T: Copy, A: Arith<T>>(
    ops: &A,
    model: &mut WavePacketModel<T>,
    grads: &mut Vec<T>,
    adam: &mut Adam<T>,
    modes: &GroupModes<T>,
    springs: &SpringConfig<T>,
    wd_scales: &mut Vec<T>,
    agc_headroom: &mut Vec<T>,
    tied: bool,
    lift: Option<(usize, T)>,
    lr: T,
    top: T,
) -> (ceiling: Option<T>)
    requires
        old(model).wf(tied),
        modes.lr_layout.wf(),
        modes.wd_layout.wf(),
        !(modes.lr_scale is Off) ==> modes.lr_layout.n_layers < old(model).lr_scale@.len(),
        !(modes.wd is Off) ==> modes.wd_layout.n_layers < old(wd_scales)@.len(),
        modes.lr_scale is Dynamic && modes.lr_layout.n_layers > 0 ==> (modes.lr_layout.n_layers
            - 1) * modes.lr_layout.block_total <= old(grads)@.len(),
        old(adam).steps() < 0x7fff_ffff,
        old(model).flat(tied).len() <= old(grads)@.len(),
        old(model).flat(tied).len() <= old(adam).means().len(),
        old(model).flat(tied).len() <= old(adam).squares().len(),
        springs.harmonics && may_pull(*ops, springs.spring_k) ==> forall|b: int|
            0 <= b < old(model).blocks@.len() ==> old(model).blocks@[0].attn.heads@.len() <= (
            #[trigger] old(model).blocks@[b]).attn.heads@.len(),
    ensures
        exists|ready: Seq<T>, params: Seq<T>, updated: WavePacketModel<T>|
            #[trigger] model_stepped(
                *ops,
                *modes,
                *springs,
                tied,
                lift,
                lr,
                top,
                *old(model),
                *final(model),
                *old(adam),
                *final(adam),
                old(grads)@,
                final(grads)@,
                old(wd_scales)@,
                final(wd_scales)@,
                old(agc_headroom)@,
                final(agc_headroom)@,
                ceiling,
                ready,
                params,
                updated,
            ),
{
    let ghost before = *model;
    let mut params: Vec<T> = flatten_params_ex(model, tied);
    let mut rates: Vec<T> = Vec::new();
    std::mem::swap(&mut rates, &mut model.lr_scale);
    let ghost grads_before = grads@;
    optimise(ops, &mut params, grads, adam, modes, &mut rates, wd_scales, lift, lr);
    std::mem::swap(&mut rates, &mut model.lr_scale);
    let ghost framed = *model;
    proof {
        assert(framed == (WavePacketModel { lr_scale: framed.lr_scale, ..before }));
        assert(framed.flat(tied) == before.flat(tied));
        assert(framed.wf(tied));
    }
    unflatten_params_ex(ops, model, params.as_slice(), tied);
    let ghost updated = *model;
    proof {
        assert forall|b: int|
            springs.harmonics && may_pull(*ops, springs.spring_k) && 0 <= b < updated.blocks@.len() implies
            updated.blocks@[0].attn.heads@.len() <= (
        #[trigger] updated.blocks@[b]).attn.heads@.len() by {
            assert(updated.blocks@[b].same_frame(&framed.blocks@[b], framed.learnable_ode));
            assert(updated.blocks@[0].same_frame(&framed.blocks@[0], framed.learnable_ode));
            reveal(WaveBlockWeights::same_frame);
            assert(before.blocks@[0].attn.heads@.len() <= before.blocks@[b].attn.heads@.len());
        }
    }
    let ceiling: Option<T> = apply_springs(
        ops,
        model,
        wd_scales,
        agc_headroom,
        springs,
        lr,
        top,
    );
    proof {
        let ready = choose|ready: Seq<T>|
            {
                &&& #[trigger] prepared(*ops, grads_before, lift, ready)
                &&& rates_applied(
                    *ops,
                    *modes,
                    lr,
                    before.lr_scale@,
                    ready,
                    updated.lr_scale@,
                    grads@,
                )
            };
        assert(model_stepped(
            *ops,
            *modes,
            *springs,
            tied,
            lift,
            lr,
            top,
            before,
            *model,
            *old(adam),
            *adam,
            grads_before,
            grads@,
            old(wd_scales)@,
            wd_scales@,
            old(agc_headroom)@,
            agc_headroom@,
            ceiling,
            ready,
            params@,
            updated,
        ));
    }
    ceiling
}

/// A training step leaves what is frozen alone: the embeddings, the frequencies of the bands
/// and, unless the harmonics are dynamic, the attention of every block.
pub proof fn law_step_leaves_frozen_parts<T: Copy, A: Arith<T>>(
    ops: A,
    modes: GroupModes<T>,
    springs: SpringConfig<T>,
    tied: bool,
    lift: Option<(usize, T)>,
    lr: T,
    top: T,
    before: WavePacketModel<T>,
    after: WavePacketModel<T>,
    adams: (Adam<T>, Adam<T>),
    grads: (Seq<T>, Seq<T>),
    wds: (Seq<T>, Seq<T>),
    headrooms: (Seq<T>, Seq<T>),
    ceiling: Option<T>,
    ready: Seq<T>,
    params: Seq<T>,
    updated: WavePacketModel<T>,
)
    requires
        model_stepped(
            ops,
            modes,
            springs,
            tied,
            lift,
            lr,
            top,
            before,
            after,
            adams.0,
            adams.1,
            grads.0,
            grads.1,
            wds.0,
            wds.1,
            headrooms.0,
            headrooms.1,
            ceiling,
            ready,
            params,
            updated,
        ),
    ensures
        after.wte == before.wte,
        after.wpe == before.wpe,
        after.blocks@.len() == before.blocks@.len(),
        forall|b: int|
            0 <= b < before.blocks@.len() ==> (#[trigger] after.blocks@[b]).ffn.kerr.omega
                == before.blocks@[b].ffn.kerr.omega,
        forall|b: int|
            0 <= b < before.blocks@.len() && !springs.harmonics ==> (
            #[trigger] after.blocks@[b]).attn == before.blocks@[b].attn,
{
    assert forall|b: int| 0 <= b < before.blocks@.len() implies (
    #[trigger] after.blocks@[b]).ffn.kerr.omega == before.blocks@[b].ffn.kerr.omega && (
    !springs.harmonics ==> after.blocks@[b].attn == before.blocks@[b].attn) by {
        reveal(WaveBlockWeights::same_frame);
        assert(updated.blocks@[b].same_frame(&before.blocks@[b], updated.learnable_ode));
    }
}

/// How well a table of embeddings tells neighbours apart.
#[derive(Clone, Copy, Debug, PartialEq, Eq, Structural)]
pub enum Separation {
    /// Less than a hundredth.
    Degenerate,
    /// Less than a tenth.
    Close,
    Clear,
}

/// The product of the first embedding with itself, less that with the second one.
pub open spec fn separation_of<T>(wte: Seq<Vec<T>>) -> Expr<T> {
    let own = dot_of(zero(), vals(wte[0]@), vals(wte[0]@));
    minus(
        own,
        if wte.len() > 1 {
            dot_of(zero(), vals(wte[0]@), vals(wte[1]@))
        } else {
            own
        },
    )
}

/// Whether `x` stays below a fraction came out as `c`.
pub open spec fn under<T: Copy, A: Arith<T>>(ops: A, x: T, num: u64, den: u64, c: bool) -> bool {
    exists|limit: T| #[trigger]
        test_is(ops, Test::Exceeds, limit, x, c) && fits(ops, Expr::Ratio(num, den), limit)
}

fn is_under<T: Copy, A: Arith<T>>(ops: &A, x: T, num: u64, den: u64) -> (c: bool)
    ensures
        under(*ops, x, num, den, c),
{
    let limit: Traced<T> = Traced::ratio(ops, num, den);
    let c: bool = holds(ops, Test::Exceeds, limit.v, x);
    assert(test_is(*ops, Test::Exceeds, limit.v, x, c));
    c
}

/// How well the first two embeddings are told apart.
pub fn embedding_separation<T: Copy, A: Arith<T>>(ops: &A, wte: &Vec<Vec<T>>) -> (out: (T, Separation))
    requires
        wte@.len() > 0,
        wte@.len() > 1 ==> wte@[0]@.len() <= wte@[1]@.len(),
    ensures
        fits(*ops, separation_of(wte@), out.0),
        out.1 == Separation::Degenerate ==> under(*ops, out.0, 1, 100, true),
        out.1 == Separation::Close ==> under(*ops, out.0, 1, 100, false) && under(
            *ops,
            out.0,
            1,
            10,
            true,
        ),
        out.1 == Separation::Clear ==> under(*ops, out.0, 1, 100, false) && under(
            *ops,
            out.0,
            1,
            10,
            false,
        ),
{
    let first: TracedVec<T> = traced(ops, &wte[0]);
    let own: Traced<T> = score(ops, &first, &first);
    let next: Traced<T> = if wte.len() > 1 {
        score(ops, &first, &traced(ops, &wte[1]))
    } else {
        own
    };
    let gap: Traced<T> = own.minus(ops, next);
    if is_under(ops, gap.v, 1, 100) {
        (gap.v, Separation::Degenerate)
    } else if is_under(ops, gap.v, 1, 10) {
        (gap.v, Separation::Close)
    } else {
        (gap.v, Separation::Clear)
    }
}

/// How much of the parameters the decoder's table takes.
#[derive(Clone, Copy, Debug, PartialEq, Eq, Structural)]
pub enum Balance {
    /// More than 95 hundredths.
    Dominated,
    /// More than 90 hundredths.
    Heavy,
    Even,
}

/// The share of the decoder's table in hundredths.
pub open spec fn head_percent<T>(head: usize, n_trainable: usize) -> Expr<T> {
    times(over(Expr::Count(head), Expr::Count(n_trainable)), Expr::Ratio(100, 1))
}

/// How much of the parameters the decoder's table takes.
pub fn parameter_balance<T: Copy, A: Arith<T>>(ops: &A, head: usize, n_trainable: usize) -> (out: (
    T,
    Balance,
))
    ensures
        fits(*ops, head_percent(head, n_trainable), out.0),
        out.1 == Balance::Dominated ==> exceeds_ratio(*ops, out.0, 95, 1, true),
        out.1 == Balance::Heavy ==> exceeds_ratio(*ops, out.0, 95, 1, false) && exceeds_ratio(
            *ops,
            out.0,
            90,
            1,
            true,
        ),
        out.1 == Balance::Even ==> exceeds_ratio(*ops, out.0, 95, 1, false) && exceeds_ratio(
            *ops,
            out.0,
            90,
            1,
            false,
        ),
{
    let p: Traced<T> = Traced::count(ops, head).over(ops, Traced::count(ops, n_trainable)).times(
        ops,
        Traced::ratio(ops, 100, 1),
    );
    if over_ratio(ops, p.v, 95, 1) {
        (p.v, Balance::Dominated)
    } else if over_ratio(ops, p.v, 90, 1) {
        (p.v, Balance::Heavy)
    } else {
        (p.v, Balance::Even)
    }
}

/// What the couplings turn a band by at twice the unit magnitude, in degrees.
pub open spec fn phase_shift_of<T>(alpha: T, beta: T) -> Expr<T> {
    let shift = times(
        plus(val(alpha), times(Expr::Ratio(4, 1), val(beta))),
        Expr::Ratio(4, 1),
    );
    over(times(shift, Expr::Ratio(180, 1)), Expr::Pi)
}

/// What the couplings turn a band by, and whether that is chaotic: more than a quarter turn.
pub fn ode_stability<T: Copy, A: Arith<T>>(ops: &A, alpha: T, beta: T) -> (out: (T, bool))
    ensures
        fits(*ops, phase_shift_of(alpha, beta), out.0),
        exceeds_ratio(*ops, out.0, 90, 1, out.1),
{
    let four: Traced<T> = Traced::ratio(ops, 4, 1);
    let shift: Traced<T> = Traced::of(ops, alpha).plus(
        ops,
        four.times(ops, Traced::of(ops, beta)),
    ).times(ops, four);
    let degrees: Traced<T> = shift.times(ops, Traced::ratio(ops, 180, 1)).over(
        ops,
        Traced::pi(ops),
    );
    (degrees.v, over_ratio(ops, degrees.v, 90, 1))
}

/// The magnitude at which the couplings turn a band by a quarter turn.
pub open spec fn ceiling_of<T>(alpha: T, beta: T) -> Expr<T> {
    un(
        Unary::Root,
        over(
            over(Expr::Pi, Expr::Ratio(2, 1)),
            plus(val(alpha), times(Expr::Ratio(4, 1), val(beta))),
        ),
    )
}

/// The magnitude at which the couplings turn a band by a quarter turn, and that magnitude
/// where it is at least a half.
pub fn gain_ceiling<T: Copy, A: Arith<T>>(ops: &A, alpha: T, beta: T) -> (out: (T, T))
    ensures
        fits(*ops, ceiling_of(alpha, beta), out.0),
        fits(*ops, larger(ceiling_of(alpha, beta), Expr::Ratio(1, 2)), out.1),
{
    let four: Traced<T> = Traced::ratio(ops, 4, 1);
    let quarter: Traced<T> = Traced::pi(ops).over(ops, Traced::ratio(ops, 2, 1));
    let c: Traced<T> = quarter.over(
        ops,
        Traced::of(ops, alpha).plus(ops, four.times(ops, Traced::of(ops, beta))),
    ).root(ops);
    (c.v, c.larger(ops, Traced::ratio(ops, 1, 2)).v)
}

/// The tokens that a run trains on: nine tenths of all.
pub fn train_split<T: Copy, A: Arith<T>>(ops: &A, n_tokens: usize) -> (n: usize)
    ensures
        crate::estimates::whole_of(*ops, times(Expr::Count(n_tokens), Expr::Ratio(9, 10)), n),
{
    let x: Traced<T> = Traced::count(ops, n_tokens).times(ops, Traced::ratio(ops, 9, 10));
    let n: usize = ops.whole(x.v);
    assert(call_ensures(A::whole, (ops, x.v), n));
    n
}

/// What is left of an earlier loss.
pub open spec fn remaining_of<T>(loss: T, earlier: T) -> Expr<T> {
    over(val(loss), larger(val(earlier), Expr::Ratio(1, 1000000)))
}

/// The loss that another has to stay below to be the best: the best so far, or the largest number
/// there is.
pub open spec fn best_of<T>(best: Option<T>) -> Expr<T> {
    match best {
        Some(x) => val(x),
        None => un(Unary::Negated, Expr::Lowest),
    }
}

/// Whether a loss is lower than the best one so far.
pub fn improves<T: Copy, A: Arith<T>>(ops: &A, loss: T, best: Option<T>) -> (c: bool)
    ensures
        exists|limit: T| #[trigger]
            test_is(*ops, Test::Exceeds, limit, loss, c) && fits(*ops, best_of(best), limit),
{
    let limit: Traced<T> = match best {
        Some(x) => Traced::of(ops, x),
        None => Traced::lowest(ops).negated(ops),
    };
    let c: bool = holds(ops, Test::Exceeds, limit.v, loss);
    assert(test_is(*ops, Test::Exceeds, limit.v, loss, c));
    c
}

/// Whether a loss hardly fell since an earlier one: more than `percent` hundredths of it are
/// left.
pub fn stalled<T: Copy, A: Arith<T>>(ops: &A, loss: T, earlier: T, percent: u64) -> (c: bool)
    ensures
        exists|left: T| #[trigger]
            exceeds_ratio(*ops, left, percent, 100, c) && fits(
                *ops,
                remaining_of(loss, earlier),
                left,
            ),
{
    let left: Traced<T> = Traced::of(ops, loss).over(
        ops,
        Traced::of(ops, earlier).larger(ops, Traced::ratio(ops, 1, 1000000)),
    );
    let c: bool = over_ratio(ops, left.v, percent, 100);
    assert(exceeds_ratio(*ops, left.v, percent, 100, c));
    c
}

/// The cosines of the first `n` positions with their targets, added up; a position counts
/// where both vectors have a length.
pub open spec fn cosines_of<T>(pred: Seq<Vec<T>>, target: Seq<Vec<T>>, n: int) -> Expr<T>
    decreases n,
{
    if n <= 0 {
        zero()
    } else {
        let sum = cosines_of(pred, target, n - 1);
        let a = vals(pred[n - 1]@);
        let b = vals(target[n - 1]@);
        let floor = Expr::Ratio(1, 100000000);
        pick(
            Test::Exceeds,
            norm_of(a),
            floor,
            pick(
                Test::Exceeds,
                norm_of(b),
                floor,
                plus(sum, over(shared_dot(a, b), times(norm_of(a), norm_of(b)))),
                sum,
            ),
            sum,
        )
    }
}

/// The mean cosine between predictions and targets, as far as there are both.
pub fn mean_cosine<T: Copy, A: Arith<T>>(ops: &A, pred: &Vec<Vec<T>>, target: &Vec<Vec<T>>) -> (out: T)
    ensures
        ({
            let n = crate::wave_analysis::shared_len(pred@, target@);
            fits(
                *ops,
                over(
                    cosines_of(pred@, target@, n),
                    Expr::Count(
                        if n >= 1 {
                            n as usize
                        } else {
                            1
                        },
                    ),
                ),
                out,
            )
        }),
{
    let (lp, lt): (usize, usize) = (pred.len(), target.len());
    let n: usize = if lp <= lt {
        lp
    } else {
        lt
    };
    let floor: Traced<T> = Traced::ratio(ops, 1, 100000000);
    let mut sum: Traced<T> = Traced::ratio(ops, 0, 1);
    let mut i: usize = 0;
    while i < n
        invariant
            n <= pred@.len(),
            n <= target@.len(),
            i <= n,
            floor.ok(*ops),
            floor.e@ == Expr::<T>::Ratio(1, 100000000),
            sum.ok(*ops),
            sum.e@ == cosines_of(pred@, target@, i as int),
        decreases n - i,
    {
        let a: TracedVec<T> = traced(ops, &pred[i]);
        let b: TracedVec<T> = traced(ops, &target[i]);
        let na: Traced<T> = norm_on(ops, &a);
        let nb: Traced<T> = norm_on(ops, &b);
        let c: Traced<T> = shared_dot_on(ops, &a, &b).over(ops, na.times(ops, nb));
        let inner: Traced<T> = pick_on(ops, Test::Exceeds, nb, floor, sum.plus(ops, c), sum);
        sum = pick_on(ops, Test::Exceeds, na, floor, inner, sum);
        i += 1;
    }
    let count: usize = if n >= 1 {
        n
    } else {
        1
    };
    sum.over(ops, Traced::count(ops, count)).v
}

} // verus!
