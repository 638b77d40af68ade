//! What pulls dynamic parameters back to where they belong, and what scales gradients and
//! weight decay group by group.

use vstd::prelude::*;
use crate::arith::{Arith, Test, Traced, TracedVec, build, holds, pick_on};
#[allow(unused_imports)]
use crate::arith::{
    Expr, Unary, entry, fits, fits_all, larger, minus, one, over, pick, plus, test_is, times, un,
    val, vals, zero,
};
use crate::layers::traced;
use crate::loss::norm_on;
#[allow(unused_imports)]
use crate::loss::norm_of;
use crate::param_groups::{GroupLayout, ParamGroup};
use crate::seqs::take;
use crate::train::DynParam;
use crate::wave_model::{WaveAttnWeights, WaveBlockWeights, WavePacketModel};
#[allow(unused_imports)]
use crate::wave_model::WaveAttnHeadWeights;
#[allow(unused_imports)]
use crate::weights::{KerrDualMaestroWeights, KerrWeights};

verus! {

/// `x` moved towards `eq` by a spring of strength `k`.
pub open spec fn sprung<T>(x: Expr<T>, lr: Expr<T>, k: Expr<T>, eq: Expr<T>) -> Expr<T> {
    minus(x, times(times(lr, k), minus(x, eq)))
}

fn sprung_on<T: Copy, A: Arith<T>>(
    ops: &A,
    x: Traced<T>,
    lr: Traced<T>,
    k: Traced<T>,
    eq: Traced<T>,
) -> (out: Traced<T>)
    requires
        x.ok(*ops),
        lr.ok(*ops),
        k.ok(*ops),
        eq.ok(*ops),
    ensures
        out.ok(*ops),
        out.e@ == sprung(x.e@, lr.e@, k.e@, eq.e@),
{
    x.minus(ops, lr.times(ops, k).times(ops, x.minus(ops, eq)))
}

/// `x` kept between two bounds.
pub open spec fn clamped<T>(x: Expr<T>, low: Expr<T>, high: Expr<T>) -> Expr<T> {
    pick(Test::Exceeds, low, x, low, pick(Test::Exceeds, x, high, high, x))
}

/// `x` kept between two bounds, traced.
pub fn clamped_on<T: Copy, A: Arith<T>>(ops: &A, x: Traced<T>, low: Traced<T>, high: Traced<T>) -> (out:
    Traced<T>)
    requires
        x.ok(*ops),
        low.ok(*ops),
        high.ok(*ops),
    ensures
        out.ok(*ops),
        out.e@ == clamped(x.e@, low.e@, high.e@),
{
    let inner: Traced<T> = pick_on(ops, Test::Exceeds, x, high, high, x);
    pick_on(ops, Test::Exceeds, low, x, low, inner)
}

/// `moved` where the springs have a positive strength, else `x`.
pub open spec fn where_sprung<T>(spring_k: T, moved: Expr<T>, x: Expr<T>) -> Expr<T> {
    pick(Test::Exceeds, val(spring_k), zero(), moved, x)
}

fn where_sprung_on<T: Copy, A: Arith<T>>(ops: &A, spring_k: T, moved: Traced<T>, x: Traced<T>) -> (out:
    Traced<T>)
    requires
        moved.ok(*ops),
        x.ok(*ops),
    ensures
        out.ok(*ops),
        out.e@ == where_sprung(spring_k, moved.e@, x.e@),
{
    pick_on(ops, Test::Exceeds, Traced::of(ops, spring_k), Traced::ratio(ops, 0, 1), moved, x)
}

/// The strength of the springs may count as positive.
pub open spec fn may_pull<T: Copy, A: Arith<T>>(ops: A, spring_k: T) -> bool {
    exists|z: T| fits(ops, zero(), z) && #[trigger] test_is(ops, Test::Exceeds, spring_k, z, true)
}

/// Which parameters have springs, how strong the springs are, and what bounds the gain
/// control.
pub struct SpringConfig<T> {
    pub layer_scale: bool,
    pub wd: bool,
    pub rk4_weights: bool,
    pub harmonics: bool,
    pub corrector: bool,
    pub agc_headroom: bool,
    pub freeze_ode: bool,
    pub spring_k: T,
    pub active_layers: Option<usize>,
    pub agc_ceiling: Option<T>,
}

/// A layer's factor: towards one in an active layer and towards zero in the others, and
/// never below zero.
pub open spec fn factor_of<T>(x: T, lr: T, spring_k: T, active: bool) -> Expr<T> {
    let eq = if active {
        one()
    } else {
        zero()
    };
    let moved = sprung(val(x), val(lr), val(spring_k), eq);
    where_sprung(spring_k, pick(Test::Exceeds, zero(), moved, zero(), moved), val(x))
}

/// `x` towards `eq`, between two bounds.
pub open spec fn bounded_of<T>(
    x: T,
    lr: T,
    spring_k: T,
    eq: Expr<T>,
    low: Expr<T>,
    high: Expr<T>,
) -> Expr<T> {
    where_sprung(
        spring_k,
        clamped(sprung(val(x), val(lr), times(val(spring_k), one()), eq), low, high),
        val(x),
    )
}

/// A group's weight decay: towards one, between a hundredth and ten.
pub open spec fn decay_of<T>(x: T, lr: T, spring_k: T) -> Expr<T> {
    bounded_of(x, lr, spring_k, one(), Expr::Ratio(1, 100), Expr::Ratio(10, 1))
}

/// The headroom of the gain control: towards three, between one and six.
pub open spec fn headroom_of<T>(x: T, lr: T, spring_k: T) -> Expr<T> {
    bounded_of(x, lr, spring_k, Expr::Ratio(3, 1), one(), Expr::Ratio(6, 1))
}

/// The classical weight of slope `w` of an integration step.
pub open spec fn classical_weight<T>(w: int) -> Expr<T> {
    if w == 0 || w == 3 {
        over(one(), Expr::Ratio(6, 1))
    } else {
        over(one(), Expr::Ratio(3, 1))
    }
}

/// The weight of a slope: towards the classical one, by a spring twice as strong.
pub open spec fn slope_weight_of<T>(x: T, lr: T, spring_k: T, w: int) -> Expr<T> {
    where_sprung(
        spring_k,
        sprung(
            val(x),
            val(lr),
            times(val(spring_k), Expr::Ratio(2, 1)),
            classical_weight(w),
        ),
        val(x),
    )
}

/// The harmonic that head `h` starts from.
pub open spec fn rest_harmonic<T>(h: int) -> Expr<T> {
    un(Unary::Ln, times(Expr::Count((h + 1) as usize), Expr::Ratio(1, 2)))
}

/// A head's harmonic: towards where it started, by a spring twice as strong.
pub open spec fn harmonic_of<T>(x: T, lr: T, spring_k: T, h: int) -> Expr<T> {
    where_sprung(
        spring_k,
        sprung(
            val(x),
            val(lr),
            times(val(spring_k), Expr::Ratio(2, 1)),
            rest_harmonic(h),
        ),
        val(x),
    )
}

/// A band's phase correction: towards zero, by a spring of a hundredth of the strength.
pub open spec fn correction_of<T>(x: T, lr: T, spring_k: T) -> Expr<T> {
    where_sprung(
        spring_k,
        minus(
            val(x),
            times(times(val(lr), times(val(spring_k), Expr::Ratio(1, 100))), val(x)),
        ),
        val(x),
    )
}

/// Every entry of a vector under its spring.
pub open spec fn each<T>(xs: Seq<T>, f: spec_fn(T, int) -> Expr<T>) -> Seq<Expr<T>> {
    Seq::new(xs.len(), |i: int| f(xs[i], i))
}

/// Pulls the layers' factors: the first `active` ones towards one, the rest towards zero.
fn spring_factors<T: Copy, A: Arith<T>>(
    ops: &A,
    xs: &mut Vec<T>,
    lr: T,
    spring_k: T,
    active: usize,
)
    ensures
        fits_all(
            *ops,
            each(old(xs)@, |x: T, l: int| factor_of(x, lr, spring_k, l < active)),
            final(xs)@,
        ),
{
    let n: usize = xs.len();
    let old_xs: &Vec<T> = xs;
    let f = |i: usize| -> (r: Traced<T>)
        requires
            i < n,
        ensures
            r.ok(*ops),
            r.e@ == entry(
                each(old_xs@, |x: T, l: int| factor_of(x, lr, spring_k, l < active)),
                i,
            ),
    {
        let x: Traced<T> = Traced::of(ops, old_xs[i]);
        let nought: Traced<T> = Traced::ratio(ops, 0, 1);
        let eq: Traced<T> = if i < active {
            Traced::ratio(ops, 1, 1)
        } else {
            nought
        };
        let moved: Traced<T> = sprung_on(
            ops,
            x,
            Traced::of(ops, lr),
            Traced::of(ops, spring_k),
            eq,
        );
        let floored: Traced<T> = pick_on(ops, Test::Exceeds, nought, moved, nought, moved);
        where_sprung_on(ops, spring_k, floored, x)
    };
    let ghost want = each(xs@, |x: T, l: int| factor_of(x, lr, spring_k, l < active));
    let out: TracedVec<T> = build(ops, n, Ghost(want), f);
    *xs = out.v;
}

/// Pulls the entries of a vector towards `eq`, between two bounds.
fn spring_bounded<T: Copy, A: Arith<T>>(
    ops: &A,
    xs: &mut Vec<T>,
    lr: T,
    spring_k: T,
    eq: Traced<T>,
    low: Traced<T>,
    high: Traced<T>,
)
    requires
        eq.ok(*ops),
        low.ok(*ops),
        high.ok(*ops),
    ensures
        fits_all(
            *ops,
            each(
                old(xs)@,
                |x: T, i: int| bounded_of(x, lr, spring_k, eq.e@, low.e@, high.e@),
            ),
            final(xs)@,
        ),
{
    let n: usize = xs.len();
    let old_xs: &Vec<T> = xs;
    let f = |i: usize| -> (r: Traced<T>)
        requires
            i < n,
        ensures
            r.ok(*ops),
            r.e@ == entry(
                each(
                    old_xs@,
                    |x: T, i: int| bounded_of(x, lr, spring_k, eq.e@, low.e@, high.e@),
                ),
                i,
            ),
    {
        let x: Traced<T> = Traced::of(ops, old_xs[i]);
        let k: Traced<T> = Traced::of(ops, spring_k).times(ops, Traced::ratio(ops, 1, 1));
        let moved: Traced<T> = sprung_on(ops, x, Traced::of(ops, lr), k, eq);
        where_sprung_on(ops, spring_k, clamped_on(ops, moved, low, high), x)
    };
    let ghost want = each(
        xs@,
        |x: T, i: int| bounded_of(x, lr, spring_k, eq.e@, low.e@, high.e@),
    );
    let out: TracedVec<T> = build(ops, n, Ghost(want), f);
    *xs = out.v;
}

/// Pulls the weights of the four slopes.
fn spring_slopes<T: Copy, A: Arith<T>>(ops: &A, xs: [T; 4], lr: T, spring_k: T) -> (out: [T; 4])
    ensures
        forall|w: int|
            0 <= w < 4 ==> fits(
                *ops,
                slope_weight_of(xs@[w], lr, spring_k, w),
                #[trigger] out@[w],
            ),
{
    let k: Traced<T> = Traced::of(ops, spring_k).times(ops, Traced::ratio(ops, 2, 1));
    let rate: Traced<T> = Traced::of(ops, lr);
    let unit: Traced<T> = Traced::ratio(ops, 1, 1);
    let sixth: Traced<T> = unit.over(ops, Traced::ratio(ops, 6, 1));
    let third: Traced<T> = unit.over(ops, Traced::ratio(ops, 3, 1));
    let a: Traced<T> = Traced::of(ops, xs[0]);
    let b: Traced<T> = Traced::of(ops, xs[1]);
    let c: Traced<T> = Traced::of(ops, xs[2]);
    let d: Traced<T> = Traced::of(ops, xs[3]);
    let a: Traced<T> = where_sprung_on(ops, spring_k, sprung_on(ops, a, rate, k, sixth), a);
    let b: Traced<T> = where_sprung_on(ops, spring_k, sprung_on(ops, b, rate, k, third), b);
    let c: Traced<T> = where_sprung_on(ops, spring_k, sprung_on(ops, c, rate, k, third), c);
    let d: Traced<T> = where_sprung_on(ops, spring_k, sprung_on(ops, d, rate, k, sixth), d);
    [a.v, b.v, c.v, d.v]
}

/// Pulls the phase corrections of a layer.
fn spring_corrections<T: Copy, A: Arith<T>>(ops: &A, xs: &mut Vec<T>, lr: T, spring_k: T)
    ensures
        fits_all(
            *ops,
            each(old(xs)@, |x: T, i: int| correction_of(x, lr, spring_k)),
            final(xs)@,
        ),
{
    let n: usize = xs.len();
    let old_xs: &Vec<T> = xs;
    let f = |i: usize| -> (r: Traced<T>)
        requires
            i < n,
        ensures
            r.ok(*ops),
            r.e@ == entry(each(old_xs@, |x: T, i: int| correction_of(x, lr, spring_k)), i),
    {
        let x: Traced<T> = Traced::of(ops, old_xs[i]);
        let k: Traced<T> = Traced::of(ops, spring_k).times(ops, Traced::ratio(ops, 1, 100));
        let moved: Traced<T> = x.minus(ops, Traced::of(ops, lr).times(ops, k).times(ops, x));
        where_sprung_on(ops, spring_k, moved, x)
    };
    let ghost want = each(xs@, |x: T, i: int| correction_of(x, lr, spring_k));
    let out: TracedVec<T> = build(ops, n, Ghost(want), f);
    *xs = out.v;
}

/// The first `n` heads have their harmonics pulled; nothing else of the heads changes.
pub open spec fn heads_sprung<T: Copy, A: Arith<T>>(
    ops: A,
    before: Seq<WaveAttnHeadWeights<T>>,
    after: Seq<WaveAttnHeadWeights<T>>,
    lr: T,
    spring_k: T,
    n: int,
) -> bool {
    &&& after.len() == before.len()
    &&& forall|h: int|
        #![trigger after[h]]
        0 <= h < after.len() ==> {
            &&& after[h] == (WaveAttnHeadWeights {
                harmonic_raw: after[h].harmonic_raw,
                ..before[h]
            })
            &&& if h < n {
                fits(
                    ops,
                    harmonic_of(before[h].harmonic_raw, lr, spring_k, h),
                    after[h].harmonic_raw,
                )
            } else {
                after[h].harmonic_raw == before[h].harmonic_raw
            }
        }
}

/// Pulls the harmonics of the first `n` heads, where the springs have a positive strength.
fn spring_heads<T: Copy, A: Arith<T>>(
    ops: &A,
    attn: &mut WaveAttnWeights<T>,
    lr: T,
    spring_k: T,
    n: usize,
)
    requires
        may_pull(*ops, spring_k) ==> n <= old(attn).heads@.len(),
    ensures
        heads_sprung(*ops, old(attn).heads@, final(attn).heads@, lr, spring_k, n as int),
        final(attn).out_proj_w == old(attn).out_proj_w,
        final(attn).out_proj_b == old(attn).out_proj_b,
{
    let nought: T = ops.ratio(0, 1);
    let pulls: bool = holds(ops, Test::Exceeds, spring_k, nought);
    assert(fits(*ops, zero(), nought));
    if !pulls {
        assert forall|h: int| 0 <= h < n && h < attn.heads@.len() implies fits(
            *ops,
            harmonic_of(attn.heads@[h].harmonic_raw, lr, spring_k, h),
            #[trigger] attn.heads@[h].harmonic_raw,
        ) by {
            let x = attn.heads@[h].harmonic_raw;
            assert(fits(*ops, val(spring_k), spring_k) && fits(*ops, val(x), x));
            assert(test_is(*ops, Test::Exceeds, spring_k, nought, false));
        }
        return;
    }
    assert(test_is(*ops, Test::Exceeds, spring_k, nought, true));
    let k: Traced<T> = Traced::of(ops, spring_k).times(ops, Traced::ratio(ops, 2, 1));
    let rate: Traced<T> = Traced::of(ops, lr);
    let half: Traced<T> = Traced::ratio(ops, 1, 2);
    let ghost before = attn.heads@;
    let mut h: usize = 0;
    while h < n
        invariant
            n <= attn.heads@.len(),
            k.ok(*ops),
            k.e@ == times(val(spring_k), Expr::Ratio(2, 1)),
            rate.ok(*ops),
            rate.e@ == val(lr),
            half.ok(*ops),
            half.e@ == Expr::<T>::Ratio(1, 2),
            attn.out_proj_w == old(attn).out_proj_w,
            attn.out_proj_b == old(attn).out_proj_b,
            h <= n,
            heads_sprung(*ops, before, attn.heads@, lr, spring_k, h as int),
        decreases n - h,
    {
        assert(attn.heads@[h as int].harmonic_raw == before[h as int].harmonic_raw);
        let x: Traced<T> = Traced::of(ops, attn.heads[h].harmonic_raw);
        let eq: Traced<T> = Traced::count(ops, h + 1).times(ops, half).ln(ops);
        let moved: Traced<T> = where_sprung_on(ops, spring_k, sprung_on(ops, x, rate, k, eq), x);
        let ghost held = attn.heads@;
        attn.heads[h].harmonic_raw = moved.v;
        assert forall|i: int| 0 <= i < held.len() && i != h implies #[trigger] attn.heads@[i]
            == held[i] by {}
        h += 1;
    }
}

/// What the springs make of a block: the weights of the slopes, the harmonics of the first
/// `n_head` heads and the phase corrections, each where it has a spring; nothing else.
pub open spec fn block_sprung<T: Copy, A: Arith<T>>(
    ops: A,
    before: WaveBlockWeights<T>,
    after: WaveBlockWeights<T>,
    c: SpringConfig<T>,
    lr: T,
    n_head: int,
) -> bool {
    let (a, b) = (before.ffn.kerr, after.ffn.kerr);
    &&& after.ln == before.ln
    &&& after.ln_ffn == before.ln_ffn
    &&& after.ffn == (KerrDualMaestroWeights { kerr: after.ffn.kerr, ..before.ffn })
    &&& b == (KerrWeights {
        rk4_weights: b.rk4_weights,
        phase_correction: b.phase_correction,
        ..a
    })
    &&& if c.rk4_weights {
        forall|w: int|
            0 <= w < 4 ==> fits(
                ops,
                slope_weight_of(a.rk4_weights@[w], lr, c.spring_k, w),
                #[trigger] b.rk4_weights@[w],
            )
    } else {
        b.rk4_weights == a.rk4_weights
    }
    &&& if c.corrector {
        fits_all(
            ops,
            each(a.phase_correction@, |x: T, i: int| correction_of(x, lr, c.spring_k)),
            b.phase_correction@,
        )
    } else {
        b.phase_correction == a.phase_correction
    }
    &&& if c.harmonics {
        &&& heads_sprung(ops, before.attn.heads@, after.attn.heads@, lr, c.spring_k, n_head)
        &&& after.attn.out_proj_w == before.attn.out_proj_w
        &&& after.attn.out_proj_b == before.attn.out_proj_b
    } else {
        after.attn == before.attn
    }
}

fn spring_block<T: Copy, A: Arith<T>>(
    ops: &A,
    block: &mut WaveBlockWeights<T>,
    c: &SpringConfig<T>,
    lr: T,
    n_head: usize,
)
    requires
        c.harmonics && may_pull(*ops, c.spring_k) ==> n_head <= old(block).attn.heads@.len(),
    ensures
        block_sprung(*ops, *old(block), *final(block), *c, lr, n_head as int),
{
    if c.rk4_weights {
        let slopes: [T; 4] = spring_slopes(ops, block.ffn.kerr.rk4_weights, lr, c.spring_k);
        block.ffn.kerr.rk4_weights = slopes;
    }
    if c.harmonics {
        spring_heads(ops, &mut block.attn, lr, c.spring_k, n_head);
    }
    if c.corrector {
        spring_corrections(ops, &mut block.ffn.kerr.phase_correction, lr, c.spring_k);
    }
}

/// The ceiling of a layer's gain: no less than a half.
pub open spec fn ceiling_of<T>(alpha: T, beta: T) -> Expr<T> {
    larger(
        un(
            Unary::Root,
            over(
                over(Expr::Pi, Expr::Ratio(2, 1)),
                plus(val(alpha), times(Expr::Ratio(4, 1), val(beta))),
            ),
        ),
        Expr::Ratio(1, 2),
    )
}

/// The lowest ceiling of the first `n` layers, no more than `top`.
pub open spec fn lowest_ceiling<T>(blocks: Seq<WaveBlockWeights<T>>, top: T, n: int) -> Expr<T>
    decreases n,
{
    if n <= 0 {
        val(top)
    } else {
        let c = ceiling_of(blocks[n - 1].ffn.kerr.alpha, blocks[n - 1].ffn.kerr.beta);
        let rest = lowest_ceiling(blocks, top, n - 1);
        pick(Test::Exceeds, rest, c, c, rest)
    }
}

/// The ceiling that the gain control gets: the lowest of the layers', and no more than the
/// one that is set.
pub open spec fn effective_ceiling<T>(
    blocks: Seq<WaveBlockWeights<T>>,
    top: T,
    set: Option<T>,
) -> Expr<T> {
    let low = lowest_ceiling(blocks, top, blocks.len() as int);
    match set {
        Some(cli) => pick(Test::Exceeds, low, val(cli), val(cli), low),
        None => low,
    }
}

fn effective_ceiling_on<T: Copy, A: Arith<T>>(
    ops: &A,
    blocks: &Vec<WaveBlockWeights<T>>,
    top: T,
    set: Option<T>,
) -> (out: T)
    ensures
        fits(*ops, effective_ceiling(blocks@, top, set), out),
{
    let n: usize = blocks.len();
    let half_turn: Traced<T> = Traced::pi(ops).over(ops, Traced::ratio(ops, 2, 1));
    let four: Traced<T> = Traced::ratio(ops, 4, 1);
    let least: Traced<T> = Traced::ratio(ops, 1, 2);
    let mut low: Traced<T> = Traced::of(ops, top);
    let mut i: usize = 0;
    while i < n
        invariant
            n == blocks@.len(),
            half_turn.ok(*ops),
            half_turn.e@ == over(Expr::<T>::Pi, Expr::Ratio(2, 1)),
            four.ok(*ops),
            four.e@ == Expr::<T>::Ratio(4, 1),
            least.ok(*ops),
            least.e@ == Expr::<T>::Ratio(1, 2),
            i <= n,
            low.ok(*ops),
            low.e@ == lowest_ceiling(blocks@, top, i as int),
        decreases n - i,
    {
        let a: Traced<T> = Traced::of(ops, blocks[i].ffn.kerr.alpha);
        let b: Traced<T> = Traced::of(ops, blocks[i].ffn.kerr.beta);
        let c: Traced<T> = half_turn.over(ops, a.plus(ops, four.times(ops, b))).root(ops).larger(
            ops,
            least,
        );
        low = pick_on(ops, Test::Exceeds, low, c, c, low);
        i += 1;
    }
    match set {
        Some(cli) => {
            let cli: Traced<T> = Traced::of(ops, cli);
            pick_on(ops, Test::Exceeds, low, cli, cli, low).v
        },
        None => low.v,
    }
}

/// Number of layers whose factors are pulled towards one.
pub open spec fn active_count<T>(c: SpringConfig<T>, n_layers: int) -> int {
    match c.active_layers {
        Some(n) => n as int,
        None => n_layers,
    }
}

/// What the springs do to a model, to the decay of its groups and to the headroom of its
/// layers, and the ceiling that they leave.
pub open spec fn model_sprung<T: Copy, A: Arith<T>>(
    ops: A,
    c: SpringConfig<T>,
    lr: T,
    top: T,
    before: WavePacketModel<T>,
    after: WavePacketModel<T>,
    wd_scale_before: Seq<T>,
    wd_scale_after: Seq<T>,
    agc_headroom_before: Seq<T>,
    agc_headroom_after: Seq<T>,
    ceiling: Option<T>,
) -> bool {
    &&& if c.layer_scale {
        fits_all(
            ops,
            each(
                before.layer_scale@,
                |x: T, l: int|
                    factor_of(
                        x,
                        lr,
                        c.spring_k,
                        l < active_count(c, before.blocks@.len() as int),
                    ),
            ),
            after.layer_scale@,
        )
    } else {
        after.layer_scale == before.layer_scale
    }
    &&& if c.wd {
        fits_all(
            ops,
            each(wd_scale_before, |x: T, i: int| decay_of(x, lr, c.spring_k)),
            wd_scale_after,
        )
    } else {
        wd_scale_after == wd_scale_before
    }
    &&& if c.agc_headroom {
        fits_all(
            ops,
            each(agc_headroom_before, |x: T, i: int| headroom_of(x, lr, c.spring_k)),
            agc_headroom_after,
        )
    } else {
        agc_headroom_after == agc_headroom_before
    }
    &&& after.blocks@.len() == before.blocks@.len()
    &&& forall|b: int|
        0 <= b < before.blocks@.len() ==> block_sprung(
            ops,
            before.blocks@[b],
            #[trigger] after.blocks@[b],
            c,
            lr,
            before.blocks@[0].attn.heads@.len() as int,
        )
    &&& after == (WavePacketModel {
        layer_scale: after.layer_scale,
        blocks: after.blocks,
        ..before
    })
    &&& ceiling is Some <==> !c.freeze_ode
    &&& ceiling matches Some(v) ==> fits(
        ops,
        effective_ceiling(before.blocks@, top, c.agc_ceiling),
        v,
    )
}

/// Applies every spring that is set, and gives the ceiling of the gain control where the ODE
/// is trained. `top` is the largest number.
pub fn apply_springs<T: Copy, A: Arith<T>>(
    ops: &A,
    model: &mut WavePacketModel<T>,
    wd_scale: &mut Vec<T>,
    agc_headroom: &mut Vec<T>,
    c: &SpringConfig<T>,
    lr: T,
    top: T,
) -> (ceiling: Option<T>)
    requires
        c.harmonics && may_pull(*ops, c.spring_k) ==> old(model).blocks@.len() > 0 && forall|b: int|
            0 <= b < old(model).blocks@.len() ==> old(model).blocks@[0].attn.heads@.len() <= (
            #[trigger] old(model).blocks@[b]).attn.heads@.len(),
    ensures
        model_sprung(
            *ops,
            *c,
            lr,
            top,
            *old(model),
            *final(model),
            old(wd_scale)@,
            final(wd_scale)@,
            old(agc_headroom)@,
            final(agc_headroom)@,
            ceiling,
        ),
{
    let ghost m0 = *model;
    let n: usize = model.blocks.len();
    if c.layer_scale {
        let active: usize = match c.active_layers {
            Some(k) => k,
            None => n,
        };
        spring_factors(ops, &mut model.layer_scale, lr, c.spring_k, active);
        proof {
            let f = |x: T, l: int| factor_of(x, lr, c.spring_k, l < active);
            let g = |x: T, l: int|
                factor_of(x, lr, c.spring_k, l < active_count(*c, m0.blocks@.len() as int));
            assert(each(m0.layer_scale@, f) =~= each(m0.layer_scale@, g));
        }
    }
    if c.wd {
        spring_bounded(
            ops,
            wd_scale,
            lr,
            c.spring_k,
            Traced::ratio(ops, 1, 1),
            Traced::ratio(ops, 1, 100),
            Traced::ratio(ops, 10, 1),
        );
        proof {
            let f = |x: T, i: int|
                bounded_of(x, lr, c.spring_k, one(), Expr::Ratio(1, 100), Expr::Ratio(10, 1));
            let g = |x: T, i: int| decay_of(x, lr, c.spring_k);
            assert(each(old(wd_scale)@, f) =~= each(old(wd_scale)@, g));
        }
    }
    if c.agc_headroom {
        spring_bounded(
            ops,
            agc_headroom,
            lr,
            c.spring_k,
            Traced::ratio(ops, 3, 1),
            Traced::ratio(ops, 1, 1),
            Traced::ratio(ops, 6, 1),
        );
        proof {
            let f = |x: T, i: int|
                bounded_of(x, lr, c.spring_k, Expr::Ratio(3, 1), one(), Expr::Ratio(6, 1));
            let g = |x: T, i: int| headroom_of(x, lr, c.spring_k);
            assert(each(old(agc_headroom)@, f) =~= each(old(agc_headroom)@, g));
        }
    }
    let n_head: usize = if n > 0 {
        model.blocks[0].attn.heads.len()
    } else {
        0
    };
    let ghost blocks0 = model.blocks@;
    let ghost mid = *model;
    let mut b: usize = 0;
    while b < n
        invariant
            n == blocks0.len(),
            model.blocks@.len() == n,
            n > 0 ==> n_head == blocks0[0].attn.heads@.len(),
            c.harmonics && may_pull(*ops, c.spring_k) ==> forall|k: int|
                0 <= k < n ==> n_head <= (#[trigger] blocks0[k]).attn.heads@.len(),
            *model == (WavePacketModel { blocks: model.blocks, ..mid }),
            b <= n,
            forall|k: int|
                0 <= k < b ==> block_sprung(
                    *ops,
                    blocks0[k],
                    #[trigger] model.blocks@[k],
                    *c,
                    lr,
                    n_head as int,
                ),
            forall|k: int| b <= k < n ==> #[trigger] model.blocks@[k] == blocks0[k],
        decreases n - b,
    {
        assert(model.blocks@[b as int] == blocks0[b as int]);
        let ghost held = model.blocks@;
        spring_block(ops, &mut model.blocks[b], c, lr, n_head);
        assert forall|k: int| 0 <= k < n && k != b implies #[trigger] model.blocks@[k]
            == held[k] by {}
        b += 1;
    }
    if c.freeze_ode {
        None
    } else {
        let low: T = effective_ceiling_on(ops, &model.blocks, top, c.agc_ceiling);
        proof {
            lemma_same_ceiling(blocks0, model.blocks@, top, n as int, *ops, *c, lr, n_head as int);
        }
        Some(low)
    }
}

/// The springs leave the coupling constants alone, and with them the ceilings.
proof fn lemma_same_ceiling<T: Copy, A: Arith<T>>(
    before: Seq<WaveBlockWeights<T>>,
    after: Seq<WaveBlockWeights<T>>,
    top: T,
    n: int,
    ops: A,
    c: SpringConfig<T>,
    lr: T,
    n_head: int,
)
    requires
        0 <= n <= before.len(),
        before.len() == after.len(),
        forall|k: int|
            0 <= k < before.len() ==> block_sprung(
                ops,
                before[k],
                #[trigger] after[k],
                c,
                lr,
                n_head,
            ),
    ensures
        lowest_ceiling(after, top, n) == lowest_ceiling(before, top, n),
    decreases n,
{
    if n > 0 {
        lemma_same_ceiling(before, after, top, n - 1, ops, c, lr, n_head);
        assert(block_sprung(ops, before[n - 1], after[n - 1], c, lr, n_head));
    }
}

/// The scale of a parameter's group: its layer's, the head's, or none.
pub open spec fn group_scale<T>(layout: GroupLayout, scales: Seq<T>, i: int) -> Option<T> {
    match layout.spec_group_at(i) {
        ParamGroup::Layer(l) => Some(scales[l as int]),
        ParamGroup::Head => Some(scales[layout.n_layers as int]),
        ParamGroup::Shared => None,
    }
}

/// The scale of a parameter's group.
fn group_scale_at<T: Copy>(layout: &GroupLayout, scales: &Vec<T>, i: usize) -> (out: Option<T>)
    requires
        layout.wf(),
        layout.n_layers < scales@.len(),
    ensures
        out == group_scale(*layout, scales@, i as int),
{
    match layout.group_at(i) {
        ParamGroup::Layer(l) => {
            proof {
                crate::param_groups::lemma_layer_in_range(*layout, i as int);
            }
            Some(scales[l])
        },
        ParamGroup::Head => Some(scales[layout.n_layers]),
        ParamGroup::Shared => None,
    }
}

/// Gradients scaled group by group.
pub open spec fn grads_scaled<T>(
    layout: GroupLayout,
    scales: Seq<T>,
    grads: Seq<T>,
) -> Seq<Expr<T>> {
    Seq::new(
        grads.len(),
        |i: int|
            match group_scale(layout, scales, i) {
                Some(s) => times(val(grads[i]), val(s)),
                None => val(grads[i]),
            },
    )
}

/// A scale pulled towards one by a spring of half the strength, between a tenth and five.
pub open spec fn rate_scale_of<T>(s: T, lr: T, spring_k: T) -> Expr<T> {
    clamped(
        sprung(val(s), val(lr), times(val(spring_k), Expr::Ratio(1, 2)), one()),
        Expr::Ratio(1, 10),
        Expr::Ratio(5, 1),
    )
}

/// The mean length of a group's gradients.
pub open spec fn mean_length<T>(grads: Seq<T>, n_layers: usize) -> Expr<T> {
    over(norm_of(vals(grads)), plus(Expr::Count(n_layers), one()))
}

/// First index of layer `l`, cut off at the number of gradients.
pub open spec fn layer_grads<T>(layout: GroupLayout, grads: Seq<T>, l: int) -> Seq<T> {
    let end = if (l + 1) * layout.block_total <= grads.len() {
        (l + 1) * layout.block_total
    } else {
        grads.len() as int
    };
    grads.subrange(l * layout.block_total, end)
}

/// The scale of layer `l`, raised where its gradients are longer than the mean and lowered
/// where they are shorter, unless there are hardly any gradients.
pub open spec fn nudged_of<T>(
    s: Expr<T>,
    lr: T,
    layout: GroupLayout,
    grads: Seq<T>,
    l: int,
) -> Expr<T> {
    let avg = mean_length(grads, layout.n_layers);
    let gn = norm_of(vals(layer_grads(layout, grads, l)));
    pick(
        Test::Exceeds,
        avg,
        Expr::Ratio(1, 1000),
        clamped(
            plus(
                s,
                times(
                    times(val(lr), Expr::Ratio(1, 100)),
                    minus(over(gn, avg), one()),
                ),
            ),
            Expr::Ratio(1, 10),
            Expr::Ratio(5, 1),
        ),
        s,
    )
}

/// The scales after a step: pulled towards one, those of the layers then nudged.
pub open spec fn rate_scales_of<T>(
    scales: Seq<T>,
    lr: T,
    spring_k: T,
    layout: GroupLayout,
    grads: Seq<T>,
) -> Seq<Expr<T>> {
    Seq::new(
        scales.len(),
        |l: int|
            if l < layout.n_layers {
                nudged_of(rate_scale_of(scales[l], lr, spring_k), lr, layout, grads, l)
            } else {
                rate_scale_of(scales[l], lr, spring_k)
            },
    )
}

/// Scales gradients group by group, where scales are in use. Scales that are learned then
/// move: towards one, and towards the layers with the longer gradients.
pub fn apply_lr_scale<T: Copy, A: Arith<T>>(
    ops: &A,
    layout: &GroupLayout,
    mode: &DynParam<T>,
    scales: &mut Vec<T>,
    grads: &mut Vec<T>,
    lr: T,
    spring_k: T,
)
    requires
        layout.wf(),
        !(*mode is Off) ==> layout.n_layers < old(scales)@.len(),
        *mode is Dynamic && layout.n_layers > 0 ==> (layout.n_layers - 1) * layout.block_total
            <= old(grads)@.len(),
    ensures
        *mode is Off ==> final(grads)@ == old(grads)@ && final(scales)@ == old(scales)@,
        !(*mode is Off) ==> fits_all(
            *ops,
            grads_scaled(*layout, old(scales)@, old(grads)@),
            final(grads)@,
        ),
        *mode is Fixed ==> final(scales)@ == old(scales)@,
        *mode is Dynamic ==> fits_all(
            *ops,
            rate_scales_of(old(scales)@, lr, spring_k, *layout, final(grads)@),
            final(scales)@,
        ),
{
    if !mode.is_active() {
        return;
    }
    let n: usize = grads.len();
    let ghost g0 = grads@;
    let ghost s0 = scales@;
    {
        let gs: &Vec<T> = grads;
        let ss: &Vec<T> = scales;
        let f = |i: usize| -> (r: Traced<T>)
            requires
                i < n,
            ensures
                r.ok(*ops),
                r.e@ == entry(grads_scaled(*layout, ss@, gs@), i),
        {
            let g: Traced<T> = Traced::of(ops, gs[i]);
            match group_scale_at(layout, ss, i) {
                Some(s) => g.times(ops, Traced::of(ops, s)),
                None => g,
            }
        };
        let out: TracedVec<T> = build(ops, n, Ghost(grads_scaled(*layout, s0, g0)), f);
        *grads = out.v;
    }
    if !mode.is_dynamic() {
        return;
    }
    let m: usize = scales.len();
    let low: Traced<T> = Traced::ratio(ops, 1, 10);
    let high: Traced<T> = Traced::ratio(ops, 5, 1);
    let unit: Traced<T> = Traced::ratio(ops, 1, 1);
    let rate: Traced<T> = Traced::of(ops, lr);
    let k: Traced<T> = Traced::of(ops, spring_k).times(ops, Traced::ratio(ops, 1, 2));
    let all: TracedVec<T> = traced(ops, grads);
    let avg: Traced<T> = norm_on(ops, &all).over(
        ops,
        Traced::count(ops, layout.n_layers).plus(ops, unit),
    );
    let few: Traced<T> = Traced::ratio(ops, 1, 1000);
    let step: Traced<T> = rate.times(ops, Traced::ratio(ops, 1, 100));
    let gs: &Vec<T> = grads;
    let ss: &Vec<T> = scales;
    let f = |l: usize| -> (r: Traced<T>)
        requires
            l < m,
        ensures
            r.ok(*ops),
            r.e@ == entry(rate_scales_of(ss@, lr, spring_k, *layout, gs@), l),
    {
        let s: Traced<T> = clamped_on(
            ops,
            sprung_on(ops, Traced::of(ops, ss[l]), rate, k, unit),
            low,
            high,
        );
        if l < layout.n_layers {
            proof {
                lemma_layer_fits(*layout, gs@.len() as int, l as int);
            }
            let (start, end) = layout.layer_range(l, n);
            let part: Vec<T> = take(gs, start, end - start);
            let gn: Traced<T> = norm_on(ops, &traced(ops, &part));
            assert(part@ =~= layer_grads(*layout, gs@, l as int));
            let more: Traced<T> = s.plus(ops, step.times(ops, gn.over(ops, avg).minus(ops, unit)));
            pick_on(ops, Test::Exceeds, avg, few, clamped_on(ops, more, low, high), s)
        } else {
            s
        }
    };
    let out: TracedVec<T> = build(
        ops,
        m,
        Ghost(rate_scales_of(s0, lr, spring_k, *layout, grads@)),
        f,
    );
    *scales = out.v;
}

proof fn lemma_layer_fits(layout: GroupLayout, len: int, l: int)
    requires
        (layout.n_layers - 1) * layout.block_total <= len,
        0 <= l < layout.n_layers,
    ensures
        0 <= l * layout.block_total <= len,
        l * layout.block_total <= (l + 1) * layout.block_total,
{
    let t = layout.block_total as int;
    let n = layout.n_layers as int;
    assert(0 <= l * t <= (n - 1) * t && l * t <= (l + 1) * t) by (nonlinear_arith)
        requires
            0 <= l <= n - 1,
            t >= 0,
    ;
}

/// Parameters after the weight decay of their groups: a hundredth, times the group's scale.
pub open spec fn group_decayed<T>(
    layout: GroupLayout,
    scales: Seq<T>,
    params: Seq<T>,
    lr: T,
) -> Seq<Expr<T>> {
    Seq::new(
        params.len(),
        |i: int|
            match group_scale(layout, scales, i) {
                Some(s) => minus(
                    val(params[i]),
                    times(times(val(lr), times(Expr::Ratio(1, 100), val(s))), val(params[i])),
                ),
                None => val(params[i]),
            },
    )
}

/// Applies the weight decay of every group, where scales of the decay are in use.
pub fn apply_per_group_wd<T: Copy, A: Arith<T>>(
    ops: &A,
    layout: &GroupLayout,
    mode: &DynParam<T>,
    scales: &Vec<T>,
    params: &mut Vec<T>,
    lr: T,
)
    requires
        layout.wf(),
        !(*mode is Off) ==> layout.n_layers < scales@.len(),
    ensures
        *mode is Off ==> final(params)@ == old(params)@,
        !(*mode is Off) ==> fits_all(
            *ops,
            group_decayed(*layout, scales@, old(params)@, lr),
            final(params)@,
        ),
{
    if !mode.is_active() {
        return;
    }
    let n: usize = params.len();
    let ghost p0 = params@;
    let base: Traced<T> = Traced::ratio(ops, 1, 100);
    let rate: Traced<T> = Traced::of(ops, lr);
    let ps: &Vec<T> = params;
    let f = |i: usize| -> (r: Traced<T>)
        requires
            i < n,
        ensures
            r.ok(*ops),
            r.e@ == entry(group_decayed(*layout, scales@, ps@, lr), i),
    {
        let p: Traced<T> = Traced::of(ops, ps[i]);
        match group_scale_at(layout, scales, i) {
            Some(s) => {
                let wd: Traced<T> = base.times(ops, Traced::of(ops, s));
                p.minus(ops, rate.times(ops, wd).times(ops, p))
            },
            None => p,
        }
    };
    let out: TracedVec<T> = build(ops, n, Ghost(group_decayed(*layout, scales@, p0, lr)), f);
    *params = out.v;
}

/// Neither scale nor decay reaches the layer factors and the last normalisation.
pub proof fn law_shared_parameters_are_left_alone<T>(
    layout: GroupLayout,
    scales: Seq<T>,
    xs: Seq<T>,
    lr: T,
    i: int,
)
    requires
        layout.wf(),
        layout.n_layers * layout.block_total <= i < layout.head_start,
        i < xs.len(),
    ensures
        grads_scaled(layout, scales, xs)[i] == val(xs[i]),
        group_decayed(layout, scales, xs, lr)[i] == val(xs[i]),
{
}

} // verus!
