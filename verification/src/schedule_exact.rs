//! In exact arithmetic: the course of the learning rate, and what pulls parameters to rest.

use vstd::prelude::*;
use crate::arith::Arith;
#[allow(unused_imports)]
use crate::arith::{Expr, Test, fits, over, test_is, times, val, vals, zero};
#[allow(unused_imports)]
use crate::attention::{column_of, rows_vals};
#[allow(unused_imports)]
use crate::averages::{
    is_mean, lemma_by_one, lemma_cancel, lemma_either_way, lemma_mean_value, lemma_quotient_undone,
};
#[allow(unused_imports)]
use crate::correlation_exact::root_squares;
#[allow(unused_imports)]
use crate::exact::{
    Curves, Dual, holds_of, inverse, lemma_nothing, lemma_shared, lemma_sign, prod, value,
};
#[allow(unused_imports)]
use crate::forward_exact::exp_undoes_ln;
#[allow(unused_imports)]
use crate::linear_exact::lemma_summed_same;
#[allow(unused_imports)]
use crate::loss::norm_of;
#[allow(unused_imports)]
use crate::param_groups::GroupLayout;
#[allow(unused_imports)]
use crate::regulation::{
    correction_of, decay_of, factor_of, grads_scaled, group_decayed, group_scale, harmonic_of,
    headroom_of, layer_grads, lowest_ceiling, mean_length, nudged_of, rate_scale_of, rest_harmonic,
    slope_weight_of,
};
#[allow(unused_imports)]
use crate::training_step::{
    batch_grads, floor_lifts, lift_of, lifted_of, phase_shift_of, rate_of, remaining_of, shown_loss,
};
#[allow(unused_imports)]
use crate::values::{exact, group_value, lemma_fits, lemma_whole};
#[allow(unused_imports)]
use crate::wave_model::WaveBlockWeights;

verus! {

/// Over the first hundred iterations the rate rises by a hundredth of the full rate each time.
#[verifier::spinoff_prover]
pub proof fn law_rate_warms_up(cu: Curves, lr: Dual, iter: int, total: int)
    requires
        0 <= iter < 100,
    ensures
        prod(value(cu, rate_of(lr, iter, total)), 100real) == prod(lr.v, (iter + 1) as real),
{
    broadcast use group_value;

    lemma_quotient_undone(prod(lr.v, (iter + 1) as real), 100real);
    assert((iter as usize) as real + 1real == (iter + 1) as real);
}

#[verifier::spinoff_prover]
proof fn lemma_cosine_rate(lr: real, c: real)
    ensures
        20real * (prod(lr, 1real / 10real) + prod(
            prod(1real / 2real, lr - prod(lr, 1real / 10real)),
            1real + c,
        )) == 11real * lr + 9real * prod(lr, c),
{
    reveal(prod);
    let low = lr * (1real / 10real);
    let half = (1real / 2real) * (lr - low);
    assert(half == 9real * lr / 20real) by (nonlinear_arith)
        requires
            low == lr * (1real / 10real),
            half == (1real / 2real) * (lr - low),
    ;
    assert(half * (1real + c) == half + half * c) by (nonlinear_arith);
    assert(20real * (half * c) == 9real * (lr * c)) by (nonlinear_arith)
        requires
            half == 9real * lr / 20real,
    ;
}

/// After the first hundred iterations the rate follows a cosine through the rest of the run.
#[verifier::spinoff_prover]
proof fn lemma_rate_follows_cosine(cu: Curves, lr: Dual, iter: int, total: int) -> (progress: real)
    requires
        100 <= iter <= total <= usize::MAX,
        100 < total,
    ensures
        prod(progress, (total - 100) as real) == (iter - 100) as real,
        20real * value(cu, rate_of(lr, iter, total)) == 11real * lr.v + 9real * prod(
            lr.v,
            (cu.cos)(prod(progress, cu.pi)),
        ),
{
    broadcast use group_value;

    let a = (iter - 100) as real;
    let b = (total - 100) as real;
    let progress = prod(a, inverse(b));
    lemma_quotient_undone(a, b);
    lemma_cosine_rate(lr.v, (cu.cos)(prod(progress, cu.pi)));
    assert(value(cu, Expr::<Dual>::Ratio(1, 10)) == 1real / 10real);
    assert(value(cu, Expr::<Dual>::Ratio(1, 2)) == 1real / 2real);
    progress
}

/// After its warm-up the rate lies between a tenth and the whole of the full rate; it is the whole
/// where the warm-up ends, and a tenth where the run ends.
#[verifier::spinoff_prover]
pub proof fn law_rate_falls_to_a_tenth(cu: Curves, lr: Dual, iter: int, total: int)
    requires
        100 <= iter <= total <= usize::MAX,
        100 < total,
        lr.v >= 0real,
        (cu.cos)(0real) == 1real,
        (cu.cos)(cu.pi) == -1real,
        forall|x: real| -1real <= #[trigger] (cu.cos)(x) <= 1real,
    ensures
        lr.v <= 10real * value(cu, rate_of(lr, iter, total)),
        value(cu, rate_of(lr, iter, total)) <= lr.v,
        iter == 100 ==> value(cu, rate_of(lr, iter, total)) == lr.v,
        iter == total ==> 10real * value(cu, rate_of(lr, iter, total)) == lr.v,
{
    let progress = lemma_rate_follows_cosine(cu, lr, iter, total);
    let b = (total - 100) as real;
    let c = (cu.cos)(prod(progress, cu.pi));
    lemma_within(lr.v, c);
    lemma_nothing(b);
    lemma_by_one(b);
    if iter == 100 {
        lemma_either_way(0real, b);
        lemma_cancel(progress, 0real, b);
        lemma_nothing(cu.pi);
        lemma_either_way(0real, cu.pi);
        lemma_by_one(lr.v);
    }
    if iter == total {
        lemma_cancel(progress, 1real, b);
        lemma_by_one(cu.pi);
        lemma_sign(lr.v, 1real);
        lemma_by_one(lr.v);
    }
}

#[verifier::spinoff_prover]
proof fn lemma_within(a: real, c: real)
    requires
        a >= 0real,
        -1real <= c <= 1real,
    ensures
        -a <= prod(a, c) <= a,
{
    reveal(prod);
    assert(-a <= a * c <= a) by (nonlinear_arith)
        requires
            a >= 0real,
            -1real <= c <= 1real,
    ;
}

/// A later iteration has a smaller rate, where the cosine falls.
#[verifier::spinoff_prover]
pub proof fn law_rate_follows_the_cosine(cu: Curves, lr: Dual, iter: int, total: int, at: real)
    requires
        100 <= iter <= total <= usize::MAX,
        100 < total,
        prod(at, (total - 100) as real) == (iter - 100) as real,
    ensures
        20real * value(cu, rate_of(lr, iter, total)) == 11real * lr.v + 9real * prod(
            lr.v,
            (cu.cos)(prod(at, cu.pi)),
        ),
{
    let progress = lemma_rate_follows_cosine(cu, lr, iter, total);
    lemma_cancel(progress, at, (total - 100) as real);
}

/// A batch's gradient is the mean of its windows' gradients, parameter by parameter.
#[verifier::spinoff_prover]
pub proof fn law_batch_averages_gradients(cu: Curves, grads: Seq<Vec<Dual>>, n: int, i: int)
    requires
        0 < grads.len() <= usize::MAX,
        0 <= i < n,
        forall|b: int| 0 <= b < grads.len() ==> i < (#[trigger] grads[b])@.len(),
    ensures
        is_mean(
            value(cu, batch_grads(grads, n, grads.len() as usize)[i]),
            |b: int| grads[b]@[i].v,
            grads.len() as int,
        ),
{
    broadcast use group_value;

    let col = column_of(rows_vals(grads), i);
    lemma_mean_value(cu, col);
    let given = |k: int| value(cu, col[k]);
    let wanted = |b: int| grads[b]@[i].v;
    assert forall|b: int| 0 <= b < grads.len() implies #[trigger] given(b) == wanted(b) by {
        assert(i < grads[b]@.len());
        assert(vals(grads[b]@)[i] == val(grads[b]@[i]));
    }
    lemma_summed_same(given, wanted, grads.len() as int);
}

/// The head's gradients are lifted exactly where the floor is positive and above the rate and the
/// run is past its first five hundred iterations; the lift times the rate is then the floor.
#[verifier::spinoff_prover]
pub proof fn law_floor_lifts_the_head<A: Arith<Dual>>(
    cu: Curves,
    ops: A,
    floor: Dual,
    lr: Dual,
    iters: int,
    c: bool,
)
    requires
        exact(cu, ops),
        floor_lifts(ops, floor, lr, iters, c),
    ensures
        c <==> floor.v > 0real && floor.v > lr.v && iters > 500,
        lr.v >= 1real / 100000000real ==> prod(value(cu, lift_of(floor, lr)), lr.v) == floor.v,
{
    broadcast use group_value;

    let (positive, above, nought) = choose|positive: bool, above: bool, nought: Dual|
        {
            &&& #[trigger] test_is(ops, Test::Exceeds, floor, nought, positive)
            &&& fits(ops, zero(), nought)
            &&& #[trigger] test_is(ops, Test::Exceeds, floor, lr, above)
            &&& c == (positive && iters > 500 && above)
        };
    lemma_fits(cu, ops, zero(), nought);
    assert(positive == holds_of(Test::Exceeds, floor.v, nought.v));
    assert(above == holds_of(Test::Exceeds, floor.v, lr.v));
    assert(value(cu, Expr::<Dual>::Ratio(1, 100000000)) == 1real / 100000000real);
    if lr.v >= 1real / 100000000real {
        lemma_quotient_undone(floor.v, lr.v);
    }
}

/// Lifted gradients are those from `start` on, times the lift; the others stay.
#[verifier::spinoff_prover]
pub proof fn law_lift_reaches_the_head_alone(
    cu: Curves,
    grads: Seq<Dual>,
    start: int,
    boost: Dual,
    i: int,
)
    requires
        0 <= i < grads.len(),
    ensures
        i < start ==> value(cu, lifted_of(grads, start, boost)[i]) == grads[i].v,
        i >= start ==> value(cu, lifted_of(grads, start, boost)[i]) == prod(grads[i].v, boost.v),
{
    broadcast use group_value;

}

/// The loss that is shown: once there are ten, the mean of the recent ones.
#[verifier::spinoff_prover]
pub proof fn law_shown_loss_is_the_recent_mean(cu: Curves, recent: Seq<Dual>, loss: Dual)
    requires
        recent.len() <= usize::MAX,
    ensures
        recent.len() < 10 ==> value(cu, shown_loss(recent, loss)) == loss.v,
        recent.len() >= 10 ==> is_mean(
            value(cu, shown_loss(recent, loss)),
            |k: int| recent[k].v,
            recent.len() as int,
        ),
{
    broadcast use group_value;

    if recent.len() >= 10 {
        let es = vals(recent);
        lemma_mean_value(cu, es);
        let given = |k: int| value(cu, es[k]);
        let wanted = |k: int| recent[k].v;
        assert forall|k: int| 0 <= k < recent.len() implies #[trigger] given(k) == wanted(k) by {
            assert(es[k] == val(recent[k]));
        }
        lemma_summed_same(given, wanted, recent.len() as int);
    }
}

/// Where a spring of strength `k` leaves `x` after a step of rate `lr`: its distance from rest
/// shrinks to what the step leaves of it.
pub open spec fn pulled(x: real, rest: real, lr: real, k: real) -> real {
    rest + prod(1real - prod(lr, k), x - rest)
}

/// `x` kept between two bounds.
pub open spec fn within(x: real, low: real, high: real) -> real {
    if x < low {
        low
    } else if x > high {
        high
    } else {
        x
    }
}

#[verifier::spinoff_prover]
proof fn lemma_pulled(x: real, rest: real, lr: real, k: real)
    ensures
        x - prod(prod(lr, k), x - rest) == pulled(x, rest, lr, k),
{
    lemma_shared(x - rest, 1real, -prod(lr, k));
    lemma_by_one(x - rest);
    lemma_sign(x - rest, prod(lr, k));
    lemma_either_way(x - rest, 1real - prod(lr, k));
}

/// A layer's factor is pulled towards one where the layer is active and else towards nothing, and
/// is never negative; without springs it stays.
#[verifier::spinoff_prover]
pub proof fn law_layer_factor_is_pulled(cu: Curves, x: Dual, lr: Dual, k: Dual, active: bool)
    ensures
        ({
            let rest = if active {
                1real
            } else {
                0real
            };
            let moved = pulled(x.v, rest, lr.v, k.v);
            value(cu, factor_of(x, lr, k, active)) == if k.v <= 0real {
                x.v
            } else if moved < 0real {
                0real
            } else {
                moved
            }
        }),
{
    broadcast use group_value;

    lemma_pulled(x.v, 1real, lr.v, k.v);
    lemma_pulled(x.v, 0real, lr.v, k.v);
}

/// A group's decay is pulled towards one and kept between a hundredth and ten; the headroom of the
/// gain control towards three, and kept between one and six; without springs they stay.
#[verifier::spinoff_prover]
pub proof fn law_decay_and_headroom_are_pulled(cu: Curves, x: Dual, lr: Dual, k: Dual)
    ensures
        value(cu, decay_of(x, lr, k)) == if k.v <= 0real {
            x.v
        } else {
            within(pulled(x.v, 1real, lr.v, k.v), 1real / 100real, 10real)
        },
        value(cu, headroom_of(x, lr, k)) == if k.v <= 0real {
            x.v
        } else {
            within(pulled(x.v, 3real, lr.v, k.v), 1real, 6real)
        },
{
    broadcast use group_value;

    lemma_by_one(k.v);
    lemma_pulled(x.v, 1real, lr.v, k.v);
    lemma_pulled(x.v, 3real, lr.v, k.v);
    assert(value(cu, Expr::<Dual>::Ratio(1, 100)) == 1real / 100real);
    assert(value(cu, Expr::<Dual>::Ratio(10, 1)) == 10real);
    assert(value(cu, Expr::<Dual>::Ratio(3, 1)) == 3real);
    assert(value(cu, Expr::<Dual>::Ratio(6, 1)) == 6real);
}

#[verifier::spinoff_prover]
proof fn lemma_part(n: real)
    requires
        n != 0real,
    ensures
        prod(1real, inverse(n)) == 1real / n,
{
    lemma_by_one(inverse(n));
    reveal(inverse);
}

/// The weights of the slopes of an integration step are pulled, twice as strongly, to a sixth at
/// both ends and a third between; so at rest they add up to one.
#[verifier::spinoff_prover]
pub proof fn law_slope_weights_are_pulled(cu: Curves, x: Dual, lr: Dual, k: Dual, w: int)
    requires
        0 <= w < 4,
    ensures
        value(cu, slope_weight_of(x, lr, k, w)) == if k.v <= 0real {
            x.v
        } else {
            pulled(
                x.v,
                if w == 0 || w == 3 {
                    1real / 6real
                } else {
                    1real / 3real
                },
                lr.v,
                prod(k.v, 2real),
            )
        },
{
    broadcast use group_value;

    lemma_part(6real);
    lemma_part(3real);
    lemma_pulled(x.v, 1real / 6real, lr.v, prod(k.v, 2real));
    lemma_pulled(x.v, 1real / 3real, lr.v, prod(k.v, 2real));
    assert(value(cu, Expr::<Dual>::Ratio(2, 1)) == 2real);
    assert(value(cu, Expr::<Dual>::Ratio(3, 1)) == 3real);
    assert(value(cu, Expr::<Dual>::Ratio(6, 1)) == 6real);
}

/// The harmonic of head `h` is pulled, twice as strongly, to the logarithm of half of `h + 1`.
#[verifier::spinoff_prover]
pub proof fn law_harmonics_are_pulled(cu: Curves, x: Dual, lr: Dual, k: Dual, h: int)
    requires
        0 <= h < usize::MAX,
        exp_undoes_ln(cu),
    ensures
        value(cu, harmonic_of(x, lr, k, h)) == if k.v <= 0real {
            x.v
        } else {
            pulled(x.v, value(cu, rest_harmonic::<Dual>(h)), lr.v, prod(k.v, 2real))
        },
        2real * (cu.exp)(value(cu, rest_harmonic::<Dual>(h))) == (h + 1) as real,
{
    broadcast use group_value;

    lemma_pulled(x.v, value(cu, rest_harmonic::<Dual>(h)), lr.v, prod(k.v, 2real));
    assert(value(cu, Expr::<Dual>::Ratio(2, 1)) == 2real);
    assert(value(cu, Expr::<Dual>::Ratio(1, 2)) == 1real / 2real);
    lemma_half((h + 1) as real);
}

#[verifier::spinoff_prover]
proof fn lemma_half(x: real)
    ensures
        2real * prod(x, 1real / 2real) == x,
{
    reveal(prod);
}

/// A phase correction is pulled towards nothing by a hundredth of the strength.
#[verifier::spinoff_prover]
pub proof fn law_corrections_are_pulled(cu: Curves, x: Dual, lr: Dual, k: Dual)
    ensures
        value(cu, correction_of(x, lr, k)) == if k.v <= 0real {
            x.v
        } else {
            pulled(x.v, 0real, lr.v, prod(k.v, 1real / 100real))
        },
{
    broadcast use group_value;

    lemma_pulled(x.v, 0real, lr.v, prod(k.v, 1real / 100real));
    assert(value(cu, Expr::<Dual>::Ratio(1, 100)) == 1real / 100real);
}

/// A group's rate is pulled towards one by half the strength, and kept between a tenth and five.
#[verifier::spinoff_prover]
pub proof fn law_group_rates_are_pulled(cu: Curves, s: Dual, lr: Dual, k: Dual)
    ensures
        value(cu, rate_scale_of(s, lr, k)) == within(
            pulled(s.v, 1real, lr.v, prod(k.v, 1real / 2real)),
            1real / 10real,
            5real,
        ),
{
    broadcast use group_value;

    lemma_pulled(s.v, 1real, lr.v, prod(k.v, 1real / 2real));
    assert(value(cu, Expr::<Dual>::Ratio(1, 2)) == 1real / 2real);
    assert(value(cu, Expr::<Dual>::Ratio(1, 10)) == 1real / 10real);
    assert(value(cu, Expr::<Dual>::Ratio(5, 1)) == 5real);
}

/// A layer's rate is raised where its gradients are longer than the mean over the groups and
/// lowered where they are shorter; it stays where there are hardly any gradients.
#[verifier::spinoff_prover]
pub proof fn law_group_rates_follow_gradients(
    cu: Curves,
    s: Expr<Dual>,
    lr: Dual,
    layout: GroupLayout,
    grads: Seq<Dual>,
    l: int,
    own: real,
    mean: real,
)
    requires
        0real <= lr.v,
        1real / 10real <= value(cu, s) <= 5real,
        own == value(cu, norm_of(vals(layer_grads(layout, grads, l)))),
        prod(mean, layout.n_layers as real + 1real) == value(cu, norm_of(vals(grads))),
    ensures
        ({
            let out = value(cu, nudged_of(s, lr, layout, grads, l));
            &&& mean <= 1real / 1000real ==> out == value(cu, s)
            &&& mean > 1real / 1000real && own >= mean ==> out >= value(cu, s)
            &&& mean > 1real / 1000real && own <= mean ==> out <= value(cu, s)
            &&& 1real / 10real <= out <= 5real
        }),
{
    broadcast use group_value;

    let n = layout.n_layers as real + 1real;
    let total = value(cu, norm_of(vals(grads)));
    lemma_quotient_undone(total, n);
    lemma_cancel(prod(total, inverse(n)), mean, n);
    assert(value(cu, mean_length(grads, layout.n_layers)) == mean);
    assert(value(cu, Expr::<Dual>::Ratio(1, 1000)) == 1real / 1000real);
    assert(value(cu, Expr::<Dual>::Ratio(1, 100)) == 1real / 100real);
    assert(value(cu, Expr::<Dual>::Ratio(1, 10)) == 1real / 10real);
    assert(value(cu, Expr::<Dual>::Ratio(5, 1)) == 5real);
    if mean > 1real / 1000real {
        let part = prod(own, inverse(mean));
        lemma_quotient_undone(own, mean);
        lemma_nudge(prod(lr.v, 1real / 100real), lr.v, part, own, mean);
    }
}

#[verifier::spinoff_prover]
proof fn lemma_nudge(c: real, lr: real, part: real, own: real, mean: real)
    requires
        lr >= 0real,
        c == prod(lr, 1real / 100real),
        mean > 0real,
        prod(part, mean) == own,
    ensures
        own >= mean ==> prod(c, part - 1real) >= 0real,
        own <= mean ==> prod(c, part - 1real) <= 0real,
{
    reveal(prod);
    assert(c >= 0real) by (nonlinear_arith)
        requires
            lr >= 0real,
            c == lr * (1real / 100real),
    ;
    assert(own >= mean ==> part >= 1real) by (nonlinear_arith)
        requires
            mean > 0real,
            part * mean == own,
    ;
    assert(own <= mean ==> part <= 1real) by (nonlinear_arith)
        requires
            mean > 0real,
            part * mean == own,
    ;
    assert(part >= 1real ==> c * (part - 1real) >= 0real) by (nonlinear_arith)
        requires
            c >= 0real,
    ;
    assert(part <= 1real ==> c * (part - 1real) <= 0real) by (nonlinear_arith)
        requires
            c >= 0real,
    ;
}

/// Gradients and parameters by their groups: a gradient times the group's rate; a parameter less
/// the share of it that its group's decay takes, a hundredth of the rate times the group's scale;
/// what is in no group stays.
#[verifier::spinoff_prover]
pub proof fn law_groups_scale_their_own(
    cu: Curves,
    layout: GroupLayout,
    scales: Seq<Dual>,
    xs: Seq<Dual>,
    lr: Dual,
    i: int,
)
    requires
        0 <= i < xs.len(),
    ensures
        match group_scale(layout, scales, i) {
            Some(s) => {
                &&& value(cu, grads_scaled(layout, scales, xs)[i]) == prod(xs[i].v, s.v)
                &&& value(cu, group_decayed(layout, scales, xs, lr)[i]) == pulled(
                    xs[i].v,
                    0real,
                    lr.v,
                    prod(1real / 100real, s.v),
                )
            },
            None => {
                &&& value(cu, grads_scaled(layout, scales, xs)[i]) == xs[i].v
                &&& value(cu, group_decayed(layout, scales, xs, lr)[i]) == xs[i].v
            },
        },
{
    broadcast use group_value;

    assert(value(cu, Expr::<Dual>::Ratio(1, 100)) == 1real / 100real);
    match group_scale(layout, scales, i) {
        Some(s) => lemma_pulled(xs[i].v, 0real, lr.v, prod(1real / 100real, s.v)),
        None => {},
    }
}

/// The turn that couplings give, in degrees: times the circle's number it is a hundred and eighty
/// times four times what the own coupling and four of the neighbours' add up to.
#[verifier::spinoff_prover]
pub proof fn law_phase_shift_in_degrees(cu: Curves, alpha: Dual, beta: Dual)
    requires
        cu.pi != 0real,
    ensures
        prod(value(cu, phase_shift_of(alpha, beta)), cu.pi) == 720real * (alpha.v + 4real
            * beta.v),
{
    broadcast use group_value;

    lemma_whole(cu, 4);
    lemma_whole(cu, 180);
    let shift = prod(alpha.v + prod(4real, beta.v), 4real);
    lemma_quotient_undone(prod(shift, 180real), cu.pi);
    lemma_degrees(alpha.v, beta.v);
}

#[verifier::spinoff_prover]
proof fn lemma_degrees(a: real, b: real)
    ensures
        prod(prod(a + prod(4real, b), 4real), 180real) == 720real * (a + 4real * b),
{
    reveal(prod);
}

/// What is left of an earlier loss, times that loss, is the loss.
#[verifier::spinoff_prover]
pub proof fn law_remaining_loss_is_a_share(cu: Curves, loss: Dual, earlier: Dual)
    requires
        earlier.v >= 1real / 1000000real,
    ensures
        prod(value(cu, remaining_of(loss, earlier)), earlier.v) == loss.v,
{
    broadcast use group_value;

    assert(value(cu, Expr::<Dual>::Ratio(1, 1000000)) == 1real / 1000000real);
    lemma_quotient_undone(loss.v, earlier.v);
}

/// The magnitude at which couplings turn a band by a quarter turn, for the gain control no less
/// than a half: twice its square times the couplings is the circle's number.
#[verifier::spinoff_prover]
pub proof fn law_ceiling_turns_by_a_quarter(cu: Curves, alpha: Dual, beta: Dual)
    requires
        root_squares(cu),
        cu.pi > 0real,
        alpha.v + 4real * beta.v > 0real,
    ensures
        ({
            let c = value(cu, crate::regulation::ceiling_of(alpha, beta));
            let d = value(cu, crate::training_step::ceiling_of(alpha, beta));
            &&& prod(prod(d, d), alpha.v + 4real * beta.v) == cu.pi / 2real
            &&& c == if d >= 1real / 2real {
                d
            } else {
                1real / 2real
            }
        }),
{
    broadcast use group_value;

    let s = alpha.v + 4real * beta.v;
    assert(value(cu, Expr::<Dual>::Ratio(4, 1)) == 4real);
    assert(value(cu, Expr::<Dual>::Ratio(2, 1)) == 2real);
    assert(value(cu, Expr::<Dual>::Ratio(1, 2)) == 1real / 2real);
    lemma_four(beta.v);
    lemma_part_of(cu.pi);
    let q = cu.pi / 2real;
    lemma_quotient_undone(q, s);
    lemma_positive_part(q, s);
}

#[verifier::spinoff_prover]
proof fn lemma_four(b: real)
    ensures
        prod(4real, b) == 4real * b,
{
    reveal(prod);
}

#[verifier::spinoff_prover]
proof fn lemma_part_of(p: real)
    ensures
        prod(p, inverse(2real)) == p / 2real,
{
    reveal(prod);
    reveal(inverse);
}

#[verifier::spinoff_prover]
proof fn lemma_positive_part(q: real, s: real)
    requires
        q > 0real,
        s > 0real,
    ensures
        prod(q, inverse(s)) >= 0real,
{
    lemma_quotient_undone(q, s);
    let x = prod(q, inverse(s));
    reveal(prod);
    assert(x >= 0real) by (nonlinear_arith)
        requires
            x * s == q,
            q > 0real,
            s > 0real,
    ;
}

/// The ceiling of the gain control is no more than that of any layer, nor than the one it starts
/// from, nor than the one that is set, and it is one of these.
#[verifier::spinoff_prover]
pub proof fn law_lowest_ceiling_is_least(
    cu: Curves,
    blocks: Seq<WaveBlockWeights<Dual>>,
    top: Dual,
    n: int,
)
    requires
        0 <= n <= blocks.len(),
    ensures
        ({
            let low = value(cu, lowest_ceiling(blocks, top, n));
            &&& low <= top.v
            &&& forall|b: int|
                0 <= b < n ==> low <= value(
                    cu,
                    crate::regulation::ceiling_of(
                        (#[trigger] blocks[b]).ffn.kerr.alpha,
                        blocks[b].ffn.kerr.beta,
                    ),
                )
            &&& low == top.v || exists|b: int|
                0 <= b < n && low == value(
                    cu,
                    crate::regulation::ceiling_of(
                        (#[trigger] blocks[b]).ffn.kerr.alpha,
                        blocks[b].ffn.kerr.beta,
                    ),
                )
        }),
    decreases n,
{
    broadcast use group_value;

    if n > 0 {
        law_lowest_ceiling_is_least(cu, blocks, top, n - 1);
        let low = value(cu, lowest_ceiling(blocks, top, n));
        let before = value(cu, lowest_ceiling(blocks, top, n - 1));
        if low == before && low != top.v {
            let b = choose|b: int|
                0 <= b < n - 1 && before == value(
                    cu,
                    crate::regulation::ceiling_of(
                        (#[trigger] blocks[b]).ffn.kerr.alpha,
                        blocks[b].ffn.kerr.beta,
                    ),
                );
            assert(0 <= b < n);
        } else {
            assert(low == top.v || low == value(
                cu,
                crate::regulation::ceiling_of(
                    blocks[n - 1].ffn.kerr.alpha,
                    blocks[n - 1].ffn.kerr.beta,
                ),
            ));
        }
    }
}

} // verus!
