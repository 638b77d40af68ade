//! In exact arithmetic: the ranges that masks, the ends of stages and dispersions lie in.

use vstd::prelude::*;
#[allow(unused_imports)]
use crate::arith::{Expr, Unary, one, over, plus, times, total_of, zero};
#[allow(unused_imports)]
use crate::correlation_exact::{
    lemma_alike, lemma_bound, lemma_shared_out, lemma_square, root_squares,
};
#[allow(unused_imports)]
use crate::curriculum::{
    BandMask, CurriculumSchedule, RAMP_ITERS, Stage, default_stages, law_default_curriculum_opens,
    mask_after,
};
#[allow(unused_imports)]
use crate::estimates::{mask_value_of, portion, portions};
#[allow(unused_imports)]
use crate::exact::{
    Curves, Dual, dual_of, inverse, powered, lemma_constants, lemma_minus, lemma_over, lemma_plus,
    lemma_shared, lemma_times, prod, value,
};
#[allow(unused_imports)]
use crate::linear_exact::{lemma_fold, lemma_summed_both, summed};
#[allow(unused_imports)]
use crate::loss_exact::{lemma_cross, lemma_curves, lemma_inverse, lemma_neutral, lemma_numbers};
#[allow(unused_imports)]
use crate::sub_harmonic::{resultant_of, turned};
#[allow(unused_imports)]
use crate::wave_analysis::dispersion_of;

verus! {

/// A ramp stops short of its end.
#[verifier::spinoff_prover]
proof fn lemma_ramp(stages: Seq<Stage>, lengths: Seq<usize>, iter: int, k: int, n: int)
    ensures
        mask_after(stages, lengths, iter, k, n) matches BandMask::Ramping(step) ==> step
            < RAMP_ITERS,
    decreases n,
{
    if n > 0 {
        lemma_ramp(stages, lengths, iter, k, n - 1);
    }
}

/// What a mask multiplies by lies between a hundredth and one, in exact arithmetic: a hundredth
/// for a band that is held down, one for a band that is open.
#[verifier::spinoff_prover]
pub proof fn law_masks_lie_in_range(
    cu: Curves,
    stages: Seq<Stage>,
    lengths: Seq<usize>,
    iter: int,
    k: int,
    n: int,
)
    ensures
        ({
            let mask = mask_after(stages, lengths, iter, k, n);
            let x = value(cu, mask_value_of(mask));
            &&& 1real / 100real <= x <= 1real
            &&& mask is Suppressed ==> x == 1real / 100real
            &&& mask is Active ==> x == 1real
        }),
{
    lemma_ramp(stages, lengths, iter, k, n);
    let mask = mask_after(stages, lengths, iter, k, n);
    lemma_numbers(cu, 0);
    reveal(dual_of);
    assert(value(cu, Expr::Ratio(1, 100)) == 1real / 100real);
    if let BandMask::Ramping(step) = mask {
        let share = over::<Dual>(Expr::Count(step), Expr::Count(RAMP_ITERS));
        lemma_over(cu, Expr::Count(step), Expr::Count(RAMP_ITERS));
        let x = value(cu, share);
        assert(0real <= x <= 1real) by {
            reveal(prod);
            reveal(inverse);
            assert(x == (step as real) * (1real / 200real));
        }
        assert(value(cu, times(share, Expr::Ratio(99, 100))) == x * (99real / 100real)) by {
            reveal(prod);
            lemma_times(cu, share, Expr::Ratio(99, 100));
            assert(value(cu, Expr::Ratio(99, 100)) == 99real / 100real);
        }
        lemma_plus(cu, Expr::Ratio(1, 100), times(share, Expr::Ratio(99, 100)));
    }
}

/// A number without what it has beyond the last whole one.
pub open spec fn is_whole_part(n: int, x: real) -> bool {
    n as real <= x < n as real + 1real
}

/// Percents of the first `n` stages together.
pub open spec fn percents(stages: Seq<Stage>, n: int) -> int
    decreases n,
{
    if n <= 0 {
        0
    } else {
        percents(stages, n - 1) + stages[n - 1].percent
    }
}

#[verifier::spinoff_prover]
proof fn lemma_portions(cu: Curves, stages: Seq<Stage>, n: int)
    requires
        0 <= n <= stages.len(),
    ensures
        value(cu, portions(stages, n)) == percents(stages, n) as real / 100real,
        percents(stages, n) >= 0,
    decreases n,
{
    lemma_constants(cu);
    if n > 0 {
        lemma_portions(cu, stages, n - 1);
        let part = portion::<Dual>(stages[n - 1]);
        lemma_plus(cu, portions(stages, n - 1), part);
        assert(value(cu, part) == stages[n - 1].percent as real / 100real) by {
            reveal(dual_of);
        }
    }
}

/// The end of a stage, as it comes from the shares up to it.
pub open spec fn ends_at(
    cu: Curves,
    stages: Seq<Stage>,
    n_iters: usize,
    i: int,
    end: usize,
) -> bool {
    is_whole_part(
        end as int,
        value(cu, times(portions(stages, i + 1), Expr::Count(n_iters))),
    )
}

/// A stage ends no later than the run, in exact arithmetic, where the shares up to it make no more
/// than the whole; where they make the whole, it ends with the run.
#[verifier::spinoff_prover]
pub proof fn law_stages_end_within_the_run(
    cu: Curves,
    stages: Seq<Stage>,
    n_iters: usize,
    i: int,
    end: usize,
)
    requires
        0 <= i < stages.len(),
        percents(stages, i + 1) <= 100,
        ends_at(cu, stages, n_iters, i, end),
    ensures
        end <= n_iters,
        percents(stages, i + 1) == 100 ==> end == n_iters,
{
    let share = portions::<Dual>(stages, i + 1);
    lemma_portions(cu, stages, i + 1);
    lemma_numbers(cu, n_iters);
    lemma_times(cu, share, Expr::Count(n_iters));
    let (x, n) = (value(cu, share), n_iters as real);
    reveal(prod);
    assert(x * n <= n) by (nonlinear_arith)
        requires
            x <= 1real,
            n >= 0real,
    ;
    if percents(stages, i + 1) == 100 {
        assert(x * n == n) by (nonlinear_arith)
            requires
                x == 1real,
        ;
    }
}

/// With the default stages the number of open bands never falls during a run and never exceeds
/// the number of bands, every stage ends no later than the run, and once the length of the run is
/// reached all bands are open: in exact arithmetic, with the ends that come from the shares.
#[verifier::spinoff_prover]
pub proof fn law_default_curriculum_ends_open(
    cu: Curves,
    schedule: CurriculumSchedule,
    n_bands: usize,
    n_iters: usize,
    ends: Seq<usize>,
    earlier: int,
    later: int,
)
    requires
        schedule.stages@ == default_stages(n_bands as int),
        ends.len() == 4,
        forall|i: int|
            0 <= i < 4 ==> ends_at(cu, schedule.stages@, n_iters, i, #[trigger] ends[i]),
        earlier <= later,
    ensures
        forall|i: int| 0 <= i < 4 ==> #[trigger] ends[i] <= n_iters,
        schedule.stages@[schedule.spec_stage_at(earlier, ends, 0)].bands
            <= schedule.stages@[schedule.spec_stage_at(later, ends, 0)].bands <= n_bands,
        later >= n_iters ==> schedule.stages@[schedule.spec_stage_at(later, ends, 0)].bands
            == n_bands,
{
    let stages = schedule.stages@;
    reveal_with_fuel(percents, 5);
    assert forall|i: int| 0 <= i < 4 implies #[trigger] ends[i] <= n_iters by {
        assert(percents(stages, 1) == 20 && percents(stages, 2) == 45);
        assert(percents(stages, 3) == 70 && percents(stages, 4) == 100);
        law_stages_end_within_the_run(cu, stages, n_iters, i, ends[i]);
    }
    law_default_curriculum_opens(schedule, n_bands, ends, earlier, later);
    assert(ends[0] <= n_iters && ends[1] <= n_iters && ends[2] <= n_iters);
}

/// The squares of a sine and a cosine make one.
pub open spec fn on_circle(cu: Curves) -> bool {
    forall|x: real|
        prod(#[trigger] (cu.cos)(x), (cu.cos)(x)) + prod((cu.sin)(x), (cu.sin)(x)) == 1real
}

/// A mean, and the square of what it is the mean of.
#[verifier::spinoff_prover]
proof fn lemma_mean_square(cu: Curves, xs: Seq<Expr<Dual>>)
    requires
        0 < xs.len() <= usize::MAX,
    ensures
        ({
            let n = xs.len() as real;
            let m = value(cu, over(total_of(xs), Expr::Count(xs.len() as usize)));
            prod(m, m) <= prod(
                inverse(n),
                summed(|k: int| prod(value(cu, xs[k]), value(cu, xs[k])), xs.len() as int),
            )
        }),
{
    let len = xs.len() as int;
    let n = len as real;
    let i = inverse(n);
    let f = |k: int| value(cu, xs[k]);
    let g = |k: int| 1real;
    let fg = |k: int| value(cu, xs[k]);
    let ff = |k: int| prod(value(cu, xs[k]), value(cu, xs[k]));
    let gg = |k: int| 1real;
    assert forall|k: int| 0 <= k < len implies #[trigger] fg(k) == prod(f(k), g(k)) by {
        lemma_neutral(f(k));
    }
    assert forall|k: int| 0 <= k < len implies #[trigger] gg(k) == prod(g(k), g(k)) by {
        lemma_neutral(1real);
    }
    lemma_alike(gg, 1real, len);
    lemma_neutral(n);
    lemma_bound(f, g, fg, ff, gg, len);
    let (s, q) = (summed(fg, len), summed(ff, len));
    lemma_fold(cu, zero(), xs);
    lemma_constants(cu);
    lemma_numbers(cu, len as usize);
    lemma_over(cu, total_of(xs), Expr::Count(len as usize));
    let m = value(cu, over(total_of(xs), Expr::Count(len as usize)));
    assert(m == prod(s, i));
    lemma_inverse(n);
    lemma_cross(s, i, s, i);
    assert(prod(m, m) == prod(prod(s, s), prod(i, i)));
    lemma_scaled_down(prod(s, s), q, n, i);
}

#[verifier::spinoff_prover]
proof fn lemma_scaled_down(a: real, q: real, n: real, i: real)
    requires
        a <= prod(q, n),
        n > 0real,
        prod(n, i) == 1real,
    ensures
        prod(a, prod(i, i)) <= prod(i, q),
{
    reveal(prod);
    assert(i > 0real) by (nonlinear_arith)
        requires
            n > 0real,
            n * i == 1real,
    ;
    let b = i * i;
    assert(b >= 0real) by (nonlinear_arith)
        requires
            b == i * i,
    ;
    let c = q * n;
    assert(a * b <= c * b) by (nonlinear_arith)
        requires
            a <= c,
            b >= 0real,
    ;
    assert(n * b == i) by (nonlinear_arith)
        requires
            b == i * i,
            n * i == 1real,
    ;
    assert(c * b == q * i) by (nonlinear_arith)
        requires
            c == q * n,
            n * b == i,
    ;
    assert(q * i == i * q) by (nonlinear_arith);
}

#[verifier::spinoff_prover]
proof fn lemma_pow(cu: Curves, x: Expr<Dual>)
    ensures
        value(cu, Expr::Pow(Box::new(x), 2)) == prod(value(cu, x), value(cu, x)),
{
    reveal(dual_of);
    reveal_with_fuel(powered, 3);
    lemma_neutral(value(cu, x));
}

#[verifier::spinoff_prover]
proof fn lemma_root_within(r: real, x: real)
    requires
        r >= 0real,
        prod(r, r) == x,
        x <= 1real,
    ensures
        r <= 1real,
        x == 1real ==> r == 1real,
{
    reveal(prod);
    assert(r <= 1real) by (nonlinear_arith)
        requires
            r >= 0real,
            r * r <= 1real,
    ;
    if x == 1real {
        assert(r >= 1real) by (nonlinear_arith)
            requires
                0real <= r <= 1real,
                r * r == 1real,
        ;
    }
}

/// The dispersion of angles lies between nothing and one, in exact arithmetic, and is nothing
/// where all angles are the same.
#[verifier::spinoff_prover]
pub proof fn law_dispersion_lies_in_range(cu: Curves, angles: Seq<Expr<Dual>>)
    requires
        root_squares(cu),
        on_circle(cu),
        angles.len() <= usize::MAX,
    ensures
        0real <= value(cu, dispersion_of(angles)) <= 1real,
        angles.len() > 0 && (forall|k: int|
            0 <= k < angles.len() ==> value(cu, #[trigger] angles[k]) == value(cu, angles[0]))
            ==> value(cu, dispersion_of(angles)) == 0real,
{
    lemma_numbers(cu, 0);
    let len = angles.len() as int;
    if len > 0 {
        let n = len as real;
        let i = inverse(n);
        let (cs, ss) = (turned(Unary::Cos, angles), turned(Unary::Sin, angles));
        let count = Expr::<Dual>::Count(len as usize);
        let (c, s) = (over(total_of(cs), count), over(total_of(ss), count));
        lemma_mean_square(cu, cs);
        lemma_mean_square(cu, ss);
        let (a, b) = (value(cu, c), value(cu, s));
        let fc = |k: int| prod(value(cu, cs[k]), value(cu, cs[k]));
        let fs = |k: int| prod(value(cu, ss[k]), value(cu, ss[k]));
        let ones = |k: int| 1real;
        assert forall|k: int| 0 <= k < len implies #[trigger] ones(k) == fc(k) + fs(k) by {
            lemma_curves(cu, angles[k]);
            let x = value(cu, angles[k]);
            assert(prod((cu.cos)(x), (cu.cos)(x)) + prod((cu.sin)(x), (cu.sin)(x)) == 1real);
        }
        lemma_summed_both(ones, fc, fs, len);
        lemma_alike(ones, 1real, len);
        lemma_neutral(n);
        lemma_shared(i, summed(fc, len), summed(fs, len));
        lemma_inverse(n);
        let (p, q) = (Expr::Pow(Box::new(c), 2), Expr::Pow(Box::new(s), 2));
        lemma_pow(cu, c);
        lemma_pow(cu, s);
        lemma_plus(cu, p, q);
        lemma_square(a);
        lemma_square(b);
        let x = value(cu, plus(p, q));
        assert(0real <= x <= 1real);
        lemma_curves(cu, plus(p, q));
        let r = (cu.root)(x);
        lemma_root_within(r, x);
        lemma_minus(cu, one(), resultant_of(angles));
        if forall|k: int| 0 <= k < len ==> value(cu, #[trigger] angles[k]) == value(cu, angles[0]) {
            lemma_same_angles(cu, angles);
        }
    } else {
        assert(value(cu, dispersion_of(angles)) == 1real);
    }
}

/// The mean of angles that are all the same.
#[verifier::spinoff_prover]
proof fn lemma_same_angles(cu: Curves, angles: Seq<Expr<Dual>>)
    requires
        on_circle(cu),
        0 < angles.len() <= usize::MAX,
        forall|k: int|
            0 <= k < angles.len() ==> value(cu, #[trigger] angles[k]) == value(cu, angles[0]),
    ensures
        ({
            let count = Expr::<Dual>::Count(angles.len() as usize);
            let a = value(cu, over(total_of(turned(Unary::Cos, angles)), count));
            let b = value(cu, over(total_of(turned(Unary::Sin, angles)), count));
            prod(a, a) + prod(b, b) == 1real
        }),
{
    let len = angles.len() as int;
    let n = len as real;
    let x = value(cu, angles[0]);
    let (cs, ss) = (turned(Unary::Cos, angles), turned(Unary::Sin, angles));
    let count = Expr::<Dual>::Count(len as usize);
    let f = |k: int| value(cu, cs[k]);
    let g = |k: int| value(cu, ss[k]);
    assert forall|k: int| 0 <= k < len implies #[trigger] f(k) == (cu.cos)(x) by {
        lemma_curves(cu, angles[k]);
        assert(value(cu, angles[k]) == x);
    }
    assert forall|k: int| 0 <= k < len implies #[trigger] g(k) == (cu.sin)(x) by {
        lemma_curves(cu, angles[k]);
        assert(value(cu, angles[k]) == x);
    }
    lemma_alike(f, (cu.cos)(x), len);
    lemma_alike(g, (cu.sin)(x), len);
    lemma_constants(cu);
    lemma_fold(cu, zero(), cs);
    lemma_fold(cu, zero(), ss);
    lemma_numbers(cu, len as usize);
    lemma_over(cu, total_of(cs), count);
    lemma_over(cu, total_of(ss), count);
    lemma_shared_out(n, (cu.cos)(x));
    lemma_shared_out(n, (cu.sin)(x));
    assert(prod((cu.cos)(x), (cu.cos)(x)) + prod((cu.sin)(x), (cu.sin)(x)) == 1real);
}

} // verus!
