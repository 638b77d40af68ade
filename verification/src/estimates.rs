//! Numbers behind decisions: how many bands a vocabulary asks for, how long a run takes,
//! where the stages of a curriculum end, and whether gradients agree.

use vstd::prelude::*;
use crate::arith::{Arith, Test, Traced, TracedVec, build, holds};
#[allow(unused_imports)]
use crate::arith::{
    Binary, Expr, Unary, entry, fits, fits_all, fold_of, larger, minus, one, over, plus, test_is,
    times, un, val, vals, zero,
};
use crate::curriculum::{BandMask, CurriculumSchedule, RAMP_ITERS, Stage};
#[allow(unused_imports)]
use crate::curriculum::stage_start;
use crate::json::owned;
use crate::layers::traced;
use crate::loss::norm_on;
#[allow(unused_imports)]
use crate::loss::norm_of;
use crate::statistics::over_ratio;
#[allow(unused_imports)]
use crate::statistics::exceeds_ratio;
use crate::text::append_decimal;
#[allow(unused_imports)]
use crate::text::decimal;
#[allow(unused_imports)]
use crate::wave_analysis::shared_len;

verus! {

/// A whole number taken of a formula's value.
pub open spec fn whole_of<T: Copy, A: Arith<T>>(ops: A, e: Expr<T>, n: usize) -> bool {
    exists|x: T| #[trigger] call_ensures(A::whole, (&ops, x), n) && fits(ops, e, x)
}

/// A traced number, taken as a whole one.
pub fn whole_on<T: Copy, A: Arith<T>>(ops: &A, x: Traced<T>) -> (n: usize)
    requires
        x.ok(*ops),
    ensures
        whole_of(*ops, x.e@, n),
{
    let n: usize = ops.whole(x.v);
    assert(call_ensures(A::whole, (ops, x.v), n));
    n
}

/// Bands that must be active for a vocabulary: half a token for every dimension.
pub open spec fn active_wanted<T>(vocab: usize) -> Expr<T> {
    un(
        Unary::Ceiling,
        over(Expr::Count(vocab), times(Expr::Ratio(2, 1), Expr::Ratio(1, 2))),
    )
}

/// What a model needs for some of its bands to be active: the share that is dead on either grid
/// comes on top, and a head room.
pub open spec fn bands_needed_of<T>(active: usize, m1: usize, m2: usize) -> Expr<T> {
    let dead = plus(over(one(), Expr::Count(m1)), over(one(), Expr::Count(m2)));
    over(over(Expr::Count(active), minus(one(), dead)), Expr::Ratio(85, 100))
}

/// Bands that a model must have for some of them to be active: what it needs, rounded up.
pub open spec fn bands_wanted_of<T>(active: usize, m1: usize, m2: usize) -> Expr<T> {
    un(Unary::Ceiling, bands_needed_of(active, m1, m2))
}

/// A number of bands is one that a vocabulary asks for.
pub open spec fn asked_for<T: Copy, A: Arith<T>>(
    ops: A,
    vocab_size: usize,
    m1: usize,
    m2: usize,
    n: usize,
) -> bool {
    exists|active: usize| #[trigger]
        whole_of(ops, active_wanted(vocab_size), active) && whole_of(
            ops,
            bands_wanted_of(active, m1, m2),
            n,
        )
}

/// The number of bands that a vocabulary asks for.
pub fn bands_wanted<T: Copy, A: Arith<T>>(ops: &A, vocab_size: usize, m1: usize, m2: usize) -> (n: usize)
    ensures
        asked_for(*ops, vocab_size, m1, m2, n),
{
    let two: Traced<T> = Traced::ratio(ops, 2, 1);
    let half: Traced<T> = Traced::ratio(ops, 1, 2);
    let active: usize = whole_on(
        ops,
        Traced::count(ops, vocab_size).over(ops, two.times(ops, half)).ceiling(ops),
    );
    let unit: Traced<T> = Traced::ratio(ops, 1, 1);
    let dead: Traced<T> = unit.over(ops, Traced::count(ops, m1)).plus(
        ops,
        unit.over(ops, Traced::count(ops, m2)),
    );
    let n: usize = whole_on(
        ops,
        Traced::count(ops, active).over(ops, unit.minus(ops, dead)).over(
            ops,
            Traced::ratio(ops, 85, 100),
        ).ceiling(ops),
    );
    assert(whole_of(*ops, active_wanted(vocab_size), active));
    n
}

/// A share and whether it reaches a limit.
#[derive(Clone, Copy)]
pub struct Share<T> {
    pub value: T,
    pub reached: bool,
}

/// The share of `part` in `whole`, held against a limit.
pub open spec fn share_fits<T: Copy, A: Arith<T>>(
    ops: A,
    part: usize,
    whole: usize,
    num: u64,
    den: u64,
    s: Share<T>,
) -> bool {
    &&& fits(ops, over(Expr::Count(part), Expr::Count(whole)), s.value)
    &&& exists|limit: T| #[trigger]
        test_is(ops, Test::AtMost, limit, s.value, s.reached) && fits(
            ops,
            Expr::Ratio(num, den),
            limit,
        )
}

fn share_on<T: Copy, A: Arith<T>>(ops: &A, part: usize, whole: usize, num: u64, den: u64) -> (s: Share<
    T,
>)
    ensures
        share_fits(*ops, part, whole, num, den, s),
{
    let value: Traced<T> = Traced::count(ops, part).over(ops, Traced::count(ops, whole));
    let limit: Traced<T> = Traced::ratio(ops, num, den);
    let reached: bool = holds(ops, Test::AtMost, limit.v, value.v);
    let s: Share<T> = Share { value: value.v, reached };
    assert(test_is(*ops, Test::AtMost, limit.v, s.value, s.reached));
    s
}

/// Tokens for every dimension that carries something: too many from a half on.
pub fn tokens_per_dim<T: Copy, A: Arith<T>>(ops: &A, vocab_size: usize, active_bands: usize) -> (s: Share<
    T,
>)
    requires
        2 * active_bands <= usize::MAX,
    ensures
        share_fits(*ops, vocab_size, (2 * active_bands) as usize, 1, 2, s),
{
    share_on(ops, vocab_size, 2 * active_bands, 1, 2)
}

/// The share of bands that are active: saturated from 85 hundredths on.
pub fn band_utilisation<T: Copy, A: Arith<T>>(ops: &A, active_bands: usize, n_bands: usize) -> (s: Share<
    T,
>)
    ensures
        share_fits(*ops, active_bands, n_bands, 85, 100, s),
{
    share_on(ops, active_bands, n_bands, 85, 100)
}

/// Positions for every head: too diffuse from forty on.
pub fn pos_per_head<T: Copy, A: Arith<T>>(ops: &A, seq_len: usize, n_head: usize) -> (s: Share<T>)
    ensures
        share_fits(*ops, seq_len, n_head, 40, 1, s),
{
    share_on(ops, seq_len, n_head, 40, 1)
}

/// The time of an iteration in milliseconds: five for 42 bands, four layers and sixteen
/// positions, growing with the square of the bands.
pub open spec fn iter_time_of<T>(n_bands: usize, n_layers: usize, seq_len: usize) -> Expr<T> {
    times(
        times(
            times(
                Expr::Ratio(5, 1),
                Expr::Pow(Box::new(over(Expr::Count(n_bands), Expr::Ratio(42, 1))), 2),
            ),
            over(Expr::Count(n_layers), Expr::Ratio(4, 1)),
        ),
        over(Expr::Count(seq_len), Expr::Ratio(16, 1)),
    )
}

fn iter_time_on<T: Copy, A: Arith<T>>(ops: &A, n_bands: usize, n_layers: usize, seq_len: usize) -> (out:
    Traced<T>)
    ensures
        out.ok(*ops),
        out.e@ == iter_time_of::<T>(n_bands, n_layers, seq_len),
{
    let dim: Traced<T> = Traced::count(ops, n_bands).over(ops, Traced::ratio(ops, 42, 1)).power(
        ops,
        2,
    );
    let layers: Traced<T> = Traced::count(ops, n_layers).over(ops, Traced::ratio(ops, 4, 1));
    let seq: Traced<T> = Traced::count(ops, seq_len).over(ops, Traced::ratio(ops, 16, 1));
    Traced::ratio(ops, 5, 1).times(ops, dim).times(ops, layers).times(ops, seq)
}

/// The estimated time of an iteration in milliseconds.
pub fn estimate_time_per_iter_ms<T: Copy, A: Arith<T>>(
    ops: &A,
    n_bands: usize,
    n_layers: usize,
    seq_len: usize,
) -> (out: T)
    ensures
        fits(*ops, iter_time_of(n_bands, n_layers, seq_len), out),
{
    iter_time_on(ops, n_bands, n_layers, seq_len).v
}

/// The unit that a time is told in.
#[derive(Clone, Copy, Debug, PartialEq, Eq, Structural)]
pub enum TimeUnit {
    Seconds,
    Minutes,
    Hours,
}

/// The seconds of a time in milliseconds.
pub open spec fn seconds_of<T>(ms: T) -> Expr<T> {
    over(val(ms), Expr::Ratio(1000, 1))
}

/// Whether a number of seconds stays below a limit came out as `c`.
pub open spec fn stays_below<T: Copy, A: Arith<T>>(
    ops: A,
    seconds: T,
    limit: u64,
    c: bool,
) -> bool {
    exists|x: T| #[trigger]
        test_is(ops, Test::Exceeds, x, seconds, c) && fits(ops, Expr::Ratio(limit, 1), x)
}

fn below<T: Copy, A: Arith<T>>(ops: &A, seconds: T, limit: u64) -> (c: bool)
    ensures
        stays_below(*ops, seconds, limit, c),
{
    let x: Traced<T> = Traced::ratio(ops, limit, 1);
    let c: bool = holds(ops, Test::Exceeds, x.v, seconds);
    assert(test_is(*ops, Test::Exceeds, x.v, seconds, c));
    c
}

/// How a time is told: in seconds below a minute, in minutes below an hour, else in hours.
pub open spec fn time_told<T: Copy, A: Arith<T>>(
    ops: A,
    seconds: T,
    short: bool,
    unit: TimeUnit,
    value: T,
) -> bool {
    &&& short ==> unit == TimeUnit::Seconds && value == seconds
    &&& !short ==> {
        ||| unit == TimeUnit::Minutes && stays_below(ops, seconds, 3600, true) && fits(
            ops,
            over(val(seconds), Expr::Ratio(60, 1)),
            value,
        )
        ||| unit == TimeUnit::Hours && stays_below(ops, seconds, 3600, false) && fits(
            ops,
            over(val(seconds), Expr::Ratio(3600, 1)),
            value,
        )
    }
}

/// A time in milliseconds in the unit that it is told in.
pub fn format_time<T: Copy, A: Arith<T>>(ops: &A, ms: T) -> (out: (TimeUnit, T))
    ensures
        exists|seconds: T, short: bool|
            {
                &&& #[trigger] stays_below(*ops, seconds, 60, short)
                &&& fits(*ops, seconds_of(ms), seconds)
                &&& time_told(*ops, seconds, short, out.0, out.1)
            },
{
    let s: Traced<T> = Traced::of(ops, ms).over(ops, Traced::ratio(ops, 1000, 1));
    let seconds: Traced<T> = Traced::of(ops, s.v);
    let short: bool = below(ops, s.v, 60);
    assert(stays_below(*ops, s.v, 60, short));
    if short {
        assert(time_told(*ops, s.v, short, TimeUnit::Seconds, s.v));
        return (TimeUnit::Seconds, s.v);
    }
    let out: (TimeUnit, T) = if below(ops, s.v, 3600) {
        (TimeUnit::Minutes, seconds.over(ops, Traced::ratio(ops, 60, 1)).v)
    } else {
        (TimeUnit::Hours, seconds.over(ops, Traced::ratio(ops, 3600, 1)).v)
    };
    assert(time_told(*ops, s.v, short, out.0, out.1));
    out
}

/// A stage's share of a run.
pub open spec fn portion<T>(stage: Stage) -> Expr<T> {
    Expr::Ratio(stage.percent as u64, 100)
}

/// The shares of the first `n` stages, added up.
pub open spec fn portions<T>(stages: Seq<Stage>, n: int) -> Expr<T>
    decreases n,
{
    if n <= 0 {
        zero()
    } else {
        plus(portions(stages, n - 1), portion(stages[n - 1]))
    }
}

impl CurriculumSchedule {
    /// The whole iterations of every stage.
    pub fn stage_lengths<T: Copy, A: Arith<T>>(&self, ops: &A, n_iters: usize) -> (out: Vec<usize>)
        ensures
            out@.len() == self.stages@.len(),
            forall|i: int|
                0 <= i < out@.len() ==> whole_of(
                    *ops,
                    times(portion(self.stages@[i]), Expr::Count(n_iters)),
                    #[trigger] out@[i],
                ),
    {
        let n: usize = self.stages.len();
        let mut out: Vec<usize> = Vec::new();
        let mut i: usize = 0;
        while i < n
            invariant
                n == self.stages@.len(),
                i <= n,
                out@.len() == i,
                forall|j: int|
                    0 <= j < i ==> whole_of(
                        *ops,
                        times(portion(self.stages@[j]), Expr::Count(n_iters)),
                        #[trigger] out@[j],
                    ),
            decreases n - i,
        {
            let share: Traced<T> = Traced::ratio(ops, self.stages[i].percent as u64, 100);
            let len: usize = whole_on(ops, share.times(ops, Traced::count(ops, n_iters)));
            out.push(len);
            i += 1;
        }
        out
    }

    /// The iteration at which every stage ends, by the shares up to it.
    pub fn stage_ends<T: Copy, A: Arith<T>>(&self, ops: &A, n_iters: usize) -> (out: Vec<usize>)
        ensures
            out@.len() == self.stages@.len(),
            forall|i: int|
                0 <= i < out@.len() ==> whole_of(
                    *ops,
                    times(portions(self.stages@, i + 1), Expr::Count(n_iters)),
                    #[trigger] out@[i],
                ),
    {
        let n: usize = self.stages.len();
        let mut out: Vec<usize> = Vec::new();
        let mut sum: Traced<T> = Traced::ratio(ops, 0, 1);
        let mut i: usize = 0;
        while i < n
            invariant
                n == self.stages@.len(),
                i <= n,
                sum.ok(*ops),
                sum.e@ == portions::<T>(self.stages@, i as int),
                out@.len() == i,
                forall|j: int|
                    0 <= j < i ==> whole_of(
                        *ops,
                        times(portions(self.stages@, j + 1), Expr::Count(n_iters)),
                        #[trigger] out@[j],
                    ),
            decreases n - i,
        {
            sum = sum.plus(ops, Traced::ratio(ops, self.stages[i].percent as u64, 100));
            let end: usize = whole_on(ops, sum.times(ops, Traced::count(ops, n_iters)));
            out.push(end);
            i += 1;
        }
        out
    }
}

/// What a curriculum says of its first `n` stages.
pub open spec fn stages_text(stages: Seq<Stage>, lengths: Seq<usize>, n: int) -> Seq<char>
    decreases n,
{
    if n <= 0 {
        Seq::empty()
    } else {
        stages_text(stages, lengths, n - 1) + decimal(stages[n - 1].bands as nat)
            + " bands (iters "@ + decimal(stage_start(lengths, n - 1) as nat) + "-"@ + decimal(
            stage_start(lengths, n) as nat,
        ) + ", ramp "@ + decimal(RAMP_ITERS as nat) + ")  "@
    }
}

impl CurriculumSchedule {
    /// The stages in words, given the length of each.
    pub fn describe(&self, lengths: &Vec<usize>) -> (out: String)
        requires
            lengths@.len() == self.stages@.len(),
            stage_start(lengths@, lengths@.len() as int) <= usize::MAX,
        ensures
            out@ == "  Curriculum: "@ + stages_text(
                self.stages@,
                lengths@,
                self.stages@.len() as int,
            ),
    {
        let n: usize = self.stages.len();
        let mut out: String = owned("  Curriculum: ");
        let ghost head = out@;
        let mut start: usize = 0;
        let mut i: usize = 0;
        assert(out@ =~= head + stages_text(self.stages@, lengths@, 0));
        while i < n
            invariant
                n == self.stages@.len(),
                lengths@.len() == n,
                stage_start(lengths@, n as int) <= usize::MAX,
                i <= n,
                start == stage_start(lengths@, i as int),
                out@ == head + stages_text(self.stages@, lengths@, i as int),
            decreases n - i,
        {
            proof {
                crate::curriculum::lemma_start_monotone(lengths@, i + 1, n as int);
            }
            let end: usize = start + lengths[i];
            append_decimal(&mut out, self.stages[i].bands);
            out.append(" bands (iters ");
            append_decimal(&mut out, start);
            out.append("-");
            append_decimal(&mut out, end);
            out.append(", ramp ");
            append_decimal(&mut out, RAMP_ITERS);
            out.append(")  ");
            start = end;
            i += 1;
            assert(out@ =~= head + stages_text(self.stages@, lengths@, i as int));
        }
        out
    }
}

/// How far a band is open, as a factor: a hundredth while it is held down, one where it is
/// open, and in between on its ramp.
pub open spec fn mask_value_of<T>(m: BandMask) -> Expr<T> {
    match m {
        BandMask::Suppressed => Expr::Ratio(1, 100),
        BandMask::Ramping(step) => plus(
            Expr::Ratio(1, 100),
            times(over(Expr::Count(step), Expr::Count(RAMP_ITERS)), Expr::Ratio(99, 100)),
        ),
        BandMask::Active => one(),
    }
}

/// How far bands are open, as factors.
pub open spec fn mask_values_of<T>(masks: Seq<BandMask>) -> Seq<Expr<T>> {
    masks.map_values(|m: BandMask| mask_value_of(m))
}

/// How far bands are open, as factors.
pub fn mask_values<T: Copy, A: Arith<T>>(ops: &A, masks: &Vec<BandMask>) -> (out: Vec<T>)
    ensures
        fits_all(*ops, mask_values_of(masks@), out@),
{
    let n: usize = masks.len();
    let f = |k: usize| -> (r: Traced<T>)
        requires
            k < n,
        ensures
            r.ok(*ops),
            r.e@ == entry(mask_values_of::<T>(masks@), k),
    {
        match masks[k] {
            BandMask::Suppressed => Traced::ratio(ops, 1, 100),
            BandMask::Ramping(step) => Traced::ratio(ops, 1, 100).plus(
                ops,
                Traced::count(ops, step).over(ops, Traced::count(ops, RAMP_ITERS)).times(
                    ops,
                    Traced::ratio(ops, 99, 100),
                ),
            ),
            BandMask::Active => Traced::ratio(ops, 1, 1),
        }
    };
    let out: TracedVec<T> = build(ops, n, Ghost(mask_values_of::<T>(masks@)), f);
    out.v
}

/// The gradients of an early iteration: of the model, of the decoder's head, and the head's
/// share of the whole.
#[derive(Clone, Copy)]
pub struct EarlyHealth<T> {
    pub model_norm: T,
    pub head_norm: T,
    pub head_share: T,
    pub dominated: bool,
}

/// Where the gradients of the head start: the head is as large as its table, if there is
/// room for it.
pub open spec fn head_start(n_trainable: int, head_size: int) -> int {
    if n_trainable >= head_size {
        n_trainable - head_size
    } else {
        0
    }
}

/// The health of an early iteration; the head dominates above 95 hundredths.
pub open spec fn health_fits<T: Copy, A: Arith<T>>(
    ops: A,
    grads: Seq<T>,
    start: int,
    grad_norm: T,
    h: EarlyHealth<T>,
) -> bool {
    let model = norm_of(vals(grads.subrange(0, start)));
    let head = norm_of(vals(grads.subrange(start, grads.len() as int)));
    &&& fits(ops, model, h.model_norm)
    &&& fits(ops, head, h.head_norm)
    &&& fits(ops, over(head, larger(val(grad_norm), Expr::Ratio(1, 1000))), h.head_share)
    &&& exceeds_ratio(ops, h.head_share, 95, 100, h.dominated)
}

/// Checks the gradients of the first ten iterations; nothing is checked later.
pub fn first10_health_check<T: Copy, A: Arith<T>>(
    ops: &A,
    iter: usize,
    total_grads: &Vec<T>,
    n_trainable: usize,
    head_size: usize,
    grad_norm: T,
) -> (h: Option<EarlyHealth<T>>)
    requires
        n_trainable <= total_grads@.len(),
    ensures
        (h is None) == (iter >= 10),
        h matches Some(x) ==> health_fits(
            *ops,
            total_grads@,
            head_start(n_trainable as int, head_size as int),
            grad_norm,
            x,
        ),
{
    if iter >= 10 {
        return None;
    }
    let start: usize = if n_trainable >= head_size {
        n_trainable - head_size
    } else {
        0
    };
    let n: usize = total_grads.len();
    let model: Traced<T> = norm_on(
        ops,
        &traced(ops, &crate::seqs::take(total_grads, 0, start)),
    );
    let head: Traced<T> = norm_on(
        ops,
        &traced(ops, &crate::seqs::take(total_grads, start, n - start)),
    );
    let share: Traced<T> = head.over(
        ops,
        Traced::of(ops, grad_norm).larger(ops, Traced::ratio(ops, 1, 1000)),
    );
    let dominated: bool = over_ratio(ops, share.v, 95, 100);
    Some(
        EarlyHealth {
            model_norm: model.v,
            head_norm: head.v,
            head_share: share.v,
            dominated,
        },
    )
}

/// How far the entries that both vectors have lie apart.
pub open spec fn gaps_of<T>(a: Seq<T>, b: Seq<T>) -> Seq<Expr<T>> {
    Seq::new(
        shared_len(a, b) as nat,
        |i: int| un(Unary::Abs, minus(val(a[i]), val(b[i]))),
    )
}

/// The largest distance of two entries at the same place, from zero.
pub open spec fn max_diff_of<T>(a: Seq<T>, b: Seq<T>) -> Expr<T> {
    fold_of(Binary::Larger, zero(), gaps_of(a, b))
}

/// The largest distance of two entries at the same place.
pub fn max_diff<T: Copy, A: Arith<T>>(ops: &A, a: &[T], b: &[T]) -> (out: T)
    ensures
        fits(*ops, max_diff_of(a@, b@), out),
{
    let (la, lb): (usize, usize) = (a.len(), b.len());
    let n: usize = if la <= lb {
        la
    } else {
        lb
    };
    let ghost es = gaps_of(a@, b@);
    let mut most: Traced<T> = Traced::ratio(ops, 0, 1);
    let mut i: usize = 0;
    assert(es.take(0) =~= Seq::<Expr<T>>::empty());
    while i < n
        invariant
            n <= a@.len(),
            n <= b@.len(),
            n == shared_len(a@, b@),
            es == gaps_of(a@, b@),
            i <= n,
            most.ok(*ops),
            most.e@ == fold_of(Binary::Larger, zero(), es.take(i as int)),
        decreases n - i,
    {
        let gap: Traced<T> = Traced::of(ops, a[i]).minus(ops, Traced::of(ops, b[i])).abs(ops);
        most = most.larger(ops, gap);
        assert(es.take(i + 1).drop_last() =~= es.take(i as int));
        i += 1;
    }
    assert(es.take(n as int) =~= es);
    most.v
}

/// The largest of some distances, from zero.
pub fn worst_of<T: Copy, A: Arith<T>>(ops: &A, diffs: &Vec<T>) -> (out: T)
    ensures
        fits(*ops, fold_of(Binary::Larger, zero(), vals(diffs@)), out),
{
    let n: usize = diffs.len();
    let ghost es = vals(diffs@);
    let mut most: Traced<T> = Traced::ratio(ops, 0, 1);
    let mut i: usize = 0;
    assert(es.take(0) =~= Seq::<Expr<T>>::empty());
    while i < n
        invariant
            n == diffs@.len(),
            es == vals(diffs@),
            i <= n,
            most.ok(*ops),
            most.e@ == fold_of(Binary::Larger, zero(), es.take(i as int)),
        decreases n - i,
    {
        most = most.larger(ops, Traced::of(ops, diffs[i]));
        assert(es.take(i + 1).drop_last() =~= es.take(i as int));
        i += 1;
    }
    assert(es.take(n as int) =~= es);
    most.v
}

/// Whether gradients agree: of the derivative to less than a ten-thousandth, of the whole
/// integration to less than a hundredth.
#[derive(Clone, Copy, Debug, PartialEq, Eq, Structural)]
pub struct GradientVerdict {
    pub derivative: bool,
    pub integration: bool,
}

/// Whether a distance stays below a fraction came out as `c`.
pub open spec fn falls_below<T: Copy, A: Arith<T>>(ops: A, x: T, den: u64, c: bool) -> bool {
    exists|limit: T| #[trigger]
        test_is(ops, Test::Exceeds, limit, x, c) && fits(ops, Expr::Ratio(1, den), limit)
}

fn below_fraction<T: Copy, A: Arith<T>>(ops: &A, x: T, den: u64) -> (c: bool)
    ensures
        falls_below(*ops, x, den, c),
{
    let limit: Traced<T> = Traced::ratio(ops, 1, den);
    let c: bool = holds(ops, Test::Exceeds, limit.v, x);
    assert(test_is(*ops, Test::Exceeds, limit.v, x, c));
    c
}

/// The verdict on the largest distances of two sets of gradients.
pub fn gradient_verdict<T: Copy, A: Arith<T>>(ops: &A, derivative: T, integration: T) -> (v:
    GradientVerdict)
    ensures
        falls_below(*ops, derivative, 10000, v.derivative),
        falls_below(*ops, integration, 100, v.integration),
{
    GradientVerdict {
        derivative: below_fraction(ops, derivative, 10000),
        integration: below_fraction(ops, integration, 100),
    }
}

impl GradientVerdict {
    /// Whether both agree.
    pub fn passed(&self) -> (yes: bool)
        ensures
            yes == (self.derivative && self.integration),
    {
        self.derivative && self.integration
    }
}

} // verus!
