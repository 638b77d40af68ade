//! Losses that a gradient is held against: the same losses as in training, accumulated in
//! whatever precision the arithmetic has.

use vstd::prelude::*;
use crate::arith::{Arith, Traced, TracedVec, build, total};
#[allow(unused_imports)]
use crate::arith::{Expr, entry, fits, minus, over, times, total_of, val};
use crate::phase_loss::phase_native_loss_value;
#[allow(unused_imports)]
use crate::phase_loss::{Tuning, native_loss};

verus! {

/// Number of positions that a mean is taken over: at least one.
pub open spec fn positions(t: int) -> int {
    if t >= 1 {
        t
    } else {
        1
    }
}

/// The total of some losses over their number.
pub open spec fn mean_loss<T>(losses: Seq<Expr<T>>) -> Expr<T> {
    over(total_of(losses), Expr::Count(positions(losses.len() as int) as usize))
}

fn mean_loss_on<T: Copy, A: Arith<T>>(ops: &A, losses: &TracedVec<T>) -> (out: T)
    requires
        losses.ok(*ops),
    ensures
        fits(*ops, mean_loss(losses.e@), out),
{
    let t: usize = losses.len();
    let n: usize = if t >= 1 {
        t
    } else {
        1
    };
    total(ops, losses).over(ops, Traced::count(ops, n)).v
}

/// The phase-native loss of each position.
pub open spec fn native_losses<T>(
    post: Seq<Vec<T>>,
    wte: Seq<Vec<T>>,
    targets: Seq<usize>,
    temperature: T,
    corrector: Seq<T>,
    floor: T,
) -> Seq<Expr<T>> {
    Seq::new(
        post.len(),
        |p: int|
            native_loss(
                post[p]@,
                wte,
                targets[p] as int,
                Tuning { temperature: val(temperature), scaled: false },
                corrector,
                val(floor),
            ),
    )
}

/// The phase-native loss, averaged over the positions of a pass.
pub fn mean_native_loss<T: Copy, A: Arith<T>>(
    ops: &A,
    post_ln_f: &Vec<Vec<T>>,
    wte: &Vec<Vec<T>>,
    targets: &[usize],
    n_bands: usize,
    temperature: T,
    output_corrector: &[T],
    floor: T,
) -> (loss: T)
    requires
        n_bands <= output_corrector@.len(),
        post_ln_f@.len() <= targets@.len(),
        forall|p: int|
            0 <= p < post_ln_f@.len() ==> 2 * n_bands <= (#[trigger] post_ln_f@[p])@.len(),
        forall|p: int| 0 <= p < post_ln_f@.len() ==> (#[trigger] targets@[p]) < wte@.len(),
        forall|v: int| 0 <= v < wte@.len() ==> 2 * n_bands <= (#[trigger] wte@[v])@.len(),
    ensures
        fits(
            *ops,
            mean_loss(
                native_losses(
                    post_ln_f@,
                    wte@,
                    targets@,
                    temperature,
                    output_corrector@.take(n_bands as int),
                    floor,
                ),
            ),
            loss,
        ),
{
    let t: usize = post_ln_f.len();
    let ghost corrector = output_corrector@.take(n_bands as int);
    let ghost want = native_losses(post_ln_f@, wte@, targets@, temperature, corrector, floor);
    let mut values: Vec<T> = Vec::new();
    let mut p: usize = 0;
    while p < t
        invariant
            t == post_ln_f@.len(),
            corrector == output_corrector@.take(n_bands as int),
            want == native_losses(post_ln_f@, wte@, targets@, temperature, corrector, floor),
            n_bands <= output_corrector@.len(),
            post_ln_f@.len() <= targets@.len(),
            forall|p: int|
                0 <= p < post_ln_f@.len() ==> 2 * n_bands <= (#[trigger] post_ln_f@[p])@.len(),
            forall|p: int| 0 <= p < post_ln_f@.len() ==> (#[trigger] targets@[p]) < wte@.len(),
            forall|v: int| 0 <= v < wte@.len() ==> 2 * n_bands <= (#[trigger] wte@[v])@.len(),
            p <= t,
            values@.len() == p,
            forall|i: int| 0 <= i < p ==> fits(*ops, want[i], #[trigger] values@[i]),
        decreases t - p,
    {
        assert(2 * n_bands <= post_ln_f@[p as int]@.len());
        assert(targets@[p as int] < wte@.len());
        let x: T = phase_native_loss_value(
            ops,
            post_ln_f[p].as_slice(),
            wte,
            targets[p],
            n_bands,
            temperature,
            output_corrector,
            floor,
        );
        values.push(x);
        p += 1;
    }
    let losses: TracedVec<T> = TracedVec { v: values, e: Ghost(want) };
    mean_loss_on(ops, &losses)
}

/// The squared differences of two waves.
pub open spec fn squared_gaps<T>(a: Seq<T>, b: Seq<T>, n: int) -> Seq<Expr<T>> {
    Seq::new(
        n as nat,
        |i: int| times(minus(val(a[i]), val(b[i])), minus(val(a[i]), val(b[i]))),
    )
}

/// The squared distance of two waves, averaged over their components.
pub open spec fn wave_gap<T>(a: Seq<T>, b: Seq<T>, n: int) -> Expr<T> {
    over(total_of(squared_gaps(a, b, n)), Expr::Count(n as usize))
}

fn wave_gap_on<T: Copy, A: Arith<T>>(ops: &A, a: &Vec<T>, b: &Vec<T>, n: usize) -> (out: Traced<T>)
    requires
        n <= a@.len(),
        n <= b@.len(),
    ensures
        out.ok(*ops),
        out.e@ == wave_gap(a@, b@, n as int),
{
    let one = |i: usize| -> (r: Traced<T>)
        requires
            i < n,
        ensures
            r.ok(*ops),
            r.e@ == entry(squared_gaps(a@, b@, n as int), i),
        {
            let gap: Traced<T> = Traced::of(ops, a[i]).minus(ops, Traced::of(ops, b[i]));
            gap.times(ops, gap)
        };
    let gaps: TracedVec<T> = build(ops, n, Ghost(squared_gaps(a@, b@, n as int)), one);
    total(ops, &gaps).over(ops, Traced::count(ops, n))
}

/// The distances of the first `t` positions.
pub open spec fn wave_gaps<T>(post: Seq<Vec<T>>, targets: Seq<Vec<T>>, t: int, n: int) -> Seq<
    Expr<T>,
> {
    Seq::new(t as nat, |p: int| wave_gap(post[p]@, targets[p]@, n))
}

/// The squared distance between waves and their targets, averaged over the positions that
/// both have.
pub fn wave_loss<T: Copy, A: Arith<T>>(
    ops: &A,
    post_ln_f: &Vec<Vec<T>>,
    targets: &Vec<Vec<T>>,
    n_embd: usize,
) -> (loss: T)
    requires
        forall|p: int|
            0 <= p < post_ln_f@.len() && p < targets@.len() ==> n_embd <= (
            #[trigger] post_ln_f@[p])@.len(),
        forall|p: int|
            0 <= p < post_ln_f@.len() && p < targets@.len() ==> n_embd <= (
            #[trigger] targets@[p])@.len(),
    ensures
        fits(
            *ops,
            mean_loss(
                wave_gaps(
                    post_ln_f@,
                    targets@,
                    if post_ln_f@.len() <= targets@.len() {
                        post_ln_f@.len() as int
                    } else {
                        targets@.len() as int
                    },
                    n_embd as int,
                ),
            ),
            loss,
        ),
{
    let t: usize = if post_ln_f.len() <= targets.len() {
        post_ln_f.len()
    } else {
        targets.len()
    };
    let one = |p: usize| -> (r: Traced<T>)
        requires
            p < t,
        ensures
            r.ok(*ops),
            r.e@ == entry(wave_gaps(post_ln_f@, targets@, t as int, n_embd as int), p),
        {
            assert(n_embd <= post_ln_f@[p as int]@.len());
            assert(n_embd <= targets@[p as int]@.len());
            wave_gap_on(ops, &post_ln_f[p], &targets[p], n_embd)
        };
    let losses: TracedVec<T> = build(
        ops,
        t,
        Ghost(wave_gaps(post_ln_f@, targets@, t as int, n_embd as int)),
        one,
    );
    mean_loss_on(ops, &losses)
}

} // verus!
