//! Holding a device against the processor: fixed inputs, what the processor makes of them,
//! and how far the device's answers are off.

use vstd::prelude::*;
use crate::arith::{Arith, Traced, TracedVec, build};
#[allow(unused_imports)]
use crate::arith::{
    Expr, Test, Unary, entry, fits, fits_all, over, plus, test_is, times, un, vals,
};
use crate::attention::{build_rows, untraced_rows};
#[allow(unused_imports)]
use crate::attention::{row_entry, rows_fit};
use crate::config::{N_BANDS, RK4_N_STEPS};
use crate::estimates::max_diff;
#[allow(unused_imports)]
use crate::estimates::max_diff_of;
use crate::kerr::kerr_on;
#[allow(unused_imports)]
use crate::kerr::{kerr_of, kerr_shaped};
use crate::layers::{layer_norm, linear_fn, scores_on, traced};
#[allow(unused_imports)]
use crate::layers::{linear_of, norm_of, scores_of};
use crate::model::init_kerr;
use crate::seqs::extend_from;
#[allow(unused_imports)]
use crate::seqs::rows_width;
use crate::tables::init_values;
use crate::weights::KerrWeights;

verus! {

/// A wave sampled at an index: the sine or the cosine of `i * num / den`.
pub open spec fn sample_of<T>(sine: bool, num: u64, den: u64, i: int) -> Expr<T> {
    un(
        if sine {
            Unary::Sin
        } else {
            Unary::Cos
        },
        times(Expr::Count(i as usize), Expr::Ratio(num, den)),
    )
}

fn sample_on<T: Copy, A: Arith<T>>(ops: &A, sine: bool, num: u64, den: u64, i: usize) -> (out:
    Traced<T>)
    ensures
        out.ok(*ops),
        out.e@ == sample_of::<T>(sine, num, den, i as int),
{
    let at: Traced<T> = Traced::count(ops, i).times(ops, Traced::ratio(ops, num, den));
    if sine {
        at.sin(ops)
    } else {
        at.cos(ops)
    }
}

/// `n` samples of a wave.
pub open spec fn samples_of<T>(sine: bool, num: u64, den: u64, n: int) -> Seq<Expr<T>> {
    Seq::new(n as nat, |i: int| sample_of(sine, num, den, i))
}

/// Samples of a wave, row after row.
pub open spec fn grid_of<T>(sine: bool, num: u64, den: u64, rows: int, cols: int) -> Seq<
    Seq<Expr<T>>,
> {
    Seq::new(
        rows as nat,
        |i: int| Seq::new(cols as nat, |j: int| sample_of(sine, num, den, i * cols + j)),
    )
}

fn samples<T: Copy, A: Arith<T>>(ops: &A, sine: bool, num: u64, den: u64, n: usize) -> (out: Vec<T>)
    ensures
        fits_all(*ops, samples_of(sine, num, den, n as int), out@),
{
    let one = |i: usize| -> (r: Traced<T>)
        requires
            i < n,
        ensures
            r.ok(*ops),
            r.e@ == entry(samples_of::<T>(sine, num, den, n as int), i),
        { sample_on(ops, sine, num, den, i) };
    build(ops, n, Ghost(samples_of::<T>(sine, num, den, n as int)), one).v
}

fn grid<T: Copy, A: Arith<T>>(
    ops: &A,
    sine: bool,
    num: u64,
    den: u64,
    rows: usize,
    cols: usize,
) -> (out: Vec<Vec<T>>)
    requires
        rows * cols <= usize::MAX,
    ensures
        rows_fit(*ops, grid_of(sine, num, den, rows as int, cols as int), out@),
        rows_width(out@, cols as int),
{
    let row = |i: usize| -> (r: TracedVec<T>)
        requires
            i < rows,
        ensures
            r.ok(*ops),
            r.e@ == row_entry(grid_of::<T>(sine, num, den, rows as int, cols as int), i),
        {
            let cell = |j: usize| -> (c: Traced<T>)
                requires
                    j < cols,
                ensures
                    c.ok(*ops),
                    c.e@ == entry(
                        row_entry(grid_of::<T>(sine, num, den, rows as int, cols as int), i),
                        j,
                    ),
                {
                    assert(i * cols + j < rows * cols && 0 <= i * cols) by (nonlinear_arith)
                        requires
                            0 <= i < rows,
                            0 <= j < cols,
                    ;
                    sample_on(ops, sine, num, den, i * cols + j)
                };
            build(
                ops,
                cols,
                Ghost(row_entry(grid_of::<T>(sine, num, den, rows as int, cols as int), i)),
                cell,
            )
        };
    let out: Vec<TracedVec<T>> = build_rows(
        ops,
        rows,
        Ghost(grid_of::<T>(sine, num, den, rows as int, cols as int)),
        row,
    );
    let plain: Vec<Vec<T>> = untraced_rows(ops, out);
    assert forall|i: int| 0 <= i < plain@.len() implies (#[trigger] plain@[i])@.len() == cols by {
        assert(fits_all(
            *ops,
            grid_of::<T>(sine, num, den, rows as int, cols as int)[i],
            plain@[i]@,
        ));
    }
    plain
}

/// How far a device was off on one operation, and whether that is within the tolerance of one
/// ten-thousandth.
#[derive(Clone, Copy)]
pub struct ValidationRow<T> {
    pub name: &'static str,
    pub max_diff: T,
    pub passed: bool,
}

/// A row that compares what the processor and the device answered.
pub open spec fn compared<T: Copy, A: Arith<T>>(
    ops: A,
    name: Seq<char>,
    host: Seq<T>,
    device: Seq<T>,
    row: ValidationRow<T>,
) -> bool {
    &&& row.name@ == name
    &&& fits(ops, max_diff_of(host, device), row.max_diff)
    &&& exists|tolerance: T| #[trigger]
        fits(ops, Expr::Ratio(1, 10000), tolerance) && test_is(
            ops,
            Test::Exceeds,
            tolerance,
            row.max_diff,
            row.passed,
        )
}

fn compare<T: Copy, A: Arith<T>>(ops: &A, name: &'static str, host: &[T], device: &[T]) -> (row:
    ValidationRow<T>)
    ensures
        compared(*ops, name@, host@, device@, row),
{
    let diff: T = max_diff(ops, host, device);
    let tolerance: Traced<T> = Traced::ratio(ops, 1, 10000);
    let passed: bool = ops.exceeds(tolerance.v, diff);
    assert(fits(*ops, Expr::Ratio(1, 10000), tolerance.v));
    assert(test_is(*ops, Test::Exceeds, tolerance.v, diff, passed));
    ValidationRow { name, max_diff: diff, passed }
}

/// Biases that grow by a hundredth.
pub open spec fn ramp_of<T>(n: int) -> Seq<Expr<T>> {
    Seq::new(n as nat, |i: int| times(Expr::Count(i as usize), Expr::Ratio(1, 100)))
}

fn ramp<T: Copy, A: Arith<T>>(ops: &A, n: usize) -> (out: Vec<T>)
    ensures
        fits_all(*ops, ramp_of(n as int), out@),
{
    let one = |i: usize| -> (r: Traced<T>)
        requires
            i < n,
        ensures
            r.ok(*ops),
            r.e@ == entry(ramp_of::<T>(n as int), i),
        { Traced::count(ops, i).times(ops, Traced::ratio(ops, 1, 100)) };
    build(ops, n, Ghost(ramp_of::<T>(n as int)), one).v
}

/// A square linear layer was asked of the device and compared.
pub open spec fn linear_validated<T: Copy, A: Arith<T>, F: Fn(&Vec<Vec<T>>, &Vec<T>, &Vec<T>) -> Vec<
    T,
>>(ops: A, device: F, row: ValidationRow<T>) -> bool {
    exists|w: Vec<Vec<T>>, b: Vec<T>, x: Vec<T>, host: Seq<T>, y: Vec<T>|
        {
            &&& rows_fit(ops, grid_of(false, 1, 1000, 128, 128), w@)
            &&& fits_all(ops, ramp_of(128), b@)
            &&& fits_all(ops, samples_of(true, 1, 100, 128), x@)
            &&& #[trigger] call_ensures(device, (&w, &b, &x), y)
            &&& fits_all(ops, linear_of(w@, b@, vals(x@)), host)
            &&& #[trigger] compared(ops, "linear (128→128, bias)"@, host, y@, row)
        }
}

/// Compares a square linear layer with a bias.
pub fn validate_linear<T: Copy, A: Arith<T>, F: Fn(&Vec<Vec<T>>, &Vec<T>, &Vec<T>) -> Vec<T>>(
    ops: &A,
    device: F,
) -> (row: ValidationRow<T>)
    requires
        forall|w: &Vec<Vec<T>>, b: &Vec<T>, x: &Vec<T>|
            w@.len() == 128 && rows_width(w@, 128) && b@.len() == 128 && x@.len() == 128
                ==> #[trigger] call_requires(device, (w, b, x)),
    ensures
        linear_validated(*ops, device, row),
{
    let w: Vec<Vec<T>> = grid(ops, false, 1, 1000, 128, 128);
    let b: Vec<T> = ramp(ops, 128);
    let x: Vec<T> = samples(ops, true, 1, 100, 128);
    let host: Vec<T> = linear_fn(ops, &w, b.as_slice(), x.as_slice());
    let y: Vec<T> = device(&w, &b, &x);
    compare(ops, "linear (128→128, bias)", host.as_slice(), y.as_slice())
}

/// A linear layer without a bias was asked of the device and compared.
pub open spec fn scores_validated<T: Copy, A: Arith<T>, F: Fn(&Vec<Vec<T>>, &Vec<T>) -> Vec<T>>(
    ops: A,
    device: F,
    row: ValidationRow<T>,
) -> bool {
    exists|w: Vec<Vec<T>>, x: Vec<T>, host: Seq<T>, y: Vec<T>|
        {
            &&& rows_fit(ops, grid_of(true, 7, 10000, 384, 128), w@)
            &&& fits_all(ops, samples_of(false, 3, 100, 128), x@)
            &&& #[trigger] call_ensures(device, (&w, &x), y)
            &&& fits_all(ops, scores_of(w@, vals(x@)), host)
            &&& #[trigger] compared(ops, "linear_no_bias (384→128)"@, host, y@, row)
        }
}

/// Compares a linear layer without a bias, as large as the projection to queries, keys and
/// values.
pub fn validate_linear_no_bias<T: Copy, A: Arith<T>, F: Fn(&Vec<Vec<T>>, &Vec<T>) -> Vec<T>>(
    ops: &A,
    device: F,
) -> (row: ValidationRow<T>)
    requires
        forall|w: &Vec<Vec<T>>, x: &Vec<T>|
            w@.len() == 384 && rows_width(w@, 128) && x@.len() == 128
                ==> #[trigger] call_requires(device, (w, x)),
    ensures
        scores_validated(*ops, device, row),
{
    let w: Vec<Vec<T>> = grid(ops, true, 7, 10000, 384, 128);
    let x: Vec<T> = samples(ops, false, 3, 100, 128);
    let host: TracedVec<T> = scores_on(ops, &w, &traced(ops, x.as_slice()));
    let y: Vec<T> = device(&w, &x);
    compare(ops, "linear_no_bias (384→128)", host.v.as_slice(), y.as_slice())
}

/// `base + size * wave` at each index, or `size * wave` where there is no base.
pub open spec fn swing_of<T>(
    base: bool,
    sine: bool,
    num: u64,
    den: u64,
    size_num: u64,
    size_den: u64,
    n: int,
) -> Seq<Expr<T>> {
    Seq::new(
        n as nat,
        |i: int|
            {
                let swing = times(sample_of(sine, num, den, i), Expr::Ratio(size_num, size_den));
                if base {
                    plus(Expr::Ratio(1, 1), swing)
                } else {
                    swing
                }
            },
    )
}

fn swing<T: Copy, A: Arith<T>>(
    ops: &A,
    base: bool,
    sine: bool,
    num: u64,
    den: u64,
    size_num: u64,
    size_den: u64,
    n: usize,
) -> (out: Vec<T>)
    ensures
        fits_all(*ops, swing_of(base, sine, num, den, size_num, size_den, n as int), out@),
{
    let one = |i: usize| -> (r: Traced<T>)
        requires
            i < n,
        ensures
            r.ok(*ops),
            r.e@ == entry(
                swing_of::<T>(base, sine, num, den, size_num, size_den, n as int),
                i,
            ),
        {
            let s: Traced<T> = sample_on(ops, sine, num, den, i).times(
                ops,
                Traced::ratio(ops, size_num, size_den),
            );
            if base {
                Traced::ratio(ops, 1, 1).plus(ops, s)
            } else {
                s
            }
        };
    build(
        ops,
        n,
        Ghost(swing_of::<T>(base, sine, num, den, size_num, size_den, n as int)),
        one,
    ).v
}

/// A normalisation was asked of the device and compared.
pub open spec fn norm_validated<T: Copy, A: Arith<T>, F: Fn(&Vec<T>, &Vec<T>, &Vec<T>) -> Vec<T>>(
    ops: A,
    device: F,
    row: ValidationRow<T>,
) -> bool {
    exists|x: Vec<T>, weight: Vec<T>, bias: Vec<T>, host: Seq<T>, y: Vec<T>|
        {
            &&& fits_all(ops, swing_of(false, true, 5, 100, 2, 1, 128), x@)
            &&& fits_all(ops, swing_of(true, false, 1, 100, 1, 10, 128), weight@)
            &&& fits_all(ops, swing_of(false, true, 2, 100, 5, 100, 128), bias@)
            &&& #[trigger] call_ensures(device, (&x, &weight, &bias), y)
            &&& fits_all(ops, norm_of(vals(x@), weight@, bias@), host)
            &&& #[trigger] compared(ops, "layer_norm (dim=128)"@, host, y@, row)
        }
}

/// Compares a normalisation.
pub fn validate_layer_norm<T: Copy, A: Arith<T>, F: Fn(&Vec<T>, &Vec<T>, &Vec<T>) -> Vec<T>>(
    ops: &A,
    device: F,
) -> (row: ValidationRow<T>)
    requires
        forall|x: &Vec<T>, w: &Vec<T>, b: &Vec<T>|
            x@.len() == 128 && w@.len() == 128 && b@.len() == 128 ==> #[trigger] call_requires(
                device,
                (x, w, b),
            ),
    ensures
        norm_validated(*ops, device, row),
{
    let x: Vec<T> = swing(ops, false, true, 5, 100, 2, 1, 128);
    let weight: Vec<T> = swing(ops, true, false, 1, 100, 1, 10, 128);
    let bias: Vec<T> = swing(ops, false, true, 2, 100, 5, 100, 128);
    let host: Vec<T> = layer_norm(ops, x.as_slice(), weight.as_slice(), bias.as_slice());
    let y: Vec<T> = device(&x, &weight, &bias);
    compare(ops, "layer_norm (dim=128)", host.as_slice(), y.as_slice())
}

/// Damping that grows with the band from minus two, before it is made positive.
pub open spec fn damping_of<T>(num: u64, den: u64, n: int) -> Seq<Expr<T>> {
    Seq::new(
        n as nat,
        |k: int|
            plus(
                un(Unary::Negated, Expr::Ratio(2, 1)),
                times(Expr::Count(k as usize), Expr::Ratio(num, den)),
            ),
    )
}

/// Frequencies from zero up to one.
pub open spec fn tones_of<T>(n: int) -> Seq<Expr<T>> {
    Seq::new(n as nat, |k: int| over(Expr::Count(k as usize), Expr::Count(n as usize)))
}

/// An ODE to be integrated on both sides.
pub open spec fn test_medium<T: Copy, A: Arith<T>>(
    ops: A,
    w: KerrWeights<T>,
    n: int,
    steps: int,
    num: u64,
    den: u64,
) -> bool {
    &&& fits_all(ops, damping_of(num, den, n), w.gamma_raw@)
    &&& fits_all(ops, tones_of(n), w.omega@)
    &&& fits(ops, Expr::Ratio(1, 10), w.alpha)
    &&& fits(ops, Expr::Ratio(1, 10), w.beta)
    &&& fits(ops, crate::arith::zero(), w.chi)
    &&& w.rk4_n_steps == steps
}

fn medium<T: Copy, A: Arith<T>>(ops: &A, n: usize, steps: usize, num: u64, den: u64) -> (w:
    KerrWeights<T>)
    requires
        2 * n <= usize::MAX,
    ensures
        test_medium(*ops, w, n as int, steps as int, num, den),
        kerr_shaped(w, n as int),
{
    let tenth: Traced<T> = Traced::ratio(ops, 1, 10);
    let mut w: KerrWeights<T> = init_kerr(&init_values(ops, n, tenth.v, tenth.v), n, steps);
    let loss = |k: usize| -> (r: Traced<T>)
        requires
            k < n,
        ensures
            r.ok(*ops),
            r.e@ == entry(damping_of::<T>(num, den, n as int), k),
        {
            Traced::ratio(ops, 2, 1).negated(ops).plus(
                ops,
                Traced::count(ops, k).times(ops, Traced::ratio(ops, num, den)),
            )
        };
    let tone = |k: usize| -> (r: Traced<T>)
        requires
            k < n,
        ensures
            r.ok(*ops),
            r.e@ == entry(tones_of::<T>(n as int), k),
        { Traced::count(ops, k).over(ops, Traced::count(ops, n)) };
    w.gamma_raw = build(ops, n, Ghost(damping_of::<T>(num, den, n as int)), loss).v;
    w.omega = build(ops, n, Ghost(tones_of::<T>(n as int)), tone).v;
    w
}

/// A state whose bands all have half of a unit, each a tenth further on.
pub open spec fn pulses_of<T>(n: int) -> Seq<Expr<T>> {
    Seq::new(
        (2 * n) as nat,
        |i: int| times(sample_of(i % 2 == 1, 1, 10, i / 2), Expr::Ratio(1, 2)),
    )
}

fn pulses<T: Copy, A: Arith<T>>(ops: &A, n: usize) -> (out: Vec<T>)
    requires
        2 * n <= usize::MAX,
    ensures
        fits_all(*ops, pulses_of(n as int), out@),
{
    let one = |i: usize| -> (r: Traced<T>)
        requires
            i < 2 * n,
        ensures
            r.ok(*ops),
            r.e@ == entry(pulses_of::<T>(n as int), i),
        { sample_on(ops, i % 2 == 1, 1, 10, i / 2).times(ops, Traced::ratio(ops, 1, 2)) };
    build(ops, 2 * n, Ghost(pulses_of::<T>(n as int)), one).v
}

/// An integration was asked of the device and compared.
pub open spec fn ode_validated<T: Copy, A: Arith<T>, F: Fn(&KerrWeights<T>, &Vec<T>) -> Vec<T>>(
    ops: A,
    device: F,
    row: ValidationRow<T>,
) -> bool {
    exists|w: KerrWeights<T>, x: Vec<T>, host: Seq<T>, y: Vec<T>|
        {
            &&& test_medium(ops, w, N_BANDS as int, RK4_N_STEPS as int, 5, 100)
            &&& fits_all(ops, pulses_of(N_BANDS as int), x@)
            &&& #[trigger] call_ensures(device, (&w, &x), y)
            &&& fits_all(ops, kerr_of(w, vals(x@), None), host)
            &&& #[trigger] compared(ops, "kerr_ode (RK4, 8 steps)"@, host, y@, row)
        }
}

/// Compares a whole integration of the ODE.
pub fn validate_kerr_ode<T: Copy, A: Arith<T>, F: Fn(&KerrWeights<T>, &Vec<T>) -> Vec<T>>(
    ops: &A,
    device: F,
) -> (row: ValidationRow<T>)
    requires
        forall|w: &KerrWeights<T>, x: &Vec<T>|
            kerr_shaped(*w, N_BANDS as int) && x@.len() == 2 * N_BANDS
                ==> #[trigger] call_requires(device, (w, x)),
    ensures
        ode_validated(*ops, device, row),
{
    let w: KerrWeights<T> = medium(ops, N_BANDS, RK4_N_STEPS, 5, 100);
    let x: Vec<T> = pulses(ops, N_BANDS);
    let host: TracedVec<T> = kerr_on(ops, &w, &traced(ops, x.as_slice()), None);
    let y: Vec<T> = device(&w, &x);
    compare(ops, "kerr_ode (RK4, 8 steps)", host.v.as_slice(), y.as_slice())
}

/// Rows one after the other.
pub open spec fn chain<T>(rows: Seq<Vec<T>>, n: int) -> Seq<T>
    decreases n,
{
    if n <= 0 {
        Seq::empty()
    } else {
        chain(rows, n - 1) + rows[n - 1]@
    }
}

fn chained<T: Copy>(rows: &Vec<Vec<T>>) -> (out: Vec<T>)
    ensures
        out@ == chain(rows@, rows@.len() as int),
{
    let n: usize = rows.len();
    let mut out: Vec<T> = Vec::new();
    let mut i: usize = 0;
    while i < n
        invariant
            n == rows@.len(),
            i <= n,
            out@ == chain(rows@, i as int),
        decreases n - i,
    {
        extend_from(&mut out, rows[i].as_slice());
        i += 1;
    }
    out
}

/// A device that answers each position with as many numbers as it was given.
pub open spec fn answers_in_shape<T, F: Fn(&KerrWeights<T>, &Vec<Vec<T>>) -> Vec<Vec<T>>>(
    device: F,
) -> bool {
    forall|w: &KerrWeights<T>, xs: &Vec<Vec<T>>, ys: Vec<Vec<T>>| #[trigger]
        call_ensures(device, (w, xs), ys) ==> {
            &&& ys@.len() == xs@.len()
            &&& forall|p: int|
                0 <= p < ys@.len() ==> (#[trigger] ys@[p])@.len() == xs@[p]@.len()
        }
}

/// The integrations of several positions.
pub open spec fn integrated<T: Copy, A: Arith<T>>(
    ops: A,
    w: KerrWeights<T>,
    xs: Seq<Vec<T>>,
    host: Seq<Vec<T>>,
) -> bool {
    &&& host.len() == xs.len()
    &&& forall|p: int|
        0 <= p < xs.len() ==> fits_all(
            ops,
            kerr_of(w, vals(xs[p]@), None),
            (#[trigger] host[p])@,
        )
}

/// Integrations of several positions in one dispatch were asked of the device and compared.
pub open spec fn batch_validated<
    T: Copy,
    A: Arith<T>,
    F: Fn(&KerrWeights<T>, &Vec<Vec<T>>) -> Vec<Vec<T>>,
>(
    ops: A,
    device: F,
    name: Seq<char>,
    n: int,
    steps: int,
    damping: (u64, u64),
    wave: (u64, u64),
    row: ValidationRow<T>,
) -> bool {
    exists|w: KerrWeights<T>, xs: Vec<Vec<T>>, host: Seq<Vec<T>>, ys: Vec<Vec<T>>|
        {
            &&& test_medium(ops, w, n, steps, damping.0, damping.1)
            &&& rows_fit(ops, grid_of(true, wave.0, wave.1, 4, 2 * n), xs@)
            &&& #[trigger] call_ensures(device, (&w, &xs), ys)
            &&& integrated(ops, w, xs@, host)
            &&& #[trigger] compared(
                ops,
                name,
                chain(host, host.len() as int),
                chain(ys@, ys@.len() as int),
                row,
            )
        }
}

fn validate_batch<T: Copy, A: Arith<T>, F: Fn(&KerrWeights<T>, &Vec<Vec<T>>) -> Vec<Vec<T>>>(
    ops: &A,
    device: &F,
    name: &'static str,
    n: usize,
    steps: usize,
    damping: (u64, u64),
    wave: (u64, u64),
) -> (row: ValidationRow<T>)
    requires
        n <= 1000,
        forall|w: &KerrWeights<T>, xs: &Vec<Vec<T>>|
            kerr_shaped(*w, n as int) && xs@.len() == 4 && rows_width(xs@, 2 * n)
                ==> #[trigger] call_requires(*device, (w, xs)),
        answers_in_shape(*device),
    ensures
        batch_validated(*ops, *device, name@, n as int, steps as int, damping, wave, row),
{
    let w: KerrWeights<T> = medium(ops, n, steps, damping.0, damping.1);
    let xs: Vec<Vec<T>> = grid(ops, true, wave.0, wave.1, 4, 2 * n);
    let positions: usize = xs.len();
    let mut host: Vec<Vec<T>> = Vec::new();
    let mut p: usize = 0;
    while p < positions
        invariant
            positions == xs@.len(),
            p <= positions,
            rows_width(xs@, 2 * n),
            kerr_shaped(w, n as int),
            host@.len() == p,
            forall|k: int|
                0 <= k < p ==> fits_all(
                    *ops,
                    kerr_of(w, vals(xs@[k]@), None),
                    (#[trigger] host@[k])@,
                ),
        decreases positions - p,
    {
        assert(xs@[p as int]@.len() == 2 * n);
        let y: TracedVec<T> = kerr_on(ops, &w, &traced(ops, xs[p].as_slice()), None);
        host.push(y.v);
        p += 1;
    }
    let ys: Vec<Vec<T>> = device(&w, &xs);
    let a: Vec<T> = chained(&host);
    let b: Vec<T> = chained(&ys);
    let row: ValidationRow<T> = compare(ops, name, a.as_slice(), b.as_slice());
    assert(integrated(*ops, w, xs@, host@));
    row
}

/// Compares integrations of four positions at once, with many bands and with few.
pub fn validate_fused<T: Copy, A: Arith<T>, F: Fn(&KerrWeights<T>, &Vec<Vec<T>>) -> Vec<Vec<T>>>(
    ops: &A,
    device: F,
) -> (rows: (ValidationRow<T>, ValidationRow<T>))
    requires
        forall|w: &KerrWeights<T>, xs: &Vec<Vec<T>>|
            xs@.len() == 4 && (kerr_shaped(*w, 384) && rows_width(xs@, 768) || kerr_shaped(*w, 64)
                && rows_width(xs@, 128)) ==> #[trigger] call_requires(device, (w, xs)),
        answers_in_shape(device),
    ensures
        batch_validated(
            *ops,
            device,
            "fused_rk4_large (384 bands, 4 pos)"@,
            384,
            16,
            (1, 100),
            (3, 1000),
            rows.0,
        ),
        batch_validated(
            *ops,
            device,
            "fused_rk4_large (64 bands, 4 pos)"@,
            64,
            8,
            (5, 100),
            (1, 100),
            rows.1,
        ),
{
    let large: ValidationRow<T> = validate_batch(
        ops,
        &device,
        "fused_rk4_large (384 bands, 4 pos)",
        384,
        16,
        (1, 100),
        (3, 1000),
    );
    let small: ValidationRow<T> = validate_batch(
        ops,
        &device,
        "fused_rk4_large (64 bands, 4 pos)",
        64,
        8,
        (5, 100),
        (1, 100),
    );
    (large, small)
}

} // verus!
