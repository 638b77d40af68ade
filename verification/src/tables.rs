//! The frozen tables of a model and the values that its fresh weights have.

use vstd::prelude::*;
use crate::arith::{Arith, Traced, TracedVec, build};
#[allow(unused_imports)]
use crate::arith::{
    Expr, Unary, entry, fits, fits_all, minus, one, over, raised, times, un, val, zero,
};
use crate::attention::{build_rows, untraced_rows};
#[allow(unused_imports)]
use crate::attention::{row_entry, rows_fit};
use crate::config::N_EMBD;
use crate::layers::softplus_on;
#[allow(unused_imports)]
use crate::layers::softplus_of;
use crate::model::InitValues;

verus! {

/// One over the root of a number.
pub open spec fn inverse_root<T>(n: usize) -> Expr<T> {
    over(one(), un(Unary::Root, Expr::Count(n)))
}

fn inverse_root_on<T: Copy, A: Arith<T>>(ops: &A, n: usize) -> (out: Traced<T>)
    ensures
        out.ok(*ops),
        out.e@ == inverse_root::<T>(n),
{
    Traced::ratio(ops, 1, 1).over(ops, Traced::count(ops, n).root(ops))
}

/// The bound of random weights: one over the root of the number of inputs.
pub fn draw_limit<T: Copy, A: Arith<T>>(ops: &A, fan_in: usize) -> (out: T)
    ensures
        fits(*ops, inverse_root(fan_in), out),
{
    inverse_root_on(ops, fan_in).v
}

/// The wave of a harmonic at a token: cosine and sine of the harmonic's multiple of the
/// token's place on the circle.
pub open spec fn harmonic_angle<T>(vocab: usize, c: int, h: int) -> Expr<T> {
    times(
        Expr::Count((h + 1) as usize),
        over(
            times(times(Expr::Count(c as usize), Expr::Ratio(2, 1)), Expr::Pi),
            Expr::Count(vocab),
        ),
    )
}

/// Component `i` of a row of waves at given angles: cosines and sines alternate, and an odd
/// last component is zero.
pub open spec fn wave_entry<T>(angles: spec_fn(int) -> Expr<T>, n_embd: usize, i: int) -> Expr<T> {
    let nh = (n_embd / 2) as usize;
    if i / 2 >= nh {
        zero()
    } else if i % 2 == 0 {
        times(un(Unary::Cos, angles(i / 2)), inverse_root(nh))
    } else {
        times(un(Unary::Sin, angles(i / 2)), inverse_root(nh))
    }
}

/// The row of a token in the harmonic table.
pub open spec fn harmonic_row<T>(vocab: usize, n_embd: usize, c: int) -> Seq<Expr<T>> {
    Seq::new(
        n_embd as nat,
        |i: int| wave_entry(|h: int| harmonic_angle(vocab, c, h), n_embd, i),
    )
}

/// The harmonic table.
pub open spec fn harmonic_table<T>(vocab: usize, n_embd: usize) -> Seq<Seq<Expr<T>>> {
    Seq::new(vocab as nat, |c: int| harmonic_row(vocab, n_embd, c))
}

fn wave_on<T: Copy, A: Arith<T>>(ops: &A, angle: Traced<T>, scale: Traced<T>, cosine: bool) -> (out:
    Traced<T>)
    requires
        angle.ok(*ops),
        scale.ok(*ops),
    ensures
        out.ok(*ops),
        out.e@ == times(
            un(
                if cosine {
                    Unary::Cos
                } else {
                    Unary::Sin
                },
                angle.e@,
            ),
            scale.e@,
        ),
{
    if cosine {
        angle.cos(ops).times(ops, scale)
    } else {
        angle.sin(ops).times(ops, scale)
    }
}

/// The frozen harmonic embedding: token `c` of a vocabulary stands at its place on the
/// circle, and every band carries a harmonic of it.
pub fn build_harmonic_table_sized<T: Copy, A: Arith<T>>(ops: &A, vocab_size: usize, n_embd: usize) -> (table:
    Vec<Vec<T>>)
    ensures
        rows_fit(*ops, harmonic_table(vocab_size, n_embd), table@),
{
    let nh: usize = n_embd / 2;
    let scale: Traced<T> = inverse_root_on(ops, nh);
    let f = |c: usize| -> (r: TracedVec<T>)
        requires
            c < vocab_size,
        ensures
            r.ok(*ops),
            r.e@ == row_entry(harmonic_table::<T>(vocab_size, n_embd), c),
    {
        let theta: Traced<T> = Traced::count(ops, c).times(ops, Traced::ratio(ops, 2, 1)).times(
            ops,
            Traced::pi(ops),
        ).over(ops, Traced::count(ops, vocab_size));
        let g = |i: usize| -> (x: Traced<T>)
            requires
                i < n_embd,
            ensures
                x.ok(*ops),
                x.e@ == entry(harmonic_row::<T>(vocab_size, n_embd, c as int), i),
        {
            if i / 2 >= nh {
                Traced::ratio(ops, 0, 1)
            } else {
                wave_on(ops, Traced::count(ops, i / 2 + 1).times(ops, theta), scale, i % 2 == 0)
            }
        };
        build(ops, n_embd, Ghost(harmonic_row::<T>(vocab_size, n_embd, c as int)), g)
    };
    let rows: Vec<TracedVec<T>> = build_rows(
        ops,
        vocab_size,
        Ghost(harmonic_table::<T>(vocab_size, n_embd)),
        f,
    );
    untraced_rows(ops, rows)
}

/// The frozen harmonic embedding at the default width.
pub fn build_harmonic_table<T: Copy, A: Arith<T>>(ops: &A, vocab_size: usize) -> (table: Vec<Vec<T>>)
    ensures
        rows_fit(*ops, harmonic_table(vocab_size, N_EMBD), table@),
{
    build_harmonic_table_sized(ops, vocab_size, N_EMBD)
}

/// The angle of a position at a frequency.
pub open spec fn position_angle<T>(n_embd: usize, pos: int, h: int) -> Expr<T> {
    let power = over(
        times(Expr::Ratio(2, 1), Expr::Count(h as usize)),
        Expr::Count(n_embd),
    );
    times(Expr::Count(pos as usize), over(one(), raised(Expr::Ratio(10000, 1), power)))
}

/// The row of a position in the positional table.
pub open spec fn positional_row<T>(n_embd: usize, pos: int) -> Seq<Expr<T>> {
    Seq::new(
        n_embd as nat,
        |i: int| wave_entry(|h: int| position_angle(n_embd, pos, h), n_embd, i),
    )
}

/// The positional table.
pub open spec fn positional_table<T>(block_size: usize, n_embd: usize) -> Seq<Seq<Expr<T>>> {
    Seq::new(block_size as nat, |pos: int| positional_row(n_embd, pos))
}

/// The positional encoding: every band carries the position at a frequency of its own.
pub fn build_positional_table<T: Copy, A: Arith<T>>(ops: &A, block_size: usize, n_embd: usize) -> (table:
    Vec<Vec<T>>)
    ensures
        rows_fit(*ops, positional_table(block_size, n_embd), table@),
{
    let nh: usize = n_embd / 2;
    let scale: Traced<T> = inverse_root_on(ops, nh);
    let f = |pos: usize| -> (r: TracedVec<T>)
        requires
            pos < block_size,
        ensures
            r.ok(*ops),
            r.e@ == row_entry(positional_table::<T>(block_size, n_embd), pos),
    {
        let g = |i: usize| -> (x: Traced<T>)
            requires
                i < n_embd,
            ensures
                x.ok(*ops),
                x.e@ == entry(positional_row::<T>(n_embd, pos as int), i),
        {
            if i / 2 >= nh {
                Traced::ratio(ops, 0, 1)
            } else {
                let power: Traced<T> = Traced::ratio(ops, 2, 1).times(
                    ops,
                    Traced::count(ops, i / 2),
                ).over(ops, Traced::count(ops, n_embd));
                let freq: Traced<T> = Traced::ratio(ops, 1, 1).over(
                    ops,
                    Traced::ratio(ops, 10000, 1).raised(ops, power),
                );
                wave_on(ops, Traced::count(ops, pos).times(ops, freq), scale, i % 2 == 0)
            }
        };
        build(ops, n_embd, Ghost(positional_row::<T>(n_embd, pos as int)), g)
    };
    let rows: Vec<TracedVec<T>> = build_rows(
        ops,
        block_size,
        Ghost(positional_table::<T>(block_size, n_embd)),
        f,
    );
    untraced_rows(ops, rows)
}

/// Frequencies that rise to one.
pub open spec fn fresh_omega<T>(n: int) -> Seq<Expr<T>> {
    Seq::new(n as nat, |k: int| over(Expr::Count((k + 1) as usize), Expr::Count(n as usize)))
}

/// The values of fresh weights: the damping is a tenth behind the softplus, the frequencies
/// rise to one, and the slopes of a step have their standard weights.
pub open spec fn values_fit<T: Copy, A: Arith<T>>(ops: A, n_bands: int, v: InitValues<T>) -> bool {
    &&& fits(ops, one(), v.one)
    &&& fits(ops, zero(), v.zero)
    &&& fits(
        ops,
        un(Unary::Ln, minus(un(Unary::Exp, Expr::Ratio(1, 10)), one())),
        v.gamma_raw,
    )
    &&& fits_all(ops, fresh_omega(n_bands), v.omega@)
    &&& fits(ops, Expr::Ratio(1, 6), v.rk4_weights[0])
    &&& fits(ops, Expr::Ratio(1, 3), v.rk4_weights[1])
    &&& fits(ops, Expr::Ratio(1, 3), v.rk4_weights[2])
    &&& fits(ops, Expr::Ratio(1, 6), v.rk4_weights[3])
}

/// The values of fresh weights with given coupling strengths.
pub fn init_values<T: Copy, A: Arith<T>>(ops: &A, n_bands: usize, alpha: T, beta: T) -> (v: InitValues<T>)
    ensures
        values_fit(*ops, n_bands as int, v),
        v.alpha == alpha,
        v.beta == beta,
{
    let f = |k: usize| -> (r: Traced<T>)
        requires
            k < n_bands,
        ensures
            r.ok(*ops),
            r.e@ == entry(fresh_omega::<T>(n_bands as int), k),
    {
        Traced::count(ops, k + 1).over(ops, Traced::count(ops, n_bands))
    };
    let omega: TracedVec<T> = build(ops, n_bands, Ghost(fresh_omega::<T>(n_bands as int)), f);
    let unit: Traced<T> = Traced::ratio(ops, 1, 1);
    let nought: Traced<T> = Traced::ratio(ops, 0, 1);
    let gamma_raw: Traced<T> = Traced::ratio(ops, 1, 10).exp(ops).minus(ops, unit).ln(ops);
    let sixth: Traced<T> = Traced::ratio(ops, 1, 6);
    let third: Traced<T> = Traced::ratio(ops, 1, 3);
    InitValues {
        one: unit.v,
        zero: nought.v,
        gamma_raw: gamma_raw.v,
        omega: omega.v,
        alpha,
        beta,
        rk4_weights: [sixth.v, third.v, third.v, sixth.v],
    }
}

/// The values of fresh weights of the reference model: both couplings are a tenth.
pub fn default_init_values<T: Copy, A: Arith<T>>(ops: &A, n_bands: usize) -> (v: InitValues<T>)
    ensures
        values_fit(*ops, n_bands as int, v),
        fits(*ops, Expr::Ratio(1, 10), v.alpha),
        fits(*ops, Expr::Ratio(1, 10), v.beta),
{
    let tenth: Traced<T> = Traced::ratio(ops, 1, 10);
    init_values(ops, n_bands, tenth.v, tenth.v)
}

/// How much of a wave is left after one unit of time: `exp(-softplus(g))` for each band.
pub open spec fn decays_of<T>(gamma_raw: Seq<T>) -> Seq<Expr<T>> {
    Seq::new(
        gamma_raw.len(),
        |k: int| un(Unary::Exp, un(Unary::Negated, softplus_of(val(gamma_raw[k])))),
    )
}

/// A function of each frequency.
pub open spec fn tuned_of<T>(f: Unary, omega: Seq<T>) -> Seq<Expr<T>> {
    Seq::new(omega.len(), |k: int| un(f, val(omega[k])))
}

/// What a device that rotates and damps all bands at once is given: the decays, and the
/// cosines and sines of the frequencies.
pub fn rotation_tables<T: Copy, A: Arith<T>>(ops: &A, gamma_raw: &[T], omega: &[T]) -> (tables: (
    Vec<T>,
    Vec<T>,
    Vec<T>,
))
    ensures
        fits_all(*ops, decays_of(gamma_raw@), tables.0@),
        fits_all(*ops, tuned_of(Unary::Cos, omega@), tables.1@),
        fits_all(*ops, tuned_of(Unary::Sin, omega@), tables.2@),
{
    let n: usize = gamma_raw.len();
    let m: usize = omega.len();
    let decay = |k: usize| -> (r: Traced<T>)
        requires
            k < n,
        ensures
            r.ok(*ops),
            r.e@ == entry(decays_of(gamma_raw@), k),
        { softplus_on(ops, Traced::of(ops, gamma_raw[k])).negated(ops).exp(ops) };
    let cosine = |k: usize| -> (r: Traced<T>)
        requires
            k < m,
        ensures
            r.ok(*ops),
            r.e@ == entry(tuned_of(Unary::Cos, omega@), k),
        { Traced::of(ops, omega[k]).cos(ops) };
    let sine = |k: usize| -> (r: Traced<T>)
        requires
            k < m,
        ensures
            r.ok(*ops),
            r.e@ == entry(tuned_of(Unary::Sin, omega@), k),
        { Traced::of(ops, omega[k]).sin(ops) };
    let decays: TracedVec<T> = build(ops, n, Ghost(decays_of(gamma_raw@)), decay);
    let cosines: TracedVec<T> = build(ops, m, Ghost(tuned_of(Unary::Cos, omega@)), cosine);
    let sines: TracedVec<T> = build(ops, m, Ghost(tuned_of(Unary::Sin, omega@)), sine);
    (decays.v, cosines.v, sines.v)
}

} // verus!
