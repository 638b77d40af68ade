//! The loss of a state that is compared with the embeddings themselves, and the decoder
//! that goes with it.

use vstd::prelude::*;
use crate::arith::{Arith, Traced, TracedVec};
#[allow(unused_imports)]
use crate::arith::{
    Expr, Unary, dot_of, fits, fits_all, larger, minus, one, over, plus, times, un, val, vals, zero,
};
use crate::attention::softmax_on;
#[allow(unused_imports)]
use crate::attention::softmax_of;
use crate::layers::{score, traced};
use crate::proj::matrix_column;
#[allow(unused_imports)]
use crate::proj::column_vals;
use crate::seqs::take;

verus! {

/// A state whose bands are turned, each by its own angle.
pub open spec fn turned_of<T>(hidden: Seq<Expr<T>>, angles: Seq<Expr<T>>) -> Seq<Expr<T>> {
    Seq::new(
        2 * angles.len(),
        |i: int|
            {
                let c = un(Unary::Cos, angles[i / 2]);
                let s = un(Unary::Sin, angles[i / 2]);
                if i % 2 == 0 {
                    minus(times(hidden[i], c), times(hidden[i + 1], s))
                } else {
                    plus(times(hidden[i - 1], s), times(hidden[i], c))
                }
            },
    )
}

/// A state whose bands are turned, traced.
pub fn turned_on<T: Copy, A: Arith<T>>(
    ops: &A,
    hidden: &TracedVec<T>,
    angles: &TracedVec<T>,
    n: usize,
) -> (out: TracedVec<T>)
    requires
        hidden.ok(*ops),
        angles.ok(*ops),
        n == angles.v@.len(),
        2 * n <= hidden.v@.len(),
    ensures
        out.ok(*ops),
        out.e@ == turned_of(hidden.e@, angles.e@),
{
    let total: usize = hidden.len();
    let ghost es = turned_of(hidden.e@, angles.e@);
    let mut out: TracedVec<T> = TracedVec::new(ops);
    let mut k: usize = 0;
    assert(out.e@ =~= es.take(0));
    while k < n
        invariant
            hidden.ok(*ops),
            angles.ok(*ops),
            total == hidden.v@.len(),
            n == angles.v@.len(),
            2 * n <= total,
            es == turned_of(hidden.e@, angles.e@),
            k <= n,
            out.ok(*ops),
            out.e@ == es.take(2 * k),
        decreases n - k,
    {
        let a: Traced<T> = angles.get(ops, k);
        let s: Traced<T> = a.sin(ops);
        let c: Traced<T> = a.cos(ops);
        let x: Traced<T> = hidden.get(ops, k * 2);
        let y: Traced<T> = hidden.get(ops, k * 2 + 1);
        let first: Traced<T> = x.times(ops, c).minus(ops, y.times(ops, s));
        let second: Traced<T> = x.times(ops, s).plus(ops, y.times(ops, c));
        proof {
            assert((2 * k) / 2 == k && (2 * k) % 2 == 0);
            assert((2 * k + 1) / 2 == k && (2 * k + 1) % 2 == 1);
            assert(es[2 * k] == first.e@);
            assert(es[2 * k + 1] == second.e@);
        }
        out.push(ops, first);
        out.push(ops, second);
        k += 1;
        assert(out.e@ =~= es.take(2 * k));
    }
    assert(es.take(2 * n) =~= es);
    out
}

/// What a loss depends on: the temperature, and whether scores are scaled down by the root
/// of the state's width.
pub struct Tuning<T> {
    pub temperature: Expr<T>,
    pub scaled: bool,
}

/// One over the root of a state's width.
pub open spec fn width_scale<T>(n_embd: usize) -> Expr<T> {
    over(one(), un(Unary::Root, Expr::Count(n_embd)))
}

/// A score as the loss takes it.
pub open spec fn tuned<T>(x: Expr<T>, t: Tuning<T>, n_embd: usize) -> Expr<T> {
    if t.scaled {
        over(times(x, width_scale(n_embd)), t.temperature)
    } else {
        over(x, t.temperature)
    }
}

/// The scores of a turned state against the embeddings.
pub open spec fn coherences_of<T>(
    turned: Seq<Expr<T>>,
    embeddings: Seq<Vec<T>>,
    t: Tuning<T>,
) -> Seq<Expr<T>> {
    Seq::new(
        embeddings.len(),
        |v: int|
            tuned(dot_of(zero(), turned, vals(embeddings[v]@)), t, turned.len() as usize),
    )
}

/// The negated logarithm of the target's share, which counts as no less than `floor`.
pub open spec fn share_loss<T>(coherences: Seq<Expr<T>>, target: int, floor: Expr<T>) -> Expr<T> {
    un(Unary::Negated, un(Unary::Ln, larger(softmax_of(coherences)[target], floor)))
}

/// What embedding `v` adds to the gradients: its share, less one for the target, tuned.
pub open spec fn pulls_of<T>(
    coherences: Seq<Expr<T>>,
    target: int,
    t: Tuning<T>,
    n_embd: usize,
) -> Seq<Expr<T>> {
    Seq::new(
        coherences.len(),
        |v: int|
            tuned(
                minus(
                    softmax_of(coherences)[v],
                    if v == target {
                        one()
                    } else {
                        zero()
                    },
                ),
                t,
                n_embd,
            ),
    )
}

/// The gradients of a turned state.
pub open spec fn turned_grads<T>(pulls: Seq<Expr<T>>, embeddings: Seq<Vec<T>>, n_embd: int) -> Seq<
    Expr<T>,
> {
    Seq::new(n_embd as nat, |j: int| dot_of(zero(), pulls, vals(column_vals(embeddings, j))))
}

/// The gradients of a state, out of those of the turned state: turned back.
pub open spec fn turned_back<T>(d: Seq<Expr<T>>, angles: Seq<Expr<T>>) -> Seq<Expr<T>> {
    Seq::new(
        2 * angles.len(),
        |i: int|
            {
                let c = un(Unary::Cos, angles[i / 2]);
                let s = un(Unary::Sin, angles[i / 2]);
                if i % 2 == 0 {
                    plus(times(c, d[i]), times(s, d[i + 1]))
                } else {
                    plus(times(un(Unary::Negated, s), d[i - 1]), times(c, d[i]))
                }
            },
    )
}

/// The gradients of the angles.
pub open spec fn angle_grads<T>(
    hidden: Seq<Expr<T>>,
    d: Seq<Expr<T>>,
    angles: Seq<Expr<T>>,
) -> Seq<Expr<T>> {
    Seq::new(
        angles.len(),
        |k: int|
            {
                let c = un(Unary::Cos, angles[k]);
                let s = un(Unary::Sin, angles[k]);
                let (x, y) = (hidden[2 * k], hidden[2 * k + 1]);
                plus(
                    times(d[2 * k], minus(times(un(Unary::Negated, x), s), times(y, c))),
                    times(d[2 * k + 1], minus(times(x, c), times(y, s))),
                )
            },
    )
}

/// The scores of a turned state, traced.
fn coherences_on<T: Copy, A: Arith<T>>(
    ops: &A,
    turned: &TracedVec<T>,
    embeddings: &Vec<Vec<T>>,
    temperature: Traced<T>,
    scaled: bool,
) -> (out: TracedVec<T>)
    requires
        turned.ok(*ops),
        temperature.ok(*ops),
        forall|v: int|
            0 <= v < embeddings@.len() ==> turned.v@.len() <= (#[trigger] embeddings@[v])@.len(),
    ensures
        out.ok(*ops),
        out.e@ == coherences_of(
            turned.e@,
            embeddings@,
            Tuning { temperature: temperature.e@, scaled },
        ),
{
    let vocab: usize = embeddings.len();
    let n_embd: usize = turned.len();
    let ghost t = Tuning { temperature: temperature.e@, scaled };
    let ghost es = coherences_of(turned.e@, embeddings@, t);
    let mut out: TracedVec<T> = TracedVec::new(ops);
    let mut v: usize = 0;
    assert(out.e@ =~= es.take(0));
    while v < vocab
        invariant
            turned.ok(*ops),
            temperature.ok(*ops),
            vocab == embeddings@.len(),
            n_embd == turned.v@.len(),
            forall|v: int|
                0 <= v < embeddings@.len() ==> turned.v@.len() <= (
                #[trigger] embeddings@[v])@.len(),
            t == (Tuning { temperature: temperature.e@, scaled }),
            es == coherences_of(turned.e@, embeddings@, t),
            v <= vocab,
            out.ok(*ops),
            out.e@ == es.take(v as int),
        decreases vocab - v,
    {
        assert(turned.v@.len() <= embeddings@[v as int]@.len());
        let row: TracedVec<T> = traced(ops, &embeddings[v]);
        let x: Traced<T> = score(ops, turned, &row);
        out.push(ops, tuned_on(ops, x, temperature, scaled, n_embd));
        v += 1;
        assert(out.e@ =~= es.take(v as int));
    }
    assert(es.take(vocab as int) =~= es);
    out
}

fn tuned_on<T: Copy, A: Arith<T>>(
    ops: &A,
    x: Traced<T>,
    temperature: Traced<T>,
    scaled: bool,
    n_embd: usize,
) -> (out: Traced<T>)
    requires
        x.ok(*ops),
        temperature.ok(*ops),
    ensures
        out.ok(*ops),
        out.e@ == tuned(x.e@, Tuning { temperature: temperature.e@, scaled }, n_embd),
{
    if scaled {
        let scale: Traced<T> = Traced::ratio(ops, 1, 1).over(
            ops,
            Traced::count(ops, n_embd).root(ops),
        );
        x.times(ops, scale).over(ops, temperature)
    } else {
        x.over(ops, temperature)
    }
}

/// The loss of a state, its gradients and those of the angles.
pub open spec fn native_loss<T>(
    hidden: Seq<T>,
    embeddings: Seq<Vec<T>>,
    target: int,
    t: Tuning<T>,
    angles: Seq<T>,
    floor: Expr<T>,
) -> Expr<T> {
    share_loss(
        coherences_of(turned_of(vals(hidden), vals(angles)), embeddings, t),
        target,
        floor,
    )
}

/// The gradients of the turned state.
pub open spec fn native_grads<T>(
    hidden: Seq<T>,
    embeddings: Seq<Vec<T>>,
    target: int,
    t: Tuning<T>,
    angles: Seq<T>,
) -> Seq<Expr<T>> {
    let n_embd = 2 * angles.len();
    let c = coherences_of(turned_of(vals(hidden), vals(angles)), embeddings, t);
    turned_grads(pulls_of(c, target, t, n_embd as usize), embeddings, n_embd as int)
}

/// The loss of a state, its gradients and those of the angles, traced.
pub fn native_on<T: Copy, A: Arith<T>>(
    ops: &A,
    hidden: &[T],
    embeddings: &Vec<Vec<T>>,
    target: usize,
    n_bands: usize,
    temperature: T,
    output_corrector: &[T],
    scaled: bool,
) -> (res: (Traced<T>, TracedVec<T>, TracedVec<T>))
    requires
        n_bands <= output_corrector@.len(),
        2 * n_bands <= usize::MAX,
        2 * n_bands <= hidden@.len(),
        target < embeddings@.len(),
        forall|v: int|
            0 <= v < embeddings@.len() ==> 2 * n_bands <= (
            #[trigger] embeddings@[v])@.len(),
    ensures
        res.0.ok(*ops),
        res.1.ok(*ops),
        res.2.ok(*ops),
        ({
            let t = Tuning { temperature: val(temperature), scaled };
            let a = output_corrector@.take(n_bands as int);
            let d = native_grads(hidden@, embeddings@, target as int, t, a);
            &&& res.0.e@ == native_loss(
                hidden@,
                embeddings@,
                target as int,
                t,
                a,
                Expr::Ratio(1, 10000000000),
            )
            &&& res.1.e@ == turned_back(d, vals(a))
            &&& res.2.e@ == angle_grads(vals(hidden@), d, vals(a))
        }),
{
    let n: usize = n_bands;
    let n_embd: usize = 2 * n;
    let vocab: usize = embeddings.len();
    let h: TracedVec<T> = traced(ops, hidden);
    let angles: TracedVec<T> = TracedVec::of(ops, take(output_corrector, 0, n));
    assert(output_corrector@.subrange(0, n as int) =~= output_corrector@.take(n as int));
    let temp: Traced<T> = Traced::of(ops, temperature);
    let ghost t = Tuning { temperature: val(temperature), scaled };
    let turned: TracedVec<T> = turned_on(ops, &h, &angles, n);
    let c: TracedVec<T> = coherences_on(ops, &turned, embeddings, temp, scaled);
    let shares: TracedVec<T> = softmax_on(ops, &c);
    let loss: Traced<T> = shares.get(ops, target).larger(
        ops,
        Traced::ratio(ops, 1, 10000000000),
    ).ln(ops).negated(ops);
    let ghost es = pulls_of(c.e@, target as int, t, n_embd);
    let mut pulls: TracedVec<T> = TracedVec::new(ops);
    let mut v: usize = 0;
    assert(pulls.e@ =~= es.take(0));
    while v < vocab
        invariant
            vocab == embeddings@.len(),
            shares.ok(*ops),
            shares.v@.len() == vocab,
            shares.e@ == softmax_of(c.e@),
            c.e@.len() == vocab,
            temp.ok(*ops),
            t == (Tuning { temperature: temp.e@, scaled }),
            es == pulls_of(c.e@, target as int, t, n_embd),
            v <= vocab,
            pulls.ok(*ops),
            pulls.e@ == es.take(v as int),
        decreases vocab - v,
    {
        let hit: Traced<T> = if v == target {
            Traced::ratio(ops, 1, 1)
        } else {
            Traced::ratio(ops, 0, 1)
        };
        let x: Traced<T> = shares.get(ops, v).minus(ops, hit);
        pulls.push(ops, tuned_on(ops, x, temp, scaled, n_embd));
        v += 1;
        assert(pulls.e@ =~= es.take(v as int));
    }
    assert(pulls.e@ =~= es);
    let ghost ds = turned_grads(es, embeddings@, n_embd as int);
    let mut d: TracedVec<T> = TracedVec::new(ops);
    let mut j: usize = 0;
    assert(d.e@ =~= ds.take(0));
    while j < n_embd
        invariant
            vocab == embeddings@.len(),
            n_embd == 2 * n_bands,
            forall|v: int|
                0 <= v < embeddings@.len() ==> 2 * n_bands <= (
                #[trigger] embeddings@[v])@.len(),
            pulls.ok(*ops),
            pulls.v@.len() == vocab,
            pulls.e@ == es,
            ds == turned_grads(es, embeddings@, n_embd as int),
            j <= n_embd,
            d.ok(*ops),
            d.e@ == ds.take(j as int),
        decreases n_embd - j,
    {
        assert forall|i: int| 0 <= i < vocab implies j < (#[trigger] embeddings@[i])@.len() by {}
        assert(embeddings@.take(vocab as int) =~= embeddings@);
        let col: TracedVec<T> = TracedVec::of(ops, matrix_column(embeddings, vocab, j));
        d.push(ops, score(ops, &pulls, &col));
        j += 1;
        assert(d.e@ =~= ds.take(j as int));
    }
    assert(d.e@ =~= ds);
    let ghost hs = turned_back(ds, angles.e@);
    let ghost gs = angle_grads(h.e@, ds, angles.e@);
    let mut d_hidden: TracedVec<T> = TracedVec::new(ops);
    let mut d_angles: TracedVec<T> = TracedVec::new(ops);
    let mut k: usize = 0;
    assert(d_hidden.e@ =~= hs.take(0));
    assert(d_angles.e@ =~= gs.take(0));
    while k < n
        invariant
            h.ok(*ops),
            angles.ok(*ops),
            d.ok(*ops),
            n == angles.v@.len(),
            n_embd == 2 * n,
            n_embd <= h.v@.len(),
            d.v@.len() == n_embd,
            d.e@ == ds,
            hs == turned_back(ds, angles.e@),
            gs == angle_grads(h.e@, ds, angles.e@),
            k <= n,
            d_hidden.ok(*ops),
            d_angles.ok(*ops),
            d_hidden.e@ == hs.take(2 * k),
            d_angles.e@ == gs.take(k as int),
        decreases n - k,
    {
        let a: Traced<T> = angles.get(ops, k);
        let s: Traced<T> = a.sin(ops);
        let c: Traced<T> = a.cos(ops);
        let dx: Traced<T> = d.get(ops, k * 2);
        let dy: Traced<T> = d.get(ops, k * 2 + 1);
        let x: Traced<T> = h.get(ops, k * 2);
        let y: Traced<T> = h.get(ops, k * 2 + 1);
        let first: Traced<T> = c.times(ops, dx).plus(ops, s.times(ops, dy));
        let second: Traced<T> = s.negated(ops).times(ops, dx).plus(ops, c.times(ops, dy));
        let g: Traced<T> = dx.times(
            ops,
            x.negated(ops).times(ops, s).minus(ops, y.times(ops, c)),
        ).plus(ops, dy.times(ops, x.times(ops, c).minus(ops, y.times(ops, s))));
        proof {
            assert((2 * k) / 2 == k && (2 * k) % 2 == 0);
            assert((2 * k + 1) / 2 == k && (2 * k + 1) % 2 == 1);
            assert(hs[2 * k] == first.e@);
            assert(hs[2 * k + 1] == second.e@);
        }
        d_hidden.push(ops, first);
        d_hidden.push(ops, second);
        d_angles.push(ops, g);
        k += 1;
        assert(d_hidden.e@ =~= hs.take(2 * k));
        assert(d_angles.e@ =~= gs.take(k as int));
    }
    assert(hs.take(2 * n) =~= hs);
    assert(gs.take(n as int) =~= gs);
    (loss, d_hidden, d_angles)
}

/// The loss of a state against the embeddings, with scores scaled down by the root of the
/// state's width; its gradients, and those of the angles.
pub fn phase_native_loss<T: Copy, A: Arith<T>>(
    ops: &A,
    hidden: &[T],
    embeddings: &Vec<Vec<T>>,
    target: usize,
    n_bands: usize,
    temperature: T,
    output_corrector: &[T],
) -> (res: (T, Vec<T>, Vec<T>))
    requires
        n_bands <= output_corrector@.len(),
        2 * n_bands <= usize::MAX,
        2 * n_bands <= hidden@.len(),
        target < embeddings@.len(),
        forall|v: int|
            0 <= v < embeddings@.len() ==> 2 * n_bands <= (
            #[trigger] embeddings@[v])@.len(),
    ensures
        ({
            let t = Tuning { temperature: val(temperature), scaled: true };
            let a = output_corrector@.take(n_bands as int);
            let d = native_grads(hidden@, embeddings@, target as int, t, a);
            &&& fits(
                *ops,
                native_loss(
                    hidden@,
                    embeddings@,
                    target as int,
                    t,
                    a,
                    Expr::Ratio(1, 10000000000),
                ),
                res.0,
            )
            &&& fits_all(*ops, turned_back(d, vals(a)), res.1@)
            &&& fits_all(*ops, angle_grads(vals(hidden@), d, vals(a)), res.2@)
        }),
{
    let (loss, d_hidden, d_angles) = native_on(
        ops,
        hidden,
        embeddings,
        target,
        n_bands,
        temperature,
        output_corrector,
        true,
    );
    (loss.v, d_hidden.v, d_angles.v)
}

/// The loss of a state against the embeddings, with scores as they are; its gradients, and
/// those of the angles.
pub fn phase_native_loss_unscaled<T: Copy, A: Arith<T>>(
    ops: &A,
    hidden: &[T],
    embeddings: &Vec<Vec<T>>,
    target: usize,
    n_bands: usize,
    temperature: T,
    output_corrector: &[T],
) -> (res: (T, Vec<T>, Vec<T>))
    requires
        n_bands <= output_corrector@.len(),
        2 * n_bands <= usize::MAX,
        2 * n_bands <= hidden@.len(),
        target < embeddings@.len(),
        forall|v: int|
            0 <= v < embeddings@.len() ==> 2 * n_bands <= (
            #[trigger] embeddings@[v])@.len(),
    ensures
        ({
            let t = Tuning { temperature: val(temperature), scaled: false };
            let a = output_corrector@.take(n_bands as int);
            let d = native_grads(hidden@, embeddings@, target as int, t, a);
            &&& fits(
                *ops,
                native_loss(
                    hidden@,
                    embeddings@,
                    target as int,
                    t,
                    a,
                    Expr::Ratio(1, 10000000000),
                ),
                res.0,
            )
            &&& fits_all(*ops, turned_back(d, vals(a)), res.1@)
            &&& fits_all(*ops, angle_grads(vals(hidden@), d, vals(a)), res.2@)
        }),
{
    let (loss, d_hidden, d_angles) = native_on(
        ops,
        hidden,
        embeddings,
        target,
        n_bands,
        temperature,
        output_corrector,
        false,
    );
    (loss.v, d_hidden.v, d_angles.v)
}

/// The loss alone, with scores as they are and shares that count as no less than `floor`.
pub fn phase_native_loss_value<T: Copy, A: Arith<T>>(
    ops: &A,
    hidden: &[T],
    embeddings: &Vec<Vec<T>>,
    target: usize,
    n_bands: usize,
    temperature: T,
    output_corrector: &[T],
    floor: T,
) -> (loss: T)
    requires
        n_bands <= output_corrector@.len(),
        2 * n_bands <= hidden@.len(),
        target < embeddings@.len(),
        forall|v: int|
            0 <= v < embeddings@.len() ==> 2 * n_bands <= (
            #[trigger] embeddings@[v])@.len(),
    ensures
        fits(
            *ops,
            native_loss(
                hidden@,
                embeddings@,
                target as int,
                Tuning { temperature: val(temperature), scaled: false },
                output_corrector@.take(n_bands as int),
                val(floor),
            ),
            loss,
        ),
{
    let n: usize = n_bands;
    let vocab: usize = embeddings.len();
    let angles: TracedVec<T> = TracedVec::of(ops, take(output_corrector, 0, n));
    assert(output_corrector@.subrange(0, n as int) =~= output_corrector@.take(n as int));
    let turned: TracedVec<T> = turned_on(ops, &traced(ops, hidden), &angles, n);
    let c: TracedVec<T> = coherences_on(ops, &turned, embeddings, Traced::of(ops, temperature), false);
    let shares: TracedVec<T> = softmax_on(ops, &c);
    shares.get(ops, target).larger(ops, Traced::of(ops, floor)).ln(ops).negated(ops).v
}

} // verus!
