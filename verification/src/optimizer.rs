//! The optimiser, and what is done to gradients and parameters around its steps.

use vstd::prelude::*;
use crate::arith::{Arith, Test, Traced, TracedVec, pick_on};
#[allow(unused_imports)]
use crate::arith::{
    Expr, Unary, fits, fits_all, minus, one, over, pick, plus, times, un, val, vals, zero,
};
use crate::layers::traced;
use crate::loss::norm_on;
#[allow(unused_imports)]
use crate::loss::norm_of;

verus! {

/// Adam with decoupled weight decay: the running means of the gradients and of their squares,
/// and the number of steps taken.
pub struct Adam<T> {
    pub lr: T,
    pub t: usize,
    pub m: Vec<T>,
    pub v: Vec<T>,
}

/// How much of the running mean of the gradients is kept.
pub open spec fn beta1<T>() -> Expr<T> {
    Expr::Ratio(9, 10)
}

/// How much of the running mean of the squares is kept.
pub open spec fn beta2<T>() -> Expr<T> {
    Expr::Ratio(999, 1000)
}

/// Keeps a step finite where the squares vanish.
pub open spec fn adam_eps<T>() -> Expr<T> {
    Expr::Ratio(1, 100000000)
}

/// The running mean of a gradient.
pub open spec fn next_m<T>(m: T, g: T) -> Expr<T> {
    plus(times(beta1(), val(m)), times(minus(one(), beta1()), val(g)))
}

/// The running mean of a gradient's square.
pub open spec fn next_v<T>(v: T, g: T) -> Expr<T> {
    plus(times(beta2(), val(v)), times(times(minus(one(), beta2()), val(g)), val(g)))
}

/// A running mean that started from zero `t` steps ago, set right.
pub open spec fn unbiased<T>(x: Expr<T>, beta: Expr<T>, t: usize) -> Expr<T> {
    over(x, minus(one(), Expr::Pow(Box::new(beta), t)))
}

/// A parameter after weight decay, which a decay that is not positive leaves out.
pub open spec fn decayed<T>(p: T, lr: T, wd: T) -> Expr<T> {
    pick(
        Test::Exceeds,
        val(wd),
        zero(),
        minus(val(p), times(times(val(lr), val(wd)), val(p))),
        val(p),
    )
}

/// A parameter after a step.
pub open spec fn stepped<T>(p: T, g: T, m: T, v: T, lr: T, wd: T, t: usize) -> Expr<T> {
    minus(
        decayed(p, lr, wd),
        over(
            times(val(lr), unbiased(next_m(m, g), beta1(), t)),
            plus(un(Unary::Root, unbiased(next_v(v, g), beta2(), t)), adam_eps()),
        ),
    )
}

/// The first `n` entries are replaced, the others stay.
pub open spec fn front_fits<T: Copy, A: Arith<T>>(
    ops: A,
    es: Seq<Expr<T>>,
    before: Seq<T>,
    after: Seq<T>,
) -> bool {
    &&& after.len() == before.len()
    &&& fits_all(ops, es, after.take(es.len() as int))
    &&& forall|i: int| es.len() <= i < after.len() ==> #[trigger] after[i] == before[i]
}

/// Writes values over the front of a vector.
fn write_front<T: Copy>(into: &mut Vec<T>, from: &Vec<T>)
    requires
        from@.len() <= old(into)@.len(),
    ensures
        final(into)@.len() == old(into)@.len(),
        final(into)@.take(from@.len() as int) == from@,
        forall|i: int|
            from@.len() <= i < final(into)@.len() ==> #[trigger] final(into)@[i] == old(into)@[i],
{
    let n: usize = from.len();
    let mut i: usize = 0;
    while i < n
        invariant
            n == from@.len(),
            n <= into@.len(),
            into@.len() == old(into)@.len(),
            i <= n,
            forall|k: int| 0 <= k < i ==> #[trigger] into@[k] == from@[k],
            forall|k: int| n <= k < into@.len() ==> #[trigger] into@[k] == old(into)@[k],
        decreases n - i,
    {
        into.set(i, from[i]);
        i += 1;
    }
    assert(into@.take(n as int) =~= from@);
}

impl<T: Copy> Adam<T> {
    /// Number of steps taken.
    pub open spec fn steps(&self) -> usize {
        self.t
    }

    /// The running means of the gradients.
    pub open spec fn means(&self) -> Seq<T> {
        self.m@
    }

    /// The running means of the squares.
    pub open spec fn squares(&self) -> Seq<T> {
        self.v@
    }

    /// An optimiser of `n` parameters that has taken no step.
    pub fn new<A: Arith<T>>(ops: &A, lr: T, n: usize) -> (adam: Self)
        ensures
            adam.lr == lr,
            adam.steps() == 0,
            fits_all(*ops, Seq::new(n as nat, |i: int| zero::<T>()), adam.means()),
            fits_all(*ops, Seq::new(n as nat, |i: int| zero::<T>()), adam.squares()),
    {
        let m: TracedVec<T> = TracedVec::zeros(ops, n);
        let v: TracedVec<T> = TracedVec::zeros(ops, n);
        Adam { lr, t: 0, m: m.v, v: v.v }
    }

    /// An optimiser in a state that was saved.
    pub fn from_checkpoint(lr: T, t: usize, m: Vec<T>, v: Vec<T>) -> (adam: Self)
        ensures
            adam.lr == lr,
            adam.steps() == t,
            adam.means() == m@,
            adam.squares() == v@,
    {
        Adam { lr, t, m, v }
    }

    /// The state to save: the steps taken and the two running means.
    pub fn checkpoint_state(&self) -> (state: (usize, &Vec<T>, &Vec<T>))
        ensures
            state.0 == self.steps(),
            state.1@ == self.means(),
            state.2@ == self.squares(),
    {
        (self.t, &self.m, &self.v)
    }

    /// A step with a weight decay of a hundredth.
    pub fn step<A: Arith<T>>(&mut self, ops: &A, params: &mut Vec<T>, grads: &[T])
        requires
            old(self).steps() < 0x7fff_ffff,
            old(params)@.len() <= grads@.len(),
            old(params)@.len() <= old(self).means().len(),
            old(params)@.len() <= old(self).squares().len(),
        ensures
            exists|wd: T| #[trigger]
                fits(*ops, Expr::Ratio(1, 100), wd) && step_fits(
                    *ops,
                    *old(self),
                    *final(self),
                    old(params)@,
                    final(params)@,
                    grads@,
                    wd,
                ),
    {
        let wd: Traced<T> = Traced::ratio(ops, 1, 100);
        assert(fits(*ops, Expr::Ratio(1, 100), wd.v));
        self.step_wd(ops, params, grads, wd.v);
    }

    /// A step: weight decay, the running means, and the parameters along their ratio.
    pub fn step_wd<A: Arith<T>>(&mut self, ops: &A, params: &mut Vec<T>, grads: &[T], wd: T)
        requires
            old(self).steps() < 0x7fff_ffff,
            old(params)@.len() <= grads@.len(),
            old(params)@.len() <= old(self).means().len(),
            old(params)@.len() <= old(self).squares().len(),
        ensures
            step_fits(
                *ops,
                *old(self),
                *final(self),
                old(params)@,
                final(params)@,
                grads@,
                wd,
            ),
    {
        let ghost a0 = *self;
        let n: usize = params.len();
        let total: usize = grads.len();
        self.t = self.t + 1;
        let t: usize = self.t;
        let b1: Traced<T> = Traced::ratio(ops, 9, 10);
        let b2: Traced<T> = Traced::ratio(ops, 999, 1000);
        let unit: Traced<T> = Traced::ratio(ops, 1, 1);
        let nought: Traced<T> = Traced::ratio(ops, 0, 1);
        let eps: Traced<T> = Traced::ratio(ops, 1, 100000000);
        let bc1: Traced<T> = unit.minus(ops, b1.power(ops, t));
        let bc2: Traced<T> = unit.minus(ops, b2.power(ops, t));
        let lr: Traced<T> = Traced::of(ops, self.lr);
        let decay: Traced<T> = Traced::of(ops, wd);
        let ghost ms = next_means(a0, grads@, n as int);
        let ghost vs = next_squares(a0, grads@, n as int);
        let ghost ps = next_params(a0, params@, grads@, wd);
        let mut out_m: TracedVec<T> = TracedVec::new(ops);
        let mut out_v: TracedVec<T> = TracedVec::new(ops);
        let mut out_p: TracedVec<T> = TracedVec::new(ops);
        let mut i: usize = 0;
        proof {
            assert(out_m.e@ =~= ms.take(0));
            assert(out_v.e@ =~= vs.take(0));
            assert(out_p.e@ =~= ps.take(0));
        }
        while i < n
            invariant
                n == params@.len(),
                total == grads@.len(),
                n <= total,
                n <= self.m@.len(),
                n <= self.v@.len(),
                self.m@ == a0.m@,
                self.v@ == a0.v@,
                self.lr == a0.lr,
                self.t == t,
                t == a0.t + 1,
                b1.ok(*ops),
                b2.ok(*ops),
                unit.ok(*ops),
                nought.ok(*ops),
                eps.ok(*ops),
                bc1.ok(*ops),
                bc2.ok(*ops),
                lr.ok(*ops),
                decay.ok(*ops),
                b1.e@ == beta1::<T>(),
                b2.e@ == beta2::<T>(),
                unit.e@ == one::<T>(),
                nought.e@ == zero::<T>(),
                eps.e@ == adam_eps::<T>(),
                bc1.e@ == minus(one::<T>(), Expr::Pow(Box::new(beta1()), t)),
                bc2.e@ == minus(one::<T>(), Expr::Pow(Box::new(beta2()), t)),
                lr.e@ == val(a0.lr),
                decay.e@ == val(wd),
                ms == next_means(a0, grads@, n as int),
                vs == next_squares(a0, grads@, n as int),
                ps == next_params(a0, params@, grads@, wd),
                i <= n,
                out_m.ok(*ops),
                out_v.ok(*ops),
                out_p.ok(*ops),
                out_m.e@ == ms.take(i as int),
                out_v.e@ == vs.take(i as int),
                out_p.e@ == ps.take(i as int),
            decreases n - i,
        {
            let p: Traced<T> = Traced::of(ops, params[i]);
            let g: Traced<T> = Traced::of(ops, grads[i]);
            let kept: Traced<T> = pick_on(
                ops,
                Test::Exceeds,
                decay,
                nought,
                p.minus(ops, lr.times(ops, decay).times(ops, p)),
                p,
            );
            let m: Traced<T> = b1.times(ops, Traced::of(ops, self.m[i])).plus(
                ops,
                unit.minus(ops, b1).times(ops, g),
            );
            let v: Traced<T> = b2.times(ops, Traced::of(ops, self.v[i])).plus(
                ops,
                unit.minus(ops, b2).times(ops, g).times(ops, g),
            );
            let m_hat: Traced<T> = m.over(ops, bc1);
            let v_hat: Traced<T> = v.over(ops, bc2);
            let move_by: Traced<T> = lr.times(ops, m_hat).over(
                ops,
                v_hat.root(ops).plus(ops, eps),
            );
            out_m.push(ops, m);
            out_v.push(ops, v);
            out_p.push(ops, kept.minus(ops, move_by));
            i += 1;
            proof {
                assert(out_m.e@ =~= ms.take(i as int));
                assert(out_v.e@ =~= vs.take(i as int));
                assert(out_p.e@ =~= ps.take(i as int));
            }
        }
        assert(out_m.e@ =~= ms);
        assert(out_v.e@ =~= vs);
        assert(out_p.e@ =~= ps);
        write_front(&mut self.m, &out_m.v);
        write_front(&mut self.v, &out_v.v);
        *params = out_p.v;
    }
}

/// The running means of the first `n` gradients after a step.
pub open spec fn next_means<T: Copy>(a: Adam<T>, grads: Seq<T>, n: int) -> Seq<Expr<T>> {
    Seq::new(n as nat, |i: int| next_m(a.means()[i], grads[i]))
}

/// The running means of their squares.
pub open spec fn next_squares<T: Copy>(a: Adam<T>, grads: Seq<T>, n: int) -> Seq<Expr<T>> {
    Seq::new(n as nat, |i: int| next_v(a.squares()[i], grads[i]))
}

/// The parameters after a step.
pub open spec fn next_params<T: Copy>(a: Adam<T>, params: Seq<T>, grads: Seq<T>, wd: T) -> Seq<
    Expr<T>,
> {
    Seq::new(
        params.len(),
        |i: int|
            stepped(
                params[i],
                grads[i],
                a.means()[i],
                a.squares()[i],
                a.lr,
                wd,
                (a.steps() + 1) as usize,
            ),
    )
}

/// What a step does: one more step is counted, every parameter and its two means move, and
/// the rate stays.
pub open spec fn step_fits<T: Copy, A: Arith<T>>(
    ops: A,
    before: Adam<T>,
    after: Adam<T>,
    params: Seq<T>,
    params_after: Seq<T>,
    grads: Seq<T>,
    wd: T,
) -> bool {
    &&& after.steps() == before.steps() + 1
    &&& after.lr == before.lr
    &&& front_fits(
        ops,
        next_means(before, grads, params.len() as int),
        before.means(),
        after.means(),
    )
    &&& front_fits(
        ops,
        next_squares(before, grads, params.len() as int),
        before.squares(),
        after.squares(),
    )
    &&& fits_all(ops, next_params(before, params, grads, wd), params_after)
}

/// Gradients scaled down to a length, where they are longer.
pub open spec fn clipped_of<T>(grads: Seq<T>, max_norm: T) -> Seq<Expr<T>> {
    let norm = norm_of(vals(grads));
    Seq::new(
        grads.len(),
        |i: int|
            pick(
                Test::Exceeds,
                norm,
                val(max_norm),
                times(val(grads[i]), over(val(max_norm), norm)),
                val(grads[i]),
            ),
    )
}

/// Scales gradients down to a length, where they are longer.
pub fn clip_grad_norm<T: Copy, A: Arith<T>>(ops: &A, grads: &mut Vec<T>, max_norm: T)
    ensures
        fits_all(*ops, clipped_of(old(grads)@, max_norm), final(grads)@),
{
    let n: usize = grads.len();
    let gs: TracedVec<T> = traced(ops, grads);
    let ghost g0 = grads@;
    let norm: Traced<T> = norm_on(ops, &gs);
    let limit: Traced<T> = Traced::of(ops, max_norm);
    let scale: Traced<T> = limit.over(ops, norm);
    let ghost want = clipped_of(g0, max_norm);
    let mut out: TracedVec<T> = TracedVec::new(ops);
    let mut i: usize = 0;
    assert(out.e@ =~= want.take(0));
    while i < n
        invariant
            n == g0.len(),
            gs.ok(*ops),
            gs.v@.len() == n,
            gs.e@ == vals(g0),
            norm.ok(*ops),
            norm.e@ == norm_of(vals(g0)),
            limit.ok(*ops),
            limit.e@ == val(max_norm),
            scale.ok(*ops),
            scale.e@ == over(val(max_norm), norm.e@),
            want == clipped_of(g0, max_norm),
            i <= n,
            out.ok(*ops),
            out.e@ == want.take(i as int),
        decreases n - i,
    {
        let g: Traced<T> = gs.get(ops, i);
        out.push(ops, pick_on(ops, Test::Exceeds, norm, limit, g.times(ops, scale), g));
        i += 1;
        assert(out.e@ =~= want.take(i as int));
    }
    assert(want.take(n as int) =~= want);
    *grads = out.v;
}

/// What a checkpoint holds is what the optimiser goes on with.
pub proof fn law_checkpoint_restores<T: Copy>(before: Adam<T>, restored: Adam<T>)
    requires
        restored.lr == before.lr,
        restored.steps() == before.steps(),
        restored.means() == before.means(),
        restored.squares() == before.squares(),
    ensures
        forall|grads: Seq<T>, n: int|
            #[trigger] next_means(restored, grads, n) == next_means(before, grads, n),
        forall|grads: Seq<T>, n: int|
            #[trigger] next_squares(restored, grads, n) == next_squares(before, grads, n),
        forall|params: Seq<T>, grads: Seq<T>, wd: T|
            #[trigger] next_params(restored, params, grads, wd) == next_params(
                before,
                params,
                grads,
                wd,
            ),
{
    assert forall|grads: Seq<T>, n: int|
        #[trigger] next_means(restored, grads, n) == next_means(before, grads, n) by {
        assert(next_means(restored, grads, n) =~= next_means(before, grads, n));
    }
    assert forall|grads: Seq<T>, n: int|
        #[trigger] next_squares(restored, grads, n) == next_squares(before, grads, n) by {
        assert(next_squares(restored, grads, n) =~= next_squares(before, grads, n));
    }
    assert forall|params: Seq<T>, grads: Seq<T>, wd: T|
        #[trigger] next_params(restored, params, grads, wd) == next_params(
            before,
            params,
            grads,
            wd,
        ) by {
        assert(next_params(restored, params, grads, wd) =~= next_params(
            before,
            params,
            grads,
            wd,
        ));
    }
}

} // verus!
