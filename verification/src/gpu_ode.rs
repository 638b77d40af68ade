//! One perturbed step of the ODE over a whole unit of time, as a device takes it: all bands are
//! damped and rotated at once, and the phase that their energies add is applied to first order.

use vstd::prelude::*;
use crate::arith::{Arith, Traced, TracedVec, build};
#[allow(unused_imports)]
use crate::arith::{Expr, Unary, entry, fits_all, minus, plus, times, val, zero};
#[allow(unused_imports)]
use crate::attention::rows_fit;
use crate::kerr::{State, woven_on};
#[allow(unused_imports)]
use crate::kerr::{Waves, woven_of};
#[allow(unused_imports)]
use crate::seqs::rows_width;
use crate::tables::rotation_tables;
#[allow(unused_imports)]
use crate::tables::{decays_of, tuned_of};

verus! {

/// The constants of the step: for each band its decay and the cosine and sine of its frequency,
/// and the strengths of the two couplings.
pub struct GpuOdeParams<T> {
    pub decay: Vec<T>,
    pub cos_w: Vec<T>,
    pub sin_w: Vec<T>,
    pub alpha: T,
    pub beta: T,
    pub n_bands: usize,
}

impl<T: Copy> GpuOdeParams<T> {
    /// Every band has its constants.
    pub open spec fn wf(self) -> bool {
        &&& self.decay@.len() == self.n_bands
        &&& self.cos_w@.len() == self.n_bands
        &&& self.sin_w@.len() == self.n_bands
    }

    /// The constants of an ODE. There are none where the bands' damping and frequencies differ
    /// in number.
    pub fn new<A: Arith<T>>(ops: &A, gamma_raw: &[T], omega: &[T], alpha: T, beta: T) -> (p: Option<
        Self,
    >)
        ensures
            p is Some <==> gamma_raw@.len() == omega@.len(),
            p matches Some(p) ==> {
                &&& p.wf()
                &&& p.n_bands == gamma_raw@.len()
                &&& p.alpha == alpha
                &&& p.beta == beta
                &&& fits_all(*ops, decays_of(gamma_raw@), p.decay@)
                &&& fits_all(*ops, tuned_of(Unary::Cos, omega@), p.cos_w@)
                &&& fits_all(*ops, tuned_of(Unary::Sin, omega@), p.sin_w@)
            },
    {
        if gamma_raw.len() != omega.len() {
            return None;
        }
        let n_bands: usize = gamma_raw.len();
        let (decay, cos_w, sin_w) = rotation_tables(ops, gamma_raw, omega);
        Some(GpuOdeParams { decay, cos_w, sin_w, alpha, beta, n_bands })
    }
}

/// The waves after damping and rotation alone.
pub open spec fn spun_of<T: Copy>(p: GpuOdeParams<T>, x: Seq<T>) -> Waves<T> {
    Waves {
        r: Seq::new(
            p.n_bands as nat,
            |k: int|
                times(
                    minus(
                        times(val(x[2 * k]), val(p.cos_w@[k])),
                        times(val(x[2 * k + 1]), val(p.sin_w@[k])),
                    ),
                    val(p.decay@[k]),
                ),
        ),
        s: Seq::new(
            p.n_bands as nat,
            |k: int|
                times(
                    plus(
                        times(val(x[2 * k]), val(p.sin_w@[k])),
                        times(val(x[2 * k + 1]), val(p.cos_w@[k])),
                    ),
                    val(p.decay@[k]),
                ),
        ),
    }
}

/// The energy of every band.
pub open spec fn energies_of<T>(z: Waves<T>) -> Seq<Expr<T>> {
    Seq::new(z.r.len(), |k: int| plus(times(z.r[k], z.r[k]), times(z.s[k], z.s[k])))
}

/// An entry, or zero beyond the ends.
pub open spec fn padded<T>(xs: Seq<Expr<T>>, k: int) -> Expr<T> {
    if 0 <= k < xs.len() {
        xs[k]
    } else {
        zero()
    }
}

/// The phase that a band gains: from its own energy, and from its two neighbours' on either side.
pub open spec fn turns_of<T>(alpha: T, beta: T, energies: Seq<Expr<T>>) -> Seq<Expr<T>> {
    Seq::new(
        energies.len(),
        |k: int|
            plus(
                times(energies[k], val(alpha)),
                times(
                    plus(
                        plus(padded(energies, k - 2), padded(energies, k - 1)),
                        plus(padded(energies, k + 1), padded(energies, k + 2)),
                    ),
                    val(beta),
                ),
            ),
    )
}

/// The waves, turned to first order.
pub open spec fn nudged_of<T>(z: Waves<T>, turns: Seq<Expr<T>>) -> Waves<T> {
    Waves {
        r: Seq::new(z.r.len(), |k: int| minus(z.r[k], times(turns[k], z.s[k]))),
        s: Seq::new(z.r.len(), |k: int| plus(z.s[k], times(turns[k], z.r[k]))),
    }
}

/// What the step makes of the waves of one position.
pub open spec fn perturbed_of<T: Copy>(p: GpuOdeParams<T>, x: Seq<T>) -> Seq<Expr<T>> {
    let z = spun_of(p, x);
    woven_of(nudged_of(z, turns_of(p.alpha, p.beta, energies_of(z))))
}

/// What the step makes of all positions.
pub open spec fn all_perturbed<T: Copy>(p: GpuOdeParams<T>, x: Seq<Vec<T>>) -> Seq<Seq<Expr<T>>> {
    Seq::new(x.len(), |i: int| perturbed_of(p, x[i]@))
}

/// An entry, or zero beyond the end.
fn padded_on<T: Copy, A: Arith<T>>(ops: &A, xs: &TracedVec<T>, k: usize) -> (out: Traced<T>)
    requires
        xs.ok(*ops),
    ensures
        out.ok(*ops),
        out.e@ == padded(xs.e@, k as int),
{
    if k < xs.len() {
        xs.get(ops, k)
    } else {
        Traced::ratio(ops, 0, 1)
    }
}

/// An entry some places before another, or zero beyond the start.
fn padded_back_on<T: Copy, A: Arith<T>>(
    ops: &A,
    xs: &TracedVec<T>,
    k: usize,
    back: usize,
) -> (out: Traced<T>)
    requires
        xs.ok(*ops),
        k < xs.v@.len(),
    ensures
        out.ok(*ops),
        out.e@ == padded(xs.e@, k - back),
{
    if back <= k {
        xs.get(ops, k - back)
    } else {
        Traced::ratio(ops, 0, 1)
    }
}

/// The waves of a position after damping and rotation.
fn spun_on<T: Copy, A: Arith<T>>(ops: &A, p: &GpuOdeParams<T>, x: &Vec<T>) -> (z: State<T>)
    requires
        p.wf(),
        x@.len() == 2 * p.n_bands,
    ensures
        z.ok(*ops, p.n_bands as int),
        z.waves() == spun_of(*p, x@),
{
    let n: usize = p.n_bands;
    assert(2 * n == x.len());
    let first = |k: usize| -> (r: Traced<T>)
        requires
            k < n,
        ensures
            r.ok(*ops),
            r.e@ == entry(spun_of(*p, x@).r, k),
        {
            Traced::of(ops, x[2 * k]).times(ops, Traced::of(ops, p.cos_w[k])).minus(
                ops,
                Traced::of(ops, x[2 * k + 1]).times(ops, Traced::of(ops, p.sin_w[k])),
            ).times(ops, Traced::of(ops, p.decay[k]))
        };
    let second = |k: usize| -> (r: Traced<T>)
        requires
            k < n,
        ensures
            r.ok(*ops),
            r.e@ == entry(spun_of(*p, x@).s, k),
        {
            Traced::of(ops, x[2 * k]).times(ops, Traced::of(ops, p.sin_w[k])).plus(
                ops,
                Traced::of(ops, x[2 * k + 1]).times(ops, Traced::of(ops, p.cos_w[k])),
            ).times(ops, Traced::of(ops, p.decay[k]))
        };
    let r: TracedVec<T> = build(ops, n, Ghost(spun_of(*p, x@).r), first);
    let s: TracedVec<T> = build(ops, n, Ghost(spun_of(*p, x@).s), second);
    State { r, s }
}

/// What the step makes of one position.
fn perturbed_on<T: Copy, A: Arith<T>>(ops: &A, p: &GpuOdeParams<T>, x: &Vec<T>) -> (out: TracedVec<T>)
    requires
        p.wf(),
        x@.len() == 2 * p.n_bands,
    ensures
        out.ok(*ops),
        out.e@ == perturbed_of(*p, x@),
{
    let n: usize = p.n_bands;
    assert(2 * n == x.len());
    let z: State<T> = spun_on(ops, p, x);
    let energy = |k: usize| -> (r: Traced<T>)
        requires
            k < n,
        ensures
            r.ok(*ops),
            r.e@ == entry(energies_of(z.waves()), k),
        {
            let a: Traced<T> = z.r.get(ops, k);
            let b: Traced<T> = z.s.get(ops, k);
            a.times(ops, a).plus(ops, b.times(ops, b))
        };
    let energies: TracedVec<T> = build(ops, n, Ghost(energies_of(z.waves())), energy);
    let turn = |k: usize| -> (r: Traced<T>)
        requires
            k < n,
        ensures
            r.ok(*ops),
            r.e@ == entry(turns_of(p.alpha, p.beta, energies.e@), k),
        {
            let left: Traced<T> = padded_back_on(ops, &energies, k, 2).plus(
                ops,
                padded_back_on(ops, &energies, k, 1),
            );
            let right: Traced<T> = padded_on(ops, &energies, k + 1).plus(
                ops,
                padded_on(ops, &energies, k + 2),
            );
            energies.get(ops, k).times(ops, Traced::of(ops, p.alpha)).plus(
                ops,
                left.plus(ops, right).times(ops, Traced::of(ops, p.beta)),
            )
        };
    let turns: TracedVec<T> = build(
        ops,
        n,
        Ghost(turns_of(p.alpha, p.beta, energies.e@)),
        turn,
    );
    let first = |k: usize| -> (r: Traced<T>)
        requires
            k < n,
        ensures
            r.ok(*ops),
            r.e@ == entry(nudged_of(z.waves(), turns.e@).r, k),
        { z.r.get(ops, k).minus(ops, turns.get(ops, k).times(ops, z.s.get(ops, k))) };
    let second = |k: usize| -> (r: Traced<T>)
        requires
            k < n,
        ensures
            r.ok(*ops),
            r.e@ == entry(nudged_of(z.waves(), turns.e@).s, k),
        { z.s.get(ops, k).plus(ops, turns.get(ops, k).times(ops, z.r.get(ops, k))) };
    let r: TracedVec<T> = build(ops, n, Ghost(nudged_of(z.waves(), turns.e@).r), first);
    let s: TracedVec<T> = build(ops, n, Ghost(nudged_of(z.waves(), turns.e@).s), second);
    let out: State<T> = State { r, s };
    assert(out.waves() == nudged_of(z.waves(), turns.e@));
    woven_on(ops, &out)
}

/// All positions through the step. There is no result where a position does not have two
/// components for every band.
pub fn kerr_ode_gpu<T: Copy, A: Arith<T>>(ops: &A, x: &Vec<Vec<T>>, params: &GpuOdeParams<T>) -> (out:
    Option<Vec<Vec<T>>>)
    requires
        params.wf(),
    ensures
        out is Some <==> rows_width(x@, 2 * params.n_bands),
        out matches Some(rows) ==> rows_fit(*ops, all_perturbed(*params, x@), rows@),
{
    let mut rows: Vec<Vec<T>> = Vec::new();
    let mut i: usize = 0;
    while i < x.len()
        invariant
            i <= x@.len(),
            params.wf(),
            rows_width(x@.take(i as int), 2 * params.n_bands),
            rows_fit(*ops, all_perturbed(*params, x@.take(i as int)), rows@),
        decreases x@.len() - i,
    {
        let n: usize = x[i].len();
        if n % 2 != 0 || n / 2 != params.n_bands {
            assert(x@[i as int]@.len() != 2 * params.n_bands);
            return None;
        }
        let row: TracedVec<T> = perturbed_on(ops, params, &x[i]);
        let ghost before = x@.take(i as int);
        let ghost after = x@.take(i + 1);
        assert(fits_all(*ops, perturbed_of(*params, after[i as int]@), row.v@));
        rows.push(row.v);
        assert(after =~= before.push(x@[i as int]));
        assert forall|j: int| 0 <= j < rows@.len() implies fits_all(
            *ops,
            all_perturbed(*params, after)[j],
            (#[trigger] rows@[j])@,
        ) by {
            if j < i {
                assert(all_perturbed(*params, after)[j] == all_perturbed(*params, before)[j]);
            }
        }
        i += 1;
    }
    assert(x@.take(x@.len() as int) =~= x@);
    Some(rows)
}

} // verus!
