//! What the ODE does to every band, layer by layer, and how fast training runs.

use vstd::prelude::*;
use vstd::string::*;
use crate::arith::{Arith, Test, Traced, TracedVec, build, pick_on, total};
#[allow(unused_imports)]
use crate::arith::{
    Expr, Unary, entry, fits, fits_all, larger, minus, one, over, pick, times, total_of, un, val,
    vals, zero,
};
use crate::coherence::{mags_on, phases_on};
#[allow(unused_imports)]
use crate::coherence::{mags_of, phases_of};
use crate::ffn::FfnCache;
use crate::json::{Field, array, field, number, object, owned};
#[allow(unused_imports)]
use crate::json::{array_text, field_texts, member_text, object_text, texts};
use crate::kerr::energy_on;
#[allow(unused_imports)]
use crate::kerr::energy_of;
use crate::layers::{mean_on, traced};
#[allow(unused_imports)]
use crate::layers::mean_of;
use crate::ode_distortion::member;
use crate::sub_harmonic::{sorted_peaks, wrapped_on};
#[allow(unused_imports)]
use crate::sub_harmonic::{falling, placed, wrapped_of};
#[allow(unused_imports)]
use crate::text::decimal;

verus! {

/// How the ODE of a layer behaves.
pub struct OdeDynamicsStats<T> {
    pub layer: usize,
    pub phase_velocity: T,
    pub energy_in: T,
    pub energy_out: T,
    pub energy_ratio: T,
    pub band_energy_std: T,
    pub damping_effective: T,
}

/// How far the phase of every band turns.
pub open spec fn turns_of<T>(x: Seq<Expr<T>>, y: Seq<Expr<T>>, n: int) -> Seq<Expr<T>> {
    Seq::new(n as nat, |k: int| wrapped_of(minus(phases_of(y, n)[k], phases_of(x, n)[k])))
}

fn turns_on<T: Copy, A: Arith<T>>(ops: &A, x: &TracedVec<T>, y: &TracedVec<T>, n: usize) -> (out:
    TracedVec<T>)
    requires
        x.ok(*ops),
        y.ok(*ops),
        2 * n <= x.v@.len(),
        2 * n <= y.v@.len(),
    ensures
        out.ok(*ops),
        out.v@.len() == n,
        out.e@ == turns_of(x.e@, y.e@, n as int),
{
    let a: TracedVec<T> = phases_on(ops, x, n);
    let b: TracedVec<T> = phases_on(ops, y, n);
    let f = |k: usize| -> (r: Traced<T>)
        requires
            k < n,
        ensures
            r.ok(*ops),
            r.e@ == entry(turns_of(x.e@, y.e@, n as int), k),
    {
        wrapped_on(ops, b.get(ops, k).minus(ops, a.get(ops, k)))
    };
    build(ops, n, Ghost(turns_of(x.e@, y.e@, n as int)), f)
}

/// Entries without sign.
pub open spec fn sizes_of<T>(xs: Seq<Expr<T>>) -> Seq<Expr<T>> {
    Seq::new(xs.len(), |i: int| un(Unary::Abs, xs[i]))
}

fn sizes_on<T: Copy, A: Arith<T>>(ops: &A, xs: &TracedVec<T>) -> (out: TracedVec<T>)
    requires
        xs.ok(*ops),
    ensures
        out.ok(*ops),
        out.v@.len() == xs.v@.len(),
        out.e@ == sizes_of(xs.e@),
{
    let n: usize = xs.len();
    let f = |i: usize| -> (r: Traced<T>)
        requires
            i < n,
        ensures
            r.ok(*ops),
            r.e@ == entry(sizes_of(xs.e@), i),
    {
        xs.get(ops, i).abs(ops)
    };
    build(ops, n, Ghost(sizes_of(xs.e@)), f)
}

/// The energy of every band.
pub open spec fn energies_of<T>(x: Seq<Expr<T>>, n: int) -> Seq<Expr<T>> {
    Seq::new(n as nat, |k: int| energy_of(x[2 * k], x[2 * k + 1]))
}

/// The energy of every band, traced.
pub fn energies_on<T: Copy, A: Arith<T>>(ops: &A, x: &TracedVec<T>, n: usize) -> (out: TracedVec<T>)
    requires
        x.ok(*ops),
        2 * n <= x.v@.len(),
    ensures
        out.ok(*ops),
        out.v@.len() == n,
        out.e@ == energies_of(x.e@, n as int),
{
    let len: usize = x.len();
    let f = |k: usize| -> (r: Traced<T>)
        requires
            k < n,
        ensures
            r.ok(*ops),
            r.e@ == entry(energies_of(x.e@, n as int), k),
    {
        energy_on(ops, x.get(ops, 2 * k), x.get(ops, 2 * k + 1))
    };
    build(ops, n, Ghost(energies_of(x.e@, n as int)), f)
}

/// The ratio of the energies: one where nothing goes in.
pub open spec fn throughput_of<T>(energy_in: Expr<T>, energy_out: Expr<T>) -> Expr<T> {
    pick(
        Test::Exceeds,
        energy_in,
        Expr::Ratio(1, 1000000000000),
        over(energy_out, energy_in),
        one(),
    )
}

/// Squared deviations of energies from their mean.
pub open spec fn scatter_of<T>(es: Seq<Expr<T>>) -> Seq<Expr<T>> {
    Seq::new(
        es.len(),
        |k: int| times(minus(es[k], mean_of(es)), minus(es[k], mean_of(es))),
    )
}

/// How unevenly energy is spread over the bands: not at all over a single one.
pub open spec fn unevenness_of<T>(es: Seq<Expr<T>>) -> Expr<T> {
    if es.len() > 1 {
        un(Unary::Root, over(total_of(scatter_of(es)), Expr::Count(es.len() as usize)))
    } else {
        zero()
    }
}

fn unevenness_on<T: Copy, A: Arith<T>>(ops: &A, es: &TracedVec<T>) -> (out: Traced<T>)
    requires
        es.ok(*ops),
    ensures
        out.ok(*ops),
        out.e@ == unevenness_of(es.e@),
{
    let n: usize = es.len();
    if n <= 1 {
        return Traced::ratio(ops, 0, 1);
    }
    let mean: Traced<T> = mean_on(ops, es);
    let f = |k: usize| -> (r: Traced<T>)
        requires
            k < n,
        ensures
            r.ok(*ops),
            r.e@ == entry(scatter_of(es.e@), k),
    {
        let d: Traced<T> = es.get(ops, k).minus(ops, mean);
        d.times(ops, d)
    };
    let each: TracedVec<T> = build(ops, n, Ghost(scatter_of(es.e@)), f);
    total(ops, &each).over(ops, Traced::count(ops, n)).root(ops)
}

/// The behaviour of a layer fits the ODE's input and output.
pub open spec fn dynamics_fit<T: Copy, A: Arith<T>>(
    ops: A,
    precond: Seq<T>,
    kerr_out: Seq<T>,
    n: int,
    s: OdeDynamicsStats<T>,
) -> bool {
    let ein = total_of(energies_of(vals(precond), n));
    let eout = total_of(energies_of(vals(kerr_out), n));
    &&& fits(
        ops,
        if n > 0 {
            mean_of(sizes_of(turns_of(vals(precond), vals(kerr_out), n)))
        } else {
            zero()
        },
        s.phase_velocity,
    )
    &&& fits(ops, ein, s.energy_in)
    &&& fits(ops, eout, s.energy_out)
    &&& fits(ops, throughput_of(ein, eout), s.energy_ratio)
    &&& fits(ops, minus(one(), throughput_of(ein, eout)), s.damping_effective)
    &&& fits(ops, unevenness_of(energies_of(vals(kerr_out), n)), s.band_energy_std)
}

/// How the ODE of a layer behaves between its input and its output.
pub fn layer_dynamics<T: Copy, A: Arith<T>>(
    ops: &A,
    layer: usize,
    precond: &[T],
    kerr_out: &[T],
    n_bands: usize,
) -> (s: OdeDynamicsStats<T>)
    requires
        2 * n_bands <= precond@.len(),
        2 * n_bands <= kerr_out@.len(),
    ensures
        s.layer == layer,
        dynamics_fit(*ops, precond@, kerr_out@, n_bands as int, s),
{
    let n: usize = n_bands;
    let x: TracedVec<T> = traced(ops, precond);
    let y: TracedVec<T> = traced(ops, kerr_out);
    let velocity: Traced<T> = if n > 0 {
        mean_on(ops, &sizes_on(ops, &turns_on(ops, &x, &y, n)))
    } else {
        Traced::ratio(ops, 0, 1)
    };
    let ein: Traced<T> = total(ops, &energies_on(ops, &x, n));
    let each: TracedVec<T> = energies_on(ops, &y, n);
    let eout: Traced<T> = total(ops, &each);
    let unit: Traced<T> = Traced::ratio(ops, 1, 1);
    let ratio: Traced<T> = pick_on(
        ops,
        Test::Exceeds,
        ein,
        Traced::ratio(ops, 1, 1000000000000),
        eout.over(ops, ein),
        unit,
    );
    OdeDynamicsStats {
        layer,
        phase_velocity: velocity.v,
        energy_in: ein.v,
        energy_out: eout.v,
        energy_ratio: ratio.v,
        band_energy_std: unevenness_on(ops, &each).v,
        damping_effective: unit.minus(ops, ratio).v,
    }
}

/// A layer of which the ODE's input and output at the first position are wide enough.
pub open spec fn readable<T>(c: Option<FfnCache<T>>, n: int) -> bool {
    match c {
        Some(f) => f.precond@.len() > 0 && f.kerr_out@.len() > 0 && 2 * n <= f.precond@[0]@.len()
            && 2 * n <= f.kerr_out@[0]@.len(),
        None => false,
    }
}

/// The layers that can be read, among the first `upto`.
pub open spec fn readable_layers<T>(caches: Seq<Option<FfnCache<T>>>, n: int, upto: int) -> Seq<int>
    decreases upto,
{
    if upto <= 0 {
        Seq::empty()
    } else {
        let rest = readable_layers(caches, n, upto - 1);
        if readable(caches[upto - 1], n) {
            rest.push(upto - 1)
        } else {
            rest
        }
    }
}

/// How the ODE of every layer that can be read behaves at the first position.
pub fn analyze_ode_dynamics<T: Copy, A: Arith<T>>(
    ops: &A,
    caches: &Vec<Option<FfnCache<T>>>,
    n_bands: usize,
) -> (stats: Vec<OdeDynamicsStats<T>>)
    requires
        2 * n_bands <= usize::MAX,
    ensures
        ({
            let layers = readable_layers(caches@, n_bands as int, caches@.len() as int);
            &&& stats@.len() == layers.len()
            &&& forall|i: int|
                0 <= i < stats@.len() ==> stats_of_layer(
                    *ops,
                    caches@,
                    n_bands as int,
                    layers[i],
                    #[trigger] stats@[i],
                )
        }),
{
    let n: usize = caches.len();
    let mut stats: Vec<OdeDynamicsStats<T>> = Vec::new();
    let mut l: usize = 0;
    while l < n
        invariant
            2 * n_bands <= usize::MAX,
            n == caches@.len(),
            l <= n,
            stats@.len() == readable_layers(caches@, n_bands as int, l as int).len(),
            forall|i: int|
                0 <= i < stats@.len() ==> stats_of_layer(
                    *ops,
                    caches@,
                    n_bands as int,
                    readable_layers(caches@, n_bands as int, l as int)[i],
                    #[trigger] stats@[i],
                ),
        decreases n - l,
    {
        if let Some(f) = &caches[l] {
            if f.precond.len() > 0 && f.kerr_out.len() > 0 && f.precond[0].len() >= 2 * n_bands
                && f.kerr_out[0].len() >= 2 * n_bands {
                let s: OdeDynamicsStats<T> = layer_dynamics(
                    ops,
                    l,
                    &f.precond[0],
                    &f.kerr_out[0],
                    n_bands,
                );
                stats.push(s);
            }
        }
        l += 1;
    }
    stats
}

/// The behaviour of a layer that was read.
pub open spec fn stats_of_layer<T: Copy, A: Arith<T>>(
    ops: A,
    caches: Seq<Option<FfnCache<T>>>,
    n: int,
    l: int,
    s: OdeDynamicsStats<T>,
) -> bool {
    &&& s.layer == l
    &&& caches[l] matches Some(f) && dynamics_fit(ops, f.precond@[0]@, f.kerr_out@[0]@, n, s)
}

/// The numbers of a layer's behaviour, printed.
pub struct DynamicsTexts {
    pub layer: usize,
    pub phase_vel: String,
    pub energy_in: String,
    pub energy_out: String,
    pub energy_ratio: String,
    pub band_std: String,
    pub damping: String,
}

/// The entry of a layer.
pub open spec fn dynamics_entry(t: DynamicsTexts) -> Seq<char> {
    object_text(
        seq![
            ("layer"@, decimal(t.layer as nat)),
            ("phase_vel"@, t.phase_vel@),
            ("energy_in"@, t.energy_in@),
            ("energy_out"@, t.energy_out@),
            ("energy_ratio"@, t.energy_ratio@),
            ("band_std"@, t.band_std@),
            ("damping"@, t.damping@),
        ],
    )
}

fn dynamics_object(t: &DynamicsTexts) -> (out: String)
    ensures
        out@ == dynamics_entry(*t),
{
    let mut fields: Vec<Field> = Vec::new();
    fields.push(field("layer", number(t.layer)));
    fields.push(field("phase_vel", owned(t.phase_vel.as_str())));
    fields.push(field("energy_in", owned(t.energy_in.as_str())));
    fields.push(field("energy_out", owned(t.energy_out.as_str())));
    fields.push(field("energy_ratio", owned(t.energy_ratio.as_str())));
    fields.push(field("band_std", owned(t.band_std.as_str())));
    fields.push(field("damping", owned(t.damping.as_str())));
    assert(field_texts(fields@) =~= seq![
        ("layer"@, decimal(t.layer as nat)),
        ("phase_vel"@, t.phase_vel@),
        ("energy_in"@, t.energy_in@),
        ("energy_out"@, t.energy_out@),
        ("energy_ratio"@, t.energy_ratio@),
        ("band_std"@, t.band_std@),
        ("damping"@, t.damping@),
    ]);
    object(&fields)
}

/// The entries of the layers.
pub open spec fn dynamics_entries(ts: Seq<DynamicsTexts>) -> Seq<Seq<char>> {
    ts.map_values(|t: DynamicsTexts| dynamics_entry(t))
}

/// The fragment of the layers' behaviour: nothing where there are none.
pub fn dynamics_to_json(ts: &Vec<DynamicsTexts>) -> (out: String)
    ensures
        out@ == (if ts@.len() == 0 {
            Seq::<char>::empty()
        } else {
            member_text("ode_dynamics"@, array_text(dynamics_entries(ts@)))
        }),
{
    let n: usize = ts.len();
    if n == 0 {
        return String::new();
    }
    let mut parts: Vec<String> = Vec::new();
    let mut i: usize = 0;
    while i < n
        invariant
            n == ts@.len(),
            i <= n,
            parts@.len() == i,
            forall|k: int| 0 <= k < i ==> (#[trigger] parts@[k])@ == dynamics_entry(ts@[k]),
        decreases n - i,
    {
        parts.push(dynamics_object(&ts[i]));
        i += 1;
    }
    assert(texts(parts@) =~= dynamics_entries(ts@));
    let body: String = array(&parts);
    member("ode_dynamics", body.as_str())
}

/// Magnitude and phase of a band.
pub struct BandState<T> {
    pub mag: T,
    pub phase: T,
}

/// What the ODE of a layer gets and gives at a position, band by band.
pub struct OdeSnapshot<T> {
    pub layer: usize,
    pub position: usize,
    pub precond: Vec<BandState<T>>,
    pub kerr_out: Vec<BandState<T>>,
}

/// The bands of a vector.
pub open spec fn bands_fit<T: Copy, A: Arith<T>>(
    ops: A,
    x: Seq<T>,
    n: int,
    bands: Seq<BandState<T>>,
) -> bool {
    &&& bands.len() == n
    &&& forall|k: int|
        0 <= k < n ==> fits(ops, mags_of(vals(x), n)[k], (#[trigger] bands[k]).mag) && fits(
            ops,
            phases_of(vals(x), n)[k],
            bands[k].phase,
        )
}

/// The bands of a vector.
pub fn to_band_states<T: Copy, A: Arith<T>>(ops: &A, data: &[T], n_bands: usize) -> (bands: Vec<
    BandState<T>,
>)
    requires
        2 * n_bands <= data@.len(),
    ensures
        bands_fit(*ops, data@, n_bands as int, bands@),
{
    let x: TracedVec<T> = traced(ops, data);
    let mags: TracedVec<T> = mags_on(ops, &x, n_bands);
    let phases: TracedVec<T> = phases_on(ops, &x, n_bands);
    let mut bands: Vec<BandState<T>> = Vec::new();
    let mut k: usize = 0;
    while k < n_bands
        invariant
            mags.ok(*ops),
            phases.ok(*ops),
            mags.v@.len() == n_bands,
            phases.v@.len() == n_bands,
            mags.e@ == mags_of(vals(data@), n_bands as int),
            phases.e@ == phases_of(vals(data@), n_bands as int),
            k <= n_bands,
            bands@.len() == k,
            forall|i: int|
                0 <= i < k ==> fits(*ops, mags.e@[i], (#[trigger] bands@[i]).mag) && fits(
                    *ops,
                    phases.e@[i],
                    bands@[i].phase,
                ),
        decreases n_bands - k,
    {
        let m: Traced<T> = mags.get(ops, k);
        let p: Traced<T> = phases.get(ops, k);
        bands.push(BandState { mag: m.v, phase: p.v });
        k += 1;
    }
    bands
}

/// The layers whose cache holds a position, among the first `upto`.
pub open spec fn layers_at<T>(
    caches: Seq<Option<FfnCache<T>>>,
    position: int,
    upto: int,
) -> Seq<int>
    decreases upto,
{
    if upto <= 0 {
        Seq::empty()
    } else {
        let rest = layers_at(caches, position, upto - 1);
        match caches[upto - 1] {
            Some(f) => if position < f.precond@.len() {
                rest.push(upto - 1)
            } else {
                rest
            },
            None => rest,
        }
    }
}

/// A snapshot of a layer.
pub open spec fn snapshot_fits<T: Copy, A: Arith<T>>(
    ops: A,
    caches: Seq<Option<FfnCache<T>>>,
    position: int,
    n: int,
    l: int,
    s: OdeSnapshot<T>,
) -> bool {
    &&& s.layer == l
    &&& s.position == position
    &&& caches[l] matches Some(f) && bands_fit(ops, f.precond@[position]@, n, s.precond@)
        && bands_fit(ops, f.kerr_out@[position]@, n, s.kerr_out@)
}

/// Caches that are wide enough wherever they hold a position.
pub open spec fn caches_cover<T>(caches: Seq<Option<FfnCache<T>>>, position: int, n: int) -> bool {
    forall|l: int|
        0 <= l < caches.len() ==> (#[trigger] caches[l] matches Some(f) ==> (position
            < f.precond@.len() ==> {
            &&& position < f.kerr_out@.len()
            &&& 2 * n <= f.precond@[position]@.len()
            &&& 2 * n <= f.kerr_out@[position]@.len()
        }))
}

/// What the ODE of every layer gets and gives at a position.
pub fn extract_ode_data<T: Copy, A: Arith<T>>(
    ops: &A,
    caches: &Vec<Option<FfnCache<T>>>,
    n_bands: usize,
    position: usize,
) -> (out: Vec<OdeSnapshot<T>>)
    requires
        caches_cover(caches@, position as int, n_bands as int),
    ensures
        ({
            let layers = layers_at(caches@, position as int, caches@.len() as int);
            &&& out@.len() == layers.len()
            &&& forall|i: int|
                0 <= i < out@.len() ==> snapshot_fits(
                    *ops,
                    caches@,
                    position as int,
                    n_bands as int,
                    layers[i],
                    #[trigger] out@[i],
                )
        }),
{
    let n: usize = caches.len();
    let mut out: Vec<OdeSnapshot<T>> = Vec::new();
    let mut l: usize = 0;
    while l < n
        invariant
            caches_cover(caches@, position as int, n_bands as int),
            n == caches@.len(),
            l <= n,
            out@.len() == layers_at(caches@, position as int, l as int).len(),
            forall|i: int|
                0 <= i < out@.len() ==> snapshot_fits(
                    *ops,
                    caches@,
                    position as int,
                    n_bands as int,
                    layers_at(caches@, position as int, l as int)[i],
                    #[trigger] out@[i],
                ),
        decreases n - l,
    {
        let c: &Option<FfnCache<T>> = &caches[l];
        assert(*c == caches@[l as int]);
        if let Some(f) = c {
            if position < f.precond.len() {
                let s = OdeSnapshot {
                    layer: l,
                    position,
                    precond: to_band_states(ops, &f.precond[position], n_bands),
                    kerr_out: to_band_states(ops, &f.kerr_out[position], n_bands),
                };
                out.push(s);
            }
        }
        l += 1;
    }
    out
}

/// The phases of two readings, band by band, and what they differ by.
pub open spec fn differences_of<T>(
    a: Seq<BandState<T>>,
    b: Seq<BandState<T>>,
    n: int,
) -> Seq<Expr<T>> {
    Seq::new(n as nat, |k: int| wrapped_of(minus(val(a[k].phase), val(b[k].phase))))
}

/// Bands by how much two readings differ.
pub struct Divergence<T> {
    /// What the phases of every band differ by.
    pub by: Vec<T>,
    /// Every band with the size of its difference, the largest first.
    pub order: Vec<(usize, T)>,
    /// The mean size.
    pub mean: T,
}

/// Bands by how much the phases of two readings differ: between input and output of one
/// layer, or between the outputs for two prompts.
pub fn divergence<T: Copy, A: Arith<T>>(
    ops: &A,
    a: &Vec<BandState<T>>,
    b: &Vec<BandState<T>>,
    n_bands: usize,
) -> (out: Divergence<T>)
    requires
        n_bands <= a@.len(),
        n_bands <= b@.len(),
        n_bands < usize::MAX,
    ensures
        fits_all(*ops, differences_of(a@, b@, n_bands as int), out.by@),
        exists|sizes: Seq<T>|
            fits_all(*ops, sizes_of(vals(out.by@)), sizes) && out.order@.to_multiset() == (
            #[trigger] placed(sizes, 0)).to_multiset(),
        falling(*ops, out.order@),
        fits(*ops, mean_of(sizes_of(vals(out.by@))), out.mean),
{
    let f = |k: usize| -> (r: Traced<T>)
        requires
            k < n_bands,
        ensures
            r.ok(*ops),
            r.e@ == entry(differences_of(a@, b@, n_bands as int), k),
    {
        let d: Traced<T> = Traced::of(ops, a[k].phase).minus(ops, Traced::of(ops, b[k].phase));
        wrapped_on(ops, d)
    };
    let by: TracedVec<T> = build(
        ops,
        n_bands,
        Ghost(differences_of(a@, b@, n_bands as int)),
        f,
    );
    let sizes: TracedVec<T> = sizes_on(ops, &traced(ops, &by.v));
    let order: Vec<(usize, T)> = sorted_peaks(ops, &sizes.v, 0);
    let mean: Traced<T> = mean_on(ops, &sizes);
    assert(order@.to_multiset() == placed(sizes.v@, 0).to_multiset());
    Divergence { by: by.v, order, mean: mean.v }
}

/// How fast an iteration ran.
pub struct ThroughputStats<T> {
    pub tokens_per_sec: T,
    pub iters_per_sec: T,
    pub forward_ms: T,
    pub backward_ms: T,
    pub optimizer_ms: T,
}

/// `x` for every second, zero where no time passed.
pub open spec fn rate_of<T>(x: Expr<T>, ms: T) -> Expr<T> {
    let secs = over(val(ms), Expr::Ratio(1000, 1));
    pick(Test::Exceeds, secs, zero(), over(x, secs), zero())
}

/// How fast an iteration ran. What is left of its time after the pass and the optimiser
/// counts as the way back.
pub fn compute<T: Copy, A: Arith<T>>(
    ops: &A,
    batch_size: usize,
    seq_len: usize,
    iter_elapsed_ms: T,
    fwd_bwd_ms: T,
    optimizer_ms: T,
) -> (s: ThroughputStats<T>)
    requires
        batch_size * seq_len <= usize::MAX,
    ensures
        fits(
            *ops,
            rate_of(Expr::Count((batch_size * seq_len) as usize), iter_elapsed_ms),
            s.tokens_per_sec,
        ),
        fits(*ops, rate_of(one(), iter_elapsed_ms), s.iters_per_sec),
        s.forward_ms == fwd_bwd_ms,
        fits(
            *ops,
            larger(
                minus(minus(val(iter_elapsed_ms), val(fwd_bwd_ms)), val(optimizer_ms)),
                zero(),
            ),
            s.backward_ms,
        ),
        s.optimizer_ms == optimizer_ms,
{
    let nought: Traced<T> = Traced::ratio(ops, 0, 1);
    let tokens: Traced<T> = Traced::count(ops, batch_size * seq_len);
    let whole: Traced<T> = Traced::of(ops, iter_elapsed_ms);
    let secs: Traced<T> = whole.over(ops, Traced::ratio(ops, 1000, 1));
    let tps: Traced<T> = pick_on(
        ops,
        Test::Exceeds,
        secs,
        nought,
        tokens.over(ops, secs),
        nought,
    );
    let ips: Traced<T> = pick_on(
        ops,
        Test::Exceeds,
        secs,
        nought,
        Traced::ratio(ops, 1, 1).over(ops, secs),
        nought,
    );
    let rest: Traced<T> = whole.minus(ops, Traced::of(ops, fwd_bwd_ms)).minus(
        ops,
        Traced::of(ops, optimizer_ms),
    ).larger(ops, nought);
    ThroughputStats {
        tokens_per_sec: tps.v,
        iters_per_sec: ips.v,
        forward_ms: fwd_bwd_ms,
        backward_ms: rest.v,
        optimizer_ms,
    }
}

/// The fragment of an iteration's speed, with its numbers printed.
pub fn throughput_to_json(tok_s: &str, iter_s: &str, fwd_ms: &str, bwd_ms: &str, opt_ms: &str) -> (out:
    String)
    ensures
        out@ == member_text(
            "throughput"@,
            object_text(
                seq![
                    ("tok_s"@, tok_s@),
                    ("iter_s"@, iter_s@),
                    ("fwd_ms"@, fwd_ms@),
                    ("bwd_ms"@, bwd_ms@),
                    ("opt_ms"@, opt_ms@),
                ],
            ),
        ),
{
    let mut fields: Vec<Field> = Vec::new();
    fields.push(field("tok_s", owned(tok_s)));
    fields.push(field("iter_s", owned(iter_s)));
    fields.push(field("fwd_ms", owned(fwd_ms)));
    fields.push(field("bwd_ms", owned(bwd_ms)));
    fields.push(field("opt_ms", owned(opt_ms)));
    assert(field_texts(fields@) =~= seq![
        ("tok_s"@, tok_s@),
        ("iter_s"@, iter_s@),
        ("fwd_ms"@, fwd_ms@),
        ("bwd_ms"@, bwd_ms@),
        ("opt_ms"@, opt_ms@),
    ]);
    let body: String = object(&fields);
    member("throughput", body.as_str())
}

} // verus!
