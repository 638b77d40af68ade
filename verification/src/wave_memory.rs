//! The memory of past conversations: states that the oscillators start from, and what the
//! memory holds.

use vstd::prelude::*;
use crate::arith::{Arith, Traced, TracedVec, build, total};
#[allow(unused_imports)]
use crate::arith::{
    Expr, Unary, angle, entry, fits, fits_all, minus, one, over, plus, times, total_of, un, val,
    zero,
};
use crate::coherence::argmax;
#[allow(unused_imports)]
use crate::coherence::last_top;
use crate::encode::catalog_distribution;
#[allow(unused_imports)]
use crate::encode::{comma_if, counts, listed, matches_of, pair_rows, ranked};
use crate::json::owned;
use crate::kerr::{Offsets, energy_on};
#[allow(unused_imports)]
use crate::kerr::energy_of;
use crate::layers::mean_on;
#[allow(unused_imports)]
use crate::layers::mean_of;
use crate::phase_report::{CatalogMatch, matches_on};
#[allow(unused_imports)]
use crate::phase_report::found;
use crate::relations::RelationType;
use crate::sub_harmonic::{argmin, sorted_peaks};
#[allow(unused_imports)]
use crate::sub_harmonic::{falling, first_low, placed};
use crate::text::append_decimal;
#[allow(unused_imports)]
use crate::text::decimal;

verus! {

/// How strongly a memory is felt, and how slowly it changes.
#[derive(Clone, Copy)]
pub struct MemoryConfig<T> {
    pub alpha: T,
    pub beta: T,
}

/// What remains of past conversations: a state of every band for every layer.
pub struct WaveMemory<T> {
    pub config: MemoryConfig<T>,
    pub n_bands: usize,
    pub n_convos: usize,
    pub layers: Vec<Offsets<T>>,
}

/// A state of `n` bands.
pub open spec fn of_bands<T>(s: Offsets<T>, n: int) -> bool {
    s.r@.len() == n && s.s@.len() == n
}

impl<T: Copy> WaveMemory<T> {
    /// Every layer has all bands.
    pub open spec fn wf(&self) -> bool {
        forall|l: int|
            0 <= l < self.layers@.len() ==> of_bands(#[trigger] self.layers@[l], self.n_bands as int)
    }

    /// A memory of nothing.
    pub fn zeros<A: Arith<T>>(ops: &A, config: MemoryConfig<T>, n_layers: usize, n_bands: usize) -> (m:
        Self)
        ensures
            m.wf(),
            m.config == config,
            m.n_bands == n_bands,
            m.n_convos == 0,
            m.layers@.len() == n_layers,
            forall|l: int|
                0 <= l < n_layers ==> {
                    &&& fits_all(
                        *ops,
                        Seq::new(n_bands as nat, |k: int| zero()),
                        (#[trigger] m.layers@[l]).r@,
                    )
                    &&& fits_all(
                        *ops,
                        Seq::new(n_bands as nat, |k: int| zero()),
                        m.layers@[l].s@,
                    )
                },
    {
        let mut layers: Vec<Offsets<T>> = Vec::new();
        let mut l: usize = 0;
        while l < n_layers
            invariant
                l <= n_layers,
                layers@.len() == l,
                forall|j: int|
                    0 <= j < l ==> {
                        &&& fits_all(
                            *ops,
                            Seq::new(n_bands as nat, |k: int| zero()),
                            (#[trigger] layers@[j]).r@,
                        )
                        &&& fits_all(
                            *ops,
                            Seq::new(n_bands as nat, |k: int| zero()),
                            layers@[j].s@,
                        )
                    },
            decreases n_layers - l,
        {
            let r: Vec<T> = TracedVec::zeros(ops, n_bands).v;
            let s: Vec<T> = TracedVec::zeros(ops, n_bands).v;
            layers.push(Offsets { r, s });
            l += 1;
        }
        WaveMemory { config, n_bands, n_convos: 0, layers }
    }
}

/// A state scaled.
pub open spec fn scaled_of<T>(alpha: T, xs: Seq<T>) -> Seq<Expr<T>> {
    Seq::new(xs.len(), |k: int| times(val(alpha), val(xs[k])))
}

fn scaled_on<T: Copy, A: Arith<T>>(ops: &A, alpha: T, xs: &Vec<T>) -> (out: Vec<T>)
    ensures
        fits_all(*ops, scaled_of(alpha, xs@), out@),
{
    let n: usize = xs.len();
    let f = |k: usize| -> (r: Traced<T>)
        requires
            k < n,
        ensures
            r.ok(*ops),
            r.e@ == entry(scaled_of(alpha, xs@), k),
    {
        Traced::of(ops, alpha).times(ops, Traced::of(ops, xs[k]))
    };
    let out: TracedVec<T> = build(ops, n, Ghost(scaled_of(alpha, xs@)), f);
    out.v
}

/// What a memory adds to the states that the oscillators of every layer start from: its
/// states, scaled by how strongly it is felt.
pub fn build_offsets<T: Copy, A: Arith<T>>(ops: &A, memory: &WaveMemory<T>) -> (out: Vec<Offsets<T>>)
    ensures
        out@.len() == memory.layers@.len(),
        forall|l: int|
            0 <= l < out@.len() ==> {
                &&& fits_all(
                    *ops,
                    scaled_of(memory.config.alpha, memory.layers@[l].r@),
                    (#[trigger] out@[l]).r@,
                )
                &&& fits_all(
                    *ops,
                    scaled_of(memory.config.alpha, memory.layers@[l].s@),
                    out@[l].s@,
                )
            },
{
    let n: usize = memory.layers.len();
    let mut out: Vec<Offsets<T>> = Vec::new();
    let mut l: usize = 0;
    while l < n
        invariant
            n == memory.layers@.len(),
            l <= n,
            out@.len() == l,
            forall|j: int|
                0 <= j < l ==> {
                    &&& fits_all(
                        *ops,
                        scaled_of(memory.config.alpha, memory.layers@[j].r@),
                        (#[trigger] out@[j]).r@,
                    )
                    &&& fits_all(
                        *ops,
                        scaled_of(memory.config.alpha, memory.layers@[j].s@),
                        out@[j].s@,
                    )
                },
        decreases n - l,
    {
        let r: Vec<T> = scaled_on(ops, memory.config.alpha, &memory.layers[l].r);
        let s: Vec<T> = scaled_on(ops, memory.config.alpha, &memory.layers[l].s);
        out.push(Offsets { r, s });
        l += 1;
    }
    out
}

/// A remembered state after a conversation: the share `beta` of the old one and the rest of
/// the new one, for the first `upto` bands.
pub open spec fn merged_of<T>(beta: T, past: Seq<T>, seen: Seq<T>, upto: int) -> Seq<Expr<T>> {
    Seq::new(
        past.len(),
        |k: int|
            if k < upto {
                plus(
                    times(val(beta), val(past[k])),
                    times(minus(one(), val(beta)), val(seen[k])),
                )
            } else {
                val(past[k])
            },
    )
}

fn merged_on<T: Copy, A: Arith<T>>(ops: &A, beta: T, past: &Vec<T>, seen: &Vec<T>, upto: usize) -> (out:
    Vec<T>)
    requires
        upto <= seen@.len(),
    ensures
        fits_all(*ops, merged_of(beta, past@, seen@, upto as int), out@),
{
    let n: usize = past.len();
    let b: Traced<T> = Traced::of(ops, beta);
    let w: Traced<T> = Traced::ratio(ops, 1, 1).minus(ops, b);
    let f = |k: usize| -> (r: Traced<T>)
        requires
            k < n,
        ensures
            r.ok(*ops),
            r.e@ == entry(merged_of(beta, past@, seen@, upto as int), k),
    {
        let p: Traced<T> = Traced::of(ops, past[k]);
        if k < upto {
            b.times(ops, p).plus(ops, w.times(ops, Traced::of(ops, seen[k])))
        } else {
            p
        }
    };
    let out: TracedVec<T> = build(ops, n, Ghost(merged_of(beta, past@, seen@, upto as int)), f);
    out.v
}

/// Number of bands that a memory takes from a reading.
pub open spec fn taken(n_bands: usize, seen: int) -> int {
    if n_bands <= seen {
        n_bands as int
    } else {
        seen
    }
}

/// A layer after a conversation; layers without a reading stay.
pub open spec fn layer_merged<T: Copy, A: Arith<T>>(
    ops: A,
    m: WaveMemory<T>,
    seen: Seq<Offsets<T>>,
    l: int,
    out: Offsets<T>,
) -> bool {
    if l < seen.len() {
        let upto = taken(m.n_bands, seen[l].r@.len() as int);
        &&& fits_all(ops, merged_of(m.config.beta, m.layers@[l].r@, seen[l].r@, upto), out.r@)
        &&& fits_all(ops, merged_of(m.config.beta, m.layers@[l].s@, seen[l].s@, upto), out.s@)
    } else {
        out.r@ == m.layers@[l].r@ && out.s@ == m.layers@[l].s@
    }
}

/// Readings of both parts of every state.
pub open spec fn readings<T>(seen: Seq<Offsets<T>>) -> bool {
    forall|l: int| 0 <= l < seen.len() ==> (#[trigger] seen[l]).r@.len() <= seen[l].s@.len()
}

/// Takes what was read off the oscillators in a conversation into a memory. Readings of more
/// layers than the memory has are passed over.
pub fn merge_ode_states<T: Copy, A: Arith<T>>(
    ops: &A,
    memory: &mut WaveMemory<T>,
    ode_states: &Vec<Offsets<T>>,
)
    requires
        old(memory).wf(),
        old(memory).n_convos < usize::MAX,
        readings(ode_states@),
    ensures
        final(memory).wf(),
        final(memory).config == old(memory).config,
        final(memory).n_bands == old(memory).n_bands,
        final(memory).n_convos == old(memory).n_convos + 1,
        final(memory).layers@.len() == old(memory).layers@.len(),
        forall|l: int|
            0 <= l < old(memory).layers@.len() ==> layer_merged(
                *ops,
                *old(memory),
                ode_states@,
                l,
                #[trigger] final(memory).layers@[l],
            ),
{
    let n: usize = memory.layers.len();
    let m: usize = ode_states.len();
    let beta: T = memory.config.beta;
    let bands: usize = memory.n_bands;
    let ghost past = *memory;
    let mut l: usize = 0;
    while l < m && l < n
        invariant
            past.wf(),
            readings(ode_states@),
            m == ode_states@.len(),
            n == past.layers@.len(),
            bands == past.n_bands,
            beta == past.config.beta,
            l <= n,
            l <= m,
            memory.config == past.config,
            memory.n_bands == past.n_bands,
            memory.n_convos == past.n_convos,
            memory.layers@.len() == n,
            forall|j: int|
                0 <= j < l ==> layer_merged(
                    *ops,
                    past,
                    ode_states@,
                    j,
                    #[trigger] memory.layers@[j],
                ),
            forall|j: int| l <= j < n ==> #[trigger] memory.layers@[j] == past.layers@[j],
            memory.wf(),
        decreases n - l,
    {
        let have: usize = ode_states[l].r.len();
        let upto: usize = if bands <= have {
            bands
        } else {
            have
        };
        assert(of_bands(memory.layers@[l as int], bands as int));
        let r: Vec<T> = merged_on(ops, beta, &memory.layers[l].r, &ode_states[l].r, upto);
        let s: Vec<T> = merged_on(ops, beta, &memory.layers[l].s, &ode_states[l].s, upto);
        let next: Offsets<T> = Offsets { r, s };
        assert(of_bands(next, bands as int));
        memory.layers.set(l, next);
        l += 1;
    }
    memory.n_convos = memory.n_convos + 1;
}

/// What a memory holds of a layer.
pub struct MemoryLayerScan<T> {
    pub layer: usize,
    pub avg_magnitude: T,
    pub max_band: usize,
    pub max_magnitude: T,
    pub min_band: usize,
    pub min_magnitude: T,
    pub top_bands: Vec<(usize, T)>,
    pub catalog_matches: Vec<(RelationType, usize)>,
    pub total_energy: T,
    pub band_phases: Vec<T>,
    pub band_magnitudes: Vec<T>,
}

/// The phases of a remembered state.
pub open spec fn held_phases<T>(s: Offsets<T>, n: int) -> Seq<Expr<T>> {
    Seq::new(n as nat, |k: int| angle(val(s.s@[k]), val(s.r@[k])))
}

/// The magnitudes of a remembered state.
pub open spec fn held_mags<T>(s: Offsets<T>, n: int) -> Seq<Expr<T>> {
    Seq::new(n as nat, |k: int| un(Unary::Root, energy_of(val(s.r@[k]), val(s.s@[k]))))
}

/// The squares of entries.
pub open spec fn squares_of<T>(xs: Seq<Expr<T>>) -> Seq<Expr<T>> {
    Seq::new(xs.len(), |k: int| times(xs[k], xs[k]))
}

/// The relationships that matches name.
pub open spec fn named<T>(list: Seq<CatalogMatch<T>>) -> Seq<Option<RelationType>> {
    Seq::new(list.len(), |i: int| Some(list[i].rel_type))
}

/// The first five entries of the magnitudes in falling order; of equal ones the lower band comes
/// first.
pub open spec fn top_five<T: Copy, A: Arith<T>>(
    ops: A,
    mags: Seq<T>,
    top: Seq<(usize, T)>,
) -> bool {
    exists|order: Seq<(usize, T)>|
        {
            &&& #[trigger] falling(ops, order)
            &&& order.to_multiset() == placed(mags, 0).to_multiset()
            &&& top == order.take(
                if order.len() <= 5 {
                    order.len() as int
                } else {
                    5
                },
            )
        }
}

/// How often the bands of a remembered state stand in each relationship.
pub open spec fn catalog_fits<T: Copy, A: Arith<T>>(
    ops: A,
    phases: Seq<Expr<T>>,
    out: Seq<(RelationType, usize)>,
) -> bool {
    let n = phases.len() as int;
    let ps = pair_rows(n, n);
    exists|list: Seq<CatalogMatch<T>>|
        {
            &&& #[trigger] found(ops, phases, true, ps, ps.len() as int, list)
            &&& ranked(out)
            &&& counts(out, named(list))
            &&& forall|rel: RelationType|
                matches_of(named(list), rel) > 0 ==> #[trigger] listed(out, rel)
        }
}

/// A scan says what the memory holds of a layer of `n` bands.
pub open spec fn scan_fits<T: Copy, A: Arith<T>>(
    ops: A,
    s: Offsets<T>,
    n: int,
    scan: MemoryLayerScan<T>,
) -> bool {
    let mags = scan.band_magnitudes@;
    &&& fits_all(ops, held_phases(s, n), scan.band_phases@)
    &&& fits_all(ops, held_mags(s, n), mags)
    &&& fits(ops, mean_of(held_mags(s, n)), scan.avg_magnitude)
    &&& fits(ops, total_of(squares_of(held_mags(s, n))), scan.total_energy)
    &&& scan.max_band < n
    &&& last_top(ops, mags, n, scan.max_band as int)
    &&& scan.max_magnitude == mags[scan.max_band as int]
    &&& scan.min_band < n
    &&& first_low(ops, mags, n, scan.min_band as int)
    &&& scan.min_magnitude == mags[scan.min_band as int]
    &&& top_five(ops, mags, scan.top_bands@)
    &&& catalog_fits(ops, held_phases(s, n), scan.catalog_matches@)
}

fn relations_of<T: Copy>(list: &Vec<CatalogMatch<T>>) -> (out: Vec<Option<RelationType>>)
    ensures
        out@ == named(list@),
{
    let n: usize = list.len();
    let mut out: Vec<Option<RelationType>> = Vec::new();
    let mut i: usize = 0;
    while i < n
        invariant
            n == list@.len(),
            i <= n,
            out@ == named(list@).take(i as int),
        decreases n - i,
    {
        out.push(Some(list[i].rel_type));
        i += 1;
        assert(out@ =~= named(list@).take(i as int));
    }
    assert(out@ =~= named(list@));
    out
}

fn catalog_counts<T: Copy, A: Arith<T>>(ops: &A, phases: &TracedVec<T>) -> (out: Vec<
    (RelationType, usize),
>)
    requires
        phases.ok(*ops),
    ensures
        catalog_fits(*ops, phases.e@, out@),
{
    let list: Vec<CatalogMatch<T>> = matches_on(ops, phases, true);
    let rels: Vec<Option<RelationType>> = relations_of(&list);
    let out: Vec<(RelationType, usize)> = catalog_distribution(&rels);
    proof {
        let n = phases.e@.len() as int;
        assert(found(
            *ops,
            phases.e@,
            true,
            pair_rows(n, n),
            pair_rows(n, n).len() as int,
            list@,
        ));
    }
    out
}

fn five_largest<T: Copy, A: Arith<T>>(ops: &A, mags: &Vec<T>) -> (top: Vec<(usize, T)>)
    ensures
        top_five(*ops, mags@, top@),
{
    let n: usize = mags.len();
    let mut top: Vec<(usize, T)> = sorted_peaks(ops, mags, 0);
    let ghost order = top@;
    top.truncate(5);
    assert(falling(*ops, order));
    assert(top@ =~= order.take(
        if order.len() <= 5 {
            order.len() as int
        } else {
            5
        },
    ));
    top
}

fn scan_layer<T: Copy, A: Arith<T>>(ops: &A, layer: usize, s: &Offsets<T>, n: usize) -> (scan:
    MemoryLayerScan<T>)
    requires
        of_bands(*s, n as int),
        n > 0,
    ensures
        scan.layer == layer,
        scan_fits(*ops, *s, n as int, scan),
{
    let f = |k: usize| -> (r: Traced<T>)
        requires
            k < n,
        ensures
            r.ok(*ops),
            r.e@ == entry(held_phases(*s, n as int), k),
    {
        Traced::of(ops, s.s[k]).angle(ops, Traced::of(ops, s.r[k]))
    };
    let phases: TracedVec<T> = build(ops, n, Ghost(held_phases(*s, n as int)), f);
    let g = |k: usize| -> (r: Traced<T>)
        requires
            k < n,
        ensures
            r.ok(*ops),
            r.e@ == entry(held_mags(*s, n as int), k),
    {
        energy_on(ops, Traced::of(ops, s.r[k]), Traced::of(ops, s.s[k])).root(ops)
    };
    let mags: TracedVec<T> = build(ops, n, Ghost(held_mags(*s, n as int)), g);
    let mean: Traced<T> = mean_on(ops, &mags);
    let h = |k: usize| -> (r: Traced<T>)
        requires
            k < n,
        ensures
            r.ok(*ops),
            r.e@ == entry(squares_of(mags.e@), k),
    {
        let m: Traced<T> = mags.get(ops, k);
        m.times(ops, m)
    };
    let squares: TracedVec<T> = build(ops, n, Ghost(squares_of(mags.e@)), h);
    let energy: Traced<T> = total(ops, &squares);
    let max_band: usize = argmax(ops, &mags.v);
    let min_band: usize = argmin(ops, &mags.v);
    let top_bands: Vec<(usize, T)> = five_largest(ops, &mags.v);
    let catalog_matches: Vec<(RelationType, usize)> = catalog_counts(ops, &phases);
    MemoryLayerScan {
        layer,
        avg_magnitude: mean.v,
        max_band,
        max_magnitude: mags.v[max_band],
        min_band,
        min_magnitude: mags.v[min_band],
        top_bands,
        catalog_matches,
        total_energy: energy.v,
        band_phases: phases.v,
        band_magnitudes: mags.v,
    }
}

/// What a memory holds, layer by layer.
pub fn scan_memory<T: Copy, A: Arith<T>>(ops: &A, memory: &WaveMemory<T>) -> (scans: Vec<
    MemoryLayerScan<T>,
>)
    requires
        memory.wf(),
        memory.n_bands > 0,
    ensures
        scans@.len() == memory.layers@.len(),
        forall|l: int|
            0 <= l < scans@.len() ==> (#[trigger] scans@[l]).layer == l && scan_fits(
                *ops,
                memory.layers@[l],
                memory.n_bands as int,
                scans@[l],
            ),
{
    let n: usize = memory.layers.len();
    let mut scans: Vec<MemoryLayerScan<T>> = Vec::new();
    let mut l: usize = 0;
    while l < n
        invariant
            memory.wf(),
            memory.n_bands > 0,
            n == memory.layers@.len(),
            l <= n,
            scans@.len() == l,
            forall|j: int|
                0 <= j < l ==> (#[trigger] scans@[j]).layer == j && scan_fits(
                    *ops,
                    memory.layers@[j],
                    memory.n_bands as int,
                    scans@[j],
                ),
        decreases n - l,
    {
        assert(of_bands(memory.layers@[l as int], memory.n_bands as int));
        let scan: MemoryLayerScan<T> = scan_layer(ops, l, &memory.layers[l], memory.n_bands);
        scans.push(scan);
        l += 1;
    }
    scans
}

/// The number of matches of a relationship that a scan counts: none where it is not listed.
pub open spec fn count_of(list: Seq<(RelationType, usize)>, rel: RelationType, n: int) -> usize
    decreases n,
{
    if n <= 0 {
        0
    } else if count_of(list, rel, n - 1) == 0 && list[n - 1].0 == rel {
        list[n - 1].1
    } else {
        count_of(list, rel, n - 1)
    }
}

/// How many pairs of bands are in conjunction.
pub fn conjunctions<T: Copy>(scan: &MemoryLayerScan<T>) -> (n: usize)
    ensures
        n == count_of(
            scan.catalog_matches@,
            RelationType::Conjunction,
            scan.catalog_matches@.len() as int,
        ),
{
    let m: usize = scan.catalog_matches.len();
    let mut n: usize = 0;
    let mut i: usize = 0;
    while i < m
        invariant
            m == scan.catalog_matches@.len(),
            i <= m,
            n == count_of(scan.catalog_matches@, RelationType::Conjunction, i as int),
        decreases m - i,
    {
        if n == 0 && scan.catalog_matches[i].0 == RelationType::Conjunction {
            n = scan.catalog_matches[i].1;
        }
        i += 1;
    }
    n
}

/// A scan with its numbers printed.
pub struct ScanTexts {
    pub layer: usize,
    pub avg_magnitude: String,
    pub total_energy: String,
    pub max_band: usize,
    pub max_magnitude: String,
    pub min_band: usize,
    pub min_magnitude: String,
    pub top_bands: Vec<(usize, String)>,
    pub catalog: Vec<(RelationType, usize)>,
}

/// The first `n` of the strongest bands.
pub open spec fn top_text(top: Seq<(usize, String)>, n: int) -> Seq<char>
    decreases n,
{
    if n <= 0 {
        Seq::empty()
    } else {
        top_text(top, n - 1) + "["@ + decimal(top[n - 1].0 as nat) + ","@ + top[n - 1].1@ + "]"@
            + comma_if(n < top.len())
    }
}

/// The first `n` of the relationships.
pub open spec fn catalog_text(list: Seq<(RelationType, usize)>, n: int) -> Seq<char>
    decreases n,
{
    if n <= 0 {
        Seq::empty()
    } else {
        catalog_text(list, n - 1) + "\""@ + list[n - 1].0.name_of() + "\":"@ + decimal(
            list[n - 1].1 as nat,
        ) + comma_if(n < list.len())
    }
}

/// The entry of a layer in the scan file.
pub open spec fn scan_text(t: ScanTexts, more: bool) -> Seq<char> {
    "    {\n"@ + "      \"layer\": "@ + decimal(t.layer as nat) + ",\n"@
        + "      \"avg_magnitude\": "@ + t.avg_magnitude@ + ",\n"@
        + "      \"total_energy\": "@ + t.total_energy@ + ",\n"@ + "      \"max_band\": "@ + decimal(
        t.max_band as nat,
    ) + ", \"max_magnitude\": "@ + t.max_magnitude@ + ",\n"@ + "      \"min_band\": "@ + decimal(
        t.min_band as nat,
    ) + ", \"min_magnitude\": "@ + t.min_magnitude@ + ",\n"@ + "      \"top_bands\": ["@ + top_text(
        t.top_bands@,
        t.top_bands@.len() as int,
    ) + "],\n"@ + "      \"catalog\": {"@ + catalog_text(t.catalog@, t.catalog@.len() as int)
        + "}\n"@ + "    }"@ + comma_if(more) + "\n"@
}

/// The entries of the first `n` layers in the scan file.
pub open spec fn scans_text(ts: Seq<ScanTexts>, n: int) -> Seq<char>
    decreases n,
{
    if n <= 0 {
        Seq::empty()
    } else {
        scans_text(ts, n - 1) + scan_text(ts[n - 1], n < ts.len())
    }
}

fn append_comma_if(out: &mut String, more: bool)
    ensures
        final(out)@ == old(out)@ + comma_if(more),
{
    if more {
        out.append(",");
    } else {
        out.append("");
    }
}

fn append_top(out: &mut String, top: &Vec<(usize, String)>)
    ensures
        final(out)@ == old(out)@ + top_text(top@, top@.len() as int),
{
    let n: usize = top.len();
    let ghost start = out@;
    let mut i: usize = 0;
    assert(out@ =~= start + top_text(top@, 0));
    while i < n
        invariant
            n == top@.len(),
            i <= n,
            out@ == start + top_text(top@, i as int),
        decreases n - i,
    {
        out.append("[");
        append_decimal(out, top[i].0);
        out.append(",");
        out.append(top[i].1.as_str());
        out.append("]");
        i += 1;
        append_comma_if(out, i < n);
        assert(out@ =~= start + top_text(top@, i as int));
    }
}

fn append_catalog(out: &mut String, list: &Vec<(RelationType, usize)>)
    ensures
        final(out)@ == old(out)@ + catalog_text(list@, list@.len() as int),
{
    let n: usize = list.len();
    let ghost start = out@;
    let mut i: usize = 0;
    assert(out@ =~= start + catalog_text(list@, 0));
    while i < n
        invariant
            n == list@.len(),
            i <= n,
            out@ == start + catalog_text(list@, i as int),
        decreases n - i,
    {
        out.append("\"");
        out.append(list[i].0.name());
        out.append("\":");
        append_decimal(out, list[i].1);
        i += 1;
        append_comma_if(out, i < n);
        assert(out@ =~= start + catalog_text(list@, i as int));
    }
}

fn scan_entry(t: &ScanTexts, more: bool) -> (out: String)
    ensures
        out@ == scan_text(*t, more),
{
    let mut out: String = owned("    {\n");
    out.append("      \"layer\": ");
    append_decimal(&mut out, t.layer);
    out.append(",\n");
    out.append("      \"avg_magnitude\": ");
    out.append(t.avg_magnitude.as_str());
    out.append(",\n");
    out.append("      \"total_energy\": ");
    out.append(t.total_energy.as_str());
    out.append(",\n");
    out.append("      \"max_band\": ");
    append_decimal(&mut out, t.max_band);
    out.append(", \"max_magnitude\": ");
    out.append(t.max_magnitude.as_str());
    out.append(",\n");
    out.append("      \"min_band\": ");
    append_decimal(&mut out, t.min_band);
    out.append(", \"min_magnitude\": ");
    out.append(t.min_magnitude.as_str());
    out.append(",\n");
    out.append("      \"top_bands\": [");
    append_top(&mut out, &t.top_bands);
    out.append("],\n");
    out.append("      \"catalog\": {");
    append_catalog(&mut out, &t.catalog);
    out.append("}\n");
    out.append("    }");
    append_comma_if(&mut out, more);
    out.append("\n");
    out
}

/// The scan file: what a memory holds, layer by layer. `alpha` and `beta` are its settings,
/// printed.
pub fn memory_scan_json(
    n_layers: usize,
    n_bands: usize,
    n_convos: usize,
    alpha: &str,
    beta: &str,
    scans: &Vec<ScanTexts>,
) -> (out: String)
    ensures
        out@ == "{\n  \"n_layers\": "@ + decimal(n_layers as nat) + ",\n  \"n_bands\": "@ + decimal(
            n_bands as nat,
        ) + ",\n  \"n_convos\": "@ + decimal(n_convos as nat) + ",\n"@
            + "  \"config\": {\"alpha\": "@ + alpha@ + ", \"beta\": "@ + beta@ + "},\n"@
            + "  \"layers\": [\n"@ + scans_text(scans@, scans@.len() as int) + "  ]\n}\n"@,
{
    let mut out: String = owned("{\n  \"n_layers\": ");
    append_decimal(&mut out, n_layers);
    out.append(",\n  \"n_bands\": ");
    append_decimal(&mut out, n_bands);
    out.append(",\n  \"n_convos\": ");
    append_decimal(&mut out, n_convos);
    out.append(",\n");
    out.append("  \"config\": {\"alpha\": ");
    out.append(alpha);
    out.append(", \"beta\": ");
    out.append(beta);
    out.append("},\n");
    out.append("  \"layers\": [\n");
    let n: usize = scans.len();
    let ghost start = out@;
    let mut i: usize = 0;
    assert(out@ =~= start + scans_text(scans@, 0));
    while i < n
        invariant
            n == scans@.len(),
            i <= n,
            out@ == start + scans_text(scans@, i as int),
        decreases n - i,
    {
        out.append(scan_entry(&scans[i], i + 1 < n).as_str());
        i += 1;
        assert(out@ =~= start + scans_text(scans@, i as int));
    }
    out.append("  ]\n}\n");
    out
}

} // verus!
