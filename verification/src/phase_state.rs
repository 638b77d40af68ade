//! States encoded as phases: relationships, numbers and phases written into the bands, and
//! the relationship that an angle stands for.

use vstd::prelude::*;
use crate::arith::{Arith, Test, Traced, TracedVec, build, holds, pick_on};
#[allow(unused_imports)]
use crate::arith::{
    Expr, Unary, angle, entry, fits, fits_all, larger, minus, one, over, pick, plus, test_is, times,
    un, val, zero,
};
use crate::encode::{GridPhase, PhaseStep, Target, number_phases, reference_band, relationship_steps};
#[allow(unused_imports)]
use crate::encode::{clamped, grid_phases, law_steps_stay_in_range, steps_of};
use crate::kerr::energy_on;
#[allow(unused_imports)]
use crate::kerr::energy_of;
use crate::relations::{CatalogConfig, CatalogEntry, RelationType, catalog};
#[allow(unused_imports)]
use crate::relations::catalog_order;

verus! {

/// What is to be encoded as a state of phases.
pub enum Encoding<T> {
    Text(String),
    Number(u64),
    Catalog(Vec<CatalogConfig>),
    RawPhases(Vec<(usize, T)>),
}

/// An angle in degrees.
pub open spec fn degrees_of<T>(x: Expr<T>) -> Expr<T> {
    times(x, Expr::Ratio(572957795130823209, 10000000000000000))
}

/// An angle in degrees, traced.
pub fn degrees_on<T: Copy, A: Arith<T>>(ops: &A, x: Traced<T>) -> (out: Traced<T>)
    requires
        x.ok(*ops),
    ensures
        out.ok(*ops),
        out.e@ == degrees_of(x.e@),
{
    x.times(ops, Traced::ratio(ops, 572957795130823209, 10000000000000000))
}

/// An angle in degrees.
pub fn degrees<T: Copy, A: Arith<T>>(ops: &A, x: T) -> (out: T)
    ensures
        fits(*ops, degrees_of(val(x)), out),
{
    degrees_on(ops, Traced::of(ops, x)).v
}

/// A full turn.
pub open spec fn turn<T>() -> Expr<T> {
    times(Expr::Ratio(2, 1), Expr::Pi)
}

/// A full turn, traced.
pub fn turn_on<T: Copy, A: Arith<T>>(ops: &A) -> (out: Traced<T>)
    ensures
        out.ok(*ops),
        out.e@ == turn::<T>(),
{
    Traced::ratio(ops, 2, 1).times(ops, Traced::pi(ops))
}

/// The angle of a relationship in radians: `num` parts of a half turn divided by `den`.
pub open spec fn radians(rel: RelationType) -> (u64, u64) {
    match rel {
        RelationType::Conjunction => (0, 1),
        RelationType::Opposition => (1, 1),
        RelationType::Trine => (2, 3),
        RelationType::Square => (1, 2),
        RelationType::Quintile => (2, 5),
        RelationType::Sextile => (1, 3),
        RelationType::SemiSquare => (1, 4),
        RelationType::SemiSextile => (1, 6),
        RelationType::Quincunx => (5, 6),
        RelationType::Sesquiquadrate => (3, 4),
        RelationType::BiQuintile => (4, 5),
        RelationType::Quartet => (0, 1),
    }
}

/// The angle of a relationship in radians.
pub open spec fn radians_of<T>(rel: RelationType) -> Expr<T> {
    let (num, den) = radians(rel);
    if num == 0 {
        zero()
    } else {
        let part: Expr<T> = if num == 1 {
            Expr::Pi
        } else {
            times(Expr::Ratio(num, 1), Expr::Pi)
        };
        if den == 1 {
            part
        } else {
            over(part, Expr::Ratio(den, 1))
        }
    }
}

fn radians_parts(rel: RelationType) -> (out: (u64, u64))
    ensures
        out == radians(rel),
{
    match rel {
        RelationType::Conjunction => (0, 1),
        RelationType::Opposition => (1, 1),
        RelationType::Trine => (2, 3),
        RelationType::Square => (1, 2),
        RelationType::Quintile => (2, 5),
        RelationType::Sextile => (1, 3),
        RelationType::SemiSquare => (1, 4),
        RelationType::SemiSextile => (1, 6),
        RelationType::Quincunx => (5, 6),
        RelationType::Sesquiquadrate => (3, 4),
        RelationType::BiQuintile => (4, 5),
        RelationType::Quartet => (0, 1),
    }
}

/// The angle of a relationship in radians is its angle in degrees, of which a half turn has
/// a hundred and eighty.
pub proof fn law_angles_agree(rel: RelationType)
    ensures
        radians(rel).0 * 180 == rel.degrees() * radians(rel).1,
{
}

impl RelationType {
    fn angle_on<T: Copy, A: Arith<T>>(self, ops: &A) -> (out: Traced<T>)
        ensures
            out.ok(*ops),
            out.e@ == radians_of::<T>(self),
    {
        let (num, den): (u64, u64) = radians_parts(self);
        if num == 0 {
            return Traced::ratio(ops, 0, 1);
        }
        let part: Traced<T> = if num == 1 {
            Traced::pi(ops)
        } else {
            Traced::ratio(ops, num, 1).times(ops, Traced::pi(ops))
        };
        if den == 1 {
            part
        } else {
            part.over(ops, Traced::ratio(ops, den, 1))
        }
    }

    /// The angle of the relationship in radians: none for a quartet, which matches phases.
    pub fn angle_rad<T: Copy, A: Arith<T>>(self, ops: &A) -> (out: T)
        ensures
            fits(*ops, radians_of(self), out),
    {
        let a: Traced<T> = self.angle_on(ops);
        a.v
    }
}

/// How far an angle lies from that of a relationship, in degrees; `folded` takes the way
/// round without its sign.
pub open spec fn apart_of<T>(deg: Expr<T>, rel: RelationType, folded: bool) -> Expr<T> {
    let d = un(Unary::Abs, minus(deg, Expr::Ratio(rel.degrees() as u64, 1)));
    let back = minus(Expr::Ratio(360, 1), d);
    let round = if folded {
        un(Unary::Abs, back)
    } else {
        back
    };
    pick(Test::AtMost, d, round, d, round)
}

/// Whether an angle lies in the orb of a relationship came out as `c`, at a distance of
/// `drift`.
pub open spec fn near<T: Copy, A: Arith<T>>(
    ops: A,
    deg: T,
    rel: RelationType,
    folded: bool,
    drift: T,
    c: bool,
) -> bool {
    exists|limit: T| #[trigger]
        test_is(ops, Test::AtMost, drift, limit, c) && fits(
            ops,
            Expr::Ratio(crate::relations::orb(rel) as u64, 1),
            limit,
        ) && fits(ops, apart_of(val(deg), rel, folded), drift)
}

/// The first entry of the catalog, from entry `from` on, that an angle lies in the orb of,
/// and how far it lies from it.
pub open spec fn matched<T: Copy, A: Arith<T>>(
    ops: A,
    deg: T,
    folded: bool,
    from: int,
    out: Option<(RelationType, T)>,
) -> bool
    decreases 11 - from,
{
    if from >= 11 {
        out is None
    } else {
        exists|drift: T, c: bool|
            {
                &&& #[trigger] near(ops, deg, catalog_order()[from], folded, drift, c)
                &&& if c {
                    out == Some((catalog_order()[from], drift))
                } else {
                    matched(ops, deg, folded, from + 1, out)
                }
            }
    }
}

/// The first entry of the catalog, from entry `i` on, that an angle lies in the orb of.
pub fn match_from<T: Copy, A: Arith<T>>(
    ops: &A,
    deg: T,
    folded: bool,
    entries: &Vec<CatalogEntry>,
    i: usize,
) -> (out: Option<(RelationType, T)>)
    requires
        i <= 11,
        entries@ == Seq::new(11, |i: int| crate::relations::entry(i)),
    ensures
        matched(*ops, deg, folded, i as int, out),
    decreases 11 - i,
{
    if i >= 11 {
        return None;
    }
    assert(entries@[i as int] == crate::relations::entry(i as int));
    let e: CatalogEntry = entries[i];
    let d: Traced<T> = Traced::of(ops, deg).minus(
        ops,
        Traced::ratio(ops, e.rel_type.angle_deg() as u64, 1),
    ).abs(ops);
    let back: Traced<T> = Traced::ratio(ops, 360, 1).minus(ops, d);
    let round: Traced<T> = if folded {
        back.abs(ops)
    } else {
        back
    };
    let drift: Traced<T> = pick_on(ops, Test::AtMost, d, round, d, round);
    let limit: Traced<T> = Traced::ratio(ops, e.orb_deg as u64, 1);
    let c: bool = holds(ops, Test::AtMost, drift.v, limit.v);
    assert(near(*ops, deg, catalog_order()[i as int], folded, drift.v, c)) by {
        assert(test_is(*ops, Test::AtMost, drift.v, limit.v, c));
    }
    if c {
        Some((e.rel_type, drift.v))
    } else {
        match_from(ops, deg, folded, entries, i + 1)
    }
}

/// The relationship that an angle lies in the orb of, if any, and how far it lies from it.
pub fn match_catalog<T: Copy, A: Arith<T>>(ops: &A, angle_deg: T) -> (out: Option<(RelationType, T)>)
    ensures
        matched(*ops, angle_deg, false, 0, out),
{
    match_from(ops, angle_deg, false, &catalog(), 0)
}

/// A state after one of its bands was turned to a phase: its magnitude stays.
pub open spec fn turned_to<T>(state: Seq<Expr<T>>, band: int, phase: Expr<T>) -> Seq<Expr<T>> {
    let mag = larger(
        un(Unary::Root, energy_of(state[2 * band], state[2 * band + 1])),
        Expr::Ratio(1, 100000000),
    );
    state.update(2 * band, times(mag, un(Unary::Cos, phase))).update(
        2 * band + 1,
        times(mag, un(Unary::Sin, phase)),
    )
}

fn set_band_phase<T: Copy, A: Arith<T>>(
    ops: &A,
    state: &mut TracedVec<T>,
    band: usize,
    phase: Traced<T>,
)
    requires
        old(state).ok(*ops),
        phase.ok(*ops),
        2 * band + 1 < old(state).v@.len(),
    ensures
        final(state).ok(*ops),
        final(state).v@.len() == old(state).v@.len(),
        final(state).e@ == turned_to(old(state).e@, band as int, phase.e@),
{
    let len: usize = state.len();
    let r: Traced<T> = state.get(ops, 2 * band);
    let s: Traced<T> = state.get(ops, 2 * band + 1);
    let mag: Traced<T> = energy_on(ops, r, s).root(ops).larger(
        ops,
        Traced::ratio(ops, 1, 100000000),
    );
    state.set(ops, 2 * band, mag.times(ops, phase.cos(ops)));
    state.set(ops, 2 * band + 1, mag.times(ops, phase.sin(ops)));
}

/// The phase that a step turns its band to.
pub open spec fn target_of<T>(t: Target, base: Expr<T>, rel: RelationType) -> Expr<T> {
    match t {
        Target::Fixed(e) => if e == 0 {
            zero()
        } else if e > 0 {
            over(Expr::Pi, Expr::Ratio(4, 1))
        } else {
            over(un(Unary::Negated, Expr::Pi), Expr::Ratio(4, 1))
        },
        Target::Turned(i) => plus(base, times(Expr::Count(i), radians_of(rel))),
    }
}

fn target_on<T: Copy, A: Arith<T>>(ops: &A, t: Target, base: Traced<T>, rel: RelationType) -> (out:
    Traced<T>)
    requires
        base.ok(*ops),
    ensures
        out.ok(*ops),
        out.e@ == target_of(t, base.e@, rel),
{
    match t {
        Target::Fixed(e) => {
            if e == 0 {
                Traced::ratio(ops, 0, 1)
            } else if e > 0 {
                Traced::pi(ops).over(ops, Traced::ratio(ops, 4, 1))
            } else {
                Traced::pi(ops).negated(ops).over(ops, Traced::ratio(ops, 4, 1))
            }
        },
        Target::Turned(i) => {
            let a: Traced<T> = rel.angle_on(ops);
            base.plus(ops, Traced::count(ops, i).times(ops, a))
        },
    }
}

/// A state after the first `n` steps.
pub open spec fn stepped<T>(
    state: Seq<Expr<T>>,
    steps: Seq<PhaseStep>,
    base: Expr<T>,
    rel: RelationType,
    n: int,
) -> Seq<Expr<T>>
    decreases n,
{
    if n <= 0 {
        state
    } else {
        turned_to(
            stepped(state, steps, base, rel, n - 1),
            steps[n - 1].band as int,
            target_of(steps[n - 1].target, base, rel),
        )
    }
}

/// The phase that the bands of a relationship are turned against: that of its first band.
pub open spec fn base_of<T>(
    state: Seq<Expr<T>>,
    rel: RelationType,
    bands: Seq<usize>,
    n: int,
) -> Expr<T> {
    if rel != RelationType::Quartet && bands.len() > 0 {
        let first = clamped(bands[0], n);
        angle(state[2 * first + 1], state[2 * first])
    } else {
        zero()
    }
}

/// A state after a relationship was written into it.
pub open spec fn related<T>(
    state: Seq<Expr<T>>,
    rel: RelationType,
    bands: Seq<usize>,
    n: int,
) -> Seq<Expr<T>> {
    let steps = steps_of(rel, bands, n);
    stepped(state, steps, base_of(state, rel, bands, n), rel, steps.len() as int)
}

fn apply_relationship<T: Copy, A: Arith<T>>(
    ops: &A,
    state: &mut TracedVec<T>,
    config: &CatalogConfig,
    n_bands: usize,
)
    requires
        old(state).ok(*ops),
        old(state).v@.len() == 2 * n_bands,
        n_bands > 0,
    ensures
        final(state).ok(*ops),
        final(state).v@.len() == 2 * n_bands,
        final(state).e@ == related(
            old(state).e@,
            config.rel_type,
            config.bands@,
            n_bands as int,
        ),
{
    let rel: RelationType = config.rel_type;
    let ghost start = state.e@;
    let len: usize = state.len();
    let steps: Vec<PhaseStep> = relationship_steps(config, n_bands);
    let base: Traced<T> = match reference_band(config, n_bands) {
        Some(first) => state.get(ops, 2 * first + 1).angle(ops, state.get(ops, 2 * first)),
        None => Traced::ratio(ops, 0, 1),
    };
    assert(base.e@ == base_of(start, rel, config.bands@, n_bands as int));
    let m: usize = steps.len();
    let mut i: usize = 0;
    while i < m
        invariant
            state.ok(*ops),
            state.v@.len() == 2 * n_bands,
            base.ok(*ops),
            n_bands > 0,
            m == steps@.len(),
            i <= m,
            rel == config.rel_type,
            steps@ == steps_of(rel, config.bands@, n_bands as int),
            state.e@ == stepped(start, steps@, base.e@, rel, i as int),
        decreases m - i,
    {
        proof {
            law_steps_stay_in_range(rel, config.bands@, n_bands, i as int);
        }
        let s: PhaseStep = steps[i];
        let target: Traced<T> = target_on(ops, s.target, base, rel);
        set_band_phase(ops, state, s.band, target);
        i += 1;
    }
}

/// All bands at phase zero and magnitude one.
pub open spec fn at_rest<T>(n_bands: int) -> Seq<Expr<T>> {
    Seq::new(
        (2 * n_bands) as nat,
        |i: int|
            if i % 2 == 0 {
                one()
            } else {
                zero()
            },
    )
}

fn at_rest_on<T: Copy, A: Arith<T>>(ops: &A, n_bands: usize) -> (out: TracedVec<T>)
    requires
        2 * n_bands <= usize::MAX,
    ensures
        out.ok(*ops),
        out.v@.len() == 2 * n_bands,
        out.e@ == at_rest::<T>(n_bands as int),
{
    let n: usize = 2 * n_bands;
    let f = |i: usize| -> (r: Traced<T>)
        requires
            i < n,
        ensures
            r.ok(*ops),
            r.e@ == entry(at_rest::<T>(n_bands as int), i),
    {
        if i % 2 == 0 {
            Traced::ratio(ops, 1, 1)
        } else {
            Traced::ratio(ops, 0, 1)
        }
    };
    build(ops, n, Ghost(at_rest::<T>(n_bands as int)), f)
}

/// A state at rest after the first `k` relationships were written into it.
pub open spec fn catalog_state<T>(configs: Seq<CatalogConfig>, n: int, k: int) -> Seq<Expr<T>>
    decreases k,
{
    if k <= 0 {
        at_rest(n)
    } else {
        related(
            catalog_state(configs, n, k - 1),
            configs[k - 1].rel_type,
            configs[k - 1].bands@,
            n,
        )
    }
}

/// A state in which the given relationships hold: all bands start at phase zero and
/// magnitude one, and the relationships turn them one after the other.
pub fn encode_catalog_state<T: Copy, A: Arith<T>>(
    ops: &A,
    configs: &Vec<CatalogConfig>,
    n_bands: usize,
) -> (out: Vec<T>)
    requires
        2 * n_bands <= usize::MAX,
        n_bands > 0 || configs@.len() == 0,
    ensures
        fits_all(*ops, catalog_state(configs@, n_bands as int, configs@.len() as int), out@),
{
    let m: usize = configs.len();
    let mut state: TracedVec<T> = at_rest_on(ops, n_bands);
    let mut i: usize = 0;
    while i < m
        invariant
            m == configs@.len(),
            n_bands > 0 || m == 0,
            i <= m,
            state.ok(*ops),
            state.v@.len() == 2 * n_bands,
            state.e@ == catalog_state::<T>(configs@, n_bands as int, i as int),
        decreases m - i,
    {
        apply_relationship(ops, &mut state, &configs[i], n_bands);
        i += 1;
    }
    state.v
}

/// A state after the first `k` given phases were written into it.
pub open spec fn raw_state<T>(phases: Seq<(usize, T)>, n: int, k: int) -> Seq<Expr<T>>
    decreases k,
{
    if k <= 0 {
        at_rest(n)
    } else {
        let before = raw_state(phases, n, k - 1);
        let (band, phase) = phases[k - 1];
        if band < n {
            before.update(2 * band, un(Unary::Cos, val(phase))).update(
                2 * band + 1,
                un(Unary::Sin, val(phase)),
            )
        } else {
            before
        }
    }
}

/// A state with given phases: the other bands are at phase zero, and bands that there are not
/// are passed over.
pub fn encode_raw_phases<T: Copy, A: Arith<T>>(ops: &A, phases: &Vec<(usize, T)>, n_bands: usize) -> (out:
    Vec<T>)
    requires
        2 * n_bands <= usize::MAX,
    ensures
        fits_all(*ops, raw_state(phases@, n_bands as int, phases@.len() as int), out@),
{
    let m: usize = phases.len();
    let mut state: TracedVec<T> = at_rest_on(ops, n_bands);
    let mut i: usize = 0;
    while i < m
        invariant
            2 * n_bands <= usize::MAX,
            m == phases@.len(),
            i <= m,
            state.ok(*ops),
            state.v@.len() == 2 * n_bands,
            state.e@ == raw_state(phases@, n_bands as int, i as int),
        decreases m - i,
    {
        let (band, phase): (usize, T) = phases[i];
        if band < n_bands {
            let p: Traced<T> = Traced::of(ops, phase);
            state.set(ops, 2 * band, p.cos(ops));
            state.set(ops, 2 * band + 1, p.sin(ops));
        }
        i += 1;
    }
    state.v
}

/// A phase on a grid.
pub open spec fn grid_angle<T>(g: GridPhase) -> Expr<T> {
    times(
        Expr::Count(g.harmonic),
        over(
            times(times(Expr::Count(g.residue as usize), Expr::Ratio(2, 1)), Expr::Pi),
            Expr::Count(g.modulus),
        ),
    )
}

/// The state of a number: its phases on two grids, and an odd last band at zero.
pub open spec fn number_state<T>(n: u64, n_bands: int, m1: usize, m2: usize) -> Seq<Expr<T>> {
    let phases = grid_phases(n, n_bands / 2, m1, m2);
    Seq::new(
        (2 * n_bands) as nat,
        |i: int|
            if i / 2 >= phases.len() {
                zero()
            } else if i % 2 == 0 {
                un(Unary::Cos, grid_angle(phases[i / 2]))
            } else {
                un(Unary::Sin, grid_angle(phases[i / 2]))
            },
    )
}

/// The state of a number by its phases on two grids.
pub fn encode_number<T: Copy, A: Arith<T>>(ops: &A, n: u64, n_bands: usize, m1: usize, m2: usize) -> (out:
    Vec<T>)
    requires
        m1 > 0,
        m2 > 0,
        2 * n_bands <= usize::MAX,
    ensures
        fits_all(*ops, number_state(n, n_bands as int, m1, m2), out@),
{
    let len: usize = 2 * n_bands;
    let phases: Vec<GridPhase> = number_phases(n, n_bands, m1, m2);
    let have: usize = phases.len();
    let f = |i: usize| -> (r: Traced<T>)
        requires
            i < len,
        ensures
            r.ok(*ops),
            r.e@ == entry(number_state::<T>(n, n_bands as int, m1, m2), i),
    {
        if i / 2 >= have {
            Traced::ratio(ops, 0, 1)
        } else {
            let g: GridPhase = phases[i / 2];
            let theta: Traced<T> = Traced::count(ops, g.residue as usize).times(
                ops,
                Traced::ratio(ops, 2, 1),
            ).times(ops, Traced::pi(ops)).over(ops, Traced::count(ops, g.modulus));
            let a: Traced<T> = Traced::count(ops, g.harmonic).times(ops, theta);
            if i % 2 == 0 {
                a.cos(ops)
            } else {
                a.sin(ops)
            }
        }
    };
    let out: TracedVec<T> = build(
        ops,
        len,
        Ghost(number_state::<T>(n, n_bands as int, m1, m2)),
        f,
    );
    out.v
}

} // verus!
