//! The cases of the parity battery with their numbers: what each starts from, what the
//! derivative is there, and how far an implementation is off.

use vstd::prelude::*;
use crate::arith::{Arith, Test, Traced, TracedVec, build, holds, total};
#[allow(unused_imports)]
use crate::arith::{
    Expr, Unary, entry, fits, fits_all, larger, minus, one, over, plus, test_is, times, total_of,
    un, val, zero,
};
use crate::kerr::kerr_derivative;
#[allow(unused_imports)]
use crate::kerr::{derivative_of, plain_medium, plain_waves};
use crate::layers::softplus_on;
#[allow(unused_imports)]
use crate::layers::softplus_of;
use crate::parity::{
    CaseOutcome, CasePlan, Excitation, ParityReport, TestRng, battery_plans, sum_up,
};
#[allow(unused_imports)]
use crate::parity::{failure_views, failures, is_case, next_state};
use crate::phase_report::extreme_of;
#[allow(unused_imports)]
use crate::phase_report::{extreme, place};

verus! {

/// The state of a generator after `n` draws.
pub open spec fn state_after(state: u64, n: int) -> u64
    decreases n,
{
    if n <= 0 {
        state
    } else {
        next_state(state_after(state, n - 1))
    }
}

/// The value that a generator draws on reaching a state: between minus one and one.
pub open spec fn drawn_of<T>(state: u64) -> Expr<T> {
    minus(
        times(
            over(Expr::Count((state as int / 8589934592) as usize), Expr::Ratio(2147483648, 1)),
            Expr::Ratio(2, 1),
        ),
        one(),
    )
}

/// The values that a generator draws, after passing `skip` of them.
pub open spec fn draws_of<T>(state: u64, skip: int, n: int) -> Seq<Expr<T>> {
    Seq::new(n as nat, |k: int| drawn_of(state_after(state, skip + k + 1)))
}

impl TestRng {
    /// The next value, between minus one and one.
    pub fn next_value<T: Copy, A: Arith<T>>(&mut self, ops: &A) -> (x: T)
        ensures
            final(self).state == next_state(old(self).state),
            fits(*ops, drawn_of(final(self).state), x),
    {
        let x: Traced<T> = self.next_on(ops);
        x.v
    }

    fn next_on<T: Copy, A: Arith<T>>(&mut self, ops: &A) -> (x: Traced<T>)
        ensures
            final(self).state == next_state(old(self).state),
            x.ok(*ops),
            x.e@ == drawn_of::<T>(final(self).state),
    {
        let bits: u32 = self.next_bits();
        Traced::count(ops, bits as usize).over(ops, Traced::ratio(ops, 2147483648, 1)).times(
            ops,
            Traced::ratio(ops, 2, 1),
        ).minus(ops, Traced::ratio(ops, 1, 1))
    }
}

/// Draws `n` values.
fn draws_on<T: Copy, A: Arith<T>>(
    ops: &A,
    rng: &mut TestRng,
    Ghost(seed): Ghost<u64>,
    Ghost(skip): Ghost<nat>,
    n: usize,
) -> (out: TracedVec<T>)
    requires
        old(rng).state == state_after(seed, skip as int),
    ensures
        out.ok(*ops),
        out.v@.len() == n,
        out.e@ == draws_of::<T>(seed, skip as int, n as int),
        final(rng).state == state_after(seed, skip + n),
{
    let mut out: TracedVec<T> = TracedVec::new(ops);
    let mut i: usize = 0;
    assert(out.e@ =~= draws_of::<T>(seed, skip as int, n as int).take(0));
    while i < n
        invariant
            i <= n,
            out.ok(*ops),
            out.e@ == draws_of::<T>(seed, skip as int, n as int).take(i as int),
            rng.state == state_after(seed, skip + i),
        decreases n - i,
    {
        let x: Traced<T> = rng.next_on(ops);
        out.push(ops, x);
        i += 1;
        assert(out.e@ =~= draws_of::<T>(seed, skip as int, n as int).take(i as int));
    }
    assert(out.e@ =~= draws_of::<T>(seed, skip as int, n as int));
    out
}

/// The same damping for every band: a tenth, through the parameter that gives it.
pub open spec fn common_damping<T>(n: int) -> Seq<Expr<T>> {
    Seq::new(
        n as nat,
        |k: int|
            softplus_of(
                un(Unary::Ln, minus(un(Unary::Exp, Expr::Ratio(1, 10)), one())),
            ),
    )
}

/// A damping of its own for every band, drawn.
pub open spec fn drawn_damping<T>(seed: u64, n: int) -> Seq<Expr<T>> {
    Seq::new(n as nat, |k: int| softplus_of(times(draws_of(seed | 1, 0, n)[k], Expr::Ratio(1, 2))))
}

/// The damping of a case.
pub open spec fn damping_of<T>(plan: CasePlan) -> Seq<Expr<T>> {
    match plan.gamma_seed {
        Some(seed) => drawn_damping(seed, plan.n_bands as int),
        None => common_damping(plan.n_bands as int),
    }
}

/// Frequencies that rise to a half turn.
pub open spec fn rising_omega<T>(n: int) -> Seq<Expr<T>> {
    Seq::new(
        n as nat,
        |k: int|
            over(times(Expr::Count((k + 1) as usize), Expr::Pi), Expr::Count(n as usize)),
    )
}

/// The squares of entries.
pub open spec fn squares_of<T>(xs: Seq<Expr<T>>) -> Seq<Expr<T>> {
    Seq::new(xs.len(), |k: int| times(xs[k], xs[k]))
}

/// The length of a state.
pub open spec fn length_of<T>(r: Seq<Expr<T>>, s: Seq<Expr<T>>) -> Expr<T> {
    un(Unary::Root, plus(total_of(squares_of(r)), total_of(squares_of(s))))
}

/// The entries divided by a number.
pub open spec fn shrunk_of<T>(xs: Seq<Expr<T>>, by: Expr<T>) -> Seq<Expr<T>> {
    Seq::new(xs.len(), |k: int| over(xs[k], by))
}

/// The entries at the amplitude that training has.
pub open spec fn raised_of<T>(xs: Seq<Expr<T>>) -> Seq<Expr<T>> {
    Seq::new(
        xs.len(),
        |k: int|
            times(
                times(xs[k], Expr::Ratio(13, 10)),
                un(Unary::Root, Expr::Count(xs.len() as usize)),
            ),
    )
}

/// The entries at half their amplitude.
pub open spec fn halved_of<T>(xs: Seq<Expr<T>>) -> Seq<Expr<T>> {
    Seq::new(xs.len(), |k: int| times(xs[k], Expr::Ratio(1, 2)))
}

/// Bands at an amplitude, the others at zero.
pub open spec fn spikes_of<T>(n: int, at: Seq<usize>, amplitude: Expr<T>) -> Seq<Expr<T>> {
    Seq::new(
        n as nat,
        |k: int|
            if at.contains(k as usize) {
                amplitude
            } else {
                zero()
            },
    )
}

/// The seed of the random states.
pub open spec fn broad_seed() -> u64 {
    43
}

/// A random state of unit length, one of its parts.
pub open spec fn broad_part<T>(n: int, second: bool) -> Seq<Expr<T>> {
    let r = draws_of(broad_seed(), 0, n);
    let s = draws_of(broad_seed(), n, n);
    shrunk_of(
        if second {
            s
        } else {
            r
        },
        length_of(r, s),
    )
}

/// What a case starts from, one of its parts: spikes stand in the first one alone.
pub open spec fn excited<T>(e: Excitation, n: int, second: bool) -> Seq<Expr<T>> {
    match e {
        Excitation::Silence => spikes_of(n, seq![], one()),
        Excitation::One(a) => spikes_of(
            n,
            if second {
                seq![]
            } else {
                seq![a]
            },
            one(),
        ),
        Excitation::Two(a, b) => spikes_of(
            n,
            if second {
                seq![]
            } else {
                seq![a, b]
            },
            Expr::Ratio(7, 10),
        ),
        Excitation::TwoFull(a, b) => spikes_of(
            n,
            if second {
                seq![]
            } else {
                seq![a, b]
            },
            one(),
        ),
        Excitation::Four(a, b, c, d) => spikes_of(
            n,
            if second {
                seq![]
            } else {
                seq![a, b, c, d]
            },
            one(),
        ),
        Excitation::Broadband => broad_part(n, second),
        Excitation::Training => raised_of(broad_part(n, second)),
        Excitation::Scattered(seed) => halved_of(
            draws_of(
                seed | 1,
                if second {
                    n
                } else {
                    0
                },
                n,
            ),
        ),
    }
}

fn spikes_on<T: Copy, A: Arith<T>>(ops: &A, n: usize, at: &Vec<usize>, amplitude: Traced<T>) -> (out:
    TracedVec<T>)
    requires
        amplitude.ok(*ops),
    ensures
        out.ok(*ops),
        out.v@.len() == n,
        out.e@ == spikes_of(n as int, at@, amplitude.e@),
{
    let f = |k: usize| -> (r: Traced<T>)
        requires
            k < n,
        ensures
            r.ok(*ops),
            r.e@ == entry(spikes_of(n as int, at@, amplitude.e@), k),
    {
        if listed(at, k) {
            amplitude
        } else {
            Traced::ratio(ops, 0, 1)
        }
    };
    build(ops, n, Ghost(spikes_of(n as int, at@, amplitude.e@)), f)
}

fn listed(at: &Vec<usize>, k: usize) -> (yes: bool)
    ensures
        yes == at@.contains(k),
{
    let n: usize = at.len();
    let mut i: usize = 0;
    while i < n
        invariant
            n == at@.len(),
            i <= n,
            forall|j: int| 0 <= j < i ==> #[trigger] at@[j] != k,
        decreases n - i,
    {
        if at[i] == k {
            assert(at@[i as int] == k);
            return true;
        }
        i += 1;
    }
    false
}

fn squares_on<T: Copy, A: Arith<T>>(ops: &A, xs: &TracedVec<T>) -> (out: TracedVec<T>)
    requires
        xs.ok(*ops),
    ensures
        out.ok(*ops),
        out.e@ == squares_of(xs.e@),
{
    let n: usize = xs.len();
    let f = |k: usize| -> (r: Traced<T>)
        requires
            k < n,
        ensures
            r.ok(*ops),
            r.e@ == entry(squares_of(xs.e@), k),
    {
        let x: Traced<T> = xs.get(ops, k);
        x.times(ops, x)
    };
    build(ops, n, Ghost(squares_of(xs.e@)), f)
}

fn shrunk_on<T: Copy, A: Arith<T>>(ops: &A, xs: &TracedVec<T>, by: Traced<T>) -> (out: TracedVec<T>)
    requires
        xs.ok(*ops),
        by.ok(*ops),
    ensures
        out.ok(*ops),
        out.v@.len() == xs.v@.len(),
        out.e@ == shrunk_of(xs.e@, by.e@),
{
    let n: usize = xs.len();
    let f = |k: usize| -> (r: Traced<T>)
        requires
            k < n,
        ensures
            r.ok(*ops),
            r.e@ == entry(shrunk_of(xs.e@, by.e@), k),
    {
        xs.get(ops, k).over(ops, by)
    };
    build(ops, n, Ghost(shrunk_of(xs.e@, by.e@)), f)
}

fn raised_on<T: Copy, A: Arith<T>>(ops: &A, xs: &TracedVec<T>) -> (out: TracedVec<T>)
    requires
        xs.ok(*ops),
    ensures
        out.ok(*ops),
        out.v@.len() == xs.v@.len(),
        out.e@ == raised_of(xs.e@),
{
    let n: usize = xs.len();
    let f = |k: usize| -> (r: Traced<T>)
        requires
            k < n,
        ensures
            r.ok(*ops),
            r.e@ == entry(raised_of(xs.e@), k),
    {
        xs.get(ops, k).times(ops, Traced::ratio(ops, 13, 10)).times(
            ops,
            Traced::count(ops, n).root(ops),
        )
    };
    build(ops, n, Ghost(raised_of(xs.e@)), f)
}

fn halved_on<T: Copy, A: Arith<T>>(ops: &A, xs: &TracedVec<T>) -> (out: TracedVec<T>)
    requires
        xs.ok(*ops),
    ensures
        out.ok(*ops),
        out.v@.len() == xs.v@.len(),
        out.e@ == halved_of(xs.e@),
{
    let n: usize = xs.len();
    let f = |k: usize| -> (r: Traced<T>)
        requires
            k < n,
        ensures
            r.ok(*ops),
            r.e@ == entry(halved_of(xs.e@), k),
    {
        xs.get(ops, k).times(ops, Traced::ratio(ops, 1, 2))
    };
    build(ops, n, Ghost(halved_of(xs.e@)), f)
}

/// Two runs of draws from one seed.
fn two_draws<T: Copy, A: Arith<T>>(ops: &A, seed: u64, n: usize) -> (out: (
    TracedVec<T>,
    TracedVec<T>,
))
    ensures
        out.0.ok(*ops),
        out.1.ok(*ops),
        out.0.v@.len() == n,
        out.1.v@.len() == n,
        out.0.e@ == draws_of::<T>(seed | 1, 0, n as int),
        out.1.e@ == draws_of::<T>(seed | 1, n as int, n as int),
{
    let mut rng: TestRng = TestRng::new(seed);
    let ghost start = rng.state;
    let r: TracedVec<T> = draws_on(ops, &mut rng, Ghost(start), Ghost(0), n);
    let s: TracedVec<T> = draws_on(ops, &mut rng, Ghost(start), Ghost(n as nat), n);
    (r, s)
}

fn broad_on<T: Copy, A: Arith<T>>(ops: &A, n: usize) -> (out: (TracedVec<T>, TracedVec<T>))
    ensures
        out.0.ok(*ops),
        out.1.ok(*ops),
        out.0.v@.len() == n,
        out.1.v@.len() == n,
        out.0.e@ == broad_part::<T>(n as int, false),
        out.1.e@ == broad_part::<T>(n as int, true),
{
    assert(42u64 | 1 == 43) by (bit_vector);
    let (r, s): (TracedVec<T>, TracedVec<T>) = two_draws(ops, 42, n);
    let len: Traced<T> = total(ops, &squares_on(ops, &r)).plus(
        ops,
        total(ops, &squares_on(ops, &s)),
    ).root(ops);
    (shrunk_on(ops, &r, len), shrunk_on(ops, &s, len))
}

fn excited_on<T: Copy, A: Arith<T>>(ops: &A, e: Excitation, n: usize) -> (out: (
    TracedVec<T>,
    TracedVec<T>,
))
    ensures
        out.0.ok(*ops),
        out.1.ok(*ops),
        out.0.v@.len() == n,
        out.1.v@.len() == n,
        out.0.e@ == excited::<T>(e, n as int, false),
        out.1.e@ == excited::<T>(e, n as int, true),
{
    let unit: Traced<T> = Traced::ratio(ops, 1, 1);
    let none: Vec<usize> = Vec::new();
    assert(none@ =~= seq![]);
    match e {
        Excitation::Silence => (spikes_on(ops, n, &none, unit), spikes_on(ops, n, &none, unit)),
        Excitation::One(a) => {
            let at: Vec<usize> = vec![a];
            assert(at@ =~= seq![a]);
            (spikes_on(ops, n, &at, unit), spikes_on(ops, n, &none, unit))
        },
        Excitation::Two(a, b) => {
            let at: Vec<usize> = vec![a, b];
            assert(at@ =~= seq![a, b]);
            let part: Traced<T> = Traced::ratio(ops, 7, 10);
            (spikes_on(ops, n, &at, part), spikes_on(ops, n, &none, part))
        },
        Excitation::TwoFull(a, b) => {
            let at: Vec<usize> = vec![a, b];
            assert(at@ =~= seq![a, b]);
            (spikes_on(ops, n, &at, unit), spikes_on(ops, n, &none, unit))
        },
        Excitation::Four(a, b, c, d) => {
            let at: Vec<usize> = vec![a, b, c, d];
            assert(at@ =~= seq![a, b, c, d]);
            (spikes_on(ops, n, &at, unit), spikes_on(ops, n, &none, unit))
        },
        Excitation::Broadband => broad_on(ops, n),
        Excitation::Training => {
            let (r, s): (TracedVec<T>, TracedVec<T>) = broad_on(ops, n);
            (raised_on(ops, &r), raised_on(ops, &s))
        },
        Excitation::Scattered(seed) => {
            let (r, s): (TracedVec<T>, TracedVec<T>) = two_draws(ops, seed, n);
            (halved_on(ops, &r), halved_on(ops, &s))
        },
    }
}

fn damping_on<T: Copy, A: Arith<T>>(ops: &A, plan: &CasePlan) -> (out: TracedVec<T>)
    ensures
        out.ok(*ops),
        out.v@.len() == plan.n_bands,
        out.e@ == damping_of::<T>(*plan),
{
    let n: usize = plan.n_bands;
    match plan.gamma_seed {
        Some(seed) => {
            let (xs, _unused): (TracedVec<T>, TracedVec<T>) = two_draws(ops, seed, n);
            let f = |k: usize| -> (r: Traced<T>)
                requires
                    k < n,
                ensures
                    r.ok(*ops),
                    r.e@ == entry(drawn_damping::<T>(seed, n as int), k),
            {
                softplus_on(ops, xs.get(ops, k).times(ops, Traced::ratio(ops, 1, 2)))
            };
            build(ops, n, Ghost(drawn_damping::<T>(seed, n as int)), f)
        },
        None => {
            let raw: Traced<T> = Traced::ratio(ops, 1, 10).exp(ops).minus(
                ops,
                Traced::ratio(ops, 1, 1),
            ).ln(ops);
            let f = |k: usize| -> (r: Traced<T>)
                requires
                    k < n,
                ensures
                    r.ok(*ops),
                    r.e@ == entry(common_damping::<T>(n as int), k),
            {
                softplus_on(ops, raw)
            };
            build(ops, n, Ghost(common_damping::<T>(n as int)), f)
        },
    }
}

fn omega_on<T: Copy, A: Arith<T>>(ops: &A, n: usize) -> (out: TracedVec<T>)
    ensures
        out.ok(*ops),
        out.v@.len() == n,
        out.e@ == rising_omega::<T>(n as int),
{
    let f = |k: usize| -> (r: Traced<T>)
        requires
            k < n,
        ensures
            r.ok(*ops),
            r.e@ == entry(rising_omega::<T>(n as int), k),
    {
        Traced::count(ops, k + 1).times(ops, Traced::pi(ops)).over(ops, Traced::count(ops, n))
    };
    build(ops, n, Ghost(rising_omega::<T>(n as int)), f)
}

/// The four-wave mixing of a case out of thousandths.
pub open spec fn mixing_of<T>(milli: i32) -> Expr<T> {
    if milli >= 0 {
        Expr::Ratio(milli as u64, 1000)
    } else {
        un(Unary::Negated, Expr::Ratio((-milli) as u64, 1000))
    }
}

fn mixing_on<T: Copy, A: Arith<T>>(ops: &A, milli: i32) -> (out: Traced<T>)
    ensures
        out.ok(*ops),
        out.e@ == mixing_of::<T>(milli),
{
    if milli >= 0 {
        Traced::ratio(ops, milli as u64, 1000)
    } else {
        Traced::ratio(ops, (-(milli as i64)) as u64, 1000).negated(ops)
    }
}

/// A case with its numbers: what it starts from, and the derivative there.
pub struct ParityCase<T> {
    pub name: &'static str,
    pub n_bands: usize,
    pub r_in: Vec<T>,
    pub s_in: Vec<T>,
    pub gamma: Vec<T>,
    pub omega: Vec<T>,
    pub alpha: T,
    pub beta: T,
    pub chi: T,
    pub expected_dr: Vec<T>,
    pub expected_ds: Vec<T>,
}

/// The case has the numbers of its plan, and what is expected is the derivative.
pub open spec fn case_fits<T: Copy, A: Arith<T>>(ops: A, plan: CasePlan, c: ParityCase<T>) -> bool {
    let n = plan.n_bands as int;
    let d = derivative_of(
        plain_medium(c.gamma@, c.omega@, c.alpha, c.beta, c.chi),
        plain_waves(c.r_in@, c.s_in@),
    );
    &&& c.name == plan.name
    &&& c.n_bands == n
    &&& fits_all(ops, excited(plan.excitation, n, false), c.r_in@)
    &&& fits_all(ops, excited(plan.excitation, n, true), c.s_in@)
    &&& fits_all(ops, damping_of(plan), c.gamma@)
    &&& fits_all(ops, rising_omega(n), c.omega@)
    &&& fits(ops, Expr::Ratio(1, 10), c.alpha)
    &&& fits(ops, Expr::Ratio(1, 5), c.beta)
    &&& fits(ops, mixing_of(plan.chi_milli), c.chi)
    &&& fits_all(ops, d.r, c.expected_dr@)
    &&& fits_all(ops, d.s, c.expected_ds@)
}

/// A case out of its plan.
pub fn make_case<T: Copy, A: Arith<T>>(ops: &A, plan: &CasePlan) -> (c: ParityCase<T>)
    requires
        plan.n_bands <= usize::MAX - 2,
    ensures
        case_fits(*ops, *plan, c),
        c.expected_dr@.len() == plan.n_bands,
        c.expected_ds@.len() == plan.n_bands,
{
    let n: usize = plan.n_bands;
    let (r, s): (TracedVec<T>, TracedVec<T>) = excited_on(ops, plan.excitation, n);
    let gamma: TracedVec<T> = damping_on(ops, plan);
    let omega: TracedVec<T> = omega_on(ops, n);
    let alpha: Traced<T> = Traced::ratio(ops, 1, 10);
    let beta: Traced<T> = Traced::ratio(ops, 1, 5);
    let chi: Traced<T> = mixing_on(ops, plan.chi_milli);
    let (dr, ds): (Vec<T>, Vec<T>) = kerr_derivative(
        ops,
        &r.v,
        &s.v,
        &gamma.v,
        &omega.v,
        alpha.v,
        beta.v,
        chi.v,
    );
    ParityCase {
        name: plan.name,
        n_bands: n,
        r_in: r.v,
        s_in: s.v,
        gamma: gamma.v,
        omega: omega.v,
        alpha: alpha.v,
        beta: beta.v,
        chi: chi.v,
        expected_dr: dr,
        expected_ds: ds,
    }
}

/// The case is number `i` of the battery.
pub open spec fn numbers_fit<T: Copy, A: Arith<T>>(ops: A, i: int, c: ParityCase<T>) -> bool {
    exists|plan: CasePlan| is_case(plan, i) && #[trigger] case_fits(ops, plan, c)
}

/// All cases of the battery, with the derivative as this library takes it.
pub fn generate_parity_battery<T: Copy, A: Arith<T>>(ops: &A) -> (battery: Vec<ParityCase<T>>)
    ensures
        battery@.len() == 15,
        forall|i: int| 0 <= i < 15 ==> numbers_fit(*ops, i, #[trigger] battery@[i]),
        expectations(battery@),
{
    let plans: Vec<CasePlan> = battery_plans();
    let mut battery: Vec<ParityCase<T>> = Vec::new();
    let mut i: usize = 0;
    while i < 15
        invariant
            plans@.len() == 15,
            forall|j: int| 0 <= j < 15 ==> is_case(#[trigger] plans@[j], j),
            i <= 15,
            battery@.len() == i,
            forall|j: int| 0 <= j < i ==> numbers_fit(*ops, j, #[trigger] battery@[j]),
            expectations(battery@),
        decreases 15 - i,
    {
        assert(is_case(plans@[i as int], i as int));
        let c: ParityCase<T> = make_case(ops, &plans[i]);
        assert(case_fits(*ops, plans@[i as int], c));
        battery.push(c);
        i += 1;
    }
    battery
}

/// Every case expects a rate for every band.
pub open spec fn expectations<T>(battery: Seq<ParityCase<T>>) -> bool {
    forall|i: int|
        0 <= i < battery.len() ==> (#[trigger] battery[i]).expected_dr@.len() == battery[i].n_bands
            && battery[i].expected_ds@.len() == battery[i].n_bands
}

/// How far the rates of every band are off.
pub open spec fn errors_of<T>(c: ParityCase<T>, dr: Seq<T>, ds: Seq<T>) -> Seq<Expr<T>> {
    Seq::new(
        c.n_bands as nat,
        |k: int|
            larger(
                un(Unary::Abs, minus(val(dr[k]), val(c.expected_dr@[k]))),
                un(Unary::Abs, minus(val(ds[k]), val(c.expected_ds@[k]))),
            ),
    )
}

/// The outcome says how far rates are off, at which band most, and whether that is within
/// the tolerance.
pub open spec fn outcome_fits<T: Copy, A: Arith<T>>(
    ops: A,
    c: ParityCase<T>,
    dr: Seq<T>,
    ds: Seq<T>,
    tolerance: T,
    o: CaseOutcome<T>,
) -> bool {
    &&& o.case_name == c.name
    &&& test_is(ops, Test::AtMost, o.max_abs_error, tolerance, o.within)
    &&& exists|errors: Seq<T>, start: T, at: Option<usize>|
        {
            &&& #[trigger] extreme(
                ops,
                start,
                errors,
                c.n_bands as int,
                true,
                at,
                o.max_abs_error,
            )
            &&& fits(ops, zero(), start)
            &&& fits_all(ops, errors_of(c, dr, ds), errors)
            &&& o.worst_band == place(at)
        }
}

/// Holds rates against those that a case expects.
pub fn case_outcome<T: Copy, A: Arith<T>>(
    ops: &A,
    c: &ParityCase<T>,
    dr: &Vec<T>,
    ds: &Vec<T>,
    tolerance: T,
) -> (o: CaseOutcome<T>)
    requires
        c.expected_dr@.len() == c.n_bands,
        c.expected_ds@.len() == c.n_bands,
        c.n_bands <= dr@.len(),
        c.n_bands <= ds@.len(),
    ensures
        outcome_fits(*ops, *c, dr@, ds@, tolerance, o),
{
    let n: usize = c.n_bands;
    let f = |k: usize| -> (r: Traced<T>)
        requires
            k < n,
        ensures
            r.ok(*ops),
            r.e@ == entry(errors_of(*c, dr@, ds@), k),
    {
        let a: Traced<T> = Traced::of(ops, dr[k]).minus(ops, Traced::of(ops, c.expected_dr[k])).abs(
            ops,
        );
        let b: Traced<T> = Traced::of(ops, ds[k]).minus(ops, Traced::of(ops, c.expected_ds[k])).abs(
            ops,
        );
        a.larger(ops, b)
    };
    let errors: TracedVec<T> = build(ops, n, Ghost(errors_of(*c, dr@, ds@)), f);
    let nought: Traced<T> = Traced::ratio(ops, 0, 1);
    let (at, most): (Option<usize>, T) = extreme_of(ops, nought.v, &errors.v, true);
    let within: bool = holds(ops, Test::AtMost, most, tolerance);
    let worst_band: usize = match at {
        Some(i) => i,
        None => 0,
    };
    let o: CaseOutcome<T> = CaseOutcome {
        case_name: c.name,
        within,
        max_abs_error: most,
        worst_band,
    };
    assert(extreme(*ops, nought.v, errors.v@, c.n_bands as int, true, at, o.max_abs_error));
    assert(fits(*ops, zero(), nought.v));
    o
}

/// An implementation's rates on a case led to an outcome.
pub open spec fn ran<T: Copy, A: Arith<T>, F: Fn(&ParityCase<T>) -> (Vec<T>, Vec<T>)>(
    ops: A,
    c: ParityCase<T>,
    f: F,
    tolerance: T,
    o: CaseOutcome<T>,
) -> bool {
    exists|out: (Vec<T>, Vec<T>)| #[trigger]
        call_ensures(f, (&c,), out) && outcome_fits(ops, c, out.0@, out.1@, tolerance, o)
}

/// Runs an implementation of the derivative against every case of a battery.
pub fn check_parity<T: Copy, A: Arith<T>, F: Fn(&ParityCase<T>) -> (Vec<T>, Vec<T>)>(
    ops: &A,
    tier_name: &str,
    battery: &Vec<ParityCase<T>>,
    derivative_fn: F,
    tolerance: T,
) -> (report: ParityReport<T>)
    requires
        expectations(battery@),
        forall|i: int|
            0 <= i < battery@.len() ==> call_requires(derivative_fn, (&#[trigger] battery@[i],)),
        forall|i: int, out: (Vec<T>, Vec<T>)|
            0 <= i < battery@.len() && #[trigger] call_ensures(derivative_fn, (&battery@[i],), out)
                ==> battery@[i].n_bands <= out.0@.len() && battery@[i].n_bands <= out.1@.len(),
    ensures
        report.tier@ == tier_name@,
        report.total_cases == battery@.len(),
        report.passed + report.failed@.len() == report.total_cases,
        exists|outcomes: Seq<CaseOutcome<T>>|
            {
                &&& outcomes.len() == battery@.len()
                &&& failure_views(report.failed@) == #[trigger] failures(
                    outcomes,
                    outcomes.len() as int,
                )
                &&& forall|i: int|
                    0 <= i < outcomes.len() ==> ran(
                        *ops,
                        battery@[i],
                        derivative_fn,
                        tolerance,
                        #[trigger] outcomes[i],
                    )
            },
{
    let n: usize = battery.len();
    let mut outcomes: Vec<CaseOutcome<T>> = Vec::new();
    let mut i: usize = 0;
    while i < n
        invariant
            expectations(battery@),
            forall|i: int|
                0 <= i < battery@.len() ==> call_requires(
                    derivative_fn,
                    (&#[trigger] battery@[i],),
                ),
            forall|i: int, out: (Vec<T>, Vec<T>)|
                0 <= i < battery@.len() && #[trigger] call_ensures(
                    derivative_fn,
                    (&battery@[i],),
                    out,
                ) ==> battery@[i].n_bands <= out.0@.len() && battery@[i].n_bands <= out.1@.len(),
            n == battery@.len(),
            i <= n,
            outcomes@.len() == i,
            forall|j: int|
                0 <= j < i ==> ran(
                    *ops,
                    battery@[j],
                    derivative_fn,
                    tolerance,
                    #[trigger] outcomes@[j],
                ),
        decreases n - i,
    {
        let out: (Vec<T>, Vec<T>) = derivative_fn(&battery[i]);
        assert(call_ensures(derivative_fn, (&battery@[i as int],), out));
        let o: CaseOutcome<T> = case_outcome(ops, &battery[i], &out.0, &out.1, tolerance);
        assert(ran(*ops, battery@[i as int], derivative_fn, tolerance, o));
        outcomes.push(o);
        i += 1;
    }
    let report: ParityReport<T> = sum_up(tier_name, &outcomes);
    assert(failure_views(report.failed@) == failures(outcomes@, outcomes@.len() as int));
    report
}

} // verus!
