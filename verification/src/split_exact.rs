//! In exact arithmetic the gradients of a split integration are those of its derivative.

use vstd::prelude::*;
#[allow(unused_imports)]
use crate::arith::{Binary, Expr, Test, fold_of, pick, plus, times, val, vals, zero};
#[allow(unused_imports)]
use crate::exact::{
    Curves, Dual, group_dual, law_step_back_is_transposed, lemma_constants, lemma_double,
    lemma_nothing, lemma_pick, lemma_shared, paired_band, paired_params, paired_wave,
    paired_weights, prod, rate, value, wave_back,
};
#[allow(unused_imports)]
use crate::kerr::{Medium, Waves, around_of, energies_around, energy_of, waves_of};
#[allow(unused_imports)]
use crate::ode::neighbours_of;
#[allow(unused_imports)]
use crate::ode_backward::{grown, two};
#[allow(unused_imports)]
use crate::split_band::{
    BandBack, SplitBack, SplitBandForwardCache, Wave, around_back, around_back_at, back_at,
    back_with, band_of, band_step, band_step_back, half_back, kept_at, refreshed, row_back,
    split_back, split_end_back, split_medium, split_shaped, spread_back, steps_in, wave_at,
    zeros_of,
};
#[allow(unused_imports)]
use crate::weights::KerrWeights;

verus! {

/// The gradients of one band's components.
pub open spec fn wave_back_at(b: SplitBack<Dual>, k: int) -> Wave<Dual> {
    Wave { r: b.d_r[k], s: b.d_s[k] }
}

/// What the gradients of band `k` amount to along the direction: of its components, its damping
/// and the energy around it.
#[verifier::opaque]
pub open spec fn paired_at(
    cu: Curves,
    b: SplitBack<Dual>,
    m: Medium<Dual>,
    ns: Seq<Expr<Dual>>,
    z: Waves<Dual>,
    k: int,
) -> real {
    paired_wave(cu, wave_back_at(b, k), wave_at(z, k)) + prod(value(cu, b.d_gamma[k]), rate(cu, m.gamma[k]))
        + prod(value(cu, b.d_ns[k]), rate(cu, ns[k]))
}

/// What the gradients that the bands share amount to along the direction.
#[verifier::opaque]
pub open spec fn paired_shared(
    cu: Curves,
    b: SplitBack<Dual>,
    m: Medium<Dual>,
    w: Seq<Expr<Dual>>,
) -> real {
    prod(value(cu, b.d_alpha), rate(cu, m.alpha)) + prod(value(cu, b.d_beta), rate(cu, m.beta)) + paired_weights(
        cu,
        b.d_w,
        w,
    )
}

/// What the gradients of the first `n` bands amount to: those before band `j` where the state
/// is `z`, the others where it is `zp`.
pub open spec fn paired_mixed(
    cu: Curves,
    b: SplitBack<Dual>,
    m: Medium<Dual>,
    ns: Seq<Expr<Dual>>,
    z: Waves<Dual>,
    zp: Waves<Dual>,
    j: int,
    n: int,
) -> real
    decreases n,
{
    if n <= 0 {
        0real
    } else {
        paired_mixed(cu, b, m, ns, z, zp, j, n - 1) + (if n - 1 < j {
            paired_at(cu, b, m, ns, z, n - 1)
        } else {
            paired_at(cu, b, m, ns, zp, n - 1)
        })
    }
}

/// What the gradients of the first `n` bands amount to.
pub open spec fn paired_all(
    cu: Curves,
    b: SplitBack<Dual>,
    m: Medium<Dual>,
    ns: Seq<Expr<Dual>>,
    z: Waves<Dual>,
    n: int,
) -> real
    decreases n,
{
    if n <= 0 {
        0real
    } else {
        paired_all(cu, b, m, ns, z, n - 1) + paired_at(cu, b, m, ns, z, n - 1)
    }
}

/// There are gradients of `n` bands and four weights.
pub open spec fn covers_bands(b: SplitBack<Dual>, n: int) -> bool {
    &&& b.d_r.len() == n
    &&& b.d_s.len() == n
    &&& b.d_gamma.len() == n
    &&& b.d_ns.len() == n
    &&& b.d_w.len() == 4
}

#[verifier::spinoff_prover]
proof fn lemma_mixed_ends(
    cu: Curves,
    b: SplitBack<Dual>,
    m: Medium<Dual>,
    ns: Seq<Expr<Dual>>,
    z: Waves<Dual>,
    zp: Waves<Dual>,
    j: int,
    n: int,
)
    requires
        0 <= n <= j,
    ensures
        paired_mixed(cu, b, m, ns, z, zp, 0, n) == paired_all(cu, b, m, ns, zp, n),
        paired_mixed(cu, b, m, ns, z, zp, j, n) == paired_all(cu, b, m, ns, z, n),
    decreases n,
{
    if n > 0 {
        lemma_mixed_ends(cu, b, m, ns, z, zp, j, n - 1);
    }
}

/// The gradients of one band, on their own and among all.
#[verifier::spinoff_prover]
proof fn lemma_band_of_all(
    cu: Curves,
    b: SplitBack<Dual>,
    m: Medium<Dual>,
    ns: Seq<Expr<Dual>>,
    w: Seq<Expr<Dual>>,
    z: Waves<Dual>,
    k: int,
)
    ensures
        paired_band(cu, back_at(b, k), band_of(m, k, ns[k]), w, wave_at(z, k)) == paired_at(
            cu,
            b,
            m,
            ns,
            z,
            k,
        ) + paired_shared(cu, b, m, w),
{
    reveal(paired_at);
    reveal(paired_shared);
    reveal(paired_params);
    assert(wave_back(back_at(b, k)) == wave_back_at(b, k));
}

/// Replacing the gradients of one band changes what that band's amount to, and nothing else.
#[verifier::spinoff_prover]
proof fn lemma_mixed_update(
    cu: Curves,
    b: SplitBack<Dual>,
    x: BandBack<Dual>,
    m: Medium<Dual>,
    ns: Seq<Expr<Dual>>,
    z: Waves<Dual>,
    zp: Waves<Dual>,
    j: int,
    n: int,
    len: int,
)
    requires
        covers_bands(b, len),
        0 <= j < len,
        0 <= n <= len,
    ensures
        paired_mixed(cu, back_with(b, j, x), m, ns, z, zp, j + 1, n) == paired_mixed(
            cu,
            b,
            m,
            ns,
            z,
            zp,
            j,
            n,
        ) + (if j < n {
            paired_at(cu, back_with(b, j, x), m, ns, z, j) - paired_at(cu, b, m, ns, zp, j)
        } else {
            0real
        }),
    decreases n,
{
    if n > 0 {
        lemma_mixed_update(cu, b, x, m, ns, z, zp, j, n - 1, len);
        let k = n - 1;
        let c = back_with(b, j, x);
        if k != j {
            assert(paired_at(cu, c, m, ns, z, k) == paired_at(cu, b, m, ns, z, k)) by {
                reveal(paired_at);
            }
            assert(paired_at(cu, c, m, ns, zp, k) == paired_at(cu, b, m, ns, zp, k)) by {
                reveal(paired_at);
            }
        }
    }
}

/// The bands `zp` change as a step from `z` makes them.
pub open spec fn steps_along(
    cu: Curves,
    m: Medium<Dual>,
    ns: Seq<Expr<Dual>>,
    dt: Expr<Dual>,
    w: Seq<Expr<Dual>>,
    z: Waves<Dual>,
    zp: Waves<Dual>,
    n: int,
) -> bool {
    forall|k: int| #![trigger wave_at(zp, k)]
        0 <= k < n ==> {
            let out = band_step(band_of(m, k, ns[k]), dt, w, wave_at(z, k));
            &&& rate(cu, wave_at(zp, k).r) == rate(cu, out.r)
            &&& rate(cu, wave_at(zp, k).s) == rate(cu, out.s)
        }
}

/// Gradients amount to the same along waves that change alike.
#[verifier::spinoff_prover]
proof fn lemma_same_rates(cu: Curves, d: Wave<Dual>, a: Wave<Dual>, b: Wave<Dual>)
    requires
        rate(cu, a.r) == rate(cu, b.r),
        rate(cu, a.s) == rate(cu, b.s),
    ensures
        paired_wave(cu, d, a) == paired_wave(cu, d, b),
{
    reveal(paired_wave);
}

/// The way back through a step of the first `j` bands.
#[verifier::spinoff_prover]
proof fn lemma_row_back(
    cu: Curves,
    m: Medium<Dual>,
    ns: Seq<Expr<Dual>>,
    dt: Expr<Dual>,
    w: Seq<Expr<Dual>>,
    z: Waves<Dual>,
    zp: Waves<Dual>,
    b: SplitBack<Dual>,
    j: int,
    n: int,
)
    requires
        0 <= j <= n,
        covers_bands(b, n),
        rate(cu, dt) == 0real,
        forall|k: int| 0 <= k < n ==> rate(cu, #[trigger] m.omega[k]) == 0real,
        steps_along(cu, m, ns, dt, w, z, zp, n),
    ensures
        covers_bands(row_back(m, ns, dt, w, z, b, j), n),
        paired_mixed(cu, row_back(m, ns, dt, w, z, b, j), m, ns, z, zp, j, n) + paired_shared(
            cu,
            row_back(m, ns, dt, w, z, b, j),
            m,
            w,
        ) == paired_all(cu, b, m, ns, zp, n) + paired_shared(cu, b, m, w),
    decreases j,
{
    if j <= 0 {
        lemma_mixed_ends(cu, b, m, ns, z, zp, n, n);
    } else {
        let k = j - 1;
        lemma_row_back(cu, m, ns, dt, w, z, zp, b, k, n);
        let before = row_back(m, ns, dt, w, z, b, k);
        let medium = band_of(m, k, ns[k]);
        let x = band_step_back(medium, dt, w, wave_at(z, k), back_at(before, k));
        let after = back_with(before, k, x);
        let out = band_step(medium, dt, w, wave_at(z, k));
        assert(rate(cu, m.omega[k]) == 0real);
        law_step_back_is_transposed(cu, medium, dt, w, wave_at(z, k), back_at(before, k));
        assert(back_at(after, k) == x);
        lemma_band_of_all(cu, after, m, ns, w, z, k);
        lemma_band_of_all(cu, before, m, ns, w, zp, k);
        assert(rate(cu, wave_at(zp, k).r) == rate(cu, out.r) && rate(cu, wave_at(zp, k).s) == rate(cu, out.s));
        lemma_same_rates(cu, wave_back(back_at(before, k)), wave_at(zp, k), out);
        lemma_mixed_update(cu, before, x, m, ns, z, zp, k, n, n);
    }
}

/// The states that half of an integration kept change as its steps make them.
pub open spec fn half_along(
    cu: Curves,
    m: Medium<Dual>,
    ns: Seq<Expr<Dual>>,
    dt: Expr<Dual>,
    w: Seq<Expr<Dual>>,
    state_r: Seq<Vec<Dual>>,
    state_s: Seq<Vec<Dual>>,
    steps: int,
    n: int,
) -> bool {
    forall|i: int|
        0 <= i < steps ==> steps_along(
            cu,
            m,
            ns,
            dt,
            w,
            #[trigger] kept_at(state_r, state_s, i),
            kept_at(state_r, state_s, i + 1),
            n,
        )
}

/// The way back through half of an integration.
#[verifier::spinoff_prover]
proof fn lemma_half_back(
    cu: Curves,
    m: Medium<Dual>,
    ns: Seq<Expr<Dual>>,
    dt: Expr<Dual>,
    w: Seq<Expr<Dual>>,
    state_r: Seq<Vec<Dual>>,
    state_s: Seq<Vec<Dual>>,
    b: SplitBack<Dual>,
    steps: int,
    i: int,
)
    requires
        0 <= i <= steps,
        covers_bands(b, state_r.len() as int),
        rate(cu, dt) == 0real,
        forall|k: int| 0 <= k < state_r.len() ==> rate(cu, #[trigger] m.omega[k]) == 0real,
        half_along(cu, m, ns, dt, w, state_r, state_s, steps, state_r.len() as int),
    ensures
        ({
            let n = state_r.len() as int;
            let out = half_back(m, ns, dt, w, state_r, state_s, b, steps, i);
            &&& covers_bands(out, n)
            &&& paired_all(cu, out, m, ns, kept_at(state_r, state_s, i), n) + paired_shared(cu, out, m, w)
                == paired_all(cu, b, m, ns, kept_at(state_r, state_s, steps), n) + paired_shared(
                cu,
                b,
                m,
                w,
            )
        }),
    decreases steps - i,
{
    let n = state_r.len() as int;
    if i < steps {
        lemma_half_back(cu, m, ns, dt, w, state_r, state_s, b, steps, i + 1);
        let next = half_back(m, ns, dt, w, state_r, state_s, b, steps, i + 1);
        let z = kept_at(state_r, state_s, i);
        let zp = kept_at(state_r, state_s, i + 1);
        assert(steps_along(cu, m, ns, dt, w, z, zp, n));
        lemma_row_back(cu, m, ns, dt, w, z, zp, next, n, n);
        lemma_mixed_ends(cu, row_back(m, ns, dt, w, z, next, n), m, ns, z, zp, n, n);
    }
}

/// What the gradients of a state amount to along the direction, over the first `n` bands.
pub open spec fn paired_state(cu: Curves, d: Waves<Dual>, z: Waves<Dual>, n: int) -> real
    decreases n,
{
    if n <= 0 {
        0real
    } else {
        paired_state(cu, d, z, n - 1) + paired_wave(cu, wave_at(d, n - 1), wave_at(z, n - 1))
    }
}

/// What gradients of some numbers amount to.
pub open spec fn paired_numbers(cu: Curves, d: Seq<Expr<Dual>>, x: Seq<Expr<Dual>>, n: int) -> real
    decreases n,
{
    if n <= 0 {
        0real
    } else {
        paired_numbers(cu, d, x, n - 1) + prod(value(cu, d[n - 1]), rate(cu, x[n - 1]))
    }
}

/// The components of all gradients.
pub open spec fn state_back(b: SplitBack<Dual>) -> Waves<Dual> {
    Waves { r: b.d_r, s: b.d_s }
}

/// What all bands' gradients amount to, by what they are of.
#[verifier::spinoff_prover]
proof fn lemma_all_parts(
    cu: Curves,
    b: SplitBack<Dual>,
    m: Medium<Dual>,
    ns: Seq<Expr<Dual>>,
    z: Waves<Dual>,
    n: int,
)
    requires
        0 <= n,
    ensures
        paired_all(cu, b, m, ns, z, n) == paired_state(cu, state_back(b), z, n) + paired_numbers(
            cu,
            b.d_gamma,
            m.gamma,
            n,
        ) + paired_numbers(cu, b.d_ns, ns, n),
    decreases n,
{
    if n > 0 {
        lemma_all_parts(cu, b, m, ns, z, n - 1);
        reveal(paired_at);
        assert(wave_at(state_back(b), n - 1) == wave_back_at(b, n - 1));
    }
}

/// Gradients that are picked by a test amount to what the picked ones do.
#[verifier::spinoff_prover]
proof fn lemma_picked(
    cu: Curves,
    x: Expr<Dual>,
    d: Waves<Dual>,
    e: Waves<Dual>,
    out: Waves<Dual>,
    z: Waves<Dual>,
    n: int,
)
    requires
        forall|j: int|
            0 <= j < n ==> #[trigger] out.r[j] == pick(
                Test::Equals,
                x,
                zero(),
                d.r[j],
                e.r[j],
            ) && out.s[j] == pick(Test::Equals, x, zero(), d.s[j], e.s[j]),
    ensures
        paired_state(cu, out, z, n) == (if value(cu, x) == 0real {
            paired_state(cu, d, z, n)
        } else {
            paired_state(cu, e, z, n)
        }),
    decreases n,
{
    if n > 0 {
        let j = n - 1;
        lemma_picked(cu, x, d, e, out, z, j);
        assert(out.r[j] == pick(Test::Equals, x, zero(), d.r[j], e.r[j]));
        lemma_constants(cu);
        lemma_pick(cu, x, zero(), d.r[j], e.r[j]);
        lemma_pick(cu, x, zero(), d.s[j], e.s[j]);
        reveal(paired_wave);
    }
}

/// A gradient that one band gains.
#[verifier::spinoff_prover]
pub proof fn lemma_state_gain(
    cu: Curves,
    d: Waves<Dual>,
    z: Waves<Dual>,
    j: int,
    x: Expr<Dual>,
    y: Expr<Dual>,
    n: int,
)
    requires
        0 <= j < d.r.len(),
        d.r.len() == d.s.len(),
        0 <= n <= d.r.len(),
    ensures
        paired_state(cu, Waves { r: grown(d.r, j, x), s: grown(d.s, j, y) }, z, n) == paired_state(
            cu,
            d,
            z,
            n,
        ) + (if j < n {
            prod(value(cu, x), rate(cu, z.r[j])) + prod(value(cu, y), rate(cu, z.s[j]))
        } else {
            0real
        }),
    decreases n,
{
    if n > 0 {
        lemma_state_gain(cu, d, z, j, x, y, n - 1);
        let e = Waves { r: grown(d.r, j, x), s: grown(d.s, j, y) };
        let k = n - 1;
        if k == j {
            assert(e.r[k] == plus(d.r[k], x) && e.s[k] == plus(d.s[k], y));
            assert(paired_wave(cu, wave_at(e, k), wave_at(z, k)) == paired_wave(
                cu,
                wave_at(d, k),
                wave_at(z, k),
            ) + prod(value(cu, x), rate(cu, z.r[j])) + prod(value(cu, y), rate(cu, z.s[j]))) by {
                reveal(paired_wave);
                broadcast use group_dual;

                lemma_shared(rate(cu, z.r[k]), value(cu, d.r[k]), value(cu, x));
                lemma_shared(rate(cu, z.s[k]), value(cu, d.s[k]), value(cu, y));
            }
        } else {
            assert(wave_at(e, k) == wave_at(d, k));
        }
    }
}

/// The energies of the first `n` of some bands, added up.
pub open spec fn energy_rates(cu: Curves, z: Waves<Dual>, js: Seq<usize>, n: int) -> real
    decreases n,
{
    if n <= 0 {
        0real
    } else {
        energy_rates(cu, z, js, n - 1) + rate(
            cu,
            energy_of(z.r[js[n - 1] as int], z.s[js[n - 1] as int]),
        )
    }
}

/// The energies of some bands, added up in order.
#[verifier::spinoff_prover]
pub proof fn lemma_energy_rates(cu: Curves, z: Waves<Dual>, js: Seq<usize>, n: int)
    requires
        0 <= n <= js.len(),
    ensures
        rate(
            cu,
            fold_of(
                Binary::Plus,
                zero(),
                js.map_values(|j: usize| energy_of(z.r[j as int], z.s[j as int])).take(n),
            ),
        ) == energy_rates(cu, z, js, n),
    decreases n,
{
    let es = js.map_values(|j: usize| energy_of(z.r[j as int], z.s[j as int]));
    lemma_constants(cu);
    if n > 0 {
        lemma_energy_rates(cu, z, js, n - 1);
        assert(es.take(n).drop_last() =~= es.take(n - 1));
        assert(es.take(n).last() == es[n - 1]);
        let before = fold_of(Binary::Plus, zero(), es.take(n - 1));
        assert(fold_of(Binary::Plus, zero(), es.take(n)) == plus(before, es[n - 1]));
        broadcast use group_dual;

    }
}

/// What the energy around a band passes on.
#[verifier::spinoff_prover]
proof fn lemma_spread_back(
    cu: Curves,
    z: Waves<Dual>,
    dk: Expr<Dual>,
    d: Waves<Dual>,
    js: Seq<usize>,
    n: int,
    len: int,
)
    requires
        0 <= n <= js.len(),
        d.r.len() == len,
        d.s.len() == len,
        forall|i: int| 0 <= i < js.len() ==> #[trigger] js[i] < len,
    ensures
        spread_back(z, dk, d, js, n).r.len() == len,
        spread_back(z, dk, d, js, n).s.len() == len,
        paired_state(cu, spread_back(z, dk, d, js, n), z, len) == paired_state(cu, d, z, len) + prod(
            value(cu, dk),
            energy_rates(cu, z, js, n),
        ),
    decreases n,
{
    lemma_nothing(value(cu, dk));
    if n > 0 {
        lemma_spread_back(cu, z, dk, d, js, n - 1, len);
        let e = spread_back(z, dk, d, js, n - 1);
        let j = js[n - 1] as int;
        let x = times(times(dk, two()), z.r[j]);
        let y = times(times(dk, two()), z.s[j]);
        lemma_state_gain(cu, e, z, j, x, y, len);
        let k = value(cu, dk);
        let u = prod(rate(cu, z.r[j]), value(cu, z.r[j])) + prod(value(cu, z.r[j]), rate(cu, z.r[j]));
        let v = prod(rate(cu, z.s[j]), value(cu, z.s[j])) + prod(value(cu, z.s[j]), rate(cu, z.s[j]));
        assert(rate(cu, energy_of(z.r[j], z.s[j])) == u + v && value(cu, x) == prod(
            prod(k, 2real),
            value(cu, z.r[j]),
        ) && value(cu, y) == prod(prod(k, 2real), value(cu, z.s[j]))) by {
            broadcast use group_dual;

            lemma_constants(cu);
        }
        lemma_double(k, value(cu, z.r[j]), rate(cu, z.r[j]));
        lemma_double(k, value(cu, z.s[j]), rate(cu, z.s[j]));
        lemma_shared(k, u, v);
        lemma_shared(k, energy_rates(cu, z, js, n - 1), u + v);
    }
}

#[verifier::spinoff_prover]
proof fn lemma_around_back_at(cu: Curves, z: Waves<Dual>, dk: Expr<Dual>, d: Waves<Dual>, k: int)
    requires
        0 <= k < z.r.len(),
        z.r.len() <= usize::MAX,
        d.r.len() == z.r.len(),
        d.s.len() == z.r.len(),
    ensures
        around_back_at(z, dk, d, k).r.len() == z.r.len(),
        around_back_at(z, dk, d, k).s.len() == z.r.len(),
        paired_state(cu, around_back_at(z, dk, d, k), z, z.r.len() as int) == paired_state(
            cu,
            d,
            z,
            z.r.len() as int,
        ) + prod(value(cu, dk), rate(cu, around_of(z, k))),
{
    let n = z.r.len() as int;
    let js = neighbours_of(k, n);
    let e = spread_back(z, dk, d, js, js.len() as int);
    let out = around_back_at(z, dk, d, k);
    lemma_spread_back(cu, z, dk, d, js, js.len() as int, n);
    lemma_energy_rates(cu, z, js, js.len() as int);
    let es = energies_around(z, k);
    assert(es =~= js.map_values(|j: usize| energy_of(z.r[j as int], z.s[j as int])));
    assert(es.take(js.len() as int) =~= es);
    lemma_constants(cu);
    lemma_picked(cu, dk, d, e, out, z, n);
    lemma_nothing(rate(cu, around_of(z, k)));
}

/// The energies around the bands of a state.
pub open spec fn arounds(z: Waves<Dual>) -> Seq<Expr<Dual>> {
    Seq::new(z.r.len(), |k: int| around_of(z, k))
}

#[verifier::spinoff_prover]
proof fn lemma_around_back(
    cu: Curves,
    z: Waves<Dual>,
    d_ns: Seq<Expr<Dual>>,
    d: Waves<Dual>,
    n: int,
)
    requires
        0 <= n <= z.r.len(),
        z.r.len() <= usize::MAX,
        d.r.len() == z.r.len(),
        d.s.len() == z.r.len(),
    ensures
        around_back(z, d_ns, d, n).r.len() == z.r.len(),
        around_back(z, d_ns, d, n).s.len() == z.r.len(),
        paired_state(cu, around_back(z, d_ns, d, n), z, z.r.len() as int) == paired_state(
            cu,
            d,
            z,
            z.r.len() as int,
        ) + paired_numbers(cu, d_ns, arounds(z), n),
    decreases n,
{
    if n > 0 {
        lemma_around_back(cu, z, d_ns, d, n - 1);
        lemma_around_back_at(cu, z, d_ns[n - 1], around_back(z, d_ns, d, n - 1), n - 1);
    }
}

#[verifier::spinoff_prover]
proof fn lemma_same_numbers(
    cu: Curves,
    d: Seq<Expr<Dual>>,
    x: Seq<Expr<Dual>>,
    y: Seq<Expr<Dual>>,
    n: int,
)
    requires
        forall|k: int| 0 <= k < n ==> rate(cu, #[trigger] x[k]) == rate(cu, y[k]),
    ensures
        paired_numbers(cu, d, x, n) == paired_numbers(cu, d, y, n),
    decreases n,
{
    if n > 0 {
        lemma_same_numbers(cu, d, x, y, n - 1);
        assert(rate(cu, x[n - 1]) == rate(cu, y[n - 1]));
    }
}

/// No gradients amount to nothing.
#[verifier::spinoff_prover]
pub proof fn lemma_no_numbers(cu: Curves, x: Seq<Expr<Dual>>, n: int, len: int)
    requires
        n <= len,
    ensures
        paired_numbers(cu, zeros_of(len), x, n) == 0real,
    decreases n,
{
    if n > 0 {
        lemma_no_numbers(cu, x, n - 1, len);
        lemma_constants(cu);
        lemma_nothing(rate(cu, x[n - 1]));
    }
}

/// The way back through the energies that were frozen.
#[verifier::spinoff_prover]
proof fn lemma_refreshed(
    cu: Curves,
    z: Waves<Dual>,
    b: SplitBack<Dual>,
    m: Medium<Dual>,
    ns: Seq<Expr<Dual>>,
    after: Seq<Expr<Dual>>,
    n: int,
)
    requires
        n == z.r.len(),
        n <= usize::MAX,
        covers_bands(b, n),
        forall|k: int| 0 <= k < n ==> rate(cu, #[trigger] ns[k]) == rate(cu, around_of(z, k)),
    ensures
        covers_bands(refreshed(z, b, n), n),
        paired_all(cu, refreshed(z, b, n), m, after, z, n) == paired_all(cu, b, m, ns, z, n),
{
    let d = around_back(z, b.d_ns, state_back(b), n);
    let out = refreshed(z, b, n);
    lemma_around_back(cu, z, b.d_ns, state_back(b), n);
    lemma_all_parts(cu, b, m, ns, z, n);
    lemma_all_parts(cu, out, m, after, z, n);
    assert(state_back(out) == d);
    lemma_no_numbers(cu, after, n, n);
    assert forall|k: int| 0 <= k < n implies rate(cu, #[trigger] ns[k]) == rate(cu, arounds(z)[k]) by {}
    lemma_same_numbers(cu, b.d_ns, ns, arounds(z), n);
}

/// States that change alike along the direction.
pub open spec fn change_alike(cu: Curves, y: Waves<Dual>, z: Waves<Dual>, n: int) -> bool {
    forall|k: int|
        0 <= k < n ==> rate(cu, #[trigger] y.r[k]) == rate(cu, z.r[k]) && rate(cu, y.s[k]) == rate(cu, z.s[k])
}

/// Frozen energies that change as those around the bands do.
pub open spec fn frozen_along(cu: Curves, ns: Seq<Expr<Dual>>, z: Waves<Dual>, n: int) -> bool {
    forall|k: int| 0 <= k < n ==> rate(cu, #[trigger] ns[k]) == rate(cu, around_of(z, k))
}

/// A cache that changes along the direction as a split integration does: from the state it
/// starts with to the one between the halves, and from there to its end, with the energies
/// frozen before each half. The step's length and the frequencies stand still.
pub open spec fn cache_along(
    cu: Curves,
    c: SplitBandForwardCache<Dual>,
    w: KerrWeights<Dual>,
) -> bool {
    let n = c.n_bands as int;
    let m = split_medium(c, w);
    let ws = vals(w.rk4_weights@);
    let (sa, sb) = (steps_in(c.a_state_r@), steps_in(c.b_state_r@));
    let mid = kept_at(c.a_state_r@, c.a_state_s@, sa);
    let (ns_a, ns_b) = (vals(c.ns_frozen_a@), vals(c.ns_frozen_b@));
    &&& rate(cu, val(c.dt)) == 0real
    &&& forall|k: int| 0 <= k < n ==> rate(cu, #[trigger] m.omega[k]) == 0real
    &&& frozen_along(cu, ns_a, kept_at(c.a_state_r@, c.a_state_s@, 0), n)
    &&& half_along(cu, m, ns_a, val(c.dt), ws, c.a_state_r@, c.a_state_s@, sa, n)
    &&& change_alike(cu, kept_at(c.b_state_r@, c.b_state_s@, 0), mid, n)
    &&& frozen_along(cu, ns_b, mid, n)
    &&& half_along(cu, m, ns_b, val(c.dt), ws, c.b_state_r@, c.b_state_s@, sb, n)
}

#[verifier::spinoff_prover]
proof fn lemma_same_changes(
    cu: Curves,
    b: SplitBack<Dual>,
    m: Medium<Dual>,
    ns: Seq<Expr<Dual>>,
    y: Waves<Dual>,
    z: Waves<Dual>,
    n: int,
)
    requires
        change_alike(cu, y, z, n),
    ensures
        paired_all(cu, b, m, ns, y, n) == paired_all(cu, b, m, ns, z, n),
    decreases n,
{
    if n > 0 {
        lemma_same_changes(cu, b, m, ns, y, z, n - 1);
        assert(rate(cu, y.r[n - 1]) == rate(cu, z.r[n - 1]));
        reveal(paired_at);
        reveal(paired_wave);
    }
}

#[verifier::spinoff_prover]
proof fn lemma_end_shared(
    cu: Curves,
    d_output: Seq<Dual>,
    n: int,
    m: Medium<Dual>,
    w: Seq<Expr<Dual>>,
)
    ensures
        paired_shared(cu, split_end_back(d_output, n), m, w) == 0real,
{
    lemma_constants(cu);
    lemma_nothing(rate(cu, m.alpha));
    lemma_nothing(rate(cu, m.beta));
    lemma_nothing(rate(cu, w[0]));
    lemma_nothing(rate(cu, w[1]));
    lemma_nothing(rate(cu, w[2]));
    lemma_nothing(rate(cu, w[3]));
    reveal(paired_shared);
    reveal(paired_weights);
}

/// The way back through a split integration is transposed to its derivative: in exact
/// arithmetic, whatever direction the input and the parameters change in, the output's gradients
/// amount to as much along it as the gradients that the way back finds for the input, the
/// dampings, both couplings and the weights of the steps.
#[verifier::spinoff_prover]
pub proof fn law_split_back_is_transposed(
    cu: Curves,
    d_output: Seq<Dual>,
    c: SplitBandForwardCache<Dual>,
    w: KerrWeights<Dual>,
)
    requires
        split_shaped(c, w),
        2 * c.n_bands <= d_output.len(),
        cache_along(cu, c, w),
    ensures
        ({
            let n = c.n_bands as int;
            let m = split_medium(c, w);
            let out = split_back(d_output, c, w);
            let end = kept_at(c.b_state_r@, c.b_state_s@, steps_in(c.b_state_r@));
            let start = kept_at(c.a_state_r@, c.a_state_s@, 0);
            &&& covers_bands(out, n)
            &&& paired_state(cu, waves_of(vals(d_output), n), end, n) == paired_state(
                cu,
                state_back(out),
                start,
                n,
            ) + paired_numbers(cu, out.d_gamma, m.gamma, n) + paired_shared(
                cu,
                out,
                m,
                vals(w.rk4_weights@),
            )
        }),
{
    let n = c.n_bands as int;
    let m = split_medium(c, w);
    let ws = vals(w.rk4_weights@);
    let dt = val(c.dt);
    let (sa, sb) = (steps_in(c.a_state_r@), steps_in(c.b_state_r@));
    let (ns_a, ns_b) = (vals(c.ns_frozen_a@), vals(c.ns_frozen_b@));
    let start = kept_at(c.a_state_r@, c.a_state_s@, 0);
    let mid = kept_at(c.a_state_r@, c.a_state_s@, sa);
    let next = kept_at(c.b_state_r@, c.b_state_s@, 0);
    let end = kept_at(c.b_state_r@, c.b_state_s@, sb);
    let b0 = split_end_back(d_output, n);
    let b1 = half_back(m, ns_b, dt, ws, c.b_state_r@, c.b_state_s@, b0, sb, 0);
    let b2 = refreshed(mid, b1, n);
    let b3 = half_back(m, ns_a, dt, ws, c.a_state_r@, c.a_state_s@, b2, sa, 0);
    let out = refreshed(start, b3, n);
    assert(covers_bands(b0, n));
    lemma_half_back(cu, m, ns_b, dt, ws, c.b_state_r@, c.b_state_s@, b0, sb, 0);
    lemma_same_changes(cu, b1, m, ns_b, next, mid, n);
    lemma_refreshed(cu, mid, b1, m, ns_b, ns_a, n);
    assert(paired_shared(cu, b2, m, ws) == paired_shared(cu, b1, m, ws)) by {
        reveal(paired_shared);
    }
    lemma_half_back(cu, m, ns_a, dt, ws, c.a_state_r@, c.a_state_s@, b2, sa, 0);
    lemma_refreshed(cu, start, b3, m, ns_a, ns_a, n);
    assert(paired_shared(cu, out, m, ws) == paired_shared(cu, b3, m, ws)) by {
        reveal(paired_shared);
    }
    lemma_all_parts(cu, b0, m, ns_b, end, n);
    lemma_no_numbers(cu, m.gamma, n, n);
    lemma_no_numbers(cu, ns_b, n, n);
    lemma_end_shared(cu, d_output, n, m, ws);
    lemma_all_parts(cu, out, m, ns_a, start, n);
    lemma_no_numbers(cu, ns_a, n, n);
    assert(state_back(b0) == waves_of(vals(d_output), n));
}

} // verus!
