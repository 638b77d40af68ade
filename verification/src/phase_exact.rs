//! In exact arithmetic: states written as phases, and what is said of the phases of outputs.

use vstd::prelude::*;
use crate::arith::Arith;
#[allow(unused_imports)]
use crate::arith::{
    Expr, Test, Unary, fits, fits_all, larger, minus, one, rest, test_is, times, un, zero,
};
#[allow(unused_imports)]
use crate::averages::{
    is_mean, lemma_by_one, lemma_cancel, lemma_either_way, lemma_mean_value, lemma_quotient_undone,
};
#[allow(unused_imports)]
use crate::correlation_exact::{lemma_square, root_squares};
#[allow(unused_imports)]
use crate::encode::{Target, grid_phases};
#[allow(unused_imports)]
use crate::exact::{Curves, Dual, holds_of, inverse, lemma_nothing, lemma_three, prod, value};
#[allow(unused_imports)]
use crate::layers::mean_of;
#[allow(unused_imports)]
use crate::linear_exact::{lemma_summed_same, summed};
#[allow(unused_imports)]
use crate::ode_distortion::counts_over;
#[allow(unused_imports)]
use crate::phase_report::{
    HarmonicProfile, closeness, common_offset, damped_of, drift_of, extreme, factor_of, goes_beyond,
    growth_of, harmonic_fits, layer_passed, scaled_of,
};
#[allow(unused_imports)]
use crate::phase_state::{
    apart_of, grid_angle, law_angles_agree, number_state, radians, radians_of, raw_state, target_of,
    turn, turned_to,
};
#[allow(unused_imports)]
use crate::range_exact::on_circle;
#[allow(unused_imports)]
use crate::relations::RelationType;
#[allow(unused_imports)]
use crate::statistics::exceeds_ratio;
#[allow(unused_imports)]
use crate::sub_harmonic::turned;
#[allow(unused_imports)]
use crate::training_exact::size;
#[allow(unused_imports)]
use crate::values::{exact, group_value, lemma_fits, lemma_fits_all, lemma_total, lemma_whole};
#[allow(unused_imports)]
use crate::wave_model::WavePacketModel;

verus! {

#[verifier::spinoff_prover]
proof fn lemma_same_energy(m: real, c: real, s: real)
    requires
        prod(c, c) + prod(s, s) == 1real,
    ensures
        prod(prod(m, c), prod(m, c)) + prod(prod(m, s), prod(m, s)) == prod(m, m),
        prod(prod(m, c), s) == prod(prod(m, s), c),
{
    reveal(prod);
    assert((m * c) * (m * c) + (m * s) * (m * s) == (m * m) * (c * c + s * s))
        by (nonlinear_arith);
    let unit = c * c + s * s;
    assert((m * m) * unit == m * m) by (nonlinear_arith)
        requires
            unit == 1real,
    ;
    assert((m * c) * s == (m * s) * c) by (nonlinear_arith);
}

/// A band that is turned to a phase keeps its energy, where it has more than a faint one, and
/// points along the phase; all other components stay.
#[verifier::spinoff_prover]
pub proof fn law_turning_keeps_energy(
    cu: Curves,
    state: Seq<Expr<Dual>>,
    band: int,
    phase: Expr<Dual>,
)
    requires
        root_squares(cu),
        on_circle(cu),
        0 <= band,
        2 * band + 1 < state.len(),
    ensures
        ({
            let after = turned_to(state, band, phase);
            let (r, s) = (value(cu, after[2 * band]), value(cu, after[2 * band + 1]));
            let (p, q) = (value(cu, state[2 * band]), value(cu, state[2 * band + 1]));
            let a = value(cu, phase);
            &&& after.len() == state.len()
            &&& (cu.root)(prod(p, p) + prod(q, q)) >= 1real / 100000000real ==> prod(r, r) + prod(
                s,
                s,
            ) == prod(p, p) + prod(q, q)
            &&& exists|m: real|
                {
                    &&& m >= 1real / 100000000real
                    &&& r == #[trigger] prod(m, (cu.cos)(a))
                    &&& s == prod(m, (cu.sin)(a))
                }
            &&& forall|i: int|
                0 <= i < state.len() && i != 2 * band && i != 2 * band + 1 ==> #[trigger] after[i]
                    == state[i]
        }),
{
    broadcast use group_value;

    let (p, q) = (value(cu, state[2 * band]), value(cu, state[2 * band + 1]));
    let a = value(cu, phase);
    let e = prod(p, p) + prod(q, q);
    lemma_square(p);
    lemma_square(q);
    let m = if (cu.root)(e) >= 1real / 100000000real {
        (cu.root)(e)
    } else {
        1real / 100000000real
    };
    assert(value(cu, Expr::<Dual>::Ratio(1, 100000000)) == 1real / 100000000real);
    lemma_same_energy(m, (cu.cos)(a), (cu.sin)(a));
    let after = turned_to(state, band, phase);
    assert(value(cu, after[2 * band]) == prod(m, (cu.cos)(a)));
    assert(value(cu, after[2 * band + 1]) == prod(m, (cu.sin)(a)));
}

#[verifier::spinoff_prover]
proof fn lemma_rational(num: real, den: real, deg: real, pi: real)
    requires
        den != 0real,
        num * 180real == deg * den,
    ensures
        prod(180real, prod(prod(num, pi), inverse(den))) == prod(deg, pi),
{
    let x = prod(prod(num, pi), inverse(den));
    lemma_quotient_undone(prod(num, pi), den);
    assert(prod(x, den) == prod(num, pi));
    reveal(prod);
    assert(180real * x == deg * pi) by (nonlinear_arith)
        requires
            x * den == num * pi,
            num * 180real == deg * den,
            den != 0real,
    ;
}

/// The angle of a relationship: a hundred and eighty times it is the circle's number times the
/// degrees.
#[verifier::spinoff_prover]
pub proof fn law_relation_angles_are_degrees(cu: Curves, rel: RelationType)
    ensures
        prod(180real, value(cu, radians_of::<Dual>(rel))) == prod(rel.degrees() as real, cu.pi),
{
    broadcast use group_value;

    law_angles_agree(rel);
    let (num, den) = radians(rel);
    lemma_whole(cu, num);
    lemma_whole(cu, den);
    assert(den != 0);
    let (a, b, d) = (num as real, den as real, rel.degrees() as real);
    lemma_products_agree(num as int, den as int, rel.degrees() as int);
    lemma_rational(a, b, d, cu.pi);
    lemma_nothing(cu.pi);
    lemma_nothing(180real);
    lemma_either_way(0real, cu.pi);
    lemma_by_one(cu.pi);
    lemma_one_apart(prod(a, cu.pi));
    if num == 0 {
        assert(rel.degrees() == 0);
    }
}

#[verifier::spinoff_prover]
proof fn lemma_real_product(a: int, b: int)
    requires
        b >= 0,
    ensures
        (a * b) as real == (a as real) * (b as real),
    decreases b,
{
    if b > 0 {
        lemma_real_product(a, b - 1);
        assert(a * b == a * (b - 1) + a) by (nonlinear_arith);
        let (x, y) = (a as real, (b - 1) as real);
        assert(x * (y + 1real) == x * y + x) by (nonlinear_arith);
        assert(b as real == y + 1real);
    } else {
        assert(a * b == 0) by (nonlinear_arith)
            requires
                b == 0,
        ;
        let x = a as real;
        assert(x * 0real == 0real) by (nonlinear_arith);
    }
}

#[verifier::spinoff_prover]
proof fn lemma_products_agree(a: int, b: int, d: int)
    requires
        b >= 0,
        a * 180 == d * b,
    ensures
        (a as real) * 180real == (d as real) * (b as real),
{
    assert((a * 180) as real == (a as real) * 180real);
    lemma_real_product(d, b);
}

#[verifier::spinoff_prover]
proof fn lemma_one_apart(x: real)
    ensures
        prod(x, inverse(1real)) == x,
{
    reveal(prod);
    reveal(inverse);
}

/// The phase that a step turns its band to: for a relationship the first band's, and its angle as
/// often as the band's place says; for the fixed ones an eighth of a turn either way, or nothing.
#[verifier::spinoff_prover]
pub proof fn law_steps_turn_by_the_relation(
    cu: Curves,
    t: Target,
    base: Expr<Dual>,
    rel: RelationType,
)
    ensures
        match t {
            Target::Fixed(e) => {
                let a = value(cu, target_of(t, base, rel));
                &&& e == 0 ==> a == 0real
                &&& e > 0 ==> prod(a, 4real) == cu.pi
                &&& e < 0 ==> prod(a, 4real) == -cu.pi
            },
            Target::Turned(i) => value(cu, target_of(t, base, rel)) - value(
                cu,
                base,
            ) == prod(i as real, value(cu, radians_of::<Dual>(rel))),
        },
{
    broadcast use group_value;

    lemma_whole(cu, 4);
    lemma_quotient_undone(cu.pi, 4real);
    lemma_quotient_undone(-cu.pi, 4real);
}

/// How far an angle lies from that of a relationship: the shorter way round the circle.
#[verifier::spinoff_prover]
pub proof fn law_distance_is_the_shorter_way(
    cu: Curves,
    deg: Expr<Dual>,
    rel: RelationType,
    folded: bool,
)
    requires
        0real <= value(cu, deg) <= 360real,
        rel.degrees() <= 360,
    ensures
        ({
            let d = size(value(cu, deg) - rel.degrees() as real);
            let out = value(cu, apart_of(deg, rel, folded));
            &&& out <= d && out <= 360real - d
            &&& out == d || out == 360real - d
            &&& out >= 0real
        }),
{
    broadcast use group_value;

    lemma_whole(cu, rel.degrees() as u64);
    lemma_whole(cu, 360);
}

/// A state at rest has every band at phase zero and magnitude one; a phase that is written puts its
/// band there, at magnitude one, and leaves the others.
#[verifier::spinoff_prover]
pub proof fn law_raw_phases_are_written(
    cu: Curves,
    phases: Seq<(usize, Dual)>,
    n: int,
    k: int,
    b: int,
)
    requires
        0 <= k <= phases.len(),
        0 <= b < n,
    ensures
        raw_state(phases, n, k).len() == 2 * n,
        k == 0 ==> value(cu, raw_state(phases, n, k)[2 * b]) == 1real && value(
            cu,
            raw_state(phases, n, k)[2 * b + 1],
        ) == 0real,
        k > 0 && phases[k - 1].0 == b ==> value(cu, raw_state(phases, n, k)[2 * b]) == (cu.cos)(
            phases[k - 1].1.v,
        ) && value(cu, raw_state(phases, n, k)[2 * b + 1]) == (cu.sin)(phases[k - 1].1.v),
        k > 0 && phases[k - 1].0 != b ==> raw_state(phases, n, k)[2 * b] == raw_state(
            phases,
            n,
            k - 1,
        )[2 * b] && raw_state(phases, n, k)[2 * b + 1] == raw_state(phases, n, k - 1)[2 * b + 1],
    decreases k,
{
    broadcast use group_value;

    if k > 0 {
        law_raw_phases_are_written(cu, phases, n, k - 1, b);
    }
}

/// The state of a number: every band lies on the circle, at the harmonic's multiple of the
/// residue's share of a turn.
#[verifier::spinoff_prover]
pub proof fn law_numbers_are_phases_on_grids(
    cu: Curves,
    number: u64,
    n_bands: int,
    m1: usize,
    m2: usize,
    k: int,
    place: real,
)
    requires
        0 <= k < grid_phases(number, n_bands / 2, m1, m2).len(),
        k < n_bands,
        ({
            let g = grid_phases(number, n_bands / 2, m1, m2)[k];
            &&& g.modulus != 0
            &&& g.residue <= usize::MAX
            &&& prod(place, g.modulus as real) == prod(
                g.residue as real,
                prod(2real, cu.pi),
            )
        }),
    ensures
        ({
            let g = grid_phases(number, n_bands / 2, m1, m2)[k];
            let state = number_state::<Dual>(number, n_bands, m1, m2);
            let a = prod(g.harmonic as real, place);
            &&& value(cu, state[2 * k]) == (cu.cos)(a)
            &&& value(cu, state[2 * k + 1]) == (cu.sin)(a)
        }),
{
    broadcast use group_value;

    let g = grid_phases(number, n_bands / 2, m1, m2)[k];
    lemma_whole(cu, 2);
    let whole = prod(prod(g.residue as real, 2real), cu.pi);
    lemma_three(g.residue as real, 2real, cu.pi);
    lemma_quotient_undone(whole, g.modulus as real);
    lemma_cancel(prod(whole, inverse(g.modulus as real)), place, g.modulus as real);
    assert((2 * k) / 2 == k && (2 * k + 1) / 2 == k);
    assert((g.residue as usize) as real == g.residue as real);
    assert(value(cu, grid_angle::<Dual>(g)) == prod(g.harmonic as real, place));
}

/// How much larger a magnitude became: times what it was it is what it became.
#[verifier::spinoff_prover]
pub proof fn law_growth_is_a_ratio(cu: Curves, from: Expr<Dual>, to: Expr<Dual>)
    requires
        value(cu, from) >= 1real / 100000000real,
    ensures
        prod(value(cu, growth_of(from, to)), value(cu, from)) == value(cu, to),
{
    broadcast use group_value;

    assert(value(cu, Expr::<Dual>::Ratio(1, 100000000)) == 1real / 100000000real);
    lemma_quotient_undone(value(cu, to), value(cu, from));
}

/// A drift of phases, in degrees, lies within half a turn either way, and is the difference of the
/// phases but for whole turns.
#[verifier::spinoff_prover]
pub proof fn law_drift_lies_within_half_a_turn(cu: Curves, from: Expr<Dual>, to: Expr<Dual>)
    requires
        cu.pi > 0real,
        0real <= (cu.rest)(value(cu, to) - value(cu, from), 2real * cu.pi) < 2real * cu.pi,
    ensures
        ({
            let whole = (cu.rest)(value(cu, to) - value(cu, from), 2real * cu.pi);
            exists|a: real|
                {
                    &&& -cu.pi < a <= cu.pi
                    &&& a == whole || a == whole - 2real * cu.pi
                    &&& value(cu, drift_of(from, to)) == #[trigger] prod(
                        a,
                        572957795130823209real / 10000000000000000real,
                    )
                }
        }),
{
    broadcast use group_value;

    lemma_whole(cu, 2);
    lemma_two(cu.pi);
    let whole = (cu.rest)(value(cu, to) - value(cu, from), 2real * cu.pi);
    let a = if whole > cu.pi {
        whole - 2real * cu.pi
    } else {
        whole
    };
    assert(value(cu, Expr::<Dual>::Ratio(572957795130823209, 10000000000000000))
        == 572957795130823209real / 10000000000000000real);
    assert(value(cu, drift_of(from, to)) == prod(
        a,
        572957795130823209real / 10000000000000000real,
    ));
}

#[verifier::spinoff_prover]
proof fn lemma_two(x: real)
    ensures
        prod(2real, x) == 2real * x,
{
    reveal(prod);
}

/// The sums of the cosines and sines of the differences at a harmonic.
pub open spec fn direction_at(
    cu: Curves,
    gaps: Seq<Expr<Dual>>,
    h: usize,
    c: real,
    s: real,
) -> bool {
    let n = gaps.len() as int;
    &&& c == summed(|k: int| (cu.cos)(prod(h as real, value(cu, gaps[k]))), n)
    &&& s == summed(|k: int| (cu.sin)(prod(h as real, value(cu, gaps[k]))), n)
}

/// How closely differences keep together at a harmonic: the square, times that of their number, is
/// the square of the summed cosines and that of the summed sines; the offset that they have in
/// common, times the harmonic, is the angle of that direction.
#[verifier::spinoff_prover]
pub proof fn law_closeness_is_common_direction(
    cu: Curves,
    gaps: Seq<Expr<Dual>>,
    h: usize,
    c: real,
    s: real,
)
    requires
        root_squares(cu),
        0 < gaps.len() <= usize::MAX,
        h > 0,
        direction_at(cu, gaps, h, c, s),
    ensures
        ({
            let r = value(cu, closeness(gaps, h));
            let n = gaps.len() as real;
            &&& prod(prod(r, n), prod(r, n)) == prod(c, c) + prod(s, s)
            &&& prod(r, n) >= 0real
            &&& prod(value(cu, common_offset(gaps, h)), h as real) == (cu.angle)(s, c)
        }),
{
    broadcast use group_value;

    let n = gaps.len() as int;
    let cs = turned(Unary::Cos, scaled_of(gaps, h));
    let ss = turned(Unary::Sin, scaled_of(gaps, h));
    lemma_total(cu, cs);
    lemma_total(cu, ss);
    lemma_summed_same(
        |k: int| value(cu, cs[k]),
        |k: int| (cu.cos)(prod(h as real, value(cu, gaps[k]))),
        n,
    );
    lemma_summed_same(
        |k: int| value(cu, ss[k]),
        |k: int| (cu.sin)(prod(h as real, value(cu, gaps[k]))),
        n,
    );
    lemma_square(c);
    lemma_square(s);
    lemma_quotient_undone((cu.root)(prod(c, c) + prod(s, s)), n as real);
    lemma_quotient_undone((cu.angle)(s, c), h as real);
}

/// How many of the first `n` entries exceed a limit.
pub open spec fn how_many_over(limit: real, xs: Seq<Dual>, n: int) -> int
    decreases n,
{
    if n <= 0 {
        0
    } else {
        how_many_over(limit, xs, n - 1) + if xs[n - 1].v > limit {
            1int
        } else {
            0
        }
    }
}

/// In exact arithmetic a count of entries above a limit counts those that exceed it.
#[verifier::spinoff_prover]
pub proof fn law_counts_what_is_over<A: Arith<Dual>>(
    cu: Curves,
    ops: A,
    limit: Dual,
    xs: Seq<Dual>,
    n: int,
    count: int,
)
    requires
        exact(cu, ops),
        0 <= n <= xs.len(),
        counts_over(ops, limit, xs, n, count),
    ensures
        count == how_many_over(limit.v, xs, n),
    decreases n,
{
    if n > 0 {
        let more = choose|more: bool| #[trigger]
            test_is(ops, Test::Exceeds, xs[n - 1], limit, more) && counts_over(
                ops,
                limit,
                xs,
                n - 1,
                if more {
                    count - 1
                } else {
                    count
                },
            );
        assert(more == holds_of(Test::Exceeds, xs[n - 1].v, limit.v));
        law_counts_what_is_over(
            cu,
            ops,
            limit,
            xs,
            n - 1,
            if more {
                count - 1
            } else {
                count
            },
        );
    }
}

/// The profile of two outputs at a harmonic: the cosines of the harmonic's multiple of the
/// differences, their mean, and how many exceed four fifths.
#[verifier::spinoff_prover]
pub proof fn law_harmonic_profile_reads_differences<A: Arith<Dual>>(
    cu: Curves,
    ops: A,
    gaps: Seq<Expr<Dual>>,
    h: usize,
    p: HarmonicProfile<Dual>,
)
    requires
        exact(cu, ops),
        0 < gaps.len() <= usize::MAX,
        harmonic_fits(ops, gaps, h, p),
    ensures
        p.n == h,
        p.per_band@.len() == gaps.len(),
        forall|k: int|
            0 <= k < gaps.len() ==> (#[trigger] p.per_band@[k]).v == (cu.cos)(
                prod(h as real, value(cu, gaps[k])),
            ),
        is_mean(p.mean_coherence.v, |k: int| p.per_band@[k].v, gaps.len() as int),
        p.bands_above_threshold == how_many_over(
            4real / 5real,
            p.per_band@,
            gaps.len() as int,
        ),
{
    broadcast use group_value;

    let n = gaps.len() as int;
    let each = turned(Unary::Cos, scaled_of(gaps, h));
    lemma_fits_all(cu, ops, each, p.per_band@);
    lemma_fits(cu, ops, mean_of(each), p.mean_coherence);
    lemma_mean_value(cu, each);
    lemma_summed_same(|k: int| value(cu, each[k]), |k: int| p.per_band@[k].v, n);
    assert forall|k: int| 0 <= k < n implies (#[trigger] p.per_band@[k]).v == (cu.cos)(
        prod(h as real, value(cu, gaps[k])),
    ) by {
        assert(p.per_band@[k].v == value(cu, each[k]));
    }
    let limit = choose|limit: Dual| #[trigger]
        counts_over(
            ops,
            limit,
            p.per_band@,
            p.per_band@.len() as int,
            p.bands_above_threshold as int,
        ) && fits(ops, Expr::Ratio(4, 5), limit);
    lemma_fits(cu, ops, Expr::Ratio(4, 5), limit);
    assert(value(cu, Expr::<Dual>::Ratio(4, 5)) == 4real / 5real);
    law_counts_what_is_over(cu, ops, limit, p.per_band@, n, p.bands_above_threshold as int);
}

/// In exact arithmetic the first entry that goes beyond the others: none goes beyond what was
/// found, which is the start or the entry at the place found.
#[verifier::spinoff_prover]
pub proof fn law_extreme_goes_beyond<A: Arith<Dual>>(
    cu: Curves,
    ops: A,
    start: Dual,
    xs: Seq<Dual>,
    n: int,
    rising: bool,
    at: Option<usize>,
    v: Dual,
)
    requires
        exact(cu, ops),
        0 <= n <= xs.len(),
        n <= usize::MAX,
        extreme(ops, start, xs, n, rising, at, v),
    ensures
        rising ==> v.v >= start.v && forall|j: int| 0 <= j < n ==> (#[trigger] xs[j]).v <= v.v,
        !rising ==> v.v <= start.v && forall|j: int| 0 <= j < n ==> (#[trigger] xs[j]).v >= v.v,
        match at {
            Some(k) => k < n && v == xs[k as int],
            None => v == start,
        },
    decreases n,
{
    if n > 0 {
        let (held, beyond) = choose|held: (Option<usize>, Dual), beyond: bool|
            {
                &&& extreme(ops, start, xs, n - 1, rising, held.0, held.1)
                &&& #[trigger] goes_beyond(ops, xs[n - 1], held.1, rising, beyond)
                &&& if beyond {
                    at == Some((n - 1) as usize) && v == xs[n - 1]
                } else {
                    at == held.0 && v == held.1
                }
            };
        law_extreme_goes_beyond(cu, ops, start, xs, n - 1, rising, held.0, held.1);
        if rising {
            assert(beyond == holds_of(Test::Exceeds, xs[n - 1].v, held.1.v));
        } else {
            assert(beyond == holds_of(Test::Exceeds, held.1.v, xs[n - 1].v));
        }
    }
}

/// A state after a layer: the step from it to the block's output, times the layer's factor where
/// that is not one.
#[verifier::spinoff_prover]
pub proof fn law_layers_step_by_their_factor<A: Arith<Dual>>(
    cu: Curves,
    ops: A,
    model: WavePacketModel<Dual>,
    layer: int,
    hidden: Seq<Dual>,
    output: Seq<Dual>,
    out: Seq<Dual>,
    j: int,
)
    requires
        exact(cu, ops),
        layer_passed(ops, model, layer, hidden, output, out),
        0 <= j < hidden.len(),
        output.len() == hidden.len(),
    ensures
        ({
            let f = if model.use_layer_scale {
                model.layer_scale@[layer].v
            } else {
                1real
            };
            if size(f - 1real) > 1real / 1000000real {
                out[j].v - hidden[j].v == prod(f, output[j].v - hidden[j].v)
            } else {
                out[j] == output[j]
            }
        }),
{
    broadcast use group_value;

    let (off, scaled) = choose|off: Dual, scaled: bool|
        {
            &&& #[trigger] exceeds_ratio(ops, off, 1, 1000000, scaled)
            &&& fits(ops, un(Unary::Abs, minus(factor_of(model, layer), one())), off)
            &&& if scaled {
                fits_all(ops, damped_of(hidden, output, factor_of(model, layer)), out)
            } else {
                out == output
            }
        };
    lemma_fits(cu, ops, un(Unary::Abs, minus(factor_of(model, layer), one())), off);
    let limit = choose|limit: Dual| #[trigger]
        test_is(ops, Test::Exceeds, off, limit, scaled) && fits(
            ops,
            Expr::Ratio(1, 1000000),
            limit,
        );
    lemma_fits(cu, ops, Expr::Ratio(1, 1000000), limit);
    assert(value(cu, Expr::<Dual>::Ratio(1, 1000000)) == 1real / 1000000real);
    assert(scaled == holds_of(Test::Exceeds, off.v, limit.v));
    if scaled {
        lemma_fits_all(cu, ops, damped_of(hidden, output, factor_of(model, layer)), out);
        assert(out[j].v == value(cu, damped_of(hidden, output, factor_of(model, layer))[j]));
    }
}

} // verus!
