//! In exact arithmetic: what is read off the bands of states, and how they go together.

use vstd::prelude::*;
use crate::arith::Arith;
#[allow(unused_imports)]
use crate::arith::{Expr, Test, Unary, minus, over, test_is, times, total_of, val, vals};
#[allow(unused_imports)]
use crate::attention::column_of;
#[allow(unused_imports)]
use crate::averages::{
    is_mean, lemma_by_one, lemma_cancel, lemma_either_way, lemma_mean_value, lemma_quotient_undone,
};
#[allow(unused_imports)]
use crate::coherence::phases_of;
#[allow(unused_imports)]
use crate::correlation_exact::{lemma_square, root_squares};
#[allow(unused_imports)]
use crate::decode_exact::{phase_in, strength_in};
#[allow(unused_imports)]
use crate::exact::{Curves, Dual, holds_of, inverse, powered, prod, value};
#[allow(unused_imports)]
use crate::kerr::{Waves, around_of, energies_around, energy_of};
#[allow(unused_imports)]
use crate::linear_exact::{lemma_summed_cut, lemma_summed_same, lemma_summed_scaled, summed};
#[allow(unused_imports)]
use crate::statistics::{faint, loose_correlation_of};
#[allow(unused_imports)]
use crate::sub_harmonic::{
    coupling_at, couplings_at, energy_ratio, entropy_ratio, falling, first_low, first_peak,
    mag_rows, may_precede, own_energies, own_means, phase_rows, profile_of, resultant_of, shares_of,
    step_resultants, step_rows, surprise_of, turned, wrapped_of,
};
#[allow(unused_imports)]
use crate::training_exact::size;
#[allow(unused_imports)]
use crate::values::{exact, group_value, lemma_total, lemma_whole};

verus! {

/// A difference of two angles, brought back: it lies within half a turn either way and is the
/// difference, or that and a whole turn up or down.
#[verifier::spinoff_prover]
pub proof fn law_differences_are_brought_back(cu: Curves, d: Expr<Dual>)
    requires
        cu.pi > 0real,
        -3real * cu.pi <= value(cu, d) <= 3real * cu.pi,
    ensures
        ({
            let w = value(cu, wrapped_of(d));
            let x = value(cu, d);
            &&& -cu.pi <= w <= cu.pi
            &&& w == x || w == x - 2real * cu.pi || w == x + 2real * cu.pi
        }),
{
    broadcast use group_value;

    lemma_whole(cu, 2);
    lemma_twice(cu.pi);
}

#[verifier::spinoff_prover]
proof fn lemma_twice(x: real)
    ensures
        prod(2real, x) == 2real * x,
{
    reveal(prod);
}

/// What is read off band `k` of the state at position `p`: its phase, its magnitude, and how its
/// phase stands to that of the next band.
#[verifier::spinoff_prover]
pub proof fn law_rows_read_bands(cu: Curves, states: Seq<Vec<Dual>>, n: int, p: int, k: int)
    requires
        0 <= p < states.len(),
        0 <= k < n,
        2 * n <= states[p]@.len(),
    ensures
        ({
            let x = |i: int| states[p]@[i].v;
            &&& value(cu, phase_rows(states, n)[p][k]) == phase_in(cu, x, k)
            &&& value(cu, mag_rows(states, n)[p][k]) == strength_in(cu, x, k)
            &&& k + 1 < n && cu.pi > 0real && -3real * cu.pi <= phase_in(cu, x, k + 1) - phase_in(
                cu,
                x,
                k,
            ) <= 3real * cu.pi ==> {
                let step = value(cu, step_rows(states, n)[p][k]);
                let d = phase_in(cu, x, k + 1) - phase_in(cu, x, k);
                &&& -cu.pi <= step <= cu.pi
                &&& step == d || step == d - 2real * cu.pi || step == d + 2real * cu.pi
            }
        }),
{
    broadcast use group_value;

    let xs = vals(states[p]@);
    assert(xs[2 * k] == val(states[p]@[2 * k]));
    assert(xs[2 * k + 1] == val(states[p]@[2 * k + 1]));
    if k + 1 < n {
        assert(xs[2 * (k + 1)] == val(states[p]@[2 * (k + 1)]));
        assert(xs[2 * (k + 1) + 1] == val(states[p]@[2 * (k + 1) + 1]));
        let d = minus(phases_of(xs, n)[k + 1], phases_of(xs, n)[k]);
        assert(step_rows(states, n)[p][k] == wrapped_of(d));
        let x = |i: int| states[p]@[i].v;
        assert(value(cu, d) == phase_in(cu, x, k + 1) - phase_in(cu, x, k));
        if cu.pi > 0real && -3real * cu.pi <= value(cu, d) <= 3real * cu.pi {
            law_differences_are_brought_back(cu, d);
        }
    }
}

/// How closely angles keep together: the square is that of the mean cosine and that of the mean
/// sine.
#[verifier::spinoff_prover]
pub proof fn law_resultant_is_mean_direction(
    cu: Curves,
    angles: Seq<Expr<Dual>>,
    c: real,
    s: real,
)
    requires
        root_squares(cu),
        angles.len() <= usize::MAX,
        is_mean(c, |k: int| (cu.cos)(value(cu, angles[k])), angles.len() as int),
        is_mean(s, |k: int| (cu.sin)(value(cu, angles[k])), angles.len() as int),
    ensures
        angles.len() == 0 ==> value(cu, resultant_of(angles)) == 0real,
        angles.len() > 0 ==> {
            let r = value(cu, resultant_of(angles));
            &&& r >= 0real
            &&& prod(r, r) == prod(c, c) + prod(s, s)
        },
{
    broadcast use group_value;

    let n = angles.len() as int;
    if n > 0 {
        let cs = turned(Unary::Cos, angles);
        let ss = turned(Unary::Sin, angles);
        lemma_mean_value(cu, cs);
        lemma_mean_value(cu, ss);
        let count = Expr::<Dual>::Count(n as usize);
        let a = value(cu, over(total_of(cs), count));
        let b = value(cu, over(total_of(ss), count));
        lemma_summed_same(
            |k: int| value(cu, cs[k]),
            |k: int| (cu.cos)(value(cu, angles[k])),
            n,
        );
        lemma_summed_same(
            |k: int| value(cu, ss[k]),
            |k: int| (cu.sin)(value(cu, angles[k])),
            n,
        );
        lemma_cancel(a, c, n as real);
        lemma_cancel(b, s, n as real);
        reveal_with_fuel(powered, 3);
        lemma_square(c);
        lemma_square(s);
        lemma_by_one(c);
        lemma_by_one(s);
        assert(powered(c, 2) == prod(c, c));
        assert(powered(s, 2) == prod(s, s));
    }
}

/// How closely the steps between adjacent bands keep together over the positions: the mean over
/// the pairs of bands of how closely each pair's steps do.
#[verifier::spinoff_prover]
pub proof fn law_clustering_averages_pairs(cu: Curves, states: Seq<Vec<Dual>>, n: int)
    requires
        2 <= n <= usize::MAX,
    ensures
        is_mean(
            value(
                cu,
                over(total_of(step_resultants(states, n)), Expr::Count((n - 1) as usize)),
            ),
            |k: int| value(cu, resultant_of(column_of(step_rows(states, n), k))),
            n - 1,
        ),
{
    let es = step_resultants(states, n);
    lemma_mean_value(cu, es);
    lemma_summed_same(
        |k: int| value(cu, es[k]),
        |k: int| value(cu, resultant_of(column_of(step_rows(states, n), k))),
        n - 1,
    );
}

/// How bands `d` apart go together: the mean size of the correlation over all such pairs.
#[verifier::spinoff_prover]
pub proof fn law_coupling_averages_correlations(
    cu: Curves,
    rows: Seq<Seq<Expr<Dual>>>,
    n: int,
    d: int,
)
    requires
        0 <= d,
        n <= usize::MAX,
    ensures
        n <= d ==> value(cu, coupling_at(rows, n, d)) == 0real,
        n > d ==> is_mean(
            value(cu, coupling_at(rows, n, d)),
            |k: int|
                size(
                    value(cu, loose_correlation_of(column_of(rows, k), column_of(rows, k + d))),
                ),
            n - d,
        ),
{
    broadcast use group_value;

    if n > d {
        let es = couplings_at(rows, n, d);
        lemma_mean_value(cu, es);
        let given = |k: int| value(cu, es[k]);
        let wanted = |k: int|
            size(value(cu, loose_correlation_of(column_of(rows, k), column_of(rows, k + d))));
        assert forall|k: int| 0 <= k < n - d implies #[trigger] given(k) == wanted(k) by {}
        lemma_summed_same(given, wanted, n - d);
    }
}

/// The profile of states: band by band the mean magnitude over the positions.
#[verifier::spinoff_prover]
pub proof fn law_profile_averages_magnitudes(cu: Curves, states: Seq<Vec<Dual>>, n: int, k: int)
    requires
        0 < states.len() <= usize::MAX,
        0 <= k < n,
        forall|p: int| 0 <= p < states.len() ==> 2 * n <= (#[trigger] states[p])@.len(),
    ensures
        is_mean(
            value(cu, profile_of(states, n)[k]),
            |p: int| strength_in(cu, |i: int| states[p]@[i].v, k),
            states.len() as int,
        ),
{
    let col = column_of(mag_rows(states, n), k);
    lemma_mean_value(cu, col);
    let given = |p: int| value(cu, col[p]);
    let wanted = |p: int| strength_in(cu, |i: int| states[p]@[i].v, k);
    assert forall|p: int| 0 <= p < states.len() implies #[trigger] given(p) == wanted(p) by {
        assert(2 * n <= states[p]@.len());
        law_rows_read_bands(cu, states, n, p, k);
    }
    lemma_summed_same(given, wanted, states.len() as int);
}

/// The energy of band `j` among `n`, nothing where there is no such band.
pub open spec fn energy_in(x: spec_fn(int) -> real, n: int, j: int) -> real {
    if 0 <= j < n {
        prod(x(2 * j), x(2 * j)) + prod(x(2 * j + 1), x(2 * j + 1))
    } else {
        0real
    }
}

#[verifier::spinoff_prover]
pub proof fn lemma_two_sums(cu: Curves, a: Seq<Expr<Dual>>, b: Seq<Expr<Dual>>)
    ensures
        value(cu, total_of(a + b)) == value(cu, total_of(a)) + value(cu, total_of(b)),
{
    lemma_total(cu, a);
    lemma_total(cu, b);
    lemma_total(cu, a + b);
    let f = |k: int| value(cu, (a + b)[k]);
    lemma_summed_cut(f, a.len() as int, b.len() as int);
    lemma_summed_same(f, |k: int| value(cu, a[k]), a.len() as int);
    lemma_summed_same(
        |i: int| f(a.len() + i),
        |k: int| value(cu, b[k]),
        b.len() as int,
    );
}

#[verifier::spinoff_prover]
proof fn lemma_single_sum(cu: Curves, e: Expr<Dual>)
    ensures
        value(cu, total_of(seq![e])) == value(cu, e),
        value(cu, total_of(Seq::<Expr<Dual>>::empty())) == 0real,
{
    lemma_total(cu, seq![e]);
    lemma_total(cu, Seq::<Expr<Dual>>::empty());
    reveal_with_fuel(summed, 2);
}

/// The energy around a band is that of the two bands on either side, as far as there are any.
#[verifier::spinoff_prover]
pub proof fn law_energy_around_is_the_neighbours(
    cu: Curves,
    z: Waves<Dual>,
    x: spec_fn(int) -> real,
    k: int,
)
    requires
        0 <= k < z.r.len() <= usize::MAX,
        z.s.len() == z.r.len(),
        forall|j: int| 0 <= j < z.r.len() ==> value(cu, #[trigger] z.r[j]) == x(2 * j),
        forall|j: int| 0 <= j < z.s.len() ==> value(cu, #[trigger] z.s[j]) == x(2 * j + 1),
    ensures
        ({
            let n = z.r.len() as int;
            value(cu, around_of(z, k)) == energy_in(x, n, k - 2) + energy_in(x, n, k - 1)
                + energy_in(x, n, k + 1) + energy_in(x, n, k + 2)
        }),
{
    broadcast use group_value;

    let n = z.r.len() as int;
    let e = |j: int| energy_of(z.r[j], z.s[j]);
    assert forall|j: int| 0 <= j < n implies value(cu, #[trigger] e(j)) == energy_in(x, n, j) by {
        assert(value(cu, z.r[j]) == x(2 * j));
        assert(value(cu, z.s[j]) == x(2 * j + 1));
    }
    let none = Seq::<Expr<Dual>>::empty();
    let a = if k >= 2 {
        seq![e(k - 2)]
    } else {
        none
    };
    let b = if k >= 1 {
        seq![e(k - 1)]
    } else {
        none
    };
    let c = if k + 1 < n {
        seq![e(k + 1)]
    } else {
        none
    };
    let d = if k + 2 < n {
        seq![e(k + 2)]
    } else {
        none
    };
    assert(energies_around(z, k) =~= a + b + c + d);
    lemma_two_sums(cu, a + b + c, d);
    lemma_two_sums(cu, a + b, c);
    lemma_two_sums(cu, a, b);
    lemma_single_sum(cu, e(k - 2));
    lemma_single_sum(cu, e(k - 1));
    lemma_single_sum(cu, e(k + 1));
    lemma_single_sum(cu, e(k + 2));
    assert(0 <= k - 2 ==> value(cu, e(k - 2)) == energy_in(x, n, k - 2));
    assert(0 <= k - 1 ==> value(cu, e(k - 1)) == energy_in(x, n, k - 1));
    assert(k + 1 < n ==> value(cu, e(k + 1)) == energy_in(x, n, k + 1));
    assert(k + 2 < n ==> value(cu, e(k + 2)) == energy_in(x, n, k + 2));
}

/// A band's own energy, averaged over the positions and times its coefficient.
#[verifier::spinoff_prover]
pub proof fn law_own_energy_is_averaged(
    cu: Curves,
    states: Seq<Vec<Dual>>,
    n: int,
    alpha: Dual,
    k: int,
)
    requires
        0 < states.len() <= usize::MAX,
        0 <= k < n,
        forall|p: int| 0 <= p < states.len() ==> 2 * n <= (#[trigger] states[p])@.len(),
    ensures
        is_mean(
            value(cu, own_means(states, n, alpha)[k]),
            |p: int| prod(alpha.v, energy_in(|i: int| states[p]@[i].v, n, k)),
            states.len() as int,
        ),
{
    broadcast use group_value;

    let rows = Seq::new(states.len(), |p: int| own_energies(vals(states[p]@), n, alpha));
    let col = column_of(rows, k);
    lemma_mean_value(cu, col);
    let given = |p: int| value(cu, col[p]);
    let wanted = |p: int| prod(alpha.v, energy_in(|i: int| states[p]@[i].v, n, k));
    assert forall|p: int| 0 <= p < states.len() implies #[trigger] given(p) == wanted(p) by {
        assert(2 * n <= states[p]@.len());
        let xs = vals(states[p]@);
        assert(xs[2 * k] == val(states[p]@[2 * k]));
        assert(xs[2 * k + 1] == val(states[p]@[2 * k + 1]));
    }
    lemma_summed_same(given, wanted, states.len() as int);
}

/// A ratio of energies, times the one that it is divided by, is the other; it is nothing where
/// there is hardly anything to divide by.
#[verifier::spinoff_prover]
pub proof fn law_energy_ratio_divides(cu: Curves, own: Expr<Dual>, cross: Expr<Dual>)
    ensures
        value(cu, own) > 1real / 10000000000real ==> prod(
            value(cu, energy_ratio(own, cross)),
            value(cu, own),
        ) == value(cu, cross),
        value(cu, own) <= 1real / 10000000000real ==> value(cu, energy_ratio(own, cross)) == 0real,
{
    broadcast use group_value;

    assert(value(cu, Expr::<Dual>::Ratio(1, 10000000000)) == 1real / 10000000000real);
    if value(cu, own) > 1real / 10000000000real {
        lemma_quotient_undone(value(cu, cross), value(cu, own));
    }
}

/// In exact arithmetic the place of the first of the smallest entries: none is less, and every
/// earlier one is more.
#[verifier::spinoff_prover]
pub proof fn law_first_low_is_least<A: Arith<Dual>>(
    cu: Curves,
    ops: A,
    xs: Seq<Dual>,
    n: int,
    at: int,
)
    requires
        exact(cu, ops),
        0 < n <= xs.len(),
        first_low(ops, xs, n, at),
    ensures
        0 <= at < n,
        forall|j: int| 0 <= j < n ==> xs[at].v <= (#[trigger] xs[j]).v,
        forall|j: int| 0 <= j < at ==> xs[at].v < (#[trigger] xs[j]).v,
    decreases n,
{
    if n > 1 {
        let (held, yields) = choose|held: int, yields: bool| #[trigger]
            test_is(ops, Test::Exceeds, xs[held], xs[n - 1], yields) && first_low(
                ops,
                xs,
                n - 1,
                held,
            ) && 0 <= held < n - 1 && at == (if yields {
                n - 1
            } else {
                held
            });
        law_first_low_is_least(cu, ops, xs, n - 1, held);
        assert(yields == holds_of(Test::Exceeds, xs[held].v, xs[n - 1].v));
    }
}

/// In exact arithmetic the first peak above a start: no entry exceeds what was found, which is the
/// start or the entry at the place found, and all earlier entries are less.
#[verifier::spinoff_prover]
pub proof fn law_first_peak_is_largest<A: Arith<Dual>>(
    cu: Curves,
    ops: A,
    start: Dual,
    xs: Seq<Dual>,
    n: int,
    at: Option<int>,
    v: Dual,
)
    requires
        exact(cu, ops),
        0 <= n <= xs.len(),
        first_peak(ops, start, xs, n, at, v),
    ensures
        v.v >= start.v,
        forall|j: int| 0 <= j < n ==> (#[trigger] xs[j]).v <= v.v,
        match at {
            Some(k) => {
                &&& 0 <= k < n
                &&& v == xs[k]
                &&& v.v > start.v
                &&& forall|j: int| 0 <= j < k ==> (#[trigger] xs[j]).v < v.v
            },
            None => v == start,
        },
    decreases n,
{
    if n > 0 {
        let (held, over) = choose|held: (Option<int>, Dual), over: bool|
            first_peak(ops, start, xs, n - 1, held.0, held.1) && #[trigger] test_is(
                ops,
                Test::Exceeds,
                xs[n - 1],
                held.1,
                over,
            ) && (if over {
                at == Some(n - 1) && v == xs[n - 1]
            } else {
                at == held.0 && v == held.1
            });
        law_first_peak_is_largest(cu, ops, start, xs, n - 1, held.0, held.1);
        assert(over == holds_of(Test::Exceeds, xs[n - 1].v, held.1.v));
    }
}

/// The shares of a power: each times the whole is its part, and where the whole is more than faint
/// they add up to one.
#[verifier::spinoff_prover]
pub proof fn law_shares_add_up_to_one(cu: Curves, powers: Seq<Expr<Dual>>)
    requires
        summed(|k: int| value(cu, powers[k]), powers.len() as int) > 1real / 10000000000real,
    ensures
        ({
            let whole = summed(|k: int| value(cu, powers[k]), powers.len() as int);
            &&& forall|i: int|
                0 <= i < powers.len() ==> prod(value(cu, #[trigger] shares_of(powers)[i]), whole)
                    == value(cu, powers[i])
            &&& summed(|i: int| value(cu, shares_of(powers)[i]), powers.len() as int) == 1real
        }),
{
    broadcast use group_value;

    let n = powers.len() as int;
    let parts = |k: int| value(cu, powers[k]);
    let whole = summed(parts, n);
    lemma_total(cu, powers);
    assert(value(cu, Expr::<Dual>::Ratio(1, 10000000000)) == 1real / 10000000000real);
    let shares = |i: int| value(cu, shares_of(powers)[i]);
    assert forall|i: int| 0 <= i < n implies #[trigger] shares(i) == prod(
        inverse(whole),
        parts(i),
    ) by {
        lemma_either_way(inverse(whole), parts(i));
    }
    assert forall|i: int| 0 <= i < n implies prod(
        value(cu, #[trigger] shares_of(powers)[i]),
        whole,
    ) == value(cu, powers[i]) by {
        lemma_quotient_undone(value(cu, powers[i]), whole);
    }
    lemma_summed_scaled(shares, parts, inverse(whole), n);
    lemma_quotient_undone(1real, whole);
    lemma_by_one(inverse(whole));
}

/// In exact arithmetic a falling order falls, and equal entries stand in the order of their places.
#[verifier::spinoff_prover]
pub proof fn law_falling_order_falls<A: Arith<Dual>>(
    cu: Curves,
    ops: A,
    list: Seq<(usize, Dual)>,
    i: int,
    j: int,
)
    requires
        exact(cu, ops),
        falling(ops, list),
        0 <= i < j < list.len(),
    ensures
        list[j].1.v <= list[i].1.v,
        list[j].1.v == list[i].1.v ==> list[i].0 < list[j].0,
    decreases j - i,
{
    assert(may_precede(ops, list[j - 1], list[j - 1 + 1]));
    if i < j - 1 {
        law_falling_order_falls(cu, ops, list, i, j - 1);
    }
}

/// The entropy of shares over that of equal shares: times the logarithm of their number it is the
/// negated sum of each share times its logarithm.
#[verifier::spinoff_prover]
pub proof fn law_entropy_of_shares(cu: Curves, shares: Seq<Dual>, n: usize)
    requires
        (cu.ln)(n as real) > 1real / 10000000000real,
    ensures
        ({
            let terms = Seq::new(shares.len(), |i: int| surprise_of(val(shares[i])));
            prod(value(cu, entropy_ratio(terms, n)), (cu.ln)(n as real)) == -summed(
                |i: int| prod(shares[i].v, (cu.ln)(shares[i].v)),
                shares.len() as int,
            )
        }),
{
    broadcast use group_value;

    let terms = Seq::new(shares.len(), |i: int| surprise_of(val(shares[i])));
    lemma_total(cu, terms);
    let given = |k: int| value(cu, terms[k]);
    let wanted = |i: int| prod(shares[i].v, (cu.ln)(shares[i].v));
    assert forall|i: int| 0 <= i < shares.len() implies #[trigger] given(i) == wanted(i) by {}
    lemma_summed_same(given, wanted, shares.len() as int);
    assert(value(cu, Expr::<Dual>::Ratio(1, 10000000000)) == 1real / 10000000000real);
    lemma_quotient_undone(-summed(wanted, shares.len() as int), (cu.ln)(n as real));
}

} // verus!
