//! In exact arithmetic: what the analyses of phases measure.

use vstd::prelude::*;
use crate::arith::Arith;
#[allow(unused_imports)]
use crate::arith::{Expr, Test, fits, larger, minus, over, test_is, val};
#[allow(unused_imports)]
use crate::averages::{is_mean, lemma_mean_between, lemma_mean_value, lemma_quotient_undone};
#[allow(unused_imports)]
use crate::decode_exact::cosine_bounded;
#[allow(unused_imports)]
use crate::exact::{Curves, Dual, holds_of, inverse, lemma_nothing, lemma_three, prod, value};
#[allow(unused_imports)]
use crate::linear_exact::lemma_summed_same;
#[allow(unused_imports)]
use crate::training_exact::size;
#[allow(unused_imports)]
use crate::values::{exact, group_value, lemma_fits, lemma_whole};
#[allow(unused_imports)]
use crate::wave_analysis::{
    DiscriminationResult, agreement, agreements, best_of, bin_width, contrast, counts_below,
    discriminates, in_bin, pair_mean, peak_of, rises, rising, spectrum_of, universal_percent,
};

verus! {

/// How well two vectors of phases agree at harmonic `h`: the mean over the bands of the cosine of
/// `h` times their difference, with its sign or without.
#[verifier::spinoff_prover]
pub proof fn law_agreement_averages_cosines(
    cu: Curves,
    a: Seq<Expr<Dual>>,
    b: Seq<Expr<Dual>>,
    h: usize,
    signed: bool,
)
    requires
        0 < a.len() <= usize::MAX,
        a.len() == b.len(),
    ensures
        is_mean(
            value(cu, agreement(a, b, h, signed)),
            |k: int|
                {
                    let c = (cu.cos)(prod(h as real, value(cu, a[k]) - value(cu, b[k])));
                    if signed {
                        c
                    } else {
                        size(c)
                    }
                },
            a.len() as int,
        ),
{
    broadcast use group_value;

    let list = agreements(a, b, h, signed);
    lemma_mean_value(cu, list);
    let given = |k: int| value(cu, list[k]);
    let wanted = |k: int|
        {
            let c = (cu.cos)(prod(h as real, value(cu, a[k]) - value(cu, b[k])));
            if signed {
                c
            } else {
                size(c)
            }
        };
    assert forall|k: int| 0 <= k < a.len() implies #[trigger] given(k) == wanted(k) by {}
    lemma_summed_same(given, wanted, a.len() as int);
}

/// Phases agree with themselves at every harmonic as well as phases can: the agreement is one.
#[verifier::spinoff_prover]
pub proof fn law_phases_agree_with_themselves(
    cu: Curves,
    a: Seq<Expr<Dual>>,
    b: Seq<Expr<Dual>>,
    h: usize,
    signed: bool,
)
    requires
        cosine_bounded(cu),
        0 < a.len() <= usize::MAX,
        a.len() == b.len(),
    ensures
        value(cu, agreement(a, b, h, signed)) <= 1real,
        (forall|k: int| 0 <= k < a.len() ==> value(cu, #[trigger] a[k]) == value(cu, b[k]))
            ==> value(cu, agreement(a, b, h, signed)) == 1real,
{
    law_agreement_averages_cosines(cu, a, b, h, signed);
    let f = |k: int|
        {
            let c = (cu.cos)(prod(h as real, value(cu, a[k]) - value(cu, b[k])));
            if signed {
                c
            } else {
                size(c)
            }
        };
    lemma_mean_between(
        value(cu, agreement(a, b, h, signed)),
        f,
        a.len() as int,
        -1real,
        1real,
    );
    if forall|k: int| 0 <= k < a.len() ==> value(cu, #[trigger] a[k]) == value(cu, b[k]) {
        lemma_nothing(h as real);
        assert forall|k: int| 0 <= k < a.len() implies 1real <= #[trigger] f(k) <= 1real by {
            assert(value(cu, a[k]) == value(cu, b[k]));
        }
        lemma_mean_between(
            value(cu, agreement(a, b, h, signed)),
            f,
            a.len() as int,
            1real,
            1real,
        );
    }
}

/// A peak is no less than nothing, nor than any of the entries, and is one of them or nothing.
#[verifier::spinoff_prover]
pub proof fn law_peak_is_largest(cu: Curves, es: Seq<Expr<Dual>>, n: int)
    requires
        0 <= n <= es.len(),
    ensures
        value(cu, peak_of(es, n)) >= 0real,
        forall|i: int| 0 <= i < n ==> value(cu, #[trigger] es[i]) <= value(cu, peak_of(es, n)),
        value(cu, peak_of(es, n)) == 0real || exists|i: int|
            0 <= i < n && value(cu, #[trigger] es[i]) == value(cu, peak_of(es, n)),
    decreases n,
{
    broadcast use group_value;

    if n > 0 {
        law_peak_is_largest(cu, es, n - 1);
        let before = value(cu, peak_of(es, n - 1));
        if value(cu, es[n - 1]) <= before && before != 0real {
            let i = choose|i: int| 0 <= i < n - 1 && value(cu, #[trigger] es[i]) == before;
            assert(value(cu, es[i]) == value(cu, peak_of(es, n)));
        }
    }
}

/// The best agreement of two vectors of phases is the largest over the harmonics from one on.
#[verifier::spinoff_prover]
pub proof fn law_best_agreement_is_largest(
    cu: Curves,
    a: Seq<Expr<Dual>>,
    b: Seq<Expr<Dual>>,
    max_n: int,
    h: int,
)
    requires
        1 <= h <= max_n <= usize::MAX,
    ensures
        value(cu, best_of(a, b, max_n)) >= value(cu, agreement(a, b, h as usize, false)),
        value(cu, best_of(a, b, max_n)) == 0real || exists|g: int|
            1 <= g <= max_n && value(cu, best_of(a, b, max_n)) == value(
                cu,
                #[trigger] agreement(a, b, g as usize, false),
            ),
{
    let es = spectrum_of(a, b, max_n, false);
    law_peak_is_largest(cu, es, max_n);
    assert(es[h - 1] == agreement(a, b, h as usize, false));
    if value(cu, best_of(a, b, max_n)) != 0real {
        let i = choose|i: int|
            0 <= i < max_n && value(cu, #[trigger] es[i]) == value(cu, peak_of(es, max_n));
        assert(es[i] == agreement(a, b, (i + 1) as usize, false));
    }
}

/// What compares related pairs with random ones: both means are means, and the ratio times the
/// random mean is the related mean where the random pairs agree by a thousandth or more. The ratio
/// then exceeds one exactly where the related pairs agree the better.
#[verifier::spinoff_prover]
pub proof fn law_contrast_compares<A: Arith<Dual>>(
    cu: Curves,
    ops: A,
    related: Seq<Expr<Dual>>,
    random: Seq<Expr<Dual>>,
    r: DiscriminationResult<Dual>,
)
    requires
        exact(cu, ops),
        discriminates(ops, related, random, r),
        related.len() <= usize::MAX,
        random.len() <= usize::MAX,
    ensures
        is_mean(r.related_mean.v, |k: int| value(cu, related[k]), related.len() as int),
        is_mean(r.random_mean.v, |k: int| value(cu, random[k]), random.len() as int),
        r.random_mean.v >= 1real / 1000real ==> {
            &&& prod(r.ratio.v, r.random_mean.v) == r.related_mean.v
            &&& (r.ratio.v > 1real <==> r.related_mean.v > r.random_mean.v)
        },
        r.random_mean.v < 1real / 1000real ==> prod(r.ratio.v, 1real / 1000real)
            == r.related_mean.v,
{
    broadcast use group_value;

    lemma_fits(cu, ops, pair_mean(related), r.related_mean);
    lemma_fits(cu, ops, pair_mean(random), r.random_mean);
    lemma_fits(cu, ops, contrast(pair_mean(related), pair_mean(random)), r.ratio);
    lemma_nothing(0real);
    if related.len() > 0 {
        lemma_mean_value(cu, related);
    }
    if random.len() > 0 {
        lemma_mean_value(cu, random);
    }
    assert(value(cu, Expr::<Dual>::Ratio(1, 1000)) == 1real / 1000real);
    let (a, b) = (r.related_mean.v, r.random_mean.v);
    if b >= 1real / 1000real {
        lemma_quotient_undone(a, b);
        lemma_compared(r.ratio.v, b);
    } else {
        lemma_quotient_undone(a, 1real / 1000real);
    }
}

#[verifier::spinoff_prover]
proof fn lemma_compared(r: real, b: real)
    requires
        b > 0real,
    ensures
        r > 1real <==> prod(r, b) > b,
{
    reveal(prod);
    assert(r > 1real <==> r * b > b) by (nonlinear_arith)
        requires
            b > 0real,
    ;
}

/// In exact arithmetic a rising order rises.
#[verifier::spinoff_prover]
pub proof fn law_rising_order_rises<A: Arith<Dual>>(
    cu: Curves,
    ops: A,
    xs: Seq<Dual>,
    i: int,
    j: int,
)
    requires
        exact(cu, ops),
        rising(ops, xs),
        0 <= i <= j < xs.len(),
    ensures
        xs[i].v <= xs[j].v,
    decreases j - i,
{
    if i < j {
        law_rising_order_rises(cu, ops, xs, i, j - 1);
        assert(rises(ops, xs[j - 1], xs[j - 1 + 1]));
    }
}

/// How many of the first `n` entries are less than a limit.
pub open spec fn how_many_below(limit: real, xs: Seq<Dual>, n: int) -> int
    decreases n,
{
    if n <= 0 {
        0
    } else {
        how_many_below(limit, xs, n - 1) + if xs[n - 1].v < limit {
            1int
        } else {
            0
        }
    }
}

/// In exact arithmetic a count of entries below a limit counts those that are less.
#[verifier::spinoff_prover]
pub proof fn law_counts_what_is_below<A: Arith<Dual>>(
    cu: Curves,
    ops: A,
    limit: Dual,
    xs: Seq<Dual>,
    n: int,
    count: int,
)
    requires
        exact(cu, ops),
        0 <= n <= xs.len(),
        counts_below(ops, limit, xs, n, count),
    ensures
        count == how_many_below(limit.v, xs, n),
    decreases n,
{
    if n > 0 {
        let less = choose|less: bool| #[trigger]
            test_is(ops, Test::Exceeds, limit, xs[n - 1], less) && counts_below(
                ops,
                limit,
                xs,
                n - 1,
                if less {
                    count - 1
                } else {
                    count
                },
            );
        assert(less == holds_of(Test::Exceeds, limit.v, xs[n - 1].v));
        law_counts_what_is_below(
            cu,
            ops,
            limit,
            xs,
            n - 1,
            if less {
                count - 1
            } else {
                count
            },
        );
    }
}

/// A bin holds what lies within its width from its edge: an entry no less than the least falls
/// into the bin whose edges it lies between, or into the last one.
#[verifier::spinoff_prover]
pub proof fn law_bins_hold_what_lies_within<A: Arith<Dual>>(
    cu: Curves,
    ops: A,
    x: Dual,
    low: Dual,
    width: Dual,
    n_bins: int,
    at: int,
)
    requires
        exact(cu, ops),
        in_bin(ops, x, low, width, n_bins, at),
        width.v >= 1real / 1000real,
        x.v >= low.v,
        n_bins > 0,
    ensures
        0 <= at < n_bins,
        prod(at as real, width.v) <= x.v - low.v,
        at < n_bins - 1 ==> x.v - low.v < prod((at + 1) as real, width.v),
{
    broadcast use group_value;

    let (q, w) = choose|q: Dual, w: usize|
        fits(
            ops,
            over(
                minus(val(x), val(low)),
                larger(val(width), Expr::Ratio(1, 1000)),
            ),
            q,
        ) && #[trigger] call_ensures(A::whole, (&ops, q), w) && at == (if w < n_bins - 1 {
            w as int
        } else {
            n_bins - 1
        });
    lemma_fits(
        cu,
        ops,
        over(
            minus(val(x), val(low)),
            larger(val(width), Expr::Ratio(1, 1000)),
        ),
        q,
    );
    assert(value(cu, Expr::<Dual>::Ratio(1, 1000)) == 1real / 1000real);
    lemma_quotient_undone(x.v - low.v, width.v);
    lemma_shares(q.v, x.v - low.v, width.v);
    lemma_floor(q.v, w as real, at as real, x.v - low.v, width.v);
    assert((at + 1) as real == at as real + 1real);
}

#[verifier::spinoff_prover]
proof fn lemma_shares(q: real, d: real, w: real)
    requires
        w > 0real,
        d >= 0real,
        prod(q, w) == d,
    ensures
        q >= 0real,
{
    reveal(prod);
    assert(q >= 0real) by (nonlinear_arith)
        requires
            w > 0real,
            d >= 0real,
            q * w == d,
    ;
}

#[verifier::spinoff_prover]
proof fn lemma_floor(q: real, f: real, at: real, d: real, w: real)
    requires
        w > 0real,
        prod(q, w) == d,
        f <= q < f + 1real,
        at <= f,
    ensures
        prod(at, w) <= d,
        at == f ==> d < prod(at + 1real, w),
{
    reveal(prod);
    assert(at * w <= q * w) by (nonlinear_arith)
        requires
            w > 0real,
            at <= q,
    ;
    assert(at == f ==> q * w < (at + 1real) * w) by (nonlinear_arith)
        requires
            w > 0real,
            q < f + 1real,
    ;
}

/// The width of a bin, times their number, is the range.
#[verifier::spinoff_prover]
pub proof fn law_bins_fill_the_range(cu: Curves, low: Dual, high: Dual, n_bins: usize)
    requires
        n_bins > 0,
    ensures
        prod(value(cu, bin_width(low, high, n_bins)), n_bins as real) == high.v - low.v,
{
    broadcast use group_value;

    lemma_quotient_undone(high.v - low.v, n_bins as real);
}

/// The share of universal bands in hundredths, times the bands, is a hundred times their number.
#[verifier::spinoff_prover]
pub proof fn law_universal_share(cu: Curves, universal: usize, n_bands: usize)
    requires
        n_bands > 0,
    ensures
        prod(value(cu, universal_percent::<Dual>(universal, n_bands)), n_bands as real)
            == 100real * (universal as real),
{
    broadcast use group_value;

    lemma_whole(cu, 100);
    let part = prod(universal as real, inverse(n_bands as real));
    lemma_quotient_undone(universal as real, n_bands as real);
    lemma_three(part, 100real, n_bands as real);
    lemma_hundred(universal as real);
}

#[verifier::spinoff_prover]
proof fn lemma_hundred(x: real)
    ensures
        prod(x, 100real) == 100real * x,
{
    reveal(prod);
}

} // verus!
