//! In exact arithmetic: what is read off a run, a memory and a device.

use vstd::prelude::*;
use crate::arith::Arith;
#[allow(unused_imports)]
use crate::arith::{
    Binary, Expr, Test, fits, fold_of, larger, over, plus, test_is, times, total_of, val, vals,
    zero,
};
#[allow(unused_imports)]
use crate::averages::{
    is_mean, lemma_by_one, lemma_cancel, lemma_length_value, lemma_mean_value,
    lemma_quotient_undone,
};
#[allow(unused_imports)]
use crate::backward::{entry_gained, factor_grad, factor_parts, scaled_of, table_gained};
#[allow(unused_imports)]
use crate::correlation_exact::{lemma_square, root_squares};
#[allow(unused_imports)]
use crate::decode_exact::law_last_top_is_largest;
#[allow(unused_imports)]
use crate::estimates::{bands_needed_of, gaps_of, iter_time_of, max_diff_of, seconds_of};
#[allow(unused_imports)]
use crate::exact::{
    Curves, Dual, holds_of, inverse, lemma_nothing, lemma_three, powered, prod, value,
};
#[allow(unused_imports)]
use crate::gradient_check::{squared_gaps, wave_gap};
#[allow(unused_imports)]
use crate::kerr::Offsets;
#[allow(unused_imports)]
use crate::layers::{mean_of, sums_of};
#[allow(unused_imports)]
use crate::linear_exact::{lemma_summed_same, summed};
#[allow(unused_imports)]
use crate::readings::{average_of, head_percent, layer_norms, percent_of};
#[allow(unused_imports)]
use crate::structure_exact::{law_first_low_is_least, lemma_two_sums};
#[allow(unused_imports)]
use crate::training_exact::size;
#[allow(unused_imports)]
use crate::validation::{ValidationRow, compared};
#[allow(unused_imports)]
use crate::values::{exact, group_value, lemma_fits, lemma_fits_all, lemma_total, lemma_whole};
#[allow(unused_imports)]
use crate::wave_memory::{MemoryLayerScan, held_mags, held_phases, scan_fits, squares_of};

verus! {

/// A scan of a memory's layer: every band's magnitude squared is its energy, the mean magnitude is
/// their mean, the whole energy is what all bands have, and the strongest and weakest bands are.
#[verifier::spinoff_prover]
pub proof fn law_scan_reads_memory<A: Arith<Dual>>(
    cu: Curves,
    ops: A,
    s: Offsets<Dual>,
    n: int,
    scan: MemoryLayerScan<Dual>,
)
    requires
        exact(cu, ops),
        root_squares(cu),
        scan_fits(ops, s, n, scan),
        0 < n <= usize::MAX,
    ensures
        scan.band_magnitudes@.len() == n,
        scan.band_phases@.len() == n,
        forall|k: int|
            0 <= k < n ==> {
                let m = (#[trigger] scan.band_magnitudes@[k]).v;
                &&& m >= 0real
                &&& prod(m, m) == prod(s.r@[k].v, s.r@[k].v) + prod(s.s@[k].v, s.s@[k].v)
            },
        forall|k: int|
            0 <= k < n ==> (#[trigger] scan.band_phases@[k]).v == (cu.angle)(
                s.s@[k].v,
                s.r@[k].v,
            ),
        is_mean(scan.avg_magnitude.v, |k: int| scan.band_magnitudes@[k].v, n),
        scan.total_energy.v == summed(
            |k: int| prod(s.r@[k].v, s.r@[k].v) + prod(s.s@[k].v, s.s@[k].v),
            n,
        ),
        forall|k: int|
            0 <= k < n ==> scan.min_magnitude.v <= (#[trigger] scan.band_magnitudes@[k]).v
                <= scan.max_magnitude.v,
        scan.max_magnitude == scan.band_magnitudes@[scan.max_band as int],
        scan.min_magnitude == scan.band_magnitudes@[scan.min_band as int],
{
    broadcast use group_value;

    let hm = held_mags(s, n);
    let mags = scan.band_magnitudes@;
    lemma_fits_all(cu, ops, held_phases(s, n), scan.band_phases@);
    lemma_fits_all(cu, ops, hm, mags);
    lemma_fits(cu, ops, mean_of(hm), scan.avg_magnitude);
    lemma_fits(cu, ops, total_of(squares_of(hm)), scan.total_energy);
    assert forall|k: int| 0 <= k < n implies ({
        let m = (#[trigger] mags[k]).v;
        &&& m >= 0real
        &&& prod(m, m) == prod(s.r@[k].v, s.r@[k].v) + prod(s.s@[k].v, s.s@[k].v)
    }) by {
        assert(mags[k].v == value(cu, hm[k]));
        lemma_square(s.r@[k].v);
        lemma_square(s.s@[k].v);
    }
    assert forall|k: int| 0 <= k < n implies (#[trigger] scan.band_phases@[k]).v == (cu.angle)(
        s.s@[k].v,
        s.r@[k].v,
    ) by {
        assert(scan.band_phases@[k].v == value(cu, held_phases(s, n)[k]));
    }
    lemma_mean_value(cu, hm);
    lemma_summed_same(|k: int| value(cu, hm[k]), |k: int| mags[k].v, n);
    let sq = squares_of(hm);
    lemma_total(cu, sq);
    let given = |k: int| value(cu, sq[k]);
    let wanted = |k: int| prod(s.r@[k].v, s.r@[k].v) + prod(s.s@[k].v, s.s@[k].v);
    assert forall|k: int| 0 <= k < n implies #[trigger] given(k) == wanted(k) by {
        assert(mags[k].v == value(cu, hm[k]));
    }
    lemma_summed_same(given, wanted, n);
    law_last_top_is_largest(cu, ops, mags, n, scan.max_band as int);
    law_first_low_is_least(cu, ops, mags, n, scan.min_band as int);
}

/// The distance of two waves: the mean of the squares of what they differ by.
#[verifier::spinoff_prover]
pub proof fn law_wave_gap_averages_squares(cu: Curves, a: Seq<Dual>, b: Seq<Dual>, n: int)
    requires
        0 < n <= usize::MAX,
    ensures
        is_mean(
            value(cu, wave_gap(a, b, n)),
            |i: int| prod(a[i].v - b[i].v, a[i].v - b[i].v),
            n,
        ),
{
    broadcast use group_value;

    let es = squared_gaps(a, b, n);
    lemma_mean_value(cu, es);
    let given = |i: int| value(cu, es[i]);
    let wanted = |i: int| prod(a[i].v - b[i].v, a[i].v - b[i].v);
    assert forall|i: int| 0 <= i < n implies #[trigger] given(i) == wanted(i) by {}
    lemma_summed_same(given, wanted, n);
}

/// A gradient that comes back past a factor is multiplied by it.
#[verifier::spinoff_prover]
pub proof fn law_factor_scales_what_comes_back(cu: Curves, x: Expr<Dual>, factor: Option<Dual>)
    ensures
        value(cu, scaled_of(x, factor)) == match factor {
            Some(f) => prod(value(cu, x), f.v),
            None => value(cu, x),
        },
{
    broadcast use group_value;

    lemma_by_one(value(cu, x));
}

/// The gradient of a block's factor: over all positions and components, what comes back times what
/// the block's two parts computed.
#[verifier::spinoff_prover]
pub proof fn law_factor_gradient_adds_up(
    cu: Curves,
    d: Seq<Vec<Dual>>,
    attn: Seq<Vec<Dual>>,
    ffn: Seq<Vec<Dual>>,
    n: int,
    upto: int,
)
    requires
        0 <= upto <= d.len(),
        0 <= n,
    ensures
        value(cu, total_of(factor_parts(d, attn, ffn, n, upto))) == summed(
            |p: int|
                summed(|j: int| prod(d[p]@[j].v, attn[p]@[j].v + ffn[p]@[j].v), n),
            upto,
        ),
        upto == d.len() ==> value(cu, factor_grad(d, attn, ffn, n)) == value(
            cu,
            total_of(factor_parts(d, attn, ffn, n, upto)),
        ),
    decreases upto,
{
    broadcast use group_value;

    lemma_total(cu, factor_parts(d, attn, ffn, n, upto));
    if upto > 0 {
        let p = upto - 1;
        law_factor_gradient_adds_up(cu, d, attn, ffn, n, p);
        let last = Seq::new(
            n as nat,
            |j: int|
                times(
                    val(d[upto - 1]@[j]),
                    plus(val(attn[upto - 1]@[j]), val(ffn[upto - 1]@[j])),
                ),
        );
        lemma_two_sums(cu, factor_parts(d, attn, ffn, n, p), last);
        lemma_total(cu, last);
        let given = |j: int| value(cu, last[j]);
        let wanted = |j: int| prod(d[p]@[j].v, attn[p]@[j].v + ffn[p]@[j].v);
        assert forall|j: int| 0 <= j < n implies #[trigger] given(j) == wanted(j) by {}
        lemma_summed_same(given, wanted, n);
    }
}

/// Gradients gather: an entry or a row that gains has what it had and what it gains.
#[verifier::spinoff_prover]
pub proof fn law_gradients_gather<A: Arith<Dual>>(
    cu: Curves,
    ops: A,
    before: Seq<Vec<Dual>>,
    after: Seq<Vec<Dual>>,
    at: int,
    gain: Seq<Dual>,
    j: int,
)
    requires
        exact(cu, ops),
        table_gained(ops, before, after, at, gain),
        0 <= at < before.len(),
        0 <= j < before[at]@.len(),
        before[at]@.len() == gain.len(),
    ensures
        after[at]@[j].v == before[at]@[j].v + gain[j].v,
        forall|b: int| 0 <= b < before.len() && b != at ==> #[trigger] after[b] == before[b],
{
    broadcast use group_value;

    let es = sums_of(vals(before[at]@), vals(gain));
    lemma_fits_all(cu, ops, es, after[at]@);
    assert(after[at]@[j].v == value(cu, es[j]));
    assert(vals(before[at]@)[j] == val(before[at]@[j]));
    assert(vals(gain)[j] == val(gain[j]));
}

/// The same of a single entry.
#[verifier::spinoff_prover]
pub proof fn law_entries_gather<A: Arith<Dual>>(
    cu: Curves,
    ops: A,
    before: Seq<Dual>,
    after: Seq<Dual>,
    at: int,
    gain: Dual,
)
    requires
        exact(cu, ops),
        entry_gained(ops, before, after, at, Some(gain)),
    ensures
        after[at].v == before[at].v + gain.v,
{
    broadcast use group_value;

    lemma_fits(cu, ops, plus(val(before[at]), val(gain)), after[at]);
}

/// What the processor and the device answered is compared by the largest distance: none of the
/// distances exceeds it, and the row passes exactly where it stays below a ten-thousandth.
#[verifier::spinoff_prover]
pub proof fn law_comparison_finds_largest_distance<A: Arith<Dual>>(
    cu: Curves,
    ops: A,
    name: Seq<char>,
    host: Seq<Dual>,
    device: Seq<Dual>,
    row: ValidationRow<Dual>,
)
    requires
        exact(cu, ops),
        host.len() == device.len(),
        compared(ops, name, host, device, row),
    ensures
        row.max_diff.v >= 0real,
        forall|i: int|
            0 <= i < host.len() ==> size((#[trigger] host[i]).v - device[i].v) <= row.max_diff.v,
        row.max_diff.v == 0real || exists|i: int|
            0 <= i < host.len() && size((#[trigger] host[i]).v - device[i].v) == row.max_diff.v,
        row.passed <==> row.max_diff.v < 1real / 10000real,
{
    broadcast use group_value;

    lemma_fits(cu, ops, max_diff_of(host, device), row.max_diff);
    let tolerance = choose|tolerance: Dual| #[trigger]
        fits(ops, Expr::Ratio(1, 10000), tolerance) && test_is(
            ops,
            Test::Exceeds,
            tolerance,
            row.max_diff,
            row.passed,
        );
    lemma_fits(cu, ops, Expr::Ratio(1, 10000), tolerance);
    assert(value(cu, Expr::<Dual>::Ratio(1, 10000)) == 1real / 10000real);
    assert(row.passed == holds_of(Test::Exceeds, tolerance.v, row.max_diff.v));
    let gaps = gaps_of(host, device);
    lemma_largest(cu, gaps);
    assert forall|i: int| 0 <= i < host.len() implies size((#[trigger] host[i]).v - device[i].v)
        <= row.max_diff.v by {
        assert(value(cu, gaps[i]) == size(host[i].v - device[i].v));
    }
    if row.max_diff.v != 0real {
        let i = choose|i: int|
            0 <= i < gaps.len() && value(cu, #[trigger] gaps[i]) == row.max_diff.v;
        assert(size(host[i].v - device[i].v) == row.max_diff.v);
    }
}

#[verifier::spinoff_prover]
proof fn lemma_largest(cu: Curves, xs: Seq<Expr<Dual>>)
    ensures
        ({
            let top = value(cu, fold_of(Binary::Larger, zero(), xs));
            &&& top >= 0real
            &&& forall|k: int| 0 <= k < xs.len() ==> value(cu, #[trigger] xs[k]) <= top
            &&& top == 0real || exists|k: int|
                0 <= k < xs.len() && value(cu, #[trigger] xs[k]) == top
        }),
    decreases xs.len(),
{
    broadcast use group_value;

    if xs.len() > 0 {
        let n = xs.len() as int;
        let before = xs.drop_last();
        lemma_largest(cu, before);
        let low = fold_of(Binary::Larger, zero(), before);
        let top = fold_of(Binary::Larger, zero(), xs);
        assert(top == larger(low, xs[n - 1]));
        assert forall|k: int| 0 <= k < n implies value(cu, #[trigger] xs[k]) <= value(
            cu,
            top,
        ) by {
            if k < n - 1 {
                assert(before[k] == xs[k]);
            }
        }
        if value(cu, top) != 0real && value(cu, xs[n - 1]) != value(cu, top) {
            let k = choose|k: int|
                0 <= k < before.len() && value(cu, #[trigger] before[k]) == value(cu, low);
            assert(xs[k] == before[k]);
        }
    }
}

#[verifier::spinoff_prover]
proof fn lemma_hundredfold(x: real)
    ensures
        prod(x, 100real) == 100real * x,
{
    reveal(prod);
}

/// A share in hundredths, times the whole, is a hundred times the part: for the head's gradients
/// (where the whole is no less than a thousandth) and for counts.
#[verifier::spinoff_prover]
pub proof fn law_shares_in_hundredths(
    cu: Curves,
    head: Expr<Dual>,
    norm: Dual,
    part: usize,
    whole: usize,
)
    requires
        norm.v >= 1real / 1000real,
        whole > 0,
    ensures
        prod(value(cu, head_percent(head, norm)), norm.v) == 100real * value(cu, head),
        prod(value(cu, percent_of::<Dual>(part, whole)), whole as real) == 100real * (
        part as real),
{
    broadcast use group_value;

    lemma_whole(cu, 100);
    assert(value(cu, Expr::<Dual>::Ratio(1, 1000)) == 1real / 1000real);
    let a = prod(value(cu, head), inverse(norm.v));
    let b = prod(part as real, inverse(whole as real));
    lemma_quotient_undone(value(cu, head), norm.v);
    lemma_quotient_undone(part as real, whole as real);
    lemma_three(a, 100real, norm.v);
    lemma_three(b, 100real, whole as real);
    lemma_hundredfold(value(cu, head));
    lemma_hundredfold(part as real);
}

/// The gradients of a layer are as long as the root of the sum of their squares; a layer has the
/// layer's part of what precedes the head.
#[verifier::spinoff_prover]
pub proof fn law_layer_norms_measure_parts(
    cu: Curves,
    grads: Seq<Dual>,
    start: int,
    n_layers: int,
    l: int,
)
    requires
        0 <= l < n_layers,
        0 <= start <= grads.len(),
        0 <= l * (start / n_layers) <= (l + 1) * (start / n_layers) <= grads.len(),
    ensures
        value(cu, layer_norms(grads, start, n_layers)[l]) == (cu.root)(
            summed(
                |i: int|
                    prod(
                        grads[l * (start / n_layers) + i].v,
                        grads[l * (start / n_layers) + i].v,
                    ),
                (l + 1) * (start / n_layers) - l * (start / n_layers),
            ),
        ),
{
    broadcast use group_value;

    let a = l * (start / n_layers);
    let b = (l + 1) * (start / n_layers);
    let part = grads.subrange(a, b);
    let es = vals(part);
    lemma_length_value(cu, es);
    let given = |k: int| prod(value(cu, es[k]), value(cu, es[k]));
    let wanted = |i: int| prod(grads[a + i].v, grads[a + i].v);
    assert forall|i: int| 0 <= i < b - a implies #[trigger] given(i) == wanted(i) by {
        assert(es[i] == val(part[i]));
    }
    lemma_summed_same(given, wanted, b - a);
}

/// The mean of some numbers; of none it is nothing.
#[verifier::spinoff_prover]
pub proof fn law_average_is_the_mean(cu: Curves, xs: Seq<Dual>)
    requires
        xs.len() <= usize::MAX,
    ensures
        xs.len() == 0 ==> value(cu, average_of(xs)) == 0real,
        is_mean(value(cu, average_of(xs)), |k: int| xs[k].v, xs.len() as int),
{
    broadcast use group_value;

    lemma_nothing(0real);
    if xs.len() > 0 {
        let es = vals(xs);
        lemma_mean_value(cu, es);
        let given = |k: int| value(cu, es[k]);
        let wanted = |k: int| xs[k].v;
        assert forall|k: int| 0 <= k < xs.len() implies #[trigger] given(k) == wanted(k) by {
            assert(es[k] == val(xs[k]));
        }
        lemma_summed_same(given, wanted, xs.len() as int);
    }
}

/// A time in milliseconds is a thousand times its seconds.
#[verifier::spinoff_prover]
pub proof fn law_seconds_are_thousands(cu: Curves, ms: Dual)
    ensures
        prod(value(cu, seconds_of(ms)), 1000real) == ms.v,
{
    broadcast use group_value;

    lemma_whole(cu, 1000);
    lemma_quotient_undone(ms.v, 1000real);
}

/// What a model needs: of the bands that it gets, less a head room of fifteen hundredths and less
/// the shares that are dead on either grid, as many are active as were asked for.
#[verifier::spinoff_prover]
pub proof fn law_needed_bands_leave_active_ones(
    cu: Curves,
    active: usize,
    m1: usize,
    m2: usize,
    p: real,
    q: real,
)
    requires
        m1 > 0,
        m2 > 0,
        prod(p, m1 as real) == 1real,
        prod(q, m2 as real) == 1real,
        1real - (p + q) != 0real,
    ensures
        prod(
            prod(value(cu, bands_needed_of::<Dual>(active, m1, m2)), 85real / 100real),
            1real - (p + q),
        ) == active as real,
{
    broadcast use group_value;

    assert(value(cu, Expr::<Dual>::Ratio(85, 100)) == 85real / 100real);
    lemma_by_one(inverse(m1 as real));
    lemma_by_one(inverse(m2 as real));
    lemma_quotient_undone(1real, m1 as real);
    lemma_quotient_undone(1real, m2 as real);
    lemma_cancel(inverse(m1 as real), p, m1 as real);
    lemma_cancel(inverse(m2 as real), q, m2 as real);
    let alive = 1real - (p + q);
    let a = prod(active as real, inverse(alive));
    lemma_quotient_undone(active as real, alive);
    lemma_quotient_undone(a, 85real / 100real);
}

/// The time of an iteration: five milliseconds at forty-two bands, four layers and sixteen
/// positions, with the square of the bands, with the layers and with the positions.
#[verifier::spinoff_prover]
pub proof fn law_iteration_time_grows(
    cu: Curves,
    bands: usize,
    layers: usize,
    positions: usize,
    b: real,
    l: real,
    s: real,
)
    requires
        prod(b, 42real) == bands as real,
        prod(l, 4real) == layers as real,
        prod(s, 16real) == positions as real,
    ensures
        value(cu, iter_time_of::<Dual>(bands, layers, positions)) == prod(
            prod(prod(5real, prod(b, b)), l),
            s,
        ),
{
    broadcast use group_value;

    lemma_whole(cu, 5);
    lemma_whole(cu, 42);
    lemma_whole(cu, 4);
    lemma_whole(cu, 16);
    lemma_quotient_undone(bands as real, 42real);
    lemma_quotient_undone(layers as real, 4real);
    lemma_quotient_undone(positions as real, 16real);
    lemma_cancel(prod(bands as real, inverse(42real)), b, 42real);
    lemma_cancel(prod(layers as real, inverse(4real)), l, 4real);
    lemma_cancel(prod(positions as real, inverse(16real)), s, 16real);
    reveal_with_fuel(powered, 3);
    lemma_by_one(b);
    assert(powered(b, 2) == prod(b, b));
}

} // verus!
