//! In exact arithmetic: the tables and values that fresh models start from.

use vstd::prelude::*;
use crate::arith::Arith;
#[allow(unused_imports)]
use crate::arith::{Expr, Unary, minus, one, over, raised, times, un, val, zero};
#[allow(unused_imports)]
use crate::attention_exact::exp_adds;
#[allow(unused_imports)]
use crate::averages::{lemma_by_one, lemma_cancel, lemma_quotient_undone, lemma_summed_alike};
#[allow(unused_imports)]
use crate::correlation_exact::root_squares;
#[allow(unused_imports)]
use crate::exact::{Curves, Dual, inverse, lemma_nothing, lemma_three, prod, value};
#[allow(unused_imports)]
use crate::forward_exact::exp_undoes_ln;
#[allow(unused_imports)]
use crate::layers::softplus_of;
#[allow(unused_imports)]
use crate::linear_exact::{lemma_summed_blocks, lemma_summed_same, summed};
#[allow(unused_imports)]
use crate::model::InitValues;
#[allow(unused_imports)]
use crate::range_exact::on_circle;
#[allow(unused_imports)]
use crate::tables::{
    decays_of, fresh_omega, harmonic_angle, harmonic_row, position_angle, positional_row,
    values_fit, wave_entry,
};
#[allow(unused_imports)]
use crate::values::{exact, group_value, lemma_fits, lemma_whole};

verus! {

#[verifier::spinoff_prover]
proof fn lemma_root_positive(cu: Curves, x: real)
    requires
        root_squares(cu),
        x > 0real,
    ensures
        (cu.root)(x) > 0real,
        prod((cu.root)(x), (cu.root)(x)) == x,
{
    lemma_nothing(0real);
}

#[verifier::spinoff_prover]
proof fn lemma_wave_entries(
    cu: Curves,
    angles: spec_fn(int) -> Expr<Dual>,
    n_embd: usize,
    h: int,
)
    requires
        root_squares(cu),
        0 <= h < n_embd / 2,
    ensures
        ({
            let unit = (cu.root)((n_embd / 2) as real);
            let a = value(cu, angles(h));
            &&& prod(value(cu, wave_entry(angles, n_embd, 2 * h)), unit) == (cu.cos)(a)
            &&& prod(value(cu, wave_entry(angles, n_embd, 2 * h + 1)), unit) == (cu.sin)(a)
        }),
{
    broadcast use group_value;

    let nh = (n_embd / 2) as usize;
    let unit = (cu.root)(nh as real);
    let a = value(cu, angles(h));
    lemma_root_positive(cu, nh as real);
    lemma_by_one(inverse(unit));
    assert((2 * h) / 2 == h && (2 * h + 1) / 2 == h);
    lemma_quotient_undone((cu.cos)(a), unit);
    lemma_quotient_undone((cu.sin)(a), unit);
}

/// A token's row holds a wave for every harmonic: the root of the number of harmonics times its
/// two components are the cosine and the sine of the harmonic's multiple of the token's place on
/// the circle.
#[verifier::spinoff_prover]
pub proof fn law_token_rows_hold_harmonics(
    cu: Curves,
    vocab: usize,
    n_embd: usize,
    c: int,
    h: int,
    place: real,
)
    requires
        root_squares(cu),
        0 <= c < vocab,
        0 <= h < n_embd / 2,
        prod(place, vocab as real) == prod(c as real, prod(2real, cu.pi)),
    ensures
        ({
            let row = harmonic_row::<Dual>(vocab, n_embd, c);
            let unit = (cu.root)((n_embd / 2) as real);
            let a = prod((h + 1) as real, place);
            &&& row.len() == n_embd
            &&& prod(value(cu, row[2 * h]), unit) == (cu.cos)(a)
            &&& prod(value(cu, row[2 * h + 1]), unit) == (cu.sin)(a)
        }),
{
    broadcast use group_value;

    let angles = |h: int| harmonic_angle::<Dual>(vocab, c, h);
    lemma_wave_entries(cu, angles, n_embd, h);
    lemma_whole(cu, 2);
    let whole = prod(prod(c as real, 2real), cu.pi);
    lemma_three(c as real, 2real, cu.pi);
    lemma_quotient_undone(whole, vocab as real);
    lemma_cancel(prod(whole, inverse(vocab as real)), place, vocab as real);
    assert(((h + 1) as usize) as real == (h + 1) as real);
    assert(value(cu, angles(h)) == prod((h + 1) as real, place));
}

/// A position's row holds a wave for every frequency: the position times one over a power of ten
/// thousand.
#[verifier::spinoff_prover]
pub proof fn law_position_rows_hold_frequencies(
    cu: Curves,
    n_embd: usize,
    pos: int,
    h: int,
    power: real,
)
    requires
        root_squares(cu),
        0 <= pos <= usize::MAX,
        0 <= h < n_embd / 2,
        prod(power, n_embd as real) == prod(2real, h as real),
        (cu.raised)(10000real, power) != 0real,
    ensures
        ({
            let row = positional_row::<Dual>(n_embd, pos);
            let unit = (cu.root)((n_embd / 2) as real);
            exists|a: real|
                {
                    &&& prod(a, (cu.raised)(10000real, power)) == pos as real
                    &&& prod(value(cu, row[2 * h]), unit) == #[trigger] (cu.cos)(a)
                    &&& prod(value(cu, row[2 * h + 1]), unit) == (cu.sin)(a)
                }
        }),
{
    broadcast use group_value;

    let angles = |h: int| position_angle::<Dual>(n_embd, pos, h);
    lemma_wave_entries(cu, angles, n_embd, h);
    lemma_whole(cu, 2);
    lemma_whole(cu, 10000);
    let share = prod(2real, h as real);
    lemma_quotient_undone(share, n_embd as real);
    lemma_cancel(prod(share, inverse(n_embd as real)), power, n_embd as real);
    let base = (cu.raised)(10000real, power);
    lemma_by_one(inverse(base));
    lemma_quotient_undone(pos as real, base);
    let a = value(cu, angles(h));
    assert(a == prod(pos as real, inverse(base)));
    let row = positional_row::<Dual>(n_embd, pos);
    assert(row[2 * h] == wave_entry(angles, n_embd, 2 * h));
    assert(row[2 * h + 1] == wave_entry(angles, n_embd, 2 * h + 1));
    let unit = (cu.root)((n_embd / 2) as real);
    assert(prod(value(cu, row[2 * h]), unit) == (cu.cos)(a));
}

#[verifier::spinoff_prover]
proof fn lemma_unit_pair(x: real, y: real, unit: real, c: real, s: real, n: real)
    requires
        prod(x, unit) == c,
        prod(y, unit) == s,
        prod(unit, unit) == n,
        prod(c, c) + prod(s, s) == 1real,
    ensures
        prod(prod(x, x) + prod(y, y), n) == 1real,
{
    reveal(prod);
    assert((x * x + y * y) * (unit * unit) == (x * unit) * (x * unit) + (y * unit) * (y * unit))
        by (nonlinear_arith);
}

/// Rows of waves have length one: the squares of their components add up to one.
#[verifier::spinoff_prover]
proof fn lemma_wave_rows_have_length_one(
    cu: Curves,
    angles: spec_fn(int) -> Expr<Dual>,
    n_embd: usize,
    row: spec_fn(int) -> real,
)
    requires
        root_squares(cu),
        on_circle(cu),
        n_embd >= 2,
        n_embd % 2 == 0,
        forall|i: int|
            0 <= i < n_embd ==> #[trigger] row(i) == value(cu, wave_entry(angles, n_embd, i)),
    ensures
        summed(|i: int| prod(row(i), row(i)), n_embd as int) == 1real,
{
    let nh = (n_embd / 2) as int;
    let unit = (cu.root)(nh as real);
    let squares = |i: int| prod(row(i), row(i));
    let pairs = |g: int| summed(|i: int| squares(g * 2 + i), 2);
    lemma_root_positive(cu, nh as real);
    lemma_summed_blocks(squares, nh, 2);
    assert(n_embd == nh * 2);
    let one_part = inverse(nh as real);
    assert forall|g: int| 0 <= g < nh implies #[trigger] pairs(g) == one_part by {
        lemma_wave_entries(cu, angles, n_embd, g);
        let a = value(cu, angles(g));
        assert(row(2 * g) == value(cu, wave_entry(angles, n_embd, 2 * g)));
        assert(row(2 * g + 1) == value(cu, wave_entry(angles, n_embd, 2 * g + 1)));
        lemma_unit_pair(
            row(2 * g),
            row(2 * g + 1),
            unit,
            (cu.cos)(a),
            (cu.sin)(a),
            nh as real,
        );
        let f = |i: int| squares(g * 2 + i);
        reveal_with_fuel(summed, 3);
        assert(f(0) == squares(2 * g) && f(1) == squares(2 * g + 1));
        assert(pairs(g) == squares(2 * g) + squares(2 * g + 1));
        lemma_quotient_undone(1real, nh as real);
        lemma_by_one(one_part);
        lemma_cancel(pairs(g), one_part, nh as real);
    }
    lemma_summed_alike(pairs, one_part, nh);
    lemma_quotient_undone(1real, nh as real);
    lemma_by_one(one_part);
}

/// The rows of tokens and of positions have length one.
#[verifier::spinoff_prover]
pub proof fn law_table_rows_have_length_one(
    cu: Curves,
    vocab: usize,
    n_embd: usize,
    c: int,
    pos: int,
)
    requires
        root_squares(cu),
        on_circle(cu),
        n_embd >= 2,
        n_embd % 2 == 0,
    ensures
        ({
            let row = harmonic_row::<Dual>(vocab, n_embd, c);
            summed(|i: int| prod(value(cu, row[i]), value(cu, row[i])), n_embd as int) == 1real
        }),
        ({
            let row = positional_row::<Dual>(n_embd, pos);
            summed(|i: int| prod(value(cu, row[i]), value(cu, row[i])), n_embd as int) == 1real
        }),
{
    let token = harmonic_row::<Dual>(vocab, n_embd, c);
    let place = positional_row::<Dual>(n_embd, pos);
    let f = |i: int| value(cu, token[i]);
    let g = |i: int| value(cu, place[i]);
    lemma_wave_rows_have_length_one(
        cu,
        |h: int| harmonic_angle::<Dual>(vocab, c, h),
        n_embd,
        f,
    );
    lemma_wave_rows_have_length_one(cu, |h: int| position_angle::<Dual>(n_embd, pos, h), n_embd, g);
    lemma_summed_same(
        |i: int| prod(f(i), f(i)),
        |i: int| prod(value(cu, token[i]), value(cu, token[i])),
        n_embd as int,
    );
    lemma_summed_same(
        |i: int| prod(g(i), g(i)),
        |i: int| prod(value(cu, place[i]), value(cu, place[i])),
        n_embd as int,
    );
}

/// Fresh frequencies rise to one in equal steps.
#[verifier::spinoff_prover]
pub proof fn law_fresh_frequencies_rise_to_one(cu: Curves, n: int, k: int)
    requires
        0 <= k < n <= usize::MAX,
    ensures
        prod(value(cu, fresh_omega::<Dual>(n)[k]), n as real) == (k + 1) as real,
{
    broadcast use group_value;

    lemma_quotient_undone((k + 1) as real, n as real);
    assert(((k + 1) as usize) as real == (k + 1) as real);
    assert((n as usize) as real == n as real);
}

/// The exponential undoes the logarithm and the other way round.
pub open spec fn ln_undoes_exp(cu: Curves) -> bool {
    forall|x: real| #[trigger] (cu.ln)((cu.exp)(x)) == x
}

/// Fresh damping is a tenth behind the softplus, and the weights of a step's slopes add up to one.
#[verifier::spinoff_prover]
pub proof fn law_fresh_values<A: Arith<Dual>>(
    cu: Curves,
    ops: A,
    n: int,
    v: InitValues<Dual>,
)
    requires
        exact(cu, ops),
        values_fit(ops, n, v),
        exp_undoes_ln(cu),
        ln_undoes_exp(cu),
        (cu.exp)(1real / 10real) > 1real,
        v.gamma_raw.v <= 20real,
    ensures
        value(cu, softplus_of(val(v.gamma_raw))) == 1real / 10real,
        v.rk4_weights[0].v + v.rk4_weights[1].v + v.rk4_weights[2].v + v.rk4_weights[3].v == 1real,
        v.rk4_weights[0].v == v.rk4_weights[3].v,
        v.rk4_weights[1].v == v.rk4_weights[2].v,
        v.rk4_weights[1].v == 2real * v.rk4_weights[0].v,
        v.one.v == 1real,
        v.zero.v == 0real,
{
    broadcast use group_value;

    lemma_fits(cu, ops, one(), v.one);
    lemma_fits(cu, ops, zero(), v.zero);
    lemma_fits(
        cu,
        ops,
        un(Unary::Ln, minus(un(Unary::Exp, Expr::Ratio(1, 10)), one())),
        v.gamma_raw,
    );
    lemma_fits(cu, ops, Expr::Ratio(1, 6), v.rk4_weights[0]);
    lemma_fits(cu, ops, Expr::Ratio(1, 3), v.rk4_weights[1]);
    lemma_fits(cu, ops, Expr::Ratio(1, 3), v.rk4_weights[2]);
    lemma_fits(cu, ops, Expr::Ratio(1, 6), v.rk4_weights[3]);
    assert(value(cu, Expr::<Dual>::Ratio(1, 6)) == 1real / 6real);
    assert(value(cu, Expr::<Dual>::Ratio(1, 3)) == 1real / 3real);
    assert(value(cu, Expr::<Dual>::Ratio(1, 10)) == 1real / 10real);
    let e = (cu.exp)(1real / 10real);
    assert((cu.exp)((cu.ln)(e - 1real)) == e - 1real);
    assert(v.gamma_raw.v == (cu.ln)(e - 1real));
    lemma_whole(cu, 20);
    assert(value(cu, softplus_of(val(v.gamma_raw))) == (cu.ln)(1real + (e - 1real)));
    assert(1real + (e - 1real) == e);
}

/// What is left of a wave after a unit of time, times the exponential of its damping, is one.
#[verifier::spinoff_prover]
pub proof fn law_decay_undoes_damping(cu: Curves, gamma_raw: Seq<Dual>, k: int)
    requires
        exp_adds(cu),
        (cu.exp)(0real) == 1real,
        0 <= k < gamma_raw.len(),
    ensures
        prod(
            value(cu, decays_of(gamma_raw)[k]),
            (cu.exp)(value(cu, softplus_of(val(gamma_raw[k])))),
        ) == 1real,
{
    broadcast use group_value;

    let d = value(cu, softplus_of(val(gamma_raw[k])));
    assert((cu.exp)(-d + d) == prod((cu.exp)(-d), (cu.exp)(d)));
}

} // verus!
