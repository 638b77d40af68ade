//! In exact arithmetic: what the layers of a pass make of their inputs.

use vstd::prelude::*;
#[allow(unused_imports)]
use crate::arith::{Expr, over, times, val, vals, zero};
#[allow(unused_imports)]
use crate::attention::attention_of;
#[allow(unused_imports)]
use crate::attention_exact::{law_linear_applies_rows, row_value};
#[allow(unused_imports)]
use crate::averages::{
    is_mean, lemma_cancel, lemma_cancel_ordered, lemma_either_way, lemma_mean_value,
    lemma_quotient_undone, lemma_summed_alike, lemma_summed_ordered,
};
#[allow(unused_imports)]
use crate::correlation_exact::{lemma_square, root_squares};
#[allow(unused_imports)]
use crate::exact::{Curves, Dual, inverse, lemma_nothing, lemma_three, prod, value};
#[allow(unused_imports)]
use crate::kerr::{Offsets, kerr_of};
#[allow(unused_imports)]
use crate::layers::{
    deviations_of, gelu_of, gelus_of, linear_of, maestro_of, mean_of, norm_of, softplus_of,
    spread_of, sums_of,
};
#[allow(unused_imports)]
use crate::linear_exact::{lemma_summed_both, lemma_summed_same, lemma_summed_scaled, summed};
#[allow(unused_imports)]
use crate::model::{BlockWeights, FfnWeights, ModelWeights, PerBandLinearWeights};
#[allow(unused_imports)]
use crate::model_forward::{
    attended_rows, bands_of, block_of, ffn_of, hidden_of, logits_of, memory_of,
};
#[allow(unused_imports)]
use crate::proj::proj_of;
#[allow(unused_imports)]
use crate::values::{group_value, lemma_scalar};
#[allow(unused_imports)]
use crate::weights::MaestroWeights;

verus! {

/// Values brought to mean zero by `middle` and to a common spread: `spread` times each is its
/// distance from the mean, and the square of `spread` is the mean squared distance and a
/// hundred-thousandth.
pub open spec fn normalised(
    x: spec_fn(int) -> real,
    n: int,
    z: spec_fn(int) -> real,
    middle: real,
    spread: real,
) -> bool {
    &&& is_mean(middle, x, n)
    &&& spread > 0real
    &&& is_mean(
        prod(spread, spread) - 1real / 100000real,
        |i: int| prod(x(i) - middle, x(i) - middle),
        n,
    )
    &&& forall|i: int| 0 <= i < n ==> prod(#[trigger] z(i), spread) == x(i) - middle
}

/// Normalised values add up to nothing.
#[verifier::spinoff_prover]
pub proof fn law_normalised_values_are_centred(
    x: spec_fn(int) -> real,
    n: int,
    z: spec_fn(int) -> real,
    middle: real,
    spread: real,
)
    requires
        n > 0,
        normalised(x, n, z, middle, spread),
    ensures
        summed(z, n) == 0real,
{
    let scaled = |i: int| prod(spread, z(i));
    let level = |i: int| middle;
    lemma_summed_alike(level, middle, n);
    assert forall|i: int| 0 <= i < n implies #[trigger] x(i) == scaled(i) + level(i) by {
        assert(prod(z(i), spread) == x(i) - middle);
        lemma_either_way(z(i), spread);
    }
    lemma_summed_both(x, scaled, level, n);
    lemma_summed_scaled(scaled, z, spread, n);
    lemma_nothing(spread);
    lemma_either_way(spread, summed(z, n));
    lemma_either_way(spread, 0real);
    lemma_cancel(summed(z, n), 0real, spread);
}

#[verifier::spinoff_prover]
proof fn lemma_squared_parts(z: real, s: real, d: real)
    requires
        prod(z, s) == d,
    ensures
        prod(prod(s, s), prod(z, z)) == prod(d, d),
{
    lemma_three(s, s, prod(z, z));
    lemma_three(s, z, z);
    lemma_either_way(z, s);
    lemma_three(s, prod(s, z), z);
    lemma_either_way(prod(s, z), s);
    lemma_three(z, s, d);
    lemma_three(prod(s, z), s, z);
}

/// The squares of normalised values fall short of one on the mean by a hundred-thousandth over the
/// square of the spread.
#[verifier::spinoff_prover]
pub proof fn law_normalised_values_are_level(
    x: spec_fn(int) -> real,
    n: int,
    z: spec_fn(int) -> real,
    middle: real,
    spread: real,
)
    requires
        n > 0,
        normalised(x, n, z, middle, spread),
    ensures
        prod(prod(spread, spread), summed(|i: int| prod(z(i), z(i)), n)) == prod(
            prod(spread, spread) - 1real / 100000real,
            n as real,
        ),
{
    let squares = |i: int| prod(z(i), z(i));
    let apart = |i: int| prod(x(i) - middle, x(i) - middle);
    assert forall|i: int| 0 <= i < n implies #[trigger] apart(i) == prod(
        prod(spread, spread),
        squares(i),
    ) by {
        assert(prod(z(i), spread) == x(i) - middle);
        lemma_squared_parts(z(i), spread, x(i) - middle);
    }
    lemma_summed_scaled(apart, squares, prod(spread, spread), n);
}

#[verifier::spinoff_prover]
proof fn lemma_mean_not_negative(m: real, f: spec_fn(int) -> real, n: int)
    requires
        n > 0,
        is_mean(m, f, n),
        forall|i: int| 0 <= i < n ==> #[trigger] f(i) >= 0real,
    ensures
        m >= 0real,
{
    let none = |i: int| 0real;
    lemma_summed_ordered(none, f, n);
    lemma_summed_alike(none, 0real, n);
    lemma_nothing(n as real);
    lemma_either_way(0real, n as real);
    lemma_cancel_ordered(0real, m, n as real);
}

/// A layer that normalises: every component is a normalised one, times its weight, and its bias.
#[verifier::spinoff_prover]
pub proof fn law_norm_layer_normalises(
    cu: Curves,
    xs: Seq<Expr<Dual>>,
    weight: Seq<Dual>,
    bias: Seq<Dual>,
) -> (res: (spec_fn(int) -> real, real, real))
    requires
        root_squares(cu),
        0 < xs.len() <= usize::MAX,
    ensures
        normalised(|i: int| value(cu, xs[i]), xs.len() as int, res.0, res.1, res.2),
        forall|i: int|
            0 <= i < xs.len() ==> value(cu, #[trigger] norm_of(xs, weight, bias)[i]) == prod(
                (res.0)(i),
                weight[i].v,
            ) + bias[i].v,
{
    broadcast use group_value;

    let n = xs.len() as int;
    let x = |i: int| value(cu, xs[i]);
    let middle = value(cu, mean_of(xs));
    let spread = value(cu, spread_of(xs));
    let z = |i: int| prod(value(cu, xs[i]) - middle, inverse(spread));
    lemma_mean_value(cu, xs);
    lemma_summed_same(|k: int| value(cu, xs[k]), x, n);
    let devs = deviations_of(xs);
    let apart = |i: int| prod(x(i) - middle, x(i) - middle);
    let given = |k: int| value(cu, devs[k]);
    lemma_mean_value(cu, devs);
    assert forall|i: int| 0 <= i < n implies #[trigger] given(i) == apart(i) by {}
    lemma_summed_same(given, apart, n);
    let variance = value(cu, mean_of(devs));
    assert forall|i: int| 0 <= i < n implies #[trigger] apart(i) >= 0real by {
        lemma_square(x(i) - middle);
    }
    lemma_mean_not_negative(variance, apart, n);
    assert(spread == (cu.root)(variance + 1real / 100000real));
    assert(prod(spread, spread) == variance + 1real / 100000real);
    lemma_nothing(0real);
    assert(spread > 0real);
    assert forall|i: int| 0 <= i < n implies prod(#[trigger] z(i), spread) == x(i) - middle by {
        lemma_quotient_undone(x(i) - middle, spread);
    }
    (z, middle, spread)
}

/// A tanh that turns its sign with its argument.
pub open spec fn tanh_odd(cu: Curves) -> bool {
    forall|x: real| #[trigger] (cu.tanh)(-x) == -(cu.tanh)(x)
}

/// What an activation gives is its input, weighed by half of one and a hyperbolic tangent that
/// grows with the input and its cube.
#[verifier::spinoff_prover]
pub proof fn law_gelu_weighs_input(cu: Curves, x: Expr<Dual>)
    ensures
        ({
            let v = value(cu, x);
            let c = (cu.root)(prod(2real, inverse(cu.pi)));
            let u = prod(c, v + prod(prod(prod(44715real / 1000000real, v), v), v));
            2real * value(cu, gelu_of(x)) == v + prod(v, (cu.tanh)(u))
        }),
{
    broadcast use group_value;

    let v = value(cu, x);
    let c = (cu.root)(prod(2real, inverse(cu.pi)));
    let u = prod(c, v + prod(prod(prod(44715real / 1000000real, v), v), v));
    lemma_halves(v, (cu.tanh)(u));
    assert(value(cu, Expr::<Dual>::Ratio(1, 2)) == 1real / 2real);
    assert(value(cu, Expr::<Dual>::Ratio(2, 1)) == 2real);
    assert(value(cu, Expr::<Dual>::Ratio(44715, 1000000)) == 44715real / 1000000real);
}

#[verifier::spinoff_prover]
proof fn lemma_halves(v: real, t: real)
    ensures
        2real * prod(prod(1real / 2real, v), 1real + t) == v + prod(v, t),
{
    reveal(prod);
    let h = (1real / 2real) * v;
    assert(2real * (h * (1real + t)) == v + v * t) by (nonlinear_arith)
        requires
            h == (1real / 2real) * v,
    ;
}

/// What the activation gives a value is the value more than what it gives the opposite value.
#[verifier::spinoff_prover]
pub proof fn law_gelu_of_opposites_differ_by_the_value(cu: Curves, x: Expr<Dual>, y: Expr<Dual>)
    requires
        tanh_odd(cu),
        value(cu, y) == -value(cu, x),
    ensures
        value(cu, gelu_of(x)) - value(cu, gelu_of(y)) == value(cu, x),
{
    law_gelu_weighs_input(cu, x);
    law_gelu_weighs_input(cu, y);
    let v = value(cu, x);
    let k = 44715real / 1000000real;
    let c = (cu.root)(prod(2real, inverse(cu.pi)));
    let u = prod(c, v + prod(prod(prod(k, v), v), v));
    lemma_opposite_cubes(k, v);
    lemma_opposite(c, v + prod(prod(prod(k, v), v), v));
    assert((cu.tanh)(-u) == -(cu.tanh)(u));
    lemma_opposite(-v, (cu.tanh)(u));
    lemma_either_way(-v, (cu.tanh)(u));
    lemma_either_way(v, (cu.tanh)(u));
    lemma_opposite((cu.tanh)(u), v);
}

#[verifier::spinoff_prover]
proof fn lemma_opposite(a: real, b: real)
    ensures
        prod(a, -b) == -prod(a, b),
{
    reveal(prod);
    assert(a * (-b) == -(a * b)) by (nonlinear_arith);
}

#[verifier::spinoff_prover]
proof fn lemma_opposite_cubes(k: real, v: real)
    ensures
        -v + prod(prod(prod(k, -v), -v), -v) == -(v + prod(prod(prod(k, v), v), v)),
{
    let once = prod(k, v);
    lemma_opposite(k, v);
    lemma_opposite(-once, v);
    lemma_either_way(-once, v);
    lemma_opposite(v, once);
    lemma_either_way(once, v);
    lemma_opposite(prod(once, v), v);
}

/// Logarithms undo exponentials, and turn back what they are taken of.
pub open spec fn exp_undoes_ln(cu: Curves) -> bool {
    forall|x: real| x > 0real ==> #[trigger] (cu.exp)((cu.ln)(x)) == x
}

/// Up to twenty, the exponential of a softened value is one and the exponential of what it was
/// taken of; beyond, the value stays.
#[verifier::spinoff_prover]
pub proof fn law_softplus_adds_one_below(cu: Curves, x: Expr<Dual>)
    requires
        exp_undoes_ln(cu),
        (cu.exp)(value(cu, x)) > 0real,
    ensures
        value(cu, x) <= 20real ==> (cu.exp)(value(cu, softplus_of(x))) == 1real + (cu.exp)(
            value(cu, x),
        ),
        value(cu, x) > 20real ==> value(cu, softplus_of(x)) == value(cu, x),
{
    broadcast use group_value;

    assert(value(cu, Expr::<Dual>::Ratio(20, 1)) == 20real);
}

/// A band-mixing part maps the two components of every band by the band's own matrix and bias,
/// apart from all other bands.
#[verifier::spinoff_prover]
pub proof fn law_bands_map_apart(
    cu: Curves,
    w: PerBandLinearWeights<Dual>,
    x: Seq<Expr<Dual>>,
    k: int,
)
    requires
        0 <= k < w.band_w@.len(),
    ensures
        ({
            let m = w.band_w@[k];
            let b = w.band_b@[k];
            let (r, s) = (value(cu, x[2 * k]), value(cu, x[2 * k + 1]));
            &&& value(cu, bands_of(w, x)[2 * k]) == prod(m[0][0].v, r) + prod(m[1][0].v, s)
                + b[0].v
            &&& value(cu, bands_of(w, x)[2 * k + 1]) == prod(m[0][1].v, r) + prod(m[1][1].v, s)
                + b[1].v
        }),
{
    broadcast use group_value;

    assert((2 * k) / 2 == k && (2 * k + 1) / 2 == k);
}

/// What a feed-forward part hands to its last layer: the mapped bands; or what the ODE makes of
/// the input and, beside it, what the regulator does; or what the ODE makes of the input and the
/// first regulator's output, and what the second regulator makes of that.
#[verifier::spinoff_prover]
pub proof fn law_ffn_parts(
    cu: Curves,
    f: FfnWeights<Dual>,
    x: Seq<Expr<Dual>>,
    memory: Option<&Offsets<Dual>>,
    i: int,
)
    ensures
        match f {
            FfnWeights::PerBand(w) => {
                &&& ffn_of(f, x, memory).len() == w.out_proj.w@.len()
                &&& 0 <= i < w.out_proj.w@.len() && w.out_proj.w@[i]@.len() == 2
                    * w.band_w@.len() ==> value(cu, ffn_of(f, x, memory)[i]) == row_value(
                    cu,
                    w.out_proj.w@,
                    w.out_proj.b@,
                    bands_of(w, x),
                    i,
                )
            },
            FfnWeights::KerrMaestro(w) => {
                let k = kerr_of(w.kerr, x, memory);
                let reg = maestro_of(w.maestro, x);
                0 <= i < w.out_proj.w@.len() && w.out_proj.w@[i]@.len() == k.len() ==> value(
                    cu,
                    ffn_of(f, x, memory)[i],
                ) == w.out_proj.b@[i].v + summed(
                    |j: int|
                        prod(w.out_proj.w@[i]@[j].v, value(cu, k[j]) + value(cu, reg[j])),
                    k.len() as int,
                )
            },
            FfnWeights::KerrDualMaestro(w) => exists|y: Seq<Expr<Dual>>, z: Seq<Expr<Dual>>|
                #![trigger proj_of(w.out_proj, z), kerr_of(w.kerr, y, memory)]
                {
                    let k = kerr_of(w.kerr, y, memory);
                    &&& y.len() == x.len()
                    &&& forall|j: int|
                        0 <= j < x.len() ==> value(cu, #[trigger] y[j]) == value(cu, x[j])
                            + value(cu, maestro_of(w.maestro_in, x)[j])
                    &&& z.len() == k.len()
                    &&& forall|j: int|
                        0 <= j < k.len() ==> value(cu, #[trigger] z[j]) == value(cu, k[j])
                            + value(cu, maestro_of(w.maestro_out, k)[j])
                    &&& ffn_of(f, x, memory) == proj_of(w.out_proj, z)
                },
        },
{
    broadcast use group_value;

    match f {
        FfnWeights::PerBand(w) => {
            if 0 <= i < w.out_proj.w@.len() && w.out_proj.w@[i]@.len() == 2 * w.band_w@.len() {
                law_linear_applies_rows(cu, w.out_proj.w@, w.out_proj.b@, bands_of(w, x), i);
            }
        },
        FfnWeights::KerrMaestro(w) => {
            let k = kerr_of(w.kerr, x, memory);
            let reg = maestro_of(w.maestro, x);
            let both = sums_of(k, reg);
            if 0 <= i < w.out_proj.w@.len() && w.out_proj.w@[i]@.len() == k.len() {
                law_linear_applies_rows(cu, w.out_proj.w@, w.out_proj.b@, both, i);
                let given = |j: int| prod(w.out_proj.w@[i]@[j].v, value(cu, both[j]));
                let wanted = |j: int|
                    prod(w.out_proj.w@[i]@[j].v, value(cu, k[j]) + value(cu, reg[j]));
                assert forall|j: int| 0 <= j < k.len() implies #[trigger] given(j) == wanted(
                    j,
                ) by {}
                lemma_summed_same(given, wanted, k.len() as int);
            }
        },
        FfnWeights::KerrDualMaestro(w) => {
            let y = sums_of(x, maestro_of(w.maestro_in, x));
            let k = kerr_of(w.kerr, y, memory);
            let z = sums_of(k, maestro_of(w.maestro_out, k));
            assert(ffn_of(f, x, memory) == proj_of(w.out_proj, z));
            assert forall|j: int| 0 <= j < k.len() implies value(cu, #[trigger] z[j]) == value(
                cu,
                k[j],
            ) + value(cu, maestro_of(w.maestro_out, k)[j]) by {}
        },
    }
}

/// A regulator squeezes its input by one layer, activates it, and expands it by another.
#[verifier::spinoff_prover]
pub proof fn law_regulator_expands_activations(
    cu: Curves,
    m: MaestroWeights<Dual>,
    x: Seq<Expr<Dual>>,
    i: int,
)
    requires
        0 <= i < m.process_1.w@.len(),
        m.process_1.w@[i]@.len() == m.squeeze.w@.len(),
        forall|j: int|
            0 <= j < m.squeeze.w@.len() ==> (#[trigger] m.squeeze.w@[j])@.len() == x.len(),
    ensures
        value(cu, maestro_of(m, x)[i]) == m.process_1.b@[i].v + summed(
            |j: int|
                prod(
                    m.process_1.w@[i]@[j].v,
                    value(cu, gelu_of(linear_of(m.squeeze.w@, m.squeeze.b@, x)[j])),
                ),
            m.squeeze.w@.len() as int,
        ),
        forall|j: int|
            0 <= j < m.squeeze.w@.len() ==> value(
                cu,
                #[trigger] linear_of(m.squeeze.w@, m.squeeze.b@, x)[j],
            ) == row_value(cu, m.squeeze.w@, m.squeeze.b@, x, j),
{
    let inner = linear_of(m.squeeze.w@, m.squeeze.b@, x);
    let active = gelus_of(inner);
    law_linear_applies_rows(cu, m.process_1.w@, m.process_1.b@, active, i);
    let given = |j: int| prod(m.process_1.w@[i]@[j].v, value(cu, active[j]));
    let wanted = |j: int| prod(m.process_1.w@[i]@[j].v, value(cu, gelu_of(inner[j])));
    assert forall|j: int| 0 <= j < active.len() implies #[trigger] given(j) == wanted(j) by {}
    lemma_summed_same(given, wanted, active.len() as int);
    assert forall|j: int| 0 <= j < m.squeeze.w@.len() implies value(
        cu,
        #[trigger] linear_of(m.squeeze.w@, m.squeeze.b@, x)[j],
    ) == row_value(cu, m.squeeze.w@, m.squeeze.b@, x, j) by {
        assert(m.squeeze.w@[j]@.len() == x.len());
        law_linear_applies_rows(cu, m.squeeze.w@, m.squeeze.b@, x, j);
    }
}

/// A block adds to every position what attention makes of the normalised positions, and then what
/// the feed-forward part makes of the normalised sum.
#[verifier::spinoff_prover]
pub proof fn law_block_adds_its_parts(
    cu: Curves,
    b: BlockWeights<Dual>,
    xs: Seq<Seq<Expr<Dual>>>,
    normed: Seq<Seq<Expr<Dual>>>,
    n_embd: int,
    memory: Option<&Offsets<Dual>>,
    p: int,
    j: int,
)
    requires
        0 <= p < xs.len(),
        0 <= j < xs[p].len(),
        normed.len() == xs.len(),
        forall|q: int|
            0 <= q < xs.len() ==> #[trigger] normed[q] == norm_of(
                xs[q],
                b.ln_1.weight@,
                b.ln_1.bias@,
            ),
    ensures
        ({
            let h = attended_rows(b, xs, n_embd)[p];
            &&& value(cu, h[j]) - value(cu, xs[p][j]) == value(
                cu,
                attention_of(b.attn, normed, n_embd)[p][j],
            )
            &&& value(cu, block_of(b, xs, n_embd, memory)[p][j]) - value(cu, h[j]) == value(
                cu,
                ffn_of(b.ffn, norm_of(h, b.ln_2.weight@, b.ln_2.bias@), memory)[j],
            )
        }),
{
    broadcast use group_value;

    assert(normed =~= Seq::new(
        xs.len(),
        |p: int| norm_of(xs[p], b.ln_1.weight@, b.ln_1.bias@),
    ));
}

/// A pass starts from the sum of a token's row and its position's row.
#[verifier::spinoff_prover]
pub proof fn law_pass_starts_from_embeddings(
    cu: Curves,
    m: ModelWeights<Dual>,
    tokens: Seq<usize>,
    offsets: Option<&Vec<Offsets<Dual>>>,
    p: int,
    j: int,
)
    requires
        0 <= p < tokens.len(),
        0 <= j < m.wte_phase@[tokens[p] as int]@.len(),
        0 <= j < m.wpe@[p]@.len(),
    ensures
        value(cu, hidden_of(m, tokens, offsets, 0)[p][j]) == m.wte_phase@[tokens[p] as int]@[j].v
            + m.wpe@[p]@[j].v,
{
    broadcast use group_value;

    assert(vals(m.wte_phase@[tokens[p] as int]@)[j] == val(m.wte_phase@[tokens[p] as int]@[j]));
    assert(vals(m.wpe@[p]@)[j] == val(m.wpe@[p]@[j]));
}

/// Every block of a pass takes what the block before it made; a logit is the product of its row
/// with the normalised output of the last block.
#[verifier::spinoff_prover]
pub proof fn law_pass_runs_blocks_in_turn(
    cu: Curves,
    m: ModelWeights<Dual>,
    tokens: Seq<usize>,
    offsets: Option<&Vec<Offsets<Dual>>>,
    l: int,
    p: int,
    v: int,
)
    requires
        0 <= l,
        0 <= p < tokens.len(),
        0 <= v < m.lm_head@.len(),
        m.lm_head@[v]@.len() == hidden_of(m, tokens, offsets, m.blocks@.len() as int)[p].len(),
    ensures
        hidden_of(m, tokens, offsets, l + 1) == block_of(
            m.blocks@[l],
            hidden_of(m, tokens, offsets, l),
            2 * m.config.n_bands,
            memory_of(m, offsets, l),
        ),
        ({
            let last = hidden_of(m, tokens, offsets, m.blocks@.len() as int)[p];
            let y = norm_of(last, m.ln_f.weight@, m.ln_f.bias@);
            value(cu, logits_of(m, tokens, offsets)[p][v]) == summed(
                |k: int| prod(m.lm_head@[v]@[k].v, value(cu, y[k])),
                y.len() as int,
            )
        }),
{
    broadcast use group_value;

    let last = hidden_of(m, tokens, offsets, m.blocks@.len() as int)[p];
    let y = norm_of(last, m.ln_f.weight@, m.ln_f.bias@);
    let row = vals(m.lm_head@[v]@);
    lemma_scalar(cu, row, y);
    let given = |k: int| prod(value(cu, row[k]), value(cu, y[k]));
    let wanted = |k: int| prod(m.lm_head@[v]@[k].v, value(cu, y[k]));
    assert forall|k: int| 0 <= k < y.len() implies #[trigger] given(k) == wanted(k) by {
        assert(row[k] == val(m.lm_head@[v]@[k]));
    }
    lemma_summed_same(given, wanted, y.len() as int);
}

} // verus!
