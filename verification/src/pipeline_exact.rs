//! In exact arithmetic: how the parts of a pass, of its way back and of a training step are joined.

use vstd::prelude::*;
use crate::arith::Arith;
#[allow(unused_imports)]
use crate::arith::{Expr, fits, fits_all, one, times, val, vals, zero};
#[allow(unused_imports)]
use crate::attention::{column_of, rows_vals};
#[allow(unused_imports)]
use crate::averages::lemma_by_one;
#[allow(unused_imports)]
use crate::backprop::{outer_of, regulator_back, squeezed_grads, transposed_of, zero_rows};
#[allow(unused_imports)]
use crate::decoder::{DecoderBack, table_back_fits, transposed_rows};
#[allow(unused_imports)]
use crate::exact::{Curves, Dual, lemma_three, prod, value};
#[allow(unused_imports)]
use crate::forward::{layer_factor, residual_of};
#[allow(unused_imports)]
use crate::linear_exact::{lemma_summed_same, summed};
#[allow(unused_imports)]
use crate::optimizer::clipped_of;
#[allow(unused_imports)]
use crate::regulation::{
    SpringConfig, active_count, each, factor_of, grads_scaled, group_scale, model_sprung,
};
#[allow(unused_imports)]
use crate::schedule_exact::{law_layer_factor_is_pulled, pulled};
#[allow(unused_imports)]
use crate::proj::column_vals;
#[allow(unused_imports)]
use crate::training_exact::{law_clipping_keeps_direction, square_sum};
#[allow(unused_imports)]
use crate::training_step::{GroupModes, lifted_of, prepared, rates_applied};
#[allow(unused_imports)]
use crate::correlation_exact::root_squares;
#[allow(unused_imports)]
use crate::values::{exact, group_value, lemma_fits, lemma_fits_all, lemma_scalar};
#[allow(unused_imports)]
use crate::wave_model::WavePacketModel;
#[allow(unused_imports)]
use crate::weights::MaestroWeights;

verus! {

/// A block hands on its input and, times the layer's factor, what its two parts computed; the
/// factor is one unless layers are scaled.
#[verifier::spinoff_prover]
pub proof fn law_block_adds_both_parts(
    cu: Curves,
    model: WavePacketModel<Dual>,
    layer: int,
    h: Seq<Dual>,
    attn: Seq<Dual>,
    ffn: Seq<Dual>,
    j: int,
)
    requires
        0 <= j < h.len(),
    ensures
        value(cu, residual_of(h, attn, ffn, layer_factor(model, layer))[j]) - h[j].v == prod(
            if model.use_layer_scale {
                model.layer_scale@[layer].v
            } else {
                1real
            },
            attn[j].v + ffn[j].v,
        ),
{
    broadcast use group_value;

}

#[verifier::spinoff_prover]
pub proof fn lemma_transposed(cu: Curves, w: Seq<Vec<Dual>>, d: Seq<Expr<Dual>>, n: int, j: int)
    requires
        0 <= j < n,
        w.len() <= d.len(),
    ensures
        value(cu, transposed_of(w, d, n)[j]) == summed(
            |v: int| prod(w[v]@[j].v, value(cu, d[v])),
            w.len() as int,
        ),
{
    broadcast use group_value;

    let col = vals(column_vals(w, j));
    lemma_scalar(cu, col, d);
    let given = |k: int| prod(value(cu, col[k]), value(cu, d[k]));
    let wanted = |v: int| prod(w[v]@[j].v, value(cu, d[v]));
    assert forall|v: int| 0 <= v < w.len() implies #[trigger] given(v) == wanted(v) by {
        assert(column_vals(w, j)[v] == w[v]@[j]);
        assert(col[v] == val(w[v]@[j]));
    }
    lemma_summed_same(given, wanted, w.len() as int);
}

#[verifier::spinoff_prover]
pub proof fn lemma_outer(
    cu: Curves,
    a: Seq<Seq<Expr<Dual>>>,
    b: Seq<Seq<Expr<Dual>>>,
    rows: int,
    cols: int,
    i: int,
    j: int,
)
    requires
        0 <= i < rows,
        0 <= j < cols,
        a.len() == b.len(),
    ensures
        value(cu, outer_of(zero_rows::<Dual>(rows, cols), a, b, cols)[i][j]) == summed(
            |p: int| prod(value(cu, a[p][i]), value(cu, b[p][j])),
            a.len() as int,
        ),
{
    broadcast use group_value;

    let x = column_of(a, i);
    let y = column_of(b, j);
    lemma_scalar(cu, x, y);
    let given = |k: int| prod(value(cu, x[k]), value(cu, y[k]));
    let wanted = |p: int| prod(value(cu, a[p][i]), value(cu, b[p][j]));
    assert forall|p: int| 0 <= p < a.len() implies #[trigger] given(p) == wanted(p) by {}
    lemma_summed_same(given, wanted, a.len() as int);
    assert(zero_rows::<Dual>(rows, cols)[i][j] == zero::<Dual>());
}

/// What comes back through a decoder's table: a state's gradient adds up the rows' entries, each
/// times the gradient of its logit; a row's gradient adds up the states, each times the gradient
/// of the row's logit there. Tied embeddings have none of their own.
#[verifier::spinoff_prover]
pub proof fn law_table_passes_gradients_back<A: Arith<Dual>>(
    cu: Curves,
    ops: A,
    model: WavePacketModel<Dual>,
    tied: bool,
    post: Seq<Vec<Dual>>,
    n_embd: int,
    b: DecoderBack<Dual>,
    p: int,
    v: int,
    j: int,
)
    requires
        exact(cu, ops),
        table_back_fits(ops, model, tied, post, n_embd, b),
        b.d_logits@.len() == post.len(),
        0 <= p < post.len(),
        0 <= j < n_embd,
        forall|q: int|
            0 <= q < post.len() ==> (#[trigger] b.d_logits@[q])@.len() == (if tied {
                model.wte@
            } else {
                model.lm_head@
            }).len() && n_embd <= post[q]@.len(),
        0 <= v < (if tied {
            model.wte@
        } else {
            model.lm_head@
        }).len(),
    ensures
        ({
            let table = if tied {
                model.wte@
            } else {
                model.lm_head@
            };
            &&& b.d_hidden@[p]@[j].v == summed(
                |u: int| prod(table[u]@[j].v, b.d_logits@[p]@[u].v),
                table.len() as int,
            )
            &&& tied ==> b.lm_head@.len() == 0
            &&& !tied ==> b.lm_head@[v]@[j].v == summed(
                |q: int| prod(b.d_logits@[q]@[v].v, post[q]@[j].v),
                post.len() as int,
            )
        }),
{
    broadcast use group_value;

    let table = if tied {
        model.wte@
    } else {
        model.lm_head@
    };
    let dl = rows_vals(b.d_logits@);
    let es = transposed_rows(table, dl, n_embd);
    assert(b.d_logits@[p]@.len() == table.len());
    lemma_fits_all(cu, ops, es[p], b.d_hidden@[p]@);
    assert(b.d_hidden@[p]@[j].v == value(cu, es[p][j]));
    lemma_transposed(cu, table, dl[p], n_embd, j);
    let given = |u: int| prod(table[u]@[j].v, value(cu, dl[p][u]));
    let wanted = |u: int| prod(table[u]@[j].v, b.d_logits@[p]@[u].v);
    assert forall|u: int| 0 <= u < table.len() implies #[trigger] given(u) == wanted(u) by {
        assert(dl[p][u] == val(b.d_logits@[p]@[u]));
    }
    lemma_summed_same(given, wanted, table.len() as int);
    if !tied {
        let xs = rows_vals(post);
        let rows = outer_of(zero_rows(table.len() as int, n_embd), dl, xs, n_embd);
        lemma_fits_all(cu, ops, rows[v], b.lm_head@[v]@);
        assert(b.lm_head@[v]@[j].v == value(cu, rows[v][j]));
        lemma_outer(cu, dl, xs, table.len() as int, n_embd, v, j);
        let f = |q: int| prod(value(cu, dl[q][v]), value(cu, xs[q][j]));
        let g = |q: int| prod(b.d_logits@[q]@[v].v, post[q]@[j].v);
        assert forall|q: int| 0 <= q < post.len() implies #[trigger] f(q) == g(q) by {
            assert(b.d_logits@[q]@.len() == table.len() && n_embd <= post[q]@.len());
            assert(dl[q][v] == val(b.d_logits@[q]@[v]));
            assert(xs[q][j] == val(post[q]@[j]));
        }
        lemma_summed_same(f, g, post.len() as int);
    }
}

/// What comes back past a regulator whose output is added to its input: what came, and what the
/// squeezing layer's rows pass back.
#[verifier::spinoff_prover]
pub proof fn law_regulator_passes_both_ways_back(
    cu: Curves,
    m: MaestroWeights<Dual>,
    d: Seq<Expr<Dual>>,
    sq: Seq<Dual>,
    j: int,
)
    requires
        0 <= j < d.len(),
        m.squeeze.w@.len() <= squeezed_grads(m, d, sq).len(),
    ensures
        value(cu, regulator_back(m, d, sq)[j]) == value(cu, d[j]) + summed(
            |i: int| prod(m.squeeze.w@[i]@[j].v, value(cu, squeezed_grads(m, d, sq)[i])),
            m.squeeze.w@.len() as int,
        ),
{
    broadcast use group_value;

    lemma_transposed(cu, m.squeeze.w@, squeezed_grads(m, d, sq), d.len() as int, j);
}

/// Gradients are brought to a length of one at most, keeping their direction, before the head's
/// are lifted.
#[verifier::spinoff_prover]
pub proof fn law_prepared_gradients_are_clipped<A: Arith<Dual>>(
    cu: Curves,
    ops: A,
    grads: Seq<Dual>,
    lift: Option<(usize, Dual)>,
    out: Seq<Dual>,
)
    requires
        exact(cu, ops),
        root_squares(cu),
        prepared(ops, grads, lift, out),
    ensures
        out.len() == grads.len(),
        forall|i: int|
            0 <= i < out.len() ==> {
                let up = match lift {
                    Some(l) => if i >= l.0 {
                        l.1.v
                    } else {
                        1real
                    },
                    None => 1real,
                };
                let r = (cu.root)(square_sum(grads));
                &&& r <= 1real ==> (#[trigger] out[i]).v == prod(grads[i].v, up)
                &&& r > 1real ==> prod(out[i].v, r) == prod(grads[i].v, up)
            },
{
    broadcast use group_value;

    let (limit, clipped) = choose|limit: Dual, clipped: Seq<Dual>|
        {
            &&& fits(ops, one(), limit)
            &&& #[trigger] fits_all(ops, clipped_of(grads, limit), clipped)
            &&& match lift {
                Some(l) => fits_all(ops, lifted_of(clipped, l.0 as int, l.1), out),
                None => out == clipped,
            }
        };
    lemma_fits(cu, ops, one(), limit);
    law_clipping_keeps_direction(cu, ops, grads, limit, clipped);
    match lift {
        Some(l) => lemma_fits_all(cu, ops, lifted_of(clipped, l.0 as int, l.1), out),
        None => {},
    }
    let r = (cu.root)(square_sum(grads));
    assert forall|i: int| 0 <= i < out.len() implies ({
        let up = match lift {
            Some(l) => if i >= l.0 {
                l.1.v
            } else {
                1real
            },
            None => 1real,
        };
        &&& r <= 1real ==> (#[trigger] out[i]).v == prod(grads[i].v, up)
        &&& r > 1real ==> prod(out[i].v, r) == prod(grads[i].v, up)
    }) by {
        let up = match lift {
            Some(l) => if i >= l.0 {
                l.1.v
            } else {
                1real
            },
            None => 1real,
        };
        lemma_by_one(clipped[i].v);
        lemma_by_one(grads[i].v);
        assert(out[i].v == prod(clipped[i].v, up));
        if r > 1real {
            assert(prod(clipped[i].v, r) == prod(grads[i].v, 1real));
            lemma_three(clipped[i].v, up, r);
        }
    }
}

/// The springs leave every layer's factor where a spring leaves it: the active layers' towards
/// one, the others' towards nothing; without those springs the factors stay.
#[verifier::spinoff_prover]
pub proof fn law_springs_pull_layer_factors<A: Arith<Dual>>(
    cu: Curves,
    ops: A,
    c: SpringConfig<Dual>,
    lr: Dual,
    top: Dual,
    before: WavePacketModel<Dual>,
    after: WavePacketModel<Dual>,
    wd_before: Seq<Dual>,
    wd_after: Seq<Dual>,
    room_before: Seq<Dual>,
    room_after: Seq<Dual>,
    ceiling: Option<Dual>,
    l: int,
)
    requires
        exact(cu, ops),
        model_sprung(
            ops,
            c,
            lr,
            top,
            before,
            after,
            wd_before,
            wd_after,
            room_before,
            room_after,
            ceiling,
        ),
        0 <= l < before.layer_scale@.len(),
    ensures
        !c.layer_scale ==> after.layer_scale@[l] == before.layer_scale@[l],
        c.layer_scale && c.spring_k.v > 0real ==> {
            let awake = l < (match c.active_layers {
                Some(n) => n as int,
                None => before.blocks@.len() as int,
            });
            let rest = if awake {
                1real
            } else {
                0real
            };
            let moved = pulled(before.layer_scale@[l].v, rest, lr.v, c.spring_k.v);
            after.layer_scale@[l].v == if moved < 0real {
                0real
            } else {
                moved
            }
        },
{
    if c.layer_scale {
        let awake = l < active_count(c, before.blocks@.len() as int);
        let es = each(
            before.layer_scale@,
            |x: Dual, l: int|
                factor_of(x, lr, c.spring_k, l < active_count(c, before.blocks@.len() as int)),
        );
        lemma_fits_all(cu, ops, es, after.layer_scale@);
        assert(after.layer_scale@[l].v == value(cu, es[l]));
        law_layer_factor_is_pulled(cu, before.layer_scale@[l], lr, c.spring_k, awake);
    }
}

/// Where the groups have rates, a gradient is multiplied by that of its group; where they have
/// none, it stays. The rates change only where they are dynamic.
#[verifier::spinoff_prover]
pub proof fn law_group_rates_are_applied<A: Arith<Dual>>(
    cu: Curves,
    ops: A,
    modes: GroupModes<Dual>,
    lr: Dual,
    scales: Seq<Dual>,
    grads: Seq<Dual>,
    scales_after: Seq<Dual>,
    grads_after: Seq<Dual>,
    i: int,
)
    requires
        exact(cu, ops),
        rates_applied(ops, modes, lr, scales, grads, scales_after, grads_after),
        0 <= i < grads.len(),
    ensures
        modes.lr_scale is Off ==> grads_after == grads,
        !(modes.lr_scale is Off) ==> grads_after.len() == grads.len() && grads_after[i].v == (
        match group_scale(modes.lr_layout, scales, i) {
            Some(s) => prod(grads[i].v, s.v),
            None => grads[i].v,
        }),
        !(modes.lr_scale is Dynamic) ==> scales_after == scales,
{
    broadcast use group_value;

    if !(modes.lr_scale is Off) {
        let es = grads_scaled(modes.lr_layout, scales, grads);
        lemma_fits_all(cu, ops, es, grads_after);
        assert(grads_after[i].v == value(cu, es[i]));
    }
}

} // verus!
