//! The feed-forward part of a block, stage by stage: a regulator, the ODE, a second
//! regulator and a projection.
//!
//! The ODE and the projection can run on another device. The stages between them are
//! computed here, and what every stage made is kept for the way back.

use vstd::prelude::*;
use crate::arith::{Arith, TracedVec};
#[allow(unused_imports)]
use crate::arith::{Expr, fits_all, total_of, vals};
use crate::attention::untraced_rows;
#[allow(unused_imports)]
use crate::attention::{formulas, rows_fit, rows_ok, rows_vals};
use crate::backprop::{StartState, regulator_back_on, value_rows_on};
#[allow(unused_imports)]
use crate::backprop::{
    MaestroGrads, covers, maestro_grads_fit, nothing, regulated_grads, regulator_rows, squeezed_rows,
};
use crate::backward::FfnBlockGrads;
use crate::kerr::kerr_on;
#[allow(unused_imports)]
use crate::kerr::{kerr_of, kerr_shaped};
use crate::layers::{gelus_on, linear_on, sums_on, traced};
#[allow(unused_imports)]
use crate::layers::{gelus_of, linear_of, maestro_shaped, sums_of};
use crate::proj::dx_on;
#[allow(unused_imports)]
use crate::proj::{column_vals, dw_entry, proj_of, proj_takes};
use crate::seqs::extend_from;
#[allow(unused_imports)]
use crate::seqs::rows_width;
use crate::weights::{KerrDualMaestroWeights, KerrWeights, MaestroWeights, OutProjWeights};

verus! {

/// What the stages of a feed-forward part made, position by position.
pub struct FfnCache<T> {
    pub input: Vec<Vec<T>>,
    pub mae_in_sq: Vec<Vec<T>>,
    pub mae_in_act: Vec<Vec<T>>,
    pub precond: Vec<Vec<T>>,
    pub kerr_out: Vec<Vec<T>>,
    pub mae_out_sq: Vec<Vec<T>>,
    pub mae_out_act: Vec<Vec<T>>,
    pub regulated: Vec<Vec<T>>,
}

/// What a regulator made of its input: the squeezed values, their activations, and the input
/// with the regulator's output added.
pub struct Regulated<T> {
    pub sq: Vec<Vec<T>>,
    pub act: Vec<Vec<T>>,
    pub sum: Vec<Vec<T>>,
}

/// The squeezed values at every position.
pub open spec fn squeezed_of<T>(m: MaestroWeights<T>, x: Seq<Vec<T>>) -> Seq<Seq<Expr<T>>> {
    Seq::new(x.len(), |p: int| linear_of(m.squeeze.w@, m.squeeze.b@, vals(x[p]@)))
}

/// The activations at every position.
pub open spec fn activated_of<T>(m: MaestroWeights<T>, x: Seq<Vec<T>>) -> Seq<Seq<Expr<T>>> {
    Seq::new(x.len(), |p: int| gelus_of(squeezed_of(m, x)[p]))
}

/// The input with the regulator's output added, at every position.
pub open spec fn regulated_of<T>(m: MaestroWeights<T>, x: Seq<Vec<T>>) -> Seq<Seq<Expr<T>>> {
    Seq::new(
        x.len(),
        |p: int|
            sums_of(
                vals(x[p]@),
                linear_of(m.process_1.w@, m.process_1.b@, activated_of(m, x)[p]),
            ),
    )
}

/// A regulator's stages fit their formulas.
pub open spec fn regulated_fits<T: Copy, A: Arith<T>>(
    ops: A,
    m: MaestroWeights<T>,
    x: Seq<Vec<T>>,
    r: Regulated<T>,
) -> bool {
    &&& rows_fit(ops, squeezed_of(m, x), r.sq@)
    &&& rows_fit(ops, activated_of(m, x), r.act@)
    &&& rows_fit(ops, regulated_of(m, x), r.sum@)
}

/// Runs a regulator on every position and adds its output to its input.
pub fn regulate<T: Copy, A: Arith<T>>(
    ops: &A,
    m: &MaestroWeights<T>,
    x: &Vec<Vec<T>>,
    n: usize,
) -> (r: Regulated<T>)
    requires
        maestro_shaped(*m, n as int),
        rows_width(x@, n as int),
    ensures
        regulated_fits(*ops, *m, x@, r),
        covers(r.sq@, x@.len() as int, m.squeeze.w@.len() as int),
        covers(r.act@, x@.len() as int, m.squeeze.w@.len() as int),
        covers(r.sum@, x@.len() as int, n as int),
{
    let t: usize = x.len();
    let ghost narrow = m.squeeze.w@.len() as int;
    let ghost want_sq = squeezed_of(*m, x@);
    let ghost want_act = activated_of(*m, x@);
    let ghost want = regulated_of(*m, x@);
    let mut sq: Vec<Vec<T>> = Vec::new();
    let mut act: Vec<Vec<T>> = Vec::new();
    let mut sum: Vec<Vec<T>> = Vec::new();
    let mut p: usize = 0;
    while p < t
        invariant
            t == x@.len(),
            maestro_shaped(*m, n as int),
            rows_width(x@, n as int),
            narrow == m.squeeze.w@.len(),
            want_sq == squeezed_of(*m, x@),
            want_act == activated_of(*m, x@),
            want == regulated_of(*m, x@),
            p <= t,
            sq@.len() == p,
            act@.len() == p,
            sum@.len() == p,
            rows_width(sq@, narrow),
            rows_width(act@, narrow),
            rows_width(sum@, n as int),
            forall|i: int| 0 <= i < p ==> fits_all(*ops, want_sq[i], (#[trigger] sq@[i])@),
            forall|i: int| 0 <= i < p ==> fits_all(*ops, want_act[i], (#[trigger] act@[i])@),
            forall|i: int| 0 <= i < p ==> fits_all(*ops, want[i], (#[trigger] sum@[i])@),
        decreases t - p,
    {
        assert(x@[p as int]@.len() == n);
        let row: TracedVec<T> = traced(ops, &x[p]);
        let s: TracedVec<T> = linear_on(ops, &m.squeeze.w, &m.squeeze.b, &row);
        let a: TracedVec<T> = gelus_on(ops, &s);
        let out: TracedVec<T> = linear_on(ops, &m.process_1.w, &m.process_1.b, &a);
        let y: TracedVec<T> = sums_on(ops, &row, &out);
        sq.push(s.v);
        act.push(a.v);
        sum.push(y.v);
        p += 1;
    }
    Regulated { sq, act, sum }
}

/// The ODE at every position.
pub open spec fn waves_out<T>(w: KerrWeights<T>, x: Seq<Vec<T>>) -> Seq<Seq<Expr<T>>> {
    Seq::new(x.len(), |p: int| kerr_of(w, vals(x[p]@), None))
}

/// Runs the ODE on every position.
pub fn kerr_ode_batch<T: Copy, A: Arith<T>>(ops: &A, w: &KerrWeights<T>, x: &Vec<Vec<T>>) -> (out:
    Vec<Vec<T>>)
    requires
        kerr_shaped(*w, w.gamma_raw@.len() as int),
        rows_width(x@, 2 * w.gamma_raw@.len() as int),
    ensures
        rows_fit(*ops, waves_out(*w, x@), out@),
        covers(out@, x@.len() as int, 2 * w.gamma_raw@.len() as int),
{
    let t: usize = x.len();
    let ghost want = waves_out(*w, x@);
    let mut out: Vec<Vec<T>> = Vec::new();
    let mut p: usize = 0;
    while p < t
        invariant
            t == x@.len(),
            kerr_shaped(*w, w.gamma_raw@.len() as int),
            rows_width(x@, 2 * w.gamma_raw@.len() as int),
            want == waves_out(*w, x@),
            p <= t,
            out@.len() == p,
            rows_width(out@, 2 * w.gamma_raw@.len() as int),
            forall|i: int| 0 <= i < p ==> fits_all(*ops, want[i], (#[trigger] out@[i])@),
        decreases t - p,
    {
        assert(x@[p as int]@.len() == 2 * w.gamma_raw@.len());
        let row: TracedVec<T> = kerr_on(ops, w, &traced(ops, &x[p]), None);
        out.push(row.v);
        p += 1;
    }
    out
}

/// A copy of rows.
fn copied<T: Copy>(m: &Vec<Vec<T>>) -> (out: Vec<Vec<T>>)
    ensures
        out@.len() == m@.len(),
        forall|i: int| 0 <= i < m@.len() ==> (#[trigger] out@[i])@ == m@[i]@,
{
    let n: usize = m.len();
    let mut out: Vec<Vec<T>> = Vec::new();
    let mut i: usize = 0;
    while i < n
        invariant
            n == m@.len(),
            i <= n,
            out@.len() == i,
            forall|k: int| 0 <= k < i ==> (#[trigger] out@[k])@ == m@[k]@,
        decreases n - i,
    {
        let mut row: Vec<T> = Vec::new();
        extend_from(&mut row, &m[i]);
        assert(row@ =~= m@[i as int]@);
        out.push(row);
        i += 1;
    }
    out
}

/// The cache of a pass whose ODE gave `kerr_out`: every stage fits its formula, from the
/// input to the ODE and from there to the projection.
pub open spec fn cache_fits<T: Copy, A: Arith<T>>(
    ops: A,
    w: KerrDualMaestroWeights<T>,
    x: Seq<Vec<T>>,
    c: FfnCache<T>,
) -> bool {
    &&& c.input@.len() == x.len()
    &&& forall|p: int| 0 <= p < x.len() ==> (#[trigger] c.input@[p])@ == x[p]@
    &&& rows_fit(ops, squeezed_of(w.maestro_in, x), c.mae_in_sq@)
    &&& rows_fit(ops, activated_of(w.maestro_in, x), c.mae_in_act@)
    &&& rows_fit(ops, regulated_of(w.maestro_in, x), c.precond@)
    &&& rows_fit(ops, squeezed_of(w.maestro_out, c.kerr_out@), c.mae_out_sq@)
    &&& rows_fit(ops, activated_of(w.maestro_out, c.kerr_out@), c.mae_out_act@)
    &&& rows_fit(ops, regulated_of(w.maestro_out, c.kerr_out@), c.regulated@)
}

/// The shapes of a cache.
pub open spec fn cache_covers<T>(
    w: KerrDualMaestroWeights<T>,
    c: FfnCache<T>,
    t: int,
    n: int,
) -> bool {
    let a = w.maestro_in.squeeze.w@.len() as int;
    let b = w.maestro_out.squeeze.w@.len() as int;
    &&& covers(c.input@, t, n)
    &&& covers(c.mae_in_sq@, t, a)
    &&& covers(c.mae_in_act@, t, a)
    &&& covers(c.precond@, t, n)
    &&& covers(c.kerr_out@, t, n)
    &&& covers(c.mae_out_sq@, t, b)
    &&& covers(c.mae_out_act@, t, b)
    &&& covers(c.regulated@, t, n)
}

/// Puts a pass together around what the ODE made of the first regulator's output.
pub fn around_ode<T: Copy, A: Arith<T>>(
    ops: &A,
    w: &KerrDualMaestroWeights<T>,
    x: &Vec<Vec<T>>,
    entry: Regulated<T>,
    kerr_out: Vec<Vec<T>>,
    n: usize,
) -> (c: FfnCache<T>)
    requires
        maestro_shaped(w.maestro_in, n as int),
        maestro_shaped(w.maestro_out, n as int),
        rows_width(x@, n as int),
        regulated_fits(*ops, w.maestro_in, x@, entry),
        covers(entry.sq@, x@.len() as int, w.maestro_in.squeeze.w@.len() as int),
        covers(entry.act@, x@.len() as int, w.maestro_in.squeeze.w@.len() as int),
        covers(entry.sum@, x@.len() as int, n as int),
        covers(kerr_out@, x@.len() as int, n as int),
    ensures
        cache_fits(*ops, *w, x@, c),
        cache_covers(*w, c, x@.len() as int, n as int),
        c.kerr_out == kerr_out,
        c.precond == entry.sum,
{
    let leave: Regulated<T> = regulate(ops, &w.maestro_out, &kerr_out, n);
    FfnCache {
        input: copied(x),
        mae_in_sq: entry.sq,
        mae_in_act: entry.act,
        precond: entry.sum,
        kerr_out,
        mae_out_sq: leave.sq,
        mae_out_act: leave.act,
        regulated: leave.sum,
    }
}

/// Runs the whole part on one device, and keeps what every stage made.
pub fn ffn_forward_via_backend<T: Copy, A: Arith<T>>(
    ops: &A,
    w: &KerrDualMaestroWeights<T>,
    x: &Vec<Vec<T>>,
    n: usize,
) -> (res: (Vec<Vec<T>>, FfnCache<T>))
    requires
        maestro_shaped(w.maestro_in, n as int),
        maestro_shaped(w.maestro_out, n as int),
        kerr_shaped(w.kerr, w.kerr.gamma_raw@.len() as int),
        2 * w.kerr.gamma_raw@.len() == n,
        proj_takes(w.out_proj, n as int),
        rows_width(x@, n as int),
    ensures
        cache_fits(*ops, *w, x@, res.1),
        cache_covers(*w, res.1, x@.len() as int, n as int),
        rows_fit(*ops, waves_out(w.kerr, res.1.precond@), res.1.kerr_out@),
        rows_fit(
            *ops,
            Seq::new(
                res.1.regulated@.len(),
                |p: int| proj_of(w.out_proj, vals(res.1.regulated@[p]@)),
            ),
            res.0@,
        ),
{
    let entry: Regulated<T> = regulate(ops, &w.maestro_in, x, n);
    let kerr_out: Vec<Vec<T>> = kerr_ode_batch(ops, &w.kerr, &entry.sum);
    let c: FfnCache<T> = around_ode(ops, w, x, entry, kerr_out, n);
    let out: Vec<Vec<T>> = w.out_proj.forward_batch(ops, &c.regulated);
    (out, c)
}

/// What came back through the projection on another device.
pub struct ProjBack<T> {
    pub d_regulated: Vec<Vec<T>>,
    pub d_w: Vec<Vec<T>>,
    pub d_b: Vec<T>,
}

/// The gradients of the second regulator's output: from the device, or through the
/// projection's transpose.
pub open spec fn into_regulator<T>(
    w: KerrDualMaestroWeights<T>,
    d_out: Seq<Vec<T>>,
    device: Option<ProjBack<T>>,
) -> Seq<Seq<Expr<T>>> {
    match device {
        Some(b) => rows_vals(b.d_regulated@),
        None => regulated_grads(w.out_proj, d_out),
    }
}

/// The gradients of the ODE's output, which it hands on as they are.
pub open spec fn into_ode<T>(
    w: KerrDualMaestroWeights<T>,
    d_out: Seq<Vec<T>>,
    c: FfnCache<T>,
    device: Option<ProjBack<T>>,
) -> Seq<Seq<Expr<T>>> {
    regulator_rows(w.maestro_out, into_regulator(w, d_out, device), c.mae_out_sq@)
}

/// A regulator's gradients as they leave this part.
pub open spec fn maestro_part<T>(
    sq_w: Vec<Vec<T>>,
    sq_b: Vec<T>,
    pr_w: Vec<Vec<T>>,
    pr_b: Vec<T>,
) -> MaestroGrads<T> {
    MaestroGrads { sq_w, sq_b, pr_w, pr_b }
}

/// The way back through the part: the gradients of its input and of its weights. Those of
/// the projection can come from another device.
pub fn ffn_backward_via_backend<T: Copy, A: Arith<T>>(
    ops: &A,
    w: &KerrDualMaestroWeights<T>,
    d_ffn_out: &Vec<Vec<T>>,
    c: &FfnCache<T>,
    n: usize,
    device: Option<ProjBack<T>>,
) -> (res: (Vec<Vec<T>>, FfnBlockGrads<T>))
    requires
        maestro_shaped(w.maestro_in, n as int),
        maestro_shaped(w.maestro_out, n as int),
        w.out_proj.wf(),
        w.out_proj.spec_dim() == n,
        w.out_proj matches OutProjWeights::Dense(lw) ==> lw.w@[0]@.len() == n,
        rows_width(d_ffn_out@, n as int),
        cache_covers(*w, *c, d_ffn_out@.len() as int, n as int),
        device matches Some(b) ==> covers(b.d_regulated@, d_ffn_out@.len() as int, n as int),
    ensures
        rows_fit(
            *ops,
            regulator_rows(w.maestro_in, into_ode(*w, d_ffn_out@, *c, device), c.mae_in_sq@),
            res.0@,
        ),
        device matches Some(b) ==> res.1.d_out_proj_w == b.d_w && res.1.d_out_proj_b == b.d_b,
        device is None ==> {
            &&& rows_fit(
                *ops,
                Seq::new(
                    n as nat,
                    |i: int|
                        Seq::new(n as nat, |j: int| dw_entry(d_ffn_out@, c.regulated@, i, j)),
                ),
                res.1.d_out_proj_w@,
            )
            &&& fits_all(
                *ops,
                Seq::new(n as nat, |i: int| total_of(vals(column_vals(d_ffn_out@, i)))),
                res.1.d_out_proj_b@,
            )
        },
        maestro_grads_fit(
            *ops,
            nothing(n as int, w.maestro_out.squeeze.w@.len() as int),
            maestro_part(
                res.1.d_mae_out_sq_w,
                res.1.d_mae_out_sq_b,
                res.1.d_mae_out_pr_w,
                res.1.d_mae_out_pr_b,
            ),
            into_regulator(*w, d_ffn_out@, device),
            squeezed_rows(
                w.maestro_out,
                into_regulator(*w, d_ffn_out@, device),
                c.mae_out_sq@,
            ),
            rows_vals(c.mae_out_act@),
            rows_vals(c.kerr_out@),
            n as int,
            w.maestro_out.squeeze.w@.len() as int,
        ),
        maestro_grads_fit(
            *ops,
            nothing(n as int, w.maestro_in.squeeze.w@.len() as int),
            maestro_part(
                res.1.d_mae_in_sq_w,
                res.1.d_mae_in_sq_b,
                res.1.d_mae_in_pr_w,
                res.1.d_mae_in_pr_b,
            ),
            into_ode(*w, d_ffn_out@, *c, device),
            squeezed_rows(w.maestro_in, into_ode(*w, d_ffn_out@, *c, device), c.mae_in_sq@),
            rows_vals(c.mae_in_act@),
            rows_vals(c.input@),
            n as int,
            w.maestro_in.squeeze.w@.len() as int,
        ),
        res.1.d_kerr_gamma_raw is None,
        res.1.d_kerr_alpha is None,
        res.1.d_kerr_beta is None,
        res.1.d_phase_correction is None,
{
    let t: usize = d_ffn_out.len();
    let ghost want = into_regulator(*w, d_ffn_out@, device);
    let (d_reg, d_w, d_b): (Vec<TracedVec<T>>, Vec<Vec<T>>, Vec<T>) = match device {
        Some(b) => (value_rows_on(ops, &b.d_regulated, n), b.d_w, b.d_b),
        None => {
            let mut d_reg: Vec<TracedVec<T>> = Vec::new();
            let mut p: usize = 0;
            assert(formulas(d_reg@) =~= want.take(0));
            while p < t
                invariant
                    t == d_ffn_out@.len(),
                    w.out_proj.wf(),
                    w.out_proj.spec_dim() == n,
                    w.out_proj matches OutProjWeights::Dense(lw) ==> lw.w@[0]@.len() == n,
                    rows_width(d_ffn_out@, n as int),
                    want == regulated_grads(w.out_proj, d_ffn_out@),
                    p <= t,
                    rows_ok(*ops, d_reg@, n as int),
                    formulas(d_reg@) == want.take(p as int),
                decreases t - p,
            {
                assert(d_ffn_out@[p as int]@.len() == n);
                let row: TracedVec<T> = dx_on(ops, &w.out_proj, &d_ffn_out[p]);
                let ghost before = formulas(d_reg@);
                d_reg.push(row);
                p += 1;
                proof {
                    assert(formulas(d_reg@) =~= before.push(row.e@));
                    assert(formulas(d_reg@) =~= want.take(p as int));
                }
            }
            assert(want.take(t as int) =~= want);
            let (d_w, d_b) = w.out_proj.backward_dw_db(ops, d_ffn_out, &c.regulated);
            (d_reg, d_w, d_b)
        },
    };
    assert(d_reg@.len() == formulas(d_reg@).len());
    let (d_kerr, out_grads) = regulator_back_on(
        ops,
        &w.maestro_out,
        &d_reg,
        &c.mae_out_sq,
        &c.mae_out_act,
        &c.kerr_out,
        n,
        &StartState::none(ops, n, w.maestro_out.squeeze.w.len()),
    );
    let (d_input, in_grads) = regulator_back_on(
        ops,
        &w.maestro_in,
        &d_kerr,
        &c.mae_in_sq,
        &c.mae_in_act,
        &c.input,
        n,
        &StartState::none(ops, n, w.maestro_in.squeeze.w.len()),
    );
    let rows: Vec<Vec<T>> = untraced_rows(ops, d_input);
    let grads = FfnBlockGrads {
        d_out_proj_w: d_w,
        d_out_proj_b: d_b,
        d_mae_out_pr_w: out_grads.pr_w,
        d_mae_out_pr_b: out_grads.pr_b,
        d_mae_out_sq_w: out_grads.sq_w,
        d_mae_out_sq_b: out_grads.sq_b,
        d_mae_in_pr_w: in_grads.pr_w,
        d_mae_in_pr_b: in_grads.pr_b,
        d_mae_in_sq_w: in_grads.sq_w,
        d_mae_in_sq_b: in_grads.sq_b,
        d_kerr_gamma_raw: None,
        d_kerr_alpha: None,
        d_kerr_beta: None,
        d_phase_correction: None,
    };
    (rows, grads)
}

} // verus!
