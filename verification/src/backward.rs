//! The way back through the whole model, block by block.
//!
//! The gradients of a normalisation and of a block's feed-forward part are handed in; where
//! they go, and how they are put together, is decided here.

use vstd::prelude::*;
use crate::arith::{Arith, Test, Traced, TracedVec, pick_on, sum_from};
#[allow(unused_imports)]
use crate::arith::{
    Binary, Expr, fits, fits_all, fold_of, one, pick, plus, times, val, vals, zero,
};
#[allow(unused_imports)]
use crate::attention::{rows_fit, rows_vals};
use crate::backprop::{grown_on, value_rows_on};
#[allow(unused_imports)]
use crate::backprop::grown_of;
use crate::config::Dims;
use crate::decoder::{decode_back, DecoderBack};
#[allow(unused_imports)]
use crate::decoder::{
    decodes, logit_back_fits, logit_grads, native_back_fits, native_state_grads, scored_tokens,
};
use crate::gradients::{zero_gradients, Gradients};
#[allow(unused_imports)]
use crate::gradients::{stack_shaped, table_shaped};
use crate::layers::{sums_on, traced};
#[allow(unused_imports)]
use crate::layers::sums_of;
#[allow(unused_imports)]
use crate::seqs::rows_width;
use crate::wave_model::WavePacketModel;

verus! {

/// What comes back through a normalisation, position by position: the gradients of its
/// input, of its weights and of its biases.
pub struct NormBack<T> {
    pub d_x: Vec<Vec<T>>,
    pub d_w: Vec<Vec<T>>,
    pub d_b: Vec<Vec<T>>,
}

impl<T> NormBack<T> {
    /// `t` positions of `n` components.
    pub open spec fn shaped(&self, t: int, n: int) -> bool {
        &&& self.d_x@.len() == t
        &&& self.d_w@.len() == t
        &&& self.d_b@.len() == t
        &&& rows_width(self.d_x@, n)
        &&& rows_width(self.d_w@, n)
        &&& rows_width(self.d_b@, n)
    }
}

/// The gradients of a block's feed-forward part. Those of the ODE's parameters are there
/// only where the ODE is trained.
pub struct FfnBlockGrads<T> {
    pub d_out_proj_w: Vec<Vec<T>>,
    pub d_out_proj_b: Vec<T>,
    pub d_mae_out_pr_w: Vec<Vec<T>>,
    pub d_mae_out_pr_b: Vec<T>,
    pub d_mae_out_sq_w: Vec<Vec<T>>,
    pub d_mae_out_sq_b: Vec<T>,
    pub d_mae_in_pr_w: Vec<Vec<T>>,
    pub d_mae_in_pr_b: Vec<T>,
    pub d_mae_in_sq_w: Vec<Vec<T>>,
    pub d_mae_in_sq_b: Vec<T>,
    pub d_kerr_gamma_raw: Option<Vec<T>>,
    pub d_kerr_alpha: Option<T>,
    pub d_kerr_beta: Option<T>,
    pub d_phase_correction: Option<Vec<T>>,
}

/// A matrix with another added to it.
pub open spec fn row_sums<T>(a: Seq<Vec<T>>, b: Seq<Vec<T>>) -> Seq<Seq<Expr<T>>> {
    Seq::new(a.len(), |i: int| sums_of(vals(a[i]@), vals(b[i]@)))
}

/// Two matrices of one shape.
pub open spec fn same_dims<T>(a: Seq<Vec<T>>, b: Seq<Vec<T>>) -> bool {
    &&& a.len() == b.len()
    &&& forall|i: int| 0 <= i < a.len() ==> (#[trigger] a[i])@.len() == b[i]@.len()
}

/// Adds a matrix to another.
pub fn add_rows<T: Copy, O: Arith<T>>(ops: &O, into: &mut Vec<Vec<T>>, from: &Vec<Vec<T>>)
    requires
        same_dims(old(into)@, from@),
    ensures
        rows_fit(*ops, row_sums(old(into)@, from@), final(into)@),
        same_dims(old(into)@, final(into)@),
{
    let n: usize = from.len();
    let ghost before = into@;
    let ghost want = row_sums(before, from@);
    let mut out: Vec<Vec<T>> = Vec::new();
    let mut i: usize = 0;
    while i < n
        invariant
            n == from@.len(),
            into@ == before,
            same_dims(before, from@),
            want == row_sums(before, from@),
            i <= n,
            out@.len() == i,
            forall|k: int| 0 <= k < i ==> fits_all(*ops, want[k], (#[trigger] out@[k])@),
            forall|k: int| 0 <= k < i ==> (#[trigger] out@[k])@.len() == before[k]@.len(),
        decreases n - i,
    {
        assert(before[i as int]@.len() == from@[i as int]@.len());
        let sum: TracedVec<T> = sums_on(ops, &traced(ops, &into[i]), &traced(ops, &from[i]));
        out.push(sum.v);
        i += 1;
    }
    *into = out;
}

/// One matrix of a stack got another added to it; the others stayed.
pub open spec fn stack_gained<T: Copy, O: Arith<T>>(
    ops: O,
    before: Seq<Vec<Vec<T>>>,
    after: Seq<Vec<Vec<T>>>,
    at: int,
    gain: Seq<Vec<T>>,
) -> bool {
    &&& after.len() == before.len()
    &&& forall|b: int| 0 <= b < before.len() && b != at ==> #[trigger] after[b] == before[b]
    &&& rows_fit(ops, row_sums(before[at]@, gain), after[at]@)
}

/// One row of a table got another added to it; the others stayed.
pub open spec fn table_gained<T: Copy, O: Arith<T>>(
    ops: O,
    before: Seq<Vec<T>>,
    after: Seq<Vec<T>>,
    at: int,
    gain: Seq<T>,
) -> bool {
    &&& after.len() == before.len()
    &&& forall|b: int| 0 <= b < before.len() && b != at ==> #[trigger] after[b] == before[b]
    &&& fits_all(ops, sums_of(vals(before[at]@), vals(gain)), after[at]@)
}

/// One entry got a number added to it, if there is one; the others stayed.
pub open spec fn entry_gained<T: Copy, O: Arith<T>>(
    ops: O,
    before: Seq<T>,
    after: Seq<T>,
    at: int,
    gain: Option<T>,
) -> bool {
    match gain {
        Some(g) => {
            &&& after.len() == before.len()
            &&& forall|b: int| 0 <= b < before.len() && b != at ==> #[trigger] after[b] == before[b]
            &&& fits(ops, plus(val(before[at]), val(g)), after[at])
        },
        None => after == before,
    }
}

fn gain_entry<T: Copy, O: Arith<T>>(ops: &O, into: &mut Vec<T>, at: usize, gain: Option<T>)
    requires
        at < old(into)@.len(),
    ensures
        entry_gained(*ops, old(into)@, final(into)@, at as int, gain),
{
    match gain {
        Some(g) => {
            let sum: Traced<T> = Traced::of(ops, into[at]).plus(ops, Traced::of(ops, g));
            into.set(at, sum.v);
        },
        None => {},
    }
}

fn gain_row<T: Copy, O: Arith<T>>(ops: &O, into: &mut Vec<Vec<T>>, at: usize, gain: &Vec<T>)
    requires
        at < old(into)@.len(),
        old(into)@[at as int]@.len() == gain@.len(),
    ensures
        table_gained(*ops, old(into)@, final(into)@, at as int, gain@),
{
    let sum: TracedVec<T> = sums_on(ops, &traced(ops, &into[at]), &traced(ops, gain));
    into.set(at, sum.v);
}

fn gain_matrix<T: Copy, O: Arith<T>>(
    ops: &O,
    into: &mut Vec<Vec<Vec<T>>>,
    at: usize,
    gain: &Vec<Vec<T>>,
)
    requires
        at < old(into)@.len(),
        same_dims(old(into)@[at as int]@, gain@),
    ensures
        stack_gained(*ops, old(into)@, final(into)@, at as int, gain@),
{
    let mut m: Vec<Vec<T>> = Vec::new();
    let ghost before = into@;
    std::mem::swap(&mut m, &mut into[at]);
    add_rows(ops, &mut m, gain);
    into.set(at, m);
}

/// The gradients of a block's feed-forward part have the shapes of the accumulators.
pub open spec fn ffn_grads_match<T>(g: Gradients<T>, f: FfnBlockGrads<T>, at: int) -> bool {
    &&& g.aligned()
    &&& 0 <= at < g.block_ln_w@.len()
    &&& same_dims(g.block_ffn_out_proj_w@[at]@, f.d_out_proj_w@)
    &&& g.block_ffn_out_proj_b@[at]@.len() == f.d_out_proj_b@.len()
    &&& same_dims(g.block_ffn_mae_out_pr_w@[at]@, f.d_mae_out_pr_w@)
    &&& g.block_ffn_mae_out_pr_b@[at]@.len() == f.d_mae_out_pr_b@.len()
    &&& same_dims(g.block_ffn_mae_out_sq_w@[at]@, f.d_mae_out_sq_w@)
    &&& g.block_ffn_mae_out_sq_b@[at]@.len() == f.d_mae_out_sq_b@.len()
    &&& same_dims(g.block_ffn_mae_in_pr_w@[at]@, f.d_mae_in_pr_w@)
    &&& g.block_ffn_mae_in_pr_b@[at]@.len() == f.d_mae_in_pr_b@.len()
    &&& same_dims(g.block_ffn_mae_in_sq_w@[at]@, f.d_mae_in_sq_w@)
    &&& g.block_ffn_mae_in_sq_b@[at]@.len() == f.d_mae_in_sq_b@.len()
    &&& f.d_kerr_gamma_raw matches Some(v) ==> g.block_ffn_kerr_gamma_raw@[at]@.len() == v@.len()
    &&& f.d_phase_correction matches Some(v) ==> g.block_ffn_phase_correction@[at]@.len()
        == v@.len()
}

/// The accumulators of block `at` got the gradients of its feed-forward part added to them;
/// nothing else changed.
pub open spec fn ffn_gained<T: Copy, O: Arith<T>>(
    ops: O,
    a: Gradients<T>,
    b: Gradients<T>,
    at: int,
    f: FfnBlockGrads<T>,
) -> bool {
    &&& stack_gained(ops, a.block_ffn_out_proj_w@, b.block_ffn_out_proj_w@, at, f.d_out_proj_w@)
    &&& table_gained(ops, a.block_ffn_out_proj_b@, b.block_ffn_out_proj_b@, at, f.d_out_proj_b@)
    &&& stack_gained(
        ops,
        a.block_ffn_mae_out_pr_w@,
        b.block_ffn_mae_out_pr_w@,
        at,
        f.d_mae_out_pr_w@,
    )
    &&& table_gained(
        ops,
        a.block_ffn_mae_out_pr_b@,
        b.block_ffn_mae_out_pr_b@,
        at,
        f.d_mae_out_pr_b@,
    )
    &&& stack_gained(
        ops,
        a.block_ffn_mae_out_sq_w@,
        b.block_ffn_mae_out_sq_w@,
        at,
        f.d_mae_out_sq_w@,
    )
    &&& table_gained(
        ops,
        a.block_ffn_mae_out_sq_b@,
        b.block_ffn_mae_out_sq_b@,
        at,
        f.d_mae_out_sq_b@,
    )
    &&& stack_gained(ops, a.block_ffn_mae_in_pr_w@, b.block_ffn_mae_in_pr_w@, at, f.d_mae_in_pr_w@)
    &&& table_gained(ops, a.block_ffn_mae_in_pr_b@, b.block_ffn_mae_in_pr_b@, at, f.d_mae_in_pr_b@)
    &&& stack_gained(ops, a.block_ffn_mae_in_sq_w@, b.block_ffn_mae_in_sq_w@, at, f.d_mae_in_sq_w@)
    &&& table_gained(ops, a.block_ffn_mae_in_sq_b@, b.block_ffn_mae_in_sq_b@, at, f.d_mae_in_sq_b@)
    &&& match f.d_kerr_gamma_raw {
        Some(v) => table_gained(
            ops,
            a.block_ffn_kerr_gamma_raw@,
            b.block_ffn_kerr_gamma_raw@,
            at,
            v@,
        ),
        None => b.block_ffn_kerr_gamma_raw == a.block_ffn_kerr_gamma_raw,
    }
    &&& entry_gained(ops, a.block_ffn_kerr_alpha@, b.block_ffn_kerr_alpha@, at, f.d_kerr_alpha)
    &&& entry_gained(ops, a.block_ffn_kerr_beta@, b.block_ffn_kerr_beta@, at, f.d_kerr_beta)
    &&& match f.d_phase_correction {
        Some(v) => table_gained(
            ops,
            a.block_ffn_phase_correction@,
            b.block_ffn_phase_correction@,
            at,
            v@,
        ),
        None => b.block_ffn_phase_correction == a.block_ffn_phase_correction,
    }
    &&& b == (Gradients {
        block_ffn_out_proj_w: b.block_ffn_out_proj_w,
        block_ffn_out_proj_b: b.block_ffn_out_proj_b,
        block_ffn_mae_out_pr_w: b.block_ffn_mae_out_pr_w,
        block_ffn_mae_out_pr_b: b.block_ffn_mae_out_pr_b,
        block_ffn_mae_out_sq_w: b.block_ffn_mae_out_sq_w,
        block_ffn_mae_out_sq_b: b.block_ffn_mae_out_sq_b,
        block_ffn_mae_in_pr_w: b.block_ffn_mae_in_pr_w,
        block_ffn_mae_in_pr_b: b.block_ffn_mae_in_pr_b,
        block_ffn_mae_in_sq_w: b.block_ffn_mae_in_sq_w,
        block_ffn_mae_in_sq_b: b.block_ffn_mae_in_sq_b,
        block_ffn_kerr_gamma_raw: b.block_ffn_kerr_gamma_raw,
        block_ffn_kerr_alpha: b.block_ffn_kerr_alpha,
        block_ffn_kerr_beta: b.block_ffn_kerr_beta,
        block_ffn_phase_correction: b.block_ffn_phase_correction,
        ..a
    })
}

/// A factor applied on the way back: left out where it is one.
pub open spec fn scaled_of<T>(x: Expr<T>, factor: Option<T>) -> Expr<T> {
    match factor {
        Some(f) => pick(Test::Equals, val(f), one(), x, times(x, val(f))),
        None => x,
    }
}

/// The gradients of a block's contribution at every position.
pub open spec fn scaled_rows<T>(d: Seq<Vec<T>>, factor: Option<T>) -> Seq<Seq<Expr<T>>> {
    Seq::new(
        d.len(),
        |p: int| Seq::new(d[p]@.len(), |j: int| scaled_of(val(d[p]@[j]), factor)),
    )
}

/// What the positions add to the gradient of a block's factor, position by position.
pub open spec fn factor_parts<T>(
    d: Seq<Vec<T>>,
    attn: Seq<Vec<T>>,
    ffn: Seq<Vec<T>>,
    n: int,
    upto: int,
) -> Seq<Expr<T>>
    decreases upto,
{
    if upto <= 0 {
        Seq::empty()
    } else {
        factor_parts(d, attn, ffn, n, upto - 1) + Seq::new(
            n as nat,
            |j: int|
                times(
                    val(d[upto - 1]@[j]),
                    plus(val(attn[upto - 1]@[j]), val(ffn[upto - 1]@[j])),
                ),
        )
    }
}

/// The gradient of a block's factor.
pub open spec fn factor_grad<T>(
    d: Seq<Vec<T>>,
    attn: Seq<Vec<T>>,
    ffn: Seq<Vec<T>>,
    n: int,
) -> Expr<T> {
    fold_of(Binary::Plus, zero(), factor_parts(d, attn, ffn, n, d.len() as int))
}

/// The way back: the loss, the gradients of the present state and the accumulators.
pub struct BackwardRun<T> {
    pub loss: T,
    pub d_hidden: Vec<Vec<T>>,
    pub grads: Gradients<T>,
}

/// What a run holds after the decoder: what came back through it, and accumulators that are
/// otherwise untouched.
pub open spec fn starts_with<T>(
    run: BackwardRun<T>,
    b: DecoderBack<T>,
    fresh: Gradients<T>,
) -> bool {
    &&& run.loss == b.loss
    &&& run.d_hidden == b.d_hidden
    &&& run.grads == (Gradients {
        lm_head: run.grads.lm_head,
        lm_down: run.grads.lm_down,
        lm_up: run.grads.lm_up,
        d_output_corrector: b.d_output_corrector,
        wd_grads: b.wd_grads,
        ..fresh
    })
    &&& b.lm_head@.len() > 0 ==> run.grads.lm_head == b.lm_head
    &&& b.lm_head@.len() == 0 ==> run.grads.lm_head == fresh.lm_head
    &&& b.lm_down@.len() > 0 ==> run.grads.lm_down == b.lm_down
    &&& b.lm_down@.len() == 0 ==> run.grads.lm_down == fresh.lm_down
    &&& b.lm_up@.len() > 0 ==> run.grads.lm_up == b.lm_up
    &&& b.lm_up@.len() == 0 ==> run.grads.lm_up == fresh.lm_up
}

/// What comes back through the model's decoder.
pub open spec fn comes_back<T: Copy, O: Arith<T>>(
    ops: O,
    model: WavePacketModel<T>,
    d: Dims,
    temperature: T,
    post: Seq<Vec<T>>,
    logits: Seq<Vec<T>>,
    targets: Seq<usize>,
    b: DecoderBack<T>,
) -> bool {
    if model.phase_native {
        native_back_fits(ops, model, d.n_bands as int, temperature, post, targets, b)
    } else {
        logit_back_fits(ops, model, d.tied, post, logits, targets, d.n_embd as int, b)
    }
}

/// Accumulators in which nothing has been added up.
pub open spec fn untouched<T: Copy, O: Arith<T>>(
    ops: O,
    model: WavePacketModel<T>,
    d: Dims,
    g: Gradients<T>,
) -> bool {
    &&& g.blocks_shaped(model.blocks@.len() as int, d)
    &&& g.rest_shaped(model.blocks@.len() as int, d, model.vocab_size as int, model.phase_native)
    &&& exists|z: T| #[trigger] fits(ops, zero(), z) && g.all_zero(z)
}

/// Number of components that come back through the model's decoder.
pub open spec fn back_width<T>(model: WavePacketModel<T>, d: Dims) -> int {
    if model.phase_native {
        d.n_embd as int
    } else if let Some(s) = model.wd_state {
        2 * s.n_bands
    } else {
        d.n_embd as int
    }
}

proof fn lemma_back_width<T: Copy, O: Arith<T>>(
    ops: O,
    model: WavePacketModel<T>,
    d: Dims,
    temperature: T,
    post: Seq<Vec<T>>,
    logits: Seq<Vec<T>>,
    targets: Seq<usize>,
    b: DecoderBack<T>,
)
    requires
        decodes(model, d.n_bands as int, d.tied, d.n_embd as int),
        comes_back(ops, model, d, temperature, post, logits, targets, b),
        !model.phase_native ==> logits.len() == post.len(),
    ensures
        b.d_hidden@.len() == post.len(),
        rows_width(b.d_hidden@, back_width(model, d)),
{
    assert forall|p: int| 0 <= p < b.d_hidden@.len() implies (#[trigger] b.d_hidden@[p])@.len()
        == back_width(model, d) by {
        if model.phase_native {
            let es = native_state_grads(model, d.n_bands as int, temperature, post, targets);
            assert(fits_all(ops, es[p], b.d_hidden@[p]@));
            assert(model.output_corrector@.take(d.n_bands as int).len() == d.n_bands);
        } else {
            assert(rows_fit(ops, logit_grads(logits, targets), b.d_logits@));
        }
    }
}

/// Starts the way back: from the loss through the decoder.
pub fn start<T: Copy, O: Arith<T>>(
    ops: &O,
    model: &WavePacketModel<T>,
    d: Dims,
    temperature: T,
    post_ln_f: &Vec<Vec<T>>,
    logits: &Vec<Vec<T>>,
    targets: &[usize],
) -> (run: BackwardRun<T>)
    requires
        d.lm_rank == model.lm_rank,
        rows_width(post_ln_f@, d.n_embd as int),
        decodes(*model, d.n_bands as int, d.tied, d.n_embd as int),
        post_ln_f@.len() <= targets@.len(),
        model.phase_native ==> forall|p: int|
            0 <= p < post_ln_f@.len() ==> (#[trigger] targets@[p]) < model.wte@.len(),
        !model.phase_native ==> {
            &&& logits@.len() == post_ln_f@.len()
            &&& rows_width(logits@, scored_tokens(*model, d.tied))
            &&& forall|p: int|
                0 <= p < post_ln_f@.len() ==> (#[trigger] targets@[p]) < scored_tokens(
                    *model,
                    d.tied,
                )
        },
    ensures
        exists|b: DecoderBack<T>, fresh: Gradients<T>|
            #[trigger] starts_with(run, b, fresh) && comes_back(
                *ops,
                *model,
                d,
                temperature,
                post_ln_f@,
                logits@,
                targets@,
                b,
            ) && untouched(*ops, *model, d, fresh),
        run.d_hidden@.len() == post_ln_f@.len(),
        rows_width(run.d_hidden@, back_width(*model, d)),
{
    let nought: Traced<T> = Traced::ratio(ops, 0, 1);
    let n_blocks: usize = model.blocks.len();
    let mut grads: Gradients<T> = zero_gradients(
        nought.v,
        n_blocks,
        d,
        model.vocab_size,
        model.phase_native,
    );
    let ghost fresh = grads;
    assert(fits(*ops, zero(), nought.v) && fresh.all_zero(nought.v));
    assert(untouched(*ops, *model, d, fresh));
    let back: DecoderBack<T> = decode_back(
        ops,
        model,
        d.n_bands,
        d.tied,
        temperature,
        post_ln_f,
        logits,
        targets,
        d.n_embd,
    );
    let ghost b = back;
    proof {
        lemma_back_width(*ops, *model, d, temperature, post_ln_f@, logits@, targets@, b);
    }
    if back.lm_head.len() > 0 {
        grads.lm_head = back.lm_head;
    }
    if back.lm_down.len() > 0 {
        grads.lm_down = back.lm_down;
    }
    if back.lm_up.len() > 0 {
        grads.lm_up = back.lm_up;
    }
    grads.d_output_corrector = back.d_output_corrector;
    grads.wd_grads = back.wd_grads;
    let run = BackwardRun { loss: back.loss, d_hidden: back.d_hidden, grads };
    assert(starts_with(run, b, fresh));
    run
}

/// What the positions of a normalisation add up to, on top of what was there.
pub open spec fn norm_gained<T: Copy, O: Arith<T>>(
    ops: O,
    w: Seq<T>,
    b: Seq<T>,
    w_after: Seq<T>,
    b_after: Seq<T>,
    back: NormBack<T>,
) -> bool {
    &&& fits_all(ops, grown_of(vals(w), rows_vals(back.d_w@)), w_after)
    &&& fits_all(ops, grown_of(vals(b), rows_vals(back.d_b@)), b_after)
}

impl<T: Copy> BackwardRun<T> {
    /// A run over `t` positions: states and accumulators have the shapes of the model.
    pub open spec fn sound(&self, n_blocks: int, d: Dims, t: int) -> bool {
        &&& self.d_hidden@.len() == t
        &&& rows_width(self.d_hidden@, d.n_embd as int)
        &&& self.grads.blocks_shaped(n_blocks, d)
        &&& self.grads.ln_f_w@.len() == d.n_embd
        &&& self.grads.ln_f_b@.len() == d.n_embd
        &&& self.grads.layer_scale@.len() == (if d.use_layer_scale {
            n_blocks
        } else {
            0
        })
    }

    /// Takes in what came back through the last normalisation.
    pub fn final_norm<O: Arith<T>>(&mut self, ops: &O, d: Dims, n_blocks: usize, back: NormBack<T>)
        requires
            old(self).sound(n_blocks as int, d, old(self).d_hidden@.len() as int),
            back.shaped(old(self).d_hidden@.len() as int, d.n_embd as int),
        ensures
            norm_gained(
                *ops,
                old(self).grads.ln_f_w@,
                old(self).grads.ln_f_b@,
                final(self).grads.ln_f_w@,
                final(self).grads.ln_f_b@,
                back,
            ),
            final(self).d_hidden == back.d_x,
            final(self).loss == old(self).loss,
            final(self).grads == (Gradients {
                ln_f_w: final(self).grads.ln_f_w,
                ln_f_b: final(self).grads.ln_f_b,
                ..old(self).grads
            }),
            final(self).sound(n_blocks as int, d, old(self).d_hidden@.len() as int),
    {
        let n: usize = d.n_embd;
        let w: Vec<T> = grown_on(
            ops,
            &traced(ops, &self.grads.ln_f_w),
            &value_rows_on(ops, &back.d_w, n),
            n,
        );
        let b: Vec<T> = grown_on(
            ops,
            &traced(ops, &self.grads.ln_f_b),
            &value_rows_on(ops, &back.d_b, n),
            n,
        );
        self.grads.ln_f_w = w;
        self.grads.ln_f_b = b;
        self.d_hidden = back.d_x;
    }

    /// The gradients of a block's contribution: those of the state, times the block's factor.
    pub fn contribution<O: Arith<T>>(&self, ops: &O, factor: Option<T>) -> (out: Vec<Vec<T>>)
        ensures
            rows_fit(*ops, scaled_rows(self.d_hidden@, factor), out@),
    {
        let t: usize = self.d_hidden.len();
        let ghost want = scaled_rows(self.d_hidden@, factor);
        let unit: Traced<T> = Traced::ratio(ops, 1, 1);
        let mut out: Vec<Vec<T>> = Vec::new();
        let mut p: usize = 0;
        while p < t
            invariant
                t == self.d_hidden@.len(),
                want == scaled_rows(self.d_hidden@, factor),
                unit.ok(*ops),
                unit.e@ == one::<T>(),
                p <= t,
                out@.len() == p,
                forall|i: int| 0 <= i < p ==> fits_all(*ops, want[i], (#[trigger] out@[i])@),
            decreases t - p,
        {
            let d: &Vec<T> = &self.d_hidden[p];
            let n: usize = d.len();
            let ghost es = want[p as int];
            let mut row: TracedVec<T> = TracedVec::new(ops);
            let mut j: usize = 0;
            assert(row.e@ =~= es.take(0));
            while j < n
                invariant
                    n == d@.len(),
                    es == Seq::new(d@.len(), |j: int| scaled_of(val(d@[j]), factor)),
                    unit.ok(*ops),
                    unit.e@ == one::<T>(),
                    j <= n,
                    row.ok(*ops),
                    row.e@ == es.take(j as int),
                decreases n - j,
            {
                let x: Traced<T> = Traced::of(ops, d[j]);
                match factor {
                    Some(f) => {
                        let f: Traced<T> = Traced::of(ops, f);
                        row.push(ops, pick_on(ops, Test::Equals, f, unit, x, x.times(ops, f)));
                    },
                    None => {
                        row.push(ops, x);
                    },
                }
                j += 1;
                assert(row.e@ =~= es.take(j as int));
            }
            assert(es.take(n as int) =~= es);
            out.push(row.v);
            p += 1;
        }
        out
    }

    /// Adds the gradient of a block's factor, where factors are trained.
    pub fn add_factor<O: Arith<T>>(
        &mut self,
        ops: &O,
        d: Dims,
        n_blocks: usize,
        layer: usize,
        attn_out: &Vec<Vec<T>>,
        ffn_out: &Vec<Vec<T>>,
    )
        requires
            old(self).sound(n_blocks as int, d, old(self).d_hidden@.len() as int),
            layer < n_blocks,
            old(self).d_hidden@.len() <= attn_out@.len(),
            old(self).d_hidden@.len() <= ffn_out@.len(),
            forall|p: int|
                0 <= p < old(self).d_hidden@.len() ==> d.n_embd <= (
                #[trigger] attn_out@[p])@.len(),
            forall|p: int|
                0 <= p < old(self).d_hidden@.len() ==> d.n_embd <= (
                #[trigger] ffn_out@[p])@.len(),
        ensures
            d.use_layer_scale ==> {
                &&& final(self).grads.layer_scale@.len() == old(self).grads.layer_scale@.len()
                &&& forall|b: int|
                    0 <= b < n_blocks && b != layer ==> #[trigger] final(self).grads.layer_scale@[b]
                        == old(self).grads.layer_scale@[b]
                &&& fits(
                    *ops,
                    plus(
                        val(old(self).grads.layer_scale@[layer as int]),
                        factor_grad(
                            old(self).d_hidden@,
                            attn_out@,
                            ffn_out@,
                            d.n_embd as int,
                        ),
                    ),
                    final(self).grads.layer_scale@[layer as int],
                )
            },
            !d.use_layer_scale ==> final(self).grads == old(self).grads,
            final(self).d_hidden == old(self).d_hidden,
            final(self).loss == old(self).loss,
            final(self).grads == (Gradients {
                layer_scale: final(self).grads.layer_scale,
                ..old(self).grads
            }),
            final(self).sound(n_blocks as int, d, old(self).d_hidden@.len() as int),
    {
        if !d.use_layer_scale {
            return;
        }
        let t: usize = self.d_hidden.len();
        let n: usize = d.n_embd;
        let ghost dh = self.d_hidden@;
        let mut parts: TracedVec<T> = TracedVec::new(ops);
        let mut p: usize = 0;
        assert(parts.e@ =~= factor_parts(dh, attn_out@, ffn_out@, n as int, 0));
        while p < t
            invariant
                t == self.d_hidden@.len(),
                dh == self.d_hidden@,
                rows_width(dh, n as int),
                t <= attn_out@.len(),
                t <= ffn_out@.len(),
                forall|p: int| 0 <= p < t ==> n <= (#[trigger] attn_out@[p])@.len(),
                forall|p: int| 0 <= p < t ==> n <= (#[trigger] ffn_out@[p])@.len(),
                *self == *old(self),
                p <= t,
                parts.ok(*ops),
                parts.e@ == factor_parts(dh, attn_out@, ffn_out@, n as int, p as int),
            decreases t - p,
        {
            assert(dh[p as int]@.len() == n);
            assert(n <= attn_out@[p as int]@.len());
            assert(n <= ffn_out@[p as int]@.len());
            let x: &Vec<T> = &self.d_hidden[p];
            let a: &Vec<T> = &attn_out[p];
            let f: &Vec<T> = &ffn_out[p];
            let ghost before = parts.e@;
            let ghost more = Seq::new(
                n as nat,
                |j: int| times(val(x@[j]), plus(val(a@[j]), val(f@[j]))),
            );
            let mut j: usize = 0;
            assert(parts.e@ =~= before + more.take(0));
            while j < n
                invariant
                    n == x@.len(),
                    n <= a@.len(),
                    n <= f@.len(),
                    more == Seq::new(
                        n as nat,
                        |j: int| times(val(x@[j]), plus(val(a@[j]), val(f@[j]))),
                    ),
                    j <= n,
                    parts.ok(*ops),
                    parts.e@ == before + more.take(j as int),
                decreases n - j,
            {
                let both: Traced<T> = Traced::of(ops, a[j]).plus(ops, Traced::of(ops, f[j]));
                parts.push(ops, Traced::of(ops, x[j]).times(ops, both));
                j += 1;
                assert(parts.e@ =~= before + more.take(j as int));
            }
            assert(more.take(n as int) =~= more);
            p += 1;
            assert(factor_parts(dh, attn_out@, ffn_out@, n as int, p as int) =~= before + more);
        }
        let gain: Traced<T> = sum_from(ops, Traced::ratio(ops, 0, 1), &parts);
        let sum: Traced<T> = Traced::of(ops, self.grads.layer_scale[layer]).plus(ops, gain);
        self.grads.layer_scale.set(layer, sum.v);
    }

    /// Adds the gradients of a block's feed-forward part.
    pub fn add_ffn<O: Arith<T>>(
        &mut self,
        ops: &O,
        d: Dims,
        n_blocks: usize,
        layer: usize,
        f: &FfnBlockGrads<T>,
    )
        requires
            old(self).sound(n_blocks as int, d, old(self).d_hidden@.len() as int),
            layer < n_blocks,
            ffn_grads_match(old(self).grads, *f, layer as int),
        ensures
            ffn_gained(*ops, old(self).grads, final(self).grads, layer as int, *f),
            final(self).d_hidden == old(self).d_hidden,
            final(self).loss == old(self).loss,
            final(self).sound(n_blocks as int, d, old(self).d_hidden@.len() as int),
    {
        let ghost before = self.grads;
        gain_matrix(ops, &mut self.grads.block_ffn_out_proj_w, layer, &f.d_out_proj_w);
        gain_row(ops, &mut self.grads.block_ffn_out_proj_b, layer, &f.d_out_proj_b);
        gain_matrix(ops, &mut self.grads.block_ffn_mae_out_pr_w, layer, &f.d_mae_out_pr_w);
        gain_row(ops, &mut self.grads.block_ffn_mae_out_pr_b, layer, &f.d_mae_out_pr_b);
        gain_matrix(ops, &mut self.grads.block_ffn_mae_out_sq_w, layer, &f.d_mae_out_sq_w);
        gain_row(ops, &mut self.grads.block_ffn_mae_out_sq_b, layer, &f.d_mae_out_sq_b);
        gain_matrix(ops, &mut self.grads.block_ffn_mae_in_pr_w, layer, &f.d_mae_in_pr_w);
        gain_row(ops, &mut self.grads.block_ffn_mae_in_pr_b, layer, &f.d_mae_in_pr_b);
        gain_matrix(ops, &mut self.grads.block_ffn_mae_in_sq_w, layer, &f.d_mae_in_sq_w);
        gain_row(ops, &mut self.grads.block_ffn_mae_in_sq_b, layer, &f.d_mae_in_sq_b);
        if let Some(g) = &f.d_kerr_gamma_raw {
            gain_row(ops, &mut self.grads.block_ffn_kerr_gamma_raw, layer, g);
        }
        gain_entry(ops, &mut self.grads.block_ffn_kerr_alpha, layer, f.d_kerr_alpha);
        gain_entry(ops, &mut self.grads.block_ffn_kerr_beta, layer, f.d_kerr_beta);
        if let Some(g) = &f.d_phase_correction {
            gain_row(ops, &mut self.grads.block_ffn_phase_correction, layer, g);
        }
        proof {
            let e = d.n_embd as int;
            let m = d.maestro_dim as int;
            let n = n_blocks as int;
            let at = layer as int;
            let (a, b) = (before, self.grads);
            lemma_stack_shape(
                *ops,
                a.block_ffn_out_proj_w@,
                b.block_ffn_out_proj_w@,
                at,
                f.d_out_proj_w@,
                n,
                e,
                e,
            );
            lemma_stack_shape(
                *ops,
                a.block_ffn_mae_out_pr_w@,
                b.block_ffn_mae_out_pr_w@,
                at,
                f.d_mae_out_pr_w@,
                n,
                e,
                m,
            );
            lemma_stack_shape(
                *ops,
                a.block_ffn_mae_out_sq_w@,
                b.block_ffn_mae_out_sq_w@,
                at,
                f.d_mae_out_sq_w@,
                n,
                m,
                e,
            );
            lemma_stack_shape(
                *ops,
                a.block_ffn_mae_in_pr_w@,
                b.block_ffn_mae_in_pr_w@,
                at,
                f.d_mae_in_pr_w@,
                n,
                e,
                m,
            );
            lemma_stack_shape(
                *ops,
                a.block_ffn_mae_in_sq_w@,
                b.block_ffn_mae_in_sq_w@,
                at,
                f.d_mae_in_sq_w@,
                n,
                m,
                e,
            );
            lemma_table_shape(
                *ops,
                a.block_ffn_out_proj_b@,
                b.block_ffn_out_proj_b@,
                at,
                f.d_out_proj_b@,
                n,
                e,
            );
            lemma_table_shape(
                *ops,
                a.block_ffn_mae_out_pr_b@,
                b.block_ffn_mae_out_pr_b@,
                at,
                f.d_mae_out_pr_b@,
                n,
                e,
            );
            lemma_table_shape(
                *ops,
                a.block_ffn_mae_out_sq_b@,
                b.block_ffn_mae_out_sq_b@,
                at,
                f.d_mae_out_sq_b@,
                n,
                m,
            );
            lemma_table_shape(
                *ops,
                a.block_ffn_mae_in_pr_b@,
                b.block_ffn_mae_in_pr_b@,
                at,
                f.d_mae_in_pr_b@,
                n,
                e,
            );
            lemma_table_shape(
                *ops,
                a.block_ffn_mae_in_sq_b@,
                b.block_ffn_mae_in_sq_b@,
                at,
                f.d_mae_in_sq_b@,
                n,
                m,
            );
            let ode = if d.learnable_ode {
                d.n_bands as int
            } else {
                0
            };
            if let Some(g) = &f.d_kerr_gamma_raw {
                lemma_table_shape(
                    *ops,
                    a.block_ffn_kerr_gamma_raw@,
                    b.block_ffn_kerr_gamma_raw@,
                    at,
                    g@,
                    n,
                    ode,
                );
            }
            if let Some(g) = &f.d_phase_correction {
                lemma_table_shape(
                    *ops,
                    a.block_ffn_phase_correction@,
                    b.block_ffn_phase_correction@,
                    at,
                    g@,
                    n,
                    ode,
                );
            }
        }
    }

    /// Takes in what came back through a block's normalisation; the state's gradients go on
    /// past the block as well.
    pub fn block_norm<O: Arith<T>>(
        &mut self,
        ops: &O,
        d: Dims,
        n_blocks: usize,
        layer: usize,
        back: NormBack<T>,
    )
        requires
            old(self).sound(n_blocks as int, d, old(self).d_hidden@.len() as int),
            layer < n_blocks,
            back.shaped(old(self).d_hidden@.len() as int, d.n_embd as int),
        ensures
            norm_gained(
                *ops,
                old(self).grads.block_ln_w@[layer as int]@,
                old(self).grads.block_ln_b@[layer as int]@,
                final(self).grads.block_ln_w@[layer as int]@,
                final(self).grads.block_ln_b@[layer as int]@,
                back,
            ),
            forall|b: int|
                0 <= b < n_blocks && b != layer ==> #[trigger] final(self).grads.block_ln_w@[b]
                    == old(self).grads.block_ln_w@[b],
            forall|b: int|
                0 <= b < n_blocks && b != layer ==> #[trigger] final(self).grads.block_ln_b@[b]
                    == old(self).grads.block_ln_b@[b],
            rows_fit(*ops, row_sums(back.d_x@, old(self).d_hidden@), final(self).d_hidden@),
            final(self).loss == old(self).loss,
            final(self).grads == (Gradients {
                block_ln_w: final(self).grads.block_ln_w,
                block_ln_b: final(self).grads.block_ln_b,
                ..old(self).grads
            }),
            final(self).sound(n_blocks as int, d, old(self).d_hidden@.len() as int),
    {
        let n: usize = d.n_embd;
        assert(self.grads.block_ln_w@[layer as int]@.len() == n);
        assert(self.grads.block_ln_b@[layer as int]@.len() == n);
        let w: Vec<T> = grown_on(
            ops,
            &traced(ops, &self.grads.block_ln_w[layer]),
            &value_rows_on(ops, &back.d_w, n),
            n,
        );
        let b: Vec<T> = grown_on(
            ops,
            &traced(ops, &self.grads.block_ln_b[layer]),
            &value_rows_on(ops, &back.d_b, n),
            n,
        );
        self.grads.block_ln_w.set(layer, w);
        self.grads.block_ln_b.set(layer, b);
        let mut joined: Vec<Vec<T>> = back.d_x;
        assert forall|i: int| 0 <= i < joined@.len() implies (#[trigger] joined@[i])@.len()
            == self.d_hidden@[i]@.len() by {
            assert(self.d_hidden@[i]@.len() == n);
        }
        add_rows(ops, &mut joined, &self.d_hidden);
        self.d_hidden = joined;
    }
}

proof fn lemma_stack_shape<T: Copy, O: Arith<T>>(
    ops: O,
    before: Seq<Vec<Vec<T>>>,
    after: Seq<Vec<Vec<T>>>,
    at: int,
    gain: Seq<Vec<T>>,
    n: int,
    rows: int,
    width: int,
)
    requires
        0 <= at < n,
        stack_shaped(before, n, rows, width),
        stack_gained(ops, before, after, at, gain),
    ensures
        stack_shaped(after, n, rows, width),
{
    let es = row_sums(before[at]@, gain);
    assert(before[at]@.len() == rows);
    assert forall|i: int| 0 <= i < after[at]@.len() implies (#[trigger] after[at]@[i])@.len()
        == width by {
        assert(fits_all(ops, es[i], after[at]@[i]@));
        assert(before[at]@[i]@.len() == width);
    }
}

proof fn lemma_table_shape<T: Copy, O: Arith<T>>(
    ops: O,
    before: Seq<Vec<T>>,
    after: Seq<Vec<T>>,
    at: int,
    gain: Seq<T>,
    n: int,
    width: int,
)
    requires
        0 <= at < n,
        table_shaped(before, n, width),
        table_gained(ops, before, after, at, gain),
    ensures
        table_shaped(after, n, width),
{
    assert(before[at]@.len() == width);
}

} // verus!
