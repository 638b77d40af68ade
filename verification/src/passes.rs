//! Whole passes through a model. What a block or a normalisation does is handed in; the order
//! of the layers, what each of them is given and what becomes of its answer is decided here.

use vstd::prelude::*;
use crate::arith::Arith;
#[allow(unused_imports)]
use crate::arith::{Test, fits, fits_all, one, pick, plus, val, vals, zero};
#[allow(unused_imports)]
use crate::attention::rows_fit;
use crate::backward::{BackwardRun, FfnBlockGrads, NormBack, start};
#[allow(unused_imports)]
use crate::backward::{
    back_width, comes_back, factor_grad, ffn_gained, ffn_grads_match, norm_gained, row_sums,
    scaled_rows, starts_with, untouched,
};
use crate::config::Dims;
#[allow(unused_imports)]
use crate::decoder::{DecoderBack, decoded, decodes, scored_tokens};
use crate::decoder::loss_temperature;
use crate::forward::{BlockCache, BlockResult, ForwardCache, ForwardRun, layer_offset};
#[allow(unused_imports)]
use crate::forward::{
    blocks_take, caches, chained, next_input, normed_rows, parts_cover, rows_of,
};
use crate::gradients::Gradients;
#[allow(unused_imports)]
use crate::layers::norm_of;
use crate::phase_report::InjectRun;
#[allow(unused_imports)]
use crate::phase_report::layer_passed;
use crate::seqs::extend_from;
#[allow(unused_imports)]
use crate::seqs::rows_width;
use crate::wave_model::WavePacketModel;
use crate::weights::LayerNormWeights;

verus! {

/// The place of the memory that block `b` is given, if it is given one.
pub open spec fn memory_of(n_offsets: Option<usize>, b: int) -> Option<usize> {
    match n_offsets {
        Some(n) => if b < n {
            Some(b as usize)
        } else {
            None
        },
        None => None,
    }
}

/// What is kept of block `b` is what the block answered on the normalised state.
pub open spec fn answered<T, F, A, B: Fn(usize, Option<usize>, &Vec<Vec<T>>) -> BlockResult<
    T,
    F,
    A,
>>(block: B, b: int, memory: Option<usize>, c: BlockCache<T, F, A>) -> bool {
    exists|r: BlockResult<T, F, A>|
        call_ensures(block, (b as usize, memory, &c.normed), r) && #[trigger] caches(
            c,
            c.input,
            c.normed,
            r,
        )
}

/// A block can be asked about every state of `t` positions, and answers with parts that
/// cover them.
pub open spec fn block_serves<T, F, A, B: Fn(usize, Option<usize>, &Vec<Vec<T>>) -> BlockResult<
    T,
    F,
    A,
>>(block: B, n_blocks: int, t: int, n_embd: int) -> bool {
    &&& forall|b: usize, m: Option<usize>, x: &Vec<Vec<T>>|
        b < n_blocks && x@.len() == t && rows_width(x@, n_embd) ==> #[trigger] call_requires(
            block,
            (b, m, x),
        )
    &&& forall|b: usize, m: Option<usize>, x: &Vec<Vec<T>>, r: BlockResult<T, F, A>|
        b < n_blocks && #[trigger] call_ensures(block, (b, m, x), r) ==> parts_cover(r, t, n_embd)
}

/// Walks the blocks of a model in order.
fn run_blocks<
    T: Copy,
    O: Arith<T>,
    F,
    A,
    B: Fn(usize, Option<usize>, &Vec<Vec<T>>) -> BlockResult<T, F, A>,
>(
    ops: &O,
    model: &WavePacketModel<T>,
    hidden: Vec<Vec<T>>,
    n_offsets: Option<usize>,
    n_embd: usize,
    block: B,
) -> (run: ForwardRun<T, F, A>)
    requires
        rows_width(hidden@, n_embd as int),
        blocks_take(*model, n_embd as int),
        block_serves(block, model.blocks@.len() as int, hidden@.len() as int, n_embd as int),
    ensures
        run.sound(*ops, *model, n_embd as int),
        run.hidden@.len() == hidden@.len(),
        run.block_caches@.len() == model.blocks@.len(),
        next_input(run.block_caches@, run.hidden@, -1) == hidden@,
        forall|b: int|
            0 <= b < run.block_caches@.len() ==> answered(
                block,
                b,
                memory_of(n_offsets, b),
                #[trigger] run.block_caches@[b],
            ),
{
    let n: usize = model.blocks.len();
    let ghost first = hidden@;
    let mut run: ForwardRun<T, F, A> = ForwardRun::new(ops, model, hidden, n_embd);
    let mut b: usize = 0;
    while b < n
        invariant
            n == model.blocks@.len(),
            b <= n,
            blocks_take(*model, n_embd as int),
            block_serves(block, n as int, first.len() as int, n_embd as int),
            run.sound(*ops, *model, n_embd as int),
            run.block_caches@.len() == b,
            run.hidden@.len() == first.len(),
            next_input(run.block_caches@, run.hidden@, -1) == first,
            forall|k: int|
                0 <= k < b ==> answered(
                    block,
                    k,
                    memory_of(n_offsets, k),
                    #[trigger] run.block_caches@[k],
                ),
        decreases n - b,
    {
        run.prepare(ops, model, n_embd);
        let ghost before = run;
        let memory: Option<usize> = layer_offset(n_offsets, b);
        assert(run.normed@.len() == first.len());
        let r: BlockResult<T, F, A> = block(b, memory, &run.normed);
        let ghost answer = r;
        assert(parts_cover(r, first.len() as int, n_embd as int));
        run.step(ops, model, n_embd, r);
        proof {
            let kept = run.block_caches@;
            assert(kept.last() == kept[b as int]);
            assert(caches(kept[b as int], kept[b as int].input, kept[b as int].normed, answer));
            assert forall|k: int| 0 <= k < b + 1 implies answered(
                block,
                k,
                memory_of(n_offsets, k),
                #[trigger] kept[k],
            ) by {
                if k < b {
                    assert(kept[k] == kept.drop_last()[k]);
                    assert(kept[k] == before.block_caches@[k]);
                }
            }
            if b > 0 {
                assert(kept[0] == kept.drop_last()[0]);
            }
        }
        b += 1;
    }
    run
}

/// A forward pass from the embedded tokens to the logits. Block `b` is given the memory at
/// its own place, where there are so many offsets.
pub fn forward_with_cache<
    T: Copy,
    O: Arith<T>,
    F,
    A,
    B: Fn(usize, Option<usize>, &Vec<Vec<T>>) -> BlockResult<T, F, A>,
>(
    ops: &O,
    model: &WavePacketModel<T>,
    hidden: Vec<Vec<T>>,
    n_offsets: Option<usize>,
    n_bands: usize,
    tied: bool,
    n_embd: usize,
    block: B,
) -> (cache: ForwardCache<T, F, A>)
    requires
        rows_width(hidden@, n_embd as int),
        blocks_take(*model, n_embd as int),
        decodes(*model, n_bands as int, tied, n_embd as int),
        block_serves(block, model.blocks@.len() as int, hidden@.len() as int, n_embd as int),
    ensures
        cache.block_caches@.len() == model.blocks@.len(),
        next_input(cache.block_caches@, cache.pre_ln_f@, -1) == hidden@,
        chained(*ops, *model, cache.block_caches@, cache.pre_ln_f@),
        forall|b: int|
            0 <= b < cache.block_caches@.len() ==> answered(
                block,
                b,
                memory_of(n_offsets, b),
                #[trigger] cache.block_caches@[b],
            ),
        rows_fit(*ops, normed_rows(cache.pre_ln_f@, model.ln_f), cache.post_ln_f@),
        rows_fit(
            *ops,
            Seq::new(
                cache.post_ln_f@.len(),
                |p: int| decoded(*model, n_bands as int, tied, vals(cache.post_ln_f@[p]@)),
            ),
            cache.logits@,
        ),
{
    let run: ForwardRun<T, F, A> = run_blocks(ops, model, hidden, n_offsets, n_embd, block);
    run.finish(ops, model, n_bands, tied, n_embd)
}

/// A forward pass from wave inputs. There are no logits: the loss is taken in wave space.
pub fn forward_with_cache_from_waves<
    T: Copy,
    O: Arith<T>,
    F,
    A,
    B: Fn(usize, Option<usize>, &Vec<Vec<T>>) -> BlockResult<T, F, A>,
>(
    ops: &O,
    model: &WavePacketModel<T>,
    wave_inputs: Vec<Vec<T>>,
    n_embd: usize,
    block: B,
) -> (cache: ForwardCache<T, F, A>)
    requires
        rows_width(wave_inputs@, n_embd as int),
        blocks_take(*model, n_embd as int),
        block_serves(block, model.blocks@.len() as int, wave_inputs@.len() as int, n_embd as int),
    ensures
        cache.block_caches@.len() == model.blocks@.len(),
        next_input(cache.block_caches@, cache.pre_ln_f@, -1) == wave_inputs@,
        chained(*ops, *model, cache.block_caches@, cache.pre_ln_f@),
        forall|b: int|
            0 <= b < cache.block_caches@.len() ==> answered(
                block,
                b,
                None,
                #[trigger] cache.block_caches@[b],
            ),
        rows_fit(*ops, normed_rows(cache.pre_ln_f@, model.ln_f), cache.post_ln_f@),
        rows_of(cache.logits@) == Seq::new(wave_inputs@.len(), |i: int| Seq::<T>::empty()),
{
    let run: ForwardRun<T, F, A> = run_blocks(ops, model, wave_inputs, None, n_embd, block);
    run.finish_waves(ops, model, n_embd)
}

/// The state that layer `l` starts from.
pub open spec fn state_before<T>(encoded: Seq<T>, per_layer: Seq<Vec<T>>, l: int) -> Seq<T> {
    if l <= 0 {
        encoded
    } else {
        per_layer[l - 1]@
    }
}

/// Layer `l` answered on a state, and its answer was taken over.
pub open spec fn layer_answered<T: Copy, A: Arith<T>, B: Fn(usize, &Vec<T>) -> Vec<T>>(
    ops: A,
    model: WavePacketModel<T>,
    block: B,
    l: int,
    before: Seq<T>,
    after: Seq<T>,
) -> bool {
    exists|x: Vec<T>, y: Vec<T>|
        x@ == before && #[trigger] call_ensures(block, (l as usize, &x), y) && layer_passed(
            ops,
            model,
            l,
            before,
            y@,
            after,
        )
}

/// A state put in at layer `inject_layer` and carried to the end: the result after the final
/// norm, and the state after each layer. Layers before that one are passed over.
pub fn forward_from_layer<T: Copy, A: Arith<T>, B: Fn(usize, &Vec<T>) -> Vec<T>>(
    ops: &A,
    model: &WavePacketModel<T>,
    encoded_state: &[T],
    inject_layer: usize,
    block: B,
) -> (res: (Vec<T>, Vec<Vec<T>>))
    requires
        model.use_layer_scale ==> model.blocks@.len() <= model.layer_scale@.len(),
        encoded_state@.len() <= model.ln_f.weight@.len(),
        encoded_state@.len() <= model.ln_f.bias@.len(),
        forall|l: usize, x: &Vec<T>|
            l < model.blocks@.len() && x@.len() == encoded_state@.len()
                ==> #[trigger] call_requires(block, (l, x)),
        forall|l: usize, x: &Vec<T>, y: Vec<T>|
            l < model.blocks@.len() && #[trigger] call_ensures(block, (l, x), y) ==> y@.len()
                == encoded_state@.len(),
    ensures
        res.1@.len() == model.blocks@.len(),
        forall|l: int|
            0 <= l < res.1@.len() && l < inject_layer ==> (#[trigger] res.1@[l])@ == state_before(
                encoded_state@,
                res.1@,
                l,
            ),
        forall|l: int|
            0 <= l < res.1@.len() && l >= inject_layer ==> layer_answered(
                *ops,
                *model,
                block,
                l,
                state_before(encoded_state@, res.1@, l),
                (#[trigger] res.1@[l])@,
            ),
        fits_all(
            *ops,
            norm_of(
                vals(state_before(encoded_state@, res.1@, res.1@.len() as int)),
                model.ln_f.weight@,
                model.ln_f.bias@,
            ),
            res.0@,
        ),
{
    let n: usize = model.blocks.len();
    let ghost width = encoded_state@.len();
    let mut state: Vec<T> = Vec::new();
    extend_from(&mut state, encoded_state);
    assert(state@ =~= encoded_state@);
    let mut run: InjectRun<T> = InjectRun::new(state);
    let mut l: usize = 0;
    while l < n
        invariant
            n == model.blocks@.len(),
            l <= n,
            width == encoded_state@.len(),
            model.use_layer_scale ==> n <= model.layer_scale@.len(),
            forall|l: usize, x: &Vec<T>|
                l < n && x@.len() == width ==> #[trigger] call_requires(block, (l, x)),
            forall|l: usize, x: &Vec<T>, y: Vec<T>|
                l < n && #[trigger] call_ensures(block, (l, x), y) ==> y@.len() == width,
            run.per_layer@.len() == l,
            run.hidden@.len() == width,
            run.hidden@ == state_before(encoded_state@, run.per_layer@, l as int),
            forall|k: int|
                0 <= k < l && k < inject_layer ==> (#[trigger] run.per_layer@[k])@
                    == state_before(encoded_state@, run.per_layer@, k),
            forall|k: int|
                0 <= k < l && k >= inject_layer ==> layer_answered(
                    *ops,
                    *model,
                    block,
                    k,
                    state_before(encoded_state@, run.per_layer@, k),
                    (#[trigger] run.per_layer@[k])@,
                ),
        decreases n - l,
    {
        let ghost before = run;
        if run.needs_block(inject_layer) {
            let output: Vec<T> = block(l, &run.hidden);
            let ghost answer = output;
            run.take(ops, model, output);
            proof {
                let at = l as int;
                let x = before.hidden;
                assert(x@ == before.hidden@);
                assert(call_ensures(block, (at as usize, &x), answer));
                assert(layer_passed(*ops, *model, at, before.hidden@, answer@, run.hidden@));
                assert(layer_answered(
                    *ops,
                    *model,
                    block,
                    l as int,
                    before.hidden@,
                    run.hidden@,
                ));
            }
        } else {
            run.skip();
        }
        proof {
            let kept = run.per_layer@;
            assert(kept.last() == kept[l as int]);
            assert forall|k: int| 0 <= k < l implies #[trigger] kept[k] == before.per_layer@[k] by {
                assert(kept[k] == kept.drop_last()[k]);
            }
            assert forall|k: int| 0 <= k <= l implies state_before(encoded_state@, kept, k)
                == #[trigger] state_before(encoded_state@, before.per_layer@, k) by {
                if k > 0 {
                    assert(kept[k - 1] == before.per_layer@[k - 1]);
                }
            }
            assert forall|k: int| 0 <= k < l + 1 && k < inject_layer implies (
            #[trigger] kept[k])@ == state_before(encoded_state@, kept, k) by {
                assert(state_before(encoded_state@, kept, k) == state_before(
                    encoded_state@,
                    before.per_layer@,
                    k,
                ));
                if k < l {
                    assert(kept[k] == before.per_layer@[k]);
                }
            }
            assert forall|k: int| 0 <= k < l + 1 && k >= inject_layer implies layer_answered(
                *ops,
                *model,
                block,
                k,
                state_before(encoded_state@, kept, k),
                (#[trigger] kept[k])@,
            ) by {
                assert(state_before(encoded_state@, kept, k) == state_before(
                    encoded_state@,
                    before.per_layer@,
                    k,
                ));
                if k < l {
                    assert(kept[k] == before.per_layer@[k]);
                }
            }
        }
        l += 1;
    }
    let out: Vec<T> = run.finish(ops, model);
    (out, run.per_layer)
}

/// The factor of a block's contribution on the way back.
pub open spec fn back_factor<T>(model: WavePacketModel<T>, d: Dims, layer: int) -> Option<T> {
    if d.use_layer_scale {
        Some(model.layer_scale@[layer])
    } else {
        None
    }
}

/// The gradients start at the decoder.
pub open spec fn started<T: Copy, O: Arith<T>, F, A>(
    ops: O,
    model: WavePacketModel<T>,
    d: Dims,
    temperature: T,
    cache: ForwardCache<T, F, A>,
    targets: Seq<usize>,
    run: BackwardRun<T>,
) -> bool {
    exists|b: DecoderBack<T>, fresh: Gradients<T>|
        #[trigger] starts_with(run, b, fresh) && comes_back(
            ops,
            model,
            d,
            temperature,
            cache.post_ln_f@,
            cache.logits@,
            targets,
            b,
        ) && untouched(ops, model, d, fresh)
}

/// The gradients went back through the final norm.
pub open spec fn final_norm_passed<T: Copy, O: Arith<T>>(
    ops: O,
    before: BackwardRun<T>,
    after: BackwardRun<T>,
    back: NormBack<T>,
) -> bool {
    &&& norm_gained(
        ops,
        before.grads.ln_f_w@,
        before.grads.ln_f_b@,
        after.grads.ln_f_w@,
        after.grads.ln_f_b@,
        back,
    )
    &&& after.d_hidden == back.d_x
    &&& after.loss == before.loss
    &&& after.grads == (Gradients {
        ln_f_w: after.grads.ln_f_w,
        ln_f_b: after.grads.ln_f_b,
        ..before.grads
    })
}

/// The gradients of the factor of block `layer` were added, if it is trained.
pub open spec fn factor_added<T: Copy, O: Arith<T>, F, A>(
    ops: O,
    d: Dims,
    n_blocks: int,
    layer: int,
    c: BlockCache<T, F, A>,
    before: BackwardRun<T>,
    after: BackwardRun<T>,
) -> bool {
    &&& after.d_hidden == before.d_hidden
    &&& after.loss == before.loss
    &&& after.grads == (Gradients { layer_scale: after.grads.layer_scale, ..before.grads })
    &&& if d.use_layer_scale {
        &&& after.grads.layer_scale@.len() == before.grads.layer_scale@.len()
        &&& forall|b: int|
            0 <= b < n_blocks && b != layer ==> #[trigger] after.grads.layer_scale@[b]
                == before.grads.layer_scale@[b]
        &&& fits(
            ops,
            plus(
                val(before.grads.layer_scale@[layer]),
                factor_grad(before.d_hidden@, c.attn_out@, c.ffn_out@, d.n_embd as int),
            ),
            after.grads.layer_scale@[layer],
        )
    } else {
        after.grads == before.grads
    }
}

/// The gradients of the feed-forward part of block `layer` were added.
pub open spec fn ffn_added<T: Copy, O: Arith<T>>(
    ops: O,
    layer: int,
    f: FfnBlockGrads<T>,
    before: BackwardRun<T>,
    after: BackwardRun<T>,
) -> bool {
    &&& ffn_gained(ops, before.grads, after.grads, layer, f)
    &&& after.d_hidden == before.d_hidden
    &&& after.loss == before.loss
}

/// The gradients went back through the norm of block `layer` and past it.
pub open spec fn block_norm_passed<T: Copy, O: Arith<T>>(
    ops: O,
    n_blocks: int,
    layer: int,
    back: NormBack<T>,
    before: BackwardRun<T>,
    after: BackwardRun<T>,
) -> bool {
    &&& norm_gained(
        ops,
        before.grads.block_ln_w@[layer]@,
        before.grads.block_ln_b@[layer]@,
        after.grads.block_ln_w@[layer]@,
        after.grads.block_ln_b@[layer]@,
        back,
    )
    &&& forall|b: int|
        0 <= b < n_blocks && b != layer ==> #[trigger] after.grads.block_ln_w@[b]
            == before.grads.block_ln_w@[b]
    &&& forall|b: int|
        0 <= b < n_blocks && b != layer ==> #[trigger] after.grads.block_ln_b@[b]
            == before.grads.block_ln_b@[b]
    &&& rows_fit(ops, row_sums(back.d_x@, before.d_hidden@), after.d_hidden@)
    &&& after.loss == before.loss
    &&& after.grads == (Gradients {
        block_ln_w: after.grads.block_ln_w,
        block_ln_b: after.grads.block_ln_b,
        ..before.grads
    })
}

/// The way back through one block: what was asked of the feed-forward part and of the norm,
/// what they answered, and where their answers went.
pub open spec fn block_steps<
    T: Copy,
    O: Arith<T>,
    F,
    A,
    N: Fn(&Vec<Vec<T>>, &Vec<Vec<T>>, &LayerNormWeights<T>) -> NormBack<T>,
    B: Fn(usize, &BlockCache<T, F, A>, &Vec<Vec<T>>) -> (Vec<Vec<T>>, FfnBlockGrads<T>),
>(
    ops: O,
    model: WavePacketModel<T>,
    d: Dims,
    layer: int,
    c: BlockCache<T, F, A>,
    norm_back: N,
    ffn_back: B,
    before: BackwardRun<T>,
    contribution: Vec<Vec<T>>,
    scaled: BackwardRun<T>,
    got: (Vec<Vec<T>>, FfnBlockGrads<T>),
    fed: BackwardRun<T>,
    back: NormBack<T>,
    after: BackwardRun<T>,
) -> bool {
    let n = model.blocks@.len() as int;
    &&& rows_fit(
        ops,
        scaled_rows(before.d_hidden@, back_factor(model, d, layer)),
        contribution@,
    )
    &&& factor_added(ops, d, n, layer, c, before, scaled)
    &&& call_ensures(ffn_back, (layer as usize, &c, &contribution), got)
    &&& ffn_added(ops, layer, got.1, scaled, fed)
    &&& call_ensures(norm_back, (&got.0, &c.input, &model.blocks@[layer].ln), back)
    &&& block_norm_passed(ops, n, layer, back, fed, after)
}

/// The gradients went back through block `layer`.
pub open spec fn block_passed<
    T: Copy,
    O: Arith<T>,
    F,
    A,
    N: Fn(&Vec<Vec<T>>, &Vec<Vec<T>>, &LayerNormWeights<T>) -> NormBack<T>,
    B: Fn(usize, &BlockCache<T, F, A>, &Vec<Vec<T>>) -> (Vec<Vec<T>>, FfnBlockGrads<T>),
>(
    ops: O,
    model: WavePacketModel<T>,
    d: Dims,
    layer: int,
    c: BlockCache<T, F, A>,
    norm_back: N,
    ffn_back: B,
    before: BackwardRun<T>,
    after: BackwardRun<T>,
) -> bool {
    exists|
        contribution: Vec<Vec<T>>,
        scaled: BackwardRun<T>,
        got: (Vec<Vec<T>>, FfnBlockGrads<T>),
        fed: BackwardRun<T>,
        back: NormBack<T>,
    |
        #[trigger] block_steps(
            ops,
            model,
            d,
            layer,
            c,
            norm_back,
            ffn_back,
            before,
            contribution,
            scaled,
            got,
            fed,
            back,
            after,
        )
}

/// A whole way back, stage by stage: the decoder, the final norm, then the blocks from the
/// last to the first.
pub open spec fn went_back<
    T: Copy,
    O: Arith<T>,
    F,
    A,
    N: Fn(&Vec<Vec<T>>, &Vec<Vec<T>>, &LayerNormWeights<T>) -> NormBack<T>,
    B: Fn(usize, &BlockCache<T, F, A>, &Vec<Vec<T>>) -> (Vec<Vec<T>>, FfnBlockGrads<T>),
>(
    ops: O,
    model: WavePacketModel<T>,
    d: Dims,
    temperature: T,
    cache: ForwardCache<T, F, A>,
    targets: Seq<usize>,
    norm_back: N,
    ffn_back: B,
    back: NormBack<T>,
    stages: Seq<BackwardRun<T>>,
) -> bool {
    let n = model.blocks@.len() as int;
    &&& stages.len() == n + 2
    &&& started(ops, model, d, temperature, cache, targets, stages[0])
    &&& call_ensures(norm_back, (&stages[0].d_hidden, &cache.pre_ln_f, &model.ln_f), back)
    &&& final_norm_passed(ops, stages[0], stages[1], back)
    &&& forall|k: int|
        1 <= k <= n ==> block_passed(
            ops,
            model,
            d,
            n - k,
            cache.block_caches@[n - k],
            norm_back,
            ffn_back,
            #[trigger] stages[k],
            stages[k + 1],
        )
}

/// What the cache of a pass over `t` positions has to hold.
pub open spec fn cache_whole<T, F, A>(
    model: WavePacketModel<T>,
    d: Dims,
    cache: ForwardCache<T, F, A>,
    t: int,
) -> bool {
    &&& cache.block_caches@.len() == model.blocks@.len()
    &&& cache.post_ln_f@.len() == t
    &&& rows_width(cache.post_ln_f@, d.n_embd as int)
    &&& cache.pre_ln_f@.len() == t
    &&& rows_width(cache.pre_ln_f@, d.n_embd as int)
    &&& forall|b: int| 0 <= b < cache.block_caches@.len() ==> block_whole(
        #[trigger] cache.block_caches@[b],
        t,
        d.n_embd as int,
    )
}

/// What is kept of a block covers `t` positions.
pub open spec fn block_whole<T, F, A>(c: BlockCache<T, F, A>, t: int, n: int) -> bool {
    &&& c.input@.len() == t
    &&& rows_width(c.input@, n)
    &&& t <= c.attn_out@.len()
    &&& t <= c.ffn_out@.len()
    &&& forall|p: int| 0 <= p < t ==> n <= (#[trigger] c.attn_out@[p])@.len()
    &&& forall|p: int| 0 <= p < t ==> n <= (#[trigger] c.ffn_out@[p])@.len()
}

/// The way back through a norm can be asked about states of `t` positions, and answers for
/// each of them.
pub open spec fn norm_serves<
    T,
    N: Fn(&Vec<Vec<T>>, &Vec<Vec<T>>, &LayerNormWeights<T>) -> NormBack<T>,
>(norm_back: N, t: int, n: int) -> bool {
    &&& forall|g: &Vec<Vec<T>>, x: &Vec<Vec<T>>, w: &LayerNormWeights<T>|
        g@.len() == t && x@.len() == t && rows_width(g@, n) && rows_width(x@, n)
            ==> #[trigger] call_requires(norm_back, (g, x, w))
    &&& forall|g: &Vec<Vec<T>>, x: &Vec<Vec<T>>, w: &LayerNormWeights<T>, r: NormBack<T>|
        #[trigger] call_ensures(norm_back, (g, x, w), r) ==> r.shaped(t, n)
}

/// The way back through a feed-forward part can be asked about every block of a pass, and
/// answers with gradients that fit the block.
pub open spec fn ffn_serves<
    T,
    F,
    A,
    B: Fn(usize, &BlockCache<T, F, A>, &Vec<Vec<T>>) -> (Vec<Vec<T>>, FfnBlockGrads<T>),
>(ffn_back: B, cache: ForwardCache<T, F, A>, d: Dims, n_blocks: int, t: int) -> bool {
    &&& forall|b: usize, c: &BlockCache<T, F, A>, g: &Vec<Vec<T>>|
        b < n_blocks && *c == cache.block_caches@[b as int] && g@.len() == t && rows_width(
            g@,
            d.n_embd as int,
        ) ==> #[trigger] call_requires(ffn_back, (b, c, g))
    &&& forall|
        b: usize,
        c: &BlockCache<T, F, A>,
        g: &Vec<Vec<T>>,
        r: (Vec<Vec<T>>, FfnBlockGrads<T>),
    |
        b < n_blocks && #[trigger] call_ensures(ffn_back, (b, c, g), r) ==> {
            &&& r.0@.len() == t
            &&& rows_width(r.0@, d.n_embd as int)
            &&& forall|grads: Gradients<T>|
                #[trigger] grads.blocks_shaped(n_blocks, d) ==> ffn_grads_match(
                    grads,
                    r.1,
                    b as int,
                )
        }
}

/// One block on the way back.
fn back_through<
    T: Copy,
    O: Arith<T>,
    F,
    A,
    N: Fn(&Vec<Vec<T>>, &Vec<Vec<T>>, &LayerNormWeights<T>) -> NormBack<T>,
    B: Fn(usize, &BlockCache<T, F, A>, &Vec<Vec<T>>) -> (Vec<Vec<T>>, FfnBlockGrads<T>),
>(
    ops: &O,
    model: &WavePacketModel<T>,
    d: Dims,
    cache: &ForwardCache<T, F, A>,
    layer: usize,
    norm_back: &N,
    ffn_back: &B,
    run: &mut BackwardRun<T>,
    Ghost(t): Ghost<int>,
)
    requires
        layer < model.blocks@.len(),
        d.use_layer_scale ==> model.blocks@.len() <= model.layer_scale@.len(),
        cache_whole(*model, d, *cache, t),
        norm_serves(*norm_back, t, d.n_embd as int),
        ffn_serves(*ffn_back, *cache, d, model.blocks@.len() as int, t),
        old(run).sound(model.blocks@.len() as int, d, t),
    ensures
        block_passed(
            *ops,
            *model,
            d,
            layer as int,
            cache.block_caches@[layer as int],
            *norm_back,
            *ffn_back,
            *old(run),
            *final(run),
        ),
        final(run).sound(model.blocks@.len() as int, d, t),
{
    let n: usize = model.blocks.len();
    let c: &BlockCache<T, F, A> = &cache.block_caches[layer];
    assert(block_whole(cache.block_caches@[layer as int], t, d.n_embd as int));
    let factor: Option<T> = if d.use_layer_scale {
        Some(model.layer_scale[layer])
    } else {
        None
    };
    let ghost before = *run;
    let contribution: Vec<Vec<T>> = run.contribution(ops, factor);
    run.add_factor(ops, d, n, layer, &c.attn_out, &c.ffn_out);
    let ghost scaled = *run;
    let got: (Vec<Vec<T>>, FfnBlockGrads<T>) = ffn_back(layer, c, &contribution);
    let ghost answer = got;
    run.add_ffn(ops, d, n, layer, &got.1);
    let ghost fed = *run;
    let back: NormBack<T> = norm_back(&got.0, &c.input, &model.blocks[layer].ln);
    let ghost gradients = back;
    run.block_norm(ops, d, n, layer, back);
    assert(block_steps(
        *ops,
        *model,
        d,
        layer as int,
        *c,
        *norm_back,
        *ffn_back,
        before,
        contribution,
        scaled,
        answer,
        fed,
        gradients,
        *run,
    ));
}

/// The way back through a whole model: the loss and the gradients of all parameters.
/// `norm_back` differentiates a normalisation, `ffn_back` the feed-forward part of a block;
/// attention is left as it is.
pub fn backward<
    T: Copy,
    O: Arith<T>,
    F,
    A,
    N: Fn(&Vec<Vec<T>>, &Vec<Vec<T>>, &LayerNormWeights<T>) -> NormBack<T>,
    B: Fn(usize, &BlockCache<T, F, A>, &Vec<Vec<T>>) -> (Vec<Vec<T>>, FfnBlockGrads<T>),
>(
    ops: &O,
    model: &WavePacketModel<T>,
    cache: &ForwardCache<T, F, A>,
    targets: &[usize],
    d: Dims,
    phase_temp: T,
    norm_back: N,
    ffn_back: B,
) -> (res: (T, Gradients<T>))
    requires
        d.lm_rank == model.lm_rank,
        d.use_layer_scale ==> model.blocks@.len() <= model.layer_scale@.len(),
        decodes(*model, d.n_bands as int, d.tied, d.n_embd as int),
        back_width(*model, d) == d.n_embd,
        cache_whole(*model, d, *cache, cache.post_ln_f@.len() as int),
        cache.post_ln_f@.len() <= targets@.len(),
        model.phase_native ==> forall|p: int|
            0 <= p < cache.post_ln_f@.len() ==> (#[trigger] targets@[p]) < model.wte@.len(),
        !model.phase_native ==> {
            &&& cache.logits@.len() == cache.post_ln_f@.len()
            &&& rows_width(cache.logits@, scored_tokens(*model, d.tied))
            &&& forall|p: int|
                0 <= p < cache.post_ln_f@.len() ==> (#[trigger] targets@[p]) < scored_tokens(
                    *model,
                    d.tied,
                )
        },
        norm_serves(norm_back, cache.post_ln_f@.len() as int, d.n_embd as int),
        ffn_serves(
            ffn_back,
            *cache,
            d,
            model.blocks@.len() as int,
            cache.post_ln_f@.len() as int,
        ),
    ensures
        exists|temperature: T, back: NormBack<T>, stages: Seq<BackwardRun<T>>|
            {
                &&& fits(
                    *ops,
                    pick(Test::Exceeds, val(phase_temp), zero(), val(phase_temp), one()),
                    temperature,
                )
                &&& #[trigger] went_back(
                    *ops,
                    *model,
                    d,
                    temperature,
                    *cache,
                    targets@,
                    norm_back,
                    ffn_back,
                    back,
                    stages,
                )
                &&& res.0 == stages.last().loss
                &&& res.1 == stages.last().grads
            },
{
    let n: usize = model.blocks.len();
    let ghost t = cache.post_ln_f@.len() as int;
    let temperature: T = loss_temperature(ops, phase_temp);
    let mut run: BackwardRun<T> = start(
        ops,
        model,
        d,
        temperature,
        &cache.post_ln_f,
        &cache.logits,
        targets,
    );
    assert(run.sound(n as int, d, t));
    let ghost mut stages: Seq<BackwardRun<T>> = seq![run];
    let back: NormBack<T> = norm_back(&run.d_hidden, &cache.pre_ln_f, &model.ln_f);
    let ghost first_back = back;
    run.final_norm(ops, d, n, back);
    proof {
        stages = stages.push(run);
    }
    let mut left: usize = n;
    while left > 0
        invariant
            n == model.blocks@.len(),
            left <= n,
            d.use_layer_scale ==> n <= model.layer_scale@.len(),
            cache_whole(*model, d, *cache, t),
            norm_serves(norm_back, t, d.n_embd as int),
            ffn_serves(ffn_back, *cache, d, n as int, t),
            run.sound(n as int, d, t),
            stages.len() == n - left + 2,
            stages.last() == run,
            started(*ops, *model, d, temperature, *cache, targets@, stages[0]),
            call_ensures(norm_back, (&stages[0].d_hidden, &cache.pre_ln_f, &model.ln_f), first_back),
            final_norm_passed(*ops, stages[0], stages[1], first_back),
            forall|k: int|
                1 <= k <= n - left ==> block_passed(
                    *ops,
                    *model,
                    d,
                    n - k,
                    cache.block_caches@[n - k],
                    norm_back,
                    ffn_back,
                    #[trigger] stages[k],
                    stages[k + 1],
                ),
        decreases left,
    {
        let layer: usize = left - 1;
        let ghost before = stages;
        back_through(ops, model, d, cache, layer, &norm_back, &ffn_back, &mut run, Ghost(t));
        proof {
            stages = stages.push(run);
            assert forall|k: int| 1 <= k <= n - layer implies block_passed(
                *ops,
                *model,
                d,
                n - k,
                cache.block_caches@[n - k],
                norm_back,
                ffn_back,
                #[trigger] stages[k],
                stages[k + 1],
            ) by {
                assert(stages[k] == before[k]);
                if k < n - layer {
                    assert(stages[k + 1] == before[k + 1]);
                }
            }
        }
        left = layer;
    }
    proof {
        assert(went_back(
            *ops,
            *model,
            d,
            temperature,
            *cache,
            targets@,
            norm_back,
            ffn_back,
            first_back,
            stages,
        ));
    }
    (run.loss, run.grads)
}

} // verus!
