//! Walking a forward pass: which memory a block gets, what is kept for the backward
//! pass, and how the last state becomes logits.

use vstd::prelude::*;
use crate::arith::{Arith, Traced, TracedVec};
#[allow(unused_imports)]
use crate::arith::{Expr, fits_all, one, plus, times, val, vals};
#[allow(unused_imports)]
use crate::attention::rows_fit;
use crate::decoder::decode;
#[allow(unused_imports)]
use crate::decoder::{decoded, decodes};
use crate::layers::layer_norm;
#[allow(unused_imports)]
use crate::layers::norm_of;
use crate::model::FfnKind;
use crate::seqs::extend_from;
#[allow(unused_imports)]
use crate::seqs::rows_width;
use crate::wave_model::WavePacketModel;
use crate::weights::LayerNormWeights;

verus! {

/// Whether a block integrates the ODE.
pub open spec fn integrates(kind: FfnKind) -> bool {
    kind != FfnKind::PerBand
}

/// Number of blocks that integrate, among the first `n`.
pub open spec fn ode_layers(kinds: Seq<FfnKind>, n: int) -> int
    decreases n,
{
    if n <= 0 {
        0
    } else {
        ode_layers(kinds, n - 1) + (if integrates(kinds[n - 1]) {
            1int
        } else {
            0
        })
    }
}

/// What a block of a forward pass with memory does: the memory offset it adds to its
/// initial state, and the place of its final state among those that are kept.
#[derive(Clone, Copy, Debug, PartialEq, Eq, Structural)]
pub struct BlockPlan {
    pub kind: FfnKind,
    pub memory: Option<usize>,
    pub state: Option<usize>,
}

/// The plan of block `i`: memory and states are counted over the blocks that
/// integrate.
pub open spec fn block_plan(kinds: Seq<FfnKind>, n_offsets: int, i: int) -> BlockPlan {
    let at = ode_layers(kinds, i);
    BlockPlan {
        kind: kinds[i],
        memory: if integrates(kinds[i]) && at < n_offsets {
            Some(at as usize)
        } else {
            None
        },
        state: if integrates(kinds[i]) {
            Some(at as usize)
        } else {
            None
        },
    }
}

/// The plan of a forward pass. `offsets` is the number of memory offsets, if there is a
/// memory.
pub fn forward_plan(kinds: &[FfnKind], offsets: Option<usize>) -> (plan: Vec<BlockPlan>)
    ensures
        plan@ == Seq::new(
            kinds@.len(),
            |i: int|
                block_plan(
                    kinds@,
                    match offsets {
                        Some(n) => n as int,
                        None => 0,
                    },
                    i,
                ),
        ),
{
    let n_offsets: usize = match offsets {
        Some(n) => n,
        None => 0,
    };
    let n: usize = kinds.len();
    let mut plan: Vec<BlockPlan> = Vec::new();
    let mut at: usize = 0;
    let mut i: usize = 0;
    while i < n
        invariant
            n == kinds@.len(),
            i <= n,
            at <= i,
            at == ode_layers(kinds@, i as int),
            plan@ == Seq::new(i as nat, |k: int| block_plan(kinds@, n_offsets as int, k)),
        decreases n - i,
    {
        let kind: FfnKind = kinds[i];
        if kind == FfnKind::PerBand {
            plan.push(BlockPlan { kind, memory: None, state: None });
        } else {
            let memory: Option<usize> = if at < n_offsets {
                Some(at)
            } else {
                None
            };
            plan.push(BlockPlan { kind, memory, state: Some(at) });
            at += 1;
        }
        i += 1;
        assert(plan@ =~= Seq::new(i as nat, |k: int| block_plan(kinds@, n_offsets as int, k)));
    }
    assert(plan@ =~= Seq::new(
        kinds@.len(),
        |i: int|
            block_plan(
                kinds@,
                match offsets {
                    Some(n) => n as int,
                    None => 0,
                },
                i,
            ),
    ));
    plan
}

/// Later blocks have no fewer ODE layers before them.
pub proof fn lemma_ode_layers_grow(kinds: Seq<FfnKind>, i: int, j: int)
    requires
        0 <= i <= j,
    ensures
        0 <= ode_layers(kinds, i) <= ode_layers(kinds, j) <= j,
    decreases j,
{
    if i < j {
        lemma_ode_layers_grow(kinds, i, j - 1);
    } else if j > 0 {
        lemma_ode_layers_grow(kinds, i - 1, j - 1);
    }
}

/// Every block that integrates keeps its own state and reads its own memory: no place
/// is used twice, the places count up, and a memory offset goes to the block whose
/// state it came from.
pub proof fn law_each_layer_has_its_own_memory(
    kinds: Seq<FfnKind>,
    n_offsets: int,
    i: int,
    j: int,
)
    requires
        0 <= i < j < kinds.len(),
        kinds.len() <= usize::MAX,
        integrates(kinds[i]),
        integrates(kinds[j]),
    ensures
        block_plan(kinds, n_offsets, i).state matches Some(a) && block_plan(
            kinds,
            n_offsets,
            j,
        ).state matches Some(b) && a < b,
        block_plan(kinds, n_offsets, i).memory matches Some(a) ==> block_plan(
            kinds,
            n_offsets,
            i,
        ).state == Some(a),
        block_plan(kinds, n_offsets, j).memory is Some ==> block_plan(kinds, n_offsets, i).memory
            is Some,
{
    lemma_ode_layers_grow(kinds, 0, i);
    lemma_ode_layers_grow(kinds, i + 1, j);
}

/// Without memory no block gets an offset.
pub proof fn law_no_memory_without_offsets(kinds: Seq<FfnKind>, i: int)
    requires
        0 <= i < kinds.len(),
    ensures
        block_plan(kinds, 0, i).memory is None,
{
    lemma_ode_layers_grow(kinds, 0, i);
}

/// The memory offset of a layer of the wave model: the one with its index, if there is
/// one.
pub fn layer_offset(n_offsets: Option<usize>, layer: usize) -> (at: Option<usize>)
    ensures
        at == (match n_offsets {
            Some(n) => if layer < n {
                Some(layer)
            } else {
                None
            },
            None => None,
        }),
{
    match n_offsets {
        Some(n) => if layer < n {
            Some(layer)
        } else {
            None
        },
        None => None,
    }
}

/// What is kept of one block for the backward pass.
pub struct BlockCache<T, F, A> {
    pub input: Vec<Vec<T>>,
    pub normed: Vec<Vec<T>>,
    pub normed_ffn: Vec<Vec<T>>,
    pub attn_out: Vec<Vec<T>>,
    pub ffn_out: Vec<Vec<T>>,
    pub att_weights: Vec<Vec<Vec<T>>>,
    pub ffn_backend_cache: Option<F>,
    pub ffn_mae_in_sq: Vec<Vec<T>>,
    pub ffn_mae_in_act: Vec<Vec<T>>,
    pub ffn_precond: Vec<Vec<T>>,
    pub ffn_kerr_out: Vec<Vec<T>>,
    pub ffn_mae_out_sq: Vec<Vec<T>>,
    pub ffn_mae_out_act: Vec<Vec<T>>,
    pub ffn_regulated: Vec<Vec<T>>,
    pub attn_pathway: Option<A>,
}

/// What is kept of a forward pass.
pub struct ForwardCache<T, F, A> {
    pub block_caches: Vec<BlockCache<T, F, A>>,
    pub pre_ln_f: Vec<Vec<T>>,
    pub post_ln_f: Vec<Vec<T>>,
    pub logits: Vec<Vec<T>>,
}

/// What the two parts of a block computed on its normalised input.
pub struct BlockResult<T, F, A> {
    pub attn_out: Vec<Vec<T>>,
    pub ffn_out: Vec<Vec<T>>,
    pub att_weights: Vec<Vec<Vec<T>>>,
    pub ffn_cache: F,
    pub attn_cache: Option<A>,
}

/// The rows of a matrix.
pub open spec fn rows_of<T>(m: Seq<Vec<T>>) -> Seq<Seq<T>> {
    m.map_values(|r: Vec<T>| r@)
}

fn copy_rows<T: Copy>(m: &Vec<Vec<T>>) -> (out: Vec<Vec<T>>)
    ensures
        rows_of(out@) == rows_of(m@),
{
    let n: usize = m.len();
    let mut out: Vec<Vec<T>> = Vec::new();
    let mut i: usize = 0;
    while i < n
        invariant
            n == m@.len(),
            i <= n,
            rows_of(out@) == rows_of(m@).take(i as int),
        decreases n - i,
    {
        let mut row: Vec<T> = Vec::new();
        extend_from(&mut row, &m[i]);
        assert(row@ =~= m@[i as int]@);
        let ghost before = rows_of(out@);
        out.push(row);
        assert(rows_of(out@) =~= before.push(row@));
        i += 1;
        assert(rows_of(m@).take(i as int) =~= rows_of(m@).take(i - 1).push(m@[i - 1]@));
    }
    assert(rows_of(m@).take(n as int) =~= rows_of(m@));
    out
}

/// Normalised rows.
pub open spec fn normed_rows<T>(x: Seq<Vec<T>>, ln: LayerNormWeights<T>) -> Seq<Seq<Expr<T>>> {
    Seq::new(x.len(), |p: int| norm_of(vals(x[p]@), ln.weight@, ln.bias@))
}

fn normed_rows_on<T: Copy, O: Arith<T>>(
    ops: &O,
    x: &Vec<Vec<T>>,
    ln: &LayerNormWeights<T>,
    n_embd: usize,
) -> (out: Vec<Vec<T>>)
    requires
        rows_width(x@, n_embd as int),
        n_embd <= ln.weight@.len(),
        n_embd <= ln.bias@.len(),
    ensures
        rows_fit(*ops, normed_rows(x@, *ln), out@),
        rows_width(out@, n_embd as int),
{
    let t: usize = x.len();
    let ghost want = normed_rows(x@, *ln);
    let mut out: Vec<Vec<T>> = Vec::new();
    let mut p: usize = 0;
    while p < t
        invariant
            t == x@.len(),
            rows_width(x@, n_embd as int),
            n_embd <= ln.weight@.len(),
            n_embd <= ln.bias@.len(),
            want == normed_rows(x@, *ln),
            p <= t,
            out@.len() == p,
            rows_width(out@, n_embd as int),
            forall|i: int| 0 <= i < p ==> fits_all(*ops, want[i], (#[trigger] out@[i])@),
        decreases t - p,
    {
        assert(x@[p as int]@.len() == n_embd);
        let row: Vec<T> = layer_norm(ops, &x[p], &ln.weight, &ln.bias);
        out.push(row);
        p += 1;
    }
    out
}

/// The factor of a block's contribution: its own, where layers are scaled, else one.
pub open spec fn layer_factor<T>(model: WavePacketModel<T>, layer: int) -> Expr<T> {
    if model.use_layer_scale {
        val(model.layer_scale@[layer])
    } else {
        one()
    }
}

/// The factor of a block's contribution, traced.
pub fn layer_factor_on<T: Copy, O: Arith<T>>(ops: &O, model: &WavePacketModel<T>, layer: usize) -> (out:
    Traced<T>)
    requires
        model.use_layer_scale ==> layer < model.layer_scale@.len(),
    ensures
        out.ok(*ops),
        out.e@ == layer_factor(*model, layer as int),
{
    if model.use_layer_scale {
        Traced::of(ops, model.layer_scale[layer])
    } else {
        Traced::ratio(ops, 1, 1)
    }
}

/// What a block hands on: its input and, times a factor, what its two parts computed.
pub open spec fn residual_of<T>(
    h: Seq<T>,
    attn: Seq<T>,
    ffn: Seq<T>,
    factor: Expr<T>,
) -> Seq<Expr<T>> {
    Seq::new(
        h.len(),
        |j: int| plus(val(h[j]), times(factor, plus(val(attn[j]), val(ffn[j])))),
    )
}

/// What a block hands on at every position.
pub open spec fn residual_rows<T>(
    h: Seq<Vec<T>>,
    attn: Seq<Vec<T>>,
    ffn: Seq<Vec<T>>,
    factor: Expr<T>,
) -> Seq<Seq<Expr<T>>> {
    Seq::new(h.len(), |p: int| residual_of(h[p]@, attn[p]@, ffn[p]@, factor))
}

/// The parts of a block cover `t` positions of `n` components.
pub open spec fn parts_cover<T, F, A>(r: BlockResult<T, F, A>, t: int, n: int) -> bool {
    &&& t <= r.attn_out@.len()
    &&& t <= r.ffn_out@.len()
    &&& forall|p: int| 0 <= p < t ==> n <= (#[trigger] r.attn_out@[p])@.len()
    &&& forall|p: int| 0 <= p < t ==> n <= (#[trigger] r.ffn_out@[p])@.len()
}

fn residual_rows_on<T: Copy, O: Arith<T>>(
    ops: &O,
    h: &Vec<Vec<T>>,
    attn: &Vec<Vec<T>>,
    ffn: &Vec<Vec<T>>,
    factor: Traced<T>,
    n: usize,
) -> (out: Vec<Vec<T>>)
    requires
        factor.ok(*ops),
        rows_width(h@, n as int),
        h@.len() <= attn@.len(),
        h@.len() <= ffn@.len(),
        forall|p: int| 0 <= p < h@.len() ==> n <= (#[trigger] attn@[p])@.len(),
        forall|p: int| 0 <= p < h@.len() ==> n <= (#[trigger] ffn@[p])@.len(),
    ensures
        rows_fit(*ops, residual_rows(h@, attn@, ffn@, factor.e@), out@),
        rows_width(out@, n as int),
{
    let t: usize = h.len();
    let ghost want = residual_rows(h@, attn@, ffn@, factor.e@);
    let mut out: Vec<Vec<T>> = Vec::new();
    let mut p: usize = 0;
    while p < t
        invariant
            factor.ok(*ops),
            t == h@.len(),
            rows_width(h@, n as int),
            t <= attn@.len(),
            t <= ffn@.len(),
            forall|p: int| 0 <= p < h@.len() ==> n <= (#[trigger] attn@[p])@.len(),
            forall|p: int| 0 <= p < h@.len() ==> n <= (#[trigger] ffn@[p])@.len(),
            want == residual_rows(h@, attn@, ffn@, factor.e@),
            p <= t,
            out@.len() == p,
            rows_width(out@, n as int),
            forall|i: int| 0 <= i < p ==> fits_all(*ops, want[i], (#[trigger] out@[i])@),
        decreases t - p,
    {
        assert(h@[p as int]@.len() == n);
        assert(n <= attn@[p as int]@.len());
        assert(n <= ffn@[p as int]@.len());
        let (hp, ap, fp) = (&h[p], &attn[p], &ffn[p]);
        let ghost es = want[p as int];
        let mut row: TracedVec<T> = TracedVec::new(ops);
        let mut j: usize = 0;
        assert(row.e@ =~= es.take(0));
        while j < n
            invariant
                factor.ok(*ops),
                hp@.len() == n,
                n <= ap@.len(),
                n <= fp@.len(),
                es == residual_of(hp@, ap@, fp@, factor.e@),
                j <= n,
                row.ok(*ops),
                row.e@ == es.take(j as int),
            decreases n - j,
        {
            let both: Traced<T> = Traced::of(ops, ap[j]).plus(ops, Traced::of(ops, fp[j]));
            row.push(ops, Traced::of(ops, hp[j]).plus(ops, factor.times(ops, both)));
            j += 1;
            assert(row.e@ =~= es.take(j as int));
        }
        assert(es.take(n as int) =~= es);
        out.push(row.v);
        p += 1;
    }
    out
}

/// A forward pass on its way through the blocks: what was kept of the blocks behind it, the
/// present state, and that state normalised for the block ahead.
pub struct ForwardRun<T, F, A> {
    pub block_caches: Vec<BlockCache<T, F, A>>,
    pub hidden: Vec<Vec<T>>,
    pub normed: Vec<Vec<T>>,
}

/// The cache of a block that ran on `input`: what its parts computed, with what the
/// backend's own cache replaces left empty.
pub open spec fn caches<T, F, A>(
    c: BlockCache<T, F, A>,
    input: Vec<Vec<T>>,
    normed: Vec<Vec<T>>,
    r: BlockResult<T, F, A>,
) -> bool {
    &&& c.input == input
    &&& c.normed == normed
    &&& rows_of(c.normed_ffn@) == rows_of(normed@)
    &&& c.attn_out == r.attn_out
    &&& c.ffn_out == r.ffn_out
    &&& c.att_weights == r.att_weights
    &&& c.ffn_backend_cache == Some(r.ffn_cache)
    &&& c.ffn_mae_in_sq@.len() == 0
    &&& c.ffn_mae_in_act@.len() == 0
    &&& c.ffn_precond@.len() == 0
    &&& c.ffn_kerr_out@.len() == 0
    &&& c.ffn_mae_out_sq@.len() == 0
    &&& c.ffn_mae_out_act@.len() == 0
    &&& c.ffn_regulated@.len() == 0
    &&& c.attn_pathway == r.attn_cache
}

/// The cache of block `b` tells how `next` came about.
pub open spec fn block_tells<T: Copy, O: Arith<T>, F, A>(
    ops: O,
    model: WavePacketModel<T>,
    c: BlockCache<T, F, A>,
    b: int,
    next: Seq<Vec<T>>,
) -> bool {
    &&& rows_fit(ops, normed_rows(c.input@, model.blocks@[b].ln), c.normed@)
    &&& rows_fit(
        ops,
        residual_rows(c.input@, c.attn_out@, c.ffn_out@, layer_factor(model, b)),
        next,
    )
}

/// The input of the block after block `b`: kept with that block, or the present state.
pub open spec fn next_input<T, F, A>(
    kept: Seq<BlockCache<T, F, A>>,
    hidden: Seq<Vec<T>>,
    b: int,
) -> Seq<Vec<T>> {
    if b + 1 < kept.len() {
        kept[b + 1].input@
    } else {
        hidden
    }
}

/// What was kept tells how every state came about, from block to block up to the present
/// one.
pub open spec fn chained<T: Copy, O: Arith<T>, F, A>(
    ops: O,
    model: WavePacketModel<T>,
    kept: Seq<BlockCache<T, F, A>>,
    hidden: Seq<Vec<T>>,
) -> bool {
    forall|b: int|
        0 <= b < kept.len() ==> block_tells(
            ops,
            model,
            #[trigger] kept[b],
            b,
            next_input(kept, hidden, b),
        )
}

/// A model whose blocks take states of `n` components.
pub open spec fn blocks_take<T>(model: WavePacketModel<T>, n: int) -> bool {
    &&& forall|b: int|
        0 <= b < model.blocks@.len() ==> n <= (#[trigger] model.blocks@[b]).ln.weight@.len()
            && n <= model.blocks@[b].ln.bias@.len()
    &&& model.use_layer_scale ==> model.blocks@.len() <= model.layer_scale@.len()
    &&& n <= model.ln_f.weight@.len()
    &&& n <= model.ln_f.bias@.len()
}

impl<T: Copy, F, A> ForwardRun<T, F, A> {
    /// A pass in good order: the states are `n` wide and what was kept tells how they came
    /// about.
    pub open spec fn sound<O: Arith<T>>(&self, ops: O, model: WavePacketModel<T>, n: int) -> bool {
        &&& rows_width(self.hidden@, n)
        &&& self.block_caches@.len() <= model.blocks@.len()
        &&& chained(ops, model, self.block_caches@, self.hidden@)
    }

    /// The present state is normalised for the block ahead.
    pub open spec fn ready<O: Arith<T>>(&self, ops: O, model: WavePacketModel<T>) -> bool {
        &&& self.block_caches@.len() < model.blocks@.len()
        &&& rows_fit(
            ops,
            normed_rows(self.hidden@, model.blocks@[self.block_caches@.len() as int].ln),
            self.normed@,
        )
    }

    /// Starts a pass on the embedded tokens or on waves.
    pub fn new<O: Arith<T>>(ops: &O, model: &WavePacketModel<T>, hidden: Vec<Vec<T>>, n_embd: usize) -> (run:
        Self)
        requires
            rows_width(hidden@, n_embd as int),
        ensures
            run.block_caches@.len() == 0,
            run.hidden == hidden,
            run.sound(*ops, *model, n_embd as int),
    {
        ForwardRun { block_caches: Vec::new(), hidden, normed: Vec::new() }
    }

    /// Normalises the present state for the block ahead, whose two parts both work on it.
    pub fn prepare<O: Arith<T>>(&mut self, ops: &O, model: &WavePacketModel<T>, n_embd: usize)
        requires
            old(self).sound(*ops, *model, n_embd as int),
            old(self).block_caches@.len() < model.blocks@.len(),
            blocks_take(*model, n_embd as int),
        ensures
            final(self).block_caches == old(self).block_caches,
            final(self).hidden == old(self).hidden,
            final(self).sound(*ops, *model, n_embd as int),
            final(self).ready(*ops, *model),
            rows_width(final(self).normed@, n_embd as int),
    {
        let layer: usize = self.block_caches.len();
        assert(n_embd <= model.blocks@[layer as int].ln.weight@.len());
        self.normed = normed_rows_on(ops, &self.hidden, &model.blocks[layer].ln, n_embd);
    }

    /// Takes in what the parts of the block ahead computed. The state that it hands on
    /// replaces the present one.
    pub fn step<O: Arith<T>>(
        &mut self,
        ops: &O,
        model: &WavePacketModel<T>,
        n_embd: usize,
        r: BlockResult<T, F, A>,
    )
        requires
            old(self).sound(*ops, *model, n_embd as int),
            old(self).ready(*ops, *model),
            blocks_take(*model, n_embd as int),
            parts_cover(r, old(self).hidden@.len() as int, n_embd as int),
        ensures
            final(self).block_caches@.len() == old(self).block_caches@.len() + 1,
            final(self).block_caches@.drop_last() == old(self).block_caches@,
            caches(final(self).block_caches@.last(), old(self).hidden, old(self).normed, r),
            final(self).hidden@.len() == old(self).hidden@.len(),
            final(self).sound(*ops, *model, n_embd as int),
    {
        let layer: usize = self.block_caches.len();
        let factor: Traced<T> = layer_factor_on(ops, model, layer);
        let output: Vec<Vec<T>> = residual_rows_on(
            ops,
            &self.hidden,
            &r.attn_out,
            &r.ffn_out,
            factor,
            n_embd,
        );
        let normed_ffn: Vec<Vec<T>> = copy_rows(&self.normed);
        let mut input: Vec<Vec<T>> = output;
        std::mem::swap(&mut input, &mut self.hidden);
        let mut normed: Vec<Vec<T>> = Vec::new();
        std::mem::swap(&mut normed, &mut self.normed);
        let cache = BlockCache {
            input,
            normed,
            normed_ffn,
            attn_out: r.attn_out,
            ffn_out: r.ffn_out,
            att_weights: r.att_weights,
            ffn_backend_cache: Some(r.ffn_cache),
            ffn_mae_in_sq: Vec::new(),
            ffn_mae_in_act: Vec::new(),
            ffn_precond: Vec::new(),
            ffn_kerr_out: Vec::new(),
            ffn_mae_out_sq: Vec::new(),
            ffn_mae_out_act: Vec::new(),
            ffn_regulated: Vec::new(),
            attn_pathway: r.attn_cache,
        };
        self.block_caches.push(cache);
        proof {
            assert(self.block_caches@.drop_last() =~= old(self).block_caches@);
            let kept = self.block_caches@;
            let before = old(self).block_caches@;
            assert forall|b: int| 0 <= b < kept.len() implies block_tells(
                *ops,
                *model,
                #[trigger] kept[b],
                b,
                next_input(kept, self.hidden@, b),
            ) by {
                if b + 1 < kept.len() {
                    assert(kept[b] == before[b]);
                    assert(next_input(kept, self.hidden@, b) == next_input(
                        before,
                        old(self).hidden@,
                        b,
                    ));
                }
            }
        }
    }

    /// Ends a pass over tokens: the state after the last block is normalised and decoded.
    pub fn finish<O: Arith<T>>(
        self,
        ops: &O,
        model: &WavePacketModel<T>,
        n_bands: usize,
        tied: bool,
        n_embd: usize,
    ) -> (cache: ForwardCache<T, F, A>)
        requires
            self.sound(*ops, *model, n_embd as int),
            blocks_take(*model, n_embd as int),
            decodes(*model, n_bands as int, tied, n_embd as int),
        ensures
            cache.block_caches == self.block_caches,
            cache.pre_ln_f == self.hidden,
            chained(*ops, *model, cache.block_caches@, cache.pre_ln_f@),
            rows_fit(*ops, normed_rows(cache.pre_ln_f@, model.ln_f), cache.post_ln_f@),
            rows_fit(
                *ops,
                Seq::new(
                    cache.post_ln_f@.len(),
                    |p: int|
                        decoded(*model, n_bands as int, tied, vals(cache.post_ln_f@[p]@)),
                ),
                cache.logits@,
            ),
    {
        let post_ln_f: Vec<Vec<T>> = normed_rows_on(ops, &self.hidden, &model.ln_f, n_embd);
        let logits: Vec<Vec<T>> = decode(ops, model, n_bands, tied, n_embd, &post_ln_f);
        ForwardCache {
            block_caches: self.block_caches,
            pre_ln_f: self.hidden,
            post_ln_f,
            logits,
        }
    }

    /// Ends a pass over waves, which has no logits: an empty row per position.
    pub fn finish_waves<O: Arith<T>>(
        self,
        ops: &O,
        model: &WavePacketModel<T>,
        n_embd: usize,
    ) -> (cache: ForwardCache<T, F, A>)
        requires
            self.sound(*ops, *model, n_embd as int),
            blocks_take(*model, n_embd as int),
        ensures
            cache.block_caches == self.block_caches,
            cache.pre_ln_f == self.hidden,
            chained(*ops, *model, cache.block_caches@, cache.pre_ln_f@),
            rows_fit(*ops, normed_rows(cache.pre_ln_f@, model.ln_f), cache.post_ln_f@),
            rows_of(cache.logits@) == Seq::new(self.hidden@.len(), |i: int| Seq::<T>::empty()),
    {
        let positions: usize = self.hidden.len();
        let post_ln_f: Vec<Vec<T>> = normed_rows_on(ops, &self.hidden, &model.ln_f, n_embd);
        let mut logits: Vec<Vec<T>> = Vec::new();
        let mut i: usize = 0;
        while i < positions
            invariant
                i <= positions,
                rows_of(logits@) == Seq::new(i as nat, |k: int| Seq::<T>::empty()),
            decreases positions - i,
        {
            let row: Vec<T> = Vec::new();
            let ghost before = rows_of(logits@);
            logits.push(row);
            assert(rows_of(logits@) =~= before.push(row@));
            i += 1;
            assert(rows_of(logits@) =~= Seq::new(i as nat, |k: int| Seq::<T>::empty()));
        }
        ForwardCache {
            block_caches: self.block_caches,
            pre_ln_f: self.hidden,
            post_ln_f,
            logits,
        }
    }
}

} // verus!
