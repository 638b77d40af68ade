//! The forward pass of the model: tokens to logits.

use vstd::prelude::*;
use crate::arith::{Arith, Traced, TracedVec, total};
#[allow(unused_imports)]
use crate::arith::{Expr, fits_all, one, over, plus, times, total_of, val, vals, zero};
use crate::attention::{attention_on, untraced_rows};
#[allow(unused_imports)]
use crate::attention::{
    attention_of, attention_shaped, formulas, law_attention_is_causal, rows_fit, rows_ok,
};
#[allow(unused_imports)]
use crate::forward::{
    block_plan, integrates, law_no_memory_without_offsets, lemma_ode_layers_grow, ode_layers,
};
use crate::forward::{BlockPlan, forward_plan};
use crate::kerr::{Offsets, State, final_on, kerr_on};
#[allow(unused_imports)]
use crate::kerr::{Waves, final_of, kerr_of, kerr_shaped, offsets_cover};
use crate::layers::{linear_on, maestro_on, norm_on, scores_on, sums_on, traced};
#[allow(unused_imports)]
use crate::layers::{linear_of, maestro_of, maestro_shaped, norm_of, scores_of, sums_of};
use crate::model::{
    BlockWeights, FfnKind, FfnWeights, KerrMaestroAddWeights, ModelWeights, PerBandLinearWeights,
};
#[allow(unused_imports)]
use crate::model::ffn_kind;
use crate::proj::proj_on;
#[allow(unused_imports)]
use crate::proj::{proj_of, proj_takes};
#[allow(unused_imports)]
use crate::seqs::rows_width;
use crate::weights::{KerrDualMaestroWeights, KerrWeights, MaestroWeights};

verus! {

/// A component of a band's map: `w_r * r + w_s * s + b`.
pub open spec fn mapped_of<T>(w_r: T, r: Expr<T>, w_s: T, s: Expr<T>, b: T) -> Expr<T> {
    plus(plus(times(val(w_r), r), times(val(w_s), s)), val(b))
}

/// Every band's two components, mapped by the band's own matrix.
pub open spec fn bands_of<T>(w: PerBandLinearWeights<T>, x: Seq<Expr<T>>) -> Seq<Expr<T>> {
    Seq::new(
        2 * w.band_w@.len(),
        |i: int|
            {
                let m = w.band_w@[i / 2];
                let b = w.band_b@[i / 2];
                if i % 2 == 0 {
                    mapped_of(m[0][0], x[i], m[1][0], x[i + 1], b[0])
                } else {
                    mapped_of(m[0][1], x[i - 1], m[1][1], x[i], b[1])
                }
            },
    )
}

/// What a band-mixing part makes of a position.
pub open spec fn per_band_of<T>(w: PerBandLinearWeights<T>, x: Seq<Expr<T>>) -> Seq<Expr<T>> {
    linear_of(w.out_proj.w@, w.out_proj.b@, bands_of(w, x))
}

/// What an ODE with a regulator beside it makes of a position.
pub open spec fn maestro_add_of<T>(
    w: KerrMaestroAddWeights<T>,
    x: Seq<Expr<T>>,
    memory: Option<&Offsets<T>>,
) -> Seq<Expr<T>> {
    linear_of(
        w.out_proj.w@,
        w.out_proj.b@,
        sums_of(kerr_of(w.kerr, x, memory), maestro_of(w.maestro, x)),
    )
}

/// A position with its first regulator's output added.
pub open spec fn prepared_of<T>(w: KerrDualMaestroWeights<T>, x: Seq<Expr<T>>) -> Seq<Expr<T>> {
    sums_of(x, maestro_of(w.maestro_in, x))
}

/// What an ODE between two regulators makes of a position.
pub open spec fn dual_of<T>(
    w: KerrDualMaestroWeights<T>,
    x: Seq<Expr<T>>,
    memory: Option<&Offsets<T>>,
) -> Seq<Expr<T>> {
    let k = kerr_of(w.kerr, prepared_of(w, x), memory);
    proj_of(w.out_proj, sums_of(k, maestro_of(w.maestro_out, k)))
}

/// What a feed-forward part makes of a position.
pub open spec fn ffn_of<T>(
    f: FfnWeights<T>,
    x: Seq<Expr<T>>,
    memory: Option<&Offsets<T>>,
) -> Seq<Expr<T>> {
    match f {
        FfnWeights::PerBand(w) => per_band_of(w, x),
        FfnWeights::KerrMaestro(w) => maestro_add_of(w, x, memory),
        FfnWeights::KerrDualMaestro(w) => dual_of(w, x, memory),
    }
}

/// The positions with attention added.
pub open spec fn attended_rows<T>(b: BlockWeights<T>, xs: Seq<Seq<Expr<T>>>, n_embd: int) -> Seq<
    Seq<Expr<T>>,
> {
    let normed = Seq::new(xs.len(), |p: int| norm_of(xs[p], b.ln_1.weight@, b.ln_1.bias@));
    let attn = attention_of(b.attn, normed, n_embd);
    Seq::new(xs.len(), |p: int| sums_of(xs[p], attn[p]))
}

/// A position as the feed-forward part gets it.
pub open spec fn ffn_input<T>(b: BlockWeights<T>, h: Seq<Expr<T>>) -> Seq<Expr<T>> {
    norm_of(h, b.ln_2.weight@, b.ln_2.bias@)
}

/// What a block makes of the positions.
pub open spec fn block_of<T>(
    b: BlockWeights<T>,
    xs: Seq<Seq<Expr<T>>>,
    n_embd: int,
    memory: Option<&Offsets<T>>,
) -> Seq<Seq<Expr<T>>> {
    let h = attended_rows(b, xs, n_embd);
    Seq::new(xs.len(), |p: int| sums_of(h[p], ffn_of(b.ffn, ffn_input(b, h[p]), memory)))
}

/// The embedded tokens.
pub open spec fn embedded_of<T>(m: ModelWeights<T>, tokens: Seq<usize>) -> Seq<Seq<Expr<T>>> {
    Seq::new(
        tokens.len(),
        |p: int|
            sums_of(vals(m.wte_phase@[tokens[p] as int]@), vals(m.wpe@[p]@)),
    )
}

/// The kinds of the blocks.
pub open spec fn kinds_of<T>(m: ModelWeights<T>) -> Seq<FfnKind> {
    m.blocks@.map_values(|b: BlockWeights<T>| ffn_kind(b.ffn))
}

/// Number of memory offsets.
pub open spec fn n_offsets<T>(offsets: Option<&Vec<Offsets<T>>>) -> int {
    match offsets {
        Some(list) => list@.len() as int,
        None => 0,
    }
}

/// The memory of block `l`.
pub open spec fn memory_of<T>(
    m: ModelWeights<T>,
    offsets: Option<&Vec<Offsets<T>>>,
    l: int,
) -> Option<
    &Offsets<T>,
> {
    match block_plan(kinds_of(m), n_offsets(offsets), l).memory {
        Some(at) => match offsets {
            Some(list) => Some(&list@[at as int]),
            None => None,
        },
        None => None,
    }
}

/// The positions before block `l`.
pub open spec fn hidden_of<T>(
    m: ModelWeights<T>,
    tokens: Seq<usize>,
    offsets: Option<&Vec<Offsets<T>>>,
    l: int,
) -> Seq<Seq<Expr<T>>>
    decreases l,
{
    if l <= 0 {
        embedded_of(m, tokens)
    } else {
        block_of(
            m.blocks@[l - 1],
            hidden_of(m, tokens, offsets, l - 1),
            2 * m.config.n_bands,
            memory_of(m, offsets, l - 1),
        )
    }
}

/// The logits of every position.
pub open spec fn logits_of<T>(
    m: ModelWeights<T>,
    tokens: Seq<usize>,
    offsets: Option<&Vec<Offsets<T>>>,
) -> Seq<Seq<Expr<T>>> {
    let h = hidden_of(m, tokens, offsets, m.blocks@.len() as int);
    Seq::new(
        tokens.len(),
        |p: int| scores_of(m.lm_head@, norm_of(h[p], m.ln_f.weight@, m.ln_f.bias@)),
    )
}

/// A block for `n` bands.
pub open spec fn block_shaped<T>(b: BlockWeights<T>, n: int) -> bool {
    let e = 2 * n;
    &&& b.ln_1.weight@.len() == e
    &&& b.ln_1.bias@.len() == e
    &&& b.ln_2.weight@.len() == e
    &&& b.ln_2.bias@.len() == e
    &&& attention_shaped(b.attn, e)
    &&& ffn_shaped(b.ffn, n)
}

/// A feed-forward part for `n` bands.
pub open spec fn ffn_shaped<T>(f: FfnWeights<T>, n: int) -> bool {
    let e = 2 * n;
    match f {
        FfnWeights::PerBand(w) => per_band_shaped(w, n),
        FfnWeights::KerrMaestro(w) => maestro_add_shaped(w, n),
        FfnWeights::KerrDualMaestro(w) => dual_shaped(w, n),
    }
}

/// A layer band by band, for `n` bands.
pub open spec fn per_band_shaped<T>(w: PerBandLinearWeights<T>, n: int) -> bool {
    &&& w.band_w@.len() == n
    &&& w.band_b@.len() == n
    &&& w.out_proj.shaped(2 * n, 2 * n)
    &&& 2 * n <= usize::MAX
}

/// An ODE with a regulator added, of `n` bands.
pub open spec fn maestro_add_shaped<T>(w: KerrMaestroAddWeights<T>, n: int) -> bool {
    &&& kerr_shaped(w.kerr, n)
    &&& maestro_shaped(w.maestro, 2 * n)
    &&& w.out_proj.shaped(2 * n, 2 * n)
}

/// An ODE between two regulators, of `n` bands.
pub open spec fn dual_shaped<T>(w: KerrDualMaestroWeights<T>, n: int) -> bool {
    &&& kerr_shaped(w.kerr, n)
    &&& maestro_shaped(w.maestro_in, 2 * n)
    &&& maestro_shaped(w.maestro_out, 2 * n)
    &&& proj_takes(w.out_proj, 2 * n)
    &&& proj_gives(w.out_proj, 2 * n)
}

/// A projection that gives `n` components.
pub open spec fn proj_gives<T>(p: crate::weights::OutProjWeights<T>, n: int) -> bool {
    match p {
        crate::weights::OutProjWeights::Dense(lw) => lw.w@.len() == n,
        crate::weights::OutProjWeights::BlockDiagonal(_) => true,
    }
}

/// A model whose parts fit together.
pub open spec fn model_shaped<T>(m: ModelWeights<T>) -> bool {
    let n = m.config.n_bands as int;
    &&& 0 < n
    &&& 6 * n <= usize::MAX
    &&& rows_width(m.wte_phase@, 2 * n)
    &&& rows_width(m.wpe@, 2 * n)
    &&& forall|l: int| 0 <= l < m.blocks@.len() ==> block_shaped(#[trigger] m.blocks@[l], n)
    &&& m.ln_f.weight@.len() == 2 * n
    &&& m.ln_f.bias@.len() == 2 * n
    &&& rows_width(m.lm_head@, 2 * n)
}

/// Tokens that the model knows, no more than there are places for.
pub open spec fn tokens_fit<T>(m: ModelWeights<T>, tokens: Seq<usize>) -> bool {
    &&& tokens.len() <= m.config.block_size
    &&& tokens.len() <= m.wpe@.len()
    &&& forall|p: int| 0 <= p < tokens.len() ==> #[trigger] tokens[p] < m.wte_phase@.len()
}

/// Offsets that every layer can read.
pub open spec fn offsets_fit<T>(m: ModelWeights<T>, offsets: Option<&Vec<Offsets<T>>>) -> bool {
    offsets matches Some(list) ==> forall|i: int|
        0 <= i < list@.len() ==> offsets_cover(
            Some(&#[trigger] list@[i]),
            m.config.n_bands as int,
        )
}

/// The forward pass does not look ahead: the logits of a position depend on that token
/// and those before it alone.
pub proof fn law_forward_is_causal<T>(
    m: ModelWeights<T>,
    tokens: Seq<usize>,
    offsets: Option<&Vec<Offsets<T>>>,
    upto: int,
)
    requires
        0 <= upto <= tokens.len(),
    ensures
        logits_of(m, tokens.take(upto), offsets) == logits_of(m, tokens, offsets).take(upto),
{
    let l = m.blocks@.len() as int;
    lemma_hidden_is_causal(m, tokens, offsets, l, upto);
    assert(logits_of(m, tokens.take(upto), offsets) =~= logits_of(m, tokens, offsets).take(upto));
}

proof fn lemma_hidden_is_causal<T>(
    m: ModelWeights<T>,
    tokens: Seq<usize>,
    offsets: Option<&Vec<Offsets<T>>>,
    l: int,
    upto: int,
)
    requires
        0 <= upto <= tokens.len(),
    ensures
        hidden_of(m, tokens, offsets, l).len() == tokens.len(),
        hidden_of(m, tokens.take(upto), offsets, l) == hidden_of(m, tokens, offsets, l).take(upto),
    decreases l,
{
    if l <= 0 {
        assert(embedded_of(m, tokens.take(upto)) =~= embedded_of(m, tokens).take(upto));
    } else {
        lemma_hidden_is_causal(m, tokens, offsets, l - 1, upto);
        lemma_block_is_causal(
            m.blocks@[l - 1],
            hidden_of(m, tokens, offsets, l - 1),
            2 * m.config.n_bands,
            memory_of(m, offsets, l - 1),
            upto,
        );
    }
}

proof fn lemma_block_is_causal<T>(
    b: BlockWeights<T>,
    xs: Seq<Seq<Expr<T>>>,
    n_embd: int,
    memory: Option<&Offsets<T>>,
    upto: int,
)
    requires
        0 <= upto <= xs.len(),
    ensures
        block_of(b, xs.take(upto), n_embd, memory) == block_of(b, xs, n_embd, memory).take(upto),
{
    let normed = Seq::new(xs.len(), |p: int| norm_of(xs[p], b.ln_1.weight@, b.ln_1.bias@));
    let ys = xs.take(upto);
    let normed_y = Seq::new(ys.len(), |p: int| norm_of(ys[p], b.ln_1.weight@, b.ln_1.bias@));
    assert(normed_y =~= normed.take(upto));
    law_attention_is_causal(b.attn, normed, n_embd, upto);
    assert(attended_rows(b, ys, n_embd) =~= attended_rows(b, xs, n_embd).take(upto));
    assert(block_of(b, ys, n_embd, memory) =~= block_of(b, xs, n_embd, memory).take(upto));
}

/// A memory without offsets is no memory: the logits are the same formulas.
pub proof fn law_empty_memory_changes_nothing<T>(
    m: ModelWeights<T>,
    tokens: Seq<usize>,
    empty: Vec<Offsets<T>>,
)
    requires
        empty@.len() == 0,
    ensures
        logits_of(m, tokens, Some(&empty)) == logits_of(m, tokens, None),
{
    lemma_empty_memory(m, tokens, empty, m.blocks@.len() as int);
}

proof fn lemma_empty_memory<T>(
    m: ModelWeights<T>,
    tokens: Seq<usize>,
    empty: Vec<Offsets<T>>,
    l: int,
)
    requires
        empty@.len() == 0,
        l <= m.blocks@.len(),
    ensures
        hidden_of(m, tokens, Some(&empty), l) == hidden_of(m, tokens, None, l),
    decreases l,
{
    if l > 0 {
        lemma_empty_memory(m, tokens, empty, l - 1);
        law_no_memory_without_offsets(kinds_of(m), l - 1);
    }
}

fn bands_on<T: Copy, A: Arith<T>>(
    ops: &A,
    w: &PerBandLinearWeights<T>,
    x: &TracedVec<T>,
) -> (out: TracedVec<T>)
    requires
        x.ok(*ops),
        w.band_w@.len() == w.band_b@.len(),
        2 * w.band_w@.len() <= x.v@.len(),
    ensures
        out.ok(*ops),
        out.e@ == bands_of(*w, x.e@),
{
    let n: usize = w.band_w.len();
    let total_len: usize = x.len();
    let ghost es = bands_of(*w, x.e@);
    let mut out: TracedVec<T> = TracedVec::new(ops);
    let mut k: usize = 0;
    assert(out.e@ =~= es.take(0));
    while k < n
        invariant
            x.ok(*ops),
            n == w.band_w@.len(),
            n == w.band_b@.len(),
            total_len == x.v@.len(),
            2 * n <= total_len,
            es == bands_of(*w, x.e@),
            k <= n,
            out.ok(*ops),
            out.e@ == es.take(2 * k),
        decreases n - k,
    {
        let r: Traced<T> = x.get(ops, k * 2);
        let s: Traced<T> = x.get(ops, k * 2 + 1);
        let m: [[T; 2]; 2] = w.band_w[k];
        let b: [T; 2] = w.band_b[k];
        let first: Traced<T> = Traced::of(ops, m[0][0]).times(ops, r).plus(
            ops,
            Traced::of(ops, m[1][0]).times(ops, s),
        ).plus(ops, Traced::of(ops, b[0]));
        let second: Traced<T> = Traced::of(ops, m[0][1]).times(ops, r).plus(
            ops,
            Traced::of(ops, m[1][1]).times(ops, s),
        ).plus(ops, Traced::of(ops, b[1]));
        out.push(ops, first);
        out.push(ops, second);
        proof {
            assert((2 * k) / 2 == k && (2 * k) % 2 == 0);
            assert((2 * k + 1) / 2 == k && (2 * k + 1) % 2 == 1);
            assert(es[2 * k] == first.e@);
            assert(es[2 * k + 1] == second.e@);
        }
        k += 1;
        assert(out.e@ =~= es.take(2 * k));
    }
    assert(es.take(2 * n) =~= es);
    out
}

fn per_band_on<T: Copy, A: Arith<T>>(
    ops: &A,
    w: &PerBandLinearWeights<T>,
    x: &TracedVec<T>,
) -> (out: TracedVec<T>)
    requires
        x.ok(*ops),
        per_band_shaped(*w, w.band_w@.len() as int),
        2 * w.band_w@.len() <= x.v@.len(),
    ensures
        out.ok(*ops),
        out.v@.len() == 2 * w.band_w@.len(),
        out.e@ == per_band_of(*w, x.e@),
{
    let bands: TracedVec<T> = bands_on(ops, w, x);
    linear_on(ops, &w.out_proj.w, &w.out_proj.b, &bands)
}

fn maestro_add_on<T: Copy, A: Arith<T>>(
    ops: &A,
    w: &KerrMaestroAddWeights<T>,
    x: &TracedVec<T>,
    memory: Option<&Offsets<T>>,
) -> (out: TracedVec<T>)
    requires
        x.ok(*ops),
        maestro_add_shaped(*w, w.kerr.gamma_raw@.len() as int),
        x.v@.len() == 2 * w.kerr.gamma_raw@.len(),
        offsets_cover(memory, w.kerr.gamma_raw@.len() as int),
    ensures
        out.ok(*ops),
        out.v@.len() == x.v@.len(),
        out.e@ == maestro_add_of(*w, x.e@, memory),
{
    let kerr: TracedVec<T> = kerr_on(ops, &w.kerr, x, memory);
    let regulated: TracedVec<T> = maestro_on(ops, &w.maestro, x);
    let sum: TracedVec<T> = sums_on(ops, &kerr, &regulated);
    linear_on(ops, &w.out_proj.w, &w.out_proj.b, &sum)
}

fn prepared_on<T: Copy, A: Arith<T>>(
    ops: &A,
    w: &KerrDualMaestroWeights<T>,
    x: &TracedVec<T>,
) -> (out: TracedVec<T>)
    requires
        x.ok(*ops),
        maestro_shaped(w.maestro_in, x.v@.len() as int),
    ensures
        out.ok(*ops),
        out.v@.len() == x.v@.len(),
        out.e@ == prepared_of(*w, x.e@),
{
    let before: TracedVec<T> = maestro_on(ops, &w.maestro_in, x);
    sums_on(ops, x, &before)
}

fn dual_on<T: Copy, A: Arith<T>>(
    ops: &A,
    w: &KerrDualMaestroWeights<T>,
    x: &TracedVec<T>,
    memory: Option<&Offsets<T>>,
) -> (out: TracedVec<T>)
    requires
        x.ok(*ops),
        dual_shaped(*w, w.kerr.gamma_raw@.len() as int),
        x.v@.len() == 2 * w.kerr.gamma_raw@.len(),
        offsets_cover(memory, w.kerr.gamma_raw@.len() as int),
    ensures
        out.ok(*ops),
        out.v@.len() == x.v@.len(),
        out.e@ == dual_of(*w, x.e@, memory),
{
    let prepared: TracedVec<T> = prepared_on(ops, w, x);
    let kerr: TracedVec<T> = kerr_on(ops, &w.kerr, &prepared, memory);
    let after: TracedVec<T> = maestro_on(ops, &w.maestro_out, &kerr);
    let sum: TracedVec<T> = sums_on(ops, &kerr, &after);
    proj_on(ops, &w.out_proj, &sum)
}

fn ffn_on<T: Copy, A: Arith<T>>(
    ops: &A,
    f: &FfnWeights<T>,
    x: &TracedVec<T>,
    memory: Option<&Offsets<T>>,
    Ghost(n): Ghost<int>,
) -> (out: TracedVec<T>)
    requires
        x.ok(*ops),
        ffn_shaped(*f, n),
        x.v@.len() == 2 * n,
        offsets_cover(memory, n),
    ensures
        out.ok(*ops),
        out.v@.len() == 2 * n,
        out.e@ == ffn_of(*f, x.e@, memory),
{
    match f {
        FfnWeights::PerBand(w) => per_band_on(ops, w, x),
        FfnWeights::KerrMaestro(w) => maestro_add_on(ops, w, x, memory),
        FfnWeights::KerrDualMaestro(w) => dual_on(ops, w, x, memory),
    }
}

/// The positions with attention added, traced.
fn attended_rows_on<T: Copy, A: Arith<T>>(
    ops: &A,
    b: &BlockWeights<T>,
    xs: &Vec<TracedVec<T>>,
    n_embd: usize,
    Ghost(n): Ghost<int>,
) -> (out: Vec<TracedVec<T>>)
    requires
        n_embd == 2 * n,
        0 < n,
        3 * n_embd <= usize::MAX,
        block_shaped(*b, n),
        rows_ok(*ops, xs@, n_embd as int),
    ensures
        rows_ok(*ops, out@, n_embd as int),
        formulas(out@) == attended_rows(*b, formulas(xs@), n_embd as int),
{
    let t: usize = xs.len();
    let ghost es = Seq::new(
        formulas(xs@).len(),
        |p: int| norm_of(formulas(xs@)[p], b.ln_1.weight@, b.ln_1.bias@),
    );
    let mut normed: Vec<TracedVec<T>> = Vec::new();
    let mut p: usize = 0;
    assert(formulas(normed@) =~= es.take(0));
    while p < t
        invariant
            t == xs@.len(),
            rows_ok(*ops, xs@, n_embd as int),
            b.ln_1.weight@.len() == n_embd,
            b.ln_1.bias@.len() == n_embd,
            es == Seq::new(
                formulas(xs@).len(),
                |p: int| norm_of(formulas(xs@)[p], b.ln_1.weight@, b.ln_1.bias@),
            ),
            p <= t,
            rows_ok(*ops, normed@, n_embd as int),
            formulas(normed@) == es.take(p as int),
        decreases t - p,
    {
        assert(xs@[p as int].ok(*ops));
        let row: TracedVec<T> = norm_on(ops, &xs[p], &b.ln_1.weight, &b.ln_1.bias);
        let ghost before = formulas(normed@);
        normed.push(row);
        p += 1;
        proof {
            assert(formulas(normed@) =~= before.push(row.e@));
            assert(formulas(normed@) =~= es.take(p as int));
        }
    }
    assert(formulas(normed@) =~= es);
    let attn: Vec<TracedVec<T>> = attention_on(ops, &b.attn, &normed, n_embd);
    let ghost want = attended_rows(*b, formulas(xs@), n_embd as int);
    let mut out: Vec<TracedVec<T>> = Vec::new();
    let mut q: usize = 0;
    assert(formulas(out@) =~= want.take(0));
    assert(attn@.len() == formulas(attn@).len());
    while q < t
        invariant
            t == xs@.len(),
            attn@.len() == t,
            rows_ok(*ops, xs@, n_embd as int),
            rows_ok(*ops, attn@, n_embd as int),
            formulas(attn@) == attention_of(b.attn, es, n_embd as int),
            es == Seq::new(
                formulas(xs@).len(),
                |p: int| norm_of(formulas(xs@)[p], b.ln_1.weight@, b.ln_1.bias@),
            ),
            want == attended_rows(*b, formulas(xs@), n_embd as int),
            q <= t,
            rows_ok(*ops, out@, n_embd as int),
            formulas(out@) == want.take(q as int),
        decreases t - q,
    {
        assert(xs@[q as int].ok(*ops));
        assert(attn@[q as int].ok(*ops));
        assert(formulas(attn@)[q as int] == attn@[q as int].e@);
        let row: TracedVec<T> = sums_on(ops, &xs[q], &attn[q]);
        let ghost before = formulas(out@);
        out.push(row);
        q += 1;
        proof {
            assert(formulas(out@) =~= before.push(row.e@));
            assert(row.e@ == want[q - 1]);
            assert(formulas(out@) =~= want.take(q as int));
        }
    }
    assert(want.take(t as int) =~= want);
    out
}

/// The positions as the feed-forward part gets them, traced.
fn ffn_inputs_on<T: Copy, A: Arith<T>>(
    ops: &A,
    b: &BlockWeights<T>,
    h: &Vec<TracedVec<T>>,
    n_embd: usize,
) -> (out: Vec<TracedVec<T>>)
    requires
        b.ln_2.weight@.len() == n_embd,
        b.ln_2.bias@.len() == n_embd,
        rows_ok(*ops, h@, n_embd as int),
    ensures
        rows_ok(*ops, out@, n_embd as int),
        formulas(out@) == Seq::new(h@.len(), |p: int| ffn_input(*b, formulas(h@)[p])),
{
    let t: usize = h.len();
    let ghost want = Seq::new(h@.len(), |p: int| ffn_input(*b, formulas(h@)[p]));
    let mut out: Vec<TracedVec<T>> = Vec::new();
    let mut p: usize = 0;
    assert(formulas(out@) =~= want.take(0));
    while p < t
        invariant
            t == h@.len(),
            b.ln_2.weight@.len() == n_embd,
            b.ln_2.bias@.len() == n_embd,
            rows_ok(*ops, h@, n_embd as int),
            want == Seq::new(h@.len(), |p: int| ffn_input(*b, formulas(h@)[p])),
            p <= t,
            rows_ok(*ops, out@, n_embd as int),
            formulas(out@) == want.take(p as int),
        decreases t - p,
    {
        assert(h@[p as int].ok(*ops));
        let row: TracedVec<T> = norm_on(ops, &h[p], &b.ln_2.weight, &b.ln_2.bias);
        let ghost before = formulas(out@);
        out.push(row);
        p += 1;
        proof {
            assert(formulas(out@) =~= before.push(row.e@));
            assert(formulas(out@) =~= want.take(p as int));
        }
    }
    assert(want.take(t as int) =~= want);
    out
}

/// The positions with the feed-forward part's output added, traced.
fn ffn_rows_on<T: Copy, A: Arith<T>>(
    ops: &A,
    b: &BlockWeights<T>,
    h: &Vec<TracedVec<T>>,
    inputs: &Vec<TracedVec<T>>,
    memory: Option<&Offsets<T>>,
    Ghost(n): Ghost<int>,
) -> (out: Vec<TracedVec<T>>)
    requires
        block_shaped(*b, n),
        offsets_cover(memory, n),
        rows_ok(*ops, h@, 2 * n),
        rows_ok(*ops, inputs@, 2 * n),
        formulas(inputs@) == Seq::new(h@.len(), |p: int| ffn_input(*b, formulas(h@)[p])),
    ensures
        rows_ok(*ops, out@, 2 * n),
        formulas(out@) == Seq::new(
            h@.len(),
            |p: int|
                sums_of(formulas(h@)[p], ffn_of(b.ffn, ffn_input(*b, formulas(h@)[p]), memory)),
        ),
{
    let t: usize = h.len();
    let ghost want = Seq::new(
        h@.len(),
        |p: int|
            sums_of(formulas(h@)[p], ffn_of(b.ffn, ffn_input(*b, formulas(h@)[p]), memory)),
    );
    let mut out: Vec<TracedVec<T>> = Vec::new();
    let mut p: usize = 0;
    assert(formulas(out@) =~= want.take(0));
    assert(inputs@.len() == formulas(inputs@).len());
    while p < t
        invariant
            t == h@.len(),
            inputs@.len() == t,
            block_shaped(*b, n),
            offsets_cover(memory, n),
            rows_ok(*ops, h@, 2 * n),
            rows_ok(*ops, inputs@, 2 * n),
            formulas(inputs@) == Seq::new(h@.len(), |p: int| ffn_input(*b, formulas(h@)[p])),
            want == Seq::new(
                h@.len(),
                |p: int|
                    sums_of(
                        formulas(h@)[p],
                        ffn_of(b.ffn, ffn_input(*b, formulas(h@)[p]), memory),
                    ),
            ),
            p <= t,
            rows_ok(*ops, out@, 2 * n),
            formulas(out@) == want.take(p as int),
        decreases t - p,
    {
        assert(h@[p as int].ok(*ops));
        assert(inputs@[p as int].ok(*ops));
        assert(formulas(inputs@)[p as int] == inputs@[p as int].e@);
        let y: TracedVec<T> = ffn_on(ops, &b.ffn, &inputs[p], memory, Ghost(n));
        let row: TracedVec<T> = sums_on(ops, &h[p], &y);
        let ghost before = formulas(out@);
        out.push(row);
        p += 1;
        proof {
            assert(formulas(out@) =~= before.push(row.e@));
            assert(row.e@ == want[p - 1]);
            assert(formulas(out@) =~= want.take(p as int));
        }
    }
    assert(want.take(t as int) =~= want);
    out
}

/// The embedded tokens, traced.
fn embedded_on<T: Copy, A: Arith<T>>(ops: &A, m: &ModelWeights<T>, tokens: &[usize]) -> (out: Vec<
    TracedVec<T>,
>)
    requires
        model_shaped(*m),
        tokens_fit(*m, tokens@),
    ensures
        rows_ok(*ops, out@, 2 * m.config.n_bands),
        formulas(out@) == embedded_of(*m, tokens@),
{
    let t: usize = tokens.len();
    let ghost want = embedded_of(*m, tokens@);
    let mut out: Vec<TracedVec<T>> = Vec::new();
    let mut p: usize = 0;
    assert(formulas(out@) =~= want.take(0));
    while p < t
        invariant
            t == tokens@.len(),
            model_shaped(*m),
            tokens_fit(*m, tokens@),
            want == embedded_of(*m, tokens@),
            p <= t,
            rows_ok(*ops, out@, 2 * m.config.n_bands),
            formulas(out@) == want.take(p as int),
        decreases t - p,
    {
        let tok: usize = tokens[p];
        assert(m.wte_phase@[tok as int]@.len() == 2 * m.config.n_bands);
        assert(m.wpe@[p as int]@.len() == 2 * m.config.n_bands);
        let a: TracedVec<T> = traced(ops, &m.wte_phase[tok]);
        let b: TracedVec<T> = traced(ops, &m.wpe[p]);
        let row: TracedVec<T> = sums_on(ops, &a, &b);
        let ghost before = formulas(out@);
        out.push(row);
        p += 1;
        proof {
            assert(formulas(out@) =~= before.push(row.e@));
            assert(formulas(out@) =~= want.take(p as int));
        }
    }
    assert(want.take(t as int) =~= want);
    out
}

/// The weights of the ODE of a part that integrates.
pub open spec fn kerr_weights<T>(f: FfnWeights<T>) -> KerrWeights<T>
    recommends
        integrates(ffn_kind(f)),
{
    match f {
        FfnWeights::KerrDualMaestro(w) => w.kerr,
        FfnWeights::KerrMaestro(w) => w.kerr,
        FfnWeights::PerBand(_) => arbitrary(),
    }
}

/// What the ODE of a part integrates: its input, or that with the first regulator's output
/// added.
pub open spec fn ode_input<T>(f: FfnWeights<T>, x: Seq<Expr<T>>) -> Seq<Expr<T>> {
    match f {
        FfnWeights::KerrDualMaestro(w) => prepared_of(w, x),
        _ => x,
    }
}

/// The waves at the end of block `b`'s integration at every position.
pub open spec fn ends_of<T>(
    b: BlockWeights<T>,
    xs: Seq<Seq<Expr<T>>>,
    n_embd: int,
    memory: Option<&Offsets<T>>,
) -> Seq<Waves<T>> {
    let h = attended_rows(b, xs, n_embd);
    Seq::new(
        xs.len(),
        |p: int|
            final_of(
                kerr_weights(b.ffn),
                val(kerr_weights(b.ffn).chi),
                ode_input(b.ffn, ffn_input(b, h[p])),
                memory,
            ),
    )
}

/// One component of band `k` at every position.
pub open spec fn band_parts<T>(ends: Seq<Waves<T>>, k: int, first: bool) -> Seq<Expr<T>> {
    Seq::new(
        ends.len(),
        |p: int|
            if first {
                ends[p].r[k]
            } else {
                ends[p].s[k]
            },
    )
}

/// The mean over positions: the sum, times one over their number.
pub open spec fn mean_wave<T>(parts: Seq<Expr<T>>) -> Expr<T> {
    times(total_of(parts), over(one(), Expr::Count(parts.len() as usize)))
}

/// The mean state of `n` bands over the positions.
pub open spec fn mean_state<T>(ends: Seq<Waves<T>>, n: int) -> Waves<T> {
    Waves {
        r: Seq::new(n as nat, |k: int| mean_wave(band_parts(ends, k, true))),
        s: Seq::new(n as nat, |k: int| mean_wave(band_parts(ends, k, false))),
    }
}

/// The waves of states.
pub open spec fn waves_in<T: Copy>(states: Seq<State<T>>) -> Seq<Waves<T>> {
    states.map_values(|e: State<T>| e.waves())
}

/// The mean states of the blocks that integrate, among the first `l`.
pub open spec fn states_of<T>(
    m: ModelWeights<T>,
    tokens: Seq<usize>,
    offsets: Option<&Vec<Offsets<T>>>,
    l: int,
) -> Seq<Waves<T>>
    decreases l,
{
    if l <= 0 {
        Seq::empty()
    } else {
        let before = states_of(m, tokens, offsets, l - 1);
        if integrates(ffn_kind(m.blocks@[l - 1].ffn)) {
            before.push(
                mean_state(
                    ends_of(
                        m.blocks@[l - 1],
                        hidden_of(m, tokens, offsets, l - 1),
                        2 * m.config.n_bands,
                        memory_of(m, offsets, l - 1),
                    ),
                    m.config.n_bands as int,
                ),
            )
        } else {
            before
        }
    }
}

/// As many states are kept as there are blocks that integrate; so the offsets of a memory
/// that holds one per state reach every such block.
pub proof fn law_one_state_per_ode_layer<T>(
    m: ModelWeights<T>,
    tokens: Seq<usize>,
    offsets: Option<&Vec<Offsets<T>>>,
    l: int,
)
    requires
        0 <= l <= m.blocks@.len(),
    ensures
        states_of(m, tokens, offsets, l).len() == ode_layers(kinds_of(m), l),
    decreases l,
{
    if l > 0 {
        law_one_state_per_ode_layer(m, tokens, offsets, l - 1);
    }
}

/// The mean over positions of one component of a band, traced.
fn mean_wave_on<T: Copy, A: Arith<T>>(
    ops: &A,
    ends: &Vec<State<T>>,
    k: usize,
    first: bool,
    Ghost(n): Ghost<int>,
) -> (out: Traced<T>)
    requires
        k < n,
        forall|p: int| 0 <= p < ends@.len() ==> (#[trigger] ends@[p]).ok(*ops, n),
    ensures
        out.ok(*ops),
        out.e@ == mean_wave(band_parts(waves_in(ends@), k as int, first)),
{
    let t: usize = ends.len();
    let ghost want = band_parts(waves_in(ends@), k as int, first);
    let mut parts: TracedVec<T> = TracedVec::new(ops);
    let mut p: usize = 0;
    assert(parts.e@ =~= want.take(0));
    while p < t
        invariant
            t == ends@.len(),
            k < n,
            forall|p: int| 0 <= p < ends@.len() ==> (#[trigger] ends@[p]).ok(*ops, n),
            want == band_parts(waves_in(ends@), k as int, first),
            p <= t,
            parts.ok(*ops),
            parts.e@ == want.take(p as int),
        decreases t - p,
    {
        assert(ends@[p as int].ok(*ops, n));
        let end: &State<T> = &ends[p];
        if first {
            parts.push(ops, end.r.get(ops, k));
        } else {
            parts.push(ops, end.s.get(ops, k));
        }
        p += 1;
        assert(parts.e@ =~= want.take(p as int));
    }
    assert(parts.e@ =~= want);
    let scale: Traced<T> = Traced::ratio(ops, 1, 1).over(ops, Traced::count(ops, t));
    total(ops, &parts).times(ops, scale)
}

/// The mean state over the positions, traced.
fn mean_state_on<T: Copy, A: Arith<T>>(ops: &A, ends: &Vec<State<T>>, n: usize) -> (out: State<T>)
    requires
        forall|p: int| 0 <= p < ends@.len() ==> (#[trigger] ends@[p]).ok(*ops, n as int),
    ensures
        out.ok(*ops, n as int),
        out.waves() == mean_state(waves_in(ends@), n as int),
{
    let ghost want = mean_state(waves_in(ends@), n as int);
    let mut r: TracedVec<T> = TracedVec::new(ops);
    let mut s: TracedVec<T> = TracedVec::new(ops);
    let mut k: usize = 0;
    assert(r.e@ =~= want.r.take(0));
    assert(s.e@ =~= want.s.take(0));
    while k < n
        invariant
            forall|p: int| 0 <= p < ends@.len() ==> (#[trigger] ends@[p]).ok(*ops, n as int),
            want == mean_state(waves_in(ends@), n as int),
            k <= n,
            r.ok(*ops),
            s.ok(*ops),
            r.e@ == want.r.take(k as int),
            s.e@ == want.s.take(k as int),
        decreases n - k,
    {
        r.push(ops, mean_wave_on(ops, ends, k, true, Ghost(n as int)));
        s.push(ops, mean_wave_on(ops, ends, k, false, Ghost(n as int)));
        k += 1;
        assert(r.e@ =~= want.r.take(k as int));
        assert(s.e@ =~= want.s.take(k as int));
    }
    assert(want.r.take(n as int) =~= want.r);
    assert(want.s.take(n as int) =~= want.s);
    State { r, s }
}

/// The waves at the end of an integration at every position, traced; none where the part
/// does not integrate.
fn ends_on<T: Copy, A: Arith<T>>(
    ops: &A,
    f: &FfnWeights<T>,
    inputs: &Vec<TracedVec<T>>,
    memory: Option<&Offsets<T>>,
    Ghost(n): Ghost<int>,
) -> (out: Option<Vec<State<T>>>)
    requires
        ffn_shaped(*f, n),
        offsets_cover(memory, n),
        rows_ok(*ops, inputs@, 2 * n),
    ensures
        out is Some <==> integrates(ffn_kind(*f)),
        out matches Some(ends) ==> {
            &&& forall|p: int| 0 <= p < ends@.len() ==> (#[trigger] ends@[p]).ok(*ops, n)
            &&& waves_in(ends@) == Seq::new(
                inputs@.len(),
                |p: int|
                    final_of(
                        kerr_weights(*f),
                        val(kerr_weights(*f).chi),
                        ode_input(*f, formulas(inputs@)[p]),
                        memory,
                    ),
            )
        },
{
    if let FfnWeights::PerBand(_) = f {
        return None;
    }
    let t: usize = inputs.len();
    let ghost want = Seq::new(
        inputs@.len(),
        |p: int|
            final_of(
                kerr_weights(*f),
                val(kerr_weights(*f).chi),
                ode_input(*f, formulas(inputs@)[p]),
                memory,
            ),
    );
    let mut ends: Vec<State<T>> = Vec::new();
    let mut p: usize = 0;
    assert(waves_in(ends@) =~= want.take(0));
    while p < t
        invariant
            !(f is PerBand),
            t == inputs@.len(),
            ffn_shaped(*f, n),
            offsets_cover(memory, n),
            rows_ok(*ops, inputs@, 2 * n),
            want == Seq::new(
                inputs@.len(),
                |p: int|
                    final_of(
                        kerr_weights(*f),
                        val(kerr_weights(*f).chi),
                        ode_input(*f, formulas(inputs@)[p]),
                        memory,
                    ),
            ),
            p <= t,
            forall|p: int| 0 <= p < ends@.len() ==> (#[trigger] ends@[p]).ok(*ops, n),
            waves_in(ends@) == want.take(p as int),
        decreases t - p,
    {
        assert(inputs@[p as int].ok(*ops));
        let x: &TracedVec<T> = &inputs[p];
        let ghost before = waves_in(ends@);
        match f {
            FfnWeights::KerrDualMaestro(w) => {
                let prepared: TracedVec<T> = prepared_on(ops, w, x);
                let chi: Traced<T> = Traced::of(ops, w.kerr.chi);
                let end: State<T> = final_on(ops, &w.kerr, chi, &prepared, memory);
                ends.push(end);
            },
            FfnWeights::KerrMaestro(w) => {
                let chi: Traced<T> = Traced::of(ops, w.kerr.chi);
                let end: State<T> = final_on(ops, &w.kerr, chi, x, memory);
                ends.push(end);
            },
            FfnWeights::PerBand(_) => {},
        }
        p += 1;
        proof {
            assert(waves_in(ends@) =~= before.push(
                ends@.last().waves(),
            ));
            assert(ends@.last().waves() == want[p - 1]);
            assert(waves_in(ends@) =~= want.take(p as int));
        }
    }
    assert(want.take(t as int) =~= want);
    Some(ends)
}

/// Which part each block has.
fn kinds_on<T: Copy>(m: &ModelWeights<T>) -> (out: Vec<FfnKind>)
    ensures
        out@ == kinds_of(*m),
{
    let n: usize = m.blocks.len();
    let mut out: Vec<FfnKind> = Vec::new();
    let mut l: usize = 0;
    assert(out@ =~= kinds_of(*m).take(0));
    while l < n
        invariant
            n == m.blocks@.len(),
            l <= n,
            out@ == kinds_of(*m).take(l as int),
        decreases n - l,
    {
        let kind: FfnKind = match &m.blocks[l].ffn {
            FfnWeights::PerBand(_) => FfnKind::PerBand,
            FfnWeights::KerrMaestro(_) => FfnKind::KerrMaestro,
            FfnWeights::KerrDualMaestro(_) => FfnKind::KerrDualMaestro,
        };
        out.push(kind);
        l += 1;
        assert(out@ =~= kinds_of(*m).take(l as int));
    }
    assert(kinds_of(*m).take(n as int) =~= kinds_of(*m));
    out
}

/// The memory of a block.
fn memory_on<'a, T: Copy>(
    m: &ModelWeights<T>,
    plan: &Vec<BlockPlan>,
    offsets: Option<&'a Vec<Offsets<T>>>,
    l: usize,
) -> (memory: Option<&'a Offsets<T>>)
    requires
        l < m.blocks@.len(),
        plan@ == Seq::new(
            kinds_of(*m).len(),
            |i: int| block_plan(kinds_of(*m), n_offsets(offsets), i),
        ),
        offsets_fit(*m, offsets),
    ensures
        memory == memory_of(*m, offsets, l as int),
        offsets_cover(memory, m.config.n_bands as int),
{
    let blocks: usize = m.blocks.len();
    proof {
        lemma_ode_layers_grow(kinds_of(*m), 0, l as int);
    }
    match plan[l].memory {
        Some(at) => match offsets {
            Some(list) => {
                assert(at < list@.len());
                Some(&list[at])
            },
            None => None,
        },
        None => None,
    }
}

/// The plan of a pass.
fn plan_on<T: Copy>(m: &ModelWeights<T>, offsets: Option<&Vec<Offsets<T>>>) -> (plan: Vec<BlockPlan>)
    ensures
        plan@ == Seq::new(
            kinds_of(*m).len(),
            |i: int| block_plan(kinds_of(*m), n_offsets(offsets), i),
        ),
{
    let kinds: Vec<FfnKind> = kinds_on(m);
    let count: Option<usize> = match offsets {
        Some(list) => Some(list.len()),
        None => None,
    };
    let plan: Vec<BlockPlan> = forward_plan(&kinds, count);
    assert(plan@ =~= Seq::new(
        kinds_of(*m).len(),
        |i: int| block_plan(kinds_of(*m), n_offsets(offsets), i),
    ));
    plan
}

proof fn lemma_hidden_len<T>(
    m: ModelWeights<T>,
    tokens: Seq<usize>,
    offsets: Option<&Vec<Offsets<T>>>,
    l: int,
)
    ensures
        hidden_of(m, tokens, offsets, l).len() == tokens.len(),
    decreases l,
{
    if l > 0 {
        lemma_hidden_len(m, tokens, offsets, l - 1);
    }
}

impl<T: Copy> ModelWeights<T> {
    /// The logits of every position.
    pub fn forward<A: Arith<T>>(&self, ops: &A, tokens: &[usize]) -> (logits: Vec<Vec<T>>)
        requires
            model_shaped(*self),
            tokens_fit(*self, tokens@),
        ensures
            rows_fit(*ops, logits_of(*self, tokens@, None), logits@),
    {
        self.forward_with_memory(ops, tokens, None)
    }

    /// The logits of every position, with the offsets of a memory added where a block
    /// that integrates starts.
    pub fn forward_with_memory<A: Arith<T>>(
        &self,
        ops: &A,
        tokens: &[usize],
        memory_offsets: Option<&Vec<Offsets<T>>>,
    ) -> (logits: Vec<Vec<T>>)
        requires
            model_shaped(*self),
            tokens_fit(*self, tokens@),
            offsets_fit(*self, memory_offsets),
        ensures
            rows_fit(*ops, logits_of(*self, tokens@, memory_offsets), logits@),
    {
        let t: usize = tokens.len();
        let n_embd: usize = self.config.n_embd();
        let blocks: usize = self.blocks.len();
        let plan: Vec<BlockPlan> = plan_on(self, memory_offsets);
        let mut hidden: Vec<TracedVec<T>> = embedded_on(ops, self, tokens);
        let mut l: usize = 0;
        while l < blocks
            invariant
                model_shaped(*self),
                offsets_fit(*self, memory_offsets),
                n_embd == 2 * self.config.n_bands,
                blocks == self.blocks@.len(),
                plan@ == Seq::new(
                    kinds_of(*self).len(),
                    |i: int| block_plan(kinds_of(*self), n_offsets(memory_offsets), i),
                ),
                l <= blocks,
                rows_ok(*ops, hidden@, n_embd as int),
                formulas(hidden@) == hidden_of(*self, tokens@, memory_offsets, l as int),
            decreases blocks - l,
        {
            let memory: Option<&Offsets<T>> = memory_on(self, &plan, memory_offsets, l);
            assert(block_shaped(self.blocks@[l as int], self.config.n_bands as int));
            hidden = self.block_on(ops, &self.blocks[l], &hidden, memory);
            l += 1;
        }
        let ghost h = hidden_of(*self, tokens@, memory_offsets, blocks as int);
        let ghost want = logits_of(*self, tokens@, memory_offsets);
        proof {
            lemma_hidden_len(*self, tokens@, memory_offsets, blocks as int);
            assert(hidden@.len() == formulas(hidden@).len());
        }
        let mut rows: Vec<TracedVec<T>> = Vec::new();
        let mut p: usize = 0;
        assert(formulas(rows@) =~= want.take(0));
        while p < t
            invariant
                model_shaped(*self),
                t == tokens@.len(),
                hidden@.len() == t,
                n_embd == 2 * self.config.n_bands,
                blocks == self.blocks@.len(),
                h == hidden_of(*self, tokens@, memory_offsets, blocks as int),
                want == logits_of(*self, tokens@, memory_offsets),
                rows_ok(*ops, hidden@, n_embd as int),
                formulas(hidden@) == h,
                p <= t,
                forall|i: int| 0 <= i < rows@.len() ==> (#[trigger] rows@[i]).ok(*ops),
                formulas(rows@) == want.take(p as int),
            decreases t - p,
        {
            assert(hidden@[p as int].ok(*ops));
            assert(formulas(hidden@)[p as int] == hidden@[p as int].e@);
            let normed: TracedVec<T> = norm_on(
                ops,
                &hidden[p],
                &self.ln_f.weight,
                &self.ln_f.bias,
            );
            let row: TracedVec<T> = scores_on(ops, &self.lm_head, &normed);
            let ghost before = formulas(rows@);
            rows.push(row);
            p += 1;
            proof {
                assert(formulas(rows@) =~= before.push(row.e@));
                assert(row.e@ == want[p - 1]);
                assert(formulas(rows@) =~= want.take(p as int));
            }
        }
        assert(want.take(t as int) =~= want);
        untraced_rows(ops, rows)
    }

    fn block_on<A: Arith<T>>(
        &self,
        ops: &A,
        block: &BlockWeights<T>,
        hidden: &Vec<TracedVec<T>>,
        memory: Option<&Offsets<T>>,
    ) -> (out: Vec<TracedVec<T>>)
        requires
            0 < self.config.n_bands,
            6 * self.config.n_bands <= usize::MAX,
            block_shaped(*block, self.config.n_bands as int),
            offsets_cover(memory, self.config.n_bands as int),
            rows_ok(*ops, hidden@, 2 * self.config.n_bands),
        ensures
            rows_ok(*ops, out@, 2 * self.config.n_bands),
            formulas(out@) == block_of(
                *block,
                formulas(hidden@),
                2 * self.config.n_bands,
                memory,
            ),
    {
        let n_embd: usize = self.config.n_embd();
        let ghost n = self.config.n_bands as int;
        let h: Vec<TracedVec<T>> = attended_rows_on(ops, block, hidden, n_embd, Ghost(n));
        let inputs: Vec<TracedVec<T>> = ffn_inputs_on(ops, block, &h, n_embd);
        let out: Vec<TracedVec<T>> = ffn_rows_on(ops, block, &h, &inputs, memory, Ghost(n));
        proof {
            assert(h@.len() == formulas(h@).len());
            assert(formulas(out@) =~= block_of(*block, formulas(hidden@), 2 * n, memory));
        }
        out
    }

    /// The mean of the final states that every block that integrates reaches in
    /// `forward_with_memory`: what a wave memory takes in.
    pub fn extract_ode_states<A: Arith<T>>(
        &self,
        ops: &A,
        tokens: &[usize],
        memory_offsets: Option<&Vec<Offsets<T>>>,
    ) -> (states: Vec<Offsets<T>>)
        requires
            model_shaped(*self),
            tokens_fit(*self, tokens@),
            offsets_fit(*self, memory_offsets),
        ensures
            states@.len() == states_of(
                *self,
                tokens@,
                memory_offsets,
                self.blocks@.len() as int,
            ).len(),
            forall|i: int|
                0 <= i < states@.len() ==> state_fits(
                    *ops,
                    states_of(*self, tokens@, memory_offsets, self.blocks@.len() as int)[i],
                    #[trigger] states@[i],
                ),
    {
        let n_embd: usize = self.config.n_embd();
        let n_bands: usize = self.config.n_bands;
        let blocks: usize = self.blocks.len();
        let plan: Vec<BlockPlan> = plan_on(self, memory_offsets);
        let mut hidden: Vec<TracedVec<T>> = embedded_on(ops, self, tokens);
        let mut states: Vec<Offsets<T>> = Vec::new();
        let mut l: usize = 0;
        while l < blocks
            invariant
                model_shaped(*self),
                offsets_fit(*self, memory_offsets),
                n_bands == self.config.n_bands,
                n_embd == 2 * self.config.n_bands,
                blocks == self.blocks@.len(),
                plan@ == Seq::new(
                    kinds_of(*self).len(),
                    |i: int| block_plan(kinds_of(*self), n_offsets(memory_offsets), i),
                ),
                l <= blocks,
                rows_ok(*ops, hidden@, n_embd as int),
                formulas(hidden@) == hidden_of(*self, tokens@, memory_offsets, l as int),
                states@.len() == states_of(*self, tokens@, memory_offsets, l as int).len(),
                forall|i: int|
                    0 <= i < states@.len() ==> state_fits(
                        *ops,
                        states_of(*self, tokens@, memory_offsets, l as int)[i],
                        #[trigger] states@[i],
                    ),
            decreases blocks - l,
        {
            let ghost xs = hidden_of(*self, tokens@, memory_offsets, l as int);
            let ghost n = n_bands as int;
            let memory: Option<&Offsets<T>> = memory_on(self, &plan, memory_offsets, l);
            assert(block_shaped(self.blocks@[l as int], n));
            let block: &BlockWeights<T> = &self.blocks[l];
            let h: Vec<TracedVec<T>> = attended_rows_on(ops, block, &hidden, n_embd, Ghost(n));
            let inputs: Vec<TracedVec<T>> = ffn_inputs_on(ops, block, &h, n_embd);
            let ends: Option<Vec<State<T>>> = ends_on(ops, &block.ffn, &inputs, memory, Ghost(n));
            assert(h@.len() == formulas(h@).len());
            if let Some(list) = ends {
                let state: State<T> = mean_state_on(ops, &list, n_bands);
                proof {
                    let ws = waves_in(list@);
                    assert(inputs@.len() == formulas(inputs@).len());
                    assert(ws =~= ends_of(*block, xs, 2 * n, memory));
                }
                states.push(Offsets { r: state.r.v, s: state.s.v });
            }
            hidden = ffn_rows_on(ops, block, &h, &inputs, memory, Ghost(n));
            assert(formulas(hidden@) =~= block_of(*block, xs, 2 * n, memory));
            l += 1;
        }
        states
    }

    /// Maps the bands of every position, and projects.
    pub fn per_band_linear<A: Arith<T>>(
        &self,
        ops: &A,
        w: &PerBandLinearWeights<T>,
        x: &Vec<Vec<T>>,
    ) -> (out: Vec<Vec<T>>)
        requires
            per_band_shaped(*w, w.band_w@.len() as int),
            forall|p: int| 0 <= p < x@.len() ==> (#[trigger] x@[p])@.len() == 2 * w.band_w@.len(),
        ensures
            rows_fit(*ops, Seq::new(x@.len(), |p: int| per_band_of(*w, vals(x@[p]@))), out@),
    {
        let t: usize = x.len();
        let mut out: Vec<Vec<T>> = Vec::new();
        let mut p: usize = 0;
        while p < t
            invariant
                t == x@.len(),
                per_band_shaped(*w, w.band_w@.len() as int),
                forall|p: int| 0 <= p < x@.len() ==> (#[trigger] x@[p])@.len() == 2 * w.band_w@.len(),
                p <= t,
                out@.len() == p,
                forall|p: int|
                    0 <= p < out@.len() ==> fits_all(
                        *ops,
                        per_band_of(*w, vals(x@[p]@)),
                        (#[trigger] out@[p])@,
                    ),
            decreases t - p,
        {
            assert(x@[p as int]@.len() == 2 * w.band_w@.len());
            let row: TracedVec<T> = per_band_on(ops, w, &traced(ops, &x[p]));
            out.push(row.v);
            p += 1;
        }
        out
    }

    /// Runs an ODE with a regulator beside it on every position, with the offsets of a
    /// memory.
    pub fn kerr_maestro_add_with_memory<A: Arith<T>>(
        &self,
        ops: &A,
        w: &KerrMaestroAddWeights<T>,
        x: &Vec<Vec<T>>,
        memory: Option<&Offsets<T>>,
    ) -> (out: Vec<Vec<T>>)
        requires
            maestro_add_shaped(*w, w.kerr.gamma_raw@.len() as int),
            forall|p: int| 0 <= p < x@.len() ==> (#[trigger] x@[p])@.len() == 2 * w.kerr.gamma_raw@.len(),
            offsets_cover(memory, w.kerr.gamma_raw@.len() as int),
        ensures
            rows_fit(*ops, Seq::new(x@.len(), |p: int| maestro_add_of(*w, vals(x@[p]@), memory)), out@),
    {
        let t: usize = x.len();
        let mut out: Vec<Vec<T>> = Vec::new();
        let mut p: usize = 0;
        while p < t
            invariant
                t == x@.len(),
                maestro_add_shaped(*w, w.kerr.gamma_raw@.len() as int),
                forall|p: int| 0 <= p < x@.len() ==> (#[trigger] x@[p])@.len() == 2 * w.kerr.gamma_raw@.len(),
                offsets_cover(memory, w.kerr.gamma_raw@.len() as int),
                p <= t,
                out@.len() == p,
                forall|p: int|
                    0 <= p < out@.len() ==> fits_all(
                        *ops,
                        maestro_add_of(*w, vals(x@[p]@), memory),
                        (#[trigger] out@[p])@,
                    ),
            decreases t - p,
        {
            assert(x@[p as int]@.len() == 2 * w.kerr.gamma_raw@.len());
            let row: TracedVec<T> = maestro_add_on(ops, w, &traced(ops, &x[p]), memory);
            out.push(row.v);
            p += 1;
        }
        out
    }

    /// Runs an ODE with a regulator beside it on every position.
    pub fn kerr_maestro_add<A: Arith<T>>(
        &self,
        ops: &A,
        w: &KerrMaestroAddWeights<T>,
        x: &Vec<Vec<T>>,
    ) -> (out: Vec<Vec<T>>)
        requires
            maestro_add_shaped(*w, w.kerr.gamma_raw@.len() as int),
            forall|p: int|
                0 <= p < x@.len() ==> (#[trigger] x@[p])@.len() == 2 * w.kerr.gamma_raw@.len(),
        ensures
            rows_fit(
                *ops,
                Seq::new(x@.len(), |p: int| maestro_add_of(*w, vals(x@[p]@), None)),
                out@,
            ),
    {
        self.kerr_maestro_add_with_memory(ops, w, x, None)
    }

    /// Runs an ODE between two regulators on every position, with the offsets of a memory.
    pub fn kerr_dual_maestro_forward_with_memory<A: Arith<T>>(
        &self,
        ops: &A,
        w: &KerrDualMaestroWeights<T>,
        x: &Vec<Vec<T>>,
        memory: Option<&Offsets<T>>,
    ) -> (out: Vec<Vec<T>>)
        requires
            dual_shaped(*w, w.kerr.gamma_raw@.len() as int),
            forall|p: int| 0 <= p < x@.len() ==> (#[trigger] x@[p])@.len() == 2 * w.kerr.gamma_raw@.len(),
            offsets_cover(memory, w.kerr.gamma_raw@.len() as int),
        ensures
            rows_fit(*ops, Seq::new(x@.len(), |p: int| dual_of(*w, vals(x@[p]@), memory)), out@),
    {
        let t: usize = x.len();
        let mut out: Vec<Vec<T>> = Vec::new();
        let mut p: usize = 0;
        while p < t
            invariant
                t == x@.len(),
                dual_shaped(*w, w.kerr.gamma_raw@.len() as int),
                forall|p: int| 0 <= p < x@.len() ==> (#[trigger] x@[p])@.len() == 2 * w.kerr.gamma_raw@.len(),
                offsets_cover(memory, w.kerr.gamma_raw@.len() as int),
                p <= t,
                out@.len() == p,
                forall|p: int|
                    0 <= p < out@.len() ==> fits_all(
                        *ops,
                        dual_of(*w, vals(x@[p]@), memory),
                        (#[trigger] out@[p])@,
                    ),
            decreases t - p,
        {
            assert(x@[p as int]@.len() == 2 * w.kerr.gamma_raw@.len());
            let row: TracedVec<T> = dual_on(ops, w, &traced(ops, &x[p]), memory);
            out.push(row.v);
            p += 1;
        }
        out
    }

    /// Runs an ODE between two regulators on every position.
    pub fn kerr_dual_maestro_forward<A: Arith<T>>(
        &self,
        ops: &A,
        w: &KerrDualMaestroWeights<T>,
        x: &Vec<Vec<T>>,
    ) -> (out: Vec<Vec<T>>)
        requires
            dual_shaped(*w, w.kerr.gamma_raw@.len() as int),
            forall|p: int|
                0 <= p < x@.len() ==> (#[trigger] x@[p])@.len() == 2 * w.kerr.gamma_raw@.len(),
        ensures
            rows_fit(*ops, Seq::new(x@.len(), |p: int| dual_of(*w, vals(x@[p]@), None)), out@),
    {
        self.kerr_dual_maestro_forward_with_memory(ops, w, x, None)
    }

    /// Integrates a vector of waves, with the offsets of a memory.
    pub fn kerr_ode_forward_with_memory<A: Arith<T>>(
        &self,
        ops: &A,
        w: &KerrWeights<T>,
        x: &[T],
        memory: Option<&Offsets<T>>,
    ) -> (out: Vec<T>)
        requires
            kerr_shaped(*w, w.gamma_raw@.len() as int),
            2 * w.gamma_raw@.len() <= x@.len(),
            offsets_cover(memory, w.gamma_raw@.len() as int),
        ensures
            fits_all(*ops, kerr_of(*w, vals(x@), memory), out@),
    {
        kerr_on(ops, w, &traced(ops, x), memory).v
    }

    /// Integrates a vector of waves.
    pub fn kerr_ode_forward<A: Arith<T>>(&self, ops: &A, w: &KerrWeights<T>, x: &[T]) -> (out: Vec<
        T,
    >)
        requires
            kerr_shaped(*w, w.gamma_raw@.len() as int),
            2 * w.gamma_raw@.len() <= x@.len(),
        ensures
            fits_all(*ops, kerr_of(*w, vals(x@), None), out@),
    {
        self.kerr_ode_forward_with_memory(ops, w, x, None)
    }

    /// Runs a regulator.
    pub fn maestro_forward<A: Arith<T>>(&self, ops: &A, m: &MaestroWeights<T>, x: &[T]) -> (out:
        Vec<T>)
        requires
            maestro_shaped(*m, x@.len() as int),
        ensures
            fits_all(*ops, maestro_of(*m, vals(x@)), out@),
    {
        maestro_on(ops, m, &traced(ops, x)).v
    }
}

/// A state is a value of its formulas.
pub open spec fn state_fits<T: Copy, A: Arith<T>>(ops: A, z: Waves<T>, state: Offsets<T>) -> bool {
    &&& fits_all(ops, z.r, state.r@)
    &&& fits_all(ops, z.s, state.s@)
}

} // verus!
