//! Fresh wave models. Random values are drawn elsewhere and handed in; which draw goes where
//! is decided here.

use vstd::prelude::*;
use crate::arith::{Arith, Traced};
#[allow(unused_imports)]
use crate::arith::{Expr, Unary, fits, one, times, un};
use crate::config::Dims;
use crate::model::{DrawRun, InitValues, init_kerr, init_linear, init_maestro, init_norm};
#[allow(unused_imports)]
use crate::model::{
    copies, drawn_at, fresh_kerr, fresh_linear, fresh_maestro, lemma_drawn_join,
    lemma_runs_total_append, maestro_drawn, maestro_draws, neutral_norm, run, runs_total,
};
use crate::seqs::{extend_from, filled, take_rows};
#[allow(unused_imports)]
use crate::seqs::{rows_flat, rows_width};
use crate::tables::init_values;
#[allow(unused_imports)]
use crate::tables::values_fit;
use crate::wave_decode::WaveDecodeState;
use crate::wave_model::{
    WaveAttnHeadWeights, WaveAttnWeights, WaveBlockWeights, WavePacketModel,
};
use crate::wave_score::{init_frozen, init_unfrozen};
#[allow(unused_imports)]
use crate::wave_score::{fresh_decoder, frozen_tables, trained_tables};
use crate::weights::{
    BlockDiagonalWeights, KerrDualMaestroWeights, LinearWeights, MaestroWeights, OutProjWeights,
};

verus! {

/// Number of values that a head draws: two rows of phases and a square of values.
pub open spec fn head_draws(e: int, hd: int) -> int {
    2 * e + hd * hd
}

/// The values that a head drew.
pub open spec fn head_drawn<T>(h: WaveAttnHeadWeights<T>) -> Seq<T> {
    rows_flat(h.phase_proj_w@) + rows_flat(h.v_proj_w@)
}

/// A fresh head: head `i` starts at half of its number as harmonic.
pub open spec fn fresh_head<T: Copy, A: Arith<T>>(
    ops: A,
    h: WaveAttnHeadWeights<T>,
    v: InitValues<T>,
    i: int,
    e: int,
    hd: int,
) -> bool {
    &&& fits(
        ops,
        un(Unary::Ln, times(Expr::Count((i + 1) as usize), Expr::Ratio(1, 2))),
        h.harmonic_raw,
    )
    &&& h.phase_proj_w@.len() == 2
    &&& rows_width(h.phase_proj_w@, e)
    &&& h.phase_proj_b@ == copies(v.zero, 2)
    &&& h.v_proj_w@.len() == hd
    &&& rows_width(h.v_proj_w@, hd)
    &&& h.v_proj_b@ == copies(v.zero, hd)
}

/// The values that the first `n` heads drew.
pub open spec fn heads_drawn<T>(heads: Seq<WaveAttnHeadWeights<T>>, n: int) -> Seq<T>
    decreases n,
{
    if n <= 0 {
        Seq::empty()
    } else {
        heads_drawn(heads, n - 1) + head_drawn(heads[n - 1])
    }
}

proof fn lemma_heads_prefix<T>(
    a: Seq<WaveAttnHeadWeights<T>>,
    b: Seq<WaveAttnHeadWeights<T>>,
    n: int,
)
    requires
        n <= a.len(),
        n <= b.len(),
        forall|i: int| 0 <= i < n ==> a[i] == b[i],
    ensures
        heads_drawn(a, n) == heads_drawn(b, n),
    decreases n,
{
    if n > 0 {
        lemma_heads_prefix(a, b, n - 1);
    }
}

fn init_head<T: Copy, A: Arith<T>>(
    ops: &A,
    draws: &[T],
    at: usize,
    i: usize,
    e: usize,
    hd: usize,
    v: &InitValues<T>,
) -> (h: WaveAttnHeadWeights<T>)
    requires
        i < usize::MAX,
        at + head_draws(e as int, hd as int) <= draws@.len(),
    ensures
        fresh_head(*ops, h, *v, i as int, e as int, hd as int),
        head_drawn(h).len() == head_draws(e as int, hd as int),
        drawn_at(draws@, at as int, head_drawn(h)),
{
    let total: usize = draws.len();
    assert(0 <= hd * hd) by (nonlinear_arith);
    let phase: LinearWeights<T> = init_linear(draws, at, 2, e, v);
    let next: usize = at + 2 * e;
    let value: LinearWeights<T> = init_linear(draws, next, hd, hd, v);
    let raw: Traced<T> = Traced::count(ops, i + 1).times(ops, Traced::ratio(ops, 1, 2)).ln(ops);
    proof {
        lemma_drawn_join(draws@, at as int, rows_flat(phase.w@), rows_flat(value.w@));
    }
    WaveAttnHeadWeights {
        harmonic_raw: raw.v,
        phase_proj_w: phase.w,
        phase_proj_b: phase.b,
        v_proj_w: value.w,
        v_proj_b: value.b,
    }
}

/// Every head of an attention is fresh.
pub open spec fn fresh_heads<T: Copy, A: Arith<T>>(
    ops: A,
    heads: Seq<WaveAttnHeadWeights<T>>,
    v: InitValues<T>,
    e: int,
    hd: int,
) -> bool {
    forall|i: int| 0 <= i < heads.len() ==> fresh_head(ops, #[trigger] heads[i], v, i, e, hd)
}

fn init_heads<T: Copy, A: Arith<T>>(
    ops: &A,
    draws: &[T],
    at: usize,
    n_head: usize,
    e: usize,
    hd: usize,
    v: &InitValues<T>,
) -> (heads: Vec<WaveAttnHeadWeights<T>>)
    requires
        at + n_head * head_draws(e as int, hd as int) <= draws@.len(),
    ensures
        heads@.len() == n_head,
        fresh_heads(*ops, heads@, *v, e as int, hd as int),
        heads_drawn(heads@, n_head as int).len() == n_head * head_draws(e as int, hd as int),
        drawn_at(draws@, at as int, heads_drawn(heads@, n_head as int)),
{
    let total: usize = draws.len();
    let ghost each = head_draws(e as int, hd as int);
    assert(0 <= hd * hd) by (nonlinear_arith);
    assert(0 <= each);
    let mut heads: Vec<WaveAttnHeadWeights<T>> = Vec::new();
    let mut i: usize = 0;
    let mut pos: usize = at;
    proof {
        assert(0 * each == 0);
        assert(draws@.subrange(at as int, at as int) =~= Seq::<T>::empty());
        assert(at <= draws@.len()) by (nonlinear_arith)
            requires
                at + n_head * each <= draws@.len(),
                each >= 0,
                n_head >= 0,
        ;
    }
    while i < n_head
        invariant
            total == draws@.len(),
            each == head_draws(e as int, hd as int),
            0 <= hd * hd,
            0 <= each,
            at + n_head * each <= total,
            i <= n_head,
            pos == at + i * each,
            heads@.len() == i,
            fresh_heads(*ops, heads@, *v, e as int, hd as int),
            heads_drawn(heads@, i as int).len() == i * each,
            drawn_at(draws@, at as int, heads_drawn(heads@, i as int)),
        decreases n_head - i,
    {
        proof {
            assert((i + 1) * each <= n_head * each) by (nonlinear_arith)
                requires
                    i < n_head,
                    each >= 0,
            ;
            assert((i + 1) * each == i * each + each) by (nonlinear_arith);
        }
        let h: WaveAttnHeadWeights<T> = init_head(ops, draws, pos, i, e, hd, v);
        let ghost before = heads@;
        proof {
            lemma_drawn_join(draws@, at as int, heads_drawn(before, i as int), head_drawn(h));
        }
        heads.push(h);
        pos = pos + 2 * e + hd * hd;
        proof {
            lemma_heads_prefix(before, heads@, i as int);
        }
        i += 1;
    }
    heads
}

/// Number of values that an output projection draws: one dense square, or one square a
/// group.
pub open spec fn proj_draws(e: int, groups: int) -> int {
    if groups <= 1 {
        e * e
    } else {
        groups * ((e / groups) * (e / groups))
    }
}

/// The values that the first `n` groups drew.
pub open spec fn groups_drawn<T>(groups: Seq<LinearWeights<T>>, n: int) -> Seq<T>
    decreases n,
{
    if n <= 0 {
        Seq::empty()
    } else {
        groups_drawn(groups, n - 1) + rows_flat(groups[n - 1].w@)
    }
}

proof fn lemma_groups_prefix<T>(a: Seq<LinearWeights<T>>, b: Seq<LinearWeights<T>>, n: int)
    requires
        n <= a.len(),
        n <= b.len(),
        forall|i: int| 0 <= i < n ==> a[i] == b[i],
    ensures
        groups_drawn(a, n) == groups_drawn(b, n),
    decreases n,
{
    if n > 0 {
        lemma_groups_prefix(a, b, n - 1);
    }
}

/// The values that an output projection drew.
pub open spec fn proj_drawn<T>(p: OutProjWeights<T>) -> Seq<T> {
    match p {
        OutProjWeights::Dense(lw) => rows_flat(lw.w@),
        OutProjWeights::BlockDiagonal(b) => groups_drawn(b.groups@, b.groups@.len() as int),
    }
}

/// A fresh output projection: dense, or in groups where more than one is asked for.
pub open spec fn fresh_proj<T>(
    p: OutProjWeights<T>,
    v: InitValues<T>,
    e: int,
    groups: int,
) -> bool {
    match p {
        OutProjWeights::Dense(lw) => groups <= 1 && fresh_linear(lw, v, e, e),
        OutProjWeights::BlockDiagonal(b) => {
            &&& groups > 1
            &&& b.n_groups == groups
            &&& b.group_size == e / groups
            &&& b.groups@.len() == groups
            &&& forall|i: int|
                0 <= i < groups ==> fresh_linear(
                    #[trigger] b.groups@[i],
                    v,
                    e / groups,
                    e / groups,
                )
        },
    }
}

fn init_groups<T: Copy>(draws: &[T], at: usize, groups: usize, size: usize, v: &InitValues<T>) -> (out:
    Vec<LinearWeights<T>>)
    requires
        at + groups * (size * size) <= draws@.len(),
    ensures
        out@.len() == groups,
        forall|i: int|
            0 <= i < groups ==> fresh_linear(#[trigger] out@[i], *v, size as int, size as int),
        groups_drawn(out@, groups as int).len() == groups * (size * size),
        drawn_at(draws@, at as int, groups_drawn(out@, groups as int)),
{
    let total: usize = draws.len();
    let ghost each = size * size;
    assert(0 <= each) by (nonlinear_arith)
        requires
            each == size * size,
    ;
    let mut out: Vec<LinearWeights<T>> = Vec::new();
    let mut i: usize = 0;
    let mut pos: usize = at;
    proof {
        assert(0 * each == 0);
        assert(draws@.subrange(at as int, at as int) =~= Seq::<T>::empty());
        assert(at <= draws@.len()) by (nonlinear_arith)
            requires
                at + groups * each <= draws@.len(),
                each >= 0,
                groups >= 0,
        ;
    }
    while i < groups
        invariant
            total == draws@.len(),
            each == size * size,
            0 <= each,
            at + groups * each <= total,
            i <= groups,
            pos == at + i * each,
            out@.len() == i,
            forall|j: int|
                0 <= j < i ==> fresh_linear(#[trigger] out@[j], *v, size as int, size as int),
            groups_drawn(out@, i as int).len() == i * each,
            drawn_at(draws@, at as int, groups_drawn(out@, i as int)),
        decreases groups - i,
    {
        proof {
            assert((i + 1) * each <= groups * each) by (nonlinear_arith)
                requires
                    i < groups,
                    each >= 0,
            ;
            assert((i + 1) * each == i * each + each) by (nonlinear_arith);
        }
        let lw: LinearWeights<T> = init_linear(draws, pos, size, size, v);
        let ghost before = out@;
        proof {
            lemma_drawn_join(draws@, at as int, groups_drawn(before, i as int), rows_flat(lw.w@));
        }
        out.push(lw);
        pos = pos + size * size;
        proof {
            lemma_groups_prefix(before, out@, i as int);
        }
        i += 1;
    }
    out
}

fn init_proj<T: Copy>(draws: &[T], at: usize, e: usize, groups: usize, v: &InitValues<T>) -> (p:
    OutProjWeights<T>)
    requires
        at + proj_draws(e as int, groups as int) <= draws@.len(),
    ensures
        fresh_proj(p, *v, e as int, groups as int),
        proj_drawn(p).len() == proj_draws(e as int, groups as int),
        drawn_at(draws@, at as int, proj_drawn(p)),
{
    if groups <= 1 {
        OutProjWeights::Dense(init_linear(draws, at, e, e, v))
    } else {
        let size: usize = e / groups;
        OutProjWeights::BlockDiagonal(
            BlockDiagonalWeights {
                groups: init_groups(draws, at, groups, size, v),
                n_groups: groups,
                group_size: size,
            },
        )
    }
}

/// Dimensions of the heads: the embedding divided among them.
pub open spec fn head_dim(d: Dims) -> int {
    d.n_embd as int / d.n_head as int
}

/// Number of values that a block draws.
pub open spec fn block_draws(d: Dims, groups: int) -> int {
    d.n_head * head_draws(d.n_embd as int, head_dim(d)) + d.n_embd * d.n_embd + maestro_draws(
        d.n_embd as int,
        d.maestro_dim as int,
    ) + maestro_draws(d.n_embd as int, d.maestro_dim as int) + proj_draws(
        d.n_embd as int,
        groups,
    )
}

/// The values that a block drew: heads, output of the attention, both regulators, output of
/// the feed-forward part.
pub open spec fn block_drawn<T>(b: WaveBlockWeights<T>) -> Seq<T> {
    heads_drawn(b.attn.heads@, b.attn.heads@.len() as int) + rows_flat(b.attn.out_proj_w@)
        + maestro_drawn(b.ffn.maestro_in) + maestro_drawn(b.ffn.maestro_out) + proj_drawn(
        b.ffn.out_proj,
    )
}

/// A fresh block.
pub open spec fn fresh_block<T: Copy, A: Arith<T>>(
    ops: A,
    b: WaveBlockWeights<T>,
    v: InitValues<T>,
    d: Dims,
    groups: int,
) -> bool {
    let e = d.n_embd as int;
    let md = d.maestro_dim as int;
    &&& neutral_norm(b.ln, v, e)
    &&& neutral_norm(b.ln_ffn, v, e)
    &&& b.attn.heads@.len() == d.n_head
    &&& fresh_heads(ops, b.attn.heads@, v, e, head_dim(d))
    &&& b.attn.out_proj_w@.len() == e
    &&& rows_width(b.attn.out_proj_w@, e)
    &&& b.attn.out_proj_b@ == copies(v.zero, e)
    &&& fresh_kerr(b.ffn.kerr, v, d.n_bands, d.rk4_steps)
    &&& fresh_maestro(b.ffn.maestro_in, v, e, md)
    &&& fresh_maestro(b.ffn.maestro_out, v, e, md)
    &&& fresh_proj(b.ffn.out_proj, v, e, groups)
}

proof fn lemma_parts_nonnegative(d: Dims, groups: int)
    requires
        d.n_head > 0,
        groups >= 0,
    ensures
        0 <= d.n_head * head_draws(d.n_embd as int, head_dim(d)),
        0 <= d.n_embd * d.n_embd,
        0 <= maestro_draws(d.n_embd as int, d.maestro_dim as int),
        0 <= d.maestro_dim * d.n_embd,
        0 <= d.n_embd * d.maestro_dim,
        0 <= proj_draws(d.n_embd as int, groups),
        0 <= block_draws(d, groups),
{
    let hd = head_dim(d);
    assert(0 <= hd * hd) by (nonlinear_arith);
    assert(0 <= d.n_head * head_draws(d.n_embd as int, hd)) by (nonlinear_arith)
        requires
            0 <= head_draws(d.n_embd as int, hd),
            0 <= d.n_head,
    ;
    assert(0 <= d.n_embd * d.n_embd && 0 <= d.maestro_dim * d.n_embd && 0 <= d.n_embd
        * d.maestro_dim) by (nonlinear_arith);
    if groups > 1 {
        let g = d.n_embd as int / groups;
        assert(0 <= g * g) by (nonlinear_arith);
        assert(0 <= groups * (g * g)) by (nonlinear_arith)
            requires
                0 <= g * g,
                0 <= groups,
        ;
    }
}

fn init_block<T: Copy, A: Arith<T>>(
    ops: &A,
    draws: &[T],
    at: usize,
    d: &Dims,
    groups: usize,
    v: &InitValues<T>,
) -> (res: (WaveBlockWeights<T>, usize))
    requires
        d.n_head > 0,
        at + block_draws(*d, groups as int) <= draws@.len(),
    ensures
        fresh_block(*ops, res.0, *v, *d, groups as int),
        block_drawn(res.0).len() == block_draws(*d, groups as int),
        drawn_at(draws@, at as int, block_drawn(res.0)),
        res.1 == at + block_draws(*d, groups as int),
{
    let total: usize = draws.len();
    let e: usize = d.n_embd;
    let md: usize = d.maestro_dim;
    let hd: usize = e / d.n_head;
    proof {
        lemma_parts_nonnegative(*d, groups as int);
        assert(0 <= hd * hd) by (nonlinear_arith);
    }
    let heads: Vec<WaveAttnHeadWeights<T>> = init_heads(ops, draws, at, d.n_head, e, hd, v);
    let ghost one_head = head_draws(e as int, hd as int);
    proof {
        assert(one_head <= d.n_head * one_head) by (nonlinear_arith)
            requires
                d.n_head >= 1,
                one_head >= 0,
        ;
    }
    let a1: usize = at + d.n_head * (2 * e + hd * hd);
    let out: LinearWeights<T> = init_linear(draws, a1, e, e, v);
    let a2: usize = a1 + e * e;
    let maestro_in: MaestroWeights<T> = init_maestro(draws, a2, e, md, v);
    let a3: usize = a2 + md * e + e * md;
    let maestro_out: MaestroWeights<T> = init_maestro(draws, a3, e, md, v);
    let a4: usize = a3 + md * e + e * md;
    let out_proj: OutProjWeights<T> = init_proj(draws, a4, e, groups, v);
    let used: usize = if groups <= 1 {
        e * e
    } else {
        proof {
            let g = e as int / groups as int;
            assert(0 <= g * g) by (nonlinear_arith);
            assert(g * g <= groups * (g * g)) by (nonlinear_arith)
                requires
                    groups >= 1,
                    g * g >= 0,
            ;
        }
        groups * ((e / groups) * (e / groups))
    };
    proof {
        let hs = heads_drawn(heads@, d.n_head as int);
        let os = rows_flat(out.w@);
        lemma_drawn_join(draws@, at as int, hs, os);
        lemma_drawn_join(draws@, at as int, hs + os, maestro_drawn(maestro_in));
        lemma_drawn_join(
            draws@,
            at as int,
            hs + os + maestro_drawn(maestro_in),
            maestro_drawn(maestro_out),
        );
        lemma_drawn_join(
            draws@,
            at as int,
            hs + os + maestro_drawn(maestro_in) + maestro_drawn(maestro_out),
            proj_drawn(out_proj),
        );
    }
    let block = WaveBlockWeights {
        ln: init_norm(v, e),
        ln_ffn: init_norm(v, e),
        attn: WaveAttnWeights { heads, out_proj_w: out.w, out_proj_b: out.b },
        ffn: KerrDualMaestroWeights {
            kerr: init_kerr(v, d.n_bands, d.rk4_steps),
            maestro_in,
            maestro_out,
            out_proj,
        },
    };
    (block, a4 + used)
}

/// The values that the first `n` blocks drew.
pub open spec fn blocks_drawn<T>(blocks: Seq<WaveBlockWeights<T>>, n: int) -> Seq<T>
    decreases n,
{
    if n <= 0 {
        Seq::empty()
    } else {
        blocks_drawn(blocks, n - 1) + block_drawn(blocks[n - 1])
    }
}

proof fn lemma_blocks_prefix<T>(a: Seq<WaveBlockWeights<T>>, b: Seq<WaveBlockWeights<T>>, n: int)
    requires
        n <= a.len(),
        n <= b.len(),
        forall|i: int| 0 <= i < n ==> a[i] == b[i],
    ensures
        blocks_drawn(a, n) == blocks_drawn(b, n),
    decreases n,
{
    if n > 0 {
        lemma_blocks_prefix(a, b, n - 1);
    }
}

/// Whether the decoder is factored: its rank lies below the width.
pub open spec fn low_rank(d: Dims) -> bool {
    0 < d.lm_rank < d.n_embd
}

/// Number of values that the decoder draws: none where it is tied to the embedding.
pub open spec fn decoder_draws(d: Dims, vocab: int) -> int {
    if low_rank(d) {
        d.lm_rank * d.n_embd + vocab * d.lm_rank
    } else if d.tied {
        0
    } else {
        vocab * d.n_embd
    }
}

/// The values that the decoder drew.
pub open spec fn decoder_drawn<T>(m: WavePacketModel<T>, d: Dims) -> Seq<T> {
    if low_rank(d) {
        rows_flat(m.lm_down@) + rows_flat(m.lm_up@)
    } else if d.tied {
        Seq::empty()
    } else {
        rows_flat(m.lm_head@)
    }
}

/// The rows of a table.
pub open spec fn row_views<T>(rows: Seq<Vec<T>>) -> Seq<Seq<T>> {
    rows.map_values(|r: Vec<T>| r@)
}

/// A fresh decoder: factored, tied to the embedding, or a table of its own.
pub open spec fn decoder_fresh<T>(m: WavePacketModel<T>, d: Dims, vocab: int) -> bool {
    let e = d.n_embd as int;
    if low_rank(d) {
        &&& m.lm_head@.len() == 0
        &&& m.lm_down@.len() == d.lm_rank
        &&& rows_width(m.lm_down@, e)
        &&& m.lm_up@.len() == vocab
        &&& rows_width(m.lm_up@, d.lm_rank as int)
    } else if d.tied {
        &&& row_views(m.lm_head@) == row_views(m.wte@)
        &&& m.lm_down@.len() == 0
        &&& m.lm_up@.len() == 0
    } else {
        &&& m.lm_head@.len() == vocab
        &&& rows_width(m.lm_head@, e)
        &&& m.lm_down@.len() == 0
        &&& m.lm_up@.len() == 0
    }
}

/// The wave decoder that a fresh model has: none, one whose references are frozen at the phases
/// of the embeddings, or one that trains them from there.
pub open spec fn wave_decoder_fresh<T: Copy, A: Arith<T>>(
    ops: A,
    wd: Option<WaveDecodeState<T>>,
    d: Dims,
    wte: Seq<Vec<T>>,
) -> bool {
    match wd {
        Some(s) => {
            &&& d.wave_decode
            &&& fresh_decoder(ops, s, wte.len() as int, d.n_bands as int)
            &&& if d.unfreeze_phases {
                trained_tables(ops, s, wte, d.n_bands as int)
            } else {
                frozen_tables(ops, s, wte, d.n_bands as int)
            }
        },
        None => !d.wave_decode,
    }
}

fn copy_rows<T: Copy>(rows: &Vec<Vec<T>>) -> (out: Vec<Vec<T>>)
    ensures
        row_views(out@) == row_views(rows@),
{
    let n: usize = rows.len();
    let mut out: Vec<Vec<T>> = Vec::new();
    let mut i: usize = 0;
    while i < n
        invariant
            n == rows@.len(),
            i <= n,
            out@.len() == i,
            forall|j: int| 0 <= j < i ==> (#[trigger] out@[j])@ == rows@[j]@,
        decreases n - i,
    {
        let mut row: Vec<T> = Vec::new();
        extend_from(&mut row, &rows[i]);
        assert(row@ =~= rows@[i as int]@);
        out.push(row);
        i += 1;
    }
    assert(row_views(out@) =~= row_views(rows@));
    out
}

struct DecoderTables<T> {
    head: Vec<Vec<T>>,
    down: Vec<Vec<T>>,
    up: Vec<Vec<T>>,
}

fn init_decoder<T: Copy>(draws: &[T], at: usize, d: &Dims, vocab: usize, wte: &Vec<Vec<T>>) -> (t:
    DecoderTables<T>)
    requires
        at + decoder_draws(*d, vocab as int) == draws@.len(),
    ensures
        low_rank(*d) ==> {
            &&& t.head@.len() == 0
            &&& t.down@.len() == d.lm_rank
            &&& rows_width(t.down@, d.n_embd as int)
            &&& t.up@.len() == vocab
            &&& rows_width(t.up@, d.lm_rank as int)
            &&& rows_flat(t.down@) + rows_flat(t.up@) == draws@.subrange(
                at as int,
                draws@.len() as int,
            )
        },
        !low_rank(*d) ==> t.down@.len() == 0 && t.up@.len() == 0,
        !low_rank(*d) && d.tied ==> row_views(t.head@) == row_views(wte@),
        !low_rank(*d) && !d.tied ==> {
            &&& t.head@.len() == vocab
            &&& rows_width(t.head@, d.n_embd as int)
            &&& rows_flat(t.head@) == draws@.subrange(at as int, draws@.len() as int)
        },
{
    let total: usize = draws.len();
    let e: usize = d.n_embd;
    let rank: usize = d.lm_rank;
    if rank > 0 && rank < e {
        assert(0 <= rank * e && 0 <= vocab * rank) by (nonlinear_arith);
        let down: Vec<Vec<T>> = take_rows(draws, at, rank, e);
        let next: usize = at + rank * e;
        let up: Vec<Vec<T>> = take_rows(draws, next, vocab, rank);
        assert(rows_flat(down@) + rows_flat(up@) =~= draws@.subrange(
            at as int,
            draws@.len() as int,
        ));
        DecoderTables { head: Vec::new(), down, up }
    } else if d.tied {
        DecoderTables { head: copy_rows(wte), down: Vec::new(), up: Vec::new() }
    } else {
        DecoderTables { head: take_rows(draws, at, vocab, e), down: Vec::new(), up: Vec::new() }
    }
}

/// A fresh model out of random values. They are used up in order: block by block, then the
/// decoder.
pub fn init_model<T: Copy, A: Arith<T>>(
    ops: &A,
    vocab_size: usize,
    n_layers: usize,
    out_proj_groups: usize,
    d: &Dims,
    alpha: T,
    beta: T,
    draws: &[T],
    wte: Vec<Vec<T>>,
    wpe: Vec<Vec<T>>,
) -> (m: WavePacketModel<T>)
    requires
        d.n_head > 0,
        n_layers < usize::MAX,
        wte@.len() == vocab_size,
        forall|v: int| 0 <= v < wte@.len() ==> 2 * d.n_bands <= (#[trigger] wte@[v])@.len(),
        draws@.len() == model_draws(
            *d,
            out_proj_groups as int,
            n_layers as int,
            vocab_size as int,
        ),
    ensures
        m.wte == wte,
        m.wpe == wpe,
        m.vocab_size == vocab_size,
        m.lm_rank == d.lm_rank,
        m.learnable_ode == d.learnable_ode,
        m.use_layer_scale == d.use_layer_scale,
        m.use_lr_scale == d.use_lr_scale,
        !m.phase_native,
        m.blocks@.len() == n_layers,
        exists|v: InitValues<T>|
            {
                &&& #[trigger] values_fit(*ops, d.n_bands as int, v)
                &&& v.alpha == alpha
                &&& v.beta == beta
                &&& forall|l: int|
                    0 <= l < n_layers ==> fresh_block(
                        *ops,
                        #[trigger] m.blocks@[l],
                        v,
                        *d,
                        out_proj_groups as int,
                    )
                &&& neutral_norm(m.ln_f, v, d.n_embd as int)
                &&& m.tied_temperature == v.one
                &&& m.layer_scale@ == copies(v.one, n_layers as int)
                &&& m.lr_scale@ == copies(v.one, n_layers + 1)
                &&& m.output_corrector@ == copies(v.zero, d.n_bands as int)
            },
        decoder_fresh(m, *d, vocab_size as int),
        wave_decoder_fresh(*ops, m.wd_state, *d, m.wte@),
        blocks_drawn(m.blocks@, n_layers as int) + decoder_drawn(m, *d) == draws@,
{
    let total: usize = draws.len();
    let ghost each = block_draws(*d, out_proj_groups as int);
    let v: InitValues<T> = init_values(ops, d.n_bands, alpha, beta);
    let mut blocks: Vec<WaveBlockWeights<T>> = Vec::new();
    let mut at: usize = 0;
    let mut l: usize = 0;
    proof {
        lemma_parts_nonnegative(*d, out_proj_groups as int);
        assert(0 <= d.lm_rank * d.n_embd && 0 <= vocab_size * d.lm_rank && 0 <= vocab_size
            * d.n_embd) by (nonlinear_arith);
        assert(draws@.subrange(0, 0) =~= Seq::<T>::empty());
        assert(0 * each == 0);
    }
    while l < n_layers
        invariant
            total == draws@.len(),
            d.n_head > 0,
            each == block_draws(*d, out_proj_groups as int),
            0 <= each,
            0 <= decoder_draws(*d, vocab_size as int),
            total == n_layers * each + decoder_draws(*d, vocab_size as int),
            l <= n_layers,
            at == l * each,
            blocks@.len() == l,
            forall|j: int|
                0 <= j < l ==> fresh_block(
                    *ops,
                    #[trigger] blocks@[j],
                    v,
                    *d,
                    out_proj_groups as int,
                ),
            blocks_drawn(blocks@, l as int) == draws@.subrange(0, at as int),
            at <= total,
        decreases n_layers - l,
    {
        proof {
            assert((l + 1) * each <= n_layers * each) by (nonlinear_arith)
                requires
                    l < n_layers,
                    each >= 0,
            ;
            assert((l + 1) * each == l * each + each) by (nonlinear_arith);
        }
        let (block, next): (WaveBlockWeights<T>, usize) = init_block(
            ops,
            draws,
            at,
            d,
            out_proj_groups,
            &v,
        );
        let ghost before = blocks@;
        blocks.push(block);
        proof {
            lemma_blocks_prefix(before, blocks@, l as int);
            assert(draws@.subrange(0, next as int) =~= draws@.subrange(0, at as int)
                + draws@.subrange(at as int, next as int));
        }
        at = next;
        l += 1;
    }
    let tables: DecoderTables<T> = init_decoder(draws, at, d, vocab_size, &wte);
    let wd_state: Option<WaveDecodeState<T>> = if d.wave_decode {
        if d.unfreeze_phases {
            Some(init_unfrozen(ops, &wte, d.n_bands))
        } else {
            Some(init_frozen(ops, &wte, d.n_bands))
        }
    } else {
        None
    };
    let m: WavePacketModel<T> = WavePacketModel {
        wte,
        wpe,
        blocks,
        ln_f: init_norm(&v, d.n_embd),
        lm_head: tables.head,
        lm_down: tables.down,
        lm_up: tables.up,
        lm_rank: d.lm_rank,
        vocab_size,
        tied_temperature: v.one,
        wd_state,
        learnable_ode: d.learnable_ode,
        layer_scale: filled(v.one, n_layers),
        use_layer_scale: d.use_layer_scale,
        lr_scale: filled(v.one, n_layers + 1),
        use_lr_scale: d.use_lr_scale,
        phase_native: false,
        output_corrector: filled(v.zero, d.n_bands),
    };
    proof {
        assert(values_fit(*ops, d.n_bands as int, v));
        assert(m.layer_scale@ =~= copies(v.one, n_layers as int));
        assert(m.lr_scale@ =~= copies(v.one, n_layers + 1));
        assert(m.output_corrector@ =~= copies(v.zero, d.n_bands as int));
        assert(draws@ =~= draws@.subrange(0, at as int) + draws@.subrange(
            at as int,
            draws@.len() as int,
        ));
        assert(blocks_drawn(m.blocks@, n_layers as int) + decoder_drawn(m, *d) =~= draws@);
    }
    m
}

/// Runs taken `n` times.
pub open spec fn repeated(part: Seq<DrawRun>, n: int) -> Seq<DrawRun>
    decreases n,
{
    if n <= 0 {
        Seq::empty()
    } else {
        repeated(part, n - 1) + part
    }
}

proof fn lemma_repeated_total(part: Seq<DrawRun>, n: int)
    requires
        0 <= n,
    ensures
        runs_total(repeated(part, n)) == n * runs_total(part),
    decreases n,
{
    if n > 0 {
        lemma_repeated_total(part, n - 1);
        lemma_runs_total_append(repeated(part, n - 1), part);
        assert(n * runs_total(part) == (n - 1) * runs_total(part) + runs_total(part))
            by (nonlinear_arith);
    } else {
        assert(0 * runs_total(part) == 0);
    }
}

/// The runs of a head.
pub open spec fn head_runs(d: Dims) -> Seq<DrawRun> {
    seq![run(2 * d.n_embd, d.n_embd as int), run(head_dim(d) * head_dim(d), head_dim(d))]
}

/// The runs of a regulator.
pub open spec fn maestro_runs(d: Dims) -> Seq<DrawRun> {
    seq![
        run(d.maestro_dim * d.n_embd, d.n_embd as int),
        run(d.n_embd * d.maestro_dim, d.maestro_dim as int),
    ]
}

/// The runs of an output projection.
pub open spec fn proj_runs(d: Dims, groups: int) -> Seq<DrawRun> {
    if groups <= 1 {
        seq![run(d.n_embd * d.n_embd, d.n_embd as int)]
    } else {
        let size = d.n_embd as int / groups;
        repeated(seq![run(size * size, size)], groups)
    }
}

/// The runs of a block.
pub open spec fn block_runs(d: Dims, groups: int) -> Seq<DrawRun> {
    repeated(head_runs(d), d.n_head as int) + seq![run(d.n_embd * d.n_embd, d.n_embd as int)]
        + maestro_runs(d) + maestro_runs(d) + proj_runs(d, groups)
}

/// The runs of the decoder.
pub open spec fn decoder_runs(d: Dims, vocab: int) -> Seq<DrawRun> {
    if low_rank(d) {
        seq![
            run(d.lm_rank * d.n_embd, d.n_embd as int),
            run(vocab * d.lm_rank, d.lm_rank as int),
        ]
    } else if d.tied {
        Seq::empty()
    } else {
        seq![run(vocab * d.n_embd, d.n_embd as int)]
    }
}

/// The runs of random values that a fresh model takes, in order.
pub open spec fn model_runs(d: Dims, groups: int, n_layers: int, vocab: int) -> Seq<DrawRun> {
    repeated(block_runs(d, groups), n_layers) + decoder_runs(d, vocab)
}

/// Number of values that a fresh model takes.
pub open spec fn model_draws(d: Dims, groups: int, n_layers: int, vocab: int) -> int {
    n_layers * block_draws(d, groups) + decoder_draws(d, vocab)
}

proof fn lemma_block_runs_total(d: Dims, groups: int)
    requires
        d.n_head > 0,
        groups >= 0,
        block_draws(d, groups) <= usize::MAX,
    ensures
        runs_total(block_runs(d, groups)) == block_draws(d, groups),
{
    lemma_parts_nonnegative(d, groups);
    let hd = head_dim(d);
    let e = d.n_embd as int;
    let h = head_runs(d);
    reveal_with_fuel(runs_total, 3);
    assert(0 <= hd * hd) by (nonlinear_arith);
    assert(head_draws(e, hd) <= d.n_head * head_draws(e, hd)) by (nonlinear_arith)
        requires
            d.n_head >= 1,
            head_draws(e, hd) >= 0,
    ;
    assert(h.drop_last().drop_last() =~= Seq::empty());
    assert(runs_total(h) == head_draws(e, hd));
    lemma_repeated_total(h, d.n_head as int);
    let out = seq![run(e * e, e)];
    assert(out.drop_last() =~= Seq::empty());
    let m = maestro_runs(d);
    assert(m.drop_last().drop_last() =~= Seq::empty());
    let p = proj_runs(d, groups);
    if groups <= 1 {
        assert(p.drop_last() =~= Seq::empty());
    } else {
        let size = e / groups;
        let one = seq![run(size * size, size)];
        assert(0 <= size * size) by (nonlinear_arith);
        assert(size * size <= groups * (size * size)) by (nonlinear_arith)
            requires
                groups >= 1,
                size * size >= 0,
        ;
        assert(one.drop_last() =~= Seq::empty());
        lemma_repeated_total(one, groups);
    }
    let hs = repeated(h, d.n_head as int);
    lemma_runs_total_append(hs, out);
    lemma_runs_total_append(hs + out, m);
    lemma_runs_total_append(hs + out + m, m);
    lemma_runs_total_append(hs + out + m + m, p);
}

/// The runs hold exactly as many values as a fresh model uses up.
pub proof fn law_wave_runs_feed_model(d: Dims, groups: usize, n_layers: usize, vocab: usize)
    requires
        d.n_head > 0,
        n_layers > 0,
        model_draws(d, groups as int, n_layers as int, vocab as int) <= usize::MAX,
    ensures
        runs_total(model_runs(d, groups as int, n_layers as int, vocab as int)) == model_draws(
            d,
            groups as int,
            n_layers as int,
            vocab as int,
        ),
{
    lemma_parts_nonnegative(d, groups as int);
    let each = block_draws(d, groups as int);
    assert(0 <= d.lm_rank * d.n_embd && 0 <= vocab * d.lm_rank && 0 <= vocab * d.n_embd)
        by (nonlinear_arith);
    assert(each <= n_layers * each) by (nonlinear_arith)
        requires
            n_layers >= 1,
            each >= 0,
    ;
    lemma_block_runs_total(d, groups as int);
    lemma_repeated_total(block_runs(d, groups as int), n_layers as int);
    let dec = decoder_runs(d, vocab as int);
    reveal_with_fuel(runs_total, 3);
    if low_rank(d) {
        assert(dec.drop_last().drop_last() =~= Seq::empty());
    } else if !d.tied {
        assert(dec.drop_last() =~= Seq::empty());
    }
    lemma_runs_total_append(repeated(block_runs(d, groups as int), n_layers as int), dec);
}

fn repeat_runs(out: &mut Vec<DrawRun>, part: &Vec<DrawRun>, n: usize)
    ensures
        final(out)@ == old(out)@ + repeated(part@, n as int),
{
    let ghost start = out@;
    let mut i: usize = 0;
    assert(out@ =~= start + repeated(part@, 0));
    while i < n
        invariant
            i <= n,
            out@ == start + repeated(part@, i as int),
        decreases n - i,
    {
        extend_from(out, part);
        i += 1;
        assert(out@ =~= start + repeated(part@, i as int));
    }
}

/// The runs of random values that a fresh model takes, in order: block by block, then the
/// decoder.
pub fn draw_runs(d: &Dims, out_proj_groups: usize, n_layers: usize, vocab_size: usize) -> (runs: Vec<
    DrawRun,
>)
    requires
        d.n_head > 0,
        n_layers > 0,
        model_draws(*d, out_proj_groups as int, n_layers as int, vocab_size as int) <= usize::MAX,
    ensures
        runs@ == model_runs(*d, out_proj_groups as int, n_layers as int, vocab_size as int),
{
    let e: usize = d.n_embd;
    let md: usize = d.maestro_dim;
    let hd: usize = e / d.n_head;
    proof {
        lemma_parts_nonnegative(*d, out_proj_groups as int);
        let each = block_draws(*d, out_proj_groups as int);
        let one_head = head_draws(e as int, hd as int);
        assert(0 <= hd * hd) by (nonlinear_arith);
        assert(one_head <= d.n_head * one_head) by (nonlinear_arith)
            requires
                d.n_head >= 1,
                one_head >= 0,
        ;
        assert(each <= n_layers * each) by (nonlinear_arith)
            requires
                n_layers >= 1,
                each >= 0,
        ;
        assert(0 <= d.lm_rank * e && 0 <= vocab_size * d.lm_rank && 0 <= vocab_size * e)
            by (nonlinear_arith);
    }
    let heads: Vec<DrawRun> = vec![
        DrawRun { count: 2 * e, fan_in: e },
        DrawRun { count: hd * hd, fan_in: hd },
    ];
    assert(heads@ =~= head_runs(*d));
    let mut block: Vec<DrawRun> = Vec::new();
    repeat_runs(&mut block, &heads, d.n_head);
    block.push(DrawRun { count: e * e, fan_in: e });
    let ghost before = block@;
    block.push(DrawRun { count: md * e, fan_in: e });
    block.push(DrawRun { count: e * md, fan_in: md });
    block.push(DrawRun { count: md * e, fan_in: e });
    block.push(DrawRun { count: e * md, fan_in: md });
    assert(block@ =~= repeated(head_runs(*d), d.n_head as int) + seq![run(e * e, e as int)]
        + maestro_runs(*d) + maestro_runs(*d));
    if out_proj_groups <= 1 {
        block.push(DrawRun { count: e * e, fan_in: e });
    } else {
        let size: usize = e / out_proj_groups;
        proof {
            assert(0 <= size * size) by (nonlinear_arith);
            assert(size * size <= out_proj_groups * (size * size)) by (nonlinear_arith)
                requires
                    out_proj_groups >= 1,
                    size * size >= 0,
            ;
        }
        let one: Vec<DrawRun> = vec![DrawRun { count: size * size, fan_in: size }];
        assert(one@ =~= seq![run(size * size, size as int)]);
        repeat_runs(&mut block, &one, out_proj_groups);
    }
    assert(block@ =~= block_runs(*d, out_proj_groups as int));
    let mut runs: Vec<DrawRun> = Vec::new();
    repeat_runs(&mut runs, &block, n_layers);
    if d.lm_rank > 0 && d.lm_rank < e {
        runs.push(DrawRun { count: d.lm_rank * e, fan_in: e });
        runs.push(DrawRun { count: vocab_size * d.lm_rank, fan_in: d.lm_rank });
    } else if !d.tied {
        runs.push(DrawRun { count: vocab_size * e, fan_in: e });
    }
    assert(runs@ =~= model_runs(
        *d,
        out_proj_groups as int,
        n_layers as int,
        vocab_size as int,
    ));
    runs
}

} // verus!
