//! Scaling a trained checkpoint to more bands.
//!
//! Band `k` carries the same harmonic before and after, so its weights are kept
//! and the new bands are filled in. What stands where in the scaled parameter
//! vector is decided here as a plan: each entry is a parameter of the source, a
//! one, a zero or a small random number. Random entries are drawn in the order of
//! the plan.

use vstd::prelude::*;
use vstd::string::*;
use crate::text::{append_decimal, decimal};

verus! {

/// Request to scale a checkpoint.
pub struct ScaleConfig {
    pub source_path: String,
    pub target_bands: usize,
    pub target_head: usize,
    pub output_path: String,
    pub target_groups: usize,
    pub seed: u64,
}

/// Dimensions of the source checkpoint.
#[derive(Clone, Copy, Debug, PartialEq, Eq, Structural)]
pub struct SourceDims {
    pub n_bands: usize,
    pub n_layers: usize,
    pub maestro_dim: usize,
    pub out_proj_groups: usize,
    pub vocab_size: usize,
}

/// What an entry of the scaled parameter vector holds.
#[derive(Clone, Copy, Debug, PartialEq, Eq, Structural)]
pub enum Slot {
    /// The source parameter with this index.
    Source(usize),
    One,
    Zero,
    /// A fresh small random number.
    Random,
}

/// Why a checkpoint cannot be scaled.
#[derive(Clone, Copy, Debug, PartialEq, Eq, Structural)]
pub enum ScaleError {
    /// The target has no more bands than the source.
    BandsNotLarger { target: usize, source: usize },
    /// The heads do not share the target embedding evenly.
    HeadMismatch { n_embd: usize, n_head: usize },
}

/// The message of a scaling error.
pub open spec fn error_text(e: ScaleError) -> Seq<char> {
    match e {
        ScaleError::BandsNotLarger { target, source } => "Target bands ("@ + decimal(
            target as nat,
        ) + ") must be greater than source ("@ + decimal(source as nat) + ")"@,
        ScaleError::HeadMismatch { n_embd, n_head } => "Target n_embd ("@ + decimal(n_embd as nat)
            + ") must be divisible by target n_head ("@ + decimal(n_head as nat) + ")"@,
    }
}

impl ScaleError {
    /// The message of the error.
    pub fn message(&self) -> (text: String)
        ensures
            text@ == error_text(*self),
    {
        match self {
            ScaleError::BandsNotLarger { target, source } => {
                let mut text: String = String::from_str("Target bands (");
                append_decimal(&mut text, *target);
                text.append(") must be greater than source (");
                append_decimal(&mut text, *source);
                text.append(")");
                text
            },
            ScaleError::HeadMismatch { n_embd, n_head } => {
                let mut text: String = String::from_str("Target n_embd (");
                append_decimal(&mut text, *n_embd);
                text.append(") must be divisible by target n_head (");
                append_decimal(&mut text, *n_head);
                text.append(")");
                text
            },
        }
    }
}

/// Parameters of an output projection with `groups` groups.
pub open spec fn proj_len(embd: int, groups: int) -> int {
    groups * ((embd / groups) * (embd / groups) + embd / groups)
}

/// Parameters of one regulator.
pub open spec fn maestro_len(embd: int, md: int) -> int {
    md * embd + md + embd * md + embd
}

/// Parameters of one block.
pub open spec fn block_len(embd: int, md: int, groups: int) -> int {
    4 * embd + maestro_len(embd, md) + maestro_len(embd, md) + proj_len(embd, groups)
}

/// Parameters of a checkpoint.
pub open spec fn params_len(
    bands: int,
    n_layers: int,
    md: int,
    groups: int,
    vocab: int,
) -> int {
    n_layers * block_len(2 * bands, md, groups) + (2 * bands) * 2 + vocab * (2 * bands)
}

impl SourceDims {
    /// Number of parameters of the source.
    pub open spec fn n_params(&self) -> int {
        params_len(
            self.n_bands as int,
            self.n_layers as int,
            self.maestro_dim as int,
            self.out_proj_groups as int,
            self.vocab_size as int,
        )
    }
}

/// `len` source parameters from `start` on, padded or cut to `new_len` entries.
pub open spec fn vector_plan(start: int, len: int, new_len: int, fill: Slot) -> Seq<Slot> {
    Seq::new(
        new_len as nat,
        |i: int|
            if i < len {
                Slot::Source((start + i) as usize)
            } else {
                fill
            },
    )
}

/// The larger of two numbers.
pub open spec fn larger(a: int, b: int) -> int {
    if a >= b {
        a
    } else {
        b
    }
}

/// Row `i` of a padded matrix: a source row with new columns, or a new row.
pub open spec fn row_plan(
    start: int,
    rows: int,
    cols: int,
    new_cols: int,
    fill: Slot,
    i: int,
) -> Seq<Slot> {
    if i < rows {
        vector_plan(start + i * cols, cols, larger(cols, new_cols), fill)
    } else {
        vector_plan(0, 0, new_cols, fill)
    }
}

/// The first `n` rows of a padded matrix.
pub open spec fn matrix_rows(
    start: int,
    rows: int,
    cols: int,
    new_cols: int,
    fill: Slot,
    n: int,
) -> Seq<Slot>
    decreases n,
{
    if n <= 0 {
        Seq::empty()
    } else {
        matrix_rows(start, rows, cols, new_cols, fill, n - 1) + row_plan(
            start,
            rows,
            cols,
            new_cols,
            fill,
            n - 1,
        )
    }
}

/// A source matrix of `rows` by `cols`, padded to at least `new_rows` by
/// `new_cols`; the source stands in the top left.
pub open spec fn matrix_plan(
    start: int,
    rows: int,
    cols: int,
    new_rows: int,
    new_cols: int,
    fill: Slot,
) -> Seq<Slot> {
    matrix_rows(start, rows, cols, new_cols, fill, larger(rows, new_rows))
}

/// The two normalisations of a block.
pub open spec fn norms_plan(at: int, src: int, tgt: int) -> Seq<Slot> {
    vector_plan(at, src, tgt, Slot::One) + vector_plan(at + src, src, tgt, Slot::Zero)
        + vector_plan(at + 2 * src, src, tgt, Slot::One) + vector_plan(
        at + 3 * src,
        src,
        tgt,
        Slot::Zero,
    )
}

/// A regulator: new inputs are ignored at first, new outputs are random.
pub open spec fn maestro_plan(at: int, src: int, tgt: int, md: int) -> Seq<Slot> {
    matrix_plan(at, md, src, md, tgt, Slot::Zero) + vector_plan(at + md * src, md, md, Slot::Zero)
        + matrix_plan(at + md * src + md, src, md, tgt, md, Slot::Random) + vector_plan(
        at + md * src + md + src * md,
        src,
        tgt,
        Slot::Zero,
    )
}

/// Row `i` of group `g` cut out of a dense source.
pub open spec fn cut_row(at: int, src: int, gs: int, g: int, i: int) -> Seq<Slot> {
    Seq::new(
        gs as nat,
        |j: int|
            if g * gs + i < src && g * gs + j < src {
                Slot::Source((at + (g * gs + i) * src + (g * gs + j)) as usize)
            } else {
                Slot::Random
            },
    )
}

/// The first `n` rows of group `g` cut out of a dense source.
pub open spec fn cut_rows(at: int, src: int, gs: int, g: int, n: int) -> Seq<Slot>
    decreases n,
{
    if n <= 0 {
        Seq::empty()
    } else {
        cut_rows(at, src, gs, g, n - 1) + cut_row(at, src, gs, g, n - 1)
    }
}

/// The bias of group `g` cut out of a dense source.
pub open spec fn cut_bias(at: int, src: int, gs: int, g: int) -> Seq<Slot> {
    Seq::new(
        gs as nat,
        |i: int|
            if g * gs + i < src {
                Slot::Source((at + src * src + (g * gs + i)) as usize)
            } else {
                Slot::Zero
            },
    )
}

/// The first `n` diagonal blocks of a dense source.
pub open spec fn cut_plan(at: int, src: int, gs: int, n: int) -> Seq<Slot>
    decreases n,
{
    if n <= 0 {
        Seq::empty()
    } else {
        cut_plan(at, src, gs, n - 1) + cut_rows(at, src, gs, n - 1, gs) + cut_bias(
            at,
            src,
            gs,
            n - 1,
        )
    }
}

/// The weight between dimensions `i` and `j` of a target whose source has groups: that of the
/// source where a source group holds both, none where two source groups hold them, and a fresh
/// one where either is new.
pub open spec fn embed_slot(at: int, src: int, groups: int, gs: int, i: int, j: int) -> Slot {
    if i < groups * gs && j < groups * gs && i / gs == j / gs {
        Slot::Source((at + (i / gs) * (gs * gs + gs) + (i % gs) * gs + j % gs) as usize)
    } else if i >= src || j >= src {
        Slot::Random
    } else {
        Slot::Zero
    }
}

/// The bias of dimension `i` of a target whose source has groups.
pub open spec fn bias_slot(at: int, groups: int, gs: int, i: int) -> Slot {
    if i < groups * gs {
        Slot::Source((at + (i / gs) * (gs * gs + gs) + gs * gs + i % gs) as usize)
    } else {
        Slot::Zero
    }
}

/// Row `i` of a dense target that embeds the groups of the source along its
/// diagonal.
pub open spec fn embed_row(
    at: int,
    src: int,
    tgt: int,
    groups: int,
    gs: int,
    i: int,
) -> Seq<Slot> {
    Seq::new(tgt as nat, |j: int| embed_slot(at, src, groups, gs, i, j))
}

/// The first `n` rows of a dense target that embeds the groups of the source.
pub open spec fn embed_rows(
    at: int,
    src: int,
    tgt: int,
    groups: int,
    gs: int,
    n: int,
) -> Seq<Slot>
    decreases n,
{
    if n <= 0 {
        Seq::empty()
    } else {
        embed_rows(at, src, tgt, groups, gs, n - 1) + embed_row(at, src, tgt, groups, gs, n - 1)
    }
}

/// The bias of a dense target that embeds the groups of the source.
pub open spec fn embed_bias(at: int, tgt: int, groups: int, gs: int) -> Seq<Slot> {
    Seq::new(tgt as nat, |i: int| bias_slot(at, groups, gs, i))
}

/// Row `i` of target group `g` of a block-diagonal target. A dimension keeps its place, so a
/// band's weights stay with the band whatever the sizes of the groups.
pub open spec fn group_row(
    at: int,
    src: int,
    groups: int,
    gs: int,
    tgs: int,
    g: int,
    i: int,
) -> Seq<Slot> {
    Seq::new(
        tgs as nat,
        |j: int| embed_slot(at, src, groups, gs, g * tgs + i, g * tgs + j),
    )
}

/// The first `n` rows of target group `g`.
pub open spec fn group_rows(
    at: int,
    src: int,
    groups: int,
    gs: int,
    tgs: int,
    g: int,
    n: int,
) -> Seq<Slot>
    decreases n,
{
    if n <= 0 {
        Seq::empty()
    } else {
        group_rows(at, src, groups, gs, tgs, g, n - 1) + group_row(
            at,
            src,
            groups,
            gs,
            tgs,
            g,
            n - 1,
        )
    }
}

/// The bias of target group `g`.
pub open spec fn group_bias(at: int, groups: int, gs: int, tgs: int, g: int) -> Seq<Slot> {
    Seq::new(tgs as nat, |i: int| bias_slot(at, groups, gs, g * tgs + i))
}

/// The first `n` groups of a block-diagonal target.
pub open spec fn groups_plan(
    at: int,
    src: int,
    groups: int,
    gs: int,
    tgs: int,
    n: int,
) -> Seq<Slot>
    decreases n,
{
    if n <= 0 {
        Seq::empty()
    } else {
        groups_plan(at, src, groups, gs, tgs, n - 1) + group_rows(
            at,
            src,
            groups,
            gs,
            tgs,
            n - 1,
            tgs,
        ) + group_bias(at, groups, gs, tgs, n - 1)
    }
}

/// The output projection, from dense or groups to dense or groups.
pub open spec fn proj_plan(
    at: int,
    src: int,
    tgt: int,
    src_groups: int,
    tgt_groups: int,
) -> Seq<Slot> {
    let gs = src / src_groups;
    let tgs = tgt / tgt_groups;
    if src_groups == 1 {
        if tgt_groups == 1 {
            matrix_plan(at, src, src, tgt, tgt, Slot::Random) + vector_plan(
                at + src * src,
                src,
                tgt,
                Slot::Zero,
            )
        } else {
            cut_plan(at, src, tgs, tgt_groups)
        }
    } else if tgt_groups == 1 {
        embed_rows(at, src, tgt, src_groups, gs, tgt) + embed_bias(at, tgt, src_groups, gs)
    } else {
        groups_plan(at, src, src_groups, gs, tgs, tgt_groups)
    }
}

/// One block.
pub open spec fn block_plan(
    at: int,
    src: int,
    tgt: int,
    md: int,
    src_groups: int,
    tgt_groups: int,
) -> Seq<Slot> {
    norms_plan(at, src, tgt) + maestro_plan(at + 4 * src, src, tgt, md) + maestro_plan(
        at + 4 * src + maestro_len(src, md),
        src,
        tgt,
        md,
    ) + proj_plan(
        at + 4 * src + maestro_len(src, md) + maestro_len(src, md),
        src,
        tgt,
        src_groups,
        tgt_groups,
    )
}

/// The first `n` blocks.
pub open spec fn blocks_plan(
    src: int,
    tgt: int,
    md: int,
    src_groups: int,
    tgt_groups: int,
    n: int,
) -> Seq<Slot>
    decreases n,
{
    if n <= 0 {
        Seq::empty()
    } else {
        blocks_plan(src, tgt, md, src_groups, tgt_groups, n - 1) + block_plan(
            (n - 1) * block_len(src, md, src_groups),
            src,
            tgt,
            md,
            src_groups,
            tgt_groups,
        )
    }
}

/// The final normalisation and the head.
pub open spec fn tail_plan(at: int, src: int, tgt: int, vocab: int) -> Seq<Slot> {
    vector_plan(at, src, tgt, Slot::One) + vector_plan(at + src, src, tgt, Slot::Zero)
        + matrix_plan(at + 2 * src, vocab, src, vocab, tgt, Slot::Random)
}

/// The whole scaled parameter vector.
pub open spec fn spec_plan(source: SourceDims, target_bands: int, target_groups: int) -> Seq<
    Slot,
> {
    let src = 2 * source.n_bands;
    let tgt = 2 * target_bands;
    let md = source.maestro_dim as int;
    let g = source.out_proj_groups as int;
    let n = source.n_layers as int;
    blocks_plan(src, tgt, md, g, target_groups, n) + tail_plan(
        n * block_len(src, md, g),
        src,
        tgt,
        source.vocab_size as int,
    )
}

/// Appends a padded vector.
fn emit_vector(plan: &mut Vec<Slot>, start: usize, len: usize, new_len: usize, fill: Slot)
    requires
        start + len <= usize::MAX,
    ensures
        final(plan)@ == old(plan)@ + vector_plan(start as int, len as int, new_len as int, fill),
{
    let mut i: usize = 0;
    while i < new_len
        invariant
            start + len <= usize::MAX,
            i <= new_len,
            plan@ == old(plan)@ + vector_plan(start as int, len as int, i as int, fill),
        decreases new_len - i,
    {
        if i < len {
            plan.push(Slot::Source(start + i));
        } else {
            plan.push(fill);
        }
        i += 1;
        assert(plan@ =~= old(plan)@ + vector_plan(start as int, len as int, i as int, fill));
    }
}

/// Appends a padded matrix.
fn emit_matrix(
    plan: &mut Vec<Slot>,
    start: usize,
    rows: usize,
    cols: usize,
    new_rows: usize,
    new_cols: usize,
    fill: Slot,
)
    requires
        start + rows * cols <= usize::MAX,
    ensures
        final(plan)@ == old(plan)@ + matrix_plan(
            start as int,
            rows as int,
            cols as int,
            new_rows as int,
            new_cols as int,
            fill,
        ),
{
    let n: usize = if rows >= new_rows {
        rows
    } else {
        new_rows
    };
    let width: usize = if cols >= new_cols {
        cols
    } else {
        new_cols
    };
    let mut i: usize = 0;
    let mut at: usize = start;
    assert(0 * cols == 0) by (nonlinear_arith);
    assert(plan@ =~= old(plan)@ + matrix_rows(
        start as int,
        rows as int,
        cols as int,
        new_cols as int,
        fill,
        0,
    ));
    while i < n
        invariant
            start + rows * cols <= usize::MAX,
            n == larger(rows as int, new_rows as int),
            width == larger(cols as int, new_cols as int),
            i <= n,
            i <= rows ==> at == start + i * cols,
            plan@ == old(plan)@ + matrix_rows(
                start as int,
                rows as int,
                cols as int,
                new_cols as int,
                fill,
                i as int,
            ),
        decreases n - i,
    {
        let ghost before = plan@;
        if i < rows {
            assert((i + 1) * cols == i * cols + cols) by (nonlinear_arith);
            assert((i + 1) * cols <= rows * cols) by (nonlinear_arith)
                requires
                    i + 1 <= rows,
            ;
            emit_vector(plan, at, cols, width, fill);
            at = at + cols;
        } else {
            emit_vector(plan, 0, 0, new_cols, fill);
        }
        i += 1;
        assert(plan@ =~= old(plan)@ + matrix_rows(
            start as int,
            rows as int,
            cols as int,
            new_cols as int,
            fill,
            i as int,
        ));
    }
}

/// Appends the normalisations of a block.
fn emit_norms(plan: &mut Vec<Slot>, at: usize, src: usize, tgt: usize)
    requires
        at + 4 * src <= usize::MAX,
    ensures
        final(plan)@ == old(plan)@ + norms_plan(at as int, src as int, tgt as int),
{
    emit_vector(plan, at, src, tgt, Slot::One);
    emit_vector(plan, at + src, src, tgt, Slot::Zero);
    emit_vector(plan, at + 2 * src, src, tgt, Slot::One);
    emit_vector(plan, at + 3 * src, src, tgt, Slot::Zero);
    assert(plan@ =~= old(plan)@ + norms_plan(at as int, src as int, tgt as int));
}

/// Appends a regulator and returns the source offset past it.
fn emit_maestro(plan: &mut Vec<Slot>, at: usize, src: usize, tgt: usize, md: usize) -> (next: usize)
    requires
        at + maestro_len(src as int, md as int) <= usize::MAX,
        src <= tgt,
    ensures
        next == at + maestro_len(src as int, md as int),
        final(plan)@ == old(plan)@ + maestro_plan(at as int, src as int, tgt as int, md as int),
{
    assert(md * src >= 0 && src * md >= 0) by (nonlinear_arith);
    emit_matrix(plan, at, md, src, md, tgt, Slot::Zero);
    let b1: usize = at + md * src;
    emit_vector(plan, b1, md, md, Slot::Zero);
    let b2: usize = b1 + md;
    emit_matrix(plan, b2, src, md, tgt, md, Slot::Random);
    let b3: usize = b2 + src * md;
    emit_vector(plan, b3, src, tgt, Slot::Zero);
    assert(plan@ =~= old(plan)@ + maestro_plan(at as int, src as int, tgt as int, md as int));
    b3 + src
}

/// Appends the diagonal blocks of a dense source.
fn emit_cut(plan: &mut Vec<Slot>, at: usize, src: usize, gs: usize, groups: usize)
    requires
        at + src * src + src <= usize::MAX,
        groups * gs <= usize::MAX,
    ensures
        final(plan)@ == old(plan)@ + cut_plan(at as int, src as int, gs as int, groups as int),
{
    let mut g: usize = 0;
    assert(plan@ =~= old(plan)@ + cut_plan(at as int, src as int, gs as int, 0));
    assert(src * src >= 0) by (nonlinear_arith);
    while g < groups
        invariant
            at + src * src + src <= usize::MAX,
            src * src >= 0,
            groups * gs <= usize::MAX,
            g <= groups,
            plan@ == old(plan)@ + cut_plan(at as int, src as int, gs as int, g as int),
        decreases groups - g,
    {
        assert(g * gs + gs <= groups * gs && 0 <= g * gs) by (nonlinear_arith)
            requires
                g + 1 <= groups,
        ;
        let base: usize = g * gs;
        let ghost start = plan@;
        let mut i: usize = 0;
        assert(plan@ =~= start + cut_rows(at as int, src as int, gs as int, g as int, 0));
        while i < gs
            invariant
                at + src * src + src <= usize::MAX,
                src * src >= 0,
                base == g * gs,
                base + gs <= usize::MAX,
                i <= gs,
                plan@ == start + cut_rows(at as int, src as int, gs as int, g as int, i as int),
            decreases gs - i,
        {
            let ghost before = plan@;
            let ghost row = cut_row(at as int, src as int, gs as int, g as int, i as int);
            let mut j: usize = 0;
            while j < gs
                invariant
                    at + src * src + src <= usize::MAX,
                    src * src >= 0,
                    base == g * gs,
                    base + gs <= usize::MAX,
                    i < gs,
                    j <= gs,
                    row == cut_row(at as int, src as int, gs as int, g as int, i as int),
                    plan@ == before + row.subrange(0, j as int),
                decreases gs - j,
            {
                let si: usize = base + i;
                let sj: usize = base + j;
                if si < src && sj < src {
                    assert(si * src + sj < src * src && si * src >= 0) by (nonlinear_arith)
                        requires
                            si < src,
                            sj < src,
                    ;
                    plan.push(Slot::Source(at + si * src + sj));
                } else {
                    plan.push(Slot::Random);
                }
                j += 1;
                assert(row.subrange(0, j as int) =~= row.subrange(0, j - 1).push(row[j - 1]));
            }
            assert(row.subrange(0, gs as int) =~= row);
            i += 1;
            assert(plan@ =~= start + cut_rows(
                at as int,
                src as int,
                gs as int,
                g as int,
                i as int,
            ));
        }
        let ghost before = plan@;
        let ghost bias = cut_bias(at as int, src as int, gs as int, g as int);
        let mut i: usize = 0;
        while i < gs
            invariant
                at + src * src + src <= usize::MAX,
                src * src >= 0,
                base == g * gs,
                base + gs <= usize::MAX,
                i <= gs,
                bias == cut_bias(at as int, src as int, gs as int, g as int),
                plan@ == before + bias.subrange(0, i as int),
            decreases gs - i,
        {
            let si: usize = base + i;
            if si < src {
                plan.push(Slot::Source(at + src * src + si));
            } else {
                plan.push(Slot::Zero);
            }
            i += 1;
            assert(bias.subrange(0, i as int) =~= bias.subrange(0, i - 1).push(bias[i - 1]));
        }
        assert(bias.subrange(0, gs as int) =~= bias);
        g += 1;
        assert(plan@ =~= old(plan)@ + cut_plan(at as int, src as int, gs as int, g as int));
    }
}

/// A position inside the groups belongs to one of them.
proof fn lemma_group_of(i: int, groups: int, gs: int)
    requires
        0 <= i < groups * gs,
        groups >= 0,
        gs >= 0,
    ensures
        gs > 0,
        0 <= i / gs < groups,
        0 <= i % gs < gs,
        i == (i / gs) * gs + i % gs,
{
    assert(gs > 0) by (nonlinear_arith)
        requires
            0 <= i < groups * gs,
            gs >= 0,
    ;
    vstd::arithmetic::div_mod::lemma_fundamental_div_mod(i, gs);
    let q = i / gs;
    assert(0 <= q < groups) by (nonlinear_arith)
        requires
            i == gs * q + i % gs,
            0 <= i % gs < gs,
            0 <= i < groups * gs,
    ;
    assert(gs * q == q * gs) by (nonlinear_arith);
}

/// An entry of a group lies inside the groups' parameters.
proof fn lemma_group_index(at: int, q: int, groups: int, gs: int, k: int)
    requires
        0 <= q < groups,
        0 <= k < gs * gs + gs,
        at + groups * (gs * gs + gs) <= usize::MAX,
        0 <= at,
        0 <= gs,
    ensures
        at <= at + q * (gs * gs + gs) + k < at + groups * (gs * gs + gs),
{
    let each = gs * gs + gs;
    assert(gs * gs >= 0) by (nonlinear_arith);
    assert(q * each + each <= groups * each && 0 <= q * each) by (nonlinear_arith)
        requires
            0 <= q,
            q + 1 <= groups,
            each >= 0,
    ;
}

/// The weight between two dimensions of a target whose source has groups.
fn slot_between(
    at: usize,
    src: usize,
    groups: usize,
    gs: usize,
    covered: usize,
    i: usize,
    j: usize,
) -> (slot: Slot)
    requires
        covered == groups * gs,
        at + groups * (gs * gs + gs) <= usize::MAX,
    ensures
        slot == embed_slot(at as int, src as int, groups as int, gs as int, i as int, j as int),
{
    proof {
        if i < covered && j < covered {
            lemma_group_of(i as int, groups as int, gs as int);
            lemma_group_of(j as int, groups as int, gs as int);
        }
    }
    if i < covered && j < covered && i / gs == j / gs {
        let q: usize = i / gs;
        let x: usize = i % gs;
        let y: usize = j % gs;
        assert(x * gs + y < gs * gs && x * gs >= 0 && gs * gs >= 0) by (nonlinear_arith)
            requires
                x < gs,
                y < gs,
        ;
        proof {
            lemma_group_index(at as int, q as int, groups as int, gs as int, x * gs + y);
            assert(gs * gs + gs <= groups * (gs * gs + gs)) by (nonlinear_arith)
                requires
                    groups >= 1,
                    gs * gs + gs >= 0,
            ;
            assert(0 <= q * (gs * gs + gs)) by (nonlinear_arith)
                requires
                    q >= 0,
                    gs * gs + gs >= 0,
            ;
        }
        Slot::Source(at + q * (gs * gs + gs) + x * gs + y)
    } else if i >= src || j >= src {
        Slot::Random
    } else {
        Slot::Zero
    }
}

/// The bias of a dimension of a target whose source has groups.
fn slot_of_bias(at: usize, groups: usize, gs: usize, covered: usize, i: usize) -> (slot: Slot)
    requires
        covered == groups * gs,
        at + groups * (gs * gs + gs) <= usize::MAX,
    ensures
        slot == bias_slot(at as int, groups as int, gs as int, i as int),
{
    if i < covered {
        proof {
            lemma_group_of(i as int, groups as int, gs as int);
            assert(gs * gs >= 0) by (nonlinear_arith);
            lemma_group_index(
                at as int,
                i as int / gs as int,
                groups as int,
                gs as int,
                gs * gs + i as int % gs as int,
            );
            let q = i as int / gs as int;
            assert(gs * gs + gs <= groups * (gs * gs + gs)) by (nonlinear_arith)
                requires
                    groups >= 1,
                    gs * gs + gs >= 0,
            ;
            assert(0 <= q * (gs * gs + gs)) by (nonlinear_arith)
                requires
                    q >= 0,
                    gs * gs + gs >= 0,
            ;
        }
        Slot::Source(at + (i / gs) * (gs * gs + gs) + gs * gs + i % gs)
    } else {
        Slot::Zero
    }
}

/// Appends a dense target that embeds the groups of the source.
fn emit_embed(
    plan: &mut Vec<Slot>,
    at: usize,
    src: usize,
    tgt: usize,
    groups: usize,
    gs: usize,
)
    requires
        groups * gs <= src,
        at + groups * (gs * gs + gs) <= usize::MAX,
    ensures
        final(plan)@ == old(plan)@ + embed_rows(
            at as int,
            src as int,
            tgt as int,
            groups as int,
            gs as int,
            tgt as int,
        ) + embed_bias(at as int, tgt as int, groups as int, gs as int),
{
    assert(0 <= groups * gs) by (nonlinear_arith);
    let covered: usize = groups * gs;
    let ghost start = plan@;
    let mut i: usize = 0;
    assert(plan@ =~= start + embed_rows(
        at as int,
        src as int,
        tgt as int,
        groups as int,
        gs as int,
        0,
    ));
    while i < tgt
        invariant
            covered == groups * gs,
            covered <= src,
            at + groups * (gs * gs + gs) <= usize::MAX,
            i <= tgt,
            plan@ == start + embed_rows(
                at as int,
                src as int,
                tgt as int,
                groups as int,
                gs as int,
                i as int,
            ),
        decreases tgt - i,
    {
        let ghost before = plan@;
        let ghost row = embed_row(
            at as int,
            src as int,
            tgt as int,
            groups as int,
            gs as int,
            i as int,
        );
        let mut j: usize = 0;
        while j < tgt
            invariant
                covered == groups * gs,
                at + groups * (gs * gs + gs) <= usize::MAX,
                i < tgt,
                j <= tgt,
                row == embed_row(
                    at as int,
                    src as int,
                    tgt as int,
                    groups as int,
                    gs as int,
                    i as int,
                ),
                plan@ == before + row.subrange(0, j as int),
            decreases tgt - j,
        {
            plan.push(slot_between(at, src, groups, gs, covered, i, j));
            j += 1;
            assert(row.subrange(0, j as int) =~= row.subrange(0, j - 1).push(row[j - 1]));
        }
        assert(row.subrange(0, tgt as int) =~= row);
        i += 1;
        assert(plan@ =~= start + embed_rows(
            at as int,
            src as int,
            tgt as int,
            groups as int,
            gs as int,
            i as int,
        ));
    }
    let ghost before = plan@;
    let ghost bias = embed_bias(at as int, tgt as int, groups as int, gs as int);
    let mut i: usize = 0;
    while i < tgt
        invariant
            covered == groups * gs,
            at + groups * (gs * gs + gs) <= usize::MAX,
            i <= tgt,
            bias == embed_bias(at as int, tgt as int, groups as int, gs as int),
            plan@ == before + bias.subrange(0, i as int),
        decreases tgt - i,
    {
        plan.push(slot_of_bias(at, groups, gs, covered, i));
        i += 1;
        assert(bias.subrange(0, i as int) =~= bias.subrange(0, i - 1).push(bias[i - 1]));
    }
    assert(bias.subrange(0, tgt as int) =~= bias);
}

/// Appends the rows of target group `g` of a block-diagonal target.
fn emit_group_rows(
    plan: &mut Vec<Slot>,
    at: usize,
    src: usize,
    groups: usize,
    gs: usize,
    tgs: usize,
    g: usize,
)
    requires
        at + groups * (gs * gs + gs) <= usize::MAX,
        groups * gs <= usize::MAX,
        g * tgs + tgs <= usize::MAX,
    ensures
        final(plan)@ == old(plan)@ + group_rows(
            at as int,
            src as int,
            groups as int,
            gs as int,
            tgs as int,
            g as int,
            tgs as int,
        ),
{
    assert(0 <= groups * gs && 0 <= g * tgs) by (nonlinear_arith);
    let covered: usize = groups * gs;
    let base: usize = g * tgs;
    let ghost (a, sr, gr, sz, ts, gg) = (
        at as int,
        src as int,
        groups as int,
        gs as int,
        tgs as int,
        g as int,
    );
    let ghost start = plan@;
    let mut i: usize = 0;
    assert(plan@ =~= start + group_rows(a, sr, gr, sz, ts, gg, 0));
    while i < tgs
        invariant
            a == at && sr == src && gr == groups && sz == gs && ts == tgs && gg == g,
            covered == groups * gs,
            base == g * tgs,
            base + tgs <= usize::MAX,
            at + groups * (gs * gs + gs) <= usize::MAX,
            i <= tgs,
            plan@ == start + group_rows(a, sr, gr, sz, ts, gg, i as int),
        decreases tgs - i,
    {
        let ghost before = plan@;
        let ghost row = group_row(a, sr, gr, sz, ts, gg, i as int);
        let mut j: usize = 0;
        while j < tgs
            invariant
                a == at && sr == src && gr == groups && sz == gs && ts == tgs && gg == g,
                covered == groups * gs,
                base == g * tgs,
                base + tgs <= usize::MAX,
                at + groups * (gs * gs + gs) <= usize::MAX,
                i < tgs,
                j <= tgs,
                row == group_row(a, sr, gr, sz, ts, gg, i as int),
                plan@ == before + row.subrange(0, j as int),
            decreases tgs - j,
        {
            plan.push(slot_between(at, src, groups, gs, covered, base + i, base + j));
            j += 1;
            assert(row.subrange(0, j as int) =~= row.subrange(0, j - 1).push(row[j - 1]));
        }
        assert(row.subrange(0, tgs as int) =~= row);
        i += 1;
        assert(plan@ =~= start + group_rows(a, sr, gr, sz, ts, gg, i as int));
    }
}

/// Appends the groups of a block-diagonal target.
fn emit_groups(
    plan: &mut Vec<Slot>,
    at: usize,
    src: usize,
    groups: usize,
    gs: usize,
    tgs: usize,
    tgt_groups: usize,
)
    requires
        at + groups * (gs * gs + gs) <= usize::MAX,
        groups * gs <= usize::MAX,
        tgt_groups * tgs <= usize::MAX,
    ensures
        final(plan)@ == old(plan)@ + groups_plan(
            at as int,
            src as int,
            groups as int,
            gs as int,
            tgs as int,
            tgt_groups as int,
        ),
{
    assert(0 <= groups * gs) by (nonlinear_arith);
    let covered: usize = groups * gs;
    let ghost (a, sr, gr, sz, ts) = (
        at as int,
        src as int,
        groups as int,
        gs as int,
        tgs as int,
    );
    let ghost start = plan@;
    let mut g: usize = 0;
    assert(plan@ =~= start + groups_plan(a, sr, gr, sz, ts, 0));
    while g < tgt_groups
        invariant
            a == at && sr == src && gr == groups && sz == gs && ts == tgs,
            covered == groups * gs,
            at + groups * (gs * gs + gs) <= usize::MAX,
            groups * gs <= usize::MAX,
            tgt_groups * tgs <= usize::MAX,
            g <= tgt_groups,
            plan@ == start + groups_plan(a, sr, gr, sz, ts, g as int),
        decreases tgt_groups - g,
    {
        assert(g * tgs + tgs <= tgt_groups * tgs && 0 <= g * tgs) by (nonlinear_arith)
            requires
                g + 1 <= tgt_groups,
        ;
        let base: usize = g * tgs;
        emit_group_rows(plan, at, src, groups, gs, tgs, g);
        let ghost before = plan@;
        let ghost bias = group_bias(a, gr, sz, ts, g as int);
        let mut i: usize = 0;
        while i < tgs
            invariant
                a == at && gr == groups && sz == gs && ts == tgs,
                covered == groups * gs,
                base == g * tgs,
                base + tgs <= usize::MAX,
                at + groups * (gs * gs + gs) <= usize::MAX,
                i <= tgs,
                bias == group_bias(a, gr, sz, ts, g as int),
                plan@ == before + bias.subrange(0, i as int),
            decreases tgs - i,
        {
            plan.push(slot_of_bias(at, groups, gs, covered, base + i));
            i += 1;
            assert(bias.subrange(0, i as int) =~= bias.subrange(0, i - 1).push(bias[i - 1]));
        }
        assert(bias.subrange(0, tgs as int) =~= bias);
        g += 1;
        assert(plan@ =~= start + groups_plan(a, sr, gr, sz, ts, g as int));
    }
}

/// One group covers its share of the embedding.
proof fn lemma_groups_fit(embd: int, groups: int)
    requires
        groups > 0,
        embd >= 0,
    ensures
        0 <= groups * (embd / groups) <= embd,
        0 <= embd / groups,
        0 <= proj_len(embd, groups),
{
    vstd::arithmetic::div_mod::lemma_fundamental_div_mod(embd, groups);
    vstd::arithmetic::div_mod::lemma_div_pos_is_pos(embd, groups);
    let gs = embd / groups;
    assert(0 <= groups * gs) by (nonlinear_arith)
        requires
            groups > 0,
            gs >= 0,
    ;
    assert(0 <= groups * (gs * gs + gs)) by (nonlinear_arith)
        requires
            groups > 0,
            gs >= 0,
    ;
}

/// Appends the output projection.
fn emit_proj(
    plan: &mut Vec<Slot>,
    at: usize,
    src: usize,
    tgt: usize,
    src_groups: usize,
    tgt_groups: usize,
)
    requires
        src_groups > 0,
        tgt_groups > 0,
        at + proj_len(src as int, src_groups as int) <= usize::MAX,
    ensures
        final(plan)@ == old(plan)@ + proj_plan(
            at as int,
            src as int,
            tgt as int,
            src_groups as int,
            tgt_groups as int,
        ),
{
    let gs: usize = src / src_groups;
    let tgs: usize = tgt / tgt_groups;
    proof {
        lemma_groups_fit(src as int, src_groups as int);
        lemma_groups_fit(tgt as int, tgt_groups as int);
    }
    if src_groups == 1 {
        assert(gs == src);
        assert(proj_len(src as int, 1) == src * src + src);
        assert(src * src >= 0) by (nonlinear_arith);
        if tgt_groups == 1 {
            emit_matrix(plan, at, src, src, tgt, tgt, Slot::Random);
            emit_vector(plan, at + src * src, src, tgt, Slot::Zero);
            assert(plan@ =~= old(plan)@ + proj_plan(
                at as int,
                src as int,
                tgt as int,
                src_groups as int,
                tgt_groups as int,
            ));
        } else {
            emit_cut(plan, at, src, tgs, tgt_groups);
        }
    } else if tgt_groups == 1 {
        emit_embed(plan, at, src, tgt, src_groups, gs);
        assert(plan@ =~= old(plan)@ + proj_plan(
            at as int,
            src as int,
            tgt as int,
            src_groups as int,
            tgt_groups as int,
        ));
    } else {
        emit_groups(plan, at, src, src_groups, gs, tgs, tgt_groups);
    }
}

/// The plan of the scaled parameter vector.
pub fn scale_plan(source: &SourceDims, target_bands: usize, target_groups: usize) -> (plan: Vec<
    Slot,
>)
    requires
        source.n_bands <= target_bands,
        target_bands * 2 <= usize::MAX,
        source.out_proj_groups > 0,
        target_groups > 0,
        source.n_params() <= usize::MAX,
    ensures
        plan@ == spec_plan(*source, target_bands as int, target_groups as int),
{
    let src: usize = source.n_bands * 2;
    let tgt: usize = target_bands * 2;
    let md: usize = source.maestro_dim;
    let groups: usize = source.out_proj_groups;
    let n: usize = source.n_layers;
    let vocab: usize = source.vocab_size;
    let ghost each = block_len(src as int, md as int, groups as int);
    proof {
        lemma_groups_fit(src as int, groups as int);
        assert(md * src >= 0 && src * md >= 0) by (nonlinear_arith);
        assert(vocab * src >= 0) by (nonlinear_arith);
        assert(0 * each == 0) by (nonlinear_arith);
    }
    let mut plan: Vec<Slot> = Vec::new();
    let mut at: usize = 0;
    let mut layer: usize = 0;
    while layer < n
        invariant
            src <= tgt,
            groups > 0,
            target_groups > 0,
            each == block_len(src as int, md as int, groups as int),
            maestro_len(src as int, md as int) >= 0,
            proj_len(src as int, groups as int) >= 0,
            n * each <= usize::MAX,
            layer <= n,
            at == layer * each,
            plan@ == blocks_plan(
                src as int,
                tgt as int,
                md as int,
                groups as int,
                target_groups as int,
                layer as int,
            ),
        decreases n - layer,
    {
        assert((layer + 1) * each == layer * each + each) by (nonlinear_arith);
        assert((layer + 1) * each <= n * each) by (nonlinear_arith)
            requires
                layer + 1 <= n,
                each >= 0,
        ;
        let ghost before = plan@;
        emit_norms(&mut plan, at, src, tgt);
        let a1: usize = at + 4 * src;
        let a2: usize = emit_maestro(&mut plan, a1, src, tgt, md);
        let a3: usize = emit_maestro(&mut plan, a2, src, tgt, md);
        emit_proj(&mut plan, a3, src, tgt, groups, target_groups);
        assert(plan@ =~= before + block_plan(
            at as int,
            src as int,
            tgt as int,
            md as int,
            groups as int,
            target_groups as int,
        ));
        proof {
            lemma_groups_fit(src as int, groups as int);
        }
        let gs: usize = src / groups;
        assert(gs * gs + gs <= groups * (gs * gs + gs) && gs * gs >= 0) by (nonlinear_arith)
            requires
                groups >= 1,
                gs >= 0,
        ;
        at = a3 + groups * (gs * gs + gs);
        layer += 1;
    }
    let ghost before = plan@;
    emit_vector(&mut plan, at, src, tgt, Slot::One);
    emit_vector(&mut plan, at + src, src, tgt, Slot::Zero);
    emit_matrix(&mut plan, at + 2 * src, vocab, src, vocab, tgt, Slot::Random);
    assert(plan@ =~= before + tail_plan(at as int, src as int, tgt as int, vocab as int));
    plan
}

/// Checks a request against the source and plans the scaled parameters.
pub fn scale_checkpoint(source: &SourceDims, config: &ScaleConfig) -> (result: Result<
    Vec<Slot>,
    ScaleError,
>)
    requires
        config.target_head > 0,
        config.target_groups > 0,
        config.target_bands * 2 <= usize::MAX,
        source.out_proj_groups > 0,
        source.n_params() <= usize::MAX,
    ensures
        match result {
            Ok(plan) => {
                &&& config.target_bands > source.n_bands
                &&& (config.target_bands * 2) % (config.target_head as int) == 0
                &&& plan@ == spec_plan(
                    *source,
                    config.target_bands as int,
                    config.target_groups as int,
                )
            },
            Err(e) => if config.target_bands <= source.n_bands {
                e == (ScaleError::BandsNotLarger {
                    target: config.target_bands,
                    source: source.n_bands,
                })
            } else {
                &&& (config.target_bands * 2) % (config.target_head as int) != 0
                &&& e == (ScaleError::HeadMismatch {
                    n_embd: (config.target_bands * 2) as usize,
                    n_head: config.target_head,
                })
            },
        },
{
    if config.target_bands <= source.n_bands {
        return Err(
            ScaleError::BandsNotLarger { target: config.target_bands, source: source.n_bands },
        );
    }
    let n_embd: usize = config.target_bands * 2;
    if n_embd % config.target_head != 0 {
        return Err(ScaleError::HeadMismatch { n_embd, n_head: config.target_head });
    }
    Ok(scale_plan(source, config.target_bands, config.target_groups))
}

/// The source indices that a plan uses, in order.
pub open spec fn sources(plan: Seq<Slot>) -> Seq<int>
    decreases plan.len(),
{
    if plan.len() == 0 {
        Seq::empty()
    } else {
        let rest = sources(plan.drop_last());
        match plan.last() {
            Slot::Source(i) => rest.push(i as int),
            _ => rest,
        }
    }
}

/// The numbers from `lo` up to, not counting, `hi`.
pub open spec fn span(lo: int, hi: int) -> Seq<int> {
    Seq::new((hi - lo) as nat, |i: int| lo + i)
}

/// Every source index that a plan uses lies between `lo` and `hi`.
pub open spec fn within(plan: Seq<Slot>, lo: int, hi: int) -> bool {
    forall|t: int|
        0 <= t < plan.len() ==> (#[trigger] plan[t] matches Slot::Source(i) ==> lo <= i < hi)
}

/// Every source index between `lo` and `hi` is used by a plan.
pub open spec fn covers(plan: Seq<Slot>, lo: int, hi: int) -> bool {
    forall|i: int| lo <= i < hi ==> plan.contains(Slot::Source(#[trigger] (i as usize)))
}

proof fn lemma_sources_append(a: Seq<Slot>, b: Seq<Slot>)
    ensures
        sources(a + b) == sources(a) + sources(b),
    decreases b.len(),
{
    if b.len() == 0 {
        assert(a + b =~= a);
        assert(sources(b) =~= Seq::<int>::empty());
        assert(sources(a) + sources(b) =~= sources(a));
    } else {
        lemma_sources_append(a, b.drop_last());
        assert((a + b).drop_last() =~= a + b.drop_last());
        assert((a + b).last() == b.last());
        assert(sources(a + b) =~= sources(a) + sources(b));
    }
}

/// Consecutive plans that use consecutive spans in order use the joined span.
proof fn lemma_join(a: Seq<Slot>, b: Seq<Slot>, lo: int, mid: int, hi: int)
    requires
        sources(a) == span(lo, mid),
        sources(b) == span(mid, hi),
        lo <= mid <= hi,
    ensures
        sources(a + b) == span(lo, hi),
{
    lemma_sources_append(a, b);
    assert(span(lo, mid) + span(mid, hi) =~= span(lo, hi));
}

proof fn lemma_vector_sources(start: int, len: int, new_len: int, fill: Slot)
    requires
        fill !is Source,
        0 <= start,
        0 <= len <= new_len,
        start + len <= usize::MAX,
    ensures
        sources(vector_plan(start, len, new_len, fill)) == span(start, start + len),
    decreases new_len,
{
    let plan = vector_plan(start, len, new_len, fill);
    if new_len == 0 {
        assert(sources(plan) =~= span(start, start));
    } else if len < new_len {
        assert(plan.drop_last() =~= vector_plan(start, len, new_len - 1, fill));
        lemma_vector_sources(start, len, new_len - 1, fill);
    } else {
        assert(plan.drop_last() =~= vector_plan(start, len - 1, new_len - 1, fill));
        lemma_vector_sources(start, len - 1, new_len - 1, fill);
        assert(span(start, start + len) =~= span(start, start + len - 1).push(start + len - 1));
    }
}

proof fn lemma_matrix_sources(
    start: int,
    rows: int,
    cols: int,
    new_cols: int,
    fill: Slot,
    n: int,
)
    requires
        fill !is Source,
        0 <= start,
        0 <= rows,
        0 <= cols,
        0 <= new_cols,
        0 <= n,
        start + rows * cols <= usize::MAX,
    ensures
        sources(matrix_rows(start, rows, cols, new_cols, fill, n)) == span(
            start,
            start + (if n <= rows {
                n
            } else {
                rows
            }) * cols,
        ),
    decreases n,
{
    if n == 0 {
        assert(0 * cols == 0) by (nonlinear_arith);
        assert(sources(Seq::<Slot>::empty()) =~= span(start, start));
    } else {
        lemma_matrix_sources(start, rows, cols, new_cols, fill, n - 1);
        let before = matrix_rows(start, rows, cols, new_cols, fill, n - 1);
        let row = row_plan(start, rows, cols, new_cols, fill, n - 1);
        if n <= rows {
            assert(n * cols == (n - 1) * cols + cols) by (nonlinear_arith);
            assert(0 <= (n - 1) * cols && n * cols <= rows * cols) by (nonlinear_arith)
                requires
                    1 <= n <= rows,
                    0 <= cols,
            ;
            lemma_vector_sources(start + (n - 1) * cols, cols, larger(cols, new_cols), fill);
            lemma_join(before, row, start, start + (n - 1) * cols, start + n * cols);
        } else {
            assert(0 <= rows * cols) by (nonlinear_arith)
                requires
                    0 <= rows,
                    0 <= cols,
            ;
            assert(row =~= vector_plan(start + rows * cols, 0, new_cols, fill));
            lemma_vector_sources(start + rows * cols, 0, new_cols, fill);
            lemma_join(before, row, start, start + rows * cols, start + rows * cols);
        }
    }
}

proof fn lemma_maestro_sources(at: int, src: int, tgt: int, md: int)
    requires
        0 <= at,
        0 <= src <= tgt,
        0 <= md,
        at + maestro_len(src, md) <= usize::MAX,
    ensures
        sources(maestro_plan(at, src, tgt, md)) == span(at, at + maestro_len(src, md)),
        maestro_len(src, md) >= 0,
{
    assert(md * src >= 0 && src * md >= 0) by (nonlinear_arith)
        requires
            src >= 0,
            md >= 0,
    ;
    let p1 = matrix_plan(at, md, src, md, tgt, Slot::Zero);
    let p2 = vector_plan(at + md * src, md, md, Slot::Zero);
    let p3 = matrix_plan(at + md * src + md, src, md, tgt, md, Slot::Random);
    let p4 = vector_plan(at + md * src + md + src * md, src, tgt, Slot::Zero);
    lemma_matrix_sources(at, md, src, tgt, Slot::Zero, md);
    lemma_vector_sources(at + md * src, md, md, Slot::Zero);
    lemma_join(p1, p2, at, at + md * src, at + md * src + md);
    lemma_matrix_sources(at + md * src + md, src, md, md, Slot::Random, larger(src, tgt));
    lemma_join(p1 + p2, p3, at, at + md * src + md, at + md * src + md + src * md);
    lemma_vector_sources(at + md * src + md + src * md, src, tgt, Slot::Zero);
    lemma_join(
        p1 + p2 + p3,
        p4,
        at,
        at + md * src + md + src * md,
        at + md * src + md + src * md + src,
    );
}

proof fn lemma_norms_sources(at: int, src: int, tgt: int)
    requires
        0 <= at,
        0 <= src <= tgt,
        at + 4 * src <= usize::MAX,
    ensures
        sources(norms_plan(at, src, tgt)) == span(at, at + 4 * src),
{
    let p1 = vector_plan(at, src, tgt, Slot::One);
    let p2 = vector_plan(at + src, src, tgt, Slot::Zero);
    let p3 = vector_plan(at + 2 * src, src, tgt, Slot::One);
    let p4 = vector_plan(at + 3 * src, src, tgt, Slot::Zero);
    lemma_vector_sources(at, src, tgt, Slot::One);
    lemma_vector_sources(at + src, src, tgt, Slot::Zero);
    lemma_vector_sources(at + 2 * src, src, tgt, Slot::One);
    lemma_vector_sources(at + 3 * src, src, tgt, Slot::Zero);
    lemma_join(p1, p2, at, at + src, at + 2 * src);
    lemma_join(p1 + p2, p3, at, at + 2 * src, at + 3 * src);
    lemma_join(p1 + p2 + p3, p4, at, at + 3 * src, at + 4 * src);
}

/// A scaling whose output projection is dense and stays dense.
pub open spec fn stays_dense(source: SourceDims, target_groups: int) -> bool {
    source.out_proj_groups == 1 && target_groups == 1
}

proof fn lemma_proj_sources(at: int, src: int, tgt: int, src_groups: int, tgt_groups: int)
    requires
        0 <= at,
        0 <= src <= tgt,
        src_groups > 0,
        tgt_groups > 0,
        at + proj_len(src, src_groups) <= usize::MAX,
        src_groups == 1,
        tgt_groups == 1,
    ensures
        sources(proj_plan(at, src, tgt, src_groups, tgt_groups)) == span(
            at,
            at + proj_len(src, src_groups),
        ),
        proj_len(src, src_groups) >= 0,
{
    lemma_groups_fit(src, src_groups);
    let gs = src / src_groups;
    assert(gs == src);
    assert(src * src >= 0) by (nonlinear_arith);
    lemma_matrix_sources(at, src, src, tgt, Slot::Random, larger(src, tgt));
    lemma_vector_sources(at + src * src, src, tgt, Slot::Zero);
    lemma_join(
        matrix_plan(at, src, src, tgt, tgt, Slot::Random),
        vector_plan(at + src * src, src, tgt, Slot::Zero),
        at,
        at + src * src,
        at + src * src + src,
    );
}

proof fn lemma_blocks_sources(
    src: int,
    tgt: int,
    md: int,
    src_groups: int,
    tgt_groups: int,
    n: int,
)
    requires
        0 <= src <= tgt,
        0 <= md,
        src_groups > 0,
        tgt_groups > 0,
        0 <= n,
        n * block_len(src, md, src_groups) <= usize::MAX,
        src_groups == 1,
        tgt_groups == 1,
    ensures
        sources(blocks_plan(src, tgt, md, src_groups, tgt_groups, n)) == span(
            0,
            n * block_len(src, md, src_groups),
        ),
        0 <= n * block_len(src, md, src_groups),
    decreases n,
{
    let each = block_len(src, md, src_groups);
    if n == 0 {
        assert(0 * each == 0) by (nonlinear_arith);
        assert(sources(Seq::<Slot>::empty()) =~= span(0, 0));
    } else {
        let at = (n - 1) * each;
        let m = maestro_len(src, md);
        assert(n * each == at + each) by (nonlinear_arith)
            requires
                at == (n - 1) * each,
        ;
        lemma_groups_fit(src, src_groups);
        assert(md * src >= 0 && src * md >= 0) by (nonlinear_arith)
            requires
                src >= 0,
                md >= 0,
        ;
        lemma_blocks_sources(src, tgt, md, src_groups, tgt_groups, n - 1);
        lemma_norms_sources(at, src, tgt);
        lemma_maestro_sources(at + 4 * src, src, tgt, md);
        lemma_maestro_sources(at + 4 * src + m, src, tgt, md);
        lemma_proj_sources(at + 4 * src + m + m, src, tgt, src_groups, tgt_groups);
        let p1 = norms_plan(at, src, tgt);
        let p2 = maestro_plan(at + 4 * src, src, tgt, md);
        let p3 = maestro_plan(at + 4 * src + m, src, tgt, md);
        let p4 = proj_plan(at + 4 * src + m + m, src, tgt, src_groups, tgt_groups);
        lemma_join(p1, p2, at, at + 4 * src, at + 4 * src + m);
        lemma_join(p1 + p2, p3, at, at + 4 * src + m, at + 4 * src + m + m);
        lemma_join(p1 + p2 + p3, p4, at, at + 4 * src + m + m, at + each);
        lemma_join(
            blocks_plan(src, tgt, md, src_groups, tgt_groups, n - 1),
            block_plan(at, src, tgt, md, src_groups, tgt_groups),
            0,
            at,
            at + each,
        );
    }
}

proof fn lemma_tail_sources(at: int, src: int, tgt: int, vocab: int)
    requires
        0 <= at,
        0 <= src <= tgt,
        0 <= vocab,
        at + src * 2 + vocab * src <= usize::MAX,
    ensures
        sources(tail_plan(at, src, tgt, vocab)) == span(at, at + src * 2 + vocab * src),
        vocab * src >= 0,
{
    assert(vocab * src >= 0) by (nonlinear_arith)
        requires
            vocab >= 0,
            src >= 0,
    ;
    let p1 = vector_plan(at, src, tgt, Slot::One);
    let p2 = vector_plan(at + src, src, tgt, Slot::Zero);
    let p3 = matrix_plan(at + 2 * src, vocab, src, vocab, tgt, Slot::Random);
    lemma_vector_sources(at, src, tgt, Slot::One);
    lemma_vector_sources(at + src, src, tgt, Slot::Zero);
    lemma_matrix_sources(at + 2 * src, vocab, src, tgt, Slot::Random, vocab);
    lemma_join(p1, p2, at, at + src, at + 2 * src);
    lemma_join(p1 + p2, p3, at, at + 2 * src, at + 2 * src + vocab * src);
}

/// A scaling whose output projection stays dense keeps the whole source: every source parameter
/// is used exactly once, and in order.
pub proof fn law_source_kept_in_order(
    source: SourceDims,
    target_bands: int,
    target_groups: int,
)
    requires
        source.n_bands <= target_bands,
        source.out_proj_groups > 0,
        target_groups > 0,
        source.n_params() <= usize::MAX,
        stays_dense(source, target_groups),
    ensures
        sources(spec_plan(source, target_bands, target_groups)) == span(0, source.n_params()),
{
    let src = 2 * source.n_bands;
    let tgt = 2 * target_bands;
    let md = source.maestro_dim as int;
    let g = source.out_proj_groups as int;
    let n = source.n_layers as int;
    let v = source.vocab_size as int;
    let at = n * block_len(src, md, g);
    assert(v * src >= 0) by (nonlinear_arith)
        requires
            v >= 0,
            src >= 0,
    ;
    lemma_blocks_sources(src, tgt, md, g, target_groups, n);
    lemma_tail_sources(at, src, tgt, v);
    lemma_join(
        blocks_plan(src, tgt, md, g, target_groups, n),
        tail_plan(at, src, tgt, v),
        0,
        at,
        at + src * 2 + v * src,
    );
}

proof fn lemma_matrix_len(
    start: int,
    rows: int,
    cols: int,
    new_cols: int,
    fill: Slot,
    n: int,
)
    requires
        0 <= n,
        0 <= cols <= new_cols,
    ensures
        matrix_rows(start, rows, cols, new_cols, fill, n).len() == n * new_cols,
    decreases n,
{
    if n == 0 {
        assert(0 * new_cols == 0) by (nonlinear_arith);
    } else {
        lemma_matrix_len(start, rows, cols, new_cols, fill, n - 1);
        assert(n * new_cols == (n - 1) * new_cols + new_cols) by (nonlinear_arith);
    }
}

proof fn lemma_cut_rows_len(at: int, src: int, gs: int, g: int, n: int)
    requires
        0 <= n,
        0 <= gs,
    ensures
        cut_rows(at, src, gs, g, n).len() == n * gs,
    decreases n,
{
    if n == 0 {
        assert(0 * gs == 0) by (nonlinear_arith);
    } else {
        lemma_cut_rows_len(at, src, gs, g, n - 1);
        assert(n * gs == (n - 1) * gs + gs) by (nonlinear_arith);
    }
}

proof fn lemma_cut_len(at: int, src: int, gs: int, n: int)
    requires
        0 <= n,
        0 <= gs,
    ensures
        cut_plan(at, src, gs, n).len() == n * (gs * gs + gs),
    decreases n,
{
    let each = gs * gs + gs;
    if n == 0 {
        assert(0 * each == 0) by (nonlinear_arith);
    } else {
        lemma_cut_len(at, src, gs, n - 1);
        lemma_cut_rows_len(at, src, gs, n - 1, gs);
        assert(n * each == (n - 1) * each + each) by (nonlinear_arith);
    }
}

proof fn lemma_embed_len(at: int, src: int, tgt: int, groups: int, gs: int, n: int)
    requires
        0 <= n,
        0 <= tgt,
    ensures
        embed_rows(at, src, tgt, groups, gs, n).len() == n * tgt,
    decreases n,
{
    if n == 0 {
        assert(0 * tgt == 0) by (nonlinear_arith);
    } else {
        lemma_embed_len(at, src, tgt, groups, gs, n - 1);
        assert(n * tgt == (n - 1) * tgt + tgt) by (nonlinear_arith);
    }
}

proof fn lemma_group_rows_len(
    at: int,
    src: int,
    groups: int,
    gs: int,
    tgs: int,
    g: int,
    n: int,
)
    requires
        0 <= n,
        0 <= tgs,
    ensures
        group_rows(at, src, groups, gs, tgs, g, n).len() == n * tgs,
    decreases n,
{
    if n == 0 {
        assert(0 * tgs == 0) by (nonlinear_arith);
    } else {
        lemma_group_rows_len(at, src, groups, gs, tgs, g, n - 1);
        assert(n * tgs == (n - 1) * tgs + tgs) by (nonlinear_arith);
    }
}

proof fn lemma_groups_len(at: int, src: int, groups: int, gs: int, tgs: int, n: int)
    requires
        0 <= n,
        0 <= tgs,
    ensures
        groups_plan(at, src, groups, gs, tgs, n).len() == n * (tgs * tgs + tgs),
    decreases n,
{
    let each = tgs * tgs + tgs;
    if n == 0 {
        assert(0 * each == 0) by (nonlinear_arith);
    } else {
        lemma_groups_len(at, src, groups, gs, tgs, n - 1);
        lemma_group_rows_len(at, src, groups, gs, tgs, n - 1, tgs);
        assert(n * each == (n - 1) * each + each) by (nonlinear_arith);
    }
}

proof fn lemma_block_len(
    at: int,
    src: int,
    tgt: int,
    md: int,
    src_groups: int,
    tgt_groups: int,
)
    requires
        0 <= src <= tgt,
        0 <= md,
        src_groups > 0,
        tgt_groups > 0,
    ensures
        block_plan(at, src, tgt, md, src_groups, tgt_groups).len() == block_len(
            tgt,
            md,
            tgt_groups,
        ),
{
    let m = maestro_len(src, md);
    let a1 = at + 4 * src;
    let a2 = a1 + m;
    let a3 = a2 + m;
    lemma_matrix_len(a1, md, src, tgt, Slot::Zero, md);
    lemma_matrix_len(a1 + md * src + md, src, md, md, Slot::Random, larger(src, tgt));
    lemma_matrix_len(a2, md, src, tgt, Slot::Zero, md);
    lemma_matrix_len(a2 + md * src + md, src, md, md, Slot::Random, larger(src, tgt));
    let p1 = norms_plan(at, src, tgt);
    let p2 = maestro_plan(a1, src, tgt, md);
    let p3 = maestro_plan(a2, src, tgt, md);
    let p4 = proj_plan(a3, src, tgt, src_groups, tgt_groups);
    assert(p1.len() == 4 * tgt);
    assert(p2.len() == maestro_len(tgt, md));
    assert(p3.len() == maestro_len(tgt, md));
    let gs = src / src_groups;
    let tgs = tgt / tgt_groups;
    lemma_groups_fit(src, src_groups);
    lemma_groups_fit(tgt, tgt_groups);
    lemma_matrix_len(a3, src, src, tgt, Slot::Random, larger(src, tgt));
    lemma_cut_len(a3, src, tgs, tgt_groups);
    lemma_embed_len(a3, src, tgt, src_groups, gs, tgt);
    if src_groups != 1 && tgt_groups != 1 {
        lemma_groups_len(a3, src, src_groups, gs, tgs, tgt_groups);
    }
    assert(p4.len() == proj_len(tgt, tgt_groups));
}

proof fn lemma_blocks_len(
    src: int,
    tgt: int,
    md: int,
    src_groups: int,
    tgt_groups: int,
    n: int,
)
    requires
        0 <= src <= tgt,
        0 <= md,
        src_groups > 0,
        tgt_groups > 0,
        0 <= n,
    ensures
        blocks_plan(src, tgt, md, src_groups, tgt_groups, n).len() == n * block_len(
            tgt,
            md,
            tgt_groups,
        ),
    decreases n,
{
    let each = block_len(tgt, md, tgt_groups);
    if n == 0 {
        assert(0 * each == 0) by (nonlinear_arith);
    } else {
        lemma_blocks_len(src, tgt, md, src_groups, tgt_groups, n - 1);
        lemma_block_len(
            (n - 1) * block_len(src, md, src_groups),
            src,
            tgt,
            md,
            src_groups,
            tgt_groups,
        );
        assert(n * each == (n - 1) * each + each) by (nonlinear_arith);
    }
}

/// A scaling yields as many parameters as a model of the target dimensions has.
pub proof fn law_plan_fits_target(
    source: SourceDims,
    target_bands: int,
    target_groups: int,
)
    requires
        source.n_bands <= target_bands,
        source.out_proj_groups > 0,
        target_groups > 0,
    ensures
        spec_plan(source, target_bands, target_groups).len() == params_len(
            target_bands,
            source.n_layers as int,
            source.maestro_dim as int,
            target_groups,
            source.vocab_size as int,
        ),
{
    let src = 2 * source.n_bands;
    let tgt = 2 * target_bands;
    let md = source.maestro_dim as int;
    let g = source.out_proj_groups as int;
    let n = source.n_layers as int;
    let v = source.vocab_size as int;
    let at = n * block_len(src, md, g);
    lemma_blocks_len(src, tgt, md, g, target_groups, n);
    lemma_matrix_len(at + 2 * src, v, src, tgt, Slot::Random, v);
}

proof fn lemma_within_append(a: Seq<Slot>, b: Seq<Slot>, lo: int, mid: int, hi: int)
    requires
        within(a, lo, mid),
        within(b, mid, hi),
        lo <= mid <= hi,
    ensures
        within(a + b, lo, hi),
{
    assert forall|t: int| 0 <= t < (a + b).len() implies (#[trigger] (a + b)[t] matches Slot::Source(
        i,
    ) ==> lo <= i < hi) by {
        if t < a.len() {
            assert((a + b)[t] == a[t]);
        } else {
            assert((a + b)[t] == b[t - a.len()]);
        }
    }
}

proof fn lemma_covers_append(a: Seq<Slot>, b: Seq<Slot>, lo: int, mid: int, hi: int)
    requires
        covers(a, lo, mid),
        covers(b, mid, hi),
    ensures
        covers(a + b, lo, hi),
{
    assert forall|i: int| lo <= i < hi implies (a + b).contains(
        Slot::Source(#[trigger] (i as usize)),
    ) by {
        let slot = Slot::Source(i as usize);
        if i < mid {
            let t = choose|t: int| 0 <= t < a.len() && a[t] == slot;
            assert((a + b)[t] == slot);
        } else {
            let t = choose|t: int| 0 <= t < b.len() && b[t] == slot;
            assert((a + b)[a.len() + t] == slot);
        }
    }
}

/// A plan that uses a span in order stays within it and covers it.
proof fn lemma_sources_bounds(plan: Seq<Slot>, lo: int, hi: int)
    requires
        sources(plan) == span(lo, hi),
        lo <= hi,
    ensures
        within(plan, lo, hi),
        covers(plan, lo, hi),
    decreases plan.len(),
{
    if plan.len() == 0 {
        assert(span(lo, hi).len() == 0);
    } else {
        let rest = plan.drop_last();
        assert(plan =~= rest + seq![plan.last()]);
        match plan.last() {
            Slot::Source(i) => {
                assert(span(lo, hi).len() > 0);
                assert(span(lo, hi).drop_last() =~= span(lo, hi - 1));
                assert(sources(plan).drop_last() =~= sources(rest));
                assert(sources(plan).last() == i);
                lemma_sources_bounds(rest, lo, hi - 1);
                assert(i == hi - 1);
                let one = seq![plan.last()];
                assert(one[0] == Slot::Source(i));
                assert forall|k: int| hi - 1 <= k < hi implies one.contains(
                    Slot::Source(#[trigger] (k as usize)),
                ) by {
                    assert(one[0] == Slot::Source(k as usize));
                }
                lemma_within_append(rest, one, lo, hi - 1, hi);
                lemma_covers_append(rest, one, lo, hi - 1, hi);
            },
            _ => {
                lemma_sources_bounds(rest, lo, hi);
                let one = seq![plan.last()];
                assert(within(one, hi, hi));
                lemma_within_append(rest, one, lo, hi, hi);
                lemma_covers_append(rest, one, lo, hi, hi);
            },
        }
    }
}

proof fn lemma_cut_within(at: int, src: int, gs: int, g: int, n: int)
    requires
        0 <= at,
        0 <= src,
        0 <= g,
        0 <= gs,
        0 <= n,
        at + src * src + src <= usize::MAX,
    ensures
        within(cut_rows(at, src, gs, g, n), at, at + src * src + src),
        within(cut_bias(at, src, gs, g), at, at + src * src + src),
    decreases n,
{
    let hi = at + src * src + src;
    assert(src * src >= 0) by (nonlinear_arith);
    assert(g * gs >= 0) by (nonlinear_arith)
        requires
            g >= 0,
            gs >= 0,
    ;
    if n > 0 {
        lemma_cut_within(at, src, gs, g, n - 1);
        let row = cut_row(at, src, gs, g, n - 1);
        let rows = cut_rows(at, src, gs, g, n - 1);
        assert forall|t: int| 0 <= t < row.len() implies (#[trigger] row[t] matches Slot::Source(
            i,
        ) ==> at <= i < hi) by {
            let si = g * gs + (n - 1);
            let sj = g * gs + t;
            if si < src && sj < src {
                assert(0 <= si * src && si * src + sj < src * src) by (nonlinear_arith)
                    requires
                        0 <= si < src,
                        0 <= sj < src,
                ;
            }
        }
        let both = rows + row;
        assert forall|t: int| 0 <= t < both.len() implies (#[trigger] both[t] matches Slot::Source(
            i,
        ) ==> at <= i < hi) by {
            if t < rows.len() {
                assert(both[t] == rows[t]);
            } else {
                assert(both[t] == row[t - rows.len()]);
            }
        }
    }
}

proof fn lemma_cut_plan_within(at: int, src: int, gs: int, n: int)
    requires
        0 <= at,
        0 <= src,
        0 <= gs,
        0 <= n,
        at + src * src + src <= usize::MAX,
    ensures
        within(cut_plan(at, src, gs, n), at, at + src * src + src),
    decreases n,
{
    let hi = at + src * src + src;
    if n > 0 {
        lemma_cut_plan_within(at, src, gs, n - 1);
        lemma_cut_within(at, src, gs, n - 1, gs);
        let a = cut_plan(at, src, gs, n - 1);
        let b = cut_rows(at, src, gs, n - 1, gs);
        let c = cut_bias(at, src, gs, n - 1);
        let all = a + b + c;
        assert forall|t: int| 0 <= t < all.len() implies (#[trigger] all[t] matches Slot::Source(
            i,
        ) ==> at <= i < hi) by {
            if t < a.len() {
                assert(all[t] == a[t]);
            } else if t < a.len() + b.len() {
                assert(all[t] == b[t - a.len()]);
            } else {
                assert(all[t] == c[t - a.len() - b.len()]);
            }
        }
    }
}

/// An entry of a target whose source has groups reads no further than the groups' parameters.
proof fn lemma_slots_within(at: int, src: int, groups: int, gs: int, i: int, j: int)
    requires
        0 <= at,
        0 <= i,
        0 <= j,
        0 <= groups,
        0 <= gs,
        at + groups * (gs * gs + gs) <= usize::MAX,
    ensures
        embed_slot(at, src, groups, gs, i, j) matches Slot::Source(s) ==> at <= s < at + groups * (
        gs * gs + gs),
        bias_slot(at, groups, gs, i) matches Slot::Source(s) ==> at <= s < at + groups * (gs * gs
            + gs),
{
    if i < groups * gs {
        lemma_group_of(i, groups, gs);
        assert(gs * gs >= 0) by (nonlinear_arith);
        lemma_group_index(at, i / gs, groups, gs, gs * gs + i % gs);
        if j < groups * gs && i / gs == j / gs {
            lemma_group_of(j, groups, gs);
            let x = i % gs;
            let y = j % gs;
            assert(0 <= x * gs && x * gs + y < gs * gs) by (nonlinear_arith)
                requires
                    0 <= x < gs,
                    0 <= y < gs,
            ;
            lemma_group_index(at, i / gs, groups, gs, x * gs + y);
        }
    }
}

proof fn lemma_embed_row_within(
    at: int,
    src: int,
    tgt: int,
    groups: int,
    gs: int,
    i: int,
)
    requires
        0 <= at,
        0 <= i,
        0 <= groups,
        0 <= gs,
        at + groups * (gs * gs + gs) <= usize::MAX,
    ensures
        within(embed_row(at, src, tgt, groups, gs, i), at, at + groups * (gs * gs + gs)),
{
    let row = embed_row(at, src, tgt, groups, gs, i);
    let hi = at + groups * (gs * gs + gs);
    assert forall|j: int| 0 <= j < row.len() implies (#[trigger] row[j] matches Slot::Source(
        s,
    ) ==> at <= s < hi) by {
        lemma_slots_within(at, src, groups, gs, i, j);
    }
}

proof fn lemma_embed_within(at: int, src: int, tgt: int, groups: int, gs: int, n: int)
    requires
        0 <= at,
        0 <= groups,
        0 <= gs,
        0 <= n,
        at + groups * (gs * gs + gs) <= usize::MAX,
    ensures
        within(embed_rows(at, src, tgt, groups, gs, n), at, at + groups * (gs * gs + gs)),
    decreases n,
{
    let hi = at + groups * (gs * gs + gs);
    if n > 0 {
        lemma_embed_within(at, src, tgt, groups, gs, n - 1);
        lemma_embed_row_within(at, src, tgt, groups, gs, n - 1);
        let a = embed_rows(at, src, tgt, groups, gs, n - 1);
        let b = embed_row(at, src, tgt, groups, gs, n - 1);
        let all = a + b;
        assert forall|t: int| 0 <= t < all.len() implies (#[trigger] all[t] matches Slot::Source(
            i,
        ) ==> at <= i < hi) by {
            if t < a.len() {
                assert(all[t] == a[t]);
            } else {
                assert(all[t] == b[t - a.len()]);
            }
        }
    }
}

proof fn lemma_embed_bias_within(at: int, tgt: int, groups: int, gs: int)
    requires
        0 <= at,
        0 <= groups,
        0 <= gs,
        at + groups * (gs * gs + gs) <= usize::MAX,
    ensures
        within(embed_bias(at, tgt, groups, gs), at, at + groups * (gs * gs + gs)),
{
    let bias = embed_bias(at, tgt, groups, gs);
    let hi = at + groups * (gs * gs + gs);
    assert forall|j: int| 0 <= j < bias.len() implies (#[trigger] bias[j] matches Slot::Source(
        s,
    ) ==> at <= s < hi) by {
        lemma_slots_within(at, 0, groups, gs, j, 0);
    }
}

proof fn lemma_within_same(a: Seq<Slot>, b: Seq<Slot>, lo: int, hi: int)
    requires
        within(a, lo, hi),
        within(b, lo, hi),
    ensures
        within(a + b, lo, hi),
{
    assert forall|t: int| 0 <= t < (a + b).len() implies (#[trigger] (a + b)[t] matches Slot::Source(
        i,
    ) ==> lo <= i < hi) by {
        if t < a.len() {
            assert((a + b)[t] == a[t]);
        } else {
            assert((a + b)[t] == b[t - a.len()]);
        }
    }
}

proof fn lemma_group_rows_within(
    at: int,
    src: int,
    groups: int,
    gs: int,
    tgs: int,
    g: int,
    n: int,
)
    requires
        0 <= at,
        0 <= groups,
        0 <= gs,
        0 <= tgs,
        0 <= g,
        0 <= n,
        at + groups * (gs * gs + gs) <= usize::MAX,
    ensures
        within(
            group_rows(at, src, groups, gs, tgs, g, n),
            at,
            at + groups * (gs * gs + gs),
        ),
    decreases n,
{
    let hi = at + groups * (gs * gs + gs);
    if n > 0 {
        lemma_group_rows_within(at, src, groups, gs, tgs, g, n - 1);
        let row = group_row(at, src, groups, gs, tgs, g, n - 1);
        assert(0 <= g * tgs) by (nonlinear_arith)
            requires
                0 <= g,
                0 <= tgs,
        ;
        assert forall|j: int| 0 <= j < row.len() implies (#[trigger] row[j] matches Slot::Source(
            s,
        ) ==> at <= s < hi) by {
            lemma_slots_within(at, src, groups, gs, g * tgs + n - 1, g * tgs + j);
        }
        lemma_within_same(group_rows(at, src, groups, gs, tgs, g, n - 1), row, at, hi);
    }
}

proof fn lemma_groups_within(at: int, src: int, groups: int, gs: int, tgs: int, n: int)
    requires
        0 <= at,
        0 <= groups,
        0 <= gs,
        0 <= tgs,
        0 <= n,
        at + groups * (gs * gs + gs) <= usize::MAX,
    ensures
        within(groups_plan(at, src, groups, gs, tgs, n), at, at + groups * (gs * gs + gs)),
    decreases n,
{
    let hi = at + groups * (gs * gs + gs);
    if n > 0 {
        let g = n - 1;
        lemma_groups_within(at, src, groups, gs, tgs, g);
        lemma_group_rows_within(at, src, groups, gs, tgs, g, tgs);
        let before = groups_plan(at, src, groups, gs, tgs, g);
        let rows = group_rows(at, src, groups, gs, tgs, g, tgs);
        let bias = group_bias(at, groups, gs, tgs, g);
        assert(0 <= g * tgs) by (nonlinear_arith)
            requires
                0 <= g,
                0 <= tgs,
        ;
        assert forall|i: int| 0 <= i < bias.len() implies (#[trigger] bias[i] matches Slot::Source(
            s,
        ) ==> at <= s < hi) by {
            lemma_slots_within(at, src, groups, gs, g * tgs + i, 0);
        }
        lemma_within_same(before, rows, at, hi);
        lemma_within_same(before + rows, bias, at, hi);
    }
}

proof fn lemma_proj_within(at: int, src: int, tgt: int, src_groups: int, tgt_groups: int)
    requires
        0 <= at,
        0 <= src <= tgt,
        src_groups > 0,
        tgt_groups > 0,
        at + proj_len(src, src_groups) <= usize::MAX,
    ensures
        within(
            proj_plan(at, src, tgt, src_groups, tgt_groups),
            at,
            at + proj_len(src, src_groups),
        ),
{
    lemma_groups_fit(src, src_groups);
    lemma_groups_fit(tgt, tgt_groups);
    let gs = src / src_groups;
    let tgs = tgt / tgt_groups;
    let plan = proj_plan(at, src, tgt, src_groups, tgt_groups);
    if src_groups == 1 {
        assert(gs == src);
        assert(proj_len(src, 1) == src * src + src);
        if tgt_groups == 1 {
            lemma_proj_sources(at, src, tgt, 1, 1);
            lemma_sources_bounds(plan, at, at + proj_len(src, 1));
        } else {
            lemma_cut_plan_within(at, src, tgs, tgt_groups);
        }
    } else if tgt_groups == 1 {
        lemma_embed_within(at, src, tgt, src_groups, gs, tgt);
        lemma_embed_bias_within(at, tgt, src_groups, gs);
        lemma_within_same(
            embed_rows(at, src, tgt, src_groups, gs, tgt),
            embed_bias(at, tgt, src_groups, gs),
            at,
            at + proj_len(src, src_groups),
        );
    } else {
        lemma_groups_within(at, src, src_groups, gs, tgs, tgt_groups);
    }
}

proof fn lemma_blocks_within(
    src: int,
    tgt: int,
    md: int,
    src_groups: int,
    tgt_groups: int,
    n: int,
)
    requires
        0 <= src <= tgt,
        0 <= md,
        src_groups > 0,
        tgt_groups > 0,
        0 <= n,
        n * block_len(src, md, src_groups) <= usize::MAX,
    ensures
        within(
            blocks_plan(src, tgt, md, src_groups, tgt_groups, n),
            0,
            n * block_len(src, md, src_groups),
        ),
        0 <= n * block_len(src, md, src_groups),
    decreases n,
{
    let each = block_len(src, md, src_groups);
    if n == 0 {
        assert(0 * each == 0) by (nonlinear_arith);
    } else {
        let at = (n - 1) * each;
        let m = maestro_len(src, md);
        assert(n * each == at + each) by (nonlinear_arith)
            requires
                at == (n - 1) * each,
        ;
        lemma_groups_fit(src, src_groups);
        assert(md * src >= 0 && src * md >= 0) by (nonlinear_arith)
            requires
                src >= 0,
                md >= 0,
        ;
        lemma_blocks_within(src, tgt, md, src_groups, tgt_groups, n - 1);
        lemma_norms_sources(at, src, tgt);
        lemma_maestro_sources(at + 4 * src, src, tgt, md);
        lemma_maestro_sources(at + 4 * src + m, src, tgt, md);
        lemma_proj_within(at + 4 * src + m + m, src, tgt, src_groups, tgt_groups);
        let p1 = norms_plan(at, src, tgt);
        let p2 = maestro_plan(at + 4 * src, src, tgt, md);
        let p3 = maestro_plan(at + 4 * src + m, src, tgt, md);
        let p4 = proj_plan(at + 4 * src + m + m, src, tgt, src_groups, tgt_groups);
        lemma_join(p1, p2, at, at + 4 * src, at + 4 * src + m);
        lemma_join(p1 + p2, p3, at, at + 4 * src + m, at + 4 * src + m + m);
        lemma_sources_bounds(p1 + p2 + p3, at, at + 4 * src + m + m);
        lemma_within_append(p1 + p2 + p3, p4, at, at + 4 * src + m + m, at + each);
        lemma_within_append(
            blocks_plan(src, tgt, md, src_groups, tgt_groups, n - 1),
            block_plan(at, src, tgt, md, src_groups, tgt_groups),
            0,
            at,
            at + each,
        );
    }
}

/// No scaling reads past the source's parameters.
pub proof fn law_sources_in_range(source: SourceDims, target_bands: int, target_groups: int)
    requires
        source.n_bands <= target_bands,
        source.out_proj_groups > 0,
        target_groups > 0,
        source.n_params() <= usize::MAX,
    ensures
        within(spec_plan(source, target_bands, target_groups), 0, source.n_params()),
{
    let src = 2 * source.n_bands;
    let tgt = 2 * target_bands;
    let md = source.maestro_dim as int;
    let g = source.out_proj_groups as int;
    let n = source.n_layers as int;
    let v = source.vocab_size as int;
    let at = n * block_len(src, md, g);
    assert(v * src >= 0) by (nonlinear_arith)
        requires
            v >= 0,
            src >= 0,
    ;
    lemma_blocks_within(src, tgt, md, g, target_groups, n);
    lemma_tail_sources(at, src, tgt, v);
    lemma_sources_bounds(tail_plan(at, src, tgt, v), at, at + src * 2 + v * src);
    lemma_within_append(
        blocks_plan(src, tgt, md, g, target_groups, n),
        tail_plan(at, src, tgt, v),
        0,
        at,
        at + src * 2 + v * src,
    );
}

/// Row `i` stands in the rows of an embedding target.
proof fn lemma_embed_row_at(
    at: int,
    src: int,
    tgt: int,
    groups: int,
    gs: int,
    n: int,
    i: int,
    j: int,
)
    requires
        0 <= i < n,
        0 <= j < tgt,
    ensures
        embed_rows(at, src, tgt, groups, gs, n).contains(
            embed_row(at, src, tgt, groups, gs, i)[j],
        ),
    decreases n,
{
    let a = embed_rows(at, src, tgt, groups, gs, n - 1);
    let b = embed_row(at, src, tgt, groups, gs, n - 1);
    let x = embed_row(at, src, tgt, groups, gs, i)[j];
    if i == n - 1 {
        assert((a + b)[a.len() + j] == x);
    } else {
        lemma_embed_row_at(at, src, tgt, groups, gs, n - 1, i, j);
        let t = choose|t: int| 0 <= t < a.len() && a[t] == x;
        assert((a + b)[t] == x);
    }
}

/// Entry `k` of group `q` is used by an embedding target.
proof fn lemma_embed_entry(
    at: int,
    src: int,
    tgt: int,
    groups: int,
    gs: int,
    q: int,
    k: int,
)
    requires
        0 <= at,
        0 <= gs,
        0 <= q < groups,
        0 <= k < gs * gs + gs,
        groups * gs <= src <= tgt,
        at + groups * (gs * gs + gs) <= usize::MAX,
    ensures
        (embed_rows(at, src, tgt, groups, gs, tgt) + embed_bias(at, tgt, groups, gs)).contains(
            Slot::Source((at + q * (gs * gs + gs) + k) as usize),
        ),
{
    let rows = embed_rows(at, src, tgt, groups, gs, tgt);
    let bias = embed_bias(at, tgt, groups, gs);
    let slot = Slot::Source((at + q * (gs * gs + gs) + k) as usize);
    assert(gs > 0) by (nonlinear_arith)
        requires
            0 <= k < gs * gs + gs,
            0 <= gs,
    ;
    assert(0 <= q * gs && q * gs + gs <= groups * gs) by (nonlinear_arith)
        requires
            0 <= q,
            q + 1 <= groups,
            0 <= gs,
    ;
    if k < gs * gs {
        lemma_group_of(k, gs, gs);
        let x = k / gs;
        let y = k % gs;
        let i = q * gs + x;
        let j = q * gs + y;
        vstd::arithmetic::div_mod::lemma_fundamental_div_mod_converse(i, gs, q, x);
        vstd::arithmetic::div_mod::lemma_fundamental_div_mod_converse(j, gs, q, y);
        assert(embed_row(at, src, tgt, groups, gs, i)[j] == slot);
        lemma_embed_row_at(at, src, tgt, groups, gs, tgt, i, j);
        let t = choose|t: int| 0 <= t < rows.len() && rows[t] == slot;
        assert((rows + bias)[t] == slot);
    } else {
        let y = k - gs * gs;
        let i = q * gs + y;
        vstd::arithmetic::div_mod::lemma_fundamental_div_mod_converse(i, gs, q, y);
        assert(bias[i] == slot);
        assert((rows + bias)[rows.len() + i] == slot);
    }
}

proof fn lemma_embed_covers(at: int, src: int, tgt: int, groups: int, gs: int)
    requires
        0 <= at,
        0 <= gs,
        0 < groups,
        groups * gs <= src <= tgt,
        at + groups * (gs * gs + gs) <= usize::MAX,
    ensures
        covers(
            embed_rows(at, src, tgt, groups, gs, tgt) + embed_bias(at, tgt, groups, gs),
            at,
            at + groups * (gs * gs + gs),
        ),
{
    let each = gs * gs + gs;
    let all = embed_rows(at, src, tgt, groups, gs, tgt) + embed_bias(at, tgt, groups, gs);
    assert(gs * gs >= 0) by (nonlinear_arith);
    assert forall|s: int| at <= s < at + groups * each implies all.contains(
        Slot::Source(#[trigger] (s as usize)),
    ) by {
        lemma_group_of(s - at, groups, each);
        lemma_embed_entry(at, src, tgt, groups, gs, (s - at) / each, (s - at) % each);
    }
}

proof fn lemma_blocks_covers(src: int, tgt: int, md: int, src_groups: int, n: int)
    requires
        0 <= src <= tgt,
        0 <= md,
        src_groups > 1,
        0 <= n,
        n * block_len(src, md, src_groups) <= usize::MAX,
    ensures
        covers(
            blocks_plan(src, tgt, md, src_groups, 1, n),
            0,
            n * block_len(src, md, src_groups),
        ),
        0 <= n * block_len(src, md, src_groups),
    decreases n,
{
    let each = block_len(src, md, src_groups);
    if n == 0 {
        assert(0 * each == 0) by (nonlinear_arith);
    } else {
        let at = (n - 1) * each;
        let m = maestro_len(src, md);
        let gs = src / src_groups;
        assert(n * each == at + each) by (nonlinear_arith)
            requires
                at == (n - 1) * each,
        ;
        lemma_groups_fit(src, src_groups);
        assert(md * src >= 0 && src * md >= 0) by (nonlinear_arith)
            requires
                src >= 0,
                md >= 0,
        ;
        lemma_blocks_covers(src, tgt, md, src_groups, n - 1);
        lemma_norms_sources(at, src, tgt);
        lemma_maestro_sources(at + 4 * src, src, tgt, md);
        lemma_maestro_sources(at + 4 * src + m, src, tgt, md);
        lemma_embed_covers(at + 4 * src + m + m, src, tgt, src_groups, gs);
        let p1 = norms_plan(at, src, tgt);
        let p2 = maestro_plan(at + 4 * src, src, tgt, md);
        let p3 = maestro_plan(at + 4 * src + m, src, tgt, md);
        let p4 = proj_plan(at + 4 * src + m + m, src, tgt, src_groups, 1);
        lemma_join(p1, p2, at, at + 4 * src, at + 4 * src + m);
        lemma_join(p1 + p2, p3, at, at + 4 * src + m, at + 4 * src + m + m);
        lemma_sources_bounds(p1 + p2 + p3, at, at + 4 * src + m + m);
        lemma_covers_append(p1 + p2 + p3, p4, at, at + 4 * src + m + m, at + each);
        lemma_covers_append(
            blocks_plan(src, tgt, md, src_groups, 1, n - 1),
            block_plan(at, src, tgt, md, src_groups, 1),
            0,
            at,
            at + each,
        );
    }
}

/// A scaling from groups to a dense projection uses every source parameter.
pub proof fn law_groups_embed_whole_source(source: SourceDims, target_bands: int)
    requires
        source.n_bands <= target_bands,
        source.out_proj_groups > 1,
        source.n_params() <= usize::MAX,
    ensures
        covers(spec_plan(source, target_bands, 1), 0, source.n_params()),
{
    let src = 2 * source.n_bands;
    let tgt = 2 * target_bands;
    let md = source.maestro_dim as int;
    let g = source.out_proj_groups as int;
    let n = source.n_layers as int;
    let v = source.vocab_size as int;
    let at = n * block_len(src, md, g);
    assert(v * src >= 0) by (nonlinear_arith)
        requires
            v >= 0,
            src >= 0,
    ;
    lemma_blocks_covers(src, tgt, md, g, n);
    lemma_tail_sources(at, src, tgt, v);
    lemma_sources_bounds(tail_plan(at, src, tgt, v), at, at + src * 2 + v * src);
    lemma_covers_append(
        blocks_plan(src, tgt, md, g, 1, n),
        tail_plan(at, src, tgt, v),
        0,
        at,
        at + src * 2 + v * src,
    );
}

/// Where the weight between dimensions `i` and `j` stands in groups of `size` dimensions each,
/// where one group holds both.
pub open spec fn weight_place(size: int, i: int, j: int) -> int {
    (i / size) * (size * size + size) + (i % size) * size + j % size
}

proof fn lemma_group_rows_at(
    at: int,
    src: int,
    groups: int,
    gs: int,
    tgs: int,
    g: int,
    n: int,
    x: int,
    y: int,
)
    requires
        0 <= x < n,
        0 <= y < tgs,
    ensures
        group_rows(at, src, groups, gs, tgs, g, n)[x * tgs + y] == embed_slot(
            at,
            src,
            groups,
            gs,
            g * tgs + x,
            g * tgs + y,
        ),
        0 <= x * tgs + y < n * tgs,
    decreases n,
{
    lemma_group_rows_len(at, src, groups, gs, tgs, g, n - 1);
    assert(0 <= x * tgs && x * tgs + tgs <= n * tgs && n * tgs == (n - 1) * tgs + tgs)
        by (nonlinear_arith)
        requires
            0 <= x < n,
            0 < tgs,
    ;
    if x < n - 1 {
        lemma_group_rows_at(at, src, groups, gs, tgs, g, n - 1, x, y);
    }
}

proof fn lemma_groups_at(
    at: int,
    src: int,
    groups: int,
    gs: int,
    tgs: int,
    n: int,
    g: int,
    x: int,
    y: int,
)
    requires
        0 <= g < n,
        0 <= x < tgs,
        0 <= y < tgs,
    ensures
        groups_plan(at, src, groups, gs, tgs, n)[g * (tgs * tgs + tgs) + x * tgs + y]
            == embed_slot(at, src, groups, gs, g * tgs + x, g * tgs + y),
    decreases n,
{
    let each = tgs * tgs + tgs;
    lemma_groups_len(at, src, groups, gs, tgs, n - 1);
    lemma_group_rows_len(at, src, groups, gs, tgs, n - 1, tgs);
    lemma_group_rows_at(at, src, groups, gs, tgs, g, tgs, x, y);
    assert(0 <= g * each && g * each + each <= n * each && n * each == (n - 1) * each + each)
        by (nonlinear_arith)
        requires
            0 <= g < n,
            0 <= each,
            each == tgs * tgs + tgs,
            0 < tgs,
    ;
    if g < n - 1 {
        assert(g * each + each <= (n - 1) * each) by (nonlinear_arith)
            requires
                g + 1 <= n - 1,
                0 <= each,
        ;
        lemma_groups_at(at, src, groups, gs, tgs, n - 1, g, x, y);
    }
}

/// A band keeps its learned weights whatever the sizes of the groups: wherever a source group
/// and a target group both hold dimensions `i` and `j`, the scaled projection links them by the
/// source's weight between them.
pub proof fn law_bands_keep_their_weights(
    at: int,
    src: int,
    tgt: int,
    src_groups: int,
    tgt_groups: int,
    i: int,
    j: int,
)
    requires
        src_groups > 1,
        tgt_groups > 1,
        0 < src <= tgt,
        0 <= i < src_groups * (src / src_groups),
        0 <= j < src_groups * (src / src_groups),
        i < tgt_groups * (tgt / tgt_groups),
        j < tgt_groups * (tgt / tgt_groups),
        i / (src / src_groups) == j / (src / src_groups),
        i / (tgt / tgt_groups) == j / (tgt / tgt_groups),
    ensures
        proj_plan(at, src, tgt, src_groups, tgt_groups)[weight_place(tgt / tgt_groups, i, j)]
            == Slot::Source((at + weight_place(src / src_groups, i, j)) as usize),
{
    let (gs, tgs) = (src / src_groups, tgt / tgt_groups);
    lemma_groups_fit(src, src_groups);
    lemma_groups_fit(tgt, tgt_groups);
    lemma_group_of(i, tgt_groups, tgs);
    lemma_group_of(j, tgt_groups, tgs);
    lemma_groups_at(at, src, src_groups, gs, tgs, tgt_groups, i / tgs, i % tgs, j % tgs);
}

} // verus!
