//! Names for the sections of the flat parameter vector.
//!
//! A gradient check reports where in the parameter vector it found a mismatch.
//! The labels name each section and say where it starts.

use vstd::prelude::*;
use vstd::string::*;
use crate::seqs::{lemma_rows_flat_len, rows_flat};
use crate::text::{append_decimal, decimal};
use crate::wave_model::{
    blocks_flat, lemma_blocks_flat_step, maestro_flat, WaveBlockWeights, WavePacketModel,
};

verus! {

/// Start and name of each section, in order.
pub struct SectionLabels {
    pub ranges: Vec<(usize, String)>,
}

/// Sections that a variant of the model carries beyond the usual ones.
#[derive(Clone, Copy)]
pub struct ExtraSections {
    pub use_rk4_weights: bool,
    pub use_dyn_harmonics: bool,
}

/// A section: its name and its length.
pub type Section = (Seq<char>, int);

/// Where section `i` starts: after all sections before it.
pub open spec fn section_start(sections: Seq<Section>, i: int) -> int
    decreases i,
{
    if i <= 0 {
        0
    } else {
        section_start(sections, i - 1) + sections[i - 1].1
    }
}

/// The name of a section of block `b`.
pub open spec fn block_name(b: int, part: Seq<char>) -> Seq<char> {
    "block_"@ + decimal(b as nat) + part
}

/// The sections that every block has.
pub open spec fn core_sections<T>(
    block: WaveBlockWeights<T>,
    b: int,
    n_embd: int,
    maestro_dim: int,
) -> Seq<Section> {
    seq![
        (block_name(b, "_ln_w"@), n_embd),
        (block_name(b, "_ln_b"@), n_embd),
        (block_name(b, "_ln_ffn_w"@), n_embd),
        (block_name(b, "_ln_ffn_b"@), n_embd),
        (block_name(b, "_mae_in_sq_w"@), maestro_dim * n_embd),
        (block_name(b, "_mae_in_sq_b"@), maestro_dim),
        (block_name(b, "_mae_in_pr_w"@), n_embd * maestro_dim),
        (block_name(b, "_mae_in_pr_b"@), n_embd),
        (block_name(b, "_mae_out_sq_w"@), maestro_dim * n_embd),
        (block_name(b, "_mae_out_sq_b"@), maestro_dim),
        (block_name(b, "_mae_out_pr_w"@), n_embd * maestro_dim),
        (block_name(b, "_mae_out_pr_b"@), n_embd),
        (block_name(b, "_ffn_out_proj"@), block.ffn.out_proj.spec_param_count()),
    ]
}

/// The sections of the ODE parameters, if they are trained.
pub open spec fn ode_sections<T>(
    block: WaveBlockWeights<T>,
    b: int,
    learnable_ode: bool,
    extra: ExtraSections,
) -> Seq<Section> {
    if learnable_ode {
        seq![
            (block_name(b, "_kerr_gamma"@), block.ffn.kerr.gamma_raw@.len() as int),
            (block_name(b, "_kerr_alpha"@), 1),
            (block_name(b, "_kerr_beta"@), 1),
            (block_name(b, "_phase_correction"@), block.ffn.kerr.phase_correction@.len() as int),
        ] + (if extra.use_rk4_weights {
            seq![(block_name(b, "_rk4_weights"@), 4int)]
        } else {
            Seq::empty()
        })
    } else {
        Seq::empty()
    }
}

/// The sections of one block.
pub open spec fn block_sections<T>(
    block: WaveBlockWeights<T>,
    b: int,
    n_embd: int,
    maestro_dim: int,
    learnable_ode: bool,
    extra: ExtraSections,
) -> Seq<Section> {
    core_sections(block, b, n_embd, maestro_dim) + ode_sections(block, b, learnable_ode, extra) + (
    if extra.use_dyn_harmonics {
        seq![(block_name(b, "_harmonic_raw"@), block.attn.heads@.len() as int)]
    } else {
        Seq::empty()
    })
}

/// The sections of the first `n` blocks.
pub open spec fn blocks_sections<T>(
    model: WavePacketModel<T>,
    n: int,
    extra: ExtraSections,
) -> Seq<Section>
    decreases n,
{
    if n <= 0 {
        Seq::empty()
    } else {
        blocks_sections(model, n - 1, extra) + block_sections(
            model.blocks@[n - 1],
            n - 1,
            model.n_embd(),
            model.maestro_dim(),
            model.learnable_ode,
            extra,
        )
    }
}

/// The sections after the blocks, up to the decoder.
pub open spec fn tail_sections<T>(model: WavePacketModel<T>) -> Seq<Section> {
    (if model.use_layer_scale {
        seq![("layer_scale"@, model.layer_scale@.len() as int)]
    } else {
        Seq::empty()
    }) + seq![("ln_f_w"@, model.n_embd()), ("ln_f_b"@, model.n_embd())]
}

/// The sections of the decoder.
pub open spec fn decoder_sections<T>(model: WavePacketModel<T>) -> Seq<Section> {
    if model.phase_native {
        seq![("output_corrector"@, model.output_corrector@.len() as int)]
    } else if let Some(wds) = model.wd_state {
        seq![("wave_decode"@, wds.spec_param_count())]
    } else if model.lm_rank > 0 {
        seq![
            ("lm_down"@, model.lm_rank * model.n_embd()),
            ("lm_up"@, model.vocab_size * model.lm_rank),
        ]
    } else {
        seq![("lm_head"@, model.vocab_size * model.n_embd())]
    }
}

/// All sections of a model.
pub open spec fn sections<T>(model: WavePacketModel<T>, extra: ExtraSections) -> Seq<Section> {
    blocks_sections(model, model.blocks@.len() as int, extra) + tail_sections(model)
        + decoder_sections(model)
}

/// The labels give the name and the start of each section.
pub open spec fn labelled(ranges: Seq<(usize, String)>, sections: Seq<Section>) -> bool {
    &&& ranges.len() == sections.len()
    &&& forall|i: int|
        0 <= i < ranges.len() ==> (#[trigger] ranges[i]).0 == section_start(sections, i)
            && ranges[i].1@ == sections[i].0
}

/// Starts depend only on the sections before them.
proof fn lemma_start_prefix(a: Seq<Section>, b: Seq<Section>, i: int)
    requires
        i <= a.len(),
        a.len() <= b.len(),
        forall|k: int| 0 <= k < a.len() ==> #[trigger] a[k] == b[k],
    ensures
        section_start(a, i) == section_start(b, i),
    decreases i,
{
    if i > 0 {
        lemma_start_prefix(a, b, i - 1);
        assert(a[i - 1] == b[i - 1]);
    }
}

/// Starts grow with the index.
proof fn lemma_start_monotone(a: Seq<Section>, i: int, j: int)
    requires
        0 <= i <= j <= a.len(),
        forall|k: int| 0 <= k < a.len() ==> (#[trigger] a[k]).1 >= 0,
    ensures
        section_start(a, i) <= section_start(a, j),
    decreases j - i,
{
    if i < j {
        lemma_start_monotone(a, i, j - 1);
        assert(a[j - 1].1 >= 0);
    }
}

/// Adds a label at `at`.
fn add_label(
    ranges: &mut Vec<(usize, String)>,
    at: usize,
    name: String,
    Ghost(done): Ghost<Seq<Section>>,
    Ghost(len): Ghost<int>,
)
    requires
        labelled(old(ranges)@, done),
        at == section_start(done, done.len() as int),
    ensures
        labelled(final(ranges)@, done.push((name@, len))),
{
    let ghost grown = done.push((name@, len));
    ranges.push((at, name));
    proof {
        assert forall|i: int| 0 <= i < ranges@.len() implies (#[trigger] ranges@[i]).0
            == section_start(grown, i) && ranges@[i].1@ == grown[i].0 by {
            lemma_start_prefix(done, grown, i);
        }
    }
}

/// Adds a label at `at` and returns where the next section starts.
fn add_section(
    ranges: &mut Vec<(usize, String)>,
    at: usize,
    name: String,
    len: usize,
    Ghost(done): Ghost<Seq<Section>>,
) -> (next: usize)
    requires
        labelled(old(ranges)@, done),
        at == section_start(done, done.len() as int),
        at + len <= usize::MAX,
    ensures
        next == at + len,
        labelled(final(ranges)@, done.push((name@, len as int))),
        next == section_start(done.push((name@, len as int)), done.len() as int + 1),
{
    let ghost grown = done.push((name@, len as int));
    add_label(ranges, at, name, Ghost(done), Ghost(len as int));
    proof {
        lemma_start_prefix(done, grown, done.len() as int);
    }
    at + len
}

/// The name of a section of a block.
fn named(b: usize, part: &str) -> (name: String)
    ensures
        name@ == block_name(b as int, part@),
{
    let mut name: String = String::from_str("block_");
    append_decimal(&mut name, b);
    name.append(part);
    name
}

/// Adds the labels of the sections that every block has.
fn add_core<T>(
    ranges: &mut Vec<(usize, String)>,
    at: usize,
    block: &WaveBlockWeights<T>,
    b: usize,
    n_embd: usize,
    maestro_dim: usize,
    Ghost(done): Ghost<Seq<Section>>,
) -> (next: usize)
    requires
        labelled(old(ranges)@, done),
        at == section_start(done, done.len() as int),
        block.wf(n_embd as int, maestro_dim as int),
        at + block.len(n_embd as int, maestro_dim as int, false) <= usize::MAX,
    ensures
        next == at + block.len(n_embd as int, maestro_dim as int, false),
        labelled(
            final(ranges)@,
            done + core_sections(*block, b as int, n_embd as int, maestro_dim as int),
        ),
        next == section_start(
            done + core_sections(*block, b as int, n_embd as int, maestro_dim as int),
            done.len() as int + 13,
        ),
{
    let ghost core = core_sections(*block, b as int, n_embd as int, maestro_dim as int);
    assert(maestro_dim * n_embd >= 0 && n_embd * maestro_dim >= 0) by (nonlinear_arith);
    let count: usize;
    proof {
        block.ffn.out_proj.lemma_flat_len();
    }
    count = block.ffn.out_proj.param_count();
    let mut at: usize = at;
    let ghost mut done = done;
    let sq: usize = maestro_dim * n_embd;
    let pr: usize = n_embd * maestro_dim;
    let ghost first = done;
    at = add_section(ranges, at, named(b, "_ln_w"), n_embd, Ghost(done));
    proof {
        done = done.push(core[0]);
    }
    at = add_section(ranges, at, named(b, "_ln_b"), n_embd, Ghost(done));
    proof {
        done = done.push(core[1]);
    }
    at = add_section(ranges, at, named(b, "_ln_ffn_w"), n_embd, Ghost(done));
    proof {
        done = done.push(core[2]);
    }
    at = add_section(ranges, at, named(b, "_ln_ffn_b"), n_embd, Ghost(done));
    proof {
        done = done.push(core[3]);
    }
    at = add_section(ranges, at, named(b, "_mae_in_sq_w"), sq, Ghost(done));
    proof {
        done = done.push(core[4]);
    }
    at = add_section(ranges, at, named(b, "_mae_in_sq_b"), maestro_dim, Ghost(done));
    proof {
        done = done.push(core[5]);
    }
    at = add_section(ranges, at, named(b, "_mae_in_pr_w"), pr, Ghost(done));
    proof {
        done = done.push(core[6]);
    }
    at = add_section(ranges, at, named(b, "_mae_in_pr_b"), n_embd, Ghost(done));
    proof {
        done = done.push(core[7]);
    }
    at = add_section(ranges, at, named(b, "_mae_out_sq_w"), sq, Ghost(done));
    proof {
        done = done.push(core[8]);
    }
    at = add_section(ranges, at, named(b, "_mae_out_sq_b"), maestro_dim, Ghost(done));
    proof {
        done = done.push(core[9]);
    }
    at = add_section(ranges, at, named(b, "_mae_out_pr_w"), pr, Ghost(done));
    proof {
        done = done.push(core[10]);
    }
    at = add_section(ranges, at, named(b, "_mae_out_pr_b"), n_embd, Ghost(done));
    proof {
        done = done.push(core[11]);
    }
    at = add_section(ranges, at, named(b, "_ffn_out_proj"), count, Ghost(done));
    proof {
        done = done.push(core[12]);
        assert(done =~= first + core);
    }
    at
}

/// Number of entries of the sections of a block.
pub open spec fn block_extent<T>(
    block: WaveBlockWeights<T>,
    n_embd: int,
    maestro_dim: int,
    learnable_ode: bool,
    extra: ExtraSections,
) -> int {
    block.len(n_embd, maestro_dim, learnable_ode) + (if learnable_ode && extra.use_rk4_weights {
        4int
    } else {
        0
    }) + (if extra.use_dyn_harmonics {
        block.attn.heads@.len() as int
    } else {
        0
    })
}

/// Adds the labels of one block.
fn add_block<T>(
    ranges: &mut Vec<(usize, String)>,
    at: usize,
    block: &WaveBlockWeights<T>,
    b: usize,
    n_embd: usize,
    maestro_dim: usize,
    learnable_ode: bool,
    extra: ExtraSections,
    Ghost(done): Ghost<Seq<Section>>,
) -> (next: usize)
    requires
        labelled(old(ranges)@, done),
        at == section_start(done, done.len() as int),
        block.wf(n_embd as int, maestro_dim as int),
        at + block_extent(
            *block,
            n_embd as int,
            maestro_dim as int,
            learnable_ode,
            extra,
        ) <= usize::MAX,
    ensures
        next == at + block_extent(
            *block,
            n_embd as int,
            maestro_dim as int,
            learnable_ode,
            extra,
        ),
        ({
            let all = done + block_sections(
                *block,
                b as int,
                n_embd as int,
                maestro_dim as int,
                learnable_ode,
                extra,
            );
            &&& labelled(final(ranges)@, all)
            &&& next == section_start(all, all.len() as int)
        }),
{
    let ghost first = done;
    let ghost core = core_sections(*block, b as int, n_embd as int, maestro_dim as int);
    let ghost ode = ode_sections(*block, b as int, learnable_ode, extra);
    let mut at: usize = add_core(ranges, at, block, b, n_embd, maestro_dim, Ghost(done));
    let ghost mut done = done + core;
    if learnable_ode {
        let nb: usize = block.ffn.kerr.gamma_raw.len();
        let nc: usize = block.ffn.kerr.phase_correction.len();
        at = add_section(ranges, at, named(b, "_kerr_gamma"), nb, Ghost(done));
        proof {
            done = done.push(ode[0]);
        }
        at = add_section(ranges, at, named(b, "_kerr_alpha"), 1, Ghost(done));
        proof {
            done = done.push(ode[1]);
        }
        at = add_section(ranges, at, named(b, "_kerr_beta"), 1, Ghost(done));
        proof {
            done = done.push(ode[2]);
        }
        at = add_section(ranges, at, named(b, "_phase_correction"), nc, Ghost(done));
        proof {
            done = done.push(ode[3]);
        }
        if extra.use_rk4_weights {
            at = add_section(ranges, at, named(b, "_rk4_weights"), 4, Ghost(done));
            proof {
                done = done.push(ode[4]);
            }
        }
    }
    assert(done =~= first + core + ode);
    if extra.use_dyn_harmonics {
        let nh: usize = block.attn.heads.len();
        at = add_section(ranges, at, named(b, "_harmonic_raw"), nh, Ghost(done));
        proof {
            done = done.push((block_name(b as int, "_harmonic_raw"@), nh as int));
        }
    }
    assert(done =~= first + block_sections(
        *block,
        b as int,
        n_embd as int,
        maestro_dim as int,
        learnable_ode,
        extra,
    ));
    at
}

/// Number of entries of the sections of the first `n` blocks.
pub open spec fn blocks_extent<T>(
    model: WavePacketModel<T>,
    n: int,
    extra: ExtraSections,
) -> int
    decreases n,
{
    if n <= 0 {
        0
    } else {
        blocks_extent(model, n - 1, extra) + block_extent(
            model.blocks@[n - 1],
            model.n_embd(),
            model.maestro_dim(),
            model.learnable_ode,
            extra,
        )
    }
}

/// Fewer blocks take no more entries.
proof fn lemma_extent_monotone<T>(
    model: WavePacketModel<T>,
    i: int,
    j: int,
    extra: ExtraSections,
)
    requires
        model.wf(false),
        0 <= i <= j <= model.blocks@.len(),
    ensures
        blocks_extent(model, i, extra) <= blocks_extent(model, j, extra),
    decreases j - i,
{
    if i < j {
        lemma_extent_monotone(model, i, j - 1, extra);
        let block = model.blocks@[j - 1];
        block.lemma_flat_len(model.n_embd(), model.maestro_dim(), model.learnable_ode);
    }
}

/// Names the sections of a model's flat parameter vector, in order, each with
/// the offset where it starts.
pub fn build_section_labels<T>(model: &WavePacketModel<T>, extra: ExtraSections) -> (labels:
    SectionLabels)
    requires
        model.wf(false),
        blocks_extent(*model, model.blocks@.len() as int, extra) + model.layer_scale@.len() + 2
            * model.n_embd() + model.lm_rank * model.n_embd() <= usize::MAX,
    ensures
        labelled(labels.ranges@, sections(*model, extra)),
{
    let n_embd: usize = model.ln_f.weight.len();
    let maestro_dim: usize = model.blocks[0].ffn.maestro_in.squeeze.w.len();
    let n_blocks: usize = model.blocks.len();
    let mut ranges: Vec<(usize, String)> = Vec::new();
    let mut at: usize = 0;
    let mut b: usize = 0;
    assert(model.lm_rank * n_embd >= 0) by (nonlinear_arith);
    while b < n_blocks
        invariant
            n_blocks == model.blocks@.len(),
            n_embd == model.n_embd(),
            maestro_dim == model.maestro_dim(),
            model.wf(false),
            blocks_extent(*model, n_blocks as int, extra) <= usize::MAX,
            b <= n_blocks,
            at == blocks_extent(*model, b as int, extra),
            labelled(ranges@, blocks_sections(*model, b as int, extra)),
            at == section_start(
                blocks_sections(*model, b as int, extra),
                blocks_sections(*model, b as int, extra).len() as int,
            ),
        decreases n_blocks - b,
    {
        proof {
            lemma_extent_monotone(*model, b + 1, n_blocks as int, extra);
        }
        let ghost done = blocks_sections(*model, b as int, extra);
        at = add_block(
            &mut ranges,
            at,
            &model.blocks[b],
            b,
            n_embd,
            maestro_dim,
            model.learnable_ode,
            extra,
            Ghost(done),
        );
        b += 1;
    }
    let ghost mut done = blocks_sections(*model, n_blocks as int, extra);
    let ghost tail = tail_sections(*model);
    if model.use_layer_scale {
        let nl: usize = model.layer_scale.len();
        at = add_section(&mut ranges, at, String::from_str("layer_scale"), nl, Ghost(done));
        proof {
            done = done.push(("layer_scale"@, nl as int));
        }
    }
    at = add_section(&mut ranges, at, String::from_str("ln_f_w"), n_embd, Ghost(done));
    proof {
        done = done.push(("ln_f_w"@, n_embd as int));
    }
    at = add_section(&mut ranges, at, String::from_str("ln_f_b"), n_embd, Ghost(done));
    proof {
        done = done.push(("ln_f_b"@, n_embd as int));
        assert(done =~= blocks_sections(*model, n_blocks as int, extra) + tail);
    }
    let ghost body = done;
    if model.phase_native {
        add_label(
            &mut ranges,
            at,
            String::from_str("output_corrector"),
            Ghost(done),
            Ghost(model.output_corrector@.len() as int),
        );
        assert(body.push(decoder_sections(*model)[0]) =~= sections(*model, extra));
    } else if model.wd_state.is_some() {
        add_label(
            &mut ranges,
            at,
            String::from_str("wave_decode"),
            Ghost(done),
            Ghost(model.wd_state->0.spec_param_count()),
        );
        assert(body.push(decoder_sections(*model)[0]) =~= sections(*model, extra));
    } else if model.lm_rank > 0 {
        let down: usize = model.lm_rank * n_embd;
        at = add_section(&mut ranges, at, String::from_str("lm_down"), down, Ghost(done));
        proof {
            done = done.push(("lm_down"@, down as int));
        }
        add_label(
            &mut ranges,
            at,
            String::from_str("lm_up"),
            Ghost(done),
            Ghost(model.vocab_size * model.lm_rank),
        );
        assert(body.push(decoder_sections(*model)[0]).push(decoder_sections(*model)[1])
            =~= sections(*model, extra));
    } else {
        add_label(
            &mut ranges,
            at,
            String::from_str("lm_head"),
            Ghost(done),
            Ghost(model.vocab_size * model.n_embd()),
        );
        assert(body.push(decoder_sections(*model)[0]) =~= sections(*model, extra));
    }
    SectionLabels { ranges }
}

/// Pieces laid end to end.
pub open spec fn concat<T>(pieces: Seq<Seq<T>>) -> Seq<T>
    decreases pieces.len(),
{
    if pieces.len() == 0 {
        Seq::empty()
    } else {
        concat(pieces.drop_last()) + pieces.last()
    }
}

proof fn lemma_concat_push<T>(pieces: Seq<Seq<T>>, piece: Seq<T>)
    ensures
        concat(pieces.push(piece)) == concat(pieces) + piece,
{
    assert(pieces.push(piece).drop_last() =~= pieces);
}

proof fn lemma_concat_append<T>(a: Seq<Seq<T>>, b: Seq<Seq<T>>)
    ensures
        concat(a + b) == concat(a) + concat(b),
    decreases b.len(),
{
    if b.len() == 0 {
        assert(a + b =~= a);
        assert(concat(a) + concat(b) =~= concat(a));
    } else {
        lemma_concat_append(a, b.drop_last());
        assert((a + b).drop_last() =~= a + b.drop_last());
        assert(concat(a + b) =~= concat(a) + concat(b));
    }
}

/// The values of the sections that every block has.
pub open spec fn core_contents<T>(block: WaveBlockWeights<T>) -> Seq<Seq<T>> {
    seq![
        block.ln.weight@,
        block.ln.bias@,
        block.ln_ffn.weight@,
        block.ln_ffn.bias@,
        rows_flat(block.ffn.maestro_in.squeeze.w@),
        block.ffn.maestro_in.squeeze.b@,
        rows_flat(block.ffn.maestro_in.process_1.w@),
        block.ffn.maestro_in.process_1.b@,
        rows_flat(block.ffn.maestro_out.squeeze.w@),
        block.ffn.maestro_out.squeeze.b@,
        rows_flat(block.ffn.maestro_out.process_1.w@),
        block.ffn.maestro_out.process_1.b@,
        block.ffn.out_proj.flat(),
    ]
}

/// The values of the sections of one block.
pub open spec fn block_contents<T>(block: WaveBlockWeights<T>, learnable_ode: bool) -> Seq<
    Seq<T>,
> {
    core_contents(block) + (if learnable_ode {
        seq![
            block.ffn.kerr.gamma_raw@,
            seq![block.ffn.kerr.alpha],
            seq![block.ffn.kerr.beta],
            block.ffn.kerr.phase_correction@,
        ]
    } else {
        Seq::empty()
    })
}

/// The values of the sections of the first `n` blocks.
pub open spec fn blocks_contents<T>(model: WavePacketModel<T>, n: int) -> Seq<Seq<T>>
    decreases n,
{
    if n <= 0 {
        Seq::empty()
    } else {
        blocks_contents(model, n - 1) + block_contents(
            model.blocks@[n - 1],
            model.learnable_ode,
        )
    }
}

/// The values of the sections after the blocks.
pub open spec fn tail_contents<T>(model: WavePacketModel<T>) -> Seq<Seq<T>> {
    (if model.use_layer_scale {
        seq![model.layer_scale@]
    } else {
        Seq::empty()
    }) + seq![model.ln_f.weight@, model.ln_f.bias@]
}

/// The values of the sections of the decoder of a model with an untied head.
pub open spec fn decoder_contents<T>(model: WavePacketModel<T>) -> Seq<Seq<T>> {
    if model.phase_native {
        seq![model.output_corrector@]
    } else if let Some(wds) = model.wd_state {
        seq![wds.flat()]
    } else if model.lm_rank > 0 {
        seq![rows_flat(model.lm_down@), rows_flat(model.lm_up@)]
    } else {
        seq![rows_flat(model.lm_head@)]
    }
}

/// The values of all sections of a model with an untied head.
pub open spec fn contents<T>(model: WavePacketModel<T>) -> Seq<Seq<T>> {
    blocks_contents(model, model.blocks@.len() as int) + tail_contents(model)
        + decoder_contents(model)
}

/// A block without extra sections.
pub open spec fn no_extra() -> ExtraSections {
    ExtraSections { use_rk4_weights: false, use_dyn_harmonics: false }
}

/// Sections and values agree in number and in length.
pub open spec fn fits<T>(sections: Seq<Section>, contents: Seq<Seq<T>>) -> bool {
    &&& sections.len() == contents.len()
    &&& forall|i: int|
        0 <= i < sections.len() ==> (#[trigger] sections[i]).1 == contents[i].len()
}

proof fn lemma_fits_append<T>(
    s1: Seq<Section>,
    s2: Seq<Section>,
    c1: Seq<Seq<T>>,
    c2: Seq<Seq<T>>,
)
    requires
        fits(s1, c1),
        fits(s2, c2),
    ensures
        fits(s1 + s2, c1 + c2),
{
    assert forall|i: int| 0 <= i < (s1 + s2).len() implies (#[trigger] (s1 + s2)[i]).1 == (c1
        + c2)[i].len() by {
        if i < s1.len() {
            assert(s1[i].1 == c1[i].len());
        } else {
            assert(s2[i - s1.len()].1 == c2[i - s1.len()].len());
        }
    }
}

/// Two pieces after what is laid out so far.
proof fn lemma_concat_push2<T>(pieces: Seq<Seq<T>>, a: Seq<T>, b: Seq<T>)
    ensures
        concat(pieces.push(a).push(b)) == concat(pieces) + (a + b),
{
    lemma_concat_push(pieces, a);
    lemma_concat_push(pieces.push(a), b);
    assert(concat(pieces) + a + b =~= concat(pieces) + (a + b));
}

/// The sections of a block hold its flat parameters.
proof fn lemma_block_contents<T>(block: WaveBlockWeights<T>, learnable_ode: bool)
    ensures
        concat(block_contents(block, learnable_ode)) == block.flat(learnable_ode),
{
    reveal(WaveBlockWeights::flat);
    let c = core_contents(block);
    let e = Seq::<Seq<T>>::empty();
    let c2 = e.push(c[0]).push(c[1]);
    let c4 = c2.push(c[2]).push(c[3]);
    let c6 = c4.push(c[4]).push(c[5]);
    let c8 = c6.push(c[6]).push(c[7]);
    let c10 = c8.push(c[8]).push(c[9]);
    let c12 = c10.push(c[10]).push(c[11]);
    lemma_concat_push2(e, c[0], c[1]);
    lemma_concat_push2(c2, c[2], c[3]);
    lemma_concat_push2(c4, c[4], c[5]);
    lemma_concat_push2(c6, c[6], c[7]);
    lemma_concat_push2(c8, c[8], c[9]);
    lemma_concat_push2(c10, c[10], c[11]);
    lemma_concat_push(c12, c[12]);
    assert(c12.push(c[12]) =~= c);
    let m_in = block.ffn.maestro_in;
    let m_out = block.ffn.maestro_out;
    assert(concat(c4) =~= block.norms_flat());
    assert(concat(c6) == concat(c4) + m_in.squeeze.flat());
    assert(concat(c8) =~= concat(c4) + maestro_flat(m_in));
    assert(concat(c10) == concat(c8) + m_out.squeeze.flat());
    assert(concat(c12) =~= concat(c8) + maestro_flat(m_out));
    if learnable_ode {
        let k = block.ffn.kerr;
        let a = seq![k.alpha];
        let b = seq![k.beta];
        let g2 = c.push(k.gamma_raw@).push(a);
        lemma_concat_push2(c, k.gamma_raw@, a);
        lemma_concat_push2(g2, b, k.phase_correction@);
        assert(g2.push(b).push(k.phase_correction@) =~= block_contents(block, true));
        assert((k.gamma_raw@ + a) + (b + k.phase_correction@) =~= block.ode_flat(true));
        assert(concat(block_contents(block, true)) =~= block.flat(true));
    } else {
        assert(block_contents(block, false) =~= c);
        assert(block.flat(false) =~= concat(c));
    }
}

/// The sections of a block and their values agree in length.
proof fn lemma_block_fits<T>(
    block: WaveBlockWeights<T>,
    b: int,
    n_embd: int,
    maestro_dim: int,
    learnable_ode: bool,
)
    requires
        block.wf(n_embd, maestro_dim),
    ensures
        fits(
            block_sections(block, b, n_embd, maestro_dim, learnable_ode, no_extra()),
            block_contents(block, learnable_ode),
        ),
{
    lemma_rows_flat_len(block.ffn.maestro_in.squeeze.w@, n_embd);
    lemma_rows_flat_len(block.ffn.maestro_in.process_1.w@, maestro_dim);
    lemma_rows_flat_len(block.ffn.maestro_out.squeeze.w@, n_embd);
    lemma_rows_flat_len(block.ffn.maestro_out.process_1.w@, maestro_dim);
    block.ffn.out_proj.lemma_flat_len();
    let s = block_sections(block, b, n_embd, maestro_dim, learnable_ode, no_extra());
    let c = block_contents(block, learnable_ode);
    assert(fits(core_sections(block, b, n_embd, maestro_dim), core_contents(block)));
    assert forall|i: int| 0 <= i < s.len() implies (#[trigger] s[i]).1 == c[i].len() by {
        if i < 13 {
            assert(s[i] == core_sections(block, b, n_embd, maestro_dim)[i]);
            assert(c[i] == core_contents(block)[i]);
        } else {
            assert(s[i] == ode_sections(block, b, learnable_ode, no_extra())[i - 13]);
        }
    }
}

/// The sections of the first blocks hold their flat parameters.
proof fn lemma_blocks_contents<T>(model: WavePacketModel<T>, n: int)
    requires
        model.wf(false),
        0 <= n <= model.blocks@.len(),
    ensures
        fits(blocks_sections(model, n, no_extra()), blocks_contents(model, n)),
        concat(blocks_contents(model, n)) == blocks_flat(
            model.blocks@.subrange(0, n),
            model.learnable_ode,
        ),
    decreases n,
{
    if n > 0 {
        let block = model.blocks@[n - 1];
        lemma_blocks_contents(model, n - 1);
        lemma_block_contents(block, model.learnable_ode);
        lemma_block_fits(
            block,
            n - 1,
            model.n_embd(),
            model.maestro_dim(),
            model.learnable_ode,
        );
        lemma_fits_append(
            blocks_sections(model, n - 1, no_extra()),
            block_sections(
                block,
                n - 1,
                model.n_embd(),
                model.maestro_dim(),
                model.learnable_ode,
                no_extra(),
            ),
            blocks_contents(model, n - 1),
            block_contents(block, model.learnable_ode),
        );
        lemma_concat_append(
            blocks_contents(model, n - 1),
            block_contents(block, model.learnable_ode),
        );
        lemma_blocks_flat_step(model.blocks@, model.learnable_ode, n - 1);
    } else {
        assert(model.blocks@.subrange(0, 0) =~= Seq::<WaveBlockWeights<T>>::empty());
    }
}

/// A piece stands where the pieces before it end.
proof fn lemma_concat_piece<T>(sections: Seq<Section>, pieces: Seq<Seq<T>>, i: int)
    requires
        fits(sections, pieces),
        0 <= i < pieces.len(),
    ensures
        0 <= section_start(sections, i),
        section_start(sections, i) + pieces[i].len() <= concat(pieces).len(),
        concat(pieces).subrange(
            section_start(sections, i),
            section_start(sections, i) + pieces[i].len(),
        ) == pieces[i],
        section_start(sections, pieces.len() as int) == concat(pieces).len(),
    decreases pieces.len(),
{
    let fs = sections.drop_last();
    let fp = pieces.drop_last();
    let last = pieces.len() - 1;
    assert(fits(fs, fp)) by {
        assert forall|k: int| 0 <= k < fs.len() implies (#[trigger] fs[k]).1 == fp[k].len() by {
            assert(sections[k].1 == pieces[k].len());
        }
    }
    lemma_start_prefix(fs, sections, i);
    lemma_start_prefix(fs, sections, last);
    assert(sections[last].1 == pieces[last].len());
    if last == 0 {
        assert(concat(fp) =~= Seq::<T>::empty());
        assert(concat(pieces).subrange(0, pieces[0].len() as int) =~= pieces[0]);
    } else {
        if i < last {
            lemma_concat_piece(fs, fp, i);
            let at = section_start(sections, i);
            assert(concat(pieces).subrange(at, at + pieces[i].len()) =~= concat(fp).subrange(
                at,
                at + fp[i].len(),
            ));
        } else {
            lemma_concat_piece(fs, fp, 0);
            let at = section_start(sections, last);
            assert(concat(pieces).subrange(at, at + pieces[i].len()) =~= pieces[i]);
        }
    }
}

/// The labels mirror the flat layout of a model with an untied head: each
/// section holds exactly the values it is named after, and together the sections
/// make up the whole vector.
pub proof fn law_sections_mirror_layout<T>(model: WavePacketModel<T>, i: int)
    requires
        model.wf(false),
        0 <= i < contents(model).len(),
    ensures
        fits(sections(model, no_extra()), contents(model)),
        model.flat(false) == concat(contents(model)),
        model.flat(false).subrange(
            section_start(sections(model, no_extra()), i),
            section_start(sections(model, no_extra()), i) + contents(model)[i].len(),
        ) == contents(model)[i],
        section_start(sections(model, no_extra()), contents(model).len() as int) == model.flat(
            false,
        ).len(),
{
    let n = model.blocks@.len() as int;
    let bs = blocks_sections(model, n, no_extra());
    let bc = blocks_contents(model, n);
    let ts = tail_sections(model);
    let tc = tail_contents(model);
    let ds = decoder_sections(model);
    let dc = decoder_contents(model);
    lemma_blocks_contents(model, n);
    assert(model.blocks@.subrange(0, n) =~= model.blocks@);
    model.lemma_decoder_len(false);
    assert(fits(ts, tc));
    assert(fits(ds, dc)) by {
        if !model.phase_native && model.wd_state is None {
            if model.lm_rank > 0 {
                lemma_rows_flat_len(model.lm_down@, model.n_embd());
                lemma_rows_flat_len(model.lm_up@, model.lm_rank as int);
            }
        }
    }
    lemma_fits_append(bs, ts, bc, tc);
    lemma_fits_append(bs + ts, ds, bc + tc, dc);
    lemma_concat_append(bc, tc);
    lemma_concat_append(bc + tc, dc);
    let e = Seq::<Seq<T>>::empty();
    let w = model.ln_f.weight@;
    let b = model.ln_f.bias@;
    let head = if model.use_layer_scale {
        seq![model.layer_scale@]
    } else {
        e
    };
    assert(concat(head) =~= model.scale_flat()) by {
        lemma_concat_push(e, model.layer_scale@);
        assert(e.push(model.layer_scale@) =~= seq![model.layer_scale@]);
    }
    lemma_concat_push2(head, w, b);
    assert(head.push(w).push(b) =~= tc);
    assert(concat(dc) =~= model.decoder_flat(false)) by {
        if dc.len() == 1 {
            lemma_concat_push(e, dc[0]);
            assert(e.push(dc[0]) =~= dc);
        } else {
            lemma_concat_push2(e, dc[0], dc[1]);
            assert(e.push(dc[0]).push(dc[1]) =~= dc);
        }
    }
    assert(model.flat(false) =~= concat(contents(model)));
    lemma_concat_piece(sections(model, no_extra()), contents(model), i);
}

} // verus!
