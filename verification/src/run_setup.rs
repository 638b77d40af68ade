//! What a run fixes before its first iteration, and what it reports of the ODE and of the
//! output corrector on the way.

use vstd::prelude::*;
use vstd::string::*;
use crate::arith::{Arith, Test, Traced, TracedVec, build, pick_on};
#[allow(unused_imports)]
use crate::arith::{
    Expr, Unary, entry, fits, over, pick, test_is, times, un, val, vals, zero,
};
use crate::estimates::whole_on;
#[allow(unused_imports)]
use crate::estimates::whole_of;
use crate::json::{Field, array, field, number, object, owned, tagged};
#[allow(unused_imports)]
use crate::json::{array_text, field_texts, member_text, object_text, tagged_line, texts};
use crate::layers::{mean_on, traced};
#[allow(unused_imports)]
use crate::layers::{deviations_of, mean_of};
use crate::ode_distortion::{crest_on, member};
#[allow(unused_imports)]
use crate::ode_distortion::crest_of;
#[allow(unused_imports)]
use crate::text::decimal;
use crate::wave_model::WavePacketModel;
use crate::weights::KerrWeights;
#[allow(unused_imports)]
use crate::wave_model::WaveBlockWeights;
#[allow(unused_imports)]
use crate::weights::KerrDualMaestroWeights;

verus! {

/// The strength of four-wave mixing: the one asked for, or else that of the checkpoint.
pub open spec fn chi_of<T>(asked: T, kept: T) -> Expr<T> {
    pick(Test::Exceeds, val(asked), zero(), val(asked), val(kept))
}

/// The strength of four-wave mixing that a run uses.
pub fn effective_chi<T: Copy, A: Arith<T>>(ops: &A, asked: T, kept: T) -> (chi: T)
    ensures
        fits(*ops, chi_of(asked, kept), chi),
{
    pick_on(
        ops,
        Test::Exceeds,
        Traced::of(ops, asked),
        Traced::ratio(ops, 0, 1),
        Traced::of(ops, asked),
        Traced::of(ops, kept),
    ).v
}

/// A block with another strength of four-wave mixing.
pub open spec fn with_chi<T>(b: WaveBlockWeights<T>, chi: T) -> WaveBlockWeights<T> {
    WaveBlockWeights {
        ffn: KerrDualMaestroWeights { kerr: KerrWeights { chi, ..b.ffn.kerr }, ..b.ffn },
        ..b
    }
}

/// Gives every block the strength of four-wave mixing, if it is above zero. The result says
/// whether it is.
pub fn enable_mixing<T: Copy, A: Arith<T>>(ops: &A, model: &mut WavePacketModel<T>, chi: T) -> (on:
    bool)
    ensures
        exists|nought: T| #[trigger]
            fits(*ops, zero(), nought) && test_is(*ops, Test::Exceeds, chi, nought, on),
        !on ==> *final(model) == *old(model),
        on ==> {
            &&& final(model).blocks@ == old(model).blocks@.map_values(
                |b: WaveBlockWeights<T>| with_chi(b, chi),
            )
            &&& *final(model) == (WavePacketModel { blocks: final(model).blocks, ..*old(model) })
        },
{
    let nought: Traced<T> = Traced::ratio(ops, 0, 1);
    let on: bool = ops.exceeds(chi, nought.v);
    assert(fits(*ops, zero(), nought.v));
    assert(test_is(*ops, Test::Exceeds, chi, nought.v, on));
    if on {
        let n: usize = model.blocks.len();
        let mut b: usize = 0;
        while b < n
            invariant
                n == model.blocks@.len(),
                n == old(model).blocks@.len(),
                b <= n,
                *model == (WavePacketModel { blocks: model.blocks, ..*old(model) }),
                forall|k: int|
                    0 <= k < b ==> #[trigger] model.blocks@[k] == with_chi(
                        old(model).blocks@[k],
                        chi,
                    ),
                forall|k: int|
                    b <= k < n ==> #[trigger] model.blocks@[k] == old(model).blocks@[k],
            decreases n - b,
        {
            model.blocks[b].ffn.kerr.chi = chi;
            b += 1;
        }
        assert(model.blocks@ =~= old(model).blocks@.map_values(
            |b: WaveBlockWeights<T>| with_chi(b, chi),
        ));
    }
    on
}

/// The least number of bands that a vocabulary should have.
pub fn least_bands<T: Copy, A: Arith<T>>(ops: &A, vocab_size: usize) -> (n: usize)
    ensures
        whole_of(*ops, times(Expr::Count(vocab_size), Expr::Ratio(8, 1000)), n),
{
    whole_on(ops, Traced::count(ops, vocab_size).times(ops, Traced::ratio(ops, 8, 1000)))
}

/// Tokens to a band.
pub fn tokens_per_band<T: Copy, A: Arith<T>>(ops: &A, vocab_size: usize, n_bands: usize) -> (out: T)
    ensures
        fits(*ops, over(Expr::Count(vocab_size), Expr::Count(n_bands)), out),
{
    Traced::count(ops, vocab_size).over(ops, Traced::count(ops, n_bands)).v
}

/// The sizes of some numbers.
pub open spec fn magnitudes_of<T>(xs: Seq<Expr<T>>) -> Seq<Expr<T>> {
    Seq::new(xs.len(), |i: int| un(Unary::Abs, xs[i]))
}

/// How the angles of the output corrector lie.
#[derive(Clone, Copy)]
pub struct CorrectorStats<T> {
    pub mean: T,
    pub std: T,
    pub max_abs: T,
}

/// Mean, spread and largest size of the angles of the output corrector, if there are any.
pub fn corrector_stats<T: Copy, A: Arith<T>>(ops: &A, angles: &[T]) -> (out: Option<
    CorrectorStats<T>,
>)
    ensures
        out is None <==> angles@.len() == 0,
        out matches Some(s) ==> {
            &&& fits(*ops, mean_of(vals(angles@)), s.mean)
            &&& fits(*ops, un(Unary::Root, mean_of(deviations_of(vals(angles@)))), s.std)
            &&& fits(*ops, crest_of(magnitudes_of(vals(angles@))), s.max_abs)
        },
{
    let n: usize = angles.len();
    if n == 0 {
        return None;
    }
    let xs: TracedVec<T> = traced(ops, angles);
    let mean: Traced<T> = mean_on(ops, &xs);
    let gap = |i: usize| -> (r: Traced<T>)
        requires
            i < n,
        ensures
            r.ok(*ops),
            r.e@ == entry(deviations_of(xs.e@), i),
        {
            let d: Traced<T> = xs.get(ops, i).minus(ops, mean);
            d.times(ops, d)
        };
    let gaps: TracedVec<T> = build(ops, n, Ghost(deviations_of(xs.e@)), gap);
    let size = |i: usize| -> (r: Traced<T>)
        requires
            i < n,
        ensures
            r.ok(*ops),
            r.e@ == entry(magnitudes_of(xs.e@), i),
        { xs.get(ops, i).abs(ops) };
    let sizes: TracedVec<T> = build(ops, n, Ghost(magnitudes_of(xs.e@)), size);
    Some(
        CorrectorStats {
            mean: mean.v,
            std: mean_on(ops, &gaps).root(ops).v,
            max_abs: crest_on(ops, &sizes).v,
        },
    )
}

/// What a layer's ODE was measured to do, in print.
pub struct DecompositionTexts {
    pub layer: usize,
    pub fwm_ratio: String,
    pub fwm_vs_phase: String,
    pub damping_ratio: String,
    pub phase_ratio: String,
    pub triple_ratio: String,
    pub max_amp: String,
    pub mean_amp: String,
    pub rk4_ratio: String,
    pub flux_max: String,
    pub top_bands: [usize; 3],
}

/// The fields of a layer.
pub open spec fn decomposition_fields(t: DecompositionTexts) -> Seq<(Seq<char>, Seq<char>)> {
    seq![
        ("layer"@, decimal(t.layer as nat)),
        ("fwm_ratio"@, t.fwm_ratio@),
        ("fwm_vs_phase"@, t.fwm_vs_phase@),
        ("damping_ratio"@, t.damping_ratio@),
        ("phase_ratio"@, t.phase_ratio@),
        ("triple_ratio"@, t.triple_ratio@),
        ("max_amp"@, t.max_amp@),
        ("mean_amp"@, t.mean_amp@),
        ("rk4_ratio"@, t.rk4_ratio@),
        ("flux_max"@, t.flux_max@),
        (
            "top_bands"@,
            array_text(
                seq![
                    decimal(t.top_bands@[0] as nat),
                    decimal(t.top_bands@[1] as nat),
                    decimal(t.top_bands@[2] as nat),
                ],
            ),
        ),
    ]
}

fn decomposition_entry(t: &DecompositionTexts) -> (out: String)
    ensures
        out@ == object_text(decomposition_fields(*t)),
{
    let mut tops: Vec<String> = Vec::new();
    tops.push(number(t.top_bands[0]));
    tops.push(number(t.top_bands[1]));
    tops.push(number(t.top_bands[2]));
    assert(texts(tops@) =~= seq![
        decimal(t.top_bands@[0] as nat),
        decimal(t.top_bands@[1] as nat),
        decimal(t.top_bands@[2] as nat),
    ]);
    let mut fields: Vec<Field> = Vec::new();
    fields.push(field("layer", number(t.layer)));
    fields.push(field("fwm_ratio", owned(t.fwm_ratio.as_str())));
    fields.push(field("fwm_vs_phase", owned(t.fwm_vs_phase.as_str())));
    fields.push(field("damping_ratio", owned(t.damping_ratio.as_str())));
    fields.push(field("phase_ratio", owned(t.phase_ratio.as_str())));
    fields.push(field("triple_ratio", owned(t.triple_ratio.as_str())));
    fields.push(field("max_amp", owned(t.max_amp.as_str())));
    fields.push(field("mean_amp", owned(t.mean_amp.as_str())));
    fields.push(field("rk4_ratio", owned(t.rk4_ratio.as_str())));
    fields.push(field("flux_max", owned(t.flux_max.as_str())));
    fields.push(field("top_bands", array(&tops)));
    assert(field_texts(fields@) =~= decomposition_fields(*t));
    object(&fields)
}

/// The layers of a decomposition, in print.
pub open spec fn decomposition_entries(ts: Seq<DecompositionTexts>) -> Seq<Seq<char>> {
    ts.map_values(|t: DecompositionTexts| object_text(decomposition_fields(t)))
}

/// The line that tells how the ODE of each layer divides into its effects.
pub fn decomposition_line(
    iter: usize,
    tier: &str,
    chi: &str,
    layers: &Vec<DecompositionTexts>,
) -> (out: String)
    ensures
        out@ == tagged_line(
            iter as nat,
            "ode_decomposition"@,
            member_text("tier"@, "\""@ + tier@ + "\""@) + ","@ + member_text("chi"@, chi@) + ","@
                + member_text("layers"@, array_text(decomposition_entries(layers@))),
        ),
{
    let n: usize = layers.len();
    let mut entries: Vec<String> = Vec::new();
    let mut i: usize = 0;
    while i < n
        invariant
            n == layers@.len(),
            i <= n,
            entries@.len() == i,
            forall|k: int|
                0 <= k < i ==> (#[trigger] entries@[k])@ == object_text(
                    decomposition_fields(layers@[k]),
                ),
        decreases n - i,
    {
        entries.push(decomposition_entry(&layers[i]));
        i += 1;
    }
    assert(texts(entries@) =~= decomposition_entries(layers@));
    let mut quoted: String = owned("\"");
    quoted.append(tier);
    quoted.append("\"");
    let mut fragment: String = member("tier", quoted.as_str());
    fragment.append(",");
    fragment.append(member("chi", chi).as_str());
    fragment.append(",");
    fragment.append(member("layers", array(&entries).as_str()).as_str());
    tagged(iter, "ode_decomposition", fragment.as_str())
}

} // verus!
