//! Health monitoring of a training run: what is reported, when, and in which
//! order.

use vstd::prelude::*;
use vstd::string::*;
use crate::json::{array, field, monitor_line, number, object, owned, tagged, Field};
use crate::json::{
    array_text, field_texts, member_text, object_text, tagged_line, texts,
};
use crate::text::decimal;

verus! {

/// What the monitors collected on one element of a batch.
pub struct BatchHealthData<D, G, A, F, O, N, Q> {
    pub distortion: Option<D>,
    pub grad_flow: Option<G>,
    pub attn_stats: Option<A>,
    pub flow_stats: Option<F>,
    pub output_stats: Option<O>,
    pub ode_dynamics: Option<N>,
    pub iq_analysis: Option<Q>,
}

/// The first value that is present.
pub open spec fn first_some<V>(xs: Seq<Option<V>>) -> Option<V>
    decreases xs.len(),
{
    if xs.len() == 0 {
        None
    } else if xs[0] is Some {
        xs[0]
    } else {
        first_some(xs.drop_first())
    }
}

/// The first value that is present among the leading entries, then `x`.
proof fn lemma_first_some_push<V>(xs: Seq<Option<V>>, x: Option<V>)
    ensures
        first_some(xs.push(x)) == (if first_some(xs) is Some {
            first_some(xs)
        } else {
            x
        }),
    decreases xs.len(),
{
    if xs.len() == 0 {
        assert(xs.push(x).drop_first() =~= Seq::<Option<V>>::empty());
        assert(first_some(xs.push(x).drop_first()) is None);
    } else if xs[0] is Some {
        assert(xs.push(x)[0] == xs[0]);
    } else {
        lemma_first_some_push(xs.drop_first(), x);
        assert(xs.push(x).drop_first() =~= xs.drop_first().push(x));
        assert(xs.push(x)[0] == xs[0]);
    }
}

/// Keeps what is there, else takes the other value.
fn either<V>(kept: Option<V>, other: Option<V>) -> (out: Option<V>)
    ensures
        out == (if kept is Some {
            kept
        } else {
            other
        }),
{
    if kept.is_some() {
        kept
    } else {
        other
    }
}

/// For each monitor the reading of the first batch element that has one.
pub fn first_readings<D, G, A, F, O, N, Q>(
    batch: Vec<BatchHealthData<D, G, A, F, O, N, Q>>,
) -> (out: BatchHealthData<D, G, A, F, O, N, Q>)
    ensures
        out.distortion == first_some(
            batch@.map_values(|h: BatchHealthData<D, G, A, F, O, N, Q>| h.distortion),
        ),
        out.grad_flow == first_some(
            batch@.map_values(|h: BatchHealthData<D, G, A, F, O, N, Q>| h.grad_flow),
        ),
        out.attn_stats == first_some(
            batch@.map_values(|h: BatchHealthData<D, G, A, F, O, N, Q>| h.attn_stats),
        ),
        out.flow_stats == first_some(
            batch@.map_values(|h: BatchHealthData<D, G, A, F, O, N, Q>| h.flow_stats),
        ),
        out.output_stats == first_some(
            batch@.map_values(|h: BatchHealthData<D, G, A, F, O, N, Q>| h.output_stats),
        ),
        out.ode_dynamics == first_some(
            batch@.map_values(|h: BatchHealthData<D, G, A, F, O, N, Q>| h.ode_dynamics),
        ),
        out.iq_analysis == first_some(
            batch@.map_values(|h: BatchHealthData<D, G, A, F, O, N, Q>| h.iq_analysis),
        ),
{
    let ghost all = batch@;
    let mut rest: Vec<BatchHealthData<D, G, A, F, O, N, Q>> = batch;
    let mut out: BatchHealthData<D, G, A, F, O, N, Q> = BatchHealthData {
        distortion: None,
        grad_flow: None,
        attn_stats: None,
        flow_stats: None,
        output_stats: None,
        ode_dynamics: None,
        iq_analysis: None,
    };
    let ghost mut done: int = 0;
    while rest.len() > 0
        invariant
            0 <= done <= all.len(),
            rest@ == all.subrange(done, all.len() as int),
            out.distortion == first_some(
                all.subrange(0, done).map_values(
                    |h: BatchHealthData<D, G, A, F, O, N, Q>| h.distortion,
                ),
            ),
            out.grad_flow == first_some(
                all.subrange(0, done).map_values(
                    |h: BatchHealthData<D, G, A, F, O, N, Q>| h.grad_flow,
                ),
            ),
            out.attn_stats == first_some(
                all.subrange(0, done).map_values(
                    |h: BatchHealthData<D, G, A, F, O, N, Q>| h.attn_stats,
                ),
            ),
            out.flow_stats == first_some(
                all.subrange(0, done).map_values(
                    |h: BatchHealthData<D, G, A, F, O, N, Q>| h.flow_stats,
                ),
            ),
            out.output_stats == first_some(
                all.subrange(0, done).map_values(
                    |h: BatchHealthData<D, G, A, F, O, N, Q>| h.output_stats,
                ),
            ),
            out.ode_dynamics == first_some(
                all.subrange(0, done).map_values(
                    |h: BatchHealthData<D, G, A, F, O, N, Q>| h.ode_dynamics,
                ),
            ),
            out.iq_analysis == first_some(
                all.subrange(0, done).map_values(
                    |h: BatchHealthData<D, G, A, F, O, N, Q>| h.iq_analysis,
                ),
            ),
        decreases rest@.len(),
    {
        let next: BatchHealthData<D, G, A, F, O, N, Q> = rest.remove(0);
        proof {
            assert(next == all[done]);
            let seen = all.subrange(0, done);
            let fd = |h: BatchHealthData<D, G, A, F, O, N, Q>| h.distortion;
            let fg = |h: BatchHealthData<D, G, A, F, O, N, Q>| h.grad_flow;
            let fa = |h: BatchHealthData<D, G, A, F, O, N, Q>| h.attn_stats;
            let ff = |h: BatchHealthData<D, G, A, F, O, N, Q>| h.flow_stats;
            let fo = |h: BatchHealthData<D, G, A, F, O, N, Q>| h.output_stats;
            let fn_ = |h: BatchHealthData<D, G, A, F, O, N, Q>| h.ode_dynamics;
            let fq = |h: BatchHealthData<D, G, A, F, O, N, Q>| h.iq_analysis;
            let grown = all.subrange(0, done + 1);
            assert(grown.map_values(fd) =~= seen.map_values(fd).push(next.distortion));
            assert(grown.map_values(fg) =~= seen.map_values(fg).push(next.grad_flow));
            assert(grown.map_values(fa) =~= seen.map_values(fa).push(next.attn_stats));
            assert(grown.map_values(ff) =~= seen.map_values(ff).push(next.flow_stats));
            assert(grown.map_values(fo) =~= seen.map_values(fo).push(next.output_stats));
            assert(grown.map_values(fn_) =~= seen.map_values(fn_).push(next.ode_dynamics));
            assert(grown.map_values(fq) =~= seen.map_values(fq).push(next.iq_analysis));
            lemma_first_some_push(seen.map_values(fd), next.distortion);
            lemma_first_some_push(seen.map_values(fg), next.grad_flow);
            lemma_first_some_push(seen.map_values(fa), next.attn_stats);
            lemma_first_some_push(seen.map_values(ff), next.flow_stats);
            lemma_first_some_push(seen.map_values(fo), next.output_stats);
            lemma_first_some_push(seen.map_values(fn_), next.ode_dynamics);
            lemma_first_some_push(seen.map_values(fq), next.iq_analysis);
            done = done + 1;
        }
        assert(rest@ =~= all.subrange(done, all.len() as int));
        out = BatchHealthData {
            distortion: either(out.distortion, next.distortion),
            grad_flow: either(out.grad_flow, next.grad_flow),
            attn_stats: either(out.attn_stats, next.attn_stats),
            flow_stats: either(out.flow_stats, next.flow_stats),
            output_stats: either(out.output_stats, next.output_stats),
            ode_dynamics: either(out.ode_dynamics, next.ode_dynamics),
            iq_analysis: either(out.iq_analysis, next.iq_analysis),
        };
    }
    assert(all.subrange(0, done) =~= all);
    out
}

/// Whether health is measured at this iteration: on every multiple of the
/// interval, never if the interval is zero.
pub fn health_due(interval: usize, iter: usize) -> (due: bool)
    ensures
        due == (interval > 0 && iter % interval == 0),
{
    interval > 0 && iter % interval == 0
}

/// Whether an element of a batch carries the health monitors: the first one of
/// an iteration at which health is measured.
pub fn measures_health(interval: usize, iter: usize, batch_idx: usize) -> (due: bool)
    ensures
        due == (interval > 0 && iter % interval == 0 && batch_idx == 0),
{
    health_due(interval, iter) && batch_idx == 0
}

/// Whether a telemetry line holds the gradient diagnostics.
pub fn detailed_due(iter: usize) -> (due: bool)
    ensures
        due == (iter % 100 == 0),
{
    iter % 100 == 0
}

/// The figures of every iteration.
pub struct IterationTelemetry {
    pub iter: usize,
    pub loss: String,
    pub lr: String,
    pub time_ms: String,
    pub nan_skips: usize,
}

/// The gradient diagnostics of a detailed line.
pub struct GradientTelemetry {
    pub model_gn: String,
    pub head_gn: String,
    pub head_pct: String,
    pub layer_gn: Vec<String>,
    pub ode_clamps: usize,
    pub ode_max_mag: String,
    pub agc_threshold: String,
    pub agc_mean: String,
    pub agc_std: String,
    pub ode_params: Option<Vec<String>>,
    pub layer_scale: Option<Vec<String>>,
    pub lr_scale: Option<Vec<String>>,
    pub rk4_weights: Option<Vec<String>>,
    pub wd_scale: Option<Vec<String>>,
    pub harmonics: Option<Vec<String>>,
    pub agc_headroom: Option<Vec<String>>,
}

/// The members of a compact telemetry line.
pub open spec fn compact_fields(t: IterationTelemetry) -> Seq<(Seq<char>, Seq<char>)> {
    seq![
        ("iter"@, decimal(t.iter as nat)),
        ("loss"@, t.loss@),
        ("lr"@, t.lr@),
        ("time_ms"@, t.time_ms@),
        ("nan_skips"@, decimal(t.nan_skips as nat)),
    ]
}

/// An array member that is present if there are values for it.
pub open spec fn optional_array(key: Seq<char>, values: Option<Vec<String>>) -> Seq<
    (Seq<char>, Seq<char>),
> {
    match values {
        Some(v) => seq![(key, array_text(texts(v@)))],
        None => Seq::empty(),
    }
}

/// The gradient figures of a detailed line.
pub open spec fn gradient_fields(g: GradientTelemetry) -> Seq<(Seq<char>, Seq<char>)> {
    seq![
        ("model_gn"@, g.model_gn@),
        ("head_gn"@, g.head_gn@),
        ("head_pct"@, g.head_pct@),
        ("layer_gn"@, array_text(texts(g.layer_gn@))),
        ("ode_clamps"@, decimal(g.ode_clamps as nat)),
        ("ode_max_mag"@, g.ode_max_mag@),
        ("agc_threshold"@, g.agc_threshold@),
        ("agc_mean"@, g.agc_mean@),
        ("agc_std"@, g.agc_std@),
    ]
}

/// The members that a detailed line adds.
pub open spec fn detail_fields(g: GradientTelemetry) -> Seq<(Seq<char>, Seq<char>)> {
    gradient_fields(g) + optional_array("ode_params"@, g.ode_params) + optional_array(
        "layer_scale"@,
        g.layer_scale,
    ) + optional_array("lr_scale"@, g.lr_scale) + optional_array("rk4_weights"@, g.rk4_weights)
        + optional_array("wd_scale"@, g.wd_scale) + optional_array("harmonics"@, g.harmonics)
        + optional_array("agc_headroom"@, g.agc_headroom)
}

/// Appends a field.
fn push_field(fields: &mut Vec<Field>, key: &str, value: String)
    ensures
        field_texts(final(fields)@) == field_texts(old(fields)@).push((key@, value@)),
{
    fields.push(field(key, value));
    assert(field_texts(fields@) =~= field_texts(old(fields)@).push((key@, value@)));
}

/// Appends the fields of a compact line.
fn push_compact(fields: &mut Vec<Field>, t: &IterationTelemetry)
    ensures
        field_texts(final(fields)@) == field_texts(old(fields)@) + compact_fields(*t),
{
    push_field(fields, "iter", number(t.iter));
    push_field(fields, "loss", owned(t.loss.as_str()));
    push_field(fields, "lr", owned(t.lr.as_str()));
    push_field(fields, "time_ms", owned(t.time_ms.as_str()));
    push_field(fields, "nan_skips", number(t.nan_skips));
    assert(field_texts(fields@) =~= field_texts(old(fields)@) + compact_fields(*t));
}

/// Appends the gradient figures of a detailed line.
fn push_gradients(fields: &mut Vec<Field>, g: &GradientTelemetry)
    ensures
        field_texts(final(fields)@) == field_texts(old(fields)@) + gradient_fields(*g),
{
    push_field(fields, "model_gn", owned(g.model_gn.as_str()));
    push_field(fields, "head_gn", owned(g.head_gn.as_str()));
    push_field(fields, "head_pct", owned(g.head_pct.as_str()));
    push_field(fields, "layer_gn", array(&g.layer_gn));
    push_field(fields, "ode_clamps", number(g.ode_clamps));
    push_field(fields, "ode_max_mag", owned(g.ode_max_mag.as_str()));
    push_field(fields, "agc_threshold", owned(g.agc_threshold.as_str()));
    push_field(fields, "agc_mean", owned(g.agc_mean.as_str()));
    push_field(fields, "agc_std", owned(g.agc_std.as_str()));
    assert(field_texts(fields@) =~= field_texts(old(fields)@) + gradient_fields(*g));
}

/// Appends an array field if there are values for it.
fn push_optional(fields: &mut Vec<Field>, key: &str, values: &Option<Vec<String>>)
    ensures
        field_texts(final(fields)@) == field_texts(old(fields)@) + optional_array(key@, *values),
{
    if let Some(v) = values {
        fields.push(field(key, array(v)));
    }
    assert(field_texts(fields@) =~= field_texts(old(fields)@) + optional_array(key@, *values));
}

/// The telemetry line of an ordinary iteration.
pub fn compact_line(t: &IterationTelemetry) -> (out: String)
    ensures
        out@ == object_text(compact_fields(*t)),
{
    let mut fields: Vec<Field> = Vec::new();
    push_compact(&mut fields, t);
    assert(field_texts(fields@) =~= compact_fields(*t));
    object(&fields)
}

/// The telemetry line of an iteration with gradient diagnostics.
pub fn detailed_line(t: &IterationTelemetry, g: &GradientTelemetry) -> (out: String)
    ensures
        out@ == object_text(compact_fields(*t) + detail_fields(*g)),
{
    let mut fields: Vec<Field> = Vec::new();
    push_compact(&mut fields, t);
    let ghost c = compact_fields(*t);
    assert(field_texts(fields@) =~= c);
    push_gradients(&mut fields, g);
    let ghost d0 = gradient_fields(*g);
    push_optional(&mut fields, "ode_params", &g.ode_params);
    let ghost d1 = d0 + optional_array("ode_params"@, g.ode_params);
    assert(field_texts(fields@) =~= c + d1);
    push_optional(&mut fields, "layer_scale", &g.layer_scale);
    let ghost d2 = d1 + optional_array("layer_scale"@, g.layer_scale);
    assert(field_texts(fields@) =~= c + d2);
    push_optional(&mut fields, "lr_scale", &g.lr_scale);
    let ghost d3 = d2 + optional_array("lr_scale"@, g.lr_scale);
    assert(field_texts(fields@) =~= c + d3);
    push_optional(&mut fields, "rk4_weights", &g.rk4_weights);
    let ghost d4 = d3 + optional_array("rk4_weights"@, g.rk4_weights);
    assert(field_texts(fields@) =~= c + d4);
    push_optional(&mut fields, "wd_scale", &g.wd_scale);
    let ghost d5 = d4 + optional_array("wd_scale"@, g.wd_scale);
    assert(field_texts(fields@) =~= c + d5);
    push_optional(&mut fields, "harmonics", &g.harmonics);
    let ghost d6 = d5 + optional_array("harmonics"@, g.harmonics);
    assert(field_texts(fields@) =~= c + d6);
    push_optional(&mut fields, "agc_headroom", &g.agc_headroom);
    assert(field_texts(fields@) =~= c + detail_fields(*g));
    object(&fields)
}

/// Fragments that the monitors rendered for one health report. A fragment that
/// is absent was not measured.
pub struct HealthReport {
    pub encoding: Option<String>,
    pub distortion: Option<String>,
    pub grad_flow: Option<String>,
    pub dyn_param: String,
    pub throughput: String,
    pub attn: Option<String>,
    pub flow: Option<String>,
    pub output: Option<String>,
    pub embedding: String,
    pub ode_dynamics: Option<String>,
    pub iq: Option<String>,
}

/// A line for a fragment that is present and not empty.
pub open spec fn line_if_filled(iter: nat, fragment: Option<String>) -> Seq<Seq<char>> {
    match fragment {
        Some(f) => if f@.len() == 0 {
            Seq::empty()
        } else {
            seq![tagged_line(iter, "monitor"@, f@)]
        },
        None => Seq::empty(),
    }
}

/// A line of the given kind for a fragment that is present.
pub open spec fn line_if_present(iter: nat, kind: Seq<char>, fragment: Option<String>) -> Seq<
    Seq<char>,
> {
    match fragment {
        Some(f) => seq![tagged_line(iter, kind, f@)],
        None => Seq::empty(),
    }
}

/// The lines of a health report, in order. The embeddings are frozen, so their
/// line appears only in the first iteration of a run.
pub open spec fn report_lines(r: HealthReport, iter: nat, iters_into_run: nat) -> Seq<Seq<char>> {
    line_if_present(iter, "health"@, r.encoding) + (match r.distortion {
        Some(d) => seq![d@],
        None => Seq::empty(),
    }) + line_if_filled(iter, r.grad_flow) + line_if_filled(iter, Some(r.dyn_param)) + seq![
        tagged_line(iter, "monitor"@, r.throughput@),
    ] + line_if_filled(iter, r.attn) + line_if_filled(iter, r.flow) + line_if_present(
        iter,
        "monitor"@,
        r.output,
    ) + (if iters_into_run == 0 {
        seq![tagged_line(iter, "monitor"@, r.embedding@)]
    } else {
        Seq::empty()
    }) + line_if_filled(iter, r.ode_dynamics) + line_if_present(iter, "monitor"@, r.iq)
}

/// Appends the line of a fragment unless it is empty.
fn push_filled(lines: &mut Vec<String>, iter: usize, fragment: &String)
    ensures
        texts(final(lines)@) == texts(old(lines)@) + line_if_filled(
            iter as nat,
            Some(*fragment),
        ),
{
    if !fragment.as_str().is_empty() {
        lines.push(monitor_line(iter, fragment.as_str()));
    }
    assert(texts(lines@) =~= texts(old(lines)@) + line_if_filled(iter as nat, Some(*fragment)));
}

/// Appends the line of a fragment if there is one and it is not empty.
fn push_filled_option(lines: &mut Vec<String>, iter: usize, fragment: &Option<String>)
    ensures
        texts(final(lines)@) == texts(old(lines)@) + line_if_filled(iter as nat, *fragment),
{
    if let Some(f) = fragment {
        push_filled(lines, iter, f);
    }
    assert(texts(lines@) =~= texts(old(lines)@) + line_if_filled(iter as nat, *fragment));
}

/// Appends the line of a fragment if there is one.
fn push_present(lines: &mut Vec<String>, iter: usize, kind: &str, fragment: &Option<String>)
    ensures
        texts(final(lines)@) == texts(old(lines)@) + line_if_present(
            iter as nat,
            kind@,
            *fragment,
        ),
{
    if let Some(f) = fragment {
        lines.push(tagged(iter, kind, f.as_str()));
    }
    assert(texts(lines@) =~= texts(old(lines)@) + line_if_present(iter as nat, kind@, *fragment));
}

/// The log lines of a health report, in the order in which they are written.
pub fn health_lines(r: &HealthReport, iter: usize, iters_into_run: usize) -> (lines: Vec<String>)
    ensures
        texts(lines@) == report_lines(*r, iter as nat, iters_into_run as nat),
{
    let mut lines: Vec<String> = Vec::new();
    push_present(&mut lines, iter, "health", &r.encoding);
    let ghost l0 = texts(lines@);
    if let Some(d) = &r.distortion {
        lines.push(owned(d.as_str()));
    }
    assert(texts(lines@) =~= l0 + (match r.distortion {
        Some(d) => seq![d@],
        None => Seq::empty(),
    }));
    push_filled_option(&mut lines, iter, &r.grad_flow);
    push_filled(&mut lines, iter, &r.dyn_param);
    let ghost l1 = texts(lines@);
    lines.push(monitor_line(iter, r.throughput.as_str()));
    assert(texts(lines@) =~= l1 + seq![tagged_line(iter as nat, "monitor"@, r.throughput@)]);
    push_filled_option(&mut lines, iter, &r.attn);
    push_filled_option(&mut lines, iter, &r.flow);
    push_present(&mut lines, iter, "monitor", &r.output);
    let ghost l2 = texts(lines@);
    if iters_into_run == 0 {
        lines.push(monitor_line(iter, r.embedding.as_str()));
    }
    assert(texts(lines@) =~= l2 + (if iters_into_run == 0 {
        seq![tagged_line(iter as nat, "monitor"@, r.embedding@)]
    } else {
        Seq::empty()
    }));
    push_filled_option(&mut lines, iter, &r.ode_dynamics);
    push_present(&mut lines, iter, "monitor", &r.iq);
    assert(texts(lines@) =~= report_lines(*r, iter as nat, iters_into_run as nat));
    lines
}

/// What the console says about the sampled encoding.
#[derive(Clone, Copy, Debug, PartialEq, Eq, Structural)]
pub enum EncodingNote {
    /// The encoding drifts.
    Drift,
    /// A regular sample.
    Sample,
    /// Nothing.
    Quiet,
}

/// A drift is always reported; else every fifth health interval is.
pub fn encoding_note(drifting: bool, iters_into_run: usize, interval: usize) -> (note:
    EncodingNote)
    requires
        0 < interval * 5 <= usize::MAX,
    ensures
        note == (if drifting {
            EncodingNote::Drift
        } else if iters_into_run as int % (interval * 5) == 0 {
            EncodingNote::Sample
        } else {
            EncodingNote::Quiet
        }),
{
    if drifting {
        EncodingNote::Drift
    } else if iters_into_run % (interval * 5) == 0 {
        EncodingNote::Sample
    } else {
        EncodingNote::Quiet
    }
}

/// The fragment of the I/Q channel analysis.
pub open spec fn iq_fields(values: Seq<Seq<char>>, i_rank: nat, q_rank: nat) -> Seq<
    (Seq<char>, Seq<char>),
> {
    seq![
        ("i_discrim"@, values[0]),
        ("q_discrim"@, values[1]),
        ("iq_ratio"@, values[2]),
        ("phase_mean"@, values[3]),
        ("phase_std"@, values[4]),
        ("i_correct_rank"@, decimal(i_rank)),
        ("q_correct_rank"@, decimal(q_rank)),
    ]
}

/// The fragment of the I/Q channel analysis out of its five printed figures
/// (discriminations, ratio, phase mean and deviation) and its two ranks.
pub fn iq_fragment(values: &Vec<String>, i_rank: usize, q_rank: usize) -> (out: String)
    requires
        values@.len() == 5,
    ensures
        out@ == member_text(
            "iq"@,
            object_text(iq_fields(texts(values@), i_rank as nat, q_rank as nat)),
        ),
{
    let mut fields: Vec<Field> = Vec::new();
    fields.push(field("i_discrim", owned(values[0].as_str())));
    fields.push(field("q_discrim", owned(values[1].as_str())));
    fields.push(field("iq_ratio", owned(values[2].as_str())));
    fields.push(field("phase_mean", owned(values[3].as_str())));
    fields.push(field("phase_std", owned(values[4].as_str())));
    fields.push(field("i_correct_rank", number(i_rank)));
    fields.push(field("q_correct_rank", number(q_rank)));
    assert(field_texts(fields@) =~= iq_fields(texts(values@), i_rank as nat, q_rank as nat));
    let body: String = object(&fields);
    let mut out: String = String::from_str("\"");
    out.append("iq");
    out.append("\":");
    out.append(body.as_str());
    assert(out@ =~= member_text(
        "iq"@,
        object_text(iq_fields(texts(values@), i_rank as nat, q_rank as nat)),
    ));
    out
}

/// Windows of 2000 losses for the rolling averages of the summary: none for a
/// history of at most one window.
pub open spec fn spec_windows(len: int) -> Seq<(int, int)> {
    if len > 2000 {
        Seq::new(
            ((len + 1999) / 2000) as nat,
            |i: int|
                (
                    i * 2000,
                    if (i + 1) * 2000 <= len {
                        (i + 1) * 2000
                    } else {
                        len
                    },
                ),
        )
    } else {
        Seq::empty()
    }
}

/// Windows for the rolling averages of the summary: first index and the index
/// past the last one.
pub fn rolling_windows(len: usize) -> (windows: Vec<(usize, usize)>)
    ensures
        windows@.len() == spec_windows(len as int).len(),
        forall|i: int|
            0 <= i < windows@.len() ==> (#[trigger] windows@[i]).0 == spec_windows(len as int)[i].0
                && windows@[i].1 == spec_windows(len as int)[i].1,
{
    let mut windows: Vec<(usize, usize)> = Vec::new();
    if len > 2000 {
        let mut start: usize = 0;
        while start < len
            invariant
                len > 2000,
                start <= len,
                start < len ==> start == windows@.len() * 2000,
                windows@.len() <= (len + 1999) / 2000,
                start == len ==> windows@.len() == (len + 1999) / 2000,
                forall|i: int|
                    0 <= i < windows@.len() ==> (#[trigger] windows@[i]).0 == i * 2000
                        && windows@[i].1 == (if (i + 1) * 2000 <= len {
                        (i + 1) * 2000
                    } else {
                        len as int
                    }),
            decreases len - start,
        {
            let end: usize = if len - start >= 2000 {
                start + 2000
            } else {
                len
            };
            windows.push((start, end));
            start = end;
        }
    }
    windows
}

/// The windows tile the history: the first starts at its start, each continues
/// where the one before ended, and the last ends at its end.
pub proof fn law_windows_tile_history(len: int, i: int)
    requires
        len > 2000,
        0 <= i < spec_windows(len).len(),
    ensures
        spec_windows(len)[0].0 == 0,
        spec_windows(len)[i].0 < spec_windows(len)[i].1,
        i + 1 < spec_windows(len).len() ==> spec_windows(len)[i].1 == spec_windows(len)[i + 1].0,
        i + 1 == spec_windows(len).len() ==> spec_windows(len)[i].1 == len,
{
}

/// The losses that make up the final average: the last hundred, or all of a
/// shorter history.
pub fn final_window(len: usize) -> (range: (usize, usize))
    ensures
        range.0 == (if len >= 100 {
            len - 100
        } else {
            0
        }),
        range.1 == len,
{
    if len >= 100 {
        (len - 100, len)
    } else {
        (0, len)
    }
}

/// The printed figures of a finished run.
pub struct RunSummary {
    pub best_loss: String,
    pub best_iter: usize,
    pub final_avg: String,
    pub nan_skips: usize,
    pub total_iters: usize,
    pub time_secs: usize,
    pub ms_per_iter: String,
}

/// The members of the summary line.
pub open spec fn summary_fields(s: RunSummary) -> Seq<(Seq<char>, Seq<char>)> {
    seq![
        ("type"@, "\"summary\""@),
        ("best_loss"@, s.best_loss@),
        ("best_iter"@, decimal(s.best_iter as nat)),
        ("final_avg"@, s.final_avg@),
        ("nan_skips"@, decimal(s.nan_skips as nat)),
        ("total_iters"@, decimal(s.total_iters as nat)),
        ("time_secs"@, decimal(s.time_secs as nat)),
        ("ms_per_iter"@, s.ms_per_iter@),
    ]
}

/// The summary line of a finished run.
pub fn summary_line(s: &RunSummary) -> (out: String)
    ensures
        out@ == object_text(summary_fields(*s)),
{
    let mut fields: Vec<Field> = Vec::new();
    fields.push(field("type", owned("\"summary\"")));
    fields.push(field("best_loss", owned(s.best_loss.as_str())));
    fields.push(field("best_iter", number(s.best_iter)));
    fields.push(field("final_avg", owned(s.final_avg.as_str())));
    fields.push(field("nan_skips", number(s.nan_skips)));
    fields.push(field("total_iters", number(s.total_iters)));
    fields.push(field("time_secs", number(s.time_secs)));
    fields.push(field("ms_per_iter", owned(s.ms_per_iter.as_str())));
    assert(field_texts(fields@) =~= summary_fields(*s));
    object(&fields)
}

} // verus!
