//! In exact arithmetic: states that are read off the oscillators, and the memory that takes them.

use vstd::prelude::*;
use crate::arith::Arith;
#[allow(unused_imports)]
use crate::arith::{Expr, fits_all, one, over, times};
#[allow(unused_imports)]
use crate::averages::{is_mean, lemma_by_one, lemma_mean_between, lemma_quotient_undone};
#[allow(unused_imports)]
use crate::exact::{Curves, Dual, inverse, prod, value};
#[allow(unused_imports)]
use crate::forward::integrates;
#[allow(unused_imports)]
use crate::kerr::{Offsets, Waves};
#[allow(unused_imports)]
use crate::linear_exact::{lemma_summed_same, summed};
#[allow(unused_imports)]
use crate::model::{ModelWeights, ffn_kind};
#[allow(unused_imports)]
use crate::model_forward::{
    band_parts, ends_of, hidden_of, mean_state, mean_wave, memory_of, state_fits, states_of,
};
#[allow(unused_imports)]
use crate::values::{exact, group_value, lemma_fits_all, lemma_total};
#[allow(unused_imports)]
use crate::wave_memory::{WaveMemory, layer_merged, merged_of, scaled_of, taken};

verus! {

#[verifier::spinoff_prover]
proof fn lemma_mean_wave(cu: Curves, parts: Seq<Expr<Dual>>)
    requires
        0 < parts.len() <= usize::MAX,
    ensures
        is_mean(
            value(cu, mean_wave(parts)),
            |p: int| value(cu, parts[p]),
            parts.len() as int,
        ),
{
    broadcast use group_value;

    let n = parts.len() as real;
    lemma_total(cu, parts);
    lemma_by_one(inverse(n));
    lemma_quotient_undone(summed(|k: int| value(cu, parts[k]), parts.len() as int), n);
    lemma_summed_same(
        |k: int| value(cu, parts[k]),
        |p: int| value(cu, parts[p]),
        parts.len() as int,
    );
}

/// Every component of a mean state is the mean of that component over the positions.
#[verifier::spinoff_prover]
pub proof fn law_mean_state_averages(cu: Curves, ends: Seq<Waves<Dual>>, n: int, k: int)
    requires
        0 < ends.len() <= usize::MAX,
        0 <= k < n,
    ensures
        is_mean(
            value(cu, mean_state(ends, n).r[k]),
            |p: int| value(cu, ends[p].r[k]),
            ends.len() as int,
        ),
        is_mean(
            value(cu, mean_state(ends, n).s[k]),
            |p: int| value(cu, ends[p].s[k]),
            ends.len() as int,
        ),
{
    let first = band_parts(ends, k, true);
    let second = band_parts(ends, k, false);
    lemma_mean_wave(cu, first);
    lemma_mean_wave(cu, second);
    lemma_summed_same(
        |p: int| value(cu, first[p]),
        |p: int| value(cu, ends[p].r[k]),
        ends.len() as int,
    );
    lemma_summed_same(
        |p: int| value(cu, second[p]),
        |p: int| value(cu, ends[p].s[k]),
        ends.len() as int,
    );
}

/// Every component of a mean state lies between bounds of that component over the positions. So
/// where all positions end in one state, the mean state is that state.
#[verifier::spinoff_prover]
pub proof fn law_mean_state_between(
    cu: Curves,
    ends: Seq<Waves<Dual>>,
    n: int,
    k: int,
    r_least: real,
    r_most: real,
    s_least: real,
    s_most: real,
)
    requires
        0 < ends.len() <= usize::MAX,
        0 <= k < n,
        forall|p: int|
            0 <= p < ends.len() ==> r_least <= value(cu, (#[trigger] ends[p]).r[k]) <= r_most,
        forall|p: int|
            0 <= p < ends.len() ==> s_least <= value(cu, (#[trigger] ends[p]).s[k]) <= s_most,
    ensures
        r_least <= value(cu, mean_state(ends, n).r[k]) <= r_most,
        s_least <= value(cu, mean_state(ends, n).s[k]) <= s_most,
{
    law_mean_state_averages(cu, ends, n, k);
    let r = |p: int| value(cu, ends[p].r[k]);
    let s = |p: int| value(cu, ends[p].s[k]);
    assert forall|p: int| 0 <= p < ends.len() implies r_least <= #[trigger] r(p) <= r_most by {
        assert(r_least <= value(cu, ends[p].r[k]) <= r_most);
    }
    assert forall|p: int| 0 <= p < ends.len() implies s_least <= #[trigger] s(p) <= s_most by {
        assert(s_least <= value(cu, ends[p].s[k]) <= s_most);
    }
    lemma_mean_between(
        value(cu, mean_state(ends, n).r[k]),
        r,
        ends.len() as int,
        r_least,
        r_most,
    );
    lemma_mean_between(
        value(cu, mean_state(ends, n).s[k]),
        s,
        ends.len() as int,
        s_least,
        s_most,
    );
}

#[verifier::spinoff_prover]
proof fn lemma_state_kept(
    m: ModelWeights<Dual>,
    tokens: Seq<usize>,
    offsets: Option<&Vec<Offsets<Dual>>>,
    l: int,
    upto: int,
)
    requires
        0 <= l <= upto,
    ensures
        states_of(m, tokens, offsets, l).is_prefix_of(states_of(m, tokens, offsets, upto)),
    decreases upto,
{
    if l < upto {
        lemma_state_kept(m, tokens, offsets, l, upto - 1);
    }
}

/// What is read off block `l` of a model after a pass, where it integrates: component by component
/// the mean over the positions of the states in which its oscillators end.
#[verifier::spinoff_prover]
pub proof fn law_extracted_states_average<A: Arith<Dual>>(
    cu: Curves,
    ops: A,
    m: ModelWeights<Dual>,
    tokens: Seq<usize>,
    offsets: Option<&Vec<Offsets<Dual>>>,
    states: Seq<Offsets<Dual>>,
    l: int,
    k: int,
)
    requires
        exact(cu, ops),
        0 <= l < m.blocks@.len(),
        integrates(ffn_kind(m.blocks@[l].ffn)),
        0 <= k < m.config.n_bands,
        0 < hidden_of(m, tokens, offsets, l).len() <= usize::MAX,
        states.len() == states_of(m, tokens, offsets, m.blocks@.len() as int).len(),
        forall|i: int|
            0 <= i < states.len() ==> state_fits(
                ops,
                states_of(m, tokens, offsets, m.blocks@.len() as int)[i],
                #[trigger] states[i],
            ),
    ensures
        ({
            let at = states_of(m, tokens, offsets, l).len() as int;
            let ends = ends_of(
                m.blocks@[l],
                hidden_of(m, tokens, offsets, l),
                2 * m.config.n_bands,
                memory_of(m, offsets, l),
            );
            &&& at < states.len()
            &&& is_mean(
                states[at].r@[k].v,
                |p: int| value(cu, ends[p].r[k]),
                ends.len() as int,
            )
            &&& is_mean(
                states[at].s@[k].v,
                |p: int| value(cu, ends[p].s[k]),
                ends.len() as int,
            )
        }),
{
    let all = states_of(m, tokens, offsets, m.blocks@.len() as int);
    let at = states_of(m, tokens, offsets, l).len() as int;
    let ends = ends_of(
        m.blocks@[l],
        hidden_of(m, tokens, offsets, l),
        2 * m.config.n_bands,
        memory_of(m, offsets, l),
    );
    let n = m.config.n_bands as int;
    lemma_state_kept(m, tokens, offsets, l + 1, m.blocks@.len() as int);
    let upto = states_of(m, tokens, offsets, l + 1);
    assert(upto[at] == mean_state(ends, n));
    assert(upto =~= all.subrange(0, upto.len() as int));
    assert(all[at] == mean_state(ends, n));
    assert(state_fits(ops, all[at], states[at]));
    lemma_fits_all(cu, ops, all[at].r, states[at].r@);
    lemma_fits_all(cu, ops, all[at].s, states[at].s@);
    law_mean_state_averages(cu, ends, n, k);
}

#[verifier::spinoff_prover]
proof fn lemma_share(b: real, p: real, s: real)
    ensures
        prod(b, p) + prod(1real - b, s) - p == prod(1real - b, s - p),
{
    reveal(prod);
    assert(b * p + (1real - b) * s - p == (1real - b) * (s - p)) by (nonlinear_arith);
}

/// A memory moves from what it held towards what was read, by the share that it does not keep;
/// bands and layers without a reading stay.
#[verifier::spinoff_prover]
pub proof fn law_memory_moves_towards_readings<A: Arith<Dual>>(
    cu: Curves,
    ops: A,
    m: WaveMemory<Dual>,
    seen: Seq<Offsets<Dual>>,
    l: int,
    out: Offsets<Dual>,
    k: int,
)
    requires
        exact(cu, ops),
        0 <= k < m.layers@[l].r@.len(),
        m.layers@[l].s@.len() == m.layers@[l].r@.len(),
        0 <= l,
        layer_merged(ops, m, seen, l, out),
    ensures
        l < seen.len() && k < m.n_bands && k < seen[l].r@.len() ==> {
            let fresh = 1real - m.config.beta.v;
            let past = m.layers@[l];
            &&& out.r@[k].v - past.r@[k].v == prod(fresh, seen[l].r@[k].v - past.r@[k].v)
            &&& out.s@[k].v - past.s@[k].v == prod(fresh, seen[l].s@[k].v - past.s@[k].v)
        },
        l >= seen.len() || k >= m.n_bands || k >= seen[l].r@.len() ==> {
            &&& out.r@[k].v == m.layers@[l].r@[k].v
            &&& out.s@[k].v == m.layers@[l].s@[k].v
        },
{
    broadcast use group_value;

    if l < seen.len() {
        let upto = taken(m.n_bands, seen[l].r@.len() as int);
        let past = m.layers@[l];
        let b = m.config.beta;
        let r = merged_of(b, past.r@, seen[l].r@, upto);
        let s = merged_of(b, past.s@, seen[l].s@, upto);
        lemma_fits_all(cu, ops, r, out.r@);
        lemma_fits_all(cu, ops, s, out.s@);
        assert(out.r@[k].v == value(cu, r[k]));
        assert(out.s@[k].v == value(cu, s[k]));
        lemma_share(b.v, past.r@[k].v, seen[l].r@[k].v);
        lemma_share(b.v, past.s@[k].v, seen[l].s@[k].v);
    }
}

/// What a memory adds to a state is what it holds, times how strongly it is felt.
#[verifier::spinoff_prover]
pub proof fn law_offsets_scale_memory<A: Arith<Dual>>(
    cu: Curves,
    ops: A,
    alpha: Dual,
    held: Seq<Dual>,
    out: Seq<Dual>,
    k: int,
)
    requires
        exact(cu, ops),
        fits_all(ops, scaled_of(alpha, held), out),
        0 <= k < held.len(),
    ensures
        out[k].v == prod(alpha.v, held[k].v),
{
    broadcast use group_value;

    lemma_fits_all(cu, ops, scaled_of(alpha, held), out);
    assert(out[k].v == value(cu, scaled_of(alpha, held)[k]));
}

} // verus!
