//! Parameters of the wave transduction decoder.
//!
//! The decoder scores tokens by phase coherence against reference phases. With
//! frozen references only the band weights and the temperature are trained; with
//! unfrozen references every reference phase is a parameter too.

use vstd::prelude::*;
use crate::seqs::{extend_from, extend_rows, take, take_rows};
use crate::seqs::{lemma_rows_flat_injective, lemma_rows_flat_len, rows_flat, rows_width};

verus! {

/// State of the decoder. `ref_phases` is present if the references are trained.
pub struct WaveDecodeState<T> {
    pub band_weights: Vec<T>,
    pub temperature: T,
    pub token_cos: Vec<Vec<T>>,
    pub token_sin: Vec<Vec<T>>,
    pub ref_phases: Option<Vec<Vec<T>>>,
    pub n_bands: usize,
    pub vocab_size: usize,
}

/// Gradients of the decoder's parameters.
pub struct WaveDecodeGrads<T> {
    pub d_band_weights: Vec<T>,
    pub d_temperature: T,
    pub d_ref_phases: Option<Vec<Vec<T>>>,
}

/// Band weights, temperature, then the reference phases row by row if present.
pub open spec fn decoder_flat<T>(
    band_weights: Seq<T>,
    temperature: T,
    ref_phases: Option<Vec<Vec<T>>>,
) -> Seq<T> {
    band_weights + seq![temperature] + (match ref_phases {
        Some(rows) => rows_flat(rows@),
        None => Seq::empty(),
    })
}

impl<T> WaveDecodeState<T> {
    /// One weight per band and, where references are trained, one reference phase per token and
    /// band and one row of the tables per token.
    pub open spec fn wf(&self) -> bool {
        &&& self.band_weights@.len() == self.n_bands
        &&& match self.ref_phases {
            Some(rows) => {
                &&& rows@.len() > 0
                &&& rows@.len() == self.vocab_size
                &&& rows_width(rows@, self.n_bands as int)
                &&& self.token_cos@.len() == self.vocab_size
                &&& self.token_sin@.len() == self.vocab_size
            },
            None => true,
        }
    }

    /// The trained parameters in flat order.
    pub open spec fn flat(&self) -> Seq<T> {
        decoder_flat(self.band_weights@, self.temperature, self.ref_phases)
    }

    /// Number of trained parameters.
    pub open spec fn spec_param_count(&self) -> int {
        self.n_bands + 1 + (match self.ref_phases {
            Some(_) => self.vocab_size * self.n_bands,
            None => 0,
        })
    }

    /// The parameter count is the length of the flat layout.
    pub proof fn lemma_flat_len(&self)
        requires
            self.wf(),
        ensures
            self.flat().len() == self.spec_param_count(),
    {
        match self.ref_phases {
            Some(rows) => {
                lemma_rows_flat_len(rows@, self.n_bands as int);
            },
            None => {},
        }
    }

    /// Everything but the values of the parameters agrees. The tables belong to the
    /// parameters where the references are trained.
    pub open spec fn same_frame(&self, other: &Self) -> bool {
        &&& self.n_bands == other.n_bands
        &&& self.vocab_size == other.vocab_size
        &&& self.ref_phases is Some <==> other.ref_phases is Some
        &&& self.ref_phases is None ==> self.token_cos == other.token_cos && self.token_sin
            == other.token_sin
    }

    /// The parameters agree.
    pub open spec fn same_params(&self, other: &Self) -> bool {
        &&& self.band_weights@ == other.band_weights@
        &&& self.temperature == other.temperature
        &&& match (self.ref_phases, other.ref_phases) {
            (Some(a), Some(b)) => {
                &&& a@.len() == b@.len()
                &&& forall|v: int| 0 <= v < a@.len() ==> (#[trigger] a@[v])@ == b@[v]@
            },
            (None, None) => true,
            _ => false,
        }
    }

    /// Decoders of one shape that flatten alike hold the same parameters.
    pub proof fn lemma_flat_injective(&self, other: &Self)
        requires
            self.wf(),
            other.wf(),
            self.same_frame(other),
            self.flat() == other.flat(),
        ensures
            self.same_params(other),
    {
        let n = self.n_bands as int;
        self.lemma_flat_len();
        assert(self.flat().subrange(0, n) =~= self.band_weights@);
        assert(other.flat().subrange(0, n) =~= other.band_weights@);
        assert(self.flat()[n] == self.temperature);
        assert(other.flat()[n] == other.temperature);
        match (self.ref_phases, other.ref_phases) {
            (Some(a), Some(b)) => {
                let len = self.flat().len() as int;
                lemma_rows_flat_len(a@, n);
                lemma_rows_flat_len(b@, n);
                assert(self.flat().subrange(n + 1, len) =~= rows_flat(a@));
                assert(other.flat().subrange(n + 1, len) =~= rows_flat(b@));
                lemma_rows_flat_injective(a@, b@, n);
            },
            _ => {},
        }
    }
}

impl<T> WaveDecodeGrads<T> {
    /// The gradients in the order of the parameters.
    pub open spec fn flat(&self) -> Seq<T> {
        decoder_flat(self.d_band_weights@, self.d_temperature, self.d_ref_phases)
    }

    /// There is one gradient per parameter of `state`.
    pub open spec fn matches(&self, state: &WaveDecodeState<T>) -> bool {
        &&& self.d_band_weights@.len() == state.n_bands
        &&& match (self.d_ref_phases, state.ref_phases) {
            (Some(rows), Some(_)) => {
                &&& rows@.len() == state.vocab_size
                &&& rows_width(rows@, state.n_bands as int)
            },
            (None, None) => true,
            _ => false,
        }
    }
}

/// Number of trained parameters.
pub fn param_count<T>(state: &WaveDecodeState<T>) -> (n: usize)
    requires
        state.wf(),
        state.spec_param_count() <= usize::MAX,
    ensures
        n == state.spec_param_count(),
        n == state.flat().len(),
{
    proof {
        state.lemma_flat_len();
    }
    let base: usize = state.band_weights.len();
    match &state.ref_phases {
        Some(rows) => {
            let n_rows: usize = rows.len();
            let width: usize = rows[0].len();
            assert(0 <= n_rows * width) by (nonlinear_arith);
            base + 1 + n_rows * width
        },
        None => base + 1,
    }
}

/// Writes the parameters out in flat order.
fn flatten_decoder<T: Copy>(
    band_weights: &Vec<T>,
    temperature: T,
    ref_phases: &Option<Vec<Vec<T>>>,
) -> (out: Vec<T>)
    ensures
        out@ == decoder_flat(band_weights@, temperature, *ref_phases),
{
    let mut out: Vec<T> = Vec::new();
    extend_from(&mut out, band_weights);
    out.push(temperature);
    match ref_phases {
        Some(rows) => extend_rows(&mut out, rows),
        None => {},
    }
    assert(out@ =~= decoder_flat(band_weights@, temperature, *ref_phases));
    out
}

/// The trained parameters in flat order.
pub fn flatten_params<T: Copy>(state: &WaveDecodeState<T>) -> (out: Vec<T>)
    ensures
        out@ == state.flat(),
{
    flatten_decoder(&state.band_weights, state.temperature, &state.ref_phases)
}

/// Overwrites the trained parameters with `params`. The cached cosines and sines
/// are left for the caller to refresh.
pub fn unflatten_params<T: Copy>(state: &mut WaveDecodeState<T>, params: &[T])
    requires
        old(state).wf(),
        params@.len() == old(state).spec_param_count(),
    ensures
        final(state).wf(),
        final(state).same_frame(old(state)),
        final(state).token_cos == old(state).token_cos,
        final(state).token_sin == old(state).token_sin,
        final(state).flat() == params@,
{
    let nb: usize = state.n_bands;
    let total: usize = params.len();
    assert(0 <= state.vocab_size * nb) by (nonlinear_arith);
    let band_weights: Vec<T> = take(params, 0, nb);
    let temperature: T = params[nb];
    let mut fresh: Option<Vec<Vec<T>>> = None;
    if state.ref_phases.is_some() {
        fresh = Some(take_rows(params, nb + 1, state.vocab_size, nb));
    }
    state.band_weights = band_weights;
    state.temperature = temperature;
    state.ref_phases = fresh;
    assert(state.flat() =~= params@);
}

/// The gradients in the order of the parameters.
pub fn flatten_grads<T: Copy>(grads: &WaveDecodeGrads<T>) -> (out: Vec<T>)
    ensures
        out@ == grads.flat(),
{
    flatten_decoder(&grads.d_band_weights, grads.d_temperature, &grads.d_ref_phases)
}

/// Gradients that match a decoder flatten to as many entries as its parameters.
pub proof fn law_grads_align_with_params<T>(
    state: WaveDecodeState<T>,
    grads: WaveDecodeGrads<T>,
)
    requires
        state.wf(),
        grads.matches(&state),
    ensures
        grads.flat().len() == state.flat().len(),
{
    state.lemma_flat_len();
    match grads.d_ref_phases {
        Some(rows) => {
            lemma_rows_flat_len(rows@, state.n_bands as int);
        },
        None => {},
    }
}

/// Writing a decoder's own flat parameters back changes none of them.
pub proof fn law_unflatten_undoes_flatten<T>(
    before: WaveDecodeState<T>,
    after: WaveDecodeState<T>,
)
    requires
        before.wf(),
        after.wf(),
        after.same_frame(&before),
        after.flat() == before.flat(),
    ensures
        after.same_params(&before),
{
    after.lemma_flat_injective(&before);
}

} // verus!
