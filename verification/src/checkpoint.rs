//! Reading the parameters out of a checkpoint that is to be scaled.
//!
//! A checkpoint holds the magic, a version, seven dimensions, the vocabulary size,
//! the iteration, the learning rate, the generator's state, the optimizer's step
//! count, its two moments, and the parameters. Parameters are kept here by their
//! bits, four bytes each.

use vstd::prelude::*;
use crate::bytes::{le4, le8, read_u32, read_u64};
use crate::scale::SourceDims;

verus! {

/// Bytes before the optimizer's moments.
pub const CHECKPOINT_HEADER: usize = 72;

/// What is read of a source checkpoint.
pub struct SourceInfo {
    pub dims: SourceDims,
    pub n_head: usize,
    pub block_size: usize,
    pub rk4_steps: usize,
    /// The bits of each parameter.
    pub params: Vec<u32>,
}

/// Why a source checkpoint cannot be read.
#[derive(Clone, Copy, Debug, PartialEq, Eq, Structural)]
pub enum SourceError {
    /// The file ends before the magic does.
    NoMagic,
    /// The file does not start with the magic.
    NotCheckpoint,
    /// The version is another than the second.
    OtherVersion,
    /// The file ends before the optimizer's moments do.
    NoOptimizer,
    /// The file ends before the parameters do.
    NoParams,
}

/// The first four bytes of a checkpoint.
pub open spec fn checkpoint_magic() -> Seq<u8> {
    seq![87u8, 67u8, 72u8, 75u8]
}

/// The dimensions in a header.
pub open spec fn header_dims(b: Seq<u8>) -> SourceDims {
    SourceDims {
        n_bands: le4(b, 8) as usize,
        n_layers: le4(b, 16) as usize,
        maestro_dim: le4(b, 20) as usize,
        out_proj_groups: le4(b, 32) as usize,
        vocab_size: le8(b, 36) as usize,
    }
}

/// The bytes start as a checkpoint of the second version, the one that can be read.
pub open spec fn readable(b: Seq<u8>) -> bool {
    &&& b.len() >= 8
    &&& b.subrange(0, 4) == checkpoint_magic()
    &&& le4(b, 4) == 2
}

/// A file that starts as a checkpoint has the whole header, with at least one
/// group in the output projection.
pub open spec fn header_whole(b: Seq<u8>) -> bool {
    b.len() >= 4 && b.subrange(0, 4) == checkpoint_magic() ==> {
        &&& b.len() >= 8
        &&& le4(b, 4) == 2 ==> b.len() >= 72 && le4(b, 32) > 0
    }
}

/// The bits of `n` parameters from `at` on.
pub open spec fn param_bits(b: Seq<u8>, at: int, n: int) -> Seq<u32> {
    Seq::new(n as nat, |i: int| le4(b, at + 4 * i) as u32)
}

/// Number of parameters of a source, counted without overflow.
fn count_params(d: &SourceDims) -> (n: u128)
    requires
        d.out_proj_groups > 0,
        d.n_bands < 4294967296,
        d.n_layers < 4294967296,
        d.maestro_dim < 4294967296,
        d.out_proj_groups < 4294967296,
        d.vocab_size <= 18446744073709551615,
    ensures
        n == d.n_params(),
{
    let e: u128 = d.n_bands as u128 * 2;
    let md: u128 = d.maestro_dim as u128;
    let groups: u128 = d.out_proj_groups as u128;
    let layers: u128 = d.n_layers as u128;
    let vocab: u128 = d.vocab_size as u128;
    let gs: u128 = e / groups;
    assert(gs <= e && groups * gs <= e) by (nonlinear_arith)
        requires
            groups >= 1,
            gs == e / groups,
    ;
    let ghost w: int = 8589934592;
    assert(0 <= gs * gs <= w * w) by (nonlinear_arith)
        requires
            0 <= gs <= w,
    ;
    let square: u128 = gs * gs + gs;
    assert(0 <= groups * square <= w * (w + 1)) by (nonlinear_arith)
        requires
            0 <= groups,
            0 <= gs <= w,
            groups * gs <= e <= w,
            square == gs * gs + gs,
    ;
    let proj: u128 = groups * square;
    assert(0 <= md * e <= w * w && md * e == e * md) by (nonlinear_arith)
        requires
            0 <= md <= w,
            0 <= e <= w,
    ;
    let maestro: u128 = md * e + md + e * md + e;
    let block: u128 = 4 * e + maestro + maestro + proj;
    assert(0 <= layers * block <= w * (4 * w + 4 * (w * w + w) + w * (w + 1)))
        by (nonlinear_arith)
        requires
            0 <= layers <= w,
            0 <= block <= 4 * w + 4 * (w * w + w) + w * (w + 1),
    ;
    assert(0 <= vocab * e <= 18446744073709551616 * w) by (nonlinear_arith)
        requires
            0 <= vocab <= 18446744073709551616,
            0 <= e <= w,
    ;
    layers * block + e * 2 + vocab * e
}

/// Reads the dimensions and the parameters of a source checkpoint.
pub fn read_source(b: &[u8]) -> (result: Result<SourceInfo, SourceError>)
    requires
        header_whole(b@),
    ensures
        match result {
            Ok(info) => {
                &&& readable(b@)
                &&& info.dims == header_dims(b@)
                &&& info.n_head == le4(b@, 12)
                &&& info.block_size == le4(b@, 24)
                &&& info.rk4_steps == le4(b@, 28)
                &&& 72 + 12 * info.dims.n_params() <= b@.len()
                &&& info.params@ == param_bits(
                    b@,
                    72 + 8 * info.dims.n_params(),
                    info.dims.n_params(),
                )
            },
            Err(SourceError::NoMagic) => b@.len() < 4,
            Err(SourceError::NotCheckpoint) => b@.len() >= 4 && b@.subrange(0, 4)
                != checkpoint_magic(),
            Err(SourceError::OtherVersion) => b@.len() >= 4 && b@.subrange(0, 4)
                == checkpoint_magic() && le4(b@, 4) != 2,
            Err(SourceError::NoOptimizer) => readable(b@) && 72 + 8 * header_dims(b@).n_params()
                > b@.len(),
            Err(SourceError::NoParams) => readable(b@) && 72 + 8 * header_dims(b@).n_params()
                <= b@.len() < 72 + 12 * header_dims(b@).n_params(),
        },
{
    let total: usize = b.len();
    if total < 4 {
        return Err(SourceError::NoMagic);
    }
    proof {
        let m = b@.subrange(0, 4);
        assert(m[0] == b@[0] && m[1] == b@[1] && m[2] == b@[2] && m[3] == b@[3]);
    }
    if b[0] != 87 || b[1] != 67 || b[2] != 72 || b[3] != 75 {
        return Err(SourceError::NotCheckpoint);
    }
    assert(b@.subrange(0, 4) =~= checkpoint_magic());
    if read_u32(b, 4) != 2 {
        return Err(SourceError::OtherVersion);
    }
    let dims: SourceDims = SourceDims {
        n_bands: read_u32(b, 8) as usize,
        n_layers: read_u32(b, 16) as usize,
        maestro_dim: read_u32(b, 20) as usize,
        out_proj_groups: read_u32(b, 32) as usize,
        vocab_size: read_u64(b, 36) as usize,
    };
    let n_head: usize = read_u32(b, 12) as usize;
    let block_size: usize = read_u32(b, 24) as usize;
    let rk4_steps: usize = read_u32(b, 28) as usize;
    let wide: u128 = count_params(&dims);
    let room: usize = total - CHECKPOINT_HEADER;
    if wide > (room / 8) as u128 {
        return Err(SourceError::NoOptimizer);
    }
    let n: usize = wide as usize;
    if n > room / 12 {
        return Err(SourceError::NoParams);
    }
    let start: usize = CHECKPOINT_HEADER + 8 * n;
    let mut params: Vec<u32> = Vec::new();
    let mut i: usize = 0;
    while i < n
        invariant
            total == b@.len(),
            start == 72 + 8 * n,
            start + 4 * n <= total,
            i <= n,
            params@ == param_bits(b@, start as int, i as int),
        decreases n - i,
    {
        params.push(read_u32(b, start + 4 * i));
        i += 1;
        assert(params@ =~= param_bits(b@, start as int, i as int));
    }
    Ok(SourceInfo { dims, n_head, block_size, rk4_steps, params })
}

} // verus!
