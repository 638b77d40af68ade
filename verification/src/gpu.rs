//! Compute kernels of the device: their sources, bindings, uniforms and buffers.
//!
//! Device objects are made elsewhere; what they are made of is decided here.

use vstd::prelude::*;
use vstd::string::*;
use crate::bytes::le4;
use crate::text::{append_decimal, decimal};

verus! {

/// Storage buffers per shader stage that a device is asked for.
pub const MAX_STORAGE_BUFFERS: usize = 12;

/// How a kernel uses a binding.
#[derive(Clone, Copy, Debug, PartialEq, Eq, Structural)]
pub enum Access {
    Read,
    Write,
    Uniform,
}

/// The compute kernels.
#[derive(Clone, Copy, Debug, PartialEq, Eq, Structural)]
pub enum Kernel {
    Matvec,
    LayerNorm,
    KerrDeriv,
    MatvecBwd,
    LayerNormBwd,
    GeluBwd,
    AttnBwdScores,
    AttnBwdDkv,
    OuterProduct,
    MatvecBwdBatch,
    MatvecBatch,
    LayerNormBatch,
    KerrDerivBatch,
    KerrBwdBatch,
    VecScaleAdd,
    Rk4Combine,
    Deinterleave,
    Reinterleave,
    Gelu,
    VecAdd,
    FftConvolve,
    /// Matrix times vector, one thread per row.
    RowMatvec,
    /// A whole integration step in one dispatch.
    KerrRk4,
}

/// Reading bindings, then writing ones, then the uniform.
pub open spec fn plain_layout(reads: int, writes: int) -> Seq<Access> {
    Seq::new(
        (reads + writes + 1) as nat,
        |i: int|
            if i < reads {
                Access::Read
            } else if i < reads + writes {
                Access::Write
            } else {
                Access::Uniform
            },
    )
}

/// State in, slopes out, parameters, and the coupling after the uniform.
pub open spec fn slope_layout() -> Seq<Access> {
    seq![
        Access::Read,
        Access::Read,
        Access::Write,
        Access::Write,
        Access::Read,
        Access::Read,
        Access::Uniform,
        Access::Read,
    ]
}

/// State in place, parameters, uniform.
pub open spec fn step_layout() -> Seq<Access> {
    seq![Access::Write, Access::Write, Access::Read, Access::Read, Access::Uniform]
}

impl Kernel {
    /// The name that labels derive from.
    pub open spec fn name_of(self) -> Seq<char> {
        match self {
            Kernel::Matvec => "matvec"@,
            Kernel::LayerNorm => "layer_norm"@,
            Kernel::KerrDeriv => "kerr_deriv"@,
            Kernel::MatvecBwd => "matvec_bwd"@,
            Kernel::LayerNormBwd => "layer_norm_bwd"@,
            Kernel::GeluBwd => "gelu_bwd"@,
            Kernel::AttnBwdScores => "attn_bwd_scores"@,
            Kernel::AttnBwdDkv => "attn_bwd_dkv"@,
            Kernel::OuterProduct => "outer_product"@,
            Kernel::MatvecBwdBatch => "matvec_bwd_batch"@,
            Kernel::MatvecBatch => "matvec_batch"@,
            Kernel::LayerNormBatch => "layer_norm_batch"@,
            Kernel::KerrDerivBatch => "kerr_deriv_batch"@,
            Kernel::KerrBwdBatch => "kerr_bwd_batch"@,
            Kernel::VecScaleAdd => "vec_scale_add"@,
            Kernel::Rk4Combine => "rk4_combine"@,
            Kernel::Deinterleave => "deinterleave"@,
            Kernel::Reinterleave => "reinterleave"@,
            Kernel::Gelu => "gelu"@,
            Kernel::VecAdd => "vec_add"@,
            Kernel::FftConvolve => "fft_convolve"@,
            Kernel::RowMatvec => "matvec"@,
            Kernel::KerrRk4 => "kerr_rk4"@,
        }
    }

    /// The label of the shader module.
    pub open spec fn module_of(self) -> Seq<char> {
        match self {
            Kernel::Matvec => "matvec"@,
            Kernel::LayerNorm => "layer_norm"@,
            Kernel::KerrDeriv => "kerr_derivative"@,
            Kernel::MatvecBwd => "matvec_backward"@,
            Kernel::LayerNormBwd => "layer_norm_backward"@,
            Kernel::GeluBwd => "gelu_backward"@,
            Kernel::AttnBwdScores => "attn_backward_scores"@,
            Kernel::AttnBwdDkv => "attn_backward_dkv"@,
            Kernel::OuterProduct => "outer_product"@,
            Kernel::MatvecBwdBatch => "matvec_backward_batch"@,
            Kernel::MatvecBatch => "matvec_batch"@,
            Kernel::LayerNormBatch => "layer_norm_batch"@,
            Kernel::KerrDerivBatch => "kerr_derivative_batch"@,
            Kernel::KerrBwdBatch => "kerr_backward_batch"@,
            Kernel::VecScaleAdd => "vec_scale_add"@,
            Kernel::Rk4Combine => "rk4_combine"@,
            Kernel::Deinterleave => "deinterleave"@,
            Kernel::Reinterleave => "reinterleave"@,
            Kernel::Gelu => "gelu"@,
            Kernel::VecAdd => "vec_add"@,
            Kernel::FftConvolve => "fft_512"@,
            Kernel::RowMatvec => "matvec"@,
            Kernel::KerrRk4 => "kerr_rk4"@,
        }
    }

    /// The file of the shader.
    pub open spec fn shader_of(self) -> Seq<char> {
        match self {
            Kernel::Matvec => "matvec_tiled.wgsl"@,
            Kernel::LayerNorm => "layer_norm.wgsl"@,
            Kernel::KerrDeriv => "kerr_step.wgsl"@,
            Kernel::MatvecBwd => "matvec_backward_tiled.wgsl"@,
            Kernel::LayerNormBwd => "layer_norm_backward.wgsl"@,
            Kernel::GeluBwd => "gelu_backward.wgsl"@,
            Kernel::AttnBwdScores => "attn_backward_scores.wgsl"@,
            Kernel::AttnBwdDkv => "attn_backward_dkv.wgsl"@,
            Kernel::OuterProduct => "outer_product.wgsl"@,
            Kernel::MatvecBwdBatch => "matvec_backward_batch_tiled_kahan.wgsl"@,
            Kernel::MatvecBatch => "matvec_batch_tiled_kahan.wgsl"@,
            Kernel::LayerNormBatch => "layer_norm_batch.wgsl"@,
            Kernel::KerrDerivBatch => "kerr_step_batch.wgsl"@,
            Kernel::KerrBwdBatch => "kerr_backward_batch.wgsl"@,
            Kernel::VecScaleAdd => "vec_scale_add.wgsl"@,
            Kernel::Rk4Combine => "rk4_combine.wgsl"@,
            Kernel::Deinterleave => "deinterleave.wgsl"@,
            Kernel::Reinterleave => "reinterleave.wgsl"@,
            Kernel::Gelu => "gelu.wgsl"@,
            Kernel::VecAdd => "vec_add.wgsl"@,
            Kernel::FftConvolve => "fft_512.wgsl"@,
            Kernel::RowMatvec => "matvec.wgsl"@,
            Kernel::KerrRk4 => "kerr_rk4_step.wgsl"@,
        }
    }

    /// The entry point of the shader.
    pub open spec fn entry_of(self) -> Seq<char> {
        match self {
            Kernel::Matvec => "matvec"@,
            Kernel::LayerNorm => "layer_norm"@,
            Kernel::KerrDeriv => "kerr_derivative"@,
            Kernel::MatvecBwd => "matvec_backward"@,
            Kernel::LayerNormBwd => "layer_norm_backward"@,
            Kernel::GeluBwd => "gelu_backward"@,
            Kernel::AttnBwdScores => "attn_backward_scores"@,
            Kernel::AttnBwdDkv => "attn_backward_dkv"@,
            Kernel::OuterProduct => "outer_product"@,
            Kernel::MatvecBwdBatch => "matvec_backward_batch"@,
            Kernel::MatvecBatch => "matvec_batch"@,
            Kernel::LayerNormBatch => "layer_norm_batch"@,
            Kernel::KerrDerivBatch => "kerr_derivative_batch"@,
            Kernel::KerrBwdBatch => "kerr_backward_batch"@,
            Kernel::VecScaleAdd => "vec_scale_add"@,
            Kernel::Rk4Combine => "rk4_combine"@,
            Kernel::Deinterleave => "deinterleave"@,
            Kernel::Reinterleave => "reinterleave"@,
            Kernel::Gelu => "gelu"@,
            Kernel::VecAdd => "vec_add"@,
            Kernel::FftConvolve => "fft_convolve"@,
            Kernel::RowMatvec => "matvec"@,
            Kernel::KerrRk4 => "kerr_rk4_step"@,
        }
    }

    /// The bindings of the kernel, in order.
    pub open spec fn layout(self) -> Seq<Access> {
        match self {
            Kernel::Matvec => plain_layout(3, 1),
            Kernel::LayerNorm => plain_layout(3, 1),
            Kernel::KerrDeriv => slope_layout(),
            Kernel::MatvecBwd => plain_layout(2, 1),
            Kernel::LayerNormBwd => plain_layout(3, 1),
            Kernel::GeluBwd => plain_layout(2, 1),
            Kernel::AttnBwdScores => plain_layout(5, 2),
            Kernel::AttnBwdDkv => plain_layout(4, 2),
            Kernel::OuterProduct => plain_layout(2, 2),
            Kernel::MatvecBwdBatch => plain_layout(2, 1),
            Kernel::MatvecBatch => plain_layout(3, 1),
            Kernel::LayerNormBatch => plain_layout(3, 1),
            Kernel::KerrDerivBatch => slope_layout(),
            Kernel::KerrBwdBatch => plain_layout(6, 6),
            Kernel::VecScaleAdd => plain_layout(2, 1),
            Kernel::Rk4Combine => plain_layout(5, 1),
            Kernel::Deinterleave => plain_layout(1, 2),
            Kernel::Reinterleave => plain_layout(2, 1),
            Kernel::Gelu => plain_layout(1, 1),
            Kernel::VecAdd => plain_layout(2, 1),
            Kernel::FftConvolve => plain_layout(3, 1),
            Kernel::RowMatvec => plain_layout(3, 1),
            Kernel::KerrRk4 => step_layout(),
        }
    }

    /// The name that labels derive from.
    pub fn name(&self) -> (s: &'static str)
        ensures
            s@ == self.name_of(),
    {
        match self {
            Kernel::Matvec => "matvec",
            Kernel::LayerNorm => "layer_norm",
            Kernel::KerrDeriv => "kerr_deriv",
            Kernel::MatvecBwd => "matvec_bwd",
            Kernel::LayerNormBwd => "layer_norm_bwd",
            Kernel::GeluBwd => "gelu_bwd",
            Kernel::AttnBwdScores => "attn_bwd_scores",
            Kernel::AttnBwdDkv => "attn_bwd_dkv",
            Kernel::OuterProduct => "outer_product",
            Kernel::MatvecBwdBatch => "matvec_bwd_batch",
            Kernel::MatvecBatch => "matvec_batch",
            Kernel::LayerNormBatch => "layer_norm_batch",
            Kernel::KerrDerivBatch => "kerr_deriv_batch",
            Kernel::KerrBwdBatch => "kerr_bwd_batch",
            Kernel::VecScaleAdd => "vec_scale_add",
            Kernel::Rk4Combine => "rk4_combine",
            Kernel::Deinterleave => "deinterleave",
            Kernel::Reinterleave => "reinterleave",
            Kernel::Gelu => "gelu",
            Kernel::VecAdd => "vec_add",
            Kernel::FftConvolve => "fft_convolve",
            Kernel::RowMatvec => "matvec",
            Kernel::KerrRk4 => "kerr_rk4",
        }
    }

    /// The label of the shader module.
    pub fn module(&self) -> (s: &'static str)
        ensures
            s@ == self.module_of(),
    {
        match self {
            Kernel::Matvec => "matvec",
            Kernel::LayerNorm => "layer_norm",
            Kernel::KerrDeriv => "kerr_derivative",
            Kernel::MatvecBwd => "matvec_backward",
            Kernel::LayerNormBwd => "layer_norm_backward",
            Kernel::GeluBwd => "gelu_backward",
            Kernel::AttnBwdScores => "attn_backward_scores",
            Kernel::AttnBwdDkv => "attn_backward_dkv",
            Kernel::OuterProduct => "outer_product",
            Kernel::MatvecBwdBatch => "matvec_backward_batch",
            Kernel::MatvecBatch => "matvec_batch",
            Kernel::LayerNormBatch => "layer_norm_batch",
            Kernel::KerrDerivBatch => "kerr_derivative_batch",
            Kernel::KerrBwdBatch => "kerr_backward_batch",
            Kernel::VecScaleAdd => "vec_scale_add",
            Kernel::Rk4Combine => "rk4_combine",
            Kernel::Deinterleave => "deinterleave",
            Kernel::Reinterleave => "reinterleave",
            Kernel::Gelu => "gelu",
            Kernel::VecAdd => "vec_add",
            Kernel::FftConvolve => "fft_512",
            Kernel::RowMatvec => "matvec",
            Kernel::KerrRk4 => "kerr_rk4",
        }
    }

    /// The file of the shader.
    pub fn shader(&self) -> (s: &'static str)
        ensures
            s@ == self.shader_of(),
    {
        match self {
            Kernel::Matvec => "matvec_tiled.wgsl",
            Kernel::LayerNorm => "layer_norm.wgsl",
            Kernel::KerrDeriv => "kerr_step.wgsl",
            Kernel::MatvecBwd => "matvec_backward_tiled.wgsl",
            Kernel::LayerNormBwd => "layer_norm_backward.wgsl",
            Kernel::GeluBwd => "gelu_backward.wgsl",
            Kernel::AttnBwdScores => "attn_backward_scores.wgsl",
            Kernel::AttnBwdDkv => "attn_backward_dkv.wgsl",
            Kernel::OuterProduct => "outer_product.wgsl",
            Kernel::MatvecBwdBatch => "matvec_backward_batch_tiled_kahan.wgsl",
            Kernel::MatvecBatch => "matvec_batch_tiled_kahan.wgsl",
            Kernel::LayerNormBatch => "layer_norm_batch.wgsl",
            Kernel::KerrDerivBatch => "kerr_step_batch.wgsl",
            Kernel::KerrBwdBatch => "kerr_backward_batch.wgsl",
            Kernel::VecScaleAdd => "vec_scale_add.wgsl",
            Kernel::Rk4Combine => "rk4_combine.wgsl",
            Kernel::Deinterleave => "deinterleave.wgsl",
            Kernel::Reinterleave => "reinterleave.wgsl",
            Kernel::Gelu => "gelu.wgsl",
            Kernel::VecAdd => "vec_add.wgsl",
            Kernel::FftConvolve => "fft_512.wgsl",
            Kernel::RowMatvec => "matvec.wgsl",
            Kernel::KerrRk4 => "kerr_rk4_step.wgsl",
        }
    }

    /// The entry point of the shader.
    pub fn entry(&self) -> (s: &'static str)
        ensures
            s@ == self.entry_of(),
    {
        match self {
            Kernel::Matvec => "matvec",
            Kernel::LayerNorm => "layer_norm",
            Kernel::KerrDeriv => "kerr_derivative",
            Kernel::MatvecBwd => "matvec_backward",
            Kernel::LayerNormBwd => "layer_norm_backward",
            Kernel::GeluBwd => "gelu_backward",
            Kernel::AttnBwdScores => "attn_backward_scores",
            Kernel::AttnBwdDkv => "attn_backward_dkv",
            Kernel::OuterProduct => "outer_product",
            Kernel::MatvecBwdBatch => "matvec_backward_batch",
            Kernel::MatvecBatch => "matvec_batch",
            Kernel::LayerNormBatch => "layer_norm_batch",
            Kernel::KerrDerivBatch => "kerr_derivative_batch",
            Kernel::KerrBwdBatch => "kerr_backward_batch",
            Kernel::VecScaleAdd => "vec_scale_add",
            Kernel::Rk4Combine => "rk4_combine",
            Kernel::Deinterleave => "deinterleave",
            Kernel::Reinterleave => "reinterleave",
            Kernel::Gelu => "gelu",
            Kernel::VecAdd => "vec_add",
            Kernel::FftConvolve => "fft_convolve",
            Kernel::RowMatvec => "matvec",
            Kernel::KerrRk4 => "kerr_rk4_step",
        }
    }

    /// The bindings of the kernel, in order.
    pub fn bindings(&self) -> (out: Vec<Access>)
        ensures
            out@ == self.layout(),
    {
        match self {
            Kernel::Matvec => plain_bindings(3, 1),
            Kernel::LayerNorm => plain_bindings(3, 1),
            Kernel::KerrDeriv => slope_bindings(),
            Kernel::MatvecBwd => plain_bindings(2, 1),
            Kernel::LayerNormBwd => plain_bindings(3, 1),
            Kernel::GeluBwd => plain_bindings(2, 1),
            Kernel::AttnBwdScores => plain_bindings(5, 2),
            Kernel::AttnBwdDkv => plain_bindings(4, 2),
            Kernel::OuterProduct => plain_bindings(2, 2),
            Kernel::MatvecBwdBatch => plain_bindings(2, 1),
            Kernel::MatvecBatch => plain_bindings(3, 1),
            Kernel::LayerNormBatch => plain_bindings(3, 1),
            Kernel::KerrDerivBatch => slope_bindings(),
            Kernel::KerrBwdBatch => plain_bindings(6, 6),
            Kernel::VecScaleAdd => plain_bindings(2, 1),
            Kernel::Rk4Combine => plain_bindings(5, 1),
            Kernel::Deinterleave => plain_bindings(1, 2),
            Kernel::Reinterleave => plain_bindings(2, 1),
            Kernel::Gelu => plain_bindings(1, 1),
            Kernel::VecAdd => plain_bindings(2, 1),
            Kernel::FftConvolve => plain_bindings(3, 1),
            Kernel::RowMatvec => plain_bindings(3, 1),
            Kernel::KerrRk4 => step_bindings(),
        }
    }
}

fn plain_bindings(reads: usize, writes: usize) -> (out: Vec<Access>)
    requires
        reads + writes < 64,
    ensures
        out@ == plain_layout(reads as int, writes as int),
{
    let total: usize = reads + writes + 1;
    let mut out: Vec<Access> = Vec::new();
    let mut i: usize = 0;
    while i < total
        invariant
            reads + writes < 64,
            total == reads + writes + 1,
            i <= total,
            out@ == plain_layout(reads as int, writes as int).take(i as int),
        decreases total - i,
    {
        if i < reads {
            out.push(Access::Read);
        } else if i < reads + writes {
            out.push(Access::Write);
        } else {
            out.push(Access::Uniform);
        }
        i += 1;
        assert(out@ =~= plain_layout(reads as int, writes as int).take(i as int));
    }
    assert(out@ =~= plain_layout(reads as int, writes as int));
    out
}

fn slope_bindings() -> (out: Vec<Access>)
    ensures
        out@ == slope_layout(),
{
    let out: Vec<Access> = vec![
        Access::Read,
        Access::Read,
        Access::Write,
        Access::Write,
        Access::Read,
        Access::Read,
        Access::Uniform,
        Access::Read,
    ];
    assert(out@ =~= slope_layout());
    out
}

fn step_bindings() -> (out: Vec<Access>)
    ensures
        out@ == step_layout(),
{
    let out: Vec<Access> = vec![
        Access::Write,
        Access::Write,
        Access::Read,
        Access::Read,
        Access::Uniform,
    ];
    assert(out@ =~= step_layout());
    out
}

/// The kernels of the general backend, in the order in which they are built.
pub open spec fn backend_order() -> Seq<Kernel> {
    seq![
        Kernel::Matvec,
        Kernel::LayerNorm,
        Kernel::KerrDeriv,
        Kernel::MatvecBwd,
        Kernel::LayerNormBwd,
        Kernel::GeluBwd,
        Kernel::AttnBwdScores,
        Kernel::AttnBwdDkv,
        Kernel::OuterProduct,
        Kernel::MatvecBwdBatch,
        Kernel::MatvecBatch,
        Kernel::LayerNormBatch,
        Kernel::KerrDerivBatch,
        Kernel::KerrBwdBatch,
        Kernel::VecScaleAdd,
        Kernel::Rk4Combine,
        Kernel::Deinterleave,
        Kernel::Reinterleave,
        Kernel::Gelu,
        Kernel::VecAdd,
        Kernel::FftConvolve,
    ]
}

/// The kernels of the general backend, in the order in which they are built.
pub fn backend_kernels() -> (out: Vec<Kernel>)
    ensures
        out@ == backend_order(),
{
    let out: Vec<Kernel> = vec![
        Kernel::Matvec,
        Kernel::LayerNorm,
        Kernel::KerrDeriv,
        Kernel::MatvecBwd,
        Kernel::LayerNormBwd,
        Kernel::GeluBwd,
        Kernel::AttnBwdScores,
        Kernel::AttnBwdDkv,
        Kernel::OuterProduct,
        Kernel::MatvecBwdBatch,
        Kernel::MatvecBatch,
        Kernel::LayerNormBatch,
        Kernel::KerrDerivBatch,
        Kernel::KerrBwdBatch,
        Kernel::VecScaleAdd,
        Kernel::Rk4Combine,
        Kernel::Deinterleave,
        Kernel::Reinterleave,
        Kernel::Gelu,
        Kernel::VecAdd,
        Kernel::FftConvolve,
    ];
    assert(out@ =~= backend_order());
    out
}

/// The kernels of the persistent pipeline, in the order in which they are built.
pub open spec fn persistent_order() -> Seq<Kernel> {
    seq![Kernel::RowMatvec, Kernel::LayerNorm, Kernel::Gelu, Kernel::VecAdd, Kernel::KerrRk4]
}

/// The kernels of the persistent pipeline, in the order in which they are built.
pub fn persistent_kernels() -> (out: Vec<Kernel>)
    ensures
        out@ == persistent_order(),
{
    let out: Vec<Kernel> = vec![
        Kernel::RowMatvec,
        Kernel::LayerNorm,
        Kernel::Gelu,
        Kernel::VecAdd,
        Kernel::KerrRk4,
    ];
    assert(out@ =~= persistent_order());
    out
}

/// Number of bindings with a given use.
pub open spec fn uses(layout: Seq<Access>, access: Access) -> nat
    decreases layout.len(),
{
    if layout.len() == 0 {
        0
    } else {
        uses(layout.drop_last(), access) + (if layout.last() == access {
            1nat
        } else {
            0
        })
    }
}

proof fn lemma_uses_append(a: Seq<Access>, b: Seq<Access>, access: Access)
    ensures
        uses(a + b, access) == uses(a, access) + uses(b, access),
    decreases b.len(),
{
    if b.len() == 0 {
        assert(a + b =~= a);
    } else {
        lemma_uses_append(a, b.drop_last(), access);
        assert((a + b).drop_last() =~= a + b.drop_last());
    }
}

proof fn lemma_uses_same(n: nat, x: Access, access: Access)
    ensures
        uses(Seq::new(n, |i: int| x), access) == (if x == access {
            n
        } else {
            0
        }),
    decreases n,
{
    if n > 0 {
        lemma_uses_same((n - 1) as nat, x, access);
        assert(Seq::new(n, |i: int| x).drop_last() =~= Seq::new((n - 1) as nat, |i: int| x));
    }
}

proof fn lemma_plain_uses(reads: nat, writes: nat, access: Access)
    ensures
        uses(plain_layout(reads as int, writes as int), access) == (match access {
            Access::Read => reads,
            Access::Write => writes,
            Access::Uniform => 1,
        }),
{
    let r = Seq::new(reads, |i: int| Access::Read);
    let w = Seq::new(writes, |i: int| Access::Write);
    let u = Seq::new(1, |i: int| Access::Uniform);
    assert(plain_layout(reads as int, writes as int) =~= r + w + u);
    lemma_uses_append(r + w, u, access);
    lemma_uses_append(r, w, access);
    lemma_uses_same(reads, Access::Read, access);
    lemma_uses_same(writes, Access::Write, access);
    lemma_uses_same(1, Access::Uniform, access);
}

/// Every kernel has exactly one uniform, writes somewhere, and stays within the number
/// of storage buffers that the device is asked for.
pub proof fn law_kernels_fit_device(k: Kernel)
    ensures
        uses(k.layout(), Access::Uniform) == 1,
        uses(k.layout(), Access::Write) >= 1,
        uses(k.layout(), Access::Read) + uses(k.layout(), Access::Write) <= MAX_STORAGE_BUFFERS,
{
    match k {
        Kernel::Matvec => {
            lemma_plain_uses(3, 1, Access::Read);
            lemma_plain_uses(3, 1, Access::Write);
            lemma_plain_uses(3, 1, Access::Uniform);
        },
        Kernel::LayerNorm => {
            lemma_plain_uses(3, 1, Access::Read);
            lemma_plain_uses(3, 1, Access::Write);
            lemma_plain_uses(3, 1, Access::Uniform);
        },
        Kernel::KerrDeriv => {
            lemma_slope_uses();
        },
        Kernel::MatvecBwd => {
            lemma_plain_uses(2, 1, Access::Read);
            lemma_plain_uses(2, 1, Access::Write);
            lemma_plain_uses(2, 1, Access::Uniform);
        },
        Kernel::LayerNormBwd => {
            lemma_plain_uses(3, 1, Access::Read);
            lemma_plain_uses(3, 1, Access::Write);
            lemma_plain_uses(3, 1, Access::Uniform);
        },
        Kernel::GeluBwd => {
            lemma_plain_uses(2, 1, Access::Read);
            lemma_plain_uses(2, 1, Access::Write);
            lemma_plain_uses(2, 1, Access::Uniform);
        },
        Kernel::AttnBwdScores => {
            lemma_plain_uses(5, 2, Access::Read);
            lemma_plain_uses(5, 2, Access::Write);
            lemma_plain_uses(5, 2, Access::Uniform);
        },
        Kernel::AttnBwdDkv => {
            lemma_plain_uses(4, 2, Access::Read);
            lemma_plain_uses(4, 2, Access::Write);
            lemma_plain_uses(4, 2, Access::Uniform);
        },
        Kernel::OuterProduct => {
            lemma_plain_uses(2, 2, Access::Read);
            lemma_plain_uses(2, 2, Access::Write);
            lemma_plain_uses(2, 2, Access::Uniform);
        },
        Kernel::MatvecBwdBatch => {
            lemma_plain_uses(2, 1, Access::Read);
            lemma_plain_uses(2, 1, Access::Write);
            lemma_plain_uses(2, 1, Access::Uniform);
        },
        Kernel::MatvecBatch => {
            lemma_plain_uses(3, 1, Access::Read);
            lemma_plain_uses(3, 1, Access::Write);
            lemma_plain_uses(3, 1, Access::Uniform);
        },
        Kernel::LayerNormBatch => {
            lemma_plain_uses(3, 1, Access::Read);
            lemma_plain_uses(3, 1, Access::Write);
            lemma_plain_uses(3, 1, Access::Uniform);
        },
        Kernel::KerrDerivBatch => {
            lemma_slope_uses();
        },
        Kernel::KerrBwdBatch => {
            lemma_plain_uses(6, 6, Access::Read);
            lemma_plain_uses(6, 6, Access::Write);
            lemma_plain_uses(6, 6, Access::Uniform);
        },
        Kernel::VecScaleAdd => {
            lemma_plain_uses(2, 1, Access::Read);
            lemma_plain_uses(2, 1, Access::Write);
            lemma_plain_uses(2, 1, Access::Uniform);
        },
        Kernel::Rk4Combine => {
            lemma_plain_uses(5, 1, Access::Read);
            lemma_plain_uses(5, 1, Access::Write);
            lemma_plain_uses(5, 1, Access::Uniform);
        },
        Kernel::Deinterleave => {
            lemma_plain_uses(1, 2, Access::Read);
            lemma_plain_uses(1, 2, Access::Write);
            lemma_plain_uses(1, 2, Access::Uniform);
        },
        Kernel::Reinterleave => {
            lemma_plain_uses(2, 1, Access::Read);
            lemma_plain_uses(2, 1, Access::Write);
            lemma_plain_uses(2, 1, Access::Uniform);
        },
        Kernel::Gelu => {
            lemma_plain_uses(1, 1, Access::Read);
            lemma_plain_uses(1, 1, Access::Write);
            lemma_plain_uses(1, 1, Access::Uniform);
        },
        Kernel::VecAdd => {
            lemma_plain_uses(2, 1, Access::Read);
            lemma_plain_uses(2, 1, Access::Write);
            lemma_plain_uses(2, 1, Access::Uniform);
        },
        Kernel::FftConvolve => {
            lemma_plain_uses(3, 1, Access::Read);
            lemma_plain_uses(3, 1, Access::Write);
            lemma_plain_uses(3, 1, Access::Uniform);
        },
        Kernel::RowMatvec => {
            lemma_plain_uses(3, 1, Access::Read);
            lemma_plain_uses(3, 1, Access::Write);
            lemma_plain_uses(3, 1, Access::Uniform);
        },
        Kernel::KerrRk4 => {
            let l = step_layout();
            reveal_with_fuel(uses, 6);
            assert(l.drop_last().drop_last().drop_last().drop_last().drop_last() =~= Seq::empty());
        },
    }
}

proof fn lemma_slope_uses()
    ensures
        uses(slope_layout(), Access::Uniform) == 1,
        uses(slope_layout(), Access::Write) == 2,
        uses(slope_layout(), Access::Read) == 5,
{
    let l = slope_layout();
    reveal_with_fuel(uses, 9);
    let l4 = l.drop_last().drop_last().drop_last().drop_last();
    assert(l4.drop_last().drop_last().drop_last().drop_last() =~= Seq::empty());
}

/// The parameters of a dispatch. Floating-point parameters are given by their bits.
#[derive(Clone, Copy, Debug, PartialEq, Eq, Structural)]
pub enum Uniform {
    Matvec { out_dim: u32, in_dim: u32, use_bias: bool },
    LayerNorm { dim: u32 },
    KerrDeriv { n_bands: u32 },
    MatvecBwd { out_dim: u32, in_dim: u32 },
    Elementwise { len: u32 },
    AttnBwd { seq_len: u32, n_head: u32, head_dim: u32, n_embd: u32 },
    OuterProduct { out_dim: u32, in_dim: u32, n_pos: u32, compute_bias: bool },
    MatvecBwdBatch { out_dim: u32, in_dim: u32, n_pos: u32 },
    MatvecBatch { out_dim: u32, in_dim: u32, n_pos: u32, use_bias: bool },
    PerPosition { dim: u32, n_pos: u32 },
    Scaled { len: u32, factor: u32 },
    FftConvolve { n_bands: u32, n_positions: u32, mode: u32 },
    KerrBwdBatch { n_bands: u32, n_pos: u32, alpha: u32, beta: u32 },
    KerrRk4 { n_bands: u32, dt: u32, alpha: u32, beta: u32 },
}

/// A flag as a word.
pub open spec fn flag(b: bool) -> u32 {
    if b {
        1
    } else {
        0
    }
}

fn flag_word(b: bool) -> (w: u32)
    ensures
        w == flag(b),
{
    if b {
        1
    } else {
        0
    }
}

impl Uniform {
    /// The four words of the parameters, padded with zeros.
    pub open spec fn words_of(self) -> Seq<u32> {
        match self {
            Uniform::Matvec { out_dim, in_dim, use_bias } => seq![
                out_dim,
                in_dim,
                flag(use_bias),
                0,
            ],
            Uniform::LayerNorm { dim } => seq![dim, 0, 0, 0],
            Uniform::KerrDeriv { n_bands } => seq![n_bands, 0, 0, 0],
            Uniform::MatvecBwd { out_dim, in_dim } => seq![out_dim, in_dim, 0, 0],
            Uniform::Elementwise { len } => seq![len, 0, 0, 0],
            Uniform::AttnBwd { seq_len, n_head, head_dim, n_embd } => seq![
                seq_len,
                n_head,
                head_dim,
                n_embd,
            ],
            Uniform::OuterProduct { out_dim, in_dim, n_pos, compute_bias } => seq![
                out_dim,
                in_dim,
                n_pos,
                flag(compute_bias),
            ],
            Uniform::MatvecBwdBatch { out_dim, in_dim, n_pos } => seq![out_dim, in_dim, n_pos, 0],
            Uniform::MatvecBatch { out_dim, in_dim, n_pos, use_bias } => seq![
                out_dim,
                in_dim,
                n_pos,
                flag(use_bias),
            ],
            Uniform::PerPosition { dim, n_pos } => seq![dim, n_pos, 0, 0],
            Uniform::Scaled { len, factor } => seq![len, factor, 0, 0],
            Uniform::FftConvolve { n_bands, n_positions, mode } => seq![
                n_bands,
                n_positions,
                mode,
                0,
            ],
            Uniform::KerrBwdBatch { n_bands, n_pos, alpha, beta } => seq![
                n_bands,
                n_pos,
                alpha,
                beta,
            ],
            Uniform::KerrRk4 { n_bands, dt, alpha, beta } => seq![n_bands, dt, alpha, beta],
        }
    }

    /// The four words of the parameters.
    pub fn words(&self) -> (w: [u32; 4])
        ensures
            w@ == self.words_of(),
    {
        let w: [u32; 4] = match *self {
            Uniform::Matvec { out_dim, in_dim, use_bias } => [
                out_dim,
                in_dim,
                flag_word(use_bias),
                0,
            ],
            Uniform::LayerNorm { dim } => [dim, 0, 0, 0],
            Uniform::KerrDeriv { n_bands } => [n_bands, 0, 0, 0],
            Uniform::MatvecBwd { out_dim, in_dim } => [out_dim, in_dim, 0, 0],
            Uniform::Elementwise { len } => [len, 0, 0, 0],
            Uniform::AttnBwd { seq_len, n_head, head_dim, n_embd } => [
                seq_len,
                n_head,
                head_dim,
                n_embd,
            ],
            Uniform::OuterProduct { out_dim, in_dim, n_pos, compute_bias } => [
                out_dim,
                in_dim,
                n_pos,
                flag_word(compute_bias),
            ],
            Uniform::MatvecBwdBatch { out_dim, in_dim, n_pos } => [out_dim, in_dim, n_pos, 0],
            Uniform::MatvecBatch { out_dim, in_dim, n_pos, use_bias } => [
                out_dim,
                in_dim,
                n_pos,
                flag_word(use_bias),
            ],
            Uniform::PerPosition { dim, n_pos } => [dim, n_pos, 0, 0],
            Uniform::Scaled { len, factor } => [len, factor, 0, 0],
            Uniform::FftConvolve { n_bands, n_positions, mode } => [n_bands, n_positions, mode, 0],
            Uniform::KerrBwdBatch { n_bands, n_pos, alpha, beta } => [n_bands, n_pos, alpha, beta],
            Uniform::KerrRk4 { n_bands, dt, alpha, beta } => [n_bands, dt, alpha, beta],
        };
        assert(w@ =~= self.words_of());
        w
    }

    /// The bytes that the device reads the parameters from.
    pub fn bytes(&self) -> (b: Vec<u8>)
        ensures
            b@.len() == 16,
            holds_words(b@, self.words_of()),
    {
        let w: [u32; 4] = self.words();
        word_bytes(&w)
    }
}

/// The four bytes at `at` as a big-endian number.
pub open spec fn be4(b: Seq<u8>, at: int) -> int {
    16777216 * b[at] + 65536 * b[at + 1] + 256 * b[at + 2] + b[at + 3]
}

/// The bytes hold the words one after the other, all in the byte order of the
/// machine.
pub open spec fn holds_words(b: Seq<u8>, words: Seq<u32>) -> bool {
    &&& b.len() == 4 * words.len()
    &&& {
        ||| forall|i: int| 0 <= i < words.len() ==> le4(b, 4 * i) == #[trigger] words[i]
        ||| forall|i: int| 0 <= i < words.len() ==> be4(b, 4 * i) == #[trigger] words[i]
    }
}

/// `bytemuck::cast_slice` from words to bytes: the memory of the words, read as bytes.
/// It has four bytes per word; in which order they stand depends on the machine, and
/// is the same for all of them.
#[verifier::external_body]
fn word_bytes(words: &[u32]) -> (b: Vec<u8>)
    ensures
        holds_words(b@, words@),
{
    bytemuck::cast_slice::<u32, u8>(words).to_vec()
}

/// Bytes of a buffer of four-byte values.
pub fn buffer_bytes(n: usize) -> (bytes: u64)
    requires
        n * 4 <= usize::MAX,
    ensures
        bytes == n * 4,
{
    (n * 4) as u64
}

/// Lengths of the buffers that the output projection keeps on the device: the
/// regulated state, its projection, the two gradients, and the gradients of weights and
/// bias.
pub fn out_proj_buffer_lens(max_pos: usize, n_embd: usize) -> (lens: Vec<usize>)
    requires
        max_pos * n_embd <= usize::MAX,
        n_embd * n_embd <= usize::MAX,
    ensures
        lens@ == seq![
            (max_pos * n_embd) as usize,
            (max_pos * n_embd) as usize,
            (max_pos * n_embd) as usize,
            (max_pos * n_embd) as usize,
            (n_embd * n_embd) as usize,
            n_embd,
        ],
{
    let elem: usize = max_pos * n_embd;
    let lens: Vec<usize> = vec![elem, elem, elem, elem, n_embd * n_embd, n_embd];
    assert(lens@ =~= seq![elem, elem, elem, elem, (n_embd * n_embd) as usize, n_embd]);
    lens
}

/// A scratch buffer of the fused feed-forward chain.
#[derive(Clone, Copy, Debug, PartialEq, Eq, Structural)]
pub enum ScratchKind {
    /// One value per position and component.
    Embd,
    /// One value per position and bottleneck component.
    Maestro,
    /// One value per position and band.
    Bands,
}

/// The scratch buffers of the fused feed-forward chain, in order: input, first
/// regulator, preconditioned state, its two parts twice over, integrated state, second
/// regulator, regulated state and output, then the slopes and intermediate states of an
/// integration step.
pub open spec fn scratch_kinds() -> Seq<ScratchKind> {
    seq![
        ScratchKind::Embd,
        ScratchKind::Maestro,
        ScratchKind::Maestro,
        ScratchKind::Embd,
        ScratchKind::Embd,
        ScratchKind::Bands,
        ScratchKind::Bands,
        ScratchKind::Bands,
        ScratchKind::Bands,
        ScratchKind::Embd,
        ScratchKind::Maestro,
        ScratchKind::Maestro,
        ScratchKind::Embd,
        ScratchKind::Embd,
        ScratchKind::Embd,
    ] + Seq::new(12, |i: int| ScratchKind::Bands)
}

/// Length of a scratch buffer.
pub open spec fn scratch_len(kind: ScratchKind, n_pos: int, n_embd: int, maestro_dim: int) -> int {
    match kind {
        ScratchKind::Embd => n_pos * n_embd,
        ScratchKind::Maestro => n_pos * maestro_dim,
        ScratchKind::Bands => n_pos * (n_embd / 2),
    }
}

/// Lengths of the scratch buffers of the fused feed-forward chain, in order.
pub fn scratch_lens(n_pos: usize, n_embd: usize, maestro_dim: usize) -> (lens: Vec<usize>)
    requires
        n_pos * n_embd <= usize::MAX,
        n_pos * maestro_dim <= usize::MAX,
    ensures
        lens@ == scratch_kinds().map_values(
            |k: ScratchKind|
                scratch_len(k, n_pos as int, n_embd as int, maestro_dim as int) as usize,
        ),
{
    assert(n_pos * (n_embd / 2) <= n_pos * n_embd) by (nonlinear_arith)
        requires
            n_pos >= 0,
            n_embd >= 0,
    ;
    let e: usize = n_pos * n_embd;
    let m: usize = n_pos * maestro_dim;
    let b: usize = n_pos * (n_embd / 2);
    let mut lens: Vec<usize> = vec![e, m, m, e, e, b, b, b, b, e, m, m, e, e, e];
    let ghost head = lens@;
    let mut i: usize = 0;
    while i < 12
        invariant
            i <= 12,
            lens@ == head + Seq::new(i as nat, |k: int| b),
        decreases 12 - i,
    {
        lens.push(b);
        i += 1;
        assert(lens@ =~= head + Seq::new(i as nat, |k: int| b));
    }
    assert(lens@ =~= scratch_kinds().map_values(
        |k: ScratchKind| scratch_len(k, n_pos as int, n_embd as int, maestro_dim as int) as usize,
    ));
    lens
}

/// The two parts of a state together take as much room as the state.
pub proof fn law_parts_fill_state(n_pos: int, n_embd: int, maestro_dim: int)
    requires
        n_embd % 2 == 0,
    ensures
        scratch_len(ScratchKind::Bands, n_pos, n_embd, maestro_dim) + scratch_len(
            ScratchKind::Bands,
            n_pos,
            n_embd,
            maestro_dim,
        ) == scratch_len(ScratchKind::Embd, n_pos, n_embd, maestro_dim),
{
    let half = n_embd / 2;
    assert(n_pos * half + n_pos * half == n_pos * n_embd) by (nonlinear_arith)
        requires
            2 * half == n_embd,
    ;
}

/// Workgroups of 64 threads that cover `n` outputs.
pub fn workgroups(n: u32) -> (g: u32)
    requires
        n <= u32::MAX - 63,
    ensures
        g == (n + 63) / 64,
        n <= 64 * g,
        64 * g < n + 64,
{
    (n + 63) / 64
}

/// A scratch buffer of the persistent pipeline.
#[derive(Clone, Copy, Debug, PartialEq, Eq, Structural)]
pub enum Scratch {
    A128,
    B128,
    C128,
    S16,
    G16,
}

/// Which weights a step of the persistent chain reads.
#[derive(Clone, Copy, Debug, PartialEq, Eq, Structural)]
pub enum ChainWeights {
    SecondNorm,
    Squeeze,
    Process,
    OutProj,
    Nothing,
}

/// One dispatch of the persistent chain.
#[derive(Clone, Copy, Debug, PartialEq, Eq, Structural)]
pub struct ChainStep {
    pub kernel: Kernel,
    pub weights: ChainWeights,
    pub input: Scratch,
    pub output: Scratch,
    pub uniform: Uniform,
    pub groups: u32,
}

/// Number of values of a scratch buffer.
pub open spec fn scratch_size(s: Scratch) -> int {
    match s {
        Scratch::A128 | Scratch::B128 | Scratch::C128 => 128,
        Scratch::S16 | Scratch::G16 => 16,
    }
}

/// The feed-forward chain of the persistent pipeline: normalise, squeeze, activate,
/// process, project.
pub open spec fn chain_steps() -> Seq<ChainStep> {
    seq![
        ChainStep {
            kernel: Kernel::LayerNorm,
            weights: ChainWeights::SecondNorm,
            input: Scratch::A128,
            output: Scratch::B128,
            uniform: Uniform::LayerNorm { dim: 128 },
            groups: 1,
        },
        ChainStep {
            kernel: Kernel::RowMatvec,
            weights: ChainWeights::Squeeze,
            input: Scratch::B128,
            output: Scratch::S16,
            uniform: Uniform::Matvec { out_dim: 16, in_dim: 128, use_bias: true },
            groups: 1,
        },
        ChainStep {
            kernel: Kernel::Gelu,
            weights: ChainWeights::Nothing,
            input: Scratch::S16,
            output: Scratch::G16,
            uniform: Uniform::Elementwise { len: 16 },
            groups: 1,
        },
        ChainStep {
            kernel: Kernel::RowMatvec,
            weights: ChainWeights::Process,
            input: Scratch::G16,
            output: Scratch::C128,
            uniform: Uniform::Matvec { out_dim: 128, in_dim: 16, use_bias: true },
            groups: 2,
        },
        ChainStep {
            kernel: Kernel::RowMatvec,
            weights: ChainWeights::OutProj,
            input: Scratch::C128,
            output: Scratch::B128,
            uniform: Uniform::Matvec { out_dim: 128, in_dim: 128, use_bias: true },
            groups: 2,
        },
    ]
}

fn matvec_step(
    weights: ChainWeights,
    input: Scratch,
    output: Scratch,
    out_dim: u32,
    in_dim: u32,
) -> (step: ChainStep)
    requires
        out_dim <= u32::MAX - 63,
    ensures
        step == (ChainStep {
            kernel: Kernel::RowMatvec,
            weights,
            input,
            output,
            uniform: Uniform::Matvec { out_dim, in_dim, use_bias: true },
            groups: ((out_dim + 63) / 64) as u32,
        }),
{
    ChainStep {
        kernel: Kernel::RowMatvec,
        weights,
        input,
        output,
        uniform: Uniform::Matvec { out_dim, in_dim, use_bias: true },
        groups: workgroups(out_dim),
    }
}

/// The dispatches of the feed-forward chain, in order. The input is written to the first
/// buffer and the result is read from the last.
pub fn ffn_chain() -> (steps: Vec<ChainStep>)
    ensures
        steps@ == chain_steps(),
{
    let steps: Vec<ChainStep> = vec![
        ChainStep {
            kernel: Kernel::LayerNorm,
            weights: ChainWeights::SecondNorm,
            input: Scratch::A128,
            output: Scratch::B128,
            uniform: Uniform::LayerNorm { dim: 128 },
            groups: 1,
        },
        matvec_step(ChainWeights::Squeeze, Scratch::B128, Scratch::S16, 16, 128),
        ChainStep {
            kernel: Kernel::Gelu,
            weights: ChainWeights::Nothing,
            input: Scratch::S16,
            output: Scratch::G16,
            uniform: Uniform::Elementwise { len: 16 },
            groups: workgroups(16),
        },
        matvec_step(ChainWeights::Process, Scratch::G16, Scratch::C128, 128, 16),
        matvec_step(ChainWeights::OutProj, Scratch::C128, Scratch::B128, 128, 128),
    ];
    assert(steps@ =~= chain_steps());
    steps
}

/// The chain hands each result on: a step reads what the step before it wrote, never
/// writes what it reads, and reads and writes whole buffers.
pub proof fn law_chain_hands_on(i: int)
    requires
        0 <= i < chain_steps().len(),
    ensures
        i > 0 ==> chain_steps()[i].input == chain_steps()[i - 1].output,
        chain_steps()[i].input != chain_steps()[i].output,
        chain_steps()[i].uniform matches Uniform::Matvec { out_dim, in_dim, .. } ==> {
            &&& out_dim == scratch_size(chain_steps()[i].output)
            &&& in_dim == scratch_size(chain_steps()[i].input)
            &&& 64 * chain_steps()[i].groups >= out_dim
        },
{
}

/// Bands that one workgroup can integrate with shared memory.
pub const FUSED_BANDS: usize = 256;

/// Whether the fused integration step takes this many bands.
pub fn fused_fits(n_bands: usize) -> (ok: bool)
    ensures
        ok == (n_bands <= 256),
{
    n_bands <= FUSED_BANDS
}

/// The message for a device index that does not exist.
pub open spec fn device_error(idx: nat, available: nat) -> Seq<char> {
    "GPU device index "@ + decimal(idx) + " out of range ("@ + decimal(available)
        + " adapters available)"@
}

/// Accepts a device index, or says that there is no such device.
pub fn check_device_index(idx: usize, available: usize) -> (result: Result<usize, String>)
    ensures
        match result {
            Ok(i) => i == idx && idx < available,
            Err(text) => idx >= available && text@ == device_error(idx as nat, available as nat),
        },
{
    if idx < available {
        Ok(idx)
    } else {
        let mut text: String = String::from_str("GPU device index ");
        append_decimal(&mut text, idx);
        text.append(" out of range (");
        append_decimal(&mut text, available);
        text.append(" adapters available)");
        Err(text)
    }
}

/// Numbers in ascending order.
pub open spec fn ascending(s: Seq<u64>) -> bool {
    forall|i: int, j: int| 0 <= i <= j < s.len() ==> s[i] <= s[j]
}

/// The middle of some times: the one that stands in the middle when they are sorted; of
/// two middle ones the later.
pub fn median(times: &[u64]) -> (m: u64)
    requires
        times@.len() > 0,
    ensures
        exists|s: Seq<u64>|
            {
                &&& ascending(s)
                &&& #[trigger] s.to_multiset() == times@.to_multiset()
                &&& s.len() == times@.len()
                &&& m == s[(times@.len() / 2) as int]
            },
{
    broadcast use vstd::seq_lib::group_to_multiset_ensures;

    let n: usize = times.len();
    let mut sorted: Vec<u64> = Vec::new();
    let mut i: usize = 0;
    assert(times@.take(0) =~= Seq::<u64>::empty());
    assert(sorted@ =~= Seq::<u64>::empty());
    while i < n
        invariant
            n == times@.len(),
            i <= n,
            sorted@.len() == i,
            sorted@.to_multiset() == times@.take(i as int).to_multiset(),
            ascending(sorted@),
        decreases n - i,
    {
        let t: u64 = times[i];
        let len: usize = sorted.len();
        let mut at: usize = 0;
        while at < len && sorted[at] <= t
            invariant
                len == sorted@.len(),
                at <= len,
                forall|k: int| 0 <= k < at ==> #[trigger] sorted@[k] <= t,
            decreases len - at,
        {
            at += 1;
        }
        let ghost before = sorted@;
        sorted.insert(at, t);
        proof {
            vstd::seq_lib::to_multiset_insert(before, at as int, t);
            assert(times@.take(i + 1) =~= times@.take(i as int).push(t));
            vstd::seq_lib::to_multiset_build(times@.take(i as int), t);
            assert forall|a: int, b: int| 0 <= a <= b < sorted@.len() implies sorted@[a]
                <= sorted@[b] by {
                if b < at {
                    assert(before[a] <= before[b]);
                } else if a < at {
                    if b > at {
                        assert(before[a] <= before[b - 1]);
                    }
                } else if a == at {
                    if b > at {
                        assert(before[at as int] <= before[b - 1]);
                    }
                } else {
                    assert(before[a - 1] <= before[b - 1]);
                }
            }
        }
        i += 1;
    }
    assert(times@.take(n as int) =~= times@);
    sorted[n / 2]
}

} // verus!
