//! Weight containers and their flat layout.
//!
//! The containers are generic over the scalar type: nothing here computes with a
//! weight, it only moves weights between matrices and flat vectors.

use vstd::prelude::*;
use crate::seqs::{extend_from, extend_rows, take, take_rows};
use crate::seqs::{
    lemma_rows_flat_injective, lemma_rows_flat_len, rows_flat, rows_width,
};

verus! {

/// A linear layer: `w` is `[out_dim][in_dim]`, `b` is `[out_dim]`.
pub struct LinearWeights<T> {
    pub w: Vec<Vec<T>>,
    pub b: Vec<T>,
}

/// A layer normalisation: scale and shift per component.
pub struct LayerNormWeights<T> {
    pub weight: Vec<T>,
    pub bias: Vec<T>,
}

/// A regulator: a squeeze to the bottleneck and a projection back.
pub struct MaestroWeights<T> {
    pub squeeze: LinearWeights<T>,
    pub process_1: LinearWeights<T>,
}

/// Parameters of one Kerr-ODE layer.
pub struct KerrWeights<T> {
    pub gamma_raw: Vec<T>,
    pub omega: Vec<T>,
    pub alpha: T,
    pub beta: T,
    pub rk4_n_steps: usize,
    /// Phase offset of each band.
    pub phase_correction: Vec<T>,
    /// Weights of the four slopes of an integration step.
    pub rk4_weights: [T; 4],
    /// Coupling between bands, not trained.
    pub coherent_matrix: Vec<Vec<T>>,
    pub mix_strength: T,
    /// Strength of four-wave mixing.
    pub chi: T,
}

/// Block-diagonal linear layer: groups of components processed independently.
pub struct BlockDiagonalWeights<T> {
    pub groups: Vec<LinearWeights<T>>,
    pub n_groups: usize,
    pub group_size: usize,
}

/// Output projection, dense or block-diagonal.
pub enum OutProjWeights<T> {
    Dense(LinearWeights<T>),
    BlockDiagonal(BlockDiagonalWeights<T>),
}

/// Feed-forward block with a regulator on each side of the ODE.
pub struct KerrDualMaestroWeights<T> {
    pub kerr: KerrWeights<T>,
    pub maestro_in: MaestroWeights<T>,
    pub maestro_out: MaestroWeights<T>,
    pub out_proj: OutProjWeights<T>,
}

impl<T> LinearWeights<T> {
    /// Rows of `w`, then the bias.
    pub open spec fn flat(&self) -> Seq<T> {
        rows_flat(self.w@) + self.b@
    }

    /// `w` is `out_dim` by `in_dim` and `b` has `out_dim` entries.
    pub open spec fn shaped(&self, out_dim: int, in_dim: int) -> bool {
        &&& self.w@.len() == out_dim
        &&& rows_width(self.w@, in_dim)
        &&& self.b@.len() == out_dim
    }

    /// A layer of a given shape flattens to its weights and its biases.
    pub proof fn lemma_flat_len(&self, out_dim: int, in_dim: int)
        requires
            self.shaped(out_dim, in_dim),
        ensures
            self.flat().len() == out_dim * in_dim + out_dim,
    {
        lemma_rows_flat_len(self.w@, in_dim);
    }

    /// Layers of one shape that flatten alike hold the same entries.
    pub proof fn law_flat_determines_layer(&self, other: &Self, out_dim: int, in_dim: int)
        requires
            in_dim >= 0,
            self.shaped(out_dim, in_dim),
            other.shaped(out_dim, in_dim),
            self.flat() == other.flat(),
        ensures
            forall|i: int| 0 <= i < out_dim ==> (#[trigger] self.w@[i])@ == other.w@[i]@,
            self.b@ == other.b@,
    {
        lemma_rows_flat_len(self.w@, in_dim);
        lemma_rows_flat_len(other.w@, in_dim);
        let n = out_dim * in_dim;
        assert(self.flat().subrange(0, n) =~= rows_flat(self.w@));
        assert(other.flat().subrange(0, n) =~= rows_flat(other.w@));
        assert(self.flat().subrange(n, n + out_dim) =~= self.b@);
        assert(other.flat().subrange(n, n + out_dim) =~= other.b@);
        lemma_rows_flat_injective(self.w@, other.w@, in_dim);
    }
}

impl<T: Copy> LinearWeights<T> {
    /// Appends the weights row by row, then the bias.
    pub fn flatten_into(&self, out: &mut Vec<T>)
        ensures
            final(out)@ == old(out)@ + self.flat(),
    {
        extend_rows(out, &self.w);
        extend_from(out, &self.b);
        assert(out@ =~= old(out)@ + self.flat());
    }

    /// Reads a layer of the given shape out of `params` from `start` on.
    pub fn read(params: &[T], start: usize, out_dim: usize, in_dim: usize) -> (layer: Self)
        requires
            start + out_dim * in_dim + out_dim <= params@.len(),
        ensures
            layer.shaped(out_dim as int, in_dim as int),
            layer.flat() == params@.subrange(
                start as int,
                start + out_dim * in_dim + out_dim,
            ),
    {
        let total: usize = params.len();
        assert(0 <= out_dim * in_dim) by (nonlinear_arith);
        let w: Vec<Vec<T>> = take_rows(params, start, out_dim, in_dim);
        let mid: usize = start + out_dim * in_dim;
        let b: Vec<T> = take(params, mid, out_dim);
        let layer = LinearWeights { w, b };
        assert(layer.flat() =~= params@.subrange(
            start as int,
            start + out_dim * in_dim + out_dim,
        ));
        layer
    }
}

/// The groups laid end to end.
pub open spec fn groups_flat<T>(groups: Seq<LinearWeights<T>>) -> Seq<T>
    decreases groups.len(),
{
    if groups.len() == 0 {
        Seq::empty()
    } else {
        groups_flat(groups.drop_last()) + groups.last().flat()
    }
}

/// The weights of the groups laid end to end, without the biases.
pub open spec fn groups_weights<T>(groups: Seq<LinearWeights<T>>) -> Seq<T>
    decreases groups.len(),
{
    if groups.len() == 0 {
        Seq::empty()
    } else {
        groups_weights(groups.drop_last()) + rows_flat(groups.last().w@)
    }
}

/// The biases of the groups laid end to end.
pub open spec fn groups_biases<T>(groups: Seq<LinearWeights<T>>) -> Seq<T>
    decreases groups.len(),
{
    if groups.len() == 0 {
        Seq::empty()
    } else {
        groups_biases(groups.drop_last()) + groups.last().b@
    }
}

/// Every group is a square layer of the given size.
pub open spec fn groups_square<T>(groups: Seq<LinearWeights<T>>, size: int) -> bool {
    forall|g: int| 0 <= g < groups.len() ==> (#[trigger] groups[g]).shaped(size, size)
}

/// Square groups flatten to the sum of their sizes.
pub proof fn lemma_groups_flat_len<T>(groups: Seq<LinearWeights<T>>, size: int)
    requires
        groups_square(groups, size),
    ensures
        groups_flat(groups).len() == groups.len() * (size * size + size),
    decreases groups.len(),
{
    let each = size * size + size;
    if groups.len() > 0 {
        let front = groups.drop_last();
        assert forall|g: int| 0 <= g < front.len() implies (#[trigger] front[g]).shaped(
            size,
            size,
        ) by {
            assert(front[g] == groups[g]);
        }
        lemma_groups_flat_len(front, size);
        assert(groups.last() == groups[groups.len() - 1]);
        groups.last().lemma_flat_len(size, size);
        assert(groups.len() * each == (groups.len() - 1) * each + each) by (nonlinear_arith);
    } else {
        assert(groups.len() * each == 0) by (nonlinear_arith)
            requires
                groups.len() == 0,
        ;
    }
}

/// One more group is appended to the flat layout.
proof fn lemma_groups_flat_push<T>(groups: Seq<LinearWeights<T>>, group: LinearWeights<T>)
    ensures
        groups_flat(groups.push(group)) == groups_flat(groups) + group.flat(),
{
    assert(groups.push(group).drop_last() =~= groups);
}

impl<T> OutProjWeights<T> {
    /// A dense projection has a row and equal rows; a block-diagonal one holds
    /// the announced number of square groups.
    pub open spec fn wf(&self) -> bool {
        match self {
            OutProjWeights::Dense(lw) => {
                &&& lw.w@.len() > 0
                &&& rows_width(lw.w@, lw.w@[0]@.len() as int)
            },
            OutProjWeights::BlockDiagonal(bd) => {
                &&& bd.groups@.len() == bd.n_groups
                &&& groups_square(bd.groups@, bd.group_size as int)
            },
        }
    }

    /// The parameters in flat order.
    pub open spec fn flat(&self) -> Seq<T> {
        match self {
            OutProjWeights::Dense(lw) => lw.flat(),
            OutProjWeights::BlockDiagonal(bd) => groups_flat(bd.groups@),
        }
    }

    /// Number of parameters.
    pub open spec fn spec_param_count(&self) -> int {
        match self {
            OutProjWeights::Dense(lw) => (lw.w@.len() * lw.w@[0]@.len() + lw.b@.len()) as int,
            OutProjWeights::BlockDiagonal(bd) => bd.n_groups * (bd.group_size * bd.group_size
                + bd.group_size),
        }
    }

    /// Width of the projection.
    pub open spec fn spec_dim(&self) -> int {
        match self {
            OutProjWeights::Dense(lw) => lw.w@.len() as int,
            OutProjWeights::BlockDiagonal(bd) => bd.n_groups * bd.group_size,
        }
    }

    /// The two projections are of one kind and one size.
    pub open spec fn same_shape(&self, other: &Self) -> bool {
        match (self, other) {
            (OutProjWeights::Dense(a), OutProjWeights::Dense(b)) => {
                &&& a.w@.len() == b.w@.len()
                &&& a.w@[0]@.len() == b.w@[0]@.len()
                &&& a.b@.len() == b.b@.len()
            },
            (OutProjWeights::BlockDiagonal(a), OutProjWeights::BlockDiagonal(b)) => {
                &&& a.n_groups == b.n_groups
                &&& a.group_size == b.group_size
            },
            _ => false,
        }
    }

    /// The parameter count is the length of the flat layout.
    pub proof fn lemma_flat_len(&self)
        requires
            self.wf(),
        ensures
            self.flat().len() == self.spec_param_count(),
    {
        match self {
            OutProjWeights::Dense(lw) => {
                lemma_rows_flat_len(lw.w@, lw.w@[0]@.len() as int);
            },
            OutProjWeights::BlockDiagonal(bd) => {
                lemma_groups_flat_len(bd.groups@, bd.group_size as int);
            },
        }
    }

    /// A dense projection out of its weights and biases.
    pub fn dense(w: Vec<Vec<T>>, b: Vec<T>) -> (proj: Self)
        ensures
            proj == OutProjWeights::Dense((LinearWeights { w, b })),
    {
        OutProjWeights::Dense(LinearWeights { w, b })
    }

    /// The layer inside a dense projection.
    pub fn as_linear(&self) -> (lw: &LinearWeights<T>)
        requires
            self is Dense,
        ensures
            *self == OutProjWeights::Dense(*lw),
    {
        match self {
            OutProjWeights::Dense(lw) => lw,
            OutProjWeights::BlockDiagonal(_) => vstd::pervasive::unreached(),
        }
    }

    /// The layer inside a dense projection, for modification.
    pub fn as_linear_mut(&mut self) -> (lw: &mut LinearWeights<T>)
        requires
            *old(self) is Dense,
        ensures
            *old(self) == OutProjWeights::Dense(*lw),
            *final(self) == OutProjWeights::Dense(*final(lw)),
    {
        match self {
            OutProjWeights::Dense(lw) => lw,
            OutProjWeights::BlockDiagonal(_) => vstd::pervasive::unreached(),
        }
    }

    /// Width of the projection.
    pub fn dim(&self) -> (n: usize)
        requires
            self is BlockDiagonal ==> self->BlockDiagonal_0.n_groups
                * self->BlockDiagonal_0.group_size <= usize::MAX,
        ensures
            n == self.spec_dim(),
    {
        match self {
            OutProjWeights::Dense(lw) => lw.w.len(),
            OutProjWeights::BlockDiagonal(bd) => bd.n_groups * bd.group_size,
        }
    }

    /// Number of independent groups.
    pub fn n_groups(&self) -> (n: usize)
        ensures
            n == (match self {
                OutProjWeights::Dense(_) => 1,
                OutProjWeights::BlockDiagonal(bd) => bd.n_groups as int,
            }),
    {
        match self {
            OutProjWeights::Dense(_) => 1,
            OutProjWeights::BlockDiagonal(bd) => bd.n_groups,
        }
    }

    /// Width of one group.
    pub fn group_size(&self) -> (n: usize)
        ensures
            n == (match self {
                OutProjWeights::Dense(lw) => lw.w@.len() as int,
                OutProjWeights::BlockDiagonal(bd) => bd.group_size as int,
            }),
    {
        match self {
            OutProjWeights::Dense(lw) => lw.w.len(),
            OutProjWeights::BlockDiagonal(bd) => bd.group_size,
        }
    }

    /// Number of parameters, which is the length of the flat layout.
    pub fn param_count(&self) -> (n: usize)
        requires
            self.wf(),
            self.spec_param_count() <= usize::MAX,
        ensures
            n == self.spec_param_count(),
            n == self.flat().len(),
    {
        proof {
            self.lemma_flat_len();
        }
        match self {
            OutProjWeights::Dense(lw) => {
                let rows: usize = lw.w.len();
                let width: usize = lw.w[0].len();
                assert(0 <= rows * width) by (nonlinear_arith);
                rows * width + lw.b.len()
            },
            OutProjWeights::BlockDiagonal(bd) => {
                if bd.n_groups == 0 {
                    assert(0 * (bd.group_size * bd.group_size + bd.group_size) == 0)
                        by (nonlinear_arith);
                    0
                } else {
                    let n: usize = bd.n_groups;
                    let g: usize = bd.group_size;
                    assert(g * g + g <= n * (g * g + g) && 0 <= g * g) by (nonlinear_arith)
                        requires
                            n >= 1,
                            g >= 0,
                    ;
                    n * (g * g + g)
                }
            },
        }
    }
}

impl<T: Copy> OutProjWeights<T> {
    /// Appends the parameters in flat order.
    pub fn flatten_into(&self, out: &mut Vec<T>)
        ensures
            final(out)@ == old(out)@ + self.flat(),
    {
        match self {
            OutProjWeights::Dense(lw) => lw.flatten_into(out),
            OutProjWeights::BlockDiagonal(bd) => {
                let n: usize = bd.groups.len();
                let mut g: usize = 0;
                assert(groups_flat(bd.groups@.subrange(0, 0)) =~= Seq::<T>::empty());
                while g < n
                    invariant
                        n == bd.groups@.len(),
                        g <= n,
                        out@ == old(out)@ + groups_flat(bd.groups@.subrange(0, g as int)),
                    decreases n - g,
                {
                    bd.groups[g].flatten_into(out);
                    g += 1;
                    assert(bd.groups@.subrange(0, g as int).drop_last() =~= bd.groups@.subrange(
                        0,
                        g - 1,
                    ));
                    assert(out@ =~= old(out)@ + groups_flat(bd.groups@.subrange(0, g as int)));
                }
                assert(bd.groups@.subrange(0, n as int) =~= bd.groups@);
            },
        }
    }

    /// Overwrites the parameters with `params` from `offset` on and advances the
    /// offset past them.
    pub fn unflatten_from(&mut self, params: &[T], offset: &mut usize)
        requires
            old(self).wf(),
            *old(offset) + old(self).spec_param_count() <= params@.len(),
        ensures
            final(self).wf(),
            final(self).same_shape(old(self)),
            final(self).spec_param_count() == old(self).spec_param_count(),
            *final(offset) == *old(offset) + old(self).spec_param_count(),
            final(self).flat() == params@.subrange(
                *old(offset) as int,
                *final(offset) as int,
            ),
    {
        let start: usize = *offset;
        let total: usize = params.len();
        match self {
            OutProjWeights::Dense(lw) => {
                let rows: usize = lw.w.len();
                let width: usize = lw.w[0].len();
                let blen: usize = lw.b.len();
                assert(0 <= rows * width) by (nonlinear_arith);
                let w: Vec<Vec<T>> = take_rows(params, start, rows, width);
                let mid: usize = start + rows * width;
                let b: Vec<T> = take(params, mid, blen);
                *offset = mid + blen;
                let fresh = LinearWeights { w, b };
                assert(fresh.flat() =~= params@.subrange(start as int, mid + blen));
                *lw = fresh;
            },
            OutProjWeights::BlockDiagonal(bd) => {
                let n: usize = bd.n_groups;
                let size: usize = bd.group_size;
                let ghost each: int = size * size + size;
                let mut groups: Vec<LinearWeights<T>> = Vec::new();
                let mut g: usize = 0;
                let mut at: usize = start;
                assert(0 <= size * size) by (nonlinear_arith);
                assert(0 * each == 0) by (nonlinear_arith);
                assert(params@.subrange(start as int, start as int) =~= Seq::<T>::empty());
                while g < n
                    invariant
                        total == params@.len(),
                        each == size * size + size,
                        0 <= size * size,
                        start + n * each <= params@.len(),
                        g <= n,
                        at == start + g * each,
                        groups@.len() == g,
                        groups_square(groups@, size as int),
                        groups_flat(groups@) == params@.subrange(start as int, at as int),
                    decreases n - g,
                {
                    assert((g + 1) * each == g * each + each) by (nonlinear_arith);
                    assert((g + 1) * each <= n * each) by (nonlinear_arith)
                        requires
                            g + 1 <= n,
                            each >= 0,
                    ;
                    let group: LinearWeights<T> = LinearWeights::read(params, at, size, size);
                    proof {
                        lemma_groups_flat_push(groups@, group);
                    }
                    let next: usize = at + (size * size + size);
                    assert(params@.subrange(start as int, next as int) =~= params@.subrange(
                        start as int,
                        at as int,
                    ) + group.flat());
                    groups.push(group);
                    at = next;
                    g += 1;
                }
                *offset = at;
                bd.groups = groups;
            },
        }
    }

    /// The weights without the biases, row by row.
    pub fn weights_flat(&self) -> (out: Vec<T>)
        ensures
            out@ == (match self {
                OutProjWeights::Dense(lw) => rows_flat(lw.w@),
                OutProjWeights::BlockDiagonal(bd) => groups_weights(bd.groups@),
            }),
    {
        let mut out: Vec<T> = Vec::new();
        match self {
            OutProjWeights::Dense(lw) => {
                extend_rows(&mut out, &lw.w);
                assert(out@ =~= rows_flat(lw.w@));
            },
            OutProjWeights::BlockDiagonal(bd) => {
                let n: usize = bd.groups.len();
                let mut g: usize = 0;
                assert(groups_weights(bd.groups@.subrange(0, 0)) =~= Seq::<T>::empty());
                while g < n
                    invariant
                        n == bd.groups@.len(),
                        g <= n,
                        out@ == groups_weights(bd.groups@.subrange(0, g as int)),
                    decreases n - g,
                {
                    extend_rows(&mut out, &bd.groups[g].w);
                    g += 1;
                    assert(bd.groups@.subrange(0, g as int).drop_last() =~= bd.groups@.subrange(
                        0,
                        g - 1,
                    ));
                }
                assert(bd.groups@.subrange(0, n as int) =~= bd.groups@);
            },
        }
        out
    }

    /// The biases alone.
    pub fn bias_flat(&self) -> (out: Vec<T>)
        ensures
            out@ == (match self {
                OutProjWeights::Dense(lw) => lw.b@,
                OutProjWeights::BlockDiagonal(bd) => groups_biases(bd.groups@),
            }),
    {
        let mut out: Vec<T> = Vec::new();
        match self {
            OutProjWeights::Dense(lw) => {
                extend_from(&mut out, &lw.b);
                assert(out@ =~= lw.b@);
            },
            OutProjWeights::BlockDiagonal(bd) => {
                let n: usize = bd.groups.len();
                let mut g: usize = 0;
                assert(groups_biases(bd.groups@.subrange(0, 0)) =~= Seq::<T>::empty());
                while g < n
                    invariant
                        n == bd.groups@.len(),
                        g <= n,
                        out@ == groups_biases(bd.groups@.subrange(0, g as int)),
                    decreases n - g,
                {
                    extend_from(&mut out, &bd.groups[g].b);
                    g += 1;
                    assert(bd.groups@.subrange(0, g as int).drop_last() =~= bd.groups@.subrange(
                        0,
                        g - 1,
                    ));
                }
                assert(bd.groups@.subrange(0, n as int) =~= bd.groups@);
            },
        }
        out
    }
}

} // verus!
