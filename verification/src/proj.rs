//! The output projection: what it computes, and its gradients.

use vstd::prelude::*;
use crate::arith::{Arith, Traced, TracedVec, dot, total};
#[allow(unused_imports)]
use crate::arith::{Expr, dot_of, fits, fits_all, total_of, val, vals, zero};
use crate::attention::stretch;
#[allow(unused_imports)]
use crate::attention::rows_fit;
use crate::layers::{linear_on, score, traced};
#[allow(unused_imports)]
use crate::layers::linear_of;
#[allow(unused_imports)]
use crate::seqs::rows_width;
use crate::weights::{LinearWeights, OutProjWeights};

verus! {

/// Component `i` of a block-diagonal projection: the products of a row of its group with
/// the group's part of the input, added to the bias; zero beyond the groups.
pub open spec fn grouped_entry<T>(
    groups: Seq<LinearWeights<T>>,
    size: int,
    x: Seq<Expr<T>>,
    i: int,
) -> Expr<T> {
    if 0 <= i < groups.len() * size {
        let g = i / size;
        dot_of(
            val(groups[g].b@[i % size]),
            vals(groups[g].w@[i % size]@),
            x.subrange(g * size, g * size + size),
        )
    } else {
        zero()
    }
}

/// What a projection makes of `x`.
pub open spec fn proj_of<T>(p: OutProjWeights<T>, x: Seq<Expr<T>>) -> Seq<Expr<T>> {
    match p {
        OutProjWeights::Dense(lw) => linear_of(lw.w@, lw.b@, x),
        OutProjWeights::BlockDiagonal(bd) => Seq::new(
            x.len(),
            |i: int| grouped_entry(bd.groups@, bd.group_size as int, x, i),
        ),
    }
}

/// A projection that `n` components can go through.
pub open spec fn proj_takes<T>(p: OutProjWeights<T>, n: int) -> bool {
    match p {
        OutProjWeights::Dense(lw) => lw.w@.len() <= lw.b@.len() && rows_width(lw.w@, n),
        OutProjWeights::BlockDiagonal(bd) => {
            &&& forall|g: int|
                0 <= g < bd.groups@.len() ==> (#[trigger] bd.groups@[g]).shaped(
                    bd.group_size as int,
                    bd.group_size as int,
                )
            &&& bd.groups@.len() * bd.group_size <= n
        },
    }
}

proof fn lemma_in_group(g: int, size: int, i: int, groups: int)
    requires
        0 <= g < groups,
        0 <= i < size,
    ensures
        (g * size + i) / size == g,
        (g * size + i) % size == i,
        0 <= g * size,
        g * size + size <= groups * size,
{
    vstd::arithmetic::div_mod::lemma_fundamental_div_mod_converse(g * size + i, size, g, i);
    assert(g * size + size <= groups * size && 0 <= g * size) by (nonlinear_arith)
        requires
            0 <= g < groups,
            0 < size,
    ;
}

/// A projection, traced.
pub fn proj_on<T: Copy, A: Arith<T>>(ops: &A, p: &OutProjWeights<T>, x: &TracedVec<T>) -> (out:
    TracedVec<T>)
    requires
        x.ok(*ops),
        proj_takes(*p, x.v@.len() as int),
    ensures
        out.ok(*ops),
        out.e@ == proj_of(*p, x.e@),
{
    match p {
        OutProjWeights::Dense(lw) => linear_on(ops, &lw.w, &lw.b, x),
        OutProjWeights::BlockDiagonal(bd) => {
            let n: usize = x.len();
            let size: usize = bd.group_size;
            let groups: usize = bd.groups.len();
            let ghost es = proj_of(*p, x.e@);
            let mut out: TracedVec<T> = TracedVec::new(ops);
            let mut g: usize = 0;
            assert(out.e@ =~= es.take(0));
            while g < groups
                invariant
                    x.ok(*ops),
                    n == x.v@.len(),
                    *p == OutProjWeights::BlockDiagonal(*bd),
                    proj_takes(*p, n as int),
                    size == bd.group_size,
                    groups == bd.groups@.len(),
                    es == proj_of(*p, x.e@),
                    g <= groups,
                    g * size <= n,
                    out.ok(*ops),
                    out.e@ == es.take(g * size),
                decreases groups - g,
            {
                assert(bd.groups@[g as int].shaped(size as int, size as int));
                assert((g + 1) * size == g * size + size) by (nonlinear_arith);
                assert((g + 1) * size <= groups * size) by (nonlinear_arith)
                    requires
                        g + 1 <= groups,
                ;
                let start: usize = g * size;
                let part: TracedVec<T> = stretch(ops, x, start, size);
                let group: &LinearWeights<T> = &bd.groups[g];
                let mut i: usize = 0;
                while i < size
                    invariant
                        x.ok(*ops),
                        n == x.v@.len(),
                        *p == OutProjWeights::BlockDiagonal(*bd),
                        size == bd.group_size,
                        groups == bd.groups@.len(),
                        groups * size <= n,
                        es == proj_of(*p, x.e@),
                        g < groups,
                        start == g * size,
                        start + size <= n,
                        *group == bd.groups@[g as int],
                        group.shaped(size as int, size as int),
                        part.ok(*ops),
                        part.e@ == x.e@.subrange(start as int, start + size),
                        i <= size,
                        out.ok(*ops),
                        out.e@ == es.take(start + i),
                    decreases size - i,
                {
                    assert(group.w@[i as int]@.len() == size);
                    let row: TracedVec<T> = traced(ops, &group.w[i]);
                    let y: Traced<T> = dot(ops, Traced::of(ops, group.b[i]), &row, &part);
                    proof {
                        lemma_in_group(g as int, size as int, i as int, groups as int);
                        assert(es[start + i] == y.e@);
                    }
                    out.push(ops, y);
                    i += 1;
                    assert(out.e@ =~= es.take(start + i));
                }
                g += 1;
            }
            let mut k: usize = groups * size;
            while k < n
                invariant
                    x.ok(*ops),
                    n == x.v@.len(),
                    *p == OutProjWeights::BlockDiagonal(*bd),
                    size == bd.group_size,
                    groups == bd.groups@.len(),
                    es == proj_of(*p, x.e@),
                    groups * size <= k <= n,
                    out.ok(*ops),
                    out.e@ == es.take(k as int),
                decreases n - k,
            {
                out.push(ops, Traced::ratio(ops, 0, 1));
                k += 1;
                assert(out.e@ =~= es.take(k as int));
            }
            assert(es.take(n as int) =~= es);
            out
        },
    }
}

/// A column of a matrix.
pub open spec fn column_vals<T>(rows: Seq<Vec<T>>, j: int) -> Seq<T> {
    Seq::new(rows.len(), |i: int| rows[i]@[j])
}

/// A column of the first rows of a matrix.
pub fn matrix_column<T: Copy>(rows: &Vec<Vec<T>>, upto: usize, j: usize) -> (out: Vec<T>)
    requires
        upto <= rows@.len(),
        forall|i: int| 0 <= i < upto ==> j < (#[trigger] rows@[i])@.len(),
    ensures
        out@ == column_vals(rows@.take(upto as int), j as int),
{
    let mut out: Vec<T> = Vec::new();
    let mut i: usize = 0;
    while i < upto
        invariant
            upto <= rows@.len(),
            forall|i: int| 0 <= i < upto ==> j < (#[trigger] rows@[i])@.len(),
            i <= upto,
            out@ == column_vals(rows@.take(upto as int), j as int).take(i as int),
        decreases upto - i,
    {
        assert(j < rows@[i as int]@.len());
        let row: &Vec<T> = &rows[i];
        out.push(row[j]);
        i += 1;
        assert(out@ =~= column_vals(rows@.take(upto as int), j as int).take(i as int));
    }
    assert(out@ =~= column_vals(rows@.take(upto as int), j as int));
    out
}

/// Component `j` of a matrix's transpose applied to `d_y`, added up from zero.
pub open spec fn transposed_entry<T>(w: Seq<Vec<T>>, d_y: Seq<T>, j: int) -> Expr<T> {
    dot_of(zero(), vals(column_vals(w, j)), vals(d_y))
}

/// The gradient of a projection's input.
pub open spec fn dx_of<T>(p: OutProjWeights<T>, d_y: Seq<T>) -> Seq<Expr<T>> {
    match p {
        OutProjWeights::Dense(lw) => Seq::new(
            lw.w@[0]@.len(),
            |j: int| transposed_entry(lw.w@, d_y, j),
        ),
        OutProjWeights::BlockDiagonal(bd) => Seq::new(
            (bd.n_groups * bd.group_size) as nat,
            |j: int|
                {
                    let size = bd.group_size as int;
                    let g = j / size;
                    transposed_entry(
                        bd.groups@[g].w@,
                        d_y.subrange(g * size, g * size + size),
                        j % size,
                    )
                },
        ),
    }
}

/// The gradients of a projection's weights: over all positions, output times input.
pub open spec fn dw_entry<T>(d_y: Seq<Vec<T>>, x: Seq<Vec<T>>, i: int, j: int) -> Expr<T> {
    dot_of(
        zero(),
        vals(column_vals(d_y, i)),
        vals(column_vals(x.take(d_y.len() as int), j)),
    )
}

/// A projection that gradients of `n` outputs can go back through.
pub open spec fn dx_takes<T>(p: OutProjWeights<T>, n: int) -> bool {
    match p {
        OutProjWeights::Dense(lw) => lw.w@.len() <= n,
        OutProjWeights::BlockDiagonal(bd) => bd.n_groups * bd.group_size <= n,
    }
}

/// The gradient of a projection's input, traced.
pub fn dx_on<T: Copy, A: Arith<T>>(ops: &A, p: &OutProjWeights<T>, d_y: &[T]) -> (out: TracedVec<T>)
    requires
        p.wf(),
        dx_takes(*p, d_y@.len() as int),
    ensures
        out.ok(*ops),
        out.e@ == dx_of(*p, d_y@),
{
    let total_len: usize = d_y.len();
    let ghost es = dx_of(*p, d_y@);
    let mut out: TracedVec<T> = TracedVec::new(ops);
    assert(out.e@ =~= es.take(0));
    match p {
        OutProjWeights::Dense(lw) => {
            let dy: TracedVec<T> = traced(ops, d_y);
            let m: usize = lw.w[0].len();
            let mut j: usize = 0;
            while j < m
                invariant
                    *p == OutProjWeights::Dense(*lw),
                    p.wf(),
                    lw.w@.len() <= d_y@.len(),
                    m == lw.w@[0]@.len(),
                    dy.ok(*ops),
                    dy.e@ == vals(d_y@),
                    es == dx_of(*p, d_y@),
                    j <= m,
                    out.ok(*ops),
                    out.e@ == es.take(j as int),
                decreases m - j,
            {
                assert forall|i: int| 0 <= i < lw.w@.len() implies j < (
                #[trigger] lw.w@[i])@.len() by {}
                assert(lw.w@.take(lw.w@.len() as int) =~= lw.w@);
                let col: TracedVec<T> = TracedVec::of(ops, matrix_column(&lw.w, lw.w.len(), j));
                out.push(ops, score(ops, &col, &dy));
                j += 1;
                assert(out.e@ =~= es.take(j as int));
            }
            assert(es.take(m as int) =~= es);
        },
        OutProjWeights::BlockDiagonal(bd) => {
            let size: usize = bd.group_size;
            let groups: usize = bd.n_groups;
            let mut g: usize = 0;
            while g < groups
                invariant
                    *p == OutProjWeights::BlockDiagonal(*bd),
                    p.wf(),
                    size == bd.group_size,
                    groups == bd.n_groups,
                    groups * size <= total_len,
                    total_len == d_y@.len(),
                    es == dx_of(*p, d_y@),
                    g <= groups,
                    out.ok(*ops),
                    out.e@ == es.take(g * size),
                decreases groups - g,
            {
                assert(bd.groups@[g as int].shaped(size as int, size as int));
                assert((g + 1) * size == g * size + size) by (nonlinear_arith);
                assert((g + 1) * size <= groups * size) by (nonlinear_arith)
                    requires
                        g + 1 <= groups,
                ;
                assert(0 <= g * size) by (nonlinear_arith);
                let start: usize = g * size;
                let part: TracedVec<T> = TracedVec::of(ops, crate::seqs::take(d_y, start, size));
                let group: &LinearWeights<T> = &bd.groups[g];
                let mut j: usize = 0;
                while j < size
                    invariant
                        *p == OutProjWeights::BlockDiagonal(*bd),
                        size == bd.group_size,
                        groups == bd.n_groups,
                        bd.groups@.len() == groups,
                        es == dx_of(*p, d_y@),
                        g < groups,
                        start == g * size,
                        start + size <= groups * size,
                        *group == bd.groups@[g as int],
                        group.shaped(size as int, size as int),
                        part.ok(*ops),
                        part.e@ == vals(d_y@.subrange(start as int, start + size)),
                        start + size <= d_y@.len(),
                        j <= size,
                        out.ok(*ops),
                        out.e@ == es.take(start + j),
                    decreases size - j,
                {
                    assert forall|i: int| 0 <= i < group.w@.len() implies j < (
                    #[trigger] group.w@[i])@.len() by {}
                    assert(group.w@.take(size as int) =~= group.w@);
                    let col: TracedVec<T> = TracedVec::of(ops, matrix_column(&group.w, size, j));
                    let y: Traced<T> = score(ops, &col, &part);
                    proof {
                        lemma_in_group(g as int, size as int, j as int, groups as int);
                        assert(es[start + j] == y.e@);
                    }
                    out.push(ops, y);
                    j += 1;
                    assert(out.e@ =~= es.take(start + j));
                }
                g += 1;
            }
            assert(es.take(groups * size) =~= es);
        },
    }
    out
}

impl<T: Copy> OutProjWeights<T> {
    /// Projects a vector.
    pub fn forward<A: Arith<T>>(&self, ops: &A, x: &[T]) -> (out: Vec<T>)
        requires
            proj_takes(*self, x@.len() as int),
        ensures
            fits_all(*ops, proj_of(*self, vals(x@)), out@),
    {
        proj_on(ops, self, &traced(ops, x)).v
    }

    /// Projects vectors one by one.
    pub fn forward_batch<A: Arith<T>>(&self, ops: &A, xs: &Vec<Vec<T>>) -> (out: Vec<Vec<T>>)
        requires
            forall|i: int|
                0 <= i < xs@.len() ==> proj_takes(*self, (#[trigger] xs@[i])@.len() as int),
        ensures
            rows_fit(*ops, Seq::new(xs@.len(), |i: int| proj_of(*self, vals(xs@[i]@))), out@),
    {
        let n: usize = xs.len();
        let mut out: Vec<Vec<T>> = Vec::new();
        let mut i: usize = 0;
        while i < n
            invariant
                n == xs@.len(),
                forall|i: int|
                    0 <= i < xs@.len() ==> proj_takes(*self, (#[trigger] xs@[i])@.len() as int),
                i <= n,
                out@.len() == i,
                forall|k: int|
                    0 <= k < i ==> fits_all(
                        *ops,
                        proj_of(*self, vals(xs@[k]@)),
                        (#[trigger] out@[k])@,
                    ),
            decreases n - i,
        {
            assert(proj_takes(*self, xs@[i as int]@.len() as int));
            let y: Vec<T> = self.forward(ops, &xs[i]);
            out.push(y);
            i += 1;
        }
        out
    }

    /// The gradient of the input, out of that of the output.
    pub fn backward_dx<A: Arith<T>>(&self, ops: &A, d_y: &[T]) -> (dx: Vec<T>)
        requires
            self.wf(),
            dx_takes(*self, d_y@.len() as int),
        ensures
            fits_all(*ops, dx_of(*self, d_y@), dx@),
    {
        dx_on(ops, self, d_y).v
    }

    /// The gradients of weights and biases, added up over the positions.
    pub fn backward_dw_db<A: Arith<T>>(
        &self,
        ops: &A,
        d_y: &Vec<Vec<T>>,
        x: &Vec<Vec<T>>,
    ) -> (grads: (Vec<Vec<T>>, Vec<T>))
        requires
            match *self {
                OutProjWeights::Dense(lw) => true,
                OutProjWeights::BlockDiagonal(bd) => bd.n_groups * bd.group_size <= usize::MAX,
            },
            d_y@.len() <= x@.len(),
            forall|p: int|
                0 <= p < d_y@.len() ==> self.spec_dim() <= (#[trigger] d_y@[p])@.len(),
            forall|p: int| 0 <= p < d_y@.len() ==> self.spec_dim() <= (#[trigger] x@[p])@.len(),
        ensures
            rows_fit(
                *ops,
                Seq::new(
                    self.spec_dim() as nat,
                    |i: int|
                        Seq::new(self.spec_dim() as nat, |j: int| dw_entry(d_y@, x@, i, j)),
                ),
                grads.0@,
            ),
            fits_all(
                *ops,
                Seq::new(self.spec_dim() as nat, |i: int| total_of(vals(column_vals(d_y@, i)))),
                grads.1@,
            ),
    {
        let dim: usize = self.dim();
        let count: usize = d_y.len();
        let mut d_w: Vec<Vec<T>> = Vec::new();
        let mut d_b: Vec<T> = Vec::new();
        let mut i: usize = 0;
        while i < dim
            invariant
                dim == self.spec_dim(),
                count == d_y@.len(),
                d_y@.len() <= x@.len(),
                forall|p: int|
                    0 <= p < d_y@.len() ==> self.spec_dim() <= (#[trigger] d_y@[p])@.len(),
                forall|p: int| 0 <= p < d_y@.len() ==> self.spec_dim() <= (#[trigger] x@[p])@.len(),
                i <= dim,
                d_w@.len() == i,
                d_b@.len() == i,
                forall|k: int|
                    0 <= k < i ==> fits_all(
                        *ops,
                        Seq::new(dim as nat, |j: int| dw_entry(d_y@, x@, k, j)),
                        (#[trigger] d_w@[k])@,
                    ),
                forall|k: int|
                    0 <= k < i ==> fits(
                        *ops,
                        total_of(vals(column_vals(d_y@, k))),
                        #[trigger] d_b@[k],
                    ),
            decreases dim - i,
        {
            assert forall|p: int| 0 <= p < count implies i < (#[trigger] d_y@[p])@.len() by {}
            assert(d_y@.take(count as int) =~= d_y@);
            let col: TracedVec<T> = TracedVec::of(ops, matrix_column(d_y, count, i));
            let ghost es = Seq::new(dim as nat, |j: int| dw_entry(d_y@, x@, i as int, j));
            let mut row: TracedVec<T> = TracedVec::new(ops);
            let mut j: usize = 0;
            assert(row.e@ =~= es.take(0));
            while j < dim
                invariant
                    dim == self.spec_dim(),
                    count == d_y@.len(),
                    d_y@.len() <= x@.len(),
                    forall|p: int|
                        0 <= p < d_y@.len() ==> self.spec_dim() <= (#[trigger] x@[p])@.len(),
                    i < dim,
                    col.ok(*ops),
                    col.v@.len() == d_y@.len(),
                    col.e@ == vals(column_vals(d_y@, i as int)),
                    es == Seq::new(dim as nat, |j: int| dw_entry(d_y@, x@, i as int, j)),
                    j <= dim,
                    row.ok(*ops),
                    row.e@ == es.take(j as int),
                decreases dim - j,
            {
                assert forall|p: int| 0 <= p < count implies j < (#[trigger] x@[p])@.len() by {}
                let other: TracedVec<T> = TracedVec::of(ops, matrix_column(x, count, j));
                row.push(ops, score(ops, &col, &other));
                j += 1;
                assert(row.e@ =~= es.take(j as int));
            }
            assert(es.take(dim as int) =~= es);
            let sum: Traced<T> = total(ops, &col);
            d_w.push(row.v);
            d_b.push(sum.v);
            i += 1;
        }
        (d_w, d_b)
    }
}

} // verus!
