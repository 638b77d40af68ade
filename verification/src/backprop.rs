//! The way back through the feed-forward part: gradients of its input and of its weights.

use vstd::prelude::*;
use crate::arith::{Arith, Traced, TracedVec, dot, sum_from, total};
#[allow(unused_imports)]
use crate::arith::{
    Binary, Expr, Unary, dot_of, fits_all, fold_of, minus, one, plus, times, total_of, un, val, vals,
    zero,
};
use crate::attention::{column, traced_rows, untraced_rows};
#[allow(unused_imports)]
use crate::attention::{column_of, formulas, rows_fit, rows_ok, rows_vals};
use crate::layers::{score, sums_on, traced};
#[allow(unused_imports)]
use crate::layers::{maestro_shaped, sums_of};
use crate::proj::{dx_on, matrix_column};
#[allow(unused_imports)]
use crate::proj::{column_vals, dw_entry, dx_of};
#[allow(unused_imports)]
use crate::seqs::rows_width;
use crate::weights::{KerrDualMaestroWeights, MaestroWeights, OutProjWeights};

verus! {

/// The transpose of a table applied to formulas: component `j` adds up over the rows from
/// zero.
pub open spec fn transposed_of<T>(w: Seq<Vec<T>>, d: Seq<Expr<T>>, n: int) -> Seq<Expr<T>> {
    Seq::new(n as nat, |j: int| dot_of(zero(), vals(column_vals(w, j)), d))
}

/// The transpose of a table applied to formulas, traced.
pub fn transposed_on<T: Copy, A: Arith<T>>(
    ops: &A,
    w: &Vec<Vec<T>>,
    d: &TracedVec<T>,
    n: usize,
) -> (out: TracedVec<T>)
    requires
        d.ok(*ops),
        w@.len() <= d.v@.len(),
        rows_width(w@, n as int),
    ensures
        out.ok(*ops),
        out.e@ == transposed_of(w@, d.e@, n as int),
{
    let rows: usize = w.len();
    let ghost es = transposed_of(w@, d.e@, n as int);
    let mut out: TracedVec<T> = TracedVec::new(ops);
    let mut j: usize = 0;
    assert(out.e@ =~= es.take(0));
    while j < n
        invariant
            d.ok(*ops),
            rows == w@.len(),
            rows <= d.v@.len(),
            rows_width(w@, n as int),
            es == transposed_of(w@, d.e@, n as int),
            j <= n,
            out.ok(*ops),
            out.e@ == es.take(j as int),
        decreases n - j,
    {
        assert forall|i: int| 0 <= i < rows implies j < (#[trigger] w@[i])@.len() by {}
        assert(w@.take(rows as int) =~= w@);
        let col: TracedVec<T> = TracedVec::of(ops, matrix_column(w, rows, j));
        out.push(ops, score(ops, &col, d));
        j += 1;
        assert(out.e@ =~= es.take(j as int));
    }
    assert(es.take(n as int) =~= es);
    out
}

/// Gradients of products: entry `(i, j)` adds, over the positions, `a`'s entry `i` times
/// `b`'s entry `j` to `start`'s entry.
pub open spec fn outer_entry<T>(
    start: Expr<T>,
    a: Seq<Seq<Expr<T>>>,
    b: Seq<Seq<Expr<T>>>,
    i: int,
    j: int,
) -> Expr<T> {
    dot_of(start, column_of(a, i), column_of(b, j))
}

/// The gradients of a table: output times input, over the positions.
pub open spec fn outer_of<T>(
    start: Seq<Seq<Expr<T>>>,
    a: Seq<Seq<Expr<T>>>,
    b: Seq<Seq<Expr<T>>>,
    cols: int,
) -> Seq<Seq<Expr<T>>> {
    Seq::new(
        start.len(),
        |i: int| Seq::new(cols as nat, |j: int| outer_entry(start[i][j], a, b, i, j)),
    )
}

/// The gradients of biases: outputs, over the positions.
pub open spec fn grown_of<T>(start: Seq<Expr<T>>, a: Seq<Seq<Expr<T>>>) -> Seq<Expr<T>> {
    Seq::new(start.len(), |i: int| fold_of(Binary::Plus, start[i], column_of(a, i)))
}

/// Adds the gradients of a table to those that are there, traced.
pub fn outer_on<T: Copy, A: Arith<T>>(
    ops: &A,
    start: &Vec<TracedVec<T>>,
    a: &Vec<TracedVec<T>>,
    b: &Vec<TracedVec<T>>,
    rows: usize,
    cols: usize,
) -> (out: Vec<Vec<T>>)
    requires
        start@.len() == rows,
        rows_ok(*ops, start@, cols as int),
        a@.len() == b@.len(),
        rows_ok(*ops, a@, rows as int),
        rows_ok(*ops, b@, cols as int),
    ensures
        rows_fit(*ops, outer_of(formulas(start@), formulas(a@), formulas(b@), cols as int), out@),
        rows_width(out@, cols as int),
{
    let t: usize = a.len();
    let ghost want = outer_of(formulas(start@), formulas(a@), formulas(b@), cols as int);
    assert(formulas(a@).take(t as int) =~= formulas(a@));
    assert(formulas(b@).take(t as int) =~= formulas(b@));
    let mut out: Vec<Vec<T>> = Vec::new();
    let mut i: usize = 0;
    while i < rows
        invariant
            start@.len() == rows,
            rows_ok(*ops, start@, cols as int),
            t == a@.len(),
            t == b@.len(),
            rows_ok(*ops, a@, rows as int),
            rows_ok(*ops, b@, cols as int),
            formulas(a@).take(t as int) == formulas(a@),
            formulas(b@).take(t as int) == formulas(b@),
            want == outer_of(formulas(start@), formulas(a@), formulas(b@), cols as int),
            i <= rows,
            out@.len() == i,
            rows_width(out@, cols as int),
            forall|k: int| 0 <= k < i ==> fits_all(*ops, want[k], (#[trigger] out@[k])@),
        decreases rows - i,
    {
        assert(start@[i as int].ok(*ops));
        let from: &TracedVec<T> = &start[i];
        let left: TracedVec<T> = column(ops, a, t, i, Ghost(rows as int));
        let mut row: TracedVec<T> = TracedVec::new(ops);
        let mut j: usize = 0;
        assert(row.e@ =~= want[i as int].take(0));
        while j < cols
            invariant
                i < rows,
                start@.len() == rows,
                *from == start@[i as int],
                from.ok(*ops),
                from.v@.len() == cols,
                t == a@.len(),
                t == b@.len(),
                rows_ok(*ops, b@, cols as int),
                formulas(b@).take(t as int) == formulas(b@),
                left.ok(*ops),
                left.v@.len() == t,
                left.e@ == column_of(formulas(a@), i as int),
                want == outer_of(formulas(start@), formulas(a@), formulas(b@), cols as int),
                j <= cols,
                row.ok(*ops),
                row.e@ == want[i as int].take(j as int),
            decreases cols - j,
        {
            let right: TracedVec<T> = column(ops, b, t, j, Ghost(cols as int));
            row.push(ops, dot(ops, from.get(ops, j), &left, &right));
            j += 1;
            assert(row.e@ =~= want[i as int].take(j as int));
        }
        assert(want[i as int].take(cols as int) =~= want[i as int]);
        out.push(row.v);
        i += 1;
    }
    out
}

/// Adds the gradients of biases to those that are there, traced.
pub fn grown_on<T: Copy, A: Arith<T>>(
    ops: &A,
    start: &TracedVec<T>,
    a: &Vec<TracedVec<T>>,
    n: usize,
) -> (out: Vec<T>)
    requires
        start.ok(*ops),
        start.v@.len() == n,
        rows_ok(*ops, a@, n as int),
    ensures
        fits_all(*ops, grown_of(start.e@, formulas(a@)), out@),
{
    let t: usize = a.len();
    let ghost want = grown_of(start.e@, formulas(a@));
    assert(formulas(a@).take(t as int) =~= formulas(a@));
    let mut out: TracedVec<T> = TracedVec::new(ops);
    let mut i: usize = 0;
    assert(out.e@ =~= want.take(0));
    while i < n
        invariant
            start.ok(*ops),
            start.v@.len() == n,
            t == a@.len(),
            rows_ok(*ops, a@, n as int),
            formulas(a@).take(t as int) == formulas(a@),
            want == grown_of(start.e@, formulas(a@)),
            i <= n,
            out.ok(*ops),
            out.e@ == want.take(i as int),
        decreases n - i,
    {
        let col: TracedVec<T> = column(ops, a, t, i, Ghost(n as int));
        out.push(ops, sum_from(ops, start.get(ops, i), &col));
        i += 1;
        assert(out.e@ =~= want.take(i as int));
    }
    assert(want.take(n as int) =~= want);
    out.v
}

/// Rows of zeros.
pub open spec fn zero_rows<T>(rows: int, cols: int) -> Seq<Seq<Expr<T>>> {
    Seq::new(rows as nat, |i: int| Seq::new(cols as nat, |j: int| zero::<T>()))
}

/// Rows of zeros, traced.
pub fn zero_rows_on<T: Copy, A: Arith<T>>(ops: &A, rows: usize, cols: usize) -> (out: Vec<
    TracedVec<T>,
>)
    ensures
        out@.len() == rows,
        rows_ok(*ops, out@, cols as int),
        formulas(out@) == zero_rows::<T>(rows as int, cols as int),
{
    let mut out: Vec<TracedVec<T>> = Vec::new();
    let mut i: usize = 0;
    assert(formulas(out@) =~= zero_rows::<T>(0, cols as int));
    while i < rows
        invariant
            i <= rows,
            out@.len() == i,
            rows_ok(*ops, out@, cols as int),
            formulas(out@) == zero_rows::<T>(i as int, cols as int),
        decreases rows - i,
    {
        let row: TracedVec<T> = TracedVec::zeros(ops, cols);
        let ghost before = formulas(out@);
        out.push(row);
        i += 1;
        assert(formulas(out@) =~= before.push(row.e@));
        assert(formulas(out@) =~= zero_rows::<T>(i as int, cols as int));
    }
    out
}

/// The root of two over pi, as the way back takes it.
pub open spec fn bend<T>() -> Expr<T> {
    Expr::Ratio(7978845608, 10000000000)
}

/// The share of the cube in the activation.
pub open spec fn cubic<T>() -> Expr<T> {
    Expr::Ratio(44715, 1000000)
}

/// The hyperbolic tangent in the activation of `x`.
pub open spec fn bent<T>(x: Expr<T>) -> Expr<T> {
    un(
        Unary::Tanh,
        times(bend(), plus(x, times(times(times(cubic(), x), x), x))),
    )
}

/// The slope of the activation at `x`.
pub open spec fn gelu_slope<T>(x: Expr<T>) -> Expr<T> {
    let th = bent(x);
    let sech2 = minus(one(), times(th, th));
    let inner = times(
        bend(),
        plus(one(), times(times(times(Expr::Ratio(3, 1), cubic()), x), x)),
    );
    plus(
        times(Expr::Ratio(1, 2), plus(one(), th)),
        times(times(times(Expr::Ratio(1, 2), x), sech2), inner),
    )
}

fn gelu_slope_on<T: Copy, A: Arith<T>>(ops: &A, x: Traced<T>) -> (out: Traced<T>)
    requires
        x.ok(*ops),
    ensures
        out.ok(*ops),
        out.e@ == gelu_slope(x.e@),
{
    let c: Traced<T> = Traced::ratio(ops, 7978845608, 10000000000);
    let share: Traced<T> = Traced::ratio(ops, 44715, 1000000);
    let unit: Traced<T> = Traced::ratio(ops, 1, 1);
    let half: Traced<T> = Traced::ratio(ops, 1, 2);
    let third: Traced<T> = share.times(ops, x).times(ops, x).times(ops, x);
    let th: Traced<T> = c.times(ops, x.plus(ops, third)).tanh(ops);
    let sech2: Traced<T> = unit.minus(ops, th.times(ops, th));
    let square: Traced<T> = Traced::ratio(ops, 3, 1).times(ops, share).times(ops, x).times(ops, x);
    let inner: Traced<T> = c.times(ops, unit.plus(ops, square));
    half.times(ops, unit.plus(ops, th)).plus(
        ops,
        half.times(ops, x).times(ops, sech2).times(ops, inner),
    )
}

/// The gradients of a regulator's squeezed values: those of its activations, times the
/// slope there.
pub open spec fn squeezed_grads<T>(m: MaestroWeights<T>, d: Seq<Expr<T>>, sq: Seq<T>) -> Seq<
    Expr<T>,
> {
    let d_act = transposed_of(m.process_1.w@, d, m.squeeze.w@.len() as int);
    Seq::new(
        m.squeeze.w@.len(),
        |i: int| times(d_act[i], gelu_slope(val(sq[i]))),
    )
}

/// The gradients of a regulator's input, where its output is added to the input.
pub open spec fn regulator_back<T>(m: MaestroWeights<T>, d: Seq<Expr<T>>, sq: Seq<T>) -> Seq<
    Expr<T>,
> {
    sums_of(transposed_of(m.squeeze.w@, squeezed_grads(m, d, sq), d.len() as int), d)
}

/// The gradients of a regulator's weights.
pub struct MaestroGrads<T> {
    pub sq_w: Vec<Vec<T>>,
    pub sq_b: Vec<T>,
    pub pr_w: Vec<Vec<T>>,
    pub pr_b: Vec<T>,
}

/// Gradients of a regulator with `n` inputs and `narrow` squeezed values.
pub open spec fn maestro_grads_shaped<T>(g: MaestroGrads<T>, n: int, narrow: int) -> bool {
    &&& g.sq_w@.len() == narrow
    &&& rows_width(g.sq_w@, n)
    &&& g.sq_b@.len() == narrow
    &&& g.pr_w@.len() == n
    &&& rows_width(g.pr_w@, narrow)
    &&& g.pr_b@.len() == n
}

/// What the gradients of a regulator's weights are added to.
pub struct MaestroStart<T> {
    pub sq_w: Seq<Seq<Expr<T>>>,
    pub sq_b: Seq<Expr<T>>,
    pub pr_w: Seq<Seq<Expr<T>>>,
    pub pr_b: Seq<Expr<T>>,
}

/// Gradients that are there already.
pub open spec fn held<T>(g: MaestroGrads<T>) -> MaestroStart<T> {
    MaestroStart {
        sq_w: rows_vals(g.sq_w@),
        sq_b: vals(g.sq_b@),
        pr_w: rows_vals(g.pr_w@),
        pr_b: vals(g.pr_b@),
    }
}

/// No gradients as yet, of a regulator with `n` inputs and `narrow` squeezed values.
pub open spec fn nothing<T>(n: int, narrow: int) -> MaestroStart<T> {
    MaestroStart {
        sq_w: zero_rows(narrow, n),
        sq_b: Seq::new(narrow as nat, |i: int| zero::<T>()),
        pr_w: zero_rows(n, narrow),
        pr_b: Seq::new(n as nat, |i: int| zero::<T>()),
    }
}

/// The gradients of a regulator's weights, added to `before`: `d` holds the gradients of its
/// output, `d_sq` those of its squeezed values, `act` its activations and `x` its inputs.
pub open spec fn maestro_grads_fit<T: Copy, A: Arith<T>>(
    ops: A,
    before: MaestroStart<T>,
    after: MaestroGrads<T>,
    d: Seq<Seq<Expr<T>>>,
    d_sq: Seq<Seq<Expr<T>>>,
    act: Seq<Seq<Expr<T>>>,
    x: Seq<Seq<Expr<T>>>,
    n: int,
    narrow: int,
) -> bool {
    &&& rows_fit(ops, outer_of(before.pr_w, d, act, narrow), after.pr_w@)
    &&& fits_all(ops, grown_of(before.pr_b, d), after.pr_b@)
    &&& rows_fit(ops, outer_of(before.sq_w, d_sq, x, n), after.sq_w@)
    &&& fits_all(ops, grown_of(before.sq_b, d_sq), after.sq_b@)
}

/// The gradients of the squeezed values at every position.
pub open spec fn squeezed_rows<T>(
    m: MaestroWeights<T>,
    d: Seq<Seq<Expr<T>>>,
    sq: Seq<Vec<T>>,
) -> Seq<Seq<Expr<T>>> {
    Seq::new(d.len(), |p: int| squeezed_grads(m, d[p], sq[p]@))
}

/// The gradients of the inputs at every position.
pub open spec fn regulator_rows<T>(
    m: MaestroWeights<T>,
    d: Seq<Seq<Expr<T>>>,
    sq: Seq<Vec<T>>,
) -> Seq<Seq<Expr<T>>> {
    Seq::new(d.len(), |p: int| regulator_back(m, d[p], sq[p]@))
}

fn squeezed_grads_on<T: Copy, A: Arith<T>>(
    ops: &A,
    m: &MaestroWeights<T>,
    d: &TracedVec<T>,
    sq: &[T],
) -> (out: TracedVec<T>)
    requires
        d.ok(*ops),
        maestro_shaped(*m, d.v@.len() as int),
        m.squeeze.w@.len() <= sq@.len(),
    ensures
        out.ok(*ops),
        out.e@ == squeezed_grads(*m, d.e@, sq@),
{
    let narrow: usize = m.squeeze.w.len();
    let len: usize = sq.len();
    let d_act: TracedVec<T> = transposed_on(ops, &m.process_1.w, d, narrow);
    let ghost es = squeezed_grads(*m, d.e@, sq@);
    let mut out: TracedVec<T> = TracedVec::new(ops);
    let mut i: usize = 0;
    assert(out.e@ =~= es.take(0));
    while i < narrow
        invariant
            narrow == m.squeeze.w@.len(),
            len == sq@.len(),
            narrow <= len,
            d_act.ok(*ops),
            d_act.v@.len() == narrow,
            d_act.e@ == transposed_of(m.process_1.w@, d.e@, narrow as int),
            es == squeezed_grads(*m, d.e@, sq@),
            i <= narrow,
            out.ok(*ops),
            out.e@ == es.take(i as int),
        decreases narrow - i,
    {
        let slope: Traced<T> = gelu_slope_on(ops, Traced::of(ops, sq[i]));
        out.push(ops, d_act.get(ops, i).times(ops, slope));
        i += 1;
        assert(out.e@ =~= es.take(i as int));
    }
    assert(es.take(narrow as int) =~= es);
    out
}

/// Rows of values that cover `width` components at each of `t` positions.
pub open spec fn covers<T>(rows: Seq<Vec<T>>, t: int, width: int) -> bool {
    &&& rows.len() == t
    &&& rows_width(rows, width)
}

/// Rows of values, traced, and no fewer of them.
pub fn value_rows_on<T: Copy, A: Arith<T>>(ops: &A, rows: &Vec<Vec<T>>, width: usize) -> (out: Vec<
    TracedVec<T>,
>)
    requires
        rows_width(rows@, width as int),
    ensures
        out@.len() == rows@.len(),
        rows_ok(*ops, out@, width as int),
        formulas(out@) == rows_vals(rows@),
{
    let out: Vec<TracedVec<T>> = traced_rows(ops, rows, width);
    assert(formulas(out@).len() == out@.len());
    out
}

/// What gradients are added to, traced.
pub struct StartState<T> {
    sq_w: Vec<TracedVec<T>>,
    sq_b: TracedVec<T>,
    pr_w: Vec<TracedVec<T>>,
    pr_b: TracedVec<T>,
}

impl<T: Copy> StartState<T> {
    /// The formulas are those of the values, and of the right number.
    pub closed spec fn ok<A: Arith<T>>(&self, ops: A, n: int, narrow: int) -> bool {
        &&& self.sq_w@.len() == narrow
        &&& rows_ok(ops, self.sq_w@, n)
        &&& self.sq_b.ok(ops)
        &&& self.sq_b.v@.len() == narrow
        &&& self.pr_w@.len() == n
        &&& rows_ok(ops, self.pr_w@, narrow)
        &&& self.pr_b.ok(ops)
        &&& self.pr_b.v@.len() == n
    }

    /// The formulas.
    pub closed spec fn start(&self) -> MaestroStart<T> {
        MaestroStart {
            sq_w: formulas(self.sq_w@),
            sq_b: self.sq_b.e@,
            pr_w: formulas(self.pr_w@),
            pr_b: self.pr_b.e@,
        }
    }

    /// Gradients that are there already.
    pub fn of<A: Arith<T>>(ops: &A, g: &MaestroGrads<T>, n: usize, narrow: usize) -> (s: Self)
        requires
            maestro_grads_shaped(*g, n as int, narrow as int),
        ensures
            s.ok(*ops, n as int, narrow as int),
            s.start() == held(*g),
    {
        StartState {
            sq_w: value_rows_on(ops, &g.sq_w, n),
            sq_b: traced(ops, &g.sq_b),
            pr_w: value_rows_on(ops, &g.pr_w, narrow),
            pr_b: traced(ops, &g.pr_b),
        }
    }

    /// No gradients as yet.
    pub fn none<A: Arith<T>>(ops: &A, n: usize, narrow: usize) -> (s: Self)
        ensures
            s.ok(*ops, n as int, narrow as int),
            s.start() == nothing::<T>(n as int, narrow as int),
    {
        StartState {
            sq_w: zero_rows_on(ops, narrow, n),
            sq_b: TracedVec::zeros(ops, narrow),
            pr_w: zero_rows_on(ops, n, narrow),
            pr_b: TracedVec::zeros(ops, n),
        }
    }
}

/// The way back through a regulator whose output is added to its input.
pub fn regulator_back_on<T: Copy, A: Arith<T>>(
    ops: &A,
    m: &MaestroWeights<T>,
    d: &Vec<TracedVec<T>>,
    sq: &Vec<Vec<T>>,
    act: &Vec<Vec<T>>,
    x: &Vec<Vec<T>>,
    n: usize,
    start: &StartState<T>,
) -> (res: (Vec<TracedVec<T>>, MaestroGrads<T>))
    requires
        maestro_shaped(*m, n as int),
        rows_ok(*ops, d@, n as int),
        covers(sq@, d@.len() as int, m.squeeze.w@.len() as int),
        covers(act@, d@.len() as int, m.squeeze.w@.len() as int),
        covers(x@, d@.len() as int, n as int),
        start.ok(*ops, n as int, m.squeeze.w@.len() as int),
    ensures
        res.0@.len() == d@.len(),
        rows_ok(*ops, res.0@, n as int),
        formulas(res.0@) == regulator_rows(*m, formulas(d@), sq@),
        maestro_grads_fit(
            *ops,
            start.start(),
            res.1,
            formulas(d@),
            squeezed_rows(*m, formulas(d@), sq@),
            rows_vals(act@),
            rows_vals(x@),
            n as int,
            m.squeeze.w@.len() as int,
        ),
{
    let t: usize = d.len();
    let narrow: usize = m.squeeze.w.len();
    let ghost ds = formulas(d@);
    let ghost want_sq = squeezed_rows(*m, ds, sq@);
    let ghost want = regulator_rows(*m, ds, sq@);
    let mut d_sq: Vec<TracedVec<T>> = Vec::new();
    let mut out: Vec<TracedVec<T>> = Vec::new();
    let mut p: usize = 0;
    assert(formulas(d_sq@) =~= want_sq.take(0));
    assert(formulas(out@) =~= want.take(0));
    while p < t
        invariant
            t == d@.len(),
            narrow == m.squeeze.w@.len(),
            maestro_shaped(*m, n as int),
            rows_ok(*ops, d@, n as int),
            covers(sq@, t as int, narrow as int),
            ds == formulas(d@),
            want_sq == squeezed_rows(*m, ds, sq@),
            want == regulator_rows(*m, ds, sq@),
            p <= t,
            rows_ok(*ops, d_sq@, narrow as int),
            rows_ok(*ops, out@, n as int),
            formulas(d_sq@) == want_sq.take(p as int),
            formulas(out@) == want.take(p as int),
        decreases t - p,
    {
        assert(d@[p as int].ok(*ops));
        assert(sq@[p as int]@.len() == narrow);
        let row: TracedVec<T> = squeezed_grads_on(ops, m, &d[p], &sq[p]);
        let back: TracedVec<T> = transposed_on(ops, &m.squeeze.w, &row, n);
        let sum: TracedVec<T> = sums_on(ops, &back, &d[p]);
        let ghost q0 = formulas(d_sq@);
        let ghost o0 = formulas(out@);
        d_sq.push(row);
        out.push(sum);
        p += 1;
        proof {
            assert(formulas(d_sq@) =~= q0.push(row.e@));
            assert(formulas(out@) =~= o0.push(sum.e@));
            assert(formulas(d_sq@) =~= want_sq.take(p as int));
            assert(formulas(out@) =~= want.take(p as int));
        }
    }
    assert(want_sq.take(t as int) =~= want_sq);
    assert(want.take(t as int) =~= want);
    assert(d_sq@.len() == formulas(d_sq@).len());
    assert(out@.len() == formulas(out@).len());
    let acts: Vec<TracedVec<T>> = value_rows_on(ops, act, narrow);
    let xs: Vec<TracedVec<T>> = value_rows_on(ops, x, n);
    let after: MaestroGrads<T> = MaestroGrads {
        pr_w: outer_on(ops, &start.pr_w, d, &acts, n, narrow),
        pr_b: grown_on(ops, &start.pr_b, d, n),
        sq_w: outer_on(ops, &start.sq_w, &d_sq, &xs, narrow, n),
        sq_b: grown_on(ops, &start.sq_b, &d_sq, narrow),
    };
    (out, after)
}

/// The gradients of a feed-forward part's weights.
pub struct FfnGrads<T> {
    pub mae_in: MaestroGrads<T>,
    pub mae_out: MaestroGrads<T>,
    pub out_proj_w: Vec<Vec<T>>,
    pub out_proj_b: Vec<T>,
}

/// What the forward pass of a feed-forward part kept, position by position.
pub struct FfnKept<T> {
    pub mae_in_sq: Vec<Vec<T>>,
    pub mae_in_act: Vec<Vec<T>>,
    pub kerr_out: Vec<Vec<T>>,
    pub mae_out_sq: Vec<Vec<T>>,
    pub mae_out_act: Vec<Vec<T>>,
    pub regulated: Vec<Vec<T>>,
}

/// The gradients of the projection's input at every position.
pub open spec fn regulated_grads<T>(p: OutProjWeights<T>, d_out: Seq<Vec<T>>) -> Seq<Seq<Expr<T>>> {
    Seq::new(d_out.len(), |i: int| dx_of(p, d_out[i]@))
}

/// The gradients of the ODE's output at every position. The ODE itself passes them on as
/// they are.
pub open spec fn kerr_grads<T>(
    w: KerrDualMaestroWeights<T>,
    d_out: Seq<Vec<T>>,
    kept: FfnKept<T>,
) -> Seq<Seq<Expr<T>>> {
    regulator_rows(w.maestro_out, regulated_grads(w.out_proj, d_out), kept.mae_out_sq@)
}

/// The gradients of a feed-forward part's input at every position.
pub open spec fn ffn_grads<T>(
    w: KerrDualMaestroWeights<T>,
    d_out: Seq<Vec<T>>,
    kept: FfnKept<T>,
) -> Seq<Seq<Expr<T>>> {
    regulator_rows(w.maestro_in, kerr_grads(w, d_out, kept), kept.mae_in_sq@)
}

/// A feed-forward part of `n` components whose pass over `t` positions was kept.
pub open spec fn kept_shaped<T>(
    w: KerrDualMaestroWeights<T>,
    kept: FfnKept<T>,
    t: int,
    n: int,
) -> bool {
    let a = w.maestro_in.squeeze.w@.len() as int;
    let b = w.maestro_out.squeeze.w@.len() as int;
    &&& covers(kept.mae_in_sq@, t, a)
    &&& covers(kept.mae_in_act@, t, a)
    &&& covers(kept.kerr_out@, t, n)
    &&& covers(kept.mae_out_sq@, t, b)
    &&& covers(kept.mae_out_act@, t, b)
    &&& covers(kept.regulated@, t, n)
}

/// A feed-forward part of `n` components.
pub open spec fn dual_sized<T>(w: KerrDualMaestroWeights<T>, n: int) -> bool {
    &&& maestro_shaped(w.maestro_in, n)
    &&& maestro_shaped(w.maestro_out, n)
    &&& w.out_proj.wf()
    &&& w.out_proj.spec_dim() == n
    &&& w.out_proj matches OutProjWeights::Dense(lw) ==> lw.w@[0]@.len() == n
}

/// The gradients of a projection's weights, added to those that were there.
pub open spec fn added_rows<T>(
    before: Seq<Vec<T>>,
    d_y: Seq<Vec<T>>,
    x: Seq<Vec<T>>,
    n: int,
) -> Seq<Seq<Expr<T>>> {
    Seq::new(
        n as nat,
        |i: int| Seq::new(n as nat, |j: int| plus(val(before[i]@[j]), dw_entry(d_y, x, i, j))),
    )
}

/// The gradients of a projection's biases, added to those that were there.
pub open spec fn added_biases<T>(before: Seq<T>, d_y: Seq<Vec<T>>, n: int) -> Seq<Expr<T>> {
    Seq::new(n as nat, |i: int| plus(val(before[i]), total_of(vals(column_vals(d_y, i)))))
}

fn proj_grads_on<T: Copy, A: Arith<T>>(
    ops: &A,
    before_w: &Vec<Vec<T>>,
    before_b: &Vec<T>,
    d_y: &Vec<Vec<T>>,
    x: &Vec<Vec<T>>,
    n: usize,
) -> (res: (Vec<Vec<T>>, Vec<T>))
    requires
        before_w@.len() == n,
        rows_width(before_w@, n as int),
        before_b@.len() == n,
        rows_width(d_y@, n as int),
        covers(x@, d_y@.len() as int, n as int),
    ensures
        rows_fit(*ops, added_rows(before_w@, d_y@, x@, n as int), res.0@),
        fits_all(*ops, added_biases(before_b@, d_y@, n as int), res.1@),
{
    let t: usize = d_y.len();
    assert(d_y@.take(t as int) =~= d_y@);
    assert(x@.take(t as int) =~= x@);
    let ghost want = added_rows(before_w@, d_y@, x@, n as int);
    let ghost want_b = added_biases(before_b@, d_y@, n as int);
    let mut out_w: Vec<Vec<T>> = Vec::new();
    let mut out_b: TracedVec<T> = TracedVec::new(ops);
    let mut i: usize = 0;
    assert(out_b.e@ =~= want_b.take(0));
    while i < n
        invariant
            t == d_y@.len(),
            t == x@.len(),
            d_y@.take(t as int) == d_y@,
            x@.take(t as int) == x@,
            before_w@.len() == n,
            rows_width(before_w@, n as int),
            before_b@.len() == n,
            rows_width(d_y@, n as int),
            rows_width(x@, n as int),
            want == added_rows(before_w@, d_y@, x@, n as int),
            want_b == added_biases(before_b@, d_y@, n as int),
            i <= n,
            out_w@.len() == i,
            forall|k: int| 0 <= k < i ==> fits_all(*ops, want[k], (#[trigger] out_w@[k])@),
            out_b.ok(*ops),
            out_b.e@ == want_b.take(i as int),
        decreases n - i,
    {
        assert(before_w@[i as int]@.len() == n);
        assert forall|p: int| 0 <= p < t implies i < (#[trigger] d_y@[p])@.len() by {}
        let from: &Vec<T> = &before_w[i];
        let left: TracedVec<T> = TracedVec::of(ops, matrix_column(d_y, t, i));
        let mut row: TracedVec<T> = TracedVec::new(ops);
        let mut j: usize = 0;
        assert(row.e@ =~= want[i as int].take(0));
        while j < n
            invariant
                t == d_y@.len(),
                t == x@.len(),
                x@.take(t as int) == x@,
                rows_width(x@, n as int),
                i < n,
                from@ == before_w@[i as int]@,
                from@.len() == n,
                left.ok(*ops),
                left.v@.len() == t,
                left.e@ == vals(column_vals(d_y@, i as int)),
                want == added_rows(before_w@, d_y@, x@, n as int),
                j <= n,
                row.ok(*ops),
                row.e@ == want[i as int].take(j as int),
            decreases n - j,
        {
            assert forall|p: int| 0 <= p < t implies j < (#[trigger] x@[p])@.len() by {}
            let right: TracedVec<T> = TracedVec::of(ops, matrix_column(x, t, j));
            let sum: Traced<T> = score(ops, &left, &right);
            row.push(ops, Traced::of(ops, from[j]).plus(ops, sum));
            j += 1;
            assert(row.e@ =~= want[i as int].take(j as int));
        }
        assert(want[i as int].take(n as int) =~= want[i as int]);
        out_w.push(row.v);
        out_b.push(ops, Traced::of(ops, before_b[i]).plus(ops, total(ops, &left)));
        i += 1;
        assert(out_b.e@ =~= want_b.take(i as int));
    }
    assert(want_b.take(n as int) =~= want_b);
    (out_w, out_b.v)
}

/// The way back through a feed-forward part: the gradients of its input, and those of its
/// weights added to the ones that were there.
pub fn ffn_backward<T: Copy, A: Arith<T>>(
    ops: &A,
    weights: &KerrDualMaestroWeights<T>,
    normed: &Vec<Vec<T>>,
    d_ffn_out: &Vec<Vec<T>>,
    kept: &FfnKept<T>,
    n_embd: usize,
    grads: FfnGrads<T>,
) -> (res: (Vec<Vec<T>>, FfnGrads<T>))
    requires
        dual_sized(*weights, n_embd as int),
        rows_width(d_ffn_out@, n_embd as int),
        covers(normed@, d_ffn_out@.len() as int, n_embd as int),
        kept_shaped(*weights, *kept, d_ffn_out@.len() as int, n_embd as int),
        maestro_grads_shaped(
            grads.mae_in,
            n_embd as int,
            weights.maestro_in.squeeze.w@.len() as int,
        ),
        maestro_grads_shaped(
            grads.mae_out,
            n_embd as int,
            weights.maestro_out.squeeze.w@.len() as int,
        ),
        grads.out_proj_w@.len() == n_embd,
        rows_width(grads.out_proj_w@, n_embd as int),
        grads.out_proj_b@.len() == n_embd,
    ensures
        rows_fit(*ops, ffn_grads(*weights, d_ffn_out@, *kept), res.0@),
        rows_fit(
            *ops,
            added_rows(grads.out_proj_w@, d_ffn_out@, kept.regulated@, n_embd as int),
            res.1.out_proj_w@,
        ),
        fits_all(
            *ops,
            added_biases(grads.out_proj_b@, d_ffn_out@, n_embd as int),
            res.1.out_proj_b@,
        ),
        maestro_grads_fit(
            *ops,
            held(grads.mae_out),
            res.1.mae_out,
            regulated_grads(weights.out_proj, d_ffn_out@),
            squeezed_rows(
                weights.maestro_out,
                regulated_grads(weights.out_proj, d_ffn_out@),
                kept.mae_out_sq@,
            ),
            rows_vals(kept.mae_out_act@),
            rows_vals(kept.kerr_out@),
            n_embd as int,
            weights.maestro_out.squeeze.w@.len() as int,
        ),
        maestro_grads_fit(
            *ops,
            held(grads.mae_in),
            res.1.mae_in,
            kerr_grads(*weights, d_ffn_out@, *kept),
            squeezed_rows(
                weights.maestro_in,
                kerr_grads(*weights, d_ffn_out@, *kept),
                kept.mae_in_sq@,
            ),
            rows_vals(kept.mae_in_act@),
            rows_vals(normed@),
            n_embd as int,
            weights.maestro_in.squeeze.w@.len() as int,
        ),
{
    let t: usize = d_ffn_out.len();
    let ghost want = regulated_grads(weights.out_proj, d_ffn_out@);
    let mut d_reg: Vec<TracedVec<T>> = Vec::new();
    let mut p: usize = 0;
    assert(formulas(d_reg@) =~= want.take(0));
    while p < t
        invariant
            t == d_ffn_out@.len(),
            dual_sized(*weights, n_embd as int),
            rows_width(d_ffn_out@, n_embd as int),
            want == regulated_grads(weights.out_proj, d_ffn_out@),
            p <= t,
            rows_ok(*ops, d_reg@, n_embd as int),
            formulas(d_reg@) == want.take(p as int),
        decreases t - p,
    {
        assert(d_ffn_out@[p as int]@.len() == n_embd);
        let row: TracedVec<T> = dx_on(ops, &weights.out_proj, &d_ffn_out[p]);
        let ghost before = formulas(d_reg@);
        d_reg.push(row);
        p += 1;
        proof {
            assert(formulas(d_reg@) =~= before.push(row.e@));
            assert(formulas(d_reg@) =~= want.take(p as int));
        }
    }
    assert(want.take(t as int) =~= want);
    assert(d_reg@.len() == formulas(d_reg@).len());
    let (out_proj_w, out_proj_b) = proj_grads_on(
        ops,
        &grads.out_proj_w,
        &grads.out_proj_b,
        d_ffn_out,
        &kept.regulated,
        n_embd,
    );
    let (d_kerr, mae_out) = regulator_back_on(
        ops,
        &weights.maestro_out,
        &d_reg,
        &kept.mae_out_sq,
        &kept.mae_out_act,
        &kept.kerr_out,
        n_embd,
        &StartState::of(ops, &grads.mae_out, n_embd, weights.maestro_out.squeeze.w.len()),
    );
    assert(d_kerr@.len() == formulas(d_kerr@).len());
    let (d_normed, mae_in) = regulator_back_on(
        ops,
        &weights.maestro_in,
        &d_kerr,
        &kept.mae_in_sq,
        &kept.mae_in_act,
        normed,
        n_embd,
        &StartState::of(ops, &grads.mae_in, n_embd, weights.maestro_in.squeeze.w.len()),
    );
    let rows: Vec<Vec<T>> = untraced_rows(ops, d_normed);
    (rows, FfnGrads { mae_in, mae_out, out_proj_w, out_proj_b })
}

} // verus!
