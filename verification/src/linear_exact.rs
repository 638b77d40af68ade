//! In exact arithmetic the gradients of a linear layer, and of a projection, are those of its
//! derivative.

use vstd::prelude::*;
#[allow(unused_imports)]
use crate::arith::{Binary, Expr, dot_of, fold_of, plus, products_of, times, val, vals, zero};
#[allow(unused_imports)]
use crate::attention::column_of;
#[allow(unused_imports)]
use crate::backprop::{grown_of, outer_entry, outer_of, transposed_of, zero_rows};
#[allow(unused_imports)]
use crate::exact::{
    Curves, Dual, lemma_constants, lemma_nothing, lemma_plus, lemma_shared, lemma_sign, lemma_three,
    lemma_times, prod, rate, value,
};
#[allow(unused_imports)]
use crate::layers::linear_of;
#[allow(unused_imports)]
use crate::proj::{column_vals, dx_of, dx_takes, proj_of, proj_takes, transposed_entry};
#[allow(unused_imports)]
use crate::seqs::rows_width;
#[allow(unused_imports)]
use crate::split_band::zeros_of;
#[allow(unused_imports)]
use crate::weights::{BlockDiagonalWeights, LinearWeights, OutProjWeights};

verus! {

/// The sum of the first `n` terms.
pub open spec fn summed(f: spec_fn(int) -> real, n: int) -> real
    decreases n,
{
    if n <= 0 {
        0real
    } else {
        summed(f, n - 1) + f(n - 1)
    }
}

/// The sum of the terms of a table.
pub open spec fn summed_table(f: spec_fn(int, int) -> real, rows: int, cols: int) -> real {
    summed(|i: int| summed(|j: int| f(i, j), cols), rows)
}

#[verifier::spinoff_prover]
pub proof fn lemma_summed_same(f: spec_fn(int) -> real, g: spec_fn(int) -> real, n: int)
    requires
        forall|i: int| 0 <= i < n ==> #[trigger] f(i) == g(i),
    ensures
        summed(f, n) == summed(g, n),
    decreases n,
{
    if n > 0 {
        lemma_summed_same(f, g, n - 1);
        assert(f(n - 1) == g(n - 1));
    }
}

#[verifier::spinoff_prover]
pub proof fn lemma_summed_both(
    h: spec_fn(int) -> real,
    f: spec_fn(int) -> real,
    g: spec_fn(int) -> real,
    n: int,
)
    requires
        forall|i: int| 0 <= i < n ==> #[trigger] h(i) == f(i) + g(i),
    ensures
        summed(h, n) == summed(f, n) + summed(g, n),
    decreases n,
{
    if n > 0 {
        lemma_summed_both(h, f, g, n - 1);
        assert(h(n - 1) == f(n - 1) + g(n - 1));
    }
}

#[verifier::spinoff_prover]
pub proof fn lemma_summed_scaled(g: spec_fn(int) -> real, f: spec_fn(int) -> real, c: real, n: int)
    requires
        forall|i: int| 0 <= i < n ==> #[trigger] g(i) == prod(c, f(i)),
    ensures
        summed(g, n) == prod(c, summed(f, n)),
    decreases n,
{
    lemma_nothing(c);
    if n > 0 {
        lemma_summed_scaled(g, f, c, n - 1);
        assert(g(n - 1) == prod(c, f(n - 1)));
        lemma_shared(c, summed(f, n - 1), f(n - 1));
    }
}

/// The rows of a table may be added up first, or its columns.
#[verifier::spinoff_prover]
pub proof fn lemma_summed_swapped(f: spec_fn(int, int) -> real, rows: int, cols: int)
    ensures
        summed_table(f, rows, cols) == summed(|j: int| summed(|i: int| f(i, j), rows), cols),
    decreases rows,
{
    let by_rows = |i: int| summed(|j: int| f(i, j), cols);
    let by_cols = |j: int| summed(|i: int| f(i, j), rows);
    if rows <= 0 {
        lemma_summed_nothing(by_cols, cols);
    } else {
        lemma_summed_swapped(f, rows - 1, cols);
        let before = |j: int| summed(|i: int| f(i, j), rows - 1);
        let last = |j: int| f(rows - 1, j);
        assert forall|j: int| 0 <= j < cols implies #[trigger] by_cols(j) == before(j) + last(
            j,
        ) by {
            let at = |i: int| f(i, j);
            assert(by_cols(j) == summed(at, rows));
            assert(before(j) == summed(at, rows - 1));
            assert(at(rows - 1) == last(j));
        }
        lemma_summed_both(by_cols, before, last, cols);
        assert(by_rows(rows - 1) == summed(last, cols)) by {
            lemma_summed_same(|j: int| f(rows - 1, j), last, cols);
        }
        assert(summed(by_rows, rows) == summed(by_rows, rows - 1) + by_rows(rows - 1));
    }
}

#[verifier::spinoff_prover]
pub proof fn lemma_summed_nothing(f: spec_fn(int) -> real, n: int)
    requires
        forall|i: int| 0 <= i < n ==> #[trigger] f(i) == 0real,
    ensures
        summed(f, n) == 0real,
    decreases n,
{
    if n > 0 {
        lemma_summed_nothing(f, n - 1);
        assert(f(n - 1) == 0real);
    }
}

/// A scalar product, and how it changes.
#[verifier::spinoff_prover]
pub proof fn lemma_dot(cu: Curves, start: Expr<Dual>, a: Seq<Expr<Dual>>, b: Seq<Expr<Dual>>)
    requires
        a.len() <= b.len(),
    ensures
        value(cu, dot_of(start, a, b)) == value(cu, start) + summed(
            |k: int| prod(value(cu, a[k]), value(cu, b[k])),
            a.len() as int,
        ),
        rate(cu, dot_of(start, a, b)) == rate(cu, start) + summed(
            |k: int| prod(rate(cu, a[k]), value(cu, b[k])),
            a.len() as int,
        ) + summed(|k: int| prod(value(cu, a[k]), rate(cu, b[k])), a.len() as int),
    decreases a.len(),
{
    let n = a.len() as int;
    let fv = |k: int| prod(value(cu, a[k]), value(cu, b[k]));
    let fa = |k: int| prod(rate(cu, a[k]), value(cu, b[k]));
    let fb = |k: int| prod(value(cu, a[k]), rate(cu, b[k]));
    if n == 0 {
        assert(products_of(a, b) =~= Seq::empty());
    } else {
        let c = a.drop_last();
        lemma_dot(cu, start, c, b);
        assert(products_of(a, b).drop_last() =~= products_of(c, b));
        let before = dot_of(start, c, b);
        let last = times(a[n - 1], b[n - 1]);
        assert(dot_of(start, a, b) == plus(before, last));
        lemma_plus(cu, before, last);
        lemma_times(cu, a[n - 1], b[n - 1]);
        lemma_summed_same(|k: int| prod(value(cu, c[k]), value(cu, b[k])), fv, n - 1);
        lemma_summed_same(|k: int| prod(rate(cu, c[k]), value(cu, b[k])), fa, n - 1);
        lemma_summed_same(|k: int| prod(value(cu, c[k]), rate(cu, b[k])), fb, n - 1);
    }
}

/// A sum, and how it changes.
#[verifier::spinoff_prover]
pub proof fn lemma_fold(cu: Curves, start: Expr<Dual>, xs: Seq<Expr<Dual>>)
    ensures
        value(cu, fold_of(Binary::Plus, start, xs)) == value(cu, start) + summed(
            |k: int| value(cu, xs[k]),
            xs.len() as int,
        ),
        rate(cu, fold_of(Binary::Plus, start, xs)) == rate(cu, start) + summed(
            |k: int| rate(cu, xs[k]),
            xs.len() as int,
        ),
    decreases xs.len(),
{
    let n = xs.len() as int;
    let f = |k: int| value(cu, xs[k]);
    let g = |k: int| rate(cu, xs[k]);
    if n > 0 {
        let c = xs.drop_last();
        lemma_fold(cu, start, c);
        let before = fold_of(Binary::Plus, start, c);
        assert(fold_of(Binary::Plus, start, xs) == plus(before, xs[n - 1]));
        lemma_plus(cu, before, xs[n - 1]);
        lemma_summed_same(|k: int| value(cu, c[k]), f, n - 1);
        lemma_summed_same(|k: int| rate(cu, c[k]), g, n - 1);
    }
}

/// What the weights of one row add to the change of an output.
spec fn weight_part(
    cu: Curves,
    w: Seq<Vec<Dual>>,
    x: Seq<Expr<Dual>>,
    d: Seq<Expr<Dual>>,
    i: int,
    j: int,
) -> real {
    prod(prod(value(cu, d[i]), value(cu, x[j])), rate(cu, val(w[i]@[j])))
}

/// What an input adds to the change of an output.
spec fn input_part(
    cu: Curves,
    w: Seq<Vec<Dual>>,
    x: Seq<Expr<Dual>>,
    d: Seq<Expr<Dual>>,
    i: int,
    j: int,
) -> real {
    prod(prod(value(cu, val(w[i]@[j])), value(cu, d[i])), rate(cu, x[j]))
}

/// The change of one output, by what it comes from.
#[verifier::spinoff_prover]
proof fn lemma_output(
    cu: Curves,
    w: Seq<Vec<Dual>>,
    b: Seq<Dual>,
    x: Seq<Expr<Dual>>,
    d: Seq<Expr<Dual>>,
    i: int,
    n: int,
)
    requires
        0 <= i < w.len(),
        w[i]@.len() == n,
        x.len() == n,
    ensures
        prod(value(cu, d[i]), rate(cu, linear_of(w, b, x)[i])) == prod(value(cu, d[i]), rate(cu, val(b[i])))
            + summed(|j: int| weight_part(cu, w, x, d, i, j), n) + summed(
            |j: int| input_part(cu, w, x, d, i, j),
            n,
        ),
{
    let row = vals(w[i]@);
    let c = value(cu, d[i]);
    let dot = dot_of(zero(), row, x);
    lemma_dot(cu, zero(), row, x);
    lemma_plus(cu, val(b[i]), dot);
    lemma_constants(cu);
    let fa = |j: int| prod(rate(cu, row[j]), value(cu, x[j]));
    let fb = |j: int| prod(value(cu, row[j]), rate(cu, x[j]));
    let ga = |j: int| weight_part(cu, w, x, d, i, j);
    let gb = |j: int| input_part(cu, w, x, d, i, j);
    assert forall|j: int| 0 <= j < n implies #[trigger] ga(j) == prod(c, fa(j)) by {
        lemma_three(c, value(cu, x[j]), rate(cu, row[j]));
        lemma_sign(rate(cu, row[j]), value(cu, x[j]));
    }
    lemma_summed_scaled(ga, fa, c, n);
    assert forall|j: int| 0 <= j < n implies #[trigger] gb(j) == prod(c, fb(j)) by {
        lemma_sign(value(cu, row[j]), c);
        lemma_three(c, value(cu, row[j]), rate(cu, x[j]));
    }
    lemma_summed_scaled(gb, fb, c, n);
    lemma_shared(c, rate(cu, val(b[i])), summed(fa, n) + summed(fb, n));
    lemma_shared(c, summed(fa, n), summed(fb, n));
}

/// The gradients of the inputs are the inputs' parts, output by output.
#[verifier::spinoff_prover]
proof fn lemma_inputs(
    cu: Curves,
    w: Seq<Vec<Dual>>,
    x: Seq<Expr<Dual>>,
    d: Seq<Expr<Dual>>,
    n: int,
)
    requires
        x.len() == n,
        d.len() == w.len(),
    ensures
        summed_table(|i: int, j: int| input_part(cu, w, x, d, i, j), w.len() as int, n) == summed(
            |j: int| prod(value(cu, transposed_of(w, d, n)[j]), rate(cu, x[j])),
            n,
        ),
{
    let rows = w.len() as int;
    let f = |i: int, j: int| input_part(cu, w, x, d, i, j);
    lemma_summed_swapped(f, rows, n);
    let by_cols = |j: int| summed(|i: int| f(i, j), rows);
    let want = |j: int| prod(value(cu, transposed_of(w, d, n)[j]), rate(cu, x[j]));
    lemma_constants(cu);
    assert forall|j: int| 0 <= j < n implies #[trigger] by_cols(j) == want(j) by {
        let col = vals(column_vals(w, j));
        let c = rate(cu, x[j]);
        let p = |i: int| prod(value(cu, col[i]), value(cu, d[i]));
        let q = |i: int| f(i, j);
        lemma_dot(cu, zero(), col, d);
        assert forall|i: int| 0 <= i < rows implies #[trigger] q(i) == prod(c, p(i)) by {
            lemma_sign(c, p(i));
        }
        lemma_summed_scaled(q, p, c, rows);
        lemma_sign(c, summed(p, rows));
        assert(transposed_of(w, d, n)[j] == dot_of(zero(), col, d));
    }
    lemma_summed_same(by_cols, want, n);
}

/// The changes of the outputs at one position.
#[verifier::spinoff_prover]
proof fn lemma_position(
    cu: Curves,
    w: Seq<Vec<Dual>>,
    b: Seq<Dual>,
    x: Seq<Expr<Dual>>,
    d: Seq<Expr<Dual>>,
    n: int,
)
    requires
        rows_width(w, n),
        x.len() == n,
        d.len() == w.len(),
    ensures
        summed(|i: int| prod(value(cu, d[i]), rate(cu, linear_of(w, b, x)[i])), w.len() as int) == summed(
            |j: int| prod(value(cu, transposed_of(w, d, n)[j]), rate(cu, x[j])),
            n,
        ) + summed_table(|i: int, j: int| weight_part(cu, w, x, d, i, j), w.len() as int, n) + summed(
            |i: int| prod(value(cu, d[i]), rate(cu, val(b[i]))),
            w.len() as int,
        ),
{
    let rows = w.len() as int;
    let all = |i: int| prod(value(cu, d[i]), rate(cu, linear_of(w, b, x)[i]));
    let bias = |i: int| prod(value(cu, d[i]), rate(cu, val(b[i])));
    let fw = |i: int, j: int| weight_part(cu, w, x, d, i, j);
    let fi = |i: int, j: int| input_part(cu, w, x, d, i, j);
    let pw = |i: int| summed(|j: int| fw(i, j), n);
    let pi = |i: int| summed(|j: int| fi(i, j), n);
    let first = |i: int| bias(i) + pw(i);
    assert forall|i: int| 0 <= i < rows implies #[trigger] all(i) == first(i) + pi(i) by {
        lemma_output(cu, w, b, x, d, i, n);
        lemma_summed_same(|j: int| weight_part(cu, w, x, d, i, j), |j: int| fw(i, j), n);
        lemma_summed_same(|j: int| input_part(cu, w, x, d, i, j), |j: int| fi(i, j), n);
    }
    lemma_summed_both(all, first, pi, rows);
    lemma_summed_both(first, bias, pw, rows);
    lemma_inputs(cu, w, x, d, n);
}

/// The gradients of the weights are the weights' parts, position by position.
#[verifier::spinoff_prover]
proof fn lemma_weights(
    cu: Curves,
    w: Seq<Vec<Dual>>,
    xs: Seq<Seq<Expr<Dual>>>,
    ds: Seq<Seq<Expr<Dual>>>,
    n: int,
)
    requires
        xs.len() == ds.len(),
    ensures
        summed(
            |t: int|
                summed_table(
                    |i: int, j: int| weight_part(cu, w, xs[t], ds[t], i, j),
                    w.len() as int,
                    n,
                ),
            xs.len() as int,
        ) == summed_table(
            |i: int, j: int|
                prod(
                    value(cu, outer_of(zero_rows(w.len() as int, n), ds, xs, n)[i][j]),
                    rate(cu, val(w[i]@[j])),
                ),
            w.len() as int,
            n,
        ),
{
    let (rows, total) = (w.len() as int, xs.len() as int);
    let at = |t: int, i: int| summed(|j: int| weight_part(cu, w, xs[t], ds[t], i, j), n);
    let tables = |t: int|
        summed_table(|i: int, j: int| weight_part(cu, w, xs[t], ds[t], i, j), rows, n);
    let by_t = |t: int| summed(|i: int| at(t, i), rows);
    assert forall|t: int| 0 <= t < total implies #[trigger] tables(t) == by_t(t) by {
        let f = |i: int, j: int| weight_part(cu, w, xs[t], ds[t], i, j);
        let p = |i: int| summed(|j: int| f(i, j), n);
        let q = |i: int| at(t, i);
        assert forall|i: int| 0 <= i < rows implies #[trigger] p(i) == q(i) by {
            lemma_summed_same(
                |j: int| f(i, j),
                |j: int| weight_part(cu, w, xs[t], ds[t], i, j),
                n,
            );
        }
        lemma_summed_same(p, q, rows);
    }
    lemma_summed_same(tables, by_t, total);
    lemma_summed_swapped(at, total, rows);
    let g = |i: int, j: int|
        prod(value(cu, outer_of(zero_rows(rows, n), ds, xs, n)[i][j]), rate(cu, val(w[i]@[j])));
    let by_i = |i: int| summed(|t: int| at(t, i), total);
    let want = |i: int| summed(|j: int| g(i, j), n);
    assert forall|i: int| 0 <= i < rows implies #[trigger] by_i(i) == want(i) by {
        lemma_weight_row(cu, w, xs, ds, i, n);
        lemma_summed_same(
            |t: int| at(t, i),
            |t: int| summed(|j: int| weight_part(cu, w, xs[t], ds[t], i, j), n),
            total,
        );
        lemma_summed_same(
            |j: int| g(i, j),
            |j: int|
                prod(
                    value(cu, outer_of(zero_rows(rows, n), ds, xs, n)[i][j]),
                    rate(cu, val(w[i]@[j])),
                ),
            n,
        );
    }
    lemma_summed_same(by_i, want, rows);
}

#[verifier::spinoff_prover]
proof fn lemma_weight_row(
    cu: Curves,
    w: Seq<Vec<Dual>>,
    xs: Seq<Seq<Expr<Dual>>>,
    ds: Seq<Seq<Expr<Dual>>>,
    i: int,
    n: int,
)
    requires
        0 <= i < w.len(),
        xs.len() == ds.len(),
    ensures
        summed(
            |t: int| summed(|j: int| weight_part(cu, w, xs[t], ds[t], i, j), n),
            xs.len() as int,
        ) == summed(
            |j: int|
                prod(
                    value(cu, outer_of(zero_rows(w.len() as int, n), ds, xs, n)[i][j]),
                    rate(cu, val(w[i]@[j])),
                ),
            n,
        ),
{
    let (rows, total) = (w.len() as int, xs.len() as int);
    let f = |t: int, j: int| weight_part(cu, w, xs[t], ds[t], i, j);
    let p = |t: int| summed(|j: int| f(t, j), n);
    let q = |t: int| summed(|j: int| weight_part(cu, w, xs[t], ds[t], i, j), n);
    assert forall|t: int| 0 <= t < total implies #[trigger] q(t) == p(t) by {
        lemma_summed_same(
            |j: int| weight_part(cu, w, xs[t], ds[t], i, j),
            |j: int| f(t, j),
            n,
        );
    }
    lemma_summed_same(q, p, total);
    lemma_summed_swapped(f, total, n);
    let by_j = |j: int| summed(|t: int| f(t, j), total);
    let want = |j: int|
        prod(value(cu, outer_of(zero_rows(rows, n), ds, xs, n)[i][j]), rate(cu, val(w[i]@[j])));
    lemma_constants(cu);
    assert forall|j: int| 0 <= j < n implies #[trigger] by_j(j) == want(j) by {
        let (a, b) = (column_of(ds, i), column_of(xs, j));
        let c = rate(cu, val(w[i]@[j]));
        let u = |t: int| prod(value(cu, a[t]), value(cu, b[t]));
        let v = |t: int| f(t, j);
        lemma_dot(cu, zero(), a, b);
        assert forall|t: int| 0 <= t < total implies #[trigger] v(t) == prod(c, u(t)) by {
            lemma_sign(c, u(t));
        }
        lemma_summed_scaled(v, u, c, total);
        lemma_sign(c, summed(u, total));
        assert(outer_of(zero_rows(rows, n), ds, xs, n)[i][j] == outer_entry(
            zero(),
            ds,
            xs,
            i,
            j,
        ));
    }
    lemma_summed_same(by_j, want, n);
}

/// The gradients of the biases are the outputs', position by position.
#[verifier::spinoff_prover]
proof fn lemma_biases(cu: Curves, b: Seq<Dual>, ds: Seq<Seq<Expr<Dual>>>, rows: int)
    requires
        0 <= rows,
    ensures
        summed(
            |t: int| summed(|i: int| prod(value(cu, ds[t][i]), rate(cu, val(b[i]))), rows),
            ds.len() as int,
        ) == summed(
            |i: int| prod(value(cu, grown_of(zeros_of(rows), ds)[i]), rate(cu, val(b[i]))),
            rows,
        ),
{
    let total = ds.len() as int;
    let f = |t: int, i: int| prod(value(cu, ds[t][i]), rate(cu, val(b[i])));
    let p = |t: int| summed(|i: int| f(t, i), rows);
    let q = |t: int| summed(|i: int| prod(value(cu, ds[t][i]), rate(cu, val(b[i]))), rows);
    assert forall|t: int| 0 <= t < total implies #[trigger] q(t) == p(t) by {
        lemma_summed_same(
            |i: int| prod(value(cu, ds[t][i]), rate(cu, val(b[i]))),
            |i: int| f(t, i),
            rows,
        );
    }
    lemma_summed_same(q, p, total);
    lemma_summed_swapped(f, total, rows);
    let by_i = |i: int| summed(|t: int| f(t, i), total);
    let want = |i: int| prod(value(cu, grown_of(zeros_of(rows), ds)[i]), rate(cu, val(b[i])));
    lemma_constants(cu);
    assert forall|i: int| 0 <= i < rows implies #[trigger] by_i(i) == want(i) by {
        let a = column_of(ds, i);
        let c = rate(cu, val(b[i]));
        let u = |t: int| value(cu, a[t]);
        let v = |t: int| f(t, i);
        lemma_fold(cu, zero(), a);
        assert forall|t: int| 0 <= t < total implies #[trigger] v(t) == prod(c, u(t)) by {
            lemma_sign(c, u(t));
        }
        lemma_summed_scaled(v, u, c, total);
        lemma_sign(c, summed(u, total));
    }
    lemma_summed_same(by_i, want, rows);
}

/// The way back through a linear layer is transposed to its derivative: in exact arithmetic,
/// whatever direction the inputs, the weights and the biases change in, the outputs' gradients
/// amount to as much along it, over all positions, as the gradients that the way back finds for
/// the inputs, the weights and the biases.
#[verifier::spinoff_prover]
pub proof fn law_linear_back_is_transposed(
    cu: Curves,
    w: Seq<Vec<Dual>>,
    b: Seq<Dual>,
    xs: Seq<Seq<Expr<Dual>>>,
    ds: Seq<Seq<Expr<Dual>>>,
    n: int,
)
    requires
        rows_width(w, n),
        xs.len() == ds.len(),
        forall|t: int| 0 <= t < xs.len() ==> (#[trigger] xs[t]).len() == n,
        forall|t: int| 0 <= t < ds.len() ==> (#[trigger] ds[t]).len() == w.len(),
    ensures
        summed(
            |t: int|
                summed(
                    |i: int| prod(value(cu, ds[t][i]), rate(cu, linear_of(w, b, xs[t])[i])),
                    w.len() as int,
                ),
            xs.len() as int,
        ) == summed(
            |t: int|
                summed(
                    |j: int| prod(value(cu, transposed_of(w, ds[t], n)[j]), rate(cu, xs[t][j])),
                    n,
                ),
            xs.len() as int,
        ) + summed_table(
            |i: int, j: int|
                prod(
                    value(cu, outer_of(zero_rows(w.len() as int, n), ds, xs, n)[i][j]),
                    rate(cu, val(w[i]@[j])),
                ),
            w.len() as int,
            n,
        ) + summed(
            |i: int|
                prod(value(cu, grown_of(zeros_of(w.len() as int), ds)[i]), rate(cu, val(b[i]))),
            w.len() as int,
        ),
{
    let (rows, total) = (w.len() as int, xs.len() as int);
    let all = |t: int|
        summed(|i: int| prod(value(cu, ds[t][i]), rate(cu, linear_of(w, b, xs[t])[i])), rows);
    let inputs = |t: int|
        summed(|j: int| prod(value(cu, transposed_of(w, ds[t], n)[j]), rate(cu, xs[t][j])), n);
    let weights = |t: int|
        summed_table(|i: int, j: int| weight_part(cu, w, xs[t], ds[t], i, j), rows, n);
    let biases = |t: int| summed(|i: int| prod(value(cu, ds[t][i]), rate(cu, val(b[i]))), rows);
    let first = |t: int| inputs(t) + weights(t);
    assert forall|t: int| 0 <= t < total implies #[trigger] all(t) == first(t) + biases(t) by {
        assert(xs[t].len() == n && ds[t].len() == rows);
        lemma_position(cu, w, b, xs[t], ds[t], n);
    }
    lemma_summed_both(all, first, biases, total);
    lemma_summed_both(first, inputs, weights, total);
    lemma_weights(cu, w, xs, ds, n);
    lemma_biases(cu, b, ds, rows);
}

/// Weights and biases that stand still.
pub open spec fn layer_stands(cu: Curves, lw: LinearWeights<Dual>) -> bool {
    &&& forall|i: int, j: int|
        0 <= i < lw.w@.len() && 0 <= j < lw.w@[i]@.len() ==> rate(
            cu,
            val(#[trigger] lw.w@[i]@[j]),
        ) == 0real
    &&& forall|i: int| 0 <= i < lw.b@.len() ==> rate(cu, val(#[trigger] lw.b@[i])) == 0real
}

/// A projection whose weights and biases stand still.
pub open spec fn projection_stands(cu: Curves, p: OutProjWeights<Dual>) -> bool {
    match p {
        OutProjWeights::Dense(lw) => layer_stands(cu, lw),
        OutProjWeights::BlockDiagonal(bd) => forall|g: int|
            0 <= g < bd.groups@.len() ==> layer_stands(cu, #[trigger] bd.groups@[g]),
    }
}

/// The rate of a scalar product with numbers that stand still.
#[verifier::spinoff_prover]
proof fn lemma_still_dot(cu: Curves, start: Expr<Dual>, row: Seq<Dual>, x: Seq<Expr<Dual>>)
    requires
        rate(cu, start) == 0real,
        row.len() <= x.len(),
        forall|j: int| 0 <= j < row.len() ==> rate(cu, val(#[trigger] row[j])) == 0real,
    ensures
        rate(cu, dot_of(start, vals(row), x)) == summed(
            |j: int| prod(value(cu, val(row[j])), rate(cu, x[j])),
            row.len() as int,
        ),
{
    let n = row.len() as int;
    let a = vals(row);
    lemma_dot(cu, start, a, x);
    let f = |j: int| prod(rate(cu, a[j]), value(cu, x[j]));
    assert forall|j: int| 0 <= j < n implies #[trigger] f(j) == 0real by {
        assert(rate(cu, val(row[j])) == 0real);
        lemma_nothing(value(cu, x[j]));
    }
    lemma_summed_nothing(f, n);
    lemma_summed_same(
        |j: int| prod(value(cu, a[j]), rate(cu, x[j])),
        |j: int| prod(value(cu, val(row[j])), rate(cu, x[j])),
        n,
    );
}

/// Outputs that change with the inputs alone, paired with their gradients.
#[verifier::spinoff_prover]
proof fn lemma_still_rows(
    cu: Curves,
    w: Seq<Vec<Dual>>,
    x: Seq<Expr<Dual>>,
    d: Seq<Expr<Dual>>,
    out: spec_fn(int) -> real,
    n: int,
)
    requires
        x.len() == n,
        d.len() == w.len(),
        forall|i: int|
            0 <= i < w.len() ==> #[trigger] out(i) == summed(
                |j: int| prod(value(cu, val(w[i]@[j])), rate(cu, x[j])),
                n,
            ),
    ensures
        summed(|i: int| prod(value(cu, d[i]), out(i)), w.len() as int) == summed(
            |j: int| prod(value(cu, transposed_of(w, d, n)[j]), rate(cu, x[j])),
            n,
        ),
{
    let rows = w.len() as int;
    let f = |i: int, j: int| input_part(cu, w, x, d, i, j);
    let p = |i: int| summed(|j: int| f(i, j), n);
    let q = |i: int| prod(value(cu, d[i]), out(i));
    assert forall|i: int| 0 <= i < rows implies #[trigger] q(i) == p(i) by {
        let c = value(cu, d[i]);
        let g = |j: int| prod(value(cu, val(w[i]@[j])), rate(cu, x[j]));
        let h = |j: int| f(i, j);
        assert(out(i) == summed(g, n));
        assert forall|j: int| 0 <= j < n implies #[trigger] h(j) == prod(c, g(j)) by {
            lemma_sign(value(cu, val(w[i]@[j])), c);
            lemma_three(c, value(cu, val(w[i]@[j])), rate(cu, x[j]));
        }
        lemma_summed_scaled(h, g, c, n);
    }
    lemma_summed_same(q, p, rows);
    lemma_inputs(cu, w, x, d, n);
}

/// A sum, cut in two.
#[verifier::spinoff_prover]
pub proof fn lemma_summed_cut(f: spec_fn(int) -> real, a: int, m: int)
    requires
        0 <= a,
        0 <= m,
    ensures
        summed(f, a + m) == summed(f, a) + summed(|i: int| f(a + i), m),
    decreases m,
{
    if m > 0 {
        lemma_summed_cut(f, a, m - 1);
    }
}

/// A sum, block by block.
#[verifier::spinoff_prover]
pub proof fn lemma_summed_blocks(f: spec_fn(int) -> real, blocks: int, size: int)
    requires
        0 <= blocks,
        0 <= size,
    ensures
        summed(f, blocks * size) == summed(
            |g: int| summed(|i: int| f(g * size + i), size),
            blocks,
        ),
    decreases blocks,
{
    let by_blocks = |g: int| summed(|i: int| f(g * size + i), size);
    if blocks > 0 {
        let a = (blocks - 1) * size;
        lemma_summed_blocks(f, blocks - 1, size);
        assert(blocks * size == a + size && 0 <= a) by (nonlinear_arith)
            requires
                a == (blocks - 1) * size,
                0 < blocks,
                0 <= size,
        ;
        lemma_summed_cut(f, a, size);
        assert(by_blocks(blocks - 1) == summed(|i: int| f(a + i), size)) by {
            lemma_summed_same(
                |i: int| f((blocks - 1) * size + i),
                |i: int| f(a + i),
                size,
            );
        }
    } else {
        assert(blocks * size == 0) by (nonlinear_arith)
            requires
                blocks == 0,
        ;
    }
}

/// What the output's gradients of a projection amount to along the direction.
pub open spec fn paired_outputs(
    cu: Curves,
    p: OutProjWeights<Dual>,
    x: Seq<Expr<Dual>>,
    d_y: Seq<Dual>,
) -> real {
    summed(
        |i: int| prod(value(cu, val(d_y[i])), rate(cu, proj_of(p, x)[i])),
        proj_of(p, x).len() as int,
    )
}

/// What the gradients of a projection's input amount to along the direction.
pub open spec fn paired_inputs(
    cu: Curves,
    p: OutProjWeights<Dual>,
    x: Seq<Expr<Dual>>,
    d_y: Seq<Dual>,
) -> real {
    summed(
        |j: int| prod(value(cu, dx_of(p, d_y)[j]), rate(cu, x[j])),
        dx_of(p, d_y).len() as int,
    )
}

#[verifier::spinoff_prover]
proof fn lemma_dense(cu: Curves, lw: LinearWeights<Dual>, x: Seq<Expr<Dual>>, d_y: Seq<Dual>)
    requires
        OutProjWeights::Dense(lw).wf(),
        proj_takes(OutProjWeights::Dense(lw), x.len() as int),
        dx_takes(OutProjWeights::Dense(lw), d_y.len() as int),
        layer_stands(cu, lw),
    ensures
        paired_outputs(cu, OutProjWeights::Dense(lw), x, d_y) == paired_inputs(
            cu,
            OutProjWeights::Dense(lw),
            x,
            d_y,
        ),
{
    let p = OutProjWeights::Dense(lw);
    let (w, n, rows) = (lw.w@, x.len() as int, lw.w@.len() as int);
    let d = vals(d_y.take(rows));
    let out = |i: int| rate(cu, proj_of(p, x)[i]);
    assert(w[0]@.len() == n);
    lemma_constants(cu);
    assert forall|i: int| 0 <= i < rows implies #[trigger] out(i) == summed(
        |j: int| prod(value(cu, val(w[i]@[j])), rate(cu, x[j])),
        n,
    ) by {
        assert(w[i]@.len() == n);
        assert(rate(cu, val(lw.b@[i])) == 0real);
        lemma_still_dot(cu, zero(), w[i]@, x);
        lemma_plus(cu, val(lw.b@[i]), dot_of(zero(), vals(w[i]@), x));
    }
    lemma_still_rows(cu, w, x, d, out, n);
    lemma_summed_same(
        |i: int| prod(value(cu, val(d_y[i])), rate(cu, proj_of(p, x)[i])),
        |i: int| prod(value(cu, d[i]), out(i)),
        rows,
    );
    let got = |j: int| prod(value(cu, dx_of(p, d_y)[j]), rate(cu, x[j]));
    let want = |j: int| prod(value(cu, transposed_of(w, d, n)[j]), rate(cu, x[j]));
    assert forall|j: int| 0 <= j < n implies #[trigger] got(j) == want(j) by {
        let col = vals(column_vals(w, j));
        assert(products_of(col, vals(d_y)) =~= products_of(col, d));
    }
    lemma_summed_same(got, want, n);
}

/// A place in a block.
#[verifier::spinoff_prover]
proof fn lemma_place(g: int, i: int, blocks: int, size: int)
    requires
        0 <= g < blocks,
        0 <= i < size,
    ensures
        (g * size + i) / size == g,
        (g * size + i) % size == i,
        0 <= g * size + i < blocks * size,
        0 <= g * size,
        g * size + size <= blocks * size,
{
    vstd::arithmetic::div_mod::lemma_fundamental_div_mod_converse(g * size + i, size, g, i);
    assert(g * size + size <= blocks * size && 0 <= g * size) by (nonlinear_arith)
        requires
            0 <= g < blocks,
            0 < size,
    ;
}

/// One block of a projection.
#[verifier::spinoff_prover]
proof fn lemma_block(
    cu: Curves,
    bd: BlockDiagonalWeights<Dual>,
    x: Seq<Expr<Dual>>,
    d_y: Seq<Dual>,
    g: int,
)
    requires
        OutProjWeights::BlockDiagonal(bd).wf(),
        proj_takes(OutProjWeights::BlockDiagonal(bd), x.len() as int),
        dx_takes(OutProjWeights::BlockDiagonal(bd), d_y.len() as int),
        projection_stands(cu, OutProjWeights::BlockDiagonal(bd)),
        0 <= g < bd.groups@.len(),
        0 < bd.group_size,
    ensures
        ({
            let p = OutProjWeights::BlockDiagonal(bd);
            let size = bd.group_size as int;
            summed(
                |i: int|
                    prod(
                        value(cu, val(d_y[g * size + i])),
                        rate(cu, proj_of(p, x)[g * size + i]),
                    ),
                size,
            ) == summed(
                |j: int|
                    prod(
                        value(cu, dx_of(p, d_y)[g * size + j]),
                        rate(cu, x[g * size + j]),
                    ),
                size,
            )
        }),
{
    let p = OutProjWeights::BlockDiagonal(bd);
    let (size, blocks) = (bd.group_size as int, bd.groups@.len() as int);
    let lw = bd.groups@[g];
    let w = lw.w@;
    lemma_place(g, 0, blocks, size);
    let xg = x.subrange(g * size, g * size + size);
    let dg = d_y.subrange(g * size, g * size + size);
    let d = vals(dg);
    let out = |i: int| rate(cu, proj_of(p, x)[g * size + i]);
    assert(lw.shaped(size, size));
    assert(layer_stands(cu, lw));
    assert forall|i: int| 0 <= i < size implies #[trigger] out(i) == summed(
        |j: int| prod(value(cu, val(w[i]@[j])), rate(cu, xg[j])),
        size,
    ) by {
        lemma_place(g, i, blocks, size);
        assert(w[i]@.len() == size);
        assert(rate(cu, val(lw.b@[i])) == 0real);
        lemma_still_dot(cu, val(lw.b@[i]), w[i]@, xg);
    }
    lemma_still_rows(cu, w, xg, d, out, size);
    lemma_summed_same(
        |i: int| prod(value(cu, val(d_y[g * size + i])), rate(cu, proj_of(p, x)[g * size + i])),
        |i: int| prod(value(cu, d[i]), out(i)),
        size,
    );
    let got = |j: int| prod(value(cu, dx_of(p, d_y)[g * size + j]), rate(cu, x[g * size + j]));
    let want = |j: int| prod(value(cu, transposed_of(w, d, size)[j]), rate(cu, xg[j]));
    assert forall|j: int| 0 <= j < size implies #[trigger] got(j) == want(j) by {
        lemma_place(g, j, blocks, size);
        assert(dx_of(p, d_y)[g * size + j] == transposed_entry(w, dg, j));
    }
    lemma_summed_same(got, want, size);
}

/// The way back through a projection is transposed to the projection: in exact arithmetic, with
/// its weights held still, the gradients that it passes on amount to as much along any direction
/// of its input as its output's gradients do.
#[verifier::spinoff_prover]
pub proof fn law_projection_back_is_transposed(
    cu: Curves,
    p: OutProjWeights<Dual>,
    x: Seq<Expr<Dual>>,
    d_y: Seq<Dual>,
)
    requires
        p.wf(),
        proj_takes(p, x.len() as int),
        dx_takes(p, d_y.len() as int),
        projection_stands(cu, p),
    ensures
        paired_outputs(cu, p, x, d_y) == paired_inputs(cu, p, x, d_y),
{
    match p {
        OutProjWeights::Dense(lw) => {
            lemma_dense(cu, lw, x, d_y);
        },
        OutProjWeights::BlockDiagonal(bd) => {
            let (size, blocks) = (bd.group_size as int, bd.groups@.len() as int);
            let f = |i: int| prod(value(cu, val(d_y[i])), rate(cu, proj_of(p, x)[i]));
            let h = |j: int| prod(value(cu, dx_of(p, d_y)[j]), rate(cu, x[j]));
            let inner = blocks * size;
            assert(0 <= inner) by (nonlinear_arith)
                requires
                    inner == blocks * size,
                    0 <= blocks,
                    0 <= size,
            ;
            let rest = x.len() - inner;
            lemma_summed_cut(f, inner, rest);
            let beyond = |i: int| f(inner + i);
            lemma_constants(cu);
            assert forall|i: int| 0 <= i < rest implies #[trigger] beyond(i) == 0real by {
                assert(proj_of(p, x)[inner + i] == zero::<Dual>());
                lemma_nothing(value(cu, val(d_y[inner + i])));
            }
            lemma_summed_nothing(beyond, rest);
            lemma_summed_blocks(f, blocks, size);
            lemma_summed_blocks(h, blocks, size);
            let fs = |g: int| summed(|i: int| f(g * size + i), size);
            let hs = |g: int| summed(|i: int| h(g * size + i), size);
            assert forall|g: int| 0 <= g < blocks implies #[trigger] fs(g) == hs(g) by {
                if size > 0 {
                    lemma_block(cu, bd, x, d_y, g);
                    lemma_summed_same(
                        |i: int| f(g * size + i),
                        |i: int|
                            prod(
                                value(cu, val(d_y[g * size + i])),
                                rate(cu, proj_of(p, x)[g * size + i]),
                            ),
                        size,
                    );
                    lemma_summed_same(
                        |i: int| h(g * size + i),
                        |j: int|
                            prod(
                                value(cu, dx_of(p, d_y)[g * size + j]),
                                rate(cu, x[g * size + j]),
                            ),
                        size,
                    );
                }
            }
            lemma_summed_same(fs, hs, blocks);
        },
    }
}

} // verus!
