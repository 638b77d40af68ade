//! In exact arithmetic: shares that add up to one, and attention that averages values by them.

use vstd::prelude::*;
#[allow(unused_imports)]
use crate::arith::{Expr, Unary, minus, one, over, top_of, un, val, vals};
#[allow(unused_imports)]
use crate::attention::{
    attended_of, attention_of, attention_shaped, column_of, head_scale, heeds_of, parts_of, qkv_of,
    raised_of, softmax_of,
};
#[allow(unused_imports)]
use crate::exact::{Curves, Dual, inverse, lemma_sign, lemma_three, prod, value};
#[allow(unused_imports)]
use crate::layers::linear_of;
#[allow(unused_imports)]
use crate::linear_exact::{lemma_summed_same, lemma_summed_scaled, summed};
#[allow(unused_imports)]
use crate::loss_exact::{
    exp_positive, lemma_inverse, lemma_neutral, lemma_softmax, weight_of, weights_sum,
};
#[allow(unused_imports)]
use crate::model::AttentionWeights;
#[allow(unused_imports)]
use crate::values::{group_value, lemma_scalar};

verus! {

/// The exponential of a sum is the product of the exponentials.
pub open spec fn exp_adds(cu: Curves) -> bool {
    forall|x: real, y: real| #[trigger] (cu.exp)(x + y) == prod((cu.exp)(x), (cu.exp)(y))
}

/// Shares of some entries: positive, together one, and to one another as the exponentials of the
/// entries.
pub open spec fn shares_by(
    cu: Curves,
    entries: spec_fn(int) -> real,
    n: int,
    a: spec_fn(int) -> real,
) -> bool {
    &&& forall|j: int| 0 <= j < n ==> #[trigger] a(j) > 0real
    &&& summed(a, n) == 1real
    &&& forall|j: int, k: int|
        0 <= j < n && 0 <= k < n ==> prod(#[trigger] a(j), (cu.exp)(entries(k))) == prod(
            #[trigger] a(k),
            (cu.exp)(entries(j)),
        )
}

#[verifier::spinoff_prover]
proof fn lemma_in_proportion(ej: real, ek: real, rj: real, rk: real, t: real, i: real)
    requires
        ej == prod(rj, t),
        ek == prod(rk, t),
    ensures
        prod(prod(rj, i), ek) == prod(prod(rk, i), ej),
{
    lemma_three(rj, i, prod(rk, t));
    lemma_three(rk, i, prod(rj, t));
    lemma_three(rj, rk, t);
    lemma_three(rk, rj, t);
    lemma_three(rj, i, ek);
    lemma_three(rk, i, ej);
    lemma_three(i, rj, ek);
    lemma_three(i, rk, ej);
}

#[verifier::spinoff_prover]
proof fn lemma_positive_share(e: real, s: real)
    requires
        e > 0real,
        s > 0real,
    ensures
        prod(e, inverse(s)) > 0real,
{
    lemma_inverse(s);
    let i = inverse(s);
    reveal(prod);
    assert(i > 0real) by (nonlinear_arith)
        requires
            s * i == 1real,
            s > 0real,
    ;
    assert(e * i > 0real) by (nonlinear_arith)
        requires
            e > 0real,
            i > 0real,
    ;
}

/// The softmax of entries gives shares of them, in exact arithmetic.
#[verifier::spinoff_prover]
pub proof fn law_softmax_gives_shares(cu: Curves, xs: Seq<Expr<Dual>>)
    requires
        exp_positive(cu),
        exp_adds(cu),
        xs.len() > 0,
    ensures
        shares_by(
            cu,
            |j: int| value(cu, xs[j]),
            xs.len() as int,
            |j: int| value(cu, softmax_of(xs)[j]),
        ),
{
    broadcast use group_value;

    let n = xs.len() as int;
    let entries = |j: int| value(cu, xs[j]);
    let a = |j: int| value(cu, softmax_of(xs)[j]);
    let f = |j: int| weight_of(cu, xs, j);
    let s = weights_sum(cu, xs);
    let i = inverse(s);
    let t = (cu.exp)(value(cu, top_of(xs)));
    lemma_softmax(cu, xs, 0);
    lemma_inverse(s);
    assert forall|j: int| 0 <= j < n implies #[trigger] a(j) > 0real && a(j) == prod(i, f(j))
        && (cu.exp)(entries(j)) == prod(f(j), t) by {
        lemma_softmax(cu, xs, j);
        lemma_positive_share(f(j), s);
        lemma_sign(f(j), i);
        let x = value(cu, xs[j]);
        let m = value(cu, top_of(xs));
        assert(raised_of(xs)[j] == un(Unary::Exp, minus(xs[j], top_of(xs))));
        assert(f(j) == (cu.exp)(x - m));
        assert((cu.exp)((x - m) + m) == prod((cu.exp)(x - m), (cu.exp)(m)));
        assert((x - m) + m == x);
    }
    lemma_summed_scaled(a, f, i, n);
    assert(summed(a, n) == 1real);
    assert forall|j: int, k: int| 0 <= j < n && 0 <= k < n implies prod(
        #[trigger] a(j),
        (cu.exp)(entries(k)),
    ) == prod(#[trigger] a(k), (cu.exp)(entries(j))) by {
        assert(a(j) > 0real && a(k) > 0real);
        assert((cu.exp)(entries(j)) == prod(f(j), t) && (cu.exp)(entries(k)) == prod(f(k), t));
        lemma_in_proportion(
            (cu.exp)(entries(j)),
            (cu.exp)(entries(k)),
            f(j),
            f(k),
            t,
            i,
        );
        lemma_sign(f(j), i);
        lemma_sign(f(k), i);
    }
}

/// Row `i` of a table applied to a vector, with its bias.
pub open spec fn row_value(
    cu: Curves,
    w: Seq<Vec<Dual>>,
    b: Seq<Dual>,
    x: Seq<Expr<Dual>>,
    i: int,
) -> real {
    b[i].v + summed(|j: int| prod(w[i]@[j].v, value(cu, x[j])), x.len() as int)
}

/// A linear layer applies its rows.
#[verifier::spinoff_prover]
pub proof fn law_linear_applies_rows(
    cu: Curves,
    w: Seq<Vec<Dual>>,
    b: Seq<Dual>,
    x: Seq<Expr<Dual>>,
    i: int,
)
    requires
        0 <= i < w.len(),
        w[i]@.len() == x.len(),
    ensures
        value(cu, linear_of(w, b, x)[i]) == row_value(cu, w, b, x, i),
{
    broadcast use group_value;

    let row = vals(w[i]@);
    lemma_scalar(cu, row, x);
    let f = |j: int| prod(value(cu, row[j]), value(cu, x[j]));
    let g = |j: int| prod(w[i]@[j].v, value(cu, x[j]));
    assert forall|j: int| 0 <= j < x.len() implies #[trigger] f(j) == g(j) by {
        assert(row[j] == val(w[i]@[j]));
    }
    lemma_summed_same(f, g, x.len() as int);
}

/// How well the query of position `p` and the key of position `j` go together in head `h`: the
/// product of the two over the head's components, over the root of their number. The first rows
/// of the table make queries, the next ones keys.
pub open spec fn head_score(
    cu: Curves,
    w: AttentionWeights<Dual>,
    xs: Seq<Seq<Expr<Dual>>>,
    n_embd: int,
    p: int,
    h: int,
    j: int,
) -> real {
    let n = n_embd / (w.n_head as int);
    let (t, b) = (w.c_attn.w@, w.c_attn.b@);
    prod(
        summed(
            |i: int|
                prod(
                    row_value(cu, t, b, xs[p], h * n + i),
                    row_value(cu, t, b, xs[j], n_embd + h * n + i),
                ),
            n,
        ),
        inverse((cu.root)(n as real)),
    )
}

/// What position `p` takes, by the shares `a` of every head: the average of the values of the
/// positions up to it. The last rows of the table make values.
pub open spec fn averaged(
    cu: Curves,
    w: AttentionWeights<Dual>,
    xs: Seq<Seq<Expr<Dual>>>,
    n_embd: int,
    p: int,
    a: spec_fn(int, int) -> real,
    at: int,
) -> real {
    let n = n_embd / (w.n_head as int);
    summed(
        |j: int|
            prod(a(at / n, j), row_value(cu, w.c_attn.w@, w.c_attn.b@, xs[j], 2 * n_embd + at)),
        p + 1,
    )
}

/// The shares of head `h` are those of its scores.
pub open spec fn head_shares(
    cu: Curves,
    w: AttentionWeights<Dual>,
    xs: Seq<Seq<Expr<Dual>>>,
    n_embd: int,
    p: int,
    a: spec_fn(int, int) -> real,
    h: int,
) -> bool {
    shares_by(
        cu,
        |j: int| head_score(cu, w, xs, n_embd, p, h, j),
        p + 1,
        |j: int| a(h, j),
    )
}

/// Attention at position `p` goes by the shares `a`: those of the scores in every head, and what
/// comes out is the projection of the averaged values.
pub open spec fn attends_by(
    cu: Curves,
    w: AttentionWeights<Dual>,
    xs: Seq<Seq<Expr<Dual>>>,
    n_embd: int,
    p: int,
    a: spec_fn(int, int) -> real,
) -> bool {
    &&& forall|h: int| 0 <= h < w.n_head ==> #[trigger] head_shares(cu, w, xs, n_embd, p, a, h)
    &&& forall|i: int|
        0 <= i < n_embd ==> value(cu, #[trigger] attention_of(w, xs, n_embd)[p][i])
            == w.c_proj.b@[i].v + summed(
            |at: int| prod(w.c_proj.w@[i]@[at].v, averaged(cu, w, xs, n_embd, p, a, at)),
            n_embd,
        )
}

/// The shares by which attention goes, as its formula has them.
spec fn heeded(
    cu: Curves,
    w: AttentionWeights<Dual>,
    xs: Seq<Seq<Expr<Dual>>>,
    n_embd: int,
    p: int,
    h: int,
    j: int,
) -> real {
    let n = n_embd / (w.n_head as int);
    let q = parts_of(w, xs, 0, n_embd)[p];
    let ks = parts_of(w, xs, n_embd, n_embd).take(p + 1);
    value(cu, softmax_of(heeds_of(q, ks, h * n, n, head_scale(n as usize)))[j])
}

/// A part of what the table makes of a position.
#[verifier::spinoff_prover]
proof fn lemma_part_entry(
    cu: Curves,
    w: AttentionWeights<Dual>,
    xs: Seq<Seq<Expr<Dual>>>,
    n_embd: int,
    from: int,
    j: int,
    i: int,
)
    requires
        attention_shaped(w, n_embd),
        0 <= j < xs.len(),
        xs[j].len() == n_embd,
        0 <= from <= 2 * n_embd,
        0 <= i < n_embd,
    ensures
        parts_of(w, xs, from, n_embd)[j].len() == n_embd,
        value(cu, parts_of(w, xs, from, n_embd)[j][i]) == row_value(
            cu,
            w.c_attn.w@,
            w.c_attn.b@,
            xs[j],
            from + i,
        ),
{
    assert(w.c_attn.w@[from + i]@.len() == n_embd);
    law_linear_applies_rows(cu, w.c_attn.w@, w.c_attn.b@, xs[j], from + i);
    assert(parts_of(w, xs, from, n_embd)[j][i] == qkv_of(w, xs[j])[from + i]);
}

/// Heads tile the components.
#[verifier::spinoff_prover]
proof fn lemma_head(n_embd: int, n_head: int, h: int)
    requires
        n_head > 0,
        n_embd > 0,
        n_embd % n_head == 0,
        0 <= h < n_head,
    ensures
        n_embd / n_head > 0,
        n_head * (n_embd / n_head) == n_embd,
        0 <= h * (n_embd / n_head),
        h * (n_embd / n_head) + (n_embd / n_head) <= n_embd,
{
    let n = n_embd / n_head;
    assert(n_head * n == n_embd) by (nonlinear_arith)
        requires
            n == n_embd / n_head,
            n_embd % n_head == 0,
            n_head > 0,
    ;
    assert(n > 0) by (nonlinear_arith)
        requires
            n_head * n == n_embd,
            n_embd > 0,
            n_head > 0,
    ;
    assert(0 <= h * n && h * n + n <= n_head * n) by (nonlinear_arith)
        requires
            0 <= h < n_head,
            n >= 0,
    ;
}

#[verifier::spinoff_prover]
proof fn lemma_heed(
    cu: Curves,
    w: AttentionWeights<Dual>,
    xs: Seq<Seq<Expr<Dual>>>,
    n_embd: int,
    p: int,
    h: int,
    j: int,
)
    requires
        attention_shaped(w, n_embd),
        0 < n_embd <= usize::MAX,
        forall|k: int| 0 <= k < xs.len() ==> (#[trigger] xs[k]).len() == n_embd,
        0 <= j <= p < xs.len(),
        0 <= h < w.n_head,
    ensures
        ({
            let n = n_embd / (w.n_head as int);
            let q = parts_of(w, xs, 0, n_embd)[p];
            let ks = parts_of(w, xs, n_embd, n_embd).take(p + 1);
            value(cu, heeds_of(q, ks, h * n, n, head_scale(n as usize))[j]) == head_score(
                cu,
                w,
                xs,
                n_embd,
                p,
                h,
                j,
            )
        }),
{
    broadcast use group_value;

    let n = n_embd / (w.n_head as int);
    lemma_head(n_embd, w.n_head as int, h);
    let off = h * n;
    let q = parts_of(w, xs, 0, n_embd)[p];
    let ks = parts_of(w, xs, n_embd, n_embd).take(p + 1);
    assert(ks[j] == parts_of(w, xs, n_embd, n_embd)[j]);
    assert(xs[p].len() == n_embd && xs[j].len() == n_embd);
    lemma_part_entry(cu, w, xs, n_embd, 0, p, 0);
    lemma_part_entry(cu, w, xs, n_embd, n_embd, j, 0);
    let (a, b) = (q.subrange(off, off + n), ks[j].subrange(off, off + n));
    lemma_scalar(cu, a, b);
    let (t, c) = (w.c_attn.w@, w.c_attn.b@);
    let f = |i: int| prod(value(cu, a[i]), value(cu, b[i]));
    let g = |i: int|
        prod(
            row_value(cu, t, c, xs[p], h * n + i),
            row_value(cu, t, c, xs[j], n_embd + h * n + i),
        );
    assert forall|i: int| 0 <= i < n implies #[trigger] f(i) == g(i) by {
        lemma_part_entry(cu, w, xs, n_embd, 0, p, off + i);
        lemma_part_entry(cu, w, xs, n_embd, n_embd, j, off + i);
    }
    lemma_summed_same(f, g, n);
    lemma_neutral(inverse((cu.root)(n as real)));
}

/// Attention averages values: in exact arithmetic every head gives the positions up to its own
/// shares that are positive, add up to one and are to one another as the exponentials of how well
/// query and key go together; what comes out is the projection of the values averaged by them.
#[verifier::spinoff_prover]
pub proof fn law_attention_averages_values(
    cu: Curves,
    w: AttentionWeights<Dual>,
    xs: Seq<Seq<Expr<Dual>>>,
    n_embd: int,
    p: int,
)
    requires
        exp_positive(cu),
        exp_adds(cu),
        attention_shaped(w, n_embd),
        0 < n_embd <= usize::MAX,
        forall|k: int| 0 <= k < xs.len() ==> (#[trigger] xs[k]).len() == n_embd,
        0 <= p < xs.len(),
    ensures
        exists|a: spec_fn(int, int) -> real| #[trigger] attends_by(cu, w, xs, n_embd, p, a),
{
    let n = n_embd / (w.n_head as int);
    let a = |h: int, j: int| heeded(cu, w, xs, n_embd, p, h, j);
    let q = parts_of(w, xs, 0, n_embd)[p];
    let ks = parts_of(w, xs, n_embd, n_embd).take(p + 1);
    let vs = parts_of(w, xs, 2 * n_embd, n_embd).take(p + 1);
    let scale = head_scale::<Dual>(n as usize);
    assert forall|h: int| 0 <= h < w.n_head implies #[trigger] head_shares(
        cu,
        w,
        xs,
        n_embd,
        p,
        a,
        h,
    ) by {
        let heeds = heeds_of(q, ks, h * n, n, scale);
        law_softmax_gives_shares(cu, heeds);
        let e1 = |j: int| value(cu, heeds[j]);
        let e2 = |j: int| head_score(cu, w, xs, n_embd, p, h, j);
        let a1 = |j: int| value(cu, softmax_of(heeds)[j]);
        let a2 = |j: int| a(h, j);
        assert forall|j: int| 0 <= j < p + 1 implies #[trigger] e1(j) == e2(j) by {
            lemma_heed(cu, w, xs, n_embd, p, h, j);
        }
        assert forall|j: int| 0 <= j < p + 1 implies #[trigger] a1(j) == a2(j) by {}
        lemma_summed_same(a1, a2, p + 1);
        lemma_same_shares(cu, e1, e2, p + 1, a1, a2);
    }
    lemma_head(n_embd, w.n_head as int, 0);
    assert forall|i: int| 0 <= i < n_embd implies value(
        cu,
        #[trigger] attention_of(w, xs, n_embd)[p][i],
    ) == w.c_proj.b@[i].v + summed(
        |at: int| prod(w.c_proj.w@[i]@[at].v, averaged(cu, w, xs, n_embd, p, a, at)),
        n_embd,
    ) by {
        let taken = attended_of(q, ks, vs, w.n_head as int, n, scale);
        assert(taken.len() == n_embd);
        assert(w.c_proj.w@[i]@.len() == n_embd);
        law_linear_applies_rows(cu, w.c_proj.w@, w.c_proj.b@, taken, i);
        let f = |at: int| prod(w.c_proj.w@[i]@[at].v, value(cu, taken[at]));
        let g = |at: int| prod(w.c_proj.w@[i]@[at].v, averaged(cu, w, xs, n_embd, p, a, at));
        assert forall|at: int| 0 <= at < n_embd implies #[trigger] f(at) == g(at) by {
            lemma_taken(cu, w, xs, n_embd, p, at);
            let x = |j: int|
                prod(
                    heeded(cu, w, xs, n_embd, p, at / n, j),
                    row_value(cu, w.c_attn.w@, w.c_attn.b@, xs[j], 2 * n_embd + at),
                );
            let y = |j: int|
                prod(
                    a(at / n, j),
                    row_value(cu, w.c_attn.w@, w.c_attn.b@, xs[j], 2 * n_embd + at),
                );
            lemma_summed_same(x, y, p + 1);
        }
        lemma_summed_same(f, g, n_embd);
    }
    assert(attends_by(cu, w, xs, n_embd, p, a));
}

#[verifier::spinoff_prover]
proof fn lemma_same_shares(
    cu: Curves,
    e1: spec_fn(int) -> real,
    e2: spec_fn(int) -> real,
    n: int,
    a1: spec_fn(int) -> real,
    a2: spec_fn(int) -> real,
)
    requires
        shares_by(cu, e1, n, a1),
        forall|j: int| 0 <= j < n ==> #[trigger] e1(j) == e2(j),
        forall|j: int| 0 <= j < n ==> #[trigger] a1(j) == a2(j),
        summed(a1, n) == summed(a2, n),
    ensures
        shares_by(cu, e2, n, a2),
{
    assert forall|j: int| 0 <= j < n implies #[trigger] a2(j) > 0real by {
        assert(a1(j) == a2(j));
    }
    assert forall|j: int, k: int| 0 <= j < n && 0 <= k < n implies prod(
        #[trigger] a2(j),
        (cu.exp)(e2(k)),
    ) == prod(#[trigger] a2(k), (cu.exp)(e2(j))) by {
        assert(a1(j) == a2(j) && a1(k) == a2(k));
        assert(e1(j) == e2(j) && e1(k) == e2(k));
    }
}

/// What a position takes in one component.
#[verifier::spinoff_prover]
proof fn lemma_taken(
    cu: Curves,
    w: AttentionWeights<Dual>,
    xs: Seq<Seq<Expr<Dual>>>,
    n_embd: int,
    p: int,
    at: int,
)
    requires
        attention_shaped(w, n_embd),
        0 < n_embd <= usize::MAX,
        forall|k: int| 0 <= k < xs.len() ==> (#[trigger] xs[k]).len() == n_embd,
        0 <= p < xs.len(),
        0 <= at < n_embd,
    ensures
        ({
            let n = n_embd / (w.n_head as int);
            let q = parts_of(w, xs, 0, n_embd)[p];
            let ks = parts_of(w, xs, n_embd, n_embd).take(p + 1);
            let vs = parts_of(w, xs, 2 * n_embd, n_embd).take(p + 1);
            value(
                cu,
                attended_of(q, ks, vs, w.n_head as int, n, head_scale(n as usize))[at],
            ) == summed(
                |j: int|
                    prod(
                        heeded(cu, w, xs, n_embd, p, at / n, j),
                        row_value(cu, w.c_attn.w@, w.c_attn.b@, xs[j], 2 * n_embd + at),
                    ),
                p + 1,
            )
        }),
{
    let n = n_embd / (w.n_head as int);
    assert(w.n_head * n == n_embd) by (nonlinear_arith)
        requires
            n == n_embd / (w.n_head as int),
            n_embd % (w.n_head as int) == 0,
            w.n_head > 0,
    ;
    let q = parts_of(w, xs, 0, n_embd)[p];
    let ks = parts_of(w, xs, n_embd, n_embd).take(p + 1);
    let vs = parts_of(w, xs, 2 * n_embd, n_embd).take(p + 1);
    let scale = head_scale::<Dual>(n as usize);
    let shares = softmax_of(heeds_of(q, ks, (at / n) * n, n, scale));
    let column = column_of(vs, at);
    lemma_scalar(cu, shares, column);
    let f = |j: int| prod(value(cu, shares[j]), value(cu, column[j]));
    let g = |j: int|
        prod(
            heeded(cu, w, xs, n_embd, p, at / n, j),
            row_value(cu, w.c_attn.w@, w.c_attn.b@, xs[j], 2 * n_embd + at),
        );
    assert forall|j: int| 0 <= j < p + 1 implies #[trigger] f(j) == g(j) by {
        assert(xs[j].len() == n_embd);
        lemma_part_entry(cu, w, xs, n_embd, 2 * n_embd, j, at);
        assert(vs[j] == parts_of(w, xs, 2 * n_embd, n_embd)[j]);
    }
    lemma_summed_same(f, g, p + 1);
}

/// A lone position attends to itself: in exact arithmetic it gets the projection of its own value,
/// whatever its query and its key are.
#[verifier::spinoff_prover]
pub proof fn law_lone_position_takes_its_value(
    cu: Curves,
    w: AttentionWeights<Dual>,
    x: Seq<Expr<Dual>>,
    n_embd: int,
    i: int,
)
    requires
        exp_positive(cu),
        exp_adds(cu),
        attention_shaped(w, n_embd),
        0 < n_embd <= usize::MAX,
        x.len() == n_embd,
        0 <= i < n_embd,
    ensures
        value(cu, attention_of(w, seq![x], n_embd)[0][i]) == w.c_proj.b@[i].v + summed(
            |at: int|
                prod(
                    w.c_proj.w@[i]@[at].v,
                    row_value(cu, w.c_attn.w@, w.c_attn.b@, x, 2 * n_embd + at),
                ),
            n_embd,
        ),
{
    let xs = seq![x];
    law_attention_averages_values(cu, w, xs, n_embd, 0);
    let a = choose|a: spec_fn(int, int) -> real| #[trigger] attends_by(cu, w, xs, n_embd, 0, a);
    let n = n_embd / (w.n_head as int);
    let f = |at: int| prod(w.c_proj.w@[i]@[at].v, averaged(cu, w, xs, n_embd, 0, a, at));
    let g = |at: int|
        prod(
            w.c_proj.w@[i]@[at].v,
            row_value(cu, w.c_attn.w@, w.c_attn.b@, x, 2 * n_embd + at),
        );
    lemma_head(n_embd, w.n_head as int, 0);
    assert forall|at: int| 0 <= at < n_embd implies #[trigger] f(at) == g(at) by {
        let h = at / n;
        assert(0 <= h < w.n_head) by (nonlinear_arith)
            requires
                h == at / n,
                0 <= at < n_embd,
                w.n_head * n == n_embd,
                n > 0,
        ;
        assert(head_shares(cu, w, xs, n_embd, 0, a, h));
        let own = |j: int| a(h, j);
        reveal_with_fuel(summed, 2);
        assert(summed(own, 1) == own(0));
        assert(a(h, 0) == 1real);
        lemma_neutral(row_value(cu, w.c_attn.w@, w.c_attn.b@, x, 2 * n_embd + at));
    }
    lemma_summed_same(f, g, n_embd);
}

} // verus!
