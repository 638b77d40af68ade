//! Causal self-attention.

use vstd::prelude::*;
use crate::arith::{Arith, Traced, TracedVec, top, total};
#[allow(unused_imports)]
use crate::arith::{
    Expr, Unary, dot_of, fits_all, minus, one, over, times, top_of, total_of, un, vals, zero,
};
use crate::layers::{linear_on, score, traced};
#[allow(unused_imports)]
use crate::layers::linear_of;
use crate::model::AttentionWeights;

verus! {

/// The formulas of traced rows.
pub open spec fn formulas<T>(rows: Seq<TracedVec<T>>) -> Seq<Seq<Expr<T>>> {
    rows.map_values(|r: TracedVec<T>| r.e@)
}

/// Every row is traced, and `width` wide.
pub open spec fn rows_ok<T: Copy, A: Arith<T>>(
    ops: A,
    rows: Seq<TracedVec<T>>,
    width: int,
) -> bool {
    forall|i: int|
        0 <= i < rows.len() ==> (#[trigger] rows[i]).ok(ops) && rows[i].v@.len() == width
}

/// Rows of values as rows of formulas.
pub open spec fn rows_vals<T>(rows: Seq<Vec<T>>) -> Seq<Seq<Expr<T>>> {
    rows.map_values(|r: Vec<T>| vals(r@))
}

/// Every row fits its row of formulas.
pub open spec fn rows_fit<T: Copy, A: Arith<T>>(
    ops: A,
    es: Seq<Seq<Expr<T>>>,
    rows: Seq<Vec<T>>,
) -> bool {
    &&& es.len() == rows.len()
    &&& forall|i: int| 0 <= i < rows.len() ==> fits_all(ops, es[i], (#[trigger] rows[i])@)
}

/// Rows of values, traced.
pub fn traced_rows<T: Copy, A: Arith<T>>(ops: &A, x: &Vec<Vec<T>>, width: usize) -> (out: Vec<
    TracedVec<T>,
>)
    requires
        forall|p: int| 0 <= p < x@.len() ==> (#[trigger] x@[p])@.len() == width,
    ensures
        rows_ok(*ops, out@, width as int),
        formulas(out@) == rows_vals(x@),
{
    let n: usize = x.len();
    let mut out: Vec<TracedVec<T>> = Vec::new();
    let mut i: usize = 0;
    while i < n
        invariant
            n == x@.len(),
            forall|p: int| 0 <= p < x@.len() ==> (#[trigger] x@[p])@.len() == width,
            i <= n,
            rows_ok(*ops, out@, width as int),
            formulas(out@) == rows_vals(x@).take(i as int),
        decreases n - i,
    {
        assert(x@[i as int]@.len() == width);
        let row: TracedVec<T> = traced(ops, &x[i]);
        let ghost before = formulas(out@);
        out.push(row);
        assert(formulas(out@) =~= before.push(row.e@));
        i += 1;
        assert(formulas(out@) =~= rows_vals(x@).take(i as int));
    }
    assert(rows_vals(x@).take(n as int) =~= rows_vals(x@));
    out
}

/// The row of formulas at a place.
pub open spec fn row_entry<T>(es: Seq<Seq<Expr<T>>>, i: usize) -> Seq<Expr<T>> {
    es[i as int]
}

/// Traced rows, made one by one.
pub fn build_rows<T: Copy, A: Arith<T>, F: Fn(usize) -> TracedVec<T>>(
    ops: &A,
    n: usize,
    Ghost(want): Ghost<Seq<Seq<Expr<T>>>>,
    f: F,
) -> (out: Vec<TracedVec<T>>)
    requires
        want.len() == n,
        forall|i: usize| i < n ==> #[trigger] call_requires(f, (i,)),
        forall|i: usize, r: TracedVec<T>|
            i < n && #[trigger] call_ensures(f, (i,), r) ==> r.ok(*ops) && r.e@ == row_entry(
                want,
                i,
            ),
    ensures
        out@.len() == n,
        forall|i: int| 0 <= i < n ==> (#[trigger] out@[i]).ok(*ops),
        formulas(out@) == want,
{
    let mut out: Vec<TracedVec<T>> = Vec::new();
    let mut i: usize = 0;
    assert(formulas(out@) =~= want.take(0));
    while i < n
        invariant
            want.len() == n,
            forall|i: usize| i < n ==> #[trigger] call_requires(f, (i,)),
            forall|i: usize, r: TracedVec<T>|
                i < n && #[trigger] call_ensures(f, (i,), r) ==> r.ok(*ops) && r.e@ == row_entry(
                    want,
                    i,
                ),
            i <= n,
            out@.len() == i,
            forall|k: int| 0 <= k < i ==> (#[trigger] out@[k]).ok(*ops),
            formulas(out@) == want.take(i as int),
        decreases n - i,
    {
        let row: TracedVec<T> = f(i);
        let ghost before = formulas(out@);
        out.push(row);
        i += 1;
        assert(formulas(out@) =~= before.push(row.e@));
        assert(formulas(out@) =~= want.take(i as int));
    }
    assert(want.take(n as int) =~= want);
    out
}

/// The values of traced rows.
pub fn untraced_rows<T: Copy, A: Arith<T>>(ops: &A, x: Vec<TracedVec<T>>) -> (out: Vec<Vec<T>>)
    requires
        forall|i: int| 0 <= i < x@.len() ==> (#[trigger] x@[i]).ok(*ops),
    ensures
        rows_fit(*ops, formulas(x@), out@),
        forall|i: int| 0 <= i < x@.len() ==> #[trigger] out@[i]@ == x@[i].v@,
{
    let n: usize = x.len();
    let mut out: Vec<Vec<T>> = Vec::new();
    let mut i: usize = 0;
    while i < n
        invariant
            n == x@.len(),
            forall|i: int| 0 <= i < x@.len() ==> (#[trigger] x@[i]).ok(*ops),
            i <= n,
            out@.len() == i,
            forall|k: int| 0 <= k < i ==> #[trigger] out@[k]@ == x@[k].v@,
        decreases n - i,
    {
        let mut row: Vec<T> = Vec::new();
        crate::seqs::extend_from(&mut row, &x[i].v);
        assert(row@ =~= x@[i as int].v@);
        out.push(row);
        i += 1;
    }
    assert forall|i: int| 0 <= i < out@.len() implies fits_all(
        *ops,
        formulas(x@)[i],
        (#[trigger] out@[i])@,
    ) by {
        assert(x@[i].ok(*ops));
    }
    out
}

/// A stretch of a traced vector.
pub fn stretch<T: Copy, A: Arith<T>>(ops: &A, x: &TracedVec<T>, from: usize, n: usize) -> (out:
    TracedVec<T>)
    requires
        x.ok(*ops),
        from + n <= x.v@.len(),
    ensures
        out.ok(*ops),
        out.e@ == x.e@.subrange(from as int, from + n),
{
    let total: usize = x.len();
    let mut out: TracedVec<T> = TracedVec::new(ops);
    let mut i: usize = 0;
    assert(out.e@ =~= x.e@.subrange(from as int, from + 0));
    while i < n
        invariant
            x.ok(*ops),
            total == x.v@.len(),
            from + n <= total,
            i <= n,
            out.ok(*ops),
            out.e@ == x.e@.subrange(from as int, from + i),
        decreases n - i,
    {
        out.push(ops, x.get(ops, from + i));
        i += 1;
        assert(out.e@ =~= x.e@.subrange(from as int, from + i));
    }
    out
}

/// How much a position heeds each of those given: the products of query and key over a
/// head's components, times the scale.
pub open spec fn heeds_of<T>(
    q: Seq<Expr<T>>,
    ks: Seq<Seq<Expr<T>>>,
    off: int,
    n: int,
    scale: Expr<T>,
) -> Seq<Expr<T>> {
    Seq::new(
        ks.len(),
        |j: int|
            times(
                dot_of(zero(), q.subrange(off, off + n), ks[j].subrange(off, off + n)),
                scale,
            ),
    )
}

/// The exponentials of how far the entries are from the largest.
pub open spec fn raised_of<T>(xs: Seq<Expr<T>>) -> Seq<Expr<T>> {
    Seq::new(xs.len(), |i: int| un(Unary::Exp, minus(xs[i], top_of(xs))))
}

/// The exponentials over their sum.
pub open spec fn softmax_of<T>(xs: Seq<Expr<T>>) -> Seq<Expr<T>> {
    Seq::new(xs.len(), |i: int| over(raised_of(xs)[i], total_of(raised_of(xs))))
}

/// A column of the given rows.
pub open spec fn column_of<T>(rows: Seq<Seq<Expr<T>>>, at: int) -> Seq<Expr<T>> {
    Seq::new(rows.len(), |j: int| rows[j][at])
}

/// A component of what a position takes from those given: the values there, each as far
/// as its head heeds it.
pub open spec fn taken_of<T>(
    q: Seq<Expr<T>>,
    ks: Seq<Seq<Expr<T>>>,
    vs: Seq<Seq<Expr<T>>>,
    n: int,
    scale: Expr<T>,
    at: int,
) -> Expr<T> {
    dot_of(zero(), softmax_of(heeds_of(q, ks, (at / n) * n, n, scale)), column_of(vs, at))
}

/// What a position takes from those given, over all heads.
pub open spec fn attended_of<T>(
    q: Seq<Expr<T>>,
    ks: Seq<Seq<Expr<T>>>,
    vs: Seq<Seq<Expr<T>>>,
    n_head: int,
    n: int,
    scale: Expr<T>,
) -> Seq<Expr<T>> {
    Seq::new((n_head * n) as nat, |at: int| taken_of(q, ks, vs, n, scale, at))
}

/// One over the root of a head's width.
pub open spec fn head_scale<T>(n: usize) -> Expr<T> {
    over(one(), un(Unary::Root, Expr::Count(n)))
}

/// Query, key and value of a position, one after the other.
pub open spec fn qkv_of<T>(w: AttentionWeights<T>, x: Seq<Expr<T>>) -> Seq<Expr<T>> {
    linear_of(w.c_attn.w@, w.c_attn.b@, x)
}

/// The queries, keys or values of the positions: the part of `qkv_of` from `from` on.
pub open spec fn parts_of<T>(
    w: AttentionWeights<T>,
    xs: Seq<Seq<Expr<T>>>,
    from: int,
    n_embd: int,
) -> Seq<Seq<Expr<T>>> {
    Seq::new(xs.len(), |p: int| qkv_of(w, xs[p]).subrange(from, from + n_embd))
}

/// What attention gives position `p`: it takes from itself and those before it.
pub open spec fn attention_at<T>(
    w: AttentionWeights<T>,
    xs: Seq<Seq<Expr<T>>>,
    n_embd: int,
    p: int,
) -> Seq<Expr<T>> {
    let n = n_embd / (w.n_head as int);
    let q = parts_of(w, xs, 0, n_embd)[p];
    let ks = parts_of(w, xs, n_embd, n_embd).take(p + 1);
    let vs = parts_of(w, xs, 2 * n_embd, n_embd).take(p + 1);
    linear_of(
        w.c_proj.w@,
        w.c_proj.b@,
        attended_of(q, ks, vs, w.n_head as int, n, head_scale(n as usize)),
    )
}

/// What attention gives the positions.
pub open spec fn attention_of<T>(
    w: AttentionWeights<T>,
    xs: Seq<Seq<Expr<T>>>,
    n_embd: int,
) -> Seq<Seq<Expr<T>>> {
    Seq::new(xs.len(), |p: int| attention_at(w, xs, n_embd, p))
}

/// Attention does not look ahead: what it gives a position depends on that position and
/// those before it alone.
pub proof fn law_attention_is_causal<T>(
    w: AttentionWeights<T>,
    xs: Seq<Seq<Expr<T>>>,
    n_embd: int,
    upto: int,
)
    requires
        0 <= upto <= xs.len(),
    ensures
        attention_of(w, xs.take(upto), n_embd) == attention_of(w, xs, n_embd).take(upto),
{
    let a = attention_of(w, xs.take(upto), n_embd);
    let b = attention_of(w, xs, n_embd).take(upto);
    assert forall|p: int| 0 <= p < upto implies a[p] == b[p] by {
        assert(parts_of(w, xs.take(upto), n_embd, n_embd).take(p + 1) =~= parts_of(
            w,
            xs,
            n_embd,
            n_embd,
        ).take(p + 1));
        assert(parts_of(w, xs.take(upto), 2 * n_embd, n_embd).take(p + 1) =~= parts_of(
            w,
            xs,
            2 * n_embd,
            n_embd,
        ).take(p + 1));
    }
    assert(a =~= b);
}

/// The shape of attention over `n_embd` components, which the heads share evenly.
pub open spec fn attention_shaped<T>(w: AttentionWeights<T>, n_embd: int) -> bool {
    &&& w.c_attn.shaped(3 * n_embd, n_embd)
    &&& w.c_proj.shaped(n_embd, n_embd)
    &&& w.n_head > 0
    &&& n_embd % (w.n_head as int) == 0
}

/// How much a position heeds each of the first `upto`.
fn heeds<T: Copy, A: Arith<T>>(
    ops: &A,
    q: &TracedVec<T>,
    ks: &Vec<TracedVec<T>>,
    upto: usize,
    off: usize,
    n: usize,
    scale: Traced<T>,
) -> (out: TracedVec<T>)
    requires
        q.ok(*ops),
        scale.ok(*ops),
        rows_ok(*ops, ks@, q.v@.len() as int),
        upto <= ks@.len(),
        off + n <= q.v@.len(),
    ensures
        out.ok(*ops),
        out.e@ == heeds_of(
            q.e@,
            formulas(ks@).take(upto as int),
            off as int,
            n as int,
            scale.e@,
        ),
{
    let q_part: TracedVec<T> = stretch(ops, q, off, n);
    let ghost es = heeds_of(
        q.e@,
        formulas(ks@).take(upto as int),
        off as int,
        n as int,
        scale.e@,
    );
    let mut out: TracedVec<T> = TracedVec::new(ops);
    let mut j: usize = 0;
    assert(out.e@ =~= es.take(0));
    while j < upto
        invariant
            q.ok(*ops),
            scale.ok(*ops),
            rows_ok(*ops, ks@, q.v@.len() as int),
            upto <= ks@.len(),
            off + n <= q.v@.len(),
            q_part.ok(*ops),
            q_part.e@ == q.e@.subrange(off as int, off + n),
            es == heeds_of(
                q.e@,
                formulas(ks@).take(upto as int),
                off as int,
                n as int,
                scale.e@,
            ),
            j <= upto,
            out.ok(*ops),
            out.e@ == es.take(j as int),
        decreases upto - j,
    {
        assert(ks@[j as int].ok(*ops));
        let k_part: TracedVec<T> = stretch(ops, &ks[j], off, n);
        out.push(ops, score(ops, &q_part, &k_part).times(ops, scale));
        j += 1;
        assert(out.e@ =~= es.take(j as int));
    }
    assert(es.take(upto as int) =~= es);
    out
}

/// The exponentials over their sum, traced.
pub fn softmax_on<T: Copy, A: Arith<T>>(ops: &A, xs: &TracedVec<T>) -> (out: TracedVec<T>)
    requires
        xs.ok(*ops),
    ensures
        out.ok(*ops),
        out.e@ == softmax_of(xs.e@),
{
    let n: usize = xs.len();
    let max: Traced<T> = top(ops, xs);
    let mut raised: TracedVec<T> = TracedVec::new(ops);
    let mut j: usize = 0;
    assert(raised.e@ =~= raised_of(xs.e@).take(0));
    while j < n
        invariant
            xs.ok(*ops),
            n == xs.v@.len(),
            j <= n,
            max.ok(*ops),
            max.e@ == top_of(xs.e@),
            raised.ok(*ops),
            raised.e@ == raised_of(xs.e@).take(j as int),
        decreases n - j,
    {
        raised.push(ops, xs.get(ops, j).minus(ops, max).exp(ops));
        j += 1;
        assert(raised.e@ =~= raised_of(xs.e@).take(j as int));
    }
    assert(raised.e@ =~= raised_of(xs.e@));
    let sum: Traced<T> = total(ops, &raised);
    let mut out: TracedVec<T> = TracedVec::new(ops);
    let mut m: usize = 0;
    assert(out.e@ =~= softmax_of(xs.e@).take(0));
    while m < n
        invariant
            n == xs.v@.len(),
            xs.e@.len() == n,
            m <= n,
            raised.ok(*ops),
            raised.e@ == raised_of(xs.e@),
            sum.ok(*ops),
            sum.e@ == total_of(raised_of(xs.e@)),
            out.ok(*ops),
            out.e@ == softmax_of(xs.e@).take(m as int),
        decreases n - m,
    {
        out.push(ops, raised.get(ops, m).over(ops, sum));
        m += 1;
        assert(out.e@ =~= softmax_of(xs.e@).take(m as int));
    }
    assert(softmax_of(xs.e@).take(n as int) =~= softmax_of(xs.e@));
    out
}

/// A column of the first `upto` rows.
pub fn column<T: Copy, A: Arith<T>>(
    ops: &A,
    rows: &Vec<TracedVec<T>>,
    upto: usize,
    at: usize,
    Ghost(width): Ghost<int>,
) -> (out: TracedVec<T>)
    requires
        upto <= rows@.len(),
        rows_ok(*ops, rows@, width),
        at < width,
    ensures
        out.ok(*ops),
        out.e@ == column_of(formulas(rows@).take(upto as int), at as int),
{
    let ghost es = column_of(formulas(rows@).take(upto as int), at as int);
    let mut out: TracedVec<T> = TracedVec::new(ops);
    let mut j: usize = 0;
    assert(out.e@ =~= es.take(0));
    while j < upto
        invariant
            upto <= rows@.len(),
            rows_ok(*ops, rows@, width),
            at < width,
            es == column_of(formulas(rows@).take(upto as int), at as int),
            j <= upto,
            out.ok(*ops),
            out.e@ == es.take(j as int),
        decreases upto - j,
    {
        assert(rows@[j as int].ok(*ops));
        out.push(ops, rows[j].get(ops, at));
        j += 1;
        assert(out.e@ =~= es.take(j as int));
    }
    assert(es.take(upto as int) =~= es);
    out
}

proof fn lemma_place(h: int, n: int, d: int, heads: int)
    requires
        0 <= h < heads,
        0 <= d < n,
    ensures
        (h * n + d) / n == h,
        h * n + d < heads * n,
        h * n + n <= heads * n,
        0 <= h * n,
{
    vstd::arithmetic::div_mod::lemma_fundamental_div_mod_converse(h * n + d, n, h, d);
    assert(h * n + n <= heads * n && 0 <= h * n) by (nonlinear_arith)
        requires
            0 <= h < heads,
            0 < n,
    ;
}

/// What a position takes from the first `upto`, over all heads.
fn attended<T: Copy, A: Arith<T>>(
    ops: &A,
    q: &TracedVec<T>,
    ks: &Vec<TracedVec<T>>,
    vs: &Vec<TracedVec<T>>,
    upto: usize,
    n_head: usize,
    n: usize,
    scale: Traced<T>,
) -> (out: TracedVec<T>)
    requires
        q.ok(*ops),
        scale.ok(*ops),
        0 < n,
        upto <= ks@.len(),
        upto <= vs@.len(),
        q.v@.len() == n_head * n,
        rows_ok(*ops, ks@, n_head * n),
        rows_ok(*ops, vs@, n_head * n),
    ensures
        out.ok(*ops),
        out.e@ == attended_of(
            q.e@,
            formulas(ks@).take(upto as int),
            formulas(vs@).take(upto as int),
            n_head as int,
            n as int,
            scale.e@,
        ),
{
    let width: usize = q.len();
    let ghost ek = formulas(ks@).take(upto as int);
    let ghost ev = formulas(vs@).take(upto as int);
    let ghost es = attended_of(q.e@, ek, ev, n_head as int, n as int, scale.e@);
    let mut out: TracedVec<T> = TracedVec::new(ops);
    let mut h: usize = 0;
    assert(out.e@ =~= es.take(0));
    while h < n_head
        invariant
            q.ok(*ops),
            scale.ok(*ops),
            0 < n,
            upto <= ks@.len(),
            upto <= vs@.len(),
            width == q.v@.len(),
            width == n_head * n,
            rows_ok(*ops, ks@, n_head * n),
            rows_ok(*ops, vs@, n_head * n),
            ek == formulas(ks@).take(upto as int),
            ev == formulas(vs@).take(upto as int),
            es == attended_of(q.e@, ek, ev, n_head as int, n as int, scale.e@),
            h <= n_head,
            out.ok(*ops),
            out.e@ == es.take(h * n),
        decreases n_head - h,
    {
        proof {
            lemma_place(h as int, n as int, 0, n_head as int);
        }
        let off: usize = h * n;
        let shares: TracedVec<T> = softmax_on(ops, &heeds(ops, q, ks, upto, off, n, scale));
        let mut d: usize = 0;
        while d < n
            invariant
                q.ok(*ops),
                0 < n,
                upto <= ks@.len(),
                upto <= vs@.len(),
                width == n_head * n,
                rows_ok(*ops, vs@, n_head * n),
                ek == formulas(ks@).take(upto as int),
                ev == formulas(vs@).take(upto as int),
                es == attended_of(q.e@, ek, ev, n_head as int, n as int, scale.e@),
                h < n_head,
                off == h * n,
                off + n <= width,
                shares.ok(*ops),
                shares.e@ == softmax_of(heeds_of(q.e@, ek, off as int, n as int, scale.e@)),
                d <= n,
                out.ok(*ops),
                out.e@ == es.take(off + d),
            decreases n - d,
        {
            proof {
                lemma_place(h as int, n as int, d as int, n_head as int);
            }
            let col: TracedVec<T> = column(ops, vs, upto, off + d, Ghost(n_head * n));
            out.push(ops, score(ops, &shares, &col));
            d += 1;
            assert(out.e@ =~= es.take(off + d));
        }
        assert((h + 1) * n == h * n + n) by (nonlinear_arith);
        h += 1;
    }
    assert(es.take(n_head * n) =~= es);
    out
}

/// Causal self-attention over the positions, traced.
pub fn attention_on<T: Copy, A: Arith<T>>(
    ops: &A,
    w: &AttentionWeights<T>,
    x: &Vec<TracedVec<T>>,
    n_embd: usize,
) -> (out: Vec<TracedVec<T>>)
    requires
        attention_shaped(*w, n_embd as int),
        3 * n_embd <= usize::MAX,
        0 < n_embd,
        rows_ok(*ops, x@, n_embd as int),
    ensures
        rows_ok(*ops, out@, n_embd as int),
        formulas(out@) == attention_of(*w, formulas(x@), n_embd as int),
{
    let t: usize = x.len();
    let ghost e = n_embd as int;
    let ghost xs = formulas(x@);
    let mut q_all: Vec<TracedVec<T>> = Vec::new();
    let mut k_all: Vec<TracedVec<T>> = Vec::new();
    let mut v_all: Vec<TracedVec<T>> = Vec::new();
    let mut pos: usize = 0;
    while pos < t
        invariant
            attention_shaped(*w, n_embd as int),
            3 * n_embd <= usize::MAX,
            rows_ok(*ops, x@, n_embd as int),
            t == x@.len(),
            e == n_embd,
            xs == formulas(x@),
            pos <= t,
            rows_ok(*ops, q_all@, e),
            rows_ok(*ops, k_all@, e),
            rows_ok(*ops, v_all@, e),
            formulas(q_all@) == parts_of(*w, xs, 0, e).take(pos as int),
            formulas(k_all@) == parts_of(*w, xs, e, e).take(pos as int),
            formulas(v_all@) == parts_of(*w, xs, 2 * e, e).take(pos as int),
        decreases t - pos,
    {
        assert(x@[pos as int].ok(*ops));
        let qkv: TracedVec<T> = linear_on(ops, &w.c_attn.w, &w.c_attn.b, &x[pos]);
        let q: TracedVec<T> = stretch(ops, &qkv, 0, n_embd);
        let k: TracedVec<T> = stretch(ops, &qkv, n_embd, n_embd);
        let v: TracedVec<T> = stretch(ops, &qkv, 2 * n_embd, n_embd);
        let ghost q0 = formulas(q_all@);
        let ghost k0 = formulas(k_all@);
        let ghost v0 = formulas(v_all@);
        q_all.push(q);
        k_all.push(k);
        v_all.push(v);
        pos += 1;
        proof {
            assert(formulas(q_all@) =~= q0.push(q.e@));
            assert(formulas(k_all@) =~= k0.push(k.e@));
            assert(formulas(v_all@) =~= v0.push(v.e@));
            assert(formulas(q_all@) =~= parts_of(*w, xs, 0, e).take(pos as int));
            assert(formulas(k_all@) =~= parts_of(*w, xs, e, e).take(pos as int));
            assert(formulas(v_all@) =~= parts_of(*w, xs, 2 * e, e).take(pos as int));
        }
    }
    let n: usize = n_embd / w.n_head;
    proof {
        vstd::arithmetic::div_mod::lemma_fundamental_div_mod(n_embd as int, w.n_head as int);
        assert(w.n_head * n == n_embd);
        assert(0 < n) by (nonlinear_arith)
            requires
                w.n_head * n == n_embd,
                0 < n_embd,
                0 <= n,
        ;
    }
    let scale: Traced<T> = Traced::ratio(ops, 1, 1).over(ops, Traced::count(ops, n).root(ops));
    let mut out: Vec<TracedVec<T>> = Vec::new();
    let mut p: usize = 0;
    while p < t
        invariant
            attention_shaped(*w, n_embd as int),
            0 < n,
            n == n_embd / w.n_head,
            w.n_head * n == n_embd,
            t == x@.len(),
            e == n_embd,
            xs == formulas(x@),
            scale.ok(*ops),
            scale.e@ == head_scale::<T>(n),
            rows_ok(*ops, q_all@, e),
            rows_ok(*ops, k_all@, e),
            rows_ok(*ops, v_all@, e),
            formulas(q_all@) == parts_of(*w, xs, 0, e),
            formulas(k_all@) == parts_of(*w, xs, e, e),
            formulas(v_all@) == parts_of(*w, xs, 2 * e, e),
            p <= t,
            rows_ok(*ops, out@, e),
            formulas(out@) == attention_of(*w, xs, e).take(p as int),
        decreases t - p,
    {
        assert(q_all@.len() == formulas(q_all@).len());
        assert(k_all@.len() == formulas(k_all@).len());
        assert(v_all@.len() == formulas(v_all@).len());
        assert(q_all@[p as int].ok(*ops));
        assert(formulas(q_all@)[p as int] == q_all@[p as int].e@);
        let a: TracedVec<T> = attended(ops, &q_all[p], &k_all, &v_all, p + 1, w.n_head, n, scale);
        let row: TracedVec<T> = linear_on(ops, &w.c_proj.w, &w.c_proj.b, &a);
        let ghost before = formulas(out@);
        out.push(row);
        p += 1;
        proof {
            assert(formulas(out@) =~= before.push(row.e@));
            assert(row.e@ == attention_at(*w, xs, e, p - 1));
            assert(formulas(out@) =~= attention_of(*w, xs, e).take(p as int));
        }
    }
    assert(attention_of(*w, xs, e).take(t as int) =~= attention_of(*w, xs, e));
    out
}

/// Causal self-attention over the positions.
pub fn causal_self_attention<T: Copy, A: Arith<T>>(
    ops: &A,
    w: &AttentionWeights<T>,
    x: &Vec<Vec<T>>,
    n_embd: usize,
) -> (out: Vec<Vec<T>>)
    requires
        attention_shaped(*w, n_embd as int),
        3 * n_embd <= usize::MAX,
        0 < n_embd,
        forall|p: int| 0 <= p < x@.len() ==> (#[trigger] x@[p])@.len() == n_embd,
    ensures
        rows_fit(*ops, attention_of(*w, rows_vals(x@), n_embd as int), out@),
{
    let rows: Vec<TracedVec<T>> = traced_rows(ops, x, n_embd);
    let out: Vec<TracedVec<T>> = attention_on(ops, w, &rows, n_embd);
    untraced_rows(ops, out)
}

} // verus!
