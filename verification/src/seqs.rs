//! Moving blocks of values between flat vectors and rows.

use vstd::prelude::*;

verus! {

/// The rows of a matrix laid end to end.
pub open spec fn rows_flat<T>(rows: Seq<Vec<T>>) -> Seq<T>
    decreases rows.len(),
{
    if rows.len() == 0 {
        Seq::empty()
    } else {
        rows_flat(rows.drop_last()) + rows.last()@
    }
}

/// Every row has `width` entries.
pub open spec fn rows_width<T>(rows: Seq<Vec<T>>, width: int) -> bool {
    forall|i: int| 0 <= i < rows.len() ==> (#[trigger] rows[i])@.len() == width
}

/// Appends `xs` to `out`.
pub fn extend_from<T: Copy>(out: &mut Vec<T>, xs: &[T])
    ensures
        final(out)@ == old(out)@ + xs@,
{
    let n: usize = xs.len();
    let mut i: usize = 0;
    while i < n
        invariant
            n == xs@.len(),
            i <= n,
            out@ == old(out)@ + xs@.subrange(0, i as int),
        decreases n - i,
    {
        out.push(xs[i]);
        i += 1;
        assert(xs@.subrange(0, i as int) =~= xs@.subrange(0, i - 1).push(xs@[i - 1]));
    }
    assert(xs@.subrange(0, n as int) =~= xs@);
}

/// Appends every row of `rows` to `out`, in order.
pub fn extend_rows<T: Copy>(out: &mut Vec<T>, rows: &Vec<Vec<T>>)
    ensures
        final(out)@ == old(out)@ + rows_flat(rows@),
{
    let n: usize = rows.len();
    let mut i: usize = 0;
    assert(rows_flat(rows@.subrange(0, 0)) =~= Seq::<T>::empty());
    while i < n
        invariant
            n == rows@.len(),
            i <= n,
            out@ == old(out)@ + rows_flat(rows@.subrange(0, i as int)),
        decreases n - i,
    {
        extend_from(out, &rows[i]);
        i += 1;
        assert(rows@.subrange(0, i as int).drop_last() =~= rows@.subrange(0, i - 1));
        assert(out@ =~= old(out)@ + rows_flat(rows@.subrange(0, i as int)));
    }
    assert(rows@.subrange(0, n as int) =~= rows@);
}

/// A matrix of equal rows flattens to rows times width entries.
pub proof fn lemma_rows_flat_len<T>(rows: Seq<Vec<T>>, width: int)
    requires
        rows_width(rows, width),
    ensures
        rows_flat(rows).len() == rows.len() * width,
    decreases rows.len(),
{
    if rows.len() > 0 {
        let front = rows.drop_last();
        assert(rows_width(front, width)) by {
            assert forall|i: int| 0 <= i < front.len() implies (#[trigger] front[i])@.len()
                == width by {
                assert(front[i] == rows[i]);
            }
        }
        lemma_rows_flat_len(front, width);
        assert(rows.last() == rows[rows.len() - 1]);
        assert(rows.len() * width == (rows.len() - 1) * width + width) by (nonlinear_arith);
    } else {
        assert(rows.len() * width == 0) by (nonlinear_arith)
            requires
                rows.len() == 0,
        ;
    }
}

/// Row `i` of a matrix of equal rows stands at offset `i * width`.
pub proof fn lemma_rows_flat_row<T>(rows: Seq<Vec<T>>, width: int, i: int)
    requires
        rows_width(rows, width),
        width >= 0,
        0 <= i < rows.len(),
    ensures
        0 <= i * width,
        i * width + width <= rows_flat(rows).len(),
        rows_flat(rows).subrange(i * width, i * width + width) == rows[i]@,
    decreases rows.len(),
{
    let front = rows.drop_last();
    assert(rows_width(front, width)) by {
        assert forall|k: int| 0 <= k < front.len() implies (#[trigger] front[k])@.len()
            == width by {
            assert(front[k] == rows[k]);
        }
    }
    lemma_rows_flat_len(rows, width);
    lemma_rows_flat_len(front, width);
    assert(0 <= i * width) by (nonlinear_arith)
        requires
            0 <= i,
            0 <= width,
    ;
    if i == rows.len() - 1 {
        assert(rows_flat(rows).subrange(i * width, i * width + width) =~= rows[i]@);
    } else {
        lemma_rows_flat_row(front, width, i);
        assert(front[i] == rows[i]);
        assert(rows_flat(rows).subrange(i * width, i * width + width) =~= rows_flat(
            front,
        ).subrange(i * width, i * width + width));
    }
}

/// Two matrices of the same shape that flatten alike have the same rows.
pub proof fn lemma_rows_flat_injective<T>(a: Seq<Vec<T>>, b: Seq<Vec<T>>, width: int)
    requires
        width >= 0,
        rows_width(a, width),
        rows_width(b, width),
        a.len() == b.len(),
        rows_flat(a) == rows_flat(b),
    ensures
        forall|i: int| 0 <= i < a.len() ==> (#[trigger] a[i])@ == b[i]@,
{
    assert forall|i: int| 0 <= i < a.len() implies (#[trigger] a[i])@ == b[i]@ by {
        lemma_rows_flat_row(a, width, i);
        lemma_rows_flat_row(b, width, i);
    }
}

/// Laying out one more row appends it.
pub proof fn lemma_rows_flat_push<T>(rows: Seq<Vec<T>>, row: Vec<T>)
    ensures
        rows_flat(rows.push(row)) == rows_flat(rows) + row@,
{
    assert(rows.push(row).drop_last() =~= rows);
}

/// Copies `n` entries of `params` from `start` on.
pub fn take<T: Copy>(params: &[T], start: usize, n: usize) -> (out: Vec<T>)
    requires
        start + n <= params@.len(),
    ensures
        out@ == params@.subrange(start as int, start + n),
{
    let mut out: Vec<T> = Vec::new();
    let mut i: usize = 0;
    let total: usize = params.len();
    while i < n
        invariant
            total == params@.len(),
            start + n <= params@.len(),
            i <= n,
            out@ == params@.subrange(start as int, start + i),
        decreases n - i,
    {
        out.push(params[start + i]);
        i += 1;
        assert(params@.subrange(start as int, start + i) =~= params@.subrange(
            start as int,
            start + i - 1,
        ).push(params@[start + i - 1]));
    }
    out
}

/// Cuts `n_rows` rows of `width` entries out of `params` from `start` on.
pub fn take_rows<T: Copy>(params: &[T], start: usize, n_rows: usize, width: usize) -> (out: Vec<
    Vec<T>,
>)
    requires
        start + n_rows * width <= params@.len(),
    ensures
        out@.len() == n_rows,
        rows_width(out@, width as int),
        rows_flat(out@) == params@.subrange(start as int, start + n_rows * width),
{
    let mut out: Vec<Vec<T>> = Vec::new();
    let mut i: usize = 0;
    let mut at: usize = start;
    let total: usize = params.len();
    assert(params@.subrange(start as int, start + 0) =~= Seq::<T>::empty());
    assert(0 * width == 0) by (nonlinear_arith);
    while i < n_rows
        invariant
            start + n_rows * width <= params@.len(),
            total == params@.len(),
            i <= n_rows,
            at == start + i * width,
            out@.len() == i,
            rows_width(out@, width as int),
            rows_flat(out@) == params@.subrange(start as int, start + i * width),
        decreases n_rows - i,
    {
        assert((i + 1) * width == i * width + width) by (nonlinear_arith);
        assert((i + 1) * width <= n_rows * width) by (nonlinear_arith)
            requires
                i + 1 <= n_rows,
        ;
        let row: Vec<T> = take(params, at, width);
        proof {
            lemma_rows_flat_push(out@, row);
        }
        assert(params@.subrange(start as int, start + (i + 1) * width) =~= params@.subrange(
            start as int,
            start + i * width,
        ) + row@);
        out.push(row);
        at = at + width;
        i += 1;
    }
    out
}

/// A vector of `n` copies of `zero`.
pub fn filled<T: Copy>(zero: T, n: usize) -> (out: Vec<T>)
    ensures
        out@ == Seq::new(n as nat, |i: int| zero),
{
    let mut out: Vec<T> = Vec::new();
    let mut i: usize = 0;
    while i < n
        invariant
            i <= n,
            out@ == Seq::new(i as nat, |k: int| zero),
        decreases n - i,
    {
        out.push(zero);
        i += 1;
        assert(out@ =~= Seq::new(i as nat, |k: int| zero));
    }
    out
}

/// `n_rows` rows of `width` copies of `zero`.
pub fn filled_rows<T: Copy>(zero: T, n_rows: usize, width: usize) -> (out: Vec<Vec<T>>)
    ensures
        out@.len() == n_rows,
        rows_width(out@, width as int),
        forall|i: int, j: int|
            0 <= i < n_rows && 0 <= j < width ==> #[trigger] out@[i]@[j] == zero,
{
    let mut out: Vec<Vec<T>> = Vec::new();
    let mut i: usize = 0;
    while i < n_rows
        invariant
            i <= n_rows,
            out@.len() == i,
            rows_width(out@, width as int),
            forall|k: int, j: int|
                0 <= k < i && 0 <= j < width ==> #[trigger] out@[k]@[j] == zero,
        decreases n_rows - i,
    {
        out.push(filled(zero, width));
        i += 1;
    }
    out
}

/// Splits `[r0, s0, r1, s1, ..]` into the first and the second components of its
/// first `n_bands` pairs.
pub fn deinterleave<T: Copy>(x: &[T], n_bands: usize) -> (parts: (Vec<T>, Vec<T>))
    requires
        n_bands * 2 <= x@.len(),
    ensures
        parts.0@ == Seq::new(n_bands as nat, |k: int| x@[2 * k]),
        parts.1@ == Seq::new(n_bands as nat, |k: int| x@[2 * k + 1]),
{
    let mut r: Vec<T> = Vec::new();
    let mut s: Vec<T> = Vec::new();
    let mut k: usize = 0;
    let total: usize = x.len();
    while k < n_bands
        invariant
            total == x@.len(),
            n_bands * 2 <= x@.len(),
            k <= n_bands,
            r@.len() == k,
            s@.len() == k,
            forall|i: int| 0 <= i < k ==> #[trigger] r@[i] == x@[2 * i],
            forall|i: int| 0 <= i < k ==> #[trigger] s@[i] == x@[2 * i + 1],
        decreases n_bands - k,
    {
        r.push(x[k * 2]);
        s.push(x[k * 2 + 1]);
        k += 1;
    }
    (r, s)
}

/// Joins two component vectors into `[r0, s0, r1, s1, ..]`.
pub fn interleave<T: Copy>(r: &[T], s: &[T]) -> (out: Vec<T>)
    requires
        r@.len() == s@.len(),
    ensures
        out@ == interleaved(r@, s@),
{
    let n: usize = r.len();
    let mut out: Vec<T> = Vec::new();
    let mut k: usize = 0;
    while k < n
        invariant
            n == r@.len(),
            n == s@.len(),
            k <= n,
            out@.len() == 2 * k,
            forall|i: int|
                0 <= i < 2 * k ==> #[trigger] out@[i] == (if i % 2 == 0 {
                    r@[i / 2]
                } else {
                    s@[i / 2]
                }),
        decreases n - k,
    {
        out.push(r[k]);
        out.push(s[k]);
        k += 1;
    }
    assert(out@ =~= interleaved(r@, s@));
    out
}

/// Two component sequences joined pairwise.
pub open spec fn interleaved<T>(r: Seq<T>, s: Seq<T>) -> Seq<T> {
    Seq::new(
        2 * r.len(),
        |i: int|
            if i % 2 == 0 {
                r[i / 2]
            } else {
                s[i / 2]
            },
    )
}

/// Splitting a joined vector gives back its two components.
pub proof fn law_deinterleave_undoes_interleave<T>(r: Seq<T>, s: Seq<T>)
    requires
        r.len() == s.len(),
    ensures
        Seq::new(r.len(), |k: int| interleaved(r, s)[2 * k]) == r,
        Seq::new(r.len(), |k: int| interleaved(r, s)[2 * k + 1]) == s,
{
    assert(Seq::new(r.len(), |k: int| interleaved(r, s)[2 * k]) =~= r);
    assert(Seq::new(r.len(), |k: int| interleaved(r, s)[2 * k + 1]) =~= s);
}

/// Joining the two components of a vector of whole pairs gives the vector back.
pub proof fn law_interleave_undoes_deinterleave<T>(x: Seq<T>, n_bands: nat)
    requires
        x.len() == 2 * n_bands,
    ensures
        interleaved(
            Seq::new(n_bands, |k: int| x[2 * k]),
            Seq::new(n_bands, |k: int| x[2 * k + 1]),
        ) == x,
{
    assert(interleaved(
        Seq::new(n_bands, |k: int| x[2 * k]),
        Seq::new(n_bands, |k: int| x[2 * k + 1]),
    ) =~= x);
}

/// Joins the two halves of `raw` (all first components, then all second ones)
/// pairwise.
pub fn interleave_halves<T: Copy>(raw: &[T], n_bands: usize) -> (out: Vec<T>)
    requires
        2 * n_bands <= raw@.len(),
    ensures
        out@ == interleaved(
            raw@.subrange(0, n_bands as int),
            raw@.subrange(n_bands as int, 2 * n_bands),
        ),
{
    let r: Vec<T> = take(raw, 0, n_bands);
    let s: Vec<T> = take(raw, n_bands, n_bands);
    interleave(&r, &s)
}

/// Entry `i * n + j` of a flat square matrix moves to `j * n + i`.
pub open spec fn transposed<T>(w: Seq<T>, n: int) -> Seq<T> {
    Seq::new((n * n) as nat, |k: int| w[(k % n) * n + k / n])
}

/// The transpose of a flat row-major `n` by `n` matrix.
pub fn transpose<T: Copy>(w: &[T], n: usize) -> (out: Vec<T>)
    requires
        n * n == w@.len(),
    ensures
        out@ == transposed(w@, n as int),
{
    let mut out: Vec<T> = Vec::new();
    let mut j: usize = 0;
    let total: usize = w.len();
    assert(0 * n == 0) by (nonlinear_arith);
    while j < n
        invariant
            total == w@.len(),
            n * n == w@.len(),
            j <= n,
            out@.len() == j * n,
            forall|k: int|
                0 <= k < out@.len() ==> #[trigger] out@[k] == w@[(k % n as int) * n + k / n as int],
        decreases n - j,
    {
        let mut i: usize = 0;
        while i < n
            invariant
                total == w@.len(),
                n * n == w@.len(),
                i <= n,
                j < n,
                out@.len() == j * n + i,
                forall|k: int|
                    0 <= k < out@.len() ==> #[trigger] out@[k] == w@[(k % n as int) * n + k / n as int],
            decreases n - i,
        {
            assert(i * n + j < n * n) by (nonlinear_arith)
                requires
                    i < n,
                    j < n,
            ;
            assert(0 <= i * n) by (nonlinear_arith);
            proof {
                vstd::arithmetic::div_mod::lemma_fundamental_div_mod_converse(
                    j * n + i,
                    n as int,
                    j as int,
                    i as int,
                );
            }
            out.push(w[i * n + j]);
            i += 1;
        }
        assert((j + 1) * n == j * n + n) by (nonlinear_arith);
        j += 1;
    }
    assert(out@ =~= transposed(w@, n as int));
    out
}

/// Transposing twice gives the matrix back.
pub proof fn law_transpose_twice<T>(w: Seq<T>, n: int)
    requires
        n >= 0,
        w.len() == n * n,
    ensures
        transposed(transposed(w, n), n) == w,
{
    assert(n * n >= 0) by (nonlinear_arith);
    assert forall|k: int| 0 <= k < n * n implies #[trigger] transposed(transposed(w, n), n)[k]
        == w[k] by {
        assert(n > 0) by (nonlinear_arith)
            requires
                n >= 0,
                0 <= k < n * n,
        ;
        let i = k / n;
        let j = k % n;
        vstd::arithmetic::div_mod::lemma_fundamental_div_mod(k, n);
        assert(n * i == i * n) by (nonlinear_arith);
        assert(0 <= i < n) by (nonlinear_arith)
            requires
                n > 0,
                0 <= j < n,
                k == n * i + j,
                0 <= k < n * n,
        ;
        assert(0 <= j * n + i < n * n) by (nonlinear_arith)
            requires
                0 <= i < n,
                0 <= j < n,
        ;
        vstd::arithmetic::div_mod::lemma_fundamental_div_mod_converse(j * n + i, n, j, i);
        assert(transposed(transposed(w, n), n)[k] == transposed(w, n)[j * n + i]);
    }
    assert(transposed(transposed(w, n), n) =~= w);
}

} // verus!
