//! In exact arithmetic: how alike vectors are, and how much more alike related ones are.

use vstd::prelude::*;
use crate::arith::Arith;
#[allow(unused_imports)]
use crate::arith::{Expr, fits, one, over, times, total_of};
#[allow(unused_imports)]
use crate::averages::{
    is_mean, lemma_cancel, lemma_length_value, lemma_mean_value, lemma_quotient_undone,
};
#[allow(unused_imports)]
use crate::exact::{Curves, Dual, prod, value};
#[allow(unused_imports)]
use crate::linear_exact::{lemma_summed_same, summed};
#[allow(unused_imports)]
use crate::loss::norm_of;
#[allow(unused_imports)]
use crate::statistics::{faint, similarity_of};
#[allow(unused_imports)]
use crate::sub_harmonic::{discrimination_of, pair_similarities};
#[allow(unused_imports)]
use crate::training_exact::size;
#[allow(unused_imports)]
use crate::values::{exact, group_value, lemma_fits, lemma_scalar};

verus! {

/// The length of a vector of `n` entries.
pub open spec fn length_of(cu: Curves, a: spec_fn(int) -> real, n: int) -> real {
    (cu.root)(summed(|k: int| prod(a(k), a(k)), n))
}

/// `s` is how alike two vectors of `n` entries are: times both lengths it is their product, and it
/// is nothing where one of them hardly has a length.
pub open spec fn alike(
    cu: Curves,
    a: spec_fn(int) -> real,
    b: spec_fn(int) -> real,
    n: int,
    s: real,
) -> bool {
    let least = 1real / 10000000000real;
    if length_of(cu, a, n) < least || length_of(cu, b, n) < least {
        s == 0real
    } else {
        prod(s, prod(length_of(cu, a, n), length_of(cu, b, n))) == summed(
            |k: int| prod(a(k), b(k)),
            n,
        )
    }
}

#[verifier::spinoff_prover]
proof fn lemma_product_positive(a: real, b: real)
    requires
        a > 0real,
        b > 0real,
    ensures
        prod(a, b) > 0real,
{
    reveal(prod);
    assert(a * b > 0real) by (nonlinear_arith)
        requires
            a > 0real,
            b > 0real,
    ;
}

/// The similarity of two vectors of one length is how alike they are.
#[verifier::spinoff_prover]
pub proof fn law_similarity_is_likeness(cu: Curves, a: Seq<Expr<Dual>>, b: Seq<Expr<Dual>>)
    requires
        a.len() == b.len(),
    ensures
        alike(
            cu,
            |k: int| value(cu, a[k]),
            |k: int| value(cu, b[k]),
            a.len() as int,
            value(cu, similarity_of(a, b)),
        ),
{
    broadcast use group_value;

    let n = a.len() as int;
    let x = |k: int| value(cu, a[k]);
    let y = |k: int| value(cu, b[k]);
    lemma_length_value(cu, a);
    lemma_length_value(cu, b);
    lemma_scalar(cu, a, b);
    lemma_summed_same(
        |k: int| prod(value(cu, a[k]), value(cu, a[k])),
        |k: int| prod(x(k), x(k)),
        n,
    );
    lemma_summed_same(
        |k: int| prod(value(cu, b[k]), value(cu, b[k])),
        |k: int| prod(y(k), y(k)),
        n,
    );
    lemma_summed_same(
        |k: int| prod(value(cu, a[k]), value(cu, b[k])),
        |k: int| prod(x(k), y(k)),
        n,
    );
    let la = length_of(cu, x, n);
    let lb = length_of(cu, y, n);
    assert(value(cu, norm_of(a)) == la);
    assert(value(cu, norm_of(b)) == lb);
    let least = 1real / 10000000000real;
    if la >= least && lb >= least {
        lemma_product_positive(la, lb);
        lemma_quotient_undone(summed(|k: int| prod(x(k), y(k)), n), prod(la, lb));
    }
}

/// What compares related pairs of rows with random pairs: where the random pairs are alike beyond
/// the faint limit, the ratio times their mean likeness is the mean likeness of the related ones,
/// so it exceeds one exactly where the related pairs are the more alike; where they are hardly
/// alike, it is a hundred times the related mean; and it is one where there is nothing to compare.
#[verifier::spinoff_prover]
pub proof fn law_discrimination_compares<A: Arith<Dual>>(
    cu: Curves,
    ops: A,
    rows: Seq<Seq<Expr<Dual>>>,
    related: Seq<(usize, usize)>,
    random: Seq<(usize, usize)>,
    ratio: Dual,
    near: real,
    far: real,
)
    requires
        exact(cu, ops),
        related.len() <= usize::MAX,
        random.len() <= usize::MAX,
        fits(ops, discrimination_of(rows, related, random), ratio),
        is_mean(
            near,
            |i: int|
                size(
                    value(
                        cu,
                        similarity_of(rows[related[i].0 as int], rows[related[i].1 as int]),
                    ),
                ),
            related.len() as int,
        ),
        is_mean(
            far,
            |i: int|
                size(
                    value(
                        cu,
                        similarity_of(rows[random[i].0 as int], rows[random[i].1 as int]),
                    ),
                ),
            random.len() as int,
        ),
    ensures
        related.len() == 0 || random.len() == 0 ==> ratio.v == 1real,
        related.len() > 0 && random.len() > 0 && far < 1real / 10000000000real ==> ratio.v == prod(
            near,
            100real,
        ),
        related.len() > 0 && random.len() > 0 && far >= 1real / 10000000000real ==> {
            &&& prod(ratio.v, far) == near
            &&& (ratio.v > 1real <==> near > far)
        },
{
    broadcast use group_value;

    lemma_fits(cu, ops, discrimination_of(rows, related, random), ratio);
    if related.len() > 0 && random.len() > 0 {
        let es = pair_similarities(rows, related);
        let fs = pair_similarities(rows, random);
        let a = value(cu, over(total_of(es), Expr::Count(related.len() as usize)));
        let b = value(cu, over(total_of(fs), Expr::Count(random.len() as usize)));
        lemma_mean_value(cu, es);
        lemma_mean_value(cu, fs);
        let f = |i: int|
            size(
                value(cu, similarity_of(rows[related[i].0 as int], rows[related[i].1 as int])),
            );
        let g = |i: int|
            size(value(cu, similarity_of(rows[random[i].0 as int], rows[random[i].1 as int])));
        let e = |k: int| value(cu, es[k]);
        let h = |k: int| value(cu, fs[k]);
        assert forall|i: int| 0 <= i < related.len() implies #[trigger] e(i) == f(i) by {}
        assert forall|i: int| 0 <= i < random.len() implies #[trigger] h(i) == g(i) by {}
        lemma_summed_same(e, f, related.len() as int);
        lemma_summed_same(h, g, random.len() as int);
        lemma_cancel(a, near, related.len() as real);
        lemma_cancel(b, far, random.len() as real);
        if far >= 1real / 10000000000real {
            lemma_quotient_undone(near, far);
            lemma_compared(ratio.v, far);
        }
    }
}

#[verifier::spinoff_prover]
proof fn lemma_compared(r: real, b: real)
    requires
        b > 0real,
    ensures
        r > 1real <==> prod(r, b) > b,
{
    reveal(prod);
    assert(r > 1real <==> r * b > b) by (nonlinear_arith)
        requires
            b > 0real,
    ;
}

} // verus!
