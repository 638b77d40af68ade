//! The exact values of formulas, and arithmetic that is exact.

use vstd::prelude::*;
use crate::arith::Arith;
#[allow(unused_imports)]
use crate::arith::{
    Binary, Expr, Test, Unary, angle, binary_is, dot_of, fits, fits_all, larger, minus, one, over,
    pick, plus, raised, rest, test_is, times, top_of, total_of, un, unary_is, val, zero,
};
#[allow(unused_imports)]
use crate::exact::{Curves, Dual, dual_of, holds_of, inverse, lemma_constants, powered, prod, value};
#[allow(unused_imports)]
use crate::linear_exact::{lemma_dot, lemma_fold, summed};

verus! {

pub broadcast proof fn lemma_val(cu: Curves, x: Dual)
    ensures
        #[trigger] value(cu, val(x)) == x.v,
{
    reveal(dual_of);
}

pub broadcast proof fn lemma_ratio(cu: Curves, n: u64, m: u64)
    ensures
        #[trigger] value(cu, Expr::Ratio(n, m)) == n as real / m as real,
{
    reveal(dual_of);
}

pub broadcast proof fn lemma_zero(cu: Curves)
    ensures
        #[trigger] value(cu, zero()) == 0real,
{
    lemma_constants(cu);
}

pub broadcast proof fn lemma_one(cu: Curves)
    ensures
        #[trigger] value(cu, one()) == 1real,
{
    reveal(dual_of);
    assert(value(cu, one()) == 1u64 as real / 1u64 as real);
}

pub broadcast proof fn lemma_count(cu: Curves, n: usize)
    ensures
        #[trigger] value(cu, Expr::Count(n)) == n as real,
{
    reveal(dual_of);
}

pub broadcast proof fn lemma_pi(cu: Curves)
    ensures
        #[trigger] value(cu, Expr::Pi) == cu.pi,
{
    reveal(dual_of);
}

pub broadcast proof fn lemma_lowest(cu: Curves)
    ensures
        #[trigger] value(cu, Expr::Lowest) == cu.lowest,
{
    reveal(dual_of);
}

pub broadcast proof fn lemma_power(cu: Curves, x: Expr<Dual>, n: usize)
    ensures
        #[trigger] value(cu, Expr::Pow(Box::new(x), n)) == powered(value(cu, x), n as nat),
{
    reveal(dual_of);
}

pub broadcast proof fn lemma_sum(cu: Curves, x: Expr<Dual>, y: Expr<Dual>)
    ensures
        #[trigger] value(cu, plus(x, y)) == value(cu, x) + value(cu, y),
{
    reveal(dual_of);
}

pub broadcast proof fn lemma_difference(cu: Curves, x: Expr<Dual>, y: Expr<Dual>)
    ensures
        #[trigger] value(cu, minus(x, y)) == value(cu, x) - value(cu, y),
{
    reveal(dual_of);
}

pub broadcast proof fn lemma_product(cu: Curves, x: Expr<Dual>, y: Expr<Dual>)
    ensures
        #[trigger] value(cu, times(x, y)) == prod(value(cu, x), value(cu, y)),
{
    reveal(dual_of);
}

pub broadcast proof fn lemma_quotient(cu: Curves, x: Expr<Dual>, y: Expr<Dual>)
    ensures
        #[trigger] value(cu, over(x, y)) == prod(value(cu, x), inverse(value(cu, y))),
{
    reveal(dual_of);
}

pub broadcast proof fn lemma_greater(cu: Curves, x: Expr<Dual>, y: Expr<Dual>)
    ensures
        #[trigger] value(cu, larger(x, y)) == (if value(cu, x) >= value(cu, y) {
            value(cu, x)
        } else {
            value(cu, y)
        }),
{
    reveal(dual_of);
}

pub broadcast proof fn lemma_angle_value(cu: Curves, y: Expr<Dual>, x: Expr<Dual>)
    ensures
        #[trigger] value(cu, angle(y, x)) == (cu.angle)(value(cu, y), value(cu, x)),
{
    reveal(dual_of);
}

pub broadcast proof fn lemma_rest(cu: Curves, x: Expr<Dual>, y: Expr<Dual>)
    ensures
        #[trigger] value(cu, rest(x, y)) == (cu.rest)(value(cu, x), value(cu, y)),
{
    reveal(dual_of);
}

pub broadcast proof fn lemma_raised(cu: Curves, x: Expr<Dual>, y: Expr<Dual>)
    ensures
        #[trigger] value(cu, raised(x, y)) == (cu.raised)(value(cu, x), value(cu, y)),
{
    reveal(dual_of);
}

/// The value of an operation on one number.
pub open spec fn unary_value(cu: Curves, op: Unary, a: real) -> real {
    match op {
        Unary::Negated => -a,
        Unary::Exp => (cu.exp)(a),
        Unary::Ln => (cu.ln)(a),
        Unary::Root => (cu.root)(a),
        Unary::Sin => (cu.sin)(a),
        Unary::Cos => (cu.cos)(a),
        Unary::Tanh => (cu.tanh)(a),
        Unary::Abs => if a >= 0real {
            a
        } else {
            -a
        },
        Unary::Ceiling => (cu.ceiling)(a),
    }
}

pub broadcast proof fn lemma_unary(cu: Curves, op: Unary, x: Expr<Dual>)
    ensures
        #[trigger] value(cu, un(op, x)) == unary_value(cu, op, value(cu, x)),
{
    reveal(dual_of);
}

pub broadcast proof fn lemma_picked(
    cu: Curves,
    test: Test,
    x: Expr<Dual>,
    y: Expr<Dual>,
    yes: Expr<Dual>,
    no: Expr<Dual>,
)
    ensures
        #[trigger] value(cu, pick(test, x, y, yes, no)) == (if holds_of(
            test,
            value(cu, x),
            value(cu, y),
        ) {
            value(cu, yes)
        } else {
            value(cu, no)
        }),
{
    reveal(dual_of);
}

pub broadcast group group_value {
    lemma_val,
    lemma_ratio,
    lemma_zero,
    lemma_one,
    lemma_count,
    lemma_pi,
    lemma_lowest,
    lemma_power,
    lemma_sum,
    lemma_difference,
    lemma_product,
    lemma_quotient,
    lemma_greater,
    lemma_angle_value,
    lemma_rest,
    lemma_raised,
    lemma_unary,
    lemma_picked,
}

/// The value of a whole number.
#[verifier::spinoff_prover]
pub proof fn lemma_whole(cu: Curves, n: u64)
    ensures
        value(cu, Expr::<Dual>::Ratio(n, 1)) == n as real,
{
    lemma_ratio(cu, n, 1);
    assert(1u64 as real == 1real);
    assert(n as real / 1real == n as real);
}

/// The value of a sum of formulas.
#[verifier::spinoff_prover]
pub proof fn lemma_total(cu: Curves, xs: Seq<Expr<Dual>>)
    ensures
        value(cu, total_of(xs)) == summed(|k: int| value(cu, xs[k]), xs.len() as int),
{
    lemma_fold(cu, zero(), xs);
    lemma_constants(cu);
}

/// The value of a scalar product.
#[verifier::spinoff_prover]
pub proof fn lemma_scalar(cu: Curves, a: Seq<Expr<Dual>>, b: Seq<Expr<Dual>>)
    requires
        a.len() <= b.len(),
    ensures
        value(cu, dot_of(zero(), a, b)) == summed(
            |k: int| prod(value(cu, a[k]), value(cu, b[k])),
            a.len() as int,
        ),
{
    lemma_dot(cu, zero(), a, b);
    lemma_constants(cu);
}

/// The value of the largest entry: one of them, or the lowest number, and none exceeds it.
#[verifier::spinoff_prover]
pub proof fn lemma_top(cu: Curves, xs: Seq<Expr<Dual>>)
    ensures
        value(cu, top_of(xs)) >= cu.lowest,
        forall|k: int| 0 <= k < xs.len() ==> value(cu, #[trigger] xs[k]) <= value(cu, top_of(xs)),
        value(cu, top_of(xs)) == cu.lowest || exists|k: int|
            0 <= k < xs.len() && value(cu, #[trigger] xs[k]) == value(cu, top_of(xs)),
    decreases xs.len(),
{
    broadcast use group_value;

    if xs.len() > 0 {
        let n = xs.len() as int;
        let before = xs.drop_last();
        lemma_top(cu, before);
        assert(top_of(xs) == larger(top_of(before), xs[n - 1]));
        assert forall|k: int| 0 <= k < n implies value(cu, #[trigger] xs[k]) <= value(
            cu,
            top_of(xs),
        ) by {
            if k < n - 1 {
                assert(before[k] == xs[k]);
            }
        }
        if value(cu, top_of(xs)) != cu.lowest && value(cu, xs[n - 1]) != value(cu, top_of(xs)) {
            let k = choose|k: int|
                0 <= k < before.len() && value(cu, #[trigger] before[k]) == value(
                    cu,
                    top_of(before),
                );
            assert(xs[k] == before[k]);
        }
    }
}

/// Arithmetic that is exact: every operation gives the value that it stands for.
pub open spec fn exact<A: Arith<Dual>>(cu: Curves, ops: A) -> bool {
    &&& forall|n: u64, m: u64, out: Dual| #[trigger]
        call_ensures(A::ratio, (&ops, n, m), out) ==> out.v == n as real / m as real
    &&& forall|n: usize, out: Dual| #[trigger]
        call_ensures(A::count, (&ops, n), out) ==> out.v == n as real
    &&& forall|out: Dual| #[trigger] call_ensures(A::lowest, (&ops,), out) ==> out.v == cu.lowest
    &&& forall|out: Dual| #[trigger] call_ensures(A::pi, (&ops,), out) ==> out.v == cu.pi
    &&& forall|a: Dual, n: usize, out: Dual| #[trigger]
        call_ensures(A::power, (&ops, a, n), out) ==> out.v == powered(a.v, n as nat)
    &&& forall|op: Unary, a: Dual, out: Dual| #[trigger]
        unary_is(ops, op, a, out) ==> out.v == unary_value(cu, op, a.v)
    &&& forall|op: Binary, a: Dual, b: Dual, out: Dual| #[trigger]
        binary_is(ops, op, a, b, out) ==> out.v == binary_value(cu, op, a.v, b.v)
    &&& forall|test: Test, a: Dual, b: Dual, out: bool| #[trigger]
        test_is(ops, test, a, b, out) ==> out == holds_of(test, a.v, b.v)
    &&& forall|a: Dual, out: usize| #[trigger]
        call_ensures(A::whole, (&ops, a), out) ==> if a.v >= 0real {
            out as real <= a.v < out as real + 1real
        } else {
            out == 0
        }
}

/// The value of an operation on two numbers.
pub open spec fn binary_value(cu: Curves, op: Binary, a: real, b: real) -> real {
    match op {
        Binary::Plus => a + b,
        Binary::Minus => a - b,
        Binary::Times => prod(a, b),
        Binary::Over => prod(a, inverse(b)),
        Binary::Larger => if a >= b {
            a
        } else {
            b
        },
        Binary::Angle => (cu.angle)(a, b),
        Binary::Rest => (cu.rest)(a, b),
        Binary::Raised => (cu.raised)(a, b),
    }
}

/// What fits a formula in exact arithmetic is its value.
#[verifier::spinoff_prover]
pub proof fn lemma_fits<A: Arith<Dual>>(cu: Curves, ops: A, e: Expr<Dual>, out: Dual)
    requires
        exact(cu, ops),
        fits(ops, e, out),
    ensures
        out.v == value(cu, e),
    decreases e,
{
    reveal(dual_of);
    match e {
        Expr::Val(x) => {},
        Expr::Ratio(n, m) => {},
        Expr::Count(n) => {},
        Expr::Lowest => {},
        Expr::Pi => {},
        Expr::Pow(x, n) => {
            let a = choose|a: Dual| #[trigger]
                call_ensures(A::power, (&ops, a, n), out) && fits(ops, *x, a);
            lemma_fits(cu, ops, *x, a);
        },
        Expr::Un(op, x) => {
            let a = choose|a: Dual| #[trigger] unary_is(ops, op, a, out) && fits(ops, *x, a);
            lemma_fits(cu, ops, *x, a);
        },
        Expr::Bin(op, x, y) => {
            let (a, b) = choose|a: Dual, b: Dual| #[trigger]
                binary_is(ops, op, a, b, out) && fits(ops, *x, a) && fits(ops, *y, b);
            lemma_fits(cu, ops, *x, a);
            lemma_fits(cu, ops, *y, b);
        },
        Expr::Pick(test, x, y, yes, no) => {
            let (a, b, c) = choose|a: Dual, b: Dual, c: bool| #[trigger]
                test_is(ops, test, a, b, c) && fits(ops, *x, a) && fits(ops, *y, b) && (if c {
                    fits(ops, *yes, out)
                } else {
                    fits(ops, *no, out)
                });
            lemma_fits(cu, ops, *x, a);
            lemma_fits(cu, ops, *y, b);
            if c {
                lemma_fits(cu, ops, *yes, out);
            } else {
                lemma_fits(cu, ops, *no, out);
            }
        },
    }
}

/// What fits formulas in exact arithmetic are their values.
pub proof fn lemma_fits_all<A: Arith<Dual>>(
    cu: Curves,
    ops: A,
    es: Seq<Expr<Dual>>,
    out: Seq<Dual>,
)
    requires
        exact(cu, ops),
        fits_all(ops, es, out),
    ensures
        out.len() == es.len(),
        forall|i: int| 0 <= i < out.len() ==> (#[trigger] out[i]).v == value(cu, es[i]),
{
    assert forall|i: int| 0 <= i < out.len() implies (#[trigger] out[i]).v == value(cu, es[i]) by {
        lemma_fits(cu, ops, es[i], out[i]);
    }
}

} // verus!
