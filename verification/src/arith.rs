//! The arithmetic that the model computes with, and expressions over it.
//!
//! The operations are handed in. Nothing is assumed of them: not that sums commute, not
//! that they are exact, not even that an operation gives the same result twice. What is
//! proved of a computation is its formula: an expression tree that says which operation
//! was applied to which operands, in which order.

use vstd::prelude::*;

verus! {

/// Operations on scalars.
pub trait Arith<T: Copy> {
    /// The quotient of two whole numbers.
    fn ratio(&self, num: u64, den: u64) -> T;

    /// A whole number.
    fn count(&self, n: usize) -> T;

    /// Less than every number.
    fn lowest(&self) -> T;

    fn plus(&self, a: T, b: T) -> T;

    fn minus(&self, a: T, b: T) -> T;

    fn times(&self, a: T, b: T) -> T;

    fn over(&self, a: T, b: T) -> T;

    /// The larger of two numbers.
    fn larger(&self, a: T, b: T) -> T;

    /// The number with the opposite sign.
    fn negated(&self, a: T) -> T;

    /// The natural exponential.
    fn exp(&self, a: T) -> T;

    /// The natural logarithm.
    fn ln(&self, a: T) -> T;

    /// The square root.
    fn root(&self, a: T) -> T;

    /// The hyperbolic tangent.
    fn tanh(&self, a: T) -> T;

    fn sin(&self, a: T) -> T;

    fn cos(&self, a: T) -> T;

    /// The number without its sign.
    fn abs(&self, a: T) -> T;

    /// The least whole number that is not below the number.
    fn ceiling(&self, a: T) -> T;

    /// The angle of the point with the height `y` and the width `x`.
    fn angle(&self, y: T, x: T) -> T;

    /// What remains of the first number after taking away whole multiples of the second: at
    /// least zero.
    fn rest(&self, a: T, b: T) -> T;

    /// The first number to the power of the second.
    fn raised(&self, a: T, b: T) -> T;

    /// The number to a whole power.
    fn power(&self, a: T, n: usize) -> T;

    /// The ratio of a circle's circumference to its diameter.
    fn pi(&self) -> T;

    /// Whether the first number is the larger one.
    fn exceeds(&self, a: T, b: T) -> bool;

    /// Whether the first number is at most the second.
    fn at_most(&self, a: T, b: T) -> bool;

    /// Whether two numbers are equal.
    fn equals(&self, a: T, b: T) -> bool;

    /// How many whole ones a number holds: none where it is negative or no number.
    fn whole(&self, a: T) -> usize;
}

/// Operations with two operands.
#[derive(Clone, Copy, Debug, PartialEq, Eq, Structural)]
pub enum Binary {
    Plus,
    Minus,
    Times,
    Over,
    Larger,
    Angle,
    Rest,
    Raised,
}

/// Operations with one operand.
#[derive(Clone, Copy, Debug, PartialEq, Eq, Structural)]
pub enum Unary {
    Negated,
    Exp,
    Ln,
    Root,
    Tanh,
    Sin,
    Cos,
    Abs,
    Ceiling,
}

/// Comparisons.
#[derive(Clone, Copy, Debug, PartialEq, Eq, Structural)]
pub enum Test {
    Exceeds,
    AtMost,
    Equals,
}

/// A formula.
pub enum Expr<T> {
    Val(T),
    Ratio(u64, u64),
    Count(usize),
    Lowest,
    Pi,
    Pow(Box<Expr<T>>, usize),
    Un(Unary, Box<Expr<T>>),
    Bin(Binary, Box<Expr<T>>, Box<Expr<T>>),
    /// The third expression where the comparison of the first two holds, else the fourth.
    Pick(Test, Box<Expr<T>>, Box<Expr<T>>, Box<Expr<T>>, Box<Expr<T>>),
}

/// `out` is a result of the operation on `a` and `b`.
pub open spec fn binary_is<T: Copy, A: Arith<T>>(
    ops: A,
    op: Binary,
    a: T,
    b: T,
    out: T,
) -> bool {
    match op {
        Binary::Plus => call_ensures(A::plus, (&ops, a, b), out),
        Binary::Minus => call_ensures(A::minus, (&ops, a, b), out),
        Binary::Times => call_ensures(A::times, (&ops, a, b), out),
        Binary::Over => call_ensures(A::over, (&ops, a, b), out),
        Binary::Larger => call_ensures(A::larger, (&ops, a, b), out),
        Binary::Angle => call_ensures(A::angle, (&ops, a, b), out),
        Binary::Rest => call_ensures(A::rest, (&ops, a, b), out),
        Binary::Raised => call_ensures(A::raised, (&ops, a, b), out),
    }
}

/// `out` is a result of the operation on `a`.
pub open spec fn unary_is<T: Copy, A: Arith<T>>(ops: A, op: Unary, a: T, out: T) -> bool {
    match op {
        Unary::Negated => call_ensures(A::negated, (&ops, a), out),
        Unary::Exp => call_ensures(A::exp, (&ops, a), out),
        Unary::Ln => call_ensures(A::ln, (&ops, a), out),
        Unary::Root => call_ensures(A::root, (&ops, a), out),
        Unary::Tanh => call_ensures(A::tanh, (&ops, a), out),
        Unary::Sin => call_ensures(A::sin, (&ops, a), out),
        Unary::Cos => call_ensures(A::cos, (&ops, a), out),
        Unary::Abs => call_ensures(A::abs, (&ops, a), out),
        Unary::Ceiling => call_ensures(A::ceiling, (&ops, a), out),
    }
}

/// `out` is a result of the comparison of `a` and `b`.
pub open spec fn test_is<T: Copy, A: Arith<T>>(ops: A, test: Test, a: T, b: T, out: bool) -> bool {
    match test {
        Test::Exceeds => call_ensures(A::exceeds, (&ops, a, b), out),
        Test::AtMost => call_ensures(A::at_most, (&ops, a, b), out),
        Test::Equals => call_ensures(A::equals, (&ops, a, b), out),
    }
}

/// `out` is a value of the formula.
pub open spec fn fits<T: Copy, A: Arith<T>>(ops: A, e: Expr<T>, out: T) -> bool
    decreases e,
{
    match e {
        Expr::Val(v) => out == v,
        Expr::Ratio(num, den) => call_ensures(A::ratio, (&ops, num, den), out),
        Expr::Count(n) => call_ensures(A::count, (&ops, n), out),
        Expr::Lowest => call_ensures(A::lowest, (&ops,), out),
        Expr::Pi => call_ensures(A::pi, (&ops,), out),
        Expr::Pow(x, n) => exists|a: T| #[trigger]
            call_ensures(A::power, (&ops, a, n), out) && fits(ops, *x, a),
        Expr::Un(op, x) => exists|a: T| #[trigger]
            unary_is(ops, op, a, out) && fits(ops, *x, a),
        Expr::Bin(op, x, y) => exists|a: T, b: T| #[trigger]
            binary_is(ops, op, a, b, out) && fits(ops, *x, a) && fits(ops, *y, b),
        Expr::Pick(test, x, y, yes, no) => exists|a: T, b: T, c: bool| #[trigger]
            test_is(ops, test, a, b, c) && fits(ops, *x, a) && fits(ops, *y, b) && (if c {
                fits(ops, *yes, out)
            } else {
                fits(ops, *no, out)
            }),
    }
}

/// A number as a formula.
pub open spec fn val<T>(v: T) -> Expr<T> {
    Expr::Val(v)
}

/// Zero.
pub open spec fn zero<T>() -> Expr<T> {
    Expr::Ratio(0, 1)
}

/// One.
pub open spec fn one<T>() -> Expr<T> {
    Expr::Ratio(1, 1)
}

/// `x + y`
pub open spec fn plus<T>(x: Expr<T>, y: Expr<T>) -> Expr<T> {
    Expr::Bin(Binary::Plus, Box::new(x), Box::new(y))
}

/// `x - y`
pub open spec fn minus<T>(x: Expr<T>, y: Expr<T>) -> Expr<T> {
    Expr::Bin(Binary::Minus, Box::new(x), Box::new(y))
}

/// `x * y`
pub open spec fn times<T>(x: Expr<T>, y: Expr<T>) -> Expr<T> {
    Expr::Bin(Binary::Times, Box::new(x), Box::new(y))
}

/// `x / y`
pub open spec fn over<T>(x: Expr<T>, y: Expr<T>) -> Expr<T> {
    Expr::Bin(Binary::Over, Box::new(x), Box::new(y))
}

/// The larger of two numbers.
pub open spec fn larger<T>(x: Expr<T>, y: Expr<T>) -> Expr<T> {
    Expr::Bin(Binary::Larger, Box::new(x), Box::new(y))
}

/// The angle of the point `(x, y)`.
pub open spec fn angle<T>(y: Expr<T>, x: Expr<T>) -> Expr<T> {
    Expr::Bin(Binary::Angle, Box::new(y), Box::new(x))
}

/// The remainder of `x / y`.
pub open spec fn rest<T>(x: Expr<T>, y: Expr<T>) -> Expr<T> {
    Expr::Bin(Binary::Rest, Box::new(x), Box::new(y))
}

/// `x` to the power `y`.
pub open spec fn raised<T>(x: Expr<T>, y: Expr<T>) -> Expr<T> {
    Expr::Bin(Binary::Raised, Box::new(x), Box::new(y))
}

/// An operation on one number.
pub open spec fn un<T>(op: Unary, x: Expr<T>) -> Expr<T> {
    Expr::Un(op, Box::new(x))
}

/// `yes` where the test holds of `x` and `y`, `no` elsewhere.
pub open spec fn pick<T>(
    test: Test,
    x: Expr<T>,
    y: Expr<T>,
    yes: Expr<T>,
    no: Expr<T>,
) -> Expr<T> {
    Expr::Pick(test, Box::new(x), Box::new(y), Box::new(yes), Box::new(no))
}

/// Values as formulas.
pub open spec fn vals<T>(xs: Seq<T>) -> Seq<Expr<T>> {
    xs.map_values(|x: T| val(x))
}

/// Every entry of `xs` is a value of the formula at its place.
pub open spec fn fits_all<T: Copy, A: Arith<T>>(ops: A, es: Seq<Expr<T>>, xs: Seq<T>) -> bool {
    &&& es.len() == xs.len()
    &&& forall|i: int| 0 <= i < xs.len() ==> fits(ops, es[i], #[trigger] xs[i])
}

/// The entries taken into `start` one after the other.
pub open spec fn fold_of<T>(op: Binary, start: Expr<T>, xs: Seq<Expr<T>>) -> Expr<T>
    decreases xs.len(),
{
    if xs.len() == 0 {
        start
    } else {
        Expr::Bin(op, Box::new(fold_of(op, start, xs.drop_last())), Box::new(xs.last()))
    }
}

/// The sum of the entries, from zero.
pub open spec fn total_of<T>(xs: Seq<Expr<T>>) -> Expr<T> {
    fold_of(Binary::Plus, zero(), xs)
}

/// The largest entry, not below the lowest number.
pub open spec fn top_of<T>(xs: Seq<Expr<T>>) -> Expr<T> {
    fold_of(Binary::Larger, Expr::Lowest, xs)
}

/// The products of the entries at the same place.
pub open spec fn products_of<T>(a: Seq<Expr<T>>, b: Seq<Expr<T>>) -> Seq<Expr<T>> {
    Seq::new(a.len(), |i: int| times(a[i], b[i]))
}

/// The products of the entries at the same place, added to `start`.
pub open spec fn dot_of<T>(start: Expr<T>, a: Seq<Expr<T>>, b: Seq<Expr<T>>) -> Expr<T> {
    fold_of(Binary::Plus, start, products_of(a, b))
}

/// A number together with a formula whose value it is.
#[derive(Clone, Copy)]
pub struct Traced<T> {
    pub v: T,
    pub e: Ghost<Expr<T>>,
}

impl<T: Copy> Traced<T> {
    /// The number is a value of the formula.
    pub open spec fn ok<A: Arith<T>>(self, ops: A) -> bool {
        fits(ops, self.e@, self.v)
    }

    /// A number that is its own formula.
    pub fn of<A: Arith<T>>(ops: &A, v: T) -> (r: Self)
        ensures
            r.ok(*ops),
            r.v == v,
            r.e@ == val(v),
    {
        Traced { v, e: Ghost(val(v)) }
    }

    /// A fraction, traced.
    pub fn ratio<A: Arith<T>>(ops: &A, num: u64, den: u64) -> (r: Self)
        ensures
            r.ok(*ops),
            r.e@ == Expr::<T>::Ratio(num, den),
    {
        let v: T = ops.ratio(num, den);
        Traced { v, e: Ghost(Expr::Ratio(num, den)) }
    }

    /// A count, traced.
    pub fn count<A: Arith<T>>(ops: &A, n: usize) -> (r: Self)
        ensures
            r.ok(*ops),
            r.e@ == Expr::<T>::Count(n),
    {
        let v: T = ops.count(n);
        Traced { v, e: Ghost(Expr::Count(n)) }
    }

    /// A sum, traced.
    pub fn plus<A: Arith<T>>(self, ops: &A, b: Self) -> (r: Self)
        requires
            self.ok(*ops),
            b.ok(*ops),
        ensures
            r.ok(*ops),
            r.e@ == plus(self.e@, b.e@),
    {
        let v: T = ops.plus(self.v, b.v);
        assert(binary_is(*ops, Binary::Plus, self.v, b.v, v));
        Traced { v, e: Ghost(plus(self.e@, b.e@)) }
    }

    /// A difference, traced.
    pub fn minus<A: Arith<T>>(self, ops: &A, b: Self) -> (r: Self)
        requires
            self.ok(*ops),
            b.ok(*ops),
        ensures
            r.ok(*ops),
            r.e@ == minus(self.e@, b.e@),
    {
        let v: T = ops.minus(self.v, b.v);
        assert(binary_is(*ops, Binary::Minus, self.v, b.v, v));
        Traced { v, e: Ghost(minus(self.e@, b.e@)) }
    }

    /// A product, traced.
    pub fn times<A: Arith<T>>(self, ops: &A, b: Self) -> (r: Self)
        requires
            self.ok(*ops),
            b.ok(*ops),
        ensures
            r.ok(*ops),
            r.e@ == times(self.e@, b.e@),
    {
        let v: T = ops.times(self.v, b.v);
        assert(binary_is(*ops, Binary::Times, self.v, b.v, v));
        Traced { v, e: Ghost(times(self.e@, b.e@)) }
    }

    /// A quotient, traced.
    pub fn over<A: Arith<T>>(self, ops: &A, b: Self) -> (r: Self)
        requires
            self.ok(*ops),
            b.ok(*ops),
        ensures
            r.ok(*ops),
            r.e@ == over(self.e@, b.e@),
    {
        let v: T = ops.over(self.v, b.v);
        assert(binary_is(*ops, Binary::Over, self.v, b.v, v));
        Traced { v, e: Ghost(over(self.e@, b.e@)) }
    }

    /// The larger of two numbers, traced.
    pub fn larger<A: Arith<T>>(self, ops: &A, b: Self) -> (r: Self)
        requires
            self.ok(*ops),
            b.ok(*ops),
        ensures
            r.ok(*ops),
            r.e@ == larger(self.e@, b.e@),
    {
        let v: T = ops.larger(self.v, b.v);
        assert(binary_is(*ops, Binary::Larger, self.v, b.v, v));
        Traced { v, e: Ghost(larger(self.e@, b.e@)) }
    }

    /// The number with its sign turned, traced.
    pub fn negated<A: Arith<T>>(self, ops: &A) -> (r: Self)
        requires
            self.ok(*ops),
        ensures
            r.ok(*ops),
            r.e@ == un(Unary::Negated, self.e@),
    {
        let v: T = ops.negated(self.v);
        assert(unary_is(*ops, Unary::Negated, self.v, v));
        Traced { v, e: Ghost(un(Unary::Negated, self.e@)) }
    }

    /// The exponential, traced.
    pub fn exp<A: Arith<T>>(self, ops: &A) -> (r: Self)
        requires
            self.ok(*ops),
        ensures
            r.ok(*ops),
            r.e@ == un(Unary::Exp, self.e@),
    {
        let v: T = ops.exp(self.v);
        assert(unary_is(*ops, Unary::Exp, self.v, v));
        Traced { v, e: Ghost(un(Unary::Exp, self.e@)) }
    }

    /// The natural logarithm, traced.
    pub fn ln<A: Arith<T>>(self, ops: &A) -> (r: Self)
        requires
            self.ok(*ops),
        ensures
            r.ok(*ops),
            r.e@ == un(Unary::Ln, self.e@),
    {
        let v: T = ops.ln(self.v);
        assert(unary_is(*ops, Unary::Ln, self.v, v));
        Traced { v, e: Ghost(un(Unary::Ln, self.e@)) }
    }

    /// The square root, traced.
    pub fn root<A: Arith<T>>(self, ops: &A) -> (r: Self)
        requires
            self.ok(*ops),
        ensures
            r.ok(*ops),
            r.e@ == un(Unary::Root, self.e@),
    {
        let v: T = ops.root(self.v);
        assert(unary_is(*ops, Unary::Root, self.v, v));
        Traced { v, e: Ghost(un(Unary::Root, self.e@)) }
    }

    /// The hyperbolic tangent, traced.
    pub fn tanh<A: Arith<T>>(self, ops: &A) -> (r: Self)
        requires
            self.ok(*ops),
        ensures
            r.ok(*ops),
            r.e@ == un(Unary::Tanh, self.e@),
    {
        let v: T = ops.tanh(self.v);
        assert(unary_is(*ops, Unary::Tanh, self.v, v));
        Traced { v, e: Ghost(un(Unary::Tanh, self.e@)) }
    }

    /// The sine, traced.
    pub fn sin<A: Arith<T>>(self, ops: &A) -> (r: Self)
        requires
            self.ok(*ops),
        ensures
            r.ok(*ops),
            r.e@ == un(Unary::Sin, self.e@),
    {
        let v: T = ops.sin(self.v);
        assert(unary_is(*ops, Unary::Sin, self.v, v));
        Traced { v, e: Ghost(un(Unary::Sin, self.e@)) }
    }

    /// The cosine, traced.
    pub fn cos<A: Arith<T>>(self, ops: &A) -> (r: Self)
        requires
            self.ok(*ops),
        ensures
            r.ok(*ops),
            r.e@ == un(Unary::Cos, self.e@),
    {
        let v: T = ops.cos(self.v);
        assert(unary_is(*ops, Unary::Cos, self.v, v));
        Traced { v, e: Ghost(un(Unary::Cos, self.e@)) }
    }

    /// The absolute value, traced.
    pub fn abs<A: Arith<T>>(self, ops: &A) -> (r: Self)
        requires
            self.ok(*ops),
        ensures
            r.ok(*ops),
            r.e@ == un(Unary::Abs, self.e@),
    {
        let v: T = ops.abs(self.v);
        assert(unary_is(*ops, Unary::Abs, self.v, v));
        Traced { v, e: Ghost(un(Unary::Abs, self.e@)) }
    }

    /// The number rounded up, traced.
    pub fn ceiling<A: Arith<T>>(self, ops: &A) -> (r: Self)
        requires
            self.ok(*ops),
        ensures
            r.ok(*ops),
            r.e@ == un(Unary::Ceiling, self.e@),
    {
        let v: T = ops.ceiling(self.v);
        assert(unary_is(*ops, Unary::Ceiling, self.v, v));
        Traced { v, e: Ghost(un(Unary::Ceiling, self.e@)) }
    }

    /// The angle of the point with this height and the width `x`.
    pub fn angle<A: Arith<T>>(self, ops: &A, x: Self) -> (r: Self)
        requires
            self.ok(*ops),
            x.ok(*ops),
        ensures
            r.ok(*ops),
            r.e@ == angle(self.e@, x.e@),
    {
        let v: T = ops.angle(self.v, x.v);
        assert(binary_is(*ops, Binary::Angle, self.v, x.v, v));
        Traced { v, e: Ghost(angle(self.e@, x.e@)) }
    }

    /// What remains after taking away whole multiples of `b`.
    pub fn rest<A: Arith<T>>(self, ops: &A, b: Self) -> (r: Self)
        requires
            self.ok(*ops),
            b.ok(*ops),
        ensures
            r.ok(*ops),
            r.e@ == rest(self.e@, b.e@),
    {
        let v: T = ops.rest(self.v, b.v);
        assert(binary_is(*ops, Binary::Rest, self.v, b.v, v));
        Traced { v, e: Ghost(rest(self.e@, b.e@)) }
    }

    /// A power, traced.
    pub fn raised<A: Arith<T>>(self, ops: &A, b: Self) -> (r: Self)
        requires
            self.ok(*ops),
            b.ok(*ops),
        ensures
            r.ok(*ops),
            r.e@ == raised(self.e@, b.e@),
    {
        let v: T = ops.raised(self.v, b.v);
        assert(binary_is(*ops, Binary::Raised, self.v, b.v, v));
        Traced { v, e: Ghost(raised(self.e@, b.e@)) }
    }

    /// A power with a whole exponent, traced.
    pub fn power<A: Arith<T>>(self, ops: &A, n: usize) -> (r: Self)
        requires
            self.ok(*ops),
        ensures
            r.ok(*ops),
            r.e@ == Expr::Pow(Box::new(self.e@), n),
    {
        let v: T = ops.power(self.v, n);
        Traced { v, e: Ghost(Expr::Pow(Box::new(self.e@), n)) }
    }

    /// The lowest number, traced.
    pub fn lowest<A: Arith<T>>(ops: &A) -> (r: Self)
        ensures
            r.ok(*ops),
            r.e@ == Expr::<T>::Lowest,
    {
        let v: T = ops.lowest();
        Traced { v, e: Ghost(Expr::Lowest) }
    }

    /// Half a turn, traced.
    pub fn pi<A: Arith<T>>(ops: &A) -> (r: Self)
        ensures
            r.ok(*ops),
            r.e@ == Expr::<T>::Pi,
    {
        let v: T = ops.pi();
        Traced { v, e: Ghost(Expr::Pi) }
    }
}

/// Numbers together with formulas whose values they are.
pub struct TracedVec<T> {
    pub v: Vec<T>,
    pub e: Ghost<Seq<Expr<T>>>,
}

impl<T: Copy> TracedVec<T> {
    /// Every number is a value of its formula.
    pub open spec fn ok<A: Arith<T>>(&self, ops: A) -> bool {
        fits_all(ops, self.e@, self.v@)
    }

    /// No numbers yet.
    pub fn new<A: Arith<T>>(ops: &A) -> (r: Self)
        ensures
            r.ok(*ops),
            r.e@ == Seq::<Expr<T>>::empty(),
    {
        TracedVec { v: Vec::new(), e: Ghost(Seq::empty()) }
    }

    /// Numbers that are their own formulas.
    pub fn of<A: Arith<T>>(ops: &A, v: Vec<T>) -> (r: Self)
        ensures
            r.ok(*ops),
            r.v == v,
            r.e@ == vals(v@),
    {
        TracedVec { v, e: Ghost(vals(v@)) }
    }

    /// How many numbers there are.
    pub fn len(&self) -> (n: usize)
        ensures
            n == self.v@.len(),
    {
        self.v.len()
    }

    /// The number at `i`.
    pub fn get<A: Arith<T>>(&self, ops: &A, i: usize) -> (r: Traced<T>)
        requires
            self.ok(*ops),
            i < self.v@.len(),
        ensures
            r.ok(*ops),
            r.v == self.v@[i as int],
            r.e@ == self.e@[i as int],
    {
        Traced { v: self.v[i], e: Ghost(self.e@[i as int]) }
    }

    /// Appends a number.
    pub fn push<A: Arith<T>>(&mut self, ops: &A, x: Traced<T>)
        requires
            old(self).ok(*ops),
            x.ok(*ops),
        ensures
            final(self).ok(*ops),
            final(self).v@ == old(self).v@.push(x.v),
            final(self).e@ == old(self).e@.push(x.e@),
    {
        self.v.push(x.v);
        self.e = Ghost(self.e@.push(x.e@));
    }

    /// Replaces the number at `i`.
    pub fn set<A: Arith<T>>(&mut self, ops: &A, i: usize, x: Traced<T>)
        requires
            old(self).ok(*ops),
            x.ok(*ops),
            i < old(self).v@.len(),
        ensures
            final(self).ok(*ops),
            final(self).v@ == old(self).v@.update(i as int, x.v),
            final(self).e@ == old(self).e@.update(i as int, x.e@),
    {
        self.v.set(i, x.v);
        self.e = Ghost(self.e@.update(i as int, x.e@));
    }

    /// Adds to the entry at `i`.
    pub fn grow<A: Arith<T>>(&mut self, ops: &A, i: usize, x: Traced<T>)
        requires
            old(self).ok(*ops),
            x.ok(*ops),
            i < old(self).v@.len(),
        ensures
            final(self).ok(*ops),
            final(self).v@.len() == old(self).v@.len(),
            final(self).e@ == old(self).e@.update(i as int, plus(old(self).e@[i as int], x.e@)),
    {
        let y: Traced<T> = self.get(ops, i).plus(ops, x);
        self.set(ops, i, y);
    }

    /// `n` zeros.
    pub fn zeros<A: Arith<T>>(ops: &A, n: usize) -> (r: Self)
        ensures
            r.ok(*ops),
            r.v@.len() == n,
            r.e@ == Seq::new(n as nat, |i: int| zero::<T>()),
    {
        let mut r: TracedVec<T> = TracedVec::new(ops);
        let mut i: usize = 0;
        assert(r.e@ =~= Seq::new(0, |i: int| zero::<T>()));
        while i < n
            invariant
                i <= n,
                r.ok(*ops),
                r.e@ == Seq::new(i as nat, |i: int| zero::<T>()),
            decreases n - i,
        {
            r.push(ops, Traced::ratio(ops, 0, 1));
            i += 1;
            assert(r.e@ =~= Seq::new(i as nat, |i: int| zero::<T>()));
        }
        r
    }

    /// A copy.
    pub fn clone_of<A: Arith<T>>(&self, ops: &A) -> (r: Self)
        requires
            self.ok(*ops),
        ensures
            r.ok(*ops),
            r.v@ == self.v@,
            r.e@ == self.e@,
    {
        let mut v: Vec<T> = Vec::new();
        crate::seqs::extend_from(&mut v, &self.v);
        assert(v@ =~= self.v@);
        TracedVec { v, e: self.e }
    }
}

/// The formula at a place.
pub open spec fn entry<T>(es: Seq<Expr<T>>, i: usize) -> Expr<T> {
    es[i as int]
}

/// A traced vector of `n` entries, made one by one.
pub fn build<T: Copy, A: Arith<T>, F: Fn(usize) -> Traced<T>>(
    ops: &A,
    n: usize,
    Ghost(want): Ghost<Seq<Expr<T>>>,
    f: F,
) -> (out: TracedVec<T>)
    requires
        want.len() == n,
        forall|i: usize| i < n ==> #[trigger] call_requires(f, (i,)),
        forall|i: usize, r: Traced<T>|
            i < n && #[trigger] call_ensures(f, (i,), r) ==> r.ok(*ops) && r.e@ == entry(want, i),
    ensures
        out.ok(*ops),
        out.v@.len() == n,
        out.e@ == want,
{
    let mut out: TracedVec<T> = TracedVec::new(ops);
    let mut i: usize = 0;
    assert(out.e@ =~= want.take(0));
    while i < n
        invariant
            want.len() == n,
            forall|i: usize| i < n ==> #[trigger] call_requires(f, (i,)),
            forall|i: usize, r: Traced<T>|
                i < n && #[trigger] call_ensures(f, (i,), r) ==> r.ok(*ops) && r.e@ == entry(
                    want,
                    i,
                ),
            i <= n,
            out.ok(*ops),
            out.e@ == want.take(i as int),
        decreases n - i,
    {
        let x: Traced<T> = f(i);
        out.push(ops, x);
        i += 1;
        assert(out.e@ =~= want.take(i as int));
    }
    assert(want.take(n as int) =~= want);
    out
}

/// Adds the products of the entries at the same place to `start`, in order.
pub fn dot<T: Copy, A: Arith<T>>(
    ops: &A,
    start: Traced<T>,
    a: &TracedVec<T>,
    b: &TracedVec<T>,
) -> (out: Traced<T>)
    requires
        start.ok(*ops),
        a.ok(*ops),
        b.ok(*ops),
        a.v@.len() <= b.v@.len(),
    ensures
        out.ok(*ops),
        out.e@ == dot_of(start.e@, a.e@, b.e@),
{
    let n: usize = a.len();
    let m: usize = b.len();
    let ghost ps = products_of(a.e@, b.e@);
    let mut acc: Traced<T> = start;
    let mut i: usize = 0;
    assert(ps.take(0) =~= Seq::<Expr<T>>::empty());
    while i < n
        invariant
            a.ok(*ops),
            b.ok(*ops),
            n == a.v@.len(),
            m == b.v@.len(),
            n <= m,
            i <= n,
            ps == products_of(a.e@, b.e@),
            acc.ok(*ops),
            acc.e@ == fold_of(Binary::Plus, start.e@, ps.take(i as int)),
        decreases n - i,
    {
        let p: Traced<T> = a.get(ops, i).times(ops, b.get(ops, i));
        acc = acc.plus(ops, p);
        assert(ps.take(i + 1).drop_last() =~= ps.take(i as int));
        i += 1;
    }
    assert(ps.take(n as int) =~= ps);
    acc
}

/// Adds the entries to `start`, in order.
pub fn sum_from<T: Copy, A: Arith<T>>(ops: &A, start: Traced<T>, xs: &TracedVec<T>) -> (out: Traced<
    T,
>)
    requires
        start.ok(*ops),
        xs.ok(*ops),
    ensures
        out.ok(*ops),
        out.e@ == fold_of(Binary::Plus, start.e@, xs.e@),
{
    let n: usize = xs.len();
    let mut acc: Traced<T> = start;
    let mut i: usize = 0;
    assert(xs.e@.take(0) =~= Seq::<Expr<T>>::empty());
    while i < n
        invariant
            xs.ok(*ops),
            n == xs.v@.len(),
            i <= n,
            acc.ok(*ops),
            acc.e@ == fold_of(Binary::Plus, start.e@, xs.e@.take(i as int)),
        decreases n - i,
    {
        acc = acc.plus(ops, xs.get(ops, i));
        assert(xs.e@.take(i + 1).drop_last() =~= xs.e@.take(i as int));
        i += 1;
    }
    assert(xs.e@.take(n as int) =~= xs.e@);
    acc
}

/// Adds up the entries, from zero.
pub fn total<T: Copy, A: Arith<T>>(ops: &A, xs: &TracedVec<T>) -> (out: Traced<T>)
    requires
        xs.ok(*ops),
    ensures
        out.ok(*ops),
        out.e@ == total_of(xs.e@),
{
    sum_from(ops, Traced::ratio(ops, 0, 1), xs)
}

/// The largest entry.
pub fn top<T: Copy, A: Arith<T>>(ops: &A, xs: &TracedVec<T>) -> (out: Traced<T>)
    requires
        xs.ok(*ops),
    ensures
        out.ok(*ops),
        out.e@ == top_of(xs.e@),
{
    let n: usize = xs.len();
    let mut acc: Traced<T> = Traced::lowest(ops);
    let mut i: usize = 0;
    assert(xs.e@.take(0) =~= Seq::<Expr<T>>::empty());
    while i < n
        invariant
            xs.ok(*ops),
            n == xs.v@.len(),
            i <= n,
            acc.ok(*ops),
            acc.e@ == top_of(xs.e@.take(i as int)),
        decreases n - i,
    {
        acc = acc.larger(ops, xs.get(ops, i));
        assert(xs.e@.take(i + 1).drop_last() =~= xs.e@.take(i as int));
        i += 1;
    }
    assert(xs.e@.take(n as int) =~= xs.e@);
    acc
}

/// A comparison of two numbers.
pub fn holds<T: Copy, A: Arith<T>>(ops: &A, test: Test, a: T, b: T) -> (c: bool)
    ensures
        test_is(*ops, test, a, b, c),
{
    match test {
        Test::Exceeds => ops.exceeds(a, b),
        Test::AtMost => ops.at_most(a, b),
        Test::Equals => ops.equals(a, b),
    }
}

/// `yes` where the comparison of `a` and `b` holds, else `no`.
pub fn pick_on<T: Copy, A: Arith<T>>(
    ops: &A,
    test: Test,
    a: Traced<T>,
    b: Traced<T>,
    yes: Traced<T>,
    no: Traced<T>,
) -> (out: Traced<T>)
    requires
        a.ok(*ops),
        b.ok(*ops),
        yes.ok(*ops),
        no.ok(*ops),
    ensures
        out.ok(*ops),
        out.e@ == pick(test, a.e@, b.e@, yes.e@, no.e@),
{
    choose_on(ops, test, a, b, yes, no).0
}

/// `yes` where the comparison of `a` and `b` holds, else `no`, and whether it holds.
pub fn choose_on<T: Copy, A: Arith<T>>(
    ops: &A,
    test: Test,
    a: Traced<T>,
    b: Traced<T>,
    yes: Traced<T>,
    no: Traced<T>,
) -> (res: (Traced<T>, bool))
    requires
        a.ok(*ops),
        b.ok(*ops),
        yes.ok(*ops),
        no.ok(*ops),
    ensures
        res.0.ok(*ops),
        res.0.e@ == pick(test, a.e@, b.e@, yes.e@, no.e@),
        test_is(*ops, test, a.v, b.v, res.1),
        res.0.v == (if res.1 {
            yes.v
        } else {
            no.v
        }),
{
    let c: bool = holds(ops, test, a.v, b.v);
    let v: T = if c {
        yes.v
    } else {
        no.v
    };
    assert(test_is(*ops, test, a.v, b.v, c));
    (Traced { v, e: Ghost(pick(test, a.e@, b.e@, yes.e@, no.e@)) }, c)
}

} // verus!
