//! The numbers that the signal path computes with.
//!
//! The signal path is written over [`Number`]: which operations are combined, and in what order,
//! is fixed and proved here, whatever kind of number carries them out. The program runs it on
//! single-precision numbers; [`Whole`] runs it on integers, where every result is exact. Laws that
//! need exact arithmetic are stated over [`Exact`], or over real numbers in [`crate::ideal`].
use vstd::prelude::*;

verus! {

/// Names the operations of [`Operations`] and [`Wide`].
pub enum Operation {
    Rational,
    Nearest,
    CircleConstant,
    Plus,
    Minus,
    Times,
    Over,
    ToPower,
    SineOf,
    CosineOf,
    Unsigned,
    Limited,
    GreaterThan,
    WholePart,
    Narrowed,
}

/// Some function for an operation, of which nothing is known but that it is one.
pub closed spec fn some_function<A, R>(operation: Operation, operands: A) -> R {
    arbitrary::<spec_fn(Operation, A) -> R>()(operation, operands)
}

/// The operations of the signal path, as functions. A kind of number can define these functions, as
/// [`Whole`] does; where it does not, as one whose arithmetic is not described here, nothing is
/// known of them but that they are functions.
pub trait Operations: Sized {
    /// The number nearest to a fraction.
    open spec fn rational(numerator: int, denominator: int) -> Self {
        some_function(Operation::Rational, (numerator, denominator))
    }

    /// The number nearest to a natural number.
    open spec fn nearest(natural: nat) -> Self {
        some_function(Operation::Nearest, (natural,))
    }

    /// The number nearest to the circle constant.
    open spec fn circle_constant() -> Self {
        some_function(Operation::CircleConstant, ())
    }

    open spec fn plus(self, other: Self) -> Self {
        some_function(Operation::Plus, (self, other))
    }

    open spec fn minus(self, other: Self) -> Self {
        some_function(Operation::Minus, (self, other))
    }

    open spec fn times(self, other: Self) -> Self {
        some_function(Operation::Times, (self, other))
    }

    open spec fn over(self, other: Self) -> Self {
        some_function(Operation::Over, (self, other))
    }

    /// The number to a power.
    open spec fn to_power(self, exponent: Self) -> Self {
        some_function(Operation::ToPower, (self, exponent))
    }

    open spec fn sine_of(self) -> Self {
        some_function(Operation::SineOf, (self,))
    }

    open spec fn cosine_of(self) -> Self {
        some_function(Operation::CosineOf, (self,))
    }

    /// The number without its sign.
    open spec fn unsigned(self) -> Self {
        some_function(Operation::Unsigned, (self,))
    }

    /// The number pressed smoothly into the range between minus one and one.
    open spec fn limited(self) -> Self {
        some_function(Operation::Limited, (self,))
    }

    open spec fn greater_than(self, other: Self) -> bool {
        some_function(Operation::GreaterThan, (self, other))
    }

    /// The whole part of the number, zero for a negative one.
    open spec fn whole_part(self) -> usize {
        some_function(Operation::WholePart, (self,))
    }
}

/// Numbers that carry the operations out.
///
/// The contracts below assume that each operation is a function: that it gives one result for the
/// same operands, whenever and wherever it is carried out. What is proved of the signal path rests
/// on that. It is a condition on the numbers, not a fact about them: for single-precision numbers
/// the standard library leaves the precision of the sine, the cosine, the power and the hyperbolic
/// tangent open, even between two calls of one program, and so it does the payload of a result that
/// is not a number.
pub trait Number: Operations + Copy {
    fn ratio(numerator: i32, denominator: u32) -> (r: Self)
        requires
            denominator > 0,
        ensures
            r == Self::rational(numerator as int, denominator as int),
    ;

    fn natural(n: u64) -> (r: Self)
        ensures
            r == Self::nearest(n as nat),
    ;

    fn pi() -> (r: Self)
        ensures
            r == Self::circle_constant(),
    ;

    fn sum(self, other: Self) -> (r: Self)
        ensures
            r == self.plus(other),
    ;

    fn difference(self, other: Self) -> (r: Self)
        ensures
            r == self.minus(other),
    ;

    fn product(self, other: Self) -> (r: Self)
        ensures
            r == self.times(other),
    ;

    fn quotient(self, other: Self) -> (r: Self)
        ensures
            r == self.over(other),
    ;

    fn power(self, exponent: Self) -> (r: Self)
        ensures
            r == self.to_power(exponent),
    ;

    fn sine(self) -> (r: Self)
        ensures
            r == self.sine_of(),
    ;

    fn cosine(self) -> (r: Self)
        ensures
            r == self.cosine_of(),
    ;

    fn magnitude(self) -> (r: Self)
        ensures
            r == self.unsigned(),
    ;

    fn limit(self) -> (r: Self)
        ensures
            r == self.limited(),
    ;

    fn exceeds(self, other: Self) -> (r: bool)
        ensures
            r == self.greater_than(other),
    ;

    fn count(self) -> (r: usize)
        ensures
            r == self.whole_part(),
    ;
}

/// Numbers that are held more precisely than the samples of the signal path.
pub trait Wide<N: Number>: Number {
    /// The sample nearest to the number.
    open spec fn narrowed(self) -> N {
        some_function(Operation::Narrowed, (self,))
    }

    fn narrow(self) -> (r: N)
        ensures
            r == self.narrowed(),
    ;
}

/// The number zero.
pub open spec fn zero<N: Operations>() -> N {
    N::rational(0, 1)
}

/// The number one.
pub open spec fn one<N: Operations>() -> N {
    N::rational(1, 1)
}

/// A number with the opposite sign.
pub open spec fn negated<N: Operations>(x: N) -> N {
    zero::<N>().minus(x)
}

/// Numbers whose operations are exact: they obey the laws of arithmetic, which rounded operations
/// need not.
pub trait Exact: Operations {
    proof fn plus_commutes(x: Self, y: Self)
        ensures
            x.plus(y) == y.plus(x),
    ;

    proof fn plus_associates(x: Self, y: Self, z: Self)
        ensures
            x.plus(y).plus(z) == x.plus(y.plus(z)),
    ;

    proof fn zero_is_neutral(x: Self)
        ensures
            x.plus(zero::<Self>()) == x,
    ;

    proof fn minus_undoes_plus(x: Self, y: Self)
        ensures
            x.minus(y).plus(y) == x,
    ;

    proof fn times_commutes(x: Self, y: Self)
        ensures
            x.times(y) == y.times(x),
    ;

    proof fn times_associates(x: Self, y: Self, z: Self)
        ensures
            x.times(y).times(z) == x.times(y.times(z)),
    ;

    proof fn times_distributes(x: Self, y: Self, z: Self)
        ensures
            x.times(y.plus(z)) == x.times(y).plus(x.times(z)),
    ;

    proof fn one_is_neutral(x: Self)
        ensures
            one::<Self>().times(x) == x,
            x.over(one::<Self>()) == x,
    ;

    proof fn a_number_goes_once_into_itself(x: Self)
        requires
            x != zero::<Self>(),
        ensures
            x.over(x) == one::<Self>(),
    ;

    proof fn nothing_divided_is_nothing(x: Self)
        ensures
            zero::<Self>().over(x) == zero::<Self>(),
    ;

    proof fn the_empty_power_is_one(x: Self)
        ensures
            x.to_power(zero::<Self>()) == one::<Self>(),
    ;
}

/// Equal numbers remain when the same number is taken away from equal sums.
pub proof fn lemma_cancel<N: Exact>(x: N, y: N, z: N)
    requires
        x.plus(z) == y.plus(z),
    ensures
        x == y,
{
    let n = negated(z);
    N::minus_undoes_plus(zero::<N>(), z);
    N::plus_commutes(n, z);
    N::plus_associates(x, z, n);
    N::plus_associates(y, z, n);
    N::zero_is_neutral(x);
    N::zero_is_neutral(y);
}

/// The sums of two pairs differ by the sum of the pairs' differences.
pub proof fn lemma_minus_of_sums<N: Exact>(x: N, y: N, u: N, v: N)
    ensures
        x.plus(y).minus(u.plus(v)) == x.minus(u).plus(y.minus(v)),
{
    let d = x.minus(u);
    let e = y.minus(v);
    // (d + e) + (u + v) == (d + u) + (e + v) == x + y
    lemma_plus_of_sums(d, e, u, v);
    N::minus_undoes_plus(x, u);
    N::minus_undoes_plus(y, v);
    N::minus_undoes_plus(x.plus(y), u.plus(v));
    lemma_cancel(x.plus(y).minus(u.plus(v)), d.plus(e), u.plus(v));
}

/// Four numbers can be added crosswise.
pub proof fn lemma_plus_of_sums<N: Exact>(x: N, y: N, u: N, v: N)
    ensures
        x.plus(y).plus(u.plus(v)) == x.plus(u).plus(y.plus(v)),
{
    N::plus_associates(x, y, u.plus(v));
    N::plus_associates(y, u, v);
    N::plus_commutes(y, u);
    N::plus_associates(u, y, v);
    N::plus_associates(x, u, y.plus(v));
}

/// A number less itself is zero.
pub proof fn lemma_minus_itself<N: Exact>(x: N)
    ensures
        x.minus(x) == zero::<N>(),
{
    N::minus_undoes_plus(x, x);
    N::zero_is_neutral(x);
    N::plus_commutes(x, zero::<N>());
    lemma_cancel(x.minus(x), zero::<N>(), x);
}

/// A multiple of zero is zero.
pub proof fn lemma_times_zero<N: Exact>(x: N)
    ensures
        x.times(zero::<N>()) == zero::<N>(),
{
    let z = zero::<N>();
    let p = x.times(z);
    N::zero_is_neutral(z);
    N::times_distributes(x, z, z);
    N::zero_is_neutral(p);
    N::plus_commutes(p, z);
    lemma_cancel(p, z, p);
}

/// A multiple of a difference is the difference of the multiples.
pub proof fn lemma_times_minus<N: Exact>(x: N, y: N, z: N)
    ensures
        x.times(y.minus(z)) == x.times(y).minus(x.times(z)),
{
    N::minus_undoes_plus(y, z);
    N::times_distributes(x, y.minus(z), z);
    N::minus_undoes_plus(x.times(y), x.times(z));
    lemma_cancel(x.times(y.minus(z)), x.times(y).minus(x.times(z)), x.times(z));
}

/// Whole numbers modulo 2^64: exact, and coarse. Fractions and quotients are cut off, the circle
/// constant is three, and angles count as small: a sine is its angle, a cosine is one.
#[derive(Clone, Copy, Debug, PartialEq, Eq, Structural)]
pub struct Whole(pub u64);

/// A power of a whole number, by repeated squaring.
pub open spec fn whole_power(base: u64, exponent: u64) -> u64
    decreases exponent,
{
    if exponent == 0 {
        1
    } else {
        let root = whole_power(base.wrapping_mul(base), exponent / 2);
        if exponent % 2 == 1 {
            base.wrapping_mul(root)
        } else {
            root
        }
    }
}

fn power_of_whole(base: u64, exponent: u64) -> (power: u64)
    ensures
        power == whole_power(base, exponent),
    decreases exponent,
{
    if exponent == 0 {
        1
    } else {
        let root: u64 = power_of_whole(base.wrapping_mul(base), exponent / 2);
        if exponent % 2 == 1 {
            base.wrapping_mul(root)
        } else {
            root
        }
    }
}

impl Operations for Whole {
    open spec fn rational(numerator: int, denominator: int) -> Whole {
        if numerator >= 0 {
            Whole((numerator / denominator) as u64)
        } else {
            Whole(0u64.wrapping_sub((-numerator / denominator) as u64))
        }
    }

    open spec fn nearest(natural: nat) -> Whole {
        Whole(natural as u64)
    }

    open spec fn circle_constant() -> Whole {
        Whole(3)
    }

    open spec fn plus(self, other: Whole) -> Whole {
        Whole(self.0.wrapping_add(other.0))
    }

    open spec fn minus(self, other: Whole) -> Whole {
        Whole(self.0.wrapping_sub(other.0))
    }

    open spec fn times(self, other: Whole) -> Whole {
        Whole(self.0.wrapping_mul(other.0))
    }

    open spec fn over(self, other: Whole) -> Whole {
        if other.0 == 0 {
            Whole(0)
        } else {
            Whole(self.0 / other.0)
        }
    }

    open spec fn to_power(self, exponent: Whole) -> Whole {
        Whole(whole_power(self.0, exponent.0))
    }

    open spec fn sine_of(self) -> Whole {
        self
    }

    open spec fn cosine_of(self) -> Whole {
        Whole(1)
    }

    open spec fn unsigned(self) -> Whole {
        self
    }

    open spec fn limited(self) -> Whole {
        if self.0 == 0 {
            Whole(0)
        } else {
            Whole(1)
        }
    }

    open spec fn greater_than(self, other: Whole) -> bool {
        self.0 > other.0
    }

    open spec fn whole_part(self) -> usize {
        if self.0 <= usize::MAX {
            self.0 as usize
        } else {
            usize::MAX
        }
    }
}

impl Number for Whole {
    fn ratio(numerator: i32, denominator: u32) -> (r: Whole) {
        let fraction: i64 = numerator as i64;
        if fraction >= 0 {
            Whole(fraction as u64 / denominator as u64)
        } else {
            Whole(0u64.wrapping_sub((-fraction) as u64 / denominator as u64))
        }
    }

    fn natural(n: u64) -> (r: Whole) {
        Whole(n)
    }

    fn pi() -> (r: Whole) {
        Whole(3)
    }

    fn sum(self, other: Whole) -> (r: Whole) {
        Whole(self.0.wrapping_add(other.0))
    }

    fn difference(self, other: Whole) -> (r: Whole) {
        Whole(self.0.wrapping_sub(other.0))
    }

    fn product(self, other: Whole) -> (r: Whole) {
        Whole(self.0.wrapping_mul(other.0))
    }

    fn quotient(self, other: Whole) -> (r: Whole) {
        if other.0 == 0 {
            Whole(0)
        } else {
            Whole(self.0 / other.0)
        }
    }

    fn power(self, exponent: Whole) -> (r: Whole) {
        Whole(power_of_whole(self.0, exponent.0))
    }

    fn sine(self) -> (r: Whole) {
        self
    }

    fn cosine(self) -> (r: Whole) {
        Whole(1)
    }

    fn magnitude(self) -> (r: Whole) {
        self
    }

    fn limit(self) -> (r: Whole) {
        if self.0 == 0 {
            Whole(0)
        } else {
            Whole(1)
        }
    }

    fn exceeds(self, other: Whole) -> (r: bool) {
        self.0 > other.0
    }

    fn count(self) -> (r: usize) {
        if self.0 <= usize::MAX as u64 {
            self.0 as usize
        } else {
            usize::MAX
        }
    }
}

impl Wide<Whole> for Whole {
    open spec fn narrowed(self) -> Whole {
        self
    }

    fn narrow(self) -> (r: Whole) {
        self
    }
}

/// The number of residues.
spec fn residues() -> int {
    0x1_0000_0000_0000_0000
}

proof fn lemma_wrapped(x: u64, y: u64)
    ensures
        x.wrapping_add(y) as int == (x + y) % residues(),
        x.wrapping_mul(y) as int == (x * y) % residues(),
{
    if x + y >= residues() {
        assert((x + y) % residues() == x + y - residues());
    }
    assert(x as nat * y as nat == x * y);
}

impl Exact for Whole {
    proof fn plus_commutes(x: Whole, y: Whole) {
    }

    proof fn plus_associates(x: Whole, y: Whole, z: Whole) {
    }

    proof fn zero_is_neutral(x: Whole) {
        assert(0int / 1 == 0);
    }

    proof fn minus_undoes_plus(x: Whole, y: Whole) {
    }

    proof fn times_commutes(x: Whole, y: Whole) {
        assert(x.0 as nat * y.0 as nat == y.0 as nat * x.0 as nat) by (nonlinear_arith);
    }

    proof fn times_associates(x: Whole, y: Whole, z: Whole) {
        let (a, b, c) = (x.0 as int, y.0 as int, z.0 as int);
        lemma_wrapped(x.0, y.0);
        lemma_wrapped(y.0, z.0);
        lemma_wrapped(x.0.wrapping_mul(y.0), z.0);
        lemma_wrapped(x.0, y.0.wrapping_mul(z.0));
        vstd::arithmetic::div_mod::lemma_mul_mod_noop_left(a * b, c, residues());
        vstd::arithmetic::div_mod::lemma_mul_mod_noop_right(a, b * c, residues());
        assert((a * b) * c == a * (b * c)) by (nonlinear_arith);
    }

    proof fn times_distributes(x: Whole, y: Whole, z: Whole) {
        let (a, b, c) = (x.0 as int, y.0 as int, z.0 as int);
        lemma_wrapped(y.0, z.0);
        lemma_wrapped(x.0, y.0.wrapping_add(z.0));
        lemma_wrapped(x.0, y.0);
        lemma_wrapped(x.0, z.0);
        lemma_wrapped(x.0.wrapping_mul(y.0), x.0.wrapping_mul(z.0));
        vstd::arithmetic::div_mod::lemma_mul_mod_noop_right(a, b + c, residues());
        vstd::arithmetic::div_mod::lemma_add_mod_noop(a * b, a * c, residues());
        assert(a * (b + c) == a * b + a * c) by (nonlinear_arith);
    }

    proof fn one_is_neutral(x: Whole) {
        assert(1int / 1 == 1);
        assert(1nat * x.0 as nat == x.0 as nat);
    }

    proof fn a_number_goes_once_into_itself(x: Whole) {
        assert(0int / 1 == 0);
        assert(1int / 1 == 1);
        vstd::arithmetic::div_mod::lemma_div_by_self(x.0 as int);
    }

    proof fn nothing_divided_is_nothing(x: Whole) {
        assert(0int / 1 == 0);
        if x.0 != 0 {
            vstd::arithmetic::div_mod::lemma_div_of0(x.0 as int);
        }
    }

    proof fn the_empty_power_is_one(x: Whole) {
        assert(0int / 1 == 0);
        assert(1int / 1 == 1);
    }
}

} // verus!
