//! The operations of the signal path on real numbers.
use vstd::prelude::*;

use crate::number::{Exact, Operations};

verus! {

/// The functions of analysis that the signal path needs.
pub struct Analysis {
    /// Powers, of a base and to an exponent.
    pub power: spec_fn(real, real) -> real,
    pub sine: spec_fn(real) -> real,
    pub cosine: spec_fn(real) -> real,
    /// The circle constant.
    pub pi: real,
    /// The hyperbolic tangent, which limits.
    pub limit: spec_fn(real) -> real,
}

impl Analysis {
    /// The empty power is one. Powers of a number above one are positive and grow with the
    /// exponent, and opposite exponents give inverse powers.
    pub open spec fn has_powers(self) -> bool {
        &&& forall|base: real| #[trigger] (self.power)(base, 0real) == 1real
        &&& forall|base: real, x: real| base > 1real ==> #[trigger] (self.power)(base, x) > 0real
        &&& forall|base: real, x: real, y: real|
            base > 1real && x < y ==> #[trigger] (self.power)(base, x) < #[trigger] (self.power)(
                base,
                y,
            )
        &&& forall|base: real, x: real|
            base > 1real ==> #[trigger] (self.power)(base, x) * (self.power)(base, 0real - x)
                == 1real
    }

    /// Cosine and sine are the coordinates of a point on the unit circle, and the sine is positive
    /// on the upper half of it.
    pub open spec fn has_the_circle(self) -> bool {
        &&& self.pi > 0real
        &&& forall|x: real|
            #[trigger] (self.sine)(x) * (self.sine)(x) + (self.cosine)(x) * (self.cosine)(x)
                == 1real
        &&& forall|x: real| 0real < x < self.pi ==> #[trigger] (self.sine)(x) > 0real
    }

    /// Limiting grows with its argument, treats both signs alike, and stays between minus one and
    /// one.
    pub open spec fn has_a_limit(self) -> bool {
        &&& forall|x: real, y: real|
            x < y ==> #[trigger] (self.limit)(x) < #[trigger] (self.limit)(y)
        &&& forall|x: real| #[trigger] (self.limit)(-x) == -(self.limit)(x)
        &&& forall|x: real| -1real < #[trigger] (self.limit)(x) < 1real
    }

    pub open spec fn wf(self) -> bool {
        self.has_powers() && self.has_the_circle() && self.has_a_limit()
    }
}

/// Some functions with the properties above. Nothing else is known of them, so that what is proved
/// here of real numbers holds of the powers, sines, cosines and tangents of analysis.
pub closed spec fn analysis() -> Analysis {
    choose|a: Analysis| a.wf()
}

spec fn simple_power(x: real) -> real {
    if x >= 0real {
        1real + x
    } else {
        1real / (1real - x)
    }
}

proof fn lemma_simple_powers(x: real, y: real)
    ensures
        simple_power(x) > 0real,
        x < y ==> simple_power(x) < simple_power(y),
        simple_power(x) * simple_power(0real - x) == 1real,
{
    let (p, q) = (simple_power(x), simple_power(0real - x));
    if x < 0real {
        let d = 1real - x;
        assert(0real < p < 1real && p * q == 1real) by (nonlinear_arith)
            requires
                d > 1real,
                p == 1real / d,
                q == d,
        ;
        if x < y && y < 0real {
            let e = 1real - y;
            assert(1real / d < 1real / e) by (nonlinear_arith)
                requires
                    d > e > 0real,
            ;
        }
    } else {
        let d = 1real + x;
        assert(1real / 1real == 1real);
        assert(p * q == 1real) by (nonlinear_arith)
            requires
                d >= 1real,
                p == d,
                q == 1real / d,
        ;
    }
}

spec fn simple_limit(x: real) -> real {
    if x >= 0real {
        x / (1real + x)
    } else {
        x / (1real - x)
    }
}

proof fn lemma_simple_limit(x: real, y: real)
    ensures
        x < y ==> simple_limit(x) < simple_limit(y),
        simple_limit(-x) == -simple_limit(x),
        -1real < simple_limit(x) < 1real,
{
    lemma_simple_fraction(x);
    lemma_simple_fraction(-x);
    lemma_simple_fraction(y);
    lemma_simple_fraction(-y);
    if x < y && 0real <= x {
        lemma_simple_fractions(x, y);
    } else if x < y && y <= 0real {
        lemma_simple_fractions(-y, -x);
    }
}

proof fn lemma_simple_fraction(x: real)
    ensures
        x >= 0real ==> 0real <= x / (1real + x) < 1real,
        x > 0real ==> 0real < x / (1real + x),
        x <= 0real ==> x / (1real - x) == -((-x) / (1real + (-x))),
{
    if x >= 0real {
        let d = 1real + x;
        assert(0real <= x / d < 1real) by (nonlinear_arith)
            requires
                d == 1real + x,
                x >= 0real,
        ;
        if x > 0real {
            assert(0real < x / d) by (nonlinear_arith)
                requires
                    d == 1real + x,
                    x > 0real,
            ;
        }
    }
    if x <= 0real {
        let d = 1real - x;
        let n = -x;
        assert(1real + (-x) == d);
        assert(x / d == -(n / d)) by (nonlinear_arith)
            requires
                n == -x,
                d > 0real,
        ;
    }
}

proof fn lemma_simple_fractions(x: real, y: real)
    requires
        0real <= x < y,
    ensures
        x / (1real + x) < y / (1real + y),
{
    let (d, e) = (1real + x, 1real + y);
    let (u, v) = (1real / d, 1real / e);
    assert(u > v) by (nonlinear_arith)
        requires
            0real < d < e,
            u == 1real / d,
            v == 1real / e,
    ;
    assert(x / d == 1real - u) by (nonlinear_arith)
        requires
            d == 1real + x,
            d > 0real,
            u == 1real / d,
    ;
    assert(y / e == 1real - v) by (nonlinear_arith)
        requires
            e == 1real + y,
            e > 0real,
            v == 1real / e,
    ;
}

/// There are such functions.
pub proof fn analysis_exists()
    ensures
        analysis().wf(),
{
    let a = Analysis {
        power: |base: real, x: real| simple_power(x),
        sine: |x: real| 1real,
        cosine: |x: real| 0real,
        pi: 1real,
        limit: |x: real| simple_limit(x),
    };
    assert forall|x: real, y: real| x < y implies #[trigger] (a.limit)(x) < #[trigger] (a.limit)(
        y,
    ) by {
        lemma_simple_limit(x, y);
    }
    assert forall|x: real| #[trigger] (a.limit)(-x) == -(a.limit)(x) by {
        lemma_simple_limit(x, x);
    }
    assert forall|x: real| -1real < #[trigger] (a.limit)(x) < 1real by {
        lemma_simple_limit(x, x);
    }
    assert forall|base: real, x: real| base > 1real implies #[trigger] (a.power)(base, x)
        > 0real by {
        lemma_simple_powers(x, x);
    }
    assert forall|base: real, x: real, y: real| base > 1real && x < y implies #[trigger] (a.power)(
        base,
        x,
    ) < #[trigger] (a.power)(base, y) by {
        lemma_simple_powers(x, y);
    }
    assert forall|base: real, x: real| base > 1real implies #[trigger] (a.power)(base, x) * (
    a.power)(base, 0real - x) == 1real by {
        lemma_simple_powers(x, x);
    }
    assert(a.wf());
}

impl Operations for real {
    open spec fn rational(numerator: int, denominator: int) -> real {
        (numerator as real).over(denominator as real)
    }

    open spec fn nearest(natural: nat) -> real {
        natural as real
    }

    open spec fn circle_constant() -> real {
        analysis().pi
    }

    open spec fn plus(self, other: real) -> real {
        self + other
    }

    open spec fn minus(self, other: real) -> real {
        self - other
    }

    open spec fn times(self, other: real) -> real {
        self * other
    }

    open spec fn over(self, other: real) -> real {
        if other == 0real {
            0real
        } else {
            self / other
        }
    }

    open spec fn to_power(self, exponent: real) -> real {
        (analysis().power)(self, exponent)
    }

    open spec fn sine_of(self) -> real {
        (analysis().sine)(self)
    }

    open spec fn cosine_of(self) -> real {
        (analysis().cosine)(self)
    }

    open spec fn unsigned(self) -> real {
        if self < 0real {
            0real - self
        } else {
            self
        }
    }

    open spec fn limited(self) -> real {
        (analysis().limit)(self)
    }

    open spec fn greater_than(self, other: real) -> bool {
        self > other
    }

    open spec fn whole_part(self) -> usize {
        if self < 0real {
            0
        } else if self.floor() > usize::MAX {
            usize::MAX
        } else {
            self.floor() as usize
        }
    }
}

/// The fractions of the signal path are what they are written as.
pub proof fn lemma_fractions()
    ensures
        real::rational(0, 1) == 0real,
        real::rational(1, 1) == 1real,
        real::rational(2, 1) == 2real,
        real::rational(-2, 1) == -2real,
        real::rational(10, 1) == 10real,
        real::rational(40, 1) == 40real,
        real::rational(14, 10) * 10real == 14real,
{
}

impl Exact for real {
    proof fn plus_commutes(x: real, y: real) {
    }

    proof fn plus_associates(x: real, y: real, z: real) {
    }

    proof fn zero_is_neutral(x: real) {
        lemma_fractions();
    }

    proof fn minus_undoes_plus(x: real, y: real) {
    }

    proof fn times_commutes(x: real, y: real) {
        assert(x * y == y * x) by (nonlinear_arith);
    }

    proof fn times_associates(x: real, y: real, z: real) {
        assert((x * y) * z == x * (y * z)) by (nonlinear_arith);
    }

    proof fn times_distributes(x: real, y: real, z: real) {
        assert(x * (y + z) == x * y + x * z) by (nonlinear_arith);
    }

    proof fn one_is_neutral(x: real) {
        lemma_fractions();
    }

    proof fn a_number_goes_once_into_itself(x: real) {
        lemma_fractions();
        assert(x / x == 1real) by (nonlinear_arith)
            requires
                x != 0real,
        ;
    }

    proof fn nothing_divided_is_nothing(x: real) {
        lemma_fractions();
        if x != 0real {
            assert(0real / x == 0real) by (nonlinear_arith)
                requires
                    x != 0real,
            ;
        }
    }

    proof fn the_empty_power_is_one(x: real) {
        lemma_fractions();
        analysis_exists();
    }
}

/// A factor is spread over a sum and a difference.
pub proof fn lemma_distribute(x: real, y: real, k: real)
    ensures
        (x + y) * k == x * k + y * k,
        (x - y) * k == x * k - y * k,
{
    assert((x + y) * k == x * k + y * k) by (nonlinear_arith);
    assert((x - y) * k == x * k - y * k) by (nonlinear_arith);
}

/// The sign can be taken out of a product.
pub proof fn lemma_opposite(x: real, k: real)
    ensures
        (-x) * k == -(x * k),
{
    assert(-x == 0real - x);
    lemma_distribute(0real, x, k);
}

/// Factors can be regrouped and exchanged.
pub proof fn lemma_regroup(x: real, y: real, z: real)
    ensures
        (x * y) * z == x * (y * z),
        x * y == y * x,
{
    assert((x * y) * z == x * (y * z)) by (nonlinear_arith);
    assert(x * y == y * x) by (nonlinear_arith);
}

/// A positive factor keeps order and equality.
pub proof fn lemma_order(x: real, y: real, d: real)
    requires
        d > 0real,
    ensures
        x < y <==> x * d < y * d,
        x == y <==> x * d == y * d,
{
    if x < y {
        assert(x * d < y * d) by (nonlinear_arith)
            requires
                x < y,
                d > 0real,
        ;
    } else if y < x {
        assert(y * d < x * d) by (nonlinear_arith)
            requires
                y < x,
                d > 0real,
        ;
    }
}

/// A factor of one changes nothing.
pub proof fn lemma_unit(x: real, unit: real)
    requires
        unit == 1real,
    ensures
        x * unit == x,
        unit * x == x,
{
    assert(x * unit == x && unit * x == x) by (nonlinear_arith)
        requires
            unit == 1real,
    ;
}

/// Products of positive numbers are positive.
pub proof fn lemma_positive(x: real, y: real)
    requires
        x > 0real,
        y > 0real,
    ensures
        x * y > 0real,
        y * x > 0real,
{
    lemma_order(0real, x, y);
    assert(0real * y == 0real);
    lemma_regroup(x, y, y);
}

/// The last two of three factors can be exchanged.
pub proof fn lemma_shuffle(x: real, y: real, z: real)
    ensures
        (x * y) * z == (x * z) * y,
{
    lemma_regroup(x, y, z);
    lemma_regroup(y, z, z);
    lemma_regroup(x, z, y);
}

} // verus!
