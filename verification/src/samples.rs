//! The conversion of captured and played samples.
use vstd::prelude::*;

use crate::formats::{Decode, Encode, SampleFormat, Width};
use crate::number::{lemma_minus_itself, one, zero, Exact, Number, Operations, Wide};
use crate::reals::{lemma_distribute, lemma_fractions, lemma_opposite};

verus! {

/// A captured sample by a rule, from its two forms: as a sample of the signal path and in the
/// wider numbers.
pub open spec fn captured<S: Number, D: Wide<S>>(rule: Decode, single: S, double: D) -> S {
    match rule {
        Decode::Copy => single,
        Decode::Narrow => double.narrowed(),
        Decode::Scale { origin, full_scale, subtract_in, divide_in } => match (
            subtract_in,
            divide_in,
        ) {
            (Width::Single, _) => single.minus(S::nearest(origin as nat)).over(
                S::nearest(full_scale as nat),
            ),
            (Width::Double, Width::Single) => double.minus(
                D::nearest(origin as nat),
            ).narrowed().over(S::nearest(full_scale as nat)),
            (Width::Double, Width::Double) => double.minus(D::nearest(origin as nat)).over(
                D::nearest(full_scale as nat),
            ).narrowed(),
        },
    }
}

/// A limited sample by a rule, before it is cut off to the output's type.
pub open spec fn played<N: Operations>(rule: Encode, sample: N) -> N {
    match rule {
        Encode::Copy | Encode::Widen => sample,
        Encode::Signed { full_scale } => sample.times(N::nearest(full_scale as nat)),
        Encode::Unsigned { full_scale } => sample.times(N::rational(1, 2)).plus(
            N::rational(1, 2),
        ).times(N::nearest(full_scale as nat)),
    }
}

/// Converts a captured sample, given in both widths.
pub fn decode_sample<S: Number, D: Wide<S>>(rule: Decode, single: S, double: D) -> (sample: S)
    ensures
        sample == captured(rule, single, double),
{
    match rule {
        Decode::Copy => single,
        Decode::Narrow => double.narrow(),
        Decode::Scale { origin, full_scale, subtract_in, divide_in } => match subtract_in {
            Width::Single => single.difference(S::natural(origin)).quotient(
                S::natural(full_scale),
            ),
            Width::Double => {
                let centred = double.difference(D::natural(origin));
                match divide_in {
                    Width::Single => centred.narrow().quotient(S::natural(full_scale)),
                    Width::Double => centred.quotient(D::natural(full_scale)).narrow(),
                }
            },
        },
    }
}

/// Converts a limited sample, up to the cut to the output's type.
pub fn encode_sample<N: Number>(rule: Encode, sample: N) -> (value: N)
    ensures
        value == played(rule, sample),
{
    match rule {
        Encode::Copy | Encode::Widen => sample,
        Encode::Signed { full_scale } => sample.product(N::natural(full_scale)),
        Encode::Unsigned { full_scale } => sample.product(N::ratio(1, 2)).sum(
            N::ratio(1, 2),
        ).product(N::natural(full_scale)),
    }
}

/// On exact numbers the middle of an unsigned range is silence, in every unsigned format.
pub proof fn the_middle_is_silence<S: Exact + Number, D: Exact + Wide<S>>(format: SampleFormat)
    requires
        format.is_unsigned(),
        zero::<D>().narrowed() == zero::<S>(),
    ensures
        ({
            let half = format.half_range()->0 as nat;
            captured(format.decoding()->0, S::nearest(half), D::nearest(half)) == zero::<S>()
        }),
{
    let half = format.half_range()->0 as nat;
    lemma_minus_itself(S::nearest(half));
    lemma_minus_itself(D::nearest(half));
    S::nothing_divided_is_nothing(S::nearest(half));
    D::nothing_divided_is_nothing(D::nearest(half));
}

/// On exact numbers full level is played as the largest value of a signed format.
pub proof fn full_level_is_the_largest_value<N: Exact>(full_scale: u64)
    ensures
        played(Encode::Signed { full_scale }, one::<N>()) == N::nearest(full_scale as nat),
{
    N::one_is_neutral(N::nearest(full_scale as nat));
}

/// A sample that is already in the floating-point form of the engine, or of the output, is not
/// touched.
pub proof fn floating_point_samples_are_not_scaled<S: Number, D: Wide<S>>(single: S, double: D)
    ensures
        captured(Decode::Copy, single, double) == single,
        captured(Decode::Narrow, single, double) == double.narrowed(),
        played(Encode::Copy, single) == single,
        played(Encode::Widen, single) == single,
{
}

/// A captured sample is measured in full scales from the origin: where it lies `q` full scales away
/// it is captured as `q`, provided that the numbers can divide that product exactly. Where a step is
/// taken in the wider numbers, the measure is taken there.
pub proof fn samples_are_measured_in_full_scales<S: Number, D: Wide<S>>(
    rule: Decode,
    single: S,
    double: D,
    q: S,
    wide_q: D,
)
    requires
        rule is Scale,
        q.times(S::nearest(rule->full_scale as nat)).over(S::nearest(rule->full_scale as nat)) == q,
        wide_q.times(D::nearest(rule->full_scale as nat)).over(
            D::nearest(rule->full_scale as nat),
        ) == wide_q,
    ensures
        rule->subtract_in is Single && single.minus(S::nearest(rule->origin as nat)) == q.times(
            S::nearest(rule->full_scale as nat),
        ) ==> captured(rule, single, double) == q,
        rule->subtract_in is Double && rule->divide_in is Single && double.minus(
            D::nearest(rule->origin as nat),
        ).narrowed() == q.times(S::nearest(rule->full_scale as nat)) ==> captured(
            rule,
            single,
            double,
        ) == q,
        rule->subtract_in is Double && rule->divide_in is Double && double.minus(
            D::nearest(rule->origin as nat),
        ) == wide_q.times(D::nearest(rule->full_scale as nat)) ==> captured(rule, single, double)
            == wide_q.narrowed(),
{
}

/// On real numbers a signed output is in proportion to the sample: equal steps of the sample are
/// equal steps of the output, silence is zero, both signs are treated alike, and full level is the
/// full scale.
pub proof fn signed_outputs_are_in_proportion(x: real, y: real, full_scale: u64)
    ensures
        ({
            let rule = Encode::Signed { full_scale };
            let full = full_scale as nat as real;
            &&& played(rule, x) - played(rule, y) == (x - y) * full
            &&& played(rule, 0real) == 0real
            &&& played(rule, -x) == -played(rule, x)
            &&& played(rule, 1real) == full
        }),
{
    let full = full_scale as nat as real;
    lemma_fractions();
    lemma_distribute(x, y, full);
    lemma_opposite(x, full);
    assert(0real * full == 0real);
    assert(1real * full == full);
}

/// On real numbers an unsigned output is in proportion to the sample too, around the middle of its
/// range: the lowest sample is zero and the highest is the full scale.
pub proof fn unsigned_outputs_are_in_proportion(x: real, y: real, full_scale: u64)
    ensures
        ({
            let rule = Encode::Unsigned { full_scale };
            let full = full_scale as nat as real;
            &&& 2real * (played(rule, x) - played(rule, y)) == (x - y) * full
            &&& played(rule, -1real) == 0real
            &&& 2real * played(rule, 0real) == full
            &&& played(rule, 1real) == full
        }),
{
    let full = full_scale as nat as real;
    let h = real::rational(1, 2);
    lemma_fractions();
    assert(h * 2real == 1real);
    let (u, v) = (x * h + h, y * h + h);
    lemma_distribute(u, v, full);
    lemma_distribute(u - v, u - v, full);
    assert((u - v) + (u - v) == x - y);
    assert((-1real) * h + h == 0real);
    assert(0real * full == 0real);
    assert(1real * h + h == 1real);
    assert(1real * full == full);
    assert(0real * h + h == h);
    lemma_distribute(h, h, full);
    assert(h + h == 1real);
}

} // verus!
