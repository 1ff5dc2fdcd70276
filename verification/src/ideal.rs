//! The peaking filter on real numbers: what the filter is for.
//!
//! The laws here are about the coefficients and answers of [`crate::biquad`] in exact arithmetic.
//! They speak of frequencies between zero and half the sample rate, and of any gain.
use vstd::prelude::*;

use crate::biquad::{
    a_gain_of_zero_changes_nothing, a_run_gives_the_response, after_run, amplitude, angle, at_rest,
    bandwidth, lemma_response_len, memory_after, middle, next, output, peaking, response, tuning,
    Biquad, Coefficients, Memory,
};
use crate::number::Operations;
use crate::reals::{
    analysis_exists, lemma_distribute, lemma_fractions, lemma_opposite, lemma_order, lemma_positive,
    lemma_regroup, lemma_shuffle, lemma_unit,
};

verus! {

/// A frequency between zero and half the sample rate.
pub open spec fn is_in_band(freq: real, sample_rate: real) -> bool {
    0real < freq && 2real * freq < sample_rate
}

proof fn lemma_angle(freq: real, sample_rate: real)
    requires
        is_in_band(freq, sample_rate),
    ensures
        0real < angle(freq, sample_rate) < real::circle_constant(),
{
    lemma_fractions();
    analysis_exists();
    let pi = real::circle_constant();
    assert(0real < 2real * pi * freq / sample_rate < pi) by (nonlinear_arith)
        requires
            pi > 0real,
            0real < freq,
            2real * freq < sample_rate,
    ;
}

/// What the bandwidth and the middle term are like for a frequency in the band.
pub proof fn lemma_terms(freq: real, sample_rate: real)
    requires
        is_in_band(freq, sample_rate),
    ensures
        bandwidth(angle(freq, sample_rate)) > 0real,
        -2real < middle(angle(freq, sample_rate)) < 2real,
{
    lemma_fractions();
    analysis_exists();
    lemma_angle(freq, sample_rate);
    let w0 = angle(freq, sample_rate);
    let (s, c) = (w0.sine_of(), w0.cosine_of());
    let q = real::rational(14, 10);
    assert((2real * q) * 10real == 28real);
    assert(s / (2real * q) > 0real) by (nonlinear_arith)
        requires
            s > 0real,
            2real * q > 0real,
    ;
    assert(-2real < -2real * c < 2real) by (nonlinear_arith)
        requires
            s > 0real,
            s * s + c * c == 1real,
    ;
}

proof fn lemma_amplitude(gain_db: real)
    ensures
        amplitude(gain_db) > 0real,
{
    lemma_fractions();
    analysis_exists();
}

/// The coefficients before they are scaled.
proof fn lemma_peaking(a: real, alpha: real, mid: real)
    requires
        a > 0real,
        alpha > 0real,
    ensures
        ({
            let c = peaking(a, alpha, mid);
            let d = 1real + alpha / a;
            &&& d > 1real
            &&& c.b0 * d == 1real + alpha * a
            &&& c.b1 * d == mid
            &&& c.b2 * d == 1real - alpha * a
            &&& c.a1 * d == mid
            &&& c.a2 * d == 1real - alpha / a
            &&& (d - 1real) * a == alpha
        }),
{
    lemma_fractions();
    let d = 1real + alpha / a;
    assert(alpha / a > 0real && (alpha / a) * a == alpha) by (nonlinear_arith)
        requires
            a > 0real,
            alpha > 0real,
    ;
    lemma_undivided(1real + alpha * a, d);
    lemma_undivided(mid, d);
    lemma_undivided(1real - alpha * a, d);
    lemma_undivided(1real - alpha / a, d);
}

proof fn lemma_undivided(x: real, d: real)
    requires
        d > 0real,
    ensures
        x.over(d) * d == x,
{
    assert((x / d) * d == x) by (nonlinear_arith)
        requires
            d > 0real,
    ;
}

/// The filter is stable: both poles lie inside the unit circle.
pub proof fn the_filter_is_stable(freq: real, gain_db: real, sample_rate: real)
    requires
        is_in_band(freq, sample_rate),
    ensures
        ({
            let c = tuning(freq, gain_db, sample_rate);
            &&& -1real < c.a2 < 1real
            &&& -(1real + c.a2) < c.a1 < 1real + c.a2
        }),
{
    let w0 = angle(freq, sample_rate);
    let (a, alpha, mid) = (amplitude(gain_db), bandwidth(w0), middle(w0));
    let c = tuning(freq, gain_db, sample_rate);
    lemma_terms(freq, sample_rate);
    lemma_amplitude(gain_db);
    lemma_peaking(a, alpha, mid);
    let d = 1real + alpha / a;
    assert(0real * d == 0real);
    lemma_distribute(1real, c.a2, d);
    lemma_order(0real, 1real + c.a2, d);
    lemma_order(0real, 1real - c.a2, d);
    lemma_order(c.a1, 1real + c.a2, d);
    lemma_opposite(1real + c.a2, d);
    lemma_order(-(1real + c.a2), c.a1, d);
}

/// A constant signal and one that alternates at every sample are beyond the reach of the gain: the
/// sums that decide on their level are the same above and below the fraction line.
pub proof fn the_ends_of_the_spectrum_keep_their_level(freq: real, gain_db: real, sample_rate: real)
    requires
        is_in_band(freq, sample_rate),
    ensures
        ({
            let c = tuning(freq, gain_db, sample_rate);
            &&& c.b0 + c.b2 == 1real + c.a2
            &&& c.b0 + c.b1 + c.b2 == 1real + c.a1 + c.a2
            &&& c.b0 - c.b1 + c.b2 == 1real - c.a1 + c.a2
            &&& 1real + c.a1 + c.a2 > 0real
            &&& 1real - c.a1 + c.a2 > 0real
        }),
{
    let w0 = angle(freq, sample_rate);
    let (a, alpha, mid) = (amplitude(gain_db), bandwidth(w0), middle(w0));
    let c = tuning(freq, gain_db, sample_rate);
    lemma_terms(freq, sample_rate);
    lemma_amplitude(gain_db);
    lemma_peaking(a, alpha, mid);
    the_filter_is_stable(freq, gain_db, sample_rate);
    let d = 1real + alpha / a;
    lemma_distribute(c.b0, c.b2, d);
    lemma_distribute(1real, c.a2, d);
    lemma_order(c.b0 + c.b2, 1real + c.a2, d);
}

/// A filter that has settled on a constant signal hands it on at its level.
pub proof fn a_constant_signal_passes(freq: real, gain_db: real, sample_rate: real, level: real)
    requires
        is_in_band(freq, sample_rate),
    ensures
        ({
            let c = tuning(freq, gain_db, sample_rate);
            let z = (1real - c.b0) * level;
            let settled = Memory { z1: z, z2: z };
            &&& output(c, settled, level) == level
            &&& next(c, settled, level) == settled
        }),
{
    let c = tuning(freq, gain_db, sample_rate);
    the_ends_of_the_spectrum_keep_their_level(freq, gain_db, sample_rate);
    lemma_distribute(1real, c.b0, level);
    lemma_distribute(c.b2, c.a2, level);
    assert(c.b2 - c.a2 == 1real - c.b0);
}

/// A filter that has settled on a signal that alternates at every sample hands it on at its level.
pub proof fn an_alternating_signal_passes(freq: real, gain_db: real, sample_rate: real, level: real)
    requires
        is_in_band(freq, sample_rate),
    ensures
        ({
            let c = tuning(freq, gain_db, sample_rate);
            let z = (1real - c.b0) * level;
            let settled = Memory { z1: z, z2: -z };
            let opposite = Memory { z1: -z, z2: z };
            &&& output(c, settled, level) == level
            &&& next(c, settled, level) == opposite
            &&& output(c, opposite, -level) == -level
            &&& next(c, opposite, -level) == settled
        }),
{
    let c = tuning(freq, gain_db, sample_rate);
    the_ends_of_the_spectrum_keep_their_level(freq, gain_db, sample_rate);
    lemma_distribute(1real, c.b0, level);
    lemma_distribute(c.b2, c.a2, level);
    lemma_distribute(1real, c.b0, -level);
    lemma_distribute(c.b2, c.a2, -level);
    assert(c.b2 - c.a2 == 1real - c.b0);
    let k = 1real - c.b0;
    assert(k * (-level) == -(k * level)) by (nonlinear_arith);
}

/// The centre gets the gain: what decides on the level of a signal at the centre frequency differs
/// above and below the fraction line by the squared amplitude, which is ten to a twentieth of the
/// gain where powers turn doubled exponents into squares.
pub proof fn the_centre_gets_the_gain(freq: real, gain_db: real, sample_rate: real)
    requires
        is_in_band(freq, sample_rate),
    ensures
        ({
            let c = tuning(freq, gain_db, sample_rate);
            let a = amplitude(gain_db);
            let level = real::rational(10, 1).to_power(gain_db.over(real::rational(20, 1)));
            &&& c.b0 - c.b2 == (a * a) * (1real - c.a2)
            &&& 1real - c.a2 > 0real
            &&& level == a * a ==> c.b0 - c.b2 == level * (1real - c.a2)
        }),
{
    let w0 = angle(freq, sample_rate);
    let (a, alpha, mid) = (amplitude(gain_db), bandwidth(w0), middle(w0));
    let c = tuning(freq, gain_db, sample_rate);
    lemma_terms(freq, sample_rate);
    lemma_amplitude(gain_db);
    lemma_peaking(a, alpha, mid);
    the_filter_is_stable(freq, gain_db, sample_rate);
    let d = 1real + alpha / a;
    let (s, t) = (a * a, d - 1real);
    lemma_distribute(c.b0, c.b2, d);
    lemma_distribute(1real, c.a2, d);
    lemma_regroup(s, 1real - c.a2, d);
    assert((1real - c.a2) * d == 2real * t);
    assert(s * (2real * t) == 2real * ((t * a) * a)) by (nonlinear_arith)
        requires
            s == a * a,
    ;
    lemma_order(s * (1real - c.a2), c.b0 - c.b2, d);
}

proof fn lemma_growth(a: real, e: real, alpha: real, mid: real)
    requires
        0real < a < e,
        alpha > 0real,
    ensures
        peaking(a, alpha, mid).b0 < peaking(e, alpha, mid).b0,
        peaking(a, alpha, mid).a2 < peaking(e, alpha, mid).a2,
{
    let (p, q) = (peaking(a, alpha, mid), peaking(e, alpha, mid));
    let (d, f) = (1real + alpha / a, 1real + alpha / e);
    lemma_peaking(a, alpha, mid);
    lemma_peaking(e, alpha, mid);
    // (d - 1) * a == (f - 1) * e > (f - 1) * a
    lemma_order(a, e, f - 1real);
    lemma_regroup(f - 1real, a, a);
    lemma_regroup(f - 1real, e, e);
    lemma_order(f - 1real, d - 1real, a);
    assert(f < d);
    lemma_order(a, e, alpha);
    lemma_regroup(a, alpha, alpha);
    lemma_regroup(e, alpha, alpha);
    // p.b0 * d < q.b0 * f < q.b0 * d
    lemma_positive(a, alpha);
    lemma_positive(e, alpha);
    assert(0real * f == 0real);
    lemma_order(0real, q.b0, f);
    lemma_order(f, d, q.b0);
    lemma_regroup(q.b0, f, f);
    lemma_regroup(q.b0, d, d);
    lemma_order(p.b0, q.b0, d);
    // (p.a2 + 1) * d == (q.a2 + 1) * f < (q.a2 + 1) * d
    let (u, v) = (p.a2 + 1real, q.a2 + 1real);
    lemma_distribute(p.a2, 1real, d);
    lemma_distribute(q.a2, 1real, f);
    lemma_order(0real, v, f);
    lemma_order(f, d, v);
    lemma_regroup(v, f, f);
    lemma_regroup(v, d, d);
    lemma_order(u, v, d);
}

/// A higher gain gives a higher first coefficient and a higher last one.
pub proof fn the_coefficients_grow_with_the_gain(
    freq: real,
    lower: real,
    higher: real,
    sample_rate: real,
)
    requires
        is_in_band(freq, sample_rate),
        lower < higher,
    ensures
        tuning(freq, lower, sample_rate).b0 < tuning(freq, higher, sample_rate).b0,
        tuning(freq, lower, sample_rate).a2 < tuning(freq, higher, sample_rate).a2,
{
    lemma_fractions();
    analysis_exists();
    let w0 = angle(freq, sample_rate);
    lemma_terms(freq, sample_rate);
    lemma_amplitude(lower);
    assert(lower / 40real < higher / 40real);
    lemma_growth(amplitude(lower), amplitude(higher), bandwidth(w0), middle(w0));
}

/// The first coefficient tells a boost from a cut.
pub proof fn the_first_coefficient_tells_a_boost_from_a_cut(
    freq: real,
    gain_db: real,
    sample_rate: real,
)
    requires
        is_in_band(freq, sample_rate),
    ensures
        tuning(freq, gain_db, sample_rate).b0 > 0real,
        tuning(freq, gain_db, sample_rate).b0 > 1real <==> gain_db > 0real,
        tuning(freq, gain_db, sample_rate).b0 < 1real <==> gain_db < 0real,
{
    lemma_fractions();
    analysis_exists();
    let w0 = angle(freq, sample_rate);
    let (a, alpha, mid) = (amplitude(gain_db), bandwidth(w0), middle(w0));
    let c = tuning(freq, gain_db, sample_rate);
    lemma_terms(freq, sample_rate);
    lemma_amplitude(gain_db);
    lemma_peaking(a, alpha, mid);
    lemma_positive(a, alpha);
    let d = 1real + alpha / a;
    assert(0real * d == 0real);
    lemma_order(0real, c.b0, d);
    a_gain_of_zero_changes_nothing(freq, sample_rate, 0real);
    if gain_db > 0real {
        the_coefficients_grow_with_the_gain(freq, 0real, gain_db, sample_rate);
    } else if gain_db < 0real {
        the_coefficients_grow_with_the_gain(freq, gain_db, 0real, sample_rate);
    }
}

/// One filter is the inverse of another: numerator and denominator change places, and are scaled
/// anew so that the denominator starts with one.
pub open spec fn is_inverse(q: Coefficients<real>, p: Coefficients<real>) -> bool {
    &&& p.b0 > 0real
    &&& q.b0 == 1real / p.b0
    &&& q.b1 == p.a1 / p.b0
    &&& q.b2 == p.a2 / p.b0
    &&& q.a1 == p.b1 / p.b0
    &&& q.a2 == p.b2 / p.b0
}

proof fn lemma_inverse_term(inverse: real, term: real, b0: real, d: real, f: real)
    requires
        b0 > 0real,
        d > 0real,
        b0 * d == f,
        inverse * f == term * d,
    ensures
        inverse == term / b0,
{
    lemma_regroup(inverse, b0, d);
    lemma_order(inverse * b0, term, d);
    lemma_undivided(term, b0);
    lemma_order(inverse, term / b0, b0);
}

/// Opposite gains give inverse filters.
pub proof fn opposite_gains_give_inverse_filters(freq: real, gain_db: real, sample_rate: real)
    requires
        is_in_band(freq, sample_rate),
    ensures
        is_inverse(tuning(freq, -gain_db, sample_rate), tuning(freq, gain_db, sample_rate)),
{
    lemma_fractions();
    analysis_exists();
    let w0 = angle(freq, sample_rate);
    let (alpha, mid) = (bandwidth(w0), middle(w0));
    let (a, e) = (amplitude(gain_db), amplitude(-gain_db));
    let p = tuning(freq, gain_db, sample_rate);
    let q = tuning(freq, -gain_db, sample_rate);
    assert((-gain_db) / 40real == 0real - gain_db / 40real);
    assert(a * e == 1real);
    lemma_terms(freq, sample_rate);
    lemma_amplitude(gain_db);
    lemma_amplitude(-gain_db);
    lemma_peaking(a, alpha, mid);
    lemma_peaking(e, alpha, mid);
    the_first_coefficient_tells_a_boost_from_a_cut(freq, gain_db, sample_rate);
    let (d, f) = (1real + alpha / a, 1real + alpha / e);
    // The scale of each filter is the first term of the other.
    lemma_inverse_factor(alpha, d - 1real, a, e);
    lemma_regroup(a, e, e);
    lemma_inverse_factor(alpha, f - 1real, e, a);
    lemma_inverse_term(q.b0, 1real, p.b0, d, f);
    lemma_inverse_term(q.b1, p.a1, p.b0, d, f);
    lemma_inverse_term(q.b2, p.a2, p.b0, d, f);
    lemma_inverse_term(q.a1, p.b1, p.b0, d, f);
    lemma_inverse_term(q.a2, p.b2, p.b0, d, f);
}

proof fn lemma_inverse_factor(product: real, x: real, a: real, e: real)
    requires
        x * a == product,
        a * e == 1real,
    ensures
        product * e == x,
{
    lemma_regroup(x, a, e);
    lemma_unit(x, a * e);
}

/// What the inverse of a filter remembers when the filter remembers `m`.
pub open spec fn inverse_memory(p: Coefficients<real>, m: Memory<real>) -> Memory<real> {
    Memory { z1: -m.z1 / p.b0, z2: -m.z2 / p.b0 }
}

proof fn lemma_quotient(x: real, d: real)
    requires
        d > 0real,
    ensures
        x / d == x * (1real / d),
{
    let r = 1real / d;
    lemma_undivided(x, d);
    lemma_undivided(1real, d);
    lemma_regroup(x, r, d);
    lemma_unit(x, r * d);
    lemma_order(x / d, x * r, d);
}

proof fn lemma_inverse_step(p: Coefficients<real>, q: Coefficients<real>, m: Memory<real>, x: real)
    requires
        is_inverse(q, p),
    ensures
        output(q, inverse_memory(p, m), output(p, m, x)) == x,
        next(q, inverse_memory(p, m), output(p, m, x)) == inverse_memory(p, next(p, m, x)),
{
    let (y, n) = (output(p, m, x), next(p, m, x));
    let r = 1real / p.b0;
    lemma_quotient(p.a1, p.b0);
    lemma_quotient(p.a2, p.b0);
    lemma_quotient(p.b1, p.b0);
    lemma_quotient(p.b2, p.b0);
    lemma_quotient(-m.z1, p.b0);
    lemma_quotient(-m.z2, p.b0);
    lemma_quotient(-n.z1, p.b0);
    lemma_quotient(-n.z2, p.b0);
    // r * y - z1 * r == r * (b0 * x) == x
    lemma_undivided(1real, p.b0);
    lemma_regroup(r, y, y);
    lemma_distribute(p.b0 * x, m.z1, r);
    lemma_opposite(m.z1, r);
    lemma_regroup(p.b0 * x, r, r);
    lemma_regroup(r, p.b0, x);
    lemma_unit(x, r * p.b0);
    assert(output(q, inverse_memory(p, m), y) == x);
    // the same terms, with the opposite sign and scaled
    lemma_shuffle(p.a1, r, y);
    lemma_shuffle(p.b1, r, x);
    lemma_opposite(m.z2, r);
    lemma_distribute(p.b1 * x, p.a1 * y, r);
    lemma_distribute(p.b1 * x - p.a1 * y, m.z2, r);
    lemma_opposite(n.z1, r);
    lemma_shuffle(p.a2, r, y);
    lemma_shuffle(p.b2, r, x);
    lemma_distribute(p.b2 * x, p.a2 * y, r);
    lemma_opposite(n.z2, r);
}

proof fn lemma_round_trip(p: Coefficients<real>, q: Coefficients<real>, signal: Seq<real>)
    requires
        is_inverse(q, p),
    ensures
        ({
            let rest = at_rest::<real>();
            let answer = response(p, rest, signal);
            &&& response(q, rest, answer) == signal
            &&& memory_after(q, rest, answer) == inverse_memory(p, memory_after(p, rest, signal))
        }),
    decreases signal.len(),
{
    lemma_fractions();
    let rest = at_rest::<real>();
    if signal.len() == 0 {
        assert(-0real == 0real);
        lemma_quotient(0real, p.b0);
        assert(0real * (1real / p.b0) == 0real);
    } else {
        let before = signal.drop_last();
        let answer = response(p, rest, signal);
        lemma_round_trip(p, q, before);
        lemma_inverse_step(p, q, memory_after(p, rest, before), signal.last());
        assert(answer.drop_last() =~= response(p, rest, before));
        assert(before.push(signal.last()) =~= signal);
    }
}

/// A cut undoes a boost, and a boost a cut: a signal that has gone through a filter comes back when
/// it goes through one with the opposite gain, sample by sample, if both were at rest.
pub proof fn the_opposite_gain_restores_the_signal(
    freq: real,
    gain_db: real,
    sample_rate: real,
    signal: Seq<real>,
)
    requires
        is_in_band(freq, sample_rate),
    ensures
        response(
            tuning(freq, -gain_db, sample_rate),
            at_rest::<real>(),
            response(tuning(freq, gain_db, sample_rate), at_rest::<real>(), signal),
        ) == signal,
{
    opposite_gains_give_inverse_filters(freq, gain_db, sample_rate);
    lemma_round_trip(
        tuning(freq, gain_db, sample_rate),
        tuning(freq, -gain_db, sample_rate),
        signal,
    );
}

/// The same, call by call: each sample of a channel goes through one filter and then through the one
/// with the opposite gain, and comes out as it went in.
pub proof fn the_opposite_filter_restores_every_sample(
    p: Biquad<real>,
    q: Biquad<real>,
    sample_rate: real,
    signal: Seq<real>,
    is_left: bool,
    at: int,
)
    requires
        is_in_band(p.freq, sample_rate),
        q.freq == p.freq,
        q.gain_db == -p.gain_db,
        p.tuned(sample_rate) == p,
        q.tuned(sample_rate) == q,
        p.left() == at_rest::<real>() && p.right() == at_rest::<real>(),
        q.left() == at_rest::<real>() && q.right() == at_rest::<real>(),
        0 <= at < signal.len(),
    ensures
        ({
            let between = Seq::new(
                signal.len(),
                |i: int| after_run(p, signal.take(i), is_left).answer(signal[i], is_left),
            );
            after_run(q, between.take(at), is_left).answer(between[at], is_left) == signal[at]
        }),
{
    let rest = at_rest::<real>();
    let between = Seq::new(
        signal.len(),
        |i: int| after_run(p, signal.take(i), is_left).answer(signal[i], is_left),
    );
    lemma_tuned(p, sample_rate);
    lemma_tuned(q, sample_rate);
    lemma_response_len(p.coefficients(), rest, signal);
    assert forall|i: int| 0 <= i < signal.len() implies response(
        p.coefficients(),
        rest,
        signal,
    )[i] == between[i] by {
        a_run_gives_the_response(p, signal, is_left, i);
    }
    assert(response(p.coefficients(), rest, signal) =~= between);
    the_opposite_gain_restores_the_signal(p.freq, p.gain_db, sample_rate, signal);
    a_run_gives_the_response(q, between, is_left, at);
}

proof fn lemma_tuned(filter: Biquad<real>, sample_rate: real)
    requires
        filter.tuned(sample_rate) == filter,
    ensures
        filter.coefficients() == tuning(filter.freq, filter.gain_db, sample_rate),
{
}

/// Frequency and sample rate count only in proportion: when both are multiplied by one number, as
/// by two, the tuning stays what it is.
pub proof fn only_the_proportion_counts(freq: real, gain_db: real, sample_rate: real, factor: real)
    requires
        sample_rate > 0real,
        factor > 0real,
    ensures
        tuning(factor * freq, gain_db, factor * sample_rate) == tuning(freq, gain_db, sample_rate),
{
    lemma_fractions();
    let k = 2real * real::circle_constant();
    let scaled = factor * sample_rate;
    lemma_positive(factor, sample_rate);
    let (u, v) = (k * freq / sample_rate, k * (factor * freq) / scaled);
    lemma_undivided(k * freq, sample_rate);
    lemma_undivided(k * (factor * freq), scaled);
    lemma_regroup(u, factor, sample_rate);
    lemma_regroup(factor, u, sample_rate);
    lemma_regroup(k, factor, freq);
    lemma_regroup(factor, k, freq);
    lemma_order(u, v, scaled);
}

proof fn lemma_cancel_factor(x: real, y: real, d: real)
    requires
        d != 0real,
        x * d == y * d,
    ensures
        x == y,
{
    if d > 0real {
        lemma_order(x, y, d);
    } else {
        lemma_regroup(x, d, d);
        lemma_regroup(y, d, d);
        lemma_opposite(d, x);
        lemma_opposite(d, y);
        lemma_regroup(-d, x, x);
        lemma_regroup(-d, y, y);
        lemma_order(x, y, -d);
    }
}

proof fn lemma_quotient_times(x: real, d: real)
    requires
        d != 0real,
    ensures
        x.over(d) * d == x,
{
    assert((x / d) * d == x) by (nonlinear_arith)
        requires
            d != 0real,
    ;
}

/// The centre is where the filter was tuned, at the angle of its frequency, whatever the gain is. The
/// bandwidth is that of a quality of 1.4, narrower for a boost and wider for a cut. The numerator
/// has the same ends, and a bandwidth that is larger by the square of the amplitude. All this is
/// true at every frequency and every gain for which there is such a filter.
pub proof fn centre_and_bandwidth_are_as_tuned(freq: real, gain_db: real, sample_rate: real)
    requires
        sample_rate != 0real,
        1real + bandwidth(angle(freq, sample_rate)) / amplitude(gain_db) != 0real,
    ensures
        ({
            let c = tuning(freq, gain_db, sample_rate);
            let w0 = 2real * real::circle_constant() * freq / sample_rate;
            let a = 10real.to_power(gain_db / 40real);
            &&& a > 0real
            &&& c.a1 == -(w0.cosine_of() * (1real + c.a2))
            &&& c.b1 == -(w0.cosine_of() * (c.b0 + c.b2))
            &&& 28real * (a * (1real - c.a2)) == 10real * (w0.sine_of() * (1real + c.a2))
            &&& c.b0 + c.b2 == 1real + c.a2
            &&& c.b0 - c.b2 == (a * a) * (1real - c.a2)
        }),
{
    lemma_fractions();
    analysis_exists();
    let w0 = angle(freq, sample_rate);
    let (a, alpha, mid) = (amplitude(gain_db), bandwidth(w0), middle(w0));
    let (s, k) = (w0.sine_of(), w0.cosine_of());
    let c = tuning(freq, gain_db, sample_rate);
    let t = alpha / a;
    let d = 1real + t;
    lemma_quotient_times(alpha, a);
    lemma_quotient_times(1real + alpha * a, d);
    lemma_quotient_times(mid, d);
    lemma_quotient_times(1real - alpha * a, d);
    lemma_quotient_times(1real - t, d);
    let q = 2real * real::rational(14, 10);
    assert(q == 28real / 10real);
    lemma_quotient_times(s, q);
    assert(28real * alpha == 10real * s) by (nonlinear_arith)
        requires
            q == 28real / 10real,
            alpha * q == s,
    ;
    lemma_distribute(1real, c.a2, d);
    lemma_distribute(c.b0, c.b2, d);
    let (up, down) = (1real + c.a2, 1real - c.a2);
    assert(up * d == 2real);
    assert(down * d == 2real * t);
    lemma_cancel_factor(c.b0 + c.b2, up, d);
    // c.a1 * d == -2 * k == -(k * up) * d
    lemma_regroup(k, up, d);
    lemma_opposite(k * up, d);
    lemma_cancel_factor(c.a1, -(k * up), d);
    // 28 * (a * down) * d == 56 * alpha == 20 * s == 10 * (s * up) * d
    lemma_regroup(a, down, d);
    lemma_regroup(28real, a * down, d);
    lemma_regroup(s, up, d);
    lemma_regroup(10real, s * up, d);
    lemma_regroup(a, 2real * t, t);
    lemma_regroup(2real, t, a);
    lemma_cancel_factor(28real * (a * down), 10real * (s * up), d);
    // (b0 - b2) * d == 2 * (alpha * a) == ((a * a) * down) * d
    lemma_regroup(a * a, down, d);
    lemma_regroup(a, a, 2real * t);
    assert(a * (2real * t) == 2real * alpha);
    lemma_regroup(a, 2real * alpha, d);
    lemma_regroup(2real, alpha, a);
    assert(((a * a) * down) * d == 2real * (alpha * a));
    lemma_cancel_factor(c.b0 - c.b2, (a * a) * down, d);
}

} // verus!
