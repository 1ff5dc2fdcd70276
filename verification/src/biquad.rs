//! The peaking filter: two poles, two zeros, and a memory for each channel.
use vstd::prelude::*;

use crate::number::{
    lemma_minus_itself, lemma_minus_of_sums, lemma_plus_of_sums, lemma_times_minus,
    lemma_times_zero, negated, one, zero, Exact, Number,
    Operations,
};

verus! {

/// What a filter multiplies its signals with.
pub struct Coefficients<N> {
    pub b0: N,
    pub b1: N,
    pub b2: N,
    pub a1: N,
    pub a2: N,
}

/// What a filter remembers of one channel.
pub struct Memory<N> {
    pub z1: N,
    pub z2: N,
}

/// A peaking filter around `freq` hertz that raises or lowers its surroundings by `gain_db`
/// decibels.
#[derive(Copy, Debug)]
pub struct Biquad<N> {
    pub freq: N,
    pub gain_db: N,
    pub b0: N,
    pub b1: N,
    pub b2: N,
    pub a1: N,
    pub a2: N,
    pub z1_l: N,
    pub z2_l: N,
    pub z1_r: N,
    pub z2_r: N,
}

impl<N: Copy> Clone for Biquad<N> {
    fn clone(&self) -> (copy: Biquad<N>)
        ensures
            copy == *self,
    {
        *self
    }
}

/// The numerator of the peaking filter, before it is scaled: for the amplitude `a`, the bandwidth
/// term `alpha` and the middle term `mid`.
pub open spec fn numerator<N: Operations>(a: N, alpha: N, mid: N) -> (N, N, N) {
    (one::<N>().plus(alpha.times(a)), mid, one::<N>().minus(alpha.times(a)))
}

/// The denominator of the peaking filter, before it is scaled.
pub open spec fn denominator<N: Operations>(a: N, alpha: N, mid: N) -> (N, N, N) {
    (one::<N>().plus(alpha.over(a)), mid, one::<N>().minus(alpha.over(a)))
}

/// The peaking filter, scaled so that the denominator starts with one.
pub open spec fn peaking<N: Operations>(a: N, alpha: N, mid: N) -> Coefficients<N> {
    let n = numerator(a, alpha, mid);
    let d = denominator(a, alpha, mid);
    Coefficients {
        b0: n.0.over(d.0),
        b1: n.1.over(d.0),
        b2: n.2.over(d.0),
        a1: d.1.over(d.0),
        a2: d.2.over(d.0),
    }
}

/// The amplitude of a gain in decibels.
pub open spec fn amplitude<N: Operations>(gain_db: N) -> N {
    N::rational(10, 1).to_power(gain_db.over(N::rational(40, 1)))
}

/// The angle that a frequency advances by from one sample to the next.
pub open spec fn angle<N: Operations>(freq: N, sample_rate: N) -> N {
    N::rational(2, 1).times(N::circle_constant()).times(freq).over(sample_rate)
}

/// The bandwidth term at an angle, for a quality of 1.4.
pub open spec fn bandwidth<N: Operations>(w0: N) -> N {
    w0.sine_of().over(N::rational(2, 1).times(N::rational(14, 10)))
}

/// The middle term at an angle.
pub open spec fn middle<N: Operations>(w0: N) -> N {
    N::rational(-2, 1).times(w0.cosine_of())
}

/// The coefficients for a frequency, a gain and a sample rate.
pub open spec fn tuning<N: Operations>(freq: N, gain_db: N, sample_rate: N) -> Coefficients<N> {
    let w0 = angle(freq, sample_rate);
    peaking(amplitude(gain_db), bandwidth(w0), middle(w0))
}

/// What a filter puts out for an input.
pub open spec fn output<N: Operations>(c: Coefficients<N>, m: Memory<N>, input: N) -> N {
    c.b0.times(input).plus(m.z1)
}

/// What a filter remembers after an input.
pub open spec fn next<N: Operations>(c: Coefficients<N>, m: Memory<N>, input: N) -> Memory<N> {
    let y = output(c, m, input);
    Memory {
        z1: c.b1.times(input).minus(c.a1.times(y)).plus(m.z2),
        z2: c.b2.times(input).minus(c.a2.times(y)),
    }
}

/// What a filter remembers when it has nothing to remember.
pub open spec fn at_rest<N: Operations>() -> Memory<N> {
    Memory { z1: zero::<N>(), z2: zero::<N>() }
}

impl<N: Operations> Biquad<N> {
    /// The coefficients of the filter.
    pub open spec fn coefficients(self) -> Coefficients<N> {
        Coefficients { b0: self.b0, b1: self.b1, b2: self.b2, a1: self.a1, a2: self.a2 }
    }

    /// The memory of the left channel.
    pub open spec fn left(self) -> Memory<N> {
        Memory { z1: self.z1_l, z2: self.z2_l }
    }

    /// The memory of the right channel.
    pub open spec fn right(self) -> Memory<N> {
        Memory { z1: self.z1_r, z2: self.z2_r }
    }

    /// The filter with other coefficients.
    pub open spec fn with_coefficients(self, c: Coefficients<N>) -> Biquad<N> {
        Biquad { b0: c.b0, b1: c.b1, b2: c.b2, a1: c.a1, a2: c.a2, ..self }
    }

    /// The filter with another gain; its coefficients stay as they are.
    pub open spec fn with_gain(self, gain_db: N) -> Biquad<N> {
        Biquad { gain_db, ..self }
    }

    /// The filter tuned to a sample rate.
    pub open spec fn tuned(self, sample_rate: N) -> Biquad<N> {
        self.with_coefficients(tuning(self.freq, self.gain_db, sample_rate))
    }

    /// The filter after an input on one channel.
    pub open spec fn stepped(self, input: N, is_left: bool) -> Biquad<N> {
        if is_left {
            let m = next(self.coefficients(), self.left(), input);
            Biquad { z1_l: m.z1, z2_l: m.z2, ..self }
        } else {
            let m = next(self.coefficients(), self.right(), input);
            Biquad { z1_r: m.z1, z2_r: m.z2, ..self }
        }
    }

    /// What the filter puts out for an input on one channel.
    pub open spec fn answer(self, input: N, is_left: bool) -> N {
        if is_left {
            output(self.coefficients(), self.left(), input)
        } else {
            output(self.coefficients(), self.right(), input)
        }
    }

    /// The filter with its two channels exchanged.
    pub open spec fn mirrored(self) -> Biquad<N> {
        Biquad {
            z1_l: self.z1_r,
            z2_l: self.z2_r,
            z1_r: self.z1_l,
            z2_r: self.z2_l,
            ..self
        }
    }
}

impl<N: Number> Biquad<N> {
    /// A filter at rest with a gain of zero, tuned to a sample rate of 48000.
    pub fn new(freq: N) -> (filter: Biquad<N>)
        ensures
            filter.freq == freq,
            filter.gain_db == zero::<N>(),
            filter.coefficients() == tuning(freq, zero::<N>(), N::rational(48000, 1)),
            filter.left() == at_rest::<N>(),
            filter.right() == at_rest::<N>(),
    {
        let none = N::ratio(0, 1);
        let mut filter = Biquad {
            freq,
            gain_db: none,
            b0: N::ratio(1, 1),
            b1: none,
            b2: none,
            a1: none,
            a2: none,
            z1_l: none,
            z2_l: none,
            z1_r: none,
            z2_r: none,
        };
        filter.calculate_coeffs(N::ratio(48000, 1));
        filter
    }

    /// Tunes the filter to its frequency and gain at a sample rate. Both memories stay as they
    /// are.
    pub fn calculate_coeffs(&mut self, sample_rate: N)
        ensures
            *final(self) == old(self).tuned(sample_rate),
    {
        let q = N::ratio(14, 10);
        let a = N::ratio(10, 1).power(self.gain_db.quotient(N::ratio(40, 1)));
        let w0 = N::ratio(2, 1).product(N::pi()).product(self.freq).quotient(sample_rate);
        let alpha = w0.sine().quotient(N::ratio(2, 1).product(q));
        let mid = N::ratio(-2, 1).product(w0.cosine());
        self.set_peaking(a, alpha, mid);
    }

    /// Sets the coefficients for an amplitude, a bandwidth term and a middle term, whatever their
    /// values. Everything else of the filter stays as it is.
    pub fn set_peaking(&mut self, a: N, alpha: N, mid: N)
        ensures
            *final(self) == old(self).with_coefficients(peaking(a, alpha, mid)),
    {
        let unit = N::ratio(1, 1);
        let a0 = unit.sum(alpha.quotient(a));
        self.b0 = unit.sum(alpha.product(a)).quotient(a0);
        self.b1 = mid.quotient(a0);
        self.b2 = unit.difference(alpha.product(a)).quotient(a0);
        self.a1 = mid.quotient(a0);
        self.a2 = unit.difference(alpha.quotient(a)).quotient(a0);
    }

    /// Sends one sample of a channel through the filter. Only the memory of that channel changes.
    pub fn process(&mut self, input: N, is_left: bool) -> (y: N)
        ensures
            y == old(self).answer(input, is_left),
            *final(self) == old(self).stepped(input, is_left),
    {
        if is_left {
            let y = self.b0.product(input).sum(self.z1_l);
            self.z1_l = self.b1.product(input).difference(self.a1.product(y)).sum(self.z2_l);
            self.z2_l = self.b2.product(input).difference(self.a2.product(y));
            y
        } else {
            let y = self.b0.product(input).sum(self.z1_r);
            self.z1_r = self.b1.product(input).difference(self.a1.product(y)).sum(self.z2_r);
            self.z2_r = self.b2.product(input).difference(self.a2.product(y));
            y
        }
    }
}

/// A step on one channel changes the memory of that channel and nothing else: not the other
/// channel, the coefficients, the frequency or the gain.
pub proof fn a_step_touches_one_memory<N: Operations>(filter: Biquad<N>, input: N, is_left: bool)
    ensures
        filter.stepped(input, is_left).coefficients() == filter.coefficients(),
        filter.stepped(input, is_left).freq == filter.freq,
        filter.stepped(input, is_left).gain_db == filter.gain_db,
        is_left ==> filter.stepped(input, is_left).right() == filter.right(),
        !is_left ==> filter.stepped(input, is_left).left() == filter.left(),
{
}

/// Both channels follow one law, each on its own memory: what the filter does to one channel, the
/// mirrored filter does to the other.
pub proof fn the_channels_follow_one_law<N: Operations>(filter: Biquad<N>, input: N, is_left: bool)
    ensures
        filter.mirrored().answer(input, !is_left) == filter.answer(input, is_left),
        filter.mirrored().stepped(input, !is_left) == filter.stepped(input, is_left).mirrored(),
{
}

/// The channels do not hear each other: a left step and a right step can come in either order.
pub proof fn the_channels_commute<N: Operations>(filter: Biquad<N>, left: N, right: N)
    ensures
        filter.stepped(left, true).stepped(right, false) == filter.stepped(right, false).stepped(
            left,
            true,
        ),
        filter.stepped(right, false).answer(left, true) == filter.answer(left, true),
        filter.stepped(left, true).answer(right, false) == filter.answer(right, false),
{
}

/// Tuning keeps the frequency, the gain and both memories.
pub proof fn tuning_keeps_the_memories<N: Operations>(filter: Biquad<N>, sample_rate: N)
    ensures
        filter.tuned(sample_rate).freq == filter.freq,
        filter.tuned(sample_rate).gain_db == filter.gain_db,
        filter.tuned(sample_rate).left() == filter.left(),
        filter.tuned(sample_rate).right() == filter.right(),
{
}

/// The coefficients depend on the frequency, the gain and the sample rate alone: not on earlier
/// coefficients, nor on what was filtered before.
pub proof fn tuning_depends_on_three_numbers<N: Operations>(
    one: Biquad<N>,
    other: Biquad<N>,
    sample_rate: N,
)
    requires
        one.freq == other.freq,
        one.gain_db == other.gain_db,
    ensures
        one.tuned(sample_rate).coefficients() == other.tuned(sample_rate).coefficients(),
{
}

/// Frequency and sample rate enter the coefficients only through the angle between two samples.
pub proof fn tuning_depends_on_the_angle<N: Operations>(
    freq: N,
    sample_rate: N,
    other_freq: N,
    other_rate: N,
    gain_db: N,
)
    requires
        angle(freq, sample_rate) == angle(other_freq, other_rate),
    ensures
        tuning(freq, gain_db, sample_rate) == tuning(other_freq, gain_db, other_rate),
{
}

/// Tuning again changes nothing, and of two sample rates the later one counts.
pub proof fn the_last_tuning_counts<N: Operations>(filter: Biquad<N>, earlier: N, later: N)
    ensures
        filter.tuned(earlier).tuned(later) == filter.tuned(later),
        filter.tuned(later).tuned(later) == filter.tuned(later),
{
}

/// Tuning and filtering do not disturb each other's part: a step leaves the tuning that the filter
/// would get as it is.
pub proof fn filtering_does_not_change_the_tuning<N: Operations>(
    filter: Biquad<N>,
    input: N,
    is_left: bool,
    sample_rate: N,
)
    ensures
        filter.stepped(input, is_left).tuned(sample_rate).coefficients() == filter.tuned(
            sample_rate,
        ).coefficients(),
{
}

/// A new filter is one at rest that was tuned with a gain of zero at a sample rate of 48000.
/// Tuning it so once more changes nothing.
pub proof fn a_new_filter_is_tuned<N: Operations>(filter: Biquad<N>)
    requires
        filter.gain_db == zero::<N>(),
        filter.coefficients() == tuning(filter.freq, zero::<N>(), N::rational(48000, 1)),
    ensures
        filter.tuned(N::rational(48000, 1)) == filter,
{
}

/// Numerator and denominator share their middle term.
pub proof fn the_middle_terms_agree<N: Operations>(freq: N, gain_db: N, sample_rate: N)
    ensures
        tuning(freq, gain_db, sample_rate).b1 == tuning(freq, gain_db, sample_rate).a1,
{
}

/// With an amplitude that changes nothing when multiplied with or divided by, numerator and
/// denominator agree.
pub proof fn a_flat_filter_cancels<N: Operations>(a: N, alpha: N, mid: N)
    requires
        alpha.times(a) == alpha,
        alpha.over(a) == alpha,
    ensures
        numerator(a, alpha, mid) == denominator(a, alpha, mid),
        peaking(a, alpha, mid).b1 == peaking(a, alpha, mid).a1,
        peaking(a, alpha, mid).b2 == peaking(a, alpha, mid).a2,
        peaking(a, alpha, mid).b0 == one::<N>().plus(alpha).over(one::<N>().plus(alpha)),
{
}

/// A cut mirrors the boost of the inverse amplitude: numerator and denominator change places.
pub proof fn a_cut_mirrors_a_boost<N: Operations>(boost: N, cut: N, alpha: N, mid: N)
    requires
        alpha.times(cut) == alpha.over(boost),
        alpha.over(cut) == alpha.times(boost),
    ensures
        numerator(cut, alpha, mid) == denominator(boost, alpha, mid),
        denominator(cut, alpha, mid) == numerator(boost, alpha, mid),
{
}

/// What a filter remembers after a run of inputs.
pub open spec fn memory_after<N: Operations>(c: Coefficients<N>, m: Memory<N>, inputs: Seq<N>) -> Memory<
    N,
>
    decreases inputs.len(),
{
    if inputs.len() == 0 {
        m
    } else {
        next(c, memory_after(c, m, inputs.drop_last()), inputs.last())
    }
}

/// What a filter puts out for a run of inputs.
pub open spec fn response<N: Operations>(c: Coefficients<N>, m: Memory<N>, inputs: Seq<N>) -> Seq<N>
    decreases inputs.len(),
{
    if inputs.len() == 0 {
        seq![]
    } else {
        response(c, m, inputs.drop_last()).push(
            output(c, memory_after(c, m, inputs.drop_last()), inputs.last()),
        )
    }
}

/// A filter after a run of inputs on one channel.
pub open spec fn after_run<N: Operations>(filter: Biquad<N>, inputs: Seq<N>, is_left: bool) -> Biquad<N>
    decreases inputs.len(),
{
    if inputs.len() == 0 {
        filter
    } else {
        after_run(filter, inputs.drop_last(), is_left).stepped(inputs.last(), is_left)
    }
}

/// Sending a run of inputs through one channel of a filter, one after the other, takes that
/// channel's memory through [`memory_after`], gives the outputs of [`response`], and leaves the
/// rest of the filter as it was.
pub proof fn a_run_gives_the_response<N: Operations>(
    filter: Biquad<N>,
    inputs: Seq<N>,
    is_left: bool,
    at: int,
)
    requires
        0 <= at < inputs.len(),
    ensures
        ({
            let m = if is_left {
                filter.left()
            } else {
                filter.right()
            };
            let after = after_run(filter, inputs, is_left);
            &&& response(filter.coefficients(), m, inputs)[at] == after_run(
                filter,
                inputs.take(at),
                is_left,
            ).answer(inputs[at], is_left)
            &&& after.coefficients() == filter.coefficients()
            &&& after.freq == filter.freq
            &&& after.gain_db == filter.gain_db
            &&& is_left ==> after.left() == memory_after(filter.coefficients(), m, inputs)
                && after.right() == filter.right()
            &&& !is_left ==> after.right() == memory_after(filter.coefficients(), m, inputs)
                && after.left() == filter.left()
        }),
    decreases inputs.len(),
{
    let before = inputs.drop_last();
    let m = if is_left {
        filter.left()
    } else {
        filter.right()
    };
    lemma_response_len(filter.coefficients(), m, before);
    if before.len() > 0 {
        a_run_gives_the_response(
            filter,
            before,
            is_left,
            if at < before.len() {
                at
            } else {
                0
            },
        );
    }
    if at < before.len() {
        assert(before.take(at) =~= inputs.take(at));
    } else {
        assert(inputs.take(at) =~= before);
    }
}

/// The difference equation: from the third input on, each output is made of the last three inputs
/// and the last two outputs.
pub proof fn outputs_obey_the_difference_equation<N: Operations>(
    c: Coefficients<N>,
    m: Memory<N>,
    x: N,
    x1: N,
    x2: N,
)
    ensures
        ({
            let m1 = next(c, m, x2);
            let m2 = next(c, m1, x1);
            let y2 = output(c, m, x2);
            let y1 = output(c, m1, x1);
            output(c, m2, x) == c.b0.times(x).plus(
                c.b1.times(x1).minus(c.a1.times(y1)).plus(
                    c.b2.times(x2).minus(c.a2.times(y2)),
                ),
            )
        }),
{
}

/// The sum of two memories.
pub open spec fn memory_sum<N: Operations>(m: Memory<N>, n: Memory<N>) -> Memory<N> {
    Memory { z1: m.z1.plus(n.z1), z2: m.z2.plus(n.z2) }
}

/// A multiple of a memory.
pub open spec fn memory_multiple<N: Operations>(k: N, m: Memory<N>) -> Memory<N> {
    Memory { z1: k.times(m.z1), z2: k.times(m.z2) }
}

/// The sums of two signals, sample by sample.
pub open spec fn signal_sum<N: Operations>(xs: Seq<N>, ys: Seq<N>) -> Seq<N> {
    Seq::new(xs.len(), |i: int| xs[i].plus(ys[i]))
}

/// A multiple of a signal.
pub open spec fn signal_multiple<N: Operations>(k: N, xs: Seq<N>) -> Seq<N> {
    Seq::new(xs.len(), |i: int| k.times(xs[i]))
}

proof fn lemma_step_adds<N: Exact>(c: Coefficients<N>, m: Memory<N>, n: Memory<N>, x: N, y: N)
    ensures
        output(c, memory_sum(m, n), x.plus(y)) == output(c, m, x).plus(output(c, n, y)),
        next(c, memory_sum(m, n), x.plus(y)) == memory_sum(next(c, m, x), next(c, n, y)),
{
    N::times_distributes(c.b0, x, y);
    lemma_plus_of_sums(c.b0.times(x), c.b0.times(y), m.z1, n.z1);
    let u = output(c, m, x);
    let v = output(c, n, y);
    N::times_distributes(c.b1, x, y);
    N::times_distributes(c.a1, u, v);
    lemma_minus_of_sums(c.b1.times(x), c.b1.times(y), c.a1.times(u), c.a1.times(v));
    lemma_plus_of_sums(
        c.b1.times(x).minus(c.a1.times(u)),
        c.b1.times(y).minus(c.a1.times(v)),
        m.z2,
        n.z2,
    );
    N::times_distributes(c.b2, x, y);
    N::times_distributes(c.a2, u, v);
    lemma_minus_of_sums(c.b2.times(x), c.b2.times(y), c.a2.times(u), c.a2.times(v));
}

/// Superposition: on exact numbers the answer to a sum of two signals is the sum of the answers.
pub proof fn signals_superpose<N: Exact>(
    c: Coefficients<N>,
    m: Memory<N>,
    n: Memory<N>,
    xs: Seq<N>,
    ys: Seq<N>,
)
    requires
        xs.len() == ys.len(),
    ensures
        response(c, memory_sum(m, n), signal_sum(xs, ys)) == signal_sum(
            response(c, m, xs),
            response(c, n, ys),
        ),
        memory_after(c, memory_sum(m, n), signal_sum(xs, ys)) == memory_sum(
            memory_after(c, m, xs),
            memory_after(c, n, ys),
        ),
    decreases xs.len(),
{
    lemma_response_len(c, m, xs);
    lemma_response_len(c, n, ys);
    lemma_response_len(c, memory_sum(m, n), signal_sum(xs, ys));
    if xs.len() > 0 {
        let (us, vs) = (xs.drop_last(), ys.drop_last());
        signals_superpose(c, m, n, us, vs);
        lemma_response_len(c, m, us);
        lemma_response_len(c, n, vs);
        assert(signal_sum(xs, ys).drop_last() =~= signal_sum(us, vs));
        lemma_step_adds(
            c,
            memory_after(c, m, us),
            memory_after(c, n, vs),
            xs.last(),
            ys.last(),
        );
    }
    assert(response(c, memory_sum(m, n), signal_sum(xs, ys)) =~= signal_sum(
        response(c, m, xs),
        response(c, n, ys),
    ));
}

/// There is one output for each input.
pub proof fn lemma_response_len<N: Operations>(c: Coefficients<N>, m: Memory<N>, xs: Seq<N>)
    ensures
        response(c, m, xs).len() == xs.len(),
    decreases xs.len(),
{
    if xs.len() > 0 {
        lemma_response_len(c, m, xs.drop_last());
    }
}

proof fn lemma_swap_factors<N: Exact>(k: N, c: N, x: N)
    ensures
        c.times(k.times(x)) == k.times(c.times(x)),
{
    N::times_associates(c, k, x);
    N::times_commutes(c, k);
    N::times_associates(k, c, x);
}

proof fn lemma_step_scales<N: Exact>(c: Coefficients<N>, m: Memory<N>, k: N, x: N)
    ensures
        output(c, memory_multiple(k, m), k.times(x)) == k.times(output(c, m, x)),
        next(c, memory_multiple(k, m), k.times(x)) == memory_multiple(k, next(c, m, x)),
{
    let y = output(c, m, x);
    lemma_swap_factors(k, c.b0, x);
    N::times_distributes(k, c.b0.times(x), m.z1);
    lemma_swap_factors(k, c.b1, x);
    lemma_swap_factors(k, c.a1, y);
    lemma_times_minus(k, c.b1.times(x), c.a1.times(y));
    N::times_distributes(k, c.b1.times(x).minus(c.a1.times(y)), m.z2);
    lemma_swap_factors(k, c.b2, x);
    lemma_swap_factors(k, c.a2, y);
    lemma_times_minus(k, c.b2.times(x), c.a2.times(y));
}

/// Scaling: on exact numbers the answer to a multiple of a signal is the multiple of the answer.
pub proof fn signals_scale<N: Exact>(c: Coefficients<N>, m: Memory<N>, k: N, xs: Seq<N>)
    ensures
        response(c, memory_multiple(k, m), signal_multiple(k, xs)) == signal_multiple(
            k,
            response(c, m, xs),
        ),
        memory_after(c, memory_multiple(k, m), signal_multiple(k, xs)) == memory_multiple(
            k,
            memory_after(c, m, xs),
        ),
    decreases xs.len(),
{
    lemma_response_len(c, m, xs);
    lemma_response_len(c, memory_multiple(k, m), signal_multiple(k, xs));
    if xs.len() > 0 {
        let us = xs.drop_last();
        signals_scale(c, m, k, us);
        lemma_response_len(c, m, us);
        assert(signal_multiple(k, xs).drop_last() =~= signal_multiple(k, us));
        lemma_step_scales(c, memory_after(c, m, us), k, xs.last());
    }
    assert(response(c, memory_multiple(k, m), signal_multiple(k, xs)) =~= signal_multiple(
        k,
        response(c, m, xs),
    ));
}

/// A negated input gives a negated output: on exact numbers, step by step.
pub proof fn negated_input_gives_negated_output<N: Exact>(c: Coefficients<N>, m: Memory<N>, x: N)
    ensures
        ({
            let n = Memory { z1: negated(m.z1), z2: negated(m.z2) };
            &&& output(c, n, negated(x)) == negated(output(c, m, x))
            &&& next(c, n, negated(x)) == (Memory {
                z1: negated(next(c, m, x).z1),
                z2: negated(next(c, m, x).z2),
            })
        }),
{
    let k = negated(one::<N>());
    lemma_negate(x);
    lemma_negate(m.z1);
    lemma_negate(m.z2);
    lemma_step_scales(c, m, k, x);
    lemma_negate(output(c, m, x));
    lemma_negate(next(c, m, x).z1);
    lemma_negate(next(c, m, x).z2);
}

proof fn lemma_negate<N: Exact>(x: N)
    ensures
        negated(one::<N>()).times(x) == negated(x),
{
    N::times_commutes(negated(one::<N>()), x);
    lemma_times_minus(x, zero::<N>(), one::<N>());
    lemma_times_zero(x);
    N::times_commutes(x, one::<N>());
    N::one_is_neutral(x);
}

/// Silence in gives silence out: on exact numbers a filter at rest stays at rest.
pub proof fn silence_stays_silence<N: Exact>(c: Coefficients<N>)
    ensures
        output(c, at_rest::<N>(), zero::<N>()) == zero::<N>(),
        next(c, at_rest::<N>(), zero::<N>()) == at_rest::<N>(),
{
    let z = zero::<N>();
    lemma_times_zero(c.b0);
    lemma_times_zero(c.b1);
    lemma_times_zero(c.b2);
    lemma_times_zero(c.a1);
    lemma_times_zero(c.a2);
    lemma_minus_itself(z);
    N::zero_is_neutral(z);
}

/// Whatever the gain, the outer terms of numerator and denominator have the same sum. Where a sum is
/// divided by dividing its parts, that is true of the scaled coefficients as well.
pub proof fn the_outer_terms_have_one_sum<N: Exact>(a: N, alpha: N, mid: N)
    requires
        one::<N>().plus(alpha.over(a)) != zero::<N>(),
        forall|x: N, y: N|
            #[trigger] x.plus(y).over(one::<N>().plus(alpha.over(a))) == x.over(
                one::<N>().plus(alpha.over(a)),
            ).plus(y.over(one::<N>().plus(alpha.over(a)))),
    ensures
        ({
            let n = numerator(a, alpha, mid);
            let d = denominator(a, alpha, mid);
            let c = peaking(a, alpha, mid);
            &&& n.0.plus(n.2) == d.0.plus(d.2)
            &&& c.b0.plus(c.b2) == one::<N>().plus(c.a2)
            &&& c.b0.plus(c.b2).plus(c.b1) == one::<N>().plus(c.a2).plus(c.a1)
            &&& c.b0.plus(c.b2).minus(c.b1) == one::<N>().plus(c.a2).minus(c.a1)
        }),
{
    let n = numerator(a, alpha, mid);
    let d = denominator(a, alpha, mid);
    lemma_outer_terms(alpha.times(a));
    lemma_outer_terms(alpha.over(a));
    N::a_number_goes_once_into_itself(d.0);
    assert(n.0.plus(n.2).over(d.0) == n.0.over(d.0).plus(n.2.over(d.0)));
    assert(d.0.plus(d.2).over(d.0) == d.0.over(d.0).plus(d.2.over(d.0)));
}

proof fn lemma_outer_terms<N: Exact>(x: N)
    ensures
        one::<N>().plus(x).plus(one::<N>().minus(x)) == one::<N>().plus(one::<N>()),
{
    let unit = one::<N>();
    N::plus_associates(unit, x, unit.minus(x));
    N::plus_commutes(x, unit.minus(x));
    N::minus_undoes_plus(unit, x);
}

/// On exact numbers a filter with a gain of zero, at rest, hands its input on unchanged and stays
/// at rest, at any sample rate; where the bandwidth term is minus one there is no such filter.
pub proof fn a_gain_of_zero_changes_nothing<N: Exact>(freq: N, sample_rate: N, input: N)
    requires
        one::<N>().plus(bandwidth(angle(freq, sample_rate))) != zero::<N>(),
    ensures
        ({
            let c = tuning(freq, zero::<N>(), sample_rate);
            &&& c.b0 == one::<N>()
            &&& c.b1 == c.a1
            &&& c.b2 == c.a2
            &&& output(c, at_rest::<N>(), input) == input
            &&& next(c, at_rest::<N>(), input) == at_rest::<N>()
        }),
{
    let c = tuning(freq, zero::<N>(), sample_rate);
    let w0 = angle(freq, sample_rate);
    let alpha = bandwidth(w0);
    N::nothing_divided_is_nothing(N::rational(40, 1));
    N::the_empty_power_is_one(N::rational(10, 1));
    N::one_is_neutral(alpha);
    N::times_commutes(alpha, one::<N>());
    a_flat_filter_cancels(one::<N>(), alpha, middle(w0));
    N::a_number_goes_once_into_itself(one::<N>().plus(alpha));
    N::one_is_neutral(input);
    N::zero_is_neutral(input);
    lemma_minus_itself(c.b1.times(input));
    lemma_minus_itself(c.b2.times(input));
    N::zero_is_neutral(zero::<N>());
}

/// A filter after some inputs, each on the left channel or on the right.
pub open spec fn after_inputs<N: Operations>(filter: Biquad<N>, inputs: Seq<(N, bool)>) -> Biquad<N>
    decreases inputs.len(),
{
    if inputs.len() == 0 {
        filter
    } else {
        after_inputs(filter, inputs.drop_last()).stepped(inputs.last().0, inputs.last().1)
    }
}

/// What arithmetic has to get right for a filter whose numerator and denominator agree to hand its
/// inputs on. Two numbers count as the same where `same` holds of them. It is stated so that
/// single-precision numbers can meet it, with their equality, which tells no zero from another, and
/// with inputs whose products with the coefficients are finite; that they do is not proved here.
pub open spec fn cancels<N: Operations>(
    same: spec_fn(N, N) -> bool,
    is_input: spec_fn(N) -> bool,
    c: Coefficients<N>,
) -> bool {
    &&& forall|x: N, z: N|
        is_input(x) && same(z, zero::<N>()) ==> same(#[trigger] one::<N>().times(x).plus(z), x)
    &&& forall|x: N, y: N, z: N|
        is_input(x) && same(y, x) && same(z, zero::<N>()) ==> same(
            #[trigger] c.b1.times(x).minus(c.b1.times(y)).plus(z),
            zero::<N>(),
        )
    &&& forall|x: N, y: N|
        is_input(x) && same(y, x) ==> same(
            #[trigger] c.b2.times(x).minus(c.b2.times(y)),
            zero::<N>(),
        )
}

/// Exact numbers cancel, whatever the inputs are.
pub proof fn exact_numbers_cancel<N: Exact>(c: Coefficients<N>)
    ensures
        cancels(|x: N, y: N| x == y, |x: N| true, c),
{
    N::zero_is_neutral(zero::<N>());
    assert forall|x: N| #[trigger] one::<N>().times(x).plus(zero::<N>()) == x by {
        N::one_is_neutral(x);
        N::zero_is_neutral(x);
    }
    assert forall|k: N, x: N| #[trigger] k.times(x).minus(k.times(x)) == zero::<N>() by {
        lemma_minus_itself(k.times(x));
    }
}

/// Both memories of a filter hold nothing but zeros.
pub open spec fn is_empty<N: Operations>(same: spec_fn(N, N) -> bool, filter: Biquad<N>) -> bool {
    &&& same(filter.z1_l, zero::<N>())
    &&& same(filter.z2_l, zero::<N>())
    &&& same(filter.z1_r, zero::<N>())
    &&& same(filter.z2_r, zero::<N>())
}

/// A filter whose gain changes nothing hands every input on, on both channels and however many
/// there are, and its memories stay empty. That the gain changes nothing is to say that the
/// bandwidth term is the same when it is multiplied with the amplitude and when it is divided by
/// it, as with an amplitude of one.
pub proof fn a_flat_filter_hands_its_inputs_on<N: Operations>(
    same: spec_fn(N, N) -> bool,
    is_input: spec_fn(N) -> bool,
    filter: Biquad<N>,
    sample_rate: N,
    inputs: Seq<(N, bool)>,
    at: int,
)
    requires
        ({
            let a = amplitude(filter.gain_db);
            let alpha = bandwidth(angle(filter.freq, sample_rate));
            &&& alpha.times(a) == alpha
            &&& alpha.over(a) == alpha
            &&& one::<N>().plus(alpha).over(one::<N>().plus(alpha)) == one::<N>()
        }),
        filter.coefficients() == tuning(filter.freq, filter.gain_db, sample_rate),
        is_empty(same, filter),
        cancels(same, is_input, filter.coefficients()),
        forall|i: int| 0 <= i < inputs.len() ==> is_input((#[trigger] inputs[i]).0),
        0 <= at < inputs.len(),
    ensures
        same(
            after_inputs(filter, inputs.take(at)).answer(inputs[at].0, inputs[at].1),
            inputs[at].0,
        ),
        is_empty(same, after_inputs(filter, inputs)),
        after_inputs(filter, inputs).coefficients() == filter.coefficients(),
{
    let w0 = angle(filter.freq, sample_rate);
    a_flat_filter_cancels(amplitude(filter.gain_db), bandwidth(w0), middle(w0));
    lemma_flat_run(same, is_input, filter, inputs);
    lemma_flat_run(same, is_input, filter, inputs.take(at));
    lemma_flat_step(
        same,
        is_input,
        after_inputs(filter, inputs.take(at)),
        inputs[at].0,
        inputs[at].1,
    );
}

proof fn lemma_flat_step<N: Operations>(
    same: spec_fn(N, N) -> bool,
    is_input: spec_fn(N) -> bool,
    filter: Biquad<N>,
    input: N,
    is_left: bool,
)
    requires
        filter.b0 == one::<N>(),
        filter.b1 == filter.a1,
        filter.b2 == filter.a2,
        is_empty(same, filter),
        cancels(same, is_input, filter.coefficients()),
        is_input(input),
    ensures
        same(filter.answer(input, is_left), input),
        is_empty(same, filter.stepped(input, is_left)),
{
}

proof fn lemma_flat_run<N: Operations>(
    same: spec_fn(N, N) -> bool,
    is_input: spec_fn(N) -> bool,
    filter: Biquad<N>,
    inputs: Seq<(N, bool)>,
)
    requires
        filter.b0 == one::<N>(),
        filter.b1 == filter.a1,
        filter.b2 == filter.a2,
        is_empty(same, filter),
        cancels(same, is_input, filter.coefficients()),
        forall|i: int| 0 <= i < inputs.len() ==> is_input((#[trigger] inputs[i]).0),
    ensures
        is_empty(same, after_inputs(filter, inputs)),
        after_inputs(filter, inputs).coefficients() == filter.coefficients(),
    decreases inputs.len(),
{
    if inputs.len() > 0 {
        let before = inputs.drop_last();
        lemma_flat_run(same, is_input, filter, before);
        lemma_flat_step(
            same,
            is_input,
            after_inputs(filter, before),
            inputs[inputs.len() - 1].0,
            inputs.last().1,
        );
    }
}

/// What arithmetic has to get right for opposite inputs to get opposite outputs: that it treats
/// both signs alike. It is stated so that single-precision numbers can meet it, where two are
/// opposite when one equals the other with its sign changed, or when neither is a number; that they
/// do is not proved here.
pub open spec fn treats_signs_alike<N: Operations>(opposite: spec_fn(N, N) -> bool) -> bool {
    &&& forall|k: N, x: N, y: N|
        opposite(x, y) ==> opposite(#[trigger] k.times(x), #[trigger] k.times(y))
    &&& forall|x: N, y: N, u: N, v: N|
        opposite(x, y) && opposite(u, v) ==> opposite(#[trigger] x.plus(u), #[trigger] y.plus(v))
    &&& forall|x: N, y: N, u: N, v: N|
        opposite(x, y) && opposite(u, v) ==> opposite(#[trigger] x.minus(u), #[trigger] y.minus(v))
}

/// Exact numbers treat both signs alike.
pub proof fn exact_numbers_treat_signs_alike<N: Exact>()
    ensures
        treats_signs_alike(|x: N, y: N| y == negated(x)),
{
    let m = negated(one::<N>());
    assert forall|k: N, x: N| #[trigger] k.times(negated(x)) == negated(k.times(x)) by {
        lemma_negate(x);
        lemma_swap_factors(m, k, x);
        lemma_negate(k.times(x));
    }
    assert forall|x: N, u: N| #[trigger] negated(x).plus(negated(u)) == negated(x.plus(u)) by {
        lemma_negate(x);
        lemma_negate(u);
        N::times_distributes(m, x, u);
        lemma_negate(x.plus(u));
    }
    assert forall|x: N, u: N| #[trigger] negated(x).minus(negated(u)) == negated(x.minus(u)) by {
        lemma_negate(x);
        lemma_negate(u);
        lemma_times_minus(m, x, u);
        lemma_negate(x.minus(u));
    }
}

/// Two filters with the same coefficients remember opposite things, on both channels.
pub open spec fn are_opposite<N: Operations>(
    opposite: spec_fn(N, N) -> bool,
    p: Biquad<N>,
    q: Biquad<N>,
) -> bool {
    &&& p.coefficients() == q.coefficients()
    &&& opposite(p.z1_l, q.z1_l)
    &&& opposite(p.z2_l, q.z2_l)
    &&& opposite(p.z1_r, q.z1_r)
    &&& opposite(p.z2_r, q.z2_r)
}

/// Opposite inputs get opposite outputs: from two filters that remember opposite things, on both
/// channels and however many inputs there are. What they remember stays opposite.
pub proof fn opposite_inputs_get_opposite_outputs<N: Operations>(
    opposite: spec_fn(N, N) -> bool,
    p: Biquad<N>,
    q: Biquad<N>,
    inputs: Seq<(N, bool)>,
    opposite_inputs: Seq<(N, bool)>,
    at: int,
)
    requires
        treats_signs_alike(opposite),
        are_opposite(opposite, p, q),
        inputs.len() == opposite_inputs.len(),
        forall|i: int|
            0 <= i < inputs.len() ==> {
                &&& opposite((#[trigger] inputs[i]).0, opposite_inputs[i].0)
                &&& inputs[i].1 == opposite_inputs[i].1
            },
        0 <= at < inputs.len(),
    ensures
        opposite(
            after_inputs(p, inputs.take(at)).answer(inputs[at].0, inputs[at].1),
            after_inputs(q, opposite_inputs.take(at)).answer(
                opposite_inputs[at].0,
                opposite_inputs[at].1,
            ),
        ),
        are_opposite(opposite, after_inputs(p, inputs), after_inputs(q, opposite_inputs)),
{
    lemma_opposite_run(opposite, p, q, inputs, opposite_inputs);
    lemma_opposite_run(opposite, p, q, inputs.take(at), opposite_inputs.take(at));
    lemma_opposite_step(
        opposite,
        after_inputs(p, inputs.take(at)),
        after_inputs(q, opposite_inputs.take(at)),
        inputs[at].0,
        opposite_inputs[at].0,
        inputs[at].1,
    );
}

proof fn lemma_opposite_step<N: Operations>(
    opposite: spec_fn(N, N) -> bool,
    p: Biquad<N>,
    q: Biquad<N>,
    x: N,
    y: N,
    is_left: bool,
)
    requires
        treats_signs_alike(opposite),
        are_opposite(opposite, p, q),
        opposite(x, y),
    ensures
        opposite(p.answer(x, is_left), q.answer(y, is_left)),
        are_opposite(opposite, p.stepped(x, is_left), q.stepped(y, is_left)),
{
    let (u, v) = (p.answer(x, is_left), q.answer(y, is_left));
    assert(opposite(u, v)) by {
        assert(opposite(p.b0.times(x), q.b0.times(y)));
    }
    assert(opposite(p.b1.times(x), q.b1.times(y)));
    assert(opposite(p.b2.times(x), q.b2.times(y)));
    assert(opposite(p.a1.times(u), q.a1.times(v)));
    assert(opposite(p.a2.times(u), q.a2.times(v)));
}

proof fn lemma_opposite_run<N: Operations>(
    opposite: spec_fn(N, N) -> bool,
    p: Biquad<N>,
    q: Biquad<N>,
    inputs: Seq<(N, bool)>,
    opposite_inputs: Seq<(N, bool)>,
)
    requires
        treats_signs_alike(opposite),
        are_opposite(opposite, p, q),
        inputs.len() == opposite_inputs.len(),
        forall|i: int|
            0 <= i < inputs.len() ==> {
                &&& opposite((#[trigger] inputs[i]).0, opposite_inputs[i].0)
                &&& inputs[i].1 == opposite_inputs[i].1
            },
    ensures
        are_opposite(opposite, after_inputs(p, inputs), after_inputs(q, opposite_inputs)),
    decreases inputs.len(),
{
    if inputs.len() > 0 {
        let last = inputs.len() - 1;
        lemma_opposite_run(opposite, p, q, inputs.drop_last(), opposite_inputs.drop_last());
        lemma_opposite_step(
            opposite,
            after_inputs(p, inputs.drop_last()),
            after_inputs(q, opposite_inputs.drop_last()),
            inputs[last].0,
            opposite_inputs[last].0,
            inputs[last].1,
        );
    }
}

/// Twice the frequency at twice the sample rate is tuned alike, where doubling can be taken out of
/// a product and cancelled from a quotient.
pub proof fn doubling_keeps_the_tuning<N: Operations>(freq: N, gain_db: N, sample_rate: N)
    requires
        ({
            let two = N::rational(2, 1);
            let turn = two.times(N::circle_constant());
            &&& turn.times(two.times(freq)) == two.times(turn.times(freq))
            &&& two.times(turn.times(freq)).over(two.times(sample_rate)) == turn.times(freq).over(
                sample_rate,
            )
        }),
    ensures
        tuning(N::rational(2, 1).times(freq), gain_db, N::rational(2, 1).times(sample_rate))
            == tuning(freq, gain_db, sample_rate),
{
}

/// A tuned filter has the coefficients of its own frequency and gain at the sample rate, whatever it
/// was and whatever it has filtered.
pub proof fn a_tuned_filter_has_its_tuning<N: Operations>(filter: Biquad<N>, gain_db: N, rate: N)
    ensures
        filter.tuned(rate).coefficients() == tuning(filter.freq, filter.gain_db, rate),
        filter.with_gain(gain_db).tuned(rate).coefficients() == tuning(filter.freq, gain_db, rate),
        filter.with_gain(gain_db).gain_db == gain_db,
        filter.with_gain(gain_db).freq == filter.freq,
        filter.with_gain(gain_db).left() == filter.left(),
        filter.with_gain(gain_db).right() == filter.right(),
        filter.with_gain(gain_db).coefficients() == filter.coefficients(),
{
}

} // verus!
