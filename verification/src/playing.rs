//! The signal path on real numbers: what a listener hears of it.
//!
//! The laws here say what the stages of [`crate::engine`] do to a frame, what the controls do to the
//! stages, and what becomes of a frame on the whole way, in exact arithmetic and for every frame and
//! every setting.
use vstd::prelude::*;

use crate::biquad::{a_gain_of_zero_changes_nothing, at_rest, tuning};
use crate::controls::Target;
use crate::engine::{is_neutral, is_possible, parameter, Settings};
use crate::filters::{signal_path, Filter, Stage, BANDS, FILTERS};
use crate::ideal::lemma_terms;
use crate::number::Operations;
use crate::reals::{
    analysis_exists, lemma_distribute, lemma_fractions, lemma_regroup, lemma_unit,
};

verus! {

proof fn lemma_decimals()
    ensures
        real::rational(1, 2) == 1real / 2real,
        real::rational(1, 5) == 1real / 5real,
        real::rational(6, 10) == 6real / 10real,
        real::rational(92, 100) == 92real / 100real,
        real::rational(8, 100) == 8real / 100real,
{
}

/// The gain stage multiplies both channels with half the volume, however high it is: a multiple of
/// the volume gives that multiple of both channels.
pub proof fn the_gain_is_linear_in_the_volume(
    settings: Settings<real>,
    factor: real,
    left: real,
    right: real,
)
    ensures
        ({
            let volume = settings.volume_boost_linear;
            let louder = Settings { volume_boost_linear: factor * volume, ..settings };
            let (l, r) = settings.frame_after(Stage::Gain, left, right);
            let (ll, rr) = louder.frame_after(Stage::Gain, left, right);
            &&& 2real * l == left * volume
            &&& 2real * r == right * volume
            &&& ll == factor * l
            &&& rr == factor * r
        }),
{
    lemma_decimals();
    let volume = settings.volume_boost_linear;
    lemma_halves(left, volume);
    lemma_halves(right, volume);
    lemma_halves(left, factor * volume);
    lemma_halves(right, factor * volume);
    lemma_regroup(left, factor, volume);
    lemma_regroup(factor, left, volume);
    lemma_regroup(right, factor, volume);
    lemma_regroup(factor, right, volume);
    let (l, r) = settings.frame_after(Stage::Gain, left, right);
    lemma_doubled(factor, l);
    lemma_doubled(factor, r);
}

proof fn lemma_halves(x: real, y: real)
    ensures
        2real * (x * (y * (1real / 2real))) == x * y,
{
    let z = y * (1real / 2real);
    lemma_regroup(x, z, z);
    lemma_distribute(z, z, x);
    assert(z + z == y);
    lemma_regroup(y, x, x);
}

proof fn lemma_doubled(k: real, x: real)
    ensures
        k * (2real * x) == 2real * (k * x),
{
    lemma_distribute(x, x, k);
    lemma_regroup(k, x, x);
    lemma_regroup(k, 2real * x, x);
    assert(x + x == 2real * x);
}

/// Widening keeps the sum of both channels and stretches their difference: by the width, and by a
/// fifth of the ambience on top. Nothing else is done to a frame.
pub proof fn widening_stretches_the_difference(settings: Settings<real>, left: real, right: real)
    ensures
        ({
            let (l, r) = settings.frame_after(Stage::Widen, left, right);
            let (width, ambience) = (settings.surround_width, settings.ambience_level);
            &&& l + r == left + right
            &&& 5real * (l - r) == ((left - right) * (1real + width)) * (5real + ambience)
        }),
{
    lemma_fractions();
    lemma_decimals();
    let (width, ambience) = (settings.surround_width, settings.ambience_level);
    let x = left - right;
    let u = 1real / 2real + width * (1real / 2real);
    let v = 1real + ambience * (1real / 5real);
    let y = x * u;
    assert(2real * u == 1real + width);
    assert(5real * v == 5real + ambience);
    lemma_doubled(x, u);
    // (x * 2u) * 5v == (2y) * 5v == 10 * (y * v)
    lemma_regroup(2real * y, 5real, v);
    lemma_regroup(2real, y, 5real * v);
    lemma_regroup(y, 5real, v);
    lemma_regroup(5real, y, v);
    let (l, r) = settings.frame_after(Stage::Widen, left, right);
    assert(l - r == 2real * (y * v));
    assert(x * (1real + width) == 2real * y);
    assert((x * (1real + width)) * (5real + ambience) == (2real * y) * (5real * v));
}

/// The dynamics stage leaves a frame alone as long as no sum of its samples, whatever their signs,
/// exceeds six tenths, and otherwise multiplies both channels with the ratio.
pub proof fn only_loud_frames_are_boosted(settings: Settings<real>, left: real, right: real)
    ensures
        ({
            let (l, r) = settings.frame_after(Stage::Dynamics, left, right);
            let ratio = settings.dynamic_boost_ratio;
            let is_loud = 5real * (left + right) > 3real || 5real * (left - right) > 3real || 5real
                * (right - left) > 3real || 5real * (-left - right) > 3real;
            &&& is_loud ==> l == left * ratio && r == right * ratio
            &&& !is_loud ==> l == left && r == right
        }),
{
    lemma_decimals();
}

/// The limit keeps every sample between minus one and one, without ever reaching them. It keeps the
/// order of samples, so that nothing is cut off, treats both signs alike and leaves silence alone.
/// Each channel is limited by itself.
pub proof fn limiting_keeps_order_and_sign(
    settings: Settings<real>,
    left: real,
    right: real,
    other: real,
)
    ensures
        ({
            let (l, r) = settings.frame_after(Stage::Saturate, left, right);
            let (o, s) = settings.frame_after(Stage::Saturate, other, -right);
            &&& -1real < l < 1real
            &&& -1real < r < 1real
            &&& left < other <==> l < o
            &&& left == right <==> l == r
            &&& s == -r
            &&& settings.frame_after(Stage::Saturate, 0real, right) == (0real, r)
        }),
{
    analysis_exists();
    assert(-0real == 0real);
    assert(0real.limited() == -0real.limited()) by {
        assert((-0real).limited() == -(0real.limited()));
    }
}

/// A meter moves eight hundredths of the way from what it shows to the level of the frame, which is
/// the sum of both samples without their signs; no other meter moves.
pub proof fn meters_follow_the_level(
    settings: Settings<real>,
    band: usize,
    other: int,
    left: real,
    right: real,
)
    requires
        settings.wf(),
        band < BANDS,
        0 <= other < BANDS,
    ensures
        ({
            let after = settings.after_stage(Stage::Meter(band), left, right);
            let level = if left >= 0real {
                left
            } else {
                -left
            } + if right >= 0real {
                right
            } else {
                -right
            };
            let shown = settings.energy[band as int];
            &&& 100real * (after.energy[band as int] - shown) == 8real * (level - shown)
            &&& shown == level ==> after.energy[band as int] == shown
            &&& after.energy.len() == settings.energy.len()
            &&& other != band ==> after.energy[other] == settings.energy[other]
        }),
{
    lemma_decimals();
}

/// A filter stage answers with the filter: each channel obeys the difference equation of the
/// filter's coefficients over any three frames in a row, and the channels do not mix.
pub proof fn filter_stages_obey_the_difference_equation(
    settings: Settings<real>,
    filter: Filter,
    x0: (real, real),
    x1: (real, real),
    x2: (real, real),
)
    requires
        settings.wf(),
        filter.exists_in_bank(),
    ensures
        ({
            let stage = Stage::Pass(filter);
            let c = settings.filters[filter.place()];
            let y0 = settings.frame_after(stage, x0.0, x0.1);
            let s1 = settings.after_stage(stage, x0.0, x0.1);
            let y1 = s1.frame_after(stage, x1.0, x1.1);
            let s2 = s1.after_stage(stage, x1.0, x1.1);
            let y2 = s2.frame_after(stage, x2.0, x2.1);
            &&& y0.0 == c.b0 * x0.0 + c.z1_l
            &&& y0.1 == c.b0 * x0.1 + c.z1_r
            &&& y1.0 == c.b0 * x1.0 + c.b1 * x0.0 - c.a1 * y0.0 + c.z2_l
            &&& y1.1 == c.b0 * x1.1 + c.b1 * x0.1 - c.a1 * y0.1 + c.z2_r
            &&& y2.0 == c.b0 * x2.0 + c.b1 * x1.0 + c.b2 * x0.0 - c.a1 * y1.0 - c.a2 * y0.0
            &&& y2.1 == c.b0 * x2.1 + c.b1 * x1.1 + c.b2 * x0.1 - c.a1 * y1.1 - c.a2 * y0.1
        }),
{
}

/// What the controls stand for: a step of the volume control is a quarter of the neutral volume, one
/// of the dynamics control a twentieth of the neutral ratio, and one of the width and ambience
/// controls a tenth. An equalizer control is a gain in decibels; the bass control counts nine tenths
/// of a decibel, the clarity control seven tenths up and half as much down. No value is cut off.
pub proof fn controls_are_proportional(value: real, band: usize)
    ensures
        4real * (parameter(Target::Volume.response(), value) - 1real) == value,
        20real * (parameter(Target::Dynamics.response(), value) - 1real) == value,
        10real * parameter(Target::Surround.response(), value) == value,
        10real * parameter(Target::Ambience.response(), value) == value,
        parameter(Target::Gain(Filter::Band(band)).response(), value) == value,
        10real * parameter(Target::Gain(Filter::BassSubBoost).response(), value) == 9real * value,
        10real * parameter(Target::Gain(Filter::ClarityBoost).response(), value) == 7real * value,
        parameter(Target::Gain(Filter::ClarityBoost).response(), value) == -2real * parameter(
            Target::Gain(Filter::ClarityMudCut).response(),
            value,
        ),
{
    lemma_fractions();
    assert(real::rational(250, 1000) == 250real / 1000real);
    lemma_thousandths(value, real::rational(250, 1000), 250real);
    assert(real::rational(50, 1000) == 50real / 1000real);
    lemma_thousandths(value, real::rational(50, 1000), 50real);
    assert(real::rational(100, 1000) == 100real / 1000real);
    lemma_thousandths(value, real::rational(100, 1000), 100real);
    assert(real::rational(900, 1000) == 900real / 1000real);
    lemma_thousandths(value, real::rational(900, 1000), 900real);
    assert(real::rational(700, 1000) == 700real / 1000real);
    lemma_thousandths(value, real::rational(700, 1000), 700real);
    assert(real::rational(-350, 1000) == -350real / 1000real);
    lemma_thousandths(value, real::rational(-350, 1000), -350real);
}

proof fn lemma_thousandths(value: real, slope: real, thousandths: real)
    requires
        1000real * slope == thousandths,
    ensures
        1000real * (value * slope) == value * thousandths,
{
    lemma_regroup(1000real, value, slope);
    lemma_regroup(value, 1000real, slope);
}

/// The volume control at work: moved to `value`, it multiplies what the gain stage lets through with
/// one and a quarter of the value, whatever the value is.
pub proof fn the_volume_control_is_heard(
    settings: Settings<real>,
    value: real,
    sample_rate: real,
    left: real,
    right: real,
)
    ensures
        ({
            let moved = settings.with_values(seq![(Target::Volume, value)], sample_rate);
            let (l, r) = moved.frame_after(Stage::Gain, left, right);
            &&& 8real * l == left * (4real + value)
            &&& 8real * r == right * (4real + value)
        }),
{
    controls_are_proportional(value, 0);
    assert(seq![(Target::Volume, value)].drop_last() =~= Seq::<(Target, real)>::empty());
    reveal_with_fuel(Settings::with_values, 2);
    let moved = settings.with_values(seq![(Target::Volume, value)], sample_rate);
    the_gain_is_linear_in_the_volume(moved, 1real, left, right);
    let volume = moved.volume_boost_linear;
    assert(4real * volume == 4real + value);
    lemma_regroup(left, 4real, volume);
    lemma_regroup(4real, left, volume);
    lemma_regroup(right, 4real, volume);
    lemma_regroup(4real, right, volume);
}

/// Whatever the settings are, and whether they can be read or not, what is played lies between minus
/// one and one.
pub proof fn what_is_played_is_within_bounds(
    settings: Settings<real>,
    settings_readable: bool,
    left: real,
    right: real,
)
    ensures
        ({
            let (l, r) = settings.run(signal_path(settings_readable), left, right).1;
            -1real < l < 1real && -1real < r < 1real
        }),
{
    analysis_exists();
    let path = signal_path(settings_readable);
    assert(path.last() == Stage::Saturate);
}

/// The settings of a stream in which no control was moved, whatever was played in it: every filter
/// at rest with a gain of zero, tuned to the stream, and neutral parameters.
pub open spec fn is_untouched(settings: Settings<real>, sample_rate: real) -> bool {
    &&& settings.wf()
    &&& forall|i: int|
        0 <= i < FILTERS ==> {
            let filter = #[trigger] settings.filters[i];
            &&& 0real < filter.freq
            &&& 2real * filter.freq < sample_rate
            &&& filter.gain_db == 0real
            &&& filter.left() == at_rest::<real>()
            &&& filter.right() == at_rest::<real>()
            &&& filter.coefficients() == tuning(filter.freq, 0real, sample_rate)
        }
    &&& settings.surround_width == 0real
    &&& settings.ambience_level == 0real
    &&& settings.dynamic_boost_ratio == 1real
    &&& settings.volume_boost_linear == 1real
}

/// The settings of a new stream are untouched, if its rate is high enough for the highest filter.
pub proof fn a_new_stream_is_untouched(settings: Settings<real>, sample_rate: real)
    requires
        is_neutral(settings, sample_rate),
        sample_rate > 32000real,
    ensures
        is_untouched(settings, sample_rate),
{
    lemma_fractions();
    assert forall|i: int| 0 <= i < FILTERS implies {
        let filter = #[trigger] settings.filters[i];
        &&& 0real < filter.freq
        &&& 2real * filter.freq < sample_rate
        &&& filter.coefficients() == tuning(filter.freq, 0real, sample_rate)
    } by {
        let filter = settings.filters[i];
        let hertz = Filter::at_place(i).center();
        assert(0 < hertz <= 16000);
        assert(filter.freq == hertz as int as real);
        assert(filter.tuned(sample_rate) == filter);
    }
}

proof fn lemma_untouched_pass(
    settings: Settings<real>,
    sample_rate: real,
    filter: Filter,
    left: real,
    right: real,
)
    requires
        is_untouched(settings, sample_rate),
        filter.exists_in_bank(),
    ensures
        settings.frame_after(Stage::Pass(filter), left, right) == (left, right),
        settings.after_stage(Stage::Pass(filter), left, right) == settings,
{
    lemma_fractions();
    let f = settings.filters[filter.place()];
    assert(0 <= filter.place() < FILTERS);
    lemma_terms(f.freq, sample_rate);
    a_gain_of_zero_changes_nothing(f.freq, sample_rate, left);
    a_gain_of_zero_changes_nothing(f.freq, sample_rate, right);
    assert(f.stepped(left, true) == f);
    assert(f.stepped(right, false) == f);
    assert(settings.filters.update(filter.place(), f) =~= settings.filters);
}

/// The settings and frame after the stages up to one that comes before the widening.
proof fn lemma_untouched_filters(
    settings: Settings<real>,
    sample_rate: real,
    left: real,
    right: real,
    count: nat,
)
    requires
        is_untouched(settings, sample_rate),
        1 <= count <= 24,
    ensures
        ({
            let (after, frame) = settings.run(signal_path(true).take(count as int), left, right);
            &&& is_untouched(after, sample_rate)
            &&& after.filters == settings.filters
            &&& 2real * frame.0 == left
            &&& 2real * frame.1 == right
        }),
    decreases count,
{
    let path = signal_path(true);
    let stage = path[count - 1];
    assert(path.take(count as int).drop_last() =~= path.take(count - 1));
    assert(path.take(count as int).last() == stage);
    if count == 1 {
        assert(path.take(0) =~= Seq::<Stage>::empty());
        assert(stage == Stage::Gain);
        reveal_with_fuel(Settings::run, 2);
        the_gain_is_linear_in_the_volume(settings, 1real, left, right);
        lemma_unit(left, settings.volume_boost_linear);
        lemma_unit(right, settings.volume_boost_linear);
    } else {
        lemma_untouched_filters(settings, sample_rate, left, right, (count - 1) as nat);
        let (before, frame) = settings.run(path.take(count - 1), left, right);
        let (after, _) = settings.run(path.take(count as int), left, right);
        assert(is_possible(stage));
        if let Stage::Pass(filter) = stage {
            lemma_untouched_pass(before, sample_rate, filter, frame.0, frame.1);
        } else {
            assert(stage is Meter);
            assert(after.filters == before.filters);
            assert(is_untouched(after, sample_rate));
        }
    }
}

/// An engine whose controls were not moved only halves and limits: both channels, every frame.
pub proof fn an_untouched_engine_only_halves_and_limits(
    settings: Settings<real>,
    sample_rate: real,
    left: real,
    right: real,
)
    requires
        is_untouched(settings, sample_rate),
    ensures
        ({
            let (after, frame) = settings.run(signal_path(true), left, right);
            &&& is_untouched(after, sample_rate)
            &&& frame.0 == (left / 2real).limited()
            &&& frame.1 == (right / 2real).limited()
        }),
{
    let path = signal_path(true);
    lemma_untouched_filters(settings, sample_rate, left, right, 24);
    let (s24, f24) = settings.run(path.take(24), left, right);
    assert(path.take(25).drop_last() =~= path.take(24));
    assert(path.take(26).drop_last() =~= path.take(25));
    assert(path.drop_last() =~= path.take(26));
    assert(path.take(25).last() == Stage::Widen);
    assert(path.take(26).last() == Stage::Dynamics);
    assert(path.last() == Stage::Saturate);
    widening_stretches_the_difference(s24, f24.0, f24.1);
    lemma_unit(f24.0 - f24.1, 1real + s24.surround_width);
    assert(((f24.0 - f24.1) * (1real + s24.surround_width)) * (5real + s24.ambience_level)
        == 5real * (f24.0 - f24.1)) by {
        let x = f24.0 - f24.1;
        lemma_regroup(x, 5real + s24.ambience_level, x);
        lemma_five(x, 5real + s24.ambience_level);
    }
    let (s25, f25) = settings.run(path.take(25), left, right);
    assert(f25 == f24);
    only_loud_frames_are_boosted(s25, f25.0, f25.1);
    lemma_unit(f25.0, s25.dynamic_boost_ratio);
    lemma_unit(f25.1, s25.dynamic_boost_ratio);
    let (s26, f26) = settings.run(path.take(26), left, right);
    assert(f26 == f24);
    assert(f24.0 == left / 2real);
    assert(f24.1 == right / 2real);
}

proof fn lemma_five(x: real, five: real)
    requires
        five == 5real,
    ensures
        x * five == 5real * x,
{
    assert(x * five == 5real * x) by (nonlinear_arith)
        requires
            five == 5real,
    ;
}

/// The same for every frame of a block, however long it is.
pub proof fn an_untouched_engine_plays_blocks_alike(
    settings: Settings<real>,
    sample_rate: real,
    frames: Seq<(real, real)>,
    at: int,
)
    requires
        is_untouched(settings, sample_rate),
        0 <= at < frames.len(),
    ensures
        ({
            let (after, done) = settings.run_block(signal_path(true), frames);
            &&& is_untouched(after, sample_rate)
            &&& done.len() == frames.len()
            &&& done[at].0 == (frames[at].0 / 2real).limited()
            &&& done[at].1 == (frames[at].1 / 2real).limited()
        }),
    decreases frames.len(),
{
    let path = signal_path(true);
    let before = frames.drop_last();
    if before.len() > 0 {
        an_untouched_engine_plays_blocks_alike(
            settings,
            sample_rate,
            before,
            if at < before.len() {
                at
            } else {
                0
            },
        );
    }
    let (between, _) = settings.run_block(path, before);
    an_untouched_engine_only_halves_and_limits(
        between,
        sample_rate,
        frames.last().0,
        frames.last().1,
    );
}

} // verus!
