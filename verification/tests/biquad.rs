use dsp_engine::biquad::Biquad;
use dsp_engine::number::{Number, Operations, Whole};

/// Single-precision numbers.
#[derive(Clone, Copy, Debug, PartialEq)]
struct Single(f32);

impl Operations for Single {}

impl Number for Single {
    fn ratio(numerator: i32, denominator: u32) -> Self {
        Single(numerator as f32 / denominator as f32)
    }
    fn natural(n: u64) -> Self {
        Single(n as f32)
    }
    fn pi() -> Self {
        Single(std::f32::consts::PI)
    }
    fn sum(self, other: Self) -> Self {
        Single(self.0 + other.0)
    }
    fn difference(self, other: Self) -> Self {
        Single(self.0 - other.0)
    }
    fn product(self, other: Self) -> Self {
        Single(self.0 * other.0)
    }
    fn quotient(self, other: Self) -> Self {
        Single(self.0 / other.0)
    }
    fn power(self, exponent: Self) -> Self {
        Single(self.0.powf(exponent.0))
    }
    fn sine(self) -> Self {
        Single(self.0.sin())
    }
    fn cosine(self) -> Self {
        Single(self.0.cos())
    }
    fn magnitude(self) -> Self {
        Single(self.0.abs())
    }
    fn limit(self) -> Self {
        Single(self.0.tanh())
    }
    fn exceeds(self, other: Self) -> bool {
        self.0 > other.0
    }
    fn count(self) -> usize {
        self.0 as usize
    }
}

fn coefficients(f: &Biquad<Single>) -> [f32; 5] {
    [f.b0.0, f.b1.0, f.b2.0, f.a1.0, f.a2.0]
}

fn memories(f: &Biquad<Single>) -> [f32; 4] {
    [f.z1_l.0, f.z2_l.0, f.z1_r.0, f.z2_r.0]
}

fn expected_coefficients(freq: f32, gain_db: f32, sample_rate: f32) -> [f32; 5] {
    let q = 1.4;
    let a = f32::powf(10.0, gain_db / 40.0);
    let w0 = 2.0 * std::f32::consts::PI * freq / sample_rate;
    let alpha = w0.sin() / (2.0 * q);
    let a0 = 1.0 + alpha / a;
    [
        (1.0 + alpha * a) / a0,
        (-2.0 * w0.cos()) / a0,
        (1.0 - alpha * a) / a0,
        (-2.0 * w0.cos()) / a0,
        (1.0 - alpha / a) / a0,
    ]
}

#[test]
fn a_new_filter_is_flat_and_at_rest() {
    let filter = Biquad::new(Single(1360.0));
    assert_eq!(filter.freq, Single(1360.0));
    assert_eq!(filter.gain_db, Single(0.0));
    assert_eq!(memories(&filter), [0.0; 4]);
    assert_eq!(coefficients(&filter), expected_coefficients(1360.0, 0.0, 48000.0));
    assert_eq!(filter.b0, Single(1.0));
    assert_eq!(filter.b1, filter.a1);
    assert_eq!(filter.b2, filter.a2);
}

#[test]
fn tuning_follows_the_peaking_formula() {
    for freq in [22.0f32, 240.0, 3800.0, 16000.0] {
        for gain in [-12.0f32, -1.5, 0.0, 3.0, 12.0] {
            for rate in [44100.0f32, 48000.0, 96000.0] {
                let mut filter = Biquad::new(Single(freq));
                filter.gain_db = Single(gain);
                filter.calculate_coeffs(Single(rate));
                assert_eq!(coefficients(&filter), expected_coefficients(freq, gain, rate));
                assert_eq!(filter.gain_db, Single(gain));
                assert_eq!(filter.freq, Single(freq));
            }
        }
    }
}

#[test]
fn only_the_angle_between_two_samples_counts() {
    let mut one = Biquad::new(Single(500.0));
    one.gain_db = Single(4.5);
    one.calculate_coeffs(Single(24000.0));
    let mut other = Biquad::new(Single(1000.0));
    other.gain_db = Single(4.5);
    other.calculate_coeffs(Single(48000.0));
    assert_eq!(coefficients(&one), coefficients(&other));
}

#[test]
fn tuning_keeps_what_the_filter_remembers() {
    let mut filter = Biquad::new(Single(735.0));
    filter.gain_db = Single(6.0);
    filter.calculate_coeffs(Single(48000.0));
    filter.process(Single(0.5), true);
    filter.process(Single(-0.25), false);
    let before = memories(&filter);
    filter.calculate_coeffs(Single(44100.0));
    assert_eq!(memories(&filter), before);
    let tuned = coefficients(&filter);
    filter.calculate_coeffs(Single(96000.0));
    filter.calculate_coeffs(Single(44100.0));
    assert_eq!(coefficients(&filter), tuned);
}

#[test]
fn processing_follows_the_recurrence() {
    let mut filter = Biquad::new(Single(2520.0));
    filter.gain_db = Single(9.0);
    filter.calculate_coeffs(Single(48000.0));
    let [b0, b1, b2, a1, a2] = coefficients(&filter);
    let (mut z1, mut z2) = (0.0f32, 0.0f32);
    for x in [1.0f32, 0.5, -0.75, 0.1, 0.0, 0.0, -1.0] {
        let y = b0 * x + z1;
        z1 = b1 * x - a1 * y + z2;
        z2 = b2 * x - a2 * y;
        assert_eq!(filter.process(Single(x), true), Single(y));
        assert_eq!(memories(&filter), [z1, z2, 0.0, 0.0]);
    }
    assert_eq!(coefficients(&filter), [b0, b1, b2, a1, a2]);
}

#[test]
fn the_channels_are_independent_and_alike() {
    let mut both = Biquad::new(Single(400.0));
    both.gain_db = Single(-4.0);
    both.calculate_coeffs(Single(48000.0));
    let mut left_only = both;
    let mut right_only = both;
    for (l, r) in [(0.5f32, -0.25f32), (0.1, 0.2), (-0.7, 0.9)] {
        let a = both.process(Single(l), true);
        let b = both.process(Single(r), false);
        assert_eq!(left_only.process(Single(l), true), a);
        assert_eq!(right_only.process(Single(r), true), b);
    }
    assert_eq!(both.z1_r, right_only.z1_l);
    assert_eq!(both.z2_r, right_only.z2_l);
    assert_eq!(left_only.z1_r, Single(0.0));
}

#[test]
fn left_and_right_steps_commute() {
    let mut one = Biquad::new(Single(400.0));
    one.gain_db = Single(5.0);
    one.calculate_coeffs(Single(48000.0));
    let mut other = one;
    one.process(Single(0.3), true);
    one.process(Single(0.6), false);
    other.process(Single(0.6), false);
    other.process(Single(0.3), true);
    assert_eq!(memories(&one), memories(&other));
}

#[test]
fn a_flat_filter_hands_its_input_on() {
    let mut filter = Biquad::new(Single(9100.0));
    for x in [0.5f32, -0.25, 0.125, 1.0] {
        assert_eq!(filter.process(Single(x), true), Single(x));
        assert_eq!(filter.process(Single(-x), false), Single(-x));
    }
    assert_eq!(memories(&filter), [0.0; 4]);
}

#[test]
fn negated_input_gives_negated_output_in_floating_point_too() {
    let mut plain = Biquad::new(Single(1360.0));
    plain.gain_db = Single(7.5);
    plain.calculate_coeffs(Single(48000.0));
    let mut negated = plain;
    for x in [0.5f32, 0.3, -0.8, 0.0, 0.2] {
        let y = plain.process(Single(x), true);
        assert_eq!(negated.process(Single(-x), true), Single(-y.0));
    }
}

#[test]
fn any_terms_can_be_set() {
    let mut filter = Biquad::new(Whole(0));
    filter.process(Whole(4), false);
    let before = filter;
    filter.set_peaking(Whole(2), Whole(6), Whole(12));
    assert_eq!(filter.b0, Whole(3));
    assert_eq!(filter.b1, Whole(3));
    assert_eq!(filter.b2, Whole(0u64.wrapping_sub(11) / 4));
    assert_eq!(filter.a1, Whole(3));
    assert_eq!(filter.a2, Whole(0u64.wrapping_sub(2) / 4));
    assert_eq!(filter.z1_r, before.z1_r);
    assert_eq!(filter.z2_r, before.z2_r);
}

#[test]
fn on_whole_numbers_signals_superpose() {
    let mut filter = Biquad::new(Whole(0));
    filter.b0 = Whole(3);
    filter.b1 = Whole(5);
    filter.b2 = Whole(7);
    filter.a1 = Whole(11);
    filter.a2 = Whole(13);
    let (mut f, mut g, mut h) = (filter, filter, filter);
    for (x, y) in [(1u64, 20u64), (300, 4), (50, 60), (7, 0)] {
        let u = f.process(Whole(x), true);
        let v = g.process(Whole(y), true);
        assert_eq!(h.process(Whole(x + y), true), u.sum(v));
    }
}

#[test]
fn on_whole_numbers_signals_scale_and_silence_stays() {
    let mut filter = Biquad::new(Whole(0));
    filter.b0 = Whole(2);
    filter.b1 = Whole(9);
    filter.a1 = Whole(4);
    filter.a2 = Whole(1);
    let (mut f, mut g, mut still) = (filter, filter, filter);
    for x in [3u64, 0, 8, 5] {
        let y = f.process(Whole(x), false);
        assert_eq!(g.process(Whole(10 * x), false), Whole(10).product(y));
        assert_eq!(still.process(Whole(0), false), Whole(0));
    }
    assert_eq!(still.z1_r, Whole(0));
}

#[test]
fn whole_numbers_are_exact_and_coarse() {
    assert_eq!(Whole::ratio(14, 10), Whole(1));
    assert_eq!(Whole::ratio(-2, 1), Whole(0u64.wrapping_sub(2)));
    assert_eq!(Whole(u64::MAX).sum(Whole(2)), Whole(1));
    assert_eq!(Whole(1).difference(Whole(2)), Whole(u64::MAX));
    assert_eq!(Whole(u64::MAX).product(Whole(u64::MAX)), Whole(1));
    assert_eq!(Whole(17).quotient(Whole(5)), Whole(3));
    assert_eq!(Whole(17).quotient(Whole(0)), Whole(0));
    assert_eq!(Whole(10).power(Whole(5)), Whole(100000));
    assert_eq!(Whole(10).power(Whole(0)), Whole(1));
    assert_eq!(Whole(3).power(Whole(13)), Whole(1594323));
    assert_eq!(Whole::natural(9), Whole(9));
    assert_eq!(Whole::pi(), Whole(3));
    assert_eq!(Whole(6).sine(), Whole(6));
    assert_eq!(Whole(6).cosine(), Whole(1));
    assert_eq!(Whole(6).magnitude(), Whole(6));
    assert_eq!(Whole(6).limit(), Whole(1));
    assert_eq!(Whole(0).limit(), Whole(0));
    assert!(Whole(6).exceeds(Whole(5)));
    assert!(!Whole(5).exceeds(Whole(5)));
    assert_eq!(Whole(12).count(), 12);
}

fn tuned(freq: f32, gain: f32, rate: f32) -> Biquad<Single> {
    let mut filter = Biquad::new(Single(freq));
    filter.gain_db = Single(gain);
    filter.calculate_coeffs(Single(rate));
    filter
}

fn close(x: f32, y: f32) -> bool {
    (x - y).abs() <= 1e-4 * (1.0 + x.abs())
}

#[test]
fn a_flat_filter_hands_long_signals_on_at_every_rate() {
    for rate in [44100.0f32, 48000.0, 192000.0] {
        let mut filter = tuned(735.0, 0.0, rate);
        for i in 0..500 {
            let x = (i as f32 * 0.37).sin();
            assert_eq!(filter.process(Single(x), i % 3 == 0), Single(x));
            assert_eq!(memories(&filter), [0.0; 4]);
        }
        assert_eq!(filter.process(Single(-0.0), true), Single(0.0));
    }
}

#[test]
fn opposite_inputs_leave_opposite_memories() {
    let (mut p, mut q) = (tuned(400.0, -8.0, 44100.0), tuned(400.0, -8.0, 44100.0));
    for i in 0..500 {
        let x = (i as f32 * 0.21).cos();
        let left = i % 2 == 0;
        assert_eq!(q.process(Single(-x), left).0, -p.process(Single(x), left).0);
        assert_eq!(memories(&q), memories(&p).map(|z| -z));
    }
}

#[test]
fn doubling_frequency_and_rate_changes_nothing() {
    for freq in [60.0f32, 735.0, 9100.0] {
        for gain in [-9.5f32, 0.0, 6.0] {
            assert_eq!(
                coefficients(&tuned(freq, gain, 44100.0)),
                coefficients(&tuned(2.0 * freq, gain, 88200.0))
            );
        }
    }
}

#[test]
fn opposite_gains_give_inverse_coefficients() {
    for gain in [1.0f32, 6.0, 12.0] {
        let p = coefficients(&tuned(1360.0, gain, 48000.0));
        let q = coefficients(&tuned(1360.0, -gain, 48000.0));
        let expected = [1.0 / p[0], p[3] / p[0], p[4] / p[0], p[1] / p[0], p[2] / p[0]];
        assert!(q.iter().zip(expected).all(|(x, y)| close(*x, y)));
    }
}

#[test]
fn a_cut_takes_a_boost_back() {
    let (mut boost, mut cut) = (tuned(1360.0, 9.0, 48000.0), tuned(1360.0, -9.0, 48000.0));
    for i in 0..500 {
        let x = (i as f32 * 0.11).sin();
        let y = boost.process(Single(x), true);
        assert!(close(cut.process(y, true).0, x));
    }
}

#[test]
fn coefficients_grow_with_the_gain() {
    let gains = [-12.0f32, -3.0, 0.0, 3.0, 12.0];
    for pair in gains.windows(2) {
        let lower = tuned(735.0, pair[0], 48000.0);
        let higher = tuned(735.0, pair[1], 48000.0);
        assert!(lower.b0.0 < higher.b0.0 && lower.a2.0 < higher.a2.0);
    }
    assert!(tuned(735.0, -3.0, 48000.0).b0.0 < 1.0);
    assert!(tuned(735.0, 3.0, 48000.0).b0.0 > 1.0);
}

#[test]
fn filters_are_stable_and_exact_at_centre_and_ends() {
    for gain in [-12.0f32, -3.0, 0.0, 3.0, 12.0] {
        let [b0, b1, b2, a1, a2] = coefficients(&tuned(3800.0, gain, 48000.0));
        assert!(a2.abs() < 1.0 && a1.abs() < 1.0 + a2);
        assert!(close(b0 - b2, f32::powf(10.0, gain / 20.0) * (1.0 - a2)));
        assert!(close(b0 + b1 + b2, 1.0 + a1 + a2));
        assert!(close(b0 - b1 + b2, 1.0 - a1 + a2));
    }
}

#[test]
fn constant_and_alternating_signals_keep_their_level() {
    for sign in [1.0f32, -1.0] {
        let mut filter = tuned(3800.0, 9.0, 48000.0);
        let mut x = 0.5f32;
        let mut y = 0.0f32;
        for _ in 0..2000 {
            x *= sign;
            y = filter.process(Single(x), false).0;
        }
        assert!(close(y, x));
    }
}
