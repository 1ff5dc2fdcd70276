use dsp_engine::biquad::Biquad;
use dsp_engine::controls::{Curve, Target};
use dsp_engine::engine::{bypass, bypass_block, control_parameter, DspState};
use dsp_engine::filters::{stages, Filter, Stage};
use dsp_engine::formats::SampleFormat;
use dsp_engine::number::{Number, Operations, Wide};
use dsp_engine::samples::{decode_sample, encode_sample};
use dsp_engine::telemetry::report;

/// Single-precision numbers.
#[derive(Clone, Copy, Debug, PartialEq)]
struct Single(f32);

impl Operations for Single {}

impl Number for Single {
    fn ratio(numerator: i32, denominator: u32) -> Self {
        Single(numerator as f32 / denominator as f32)
    }
    fn natural(n: u64) -> Self {
        Single(n as f32)
    }
    fn pi() -> Self {
        Single(std::f32::consts::PI)
    }
    fn sum(self, other: Self) -> Self {
        Single(self.0 + other.0)
    }
    fn difference(self, other: Self) -> Self {
        Single(self.0 - other.0)
    }
    fn product(self, other: Self) -> Self {
        Single(self.0 * other.0)
    }
    fn quotient(self, other: Self) -> Self {
        Single(self.0 / other.0)
    }
    fn power(self, exponent: Self) -> Self {
        Single(self.0.powf(exponent.0))
    }
    fn sine(self) -> Self {
        Single(self.0.sin())
    }
    fn cosine(self) -> Self {
        Single(self.0.cos())
    }
    fn magnitude(self) -> Self {
        Single(self.0.abs())
    }
    fn limit(self) -> Self {
        Single(self.0.tanh())
    }
    fn exceeds(self, other: Self) -> bool {
        self.0 > other.0
    }
    fn count(self) -> usize {
        self.0 as usize
    }
}

/// Double-precision numbers.
#[derive(Clone, Copy, Debug, PartialEq)]
struct Double(f64);

impl Operations for Double {}

impl Number for Double {
    fn ratio(numerator: i32, denominator: u32) -> Self {
        Double(numerator as f64 / denominator as f64)
    }
    fn natural(n: u64) -> Self {
        Double(n as f64)
    }
    fn pi() -> Self {
        Double(std::f64::consts::PI)
    }
    fn sum(self, other: Self) -> Self {
        Double(self.0 + other.0)
    }
    fn difference(self, other: Self) -> Self {
        Double(self.0 - other.0)
    }
    fn product(self, other: Self) -> Self {
        Double(self.0 * other.0)
    }
    fn quotient(self, other: Self) -> Self {
        Double(self.0 / other.0)
    }
    fn power(self, exponent: Self) -> Self {
        Double(self.0.powf(exponent.0))
    }
    fn sine(self) -> Self {
        Double(self.0.sin())
    }
    fn cosine(self) -> Self {
        Double(self.0.cos())
    }
    fn magnitude(self) -> Self {
        Double(self.0.abs())
    }
    fn limit(self) -> Self {
        Double(self.0.tanh())
    }
    fn exceeds(self, other: Self) -> bool {
        self.0 > other.0
    }
    fn count(self) -> usize {
        self.0 as usize
    }
}

impl Wide<Single> for Double {
    fn narrow(self) -> Single {
        Single(self.0 as f32)
    }
}

const RATE: Single = Single(44100.0);

fn adjusted() -> DspState<Single> {
    let mut state = DspState::new(RATE);
    state.set(Target::Volume, Single(3.0), RATE);
    state.set(Target::Gain(Filter::ClarityBoost), Single(5.0), RATE);
    state.set(Target::Gain(Filter::ClarityMudCut), Single(5.0), RATE);
    state.set(Target::Gain(Filter::BassSubBoost), Single(4.0), RATE);
    state.set(Target::Gain(Filter::Band(3)), Single(-6.0), RATE);
    state.set(Target::Surround, Single(2.0), RATE);
    state.set(Target::Ambience, Single(1.5), RATE);
    state.set(Target::Dynamics, Single(2.5), RATE);
    state
}

fn filter(freq: f32, gain: f32) -> Biquad<Single> {
    let mut f = Biquad::new(Single(freq));
    f.gain_db = Single(gain);
    f.calculate_coeffs(RATE);
    f
}

#[test]
fn a_new_state_is_neutral() {
    let state = DspState::new(RATE);
    assert_eq!(state.filters.len(), 13);
    for (slot, f) in state.filters.iter().enumerate() {
        let fresh = filter(Filter::bank()[slot].frequency() as f32, 0.0);
        assert_eq!((f.freq, f.gain_db), (fresh.freq, Single(0.0)));
        assert_eq!((f.b0, f.b1, f.b2, f.a1, f.a2), (fresh.b0, fresh.b1, fresh.b2, fresh.a1, fresh.a2));
        assert_eq!((f.z1_l, f.z2_r), (Single(0.0), Single(0.0)));
    }
    assert_eq!(state.surround_width, Single(0.0));
    assert_eq!(state.ambience_level, Single(0.0));
    assert_eq!(state.dynamic_boost_ratio, Single(1.0));
    assert_eq!(state.volume_boost_linear, Single(1.0));
    assert_eq!(state.current_energy, vec![Single(0.0); 10]);
}

#[test]
fn controls_set_their_parameters() {
    let state = adjusted();
    assert_eq!(state.volume_boost_linear, Single(1.0 + (3.0 * 0.25)));
    assert_eq!(state.surround_width, Single(2.0 * 0.1));
    assert_eq!(state.ambience_level, Single(1.5 * 0.1));
    assert_eq!(state.dynamic_boost_ratio, Single(1.0 + (2.5 * 0.05)));
    let boost = state.filters[Filter::ClarityBoost.slot()];
    let cut = state.filters[Filter::ClarityMudCut.slot()];
    let bass = state.filters[Filter::BassSubBoost.slot()];
    assert_eq!(boost.gain_db, Single(5.0 * 0.7));
    assert_eq!(cut.gain_db, Single(-(5.0 * 0.35)));
    assert_eq!(bass.gain_db, Single(4.0 * 0.9));
    assert_eq!(state.filters[3].gain_db, Single(-6.0));
    assert_eq!(boost.b0, filter(3800.0, 5.0 * 0.7).b0);
    assert_eq!(cut.a2, filter(250.0, -(5.0 * 0.35)).a2);
    assert_eq!(state.filters[2].gain_db, Single(0.0));
}

#[test]
fn a_curve_scales_and_offsets() {
    let value = Single(0.3);
    assert_eq!(control_parameter(Curve { base: 0, slope: 1000 }, value), value);
    assert_eq!(control_parameter(Curve { base: 0, slope: -350 }, value), Single(-(0.3 * 0.35)));
    assert_eq!(control_parameter(Curve { base: 1, slope: 250 }, value), Single(1.0 + 0.3 * 0.25));
    assert_eq!(control_parameter(Curve { base: 1, slope: 50 }, Single(0.0)), Single(1.0));
}

#[test]
fn rendering_is_the_whole_chain() {
    let mut state = adjusted();
    let path = stages(true);
    let mut bass = filter(35.0, 4.0 * 0.9);
    let mut bands: Vec<Biquad<Single>> = Vec::new();
    for (i, f) in [22.0f32, 44.0, 240.0, 397.0, 735.0, 1360.0, 2520.0, 4670.0, 9100.0, 16000.0]
        .iter()
        .enumerate()
    {
        bands.push(filter(*f, if i == 3 { -6.0 } else { 0.0 }));
    }
    let mut mud = filter(250.0, -(5.0 * 0.35));
    let mut clarity = filter(3800.0, 5.0 * 0.7);
    let mut energy = [0.0f32; 10];
    let (volume, surround, ambience, dynamic) =
        (1.0f32 + (3.0 * 0.25), 2.0f32 * 0.1, 1.5f32 * 0.1, 1.0f32 + (2.5 * 0.05));
    for (l, r) in [(0.9f32, -0.4f32), (0.2, 0.7), (-1.0, -0.8), (0.0, 0.01), (0.5, 0.5)] {
        let (mut left, mut right) = (l, r);
        let gain = volume * 0.5;
        left *= gain;
        right *= gain;
        left = bass.process(Single(left), true).0;
        right = bass.process(Single(right), false).0;
        for i in 0..10 {
            left = bands[i].process(Single(left), true).0;
            right = bands[i].process(Single(right), false).0;
            energy[i] = (energy[i] * 0.92) + ((left.abs() + right.abs()) * 0.08);
        }
        left = mud.process(Single(left), true).0;
        right = mud.process(Single(right), false).0;
        left = clarity.process(Single(left), true).0;
        right = clarity.process(Single(right), false).0;
        let mid = (left + right) * 0.5;
        let side = (left - right) * (0.5 + surround * 0.5) * (1.0 + ambience * 0.2);
        left = mid + side;
        right = mid - side;
        if (left.abs() + right.abs()) > 0.6 {
            left *= dynamic;
            right *= dynamic;
        }
        let expected = (Single(f32::tanh(left)), Single(f32::tanh(right)));
        assert_eq!(state.render(&path, Single(l), Single(r)), expected);
    }
    let shown: Vec<f32> = state.current_energy.iter().map(|e| e.0).collect();
    assert_eq!(shown, energy.to_vec());
}

#[test]
fn without_settings_a_frame_is_only_limited() {
    let mut state = adjusted();
    let limited = (Single(f32::tanh(0.9)), Single(f32::tanh(-0.4)));
    assert_eq!(bypass(Single(0.9), Single(-0.4)), limited);
    assert_eq!(state.render(&stages(false), Single(0.9), Single(-0.4)), limited);
    assert_eq!(state.current_energy, vec![Single(0.0); 10]);
}

#[test]
fn only_loud_frames_are_scaled() {
    let mut state = adjusted();
    let ratio = state.dynamic_boost_ratio.0;
    let quiet = state.run_stage(Stage::Dynamics, Single(0.3), Single(-0.25));
    assert_eq!(quiet, (Single(0.3), Single(-0.25)));
    let loud = state.run_stage(Stage::Dynamics, Single(0.5), Single(-0.25));
    assert_eq!(loud, (Single(0.5 * ratio), Single(-0.25 * ratio)));
}

#[test]
fn meters_leave_the_frame_alone() {
    let mut state = DspState::new(RATE);
    let frame = state.run_stage(Stage::Meter(7), Single(0.5), Single(-0.25));
    assert_eq!(frame, (Single(0.5), Single(-0.25)));
    assert_eq!(state.current_energy[7], Single(0.0 * 0.92 + 0.75 * 0.08));
    assert_eq!(state.current_energy[6], Single(0.0));
}

#[test]
fn playing_keeps_parameters_and_tuning() {
    let mut state = adjusted();
    let before: Vec<(Single, Single)> = state.filters.iter().map(|f| (f.b0, f.gain_db)).collect();
    state.render(&stages(true), Single(0.4), Single(0.2));
    let after: Vec<(Single, Single)> = state.filters.iter().map(|f| (f.b0, f.gain_db)).collect();
    assert_eq!(before, after);
    assert_eq!(state.volume_boost_linear, adjusted().volume_boost_linear);
}

#[test]
fn a_control_keeps_memories_and_meters() {
    let mut state = adjusted();
    state.render(&stages(true), Single(0.4), Single(0.2));
    let energy = state.current_energy.clone();
    let memory = (state.filters[3].z1_l, state.filters[3].z2_r);
    state.set(Target::Gain(Filter::Band(3)), Single(2.0), RATE);
    assert_eq!(state.current_energy, energy);
    assert_eq!((state.filters[3].z1_l, state.filters[3].z2_r), memory);
    assert_eq!(state.filters[3].b0, filter(397.0, 2.0).b0);
}

#[test]
fn reports_count_the_marks_of_an_energy() {
    let energies = vec![Single(0.0), Single(0.06), Single(0.17), Single(9.0), Single(-1.0)];
    let message = report("Monitor", &Vec::new(), &energies);
    assert_eq!(message.levels, energies);
    assert_eq!(message.ascii_beat, ".... :... :::. :::: ....");
}

#[test]
fn captured_samples_are_converted() {
    let i16_rule = SampleFormat::I16.decode().unwrap();
    for x in [i16::MIN, -1, 0, 77, i16::MAX] {
        let expected = x as f32 / i16::MAX as f32;
        assert_eq!(decode_sample(i16_rule, Single(x as f32), Double(x as f64)), Single(expected));
    }
    let u8_rule = SampleFormat::U8.decode().unwrap();
    for x in [0u8, 1, 128, 255] {
        let expected = (x as f32 - 128.0) / 128.0;
        assert_eq!(decode_sample(u8_rule, Single(x as f32), Double(x as f64)), Single(expected));
    }
    let u32_rule = SampleFormat::U32.decode().unwrap();
    for x in [0u32, 2147483649, 3000000001, u32::MAX] {
        let expected = (x as f64 - 2147483648.0) as f32 / 2147483648.0;
        assert_eq!(decode_sample(u32_rule, Single(x as f32), Double(x as f64)), Single(expected));
    }
    let i32_rule = SampleFormat::I32.decode().unwrap();
    for x in [i32::MIN, 12345, i32::MAX] {
        let expected = x as f32 / i32::MAX as f32;
        assert_eq!(decode_sample(i32_rule, Single(x as f32), Double(x as f64)), Single(expected));
    }
    let i64_rule = SampleFormat::I64.decode().unwrap();
    for x in [i64::MIN, 987654321987654321, i64::MAX] {
        let expected = (x as f64 / i64::MAX as f64) as f32;
        assert_eq!(decode_sample(i64_rule, Single(x as f32), Double(x as f64)), Single(expected));
    }
    let u64_rule = SampleFormat::U64.decode().unwrap();
    for x in [0u64, 1 << 63, 987654321987654321, u64::MAX] {
        let expected = ((x as f64 - 9223372036854775808.0) / 9223372036854775808.0) as f32;
        assert_eq!(decode_sample(u64_rule, Single(x as f32), Double(x as f64)), Single(expected));
    }
    let f64_rule = SampleFormat::F64.decode().unwrap();
    assert_eq!(decode_sample(f64_rule, Single(0.0), Double(0.1)), Single(0.1f64 as f32));
    let f32_rule = SampleFormat::F32.decode().unwrap();
    assert_eq!(decode_sample(f32_rule, Single(0.1), Double(0.5)), Single(0.1));
}

#[test]
fn played_samples_are_converted() {
    for v in [-1.0f32, -0.3, 0.0, 0.7, 1.0] {
        let rule = SampleFormat::I16.encode().unwrap();
        assert_eq!(encode_sample(rule, Single(v)), Single(v * i16::MAX as f32));
        let rule = SampleFormat::I32.encode().unwrap();
        assert_eq!(encode_sample(rule, Single(v)), Single(v * i32::MAX as f32));
        let rule = SampleFormat::U16.encode().unwrap();
        assert_eq!(encode_sample(rule, Single(v)), Single((v * 0.5 + 0.5) * 65535.0));
        let rule = SampleFormat::U8.encode().unwrap();
        assert_eq!(encode_sample(rule, Single(v)), Single((v * 0.5 + 0.5) * 255.0));
        let rule = SampleFormat::F32.encode().unwrap();
        assert_eq!(encode_sample(rule, Single(v)), Single(v));
        let rule = SampleFormat::F64.encode().unwrap();
        assert_eq!(encode_sample(rule, Single(v)), Single(v));
    }
}

/// Some frames that the compiler cannot compute with: it may round otherwise than the platform.
fn block() -> Vec<(Single, Single)> {
    [(0.5f32, -0.25f32), (0.9, 0.8), (0.0, 0.1), (-1.0, 0.3), (0.2, 0.2)]
        .iter()
        .map(|&(l, r)| (Single(std::hint::black_box(l)), Single(std::hint::black_box(r))))
        .collect()
}

fn remembered(state: &DspState<Single>) -> Vec<f32> {
    let mut all: Vec<f32> = Vec::new();
    for f in &state.filters {
        all.extend([f.b0.0, f.b1.0, f.b2.0, f.a1.0, f.a2.0, f.gain_db.0]);
        all.extend([f.z1_l.0, f.z2_l.0, f.z1_r.0, f.z2_r.0]);
    }
    all.extend(state.current_energy.iter().map(|e| e.0));
    all.extend([state.surround_width.0, state.ambience_level.0]);
    all.extend([state.dynamic_boost_ratio.0, state.volume_boost_linear.0]);
    all
}

#[test]
fn values_are_set_one_after_the_other() {
    let mut all = DspState::new(RATE);
    all.set_all(
        &vec![
            (Target::Volume, Single(3.0)),
            (Target::Gain(Filter::ClarityBoost), Single(5.0)),
            (Target::Gain(Filter::ClarityMudCut), Single(5.0)),
            (Target::Gain(Filter::BassSubBoost), Single(4.0)),
            (Target::Gain(Filter::Band(3)), Single(9.0)),
            (Target::Gain(Filter::Band(3)), Single(-6.0)),
            (Target::Surround, Single(2.0)),
            (Target::Ambience, Single(1.5)),
            (Target::Dynamics, Single(2.5)),
        ],
        RATE,
    );
    assert_eq!(remembered(&all), remembered(&adjusted()));
    let before = remembered(&all);
    all.set_all(&vec![], RATE);
    assert_eq!(remembered(&all), before);
}

#[test]
fn a_block_is_rendered_frame_by_frame() {
    let path = stages(true);
    let (mut whole, mut single) = (adjusted(), adjusted());
    let done = whole.render_block(&path, &block());
    let expected: Vec<(Single, Single)> =
        block().iter().map(|&(l, r)| single.render(&path, l, r)).collect();
    assert_eq!(done, expected);
    assert_ne!(done, block());
    assert_eq!(remembered(&whole), remembered(&single));
    assert_eq!(whole.render_block(&path, &vec![]), vec![]);
}

#[test]
fn blocks_can_be_cut_anywhere() {
    let path = stages(true);
    for cut in 0..=block().len() {
        let (mut whole, mut parts) = (adjusted(), adjusted());
        let (first, second) = (block()[..cut].to_vec(), block()[cut..].to_vec());
        let mut done = parts.render_block(&path, &first);
        done.extend(parts.render_block(&path, &second));
        assert_eq!(done, whole.render_block(&path, &block()));
        assert_eq!(remembered(&parts), remembered(&whole));
    }
}

#[test]
fn a_bypassed_block_is_only_limited() {
    let expected: Vec<(Single, Single)> =
        block().iter().map(|&(l, r)| (Single(l.0.tanh()), Single(r.0.tanh()))).collect();
    assert_eq!(bypass_block(&block()), expected);
    assert_eq!(adjusted().render_block(&stages(false), &block()), expected);
}
