use dsp_engine::formats::{
    choose_input_config, quarter_second_frames, Decode, Encode, RateRange, SampleFormat, Width,
};

const ALL: [SampleFormat; 11] = [
    SampleFormat::I8,
    SampleFormat::I16,
    SampleFormat::I32,
    SampleFormat::I64,
    SampleFormat::U8,
    SampleFormat::U16,
    SampleFormat::U32,
    SampleFormat::U64,
    SampleFormat::F32,
    SampleFormat::F64,
    SampleFormat::Other,
];

fn scale(origin: u64, full_scale: u64, subtract_in: Width, divide_in: Width) -> Option<Decode> {
    Some(Decode::Scale { origin, full_scale, subtract_in, divide_in })
}

#[test]
fn signed_samples_are_divided_by_the_largest_value() {
    let single = Width::Single;
    let double = Width::Double;
    assert_eq!(SampleFormat::I8.decode(), scale(0, i8::MAX as u64, single, single));
    assert_eq!(SampleFormat::I16.decode(), scale(0, i16::MAX as u64, single, single));
    assert_eq!(SampleFormat::I32.decode(), scale(0, i32::MAX as u64, single, single));
    assert_eq!(SampleFormat::I64.decode(), scale(0, i64::MAX as u64, double, double));
}

#[test]
fn unsigned_samples_are_centred_first() {
    let single = Width::Single;
    let double = Width::Double;
    assert_eq!(SampleFormat::U8.decode(), scale(128, 128, single, single));
    assert_eq!(SampleFormat::U16.decode(), scale(32768, 32768, single, single));
    assert_eq!(SampleFormat::U32.decode(), scale(2147483648, 2147483648, double, single));
    assert_eq!(
        SampleFormat::U64.decode(),
        scale(9223372036854775808, 9223372036854775808, double, double)
    );
}

#[test]
fn float_samples_are_copied_or_narrowed() {
    assert_eq!(SampleFormat::F32.decode(), Some(Decode::Copy));
    assert_eq!(SampleFormat::F64.decode(), Some(Decode::Narrow));
}

#[test]
fn an_unknown_format_can_neither_be_captured_nor_played() {
    assert_eq!(SampleFormat::Other.decode(), None);
    assert_eq!(SampleFormat::Other.encode(), None);
}

#[test]
fn six_formats_can_be_played() {
    assert_eq!(SampleFormat::F32.encode(), Some(Encode::Copy));
    assert_eq!(SampleFormat::F64.encode(), Some(Encode::Widen));
    assert_eq!(SampleFormat::I16.encode(), Some(Encode::Signed { full_scale: 32767 }));
    assert_eq!(SampleFormat::I32.encode(), Some(Encode::Signed { full_scale: 2147483647 }));
    assert_eq!(SampleFormat::U8.encode(), Some(Encode::Unsigned { full_scale: 255 }));
    assert_eq!(SampleFormat::U16.encode(), Some(Encode::Unsigned { full_scale: 65535 }));
    for format in [SampleFormat::I8, SampleFormat::I64, SampleFormat::U32, SampleFormat::U64] {
        assert_eq!(format.encode(), None);
    }
}

#[test]
fn every_playable_format_can_be_captured() {
    for format in ALL {
        if format.encode().is_some() {
            assert!(format.decode().is_some());
        }
    }
}

#[test]
fn the_first_configuration_at_the_rate_is_chosen() {
    let ranges = vec![
        RateRange { min: 8000, max: 44100 },
        RateRange { min: 44100, max: 96000 },
        RateRange { min: 48000, max: 48000 },
    ];
    assert_eq!(choose_input_config(&ranges, 44100), Some(0));
    assert_eq!(choose_input_config(&ranges, 8000), Some(0));
    assert_eq!(choose_input_config(&ranges, 48000), Some(1));
    assert_eq!(choose_input_config(&ranges, 96000), Some(1));
    assert_eq!(choose_input_config(&ranges, 7999), None);
    assert_eq!(choose_input_config(&ranges, 96001), None);
    assert_eq!(choose_input_config(&Vec::new(), 48000), None);
}

#[test]
fn a_quarter_second_of_common_rates() {
    assert_eq!(quarter_second_frames(48000), 12000);
    assert_eq!(quarter_second_frames(44100), 11025);
    assert_eq!(quarter_second_frames(11025), 2756);
    assert_eq!(quarter_second_frames(4), 1);
    assert_eq!(quarter_second_frames(3), 0);
    assert_eq!(quarter_second_frames(0), 0);
}

#[test]
fn high_rates_are_rounded_like_single_precision_numbers() {
    assert_eq!(quarter_second_frames(16777217), 4194304);
    assert_eq!(quarter_second_frames(16777219), 4194305);
    assert_eq!(quarter_second_frames(u32::MAX), 1073741824);
}

#[test]
fn a_quarter_second_agrees_with_floating_point() {
    let mut rate: u32 = 0;
    while rate < 4_290_000_000 {
        assert_eq!(quarter_second_frames(rate), (rate as f32 * 0.25) as usize);
        rate += 104_729;
    }
    let mut bit: u32 = 23;
    while bit < 32 {
        for offset in [0u32, 1, 2, 3, 63, 64, 65, 127, 128, 129, 191, 192, 193, 255, 256, 257, 384] {
            let rate = (1u32 << bit) + offset;
            assert_eq!(quarter_second_frames(rate), (rate as f32 * 0.25) as usize);
            let rate = u32::MAX - offset;
            assert_eq!(quarter_second_frames(rate), (rate as f32 * 0.25) as usize);
        }
        bit += 1;
    }
}
