use dsp_engine::filters::{stages, Filter, Stage, BANDS, FILTERS};

#[test]
fn the_bank_has_ten_bands_and_three_fixed_filters() {
    let bank = Filter::bank();
    assert_eq!(bank.len(), FILTERS);
    assert_eq!(BANDS, 10);
    assert_eq!(bank[0], Filter::Band(0));
    assert_eq!(bank[9], Filter::Band(9));
    assert_eq!(
        bank[10..],
        [Filter::ClarityBoost, Filter::ClarityMudCut, Filter::BassSubBoost]
    );
}

#[test]
fn each_filter_stands_at_its_slot() {
    for (slot, filter) in Filter::bank().into_iter().enumerate() {
        assert_eq!(filter.slot(), slot);
    }
}

#[test]
fn center_frequencies() {
    let found: Vec<u32> = Filter::bank().into_iter().map(|f| f.frequency()).collect();
    assert_eq!(
        found,
        vec![22, 44, 240, 397, 735, 1360, 2520, 4670, 9100, 16000, 3800, 250, 35]
    );
}

#[test]
fn the_signal_path() {
    let path = stages(true);
    assert_eq!(path.len(), 27);
    assert_eq!(path[0], Stage::Gain);
    assert_eq!(path[1], Stage::Pass(Filter::BassSubBoost));
    let mut band = 0;
    while band < BANDS {
        assert_eq!(path[2 + 2 * band], Stage::Pass(Filter::Band(band)));
        assert_eq!(path[3 + 2 * band], Stage::Meter(band));
        band += 1;
    }
    assert_eq!(
        path[22..],
        [
            Stage::Pass(Filter::ClarityMudCut),
            Stage::Pass(Filter::ClarityBoost),
            Stage::Widen,
            Stage::Dynamics,
            Stage::Saturate,
        ]
    );
}

#[test]
fn frames_are_only_limited_while_the_settings_change() {
    assert_eq!(stages(false), vec![Stage::Saturate]);
}

#[test]
fn each_filter_is_passed_exactly_once() {
    let path = stages(true);
    for filter in Filter::bank() {
        let passes = path.iter().filter(|s| **s == Stage::Pass(filter)).count();
        assert_eq!(passes, 1);
    }
}
