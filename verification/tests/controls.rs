use dsp_engine::controls::{ControlMessage, Controls, Curve, Target};
use dsp_engine::filters::Filter;

fn empty() -> ControlMessage {
    ControlMessage {
        band: None,
        gain: None,
        boost: None,
        clarity: None,
        ambience: None,
        surround: None,
        dynamic: None,
        bass: None,
        set_device: None,
    }
}

fn every_target() -> Vec<Target> {
    let mut targets =
        vec![Target::Volume, Target::Surround, Target::Ambience, Target::Dynamics];
    for filter in Filter::bank() {
        targets.push(Target::Gain(filter));
    }
    targets
}

fn values(controls: &Controls) -> Vec<u32> {
    every_target().into_iter().map(|t| controls.value(t)).collect()
}

#[test]
fn every_control_starts_at_zero() {
    assert_eq!(values(&Controls::new()), vec![0; 17]);
}

#[test]
fn an_empty_message_does_nothing() {
    let mut controls = Controls::new();
    controls.apply(&ControlMessage { boost: Some(3), ..empty() });
    let before = values(&controls);
    assert_eq!(controls.apply(&empty()), vec![]);
    assert_eq!(values(&controls), before);
}

#[test]
fn a_full_message_is_applied_in_order() {
    let mut controls = Controls::new();
    let changed = controls.apply(&ControlMessage {
        band: Some(4),
        gain: Some(1),
        boost: Some(2),
        clarity: Some(3),
        ambience: Some(4),
        surround: Some(5),
        dynamic: Some(6),
        bass: Some(7),
        set_device: Some("Monitor".to_string()),
    });
    assert_eq!(
        changed,
        vec![
            Target::Volume,
            Target::Gain(Filter::ClarityBoost),
            Target::Gain(Filter::ClarityMudCut),
            Target::Gain(Filter::BassSubBoost),
            Target::Surround,
            Target::Ambience,
            Target::Dynamics,
            Target::Gain(Filter::Band(4)),
        ]
    );
    let found: Vec<u32> = changed.into_iter().map(|t| controls.value(t)).collect();
    assert_eq!(found, vec![2, 3, 3, 7, 5, 4, 6, 1]);
    assert_eq!(controls.value(Target::Gain(Filter::Band(3))), 0);
    assert_eq!(controls.value(Target::Gain(Filter::Band(5))), 0);
}

#[test]
fn a_band_needs_a_gain_and_a_gain_needs_a_band() {
    let mut controls = Controls::new();
    assert_eq!(controls.apply(&ControlMessage { band: Some(1), ..empty() }), vec![]);
    assert_eq!(controls.apply(&ControlMessage { gain: Some(9), ..empty() }), vec![]);
    assert_eq!(values(&controls), vec![0; 17]);
}

#[test]
fn bands_beyond_the_equalizer_are_ignored() {
    let mut controls = Controls::new();
    for band in [10, 11, 12, 13, usize::MAX] {
        let message = ControlMessage { band: Some(band), gain: Some(9), ..empty() };
        assert_eq!(controls.apply(&message), vec![]);
    }
    assert_eq!(values(&controls), vec![0; 17]);
    let message = ControlMessage { band: Some(9), gain: Some(9), ..empty() };
    assert_eq!(controls.apply(&message), vec![Target::Gain(Filter::Band(9))]);
    assert_eq!(controls.value(Target::Gain(Filter::Band(9))), 9);
}

#[test]
fn repeating_a_message_changes_nothing_more() {
    let mut controls = Controls::new();
    let message = ControlMessage { clarity: Some(8), band: Some(0), gain: Some(5), ..empty() };
    let first = controls.apply(&message);
    let before = values(&controls);
    assert_eq!(controls.apply(&message), first);
    assert_eq!(values(&controls), before);
}

#[test]
fn the_later_value_counts() {
    let mut controls = Controls::new();
    controls.apply(&ControlMessage { surround: Some(1), ..empty() });
    controls.apply(&ControlMessage { bass: Some(2), ..empty() });
    controls.apply(&ControlMessage { surround: Some(3), ..empty() });
    assert_eq!(controls.value(Target::Surround), 3);
    assert_eq!(controls.value(Target::Gain(Filter::BassSubBoost)), 2);
}

#[test]
fn independent_messages_come_in_any_order() {
    let mut one = Controls::new();
    let mut other = Controls::new();
    one.apply(&ControlMessage { ambience: Some(4), ..empty() });
    one.apply(&ControlMessage { dynamic: Some(6), ..empty() });
    other.apply(&ControlMessage { dynamic: Some(6), ..empty() });
    other.apply(&ControlMessage { ambience: Some(4), ..empty() });
    assert_eq!(values(&one), values(&other));
}

#[test]
fn a_requested_device_changes_no_parameter() {
    let mut controls = Controls::new();
    let message = ControlMessage { set_device: Some("Monitor".to_string()), ..empty() };
    assert_eq!(controls.apply(&message), vec![]);
    assert_eq!(values(&controls), vec![0; 17]);
}

#[test]
fn curves_of_the_parameters() {
    assert_eq!(Target::Volume.curve(), Curve { base: 1, slope: 250 });
    assert_eq!(Target::Surround.curve(), Curve { base: 0, slope: 100 });
    assert_eq!(Target::Ambience.curve(), Curve { base: 0, slope: 100 });
    assert_eq!(Target::Dynamics.curve(), Curve { base: 1, slope: 50 });
    assert_eq!(Target::Gain(Filter::Band(2)).curve(), Curve { base: 0, slope: 1000 });
    assert_eq!(Target::Gain(Filter::ClarityBoost).curve(), Curve { base: 0, slope: 700 });
    assert_eq!(Target::Gain(Filter::ClarityMudCut).curve(), Curve { base: 0, slope: -350 });
    assert_eq!(Target::Gain(Filter::BassSubBoost).curve(), Curve { base: 0, slope: 900 });
}

#[test]
fn slopes_in_thousandths_are_the_decimal_factors() {
    assert_eq!(250.0f32 / 1000.0, 0.25);
    assert_eq!(100.0f32 / 1000.0, 0.1);
    assert_eq!(50.0f32 / 1000.0, 0.05);
    assert_eq!(700.0f32 / 1000.0, 0.7);
    assert_eq!(350.0f32 / 1000.0, 0.35);
    assert_eq!(900.0f32 / 1000.0, 0.9);
}
