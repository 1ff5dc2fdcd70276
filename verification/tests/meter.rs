use dsp_engine::meter::meter_line;
use dsp_engine::number::Whole;
use dsp_engine::telemetry::report;

#[test]
fn bars_have_four_marks() {
    assert_eq!(meter_line(&vec![0]), "....");
    assert_eq!(meter_line(&vec![1]), ":...");
    assert_eq!(meter_line(&vec![3]), ":::.");
    assert_eq!(meter_line(&vec![4]), "::::");
    assert_eq!(meter_line(&vec![5]), "::::");
    assert_eq!(meter_line(&vec![usize::MAX]), "::::");
}

#[test]
fn bars_are_separated_by_one_space() {
    assert_eq!(meter_line(&vec![]), "");
    assert_eq!(meter_line(&vec![2, 0, 9]), "::.. .... ::::");
}

#[test]
fn the_line_is_the_trimmed_string_of_bars() {
    let dots: Vec<usize> = vec![0, 1, 2, 3, 4, 5, 17, 0, 2, 1];
    let mut ascii = String::new();
    for d in dots.iter() {
        ascii.push_str(&":".repeat((*d).min(4)));
        ascii.push_str(&".".repeat(4_usize.saturating_sub(*d)));
        ascii.push(' ');
    }
    assert_eq!(meter_line(&dots), ascii.trim());
    assert_eq!(meter_line(&dots).len(), 49);
}

#[test]
fn a_report_holds_devices_levels_and_meter() {
    let available = vec!["Speakers".to_string(), "Monitor".to_string()];
    let energies = vec![Whole(2), Whole(0)];
    let message = report("Monitor", &available, &energies);
    assert_eq!(message.msg_type, "telemetry");
    assert_eq!(message.active_device, "Monitor");
    assert_eq!(message.available_devices, available);
    assert_eq!(message.levels, vec![Whole(2), Whole(0)]);
    assert_eq!(message.ascii_beat, ":::: ....");
}

#[test]
fn a_report_without_bands_is_empty() {
    let message = report("", &Vec::new(), &Vec::<Whole>::new());
    assert_eq!(message.active_device, "");
    assert!(message.available_devices.is_empty());
    assert!(message.levels.is_empty());
    assert_eq!(message.ascii_beat, "");
}
