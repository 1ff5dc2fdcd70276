use dsp_engine::devices::{
    active_name, available_outputs, find_first, find_input_device, find_output_device,
    list_outputs, pick_output, Role,
};
use dsp_engine::text::contains;

fn named(names: &[&str]) -> Vec<Option<String>> {
    names.iter().map(|n| Some(n.to_string())).collect()
}

fn strings(names: &[&str]) -> Vec<String> {
    names.iter().map(|n| n.to_string()).collect()
}

#[test]
fn substrings_are_found_anywhere() {
    assert!(contains("cable output", "cable"));
    assert!(contains("vb-audio cable", "cable"));
    assert!(contains("cable", "cable"));
    assert!(contains("ccable", "cable"));
    assert!(contains("cacable", "cable"));
    assert!(!contains("cabl", "cable"));
    assert!(!contains("cab le", "cable"));
    assert!(!contains("", "cable"));
    assert!(contains("cable", ""));
    assert!(contains("", ""));
    assert!(contains("h\u{f6}rer stereo", "stereo"));
    assert!(contains("\u{1f3a7} headphone", "headphone"));
}

#[test]
fn substring_search_agrees_with_the_standard_library() {
    let hays = ["", "a", "ab", "aab", "aaab", "abab", "b\u{e9}ab", "ba\u{e9}b"];
    let needles = ["", "a", "ab", "aab", "bab", "\u{e9}", "a\u{e9}"];
    for hay in hays {
        for needle in needles {
            assert_eq!(contains(hay, needle), hay.contains(needle));
        }
    }
}

#[test]
fn roles_follow_the_lower_case_name() {
    assert!(Role::Capture.fits("cable output (vb-audio virtual cable)"));
    assert!(!Role::Capture.fits("CABLE Output"));
    assert!(Role::Headset.fits("airpods stereo"));
    assert!(Role::Headset.fits("wh-1000 a2dp"));
    assert!(Role::Headset.fits("headphones (realtek)"));
    assert!(!Role::Headset.fits("cable stereo"));
    assert!(!Role::Headset.fits("speakers"));
    assert!(Role::Speaker.fits("speakers"));
    assert!(Role::Speaker.fits(""));
    assert!(!Role::Speaker.fits("cable input"));
    assert!(!Role::Speaker.fits("microsoft sound mapper"));
}

#[test]
fn the_capture_device_is_the_first_cable() {
    let names = named(&["Microphone", "CABLE Output", "Cable B"]);
    assert_eq!(find_input_device(&names), Some(1));
    assert_eq!(find_input_device(&named(&["Microphone", "Line In"])), None);
    assert_eq!(find_input_device(&Vec::new()), None);
    assert_eq!(find_input_device(&vec![None, Some("cAbLe".to_string())]), Some(1));
}

#[test]
fn headsets_come_before_speakers() {
    let names = named(&["Speakers", "CABLE Stereo", "Headphones (USB)", "Stereo Mix"]);
    assert_eq!(find_output_device(&names), Some(2));
}

#[test]
fn a_speaker_is_taken_where_there_is_no_headset() {
    let names = named(&["CABLE Input", "Microsoft Sound Mapper", "Monitor", "Speakers"]);
    assert_eq!(find_output_device(&names), Some(2));
    assert_eq!(find_output_device(&vec![None]), Some(0));
}

#[test]
fn no_output_is_found_among_cables_and_mappers() {
    let names = named(&["CABLE Input", "Sound Mapper"]);
    assert_eq!(find_output_device(&names), None);
    assert_eq!(find_output_device(&Vec::new()), None);
}

#[test]
fn a_headset_may_be_a_mapper() {
    let names = named(&["Speakers", "Stereo Mapper"]);
    assert_eq!(find_output_device(&names), Some(1));
    assert_eq!(available_outputs(&names), strings(&["Speakers"]));
}

#[test]
fn choices_work_on_lower_case_names() {
    let lowered = strings(&["speakers", "cable stereo", "a2dp sink"]);
    assert_eq!(pick_output(&lowered), Some(2));
    assert_eq!(find_first(&lowered, Role::Speaker), Some(0));
    assert_eq!(find_first(&lowered, Role::Capture), Some(1));
    assert_eq!(find_first(&strings(&["speakers"]), Role::Headset), None);
}

#[test]
fn outputs_are_listed_without_neighbouring_repeats() {
    let names = named(&[
        "Speakers", "Speakers", "CABLE Input", "Speakers", "Monitor", "Speakers", "Sound Mapper",
    ]);
    assert_eq!(available_outputs(&names), strings(&["Speakers", "Monitor", "Speakers"]));
}

#[test]
fn the_list_keeps_the_names_as_they_are() {
    let names = vec![Some("Realtek HD".to_string()), None, None, Some("CABLE".to_string())];
    assert_eq!(available_outputs(&names), strings(&["Realtek HD", ""]));
}

#[test]
fn listing_goes_by_the_lower_case_names_it_is_given() {
    let names = named(&["A", "B", "C"]);
    let lowered = strings(&["cable", "b", "mapper"]);
    assert_eq!(list_outputs(&names, &lowered), strings(&["B"]));
}

#[test]
fn listing_agrees_with_filter_and_dedup() {
    let names = named(&["x", "x", "Cable", "x", "y", "y", "MAPPER", "y", "x"]);
    let mut expected: Vec<String> = names
        .iter()
        .map(|n| n.clone().unwrap_or_default())
        .filter(|n| {
            !n.to_lowercase().contains("cable") && !n.to_lowercase().contains("mapper")
        })
        .collect();
    expected.dedup();
    assert_eq!(available_outputs(&names), expected);
    assert_eq!(expected, strings(&["x", "y", "x"]));
}

#[test]
fn the_active_device_is_on_the_list() {
    let names = named(&["CABLE Input", "Monitor", "USB Headphones"]);
    let at = find_output_device(&names).unwrap();
    let list = available_outputs(&names);
    assert!(list.contains(&names[at].clone().unwrap()));
}

#[test]
fn upper_case_names_are_lowered_before_they_are_compared() {
    assert_eq!(find_output_device(&named(&["MONITOR", "HEADPHONE"])), Some(1));
    assert_eq!(find_input_device(&named(&["CABLE"])), Some(0));
}

#[test]
fn a_device_without_a_name_is_shown_as_default_speaker() {
    assert_eq!(active_name(None), "Default Speaker");
    assert_eq!(active_name(Some("Monitor".to_string())), "Monitor");
    assert_eq!(active_name(Some(String::new())), "");
}
