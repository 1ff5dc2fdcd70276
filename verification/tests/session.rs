use dsp_engine::controls::{ControlMessage, Controls, Target};
use dsp_engine::session::{Action, Event, Incoming, Session};

fn surround(value: u32, device: Option<&str>) -> ControlMessage {
    ControlMessage {
        band: None,
        gain: None,
        boost: None,
        clarity: None,
        ambience: None,
        surround: Some(value),
        dynamic: None,
        bass: None,
        set_device: device.map(|d| d.to_string()),
    }
}

#[test]
fn a_session_starts_with_the_clock() {
    let (_, action) = Session::start();
    assert!(matches!(action, Action::CheckClock));
}

#[test]
fn a_report_is_due_after_eighty_milliseconds() {
    let mut controls = Controls::new();
    let (mut session, _) = Session::start();
    let action = session.step(&mut controls, Event::Elapsed(79));
    assert!(matches!(action, Action::ReadMessage));
    let action = session.step(&mut controls, Event::Received(Incoming::Failed));
    assert!(matches!(action, Action::CheckClock));
    let action = session.step(&mut controls, Event::Elapsed(80));
    assert!(matches!(action, Action::SendReport));
    let action = session.step(&mut controls, Event::Reported);
    assert!(matches!(action, Action::ReadMessage));
}

#[test]
fn a_control_message_is_applied() {
    let mut controls = Controls::new();
    let (mut session, _) = Session::start();
    session.step(&mut controls, Event::Elapsed(0));
    let message = surround(5, Some("Monitor"));
    let action = session.step(&mut controls, Event::Received(Incoming::Text(Some(message))));
    match action {
        Action::Update { device, changed } => {
            assert_eq!(device, Some("Monitor".to_string()));
            assert_eq!(changed, vec![Target::Surround]);
        }
        _ => panic!("an update was expected"),
    }
    assert_eq!(controls.value(Target::Surround), 5);
    let action = session.step(&mut controls, Event::Updated);
    assert!(matches!(action, Action::CheckClock));
}

#[test]
fn other_messages_are_passed_over() {
    let mut controls = Controls::new();
    controls.apply(&surround(5, None));
    let (mut session, _) = Session::start();
    for incoming in [Incoming::Failed, Incoming::NotText, Incoming::Text(None)] {
        session.step(&mut controls, Event::Elapsed(10));
        let action = session.step(&mut controls, Event::Received(incoming));
        assert!(matches!(action, Action::CheckClock));
        assert_eq!(controls.value(Target::Surround), 5);
    }
}

#[test]
fn the_panel_outlives_a_session() {
    let mut controls = Controls::new();
    let (mut session, _) = Session::start();
    session.step(&mut controls, Event::Elapsed(0));
    session.step(&mut controls, Event::Received(Incoming::Text(Some(surround(7, None)))));
    let (mut session, _) = Session::start();
    session.step(&mut controls, Event::Elapsed(200));
    assert_eq!(controls.value(Target::Surround), 7);
}

#[test]
fn the_next_action_depends_on_the_event_alone() {
    let mut controls = Controls::new();
    let (mut session, _) = Session::start();
    assert!(matches!(session.step(&mut controls, Event::Updated), Action::CheckClock));
    assert!(matches!(session.step(&mut controls, Event::Reported), Action::ReadMessage));
    assert!(matches!(session.step(&mut controls, Event::Elapsed(80)), Action::SendReport));
    assert!(matches!(session.step(&mut controls, Event::Elapsed(79)), Action::ReadMessage));
}
