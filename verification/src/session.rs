//! The conversation with a connected dashboard, one decision at a time.
//!
//! The session says what to do next and is then told what came of it. In each round the clock is
//! checked, a report is sent where one is due, and one message is read.
use vstd::prelude::*;

use crate::controls::{after_message, ControlMessage, Controls, Target};

verus! {

/// The time between two reports, in milliseconds.
pub const REPORT_INTERVAL: u128 = 80;

/// What the attempt to read a message gave.
pub enum Incoming {
    /// Nothing could be read.
    Failed,
    /// A message that is not text.
    NotText,
    /// A text message, with the control message in it if it holds one.
    Text(Option<ControlMessage>),
}

/// What came of the last action.
pub enum Event {
    /// The time since the last report, in milliseconds.
    Elapsed(u128),
    /// The report was sent, and the clock was started anew.
    Reported,
    /// A message was waited for.
    Received(Incoming),
    /// The changed parameters were brought up to date.
    Updated,
}

/// What to do next.
pub enum Action {
    /// Look at the time since the last report.
    CheckClock,
    /// Send a report and start the clock anew.
    SendReport,
    /// Wait for a message.
    ReadMessage,
    /// Announce the requested device, if there is one, and bring parameters up to date.
    Update { device: Option<String>, changed: Vec<Target> },
}

/// What the session is waiting for.
#[derive(Clone, Copy, Debug, PartialEq, Eq, Structural)]
pub enum Phase {
    Clock,
    Report,
    Message,
    Update,
}

impl Phase {
    /// The event is an answer to what is waited for.
    pub open spec fn expects(self, event: Event) -> bool {
        match self {
            Phase::Clock => event is Elapsed,
            Phase::Report => event is Reported,
            Phase::Message => event is Received,
            Phase::Update => event is Updated,
        }
    }
}

impl Event {
    /// The control message that the event brings, if it brings one.
    pub open spec fn control(self) -> Option<ControlMessage> {
        match self {
            Event::Received(Incoming::Text(message)) => message,
            _ => None,
        }
    }

    /// A report is due.
    pub open spec fn report_due(self) -> bool {
        self matches Event::Elapsed(time) && time >= REPORT_INTERVAL
    }

    /// What is waited for after the event.
    pub open spec fn leads_to(self) -> Phase {
        match self {
            Event::Elapsed(_) => if self.report_due() {
                Phase::Report
            } else {
                Phase::Message
            },
            Event::Reported => Phase::Message,
            Event::Received(_) => if self.control() is Some {
                Phase::Update
            } else {
                Phase::Clock
            },
            Event::Updated => Phase::Clock,
        }
    }
}

impl Action {
    /// What is waited for while the action is carried out.
    pub open spec fn awaits(self) -> Phase {
        match self {
            Action::CheckClock => Phase::Clock,
            Action::SendReport => Phase::Report,
            Action::ReadMessage => Phase::Message,
            Action::Update { .. } => Phase::Update,
        }
    }
}

/// A conversation with a dashboard.
pub struct Session {
    phase: Phase,
}

impl Session {
    /// What the session is waiting for.
    pub closed spec fn phase(&self) -> Phase {
        self.phase
    }

    /// A new conversation; it starts with a look at the clock.
    pub fn start() -> (started: (Session, Action))
        ensures
            started.0.phase() == Phase::Clock,
            started.1 is CheckClock,
    {
        (Session { phase: Phase::Clock }, Action::CheckClock)
    }

    /// Takes what came of the last action and says what to do next. Only a control message
    /// changes the panel; everything else that arrives is passed over. What comes next depends on
    /// the event alone, also where another one was waited for.
    pub fn step(&mut self, controls: &mut Controls, event: Event) -> (action: Action)
        requires
            old(controls).wf(),
        ensures
            final(self).phase() == event.leads_to(),
            action.awaits() == event.leads_to(),
            final(controls).wf(),
            match event.control() {
                Some(message) => {
                    &&& final(controls).settings() == after_message(
                        old(controls).settings(),
                        message,
                    )
                    &&& action matches Action::Update { device, changed }
                    &&& device == message.set_device
                    &&& changed@ == message.targets()
                },
                None => *final(controls) == *old(controls),
            },
    {
        match event {
            Event::Elapsed(time) => if time >= REPORT_INTERVAL {
                self.phase = Phase::Report;
                Action::SendReport
            } else {
                self.phase = Phase::Message;
                Action::ReadMessage
            },
            Event::Reported => {
                self.phase = Phase::Message;
                Action::ReadMessage
            },
            Event::Received(Incoming::Text(Some(message))) => {
                let changed = controls.apply(&message);
                self.phase = Phase::Update;
                Action::Update { device: message.set_device, changed }
            },
            Event::Received(_) => {
                self.phase = Phase::Clock;
                Action::CheckClock
            },
            Event::Updated => {
                self.phase = Phase::Clock;
                Action::CheckClock
            },
        }
    }
}

/// In each round exactly one message is read, whether a report was sent before it or not, and
/// after it the clock is looked at again, whether there was something to update or not.
pub proof fn each_round_reads_one_message(clock: Event, message: Event)
    requires
        Phase::Clock.expects(clock),
        Phase::Message.expects(message),
    ensures
        clock.leads_to() == Phase::Message || (clock.leads_to() == Phase::Report
            && Event::Reported.leads_to() == Phase::Message),
        message.leads_to() == Phase::Clock || (message.leads_to() == Phase::Update
            && Event::Updated.leads_to() == Phase::Clock),
{
}

/// A report is sent exactly when the clock shows that the interval has passed.
pub proof fn reports_are_sent_when_due(event: Event)
    ensures
        event.leads_to() == Phase::Report <==> (event matches Event::Elapsed(time) && time
            >= REPORT_INTERVAL),
{
}

/// Parameters are updated exactly when a text message with a control message in it was read.
pub proof fn updates_follow_control_messages(event: Event)
    ensures
        event.leads_to() == Phase::Update <==> (event matches Event::Received(
            Incoming::Text(Some(_)),
        )),
{
}

/// A text message brings the control message in it, and nothing else brings one.
pub proof fn only_texts_bring_control_messages(event: Event)
    ensures
        event matches Event::Received(Incoming::Text(message)) ==> event.control() == message,
        event.control() is Some ==> event is Received && event->Received_0 is Text,
{
}

/// Each action is answered by its own kind of event, and while one is waited for no other kind is
/// an answer.
pub proof fn each_action_has_its_answer(action: Action, event: Event)
    ensures
        action is CheckClock && action.awaits().expects(event) ==> event is Elapsed,
        action is SendReport && action.awaits().expects(event) ==> event is Reported,
        action is ReadMessage && action.awaits().expects(event) ==> event is Received,
        action is Update && action.awaits().expects(event) ==> event is Updated,
        action is CheckClock && event is Elapsed ==> action.awaits().expects(event),
        action is SendReport && event is Reported ==> action.awaits().expects(event),
        action is ReadMessage && event is Received ==> action.awaits().expects(event),
        action is Update && event is Updated ==> action.awaits().expects(event),
{
}

/// The longer no report was sent, the more a report is due: once it is due it stays due.
pub proof fn a_due_report_stays_due(earlier: u128, later: u128)
    requires
        earlier <= later,
        Event::Elapsed(earlier).leads_to() == Phase::Report,
    ensures
        Event::Elapsed(later).leads_to() == Phase::Report,
{
}

/// What follows an answer: after a report a message is read, and after an update, or a message that
/// changes nothing, the clock is looked at.
pub proof fn rounds_go_on(incoming: Incoming)
    ensures
        Event::Reported.leads_to() == Phase::Message,
        Event::Updated.leads_to() == Phase::Clock,
        incoming is Failed || incoming is NotText ==> Event::Received(incoming).leads_to()
            == Phase::Clock,
        incoming matches Incoming::Text(None) ==> Event::Received(incoming).leads_to()
            == Phase::Clock,
{
}

} // verus!
