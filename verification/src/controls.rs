//! The control panel: what a control message changes.
//!
//! Control values travel as the 32-bit patterns of single-precision numbers. They are stored and
//! handed on; a [`Curve`] says what parameter a value stands for.
use vstd::prelude::*;

use crate::filters::{Filter, BANDS, FILTERS};

verus! {

/// A message from the dashboard. Each field that is absent leaves its control as it is.
pub struct ControlMessage {
    pub band: Option<usize>,
    pub gain: Option<u32>,
    pub boost: Option<u32>,
    pub clarity: Option<u32>,
    pub ambience: Option<u32>,
    pub surround: Option<u32>,
    pub dynamic: Option<u32>,
    pub bass: Option<u32>,
    pub set_device: Option<String>,
}

/// A parameter of the signal path that a control sets.
#[derive(Clone, Copy, Debug, PartialEq, Eq, Structural)]
pub enum Target {
    /// The linear volume boost.
    Volume,
    /// The width of the stereo image.
    Surround,
    /// The ambience level.
    Ambience,
    /// The ratio applied to loud frames.
    Dynamics,
    /// The gain of a filter, in decibels; the filter is retuned when it changes.
    Gain(Filter),
}

/// How a control value becomes a parameter: `base + value * slope / 1000`.
#[derive(Clone, Copy, Debug, PartialEq, Eq, Structural)]
pub struct Curve {
    pub base: i32,
    pub slope: i32,
}

impl Target {
    /// The parameter exists.
    pub open spec fn is_known(self) -> bool {
        self matches Target::Gain(filter) ==> filter.exists_in_bank()
    }

    /// The curve of the parameter.
    pub open spec fn response(self) -> Curve {
        match self {
            Target::Volume => Curve { base: 1, slope: 250 },
            Target::Surround => Curve { base: 0, slope: 100 },
            Target::Ambience => Curve { base: 0, slope: 100 },
            Target::Dynamics => Curve { base: 1, slope: 50 },
            Target::Gain(Filter::Band(_)) => Curve { base: 0, slope: 1000 },
            Target::Gain(Filter::ClarityBoost) => Curve { base: 0, slope: 700 },
            Target::Gain(Filter::ClarityMudCut) => Curve { base: 0, slope: (-350) as i32 },
            Target::Gain(Filter::BassSubBoost) => Curve { base: 0, slope: 900 },
        }
    }

    /// How a control value becomes this parameter.
    pub fn curve(&self) -> (curve: Curve)
        ensures
            curve == self.response(),
    {
        match *self {
            Target::Volume => Curve { base: 1, slope: 250 },
            Target::Surround => Curve { base: 0, slope: 100 },
            Target::Ambience => Curve { base: 0, slope: 100 },
            Target::Dynamics => Curve { base: 1, slope: 50 },
            Target::Gain(filter) => match filter {
                Filter::Band(_) => Curve { base: 0, slope: 1000 },
                Filter::ClarityBoost => Curve { base: 0, slope: 700 },
                Filter::ClarityMudCut => Curve { base: 0, slope: -350 },
                Filter::BassSubBoost => Curve { base: 0, slope: 900 },
            },
        }
    }
}

impl ControlMessage {
    /// The band whose gain the message sets: one that exists, with a gain beside it.
    pub open spec fn adjusted_band(&self) -> Option<usize> {
        match (self.band, self.gain) {
            (Some(band), Some(_)) => if band < BANDS {
                Some(band)
            } else {
                None
            },
            _ => None,
        }
    }

    /// The value that the message gives to a parameter, if it gives one.
    pub open spec fn assigned(&self, target: Target) -> Option<u32> {
        match target {
            Target::Volume => self.boost,
            Target::Surround => self.surround,
            Target::Ambience => self.ambience,
            Target::Dynamics => self.dynamic,
            Target::Gain(Filter::ClarityBoost) => self.clarity,
            Target::Gain(Filter::ClarityMudCut) => self.clarity,
            Target::Gain(Filter::BassSubBoost) => self.bass,
            Target::Gain(Filter::Band(band)) => if self.adjusted_band() == Some(band) {
                self.gain
            } else {
                None
            },
        }
    }

    /// Every assignment of the message.
    pub open spec fn assignments(&self) -> Map<Target, u32> {
        Map::new(|t: Target| self.assigned(t) is Some, |t: Target| self.assigned(t)->0)
    }

    /// The gain that the message gives to the band that it adjusts.
    pub open spec fn adjusted_gain(&self) -> Option<u32> {
        if self.adjusted_band() is Some {
            self.gain
        } else {
            None
        }
    }

    /// The parameters that the message sets, in the order in which they are brought up to date.
    pub open spec fn targets(&self) -> Seq<Target> {
        let list = noted(seq![], Target::Volume, self.boost);
        let list = noted(list, Target::Gain(Filter::ClarityBoost), self.clarity);
        let list = noted(list, Target::Gain(Filter::ClarityMudCut), self.clarity);
        let list = noted(list, Target::Gain(Filter::BassSubBoost), self.bass);
        let list = noted(list, Target::Surround, self.surround);
        let list = noted(list, Target::Ambience, self.ambience);
        let list = noted(list, Target::Dynamics, self.dynamic);
        noted(list, Target::Gain(Filter::Band(self.adjusted_band()->0)), self.adjusted_gain())
    }
}

/// A list of parameters, with one more where there is a value for it.
pub open spec fn noted(list: Seq<Target>, target: Target, value: Option<u32>) -> Seq<Target> {
    if value is Some {
        list.push(target)
    } else {
        list
    }
}

/// The current value of every control.
pub struct Controls {
    volume: u32,
    surround: u32,
    ambience: u32,
    dynamics: u32,
    gains: Vec<u32>,
}

impl Controls {
    /// There is a gain for each filter of the bank.
    pub closed spec fn wf(&self) -> bool {
        self.gains@.len() == FILTERS
    }

    /// The value of the control behind a parameter.
    pub closed spec fn setting(&self, target: Target) -> u32 {
        match target {
            Target::Volume => self.volume,
            Target::Surround => self.surround,
            Target::Ambience => self.ambience,
            Target::Dynamics => self.dynamics,
            Target::Gain(filter) => self.gains@[filter.place()],
        }
    }

    /// The value of each control, by the parameter that it sets.
    pub open spec fn settings(&self) -> Map<Target, u32> {
        Map::new(|t: Target| t.is_known(), |t: Target| self.setting(t))
    }

    /// A panel with every control at zero.
    pub fn new() -> (controls: Controls)
        ensures
            controls.wf(),
            controls.settings() == Map::new(|t: Target| t.is_known(), |t: Target| 0u32),
    {
        let mut gains: Vec<u32> = Vec::new();
        while gains.len() < FILTERS
            invariant
                gains.len() <= FILTERS,
                forall|i: int| 0 <= i < gains.len() ==> gains@[i] == 0,
            decreases FILTERS - gains.len(),
        {
            gains.push(0);
        }
        let controls = Controls { volume: 0, surround: 0, ambience: 0, dynamics: 0, gains };
        assert(controls.settings() =~= Map::new(|t: Target| t.is_known(), |t: Target| 0u32));
        controls
    }

    /// The value of the control behind a parameter.
    pub fn value(&self, target: Target) -> (value: u32)
        requires
            self.wf(),
            target.is_known(),
        ensures
            value == self.settings()[target],
    {
        match target {
            Target::Volume => self.volume,
            Target::Surround => self.surround,
            Target::Ambience => self.ambience,
            Target::Dynamics => self.dynamics,
            Target::Gain(filter) => self.gains[filter.slot()],
        }
    }

    /// Sets one control where there is a value for it, and notes its parameter.
    fn set(&mut self, target: Target, value: Option<u32>, changed: &mut Vec<Target>)
        requires
            old(self).wf(),
            value is Some ==> target.is_known(),
        ensures
            final(self).wf(),
            final(self).settings() == match value {
                Some(v) => old(self).settings().insert(target, v),
                None => old(self).settings(),
            },
            final(changed)@ == noted(old(changed)@, target, value),
    {
        if let Some(v) = value {
            match target {
                Target::Volume => {
                    self.volume = v;
                },
                Target::Surround => {
                    self.surround = v;
                },
                Target::Ambience => {
                    self.ambience = v;
                },
                Target::Dynamics => {
                    self.dynamics = v;
                },
                Target::Gain(filter) => {
                    let slot: usize = filter.slot();
                    self.gains.set(slot, v);
                },
            }
            changed.push(target);
            assert(self.settings() =~= old(self).settings().insert(target, v));
        }
    }

    /// Takes over the values of a message and says which parameters have to be brought up to
    /// date, in this order.
    pub fn apply(&mut self, message: &ControlMessage) -> (changed: Vec<Target>)
        requires
            old(self).wf(),
        ensures
            final(self).wf(),
            final(self).settings() == old(self).settings().union_prefer_right(
                message.assignments(),
            ),
            changed@ == message.targets(),
            forall|band: usize|
                message.band == Some(band) && message.gain is Some && band < BANDS ==> (
                #[trigger] final(self).settings()[Target::Gain(Filter::Band(band))])
                    == message.gain->0,
    {
        let mut changed: Vec<Target> = Vec::new();
        self.set(Target::Volume, message.boost, &mut changed);
        self.set(Target::Gain(Filter::ClarityBoost), message.clarity, &mut changed);
        self.set(Target::Gain(Filter::ClarityMudCut), message.clarity, &mut changed);
        self.set(Target::Gain(Filter::BassSubBoost), message.bass, &mut changed);
        self.set(Target::Surround, message.surround, &mut changed);
        self.set(Target::Ambience, message.ambience, &mut changed);
        self.set(Target::Dynamics, message.dynamic, &mut changed);
        if let (Some(band), Some(gain)) = (message.band, message.gain) {
            if band < BANDS {
                self.set(Target::Gain(Filter::Band(band)), Some(gain), &mut changed);
            }
        }
        assert(changed@ == message.targets());
        assert(self.settings() =~= old(self).settings().union_prefer_right(message.assignments()));
        changed
    }
}

/// The panel after a message, as [`Controls::apply`] leaves it.
pub open spec fn after_message(settings: Map<Target, u32>, message: ControlMessage) -> Map<
    Target,
    u32,
> {
    settings.union_prefer_right(message.assignments())
}

/// A message sets only parameters that exist, so the panel never gains or loses a control.
pub proof fn messages_keep_the_panel(controls: Controls, message: ControlMessage)
    ensures
        forall|t: Target| message.assignments().dom().contains(t) ==> t.is_known(),
        after_message(controls.settings(), message).dom() == controls.settings().dom(),
{
    assert(after_message(controls.settings(), message).dom() =~= controls.settings().dom());
}

/// A control that a message does not name keeps its value; one that it names takes the message's
/// value, whatever it was before.
pub proof fn messages_set_what_they_name(
    controls: Controls,
    message: ControlMessage,
    target: Target,
)
    requires
        target.is_known(),
    ensures
        after_message(controls.settings(), message)[target] == match message.assigned(target) {
            Some(value) => value,
            None => controls.settings()[target],
        },
{
}

proof fn lemma_noted(list: Seq<Target>, target: Target, value: Option<u32>, t: Target) -> (longer:
    Seq<Target>)
    ensures
        longer == noted(list, target, value),
        longer.contains(t) <==> list.contains(t) || (value is Some && t == target),
{
    let longer = noted(list, target, value);
    if value is Some {
        assert(longer.last() == target);
        if list.contains(t) {
            let i = list.index_of(t);
            assert(longer[i] == t);
        }
    }
    longer
}

/// The parameters reported as changed are those that the message sets, each of them once.
pub proof fn changes_are_reported_once(message: ControlMessage)
    ensures
        message.targets().no_duplicates(),
        forall|t: Target|
            message.targets().contains(t) <==> message.assignments().dom().contains(t),
{
    assert forall|t: Target|
        message.targets().contains(t) <==> message.assignments().dom().contains(t) by {
        let l0 = Seq::<Target>::empty();
        let l1 = lemma_noted(l0, Target::Volume, message.boost, t);
        let l2 = lemma_noted(l1, Target::Gain(Filter::ClarityBoost), message.clarity, t);
        let l3 = lemma_noted(l2, Target::Gain(Filter::ClarityMudCut), message.clarity, t);
        let l4 = lemma_noted(l3, Target::Gain(Filter::BassSubBoost), message.bass, t);
        let l5 = lemma_noted(l4, Target::Surround, message.surround, t);
        let l6 = lemma_noted(l5, Target::Ambience, message.ambience, t);
        let l7 = lemma_noted(l6, Target::Dynamics, message.dynamic, t);
        let band = Target::Gain(Filter::Band(message.adjusted_band()->0));
        let l8 = lemma_noted(l7, band, message.adjusted_gain(), t);
        assert(message.targets() == l8);
    }
}

/// A message without any value changes nothing and reports nothing.
pub proof fn an_empty_message_changes_nothing(controls: Controls, message: ControlMessage)
    requires
        message.boost is None,
        message.clarity is None,
        message.bass is None,
        message.surround is None,
        message.ambience is None,
        message.dynamic is None,
        message.band is None || message.gain is None || message.band->0 >= BANDS,
    ensures
        after_message(controls.settings(), message) == controls.settings(),
        message.targets() == Seq::<Target>::empty(),
{
    assert(after_message(controls.settings(), message) =~= controls.settings());
}

/// Sending a message again changes nothing more.
pub proof fn a_repeated_message_changes_nothing(controls: Controls, message: ControlMessage)
    ensures
        after_message(after_message(controls.settings(), message), message) == after_message(
            controls.settings(),
            message,
        ),
{
    assert(after_message(after_message(controls.settings(), message), message) =~= after_message(
        controls.settings(),
        message,
    ));
}

/// Of two messages that set the same parameters the later one counts.
pub proof fn the_later_message_counts(
    controls: Controls,
    earlier: ControlMessage,
    later: ControlMessage,
)
    requires
        earlier.assignments().dom().subset_of(later.assignments().dom()),
    ensures
        after_message(after_message(controls.settings(), earlier), later) == after_message(
            controls.settings(),
            later,
        ),
{
    assert(after_message(after_message(controls.settings(), earlier), later) =~= after_message(
        controls.settings(),
        later,
    ));
}

/// Messages that set different parameters can come in either order.
pub proof fn independent_messages_commute(
    controls: Controls,
    one: ControlMessage,
    other: ControlMessage,
)
    requires
        one.assignments().dom().disjoint(other.assignments().dom()),
    ensures
        after_message(after_message(controls.settings(), one), other) == after_message(
            after_message(controls.settings(), other),
            one,
        ),
{
    assert(after_message(after_message(controls.settings(), one), other) =~= after_message(
        after_message(controls.settings(), other),
        one,
    ));
}

/// The panel after some messages, one after the other.
pub open spec fn after_messages(settings: Map<Target, u32>, messages: Seq<ControlMessage>) -> Map<
    Target,
    u32,
>
    decreases messages.len(),
{
    if messages.len() == 0 {
        settings
    } else {
        after_message(after_messages(settings, messages.drop_last()), messages.last())
    }
}

/// After any number of messages a control has the value of the last message that named it.
pub proof fn the_last_mention_counts(
    controls: Controls,
    messages: Seq<ControlMessage>,
    target: Target,
    at: int,
)
    requires
        0 <= at < messages.len(),
        messages[at].assigned(target) is Some,
        forall|i: int| at < i < messages.len() ==> (#[trigger] messages[i]).assigned(target) is None,
    ensures
        after_messages(controls.settings(), messages)[target] == messages[at].assigned(target)->0,
    decreases messages.len(),
{
    if at < messages.len() - 1 {
        the_last_mention_counts(controls, messages.drop_last(), target, at);
        lemma_panel_keeps_its_controls(controls, messages.drop_last());
    }
}

/// A control that no message names keeps the value that it had.
pub proof fn an_unmentioned_control_stays(
    controls: Controls,
    messages: Seq<ControlMessage>,
    target: Target,
)
    requires
        target.is_known(),
        forall|i: int| 0 <= i < messages.len() ==> (#[trigger] messages[i]).assigned(target) is None,
    ensures
        after_messages(controls.settings(), messages)[target] == controls.settings()[target],
    decreases messages.len(),
{
    if messages.len() > 0 {
        an_unmentioned_control_stays(controls, messages.drop_last(), target);
        lemma_panel_keeps_its_controls(controls, messages.drop_last());
    }
}

proof fn lemma_panel_keeps_its_controls(controls: Controls, messages: Seq<ControlMessage>)
    ensures
        after_messages(controls.settings(), messages).dom() == controls.settings().dom(),
    decreases messages.len(),
{
    if messages.len() > 0 {
        lemma_panel_keeps_its_controls(controls, messages.drop_last());
        assert(after_messages(controls.settings(), messages).dom() =~= controls.settings().dom());
    }
}

/// A band beyond the equalizer, or one without a gain beside it, moves no filter of the equalizer.
pub proof fn an_unknown_band_is_ignored(message: ControlMessage, band: usize)
    requires
        message.band is None || message.gain is None || message.band->0 >= BANDS,
    ensures
        message.assigned(Target::Gain(Filter::Band(band))) is None,
{
}

/// The clarity control moves its two filters together: the cut takes away half of what the boost
/// adds.
pub proof fn clarity_moves_two_filters(message: ControlMessage)
    ensures
        message.assigned(Target::Gain(Filter::ClarityBoost)) == message.clarity,
        message.assigned(Target::Gain(Filter::ClarityMudCut)) == message.clarity,
        Target::Gain(Filter::ClarityBoost).response().slope == -2 * Target::Gain(
            Filter::ClarityMudCut,
        ).response().slope,
{
}

/// A gain for a band of the equalizer is taken over and reported, whatever its value is, and no
/// other band is touched.
pub proof fn a_band_takes_any_gain(message: ControlMessage, band: usize, gain: u32, other: usize)
    requires
        message.band == Some(band),
        message.gain == Some(gain),
        band < BANDS,
        other != band,
    ensures
        message.assigned(Target::Gain(Filter::Band(band))) == Some(gain),
        message.targets().contains(Target::Gain(Filter::Band(band))),
        message.assigned(Target::Gain(Filter::Band(other))) is None,
        !message.targets().contains(Target::Gain(Filter::Band(other))),
{
    changes_are_reported_once(message);
}

/// Every other value of a message reaches its own parameters, whatever the value is and whatever
/// else the message holds; where it is absent they are left alone. The requested device and the
/// equalizer have no part in that.
pub proof fn each_value_reaches_its_parameters(message: ControlMessage)
    ensures
        message.assigned(Target::Volume) == message.boost,
        message.assigned(Target::Surround) == message.surround,
        message.assigned(Target::Ambience) == message.ambience,
        message.assigned(Target::Dynamics) == message.dynamic,
        message.assigned(Target::Gain(Filter::BassSubBoost)) == message.bass,
        message.assigned(Target::Gain(Filter::ClarityBoost)) == message.clarity,
        message.assigned(Target::Gain(Filter::ClarityMudCut)) == message.clarity,
        message.boost is Some <==> message.targets().contains(Target::Volume),
        message.surround is Some <==> message.targets().contains(Target::Surround),
        message.ambience is Some <==> message.targets().contains(Target::Ambience),
        message.dynamic is Some <==> message.targets().contains(Target::Dynamics),
        message.bass is Some <==> message.targets().contains(Target::Gain(Filter::BassSubBoost)),
        message.clarity is Some <==> message.targets().contains(Target::Gain(Filter::ClarityBoost)),
        message.clarity is Some <==> message.targets().contains(
            Target::Gain(Filter::ClarityMudCut),
        ),
{
    changes_are_reported_once(message);
}

/// After a message each control shows the value that the message holds for it, and otherwise the
/// value that it showed before.
pub proof fn the_panel_shows_the_message(
    controls: Controls,
    message: ControlMessage,
    band: usize,
)
    requires
        band < BANDS,
    ensures
        ({
            let before = controls.settings();
            let after = after_message(before, message);
            &&& after[Target::Volume] == shown(message.boost, before[Target::Volume])
            &&& after[Target::Surround] == shown(message.surround, before[Target::Surround])
            &&& after[Target::Ambience] == shown(message.ambience, before[Target::Ambience])
            &&& after[Target::Dynamics] == shown(message.dynamic, before[Target::Dynamics])
            &&& after[Target::Gain(Filter::BassSubBoost)] == shown(
                message.bass,
                before[Target::Gain(Filter::BassSubBoost)],
            )
            &&& after[Target::Gain(Filter::ClarityBoost)] == shown(
                message.clarity,
                before[Target::Gain(Filter::ClarityBoost)],
            )
            &&& after[Target::Gain(Filter::ClarityMudCut)] == shown(
                message.clarity,
                before[Target::Gain(Filter::ClarityMudCut)],
            )
            &&& after[Target::Gain(Filter::Band(band))] == shown(
                if message.band == Some(band) {
                    message.gain
                } else {
                    None
                },
                before[Target::Gain(Filter::Band(band))],
            )
        }),
{
    messages_set_what_they_name(controls, message, Target::Volume);
    messages_set_what_they_name(controls, message, Target::Surround);
    messages_set_what_they_name(controls, message, Target::Ambience);
    messages_set_what_they_name(controls, message, Target::Dynamics);
    messages_set_what_they_name(controls, message, Target::Gain(Filter::BassSubBoost));
    messages_set_what_they_name(controls, message, Target::Gain(Filter::ClarityBoost));
    messages_set_what_they_name(controls, message, Target::Gain(Filter::ClarityMudCut));
    messages_set_what_they_name(controls, message, Target::Gain(Filter::Band(band)));
}

/// A value where there is one, and what was shown before where there is none.
pub open spec fn shown(value: Option<u32>, before: u32) -> u32 {
    match value {
        Some(value) => value,
        None => before,
    }
}

/// The turn of a parameter when several are brought up to date.
pub open spec fn turn(target: Target) -> int {
    match target {
        Target::Volume => 0,
        Target::Gain(Filter::ClarityBoost) => 1,
        Target::Gain(Filter::ClarityMudCut) => 2,
        Target::Gain(Filter::BassSubBoost) => 3,
        Target::Surround => 4,
        Target::Ambience => 5,
        Target::Dynamics => 6,
        Target::Gain(Filter::Band(_)) => 7,
    }
}

spec fn in_turn(list: Seq<Target>, below: int) -> bool {
    &&& forall|i: int, j: int| 0 <= i < j < list.len() ==> turn(list[i]) < turn(list[j])
    &&& forall|i: int| 0 <= i < list.len() ==> turn(#[trigger] list[i]) < below
}

proof fn lemma_in_turn(list: Seq<Target>, target: Target, value: Option<u32>) -> (longer: Seq<
    Target,
>)
    requires
        in_turn(list, turn(target)),
    ensures
        longer == noted(list, target, value),
        in_turn(longer, turn(target) + 1),
{
    noted(list, target, value)
}

/// What a message changes is brought up to date in one order: the volume, the clarity filters, the
/// bass filter, width, ambience, dynamics, and the band at the end.
pub proof fn changes_come_in_order(message: ControlMessage, earlier: int, later: int)
    requires
        0 <= earlier < later < message.targets().len(),
    ensures
        turn(message.targets()[earlier]) < turn(message.targets()[later]),
{
    let l1 = lemma_in_turn(seq![], Target::Volume, message.boost);
    let l2 = lemma_in_turn(l1, Target::Gain(Filter::ClarityBoost), message.clarity);
    let l3 = lemma_in_turn(l2, Target::Gain(Filter::ClarityMudCut), message.clarity);
    let l4 = lemma_in_turn(l3, Target::Gain(Filter::BassSubBoost), message.bass);
    let l5 = lemma_in_turn(l4, Target::Surround, message.surround);
    let l6 = lemma_in_turn(l5, Target::Ambience, message.ambience);
    let l7 = lemma_in_turn(l6, Target::Dynamics, message.dynamic);
    let band = Target::Gain(Filter::Band(message.adjusted_band()->0));
    let l8 = lemma_in_turn(l7, band, message.adjusted_gain());
    assert(message.targets() == l8);
}

} // verus!
