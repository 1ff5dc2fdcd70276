//! The signal path at work: the filters, the parameters and the meters.
use vstd::prelude::*;

use crate::biquad::{at_rest, tuning, Biquad};
use crate::controls::{Curve, Target};
use crate::filters::{signal_path, Filter, Stage, BANDS, FILTERS};
use crate::number::{lemma_times_zero, one, zero, Exact, Number, Operations};

verus! {

/// The parameter that a control value stands for.
pub open spec fn parameter<N: Operations>(curve: Curve, value: N) -> N {
    let scaled = if curve.slope == 1000 {
        value
    } else {
        value.times(N::rational(curve.slope as int, 1000))
    };
    if curve.base == 0 {
        scaled
    } else {
        N::rational(curve.base as int, 1).plus(scaled)
    }
}

/// The filters and parameters of the signal path.
pub struct DspState<N> {
    pub filters: Vec<Biquad<N>>,
    pub surround_width: N,
    pub ambience_level: N,
    pub dynamic_boost_ratio: N,
    pub volume_boost_linear: N,
    pub current_energy: Vec<N>,
}

/// The contents of a [`DspState`].
#[verifier::ext_equal]
pub struct Settings<N> {
    /// Each filter of the bank, at its place.
    pub filters: Seq<Biquad<N>>,
    pub surround_width: N,
    pub ambience_level: N,
    pub dynamic_boost_ratio: N,
    pub volume_boost_linear: N,
    /// The energy of each equalizer band.
    pub energy: Seq<N>,
}

impl<N> View for DspState<N> {
    type V = Settings<N>;

    open spec fn view(&self) -> Settings<N> {
        Settings {
            filters: self.filters@,
            surround_width: self.surround_width,
            ambience_level: self.ambience_level,
            dynamic_boost_ratio: self.dynamic_boost_ratio,
            volume_boost_linear: self.volume_boost_linear,
            energy: self.current_energy@,
        }
    }
}

/// A filter of the bank before its first tuning to the stream: as [`Biquad::new`] makes it.
pub open spec fn is_new_filter<N: Operations>(filter: Biquad<N>, freq: N) -> bool {
    &&& filter.freq == freq
    &&& filter.gain_db == zero::<N>()
    &&& filter.left() == at_rest::<N>()
    &&& filter.right() == at_rest::<N>()
}

impl<N: Operations> Settings<N> {
    /// There is a filter for each place of the bank and an energy for each band.
    pub open spec fn wf(self) -> bool {
        self.filters.len() == FILTERS && self.energy.len() == BANDS
    }

    /// The settings after a parameter was set; a filter whose gain is set is tuned to it.
    pub open spec fn with_parameter(self, target: Target, value: N, sample_rate: N) -> Settings<N> {
        match target {
            Target::Volume => Settings { volume_boost_linear: value, ..self },
            Target::Surround => Settings { surround_width: value, ..self },
            Target::Ambience => Settings { ambience_level: value, ..self },
            Target::Dynamics => Settings { dynamic_boost_ratio: value, ..self },
            Target::Gain(filter) => Settings {
                filters: self.filters.update(
                    filter.place(),
                    self.filters[filter.place()].with_gain(value).tuned(sample_rate),
                ),
                ..self
            },
        }
    }

    /// The settings after some controls were moved, one after the other, each to a value.
    pub open spec fn with_values(self, values: Seq<(Target, N)>, sample_rate: N) -> Settings<N>
        decreases values.len(),
    {
        if values.len() == 0 {
            self
        } else {
            let (target, value) = values.last();
            self.with_values(values.drop_last(), sample_rate).with_parameter(
                target,
                parameter(target.response(), value),
                sample_rate,
            )
        }
    }

    /// What is left of a frame after a stage.
    pub open spec fn frame_after(self, stage: Stage, left: N, right: N) -> (N, N) {
        match stage {
            Stage::Gain => {
                let gain = self.volume_boost_linear.times(N::rational(1, 2));
                (left.times(gain), right.times(gain))
            },
            Stage::Pass(filter) => {
                let filter = self.filters[filter.place()];
                (filter.answer(left, true), filter.answer(right, false))
            },
            Stage::Meter(_) => (left, right),
            Stage::Widen => {
                let mid = left.plus(right).times(N::rational(1, 2));
                let side = left.minus(right).times(
                    N::rational(1, 2).plus(self.surround_width.times(N::rational(1, 2))),
                ).times(one::<N>().plus(self.ambience_level.times(N::rational(1, 5))));
                (mid.plus(side), mid.minus(side))
            },
            Stage::Dynamics => if is_loud(left, right) {
                (left.times(self.dynamic_boost_ratio), right.times(self.dynamic_boost_ratio))
            } else {
                (left, right)
            },
            Stage::Saturate => (left.limited(), right.limited()),
        }
    }

    /// The settings after a stage.
    pub open spec fn after_stage(self, stage: Stage, left: N, right: N) -> Settings<N> {
        match stage {
            Stage::Pass(filter) => Settings {
                filters: self.filters.update(
                    filter.place(),
                    self.filters[filter.place()].stepped(left, true).stepped(right, false),
                ),
                ..self
            },
            Stage::Meter(band) => Settings {
                energy: self.energy.update(
                    band as int,
                    smoothed(self.energy[band as int], left, right),
                ),
                ..self
            },
            _ => self,
        }
    }

    /// The settings and the frame after some stages, one after the other.
    pub open spec fn run(self, path: Seq<Stage>, left: N, right: N) -> (Settings<N>, (N, N))
        decreases path.len(),
    {
        if path.len() == 0 {
            (self, (left, right))
        } else {
            let (settings, frame) = self.run(path.drop_last(), left, right);
            (
                settings.after_stage(path.last(), frame.0, frame.1),
                settings.frame_after(path.last(), frame.0, frame.1),
            )
        }
    }

    /// The settings after some frames went through a signal path, one after the other, and what is
    /// left of the frames.
    pub open spec fn run_block(self, path: Seq<Stage>, frames: Seq<(N, N)>) -> (
        Settings<N>,
        Seq<(N, N)>,
    )
        decreases frames.len(),
    {
        if frames.len() == 0 {
            (self, seq![])
        } else {
            let (settings, done) = self.run_block(path, frames.drop_last());
            let (after, frame) = settings.run(path, frames.last().0, frames.last().1);
            (after, done.push(frame))
        }
    }
}

/// A frame whose two samples together exceed the threshold of the dynamics stage.
pub open spec fn is_loud<N: Operations>(left: N, right: N) -> bool {
    left.unsigned().plus(right.unsigned()).greater_than(N::rational(6, 10))
}

/// The energy of a band after a frame: most of what it was, and a little of the frame.
pub open spec fn smoothed<N: Operations>(energy: N, left: N, right: N) -> N {
    energy.times(N::rational(92, 100)).plus(
        left.unsigned().plus(right.unsigned()).times(N::rational(8, 100)),
    )
}

/// The stage speaks of a filter and a band that exist.
pub open spec fn is_possible(stage: Stage) -> bool {
    match stage {
        Stage::Pass(filter) => filter.exists_in_bank(),
        Stage::Meter(band) => band < BANDS,
        _ => true,
    }
}

/// The settings of a stream before a control was moved: every filter at rest, with a gain of zero
/// and tuned to the stream; neutral parameters; no energy.
pub open spec fn is_neutral<N: Operations>(settings: Settings<N>, sample_rate: N) -> bool {
    &&& settings.wf()
    &&& forall|i: int|
        0 <= i < FILTERS ==> {
            let filter = #[trigger] settings.filters[i];
            &&& is_new_filter(filter, N::rational(Filter::at_place(i).center() as int, 1))
            &&& filter.tuned(sample_rate) == filter
        }
    &&& settings.surround_width == zero::<N>()
    &&& settings.ambience_level == zero::<N>()
    &&& settings.dynamic_boost_ratio == one::<N>()
    &&& settings.volume_boost_linear == one::<N>()
    &&& forall|i: int| 0 <= i < BANDS ==> #[trigger] settings.energy[i] == zero::<N>()
}

/// Computes the parameter that a control value stands for.
pub fn control_parameter<N: Number>(curve: Curve, value: N) -> (p: N)
    ensures
        p == parameter(curve, value),
{
    let scaled = if curve.slope == 1000 {
        value
    } else {
        value.product(N::ratio(curve.slope, 1000))
    };
    if curve.base == 0 {
        scaled
    } else {
        N::ratio(curve.base, 1).sum(scaled)
    }
}

impl<N: Number> DspState<N> {
    /// The state of a stream before a control was moved.
    pub fn new(sample_rate: N) -> (state: DspState<N>)
        ensures
            is_neutral(state@, sample_rate),
    {
        let bank = Filter::bank();
        let mut filters: Vec<Biquad<N>> = Vec::new();
        while filters.len() < bank.len()
            invariant
                filters.len() <= bank.len(),
                bank@ == Seq::new(FILTERS as nat, |i: int| Filter::at_place(i)),
                forall|i: int|
                    0 <= i < filters.len() ==> {
                        let filter = #[trigger] filters@[i];
                        &&& is_new_filter(
                            filter,
                            N::rational(Filter::at_place(i).center() as int, 1),
                        )
                        &&& filter.tuned(sample_rate) == filter
                    },
            decreases bank.len() - filters.len(),
        {
            let place: usize = filters.len();
            assert(bank@[place as int] == Filter::at_place(place as int));
            let hertz: u32 = bank[place].frequency();
            assert(hertz <= 16000);
            let mut filter = Biquad::new(N::ratio(hertz as i32, 1));
            filter.calculate_coeffs(sample_rate);
            filters.push(filter);
        }
        let none = N::ratio(0, 1);
        let unit = N::ratio(1, 1);
        let mut current_energy: Vec<N> = Vec::new();
        while current_energy.len() < BANDS
            invariant
                current_energy.len() <= BANDS,
                none == zero::<N>(),
                forall|i: int|
                    0 <= i < current_energy.len() ==> #[trigger] current_energy@[i] == zero::<N>(),
            decreases BANDS - current_energy.len(),
        {
            current_energy.push(none);
        }
        DspState {
            filters,
            surround_width: none,
            ambience_level: none,
            dynamic_boost_ratio: unit,
            volume_boost_linear: unit,
            current_energy,
        }
    }

    /// Sets a parameter from the value of its control.
    pub fn set(&mut self, target: Target, value: N, sample_rate: N)
        requires
            old(self)@.wf(),
            target.is_known(),
        ensures
            final(self)@.wf(),
            final(self)@ == old(self)@.with_parameter(
                target,
                parameter(target.response(), value),
                sample_rate,
            ),
    {
        let p = control_parameter(target.curve(), value);
        match target {
            Target::Volume => {
                self.volume_boost_linear = p;
            },
            Target::Surround => {
                self.surround_width = p;
            },
            Target::Ambience => {
                self.ambience_level = p;
            },
            Target::Dynamics => {
                self.dynamic_boost_ratio = p;
            },
            Target::Gain(filter) => {
                let slot: usize = filter.slot();
                let mut tuned = self.filters[slot];
                tuned.gain_db = p;
                tuned.calculate_coeffs(sample_rate);
                self.filters.set(slot, tuned);
            },
        }
    }

    /// Sets parameters from the values of their controls, one after the other.
    pub fn set_all(&mut self, values: &Vec<(Target, N)>, sample_rate: N)
        requires
            old(self)@.wf(),
            forall|i: int| 0 <= i < values.len() ==> (#[trigger] values@[i]).0.is_known(),
        ensures
            final(self)@.wf(),
            final(self)@ == old(self)@.with_values(values@, sample_rate),
    {
        let mut next: usize = 0;
        while next < values.len()
            invariant
                next <= values.len(),
                self@.wf(),
                forall|i: int| 0 <= i < values.len() ==> (#[trigger] values@[i]).0.is_known(),
                self@ == old(self)@.with_values(values@.take(next as int), sample_rate),
            decreases values.len() - next,
        {
            assert(values@.take(next + 1).drop_last() =~= values@.take(next as int));
            let (target, value) = values[next];
            assert(values@[next as int].0.is_known());
            self.set(target, value, sample_rate);
            next += 1;
        }
        assert(values@.take(next as int) =~= values@);
    }

    /// Takes a frame through one stage.
    pub fn run_stage(&mut self, stage: Stage, left: N, right: N) -> (frame: (N, N))
        requires
            old(self)@.wf(),
            is_possible(stage),
        ensures
            final(self)@.wf(),
            final(self)@ == old(self)@.after_stage(stage, left, right),
            frame == old(self)@.frame_after(stage, left, right),
    {
        match stage {
            Stage::Gain => {
                let gain = self.volume_boost_linear.product(N::ratio(1, 2));
                (left.product(gain), right.product(gain))
            },
            Stage::Pass(filter) => {
                let slot: usize = filter.slot();
                let mut stepped = self.filters[slot];
                let frame = (stepped.process(left, true), stepped.process(right, false));
                self.filters.set(slot, stepped);
                frame
            },
            Stage::Meter(band) => {
                let level = left.magnitude().sum(right.magnitude());
                let energy = self.current_energy[band].product(N::ratio(92, 100)).sum(
                    level.product(N::ratio(8, 100)),
                );
                self.current_energy.set(band, energy);
                (left, right)
            },
            Stage::Widen => {
                let half = N::ratio(1, 2);
                let mid = left.sum(right).product(half);
                let width = half.sum(self.surround_width.product(half));
                let depth = N::ratio(1, 1).sum(self.ambience_level.product(N::ratio(1, 5)));
                let side = left.difference(right).product(width).product(depth);
                (mid.sum(side), mid.difference(side))
            },
            Stage::Dynamics => {
                if left.magnitude().sum(right.magnitude()).exceeds(N::ratio(6, 10)) {
                    (
                        left.product(self.dynamic_boost_ratio),
                        right.product(self.dynamic_boost_ratio),
                    )
                } else {
                    (left, right)
                }
            },
            Stage::Saturate => (left.limit(), right.limit()),
        }
    }

    /// Takes a frame through a signal path, stage by stage.
    pub fn render(&mut self, path: &Vec<Stage>, left: N, right: N) -> (frame: (N, N))
        requires
            old(self)@.wf(),
            forall|i: int| 0 <= i < path.len() ==> is_possible(#[trigger] path@[i]),
        ensures
            final(self)@.wf(),
            (final(self)@, frame) == old(self)@.run(path@, left, right),
    {
        let mut frame = (left, right);
        let mut next: usize = 0;
        while next < path.len()
            invariant
                next <= path.len(),
                self@.wf(),
                forall|i: int| 0 <= i < path.len() ==> is_possible(#[trigger] path@[i]),
                (self@, frame) == old(self)@.run(path@.take(next as int), left, right),
            decreases path.len() - next,
        {
            assert(path@.take(next + 1).drop_last() =~= path@.take(next as int));
            frame = self.run_stage(path[next], frame.0, frame.1);
            next += 1;
        }
        assert(path@.take(next as int) =~= path@);
        frame
    }

    /// Takes a block of frames through a signal path, one after the other.
    pub fn render_block(&mut self, path: &Vec<Stage>, frames: &Vec<(N, N)>) -> (done: Vec<(N, N)>)
        requires
            old(self)@.wf(),
            forall|i: int| 0 <= i < path.len() ==> is_possible(#[trigger] path@[i]),
        ensures
            final(self)@.wf(),
            (final(self)@, done@) == old(self)@.run_block(path@, frames@),
    {
        let mut done: Vec<(N, N)> = Vec::new();
        while done.len() < frames.len()
            invariant
                done.len() <= frames.len(),
                self@.wf(),
                forall|i: int| 0 <= i < path.len() ==> is_possible(#[trigger] path@[i]),
                (self@, done@) == old(self)@.run_block(path@, frames@.take(done.len() as int)),
            decreases frames.len() - done.len(),
        {
            let next: usize = done.len();
            assert(frames@.take(next + 1).drop_last() =~= frames@.take(next as int));
            let (left, right) = frames[next];
            let frame = self.render(path, left, right);
            done.push(frame);
        }
        assert(frames@.take(done.len() as int) =~= frames@);
        done
    }
}

/// Takes a frame past the signal path: it is only limited.
pub fn bypass<N: Number>(left: N, right: N) -> (frame: (N, N))
    ensures
        frame == (left.limited(), right.limited()),
        forall|settings: Settings<N>|
            #[trigger] settings.run(signal_path(false), left, right) == (settings, frame),
{
    proof {
        assert forall|settings: Settings<N>|
            #[trigger] settings.run(signal_path(false), left, right) == (
            settings,
            (left.limited(), right.limited()),
        ) by {
            the_short_path_only_limits(settings, left, right);
        }
    }
    (left.limit(), right.limit())
}

/// Takes a block of frames past the signal path.
pub fn bypass_block<N: Number>(frames: &Vec<(N, N)>) -> (done: Vec<(N, N)>)
    ensures
        done@ == Seq::new(frames@.len(), |i: int| (frames@[i].0.limited(), frames@[i].1.limited())),
        forall|settings: Settings<N>|
            #[trigger] settings.run_block(signal_path(false), frames@) == (settings, done@),
{
    let mut done: Vec<(N, N)> = Vec::new();
    while done.len() < frames.len()
        invariant
            done.len() <= frames.len(),
            forall|i: int|
                0 <= i < done.len() ==> #[trigger] done@[i] == (
                    frames@[i].0.limited(),
                    frames@[i].1.limited(),
                ),
        decreases frames.len() - done.len(),
    {
        let (left, right) = frames[done.len()];
        done.push(bypass(left, right));
    }
    proof {
        assert forall|settings: Settings<N>|
            #[trigger] settings.run_block(signal_path(false), frames@) == (settings, done@) by {
            lemma_short_path_blocks(settings, frames@);
            assert(settings.run_block(signal_path(false), frames@).1 =~= done@);
        }
    }
    done
}

proof fn lemma_short_path_blocks<N: Operations>(settings: Settings<N>, frames: Seq<(N, N)>)
    ensures
        settings.run_block(signal_path(false), frames).0 == settings,
        settings.run_block(signal_path(false), frames).1 == Seq::new(
            frames.len(),
            |i: int| (frames[i].0.limited(), frames[i].1.limited()),
        ),
    decreases frames.len(),
{
    if frames.len() > 0 {
        lemma_short_path_blocks(settings, frames.drop_last());
        the_short_path_only_limits(settings, frames.last().0, frames.last().1);
    }
    assert(settings.run_block(signal_path(false), frames).1 =~= Seq::new(
        frames.len(),
        |i: int| (frames[i].0.limited(), frames[i].1.limited()),
    ));
}

/// Where a stream is cut into blocks makes no difference: two blocks, one after the other, are
/// played as one long block.
pub proof fn blocks_can_be_joined<N: Operations>(
    settings: Settings<N>,
    path: Seq<Stage>,
    first: Seq<(N, N)>,
    second: Seq<(N, N)>,
)
    ensures
        ({
            let (between, done) = settings.run_block(path, first);
            let (after, more) = between.run_block(path, second);
            settings.run_block(path, first + second) == (after, done + more)
        }),
    decreases second.len(),
{
    let (between, done) = settings.run_block(path, first);
    let (after, more) = between.run_block(path, second);
    if second.len() == 0 {
        assert(first + second =~= first);
        assert(done + more =~= done);
    } else {
        let before = second.drop_last();
        blocks_can_be_joined(settings, path, first, before);
        assert((first + second).drop_last() =~= first + before);
        let (_, earlier) = between.run_block(path, before);
        assert(done + more =~= (done + earlier).push(more.last()));
    }
}

/// Every stage of a signal path speaks of a filter and a band that exist.
pub proof fn signal_paths_are_possible(settings_readable: bool, at: int)
    requires
        0 <= at < signal_path(settings_readable).len(),
    ensures
        is_possible(signal_path(settings_readable)[at]),
{
}

/// While the settings cannot be read, a frame is limited and nothing else happens, whatever the
/// settings are.
pub proof fn the_short_path_only_limits<N: Operations>(settings: Settings<N>, left: N, right: N)
    ensures
        settings.run(signal_path(false), left, right) == (
            settings,
            (left.limited(), right.limited()),
        ),
{
    assert(signal_path(false).drop_last() =~= Seq::<Stage>::empty());
    reveal_with_fuel(Settings::run, 2);
}

/// Playing changes only what the filters remember and what the meters show: no parameter, no
/// tuning, no gain.
pub proof fn playing_keeps_the_settings<N: Operations>(
    settings: Settings<N>,
    path: Seq<Stage>,
    left: N,
    right: N,
    place: int,
)
    requires
        settings.wf(),
        forall|i: int| 0 <= i < path.len() ==> is_possible(#[trigger] path[i]),
        0 <= place < FILTERS,
    ensures
        ({
            let after = settings.run(path, left, right).0;
            &&& after.wf()
            &&& after.filters[place].coefficients() == settings.filters[place].coefficients()
            &&& after.filters[place].freq == settings.filters[place].freq
            &&& after.filters[place].gain_db == settings.filters[place].gain_db
            &&& after.surround_width == settings.surround_width
            &&& after.ambience_level == settings.ambience_level
            &&& after.dynamic_boost_ratio == settings.dynamic_boost_ratio
            &&& after.volume_boost_linear == settings.volume_boost_linear
        }),
    decreases path.len(),
{
    if path.len() > 0 {
        assert forall|i: int| 0 <= i < path.drop_last().len() implies is_possible(
            #[trigger] path.drop_last()[i],
        ) by {
            assert(path.drop_last()[i] == path[i]);
        }
        playing_keeps_the_settings(settings, path.drop_last(), left, right, place);
        assert(is_possible(path[path.len() - 1]));
    }
}

/// A filter that a path does not pass through remembers what it did, and a band that the path does
/// not meter shows what it did.
pub proof fn playing_touches_what_is_on_the_path<N: Operations>(
    settings: Settings<N>,
    path: Seq<Stage>,
    left: N,
    right: N,
    filter: Filter,
    band: usize,
)
    requires
        settings.wf(),
        forall|i: int| 0 <= i < path.len() ==> is_possible(#[trigger] path[i]),
        filter.exists_in_bank(),
        band < BANDS,
    ensures
        settings.run(path, left, right).0.wf(),
        !path.contains(Stage::Pass(filter)) ==> settings.run(
            path,
            left,
            right,
        ).0.filters[filter.place()] == settings.filters[filter.place()],
        !path.contains(Stage::Meter(band)) ==> settings.run(path, left, right).0.energy[band as int]
            == settings.energy[band as int],
    decreases path.len(),
{
    if path.len() > 0 {
        let before = path.drop_last();
        assert forall|i: int| 0 <= i < before.len() implies is_possible(
            #[trigger] before[i],
        ) by {
            assert(before[i] == path[i]);
        }
        playing_touches_what_is_on_the_path(settings, before, left, right, filter, band);
        assert(is_possible(path[path.len() - 1]));
        assert(path.contains(path[path.len() - 1]));
        assert forall|stage: Stage| before.contains(stage) implies path.contains(stage) by {
            assert(path[before.index_of(stage)] == stage);
        }
    }
}

/// Moving a control leaves the memories of all filters and all meters alone, and changes no filter
/// but the one whose gain it sets.
pub proof fn controls_keep_the_memories<N: Operations>(
    settings: Settings<N>,
    target: Target,
    value: N,
    sample_rate: N,
    place: int,
)
    requires
        settings.wf(),
        target.is_known(),
        0 <= place < FILTERS,
    ensures
        ({
            let after = settings.with_parameter(target, value, sample_rate);
            &&& after.wf()
            &&& after.energy == settings.energy
            &&& after.filters[place].left() == settings.filters[place].left()
            &&& after.filters[place].right() == settings.filters[place].right()
            &&& target != Target::Gain(Filter::at_place(place)) ==> after.filters[place]
                == settings.filters[place]
        }),
{
}

/// Setting a parameter again changes nothing, and of two values the later one counts.
pub proof fn the_last_value_counts<N: Operations>(
    settings: Settings<N>,
    target: Target,
    earlier: N,
    later: N,
    sample_rate: N,
)
    requires
        settings.wf(),
        target.is_known(),
    ensures
        settings.with_parameter(target, earlier, sample_rate).with_parameter(
            target,
            later,
            sample_rate,
        ) == settings.with_parameter(target, later, sample_rate),
{
    assert(settings.with_parameter(target, earlier, sample_rate).with_parameter(
        target,
        later,
        sample_rate,
    ) =~= settings.with_parameter(target, later, sample_rate));
}

/// On exact numbers a control at zero stands for the neutral parameter, the base of its curve; so
/// a new panel and a new state agree.
pub proof fn controls_at_zero_are_neutral<N: Exact>(target: Target)
    ensures
        parameter(target.response(), zero::<N>()) == N::rational(
            target.response().base as int,
            1,
        ),
{
    let curve = target.response();
    let factor = N::rational(curve.slope as int, 1000);
    lemma_times_zero(factor);
    N::times_commutes(factor, zero::<N>());
    N::zero_is_neutral(N::rational(curve.base as int, 1));
}

/// On exact numbers widening moves the channels apart around their middle: the sum of both stays
/// twice the middle, whatever the width.
pub proof fn widening_keeps_the_middle<N: Exact>(settings: Settings<N>, left: N, right: N)
    ensures
        ({
            let (l, r) = settings.frame_after(Stage::Widen, left, right);
            let mid = left.plus(right).times(N::rational(1, 2));
            l.plus(r) == mid.plus(mid)
        }),
{
    let (l, r) = settings.frame_after(Stage::Widen, left, right);
    let mid = left.plus(right).times(N::rational(1, 2));
    let side = left.minus(right).times(
        N::rational(1, 2).plus(settings.surround_width.times(N::rational(1, 2))),
    ).times(one::<N>().plus(settings.ambience_level.times(N::rational(1, 5))));
    N::plus_associates(mid, side, mid.minus(side));
    N::plus_commutes(side, mid.minus(side));
    N::minus_undoes_plus(mid, side);
}

/// Stages follow each other: going through two paths in a row is going through the joined path, and
/// a path of one stage is that stage.
pub proof fn paths_can_be_joined<N: Operations>(
    settings: Settings<N>,
    first: Seq<Stage>,
    second: Seq<Stage>,
    stage: Stage,
    left: N,
    right: N,
)
    ensures
        ({
            let (between, frame) = settings.run(first, left, right);
            settings.run(first + second, left, right) == between.run(second, frame.0, frame.1)
        }),
        settings.run(seq![stage], left, right) == (
            settings.after_stage(stage, left, right),
            settings.frame_after(stage, left, right),
        ),
    decreases second.len(),
{
    assert(seq![stage].drop_last() =~= Seq::<Stage>::empty());
    reveal_with_fuel(Settings::run, 2);
    if second.len() == 0 {
        assert(first + second =~= first);
    } else {
        paths_can_be_joined(settings, first, second.drop_last(), stage, left, right);
        assert((first + second).drop_last() =~= first + second.drop_last());
    }
}

/// A block has a frame for each frame that went in, and a block of one frame is that frame on its
/// way through the path.
pub proof fn blocks_are_made_of_frames<N: Operations>(
    settings: Settings<N>,
    path: Seq<Stage>,
    frames: Seq<(N, N)>,
    frame: (N, N),
)
    ensures
        settings.run_block(path, frames).1.len() == frames.len(),
        settings.run_block(path, seq![frame]).0 == settings.run(path, frame.0, frame.1).0,
        settings.run_block(path, seq![frame]).1 == seq![
            settings.run(path, frame.0, frame.1).1,
        ],
    decreases frames.len(),
{
    assert(seq![frame].drop_last() =~= Seq::<(N, N)>::empty());
    reveal_with_fuel(Settings::run_block, 2);
    assert(settings.run_block(path, seq![frame]).1 =~= seq![
        settings.run(path, frame.0, frame.1).1,
    ]);
    if frames.len() > 0 {
        blocks_are_made_of_frames(settings, path, frames.drop_last(), frame);
    }
}

/// Values are set one after the other, all of them: setting two lists in a row is setting the joined
/// list, and a list of one value sets that value.
pub proof fn values_can_be_joined<N: Operations>(
    settings: Settings<N>,
    first: Seq<(Target, N)>,
    second: Seq<(Target, N)>,
    target: Target,
    value: N,
    sample_rate: N,
)
    ensures
        settings.with_values(first + second, sample_rate) == settings.with_values(
            first,
            sample_rate,
        ).with_values(second, sample_rate),
        settings.with_values(seq![(target, value)], sample_rate) == settings.with_parameter(
            target,
            parameter(target.response(), value),
            sample_rate,
        ),
    decreases second.len(),
{
    assert(seq![(target, value)].drop_last() =~= Seq::<(Target, N)>::empty());
    reveal_with_fuel(Settings::with_values, 2);
    if second.len() == 0 {
        assert(first + second =~= first);
    } else {
        values_can_be_joined(settings, first, second.drop_last(), target, value, sample_rate);
        assert((first + second).drop_last() =~= first + second.drop_last());
    }
}

/// A parameter takes the value that it is given, whatever that is, and no other parameter changes. A
/// filter whose gain is set keeps its frequency and is tuned to the new gain.
pub proof fn a_parameter_takes_its_value<N: Operations>(
    settings: Settings<N>,
    target: Target,
    value: N,
    sample_rate: N,
)
    requires
        settings.wf(),
        target.is_known(),
    ensures
        ({
            let after = settings.with_parameter(target, value, sample_rate);
            &&& after.volume_boost_linear == if target is Volume {
                value
            } else {
                settings.volume_boost_linear
            }
            &&& after.surround_width == if target is Surround {
                value
            } else {
                settings.surround_width
            }
            &&& after.ambience_level == if target is Ambience {
                value
            } else {
                settings.ambience_level
            }
            &&& after.dynamic_boost_ratio == if target is Dynamics {
                value
            } else {
                settings.dynamic_boost_ratio
            }
            &&& target matches Target::Gain(filter) ==> {
                let set = after.filters[filter.place()];
                &&& set.gain_db == value
                &&& set.freq == settings.filters[filter.place()].freq
                &&& set.coefficients() == tuning(set.freq, value, sample_rate)
            }
            &&& !(target is Gain) ==> after.filters == settings.filters
        }),
{
}

/// Only filters and meters are changed by playing: the other stages leave the settings as they are,
/// and a meter leaves the frame as it is.
pub proof fn stages_change_little<N: Operations>(
    settings: Settings<N>,
    stage: Stage,
    left: N,
    right: N,
)
    ensures
        !(stage is Pass) ==> settings.after_stage(stage, left, right).filters == settings.filters,
        !(stage is Meter) ==> settings.after_stage(stage, left, right).energy == settings.energy,
        !(stage is Pass) && !(stage is Meter) ==> settings.after_stage(stage, left, right)
            == settings,
        stage is Meter ==> settings.frame_after(stage, left, right) == (left, right),
{
}

/// A stage treats both channels alike: with the filters' channels exchanged, exchanged samples come
/// out exchanged. Where the order of two numbers matters to no sum, that is true of the gain, the
/// filters, the dynamics and the limit.
pub proof fn channels_are_treated_alike<N: Operations>(
    settings: Settings<N>,
    mirrored: Settings<N>,
    stage: Stage,
    left: N,
    right: N,
)
    requires
        settings.wf(),
        is_possible(stage),
        !(stage is Widen),
        mirrored.filters == settings.filters.map_values(|filter: Biquad<N>| filter.mirrored()),
        mirrored.volume_boost_linear == settings.volume_boost_linear,
        mirrored.dynamic_boost_ratio == settings.dynamic_boost_ratio,
        left.unsigned().plus(right.unsigned()) == right.unsigned().plus(left.unsigned()),
    ensures
        mirrored.frame_after(stage, right, left) == (
            settings.frame_after(stage, left, right).1,
            settings.frame_after(stage, left, right).0,
        ),
{
}

} // verus!
