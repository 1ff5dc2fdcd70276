//! The filter bank and the order in which a frame passes through it.
use vstd::prelude::*;

verus! {

/// The number of equalizer bands.
pub const BANDS: usize = 10;

/// The number of filters: the equalizer bands and three fixed filters.
pub const FILTERS: usize = 13;

/// One filter of the bank.
#[derive(Clone, Copy, Debug, PartialEq, Eq, Structural)]
pub enum Filter {
    /// An equalizer band, counted from zero.
    Band(usize),
    /// The presence boost of the clarity control.
    ClarityBoost,
    /// The low-mid cut of the clarity control.
    ClarityMudCut,
    /// The sub-bass boost of the bass control.
    BassSubBoost,
}

/// The center frequencies of the equalizer bands, in hertz.
pub open spec fn band_frequencies() -> Seq<u32> {
    seq![22, 44, 240, 397, 735, 1360, 2520, 4670, 9100, 16000]
}

impl Filter {
    /// The filter belongs to the bank.
    pub open spec fn exists_in_bank(self) -> bool {
        self matches Filter::Band(band) ==> band < BANDS
    }

    /// The place of a filter in the bank: the bands first, then the fixed filters.
    pub open spec fn place(self) -> int {
        match self {
            Filter::Band(band) => band as int,
            Filter::ClarityBoost => 10,
            Filter::ClarityMudCut => 11,
            Filter::BassSubBoost => 12,
        }
    }

    /// The filter at a place of the bank.
    pub open spec fn at_place(place: int) -> Filter {
        if place == 10 {
            Filter::ClarityBoost
        } else if place == 11 {
            Filter::ClarityMudCut
        } else if place == 12 {
            Filter::BassSubBoost
        } else {
            Filter::Band(place as usize)
        }
    }

    /// The center frequency of a filter of the bank, in hertz.
    pub open spec fn center(self) -> u32 {
        match self {
            Filter::Band(band) => band_frequencies()[band as int],
            Filter::ClarityBoost => 3800,
            Filter::ClarityMudCut => 250,
            Filter::BassSubBoost => 35,
        }
    }

    /// The place of the filter in the bank.
    pub fn slot(&self) -> (slot: usize)
        requires
            self.exists_in_bank(),
        ensures
            slot == self.place(),
            slot < FILTERS,
    {
        match *self {
            Filter::Band(band) => band,
            Filter::ClarityBoost => 10,
            Filter::ClarityMudCut => 11,
            Filter::BassSubBoost => 12,
        }
    }

    /// The center frequency of the filter, in hertz.
    pub fn frequency(&self) -> (hertz: u32)
        requires
            self.exists_in_bank(),
        ensures
            hertz == self.center(),
    {
        match *self {
            Filter::Band(band) => {
                let frequencies: [u32; 10] = [22, 44, 240, 397, 735, 1360, 2520, 4670, 9100, 16000];
                assert(frequencies@ =~= band_frequencies());
                frequencies[band]
            },
            Filter::ClarityBoost => 3800,
            Filter::ClarityMudCut => 250,
            Filter::BassSubBoost => 35,
        }
    }

    /// Every filter of the bank, each at its place.
    pub fn bank() -> (filters: Vec<Filter>)
        ensures
            filters@ == Seq::new(FILTERS as nat, |i: int| Filter::at_place(i)),
    {
        let mut filters: Vec<Filter> = Vec::new();
        let mut band: usize = 0;
        while band < BANDS
            invariant
                band <= BANDS,
                filters@ =~= Seq::new(band as nat, |i: int| Filter::at_place(i)),
            decreases BANDS - band,
        {
            filters.push(Filter::Band(band));
            band += 1;
        }
        filters.push(Filter::ClarityBoost);
        filters.push(Filter::ClarityMudCut);
        filters.push(Filter::BassSubBoost);
        assert(filters@ =~= Seq::new(FILTERS as nat, |i: int| Filter::at_place(i)));
        filters
    }
}

/// One step of what happens to a frame on its way to the output.
#[derive(Clone, Copy, Debug, PartialEq, Eq, Structural)]
pub enum Stage {
    /// Both channels are multiplied by the input gain.
    Gain,
    /// Both channels pass through a filter.
    Pass(Filter),
    /// The energy of an equalizer band is updated from both channels.
    Meter(usize),
    /// The stereo image is widened around its middle.
    Widen,
    /// Loud frames are scaled by the dynamic ratio.
    Dynamics,
    /// Both channels are limited softly.
    Saturate,
}

/// The stages of the equalizer: each band's filter, and right behind it the band's meter.
pub open spec fn equalizer_path(bands: nat) -> Seq<Stage> {
    Seq::new(
        2 * bands,
        |i: int|
            if i % 2 == 0 {
                Stage::Pass(Filter::Band((i / 2) as usize))
            } else {
                Stage::Meter((i / 2) as usize)
            },
    )
}

/// The stages of a frame, in order. While the controls are being changed the settings cannot be
/// read; a frame is then only limited.
pub open spec fn signal_path(settings_readable: bool) -> Seq<Stage> {
    if settings_readable {
        seq![Stage::Gain, Stage::Pass(Filter::BassSubBoost)] + equalizer_path(BANDS as nat) + seq![
            Stage::Pass(Filter::ClarityMudCut),
            Stage::Pass(Filter::ClarityBoost),
            Stage::Widen,
            Stage::Dynamics,
            Stage::Saturate,
        ]
    } else {
        seq![Stage::Saturate]
    }
}

/// The stages that a frame goes through, in order.
pub fn stages(settings_readable: bool) -> (path: Vec<Stage>)
    ensures
        path@ == signal_path(settings_readable),
{
    let mut path: Vec<Stage> = Vec::new();
    if settings_readable {
        path.push(Stage::Gain);
        path.push(Stage::Pass(Filter::BassSubBoost));
        let ghost head = path@;
        let mut band: usize = 0;
        while band < BANDS
            invariant
                band <= BANDS,
                path@ =~= head + equalizer_path(band as nat),
            decreases BANDS - band,
        {
            path.push(Stage::Pass(Filter::Band(band)));
            path.push(Stage::Meter(band));
            band += 1;
        }
        path.push(Stage::Pass(Filter::ClarityMudCut));
        path.push(Stage::Pass(Filter::ClarityBoost));
        path.push(Stage::Widen);
        path.push(Stage::Dynamics);
    }
    path.push(Stage::Saturate);
    assert(path@ =~= signal_path(settings_readable));
    path
}

/// Each filter of the bank has a place of its own, and each place holds a filter.
pub proof fn places_tell_filters_apart(filter: Filter, place: int)
    ensures
        filter.exists_in_bank() ==> 0 <= filter.place() < FILTERS && Filter::at_place(
            filter.place(),
        ) == filter,
        0 <= place < FILTERS ==> Filter::at_place(place).exists_in_bank() && Filter::at_place(
            place,
        ).place() == place,
{
}

/// The position of a filter in the signal path.
pub open spec fn position_in_path(filter: Filter) -> int {
    match filter {
        Filter::BassSubBoost => 1,
        Filter::Band(band) => 2 + 2 * band,
        Filter::ClarityMudCut => 22,
        Filter::ClarityBoost => 23,
    }
}

/// While the settings can be read, a frame passes through each filter of the bank exactly once.
pub proof fn each_filter_is_passed_once(filter: Filter, at: int)
    requires
        filter.exists_in_bank(),
        0 <= at < signal_path(true).len(),
    ensures
        0 <= position_in_path(filter) < signal_path(true).len(),
        signal_path(true)[at] == Stage::Pass(filter) <==> at == position_in_path(filter),
{
}

/// Each band is metered exactly once, and from what its own filter has just put out.
pub proof fn each_band_is_metered_behind_its_filter(band: usize, at: int)
    requires
        band < BANDS,
        0 <= at < signal_path(true).len(),
    ensures
        signal_path(true)[at] == Stage::Meter(band) <==> at == position_in_path(Filter::Band(band))
            + 1,
{
}

/// Whatever happens before, a frame is limited last, and only once.
pub proof fn every_frame_is_limited_last(settings_readable: bool, at: int)
    requires
        0 <= at < signal_path(settings_readable).len(),
    ensures
        signal_path(settings_readable)[at] == Stage::Saturate <==> at == signal_path(
            settings_readable,
        ).len() - 1,
{
}

/// The equalizer bands run from low to high.
pub proof fn bands_ascend(low: usize, high: usize)
    requires
        low < high < BANDS,
    ensures
        Filter::Band(low).center() < Filter::Band(high).center(),
{
}

/// Every stage stands in the path once.
pub proof fn no_stage_is_repeated(settings_readable: bool)
    ensures
        signal_path(settings_readable).no_duplicates(),
{
}

/// While the settings can be read there is a stage for the gain, the width, the dynamics and the
/// limit, one for each filter and one for each meter, and no other.
pub proof fn every_stage_is_on_the_path(stage: Stage)
    ensures
        signal_path(true).contains(stage) <==> match stage {
            Stage::Pass(filter) => filter.exists_in_bank(),
            Stage::Meter(band) => band < BANDS,
            _ => true,
        },
{
    let path = signal_path(true);
    assert(path[0] == Stage::Gain);
    assert(path[24] == Stage::Widen);
    assert(path[25] == Stage::Dynamics);
    assert(path[26] == Stage::Saturate);
    if let Stage::Pass(filter) = stage {
        if filter.exists_in_bank() {
            assert(path[position_in_path(filter)] == stage);
        }
    }
    if let Stage::Meter(band) = stage {
        if band < BANDS {
            assert(path[position_in_path(Filter::Band(band)) + 1] == stage);
        }
    }
}

/// The order of the stages: the gain, the bass filter, the bands from low to high, each with its
/// meter behind it, the cut of the clarity control, its boost, the width, the dynamics, the limit.
pub proof fn stages_come_in_order(earlier: int, later: int)
    requires
        0 <= earlier < later < signal_path(true).len(),
    ensures
        ({
            let (first, second) = (signal_path(true)[earlier], signal_path(true)[later]);
            &&& !(second is Gain)
            &&& second == Stage::Pass(Filter::BassSubBoost) ==> first is Gain
            &&& first matches Stage::Pass(Filter::Band(low)) ==> {
                &&& second matches Stage::Pass(Filter::Band(high)) ==> low < high
                &&& second matches Stage::Meter(high) ==> low <= high
            }
            &&& first matches Stage::Meter(low) ==> {
                &&& second matches Stage::Pass(Filter::Band(high)) ==> low < high
                &&& second matches Stage::Meter(high) ==> low < high
            }
            &&& first == Stage::Pass(Filter::ClarityMudCut) ==> second == Stage::Pass(
                Filter::ClarityBoost,
            ) || second is Widen || second is Dynamics || second is Saturate
            &&& first == Stage::Pass(Filter::ClarityBoost) ==> second is Widen || second is Dynamics
                || second is Saturate
            &&& first is Widen ==> second is Dynamics || second is Saturate
            &&& first is Dynamics ==> second is Saturate
            &&& !(first is Saturate)
        }),
{
}

} // verus!
