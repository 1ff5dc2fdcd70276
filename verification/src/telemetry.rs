//! The report that the dashboard receives.
use vstd::prelude::*;
use vstd::string::*;

use crate::devices::texts;
use crate::meter::{meter_line, meter_text, the_bars_are_in_place, MARKS};
use crate::number::{Number, Operations};
use crate::reals::lemma_fractions;

verus! {

/// A report for the dashboard.
pub struct TelemetryMessage<N> {
    pub msg_type: String,
    pub active_device: String,
    pub available_devices: Vec<String>,
    pub levels: Vec<N>,
    pub ascii_beat: String,
}

/// The number of meter marks that an energy stands for.
pub open spec fn dots_for<N: Operations>(energy: N) -> usize {
    energy.times(N::rational(18, 1)).whole_part()
}

/// The meter readings for the energies of the bands.
pub open spec fn dots_of<N: Operations>(energies: Seq<N>) -> Seq<usize> {
    energies.map_values(|energy: N| dots_for(energy))
}

/// The report on the current devices and band energies.
pub fn report<N: Number>(active: &str, available: &Vec<String>, energies: &Vec<N>) -> (message:
    TelemetryMessage<N>)
    ensures
        message.msg_type@ == "telemetry"@,
        message.active_device@ == active@,
        texts(message.available_devices@) == texts(available@),
        message.levels@ == energies@,
        message.ascii_beat@ == meter_text(dots_of(energies@)),
        energies.len() > 0 ==> message.ascii_beat@.len() == 5 * energies.len() - 1,
        forall|i: int|
            0 <= i < available.len() ==> (#[trigger] message.available_devices@[i])@
                == available@[i]@,
{
    let mut available_devices: Vec<String> = Vec::new();
    while available_devices.len() < available.len()
        invariant
            available_devices.len() <= available.len(),
            forall|i: int|
                0 <= i < available_devices.len() ==> (#[trigger] available_devices@[i])@
                    == available@[i]@,
        decreases available.len() - available_devices.len(),
    {
        let name = available[available_devices.len()].clone();
        available_devices.push(name);
    }
    assert(texts(available_devices@) =~= texts(available@));
    let mut levels: Vec<N> = Vec::new();
    let mut dots: Vec<usize> = Vec::new();
    while levels.len() < energies.len()
        invariant
            levels.len() <= energies.len(),
            levels@ =~= energies@.take(levels@.len() as int),
            dots@ =~= dots_of(energies@).take(levels@.len() as int),
        decreases energies.len() - levels.len(),
    {
        let energy = energies[levels.len()];
        levels.push(energy);
        dots.push(energy.product(N::ratio(18, 1)).count());
    }
    assert(levels@ =~= energies@);
    assert(dots@ =~= dots_of(energies@));
    proof {
        the_line_has_a_bar_for_each_energy(energies@);
    }
    TelemetryMessage {
        msg_type: "telemetry".to_owned(),
        active_device: active.to_owned(),
        available_devices,
        levels,
        ascii_beat: meter_line(&dots),
    }
}

/// Every energy has its reading, in its place, however many there are: a reading depends on nothing
/// but its own energy, and the readings of joined lists are the joined readings.
pub proof fn each_energy_has_its_reading<N: Operations>(
    first: Seq<N>,
    second: Seq<N>,
    energies: Seq<N>,
    at: int,
)
    requires
        0 <= at < energies.len(),
    ensures
        dots_of(first + second) == dots_of(first) + dots_of(second),
        dots_of(energies).len() == energies.len(),
        dots_of(energies)[at] == energies[at].times(N::rational(18, 1)).whole_part(),
        dots_of(seq![energies[at]]) == seq![dots_of(energies)[at]],
{
    assert(dots_of(first + second) =~= dots_of(first) + dots_of(second));
    assert(dots_of(seq![energies[at]]) =~= seq![dots_of(energies)[at]]);
}

/// The line has a bar for every energy: four marks each, and a space between two.
pub proof fn the_line_has_a_bar_for_each_energy<N: Operations>(energies: Seq<N>)
    ensures
        energies.len() > 0 ==> meter_text(dots_of(energies)).len() == 5 * energies.len() - 1,
        energies.len() == 0 ==> meter_text(dots_of(energies)).len() == 0,
{
    if energies.len() > 0 {
        the_bars_are_in_place(dots_of(energies), 0, 0);
    }
}

/// On real numbers a mark is lit exactly if the energy of its band reaches as many eighteenths as
/// the mark stands for: one for the first mark, four for the last.
pub proof fn marks_stand_for_eighteenths(energies: Seq<real>, band: int, mark: int)
    requires
        0 <= band < energies.len(),
        0 <= mark < MARKS,
    ensures
        meter_text(dots_of(energies))[5 * band + mark] == ':' <==> energies[band] * 18real >= (mark
            + 1) as real,
        meter_text(dots_of(energies))[5 * band + mark] != ':' <==> meter_text(
            dots_of(energies),
        )[5 * band + mark] == '.',
{
    lemma_fractions();
    assert(real::rational(18, 1) == 18real);
    the_bars_are_in_place(dots_of(energies), band, mark);
    let x = energies[band] * 18real;
    assert(dots_of(energies)[band] == x.whole_part());
}

/// A louder band never has fewer marks lit.
pub proof fn louder_bands_show_no_less(quiet: real, loud: real)
    requires
        quiet <= loud,
    ensures
        dots_for(quiet) <= dots_for(loud),
{
    lemma_fractions();
    assert(real::rational(18, 1) == 18real);
}

} // verus!
