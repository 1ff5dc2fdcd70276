//! The text meter: one bar of four marks for each equalizer band.
use vstd::prelude::*;
use vstd::string::*;

verus! {

/// The number of marks of a bar.
pub const MARKS: usize = 4;

/// The number of lit marks of a bar for a reading of `dots`.
pub open spec fn lit(dots: usize) -> int {
    if dots < MARKS {
        dots as int
    } else {
        MARKS as int
    }
}

/// The bar for a reading: lit marks are colons, the others are periods.
pub open spec fn bar(dots: usize) -> Seq<char> {
    Seq::new(
        MARKS as nat,
        |i: int|
            if i < lit(dots) {
                ':'
            } else {
                '.'
            },
    )
}

/// The bars of all readings, each followed by a space.
pub open spec fn spaced_bars(dots: Seq<usize>) -> Seq<char>
    decreases dots.len(),
{
    if dots.len() == 0 {
        seq![]
    } else {
        spaced_bars(dots.drop_last()) + bar(dots.last()) + seq![' ']
    }
}

/// The meter line: the bars with one space between them and none around them.
pub open spec fn meter_text(dots: Seq<usize>) -> Seq<char> {
    if dots.len() == 0 {
        seq![]
    } else {
        spaced_bars(dots.drop_last()) + bar(dots.last())
    }
}

/// Appends the bar for a reading.
fn push_bar(line: &mut String, dots: usize)
    ensures
        final(line)@ == old(line)@ + bar(dots),
{
    let mut mark: usize = 0;
    assert(line@ =~= old(line)@ + bar(dots).take(0));
    while mark < MARKS
        invariant
            mark <= MARKS,
            line@ == old(line)@ + bar(dots).take(mark as int),
        decreases MARKS - mark,
    {
        proof {
            reveal_strlit(":");
            reveal_strlit(".");
            assert(bar(dots).take(mark + 1) =~= bar(dots).take(mark as int) + seq![
                bar(dots)[mark as int],
            ]);
            assert(":"@ =~= seq![':']);
            assert("."@ =~= seq!['.']);
        }
        if mark < dots {
            line.append(":");
        } else {
            line.append(".");
        }
        assert(line@ =~= old(line)@ + bar(dots).take(mark + 1));
        mark += 1;
    }
    assert(bar(dots).take(MARKS as int) =~= bar(dots));
}

/// The meter line for the readings of the bands.
pub fn meter_line(dots: &Vec<usize>) -> (line: String)
    ensures
        line@ == meter_text(dots@),
{
    let mut line = String::new();
    let mut next: usize = 0;
    while next < dots.len()
        invariant
            next <= dots.len(),
            line@ == meter_text(dots@.take(next as int)),
        decreases dots.len() - next,
    {
        let ghost shown = dots@.take(next as int);
        proof {
            reveal_strlit(" ");
            assert(" "@ =~= seq![' ']);
            assert(dots@.take(next + 1).drop_last() =~= shown);
            assert(dots@.take(next + 1).last() == dots@[next as int]);
        }
        if next > 0 {
            line.append(" ");
            assert(line@ =~= spaced_bars(shown));
        }
        push_bar(&mut line, dots[next]);
        assert(line@ =~= meter_text(dots@.take(next + 1)));
        next += 1;
    }
    assert(dots@.take(next as int) =~= dots@);
    line
}

/// The meter line is what is left of the spaced bars when the space at their end is trimmed off:
/// nothing else at either end is a space.
pub proof fn the_line_is_trimmed(dots: Seq<usize>)
    requires
        dots.len() > 0,
    ensures
        spaced_bars(dots) == meter_text(dots).push(' '),
        meter_text(dots).len() > 0,
        meter_text(dots).first() == ':' || meter_text(dots).first() == '.',
        meter_text(dots).last() == ':' || meter_text(dots).last() == '.',
{
    assert(spaced_bars(dots) =~= meter_text(dots).push(' '));
    the_bars_are_in_place(dots, 0, 0);
    the_bars_are_in_place(dots, dots.len() - 1, 3);
}

proof fn lemma_spaced_bars(dots: Seq<usize>, band: int, mark: int)
    requires
        0 <= band < dots.len(),
        0 <= mark < MARKS,
    ensures
        spaced_bars(dots).len() == 5 * dots.len(),
        spaced_bars(dots)[5 * band + mark] == bar(dots[band])[mark],
        spaced_bars(dots)[5 * band + 4] == ' ',
    decreases dots.len(),
{
    let before = dots.drop_last();
    if before.len() > 0 {
        lemma_spaced_bars(
            before,
            if band < before.len() {
                band
            } else {
                0
            },
            mark,
        );
    }
    assert(spaced_bars(before).len() == 5 * before.len());
}

/// Each band has its bar at a fixed place: mark `mark` of band `band` is the character number
/// `5 * band + mark`, lit exactly if the band's reading exceeds `mark`. The line has four
/// characters for each band and one space between two bands.
pub proof fn the_bars_are_in_place(dots: Seq<usize>, band: int, mark: int)
    requires
        0 <= band < dots.len(),
        0 <= mark < MARKS,
    ensures
        meter_text(dots).len() == 5 * dots.len() - 1,
        meter_text(dots)[5 * band + mark] == if mark < dots[band] {
            ':'
        } else {
            '.'
        },
        band + 1 < dots.len() ==> meter_text(dots)[5 * band + 4] == ' ',
{
    let before = dots.drop_last();
    if before.len() > 0 {
        lemma_spaced_bars(
            before,
            if band < before.len() {
                band
            } else {
                0
            },
            mark,
        );
    }
    assert(spaced_bars(before).len() == 5 * before.len());
}

/// The line is made of its bars: a further reading adds a space and a bar, and what stood there
/// before stays.
pub proof fn a_further_reading_adds_a_bar(dots: Seq<usize>, reading: usize)
    requires
        dots.len() > 0,
    ensures
        meter_text(dots.push(reading)) == meter_text(dots) + seq![' '] + meter_text(seq![reading]),
        meter_text(seq![reading]).len() == MARKS,
{
    assert(dots.push(reading).drop_last() =~= dots);
    assert(seq![reading].drop_last() =~= Seq::<usize>::empty());
    assert(spaced_bars(Seq::<usize>::empty()) =~= Seq::<char>::empty());
    assert(meter_text(seq![reading]) =~= bar(reading));
    assert(meter_text(dots.push(reading)) =~= meter_text(dots) + seq![' '] + meter_text(
        seq![reading],
    ));
}

} // verus!
