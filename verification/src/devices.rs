//! Choosing the capture device and the playback device by their names.
//!
//! A device whose name cannot be read is listed as `None`; for every choice it counts as a device
//! with an empty name.
use vstd::prelude::*;
use vstd::string::*;

use crate::text::{
    contains, it_occurs_where_it_was_put, lowercase, lowercase_of, occurs_in,
    what_occurs_can_be_cut_out,
};

verus! {

/// What a device is looked for as.
#[derive(Clone, Copy, Debug, PartialEq, Eq, Structural)]
pub enum Role {
    /// The virtual cable that the audio is captured from.
    Capture,
    /// A headset or stereo output, which playback prefers.
    Headset,
    /// Any other output that can be listened to.
    Speaker,
}

impl Role {
    /// A device with this lower-case name can take the role.
    pub open spec fn suits(self, lower: Seq<char>) -> bool {
        match self {
            Role::Capture => occurs_in(lower, "cable"@),
            Role::Headset => !occurs_in(lower, "cable"@) && (occurs_in(lower, "stereo"@)
                || occurs_in(lower, "a2dp"@) || occurs_in(lower, "headphone"@)),
            Role::Speaker => !occurs_in(lower, "cable"@) && !occurs_in(lower, "mapper"@),
        }
    }

    /// Whether a device with this lower-case name can take the role.
    pub fn fits(&self, lower: &str) -> (fits: bool)
        ensures
            fits == self.suits(lower@),
    {
        match *self {
            Role::Capture => contains(lower, "cable"),
            Role::Headset => !contains(lower, "cable") && (contains(lower, "stereo") || contains(
                lower,
                "a2dp",
            ) || contains(lower, "headphone")),
            Role::Speaker => !contains(lower, "cable") && !contains(lower, "mapper"),
        }
    }
}

/// The characters of each string.
pub open spec fn texts(strings: Seq<String>) -> Seq<Seq<char>> {
    strings.map_values(|s: String| s@)
}

/// The name of a device, empty where it cannot be read.
pub open spec fn readable(name: Option<String>) -> Seq<char> {
    match name {
        Some(text) => text@,
        None => seq![],
    }
}

/// The names of some devices, empty where they cannot be read.
pub open spec fn readable_names(names: Seq<Option<String>>) -> Seq<Seq<char>> {
    names.map_values(|name: Option<String>| readable(name))
}

/// The lower-case names of some devices.
pub open spec fn lowered_names(names: Seq<Option<String>>) -> Seq<Seq<char>> {
    names.map_values(|name: Option<String>| lowercase_of(readable(name)))
}

/// The first device that suits a role, if there is one.
pub open spec fn is_first(lowered: Seq<Seq<char>>, role: Role, choice: Option<usize>) -> bool {
    match choice {
        Some(at) => {
            &&& at < lowered.len()
            &&& role.suits(lowered[at as int])
            &&& forall|i: int| 0 <= i < at ==> !role.suits(#[trigger] lowered[i])
        },
        None => forall|i: int| 0 <= i < lowered.len() ==> !role.suits(#[trigger] lowered[i]),
    }
}

/// The playback choice: the first headset, and the first speaker where there is no headset.
pub open spec fn is_playback_choice(lowered: Seq<Seq<char>>, choice: Option<usize>) -> bool {
    if exists|i: int| 0 <= i < lowered.len() && Role::Headset.suits(#[trigger] lowered[i]) {
        is_first(lowered, Role::Headset, choice)
    } else {
        is_first(lowered, Role::Speaker, choice)
    }
}

/// The names of the devices that can be listened to, in order.
pub open spec fn speakers(names: Seq<Seq<char>>, lowered: Seq<Seq<char>>) -> Seq<Seq<char>>
    recommends
        names.len() == lowered.len(),
    decreases names.len(),
{
    if names.len() == 0 {
        seq![]
    } else {
        let before = speakers(names.drop_last(), lowered.drop_last());
        if Role::Speaker.suits(lowered.last()) {
            before.push(names.last())
        } else {
            before
        }
    }
}

/// A list in which each run of equal entries is reduced to one.
pub open spec fn without_repeats(list: Seq<Seq<char>>) -> Seq<Seq<char>>
    decreases list.len(),
{
    if list.len() == 0 {
        list
    } else {
        let before = without_repeats(list.drop_last());
        if before.len() > 0 && before.last() == list.last() {
            before
        } else {
            before.push(list.last())
        }
    }
}

/// The lower-case name of each device.
fn lower_all(names: &Vec<Option<String>>) -> (lowered: Vec<String>)
    ensures
        texts(lowered@) == lowered_names(names@),
{
    let mut lowered: Vec<String> = Vec::new();
    while lowered.len() < names.len()
        invariant
            lowered.len() <= names.len(),
            forall|i: int|
                0 <= i < lowered.len() ==> (#[trigger] lowered@[i])@ == lowercase_of(
                    readable(names@[i]),
                ),
        decreases names.len() - lowered.len(),
    {
        let at: usize = lowered.len();
        let lower = match &names[at] {
            Some(name) => lowercase(name.as_str()),
            None => {
                proof {
                    reveal_strlit("");
                }
                assert(""@ =~= Seq::<char>::empty());
                lowercase("")
            },
        };
        assert(lower@ == lowercase_of(readable(names@[at as int])));
        lowered.push(lower);
    }
    assert(texts(lowered@) =~= lowered_names(names@));
    lowered
}

/// The first device of a list of lower-case names that suits a role.
pub fn find_first(lowered: &Vec<String>, role: Role) -> (choice: Option<usize>)
    ensures
        is_first(texts(lowered@), role, choice),
{
    let mut at: usize = 0;
    while at < lowered.len()
        invariant
            at <= lowered.len(),
            forall|i: int| 0 <= i < at ==> !role.suits(#[trigger] texts(lowered@)[i]),
        decreases lowered.len() - at,
    {
        assert(texts(lowered@)[at as int] == lowered@[at as int]@);
        if role.fits(lowered[at].as_str()) {
            return Some(at);
        }
        at += 1;
    }
    None
}

/// The device to play on, from the lower-case names: a headset before any other speaker.
pub fn pick_output(lowered: &Vec<String>) -> (choice: Option<usize>)
    ensures
        is_playback_choice(texts(lowered@), choice),
{
    match find_first(lowered, Role::Headset) {
        Some(at) => Some(at),
        None => find_first(lowered, Role::Speaker),
    }
}

/// The device to capture from.
pub fn find_input_device(names: &Vec<Option<String>>) -> (choice: Option<usize>)
    ensures
        is_first(lowered_names(names@), Role::Capture, choice),
{
    find_first(&lower_all(names), Role::Capture)
}

/// The device to play on: the first headset, or else the first speaker.
pub fn find_output_device(names: &Vec<Option<String>>) -> (choice: Option<usize>)
    ensures
        is_playback_choice(lowered_names(names@), choice),
{
    pick_output(&lower_all(names))
}

/// The names of the devices that can be listened to, from their names and lower-case names;
/// neighbours of the same name are listed once.
pub fn list_outputs(names: &Vec<Option<String>>, lowered: &Vec<String>) -> (list: Vec<String>)
    requires
        names.len() == lowered.len(),
    ensures
        texts(list@) == without_repeats(speakers(readable_names(names@), texts(lowered@))),
{
    let ghost all = readable_names(names@);
    let ghost lower = texts(lowered@);
    let mut list: Vec<String> = Vec::new();
    let mut at: usize = 0;
    assert(texts(list@) =~= without_repeats(speakers(all.take(0), lower.take(0))));
    while at < names.len()
        invariant
            at <= names.len(),
            names.len() == lowered.len(),
            all == readable_names(names@),
            lower == texts(lowered@),
            texts(list@) == without_repeats(speakers(all.take(at as int), lower.take(at as int))),
        decreases names.len() - at,
    {
        let ghost listed = list@;
        proof {
            assert(all.take(at + 1).drop_last() =~= all.take(at as int));
            assert(lower.take(at + 1).drop_last() =~= lower.take(at as int));
            assert(lower[at as int] == lowered@[at as int]@);
            assert(all[at as int] == readable(names@[at as int]));
        }
        if Role::Speaker.fits(lowered[at].as_str()) {
            let name = match &names[at] {
                Some(name) => name.clone(),
                None => String::new(),
            };
            proof {
                let kept = speakers(all.take(at as int), lower.take(at as int));
                assert(kept.push(name@).drop_last() =~= kept);
                assert(texts(listed.push(name)) =~= texts(listed).push(name@));
            }
            if list.len() == 0 || list[list.len() - 1] != name {
                list.push(name);
            }
        }
        at += 1;
    }
    assert(all.take(at as int) =~= all);
    assert(lower.take(at as int) =~= lower);
    list
}

/// The names of the devices that can be listened to; neighbours of the same name are listed once.
pub fn available_outputs(names: &Vec<Option<String>>) -> (list: Vec<String>)
    ensures
        texts(list@) == without_repeats(
            speakers(readable_names(names@), lowered_names(names@)),
        ),
{
    let lowered = lower_all(names);
    assert(texts(lowered@).len() == names@.len());
    list_outputs(names, &lowered)
}

/// The name under which the device that plays is shown.
pub fn active_name(name: Option<String>) -> (shown: String)
    ensures
        shown@ == match name {
            Some(text) => text@,
            None => "Default Speaker"@,
        },
{
    match name {
        Some(text) => text,
        None => "Default Speaker".to_owned(),
    }
}

proof fn lemma_speakers(names: Seq<Seq<char>>, lowered: Seq<Seq<char>>, name: Seq<char>)
    requires
        names.len() == lowered.len(),
    ensures
        speakers(names, lowered).contains(name) <==> exists|i: int|
            0 <= i < names.len() && #[trigger] names[i] == name && Role::Speaker.suits(lowered[i]),
    decreases names.len(),
{
    if names.len() > 0 {
        let last = names.len() - 1;
        let before = speakers(names.drop_last(), lowered.drop_last());
        lemma_speakers(names.drop_last(), lowered.drop_last(), name);
        if before.contains(name) {
            let i = choose|i: int|
                0 <= i < last && #[trigger] names.drop_last()[i] == name && Role::Speaker.suits(
                    lowered.drop_last()[i],
                );
            assert(names[i] == name);
            let at = before.index_of(name);
            assert(speakers(names, lowered)[at] == name);
        }
        if Role::Speaker.suits(lowered.last()) {
            assert(speakers(names, lowered).last() == names.last());
        }
        if exists|i: int|
            0 <= i < names.len() && #[trigger] names[i] == name && Role::Speaker.suits(
                lowered[i],
            ) {
            let i = choose|i: int|
                0 <= i < names.len() && #[trigger] names[i] == name && Role::Speaker.suits(
                    lowered[i],
                );
            if i < last {
                assert(names.drop_last()[i] == name);
            } else {
                assert(speakers(names, lowered).last() == name);
            }
        }
    }
}

proof fn lemma_without_repeats(list: Seq<Seq<char>>, entry: Seq<char>)
    ensures
        without_repeats(list).len() <= list.len(),
        list.len() > 0 ==> without_repeats(list).len() > 0 && without_repeats(list).last()
            == list.last(),
        without_repeats(list).contains(entry) <==> list.contains(entry),
        forall|i: int|
            0 < i < without_repeats(list).len() ==> #[trigger] without_repeats(list)[i]
                != without_repeats(list)[i - 1],
    decreases list.len(),
{
    if list.len() > 0 {
        let before = without_repeats(list.drop_last());
        let whole = without_repeats(list);
        lemma_without_repeats(list.drop_last(), entry);
        if list.drop_last().contains(entry) {
            assert(list[list.drop_last().index_of(entry)] == entry);
            assert(whole[before.index_of(entry)] == entry);
        }
        if list.contains(entry) && !list.drop_last().contains(entry) {
            let i = list.index_of(entry);
            if i < list.len() - 1 {
                assert(list.drop_last()[i] == entry);
            }
            assert(whole.last() == entry);
        }
        if whole.contains(entry) && !before.contains(entry) {
            let i = whole.index_of(entry);
            if i < before.len() {
                assert(before[i] == entry);
            }
            assert(list.last() == entry);
        }
    }
}

/// The cable that audio is captured from is never played on, so the engine cannot feed itself.
pub proof fn playback_avoids_the_cable(lowered: Seq<Seq<char>>, choice: Option<usize>)
    requires
        is_playback_choice(lowered, choice),
        choice is Some,
    ensures
        choice->0 < lowered.len(),
        !Role::Capture.suits(lowered[choice->0 as int]),
{
}

/// Playback finds a device exactly if there is a headset or a speaker, and where there is a
/// headset it takes one.
pub proof fn playback_prefers_headsets(lowered: Seq<Seq<char>>, choice: Option<usize>, at: int)
    requires
        is_playback_choice(lowered, choice),
        0 <= at < lowered.len(),
    ensures
        Role::Headset.suits(lowered[at]) ==> choice is Some && choice->0 <= at
            && Role::Headset.suits(lowered[choice->0 as int]),
        Role::Speaker.suits(lowered[at]) ==> choice is Some,
        choice is Some ==> choice->0 < lowered.len() && (Role::Headset.suits(
            lowered[choice->0 as int],
        ) || Role::Speaker.suits(lowered[choice->0 as int])),
{
    if Role::Headset.suits(lowered[at]) {
        assert(exists|i: int| 0 <= i < lowered.len() && Role::Headset.suits(#[trigger] lowered[i]));
    }
}

/// A choice is unique: the same devices always give the same device.
pub proof fn the_choice_is_unique(
    lowered: Seq<Seq<char>>,
    role: Role,
    one: Option<usize>,
    other: Option<usize>,
)
    ensures
        is_first(lowered, role, one) && is_first(lowered, role, other) ==> one == other,
        is_playback_choice(lowered, one) && is_playback_choice(lowered, other) ==> one == other,
{
}

/// The list of outputs names each device that can be listened to and no other, and never the same
/// name twice in a row.
pub proof fn the_list_names_the_speakers(
    names: Seq<Option<String>>,
    lowered: Seq<Seq<char>>,
    name: Seq<char>,
)
    requires
        names.len() == lowered.len(),
    ensures
        ({
            let list = without_repeats(speakers(readable_names(names), lowered));
            &&& list.contains(name) <==> exists|i: int|
                0 <= i < names.len() && readable(#[trigger] names[i]) == name
                    && Role::Speaker.suits(lowered[i])
            &&& forall|i: int| 0 < i < list.len() ==> #[trigger] list[i] != list[i - 1]
        }),
{
    let all = readable_names(names);
    lemma_speakers(all, lowered, name);
    lemma_without_repeats(speakers(all, lowered), name);
    if exists|i: int|
        0 <= i < names.len() && readable(#[trigger] names[i]) == name && Role::Speaker.suits(
            lowered[i],
        ) {
        let i = choose|i: int|
            0 <= i < names.len() && readable(#[trigger] names[i]) == name && Role::Speaker.suits(
                lowered[i],
            );
        assert(all[i] == name);
    }
    if exists|i: int|
        0 <= i < all.len() && #[trigger] all[i] == name && Role::Speaker.suits(lowered[i]) {
        let i = choose|i: int|
            0 <= i < all.len() && #[trigger] all[i] == name && Role::Speaker.suits(lowered[i]);
        assert(readable(names[i]) == name);
    }
}

/// The device that plays is on the list of outputs, unless it is a headset that is at the same
/// time a mapper.
pub proof fn the_active_device_is_listed(
    names: Seq<Option<String>>,
    lowered: Seq<Seq<char>>,
    choice: Option<usize>,
)
    requires
        names.len() == lowered.len(),
        is_playback_choice(lowered, choice),
        choice is Some,
        !occurs_in(lowered[choice->0 as int], "mapper"@),
    ensures
        without_repeats(speakers(readable_names(names), lowered)).contains(
            readable(names[choice->0 as int]),
        ),
{
    let at = choice->0 as int;
    the_list_names_the_speakers(names, lowered, readable(names[at]));
}

/// The words that tell what a device is: with any of its words in the name, and without the word for
/// the cable, a device is a headset; with the word for the cable it can only be captured from.
pub proof fn words_tell_what_a_device_is(before: Seq<char>, behind: Seq<char>)
    ensures
        Role::Capture.suits(before + "cable"@ + behind),
        !Role::Headset.suits(before + "cable"@ + behind),
        !Role::Speaker.suits(before + "cable"@ + behind),
        !Role::Speaker.suits(before + "mapper"@ + behind),
        Role::Headset.suits(before + "stereo"@ + behind) || Role::Capture.suits(
            before + "stereo"@ + behind,
        ),
        Role::Headset.suits(before + "a2dp"@ + behind) || Role::Capture.suits(
            before + "a2dp"@ + behind,
        ),
        Role::Headset.suits(before + "headphone"@ + behind) || Role::Capture.suits(
            before + "headphone"@ + behind,
        ),
{
    it_occurs_where_it_was_put(before, "cable"@, behind);
    it_occurs_where_it_was_put(before, "mapper"@, behind);
    it_occurs_where_it_was_put(before, "stereo"@, behind);
    it_occurs_where_it_was_put(before, "a2dp"@, behind);
    it_occurs_where_it_was_put(before, "headphone"@, behind);
}

/// Without those words a device is no headset and nothing to capture from. Any device can be
/// listened to but a cable and a mapper.
pub proof fn other_devices_are_speakers(lower: Seq<char>)
    ensures
        Role::Capture.suits(lower) ==> exists|before: Seq<char>, behind: Seq<char>|
            lower == #[trigger] (before + "cable"@ + behind),
        Role::Headset.suits(lower) ==> {
            ||| exists|before: Seq<char>, behind: Seq<char>|
                lower == #[trigger] (before + "stereo"@ + behind)
            ||| exists|before: Seq<char>, behind: Seq<char>|
                lower == #[trigger] (before + "a2dp"@ + behind)
            ||| exists|before: Seq<char>, behind: Seq<char>|
                lower == #[trigger] (before + "headphone"@ + behind)
        },
        !Role::Speaker.suits(lower) ==> {
            ||| exists|before: Seq<char>, behind: Seq<char>|
                lower == #[trigger] (before + "cable"@ + behind)
            ||| exists|before: Seq<char>, behind: Seq<char>|
                lower == #[trigger] (before + "mapper"@ + behind)
        },
        !(Role::Capture.suits(lower) && Role::Headset.suits(lower)),
        !(Role::Capture.suits(lower) && Role::Speaker.suits(lower)),
{
    what_occurs_can_be_cut_out(lower, "cable"@);
    what_occurs_can_be_cut_out(lower, "stereo"@);
    what_occurs_can_be_cut_out(lower, "a2dp"@);
    what_occurs_can_be_cut_out(lower, "headphone"@);
    what_occurs_can_be_cut_out(lower, "mapper"@);
}

/// The first device counts: devices behind the one that was found change nothing, and unsuitable
/// ones before it only move it. A device is found wherever one suits.
pub proof fn the_first_device_counts(
    lowered: Seq<Seq<char>>,
    more: Seq<Seq<char>>,
    role: Role,
    choice: Option<usize>,
    longer: Option<usize>,
    at: int,
)
    requires
        is_first(lowered, role, choice),
        is_first(lowered + more, role, longer),
        0 <= at < lowered.len(),
    ensures
        role.suits(lowered[at]) ==> choice is Some && choice->0 <= at,
        choice is Some ==> choice->0 < lowered.len() && role.suits(lowered[choice->0 as int]),
        choice is Some ==> longer == choice,
        choice is None && longer is Some ==> longer->0 >= lowered.len(),
{
    if choice is Some {
        let first = choice->0 as int;
        assert((lowered + more)[first] == lowered[first]);
        if longer is Some && longer->0 < choice->0 {
            assert((lowered + more)[longer->0 as int] == lowered[longer->0 as int]);
        }
    }
    if longer is Some && longer->0 < lowered.len() {
        assert((lowered + more)[longer->0 as int] == lowered[longer->0 as int]);
    }
}

/// The outputs of joined lists of devices are the joined outputs, in their order.
pub proof fn outputs_keep_their_order(
    names: Seq<Seq<char>>,
    lowered: Seq<Seq<char>>,
    more_names: Seq<Seq<char>>,
    more_lowered: Seq<Seq<char>>,
)
    requires
        names.len() == lowered.len(),
        more_names.len() == more_lowered.len(),
    ensures
        speakers(names + more_names, lowered + more_lowered) == speakers(names, lowered) + speakers(
            more_names,
            more_lowered,
        ),
    decreases more_names.len(),
{
    if more_names.len() == 0 {
        assert(names + more_names =~= names);
        assert(lowered + more_lowered =~= lowered);
        assert(speakers(names, lowered) + speakers(more_names, more_lowered) =~= speakers(
            names,
            lowered,
        ));
    } else {
        outputs_keep_their_order(names, lowered, more_names.drop_last(), more_lowered.drop_last());
        assert((names + more_names).drop_last() =~= names + more_names.drop_last());
        assert((lowered + more_lowered).drop_last() =~= lowered + more_lowered.drop_last());
        assert(speakers(names + more_names, lowered + more_lowered) =~= speakers(names, lowered)
            + speakers(more_names, more_lowered));
    }
}

/// A single device is an output under its own name, unless it is a cable or a mapper.
pub proof fn one_device_is_one_output(name: Seq<char>, lower: Seq<char>)
    ensures
        speakers(seq![name], seq![lower]) == if occurs_in(lower, "cable"@) || occurs_in(
            lower,
            "mapper"@,
        ) {
            Seq::<Seq<char>>::empty()
        } else {
            seq![name]
        },
{
    assert(seq![name].drop_last() =~= Seq::<Seq<char>>::empty());
    assert(seq![lower].drop_last() =~= Seq::<Seq<char>>::empty());
    reveal_with_fuel(speakers, 2);
    assert(Seq::<Seq<char>>::empty().push(name) =~= seq![name]);
}

/// A list without equal neighbours stays as it is, even where a name comes back later.
pub proof fn distinct_neighbours_stay(list: Seq<Seq<char>>)
    requires
        forall|i: int| 0 < i < list.len() ==> #[trigger] list[i] != list[i - 1],
    ensures
        without_repeats(list) == list,
    decreases list.len(),
{
    if list.len() > 0 {
        let before = list.drop_last();
        assert forall|i: int| 0 < i < before.len() implies #[trigger] before[i] != before[i - 1] by {
            assert(list[i] != list[i - 1]);
        }
        distinct_neighbours_stay(before);
        if before.len() > 0 {
            assert(list[list.len() - 1] != list[list.len() - 2]);
        }
        assert(before.push(list.last()) =~= list);
    }
}

/// Of two equal neighbours one is enough, wherever they stand.
pub proof fn equal_neighbours_are_listed_once(
    before: Seq<Seq<char>>,
    name: Seq<char>,
    behind: Seq<Seq<char>>,
)
    ensures
        without_repeats(before + seq![name, name] + behind) == without_repeats(
            before + seq![name] + behind,
        ),
    decreases behind.len(),
{
    let twice = before + seq![name, name] + behind;
    let once = before + seq![name] + behind;
    if behind.len() == 0 {
        assert(twice.drop_last() =~= once);
        lemma_without_repeats(once, name);
    } else {
        equal_neighbours_are_listed_once(before, name, behind.drop_last());
        assert(twice.drop_last() =~= before + seq![name, name] + behind.drop_last());
        assert(once.drop_last() =~= before + seq![name] + behind.drop_last());
    }
}

/// Each name that is looked at belongs to the device in the same place: its own name where it can be
/// read, and an empty one where it cannot.
pub proof fn names_stay_in_place(names: Seq<Option<String>>, at: int)
    requires
        0 <= at < names.len(),
    ensures
        readable_names(names).len() == names.len(),
        lowered_names(names).len() == names.len(),
        names[at] matches Some(name) ==> readable_names(names)[at] == name@
            && lowered_names(names)[at] == lowercase_of(name@),
        names[at] is None ==> readable_names(names)[at].len() == 0 && lowered_names(names)[at]
            == lowercase_of(Seq::<char>::empty()),
{
}

/// Without a headset playback takes the first speaker, and with one it takes the first headset, be
/// there speakers before it or not. Where there is neither it takes nothing.
pub proof fn playback_takes_the_first_of_its_kind(
    lowered: Seq<Seq<char>>,
    choice: Option<usize>,
    at: int,
    other: int,
)
    requires
        is_playback_choice(lowered, choice),
        0 <= at < lowered.len(),
        0 <= other < lowered.len(),
    ensures
        Role::Headset.suits(lowered[at]) ==> choice is Some && choice->0 <= at,
        Role::Speaker.suits(lowered[at]) && choice is Some && !Role::Headset.suits(
            lowered[choice->0 as int],
        ) ==> choice->0 <= at,
        choice is Some && Role::Headset.suits(lowered[other]) ==> Role::Headset.suits(
            lowered[choice->0 as int],
        ),
        choice is None ==> !Role::Headset.suits(lowered[at]) && !Role::Speaker.suits(lowered[at]),
{
    playback_prefers_headsets(lowered, choice, at);
    playback_prefers_headsets(lowered, choice, other);
    if choice is Some && !Role::Headset.suits(lowered[choice->0 as int]) && exists|i: int|
        0 <= i < lowered.len() && Role::Headset.suits(#[trigger] lowered[i]) {
        let i = choose|i: int| 0 <= i < lowered.len() && Role::Headset.suits(#[trigger] lowered[i]);
        playback_prefers_headsets(lowered, choice, i);
    }
}

} // verus!
