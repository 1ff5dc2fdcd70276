//! Searching device names: lower-casing and substring tests.
use vstd::prelude::*;
use vstd::string::*;

verus! {

/// `needle` stands in `hay` from position `at` on.
pub open spec fn occurs_at(hay: Seq<char>, needle: Seq<char>, at: int) -> bool {
    &&& 0 <= at
    &&& at + needle.len() <= hay.len()
    &&& hay.subrange(at, at + needle.len()) == needle
}

/// `needle` stands somewhere in `hay`.
pub open spec fn occurs_in(hay: Seq<char>, needle: Seq<char>) -> bool {
    exists|at: int| occurs_at(hay, needle, at)
}

/// The lower-case form that [`str::to_lowercase`] gives to a string.
pub uninterp spec fn lowercase_of(text: Seq<char>) -> Seq<char>;

/// Calls [`str::to_lowercase`]. The Unicode case mapping behind it is not spelled out: the
/// contract only says that the result depends on nothing but the characters of `text`.
#[verifier::external_body]
pub(crate) fn lowercase(text: &str) -> (lowered: String)
    ensures
        lowered@ == lowercase_of(text@),
{
    text.to_lowercase()
}

/// The characters of `text`, in order.
fn characters(text: &str) -> (chars: Vec<char>)
    ensures
        chars@ == text@,
{
    let mut chars: Vec<char> = Vec::new();
    for c in it: text.chars()
        invariant
            it.seq() == text@,
            chars@ == text@.take(it.index() as int),
    {
        chars.push(c);
    }
    chars
}

/// Whether `needle` occurs in `hay`, as a run of consecutive characters.
pub fn contains(hay: &str, needle: &str) -> (found: bool)
    ensures
        found == occurs_in(hay@, needle@),
{
    let text = characters(hay);
    let pattern = characters(needle);
    if pattern.len() > text.len() {
        return false;
    }
    let last: usize = text.len() - pattern.len();
    let mut at: usize = 0;
    while at <= last
        invariant
            text@ == hay@,
            pattern@ == needle@,
            pattern.len() <= text.len(),
            last == text.len() - pattern.len(),
            at <= last + 1,
            forall|i: int| 0 <= i < at ==> !occurs_at(hay@, needle@, i),
        decreases last + 1 - at,
    {
        let mut matched: usize = 0;
        while matched < pattern.len() && text[at + matched] == pattern[matched]
            invariant
                text@ == hay@,
                pattern@ == needle@,
                at <= last,
                last == text.len() - pattern.len(),
                pattern.len() <= text.len(),
                matched <= pattern.len(),
                forall|i: int| 0 <= i < matched ==> text@[at + i] == pattern@[i],
            decreases pattern.len() - matched,
        {
            matched += 1;
        }
        if matched == pattern.len() {
            assert(hay@.subrange(at as int, at + needle@.len()) =~= needle@);
            assert(occurs_at(hay@, needle@, at as int));
            return true;
        }
        assert(!occurs_at(hay@, needle@, at as int)) by {
            if occurs_at(hay@, needle@, at as int) {
                assert(hay@.subrange(at as int, at + needle@.len())[matched as int] == needle@[matched as int]);
            }
        }
        at += 1;
    }
    false
}

/// A string occurs in another exactly if the other is that string with something before it and
/// something behind it, be it nothing.
pub proof fn what_occurs_can_be_cut_out(hay: Seq<char>, needle: Seq<char>)
    ensures
        occurs_in(hay, needle) <==> exists|before: Seq<char>, behind: Seq<char>|
            hay == #[trigger] (before + needle + behind),
{
    if occurs_in(hay, needle) {
        let at = choose|at: int| occurs_at(hay, needle, at);
        assert(hay =~= hay.take(at) + needle + hay.skip(at + needle.len()));
    }
    if exists|before: Seq<char>, behind: Seq<char>| hay == #[trigger] (before + needle + behind) {
        let (before, behind) = choose|before: Seq<char>, behind: Seq<char>|
            hay == #[trigger] (before + needle + behind);
        it_occurs_where_it_was_put(before, needle, behind);
    }
}

/// A string occurs in whatever it was put into.
pub proof fn it_occurs_where_it_was_put(before: Seq<char>, needle: Seq<char>, behind: Seq<char>)
    ensures
        occurs_in(before + needle + behind, needle),
{
    let hay = before + needle + behind;
    let at = before.len() as int;
    assert(hay.subrange(at, at + needle.len()) =~= needle);
    assert(occurs_at(hay, needle, at));
}

/// A string that occurs in a part occurs in the whole.
pub proof fn longer_texts_hold_no_less(
    before: Seq<char>,
    hay: Seq<char>,
    behind: Seq<char>,
    needle: Seq<char>,
)
    requires
        occurs_in(hay, needle),
    ensures
        occurs_in(before + hay + behind, needle),
{
    let at = choose|at: int| occurs_at(hay, needle, at);
    let whole = before + hay + behind;
    let place = before.len() + at;
    assert(whole.subrange(place, place + needle.len()) =~= hay.subrange(at, at + needle.len()));
    assert(occurs_at(whole, needle, place));
}

} // verus!
