//! Text matching without regard to case.

use vstd::prelude::*;

verus! {

/// The lower-case form of a text, as `str::to_lowercase` gives it. It
/// follows the Unicode case tables, which are not written out here.
pub uninterp spec fn lowercase(text: Seq<char>) -> Seq<char>;

/// Whether `needle` occurs in `haystack` as a run of adjacent characters.
pub open spec fn occurs_in(needle: Seq<char>, haystack: Seq<char>) -> bool {
    exists|at: int|
        0 <= at <= haystack.len() - needle.len() && #[trigger] haystack.subrange(
            at,
            at + needle.len(),
        ) == needle
}

/// Whether `needle` occurs in one of `haystacks`.
pub open spec fn occurs_in_any(needle: Seq<char>, haystacks: Seq<Seq<char>>) -> bool {
    exists|i: int| 0 <= i < haystacks.len() && occurs_in(needle, #[trigger] haystacks[i])
}

/// `str::to_lowercase`: the lower-case form of `text`.
#[verifier::external_body]
pub(crate) fn fold(text: &String) -> (r: String)
    ensures
        r@ == lowercase(text@),
{
    text.to_lowercase()
}

/// `str::contains` with a string as the pattern: whether the pattern
/// matches a part of the text.
#[verifier::external_body]
fn text_contains(haystack: &String, needle: &String) -> (r: bool)
    ensures
        r == occurs_in(needle@, haystack@),
{
    haystack.contains(needle.as_str())
}

/// Whether `needle` occurs in `haystack`.
pub fn contains(haystack: &String, needle: &String) -> (r: bool)
    ensures
        r == occurs_in(needle@, haystack@),
{
    text_contains(haystack, needle)
}

/// Whether `needle` occurs in one of `haystacks`.
pub fn contains_any(haystacks: &Vec<String>, needle: &String) -> (r: bool)
    ensures
        r == occurs_in_any(needle@, crate::asset::texts_view(haystacks@)),
{
    let mut i: usize = 0;
    while i < haystacks.len()
        invariant
            i <= haystacks@.len(),
            forall|k: int|
                0 <= k < i ==> !occurs_in(needle@, #[trigger] crate::asset::texts_view(
                    haystacks@,
                )[k]),
        decreases haystacks@.len() - i,
    {
        if text_contains(&haystacks[i], needle) {
            assert(crate::asset::texts_view(haystacks@)[i as int] == haystacks@[i as int]@);
            return true;
        }
        i += 1;
    }
    false
}

/// Whether two texts are the same.
pub fn same_text(left: &String, right: &String) -> (r: bool)
    ensures
        r == (left@ == right@),
{
    *left == *right
}

} // verus!
