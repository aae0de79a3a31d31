//! Lowercasing, character by character.
//!
//! Each character is replaced by its lowercase mapping, whatever stands
//! round it: the lowercase form of a text is the concatenation of the
//! mappings of its characters. A text that contains another therefore still
//! contains it when both are put in lowercase.

use vstd::prelude::*;
use vstd::string::StringExecFns;
use crate::substring::{contains, occurs_at};

verus! {

/// The lowercase mapping of one character: the characters that
/// `char::to_lowercase` yields for it, in order.
pub uninterp spec fn char_lowercase(c: char) -> Seq<char>;

/// The lowercase form of `text`: the lowercase mappings of its characters,
/// one after the other.
pub open spec fn lowercase(text: Seq<char>) -> Seq<char>
    decreases text.len(),
{
    if text.len() == 0 {
        Seq::empty()
    } else {
        lowercase(text.drop_last()) + char_lowercase(text.last())
    }
}

/// Lowercasing distributes over concatenation.
pub proof fn lemma_lowercase_concat(a: Seq<char>, b: Seq<char>)
    ensures
        lowercase(a + b) == lowercase(a) + lowercase(b),
    decreases b.len(),
{
    if b.len() > 0 {
        assert((a + b).drop_last() =~= a + b.drop_last());
        lemma_lowercase_concat(a, b.drop_last());
    }
}

/// A text that contains another still contains it after both are put in
/// lowercase.
pub proof fn lemma_lowercase_keeps_match(hay: Seq<char>, needle: Seq<char>)
    requires
        contains(hay, needle),
    ensures
        contains(lowercase(hay), lowercase(needle)),
{
    let at = choose|at: int| occurs_at(hay, needle, at);
    let before = hay.take(at);
    let after = hay.skip(at + needle.len());
    assert(hay =~= before + needle + after);
    lemma_lowercase_concat(before + needle, after);
    lemma_lowercase_concat(before, needle);
    let low_at = lowercase(before).len() as int;
    assert(lowercase(hay).subrange(low_at, low_at + lowercase(needle).len()) =~= lowercase(
        needle,
    ));
    assert(occurs_at(lowercase(hay), lowercase(needle), low_at));
}

/// The lowercase mapping of `c`, as a string.
///
/// Not proved: the body calls `char::to_lowercase` of the standard library
/// and collects what it yields. The contract gives that result its name and
/// so claims one thing of it, that it depends on `c` alone; the standard
/// library documents the mapping as unconditional, taken from the Unicode
/// character database without regard to locale or context.
#[verifier::external_body]
fn lowercase_of_char(c: char) -> (lowered: String)
    ensures
        lowered@ == char_lowercase(c),
{
    c.to_lowercase().collect()
}

/// The lowercase form of `text`.
pub fn to_lowercase(text: &str) -> (lowered: String)
    ensures
        lowered@ == lowercase(text@),
{
    let mut lowered = String::new();
    let chars = text.chars();
    for c in it: chars
        invariant
            it.seq() == text@,
            lowered@ == lowercase(text@.take(it.index() as int)),
    {
        proof {
            let upto = text@.take(it.index() + 1);
            assert(upto.drop_last() =~= text@.take(it.index() as int));
        }
        let mapped = lowercase_of_char(c);
        lowered.append(mapped.as_str());
    }
    assert(text@.take(text@.len() as int) =~= text@);
    lowered
}

} // verus!
