//! Substring containment.
//!
//! The test is stated over sequences of characters and carried out on the
//! bytes of their UTF-8 encodings, where it has the same answer.

use vstd::prelude::*;
use vstd::string::StringSliceAdditionalSpecFns;
use vstd::utf8::*;
use crate::encoding::{
    lemma_encode_concat, lemma_encode_injective, lemma_encoded_prefix, lemma_first_byte_leads,
    lemma_split_at_boundary,
};

verus! {

/// `needle` stands in `hay` as a contiguous run that starts at index `at`.
pub open spec fn occurs_at<T>(hay: Seq<T>, needle: Seq<T>, at: int) -> bool {
    &&& 0 <= at
    &&& at + needle.len() <= hay.len()
    &&& hay.subrange(at, at + needle.len()) == needle
}

/// `needle` stands somewhere in `hay` as a contiguous run. The empty
/// sequence is contained in every sequence.
pub open spec fn contains<T>(hay: Seq<T>, needle: Seq<T>) -> bool {
    exists|at: int| occurs_at(hay, needle, at)
}

/// One character sequence contains another exactly where its encoding
/// contains the encoding of the other.
pub proof fn lemma_contains_encoded(hay: Seq<char>, needle: Seq<char>)
    ensures
        contains(encode_utf8(hay), encode_utf8(needle)) == contains(hay, needle),
{
    let eh = encode_utf8(hay);
    let en = encode_utf8(needle);
    if contains(hay, needle) {
        let at = choose|at: int| occurs_at(hay, needle, at);
        let before = hay.take(at);
        let after = hay.skip(at + needle.len());
        assert(hay =~= before + needle + after);
        lemma_encode_concat(before + needle, after);
        lemma_encode_concat(before, needle);
        let e_at = encode_utf8(before).len() as int;
        assert(eh.subrange(e_at, e_at + en.len()) =~= en);
        assert(occurs_at(eh, en, e_at));
    }
    if contains(eh, en) {
        if needle.len() == 0 {
            assert(hay.subrange(0, 0) =~= needle);
            assert(occurs_at(hay, needle, 0));
        } else {
            let e_at = choose|e_at: int| occurs_at(eh, en, e_at);
            lemma_first_byte_leads(needle);
            encode_utf8_valid_utf8(hay);
            is_char_boundary_iff_not_is_continuation_byte(eh, e_at);
            valid_utf8_split(eh, e_at);
            let before = decode_utf8(eh.subrange(0, e_at));
            let rest = decode_utf8(eh.subrange(e_at, eh.len() as int));
            decode_utf8_encode_utf8(eh.subrange(0, e_at));
            decode_utf8_encode_utf8(eh.subrange(e_at, eh.len() as int));
            lemma_split_at_boundary(hay, before, rest, e_at);
            assert(encode_utf8(rest).take(en.len() as int) =~= eh.subrange(e_at, e_at + en.len()));
            lemma_encoded_prefix(rest, needle);
            let at = before.len() as int;
            assert(hay.subrange(at, at + needle.len()) =~= rest.take(needle.len() as int));
            assert(occurs_at(hay, needle, at));
        }
    }
}

/// Whether `needle` occurs in `hay` at index `at`.
pub fn bytes_occur_at(hay: &[u8], needle: &[u8], at: usize) -> (found: bool)
    ensures
        found == occurs_at(hay@, needle@, at as int),
{
    if at > hay.len() || needle.len() > hay.len() - at {
        return false;
    }
    let mut k: usize = 0;
    while k < needle.len()
        invariant
            k <= needle.len(),
            at + needle.len() <= hay.len(),
            forall|j: int| 0 <= j < k ==> hay@[at + j] == needle@[j],
        decreases needle.len() - k,
    {
        if hay[at + k] != needle[k] {
            return false;
        }
        k += 1;
    }
    assert(hay@.subrange(at as int, at + needle@.len()) =~= needle@);
    true
}

/// Whether `needle` occurs anywhere in `hay`.
pub fn contains_bytes(hay: &[u8], needle: &[u8]) -> (found: bool)
    ensures
        found == contains(hay@, needle@),
{
    if needle.len() > hay.len() {
        return false;
    }
    let last: usize = hay.len() - needle.len();
    let mut at: usize = 0;
    loop
        invariant
            last == hay.len() - needle.len(),
            at <= last,
            forall|j: int| 0 <= j < at ==> !occurs_at(hay@, needle@, j),
        decreases last - at,
    {
        if bytes_occur_at(hay, needle, at) {
            return true;
        }
        if at == last {
            return false;
        }
        at += 1;
    }
}

/// Whether the characters of `needle` occur anywhere in `hay`.
pub fn contains_str(hay: &str, needle: &str) -> (found: bool)
    ensures
        found == contains(hay@, needle@),
{
    proof {
        lemma_contains_encoded(hay@, needle@);
    }
    contains_bytes(hay.as_bytes(), needle.as_bytes())
}

/// Whether `a` and `b` hold the same characters.
pub fn same_text(a: &str, b: &str) -> (same: bool)
    ensures
        same == (a@ == b@),
{
    let x = a.as_bytes();
    let y = b.as_bytes();
    proof {
        if x@ == y@ {
            lemma_encode_injective(a@, b@);
        }
    }
    if x.len() != y.len() {
        return false;
    }
    let mut k: usize = 0;
    while k < x.len()
        invariant
            a@ == b@ ==> x@ == y@,
            x.len() == y.len(),
            k <= x.len(),
            forall|j: int| 0 <= j < k ==> x@[j] == y@[j],
        decreases x.len() - k,
    {
        if x[k] != y[k] {
            return false;
        }
        k += 1;
    }
    assert(x@ =~= y@);
    true
}

} // verus!
