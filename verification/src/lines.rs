//! Splitting a text into its lines.
//!
//! A line ends at a line feed, or at the end of the text. The line feed is
//! not part of the line, and neither is a carriage return that stands
//! directly before it. A text that ends with a line feed has no empty line
//! after it; the empty text has no line at all.

use vstd::prelude::*;
use vstd::string::StringSliceAdditionalSpecFns;
use vstd::utf8::*;
use crate::encoding::{
    lemma_absent_byte_absent_char, lemma_encode_injective, lemma_first_char, lemma_last_char,
    lemma_same_code, lemma_split_at_boundary,
};

verus! {

/// The byte that encodes a line feed.
pub const LINE_FEED: u8 = 0x0A;

/// The byte that encodes a carriage return.
pub const CARRIAGE_RETURN: u8 = 0x0D;

/// The number of characters that stand before the first line feed of `text`,
/// or the length of `text` where it holds no line feed.
pub open spec fn first_line_len(text: Seq<char>) -> nat
    decreases text.len(),
{
    if text.len() == 0 || text[0] == '\n' {
        0
    } else {
        1 + first_line_len(text.drop_first())
    }
}

/// `line` without the carriage return at its end, where it has one.
pub open spec fn without_carriage_return(line: Seq<char>) -> Seq<char> {
    if line.len() > 0 && line.last() == '\r' {
        line.drop_last()
    } else {
        line
    }
}

/// The first line of `text`: what stands before its first line feed, less a
/// carriage return directly before that line feed, or the whole of a text
/// without a line feed.
pub open spec fn first_line(text: Seq<char>) -> Seq<char> {
    let n = first_line_len(text);
    if n >= text.len() {
        text
    } else {
        without_carriage_return(text.take(n as int))
    }
}

/// What follows the first line of `text` and its line feed.
pub open spec fn after_first_line(text: Seq<char>) -> Seq<char> {
    let n = first_line_len(text);
    if n >= text.len() {
        Seq::empty()
    } else {
        text.skip(n as int + 1)
    }
}

/// The lines of `text`, in the order in which they stand in it.
pub open spec fn lines_of(text: Seq<char>) -> Seq<Seq<char>>
    decreases text.len(),
{
    if text.len() == 0 {
        Seq::empty()
    } else {
        seq![first_line(text)] + lines_of(after_first_line(text))
    }
}

/// Where `head` holds no line feed and `tail` is empty or begins with one,
/// the first line of `head + tail` ends where `head` ends.
pub proof fn lemma_first_line_len(head: Seq<char>, tail: Seq<char>)
    requires
        forall|k: int| 0 <= k < head.len() ==> head[k] != '\n',
        tail.len() == 0 || tail[0] == '\n',
    ensures
        first_line_len(head + tail) == head.len(),
    decreases head.len(),
{
    if head.len() > 0 {
        assert((head + tail).drop_first() =~= head.drop_first() + tail);
        lemma_first_line_len(head.drop_first(), tail);
    }
}

/// Cuts the first line off a text: returns that line and what follows its
/// line feed. Of the empty text both are empty.
pub fn split_first_line<'a>(text: &'a str) -> (parts: (&'a str, &'a str))
    ensures
        parts.0@ == first_line(text@),
        parts.1@ == after_first_line(text@),
{
    let bytes = text.as_bytes();
    proof {
        encode_utf8_valid_utf8(text@);
    }
    let mut end: usize = 0;
    while end < bytes.len() && bytes[end] != LINE_FEED
        invariant
            end <= bytes.len(),
            forall|j: int| 0 <= j < end ==> bytes@[j] != LINE_FEED,
        decreases bytes.len() - end,
    {
        end += 1;
    }
    proof {
        if end < bytes.len() {
            is_char_boundary_iff_not_is_continuation_byte(bytes@, end as int);
        } else {
            is_char_boundary_start_end_of_seq(bytes@);
        }
    }
    let (head, rest) = text.split_at(end);
    proof {
        lemma_split_at_boundary(text@, head@, rest@, end as int);
        lemma_absent_byte_absent_char(head@, LINE_FEED);
    }
    if end == bytes.len() {
        proof {
            lemma_first_line_len(head@, rest@);
        }
        return (head, rest);
    }
    proof {
        lemma_first_char(rest@);
        lemma_same_code(rest@[0], '\n');
        lemma_first_line_len(head@, rest@);
    }
    let (_, tail) = rest.split_at(1);
    proof {
        lemma_encode_injective(tail@, rest@.drop_first());
        if end > 0 {
            lemma_last_char(head@);
            if bytes@[end - 1] == CARRIAGE_RETURN {
                lemma_same_code(head@.last(), '\r');
            }
        }
    }
    if end > 0 && bytes[end - 1] == CARRIAGE_RETURN {
        let (line, _) = head.split_at(end - 1);
        proof {
            lemma_encode_injective(line@, head@.drop_last());
        }
        (line, tail)
    } else {
        (head, tail)
    }
}

/// The lines of `text`. Each is a slice of `text`, without its line feed
/// and without a carriage return before that line feed.
pub fn lines<'a>(text: &'a str) -> (out: Vec<&'a str>)
    ensures
        out.deep_view() == lines_of(text@),
{
    let mut out: Vec<&'a str> = Vec::new();
    let mut rest: &'a str = text;
    while !rest.is_empty()
        invariant
            out.deep_view() + lines_of(rest@) == lines_of(text@),
        decreases rest@.len(),
    {
        let (line, tail) = split_first_line(rest);
        out.push(line);
        rest = tail;
    }
    out
}

} // verus!
