//! Facts about the UTF-8 encoding of character sequences, as far as they are
//! needed to cut a string at single-byte characters and to compare strings
//! byte by byte.

use vstd::prelude::*;
use vstd::utf8::*;

verus! {

/// Two characters with the same code are the same character.
pub proof fn lemma_same_code(a: char, b: char)
    requires
        a as u32 == b as u32,
    ensures
        a == b,
{
}

/// A character below U+0080 is encoded as the one byte that is its code.
pub proof fn lemma_encode_ascii(c: char)
    requires
        (c as u32) < 0x80,
    ensures
        encode_scalar(c as u32).len() == 1,
        encode_scalar(c as u32)[0] == c as u32,
{
    let v = c as u32;
    assert(((v & 0x7F) as u8) as u32 == v) by (bit_vector)
        requires
            v < 0x80,
    ;
}

/// A character from U+0080 on is encoded as two to four bytes, none of them
/// below 0x80.
pub proof fn lemma_encode_non_ascii(c: char)
    requires
        (c as u32) >= 0x80,
    ensures
        2 <= encode_scalar(c as u32).len() <= 4,
        forall|j: int|
            0 <= j < encode_scalar(c as u32).len() ==> #[trigger] encode_scalar(c as u32)[j]
                >= 0x80,
{
    let v = c as u32;
    assert((0xC0u8 | (((v >> 6) & 0x1F) as u8)) >= 0x80) by (bit_vector);
    assert((0xE0u8 | (((v >> 12) & 0x0F) as u8)) >= 0x80) by (bit_vector);
    assert((0xF0u8 | (((v >> 18) & 0x7) as u8)) >= 0x80) by (bit_vector);
    assert((0x80u8 | ((v & 0x3F) as u8)) >= 0x80) by (bit_vector);
    assert((0x80u8 | (((v >> 6) & 0x3F) as u8)) >= 0x80) by (bit_vector);
    assert((0x80u8 | (((v >> 12) & 0x3F) as u8)) >= 0x80) by (bit_vector);
}

/// Encoding distributes over concatenation.
pub proof fn lemma_encode_concat(a: Seq<char>, b: Seq<char>)
    ensures
        encode_utf8(a + b) == encode_utf8(a) + encode_utf8(b),
    decreases a.len(),
{
    if a.len() > 0 {
        assert((a + b).drop_first() =~= a.drop_first() + b);
        lemma_encode_concat(a.drop_first(), b);
    }
}

/// Two character sequences with the same encoding are the same sequence.
pub proof fn lemma_encode_injective(a: Seq<char>, b: Seq<char>)
    requires
        encode_utf8(a) == encode_utf8(b),
    ensures
        a == b,
{
    encode_utf8_decode_utf8(a);
    encode_utf8_decode_utf8(b);
}

/// Cutting an encoding at a character boundary cuts the character sequence:
/// the two parts decode to a prefix and the suffix that follows it.
pub proof fn lemma_split_at_boundary(s: Seq<char>, a: Seq<char>, b: Seq<char>, mid: int)
    requires
        is_char_boundary(encode_utf8(s), mid),
        encode_utf8(a) == encode_utf8(s).subrange(0, mid),
        encode_utf8(b) == encode_utf8(s).subrange(mid, encode_utf8(s).len() as int),
    ensures
        s == a + b,
{
    let es = encode_utf8(s);
    encode_utf8_valid_utf8(s);
    decode_utf8_split(es, mid);
    encode_utf8_decode_utf8(s);
    encode_utf8_decode_utf8(a);
    encode_utf8_decode_utf8(b);
}

/// Where no byte of the encoding equals the single-byte code `byte`, no
/// character of the sequence has that code.
pub proof fn lemma_absent_byte_absent_char(s: Seq<char>, byte: u8)
    requires
        byte < 0x80,
        forall|j: int| 0 <= j < encode_utf8(s).len() ==> encode_utf8(s)[j] != byte,
    ensures
        forall|k: int| 0 <= k < s.len() ==> (#[trigger] s[k]) as u32 != byte,
    decreases s.len(),
{
    if s.len() > 0 {
        let first = encode_scalar(s[0] as u32);
        let rest = encode_utf8(s.drop_first());
        if (s[0] as u32) < 0x80 {
            lemma_encode_ascii(s[0]);
            assert(encode_utf8(s)[0] == first[0]);
        }
        assert forall|j: int| 0 <= j < rest.len() implies rest[j] != byte by {
            assert(rest[j] == encode_utf8(s)[first.len() + j]);
        }
        lemma_absent_byte_absent_char(s.drop_first(), byte);
        assert forall|k: int| 0 <= k < s.len() implies (#[trigger] s[k]) as u32 != byte by {
            if k > 0 {
                assert(s[k] == s.drop_first()[k - 1]);
            }
        }
    }
}

/// The first byte of an encoding is below 0x80 exactly where the first
/// character is below U+0080. That byte is then the character's code, the
/// character ends at byte 1, and the rest of the encoding is the encoding of
/// the rest.
pub proof fn lemma_first_char(s: Seq<char>)
    requires
        s.len() > 0,
    ensures
        encode_utf8(s).len() > 0,
        (s[0] as u32) >= 0x80 ==> encode_utf8(s)[0] >= 0x80,
        (s[0] as u32) < 0x80 ==> {
            &&& encode_utf8(s)[0] == s[0] as u32
            &&& is_char_boundary(encode_utf8(s), 1)
            &&& encode_utf8(s).subrange(1, encode_utf8(s).len() as int) == encode_utf8(
                s.drop_first(),
            )
        },
{
    if (s[0] as u32) < 0x80 {
        lemma_encode_ascii(s[0]);
        encode_utf8_valid_utf8(s);
        reveal_with_fuel(is_char_boundary, 2);
    } else {
        lemma_encode_non_ascii(s[0]);
    }
}

/// The last byte of an encoding is below 0x80 exactly where the last
/// character is below U+0080. That byte is then the character's code, the
/// character begins at that byte, and the encoding before it is the encoding
/// of what stands before the character.
pub proof fn lemma_last_char(s: Seq<char>)
    requires
        s.len() > 0,
    ensures
        encode_utf8(s).len() > 0,
        (s.last() as u32) >= 0x80 ==> encode_utf8(s).last() >= 0x80,
        (s.last() as u32) < 0x80 ==> {
            &&& encode_utf8(s).last() == s.last() as u32
            &&& is_char_boundary(encode_utf8(s), encode_utf8(s).len() - 1)
            &&& encode_utf8(s).drop_last() == encode_utf8(s.drop_last())
        },
{
    let es = encode_utf8(s);
    let tail = seq![s.last()];
    assert(s =~= s.drop_last() + tail);
    lemma_encode_concat(s.drop_last(), tail);
    assert(encode_utf8(tail) =~= encode_scalar(s.last() as u32)) by {
        reveal_with_fuel(encode_utf8, 2);
    }
    if (s.last() as u32) < 0x80 {
        lemma_encode_ascii(s.last());
        encode_utf8_valid_utf8(s);
        is_char_boundary_iff_not_is_continuation_byte(es, es.len() - 1);
    } else {
        lemma_encode_non_ascii(s.last());
    }
}

/// The first byte of an encoding is no continuation byte.
pub proof fn lemma_first_byte_leads(s: Seq<char>)
    requires
        s.len() > 0,
    ensures
        encode_utf8(s).len() > 0,
        !is_continuation_byte(encode_utf8(s)[0]),
{
    lemma_first_char(s);
    encode_utf8_valid_utf8(s);
    is_char_boundary_iff_not_is_continuation_byte(encode_utf8(s), 0);
}

/// A character sequence whose encoding begins with the encoding of `b`
/// begins with `b`.
pub proof fn lemma_encoded_prefix(a: Seq<char>, b: Seq<char>)
    requires
        encode_utf8(b).len() <= encode_utf8(a).len(),
        encode_utf8(a).take(encode_utf8(b).len() as int) == encode_utf8(b),
    ensures
        b.len() <= a.len(),
        a.take(b.len() as int) == b,
    decreases b.len(),
{
    let ea = encode_utf8(a);
    let eb = encode_utf8(b);
    if b.len() > 0 {
        encode_utf8_first_scalar(a);
        encode_utf8_first_scalar(b);
        let w = encode_scalar(b[0] as u32).len() as int;
        assert forall|j: int| 0 <= j < w implies ea[j] == eb[j] by {
            assert(ea[j] == ea.take(eb.len() as int)[j]);
        }
        lemma_same_code(a[0], b[0]);
        assert(encode_utf8(a.drop_first()) =~= ea.skip(w));
        assert(encode_utf8(b.drop_first()) =~= eb.skip(w));
        assert(ea.skip(w).take(eb.len() - w) =~= ea.take(eb.len() as int).skip(w));
        lemma_encoded_prefix(a.drop_first(), b.drop_first());
        assert(a.take(b.len() as int) =~= seq![a[0]] + a.drop_first().take(b.len() - 1));
    }
}

} // verus!
