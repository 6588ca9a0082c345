//! Cutting lexemes out of a source text.
//!
//! A `&str` can only be cut where a character starts. Every lexeme of the grammar
//! starts at an ASCII character and ends right after one, or reaches up to one, so
//! the cuts that the lexer makes are all of that kind.

use crate::grammar::text_of;
use vstd::prelude::*;
use vstd::string::StringSliceAdditionalSpecFns;
use vstd::utf8::{
    decode_utf8, encode_utf8, encode_utf8_decode_utf8, encode_utf8_valid_utf8, is_ascii_chars,
    is_ascii_chars_encode_utf8, is_char_boundary, is_char_boundary_iff_not_is_continuation_byte,
    is_char_boundary_start_end_of_seq, length_of_first_scalar, pop_first_scalar, valid_utf8,
};

verus! {

/// Whether `b` is the code of an ASCII character.
pub open spec fn is_ascii_byte(b: u8) -> bool {
    b < 0x80
}

/// In well-formed UTF-8 a character starts at every ASCII byte, and another one (or
/// the end of the text) right after it.
pub proof fn lemma_boundaries_at_ascii(bytes: Seq<u8>, i: int)
    requires
        valid_utf8(bytes),
        0 <= i < bytes.len(),
        is_ascii_byte(bytes[i]),
    ensures
        is_char_boundary(bytes, i),
        is_char_boundary(bytes, i + 1),
    decreases bytes.len(),
{
    is_char_boundary_iff_not_is_continuation_byte(bytes, i);
    let rest = pop_first_scalar(bytes);
    let width = length_of_first_scalar(bytes);
    if i == 0 {
        assert(is_char_boundary(rest, 0));
        assert(is_char_boundary(bytes, 1));
    } else {
        assert(is_char_boundary(rest, i - width));
        assert(width <= i) by {
            if i - width != 0 {
                assert(0 <= i - width <= rest.len());
            }
        }
        assert(i - width < rest.len());
        assert(rest[i - width] == bytes[i]);
        lemma_boundaries_at_ascii(rest, i - width);
        assert(is_char_boundary(rest, i + 1 - width));
        assert(is_char_boundary(bytes, i + 1));
    }
}

/// The characters that the lexer takes the bytes for, one for one.
pub open spec fn chars_of(bytes: Seq<u8>) -> Seq<char> {
    Seq::new(bytes.len(), |i: int| bytes[i] as char)
}

/// Bytes that are all ASCII are well-formed UTF-8, and their text is made of the
/// characters with their codes, one for each byte.
pub proof fn lemma_ascii_text(bytes: Seq<u8>)
    requires
        forall|i: int| 0 <= i < bytes.len() ==> is_ascii_byte(#[trigger] bytes[i]),
    ensures
        valid_utf8(bytes),
        decode_utf8(bytes) == chars_of(bytes),
        encode_utf8(chars_of(bytes)) == bytes,
{
    let chars = chars_of(bytes);
    assert(is_ascii_chars(chars)) by {
        assert forall|i: int| 0 <= i < chars.len() implies '\0' <= #[trigger] chars[i]
            <= '\u{7f}' by {
            assert(is_ascii_byte(bytes[i]));
        }
    }
    is_ascii_chars_encode_utf8(chars);
    assert(encode_utf8(chars) =~= bytes) by {
        assert forall|i: int| 0 <= i < bytes.len() implies encode_utf8(chars)[i] == bytes[i] by {
            assert(is_ascii_byte(bytes[i]));
            assert(chars[i] as u8 == bytes[i]);
        }
    }
    encode_utf8_valid_utf8(chars);
    encode_utf8_decode_utf8(chars);
}

/// The part of `source` from byte `start` up to byte `end`.
pub(crate) fn slice_text<'a>(source: &'a str, start: usize, end: usize) -> (text: &'a str)
    requires
        start <= end <= source.spec_bytes().len(),
        is_char_boundary(source.spec_bytes(), start as int),
        is_char_boundary(source.spec_bytes(), end as int),
    ensures
        text.spec_bytes() == source.spec_bytes().subrange(start as int, end as int),
        text@ == text_of(source.spec_bytes(), start as int, end as int),
{
    proof {
        encode_utf8_valid_utf8(source@);
    }
    let (head, _) = source.split_at(end);
    proof {
        encode_utf8_valid_utf8(head@);
        if start < end {
            is_char_boundary_iff_not_is_continuation_byte(source.spec_bytes(), start as int);
            is_char_boundary_iff_not_is_continuation_byte(head.spec_bytes(), start as int);
        } else {
            is_char_boundary_start_end_of_seq(head.spec_bytes());
        }
    }
    let (_, text) = head.split_at(start);
    proof {
        encode_utf8_decode_utf8(text@);
        assert(text.spec_bytes() =~= source.spec_bytes().subrange(start as int, end as int));
    }
    text
}

} // verus!
