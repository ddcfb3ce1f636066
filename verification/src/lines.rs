//! Text shown line by line behind a mark.

use crate::scan::{find_byte, lemma_find_byte, position_of, strip_cr, CR, LF};
use crate::text::{lemma_boundary_at_ascii, text_between};
use vstd::prelude::*;
use vstd::string::{StringExecFns, StringSliceAdditionalSpecFns};
use vstd::utf8::{
    decode_utf8, encode_utf8, encode_utf8_valid_utf8, is_char_boundary,
    is_char_boundary_start_end_of_seq,
};

verus! {

/// The line that starts at `from`, without the line feed that ends it
/// nor a carriage return before that line feed. A last line that no line
/// feed ends keeps its carriage return.
pub open spec fn line_at(bytes: Seq<u8>, from: int) -> Seq<u8> {
    let end = find_byte(bytes, LF, from);
    if end < bytes.len() {
        strip_cr(bytes.subrange(from, end))
    } else {
        bytes.subrange(from, end)
    }
}

/// The lines from `from` on, each behind the prefix, with a line feed
/// between one and the next. A line feed at the very end starts no line.
pub open spec fn prefixed_from(bytes: Seq<u8>, prefix: Seq<char>, from: int) -> Seq<char>
    decreases bytes.len() - from,
    via prefixed_from_decreases
{
    let end = find_byte(bytes, LF, from);
    let this = prefix + decode_utf8(line_at(bytes, from));
    if 0 <= from && end + 1 < bytes.len() {
        this + "\n"@ + prefixed_from(bytes, prefix, end + 1)
    } else {
        this
    }
}

#[via_fn]
proof fn prefixed_from_decreases(bytes: Seq<u8>, prefix: Seq<char>, from: int) {
    if 0 <= from <= bytes.len() {
        lemma_find_byte(bytes, LF, from);
    }
}

/// A text with the prefix before each of its lines; the empty text has
/// no line.
pub open spec fn prefixed(text: Seq<char>, prefix: Seq<char>) -> Seq<char> {
    if text.len() == 0 {
        Seq::empty()
    } else {
        prefixed_from(encode_utf8(text), prefix, 0)
    }
}

/// Puts the prefix before each line of a text. Lines end in a line feed
/// or in a carriage return and a line feed; the result has a single line
/// feed between its lines and none at its end.
pub fn prefix_lines(text: &str, prefix: &str) -> (out: String)
    ensures
        out@ == prefixed(text@, prefix@),
{
    let mut out = String::new();
    let bytes = text.as_bytes();
    if text.is_empty() || bytes.len() == 0 {
        assert(text@.len() == 0);
        return out;
    }
    proof {
        encode_utf8_valid_utf8(text@);
        is_char_boundary_start_end_of_seq(bytes@);
    }
    let mut from: usize = 0;
    loop
        invariant
            bytes@ == encode_utf8(text@),
            bytes@ == text.spec_bytes(),
            from < bytes@.len() <= usize::MAX,
            is_char_boundary(bytes@, from as int),
            prefixed(text@, prefix@) == out@ + prefixed_from(bytes@, prefix@, from as int),
        decreases bytes@.len() - from,
    {
        let end = position_of(bytes, LF, from);
        let stop = if end < bytes.len() && end > from && bytes[end - 1] == CR {
            end - 1
        } else {
            end
        };
        proof {
            encode_utf8_valid_utf8(text@);
            is_char_boundary_start_end_of_seq(bytes@);
            if end < bytes.len() {
                lemma_boundary_at_ascii(bytes@, end as int);
            }
            if stop < end {
                lemma_boundary_at_ascii(bytes@, stop as int);
                assert(bytes@.subrange(from as int, end as int).drop_last() =~= bytes@.subrange(
                    from as int,
                    stop as int,
                ));
            }
        }
        let line = text_between(text, from, stop);
        out.append(prefix);
        out.append(line);
        if end >= bytes.len() || bytes.len() - end <= 1 {
            return out;
        }
        out.append("\n");
        from = end + 1;
    }
}

} // verus!
