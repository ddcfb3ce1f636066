//! Finding delimiters in a byte buffer.

use vstd::prelude::*;
use vstd::slice::slice_subrange;

verus! {

pub const CR: u8 = 0x0d;

pub const LF: u8 = 0x0a;

pub const SP: u8 = 0x20;

pub const COLON: u8 = 0x3a;

/// The first place at or after `from` where `b` stands, or the length of
/// the buffer if it stands nowhere there.
pub open spec fn find_byte(bytes: Seq<u8>, b: u8, from: int) -> int
    decreases bytes.len() - from,
{
    if from < 0 || from >= bytes.len() {
        bytes.len() as int
    } else if bytes[from] == b {
        from
    } else {
        find_byte(bytes, b, from + 1)
    }
}

/// The first place at or after `from` where a colon stands before a
/// space, or the length of the buffer if there is none.
pub open spec fn find_separator(bytes: Seq<u8>, from: int) -> int
    decreases bytes.len() - from,
{
    if from < 0 || from + 1 >= bytes.len() {
        bytes.len() as int
    } else if bytes[from] == COLON && bytes[from + 1] == SP {
        from
    } else {
        find_separator(bytes, from + 1)
    }
}

/// A line without the carriage return that may end it.
pub open spec fn strip_cr(line: Seq<u8>) -> Seq<u8> {
    if line.len() > 0 && line.last() == CR {
        line.drop_last()
    } else {
        line
    }
}

/// Where `find_byte` points: no `b` stands between `from` and the place,
/// and `b` stands at the place unless it is the end.
pub proof fn lemma_find_byte(bytes: Seq<u8>, b: u8, from: int)
    requires
        0 <= from <= bytes.len(),
    ensures
        from <= find_byte(bytes, b, from) <= bytes.len(),
        find_byte(bytes, b, from) < bytes.len() ==> bytes[find_byte(bytes, b, from)] == b,
        forall|i: int| from <= i < find_byte(bytes, b, from) ==> bytes[i] != b,
    decreases bytes.len() - from,
{
    if from < bytes.len() && bytes[from] != b {
        lemma_find_byte(bytes, b, from + 1);
    }
}

/// A `b` with no other between `from` and it is the one that
/// `find_byte` finds.
pub proof fn lemma_find_byte_at(bytes: Seq<u8>, b: u8, from: int, at: int)
    requires
        0 <= from <= at < bytes.len(),
        bytes[at] == b,
        forall|i: int| from <= i < at ==> bytes[i] != b,
    ensures
        find_byte(bytes, b, from) == at,
    decreases at - from,
{
    if from < at {
        lemma_find_byte_at(bytes, b, from + 1, at);
    }
}

/// Where `find_separator` points: a colon before a space, and none earlier.
pub proof fn lemma_find_separator(bytes: Seq<u8>, from: int)
    requires
        0 <= from <= bytes.len(),
    ensures
        from <= find_separator(bytes, from) <= bytes.len(),
        find_separator(bytes, from) < bytes.len() ==> {
            &&& find_separator(bytes, from) + 2 <= bytes.len()
            &&& bytes[find_separator(bytes, from)] == COLON
            &&& bytes[find_separator(bytes, from) + 1] == SP
        },
    decreases bytes.len() - from,
{
    if from + 1 < bytes.len() && !(bytes[from] == COLON && bytes[from + 1] == SP) {
        lemma_find_separator(bytes, from + 1);
    }
}

/// Finds the first `b` at or after `from`.
pub fn position_of(bytes: &[u8], b: u8, from: usize) -> (at: usize)
    ensures
        at == find_byte(bytes@, b, from as int),
        at <= bytes@.len(),
        from <= bytes@.len() ==> from <= at,
        at < bytes@.len() ==> bytes@[at as int] == b,
{
    if from >= bytes.len() {
        return bytes.len();
    }
    let mut i: usize = from;
    while i < bytes.len() && bytes[i] != b
        invariant
            from <= i <= bytes@.len(),
            find_byte(bytes@, b, from as int) == find_byte(bytes@, b, i as int),
        decreases bytes@.len() - i,
    {
        i = i + 1;
    }
    i
}

/// Finds the first colon before a space at or after `from`.
pub fn separator_in(bytes: &[u8], from: usize) -> (at: usize)
    ensures
        at == find_separator(bytes@, from as int),
        at <= bytes@.len(),
        from <= bytes@.len() ==> from <= at,
{
    if from >= bytes.len() {
        return bytes.len();
    }
    let mut i: usize = from;
    while bytes.len() - i >= 2
        invariant
            from <= i <= bytes@.len(),
            find_separator(bytes@, from as int) == find_separator(bytes@, i as int),
        decreases bytes@.len() - i,
    {
        if bytes[i] == COLON && bytes[i + 1] == SP {
            return i;
        }
        i = i + 1;
    }
    bytes.len()
}

/// The line that starts at `from` and the place of the line feed that
/// ends it (the length of the buffer where none does).
pub(crate) fn line_from(bytes: &[u8], from: usize) -> (r: (&[u8], usize))
    requires
        from <= bytes@.len(),
    ensures
        r.1 == find_byte(bytes@, LF, from as int),
        from <= r.1 <= bytes@.len(),
        r.0@ == strip_cr(bytes@.subrange(from as int, r.1 as int)),
{
    let end = position_of(bytes, LF, from);
    let line = slice_subrange(bytes, from, end);
    if line.len() > 0 && line[line.len() - 1] == CR {
        let stripped = slice_subrange(line, 0, line.len() - 1);
        (stripped, end)
    } else {
        (line, end)
    }
}

} // verus!
