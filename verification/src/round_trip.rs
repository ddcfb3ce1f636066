//! What is written can be read back: the body of a request, in either
//! framing, is recovered by the logic that reads the body of a response.

use crate::digits::{digits, lemma_digits_plain, lemma_parse_digits, parse_unsigned};
use crate::error::ResponseError;
use crate::headers::listing_of;
use crate::request::{chunk, chunked, head_bytes, last_chunk, HttpVersion, RequestView};
use crate::response::{chunked_body, plain_body};
use crate::scan::{lemma_find_byte_at, CR};
use crate::text::{lemma_ascii_text, lowercase_of};
use vstd::prelude::*;
use vstd::utf8::encode_utf8;

verus! {

/// The last chunk, wherever it stands, reads as the end of the body.
pub proof fn lemma_read_last_chunk(bytes: Seq<u8>, at: int)
    requires
        0 <= at,
        at + 5 <= bytes.len(),
        bytes.subrange(at, at + 5) == last_chunk(),
    ensures
        chunked_body(bytes, at) == Ok::<_, ResponseError>(Seq::<u8>::empty()),
{
    lemma_find_byte_at(bytes, CR, at, at + 1);
    lemma_parse_digits(0, 16, usize::MAX as nat);
    assert(bytes.subrange(at, at + 1) =~= digits(0, 16));
}

/// A chunk with data, wherever it stands, reads as its data followed by
/// what the chunks after it read as.
pub proof fn lemma_read_chunk(bytes: Seq<u8>, at: int, data: Seq<u8>)
    requires
        0 <= at,
        0 < data.len() <= usize::MAX,
        at + chunk(data).len() <= bytes.len(),
        bytes.subrange(at, at + chunk(data).len()) == chunk(data),
    ensures
        chunked_body(bytes, at) == match chunked_body(bytes, at + chunk(data).len()) {
            Ok(rest) => Ok::<_, ResponseError>(data + rest),
            Err(e) => Err(e),
        },
{
    let size = digits(data.len(), 16);
    let part = bytes.subrange(at, at + chunk(data).len());
    let width = size.len() as int;
    let length = data.len() as int;
    let cr = at + width;
    let from = cr + 2;
    lemma_digits_plain(data.len(), 16);
    lemma_parse_digits(data.len(), 16, usize::MAX as nat);
    assert forall|i: int| at <= i < cr implies bytes[i] != CR by {
        assert(bytes[i] == part[i - at]);
    }
    assert(bytes[cr] == part[width]);
    assert(bytes[cr + 1] == part[width + 1]);
    lemma_find_byte_at(bytes, CR, at, cr);
    assert(bytes.subrange(at, cr) =~= size);
    assert(bytes.subrange(from, from + data.len()) =~= data) by {
        assert forall|i: int| 0 <= i < data.len() implies bytes[from + i] == data[i] by {
            assert(bytes[from + i] == part[width + 2 + i]);
        }
    }
    assert(bytes[from + data.len()] == part[width + 2 + length]);
    assert(bytes[from + data.len() + 1] == part[width + 2 + length + 1]);
}

/// A body that is framed as one chunk and the last chunk is read back as
/// it was, whatever its length and whatever stands before the framing.
pub proof fn lemma_one_chunk_round_trip(before: Seq<u8>, body: Seq<u8>)
    requires
        body.len() <= usize::MAX,
    ensures
        chunked_body(before + chunk(body) + last_chunk(), before.len() as int) == Ok::<
            _,
            ResponseError,
        >(body),
{
    let bytes = before + chunk(body) + last_chunk();
    let at = before.len() as int;
    let next = at + chunk(body).len();
    assert(bytes.subrange(at, next) =~= chunk(body));
    assert(bytes.subrange(next, next + 5) =~= last_chunk());
    if body.len() == 0 {
        lemma_parse_digits(0, 16, usize::MAX as nat);
        assert(chunk(body) =~= last_chunk());
        lemma_read_last_chunk(bytes, at);
        assert(body =~= Seq::<u8>::empty());
    } else {
        lemma_read_chunk(bytes, at, body);
        lemma_read_last_chunk(bytes, next);
    }
}

/// A body in the framing of an HTTP/1.1 request is read back as it was.
pub proof fn lemma_chunked_round_trip(before: Seq<u8>, body: Seq<u8>)
    requires
        body.len() <= usize::MAX,
    ensures
        chunked_body(before + chunked(body), before.len() as int) == Ok::<_, ResponseError>(body),
{
    let at = before.len() as int;
    if body.len() == 0 {
        let bytes = before + last_chunk();
        assert(bytes.subrange(at, at + 5) =~= last_chunk());
        lemma_read_last_chunk(bytes, at);
        assert(body =~= Seq::<u8>::empty());
    } else {
        let framing = chunk(body) + last_chunk();
        assert(before + framing =~= before + chunk(body) + last_chunk());
        lemma_one_chunk_round_trip(before, body);
    }
}

/// The head that an HTTP/1.0 request is sent with.
pub open spec fn head_v10(request: RequestView) -> Seq<u8> {
    head_bytes(
        request.method,
        request.path,
        HttpVersion::Http1_0,
        listing_of(request.fields_v10()),
    )
}

/// The head that an HTTP/1.1 request is sent with.
pub open spec fn head_v11(request: RequestView) -> Seq<u8> {
    head_bytes(
        request.method,
        request.path,
        HttpVersion::Http1_1,
        listing_of(request.fields_v11()),
    )
}

/// The body of a request that is written as HTTP/1.0 is read back as it
/// was: the length field that the request is sent with reads as the
/// length of the body, and that many bytes after the head are the body.
pub proof fn lemma_v10_round_trip(request: RequestView)
    requires
        request.body_bytes().len() <= usize::MAX,
    ensures
        request.wire_v10() == head_v10(request) + request.body_bytes(),
        request.fields_v10().contains_key(lowercase_of("Content-Length"@)),
        parse_unsigned(
            encode_utf8(request.fields_v10()[lowercase_of("Content-Length"@)]),
            10,
            usize::MAX as nat,
        ) == Some(request.body_bytes().len()),
        plain_body(
            request.wire_v10(),
            head_v10(request).len() as int,
            Some(request.body_bytes().len()),
        ) == Ok::<_, ResponseError>(request.body_bytes()),
{
    let body = request.body_bytes();
    let head = head_v10(request);
    lemma_digits_plain(body.len(), 10);
    lemma_ascii_text(digits(body.len(), 10));
    lemma_parse_digits(body.len(), 10, usize::MAX as nat);
    assert((head + body).subrange(head.len() as int, (head.len() + body.len()) as int) =~= body);
}

/// The body of a request that is written as HTTP/1.1 is read back as it
/// was by joining the chunks that follow the head.
pub proof fn lemma_v11_round_trip(request: RequestView)
    requires
        request.body_bytes().len() <= usize::MAX,
    ensures
        request.wire_v11() == head_v11(request) + chunked(request.body_bytes()),
        chunked_body(request.wire_v11(), head_v11(request).len() as int) == Ok::<
            _,
            ResponseError,
        >(request.body_bytes()),
{
    lemma_chunked_round_trip(head_v11(request), request.body_bytes());
}

} // verus!
