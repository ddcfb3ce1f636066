//! Responses: what a buffer of bytes says as a response, and the parser
//! that reads it.

use crate::digits::{parse_decimal, parse_decimal_u16, parse_hex, parse_unsigned};
use crate::error::ResponseError;
use crate::headers::Headers;
use crate::scan::{
    find_byte, find_separator, lemma_find_byte, lemma_find_separator, line_from, position_of,
    separator_in, strip_cr, CR, LF, SP,
};
use crate::text::{
    lemma_boundary_at_ascii, lowercase_of, same_text, text_between, text_of, to_lowercase,
};
use vstd::prelude::*;
use vstd::slice::slice_subrange;
use vstd::utf8::{decode_utf8, encode_utf8, is_char_boundary_start_end_of_seq, valid_utf8};

verus! {

/// What a header field means for the framing of the body.
#[derive(Clone, Copy, Debug, PartialEq, Eq, Structural)]
pub enum FieldKind {
    ContentLength,
    TransferEncoding,
    Other,
}

/// The kind of a field, by its lower-case name.
pub open spec fn field_kind_of(lower_name: Seq<char>) -> FieldKind {
    if lower_name == "content-length"@ {
        FieldKind::ContentLength
    } else if lower_name == "transfer-encoding"@ {
        FieldKind::TransferEncoding
    } else {
        FieldKind::Other
    }
}

/// The status code and the reason phrase of a status line: the line is
/// cut at its first two spaces, the second part is the code, and all
/// after the second space is the phrase.
pub open spec fn status_of(line: Seq<u8>) -> Result<(u16, Seq<char>), ResponseError> {
    let a = find_byte(line, SP, 0);
    let b = find_byte(line, SP, a + 1);
    if !valid_utf8(line) {
        Err(ResponseError::InvalidUtf8)
    } else if a >= line.len() {
        Err(ResponseError::MalformedStatusLine)
    } else {
        match parse_unsigned(line.subrange(a + 1, b), 10, 0xffff) {
            None => Err(ResponseError::InvalidStatusCode),
            Some(code) => if b >= line.len() {
                Err(ResponseError::MalformedStatusLine)
            } else {
                Ok((code as u16, decode_utf8(line.subrange(b + 1, line.len() as int))))
            },
        }
    }
}

/// The name and the value of a header line: what stands before and after
/// the first colon that a space follows.
pub open spec fn field_of(line: Seq<u8>) -> Result<(Seq<char>, Seq<char>), ResponseError> {
    let p = find_separator(line, 0);
    if !valid_utf8(line) {
        Err(ResponseError::InvalidUtf8)
    } else if p >= line.len() {
        Err(ResponseError::MalformedHeader)
    } else {
        Ok((decode_utf8(line.subrange(0, p)), decode_utf8(line.subrange(p + 2, line.len() as int))))
    }
}

/// What the header block has said so far.
pub struct Head {
    /// The fields, by lower-case name; a later field replaces an earlier
    /// one of the same name.
    pub fields: Map<Seq<char>, Seq<char>>,
    /// The length that the last `Content-Length` field gave, if any did.
    pub content_length: Option<nat>,
    /// Whether a `Transfer-Encoding` field asked for chunks.
    pub chunked: bool,
}

/// The head before any field is read.
pub open spec fn empty_head() -> Head {
    Head { fields: Map::empty(), content_length: None, chunked: false }
}

/// The head after one more field.
pub open spec fn head_with(head: Head, name: Seq<char>, value: Seq<char>) -> Result<
    Head,
    ResponseError,
> {
    let fields = head.fields.insert(lowercase_of(name), value);
    match field_kind_of(lowercase_of(name)) {
        FieldKind::ContentLength => match parse_unsigned(
            encode_utf8(value),
            10,
            usize::MAX as nat,
        ) {
            Some(n) => Ok(Head { fields, content_length: Some(n), chunked: head.chunked }),
            None => Err(ResponseError::InvalidContentLength),
        },
        FieldKind::TransferEncoding => if lowercase_of(value) == "chunked"@ {
            Ok(Head { fields, content_length: head.content_length, chunked: true })
        } else {
            Err(ResponseError::UnknownTransferEncoding)
        },
        FieldKind::Other => Ok(
            Head { fields, content_length: head.content_length, chunked: head.chunked },
        ),
    }
}

/// Reads header lines from `start` up to the empty line that ends the
/// block, and gives the head with the place where the body starts. The
/// first line that fails decides the error; a block that the buffer's end
/// cuts off is an error too.
pub open spec fn head_from(bytes: Seq<u8>, start: int, head: Head) -> Result<
    (Head, int),
    ResponseError,
>
    decreases bytes.len() - start,
    via head_from_decreases
{
    let end = find_byte(bytes, LF, start);
    let line = strip_cr(bytes.subrange(start, end));
    if start < 0 || start > bytes.len() {
        Err(ResponseError::Truncated)
    } else if line.len() == 0 {
        if end < bytes.len() {
            Ok((head, end + 1))
        } else {
            Err(ResponseError::Truncated)
        }
    } else {
        match field_of(line) {
            Err(e) => Err(e),
            Ok((name, value)) => match head_with(head, name, value) {
                Err(e) => Err(e),
                Ok(next) => if end < bytes.len() {
                    head_from(bytes, end + 1, next)
                } else {
                    Err(ResponseError::Truncated)
                },
            },
        }
    }
}

#[via_fn]
proof fn head_from_decreases(bytes: Seq<u8>, start: int, head: Head) {
    if 0 <= start <= bytes.len() {
        lemma_find_byte(bytes, LF, start);
    }
}

/// A body of known length, or else all that is left of the buffer.
pub open spec fn plain_body(bytes: Seq<u8>, start: int, content_length: Option<nat>) -> Result<
    Seq<u8>,
    ResponseError,
> {
    let n: int = match content_length {
        Some(n) => n as int,
        None => bytes.len() - start,
    };
    if 0 <= start && 0 <= n && start + n <= bytes.len() {
        Ok(bytes.subrange(start, start + n))
    } else {
        Err(ResponseError::Truncated)
    }
}

/// Whether a carriage return and a line feed stand at `at`.
pub open spec fn crlf_at(bytes: Seq<u8>, at: int) -> bool {
    0 <= at && at + 2 <= bytes.len() && bytes[at] == CR && bytes[at + 1] == LF
}

/// The chunks from `start` on, joined: each is a hexadecimal size, a line
/// break, that many bytes and a line break. A chunk of size zero ends the
/// body, and what follows it is not read.
pub open spec fn chunked_body(bytes: Seq<u8>, start: int) -> Result<Seq<u8>, ResponseError>
    decreases bytes.len() - start,
    via chunked_body_decreases
{
    let cr = find_byte(bytes, CR, start);
    let data = cr + 2;
    if start < 0 || start > bytes.len() {
        Err(ResponseError::Truncated)
    } else if !crlf_at(bytes, cr) {
        Err(ResponseError::MalformedChunk)
    } else {
        match parse_unsigned(bytes.subrange(start, cr), 16, usize::MAX as nat) {
            None => Err(ResponseError::InvalidChunkSize),
            Some(n) => if n == 0 {
                Ok(Seq::empty())
            } else if !crlf_at(bytes, data + n) {
                Err(ResponseError::MalformedChunk)
            } else {
                match chunked_body(bytes, data + n + 2) {
                    Err(e) => Err(e),
                    Ok(rest) => Ok(bytes.subrange(data, data + n) + rest),
                }
            },
        }
    }
}

#[via_fn]
proof fn chunked_body_decreases(bytes: Seq<u8>, start: int) {
    if 0 <= start <= bytes.len() {
        lemma_find_byte(bytes, CR, start);
    }
}

/// A response as a value: what `Response` stands for.
pub struct ResponseView {
    pub status_code: u16,
    pub status_message: Seq<char>,
    pub headers: Map<Seq<char>, Seq<char>>,
    pub body: Seq<u8>,
}

/// The response that a buffer holds: a status line, header lines up to an
/// empty line, and the body, in chunks if the head asks for them and
/// else of the announced length or to the end of the buffer.
pub open spec fn response_of(bytes: Seq<u8>) -> Result<ResponseView, ResponseError> {
    let end = find_byte(bytes, LF, 0);
    match status_of(strip_cr(bytes.subrange(0, end))) {
        Err(e) => Err(e),
        Ok((status_code, status_message)) => match head_of(bytes) {
            Err(e) => Err(e),
            Ok((head, start)) => {
                let body = if head.chunked {
                    chunked_body(bytes, start)
                } else {
                    plain_body(bytes, start, head.content_length)
                };
                match body {
                    Err(e) => Err(e),
                    Ok(body) => Ok(
                        ResponseView { status_code, status_message, headers: head.fields, body },
                    ),
                }
            },
        },
    }
}

/// The head of the response that a buffer holds, with the place where
/// its body starts.
pub open spec fn head_of(bytes: Seq<u8>) -> Result<(Head, int), ResponseError> {
    head_from(bytes, find_byte(bytes, LF, 0) + 1, empty_head())
}

/// Whether `r` is what parsing the buffer gives.
pub open spec fn is_parse_of(bytes: Seq<u8>, r: Result<Response, ResponseError>) -> bool {
    match r {
        Ok(response) => response_of(bytes) == Ok::<_, ResponseError>(response@),
        Err(e) => response_of(bytes) == Err::<ResponseView, _>(e),
    }
}

/// The framing that a head has noted is the one that its fields give:
/// the length is that of the `content-length` field, and chunks are
/// asked for exactly where a `transfer-encoding` field stands.
pub open spec fn framed(head: Head) -> bool {
    &&& head.content_length is Some <==> head.fields.contains_key("content-length"@)
    &&& head.content_length is Some ==> head.content_length == parse_unsigned(
        encode_utf8(head.fields["content-length"@]),
        10,
        usize::MAX as nat,
    )
    &&& head.chunked <==> head.fields.contains_key("transfer-encoding"@)
    &&& head.chunked ==> lowercase_of(head.fields["transfer-encoding"@]) == "chunked"@
}

proof fn lemma_framing_names_differ()
    ensures
        "content-length"@ != "transfer-encoding"@,
{
    reveal_strlit("content-length");
    reveal_strlit("transfer-encoding");
    assert("content-length"@.len() != "transfer-encoding"@.len());
}

/// One more field keeps the framing in step with the fields.
pub proof fn lemma_head_with_framed(head: Head, name: Seq<char>, value: Seq<char>)
    requires
        framed(head),
        head_with(head, name, value) is Ok,
    ensures
        framed(head_with(head, name, value).unwrap()),
{
    lemma_framing_names_differ();
}

/// The head that is read from a buffer has its framing in step with its
/// fields, and its body starts within the buffer.
pub proof fn lemma_head_from_framed(bytes: Seq<u8>, start: int, head: Head)
    requires
        framed(head),
        head_from(bytes, start, head) is Ok,
    ensures
        framed(head_from(bytes, start, head).unwrap().0),
        start < head_from(bytes, start, head).unwrap().1 <= bytes.len(),
    decreases bytes.len() - start,
{
    lemma_find_byte(bytes, LF, start);
    let end = find_byte(bytes, LF, start);
    let line = strip_cr(bytes.subrange(start, end));
    if line.len() != 0 {
        let (name, value) = field_of(line).unwrap();
        lemma_head_with_framed(head, name, value);
        lemma_head_from_framed(bytes, end + 1, head_with(head, name, value).unwrap());
    }
}

/// Parsing is a function of the buffer: two parses of the same bytes
/// both fail with the same error or give equal responses.
pub proof fn lemma_parse_twice(
    bytes: Seq<u8>,
    first: Result<Response, ResponseError>,
    second: Result<Response, ResponseError>,
)
    requires
        is_parse_of(bytes, first),
        is_parse_of(bytes, second),
    ensures
        match (first, second) {
            (Ok(a), Ok(b)) => a@ == b@,
            (Err(a), Err(b)) => a == b,
            _ => false,
        },
{
}

/// A response whose `content-length` field says zero, that has no
/// `transfer-encoding` field, and whose buffer ends with the header
/// block, has an empty body.
pub proof fn lemma_zero_length_body(bytes: Seq<u8>)
    requires
        status_of(strip_cr(bytes.subrange(0, find_byte(bytes, LF, 0)))) is Ok,
        head_of(bytes) is Ok,
        head_of(bytes).unwrap().1 == bytes.len(),
        head_of(bytes).unwrap().0.fields.contains_key("content-length"@),
        parse_unsigned(
            encode_utf8(head_of(bytes).unwrap().0.fields["content-length"@]),
            10,
            usize::MAX as nat,
        ) == Some(0nat),
        !head_of(bytes).unwrap().0.fields.contains_key("transfer-encoding"@),
    ensures
        response_of(bytes) is Ok,
        response_of(bytes).unwrap().body == Seq::<u8>::empty(),
{
    lemma_head_from_framed(bytes, find_byte(bytes, LF, 0) + 1, empty_head());
}

/// A response with neither a `content-length` nor a `transfer-encoding`
/// field has all that follows the header block as its body.
pub proof fn lemma_body_to_the_end(bytes: Seq<u8>)
    requires
        response_of(bytes) is Ok,
        !response_of(bytes).unwrap().headers.contains_key("content-length"@),
        !response_of(bytes).unwrap().headers.contains_key("transfer-encoding"@),
    ensures
        head_of(bytes) is Ok,
        response_of(bytes).unwrap().body == bytes.subrange(
            head_of(bytes).unwrap().1,
            bytes.len() as int,
        ),
{
    lemma_head_from_framed(bytes, find_byte(bytes, LF, 0) + 1, empty_head());
}

/// Where a response has a `transfer-encoding` field its body is what its
/// chunks join to, whatever a `content-length` field says.
pub proof fn lemma_chunks_take_precedence(bytes: Seq<u8>)
    requires
        response_of(bytes) is Ok,
        response_of(bytes).unwrap().headers.contains_key("transfer-encoding"@),
    ensures
        head_of(bytes) is Ok,
        chunked_body(bytes, head_of(bytes).unwrap().1) == Ok::<_, ResponseError>(
            response_of(bytes).unwrap().body,
        ),
{
    lemma_head_from_framed(bytes, find_byte(bytes, LF, 0) + 1, empty_head());
}

/// The body of a response is as long as its `content-length` field says,
/// unless it came in chunks.
pub proof fn lemma_body_length(bytes: Seq<u8>)
    requires
        response_of(bytes) is Ok,
        response_of(bytes).unwrap().headers.contains_key("content-length"@),
        !response_of(bytes).unwrap().headers.contains_key("transfer-encoding"@),
    ensures
        parse_unsigned(
            encode_utf8(response_of(bytes).unwrap().headers["content-length"@]),
            10,
            usize::MAX as nat,
        ) == Some(response_of(bytes).unwrap().body.len()),
{
    lemma_head_from_framed(bytes, find_byte(bytes, LF, 0) + 1, empty_head());
}

/// Tells the kind of a field from its lower-case name.
pub fn field_kind(lower_name: &str) -> (kind: FieldKind)
    ensures
        kind == field_kind_of(lower_name@),
{
    if same_text(lower_name, "content-length") {
        FieldKind::ContentLength
    } else if same_text(lower_name, "transfer-encoding") {
        FieldKind::TransferEncoding
    } else {
        FieldKind::Other
    }
}

/// Reads a status line, without its line break.
pub fn parse_status_line(line: &[u8]) -> (r: Result<(u16, String), ResponseError>)
    ensures
        match r {
            Ok((code, message)) => status_of(line@) == Ok::<_, ResponseError>((code, message@)),
            Err(e) => status_of(line@) == Err::<(u16, Seq<char>), _>(e),
        },
{
    let text = match text_of(line) {
        Some(text) => text,
        None => {
            return Err(ResponseError::InvalidUtf8);
        },
    };
    let a = position_of(line, SP, 0);
    if a >= line.len() {
        return Err(ResponseError::MalformedStatusLine);
    }
    let b = position_of(line, SP, a + 1);
    let code = match parse_decimal_u16(slice_subrange(line, a + 1, b)) {
        Some(code) => code,
        None => {
            return Err(ResponseError::InvalidStatusCode);
        },
    };
    if b >= line.len() {
        return Err(ResponseError::MalformedStatusLine);
    }
    proof {
        lemma_find_byte(line@, SP, a + 1);
        lemma_boundary_at_ascii(line@, b as int);
        is_char_boundary_start_end_of_seq(line@);
    }
    let message = text_between(text.as_str(), b + 1, line.len());
    Ok((code, message.to_owned()))
}

/// Reads a header line, without its line break, into name and value.
pub fn parse_field(line: &[u8]) -> (r: Result<(String, String), ResponseError>)
    ensures
        match r {
            Ok((name, value)) => field_of(line@) == Ok::<_, ResponseError>((name@, value@)),
            Err(e) => field_of(line@) == Err::<(Seq<char>, Seq<char>), _>(e),
        },
{
    let text = match text_of(line) {
        Some(text) => text,
        None => {
            return Err(ResponseError::InvalidUtf8);
        },
    };
    let p = separator_in(line, 0);
    if p >= line.len() {
        return Err(ResponseError::MalformedHeader);
    }
    proof {
        lemma_find_separator(line@, 0);
        lemma_boundary_at_ascii(line@, p as int);
        lemma_boundary_at_ascii(line@, p + 1);
        is_char_boundary_start_end_of_seq(line@);
    }
    let name = text_between(text.as_str(), 0, p);
    let value = text_between(text.as_str(), p + 2, line.len());
    Ok((name.to_owned(), value.to_owned()))
}

/// The length that a head announced, as the model counts it.
pub open spec fn announced(content_length: Option<usize>) -> Option<nat> {
    match content_length {
        Some(n) => Some(n as nat),
        None => None,
    }
}

/// Takes a body of known length from `start`, or else all that is left.
pub fn read_plain_body(bytes: &[u8], start: usize, content_length: Option<usize>) -> (r: Result<
    Vec<u8>,
    ResponseError,
>)
    ensures
        match r {
            Ok(body) => plain_body(bytes@, start as int, announced(content_length)) == Ok::<
                _,
                ResponseError,
            >(body@),
            Err(e) => plain_body(bytes@, start as int, announced(content_length)) == Err::<
                Seq<u8>,
                _,
            >(e),
        },
{
    if start > bytes.len() {
        return Err(ResponseError::Truncated);
    }
    let n = match content_length {
        Some(n) => n,
        None => bytes.len() - start,
    };
    if n > bytes.len() - start {
        return Err(ResponseError::Truncated);
    }
    let mut body: Vec<u8> = Vec::new();
    body.extend_from_slice(slice_subrange(bytes, start, start + n));
    assert(body@ =~= bytes@.subrange(start as int, start + n));
    Ok(body)
}

/// Whether a carriage return and a line feed stand at `at`.
fn is_crlf_at(bytes: &[u8], at: usize) -> (yes: bool)
    requires
        at <= bytes@.len(),
    ensures
        yes == crlf_at(bytes@, at as int),
{
    bytes.len() - at >= 2 && bytes[at] == CR && bytes[at + 1] == LF
}

/// Joins the chunks that stand from `start` on.
pub fn read_chunked_body(bytes: &[u8], start: usize) -> (r: Result<Vec<u8>, ResponseError>)
    ensures
        match r {
            Ok(body) => chunked_body(bytes@, start as int) == Ok::<_, ResponseError>(body@),
            Err(e) => chunked_body(bytes@, start as int) == Err::<Seq<u8>, _>(e),
        },
{
    if start > bytes.len() {
        return Err(ResponseError::Truncated);
    }
    let mut body: Vec<u8> = Vec::new();
    let mut pos: usize = start;
    loop
        invariant
            pos <= bytes@.len() <= usize::MAX,
            match chunked_body(bytes@, pos as int) {
                Ok(rest) => chunked_body(bytes@, start as int) == Ok::<_, ResponseError>(
                    body@ + rest,
                ),
                Err(e) => chunked_body(bytes@, start as int) == Err::<Seq<u8>, _>(e),
            },
        decreases bytes@.len() - pos,
    {
        let cr = position_of(bytes, CR, pos);
        if !is_crlf_at(bytes, cr) {
            return Err(ResponseError::MalformedChunk);
        }
        let n = match parse_hex(slice_subrange(bytes, pos, cr)) {
            Some(n) => n,
            None => {
                return Err(ResponseError::InvalidChunkSize);
            },
        };
        if n == 0 {
            return Ok(body);
        }
        let data = cr + 2;
        if n > bytes.len() - data || !is_crlf_at(bytes, data + n) {
            return Err(ResponseError::MalformedChunk);
        }
        let ghost before = body@;
        body.extend_from_slice(slice_subrange(bytes, data, data + n));
        proof {
            let chunk = bytes@.subrange(data as int, data + n);
            assert(body@ == before + chunk);
            match chunked_body(bytes@, data + n + 2) {
                Ok(rest) => {
                    assert(before + (chunk + rest) =~= (before + chunk) + rest);
                },
                Err(_) => {},
            }
        }
        pos = data + n + 2;
    }
}

/// A parsed response.
pub struct Response {
    status_code: u16,
    status_message: String,
    headers: Headers,
    body: Vec<u8>,
}

impl View for Response {
    type V = ResponseView;

    closed spec fn view(&self) -> ResponseView {
        ResponseView {
            status_code: self.status_code,
            status_message: self.status_message@,
            headers: self.headers@,
            body: self.body@,
        }
    }
}

impl Response {
    /// Reads the whole response that a buffer holds. The buffer must hold
    /// all of it: nothing is read piece by piece.
    pub fn parse(bytes: &[u8]) -> (r: Result<Response, ResponseError>)
        ensures
            is_parse_of(bytes@, r),
    {
        let (line, end) = line_from(bytes, 0);
        let (status_code, status_message) = match parse_status_line(line) {
            Ok(status) => status,
            Err(e) => {
                return Err(e);
            },
        };
        if end >= bytes.len() {
            return Err(ResponseError::Truncated);
        }
        let mut headers = Headers::default();
        let mut content_length: Option<usize> = None;
        let mut chunked = false;
        let mut pos: usize = end + 1;
        let ghost first = pos as int;
        let ghost mut head = empty_head();
        loop
            invariant_except_break
                pos <= bytes@.len(),
                head == (Head {
                    fields: headers@,
                    content_length: announced(content_length),
                    chunked,
                }),
                head_from(bytes@, first, empty_head()) == head_from(bytes@, pos as int, head),
            invariant
                bytes@.len() <= usize::MAX,
                first == find_byte(bytes@, LF, 0) + 1,
                status_of(strip_cr(bytes@.subrange(0, first - 1))) == Ok::<_, ResponseError>(
                    (status_code, status_message@),
                ),
            ensures
                pos <= bytes@.len(),
                head_from(bytes@, first, empty_head()) == Ok::<_, ResponseError>(
                    (head, pos as int),
                ),
                head == (Head {
                    fields: headers@,
                    content_length: announced(content_length),
                    chunked,
                }),
            decreases bytes@.len() - pos,
        {
            let (line, end) = line_from(bytes, pos);
            if line.len() == 0 {
                if end >= bytes.len() {
                    return Err(ResponseError::Truncated);
                }
                pos = end + 1;
                break;
            }
            let (name, value) = match parse_field(line) {
                Ok(field) => field,
                Err(e) => {
                    return Err(e);
                },
            };
            headers.insert(name.as_str(), value.as_str());
            let lower = to_lowercase(name.as_str());
            match field_kind(lower.as_str()) {
                FieldKind::ContentLength => match parse_decimal(value.as_str().as_bytes()) {
                    Some(n) => {
                        content_length = Some(n);
                    },
                    None => {
                        return Err(ResponseError::InvalidContentLength);
                    },
                },
                FieldKind::TransferEncoding => {
                    let coding = to_lowercase(value.as_str());
                    if !same_text(coding.as_str(), "chunked") {
                        return Err(ResponseError::UnknownTransferEncoding);
                    }
                    chunked = true;
                },
                FieldKind::Other => {},
            }
            proof {
                head = head_with(head, name@, value@).unwrap();
            }
            if end >= bytes.len() {
                return Err(ResponseError::Truncated);
            }
            pos = end + 1;
        }
        let body = if chunked {
            read_chunked_body(bytes, pos)
        } else {
            read_plain_body(bytes, pos, content_length)
        };
        match body {
            Ok(body) => Ok(Response { status_code, status_message, headers, body }),
            Err(e) => Err(e),
        }
    }

    /// The status code, as the status line gave it.
    pub fn status_code(&self) -> (code: u16)
        ensures
            code == self@.status_code,
    {
        self.status_code
    }

    /// The reason phrase of the status line.
    pub fn status_message(&self) -> (message: &str)
        ensures
            message@ == self@.status_message,
    {
        self.status_message.as_str()
    }

    /// The header fields.
    pub fn headers(&self) -> (headers: &Headers)
        ensures
            headers@ == self@.headers,
    {
        &self.headers
    }

    /// The body, free of any framing.
    pub fn body(&self) -> (body: &[u8])
        ensures
            body@ == self@.body,
    {
        self.body.as_slice()
    }
}

} // verus!
