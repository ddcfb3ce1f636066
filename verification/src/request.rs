//! Requests, and the bytes that stand for them on the wire.

use crate::digits::{digits, format_decimal, format_hex, lemma_digits_plain};
use crate::headers::{fields_view, listing_of, Entry, Headers};
use crate::scan::{COLON, CR, LF, SP};
use crate::text::{ascii_string, ascii_text, lowercase_of};
use vstd::prelude::*;
use vstd::utf8::encode_utf8;

verus! {

/// The version of the protocol that a request is written for.
#[derive(Clone, Copy, Debug, PartialEq, Eq, Structural)]
pub enum HttpVersion {
    Http1_0,
    Http1_1,
}

/// The version as the request line spells it.
pub open spec fn version_text(version: HttpVersion) -> Seq<char> {
    match version {
        HttpVersion::Http1_0 => "HTTP/1.0"@,
        HttpVersion::Http1_1 => "HTTP/1.1"@,
    }
}

/// A line break: carriage return, line feed.
pub open spec fn crlf() -> Seq<u8> {
    seq![CR, LF]
}

/// The request line: method, path and version with a space between, and
/// a line break.
pub open spec fn request_line(method: Seq<char>, path: Seq<char>, version: HttpVersion) -> Seq<u8> {
    encode_utf8(method) + seq![SP] + encode_utf8(path) + seq![SP] + encode_utf8(
        version_text(version),
    ) + crlf()
}

/// A header line: name, colon, space, value, and a line break.
pub open spec fn header_line(field: Entry) -> Seq<u8> {
    encode_utf8(field.0) + seq![COLON, SP] + encode_utf8(field.1) + crlf()
}

/// The header lines of a listing, in its order.
pub open spec fn header_block(fields: Seq<Entry>) -> Seq<u8>
    decreases fields.len(),
{
    if fields.len() == 0 {
        Seq::empty()
    } else {
        header_block(fields.drop_last()) + header_line(fields.last())
    }
}

/// All that precedes the body: the request line, the header lines and
/// an empty line.
pub open spec fn head_bytes(
    method: Seq<char>,
    path: Seq<char>,
    version: HttpVersion,
    fields: Seq<Entry>,
) -> Seq<u8> {
    request_line(method, path, version) + header_block(fields) + crlf()
}

/// One chunk: the size in hexadecimal, a line break, the data, a line
/// break.
pub open spec fn chunk(data: Seq<u8>) -> Seq<u8> {
    digits(data.len(), 16) + crlf() + data + crlf()
}

/// The chunk of size zero that ends a chunked body.
pub open spec fn last_chunk() -> Seq<u8> {
    seq![0x30u8, CR, LF, CR, LF]
}

/// A body in chunks: one chunk with all of it unless it is empty, then
/// the last chunk.
pub open spec fn chunked(body: Seq<u8>) -> Seq<u8> {
    if body.len() > 0 {
        chunk(body) + last_chunk()
    } else {
        last_chunk()
    }
}

/// A number in decimal, as text.
pub open spec fn decimal_text(n: nat) -> Seq<char> {
    ascii_text(digits(n, 10))
}

/// A request as a value: what `Request` stands for.
pub struct RequestView {
    pub method: Seq<char>,
    pub path: Seq<char>,
    pub headers: Map<Seq<char>, Seq<char>>,
    pub body: Option<Seq<u8>>,
}

impl RequestView {
    /// The bytes of the body; none where there is no body.
    pub open spec fn body_bytes(self) -> Seq<u8> {
        match self.body {
            Some(body) => body,
            None => Seq::empty(),
        }
    }

    /// The fields that an HTTP/1.0 request is sent with: its own and the
    /// length of its body.
    pub open spec fn fields_v10(self) -> Map<Seq<char>, Seq<char>> {
        self.headers.insert(
            lowercase_of("Content-Length"@),
            decimal_text(self.body_bytes().len()),
        )
    }

    /// The fields that an HTTP/1.1 request is sent with: its own and the
    /// notice that the body comes in chunks.
    pub open spec fn fields_v11(self) -> Map<Seq<char>, Seq<char>> {
        self.headers.insert(lowercase_of("Transfer-Encoding"@), "chunked"@)
    }

    /// The request on the wire in HTTP/1.0: the head, then the body as
    /// it is.
    pub open spec fn wire_v10(self) -> Seq<u8> {
        head_bytes(self.method, self.path, HttpVersion::Http1_0, listing_of(self.fields_v10()))
            + self.body_bytes()
    }

    /// The request on the wire in HTTP/1.1: the head, then the body in
    /// chunks.
    pub open spec fn wire_v11(self) -> Seq<u8> {
        head_bytes(self.method, self.path, HttpVersion::Http1_1, listing_of(self.fields_v11()))
            + chunked(self.body_bytes())
    }
}

/// A request, built to be sent once.
pub struct Request {
    pub method: String,
    pub path: String,
    pub headers: Headers,
    pub body: Option<Vec<u8>>,
}

impl View for Request {
    type V = RequestView;

    open spec fn view(&self) -> RequestView {
        RequestView {
            method: self.method@,
            path: self.path@,
            headers: self.headers@,
            body: match self.body {
                Some(body) => Some(body@),
                None => None,
            },
        }
    }
}

/// Appends bytes to a buffer.
fn put(writer: &mut Vec<u8>, bytes: &[u8])
    ensures
        final(writer)@ == old(writer)@ + bytes@,
{
    writer.extend_from_slice(bytes);
}

/// Appends a line break to a buffer.
fn put_crlf(writer: &mut Vec<u8>)
    ensures
        final(writer)@ == old(writer)@ + crlf(),
{
    writer.push(CR);
    writer.push(LF);
}

/// Appends the head of a request to a buffer: the request line, a line
/// for each field in the order given, and an empty line.
pub fn write_head(
    writer: &mut Vec<u8>,
    method: &str,
    path: &str,
    version: HttpVersion,
    fields: &[(String, String)],
)
    ensures
        final(writer)@ == old(writer)@ + head_bytes(
            method@,
            path@,
            version,
            fields_view(fields@),
        ),
{
    let ghost start = writer@;
    put(writer, method.as_bytes());
    writer.push(SP);
    put(writer, path.as_bytes());
    writer.push(SP);
    match version {
        HttpVersion::Http1_0 => put(writer, "HTTP/1.0".as_bytes()),
        HttpVersion::Http1_1 => put(writer, "HTTP/1.1".as_bytes()),
    }
    put_crlf(writer);
    let ghost listing = fields_view(fields@);
    let mut i: usize = 0;
    while i < fields.len()
        invariant
            i <= fields@.len(),
            listing == fields_view(fields@),
            writer@ == start + request_line(method@, path@, version) + header_block(
                listing.take(i as int),
            ),
        decreases fields@.len() - i,
    {
        put(writer, fields[i].0.as_str().as_bytes());
        writer.push(COLON);
        writer.push(SP);
        put(writer, fields[i].1.as_str().as_bytes());
        put_crlf(writer);
        assert(listing.take(i + 1).drop_last() =~= listing.take(i as int));
        i = i + 1;
    }
    assert(listing.take(i as int) =~= listing);
    put_crlf(writer);
}

impl Request {
    /// Writes the request as HTTP/1.0: with the length of the body as a
    /// field, even where there is no body, and the body unframed.
    pub fn send_v10(self, writer: &mut Vec<u8>)
        ensures
            final(writer)@ == old(writer)@ + self@.wire_v10(),
    {
        let Request { method, path, headers, body } = self;
        let mut headers = headers;
        let body = match body {
            Some(body) => body,
            None => Vec::new(),
        };
        let length = format_decimal(body.len());
        proof {
            lemma_digits_plain(body@.len(), 10);
        }
        headers.insert("Content-Length", ascii_string(length.as_slice()).as_str());
        proof {
            headers.lemma_view();
        }
        write_head(writer, method.as_str(), path.as_str(), HttpVersion::Http1_0, headers.iter());
        if body.len() > 0 {
            put(writer, body.as_slice());
        }
    }

    /// Writes the request as HTTP/1.1: always announced as chunked, the
    /// body as one chunk unless it is empty, and the last chunk.
    pub fn send_v11(self, writer: &mut Vec<u8>)
        ensures
            final(writer)@ == old(writer)@ + self@.wire_v11(),
    {
        let Request { method, path, headers, body } = self;
        let mut headers = headers;
        let body = match body {
            Some(body) => body,
            None => Vec::new(),
        };
        headers.insert("Transfer-Encoding", "chunked");
        proof {
            headers.lemma_view();
        }
        write_head(writer, method.as_str(), path.as_str(), HttpVersion::Http1_1, headers.iter());
        if body.len() > 0 {
            let size = format_hex(body.len());
            put(writer, size.as_slice());
            put_crlf(writer);
            put(writer, body.as_slice());
            put_crlf(writer);
        }
        writer.push(0x30);
        put_crlf(writer);
        put_crlf(writer);
    }
}

} // verus!
