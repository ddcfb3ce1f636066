//! The ways in which a response can fail to parse.

use vstd::prelude::*;

verus! {

/// Why a buffer is not a response. No part of a response is returned
/// with an error.
#[derive(Clone, Copy, Debug, PartialEq, Eq, Structural)]
pub enum ResponseError {
    /// The status line or a header line is not well-formed UTF-8.
    InvalidUtf8,
    /// The status line has fewer than three parts.
    MalformedStatusLine,
    /// The status code is not a decimal number of 16 bits.
    InvalidStatusCode,
    /// A header line has no colon followed by a space.
    MalformedHeader,
    /// The value of `Content-Length` is not a decimal number.
    InvalidContentLength,
    /// The value of `Transfer-Encoding` is not `chunked`.
    UnknownTransferEncoding,
    /// The size of a chunk is not a hexadecimal number.
    InvalidChunkSize,
    /// A chunk's size or data is not followed by a line break, or the
    /// data is cut short.
    MalformedChunk,
    /// The buffer ends before the header block does, or before the body
    /// has the length that was announced.
    Truncated,
}

impl ResponseError {
    /// The cause in words.
    pub open spec fn cause(self) -> Seq<char> {
        match self {
            ResponseError::InvalidUtf8 => "text is not valid UTF-8"@,
            ResponseError::MalformedStatusLine => "status line has fewer than three parts"@,
            ResponseError::InvalidStatusCode => "invalid status code"@,
            ResponseError::MalformedHeader => "invalid header"@,
            ResponseError::InvalidContentLength => "invalid content-length value"@,
            ResponseError::UnknownTransferEncoding => "unknown transfer-encoding value"@,
            ResponseError::InvalidChunkSize => "invalid chunk size"@,
            ResponseError::MalformedChunk => "invalid chunk"@,
            ResponseError::Truncated => "response is cut short"@,
        }
    }

    /// The cause in words, as a string.
    pub fn message(&self) -> (text: String)
        ensures
            text@ == self.cause(),
    {
        let text = match self {
            ResponseError::InvalidUtf8 => "text is not valid UTF-8",
            ResponseError::MalformedStatusLine => "status line has fewer than three parts",
            ResponseError::InvalidStatusCode => "invalid status code",
            ResponseError::MalformedHeader => "invalid header",
            ResponseError::InvalidContentLength => "invalid content-length value",
            ResponseError::UnknownTransferEncoding => "unknown transfer-encoding value",
            ResponseError::InvalidChunkSize => "invalid chunk size",
            ResponseError::MalformedChunk => "invalid chunk",
            ResponseError::Truncated => "response is cut short",
        };
        text.to_owned()
    }
}

} // verus!
