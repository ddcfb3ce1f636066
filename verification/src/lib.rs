//! A minimal HTTP/1.0 and HTTP/1.1 client core: request serialization and
//! response parsing, with contracts checked by Verus.

pub mod client;
pub mod digits;
pub mod error;
pub mod headers;
pub mod lines;
pub mod request;
pub mod response;
pub mod round_trip;
pub mod scan;
pub mod text;
