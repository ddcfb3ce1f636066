//! The client: from a URL, a method and a body to the place to connect
//! to and the bytes to send there.

use crate::headers::Headers;
use crate::request::{HttpVersion, Request, RequestView};
use crate::text::{lowercase_of, same_text};
use vstd::prelude::*;
use vstd::string::StringExecFns;

verus! {

/// The error of the `url` crate's parser.
#[verifier::external_type_specification]
#[verifier::external_body]
pub struct ExUrlParseError(url::ParseError);

/// What the client reads of a parsed URL.
pub struct UrlParts {
    pub scheme: String,
    pub host: Option<String>,
    pub port: Option<u16>,
    pub path: String,
    pub query: Option<String>,
}

/// The parts of a URL as values.
pub struct UrlPartsView {
    pub scheme: Seq<char>,
    pub host: Option<Seq<char>>,
    pub port: Option<u16>,
    pub path: Seq<char>,
    pub query: Option<Seq<char>>,
}

impl View for UrlParts {
    type V = UrlPartsView;

    open spec fn view(&self) -> UrlPartsView {
        UrlPartsView {
            scheme: self.scheme@,
            host: match self.host {
                Some(host) => Some(host@),
                None => None,
            },
            port: self.port,
            path: self.path@,
            query: match self.query {
                Some(query) => Some(query@),
                None => None,
            },
        }
    }
}

/// The parts of the URL that a text spells, as the `url` crate reads it;
/// none where its parser refuses the text.
pub uninterp spec fn parsed_url(input: Seq<char>) -> Option<UrlPartsView>;

/// Calls `url::Url::parse` and copies out of the `Url` what `scheme`,
/// `host` (through the `Display` of `url::Host`), `port`, `path` and
/// `query` return. The contract only names the result: it says that the
/// parts depend on the text alone, and that an error comes exactly where
/// there are none.
#[verifier::external_body]
fn parse_url(input: &str) -> (r: Result<UrlParts, url::ParseError>)
    ensures
        match r {
            Ok(parts) => parsed_url(input@) == Some(parts@),
            Err(_) => parsed_url(input@) is None,
        },
{
    let url = url::Url::parse(input)?;
    Ok(
        UrlParts {
            scheme: url.scheme().to_string(),
            host: url.host().map(|host| host.to_string()),
            port: url.port(),
            path: url.path().to_string(),
            query: url.query().map(|query| query.to_string()),
        },
    )
}

/// Calls `to_string` on the `url` crate's parse error, which writes its
/// description. Nothing is claimed of the text.
#[verifier::external_body]
fn url_error_text(error: &url::ParseError) -> String {
    error.to_string()
}

/// Why no request can be made for a URL.
#[derive(Debug)]
pub enum RequestError {
    /// The text is no absolute URL.
    InvalidUrl(url::ParseError),
    /// The URL names no host.
    NoHost,
    /// The scheme, given here, is neither `http` nor `https`.
    UnknownScheme(String),
}

impl RequestError {
    /// The cause in words, as far as it is the client's own: what the
    /// URL parser says of a text that it refuses is its matter.
    pub open spec fn cause(self) -> Option<Seq<char>> {
        match self {
            RequestError::InvalidUrl(_) => None,
            RequestError::NoHost => Some("Given URL does not contain a host"@),
            RequestError::UnknownScheme(scheme) => Some("Unknown scheme: "@ + scheme@),
        }
    }

    /// The cause in words, as a string.
    pub fn message(&self) -> (text: String)
        ensures
            self.cause() matches Some(cause) ==> text@ == cause,
    {
        match self {
            RequestError::InvalidUrl(error) => url_error_text(error),
            RequestError::NoHost => "Given URL does not contain a host".to_owned(),
            RequestError::UnknownScheme(scheme) => {
                let mut text = "Unknown scheme: ".to_owned();
                text.append(scheme.as_str());
                text
            },
        }
    }
}

/// How the connection is made: plainly or under TLS.
#[derive(Clone, Copy, Debug, PartialEq, Eq, Structural)]
pub enum Scheme {
    Http,
    Https,
}

/// The scheme that a URL's scheme text stands for, if it is one that the
/// client speaks.
pub open spec fn scheme_of(text: Seq<char>) -> Option<Scheme> {
    if text == "http"@ {
        Some(Scheme::Http)
    } else if text == "https"@ {
        Some(Scheme::Https)
    } else {
        None
    }
}

/// The port that a scheme is served on where the URL gives none.
pub open spec fn default_port(scheme: Scheme) -> u16 {
    match scheme {
        Scheme::Http => 80,
        Scheme::Https => 443,
    }
}

/// The request target: the path, then a question mark and the query
/// where there is one.
pub open spec fn target_of(path: Seq<char>, query: Option<Seq<char>>) -> Seq<char> {
    match query {
        Some(query) => path + "?"@ + query,
        None => path,
    }
}

/// The agent that the client names itself as where the caller names none.
pub open spec fn default_agent() -> Seq<char> {
    "mini_http/0.1.0"@
}

/// The fields of a request: the client's own, the host in any case, the
/// default agent unless one is set, and for HTTP/1.1 the notice that the
/// connection is closed after the response.
pub open spec fn fields_for(
    own: Map<Seq<char>, Seq<char>>,
    host: Seq<char>,
    version: HttpVersion,
) -> Map<Seq<char>, Seq<char>> {
    let hosted = own.insert(lowercase_of("Host"@), host);
    let named = if hosted.contains_key(lowercase_of("User-Agent"@)) {
        hosted
    } else {
        hosted.insert(lowercase_of("User-Agent"@), default_agent())
    };
    match version {
        HttpVersion::Http1_0 => named,
        HttpVersion::Http1_1 => named.insert(lowercase_of("Connection"@), "close"@),
    }
}

/// The bytes of a request in the framing of a version.
pub open spec fn wire(version: HttpVersion, request: RequestView) -> Seq<u8> {
    match version {
        HttpVersion::Http1_0 => request.wire_v10(),
        HttpVersion::Http1_1 => request.wire_v11(),
    }
}

/// Where to connect and what to send there.
pub struct Exchange {
    pub host: String,
    pub port: u16,
    pub scheme: Scheme,
    pub request: Vec<u8>,
}

/// Whether `r` is what a client of the given version and fields makes of
/// a method, the parts of a URL and a body: an error where the URL has no
/// host or, with a host, a scheme that the client does not speak; else
/// the host, the URL's port or the scheme's own, and the request in the
/// version's framing.
pub open spec fn is_exchange_for(
    version: HttpVersion,
    own: Map<Seq<char>, Seq<char>>,
    method: Seq<char>,
    parts: UrlPartsView,
    body: Option<Seq<u8>>,
    r: Result<Exchange, RequestError>,
) -> bool {
    match r {
        Err(RequestError::InvalidUrl(_)) => false,
        Err(RequestError::NoHost) => parts.host is None,
        Err(RequestError::UnknownScheme(text)) => {
            &&& parts.host is Some
            &&& scheme_of(parts.scheme) is None
            &&& text@ == parts.scheme
        },
        Ok(exchange) => {
            &&& parts.host == Some(exchange.host@)
            &&& scheme_of(parts.scheme) == Some(exchange.scheme)
            &&& exchange.port == match parts.port {
                Some(port) => port,
                None => default_port(exchange.scheme),
            }
            &&& exchange.request@ == wire(
                version,
                RequestView {
                    method,
                    path: target_of(parts.path, parts.query),
                    headers: fields_for(own, exchange.host@, version),
                    body,
                },
            )
        },
    }
}

/// What the stream did when the exchange was over.
#[derive(Clone, Copy, Debug, PartialEq, Eq, Structural)]
pub enum StreamEnd {
    /// The peer closed the stream in order.
    Closed,
    /// The stream ended without the closing that the protocol asks for.
    UnexpectedEof,
    /// Writing or reading failed in another way.
    Failed,
}

/// Whether what was read counts as the whole response: always after an
/// orderly close, and under TLS also after an end without one, since
/// many servers do not close their session. Any other failure ends the
/// request.
pub fn accepts_end(scheme: Scheme, end: StreamEnd) -> (accepted: bool)
    ensures
        accepted == (end == StreamEnd::Closed || (scheme == Scheme::Https && end
            == StreamEnd::UnexpectedEof)),
{
    match end {
        StreamEnd::Closed => true,
        StreamEnd::UnexpectedEof => match scheme {
            Scheme::Https => true,
            Scheme::Http => false,
        },
        StreamEnd::Failed => false,
    }
}

/// Tells the scheme from its text.
pub fn scheme_from(text: &str) -> (scheme: Option<Scheme>)
    ensures
        scheme == scheme_of(text@),
{
    if same_text(text, "http") {
        Some(Scheme::Http)
    } else if same_text(text, "https") {
        Some(Scheme::Https)
    } else {
        None
    }
}

/// A client: the version it speaks and the fields it sends with every
/// request.
pub struct Client {
    http_version: HttpVersion,
    headers: Headers,
}

impl Client {
    /// The version that the client speaks.
    pub closed spec fn version(&self) -> HttpVersion {
        self.http_version
    }

    /// The fields that the client sends with every request.
    pub closed spec fn fields(&self) -> Map<Seq<char>, Seq<char>> {
        self.headers@
    }

    /// A client for the given version, with no fields of its own.
    pub fn new(http_version: HttpVersion) -> (client: Client)
        ensures
            client.version() == http_version,
            client.fields() == Map::<Seq<char>, Seq<char>>::empty(),
    {
        Client { http_version, headers: Headers::default() }
    }

    /// The client's fields, to be changed in place.
    pub fn headers_mut(&mut self) -> (headers: &mut Headers)
        ensures
            headers@ == old(self).fields(),
            final(self).fields() == final(headers)@,
            final(self).version() == old(self).version(),
    {
        &mut self.headers
    }

    /// Makes the exchange for a method, the parts of a URL and a body.
    pub fn request_for(&self, method: &str, parts: UrlParts, body: Option<Vec<u8>>) -> (r: Result<
        Exchange,
        RequestError,
    >)
        ensures
            is_exchange_for(
                self.version(),
                self.fields(),
                method@,
                parts@,
                match body {
                    Some(body) => Some(body@),
                    None => None,
                },
                r,
            ),
    {
        let UrlParts { scheme, host, port, path, query } = parts;
        let host = match host {
            Some(host) => host,
            None => {
                return Err(RequestError::NoHost);
            },
        };
        let scheme = match scheme_from(scheme.as_str()) {
            Some(known) => known,
            None => {
                return Err(RequestError::UnknownScheme(scheme));
            },
        };
        let port = match port {
            Some(port) => port,
            None => match scheme {
                Scheme::Http => 80,
                Scheme::Https => 443,
            },
        };
        let mut headers = self.headers.clone();
        headers.insert("Host", host.as_str());
        if !headers.contains("User-Agent") {
            headers.insert("User-Agent", "mini_http/0.1.0");
        }
        match self.http_version {
            HttpVersion::Http1_0 => {},
            HttpVersion::Http1_1 => {
                headers.insert("Connection", "close");
            },
        }
        let mut target = path;
        match query {
            Some(query) => {
                target.append("?");
                target.append(query.as_str());
            },
            None => {},
        }
        let request = Request { method: method.to_owned(), path: target, headers, body };
        let mut bytes: Vec<u8> = Vec::new();
        match self.http_version {
            HttpVersion::Http1_0 => request.send_v10(&mut bytes),
            HttpVersion::Http1_1 => request.send_v11(&mut bytes),
        }
        Ok(Exchange { host, port, scheme, request: bytes })
    }

    /// Makes the exchange for a method, a URL and a body: where to
    /// connect, and the bytes of the request.
    pub fn prepare(&self, method: &str, url: &str, body: Option<Vec<u8>>) -> (r: Result<
        Exchange,
        RequestError,
    >)
        ensures
            match parsed_url(url@) {
                None => r matches Err(RequestError::InvalidUrl(_)),
                Some(parts) => is_exchange_for(
                    self.version(),
                    self.fields(),
                    method@,
                    parts,
                    match body {
                        Some(body) => Some(body@),
                        None => None,
                    },
                    r,
                ),
            },
    {
        match parse_url(url) {
            Ok(parts) => self.request_for(method, parts, body),
            Err(error) => Err(RequestError::InvalidUrl(error)),
        }
    }
}

} // verus!
