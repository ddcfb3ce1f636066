use mini_http::client::{
    accepts_end, scheme_from, Client, Exchange, RequestError, Scheme, StreamEnd, UrlParts,
};
use mini_http::request::HttpVersion;

fn prepared(client: &Client, method: &str, url: &str, body: Option<Vec<u8>>) -> Exchange {
    match client.prepare(method, url, body) {
        Ok(exchange) => exchange,
        Err(error) => panic!("no exchange: {}", error.message()),
    }
}

fn text(bytes: &[u8]) -> String {
    String::from_utf8(bytes.to_vec()).unwrap()
}

#[test]
fn http_url_in_v10() {
    let exchange = prepared(&Client::new(HttpVersion::Http1_0), "GET", "http://example.com/x?y=1", None);
    assert_eq!(exchange.host, "example.com");
    assert_eq!(exchange.port, 80);
    assert_eq!(exchange.scheme, Scheme::Http);
    assert_eq!(
        text(&exchange.request),
        "GET /x?y=1 HTTP/1.0\r\ncontent-length: 0\r\nhost: example.com\r\nuser-agent: mini_http/0.1.0\r\n\r\n"
    );
}

#[test]
fn https_url_in_v11() {
    let exchange = prepared(&Client::new(HttpVersion::Http1_1), "GET", "https://google.com/", None);
    assert_eq!(exchange.host, "google.com");
    assert_eq!(exchange.port, 443);
    assert_eq!(exchange.scheme, Scheme::Https);
    assert_eq!(
        text(&exchange.request),
        "GET / HTTP/1.1\r\nconnection: close\r\nhost: google.com\r\ntransfer-encoding: chunked\r\nuser-agent: mini_http/0.1.0\r\n\r\n0\r\n\r\n"
    );
}

#[test]
fn explicit_port_is_kept() {
    let client = Client::new(HttpVersion::Http1_0);
    assert_eq!(prepared(&client, "GET", "http://example.com:8080/", None).port, 8080);
    assert_eq!(prepared(&client, "GET", "https://example.com:8443/", None).port, 8443);
    assert_eq!(prepared(&client, "GET", "https://example.com:80/", None).port, 80);
}

#[test]
fn url_without_path_asks_for_the_root() {
    let exchange = prepared(&Client::new(HttpVersion::Http1_0), "GET", "http://example.com", None);
    assert!(text(&exchange.request).starts_with("GET / HTTP/1.0\r\n"));
}

#[test]
fn url_is_normalised_by_the_parser() {
    let client = Client::new(HttpVersion::Http1_0);
    let exchange = prepared(&client, "GET", "HTTP://EXAMPLE.com/a b?q=\u{e9}#frag", None);
    assert_eq!(exchange.host, "example.com");
    assert_eq!(exchange.scheme, Scheme::Http);
    assert!(text(&exchange.request).starts_with("GET /a%20b?q=%C3%A9 HTTP/1.0\r\n"));
}

#[test]
fn address_hosts() {
    let client = Client::new(HttpVersion::Http1_0);
    let exchange = prepared(&client, "GET", "http://127.0.0.1:3000/", None);
    assert_eq!(exchange.host, "127.0.0.1");
    assert_eq!(exchange.port, 3000);
    let exchange = prepared(&client, "GET", "http://[::1]/", None);
    assert_eq!(exchange.host, "[::1]");
    assert!(text(&exchange.request).contains("\r\nhost: [::1]\r\n"));
}

#[test]
fn post_carries_the_body() {
    let client = Client::new(HttpVersion::Http1_0);
    let exchange = prepared(&client, "POST", "http://h/p", Some(b"data".to_vec()));
    assert_eq!(
        text(&exchange.request),
        "POST /p HTTP/1.0\r\ncontent-length: 4\r\nhost: h\r\nuser-agent: mini_http/0.1.0\r\n\r\ndata"
    );
    let client = Client::new(HttpVersion::Http1_1);
    let exchange = prepared(&client, "POST", "http://h/p", Some(b"data".to_vec()));
    assert_eq!(
        text(&exchange.request),
        "POST /p HTTP/1.1\r\nconnection: close\r\nhost: h\r\ntransfer-encoding: chunked\r\nuser-agent: mini_http/0.1.0\r\n\r\n4\r\ndata\r\n0\r\n\r\n"
    );
}

#[test]
fn own_fields_are_sent_and_host_is_overwritten() {
    let mut client = Client::new(HttpVersion::Http1_0);
    client.headers_mut().insert("Accept", "*/*");
    client.headers_mut().insert("HOST", "wrong");
    client.headers_mut().insert("User-agent", "mine/1");
    let exchange = prepared(&client, "GET", "http://right/", None);
    assert_eq!(
        text(&exchange.request),
        "GET / HTTP/1.0\r\naccept: */*\r\ncontent-length: 0\r\nhost: right\r\nuser-agent: mine/1\r\n\r\n"
    );
    let again = prepared(&client, "GET", "http://other/", None);
    assert!(text(&again.request).contains("\r\nhost: other\r\n"));
}

#[test]
fn connection_close_only_in_v11() {
    let mut client = Client::new(HttpVersion::Http1_1);
    client.headers_mut().insert("Connection", "keep-alive");
    let exchange = prepared(&client, "GET", "http://h/", None);
    assert!(text(&exchange.request).contains("\r\nconnection: close\r\n"));
    let mut client = Client::new(HttpVersion::Http1_0);
    client.headers_mut().insert("Connection", "keep-alive");
    let exchange = prepared(&client, "GET", "http://h/", None);
    assert!(text(&exchange.request).contains("\r\nconnection: keep-alive\r\n"));
    let exchange = prepared(&Client::new(HttpVersion::Http1_0), "GET", "http://h/", None);
    assert!(!text(&exchange.request).contains("connection"));
}

#[test]
fn text_that_is_no_url() {
    let client = Client::new(HttpVersion::Http1_1);
    for url in ["", "example.com", "/path", "http://", "http://exa mple.com/", "http://h:99999/"] {
        match client.prepare("GET", url, None) {
            Err(RequestError::InvalidUrl(_)) => {}
            other => panic!("{:?}", other.map(|exchange| exchange.host)),
        }
    }
    let error = client.prepare("GET", "example.com", None).err().unwrap();
    assert_eq!(error.message(), "relative URL without a base");
}

#[test]
fn url_without_host() {
    let client = Client::new(HttpVersion::Http1_1);
    for url in ["mailto:someone@example.com", "data:text/plain,x", "unix:/run/x.socket"] {
        match client.prepare("GET", url, None) {
            Err(RequestError::NoHost) => {}
            other => panic!("{:?}", other.map(|exchange| exchange.host)),
        }
    }
    let error = client.prepare("GET", "mailto:a@b", None).err().unwrap();
    assert_eq!(error.message(), "Given URL does not contain a host");
}

#[test]
fn scheme_that_is_not_spoken() {
    let client = Client::new(HttpVersion::Http1_1);
    for (url, scheme) in [("ftp://example.com/", "ftp"), ("ws://h:80/", "ws"), ("gopher://h:70/", "gopher")] {
        match client.prepare("GET", url, None) {
            Err(RequestError::UnknownScheme(text)) => assert_eq!(text, scheme),
            other => panic!("{:?}", other.map(|exchange| exchange.host)),
        }
    }
    let error = client.prepare("GET", "ftp://h/", None).err().unwrap();
    assert_eq!(error.message(), "Unknown scheme: ftp");
}

#[test]
fn exchange_from_parts() {
    let client = Client::new(HttpVersion::Http1_0);
    let parts = UrlParts {
        scheme: "https".to_string(),
        host: Some("h".to_string()),
        port: None,
        path: "/p".to_string(),
        query: Some("a=b".to_string()),
    };
    let exchange = client.request_for("GET", parts, None).unwrap();
    assert_eq!(exchange.port, 443);
    assert_eq!(exchange.scheme, Scheme::Https);
    assert!(text(&exchange.request).starts_with("GET /p?a=b HTTP/1.0\r\n"));
    let parts = UrlParts {
        scheme: "HTTP".to_string(),
        host: None,
        port: Some(1),
        path: String::new(),
        query: None,
    };
    assert!(matches!(client.request_for("GET", parts, None), Err(RequestError::NoHost)));
    let parts = UrlParts {
        scheme: "HTTP".to_string(),
        host: Some("h".to_string()),
        port: Some(1),
        path: String::new(),
        query: None,
    };
    assert!(matches!(client.request_for("GET", parts, None), Err(RequestError::UnknownScheme(_))));
    let parts = UrlParts {
        scheme: "http".to_string(),
        host: Some("h".to_string()),
        port: Some(1),
        path: "/".to_string(),
        query: Some(String::new()),
    };
    let exchange = client.request_for("GET", parts, None).unwrap();
    assert_eq!(exchange.port, 1);
    assert!(text(&exchange.request).starts_with("GET /? HTTP/1.0\r\n"));
}

#[test]
fn schemes_from_text() {
    assert_eq!(scheme_from("http"), Some(Scheme::Http));
    assert_eq!(scheme_from("https"), Some(Scheme::Https));
    assert_eq!(scheme_from("HTTP"), None);
    assert_eq!(scheme_from("httpss"), None);
    assert_eq!(scheme_from(""), None);
}

#[test]
fn which_stream_ends_are_accepted() {
    assert!(accepts_end(Scheme::Http, StreamEnd::Closed));
    assert!(accepts_end(Scheme::Https, StreamEnd::Closed));
    assert!(accepts_end(Scheme::Https, StreamEnd::UnexpectedEof));
    assert!(!accepts_end(Scheme::Http, StreamEnd::UnexpectedEof));
    assert!(!accepts_end(Scheme::Http, StreamEnd::Failed));
    assert!(!accepts_end(Scheme::Https, StreamEnd::Failed));
}
