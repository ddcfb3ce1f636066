use mini_http::headers::Headers;
use mini_http::request::{write_head, HttpVersion, Request};
use mini_http::response::{read_chunked_body, read_plain_body, Response};

fn request(method: &str, path: &str, fields: &[(&str, &str)], body: Option<&[u8]>) -> Request {
    let mut headers = Headers::default();
    for (name, value) in fields {
        headers.insert(name, value);
    }
    Request {
        method: method.to_string(),
        path: path.to_string(),
        headers,
        body: body.map(|bytes| bytes.to_vec()),
    }
}

fn v10(request: Request) -> Vec<u8> {
    let mut bytes = Vec::new();
    request.send_v10(&mut bytes);
    bytes
}

fn v11(request: Request) -> Vec<u8> {
    let mut bytes = Vec::new();
    request.send_v11(&mut bytes);
    bytes
}

#[test]
fn get_without_body_in_v10() {
    let bytes = v10(request("GET", "/x?y=1", &[("Host", "example.com")], None));
    let text = String::from_utf8(bytes).unwrap();
    assert_eq!(text, "GET /x?y=1 HTTP/1.0\r\ncontent-length: 0\r\nhost: example.com\r\n\r\n");
    let mut lines: Vec<&str> = text.split("\r\n").collect();
    assert_eq!(lines.remove(0), "GET /x?y=1 HTTP/1.0");
    assert_eq!(lines.split_off(lines.len() - 2), vec!["", ""]);
    lines.sort();
    lines.reverse();
    assert_eq!(lines, vec!["host: example.com", "content-length: 0"]);
}

#[test]
fn empty_body_in_v10_is_like_none() {
    let with_none = v10(request("GET", "/", &[], None));
    let with_empty = v10(request("GET", "/", &[], Some(b"")));
    assert_eq!(with_none, with_empty);
    assert_eq!(with_none, b"GET / HTTP/1.0\r\ncontent-length: 0\r\n\r\n");
}

#[test]
fn post_with_body_in_v10() {
    let bytes = v10(request(
        "POST",
        "/submit",
        &[("Host", "h"), ("Content-Type", "text/plain")],
        Some(b"hello world"),
    ));
    assert_eq!(
        bytes,
        b"POST /submit HTTP/1.0\r\ncontent-length: 11\r\ncontent-type: text/plain\r\nhost: h\r\n\r\nhello world"
    );
}

#[test]
fn content_length_of_the_caller_is_replaced_in_v10() {
    let bytes = v10(request("PUT", "/", &[("CONTENT-LENGTH", "999")], Some(b"abc")));
    assert_eq!(bytes, b"PUT / HTTP/1.0\r\ncontent-length: 3\r\n\r\nabc");
}

#[test]
fn get_without_body_in_v11() {
    let bytes = v11(request("GET", "/", &[("Host", "example.com")], None));
    assert_eq!(
        String::from_utf8(bytes).unwrap(),
        "GET / HTTP/1.1\r\nhost: example.com\r\ntransfer-encoding: chunked\r\n\r\n0\r\n\r\n"
    );
}

#[test]
fn empty_body_in_v11_has_only_the_last_chunk() {
    let bytes = v11(request("POST", "/", &[], Some(b"")));
    assert_eq!(bytes, b"POST / HTTP/1.1\r\ntransfer-encoding: chunked\r\n\r\n0\r\n\r\n");
}

#[test]
fn post_with_body_in_v11_is_one_chunk() {
    let bytes = v11(request("POST", "/p", &[("Host", "h")], Some(b"hello")));
    assert_eq!(
        bytes,
        b"POST /p HTTP/1.1\r\nhost: h\r\ntransfer-encoding: chunked\r\n\r\n5\r\nhello\r\n0\r\n\r\n"
    );
}

#[test]
fn chunk_size_is_lower_case_hexadecimal() {
    let body = vec![b'z'; 0xabc];
    let bytes = v11(request("POST", "/", &[], Some(&body)));
    let head = b"POST / HTTP/1.1\r\ntransfer-encoding: chunked\r\n\r\n";
    assert_eq!(&bytes[..head.len()], head);
    assert_eq!(&bytes[head.len()..head.len() + 5], b"abc\r\n");
    assert_eq!(bytes.len(), head.len() + 5 + 0xabc + 2 + 5);
    assert_eq!(&bytes[bytes.len() - 7..], b"\r\n0\r\n\r\n");
}

#[test]
fn transfer_encoding_of_the_caller_is_replaced_in_v11() {
    let bytes = v11(request("GET", "/", &[("Transfer-Encoding", "gzip")], None));
    assert_eq!(bytes, b"GET / HTTP/1.1\r\ntransfer-encoding: chunked\r\n\r\n0\r\n\r\n");
}

#[test]
fn bytes_are_appended_to_the_writer() {
    let mut bytes = b"before".to_vec();
    request("GET", "/", &[], None).send_v10(&mut bytes);
    assert_eq!(bytes, b"beforeGET / HTTP/1.0\r\ncontent-length: 0\r\n\r\n");
    let mut bytes = b"before".to_vec();
    request("GET", "/", &[], None).send_v11(&mut bytes);
    assert_eq!(bytes, b"beforeGET / HTTP/1.1\r\ntransfer-encoding: chunked\r\n\r\n0\r\n\r\n");
}

#[test]
fn text_is_written_as_utf8() {
    let bytes = v10(request("GET", "/caf\u{e9}", &[("X-N", "\u{4e2d}")], None));
    assert_eq!(
        bytes,
        "GET /caf\u{e9} HTTP/1.0\r\ncontent-length: 0\r\nx-n: \u{4e2d}\r\n\r\n".as_bytes()
    );
}

#[test]
fn head_is_written_in_the_order_given() {
    let fields = vec![
        ("b".to_string(), "2".to_string()),
        ("a".to_string(), "1".to_string()),
    ];
    let mut bytes = Vec::new();
    write_head(&mut bytes, "GET", "/", HttpVersion::Http1_1, &fields);
    assert_eq!(bytes, b"GET / HTTP/1.1\r\nb: 2\r\na: 1\r\n\r\n");
    let mut bytes = Vec::new();
    write_head(&mut bytes, "HEAD", "*", HttpVersion::Http1_0, &[]);
    assert_eq!(bytes, b"HEAD * HTTP/1.0\r\n\r\n");
}

#[test]
fn body_of_v10_request_is_recovered_by_its_length() {
    for body in [&b"x"[..], b"hello", b"line\r\n\r\nbreaks", &[0u8, 255, 10, 13]] {
        let wire = v10(request("POST", "/", &[("Host", "h")], Some(body)));
        let start = wire.len() - body.len();
        assert_eq!(&wire[start - 4..start], b"\r\n\r\n");
        assert_eq!(read_plain_body(&wire, start, Some(body.len())), Ok(body.to_vec()));
        let first_line_end = wire.iter().position(|&b| b == b'\n').unwrap();
        let mut response = b"HTTP/1.0 200 OK\r\n".to_vec();
        response.extend_from_slice(&wire[first_line_end + 1..]);
        let parsed = Response::parse(&response).unwrap();
        assert_eq!(parsed.body(), body);
        assert_eq!(parsed.headers().get("Content-Length"), Some(&body.len().to_string()));
        assert_eq!(parsed.headers().get("Host"), Some(&"h".to_string()));
    }
}

#[test]
fn body_of_v11_request_is_recovered_from_its_chunks() {
    for length in [0usize, 1, 255, 256, 65536] {
        let body: Vec<u8> = (0..length).map(|i| (i * 7 % 256) as u8).collect();
        let wire = v11(request("POST", "/", &[], Some(&body)));
        let head = b"POST / HTTP/1.1\r\ntransfer-encoding: chunked\r\n\r\n";
        assert_eq!(read_chunked_body(&wire, head.len()), Ok(body.clone()));
        let mut response = b"HTTP/1.1 200 OK\r\n".to_vec();
        response.extend_from_slice(&wire[b"POST / HTTP/1.1\r\n".len()..]);
        assert_eq!(Response::parse(&response).unwrap().body(), &body[..]);
    }
}
