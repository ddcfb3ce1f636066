use mini_http::headers::Headers;

fn listing(headers: &Headers) -> Vec<(String, String)> {
    headers.iter().to_vec()
}

fn pair(name: &str, value: &str) -> (String, String) {
    (name.to_string(), value.to_string())
}

#[test]
fn empty_map_has_nothing() {
    let headers = Headers::default();
    assert!(headers.iter().is_empty());
    assert_eq!(headers.get("Host"), None);
    assert!(!headers.contains("Host"));
}

#[test]
fn get_ignores_case_of_name() {
    let mut headers = Headers::default();
    headers.insert("Content-Type", "text/plain");
    assert_eq!(headers.get("content-type"), Some(&"text/plain".to_string()));
    assert_eq!(headers.get("CONTENT-TYPE"), Some(&"text/plain".to_string()));
    assert_eq!(headers.get("Content-Type"), Some(&"text/plain".to_string()));
    assert!(headers.contains("cOnTeNt-TyPe"));
}

#[test]
fn names_are_stored_in_lower_case() {
    let mut headers = Headers::default();
    headers.insert("X-Custom-HEADER", "MixedCase Value");
    assert_eq!(listing(&headers), vec![pair("x-custom-header", "MixedCase Value")]);
}

#[test]
fn last_insert_wins() {
    let mut headers = Headers::default();
    headers.insert("Accept", "a");
    headers.insert("ACCEPT", "b");
    assert_eq!(headers.get("accept"), Some(&"b".to_string()));
    assert_eq!(headers.iter().len(), 1);
}

#[test]
fn remove_ignores_case_and_absent_names() {
    let mut headers = Headers::default();
    headers.insert("Host", "example.com");
    headers.insert("Accept", "*/*");
    headers.remove("missing");
    assert_eq!(headers.iter().len(), 2);
    headers.remove("HOST");
    assert!(!headers.contains("host"));
    assert_eq!(listing(&headers), vec![pair("accept", "*/*")]);
    headers.remove("host");
    assert_eq!(headers.iter().len(), 1);
}

#[test]
fn fields_come_in_ascending_order_of_names() {
    let mut headers = Headers::default();
    headers.insert("User-Agent", "t");
    headers.insert("Host", "h");
    headers.insert("Accept", "a");
    headers.insert("Content-Length", "0");
    headers.insert("Hos", "short");
    headers.insert("Hosts", "long");
    let names: Vec<String> = headers.iter().iter().map(|field| field.0.clone()).collect();
    assert_eq!(names, vec!["accept", "content-length", "hos", "host", "hosts", "user-agent"]);
}

#[test]
fn order_is_that_of_the_encoded_bytes() {
    let mut headers = Headers::default();
    headers.insert("z", "1");
    headers.insert("\u{e9}", "2");
    headers.insert("~", "3");
    headers.insert("\u{4e2d}", "4");
    headers.insert("-", "5");
    let names: Vec<String> = headers.iter().iter().map(|field| field.0.clone()).collect();
    let mut sorted = names.clone();
    sorted.sort();
    assert_eq!(names, sorted);
    assert_eq!(names, vec!["-", "z", "~", "\u{e9}", "\u{4e2d}"]);
}

#[test]
fn iteration_can_be_restarted() {
    let mut headers = Headers::default();
    headers.insert("b", "2");
    headers.insert("a", "1");
    let first: Vec<(String, String)> = headers.iter().to_vec();
    let second: Vec<(String, String)> = headers.iter().to_vec();
    assert_eq!(first, second);
    assert_eq!(first, vec![pair("a", "1"), pair("b", "2")]);
}

#[test]
fn clone_keeps_the_fields_and_is_independent() {
    let mut headers = Headers::default();
    headers.insert("Host", "example.com");
    let mut copy = headers.clone();
    copy.insert("Accept", "*/*");
    assert_eq!(listing(&headers), vec![pair("host", "example.com")]);
    assert_eq!(listing(&copy), vec![pair("accept", "*/*"), pair("host", "example.com")]);
}

#[test]
fn values_keep_their_case_and_may_be_empty() {
    let mut headers = Headers::default();
    headers.insert("Empty", "");
    headers.insert("Mixed", "AbC");
    assert_eq!(headers.get("empty"), Some(&String::new()));
    assert_eq!(headers.get("mixed"), Some(&"AbC".to_string()));
}
