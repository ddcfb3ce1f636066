use mini_http::text::{rank, same_text, text_of, Rank};

fn before(a: &str, b: &str) -> bool {
    matches!(rank(a, b), Rank::Before)
}

#[test]
fn rank_is_the_order_of_strings() {
    let texts = ["", "a", "A", "ab", "abc", "b", "host", "hosts", "~", "\u{e9}", "\u{4e2d}", "\u{1f600}"];
    for a in texts {
        for b in texts {
            match rank(a, b) {
                Rank::Before => assert!(a < b),
                Rank::Same => assert!(a == b),
                Rank::After => assert!(a > b),
            }
            assert_eq!(same_text(a, b), a == b);
        }
    }
    assert!(before("", "a"));
    assert!(before("ab", "abc"));
    assert!(before("Z", "a"));
}

#[test]
fn text_of_bytes() {
    assert_eq!(text_of(b"hello"), Some("hello".to_string()));
    assert_eq!(text_of(b""), Some(String::new()));
    assert_eq!(text_of("\u{e9}\u{4e2d}".as_bytes()), Some("\u{e9}\u{4e2d}".to_string()));
    assert_eq!(text_of(b"\xff"), None);
    assert_eq!(text_of(b"\xc3"), None);
    assert_eq!(text_of(b"\xed\xa0\x80"), None);
    assert_eq!(text_of(b"\xc0\xaf"), None);
}
