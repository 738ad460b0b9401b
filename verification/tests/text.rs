use dropzone::text::trimmed;
use dropzone::admits_body;

#[test]
fn trim_plain_spaces() {
    assert_eq!(trimmed("  hello  "), "hello");
}

#[test]
fn trim_all_space() {
    assert_eq!(trimmed("   "), "");
    assert_eq!(trimmed(""), "");
    assert_eq!(trimmed("\t\r\n"), "");
}

#[test]
fn trim_keeps_inner_space() {
    assert_eq!(trimmed(" a b "), "a b");
}

#[test]
fn trim_nothing_to_do() {
    assert_eq!(trimmed("abc"), "abc");
}

#[test]
fn trim_unicode_space() {
    assert_eq!(trimmed("\u{00A0}\u{2003}x\u{3000}"), "x");
}

#[test]
fn guard_boundaries() {
    assert!(admits_body(0, None));
    assert!(admits_body(u64::MAX, None));
    assert!(admits_body(7, Some(7)));
    assert!(!admits_body(8, Some(7)));
    assert!(admits_body(0, Some(0)));
    assert!(!admits_body(1, Some(0)));
}
