use unit_parser::{escape, unescape_non_path, unescape_path};

#[test]
fn test_escape() {
    assert_eq!(escape("/dev//sda"), "dev-sda".to_string());
    assert_eq!(escape("/foo//bar/baz/"), "foo-bar-baz".to_string());
}

#[test]
fn test_unescape_path() {
    assert_eq!(unescape_path("dev-sda"), "/dev/sda".to_string());
}

#[test]
fn test_unescape_non_path() {
    assert_eq!(
        unescape_non_path("normal-escaped-string"),
        "normal/escaped/string".to_string()
    );
}

#[test]
fn escape_keeps_plain_text() {
    assert_eq!(escape("plain.service"), "plain.service".to_string());
    assert_eq!(escape(""), "".to_string());
    assert_eq!(escape("///"), "".to_string());
}
