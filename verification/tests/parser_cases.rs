use unit_parser::{parse, Error, Expected};

#[test]
fn single_section_single_entry() {
    let doc = parse("[S]\nK=V\n", false).unwrap();
    assert_eq!(doc.len(), 1);
    assert_eq!(doc[0].name, "S");
    assert_eq!(doc[0].entries.len(), 1);
    assert_eq!(doc[0].entries[0].key, "K");
    assert_eq!(doc[0].entries[0].value, "V");
}

#[test]
fn continuation_joins_lines_without_separator() {
    let doc = parse("[S]\nK=abc\\\ndef\n", false).unwrap();
    assert_eq!(doc.len(), 1);
    assert_eq!(doc[0].entries.len(), 1);
    assert_eq!(doc[0].entries[0].key, "K");
    assert_eq!(doc[0].entries[0].value, "abcdef");
}

#[test]
fn comments_and_blank_lines_are_skipped() {
    let doc = parse("# leading comment\n\n[One]\n; another\nA=1\n\nB=2\n[Two]\nC=3\n", false)
        .unwrap();
    assert_eq!(doc.len(), 2);
    assert_eq!(doc[0].name, "One");
    assert_eq!(doc[0].entries.len(), 2);
    assert_eq!(doc[0].entries[0].key, "A");
    assert_eq!(doc[0].entries[1].key, "B");
    assert_eq!(doc[1].name, "Two");
    assert_eq!(doc[1].entries[0].value, "3");
}

#[test]
fn duplicate_keys_pass_through_unfiltered() {
    let doc = parse("[S]\nK=1\nK=2\n", false).unwrap();
    assert_eq!(doc[0].entries.len(), 2);
    assert_eq!(doc[0].entries[0].value, "1");
    assert_eq!(doc[0].entries[1].value, "2");
}

#[test]
fn entry_before_any_section_is_rejected() {
    assert_eq!(
        parse("K=V\n", false).unwrap_err(),
        Error::SyntaxError {
            line: 1,
            expect: Expected::SectionHeader
        }
    );
}

#[test]
fn unclosed_header_is_rejected() {
    assert_eq!(
        parse("[S\nK=V\n", false).unwrap_err(),
        Error::SyntaxError {
            line: 1,
            expect: Expected::HeaderClose
        }
    );
}

#[test]
fn entry_without_separator_is_rejected() {
    assert_eq!(
        parse("[S]\njunk\n", false).unwrap_err(),
        Error::SyntaxError {
            line: 2,
            expect: Expected::Entry
        }
    );
}

#[test]
fn empty_key_is_rejected() {
    assert_eq!(
        parse("[S]\n=V\n", false).unwrap_err(),
        Error::SyntaxError {
            line: 2,
            expect: Expected::Key
        }
    );
}

#[test]
fn empty_document_strictness_is_a_switch() {
    assert_eq!(parse("", false).unwrap_err(), Error::NoSectionError);
    assert_eq!(parse("# only a comment\n", false).unwrap_err(), Error::NoSectionError);
    assert_eq!(parse("", true).unwrap().len(), 0);
    assert_eq!(parse("# only a comment\n", true).unwrap().len(), 0);
}

#[test]
fn value_may_hold_equals_signs() {
    let doc = parse("[S]\nK=a=b=c\n", false).unwrap();
    assert_eq!(doc[0].entries[0].value, "a=b=c");
}
