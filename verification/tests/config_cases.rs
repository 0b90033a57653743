use unit_parser::{bool_value_of, parse_unsigned};
use unit_parser::{
    parse, parse_bool, parse_bool_list, split_whitespace_values, value_of, values_of, CustomUnit,
    Error, NestedConfig,
};

#[test]
fn scalar_lookup_takes_the_last_occurrence() {
    let doc = parse("[S]\nK=1\nK=2\n[Other]\nK=9\n[S]\nK=3\n", false).unwrap();
    assert_eq!(value_of(&doc, "S", "K").unwrap(), "3".to_string());
    assert_eq!(value_of(&doc, "Other", "K").unwrap(), "9".to_string());
    assert!(value_of(&doc, "S", "Absent").is_none());
    assert!(value_of(&doc, "Nowhere", "K").is_none());
}

#[test]
fn multi_value_lookup_collects_in_order() {
    let doc = parse("[S]\nK=1\nK=2\n[S]\nK=3\n", false).unwrap();
    assert_eq!(
        values_of(&doc, "S", "K"),
        vec!["1".to_string(), "2".to_string(), "3".to_string()]
    );
    assert!(values_of(&doc, "S", "Absent").is_empty());
}

#[test]
fn boolean_vocabulary() {
    assert_eq!(parse_bool("1"), Some(true));
    assert_eq!(parse_bool("yes"), Some(true));
    assert_eq!(parse_bool("true"), Some(true));
    assert_eq!(parse_bool("on"), Some(true));
    assert_eq!(parse_bool("0"), Some(false));
    assert_eq!(parse_bool("no"), Some(false));
    assert_eq!(parse_bool("false"), Some(false));
    assert_eq!(parse_bool("off"), Some(false));
    assert_eq!(parse_bool("maybe"), None);
    assert_eq!(parse_bool(""), None);
}

#[test]
fn whitespace_lists() {
    assert_eq!(
        split_whitespace_values("a  b c "),
        vec!["a".to_string(), "b".to_string(), "c".to_string()]
    );
    assert!(split_whitespace_values("").is_empty());
    assert_eq!(parse_bool_list("yes no  on"), Some(vec![true, false, true]));
    assert_eq!(parse_bool_list("yes nope"), None);
}

#[test]
fn typed_binding_reads_every_discipline() {
    let text = "[CustomUnit]\nregular=r1\nprivate=p1\nvector=v1\nvector=v2\nalt-key=custom\n[NestedConfig]\ninternal=deep\n";
    let doc = parse(text, false).unwrap();
    let unit = CustomUnit::from_unit(&doc).unwrap();
    assert_eq!(unit.regular, "r1");
    assert_eq!(unit.private, "p1");
    assert_eq!(unit.optional, "");
    assert_eq!(unit.vector, vec!["v1".to_string(), "v2".to_string()]);
    assert_eq!(unit.nested.internal, "deep");
    assert_eq!(unit.custom_named, "custom");
    assert_eq!(unit.default_valued, "default-value");
}

#[test]
fn typed_binding_reports_missing_required_keys() {
    let doc = parse("[CustomUnit]\nprivate=p1\n", false).unwrap();
    assert_eq!(
        CustomUnit::from_unit(&doc).unwrap_err(),
        Error::EntryMissingError {
            key: "regular".to_string()
        }
    );
    let doc2 = parse("[NestedConfig]\nother=1\n", false).unwrap();
    assert_eq!(
        NestedConfig::from_unit(&doc2).unwrap_err(),
        Error::EntryMissingError {
            key: "internal".to_string()
        }
    );
}

#[test]
fn typed_binding_reports_missing_sections() {
    let doc = parse("[S]\nK=V\n", false).unwrap();
    assert_eq!(
        CustomUnit::from_unit(&doc).unwrap_err(),
        Error::SectionMissingError {
            key: "CustomUnit".to_string()
        }
    );
    assert_eq!(
        NestedConfig::from_unit(&doc).unwrap_err(),
        Error::SectionMissingError {
            key: "NestedConfig".to_string()
        }
    );
}

#[test]
fn typed_boolean_lookup() {
    let doc = parse("[S]\nGood=yes\nBad=maybe\n", false).unwrap();
    assert_eq!(bool_value_of(&doc, "S", "Good").unwrap(), Some(true));
    assert_eq!(bool_value_of(&doc, "S", "Absent").unwrap(), None);
    assert_eq!(
        bool_value_of(&doc, "S", "Bad").unwrap_err(),
        Error::ValueParsingError {
            key: "Bad".to_string(),
            value: "maybe".to_string()
        }
    );
}

#[test]
fn unsigned_scalars() {
    assert_eq!(parse_unsigned("0"), Some(0));
    assert_eq!(parse_unsigned("+42"), Some(42));
    assert_eq!(parse_unsigned("18446744073709551615"), Some(u64::MAX));
    assert_eq!(parse_unsigned("18446744073709551616"), None);
    assert_eq!(parse_unsigned(""), None);
    assert_eq!(parse_unsigned("+"), None);
    assert_eq!(parse_unsigned("-3"), None);
    assert_eq!(parse_unsigned("4x"), None);
}
