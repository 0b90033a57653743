use unit_parser::parse_duration;

#[test]
fn single() {
    let pairs: Vec<(&str, i64)> = vec![
        ("1us", 1),
        ("2ms", 2_000),
        ("3s", 3_000_000),
        ("4m", 4 * 60_000_000),
        ("5h", 5 * 3_600_000_000),
        ("6d", 6 * 86_400_000_000),
    ];
    for (input, micros) in pairs {
        assert_eq!(parse_duration(input).unwrap().micros, micros, "{}", input);
    }
}

#[test]
fn complex() {
    let pairs: Vec<(&str, i64)> = vec![
        ("5s400ms", 5_400_000),
        ("3w 5d", 26 * 86_400_000_000),
    ];
    for (input, micros) in pairs {
        assert_eq!(parse_duration(input).unwrap().micros, micros, "{}", input);
    }
}

#[test]
fn empty_input_is_an_error() {
    assert!(parse_duration("").is_err());
    assert!(parse_duration("   ").is_err());
}

#[test]
fn unknown_suffix_is_an_error() {
    assert!(parse_duration("5x").is_err());
}

#[test]
fn trailing_integer_is_an_error() {
    assert!(parse_duration("5s400").is_err());
    assert!(parse_duration("5").is_err());
}

#[test]
fn long_suffixes_and_big_units() {
    assert_eq!(parse_duration("2weeks").unwrap().micros, 2 * 604_800_000_000);
    assert_eq!(parse_duration("1M").unwrap().micros, 2_630_016_000_000);
    assert_eq!(parse_duration("1y").unwrap().micros, 31_557_600_000_000);
    assert_eq!(parse_duration("1μs").unwrap().micros, 1);
}
