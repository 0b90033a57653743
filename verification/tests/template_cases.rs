use unit_parser::{materialize_instance, unit_type, Error, UnitType};

#[test]
fn classify_regular() {
    match unit_type("foo.service").unwrap() {
        UnitType::Regular { name } => assert_eq!(name, "foo.service"),
        other => panic!("expected a regular unit, got {:?}", other),
    }
}

#[test]
fn classify_template() {
    match unit_type("foo@.service").unwrap() {
        UnitType::Template { template_name } => assert_eq!(template_name, "foo"),
        other => panic!("expected a template, got {:?}", other),
    }
}

#[test]
fn classify_instance() {
    match unit_type("foo@bar.service").unwrap() {
        UnitType::Instance {
            instance_name,
            template_name,
        } => {
            assert_eq!(instance_name, "bar");
            assert_eq!(template_name, "foo");
        }
        other => panic!("expected an instance, got {:?}", other),
    }
}

#[test]
fn classify_double_at_is_invalid() {
    assert_eq!(
        unit_type("a@b@c.service").unwrap_err(),
        Error::InvalidFilenameError {
            filename: "a@b@c.service".to_string()
        }
    );
}

#[test]
fn materialization_replaces_every_instance_token_once() {
    assert_eq!(
        materialize_instance("run %i with %i now", "bar"),
        "run bar with bar now"
    );
    // the replacement text is never rescanned
    assert_eq!(materialize_instance("%i", "%i%i"), "%i%i");
    // other specifiers stay untouched: this substitution is textual and
    // happens before any parsing
    assert_eq!(materialize_instance("%n %i", "x"), "%n x");
    assert_eq!(materialize_instance("no token", "x"), "no token");
}
