use dryer::schema::{valid_identifier, Diagnostic, Severity};

#[test]
fn identifiers_follow_the_spec_rules() {
    for ok in ["x", "x_motor", "hotend-sensor", "can0", "a1-b_c"] {
        assert!(valid_identifier(ok), "{ok} should be valid");
    }
    for bad in ["", "X", "1motor", "_x", "-x", "böard", "x motor", "x.y"] {
        assert!(!valid_identifier(bad), "{bad} should be invalid");
    }
}

#[test]
fn diagnostics_build_up_and_display() {
    let d = Diagnostic::error("E0301", "bad identifier")
        .at("components.X")
        .suggest("use lowercase")
        .suggest("start with a letter");
    assert_eq!(d.severity, Severity::Error);
    assert_eq!(d.path.as_deref(), Some("components.X"));
    assert_eq!(d.suggestions, vec!["use lowercase", "start with a letter"]);
    assert_eq!(d.to_message(), "E0301: bad identifier (at components.X)");

    let mut located = Diagnostic::warning("W0101", "unused").at("a.b");
    assert_eq!(located.severity, Severity::Warning);
    located.line = Some(12);
    assert_eq!(located.to_message(), "W0101: unused (at a.b, line 12)");
    located.column = Some(7);
    assert_eq!(located.to_message(), "W0101: unused (at a.b, line 12:7)");
    assert_eq!(Diagnostic::error("E1", "m").to_message(), "E1: m");
}
