use dryer::manifest::{expected_limit_dimension, validate, ParseOutcome};
use dryer::schema::{
    check_dimension, split_quantity, unit_dimension, AttributeValue, Calibration, Component,
    Controller, Diagnostic, Dimension, Kinematics, MachineDoc, Metadata, QuantityError, Safety,
    Severity, Transport,
};
use dryer::spans::SpanIndex;
use serde_yaml::Value;

fn text(v: &Value, key: &str) -> String {
    v.get(key).and_then(Value::as_str).unwrap_or_default().to_string()
}

fn sorted_entries(v: Option<&Value>) -> Vec<(String, Value)> {
    let mut entries: Vec<(String, Value)> = v
        .and_then(Value::as_mapping)
        .map(|m| {
            m.iter()
                .map(|(k, v)| (k.as_str().unwrap().to_string(), v.clone()))
                .collect()
        })
        .unwrap_or_default();
    entries.sort_by(|a, b| a.0.cmp(&b.0));
    entries
}

/// The manifest's document shape, read from YAML by hand.
fn doc_from_yaml(yaml: &str) -> MachineDoc {
    let v: Value = serde_yaml::from_str(yaml).unwrap();
    let controllers = sorted_entries(v.get("controllers"))
        .into_iter()
        .map(|(name, c)| {
            let t = c.get("transport").unwrap();
            (
                name,
                Controller {
                    board: text(&c, "board"),
                    transport: Transport {
                        kind: text(t, "type"),
                        parent: t.get("parent").and_then(Value::as_str).map(str::to_owned),
                    },
                },
            )
        })
        .collect();
    let components = sorted_entries(v.get("components"))
        .into_iter()
        .map(|(name, c)| {
            let attributes = sorted_entries(Some(&c))
                .into_iter()
                .filter(|(k, _)| k != "type")
                .map(|(k, value)| {
                    let value = match value.as_str() {
                        Some(s) => AttributeValue::Text(s.to_string()),
                        None => AttributeValue::Other,
                    };
                    (k, value)
                })
                .collect();
            (name, Component { kind: text(&c, "type"), attributes })
        })
        .collect();
    let kin = v.get("kinematics").unwrap();
    let limits = sorted_entries(kin.get("limits"))
        .into_iter()
        .map(|(k, value)| (k, value.as_str().unwrap().to_string()))
        .collect();
    MachineDoc {
        api_version: text(&v, "api_version"),
        kind: text(&v, "kind"),
        metadata: Metadata {
            name: text(v.get("metadata").unwrap(), "name"),
            description: None,
        },
        packages: v
            .get("packages")
            .and_then(Value::as_sequence)
            .map(|s| s.iter().map(|p| p.as_str().unwrap().to_string()).collect())
            .unwrap_or_default(),
        controllers,
        components,
        kinematics: Kinematics { kind: text(kin, "type"), limits },
        safety: Safety { profile: text(v.get("safety").unwrap(), "profile") },
        workflows: Vec::new(),
        calibration: v
            .get("calibration")
            .map(|c| Calibration { source: text(c, "source") }),
    }
}

/// What the quantity reader says of a limit: split, number, unit, and the
/// dimension a known limit needs.
fn limit_problem(name: &str, raw: &str) -> Option<QuantityError> {
    let (number, unit) = match split_quantity(raw) {
        Ok(parts) => parts,
        Err(e) => return Some(e),
    };
    match number.parse::<f64>() {
        Ok(v) if v.is_finite() => {}
        _ => return Some(QuantityError::BadNumber(number)),
    }
    let got = match unit_dimension(&unit) {
        Some(d) => d,
        None => return Some(QuantityError::UnknownUnit(unit)),
    };
    match expected_limit_dimension(name) {
        Some(expected) => check_dimension(expected, got).err(),
        None => None,
    }
}

fn parse(yaml: &str) -> ParseOutcome {
    let doc = doc_from_yaml(yaml);
    let spans = SpanIndex::build(yaml);
    let problems = doc
        .kinematics
        .limits
        .iter()
        .map(|(name, raw)| limit_problem(name, raw))
        .collect();
    let mut diagnostics = Vec::new();
    validate(&doc, &spans, &problems, &mut diagnostics);
    ParseOutcome { doc: Some(doc), diagnostics, spans }
}

fn errors(o: &ParseOutcome) -> Vec<String> {
    o.diagnostics
        .iter()
        .filter(|d| d.severity == Severity::Error)
        .map(|d| d.code.clone())
        .collect()
}

#[test]
fn bad_identifier_bad_unit_and_dangling_reference_all_reported_together() {
    let yaml = r#"
api_version: dryer.machine/v0.1
kind: Machine
metadata:
  name: broken
packages:
  - boards/example@not-a-version
controllers:
  mainboard:
    board: boards/example
    transport:
      type: usb
components:
  X_Motor:
    type: stepper_motor
  y_motor:
    type: stepper_motor
    driver: missing_driver
kinematics:
  type: cartesian
  limits:
    max_velocity: "300"
safety:
  profile: safety-profiles/desktop-fdm
"#;
    let o = parse(yaml);
    let codes = errors(&o);
    assert!(codes.contains(&"E0300".to_string()), "identifier: {codes:?}");
    assert!(codes.contains(&"E0400".to_string()), "unit: {codes:?}");
    assert!(codes.contains(&"E0500".to_string()), "pkg ref: {codes:?}");
    assert!(codes.contains(&"E0501".to_string()), "reference: {codes:?}");
    assert_eq!(codes.len(), 4, "exactly the four seeded problems: {codes:?}");
    assert!(!o.is_valid());
}

#[test]
fn wrong_dimension_on_a_known_limit_is_an_error() {
    let yaml = r#"
api_version: dryer.machine/v0.1
kind: Machine
metadata:
  name: t
controllers:
  mainboard:
    board: boards/example
    transport: { type: usb }
components: {}
kinematics:
  type: cartesian
  limits:
    max_velocity: 8000 mm/s^2
safety:
  profile: safety-profiles/desktop-fdm
"#;
    let o = parse(yaml);
    assert_eq!(errors(&o), vec!["E0400".to_string()]);
    assert_eq!(
        o.diagnostics[0].message,
        "limit 'max_velocity': expected a Velocity quantity, got Acceleration"
    );
}

#[test]
fn diagnostics_carry_paths_and_exact_locations() {
    let yaml = r#"
api_version: dryer.machine/v0.1
kind: Machine
metadata:
  name: t
controllers:
  mainboard:
    board: boards/example
    transport: { type: usb }
components: {}
kinematics:
  type: cartesian
  limits:
    max_velocity: fast
safety:
  profile: safety-profiles/desktop-fdm
"#;
    let o = parse(yaml);
    let d = &o.diagnostics[0];
    assert_eq!(d.path.as_deref(), Some("kinematics.limits.max_velocity"));
    assert_eq!(d.line, Some(14), "exact key line from the span index");
    assert_eq!(d.column, Some(5), "1-based column of the key");
    assert_eq!(d.suggestions, vec!["write quantities with explicit units, e.g. \"300 mm/s\""]);
    let span = o.spans.get_span("kinematics.limits.max_velocity").unwrap();
    assert_eq!(span.start.line, 14);
    assert_eq!(span.start.column, 5);
    assert_eq!(span.end.line, 14);
    assert_eq!(span.end.column, 17, "exclusive end of max_velocity");
}

#[test]
fn can_transport_parent_must_reference_a_known_controller() {
    let yaml = r#"
api_version: dryer.machine/v0.1
kind: Machine
metadata:
  name: t
controllers:
  toolhead:
    board: boards/ebb36
    transport:
      type: can
      parent: ghost.can0
components: {}
kinematics:
  type: corexy
safety:
  profile: safety-profiles/desktop-fdm
"#;
    let o = parse(yaml);
    assert_eq!(errors(&o), vec!["E0502".to_string()]);
    assert_eq!(
        o.diagnostics[0].message,
        "transport parent references unknown controller 'ghost'"
    );
    assert_eq!(o.diagnostics[0].path.as_deref(), Some("controllers.toolhead.transport.parent"));
    assert_eq!(o.diagnostics[0].line, Some(11));
}

#[test]
fn every_problem_is_reported_in_section_order() {
    let yaml = r#"
api_version: forge.machine/v9
kind: Printer
metadata:
  name: t
controllers: {}
components:
  hotend:
    type: heater
    output: mainboard
    sensor: therm
    connected_to: nowhere.x
  probe:
    type: sensor
    input: 12
kinematics:
  type: cartesian
  limits:
    max_velocity: 300 mm/s
    jerk: 5 furlongs
safety:
  profile: p
"#;
    let o = parse(yaml);
    let codes = errors(&o);
    assert_eq!(codes, vec!["E0200", "E0201", "E0202", "E0400", "E0502", "E0503", "E0501"]);
    assert_eq!(
        o.diagnostics[0].message,
        "api_version 'forge.machine/v9' is not supported (expected 'dryer.machine/v0.1')"
    );
    assert_eq!(o.diagnostics[3].message, "limit 'jerk': unknown unit 'furlongs'");
    assert_eq!(
        o.diagnostics[4].message,
        "component 'hotend' references unknown controller 'nowhere' in 'nowhere.x'"
    );
    assert_eq!(
        o.diagnostics[5].message,
        "'mainboard' must name a controller port as 'controller.port'"
    );
    assert_eq!(o.diagnostics[6].path.as_deref(), Some("components.hotend.sensor"));
    // a path with no recorded range of its own is located at its ancestor
    assert_eq!(o.diagnostics[2].path.as_deref(), Some("controllers"));
    assert_eq!(o.diagnostics[2].line, Some(6));
}

#[test]
fn a_clean_manifest_is_valid() {
    let yaml = r#"
api_version: dryer.machine/v0.1
kind: Machine
metadata:
  name: ok
packages:
  - boards/example@1.0.0
controllers:
  mainboard:
    board: boards/example
    transport:
      type: usb
components:
  x_driver:
    type: stepper_driver
    connected_to: mainboard.motor0
  x_motor:
    type: stepper_motor
    driver: x_driver
kinematics:
  type: cartesian
  limits:
    max_velocity: 300 mm/s
    max_acceleration: 3000 mm/s^2
safety:
  profile: safety-profiles/desktop-fdm
"#;
    let o = parse(yaml);
    assert!(o.is_valid(), "{:?}", o.diagnostics);
    let without_doc = ParseOutcome { doc: None, diagnostics: Vec::new(), spans: SpanIndex::default() };
    assert!(!without_doc.is_valid());
    let warned = ParseOutcome {
        doc: o.doc.clone(),
        diagnostics: vec![Diagnostic::warning("E1106", "not pinned")],
        spans: SpanIndex::default(),
    };
    assert!(warned.is_valid());
}

#[test]
fn quantities_split_into_number_and_unit() {
    assert_eq!(split_quantity(" 300 mm/s "), Ok(("300".into(), "mm/s".into())));
    assert_eq!(split_quantity("4.7kOhm"), Ok(("4.7".into(), "kOhm".into())));
    assert_eq!(split_quantity("300"), Err(QuantityError::MissingUnit));
    assert_eq!(split_quantity("fast"), Err(QuantityError::MissingUnit));
    assert_eq!(split_quantity("-"), Err(QuantityError::MissingUnit));
    assert_eq!(unit_dimension("MHz"), Some(Dimension::Frequency));
    assert_eq!(unit_dimension("mhz"), None);
    assert_eq!(
        QuantityError::WrongDimension { expected: Dimension::Time, got: Dimension::Memory }.to_message(),
        "expected a Time quantity, got Memory"
    );
    assert_eq!(
        QuantityError::MissingUnit.to_message(),
        "quantity requires an explicit unit (e.g. \"300 mm/s\")"
    );
    assert_eq!(QuantityError::BadNumber("1.2.3".into()).to_message(), "'1.2.3' is not a finite number");
}
