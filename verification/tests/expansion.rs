use dryer::package::machine::TemplateKinematics;
use dryer::resolver::expansion::{expand, MachineClass, Template};
use dryer::schema::{
    AttributeValue, Component, Diagnostic, Kinematics, MachineDoc, Metadata, Safety, Severity,
};
use dryer::spans::SpanIndex;

fn component(kind: &str, attributes: &[(&str, &str)]) -> Component {
    Component {
        kind: kind.into(),
        attributes: attributes
            .iter()
            .map(|(k, v)| (k.to_string(), AttributeValue::Text(v.to_string())))
            .collect(),
    }
}

fn source_doc() -> MachineDoc {
    MachineDoc {
        api_version: "dryer.machine/v0.1".into(),
        kind: "Machine".into(),
        metadata: Metadata { name: "bench".into(), description: None },
        packages: vec![],
        controllers: vec![],
        components: vec![("hotend".into(), component("heater", &[("output", "mainboard.heater0")]))],
        kinematics: Kinematics {
            kind: "cartesian".into(),
            limits: vec![("max_velocity".into(), "300 mm/s".into())],
        },
        safety: Safety { profile: "safety-profiles/desktop-fdm".into() },
        workflows: vec![],
        calibration: None,
    }
}

const PACKAGE_YAML: &str = "package:\n  namespace: machines\n  name: i3\ntemplate:\n  components:\n    part_fan:\n      type: fan\n      output: mainboard.fan0\n";

fn i3_class(with_spans: bool) -> MachineClass {
    MachineClass {
        path: "machines/i3".into(),
        template: Ok(Some(Template {
            components: vec![
                ("Bad Id".into(), component("fan", &[])),
                ("hotend".into(), component("heater", &[])),
                ("part_fan".into(), component("fan", &[("output", "mainboard.fan0")])),
            ],
            kinematics: Some(TemplateKinematics {
                kind: Some("corexy".into()),
                limits: vec![
                    ("max_accel".into(), "3000 mm/s^2".into()),
                    ("max_velocity".into(), "500 mm/s".into()),
                    ("max_z".into(), "tall".into()),
                ],
            }),
        })),
        spans: if with_spans {
            Some(SpanIndex::build_named(PACKAGE_YAML, "package:machines/i3@1.0.0/package.yaml"))
        } else {
            None
        },
        limit_readings: vec![true, true, false],
    }
}

#[test]
fn templates_add_what_the_source_lacks_and_report_it() {
    let mut diags = Vec::new();
    let expanded = expand(source_doc(), vec![i3_class(false)], &mut diags);
    let codes: Vec<(&str, Severity)> = diags.iter().map(|d| (d.code.as_str(), d.severity)).collect();
    assert_eq!(
        codes,
        [
            ("E1131", Severity::Error),
            ("I1132", Severity::Info),
            ("I1133", Severity::Info),
            ("E1130", Severity::Warning),
            ("I1133", Severity::Info),
            ("E1134", Severity::Error),
        ]
    );
    let messages: Vec<&str> = diags.iter().map(|d| d.message.as_str()).collect();
    assert_eq!(
        messages,
        [
            "template component 'Bad Id' from 'machines/i3' is not a valid identifier",
            "source component 'hotend' shadows the template from 'machines/i3'",
            "component 'part_fan' expanded from 'machines/i3'",
            "machine class 'machines/i3' assumes corexy kinematics but the source declares cartesian",
            "kinematics limit 'max_accel' defaulted from 'machines/i3'",
            "template limit 'max_z' from 'machines/i3': 'tall' is not a valid quantity",
        ]
    );
    assert!(diags.iter().all(|d| d.path.is_none()));

    let names: Vec<&str> = expanded.doc.components.iter().map(|(k, _)| k.as_str()).collect();
    assert_eq!(names, ["hotend", "part_fan"]);
    assert_eq!(expanded.doc.components[0].1, component("heater", &[("output", "mainboard.heater0")]));
    assert_eq!(
        expanded.doc.kinematics.limits,
        [
            ("max_accel".to_string(), "3000 mm/s^2".to_string()),
            ("max_velocity".to_string(), "300 mm/s".to_string()),
        ]
    );
    assert_eq!(expanded.doc.kinematics.kind, "cartesian");
    assert!(expanded.sources.is_empty());
}

#[test]
fn expanded_components_point_at_their_template_source() {
    let mut diags = Vec::new();
    let expanded = expand(source_doc(), vec![i3_class(true)], &mut diags);
    let keys: Vec<&str> = expanded.sources.iter().map(|(k, _)| k.as_str()).collect();
    assert_eq!(keys, ["components.part_fan", "components.part_fan.output"]);
    let (_, fan) = &expanded.sources[0];
    assert_eq!(fan.path, "template.components.part_fan");
    assert_eq!(fan.start.line, 6);
    assert_eq!(fan.document.as_deref(), Some("package:machines/i3@1.0.0/package.yaml"));
    let (_, output) = &expanded.sources[1];
    assert_eq!(output.path, "template.components.part_fan.output");
    assert_eq!(output.start.line, 8);
}

#[test]
fn payload_errors_pass_through_and_empty_templates_add_nothing() {
    let failing = MachineClass {
        path: "machines/broken".into(),
        template: Err(vec![Diagnostic::error("E0642", "machines/broken@1.0.0: machine payload does not parse")]),
        spans: None,
        limit_readings: vec![],
    };
    let empty = MachineClass {
        path: "machines/plain".into(),
        template: Ok(None),
        spans: None,
        limit_readings: vec![],
    };
    let mut diags = vec![Diagnostic::warning("W0", "before")];
    let expanded = expand(source_doc(), vec![failing, empty], &mut diags);
    let codes: Vec<&str> = diags.iter().map(|d| d.code.as_str()).collect();
    assert_eq!(codes, ["W0", "E0642"]);
    assert_eq!(expanded.doc, source_doc());
}

#[test]
fn a_later_template_is_shadowed_by_an_earlier_one() {
    let mut second = i3_class(false);
    second.path = "machines/i3-plus".into();
    let mut diags = Vec::new();
    expand(source_doc(), vec![i3_class(false), second], &mut diags);
    let shadows: Vec<&str> =
        diags.iter().filter(|d| d.code == "I1132").map(|d| d.message.as_str()).collect();
    assert_eq!(
        shadows,
        [
            "source component 'hotend' shadows the template from 'machines/i3'",
            "source component 'hotend' shadows the template from 'machines/i3-plus'",
            "source component 'part_fan' shadows the template from 'machines/i3-plus'",
        ]
    );
}
