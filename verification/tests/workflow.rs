use dryer::package::workflow::{
    valid_action_name, validate_workflow, ArgumentValue, LoweringError, WorkflowPackageFile,
    WorkflowParameter, WorkflowRequires, WorkflowStep,
};
use dryer::package::{PackageIdentity, PackageKind};
use dryer::protocol::Command;
use dryer::schema::Diagnostic;

fn identity(name: &str) -> PackageIdentity {
    PackageIdentity {
        namespace: "workflows".into(),
        name: name.into(),
        version: semver::Version::new(1, 0, 0),
        kind: PackageKind::Workflow,
    }
}

fn step(call: Option<&str>, args: &[(&str, ArgumentValue)]) -> WorkflowStep {
    WorkflowStep {
        call: call.map(str::to_owned),
        with_arguments: args.iter().map(|(k, v)| (k.to_string(), v.clone())).collect(),
    }
}

fn check(workflow: &WorkflowPackageFile) -> Vec<Diagnostic> {
    let mut diags = Vec::new();
    validate_workflow("workflows/print-start@1.0.0", workflow, &mut diags);
    diags
}

#[test]
fn workflow_step_lowering_converts_steps_to_typed_commands() {
    let step_one = step(
        Some("heater.set_target"),
        &[
            ("heater", ArgumentValue::Text("hotend_heater".into())),
            ("target_milli_c", ArgumentValue::Unsigned(200_000)),
        ],
    );

    let lowered = step_one.lower().expect("step lowers cleanly");
    assert_eq!(
        lowered,
        Command::SetHeaterTarget {
            heater: "hotend_heater".into(),
            target_milli_c: 200_000,
        }
    );

    let heartbeat_step = step(Some("system.heartbeat"), &[]);
    assert_eq!(heartbeat_step.lower().unwrap(), Command::Heartbeat);

    let bad_step = step(Some("unknown.action"), &[]);
    assert_eq!(
        bad_step.lower(),
        Err(LoweringError::UnknownAction {
            action: "unknown.action".into()
        })
    );
}

#[test]
fn lowering_reads_arguments_in_order_and_names_what_is_wrong() {
    assert_eq!(step(None, &[]).lower(), Err(LoweringError::NoCallAction));
    assert_eq!(step(Some("heartbeat"), &[]).lower(), Ok(Command::Heartbeat));
    assert_eq!(
        step(
            Some("motion.move"),
            &[
                ("axis", ArgumentValue::Text("x".into())),
                ("distance_um", ArgumentValue::Negative(-1_500)),
                ("rate_um_s", ArgumentValue::Unsigned(9)),
            ],
        )
        .lower(),
        Ok(Command::Move { axis: "x".into(), distance_um: -1_500, rate_um_s: 9 })
    );
    assert_eq!(
        step(
            Some("motion.home"),
            &[("axis", ArgumentValue::Text("z".into())), ("rate_um_s", ArgumentValue::Unsigned(3))],
        )
        .lower(),
        Ok(Command::Home { axis: "z".into(), rate_um_s: 3 })
    );
    let missing = step(Some("motion.home"), &[("axis", ArgumentValue::Text("z".into()))]).lower();
    assert_eq!(
        missing,
        Err(LoweringError::MissingArgument {
            action: "motion.home".into(),
            argument: "rate_um_s".into()
        })
    );
    assert_eq!(
        missing.unwrap_err().to_message(),
        "action 'motion.home' requires argument 'rate_um_s'"
    );
    let negative_rate = step(
        Some("motion.home"),
        &[("axis", ArgumentValue::Text("z".into())), ("rate_um_s", ArgumentValue::Negative(-3))],
    )
    .lower();
    assert_eq!(
        negative_rate,
        Err(LoweringError::InvalidArgumentType {
            action: "motion.home".into(),
            argument: "rate_um_s".into()
        })
    );
    let huge_target = step(
        Some("heater.set_target"),
        &[
            ("heater", ArgumentValue::Text("bed".into())),
            ("target_milli_c", ArgumentValue::Unsigned(u64::MAX)),
        ],
    )
    .lower();
    assert!(matches!(huge_target, Err(LoweringError::InvalidArgumentType { .. })));
    let numeric_heater = step(
        Some("heater.set_target"),
        &[("heater", ArgumentValue::Other), ("target_milli_c", ArgumentValue::Unsigned(1))],
    )
    .lower()
    .unwrap_err();
    assert_eq!(
        numeric_heater.to_message(),
        "action 'heater.set_target' argument 'heater' has an invalid type"
    );
    assert_eq!(
        LoweringError::UnknownAction { action: "x.y".into() }.to_message(),
        "unknown workflow step action 'x.y'"
    );
    assert_eq!(LoweringError::NoCallAction.to_message(), "workflow step has no call action");
}

#[test]
fn action_names_are_dotted_identifiers() {
    assert!(valid_action_name("heater.set_target"));
    assert!(valid_action_name("motion"));
    assert!(!valid_action_name(""));
    assert!(!valid_action_name(".motion"));
    assert!(!valid_action_name("motion."));
    assert!(!valid_action_name("motion..home"));
    assert!(!valid_action_name("motion.Home"));
    assert!(!valid_action_name("motion.home now"));
}

#[test]
fn workflow_parameters_and_steps_validate() {
    let payload = WorkflowPackageFile {
        package: identity("print-start"),
        api_version: Some("forge.workflow/v0.1".into()),
        parameters: vec![(
            "bed_temperature".into(),
            WorkflowParameter { kind: Some("temperature".into()), unit: None },
        )],
        requires: Some(WorkflowRequires {
            capabilities: vec!["heater.set_target".into(), "motion.home".into()],
        }),
        locks: Vec::new(),
        steps: vec![step(Some("heater.set_target"), &[("bed", ArgumentValue::Other)])],
        on_cancel: vec![step(Some("motion.stop"), &[("immediate", ArgumentValue::Other)])],
    };
    assert!(check(&payload).is_empty());
    assert!(payload.parameters.iter().any(|(name, _)| name == "bed_temperature"));
    assert_eq!(payload.steps.len(), 1);
    assert_eq!(payload.steps[0].call.as_deref(), Some("heater.set_target"));
    assert_eq!(payload.on_cancel[0].call.as_deref(), Some("motion.stop"));
}

#[test]
fn invalid_workflow_steps_and_steps_are_rejected() {
    let payload = WorkflowPackageFile {
        package: identity("invalid"),
        api_version: Some("bad.version".into()),
        parameters: vec![(
            "bed temperature".into(),
            WorkflowParameter { kind: Some("temperature".into()), unit: None },
        )],
        requires: None,
        locks: Vec::new(),
        steps: vec![step(None, &[("bed temp", ArgumentValue::Unsigned(250))])],
        on_cancel: Vec::new(),
    };
    let errors = check(&payload);
    for code in ["E0653", "E0654", "E0658", "E0659"] {
        assert!(errors.iter().any(|diagnostic| diagnostic.code == code), "missing {code}");
    }
}

#[test]
fn findings_come_in_payload_order_with_their_messages() {
    let payload = WorkflowPackageFile {
        package: identity("print-start"),
        api_version: None,
        parameters: Vec::new(),
        requires: Some(WorkflowRequires { capabilities: vec!["Bad.cap".into()] }),
        locks: vec!["axis.x".into(), "x.".into()],
        steps: vec![step(Some("heat..bed"), &[])],
        on_cancel: vec![step(None, &[])],
    };
    let errors = check(&payload);
    let codes: Vec<&str> = errors.iter().map(|d| d.code.as_str()).collect();
    assert_eq!(codes, vec!["E0657", "E0658", "E0655", "E0656"]);
    assert_eq!(
        errors[0].message,
        "workflows/print-start@1.0.0: workflow steps call 'heat..bed' is not a valid action name"
    );
    assert_eq!(
        errors[1].message,
        "workflows/print-start@1.0.0: workflow on_cancel entry is missing 'call'"
    );
    assert_eq!(
        errors[3].message,
        "workflows/print-start@1.0.0: workflow lock 'x.' is not a valid identifier"
    );
}
