use dryer::digest::sha256;
use dryer::flash::executor::{
    dry_run_result, generate_command, names_serial_port, FlashToolMethod, NativeFlashExecutor,
};
use dryer::flash::FlashResult;
use dryer::flash::{
    match_usb_devices, ArtifactPlan, DeviceSelection, DiscoveredUsbDevice, FlashExecutionError,
    FlashExecutor, FlashPlan, MatchStatus, MockFlashExecutor, UsbSelectionRule, FLASH_PLAN_SCHEMA,
};
use sha2::{Digest, Sha256};

fn device(address: u8, serial: Option<&str>) -> DiscoveredUsbDevice {
    DiscoveredUsbDevice {
        platform: "test".into(),
        bus_id: "usb-test-0".into(),
        location: format!("fixture-port-{address}"),
        device_address: address,
        usb_vid: 0x1209,
        usb_pid: 0xd003,
        serial_number: serial.map(str::to_owned),
        manufacturer: Some("Example".into()),
        product: Some("Mainboard DFU".into()),
    }
}

#[test]
fn matching_is_strict_and_deterministic() {
    let rule = UsbSelectionRule {
        usb_vid: 0x1209,
        usb_pid: 0xd003,
        serial_number: None,
        manufacturer: Some("Example".into()),
        product: Some("Mainboard DFU".into()),
    };
    let selection = match_usb_devices(rule, &[device(9, None), device(3, None)]);
    assert_eq!(selection.status, MatchStatus::Ambiguous);
    assert_eq!(selection.candidates[0].device_address, 3);
    assert_eq!(selection.candidates[1].device_address, 9);
}

#[test]
fn a_serial_constraint_never_falls_back_to_vid_pid() {
    let rule = UsbSelectionRule {
        usb_vid: 0x1209,
        usb_pid: 0xd003,
        serial_number: Some("wanted".into()),
        manufacturer: None,
        product: None,
    };
    let selection = match_usb_devices(rule, &[device(1, Some("different"))]);
    assert_eq!(selection.status, MatchStatus::Missing);
    assert!(selection.candidates.is_empty());
}

fn ready_plan(method: &str, device: DiscoveredUsbDevice, payload: &[u8]) -> FlashPlan {
    let hash = sha256(payload);
    FlashPlan {
        schema: FLASH_PLAN_SCHEMA.into(),
        mode: "dry_run".into(),
        ready: true,
        controller: "mainboard".into(),
        lock_hash: "sha256:dummy".into(),
        board: "boards/cartesian-mainboard@1.0.0".into(),
        method: method.into(),
        transport: "usb".into(),
        device_selection: DeviceSelection {
            rule: UsbSelectionRule {
                usb_vid: device.usb_vid,
                usb_pid: device.usb_pid,
                serial_number: device.serial_number.clone(),
                manufacturer: None,
                product: None,
            },
            status: MatchStatus::Unique,
            candidates: vec![device],
        },
        expected_current_firmware: "1.0.0".into(),
        artifact: ArtifactPlan {
            format: "bin".into(),
            path: "test-firmware.bin".into(),
            size_bytes: payload.len() as u64,
            expected_sha256: hash.clone(),
            observed_sha256: hash,
            hash_matches: true,
            deployable: true,
            signature: None,
        },
        steps: Vec::new(),
        blocked_reasons: Vec::new(),
        recovery: Vec::new(),
    }
}

#[test]
fn mock_flash_executor_verifies_checksum_and_records_flashed_bytes() {
    let payload_bytes = b"dryer_controller_image_bytes";
    let hash = format!("sha256:{:x}", Sha256::digest(payload_bytes));

    let plan = FlashPlan {
        schema: FLASH_PLAN_SCHEMA.into(),
        mode: "dfu".into(),
        ready: true,
        controller: "mainboard".into(),
        lock_hash: "sha256:dummy".into(),
        board: "boards/cartesian-mainboard@1.0.0".into(),
        method: "dfu".into(),
        transport: "usb".into(),
        device_selection: DeviceSelection {
            rule: UsbSelectionRule {
                usb_vid: 0x1209,
                usb_pid: 0xd003,
                serial_number: None,
                manufacturer: None,
                product: None,
            },
            status: MatchStatus::Unique,
            candidates: vec![device(1, None)],
        },
        expected_current_firmware: "1.0.0".into(),
        artifact: ArtifactPlan {
            format: "bin".into(),
            path: "images/mainboard.bin".into(),
            size_bytes: payload_bytes.len() as u64,
            expected_sha256: hash.clone(),
            observed_sha256: hash.clone(),
            hash_matches: true,
            deployable: true,
            signature: None,
        },
        steps: Vec::new(),
        blocked_reasons: Vec::new(),
        recovery: Vec::new(),
    };

    let mut executor = MockFlashExecutor::default();
    let result = executor.execute_flash(&plan, payload_bytes).unwrap();
    assert!(result.success);
    assert_eq!(result.controller_id, "mainboard");
    assert_eq!(result.bytes_written, payload_bytes.len());
    assert_eq!(executor.flashed_artifacts.len(), 1);

    // Mismatched checksum is rejected
    let bad_result = executor.execute_flash(&plan, b"corrupted_bytes");
    assert!(matches!(bad_result, Err(FlashExecutionError::ChecksumMismatch { .. })));
}

#[test]
fn mock_flash_log_names_the_digest_and_the_byte_count() {
    let payload = b"abc";
    let plan = ready_plan("dfu", make_test_device(1, None, "loc1"), payload);
    let mut executor = MockFlashExecutor::new();
    let result = executor.execute_flash(&plan, payload).unwrap();
    assert_eq!(
        result.execution_log,
        vec![
            "verified checksum sha256:ba7816bf8f01cfea414140de5dae2223b00361a396177a9cb410ff61f20015ad"
                .to_string(),
            "flashed 3 bytes to mainboard".to_string(),
        ]
    );
    assert_eq!(executor.flashed_artifacts[0], ("mainboard".to_string(), b"abc".to_vec()));
}

#[test]
fn mock_flash_refuses_a_plan_that_is_not_ready() {
    let payload = b"payload";
    let mut plan = ready_plan("dfu", make_test_device(1, None, "loc1"), payload);
    plan.ready = false;
    let mut executor = MockFlashExecutor::new();
    let err = executor.execute_flash(&plan, payload).unwrap_err();
    assert_eq!(
        err,
        FlashExecutionError::PlanNotReady { reason: "plan is deployable: false".into() }
    );
    assert!(executor.flashed_artifacts.is_empty());
}

#[test]
fn sha256_labels_use_lowercase_hex() {
    assert_eq!(
        sha256(b""),
        "sha256:e3b0c44298fc1c149afbf4c8996fb92427ae41e4649b934ca495991b7852b855"
    );
}

fn make_test_device(address: u8, serial: Option<&str>, location: &str) -> DiscoveredUsbDevice {
    DiscoveredUsbDevice {
        platform: "test".into(),
        bus_id: "1".into(),
        location: location.into(),
        device_address: address,
        usb_vid: 0x1209,
        usb_pid: 0xd003,
        serial_number: serial.map(str::to_owned),
        manufacturer: Some("Example".into()),
        product: Some("Mainboard DFU".into()),
    }
}

#[test]
fn test_flash_tool_method_parsing() {
    assert_eq!(
        "dfu".parse::<FlashToolMethod>().unwrap(),
        FlashToolMethod::DfuUtil
    );
    assert_eq!(
        "dfu-util".parse::<FlashToolMethod>().unwrap(),
        FlashToolMethod::DfuUtil
    );
    assert_eq!(
        "dfu_util".parse::<FlashToolMethod>().unwrap(),
        FlashToolMethod::DfuUtil
    );

    assert_eq!(
        "stm32flash".parse::<FlashToolMethod>().unwrap(),
        FlashToolMethod::Stm32Flash
    );
    assert_eq!(
        "stm32_flash".parse::<FlashToolMethod>().unwrap(),
        FlashToolMethod::Stm32Flash
    );
    assert_eq!(
        "stm32".parse::<FlashToolMethod>().unwrap(),
        FlashToolMethod::Stm32Flash
    );

    assert_eq!(
        "bossac".parse::<FlashToolMethod>().unwrap(),
        FlashToolMethod::Bossac
    );
    assert_eq!(
        "bossa".parse::<FlashToolMethod>().unwrap(),
        FlashToolMethod::Bossac
    );

    assert_eq!(
        "picotool".parse::<FlashToolMethod>().unwrap(),
        FlashToolMethod::Picotool
    );
    assert_eq!(
        "pico".parse::<FlashToolMethod>().unwrap(),
        FlashToolMethod::Picotool
    );

    assert!(matches!(
        "invalid_method".parse::<FlashToolMethod>(),
        Err(FlashExecutionError::TransportError { .. })
    ));
}

#[test]
fn method_names_are_trimmed_and_case_insensitive() {
    assert_eq!(
        FlashToolMethod::parse_name("  DFU-Util\n").unwrap(),
        FlashToolMethod::DfuUtil
    );
    assert_eq!(
        FlashToolMethod::parse_name("Stm32-Flash").unwrap(),
        FlashToolMethod::Stm32Flash
    );
    assert_eq!(
        FlashToolMethod::parse_name("openocd").unwrap_err(),
        FlashExecutionError::TransportError {
            message: "unsupported flash execution method 'openocd'".into()
        }
    );
    assert_eq!(FlashToolMethod::from_normalized_name("dfu_util_v0"), Some(FlashToolMethod::DfuUtil));
    assert_eq!(FlashToolMethod::from_normalized_name("DFU"), None);
    assert_eq!(FlashToolMethod::Stm32Flash.as_str(), "stm32flash");
    assert_eq!(FlashToolMethod::DfuUtil.default_binary_name(), "dfu-util");
}

#[test]
fn serial_port_locations_are_recognised_after_lowercasing() {
    assert!(names_serial_port("/dev/ttyacm0"));
    assert!(names_serial_port("com3"));
    assert!(names_serial_port("usb-serial-1"));
    assert!(!names_serial_port("location-id:0001"));
    assert!(!names_serial_port("COM3"));
}

#[test]
fn test_dfu_util_command_building() {
    let payload = b"dfu_payload_bytes";
    let dev = make_test_device(1, Some("SER123"), "location-1");
    let plan = ready_plan("dfu_util", dev, payload);

    let executor = NativeFlashExecutor::dry_run();
    let cmd = executor.build_command(&plan, "fw.bin").unwrap();

    assert_eq!(cmd.tool, FlashToolMethod::DfuUtil);
    assert_eq!(cmd.program, "dfu-util");
    assert_eq!(
        cmd.args,
        vec!["-d", "1209:d003", "-S", "SER123", "-D", "fw.bin", "-R"]
    );
}

#[test]
fn test_stm32flash_command_building() {
    let payload = b"stm32_payload_bytes";
    let dev = make_test_device(1, None, "/dev/ttyUSB0");
    let plan = ready_plan("stm32flash", dev, payload);

    let executor = NativeFlashExecutor::dry_run();
    let cmd = executor.build_command(&plan, "fw.bin").unwrap();

    assert_eq!(cmd.tool, FlashToolMethod::Stm32Flash);
    assert_eq!(cmd.program, "stm32flash");
    assert_eq!(
        cmd.args,
        vec!["-w", "fw.bin", "-v", "-g", "0x0", "/dev/ttyUSB0"]
    );
}

#[test]
fn test_bossac_command_building() {
    let payload = b"bossac_payload_bytes";
    let dev = make_test_device(1, None, "/dev/ttyACM0");
    let plan = ready_plan("bossac", dev, payload);

    let executor = NativeFlashExecutor::dry_run();
    let cmd = executor.build_command(&plan, "fw.bin").unwrap();

    assert_eq!(cmd.tool, FlashToolMethod::Bossac);
    assert_eq!(cmd.program, "bossac");
    assert_eq!(
        cmd.args,
        vec!["-p", "/dev/ttyACM0", "-e", "-w", "-v", "-b", "-R", "fw.bin"]
    );
}

#[test]
fn test_picotool_command_building() {
    let payload = b"picotool_payload_bytes";
    let dev = make_test_device(4, None, "location-id:0001");
    let plan = ready_plan("picotool", dev, payload);

    let executor = NativeFlashExecutor::dry_run();
    let cmd = executor.build_command(&plan, "fw.uf2").unwrap();

    assert_eq!(cmd.tool, FlashToolMethod::Picotool);
    assert_eq!(cmd.program, "picotool");
    assert_eq!(
        cmd.args,
        vec!["load", "--bus", "1", "--address", "4", "fw.uf2", "-x", "-v"]
    );
}

#[test]
fn dfu_without_a_candidate_targets_the_rule() {
    let payload = b"p";
    let mut plan = ready_plan("dfu", make_test_device(1, Some("   "), "loc"), payload);
    plan.device_selection.candidates.clear();
    plan.device_selection.rule.usb_vid = 0x0483;
    plan.device_selection.rule.usb_pid = 0xdf11;
    let cmd = generate_command(FlashToolMethod::DfuUtil, &plan, "a.bin", None).unwrap();
    assert_eq!(cmd.args, vec!["-d", "0483:df11", "-D", "a.bin", "-R"]);
    assert_eq!(cmd.display_command(), "dfu-util -d 0483:df11 -D a.bin -R");
}

#[test]
fn binary_overrides_replace_the_default_program() {
    let payload = b"override_bytes";
    let plan = ready_plan("dfu", make_test_device(1, None, "loc1"), payload);
    let executor = NativeFlashExecutor::dry_run()
        .with_binary_override(FlashToolMethod::DfuUtil, "/usr/local/bin/custom-dfu-util")
        .with_binary_override(FlashToolMethod::Bossac, "/opt/bossac")
        .with_binary_override(FlashToolMethod::DfuUtil, "/usr/local/bin/custom-dfu-util-2");
    let cmd = executor.build_command(&plan, "fw.bin").unwrap();
    assert_eq!(cmd.program, "/usr/local/bin/custom-dfu-util-2");
    assert_eq!(executor.binary_override(FlashToolMethod::Bossac), Some("/opt/bossac"));
    assert_eq!(executor.binary_override(FlashToolMethod::Picotool), None);
    assert!(executor.dry_run);
    assert!(!NativeFlashExecutor::new().dry_run);
    assert!(!NativeFlashExecutor::dry_run().with_dry_run(false).dry_run);
    assert_eq!(
        NativeFlashExecutor::new().with_temp_dir("/tmp/x".into()).custom_temp_dir,
        Some("/tmp/x".to_string())
    );
}

#[test]
fn test_unready_plan_rejection() {
    let payload = b"payload";
    let mut plan = ready_plan("dfu", make_test_device(1, None, "loc1"), payload);
    plan.ready = false;
    plan.blocked_reasons.push("device missing".into());
    let err = NativeFlashExecutor::dry_run().validate_plan(&plan, payload).unwrap_err();
    assert_eq!(err, FlashExecutionError::PlanNotReady { reason: "device missing".into() });
}

#[test]
fn test_checksum_mismatch_rejection() {
    let payload = b"payload_bytes";
    let plan = ready_plan("dfu", make_test_device(1, None, "loc1"), payload);
    let err = NativeFlashExecutor::dry_run().validate_plan(&plan, b"corrupted").unwrap_err();
    assert!(matches!(err, FlashExecutionError::ChecksumMismatch { .. }));
}

#[test]
fn test_device_not_found_rejection() {
    let payload = b"payload";
    let mut plan = ready_plan("dfu", make_test_device(1, None, "loc1"), payload);
    plan.device_selection.status = MatchStatus::Missing;
    plan.device_selection.candidates.clear();
    let err = NativeFlashExecutor::dry_run().validate_plan(&plan, payload).unwrap_err();
    assert_eq!(err, FlashExecutionError::DeviceNotFound { target: "mainboard".into() });
}

/// A dry-run flash: the pre-flight checks, the command for the plan's
/// artifact path, and the simulated run.
fn dry_run_flash(
    executor: &NativeFlashExecutor,
    plan: &FlashPlan,
    payload: &[u8],
) -> Result<FlashResult, FlashExecutionError> {
    executor.validate_plan(plan, payload)?;
    let command = executor.build_command(plan, &plan.artifact.path)?;
    Ok(dry_run_result(plan, &command, payload.len()))
}

#[test]
fn test_binary_override_and_dry_run_execution() {
    let payload = b"override_bytes";
    let dev = make_test_device(1, None, "loc1");
    let plan = ready_plan("dfu", dev, payload);

    let executor = NativeFlashExecutor::dry_run()
        .with_binary_override(FlashToolMethod::DfuUtil, "/usr/local/bin/custom-dfu-util");

    let result = dry_run_flash(&executor, &plan, payload).unwrap();
    assert!(result.success);
    assert_eq!(result.controller_id, "mainboard");
    assert_eq!(result.bytes_written, payload.len());
    assert!(result
        .execution_log
        .iter()
        .any(|line| line.contains("/usr/local/bin/custom-dfu-util")));
}

#[test]
fn the_dry_run_log_names_the_digest_command_and_byte_count() {
    let payload = b"abc";
    let plan = ready_plan("bossac", make_test_device(2, None, "/dev/ttyACM0"), payload);
    let result = dry_run_flash(&NativeFlashExecutor::dry_run(), &plan, payload).unwrap();
    assert_eq!(
        result.execution_log,
        vec![
            format!("verified checksum {}", sha256(payload)),
            "generated tool command: bossac -p /dev/ttyACM0 -e -w -v -b -R test-firmware.bin"
                .to_string(),
            "[dry-run] simulated execution of bossac for controller 'mainboard'".to_string(),
            "flashed 3 bytes to mainboard".to_string(),
        ]
    );
    let err = dry_run_flash(&NativeFlashExecutor::dry_run(), &plan, b"abd").unwrap_err();
    assert!(matches!(err, FlashExecutionError::ChecksumMismatch { .. }));
}

#[test]
fn validation_accepts_a_ready_plan() {
    let payload = b"payload";
    let plan = ready_plan("bossa", make_test_device(1, None, "loc1"), payload);
    assert_eq!(
        NativeFlashExecutor::new().validate_plan(&plan, payload).unwrap(),
        FlashToolMethod::Bossac
    );
}

#[test]
fn matching_orders_by_the_full_key_and_ignores_partial_matches() {
    let rule = UsbSelectionRule {
        usb_vid: 0x1209,
        usb_pid: 0xd003,
        serial_number: None,
        manufacturer: Some("Example".into()),
        product: None,
    };
    let mut other_vendor = device(1, None);
    other_vendor.usb_vid = 0x0483;
    let mut other_maker = device(2, None);
    other_maker.manufacturer = Some("Other".into());
    let mut later_bus = device(0, None);
    later_bus.bus_id = "usb-test-1".into();
    let first = match_usb_devices(
        rule.clone(),
        &[later_bus.clone(), other_vendor.clone(), device(7, None), other_maker.clone()],
    );
    let second = match_usb_devices(
        rule,
        &[other_maker, device(7, None), other_vendor, later_bus.clone()],
    );
    assert_eq!(first.status, MatchStatus::Ambiguous);
    assert_eq!(first.candidates, vec![device(7, None), later_bus]);
    assert_eq!(first, second);
}

#[test]
fn a_single_match_is_unique() {
    let rule = UsbSelectionRule {
        usb_vid: 0x1209,
        usb_pid: 0xd003,
        serial_number: Some("A1".into()),
        manufacturer: None,
        product: None,
    };
    let selection = match_usb_devices(rule, &[device(1, Some("A1")), device(2, Some("B2"))]);
    assert_eq!(selection.status, MatchStatus::Unique);
    assert_eq!(selection.candidates, vec![device(1, Some("A1"))]);
}

use dryer::firmware::ExpectedFirmwareArtifact;
use dryer::flash::{
    assemble_dry_run_plan, check_dry_run_inputs, exact_locked_board, PlanError, PlanStep,
};
use dryer::lock::LockedPackage;
use dryer::package::board::{validate_flash, FlashConfig, FlashMethod, UsbSelector};
use dryer::schema::Diagnostic;

fn recipe() -> FlashMethod {
    FlashMethod {
        transport: "usb".into(),
        select: UsbSelector {
            usb_vid: 0x1209,
            usb_pid: 0xd003,
            serial_number: None,
            manufacturer: Some("Example".into()),
            product: None,
        },
        enter_bootloader: vec!["hold BOOT".into(), "tap RESET".into()],
        verify: "sha256".into(),
        recovery: vec!["power cycle".into()],
    }
}

fn expected_artifact(sha: &str, deployable: bool) -> ExpectedFirmwareArtifact {
    ExpectedFirmwareArtifact {
        format: "bin".into(),
        path: "images/mainboard.bin".into(),
        size_bytes: 3,
        sha256: sha.into(),
        deployable,
    }
}

#[test]
fn a_clean_dry_run_is_ready_with_ordered_steps() {
    let plan = assemble_dry_run_plan(
        "mainboard",
        "sha256:lock",
        "boards/example@1.0.0",
        "dfu",
        &recipe(),
        &[device(2, None)],
        &expected_artifact("sha256:abc", true),
        3,
        "sha256:abc",
        Some("sig"),
        "1.0.0",
    );
    assert!(plan.ready);
    assert!(plan.blocked_reasons.is_empty());
    assert_eq!(plan.mode, "dry_run");
    assert_eq!(plan.schema, FLASH_PLAN_SCHEMA);
    assert_eq!(plan.device_selection.status, MatchStatus::Unique);
    assert_eq!(plan.artifact.signature.as_deref(), Some("sig"));
    assert_eq!(
        plan.steps,
        vec![
            PlanStep::InspectArtifact,
            PlanStep::SelectDevice,
            PlanStep::CheckCurrentFirmware { expected: "1.0.0".into() },
            PlanStep::EnterBootloader { instruction: "hold BOOT".into() },
            PlanStep::EnterBootloader { instruction: "tap RESET".into() },
            PlanStep::FlashArtifact { method: "dfu".into(), transport: "usb".into() },
            PlanStep::VerifyArtifact { method: "sha256".into() },
            PlanStep::ConfirmBoard { expected: "boards/example@1.0.0".into() },
        ]
    );
    assert_eq!(plan.recovery, vec!["power cycle"]);
}

#[test]
fn ambiguity_and_artifact_drift_are_both_blocking_reasons() {
    let plan = assemble_dry_run_plan(
        "mainboard",
        "sha256:lock",
        "boards/example@1.0.0",
        "dfu",
        &recipe(),
        &[device(2, None), device(1, None)],
        &expected_artifact("sha256:abc", false),
        3,
        "sha256:def",
        None,
        "1.0.0",
    );
    assert!(!plan.ready);
    assert_eq!(
        plan.blocked_reasons,
        vec![
            "2 USB devices match; refine the board/controller selection rule before flashing",
            "artifact sha256 does not match the expected build digest",
            "artifact format 'bin' is an inspectable reference image, not a deployable controller executable",
        ]
    );
    let missing = assemble_dry_run_plan(
        "mainboard",
        "sha256:lock",
        "boards/example@1.0.0",
        "dfu",
        &recipe(),
        &[],
        &expected_artifact("sha256:abc", true),
        3,
        "sha256:abc",
        None,
        "1.0.0",
    );
    assert_eq!(
        missing.blocked_reasons,
        vec!["no USB device matches 1209:d003 and all declared string constraints"]
    );
}

#[test]
fn dry_run_inputs_are_checked() {
    assert!(check_dry_run_inputs("1.0.0", None).is_ok());
    assert!(matches!(
        check_dry_run_inputs(" 1.0.0", None),
        Err(PlanError::InvalidInput(m)) if m == "expected_current_firmware must be non-empty with no surrounding whitespace"
    ));
    assert!(matches!(check_dry_run_inputs("", None), Err(PlanError::InvalidInput(_))));
    assert!(matches!(
        check_dry_run_inputs("1.0.0", Some("  ")),
        Err(PlanError::InvalidInput(m)) if m == "artifact signature must not be empty when provided"
    ));
    assert_eq!(
        PlanError::UnknownController("x".into()).to_message(),
        "controller 'x' is not in machine.lock"
    );
    assert_eq!(
        FlashExecutionError::ChecksumMismatch { expected: "a".into(), actual: "b".into() }
            .to_message(),
        "artifact checksum mismatch: expected a, actual b"
    );
}

fn pin(id: &str) -> LockedPackage {
    LockedPackage { id: id.into(), manifest_hash: "sha256:m".into(), content_hash: String::new() }
}

#[test]
fn the_board_needs_exactly_one_pin() {
    let packages = vec![pin("boards/a@1.0.0"), pin("boards/ab@1.0.0"), pin("chips/x@1.0.0")];
    assert_eq!(exact_locked_board(&packages, "boards/a").unwrap().id, "boards/a@1.0.0");
    assert!(matches!(
        exact_locked_board(&packages, "boards/c"),
        Err(PlanError::InvalidLock(m)) if m == "controller board 'boards/c' has no exact package pin"
    ));
    let doubled = vec![pin("boards/a@1.0.0"), pin("boards/a@2.0.0")];
    assert!(matches!(
        exact_locked_board(&doubled, "boards/a"),
        Err(PlanError::InvalidLock(m)) if m == "controller board 'boards/a' has multiple exact package pins"
    ));
}

#[test]
fn invalid_flash_recipes_collect_structural_diagnostics() {
    let mut bad = recipe();
    bad.transport = "serial".into();
    bad.verify = "md5".into();
    bad.select.serial_number = Some(" ".into());
    bad.recovery = Vec::new();
    bad.enter_bootloader = vec!["".into()];
    let flash = FlashConfig {
        default_method: "Missing".into(),
        methods: vec![("dfu".into(), recipe()), ("Bad".into(), bad)],
    };
    let mut diags: Vec<Diagnostic> = Vec::new();
    validate_flash("boards/x@1.0.0", &flash, &mut diags);
    let codes: Vec<&str> = diags.iter().map(|d| d.code.as_str()).collect();
    assert_eq!(
        codes,
        vec!["E0615", "E0616", "E0615", "E0617", "E0618", "E0619", "E0619", "E0619"]
    );
    assert_eq!(
        diags[3].message,
        "boards/x@1.0.0: flash method 'Bad' uses unsupported transport 'serial' (v0 supports usb)"
    );
    let good = FlashConfig { default_method: "dfu".into(), methods: vec![("dfu".into(), recipe())] };
    let mut none: Vec<Diagnostic> = Vec::new();
    validate_flash("boards/x@1.0.0", &good, &mut none);
    assert!(none.is_empty());
    assert_eq!(good.default_recipe().unwrap().verify, "sha256");
}

#[test]
fn every_method_label_parses_back_to_its_method() {
    for m in [FlashToolMethod::DfuUtil, FlashToolMethod::Stm32Flash, FlashToolMethod::Bossac, FlashToolMethod::Picotool] {
        assert_eq!(FlashToolMethod::parse_name(m.as_str()), Ok(m));
    }
}
