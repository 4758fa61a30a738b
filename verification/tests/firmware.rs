use dryer::digest::sha256;
use dryer::firmware::{
    build_all, build_controller, compile_all, compile_controller, inspect_controller_image,
    plan_all, plan_controller, verify_build_plan, verify_controller_image, BuildError,
    ControllerImageManifest, CONTROLLER_BUILD_PLAN_SCHEMA, CONTROLLER_IMAGE_SCHEMA,
};
use dryer::lock::{
    LockedBuildConfig, LockedController, LockedPackage, LockedSafeState, LockedSafetyConfig,
    Lockfile, CONTROLLER_BUILD_SCHEMA, CONTROLLER_SAFETY_SCHEMA,
};
use dryer::package::safety::SafeState;
use dryer::package::{RegistrySource, REGISTRY_SOURCE_SCHEMA};
use dryer::flash::{check_board_drift, check_locked_packages, PackageCheck};
use dryer::package::{LoadedPackage, Manifest, PackageIdentity, PackageKind, PackageRef};
use serde_json::Value;

fn pin(id: &str) -> LockedPackage {
    LockedPackage { id: id.into(), manifest_hash: sha256(id.as_bytes()), content_hash: sha256(b"c") }
}

/// A locked minimal cartesian machine with one controller. Its states are
/// listed out of order, so compiling has to sort them.
fn fixture_lock() -> Lockfile {
    Lockfile {
        lock_version: 5,
        machine_hash: sha256(b"machine"),
        resolver_version: "0.1.0".into(),
        registry_source: Some(RegistrySource {
            schema: REGISTRY_SOURCE_SCHEMA.into(),
            id: "dryer-official".into(),
            uri: "git+https://github.com/dmytro-yemelianov/dryer.git?subdir=packages".into(),
            descriptor_hash: sha256(b"registry"),
        }),
        packages: vec![
            pin("boards/example-mainboard@1.0.0"),
            pin("chips/generic-mcu@1.5.0"),
            pin("devices/tmc2209@2.1.0"),
        ],
        safety_profile: pin("safety-profiles/desktop-fdm@1.0.0"),
        controllers: vec![(
            "mainboard".into(),
            LockedController {
                board: "boards/example-mainboard".into(),
                resolved_resources: vec![
                    ("hotend_heater/output".into(), "heater0".into()),
                    ("hotend_thermistor/input".into(), "thermistor0".into()),
                    ("x_driver/connected_to".into(), "motor0".into()),
                ],
                safety: Some(LockedSafetyConfig {
                    schema: CONTROLLER_SAFETY_SCHEMA.into(),
                    states: vec![
                        LockedSafeState {
                            component: "x_motor".into(),
                            class: "stepper_motor".into(),
                            resource: "motor0".into(),
                            state: SafeState::Disabled,
                            heartbeat_timeout_us: None,
                            sensor: None,
                        },
                        LockedSafeState {
                            component: "hotend_heater".into(),
                            class: "heater".into(),
                            resource: "heater0".into(),
                            state: SafeState::Off,
                            heartbeat_timeout_us: Some(500_000),
                            sensor: Some("thermistor0".into()),
                        },
                    ],
                }),
                build: Some(LockedBuildConfig {
                    schema: CONTROLLER_BUILD_SCHEMA.into(),
                    board: "boards/example-mainboard@1.0.0".into(),
                    chip: "chips/generic-mcu@1.5.0".into(),
                    target_triple: "thumbv7em-none-eabihf".into(),
                    toolchain: "rust-stable".into(),
                    build_profile: "release".into(),
                    protocol_version: "dryer.control/v1".into(),
                    abi_version: "dryer.abi/v1".into(),
                    flash_bytes: 524_288,
                    ram_bytes: 131_072,
                    bootloader_offset_bytes: 16_384,
                    features: vec!["heaters".into(), "steppers".into()],
                    native_drivers: vec!["devices/tmc2209@2.1.0".into()],
                }),
            },
        )],
    }
}

fn mainboard(lock: &mut Lockfile) -> &mut LockedController {
    &mut lock.controllers[0].1
}

#[test]
fn fixture_lock_is_valid() {
    fixture_lock().validate().unwrap();
}

#[test]
fn compilation_is_deterministic_hashed_and_round_trips() {
    let lock = fixture_lock();
    let first = compile_controller(&lock, "mainboard").unwrap();
    let second = compile_controller(&lock, "mainboard").unwrap();
    assert_eq!(first, second);
    assert_eq!(first.canonical_bytes(), second.canonical_bytes());
    assert!(first.artifact_hash().starts_with("sha256:"));
    let round_trip: Value = serde_json::from_slice(&first.canonical_bytes()).unwrap();
    assert_eq!(round_trip["schema"], first.schema.as_str());
    assert_eq!(round_trip["controller"], "mainboard");
    assert_eq!(round_trip["lock_hash"], first.lock_hash.as_str());
    assert_eq!(round_trip["safety_profile"]["id"], "safety-profiles/desktop-fdm@1.0.0");
    assert_eq!(round_trip["states"][0]["component"], "hotend_heater");
    assert_eq!(round_trip["states"][0]["heartbeat_timeout_us"], 500_000);
    assert_eq!(round_trip["states"][1]["state"], "disabled");
    assert!(round_trip["states"][1].get("sensor").is_none());
    assert_eq!(first.states.len(), 2);
    assert_eq!(first.states[0].component, "hotend_heater");
    assert_eq!(first.states[1].component, "x_motor");
}

#[test]
fn legacy_locks_cannot_silently_omit_edge_safety() {
    let mut lock = fixture_lock();
    lock.lock_version = 2;
    for (_, controller) in lock.controllers.iter_mut() {
        controller.safety = None;
    }
    let error = compile_controller(&lock, "mainboard").unwrap_err();
    assert_eq!(error, BuildError::UnsupportedLockVersion(2));
}

#[test]
fn all_controllers_are_emitted_in_stable_order() {
    let lock = fixture_lock();
    let artifacts = compile_all(&lock).unwrap();
    assert_eq!(artifacts.iter().map(|(k, _)| k.as_str()).collect::<Vec<_>>(), vec!["mainboard"]);

    let plans = plan_all(&lock).unwrap();
    assert_eq!(plans.iter().map(|(k, _)| k.as_str()).collect::<Vec<_>>(), vec!["mainboard"]);

    let images = build_all(&lock).unwrap();
    assert_eq!(images.iter().map(|(k, _)| k.as_str()).collect::<Vec<_>>(), vec!["mainboard"]);
}

#[test]
fn build_plan_is_deterministic_complete_and_round_trips() {
    let lock = fixture_lock();
    let first = plan_controller(&lock, "mainboard").unwrap();
    let second = plan_controller(&lock, "mainboard").unwrap();
    assert_eq!(first, second);
    assert_eq!(first.canonical_bytes(), second.canonical_bytes());
    assert!(first.artifact_hash().starts_with("sha256:"));
    let round_trip: Value = serde_json::from_slice(&first.canonical_bytes()).unwrap();
    assert_eq!(round_trip["schema"], CONTROLLER_BUILD_PLAN_SCHEMA);
    assert_eq!(round_trip["flash_bytes"], 524_288);
    assert_eq!(round_trip["native_drivers"][0], "devices/tmc2209@2.1.0");
    assert_eq!(round_trip["resolved_resources"]["x_driver/connected_to"], "motor0");
    assert_eq!(round_trip["expected_artifact"]["deployable"], false);
    assert_eq!(
        round_trip["expected_artifact"]["size_bytes"],
        first.expected_artifact.size_bytes
    );
    assert_eq!(first.schema, CONTROLLER_BUILD_PLAN_SCHEMA);
    assert_eq!(first.target_triple, "thumbv7em-none-eabihf");
    assert_eq!(first.flash_bytes, 524_288);
    assert_eq!(first.safety.states.len(), 2);
    assert_eq!(first.native_drivers, ["devices/tmc2209@2.1.0"]);
    assert_eq!(first.expected_artifact.format, CONTROLLER_IMAGE_SCHEMA);
    assert_eq!(first.expected_artifact.path, "build/mainboard/firmware.dryer.json");
    assert!(first.expected_artifact.size_bytes > 0);
    assert!(first.expected_artifact.sha256.starts_with("sha256:"));
    assert!(!first.expected_artifact.deployable);

    let mut reordered = lock;
    mainboard(&mut reordered).safety.as_mut().unwrap().states.reverse();
    let reordered = plan_controller(&reordered, "mainboard").unwrap();
    assert!(reordered.safety.states.windows(2).all(|states| {
        (&states[0].component, &states[0].resource) < (&states[1].component, &states[1].resource)
    }));
}

#[test]
fn reference_backend_is_deterministic_inspectable_and_lock_bound() {
    let lock = fixture_lock();
    let first = build_controller(&lock, "mainboard").unwrap();
    let second = build_controller(&lock, "mainboard").unwrap();
    assert_eq!(first, second);
    assert_eq!(first.image.schema, CONTROLLER_IMAGE_SCHEMA);
    assert_eq!(first.bytes.len() as u64, first.plan.expected_artifact.size_bytes);
    assert_eq!(first.image.image_hash(), first.plan.expected_artifact.sha256);
    assert_eq!(
        inspect_controller_image(Ok(first.image.clone()), &first.bytes).unwrap(),
        first.image
    );
    assert_eq!(
        verify_controller_image(&lock, "mainboard", &first.plan, Ok(first.image.clone()), &first.bytes)
            .unwrap(),
        first.image
    );

    let mut noncanonical = first.bytes.clone();
    noncanonical.push(b'\n');
    let error = inspect_controller_image(Ok(first.image.clone()), &noncanonical).unwrap_err();
    assert!(error.to_message().contains("canonical JSON"), "{}", error.to_message());

    let mut drifted_plan = first.plan.clone();
    drifted_plan.expected_artifact.sha256 =
        "sha256:0000000000000000000000000000000000000000000000000000000000000000".into();
    let error = verify_controller_image(
        &lock,
        "mainboard",
        &drifted_plan,
        Ok(first.image.clone()),
        &first.bytes,
    )
    .unwrap_err();
    assert!(matches!(error, BuildError::BuildPlanMismatch(_)));
}

#[test]
fn legacy_v3_locks_cannot_produce_build_plans() {
    let mut lock = fixture_lock();
    lock.lock_version = 3;
    lock.registry_source = None;
    for (_, controller) in lock.controllers.iter_mut() {
        controller.build = None;
    }
    let error = plan_controller(&lock, "mainboard").unwrap_err();
    assert_eq!(error, BuildError::UnsupportedBuildPlanLockVersion(3));
}

#[test]
fn legacy_v4_locks_without_registry_identity_can_still_build() {
    let mut lock = fixture_lock();
    lock.lock_version = 4;
    lock.registry_source = None;

    compile_controller(&lock, "mainboard").unwrap();
    plan_controller(&lock, "mainboard").unwrap();
}

#[test]
fn v5_locks_without_registry_identity_cannot_build() {
    let mut lock = fixture_lock();
    lock.registry_source = None;

    for error in [
        compile_controller(&lock, "mainboard").unwrap_err(),
        plan_controller(&lock, "mainboard").unwrap_err(),
    ] {
        match error {
            BuildError::InvalidLock(message) => {
                assert!(message.contains("registry source identity"), "{message}")
            }
            other => panic!("expected invalid v5 registry identity, got {}", other.to_message()),
        }
    }
}

#[test]
fn controllers_and_configurations_are_required() {
    let lock = fixture_lock();
    assert_eq!(
        build_controller(&lock, "toolboard").unwrap_err(),
        BuildError::UnknownController("toolboard".into())
    );
    assert_eq!(
        compile_controller(&lock, "toolboard").unwrap_err().to_message(),
        "unknown locked controller 'toolboard'"
    );

    let mut unbuilt = fixture_lock();
    unbuilt.lock_version = 3;
    unbuilt.registry_source = None;
    mainboard(&mut unbuilt).build = None;
    assert!(compile_controller(&unbuilt, "mainboard").is_ok());
}

#[test]
fn the_image_is_indented_json_with_a_final_newline() {
    let lock = fixture_lock();
    let built = build_controller(&lock, "mainboard").unwrap();
    let text = String::from_utf8(built.bytes.clone()).unwrap();
    assert_eq!(text, built.image.to_pretty_json());
    assert!(text.ends_with("}\n"));
    assert!(text.starts_with("{\n  \"schema\": \"dryer.controller-image/v1\",\n  \"controller\": \"mainboard\",\n"));
    assert!(text.contains("\n  \"features\": [\n    \"heaters\",\n    \"steppers\"\n  ],\n"));
    assert!(text.contains(
        "\n  \"resolved_resources\": {\n    \"hotend_heater/output\": \"heater0\",\n"
    ));
    assert!(text.contains("\n      {\n        \"component\": \"hotend_heater\",\n"));
    assert!(text.contains("\n        \"heartbeat_timeout_us\": 500000,\n"));
    let parsed: Value = serde_json::from_str(&text).unwrap();
    assert_eq!(serde_json::to_string_pretty(&parsed).unwrap().len() + 1, text.len());
    assert_eq!(built.plan.expected_artifact.sha256, sha256(&built.bytes));
}

#[test]
fn a_small_image_has_the_exact_serde_layout() {
    let image = ControllerImageManifest {
        schema: CONTROLLER_IMAGE_SCHEMA.into(),
        controller: "m".into(),
        lock_hash: "h".into(),
        board: "b".into(),
        chip: "c".into(),
        target_triple: "t".into(),
        toolchain: "rust".into(),
        build_profile: "release".into(),
        protocol_version: "p/v1".into(),
        abi_version: "a/v1".into(),
        flash_bytes: 2,
        ram_bytes: 1,
        bootloader_offset_bytes: 0,
        features: vec![],
        native_drivers: vec!["d\"q".into()],
        resolved_resources: vec![],
        safety: LockedSafetyConfig { schema: "s".into(), states: vec![] },
    };
    let expected = "{\n  \"schema\": \"dryer.controller-image/v1\",\n  \"controller\": \"m\",\n  \"lock_hash\": \"h\",\n  \"board\": \"b\",\n  \"chip\": \"c\",\n  \"target_triple\": \"t\",\n  \"toolchain\": \"rust\",\n  \"build_profile\": \"release\",\n  \"protocol_version\": \"p/v1\",\n  \"abi_version\": \"a/v1\",\n  \"flash_bytes\": 2,\n  \"ram_bytes\": 1,\n  \"bootloader_offset_bytes\": 0,\n  \"features\": [],\n  \"native_drivers\": [\n    \"d\\\"q\"\n  ],\n  \"resolved_resources\": {},\n  \"safety\": {\n    \"schema\": \"s\",\n    \"states\": []\n  }\n}\n";
    assert_eq!(image.to_pretty_json(), expected);
    assert_eq!(image.canonical_bytes(), expected.as_bytes());
    assert_eq!(image.image_hash(), sha256(expected.as_bytes()));
}

#[test]
fn inspection_refuses_parse_errors_and_foreign_schemas() {
    let lock = fixture_lock();
    let built = build_controller(&lock, "mainboard").unwrap();
    assert_eq!(
        inspect_controller_image(Err("expected value at line 1 column 1".into()), b"x").unwrap_err(),
        BuildError::InvalidControllerImage("expected value at line 1 column 1".into())
    );
    let mut foreign = built.image.clone();
    foreign.schema = "dryer.controller-image/v2".into();
    let bytes = foreign.canonical_bytes();
    assert_eq!(
        inspect_controller_image(Ok(foreign), &bytes).unwrap_err().to_message(),
        "invalid controller image: schema 'dryer.controller-image/v2' is not 'dryer.controller-image/v1'"
    );
}

#[test]
fn verification_refuses_an_image_other_than_the_built_one() {
    let lock = fixture_lock();
    let built = build_controller(&lock, "mainboard").unwrap();
    let mut other = built.image.clone();
    other.board = "boards/other@1.0.0".into();
    let bytes = other.canonical_bytes();
    let error = verify_controller_image(&lock, "mainboard", &built.plan, Ok(other), &bytes).unwrap_err();
    let expected = format!(
        "invalid controller image: controller 'mainboard' expected {} bytes at {}, observed {} bytes at {}",
        built.bytes.len(),
        built.plan.expected_artifact.sha256,
        bytes.len(),
        sha256(&bytes)
    );
    assert_eq!(error.to_message(), expected);
}

#[test]
fn a_plan_check_names_the_controller() {
    let lock = fixture_lock();
    let mut plan = plan_controller(&lock, "mainboard").unwrap();
    assert_eq!(verify_build_plan(&lock, "mainboard", &plan), Ok(()));
    plan.features.push("zz".into());
    assert_eq!(
        verify_build_plan(&lock, "mainboard", &plan).unwrap_err().to_message(),
        "controller build plan mismatch: controller 'mainboard' plan does not match the locked inputs"
    );
    let mut legacy = fixture_lock();
    legacy.lock_version = 3;
    legacy.registry_source = None;
    assert_eq!(
        verify_build_plan(&legacy, "mainboard", &plan).unwrap_err(),
        BuildError::UnsupportedBuildPlanLockVersion(3)
    );
}

#[test]
fn safety_artifacts_print_with_a_final_newline() {
    let lock = fixture_lock();
    let artifact = compile_controller(&lock, "mainboard").unwrap();
    let pretty = artifact.to_pretty_json();
    assert!(pretty.ends_with("\n}\n"));
    let compact = String::from_utf8(artifact.canonical_bytes()).unwrap();
    let reparsed: Value = serde_json::from_str(&pretty).unwrap();
    assert_eq!(serde_json::from_str::<Value>(&compact).unwrap(), reparsed);
    assert_eq!(artifact.artifact_hash(), sha256(compact.as_bytes()));
}

#[test]
fn v2_locks_require_every_content_hash_at_parse_and_serialize_boundaries() {
    let valid = fixture_lock();
    let mut missing_package_hash = valid.clone();
    missing_package_hash.packages[0].content_hash.clear();
    let error = missing_package_hash.validate().unwrap_err();
    assert!(error.contains("has no content_hash"), "{error}");

    let mut missing_safety_hash = valid;
    missing_safety_hash.safety_profile.content_hash.clear();
    let error = missing_safety_hash.validate().unwrap_err();
    assert!(error.contains("has no content_hash"), "{error}");
}

#[test]
fn v3_locks_require_compiled_controller_safety_at_both_boundaries() {
    let valid = fixture_lock();
    let mut missing = valid.clone();
    mainboard(&mut missing).safety = None;
    let error = missing.validate().unwrap_err();
    assert!(error.contains("compiled safety configuration"), "{error}");

    let mut malformed = valid.clone();
    mainboard(&mut malformed).safety.as_mut().unwrap().states[0].component = " padded".to_string();
    for error in [
        malformed.try_canonical_bytes().unwrap_err(),
        malformed.try_lock_hash().unwrap_err(),
        malformed.validate().unwrap_err(),
    ] {
        assert!(error.contains("empty or padded"), "{error}");
    }
}

#[test]
fn v3_locks_reject_multiple_actions_for_one_physical_resource() {
    let mut duplicate = fixture_lock();
    let safety = mainboard(&mut duplicate).safety.as_mut().unwrap();
    let mut second_owner =
        safety.states.iter().find(|state| state.resource == "motor0").unwrap().clone();
    second_owner.component = "x_driver".to_string();
    second_owner.class = "tmc2209".to_string();
    second_owner.state = SafeState::Off;
    safety.states.push(second_owner);

    let error = duplicate.validate().unwrap_err();
    assert!(error.contains("repeats safety state for physical resource 'motor0'"), "{error}");
}

#[test]
fn v4_locks_require_valid_compiled_build_inputs() {
    let valid = fixture_lock();

    let mut missing = valid.clone();
    mainboard(&mut missing).build = None;
    let error = missing.validate().unwrap_err();
    assert!(error.contains("compiled build configuration"), "{error}");

    let mut invalid_memory = valid.clone();
    mainboard(&mut invalid_memory).build.as_mut().unwrap().bootloader_offset_bytes = 524_288;
    let error = invalid_memory.validate().unwrap_err();
    assert!(error.contains("invalid build memory"), "{error}");

    let mut invalid_interface = valid.clone();
    mainboard(&mut invalid_interface).build.as_mut().unwrap().protocol_version =
        "dryer.control/v01".to_string();
    let error = invalid_interface.validate().unwrap_err();
    assert!(error.contains("versioned interface"), "{error}");

    let mut invalid_feature = valid;
    mainboard(&mut invalid_feature).build.as_mut().unwrap().features = vec!["not valid".to_string()];
    let error = invalid_feature.validate().unwrap_err();
    assert!(error.contains("invalid identifier"), "{error}");
}

#[test]
fn v5_locks_require_a_valid_registry_source_identity() {
    let valid = fixture_lock();

    let mut missing = valid.clone();
    missing.registry_source = None;
    let error = missing.validate().unwrap_err();
    assert!(error.contains("no registry source identity"), "{error}");

    let mut malformed = valid;
    malformed.registry_source.as_mut().unwrap().uri = "file:///Users/example/packages".to_string();
    let error = malformed.validate().unwrap_err();
    assert!(error.contains("portable absolute URI"), "{error}");
}

fn board_registry(source: Option<RegistrySource>) -> dryer::package::LocalRegistry {
    let version = semver::Version::new(1, 0, 0);
    dryer::package::LocalRegistry {
        source,
        packages: vec![LoadedPackage {
            reference: PackageRef { namespace: "boards".into(), name: "example-mainboard".into(), version: version.clone() },
            kind: PackageKind::Board,
            dir: "/registry/boards/example-mainboard/1.0.0".into(),
            manifest: Manifest {
                package: PackageIdentity {
                    namespace: "boards".into(),
                    name: "example-mainboard".into(),
                    version,
                    kind: PackageKind::Board,
                },
                dependencies: vec![],
            },
        }],
        diagnostics: vec![],
    }
}

fn locate(
    lock: &Lockfile,
    registry: &dryer::package::LocalRegistry,
    controller: &str,
    firmware: &str,
) -> Result<(String, String), String> {
    let plan = plan_controller(&fixture_lock(), "mainboard").unwrap();
    dryer::flash::locate_locked_board(lock, registry, controller, &plan, firmware, None)
        .map(|(pin, package)| (pin.id.clone(), package.dir.clone()))
        .map_err(|e| e.to_message())
}

#[test]
fn a_dry_run_finds_the_locked_board_in_the_registry() {
    let lock = fixture_lock();
    let registry = board_registry(lock.registry_source.clone());
    assert_eq!(
        locate(&lock, &registry, "mainboard", "dryer 0.1.0"),
        Ok(("boards/example-mainboard@1.0.0".to_string(), "/registry/boards/example-mainboard/1.0.0".to_string()))
    );
}

#[test]
fn a_dry_run_refuses_an_invalid_lock_and_a_drifted_registry() {
    let lock = fixture_lock();
    let mut invalid = fixture_lock();
    invalid.registry_source = None;
    let registry = board_registry(lock.registry_source.clone());
    assert!(locate(&invalid, &registry, "mainboard", "fw").unwrap_err().starts_with("invalid machine.lock: "));
    assert_eq!(
        locate(&lock, &board_registry(None), "mainboard", "fw").unwrap_err(),
        "locked registry drift: local registry has no validated portable source descriptor"
    );
    let mut other = lock.registry_source.clone().unwrap();
    other.uri = "file:///elsewhere".into();
    let message = locate(&lock, &board_registry(Some(other)), "mainboard", "fw").unwrap_err();
    assert!(message.starts_with("locked registry drift: registry source expected 'dryer-official', sha256:"));
    assert!(message.ends_with(" at file:///elsewhere"));
    let empty = dryer::package::LocalRegistry { packages: vec![], ..board_registry(lock.registry_source.clone()) };
    assert_eq!(
        locate(&lock, &empty, "mainboard", "fw").unwrap_err(),
        "locked registry drift: boards/example-mainboard@1.0.0 is absent from the local registry"
    );
}

#[test]
fn a_dry_run_checks_inputs_controller_and_build_plan_in_order() {
    let lock = fixture_lock();
    let registry = board_registry(lock.registry_source.clone());
    assert_eq!(
        locate(&lock, &registry, "mainboard", " fw").unwrap_err(),
        "invalid flash-plan input: expected_current_firmware must be non-empty with no surrounding whitespace"
    );
    assert_eq!(locate(&lock, &registry, "toolhead", "fw").unwrap_err(), "controller 'toolhead' is not in machine.lock");
    let mut plan = plan_controller(&lock, "mainboard").unwrap();
    plan.ram_bytes += 1;
    let refused = dryer::flash::locate_locked_board(&lock, &registry, "mainboard", &plan, "fw", None).map(|_| ()).unwrap_err();
    assert_eq!(
        refused.to_message(),
        "invalid locked firmware build output: controller build plan mismatch: controller 'mainboard' plan does not match the locked inputs"
    );
}

#[test]
fn board_drift_compares_the_manifest_and_content_hashes() {
    let board = LockedPackage {
        id: "boards/a@1.0.0".into(),
        manifest_hash: sha256(b"package: a\n"),
        content_hash: "sha256:c".into(),
    };
    let manifest: Result<Vec<u8>, String> = Ok(b"package: a\n".to_vec());
    let content: Result<String, String> = Ok("sha256:c".into());
    assert!(check_board_drift(5, &board, &manifest, &content).is_ok());
    let unreadable: Result<Vec<u8>, String> = Err("permission denied".into());
    assert_eq!(
        check_board_drift(5, &board, &unreadable, &content).unwrap_err().to_message(),
        "cannot read locked registry package: permission denied"
    );
    let edited: Result<Vec<u8>, String> = Ok(b"package: b\n".to_vec());
    let message = check_board_drift(5, &board, &edited, &content).unwrap_err().to_message();
    assert_eq!(
        message,
        format!("locked registry drift: boards/a@1.0.0 expected {}, observed {}", board.manifest_hash, sha256(b"package: b\n"))
    );
    let legacy = LockedPackage { content_hash: String::new(), ..board.clone() };
    assert_eq!(
        check_board_drift(2, &legacy, &manifest, &content).unwrap_err().to_message(),
        "invalid machine.lock: boards/a@1.0.0 has no package content hash in lockfile v2"
    );
    assert!(check_board_drift(1, &legacy, &manifest, &Err("unread".into())).is_ok());
    assert_eq!(
        check_board_drift(5, &board, &manifest, &Err("gone".into())).unwrap_err().to_message(),
        "cannot read locked registry package: gone"
    );
    assert_eq!(
        check_board_drift(5, &board, &manifest, &Ok("sha256:d".into())).unwrap_err().to_message(),
        "locked registry drift: boards/a@1.0.0 package content expected sha256:c, observed sha256:d"
    );
}

#[test]
fn locked_packages_are_compared_with_the_registry_in_lock_order() {
    let lock = fixture_lock();
    let registry = board_registry(lock.registry_source.clone());
    let unread: Vec<Result<String, String>> = vec![Err("unread".into()), Err("unread".into()), Err("unread".into())];
    let same = vec![Ok(sha256(b"c")), Err("unread".into()), Err("unread".into())];
    assert_eq!(
        check_locked_packages(&lock.packages, &registry, &same),
        Ok(vec![PackageCheck::Matches, PackageCheck::Missing, PackageCheck::Missing])
    );
    let edited = vec![Ok("sha256:edited".to_string()), Err("unread".into()), Err("unread".into())];
    assert_eq!(
        check_locked_packages(&lock.packages, &registry, &edited),
        Ok(vec![PackageCheck::Drifted { observed: "sha256:edited".into() }, PackageCheck::Missing, PackageCheck::Missing])
    );
    assert_eq!(check_locked_packages(&lock.packages, &registry, &unread), Err("unread".to_string()));
    let mut malformed = lock.packages.clone();
    malformed[1].id = "chips/generic-mcu".into();
    assert_eq!(
        check_locked_packages(&malformed, &registry, &same),
        Err("invalid locked package ref 'chips/generic-mcu': 'chips/generic-mcu' is missing '@version'".to_string())
    );
}

#[test]
fn a_valid_lock_keeps_its_version_promises() {
    let lock = fixture_lock();
    lock.validate().unwrap();
    assert!(lock.packages.iter().all(|p| !p.content_hash.is_empty()));
    assert!(!lock.safety_profile.content_hash.is_empty());
    for (_, controller) in &lock.controllers {
        let safety = controller.safety.as_ref().unwrap();
        assert_eq!(safety.schema, CONTROLLER_SAFETY_SCHEMA);
        let resolved: Vec<&String> = controller.resolved_resources.iter().map(|(_, r)| r).collect();
        for (i, state) in safety.states.iter().enumerate() {
            assert!(resolved.contains(&&state.resource));
            assert_ne!(state.heartbeat_timeout_us, Some(0));
            assert!(safety.states[i + 1..].iter().all(|other| other.resource != state.resource));
        }
        let build = controller.build.as_ref().unwrap();
        assert_eq!(build.schema, CONTROLLER_BUILD_SCHEMA);
        assert!(build.flash_bytes > 0 && build.ram_bytes > 0 && build.bootloader_offset_bytes < build.flash_bytes);
        assert!(build.features.windows(2).all(|w| w[0] < w[1]));
        assert!(build.native_drivers.windows(2).all(|w| w[0] < w[1]));
    }
    assert!(lock.registry_source.as_ref().unwrap().validate().is_ok());
}

fn flash_board(default_method: &str) -> dryer::package::board::BoardPackageFile {
    dryer::package::board::BoardPackageFile {
        package: PackageIdentity {
            namespace: "boards".into(),
            name: "example-mainboard".into(),
            version: semver::Version::new(1, 0, 0),
            kind: PackageKind::Board,
        },
        chip: None,
        hardware: None,
        connectors: vec![],
        transports: vec![],
        downlinks: vec![],
        flash: Some(dryer::package::board::FlashConfig {
            default_method: default_method.into(),
            methods: vec![(
                "dfu".into(),
                dryer::package::board::FlashMethod {
                    transport: "usb".into(),
                    select: dryer::package::board::UsbSelector {
                        usb_vid: 0x1209,
                        usb_pid: 0xd003,
                        serial_number: None,
                        manufacturer: None,
                        product: None,
                    },
                    enter_bootloader: vec!["hold BOOT".into()],
                    verify: "sha256".into(),
                    recovery: vec!["power cycle".into()],
                },
            )],
        }),
    }
}

#[test]
fn finishing_a_dry_run_checks_the_recipe_and_the_image() {
    let lock = fixture_lock();
    let built = build_controller(&lock, "mainboard").unwrap();
    let board_pin = pin("boards/example-mainboard@1.0.0");
    let finish = |board: &dryer::package::board::BoardPackageFile, bytes: &[u8], parsed: Result<ControllerImageManifest, String>| {
        dryer::flash::finish_dry_run(&lock, "mainboard", &built.plan, &board_pin, board, &[], bytes, parsed, "1.0.0")
    };
    let mut bare = flash_board("dfu");
    bare.flash = None;
    assert_eq!(
        finish(&bare, b"x", Err("no".into())).unwrap_err().to_message(),
        "board 'boards/example-mainboard@1.0.0' has no usable flash metadata"
    );
    assert_eq!(
        finish(&flash_board("swd"), b"x", Err("no".into())).unwrap_err().to_message(),
        "board 'boards/example-mainboard@1.0.0 (default method 'swd')' has no usable flash metadata"
    );
    let placeholder = finish(&flash_board("dfu"), b"dummy", Err("not an image".into())).unwrap();
    assert!(!placeholder.artifact.hash_matches && !placeholder.ready);
    assert_eq!(placeholder.board, "boards/example-mainboard@1.0.0");
    assert_eq!(placeholder.lock_hash, lock.lock_hash());
    assert_eq!(placeholder.artifact.size_bytes, 5);
    let real = finish(&flash_board("dfu"), &built.bytes, Ok(built.image.clone())).unwrap();
    assert!(real.artifact.hash_matches);
    assert_eq!(real.artifact.observed_sha256, built.plan.expected_artifact.sha256);
    let unreadable = finish(&flash_board("dfu"), &built.bytes, Err("garbled".into())).unwrap_err();
    assert_eq!(unreadable.to_message(), "invalid locked firmware build output: invalid controller image: garbled");
    let mut invalid = fixture_lock();
    invalid.registry_source = None;
    let refused =
        dryer::flash::finish_dry_run(&invalid, "mainboard", &built.plan, &board_pin, &flash_board("dfu"), &[], b"x", Err("no".into()), "1.0.0");
    assert!(refused.unwrap_err().to_message().starts_with("invalid machine.lock: "));
}
