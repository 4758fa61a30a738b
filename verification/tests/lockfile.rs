use dryer::digest::sha256;
use dryer::lock::{
    LockedBuildConfig, LockedController, LockedPackage, LockedSafeState, LockedSafetyConfig,
    Lockfile, CONTROLLER_BUILD_SCHEMA, CONTROLLER_SAFETY_SCHEMA,
};
use dryer::package::safety::SafeState;
use dryer::package::{RegistrySource, REGISTRY_SOURCE_SCHEMA};

fn pin(id: &str) -> LockedPackage {
    LockedPackage { id: id.into(), manifest_hash: sha256(id.as_bytes()), content_hash: sha256(b"c") }
}

fn valid_lock() -> Lockfile {
    Lockfile {
        lock_version: 5,
        machine_hash: sha256(b"machine"),
        resolver_version: "0.1.0".into(),
        registry_source: Some(RegistrySource {
            schema: REGISTRY_SOURCE_SCHEMA.into(),
            id: "dryer-official".into(),
            uri: "https://example.com/packages".into(),
            descriptor_hash: sha256(b"registry"),
        }),
        packages: vec![
            pin("boards/example@1.0.0"),
            pin("chips/generic-mcu@1.5.0"),
            pin("drivers/tmc2209@2.1.0"),
        ],
        safety_profile: pin("safety-profiles/desktop-fdm@1.0.0"),
        controllers: vec![(
            "mainboard".into(),
            LockedController {
                board: "boards/example".into(),
                resolved_resources: vec![
                    ("hotend/output".into(), "heater0".into()),
                    ("thermistor/input".into(), "th0".into()),
                    ("x_driver/connected_to".into(), "motor0".into()),
                ],
                safety: Some(LockedSafetyConfig {
                    schema: CONTROLLER_SAFETY_SCHEMA.into(),
                    states: vec![
                        LockedSafeState {
                            component: "hotend".into(),
                            class: "heater".into(),
                            resource: "heater0".into(),
                            state: SafeState::Off,
                            heartbeat_timeout_us: Some(500_000),
                            sensor: Some("th0".into()),
                        },
                        LockedSafeState {
                            component: "x_driver".into(),
                            class: "tmc2209".into(),
                            resource: "motor0".into(),
                            state: SafeState::Disabled,
                            heartbeat_timeout_us: None,
                            sensor: None,
                        },
                    ],
                }),
                build: Some(LockedBuildConfig {
                    schema: CONTROLLER_BUILD_SCHEMA.into(),
                    board: "boards/example@1.0.0".into(),
                    chip: "chips/generic-mcu@1.5.0".into(),
                    target_triple: "thumbv7em-none-eabihf".into(),
                    toolchain: "rust-stable".into(),
                    build_profile: "release".into(),
                    protocol_version: "dryer.control/v1".into(),
                    abi_version: "dryer.abi/v1".into(),
                    flash_bytes: 524_288,
                    ram_bytes: 131_072,
                    bootloader_offset_bytes: 32_768,
                    features: vec!["heaters".into(), "steppers".into()],
                    native_drivers: vec!["drivers/tmc2209@2.1.0".into()],
                }),
            },
        )],
    }
}

fn build(lock: &mut Lockfile) -> &mut LockedBuildConfig {
    lock.controllers[0].1.build.as_mut().unwrap()
}

#[test]
fn a_complete_lock_validates() {
    valid_lock().validate().unwrap();
}

#[test]
fn content_hashes_are_required_from_v2() {
    let mut lock = valid_lock();
    lock.packages[1].content_hash.clear();
    assert_eq!(
        lock.validate().unwrap_err(),
        "lockfile v5 package[1] 'chips/generic-mcu@1.5.0' has no content_hash"
    );
    lock.lock_version = 1;
    lock.validate().unwrap();
    let mut profile = valid_lock();
    profile.safety_profile.content_hash.clear();
    assert_eq!(
        profile.validate().unwrap_err(),
        "lockfile v5 safety_profile 'safety-profiles/desktop-fdm@1.0.0' has no content_hash"
    );
}

#[test]
fn compiled_safety_is_checked_from_v3() {
    let mut missing = valid_lock();
    missing.controllers[0].1.safety = None;
    assert_eq!(
        missing.validate().unwrap_err(),
        "lockfile v5 controller 'mainboard' has no compiled safety configuration"
    );
    missing.lock_version = 2;
    missing.validate().unwrap();

    let mut padded = valid_lock();
    padded.controllers[0].1.safety.as_mut().unwrap().states[0].component = " padded".into();
    assert!(padded.validate().unwrap_err().contains("empty or padded"));

    let mut duplicate = valid_lock();
    let states = &mut duplicate.controllers[0].1.safety.as_mut().unwrap().states;
    let mut second = states[1].clone();
    second.component = "y_driver".into();
    states.push(second);
    assert_eq!(
        duplicate.validate().unwrap_err(),
        "lockfile v5 controller 'mainboard' repeats safety state for physical resource 'motor0'"
    );

    let mut unresolved = valid_lock();
    unresolved.controllers[0].1.safety.as_mut().unwrap().states[0].sensor = Some("th9".into());
    assert_eq!(
        unresolved.validate().unwrap_err(),
        "lockfile v5 controller 'mainboard' safety sensor 'th9' is not resolved"
    );

    let mut zero = valid_lock();
    zero.controllers[0].1.safety.as_mut().unwrap().states[0].heartbeat_timeout_us = Some(0);
    assert!(zero.validate().unwrap_err().ends_with("heartbeat timeout must be positive"));
}

#[test]
fn compiled_build_inputs_are_checked_from_v4() {
    let mut missing = valid_lock();
    missing.controllers[0].1.build = None;
    assert!(missing.validate().unwrap_err().contains("compiled build configuration"));
    missing.lock_version = 3;
    missing.validate().unwrap();

    let mut memory = valid_lock();
    build(&mut memory).bootloader_offset_bytes = 524_288;
    assert!(memory.validate().unwrap_err().contains("invalid build memory"));

    let mut interface = valid_lock();
    build(&mut interface).protocol_version = "dryer.control/v01".into();
    assert_eq!(
        interface.validate().unwrap_err(),
        "lockfile v5 controller 'mainboard' build protocol_version is not a versioned interface"
    );

    let mut board = valid_lock();
    build(&mut board).board = "boards/examples@1.0.0".into();
    assert_eq!(
        board.validate().unwrap_err(),
        "lockfile v5 controller 'mainboard' build board 'boards/examples@1.0.0' does not pin 'boards/example'"
    );

    let mut input = valid_lock();
    build(&mut input).native_drivers = vec!["drivers/other@1.0.0".into()];
    assert_eq!(
        input.validate().unwrap_err(),
        "lockfile v5 controller 'mainboard' build input 'drivers/other@1.0.0' is not in packages"
    );

    let mut padded = valid_lock();
    build(&mut padded).toolchain = "rust ".into();
    assert_eq!(
        padded.validate().unwrap_err(),
        "lockfile v5 controller 'mainboard' build toolchain is empty or padded"
    );

    let mut unsorted = valid_lock();
    build(&mut unsorted).features = vec!["steppers".into(), "heaters".into()];
    assert!(unsorted.validate().unwrap_err().contains("features must be sorted and unique"));

    let mut invalid = valid_lock();
    build(&mut invalid).features = vec!["Heaters".into()];
    assert!(invalid.validate().unwrap_err().contains("invalid identifier"));
}

#[test]
fn registry_identity_is_required_from_v5() {
    let mut missing = valid_lock();
    missing.registry_source = None;
    assert_eq!(missing.validate().unwrap_err(), "lockfile v5 has no registry source identity");
    missing.lock_version = 4;
    missing.validate().unwrap();

    let mut malformed = valid_lock();
    malformed.registry_source.as_mut().unwrap().uri = "file:///Users/example/packages".into();
    assert_eq!(
        malformed.validate().unwrap_err(),
        "lockfile v5 has invalid registry source identity: registry source URI 'file:///Users/example/packages' is not a portable absolute URI"
    );
}
