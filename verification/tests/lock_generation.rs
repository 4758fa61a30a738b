use dryer::digest::sha256;
use dryer::generate::lock;
use dryer::package::safety::SafeState;
use dryer::package::{
    package_snapshot, LoadedPackage, LocalRegistry, Manifest, PackageIdentity, PackageKind, PackageRef,
    PackageSnapshot, RegistrySource, REGISTRY_SOURCE_SCHEMA,
};
use dryer::resolver::model::{Assignment, ControllerSafeState, ResolvedGraph};
use dryer::resolver::ControllerBuildPlan;
use dryer::resource::ResourceId;
use dryer::schema::{Controller, Kinematics, MachineDoc, Metadata, Safety, Transport};

const SOURCE: &str = "apiVersion: dryer.machine/v0.1\nkind: Machine\n";

fn loaded(namespace: &str, name: &str, kind: PackageKind) -> LoadedPackage {
    let version = semver::Version::new(1, 0, 0);
    LoadedPackage {
        reference: PackageRef { namespace: namespace.into(), name: name.into(), version: version.clone() },
        kind,
        dir: format!("/registry/{namespace}/{name}/1.0.0"),
        manifest: Manifest {
            package: PackageIdentity { namespace: namespace.into(), name: name.into(), version, kind },
            dependencies: vec![],
        },
    }
}

fn registry(with_source: bool) -> LocalRegistry {
    LocalRegistry {
        source: with_source.then(|| RegistrySource {
            schema: REGISTRY_SOURCE_SCHEMA.into(),
            id: "dryer-official".into(),
            uri: "https://example.com/packages".into(),
            descriptor_hash: sha256(b"registry"),
        }),
        packages: vec![
            loaded("boards", "example-mainboard", PackageKind::Board),
            loaded("chips", "generic-mcu", PackageKind::Chip),
            loaded("safety-profiles", "desktop-fdm", PackageKind::SafetyProfile),
        ],
        diagnostics: vec![],
    }
}

fn doc() -> MachineDoc {
    MachineDoc {
        api_version: "dryer.machine/v0.1".into(),
        kind: "Machine".into(),
        metadata: Metadata { name: "bench".into(), description: None },
        packages: vec![],
        controllers: vec![(
            "mainboard".into(),
            Controller {
                board: "boards/example-mainboard".into(),
                transport: Transport { kind: "usb".into(), parent: None },
            },
        )],
        components: vec![],
        kinematics: Kinematics { kind: "cartesian".into(), limits: vec![] },
        safety: Safety { profile: "safety-profiles/desktop-fdm".into() },
        workflows: vec![],
        calibration: None,
    }
}

fn assignment(component: &str, via: &str, resource: &str, kind: &str) -> Assignment {
    Assignment {
        requested_by: component.into(),
        via: via.into(),
        resource: ResourceId(resource.into()),
        connector_kind: kind.into(),
        candidates_considered: vec![resource.into()],
        constraints_applied: vec![],
        pin_capabilities: vec![],
    }
}

fn resolved(sensor: &str) -> ResolvedGraph {
    ResolvedGraph {
        assignments: vec![
            ("hotend_heater".into(), vec![assignment("hotend_heater", "output", "mainboard.heater0", "power_output")]),
            (
                "hotend_sensor".into(),
                vec![assignment("hotend_sensor", "input", "mainboard.thermistor0", "analog_input")],
            ),
            (
                "y_driver".into(),
                vec![assignment(
                    "y_driver",
                    "requires.connector (devices/tmc2209@2.1.0)",
                    "mainboard.motor1",
                    "stepper_driver_socket",
                )],
            ),
        ],
        controller_safety: vec![(
            "mainboard".into(),
            vec![ControllerSafeState {
                component: "hotend_heater".into(),
                class: "heater".into(),
                resource: ResourceId("mainboard.heater0".into()),
                state: SafeState::Off,
                heartbeat_timeout_us: Some(500_000),
                sensor: Some(ResourceId(sensor.into())),
            }],
        )],
        controller_build_plans: vec![(
            "mainboard".into(),
            ControllerBuildPlan {
                board: "boards/example-mainboard@1.0.0".into(),
                chip: "chips/generic-mcu@1.0.0".into(),
                target_triple: "thumbv7em-none-eabihf".into(),
                toolchain: "rustc-1.85.0".into(),
                build_profile: "release".into(),
                protocol_version: "dryer.control/v1".into(),
                abi_version: "dryer.controller/v1".into(),
                flash_bytes: 524_288,
                ram_bytes: 131_072,
                bootloader_offset_bytes: 16_384,
                features: vec!["adc".into(), "pwm".into()],
                native_drivers: vec![],
            },
        )],
        packages: vec![
            "safety-profiles/desktop-fdm@1.0.0".into(),
            "boards/example-mainboard@1.0.0".into(),
            "chips/generic-mcu@1.0.0".into(),
        ],
    }
}

fn snapshots() -> Vec<Result<PackageSnapshot, String>> {
    vec![
        Ok(package_snapshot(&vec![("package.yaml".into(), b"profile".to_vec())])),
        Ok(package_snapshot(&vec![("package.yaml".into(), b"board".to_vec()), ("board.yaml".into(), b"x".to_vec())])),
        Ok(package_snapshot(&vec![("package.yaml".into(), b"chip".to_vec())])),
    ]
}

#[test]
fn a_successful_resolution_locks_its_closure_resources_safety_and_build() {
    let lock = lock(&doc(), SOURCE, &registry(true), &resolved("mainboard.thermistor0"), &snapshots(), "0.1.0")
        .unwrap_or_else(|ds| panic!("{ds:#?}"));
    assert_eq!(lock.lock_version, 5);
    assert_eq!(lock.machine_hash, sha256(SOURCE.as_bytes()));
    assert_eq!(lock.resolver_version, "0.1.0");
    let ids: Vec<&str> = lock.packages.iter().map(|p| p.id.as_str()).collect();
    assert_eq!(
        ids,
        vec!["boards/example-mainboard@1.0.0", "chips/generic-mcu@1.0.0", "safety-profiles/desktop-fdm@1.0.0"]
    );
    assert_eq!(lock.packages[0].manifest_hash, sha256(b"board"));
    assert_eq!(lock.safety_profile.id, "safety-profiles/desktop-fdm@1.0.0");
    let (name, controller) = &lock.controllers[0];
    assert_eq!(name, "mainboard");
    assert_eq!(controller.board, "boards/example-mainboard");
    assert_eq!(
        controller.resolved_resources,
        vec![
            ("hotend_heater/output".to_string(), "heater0".to_string()),
            ("hotend_sensor/input".to_string(), "thermistor0".to_string()),
            ("y_driver/requires.connector".to_string(), "motor1".to_string()),
        ]
    );
    let states = &controller.safety.as_ref().unwrap().states;
    assert_eq!(states.len(), 1);
    assert_eq!(states[0].resource, "heater0");
    assert_eq!(states[0].sensor.as_deref(), Some("thermistor0"));
    assert_eq!(controller.build.as_ref().unwrap().flash_bytes, 524_288);
    assert!(lock.validate().is_ok());
}

#[test]
fn locking_needs_a_portable_registry_source() {
    let ds = lock(&doc(), SOURCE, &registry(false), &resolved("mainboard.thermistor0"), &snapshots(), "0.1.0")
        .unwrap_err();
    assert_eq!(ds.len(), 1);
    assert_eq!(ds[0].code, "E1406");
}

#[test]
fn a_package_gone_from_the_registry_cannot_be_locked() {
    let mut r = resolved("mainboard.thermistor0");
    r.packages[1] = "boards/example-mainboard@9.0.0".into();
    let ds = lock(&doc(), SOURCE, &registry(true), &r, &snapshots(), "0.1.0").unwrap_err();
    assert_eq!(ds[0].code, "E1402");
    assert_eq!(ds[0].message, "resolved package 'boards/example-mainboard@9.0.0' is no longer in the registry");
}

#[test]
fn an_unreadable_snapshot_or_manifest_is_e1400() {
    let mut s = snapshots();
    s[0] = Err("permission denied".into());
    let ds = lock(&doc(), SOURCE, &registry(true), &resolved("mainboard.thermistor0"), &s, "0.1.0").unwrap_err();
    assert_eq!(ds[0].message, "cannot snapshot package content for safety-profiles/desktop-fdm@1.0.0: permission denied");
    let mut s = snapshots();
    s[0] = Ok(package_snapshot(&vec![("README".into(), b"x".to_vec())]));
    let ds = lock(&doc(), SOURCE, &registry(true), &resolved("mainboard.thermistor0"), &s, "0.1.0").unwrap_err();
    assert_eq!(
        ds[0].message,
        "cannot hash manifest for safety-profiles/desktop-fdm@1.0.0: package snapshot contains no package.yaml"
    );
}

#[test]
fn a_safety_sensor_on_another_controller_is_e1403() {
    let ds = lock(&doc(), SOURCE, &registry(true), &resolved("toolhead.thermistor0"), &snapshots(), "0.1.0")
        .unwrap_err();
    assert_eq!(ds[0].code, "E1403");
    assert_eq!(ds[0].message, "safety sensor 'toolhead.thermistor0' is not local to controller 'mainboard'");
}

#[test]
fn the_safety_profile_must_be_in_the_closure() {
    let mut d = doc();
    d.safety.profile = "safety-profiles/other".into();
    let ds = lock(&d, SOURCE, &registry(true), &resolved("mainboard.thermistor0"), &snapshots(), "0.1.0").unwrap_err();
    assert_eq!(ds[0].code, "E1401");
}

#[test]
fn a_build_plan_for_an_unknown_controller_is_e1404() {
    let mut r = resolved("mainboard.thermistor0");
    r.controller_build_plans[0].0 = "toolhead".into();
    let ds = lock(&doc(), SOURCE, &registry(true), &r, &snapshots(), "0.1.0").unwrap_err();
    assert_eq!(ds[0].message, "resolved build plan names unknown controller 'toolhead'");
}

#[test]
fn a_generated_lock_that_breaks_its_contract_is_e1405() {
    let mut r = resolved("mainboard.thermistor0");
    r.controller_build_plans[0].1.ram_bytes = 0;
    let ds = lock(&doc(), SOURCE, &registry(true), &r, &snapshots(), "0.1.0").unwrap_err();
    assert_eq!(ds[0].code, "E1405");
    assert!(ds[0].message.starts_with("generated lockfile violates its v5 contract: "));
}
