use dryer::package::board::{BoardPackageFile, Connector};
use dryer::package::chip::{check_bus_quantities, Bus, BusReading, ChipPackageFile, Peripherals};
use dryer::package::device::TimingReading;
use dryer::package::safety::{ClassPolicy, SafeState, SafetyProfileFile};
use dryer::package::{PackageIdentity, PackageKind};
use dryer::resolver::allocation::{allocate, derive_pin_capabilities, BusVerdict, DeviceRequirement};
use dryer::resolver::artifacts::{plan_artifacts, ChipFirmwareTarget};
use dryer::resolver::electrical::{validate_electrical, CurrentReadings};
use dryer::resolver::model::ResolvedGraph;
use dryer::resolver::packages::PackageSelection;
use dryer::resolver::safety::{check_safety_coverage, partition, valid_package_ref_name};
use dryer::resolver::targets::ControllerTargets;
use dryer::resolver::Phase;
use dryer::schema::{
    AttributeValue, Component, Controller, Diagnostic, Kinematics, MachineDoc, Metadata, Safety, Severity, Transport,
};

fn identity(namespace: &str, name: &str, kind: PackageKind) -> PackageIdentity {
    PackageIdentity { namespace: namespace.into(), name: name.into(), version: semver::Version::new(1, 0, 0), kind }
}

fn connector(kind: &str, pins: &[(&str, &str)], pin: Option<&str>, domain: Option<&str>, max_current: Option<&str>) -> Connector {
    Connector {
        kind: kind.into(),
        pins: pins.iter().map(|(s, p)| (s.to_string(), p.to_string())).collect(),
        pin: pin.map(str::to_owned),
        voltage_domain: domain.map(str::to_owned),
        max_current: max_current.map(str::to_owned),
        supply: None,
        pullup: None,
    }
}

fn mainboard() -> BoardPackageFile {
    let motor = |step: &'static str| {
        connector("stepper_driver_socket", &[("dir", "PB1"), ("step", step)], None, Some("logic_3v3"), None)
    };
    BoardPackageFile {
        package: identity("boards", "example-mainboard", PackageKind::Board),
        chip: Some("chips/generic-mcu".into()),
        hardware: None,
        connectors: vec![
            ("heater0".into(), connector("power_output", &[], Some("PA1"), None, Some("5 A"))),
            ("motor0".into(), motor("PA8")),
            ("motor1".into(), motor("PA9")),
            ("motor2".into(), motor("PA10")),
            ("motor3".into(), motor("PA11")),
            ("thermistor0".into(), connector("analog_input", &[], Some("PC0"), None, None)),
        ],
        transports: vec![],
        downlinks: vec![],
        flash: None,
    }
}

fn chip() -> ChipPackageFile {
    ChipPackageFile {
        package: identity("chips", "generic-mcu", PackageKind::Chip),
        peripherals: Peripherals { timers: vec![], spi: vec![], i2c: vec![], uart: vec![], adc: vec![], dma: vec![] },
        pin_functions: vec![
            ("PA8".into(), vec!["tim1.ch2".into(), "gpio".into()]),
            ("PB1".into(), vec!["gpio".into()]),
        ],
    }
}

fn targets() -> ControllerTargets {
    ControllerTargets {
        boards: vec![("mainboard".into(), mainboard())],
        chips: vec![("mainboard".into(), chip())],
        chip_refs: vec![("mainboard".into(), "chips/generic-mcu@1.5.0".into())],
    }
}

fn component(kind: &str, attributes: &[(&str, &str)]) -> Component {
    let mut attributes: Vec<(String, AttributeValue)> =
        attributes.iter().map(|(k, v)| (k.to_string(), AttributeValue::Text(v.to_string()))).collect();
    attributes.sort_by(|a, b| a.0.cmp(&b.0));
    Component { kind: kind.into(), attributes }
}

fn fixture_components() -> Vec<(String, Component)> {
    vec![
        (
            "hotend_heater".into(),
            component("heater", &[("output", "mainboard.heater0"), ("sensor", "hotend_sensor"), ("current", "2 A")]),
        ),
        ("hotend_sensor".into(), component("thermistor", &[("input", "mainboard.thermistor0")])),
        ("x_driver".into(), component("tmc2209", &[("connected_to", "mainboard.motor0")])),
        ("x_motor".into(), component("stepper_motor", &[("driver", "x_driver")])),
        ("y_driver".into(), component("tmc2209", &[])),
    ]
}

fn doc(components: Vec<(String, Component)>) -> MachineDoc {
    MachineDoc {
        api_version: "dryer.machine/v0.1".into(),
        kind: "Machine".into(),
        metadata: Metadata { name: "bench".into(), description: None },
        packages: vec![],
        controllers: vec![(
            "mainboard".into(),
            Controller {
                board: "boards/example-mainboard".into(),
                transport: Transport { kind: "usb".into(), parent: None },
            },
        )],
        components,
        kinematics: Kinematics { kind: "cartesian".into(), limits: vec![] },
        safety: Safety { profile: "safety-profiles/desktop-fdm".into() },
        workflows: vec![],
        calibration: None,
    }
}

fn requirements() -> Vec<(String, DeviceRequirement)> {
    vec![(
        "tmc2209".into(),
        DeviceRequirement {
            reference: "devices/tmc2209@2.1.0".into(),
            connector: Some("stepper_driver_socket".into()),
            domains: vec!["logic_3v3".into()],
            bus: None,
            bus_min_frequency: None,
        },
    )]
}

fn selection() -> PackageSelection {
    PackageSelection {
        chosen: vec![("boards/example-mainboard".into(), semver::Version::new(1, 0, 0))],
        closure_refs: vec!["boards/example-mainboard@1.0.0".into()],
    }
}

fn profile() -> SafetyProfileFile {
    SafetyProfileFile {
        package: identity("safety-profiles", "desktop-fdm", PackageKind::SafetyProfile),
        classes: vec![
            (
                "heater".into(),
                ClassPolicy { safe_state: SafeState::Off, heartbeat_timeout: Some("500 ms".into()), requires_sensor: true },
            ),
            (
                "stepper_motor".into(),
                ClassPolicy { safe_state: SafeState::Disabled, heartbeat_timeout: None, requires_sensor: false },
            ),
        ],
    }
}

fn allocated(components: Vec<(String, Component)>, verdicts: &Vec<BusVerdict>) -> (Option<ResolvedGraph>, Vec<Diagnostic>) {
    let mut diags = Vec::new();
    let mut phases = Vec::new();
    let g = allocate(&doc(components), &targets(), &requirements(), verdicts, &selection(), &mut diags, &mut phases);
    assert_eq!(phases, vec![Phase::CapabilityMatching, Phase::ResourceAllocation]);
    (g, diags)
}

fn find<'a>(diags: &'a [Diagnostic], code: &str) -> &'a Diagnostic {
    diags.iter().find(|d| d.code == code).unwrap_or_else(|| panic!("no {code} in {diags:#?}"))
}

fn assignments<'a>(g: &'a ResolvedGraph, name: &str) -> &'a Vec<dryer::resolver::model::Assignment> {
    &g.assignments.iter().find(|(n, _)| n == name).unwrap().1
}

#[test]
fn an_unclaimed_device_is_search_allocated_with_full_candidates() {
    let (g, diags) = allocated(fixture_components(), &vec![]);
    assert!(diags.is_empty(), "{diags:#?}");
    let g = g.unwrap();
    let y = &assignments(&g, "y_driver")[0];
    assert_eq!(y.resource.0, "mainboard.motor1", "motor0 is already claimed");
    assert_eq!(
        y.candidates_considered,
        vec!["mainboard.motor0", "mainboard.motor1", "mainboard.motor2", "mainboard.motor3"]
    );
    assert!(y.via.contains("devices/tmc2209"));
    assert_eq!(g.packages, vec!["boards/example-mainboard@1.0.0".to_string()]);
}

#[test]
fn search_allocation_records_the_voltage_domain_constraint() {
    let (g, _) = allocated(fixture_components(), &vec![]);
    let g = g.unwrap();
    let y = &assignments(&g, "y_driver")[0];
    assert_eq!(
        y.constraints_applied,
        vec![
            "connector kind == stepper_driver_socket",
            "first free candidate in stable connector order",
            "exclusive ownership",
            "voltage domain in [logic_3v3]",
        ]
    );
}

#[test]
fn explicit_claims_record_their_constraints_and_one_candidate() {
    let (g, _) = allocated(fixture_components(), &vec![]);
    let g = g.unwrap();
    let x = &assignments(&g, "x_driver")[0];
    assert_eq!(x.resource.0, "mainboard.motor0");
    assert_eq!(x.via, "connected_to");
    assert_eq!(x.candidates_considered, vec!["mainboard.motor0"]);
    assert_eq!(
        x.constraints_applied,
        vec!["explicit claim of 'mainboard.motor0'", "connector kind == stepper_driver_socket", "exclusive ownership"]
    );
    let names: Vec<&str> = g.assignments.iter().map(|(n, _)| n.as_str()).collect();
    assert_eq!(names, vec!["hotend_heater", "hotend_sensor", "x_driver", "y_driver"]);
}

#[test]
fn assignments_carry_derived_pin_capabilities() {
    let (g, _) = allocated(fixture_components(), &vec![]);
    let g = g.unwrap();
    let x = &assignments(&g, "x_driver")[0];
    assert_eq!(
        x.pin_capabilities,
        vec![
            ("dir".to_string(), vec!["gpio".to_string()]),
            ("step".to_string(), vec!["tim1.ch2".to_string(), "gpio".to_string()]),
        ]
    );
}

#[test]
fn no_chip_table_means_no_capabilities() {
    let c = connector("power_output", &[], Some("PA1"), None, None);
    assert!(derive_pin_capabilities(None, &c).is_empty());
    let caps = derive_pin_capabilities(Some(&chip()), &connector("x", &[], Some("PB1"), None, None));
    assert_eq!(caps, vec![("pin".to_string(), vec!["gpio".to_string()])]);
}

#[test]
fn a_double_claim_is_a_conflict_with_actionable_suggestions() {
    let mut components = fixture_components();
    components.push(("z_driver".into(), component("tmc2209", &[("connected_to", "mainboard.motor0")])));
    let (g, diags) = allocated(components, &vec![]);
    assert!(g.is_none());
    let conflict = find(&diags, "E1200");
    assert_eq!(conflict.message, "connector conflict: 'mainboard.motor0' is claimed by both 'x_driver' and 'z_driver'");
    assert_eq!(
        conflict.suggestions,
        vec!["move 'z_driver' to one of: mainboard.motor1, mainboard.motor2, mainboard.motor3"]
    );
    assert_eq!(conflict.path.as_deref(), Some("components.z_driver.connected_to"));
}

#[test]
fn wrong_connector_kind_is_rejected() {
    let mut components = fixture_components();
    components[0].1 = component("heater", &[("output", "mainboard.thermistor0")]);
    let (g, diags) = allocated(components, &vec![]);
    assert!(g.is_none());
    assert_eq!(
        find(&diags, "E1202").message,
        "component 'hotend_heater': 'mainboard.thermistor0' is a analog_input connector, but 'output' requires power_output"
    );
}

#[test]
fn unknown_connector_lists_available_ones() {
    let mut components = fixture_components();
    components[2].1 = component("tmc2209", &[("connected_to", "mainboard.motor9")]);
    let (_, diags) = allocated(components, &vec![]);
    let d = find(&diags, "E1201");
    assert_eq!(d.message, "component 'x_driver': controller 'mainboard' has no connector 'motor9'");
    assert!(d.suggestions[0].contains("motor0"));
    assert_eq!(
        d.suggestions[0],
        "available connectors: [\"heater0\", \"motor0\", \"motor1\", \"motor2\", \"motor3\", \"thermistor0\"]"
    );
}

#[test]
fn malformed_and_unknown_claim_targets_are_e1206() {
    let mut components = fixture_components();
    components[2].1 = component("tmc2209", &[("connected_to", "motor0")]);
    components[1].1 = component("thermistor", &[("input", "sideboard.thermistor0")]);
    let (_, diags) = allocated(components, &vec![]);
    let messages: Vec<&str> = diags.iter().filter(|d| d.code == "E1206").map(|d| d.message.as_str()).collect();
    assert_eq!(
        messages,
        vec![
            "component 'hotend_sensor': unknown controller 'sideboard' in 'sideboard.thermistor0'",
            "component 'x_driver': 'motor0' must name a controller port as 'controller.port'",
        ]
    );
}

#[test]
fn exhausting_the_sockets_is_a_typed_error() {
    let mut components = fixture_components();
    for name in ["z_driver", "e_driver", "w_driver"] {
        components.push((name.into(), component("tmc2209", &[])));
    }
    components.sort_by(|a, b| a.0.cmp(&b.0));
    let (g, diags) = allocated(components, &vec![]);
    assert!(g.is_none());
    let d = find(&diags, "E1205");
    assert!(d.message.contains("no free stepper_driver_socket"));
    assert_eq!(
        d.message,
        "component 'z_driver': no free stepper_driver_socket connector on 'mainboard' (considered: mainboard.motor0, mainboard.motor1, mainboard.motor2, mainboard.motor3)"
    );
}

#[test]
fn search_without_a_controller_choice_is_e1203_and_an_unknown_one_e1204() {
    let mut d = doc(vec![("y_driver".into(), component("tmc2209", &[]))]);
    d.controllers.push(d.controllers[0].clone());
    d.controllers[1].0 = "toolhead".into();
    let mut diags = Vec::new();
    let mut phases = Vec::new();
    let g = allocate(&d, &targets(), &requirements(), &vec![], &selection(), &mut diags, &mut phases);
    assert!(g.is_none());
    assert_eq!(
        find(&diags, "E1203").message,
        "component 'y_driver' needs a stepper_driver_socket but the machine has 2 controllers \u{2014} add 'controller: <name>' to disambiguate"
    );
    let (_, diags) = allocated(vec![("y_driver".into(), component("tmc2209", &[("controller", "ghost")]))], &vec![]);
    let e = find(&diags, "E1204");
    assert_eq!(e.message, "component 'y_driver': unknown controller 'ghost'");
    assert_eq!(e.path.as_deref(), Some("components.y_driver.controller"));
}

fn imu_requirements() -> Vec<(String, DeviceRequirement)> {
    let mut reqs = requirements();
    reqs.push((
        "adxl345".into(),
        DeviceRequirement {
            reference: "devices/adxl345@1.0.0".into(),
            connector: Some("stepper_driver_socket".into()),
            domains: vec![],
            bus: Some("spi".into()),
            bus_min_frequency: Some("5 MHz".into()),
        },
    ));
    reqs.sort_by(|a, b| a.0.cmp(&b.0));
    reqs
}

fn verdict(target: &str, verdict: Result<Vec<String>, String>) -> BusVerdict {
    BusVerdict { kind: "adxl345".into(), target: target.into(), verdict }
}

#[test]
fn a_bus_requirement_steers_search_to_a_capable_socket() {
    let components = vec![("imu".to_string(), component("adxl345", &[]))];
    let verdicts = vec![
        verdict("mainboard.motor0", Err("no spi function on any connector pin".into())),
        verdict("mainboard.motor1", Ok(vec!["spi bus via spi1".into()])),
    ];
    let mut diags = Vec::new();
    let mut phases = Vec::new();
    let g = allocate(&doc(components), &targets(), &imu_requirements(), &verdicts, &selection(), &mut diags, &mut phases)
        .unwrap();
    let imu = &assignments(&g, "imu")[0];
    assert_eq!(imu.resource.0, "mainboard.motor1");
    assert!(imu.constraints_applied.iter().any(|c| c.contains("spi bus via spi1")));
}

#[test]
fn an_explicit_claim_without_the_required_bus_is_rejected() {
    let components = vec![("imu".to_string(), component("adxl345", &[("connected_to", "mainboard.motor0")]))];
    let verdicts = vec![verdict("mainboard.motor0", Err("no spi function on any connector pin".into()))];
    let mut diags = Vec::new();
    let mut phases = Vec::new();
    let g = allocate(&doc(components), &targets(), &imu_requirements(), &verdicts, &selection(), &mut diags, &mut phases);
    assert!(g.is_none());
    let d = find(&diags, "E1315");
    assert!(d.message.contains("no spi function"), "{}", d.message);
    assert_eq!(
        d.message,
        "component 'imu': device requires a spi bus on 'mainboard.motor0' \u{2014} no spi function on any connector pin"
    );
}

#[test]
fn allocation_never_claims_a_connector_twice() {
    let mut components = fixture_components();
    components.push(("z_driver".into(), component("tmc2209", &[])));
    let (g, _) = allocated(components, &vec![]);
    let g = g.unwrap();
    let mut resources: Vec<&str> =
        g.assignments.iter().flat_map(|(_, l)| l.iter().map(|a| a.resource.0.as_str())).collect();
    let n = resources.len();
    resources.sort();
    resources.dedup();
    assert_eq!(resources.len(), n);
}

fn allocated_graph() -> ResolvedGraph {
    allocated(fixture_components(), &vec![]).0.unwrap()
}

#[test]
fn safe_states_are_partitioned_to_concrete_controller_resources() {
    let mut graph = allocated_graph();
    let mut diags = Vec::new();
    partition(&doc(fixture_components()), &mut graph, Some(&profile()), &vec![Some(500_000), None], &mut diags);
    assert!(diags.is_empty(), "{diags:#?}");
    assert_eq!(graph.controller_safety.len(), 1);
    let (controller, safety) = &graph.controller_safety[0];
    assert_eq!(controller, "mainboard");
    assert_eq!(safety.len(), 2, "{safety:#?}");
    let heater = &safety[0];
    assert_eq!(heater.component, "hotend_heater");
    assert_eq!(heater.resource.0, "mainboard.heater0");
    assert_eq!(heater.state, SafeState::Off);
    assert_eq!(heater.heartbeat_timeout_us, Some(500_000));
    assert_eq!(heater.sensor.as_ref().map(|r| r.0.as_str()), Some("mainboard.thermistor0"));
    let motor = &safety[1];
    assert_eq!(motor.component, "x_motor");
    assert_eq!(motor.resource.0, "mainboard.motor0");
    assert_eq!(motor.state, SafeState::Disabled);
    assert_eq!(motor.sensor, None);
    assert!(graph.explain("x_motor").unwrap().contains("safe_state--> mainboard.motor0 = disabled"));
}

#[test]
fn one_physical_resource_cannot_receive_two_safety_actions() {
    let mut graph = allocated_graph();
    let mut classes = profile().classes;
    classes.push((
        "tmc2209".into(),
        ClassPolicy { safe_state: SafeState::Disabled, heartbeat_timeout: None, requires_sensor: false },
    ));
    let p = SafetyProfileFile { classes, ..profile() };
    let mut diags = Vec::new();
    partition(&doc(fixture_components()), &mut graph, Some(&p), &vec![Some(500_000), None, None], &mut diags);
    let d = find(&diags, "E1508");
    assert!(d.message.contains("x_motor") && d.message.contains("x_driver") && d.message.contains("mainboard.motor0"));
    assert_eq!(
        d.message,
        "components 'x_driver' and 'x_motor' both define safety actions for physical resource 'mainboard.motor0'"
    );
    assert_eq!(d.path.as_deref(), Some("components.x_motor"));
    let resources: Vec<&str> = graph.controller_safety[0].1.iter().map(|b| b.resource.0.as_str()).collect();
    assert_eq!(resources, vec!["mainboard.heater0", "mainboard.motor0", "mainboard.motor1"]);
}

#[test]
fn without_a_profile_partitioning_changes_nothing() {
    let mut graph = allocated_graph();
    let before = graph.clone();
    let mut diags = Vec::new();
    partition(&doc(fixture_components()), &mut graph, None, &vec![], &mut diags);
    assert!(diags.is_empty());
    assert_eq!(graph.controller_safety, before.controller_safety);
}

fn coverage(components: Vec<(String, Component)>, graph: &ResolvedGraph, p: SafetyProfileFile) -> Vec<Diagnostic> {
    let mut diags = Vec::new();
    let out = check_safety_coverage(&doc(components), graph, Ok(p), &mut diags);
    assert!(out.is_some());
    diags
}

#[test]
fn the_fixture_is_covered_by_its_safety_profile() {
    assert!(coverage(fixture_components(), &allocated_graph(), profile()).is_empty());
}

#[test]
fn payload_errors_are_passed_on() {
    let mut diags = Vec::new();
    let err = Diagnostic {
        code: "E0630".into(),
        severity: Severity::Error,
        message: "bad payload".into(),
        path: None,
        line: None,
        column: None,
        suggestions: vec![],
    };
    let out = check_safety_coverage(&doc(vec![]), &allocated_graph(), Err(vec![err]), &mut diags);
    assert!(out.is_none());
    assert_eq!(diags.len(), 1);
    assert_eq!(diags[0].code, "E0630");
}

#[test]
fn an_uncovered_hazardous_output_is_rejected() {
    let mut components = fixture_components();
    components[0].1.kind = "laser".into();
    let (g, _) = allocated(components.clone(), &vec![]);
    let diags = coverage(components, &g.unwrap(), profile());
    let d = find(&diags, "E1501");
    assert!(d.message.contains("laser"));
    assert_eq!(
        d.message,
        "component 'hotend_heater' drives a power output but class 'laser' has no policy in 'safety-profiles/desktop-fdm'"
    );
    assert_eq!(d.suggestions, vec!["add a 'laser' class to the safety profile or use a covered class"]);
}

#[test]
fn a_driver_backed_actuator_requires_profile_coverage() {
    let p = SafetyProfileFile { classes: vec![profile().classes[0].clone()], ..profile() };
    let diags = coverage(fixture_components(), &allocated_graph(), p);
    let d = find(&diags, "E1501");
    assert!(d.message.contains("x_motor") && d.message.contains("stepper_motor"), "{}", d.message);
    assert!(d.message.contains("delegates an actuator output to a driver"));
}

#[test]
fn an_actuator_driver_must_resolve_to_a_driver_socket() {
    let mut components = fixture_components();
    components[3].1 = component("stepper_motor", &[("driver", "hotend_sensor")]);
    let diags = coverage(components, &allocated_graph(), profile());
    let d = find(&diags, "E1506");
    assert!(d.message.contains("thermistor0") && d.message.contains("analog_input"), "{}", d.message);
    assert_eq!(d.path.as_deref(), Some("components.x_motor.driver"));
}

#[test]
fn a_safe_actuator_without_a_controller_resource_is_rejected() {
    let mut components = fixture_components();
    components[3].1 = component("stepper_motor", &[]);
    let diags = coverage(components, &allocated_graph(), profile());
    assert!(find(&diags, "E1505").message.contains("x_motor"));
}

#[test]
fn a_sensorless_heater_violates_the_profile() {
    let mut components = fixture_components();
    components[0].1 = component("heater", &[("output", "mainboard.heater0")]);
    let diags = coverage(components, &allocated_graph(), profile());
    let d = find(&diags, "E1502");
    assert!(d.message.contains("hotend_heater"));
    assert_eq!(d.suggestions, vec!["add 'sensor: <component>' referencing a sensor component"]);
}

#[test]
fn an_unresolved_required_sensor_cannot_enter_controller_firmware() {
    let mut components = fixture_components();
    components[1].1 = component("thermistor", &[]);
    let (g, _) = allocated(components.clone(), &vec![]);
    let diags = coverage(components, &g.unwrap(), profile());
    assert!(find(&diags, "E1503").message.contains("hotend_sensor"));
}

#[test]
fn a_required_sensor_must_resolve_to_an_input_connector() {
    let mut components = fixture_components();
    components[0].1 =
        component("heater", &[("output", "mainboard.heater0"), ("sensor", "x_driver"), ("current", "2 A")]);
    let diags = coverage(components, &allocated_graph(), profile());
    assert!(find(&diags, "E1507").message.contains("x_driver"));
}

#[test]
fn a_required_sensor_on_another_controller_is_e1504() {
    let mut graph = allocated_graph();
    for (name, list) in graph.assignments.iter_mut() {
        if name == "hotend_sensor" {
            list[0].resource.0 = "toolhead.thermistor0".into();
        }
    }
    let diags = coverage(fixture_components(), &graph, profile());
    assert_eq!(
        find(&diags, "E1504").message,
        "component 'hotend_heater' and required sensor 'hotend_sensor' must resolve on the same controller as 'mainboard.heater0'"
    );
}

#[test]
fn invalid_safety_profile_name_syntax_emits_e1500() {
    assert!(!valid_package_ref_name("invalid_profile_without_slash"));
    assert!(valid_package_ref_name("safety-profiles/desktop-fdm"));
}

#[test]
fn unpinned_safety_profile_name_with_invalid_chars_emits_e1500() {
    assert!(!valid_package_ref_name("bad space/desktop-fdm"));
}

fn firmware_target() -> ChipFirmwareTarget {
    ChipFirmwareTarget {
        flash_bytes: Some(524_288),
        ram_bytes: Some(131_072),
        bootloader_offset_bytes: 16_384,
        target_triple: "thumbv7em-none-eabihf".into(),
        toolchain: "rustc-1.85.0".into(),
        build_profile: "release".into(),
        protocol_version: "dryer.control/v1".into(),
        abi_version: "dryer.controller/v1".into(),
        features: vec!["usb_transport".into(), "pwm".into(), "adc".into(), "step_scheduler".into(), "pwm".into()],
    }
}

fn planned(target: Option<Option<ChipFirmwareTarget>>, sel: PackageSelection) -> (ResolvedGraph, Vec<Diagnostic>) {
    let mut graph = allocated_graph();
    let mut diags = Vec::new();
    let chip_targets: Vec<(String, Option<ChipFirmwareTarget>)> = match target {
        Some(t) => vec![("mainboard".into(), t)],
        None => vec![],
    };
    plan_artifacts(&doc(fixture_components()), &mut graph, &requirements(), &sel, &chip_targets, &targets().chip_refs, &mut diags);
    (graph, diags)
}

#[test]
fn controller_build_inputs_are_planned_from_exact_target_packages() {
    let (graph, diags) = planned(Some(Some(firmware_target())), selection());
    assert!(diags.is_empty(), "{diags:#?}");
    let plan = &graph.controller_build_plans[0].1;
    assert_eq!(graph.controller_build_plans[0].0, "mainboard");
    assert_eq!(plan.board, "boards/example-mainboard@1.0.0");
    assert_eq!(plan.chip, "chips/generic-mcu@1.5.0");
    assert_eq!(plan.target_triple, "thumbv7em-none-eabihf");
    assert_eq!(plan.flash_bytes, 524_288);
    assert_eq!(plan.ram_bytes, 131_072);
    assert_eq!(plan.bootloader_offset_bytes, 16_384);
    assert_eq!(plan.features, ["adc", "pwm", "step_scheduler", "usb_transport"]);
    assert_eq!(plan.native_drivers, ["devices/tmc2209@2.1.0"]);
}

#[test]
fn artifact_planning_rejects_a_chip_without_firmware_target_metadata() {
    let (graph, diags) = planned(Some(None), selection());
    assert!(graph.controller_build_plans.is_empty());
    assert!(find(&diags, "E1600").message.contains("memory, boot, or firmware"));
    let (_, diags) = planned(None, selection());
    assert_eq!(
        find(&diags, "E1600").message,
        "controller 'mainboard' has no resolved chip for firmware artifact planning"
    );
}

#[test]
fn artifact_planning_needs_whole_bytes_and_an_exact_board_version() {
    let mut t = firmware_target();
    t.ram_bytes = None;
    let (_, diags) = planned(Some(Some(t)), selection());
    assert_eq!(find(&diags, "E1601").message, "controller 'mainboard' chip memory cannot compile to whole bytes");
    let (_, diags) = planned(Some(Some(firmware_target())), PackageSelection { chosen: vec![], closure_refs: vec![] });
    assert_eq!(
        find(&diags, "E1602").message,
        "controller 'mainboard' board 'boards/example-mainboard' has no exact selected version"
    );
}

fn electrical(graph: &ResolvedGraph, components: Vec<(String, Component)>, readings: CurrentReadings) -> Vec<Diagnostic> {
    let mut diags = Vec::new();
    validate_electrical(&doc(components), graph, &targets().boards, &requirements(), &vec![], &readings, &mut diags);
    diags
}

#[test]
fn electrical_validation_compares_draw_against_connector_limit() {
    let mut components = fixture_components();
    components[0].1 =
        component("heater", &[("output", "mainboard.heater0"), ("sensor", "hotend_sensor"), ("current", "6 A")]);
    let readings = CurrentReadings {
        unreadable: vec![],
        over_limit: vec![("hotend_heater".into(), "mainboard.heater0".into())],
    };
    let diags = electrical(&allocated_graph(), components, readings);
    let d = find(&diags, "E1300");
    assert!(d.message.contains("6 A") && d.message.contains("5 A"));
    assert_eq!(d.message, "component 'hotend_heater' draws 6 A but 'mainboard.heater0' allows at most 5 A");
    let fine = CurrentReadings { unreadable: vec![], over_limit: vec![] };
    assert!(electrical(&allocated_graph(), fixture_components(), fine).is_empty());
}

#[test]
fn a_malformed_current_declaration_is_its_own_error() {
    let readings = CurrentReadings {
        unreadable: vec![("hotend_heater".into(), "'quite a lot' is not a current".into())],
        over_limit: vec![],
    };
    let diags = electrical(&allocated_graph(), fixture_components(), readings);
    assert_eq!(find(&diags, "E1301").message, "component 'hotend_heater' current: 'quite a lot' is not a current");
}

#[test]
fn a_voltage_domain_requirement_rejects_an_undeclared_connector() {
    let mut graph = allocated_graph();
    for (name, list) in graph.assignments.iter_mut() {
        if name == "y_driver" {
            list[0].resource.0 = "mainboard.thermistor0".into();
        }
    }
    let readings = CurrentReadings { unreadable: vec![], over_limit: vec![] };
    let diags = electrical(&graph, fixture_components(), readings);
    let d = find(&diags, "E1302");
    assert_eq!(
        d.message,
        "component 'y_driver': device 'devices/tmc2209@2.1.0' requires voltage domain [logic_3v3] but 'mainboard.thermistor0' declares none"
    );
}

#[test]
fn bus_quantities_that_do_not_read_are_reported() {
    let mut c = chip();
    c.peripherals.spi.push(Bus {
        id: "spi1".into(),
        max_frequency: Some("fast".into()),
        worst_case_latency: Some("-1 us".into()),
        worst_case_jitter: Some("x".into()),
    });
    let readings = vec![BusReading {
        frequency_problem: Some("'fast' has no unit".into()),
        latency: TimingReading::Negative,
        jitter: TimingReading::Unreadable("'x' has no unit".into()),
    }];
    let mut diags = Vec::new();
    check_bus_quantities("chips/generic-mcu@1.5.0", &c, &readings, &mut diags);
    let found: Vec<(&str, &str)> = diags.iter().map(|d| (d.code.as_str(), d.message.as_str())).collect();
    assert_eq!(
        found,
        vec![
            ("E0654", "chips/generic-mcu@1.5.0: bus 'spi1' max_frequency: 'fast' has no unit"),
            ("E0655", "chips/generic-mcu@1.5.0: bus 'spi1' worst_case_latency must be non-negative"),
            ("E0656", "chips/generic-mcu@1.5.0: bus 'spi1' worst_case_jitter: 'x' has no unit"),
        ]
    );
}

#[test]
fn diagnostics_are_located_at_their_nearest_recorded_path() {
    let spans = dryer::spans::SpanIndex::build("components:\n  fan:\n    kind: fan\n");
    let mut diags = vec![
        Diagnostic::error("E1300", "too much current").at("components.fan.current"),
        Diagnostic::error("E1500", "no profile").at("safety.profile"),
        Diagnostic::error("E0101", "unlocated"),
    ];
    let mut already = Diagnostic::error("E0201", "kept").at("components.fan");
    already.line = Some(9);
    already.column = Some(4);
    diags.push(already);
    dryer::resolver::stages::locate_diagnostics(&mut diags, &spans);
    assert_eq!((diags[0].line, diags[0].column), (Some(2), Some(3)));
    assert_eq!(diags[0].path.as_deref(), Some("components.fan.current"));
    assert_eq!((diags[1].line, diags[1].column), (None, None));
    assert_eq!((diags[2].line, diags[2].column), (None, None));
    assert_eq!((diags[3].line, diags[3].column), (Some(9), Some(4)));
}

fn timed_targets() -> ControllerTargets {
    let motor = |step: &'static str| {
        connector("stepper_driver_socket", &[("dir", "PB1"), ("step", step)], None, Some("logic_3v3"), None)
    };
    let board = BoardPackageFile {
        connectors: vec![
            ("heater0".into(), connector("power_output", &[], Some("PA1"), None, Some("5 A"))),
            ("motor0".into(), motor("PA8")),
            ("motor1".into(), motor("PD5")),
            ("motor2".into(), motor("PE9")),
            ("motor3".into(), motor("PD7")),
            ("thermistor0".into(), connector("analog_input", &[], Some("PC0"), None, None)),
        ],
        ..mainboard()
    };
    let chip = ChipPackageFile {
        pin_functions: vec![
            ("PA8".into(), vec!["tim1.ch2".into(), "gpio".into()]),
            ("PB1".into(), vec!["gpio".into()]),
            ("PD5".into(), vec!["gpio".into(), "tim3.ch3".into()]),
            ("PD7".into(), vec!["gpio".into()]),
            ("PE9".into(), vec!["tim1.ch2".into()]),
        ],
        ..chip()
    };
    ControllerTargets {
        boards: vec![("mainboard".into(), board)],
        chips: vec![("mainboard".into(), chip)],
        chip_refs: vec![("mainboard".into(), "chips/generic-mcu@1.5.0".into())],
    }
}

fn with_rate(components: Vec<(String, Component)>) -> MachineDoc {
    let mut d = doc(components);
    d.kinematics.limits = vec![("max_step_rate".into(), "100 kHz".into())];
    d
}

fn timed(d: &MachineDoc) -> (Option<ResolvedGraph>, Vec<Diagnostic>) {
    let mut diags = Vec::new();
    let mut phases = Vec::new();
    let g = allocate(d, &timed_targets(), &requirements(), &vec![], &selection(), &mut diags, &mut phases);
    (g, diags)
}

#[test]
fn a_step_rate_budget_steers_search_to_timer_backed_sockets() {
    let (g, diags) = timed(&with_rate(fixture_components()));
    assert!(diags.is_empty(), "{diags:#?}");
    let g = g.unwrap();
    let y = &assignments(&g, "y_driver")[0];
    assert_eq!(y.resource.0, "mainboard.motor1", "motor1's PD5 carries tim3.ch3; motor2 shares x's tim1.ch2");
    assert!(y.constraints_applied.iter().any(|c| c.contains("tim3.ch3")));
    let x = &assignments(&g, "x_driver")[0];
    assert!(x.constraints_applied.contains(&"step pin on free timer channel tim1.ch2 (max_step_rate)".to_string()));
}

#[test]
fn a_declared_step_rate_rejects_gpio_only_step_pins() {
    let mut components = fixture_components();
    components.push(("z_driver".into(), component("tmc2209", &[("connected_to", "mainboard.motor3")])));
    let (g, diags) = timed(&with_rate(components));
    assert!(g.is_none());
    let d = find(&diags, "E1310");
    assert!(d.message.contains("PD7"), "{}", d.message);
    assert_eq!(
        d.message,
        "component 'z_driver': max_step_rate is declared, but 'mainboard.motor3' step pin PD7 has no timer function (capabilities: gpio)"
    );
    assert_eq!(d.path.as_deref(), Some("components.z_driver.connected_to"));
}

#[test]
fn a_shared_timer_channel_is_a_conflict_naming_both_components() {
    let mut components = fixture_components();
    components.push(("z_driver".into(), component("tmc2209", &[("connected_to", "mainboard.motor2")])));
    let (g, diags) = timed(&with_rate(components));
    assert!(g.is_none());
    let d = find(&diags, "E1314");
    assert!(d.message.contains("x_driver") && d.message.contains("tim1.ch2"), "{}", d.message);
    assert_eq!(
        d.message,
        "timer conflict: 'z_driver' (pin PE9) and 'x_driver' (pin PA8) both need tim1.ch2 on 'mainboard'"
    );
    assert_eq!(d.path.as_deref(), Some("components.z_driver.connected_to"));
}

#[test]
fn template_claim_conflicts_retain_package_source_ranges() {
    let mut components = fixture_components();
    components.insert(0, ("a_template_driver".into(), component("tmc2209", &[("connected_to", "mainboard.motor0")])));
    components.insert(1, ("b_template_driver".into(), component("tmc2209", &[("connected_to", "mainboard.motor2")])));
    let (g, diags) = timed(&with_rate(components));
    assert!(g.is_none());
    let connector = find(&diags, "E1200");
    assert_eq!(connector.path.as_deref(), Some("components.x_driver.connected_to"));
    let timer = find(&diags, "E1314");
    assert_eq!(timer.path.as_deref(), Some("components.b_template_driver.connected_to"));
    assert!(timer.message.contains("'a_template_driver'"), "{}", timer.message);
}

#[test]
fn search_skips_sockets_whose_step_channel_is_taken() {
    let mut components = fixture_components();
    components.push(("w_driver".into(), component("tmc2209", &[])));
    let (g, diags) = timed(&with_rate(components));
    assert!(g.is_none());
    let d = find(&diags, "E1205");
    assert_eq!(
        d.message,
        "component 'w_driver': no free stepper_driver_socket connector on 'mainboard' (considered: mainboard.motor0, mainboard.motor1, mainboard.motor2, mainboard.motor3)"
    );
    let (g, diags) = timed(&doc(vec![
        ("w_driver".into(), component("tmc2209", &[])),
        ("x_driver".into(), component("tmc2209", &[("connected_to", "mainboard.motor0")])),
    ]));
    assert!(diags.is_empty(), "{diags:#?}");
    assert_eq!(assignments(g.as_ref().unwrap(), "w_driver")[0].resource.0, "mainboard.motor1");
}
