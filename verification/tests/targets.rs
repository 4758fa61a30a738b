use dryer::package::board::{BoardPackageFile, Connector, Downlink, Transport as BoardTransport};
use dryer::package::chip::{ChipPackageFile, Peripherals};
use dryer::package::{PackageIdentity, PackageKind, PackageRef};
use dryer::resolver::targets::{load, BoardSelection, SelectedChip};
use dryer::schema::{Controller, Diagnostic, Severity, Transport};

fn identity(namespace: &str, name: &str, kind: PackageKind) -> PackageIdentity {
    PackageIdentity {
        namespace: namespace.into(),
        name: name.into(),
        version: semver::Version::new(1, 0, 0),
        kind,
    }
}

fn connector(kind: &str, pins: &[(&str, &str)], pin: Option<&str>) -> Connector {
    Connector {
        kind: kind.into(),
        pins: pins.iter().map(|(s, p)| (s.to_string(), p.to_string())).collect(),
        pin: pin.map(str::to_owned),
        voltage_domain: None,
        max_current: None,
        supply: None,
        pullup: None,
    }
}

fn board(chip: Option<&str>, transports: &[&str], downlinks: &[(&str, &str)]) -> BoardPackageFile {
    BoardPackageFile {
        package: identity("boards", "example", PackageKind::Board),
        chip: chip.map(str::to_owned),
        hardware: None,
        connectors: vec![
            ("heater0".into(), connector("power_output", &[], Some("PA1"))),
            ("motor0".into(), connector("stepper_driver_socket", &[("dir", "PB1"), ("step", "PB2")], None)),
        ],
        transports: transports
            .iter()
            .map(|t| (t.to_string(), BoardTransport { peripheral: None }))
            .collect(),
        downlinks: downlinks
            .iter()
            .map(|(id, kind)| (id.to_string(), Downlink { kind: kind.to_string() }))
            .collect(),
        flash: None,
    }
}

fn chip(pins: &[&str]) -> ChipPackageFile {
    ChipPackageFile {
        package: identity("chips", "generic-mcu", PackageKind::Chip),
        peripherals: Peripherals { timers: vec![], spi: vec![], i2c: vec![], uart: vec![], adc: vec![], dma: vec![] },
        pin_functions: pins.iter().map(|p| (p.to_string(), vec!["gpio".to_string()])).collect(),
    }
}

fn selected_chip(in_closure: bool, pins: &[&str]) -> Option<SelectedChip> {
    Some(SelectedChip {
        reference: PackageRef {
            namespace: "chips".into(),
            name: "generic-mcu".into(),
            version: semver::Version::new(1, 5, 0),
        },
        in_closure,
        payload: Ok(chip(pins)),
    })
}

fn controller(board: &str, transport: &str, parent: Option<&str>) -> Controller {
    Controller {
        board: board.into(),
        transport: Transport { kind: transport.into(), parent: parent.map(str::to_owned) },
    }
}

fn codes(diags: &[Diagnostic]) -> Vec<&str> {
    diags.iter().map(|d| d.code.as_str()).collect()
}

#[test]
fn a_board_and_its_declared_chip_load_cleanly() {
    let controllers = vec![("mainboard".to_string(), controller("boards/example", "usb", None))];
    let selections = vec![BoardSelection::Found {
        payload: Ok(board(Some("chips/generic-mcu"), &["usb"], &[])),
        chip: selected_chip(true, &["PA1", "PB1", "PB2"]),
    }];
    let mut diags = Vec::new();
    let targets = load(&controllers, selections, &mut diags);
    assert!(diags.is_empty(), "{:?}", codes(&diags));
    assert_eq!(targets.boards.len(), 1);
    assert_eq!(targets.boards[0].0, "mainboard");
    assert_eq!(targets.chips.len(), 1);
    assert_eq!(targets.chip_refs, vec![("mainboard".to_string(), "chips/generic-mcu@1.5.0".to_string())]);
}

#[test]
fn board_references_need_a_namespace_and_a_package() {
    let controllers = vec![
        ("a".to_string(), controller("example", "usb", None)),
        ("b".to_string(), controller("boards/missing", "usb", None)),
    ];
    let selections = vec![BoardSelection::Missing, BoardSelection::Missing];
    let mut diags = Vec::new();
    let targets = load(&controllers, selections, &mut diags);
    assert_eq!(codes(&diags), ["E1110", "E1111"]);
    assert_eq!(diags[0].message, "controller 'a': board 'example' must be 'namespace/name'");
    assert_eq!(diags[0].path.as_deref(), Some("controllers.a.board"));
    assert_eq!(
        diags[1].message,
        "controller 'b': board package 'boards/missing' is not in the registry"
    );
    assert!(targets.boards.is_empty());
}

#[test]
fn payload_errors_pass_through_and_drop_the_board() {
    let controllers = vec![("mainboard".to_string(), controller("boards/example", "usb", None))];
    let error = Diagnostic::error("E0601", "boards/example@1.0.0: no connectors");
    let selections = vec![BoardSelection::Found { payload: Err(vec![error.clone()]), chip: None }];
    let mut diags = vec![Diagnostic::warning("W1", "earlier")];
    let targets = load(&controllers, selections, &mut diags);
    assert_eq!(codes(&diags), ["W1", "E0601"]);
    assert_eq!(diags[1], error);
    assert!(targets.boards.is_empty());
}

#[test]
fn transports_chips_and_wiring_are_checked() {
    let controllers = vec![("mainboard".to_string(), controller("boards/example", "can", None))];
    let selections = vec![BoardSelection::Found {
        payload: Ok(board(Some("chips/generic-mcu"), &["usb"], &[])),
        chip: selected_chip(false, &["PA1", "PB1"]),
    }];
    let mut diags = Vec::new();
    let targets = load(&controllers, selections, &mut diags);
    assert_eq!(codes(&diags), ["E1120", "E1311", "E1312"]);
    assert_eq!(diags[0].message, "controller 'mainboard': board 'boards/example' has no 'can' transport");
    assert_eq!(diags[0].path.as_deref(), Some("controllers.mainboard.transport"));
    assert_eq!(diags[1].severity, Severity::Warning);
    assert_eq!(
        diags[1].message,
        "board 'boards/example' chip 'chips/generic-mcu' is not in the dependency closure; using 1.5.0 (highest available)"
    );
    assert_eq!(
        diags[2].message,
        "board 'boards/example' connector 'motor0' wires pin PB2, which chip 'chips/generic-mcu' does not declare"
    );
    assert_eq!(diags[2].path, None);
    assert_eq!(targets.boards.len(), 1);
    assert_eq!(targets.chips.len(), 1);

    let missing_chip = vec![BoardSelection::Found {
        payload: Ok(board(Some("chips/generic-mcu"), &["can"], &[])),
        chip: None,
    }];
    let mut diags = Vec::new();
    let targets = load(&controllers, missing_chip, &mut diags);
    assert_eq!(codes(&diags), ["E1313"]);
    assert_eq!(
        diags[0].message,
        "board 'boards/example' references chip 'chips/generic-mcu', which is not in the registry"
    );
    assert_eq!(targets.boards.len(), 1);
    assert!(targets.chips.is_empty());
}

#[test]
fn a_chip_without_a_pin_table_checks_no_wiring() {
    let controllers = vec![("mainboard".to_string(), controller("boards/example", "usb", None))];
    let selections = vec![BoardSelection::Found {
        payload: Ok(board(Some("chips/generic-mcu"), &["usb"], &[])),
        chip: selected_chip(true, &[]),
    }];
    let mut diags = Vec::new();
    load(&controllers, selections, &mut diags);
    assert!(diags.is_empty());
}

#[test]
fn child_controllers_must_use_a_declared_downlink_of_their_type() {
    let controllers = vec![
        ("mainboard".to_string(), controller("boards/main", "usb", None)),
        ("tool".to_string(), controller("boards/tool", "can", Some("mainboard.can1"))),
        ("tool2".to_string(), controller("boards/tool", "usb", Some("mainboard.can0"))),
    ];
    let found = |downlinks: &[(&str, &str)]| BoardSelection::Found {
        payload: Ok(board(None, &["usb", "can"], downlinks)),
        chip: None,
    };
    let selections = vec![found(&[("can0", "can"), ("can2", "can")]), found(&[]), found(&[])];
    let mut diags = Vec::new();
    load(&controllers, selections, &mut diags);
    assert_eq!(codes(&diags), ["E1121", "E1122"]);
    assert_eq!(
        diags[0].message,
        "controller 'tool': transport.parent 'mainboard.can1' names port 'can1', which board 'boards/main' does not declare as a downlink"
    );
    assert_eq!(diags[0].path.as_deref(), Some("controllers.tool.transport.parent"));
    assert_eq!(diags[0].suggestions, ["available downlinks: can0, can2"]);
    assert_eq!(
        diags[1].message,
        "controller 'tool2': transport type 'usb' disagrees with parent downlink 'mainboard.can0' type 'can'"
    );
    assert_eq!(diags[1].path.as_deref(), Some("controllers.tool2.transport.type"));

    let lonely = vec![
        ("mainboard".to_string(), controller("boards/main", "usb", None)),
        ("tool".to_string(), controller("boards/tool", "can", Some("mainboard.can0"))),
    ];
    let mut diags = Vec::new();
    load(&lonely, vec![found(&[]), found(&[])], &mut diags);
    assert_eq!(codes(&diags), ["E1121"]);
    assert_eq!(diags[0].suggestions, ["'boards/main' declares no downlinks"]);
}

#[test]
fn each_parent_cycle_is_reported_once() {
    let controllers = vec![
        ("a".to_string(), controller("boards/x", "can", Some("b.can0"))),
        ("b".to_string(), controller("boards/x", "can", Some("c.can0"))),
        ("c".to_string(), controller("boards/x", "can", Some("a.can0"))),
        ("d".to_string(), controller("boards/x", "can", Some("a.can0"))),
        ("e".to_string(), controller("boards/x", "can", Some("e.can0"))),
        ("f".to_string(), controller("boards/x", "can", Some("g.can0"))),
    ];
    let selections = (0..controllers.len()).map(|_| BoardSelection::Missing).collect();
    let mut diags = Vec::new();
    load(&controllers, selections, &mut diags);
    let cycles: Vec<&Diagnostic> = diags.iter().filter(|d| d.code == "E1123").collect();
    let messages: Vec<&str> = cycles.iter().map(|d| d.message.as_str()).collect();
    assert_eq!(
        messages,
        [
            "controller 'a': transport.parent chain cycles back through 'a'",
            "controller 'd': transport.parent chain cycles back through 'a'",
            "controller 'e': transport.parent chain cycles back through 'e'",
        ]
    );
    assert_eq!(cycles[0].path.as_deref(), Some("controllers.a.transport.parent"));
}
