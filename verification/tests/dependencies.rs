use dryer::package::{
    Dependency, LoadedPackage, LocalRegistry, Manifest, PackageIdentity, PackageKind, PackageRef,
};
use dryer::resolver::packages::PackageSelection;
use dryer::schema::{
    Controller, Diagnostic, Kinematics, MachineDoc, Metadata, Safety, Severity, Transport,
};

fn version(text: &str) -> semver::Version {
    semver::Version::parse(text).unwrap()
}

fn package(path: &str, v: &str, kind: PackageKind, deps: &[(&str, &str)]) -> LoadedPackage {
    let (namespace, name) = path.split_once('/').unwrap();
    LoadedPackage {
        reference: PackageRef { namespace: namespace.into(), name: name.into(), version: version(v) },
        kind,
        dir: format!("packages/{path}/{v}"),
        manifest: Manifest {
            package: PackageIdentity {
                namespace: namespace.into(),
                name: name.into(),
                version: version(v),
                kind,
            },
            dependencies: deps
                .iter()
                .map(|(p, r)| (p.to_string(), Dependency { version: r.to_string() }))
                .collect(),
        },
    }
}

fn registry(board_requirement: &str) -> LocalRegistry {
    LocalRegistry {
        source: None,
        packages: vec![
            package("boards/example", "1.0.0", PackageKind::Board, &[("chips/generic-mcu", board_requirement)]),
            package("chips/generic-mcu", "1.0.0", PackageKind::Chip, &[]),
            package("chips/generic-mcu", "2.0.0", PackageKind::Chip, &[]),
            package("chips/generic-mcu", "1.5.0", PackageKind::Chip, &[]),
            package("safety-profiles/desktop-fdm", "1.0.0", PackageKind::SafetyProfile, &[]),
        ],
        diagnostics: vec![],
    }
}

fn doc(packages: &[&str], profile: &str) -> MachineDoc {
    MachineDoc {
        api_version: "dryer.machine/v0.1".into(),
        kind: "Machine".into(),
        metadata: Metadata { name: "bench".into(), description: None },
        packages: packages.iter().map(|p| p.to_string()).collect(),
        controllers: vec![(
            "mainboard".into(),
            Controller {
                board: "boards/example".into(),
                transport: Transport { kind: "usb".into(), parent: None },
            },
        )],
        components: vec![],
        kinematics: Kinematics { kind: "cartesian".into(), limits: vec![] },
        safety: Safety { profile: profile.into() },
        workflows: vec![],
        calibration: None,
    }
}

fn refs(selection: &PackageSelection) -> Vec<&str> {
    selection.closure_refs.iter().map(String::as_str).collect()
}

#[test]
fn the_closure_takes_pins_implicit_roots_and_the_highest_satisfying_dependency() {
    let reg = registry("^1.0");
    let mut diags: Vec<Diagnostic> = Vec::new();
    let selection = PackageSelection::resolve(
        &doc(&["boards/example@1.0.0"], "safety-profiles/desktop-fdm"),
        &reg,
        &mut diags,
    );
    assert_eq!(
        refs(&selection),
        [
            "boards/example@1.0.0",
            "chips/generic-mcu@1.5.0",
            "safety-profiles/desktop-fdm@1.0.0",
        ]
    );
    assert_eq!(diags.len(), 1);
    assert_eq!(diags[0].code, "E1106");
    assert_eq!(diags[0].severity, Severity::Warning);
    assert_eq!(
        diags[0].message,
        "'safety-profiles/desktop-fdm' is not version-pinned; selected 1.0.0 (highest available)"
    );
    assert!(selection.contains("chips/generic-mcu"));
    assert_eq!(selection.version("chips/generic-mcu"), Some(&version("1.5.0")));
    let chip = selection.select(&reg, "chips/generic-mcu").unwrap();
    assert_eq!(chip.reference.version, version("1.5.0"));
    let unselected = selection.select(&reg, "chips/other");
    assert!(unselected.is_none());
}

#[test]
fn a_pin_is_absolute_and_a_conflicting_requirement_is_an_error() {
    let reg = registry("^1.0");
    let mut diags = Vec::new();
    let selection = PackageSelection::resolve(
        &doc(&["boards/example@1.0.0", "chips/generic-mcu@2.0.0"], "safety-profiles/desktop-fdm"),
        &reg,
        &mut diags,
    );
    let errors: Vec<&Diagnostic> = diags.iter().filter(|d| d.severity == Severity::Error).collect();
    assert_eq!(errors.len(), 1);
    assert_eq!(errors[0].code, "E1103");
    assert_eq!(
        errors[0].message,
        "'boards/example' requires 'chips/generic-mcu' ^1.0 but the machine pins 2.0.0"
    );
    assert_eq!(errors[0].path.as_deref(), Some("packages[1]"));
    assert!(!selection.contains("chips/generic-mcu"));
}

#[test]
fn missing_packages_and_versions_are_reported() {
    let reg = registry("^1.0");
    let mut diags = Vec::new();
    PackageSelection::resolve(
        &doc(&["boards/example@1.0.0", "chips/generic-mcu@9.0.0", "tools/absent@1.0.0"], "none"),
        &reg,
        &mut diags,
    );
    let errors: Vec<(&str, &str, Option<&str>)> = diags
        .iter()
        .map(|d| (d.code.as_str(), d.message.as_str(), d.path.as_deref()))
        .collect();
    assert_eq!(
        errors,
        [
            (
                "E1101",
                "package 'chips/generic-mcu' pinned at 9.0.0 but the registry has 1.0.0, 1.5.0, 2.0.0",
                Some("packages[1]")
            ),
            ("E1100", "package 'tools/absent' is not in the registry", Some("packages")),
        ]
    );
}

#[test]
fn an_unsatisfiable_requirement_names_who_asked_and_what_exists() {
    let reg = registry(">=3.0");
    let mut diags = Vec::new();
    PackageSelection::resolve(&doc(&["boards/example@1.0.0"], "none"), &reg, &mut diags);
    assert_eq!(diags.len(), 1);
    assert_eq!(diags[0].code, "E1104");
    assert_eq!(
        diags[0].message,
        "no version of 'chips/generic-mcu' satisfies 'boards/example' (>=3.0); available: 1.0.0, 1.5.0, 2.0.0"
    );
    assert_eq!(diags[0].path, None);
}

#[test]
fn oscillating_requirements_do_not_converge() {
    let reg = LocalRegistry {
        source: None,
        packages: vec![
            package("x/a", "1.0.0", PackageKind::Machine, &[("x/b", "=2")]),
            package("x/a", "2.0.0", PackageKind::Machine, &[("x/b", "=1")]),
            package("x/b", "1.0.0", PackageKind::Machine, &[("x/a", "=1")]),
            package("x/b", "2.0.0", PackageKind::Machine, &[("x/a", "=2")]),
            package("boards/example", "1.0.0", PackageKind::Board, &[]),
        ],
        diagnostics: vec![],
    };
    let mut diags = Vec::new();
    PackageSelection::resolve(&doc(&["boards/example@1.0.0"], "x/a"), &reg, &mut diags);
    let codes: Vec<&str> = diags.iter().map(|d| d.code.as_str()).collect();
    assert_eq!(codes, ["E1107"]);
    assert_eq!(
        diags[0].message,
        "dependency resolution did not converge (cyclic version constraints?)"
    );
}

#[test]
fn the_registry_finds_versions_in_precedence_order() {
    let reg = registry("^1.0");
    let versions: Vec<String> =
        reg.versions("chips", "generic-mcu").into_iter().map(|v| v.to_string()).collect();
    assert_eq!(versions, ["1.0.0", "1.5.0", "2.0.0"]);
    assert_eq!(reg.find("chips", "generic-mcu").unwrap().reference.version, version("2.0.0"));
    assert!(reg.find("chips", "absent").is_none());
    let exact = reg.find_version("chips", "generic-mcu", &version("1.5.0")).unwrap();
    assert_eq!(exact.dir, "packages/chips/generic-mcu/1.5.0");
    assert!(reg.find_version("chips", "generic-mcu", &version("1.6.0")).is_none());
}

#[test]
fn the_closure_selects_transitive_dependencies_at_max_satisfying_version() {
    let mut reg = registry("^1.4");
    reg.packages.push(package("chips/generic-mcu", "1.4.0", PackageKind::Chip, &[]));
    let mut diags: Vec<Diagnostic> = Vec::new();
    let selection = PackageSelection::resolve(
        &doc(&["boards/example@1.0.0", "safety-profiles/desktop-fdm@1.0.0"], "safety-profiles/desktop-fdm"),
        &reg,
        &mut diags,
    );
    assert!(diags.is_empty(), "{diags:#?}");
    assert_eq!(selection.version("chips/generic-mcu"), Some(&version("1.5.0")));
    let pinned = PackageSelection::resolve(
        &doc(&["boards/example@1.0.0", "chips/generic-mcu@1.0.0"], "safety-profiles/desktop-fdm"),
        &reg,
        &mut diags,
    );
    assert!(diags.iter().any(|d| d.code == "E1103"), "{diags:#?}");
    assert!(pinned.chosen.iter().all(|(path, v)| path != "chips/generic-mcu" || v == &version("1.0.0")));
}
