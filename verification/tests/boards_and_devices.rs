use dryer::package::board::{
    parse_usb_id, usb_id_from_number, validate_board, BoardPackageFile, Connector, UsbIdError,
};
use dryer::package::device::{
    validate_device, BusReq, DeviceInfo, DevicePackageFile, Requires, TimingReading,
};
use dryer::package::machine::TemplateKinematics;
use dryer::package::{PackageIdentity, PackageKind};
use dryer::schema::Diagnostic;

fn identity(namespace: &str, name: &str, kind: PackageKind) -> PackageIdentity {
    PackageIdentity {
        namespace: namespace.into(),
        name: name.into(),
        version: semver::Version::new(1, 0, 0),
        kind,
    }
}

fn connector(kind: &str, max_current: Option<&str>, pullup: Option<&str>) -> Connector {
    Connector {
        kind: kind.into(),
        pins: Vec::new(),
        pin: Some("PA0".into()),
        voltage_domain: None,
        max_current: max_current.map(str::to_owned),
        supply: None,
        pullup: pullup.map(str::to_owned),
    }
}

fn codes(diags: &[Diagnostic]) -> Vec<&str> {
    diags.iter().map(|d| d.code.as_str()).collect()
}

#[test]
fn usb_ids_read_as_hex_or_decimal_and_must_fit_sixteen_bits() {
    assert_eq!(parse_usb_id("0x1209"), Ok(0x1209));
    assert_eq!(parse_usb_id("  0XD003 "), Ok(0xd003));
    assert_eq!(parse_usb_id("4617"), Ok(4617));
    assert_eq!(parse_usb_id("+12"), Ok(12));
    assert_eq!(parse_usb_id("0x+ff"), Ok(0xff));
    assert_eq!(parse_usb_id(""), Err(UsbIdError::Empty));
    assert_eq!(parse_usb_id("0x"), Err(UsbIdError::Empty));
    assert_eq!(parse_usb_id("+"), Err(UsbIdError::InvalidDigit));
    assert_eq!(parse_usb_id("-1"), Err(UsbIdError::InvalidDigit));
    assert_eq!(parse_usb_id("12ab"), Err(UsbIdError::InvalidDigit));
    assert_eq!(parse_usb_id("0x1g"), Err(UsbIdError::InvalidDigit));
    assert_eq!(parse_usb_id("65536"), Err(UsbIdError::OutOfRange));
    assert_eq!(parse_usb_id("99999999999999999999"), Err(UsbIdError::TooLarge));
    // the first failing character decides
    assert_eq!(parse_usb_id("99999999999999999999x"), Err(UsbIdError::TooLarge));
    assert_eq!(parse_usb_id("9x9999999999999999999"), Err(UsbIdError::InvalidDigit));
    assert_eq!(usb_id_from_number(65535), Ok(65535));
    assert_eq!(usb_id_from_number(65536), Err(UsbIdError::OutOfRange));
    for (err, std_text) in [
        (UsbIdError::Empty, "".parse::<u64>().unwrap_err().to_string()),
        (UsbIdError::InvalidDigit, "x".parse::<u64>().unwrap_err().to_string()),
        (UsbIdError::TooLarge, "99999999999999999999".parse::<u64>().unwrap_err().to_string()),
    ] {
        assert_eq!(err.to_message(), std_text);
    }
    assert_eq!(UsbIdError::OutOfRange.to_message(), "USB id must fit in 16 bits");
}

#[test]
fn usb_id_reading_agrees_with_the_standard_parser() {
    for text in ["0", "1", "0x0", "0xffff", "65535", "007", " 42", "+0x1", "0x-1", "1_0", "0b1"] {
        let t = text.trim();
        let expected = match t.strip_prefix("0x").or_else(|| t.strip_prefix("0X")) {
            Some(hex) => u64::from_str_radix(hex, 16),
            None => t.parse::<u64>(),
        };
        match (parse_usb_id(text), expected) {
            (Ok(id), Ok(v)) => assert_eq!(u64::from(id), v, "{text}"),
            (Err(UsbIdError::OutOfRange), Ok(v)) => assert!(v > 0xffff, "{text}"),
            (Err(e), Err(std_err)) => assert_eq!(e.to_message(), std_err.to_string(), "{text}"),
            (got, want) => panic!("{text}: {got:?} vs {want:?}"),
        }
    }
}

#[test]
fn board_connectors_are_checked_in_key_order() {
    let board = BoardPackageFile {
        package: identity("boards", "b", PackageKind::Board),
        chip: None,
        hardware: None,
        connectors: vec![
            ("fan0".into(), connector("power_output", Some("5 A"), None)),
            ("Heater".into(), connector("power_output", Some("lots"), Some("4.7 kOhm"))),
            ("therm0".into(), connector("analog_input", None, Some("4.7"))),
        ],
        transports: Vec::new(),
        downlinks: Vec::new(),
        flash: None,
    };
    let problems = vec![
        (None, None),
        (Some("'lots' is not a finite number".to_string()), None),
        // a problem reported for an absent field is not a finding
        (Some("ignored".to_string()), Some("quantity requires an explicit unit".to_string())),
    ];
    let mut diags = Vec::new();
    validate_board("boards/b@1.0.0", &board, &problems, &mut diags);
    assert_eq!(codes(&diags), vec!["E0613", "E0614", "E0614"]);
    assert_eq!(diags[0].message, "boards/b@1.0.0: connector 'Heater' is not a valid identifier");
    assert_eq!(
        diags[1].message,
        "boards/b@1.0.0: connector 'Heater' max_current: 'lots' is not a finite number"
    );
    assert_eq!(
        diags[2].message,
        "boards/b@1.0.0: connector 'therm0' pullup: quantity requires an explicit unit"
    );
}

fn device(bus: Option<BusReq>) -> DevicePackageFile {
    DevicePackageFile {
        package: identity("devices", "d", PackageKind::Device),
        device: Some(DeviceInfo { class: Some("sensor".into()), model: None }),
        requires: Some(Requires {
            connector: Some("analog_input".into()),
            voltage_domains: Vec::new(),
            bus,
        }),
        capabilities: Vec::new(),
    }
}

#[test]
fn invalid_timing_and_duplicate_dma_signals_are_rejected() {
    let payload = device(Some(BusReq {
        kind: "spi".into(),
        min_frequency: Some("fast".into()),
        dma_signals: vec!["rx".into(), "rx".into(), "Tx".into(), "tx".into()],
        max_latency: Some("-1 us".into()),
        max_jitter: Some("10 parsecs".into()),
    }));
    let mut diags = Vec::new();
    validate_device(
        "devices/d@1.0.0",
        &payload,
        &Some("quantity requires an explicit unit".into()),
        &TimingReading::Negative,
        &TimingReading::Unreadable("unknown unit 'parsecs'".into()),
        &mut diags,
    );
    assert_eq!(codes(&diags), vec!["E0623", "E0624", "E0625", "E0626", "E0626"]);
    assert_eq!(
        diags[1].message,
        "devices/d@1.0.0: requires.bus.max_latency must be non-negative"
    );
    assert_eq!(
        diags[2].message,
        "devices/d@1.0.0: requires.bus.max_jitter: unknown unit 'parsecs'"
    );
    assert_eq!(
        diags[3].message,
        "devices/d@1.0.0: requires.bus.dma_signals entries must be unique identifiers; got 'rx'"
    );
    assert!(diags[4].message.ends_with("got 'Tx'"));
}

#[test]
fn the_dma_fixture_declares_typed_timing_and_routes() {
    let payload = device(Some(BusReq {
        kind: "spi".into(),
        min_frequency: None,
        dma_signals: vec!["rx".into()],
        max_latency: Some("50 us".into()),
        max_jitter: Some("10 us".into()),
    }));
    let mut diags = Vec::new();
    validate_device(
        "devices/dma-stream-sensor@1.0.0",
        &payload,
        &None,
        &TimingReading::NonNegative,
        &TimingReading::NonNegative,
        &mut diags,
    );
    assert!(diags.is_empty());
    let bus = payload.requires.unwrap().bus.unwrap();
    assert_eq!(bus.dma_signals, vec!["rx"]);
    assert_eq!(bus.max_latency.as_deref(), Some("50 us"));
    assert_eq!(bus.max_jitter.as_deref(), Some("10 us"));
    let mut none = Vec::new();
    validate_device("devices/x@1.0.0", &device(None), &Some("x".into()), &TimingReading::Negative,
        &TimingReading::Negative, &mut none);
    assert!(none.is_empty());
    assert_eq!(TemplateKinematics::default().kind, None);
}
