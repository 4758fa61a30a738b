use dryer::package::chip::{
    check_dma_channels, check_pin_functions, Adc, Bus, ChipPackageFile, DmaChannel, Peripherals,
    Timer,
};
use dryer::package::safety::SafeState;
use dryer::package::{PackageIdentity, PackageKind};
use dryer::resource::{Exclusivity, ResourceId, ResourceKind, ResourceOffer};
use dryer::schema::Diagnostic;

fn offer() -> ResourceOffer {
    ResourceOffer {
        id: ResourceId("mainboard.motor0.step".into()),
        kind: ResourceKind::GpioOutput,
        exclusivity: Exclusivity::Exclusive,
        attributes: vec![
            ("pin".into(), "PE11".into()),
            ("voltage_domain".into(), "logic_3v3".into()),
        ],
    }
}

#[test]
fn attribute_constraints_evaluate_locally() {
    let o = offer();
    assert_eq!(o.attribute("pin"), Some("PE11"));
    assert_eq!(o.attribute("missing"), None);
    assert!(o.satisfies_equality("pin", "PE11"));
    assert!(!o.satisfies_equality("pin", "PE12"));
    assert!(!o.satisfies_membership("voltage_domain", &vec!["logic_5v".into()]));
    assert!(o.satisfies_membership("voltage_domain", &vec!["logic_5v".into(), "logic_3v3".into()]));
    assert!(!o.satisfies_membership("absent", &vec!["x".into()]));
    assert!(o.satisfies_ownership(Exclusivity::Exclusive));
    assert!(o.satisfies_ownership(Exclusivity::Shared { max_owners: 0 }));
    let mut shared = offer();
    shared.exclusivity = Exclusivity::Shared { max_owners: 2 };
    assert!(!shared.satisfies_ownership(Exclusivity::Exclusive));
}

fn bus(id: &str) -> Bus {
    Bus { id: id.into(), max_frequency: None, worst_case_latency: None, worst_case_jitter: None }
}

fn chip() -> ChipPackageFile {
    ChipPackageFile {
        package: PackageIdentity {
            namespace: "chips".into(),
            name: "generic-mcu".into(),
            version: semver::Version::new(1, 0, 0),
            kind: PackageKind::Chip,
        },
        peripherals: Peripherals {
            timers: vec![Timer { id: "tim1".into(), channels: 4 }],
            spi: vec![bus("spi1")],
            i2c: vec![bus("i2c1")],
            uart: vec![bus("usart1")],
            adc: vec![Adc { id: "adc1".into(), channels: Some(8) }],
            dma: vec![
                DmaChannel { id: "dma2.ch3".into(), routes: vec!["spi1.rx".into()] },
                DmaChannel { id: "dma1.ch7".into(), routes: vec!["spi1.rx".into(), "spi1.tx".into()] },
                DmaChannel { id: "dma1.ch1".into(), routes: vec!["usart1.tx".into()] },
            ],
        },
        pin_functions: vec![
            ("PA0".into(), vec!["gpio".into(), "tim1.ch1".into()]),
            ("PA1".into(), vec!["tim9.ch2".into(), "adc1".into()]),
        ],
    }
}

#[test]
fn chip_queries_follow_the_declared_inventory() {
    let c = chip();
    let ids: Vec<&str> = c.buses().iter().map(|b| b.id.as_str()).collect();
    assert_eq!(ids, vec!["spi1", "i2c1", "usart1"]);
    assert_eq!(c.declared_ids(), vec!["tim1", "spi1", "i2c1", "usart1", "adc1"]);
    assert_eq!(c.dma_channel_for_route("spi1.rx").unwrap().id, "dma1.ch7");
    assert_eq!(c.dma_channel_for_route("usart1.tx").unwrap().id, "dma1.ch1");
    assert!(c.dma_channel_for_route("i2c1.rx").is_none());
}

#[test]
fn chip_tokens_and_dma_routes_are_checked() {
    let mut c = chip();
    let mut diags: Vec<Diagnostic> = Vec::new();
    check_pin_functions("chips/generic-mcu@1.0.0", &c, &mut diags);
    assert_eq!(diags.len(), 1);
    assert_eq!(
        diags[0].message,
        "chips/generic-mcu@1.0.0: pin PA1 claims 'tim9.ch2' but no peripheral 'tim9' is declared"
    );
    c.peripherals.dma.push(DmaChannel { id: "dma1.ch7".into(), routes: vec!["spi9.rx".into()] });
    c.peripherals.dma.push(DmaChannel { id: "bad".into(), routes: vec!["spi1.Rx".into()] });
    let mut dma: Vec<Diagnostic> = Vec::new();
    check_dma_channels("c@1", &c, &mut dma);
    let codes: Vec<&str> = dma.iter().map(|d| d.code.as_str()).collect();
    assert_eq!(codes, vec!["E0657", "E0658", "E0657", "E0658"]);
    assert_eq!(
        dma[0].message,
        "c@1: DMA channel id 'dma1.ch7' must be a unique '<controller>.<channel>' identifier"
    );
    assert_eq!(dma[1].message, "c@1: DMA channel 'dma1.ch7' route 'spi9.rx' must name a declared bus signal");
}

#[test]
fn safe_states_have_fixed_labels() {
    assert_eq!(SafeState::Off.as_str(), "off");
    assert_eq!(SafeState::Disabled.as_str(), "disabled");
}
