//! Machine resolution: the resolver's phases, the build inputs it plans,
//! the connector kinds claims and safety sensors use, and the package
//! loading phase (`targets`).

use vstd::prelude::*;
use crate::text::str_eq;

pub mod allocation;
pub mod artifacts;
pub mod electrical;
pub mod expansion;
pub mod model;
pub mod packages;
pub mod safety;
pub mod stages;
pub mod targets;

verus! {

/// Resolver phases, in the order they run.
#[derive(Debug, Clone, Copy, PartialEq, Eq, Structural)]
pub enum Phase {
    Parse,
    SchemaValidation,
    PackageDependencies,
    PackageLoading,
    GraphExpansion,
    CapabilityMatching,
    ResourceAllocation,
    ElectricalValidation,
    SafetyValidation,
    FirmwarePartitioning,
    ArtifactPlanning,
}

/// Deterministic controller build inputs selected by artifact planning:
/// exact package references and integer byte capacities.
#[derive(Debug, Clone, PartialEq, Eq)]
pub struct ControllerBuildPlan {
    pub board: String,
    pub chip: String,
    pub target_triple: String,
    pub toolchain: String,
    pub build_profile: String,
    pub protocol_version: String,
    pub abi_version: String,
    pub flash_bytes: u64,
    pub ram_bytes: u64,
    pub bootloader_offset_bytes: u64,
    pub features: Vec<String>,
    pub native_drivers: Vec<String>,
}

/// A connector kind a safety sensor can sit on.
pub open spec fn sensor_kind(kind: Seq<char>) -> bool {
    kind == "analog_input"@ || kind == "digital_input"@
}

/// Whether a connector kind carries a sensor.
pub fn is_sensor_connector_kind(connector_kind: &str) -> (sensor: bool)
    ensures
        sensor == sensor_kind(connector_kind@),
{
    str_eq(connector_kind, "analog_input") || str_eq(connector_kind, "digital_input")
}

/// The connector kind a claiming attribute requires.
pub open spec fn claimed_kind(attr: Seq<char>) -> Option<Seq<char>> {
    if attr == "connected_to"@ {
        Some("stepper_driver_socket"@)
    } else if attr == "output"@ {
        Some("power_output"@)
    } else if attr == "input"@ {
        Some("analog_input"@)
    } else {
        None
    }
}

/// The connector kind a claiming attribute requires, when it claims one.
pub fn claim_kind(attr: &str) -> (kind: Option<&'static str>)
    ensures
        match kind {
            Some(k) => claimed_kind(attr@) == Some(k@),
            None => claimed_kind(attr@) is None,
        },
{
    if str_eq(attr, "connected_to") {
        Some("stepper_driver_socket")
    } else if str_eq(attr, "output") {
        Some("power_output")
    } else if str_eq(attr, "input") {
        Some("analog_input")
    } else {
        None
    }
}

} // verus!
