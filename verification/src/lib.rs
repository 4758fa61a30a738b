//! Dryer: verified core logic of a machine-control configuration platform.
//!
//! The library holds the clock estimator, the controller wire codec and the
//! host-side exchange state, flash-tool planning and USB device selection,
//! identifier and reference rules, and the package snapshot digest framing.

pub mod clock_sync;
pub mod protocol;
pub mod client;
pub mod text;
pub mod digest;
pub mod flash;
pub mod schema;
pub mod package;
pub mod lock;
pub mod firmware;
pub mod resource;
pub mod daemon;
pub mod gcode;
pub mod spans;
pub mod resolver;
pub mod manifest;
pub mod canonical;
pub mod generate;
