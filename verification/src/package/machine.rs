//! Machine package payload: the kinematics defaults a machine template
//! contributes.

use vstd::prelude::*;

verus! {

/// The kinematics a machine class assumes, and its default limits.
#[derive(Debug, Clone, Default, PartialEq, Eq)]
pub struct TemplateKinematics {
    /// The kinematics type the machine class assumes; a differing source
    /// declaration is surfaced, never overridden.
    pub kind: Option<String>,
    /// Default limits by name, in name order, as quantity texts.
    pub limits: Vec<(String, String)>,
}

} // verus!
