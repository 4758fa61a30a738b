//! Safety-profile package payload: per component-class safe states and the
//! parameters the controller enforces at the edge.

use vstd::prelude::*;
use crate::package::PackageIdentity;

verus! {

/// The `package.yaml` view of a safety-profile package.
#[derive(Debug, Clone)]
pub struct SafetyProfileFile {
    pub package: PackageIdentity,
    /// Component class (the component's `type`) to policy, in class order.
    pub classes: Vec<(String, ClassPolicy)>,
}

/// What a controller enforces for one component class.
#[derive(Debug, Clone, PartialEq, Eq)]
pub struct ClassPolicy {
    /// The state forced on fault, boot or heartbeat loss; a closed
    /// vocabulary, so a controller artifact never carries an uninterpreted
    /// safety action.
    pub safe_state: SafeState,
    /// Quantity text (`500 ms`): loss of the host heartbeat for longer than
    /// this forces the safe state at the edge.
    pub heartbeat_timeout: Option<String>,
    /// The class is only safe with a sensor attached.
    pub requires_sensor: bool,
}

/// Safety actions the controller artifact ABI can compile.
#[derive(Debug, Clone, Copy, PartialEq, Eq, Structural)]
pub enum SafeState {
    Off,
    Disabled,
}

pub open spec fn safe_state_label(state: SafeState) -> Seq<char> {
    match state {
        SafeState::Off => "off"@,
        SafeState::Disabled => "disabled"@,
    }
}

impl SafeState {
    pub fn as_str(self) -> (label: &'static str)
        ensures
            label@ == safe_state_label(self),
    {
        match self {
            SafeState::Off => "off",
            SafeState::Disabled => "disabled",
        }
    }
}

} // verus!
