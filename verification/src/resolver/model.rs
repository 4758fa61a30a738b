//! The resolved graph: explainable connector assignments, the controller
//! safe-state bindings of firmware partitioning, and the package closure.

use vstd::prelude::*;
use crate::package::safety::{safe_state_label, SafeState};
use crate::resolver::{ControllerBuildPlan, Phase};
use crate::resource::ResourceId;
use crate::schema::{Diagnostic, Severity};
use crate::text::{decimal, joined, push_decimal, push_str, str_eq, string_views};

verus! {

/// One explainable assignment: which requirement asked, what was
/// considered, what was chosen.
#[derive(Debug, Clone, PartialEq)]
pub struct Assignment {
    /// The component that claimed the resource.
    pub requested_by: String,
    /// The attribute the claim came from (`connected_to`, `output`, `input`).
    pub via: String,
    /// The chosen concrete resource (`controller.connector`).
    pub resource: ResourceId,
    /// Connector kind of the chosen resource.
    pub connector_kind: String,
    /// Candidates considered.
    pub candidates_considered: Vec<String>,
    /// The constraints applied to accept the claim.
    pub constraints_applied: Vec<String>,
    /// Signal to chip capability tokens for the connector's pins, in signal
    /// order; empty when the board names no chip or the chip has no table.
    pub pin_capabilities: Vec<(String, Vec<String>)>,
}

/// One edge-enforced safety action assigned to a controller.
#[derive(Debug, Clone, PartialEq, Eq)]
pub struct ControllerSafeState {
    pub component: String,
    pub class: String,
    /// Concrete controller resource (`controller.connector`).
    pub resource: ResourceId,
    pub state: SafeState,
    /// In the controller's 1 us time quantum.
    pub heartbeat_timeout_us: Option<u64>,
    /// Sensor resource on the same controller, when policy requires one.
    pub sensor: Option<ResourceId>,
}

/// The resolved graph: assignments by component, safety bindings and build
/// plans by controller (each keyed list in key order), and the package
/// closure as sorted `namespace/name@version` references.
#[derive(Debug, Clone, PartialEq)]
pub struct ResolvedGraph {
    pub assignments: Vec<(String, Vec<Assignment>)>,
    pub controller_safety: Vec<(String, Vec<ControllerSafeState>)>,
    pub controller_build_plans: Vec<(String, ControllerBuildPlan)>,
    pub packages: Vec<String>,
}

/// Everything a resolution run produces.
#[derive(Debug)]
pub struct ResolveOutcome {
    pub resolved: Option<ResolvedGraph>,
    pub diagnostics: Vec<Diagnostic>,
    pub phases_run: Vec<Phase>,
}

impl ResolveOutcome {
    /// A graph was resolved and no diagnostic is an error.
    pub fn is_ok(&self) -> (ok: bool)
        ensures
            ok == (self.resolved is Some && forall|i: int|
                0 <= i < self.diagnostics@.len() ==> (#[trigger] self.diagnostics@[i]).severity
                    != Severity::Error),
    {
        if self.resolved.is_none() {
            return false;
        }
        let mut i: usize = 0;
        while i < self.diagnostics.len()
            invariant
                i <= self.diagnostics@.len(),
                forall|j: int| 0 <= j < i ==> (#[trigger] self.diagnostics@[j]).severity != Severity::Error,
            decreases self.diagnostics@.len() - i,
        {
            if self.diagnostics[i].severity == Severity::Error {
                return false;
            }
            i = i + 1;
        }
        true
    }
}

// ---------------------------------------------------------------------------
// Explaining a component
// ---------------------------------------------------------------------------

/// `  <signal>: <functions joined by ' | '>` lines of pin capabilities.
pub open spec fn capability_lines(capabilities: Seq<(String, Vec<String>)>) -> Seq<char>
    decreases capabilities.len(),
{
    if capabilities.len() == 0 {
        seq![]
    } else {
        let (signal, functions) = capabilities.last();
        capability_lines(capabilities.drop_last()) + "  "@ + signal@ + ": "@ + joined(
            string_views(functions@),
            " | "@,
        ) + "\n"@
    }
}

/// How one assignment is explained.
pub open spec fn assignment_text(a: Assignment) -> Seq<char> {
    a.requested_by@ + " --"@ + a.via@ + "--> "@ + a.resource.0@ + " (kind "@ + a.connector_kind@
        + ")\n  candidates: "@ + joined(string_views(a.candidates_considered@), ", "@)
        + "\n  constraints: "@ + joined(string_views(a.constraints_applied@), "; "@) + "\n"@
        + capability_lines(a.pin_capabilities@)
}

pub open spec fn assignments_text(list: Seq<Assignment>) -> Seq<char>
    decreases list.len(),
{
    if list.len() == 0 {
        seq![]
    } else {
        assignments_text(list.drop_last()) + assignment_text(list.last())
    }
}

/// How one safety binding is explained.
pub open spec fn binding_text(b: ControllerSafeState) -> Seq<char> {
    b.component@ + " --safe_state--> "@ + b.resource.0@ + " = "@ + safe_state_label(b.state)
        + match b.heartbeat_timeout_us {
        Some(t) => " (heartbeat "@ + decimal(t as nat) + " us)"@,
        None => seq![],
    } + match b.sensor {
        Some(s) => " (sensor "@ + s.0@ + ")"@,
        None => seq![],
    } + "\n"@
}

/// The bindings of `component`, over every controller in order.
pub open spec fn bindings_of(
    safety: Seq<(String, Vec<ControllerSafeState>)>,
    component: Seq<char>,
) -> Seq<ControllerSafeState>
    decreases safety.len(),
{
    if safety.len() == 0 {
        seq![]
    } else {
        bindings_of(safety.drop_last(), component) + component_bindings(safety.last().1@, component)
    }
}

/// The bindings of `component` in one controller's list, in order.
pub open spec fn component_bindings(list: Seq<ControllerSafeState>, component: Seq<char>) -> Seq<
    ControllerSafeState,
>
    decreases list.len(),
{
    if list.len() == 0 {
        seq![]
    } else {
        component_bindings(list.drop_last(), component) + if list.last().component@ == component {
            seq![list.last()]
        } else {
            seq![]
        }
    }
}

pub open spec fn bindings_text(bindings: Seq<ControllerSafeState>) -> Seq<char>
    decreases bindings.len(),
{
    if bindings.len() == 0 {
        seq![]
    } else {
        bindings_text(bindings.drop_last()) + binding_text(bindings.last())
    }
}

/// The explanation of a component: each of its assignments, then each of
/// its safety bindings; none when it has neither an assignment list nor a
/// binding.
pub open spec fn explanation(graph: ResolvedGraph, component: Seq<char>) -> Option<Seq<char>> {
    let list = crate::resolver::targets::entry(graph.assignments@, component);
    let safety = bindings_of(graph.controller_safety@, component);
    if list is None && safety.len() == 0 {
        None
    } else {
        Some(
            match list {
                Some(l) => assignments_text(l@),
                None => seq![],
            } + bindings_text(safety),
        )
    }
}

fn push_joined(text: &mut String, parts: &Vec<String>, sep: &str)
    ensures
        final(text)@ == old(text)@ + joined(string_views(parts@), sep@),
{
    let j = crate::text::join(parts, sep);
    push_str(text, j.as_str());
}

fn push_assignment(text: &mut String, a: &Assignment)
    ensures
        final(text)@ == old(text)@ + assignment_text(*a),
{
    let ghost start = text@;
    push_str(text, a.requested_by.as_str());
    push_str(text, " --");
    push_str(text, a.via.as_str());
    push_str(text, "--> ");
    push_str(text, a.resource.0.as_str());
    push_str(text, " (kind ");
    push_str(text, a.connector_kind.as_str());
    push_str(text, ")\n  candidates: ");
    push_joined(text, &a.candidates_considered, ", ");
    push_str(text, "\n  constraints: ");
    push_joined(text, &a.constraints_applied, "; ");
    push_str(text, "\n");
    let ghost head = text@;
    let mut i: usize = 0;
    while i < a.pin_capabilities.len()
        invariant
            i <= a.pin_capabilities@.len(),
            text@ == head + capability_lines(a.pin_capabilities@.subrange(0, i as int)),
        decreases a.pin_capabilities@.len() - i,
    {
        proof {
            let more = a.pin_capabilities@.subrange(0, i + 1);
            assert(more.drop_last() =~= a.pin_capabilities@.subrange(0, i as int));
            assert(more.last() == a.pin_capabilities@[i as int]);
        }
        push_str(text, "  ");
        push_str(text, a.pin_capabilities[i].0.as_str());
        push_str(text, ": ");
        push_joined(text, &a.pin_capabilities[i].1, " | ");
        push_str(text, "\n");
        i = i + 1;
    }
    assert(a.pin_capabilities@.subrange(0, a.pin_capabilities@.len() as int) =~= a.pin_capabilities@);
    assert(text@ =~= start + assignment_text(*a));
}

fn push_binding(text: &mut String, b: &ControllerSafeState)
    ensures
        final(text)@ == old(text)@ + binding_text(*b),
{
    let ghost start = text@;
    push_str(text, b.component.as_str());
    push_str(text, " --safe_state--> ");
    push_str(text, b.resource.0.as_str());
    push_str(text, " = ");
    push_str(text, b.state.as_str());
    match b.heartbeat_timeout_us {
        Some(t) => {
            push_str(text, " (heartbeat ");
            push_decimal(text, t);
            push_str(text, " us)");
        },
        None => {},
    }
    match &b.sensor {
        Some(s) => {
            push_str(text, " (sensor ");
            push_str(text, s.0.as_str());
            push_str(text, ")");
        },
        None => {},
    }
    push_str(text, "\n");
    assert(text@ =~= start + binding_text(*b));
}

impl ResolvedGraph {
    /// Explain one component's assignments and safety bindings.
    pub fn explain(&self, component: &str) -> (text: Option<String>)
        ensures
            match text {
                Some(t) => explanation(*self, component@) == Some(t@),
                None => explanation(*self, component@) is None,
            },
    {
        let list = crate::resolver::targets::find_entry(&self.assignments, component);
        let mut text = String::new();
        match list {
            Some(l) => {
                let mut i: usize = 0;
                while i < l.len()
                    invariant
                        i <= l@.len(),
                        text@ == assignments_text(l@.subrange(0, i as int)),
                    decreases l@.len() - i,
                {
                    proof {
                        let more = l@.subrange(0, i + 1);
                        assert(more.drop_last() =~= l@.subrange(0, i as int));
                        assert(more.last() == l@[i as int]);
                    }
                    push_assignment(&mut text, &l[i]);
                    i = i + 1;
                }
                assert(l@.subrange(0, l@.len() as int) =~= l@);
            },
            None => {
                assert(text@ =~= Seq::<char>::empty());
            },
        }
        let ghost head = text@;
        let mut any = false;
        let mut c: usize = 0;
        while c < self.controller_safety.len()
            invariant
                c <= self.controller_safety@.len(),
                any == (bindings_of(self.controller_safety@.subrange(0, c as int), component@).len() > 0),
                text@ == head + bindings_text(bindings_of(self.controller_safety@.subrange(0, c as int), component@)),
            decreases self.controller_safety@.len() - c,
        {
            let bindings = &self.controller_safety[c].1;
            let ghost done = bindings_of(self.controller_safety@.subrange(0, c as int), component@);
            proof {
                let more = self.controller_safety@.subrange(0, c + 1);
                assert(more.drop_last() =~= self.controller_safety@.subrange(0, c as int));
                assert(more.last() == self.controller_safety@[c as int]);
            }
            let mut k: usize = 0;
            while k < bindings.len()
                invariant
                    k <= bindings@.len(),
                    bindings == &self.controller_safety@[c as int].1,
                    any == ((done + component_bindings(bindings@.subrange(0, k as int), component@)).len() > 0),
                    text@ == head + bindings_text(done + component_bindings(bindings@.subrange(0, k as int), component@)),
                decreases bindings@.len() - k,
            {
                let ghost part = component_bindings(bindings@.subrange(0, k as int), component@);
                proof {
                    let more = bindings@.subrange(0, k + 1);
                    assert(more.drop_last() =~= bindings@.subrange(0, k as int));
                    assert(more.last() == bindings@[k as int]);
                }
                if str_eq(bindings[k].component.as_str(), component) {
                    push_binding(&mut text, &bindings[k]);
                    any = true;
                    proof {
                        assert(component_bindings(bindings@.subrange(0, k + 1), component@) =~= part + seq![bindings@[k as int]]);
                        assert(done + (part + seq![bindings@[k as int]]) =~= (done + part).push(bindings@[k as int]));
                        assert((done + part).push(bindings@[k as int]).drop_last() =~= done + part);
                    }
                } else {
                    assert(component_bindings(bindings@.subrange(0, k + 1), component@) =~= part);
                }
                k = k + 1;
            }
            assert(bindings@.subrange(0, bindings@.len() as int) =~= bindings@);
            c = c + 1;
        }
        assert(self.controller_safety@.subrange(0, self.controller_safety@.len() as int) =~= self.controller_safety@);
        if list.is_none() && !any {
            None
        } else {
            Some(text)
        }
    }
}

} // verus!
