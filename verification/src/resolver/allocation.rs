//! Capability matching and connector allocation: explicit claims first,
//! then search allocation, sharing one claim table so that later
//! candidates see every earlier reservation.

use vstd::prelude::*;
use crate::package::board::{BoardPackageFile, Connector};
use crate::package::chip::ChipPackageFile;
use crate::resolver::model::{Assignment, ResolvedGraph};
use crate::resolver::packages::{get, keyed, lookup, put, put_sorted, text_values, PackageSelection};
use crate::resolver::safety::{suggested_error, text_attribute};
use crate::resolver::targets::{emit_after, emitted, entry, error_at, find_entry, ControllerTargets, Emission};
use crate::resolver::{claim_kind, claimed_kind, Phase};
use crate::resource::ResourceId;
use crate::schema::{AttributeValue, Component, Controller, Diagnostic, MachineDoc, Severity};
use crate::text::{
    decimal, has_prefix, join, joined, push_decimal, push_str, split_at_first, split_once, starts_with, str_eq,
    string_views,
};

verus! {

/// What a component type's device package requires of the connector it
/// is allocated.
#[derive(Debug, Clone)]
pub struct DeviceRequirement {
    /// The device package reference.
    pub reference: String,
    /// The connector kind it needs.
    pub connector: Option<String>,
    /// Voltage domains, one of which the connector must carry.
    pub domains: Vec<String>,
    /// The bus kind it needs, when it needs one.
    pub bus: Option<String>,
    /// The bus's minimum frequency, as the device package writes it.
    pub bus_min_frequency: Option<String>,
}

/// Whether a component type's bus requirement holds on a connector: the
/// evidence as constraint texts, or the reason it fails. Bus requirements
/// compare declared frequencies and timings, so the verdicts are read
/// before allocation.
#[derive(Debug)]
pub struct BusVerdict {
    pub kind: String,
    pub target: String,
    pub verdict: Result<Vec<String>, String>,
}

// ---------------------------------------------------------------------------
// Views
// ---------------------------------------------------------------------------

/// The content of an assignment.
pub struct AssignmentView {
    pub requested_by: Seq<char>,
    pub via: Seq<char>,
    pub resource: Seq<char>,
    pub connector_kind: Seq<char>,
    pub candidates: Seq<Seq<char>>,
    pub constraints: Seq<Seq<char>>,
    pub capabilities: Seq<(Seq<char>, Seq<Seq<char>>)>,
}

/// A keyed table of text lists by their texts.
pub open spec fn list_table(t: Seq<(Seq<char>, Vec<String>)>) -> Seq<(Seq<char>, Seq<Seq<char>>)> {
    t.map_values(|e: (Seq<char>, Vec<String>)| (e.0, string_views(e.1@)))
}

/// Pin capabilities as texts.
pub open spec fn capability_views(t: Seq<(String, Vec<String>)>) -> Seq<(Seq<char>, Seq<Seq<char>>)> {
    list_table(keyed(t))
}

pub open spec fn assignment_view(a: Assignment) -> AssignmentView {
    AssignmentView {
        requested_by: a.requested_by@,
        via: a.via@,
        resource: a.resource.0@,
        connector_kind: a.connector_kind@,
        candidates: string_views(a.candidates_considered@),
        constraints: string_views(a.constraints_applied@),
        capabilities: capability_views(a.pin_capabilities@),
    }
}

pub open spec fn assignment_views(v: Seq<Assignment>) -> Seq<AssignmentView> {
    v.map_values(|a: Assignment| assignment_view(a))
}

pub open spec fn assignments_listed(t: Seq<(Seq<char>, Vec<Assignment>)>) -> Seq<(Seq<char>, Seq<AssignmentView>)> {
    t.map_values(|e: (Seq<char>, Vec<Assignment>)| (e.0, assignment_views(e.1@)))
}

/// A graph's assignments: component, then its assignments.
pub open spec fn assignment_table(t: Seq<(String, Vec<Assignment>)>) -> Seq<(Seq<char>, Seq<AssignmentView>)> {
    assignments_listed(keyed(t))
}

proof fn lemma_list_table_put(table: Seq<(Seq<char>, Vec<String>)>, key: Seq<char>, value: Vec<String>)
    ensures
        list_table(put_sorted(table, key, value)) == put_sorted(list_table(table), key, string_views(value@)),
    decreases table.len(),
{
    if table.len() == 0 {
        assert(list_table(seq![(key, value)]) =~= seq![(key, string_views(value@))]);
    } else {
        let rest = table.drop_last();
        assert(list_table(table).drop_last() =~= list_table(rest));
        assert(list_table(table).last() == (table.last().0, string_views(table.last().1@)));
        if crate::flash::text_order(table.last().0, key) < 0 {
            assert(list_table(table.push((key, value))) =~= list_table(table).push((key, string_views(value@))));
        } else if crate::flash::text_order(table.last().0, key) == 0 {
            assert(list_table(rest.push((key, value))) =~= list_table(rest).push((key, string_views(value@))));
        } else {
            lemma_list_table_put(rest, key, value);
            assert(list_table(put_sorted(rest, key, value).push(table.last())) =~= list_table(
                put_sorted(rest, key, value),
            ).push((table.last().0, string_views(table.last().1@))));
        }
    }
}

proof fn lemma_lookup_lists(table: Seq<(String, Vec<String>)>, key: Seq<char>)
    ensures
        lookup(capability_views(table), key) == match lookup(keyed(table), key) {
            Some(v) => Some(string_views(v@)),
            None => None::<Seq<Seq<char>>>,
        },
    decreases table.len(),
{
    if table.len() > 0 {
        assert(capability_views(table).drop_first() =~= capability_views(table.drop_first()));
        assert(keyed(table).drop_first() =~= keyed(table.drop_first()));
        lemma_lookup_lists(table.drop_first(), key);
    }
}

proof fn lemma_assignments_put(table: Seq<(Seq<char>, Vec<Assignment>)>, key: Seq<char>, value: Vec<Assignment>)
    ensures
        assignments_listed(put_sorted(table, key, value)) == put_sorted(
            assignments_listed(table),
            key,
            assignment_views(value@),
        ),
    decreases table.len(),
{
    if table.len() == 0 {
        assert(assignments_listed(seq![(key, value)]) =~= seq![(key, assignment_views(value@))]);
    } else {
        let rest = table.drop_last();
        assert(assignments_listed(table).drop_last() =~= assignments_listed(rest));
        assert(assignments_listed(table).last() == (table.last().0, assignment_views(table.last().1@)));
        if crate::flash::text_order(table.last().0, key) < 0 {
            assert(assignments_listed(table.push((key, value))) =~= assignments_listed(table).push(
                (key, assignment_views(value@)),
            ));
        } else if crate::flash::text_order(table.last().0, key) == 0 {
            assert(assignments_listed(rest.push((key, value))) =~= assignments_listed(rest).push(
                (key, assignment_views(value@)),
            ));
        } else {
            lemma_assignments_put(rest, key, value);
            assert(assignments_listed(put_sorted(rest, key, value).push(table.last())) =~= assignments_listed(
                put_sorted(rest, key, value),
            ).push((table.last().0, assignment_views(table.last().1@))));
        }
    }
}

fn copy_texts(v: &Vec<String>) -> (copy: Vec<String>)
    ensures
        copy@ == v@,
{
    let mut copy: Vec<String> = Vec::new();
    let mut i: usize = 0;
    while i < v.len()
        invariant
            i <= v@.len(),
            copy@ == v@.subrange(0, i as int),
        decreases v@.len() - i,
    {
        copy.push(v[i].clone());
        assert(copy@ =~= v@.subrange(0, i + 1));
        i = i + 1;
    }
    assert(v@.subrange(0, v@.len() as int) =~= v@);
    copy
}

// ---------------------------------------------------------------------------
// Pin capabilities
// ---------------------------------------------------------------------------

/// The pin-function table of a controller's chip, when it has one.
pub open spec fn chip_functions(chips: Seq<(String, ChipPackageFile)>, controller: Seq<char>) -> Seq<
    (Seq<char>, Seq<Seq<char>>),
> {
    match entry(chips, controller) {
        Some(chip) => capability_views(chip.pin_functions@),
        None => seq![],
    }
}

pub open spec fn caps_from_pins(
    functions: Seq<(Seq<char>, Seq<Seq<char>>)>,
    pins: Seq<(String, String)>,
    k: nat,
) -> Seq<(Seq<char>, Seq<Seq<char>>)>
    decreases k,
{
    if k == 0 || k > pins.len() {
        seq![]
    } else {
        let before = caps_from_pins(functions, pins, (k - 1) as nat);
        match lookup(functions, pins[k - 1].1@) {
            Some(f) => put_sorted(before, pins[k - 1].0@, f),
            None => before,
        }
    }
}

/// A connector's pins joined with the chip's pin-function table, by
/// signal (a single-pin connector's signal is `pin`); empty without a
/// table: absent data disables capability checks.
pub open spec fn pin_capabilities(functions: Seq<(Seq<char>, Seq<Seq<char>>)>, connector: Connector) -> Seq<
    (Seq<char>, Seq<Seq<char>>),
> {
    if functions.len() == 0 {
        seq![]
    } else {
        let from_pins = caps_from_pins(functions, connector.pins@, connector.pins@.len());
        match connector.pin {
            Some(p) => match lookup(functions, p@) {
                Some(f) => put_sorted(from_pins, "pin"@, f),
                None => from_pins,
            },
            None => from_pins,
        }
    }
}

fn add_capability(
    caps: &mut Vec<(String, Vec<String>)>,
    functions: &Vec<(String, Vec<String>)>,
    signal: &str,
    pin: &str,
)
    ensures
        capability_views(final(caps)@) == match lookup(capability_views(functions@), pin@) {
            Some(f) => put_sorted(capability_views(old(caps)@), signal@, f),
            None => capability_views(old(caps)@),
        },
{
    proof {
        lemma_lookup_lists(functions@, pin@);
    }
    match get(functions, pin) {
        Some(f) => {
            let value = copy_texts(f);
            let ghost before = caps@;
            let ghost v = value;
            put(caps, signal.to_owned(), value);
            proof {
                lemma_list_table_put(keyed(before), signal@, v);
            }
        },
        None => {},
    }
}

/// Join a connector's pins to the chip's pin-function table.
pub fn derive_pin_capabilities(chip: Option<&ChipPackageFile>, connector: &Connector) -> (caps: Vec<
    (String, Vec<String>),
>)
    ensures
        capability_views(caps@) == pin_capabilities(
            match chip {
                Some(c) => capability_views(c.pin_functions@),
                None => seq![],
            },
            *connector,
        ),
{
    let mut caps: Vec<(String, Vec<String>)> = Vec::new();
    let chip = match chip {
        Some(c) => c,
        None => {
            assert(capability_views(caps@) =~= Seq::<(Seq<char>, Seq<Seq<char>>)>::empty());
            return caps;
        },
    };
    let ghost functions = capability_views(chip.pin_functions@);
    if chip.pin_functions.len() == 0 {
        assert(capability_views(caps@) =~= Seq::<(Seq<char>, Seq<Seq<char>>)>::empty());
        return caps;
    }
    assert(capability_views(caps@) =~= Seq::<(Seq<char>, Seq<Seq<char>>)>::empty());
    let mut i: usize = 0;
    while i < connector.pins.len()
        invariant
            i <= connector.pins@.len(),
            functions == capability_views(chip.pin_functions@),
            capability_views(caps@) == caps_from_pins(functions, connector.pins@, i as nat),
        decreases connector.pins@.len() - i,
    {
        add_capability(&mut caps, &chip.pin_functions, connector.pins[i].0.as_str(), connector.pins[i].1.as_str());
        i = i + 1;
    }
    match &connector.pin {
        Some(p) => add_capability(&mut caps, &chip.pin_functions, "pin", p.as_str()),
        None => {},
    }
    caps
}

// ---------------------------------------------------------------------------
// Allocation
// ---------------------------------------------------------------------------

/// What allocation reads.
pub struct AllocationInputs {
    pub boards: Seq<(String, BoardPackageFile)>,
    pub chips: Seq<(String, ChipPackageFile)>,
    pub requirements: Seq<(String, DeviceRequirement)>,
    pub verdicts: Seq<BusVerdict>,
    pub controllers: Seq<(String, Controller)>,
    /// The machine declares a step-rate budget (`max_step_rate`).
    pub step_rate: bool,
}

/// The state of allocation: each claimed connector with its first claimant,
/// each reserved step timer channel (`controller.channel`) with the
/// component and step pin that reserved it, the assignments by component,
/// the current component's explicit assignments not yet filed, and the
/// findings.
pub struct Allocation {
    pub claims: Seq<(Seq<char>, Seq<char>)>,
    pub timers: Seq<(Seq<char>, (Seq<char>, Seq<char>))>,
    pub assignments: Seq<(Seq<char>, Seq<AssignmentView>)>,
    pub pending: Seq<AssignmentView>,
    pub findings: Seq<Emission>,
}

/// `Debug` of a list of texts (`["a", "b"]`), as `format!("{:?}")` writes
/// it.
pub uninterp spec fn debug_list(items: Seq<Seq<char>>) -> Seq<char>;

/// `format!("{:?}", items)` for a list of texts, named `debug_list` (a
/// function of the texts alone).
#[verifier::external_body]
fn debug_text_list(items: &Vec<String>) -> (text: String)
    ensures
        text@ == debug_list(string_views(items@)),
{
    format!("{:?}", items)
}

pub open spec fn refuse(st: Allocation, finding: Emission) -> Allocation {
    Allocation { findings: st.findings.push(finding), ..st }
}

/// The connector kind a claim needs: the device package's, else the
/// attribute's.
pub open spec fn expected_kind(inputs: AllocationInputs, component: Component, table_kind: Seq<char>) -> Seq<char> {
    match entry(inputs.requirements, component.kind@) {
        Some(d) => match d.connector {
            Some(c) => c@,
            None => table_kind,
        },
        None => table_kind,
    }
}

pub open spec fn connector_ids(connectors: Seq<(String, Connector)>) -> Seq<Seq<char>> {
    connectors.map_values(|e: (String, Connector)| e.0@)
}

/// The connectors of a kind, as `controller.connector`, in connector order.
pub open spec fn kind_candidates(controller: Seq<char>, connectors: Seq<(String, Connector)>, kind: Seq<char>) -> Seq<
    Seq<char>,
>
    decreases connectors.len(),
{
    if connectors.len() == 0 {
        seq![]
    } else {
        let before = kind_candidates(controller, connectors.drop_last(), kind);
        if connectors.last().1.kind@ == kind {
            before.push(controller + "."@ + connectors.last().0@)
        } else {
            before
        }
    }
}

/// The unclaimed connectors of a kind, in connector order.
pub open spec fn free_connectors(
    claims: Seq<(Seq<char>, Seq<char>)>,
    controller: Seq<char>,
    connectors: Seq<(String, Connector)>,
    kind: Seq<char>,
) -> Seq<Seq<char>>
    decreases connectors.len(),
{
    if connectors.len() == 0 {
        seq![]
    } else {
        let before = free_connectors(claims, controller, connectors.drop_last(), kind);
        let target = controller + "."@ + connectors.last().0@;
        if connectors.last().1.kind@ == kind && lookup(claims, target) is None {
            before.push(target)
        } else {
            before
        }
    }
}

/// The first verdict for a component type on a connector.
pub open spec fn verdict_for(verdicts: Seq<BusVerdict>, kind: Seq<char>, target: Seq<char>) -> Option<
    Result<Seq<Seq<char>>, Seq<char>>,
>
    decreases verdicts.len(),
{
    if verdicts.len() == 0 {
        None
    } else if verdicts[0].kind@ == kind && verdicts[0].target@ == target {
        Some(
            match verdicts[0].verdict {
                Ok(e) => Ok(string_views(e@)),
                Err(r) => Err(r@),
            },
        )
    } else {
        verdict_for(verdicts.drop_first(), kind, target)
    }
}

/// A component type's bus requirement on a connector: its evidence, or
/// the bus kind and the reason it fails. A type without a bus requirement,
/// or without a verdict for the connector, has no evidence to add.
pub open spec fn bus_check(inputs: AllocationInputs, component: Component, target: Seq<char>) -> Result<
    Seq<Seq<char>>,
    (Seq<char>, Seq<char>),
> {
    match entry(inputs.requirements, component.kind@) {
        Some(d) => match d.bus {
            Some(bus) => match verdict_for(inputs.verdicts, component.kind@, target) {
                Some(Ok(e)) => Ok(e),
                Some(Err(r)) => Err((bus@, r)),
                None => Ok(seq![]),
            },
            None => Ok(seq![]),
        },
        None => Ok(seq![]),
    }
}

/// The first timer function (`tim...`) among a pin's functions.
pub open spec fn first_timer(functions: Seq<Seq<char>>) -> Option<Seq<char>>
    decreases functions.len(),
{
    if functions.len() == 0 {
        None
    } else if has_prefix(functions[0], "tim"@) {
        Some(functions[0])
    } else {
        first_timer(functions.drop_first())
    }
}

/// The MCU pin a connector routes its `step` signal to, or empty.
pub open spec fn step_pin(connector: Connector) -> Seq<char> {
    match entry(connector.pins@, "step"@) {
        Some(p) => p@,
        None => seq![],
    }
}

/// Step timing applies: the machine declares a step-rate budget and the
/// connector kind is a stepper driver socket.
pub open spec fn step_timed(inputs: AllocationInputs, kind: Seq<char>) -> bool {
    inputs.step_rate && kind == "stepper_driver_socket"@
}

/// The step signal of the connector a target names, when the chip table
/// gives its functions: those functions, the step pin, and the timer
/// channel (`controller.channel` and the channel) of its first timer
/// function, if it has one.
pub open spec fn timer_slot(inputs: AllocationInputs, board: BoardPackageFile, target: Seq<char>) -> Option<
    (Seq<Seq<char>>, Seq<char>, Option<(Seq<char>, Seq<char>)>),
> {
    match split_at_first(target, "."@) {
        Some((c, port)) => match entry(board.connectors@, port) {
            Some(conn) => match lookup(pin_capabilities(chip_functions(inputs.chips, c), conn), "step"@) {
                Some(fs) => Some(
                    (
                        fs,
                        step_pin(conn),
                        match first_timer(fs) {
                            Some(tok) => Some((c + "."@ + tok, tok)),
                            None => None,
                        },
                    ),
                ),
                None => None,
            },
            None => None,
        },
        None => None,
    }
}

/// The timer channel an allocation reserves for its step pin: its key,
/// the channel and the pin.
pub open spec fn reserved_timer(inputs: AllocationInputs, board: BoardPackageFile, kind: Seq<char>, target: Seq<char>) -> Option<
    (Seq<char>, Seq<char>, Seq<char>),
> {
    if step_timed(inputs, kind) {
        match timer_slot(inputs, board, target) {
            Some((_, pin, Some((key, tok)))) => Some((key, tok, pin)),
            _ => None,
        }
    } else {
        None
    }
}

/// The constraint a timer reservation adds.
pub open spec fn timer_lines(timer: Option<(Seq<char>, Seq<char>, Seq<char>)>) -> Seq<Seq<char>> {
    match timer {
        Some((_, tok, _)) => seq!["step pin on free timer channel "@ + tok + " (max_step_rate)"@],
        None => seq![],
    }
}

/// The reservations after a component takes a timer channel, if it does.
pub open spec fn timers_after(
    timers: Seq<(Seq<char>, (Seq<char>, Seq<char>))>,
    name: Seq<char>,
    timer: Option<(Seq<char>, Seq<char>, Seq<char>)>,
) -> Seq<(Seq<char>, (Seq<char>, Seq<char>))> {
    match timer {
        Some((key, _, pin)) => timers.push((key, (name, pin))),
        None => timers,
    }
}

/// A step-timed candidate is eligible only when its step pin has a timer
/// function whose channel nobody reserved; without a chip table there is
/// nothing to check.
pub open spec fn timer_free(
    st: Allocation,
    inputs: AllocationInputs,
    board: BoardPackageFile,
    kind: Seq<char>,
    target: Seq<char>,
) -> bool {
    !step_timed(inputs, kind) || match timer_slot(inputs, board, target) {
        None => true,
        Some((_, _, None)) => false,
        Some((_, _, Some((key, _)))) => lookup(st.timers, key) is None,
    }
}

/// An accepted explicit claim.
pub open spec fn claimed_explicitly(
    st: Allocation,
    inputs: AllocationInputs,
    name: Seq<char>,
    attr: Seq<char>,
    target: Seq<char>,
    expected: Seq<char>,
    controller: Seq<char>,
    connector: Connector,
    evidence: Seq<Seq<char>>,
    timer: Option<(Seq<char>, Seq<char>, Seq<char>)>,
) -> Allocation {
    Allocation {
        claims: st.claims.push((target, name)),
        timers: timers_after(st.timers, name, timer),
        pending: st.pending.push(
            AssignmentView {
                requested_by: name,
                via: attr,
                resource: target,
                connector_kind: connector.kind@,
                candidates: seq![target],
                constraints: seq![
                    "explicit claim of '"@ + target + "'"@,
                    "connector kind == "@ + expected,
                    "exclusive ownership"@,
                ] + evidence + timer_lines(timer),
                capabilities: pin_capabilities(chip_functions(inputs.chips, controller), connector),
            },
        ),
        ..st
    }
}

/// An explicit claim of `target` through attribute `attr`.
pub open spec fn claim_target(
    st: Allocation,
    inputs: AllocationInputs,
    name: Seq<char>,
    component: Component,
    attr: Seq<char>,
    table_kind: Seq<char>,
    target: Seq<char>,
) -> Allocation {
    let expected = expected_kind(inputs, component, table_kind);
    let path = "components."@ + name + "."@ + attr;
    match split_at_first(target, "."@) {
        None => refuse(
            st,
            error_at(
                "E1206"@,
                "component '"@ + name + "': '"@ + target + "' must name a controller port as 'controller.port'"@,
                path,
            ),
        ),
        Some((controller, port)) => match entry(inputs.boards, controller) {
            None => refuse(
                st,
                error_at(
                    "E1206"@,
                    "component '"@ + name + "': unknown controller '"@ + controller + "' in '"@ + target + "'"@,
                    path,
                ),
            ),
            Some(board) => match entry(board.connectors@, port) {
                None => refuse(
                    st,
                    suggested_error(
                        "E1201"@,
                        "component '"@ + name + "': controller '"@ + controller + "' has no connector '"@ + port
                            + "'"@,
                        path,
                        "available connectors: "@ + debug_list(connector_ids(board.connectors@)),
                    ),
                ),
                Some(connector) => if connector.kind@ != expected {
                    refuse(
                        st,
                        error_at(
                            "E1202"@,
                            "component '"@ + name + "': '"@ + target + "' is a "@ + connector.kind@
                                + " connector, but '"@ + attr + "' requires "@ + expected,
                            path,
                        ),
                    )
                } else {
                    match lookup(st.claims, target) {
                        Some(previous) => {
                            let free = free_connectors(st.claims, controller, board.connectors@, expected);
                            refuse(
                                st,
                                suggested_error(
                                    "E1200"@,
                                    "connector conflict: '"@ + target + "' is claimed by both '"@ + previous
                                        + "' and '"@ + name + "'"@,
                                    path,
                                    if free.len() == 0 {
                                        "no free "@ + expected + " connectors remain on '"@ + controller + "'"@
                                    } else {
                                        "move '"@ + name + "' to one of: "@ + joined(free, ", "@)
                                    },
                                ),
                            )
                        },
                        None => match bus_check(inputs, component, target) {
                            Err((bus, reason)) => refuse(
                                st,
                                error_at(
                                    "E1315"@,
                                    "component '"@ + name + "': device requires a "@ + bus + " bus on '"@ + target
                                        + "' \u{2014} "@ + reason,
                                    path,
                                ),
                            ),
                            Ok(evidence) => if step_timed(inputs, expected) {
                                match timer_slot(inputs, board, target) {
                                    Some((fs, pin, None)) => refuse(
                                        st,
                                        error_at(
                                            "E1310"@,
                                            "component '"@ + name + "': max_step_rate is declared, but '"@ + target
                                                + "' step pin "@ + pin + " has no timer function (capabilities: "@
                                                + joined(fs, ", "@) + ")"@,
                                            path,
                                        ),
                                    ),
                                    Some((_, pin, Some((key, tok)))) => match lookup(st.timers, key) {
                                        Some((other, other_pin)) => refuse(
                                            st,
                                            error_at(
                                                "E1314"@,
                                                "timer conflict: '"@ + name + "' (pin "@ + pin + ") and '"@ + other
                                                    + "' (pin "@ + other_pin + ") both need "@ + tok + " on '"@
                                                    + controller + "'"@,
                                                path,
                                            ),
                                        ),
                                        None => claimed_explicitly(
                                            st,
                                            inputs,
                                            name,
                                            attr,
                                            target,
                                            expected,
                                            controller,
                                            connector,
                                            evidence,
                                            Some((key, tok, pin)),
                                        ),
                                    },
                                    None => claimed_explicitly(
                                        st,
                                        inputs,
                                        name,
                                        attr,
                                        target,
                                        expected,
                                        controller,
                                        connector,
                                        evidence,
                                        None,
                                    ),
                                }
                            } else {
                                claimed_explicitly(
                                    st,
                                    inputs,
                                    name,
                                    attr,
                                    target,
                                    expected,
                                    controller,
                                    connector,
                                    evidence,
                                    None,
                                )
                            },
                        },
                    }
                },
            },
        },
    }
}

/// One attribute of a component: a text value of a claiming attribute is
/// an explicit claim.
pub open spec fn claim_attribute(
    st: Allocation,
    inputs: AllocationInputs,
    name: Seq<char>,
    component: Component,
    attr: Seq<char>,
    value: AttributeValue,
) -> Allocation {
    match value {
        AttributeValue::Text(target) => match claimed_kind(attr) {
            Some(table_kind) => claim_target(st, inputs, name, component, attr, table_kind, target@),
            None => st,
        },
        _ => st,
    }
}

pub open spec fn claim_attributes(
    st: Allocation,
    inputs: AllocationInputs,
    name: Seq<char>,
    component: Component,
    k: nat,
) -> Allocation
    decreases k,
{
    let attributes = component.attributes@;
    if k == 0 || k > attributes.len() {
        st
    } else {
        claim_attribute(
            claim_attributes(st, inputs, name, component, (k - 1) as nat),
            inputs,
            name,
            component,
            attributes[k - 1].0@,
            attributes[k - 1].1,
        )
    }
}

/// A component's explicit claims, filed under its name when there are any.
pub open spec fn claim_component(st: Allocation, inputs: AllocationInputs, name: Seq<char>, component: Component) -> Allocation {
    let after = claim_attributes(
        Allocation { pending: seq![], ..st },
        inputs,
        name,
        component,
        component.attributes@.len(),
    );
    if after.pending.len() > 0 {
        Allocation { assignments: put_sorted(after.assignments, name, after.pending), pending: seq![], ..after }
    } else {
        after
    }
}

pub open spec fn explicit_run(inputs: AllocationInputs, components: Seq<(String, Component)>, k: nat) -> Allocation
    decreases k,
{
    if k == 0 || k > components.len() {
        Allocation { claims: seq![], timers: seq![], assignments: seq![], pending: seq![], findings: seq![] }
    } else {
        claim_component(explicit_run(inputs, components, (k - 1) as nat), inputs, components[k - 1].0@, components[k - 1].1)
    }
}

/// The component claims a connector explicitly.
pub open spec fn explicitly_claimed(component: Component) -> bool {
    exists|i: int|
        0 <= i < component.attributes@.len() && claimed_kind((#[trigger] component.attributes@[i]).0@) is Some
            && component.attributes@[i].1 is Text
}

/// The connector named by `target` carries one of the required domains,
/// when there are any.
pub open spec fn domain_ok(domains: Seq<Seq<char>>, board: BoardPackageFile, target: Seq<char>) -> bool {
    domains.len() == 0 || match split_at_first(target, "."@) {
        Some((_, port)) => match entry(board.connectors@, port) {
            Some(c) => match c.voltage_domain {
                Some(v) => domains.contains(v@),
                None => false,
            },
            None => false,
        },
        None => false,
    }
}

/// A candidate is eligible when it is unclaimed, carries a required
/// domain, has a free step timer channel when step timing applies, and
/// meets the bus requirement.
pub open spec fn eligible(
    st: Allocation,
    inputs: AllocationInputs,
    component: Component,
    kind: Seq<char>,
    domains: Seq<Seq<char>>,
    board: BoardPackageFile,
    target: Seq<char>,
) -> bool {
    &&& lookup(st.claims, target) is None
    &&& domain_ok(domains, board, target)
    &&& timer_free(st, inputs, board, kind, target)
    &&& bus_check(inputs, component, target) is Ok
}

/// The first eligible candidate, in candidate order.
pub open spec fn first_eligible(
    st: Allocation,
    inputs: AllocationInputs,
    component: Component,
    kind: Seq<char>,
    domains: Seq<Seq<char>>,
    board: BoardPackageFile,
    candidates: Seq<Seq<char>>,
) -> Option<Seq<char>>
    decreases candidates.len(),
{
    if candidates.len() == 0 {
        None
    } else if eligible(st, inputs, component, kind, domains, board, candidates[0]) {
        Some(candidates[0])
    } else {
        first_eligible(st, inputs, component, kind, domains, board, candidates.drop_first())
    }
}

/// Capabilities of the connector a target names.
pub open spec fn target_capabilities(inputs: AllocationInputs, board: BoardPackageFile, target: Seq<char>) -> Seq<
    (Seq<char>, Seq<Seq<char>>),
> {
    match split_at_first(target, "."@) {
        Some((c, port)) => match entry(board.connectors@, port) {
            Some(connector) => pin_capabilities(chip_functions(inputs.chips, c), connector),
            None => seq![],
        },
        None => seq![],
    }
}

/// Search allocation of a component without an explicit claim whose
/// device package needs a connector kind: the first eligible connector of
/// that kind, in connector order, on its controller.
pub open spec fn search_component(st: Allocation, inputs: AllocationInputs, name: Seq<char>, component: Component) -> Allocation {
    if explicitly_claimed(component) {
        st
    } else {
        match entry(inputs.requirements, component.kind@) {
            None => st,
            Some(d) => match d.connector {
                None => st,
                Some(required) => {
                    let kind = required@;
                    let at = "components."@ + name;
                    let controller = match text_attribute(component, "controller"@) {
                        Some(c) => Some(c),
                        None => if inputs.controllers.len() == 1 {
                            Some(inputs.controllers[0].0@)
                        } else {
                            None
                        },
                    };
                    match controller {
                        None => refuse(
                            st,
                            error_at(
                                "E1203"@,
                                "component '"@ + name + "' needs a "@ + kind + " but the machine has "@ + decimal(
                                    inputs.controllers.len(),
                                ) + " controllers \u{2014} add 'controller: <name>' to disambiguate"@,
                                at,
                            ),
                        ),
                        Some(ctrl) => match entry(inputs.boards, ctrl) {
                            None => refuse(
                                st,
                                error_at(
                                    "E1204"@,
                                    "component '"@ + name + "': unknown controller '"@ + ctrl + "'"@,
                                    at + ".controller"@,
                                ),
                            ),
                            Some(board) => {
                                let candidates = kind_candidates(ctrl, board.connectors@, kind);
                                let domains = string_views(d.domains@);
                                match first_eligible(st, inputs, component, kind, domains, board, candidates) {
                                    None => refuse(
                                        st,
                                        error_at(
                                            "E1205"@,
                                            "component '"@ + name + "': no free "@ + kind + " connector on '"@ + ctrl
                                                + "' (considered: "@ + (if candidates.len() == 0 {
                                                "none of that kind"@
                                            } else {
                                                joined(candidates, ", "@)
                                            }) + ")"@,
                                            at,
                                        ),
                                    ),
                                    Some(target) => {
                                        let evidence = match bus_check(inputs, component, target) {
                                            Ok(e) => e,
                                            Err(_) => seq![],
                                        };
                                        let timer = reserved_timer(inputs, board, kind, target);
                                        let view = AssignmentView {
                                            requested_by: name,
                                            via: "requires.connector ("@ + d.reference@ + ")"@,
                                            resource: target,
                                            connector_kind: kind,
                                            candidates,
                                            constraints: seq![
                                                "connector kind == "@ + kind,
                                                "first free candidate in stable connector order"@,
                                                "exclusive ownership"@,
                                            ] + (if domains.len() == 0 {
                                                seq![]
                                            } else {
                                                seq!["voltage domain in ["@ + joined(domains, ", "@) + "]"@]
                                            }) + evidence + timer_lines(timer),
                                            capabilities: target_capabilities(inputs, board, target),
                                        };
                                        Allocation {
                                            claims: st.claims.push((target, name)),
                                            timers: timers_after(st.timers, name, timer),
                                            assignments: put_sorted(st.assignments, name, seq![view]),
                                            ..st
                                        }
                                    },
                                }
                            },
                        },
                    }
                },
            },
        }
    }
}

pub open spec fn search_run(
    start: Allocation,
    inputs: AllocationInputs,
    components: Seq<(String, Component)>,
    k: nat,
) -> Allocation
    decreases k,
{
    if k == 0 || k > components.len() {
        start
    } else {
        search_component(search_run(start, inputs, components, (k - 1) as nat), inputs, components[k - 1].0@, components[k - 1].1)
    }
}

/// Allocation: every explicit claim in component order, then search
/// allocation in component order over the same claims.
pub open spec fn allocation(inputs: AllocationInputs, components: Seq<(String, Component)>) -> Allocation {
    search_run(explicit_run(inputs, components, components.len()), inputs, components, components.len())
}

/// Some diagnostic of the list is an error.
pub open spec fn has_error(ds: Seq<Diagnostic>) -> bool {
    exists|i: int| 0 <= i < ds.len() && (#[trigger] ds[i]).severity == Severity::Error
}

pub(crate) fn any_error(ds: &Vec<Diagnostic>) -> (found: bool)
    ensures
        found == has_error(ds@),
{
    let mut i: usize = 0;
    while i < ds.len()
        invariant
            i <= ds@.len(),
            forall|j: int| 0 <= j < i ==> (#[trigger] ds@[j]).severity != Severity::Error,
        decreases ds@.len() - i,
    {
        if ds[i].severity == Severity::Error {
            return true;
        }
        i = i + 1;
    }
    false
}

// ---------------------------------------------------------------------------
// Allocation in code
// ---------------------------------------------------------------------------

/// The allocation inputs of a machine.
pub open spec fn inputs_of(
    doc: MachineDoc,
    targets: ControllerTargets,
    requirements: Seq<(String, DeviceRequirement)>,
    verdicts: Seq<BusVerdict>,
) -> AllocationInputs {
    AllocationInputs {
        boards: targets.boards@,
        chips: targets.chips@,
        requirements,
        verdicts,
        controllers: doc.controllers@,
        step_rate: entry(doc.kinematics.limits@, "max_step_rate"@) is Some,
    }
}

/// Timer reservations as texts.
pub open spec fn timer_views(t: Seq<(String, (String, String))>) -> Seq<(Seq<char>, (Seq<char>, Seq<char>))> {
    t.map_values(|e: (String, (String, String))| (e.0@, (e.1.0@, e.1.1@)))
}

/// The claims, assignments, pending assignments and findings in code
/// match the state.
pub open spec fn matches(
    st: Allocation,
    claims: Seq<(String, String)>,
    timers: Seq<(String, (String, String))>,
    table: Seq<(String, Vec<Assignment>)>,
    pending: Seq<Assignment>,
    out: Seq<Diagnostic>,
) -> bool {
    &&& text_values(keyed(claims)) == st.claims
    &&& timer_views(timers) == st.timers
    &&& assignment_table(table) == st.assignments
    &&& assignment_views(pending) == st.pending
    &&& emitted(out, st.findings)
}

fn emit_suggested(
    out: &mut Vec<Diagnostic>,
    Ghost(items): Ghost<Seq<Emission>>,
    code: &str,
    message: String,
    path: String,
    suggestion: String,
)
    requires
        emitted(old(out)@, items),
    ensures
        emitted(final(out)@, items.push(suggested_error(code@, message@, path@, suggestion@))),
{
    let ghost before = out@;
    let ghost e = suggested_error(code@, message@, path@, suggestion@);
    crate::resolver::targets::emit(out, Severity::Error, code, message, Some(path), Some(suggestion));
    assert(out@.drop_last() =~= before);
    assert(items.push(e).drop_last() =~= items);
}

fn connector_ids_of(connectors: &Vec<(String, Connector)>) -> (ids: Vec<String>)
    ensures
        string_views(ids@) == connector_ids(connectors@),
{
    let mut ids: Vec<String> = Vec::new();
    let mut i: usize = 0;
    while i < connectors.len()
        invariant
            i <= connectors@.len(),
            string_views(ids@) == connector_ids(connectors@).subrange(0, i as int),
        decreases connectors@.len() - i,
    {
        let ghost before = ids@;
        ids.push(connectors[i].0.clone());
        assert(string_views(ids@) =~= string_views(before).push(connectors@[i as int].0@));
        assert(connector_ids(connectors@).subrange(0, i + 1) =~= connector_ids(connectors@).subrange(0, i as int).push(
            connectors@[i as int].0@,
        ));
        i = i + 1;
    }
    assert(connector_ids(connectors@).subrange(0, connectors@.len() as int) =~= connector_ids(connectors@));
    ids
}

fn dotted(controller: &str, id: &str) -> (text: String)
    ensures
        text@ == controller@ + "."@ + id@,
{
    let mut text = controller.to_owned();
    push_str(&mut text, ".");
    push_str(&mut text, id);
    text
}

proof fn lemma_lookup_timers(table: Seq<(String, (String, String))>, key: Seq<char>)
    ensures
        lookup(timer_views(table), key) == match lookup(keyed(table), key) {
            Some(v) => Some((v.0@, v.1@)),
            None => None::<(Seq<char>, Seq<char>)>,
        },
    decreases table.len(),
{
    if table.len() > 0 {
        assert(timer_views(table).drop_first() =~= timer_views(table.drop_first()));
        assert(keyed(table).drop_first() =~= keyed(table.drop_first()));
        lemma_lookup_timers(table.drop_first(), key);
    }
}

fn first_timer_of(functions: &Vec<String>) -> (found: Option<&String>)
    ensures
        match found {
            Some(t) => first_timer(string_views(functions@)) == Some(t@),
            None => first_timer(string_views(functions@)) is None,
        },
{
    let ghost all = string_views(functions@);
    let mut i: usize = 0;
    assert(all.subrange(0, all.len() as int) =~= all);
    while i < functions.len()
        invariant
            i <= functions@.len(),
            all == string_views(functions@),
            first_timer(all) == first_timer(all.subrange(i as int, all.len() as int)),
        decreases functions@.len() - i,
    {
        proof {
            let rest = all.subrange(i as int, all.len() as int);
            assert(rest.drop_first() =~= all.subrange(i + 1, all.len() as int));
            assert(rest[0] == functions@[i as int]@);
        }
        if starts_with(functions[i].as_str(), "tim") {
            return Some(&functions[i]);
        }
        i = i + 1;
    }
    None
}

fn step_pin_of(connector: &Connector) -> (pin: String)
    ensures
        pin@ == step_pin(*connector),
{
    match find_entry(&connector.pins, "step") {
        Some(p) => p.clone(),
        None => String::new(),
    }
}

/// A timer reservation in code, as texts.
pub open spec fn timer_text(t: Option<(String, String, String)>) -> Option<(Seq<char>, Seq<char>, Seq<char>)> {
    match t {
        Some((key, tok, pin)) => Some((key@, tok@, pin@)),
        None => None,
    }
}

/// The view of a timer slot in code.
pub open spec fn slot_view(slot: Option<(Vec<String>, String, Option<(String, String)>)>) -> Option<
    (Seq<Seq<char>>, Seq<char>, Option<(Seq<char>, Seq<char>)>),
> {
    match slot {
        Some((fs, pin, t)) => Some(
            (
                string_views(fs@),
                pin@,
                match t {
                    Some((key, tok)) => Some((key@, tok@)),
                    None => None,
                },
            ),
        ),
        None => None,
    }
}

fn timer_slot_of(targets: &ControllerTargets, board: &BoardPackageFile, target: &str, Ghost(inputs): Ghost<
    AllocationInputs,
>) -> (slot: Option<(Vec<String>, String, Option<(String, String)>)>)
    requires
        inputs.chips == targets.chips@,
    ensures
        slot_view(slot) == timer_slot(inputs, *board, target@),
{
    let (c, port) = match split_once(target, ".") {
        Some(parts) => parts,
        None => return None,
    };
    let conn = match find_entry(&board.connectors, port) {
        Some(x) => x,
        None => return None,
    };
    let caps = derive_pin_capabilities(find_entry(&targets.chips, c), conn);
    proof {
        lemma_lookup_lists(caps@, "step"@);
    }
    let fs = match get(&caps, "step") {
        Some(fs) => fs,
        None => return None,
    };
    let pin = step_pin_of(conn);
    let t = match first_timer_of(fs) {
        Some(tok) => Some((dotted(c, tok.as_str()), tok.clone())),
        None => None,
    };
    Some((copy_texts(fs), pin, t))
}

fn timer_fits(
    timers: &Vec<(String, (String, String))>,
    Ghost(st): Ghost<Allocation>,
    Ghost(inputs): Ghost<AllocationInputs>,
    targets: &ControllerTargets,
    step_rate: bool,
    board: &BoardPackageFile,
    kind: &str,
    target: &str,
) -> (fits: bool)
    requires
        inputs.chips == targets.chips@,
        inputs.step_rate == step_rate,
        timer_views(timers@) == st.timers,
    ensures
        fits == timer_free(st, inputs, *board, kind@, target@),
{
    if !(step_rate && str_eq(kind, "stepper_driver_socket")) {
        return true;
    }
    match timer_slot_of(targets, board, target, Ghost(inputs)) {
        None => true,
        Some((_, _, None)) => false,
        Some((_, _, Some((key, _)))) => {
            proof {
                lemma_lookup_timers(timers@, key@);
            }
            get(timers, key.as_str()).is_none()
        },
    }
}

fn kind_candidates_of(controller: &str, connectors: &Vec<(String, Connector)>, kind: &str) -> (found: Vec<String>)
    ensures
        string_views(found@) == kind_candidates(controller@, connectors@, kind@),
{
    let mut found: Vec<String> = Vec::new();
    let mut i: usize = 0;
    assert(connectors@.subrange(0, 0) =~= Seq::<(String, Connector)>::empty());
    while i < connectors.len()
        invariant
            i <= connectors@.len(),
            string_views(found@) == kind_candidates(controller@, connectors@.subrange(0, i as int), kind@),
        decreases connectors@.len() - i,
    {
        assert(connectors@.subrange(0, i + 1).drop_last() =~= connectors@.subrange(0, i as int));
        if str_eq(connectors[i].1.kind.as_str(), kind) {
            let ghost before = found@;
            found.push(dotted(controller, connectors[i].0.as_str()));
            assert(string_views(found@) =~= string_views(before).push(found@.last()@));
        }
        i = i + 1;
    }
    assert(connectors@.subrange(0, connectors@.len() as int) =~= connectors@);
    found
}

fn free_connectors_of(
    claims: &Vec<(String, String)>,
    controller: &str,
    connectors: &Vec<(String, Connector)>,
    kind: &str,
) -> (found: Vec<String>)
    ensures
        string_views(found@) == free_connectors(text_values(keyed(claims@)), controller@, connectors@, kind@),
{
    let ghost owners = text_values(keyed(claims@));
    let mut found: Vec<String> = Vec::new();
    let mut i: usize = 0;
    assert(connectors@.subrange(0, 0) =~= Seq::<(String, Connector)>::empty());
    while i < connectors.len()
        invariant
            i <= connectors@.len(),
            owners == text_values(keyed(claims@)),
            string_views(found@) == free_connectors(owners, controller@, connectors@.subrange(0, i as int), kind@),
        decreases connectors@.len() - i,
    {
        assert(connectors@.subrange(0, i + 1).drop_last() =~= connectors@.subrange(0, i as int));
        if str_eq(connectors[i].1.kind.as_str(), kind) {
            let target = dotted(controller, connectors[i].0.as_str());
            proof {
                crate::resolver::packages::lemma_lookup_texts(claims@, target@);
            }
            if get(claims, target.as_str()).is_none() {
                let ghost before = found@;
                let ghost t = target@;
                found.push(target);
                assert(string_views(found@) =~= string_views(before).push(t));
            }
        }
        i = i + 1;
    }
    assert(connectors@.subrange(0, connectors@.len() as int) =~= connectors@);
    found
}

fn check_bus(
    Ghost(inputs): Ghost<AllocationInputs>,
    requirements: &Vec<(String, DeviceRequirement)>,
    verdicts: &Vec<BusVerdict>,
    component: &Component,
    target: &str,
) -> (result: Result<Vec<String>, (String, String)>)
    requires
        inputs.requirements == requirements@,
        inputs.verdicts == verdicts@,
    ensures
        match bus_check(inputs, *component, target@) {
            Ok(e) => result matches Ok(v) && string_views(v@) == e,
            Err((b, m)) => result matches Err((x, y)) && x@ == b && y@ == m,
        },
{
    let d = match find_entry(requirements, component.kind.as_str()) {
        Some(d) => d,
        None => {
            let none: Vec<String> = Vec::new();
            assert(string_views(none@) =~= Seq::<Seq<char>>::empty());
            return Ok(none);
        },
    };
    let bus = match &d.bus {
        Some(b) => b,
        None => {
            let none: Vec<String> = Vec::new();
            assert(string_views(none@) =~= Seq::<Seq<char>>::empty());
            return Ok(none);
        },
    };
    let kind = component.kind.as_str();
    let mut i: usize = 0;
    assert(verdicts@.subrange(0, verdicts@.len() as int) =~= verdicts@);
    while i < verdicts.len()
        invariant
            i <= verdicts@.len(),
            inputs.requirements == requirements@,
            inputs.verdicts == verdicts@,
            kind@ == component.kind@,
            entry(requirements@, kind@) == Some(*d),
            d.bus == Some(*bus),
            verdict_for(verdicts@, kind@, target@) == verdict_for(
                verdicts@.subrange(i as int, verdicts@.len() as int),
                kind@,
                target@,
            ),
        decreases verdicts@.len() - i,
    {
        proof {
            let rest = verdicts@.subrange(i as int, verdicts@.len() as int);
            assert(rest.drop_first() =~= verdicts@.subrange(i + 1, verdicts@.len() as int));
            assert(rest[0] == verdicts@[i as int]);
        }
        if str_eq(verdicts[i].kind.as_str(), kind) && str_eq(verdicts[i].target.as_str(), target) {
            assert(verdict_for(verdicts@, kind@, target@) == Some(
                match verdicts@[i as int].verdict {
                    Ok(e) => Ok(string_views(e@)),
                    Err(r) => Err(r@),
                },
            ));
            match &verdicts[i].verdict {
                Ok(e) => {
                    let copy = copy_texts(e);
                    assert(string_views(copy@) == string_views(e@));
                    return Ok(copy);
                },
                Err(r) => {
                    let b = bus.clone();
                    let m = r.clone();
                    return Err((b, m));
                },
            }
        }
        i = i + 1;
    }
    let none: Vec<String> = Vec::new();
    assert(string_views(none@) =~= Seq::<Seq<char>>::empty());
    Ok(none)
}

fn append_texts(list: &mut Vec<String>, more: Vec<String>)
    ensures
        string_views(final(list)@) == string_views(old(list)@) + string_views(more@),
{
    let ghost a = list@;
    let ghost b = more@;
    let mut more = more;
    list.append(&mut more);
    assert(string_views(list@) =~= string_views(a) + string_views(b));
}

fn claim_explicit(
    claims: &mut Vec<(String, String)>,
    timers: &mut Vec<(String, (String, String))>,
    pending: &mut Vec<Assignment>,
    out: &mut Vec<Diagnostic>,
    Ghost(st): Ghost<Allocation>,
    Ghost(inputs): Ghost<AllocationInputs>,
    targets: &ControllerTargets,
    requirements: &Vec<(String, DeviceRequirement)>,
    verdicts: &Vec<BusVerdict>,
    name: &str,
    component: &Component,
    attr: &str,
    table_kind: &str,
    target: &str,
    step_rate: bool,
)
    requires
        inputs.boards == targets.boards@,
        inputs.chips == targets.chips@,
        inputs.requirements == requirements@,
        inputs.verdicts == verdicts@,
        inputs.step_rate == step_rate,
        text_values(keyed(old(claims)@)) == st.claims,
        timer_views(old(timers)@) == st.timers,
        assignment_views(old(pending)@) == st.pending,
        emitted(old(out)@, st.findings),
    ensures
        ({
            let next = claim_target(st, inputs, name@, *component, attr@, table_kind@, target@);
            &&& text_values(keyed(final(claims)@)) == next.claims
            &&& timer_views(final(timers)@) == next.timers
            &&& assignment_views(final(pending)@) == next.pending
            &&& emitted(final(out)@, next.findings)
        }),
{
    let expected: String = match find_entry(requirements, component.kind.as_str()) {
        Some(d) => match &d.connector {
            Some(c) => c.clone(),
            None => table_kind.to_owned(),
        },
        None => table_kind.to_owned(),
    };
    assert(expected@ == expected_kind(inputs, *component, table_kind@));
    let mut path = "components.".to_owned();
    push_str(&mut path, name);
    push_str(&mut path, ".");
    push_str(&mut path, attr);
    let (controller, port) = match split_once(target, ".") {
        Some(parts) => parts,
        None => {
            let mut message = "component '".to_owned();
            push_str(&mut message, name);
            push_str(&mut message, "': '");
            push_str(&mut message, target);
            push_str(&mut message, "' must name a controller port as 'controller.port'");
            emit_after(out, Ghost(st.findings), Severity::Error, "E1206", message, Some(path));
            return ;
        },
    };
    let board = match find_entry(&targets.boards, controller) {
        Some(b) => b,
        None => {
            let mut message = "component '".to_owned();
            push_str(&mut message, name);
            push_str(&mut message, "': unknown controller '");
            push_str(&mut message, controller);
            push_str(&mut message, "' in '");
            push_str(&mut message, target);
            push_str(&mut message, "'");
            emit_after(out, Ghost(st.findings), Severity::Error, "E1206", message, Some(path));
            return ;
        },
    };
    let connector = match find_entry(&board.connectors, port) {
        Some(c) => c,
        None => {
            let mut message = "component '".to_owned();
            push_str(&mut message, name);
            push_str(&mut message, "': controller '");
            push_str(&mut message, controller);
            push_str(&mut message, "' has no connector '");
            push_str(&mut message, port);
            push_str(&mut message, "'");
            let ids = connector_ids_of(&board.connectors);
            let listed = debug_text_list(&ids);
            let mut suggestion = "available connectors: ".to_owned();
            push_str(&mut suggestion, listed.as_str());
            emit_suggested(out, Ghost(st.findings), "E1201", message, path, suggestion);
            return ;
        },
    };
    if !str_eq(connector.kind.as_str(), expected.as_str()) {
        let mut message = "component '".to_owned();
        push_str(&mut message, name);
        push_str(&mut message, "': '");
        push_str(&mut message, target);
        push_str(&mut message, "' is a ");
        push_str(&mut message, connector.kind.as_str());
        push_str(&mut message, " connector, but '");
        push_str(&mut message, attr);
        push_str(&mut message, "' requires ");
        push_str(&mut message, expected.as_str());
        emit_after(out, Ghost(st.findings), Severity::Error, "E1202", message, Some(path));
        return ;
    }
    proof {
        crate::resolver::packages::lemma_lookup_texts(claims@, target@);
    }
    match get(claims, target) {
        Some(previous) => {
            let free = free_connectors_of(claims, controller, &board.connectors, expected.as_str());
            let mut message = "connector conflict: '".to_owned();
            push_str(&mut message, target);
            push_str(&mut message, "' is claimed by both '");
            push_str(&mut message, previous.as_str());
            push_str(&mut message, "' and '");
            push_str(&mut message, name);
            push_str(&mut message, "'");
            let suggestion = if free.len() == 0 {
                let mut s = "no free ".to_owned();
                push_str(&mut s, expected.as_str());
                push_str(&mut s, " connectors remain on '");
                push_str(&mut s, controller);
                push_str(&mut s, "'");
                s
            } else {
                let mut s = "move '".to_owned();
                push_str(&mut s, name);
                push_str(&mut s, "' to one of: ");
                let listed = join(&free, ", ");
                push_str(&mut s, listed.as_str());
                s
            };
            emit_suggested(out, Ghost(st.findings), "E1200", message, path, suggestion);
            return ;
        },
        None => {},
    }
    let evidence = match check_bus(Ghost(inputs), requirements, verdicts, component, target) {
        Ok(e) => e,
        Err((bus, reason)) => {
            let mut message = "component '".to_owned();
            push_str(&mut message, name);
            push_str(&mut message, "': device requires a ");
            push_str(&mut message, bus.as_str());
            push_str(&mut message, " bus on '");
            push_str(&mut message, target);
            push_str(&mut message, "' \u{2014} ");
            push_str(&mut message, reason.as_str());
            emit_after(out, Ghost(st.findings), Severity::Error, "E1315", message, Some(path));
            return ;
        },
    };
    let mut timer: Option<(String, String, String)> = None;
    if step_rate && str_eq(expected.as_str(), "stepper_driver_socket") {
        match timer_slot_of(targets, board, target, Ghost(inputs)) {
            None => {},
            Some((fs, pin, None)) => {
                let mut message = "component '".to_owned();
                push_str(&mut message, name);
                push_str(&mut message, "': max_step_rate is declared, but '");
                push_str(&mut message, target);
                push_str(&mut message, "' step pin ");
                push_str(&mut message, pin.as_str());
                push_str(&mut message, " has no timer function (capabilities: ");
                let listed = join(&fs, ", ");
                push_str(&mut message, listed.as_str());
                push_str(&mut message, ")");
                emit_after(out, Ghost(st.findings), Severity::Error, "E1310", message, Some(path));
                return ;
            },
            Some((_, pin, Some((key, tok)))) => {
                proof {
                    lemma_lookup_timers(timers@, key@);
                }
                match get(timers, key.as_str()) {
                    Some(other) => {
                        let mut message = "timer conflict: '".to_owned();
                        push_str(&mut message, name);
                        push_str(&mut message, "' (pin ");
                        push_str(&mut message, pin.as_str());
                        push_str(&mut message, ") and '");
                        push_str(&mut message, other.0.as_str());
                        push_str(&mut message, "' (pin ");
                        push_str(&mut message, other.1.as_str());
                        push_str(&mut message, ") both need ");
                        push_str(&mut message, tok.as_str());
                        push_str(&mut message, " on '");
                        push_str(&mut message, controller);
                        push_str(&mut message, "'");
                        emit_after(out, Ghost(st.findings), Severity::Error, "E1314", message, Some(path));
                        return ;
                    },
                    None => {
                        timer = Some((key, tok, pin));
                    },
                }
            },
        }
    }
    let ghost timer_view = timer_text(timer);
    let caps = derive_pin_capabilities(find_entry(&targets.chips, controller), connector);
    let mut constraints: Vec<String> = Vec::new();
    let mut first = "explicit claim of '".to_owned();
    push_str(&mut first, target);
    push_str(&mut first, "'");
    constraints.push(first);
    let mut second = "connector kind == ".to_owned();
    push_str(&mut second, expected.as_str());
    constraints.push(second);
    constraints.push("exclusive ownership".to_owned());
    let ghost head = string_views(constraints@);
    append_texts(&mut constraints, evidence);
    let ghost with_evidence = string_views(constraints@);
    match &timer {
        Some((_, tok, _)) => {
            let mut line = "step pin on free timer channel ".to_owned();
            push_str(&mut line, tok.as_str());
            push_str(&mut line, " (max_step_rate)");
            constraints.push(line);
            assert(string_views(constraints@) =~= with_evidence + timer_lines(timer_view));
        },
        None => {
            assert(string_views(constraints@) =~= with_evidence + timer_lines(timer_view));
        },
    }
    let mut candidates: Vec<String> = Vec::new();
    candidates.push(target.to_owned());
    let assignment = Assignment {
        requested_by: name.to_owned(),
        via: attr.to_owned(),
        resource: ResourceId(target.to_owned()),
        connector_kind: connector.kind.clone(),
        candidates_considered: candidates,
        constraints_applied: constraints,
        pin_capabilities: caps,
    };
    assert(head =~= seq![
        "explicit claim of '"@ + target@ + "'"@,
        "connector kind == "@ + expected@,
        "exclusive ownership"@,
    ]);
    assert(string_views(assignment.candidates_considered@) =~= seq![target@]);
    let ghost before_claims = claims@;
    let ghost before_pending = pending@;
    let ghost before_timers = timers@;
    claims.push((target.to_owned(), name.to_owned()));
    assert(text_values(keyed(claims@)) =~= text_values(keyed(before_claims)).push((target@, name@)));
    match timer {
        Some((key, _, pin)) => {
            timers.push((key, (name.to_owned(), pin)));
            assert(timer_views(timers@) =~= timers_after(timer_views(before_timers), name@, timer_view));
        },
        None => {},
    }
    pending.push(assignment);
    assert(assignment_views(pending@) =~= assignment_views(before_pending).push(assignment_view(assignment)));
}

fn claim_component_exec(
    claims: &mut Vec<(String, String)>,
    timers: &mut Vec<(String, (String, String))>,
    table: &mut Vec<(String, Vec<Assignment>)>,
    out: &mut Vec<Diagnostic>,
    Ghost(st): Ghost<Allocation>,
    Ghost(inputs): Ghost<AllocationInputs>,
    targets: &ControllerTargets,
    requirements: &Vec<(String, DeviceRequirement)>,
    verdicts: &Vec<BusVerdict>,
    name: &String,
    component: &Component,
    step_rate: bool,
)
    requires
        inputs.boards == targets.boards@,
        inputs.chips == targets.chips@,
        inputs.requirements == requirements@,
        inputs.verdicts == verdicts@,
        inputs.step_rate == step_rate,
        matches(st, old(claims)@, old(timers)@, old(table)@, seq![], old(out)@),
        st.pending.len() == 0,
    ensures
        matches(
            claim_component(st, inputs, name@, *component),
            final(claims)@,
            final(timers)@,
            final(table)@,
            seq![],
            final(out)@,
        ),
        claim_component(st, inputs, name@, *component).pending.len() == 0,
{
    let ghost start = Allocation { pending: seq![], ..st };
    let mut pending: Vec<Assignment> = Vec::new();
    let mut i: usize = 0;
    assert(assignment_views(pending@) =~= Seq::<AssignmentView>::empty());
    while i < component.attributes.len()
        invariant
            i <= component.attributes@.len(),
            inputs.boards == targets.boards@,
            inputs.chips == targets.chips@,
            inputs.requirements == requirements@,
            inputs.verdicts == verdicts@,
            inputs.step_rate == step_rate,
            start == (Allocation { pending: seq![], ..st }),
            ({
                let cur = claim_attributes(start, inputs, name@, *component, i as nat);
                &&& text_values(keyed(claims@)) == cur.claims
                &&& timer_views(timers@) == cur.timers
                &&& assignment_table(table@) == cur.assignments
                &&& assignment_views(pending@) == cur.pending
                &&& emitted(out@, cur.findings)
            }),
        decreases component.attributes@.len() - i,
    {
        let ghost cur = claim_attributes(start, inputs, name@, *component, i as nat);
        let attr = component.attributes[i].0.as_str();
        match &component.attributes[i].1 {
            AttributeValue::Text(target) => match claim_kind(attr) {
                Some(table_kind) => {
                    claim_explicit(
                        claims,
                        timers,
                        &mut pending,
                        out,
                        Ghost(cur),
                        Ghost(inputs),
                        targets,
                        requirements,
                        verdicts,
                        name.as_str(),
                        component,
                        attr,
                        table_kind,
                        target.as_str(),
                        step_rate,
                    );
                },
                None => {},
            },
            _ => {},
        }
        i = i + 1;
    }
    let ghost after = claim_attributes(start, inputs, name@, *component, component.attributes@.len());
    assert(assignment_views(Seq::<Assignment>::empty()) =~= Seq::<AssignmentView>::empty());
    if pending.len() > 0 {
        let ghost before = table@;
        let ghost value = pending;
        put(table, name.clone(), pending);
        proof {
            lemma_assignments_put(keyed(before), name@, value);
        }
    } else {
        assert(after.pending =~= Seq::<AssignmentView>::empty());
    }
}

fn claims_explicitly(component: &Component) -> (claimed: bool)
    ensures
        claimed == explicitly_claimed(*component),
{
    let mut i: usize = 0;
    while i < component.attributes.len()
        invariant
            i <= component.attributes@.len(),
            forall|j: int|
                0 <= j < i ==> !(claimed_kind((#[trigger] component.attributes@[j]).0@) is Some
                    && component.attributes@[j].1 is Text),
        decreases component.attributes@.len() - i,
    {
        if claim_kind(component.attributes[i].0.as_str()).is_some() {
            match &component.attributes[i].1 {
                AttributeValue::Text(_) => {
                    return true;
                },
                _ => {},
            }
        }
        i = i + 1;
    }
    false
}

fn domain_fits(domains: &Vec<String>, board: &BoardPackageFile, target: &str) -> (fits: bool)
    ensures
        fits == domain_ok(string_views(domains@), *board, target@),
{
    if domains.len() == 0 {
        return true;
    }
    match split_once(target, ".") {
        None => false,
        Some((_, port)) => match find_entry(&board.connectors, port) {
            None => false,
            Some(c) => match &c.voltage_domain {
                Some(v) => crate::resolver::safety::contains_text(domains, v.as_str()),
                None => false,
            },
        },
    }
}

fn capabilities_of(targets: &ControllerTargets, board: &BoardPackageFile, target: &str, Ghost(inputs): Ghost<
    AllocationInputs,
>) -> (caps: Vec<(String, Vec<String>)>)
    requires
        inputs.chips == targets.chips@,
    ensures
        capability_views(caps@) == target_capabilities(inputs, *board, target@),
{
    match split_once(target, ".") {
        Some((c, port)) => match find_entry(&board.connectors, port) {
            Some(connector) => derive_pin_capabilities(find_entry(&targets.chips, c), connector),
            None => {
                let none: Vec<(String, Vec<String>)> = Vec::new();
                assert(capability_views(none@) =~= Seq::<(Seq<char>, Seq<Seq<char>>)>::empty());
                none
            },
        },
        None => {
            let none: Vec<(String, Vec<String>)> = Vec::new();
            assert(capability_views(none@) =~= Seq::<(Seq<char>, Seq<Seq<char>>)>::empty());
            none
        },
    }
}

fn choose_candidate(
    claims: &Vec<(String, String)>,
    timers: &Vec<(String, (String, String))>,
    Ghost(st): Ghost<Allocation>,
    Ghost(inputs): Ghost<AllocationInputs>,
    targets: &ControllerTargets,
    step_rate: bool,
    requirements: &Vec<(String, DeviceRequirement)>,
    verdicts: &Vec<BusVerdict>,
    component: &Component,
    kind: &str,
    domains: &Vec<String>,
    board: &BoardPackageFile,
    candidates: &Vec<String>,
) -> (chosen: Option<usize>)
    requires
        inputs.requirements == requirements@,
        inputs.verdicts == verdicts@,
        inputs.chips == targets.chips@,
        inputs.step_rate == step_rate,
        text_values(keyed(claims@)) == st.claims,
        timer_views(timers@) == st.timers,
    ensures
        match chosen {
            Some(i) => i < candidates@.len() && first_eligible(
                st,
                inputs,
                *component,
                kind@,
                string_views(domains@),
                *board,
                string_views(candidates@),
            ) == Some(candidates@[i as int]@),
            None => first_eligible(
                st,
                inputs,
                *component,
                kind@,
                string_views(domains@),
                *board,
                string_views(candidates@),
            ) is None,
        },
{
    let ghost all = string_views(candidates@);
    let ghost ds = string_views(domains@);
    let mut i: usize = 0;
    assert(all.subrange(0, all.len() as int) =~= all);
    while i < candidates.len()
        invariant
            i <= candidates@.len(),
            all == string_views(candidates@),
            ds == string_views(domains@),
            inputs.requirements == requirements@,
            inputs.verdicts == verdicts@,
            inputs.chips == targets.chips@,
            inputs.step_rate == step_rate,
            text_values(keyed(claims@)) == st.claims,
            timer_views(timers@) == st.timers,
            first_eligible(st, inputs, *component, kind@, ds, *board, all) == first_eligible(
                st,
                inputs,
                *component,
                kind@,
                ds,
                *board,
                all.subrange(i as int, all.len() as int),
            ),
        decreases candidates@.len() - i,
    {
        proof {
            let rest = all.subrange(i as int, all.len() as int);
            assert(rest.drop_first() =~= all.subrange(i + 1, all.len() as int));
            assert(rest[0] == candidates@[i as int]@);
            crate::resolver::packages::lemma_lookup_texts(claims@, candidates@[i as int]@);
        }
        let t = candidates[i].as_str();
        if get(claims, t).is_none() && domain_fits(domains, board, t) && timer_fits(
            timers,
            Ghost(st),
            Ghost(inputs),
            targets,
            step_rate,
            board,
            kind,
            t,
        ) && check_bus(
            Ghost(inputs),
            requirements,
            verdicts,
            component,
            t,
        ).is_ok() {
            return Some(i);
        }
        i = i + 1;
    }
    None
}

fn search_component_exec(
    claims: &mut Vec<(String, String)>,
    timers: &mut Vec<(String, (String, String))>,
    table: &mut Vec<(String, Vec<Assignment>)>,
    out: &mut Vec<Diagnostic>,
    Ghost(st): Ghost<Allocation>,
    Ghost(inputs): Ghost<AllocationInputs>,
    doc: &MachineDoc,
    targets: &ControllerTargets,
    requirements: &Vec<(String, DeviceRequirement)>,
    verdicts: &Vec<BusVerdict>,
    name: &String,
    component: &Component,
    step_rate: bool,
)
    requires
        inputs.boards == targets.boards@,
        inputs.chips == targets.chips@,
        inputs.requirements == requirements@,
        inputs.verdicts == verdicts@,
        inputs.controllers == doc.controllers@,
        inputs.step_rate == step_rate,
        matches(st, old(claims)@, old(timers)@, old(table)@, seq![], old(out)@),
        st.pending.len() == 0,
    ensures
        matches(
            search_component(st, inputs, name@, *component),
            final(claims)@,
            final(timers)@,
            final(table)@,
            seq![],
            final(out)@,
        ),
        search_component(st, inputs, name@, *component).pending.len() == 0,
{
    if claims_explicitly(component) {
        return ;
    }
    let d = match find_entry(requirements, component.kind.as_str()) {
        Some(d) => d,
        None => return ,
    };
    let required = match &d.connector {
        Some(k) => k.as_str(),
        None => return ,
    };
    let mut at = "components.".to_owned();
    push_str(&mut at, name.as_str());
    let ctrl: &str = match crate::resolver::safety::attribute_text(component, "controller") {
        Some(c) => c,
        None => {
            if doc.controllers.len() == 1 {
                doc.controllers[0].0.as_str()
            } else {
                let mut message = "component '".to_owned();
                push_str(&mut message, name.as_str());
                push_str(&mut message, "' needs a ");
                push_str(&mut message, required);
                push_str(&mut message, " but the machine has ");
                push_decimal(&mut message, doc.controllers.len() as u64);
                push_str(&mut message, " controllers \u{2014} add 'controller: <name>' to disambiguate");
                emit_after(out, Ghost(st.findings), Severity::Error, "E1203", message, Some(at));
                return ;
            }
        },
    };
    let board = match find_entry(&targets.boards, ctrl) {
        Some(b) => b,
        None => {
            let mut message = "component '".to_owned();
            push_str(&mut message, name.as_str());
            push_str(&mut message, "': unknown controller '");
            push_str(&mut message, ctrl);
            push_str(&mut message, "'");
            let mut path = at.clone();
            push_str(&mut path, ".controller");
            emit_after(out, Ghost(st.findings), Severity::Error, "E1204", message, Some(path));
            return ;
        },
    };
    let candidates = kind_candidates_of(ctrl, &board.connectors, required);
    let chosen = choose_candidate(
        claims,
        timers,
        Ghost(st),
        Ghost(inputs),
        targets,
        step_rate,
        requirements,
        verdicts,
        component,
        required,
        &d.domains,
        board,
        &candidates,
    );
    let index = match chosen {
        Some(i) => i,
        None => {
            let mut message = "component '".to_owned();
            push_str(&mut message, name.as_str());
            push_str(&mut message, "': no free ");
            push_str(&mut message, required);
            push_str(&mut message, " connector on '");
            push_str(&mut message, ctrl);
            push_str(&mut message, "' (considered: ");
            if candidates.len() == 0 {
                push_str(&mut message, "none of that kind");
            } else {
                let listed = join(&candidates, ", ");
                push_str(&mut message, listed.as_str());
            }
            push_str(&mut message, ")");
            emit_after(out, Ghost(st.findings), Severity::Error, "E1205", message, Some(at));
            return ;
        },
    };
    let target = candidates[index].as_str();
    let evidence = match check_bus(Ghost(inputs), requirements, verdicts, component, target) {
        Ok(e) => e,
        Err(_) => Vec::new(),
    };
    let mut constraints: Vec<String> = Vec::new();
    let mut first = "connector kind == ".to_owned();
    push_str(&mut first, required);
    constraints.push(first);
    constraints.push("first free candidate in stable connector order".to_owned());
    constraints.push("exclusive ownership".to_owned());
    let ghost head = string_views(constraints@);
    assert(head =~= seq![
        "connector kind == "@ + required@,
        "first free candidate in stable connector order"@,
        "exclusive ownership"@,
    ]);
    let ghost ds = string_views(d.domains@);
    if d.domains.len() > 0 {
        let mut domain_text = "voltage domain in [".to_owned();
        let listed = join(&d.domains, ", ");
        push_str(&mut domain_text, listed.as_str());
        push_str(&mut domain_text, "]");
        let ghost before = constraints@;
        constraints.push(domain_text);
        assert(string_views(constraints@) =~= head + seq!["voltage domain in ["@ + joined(ds, ", "@) + "]"@]);
    } else {
        assert(head + Seq::<Seq<char>>::empty() =~= head);
    }
    let ghost mid = string_views(constraints@);
    append_texts(&mut constraints, evidence);
    let mut timer: Option<(String, String, String)> = None;
    if step_rate && str_eq(required, "stepper_driver_socket") {
        match timer_slot_of(targets, board, target, Ghost(inputs)) {
            Some((_, pin, Some((key, tok)))) => {
                timer = Some((key, tok, pin));
            },
            _ => {},
        }
    }
    let ghost timer_view = timer_text(timer);
    assert(timer_view == reserved_timer(inputs, *board, required@, target@));
    let ghost with_evidence = string_views(constraints@);
    match &timer {
        Some((_, tok, _)) => {
            let mut line = "step pin on free timer channel ".to_owned();
            push_str(&mut line, tok.as_str());
            push_str(&mut line, " (max_step_rate)");
            constraints.push(line);
            assert(string_views(constraints@) =~= with_evidence + timer_lines(timer_view));
        },
        None => {
            assert(string_views(constraints@) =~= with_evidence + timer_lines(timer_view));
        },
    }
    let caps = capabilities_of(targets, board, target, Ghost(inputs));
    let mut via = "requires.connector (".to_owned();
    push_str(&mut via, d.reference.as_str());
    push_str(&mut via, ")");
    let assignment = Assignment {
        requested_by: name.clone(),
        via,
        resource: ResourceId(target.to_owned()),
        connector_kind: required.to_owned(),
        candidates_considered: copy_texts(&candidates),
        constraints_applied: constraints,
        pin_capabilities: caps,
    };
    let ghost before_claims = claims@;
    let ghost before_timers = timers@;
    claims.push((target.to_owned(), name.clone()));
    assert(text_values(keyed(claims@)) =~= text_values(keyed(before_claims)).push((target@, name@)));
    match timer {
        Some((key, _, pin)) => {
            timers.push((key, (name.clone(), pin)));
            assert(timer_views(timers@) =~= timers_after(timer_views(before_timers), name@, timer_view));
        },
        None => {},
    }
    let mut list: Vec<Assignment> = Vec::new();
    list.push(assignment);
    assert(assignment_views(list@) =~= seq![assignment_view(assignment)]);
    let ghost before = table@;
    let ghost value = list;
    put(table, name.clone(), list);
    proof {
        lemma_assignments_put(keyed(before), name@, value);
    }
}

/// Capability matching and resource allocation as one ordered phase:
/// every explicit claim (in component, then attribute order) must name an
/// existing connector of the compatible kind that no earlier claim holds
/// (E1206, E1201, E1202, E1200) and meet the device's bus requirement
/// (E1315); when the machine declares `max_step_rate`, a stepper driver
/// socket's step pin must also have a timer function (E1310) whose
/// channel no earlier claim reserved (E1314), and the claim reserves it.
/// Then each component without an explicit claim whose device package
/// needs a connector kind gets the first eligible connector of that kind
/// on its controller, in connector order — free, in a required voltage
/// domain, on a free step timer channel when step timing applies, and
/// meeting the bus requirement — reserving its channel (E1203, E1204,
/// E1205), every connector of the kind listed as considered. The graph
/// comes back only when no error has been reported.
pub fn allocate(
    doc: &MachineDoc,
    targets: &ControllerTargets,
    requirements: &Vec<(String, DeviceRequirement)>,
    bus_verdicts: &Vec<BusVerdict>,
    packages: &PackageSelection,
    diagnostics: &mut Vec<Diagnostic>,
    phases_run: &mut Vec<Phase>,
) -> (graph: Option<ResolvedGraph>)
    ensures
        final(phases_run)@ == old(phases_run)@.push(Phase::CapabilityMatching).push(Phase::ResourceAllocation),
        final(diagnostics)@.subrange(0, old(diagnostics)@.len() as int) == old(diagnostics)@,
        emitted(
            final(diagnostics)@.subrange(old(diagnostics)@.len() as int, final(diagnostics)@.len() as int),
            allocation(inputs_of(*doc, *targets, requirements@, bus_verdicts@), doc.components@).findings,
        ),
        graph is Some <==> !has_error(final(diagnostics)@),
        match graph {
            Some(g) => {
                &&& assignment_table(g.assignments@) == allocation(
                    inputs_of(*doc, *targets, requirements@, bus_verdicts@),
                    doc.components@,
                ).assignments
                &&& g.packages@ == packages.closure_refs@
                &&& g.controller_safety@.len() == 0
                &&& g.controller_build_plans@.len() == 0
            },
            None => true,
        },
{
    phases_run.push(Phase::CapabilityMatching);
    phases_run.push(Phase::ResourceAllocation);
    let ghost inputs = inputs_of(*doc, *targets, requirements@, bus_verdicts@);
    let ghost components = doc.components@;
    let mut claims: Vec<(String, String)> = Vec::new();
    let mut timers: Vec<(String, (String, String))> = Vec::new();
    let mut table: Vec<(String, Vec<Assignment>)> = Vec::new();
    let mut out: Vec<Diagnostic> = Vec::new();
    let step_rate = find_entry(&doc.kinematics.limits, "max_step_rate").is_some();
    assert(text_values(keyed(claims@)) =~= Seq::<(Seq<char>, Seq<char>)>::empty());
    assert(timer_views(timers@) =~= Seq::<(Seq<char>, (Seq<char>, Seq<char>))>::empty());
    assert(assignment_table(table@) =~= Seq::<(Seq<char>, Seq<AssignmentView>)>::empty());
    assert(assignment_views(Seq::<Assignment>::empty()) =~= Seq::<AssignmentView>::empty());
    let n = doc.components.len();
    let mut i: usize = 0;
    while i < n
        invariant
            i <= n,
            n == components.len(),
            components == doc.components@,
            inputs == inputs_of(*doc, *targets, requirements@, bus_verdicts@),
            step_rate == inputs.step_rate,
            matches(explicit_run(inputs, components, i as nat), claims@, timers@, table@, seq![], out@),
            explicit_run(inputs, components, i as nat).pending.len() == 0,
        decreases n - i,
    {
        claim_component_exec(
            &mut claims,
            &mut timers,
            &mut table,
            &mut out,
            Ghost(explicit_run(inputs, components, i as nat)),
            Ghost(inputs),
            targets,
            requirements,
            bus_verdicts,
            &doc.components[i].0,
            &doc.components[i].1,
            step_rate,
        );
        i = i + 1;
    }
    let ghost start = explicit_run(inputs, components, n as nat);
    let mut k: usize = 0;
    while k < n
        invariant
            k <= n,
            n == components.len(),
            components == doc.components@,
            inputs == inputs_of(*doc, *targets, requirements@, bus_verdicts@),
            start == explicit_run(inputs, components, n as nat),
            step_rate == inputs.step_rate,
            matches(search_run(start, inputs, components, k as nat), claims@, timers@, table@, seq![], out@),
            search_run(start, inputs, components, k as nat).pending.len() == 0,
        decreases n - k,
    {
        search_component_exec(
            &mut claims,
            &mut timers,
            &mut table,
            &mut out,
            Ghost(search_run(start, inputs, components, k as nat)),
            Ghost(inputs),
            doc,
            targets,
            requirements,
            bus_verdicts,
            &doc.components[k].0,
            &doc.components[k].1,
            step_rate,
        );
        k = k + 1;
    }
    let ghost before = diagnostics@;
    let ghost added = out@;
    diagnostics.append(&mut out);
    assert(diagnostics@.subrange(0, before.len() as int) =~= before);
    assert(diagnostics@.subrange(before.len() as int, diagnostics@.len() as int) =~= added);
    if any_error(diagnostics) {
        return None;
    }
    Some(
        ResolvedGraph {
            assignments: table,
            controller_safety: Vec::new(),
            controller_build_plans: Vec::new(),
            packages: copy_texts(&packages.closure_refs),
        },
    )
}

// ---------------------------------------------------------------------------
// Laws
// ---------------------------------------------------------------------------

/// No connector is claimed twice.
pub open spec fn claimed_once(st: Allocation) -> bool {
    forall|a: int, b: int| 0 <= a < b < st.claims.len() ==> #[trigger] st.claims[a].0 != #[trigger] st.claims[b].0
}

proof fn lemma_claim_new(st: Allocation, target: Seq<char>, name: Seq<char>)
    requires
        claimed_once(st),
        lookup(st.claims, target) is None,
    ensures
        forall|a: int, b: int|
            0 <= a < b < st.claims.push((target, name)).len() ==> #[trigger] st.claims.push((target, name))[a].0
                != #[trigger] st.claims.push((target, name))[b].0,
{
    crate::resolver::safety::lemma_lookup_absent(st.claims, target);
    let next = st.claims.push((target, name));
    assert forall|a: int, b: int| 0 <= a < b < next.len() implies #[trigger] next[a].0 != #[trigger] next[b].0 by {
        assert(next[a] == st.claims[a]);
        if b < st.claims.len() {
            assert(next[b] == st.claims[b]);
        }
    }
}

proof fn lemma_claim_target_once(
    st: Allocation,
    inputs: AllocationInputs,
    name: Seq<char>,
    component: Component,
    attr: Seq<char>,
    table_kind: Seq<char>,
    target: Seq<char>,
)
    requires
        claimed_once(st),
    ensures
        claimed_once(claim_target(st, inputs, name, component, attr, table_kind, target)),
{
    if lookup(st.claims, target) is None {
        lemma_claim_new(st, target, name);
    }
}

proof fn lemma_claim_attributes_once(st: Allocation, inputs: AllocationInputs, name: Seq<char>, component: Component, k: nat)
    requires
        claimed_once(st),
    ensures
        claimed_once(claim_attributes(st, inputs, name, component, k)),
    decreases k,
{
    let attributes = component.attributes@;
    if k > 0 && k <= attributes.len() {
        lemma_claim_attributes_once(st, inputs, name, component, (k - 1) as nat);
        let before = claim_attributes(st, inputs, name, component, (k - 1) as nat);
        match attributes[k - 1].1 {
            AttributeValue::Text(target) => match claimed_kind(attributes[k - 1].0@) {
                Some(table_kind) => lemma_claim_target_once(
                    before,
                    inputs,
                    name,
                    component,
                    attributes[k - 1].0@,
                    table_kind,
                    target@,
                ),
                None => {},
            },
            _ => {},
        }
    }
}

proof fn lemma_explicit_once(inputs: AllocationInputs, components: Seq<(String, Component)>, k: nat)
    ensures
        claimed_once(explicit_run(inputs, components, k)),
    decreases k,
{
    if k > 0 && k <= components.len() {
        lemma_explicit_once(inputs, components, (k - 1) as nat);
        let st = explicit_run(inputs, components, (k - 1) as nat);
        let component = components[k - 1].1;
        lemma_claim_attributes_once(
            Allocation { pending: seq![], ..st },
            inputs,
            components[k - 1].0@,
            component,
            component.attributes@.len(),
        );
    }
}

proof fn lemma_first_eligible_free(
    st: Allocation,
    inputs: AllocationInputs,
    component: Component,
    kind: Seq<char>,
    domains: Seq<Seq<char>>,
    board: BoardPackageFile,
    candidates: Seq<Seq<char>>,
)
    ensures
        match first_eligible(st, inputs, component, kind, domains, board, candidates) {
            Some(t) => lookup(st.claims, t) is None && timer_free(st, inputs, board, kind, t) && candidates.contains(t),
            None => true,
        },
    decreases candidates.len(),
{
    if candidates.len() > 0 && !eligible(st, inputs, component, kind, domains, board, candidates[0]) {
        lemma_first_eligible_free(st, inputs, component, kind, domains, board, candidates.drop_first());
        match first_eligible(st, inputs, component, kind, domains, board, candidates.drop_first()) {
            Some(t) => {
                let j = choose|j: int| 0 <= j < candidates.drop_first().len() && candidates.drop_first()[j] == t;
                assert(candidates[j + 1] == t);
            },
            None => {},
        }
    } else if candidates.len() > 0 {
        assert(candidates[0] == candidates[0]);
    }
}

proof fn lemma_search_once(start: Allocation, inputs: AllocationInputs, components: Seq<(String, Component)>, k: nat)
    requires
        claimed_once(start),
    ensures
        claimed_once(search_run(start, inputs, components, k)),
    decreases k,
{
    if k > 0 && k <= components.len() {
        lemma_search_once(start, inputs, components, (k - 1) as nat);
        let st = search_run(start, inputs, components, (k - 1) as nat);
        let name = components[k - 1].0@;
        let component = components[k - 1].1;
        if !explicitly_claimed(component) {
            match entry(inputs.requirements, component.kind@) {
                Some(d) => match d.connector {
                    Some(required) => {
                        let controller = match text_attribute(component, "controller"@) {
                            Some(c) => Some(c),
                            None => if inputs.controllers.len() == 1 {
                                Some(inputs.controllers[0].0@)
                            } else {
                                None
                            },
                        };
                        match controller {
                            Some(ctrl) => match entry(inputs.boards, ctrl) {
                                Some(board) => {
                                    let candidates = kind_candidates(ctrl, board.connectors@, required@);
                                    let domains = string_views(d.domains@);
                                    lemma_first_eligible_free(st, inputs, component, required@, domains, board, candidates);
                                    match first_eligible(st, inputs, component, required@, domains, board, candidates) {
                                        Some(t) => lemma_claim_new(st, t, name),
                                        None => {},
                                    }
                                },
                                None => {},
                            },
                            None => {},
                        }
                    },
                    None => {},
                },
                None => {},
            }
        }
    }
}

/// Allocation claims each connector at most once, across explicit claims
/// and search allocation.
pub proof fn allocation_claims_each_connector_once(inputs: AllocationInputs, components: Seq<(String, Component)>)
    ensures
        claimed_once(allocation(inputs, components)),
{
    lemma_explicit_once(inputs, components, components.len());
    lemma_search_once(explicit_run(inputs, components, components.len()), inputs, components, components.len());
}

/// No step timer channel is reserved twice.
pub open spec fn timers_reserved_once(st: Allocation) -> bool {
    forall|a: int, b: int| 0 <= a < b < st.timers.len() ==> #[trigger] st.timers[a].0 != #[trigger] st.timers[b].0
}

proof fn lemma_timer_absent(timers: Seq<(Seq<char>, (Seq<char>, Seq<char>))>, key: Seq<char>)
    requires
        lookup(timers, key) is None,
    ensures
        forall|i: int| 0 <= i < timers.len() ==> #[trigger] timers[i].0 != key,
    decreases timers.len(),
{
    if timers.len() > 0 {
        lemma_timer_absent(timers.drop_first(), key);
        assert forall|i: int| 0 <= i < timers.len() implies #[trigger] timers[i].0 != key by {
            if i > 0 {
                assert(timers[i] == timers.drop_first()[i - 1]);
            }
        }
    }
}

proof fn lemma_timer_new(st: Allocation, key: Seq<char>, holder: (Seq<char>, Seq<char>))
    requires
        timers_reserved_once(st),
        lookup(st.timers, key) is None,
    ensures
        forall|a: int, b: int|
            0 <= a < b < st.timers.push((key, holder)).len() ==> #[trigger] st.timers.push((key, holder))[a].0
                != #[trigger] st.timers.push((key, holder))[b].0,
{
    lemma_timer_absent(st.timers, key);
    let next = st.timers.push((key, holder));
    assert forall|a: int, b: int| 0 <= a < b < next.len() implies #[trigger] next[a].0 != #[trigger] next[b].0 by {
        assert(next[a] == st.timers[a]);
        if b < st.timers.len() {
            assert(next[b] == st.timers[b]);
        }
    }
}

proof fn lemma_claim_target_timers(
    st: Allocation,
    inputs: AllocationInputs,
    name: Seq<char>,
    component: Component,
    attr: Seq<char>,
    table_kind: Seq<char>,
    target: Seq<char>,
)
    requires
        timers_reserved_once(st),
    ensures
        timers_reserved_once(claim_target(st, inputs, name, component, attr, table_kind, target)),
{
    let expected = expected_kind(inputs, component, table_kind);
    if let Some((controller, _)) = split_at_first(target, "."@) {
        if let Some(board) = entry(inputs.boards, controller) {
            if step_timed(inputs, expected) {
                if let Some((_, pin, Some((key, _)))) = timer_slot(inputs, board, target) {
                    if lookup(st.timers, key) is None {
                        lemma_timer_new(st, key, (name, pin));
                    }
                }
            }
        }
    }
}

proof fn lemma_claim_attributes_timers(
    st: Allocation,
    inputs: AllocationInputs,
    name: Seq<char>,
    component: Component,
    k: nat,
)
    requires
        timers_reserved_once(st),
    ensures
        timers_reserved_once(claim_attributes(st, inputs, name, component, k)),
    decreases k,
{
    let attributes = component.attributes@;
    if k > 0 && k <= attributes.len() {
        lemma_claim_attributes_timers(st, inputs, name, component, (k - 1) as nat);
        let before = claim_attributes(st, inputs, name, component, (k - 1) as nat);
        match attributes[k - 1].1 {
            AttributeValue::Text(target) => match claimed_kind(attributes[k - 1].0@) {
                Some(table_kind) => lemma_claim_target_timers(
                    before,
                    inputs,
                    name,
                    component,
                    attributes[k - 1].0@,
                    table_kind,
                    target@,
                ),
                None => {},
            },
            _ => {},
        }
    }
}

proof fn lemma_explicit_timers(inputs: AllocationInputs, components: Seq<(String, Component)>, k: nat)
    ensures
        timers_reserved_once(explicit_run(inputs, components, k)),
    decreases k,
{
    if k > 0 && k <= components.len() {
        lemma_explicit_timers(inputs, components, (k - 1) as nat);
        let st = explicit_run(inputs, components, (k - 1) as nat);
        let component = components[k - 1].1;
        lemma_claim_attributes_timers(
            Allocation { pending: seq![], ..st },
            inputs,
            components[k - 1].0@,
            component,
            component.attributes@.len(),
        );
    }
}

proof fn lemma_search_timers(start: Allocation, inputs: AllocationInputs, components: Seq<(String, Component)>, k: nat)
    requires
        timers_reserved_once(start),
    ensures
        timers_reserved_once(search_run(start, inputs, components, k)),
    decreases k,
{
    if k > 0 && k <= components.len() {
        lemma_search_timers(start, inputs, components, (k - 1) as nat);
        let st = search_run(start, inputs, components, (k - 1) as nat);
        let name = components[k - 1].0@;
        let component = components[k - 1].1;
        if !explicitly_claimed(component) {
            if let Some(d) = entry(inputs.requirements, component.kind@) {
                if let Some(required) = d.connector {
                    let controller = match text_attribute(component, "controller"@) {
                        Some(c) => Some(c),
                        None => if inputs.controllers.len() == 1 {
                            Some(inputs.controllers[0].0@)
                        } else {
                            None
                        },
                    };
                    if let Some(ctrl) = controller {
                        if let Some(board) = entry(inputs.boards, ctrl) {
                            let candidates = kind_candidates(ctrl, board.connectors@, required@);
                            let domains = string_views(d.domains@);
                            lemma_first_eligible_free(st, inputs, component, required@, domains, board, candidates);
                            if let Some(t) = first_eligible(st, inputs, component, required@, domains, board, candidates) {
                                if let Some((key, _, pin)) = reserved_timer(inputs, board, required@, t) {
                                    lemma_timer_new(st, key, (name, pin));
                                }
                            }
                        }
                    }
                }
            }
        }
    }
}

/// Allocation reserves each step timer channel at most once, across
/// explicit claims and search allocation: two stepper sockets never share
/// a channel.
pub proof fn allocation_reserves_each_timer_channel_once(inputs: AllocationInputs, components: Seq<(String, Component)>)
    ensures
        timers_reserved_once(allocation(inputs, components)),
{
    lemma_explicit_timers(inputs, components, components.len());
    lemma_search_timers(explicit_run(inputs, components, components.len()), inputs, components, components.len());
}

/// The connector `target` names on the board declares one of `domains`,
/// or there are none to meet.
pub open spec fn in_required_domain(board: BoardPackageFile, domains: Seq<Seq<char>>, target: Seq<char>) -> bool {
    domains.len() == 0 || match split_at_first(target, "."@) {
        Some((_, port)) => match entry(board.connectors@, port) {
            Some(c) => match c.voltage_domain {
                Some(v) => exists|i: int| 0 <= i < domains.len() && #[trigger] domains[i] == v@,
                None => false,
            },
            None => false,
        },
        None => false,
    }
}

/// Search allocation honours voltage domains: the connector it picks is
/// unclaimed and, when the device names voltage domains, declares one of
/// them, and so does every other constraint hold of it; every candidate
/// before it is claimed, declares none of the required domains, has its
/// step timer channel taken, or fails the bus requirement. When it picks
/// none, every candidate fails one of these.
pub proof fn search_picks_the_first_free_connector_in_a_required_domain(
    st: Allocation,
    inputs: AllocationInputs,
    component: Component,
    kind: Seq<char>,
    domains: Seq<Seq<char>>,
    board: BoardPackageFile,
    candidates: Seq<Seq<char>>,
)
    ensures
        match first_eligible(st, inputs, component, kind, domains, board, candidates) {
            Some(t) => exists|j: int|
                0 <= j < candidates.len() && #[trigger] candidates[j] == t && lookup(st.claims, t) is None
                    && in_required_domain(board, domains, t) && timer_free(st, inputs, board, kind, t) && bus_check(
                    inputs,
                    component,
                    t,
                ) is Ok && forall|i: int|
                    0 <= i < j ==> !(lookup(st.claims, #[trigger] candidates[i]) is None && in_required_domain(
                        board,
                        domains,
                        candidates[i],
                    ) && timer_free(st, inputs, board, kind, candidates[i]) && bus_check(
                        inputs,
                        component,
                        candidates[i],
                    ) is Ok),
            None => forall|i: int|
                0 <= i < candidates.len() ==> !(lookup(st.claims, #[trigger] candidates[i]) is None
                    && in_required_domain(board, domains, candidates[i]) && timer_free(
                    st,
                    inputs,
                    board,
                    kind,
                    candidates[i],
                ) && bus_check(inputs, component, candidates[i]) is Ok),
        },
    decreases candidates.len(),
{
    assert forall|t: Seq<char>| #[trigger] domain_ok(domains, board, t) <==> in_required_domain(board, domains, t) by {
        if domains.len() > 0 {
            if let Some((_, port)) = split_at_first(t, "."@) {
                if let Some(c) = entry(board.connectors@, port) {
                    if let Some(v) = c.voltage_domain {
                        if domains.contains(v@) {
                            let i = choose|i: int| 0 <= i < domains.len() && domains[i] == v@;
                            assert(domains[i] == v@);
                        }
                    }
                }
            }
        }
    }
    if candidates.len() > 0 {
        let rest = candidates.drop_first();
        search_picks_the_first_free_connector_in_a_required_domain(st, inputs, component, kind, domains, board, rest);
        if eligible(st, inputs, component, kind, domains, board, candidates[0]) {
            assert(candidates[0] == candidates[0]);
        } else {
            match first_eligible(st, inputs, component, kind, domains, board, rest) {
                Some(t) => {
                    let j = choose|j: int|
                        0 <= j < rest.len() && #[trigger] rest[j] == t && lookup(st.claims, t) is None
                            && in_required_domain(board, domains, t) && timer_free(st, inputs, board, kind, t)
                            && bus_check(inputs, component, t) is Ok && forall|i: int|
                            0 <= i < j ==> !(lookup(st.claims, #[trigger] rest[i]) is None && in_required_domain(
                                board,
                                domains,
                                rest[i],
                            ) && timer_free(st, inputs, board, kind, rest[i]) && bus_check(
                                inputs,
                                component,
                                rest[i],
                            ) is Ok);
                    assert(candidates[j + 1] == t);
                    assert forall|i: int| 0 <= i < j + 1 implies !(lookup(st.claims, #[trigger] candidates[i]) is None
                        && in_required_domain(board, domains, candidates[i]) && timer_free(
                        st,
                        inputs,
                        board,
                        kind,
                        candidates[i],
                    ) && bus_check(inputs, component, candidates[i]) is Ok) by {
                        if i > 0 {
                            assert(candidates[i] == rest[i - 1]);
                        }
                    }
                },
                None => {
                    assert forall|i: int| 0 <= i < candidates.len() implies !(lookup(st.claims, #[trigger] candidates[i]) is None
                        && in_required_domain(board, domains, candidates[i]) && timer_free(
                        st,
                        inputs,
                        board,
                        kind,
                        candidates[i],
                    ) && bus_check(inputs, component, candidates[i]) is Ok) by {
                        if i > 0 {
                            assert(candidates[i] == rest[i - 1]);
                        }
                    }
                },
            }
        }
    }
}

/// An accepted explicit claim takes a connector that exists on the named
/// controller's board, has the kind the claim needs (the device package's,
/// else the attribute's) and nobody claimed before.
pub proof fn explicit_claims_take_free_connectors_of_the_needed_kind(
    st: Allocation,
    inputs: AllocationInputs,
    name: Seq<char>,
    component: Component,
    attr: Seq<char>,
    table_kind: Seq<char>,
    target: Seq<char>,
)
    ensures
        claim_target(st, inputs, name, component, attr, table_kind, target).claims.len() != st.claims.len() ==> {
            let needed = match entry(inputs.requirements, component.kind@) {
                Some(d) => match d.connector {
                    Some(c) => c@,
                    None => table_kind,
                },
                None => table_kind,
            };
            &&& lookup(st.claims, target) is None
            &&& split_at_first(target, "."@) matches Some((controller, port)) && entry(inputs.boards, controller)
                matches Some(board) && entry(board.connectors@, port) matches Some(connector) && connector.kind@
                == needed
        },
{
}

/// The search candidates are the controller's connectors of the needed
/// kind, in connector order, each as `controller.id`.
pub proof fn search_candidates_are_the_connectors_of_the_kind(
    controller: Seq<char>,
    connectors: Seq<(String, Connector)>,
    kind: Seq<char>,
)
    ensures
        kind_candidates(controller, connectors, kind) == connectors.filter(
            |e: (String, Connector)| e.1.kind@ == kind,
        ).map_values(|e: (String, Connector)| controller + "."@ + e.0@),
    decreases connectors.len(),
{
    if connectors.len() > 0 {
        search_candidates_are_the_connectors_of_the_kind(controller, connectors.drop_last(), kind);
        let pred = |e: (String, Connector)| e.1.kind@ == kind;
        let f = |e: (String, Connector)| controller + "."@ + e.0@;
        assert(connectors.filter(pred) == if pred(connectors.last()) {
            connectors.drop_last().filter(pred).push(connectors.last())
        } else {
            connectors.drop_last().filter(pred)
        }) by {
            reveal(Seq::filter);
        }
        if pred(connectors.last()) {
            assert(connectors.drop_last().filter(pred).push(connectors.last()).map_values(f) =~= connectors.drop_last().filter(
                pred,
            ).map_values(f).push(f(connectors.last())));
        }
    }
}

} // verus!
