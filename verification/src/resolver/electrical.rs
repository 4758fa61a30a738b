//! Electrical validation of the allocated graph: a device's voltage
//! domains and bus requirement must hold on each connector it was given,
//! and a component's declared current draw must fit each connector's
//! limit.

use vstd::prelude::*;
use crate::package::board::BoardPackageFile;
use crate::resolver::allocation::{verdict_for, BusVerdict, DeviceRequirement};
use crate::resolver::model::{Assignment, ResolvedGraph};
use crate::resolver::safety::{attribute_text, contains_text, text_attribute};
use crate::resolver::targets::{emit_after, emitted, entry, error_at, find_entry, Emission};
use crate::schema::{Component, Diagnostic, MachineDoc, Severity};
use crate::text::{join, joined, push_str, split_at_first, split_once, str_eq, string_views};

verus! {

/// What the current checks read: for each component with a declared
/// current, whether the draw reads as a current (or the reading's error),
/// and the connectors whose limit it exceeds. Quantities compare as
/// numbers, so these are read before validation.
#[derive(Debug, Clone)]
pub struct CurrentReadings {
    /// Component, then the error its `current` attribute gives.
    pub unreadable: Vec<(String, String)>,
    /// Component, then a connector whose `max_current` its draw exceeds.
    pub over_limit: Vec<(String, String)>,
}

/// The voltage domain a board declares for the connector `resource` names.
pub open spec fn connector_domain(boards: Seq<(String, BoardPackageFile)>, controller: Seq<char>, port: Seq<char>) -> Option<
    Seq<char>,
> {
    match entry(boards, controller) {
        Some(b) => match entry(b.connectors@, port) {
            Some(c) => match c.voltage_domain {
                Some(v) => Some(v@),
                None => None,
            },
            None => None,
        },
        None => None,
    }
}

/// The domain finding of an assignment on `controller.port`: the
/// connector must declare one of the device's domains, when it names any.
pub open spec fn domain_findings(
    boards: Seq<(String, BoardPackageFile)>,
    name: Seq<char>,
    d: DeviceRequirement,
    resource: Seq<char>,
    controller: Seq<char>,
    port: Seq<char>,
) -> Seq<Emission> {
    let domains = string_views(d.domains@);
    let declared = connector_domain(boards, controller, port);
    if domains.len() > 0 && !(declared matches Some(v) && domains.contains(v)) {
        seq![
            error_at(
                "E1302"@,
                "component '"@ + name + "': device '"@ + d.reference@ + "' requires voltage domain ["@ + joined(
                    domains,
                    ", "@,
                ) + "] but '"@ + resource + "' declares "@ + match declared {
                    Some(v) => v,
                    None => "none"@,
                },
                "components."@ + name,
            ),
        ]
    } else {
        seq![]
    }
}

/// The bus finding of an assignment: the verdict for the component's type
/// on the connector, when it fails.
pub open spec fn bus_findings(
    verdicts: Seq<BusVerdict>,
    name: Seq<char>,
    component: Component,
    d: DeviceRequirement,
    resource: Seq<char>,
) -> Seq<Emission> {
    match d.bus {
        Some(bus) => match verdict_for(verdicts, component.kind@, resource) {
            Some(Err(reason)) => seq![
                error_at(
                    "E1315"@,
                    "component '"@ + name + "': device '"@ + d.reference@ + "' requires a "@ + bus@ + " bus"@
                        + match d.bus_min_frequency {
                        Some(f) => " (>= "@ + f@ + ")"@,
                        None => seq![],
                    } + " on '"@ + resource + "' \u{2014} "@ + reason,
                    "components."@ + name,
                ),
            ],
            _ => seq![],
        },
        None => seq![],
    }
}

/// The domain and bus findings of one assignment of a component with a
/// device requirement.
pub open spec fn assignment_findings(
    boards: Seq<(String, BoardPackageFile)>,
    verdicts: Seq<BusVerdict>,
    name: Seq<char>,
    component: Component,
    d: DeviceRequirement,
    a: Assignment,
) -> Seq<Emission> {
    match split_at_first(a.resource.0@, "."@) {
        None => seq![],
        Some((controller, port)) => domain_findings(boards, name, d, a.resource.0@, controller, port) + bus_findings(
            verdicts,
            name,
            component,
            d,
            a.resource.0@,
        ),
    }
}

/// The assignments of a component in the graph.
pub open spec fn assigned(graph: ResolvedGraph, name: Seq<char>) -> Seq<Assignment> {
    match entry(graph.assignments@, name) {
        Some(list) => list@,
        None => seq![],
    }
}

pub open spec fn assignments_findings(
    boards: Seq<(String, BoardPackageFile)>,
    verdicts: Seq<BusVerdict>,
    name: Seq<char>,
    component: Component,
    d: DeviceRequirement,
    list: Seq<Assignment>,
) -> Seq<Emission>
    decreases list.len(),
{
    if list.len() == 0 {
        seq![]
    } else {
        assignments_findings(boards, verdicts, name, component, d, list.drop_last()) + assignment_findings(
            boards,
            verdicts,
            name,
            component,
            d,
            list.last(),
        )
    }
}

/// A component's domain and bus findings.
pub open spec fn device_findings(
    graph: ResolvedGraph,
    boards: Seq<(String, BoardPackageFile)>,
    requirements: Seq<(String, DeviceRequirement)>,
    verdicts: Seq<BusVerdict>,
    name: Seq<char>,
    component: Component,
) -> Seq<Emission> {
    match entry(requirements, component.kind@) {
        Some(d) => assignments_findings(boards, verdicts, name, component, d, assigned(graph, name)),
        None => seq![],
    }
}

/// The pair is listed.
pub open spec fn listed_pair(pairs: Seq<(String, String)>, a: Seq<char>, b: Seq<char>) -> bool {
    exists|i: int| 0 <= i < pairs.len() && (#[trigger] pairs[i]).0@ == a && pairs[i].1@ == b
}

/// The current-limit finding of one assignment.
pub open spec fn limit_findings(
    boards: Seq<(String, BoardPackageFile)>,
    readings: CurrentReadings,
    name: Seq<char>,
    draw: Seq<char>,
    list: Seq<Assignment>,
) -> Seq<Emission>
    decreases list.len(),
{
    if list.len() == 0 {
        seq![]
    } else {
        let before = limit_findings(boards, readings, name, draw, list.drop_last());
        let resource = list.last().resource.0@;
        let limit = match split_at_first(resource, "."@) {
            Some((controller, port)) => match entry(boards, controller) {
                Some(b) => match entry(b.connectors@, port) {
                    Some(c) => match c.max_current {
                        Some(m) => Some(m@),
                        None => None,
                    },
                    None => None,
                },
                None => None,
            },
            None => None,
        };
        match limit {
            Some(m) => if listed_pair(readings.over_limit@, name, resource) {
                before.push(
                    error_at(
                        "E1300"@,
                        "component '"@ + name + "' draws "@ + draw + " but '"@ + resource + "' allows at most "@ + m,
                        "components."@ + name + ".current"@,
                    ),
                )
            } else {
                before
            },
            None => before,
        }
    }
}

/// A component's current findings: an unreadable draw (E1301), else each
/// connector whose limit the draw exceeds (E1300).
pub open spec fn current_findings(
    graph: ResolvedGraph,
    boards: Seq<(String, BoardPackageFile)>,
    readings: CurrentReadings,
    name: Seq<char>,
    component: Component,
) -> Seq<Emission> {
    match text_attribute(component, "current"@) {
        None => seq![],
        Some(draw) => match entry(readings.unreadable@, name) {
            Some(e) => seq![
                error_at("E1301"@, "component '"@ + name + "' current: "@ + e@, "components."@ + name + ".current"@),
            ],
            None => limit_findings(boards, readings, name, draw, assigned(graph, name)),
        },
    }
}

pub open spec fn device_run(
    graph: ResolvedGraph,
    boards: Seq<(String, BoardPackageFile)>,
    requirements: Seq<(String, DeviceRequirement)>,
    verdicts: Seq<BusVerdict>,
    components: Seq<(String, Component)>,
    k: nat,
) -> Seq<Emission>
    decreases k,
{
    if k == 0 || k > components.len() {
        seq![]
    } else {
        device_run(graph, boards, requirements, verdicts, components, (k - 1) as nat) + device_findings(
            graph,
            boards,
            requirements,
            verdicts,
            components[k - 1].0@,
            components[k - 1].1,
        )
    }
}

pub open spec fn current_run(
    graph: ResolvedGraph,
    boards: Seq<(String, BoardPackageFile)>,
    readings: CurrentReadings,
    components: Seq<(String, Component)>,
    k: nat,
) -> Seq<Emission>
    decreases k,
{
    if k == 0 || k > components.len() {
        seq![]
    } else {
        current_run(graph, boards, readings, components, (k - 1) as nat) + current_findings(
            graph,
            boards,
            readings,
            components[k - 1].0@,
            components[k - 1].1,
        )
    }
}

fn verdict_error(verdicts: &Vec<BusVerdict>, kind: &str, target: &str) -> (reason: Option<String>)
    ensures
        match verdict_for(verdicts@, kind@, target@) {
            Some(Err(r)) => reason matches Some(s) && s@ == r,
            _ => reason is None,
        },
{
    let mut i: usize = 0;
    assert(verdicts@.subrange(0, verdicts@.len() as int) =~= verdicts@);
    while i < verdicts.len()
        invariant
            i <= verdicts@.len(),
            verdict_for(verdicts@, kind@, target@) == verdict_for(
                verdicts@.subrange(i as int, verdicts@.len() as int),
                kind@,
                target@,
            ),
        decreases verdicts@.len() - i,
    {
        proof {
            let rest = verdicts@.subrange(i as int, verdicts@.len() as int);
            assert(rest.drop_first() =~= verdicts@.subrange(i + 1, verdicts@.len() as int));
            assert(rest[0] == verdicts@[i as int]);
        }
        if str_eq(verdicts[i].kind.as_str(), kind) && str_eq(verdicts[i].target.as_str(), target) {
            return match &verdicts[i].verdict {
                Ok(_) => None,
                Err(r) => Some(r.clone()),
            };
        }
        i = i + 1;
    }
    None
}

fn assignment_checks(
    boards: &Vec<(String, BoardPackageFile)>,
    verdicts: &Vec<BusVerdict>,
    name: &str,
    component: &Component,
    d: &DeviceRequirement,
    a: &Assignment,
    out: &mut Vec<Diagnostic>,
    Ghost(items): Ghost<Seq<Emission>>,
)
    requires
        emitted(old(out)@, items),
    ensures
        emitted(final(out)@, items + assignment_findings(boards@, verdicts@, name@, *component, *d, *a)),
{
    let resource = a.resource.0.as_str();
    let (controller, port) = match split_once(resource, ".") {
        Some(parts) => parts,
        None => {
            assert(items + Seq::<Emission>::empty() =~= items);
            return ;
        },
    };
    let mut at = "components.".to_owned();
    push_str(&mut at, name);
    let declared_domain: Option<&str> = match find_entry(boards, controller) {
        Some(b) => match find_entry(&b.connectors, port) {
            Some(c) => match &c.voltage_domain {
                Some(v) => Some(v.as_str()),
                None => None,
            },
            None => None,
        },
        None => None,
    };
    assert(connector_domain(boards@, controller@, port@) == match declared_domain {
        Some(v) => Some(v@),
        None => None::<Seq<char>>,
    });
    let ghost first = domain_findings(boards@, name@, *d, resource@, controller@, port@);
    let fits = match declared_domain {
        Some(v) => contains_text(&d.domains, v),
        None => false,
    };
    if d.domains.len() > 0 && !fits {
        let mut message = "component '".to_owned();
        push_str(&mut message, name);
        push_str(&mut message, "': device '");
        push_str(&mut message, d.reference.as_str());
        push_str(&mut message, "' requires voltage domain [");
        let listed = join(&d.domains, ", ");
        push_str(&mut message, listed.as_str());
        push_str(&mut message, "] but '");
        push_str(&mut message, resource);
        push_str(&mut message, "' declares ");
        match declared_domain {
            Some(v) => push_str(&mut message, v),
            None => push_str(&mut message, "none"),
        }
        emit_after(out, Ghost(items), Severity::Error, "E1302", message, Some(at.clone()));
        assert(items.push(first[0]) =~= items + first);
    } else {
        assert(items + first =~= items);
    }
    assert(emitted(out@, items + first));
    assert(split_at_first(a.resource.0@, "."@) == Some((controller@, port@)));
    let ghost second = bus_findings(verdicts@, name@, *component, *d, resource@);
    match &d.bus {
        Some(bus) => match verdict_error(verdicts, component.kind.as_str(), resource) {
            Some(reason) => {
                let mut message = "component '".to_owned();
                push_str(&mut message, name);
                push_str(&mut message, "': device '");
                push_str(&mut message, d.reference.as_str());
                push_str(&mut message, "' requires a ");
                push_str(&mut message, bus.as_str());
                push_str(&mut message, " bus");
                match &d.bus_min_frequency {
                    Some(f) => {
                        let ghost head = message@;
                        push_str(&mut message, " (>= ");
                        push_str(&mut message, f.as_str());
                        push_str(&mut message, ")");
                        assert(message@ =~= head + (" (>= "@ + f@ + ")"@));
                    },
                    None => {
                        assert(message@ + Seq::<char>::empty() =~= message@);
                    },
                }
                push_str(&mut message, " on '");
                push_str(&mut message, resource);
                push_str(&mut message, "' \u{2014} ");
                push_str(&mut message, reason.as_str());
                let ghost m = message@;
                emit_after(out, Ghost(items + first), Severity::Error, "E1315", message, Some(at));
                assert(second.len() == 1);
                assert(second[0] == error_at("E1315"@, m, "components."@ + name@));
                assert((items + first).push(second[0]) =~= items + (first + second));
                assert(emitted(out@, items + (first + second)));
            },
            None => {
                assert(second =~= Seq::<Emission>::empty());
                assert(items + first + second =~= items + (first + second));
                assert(emitted(out@, items + (first + second)));
            },
        },
        None => {
            assert(items + first + second =~= items + (first + second));
        },
    }
}

fn device_checks(
    graph: &ResolvedGraph,
    boards: &Vec<(String, BoardPackageFile)>,
    requirements: &Vec<(String, DeviceRequirement)>,
    verdicts: &Vec<BusVerdict>,
    name: &str,
    component: &Component,
    out: &mut Vec<Diagnostic>,
    Ghost(items): Ghost<Seq<Emission>>,
)
    requires
        emitted(old(out)@, items),
    ensures
        emitted(final(out)@, items + device_findings(*graph, boards@, requirements@, verdicts@, name@, *component)),
{
    let d = match find_entry(requirements, component.kind.as_str()) {
        Some(d) => d,
        None => {
            assert(items + Seq::<Emission>::empty() =~= items);
            return ;
        },
    };
    let empty: Vec<Assignment> = Vec::new();
    let list = match find_entry(&graph.assignments, name) {
        Some(l) => l,
        None => &empty,
    };
    assert(list@ == assigned(*graph, name@));
    let mut j: usize = 0;
    assert(list@.subrange(0, 0) =~= Seq::<Assignment>::empty());
    assert(items + Seq::<Emission>::empty() =~= items);
    while j < list.len()
        invariant
            j <= list@.len(),
            emitted(out@, items + assignments_findings(boards@, verdicts@, name@, *component, *d, list@.subrange(0, j as int))),
        decreases list@.len() - j,
    {
        let ghost done = assignments_findings(boards@, verdicts@, name@, *component, *d, list@.subrange(0, j as int));
        assignment_checks(boards, verdicts, name, component, d, &list[j], out, Ghost(items + done));
        assert(list@.subrange(0, j + 1).drop_last() =~= list@.subrange(0, j as int));
        assert(items + done + assignment_findings(boards@, verdicts@, name@, *component, *d, list@[j as int]) =~= items
            + assignments_findings(boards@, verdicts@, name@, *component, *d, list@.subrange(0, j + 1)));
        j = j + 1;
    }
    assert(list@.subrange(0, list@.len() as int) =~= list@);
}

fn pair_listed(pairs: &Vec<(String, String)>, a: &str, b: &str) -> (found: bool)
    ensures
        found == listed_pair(pairs@, a@, b@),
{
    let mut i: usize = 0;
    while i < pairs.len()
        invariant
            i <= pairs@.len(),
            forall|j: int| 0 <= j < i ==> !((#[trigger] pairs@[j]).0@ == a@ && pairs@[j].1@ == b@),
        decreases pairs@.len() - i,
    {
        if str_eq(pairs[i].0.as_str(), a) && str_eq(pairs[i].1.as_str(), b) {
            return true;
        }
        i = i + 1;
    }
    false
}

fn current_checks(
    graph: &ResolvedGraph,
    boards: &Vec<(String, BoardPackageFile)>,
    readings: &CurrentReadings,
    name: &str,
    component: &Component,
    out: &mut Vec<Diagnostic>,
    Ghost(items): Ghost<Seq<Emission>>,
)
    requires
        emitted(old(out)@, items),
    ensures
        emitted(final(out)@, items + current_findings(*graph, boards@, *readings, name@, *component)),
{
    let draw = match attribute_text(component, "current") {
        Some(d) => d,
        None => {
            assert(items + Seq::<Emission>::empty() =~= items);
            return ;
        },
    };
    let mut at = "components.".to_owned();
    push_str(&mut at, name);
    push_str(&mut at, ".current");
    match find_entry(&readings.unreadable, name) {
        Some(e) => {
            let mut message = "component '".to_owned();
            push_str(&mut message, name);
            push_str(&mut message, "' current: ");
            push_str(&mut message, e.as_str());
            emit_after(out, Ghost(items), Severity::Error, "E1301", message, Some(at));
            assert(items.push(current_findings(*graph, boards@, *readings, name@, *component)[0]) =~= items
                + current_findings(*graph, boards@, *readings, name@, *component));
            return ;
        },
        None => {},
    }
    let empty: Vec<Assignment> = Vec::new();
    let list = match find_entry(&graph.assignments, name) {
        Some(l) => l,
        None => &empty,
    };
    assert(list@ == assigned(*graph, name@));
    let mut j: usize = 0;
    assert(list@.subrange(0, 0) =~= Seq::<Assignment>::empty());
    assert(items + Seq::<Emission>::empty() =~= items);
    while j < list.len()
        invariant
            j <= list@.len(),
            at@ == "components."@ + name@ + ".current"@,
            emitted(out@, items + limit_findings(boards@, *readings, name@, draw@, list@.subrange(0, j as int))),
        decreases list@.len() - j,
    {
        let ghost done = limit_findings(boards@, *readings, name@, draw@, list@.subrange(0, j as int));
        assert(list@.subrange(0, j + 1).drop_last() =~= list@.subrange(0, j as int));
        assert(list@.subrange(0, j + 1).last() == list@[j as int]);
        let resource = list[j].resource.0.as_str();
        let limit: Option<&str> = match split_once(resource, ".") {
            Some((controller, port)) => match find_entry(boards, controller) {
                Some(b) => match find_entry(&b.connectors, port) {
                    Some(c) => match &c.max_current {
                        Some(m) => Some(m.as_str()),
                        None => None,
                    },
                    None => None,
                },
                None => None,
            },
            None => None,
        };
        match limit {
            Some(m) => {
                if pair_listed(&readings.over_limit, name, resource) {
                    let mut message = "component '".to_owned();
                    push_str(&mut message, name);
                    push_str(&mut message, "' draws ");
                    push_str(&mut message, draw);
                    push_str(&mut message, " but '");
                    push_str(&mut message, resource);
                    push_str(&mut message, "' allows at most ");
                    push_str(&mut message, m);
                    emit_after(out, Ghost(items + done), Severity::Error, "E1300", message, Some(at.clone()));
                    assert((items + done).push(
                        limit_findings(boards@, *readings, name@, draw@, list@.subrange(0, j + 1)).last(),
                    ) =~= items + limit_findings(boards@, *readings, name@, draw@, list@.subrange(0, j + 1)));
                }
            },
            None => {},
        }
        j = j + 1;
    }
    assert(list@.subrange(0, list@.len() as int) =~= list@);
}

/// Electrical validation, in component order: first each device's voltage
/// domains (E1302) and bus requirement (E1315) on every connector it was
/// given, then each declared current draw, which must read as a current
/// (E1301) and fit each connector's limit (E1300).
pub fn validate_electrical(
    doc: &MachineDoc,
    resolved: &ResolvedGraph,
    boards: &Vec<(String, BoardPackageFile)>,
    requirements: &Vec<(String, DeviceRequirement)>,
    bus_verdicts: &Vec<BusVerdict>,
    readings: &CurrentReadings,
    diagnostics: &mut Vec<Diagnostic>,
)
    ensures
        final(diagnostics)@.subrange(0, old(diagnostics)@.len() as int) == old(diagnostics)@,
        emitted(
            final(diagnostics)@.subrange(old(diagnostics)@.len() as int, final(diagnostics)@.len() as int),
            device_run(*resolved, boards@, requirements@, bus_verdicts@, doc.components@, doc.components@.len())
                + current_run(*resolved, boards@, *readings, doc.components@, doc.components@.len()),
        ),
{
    let mut out: Vec<Diagnostic> = Vec::new();
    let n = doc.components.len();
    let mut i: usize = 0;
    while i < n
        invariant
            i <= n,
            n == doc.components@.len(),
            emitted(out@, device_run(*resolved, boards@, requirements@, bus_verdicts@, doc.components@, i as nat)),
        decreases n - i,
    {
        device_checks(
            resolved,
            boards,
            requirements,
            bus_verdicts,
            doc.components[i].0.as_str(),
            &doc.components[i].1,
            &mut out,
            Ghost(device_run(*resolved, boards@, requirements@, bus_verdicts@, doc.components@, i as nat)),
        );
        i = i + 1;
    }
    let ghost devices = device_run(*resolved, boards@, requirements@, bus_verdicts@, doc.components@, n as nat);
    let mut k: usize = 0;
    assert(devices + Seq::<Emission>::empty() =~= devices);
    while k < n
        invariant
            k <= n,
            n == doc.components@.len(),
            emitted(out@, devices + current_run(*resolved, boards@, *readings, doc.components@, k as nat)),
        decreases n - k,
    {
        let ghost done = current_run(*resolved, boards@, *readings, doc.components@, k as nat);
        current_checks(
            resolved,
            boards,
            readings,
            doc.components[k].0.as_str(),
            &doc.components[k].1,
            &mut out,
            Ghost(devices + done),
        );
        assert(devices + done + current_findings(
            *resolved,
            boards@,
            *readings,
            doc.components@[k as int].0@,
            doc.components@[k as int].1,
        ) =~= devices + current_run(*resolved, boards@, *readings, doc.components@, (k + 1) as nat));
        k = k + 1;
    }
    let ghost before = diagnostics@;
    let ghost added = out@;
    diagnostics.append(&mut out);
    assert(diagnostics@.subrange(0, before.len() as int) =~= before);
    assert(diagnostics@.subrange(before.len() as int, diagnostics@.len() as int) =~= added);
}

/// Voltage domains are a hard constraint: an assignment on
/// `controller.port` of a device that names voltage domains draws an E1302
/// error exactly when the board's connector declares no voltage domain, or
/// one that is not among the device's domains; a device that names none
/// draws none.
pub proof fn foreign_voltage_domains_are_reported(
    boards: Seq<(String, BoardPackageFile)>,
    verdicts: Seq<BusVerdict>,
    name: Seq<char>,
    component: Component,
    d: DeviceRequirement,
    a: Assignment,
    controller: Seq<char>,
    port: Seq<char>,
)
    requires
        split_at_first(a.resource.0@, "."@) == Some((controller, port)),
    ensures
        ({
            let findings = assignment_findings(boards, verdicts, name, component, d, a);
            let declares_a_required_domain = match entry(boards, controller) {
                Some(b) => match entry(b.connectors@, port) {
                    Some(c) => match c.voltage_domain {
                        Some(v) => exists|i: int| 0 <= i < d.domains@.len() && #[trigger] d.domains@[i]@ == v@,
                        None => false,
                    },
                    None => false,
                },
                None => false,
            };
            (exists|i: int|
                0 <= i < findings.len() && (#[trigger] findings[i] matches Emission::Made { code, severity, .. }
                    && code == "E1302"@ && severity == Severity::Error)) <==> (d.domains@.len() > 0
                && !declares_a_required_domain)
        }),
{
    reveal_strlit("E1302");
    reveal_strlit("E1315");
    let domains = string_views(d.domains@);
    let first = domain_findings(boards, name, d, a.resource.0@, controller, port);
    let second = bus_findings(verdicts, name, component, d, a.resource.0@);
    let findings = assignment_findings(boards, verdicts, name, component, d, a);
    assert(findings == first + second);
    match connector_domain(boards, controller, port) {
        Some(v) => {
            if domains.contains(v) {
                let j = choose|j: int| 0 <= j < domains.len() && domains[j] == v;
                assert(d.domains@[j]@ == v);
            }
            if exists|i: int| 0 <= i < d.domains@.len() && #[trigger] d.domains@[i]@ == v {
                let j = choose|j: int| 0 <= j < d.domains@.len() && #[trigger] d.domains@[j]@ == v;
                assert(domains[j] == v);
            }
        },
        None => {},
    }
    assert forall|i: int| 0 <= i < second.len() implies !(#[trigger] second[i] matches Emission::Made { code, .. }
        && code == "E1302"@) by {
        assert("E1315"@ != "E1302"@) by {
            assert("E1315"@[4] != "E1302"@[4]);
        }
    }
    if first.len() > 0 {
        assert(findings[0] == first[0]);
    }
    assert forall|i: int| 0 <= i < findings.len() && first.len() == 0 implies findings[i] == second[i] by {}
    assert forall|i: int| first.len() <= i < findings.len() implies findings[i] == second[i - first.len()] by {}
}

} // verus!
