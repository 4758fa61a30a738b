//! Firmware partitioning: the physical resources a component's safety
//! policy governs, the sensor that guards them, and the controller-local
//! safe-state bindings compiled from the safety profile.

use vstd::prelude::*;
use crate::flash::{compare_text, lemma_text_order, text_order};
use crate::package::safety::{ClassPolicy, SafeState, SafetyProfileFile};
use crate::resolver::model::{Assignment, ControllerSafeState, ResolvedGraph};
use crate::resolver::packages::{add_all, add_name, get, keyed, lookup, put, put_sorted, text_values};
use crate::resolver::sensor_kind;
use crate::package::{LoadedPackage, LocalRegistry};
use crate::resolver::packages::{selected_package, PackageSelection};
use crate::resolver::targets::{emit, emit_after, emitted, entry, error_at, find_entry, Emission};
use crate::resource::ResourceId;
use crate::schema::{is_valid_identifier, valid_identifier, AttributeValue, Component, Diagnostic, MachineDoc, Severity};
use crate::text::{push_str, split_at_first, split_once, str_eq, string_views, trimmed};

verus! {

/// A component attribute's text, when it is a string.
pub open spec fn text_attribute(component: Component, key: Seq<char>) -> Option<Seq<char>> {
    match entry(component.attributes@, key) {
        Some(AttributeValue::Text(s)) => Some(s@),
        _ => None,
    }
}

pub(crate) fn attribute_text<'a>(component: &'a Component, key: &str) -> (value: Option<&'a str>)
    ensures
        match value {
            Some(v) => text_attribute(*component, key@) == Some(v@),
            None => text_attribute(*component, key@) is None,
        },
{
    match find_entry(&component.attributes, key) {
        Some(AttributeValue::Text(s)) => Some(s.as_str()),
        _ => None,
    }
}

/// The assignments of a component, when it has some.
pub open spec fn assignments_of(graph: ResolvedGraph, component: Seq<char>) -> Seq<Assignment> {
    match entry(graph.assignments@, component) {
        Some(list) => list@,
        None => seq![],
    }
}

/// The first assignment that is not a stepper driver socket.
pub open spec fn first_non_socket(list: Seq<Assignment>) -> Option<Assignment>
    decreases list.len(),
{
    if list.len() == 0 {
        None
    } else if list[0].connector_kind@ != "stepper_driver_socket"@ {
        Some(list[0])
    } else {
        first_non_socket(list.drop_first())
    }
}

/// The assignments whose resources a component's safety policy governs:
/// its own; otherwise, those of the driver it names, which must all be
/// stepper driver sockets (the first that is not is returned with the
/// driver's name).
pub open spec fn governed(graph: ResolvedGraph, name: Seq<char>, component: Component) -> Result<
    Seq<Assignment>,
    (Seq<char>, Assignment),
> {
    let direct = assignments_of(graph, name);
    if direct.len() > 0 {
        Ok(direct)
    } else {
        match text_attribute(component, "driver"@) {
            None => Ok(seq![]),
            Some(driver) => {
                let delegated = assignments_of(graph, driver);
                match first_non_socket(delegated) {
                    Some(a) => if delegated.len() > 0 {
                        Err((driver, a))
                    } else {
                        Ok(seq![])
                    },
                    None => Ok(delegated),
                }
            },
        }
    }
}

/// The resources of assignments as texts.
pub open spec fn resource_texts(list: Seq<Assignment>) -> Seq<Seq<char>> {
    list.map_values(|a: Assignment| a.resource.0@)
}

/// The refusal of a driver that is not a stepper driver socket.
pub open spec fn driver_refusal(name: Seq<char>, driver: Seq<char>, a: Assignment) -> Seq<char> {
    "component '"@ + name + "' names '"@ + driver + "' as its driver, but '"@ + a.resource.0@
        + "' is a '"@ + a.connector_kind@ + "' connector rather than a stepper driver socket"@
}

/// The physical resources a component's safety policy governs, sorted and
/// without repeats.
pub open spec fn target_resources(graph: ResolvedGraph, name: Seq<char>, component: Component) -> Result<
    Seq<Seq<char>>,
    Seq<char>,
> {
    match governed(graph, name, component) {
        Ok(list) => Ok(add_all(seq![], resource_texts(list))),
        Err((driver, a)) => Err(driver_refusal(name, driver, a)),
    }
}

fn first_non_socket_of(list: &Vec<Assignment>) -> (found: Option<&Assignment>)
    ensures
        match found {
            Some(a) => first_non_socket(list@) == Some(*a),
            None => first_non_socket(list@) is None,
        },
{
    let mut i: usize = 0;
    assert(list@.subrange(0, list@.len() as int) =~= list@);
    while i < list.len()
        invariant
            i <= list@.len(),
            first_non_socket(list@) == first_non_socket(list@.subrange(i as int, list@.len() as int)),
        decreases list@.len() - i,
    {
        proof {
            let rest = list@.subrange(i as int, list@.len() as int);
            assert(rest.drop_first() =~= list@.subrange(i + 1, list@.len() as int));
            assert(rest[0] == list@[i as int]);
        }
        if !str_eq(list[i].connector_kind.as_str(), "stepper_driver_socket") {
            return Some(&list[i]);
        }
        i = i + 1;
    }
    None
}

/// Resource identifiers as texts.
pub open spec fn resource_views(v: Seq<ResourceId>) -> Seq<Seq<char>> {
    v.map_values(|r: ResourceId| r.0@)
}

/// Resolve the physical resources governed by a component's safety policy.
/// Most components own resources directly; logical actuators such as a
/// stepper motor inherit the connectors assigned to their declared driver.
pub fn safety_target_resources(graph: &ResolvedGraph, component_name: &str, component: &Component) -> (result: Result<
    Vec<ResourceId>,
    String,
>)
    ensures
        match target_resources(*graph, component_name@, *component) {
            Ok(rs) => result matches Ok(v) && resource_views(v@) == rs,
            Err(m) => result matches Err(e) && e@ == m,
        },
{
    let empty: Vec<Assignment> = Vec::new();
    let direct = match find_entry(&graph.assignments, component_name) {
        Some(list) => list,
        None => &empty,
    };
    let list: &Vec<Assignment> = if direct.len() > 0 {
        direct
    } else {
        let driver = match attribute_text(component, "driver") {
            Some(d) => d,
            None => {
                let none: Vec<ResourceId> = Vec::new();
                assert(resource_views(none@) =~= add_all(seq![], resource_texts(seq![])));
                return Ok(none);
            },
        };
        let delegated = match find_entry(&graph.assignments, driver) {
            Some(l) => l,
            None => &empty,
        };
        if delegated.len() == 0 {
            let none: Vec<ResourceId> = Vec::new();
            assert(resource_views(none@) =~= add_all(seq![], resource_texts(seq![])));
            return Ok(none);
        }
        match first_non_socket_of(delegated) {
            Some(a) => {
                let mut message = "component '".to_owned();
                push_str(&mut message, component_name);
                push_str(&mut message, "' names '");
                push_str(&mut message, driver);
                push_str(&mut message, "' as its driver, but '");
                push_str(&mut message, a.resource.0.as_str());
                push_str(&mut message, "' is a '");
                push_str(&mut message, a.connector_kind.as_str());
                push_str(&mut message, "' connector rather than a stepper driver socket");
                return Err(message);
            },
            None => {},
        }
        delegated
    };
    let ghost texts = resource_texts(list@);
    let mut names: Vec<String> = Vec::new();
    let mut i: usize = 0;
    while i < list.len()
        invariant
            i <= list@.len(),
            texts == resource_texts(list@),
            string_views(names@) == add_all(seq![], texts.subrange(0, i as int)),
        decreases list@.len() - i,
    {
        add_name(&mut names, list[i].resource.0.as_str());
        proof {
            let more = texts.subrange(0, i + 1);
            assert(more.drop_last() =~= texts.subrange(0, i as int));
            assert(more.last() == list@[i as int].resource.0@);
        }
        i = i + 1;
    }
    assert(texts.subrange(0, list@.len() as int) =~= texts);
    let mut resources: Vec<ResourceId> = Vec::new();
    let mut j: usize = 0;
    while j < names.len()
        invariant
            j <= names@.len(),
            resource_views(resources@) == string_views(names@).subrange(0, j as int),
        decreases names@.len() - j,
    {
        let ghost before = resources@;
        resources.push(ResourceId(names[j].clone()));
        assert(resource_views(resources@) =~= resource_views(before).push(
            names@[j as int]@,
        ));
        assert(string_views(names@).subrange(0, j + 1) =~= string_views(names@).subrange(0, j as int).push(
            names@[j as int]@,
        ));
        j = j + 1;
    }
    assert(string_views(names@).subrange(0, names@.len() as int) =~= string_views(names@));
    Ok(resources)
}

/// The controller a `controller.connector` resource names.
pub open spec fn controller_of(resource: Seq<char>) -> Option<Seq<char>> {
    match split_at_first(resource, "."@) {
        Some((c, _)) => Some(c),
        None => None,
    }
}

/// The first sensor-input assignment on `controller` in a list.
pub open spec fn sensor_on(list: Seq<Assignment>, controller: Seq<char>) -> Option<Assignment>
    decreases list.len(),
{
    if list.len() == 0 {
        None
    } else if sensor_kind(list[0].connector_kind@) && controller_of(list[0].resource.0@) == Some(controller) {
        Some(list[0])
    } else {
        sensor_on(list.drop_first(), controller)
    }
}

/// The sensor resource a component names, on `controller`.
pub open spec fn sensor_resource(graph: ResolvedGraph, component: Component, controller: Seq<char>) -> Option<
    ResourceId,
> {
    match text_attribute(component, "sensor"@) {
        None => None,
        Some(sensor) => match entry(graph.assignments@, sensor) {
            None => None,
            Some(list) => match sensor_on(list@, controller) {
                Some(a) => Some(a.resource),
                None => None,
            },
        },
    }
}

/// The resource of the component's sensor that sits on `controller`: the
/// first of the sensor's assignments to an input connector there.
pub fn sensor_resource_on_controller(graph: &ResolvedGraph, component: &Component, controller: &str) -> (resource:
    Option<ResourceId>)
    ensures
        resource == sensor_resource(*graph, *component, controller@),
{
    let sensor = match attribute_text(component, "sensor") {
        Some(s) => s,
        None => return None,
    };
    let list = match find_entry(&graph.assignments, sensor) {
        Some(l) => l,
        None => return None,
    };
    let mut i: usize = 0;
    assert(list@.subrange(0, list@.len() as int) =~= list@);
    while i < list.len()
        invariant
            i <= list@.len(),
            sensor_on(list@, controller@) == sensor_on(list@.subrange(i as int, list@.len() as int), controller@),
            text_attribute(*component, "sensor"@) == Some(sensor@),
            entry(graph.assignments@, sensor@) == Some(*list),
        decreases list@.len() - i,
    {
        proof {
            let rest = list@.subrange(i as int, list@.len() as int);
            assert(rest.drop_first() =~= list@.subrange(i + 1, list@.len() as int));
            assert(rest[0] == list@[i as int]);
        }
        let a = &list[i];
        if crate::resolver::is_sensor_connector_kind(a.connector_kind.as_str()) {
            match split_once(a.resource.0.as_str(), ".") {
                Some((candidate, _)) => {
                    if str_eq(candidate, controller) {
                        let found = ResourceId(a.resource.0.clone());
                        assert(controller_of(a.resource.0@) == Some(controller@));
                        assert(sensor_on(list@.subrange(i as int, list@.len() as int), controller@) == Some(*a));
                        assert(found == a.resource);
                        return Some(found);
                    }
                },
                None => {},
            }
        }
        i = i + 1;
    }
    None
}

// ---------------------------------------------------------------------------
// Safety bindings
// ---------------------------------------------------------------------------

/// The content of a controller-local safety binding.
pub struct BindingView {
    pub component: Seq<char>,
    pub class: Seq<char>,
    pub resource: Seq<char>,
    pub state: SafeState,
    pub heartbeat_timeout_us: Option<u64>,
    pub sensor: Option<Seq<char>>,
}

pub open spec fn binding_view(b: ControllerSafeState) -> BindingView {
    BindingView {
        component: b.component@,
        class: b.class@,
        resource: b.resource.0@,
        state: b.state,
        heartbeat_timeout_us: b.heartbeat_timeout_us,
        sensor: match b.sensor {
            Some(r) => Some(r.0@),
            None => None,
        },
    }
}

pub open spec fn binding_views(v: Seq<ControllerSafeState>) -> Seq<BindingView> {
    v.map_values(|b: ControllerSafeState| binding_view(b))
}

/// A keyed table of binding lists by their contents.
pub open spec fn table_views(t: Seq<(Seq<char>, Vec<ControllerSafeState>)>) -> Seq<(Seq<char>, Seq<BindingView>)> {
    t.map_values(|e: (Seq<char>, Vec<ControllerSafeState>)| (e.0, binding_views(e.1@)))
}

/// A graph's controller safety table: controller, then its bindings.
pub open spec fn safety_table(t: Seq<(String, Vec<ControllerSafeState>)>) -> Seq<(Seq<char>, Seq<BindingView>)> {
    table_views(keyed(t))
}

/// Bindings are ordered by component, then by resource.
pub open spec fn binding_order(a: BindingView, b: BindingView) -> int {
    let c = text_order(a.component, b.component);
    if c != 0 {
        c
    } else {
        text_order(a.resource, b.resource)
    }
}

/// Inserting into a sorted list after the bindings that tie with `b`.
pub open spec fn insert_binding(list: Seq<BindingView>, b: BindingView) -> Seq<BindingView>
    decreases list.len(),
{
    if list.len() == 0 {
        seq![b]
    } else if binding_order(list.last(), b) <= 0 {
        list.push(b)
    } else {
        insert_binding(list.drop_last(), b).push(list.last())
    }
}

/// The stable sort of bindings by component, then resource.
pub open spec fn sort_bindings(list: Seq<BindingView>) -> Seq<BindingView>
    decreases list.len(),
{
    if list.len() == 0 {
        list
    } else {
        insert_binding(sort_bindings(list.drop_last()), list.last())
    }
}

/// Each controller's bindings sorted.
pub open spec fn sorted_tables(t: Seq<(Seq<char>, Seq<BindingView>)>) -> Seq<(Seq<char>, Seq<BindingView>)> {
    t.map_values(|e: (Seq<char>, Seq<BindingView>)| (e.0, sort_bindings(e.1)))
}

/// A table with `b` appended to `controller`'s bindings.
pub open spec fn add_binding_to(
    table: Seq<(Seq<char>, Seq<BindingView>)>,
    controller: Seq<char>,
    b: BindingView,
) -> Seq<(Seq<char>, Seq<BindingView>)> {
    put_sorted(
        table,
        controller,
        match lookup(table, controller) {
            Some(list) => list.push(b),
            None => seq![b],
        },
    )
}

/// A table with placed bindings appended in order.
pub open spec fn grouped(
    table: Seq<(Seq<char>, Seq<BindingView>)>,
    placed: Seq<(Seq<char>, BindingView)>,
) -> Seq<(Seq<char>, Seq<BindingView>)>
    decreases placed.len(),
{
    if placed.len() == 0 {
        table
    } else {
        add_binding_to(grouped(table, placed.drop_last()), placed.last().0, placed.last().1)
    }
}

fn copy_binding(b: &ControllerSafeState) -> (copy: ControllerSafeState)
    ensures
        copy == *b,
{
    ControllerSafeState {
        component: b.component.clone(),
        class: b.class.clone(),
        resource: ResourceId(b.resource.0.clone()),
        state: b.state,
        heartbeat_timeout_us: b.heartbeat_timeout_us,
        sensor: match &b.sensor {
            Some(r) => Some(ResourceId(r.0.clone())),
            None => None,
        },
    }
}

fn copy_bindings(v: &Vec<ControllerSafeState>) -> (copy: Vec<ControllerSafeState>)
    ensures
        copy@ == v@,
{
    let mut copy: Vec<ControllerSafeState> = Vec::new();
    let mut i: usize = 0;
    while i < v.len()
        invariant
            i <= v@.len(),
            copy@ == v@.subrange(0, i as int),
        decreases v@.len() - i,
    {
        copy.push(copy_binding(&v[i]));
        assert(copy@ =~= v@.subrange(0, i + 1));
        i = i + 1;
    }
    assert(v@.subrange(0, v@.len() as int) =~= v@);
    copy
}

fn copy_table(t: &Vec<(String, Vec<ControllerSafeState>)>) -> (copy: Vec<(String, Vec<ControllerSafeState>)>)
    ensures
        safety_table(copy@) == safety_table(t@),
{
    let mut copy: Vec<(String, Vec<ControllerSafeState>)> = Vec::new();
    let mut i: usize = 0;
    while i < t.len()
        invariant
            i <= t@.len(),
            safety_table(copy@) == safety_table(t@).subrange(0, i as int),
        decreases t@.len() - i,
    {
        let ghost before = copy@;
        copy.push((t[i].0.clone(), copy_bindings(&t[i].1)));
        assert(safety_table(copy@) =~= safety_table(before).push((t@[i as int].0@, binding_views(t@[i as int].1@))));
        assert(safety_table(t@).subrange(0, i + 1) =~= safety_table(t@).subrange(0, i as int).push(
            (t@[i as int].0@, binding_views(t@[i as int].1@)),
        ));
        i = i + 1;
    }
    assert(safety_table(t@).subrange(0, t@.len() as int) =~= safety_table(t@));
    copy
}

fn compare_bindings(a: &ControllerSafeState, b: &ControllerSafeState) -> (order: i8)
    ensures
        order as int == binding_order(binding_view(*a), binding_view(*b)),
{
    let c = compare_text(a.component.as_str(), b.component.as_str());
    if c != 0 {
        c
    } else {
        compare_text(a.resource.0.as_str(), b.resource.0.as_str())
    }
}

fn insert_sorted_binding(sorted: &mut Vec<ControllerSafeState>, x: ControllerSafeState)
    ensures
        binding_views(final(sorted)@) == insert_binding(binding_views(old(sorted)@), binding_view(x)),
{
    let ghost s = binding_views(sorted@);
    let ghost xv = binding_view(x);
    let mut pos: usize = sorted.len();
    assert(s.subrange(0, pos as int) =~= s);
    assert(s.subrange(pos as int, s.len() as int) =~= Seq::<BindingView>::empty());
    while pos > 0 && compare_bindings(&sorted[pos - 1], &x) > 0
        invariant
            binding_views(sorted@) == s,
            xv == binding_view(x),
            pos <= s.len(),
            insert_binding(s, xv) == insert_binding(s.subrange(0, pos as int), xv) + s.subrange(
                pos as int,
                s.len() as int,
            ),
        decreases pos,
    {
        proof {
            let prefix = s.subrange(0, pos as int);
            assert(prefix.drop_last() =~= s.subrange(0, pos - 1));
            assert(prefix.last() == s[pos - 1]);
            assert(insert_binding(s.subrange(0, pos - 1), xv).push(s[pos - 1]) + s.subrange(
                pos as int,
                s.len() as int,
            ) =~= insert_binding(s.subrange(0, pos - 1), xv) + s.subrange(pos - 1, s.len() as int));
        }
        pos = pos - 1;
    }
    proof {
        let prefix = s.subrange(0, pos as int);
        if pos > 0 {
            assert(prefix.last() == s[pos - 1]);
            assert(insert_binding(prefix, xv) == prefix.push(xv));
        } else {
            assert(prefix.len() == 0);
            assert(insert_binding(prefix, xv) =~= seq![xv]);
        }
    }
    sorted.insert(pos, x);
    assert(binding_views(sorted@) =~= s.subrange(0, pos as int).push(xv) + s.subrange(pos as int, s.len() as int));
}

fn sorted_bindings(v: &Vec<ControllerSafeState>) -> (sorted: Vec<ControllerSafeState>)
    ensures
        binding_views(sorted@) == sort_bindings(binding_views(v@)),
{
    let ghost all = binding_views(v@);
    let mut sorted: Vec<ControllerSafeState> = Vec::new();
    let mut i: usize = 0;
    assert(all.subrange(0, 0) =~= Seq::<BindingView>::empty());
    while i < v.len()
        invariant
            i <= v@.len(),
            all == binding_views(v@),
            binding_views(sorted@) == sort_bindings(all.subrange(0, i as int)),
        decreases v@.len() - i,
    {
        insert_sorted_binding(&mut sorted, copy_binding(&v[i]));
        assert(all.subrange(0, i + 1).drop_last() =~= all.subrange(0, i as int));
        assert(all.subrange(0, i + 1).last() == binding_view(v@[i as int]));
        i = i + 1;
    }
    assert(all.subrange(0, v@.len() as int) =~= all);
    sorted
}

fn sort_table(t: &Vec<(String, Vec<ControllerSafeState>)>) -> (sorted: Vec<(String, Vec<ControllerSafeState>)>)
    ensures
        safety_table(sorted@) == sorted_tables(safety_table(t@)),
{
    let mut sorted: Vec<(String, Vec<ControllerSafeState>)> = Vec::new();
    let mut i: usize = 0;
    while i < t.len()
        invariant
            i <= t@.len(),
            safety_table(sorted@) == sorted_tables(safety_table(t@)).subrange(0, i as int),
        decreases t@.len() - i,
    {
        let ghost before = sorted@;
        let ghost e = (t@[i as int].0@, sort_bindings(binding_views(t@[i as int].1@)));
        sorted.push((t[i].0.clone(), sorted_bindings(&t[i].1)));
        assert(safety_table(sorted@) =~= safety_table(before).push(e));
        assert(sorted_tables(safety_table(t@)).subrange(0, i + 1) =~= sorted_tables(safety_table(t@)).subrange(
            0,
            i as int,
        ).push(e));
        i = i + 1;
    }
    assert(sorted_tables(safety_table(t@)).subrange(0, t@.len() as int) =~= sorted_tables(safety_table(t@)));
    sorted
}

proof fn lemma_table_views_put(
    table: Seq<(Seq<char>, Vec<ControllerSafeState>)>,
    key: Seq<char>,
    value: Vec<ControllerSafeState>,
)
    ensures
        table_views(put_sorted(table, key, value)) == put_sorted(table_views(table), key, binding_views(value@)),
    decreases table.len(),
{
    if table.len() == 0 {
        assert(table_views(seq![(key, value)]) =~= seq![(key, binding_views(value@))]);
    } else {
        let rest = table.drop_last();
        assert(table_views(table).drop_last() =~= table_views(rest));
        assert(table_views(table).last() == (table.last().0, binding_views(table.last().1@)));
        if text_order(table.last().0, key) < 0 {
            assert(table_views(table.push((key, value))) =~= table_views(table).push((key, binding_views(value@))));
        } else if text_order(table.last().0, key) == 0 {
            assert(table_views(rest.push((key, value))) =~= table_views(rest).push((key, binding_views(value@))));
        } else {
            lemma_table_views_put(rest, key, value);
            assert(table_views(put_sorted(rest, key, value).push(table.last())) =~= table_views(
                put_sorted(rest, key, value),
            ).push((table.last().0, binding_views(table.last().1@))));
        }
    }
}

proof fn lemma_lookup_bindings(table: Seq<(String, Vec<ControllerSafeState>)>, key: Seq<char>)
    ensures
        lookup(safety_table(table), key) == match lookup(keyed(table), key) {
            Some(v) => Some(binding_views(v@)),
            None => None::<Seq<BindingView>>,
        },
    decreases table.len(),
{
    if table.len() > 0 {
        assert(safety_table(table).drop_first() =~= safety_table(table.drop_first()));
        assert(keyed(table).drop_first() =~= keyed(table.drop_first()));
        lemma_lookup_bindings(table.drop_first(), key);
    }
}

fn add_binding(table: &mut Vec<(String, Vec<ControllerSafeState>)>, controller: &str, binding: ControllerSafeState)
    ensures
        safety_table(final(table)@) == add_binding_to(safety_table(old(table)@), controller@, binding_view(binding)),
{
    let mut list: Vec<ControllerSafeState> = match get(table, controller) {
        Some(l) => copy_bindings(l),
        None => Vec::new(),
    };
    proof {
        lemma_lookup_bindings(table@, controller@);
    }
    list.push(binding);
    assert(binding_views(list@) =~= match lookup(safety_table(table@), controller@) {
        Some(l) => l.push(binding_view(binding)),
        None => seq![binding_view(binding)],
    });
    let ghost before = table@;
    let ghost value = list;
    put(table, controller.to_owned(), list);
    proof {
        lemma_table_views_put(keyed(before), controller@, value);
    }
}

// ---------------------------------------------------------------------------
// Partitioning
// ---------------------------------------------------------------------------

/// The state of partitioning: the owner of each physical resource bound so
/// far (resource, component), the bindings placed under their controllers,
/// in order, and the findings.
pub struct Partition {
    pub owners: Seq<(Seq<char>, Seq<char>)>,
    pub placed: Seq<(Seq<char>, BindingView)>,
    pub findings: Seq<Emission>,
}

/// The position of the first policy for `kind`.
pub open spec fn class_index(classes: Seq<(String, ClassPolicy)>, kind: Seq<char>) -> Option<int>
    decreases classes.len(),
{
    if classes.len() == 0 {
        None
    } else if class_index(classes.drop_last(), kind) is Some {
        class_index(classes.drop_last(), kind)
    } else if classes.last().0@ == kind {
        Some(classes.len() - 1)
    } else {
        None
    }
}

proof fn lemma_class_prefix(classes: Seq<(String, ClassPolicy)>, kind: Seq<char>, k: int)
    requires
        0 <= k <= classes.len(),
        class_index(classes.subrange(0, k), kind) is Some,
    ensures
        class_index(classes, kind) == class_index(classes.subrange(0, k), kind),
    decreases classes.len() - k,
{
    if k < classes.len() {
        assert(classes.subrange(0, k + 1).drop_last() =~= classes.subrange(0, k));
        lemma_class_prefix(classes, kind, k + 1);
    } else {
        assert(classes.subrange(0, k) =~= classes);
    }
}

fn find_class(classes: &Vec<(String, ClassPolicy)>, kind: &str) -> (index: Option<usize>)
    ensures
        match index {
            Some(i) => i < classes@.len() && class_index(classes@, kind@) == Some(i as int),
            None => class_index(classes@, kind@) is None,
        },
{
    let mut i: usize = 0;
    assert(classes@.subrange(0, 0) =~= Seq::<(String, ClassPolicy)>::empty());
    while i < classes.len()
        invariant
            i <= classes@.len(),
            class_index(classes@.subrange(0, i as int), kind@) is None,
        decreases classes@.len() - i,
    {
        assert(classes@.subrange(0, i + 1).drop_last() =~= classes@.subrange(0, i as int));
        if str_eq(classes[i].0.as_str(), kind) {
            proof {
                lemma_class_prefix(classes@, kind@, i + 1);
            }
            return Some(i);
        }
        i = i + 1;
    }
    assert(classes@.subrange(0, classes@.len() as int) =~= classes@);
    None
}

/// The refusal of a second safety action for one physical resource.
pub open spec fn conflict_message(existing: Seq<char>, name: Seq<char>, resource: Seq<char>) -> Seq<char> {
    "components '"@ + existing + "' and '"@ + name + "' both define safety actions for physical resource '"@
        + resource + "'"@
}

/// The binding a component's policy gives one of its resources: the
/// policy's safe state and heartbeat timeout, and the component's sensor on
/// the same controller when the policy requires one.
pub open spec fn made_binding(
    graph: ResolvedGraph,
    name: Seq<char>,
    component: Component,
    policy: ClassPolicy,
    timeout: Option<u64>,
    resource: Seq<char>,
    controller: Seq<char>,
) -> BindingView {
    BindingView {
        component: name,
        class: component.kind@,
        resource,
        state: policy.safe_state,
        heartbeat_timeout_us: timeout,
        sensor: if policy.requires_sensor {
            match sensor_resource(graph, component, controller) {
                Some(r) => Some(r.0@),
                None => None,
            }
        } else {
            None
        },
    }
}

/// One governed resource of a component: skipped without a controller,
/// refused when another component already owns it, else bound.
pub open spec fn place(
    st: Partition,
    graph: ResolvedGraph,
    name: Seq<char>,
    component: Component,
    policy: ClassPolicy,
    timeout: Option<u64>,
    resource: Seq<char>,
) -> Partition {
    match controller_of(resource) {
        None => st,
        Some(controller) => match lookup(st.owners, resource) {
            Some(existing) => Partition {
                findings: st.findings.push(
                    error_at("E1508"@, conflict_message(existing, name, resource), "components."@ + name),
                ),
                ..st
            },
            None => Partition {
                owners: st.owners.push((resource, name)),
                placed: st.placed.push(
                    (controller, made_binding(graph, name, component, policy, timeout, resource, controller)),
                ),
                ..st
            },
        },
    }
}

pub open spec fn place_all(
    st: Partition,
    graph: ResolvedGraph,
    name: Seq<char>,
    component: Component,
    policy: ClassPolicy,
    timeout: Option<u64>,
    resources: Seq<Seq<char>>,
) -> Partition
    decreases resources.len(),
{
    if resources.len() == 0 {
        st
    } else {
        place(
            place_all(st, graph, name, component, policy, timeout, resources.drop_last()),
            graph,
            name,
            component,
            policy,
            timeout,
            resources.last(),
        )
    }
}

/// One component: its governed resources are placed when its class has a
/// policy and the resources resolve.
pub open spec fn partition_component(
    st: Partition,
    graph: ResolvedGraph,
    classes: Seq<(String, ClassPolicy)>,
    timeouts: Seq<Option<u64>>,
    name: Seq<char>,
    component: Component,
) -> Partition {
    match class_index(classes, component.kind@) {
        None => st,
        Some(i) => match target_resources(graph, name, component) {
            Err(_) => st,
            Ok(resources) => place_all(st, graph, name, component, classes[i].1, timeouts[i], resources),
        },
    }
}

/// Partitioning after the first `k` components.
pub open spec fn partition_run(
    graph: ResolvedGraph,
    components: Seq<(String, Component)>,
    classes: Seq<(String, ClassPolicy)>,
    timeouts: Seq<Option<u64>>,
    k: nat,
) -> Partition
    decreases k,
{
    if k == 0 || k > components.len() {
        Partition { owners: seq![], placed: seq![], findings: seq![] }
    } else {
        partition_component(
            partition_run(graph, components, classes, timeouts, (k - 1) as nat),
            graph,
            classes,
            timeouts,
            components[k - 1].0@,
            components[k - 1].1,
        )
    }
}

fn place_resources(
    graph: &ResolvedGraph,
    table: &mut Vec<(String, Vec<ControllerSafeState>)>,
    owners: &mut Vec<(String, String)>,
    out: &mut Vec<Diagnostic>,
    Ghost(initial): Ghost<Seq<(Seq<char>, Seq<BindingView>)>>,
    Ghost(st): Ghost<Partition>,
    name: &String,
    component: &Component,
    policy: &ClassPolicy,
    timeout: Option<u64>,
    resources: &Vec<ResourceId>,
)
    requires
        text_values(keyed(old(owners)@)) == st.owners,
        safety_table(old(table)@) == grouped(initial, st.placed),
        emitted(old(out)@, st.findings),
    ensures
        ({
            let next = place_all(st, *graph, name@, *component, *policy, timeout, resource_views(resources@));
            &&& text_values(keyed(final(owners)@)) == next.owners
            &&& safety_table(final(table)@) == grouped(initial, next.placed)
            &&& emitted(final(out)@, next.findings)
        }),
{
    let ghost texts = resource_views(resources@);
    let mut j: usize = 0;
    assert(texts.subrange(0, 0) =~= Seq::<Seq<char>>::empty());
    while j < resources.len()
        invariant
            j <= resources@.len(),
            texts == resource_views(resources@),
            ({
                let cur = place_all(st, *graph, name@, *component, *policy, timeout, texts.subrange(0, j as int));
                &&& text_values(keyed(owners@)) == cur.owners
                &&& safety_table(table@) == grouped(initial, cur.placed)
                &&& emitted(out@, cur.findings)
            }),
        decreases resources@.len() - j,
    {
        let ghost cur = place_all(st, *graph, name@, *component, *policy, timeout, texts.subrange(0, j as int));
        proof {
            assert(texts.subrange(0, j + 1).drop_last() =~= texts.subrange(0, j as int));
            assert(texts.subrange(0, j + 1).last() == resources@[j as int].0@);
        }
        let r = &resources[j];
        match split_once(r.0.as_str(), ".") {
            None => {},
            Some((controller, _)) => {
                assert(controller_of(r.0@) == Some(controller@));
                proof {
                    crate::resolver::packages::lemma_lookup_texts(owners@, r.0@);
                }
                match get(owners, r.0.as_str()) {
                    Some(existing) => {
                        let mut message = "components '".to_owned();
                        push_str(&mut message, existing.as_str());
                        push_str(&mut message, "' and '");
                        push_str(&mut message, name.as_str());
                        push_str(&mut message, "' both define safety actions for physical resource '");
                        push_str(&mut message, r.0.as_str());
                        push_str(&mut message, "'");
                        let mut path = "components.".to_owned();
                        push_str(&mut path, name.as_str());
                        emit_after(out, Ghost(cur.findings), Severity::Error, "E1508", message, Some(path));
                    },
                    None => {
                        let sensor = if policy.requires_sensor {
                            sensor_resource_on_controller(graph, component, controller)
                        } else {
                            None
                        };
                        let binding = ControllerSafeState {
                            component: name.clone(),
                            class: component.kind.clone(),
                            resource: ResourceId(r.0.clone()),
                            state: policy.safe_state,
                            heartbeat_timeout_us: timeout,
                            sensor,
                        };
                        assert(binding_view(binding) == made_binding(
                            *graph,
                            name@,
                            *component,
                            *policy,
                            timeout,
                            r.0@,
                            controller@,
                        ));
                        let ghost before = owners@;
                        owners.push((r.0.clone(), name.clone()));
                        assert(text_values(keyed(owners@)) =~= text_values(keyed(before)).push((r.0@, name@)));
                        add_binding(table, controller, binding);
                        let ghost placed = cur.placed.push((controller@, binding_view(binding)));
                        assert(placed.drop_last() =~= cur.placed);
                    },
                }
            },
        }
        j = j + 1;
    }
    assert(texts.subrange(0, resources@.len() as int) =~= texts);
}

/// Compile the safety profile into controller-local safe-state bindings:
/// each physical resource a covered component governs is bound once, under
/// its controller, with the class's safe state and heartbeat timeout (the
/// timeouts are given in the profile's class order) and, when the class
/// requires one, the component's sensor on that controller. A second
/// component governing the same resource is refused (E1508). Each
/// controller's bindings end sorted by component, then resource.
pub fn partition(
    doc: &MachineDoc,
    resolved: &mut ResolvedGraph,
    profile: Option<&SafetyProfileFile>,
    heartbeat_timeouts: &Vec<Option<u64>>,
    diagnostics: &mut Vec<Diagnostic>,
)
    requires
        match profile {
            Some(p) => heartbeat_timeouts@.len() == p.classes@.len(),
            None => true,
        },
    ensures
        match profile {
            None => *final(resolved) == *old(resolved) && final(diagnostics)@ == old(diagnostics)@,
            Some(p) => {
                let run = partition_run(
                    *old(resolved),
                    doc.components@,
                    p.classes@,
                    heartbeat_timeouts@,
                    doc.components@.len(),
                );
                &&& final(resolved).assignments == old(resolved).assignments
                &&& final(resolved).controller_build_plans == old(resolved).controller_build_plans
                &&& final(resolved).packages == old(resolved).packages
                &&& safety_table(final(resolved).controller_safety@) == sorted_tables(
                    grouped(safety_table(old(resolved).controller_safety@), run.placed),
                )
                &&& final(diagnostics)@.subrange(0, old(diagnostics)@.len() as int) == old(diagnostics)@
                &&& emitted(
                    final(diagnostics)@.subrange(old(diagnostics)@.len() as int, final(diagnostics)@.len() as int),
                    run.findings,
                )
            },
        },
{
    let p = match profile {
        Some(p) => p,
        None => return ,
    };
    let ghost graph = *resolved;
    let ghost initial = safety_table(resolved.controller_safety@);
    let mut table = copy_table(&resolved.controller_safety);
    let mut owners: Vec<(String, String)> = Vec::new();
    let mut out: Vec<Diagnostic> = Vec::new();
    let n = doc.components.len();
    let mut i: usize = 0;
    assert(text_values(keyed(owners@)) =~= Seq::<(Seq<char>, Seq<char>)>::empty());
    while i < n
        invariant
            i <= n,
            n == doc.components@.len(),
            heartbeat_timeouts@.len() == p.classes@.len(),
            *resolved == graph,
            initial == safety_table(graph.controller_safety@),
            ({
                let cur = partition_run(graph, doc.components@, p.classes@, heartbeat_timeouts@, i as nat);
                &&& text_values(keyed(owners@)) == cur.owners
                &&& safety_table(table@) == grouped(initial, cur.placed)
                &&& emitted(out@, cur.findings)
            }),
        decreases n - i,
    {
        let ghost cur = partition_run(graph, doc.components@, p.classes@, heartbeat_timeouts@, i as nat);
        let name = &doc.components[i].0;
        let component = &doc.components[i].1;
        match find_class(&p.classes, component.kind.as_str()) {
            None => {},
            Some(ci) => match safety_target_resources(&*resolved, name.as_str(), component) {
                Err(_) => {},
                Ok(resources) => {
                    place_resources(
                        &*resolved,
                        &mut table,
                        &mut owners,
                        &mut out,
                        Ghost(initial),
                        Ghost(cur),
                        name,
                        component,
                        &p.classes[ci].1,
                        heartbeat_timeouts[ci],
                        &resources,
                    );
                },
            },
        }
        i = i + 1;
    }
    let sorted = sort_table(&table);
    resolved.controller_safety = sorted;
    let ghost before = diagnostics@;
    let ghost added = out@;
    diagnostics.append(&mut out);
    assert(diagnostics@.subrange(0, before.len() as int) =~= before);
    assert(diagnostics@.subrange(before.len() as int, diagnostics@.len() as int) =~= added);
}

// ---------------------------------------------------------------------------
// Laws
// ---------------------------------------------------------------------------

/// Every binding sorts no later than the ones after it.
pub open spec fn bindings_in_order(list: Seq<BindingView>) -> bool {
    forall|i: int, j: int| 0 <= i < j < list.len() ==> binding_order(list[i], list[j]) <= 0
}

/// The binding order is a total preorder.
proof fn lemma_binding_order(a: BindingView, b: BindingView, c: BindingView)
    ensures
        binding_order(a, b) == -binding_order(b, a),
        binding_order(a, b) <= 0 && binding_order(b, c) <= 0 ==> binding_order(a, c) <= 0,
{
    lemma_text_order(a.component, b.component, c.component);
    lemma_text_order(b.component, c.component, a.component);
    lemma_text_order(a.component, c.component, b.component);
    lemma_text_order(a.resource, b.resource, c.resource);
    lemma_text_order(b.resource, c.resource, a.resource);
    lemma_text_order(a.resource, c.resource, b.resource);
}

proof fn lemma_insert_binding_multiset(list: Seq<BindingView>, b: BindingView)
    ensures
        insert_binding(list, b).to_multiset() =~= list.to_multiset().insert(b),
    decreases list.len(),
{
    broadcast use vstd::seq_lib::group_to_multiset_ensures;

    if list.len() == 0 {
        assert(seq![b] =~= Seq::<BindingView>::empty().push(b));
    } else if binding_order(list.last(), b) <= 0 {
    } else {
        let rest = list.drop_last();
        lemma_insert_binding_multiset(rest, b);
        assert(list =~= rest.push(list.last()));
    }
}

proof fn lemma_insert_binding_in_order(list: Seq<BindingView>, b: BindingView)
    requires
        bindings_in_order(list),
    ensures
        bindings_in_order(insert_binding(list, b)),
    decreases list.len(),
{
    broadcast use vstd::seq_lib::group_to_multiset_ensures;

    let r = insert_binding(list, b);
    if list.len() == 0 {
    } else if binding_order(list.last(), b) <= 0 {
        assert forall|i: int, j: int| 0 <= i < j < r.len() implies binding_order(r[i], r[j]) <= 0 by {
            if j == r.len() - 1 && i < list.len() - 1 {
                lemma_binding_order(r[i], list.last(), b);
            }
        }
    } else {
        let rest = list.drop_last();
        let last = list.last();
        let inner = insert_binding(rest, b);
        lemma_insert_binding_in_order(rest, b);
        lemma_insert_binding_multiset(rest, b);
        lemma_binding_order(last, b, b);
        assert forall|i: int, j: int| 0 <= i < j < r.len() implies binding_order(r[i], r[j]) <= 0 by {
            if j == r.len() - 1 {
                let y = inner[i];
                assert(inner.to_multiset().count(y) > 0);
                if y != b {
                    assert(rest.to_multiset().count(y) > 0);
                    let k = choose|k: int| 0 <= k < rest.len() && rest[k] == y;
                    assert(list[k] == y);
                } else {
                    lemma_binding_order(b, last, b);
                }
            }
        }
    }
}

/// Each controller's bindings come out of partitioning in component, then
/// resource order, and the sort keeps exactly the bindings it was given.
pub proof fn controller_bindings_are_sorted_and_complete(list: Seq<BindingView>)
    ensures
        bindings_in_order(sort_bindings(list)),
        sort_bindings(list).to_multiset() =~= list.to_multiset(),
    decreases list.len(),
{
    broadcast use vstd::seq_lib::group_to_multiset_ensures;

    if list.len() > 0 {
        let rest = list.drop_last();
        controller_bindings_are_sorted_and_complete(rest);
        lemma_insert_binding_in_order(sort_bindings(rest), list.last());
        lemma_insert_binding_multiset(sort_bindings(rest), list.last());
        assert(list =~= rest.push(list.last()));
    }
}

/// The placements so far bind distinct resources, each under the controller
/// its resource names, and the owners are those resources in order.
pub open spec fn well_placed(st: Partition) -> bool {
    &&& st.owners.len() == st.placed.len()
    &&& forall|i: int|
        0 <= i < st.placed.len() ==> {
            &&& #[trigger] st.owners[i].0 == st.placed[i].1.resource
            &&& st.owners[i].1 == st.placed[i].1.component
            &&& controller_of(st.placed[i].1.resource) == Some(st.placed[i].0)
        }
    &&& forall|a: int, b: int|
        0 <= a < b < st.placed.len() ==> #[trigger] st.placed[a].1.resource != #[trigger] st.placed[b].1.resource
}

pub(crate) proof fn lemma_lookup_absent(owners: Seq<(Seq<char>, Seq<char>)>, key: Seq<char>)
    requires
        lookup(owners, key) is None,
    ensures
        forall|i: int| 0 <= i < owners.len() ==> #[trigger] owners[i].0 != key,
    decreases owners.len(),
{
    if owners.len() > 0 {
        lemma_lookup_absent(owners.drop_first(), key);
        assert forall|i: int| 0 <= i < owners.len() implies #[trigger] owners[i].0 != key by {
            if i > 0 {
                assert(owners[i] == owners.drop_first()[i - 1]);
            }
        }
    }
}

proof fn lemma_place_well(
    st: Partition,
    graph: ResolvedGraph,
    name: Seq<char>,
    component: Component,
    policy: ClassPolicy,
    timeout: Option<u64>,
    resource: Seq<char>,
)
    requires
        well_placed(st),
    ensures
        well_placed(place(st, graph, name, component, policy, timeout, resource)),
{
    match controller_of(resource) {
        None => {},
        Some(controller) => match lookup(st.owners, resource) {
            Some(_) => {},
            None => {
                lemma_lookup_absent(st.owners, resource);
                let next = place(st, graph, name, component, policy, timeout, resource);
                assert forall|i: int| 0 <= i < next.placed.len() implies {
                    &&& #[trigger] next.owners[i].0 == next.placed[i].1.resource
                    &&& next.owners[i].1 == next.placed[i].1.component
                    &&& controller_of(next.placed[i].1.resource) == Some(next.placed[i].0)
                } by {
                    if i < st.placed.len() {
                        assert(next.owners[i] == st.owners[i]);
                        assert(next.placed[i] == st.placed[i]);
                    }
                }
                assert forall|a: int, b: int| 0 <= a < b < next.placed.len() implies #[trigger] next.placed[
                    a
                ].1.resource != #[trigger] next.placed[b].1.resource by {
                    assert(next.placed[a] == st.placed[a]);
                    if b < st.placed.len() {
                        assert(next.placed[b] == st.placed[b]);
                    } else {
                        assert(st.owners[a].0 == st.placed[a].1.resource);
                    }
                }
            },
        },
    }
}

proof fn lemma_place_all_well(
    st: Partition,
    graph: ResolvedGraph,
    name: Seq<char>,
    component: Component,
    policy: ClassPolicy,
    timeout: Option<u64>,
    resources: Seq<Seq<char>>,
)
    requires
        well_placed(st),
    ensures
        well_placed(place_all(st, graph, name, component, policy, timeout, resources)),
    decreases resources.len(),
{
    if resources.len() > 0 {
        lemma_place_all_well(st, graph, name, component, policy, timeout, resources.drop_last());
        lemma_place_well(
            place_all(st, graph, name, component, policy, timeout, resources.drop_last()),
            graph,
            name,
            component,
            policy,
            timeout,
            resources.last(),
        );
    }
}

/// Partitioning binds each physical resource at most once, under the
/// controller the resource names, and records the component that owns it.
pub proof fn partition_binds_each_resource_once(
    graph: ResolvedGraph,
    components: Seq<(String, Component)>,
    classes: Seq<(String, ClassPolicy)>,
    timeouts: Seq<Option<u64>>,
    k: nat,
)
    ensures
        well_placed(partition_run(graph, components, classes, timeouts, k)),
    decreases k,
{
    if k > 0 && k <= components.len() {
        let before = partition_run(graph, components, classes, timeouts, (k - 1) as nat);
        partition_binds_each_resource_once(graph, components, classes, timeouts, (k - 1) as nat);
        let (name, component) = (components[k - 1].0@, components[k - 1].1);
        match class_index(classes, component.kind@) {
            None => {},
            Some(i) => match target_resources(graph, name, component) {
                Err(_) => {},
                Ok(resources) => {
                    lemma_place_all_well(before, graph, name, component, classes[i].1, timeouts[i], resources);
                },
            },
        }
    }
}

// ---------------------------------------------------------------------------
// Safety coverage
// ---------------------------------------------------------------------------

/// A safety profile is named `namespace/name`, both identifiers.
pub open spec fn is_profile_name(text: Seq<char>) -> bool {
    match split_at_first(text, "/"@) {
        Some((namespace, name)) => is_valid_identifier(namespace) && is_valid_identifier(name),
        None => false,
    }
}

/// Whether a safety-profile reference is `namespace/name`.
pub fn valid_package_ref_name(text: &str) -> (valid: bool)
    ensures
        valid == is_profile_name(text@),
{
    match split_once(text, "/") {
        Some((namespace, name)) => valid_identifier(namespace) && valid_identifier(name),
        None => false,
    }
}

/// The safety-profile package a machine names: refused (E1500) when the
/// name is not `namespace/name` or the registry lacks it.
pub open spec fn profile_package(
    doc: MachineDoc,
    chosen: Seq<(Seq<char>, semver::Version)>,
    registry: LocalRegistry,
) -> Result<LoadedPackage, Emission> {
    let profile = doc.safety.profile@;
    if !is_profile_name(profile) {
        Err(error_at("E1500"@, "safety profile '"@ + profile + "' must be 'namespace/name'"@, "safety.profile"@))
    } else {
        match selected_package(chosen, registry, profile) {
            None => Err(
                error_at("E1500"@, "safety profile '"@ + profile + "' is not in the registry"@, "safety.profile"@),
            ),
            Some(package) => Ok(package),
        }
    }
}

/// Select the machine's safety-profile package, reporting E1500 when its
/// name is malformed or the registry lacks it. Its payload is read next.
pub fn safety_profile_package<'a>(
    doc: &MachineDoc,
    packages: &PackageSelection,
    registry: &'a LocalRegistry,
    diagnostics: &mut Vec<Diagnostic>,
) -> (package: Option<&'a LoadedPackage>)
    ensures
        match profile_package(*doc, keyed(packages.chosen@), *registry) {
            Ok(p) => package == Some(&p) && final(diagnostics)@ == old(diagnostics)@,
            Err(e) => package is None && final(diagnostics)@.subrange(0, old(diagnostics)@.len() as int)
                == old(diagnostics)@ && emitted(
                final(diagnostics)@.subrange(old(diagnostics)@.len() as int, final(diagnostics)@.len() as int),
                seq![e],
            ),
        },
{
    let profile = doc.safety.profile.as_str();
    let mut out: Vec<Diagnostic> = Vec::new();
    let found = if !valid_package_ref_name(profile) {
        let mut message = "safety profile '".to_owned();
        push_str(&mut message, profile);
        push_str(&mut message, "' must be 'namespace/name'");
        emit_after(&mut out, Ghost(Seq::empty()), Severity::Error, "E1500", message, Some("safety.profile".to_owned()));
        None
    } else {
        match packages.select(registry, profile) {
            Some(p) => Some(p),
            None => {
                let mut message = "safety profile '".to_owned();
                push_str(&mut message, profile);
                push_str(&mut message, "' is not in the registry");
                emit_after(
                    &mut out,
                    Ghost(Seq::empty()),
                    Severity::Error,
                    "E1500",
                    message,
                    Some("safety.profile".to_owned()),
                );
                None
            },
        }
    };
    assert(Seq::<Emission>::empty().push(profile_package(*doc, keyed(packages.chosen@), *registry)->Err_0) =~= seq![
        profile_package(*doc, keyed(packages.chosen@), *registry)->Err_0,
    ]);
    let ghost before = diagnostics@;
    let ghost added = out@;
    diagnostics.append(&mut out);
    assert(diagnostics@.subrange(0, before.len() as int) =~= before);
    assert(diagnostics@.subrange(before.len() as int, diagnostics@.len() as int) =~= added);
    found
}

/// A finding with a suggestion.
pub open spec fn suggested_error(code: Seq<char>, message: Seq<char>, path: Seq<char>, suggestion: Seq<char>) -> Emission {
    Emission::Made { severity: Severity::Error, code, message, path: Some(path), suggestion: Some(suggestion) }
}

/// Some assignment of the list is on a connector of `kind`.
pub open spec fn has_kind(list: Seq<Assignment>, kind: Seq<char>) -> bool {
    exists|i: int| 0 <= i < list.len() && (#[trigger] list[i]).connector_kind@ == kind
}

/// Some assignment of the list is on a sensor input.
pub open spec fn has_sensor_input(list: Seq<Assignment>) -> bool {
    exists|i: int| 0 <= i < list.len() && sensor_kind((#[trigger] list[i]).connector_kind@)
}

/// The controllers the first `k` resources name, in order.
pub open spec fn controllers_upto(targets: Seq<Seq<char>>, k: nat) -> Seq<Seq<char>>
    decreases k,
{
    if k == 0 || k > targets.len() {
        seq![]
    } else {
        match controller_of(targets[k - 1]) {
            Some(c) => controllers_upto(targets, (k - 1) as nat).push(c),
            None => controllers_upto(targets, (k - 1) as nat),
        }
    }
}

/// E1504 for each controller of the governed resources, on its first
/// resource, where the component's sensor does not sit.
pub open spec fn controller_findings(
    graph: ResolvedGraph,
    component: Component,
    name: Seq<char>,
    sensor: Seq<char>,
    targets: Seq<Seq<char>>,
    k: nat,
) -> Seq<Emission>
    decreases k,
{
    if k == 0 || k > targets.len() {
        seq![]
    } else {
        let before = controller_findings(graph, component, name, sensor, targets, (k - 1) as nat);
        let t = targets[k - 1];
        match controller_of(t) {
            None => before,
            Some(c) => if controllers_upto(targets, (k - 1) as nat).contains(c) || sensor_resource(
                graph,
                component,
                c,
            ) is Some {
                before
            } else {
                before.push(
                    error_at(
                        "E1504"@,
                        "component '"@ + name + "' and required sensor '"@ + sensor
                            + "' must resolve on the same controller as '"@ + t + "'"@,
                        "components."@ + name + ".sensor"@,
                    ),
                )
            },
        }
    }
}

/// The sensor checks of a component whose class requires one.
pub open spec fn sensor_findings(
    graph: ResolvedGraph,
    component: Component,
    name: Seq<char>,
    targets: Seq<Seq<char>>,
) -> Seq<Emission> {
    let at_sensor = "components."@ + name + ".sensor"@;
    match text_attribute(component, "sensor"@) {
        Some(sensor) if trimmed(sensor).len() > 0 => {
            let held = assignments_of(graph, sensor);
            if held.len() == 0 {
                seq![
                    error_at(
                        "E1503"@,
                        "component '"@ + name + "' requires sensor '"@ + sensor
                            + "', but that sensor has no resolved controller resource"@,
                        at_sensor,
                    ),
                ]
            } else if !has_sensor_input(held) {
                seq![
                    error_at(
                        "E1507"@,
                        "component '"@ + name + "' requires sensor '"@ + sensor
                            + "', but its resolved resource is not a sensor input"@,
                        at_sensor,
                    ),
                ]
            } else {
                controller_findings(graph, component, name, sensor, targets, targets.len())
            }
        },
        _ => seq![
            suggested_error(
                "E1502"@,
                "class '"@ + component.kind@ + "' requires a sensor, but component '"@ + name + "' declares none"@,
                "components."@ + name,
                "add 'sensor: <component>' referencing a sensor component"@,
            ),
        ],
    }
}

/// The safety-coverage findings of one component: its governed resources
/// must resolve (E1506); a component driving a power output or delegating
/// to a driver needs a class policy (E1501); a covered component needs a
/// controller resource (E1505) and, when its class requires one, a sensor
/// that resolves to an input on the same controllers.
pub open spec fn coverage_findings(
    graph: ResolvedGraph,
    profile_name: Seq<char>,
    classes: Seq<(String, ClassPolicy)>,
    name: Seq<char>,
    component: Component,
) -> Seq<Emission> {
    let own = assignments_of(graph, name);
    let at_component = "components."@ + name;
    match target_resources(graph, name, component) {
        Err(m) => seq![error_at("E1506"@, m, at_component + ".driver"@)],
        Ok(targets) => {
            let driver_backed = own.len() == 0 && text_attribute(component, "driver"@) is Some;
            let hazardous = has_kind(own, "power_output"@);
            let kind = component.kind@;
            let policy = entry(classes, kind);
            let missing = if (hazardous || driver_backed) && policy is None {
                seq![
                    suggested_error(
                        "E1501"@,
                        "component '"@ + name + "' "@ + (if driver_backed {
                            "delegates an actuator output to a driver"@
                        } else {
                            "drives a power output"@
                        }) + " but class '"@ + kind + "' has no policy in '"@ + profile_name + "'"@,
                        at_component,
                        "add a '"@ + kind + "' class to the safety profile or use a covered class"@,
                    ),
                ]
            } else {
                seq![]
            };
            match policy {
                None => missing,
                Some(p) => if targets.len() == 0 {
                    seq![
                        error_at(
                            "E1505"@,
                            "component '"@ + name + "' has class '"@ + kind
                                + "' safety policy but no concrete controller resource"@,
                            at_component,
                        ),
                    ]
                } else if !p.requires_sensor {
                    seq![]
                } else {
                    sensor_findings(graph, component, name, targets)
                },
            }
        },
    }
}

/// The coverage findings of the first `k` components, in order.
pub open spec fn coverage_run(
    graph: ResolvedGraph,
    profile_name: Seq<char>,
    classes: Seq<(String, ClassPolicy)>,
    components: Seq<(String, Component)>,
    k: nat,
) -> Seq<Emission>
    decreases k,
{
    if k == 0 || k > components.len() {
        seq![]
    } else {
        coverage_run(graph, profile_name, classes, components, (k - 1) as nat) + coverage_findings(
            graph,
            profile_name,
            classes,
            components[k - 1].0@,
            components[k - 1].1,
        )
    }
}

fn any_kind(list: &Vec<Assignment>, kind: &str) -> (found: bool)
    ensures
        found == has_kind(list@, kind@),
{
    let mut i: usize = 0;
    while i < list.len()
        invariant
            i <= list@.len(),
            forall|j: int| 0 <= j < i ==> (#[trigger] list@[j]).connector_kind@ != kind@,
        decreases list@.len() - i,
    {
        if str_eq(list[i].connector_kind.as_str(), kind) {
            return true;
        }
        i = i + 1;
    }
    false
}

fn any_sensor_input(list: &Vec<Assignment>) -> (found: bool)
    ensures
        found == has_sensor_input(list@),
{
    let mut i: usize = 0;
    while i < list.len()
        invariant
            i <= list@.len(),
            forall|j: int| 0 <= j < i ==> !sensor_kind((#[trigger] list@[j]).connector_kind@),
        decreases list@.len() - i,
    {
        if crate::resolver::is_sensor_connector_kind(list[i].connector_kind.as_str()) {
            return true;
        }
        i = i + 1;
    }
    false
}

pub(crate) fn contains_text(list: &Vec<String>, x: &str) -> (found: bool)
    ensures
        found == string_views(list@).contains(x@),
{
    let mut i: usize = 0;
    while i < list.len()
        invariant
            i <= list@.len(),
            forall|j: int| 0 <= j < i ==> list@[j]@ != x@,
        decreases list@.len() - i,
    {
        if str_eq(list[i].as_str(), x) {
            assert(string_views(list@)[i as int] == x@);
            return true;
        }
        i = i + 1;
    }
    assert forall|j: int| 0 <= j < string_views(list@).len() implies string_views(list@)[j] != x@ by {
        assert(string_views(list@)[j] == list@[j]@);
    }
    false
}

/// A single made finding, as a fresh list.
fn single(severity: Severity, code: &str, message: String, path: String, suggestion: Option<String>) -> (out: Vec<
    Diagnostic,
>)
    ensures
        emitted(
            out@,
            seq![
                Emission::Made {
                    severity,
                    code: code@,
                    message: message@,
                    path: Some(path@),
                    suggestion: crate::spans::name_view(suggestion),
                },
            ],
        ),
{
    let mut out: Vec<Diagnostic> = Vec::new();
    let ghost s = crate::spans::name_view(suggestion);
    let ghost p = path@;
    emit(&mut out, severity, code, message, Some(path), suggestion);
    proof {
        assert(out@ =~= seq![out@[0]]);
        crate::resolver::targets::lemma_emitted_made(
            out@[0],
            Emission::Made { severity, code: code@, message: message@, path: Some(p), suggestion: s },
        );
    }
    out
}

fn sensor_checks(graph: &ResolvedGraph, component: &Component, name: &str, targets: &Vec<ResourceId>) -> (out: Vec<
    Diagnostic,
>)
    ensures
        emitted(out@, sensor_findings(*graph, *component, name@, resource_views(targets@))),
{
    let mut at_sensor = "components.".to_owned();
    push_str(&mut at_sensor, name);
    push_str(&mut at_sensor, ".sensor");
    let sensor = match attribute_text(component, "sensor") {
        Some(s) => s,
        None => {
            let mut message = "class '".to_owned();
            push_str(&mut message, component.kind.as_str());
            push_str(&mut message, "' requires a sensor, but component '");
            push_str(&mut message, name);
            push_str(&mut message, "' declares none");
            let mut at = "components.".to_owned();
            push_str(&mut at, name);
            return single(
                Severity::Error,
                "E1502",
                message,
                at,
                Some("add 'sensor: <component>' referencing a sensor component".to_owned()),
            );
        },
    };
    if crate::text::trim(sensor).unicode_len() == 0 {
        let mut message = "class '".to_owned();
        push_str(&mut message, component.kind.as_str());
        push_str(&mut message, "' requires a sensor, but component '");
        push_str(&mut message, name);
        push_str(&mut message, "' declares none");
        let mut at = "components.".to_owned();
        push_str(&mut at, name);
        return single(
            Severity::Error,
            "E1502",
            message,
            at,
            Some("add 'sensor: <component>' referencing a sensor component".to_owned()),
        );
    }
    let empty: Vec<Assignment> = Vec::new();
    let held = match find_entry(&graph.assignments, sensor) {
        Some(l) => l,
        None => &empty,
    };
    if held.len() == 0 {
        let mut message = "component '".to_owned();
        push_str(&mut message, name);
        push_str(&mut message, "' requires sensor '");
        push_str(&mut message, sensor);
        push_str(&mut message, "', but that sensor has no resolved controller resource");
        return single(Severity::Error, "E1503", message, at_sensor, None);
    }
    if !any_sensor_input(held) {
        let mut message = "component '".to_owned();
        push_str(&mut message, name);
        push_str(&mut message, "' requires sensor '");
        push_str(&mut message, sensor);
        push_str(&mut message, "', but its resolved resource is not a sensor input");
        return single(Severity::Error, "E1507", message, at_sensor, None);
    }
    let ghost texts = resource_views(targets@);
    let mut out: Vec<Diagnostic> = Vec::new();
    let mut checked: Vec<String> = Vec::new();
    let mut j: usize = 0;
    while j < targets.len()
        invariant
            j <= targets@.len(),
            texts == resource_views(targets@),
            text_attribute(*component, "sensor"@) == Some(sensor@),
            at_sensor@ == "components."@ + name@ + ".sensor"@,
            string_views(checked@) == controllers_upto(texts, j as nat),
            emitted(out@, controller_findings(*graph, *component, name@, sensor@, texts, j as nat)),
        decreases targets@.len() - j,
    {
        let t = targets[j].0.as_str();
        assert(texts[j as int] == t@);
        match split_once(t, ".") {
            None => {},
            Some((controller, _)) => {
                assert(controller_of(t@) == Some(controller@));
                let seen = contains_text(&checked, controller);
                let ghost before = checked@;
                checked.push(controller.to_owned());
                assert(string_views(checked@) =~= string_views(before).push(controller@));
                if !seen {
                    if sensor_resource_on_controller(graph, component, controller).is_none() {
                        let mut message = "component '".to_owned();
                        push_str(&mut message, name);
                        push_str(&mut message, "' and required sensor '");
                        push_str(&mut message, sensor);
                        push_str(&mut message, "' must resolve on the same controller as '");
                        push_str(&mut message, t);
                        push_str(&mut message, "'");
                        emit_after(
                            &mut out,
                            Ghost(controller_findings(*graph, *component, name@, sensor@, texts, j as nat)),
                            Severity::Error,
                            "E1504",
                            message,
                            Some(at_sensor.clone()),
                        );
                    }
                }
            },
        }
        j = j + 1;
    }
    out
}

fn component_checks(
    graph: &ResolvedGraph,
    profile_name: &str,
    classes: &Vec<(String, ClassPolicy)>,
    name: &str,
    component: &Component,
) -> (out: Vec<Diagnostic>)
    ensures
        emitted(out@, coverage_findings(*graph, profile_name@, classes@, name@, *component)),
{
    let mut at_component = "components.".to_owned();
    push_str(&mut at_component, name);
    let targets = match safety_target_resources(graph, name, component) {
        Ok(t) => t,
        Err(message) => {
            let mut at = at_component.clone();
            push_str(&mut at, ".driver");
            return single(Severity::Error, "E1506", message, at, None);
        },
    };
    let empty: Vec<Assignment> = Vec::new();
    let own = match find_entry(&graph.assignments, name) {
        Some(l) => l,
        None => &empty,
    };
    let driver_backed = own.len() == 0 && attribute_text(component, "driver").is_some();
    let hazardous = any_kind(own, "power_output");
    let kind = component.kind.as_str();
    let policy = find_entry(classes, kind);
    if policy.is_none() {
        if hazardous || driver_backed {
            let mut message = "component '".to_owned();
            push_str(&mut message, name);
            push_str(&mut message, "' ");
            if driver_backed {
                push_str(&mut message, "delegates an actuator output to a driver");
            } else {
                push_str(&mut message, "drives a power output");
            }
            push_str(&mut message, " but class '");
            push_str(&mut message, kind);
            push_str(&mut message, "' has no policy in '");
            push_str(&mut message, profile_name);
            push_str(&mut message, "'");
            let mut suggestion = "add a '".to_owned();
            push_str(&mut suggestion, kind);
            push_str(&mut suggestion, "' class to the safety profile or use a covered class");
            return single(Severity::Error, "E1501", message, at_component, Some(suggestion));
        }
        return Vec::new();
    }
    let p = policy.unwrap();
    if targets.len() == 0 {
        let mut message = "component '".to_owned();
        push_str(&mut message, name);
        push_str(&mut message, "' has class '");
        push_str(&mut message, kind);
        push_str(&mut message, "' safety policy but no concrete controller resource");
        return single(Severity::Error, "E1505", message, at_component, None);
    }
    if !p.requires_sensor {
        return Vec::new();
    }
    sensor_checks(graph, component, name, &targets)
}

/// Check safety coverage against the profile's payload: payload errors are
/// passed on and end the check; otherwise each component's findings are
/// reported in component order and the profile is returned for
/// partitioning.
pub fn check_safety_coverage(
    doc: &MachineDoc,
    resolved: &ResolvedGraph,
    payload: Result<SafetyProfileFile, Vec<Diagnostic>>,
    diagnostics: &mut Vec<Diagnostic>,
) -> (profile: Option<SafetyProfileFile>)
    ensures
        final(diagnostics)@.subrange(0, old(diagnostics)@.len() as int) == old(diagnostics)@,
        match payload {
            Err(errors) => profile is None && final(diagnostics)@.subrange(
                old(diagnostics)@.len() as int,
                final(diagnostics)@.len() as int,
            ) == errors@,
            Ok(p) => profile == Some(p) && emitted(
                final(diagnostics)@.subrange(old(diagnostics)@.len() as int, final(diagnostics)@.len() as int),
                coverage_run(*resolved, doc.safety.profile@, p.classes@, doc.components@, doc.components@.len()),
            ),
        },
{
    let ghost before = diagnostics@;
    match payload {
        Err(mut errors) => {
            let ghost added = errors@;
            diagnostics.append(&mut errors);
            assert(diagnostics@.subrange(0, before.len() as int) =~= before);
            assert(diagnostics@.subrange(before.len() as int, diagnostics@.len() as int) =~= added);
            None
        },
        Ok(p) => {
            let mut out: Vec<Diagnostic> = Vec::new();
            let n = doc.components.len();
            let mut i: usize = 0;
            while i < n
                invariant
                    i <= n,
                    n == doc.components@.len(),
                    emitted(out@, coverage_run(*resolved, doc.safety.profile@, p.classes@, doc.components@, i as nat)),
                decreases n - i,
            {
                let mut more = component_checks(
                    resolved,
                    doc.safety.profile.as_str(),
                    &p.classes,
                    doc.components[i].0.as_str(),
                    &doc.components[i].1,
                );
                let ghost a = out@;
                let ghost b = more@;
                proof {
                    crate::resolver::targets::lemma_emitted_concat(
                        a,
                        coverage_run(*resolved, doc.safety.profile@, p.classes@, doc.components@, i as nat),
                        b,
                        coverage_findings(
                            *resolved,
                            doc.safety.profile@,
                            p.classes@,
                            doc.components@[i as int].0@,
                            doc.components@[i as int].1,
                        ),
                    );
                }
                out.append(&mut more);
                assert(out@ =~= a + b);
                i = i + 1;
            }
            let ghost added = out@;
            diagnostics.append(&mut out);
            assert(diagnostics@.subrange(0, before.len() as int) =~= before);
            assert(diagnostics@.subrange(before.len() as int, diagnostics@.len() as int) =~= added);
            Some(p)
        },
    }
}

} // verus!
