//! Lockfile generation from a successful resolution: the closure pinned
//! with manifest and content hashes, each controller's resources, safety
//! states and build inputs, and the safety profile, bound to the exact
//! manifest text that resolved.

use vstd::prelude::*;
use crate::digest::{sha256, sha256_label};
use crate::flash::{compare_text, text_order};
use crate::lock::{
    lock_problem, LockedBuildConfig, LockedController, LockedPackage, LockedSafeState, LockedSafetyConfig, Lockfile,
    CONTROLLER_BUILD_SCHEMA, CONTROLLER_SAFETY_SCHEMA, LOCK_VERSION,
};
use crate::package::safety::SafeState;
use crate::package::{
    at_version, content_preimage, error_display, file_views, manifest_in, ref_shape, version_display, version_parse,
    LocalRegistry, PackageRef, PackageSnapshot, RefShape,
};
use crate::resolver::model::{Assignment, ControllerSafeState, ResolvedGraph};
use crate::resolver::packages::{get, keyed, lookup, put, put_sorted, text_values};
use crate::resolver::targets::{emit, made_as};
use crate::resolver::ControllerBuildPlan;
use crate::schema::{Controller, Diagnostic, MachineDoc, Severity};
use crate::text::{is_white_space, is_white_space_char, push_str, split_at_first, split_once, str_eq, string_views, trim_start};

verus! {

/// A generation failure: its code and message.
pub open spec fn failure(code: Seq<char>, message: Seq<char>) -> (Seq<char>, Seq<char>) {
    (code, message)
}

/// The diagnostics are exactly the one unlocated error of the failure.
pub open spec fn reports(ds: Seq<Diagnostic>, f: (Seq<char>, Seq<char>)) -> bool {
    ds.len() == 1 && made_as(ds[0], Severity::Error, f.0, f.1, None, None)
}

fn refusal(code: &str, message: String) -> (ds: Vec<Diagnostic>)
    ensures
        reports(ds@, failure(code@, message@)),
{
    let mut ds: Vec<Diagnostic> = Vec::new();
    emit(&mut ds, Severity::Error, code, message, None, None);
    ds
}

// ---------------------------------------------------------------------------
// Packages
// ---------------------------------------------------------------------------

/// `namespace/name@version`.
pub open spec fn ref_label(r: PackageRef) -> Seq<char> {
    r.namespace@ + "/"@ + r.name@ + "@"@ + version_display(r.version)
}

/// The content of a locked package: id, manifest hash, content hash.
pub open spec fn package_view(p: LockedPackage) -> (Seq<char>, Seq<char>, Seq<char>) {
    (p.id@, p.manifest_hash@, p.content_hash@)
}

pub open spec fn package_views(v: Seq<LockedPackage>) -> Seq<(Seq<char>, Seq<char>, Seq<char>)> {
    v.map_values(|p: LockedPackage| package_view(p))
}

/// The namespace, name and version a reference parses to.
pub open spec fn parsed_ref(text: Seq<char>) -> Option<(Seq<char>, Seq<char>, semver::Version)> {
    match ref_shape(text) {
        RefShape::Parts { namespace, name, version } => match version_parse(version) {
            Ok(v) => Some((namespace, name, v)),
            Err(_) => None,
        },
        _ => None,
    }
}

/// The pin of one resolved reference: skipped when it does not parse
/// (the resolver made it), refused when the registry no longer has it
/// (E1402) or its content cannot be snapshot or lacks a manifest (E1400).
pub open spec fn pin_one(
    registry: LocalRegistry,
    reference: Seq<char>,
    snapshot: Result<PackageSnapshot, String>,
) -> Option<Result<(Seq<char>, Seq<char>, Seq<char>), (Seq<char>, Seq<char>)>> {
    match parsed_ref(reference) {
        None => None,
        Some((namespace, name, version)) => match at_version(registry.packages@, namespace, name, version) {
            None => Some(
                Err(failure("E1402"@, "resolved package '"@ + reference + "' is no longer in the registry"@)),
            ),
            Some(found) => {
                let label = ref_label(found.reference);
                match snapshot {
                    Err(e) => Some(
                        Err(failure("E1400"@, "cannot snapshot package content for "@ + label + ": "@ + e@)),
                    ),
                    Ok(s) => match manifest_in(s.entries()) {
                        None => Some(
                            Err(
                                failure(
                                    "E1400"@,
                                    "cannot hash manifest for "@ + label
                                        + ": package snapshot contains no package.yaml"@,
                                ),
                            ),
                        ),
                        Some(m) => Some(
                            Ok((label, sha256_label(m), sha256_label(content_preimage(file_views(s.entries()))))),
                        ),
                    },
                }
            },
        },
    }
}

/// The pins of the first `k` resolved references, or the first failure.
pub open spec fn pins(
    registry: LocalRegistry,
    references: Seq<String>,
    snapshots: Seq<Result<PackageSnapshot, String>>,
    k: nat,
) -> Result<Seq<(Seq<char>, Seq<char>, Seq<char>)>, (Seq<char>, Seq<char>)>
    decreases k,
{
    if k == 0 || k > references.len() {
        Ok(seq![])
    } else {
        match pins(registry, references, snapshots, (k - 1) as nat) {
            Err(f) => Err(f),
            Ok(done) => match pin_one(registry, references[k - 1]@, snapshots[k - 1]) {
                None => Ok(done),
                Some(Err(f)) => Err(f),
                Some(Ok(p)) => Ok(done.push(p)),
            },
        }
    }
}

/// Inserting after the packages whose id does not sort after `p`'s.
pub open spec fn insert_package(
    sorted: Seq<(Seq<char>, Seq<char>, Seq<char>)>,
    p: (Seq<char>, Seq<char>, Seq<char>),
) -> Seq<(Seq<char>, Seq<char>, Seq<char>)>
    decreases sorted.len(),
{
    if sorted.len() == 0 {
        seq![p]
    } else if text_order(sorted.last().0, p.0) <= 0 {
        sorted.push(p)
    } else {
        insert_package(sorted.drop_last(), p).push(sorted.last())
    }
}

/// The stable sort of packages by id.
pub open spec fn sort_packages(list: Seq<(Seq<char>, Seq<char>, Seq<char>)>) -> Seq<(Seq<char>, Seq<char>, Seq<char>)>
    decreases list.len(),
{
    if list.len() == 0 {
        list
    } else {
        insert_package(sort_packages(list.drop_last()), list.last())
    }
}

/// The first package whose id is the profile at some version.
pub open spec fn profile_pin(packages: Seq<(Seq<char>, Seq<char>, Seq<char>)>, profile: Seq<char>) -> Option<
    (Seq<char>, Seq<char>, Seq<char>),
>
    decreases packages.len(),
{
    if packages.len() == 0 {
        None
    } else if packages[0].0.len() >= profile.len() + 1 && packages[0].0.subrange(0, profile.len() + 1 as int) == profile
        + "@"@ {
        Some(packages[0])
    } else {
        profile_pin(packages.drop_first(), profile)
    }
}

// ---------------------------------------------------------------------------
// Controllers
// ---------------------------------------------------------------------------

/// The content of a locked safety state.
pub struct StateView {
    pub component: Seq<char>,
    pub class: Seq<char>,
    pub resource: Seq<char>,
    pub state: SafeState,
    pub heartbeat_timeout_us: Option<u64>,
    pub sensor: Option<Seq<char>>,
}

/// The content of a locked build configuration.
pub struct BuildView {
    pub schema: Seq<char>,
    pub board: Seq<char>,
    pub chip: Seq<char>,
    pub target_triple: Seq<char>,
    pub toolchain: Seq<char>,
    pub build_profile: Seq<char>,
    pub protocol_version: Seq<char>,
    pub abi_version: Seq<char>,
    pub flash_bytes: u64,
    pub ram_bytes: u64,
    pub bootloader_offset_bytes: u64,
    pub features: Seq<Seq<char>>,
    pub native_drivers: Seq<Seq<char>>,
}

/// The content of a locked controller.
pub struct ControllerView {
    pub board: Seq<char>,
    pub resources: Seq<(Seq<char>, Seq<char>)>,
    pub safety: Option<(Seq<char>, Seq<StateView>)>,
    pub build: Option<BuildView>,
}

pub open spec fn state_view(s: LockedSafeState) -> StateView {
    StateView {
        component: s.component@,
        class: s.class@,
        resource: s.resource@,
        state: s.state,
        heartbeat_timeout_us: s.heartbeat_timeout_us,
        sensor: match s.sensor {
            Some(x) => Some(x@),
            None => None,
        },
    }
}

pub open spec fn state_views(v: Seq<LockedSafeState>) -> Seq<StateView> {
    v.map_values(|s: LockedSafeState| state_view(s))
}

pub open spec fn build_view(b: LockedBuildConfig) -> BuildView {
    BuildView {
        schema: b.schema@,
        board: b.board@,
        chip: b.chip@,
        target_triple: b.target_triple@,
        toolchain: b.toolchain@,
        build_profile: b.build_profile@,
        protocol_version: b.protocol_version@,
        abi_version: b.abi_version@,
        flash_bytes: b.flash_bytes,
        ram_bytes: b.ram_bytes,
        bootloader_offset_bytes: b.bootloader_offset_bytes,
        features: string_views(b.features@),
        native_drivers: string_views(b.native_drivers@),
    }
}

pub open spec fn controller_view(c: LockedController) -> ControllerView {
    ControllerView {
        board: c.board@,
        resources: text_values(keyed(c.resolved_resources@)),
        safety: match c.safety {
            Some(s) => Some((s.schema@, state_views(s.states@))),
            None => None,
        },
        build: match c.build {
            Some(b) => Some(build_view(b)),
            None => None,
        },
    }
}

pub open spec fn controllers_listed(t: Seq<(Seq<char>, LockedController)>) -> Seq<(Seq<char>, ControllerView)> {
    t.map_values(|e: (Seq<char>, LockedController)| (e.0, controller_view(e.1)))
}

/// A lock's controllers: id, then content.
pub open spec fn controller_table(t: Seq<(String, LockedController)>) -> Seq<(Seq<char>, ControllerView)> {
    controllers_listed(keyed(t))
}

/// Each controller of the manifest with its board, no resources, an empty
/// safety configuration and no build yet.
pub open spec fn initial_controllers(controllers: Seq<(String, Controller)>, k: nat) -> Seq<(Seq<char>, ControllerView)>
    decreases k,
{
    if k == 0 || k > controllers.len() {
        seq![]
    } else {
        put_sorted(
            initial_controllers(controllers, (k - 1) as nat),
            controllers[k - 1].0@,
            ControllerView {
                board: controllers[k - 1].1.board@,
                resources: seq![],
                safety: Some((CONTROLLER_SAFETY_SCHEMA@, seq![])),
                build: None,
            },
        )
    }
}

/// The end of the first word of a text that starts with a non-space.
pub open spec fn word_end(t: Seq<char>, i: nat) -> nat
    decreases t.len() - i,
{
    if i >= t.len() || is_white_space(t[i as int]) {
        i
    } else {
        word_end(t, i + 1)
    }
}

/// The first white-space separated word of a text; the text itself when
/// it has none.
pub open spec fn first_word(s: Seq<char>) -> Seq<char> {
    let t = trim_start(s);
    if t.len() == 0 {
        s
    } else {
        t.subrange(0, word_end(t, 0) as int)
    }
}

/// One assignment recorded on its controller as `component/via` to the
/// connector, when the controller is locked.
pub open spec fn assign_one(
    table: Seq<(Seq<char>, ControllerView)>,
    component: Seq<char>,
    a: Assignment,
) -> Seq<(Seq<char>, ControllerView)> {
    match split_at_first(a.resource.0@, "."@) {
        None => table,
        Some((controller, port)) => match lookup(table, controller) {
            None => table,
            Some(c) => put_sorted(
                table,
                controller,
                ControllerView {
                    resources: put_sorted(c.resources, component + "/"@ + first_word(a.via@), port),
                    ..c
                },
            ),
        },
    }
}

pub open spec fn assign_list(
    table: Seq<(Seq<char>, ControllerView)>,
    component: Seq<char>,
    list: Seq<Assignment>,
) -> Seq<(Seq<char>, ControllerView)>
    decreases list.len(),
{
    if list.len() == 0 {
        table
    } else {
        assign_one(assign_list(table, component, list.drop_last()), component, list.last())
    }
}

pub open spec fn assign_all(
    table: Seq<(Seq<char>, ControllerView)>,
    assignments: Seq<(String, Vec<Assignment>)>,
) -> Seq<(Seq<char>, ControllerView)>
    decreases assignments.len(),
{
    if assignments.len() == 0 {
        table
    } else {
        let last = assignments.last();
        assign_list(assign_all(table, assignments.drop_last()), last.0@, last.1@)
    }
}

/// The locked state of a binding on `controller`: its resource and sensor
/// made local, or the failure (E1403).
pub open spec fn local_state(controller: Seq<char>, b: ControllerSafeState) -> Result<StateView, (Seq<char>, Seq<char>)> {
    let r = b.resource.0@;
    match split_at_first(r, "."@) {
        None => Err(failure("E1403"@, "safety resource '"@ + r + "' is not 'controller.resource'"@)),
        Some((owner, resource)) => if owner != controller {
            Err(
                failure(
                    "E1403"@,
                    "safety resource '"@ + r + "' belongs to controller '"@ + owner + "', not '"@ + controller + "'"@,
                ),
            )
        } else {
            let prefix = controller + "."@;
            match b.sensor {
                Some(s) => if s.0@.len() >= prefix.len() && s.0@.subrange(0, prefix.len() as int) == prefix {
                    Ok(
                        StateView {
                            component: b.component@,
                            class: b.class@,
                            resource,
                            state: b.state,
                            heartbeat_timeout_us: b.heartbeat_timeout_us,
                            sensor: Some(s.0@.subrange(prefix.len() as int, s.0@.len() as int)),
                        },
                    )
                } else {
                    Err(
                        failure(
                            "E1403"@,
                            "safety sensor '"@ + s.0@ + "' is not local to controller '"@ + controller + "'"@,
                        ),
                    )
                },
                None => Ok(
                    StateView {
                        component: b.component@,
                        class: b.class@,
                        resource,
                        state: b.state,
                        heartbeat_timeout_us: b.heartbeat_timeout_us,
                        sensor: None,
                    },
                ),
            }
        },
    }
}

pub open spec fn local_states(controller: Seq<char>, bindings: Seq<ControllerSafeState>) -> Result<
    Seq<StateView>,
    (Seq<char>, Seq<char>),
>
    decreases bindings.len(),
{
    if bindings.len() == 0 {
        Ok(seq![])
    } else {
        match local_states(controller, bindings.drop_last()) {
            Err(f) => Err(f),
            Ok(done) => match local_state(controller, bindings.last()) {
                Err(f) => Err(f),
                Ok(s) => Ok(done.push(s)),
            },
        }
    }
}

/// States are ordered by component, then resource.
pub open spec fn state_order(a: StateView, b: StateView) -> int {
    let c = text_order(a.component, b.component);
    if c != 0 {
        c
    } else {
        text_order(a.resource, b.resource)
    }
}

pub open spec fn insert_state(sorted: Seq<StateView>, x: StateView) -> Seq<StateView>
    decreases sorted.len(),
{
    if sorted.len() == 0 {
        seq![x]
    } else if state_order(sorted.last(), x) <= 0 {
        sorted.push(x)
    } else {
        insert_state(sorted.drop_last(), x).push(sorted.last())
    }
}

/// The stable sort of states by component, then resource.
pub open spec fn sort_states(list: Seq<StateView>) -> Seq<StateView>
    decreases list.len(),
{
    if list.len() == 0 {
        list
    } else {
        insert_state(sort_states(list.drop_last()), list.last())
    }
}

/// One controller's safety bindings appended to its locked states, which
/// are then sorted; refused (E1403) for an unknown controller or a binding
/// that is not local.
pub open spec fn safety_entry(
    table: Seq<(Seq<char>, ControllerView)>,
    controller: Seq<char>,
    bindings: Seq<ControllerSafeState>,
) -> Result<Seq<(Seq<char>, ControllerView)>, (Seq<char>, Seq<char>)> {
    match lookup(table, controller) {
        None => Err(
            failure("E1403"@, "resolved safety configuration names unknown controller '"@ + controller + "'"@),
        ),
        Some(c) => match local_states(controller, bindings) {
            Err(f) => Err(f),
            Ok(states) => Ok(
                put_sorted(
                    table,
                    controller,
                    ControllerView {
                        safety: match c.safety {
                            Some((schema, old)) => Some((schema, sort_states(old + states))),
                            None => None,
                        },
                        ..c
                    },
                ),
            ),
        },
    }
}

pub open spec fn safety_all(
    table: Seq<(Seq<char>, ControllerView)>,
    safety: Seq<(String, Vec<ControllerSafeState>)>,
) -> Result<Seq<(Seq<char>, ControllerView)>, (Seq<char>, Seq<char>)>
    decreases safety.len(),
{
    if safety.len() == 0 {
        Ok(table)
    } else {
        match safety_all(table, safety.drop_last()) {
            Err(f) => Err(f),
            Ok(t) => safety_entry(t, safety.last().0@, safety.last().1@),
        }
    }
}

/// The locked build configuration of a plan.
pub open spec fn planned_build(p: ControllerBuildPlan) -> BuildView {
    BuildView {
        schema: CONTROLLER_BUILD_SCHEMA@,
        board: p.board@,
        chip: p.chip@,
        target_triple: p.target_triple@,
        toolchain: p.toolchain@,
        build_profile: p.build_profile@,
        protocol_version: p.protocol_version@,
        abi_version: p.abi_version@,
        flash_bytes: p.flash_bytes,
        ram_bytes: p.ram_bytes,
        bootloader_offset_bytes: p.bootloader_offset_bytes,
        features: string_views(p.features@),
        native_drivers: string_views(p.native_drivers@),
    }
}

pub open spec fn builds_all(
    table: Seq<(Seq<char>, ControllerView)>,
    plans: Seq<(String, ControllerBuildPlan)>,
) -> Result<Seq<(Seq<char>, ControllerView)>, (Seq<char>, Seq<char>)>
    decreases plans.len(),
{
    if plans.len() == 0 {
        Ok(table)
    } else {
        match builds_all(table, plans.drop_last()) {
            Err(f) => Err(f),
            Ok(t) => {
                let (name, plan) = (plans.last().0@, plans.last().1);
                match lookup(t, name) {
                    None => Err(failure("E1404"@, "resolved build plan names unknown controller '"@ + name + "'"@)),
                    Some(c) => Ok(put_sorted(t, name, ControllerView { build: Some(planned_build(plan)), ..c })),
                }
            },
        }
    }
}

/// What generation produces before the lock is checked: the packages, the
/// safety profile's pin and the controllers.
pub struct Generated {
    pub packages: Seq<(Seq<char>, Seq<char>, Seq<char>)>,
    pub profile: (Seq<char>, Seq<char>, Seq<char>),
    pub controllers: Seq<(Seq<char>, ControllerView)>,
}

/// Generation from a resolution: refused (E1406) without a portable
/// registry source, then the pins, the controllers and the safety
/// profile's pin (E1401 when the closure lacks it), each refusal ending it.
pub open spec fn generation(
    doc: MachineDoc,
    registry: LocalRegistry,
    resolved: ResolvedGraph,
    snapshots: Seq<Result<PackageSnapshot, String>>,
) -> Result<Generated, (Seq<char>, Seq<char>)> {
    if registry.source is None {
        Err(failure("E1406"@, "registry has no validated portable source descriptor"@))
    } else {
        match pins(registry, resolved.packages@, snapshots, resolved.packages@.len()) {
            Err(f) => Err(f),
            Ok(pinned) => {
                let packages = sort_packages(pinned);
                let start = assign_all(
                    initial_controllers(doc.controllers@, doc.controllers@.len()),
                    resolved.assignments@,
                );
                match safety_all(start, resolved.controller_safety@) {
                    Err(f) => Err(f),
                    Ok(with_safety) => match builds_all(with_safety, resolved.controller_build_plans@) {
                        Err(f) => Err(f),
                        Ok(controllers) => match profile_pin(packages, doc.safety.profile@) {
                            None => Err(
                                failure(
                                    "E1401"@,
                                    "safety profile '"@ + doc.safety.profile@ + "' is not in the resolved closure"@,
                                ),
                            ),
                            Some(profile) => Ok(Generated { packages, profile, controllers }),
                        },
                    },
                }
            },
        }
    }
}

// ---------------------------------------------------------------------------
// Generation in code
// ---------------------------------------------------------------------------

fn copy_package(p: &LockedPackage) -> (copy: LockedPackage)
    ensures
        copy == *p,
{
    LockedPackage { id: p.id.clone(), manifest_hash: p.manifest_hash.clone(), content_hash: p.content_hash.clone() }
}

proof fn lemma_pins_stop(
    registry: LocalRegistry,
    references: Seq<String>,
    snapshots: Seq<Result<PackageSnapshot, String>>,
    k: nat,
    n: nat,
)
    requires
        0 < k <= n <= references.len(),
        pins(registry, references, snapshots, k) is Err,
    ensures
        pins(registry, references, snapshots, n) == pins(registry, references, snapshots, k),
    decreases n - k,
{
    if n > k {
        lemma_pins_stop(registry, references, snapshots, k, (n - 1) as nat);
    }
}

fn pin_packages(
    registry: &LocalRegistry,
    references: &Vec<String>,
    snapshots: &Vec<Result<PackageSnapshot, String>>,
) -> (result: Result<Vec<LockedPackage>, Vec<Diagnostic>>)
    requires
        snapshots@.len() == references@.len(),
    ensures
        match pins(*registry, references@, snapshots@, references@.len()) {
            Ok(ps) => result matches Ok(v) && package_views(v@) == ps,
            Err(f) => result matches Err(ds) && reports(ds@, f),
        },
{
    let mut out: Vec<LockedPackage> = Vec::new();
    let mut i: usize = 0;
    assert(package_views(out@) =~= Seq::<(Seq<char>, Seq<char>, Seq<char>)>::empty());
    while i < references.len()
        invariant
            i <= references@.len(),
            snapshots@.len() == references@.len(),
            pins(*registry, references@, snapshots@, i as nat) == Ok::<
                Seq<(Seq<char>, Seq<char>, Seq<char>)>,
                (Seq<char>, Seq<char>),
            >(package_views(out@)),
        decreases references@.len() - i,
    {
        let text = references[i].as_str();
        let reference = match PackageRef::parse(text) {
            Ok(r) => r,
            Err(_) => {
                i = i + 1;
                continue;
            },
        };
        assert(parsed_ref(text@) == Some((reference.namespace@, reference.name@, reference.version)));
        let found = match registry.find_version(reference.namespace.as_str(), reference.name.as_str(), &reference.version) {
            Some(f) => f,
            None => {
                let mut message = "resolved package '".to_owned();
                push_str(&mut message, text);
                push_str(&mut message, "' is no longer in the registry");
                proof {
                    lemma_pins_stop(*registry, references@, snapshots@, (i + 1) as nat, references@.len());
                }
                return Err(refusal("E1402", message));
            },
        };
        let label = found.reference.to_message();
        match &snapshots[i] {
            Err(e) => {
                let mut message = "cannot snapshot package content for ".to_owned();
                push_str(&mut message, label.as_str());
                push_str(&mut message, ": ");
                push_str(&mut message, e.as_str());
                proof {
                    lemma_pins_stop(*registry, references@, snapshots@, (i + 1) as nat, references@.len());
                }
                return Err(refusal("E1400", message));
            },
            Ok(snapshot) => match snapshot.manifest_bytes() {
                None => {
                    let mut message = "cannot hash manifest for ".to_owned();
                    push_str(&mut message, label.as_str());
                    push_str(&mut message, ": package snapshot contains no package.yaml");
                    proof {
                    lemma_pins_stop(*registry, references@, snapshots@, (i + 1) as nat, references@.len());
                }
                return Err(refusal("E1400", message));
                },
                Some(bytes) => {
                    let pinned = LockedPackage {
                        id: label,
                        manifest_hash: sha256(bytes),
                        content_hash: snapshot.content_hash(),
                    };
                    let ghost before = out@;
                    out.push(pinned);
                    assert(package_views(out@) =~= package_views(before).push(package_view(pinned)));
                },
            },
        }
        i = i + 1;
    }
    Ok(out)
}

fn insert_sorted_package(sorted: &mut Vec<LockedPackage>, x: LockedPackage)
    ensures
        package_views(final(sorted)@) == insert_package(package_views(old(sorted)@), package_view(x)),
{
    let ghost s = package_views(sorted@);
    let ghost xv = package_view(x);
    let mut pos: usize = sorted.len();
    assert(s.subrange(0, pos as int) =~= s);
    assert(s.subrange(pos as int, s.len() as int) =~= Seq::<(Seq<char>, Seq<char>, Seq<char>)>::empty());
    while pos > 0 && compare_text(sorted[pos - 1].id.as_str(), x.id.as_str()) > 0
        invariant
            package_views(sorted@) == s,
            xv == package_view(x),
            pos <= s.len(),
            insert_package(s, xv) == insert_package(s.subrange(0, pos as int), xv) + s.subrange(
                pos as int,
                s.len() as int,
            ),
        decreases pos,
    {
        proof {
            let prefix = s.subrange(0, pos as int);
            assert(prefix.drop_last() =~= s.subrange(0, pos - 1));
            assert(prefix.last() == s[pos - 1]);
            assert(insert_package(s.subrange(0, pos - 1), xv).push(s[pos - 1]) + s.subrange(
                pos as int,
                s.len() as int,
            ) =~= insert_package(s.subrange(0, pos - 1), xv) + s.subrange(pos - 1, s.len() as int));
        }
        pos = pos - 1;
    }
    proof {
        let prefix = s.subrange(0, pos as int);
        if pos > 0 {
            assert(prefix.last() == s[pos - 1]);
            assert(insert_package(prefix, xv) == prefix.push(xv));
        } else {
            assert(prefix.len() == 0);
            assert(insert_package(prefix, xv) =~= seq![xv]);
        }
    }
    sorted.insert(pos, x);
    assert(package_views(sorted@) =~= s.subrange(0, pos as int).push(xv) + s.subrange(pos as int, s.len() as int));
}

fn sorted_packages(list: &Vec<LockedPackage>) -> (sorted: Vec<LockedPackage>)
    ensures
        package_views(sorted@) == sort_packages(package_views(list@)),
{
    let ghost all = package_views(list@);
    let mut sorted: Vec<LockedPackage> = Vec::new();
    let mut i: usize = 0;
    assert(all.subrange(0, 0) =~= Seq::<(Seq<char>, Seq<char>, Seq<char>)>::empty());
    assert(package_views(sorted@) =~= Seq::<(Seq<char>, Seq<char>, Seq<char>)>::empty());
    while i < list.len()
        invariant
            i <= list@.len(),
            all == package_views(list@),
            package_views(sorted@) == sort_packages(all.subrange(0, i as int)),
        decreases list@.len() - i,
    {
        insert_sorted_package(&mut sorted, copy_package(&list[i]));
        assert(all.subrange(0, i + 1).drop_last() =~= all.subrange(0, i as int));
        i = i + 1;
    }
    assert(all.subrange(0, list@.len() as int) =~= all);
    sorted
}

fn starts_with(text: &str, prefix: &str) -> (starts: bool)
    ensures
        starts == (text@.len() >= prefix@.len() && text@.subrange(0, prefix@.len() as int) == prefix@),
{
    let n = prefix.unicode_len();
    if text.unicode_len() < n {
        return false;
    }
    let head = text.substring_char(0, n);
    str_eq(head, prefix)
}

fn profile_of(packages: &Vec<LockedPackage>, profile: &str) -> (found: Option<LockedPackage>)
    ensures
        match profile_pin(package_views(packages@), profile@) {
            Some(p) => found matches Some(f) && package_view(f) == p,
            None => found is None,
        },
{
    let mut prefix = profile.to_owned();
    push_str(&mut prefix, "@");
    proof {
        reveal_strlit("@");
    }
    let ghost all = package_views(packages@);
    let mut i: usize = 0;
    assert(all.subrange(0, all.len() as int) =~= all);
    while i < packages.len()
        invariant
            i <= packages@.len(),
            all == package_views(packages@),
            prefix@ == profile@ + "@"@,
            prefix@.len() == profile@.len() + 1,
            profile_pin(all, profile@) == profile_pin(all.subrange(i as int, all.len() as int), profile@),
        decreases packages@.len() - i,
    {
        proof {
            let rest = all.subrange(i as int, all.len() as int);
            assert(rest.drop_first() =~= all.subrange(i + 1, all.len() as int));
            assert(rest[0] == package_view(packages@[i as int]));
        }
        if starts_with(packages[i].id.as_str(), prefix.as_str()) {
            return Some(copy_package(&packages[i]));
        }
        i = i + 1;
    }
    None
}

proof fn lemma_controllers_put(table: Seq<(Seq<char>, LockedController)>, key: Seq<char>, value: LockedController)
    ensures
        controllers_listed(put_sorted(table, key, value)) == put_sorted(
            controllers_listed(table),
            key,
            controller_view(value),
        ),
    decreases table.len(),
{
    if table.len() == 0 {
        assert(controllers_listed(seq![(key, value)]) =~= seq![(key, controller_view(value))]);
    } else {
        let rest = table.drop_last();
        assert(controllers_listed(table).drop_last() =~= controllers_listed(rest));
        assert(controllers_listed(table).last() == (table.last().0, controller_view(table.last().1)));
        if text_order(table.last().0, key) < 0 {
            assert(controllers_listed(table.push((key, value))) =~= controllers_listed(table).push(
                (key, controller_view(value)),
            ));
        } else if text_order(table.last().0, key) == 0 {
            assert(controllers_listed(rest.push((key, value))) =~= controllers_listed(rest).push(
                (key, controller_view(value)),
            ));
        } else {
            lemma_controllers_put(rest, key, value);
            assert(controllers_listed(put_sorted(rest, key, value).push(table.last())) =~= controllers_listed(
                put_sorted(rest, key, value),
            ).push((table.last().0, controller_view(table.last().1))));
        }
    }
}

proof fn lemma_lookup_controllers(table: Seq<(String, LockedController)>, key: Seq<char>)
    ensures
        lookup(controller_table(table), key) == match lookup(keyed(table), key) {
            Some(c) => Some(controller_view(c)),
            None => None::<ControllerView>,
        },
    decreases table.len(),
{
    if table.len() > 0 {
        assert(controller_table(table).drop_first() =~= controller_table(table.drop_first()));
        assert(keyed(table).drop_first() =~= keyed(table.drop_first()));
        lemma_lookup_controllers(table.drop_first(), key);
    }
}

fn put_controller(table: &mut Vec<(String, LockedController)>, key: &str, value: LockedController)
    ensures
        controller_table(final(table)@) == put_sorted(controller_table(old(table)@), key@, controller_view(value)),
{
    let ghost before = table@;
    let ghost v = value;
    put(table, key.to_owned(), value);
    proof {
        lemma_controllers_put(keyed(before), key@, v);
    }
}

fn copy_pairs(v: &Vec<(String, String)>) -> (copy: Vec<(String, String)>)
    ensures
        copy@ == v@,
{
    let mut copy: Vec<(String, String)> = Vec::new();
    let mut i: usize = 0;
    while i < v.len()
        invariant
            i <= v@.len(),
            copy@ == v@.subrange(0, i as int),
        decreases v@.len() - i,
    {
        copy.push((v[i].0.clone(), v[i].1.clone()));
        assert(copy@ =~= v@.subrange(0, i + 1));
        i = i + 1;
    }
    assert(v@.subrange(0, v@.len() as int) =~= v@);
    copy
}

fn copy_words(v: &Vec<String>) -> (copy: Vec<String>)
    ensures
        copy@ == v@,
{
    let mut copy: Vec<String> = Vec::new();
    let mut i: usize = 0;
    while i < v.len()
        invariant
            i <= v@.len(),
            copy@ == v@.subrange(0, i as int),
        decreases v@.len() - i,
    {
        copy.push(v[i].clone());
        assert(copy@ =~= v@.subrange(0, i + 1));
        i = i + 1;
    }
    assert(v@.subrange(0, v@.len() as int) =~= v@);
    copy
}

fn copy_build(b: &LockedBuildConfig) -> (copy: LockedBuildConfig)
    ensures
        build_view(copy) == build_view(*b),
{
    LockedBuildConfig {
        schema: b.schema.clone(),
        board: b.board.clone(),
        chip: b.chip.clone(),
        target_triple: b.target_triple.clone(),
        toolchain: b.toolchain.clone(),
        build_profile: b.build_profile.clone(),
        protocol_version: b.protocol_version.clone(),
        abi_version: b.abi_version.clone(),
        flash_bytes: b.flash_bytes,
        ram_bytes: b.ram_bytes,
        bootloader_offset_bytes: b.bootloader_offset_bytes,
        features: copy_words(&b.features),
        native_drivers: copy_words(&b.native_drivers),
    }
}

fn copy_controller(c: &LockedController) -> (copy: LockedController)
    ensures
        controller_view(copy) == controller_view(*c),
{
    LockedController {
        board: c.board.clone(),
        resolved_resources: copy_pairs(&c.resolved_resources),
        safety: match &c.safety {
            Some(s) => Some(
                LockedSafetyConfig { schema: s.schema.clone(), states: crate::firmware::copy_states(&s.states) },
            ),
            None => None,
        },
        build: match &c.build {
            Some(b) => Some(copy_build(b)),
            None => None,
        },
    }
}

fn initial_table(controllers: &Vec<(String, Controller)>) -> (table: Vec<(String, LockedController)>)
    ensures
        controller_table(table@) == initial_controllers(controllers@, controllers@.len()),
{
    let mut table: Vec<(String, LockedController)> = Vec::new();
    assert(controller_table(table@) =~= Seq::<(Seq<char>, ControllerView)>::empty());
    let mut i: usize = 0;
    while i < controllers.len()
        invariant
            i <= controllers@.len(),
            controller_table(table@) == initial_controllers(controllers@, i as nat),
        decreases controllers@.len() - i,
    {
        let fresh = LockedController {
            board: controllers[i].1.board.clone(),
            resolved_resources: Vec::new(),
            safety: Some(LockedSafetyConfig { schema: CONTROLLER_SAFETY_SCHEMA.to_owned(), states: Vec::new() }),
            build: None,
        };
        assert(text_values(keyed(fresh.resolved_resources@)) =~= Seq::<(Seq<char>, Seq<char>)>::empty());
        assert(state_views(Seq::<LockedSafeState>::empty()) =~= Seq::<StateView>::empty());
        put_controller(&mut table, controllers[i].0.as_str(), fresh);
        i = i + 1;
    }
    table
}

fn trim_leading(s: &str) -> (t: &str)
    ensures
        t@ == trim_start(s@),
{
    let n = s.unicode_len();
    let mut start: usize = 0;
    assert(s@.subrange(0, n as int) =~= s@);
    while start < n && is_white_space_char(s.get_char(start))
        invariant
            n == s@.len(),
            start <= n,
            trim_start(s@) == trim_start(s@.subrange(start as int, n as int)),
        decreases n - start,
    {
        proof {
            let rest = s@.subrange(start as int, n as int);
            assert(rest.drop_first() =~= s@.subrange(start + 1, n as int));
        }
        start = start + 1;
    }
    proof {
        let rest = s@.subrange(start as int, n as int);
        if start == n {
            assert(rest.len() == 0);
        }
    }
    s.substring_char(start, n)
}

fn first_word_of(s: &str) -> (word: &str)
    ensures
        word@ == first_word(s@),
{
    let t = trim_leading(s);
    let n = t.unicode_len();
    if n == 0 {
        return s;
    }
    let mut end: usize = 0;
    while end < n && !is_white_space_char(t.get_char(end))
        invariant
            n == t@.len(),
            end <= n,
            word_end(t@, 0) == word_end(t@, end as nat),
        decreases n - end,
    {
        end = end + 1;
    }
    t.substring_char(0, end)
}

fn assign_exec(table: &mut Vec<(String, LockedController)>, component: &str, a: &Assignment)
    ensures
        controller_table(final(table)@) == assign_one(controller_table(old(table)@), component@, *a),
{
    let (controller, port) = match split_once(a.resource.0.as_str(), ".") {
        Some(parts) => parts,
        None => return ,
    };
    proof {
        lemma_lookup_controllers(table@, controller@);
    }
    let mut updated = match get(table, controller) {
        Some(c) => copy_controller(c),
        None => return ,
    };
    let mut key = component.to_owned();
    push_str(&mut key, "/");
    push_str(&mut key, first_word_of(a.via.as_str()));
    let ghost resources = updated.resolved_resources@;
    let value = port.to_owned();
    let ghost k = key@;
    let ghost v = value;
    put(&mut updated.resolved_resources, key, value);
    proof {
        crate::resolver::packages::lemma_put_text_values(keyed(resources), k, v);
    }
    put_controller(table, controller, updated);
}

fn local_state_exec(controller: &str, b: &ControllerSafeState) -> (result: Result<LockedSafeState, Vec<Diagnostic>>)
    ensures
        match local_state(controller@, *b) {
            Ok(v) => result matches Ok(st) && state_view(st) == v,
            Err(f) => result matches Err(ds) && reports(ds@, f),
        },
{
    let r = b.resource.0.as_str();
    let (owner, resource) = match split_once(r, ".") {
        Some(parts) => parts,
        None => {
            let mut message = "safety resource '".to_owned();
            push_str(&mut message, r);
            push_str(&mut message, "' is not 'controller.resource'");
            return Err(refusal("E1403", message));
        },
    };
    if !str_eq(owner, controller) {
        let mut message = "safety resource '".to_owned();
        push_str(&mut message, r);
        push_str(&mut message, "' belongs to controller '");
        push_str(&mut message, owner);
        push_str(&mut message, "', not '");
        push_str(&mut message, controller);
        push_str(&mut message, "'");
        return Err(refusal("E1403", message));
    }
    let mut prefix = controller.to_owned();
    push_str(&mut prefix, ".");
    let sensor: Option<String> = match &b.sensor {
        Some(x) => {
            let text = x.0.as_str();
            if starts_with(text, prefix.as_str()) {
                let rest = text.substring_char(prefix.unicode_len(), text.unicode_len());
                Some(rest.to_owned())
            } else {
                let mut message = "safety sensor '".to_owned();
                push_str(&mut message, text);
                push_str(&mut message, "' is not local to controller '");
                push_str(&mut message, controller);
                push_str(&mut message, "'");
                return Err(refusal("E1403", message));
            }
        },
        None => None,
    };
    Ok(
        LockedSafeState {
            component: b.component.clone(),
            class: b.class.clone(),
            resource: resource.to_owned(),
            state: b.state,
            heartbeat_timeout_us: b.heartbeat_timeout_us,
            sensor,
        },
    )
}

proof fn lemma_states_stop(controller: Seq<char>, bindings: Seq<ControllerSafeState>, k: int)
    requires
        0 <= k <= bindings.len(),
        local_states(controller, bindings.subrange(0, k)) is Err,
    ensures
        local_states(controller, bindings) == local_states(controller, bindings.subrange(0, k)),
    decreases bindings.len() - k,
{
    if k < bindings.len() {
        assert(bindings.subrange(0, k + 1).drop_last() =~= bindings.subrange(0, k));
        lemma_states_stop(controller, bindings, k + 1);
    } else {
        assert(bindings.subrange(0, k) =~= bindings);
    }
}

fn local_states_exec(controller: &str, bindings: &Vec<ControllerSafeState>) -> (result: Result<
    Vec<LockedSafeState>,
    Vec<Diagnostic>,
>)
    ensures
        match local_states(controller@, bindings@) {
            Ok(v) => result matches Ok(st) && state_views(st@) == v,
            Err(f) => result matches Err(ds) && reports(ds@, f),
        },
{
    let mut states: Vec<LockedSafeState> = Vec::new();
    let mut i: usize = 0;
    assert(bindings@.subrange(0, 0) =~= Seq::<ControllerSafeState>::empty());
    assert(state_views(states@) =~= Seq::<StateView>::empty());
    while i < bindings.len()
        invariant
            i <= bindings@.len(),
            local_states(controller@, bindings@.subrange(0, i as int)) == Ok::<
                Seq<StateView>,
                (Seq<char>, Seq<char>),
            >(state_views(states@)),
        decreases bindings@.len() - i,
    {
        assert(bindings@.subrange(0, i + 1).drop_last() =~= bindings@.subrange(0, i as int));
        assert(bindings@.subrange(0, i + 1).last() == bindings@[i as int]);
        match local_state_exec(controller, &bindings[i]) {
            Ok(st) => {
                let ghost before = states@;
                states.push(st);
                assert(state_views(states@) =~= state_views(before).push(state_view(st)));
            },
            Err(ds) => {
                proof {
                    lemma_states_stop(controller@, bindings@, i + 1);
                }
                return Err(ds);
            },
        }
        i = i + 1;
    }
    assert(bindings@.subrange(0, bindings@.len() as int) =~= bindings@);
    Ok(states)
}

fn state_after(a: &LockedSafeState, b: &LockedSafeState) -> (after: bool)
    ensures
        after == (state_order(state_view(*a), state_view(*b)) > 0),
{
    let c = compare_text(a.component.as_str(), b.component.as_str());
    c > 0 || (c == 0 && compare_text(a.resource.as_str(), b.resource.as_str()) > 0)
}

fn insert_sorted_state_view(sorted: &mut Vec<LockedSafeState>, x: LockedSafeState)
    ensures
        state_views(final(sorted)@) == insert_state(state_views(old(sorted)@), state_view(x)),
{
    let ghost s = state_views(sorted@);
    let ghost xv = state_view(x);
    let mut pos: usize = sorted.len();
    assert(s.subrange(0, pos as int) =~= s);
    assert(s.subrange(pos as int, s.len() as int) =~= Seq::<StateView>::empty());
    while pos > 0 && state_after(&sorted[pos - 1], &x)
        invariant
            state_views(sorted@) == s,
            xv == state_view(x),
            pos <= s.len(),
            insert_state(s, xv) == insert_state(s.subrange(0, pos as int), xv) + s.subrange(
                pos as int,
                s.len() as int,
            ),
        decreases pos,
    {
        proof {
            let prefix = s.subrange(0, pos as int);
            assert(prefix.drop_last() =~= s.subrange(0, pos - 1));
            assert(prefix.last() == s[pos - 1]);
            assert(insert_state(s.subrange(0, pos - 1), xv).push(s[pos - 1]) + s.subrange(
                pos as int,
                s.len() as int,
            ) =~= insert_state(s.subrange(0, pos - 1), xv) + s.subrange(pos - 1, s.len() as int));
        }
        pos = pos - 1;
    }
    proof {
        let prefix = s.subrange(0, pos as int);
        if pos > 0 {
            assert(prefix.last() == s[pos - 1]);
            assert(insert_state(prefix, xv) == prefix.push(xv));
        } else {
            assert(prefix.len() == 0);
            assert(insert_state(prefix, xv) =~= seq![xv]);
        }
    }
    sorted.insert(pos, x);
    assert(state_views(sorted@) =~= s.subrange(0, pos as int).push(xv) + s.subrange(pos as int, s.len() as int));
}

fn sorted_states_of(list: Vec<LockedSafeState>) -> (sorted: Vec<LockedSafeState>)
    ensures
        state_views(sorted@) == sort_states(state_views(list@)),
{
    let ghost all = state_views(list@);
    let mut rest = list;
    let mut sorted: Vec<LockedSafeState> = Vec::new();
    let n = rest.len();
    let mut i: usize = 0;
    assert(all.subrange(0, 0) =~= Seq::<StateView>::empty());
    assert(state_views(sorted@) =~= Seq::<StateView>::empty());
    while i < n
        invariant
            i <= n,
            n == all.len(),
            rest@.len() == n - i,
            forall|j: int| 0 <= j < rest@.len() ==> state_view(#[trigger] rest@[j]) == all[i + j],
            state_views(sorted@) == sort_states(all.subrange(0, i as int)),
        decreases n - i,
    {
        let ghost before = rest@;
        let x = rest.remove(0);
        assert(state_view(x) == all[i as int]);
        assert forall|j: int| 0 <= j < rest@.len() implies state_view(#[trigger] rest@[j]) == all[i + 1 + j] by {
            assert(rest@[j] == before[j + 1]);
        }
        insert_sorted_state_view(&mut sorted, x);
        assert(all.subrange(0, i + 1).drop_last() =~= all.subrange(0, i as int));
        i = i + 1;
    }
    assert(all.subrange(0, n as int) =~= all);
    sorted
}

fn safety_entry_exec(
    table: &mut Vec<(String, LockedController)>,
    controller: &str,
    bindings: &Vec<ControllerSafeState>,
) -> (result: Result<(), Vec<Diagnostic>>)
    ensures
        match safety_entry(controller_table(old(table)@), controller@, bindings@) {
            Ok(t) => result is Ok && controller_table(final(table)@) == t,
            Err(f) => result matches Err(ds) && reports(ds@, f),
        },
{
    proof {
        lemma_lookup_controllers(table@, controller@);
    }
    let current = match get(table, controller) {
        Some(c) => c,
        None => {
            let mut message = "resolved safety configuration names unknown controller '".to_owned();
            push_str(&mut message, controller);
            push_str(&mut message, "'");
            return Err(refusal("E1403", message));
        },
    };
    let fresh = match local_states_exec(controller, bindings) {
        Ok(v) => v,
        Err(ds) => return Err(ds),
    };
    let mut updated = copy_controller(current);
    let safety = match &current.safety {
        Some(s) => {
            let mut all = crate::firmware::copy_states(&s.states);
            let ghost old_views = state_views(all@);
            let mut more = fresh;
            let ghost new_views = state_views(more@);
            all.append(&mut more);
            assert(state_views(all@) =~= old_views + new_views);
            Some(LockedSafetyConfig { schema: s.schema.clone(), states: sorted_states_of(all) })
        },
        None => None,
    };
    updated.safety = safety;
    put_controller(table, controller, updated);
    Ok(())
}

proof fn lemma_safety_stop(table: Seq<(Seq<char>, ControllerView)>, safety: Seq<(String, Vec<ControllerSafeState>)>, k: int)
    requires
        0 <= k <= safety.len(),
        safety_all(table, safety.subrange(0, k)) is Err,
    ensures
        safety_all(table, safety) == safety_all(table, safety.subrange(0, k)),
    decreases safety.len() - k,
{
    if k < safety.len() {
        assert(safety.subrange(0, k + 1).drop_last() =~= safety.subrange(0, k));
        lemma_safety_stop(table, safety, k + 1);
    } else {
        assert(safety.subrange(0, k) =~= safety);
    }
}

proof fn lemma_builds_stop(table: Seq<(Seq<char>, ControllerView)>, plans: Seq<(String, ControllerBuildPlan)>, k: int)
    requires
        0 <= k <= plans.len(),
        builds_all(table, plans.subrange(0, k)) is Err,
    ensures
        builds_all(table, plans) == builds_all(table, plans.subrange(0, k)),
    decreases plans.len() - k,
{
    if k < plans.len() {
        assert(plans.subrange(0, k + 1).drop_last() =~= plans.subrange(0, k));
        lemma_builds_stop(table, plans, k + 1);
    } else {
        assert(plans.subrange(0, k) =~= plans);
    }
}

fn build_from_plan(p: &ControllerBuildPlan) -> (b: LockedBuildConfig)
    ensures
        build_view(b) == planned_build(*p),
{
    LockedBuildConfig {
        schema: CONTROLLER_BUILD_SCHEMA.to_owned(),
        board: p.board.clone(),
        chip: p.chip.clone(),
        target_triple: p.target_triple.clone(),
        toolchain: p.toolchain.clone(),
        build_profile: p.build_profile.clone(),
        protocol_version: p.protocol_version.clone(),
        abi_version: p.abi_version.clone(),
        flash_bytes: p.flash_bytes,
        ram_bytes: p.ram_bytes,
        bootloader_offset_bytes: p.bootloader_offset_bytes,
        features: copy_words(&p.features),
        native_drivers: copy_words(&p.native_drivers),
    }
}

fn copy_source(r: &crate::package::RegistrySource) -> (copy: crate::package::RegistrySource)
    ensures
        copy == *r,
{
    crate::package::RegistrySource {
        schema: r.schema.clone(),
        id: r.id.clone(),
        uri: r.uri.clone(),
        descriptor_hash: r.descriptor_hash.clone(),
    }
}

/// Build a lockfile from a successful resolution. `source` is the exact
/// manifest text that resolved: the machine hash binds the lock to those
/// bytes. `snapshots[i]` is the content snapshot read for
/// `resolved.packages[i]` (or why it could not be read), and
/// `resolver_version` names the resolver that resolved. The generated
/// lockfile must pass its own validation (E1405).
pub fn lock(
    doc: &MachineDoc,
    source: &str,
    registry: &LocalRegistry,
    resolved: &ResolvedGraph,
    snapshots: &Vec<Result<PackageSnapshot, String>>,
    resolver_version: &str,
) -> (result: Result<Lockfile, Vec<Diagnostic>>)
    requires
        snapshots@.len() == resolved.packages@.len(),
    ensures
        match generation(*doc, *registry, *resolved, snapshots@) {
            Err(f) => result matches Err(ds) && reports(ds@, f),
            Ok(g) => match result {
                Ok(l) => {
                    &&& l.lock_version == LOCK_VERSION
                    &&& l.machine_hash@ == sha256_label(vstd::utf8::encode_utf8(source@))
                    &&& l.resolver_version@ == resolver_version@
                    &&& l.registry_source == registry.source
                    &&& package_views(l.packages@) == g.packages
                    &&& package_view(l.safety_profile) == g.profile
                    &&& controller_table(l.controllers@) == g.controllers
                    &&& lock_problem(l) is None
                },
                Err(ds) => ds@.len() == 1 && ds@[0].code@ == "E1405"@ && exists|l: Lockfile|
                    {
                        &&& package_views(l.packages@) == g.packages
                        &&& package_view(l.safety_profile) == g.profile
                        &&& controller_table(l.controllers@) == g.controllers
                        &&& l.registry_source == registry.source
                        &&& l.resolver_version@ == resolver_version@
                        &&& l.lock_version == LOCK_VERSION
                        &&& lock_problem(l) matches Some(p) && ds@[0].message@
                            == "generated lockfile violates its v5 contract: "@ + p
                    },
            },
        },
{
    let registry_source = match &registry.source {
        Some(s) => copy_source(s),
        None => return Err(refusal("E1406", "registry has no validated portable source descriptor".to_owned())),
    };
    let pinned = match pin_packages(registry, &resolved.packages, snapshots) {
        Ok(p) => p,
        Err(ds) => return Err(ds),
    };
    let packages = sorted_packages(&pinned);
    let mut table = initial_table(&doc.controllers);
    let mut k: usize = 0;
    let ghost start = initial_controllers(doc.controllers@, doc.controllers@.len());
    while k < resolved.assignments.len()
        invariant
            k <= resolved.assignments@.len(),
            controller_table(table@) == assign_all(start, resolved.assignments@.subrange(0, k as int)),
        decreases resolved.assignments@.len() - k,
    {
        let component = resolved.assignments[k].0.as_str();
        let list = &resolved.assignments[k].1;
        let ghost base = controller_table(table@);
        let mut j: usize = 0;
        assert(list@.subrange(0, 0) =~= Seq::<Assignment>::empty());
        while j < list.len()
            invariant
                j <= list@.len(),
                controller_table(table@) == assign_list(base, component@, list@.subrange(0, j as int)),
            decreases list@.len() - j,
        {
            assign_exec(&mut table, component, &list[j]);
            assert(list@.subrange(0, j + 1).drop_last() =~= list@.subrange(0, j as int));
            j = j + 1;
        }
        assert(list@.subrange(0, list@.len() as int) =~= list@);
        assert(resolved.assignments@.subrange(0, k + 1).drop_last() =~= resolved.assignments@.subrange(0, k as int));
        k = k + 1;
    }
    assert(resolved.assignments@.subrange(0, resolved.assignments@.len() as int) =~= resolved.assignments@);
    let ghost assigned = controller_table(table@);
    let mut s: usize = 0;
    assert(resolved.controller_safety@.subrange(0, 0) =~= Seq::<(String, Vec<ControllerSafeState>)>::empty());
    while s < resolved.controller_safety.len()
        invariant
            s <= resolved.controller_safety@.len(),
            registry.source is Some,
            pins(*registry, resolved.packages@, snapshots@, resolved.packages@.len()) == Ok::<
                Seq<(Seq<char>, Seq<char>, Seq<char>)>,
                (Seq<char>, Seq<char>),
            >(package_views(pinned@)),
            assigned == assign_all(initial_controllers(doc.controllers@, doc.controllers@.len()), resolved.assignments@),
            safety_all(assigned, resolved.controller_safety@.subrange(0, s as int)) == Ok::<
                Seq<(Seq<char>, ControllerView)>,
                (Seq<char>, Seq<char>),
            >(controller_table(table@)),
        decreases resolved.controller_safety@.len() - s,
    {
        assert(resolved.controller_safety@.subrange(0, s + 1).drop_last() =~= resolved.controller_safety@.subrange(
            0,
            s as int,
        ));
        assert(resolved.controller_safety@.subrange(0, s + 1).last() == resolved.controller_safety@[s as int]);
        match safety_entry_exec(&mut table, resolved.controller_safety[s].0.as_str(), &resolved.controller_safety[s].1) {
            Ok(()) => {},
            Err(ds) => {
                proof {
                    lemma_safety_stop(assigned, resolved.controller_safety@, s + 1);
                }
                return Err(ds);
            },
        }
        s = s + 1;
    }
    assert(resolved.controller_safety@.subrange(0, resolved.controller_safety@.len() as int)
        =~= resolved.controller_safety@);
    let ghost with_safety = controller_table(table@);
    let mut b: usize = 0;
    assert(resolved.controller_build_plans@.subrange(0, 0) =~= Seq::<(String, ControllerBuildPlan)>::empty());
    while b < resolved.controller_build_plans.len()
        invariant
            b <= resolved.controller_build_plans@.len(),
            registry.source is Some,
            pins(*registry, resolved.packages@, snapshots@, resolved.packages@.len()) == Ok::<
                Seq<(Seq<char>, Seq<char>, Seq<char>)>,
                (Seq<char>, Seq<char>),
            >(package_views(pinned@)),
            assigned == assign_all(initial_controllers(doc.controllers@, doc.controllers@.len()), resolved.assignments@),
            safety_all(assigned, resolved.controller_safety@) == Ok::<
                Seq<(Seq<char>, ControllerView)>,
                (Seq<char>, Seq<char>),
            >(with_safety),
            builds_all(with_safety, resolved.controller_build_plans@.subrange(0, b as int)) == Ok::<
                Seq<(Seq<char>, ControllerView)>,
                (Seq<char>, Seq<char>),
            >(controller_table(table@)),
        decreases resolved.controller_build_plans@.len() - b,
    {
        assert(resolved.controller_build_plans@.subrange(0, b + 1).drop_last()
            =~= resolved.controller_build_plans@.subrange(0, b as int));
        assert(resolved.controller_build_plans@.subrange(0, b + 1).last() == resolved.controller_build_plans@[b as int]);
        let name = resolved.controller_build_plans[b].0.as_str();
        proof {
            lemma_lookup_controllers(table@, name@);
        }
        let mut updated = match get(&table, name) {
            Some(c) => copy_controller(c),
            None => {
                let mut message = "resolved build plan names unknown controller '".to_owned();
                push_str(&mut message, name);
                push_str(&mut message, "'");
                proof {
                    lemma_builds_stop(with_safety, resolved.controller_build_plans@, b + 1);
                }
                return Err(refusal("E1404", message));
            },
        };
        updated.build = Some(build_from_plan(&resolved.controller_build_plans[b].1));
        put_controller(&mut table, name, updated);
        b = b + 1;
    }
    assert(resolved.controller_build_plans@.subrange(0, resolved.controller_build_plans@.len() as int)
        =~= resolved.controller_build_plans@);
    let safety_profile = match profile_of(&packages, doc.safety.profile.as_str()) {
        Some(p) => p,
        None => {
            let mut message = "safety profile '".to_owned();
            push_str(&mut message, doc.safety.profile.as_str());
            push_str(&mut message, "' is not in the resolved closure");
            return Err(refusal("E1401", message));
        },
    };
    let source_bytes = source.as_bytes_vec();
    let lockfile = Lockfile {
        lock_version: LOCK_VERSION,
        machine_hash: sha256(source_bytes.as_slice()),
        resolver_version: resolver_version.to_owned(),
        registry_source: Some(registry_source),
        packages,
        safety_profile,
        controllers: table,
    };
    match lockfile.validate() {
        Ok(()) => Ok(lockfile),
        Err(problem) => {
            let mut message = "generated lockfile violates its v5 contract: ".to_owned();
            push_str(&mut message, problem.as_str());
            Err(refusal("E1405", message))
        },
    }
}

} // verus!
