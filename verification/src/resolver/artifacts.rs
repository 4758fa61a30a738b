//! Firmware artifact planning: for each controller, the exact package
//! references, the chip's firmware target and whole-byte memory sizes, the
//! sorted feature set and the device drivers the controller hosts.

use vstd::prelude::*;
use crate::package::{version_display, version_text};
use crate::resolver::allocation::DeviceRequirement;
use crate::resolver::model::{Assignment, ResolvedGraph};
use crate::resolver::packages::{add_all, add_name, keyed, lookup, put, put_sorted, PackageSelection};
use crate::resolver::safety::controller_of;
use crate::resolver::targets::{emit_after, emitted, entry, error_at, find_entry, Emission};
use crate::resolver::ControllerBuildPlan;
use crate::schema::{Component, Controller, Diagnostic, MachineDoc, Severity};
use crate::text::{push_str, split_once, str_eq, string_views};

verus! {

/// A chip's firmware target metadata: its memory in whole bytes (absent
/// where the chip's memory quantity does not compile to whole bytes), the
/// default bootloader offset, and the firmware build target.
#[derive(Debug, Clone)]
pub struct ChipFirmwareTarget {
    pub flash_bytes: Option<u64>,
    pub ram_bytes: Option<u64>,
    pub bootloader_offset_bytes: u64,
    pub target_triple: String,
    pub toolchain: String,
    pub build_profile: String,
    pub protocol_version: String,
    pub abi_version: String,
    pub features: Vec<String>,
}

/// The content of a build plan.
pub struct PlanView {
    pub board: Seq<char>,
    pub chip: Seq<char>,
    pub target_triple: Seq<char>,
    pub toolchain: Seq<char>,
    pub build_profile: Seq<char>,
    pub protocol_version: Seq<char>,
    pub abi_version: Seq<char>,
    pub flash_bytes: u64,
    pub ram_bytes: u64,
    pub bootloader_offset_bytes: u64,
    pub features: Seq<Seq<char>>,
    pub native_drivers: Seq<Seq<char>>,
}

pub open spec fn plan_view(p: ControllerBuildPlan) -> PlanView {
    PlanView {
        board: p.board@,
        chip: p.chip@,
        target_triple: p.target_triple@,
        toolchain: p.toolchain@,
        build_profile: p.build_profile@,
        protocol_version: p.protocol_version@,
        abi_version: p.abi_version@,
        flash_bytes: p.flash_bytes,
        ram_bytes: p.ram_bytes,
        bootloader_offset_bytes: p.bootloader_offset_bytes,
        features: string_views(p.features@),
        native_drivers: string_views(p.native_drivers@),
    }
}

pub open spec fn plans_listed(t: Seq<(Seq<char>, ControllerBuildPlan)>) -> Seq<(Seq<char>, PlanView)> {
    t.map_values(|e: (Seq<char>, ControllerBuildPlan)| (e.0, plan_view(e.1)))
}

/// A graph's build plans: controller, then its plan.
pub open spec fn plan_table(t: Seq<(String, ControllerBuildPlan)>) -> Seq<(Seq<char>, PlanView)> {
    plans_listed(keyed(t))
}

proof fn lemma_plans_put(table: Seq<(Seq<char>, ControllerBuildPlan)>, key: Seq<char>, value: ControllerBuildPlan)
    ensures
        plans_listed(put_sorted(table, key, value)) == put_sorted(plans_listed(table), key, plan_view(value)),
    decreases table.len(),
{
    if table.len() == 0 {
        assert(plans_listed(seq![(key, value)]) =~= seq![(key, plan_view(value))]);
    } else {
        let rest = table.drop_last();
        assert(plans_listed(table).drop_last() =~= plans_listed(rest));
        assert(plans_listed(table).last() == (table.last().0, plan_view(table.last().1)));
        if crate::flash::text_order(table.last().0, key) < 0 {
            assert(plans_listed(table.push((key, value))) =~= plans_listed(table).push((key, plan_view(value))));
        } else if crate::flash::text_order(table.last().0, key) == 0 {
            assert(plans_listed(rest.push((key, value))) =~= plans_listed(rest).push((key, plan_view(value))));
        } else {
            lemma_plans_put(rest, key, value);
            assert(plans_listed(put_sorted(rest, key, value).push(table.last())) =~= plans_listed(
                put_sorted(rest, key, value),
            ).push((table.last().0, plan_view(table.last().1))));
        }
    }
}

/// Some assignment of the list sits on `controller`.
pub open spec fn on_controller(list: Seq<Assignment>, controller: Seq<char>) -> bool {
    exists|i: int| 0 <= i < list.len() && controller_of((#[trigger] list[i]).resource.0@) == Some(controller)
}

/// The device packages of the first `k` components with an assignment on
/// `controller`, sorted and without repeats.
pub open spec fn native_drivers(
    assignments: Seq<(String, Vec<Assignment>)>,
    components: Seq<(String, Component)>,
    requirements: Seq<(String, DeviceRequirement)>,
    controller: Seq<char>,
    k: nat,
) -> Seq<Seq<char>>
    decreases k,
{
    if k == 0 || k > components.len() {
        seq![]
    } else {
        let before = native_drivers(assignments, components, requirements, controller, (k - 1) as nat);
        let (name, component) = (components[k - 1].0@, components[k - 1].1);
        let hosted = match entry(assignments, name) {
            Some(list) => on_controller(list@, controller),
            None => false,
        };
        if hosted {
            match entry(requirements, component.kind@) {
                Some(d) => crate::resolver::packages::add_sorted(before, d.reference@),
                None => before,
            }
        } else {
            before
        }
    }
}

/// The plan of one controller, or the finding that stops it (E1600 without
/// a chip or its firmware metadata, E1601 without whole-byte memory,
/// E1602 without an exact board version).
pub open spec fn controller_plan(
    graph: ResolvedGraph,
    doc: MachineDoc,
    requirements: Seq<(String, DeviceRequirement)>,
    chosen: Seq<(Seq<char>, semver::Version)>,
    chip_targets: Seq<(String, Option<ChipFirmwareTarget>)>,
    chip_refs: Seq<(String, String)>,
    name: Seq<char>,
    controller: Controller,
) -> Result<PlanView, Emission> {
    let at = "controllers."@ + name + ".board"@;
    match entry(chip_targets, name) {
        None => Err(
            error_at(
                "E1600"@,
                "controller '"@ + name + "' has no resolved chip for firmware artifact planning"@,
                at,
            ),
        ),
        Some(found) => match (found, entry(chip_refs, name)) {
            (Some(target), Some(chip_reference)) => match (target.flash_bytes, target.ram_bytes) {
                (Some(flash_bytes), Some(ram_bytes)) => match lookup(chosen, controller.board@) {
                    None => Err(
                        error_at(
                            "E1602"@,
                            "controller '"@ + name + "' board '"@ + controller.board@
                                + "' has no exact selected version"@,
                            at,
                        ),
                    ),
                    Some(version) => Ok(
                        PlanView {
                            board: controller.board@ + "@"@ + version_display(version),
                            chip: chip_reference@,
                            target_triple: target.target_triple@,
                            toolchain: target.toolchain@,
                            build_profile: target.build_profile@,
                            protocol_version: target.protocol_version@,
                            abi_version: target.abi_version@,
                            flash_bytes,
                            ram_bytes,
                            bootloader_offset_bytes: target.bootloader_offset_bytes,
                            features: add_all(seq![], string_views(target.features@)),
                            native_drivers: native_drivers(
                                graph.assignments@,
                                doc.components@,
                                requirements,
                                name,
                                doc.components@.len(),
                            ),
                        },
                    ),
                },
                _ => Err(
                    error_at(
                        "E1601"@,
                        "controller '"@ + name + "' chip memory cannot compile to whole bytes"@,
                        at,
                    ),
                ),
            },
            _ => Err(
                error_at(
                    "E1600"@,
                    "controller '"@ + name + "' chip package lacks memory, boot, or firmware target metadata"@,
                    at,
                ),
            ),
        },
    }
}

/// Plans and findings after the first `k` controllers.
pub open spec fn planning(
    graph: ResolvedGraph,
    doc: MachineDoc,
    requirements: Seq<(String, DeviceRequirement)>,
    chosen: Seq<(Seq<char>, semver::Version)>,
    chip_targets: Seq<(String, Option<ChipFirmwareTarget>)>,
    chip_refs: Seq<(String, String)>,
    k: nat,
) -> (Seq<(Seq<char>, PlanView)>, Seq<Emission>)
    decreases k,
{
    let controllers = doc.controllers@;
    if k == 0 || k > controllers.len() {
        (plan_table(graph.controller_build_plans@), seq![])
    } else {
        let (plans, findings) = planning(graph, doc, requirements, chosen, chip_targets, chip_refs, (k - 1) as nat);
        let name = controllers[k - 1].0@;
        match controller_plan(graph, doc, requirements, chosen, chip_targets, chip_refs, name, controllers[k - 1].1) {
            Ok(p) => (put_sorted(plans, name, p), findings),
            Err(e) => (plans, findings.push(e)),
        }
    }
}

fn hosted_on(list: &Vec<Assignment>, controller: &str) -> (hosted: bool)
    ensures
        hosted == on_controller(list@, controller@),
{
    let mut i: usize = 0;
    while i < list.len()
        invariant
            i <= list@.len(),
            forall|j: int| 0 <= j < i ==> controller_of((#[trigger] list@[j]).resource.0@) != Some(controller@),
        decreases list@.len() - i,
    {
        match split_once(list[i].resource.0.as_str(), ".") {
            Some((candidate, _)) => {
                if str_eq(candidate, controller) {
                    return true;
                }
            },
            None => {},
        }
        i = i + 1;
    }
    false
}

fn drivers_on(
    assignments: &Vec<(String, Vec<Assignment>)>,
    doc: &MachineDoc,
    requirements: &Vec<(String, DeviceRequirement)>,
    controller: &str,
) -> (drivers: Vec<String>)
    ensures
        string_views(drivers@) == native_drivers(assignments@, doc.components@, requirements@, controller@, doc.components@.len()),
{
    let mut drivers: Vec<String> = Vec::new();
    assert(string_views(drivers@) =~= Seq::<Seq<char>>::empty());
    let mut i: usize = 0;
    while i < doc.components.len()
        invariant
            i <= doc.components@.len(),
            string_views(drivers@) == native_drivers(assignments@, doc.components@, requirements@, controller@, i as nat),
        decreases doc.components@.len() - i,
    {
        let hosted = match find_entry(assignments, doc.components[i].0.as_str()) {
            Some(list) => hosted_on(list, controller),
            None => false,
        };
        if hosted {
            match find_entry(requirements, doc.components[i].1.kind.as_str()) {
                Some(d) => add_name(&mut drivers, d.reference.as_str()),
                None => {},
            }
        }
        i = i + 1;
    }
    drivers
}

fn sorted_features(features: &Vec<String>) -> (sorted: Vec<String>)
    ensures
        string_views(sorted@) == add_all(seq![], string_views(features@)),
{
    let ghost all = string_views(features@);
    let mut sorted: Vec<String> = Vec::new();
    assert(string_views(sorted@) =~= Seq::<Seq<char>>::empty());
    let mut i: usize = 0;
    while i < features.len()
        invariant
            i <= features@.len(),
            all == string_views(features@),
            string_views(sorted@) == add_all(seq![], all.subrange(0, i as int)),
        decreases features@.len() - i,
    {
        add_name(&mut sorted, features[i].as_str());
        assert(all.subrange(0, i + 1).drop_last() =~= all.subrange(0, i as int));
        i = i + 1;
    }
    assert(all.subrange(0, features@.len() as int) =~= all);
    sorted
}

/// Plan each controller's firmware build, in controller order: a plan
/// pins the board at its selected version and the chip package, takes the
/// chip's firmware target and whole-byte memory, sorts and deduplicates
/// its features, and lists the device packages of the components assigned
/// to the controller. A controller that cannot be planned is reported
/// (E1600, E1601, E1602) and gets no plan.
pub fn plan_artifacts(
    doc: &MachineDoc,
    resolved: &mut ResolvedGraph,
    requirements: &Vec<(String, DeviceRequirement)>,
    packages: &PackageSelection,
    chip_targets: &Vec<(String, Option<ChipFirmwareTarget>)>,
    chip_refs: &Vec<(String, String)>,
    diagnostics: &mut Vec<Diagnostic>,
)
    ensures
        ({
            let (plans, findings) = planning(
                *old(resolved),
                *doc,
                requirements@,
                keyed(packages.chosen@),
                chip_targets@,
                chip_refs@,
                doc.controllers@.len(),
            );
            &&& plan_table(final(resolved).controller_build_plans@) == plans
            &&& final(diagnostics)@.subrange(0, old(diagnostics)@.len() as int) == old(diagnostics)@
            &&& emitted(
                final(diagnostics)@.subrange(old(diagnostics)@.len() as int, final(diagnostics)@.len() as int),
                findings,
            )
        }),
        final(resolved).assignments == old(resolved).assignments,
        final(resolved).controller_safety == old(resolved).controller_safety,
        final(resolved).packages == old(resolved).packages,
{
    let ghost graph = *resolved;
    let mut plans: Vec<(String, ControllerBuildPlan)> = Vec::new();
    std::mem::swap(&mut plans, &mut resolved.controller_build_plans);
    let mut out: Vec<Diagnostic> = Vec::new();
    let n = doc.controllers.len();
    let mut i: usize = 0;
    while i < n
        invariant
            i <= n,
            n == doc.controllers@.len(),
            resolved.assignments == graph.assignments,
            resolved.controller_safety == graph.controller_safety,
            resolved.packages == graph.packages,
            ({
                let (p, f) = planning(graph, *doc, requirements@, keyed(packages.chosen@), chip_targets@, chip_refs@, i as nat);
                &&& plan_table(plans@) == p
                &&& emitted(out@, f)
            }),
        decreases n - i,
    {
        let ghost (p, f) = planning(graph, *doc, requirements@, keyed(packages.chosen@), chip_targets@, chip_refs@, i as nat);
        let name = doc.controllers[i].0.as_str();
        let controller = &doc.controllers[i].1;
        let mut at = "controllers.".to_owned();
        push_str(&mut at, name);
        push_str(&mut at, ".board");
        let found = match find_entry(chip_targets, name) {
            Some(found) => found,
            None => {
                let mut message = "controller '".to_owned();
                push_str(&mut message, name);
                push_str(&mut message, "' has no resolved chip for firmware artifact planning");
                emit_after(&mut out, Ghost(f), Severity::Error, "E1600", message, Some(at));
                i = i + 1;
                continue;
            },
        };
        let (target, chip_reference) = match (found, find_entry(chip_refs, name)) {
            (Some(t), Some(r)) => (t, r),
            _ => {
                let mut message = "controller '".to_owned();
                push_str(&mut message, name);
                push_str(&mut message, "' chip package lacks memory, boot, or firmware target metadata");
                emit_after(&mut out, Ghost(f), Severity::Error, "E1600", message, Some(at));
                i = i + 1;
                continue;
            },
        };
        let (flash_bytes, ram_bytes) = match (target.flash_bytes, target.ram_bytes) {
            (Some(a), Some(b)) => (a, b),
            _ => {
                let mut message = "controller '".to_owned();
                push_str(&mut message, name);
                push_str(&mut message, "' chip memory cannot compile to whole bytes");
                emit_after(&mut out, Ghost(f), Severity::Error, "E1601", message, Some(at));
                i = i + 1;
                continue;
            },
        };
        let version = match packages.version(controller.board.as_str()) {
            Some(v) => v,
            None => {
                let mut message = "controller '".to_owned();
                push_str(&mut message, name);
                push_str(&mut message, "' board '");
                push_str(&mut message, controller.board.as_str());
                push_str(&mut message, "' has no exact selected version");
                emit_after(&mut out, Ghost(f), Severity::Error, "E1602", message, Some(at));
                i = i + 1;
                continue;
            },
        };
        let mut board = controller.board.clone();
        push_str(&mut board, "@");
        let version_label = version_text(version);
        push_str(&mut board, version_label.as_str());
        let plan = ControllerBuildPlan {
            board,
            chip: chip_reference.clone(),
            target_triple: target.target_triple.clone(),
            toolchain: target.toolchain.clone(),
            build_profile: target.build_profile.clone(),
            protocol_version: target.protocol_version.clone(),
            abi_version: target.abi_version.clone(),
            flash_bytes,
            ram_bytes,
            bootloader_offset_bytes: target.bootloader_offset_bytes,
            features: sorted_features(&target.features),
            native_drivers: drivers_on(&resolved.assignments, doc, requirements, name),
        };
        let ghost before = plans@;
        let ghost value = plan;
        put(&mut plans, name.to_owned(), plan);
        proof {
            lemma_plans_put(keyed(before), name@, value);
        }
        i = i + 1;
    }
    resolved.controller_build_plans = plans;
    let ghost before = diagnostics@;
    let ghost added = out@;
    diagnostics.append(&mut out);
    assert(diagnostics@.subrange(0, before.len() as int) =~= before);
    assert(diagnostics@.subrange(before.len() as int, diagnostics@.len() as int) =~= added);
}

} // verus!
