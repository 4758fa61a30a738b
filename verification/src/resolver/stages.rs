//! The order of resolution after parsing. Each stage reads package
//! payloads from disk before its phase runs, so the driver performs the
//! reads and runs the phase; this module decides which stage comes next,
//! records the phases each stage runs, and gives the outcome.

use vstd::prelude::*;
use crate::resolver::allocation::{any_error, has_error};
use crate::resolver::model::{ResolveOutcome, ResolvedGraph};
use crate::resolver::Phase;
use crate::schema::Diagnostic;
use crate::spans::{nearest_recorded, SpanIndex};

verus! {

/// The stages of resolution after parsing, in the order they run.
#[derive(Debug, Clone, Copy, PartialEq, Eq, Structural)]
pub enum Stage {
    Dependencies,
    Loading,
    Expansion,
    Allocation,
    Electrical,
    Safety,
    Partitioning,
    Planning,
}

/// The phases a stage records when it is entered. Allocation records its
/// two phases itself.
pub open spec fn stage_phases(stage: Stage) -> Seq<Phase> {
    match stage {
        Stage::Dependencies => seq![Phase::PackageDependencies],
        Stage::Loading => seq![Phase::PackageLoading],
        Stage::Expansion => seq![Phase::GraphExpansion],
        Stage::Allocation => seq![],
        Stage::Electrical => seq![Phase::ElectricalValidation],
        Stage::Safety => seq![Phase::SafetyValidation],
        Stage::Partitioning => seq![Phase::FirmwarePartitioning],
        Stage::Planning => seq![Phase::ArtifactPlanning],
    }
}

/// The stage after `stage`; none after planning.
pub open spec fn successor(stage: Stage) -> Option<Stage> {
    match stage {
        Stage::Dependencies => Some(Stage::Loading),
        Stage::Loading => Some(Stage::Expansion),
        Stage::Expansion => Some(Stage::Allocation),
        Stage::Allocation => Some(Stage::Electrical),
        Stage::Electrical => Some(Stage::Safety),
        Stage::Safety => Some(Stage::Partitioning),
        Stage::Partitioning => Some(Stage::Planning),
        Stage::Planning => None,
    }
}

/// Record the phases of the stage being entered.
pub fn enter(stage: Stage, phases_run: &mut Vec<Phase>)
    ensures
        final(phases_run)@ == old(phases_run)@ + stage_phases(stage),
{
    let ghost before = phases_run@;
    match stage {
        Stage::Dependencies => phases_run.push(Phase::PackageDependencies),
        Stage::Loading => phases_run.push(Phase::PackageLoading),
        Stage::Expansion => phases_run.push(Phase::GraphExpansion),
        Stage::Allocation => {},
        Stage::Electrical => phases_run.push(Phase::ElectricalValidation),
        Stage::Safety => phases_run.push(Phase::SafetyValidation),
        Stage::Partitioning => phases_run.push(Phase::FirmwarePartitioning),
        Stage::Planning => phases_run.push(Phase::ArtifactPlanning),
    }
    assert(phases_run@ =~= before + stage_phases(stage));
}

/// The stage to run after `stage`: none once any error has been reported
/// (resolution stops where it fails) or after planning.
pub fn next_stage(stage: Stage, diagnostics: &Vec<Diagnostic>) -> (next: Option<Stage>)
    ensures
        next == if has_error(diagnostics@) {
            None
        } else {
            successor(stage)
        },
{
    if any_error(diagnostics) {
        return None;
    }
    match stage {
        Stage::Dependencies => Some(Stage::Loading),
        Stage::Loading => Some(Stage::Expansion),
        Stage::Expansion => Some(Stage::Allocation),
        Stage::Allocation => Some(Stage::Electrical),
        Stage::Electrical => Some(Stage::Safety),
        Stage::Safety => Some(Stage::Partitioning),
        Stage::Partitioning => Some(Stage::Planning),
        Stage::Planning => None,
    }
}

/// The outcome of a run: the graph only when it reached the end and no
/// error was reported.
pub fn finish(resolved: Option<ResolvedGraph>, diagnostics: Vec<Diagnostic>, phases_run: Vec<Phase>) -> (outcome:
    ResolveOutcome)
    ensures
        outcome.resolved is Some <==> (resolved is Some && !has_error(diagnostics@)),
        match outcome.resolved {
            Some(g) => resolved == Some(g),
            None => true,
        },
        outcome.diagnostics@ == diagnostics@,
        outcome.phases_run@ == phases_run@,
{
    let failed = any_error(&diagnostics);
    ResolveOutcome { resolved: if failed { None } else { resolved }, diagnostics, phases_run }
}

/// The phases of the first `k` stages, allocation's own included.
pub open spec fn phases_through(k: nat) -> Seq<Phase>
    decreases k,
{
    if k == 0 {
        seq![]
    } else {
        phases_through((k - 1) as nat) + match stage_at((k - 1) as nat) {
            Some(Stage::Allocation) => seq![Phase::CapabilityMatching, Phase::ResourceAllocation],
            Some(s) => stage_phases(s),
            None => seq![],
        }
    }
}

/// The `k`-th stage in order.
pub open spec fn stage_at(k: nat) -> Option<Stage>
    decreases k,
{
    if k == 0 {
        Some(Stage::Dependencies)
    } else {
        match stage_at((k - 1) as nat) {
            Some(s) => successor(s),
            None => None,
        }
    }
}

/// The resolver's phases after parsing, in order.
pub open spec fn phase_order() -> Seq<Phase> {
    seq![
        Phase::PackageDependencies,
        Phase::PackageLoading,
        Phase::GraphExpansion,
        Phase::CapabilityMatching,
        Phase::ResourceAllocation,
        Phase::ElectricalValidation,
        Phase::SafetyValidation,
        Phase::FirmwarePartitioning,
        Phase::ArtifactPlanning,
    ]
}

/// Running the stages in order records each phase once, in the resolver's
/// phase order: the phases of any run that stops after its `k`-th stage
/// are a prefix of that order, and a complete run records all of it.
pub proof fn stages_record_phases_in_order(k: nat)
    requires
        k <= 8,
    ensures
        phases_through(k).len() <= phase_order().len(),
        phases_through(k) == phase_order().subrange(0, phases_through(k).len() as int),
        k == 8 ==> phases_through(k) == phase_order(),
{
    reveal_with_fuel(stage_at, 9);
    reveal_with_fuel(phases_through, 9);
    assert(phases_through(0) =~= phase_order().subrange(0, 0));
    assert(phases_through(1) =~= phase_order().subrange(0, 1));
    assert(phases_through(2) =~= phase_order().subrange(0, 2));
    assert(phases_through(3) =~= phase_order().subrange(0, 3));
    assert(phases_through(4) =~= phase_order().subrange(0, 5));
    assert(phases_through(5) =~= phase_order().subrange(0, 6));
    assert(phases_through(6) =~= phase_order().subrange(0, 7));
    assert(phases_through(7) =~= phase_order().subrange(0, 8));
    assert(phases_through(8) =~= phase_order());
}

/// A diagnostic after locating: one with a path and no line yet takes the
/// start (line and 1-based column) of the path's nearest recorded range;
/// any other is kept as it is.
pub open spec fn located(d: Diagnostic, spans: SpanIndex) -> Diagnostic {
    match (d.line, d.path) {
        (None, Some(p)) => match nearest_recorded(spans.ranges().dom(), p@) {
            Some(k) => Diagnostic {
                code: d.code,
                severity: d.severity,
                message: d.message,
                path: d.path,
                line: Some(spans.ranges()[k].0.line),
                column: Some(spans.ranges()[k].0.column),
                suggestions: d.suggestions,
            },
            None => d,
        },
        _ => d,
    }
}

/// Locate each diagnostic that names a document path but no line yet
/// against the spans of the parsed source.
pub fn locate_diagnostics(diagnostics: &mut Vec<Diagnostic>, spans: &SpanIndex)
    ensures
        final(diagnostics)@.len() == old(diagnostics)@.len(),
        forall|i: int|
            0 <= i < old(diagnostics)@.len() ==> #[trigger] final(diagnostics)@[i] == located(
                old(diagnostics)@[i],
                *spans,
            ),
{
    let ghost original = old(diagnostics)@;
    let mut pending: Vec<Diagnostic> = Vec::new();
    std::mem::swap(&mut pending, diagnostics);
    while pending.len() > 0
        invariant
            diagnostics@.len() + pending@.len() == original.len(),
            pending@ == original.subrange(diagnostics@.len() as int, original.len() as int),
            forall|j: int|
                0 <= j < diagnostics@.len() ==> #[trigger] diagnostics@[j] == located(original[j], *spans),
        decreases pending@.len(),
    {
        let ghost k = diagnostics@.len() as int;
        let mut d = pending.remove(0);
        assert(d == original[k]);
        if d.line.is_none() {
            let found = match &d.path {
                Some(p) => spans.locate_span(p.as_str()),
                None => None,
            };
            match found {
                Some(span) => {
                    d.line = Some(span.start.line);
                    d.column = Some(span.start.column);
                },
                None => {},
            }
        }
        diagnostics.push(d);
        assert(pending@ =~= original.subrange(diagnostics@.len() as int, original.len() as int));
    }
}

} // verus!
