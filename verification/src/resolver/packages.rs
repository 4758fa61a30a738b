//! Package dependency resolution: the transitive closure of the machine's
//! packages.
//!
//! Roots are the machine's explicit pins plus its implicit references
//! (controller boards, the safety profile). Each round selects a version
//! for every path that is pinned, implicit, or required by a package
//! selected in the round before: a pin is absolute and every requirement
//! on it must accept it; any other path gets the highest registry version
//! that every requirement accepts. Requirements are then read again from
//! the selected packages' manifests, until a round changes nothing (at
//! most 64 rounds).

use vstd::prelude::*;
use crate::flash::{compare_text, text_order};
use crate::package::{
    at_version, precedence_sorted, ref_shape, requirement_display, requirement_matches,
    requirement_parse, sorted_versions, spaced_commas, version_display, version_order, version_parse,
    versions_of, LocalRegistry, PackageRef, RefShape,
};
use crate::resolver::targets::{emit_after, emitted, error_at, plain_error, Emission};
use crate::schema::{Diagnostic, MachineDoc, Severity};
use crate::text::{decimal, joined, split_at_first};

verus! {

/// The highest number of rounds resolution runs.
pub const MAX_ROUNDS: usize = 64;

/// A requirement on a package: the package that states it, and the range.
pub struct RequirementConstraint {
    pub required_by: String,
    pub requirement: semver::VersionReq,
}

/// The packages resolution selected, by path in path order, and the
/// closure as `namespace/name@version` references in the same order.
pub struct PackageSelection {
    pub chosen: Vec<(String, semver::Version)>,
    pub closure_refs: Vec<String>,
}

// ---------------------------------------------------------------------------
// Sorted tables
// ---------------------------------------------------------------------------

/// A table in key order with `key` set to `value`.
pub open spec fn put_sorted<V>(table: Seq<(Seq<char>, V)>, key: Seq<char>, value: V) -> Seq<(Seq<char>, V)>
    decreases table.len(),
{
    if table.len() == 0 {
        seq![(key, value)]
    } else if text_order(table.last().0, key) < 0 {
        table.push((key, value))
    } else if text_order(table.last().0, key) == 0 {
        table.drop_last().push((key, value))
    } else {
        put_sorted(table.drop_last(), key, value).push(table.last())
    }
}

/// A set in sorted order with `x` added.
pub open spec fn add_sorted(set: Seq<Seq<char>>, x: Seq<char>) -> Seq<Seq<char>>
    decreases set.len(),
{
    if set.len() == 0 {
        seq![x]
    } else if text_order(set.last(), x) < 0 {
        set.push(x)
    } else if text_order(set.last(), x) == 0 {
        set
    } else {
        add_sorted(set.drop_last(), x).push(set.last())
    }
}

/// The value of the first entry with `key`.
pub open spec fn lookup<V>(table: Seq<(Seq<char>, V)>, key: Seq<char>) -> Option<V>
    decreases table.len(),
{
    if table.len() == 0 {
        None
    } else if table[0].0 == key {
        Some(table[0].1)
    } else {
        lookup(table.drop_first(), key)
    }
}

pub open spec fn add_all(set: Seq<Seq<char>>, items: Seq<Seq<char>>) -> Seq<Seq<char>>
    decreases items.len(),
{
    if items.len() == 0 {
        set
    } else {
        add_sorted(add_all(set, items.drop_last()), items.last())
    }
}

pub open spec fn table_keys<V>(table: Seq<(Seq<char>, V)>) -> Seq<Seq<char>> {
    table.map_values(|e: (Seq<char>, V)| e.0)
}

// ---------------------------------------------------------------------------
// Roots
// ---------------------------------------------------------------------------

/// The path and version a package reference pins, when it parses.
pub open spec fn pinned(text: Seq<char>) -> Option<(Seq<char>, semver::Version)> {
    match ref_shape(text) {
        RefShape::Parts { namespace, name, version } => match version_parse(version) {
            Ok(v) => Some((namespace + "/"@ + name, v)),
            Err(_) => None,
        },
        _ => None,
    }
}

/// The pins of the first `k` package references, and where each is
/// declared (`packages[<index>]`); a later pin of a path replaces an
/// earlier one.
pub open spec fn pin_table(packages: Seq<String>, k: nat) -> (
    Seq<(Seq<char>, semver::Version)>,
    Seq<(Seq<char>, Seq<char>)>,
)
    decreases k,
{
    if k == 0 || k > packages.len() {
        (seq![], seq![])
    } else {
        let (pins, paths) = pin_table(packages, (k - 1) as nat);
        match pinned(packages[k - 1]@) {
            Some((path, v)) => (
                put_sorted(pins, path, v),
                put_sorted(paths, path, "packages["@ + decimal((k - 1) as nat) + "]"@),
            ),
            None => (pins, paths),
        }
    }
}

/// The packages a machine names without a version: its controllers'
/// boards and its safety profile, when they read as `namespace/name`.
pub open spec fn implicit_roots(doc: MachineDoc) -> Seq<Seq<char>> {
    let boards = board_roots(doc.controllers@, doc.controllers@.len());
    if split_at_first(doc.safety.profile@, "/"@) is Some {
        add_sorted(boards, doc.safety.profile@)
    } else {
        boards
    }
}

pub open spec fn board_roots(controllers: Seq<(String, crate::schema::Controller)>, k: nat) -> Seq<
    Seq<char>,
>
    decreases k,
{
    if k == 0 || k > controllers.len() {
        seq![]
    } else {
        let roots = board_roots(controllers, (k - 1) as nat);
        let board = controllers[k - 1].1.board@;
        if split_at_first(board, "/"@) is Some {
            add_sorted(roots, board)
        } else {
            roots
        }
    }
}

// ---------------------------------------------------------------------------
// One round
// ---------------------------------------------------------------------------

/// What a round selects and reports so far.
pub struct Round {
    pub next: Seq<(Seq<char>, semver::Version)>,
    pub errors: Seq<Emission>,
    pub warnings: Seq<Emission>,
}

/// The versions' texts.
pub open spec fn version_texts(versions: Seq<semver::Version>) -> Seq<Seq<char>> {
    versions.map_values(|v: semver::Version| version_display(v))
}

/// Every requirement accepts the version.
pub open spec fn accepted(requirements: Seq<(Seq<char>, semver::VersionReq)>, v: semver::Version) -> bool {
    forall|i: int| 0 <= i < requirements.len() ==> requirement_matches(#[trigger] requirements[i].1, v)
}

/// The versions every requirement accepts, in order.
pub open spec fn satisfying(versions: Seq<semver::Version>, requirements: Seq<(Seq<char>, semver::VersionReq)>) -> Seq<
    semver::Version,
>
    decreases versions.len(),
{
    if versions.len() == 0 {
        seq![]
    } else {
        let rest = satisfying(versions.drop_last(), requirements);
        if accepted(requirements, versions.last()) {
            rest.push(versions.last())
        } else {
            rest
        }
    }
}

/// The findings for the requirements a pin does not meet (E1103).
pub open spec fn unmet_findings(
    path: Seq<char>,
    pin: semver::Version,
    at: Seq<char>,
    requirements: Seq<(Seq<char>, semver::VersionReq)>,
) -> Seq<Emission>
    decreases requirements.len(),
{
    if requirements.len() == 0 {
        seq![]
    } else {
        let c = requirements.last();
        unmet_findings(path, pin, at, requirements.drop_last()) + if requirement_matches(c.1, pin) {
            seq![]
        } else {
            seq![
                error_at(
                    "E1103"@,
                    "'"@ + c.0 + "' requires '"@ + path + "' "@ + requirement_display(c.1)
                        + " but the machine pins "@ + version_display(pin),
                    at,
                ),
            ]
        }
    }
}

/// `'<required by>' (<range>)` for each requirement.
pub open spec fn requirement_texts(requirements: Seq<(Seq<char>, semver::VersionReq)>) -> Seq<Seq<char>> {
    requirements.map_values(
        |c: (Seq<char>, semver::VersionReq)| "'"@ + c.0 + "' ("@ + requirement_display(c.1) + ")"@,
    )
}

/// One path of a round.
pub open spec fn path_step(
    st: Round,
    path: Seq<char>,
    pins: Seq<(Seq<char>, semver::Version)>,
    pin_paths: Seq<(Seq<char>, Seq<char>)>,
    roots: Seq<Seq<char>>,
    constraints: Seq<(Seq<char>, Seq<(Seq<char>, semver::VersionReq)>)>,
    registry: LocalRegistry,
) -> Round {
    match split_at_first(path, "/"@) {
        None => st,
        Some((namespace, name)) => {
            let available = sorted_versions(versions_of(registry.packages@, namespace, name));
            let requirements = match lookup(constraints, path) {
                Some(r) => r,
                None => seq![],
            };
            let at = match lookup(pin_paths, path) {
                Some(p) => p,
                None => "packages"@,
            };
            if available.len() == 0 {
                Round {
                    errors: st.errors.push(
                        error_at("E1100"@, "package '"@ + path + "' is not in the registry"@, "packages"@),
                    ),
                    ..st
                }
            } else {
                match lookup(pins, path) {
                    Some(pin) => if !available.contains(pin) {
                        Round {
                            errors: st.errors.push(
                                error_at(
                                    "E1101"@,
                                    "package '"@ + path + "' pinned at "@ + version_display(pin)
                                        + " but the registry has "@ + joined(version_texts(available), ", "@),
                                    at,
                                ),
                            ),
                            ..st
                        }
                    } else {
                        let unmet = unmet_findings(path, pin, at, requirements);
                        Round {
                            next: if unmet.len() == 0 {
                                st.next.push((path, pin))
                            } else {
                                st.next
                            },
                            errors: st.errors + unmet,
                            ..st
                        }
                    },
                    None => {
                        let ok = satisfying(available, requirements);
                        if ok.len() == 0 {
                            Round {
                                errors: st.errors.push(
                                    plain_error(
                                        "E1104"@,
                                        "no version of '"@ + path + "' satisfies "@ + joined(
                                            requirement_texts(requirements),
                                            " and "@,
                                        ) + "; available: "@ + joined(version_texts(available), ", "@),
                                    ),
                                ),
                                ..st
                            }
                        } else {
                            Round {
                                next: st.next.push((path, ok.last())),
                                warnings: if requirements.len() == 0 && roots.contains(path) {
                                    st.warnings.push(
                                        Emission::Made {
                                            severity: Severity::Warning,
                                            code: "E1106"@,
                                            message: "'"@ + path + "' is not version-pinned; selected "@
                                                + version_display(ok.last()) + " (highest available)"@,
                                            path: None,
                                            suggestion: None,
                                        },
                                    )
                                } else {
                                    st.warnings
                                },
                                ..st
                            }
                        }
                    },
                }
            }
        },
    }
}

/// The paths a round visits: pinned, implicit, and required, in path order.
pub open spec fn round_paths(
    pins: Seq<(Seq<char>, semver::Version)>,
    roots: Seq<Seq<char>>,
    constraints: Seq<(Seq<char>, Seq<(Seq<char>, semver::VersionReq)>)>,
) -> Seq<Seq<char>> {
    add_all(add_all(add_all(seq![], table_keys(pins)), roots), table_keys(constraints))
}

/// The first `k` paths of a round.
pub open spec fn round_over(
    paths: Seq<Seq<char>>,
    k: nat,
    pins: Seq<(Seq<char>, semver::Version)>,
    pin_paths: Seq<(Seq<char>, Seq<char>)>,
    roots: Seq<Seq<char>>,
    constraints: Seq<(Seq<char>, Seq<(Seq<char>, semver::VersionReq)>)>,
    registry: LocalRegistry,
) -> Round
    decreases k,
{
    if k == 0 || k > paths.len() {
        Round { next: seq![], errors: seq![], warnings: seq![] }
    } else {
        path_step(
            round_over(paths, (k - 1) as nat, pins, pin_paths, roots, constraints, registry),
            paths[k - 1],
            pins,
            pin_paths,
            roots,
            constraints,
            registry,
        )
    }
}

/// A requirement added to a table of requirements by path.
pub open spec fn add_constraint(
    table: Seq<(Seq<char>, Seq<(Seq<char>, semver::VersionReq)>)>,
    path: Seq<char>,
    c: (Seq<char>, semver::VersionReq),
) -> Seq<(Seq<char>, Seq<(Seq<char>, semver::VersionReq)>)> {
    match lookup(table, path) {
        Some(list) => put_sorted(table, path, list.push(c)),
        None => put_sorted(table, path, seq![c]),
    }
}

/// The requirements one selected package states.
pub open spec fn package_requirements(
    table: Seq<(Seq<char>, Seq<(Seq<char>, semver::VersionReq)>)>,
    by: Seq<char>,
    dependencies: Seq<(String, crate::package::Dependency)>,
) -> Seq<(Seq<char>, Seq<(Seq<char>, semver::VersionReq)>)>
    decreases dependencies.len(),
{
    if dependencies.len() == 0 {
        table
    } else {
        let before = package_requirements(table, by, dependencies.drop_last());
        let (dependency, declaration) = dependencies.last();
        match requirement_parse(spaced_commas(declaration.version@)) {
            Ok(r) => add_constraint(before, dependency@, (by, r)),
            Err(_) => before,
        }
    }
}

/// The requirements the selected packages state, by required path.
pub open spec fn derived_constraints(
    chosen: Seq<(Seq<char>, semver::Version)>,
    registry: LocalRegistry,
) -> Seq<(Seq<char>, Seq<(Seq<char>, semver::VersionReq)>)>
    decreases chosen.len(),
{
    if chosen.len() == 0 {
        seq![]
    } else {
        let before = derived_constraints(chosen.drop_last(), registry);
        let (path, version) = chosen.last();
        match split_at_first(path, "/"@) {
            Some((namespace, name)) => match at_version(registry.packages@, namespace, name, version) {
                Some(p) => package_requirements(before, path, p.manifest.dependencies@),
                None => before,
            },
            None => before,
        }
    }
}

/// The state after some rounds.
pub struct Resolution {
    pub chosen: Seq<(Seq<char>, semver::Version)>,
    pub constraints: Seq<(Seq<char>, Seq<(Seq<char>, semver::VersionReq)>)>,
    pub errors: Seq<Emission>,
    pub warnings: Seq<Emission>,
    pub converged: bool,
}

/// Resolution after `k` rounds: a round that selects the same versions
/// under the same requirements as the one before ends it.
pub open spec fn rounds(doc: MachineDoc, registry: LocalRegistry, k: nat) -> Resolution
    decreases k,
{
    if k == 0 {
        Resolution { chosen: seq![], constraints: seq![], errors: seq![], warnings: seq![], converged: false }
    } else {
        let before = rounds(doc, registry, (k - 1) as nat);
        if before.converged {
            before
        } else {
            let (pins, pin_paths) = pin_table(doc.packages@, doc.packages@.len());
            let roots = implicit_roots(doc);
            let paths = round_paths(pins, roots, before.constraints);
            let r = round_over(paths, paths.len(), pins, pin_paths, roots, before.constraints, registry);
            let derived = derived_constraints(r.next, registry);
            Resolution {
                chosen: r.next,
                constraints: derived,
                errors: r.errors,
                warnings: r.warnings,
                converged: r.next == before.chosen && derived == before.constraints,
            }
        }
    }
}

/// What resolution reports: the last round's warnings, then its errors, or
/// E1107 when it did not settle and found no error.
pub open spec fn resolution_findings(doc: MachineDoc, registry: LocalRegistry) -> Seq<Emission> {
    let end = rounds(doc, registry, MAX_ROUNDS as nat);
    end.warnings + if !end.converged && end.errors.len() == 0 {
        seq![
            plain_error(
                "E1107"@,
                "dependency resolution did not converge (cyclic version constraints?)"@,
            ),
        ]
    } else {
        end.errors
    }
}

/// `namespace/name@version` for each selected package.
pub open spec fn closure_texts(chosen: Seq<(Seq<char>, semver::Version)>) -> Seq<Seq<char>> {
    chosen.map_values(|e: (Seq<char>, semver::Version)| e.0 + "@"@ + version_display(e.1))
}


// ---------------------------------------------------------------------------
// Tables in code
// ---------------------------------------------------------------------------

/// The table with its keys as texts.
pub open spec fn keyed<V>(table: Seq<(String, V)>) -> Seq<(Seq<char>, V)> {
    table.map_values(|e: (String, V)| (e.0@, e.1))
}

/// A requirement as text and range.
pub open spec fn constraint_view(c: RequirementConstraint) -> (Seq<char>, semver::VersionReq) {
    (c.required_by@, c.requirement)
}

pub open spec fn constraint_views(list: Seq<RequirementConstraint>) -> Seq<(Seq<char>, semver::VersionReq)> {
    list.map_values(|c: RequirementConstraint| constraint_view(c))
}

/// A table of requirements as texts and ranges.
pub open spec fn constraint_table(table: Seq<(String, Vec<RequirementConstraint>)>) -> Seq<
    (Seq<char>, Seq<(Seq<char>, semver::VersionReq)>),
> {
    table.map_values(|e: (String, Vec<RequirementConstraint>)| (e.0@, constraint_views(e.1@)))
}

proof fn lemma_lookup_entry<V>(table: Seq<(String, V)>, key: Seq<char>)
    ensures
        lookup(keyed(table), key) == crate::resolver::targets::entry(table, key),
    decreases table.len(),
{
    if table.len() > 0 {
        assert(keyed(table).drop_first() =~= keyed(table.drop_first()));
        lemma_lookup_entry(table.drop_first(), key);
    }
}

pub(crate) fn get<'a, V>(table: &'a Vec<(String, V)>, key: &str) -> (found: Option<&'a V>)
    ensures
        match found {
            Some(v) => lookup(keyed(table@), key@) == Some(*v),
            None => lookup(keyed(table@), key@) is None,
        },
{
    proof {
        lemma_lookup_entry(table@, key@);
    }
    crate::resolver::targets::find_entry(table, key)
}

pub(crate) fn put<V>(table: &mut Vec<(String, V)>, key: String, value: V)
    ensures
        keyed(final(table)@) == put_sorted(keyed(old(table)@), key@, value),
{
    let ghost s = keyed(table@);
    let ghost k = key@;
    let mut pos = table.len();
    assert(s.subrange(0, pos as int) =~= s);
    assert(s.subrange(pos as int, s.len() as int) =~= Seq::<(Seq<char>, V)>::empty());
    while pos > 0 && compare_text(table[pos - 1].0.as_str(), key.as_str()) > 0
        invariant
            keyed(table@) == s,
            k == key@,
            pos <= s.len(),
            put_sorted(s, k, value) == put_sorted(s.subrange(0, pos as int), k, value) + s.subrange(
                pos as int,
                s.len() as int,
            ),
        decreases pos,
    {
        proof {
            let prefix = s.subrange(0, pos as int);
            assert(prefix.drop_last() =~= s.subrange(0, pos - 1));
            assert(prefix.last() == s[pos - 1]);
            assert(s[pos - 1].0 == table@[pos - 1].0@);
            assert(put_sorted(s.subrange(0, pos - 1), k, value).push(s[pos - 1]) + s.subrange(
                pos as int,
                s.len() as int,
            ) =~= put_sorted(s.subrange(0, pos - 1), k, value) + s.subrange(pos - 1, s.len() as int));
        }
        pos = pos - 1;
    }
    let replace = pos > 0 && compare_text(table[pos - 1].0.as_str(), key.as_str()) == 0;
    proof {
        let prefix = s.subrange(0, pos as int);
        if pos > 0 {
            assert(prefix.last() == s[pos - 1]);
            assert(s[pos - 1].0 == table@[pos - 1].0@);
            assert(prefix.drop_last() =~= s.subrange(0, pos - 1));
        } else {
            assert(prefix.len() == 0);
            assert(put_sorted(prefix, k, value) =~= seq![(k, value)]);
        }
    }
    if replace {
        table.set(pos - 1, (key, value));
        proof {
            let prefix = s.subrange(0, pos as int);
            assert(put_sorted(prefix, k, value) == prefix.drop_last().push((k, value)));
            assert(keyed(table@) =~= prefix.drop_last().push((k, value)) + s.subrange(pos as int, s.len() as int));
        }
    } else {
        table.insert(pos, (key, value));
        proof {
            let prefix = s.subrange(0, pos as int);
            assert(put_sorted(prefix, k, value) =~= prefix.push((k, value)));
            assert(keyed(table@) =~= prefix.push((k, value)) + s.subrange(pos as int, s.len() as int));
        }
    }
}

pub(crate) fn add_name(set: &mut Vec<String>, x: &str)
    ensures
        crate::text::string_views(final(set)@) == add_sorted(crate::text::string_views(old(set)@), x@),
{
    let ghost s = crate::text::string_views(set@);
    let mut pos = set.len();
    assert(s.subrange(0, pos as int) =~= s);
    assert(s.subrange(pos as int, s.len() as int) =~= Seq::<Seq<char>>::empty());
    while pos > 0 && compare_text(set[pos - 1].as_str(), x) > 0
        invariant
            crate::text::string_views(set@) == s,
            pos <= s.len(),
            add_sorted(s, x@) == add_sorted(s.subrange(0, pos as int), x@) + s.subrange(pos as int, s.len() as int),
        decreases pos,
    {
        proof {
            let prefix = s.subrange(0, pos as int);
            assert(prefix.drop_last() =~= s.subrange(0, pos - 1));
            assert(prefix.last() == s[pos - 1]);
            assert(s[pos - 1] == set@[pos - 1]@);
            assert(add_sorted(s.subrange(0, pos - 1), x@).push(s[pos - 1]) + s.subrange(pos as int, s.len() as int)
                =~= add_sorted(s.subrange(0, pos - 1), x@) + s.subrange(pos - 1, s.len() as int));
        }
        pos = pos - 1;
    }
    let present = pos > 0 && compare_text(set[pos - 1].as_str(), x) == 0;
    proof {
        let prefix = s.subrange(0, pos as int);
        if pos > 0 {
            assert(prefix.last() == s[pos - 1]);
            assert(s[pos - 1] == set@[pos - 1]@);
        } else {
            assert(prefix.len() == 0);
            assert(add_sorted(prefix, x@) =~= seq![x@]);
        }
        assert(prefix + s.subrange(pos as int, s.len() as int) =~= s);
    }
    if !present {
        set.insert(pos, x.to_owned());
        proof {
            let prefix = s.subrange(0, pos as int);
            assert(add_sorted(prefix, x@) =~= prefix.push(x@));
            assert(crate::text::string_views(set@) =~= prefix.push(x@) + s.subrange(pos as int, s.len() as int));
        }
    }
}


/// A table of texts as texts.
pub open spec fn text_values(table: Seq<(Seq<char>, String)>) -> Seq<(Seq<char>, Seq<char>)> {
    table.map_values(|e: (Seq<char>, String)| (e.0, e.1@))
}

pub(crate) proof fn lemma_put_text_values(table: Seq<(Seq<char>, String)>, key: Seq<char>, value: String)
    ensures
        text_values(put_sorted(table, key, value)) == put_sorted(text_values(table), key, value@),
    decreases table.len(),
{
    if table.len() == 0 {
        assert(text_values(seq![(key, value)]) =~= seq![(key, value@)]);
    } else {
        let rest = table.drop_last();
        assert(text_values(table).drop_last() =~= text_values(rest));
        assert(text_values(table).last() == (table.last().0, table.last().1@));
        if text_order(table.last().0, key) < 0 {
            assert(text_values(table.push((key, value))) =~= text_values(table).push((key, value@)));
        } else if text_order(table.last().0, key) == 0 {
            assert(text_values(rest.push((key, value))) =~= text_values(rest).push((key, value@)));
        } else {
            lemma_put_text_values(rest, key, value);
            assert(text_values(put_sorted(rest, key, value).push(table.last())) =~= text_values(
                put_sorted(rest, key, value),
            ).push((table.last().0, table.last().1@)));
        }
    }
}

fn pins_of(doc: &MachineDoc) -> (tables: (Vec<(String, semver::Version)>, Vec<(String, String)>))
    ensures
        keyed(tables.0@) == pin_table(doc.packages@, doc.packages@.len()).0,
        text_values(keyed(tables.1@)) == pin_table(doc.packages@, doc.packages@.len()).1,
{
    let mut pins: Vec<(String, semver::Version)> = Vec::new();
    let mut pin_paths: Vec<(String, String)> = Vec::new();
    let mut i: usize = 0;
    while i < doc.packages.len()
        invariant
            i <= doc.packages@.len(),
            keyed(pins@) == pin_table(doc.packages@, i as nat).0,
            text_values(keyed(pin_paths@)) == pin_table(doc.packages@, i as nat).1,
        decreases doc.packages@.len() - i,
    {
        match PackageRef::parse(doc.packages[i].as_str()) {
            Ok(reference) => {
                let mut path = reference.namespace.clone();
                crate::text::push_str(&mut path, "/");
                crate::text::push_str(&mut path, reference.name.as_str());
                let mut at = "packages[".to_owned();
                crate::text::push_decimal(&mut at, i as u64);
                crate::text::push_str(&mut at, "]");
                let key = path.clone();
                proof {
                    lemma_put_text_values(keyed(pin_paths@), key@, at);
                }
                put(&mut pins, path, reference.version);
                put(&mut pin_paths, key, at);
            },
            Err(_) => {},
        }
        i = i + 1;
    }
    (pins, pin_paths)
}

fn roots_of(doc: &MachineDoc) -> (roots: Vec<String>)
    ensures
        crate::text::string_views(roots@) == implicit_roots(*doc),
{
    let mut roots: Vec<String> = Vec::new();
    let mut i: usize = 0;
    while i < doc.controllers.len()
        invariant
            i <= doc.controllers@.len(),
            crate::text::string_views(roots@) == board_roots(doc.controllers@, i as nat),
        decreases doc.controllers@.len() - i,
    {
        let board = doc.controllers[i].1.board.as_str();
        if crate::text::split_once(board, "/").is_some() {
            add_name(&mut roots, board);
        }
        i = i + 1;
    }
    if crate::text::split_once(doc.safety.profile.as_str(), "/").is_some() {
        add_name(&mut roots, doc.safety.profile.as_str());
    }
    roots
}

fn add_keys<V>(set: &mut Vec<String>, table: &Vec<(String, V)>)
    ensures
        crate::text::string_views(final(set)@) == add_all(crate::text::string_views(old(set)@), table_keys(keyed(table@))),
{
    let ghost start = crate::text::string_views(set@);
    let ghost ks = table_keys(keyed(table@));
    let mut i: usize = 0;
    while i < table.len()
        invariant
            i <= table@.len(),
            ks == table_keys(keyed(table@)),
            crate::text::string_views(set@) == add_all(start, ks.subrange(0, i as int)),
        decreases table@.len() - i,
    {
        add_name(set, table[i].0.as_str());
        proof {
            let next = ks.subrange(0, i + 1);
            assert(next.drop_last() =~= ks.subrange(0, i as int));
            assert(next.last() == table@[i as int].0@);
        }
        i = i + 1;
    }
    assert(ks.subrange(0, table@.len() as int) =~= ks);
}

fn add_names(set: &mut Vec<String>, names: &Vec<String>)
    ensures
        crate::text::string_views(final(set)@) == add_all(crate::text::string_views(old(set)@), crate::text::string_views(names@)),
{
    let ghost start = crate::text::string_views(set@);
    let ghost ns = crate::text::string_views(names@);
    let mut i: usize = 0;
    while i < names.len()
        invariant
            i <= names@.len(),
            ns == crate::text::string_views(names@),
            crate::text::string_views(set@) == add_all(start, ns.subrange(0, i as int)),
        decreases names@.len() - i,
    {
        add_name(set, names[i].as_str());
        proof {
            let next = ns.subrange(0, i + 1);
            assert(next.drop_last() =~= ns.subrange(0, i as int));
            assert(next.last() == names@[i as int]@);
        }
        i = i + 1;
    }
    assert(ns.subrange(0, names@.len() as int) =~= ns);
}

fn paths_of(
    pins: &Vec<(String, semver::Version)>,
    roots: &Vec<String>,
    constraints: &Vec<(String, Vec<RequirementConstraint>)>,
) -> (paths: Vec<String>)
    ensures
        crate::text::string_views(paths@) == round_paths(
            keyed(pins@),
            crate::text::string_views(roots@),
            constraint_table(constraints@),
        ),
{
    let mut paths: Vec<String> = Vec::new();
    assert(crate::text::string_views(paths@) =~= Seq::<Seq<char>>::empty());
    add_keys(&mut paths, pins);
    add_names(&mut paths, roots);
    add_keys(&mut paths, constraints);
    assert(table_keys(keyed(constraints@)) =~= table_keys(constraint_table(constraints@)));
    paths
}


pub(crate) proof fn lemma_lookup_texts(table: Seq<(String, String)>, key: Seq<char>)
    ensures
        lookup(text_values(keyed(table)), key) == match lookup(keyed(table), key) {
            Some(v) => Some(v@),
            None => None::<Seq<char>>,
        },
    decreases table.len(),
{
    if table.len() > 0 {
        assert(text_values(keyed(table)).drop_first() =~= text_values(keyed(table.drop_first())));
        assert(keyed(table).drop_first() =~= keyed(table.drop_first()));
        lemma_lookup_texts(table.drop_first(), key);
    }
}

proof fn lemma_lookup_constraints(table: Seq<(String, Vec<RequirementConstraint>)>, key: Seq<char>)
    ensures
        lookup(constraint_table(table), key) == match lookup(keyed(table), key) {
            Some(v) => Some(constraint_views(v@)),
            None => None::<Seq<(Seq<char>, semver::VersionReq)>>,
        },
    decreases table.len(),
{
    if table.len() > 0 {
        assert(constraint_table(table).drop_first() =~= constraint_table(table.drop_first()));
        assert(keyed(table).drop_first() =~= keyed(table.drop_first()));
        lemma_lookup_constraints(table.drop_first(), key);
    }
}

fn versions_text(versions: &Vec<&semver::Version>) -> (text: String)
    ensures
        text@ == joined(version_texts(crate::package::pointed(versions@)), ", "@),
{
    let mut texts: Vec<String> = Vec::new();
    let ghost all = version_texts(crate::package::pointed(versions@));
    let mut i: usize = 0;
    while i < versions.len()
        invariant
            i <= versions@.len(),
            all == version_texts(crate::package::pointed(versions@)),
            crate::text::string_views(texts@) == all.subrange(0, i as int),
        decreases versions@.len() - i,
    {
        let t = crate::package::version_text(versions[i]);
        let ghost before = texts@;
        texts.push(t);
        proof {
            assert(all[i as int] == version_display(*versions@[i as int]));
            assert(crate::text::string_views(texts@) =~= crate::text::string_views(before).push(t@));
            assert(all.subrange(0, i + 1) =~= all.subrange(0, i as int).push(all[i as int]));
        }
        i = i + 1;
    }
    assert(all.subrange(0, versions@.len() as int) =~= all);
    crate::text::join(&texts, ", ")
}

fn requirements_text(requirements: &Vec<RequirementConstraint>) -> (text: String)
    ensures
        text@ == joined(requirement_texts(constraint_views(requirements@)), " and "@),
{
    let mut texts: Vec<String> = Vec::new();
    let ghost all = requirement_texts(constraint_views(requirements@));
    let mut i: usize = 0;
    while i < requirements.len()
        invariant
            i <= requirements@.len(),
            all == requirement_texts(constraint_views(requirements@)),
            crate::text::string_views(texts@) == all.subrange(0, i as int),
        decreases requirements@.len() - i,
    {
        let c = &requirements[i];
        let mut t = "'".to_owned();
        crate::text::push_str(&mut t, c.required_by.as_str());
        crate::text::push_str(&mut t, "' (");
        let r = crate::package::requirement_text(&c.requirement);
        crate::text::push_str(&mut t, r.as_str());
        crate::text::push_str(&mut t, ")");
        let ghost before = texts@;
        texts.push(t);
        proof {
            assert(constraint_views(requirements@)[i as int] == constraint_view(requirements@[i as int]));
            assert(all[i as int] == "'"@ + c.required_by@ + "' ("@ + requirement_display(c.requirement) + ")"@);
            assert(crate::text::string_views(texts@) =~= crate::text::string_views(before).push(t@));
            assert(all.subrange(0, i + 1) =~= all.subrange(0, i as int).push(all[i as int]));
        }
        i = i + 1;
    }
    assert(all.subrange(0, requirements@.len() as int) =~= all);
    crate::text::join(&texts, " and ")
}

fn accepts_all(requirements: &Vec<RequirementConstraint>, version: &semver::Version) -> (ok: bool)
    ensures
        ok == accepted(constraint_views(requirements@), *version),
{
    let ghost views = constraint_views(requirements@);
    let mut i: usize = 0;
    while i < requirements.len()
        invariant
            i <= requirements@.len(),
            views == constraint_views(requirements@),
            forall|j: int| 0 <= j < i ==> requirement_matches(#[trigger] views[j].1, *version),
        decreases requirements@.len() - i,
    {
        assert(views[i as int] == constraint_view(requirements@[i as int]));
        if !crate::package::requirement_accepts(&requirements[i].requirement, version) {
            assert(!requirement_matches(views[i as int].1, *version));
            assert(!accepted(views, *version));
            return false;
        }
        i = i + 1;
    }
    true
}

fn contains_version(list: &Vec<&semver::Version>, version: &semver::Version) -> (found: bool)
    ensures
        found == crate::package::pointed(list@).contains(*version),
{
    let ghost views = crate::package::pointed(list@);
    let mut i: usize = 0;
    while i < list.len()
        invariant
            i <= list@.len(),
            views == crate::package::pointed(list@),
            forall|j: int| 0 <= j < i ==> views[j] != *version,
        decreases list@.len() - i,
    {
        if crate::package::versions_equal(list[i], version) {
            assert(views[i as int] == *version);
            return true;
        }
        i = i + 1;
    }
    false
}


/// The requirements a table holds for `path`, or none.
pub open spec fn requirements_for(
    constraints: Seq<(Seq<char>, Seq<(Seq<char>, semver::VersionReq)>)>,
    path: Seq<char>,
) -> Seq<(Seq<char>, semver::VersionReq)> {
    match lookup(constraints, path) {
        Some(r) => r,
        None => seq![],
    }
}

fn step(
    next: &mut Vec<(String, semver::Version)>,
    errors: &mut Vec<Diagnostic>,
    warnings: &mut Vec<Diagnostic>,
    path: &str,
    pins: &Vec<(String, semver::Version)>,
    pin_paths: &Vec<(String, String)>,
    roots: &Vec<String>,
    constraints: &Vec<(String, Vec<RequirementConstraint>)>,
    registry: &LocalRegistry,
    Ghost(st): Ghost<Round>,
)
    requires
        keyed(old(next)@) == st.next,
        emitted(old(errors)@, st.errors),
        emitted(old(warnings)@, st.warnings),
        chosen_sorted(*registry, st.next),
    ensures
        chosen_sorted(*registry, keyed(final(next)@)),
        keyed(final(next)@) == path_step(
            st,
            path@,
            keyed(pins@),
            text_values(keyed(pin_paths@)),
            crate::text::string_views(roots@),
            constraint_table(constraints@),
            *registry,
        ).next,
        emitted(
            final(errors)@,
            path_step(
                st,
                path@,
                keyed(pins@),
                text_values(keyed(pin_paths@)),
                crate::text::string_views(roots@),
                constraint_table(constraints@),
                *registry,
            ).errors,
        ),
        emitted(
            final(warnings)@,
            path_step(
                st,
                path@,
                keyed(pins@),
                text_values(keyed(pin_paths@)),
                crate::text::string_views(roots@),
                constraint_table(constraints@),
                *registry,
            ).warnings,
        ),
{
    let (namespace, name) = match crate::text::split_once(path, "/") {
        Some(parts) => parts,
        None => return,
    };
    let available = registry.versions(namespace, name);
    let ghost versions = crate::package::pointed(available@);
    assert(versions == available_versions(*registry, path@));
    let empty: Vec<RequirementConstraint> = Vec::new();
    proof {
        lemma_lookup_constraints(constraints@, path@);
        lemma_lookup_texts(pin_paths@, path@);
    }
    let requirements: &Vec<RequirementConstraint> = match get(constraints, path) {
        Some(r) => r,
        None => {
            assert(constraint_views(empty@) =~= Seq::<(Seq<char>, semver::VersionReq)>::empty());
            &empty
        },
    };
    let ghost reqs = constraint_views(requirements@);
    assert(reqs == requirements_for(constraint_table(constraints@), path@));
    let at: String = match get(pin_paths, path) {
        Some(p) => p.clone(),
        None => "packages".to_owned(),
    };
    if available.len() == 0 {
        let mut message = "package '".to_owned();
        crate::text::push_str(&mut message, path);
        crate::text::push_str(&mut message, "' is not in the registry");
        emit_after(errors, Ghost(st.errors), Severity::Error, "E1100", message, Some("packages".to_owned()));
        return;
    }
    match get(pins, path) {
        Some(pin) => {
            if !contains_version(&available, pin) {
                let mut message = "package '".to_owned();
                crate::text::push_str(&mut message, path);
                crate::text::push_str(&mut message, "' pinned at ");
                let pin_text = crate::package::version_text(pin);
                crate::text::push_str(&mut message, pin_text.as_str());
                crate::text::push_str(&mut message, " but the registry has ");
                let listed = versions_text(&available);
                crate::text::push_str(&mut message, listed.as_str());
                emit_after(errors, Ghost(st.errors), Severity::Error, "E1101", message, Some(at));
                return;
            }
            let mut unmet: usize = 0;
            let mut j: usize = 0;
            while j < requirements.len()
                invariant
                    j <= requirements@.len(),
                    reqs == constraint_views(requirements@),
                    unmet <= j,
                    emitted(errors@, st.errors + unmet_findings(path@, *pin, at@, reqs.subrange(0, j as int))),
                    unmet == 0 <==> unmet_findings(path@, *pin, at@, reqs.subrange(0, j as int)).len() == 0,
                decreases requirements@.len() - j,
            {
                let c = &requirements[j];
                let ghost prior = unmet_findings(path@, *pin, at@, reqs.subrange(0, j as int));
                proof {
                    let more = reqs.subrange(0, j + 1);
                    assert(more.drop_last() =~= reqs.subrange(0, j as int));
                    assert(more.last() == constraint_view(*c));
                }
                if !crate::package::requirement_accepts(&c.requirement, pin) {
                    let mut message = "'".to_owned();
                    crate::text::push_str(&mut message, c.required_by.as_str());
                    crate::text::push_str(&mut message, "' requires '");
                    crate::text::push_str(&mut message, path);
                    crate::text::push_str(&mut message, "' ");
                    let r = crate::package::requirement_text(&c.requirement);
                    crate::text::push_str(&mut message, r.as_str());
                    crate::text::push_str(&mut message, " but the machine pins ");
                    let pin_text = crate::package::version_text(pin);
                    crate::text::push_str(&mut message, pin_text.as_str());
                    emit_after(errors, Ghost(st.errors + prior), Severity::Error, "E1103", message, Some(at.clone()));
                    proof {
                        let e = error_at(
                            "E1103"@,
                            "'"@ + c.required_by@ + "' requires '"@ + path@ + "' "@ + requirement_display(
                                c.requirement,
                            ) + " but the machine pins "@ + version_display(*pin),
                            at@,
                        );
                        assert((st.errors + prior).push(e) =~= st.errors + prior.push(e));
                        assert(unmet_findings(path@, *pin, at@, reqs.subrange(0, j + 1)) =~= prior.push(e));
                    }
                    unmet = unmet + 1;
                } else {
                    assert(unmet_findings(path@, *pin, at@, reqs.subrange(0, j + 1)) =~= prior);
                }
                j = j + 1;
            }
            assert(reqs.subrange(0, requirements@.len() as int) =~= reqs);
            if unmet == 0 {
                next.push((path.to_owned(), pin.clone()));
                assert(keyed(next@) =~= st.next.push((path@, *pin)));
            }
        },
        None => {
            let mut ok: Vec<&semver::Version> = Vec::new();
            let mut j: usize = 0;
            while j < available.len()
                invariant
                    j <= available@.len(),
                    versions == crate::package::pointed(available@),
                    reqs == constraint_views(requirements@),
                    crate::package::pointed(ok@) == satisfying(versions.subrange(0, j as int), reqs),
                decreases available@.len() - j,
            {
                let v = available[j];
                proof {
                    let more = versions.subrange(0, j + 1);
                    assert(more.drop_last() =~= versions.subrange(0, j as int));
                    assert(more.last() == *v);
                }
                if accepts_all(requirements, v) {
                    let ghost before = ok@;
                    ok.push(v);
                    assert(crate::package::pointed(ok@) =~= crate::package::pointed(before).push(*v));
                }
                j = j + 1;
            }
            assert(versions.subrange(0, available@.len() as int) =~= versions);
            if ok.len() == 0 {
                let mut message = "no version of '".to_owned();
                crate::text::push_str(&mut message, path);
                crate::text::push_str(&mut message, "' satisfies ");
                let wanted = requirements_text(requirements);
                crate::text::push_str(&mut message, wanted.as_str());
                crate::text::push_str(&mut message, "; available: ");
                let listed = versions_text(&available);
                crate::text::push_str(&mut message, listed.as_str());
                emit_after(errors, Ghost(st.errors), Severity::Error, "E1104", message, None);
                return;
            }
            let best = ok[ok.len() - 1];
            assert(*best == satisfying(versions, reqs).last());
            if requirements.len() == 0 && contains_name(roots, path) {
                let mut message = "'".to_owned();
                crate::text::push_str(&mut message, path);
                crate::text::push_str(&mut message, "' is not version-pinned; selected ");
                let chosen_text = crate::package::version_text(best);
                crate::text::push_str(&mut message, chosen_text.as_str());
                crate::text::push_str(&mut message, " (highest available)");
                emit_after(warnings, Ghost(st.warnings), Severity::Warning, "E1106", message, None);
            }
            next.push((path.to_owned(), best.clone()));
            assert(keyed(next@) =~= st.next.push((path@, *best)));
        },
    }
}

fn contains_name(list: &Vec<String>, name: &str) -> (found: bool)
    ensures
        found == crate::text::string_views(list@).contains(name@),
{
    let ghost views = crate::text::string_views(list@);
    let mut i: usize = 0;
    while i < list.len()
        invariant
            i <= list@.len(),
            views == crate::text::string_views(list@),
            forall|j: int| 0 <= j < i ==> views[j] != name@,
        decreases list@.len() - i,
    {
        if crate::text::str_eq(list[i].as_str(), name) {
            assert(views[i as int] == name@);
            return true;
        }
        i = i + 1;
    }
    false
}


proof fn lemma_put_constraint_views(
    table: Seq<(Seq<char>, Vec<RequirementConstraint>)>,
    key: Seq<char>,
    value: Vec<RequirementConstraint>,
)
    ensures
        views_of_table(put_sorted(table, key, value)) == put_sorted(views_of_table(table), key, constraint_views(value@)),
    decreases table.len(),
{
    if table.len() == 0 {
        assert(views_of_table(seq![(key, value)]) =~= seq![(key, constraint_views(value@))]);
    } else {
        let rest = table.drop_last();
        assert(views_of_table(table).drop_last() =~= views_of_table(rest));
        assert(views_of_table(table).last() == (table.last().0, constraint_views(table.last().1@)));
        if text_order(table.last().0, key) < 0 {
            assert(views_of_table(table.push((key, value))) =~= views_of_table(table).push((key, constraint_views(value@))));
        } else if text_order(table.last().0, key) == 0 {
            assert(views_of_table(rest.push((key, value))) =~= views_of_table(rest).push((key, constraint_views(value@))));
        } else {
            lemma_put_constraint_views(rest, key, value);
            assert(views_of_table(put_sorted(rest, key, value).push(table.last())) =~= views_of_table(
                put_sorted(rest, key, value),
            ).push((table.last().0, constraint_views(table.last().1@))));
        }
    }
}

/// A keyed table of requirement lists as texts and ranges.
pub open spec fn views_of_table(table: Seq<(Seq<char>, Vec<RequirementConstraint>)>) -> Seq<
    (Seq<char>, Seq<(Seq<char>, semver::VersionReq)>),
> {
    table.map_values(|e: (Seq<char>, Vec<RequirementConstraint>)| (e.0, constraint_views(e.1@)))
}

fn copy_constraints(list: &Vec<RequirementConstraint>) -> (copy: Vec<RequirementConstraint>)
    ensures
        constraint_views(copy@) == constraint_views(list@),
{
    let mut copy: Vec<RequirementConstraint> = Vec::new();
    let mut i: usize = 0;
    while i < list.len()
        invariant
            i <= list@.len(),
            constraint_views(copy@) == constraint_views(list@.subrange(0, i as int)),
        decreases list@.len() - i,
    {
        let c = RequirementConstraint {
            required_by: list[i].required_by.clone(),
            requirement: list[i].requirement.clone(),
        };
        let ghost before = copy@;
        copy.push(c);
        assert(constraint_views(copy@) =~= constraint_views(before).push(constraint_view(list@[i as int])));
        assert(constraint_views(list@.subrange(0, i + 1)) =~= constraint_views(list@.subrange(0, i as int)).push(
            constraint_view(list@[i as int]),
        ));
        i = i + 1;
    }
    assert(list@.subrange(0, list@.len() as int) =~= list@);
    copy
}

fn push_constraint(table: &mut Vec<(String, Vec<RequirementConstraint>)>, path: &str, c: RequirementConstraint)
    ensures
        constraint_table(final(table)@) == add_constraint(constraint_table(old(table)@), path@, constraint_view(c)),
{
    proof {
        lemma_lookup_constraints(table@, path@);
    }
    let mut list: Vec<RequirementConstraint> = match get(table, path) {
        Some(existing) => copy_constraints(existing),
        None => Vec::new(),
    };
    let ghost prior = constraint_views(list@);
    list.push(c);
    assert(constraint_views(list@) =~= prior.push(constraint_view(c)));
    assert(constraint_table(table@) =~= views_of_table(keyed(table@)));
    proof {
        lemma_put_constraint_views(keyed(table@), path@, list);
    }
    put(table, path.to_owned(), list);
    assert(constraint_table(table@) =~= views_of_table(keyed(table@)));
    proof {
        if lookup(constraint_table(old(table)@), path@) is None {
            assert(prior =~= Seq::<(Seq<char>, semver::VersionReq)>::empty());
            assert(prior.push(constraint_view(c)) =~= seq![constraint_view(c)]);
        }
    }
}

fn derive(next: &Vec<(String, semver::Version)>, registry: &LocalRegistry) -> (table: Vec<
    (String, Vec<RequirementConstraint>),
>)
    ensures
        constraint_table(table@) == derived_constraints(keyed(next@), *registry),
{
    let mut table: Vec<(String, Vec<RequirementConstraint>)> = Vec::new();
    assert(constraint_table(table@) =~= Seq::<(Seq<char>, Seq<(Seq<char>, semver::VersionReq)>)>::empty());
    let ghost chosen = keyed(next@);
    let mut i: usize = 0;
    while i < next.len()
        invariant
            i <= next@.len(),
            chosen == keyed(next@),
            constraint_table(table@) == derived_constraints(chosen.subrange(0, i as int), *registry),
        decreases next@.len() - i,
    {
        let path = next[i].0.as_str();
        let version = &next[i].1;
        let ghost prior = derived_constraints(chosen.subrange(0, i as int), *registry);
        proof {
            let more = chosen.subrange(0, i + 1);
            assert(more.drop_last() =~= chosen.subrange(0, i as int));
            assert(more.last() == (path@, *version));
        }
        match crate::text::split_once(path, "/") {
            Some((namespace, name)) => match registry.find_version(namespace, name, version) {
                Some(p) => {
                    let deps = &p.manifest.dependencies;
                    let mut j: usize = 0;
                    while j < deps.len()
                        invariant
                            j <= deps@.len(),
                            constraint_table(table@) == package_requirements(prior, path@, deps@.subrange(0, j as int)),
                        decreases deps@.len() - j,
                    {
                        proof {
                            let more = deps@.subrange(0, j + 1);
                            assert(more.drop_last() =~= deps@.subrange(0, j as int));
                            assert(more.last() == deps@[j as int]);
                        }
                        match deps[j].1.requirement() {
                            Ok(r) => {
                                let c = RequirementConstraint { required_by: path.to_owned(), requirement: r };
                                push_constraint(&mut table, deps[j].0.as_str(), c);
                            },
                            Err(_) => {},
                        }
                        j = j + 1;
                    }
                    assert(deps@.subrange(0, deps@.len() as int) =~= deps@);
                },
                None => {},
            },
            None => {},
        }
        i = i + 1;
    }
    assert(chosen.subrange(0, next@.len() as int) =~= chosen);
    table
}

fn same_choice(a: &Vec<(String, semver::Version)>, b: &Vec<(String, semver::Version)>) -> (same: bool)
    ensures
        same == (keyed(a@) == keyed(b@)),
{
    if a.len() != b.len() {
        assert(keyed(a@).len() != keyed(b@).len());
        return false;
    }
    let mut i: usize = 0;
    while i < a.len()
        invariant
            i <= a@.len(),
            a@.len() == b@.len(),
            forall|j: int| 0 <= j < i ==> (#[trigger] keyed(a@)[j]) == keyed(b@)[j],
        decreases a@.len() - i,
    {
        if !crate::text::str_eq(a[i].0.as_str(), b[i].0.as_str()) || !crate::package::versions_equal(&a[i].1, &b[i].1) {
            assert(keyed(a@)[i as int] != keyed(b@)[i as int]);
            return false;
        }
        assert(keyed(a@)[i as int] == keyed(b@)[i as int]);
        i = i + 1;
    }
    assert(keyed(a@) =~= keyed(b@));
    true
}

fn same_list(a: &Vec<RequirementConstraint>, b: &Vec<RequirementConstraint>) -> (same: bool)
    ensures
        same == (constraint_views(a@) == constraint_views(b@)),
{
    if a.len() != b.len() {
        assert(constraint_views(a@).len() != constraint_views(b@).len());
        return false;
    }
    let mut i: usize = 0;
    while i < a.len()
        invariant
            i <= a@.len(),
            a@.len() == b@.len(),
            forall|j: int| 0 <= j < i ==> (#[trigger] constraint_views(a@)[j]) == constraint_views(b@)[j],
        decreases a@.len() - i,
    {
        if !crate::text::str_eq(a[i].required_by.as_str(), b[i].required_by.as_str())
            || !crate::package::requirements_equal(&a[i].requirement, &b[i].requirement) {
            assert(constraint_views(a@)[i as int] != constraint_views(b@)[i as int]);
            return false;
        }
        assert(constraint_views(a@)[i as int] == constraint_views(b@)[i as int]);
        i = i + 1;
    }
    assert(constraint_views(a@) =~= constraint_views(b@));
    true
}

fn same_constraints(
    a: &Vec<(String, Vec<RequirementConstraint>)>,
    b: &Vec<(String, Vec<RequirementConstraint>)>,
) -> (same: bool)
    ensures
        same == (constraint_table(a@) == constraint_table(b@)),
{
    if a.len() != b.len() {
        assert(constraint_table(a@).len() != constraint_table(b@).len());
        return false;
    }
    let mut i: usize = 0;
    while i < a.len()
        invariant
            i <= a@.len(),
            a@.len() == b@.len(),
            forall|j: int| 0 <= j < i ==> (#[trigger] constraint_table(a@)[j]) == constraint_table(b@)[j],
        decreases a@.len() - i,
    {
        if !crate::text::str_eq(a[i].0.as_str(), b[i].0.as_str()) || !same_list(&a[i].1, &b[i].1) {
            assert(constraint_table(a@)[i as int] != constraint_table(b@)[i as int]);
            return false;
        }
        assert(constraint_table(a@)[i as int] == constraint_table(b@)[i as int]);
        i = i + 1;
    }
    assert(constraint_table(a@) =~= constraint_table(b@));
    true
}


/// The round that follows `before`.
pub open spec fn next_round(doc: MachineDoc, registry: LocalRegistry, before: Resolution) -> Round {
    let (pins, pin_paths) = pin_table(doc.packages@, doc.packages@.len());
    let roots = implicit_roots(doc);
    let paths = round_paths(pins, roots, before.constraints);
    round_over(paths, paths.len(), pins, pin_paths, roots, before.constraints, registry)
}

proof fn lemma_settled(doc: MachineDoc, registry: LocalRegistry, k: nat, m: nat)
    requires
        k <= m,
        rounds(doc, registry, k).converged,
    ensures
        rounds(doc, registry, m) == rounds(doc, registry, k),
    decreases m - k,
{
    if k < m {
        lemma_settled(doc, registry, k, (m - 1) as nat);
    }
}

/// Every emission is one made diagnostic.
pub open spec fn made_only(items: Seq<Emission>) -> bool {
    forall|i: int| 0 <= i < items.len() ==> (#[trigger] items[i]) is Made
}

proof fn lemma_made_count(out: Seq<Diagnostic>, items: Seq<Emission>)
    requires
        emitted(out, items),
        made_only(items),
    ensures
        out.len() == items.len(),
    decreases items.len(),
{
    if items.len() > 0 {
        assert(items.last() is Made);
        assert(made_only(items.drop_last())) by {
            assert forall|i: int| 0 <= i < items.drop_last().len() implies (#[trigger] items.drop_last()[i]) is Made by {
                assert(items.drop_last()[i] == items[i]);
            }
        }
        lemma_made_count(out.drop_last(), items.drop_last());
    }
}

proof fn lemma_unmet_made(path: Seq<char>, pin: semver::Version, at: Seq<char>, requirements: Seq<(Seq<char>, semver::VersionReq)>)
    ensures
        made_only(unmet_findings(path, pin, at, requirements)),
    decreases requirements.len(),
{
    if requirements.len() > 0 {
        lemma_unmet_made(path, pin, at, requirements.drop_last());
    }
}

proof fn lemma_round_made(
    paths: Seq<Seq<char>>,
    k: nat,
    pins: Seq<(Seq<char>, semver::Version)>,
    pin_paths: Seq<(Seq<char>, Seq<char>)>,
    roots: Seq<Seq<char>>,
    constraints: Seq<(Seq<char>, Seq<(Seq<char>, semver::VersionReq)>)>,
    registry: LocalRegistry,
)
    ensures
        made_only(round_over(paths, k, pins, pin_paths, roots, constraints, registry).errors),
    decreases k,
{
    if k > 0 && k <= paths.len() {
        lemma_round_made(paths, (k - 1) as nat, pins, pin_paths, roots, constraints, registry);
        let st = round_over(paths, (k - 1) as nat, pins, pin_paths, roots, constraints, registry);
        let path = paths[k - 1];
        match split_at_first(path, "/"@) {
            Some((namespace, name)) => {
                let requirements = match lookup(constraints, path) {
                    Some(r) => r,
                    None => seq![],
                };
                let at = match lookup(pin_paths, path) {
                    Some(p) => p,
                    None => "packages"@,
                };
                match lookup(pins, path) {
                    Some(pin) => {
                        lemma_unmet_made(path, pin, at, requirements);
                    },
                    None => {},
                }
            },
            None => {},
        }
    }
}

proof fn lemma_rounds_made(doc: MachineDoc, registry: LocalRegistry, k: nat)
    ensures
        made_only(rounds(doc, registry, k).errors),
    decreases k,
{
    if k > 0 {
        lemma_rounds_made(doc, registry, (k - 1) as nat);
        let before = rounds(doc, registry, (k - 1) as nat);
        if !before.converged {
            let (pins, pin_paths) = pin_table(doc.packages@, doc.packages@.len());
            let roots = implicit_roots(doc);
            let paths = round_paths(pins, roots, before.constraints);
            lemma_round_made(paths, paths.len(), pins, pin_paths, roots, before.constraints, registry);
        }
    }
}

fn run_round(
    doc: &MachineDoc,
    registry: &LocalRegistry,
    pins: &Vec<(String, semver::Version)>,
    pin_paths: &Vec<(String, String)>,
    roots: &Vec<String>,
    constraints: &Vec<(String, Vec<RequirementConstraint>)>,
) -> (result: (Vec<(String, semver::Version)>, Vec<Diagnostic>, Vec<Diagnostic>))
    requires
        keyed(pins@) == pin_table(doc.packages@, doc.packages@.len()).0,
        text_values(keyed(pin_paths@)) == pin_table(doc.packages@, doc.packages@.len()).1,
        crate::text::string_views(roots@) == implicit_roots(*doc),
    ensures
        chosen_sorted(*registry, keyed(result.0@)),
        ({
            let pt = pin_table(doc.packages@, doc.packages@.len());
            let ps = round_paths(pt.0, implicit_roots(*doc), constraint_table(constraints@));
            let r = round_over(ps, ps.len(), pt.0, pt.1, implicit_roots(*doc), constraint_table(constraints@), *registry);
            &&& keyed(result.0@) == r.next
            &&& emitted(result.1@, r.errors)
            &&& emitted(result.2@, r.warnings)
        }),
{
    let paths = paths_of(pins, roots, constraints);
    let ghost ps = crate::text::string_views(paths@);
    let ghost pt = pin_table(doc.packages@, doc.packages@.len());
    let mut next: Vec<(String, semver::Version)> = Vec::new();
    let mut errors: Vec<Diagnostic> = Vec::new();
    let mut warnings: Vec<Diagnostic> = Vec::new();
    assert(keyed(next@) =~= Seq::<(Seq<char>, semver::Version)>::empty());
    let mut i: usize = 0;
    while i < paths.len()
        invariant
            i <= paths@.len(),
            ps == crate::text::string_views(paths@),
            ps == round_paths(pt.0, implicit_roots(*doc), constraint_table(constraints@)),
            keyed(pins@) == pt.0,
            text_values(keyed(pin_paths@)) == pt.1,
            crate::text::string_views(roots@) == implicit_roots(*doc),
            keyed(next@) == round_over(ps, i as nat, pt.0, pt.1, implicit_roots(*doc), constraint_table(constraints@), *registry).next,
            emitted(errors@, round_over(ps, i as nat, pt.0, pt.1, implicit_roots(*doc), constraint_table(constraints@), *registry).errors),
            emitted(warnings@, round_over(ps, i as nat, pt.0, pt.1, implicit_roots(*doc), constraint_table(constraints@), *registry).warnings),
            chosen_sorted(*registry, keyed(next@)),
        decreases paths@.len() - i,
    {
        assert(ps[i as int] == paths@[i as int]@);
        step(
            &mut next,
            &mut errors,
            &mut warnings,
            paths[i].as_str(),
            pins,
            pin_paths,
            roots,
            constraints,
            registry,
            Ghost(round_over(ps, i as nat, pt.0, pt.1, implicit_roots(*doc), constraint_table(constraints@), *registry)),
        );
        i = i + 1;
    }
    (next, errors, warnings)
}

impl PackageSelection {
    /// Resolve the transitive closure of the machine's packages against the
    /// registry, appending the last round's warnings and errors. Once the
    /// rounds settle, every path the machine does not pin is selected at
    /// the highest registry version that meets every requirement on it.
    pub fn resolve(doc: &MachineDoc, registry: &LocalRegistry, diagnostics: &mut Vec<Diagnostic>) -> (selection:
        Self)
        ensures
            keyed(selection.chosen@) == rounds(*doc, *registry, MAX_ROUNDS as nat).chosen,
            crate::text::string_views(selection.closure_refs@) == closure_texts(
                rounds(*doc, *registry, MAX_ROUNDS as nat).chosen,
            ),
            final(diagnostics)@.subrange(0, old(diagnostics)@.len() as int) == old(diagnostics)@,
            emitted(
                final(diagnostics)@.subrange(old(diagnostics)@.len() as int, final(diagnostics)@.len() as int),
                resolution_findings(*doc, *registry),
            ),
            rounds(*doc, *registry, MAX_ROUNDS as nat).converged ==> highest_selected(
                rounds(*doc, *registry, MAX_ROUNDS as nat).chosen,
                rounds(*doc, *registry, MAX_ROUNDS as nat).constraints,
                pin_table(doc.packages@, doc.packages@.len()).0,
                *registry,
            ),
    {
        let (pins, pin_paths) = pins_of(doc);
        let roots = roots_of(doc);
        let mut chosen: Vec<(String, semver::Version)> = Vec::new();
        let mut constraints: Vec<(String, Vec<RequirementConstraint>)> = Vec::new();
        let mut errors: Vec<Diagnostic> = Vec::new();
        let mut warnings: Vec<Diagnostic> = Vec::new();
        let mut converged = false;
        assert(keyed(chosen@) =~= Seq::<(Seq<char>, semver::Version)>::empty());
        assert(constraint_table(constraints@) =~= Seq::<(Seq<char>, Seq<(Seq<char>, semver::VersionReq)>)>::empty());
        let mut round: usize = 0;
        while round < MAX_ROUNDS
            invariant_except_break
                round <= MAX_ROUNDS,
                !converged,
                keyed(pins@) == pin_table(doc.packages@, doc.packages@.len()).0,
                text_values(keyed(pin_paths@)) == pin_table(doc.packages@, doc.packages@.len()).1,
                crate::text::string_views(roots@) == implicit_roots(*doc),
                keyed(chosen@) == rounds(*doc, *registry, round as nat).chosen,
                constraint_table(constraints@) == rounds(*doc, *registry, round as nat).constraints,
                emitted(errors@, rounds(*doc, *registry, round as nat).errors),
                emitted(warnings@, rounds(*doc, *registry, round as nat).warnings),
                !rounds(*doc, *registry, round as nat).converged,
                chosen_sorted(*registry, keyed(chosen@)),
            ensures
                chosen_sorted(*registry, keyed(chosen@)),
                keyed(chosen@) == rounds(*doc, *registry, MAX_ROUNDS as nat).chosen,
                constraint_table(constraints@) == rounds(*doc, *registry, MAX_ROUNDS as nat).constraints,
                emitted(errors@, rounds(*doc, *registry, MAX_ROUNDS as nat).errors),
                emitted(warnings@, rounds(*doc, *registry, MAX_ROUNDS as nat).warnings),
                converged == rounds(*doc, *registry, MAX_ROUNDS as nat).converged,
            decreases MAX_ROUNDS - round,
        {
            let (next, round_errors, round_warnings) = run_round(doc, registry, &pins, &pin_paths, &roots, &constraints);
            let derived = derive(&next, registry);
            let stable = same_choice(&next, &chosen) && same_constraints(&derived, &constraints);
            chosen = next;
            constraints = derived;
            errors = round_errors;
            warnings = round_warnings;
            round = round + 1;
            if stable {
                converged = true;
                proof {
                    lemma_settled(*doc, *registry, round as nat, MAX_ROUNDS as nat);
                }
                break;
            }
        }
        proof {
            resolution_selects_the_highest_satisfying_versions(*doc, *registry, MAX_ROUNDS as nat);
        }
        let ghost end = rounds(*doc, *registry, MAX_ROUNDS as nat);
        let ghost before = diagnostics@;
        let ghost warned = warnings@;
        diagnostics.append(&mut warnings);
        let ghost after_warnings = diagnostics@;
        if !converged && errors.len() == 0 {
            emit_after(&mut errors, Ghost(end.errors), Severity::Error, "E1107",
                "dependency resolution did not converge (cyclic version constraints?)".to_owned(), None);
            proof {
                lemma_rounds_made(*doc, *registry, MAX_ROUNDS as nat);
                lemma_made_count(Seq::<Diagnostic>::empty(), end.errors);
            }
            assert(end.errors.len() == 0);
            assert(end.errors.push(plain_error(
                "E1107"@,
                "dependency resolution did not converge (cyclic version constraints?)"@,
            )) =~= seq![plain_error(
                "E1107"@,
                "dependency resolution did not converge (cyclic version constraints?)"@,
            )]);
        }
        let ghost tail = errors@;
        diagnostics.append(&mut errors);
        proof {
            crate::resolver::targets::lemma_emitted_concat(
                warned,
                end.warnings,
                tail,
                if !end.converged && end.errors.len() == 0 {
                    seq![plain_error(
                        "E1107"@,
                        "dependency resolution did not converge (cyclic version constraints?)"@,
                    )]
                } else {
                    end.errors
                },
            );
            assert(diagnostics@.subrange(0, before.len() as int) =~= before);
            assert(diagnostics@.subrange(before.len() as int, diagnostics@.len() as int) =~= warned + tail);
        }
        let mut closure_refs: Vec<String> = Vec::new();
        let mut i: usize = 0;
        while i < chosen.len()
            invariant
                i <= chosen@.len(),
                crate::text::string_views(closure_refs@) == closure_texts(keyed(chosen@).subrange(0, i as int)),
            decreases chosen@.len() - i,
        {
            let mut text = chosen[i].0.clone();
            crate::text::push_str(&mut text, "@");
            let v = crate::package::version_text(&chosen[i].1);
            crate::text::push_str(&mut text, v.as_str());
            let ghost prior = closure_refs@;
            closure_refs.push(text);
            proof {
                assert(crate::text::string_views(closure_refs@) =~= crate::text::string_views(prior).push(text@));
                assert(closure_texts(keyed(chosen@).subrange(0, i + 1)) =~= closure_texts(
                    keyed(chosen@).subrange(0, i as int),
                ).push(chosen@[i as int].0@ + "@"@ + version_display(chosen@[i as int].1)));
            }
            i = i + 1;
        }
        assert(keyed(chosen@).subrange(0, chosen@.len() as int) =~= keyed(chosen@));
        PackageSelection { chosen, closure_refs }
    }
}


/// The package a path stands for: the selected version when the closure
/// selected the path, otherwise the registry's highest version.
pub open spec fn selected_package(
    chosen: Seq<(Seq<char>, semver::Version)>,
    registry: LocalRegistry,
    path: Seq<char>,
) -> Option<crate::package::LoadedPackage> {
    match split_at_first(path, "/"@) {
        None => None,
        Some((namespace, name)) => match lookup(chosen, path) {
            Some(v) => at_version(registry.packages@, namespace, name, v),
            None => crate::package::latest(registry.packages@, namespace, name),
        },
    }
}

impl PackageSelection {
    /// The selected version of a path.
    pub fn version(&self, path: &str) -> (version: Option<&semver::Version>)
        ensures
            match version {
                Some(v) => lookup(keyed(self.chosen@), path@) == Some(*v),
                None => lookup(keyed(self.chosen@), path@) is None,
            },
    {
        get(&self.chosen, path)
    }

    /// Whether the closure selected a path.
    pub fn contains(&self, path: &str) -> (selected: bool)
        ensures
            selected == lookup(keyed(self.chosen@), path@) is Some,
    {
        get(&self.chosen, path).is_some()
    }

    /// The package a path stands for: the selected version when the
    /// closure selected the path, otherwise the registry's highest version.
    pub fn select<'a>(&self, registry: &'a LocalRegistry, path: &str) -> (package: Option<
        &'a crate::package::LoadedPackage,
    >)
        ensures
            match package {
                Some(p) => selected_package(keyed(self.chosen@), *registry, path@) == Some(*p),
                None => selected_package(keyed(self.chosen@), *registry, path@) is None,
            },
    {
        let (namespace, name) = match crate::text::split_once(path, "/") {
            Some(parts) => parts,
            None => return None,
        };
        match get(&self.chosen, path) {
            Some(version) => registry.find_version(namespace, name, version),
            None => registry.find(namespace, name),
        }
    }
}


// ---------------------------------------------------------------------------
// What every selection keeps
// ---------------------------------------------------------------------------

/// Each selected version is the machine's pin of its path, when the path is
/// pinned.
pub open spec fn pins_kept(chosen: Seq<(Seq<char>, semver::Version)>, pins: Seq<(Seq<char>, semver::Version)>) -> bool {
    forall|i: int|
        0 <= i < chosen.len() ==> match lookup(pins, (#[trigger] chosen[i]).0) {
            Some(pin) => chosen[i].1 == pin,
            None => true,
        }
}

/// Each selected version meets every requirement on its path.
pub open spec fn requirements_met(
    chosen: Seq<(Seq<char>, semver::Version)>,
    constraints: Seq<(Seq<char>, Seq<(Seq<char>, semver::VersionReq)>)>,
) -> bool {
    forall|i: int|
        0 <= i < chosen.len() ==> accepted(
            requirements_for(constraints, (#[trigger] chosen[i]).0),
            chosen[i].1,
        )
}

proof fn lemma_unmet_none(
    path: Seq<char>,
    pin: semver::Version,
    at: Seq<char>,
    requirements: Seq<(Seq<char>, semver::VersionReq)>,
)
    requires
        unmet_findings(path, pin, at, requirements).len() == 0,
    ensures
        accepted(requirements, pin),
    decreases requirements.len(),
{
    if requirements.len() > 0 {
        lemma_unmet_none(path, pin, at, requirements.drop_last());
        assert forall|i: int| 0 <= i < requirements.len() implies requirement_matches(
            #[trigger] requirements[i].1,
            pin,
        ) by {
            if i < requirements.len() - 1 {
                assert(requirements.drop_last()[i] == requirements[i]);
            }
        }
    }
}

proof fn lemma_satisfying_accepted(versions: Seq<semver::Version>, requirements: Seq<(Seq<char>, semver::VersionReq)>)
    ensures
        forall|i: int|
            0 <= i < satisfying(versions, requirements).len() ==> accepted(
                requirements,
                #[trigger] satisfying(versions, requirements)[i],
            ),
    decreases versions.len(),
{
    if versions.len() > 0 {
        lemma_satisfying_accepted(versions.drop_last(), requirements);
        let rest = satisfying(versions.drop_last(), requirements);
        assert forall|i: int| 0 <= i < satisfying(versions, requirements).len() implies accepted(
            requirements,
            #[trigger] satisfying(versions, requirements)[i],
        ) by {
            if i < rest.len() {
                assert(satisfying(versions, requirements)[i] == rest[i]);
            }
        }
    }
}

proof fn lemma_round_keeps(
    paths: Seq<Seq<char>>,
    k: nat,
    pins: Seq<(Seq<char>, semver::Version)>,
    pin_paths: Seq<(Seq<char>, Seq<char>)>,
    roots: Seq<Seq<char>>,
    constraints: Seq<(Seq<char>, Seq<(Seq<char>, semver::VersionReq)>)>,
    registry: LocalRegistry,
)
    ensures
        pins_kept(round_over(paths, k, pins, pin_paths, roots, constraints, registry).next, pins),
        requirements_met(round_over(paths, k, pins, pin_paths, roots, constraints, registry).next, constraints),
    decreases k,
{
    if k > 0 && k <= paths.len() {
        lemma_round_keeps(paths, (k - 1) as nat, pins, pin_paths, roots, constraints, registry);
        let st = round_over(paths, (k - 1) as nat, pins, pin_paths, roots, constraints, registry);
        let r = round_over(paths, k, pins, pin_paths, roots, constraints, registry);
        let path = paths[k - 1];
        match split_at_first(path, "/"@) {
            Some((namespace, name)) => {
                let available = sorted_versions(versions_of(registry.packages@, namespace, name));
                let requirements = requirements_for(constraints, path);
                let at = match lookup(pin_paths, path) {
                    Some(p) => p,
                    None => "packages"@,
                };
                if available.len() > 0 {
                    match lookup(pins, path) {
                        Some(pin) => {
                            if available.contains(pin) && unmet_findings(path, pin, at, requirements).len() == 0 {
                                lemma_unmet_none(path, pin, at, requirements);
                                assert(r.next == st.next.push((path, pin)));
                            }
                        },
                        None => {
                            let ok = satisfying(available, requirements);
                            if ok.len() > 0 {
                                lemma_satisfying_accepted(available, requirements);
                                assert(accepted(requirements, ok[ok.len() - 1]));
                                assert(r.next == st.next.push((path, ok.last())));
                            }
                        },
                    }
                }
                assert forall|i: int| 0 <= i < r.next.len() implies match lookup(pins, (#[trigger] r.next[i]).0) {
                    Some(pin) => r.next[i].1 == pin,
                    None => true,
                } && accepted(requirements_for(constraints, r.next[i].0), r.next[i].1) by {
                    if i < st.next.len() {
                        assert(r.next[i] == st.next[i]);
                    }
                }
            },
            None => {},
        }
    }
}

/// Dependency resolution honours the machine: after any number of rounds,
/// every selected version of a pinned path is the machine's pin (a
/// conflict is an error, never an override), and once resolution settles,
/// every selected version meets every requirement the selected packages
/// state on its path.
pub proof fn resolution_honours_pins_and_requirements(doc: MachineDoc, registry: LocalRegistry, k: nat)
    ensures
        pins_kept(rounds(doc, registry, k).chosen, pin_table(doc.packages@, doc.packages@.len()).0),
        rounds(doc, registry, k).converged ==> requirements_met(
            rounds(doc, registry, k).chosen,
            rounds(doc, registry, k).constraints,
        ),
    decreases k,
{
    if k > 0 {
        resolution_honours_pins_and_requirements(doc, registry, (k - 1) as nat);
        let before = rounds(doc, registry, (k - 1) as nat);
        if !before.converged {
            let (pins, pin_paths) = pin_table(doc.packages@, doc.packages@.len());
            let roots = implicit_roots(doc);
            let paths = round_paths(pins, roots, before.constraints);
            lemma_round_keeps(paths, paths.len(), pins, pin_paths, roots, before.constraints, registry);
        }
    }
}

/// The registry's versions of a path, in precedence order.
pub open spec fn available_versions(registry: LocalRegistry, path: Seq<char>) -> Seq<semver::Version> {
    match split_at_first(path, "/"@) {
        Some((namespace, name)) => sorted_versions(versions_of(registry.packages@, namespace, name)),
        None => seq![],
    }
}

/// The registry's versions of a path that every requirement on it
/// accepts, in precedence order.
pub open spec fn satisfying_versions(
    registry: LocalRegistry,
    constraints: Seq<(Seq<char>, Seq<(Seq<char>, semver::VersionReq)>)>,
    path: Seq<char>,
) -> Seq<semver::Version> {
    satisfying(available_versions(registry, path), requirements_for(constraints, path))
}

/// `v` is among `versions`, and no other of them sorts above it.
pub open spec fn is_highest(versions: Seq<semver::Version>, v: semver::Version) -> bool {
    &&& versions.contains(v)
    &&& forall|w: semver::Version| #[trigger] versions.contains(w) && w != v ==> version_order(w, v) <= 0
}

/// Every selected version of a path the machine does not pin is the
/// highest registry version that meets every requirement on the path.
pub open spec fn highest_selected(
    chosen: Seq<(Seq<char>, semver::Version)>,
    constraints: Seq<(Seq<char>, Seq<(Seq<char>, semver::VersionReq)>)>,
    pins: Seq<(Seq<char>, semver::Version)>,
    registry: LocalRegistry,
) -> bool {
    forall|i: int|
        0 <= i < chosen.len() && lookup(pins, (#[trigger] chosen[i]).0) is None ==> is_highest(
            satisfying_versions(registry, constraints, chosen[i].0),
            chosen[i].1,
        )
}

/// The version lists of the selected paths are in precedence order.
pub open spec fn chosen_sorted(registry: LocalRegistry, chosen: Seq<(Seq<char>, semver::Version)>) -> bool {
    forall|i: int| 0 <= i < chosen.len() ==> precedence_sorted(available_versions(registry, (#[trigger] chosen[i]).0))
}

proof fn lemma_satisfying_within(versions: Seq<semver::Version>, requirements: Seq<(Seq<char>, semver::VersionReq)>)
    ensures
        forall|w: semver::Version| #[trigger] satisfying(versions, requirements).contains(w) ==> versions.contains(w),
    decreases versions.len(),
{
    if versions.len() > 0 {
        lemma_satisfying_within(versions.drop_last(), requirements);
        let rest = satisfying(versions.drop_last(), requirements);
        assert forall|w: semver::Version| #[trigger] satisfying(versions, requirements).contains(w) implies versions.contains(w) by {
            if rest.contains(w) {
                let i = choose|i: int| 0 <= i < versions.drop_last().len() && versions.drop_last()[i] == w;
                assert(versions[i] == w);
            } else {
                assert(w == versions.last());
                assert(versions[versions.len() - 1] == w);
            }
        }
    }
}

/// The last version of a sorted list that meets the requirements sorts at
/// or above every other that does.
proof fn lemma_last_is_highest(versions: Seq<semver::Version>, requirements: Seq<(Seq<char>, semver::VersionReq)>)
    requires
        precedence_sorted(versions),
        satisfying(versions, requirements).len() > 0,
    ensures
        is_highest(satisfying(versions, requirements), satisfying(versions, requirements).last()),
    decreases versions.len(),
{
    let ok = satisfying(versions, requirements);
    let rest = satisfying(versions.drop_last(), requirements);
    let shorter = versions.drop_last();
    assert(precedence_sorted(shorter)) by {
        assert forall|i: int, j: int| 0 <= i < j < shorter.len() implies #[trigger] version_order(shorter[i], shorter[j]) <= 0 by {
            assert(shorter[i] == versions[i] && shorter[j] == versions[j]);
        }
    }
    if accepted(requirements, versions.last()) {
        assert(ok == rest.push(versions.last()));
        assert(ok.last() == versions.last());
        assert(ok[ok.len() - 1] == ok.last());
        lemma_satisfying_within(shorter, requirements);
        assert forall|w: semver::Version| #[trigger] ok.contains(w) && w != ok.last() implies version_order(w, ok.last()) <= 0 by {
            let k = choose|k: int| 0 <= k < ok.len() && ok[k] == w;
            assert(k < rest.len());
            assert(rest[k] == w);
            assert(rest.contains(w));
            let i = choose|i: int| 0 <= i < shorter.len() && shorter[i] == w;
            assert(versions[i] == w);
            assert(version_order(versions[i], versions[versions.len() - 1]) <= 0);
        }
    } else {
        assert(ok == rest);
        lemma_last_is_highest(shorter, requirements);
    }
}

/// Each selected version of a path the machine does not pin is the last of
/// the versions that meet the path's requirements.
proof fn lemma_round_picks_last(
    paths: Seq<Seq<char>>,
    k: nat,
    pins: Seq<(Seq<char>, semver::Version)>,
    pin_paths: Seq<(Seq<char>, Seq<char>)>,
    roots: Seq<Seq<char>>,
    constraints: Seq<(Seq<char>, Seq<(Seq<char>, semver::VersionReq)>)>,
    registry: LocalRegistry,
)
    ensures
        forall|i: int|
            0 <= i < round_over(paths, k, pins, pin_paths, roots, constraints, registry).next.len() && lookup(
                pins,
                (#[trigger] round_over(paths, k, pins, pin_paths, roots, constraints, registry).next[i]).0,
            ) is None ==> {
                let e = round_over(paths, k, pins, pin_paths, roots, constraints, registry).next[i];
                &&& satisfying_versions(registry, constraints, e.0).len() > 0
                &&& e.1 == satisfying_versions(registry, constraints, e.0).last()
            },
    decreases k,
{
    if k > 0 && k <= paths.len() {
        lemma_round_picks_last(paths, (k - 1) as nat, pins, pin_paths, roots, constraints, registry);
        let st = round_over(paths, (k - 1) as nat, pins, pin_paths, roots, constraints, registry);
        let r = round_over(paths, k, pins, pin_paths, roots, constraints, registry);
        let path = paths[k - 1];
        match split_at_first(path, "/"@) {
            Some((namespace, name)) => {
                let available = sorted_versions(versions_of(registry.packages@, namespace, name));
                let requirements = requirements_for(constraints, path);
                let at = match lookup(pin_paths, path) {
                    Some(p) => p,
                    None => "packages"@,
                };
                assert(available == available_versions(registry, path));
                if available.len() > 0 {
                    match lookup(pins, path) {
                        Some(pin) => {
                            if available.contains(pin) && unmet_findings(path, pin, at, requirements).len() == 0 {
                                lemma_unmet_none(path, pin, at, requirements);
                                assert(r.next == st.next.push((path, pin)));
                            }
                        },
                        None => {
                            let ok = satisfying(available, requirements);
                            if ok.len() > 0 {
                                assert(r.next == st.next.push((path, ok.last())));
                            }
                        },
                    }
                }
                assert forall|i: int|
                    0 <= i < r.next.len() && lookup(pins, (#[trigger] r.next[i]).0) is None implies {
                    &&& satisfying_versions(registry, constraints, r.next[i].0).len() > 0
                    &&& r.next[i].1 == satisfying_versions(registry, constraints, r.next[i].0).last()
                } by {
                    if i < st.next.len() {
                        assert(r.next[i] == st.next[i]);
                    }
                }
            },
            None => {},
        }
    }
}

/// Once resolution settles, every selected version of a path the machine
/// does not pin is the highest registry version that meets every
/// requirement the selected packages state on the path (pins stay
/// absolute: `resolution_honours_pins_and_requirements`). The version
/// lists chosen from are in precedence order, as `LocalRegistry::versions`
/// proves of every list it builds.
pub proof fn resolution_selects_the_highest_satisfying_versions(doc: MachineDoc, registry: LocalRegistry, k: nat)
    requires
        chosen_sorted(registry, rounds(doc, registry, k).chosen),
    ensures
        rounds(doc, registry, k).converged ==> highest_selected(
            rounds(doc, registry, k).chosen,
            rounds(doc, registry, k).constraints,
            pin_table(doc.packages@, doc.packages@.len()).0,
            registry,
        ),
    decreases k,
{
    if k > 0 {
        let before = rounds(doc, registry, (k - 1) as nat);
        if before.converged {
            resolution_selects_the_highest_satisfying_versions(doc, registry, (k - 1) as nat);
        } else {
            let (pins, pin_paths) = pin_table(doc.packages@, doc.packages@.len());
            let roots = implicit_roots(doc);
            let paths = round_paths(pins, roots, before.constraints);
            let next = round_over(paths, paths.len(), pins, pin_paths, roots, before.constraints, registry).next;
            lemma_round_picks_last(paths, paths.len(), pins, pin_paths, roots, before.constraints, registry);
            if rounds(doc, registry, k).converged {
                assert forall|i: int| 0 <= i < next.len() && lookup(pins, (#[trigger] next[i]).0) is None implies is_highest(
                    satisfying_versions(registry, before.constraints, next[i].0),
                    next[i].1,
                ) by {
                    assert(precedence_sorted(available_versions(registry, next[i].0)));
                    lemma_last_is_highest(
                        available_versions(registry, next[i].0),
                        requirements_for(before.constraints, next[i].0),
                    );
                }
            }
        }
    }
}

} // verus!
