//! Validating a machine manifest: every structural, identifier, quantity
//! and reference problem is reported together, each located at the exact
//! range of its document path, or of the nearest recorded ancestor.

use vstd::prelude::*;
use crate::package::{PackageRef, RefShape, error_display, ref_shape, version_parse};
use crate::schema::{
    AttributeValue, Component, Controller, Diagnostic, Dimension, MachineDoc, QuantityError,
    Severity, API_VERSION, KIND_MACHINE, is_valid_identifier, quantity_error_text, valid_identifier,
};
use crate::spans::{SpanIndex, nearest_recorded};
use crate::text::{decimal, push_decimal, push_str, split_at_first, split_once, str_eq, string_views};

verus! {

/// What validating a manifest reports: the document when it deserialized,
/// every finding, and the source map for later findings.
#[derive(Debug)]
pub struct ParseOutcome {
    pub doc: Option<MachineDoc>,
    pub diagnostics: Vec<Diagnostic>,
    pub spans: SpanIndex,
}

impl ParseOutcome {
    /// A document is present and no finding is an error.
    pub fn is_valid(&self) -> (valid: bool)
        ensures
            valid == (self.doc is Some && forall|i: int|
                0 <= i < self.diagnostics@.len() ==> (#[trigger] self.diagnostics@[i]).severity
                    != Severity::Error),
    {
        if self.doc.is_none() {
            return false;
        }
        let mut i: usize = 0;
        while i < self.diagnostics.len()
            invariant
                i <= self.diagnostics@.len(),
                forall|k: int|
                    0 <= k < i ==> (#[trigger] self.diagnostics@[k]).severity != Severity::Error,
            decreases self.diagnostics@.len() - i,
        {
            if self.diagnostics[i].severity == Severity::Error {
                return false;
            }
            i = i + 1;
        }
        true
    }
}

/// The dimension a well-known kinematics limit must carry; other limit
/// names need some valid unit, of any dimension.
pub open spec fn limit_dimension(name: Seq<char>) -> Option<Dimension> {
    if name == "max_velocity"@ || name == "max_z_velocity"@ {
        Some(Dimension::Velocity)
    } else if name == "max_acceleration"@ {
        Some(Dimension::Acceleration)
    } else if name == "max_step_rate"@ {
        Some(Dimension::Frequency)
    } else {
        None
    }
}

/// Which dimension a kinematics limit must carry, when it is a known one.
pub fn expected_limit_dimension(name: &str) -> (dimension: Option<Dimension>)
    ensures
        dimension == limit_dimension(name@),
{
    if str_eq(name, "max_velocity") || str_eq(name, "max_z_velocity") {
        Some(Dimension::Velocity)
    } else if str_eq(name, "max_acceleration") {
        Some(Dimension::Acceleration)
    } else if str_eq(name, "max_step_rate") {
        Some(Dimension::Frequency)
    } else {
        None
    }
}

// ---------------------------------------------------------------------------
// Findings
// ---------------------------------------------------------------------------

/// A finding before it is located: code, message, document path, and an
/// optional suggestion.
pub struct Finding {
    pub code: Seq<char>,
    pub message: Seq<char>,
    pub path: Seq<char>,
    pub suggestion: Option<Seq<char>>,
}

pub open spec fn finding_at(code: Seq<char>, message: Seq<char>, path: Seq<char>) -> Finding {
    Finding { code, message, path, suggestion: None }
}

pub open spec fn when(failed: bool, f: Finding) -> Seq<Finding> {
    if failed {
        seq![f]
    } else {
        seq![]
    }
}

/// The keys of a keyed list.
pub open spec fn keys_of<T>(entries: Seq<(String, T)>) -> Seq<Seq<char>> {
    entries.map_values(|e: (String, T)| e.0@)
}

/// Some entry has this key.
pub open spec fn has_key<T>(entries: Seq<(String, T)>, key: Seq<char>) -> bool {
    exists|i: int| 0 <= i < entries.len() && (#[trigger] entries[i]).0@ == key
}

/// One finding for each key that is not an identifier.
pub open spec fn identifier_findings(section: Seq<char>, keys: Seq<Seq<char>>) -> Seq<Finding>
    decreases keys.len(),
{
    if keys.len() == 0 {
        seq![]
    } else {
        let key = keys.last();
        identifier_findings(section, keys.drop_last()) + when(
            !is_valid_identifier(key),
            finding_at(
                "E0300"@,
                "'"@ + key
                    + "' is not a valid identifier (lowercase ASCII, digits, '_', '-', starting with a letter)"@,
                section + "."@ + key,
            ),
        )
    }
}

/// Why a package reference is rejected, as `PackageRef::parse` says it.
pub open spec fn ref_problem(text: Seq<char>) -> Option<Seq<char>> {
    match ref_shape(text) {
        RefShape::MissingVersion => Some("'"@ + text + "' is missing '@version'"@),
        RefShape::MissingNamespace => Some("'"@ + text + "' is missing 'namespace/'"@),
        RefShape::BadIdentifiers { path } => Some(
            "'"@ + path + "' must be lowercase identifiers 'namespace/name'"@,
        ),
        RefShape::Parts { version, .. } => match version_parse(version) {
            Ok(_) => None,
            Err(e) => Some("'"@ + version + "' is not semver: "@ + error_display(e)),
        },
    }
}

/// The path of a list item: `packages[3]`.
pub open spec fn item_path(list: Seq<char>, i: nat) -> Seq<char> {
    list + "["@ + decimal(i) + "]"@
}

/// One finding for each package reference that does not parse.
pub open spec fn package_findings(packages: Seq<String>) -> Seq<Finding>
    decreases packages.len(),
{
    if packages.len() == 0 {
        seq![]
    } else {
        let i = (packages.len() - 1) as nat;
        package_findings(packages.drop_last()) + match ref_problem(packages.last()@) {
            Some(reason) => seq![
                finding_at(
                    "E0500"@,
                    "invalid package reference: "@ + reason,
                    item_path("packages"@, i),
                ),
            ],
            None => seq![],
        }
    }
}

/// One finding for each kinematics limit the quantity reader rejected
/// (`problems[i]` is what it said of limit `i`).
pub open spec fn limit_findings(
    limits: Seq<(String, String)>,
    problems: Seq<Option<QuantityError>>,
) -> Seq<Finding>
    decreases limits.len(),
{
    if limits.len() == 0 || problems.len() == 0 {
        seq![]
    } else {
        let name = limits.last().0@;
        limit_findings(limits.drop_last(), problems.drop_last()) + match problems.last() {
            Some(e) => seq![
                Finding {
                    code: "E0400"@,
                    message: "limit '"@ + name + "': "@ + quantity_error_text(e),
                    path: "kinematics.limits."@ + name,
                    suggestion: Some("write quantities with explicit units, e.g. \"300 mm/s\""@),
                },
            ],
            None => seq![],
        }
    }
}

/// The finding for one string attribute of a component: a `driver` or
/// `sensor` must name a component, and a `connected_to`, `output` or
/// `input` must name a port of a known controller as `controller.port`.
pub open spec fn attribute_finding(
    doc: MachineDoc,
    component: Seq<char>,
    attr: Seq<char>,
    target: Seq<char>,
) -> Seq<Finding> {
    let path = "components."@ + component + "."@ + attr;
    if (attr == "driver"@ || attr == "sensor"@) && !has_key(doc.components@, target) {
        seq![
            finding_at(
                "E0501"@,
                "component '"@ + component + "' references unknown component '"@ + target + "'"@,
                path,
            ),
        ]
    } else if attr == "connected_to"@ || attr == "output"@ || attr == "input"@ {
        match split_at_first(target, "."@) {
            Some((controller, _)) => when(
                !has_key(doc.controllers@, controller),
                finding_at(
                    "E0502"@,
                    "component '"@ + component + "' references unknown controller '"@
                        + controller + "' in '"@ + target + "'"@,
                    path,
                ),
            ),
            None => seq![
                finding_at(
                    "E0503"@,
                    "'"@ + target + "' must name a controller port as 'controller.port'"@,
                    path,
                ),
            ],
        }
    } else {
        seq![]
    }
}

pub open spec fn attributes_findings(
    doc: MachineDoc,
    component: Seq<char>,
    attributes: Seq<(String, AttributeValue)>,
) -> Seq<Finding>
    decreases attributes.len(),
{
    if attributes.len() == 0 {
        seq![]
    } else {
        let (attr, value) = attributes.last();
        attributes_findings(doc, component, attributes.drop_last()) + match value {
            AttributeValue::Text(target) => attribute_finding(doc, component, attr@, target@),
            AttributeValue::Other => seq![],
        }
    }
}

pub open spec fn components_findings(doc: MachineDoc, components: Seq<(String, Component)>) -> Seq<
    Finding,
>
    decreases components.len(),
{
    if components.len() == 0 {
        seq![]
    } else {
        components_findings(doc, components.drop_last()) + attributes_findings(
            doc,
            components.last().0@,
            components.last().1.attributes@,
        )
    }
}

/// The finding for a controller's transport parent: it must be
/// `controller.port` of a known controller.
pub open spec fn parent_finding(doc: MachineDoc, name: Seq<char>, controller: Controller) -> Seq<
    Finding,
> {
    let path = "controllers."@ + name + ".transport.parent"@;
    match controller.transport.parent {
        None => seq![],
        Some(parent) => match split_at_first(parent@, "."@) {
            None => seq![
                finding_at(
                    "E0503"@,
                    "'"@ + parent@ + "' must name a controller port as 'controller.port'"@,
                    path,
                ),
            ],
            Some((owner, _)) => when(
                !has_key(doc.controllers@, owner),
                finding_at(
                    "E0502"@,
                    "transport parent references unknown controller '"@ + owner + "'"@,
                    path,
                ),
            ),
        },
    }
}

pub open spec fn parents_findings(doc: MachineDoc, controllers: Seq<(String, Controller)>) -> Seq<
    Finding,
>
    decreases controllers.len(),
{
    if controllers.len() == 0 {
        seq![]
    } else {
        parents_findings(doc, controllers.drop_last()) + parent_finding(
            doc,
            controllers.last().0@,
            controllers.last().1,
        )
    }
}

/// Every finding for a manifest, in order: version, kind and controller
/// presence; identifiers of controllers, components and workflows;
/// package references; kinematics limits; component references; transport
/// parents.
pub open spec fn manifest_findings(doc: MachineDoc, limit_problems: Seq<Option<QuantityError>>) -> Seq<
    Finding,
> {
    when(
        doc.api_version@ != API_VERSION@,
        finding_at(
            "E0200"@,
            "api_version '"@ + doc.api_version@ + "' is not supported (expected '"@ + API_VERSION@
                + "')"@,
            "api_version"@,
        ),
    ) + when(
        doc.kind@ != KIND_MACHINE@,
        finding_at(
            "E0201"@,
            "kind '"@ + doc.kind@ + "' is not supported (expected '"@ + KIND_MACHINE@ + "')"@,
            "kind"@,
        ),
    ) + when(
        doc.controllers@.len() == 0,
        finding_at("E0202"@, "a machine needs at least one controller"@, "controllers"@),
    ) + identifier_findings("controllers"@, keys_of(doc.controllers@)) + identifier_findings(
        "components"@,
        keys_of(doc.components@),
    ) + identifier_findings("workflows"@, keys_of(doc.workflows@)) + package_findings(doc.packages@)
        + limit_findings(doc.kinematics.limits@, limit_problems) + components_findings(
        doc,
        doc.components@,
    ) + parents_findings(doc, doc.controllers@)
}

// ---------------------------------------------------------------------------
// Reporting
// ---------------------------------------------------------------------------

/// How a finding is reported: an error at its path with its suggestion,
/// on the line and column where the path, or its nearest recorded
/// ancestor, starts.
pub open spec fn reported_as(d: Diagnostic, f: Finding, index: SpanIndex) -> bool {
    &&& d.code@ == f.code
    &&& d.message@ == f.message
    &&& d.severity == Severity::Error
    &&& d.path matches Some(p) && p@ == f.path
    &&& string_views(d.suggestions@) == match f.suggestion {
        Some(s) => seq![s],
        None => seq![],
    }
    &&& match nearest_recorded(index.ranges().dom(), f.path) {
        Some(k) => d.line == Some(index.ranges()[k].0.line) && d.column == Some(
            index.ranges()[k].0.column,
        ),
        None => d.line is None && d.column is None,
    }
}

/// `out` holds `before` followed by one report for each finding.
pub open spec fn reports(
    out: Seq<Diagnostic>,
    before: Seq<Diagnostic>,
    fs: Seq<Finding>,
    index: SpanIndex,
) -> bool {
    &&& out.len() == before.len() + fs.len()
    &&& out.subrange(0, before.len() as int) == before
    &&& forall|j: int|
        0 <= j < fs.len() ==> reported_as(#[trigger] out[before.len() + j], fs[j], index)
}

proof fn lemma_reports_extend(
    a: Seq<Diagnostic>,
    b: Seq<Diagnostic>,
    c: Seq<Diagnostic>,
    f: Seq<Finding>,
    g: Seq<Finding>,
    index: SpanIndex,
)
    requires
        reports(b, a, f, index),
        reports(c, b, g, index),
    ensures
        reports(c, a, f + g, index),
{
    assert(c.subrange(0, a.len() as int) =~= b.subrange(0, a.len() as int));
    assert forall|j: int| 0 <= j < (f + g).len() implies reported_as(
        #[trigger] c[a.len() + j],
        (f + g)[j],
        index,
    ) by {
        if j < f.len() {
            assert(c[a.len() + j] == b[a.len() + j]);
        } else {
            assert(c[a.len() + j] == c[b.len() + (j - f.len())]);
        }
    }
}

proof fn lemma_reports_empty(a: Seq<Diagnostic>, index: SpanIndex)
    ensures
        reports(a, a, seq![], index),
{
    assert(a.subrange(0, a.len() as int) =~= a);
}

/// Reports one finding, located through the span index.
fn report_finding(
    out: &mut Vec<Diagnostic>,
    index: &SpanIndex,
    code: &str,
    message: String,
    path: String,
    suggestion: Option<&str>,
)
    ensures
        reports(
            final(out)@,
            old(out)@,
            seq![
                Finding {
                    code: code@,
                    message: message@,
                    path: path@,
                    suggestion: match suggestion {
                        Some(s) => Some(s@),
                        None => None,
                    },
                },
            ],
            *index,
        ),
{
    let mut d = Diagnostic::error(code, message.as_str()).at(path.as_str());
    match suggestion {
        Some(s) => {
            d = d.suggest(s);
        },
        None => {},
    }
    match index.locate_span(path.as_str()) {
        Some(span) => {
            d.line = Some(span.start.line);
            d.column = Some(span.start.column);
        },
        None => {},
    }
    let ghost f = Finding {
        code: code@,
        message: message@,
        path: path@,
        suggestion: match suggestion {
            Some(s) => Some(s@),
            None => None,
        },
    };
    assert(string_views(d.suggestions@) =~= match f.suggestion {
        Some(s) => seq![s],
        None => seq![],
    });
    assert(reported_as(d, f, *index));
    out.push(d);
    proof {
        assert(final(out)@.subrange(0, old(out)@.len() as int) =~= old(out)@);
        assert(final(out)@[old(out)@.len() as int] == d);
    }
}

fn report_if(
    out: &mut Vec<Diagnostic>,
    index: &SpanIndex,
    failed: bool,
    code: &str,
    message: String,
    path: String,
)
    ensures
        reports(
            final(out)@,
            old(out)@,
            when(failed, finding_at(code@, message@, path@)),
            *index,
        ),
{
    if failed {
        report_finding(out, index, code, message, path, None);
    } else {
        proof {
            lemma_reports_empty(out@, *index);
        }
    }
}

fn joined2(a: &str, b: &str) -> (text: String)
    ensures
        text@ == a@ + b@,
{
    let mut text = a.to_owned();
    push_str(&mut text, b);
    text
}

fn joined3(a: &str, b: &str, c: &str) -> (text: String)
    ensures
        text@ == a@ + b@ + c@,
{
    let mut text = a.to_owned();
    push_str(&mut text, b);
    push_str(&mut text, c);
    text
}

fn check_identifiers<T>(
    out: &mut Vec<Diagnostic>,
    index: &SpanIndex,
    section: &str,
    entries: &Vec<(String, T)>,
)
    ensures
        reports(final(out)@, old(out)@, identifier_findings(section@, keys_of(entries@)), *index),
{
    let ghost start = out@;
    let ghost keys = keys_of(entries@);
    proof {
        lemma_reports_empty(out@, *index);
        assert(keys.subrange(0, 0) =~= Seq::<Seq<char>>::empty());
    }
    let mut i: usize = 0;
    while i < entries.len()
        invariant
            i <= entries@.len(),
            keys == keys_of(entries@),
            reports(out@, start, identifier_findings(section@, keys.subrange(0, i as int)), *index),
        decreases entries@.len() - i,
    {
        let ghost before = out@;
        let key = entries[i].0.as_str();
        report_if(
            out,
            index,
            !valid_identifier(key),
            "E0300",
            joined3(
                "'",
                key,
                "' is not a valid identifier (lowercase ASCII, digits, '_', '-', starting with a letter)",
            ),
            joined3(section, ".", key),
        );
        proof {
            let next = keys.subrange(0, i + 1);
            assert(next.drop_last() =~= keys.subrange(0, i as int));
            assert(next.last() == key@);
            lemma_reports_extend(
                start,
                before,
                out@,
                identifier_findings(section@, keys.subrange(0, i as int)),
                when(
                    !is_valid_identifier(key@),
                    finding_at(
                        "E0300"@,
                        "'"@ + key@
                            + "' is not a valid identifier (lowercase ASCII, digits, '_', '-', starting with a letter)"@,
                        section@ + "."@ + key@,
                    ),
                ),
                *index,
            );
        }
        i = i + 1;
    }
    assert(keys.subrange(0, entries@.len() as int) =~= keys);
}

fn key_present<T>(entries: &Vec<(String, T)>, key: &str) -> (present: bool)
    ensures
        present == has_key(entries@, key@),
{
    let mut i: usize = 0;
    while i < entries.len()
        invariant
            i <= entries@.len(),
            forall|j: int| 0 <= j < i ==> (#[trigger] entries@[j]).0@ != key@,
        decreases entries@.len() - i,
    {
        if str_eq(entries[i].0.as_str(), key) {
            return true;
        }
        i = i + 1;
    }
    false
}

fn item_path_text(list: &str, i: usize) -> (text: String)
    ensures
        text@ == item_path(list@, i as nat),
{
    let mut text = list.to_owned();
    push_str(&mut text, "[");
    push_decimal(&mut text, i as u64);
    push_str(&mut text, "]");
    text
}

fn check_packages(out: &mut Vec<Diagnostic>, index: &SpanIndex, packages: &Vec<String>)
    ensures
        reports(final(out)@, old(out)@, package_findings(packages@), *index),
{
    let ghost start = out@;
    proof {
        lemma_reports_empty(out@, *index);
        assert(packages@.subrange(0, 0) =~= Seq::<String>::empty());
    }
    let mut i: usize = 0;
    while i < packages.len()
        invariant
            i <= packages@.len(),
            reports(out@, start, package_findings(packages@.subrange(0, i as int)), *index),
        decreases packages@.len() - i,
    {
        let ghost before = out@;
        let ghost next = packages@.subrange(0, i + 1);
        proof {
            assert(next.drop_last() =~= packages@.subrange(0, i as int));
            assert(next.last() == packages@[i as int]);
        }
        let ghost step = match ref_problem(packages@[i as int]@) {
            Some(reason) => seq![
                finding_at(
                    "E0500"@,
                    "invalid package reference: "@ + reason,
                    item_path("packages"@, i as nat),
                ),
            ],
            None => Seq::<Finding>::empty(),
        };
        match PackageRef::parse(packages[i].as_str()) {
            Ok(_) => {
                proof {
                    lemma_reports_empty(out@, *index);
                }
            },
            Err(e) => {
                report_finding(
                    out,
                    index,
                    "E0500",
                    e.to_message(),
                    item_path_text("packages", i),
                    None,
                );
            },
        }
        proof {
            lemma_reports_extend(
                start,
                before,
                out@,
                package_findings(packages@.subrange(0, i as int)),
                step,
                *index,
            );
        }
        i = i + 1;
    }
    assert(packages@.subrange(0, packages@.len() as int) =~= packages@);
}

fn check_limits(
    out: &mut Vec<Diagnostic>,
    index: &SpanIndex,
    limits: &Vec<(String, String)>,
    problems: &Vec<Option<QuantityError>>,
)
    requires
        problems@.len() == limits@.len(),
    ensures
        reports(final(out)@, old(out)@, limit_findings(limits@, problems@), *index),
{
    let ghost start = out@;
    proof {
        lemma_reports_empty(out@, *index);
    }
    let mut i: usize = 0;
    while i < limits.len()
        invariant
            i <= limits@.len(),
            problems@.len() == limits@.len(),
            reports(
                out@,
                start,
                limit_findings(limits@.subrange(0, i as int), problems@.subrange(0, i as int)),
                *index,
            ),
        decreases limits@.len() - i,
    {
        let ghost before = out@;
        let ghost prev = limit_findings(limits@.subrange(0, i as int), problems@.subrange(0, i as int));
        proof {
            let nl = limits@.subrange(0, i + 1);
            let np = problems@.subrange(0, i + 1);
            assert(nl.drop_last() =~= limits@.subrange(0, i as int));
            assert(np.drop_last() =~= problems@.subrange(0, i as int));
            assert(nl.last() == limits@[i as int]);
            assert(np.last() == problems@[i as int]);
        }
        let name = limits[i].0.as_str();
        match &problems[i] {
            Some(e) => {
                let mut message = joined3("limit '", name, "': ");
                let reason = e.to_message();
                push_str(&mut message, reason.as_str());
                report_finding(
                    out,
                    index,
                    "E0400",
                    message,
                    joined2("kinematics.limits.", name),
                    Some("write quantities with explicit units, e.g. \"300 mm/s\""),
                );
                proof {
                    let step = seq![
                        Finding {
                            code: "E0400"@,
                            message: "limit '"@ + name@ + "': "@ + quantity_error_text(*e),
                            path: "kinematics.limits."@ + name@,
                            suggestion: Some(
                                "write quantities with explicit units, e.g. \"300 mm/s\""@,
                            ),
                        },
                    ];
                    lemma_reports_extend(start, before, out@, prev, step, *index);
                    assert(limit_findings(limits@.subrange(0, i + 1), problems@.subrange(0, i + 1))
                        =~= prev + step);
                }
            },
            None => {
                proof {
                    assert(limit_findings(limits@.subrange(0, i + 1), problems@.subrange(0, i + 1))
                        =~= prev);
                }
            },
        }
        i = i + 1;
    }
    assert(limits@.subrange(0, limits@.len() as int) =~= limits@);
    assert(problems@.subrange(0, problems@.len() as int) =~= problems@);
}

fn check_attribute(
    out: &mut Vec<Diagnostic>,
    index: &SpanIndex,
    doc: &MachineDoc,
    component: &str,
    attr: &str,
    target: &str,
)
    ensures
        reports(
            final(out)@,
            old(out)@,
            attribute_finding(*doc, component@, attr@, target@),
            *index,
        ),
{
    let mut path = joined3("components.", component, ".");
    push_str(&mut path, attr);
    if (str_eq(attr, "driver") || str_eq(attr, "sensor")) && !key_present(&doc.components, target) {
        let mut message = joined3("component '", component, "' references unknown component '");
        push_str(&mut message, target);
        push_str(&mut message, "'");
        report_finding(out, index, "E0501", message, path, None);
    } else if str_eq(attr, "connected_to") || str_eq(attr, "output") || str_eq(attr, "input") {
        match split_once(target, ".") {
            Some((controller, _)) => {
                let mut message = joined3(
                    "component '",
                    component,
                    "' references unknown controller '",
                );
                push_str(&mut message, controller);
                push_str(&mut message, "' in '");
                push_str(&mut message, target);
                push_str(&mut message, "'");
                report_if(
                    out,
                    index,
                    !key_present(&doc.controllers, controller),
                    "E0502",
                    message,
                    path,
                );
            },
            None => {
                let message = joined3(
                    "'",
                    target,
                    "' must name a controller port as 'controller.port'",
                );
                report_finding(out, index, "E0503", message, path, None);
            },
        }
    } else {
        proof {
            lemma_reports_empty(out@, *index);
        }
    }
}

fn check_attributes(
    out: &mut Vec<Diagnostic>,
    index: &SpanIndex,
    doc: &MachineDoc,
    component: &str,
    attributes: &Vec<(String, AttributeValue)>,
)
    ensures
        reports(final(out)@, old(out)@, attributes_findings(*doc, component@, attributes@), *index),
{
    let ghost start = out@;
    proof {
        lemma_reports_empty(out@, *index);
    }
    let mut i: usize = 0;
    while i < attributes.len()
        invariant
            i <= attributes@.len(),
            reports(
                out@,
                start,
                attributes_findings(*doc, component@, attributes@.subrange(0, i as int)),
                *index,
            ),
        decreases attributes@.len() - i,
    {
        let ghost before = out@;
        let ghost prev = attributes_findings(*doc, component@, attributes@.subrange(0, i as int));
        proof {
            let next = attributes@.subrange(0, i + 1);
            assert(next.drop_last() =~= attributes@.subrange(0, i as int));
            assert(next.last() == attributes@[i as int]);
        }
        match &attributes[i].1 {
            AttributeValue::Text(target) => {
                check_attribute(out, index, doc, component, attributes[i].0.as_str(), target.as_str());
                proof {
                    lemma_reports_extend(
                        start,
                        before,
                        out@,
                        prev,
                        attribute_finding(*doc, component@, attributes@[i as int].0@, target@),
                        *index,
                    );
                }
            },
            AttributeValue::Other => {
                proof {
                    assert(attributes_findings(*doc, component@, attributes@.subrange(0, i + 1))
                        =~= prev);
                }
            },
        }
        i = i + 1;
    }
    assert(attributes@.subrange(0, attributes@.len() as int) =~= attributes@);
}

fn check_components(out: &mut Vec<Diagnostic>, index: &SpanIndex, doc: &MachineDoc)
    ensures
        reports(final(out)@, old(out)@, components_findings(*doc, doc.components@), *index),
{
    let ghost start = out@;
    proof {
        lemma_reports_empty(out@, *index);
    }
    let components = &doc.components;
    let mut i: usize = 0;
    while i < components.len()
        invariant
            i <= components@.len(),
            components == &doc.components,
            reports(out@, start, components_findings(*doc, components@.subrange(0, i as int)), *index),
        decreases components@.len() - i,
    {
        let ghost before = out@;
        proof {
            let next = components@.subrange(0, i + 1);
            assert(next.drop_last() =~= components@.subrange(0, i as int));
            assert(next.last() == components@[i as int]);
        }
        check_attributes(
            out,
            index,
            doc,
            components[i].0.as_str(),
            &components[i].1.attributes,
        );
        proof {
            lemma_reports_extend(
                start,
                before,
                out@,
                components_findings(*doc, components@.subrange(0, i as int)),
                attributes_findings(*doc, components@[i as int].0@, components@[i as int].1.attributes@),
                *index,
            );
        }
        i = i + 1;
    }
    assert(components@.subrange(0, components@.len() as int) =~= components@);
}

fn check_parent(
    out: &mut Vec<Diagnostic>,
    index: &SpanIndex,
    doc: &MachineDoc,
    name: &str,
    controller: &Controller,
)
    ensures
        reports(final(out)@, old(out)@, parent_finding(*doc, name@, *controller), *index),
{
    match &controller.transport.parent {
        None => {
            proof {
                lemma_reports_empty(out@, *index);
            }
        },
        Some(parent) => {
            let path = joined3("controllers.", name, ".transport.parent");
            match split_once(parent.as_str(), ".") {
                None => {
                    let message = joined3(
                        "'",
                        parent.as_str(),
                        "' must name a controller port as 'controller.port'",
                    );
                    report_finding(out, index, "E0503", message, path, None);
                },
                Some((owner, _)) => {
                    let message = joined3(
                        "transport parent references unknown controller '",
                        owner,
                        "'",
                    );
                    report_if(
                        out,
                        index,
                        !key_present(&doc.controllers, owner),
                        "E0502",
                        message,
                        path,
                    );
                },
            }
        },
    }
}

fn check_parents(out: &mut Vec<Diagnostic>, index: &SpanIndex, doc: &MachineDoc)
    ensures
        reports(final(out)@, old(out)@, parents_findings(*doc, doc.controllers@), *index),
{
    let ghost start = out@;
    proof {
        lemma_reports_empty(out@, *index);
    }
    let controllers = &doc.controllers;
    let mut i: usize = 0;
    while i < controllers.len()
        invariant
            i <= controllers@.len(),
            controllers == &doc.controllers,
            reports(out@, start, parents_findings(*doc, controllers@.subrange(0, i as int)), *index),
        decreases controllers@.len() - i,
    {
        let ghost before = out@;
        proof {
            let next = controllers@.subrange(0, i + 1);
            assert(next.drop_last() =~= controllers@.subrange(0, i as int));
            assert(next.last() == controllers@[i as int]);
        }
        check_parent(out, index, doc, controllers[i].0.as_str(), &controllers[i].1);
        proof {
            lemma_reports_extend(
                start,
                before,
                out@,
                parents_findings(*doc, controllers@.subrange(0, i as int)),
                parent_finding(*doc, controllers@[i as int].0@, controllers@[i as int].1),
                *index,
            );
        }
        i = i + 1;
    }
    assert(controllers@.subrange(0, controllers@.len() as int) =~= controllers@);
}

/// Appends a report for every finding of a deserialized manifest to
/// `out`, in the order of `manifest_findings`, each located through
/// `index`. `limit_problems[i]` is what the quantity reader said of
/// kinematics limit `i` (read with `expected_limit_dimension` of its
/// name): the error, or `None` when it reads.
pub fn validate(
    doc: &MachineDoc,
    index: &SpanIndex,
    limit_problems: &Vec<Option<QuantityError>>,
    out: &mut Vec<Diagnostic>,
)
    requires
        limit_problems@.len() == doc.kinematics.limits@.len(),
    ensures
        reports(final(out)@, old(out)@, manifest_findings(*doc, limit_problems@), *index),
{
    let ghost s0 = out@;
    let mut version_message = joined3(
        "api_version '",
        doc.api_version.as_str(),
        "' is not supported (expected '",
    );
    push_str(&mut version_message, API_VERSION);
    push_str(&mut version_message, "')");
    report_if(
        out,
        index,
        !str_eq(doc.api_version.as_str(), API_VERSION),
        "E0200",
        version_message,
        "api_version".to_owned(),
    );
    let ghost s1 = out@;
    let mut kind_message = joined3("kind '", doc.kind.as_str(), "' is not supported (expected '");
    push_str(&mut kind_message, KIND_MACHINE);
    push_str(&mut kind_message, "')");
    report_if(
        out,
        index,
        !str_eq(doc.kind.as_str(), KIND_MACHINE),
        "E0201",
        kind_message,
        "kind".to_owned(),
    );
    let ghost s2 = out@;
    report_if(
        out,
        index,
        doc.controllers.len() == 0,
        "E0202",
        "a machine needs at least one controller".to_owned(),
        "controllers".to_owned(),
    );
    let ghost s3 = out@;
    check_identifiers(out, index, "controllers", &doc.controllers);
    let ghost s4 = out@;
    check_identifiers(out, index, "components", &doc.components);
    let ghost s5 = out@;
    check_identifiers(out, index, "workflows", &doc.workflows);
    let ghost s6 = out@;
    check_packages(out, index, &doc.packages);
    let ghost s7 = out@;
    check_limits(out, index, &doc.kinematics.limits, limit_problems);
    let ghost s8 = out@;
    check_components(out, index, doc);
    let ghost s9 = out@;
    check_parents(out, index, doc);
    proof {
        let f0 = when(
            doc.api_version@ != API_VERSION@,
            finding_at(
                "E0200"@,
                "api_version '"@ + doc.api_version@ + "' is not supported (expected '"@
                    + API_VERSION@ + "')"@,
                "api_version"@,
            ),
        );
        let f1 = when(
            doc.kind@ != KIND_MACHINE@,
            finding_at(
                "E0201"@,
                "kind '"@ + doc.kind@ + "' is not supported (expected '"@ + KIND_MACHINE@ + "')"@,
                "kind"@,
            ),
        );
        let f2 = when(
            doc.controllers@.len() == 0,
            finding_at("E0202"@, "a machine needs at least one controller"@, "controllers"@),
        );
        let f3 = identifier_findings("controllers"@, keys_of(doc.controllers@));
        let f4 = identifier_findings("components"@, keys_of(doc.components@));
        let f5 = identifier_findings("workflows"@, keys_of(doc.workflows@));
        let f6 = package_findings(doc.packages@);
        let f7 = limit_findings(doc.kinematics.limits@, limit_problems@);
        let f8 = components_findings(*doc, doc.components@);
        let f9 = parents_findings(*doc, doc.controllers@);
        lemma_reports_extend(s0, s1, s2, f0, f1, *index);
        lemma_reports_extend(s0, s2, s3, f0 + f1, f2, *index);
        lemma_reports_extend(s0, s3, s4, f0 + f1 + f2, f3, *index);
        lemma_reports_extend(s0, s4, s5, f0 + f1 + f2 + f3, f4, *index);
        lemma_reports_extend(s0, s5, s6, f0 + f1 + f2 + f3 + f4, f5, *index);
        lemma_reports_extend(s0, s6, s7, f0 + f1 + f2 + f3 + f4 + f5, f6, *index);
        lemma_reports_extend(s0, s7, s8, f0 + f1 + f2 + f3 + f4 + f5 + f6, f7, *index);
        lemma_reports_extend(s0, s8, s9, f0 + f1 + f2 + f3 + f4 + f5 + f6 + f7, f8, *index);
        lemma_reports_extend(s0, s9, out@, f0 + f1 + f2 + f3 + f4 + f5 + f6 + f7 + f8, f9, *index);
    }
}

} // verus!
