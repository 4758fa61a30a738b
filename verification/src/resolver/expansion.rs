//! Graph expansion: every machine-class package in the dependency closure
//! contributes its template, in package order. The source always wins: a
//! template never overrides a component or a limit the source declares,
//! and each contribution or shadowing is reported so that the expanded
//! graph stays explainable.

use vstd::prelude::*;
use crate::flash::{compare_text, text_order};
use crate::package::machine::TemplateKinematics;
use crate::resolver::targets::{
    emit, emit_after, emitted, entry, find_entry, forward, lemma_emitted_forwarded,
    lemma_emitted_made, plain_error, Emission,
};
use crate::schema::{is_valid_identifier, valid_identifier, Component, Diagnostic, MachineDoc, Severity};
use crate::spans::{name_view, SourceSpan, SpanIndex};
use crate::text::{push_str, str_eq};

verus! {

/// What a machine-class package contributes: components (in id order)
/// and kinematics defaults.
pub struct Template {
    pub components: Vec<(String, Component)>,
    pub kinematics: Option<TemplateKinematics>,
}

/// A machine-class package of the dependency closure, as expansion reads
/// it.
pub struct MachineClass {
    /// `namespace/name`.
    pub path: String,
    /// The outcome of reading its machine payload: its template, if it has
    /// one, or the payload's diagnostics.
    pub template: Result<Option<Template>, Vec<Diagnostic>>,
    /// Where each key of its `package.yaml` stands, when that file could be
    /// read.
    pub spans: Option<SpanIndex>,
    /// Whether each of the template's kinematics limits reads as a
    /// quantity, in limit order.
    pub limit_readings: Vec<bool>,
}

/// The expanded graph, and where each expanded component and attribute
/// came from in its package's `package.yaml`, keyed by expanded path.
pub struct ExpandedGraph {
    pub doc: MachineDoc,
    pub sources: Vec<(String, SourceSpan)>,
}

/// The state of expansion: the components and limits so far, the source
/// spans recorded (expanded path, template path, the package's index), and
/// the findings.
pub struct Expansion {
    pub components: Seq<(String, Component)>,
    pub limits: Seq<(String, String)>,
    pub sources: Seq<(Seq<char>, Seq<char>, SpanIndex)>,
    pub findings: Seq<Emission>,
}

pub open spec fn info(code: Seq<char>, message: Seq<char>) -> Emission {
    Emission::Made { severity: Severity::Info, code, message, path: None, suggestion: None }
}

/// A keyed list in key order with `(key, value)` added at its place.
pub open spec fn insert_keyed<V>(entries: Seq<(String, V)>, key: String, value: V) -> Seq<(String, V)>
    decreases entries.len(),
{
    if entries.len() == 0 {
        seq![(key, value)]
    } else if text_order(entries.last().0@, key@) < 0 {
        entries.push((key, value))
    } else {
        insert_keyed(entries.drop_last(), key, value).push(entries.last())
    }
}

/// The index of the first entry with `key`.
pub open spec fn key_index(sources: Seq<(Seq<char>, Seq<char>, SpanIndex)>, key: Seq<char>) -> Option<int>
    decreases sources.len(),
{
    if sources.len() == 0 {
        None
    } else {
        match key_index(sources.drop_last(), key) {
            Some(i) => Some(i),
            None => if sources.last().0 == key {
                Some(sources.len() - 1)
            } else {
                None
            },
        }
    }
}

/// A source keyed by `key`: replacing the one already recorded under it,
/// otherwise added last.
pub open spec fn put_source(
    sources: Seq<(Seq<char>, Seq<char>, SpanIndex)>,
    key: Seq<char>,
    template_path: Seq<char>,
    index: SpanIndex,
) -> Seq<(Seq<char>, Seq<char>, SpanIndex)> {
    match key_index(sources, key) {
        Some(i) => sources.update(i, (key, template_path, index)),
        None => sources.push((key, template_path, index)),
    }
}

/// The source under `key` when the index records `template_path`.
pub open spec fn record(
    sources: Seq<(Seq<char>, Seq<char>, SpanIndex)>,
    key: Seq<char>,
    template_path: Seq<char>,
    index: SpanIndex,
) -> Seq<(Seq<char>, Seq<char>, SpanIndex)> {
    if index.ranges().contains_key(template_path) {
        put_source(sources, key, template_path, index)
    } else {
        sources
    }
}

/// The sources of a component's attributes.
pub open spec fn record_attributes(
    sources: Seq<(Seq<char>, Seq<char>, SpanIndex)>,
    expanded: Seq<char>,
    template: Seq<char>,
    attributes: Seq<(String, crate::schema::AttributeValue)>,
    index: SpanIndex,
) -> Seq<(Seq<char>, Seq<char>, SpanIndex)>
    decreases attributes.len(),
{
    if attributes.len() == 0 {
        sources
    } else {
        let a = attributes.last().0@;
        record(
            record_attributes(sources, expanded, template, attributes.drop_last(), index),
            expanded + "."@ + a,
            template + "."@ + a,
            index,
        )
    }
}

/// The sources of an expanded component: the component, then each of its
/// attributes.
pub open spec fn component_sources(
    sources: Seq<(Seq<char>, Seq<char>, SpanIndex)>,
    spans: Option<SpanIndex>,
    id: Seq<char>,
    component: Component,
) -> Seq<(Seq<char>, Seq<char>, SpanIndex)> {
    match spans {
        None => sources,
        Some(index) => {
            let template = "template.components."@ + id;
            let expanded = "components."@ + id;
            record_attributes(
                record(sources, expanded, template, index),
                expanded,
                template,
                component.attributes@,
                index,
            )
        },
    }
}

/// One template component: an invalid id is refused (E1131); an id already
/// in the graph is shadowed (I1132); otherwise it is added (I1133) with
/// its sources.
pub open spec fn add_component(
    st: Expansion,
    path: Seq<char>,
    spans: Option<SpanIndex>,
    id: String,
    component: Component,
) -> Expansion {
    if !is_valid_identifier(id@) {
        Expansion {
            findings: st.findings.push(
                plain_error(
                    "E1131"@,
                    "template component '"@ + id@ + "' from '"@ + path + "' is not a valid identifier"@,
                ),
            ),
            ..st
        }
    } else if entry(st.components, id@) is Some {
        Expansion {
            findings: st.findings.push(
                info(
                    "I1132"@,
                    "source component '"@ + id@ + "' shadows the template from '"@ + path + "'"@,
                ),
            ),
            ..st
        }
    } else {
        Expansion {
            components: insert_keyed(st.components, id, component),
            sources: component_sources(st.sources, spans, id@, component),
            findings: st.findings.push(
                info("I1133"@, "component '"@ + id@ + "' expanded from '"@ + path + "'"@),
            ),
            ..st
        }
    }
}

pub open spec fn add_components(
    st: Expansion,
    path: Seq<char>,
    spans: Option<SpanIndex>,
    components: Seq<(String, Component)>,
) -> Expansion
    decreases components.len(),
{
    if components.len() == 0 {
        st
    } else {
        add_component(
            add_components(st, path, spans, components.drop_last()),
            path,
            spans,
            components.last().0,
            components.last().1,
        )
    }
}

/// One template limit: only where the graph has none, refused (E1134)
/// when it does not read as a quantity, otherwise defaulted (I1133).
pub open spec fn add_limit(st: Expansion, path: Seq<char>, limit: String, value: String, reads: bool) -> Expansion {
    if entry(st.limits, limit@) is Some {
        st
    } else if !reads {
        Expansion {
            findings: st.findings.push(
                plain_error(
                    "E1134"@,
                    "template limit '"@ + limit@ + "' from '"@ + path + "': '"@ + value@
                        + "' is not a valid quantity"@,
                ),
            ),
            ..st
        }
    } else {
        Expansion {
            limits: insert_keyed(st.limits, limit, value),
            findings: st.findings.push(
                info("I1133"@, "kinematics limit '"@ + limit@ + "' defaulted from '"@ + path + "'"@),
            ),
            ..st
        }
    }
}

pub open spec fn add_limits(
    st: Expansion,
    path: Seq<char>,
    limits: Seq<(String, String)>,
    readings: Seq<bool>,
) -> Expansion
    decreases limits.len(),
{
    if limits.len() == 0 {
        st
    } else {
        add_limit(
            add_limits(st, path, limits.drop_last(), readings),
            path,
            limits.last().0,
            limits.last().1,
            readings[limits.len() - 1],
        )
    }
}

/// A template's kinematics: a warning when it assumes another kinematics
/// type than the source (E1130), then its default limits.
pub open spec fn add_kinematics(
    st: Expansion,
    path: Seq<char>,
    source_kind: Seq<char>,
    kinematics: TemplateKinematics,
    readings: Seq<bool>,
) -> Expansion {
    let warned = match kinematics.kind {
        Some(kind) => if kind@ != source_kind {
            Expansion {
                findings: st.findings.push(
                    Emission::Made {
                        severity: Severity::Warning,
                        code: "E1130"@,
                        message: "machine class '"@ + path + "' assumes "@ + kind@
                            + " kinematics but the source declares "@ + source_kind,
                        path: None,
                        suggestion: None,
                    },
                ),
                ..st
            }
        } else {
            st
        },
        None => st,
    };
    add_limits(warned, path, kinematics.limits@, readings)
}

/// One machine class: its payload's diagnostics, or its template's
/// components and kinematics.
pub open spec fn add_class(st: Expansion, source_kind: Seq<char>, class: MachineClass) -> Expansion {
    match class.template {
        Err(errors) => Expansion { findings: st.findings.push(Emission::Forwarded(errors@)), ..st },
        Ok(None) => st,
        Ok(Some(t)) => {
            let with_components = add_components(st, class.path@, class.spans, t.components@);
            match t.kinematics {
                None => with_components,
                Some(k) => add_kinematics(
                    with_components,
                    class.path@,
                    source_kind,
                    k,
                    class.limit_readings@,
                ),
            }
        },
    }
}

/// Expansion after the first `k` classes.
pub open spec fn expansion(doc: MachineDoc, classes: Seq<MachineClass>, k: nat) -> Expansion
    decreases k,
{
    if k == 0 || k > classes.len() {
        Expansion {
            components: doc.components@,
            limits: doc.kinematics.limits@,
            sources: seq![],
            findings: seq![],
        }
    } else {
        add_class(expansion(doc, classes, (k - 1) as nat), doc.kinematics.kind@, classes[k - 1])
    }
}

/// A class gives a reading for each limit of its template.
pub open spec fn readings_fit(class: MachineClass) -> bool {
    match class.template {
        Ok(Some(t)) => match t.kinematics {
            Some(k) => class.limit_readings@.len() == k.limits@.len(),
            None => true,
        },
        _ => true,
    }
}

/// The span recorded for `template_path` in `index`, under that path and
/// naming the index's document.
pub open spec fn span_from(s: SourceSpan, template_path: Seq<char>, index: SpanIndex) -> bool {
    &&& index.ranges().contains_key(template_path)
    &&& (s.start, s.end) == index.ranges()[template_path]
    &&& s.path@ == template_path
    &&& name_view(s.document) == index.document_name()
}

/// The recorded spans are the expected ones, key by key.
pub open spec fn sources_match(
    sources: Seq<(String, SourceSpan)>,
    expected: Seq<(Seq<char>, Seq<char>, SpanIndex)>,
) -> bool {
    &&& sources.len() == expected.len()
    &&& forall|i: int|
        0 <= i < sources.len() ==> (#[trigger] sources[i]).0@ == expected[i].0 && span_from(
            sources[i].1,
            expected[i].1,
            expected[i].2,
        )
}


fn insert_entry<V>(entries: &mut Vec<(String, V)>, key: String, value: V)
    ensures
        final(entries)@ == insert_keyed(old(entries)@, key, value),
{
    let ghost s = entries@;
    let mut pos = entries.len();
    assert(s.subrange(0, pos as int) =~= s);
    assert(s.subrange(pos as int, s.len() as int) =~= Seq::<(String, V)>::empty());
    while pos > 0 && compare_text(entries[pos - 1].0.as_str(), key.as_str()) >= 0
        invariant
            entries@ == s,
            pos <= s.len(),
            insert_keyed(s, key, value) == insert_keyed(s.subrange(0, pos as int), key, value) + s.subrange(
                pos as int,
                s.len() as int,
            ),
        decreases pos,
    {
        proof {
            let prefix = s.subrange(0, pos as int);
            assert(prefix.drop_last() =~= s.subrange(0, pos - 1));
            assert(prefix.last() == s[pos - 1]);
            assert(insert_keyed(s.subrange(0, pos - 1), key, value).push(s[pos - 1]) + s.subrange(
                pos as int,
                s.len() as int,
            ) =~= insert_keyed(s.subrange(0, pos - 1), key, value) + s.subrange(pos - 1, s.len() as int));
        }
        pos = pos - 1;
    }
    proof {
        let prefix = s.subrange(0, pos as int);
        if pos > 0 {
            assert(prefix.last() == s[pos - 1]);
            assert(insert_keyed(prefix, key, value) == prefix.push((key, value)));
        } else {
            assert(prefix.len() == 0);
            assert(insert_keyed(prefix, key, value) =~= prefix.push((key, value)));
        }
        assert(prefix.push((key, value)) + s.subrange(pos as int, s.len() as int) =~= s.insert(
            pos as int,
            (key, value),
        ));
    }
    entries.insert(pos, (key, value));
}

proof fn lemma_key_index(sources: Seq<(Seq<char>, Seq<char>, SpanIndex)>, key: Seq<char>, i: int)
    requires
        0 <= i <= sources.len(),
        forall|j: int| 0 <= j < i ==> (#[trigger] sources[j]).0 != key,
        i < sources.len() ==> sources[i].0 == key,
    ensures
        key_index(sources, key) == if i < sources.len() {
            Some(i)
        } else {
            None::<int>
        },
    decreases sources.len(),
{
    if sources.len() > 0 {
        let rest = sources.drop_last();
        if i < sources.len() - 1 {
            lemma_key_index(rest, key, i);
        } else {
            assert forall|j: int| 0 <= j < rest.len() implies (#[trigger] rest[j]).0 != key by {
                assert(rest[j] == sources[j]);
            }
            lemma_key_index(rest, key, rest.len() as int);
        }
    }
}

fn put_span(
    sources: &mut Vec<(String, SourceSpan)>,
    key: String,
    span: SourceSpan,
    Ghost(expected): Ghost<Seq<(Seq<char>, Seq<char>, SpanIndex)>>,
    Ghost(template_path): Ghost<Seq<char>>,
    Ghost(index): Ghost<SpanIndex>,
)
    requires
        sources_match(old(sources)@, expected),
        span_from(span, template_path, index),
    ensures
        sources_match(final(sources)@, put_source(expected, key@, template_path, index)),
{
    let ghost before = sources@;
    let mut i: usize = 0;
    while i < sources.len()
        invariant
            i <= sources@.len(),
            sources@ == before,
            sources_match(sources@, expected),
            span_from(span, template_path, index),
            forall|j: int| 0 <= j < i ==> (#[trigger] expected[j]).0 != key@,
        decreases sources@.len() - i,
    {
        if str_eq(sources[i].0.as_str(), key.as_str()) {
            proof {
                assert(before[i as int].0@ == expected[i as int].0);
                lemma_key_index(expected, key@, i as int);
            }
            let ghost k = key@;
            sources.set(i, (key, span));
            proof {
                let next = put_source(expected, k, template_path, index);
                assert forall|j: int| 0 <= j < sources@.len() implies (#[trigger] sources@[j]).0@ == next[j].0
                    && span_from(sources@[j].1, next[j].1, next[j].2) by {
                    if j != i {
                        assert(sources@[j] == before[j]);
                        assert(next[j] == expected[j]);
                        assert(before[j].0@ == expected[j].0);
                    } else {
                        assert(next[j] == (k, template_path, index));
                    }
                }
            }
            return;
        }
        i = i + 1;
    }
    proof {
        lemma_key_index(expected, key@, expected.len() as int);
    }
    let ghost k = key@;
    let ghost before = sources@;
    sources.push((key, span));
    proof {
        let next = put_source(expected, k, template_path, index);
        assert forall|j: int| 0 <= j < sources@.len() implies (#[trigger] sources@[j]).0@ == next[j].0
            && span_from(sources@[j].1, next[j].1, next[j].2) by {
            if j < before.len() {
                assert(sources@[j] == before[j]);
            }
        }
    }
}

fn joined_path(head: &str, id: &str) -> (path: String)
    ensures
        path@ == head@ + id@,
{
    let mut path = head.to_owned();
    push_str(&mut path, id);
    path
}

fn dotted(head: &String, id: &str) -> (path: String)
    ensures
        path@ == head@ + "."@ + id@,
{
    let mut path = head.clone();
    push_str(&mut path, ".");
    push_str(&mut path, id);
    path
}

fn record_sources(
    sources: &mut Vec<(String, SourceSpan)>,
    spans: &Option<SpanIndex>,
    id: &str,
    component: &Component,
    Ghost(expected): Ghost<Seq<(Seq<char>, Seq<char>, SpanIndex)>>,
)
    requires
        sources_match(old(sources)@, expected),
    ensures
        sources_match(final(sources)@, component_sources(expected, *spans, id@, *component)),
{
    let index = match spans {
        Some(index) => index,
        None => return,
    };
    let template = joined_path("template.components.", id);
    let expanded = joined_path("components.", id);
    let ghost first = record(expected, expanded@, template@, *index);
    match index.get_span(template.as_str()) {
        Some(span) => {
            put_span(sources, expanded.clone(), span, Ghost(expected), Ghost(template@), Ghost(*index));
        },
        None => {},
    }
    let mut i: usize = 0;
    while i < component.attributes.len()
        invariant
            i <= component.attributes@.len(),
            sources_match(
                sources@,
                record_attributes(first, expanded@, template@, component.attributes@.subrange(0, i as int), *index),
            ),
        decreases component.attributes@.len() - i,
    {
        let attribute = component.attributes[i].0.as_str();
        let ghost done = record_attributes(
            first,
            expanded@,
            template@,
            component.attributes@.subrange(0, i as int),
            *index,
        );
        let attribute_template = dotted(&template, attribute);
        let attribute_expanded = dotted(&expanded, attribute);
        match index.get_span(attribute_template.as_str()) {
            Some(span) => {
                put_span(sources, attribute_expanded, span, Ghost(done), Ghost(attribute_template@), Ghost(*index));
            },
            None => {},
        }
        proof {
            let next = component.attributes@.subrange(0, i + 1);
            assert(next.drop_last() =~= component.attributes@.subrange(0, i as int));
            assert(next.last() == component.attributes@[i as int]);
        }
        i = i + 1;
    }
    assert(component.attributes@.subrange(0, component.attributes@.len() as int) =~= component.attributes@);
}


fn expand_component(
    components: &mut Vec<(String, Component)>,
    sources: &mut Vec<(String, SourceSpan)>,
    out: &mut Vec<Diagnostic>,
    path: &str,
    spans: &Option<SpanIndex>,
    id: String,
    component: Component,
    Ghost(st): Ghost<Expansion>,
)
    requires
        old(components)@ == st.components,
        sources_match(old(sources)@, st.sources),
        emitted(old(out)@, st.findings),
    ensures
        final(components)@ == add_component(st, path@, *spans, id, component).components,
        sources_match(final(sources)@, add_component(st, path@, *spans, id, component).sources),
        emitted(final(out)@, add_component(st, path@, *spans, id, component).findings),
{
    let ghost next = add_component(st, path@, *spans, id, component);
    if !valid_identifier(id.as_str()) {
        let mut message = "template component '".to_owned();
        push_str(&mut message, id.as_str());
        push_str(&mut message, "' from '");
        push_str(&mut message, path);
        push_str(&mut message, "' is not a valid identifier");
        emit_after(out, Ghost(st.findings), Severity::Error, "E1131", message, None);
        return;
    }
    if find_entry(components, id.as_str()).is_some() {
        let mut message = "source component '".to_owned();
        push_str(&mut message, id.as_str());
        push_str(&mut message, "' shadows the template from '");
        push_str(&mut message, path);
        push_str(&mut message, "'");
        emit_after(out, Ghost(st.findings), Severity::Info, "I1132", message, None);
        return;
    }
    let mut message = "component '".to_owned();
    push_str(&mut message, id.as_str());
    push_str(&mut message, "' expanded from '");
    push_str(&mut message, path);
    push_str(&mut message, "'");
    emit_after(out, Ghost(st.findings), Severity::Info, "I1133", message, None);
    record_sources(sources, spans, id.as_str(), &component, Ghost(st.sources));
    insert_entry(components, id, component);
}

fn expand_limit(
    limits: &mut Vec<(String, String)>,
    out: &mut Vec<Diagnostic>,
    path: &str,
    limit: String,
    value: String,
    reads: bool,
    Ghost(st): Ghost<Expansion>,
)
    requires
        old(limits)@ == st.limits,
        emitted(old(out)@, st.findings),
    ensures
        final(limits)@ == add_limit(st, path@, limit, value, reads).limits,
        emitted(final(out)@, add_limit(st, path@, limit, value, reads).findings),
{
    if find_entry(limits, limit.as_str()).is_some() {
        return;
    }
    if !reads {
        let mut message = "template limit '".to_owned();
        push_str(&mut message, limit.as_str());
        push_str(&mut message, "' from '");
        push_str(&mut message, path);
        push_str(&mut message, "': '");
        push_str(&mut message, value.as_str());
        push_str(&mut message, "' is not a valid quantity");
        emit_after(out, Ghost(st.findings), Severity::Error, "E1134", message, None);
        return;
    }
    let mut message = "kinematics limit '".to_owned();
    push_str(&mut message, limit.as_str());
    push_str(&mut message, "' defaulted from '");
    push_str(&mut message, path);
    push_str(&mut message, "'");
    emit_after(out, Ghost(st.findings), Severity::Info, "I1133", message, None);
    insert_entry(limits, limit, value);
}


proof fn lemma_limits_keep_components(st: Expansion, path: Seq<char>, limits: Seq<(String, String)>, readings: Seq<bool>)
    ensures
        add_limits(st, path, limits, readings).components == st.components,
        add_limits(st, path, limits, readings).sources == st.sources,
    decreases limits.len(),
{
    if limits.len() > 0 {
        lemma_limits_keep_components(st, path, limits.drop_last(), readings);
    }
}

fn expand_class(
    components: &mut Vec<(String, Component)>,
    limits: &mut Vec<(String, String)>,
    sources: &mut Vec<(String, SourceSpan)>,
    out: &mut Vec<Diagnostic>,
    source_kind: &str,
    class: MachineClass,
    Ghost(st): Ghost<Expansion>,
)
    requires
        old(components)@ == st.components,
        old(limits)@ == st.limits,
        sources_match(old(sources)@, st.sources),
        emitted(old(out)@, st.findings),
        readings_fit(class),
    ensures
        final(components)@ == add_class(st, source_kind@, class).components,
        final(limits)@ == add_class(st, source_kind@, class).limits,
        sources_match(final(sources)@, add_class(st, source_kind@, class).sources),
        emitted(final(out)@, add_class(st, source_kind@, class).findings),
{
    let ghost whole = class;
    let MachineClass { path, template, spans, limit_readings } = class;
    let t = match template {
        Err(errors) => {
            let ghost passed = seq![Emission::Forwarded(errors@)];
            proof {
                lemma_emitted_forwarded(errors@);
            }
            forward(out, errors, Ghost(st.findings), Ghost(passed));
            assert(st.findings + passed =~= st.findings.push(Emission::Forwarded(whole.template->Err_0@)));
            return;
        },
        Ok(None) => return,
        Ok(Some(t)) => t,
    };
    let ghost all = t.components@;
    let Template { components: mut pending, kinematics } = t;
    let mut j: usize = 0;
    let n = pending.len();
    while j < n
        invariant
            n == all.len(),
            j <= n,
            pending@ == all.subrange(j as int, n as int),
            components@ == add_components(st, path@, spans, all.subrange(0, j as int)).components,
            limits@ == add_components(st, path@, spans, all.subrange(0, j as int)).limits,
            sources_match(sources@, add_components(st, path@, spans, all.subrange(0, j as int)).sources),
            emitted(out@, add_components(st, path@, spans, all.subrange(0, j as int)).findings),
        decreases n - j,
    {
        let (id, component) = pending.remove(0);
        assert(pending@ =~= all.subrange(j + 1, n as int));
        let ghost prior = add_components(st, path@, spans, all.subrange(0, j as int));
        proof {
            let next = all.subrange(0, j + 1);
            assert(next.drop_last() =~= all.subrange(0, j as int));
            assert(next.last() == all[j as int]);
            assert(all[j as int] == (id, component));
        }
        expand_component(components, sources, out, path.as_str(), &spans, id, component, Ghost(prior));
        j = j + 1;
    }
    assert(all.subrange(0, n as int) =~= all);
    let ghost mid = add_components(st, path@, spans, all);
    let k = match kinematics {
        None => return,
        Some(k) => k,
    };
    let ghost kk = k;
    let TemplateKinematics { kind, limits: defaults } = k;
    let ghost warned: Expansion = match kk.kind {
        Some(assumed) => if assumed@ != source_kind@ {
            Expansion {
                findings: mid.findings.push(
                    Emission::Made {
                        severity: Severity::Warning,
                        code: "E1130"@,
                        message: "machine class '"@ + path@ + "' assumes "@ + assumed@
                            + " kinematics but the source declares "@ + source_kind@,
                        path: None,
                        suggestion: None,
                    },
                ),
                ..mid
            }
        } else {
            mid
        },
        None => mid,
    };
    match &kind {
        Some(kind) => {
            if !str_eq(kind.as_str(), source_kind) {
                let mut message = "machine class '".to_owned();
                push_str(&mut message, path.as_str());
                push_str(&mut message, "' assumes ");
                push_str(&mut message, kind.as_str());
                push_str(&mut message, " kinematics but the source declares ");
                push_str(&mut message, source_kind);
                emit_after(out, Ghost(mid.findings), Severity::Warning, "E1130", message, None);
            }
        },
        None => {},
    }
    let ghost given = defaults@;
    let mut remaining = defaults;
    let m = remaining.len();
    let mut i: usize = 0;
    while i < m
        invariant
            m == given.len(),
            given.len() == limit_readings@.len(),
            i <= m,
            remaining@ == given.subrange(i as int, m as int),
            components@ == warned.components,
            sources_match(sources@, warned.sources),
            limits@ == add_limits(warned, path@, given.subrange(0, i as int), limit_readings@).limits,
            emitted(out@, add_limits(warned, path@, given.subrange(0, i as int), limit_readings@).findings),
        decreases m - i,
    {
        let (limit, value) = remaining.remove(0);
        assert(remaining@ =~= given.subrange(i + 1, m as int));
        let ghost prior = add_limits(warned, path@, given.subrange(0, i as int), limit_readings@);
        proof {
            let next = given.subrange(0, i + 1);
            assert(next.drop_last() =~= given.subrange(0, i as int));
            assert(next.last() == given[i as int]);
            assert(given[i as int] == (limit, value));
        }
        let reads = limit_readings[i];
        expand_limit(limits, out, path.as_str(), limit, value, reads, Ghost(prior));
        proof {
            assert(add_limits(warned, path@, given.subrange(0, i + 1), limit_readings@) == add_limit(
                prior,
                path@,
                given[i as int].0,
                given[i as int].1,
                limit_readings@[i as int],
            ));
        }
        i = i + 1;
    }
    assert(given.subrange(0, m as int) =~= given);
    proof {
        lemma_limits_keep_components(warned, path@, given, limit_readings@);
    }
}

/// Expand the source graph with each machine class's template, in the
/// given (package) order. The expanded graph is built from the source
/// graph it consumes.
pub fn expand(doc: MachineDoc, classes: Vec<MachineClass>, diagnostics: &mut Vec<Diagnostic>) -> (expanded:
    ExpandedGraph)
    requires
        forall|i: int| 0 <= i < classes@.len() ==> readings_fit(#[trigger] classes@[i]),
    ensures
        expanded.doc.components@ == expansion(doc, classes@, classes@.len()).components,
        expanded.doc.kinematics.limits@ == expansion(doc, classes@, classes@.len()).limits,
        expanded.doc.kinematics.kind == doc.kinematics.kind,
        expanded.doc.api_version == doc.api_version,
        expanded.doc.kind == doc.kind,
        expanded.doc.metadata == doc.metadata,
        expanded.doc.packages == doc.packages,
        expanded.doc.controllers == doc.controllers,
        expanded.doc.safety == doc.safety,
        expanded.doc.workflows == doc.workflows,
        expanded.doc.calibration == doc.calibration,
        sources_match(expanded.sources@, expansion(doc, classes@, classes@.len()).sources),
        final(diagnostics)@.subrange(0, old(diagnostics)@.len() as int) == old(diagnostics)@,
        emitted(
            final(diagnostics)@.subrange(old(diagnostics)@.len() as int, final(diagnostics)@.len() as int),
            expansion(doc, classes@, classes@.len()).findings,
        ),
{
    let ghost source = doc;
    let ghost all = classes@;
    let MachineDoc {
        api_version,
        kind,
        metadata,
        packages,
        controllers,
        components: mut components,
        kinematics,
        safety,
        workflows,
        calibration,
    } = doc;
    let crate::schema::Kinematics { kind: kinematics_kind, limits: mut limits } = kinematics;
    let mut sources: Vec<(String, SourceSpan)> = Vec::new();
    let mut out: Vec<Diagnostic> = Vec::new();
    let mut pending = classes;
    let n = pending.len();
    let mut i: usize = 0;
    while i < n
        invariant
            n == all.len(),
            i <= n,
            forall|k: int| 0 <= k < all.len() ==> readings_fit(#[trigger] all[k]),
            pending@ == all.subrange(i as int, n as int),
            kinematics_kind == source.kinematics.kind,
            components@ == expansion(source, all, i as nat).components,
            limits@ == expansion(source, all, i as nat).limits,
            sources_match(sources@, expansion(source, all, i as nat).sources),
            emitted(out@, expansion(source, all, i as nat).findings),
        decreases n - i,
    {
        let class = pending.remove(0);
        assert(pending@ =~= all.subrange(i + 1, n as int));
        assert(class == all[i as int]);
        expand_class(
            &mut components,
            &mut limits,
            &mut sources,
            &mut out,
            kinematics_kind.as_str(),
            class,
            Ghost(expansion(source, all, i as nat)),
        );
        i = i + 1;
    }
    let ghost before = diagnostics@;
    let ghost added = out@;
    diagnostics.append(&mut out);
    assert(diagnostics@.subrange(0, before.len() as int) =~= before);
    assert(diagnostics@.subrange(before.len() as int, diagnostics@.len() as int) =~= added);
    ExpandedGraph {
        doc: MachineDoc {
            api_version,
            kind,
            metadata,
            packages,
            controllers,
            components,
            kinematics: crate::schema::Kinematics { kind: kinematics_kind, limits },
            safety,
            workflows,
            calibration,
        },
        sources,
    }
}


// ---------------------------------------------------------------------------
// The source wins
// ---------------------------------------------------------------------------

proof fn lemma_entry_drop_last<V>(entries: Seq<(String, V)>, id: Seq<char>)
    requires
        entries.len() > 0,
    ensures
        entry(entries, id) == match entry(entries.drop_last(), id) {
            Some(v) => Some(v),
            None => if entries.last().0@ == id {
                Some(entries.last().1)
            } else {
                None
            },
        },
    decreases entries.len(),
{
    if entries.len() == 1 {
        assert(entries.last() == entries[0]);
        assert(entries.drop_first().len() == 0);
        assert(entries.drop_last().len() == 0);
    } else {
        assert(entries.drop_first().drop_last() =~= entries.drop_last().drop_first());
        assert(entries.drop_last()[0] == entries[0]);
        assert(entries.drop_first().last() == entries.last());
        lemma_entry_drop_last(entries.drop_first(), id);
    }
}

proof fn lemma_entry_push<V>(entries: Seq<(String, V)>, item: (String, V), id: Seq<char>)
    ensures
        entry(entries.push(item), id) == match entry(entries, id) {
            Some(v) => Some(v),
            None => if item.0@ == id {
                Some(item.1)
            } else {
                None
            },
        },
{
    assert(entries.push(item).drop_last() =~= entries);
    lemma_entry_drop_last(entries.push(item), id);
}

proof fn lemma_insert_keeps_entries<V>(entries: Seq<(String, V)>, key: String, value: V, id: Seq<char>)
    requires
        entry(entries, key@) is None,
        id != key@,
    ensures
        entry(insert_keyed(entries, key, value), id) == entry(entries, id),
    decreases entries.len(),
{
    if entries.len() == 0 {
        assert(seq![(key, value)] =~= Seq::<(String, V)>::empty().push((key, value)));
        lemma_entry_push(Seq::<(String, V)>::empty(), (key, value), id);
    } else if text_order(entries.last().0@, key@) < 0 {
        lemma_entry_push(entries, (key, value), id);
    } else {
        let rest = entries.drop_last();
        lemma_entry_drop_last(entries, id);
        lemma_entry_drop_last(entries, key@);
        lemma_insert_keeps_entries(rest, key, value, id);
        lemma_entry_push(insert_keyed(rest, key, value), entries.last(), id);
    }
}

proof fn lemma_components_keep(
    st: Expansion,
    path: Seq<char>,
    spans: Option<SpanIndex>,
    components: Seq<(String, Component)>,
    id: Seq<char>,
)
    requires
        entry(st.components, id) is Some,
    ensures
        entry(add_components(st, path, spans, components).components, id) == entry(st.components, id),
    decreases components.len(),
{
    if components.len() > 0 {
        let before = add_components(st, path, spans, components.drop_last());
        lemma_components_keep(st, path, spans, components.drop_last(), id);
        let (key, c) = components.last();
        if is_valid_identifier(key@) && entry(before.components, key@) is None {
            assert(id != key@);
            lemma_insert_keeps_entries(before.components, key, c, id);
        }
    }
}

proof fn lemma_limits_keep(st: Expansion, path: Seq<char>, limits: Seq<(String, String)>, readings: Seq<bool>, id: Seq<char>)
    requires
        entry(st.limits, id) is Some,
    ensures
        entry(add_limits(st, path, limits, readings).limits, id) == entry(st.limits, id),
    decreases limits.len(),
{
    if limits.len() > 0 {
        let before = add_limits(st, path, limits.drop_last(), readings);
        lemma_limits_keep(st, path, limits.drop_last(), readings, id);
        let (key, value) = limits.last();
        if entry(before.limits, key@) is None {
            assert(id != key@);
            lemma_insert_keeps_entries(before.limits, key, value, id);
        }
    }
}

/// The source wins: expansion keeps every component and every kinematics
/// limit the source graph declares exactly as the source declares it.
pub proof fn source_declarations_win(doc: MachineDoc, classes: Seq<MachineClass>, k: nat, id: Seq<char>)
    ensures
        entry(doc.components@, id) is Some ==> entry(expansion(doc, classes, k).components, id)
            == entry(doc.components@, id),
        entry(doc.kinematics.limits@, id) is Some ==> entry(expansion(doc, classes, k).limits, id)
            == entry(doc.kinematics.limits@, id),
    decreases k,
{
    if k > 0 && k <= classes.len() {
        source_declarations_win(doc, classes, (k - 1) as nat, id);
        let st = expansion(doc, classes, (k - 1) as nat);
        let class = classes[k - 1];
        match class.template {
            Ok(Some(t)) => {
                if entry(st.components, id) is Some {
                    lemma_components_keep(st, class.path@, class.spans, t.components@, id);
                }
                let mid = add_components(st, class.path@, class.spans, t.components@);
                lemma_limits_unchanged_by_components(st, class.path@, class.spans, t.components@);
                match t.kinematics {
                    Some(kk) => {
                        let warned = match kk.kind {
                            Some(assumed) => if assumed@ != doc.kinematics.kind@ {
                                Expansion {
                                    findings: mid.findings.push(
                                        Emission::Made {
                                            severity: Severity::Warning,
                                            code: "E1130"@,
                                            message: "machine class '"@ + class.path@ + "' assumes "@
                                                + assumed@ + " kinematics but the source declares "@
                                                + doc.kinematics.kind@,
                                            path: None,
                                            suggestion: None,
                                        },
                                    ),
                                    ..mid
                                }
                            } else {
                                mid
                            },
                            None => mid,
                        };
                        lemma_limits_keep_components(warned, class.path@, kk.limits@, class.limit_readings@);
                        if entry(warned.limits, id) is Some {
                            lemma_limits_keep(warned, class.path@, kk.limits@, class.limit_readings@, id);
                        }
                    },
                    None => {},
                }
            },
            _ => {},
        }
    }
}

proof fn lemma_limits_unchanged_by_components(
    st: Expansion,
    path: Seq<char>,
    spans: Option<SpanIndex>,
    components: Seq<(String, Component)>,
)
    ensures
        add_components(st, path, spans, components).limits == st.limits,
    decreases components.len(),
{
    if components.len() > 0 {
        lemma_limits_unchanged_by_components(st, path, spans, components.drop_last());
    }
}

} // verus!
