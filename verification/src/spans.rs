//! Exact source ranges for dotted document paths.
//!
//! A walk over the YAML parser's marked events builds an index from every
//! key and item path (`kinematics.limits.max_velocity`, `packages[0]`) to
//! the 1-based positions where it starts and ends. A path with no entry
//! can be located at its nearest recorded ancestor.

use vstd::prelude::*;
use crate::text::{chars_of, decimal, has_prefix, push_char, push_decimal, push_str, str_eq, string_views};

verus! {

/// The dotted form of a document path: segments joined with `.`, except
/// that an index segment (`[0]`) and the first non-empty text attach
/// directly.
pub open spec fn joined_path(path: Seq<Seq<char>>) -> Seq<char>
    decreases path.len(),
{
    if path.len() == 0 {
        seq![]
    } else {
        let out = joined_path(path.drop_last());
        let seg = path.last();
        if has_prefix(seg, seq!['[']) || out.len() == 0 {
            out + seg
        } else {
            out + seq!['.'] + seg
        }
    }
}

/// The dotted form of a document path.
pub fn join(path: &Vec<String>) -> (out: String)
    ensures
        out@ == joined_path(string_views(path@)),
{
    let mut out = String::new();
    let mut open = String::new();
    crate::text::push_char(&mut open, '[');
    assert(open@ =~= seq!['[']);
    let mut i: usize = 0;
    while i < path.len()
        invariant
            open@ == seq!['['],
            i <= path@.len(),
            out@ == joined_path(string_views(path@.subrange(0, i as int))),
        decreases path@.len() - i,
    {
        proof {
            let next = string_views(path@.subrange(0, i + 1));
            assert(next.drop_last() =~= string_views(path@.subrange(0, i as int)));
            assert(next.last() == path@[i as int]@);
        }
        let seg = path[i].as_str();
        if crate::text::starts_with(seg, open.as_str()) || out.as_str().unicode_len() == 0 {
            push_str(&mut out, seg);
        } else {
            crate::text::push_char(&mut out, '.');
            push_str(&mut out, seg);
        }
        proof {
            let next = string_views(path@.subrange(0, i + 1));
            assert(out@ =~= joined_path(next));
        }
        i = i + 1;
    }
    assert(path@.subrange(0, path@.len() as int) =~= path@);
    out
}

/// Scanning a quoted scalar from position `i`: in a double-quoted scalar a
/// backslash escapes the next character; in a single-quoted one a doubled
/// quote stands for one. The width runs through the closing quote, or to
/// the end when it is missing.
pub open spec fn quote_scan(tail: Seq<char>, quote: char, i: int, escaped: bool) -> int
    decreases tail.len() - i,
{
    if i < 0 || i >= tail.len() {
        tail.len() as int
    } else {
        let c = tail[i];
        if quote == '"' {
            if c == quote && !escaped {
                i + 1
            } else {
                quote_scan(tail, quote, i + 1, c == '\\' && !escaped)
            }
        } else if c == quote {
            if i + 1 < tail.len() && tail[i + 1] == quote {
                quote_scan(tail, quote, i + 2, escaped)
            } else {
                i + 1
            }
        } else {
            quote_scan(tail, quote, i + 1, escaped)
        }
    }
}

/// The width of a quoted scalar that starts with its opening quote.
pub fn quoted_width(tail: &[char], quote: char) -> (width: usize)
    ensures
        width == quote_scan(tail@, quote, 1, false),
{
    let mut escaped = false;
    let mut i: usize = 1;
    while i < tail.len()
        invariant
            1 <= i,
            quote_scan(tail@, quote, 1, false) == quote_scan(tail@, quote, i as int, escaped),
        decreases tail@.len() - i,
    {
        let c = tail[i];
        if quote == '"' {
            if c == quote && !escaped {
                return i + 1;
            }
            escaped = c == '\\' && !escaped;
        } else if c == quote {
            if i + 1 < tail.len() && tail[i + 1] == quote {
                i = i + 1;
            } else {
                return i + 1;
            }
        }
        i = i + 1;
    }
    tail.len()
}

// ---------------------------------------------------------------------------
// Positions and spans
// ---------------------------------------------------------------------------

/// A 1-based line and column.
#[derive(Debug, Clone, Copy, PartialEq, Eq, Structural)]
pub struct SourcePosition {
    pub line: usize,
    pub column: usize,
}

impl SourcePosition {
    pub fn new(line: usize, column: usize) -> (position: Self)
        ensures
            position.line == line,
            position.column == column,
    {
        SourcePosition { line, column }
    }
}

/// The range a document path occupies, and the document it was found in.
#[derive(Debug, Clone, PartialEq, Eq)]
pub struct SourceSpan {
    pub path: String,
    pub start: SourcePosition,
    pub end: SourcePosition,
    pub document: Option<String>,
}

impl SourceSpan {
    /// A span of `path` that names no document.
    pub fn new(path: String, start: SourcePosition, end: SourcePosition) -> (span: Self)
        ensures
            span.path == path,
            span.start == start,
            span.end == end,
            span.document is None,
    {
        SourceSpan { path, start, end, document: None }
    }
}

// ---------------------------------------------------------------------------
// Lines
// ---------------------------------------------------------------------------

/// A line without the `\r` of a `\r\n` ending.
pub open spec fn without_cr(line: Seq<char>) -> Seq<char> {
    if line.len() > 0 && line.last() == '\r' {
        line.drop_last()
    } else {
        line
    }
}

/// The finished lines and the current, unfinished one after reading `s`.
pub open spec fn lines_so_far(s: Seq<char>) -> (Seq<Seq<char>>, Seq<char>)
    decreases s.len(),
{
    if s.len() == 0 {
        (seq![], seq![])
    } else {
        let (done, current) = lines_so_far(s.drop_last());
        if s.last() == '\n' {
            (done.push(without_cr(current)), seq![])
        } else {
            (done, current.push(s.last()))
        }
    }
}

/// The lines of a text as `str::lines` gives them: split after each `\n`,
/// with the `\n` and a `\r` just before it removed; text after the last
/// `\n` is a line when it is not empty.
pub open spec fn text_lines(s: Seq<char>) -> Seq<Seq<char>> {
    let (done, current) = lines_so_far(s);
    if current.len() > 0 {
        done.push(current)
    } else {
        done
    }
}

pub open spec fn char_views(lines: Seq<Vec<char>>) -> Seq<Seq<char>> {
    lines.map_values(|l: Vec<char>| l@)
}

/// The lines of `text`, as characters.
pub fn split_lines(text: &str) -> (lines: Vec<Vec<char>>)
    ensures
        char_views(lines@) == text_lines(text@),
{
    let chars = chars_of(text);
    let mut done: Vec<Vec<char>> = Vec::new();
    let mut current: Vec<char> = Vec::new();
    let mut i: usize = 0;
    while i < chars.len()
        invariant
            chars@ == text@,
            i <= chars@.len(),
            (char_views(done@), current@) == lines_so_far(chars@.subrange(0, i as int)),
        decreases chars@.len() - i,
    {
        let c = chars[i];
        proof {
            assert(chars@.subrange(0, i + 1).drop_last() =~= chars@.subrange(0, i as int));
        }
        if c == '\n' {
            if current.len() > 0 && current[current.len() - 1] == '\r' {
                current.pop();
            }
            let finished = current;
            done.push(finished);
            current = Vec::new();
            assert(char_views(done@) =~= lines_so_far(chars@.subrange(0, i + 1)).0);
            assert(current@ =~= lines_so_far(chars@.subrange(0, i + 1)).1);
        } else {
            current.push(c);
        }
        i = i + 1;
    }
    assert(chars@.subrange(0, chars@.len() as int) =~= chars@);
    if current.len() > 0 {
        done.push(current);
        assert(char_views(done@) =~= text_lines(text@));
    }
    done
}

// ---------------------------------------------------------------------------
// Scalar ranges
// ---------------------------------------------------------------------------

/// The characters of `line` from `column` on.
pub open spec fn tail_from(line: Seq<char>, column: int) -> Seq<char> {
    if 0 <= column < line.len() {
        line.subrange(column, line.len() as int)
    } else {
        seq![]
    }
}

/// How many columns a scalar starting at `line`/`column` (0-based column)
/// occupies: through the closing quote of a quoted scalar, otherwise the
/// length of its value; at least one.
pub open spec fn scalar_width(lines: Seq<Seq<char>>, value: Seq<char>, line: usize, column: usize) -> usize {
    let index = line.saturating_sub(1);
    let width = if index < lines.len() {
        let tail = tail_from(lines[index as int], column as int);
        if tail.len() > 0 && (tail[0] == '\'' || tail[0] == '"') {
            quote_scan(tail, tail[0], 1, false) as usize
        } else {
            value.len() as usize
        }
    } else {
        value.len() as usize
    };
    if width < 1 {
        1
    } else {
        width
    }
}

/// The start and end of a scalar at `line`/`column` (0-based column).
pub open spec fn scalar_range(lines: Seq<Seq<char>>, value: Seq<char>, line: usize, column: usize) -> (
    SourcePosition,
    SourcePosition,
) {
    let start = column.saturating_add(1);
    (
        SourcePosition { line, column: start },
        SourcePosition {
            line,
            column: start.saturating_add(scalar_width(lines, value, line, column)),
        },
    )
}

proof fn lemma_quote_scan_bound(tail: Seq<char>, quote: char, i: int, escaped: bool)
    ensures
        quote_scan(tail, quote, i, escaped) <= tail.len(),
        0 <= quote_scan(tail, quote, i, escaped),
    decreases tail.len() - i,
{
    if 0 <= i < tail.len() {
        let c = tail[i];
        if quote == '"' {
            if !(c == quote && !escaped) {
                lemma_quote_scan_bound(tail, quote, i + 1, c == '\\' && !escaped);
            }
        } else if c == quote {
            if i + 1 < tail.len() && tail[i + 1] == quote {
                lemma_quote_scan_bound(tail, quote, i + 2, escaped);
            }
        } else {
            lemma_quote_scan_bound(tail, quote, i + 1, escaped);
        }
    }
}

fn scalar_range_of(lines: &Vec<Vec<char>>, value: &str, line: usize, column: usize) -> (range: (
    SourcePosition,
    SourcePosition,
))
    ensures
        range == scalar_range(char_views(lines@), value@, line, column),
{
    let ghost views = char_views(lines@);
    let index = line.saturating_sub(1);
    let mut width: usize = value.unicode_len();
    if index < lines.len() {
        let text = &lines[index];
        assert(text@ == views[index as int]);
        let mut tail: Vec<char> = Vec::new();
        let mut k: usize = column;
        while k < text.len()
            invariant
                column <= k,
                k <= text@.len() || column >= text@.len(),
                column < text@.len() ==> tail@ == text@.subrange(column as int, k as int),
                column >= text@.len() ==> tail@.len() == 0,
            decreases text@.len() - k,
        {
            tail.push(text[k]);
            assert(tail@ =~= text@.subrange(column as int, k + 1));
            k = k + 1;
        }
        if column < text.len() {
            assert(tail@ =~= text@.subrange(column as int, text@.len() as int));
        }
        assert(tail@ =~= tail_from(views[index as int], column as int));
        if tail.len() > 0 && (tail[0] == '\'' || tail[0] == '"') {
            proof {
                lemma_quote_scan_bound(tail@, tail@[0], 1, false);
            }
            width = quoted_width(tail.as_slice(), tail[0]);
        }
    }
    if width < 1 {
        width = 1;
    }
    let start = column.saturating_add(1);
    (SourcePosition { line, column: start }, SourcePosition { line, column: start.saturating_add(width) })
}

// ---------------------------------------------------------------------------
// The index
// ---------------------------------------------------------------------------

/// Every path occurs once and every range starts at column 1 or later.
pub open spec fn spans_wf(spans: Seq<SourceSpan>) -> bool {
    &&& forall|i: int, j: int|
        0 <= i < j < spans.len() ==> (#[trigger] spans[i]).path@ != (#[trigger] spans[j]).path@
    &&& forall|i: int| 0 <= i < spans.len() ==> (#[trigger] spans[i]).start.column >= 1
}

/// The recorded ranges by path.
pub open spec fn span_map(spans: Seq<SourceSpan>) -> Map<Seq<char>, (SourcePosition, SourcePosition)> {
    Map::new(
        |k: Seq<char>| exists|i: int| 0 <= i < spans.len() && (#[trigger] spans[i]).path@ == k,
        |k: Seq<char>|
            {
                let i = choose|i: int| 0 <= i < spans.len() && (#[trigger] spans[i]).path@ == k;
                (spans[i].start, spans[i].end)
            },
    )
}

/// The text of an optional document name.
pub open spec fn name_view(name: Option<String>) -> Option<Seq<char>> {
    match name {
        Some(n) => Some(n@),
        None => None,
    }
}

fn clone_name(name: &Option<String>) -> (copy: Option<String>)
    ensures
        copy == *name,
{
    match name {
        Some(n) => Some(n.clone()),
        None => None,
    }
}

/// The position of the last `.` or `[` in a path.
pub open spec fn last_separator(p: Seq<char>) -> Option<int>
    decreases p.len(),
{
    if p.len() == 0 {
        None
    } else if p.last() == '.' || p.last() == '[' {
        Some(p.len() - 1)
    } else {
        last_separator(p.drop_last())
    }
}

/// Where the last separator of a path is.
pub proof fn lemma_last_separator(p: Seq<char>)
    ensures
        last_separator(p) matches Some(i) ==> 0 <= i < p.len() && (p[i] == '.' || p[i] == '[')
            && forall|j: int| i < j < p.len() ==> p[j] != '.' && p[j] != '[',
        last_separator(p) is None ==> forall|j: int| 0 <= j < p.len() ==> p[j] != '.' && p[j] != '[',
    decreases p.len(),
{
    if p.len() > 0 && !(p.last() == '.' || p.last() == '[') {
        let q = p.drop_last();
        lemma_last_separator(q);
        assert forall|j: int| 0 <= j < q.len() implies q[j] == p[j] by {}
    }
}

/// The path itself when it is recorded, else its nearest recorded
/// ancestor (`components.x.ghost` → `components.x`), cutting at the last
/// `.` or `[` each time.
pub open spec fn nearest_recorded(keys: Set<Seq<char>>, p: Seq<char>) -> Option<Seq<char>>
    decreases p.len(),
{
    if keys.contains(p) {
        Some(p)
    } else {
        match last_separator(p) {
            Some(i) => {
                proof {
                    lemma_last_separator(p);
                }
                nearest_recorded(keys, p.subrange(0, i))
            },
            None => None,
        }
    }
}

fn last_separator_of(p: &str) -> (position: Option<usize>)
    ensures
        match position {
            Some(i) => last_separator(p@) == Some(i as int),
            None => last_separator(p@) is None,
        },
{
    let mut k: usize = p.unicode_len();
    assert(p@.subrange(0, k as int) =~= p@);
    while k > 0
        invariant
            k <= p@.len(),
            last_separator(p@) == last_separator(p@.subrange(0, k as int)),
        decreases k,
    {
        let c = p.get_char(k - 1);
        assert(p@.subrange(0, k as int).drop_last() =~= p@.subrange(0, k - 1));
        if c == '.' || c == '[' {
            return Some(k - 1);
        }
        k = k - 1;
    }
    None
}

/// Path → exact range of the key or sequence item, and the document the
/// ranges belong to.
#[derive(Debug)]
pub struct SpanIndex {
    spans: Vec<SourceSpan>,
    document: Option<String>,
}

impl SpanIndex {
    #[verifier::type_invariant]
    spec fn wf(self) -> bool {
        spans_wf(self.spans@)
    }

    /// The recorded ranges by path.
    pub closed spec fn ranges(&self) -> Map<Seq<char>, (SourcePosition, SourcePosition)> {
        span_map(self.spans@)
    }

    /// The document the ranges are reported against.
    pub closed spec fn document_name(&self) -> Option<Seq<char>> {
        name_view(self.document)
    }

    /// The range recorded for exactly this path, naming the index's
    /// document.
    pub fn get_span(&self, path: &str) -> (span: Option<SourceSpan>)
        ensures
            match span {
                Some(s) => {
                    &&& self.ranges().contains_key(path@)
                    &&& (s.start, s.end) == self.ranges()[path@]
                    &&& s.path@ == path@
                    &&& name_view(s.document) == self.document_name()
                },
                None => !self.ranges().contains_key(path@),
            },
    {
        proof {
            use_type_invariant(self);
        }
        let mut i: usize = 0;
        while i < self.spans.len()
            invariant
                i <= self.spans@.len(),
                spans_wf(self.spans@),
                forall|j: int| 0 <= j < i ==> (#[trigger] self.spans@[j]).path@ != path@,
            decreases self.spans@.len() - i,
        {
            if str_eq(self.spans[i].path.as_str(), path) {
                let found = &self.spans[i];
                proof {
                    let m = span_map(self.spans@);
                    assert(m.contains_key(path@));
                    let c = choose|c: int|
                        0 <= c < self.spans@.len() && (#[trigger] self.spans@[c]).path@ == path@;
                    if c != i {
                        if c < i {
                            assert(self.spans@[c].path@ != self.spans@[i as int].path@);
                        } else {
                            assert(self.spans@[i as int].path@ != self.spans@[c].path@);
                        }
                    }
                }
                return Some(
                    SourceSpan {
                        path: found.path.clone(),
                        start: found.start,
                        end: found.end,
                        document: clone_name(&self.document),
                    },
                );
            }
            i = i + 1;
        }
        None
    }

    /// Line (1-based) and column (0-based) where exactly this path starts.
    pub fn get(&self, path: &str) -> (point: Option<(usize, usize)>)
        ensures
            match point {
                Some((line, column)) => {
                    &&& self.ranges().contains_key(path@)
                    &&& line == self.ranges()[path@].0.line
                    &&& column == self.ranges()[path@].0.column - 1
                },
                None => !self.ranges().contains_key(path@),
            },
    {
        proof {
            use_type_invariant(self);
            lemma_map_columns(self.spans@);
        }
        match self.get_span(path) {
            Some(span) => Some((span.start.line, span.start.column - 1)),
            None => None,
        }
    }

    /// The range of a path, or of its nearest recorded ancestor.
    pub fn locate_span(&self, path: &str) -> (span: Option<SourceSpan>)
        ensures
            match nearest_recorded(self.ranges().dom(), path@) {
                Some(k) => span matches Some(s) && s.path@ == k && (s.start, s.end)
                    == self.ranges()[k] && name_view(s.document) == self.document_name(),
                None => span is None,
            },
    {
        let mut p: String = path.to_owned();
        loop
            invariant
                nearest_recorded(self.ranges().dom(), p@) == nearest_recorded(
                    self.ranges().dom(),
                    path@,
                ),
            decreases p@.len(),
        {
            match self.get_span(p.as_str()) {
                Some(hit) => {
                    return Some(hit);
                },
                None => {},
            }
            match last_separator_of(p.as_str()) {
                Some(i) => {
                    proof {
                        lemma_last_separator(p@);
                    }
                    let shorter = p.as_str().substring_char(0, i).to_owned();
                    p = shorter;
                },
                None => {
                    return None;
                },
            }
        }
    }

    /// Line (1-based) and column (0-based) of a path or of its nearest
    /// recorded ancestor.
    pub fn locate(&self, path: &str) -> (point: Option<(usize, usize)>)
        ensures
            match nearest_recorded(self.ranges().dom(), path@) {
                Some(k) => point == Some((self.ranges()[k].0.line, (self.ranges()[k].0.column - 1) as usize)),
                None => point is None,
            },
    {
        proof {
            use_type_invariant(self);
            lemma_map_columns(self.spans@);
        }
        match self.locate_span(path) {
            Some(span) => {
                proof {
                    lemma_nearest_is_recorded(self.ranges().dom(), path@);
                }
                Some((span.start.line, span.start.column - 1))
            },
            None => None,
        }
    }
}

proof fn lemma_map_columns(spans: Seq<SourceSpan>)
    requires
        spans_wf(spans),
    ensures
        forall|k: Seq<char>| #[trigger] span_map(spans).contains_key(k) ==> span_map(spans)[k].0.column
            >= 1,
{
    assert forall|k: Seq<char>| #[trigger] span_map(spans).contains_key(k) implies span_map(
        spans,
    )[k].0.column >= 1 by {
        let i = choose|i: int| 0 <= i < spans.len() && (#[trigger] spans[i]).path@ == k;
        assert(spans[i].start.column >= 1);
    }
}

proof fn lemma_nearest_is_recorded(keys: Set<Seq<char>>, p: Seq<char>)
    ensures
        nearest_recorded(keys, p) matches Some(k) ==> keys.contains(k),
    decreases p.len(),
{
    if !keys.contains(p) {
        lemma_last_separator(p);
        if let Some(i) = last_separator(p) {
            lemma_nearest_is_recorded(keys, p.subrange(0, i));
        }
    }
}

fn copy_spans(spans: &Vec<SourceSpan>) -> (copy: Vec<SourceSpan>)
    ensures
        copy@ == spans@,
{
    let mut copy: Vec<SourceSpan> = Vec::new();
    let mut i: usize = 0;
    while i < spans.len()
        invariant
            i <= spans@.len(),
            copy@ == spans@.subrange(0, i as int),
        decreases spans@.len() - i,
    {
        let s = &spans[i];
        copy.push(
            SourceSpan {
                path: s.path.clone(),
                start: s.start,
                end: s.end,
                document: clone_name(&s.document),
            },
        );
        assert(copy@ =~= spans@.subrange(0, i + 1));
        i = i + 1;
    }
    assert(copy@ =~= spans@);
    copy
}

impl Clone for SpanIndex {
    fn clone(&self) -> (copy: Self)
        ensures
            copy.ranges() == self.ranges(),
            copy.document_name() == self.document_name(),
    {
        proof {
            use_type_invariant(self);
        }
        SpanIndex { spans: copy_spans(&self.spans), document: clone_name(&self.document) }
    }
}

impl Default for SpanIndex {
    fn default() -> (index: Self)
        ensures
            index.ranges() == Map::<Seq<char>, (SourcePosition, SourcePosition)>::empty(),
            index.document_name() is None,
    {
        let index = SpanIndex { spans: Vec::new(), document: None };
        assert(index.ranges() =~= Map::<Seq<char>, (SourcePosition, SourcePosition)>::empty());
        index
    }
}

// ---------------------------------------------------------------------------
// Walking the events
// ---------------------------------------------------------------------------

/// A parser event as the index reads it.
#[derive(Debug, Clone, PartialEq, Eq)]
pub enum SpanEvent {
    MappingStart,
    SequenceStart,
    MappingEnd,
    SequenceEnd,
    Scalar(String),
    Alias,
    DocumentEnd,
    StreamEnd,
    Other,
}

/// A container the walk is inside.
#[derive(Debug, Clone, Copy, PartialEq, Eq, Structural)]
pub enum Frame {
    /// A mapping, and whether its next scalar is a key.
    Mapping { expect_key: bool },
    /// A sequence, and the index of its next item.
    Sequence { next_index: usize },
}

/// The state of a walk: the ranges recorded so far, the path segments of
/// the enclosing containers, the open containers, whether each pushed a
/// path segment, and the key whose value comes next.
pub struct Walk {
    pub ranges: Map<Seq<char>, (SourcePosition, SourcePosition)>,
    pub path: Seq<Seq<char>>,
    pub frames: Seq<Frame>,
    pub pushed: Seq<bool>,
    pub pending: Option<Seq<char>>,
}

/// The walk before any event.
pub open spec fn walk_start() -> Walk {
    Walk {
        ranges: Map::empty(),
        path: seq![],
        frames: seq![],
        pushed: seq![],
        pending: None,
    }
}

/// The path segment of a sequence item: `[3]`.
pub open spec fn index_segment(i: usize) -> Seq<char> {
    seq!['['] + decimal(i as nat) + seq![']']
}

/// A mapping that was waiting for a value expects a key again.
pub open spec fn key_next(frames: Seq<Frame>) -> Seq<Frame> {
    if frames.len() > 0 && frames.last() is Mapping {
        frames.update(frames.len() - 1, Frame::Mapping { expect_key: true })
    } else {
        frames
    }
}

/// Entering a container: it takes the pending key as its path segment, or
/// the next index of an enclosing sequence; the root container takes none.
pub open spec fn enter(w: Walk) -> Walk {
    match w.pending {
        Some(key) => Walk {
            ranges: w.ranges,
            path: w.path.push(key),
            frames: w.frames,
            pushed: w.pushed.push(true),
            pending: None,
        },
        None => if w.frames.len() > 0 && w.frames.last() is Sequence {
            let i = w.frames.last()->next_index;
            Walk {
                ranges: w.ranges,
                path: w.path.push(index_segment(i)),
                frames: w.frames.update(
                    w.frames.len() - 1,
                    Frame::Sequence { next_index: (i + 1) as usize },
                ),
                pushed: w.pushed.push(true),
                pending: None,
            }
        } else {
            Walk {
                ranges: w.ranges,
                path: w.path,
                frames: w.frames,
                pushed: w.pushed.push(false),
                pending: None,
            }
        },
    }
}

/// Leaving a container: its frame and its path segment go, and an
/// enclosing mapping expects a key again.
pub open spec fn leave(w: Walk) -> Walk {
    let frames = if w.frames.len() > 0 {
        w.frames.drop_last()
    } else {
        w.frames
    };
    let popped = w.pushed.len() > 0 && w.pushed.last();
    let pushed = if w.pushed.len() > 0 {
        w.pushed.drop_last()
    } else {
        w.pushed
    };
    let path = if popped && w.path.len() > 0 {
        w.path.drop_last()
    } else {
        w.path
    };
    Walk { ranges: w.ranges, path, frames: key_next(frames), pushed, pending: w.pending }
}

/// A value that records nothing: an enclosing mapping expects a key again.
pub open spec fn value_seen(w: Walk) -> Walk {
    if w.frames.len() > 0 && w.frames.last() is Mapping {
        Walk {
            ranges: w.ranges,
            path: w.path,
            frames: key_next(w.frames),
            pushed: w.pushed,
            pending: None,
        }
    } else {
        w
    }
}

/// A scalar: a mapping key or a sequence item records its range under its
/// full path; any other scalar is a value.
pub open spec fn scalar_seen(
    lines: Seq<Seq<char>>,
    w: Walk,
    value: Seq<char>,
    line: usize,
    column: usize,
) -> Walk {
    if w.frames.len() > 0 && w.frames.last() == (Frame::Mapping { expect_key: true }) {
        Walk {
            ranges: w.ranges.insert(
                joined_path(w.path.push(value)),
                scalar_range(lines, value, line, column),
            ),
            path: w.path,
            frames: w.frames.update(w.frames.len() - 1, Frame::Mapping { expect_key: false }),
            pushed: w.pushed,
            pending: Some(value),
        }
    } else if w.frames.len() > 0 && w.frames.last() is Sequence {
        let i = w.frames.last()->next_index;
        Walk {
            ranges: w.ranges.insert(
                joined_path(w.path.push(index_segment(i))),
                scalar_range(lines, value, line, column),
            ),
            path: w.path,
            frames: w.frames.update(w.frames.len() - 1, Frame::Sequence { next_index: (i + 1) as usize }),
            pushed: w.pushed,
            pending: w.pending,
        }
    } else {
        value_seen(w)
    }
}

/// One event's effect on the walk.
pub open spec fn step(lines: Seq<Seq<char>>, w: Walk, event: (SpanEvent, usize, usize)) -> Walk {
    match event.0 {
        SpanEvent::MappingStart => {
            let e = enter(w);
            Walk {
                ranges: e.ranges,
                path: e.path,
                frames: e.frames.push(Frame::Mapping { expect_key: true }),
                pushed: e.pushed,
                pending: e.pending,
            }
        },
        SpanEvent::SequenceStart => {
            let e = enter(w);
            Walk {
                ranges: e.ranges,
                path: e.path,
                frames: e.frames.push(Frame::Sequence { next_index: 0 }),
                pushed: e.pushed,
                pending: e.pending,
            }
        },
        SpanEvent::MappingEnd => leave(w),
        SpanEvent::SequenceEnd => leave(w),
        SpanEvent::Scalar(value) => scalar_seen(lines, w, value@, event.1, event.2),
        SpanEvent::Alias => value_seen(w),
        _ => w,
    }
}

/// The walk over a list of events, and whether it has stopped: only the
/// first document is read, so the walk stops at its end.
pub open spec fn walk(lines: Seq<Seq<char>>, events: Seq<(SpanEvent, usize, usize)>) -> (Walk, bool)
    decreases events.len(),
{
    if events.len() == 0 {
        (walk_start(), false)
    } else {
        let (w, stopped) = walk(lines, events.drop_last());
        if stopped {
            (w, true)
        } else if events.last().0 is DocumentEnd {
            (w, true)
        } else {
            (step(lines, w, events.last()), false)
        }
    }
}

/// The ranges a list of events records for a text.
pub open spec fn recorded_ranges(source: Seq<char>, events: Seq<(SpanEvent, usize, usize)>) -> Map<
    Seq<char>,
    (SourcePosition, SourcePosition),
> {
    walk(text_lines(source), events).0.ranges
}

// ---------------------------------------------------------------------------
// Recording
// ---------------------------------------------------------------------------

proof fn lemma_span_map_push(v: Seq<SourceSpan>, x: SourceSpan)
    requires
        spans_wf(v),
        x.start.column >= 1,
        forall|i: int| 0 <= i < v.len() ==> (#[trigger] v[i]).path@ != x.path@,
    ensures
        spans_wf(v.push(x)),
        span_map(v.push(x)) == span_map(v).insert(x.path@, (x.start, x.end)),
{
    let w = v.push(x);
    assert forall|i: int, j: int| 0 <= i < j < w.len() implies (#[trigger] w[i]).path@ != (
    #[trigger] w[j]).path@ by {
        if j == v.len() {
            assert(w[i] == v[i]);
        } else {
            assert(w[i] == v[i] && w[j] == v[j]);
        }
    }
    assert forall|i: int| 0 <= i < w.len() implies (#[trigger] w[i]).start.column >= 1 by {
        if i < v.len() {
            assert(w[i] == v[i]);
        }
    }
    let a = span_map(w);
    let b = span_map(v).insert(x.path@, (x.start, x.end));
    assert forall|k: Seq<char>| a.contains_key(k) == b.contains_key(k) by {
        if b.contains_key(k) && k != x.path@ {
            let i = choose|i: int| 0 <= i < v.len() && (#[trigger] v[i]).path@ == k;
            assert(w[i] == v[i]);
        }
        if k == x.path@ {
            assert(w[v.len() as int] == x);
        }
    }
    assert forall|k: Seq<char>| #[trigger] a.contains_key(k) implies a[k] == b[k] by {
        let i = choose|i: int| 0 <= i < w.len() && (#[trigger] w[i]).path@ == k;
        if k == x.path@ {
            if i < v.len() {
                assert(w[i] == v[i]);
            }
        } else {
            assert(i < v.len());
            assert(w[i] == v[i]);
            let j = choose|j: int| 0 <= j < v.len() && (#[trigger] v[j]).path@ == k;
            if i != j {
                if i < j {
                    assert(v[i].path@ != v[j].path@);
                } else {
                    assert(v[j].path@ != v[i].path@);
                }
            }
        }
    }
    assert(a =~= b);
}

proof fn lemma_span_map_update(v: Seq<SourceSpan>, at: int, x: SourceSpan)
    requires
        spans_wf(v),
        0 <= at < v.len(),
        v[at].path@ == x.path@,
        x.start.column >= 1,
    ensures
        spans_wf(v.update(at, x)),
        span_map(v.update(at, x)) == span_map(v).insert(x.path@, (x.start, x.end)),
{
    let w = v.update(at, x);
    assert forall|i: int, j: int| 0 <= i < j < w.len() implies (#[trigger] w[i]).path@ != (
    #[trigger] w[j]).path@ by {
        assert(v[i].path@ != v[j].path@);
    }
    assert forall|i: int| 0 <= i < w.len() implies (#[trigger] w[i]).start.column >= 1 by {
        if i != at {
            assert(w[i] == v[i]);
        }
    }
    let a = span_map(w);
    let b = span_map(v).insert(x.path@, (x.start, x.end));
    assert forall|k: Seq<char>| a.contains_key(k) == b.contains_key(k) by {
        if b.contains_key(k) && k != x.path@ {
            let i = choose|i: int| 0 <= i < v.len() && (#[trigger] v[i]).path@ == k;
            assert(i != at);
            assert(w[i] == v[i]);
        }
        if k == x.path@ {
            assert(w[at] == x);
        }
        if a.contains_key(k) && k != x.path@ {
            let i = choose|i: int| 0 <= i < w.len() && (#[trigger] w[i]).path@ == k;
            assert(i != at);
            assert(w[i] == v[i]);
        }
    }
    assert forall|k: Seq<char>| #[trigger] a.contains_key(k) implies a[k] == b[k] by {
        let i = choose|i: int| 0 <= i < w.len() && (#[trigger] w[i]).path@ == k;
        if k == x.path@ {
            if i != at {
                assert(w[i] == v[i]);
                if i < at {
                    assert(v[i].path@ != v[at].path@);
                } else {
                    assert(v[at].path@ != v[i].path@);
                }
            }
        } else {
            assert(i != at);
            assert(w[i] == v[i]);
            let j = choose|j: int| 0 <= j < v.len() && (#[trigger] v[j]).path@ == k;
            if i != j {
                if i < j {
                    assert(v[i].path@ != v[j].path@);
                } else {
                    assert(v[j].path@ != v[i].path@);
                }
            }
        }
    }
    assert(a =~= b);
}

/// Records a range under `path`, replacing an earlier range of the same
/// path.
fn record_span(spans: &mut Vec<SourceSpan>, span: SourceSpan)
    requires
        spans_wf(old(spans)@),
        span.start.column >= 1,
    ensures
        spans_wf(final(spans)@),
        span_map(final(spans)@) == span_map(old(spans)@).insert(span.path@, (span.start, span.end)),
{
    let mut i: usize = 0;
    while i < spans.len()
        invariant
            i <= spans@.len(),
            spans@ == old(spans)@,
            spans_wf(old(spans)@),
            span.start.column >= 1,
            forall|j: int| 0 <= j < i ==> (#[trigger] spans@[j]).path@ != span.path@,
        decreases spans@.len() - i,
    {
        if str_eq(spans[i].path.as_str(), span.path.as_str()) {
            proof {
                lemma_span_map_update(spans@, i as int, span);
            }
            spans.set(i, span);
            return;
        }
        i = i + 1;
    }
    proof {
        lemma_span_map_push(spans@, span);
    }
    spans.push(span);
}

fn copy_strings(v: &Vec<String>) -> (copy: Vec<String>)
    ensures
        copy@ == v@,
{
    let mut copy: Vec<String> = Vec::new();
    let mut i: usize = 0;
    while i < v.len()
        invariant
            i <= v@.len(),
            copy@ == v@.subrange(0, i as int),
        decreases v@.len() - i,
    {
        copy.push(v[i].clone());
        assert(copy@ =~= v@.subrange(0, i + 1));
        i = i + 1;
    }
    assert(copy@ =~= v@);
    copy
}

fn index_text(i: usize) -> (text: String)
    ensures
        text@ == index_segment(i),
{
    let mut text = String::new();
    push_char(&mut text, '[');
    push_decimal(&mut text, i as u64);
    push_char(&mut text, ']');
    assert(text@ =~= index_segment(i));
    text
}

/// The path of the enclosing containers with one more segment.
fn path_with(path: &Vec<String>, last: String) -> (full: String)
    ensures
        full@ == joined_path(string_views(path@).push(last@)),
{
    let mut segments = copy_strings(path);
    segments.push(last);
    assert(string_views(segments@) =~= string_views(path@).push(last@));
    join(&segments)
}

/// The walk's state as the index builds it.
struct Recorder {
    spans: Vec<SourceSpan>,
    path: Vec<String>,
    frames: Vec<Frame>,
    pushed: Vec<bool>,
    pending: Option<String>,
}

/// Every open sequence's next index is at most `bound`.
pub open spec fn indices_at_most(frames: Seq<Frame>, bound: int) -> bool {
    forall|i: int|
        0 <= i < frames.len() ==> (#[trigger] frames[i] matches Frame::Sequence { next_index }
            ==> next_index <= bound)
}

proof fn lemma_indices_grow(frames: Seq<Frame>, bound: int)
    ensures
        indices_at_most(frames, bound) ==> indices_at_most(frames, bound + 1),
{
}

impl Recorder {
    spec fn model(&self) -> Walk {
        Walk {
            ranges: span_map(self.spans@),
            path: string_views(self.path@),
            frames: self.frames@,
            pushed: self.pushed@,
            pending: name_view(self.pending),
        }
    }

    fn new() -> (r: Self)
        ensures
            r.model() == walk_start(),
            spans_wf(r.spans@),
    {
        let r = Recorder {
            spans: Vec::new(),
            path: Vec::new(),
            frames: Vec::new(),
            pushed: Vec::new(),
            pending: None,
        };
        assert(span_map(r.spans@) =~= Map::<Seq<char>, (SourcePosition, SourcePosition)>::empty());
        assert(string_views(r.path@) =~= Seq::<Seq<char>>::empty());
        r
    }

    fn key_next(&mut self)
        ensures
            final(self).frames@ == key_next(old(self).frames@),
            final(self).spans == old(self).spans,
            final(self).path == old(self).path,
            final(self).pushed == old(self).pushed,
            final(self).pending == old(self).pending,
    {
        let n = self.frames.len();
        if n > 0 {
            match self.frames[n - 1] {
                Frame::Mapping { .. } => {
                    self.frames.set(n - 1, Frame::Mapping { expect_key: true });
                },
                Frame::Sequence { .. } => {},
            }
        }
    }

    fn enter(&mut self, Ghost(bound): Ghost<int>)
        requires
            indices_at_most(old(self).frames@, bound),
            bound < usize::MAX,
        ensures
            final(self).model() == enter(old(self).model()),
            final(self).spans == old(self).spans,
            indices_at_most(final(self).frames@, bound + 1),
    {
        match self.pending.take() {
            Some(key) => {
                self.path.push(key);
                self.pushed.push(true);
                assert(string_views(self.path@) =~= string_views(old(self).path@).push(key@));
            },
            None => {
                let n = self.frames.len();
                if n > 0 {
                    match self.frames[n - 1] {
                        Frame::Sequence { next_index } => {
                            assert(self.frames@[n - 1] matches Frame::Sequence { next_index: k }
                                ==> k <= bound);
                            let segment = index_text(next_index);
                            self.path.push(segment);
                            self.pushed.push(true);
                            self.frames.set(n - 1, Frame::Sequence { next_index: next_index + 1 });
                            assert(string_views(self.path@) =~= string_views(old(self).path@).push(
                                index_segment(next_index),
                            ));
                            return;
                        },
                        Frame::Mapping { .. } => {},
                    }
                }
                self.pushed.push(false);
            },
        }
    }

    fn leave(&mut self)
        ensures
            final(self).model() == leave(old(self).model()),
            final(self).spans == old(self).spans,
            forall|b: int| indices_at_most(old(self).frames@, b) ==> indices_at_most(final(self).frames@, b),
    {
        let ghost before = self.frames@;
        self.frames.pop();
        let popped = match self.pushed.pop() {
            Some(p) => p,
            None => false,
        };
        if popped {
            let ghost before_path = self.path@;
            self.path.pop();
            proof {
                if before_path.len() > 0 {
                    assert(string_views(self.path@) =~= string_views(before_path).drop_last());
                }
            }
        }
        assert(self.frames@ == if before.len() > 0 { before.drop_last() } else { before });
        self.key_next();
    }

    fn value_seen(&mut self)
        ensures
            final(self).model() == value_seen(old(self).model()),
            final(self).spans == old(self).spans,
            forall|b: int| indices_at_most(old(self).frames@, b) ==> indices_at_most(final(self).frames@, b),
    {
        let n = self.frames.len();
        if n > 0 {
            match self.frames[n - 1] {
                Frame::Mapping { .. } => {
                    self.pending = None;
                    self.key_next();
                },
                Frame::Sequence { .. } => {},
            }
        }
    }

    fn scalar_seen(
        &mut self,
        lines: &Vec<Vec<char>>,
        value: &String,
        line: usize,
        column: usize,
        Ghost(bound): Ghost<int>,
    )
        requires
            spans_wf(old(self).spans@),
            indices_at_most(old(self).frames@, bound),
            bound < usize::MAX,
        ensures
            spans_wf(final(self).spans@),
            final(self).model() == scalar_seen(char_views(lines@), old(self).model(), value@, line, column),
            indices_at_most(final(self).frames@, bound + 1),
    {
        let n = self.frames.len();
        if n > 0 {
            match self.frames[n - 1] {
                Frame::Mapping { expect_key } => {
                    if expect_key {
                        let full = path_with(&self.path, value.clone());
                        let (start, end) = scalar_range_of(lines, value.as_str(), line, column);
                        self.frames.set(n - 1, Frame::Mapping { expect_key: false });
                        record_span(&mut self.spans, SourceSpan { path: full, start, end, document: None });
                        self.pending = Some(value.clone());
                        return;
                    }
                },
                Frame::Sequence { next_index } => {
                    assert(self.frames@[n - 1] matches Frame::Sequence { next_index: k } ==> k <= bound);
                    let full = path_with(&self.path, index_text(next_index));
                    let (start, end) = scalar_range_of(lines, value.as_str(), line, column);
                    self.frames.set(n - 1, Frame::Sequence { next_index: next_index + 1 });
                    record_span(&mut self.spans, SourceSpan { path: full, start, end, document: None });
                    return;
                },
            }
        }
        self.value_seen();
    }

    fn step(&mut self, lines: &Vec<Vec<char>>, event: &(SpanEvent, usize, usize), Ghost(bound): Ghost<int>)
        requires
            spans_wf(old(self).spans@),
            indices_at_most(old(self).frames@, bound),
            0 <= bound < usize::MAX,
        ensures
            spans_wf(final(self).spans@),
            final(self).model() == step(char_views(lines@), old(self).model(), *event),
            indices_at_most(final(self).frames@, bound + 1),
    {
        match &event.0 {
            SpanEvent::MappingStart => {
                self.enter(Ghost(bound));
                self.frames.push(Frame::Mapping { expect_key: true });
            },
            SpanEvent::SequenceStart => {
                self.enter(Ghost(bound));
                self.frames.push(Frame::Sequence { next_index: 0 });
            },
            SpanEvent::MappingEnd => {
                self.leave();
            },
            SpanEvent::SequenceEnd => {
                self.leave();
            },
            SpanEvent::Scalar(value) => {
                self.scalar_seen(lines, value, event.1, event.2, Ghost(bound));
            },
            SpanEvent::Alias => {
                self.value_seen();
            },
            _ => {},
        }
        proof {
            lemma_indices_grow(self.frames@, bound);
        }
    }
}

// ---------------------------------------------------------------------------
// Building the index
// ---------------------------------------------------------------------------

#[verifier::external_type_specification]
#[verifier::external_body]
pub struct ExYamlEvent(yaml_rust2::parser::Event);

/// The marked events `yaml_rust2`'s parser hands to a receiver when it
/// loads the first document of a text: each event with the line (1-based)
/// and column (0-based) where it starts, up to the end of that document or
/// of the stream, or up to the first error.
pub uninterp spec fn yaml_event_stream(source: Seq<char>) -> Seq<(SpanEvent, usize, usize)>;

/// Tells apart the kinds of `yaml_rust2::parser::Event` the index reads,
/// keeping a scalar's value; every other kind is `Other`.
#[verifier::external_body]
fn span_event(event: yaml_rust2::parser::Event) -> SpanEvent {
    match event {
        yaml_rust2::parser::Event::MappingStart(..) => SpanEvent::MappingStart,
        yaml_rust2::parser::Event::SequenceStart(..) => SpanEvent::SequenceStart,
        yaml_rust2::parser::Event::MappingEnd => SpanEvent::MappingEnd,
        yaml_rust2::parser::Event::SequenceEnd => SpanEvent::SequenceEnd,
        yaml_rust2::parser::Event::Scalar(value, ..) => SpanEvent::Scalar(value),
        yaml_rust2::parser::Event::Alias(..) => SpanEvent::Alias,
        yaml_rust2::parser::Event::DocumentEnd => SpanEvent::DocumentEnd,
        yaml_rust2::parser::Event::StreamEnd => SpanEvent::StreamEnd,
        _ => SpanEvent::Other,
    }
}

#[verifier::external_type_specification]
#[verifier::external_body]
pub struct ExYamlMarker(yaml_rust2::scanner::Marker);

/// Receives `yaml_rust2`'s marked events, keeping each with its line and
/// column.
pub struct MarkedEvents {
    events: Vec<(SpanEvent, usize, usize)>,
}

impl yaml_rust2::parser::MarkedEventReceiver for MarkedEvents {
    /// Pushes the event as `span_event` gives it, with `Marker::line` and
    /// `Marker::col`.
    #[verifier::external_body]
    fn on_event(&mut self, ev: yaml_rust2::parser::Event, mark: yaml_rust2::scanner::Marker) {
        self.events.push((span_event(ev), mark.line(), mark.col()));
    }
}

/// Runs `yaml_rust2::parser::Parser::load` (single document) over a text,
/// keeping the marked events it hands to the receiver, up to the end of the
/// stream or the first error. Claimed: the result is `yaml_event_stream`
/// of the text (the parser is deterministic).
#[verifier::external_body]
fn yaml_events(source: &str) -> (events: Vec<(SpanEvent, usize, usize)>)
    ensures
        events@ == yaml_event_stream(source@),
{
    let mut parser = yaml_rust2::parser::Parser::new_from_str(source);
    let mut received = MarkedEvents { events: Vec::new() };
    let _ = parser.load(&mut received, false);
    received.events
}

impl SpanIndex {
    /// The index a text's marked events record, its ranges reported against
    /// `document`. Only the first document is read.
    pub fn from_events(
        source: &str,
        events: &Vec<(SpanEvent, usize, usize)>,
        document: Option<String>,
    ) -> (index: Self)
        ensures
            index.ranges() == recorded_ranges(source@, events@),
            index.document_name() == name_view(document),
    {
        let lines = split_lines(source);
        let mut r = Recorder::new();
        let mut stopped = false;
        let mut i: usize = 0;
        while i < events.len()
            invariant
                i <= events@.len(),
                char_views(lines@) == text_lines(source@),
                spans_wf(r.spans@),
                indices_at_most(r.frames@, i as int),
                (r.model(), stopped) == walk(char_views(lines@), events@.subrange(0, i as int)),
            decreases events@.len() - i,
        {
            proof {
                assert(events@.subrange(0, i + 1).drop_last() =~= events@.subrange(0, i as int));
                lemma_indices_grow(r.frames@, i as int);
            }
            if !stopped {
                match &events[i].0 {
                    SpanEvent::DocumentEnd => {
                        stopped = true;
                    },
                    _ => {
                        r.step(&lines, &events[i], Ghost(i as int));
                    },
                }
            }
            i = i + 1;
        }
        assert(events@.subrange(0, events@.len() as int) =~= events@);
        SpanIndex { spans: r.spans, document }
    }

    /// The index of a text, naming no document. A text that fails to parse
    /// keeps what was recorded before the failure.
    pub fn build(source: &str) -> (index: Self)
        ensures
            index.ranges() == recorded_ranges(source@, yaml_event_stream(source@)),
            index.document_name() is None,
    {
        let events = yaml_events(source);
        SpanIndex::from_events(source, &events, None)
    }

    /// The index of a text whose ranges name `document`.
    pub fn build_named(source: &str, document: &str) -> (index: Self)
        ensures
            index.ranges() == recorded_ranges(source@, yaml_event_stream(source@)),
            index.document_name() == Some(document@),
    {
        let events = yaml_events(source);
        SpanIndex::from_events(source, &events, Some(document.to_owned()))
    }
}

} // verus!
