//! Package loading: each controller's board payload and the chip its board
//! names, the checks that join board wiring to the chip, and the checks on
//! the controller transport tree (downlink ports and parent cycles).
//!
//! Finding packages in the registry and reading their payloads happen
//! before this phase; it receives, per controller, what was found.

use vstd::prelude::*;
use crate::package::board::BoardPackageFile;
use crate::package::chip::ChipPackageFile;
use crate::package::{version_display, PackageRef};
use crate::schema::{Controller, Diagnostic, Severity};
use crate::text::{joined, push_str, split_at_first, split_once, str_eq, string_views};

verus! {

/// The chip package found for a board's chip reference.
pub struct SelectedChip {
    /// The package that was chosen.
    pub reference: PackageRef,
    /// Whether the dependency closure chose it; otherwise it is the
    /// registry's highest version.
    pub in_closure: bool,
    /// Its chip payload, or the diagnostics that reading it gave.
    pub payload: Result<ChipPackageFile, Vec<Diagnostic>>,
}

/// What package selection found for a controller's board.
pub enum BoardSelection {
    /// The registry has no such package.
    Missing,
    /// The board payload (or the diagnostics that reading it gave) and,
    /// when the payload names a chip, the package found for it.
    Found { payload: Result<BoardPackageFile, Vec<Diagnostic>>, chip: Option<SelectedChip> },
}

/// The loaded board and chip payloads, keyed by controller, in controller
/// order.
pub struct ControllerTargets {
    pub boards: Vec<(String, BoardPackageFile)>,
    pub chips: Vec<(String, ChipPackageFile)>,
    /// The chosen chip package of each controller with a chip.
    pub chip_refs: Vec<(String, String)>,
}

// ---------------------------------------------------------------------------
// Keyed lists
// ---------------------------------------------------------------------------

/// The value of the first entry with `key`.
pub open spec fn entry<V>(entries: Seq<(String, V)>, key: Seq<char>) -> Option<V>
    decreases entries.len(),
{
    if entries.len() == 0 {
        None
    } else if entries[0].0@ == key {
        Some(entries[0].1)
    } else {
        entry(entries.drop_first(), key)
    }
}

pub(crate) fn find_entry<'a, V>(entries: &'a Vec<(String, V)>, key: &str) -> (found: Option<&'a V>)
    ensures
        match found {
            Some(v) => entry(entries@, key@) == Some(*v),
            None => entry(entries@, key@) is None,
        },
{
    let mut i: usize = 0;
    assert(entries@.subrange(0, entries@.len() as int) =~= entries@);
    while i < entries.len()
        invariant
            i <= entries@.len(),
            entry(entries@, key@) == entry(entries@.subrange(i as int, entries@.len() as int), key@),
        decreases entries@.len() - i,
    {
        proof {
            let rest = entries@.subrange(i as int, entries@.len() as int);
            assert(rest.drop_first() =~= entries@.subrange(i + 1, entries@.len() as int));
        }
        if str_eq(entries[i].0.as_str(), key) {
            return Some(&entries[i].1);
        }
        i = i + 1;
    }
    None
}

// ---------------------------------------------------------------------------
// Emitted diagnostics
// ---------------------------------------------------------------------------

/// One step of a phase's diagnostics: diagnostics passed on as they are,
/// or one unlocated-by-line diagnostic the phase makes.
pub enum Emission {
    Forwarded(Seq<Diagnostic>),
    Made {
        severity: Severity,
        code: Seq<char>,
        message: Seq<char>,
        path: Option<Seq<char>>,
        suggestion: Option<Seq<char>>,
    },
}

pub open spec fn error_at(code: Seq<char>, message: Seq<char>, path: Seq<char>) -> Emission {
    Emission::Made { severity: Severity::Error, code, message, path: Some(path), suggestion: None }
}

pub open spec fn plain_error(code: Seq<char>, message: Seq<char>) -> Emission {
    Emission::Made { severity: Severity::Error, code, message, path: None, suggestion: None }
}

/// A diagnostic the phase made: its severity, code, message, path and
/// suggestion, and no line or column.
pub open spec fn made_as(
    d: Diagnostic,
    severity: Severity,
    code: Seq<char>,
    message: Seq<char>,
    path: Option<Seq<char>>,
    suggestion: Option<Seq<char>>,
) -> bool {
    &&& d.severity == severity
    &&& d.code@ == code
    &&& d.message@ == message
    &&& match path {
        Some(p) => d.path matches Some(q) && q@ == p,
        None => d.path is None,
    }
    &&& d.line is None
    &&& d.column is None
    &&& string_views(d.suggestions@) == match suggestion {
        Some(s) => seq![s],
        None => seq![],
    }
}

/// `out` is exactly the diagnostics of `items`, in order.
pub open spec fn emitted(out: Seq<Diagnostic>, items: Seq<Emission>) -> bool
    decreases items.len(),
{
    if items.len() == 0 {
        out.len() == 0
    } else {
        match items.last() {
            Emission::Forwarded(ds) => out.len() >= ds.len() && out.subrange(
                out.len() - ds.len(),
                out.len() as int,
            ) == ds && emitted(out.subrange(0, out.len() - ds.len()), items.drop_last()),
            Emission::Made { severity, code, message, path, suggestion } => out.len() >= 1
                && made_as(out.last(), severity, code, message, path, suggestion) && emitted(
                out.drop_last(),
                items.drop_last(),
            ),
        }
    }
}

pub(crate) proof fn lemma_emitted_concat(a: Seq<Diagnostic>, x: Seq<Emission>, b: Seq<Diagnostic>, y: Seq<Emission>)
    requires
        emitted(a, x),
        emitted(b, y),
    ensures
        emitted(a + b, x + y),
    decreases y.len(),
{
    if y.len() == 0 {
        assert(b.len() == 0);
        assert(a + b =~= a);
        assert(x + y =~= x);
    } else {
        assert((x + y).drop_last() =~= x + y.drop_last());
        assert((x + y).last() == y.last());
        match y.last() {
            Emission::Forwarded(ds) => {
                let k = b.len() - ds.len();
                lemma_emitted_concat(a, x, b.subrange(0, k), y.drop_last());
                assert((a + b).subrange(0, a.len() + k) =~= a + b.subrange(0, k));
                assert((a + b).subrange(a.len() + k, (a + b).len() as int) =~= b.subrange(
                    k,
                    b.len() as int,
                ));
            },
            Emission::Made { .. } => {
                lemma_emitted_concat(a, x, b.drop_last(), y.drop_last());
                assert((a + b).drop_last() =~= a + b.drop_last());
                assert((a + b).last() == b.last());
            },
        }
    }
}

pub(crate) proof fn lemma_emitted_forwarded(ds: Seq<Diagnostic>)
    ensures
        emitted(ds, seq![Emission::Forwarded(ds)]),
{
    reveal_with_fuel(emitted, 2);
    assert(ds.subrange(0, 0) =~= Seq::<Diagnostic>::empty());
    assert(ds.subrange(0, ds.len() as int) =~= ds);
    assert(seq![Emission::Forwarded(ds)].drop_last() =~= Seq::<Emission>::empty());
}

pub(crate) proof fn lemma_emitted_made(d: Diagnostic, e: Emission)
    requires
        e matches Emission::Made { severity, code, message, path, suggestion } && made_as(
            d,
            severity,
            code,
            message,
            path,
            suggestion,
        ),
    ensures
        emitted(seq![d], seq![e]),
{
    reveal_with_fuel(emitted, 2);
    assert(seq![d].drop_last() =~= Seq::<Diagnostic>::empty());
    assert(seq![e].drop_last() =~= Seq::<Emission>::empty());
}

/// Appends the made diagnostic to `out`.
pub(crate) fn emit(
    out: &mut Vec<Diagnostic>,
    severity: Severity,
    code: &str,
    message: String,
    path: Option<String>,
    suggestion: Option<String>,
)
    ensures
        final(out)@.len() == old(out)@.len() + 1,
        final(out)@.subrange(0, old(out)@.len() as int) == old(out)@,
        made_as(
            final(out)@.last(),
            severity,
            code@,
            message@,
            match path {
                Some(p) => Some(p@),
                None => None,
            },
            match suggestion {
                Some(s) => Some(s@),
                None => None,
            },
        ),
{
    let mut suggestions: Vec<String> = Vec::new();
    match suggestion {
        Some(s) => suggestions.push(s),
        None => {},
    }
    let ghost before = out@;
    out.push(
        Diagnostic {
            code: code.to_owned(),
            severity,
            message,
            path,
            line: None,
            column: None,
            suggestions,
        },
    );
    assert(out@.subrange(0, before.len() as int) =~= before);
    assert(string_views(out@.last().suggestions@) =~= match suggestion {
        Some(s) => seq![s@],
        None => Seq::<Seq<char>>::empty(),
    });
}


/// Appends one made diagnostic after the emissions `items` of `out`.
pub(crate) fn emit_after(
    out: &mut Vec<Diagnostic>,
    Ghost(items): Ghost<Seq<Emission>>,
    severity: Severity,
    code: &str,
    message: String,
    path: Option<String>,
)
    requires
        emitted(old(out)@, items),
    ensures
        emitted(
            final(out)@,
            items.push(
                Emission::Made {
                    severity,
                    code: code@,
                    message: message@,
                    path: match path {
                        Some(p) => Some(p@),
                        None => None,
                    },
                    suggestion: None,
                },
            ),
        ),
{
    let ghost before = out@;
    let ghost e = Emission::Made {
        severity,
        code: code@,
        message: message@,
        path: crate::spans::name_view(path),
        suggestion: None,
    };
    emit(out, severity, code, message, path, None);
    assert(out@.drop_last() =~= before);
    assert(items.push(e).drop_last() =~= items);
}

/// Appends `more` to `out`, the emissions concatenating.
pub(crate) fn forward(out: &mut Vec<Diagnostic>, more: Vec<Diagnostic>, Ghost(items): Ghost<Seq<Emission>>, Ghost(extra): Ghost<Seq<Emission>>)
    requires
        emitted(old(out)@, items),
        emitted(more@, extra),
    ensures
        emitted(final(out)@, items + extra),
        final(out)@ == old(out)@ + more@,
{
    let mut more = more;
    proof {
        lemma_emitted_concat(out@, items, more@, extra);
    }
    out.append(&mut more);
}

// ---------------------------------------------------------------------------
// Boards and chips
// ---------------------------------------------------------------------------

/// `namespace/name@version`.
pub open spec fn reference_text(r: PackageRef) -> Seq<char> {
    r.namespace@ + "/"@ + r.name@ + "@"@ + version_display(r.version)
}

/// The pins a connector wires: its named pins in order, then its single
/// pin.
pub open spec fn wired_pins(c: crate::package::board::Connector) -> Seq<Seq<char>> {
    c.pins@.map_values(|e: (String, String)| e.1@) + match c.pin {
        Some(p) => seq![p@],
        None => seq![],
    }
}

/// The finding for a wired pin the chip does not declare.
pub open spec fn pin_finding(
    board: Seq<char>,
    chip: Seq<char>,
    connector: Seq<char>,
    pin: Seq<char>,
    functions: Seq<(String, Vec<String>)>,
) -> Seq<Emission> {
    if entry(functions, pin) is None {
        seq![
            plain_error(
                "E1312"@,
                "board '"@ + board + "' connector '"@ + connector + "' wires pin "@ + pin
                    + ", which chip '"@ + chip + "' does not declare"@,
            ),
        ]
    } else {
        seq![]
    }
}

pub open spec fn pin_findings(
    board: Seq<char>,
    chip: Seq<char>,
    connector: Seq<char>,
    pins: Seq<Seq<char>>,
    functions: Seq<(String, Vec<String>)>,
) -> Seq<Emission>
    decreases pins.len(),
{
    if pins.len() == 0 {
        seq![]
    } else {
        pin_findings(board, chip, connector, pins.drop_last(), functions) + pin_finding(
            board,
            chip,
            connector,
            pins.last(),
            functions,
        )
    }
}

/// The wiring findings of every connector, in connector order.
pub open spec fn wiring_findings(
    board: Seq<char>,
    chip: Seq<char>,
    connectors: Seq<(String, crate::package::board::Connector)>,
    functions: Seq<(String, Vec<String>)>,
) -> Seq<Emission>
    decreases connectors.len(),
{
    if connectors.len() == 0 {
        seq![]
    } else {
        wiring_findings(board, chip, connectors.drop_last(), functions) + pin_findings(
            board,
            chip,
            connectors.last().0@,
            wired_pins(connectors.last().1),
            functions,
        )
    }
}

fn check_pin(
    board: &str,
    chip: &str,
    connector: &str,
    pin: &str,
    functions: &Vec<(String, Vec<String>)>,
) -> (out: Vec<Diagnostic>)
    ensures
        emitted(out@, pin_finding(board@, chip@, connector@, pin@, functions@)),
{
    let mut out: Vec<Diagnostic> = Vec::new();
    if find_entry(functions, pin).is_none() {
        let mut message = "board '".to_owned();
        push_str(&mut message, board);
        push_str(&mut message, "' connector '");
        push_str(&mut message, connector);
        push_str(&mut message, "' wires pin ");
        push_str(&mut message, pin);
        push_str(&mut message, ", which chip '");
        push_str(&mut message, chip);
        push_str(&mut message, "' does not declare");
        emit(&mut out, Severity::Error, "E1312", message, None, None);
        proof {
            lemma_emitted_made(out@[0], pin_finding(board@, chip@, connector@, pin@, functions@)[0]);
            assert(out@ =~= seq![out@[0]]);
        }
    }
    out
}

/// E1312 for each pin a connector wires that the chip does not declare.
fn check_wiring(
    board: &str,
    chip: &str,
    connectors: &Vec<(String, crate::package::board::Connector)>,
    functions: &Vec<(String, Vec<String>)>,
) -> (out: Vec<Diagnostic>)
    ensures
        emitted(out@, wiring_findings(board@, chip@, connectors@, functions@)),
{
    let mut out: Vec<Diagnostic> = Vec::new();
    let mut i: usize = 0;
    while i < connectors.len()
        invariant
            i <= connectors@.len(),
            emitted(out@, wiring_findings(board@, chip@, connectors@.subrange(0, i as int), functions@)),
        decreases connectors@.len() - i,
    {
        let id = connectors[i].0.as_str();
        let connector = &connectors[i].1;
        let ghost done = wiring_findings(board@, chip@, connectors@.subrange(0, i as int), functions@);
        let ghost wired = wired_pins(*connector);
        let mut j: usize = 0;
        while j < connector.pins.len()
            invariant
                j <= connector.pins@.len(),
                connector == &connectors@[i as int].1,
                wired == wired_pins(*connector),
                emitted(out@, done + pin_findings(board@, chip@, id@, wired.subrange(0, j as int), functions@)),
            decreases connector.pins@.len() - j,
        {
            let more = check_pin(board, chip, id, connector.pins[j].1.as_str(), functions);
            proof {
                let next = wired.subrange(0, j + 1);
                assert(next.drop_last() =~= wired.subrange(0, j as int));
                assert(next.last() == connector.pins@[j as int].1@);
                assert(done + pin_findings(board@, chip@, id@, next, functions@) =~= done
                    + pin_findings(board@, chip@, id@, wired.subrange(0, j as int), functions@)
                    + pin_finding(board@, chip@, id@, connector.pins@[j as int].1@, functions@));
            }
            forward(
                &mut out,
                more,
                Ghost(done + pin_findings(board@, chip@, id@, wired.subrange(0, j as int), functions@)),
                Ghost(pin_finding(board@, chip@, id@, connector.pins@[j as int].1@, functions@)),
            );
            j = j + 1;
        }
        let n = connector.pins.len();
        match &connector.pin {
            Some(pin) => {
                let more = check_pin(board, chip, id, pin.as_str(), functions);
                proof {
                    assert(wired.len() == n + 1);
                    assert(wired.subrange(0, (n + 1) as int).drop_last() =~= wired.subrange(0, n as int));
                    assert(wired.last() == pin@);
                    assert(wired.subrange(0, (n + 1) as int) =~= wired);
                    assert(done + pin_findings(board@, chip@, id@, wired, functions@) =~= done
                        + pin_findings(board@, chip@, id@, wired.subrange(0, n as int), functions@)
                        + pin_finding(board@, chip@, id@, pin@, functions@));
                }
                forward(
                    &mut out,
                    more,
                    Ghost(done + pin_findings(board@, chip@, id@, wired.subrange(0, n as int), functions@)),
                    Ghost(pin_finding(board@, chip@, id@, pin@, functions@)),
                );
            },
            None => {
                assert(wired.subrange(0, n as int) =~= wired);
            },
        }
        proof {
            let next = connectors@.subrange(0, i + 1);
            assert(next.drop_last() =~= connectors@.subrange(0, i as int));
            assert(next.last() == connectors@[i as int]);
        }
        i = i + 1;
    }
    assert(connectors@.subrange(0, connectors@.len() as int) =~= connectors@);
    out
}


/// The findings of loading one controller's board: a board reference
/// without a namespace (E1110), a board missing from the registry (E1111)
/// or the diagnostics of its payload; then a transport the board does not
/// offer (E1120) and the findings of its chip.
pub open spec fn board_findings(name: Seq<char>, controller: Controller, selection: BoardSelection) -> Seq<
    Emission,
> {
    let board = controller.board@;
    let at_board = "controllers."@ + name + ".board"@;
    if split_at_first(board, "/"@) is None {
        seq![
            error_at(
                "E1110"@,
                "controller '"@ + name + "': board '"@ + board + "' must be 'namespace/name'"@,
                at_board,
            ),
        ]
    } else {
        match selection {
            BoardSelection::Missing => seq![
                error_at(
                    "E1111"@,
                    "controller '"@ + name + "': board package '"@ + board
                        + "' is not in the registry"@,
                    at_board,
                ),
            ],
            BoardSelection::Found { payload, chip } => match payload {
                Err(errors) => seq![Emission::Forwarded(errors@)],
                Ok(p) => transport_findings(name, controller, p) + chip_findings(board, p, chip),
            },
        }
    }
}

/// E1120 when the board offers no transport of the controller's kind.
pub open spec fn transport_findings(name: Seq<char>, controller: Controller, board: BoardPackageFile) -> Seq<
    Emission,
> {
    if entry(board.transports@, controller.transport.kind@) is None {
        seq![
            error_at(
                "E1120"@,
                "controller '"@ + name + "': board '"@ + controller.board@ + "' has no '"@
                    + controller.transport.kind@ + "' transport"@,
                "controllers."@ + name + ".transport"@,
            ),
        ]
    } else {
        seq![]
    }
}

/// The findings of a board's chip: a chip missing from the registry
/// (E1313); a warning when it is not in the dependency closure (E1311);
/// then the chip payload's diagnostics, or the wiring the chip does not
/// declare when it has a pin-function table.
pub open spec fn chip_findings(board: Seq<char>, payload: BoardPackageFile, chip: Option<SelectedChip>) -> Seq<
    Emission,
> {
    match payload.chip {
        None => seq![],
        Some(reference) => match chip {
            None => seq![
                plain_error(
                    "E1313"@,
                    "board '"@ + board + "' references chip '"@ + reference@
                        + "', which is not in the registry"@,
                ),
            ],
            Some(selected) => (if selected.in_closure {
                seq![]
            } else {
                seq![
                    Emission::Made {
                        severity: Severity::Warning,
                        code: "E1311"@,
                        message: "board '"@ + board + "' chip '"@ + reference@
                            + "' is not in the dependency closure; using "@ + version_display(
                            selected.reference.version,
                        ) + " (highest available)"@,
                        path: None,
                        suggestion: None,
                    },
                ]
            }) + match selected.payload {
                Err(errors) => seq![Emission::Forwarded(errors@)],
                Ok(c) => if c.pin_functions@.len() == 0 {
                    seq![]
                } else {
                    wiring_findings(board, reference@, payload.connectors@, c.pin_functions@)
                },
            },
        },
    }
}

/// The board payload loading keeps, when it keeps one.
pub open spec fn board_kept(controller: Controller, selection: BoardSelection) -> Option<BoardPackageFile> {
    if split_at_first(controller.board@, "/"@) is None {
        None
    } else {
        match selection {
            BoardSelection::Found { payload: Ok(p), .. } => Some(p),
            _ => None,
        }
    }
}

/// The chip payload and package loading keeps, when it keeps one.
pub open spec fn chip_kept(controller: Controller, selection: BoardSelection) -> Option<
    (ChipPackageFile, PackageRef),
> {
    match board_kept(controller, selection) {
        Some(p) => if p.chip is Some {
            match selection {
                BoardSelection::Found { chip: Some(selected), .. } => match selected.payload {
                    Ok(c) => Some((c, selected.reference)),
                    Err(_) => None,
                },
                _ => None,
            }
        } else {
            None
        },
        None => None,
    }
}

/// What loading keeps of one controller.
pub struct LoadedBoard {
    pub board: BoardPackageFile,
    pub chip: Option<(ChipPackageFile, String)>,
}

fn load_board(name: &str, controller: &Controller, selection: BoardSelection) -> (result: (
    Option<LoadedBoard>,
    Vec<Diagnostic>,
))
    ensures
        emitted(result.1@, board_findings(name@, *controller, selection)),
        match board_kept(*controller, selection) {
            None => result.0 is None,
            Some(p) => result.0 matches Some(l) && l.board == p && match chip_kept(*controller, selection) {
                None => l.chip is None,
                Some((c, r)) => l.chip matches Some((lc, lr)) && lc == c && lr@ == reference_text(r),
            },
        },
{
    let mut out: Vec<Diagnostic> = Vec::new();
    let board = controller.board.as_str();
    let mut at_board = "controllers.".to_owned();
    push_str(&mut at_board, name);
    push_str(&mut at_board, ".board");
    if split_once(board, "/").is_none() {
        let mut message = "controller '".to_owned();
        push_str(&mut message, name);
        push_str(&mut message, "': board '");
        push_str(&mut message, board);
        push_str(&mut message, "' must be 'namespace/name'");
        emit(&mut out, Severity::Error, "E1110", message, Some(at_board), None);
        proof {
            lemma_emitted_made(out@[0], board_findings(name@, *controller, selection)[0]);
            assert(out@ =~= seq![out@[0]]);
        }
        return (None, out);
    }
    let ghost whole = selection;
    match selection {
        BoardSelection::Missing => {
            let mut message = "controller '".to_owned();
            push_str(&mut message, name);
            push_str(&mut message, "': board package '");
            push_str(&mut message, board);
            push_str(&mut message, "' is not in the registry");
            emit(&mut out, Severity::Error, "E1111", message, Some(at_board), None);
            proof {
                lemma_emitted_made(out@[0], board_findings(name@, *controller, whole)[0]);
                assert(out@ =~= seq![out@[0]]);
            }
            (None, out)
        },
        BoardSelection::Found { payload, chip } => match payload {
            Err(errors) => {
                proof {
                    lemma_emitted_forwarded(errors@);
                }
                (None, errors)
            },
            Ok(p) => {
                if find_entry(&p.transports, controller.transport.kind.as_str()).is_none() {
                    let mut message = "controller '".to_owned();
                    push_str(&mut message, name);
                    push_str(&mut message, "': board '");
                    push_str(&mut message, board);
                    push_str(&mut message, "' has no '");
                    push_str(&mut message, controller.transport.kind.as_str());
                    push_str(&mut message, "' transport");
                    let mut at = "controllers.".to_owned();
                    push_str(&mut at, name);
                    push_str(&mut at, ".transport");
                    emit(&mut out, Severity::Error, "E1120", message, Some(at), None);
                    proof {
                        lemma_emitted_made(out@[0], transport_findings(name@, *controller, p)[0]);
                        assert(out@ =~= seq![out@[0]]);
                    }
                }
                assert(emitted(out@, transport_findings(name@, *controller, p)));
                let ghost before = transport_findings(name@, *controller, p);
                let mut kept_chip: Option<(ChipPackageFile, String)> = None;
                match &p.chip {
                    None => {
                        assert(before + chip_findings(board@, p, chip) =~= before);
                    },
                    Some(reference) => match chip {
                        None => {
                            let mut message = "board '".to_owned();
                            push_str(&mut message, board);
                            push_str(&mut message, "' references chip '");
                            push_str(&mut message, reference.as_str());
                            push_str(&mut message, "', which is not in the registry");
                            let mut more: Vec<Diagnostic> = Vec::new();
                            emit(&mut more, Severity::Error, "E1313", message, None, None);
                            proof {
                                lemma_emitted_made(more@[0], chip_findings(board@, p, chip)[0]);
                                assert(more@ =~= seq![more@[0]]);
                            }
                            forward(&mut out, more, Ghost(before), Ghost(chip_findings(board@, p, chip)));
                        },
                        Some(selected) => {
                            let ghost warned: Seq<Emission> = if selected.in_closure {
                                seq![]
                            } else {
                                seq![
                                    Emission::Made {
                                        severity: Severity::Warning,
                                        code: "E1311"@,
                                        message: "board '"@ + board@ + "' chip '"@ + reference@
                                            + "' is not in the dependency closure; using "@
                                            + version_display(selected.reference.version)
                                            + " (highest available)"@,
                                        path: None,
                                        suggestion: None,
                                    },
                                ]
                            };
                            if !selected.in_closure {
                                let mut message = "board '".to_owned();
                                push_str(&mut message, board);
                                push_str(&mut message, "' chip '");
                                push_str(&mut message, reference.as_str());
                                push_str(&mut message, "' is not in the dependency closure; using ");
                                let version = crate::package::version_text(&selected.reference.version);
                                push_str(&mut message, version.as_str());
                                push_str(&mut message, " (highest available)");
                                let mut more: Vec<Diagnostic> = Vec::new();
                                emit(&mut more, Severity::Warning, "E1311", message, None, None);
                                proof {
                                    lemma_emitted_made(more@[0], warned[0]);
                                    assert(more@ =~= seq![more@[0]]);
                                }
                                forward(&mut out, more, Ghost(before), Ghost(warned));
                            } else {
                                assert(before + warned =~= before);
                            }
                            let reference_text = selected.reference.to_message();
                            match selected.payload {
                                Err(errors) => {
                                    let ghost passed = seq![Emission::Forwarded(errors@)];
                                    proof {
                                        lemma_emitted_forwarded(errors@);
                                    }
                                    forward(&mut out, errors, Ghost(before + warned), Ghost(passed));
                                    assert(before + warned + passed =~= before + chip_findings(board@, p, chip));
                                },
                                Ok(c) => {
                                    if c.pin_functions.len() > 0 {
                                        let more = check_wiring(board, reference.as_str(), &p.connectors, &c.pin_functions);
                                        forward(
                                            &mut out,
                                            more,
                                            Ghost(before + warned),
                                            Ghost(wiring_findings(board@, reference@, p.connectors@, c.pin_functions@)),
                                        );
                                        assert(before + warned + wiring_findings(board@, reference@, p.connectors@, c.pin_functions@)
                                            =~= before + chip_findings(board@, p, chip));
                                    } else {
                                        assert(before + warned =~= before + chip_findings(board@, p, chip));
                                    }
                                    kept_chip = Some((c, reference_text));
                                },
                            }
                        },
                    },
                }
                (Some(LoadedBoard { board: p, chip: kept_chip }), out)
            },
        },
    }
}


// ---------------------------------------------------------------------------
// The controller transport tree
// ---------------------------------------------------------------------------

/// The ids of a keyed list.
pub open spec fn keys<V>(entries: Seq<(String, V)>) -> Seq<Seq<char>> {
    entries.map_values(|e: (String, V)| e.0@)
}

/// The suggestion for a parent port that is not a downlink.
pub open spec fn downlink_hint(parent_board: Seq<char>, board: BoardPackageFile) -> Seq<char> {
    if board.downlinks@.len() == 0 {
        "'"@ + parent_board + "' declares no downlinks"@
    } else {
        "available downlinks: "@ + joined(keys(board.downlinks@), ", "@)
    }
}

/// The findings of a child controller's `transport.parent`: a port its
/// parent's board does not declare as a downlink (E1121), or a downlink of
/// another transport type (E1122). Parents that do not name a port, or
/// whose board was not loaded, were diagnosed elsewhere.
pub open spec fn parent_findings(
    controllers: Seq<(String, Controller)>,
    boards: Seq<(String, BoardPackageFile)>,
    name: Seq<char>,
    controller: Controller,
) -> Seq<Emission> {
    match controller.transport.parent {
        None => seq![],
        Some(parent) => match split_at_first(parent@, "."@) {
            None => seq![],
            Some((pctrl, port)) => match entry(boards, pctrl) {
                None => seq![],
                Some(pb) => {
                    let parent_board = match entry(controllers, pctrl) {
                        Some(c) => c.board@,
                        None => seq![],
                    };
                    match entry(pb.downlinks@, port) {
                        None => seq![
                            Emission::Made {
                                severity: Severity::Error,
                                code: "E1121"@,
                                message: "controller '"@ + name + "': transport.parent '"@ + parent@
                                    + "' names port '"@ + port + "', which board '"@ + parent_board
                                    + "' does not declare as a downlink"@,
                                path: Some("controllers."@ + name + ".transport.parent"@),
                                suggestion: Some(downlink_hint(parent_board, pb)),
                            },
                        ],
                        Some(d) => if d.kind@ != controller.transport.kind@ {
                            seq![
                                error_at(
                                    "E1122"@,
                                    "controller '"@ + name + "': transport type '"@
                                        + controller.transport.kind@
                                        + "' disagrees with parent downlink '"@ + parent@
                                        + "' type '"@ + d.kind@ + "'"@,
                                    "controllers."@ + name + ".transport.type"@,
                                ),
                            ]
                        } else {
                            seq![]
                        },
                    }
                },
            },
        },
    }
}

fn downlink_suggestion(parent_board: &str, board: &BoardPackageFile) -> (hint: String)
    ensures
        hint@ == downlink_hint(parent_board@, *board),
{
    if board.downlinks.len() == 0 {
        let mut hint = "'".to_owned();
        push_str(&mut hint, parent_board);
        push_str(&mut hint, "' declares no downlinks");
        hint
    } else {
        let mut names: Vec<String> = Vec::new();
        let mut i: usize = 0;
        while i < board.downlinks.len()
            invariant
                i <= board.downlinks@.len(),
                names@.len() == i,
                string_views(names@) == keys(board.downlinks@).subrange(0, i as int),
            decreases board.downlinks@.len() - i,
        {
            let key = board.downlinks[i].0.clone();
            let ghost before = names@;
            names.push(key);
            assert(names@ == before.push(key));
            assert(keys(board.downlinks@)[i as int] == board.downlinks@[i as int].0@);
            assert forall|j: int| 0 <= j < i + 1 implies string_views(names@)[j] == keys(board.downlinks@).subrange(0, i + 1)[j] by {
                if j < i {
                    assert(string_views(before)[j] == keys(board.downlinks@).subrange(0, i as int)[j]);
                    assert(string_views(names@)[j] == before[j]@);
                }
            }
            assert(string_views(names@) =~= keys(board.downlinks@).subrange(0, i + 1));
            i = i + 1;
        }
        assert(keys(board.downlinks@).subrange(0, board.downlinks@.len() as int) =~= keys(
            board.downlinks@,
        ));
        let listed = crate::text::join(&names, ", ");
        let mut hint = "available downlinks: ".to_owned();
        push_str(&mut hint, listed.as_str());
        hint
    }
}

fn check_parent(
    controllers: &Vec<(String, Controller)>,
    boards: &Vec<(String, BoardPackageFile)>,
    name: &str,
    controller: &Controller,
) -> (out: Vec<Diagnostic>)
    ensures
        emitted(out@, parent_findings(controllers@, boards@, name@, *controller)),
{
    let mut out: Vec<Diagnostic> = Vec::new();
    let parent = match &controller.transport.parent {
        Some(parent) => parent.as_str(),
        None => return out,
    };
    let (pctrl, port) = match split_once(parent, ".") {
        Some(parts) => parts,
        None => return out,
    };
    let pb = match find_entry(boards, pctrl) {
        Some(b) => b,
        None => return out,
    };
    let parent_board = match find_entry(controllers, pctrl) {
        Some(c) => c.board.as_str(),
        None => {
            proof {
                reveal_strlit("");
            }
            ""
        },
    };
    match find_entry(&pb.downlinks, port) {
        None => {
            let mut message = "controller '".to_owned();
            push_str(&mut message, name);
            push_str(&mut message, "': transport.parent '");
            push_str(&mut message, parent);
            push_str(&mut message, "' names port '");
            push_str(&mut message, port);
            push_str(&mut message, "', which board '");
            push_str(&mut message, parent_board);
            push_str(&mut message, "' does not declare as a downlink");
            let mut at = "controllers.".to_owned();
            push_str(&mut at, name);
            push_str(&mut at, ".transport.parent");
            let hint = downlink_suggestion(parent_board, pb);
            emit(&mut out, Severity::Error, "E1121", message, Some(at), Some(hint));
            proof {
                lemma_emitted_made(out@[0], parent_findings(controllers@, boards@, name@, *controller)[0]);
                assert(out@ =~= seq![out@[0]]);
            }
        },
        Some(d) => {
            if !str_eq(d.kind.as_str(), controller.transport.kind.as_str()) {
                let mut message = "controller '".to_owned();
                push_str(&mut message, name);
                push_str(&mut message, "': transport type '");
                push_str(&mut message, controller.transport.kind.as_str());
                push_str(&mut message, "' disagrees with parent downlink '");
                push_str(&mut message, parent);
                push_str(&mut message, "' type '");
                push_str(&mut message, d.kind.as_str());
                push_str(&mut message, "'");
                let mut at = "controllers.".to_owned();
                push_str(&mut at, name);
                push_str(&mut at, ".transport.type");
                emit(&mut out, Severity::Error, "E1122", message, Some(at), None);
                proof {
                    lemma_emitted_made(out@[0], parent_findings(controllers@, boards@, name@, *controller)[0]);
                    assert(out@ =~= seq![out@[0]]);
                }
            }
        },
    }
    out
}

/// The controller a controller's `transport.parent` names.
pub open spec fn parent_controller(controllers: Seq<(String, Controller)>, name: Seq<char>) -> Option<
    Seq<char>,
> {
    match entry(controllers, name) {
        None => None,
        Some(c) => match c.transport.parent {
            None => None,
            Some(parent) => match split_at_first(parent@, "."@) {
                None => None,
                Some((pctrl, _)) => Some(pctrl),
            },
        },
    }
}

/// Following parents from the end of `path` for at most `fuel` steps: the
/// walked path and the controller it revisits, when the chain cycles.
pub open spec fn walk(controllers: Seq<(String, Controller)>, path: Seq<Seq<char>>, fuel: nat) -> Option<
    (Seq<Seq<char>>, Seq<char>),
>
    decreases fuel,
{
    if fuel == 0 {
        None
    } else {
        match parent_controller(controllers, path.last()) {
            None => None,
            Some(next) => if path.contains(next) {
                Some((path, next))
            } else {
                walk(controllers, path.push(next), (fuel - 1) as nat)
            },
        }
    }
}

/// The cycle on the parent chain from `start`: the chain until it revisits
/// a controller, and that controller. A chain visits each controller once
/// before it ends or cycles, so it takes at most one step per controller
/// and one more.
pub open spec fn parent_cycle(controllers: Seq<(String, Controller)>, start: Seq<char>) -> Option<
    (Seq<Seq<char>>, Seq<char>),
> {
    walk(controllers, seq![start], (controllers.len() + 1) as nat)
}

/// The cycle findings (E1123) of the first `k` controllers, and the
/// controllers already reported: a controller on a reported cycle is not
/// walked again.
pub open spec fn cycle_scan(controllers: Seq<(String, Controller)>, k: nat) -> (
    Seq<Emission>,
    Set<Seq<char>>,
)
    decreases k,
{
    if k == 0 || k > controllers.len() {
        (seq![], Set::empty())
    } else {
        let (items, reported) = cycle_scan(controllers, (k - 1) as nat);
        let start = controllers[k - 1].0@;
        if reported.contains(start) {
            (items, reported)
        } else {
            match parent_cycle(controllers, start) {
                None => (items, reported),
                Some((path, back)) => (
                    items.push(
                        error_at(
                            "E1123"@,
                            "controller '"@ + start + "': transport.parent chain cycles back through '"@
                                + back + "'"@,
                            "controllers."@ + start + ".transport.parent"@,
                        ),
                    ),
                    reported + path.to_set() + set![back],
                ),
            }
        }
    }
}

/// Each controller of `path` after the first is the parent controller of
/// the one before it.
pub open spec fn parent_chain(controllers: Seq<(String, Controller)>, path: Seq<Seq<char>>) -> bool {
    forall|i: int|
        0 <= i < path.len() - 1 ==> parent_controller(controllers, #[trigger] path[i]) == Some(
            path[i + 1],
        )
}

/// What a chain from `start` that `path` begins looks like.
pub open spec fn chain_from(controllers: Seq<(String, Controller)>, start: Seq<char>, path: Seq<Seq<char>>) -> bool {
    &&& path.len() >= 1
    &&& path[0] == start
    &&& parent_chain(controllers, path)
    &&& path.no_duplicates()
}

proof fn lemma_walk_exact(
    controllers: Seq<(String, Controller)>,
    start: Seq<char>,
    path: Seq<Seq<char>>,
    fuel: nat,
)
    requires
        chain_from(controllers, start, path),
        forall|i: int| 0 <= i < path.len() - 1 ==> keys(controllers).contains(#[trigger] path[i]),
        fuel == controllers.len() + 2 - path.len(),
    ensures
        match walk(controllers, path, fuel) {
            Some((walked, back)) => chain_from(controllers, start, walked) && parent_controller(
                controllers,
                walked.last(),
            ) == Some(back) && walked.contains(back),
            None => exists|walked: Seq<Seq<char>>|
                chain_from(controllers, start, walked) && parent_controller(controllers, walked.last())
                    is None,
        },
    decreases fuel,
{
    lemma_path_bound(controllers, path.drop_last());
    match parent_controller(controllers, path.last()) {
        None => {
            assert(chain_from(controllers, start, path));
        },
        Some(next) => {
            if !path.contains(next) {
                lemma_entry_is_key(controllers, path.last());
                let longer = path.push(next);
                assert(parent_chain(controllers, longer)) by {
                    assert forall|i: int| 0 <= i < longer.len() - 1 implies parent_controller(
                        controllers,
                        #[trigger] longer[i],
                    ) == Some(longer[i + 1]) by {
                        if i < path.len() - 1 {
                            assert(longer[i] == path[i] && longer[i + 1] == path[i + 1]);
                        } else {
                            assert(longer[i] == path.last());
                        }
                    }
                }
                assert(longer.no_duplicates()) by {
                    assert forall|i: int, j: int| 0 <= i < j < longer.len() implies longer[i] != longer[j] by {
                        if j == path.len() {
                            assert(path.contains(path[i]));
                        }
                    }
                }
                assert forall|i: int| 0 <= i < longer.len() - 1 implies keys(controllers).contains(
                    #[trigger] longer[i],
                ) by {
                    if i == path.len() - 1 {
                        assert(longer[i] == path.last());
                    } else {
                        assert(longer[i] == path[i]);
                    }
                }
                lemma_walk_exact(controllers, start, longer, (fuel - 1) as nat);
            }
        },
    }
}

/// A reported parent cycle is real: the walked chain starts at `start`,
/// follows parents without repeating a controller, and the last one's
/// parent is already on it. A chain that is not reported ends: some chain
/// from `start` reaches a controller without a parent controller.
pub proof fn parent_cycles_are_exact(controllers: Seq<(String, Controller)>, start: Seq<char>)
    ensures
        match parent_cycle(controllers, start) {
            Some((path, back)) => chain_from(controllers, start, path) && parent_controller(
                controllers,
                path.last(),
            ) == Some(back) && path.contains(back),
            None => exists|path: Seq<Seq<char>>|
                chain_from(controllers, start, path) && parent_controller(controllers, path.last())
                    is None,
        },
{
    let path = seq![start];
    assert(path.no_duplicates());
    assert(parent_chain(controllers, path));
    lemma_walk_exact(controllers, start, path, (controllers.len() + 1) as nat);
}

fn contains_text(list: &Vec<String>, text: &str) -> (found: bool)
    ensures
        found == string_views(list@).contains(text@),
{
    let mut i: usize = 0;
    while i < list.len()
        invariant
            i <= list@.len(),
            forall|j: int| 0 <= j < i ==> (#[trigger] list@[j])@ != text@,
        decreases list@.len() - i,
    {
        if str_eq(list[i].as_str(), text) {
            assert(string_views(list@)[i as int] == text@);
            return true;
        }
        i = i + 1;
    }
    assert forall|j: int| 0 <= j < string_views(list@).len() implies string_views(list@)[j] != text@ by {
        assert(string_views(list@)[j] == list@[j]@);
    }
    false
}

proof fn lemma_entry_is_key<V>(entries: Seq<(String, V)>, key: Seq<char>)
    requires
        entry(entries, key) is Some,
    ensures
        keys(entries).contains(key),
    decreases entries.len(),
{
    if entries[0].0@ == key {
        assert(keys(entries)[0] == key);
    } else {
        lemma_entry_is_key(entries.drop_first(), key);
        let k = choose|k: int| 0 <= k < keys(entries.drop_first()).len() && keys(entries.drop_first())[k] == key;
        assert(keys(entries)[k + 1] == key);
    }
}

/// A path of distinct controller ids is no longer than the controller list.
proof fn lemma_path_bound(controllers: Seq<(String, Controller)>, path: Seq<Seq<char>>)
    requires
        path.no_duplicates(),
        forall|i: int| 0 <= i < path.len() ==> keys(controllers).contains(#[trigger] path[i]),
    ensures
        path.len() <= controllers.len(),
{
    let ks = keys(controllers);
    path.unique_seq_to_set();
    ks.lemma_cardinality_of_set();
    assert(path.to_set().subset_of(ks.to_set())) by {
        assert forall|x: Seq<char>| path.to_set().contains(x) implies ks.to_set().contains(x) by {
            let i = choose|i: int| 0 <= i < path.len() && path[i] == x;
        }
    }
    vstd::set_lib::lemma_len_subset(path.to_set(), ks.to_set());
}

fn find_cycle(controllers: &Vec<(String, Controller)>, start: &str) -> (found: Option<(Vec<String>, String)>)
    ensures
        match found {
            Some((path, back)) => parent_cycle(controllers@, start@) == Some((string_views(path@), back@)),
            None => parent_cycle(controllers@, start@) is None,
        },
{
    let ghost n = controllers@.len();
    let mut path: Vec<String> = Vec::new();
    path.push(start.to_owned());
    assert(string_views(path@) =~= seq![start@]);
    let mut current: String = start.to_owned();
    loop
        invariant
            n == controllers@.len(),
            1 <= path@.len() <= n + 1,
            current@ == string_views(path@).last(),
            string_views(path@).no_duplicates(),
            forall|i: int| 0 <= i < path@.len() - 1 ==> keys(controllers@).contains(#[trigger] string_views(path@)[i]),
            parent_cycle(controllers@, start@) == walk(
                controllers@,
                string_views(path@),
                (n + 2 - path@.len()) as nat,
            ),
        decreases n + 1 - path@.len(),
    {
        let ghost views = string_views(path@);
        let ctrl = match find_entry(controllers, current.as_str()) {
            Some(c) => c,
            None => return None,
        };
        let parent = match &ctrl.transport.parent {
            Some(p) => p.as_str(),
            None => return None,
        };
        let (pctrl, _) = match split_once(parent, ".") {
            Some(parts) => parts,
            None => return None,
        };
        assert(parent_controller(controllers@, views.last()) == Some(pctrl@));
        if contains_text(&path, pctrl) {
            return Some((path, pctrl.to_owned()));
        }
        proof {
            lemma_entry_is_key(controllers@, views.last());
            assert forall|i: int| 0 <= i < views.len() implies keys(controllers@).contains(#[trigger] views[i]) by {
                if i == views.len() - 1 {
                    assert(views[i] == views.last());
                }
            }
            lemma_path_bound(controllers@, views);
        }
        path.push(pctrl.to_owned());
        proof {
            assert(string_views(path@) =~= views.push(pctrl@));
            assert(views.push(pctrl@).no_duplicates()) by {
                assert forall|i: int, j: int| 0 <= i < j < views.push(pctrl@).len() implies views.push(pctrl@)[i] != views.push(pctrl@)[j] by {
                    if j == views.len() {
                        assert(views.contains(views[i]));
                    }
                }
            }
            assert forall|i: int| 0 <= i < path@.len() - 1 implies keys(controllers@).contains(#[trigger] string_views(path@)[i]) by {
                assert(string_views(path@)[i] == views[i]);
            }
        }
        current = pctrl.to_owned();
    }
}

fn check_cycles(controllers: &Vec<(String, Controller)>) -> (out: Vec<Diagnostic>)
    ensures
        emitted(out@, cycle_scan(controllers@, controllers@.len()).0),
{
    let mut out: Vec<Diagnostic> = Vec::new();
    let mut reported: Vec<String> = Vec::new();
    let mut i: usize = 0;
    while i < controllers.len()
        invariant
            i <= controllers@.len(),
            emitted(out@, cycle_scan(controllers@, i as nat).0),
            string_views(reported@).to_set() == cycle_scan(controllers@, i as nat).1,
        decreases controllers@.len() - i,
    {
        let start = controllers[i].0.as_str();
        let ghost before = cycle_scan(controllers@, i as nat);
        assert(cycle_scan(controllers@, (i + 1) as nat) == {
            let (items, rep) = before;
            if rep.contains(start@) {
                (items, rep)
            } else {
                match parent_cycle(controllers@, start@) {
                    None => (items, rep),
                    Some((path, back)) => (
                        items.push(
                            error_at(
                                "E1123"@,
                                "controller '"@ + start@
                                    + "': transport.parent chain cycles back through '"@ + back
                                    + "'"@,
                                "controllers."@ + start@ + ".transport.parent"@,
                            ),
                        ),
                        rep + path.to_set() + set![back],
                    ),
                }
            }
        });
        if !contains_text(&reported, start) {
            match find_cycle(controllers, start) {
                None => {},
                Some((path, back)) => {
                    let mut message = "controller '".to_owned();
                    push_str(&mut message, start);
                    push_str(&mut message, "': transport.parent chain cycles back through '");
                    push_str(&mut message, back.as_str());
                    push_str(&mut message, "'");
                    let mut at = "controllers.".to_owned();
                    push_str(&mut at, start);
                    push_str(&mut at, ".transport.parent");
                    let ghost prior = out@;
                    emit(&mut out, Severity::Error, "E1123", message, Some(at), None);
                    proof {
                        let items = before.0;
                        let e = error_at(
                            "E1123"@,
                            "controller '"@ + start@ + "': transport.parent chain cycles back through '"@
                                + back@ + "'"@,
                            "controllers."@ + start@ + ".transport.parent"@,
                        );
                        assert(items.push(e).drop_last() =~= items);
                        assert(out@.drop_last() =~= prior);
                    }
                    let ghost rep_before = reported@;
                    let ghost path_views = string_views(path@);
                    let mut path = path;
                    reported.append(&mut path);
                    reported.push(back);
                    proof {
                        assert(string_views(reported@) =~= string_views(rep_before) + path_views + seq![back@]);
                        assert(string_views(reported@).to_set() =~= string_views(rep_before).to_set()
                            + path_views.to_set() + set![back@]) by {
                            let all = string_views(reported@);
                            assert forall|x: Seq<char>| all.to_set().contains(x) implies (string_views(rep_before).to_set()
                                + path_views.to_set() + set![back@]).contains(x) by {
                                let k = choose|k: int| 0 <= k < all.len() && all[k] == x;
                                if k < rep_before.len() {
                                    assert(string_views(rep_before)[k] == x);
                                } else if k < rep_before.len() + path_views.len() {
                                    assert(path_views[k - rep_before.len()] == x);
                                }
                            }
                            assert forall|x: Seq<char>| (string_views(rep_before).to_set()
                                + path_views.to_set() + set![back@]).contains(x) implies all.to_set().contains(x) by {
                                if string_views(rep_before).to_set().contains(x) {
                                    let k = choose|k: int| 0 <= k < rep_before.len() && string_views(rep_before)[k] == x;
                                    assert(all[k] == x);
                                } else if path_views.to_set().contains(x) {
                                    let k = choose|k: int| 0 <= k < path_views.len() && path_views[k] == x;
                                    assert(all[rep_before.len() + k] == x);
                                } else {
                                    assert(all[all.len() - 1] == x);
                                }
                            }
                        }
                    }
                },
            }
        }
        i = i + 1;
    }
    out
}


// ---------------------------------------------------------------------------
// The phase
// ---------------------------------------------------------------------------

/// The board findings of the first `k` controllers, in controller order.
pub open spec fn board_pass(
    controllers: Seq<(String, Controller)>,
    selections: Seq<BoardSelection>,
    k: nat,
) -> Seq<Emission>
    decreases k,
{
    if k == 0 || k > controllers.len() {
        seq![]
    } else {
        board_pass(controllers, selections, (k - 1) as nat) + board_findings(
            controllers[k - 1].0@,
            controllers[k - 1].1,
            selections[k - 1],
        )
    }
}

/// The boards kept for the first `k` controllers.
pub open spec fn kept_boards(
    controllers: Seq<(String, Controller)>,
    selections: Seq<BoardSelection>,
    k: nat,
) -> Seq<(Seq<char>, BoardPackageFile)>
    decreases k,
{
    if k == 0 || k > controllers.len() {
        seq![]
    } else {
        kept_boards(controllers, selections, (k - 1) as nat) + match board_kept(
            controllers[k - 1].1,
            selections[k - 1],
        ) {
            Some(p) => seq![(controllers[k - 1].0@, p)],
            None => seq![],
        }
    }
}

/// The chips (with their package references) kept for the first `k`
/// controllers.
pub open spec fn kept_chips(
    controllers: Seq<(String, Controller)>,
    selections: Seq<BoardSelection>,
    k: nat,
) -> Seq<(Seq<char>, ChipPackageFile, Seq<char>)>
    decreases k,
{
    if k == 0 || k > controllers.len() {
        seq![]
    } else {
        kept_chips(controllers, selections, (k - 1) as nat) + match chip_kept(
            controllers[k - 1].1,
            selections[k - 1],
        ) {
            Some((c, r)) => seq![(controllers[k - 1].0@, c, reference_text(r))],
            None => seq![],
        }
    }
}

/// The parent findings of the first `k` controllers.
pub open spec fn parent_pass(
    controllers: Seq<(String, Controller)>,
    boards: Seq<(String, BoardPackageFile)>,
    k: nat,
) -> Seq<Emission>
    decreases k,
{
    if k == 0 || k > controllers.len() {
        seq![]
    } else {
        parent_pass(controllers, boards, (k - 1) as nat) + parent_findings(
            controllers,
            boards,
            controllers[k - 1].0@,
            controllers[k - 1].1,
        )
    }
}

/// Everything loading reports: each controller's board findings, then
/// each child's parent findings over the kept boards, then the parent
/// cycles.
pub open spec fn load_findings(
    controllers: Seq<(String, Controller)>,
    selections: Seq<BoardSelection>,
    boards: Seq<(String, BoardPackageFile)>,
) -> Seq<Emission> {
    board_pass(controllers, selections, controllers.len()) + parent_pass(
        controllers,
        boards,
        controllers.len(),
    ) + cycle_scan(controllers, controllers.len()).0
}

/// The ids and payloads of a keyed list.
pub open spec fn payload_views<V>(entries: Seq<(String, V)>) -> Seq<(Seq<char>, V)> {
    entries.map_values(|e: (String, V)| (e.0@, e.1))
}

/// Load each controller's board and chip payloads from what package
/// selection found for it (one selection per controller, in controller
/// order), check board wiring against the chip, and check the transport
/// tree.
pub fn load(
    controllers: &Vec<(String, Controller)>,
    selections: Vec<BoardSelection>,
    diagnostics: &mut Vec<Diagnostic>,
) -> (targets: ControllerTargets)
    requires
        selections@.len() == controllers@.len(),
    ensures
        payload_views(targets.boards@) == kept_boards(controllers@, selections@, controllers@.len()),
        targets.chips@.len() == kept_chips(controllers@, selections@, controllers@.len()).len(),
        targets.chip_refs@.len() == targets.chips@.len(),
        forall|i: int|
            0 <= i < targets.chips@.len() ==> {
                let (name, chip, reference) = #[trigger] kept_chips(
                    controllers@,
                    selections@,
                    controllers@.len(),
                )[i];
                &&& targets.chips@[i].0@ == name
                &&& targets.chips@[i].1 == chip
                &&& targets.chip_refs@[i].0@ == name
                &&& targets.chip_refs@[i].1@ == reference
            },
        final(diagnostics)@.subrange(0, old(diagnostics)@.len() as int) == old(diagnostics)@,
        emitted(
            final(diagnostics)@.subrange(old(diagnostics)@.len() as int, final(diagnostics)@.len() as int),
            load_findings(controllers@, selections@, targets.boards@),
        ),
{
    let ghost all = selections@;
    let ghost n = controllers@.len();
    let mut pending = selections;
    let mut out: Vec<Diagnostic> = Vec::new();
    let mut boards: Vec<(String, BoardPackageFile)> = Vec::new();
    let mut chips: Vec<(String, ChipPackageFile)> = Vec::new();
    let mut chip_refs: Vec<(String, String)> = Vec::new();
    let mut i: usize = 0;
    while i < controllers.len()
        invariant
            n == controllers@.len(),
            all.len() == n,
            i <= n,
            pending@ == all.subrange(i as int, n as int),
            emitted(out@, board_pass(controllers@, all, i as nat)),
            payload_views(boards@) == kept_boards(controllers@, all, i as nat),
            chips@.len() == kept_chips(controllers@, all, i as nat).len(),
            chip_refs@.len() == chips@.len(),
            forall|j: int|
                0 <= j < chips@.len() ==> {
                    let (name, chip, reference) = #[trigger] kept_chips(controllers@, all, i as nat)[j];
                    &&& chips@[j].0@ == name
                    &&& chips@[j].1 == chip
                    &&& chip_refs@[j].0@ == name
                    &&& chip_refs@[j].1@ == reference
                },
        decreases n - i,
    {
        let name = &controllers[i].0;
        let controller = &controllers[i].1;
        let selection = pending.remove(0);
        assert(selection == all[i as int]);
        assert(pending@ =~= all.subrange(i + 1, n as int));
        let ghost prior_boards = boards@;
        let ghost prior_chips = chips@;
        let ghost prior_refs = chip_refs@;
        let (kept, more) = load_board(name.as_str(), controller, selection);
        forward(
            &mut out,
            more,
            Ghost(board_pass(controllers@, all, i as nat)),
            Ghost(board_findings(name@, *controller, all[i as int])),
        );
        match kept {
            Some(loaded) => {
                match loaded.chip {
                    Some((chip, reference)) => {
                        chips.push((name.clone(), chip));
                        chip_refs.push((name.clone(), reference));
                    },
                    None => {},
                }
                boards.push((name.clone(), loaded.board));
            },
            None => {},
        }
        proof {
            let next = kept_chips(controllers@, all, (i + 1) as nat);
            assert(next == kept_chips(controllers@, all, i as nat) + match chip_kept(*controller, all[i as int]) {
                Some((c, r)) => seq![(name@, c, reference_text(r))],
                None => seq![],
            });
            assert(payload_views(boards@) =~= kept_boards(controllers@, all, (i + 1) as nat));
            assert forall|j: int| 0 <= j < chips@.len() implies {
                let (nm, chip, reference) = #[trigger] next[j];
                &&& chips@[j].0@ == nm
                &&& chips@[j].1 == chip
                &&& chip_refs@[j].0@ == nm
                &&& chip_refs@[j].1@ == reference
            } by {
                if j < prior_chips.len() {
                    assert(next[j] == kept_chips(controllers@, all, i as nat)[j]);
                    assert(chips@[j] == prior_chips[j]);
                    assert(chip_refs@[j] == prior_refs[j]);
                }
            }
        }
        i = i + 1;
    }
    let mut k: usize = 0;
    while k < controllers.len()
        invariant
            n == controllers@.len(),
            i == n,
            k <= n,
            emitted(out@, board_pass(controllers@, all, n as nat) + parent_pass(controllers@, boards@, k as nat)),
        decreases n - k,
    {
        let more = check_parent(controllers, &boards, controllers[k].0.as_str(), &controllers[k].1);
        proof {
            assert(board_pass(controllers@, all, n as nat) + parent_pass(controllers@, boards@, (k + 1) as nat)
                =~= board_pass(controllers@, all, n as nat) + parent_pass(controllers@, boards@, k as nat)
                + parent_findings(controllers@, boards@, controllers@[k as int].0@, controllers@[k as int].1));
        }
        forward(
            &mut out,
            more,
            Ghost(board_pass(controllers@, all, n as nat) + parent_pass(controllers@, boards@, k as nat)),
            Ghost(parent_findings(controllers@, boards@, controllers@[k as int].0@, controllers@[k as int].1)),
        );
        k = k + 1;
    }
    let cycles = check_cycles(controllers);
    forward(
        &mut out,
        cycles,
        Ghost(board_pass(controllers@, all, n as nat) + parent_pass(controllers@, boards@, n as nat)),
        Ghost(cycle_scan(controllers@, n as nat).0),
    );
    let ghost before = diagnostics@;
    let ghost added = out@;
    diagnostics.append(&mut out);
    assert(diagnostics@.subrange(0, before.len() as int) =~= before);
    assert(diagnostics@.subrange(before.len() as int, diagnostics@.len() as int) =~= added);
    ControllerTargets { boards, chips, chip_refs }
}

} // verus!
