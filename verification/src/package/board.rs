//! Board package payload: hardware identity, connectors, transports and the
//! board's flashing recipes.

use vstd::prelude::*;
use crate::package::PackageIdentity;
use crate::schema::{Diagnostic, Severity, is_valid_identifier, valid_identifier};
use crate::text::{chars_of, has_prefix, push_str, str_eq, trim, trimmed};

verus! {

#[derive(Debug, Clone, PartialEq, Eq)]
pub struct Hardware {
    pub manufacturer: Option<String>,
    pub model: Option<String>,
    pub revision: Option<String>,
}

/// A connector the board offers to a machine's components.
#[derive(Debug, Clone, PartialEq, Eq)]
pub struct Connector {
    /// Connector class (`stepper_driver_socket`, `power_output`, ...).
    pub kind: String,
    /// Multi-pin connectors: signal name to MCU pin, in name order.
    pub pins: Vec<(String, String)>,
    /// Single-pin connectors.
    pub pin: Option<String>,
    pub voltage_domain: Option<String>,
    /// Quantity text, e.g. `"5 A"`.
    pub max_current: Option<String>,
    pub supply: Option<String>,
    /// Quantity text, e.g. `"4.7 kOhm"`.
    pub pullup: Option<String>,
}

#[derive(Debug, Clone, PartialEq, Eq)]
pub struct Transport {
    pub peripheral: Option<String>,
}

/// A port the board offers to child controllers.
#[derive(Debug, Clone, PartialEq, Eq)]
pub struct Downlink {
    pub kind: String,
}

/// The identity of a device while it is in its bootloader.
#[derive(Debug, PartialEq, Eq)]
pub struct UsbSelector {
    pub usb_vid: u16,
    pub usb_pid: u16,
    pub serial_number: Option<String>,
    pub manufacturer: Option<String>,
    pub product: Option<String>,
}

/// One way to flash the board.
#[derive(Debug, PartialEq, Eq)]
pub struct FlashMethod {
    /// Transport of the flashing protocol (`usb` in this version).
    pub transport: String,
    pub select: UsbSelector,
    /// Operator instructions to enter the bootloader, reported verbatim.
    pub enter_bootloader: Vec<String>,
    /// Verification vocabulary; only `sha256` is accepted.
    pub verify: String,
    /// Board-specific recovery instructions surfaced by every plan.
    pub recovery: Vec<String>,
}

/// The board's flashing recipes, keyed by method id in key order.
#[derive(Debug, PartialEq, Eq)]
pub struct FlashConfig {
    pub default_method: String,
    pub methods: Vec<(String, FlashMethod)>,
}

/// The recipe registered under `name`: the first one with that id.
pub open spec fn recipe_named(methods: Seq<(String, FlashMethod)>, name: Seq<char>) -> Option<
    FlashMethod,
>
    decreases methods.len(),
{
    if methods.len() == 0 {
        None
    } else if methods[0].0@ == name {
        Some(methods[0].1)
    } else {
        recipe_named(methods.drop_first(), name)
    }
}

impl FlashConfig {
    /// The recipe named by `default_method`, if it is registered.
    pub fn default_recipe(&self) -> (recipe: Option<&FlashMethod>)
        ensures
            match recipe {
                Some(r) => recipe_named(self.methods@, self.default_method@) == Some(*r),
                None => recipe_named(self.methods@, self.default_method@) is None,
            },
    {
        let mut i: usize = 0;
        assert(self.methods@.subrange(0, self.methods@.len() as int) =~= self.methods@);
        while i < self.methods.len()
            invariant
                i <= self.methods@.len(),
                recipe_named(self.methods@, self.default_method@) == recipe_named(
                    self.methods@.subrange(i as int, self.methods@.len() as int),
                    self.default_method@,
                ),
            decreases self.methods@.len() - i,
        {
            proof {
                let rest = self.methods@.subrange(i as int, self.methods@.len() as int);
                assert(rest.drop_first() =~= self.methods@.subrange(
                    i + 1,
                    self.methods@.len() as int,
                ));
            }
            if str_eq(self.methods[i].0.as_str(), self.default_method.as_str()) {
                return Some(&self.methods[i].1);
            }
            i = i + 1;
        }
        None
    }
}

// ---------------------------------------------------------------------------
// Recipe validation
// ---------------------------------------------------------------------------

/// An error finding as code and message.
pub open spec fn finding(code: Seq<char>, message: Seq<char>) -> (Seq<char>, Seq<char>) {
    (code, message)
}

/// The code and message of each diagnostic.
pub open spec fn findings(diagnostics: Seq<Diagnostic>) -> Seq<(Seq<char>, Seq<char>)> {
    diagnostics.map_values(|d: Diagnostic| (d.code@, d.message@))
}

/// Every diagnostic is an unlocated error without suggestions.
pub open spec fn plain_errors(diagnostics: Seq<Diagnostic>) -> bool {
    forall|i: int|
        0 <= i < diagnostics.len() ==> {
            let d = #[trigger] diagnostics[i];
            &&& d.severity == Severity::Error
            &&& d.path is None
            &&& d.line is None
            &&& d.column is None
            &&& d.suggestions@.len() == 0
        }
}

/// A present select field that is blank.
pub open spec fn blank_field(value: Option<String>) -> bool {
    match value {
        Some(v) => trimmed(v@).len() == 0,
        None => false,
    }
}

/// Some instruction is blank.
pub open spec fn has_blank_line(lines: Seq<String>) -> bool {
    exists|i: int| 0 <= i < lines.len() && trimmed(#[trigger] lines[i]@).len() == 0
}

/// `<reference>: flash method '<id>`, the head of every recipe finding.
pub open spec fn method_prefix(reference: Seq<char>, id: Seq<char>) -> Seq<char> {
    reference + ": flash method '"@ + id
}

/// One finding when `failed`, none otherwise.
pub open spec fn finding_if(failed: bool, code: Seq<char>, message: Seq<char>) -> Seq<
    (Seq<char>, Seq<char>),
> {
    if failed {
        seq![finding(code, message)]
    } else {
        seq![]
    }
}

/// Findings on the recipe's id, transport and verification.
pub open spec fn recipe_kind_findings(reference: Seq<char>, id: Seq<char>, method: FlashMethod) -> Seq<
    (Seq<char>, Seq<char>),
> {
    let prefix = method_prefix(reference, id);
    finding_if(!is_valid_identifier(id), "E0615"@, prefix + "' is not a valid identifier"@)
        + finding_if(
        method.transport@ != "usb"@,
        "E0617"@,
        prefix + "' uses unsupported transport '"@ + method.transport@ + "' (v0 supports usb)"@,
    ) + finding_if(
        method.verify@ != "sha256"@,
        "E0618"@,
        prefix + "' uses unsupported verification '"@ + method.verify@
            + "' (v0 supports sha256)"@,
    )
}

/// Findings on blank select fields.
pub open spec fn select_findings(reference: Seq<char>, id: Seq<char>, select: UsbSelector) -> Seq<
    (Seq<char>, Seq<char>),
> {
    let prefix = method_prefix(reference, id);
    finding_if(
        blank_field(select.serial_number),
        "E0619"@,
        prefix + "' select.serial_number must not be empty"@,
    ) + finding_if(
        blank_field(select.manufacturer),
        "E0619"@,
        prefix + "' select.manufacturer must not be empty"@,
    ) + finding_if(
        blank_field(select.product),
        "E0619"@,
        prefix + "' select.product must not be empty"@,
    )
}

/// Findings on the operator instructions.
pub open spec fn instruction_findings(reference: Seq<char>, id: Seq<char>, method: FlashMethod) -> Seq<
    (Seq<char>, Seq<char>),
> {
    let prefix = method_prefix(reference, id);
    finding_if(
        has_blank_line(method.enter_bootloader@) || has_blank_line(method.recovery@),
        "E0619"@,
        prefix + "' instructions must not be empty"@,
    ) + finding_if(
        method.recovery@.len() == 0,
        "E0619"@,
        prefix + "' must provide recovery instructions"@,
    )
}

/// The findings for one recipe, in the order they are reported.
pub open spec fn method_findings(reference: Seq<char>, id: Seq<char>, method: FlashMethod) -> Seq<
    (Seq<char>, Seq<char>),
> {
    recipe_kind_findings(reference, id, method) + select_findings(reference, id, method.select)
        + instruction_findings(reference, id, method)
}

/// The findings for every recipe, in key order.
pub open spec fn methods_findings(reference: Seq<char>, methods: Seq<(String, FlashMethod)>) -> Seq<
    (Seq<char>, Seq<char>),
>
    decreases methods.len(),
{
    if methods.len() == 0 {
        seq![]
    } else {
        methods_findings(reference, methods.drop_last()) + method_findings(
            reference,
            methods.last().0@,
            methods.last().1,
        )
    }
}

/// The findings for a board's flashing recipes.
pub open spec fn flash_findings(reference: Seq<char>, flash: FlashConfig) -> Seq<
    (Seq<char>, Seq<char>),
> {
    let id = if is_valid_identifier(flash.default_method@) {
        seq![]
    } else {
        seq![
            finding(
                "E0615"@,
                reference + ": flash.default_method '"@ + flash.default_method@
                    + "' is not a valid identifier"@,
            ),
        ]
    };
    let known = if recipe_named(flash.methods@, flash.default_method@) is Some {
        seq![]
    } else {
        seq![
            finding(
                "E0616"@,
                reference + ": flash.default_method '"@ + flash.default_method@
                    + "' has no matching method"@,
            ),
        ]
    };
    id + known + methods_findings(reference, flash.methods@)
}

pub(crate) fn report(diags: &mut Vec<Diagnostic>, code: &str, message: String)
    ensures
        plain_errors(old(diags)@) ==> plain_errors(final(diags)@),
        findings(final(diags)@) == findings(old(diags)@).push(finding(code@, message@)),
{
    let d = Diagnostic::error(code, message.as_str());
    diags.push(d);
    assert(findings(diags@) =~= findings(old(diags)@).push(finding(code@, message@)));
}

fn method_message(reference: &str, id: &str, tail: &str) -> (message: String)
    ensures
        message@ == reference@ + ": flash method '"@ + id@ + tail@,
{
    let mut message = reference.to_owned();
    push_str(&mut message, ": flash method '");
    push_str(&mut message, id);
    push_str(&mut message, tail);
    message
}

fn is_blank_option(value: &Option<String>) -> (blank: bool)
    ensures
        blank == blank_field(*value),
{
    match value {
        Some(v) => trim(v.as_str()).unicode_len() == 0,
        None => false,
    }
}

fn any_blank_line(lines: &Vec<String>) -> (blank: bool)
    ensures
        blank == has_blank_line(lines@),
{
    let mut i: usize = 0;
    while i < lines.len()
        invariant
            i <= lines@.len(),
            forall|k: int| 0 <= k < i ==> trimmed(#[trigger] lines@[k]@).len() != 0,
        decreases lines@.len() - i,
    {
        if trim(lines[i].as_str()).unicode_len() == 0 {
            return true;
        }
        i = i + 1;
    }
    false
}

fn report_if(
    diags: &mut Vec<Diagnostic>,
    failed: bool,
    code: &str,
    message: String,
)
    ensures
        plain_errors(old(diags)@) ==> plain_errors(final(diags)@),
        findings(final(diags)@) == findings(old(diags)@) + finding_if(failed, code@, message@),
{
    if failed {
        report(diags, code, message);
    }
    assert(findings(diags@) =~= findings(old(diags)@) + finding_if(failed, code@, message@));
}

fn check_recipe_kind(reference: &str, id: &str, method: &FlashMethod, diags: &mut Vec<Diagnostic>)
    ensures
        plain_errors(old(diags)@) ==> plain_errors(final(diags)@),
        findings(final(diags)@) == findings(old(diags)@) + recipe_kind_findings(
            reference@,
            id@,
            *method,
        ),
{
    let ghost start = findings(diags@);
    report_if(
        diags,
        !valid_identifier(id),
        "E0615",
        method_message(reference, id, "' is not a valid identifier"),
    );
    let mut message = method_message(reference, id, "' uses unsupported transport '");
    push_str(&mut message, method.transport.as_str());
    push_str(&mut message, "' (v0 supports usb)");
    report_if(diags, !str_eq(method.transport.as_str(), "usb"), "E0617", message);
    let mut message = method_message(reference, id, "' uses unsupported verification '");
    push_str(&mut message, method.verify.as_str());
    push_str(&mut message, "' (v0 supports sha256)");
    report_if(diags, !str_eq(method.verify.as_str(), "sha256"), "E0618", message);
    assert(findings(diags@) =~= start + recipe_kind_findings(reference@, id@, *method));
}

fn check_select(reference: &str, id: &str, select: &UsbSelector, diags: &mut Vec<Diagnostic>)
    ensures
        plain_errors(old(diags)@) ==> plain_errors(final(diags)@),
        findings(final(diags)@) == findings(old(diags)@) + select_findings(
            reference@,
            id@,
            *select,
        ),
{
    let ghost start = findings(diags@);
    report_if(
        diags,
        is_blank_option(&select.serial_number),
        "E0619",
        method_message(reference, id, "' select.serial_number must not be empty"),
    );
    report_if(
        diags,
        is_blank_option(&select.manufacturer),
        "E0619",
        method_message(reference, id, "' select.manufacturer must not be empty"),
    );
    report_if(
        diags,
        is_blank_option(&select.product),
        "E0619",
        method_message(reference, id, "' select.product must not be empty"),
    );
    assert(findings(diags@) =~= start + select_findings(reference@, id@, *select));
}

fn check_instructions(reference: &str, id: &str, method: &FlashMethod, diags: &mut Vec<Diagnostic>)
    ensures
        plain_errors(old(diags)@) ==> plain_errors(final(diags)@),
        findings(final(diags)@) == findings(old(diags)@) + instruction_findings(
            reference@,
            id@,
            *method,
        ),
{
    let ghost start = findings(diags@);
    let blank = any_blank_line(&method.enter_bootloader) || any_blank_line(&method.recovery);
    report_if(
        diags,
        blank,
        "E0619",
        method_message(reference, id, "' instructions must not be empty"),
    );
    report_if(
        diags,
        method.recovery.len() == 0,
        "E0619",
        method_message(reference, id, "' must provide recovery instructions"),
    );
    assert(findings(diags@) =~= start + instruction_findings(reference@, id@, *method));
}

fn check_method(reference: &str, id: &str, method: &FlashMethod, diags: &mut Vec<Diagnostic>)
    ensures
        plain_errors(old(diags)@) ==> plain_errors(final(diags)@),
        findings(final(diags)@) == findings(old(diags)@) + method_findings(reference@, id@, *method),
{
    let ghost start = findings(diags@);
    check_recipe_kind(reference, id, method, diags);
    check_select(reference, id, &method.select, diags);
    check_instructions(reference, id, method, diags);
    assert(findings(diags@) =~= start + method_findings(reference@, id@, *method));
}

/// Appends the findings for a board's flashing recipes to `diags`.
pub fn validate_flash(reference: &str, flash: &FlashConfig, diags: &mut Vec<Diagnostic>)
    ensures
        plain_errors(old(diags)@) ==> plain_errors(final(diags)@),
        findings(final(diags)@) == findings(old(diags)@) + flash_findings(reference@, *flash),
{
    let ghost start = findings(diags@);
    if !valid_identifier(flash.default_method.as_str()) {
        let mut message = reference.to_owned();
        push_str(&mut message, ": flash.default_method '");
        push_str(&mut message, flash.default_method.as_str());
        push_str(&mut message, "' is not a valid identifier");
        report(diags, "E0615", message);
    }
    if flash.default_recipe().is_none() {
        let mut message = reference.to_owned();
        push_str(&mut message, ": flash.default_method '");
        push_str(&mut message, flash.default_method.as_str());
        push_str(&mut message, "' has no matching method");
        report(diags, "E0616", message);
    }
    let ghost head = findings(diags@);
    let mut i: usize = 0;
    while i < flash.methods.len()
        invariant
            i <= flash.methods@.len(),
            plain_errors(old(diags)@) ==> plain_errors(diags@),
            findings(diags@) == head + methods_findings(
                reference@,
                flash.methods@.subrange(0, i as int),
            ),
        decreases flash.methods@.len() - i,
    {
        proof {
            let next = flash.methods@.subrange(0, i + 1);
            assert(next.drop_last() =~= flash.methods@.subrange(0, i as int));
        }
        check_method(reference, flash.methods[i].0.as_str(), &flash.methods[i].1, diags);
        proof {
            let next = flash.methods@.subrange(0, i + 1);
            assert(findings(diags@) =~= head + methods_findings(reference@, next));
        }
        i = i + 1;
    }
    assert(flash.methods@.subrange(0, flash.methods@.len() as int) =~= flash.methods@);
    assert(findings(diags@) =~= start + flash_findings(reference@, *flash));
}

// ---------------------------------------------------------------------------
// The board payload
// ---------------------------------------------------------------------------

/// The `package.yaml` view of a board package. Maps are listed in key
/// order.
#[derive(Debug)]
pub struct BoardPackageFile {
    pub package: PackageIdentity,
    /// Chip package reference (`chips/stm32f446re@1.0.0`).
    pub chip: Option<String>,
    pub hardware: Option<Hardware>,
    pub connectors: Vec<(String, Connector)>,
    /// The uplinks this board's own controller uses.
    pub transports: Vec<(String, Transport)>,
    /// Ports this board offers to child controllers.
    pub downlinks: Vec<(String, Downlink)>,
    pub flash: Option<FlashConfig>,
}

/// One finding when both a field and a reason it cannot be read are
/// present.
pub open spec fn quantity_finding(
    field: Option<String>,
    problem: Option<String>,
    message: Seq<char>,
) -> Seq<(Seq<char>, Seq<char>)> {
    match (field, problem) {
        (Some(_), Some(reason)) => seq![finding("E0614"@, message + reason@)],
        _ => seq![],
    }
}

/// Findings for one connector: its id, then its `max_current` and
/// `pullup` texts when present and unreadable as a current and a
/// resistance (`problems` holds what the quantity reader said of each).
pub open spec fn connector_findings(
    reference: Seq<char>,
    id: Seq<char>,
    connector: Connector,
    problems: (Option<String>, Option<String>),
) -> Seq<(Seq<char>, Seq<char>)> {
    let head = reference + ": connector '"@ + id;
    finding_if(!is_valid_identifier(id), "E0613"@, head + "' is not a valid identifier"@)
        + quantity_finding(connector.max_current, problems.0, head + "' max_current: "@)
        + quantity_finding(connector.pullup, problems.1, head + "' pullup: "@)
}

pub open spec fn connectors_findings(
    reference: Seq<char>,
    connectors: Seq<(String, Connector)>,
    problems: Seq<(Option<String>, Option<String>)>,
) -> Seq<(Seq<char>, Seq<char>)>
    decreases connectors.len(),
{
    if connectors.len() == 0 || problems.len() == 0 {
        seq![]
    } else {
        connectors_findings(reference, connectors.drop_last(), problems.drop_last())
            + connector_findings(reference, connectors.last().0@, connectors.last().1, problems.last())
    }
}

/// All findings for a board payload: the connectors in key order, then
/// the flashing recipes.
pub open spec fn board_findings(
    reference: Seq<char>,
    board: BoardPackageFile,
    problems: Seq<(Option<String>, Option<String>)>,
) -> Seq<(Seq<char>, Seq<char>)> {
    connectors_findings(reference, board.connectors@, problems) + match board.flash {
        Some(flash) => flash_findings(reference, flash),
        None => seq![],
    }
}

fn report_quantity(
    diags: &mut Vec<Diagnostic>,
    field: &Option<String>,
    problem: &Option<String>,
    head: &str,
    tail: &str,
)
    ensures
        plain_errors(old(diags)@) ==> plain_errors(final(diags)@),
        findings(final(diags)@) == findings(old(diags)@) + quantity_finding(
            *field,
            *problem,
            head@ + tail@,
        ),
{
    match (field, problem) {
        (Some(_), Some(reason)) => {
            let mut message = head.to_owned();
            push_str(&mut message, tail);
            push_str(&mut message, reason.as_str());
            report(diags, "E0614", message);
        },
        _ => {},
    }
    assert(findings(diags@) =~= findings(old(diags)@) + quantity_finding(
        *field,
        *problem,
        head@ + tail@,
    ));
}

/// Appends the findings for a parsed board payload to `diags`.
/// `quantity_problems[i]` holds what the quantity reader said of connector
/// `i`'s `max_current` (as a current) and `pullup` (as a resistance):
/// the reason each cannot be read, or `None`.
pub fn validate_board(
    reference: &str,
    board: &BoardPackageFile,
    quantity_problems: &Vec<(Option<String>, Option<String>)>,
    diags: &mut Vec<Diagnostic>,
)
    requires
        quantity_problems@.len() == board.connectors@.len(),
    ensures
        plain_errors(old(diags)@) ==> plain_errors(final(diags)@),
        findings(final(diags)@) == findings(old(diags)@) + board_findings(
            reference@,
            *board,
            quantity_problems@,
        ),
{
    let ghost start = findings(diags@);
    let mut i: usize = 0;
    while i < board.connectors.len()
        invariant
            i <= board.connectors@.len(),
            quantity_problems@.len() == board.connectors@.len(),
            plain_errors(old(diags)@) ==> plain_errors(diags@),
            findings(diags@) == start + connectors_findings(
                reference@,
                board.connectors@.subrange(0, i as int),
                quantity_problems@.subrange(0, i as int),
            ),
        decreases board.connectors@.len() - i,
    {
        let ghost before = findings(diags@);
        let id = board.connectors[i].0.as_str();
        let connector = &board.connectors[i].1;
        let mut head = reference.to_owned();
        push_str(&mut head, ": connector '");
        push_str(&mut head, id);
        if !valid_identifier(id) {
            let mut message = head.clone();
            push_str(&mut message, "' is not a valid identifier");
            report(diags, "E0613", message);
        }
        report_quantity(
            diags,
            &connector.max_current,
            &quantity_problems[i].0,
            head.as_str(),
            "' max_current: ",
        );
        report_quantity(
            diags,
            &connector.pullup,
            &quantity_problems[i].1,
            head.as_str(),
            "' pullup: ",
        );
        proof {
            let cs = board.connectors@.subrange(0, i + 1);
            let ps = quantity_problems@.subrange(0, i + 1);
            assert(cs.drop_last() =~= board.connectors@.subrange(0, i as int));
            assert(ps.drop_last() =~= quantity_problems@.subrange(0, i as int));
            assert(findings(diags@) =~= before + connector_findings(
                reference@,
                id@,
                *connector,
                quantity_problems@[i as int],
            ));
            assert(findings(diags@) =~= start + connectors_findings(reference@, cs, ps));
        }
        i = i + 1;
    }
    assert(board.connectors@.subrange(0, i as int) =~= board.connectors@);
    assert(quantity_problems@.subrange(0, i as int) =~= quantity_problems@);
    match &board.flash {
        Some(flash) => validate_flash(reference, flash, diags),
        None => {},
    }
    assert(findings(diags@) =~= start + board_findings(reference@, *board, quantity_problems@));
}

// ---------------------------------------------------------------------------
// USB ids
// ---------------------------------------------------------------------------

/// Why a USB id cannot be read.
#[derive(Debug, Clone, Copy, PartialEq, Eq, Structural)]
pub enum UsbIdError {
    /// No digits at all.
    Empty,
    /// A character that is not a digit of the radix.
    InvalidDigit,
    /// More than a 64-bit unsigned integer holds.
    TooLarge,
    /// A number that does not fit in 16 bits.
    OutOfRange,
}

/// The value of a digit in radix 10 or 16.
pub open spec fn digit_value(c: char, radix: nat) -> Option<nat> {
    if '0' <= c && c <= '9' {
        Some((c as nat - '0' as nat) as nat)
    } else if radix == 16 && 'a' <= c && c <= 'f' {
        Some((c as nat - 'a' as nat + 10) as nat)
    } else if radix == 16 && 'A' <= c && c <= 'F' {
        Some((c as nat - 'A' as nat + 10) as nat)
    } else {
        None
    }
}

/// Reading digits left to right onto `value`: the first character that is
/// no digit, or the first digit that takes the value past `u64::MAX`,
/// decides the error.
pub open spec fn read_digits(digits: Seq<char>, radix: nat, value: nat) -> Result<nat, UsbIdError>
    decreases digits.len(),
{
    if digits.len() == 0 {
        Ok(value)
    } else {
        match digit_value(digits[0], radix) {
            None => Err(UsbIdError::InvalidDigit),
            Some(d) => {
                let next = value * radix + d;
                if next > u64::MAX {
                    Err(UsbIdError::TooLarge)
                } else {
                    read_digits(digits.drop_first(), radix, next)
                }
            },
        }
    }
}

/// An unsigned integer text in a radix, as `u64::from_str_radix` reads
/// it: an optional leading `+`, then at least one digit.
pub open spec fn unsigned_text(text: Seq<char>, radix: nat) -> Result<nat, UsbIdError> {
    if text.len() == 0 {
        Err(UsbIdError::Empty)
    } else if (text[0] == '+' || text[0] == '-') && text.len() == 1 {
        Err(UsbIdError::InvalidDigit)
    } else if text[0] == '+' {
        read_digits(text.drop_first(), radix, 0)
    } else {
        read_digits(text, radix, 0)
    }
}

/// A USB id written as text: trimmed, then hexadecimal after `0x` or `0X`,
/// otherwise decimal; it must fit in 16 bits.
pub open spec fn usb_id_text(text: Seq<char>) -> Result<u16, UsbIdError> {
    let t = trimmed(text);
    let hex = has_prefix(t, "0x"@) || has_prefix(t, "0X"@);
    let read = if hex {
        unsigned_text(t.subrange(2, t.len() as int), 16)
    } else {
        unsigned_text(t, 10)
    };
    match read {
        Ok(v) => if v <= 0xffff {
            Ok(v as u16)
        } else {
            Err(UsbIdError::OutOfRange)
        },
        Err(e) => Err(e),
    }
}

proof fn lemma_digits_bound(digits: Seq<char>, radix: nat, value: nat)
    ensures
        read_digits(digits, radix, value) matches Ok(v) ==> v <= u64::MAX || (digits.len() == 0
            && v == value),
    decreases digits.len(),
{
    if digits.len() > 0 {
        if let Some(d) = digit_value(digits[0], radix) {
            let next = value * radix + d;
            if next <= u64::MAX {
                lemma_digits_bound(digits.drop_first(), radix, next);
            }
        }
    }
}

fn digit_of(c: char, radix: u64) -> (d: Option<u64>)
    requires
        radix == 10 || radix == 16,
    ensures
        match d {
            Some(v) => digit_value(c, radix as nat) == Some(v as nat) && v < radix,
            None => digit_value(c, radix as nat) is None,
        },
{
    if '0' <= c && c <= '9' {
        Some(c as u64 - '0' as u64)
    } else if radix == 16 && 'a' <= c && c <= 'f' {
        Some(c as u64 - 'a' as u64 + 10)
    } else if radix == 16 && 'A' <= c && c <= 'F' {
        Some(c as u64 - 'A' as u64 + 10)
    } else {
        None
    }
}

/// `u64::from_str_radix` for radix 10 or 16, over characters from `start`.
fn read_unsigned(text: &Vec<char>, start: usize, radix: u64) -> (read: Result<u64, UsbIdError>)
    requires
        radix == 10 || radix == 16,
        start <= text@.len(),
    ensures
        match read {
            Ok(v) => unsigned_text(text@.subrange(start as int, text@.len() as int), radix as nat)
                == Ok::<nat, UsbIdError>(v as nat),
            Err(e) => unsigned_text(text@.subrange(start as int, text@.len() as int), radix as nat)
                == Err::<nat, UsbIdError>(e),
        },
{
    let ghost t = text@.subrange(start as int, text@.len() as int);
    let n = text.len();
    if start == n {
        return Err(UsbIdError::Empty);
    }
    let first = text[start];
    if (first == '+' || first == '-') && start + 1 == n {
        return Err(UsbIdError::InvalidDigit);
    }
    let mut i: usize = if first == '+' {
        start + 1
    } else {
        start
    };
    let ghost digits = text@.subrange(i as int, n as int);
    assert(unsigned_text(t, radix as nat) == read_digits(digits, radix as nat, 0)) by {
        if first == '+' {
            assert(t.drop_first() =~= digits);
        } else {
            assert(t =~= digits);
        }
    }
    let mut value: u64 = 0;
    while i < n
        invariant
            radix == 10 || radix == 16,
            n == text@.len(),
            i <= n,
            t == text@.subrange(start as int, n as int),
            unsigned_text(t, radix as nat) == read_digits(
                text@.subrange(i as int, n as int),
                radix as nat,
                value as nat,
            ),
        decreases n - i,
    {
        let ghost rest = text@.subrange(i as int, n as int);
        assert(rest[0] == text@[i as int]);
        assert(rest.drop_first() =~= text@.subrange(i + 1, n as int));
        let d = match digit_of(text[i], radix) {
            Some(d) => d,
            None => {
                return Err(UsbIdError::InvalidDigit);
            },
        };
        let scaled = match value.checked_mul(radix) {
            Some(v) => v,
            None => {
                assert(value * radix + d > u64::MAX) by (nonlinear_arith)
                    requires
                        value * radix > u64::MAX,
                ;
                return Err(UsbIdError::TooLarge);
            },
        };
        value = match scaled.checked_add(d) {
            Some(v) => v,
            None => {
                return Err(UsbIdError::TooLarge);
            },
        };
        i = i + 1;
    }
    assert(text@.subrange(n as int, n as int).len() == 0);
    Ok(value)
}

/// A USB id written as text (`0x1209`, `4617`).
pub fn parse_usb_id(text: &str) -> (id: Result<u16, UsbIdError>)
    ensures
        id == usb_id_text(text@),
{
    let t = trim(text);
    let chars = chars_of(t);
    let hex = crate::text::starts_with(t, "0x") || crate::text::starts_with(t, "0X");
    proof {
        reveal_strlit("0x");
        reveal_strlit("0X");
    }
    let read = if hex {
        read_unsigned(&chars, 2, 16)
    } else {
        proof {
            assert(chars@.subrange(0, chars@.len() as int) =~= chars@);
        }
        read_unsigned(&chars, 0, 10)
    };
    match read {
        Ok(v) => {
            if v <= 0xffff {
                Ok(v as u16)
            } else {
                Err(UsbIdError::OutOfRange)
            }
        },
        Err(e) => Err(e),
    }
}

/// A USB id written as a number.
pub fn usb_id_from_number(value: u64) -> (id: Result<u16, UsbIdError>)
    ensures
        value <= 0xffff ==> id == Ok::<u16, UsbIdError>(value as u16),
        value > 0xffff ==> id == Err::<u16, UsbIdError>(UsbIdError::OutOfRange),
{
    if value <= 0xffff {
        Ok(value as u16)
    } else {
        Err(UsbIdError::OutOfRange)
    }
}

impl UsbIdError {
    /// The reason as a sentence.
    pub fn to_message(&self) -> (text: &'static str)
        ensures
            text@ == match *self {
                UsbIdError::Empty => "cannot parse integer from empty string"@,
                UsbIdError::InvalidDigit => "invalid digit found in string"@,
                UsbIdError::TooLarge => "number too large to fit in target type"@,
                UsbIdError::OutOfRange => "USB id must fit in 16 bits"@,
            },
    {
        match self {
            UsbIdError::Empty => "cannot parse integer from empty string",
            UsbIdError::InvalidDigit => "invalid digit found in string",
            UsbIdError::TooLarge => "number too large to fit in target type",
            UsbIdError::OutOfRange => "USB id must fit in 16 bits",
        }
    }
}

} // verus!
