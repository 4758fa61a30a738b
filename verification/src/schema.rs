//! Machine Graph schema: identifier rules, the shared diagnostic type,
//! quantity dimensions and the plain document sections.

use vstd::prelude::*;
use crate::text::{chars_of, decimal, push_decimal, push_str, string_views, trim, trimmed};

verus! {

/// The only Machine Graph API version understood.
pub const API_VERSION: &'static str = "dryer.machine/v0.1";

/// The only document kind understood.
pub const KIND_MACHINE: &'static str = "Machine";

// ---------------------------------------------------------------------------
// Diagnostics
// ---------------------------------------------------------------------------

/// How serious a finding is.
#[derive(Debug, Clone, Copy, PartialEq, Eq, Structural)]
pub enum Severity {
    Error,
    Warning,
    Info,
}

/// A structured finding: a code (`E01xx` parse, `E02xx` structure, `E03xx`
/// identifiers, `E04xx` quantities, `E05xx` references), a message, and
/// where it was found.
#[derive(Debug, Clone, PartialEq, Eq)]
pub struct Diagnostic {
    pub code: String,
    pub severity: Severity,
    pub message: String,
    pub path: Option<String>,
    pub line: Option<usize>,
    /// 1-based column of the located key or item.
    pub column: Option<usize>,
    pub suggestions: Vec<String>,
}

impl Diagnostic {
    /// An error with no location and no suggestions.
    pub fn error(code: &str, message: &str) -> (diagnostic: Self)
        ensures
            diagnostic.code@ == code@,
            diagnostic.severity == Severity::Error,
            diagnostic.message@ == message@,
            diagnostic.path is None,
            diagnostic.line is None,
            diagnostic.column is None,
            diagnostic.suggestions@.len() == 0,
    {
        Diagnostic {
            code: code.to_owned(),
            severity: Severity::Error,
            message: message.to_owned(),
            path: None,
            line: None,
            column: None,
            suggestions: Vec::new(),
        }
    }

    /// A warning with no location and no suggestions.
    pub fn warning(code: &str, message: &str) -> (diagnostic: Self)
        ensures
            diagnostic.code@ == code@,
            diagnostic.severity == Severity::Warning,
            diagnostic.message@ == message@,
            diagnostic.path is None,
            diagnostic.line is None,
            diagnostic.column is None,
            diagnostic.suggestions@.len() == 0,
    {
        let mut diagnostic = Diagnostic::error(code, message);
        diagnostic.severity = Severity::Warning;
        diagnostic
    }

    /// The same finding located at a document path.
    pub fn at(self, path: &str) -> (located: Self)
        ensures
            located.path matches Some(p) && p@ == path@,
            located.code == self.code,
            located.severity == self.severity,
            located.message == self.message,
            located.line == self.line,
            located.column == self.column,
            located.suggestions@ == self.suggestions@,
    {
        let mut located = self;
        located.path = Some(path.to_owned());
        located
    }

    /// The same finding with one more suggestion at the end.
    pub fn suggest(self, suggestion: &str) -> (suggested: Self)
        ensures
            string_views(suggested.suggestions@) == string_views(self.suggestions@).push(
                suggestion@,
            ),
            suggested.code == self.code,
            suggested.severity == self.severity,
            suggested.message == self.message,
            suggested.path == self.path,
            suggested.line == self.line,
            suggested.column == self.column,
    {
        let mut suggested = self;
        suggested.suggestions.push(suggestion.to_owned());
        assert(string_views(suggested.suggestions@) =~= string_views(self.suggestions@).push(
            suggestion@,
        ));
        suggested
    }

    /// `code: message`, then ` (at path, line l:c)` as far as the location
    /// is known.
    pub fn to_message(&self) -> (text: String)
        ensures
            text@ == diagnostic_text(*self),
    {
        let mut text = self.code.clone();
        push_str(&mut text, ": ");
        push_str(&mut text, self.message.as_str());
        match &self.path {
            Some(p) => {
                push_str(&mut text, " (at ");
                push_str(&mut text, p.as_str());
                match self.line {
                    Some(l) => {
                        push_str(&mut text, ", line ");
                        push_decimal(&mut text, l as u64);
                        match self.column {
                            Some(c) => {
                                push_str(&mut text, ":");
                                push_decimal(&mut text, c as u64);
                            },
                            None => {},
                        }
                    },
                    None => {},
                }
                push_str(&mut text, ")");
            },
            None => {},
        }
        assert(text@ =~= diagnostic_text(*self));
        text
    }
}

/// The displayed form of a diagnostic.
pub open spec fn diagnostic_text(d: Diagnostic) -> Seq<char> {
    let head = d.code@ + ": "@ + d.message@;
    match d.path {
        None => head,
        Some(p) => {
            let line = match d.line {
                None => seq![],
                Some(l) => ", line "@ + decimal(l as nat) + match d.column {
                    None => seq![],
                    Some(c) => ":"@ + decimal(c as nat),
                },
            };
            head + " (at "@ + p@ + line + ")"@
        },
    }
}

// ---------------------------------------------------------------------------
// Identifiers
// ---------------------------------------------------------------------------

pub open spec fn is_lowercase_letter(c: char) -> bool {
    'a' <= c && c <= 'z'
}

pub open spec fn is_identifier_char(c: char) -> bool {
    is_lowercase_letter(c) || ('0' <= c && c <= '9') || c == '_' || c == '-'
}

/// A machine-local identifier: lowercase ASCII letters, digits, `_` and `-`,
/// beginning with a letter.
pub open spec fn is_valid_identifier(s: Seq<char>) -> bool {
    &&& s.len() > 0
    &&& is_lowercase_letter(s[0])
    &&& forall|i: int| 1 <= i < s.len() ==> is_identifier_char(#[trigger] s[i])
}

/// Whether `s` is a valid machine-local identifier.
pub fn valid_identifier(s: &str) -> (valid: bool)
    ensures
        valid == is_valid_identifier(s@),
{
    let chars = chars_of(s);
    if chars.len() == 0 {
        return false;
    }
    let first = chars[0];
    if !('a' <= first && first <= 'z') {
        return false;
    }
    let mut i: usize = 1;
    while i < chars.len()
        invariant
            chars@ == s@,
            1 <= i <= chars@.len(),
            forall|k: int| 1 <= k < i ==> is_identifier_char(#[trigger] s@[k]),
        decreases chars@.len() - i,
    {
        let c = chars[i];
        if !(('a' <= c && c <= 'z') || ('0' <= c && c <= '9') || c == '_' || c == '-') {
            assert(!is_identifier_char(s@[i as int]));
            return false;
        }
        i = i + 1;
    }
    true
}

// ---------------------------------------------------------------------------
// Quantities
// ---------------------------------------------------------------------------

/// Physical dimension of a quantity; mixing families is an error, never a
/// conversion.
#[derive(Debug, Clone, Copy, PartialEq, Eq, Structural)]
pub enum Dimension {
    /// canonical: millimetres
    Length,
    /// canonical: millimetres per second
    Velocity,
    /// canonical: millimetres per second squared
    Acceleration,
    /// canonical: seconds
    Time,
    /// canonical: watts
    Power,
    /// canonical: volts
    Voltage,
    /// canonical: amperes
    Current,
    /// canonical: hertz
    Frequency,
    /// canonical: degrees Celsius (Kelvin, an offset unit, is unsupported)
    Temperature,
    /// canonical: ohms
    Resistance,
    /// canonical: bytes
    Memory,
}

/// Why a quantity text was rejected.
#[derive(Debug, Clone, PartialEq, Eq)]
pub enum QuantityError {
    /// No unit token: bare numbers are rejected where a unit is required.
    MissingUnit,
    /// The numeric part did not parse or is not finite.
    BadNumber(String),
    UnknownUnit(String),
    /// Parsed, but not the dimension the field requires.
    WrongDimension { expected: Dimension, got: Dimension },
}

// ---------------------------------------------------------------------------
// Document sections
// ---------------------------------------------------------------------------

#[derive(Debug, Clone, PartialEq, Eq)]
pub struct Metadata {
    pub name: String,
    pub description: Option<String>,
}

#[derive(Debug, Clone, PartialEq, Eq)]
pub struct Controller {
    /// Board package reference without version (`boards/btt-octopus-pro`).
    pub board: String,
    pub transport: Transport,
}

#[derive(Debug, Clone, PartialEq, Eq)]
pub struct Transport {
    pub kind: String,
    /// For child transports (e.g. CAN): `controller.port`.
    pub parent: Option<String>,
}

#[derive(Debug, Clone, PartialEq, Eq)]
pub struct Kinematics {
    pub kind: String,
    /// Motion limits as quantity texts, keyed by name, in key order.
    pub limits: Vec<(String, String)>,
}

#[derive(Debug, Clone, PartialEq, Eq)]
pub struct Safety {
    /// Safety-profile package reference (`safety-profiles/desktop-fdm`).
    pub profile: String,
}

#[derive(Debug, Clone, PartialEq, Eq)]
pub struct Calibration {
    /// Machine-local calibration file; never embedded in packages.
    pub source: String,
}

/// The name of a dimension, as written in messages.
pub open spec fn dimension_name(d: Dimension) -> Seq<char> {
    match d {
        Dimension::Length => "Length"@,
        Dimension::Velocity => "Velocity"@,
        Dimension::Acceleration => "Acceleration"@,
        Dimension::Time => "Time"@,
        Dimension::Power => "Power"@,
        Dimension::Voltage => "Voltage"@,
        Dimension::Current => "Current"@,
        Dimension::Frequency => "Frequency"@,
        Dimension::Temperature => "Temperature"@,
        Dimension::Resistance => "Resistance"@,
        Dimension::Memory => "Memory"@,
    }
}

impl Dimension {
    /// The dimension's name (`Velocity`).
    pub fn name(&self) -> (text: &'static str)
        ensures
            text@ == dimension_name(*self),
    {
        match self {
            Dimension::Length => "Length",
            Dimension::Velocity => "Velocity",
            Dimension::Acceleration => "Acceleration",
            Dimension::Time => "Time",
            Dimension::Power => "Power",
            Dimension::Voltage => "Voltage",
            Dimension::Current => "Current",
            Dimension::Frequency => "Frequency",
            Dimension::Temperature => "Temperature",
            Dimension::Resistance => "Resistance",
            Dimension::Memory => "Memory",
        }
    }
}

/// The displayed form of a quantity error.
pub open spec fn quantity_error_text(e: QuantityError) -> Seq<char> {
    match e {
        QuantityError::MissingUnit => "quantity requires an explicit unit (e.g. \"300 mm/s\")"@,
        QuantityError::BadNumber(s) => "'"@ + s@ + "' is not a finite number"@,
        QuantityError::UnknownUnit(u) => "unknown unit '"@ + u@ + "'"@,
        QuantityError::WrongDimension { expected, got } => "expected a "@ + dimension_name(expected)
            + " quantity, got "@ + dimension_name(got),
    }
}

impl QuantityError {
    /// The error as a sentence.
    pub fn to_message(&self) -> (text: String)
        ensures
            text@ == quantity_error_text(*self),
    {
        match self {
            QuantityError::MissingUnit => "quantity requires an explicit unit (e.g. \"300 mm/s\")".to_owned(),
            QuantityError::BadNumber(s) => {
                let mut text = "'".to_owned();
                push_str(&mut text, s.as_str());
                push_str(&mut text, "' is not a finite number");
                text
            },
            QuantityError::UnknownUnit(u) => {
                let mut text = "unknown unit '".to_owned();
                push_str(&mut text, u.as_str());
                push_str(&mut text, "'");
                text
            },
            QuantityError::WrongDimension { expected, got } => {
                let mut text = "expected a ".to_owned();
                push_str(&mut text, expected.name());
                push_str(&mut text, " quantity, got ");
                push_str(&mut text, got.name());
                text
            },
        }
    }
}

/// A component attribute as validation reads it: a string, or anything
/// else (a number, a boolean, a list, a map).
#[derive(Debug, Clone, PartialEq, Eq)]
pub enum AttributeValue {
    Text(String),
    Other,
}

/// A component: its type and its open attributes, in name order.
#[derive(Debug, Clone, PartialEq, Eq)]
pub struct Component {
    pub kind: String,
    pub attributes: Vec<(String, AttributeValue)>,
}

/// A source-graph machine manifest. Maps are listed in key order.
#[derive(Debug, Clone, PartialEq, Eq)]
pub struct MachineDoc {
    pub api_version: String,
    pub kind: String,
    pub metadata: Metadata,
    /// Package references (`namespace/name@version`).
    pub packages: Vec<String>,
    pub controllers: Vec<(String, Controller)>,
    pub components: Vec<(String, Component)>,
    pub kinematics: Kinematics,
    pub safety: Safety,
    pub workflows: Vec<(String, String)>,
    pub calibration: Option<Calibration>,
}

/// A character of a quantity's number: a digit, `.`, `-` or `+`.
pub open spec fn is_number_char(c: char) -> bool {
    ('0' <= c && c <= '9') || c == '.' || c == '-' || c == '+'
}

/// The position of the first character that is not a number character.
pub open spec fn first_non_number(t: Seq<char>, from: int) -> Option<int>
    decreases t.len() - from,
{
    if from < 0 || from >= t.len() {
        None
    } else if !is_number_char(t[from]) {
        Some(from)
    } else {
        first_non_number(t, from + 1)
    }
}

/// How a quantity text splits into its number and its unit: after
/// trimming, the number runs up to the first character that is not a digit,
/// `.`, `-` or `+`, and the trimmed rest is the unit; both must be present.
pub open spec fn quantity_split(raw: Seq<char>) -> Result<(Seq<char>, Seq<char>), QuantityError> {
    let t = trimmed(raw);
    match first_non_number(t, 0) {
        None => Err(QuantityError::MissingUnit),
        Some(k) => {
            let number = t.subrange(0, k);
            let unit = trimmed(t.subrange(k, t.len() as int));
            if number.len() == 0 || unit.len() == 0 {
                Err(QuantityError::MissingUnit)
            } else {
                Ok((number, unit))
            }
        },
    }
}

/// Splits a quantity text into its number and its unit texts (`"4.7 kOhm"`
/// is `4.7` and `kOhm`).
pub fn split_quantity(raw: &str) -> (parts: Result<(String, String), QuantityError>)
    ensures
        match parts {
            Ok((number, unit)) => quantity_split(raw@) == Ok::<(Seq<char>, Seq<char>), QuantityError>(
                (number@, unit@),
            ),
            Err(e) => quantity_split(raw@) == Err::<(Seq<char>, Seq<char>), QuantityError>(e),
        },
{
    let t = trim(raw);
    let n = t.unicode_len();
    let mut k: usize = 0;
    while k < n
        invariant
            n == t@.len(),
            k <= n,
            first_non_number(t@, 0) == first_non_number(t@, k as int),
        ensures
            k <= n,
            first_non_number(t@, 0) == first_non_number(t@, k as int),
            k < n ==> !is_number_char(t@[k as int]),
        decreases n - k,
    {
        let c = t.get_char(k);
        if !(('0' <= c && c <= '9') || c == '.' || c == '-' || c == '+') {
            break;
        }
        k = k + 1;
    }
    if k == n {
        return Err(QuantityError::MissingUnit);
    }
    let number = t.substring_char(0, k);
    let unit = trim(t.substring_char(k, n));
    if k == 0 || unit.unicode_len() == 0 {
        return Err(QuantityError::MissingUnit);
    }
    Ok((number.to_owned(), unit.to_owned()))
}

/// The dimension of a unit token.
pub open spec fn unit_dimension_of(unit: Seq<char>) -> Option<Dimension> {
    if unit == "mm"@ || unit == "m"@ || unit == "um"@ {
        Some(Dimension::Length)
    } else if unit == "mm/s"@ || unit == "m/s"@ {
        Some(Dimension::Velocity)
    } else if unit == "mm/s^2"@ || unit == "m/s^2"@ {
        Some(Dimension::Acceleration)
    } else if unit == "s"@ || unit == "ms"@ || unit == "us"@ || unit == "min"@ {
        Some(Dimension::Time)
    } else if unit == "W"@ || unit == "kW"@ {
        Some(Dimension::Power)
    } else if unit == "V"@ || unit == "mV"@ {
        Some(Dimension::Voltage)
    } else if unit == "A"@ || unit == "mA"@ {
        Some(Dimension::Current)
    } else if unit == "Hz"@ || unit == "kHz"@ || unit == "MHz"@ {
        Some(Dimension::Frequency)
    } else if unit == "C"@ {
        Some(Dimension::Temperature)
    } else if unit == "Ohm"@ || unit == "kOhm"@ {
        Some(Dimension::Resistance)
    } else if unit == "B"@ || unit == "KiB"@ || unit == "MiB"@ {
        Some(Dimension::Memory)
    } else {
        None
    }
}

/// The dimension of a unit token (`mm/s` is a velocity), when it is one of
/// the known units.
pub fn unit_dimension(unit: &str) -> (dimension: Option<Dimension>)
    ensures
        dimension == unit_dimension_of(unit@),
{
    let is = |u: &str| -> (same: bool)
        ensures
            same == (unit@ == u@),
        { crate::text::str_eq(unit, u) };
    if is("mm") || is("m") || is("um") {
        Some(Dimension::Length)
    } else if is("mm/s") || is("m/s") {
        Some(Dimension::Velocity)
    } else if is("mm/s^2") || is("m/s^2") {
        Some(Dimension::Acceleration)
    } else if is("s") || is("ms") || is("us") || is("min") {
        Some(Dimension::Time)
    } else if is("W") || is("kW") {
        Some(Dimension::Power)
    } else if is("V") || is("mV") {
        Some(Dimension::Voltage)
    } else if is("A") || is("mA") {
        Some(Dimension::Current)
    } else if is("Hz") || is("kHz") || is("MHz") {
        Some(Dimension::Frequency)
    } else if is("C") {
        Some(Dimension::Temperature)
    } else if is("Ohm") || is("kOhm") {
        Some(Dimension::Resistance)
    } else if is("B") || is("KiB") || is("MiB") {
        Some(Dimension::Memory)
    } else {
        None
    }
}

/// A quantity of the wrong dimension is refused.
pub fn check_dimension(expected: Dimension, got: Dimension) -> (result: Result<(), QuantityError>)
    ensures
        expected == got ==> result is Ok,
        expected != got ==> result == Err::<(), QuantityError>(
            QuantityError::WrongDimension { expected, got },
        ),
{
    if expected == got {
        Ok(())
    } else {
        Err(QuantityError::WrongDimension { expected, got })
    }
}

/// The schema's units: each token with the dimension it measures (scales
/// to the canonical unit are applied where quantities are read).
pub open spec fn unit_table() -> Seq<(Seq<char>, Dimension)> {
    seq![
        ("mm"@, Dimension::Length),
        ("m"@, Dimension::Length),
        ("um"@, Dimension::Length),
        ("mm/s"@, Dimension::Velocity),
        ("m/s"@, Dimension::Velocity),
        ("mm/s^2"@, Dimension::Acceleration),
        ("m/s^2"@, Dimension::Acceleration),
        ("s"@, Dimension::Time),
        ("ms"@, Dimension::Time),
        ("us"@, Dimension::Time),
        ("min"@, Dimension::Time),
        ("W"@, Dimension::Power),
        ("kW"@, Dimension::Power),
        ("V"@, Dimension::Voltage),
        ("mV"@, Dimension::Voltage),
        ("A"@, Dimension::Current),
        ("mA"@, Dimension::Current),
        ("Hz"@, Dimension::Frequency),
        ("kHz"@, Dimension::Frequency),
        ("MHz"@, Dimension::Frequency),
        ("C"@, Dimension::Temperature),
        ("Ohm"@, Dimension::Resistance),
        ("kOhm"@, Dimension::Resistance),
        ("B"@, Dimension::Memory),
        ("KiB"@, Dimension::Memory),
        ("MiB"@, Dimension::Memory),
    ]
}

/// Each token of the unit table reads as its listed dimension, and no
/// other token reads as a dimension at all.
pub proof fn units_read_as_their_listed_dimension(unit: Seq<char>)
    ensures
        forall|i: int| 0 <= i < unit_table().len() ==> unit_dimension_of(#[trigger] unit_table()[i].0) == Some(
            unit_table()[i].1,
        ),
        unit_dimension_of(unit) is Some ==> exists|i: int| 0 <= i < unit_table().len() && #[trigger] unit_table()[i].0 == unit,
{
    assert(unit_dimension_of("mm"@) == Some(Dimension::Length)) by {
        reveal_strlit("mm");

    }
    assert(unit_dimension_of("m"@) == Some(Dimension::Length)) by {
        reveal_strlit("mm");
        reveal_strlit("m");
        assert("m"@ != "mm"@) by { assert("m"@.len() != "mm"@.len()); }
    }
    assert(unit_dimension_of("um"@) == Some(Dimension::Length)) by {
        reveal_strlit("mm");
        reveal_strlit("m");
        reveal_strlit("um");
        assert("um"@ != "mm"@) by { assert("um"@[0] != "mm"@[0]); }
        assert("um"@ != "m"@) by { assert("um"@.len() != "m"@.len()); }
    }
    assert(unit_dimension_of("mm/s"@) == Some(Dimension::Velocity)) by {
        reveal_strlit("mm");
        reveal_strlit("m");
        reveal_strlit("um");
        reveal_strlit("mm/s");
        assert("mm/s"@ != "mm"@) by { assert("mm/s"@.len() != "mm"@.len()); }
        assert("mm/s"@ != "m"@) by { assert("mm/s"@.len() != "m"@.len()); }
        assert("mm/s"@ != "um"@) by { assert("mm/s"@.len() != "um"@.len()); }
    }
    assert(unit_dimension_of("m/s"@) == Some(Dimension::Velocity)) by {
        reveal_strlit("mm");
        reveal_strlit("m");
        reveal_strlit("um");
        reveal_strlit("mm/s");
        reveal_strlit("m/s");
        assert("m/s"@ != "mm"@) by { assert("m/s"@.len() != "mm"@.len()); }
        assert("m/s"@ != "m"@) by { assert("m/s"@.len() != "m"@.len()); }
        assert("m/s"@ != "um"@) by { assert("m/s"@.len() != "um"@.len()); }
        assert("m/s"@ != "mm/s"@) by { assert("m/s"@.len() != "mm/s"@.len()); }
    }
    assert(unit_dimension_of("mm/s^2"@) == Some(Dimension::Acceleration)) by {
        reveal_strlit("mm");
        reveal_strlit("m");
        reveal_strlit("um");
        reveal_strlit("mm/s");
        reveal_strlit("m/s");
        reveal_strlit("mm/s^2");
        assert("mm/s^2"@ != "mm"@) by { assert("mm/s^2"@.len() != "mm"@.len()); }
        assert("mm/s^2"@ != "m"@) by { assert("mm/s^2"@.len() != "m"@.len()); }
        assert("mm/s^2"@ != "um"@) by { assert("mm/s^2"@.len() != "um"@.len()); }
        assert("mm/s^2"@ != "mm/s"@) by { assert("mm/s^2"@.len() != "mm/s"@.len()); }
        assert("mm/s^2"@ != "m/s"@) by { assert("mm/s^2"@.len() != "m/s"@.len()); }
    }
    assert(unit_dimension_of("m/s^2"@) == Some(Dimension::Acceleration)) by {
        reveal_strlit("mm");
        reveal_strlit("m");
        reveal_strlit("um");
        reveal_strlit("mm/s");
        reveal_strlit("m/s");
        reveal_strlit("mm/s^2");
        reveal_strlit("m/s^2");
        assert("m/s^2"@ != "mm"@) by { assert("m/s^2"@.len() != "mm"@.len()); }
        assert("m/s^2"@ != "m"@) by { assert("m/s^2"@.len() != "m"@.len()); }
        assert("m/s^2"@ != "um"@) by { assert("m/s^2"@.len() != "um"@.len()); }
        assert("m/s^2"@ != "mm/s"@) by { assert("m/s^2"@.len() != "mm/s"@.len()); }
        assert("m/s^2"@ != "m/s"@) by { assert("m/s^2"@.len() != "m/s"@.len()); }
        assert("m/s^2"@ != "mm/s^2"@) by { assert("m/s^2"@.len() != "mm/s^2"@.len()); }
    }
    assert(unit_dimension_of("s"@) == Some(Dimension::Time)) by {
        reveal_strlit("mm");
        reveal_strlit("m");
        reveal_strlit("um");
        reveal_strlit("mm/s");
        reveal_strlit("m/s");
        reveal_strlit("mm/s^2");
        reveal_strlit("m/s^2");
        reveal_strlit("s");
        assert("s"@ != "mm"@) by { assert("s"@.len() != "mm"@.len()); }
        assert("s"@ != "m"@) by { assert("s"@[0] != "m"@[0]); }
        assert("s"@ != "um"@) by { assert("s"@.len() != "um"@.len()); }
        assert("s"@ != "mm/s"@) by { assert("s"@.len() != "mm/s"@.len()); }
        assert("s"@ != "m/s"@) by { assert("s"@.len() != "m/s"@.len()); }
        assert("s"@ != "mm/s^2"@) by { assert("s"@.len() != "mm/s^2"@.len()); }
        assert("s"@ != "m/s^2"@) by { assert("s"@.len() != "m/s^2"@.len()); }
    }
    assert(unit_dimension_of("ms"@) == Some(Dimension::Time)) by {
        reveal_strlit("mm");
        reveal_strlit("m");
        reveal_strlit("um");
        reveal_strlit("mm/s");
        reveal_strlit("m/s");
        reveal_strlit("mm/s^2");
        reveal_strlit("m/s^2");
        reveal_strlit("s");
        reveal_strlit("ms");
        assert("ms"@ != "mm"@) by { assert("ms"@[1] != "mm"@[1]); }
        assert("ms"@ != "m"@) by { assert("ms"@.len() != "m"@.len()); }
        assert("ms"@ != "um"@) by { assert("ms"@[0] != "um"@[0]); }
        assert("ms"@ != "mm/s"@) by { assert("ms"@.len() != "mm/s"@.len()); }
        assert("ms"@ != "m/s"@) by { assert("ms"@.len() != "m/s"@.len()); }
        assert("ms"@ != "mm/s^2"@) by { assert("ms"@.len() != "mm/s^2"@.len()); }
        assert("ms"@ != "m/s^2"@) by { assert("ms"@.len() != "m/s^2"@.len()); }
        assert("ms"@ != "s"@) by { assert("ms"@.len() != "s"@.len()); }
    }
    assert(unit_dimension_of("us"@) == Some(Dimension::Time)) by {
        reveal_strlit("mm");
        reveal_strlit("m");
        reveal_strlit("um");
        reveal_strlit("mm/s");
        reveal_strlit("m/s");
        reveal_strlit("mm/s^2");
        reveal_strlit("m/s^2");
        reveal_strlit("s");
        reveal_strlit("ms");
        reveal_strlit("us");
        assert("us"@ != "mm"@) by { assert("us"@[0] != "mm"@[0]); }
        assert("us"@ != "m"@) by { assert("us"@.len() != "m"@.len()); }
        assert("us"@ != "um"@) by { assert("us"@[1] != "um"@[1]); }
        assert("us"@ != "mm/s"@) by { assert("us"@.len() != "mm/s"@.len()); }
        assert("us"@ != "m/s"@) by { assert("us"@.len() != "m/s"@.len()); }
        assert("us"@ != "mm/s^2"@) by { assert("us"@.len() != "mm/s^2"@.len()); }
        assert("us"@ != "m/s^2"@) by { assert("us"@.len() != "m/s^2"@.len()); }
        assert("us"@ != "s"@) by { assert("us"@.len() != "s"@.len()); }
        assert("us"@ != "ms"@) by { assert("us"@[0] != "ms"@[0]); }
    }
    assert(unit_dimension_of("min"@) == Some(Dimension::Time)) by {
        reveal_strlit("mm");
        reveal_strlit("m");
        reveal_strlit("um");
        reveal_strlit("mm/s");
        reveal_strlit("m/s");
        reveal_strlit("mm/s^2");
        reveal_strlit("m/s^2");
        reveal_strlit("s");
        reveal_strlit("ms");
        reveal_strlit("us");
        reveal_strlit("min");
        assert("min"@ != "mm"@) by { assert("min"@.len() != "mm"@.len()); }
        assert("min"@ != "m"@) by { assert("min"@.len() != "m"@.len()); }
        assert("min"@ != "um"@) by { assert("min"@.len() != "um"@.len()); }
        assert("min"@ != "mm/s"@) by { assert("min"@.len() != "mm/s"@.len()); }
        assert("min"@ != "m/s"@) by { assert("min"@[1] != "m/s"@[1]); }
        assert("min"@ != "mm/s^2"@) by { assert("min"@.len() != "mm/s^2"@.len()); }
        assert("min"@ != "m/s^2"@) by { assert("min"@.len() != "m/s^2"@.len()); }
        assert("min"@ != "s"@) by { assert("min"@.len() != "s"@.len()); }
        assert("min"@ != "ms"@) by { assert("min"@.len() != "ms"@.len()); }
        assert("min"@ != "us"@) by { assert("min"@.len() != "us"@.len()); }
    }
    assert(unit_dimension_of("W"@) == Some(Dimension::Power)) by {
        reveal_strlit("mm");
        reveal_strlit("m");
        reveal_strlit("um");
        reveal_strlit("mm/s");
        reveal_strlit("m/s");
        reveal_strlit("mm/s^2");
        reveal_strlit("m/s^2");
        reveal_strlit("s");
        reveal_strlit("ms");
        reveal_strlit("us");
        reveal_strlit("min");
        reveal_strlit("W");
        assert("W"@ != "mm"@) by { assert("W"@.len() != "mm"@.len()); }
        assert("W"@ != "m"@) by { assert("W"@[0] != "m"@[0]); }
        assert("W"@ != "um"@) by { assert("W"@.len() != "um"@.len()); }
        assert("W"@ != "mm/s"@) by { assert("W"@.len() != "mm/s"@.len()); }
        assert("W"@ != "m/s"@) by { assert("W"@.len() != "m/s"@.len()); }
        assert("W"@ != "mm/s^2"@) by { assert("W"@.len() != "mm/s^2"@.len()); }
        assert("W"@ != "m/s^2"@) by { assert("W"@.len() != "m/s^2"@.len()); }
        assert("W"@ != "s"@) by { assert("W"@[0] != "s"@[0]); }
        assert("W"@ != "ms"@) by { assert("W"@.len() != "ms"@.len()); }
        assert("W"@ != "us"@) by { assert("W"@.len() != "us"@.len()); }
        assert("W"@ != "min"@) by { assert("W"@.len() != "min"@.len()); }
    }
    assert(unit_dimension_of("kW"@) == Some(Dimension::Power)) by {
        reveal_strlit("mm");
        reveal_strlit("m");
        reveal_strlit("um");
        reveal_strlit("mm/s");
        reveal_strlit("m/s");
        reveal_strlit("mm/s^2");
        reveal_strlit("m/s^2");
        reveal_strlit("s");
        reveal_strlit("ms");
        reveal_strlit("us");
        reveal_strlit("min");
        reveal_strlit("W");
        reveal_strlit("kW");
        assert("kW"@ != "mm"@) by { assert("kW"@[0] != "mm"@[0]); }
        assert("kW"@ != "m"@) by { assert("kW"@.len() != "m"@.len()); }
        assert("kW"@ != "um"@) by { assert("kW"@[0] != "um"@[0]); }
        assert("kW"@ != "mm/s"@) by { assert("kW"@.len() != "mm/s"@.len()); }
        assert("kW"@ != "m/s"@) by { assert("kW"@.len() != "m/s"@.len()); }
        assert("kW"@ != "mm/s^2"@) by { assert("kW"@.len() != "mm/s^2"@.len()); }
        assert("kW"@ != "m/s^2"@) by { assert("kW"@.len() != "m/s^2"@.len()); }
        assert("kW"@ != "s"@) by { assert("kW"@.len() != "s"@.len()); }
        assert("kW"@ != "ms"@) by { assert("kW"@[0] != "ms"@[0]); }
        assert("kW"@ != "us"@) by { assert("kW"@[0] != "us"@[0]); }
        assert("kW"@ != "min"@) by { assert("kW"@.len() != "min"@.len()); }
        assert("kW"@ != "W"@) by { assert("kW"@.len() != "W"@.len()); }
    }
    assert(unit_dimension_of("V"@) == Some(Dimension::Voltage)) by {
        reveal_strlit("mm");
        reveal_strlit("m");
        reveal_strlit("um");
        reveal_strlit("mm/s");
        reveal_strlit("m/s");
        reveal_strlit("mm/s^2");
        reveal_strlit("m/s^2");
        reveal_strlit("s");
        reveal_strlit("ms");
        reveal_strlit("us");
        reveal_strlit("min");
        reveal_strlit("W");
        reveal_strlit("kW");
        reveal_strlit("V");
        assert("V"@ != "mm"@) by { assert("V"@.len() != "mm"@.len()); }
        assert("V"@ != "m"@) by { assert("V"@[0] != "m"@[0]); }
        assert("V"@ != "um"@) by { assert("V"@.len() != "um"@.len()); }
        assert("V"@ != "mm/s"@) by { assert("V"@.len() != "mm/s"@.len()); }
        assert("V"@ != "m/s"@) by { assert("V"@.len() != "m/s"@.len()); }
        assert("V"@ != "mm/s^2"@) by { assert("V"@.len() != "mm/s^2"@.len()); }
        assert("V"@ != "m/s^2"@) by { assert("V"@.len() != "m/s^2"@.len()); }
        assert("V"@ != "s"@) by { assert("V"@[0] != "s"@[0]); }
        assert("V"@ != "ms"@) by { assert("V"@.len() != "ms"@.len()); }
        assert("V"@ != "us"@) by { assert("V"@.len() != "us"@.len()); }
        assert("V"@ != "min"@) by { assert("V"@.len() != "min"@.len()); }
        assert("V"@ != "W"@) by { assert("V"@[0] != "W"@[0]); }
        assert("V"@ != "kW"@) by { assert("V"@.len() != "kW"@.len()); }
    }
    assert(unit_dimension_of("mV"@) == Some(Dimension::Voltage)) by {
        reveal_strlit("mm");
        reveal_strlit("m");
        reveal_strlit("um");
        reveal_strlit("mm/s");
        reveal_strlit("m/s");
        reveal_strlit("mm/s^2");
        reveal_strlit("m/s^2");
        reveal_strlit("s");
        reveal_strlit("ms");
        reveal_strlit("us");
        reveal_strlit("min");
        reveal_strlit("W");
        reveal_strlit("kW");
        reveal_strlit("V");
        reveal_strlit("mV");
        assert("mV"@ != "mm"@) by { assert("mV"@[1] != "mm"@[1]); }
        assert("mV"@ != "m"@) by { assert("mV"@.len() != "m"@.len()); }
        assert("mV"@ != "um"@) by { assert("mV"@[0] != "um"@[0]); }
        assert("mV"@ != "mm/s"@) by { assert("mV"@.len() != "mm/s"@.len()); }
        assert("mV"@ != "m/s"@) by { assert("mV"@.len() != "m/s"@.len()); }
        assert("mV"@ != "mm/s^2"@) by { assert("mV"@.len() != "mm/s^2"@.len()); }
        assert("mV"@ != "m/s^2"@) by { assert("mV"@.len() != "m/s^2"@.len()); }
        assert("mV"@ != "s"@) by { assert("mV"@.len() != "s"@.len()); }
        assert("mV"@ != "ms"@) by { assert("mV"@[1] != "ms"@[1]); }
        assert("mV"@ != "us"@) by { assert("mV"@[0] != "us"@[0]); }
        assert("mV"@ != "min"@) by { assert("mV"@.len() != "min"@.len()); }
        assert("mV"@ != "W"@) by { assert("mV"@.len() != "W"@.len()); }
        assert("mV"@ != "kW"@) by { assert("mV"@[0] != "kW"@[0]); }
        assert("mV"@ != "V"@) by { assert("mV"@.len() != "V"@.len()); }
    }
    assert(unit_dimension_of("A"@) == Some(Dimension::Current)) by {
        reveal_strlit("mm");
        reveal_strlit("m");
        reveal_strlit("um");
        reveal_strlit("mm/s");
        reveal_strlit("m/s");
        reveal_strlit("mm/s^2");
        reveal_strlit("m/s^2");
        reveal_strlit("s");
        reveal_strlit("ms");
        reveal_strlit("us");
        reveal_strlit("min");
        reveal_strlit("W");
        reveal_strlit("kW");
        reveal_strlit("V");
        reveal_strlit("mV");
        reveal_strlit("A");
        assert("A"@ != "mm"@) by { assert("A"@.len() != "mm"@.len()); }
        assert("A"@ != "m"@) by { assert("A"@[0] != "m"@[0]); }
        assert("A"@ != "um"@) by { assert("A"@.len() != "um"@.len()); }
        assert("A"@ != "mm/s"@) by { assert("A"@.len() != "mm/s"@.len()); }
        assert("A"@ != "m/s"@) by { assert("A"@.len() != "m/s"@.len()); }
        assert("A"@ != "mm/s^2"@) by { assert("A"@.len() != "mm/s^2"@.len()); }
        assert("A"@ != "m/s^2"@) by { assert("A"@.len() != "m/s^2"@.len()); }
        assert("A"@ != "s"@) by { assert("A"@[0] != "s"@[0]); }
        assert("A"@ != "ms"@) by { assert("A"@.len() != "ms"@.len()); }
        assert("A"@ != "us"@) by { assert("A"@.len() != "us"@.len()); }
        assert("A"@ != "min"@) by { assert("A"@.len() != "min"@.len()); }
        assert("A"@ != "W"@) by { assert("A"@[0] != "W"@[0]); }
        assert("A"@ != "kW"@) by { assert("A"@.len() != "kW"@.len()); }
        assert("A"@ != "V"@) by { assert("A"@[0] != "V"@[0]); }
        assert("A"@ != "mV"@) by { assert("A"@.len() != "mV"@.len()); }
    }
    assert(unit_dimension_of("mA"@) == Some(Dimension::Current)) by {
        reveal_strlit("mm");
        reveal_strlit("m");
        reveal_strlit("um");
        reveal_strlit("mm/s");
        reveal_strlit("m/s");
        reveal_strlit("mm/s^2");
        reveal_strlit("m/s^2");
        reveal_strlit("s");
        reveal_strlit("ms");
        reveal_strlit("us");
        reveal_strlit("min");
        reveal_strlit("W");
        reveal_strlit("kW");
        reveal_strlit("V");
        reveal_strlit("mV");
        reveal_strlit("A");
        reveal_strlit("mA");
        assert("mA"@ != "mm"@) by { assert("mA"@[1] != "mm"@[1]); }
        assert("mA"@ != "m"@) by { assert("mA"@.len() != "m"@.len()); }
        assert("mA"@ != "um"@) by { assert("mA"@[0] != "um"@[0]); }
        assert("mA"@ != "mm/s"@) by { assert("mA"@.len() != "mm/s"@.len()); }
        assert("mA"@ != "m/s"@) by { assert("mA"@.len() != "m/s"@.len()); }
        assert("mA"@ != "mm/s^2"@) by { assert("mA"@.len() != "mm/s^2"@.len()); }
        assert("mA"@ != "m/s^2"@) by { assert("mA"@.len() != "m/s^2"@.len()); }
        assert("mA"@ != "s"@) by { assert("mA"@.len() != "s"@.len()); }
        assert("mA"@ != "ms"@) by { assert("mA"@[1] != "ms"@[1]); }
        assert("mA"@ != "us"@) by { assert("mA"@[0] != "us"@[0]); }
        assert("mA"@ != "min"@) by { assert("mA"@.len() != "min"@.len()); }
        assert("mA"@ != "W"@) by { assert("mA"@.len() != "W"@.len()); }
        assert("mA"@ != "kW"@) by { assert("mA"@[0] != "kW"@[0]); }
        assert("mA"@ != "V"@) by { assert("mA"@.len() != "V"@.len()); }
        assert("mA"@ != "mV"@) by { assert("mA"@[1] != "mV"@[1]); }
        assert("mA"@ != "A"@) by { assert("mA"@.len() != "A"@.len()); }
    }
    assert(unit_dimension_of("Hz"@) == Some(Dimension::Frequency)) by {
        reveal_strlit("mm");
        reveal_strlit("m");
        reveal_strlit("um");
        reveal_strlit("mm/s");
        reveal_strlit("m/s");
        reveal_strlit("mm/s^2");
        reveal_strlit("m/s^2");
        reveal_strlit("s");
        reveal_strlit("ms");
        reveal_strlit("us");
        reveal_strlit("min");
        reveal_strlit("W");
        reveal_strlit("kW");
        reveal_strlit("V");
        reveal_strlit("mV");
        reveal_strlit("A");
        reveal_strlit("mA");
        reveal_strlit("Hz");
        assert("Hz"@ != "mm"@) by { assert("Hz"@[0] != "mm"@[0]); }
        assert("Hz"@ != "m"@) by { assert("Hz"@.len() != "m"@.len()); }
        assert("Hz"@ != "um"@) by { assert("Hz"@[0] != "um"@[0]); }
        assert("Hz"@ != "mm/s"@) by { assert("Hz"@.len() != "mm/s"@.len()); }
        assert("Hz"@ != "m/s"@) by { assert("Hz"@.len() != "m/s"@.len()); }
        assert("Hz"@ != "mm/s^2"@) by { assert("Hz"@.len() != "mm/s^2"@.len()); }
        assert("Hz"@ != "m/s^2"@) by { assert("Hz"@.len() != "m/s^2"@.len()); }
        assert("Hz"@ != "s"@) by { assert("Hz"@.len() != "s"@.len()); }
        assert("Hz"@ != "ms"@) by { assert("Hz"@[0] != "ms"@[0]); }
        assert("Hz"@ != "us"@) by { assert("Hz"@[0] != "us"@[0]); }
        assert("Hz"@ != "min"@) by { assert("Hz"@.len() != "min"@.len()); }
        assert("Hz"@ != "W"@) by { assert("Hz"@.len() != "W"@.len()); }
        assert("Hz"@ != "kW"@) by { assert("Hz"@[0] != "kW"@[0]); }
        assert("Hz"@ != "V"@) by { assert("Hz"@.len() != "V"@.len()); }
        assert("Hz"@ != "mV"@) by { assert("Hz"@[0] != "mV"@[0]); }
        assert("Hz"@ != "A"@) by { assert("Hz"@.len() != "A"@.len()); }
        assert("Hz"@ != "mA"@) by { assert("Hz"@[0] != "mA"@[0]); }
    }
    assert(unit_dimension_of("kHz"@) == Some(Dimension::Frequency)) by {
        reveal_strlit("mm");
        reveal_strlit("m");
        reveal_strlit("um");
        reveal_strlit("mm/s");
        reveal_strlit("m/s");
        reveal_strlit("mm/s^2");
        reveal_strlit("m/s^2");
        reveal_strlit("s");
        reveal_strlit("ms");
        reveal_strlit("us");
        reveal_strlit("min");
        reveal_strlit("W");
        reveal_strlit("kW");
        reveal_strlit("V");
        reveal_strlit("mV");
        reveal_strlit("A");
        reveal_strlit("mA");
        reveal_strlit("Hz");
        reveal_strlit("kHz");
        assert("kHz"@ != "mm"@) by { assert("kHz"@.len() != "mm"@.len()); }
        assert("kHz"@ != "m"@) by { assert("kHz"@.len() != "m"@.len()); }
        assert("kHz"@ != "um"@) by { assert("kHz"@.len() != "um"@.len()); }
        assert("kHz"@ != "mm/s"@) by { assert("kHz"@.len() != "mm/s"@.len()); }
        assert("kHz"@ != "m/s"@) by { assert("kHz"@[0] != "m/s"@[0]); }
        assert("kHz"@ != "mm/s^2"@) by { assert("kHz"@.len() != "mm/s^2"@.len()); }
        assert("kHz"@ != "m/s^2"@) by { assert("kHz"@.len() != "m/s^2"@.len()); }
        assert("kHz"@ != "s"@) by { assert("kHz"@.len() != "s"@.len()); }
        assert("kHz"@ != "ms"@) by { assert("kHz"@.len() != "ms"@.len()); }
        assert("kHz"@ != "us"@) by { assert("kHz"@.len() != "us"@.len()); }
        assert("kHz"@ != "min"@) by { assert("kHz"@[0] != "min"@[0]); }
        assert("kHz"@ != "W"@) by { assert("kHz"@.len() != "W"@.len()); }
        assert("kHz"@ != "kW"@) by { assert("kHz"@.len() != "kW"@.len()); }
        assert("kHz"@ != "V"@) by { assert("kHz"@.len() != "V"@.len()); }
        assert("kHz"@ != "mV"@) by { assert("kHz"@.len() != "mV"@.len()); }
        assert("kHz"@ != "A"@) by { assert("kHz"@.len() != "A"@.len()); }
        assert("kHz"@ != "mA"@) by { assert("kHz"@.len() != "mA"@.len()); }
        assert("kHz"@ != "Hz"@) by { assert("kHz"@.len() != "Hz"@.len()); }
    }
    assert(unit_dimension_of("MHz"@) == Some(Dimension::Frequency)) by {
        reveal_strlit("mm");
        reveal_strlit("m");
        reveal_strlit("um");
        reveal_strlit("mm/s");
        reveal_strlit("m/s");
        reveal_strlit("mm/s^2");
        reveal_strlit("m/s^2");
        reveal_strlit("s");
        reveal_strlit("ms");
        reveal_strlit("us");
        reveal_strlit("min");
        reveal_strlit("W");
        reveal_strlit("kW");
        reveal_strlit("V");
        reveal_strlit("mV");
        reveal_strlit("A");
        reveal_strlit("mA");
        reveal_strlit("Hz");
        reveal_strlit("kHz");
        reveal_strlit("MHz");
        assert("MHz"@ != "mm"@) by { assert("MHz"@.len() != "mm"@.len()); }
        assert("MHz"@ != "m"@) by { assert("MHz"@.len() != "m"@.len()); }
        assert("MHz"@ != "um"@) by { assert("MHz"@.len() != "um"@.len()); }
        assert("MHz"@ != "mm/s"@) by { assert("MHz"@.len() != "mm/s"@.len()); }
        assert("MHz"@ != "m/s"@) by { assert("MHz"@[0] != "m/s"@[0]); }
        assert("MHz"@ != "mm/s^2"@) by { assert("MHz"@.len() != "mm/s^2"@.len()); }
        assert("MHz"@ != "m/s^2"@) by { assert("MHz"@.len() != "m/s^2"@.len()); }
        assert("MHz"@ != "s"@) by { assert("MHz"@.len() != "s"@.len()); }
        assert("MHz"@ != "ms"@) by { assert("MHz"@.len() != "ms"@.len()); }
        assert("MHz"@ != "us"@) by { assert("MHz"@.len() != "us"@.len()); }
        assert("MHz"@ != "min"@) by { assert("MHz"@[0] != "min"@[0]); }
        assert("MHz"@ != "W"@) by { assert("MHz"@.len() != "W"@.len()); }
        assert("MHz"@ != "kW"@) by { assert("MHz"@.len() != "kW"@.len()); }
        assert("MHz"@ != "V"@) by { assert("MHz"@.len() != "V"@.len()); }
        assert("MHz"@ != "mV"@) by { assert("MHz"@.len() != "mV"@.len()); }
        assert("MHz"@ != "A"@) by { assert("MHz"@.len() != "A"@.len()); }
        assert("MHz"@ != "mA"@) by { assert("MHz"@.len() != "mA"@.len()); }
        assert("MHz"@ != "Hz"@) by { assert("MHz"@.len() != "Hz"@.len()); }
        assert("MHz"@ != "kHz"@) by { assert("MHz"@[0] != "kHz"@[0]); }
    }
    assert(unit_dimension_of("C"@) == Some(Dimension::Temperature)) by {
        reveal_strlit("mm");
        reveal_strlit("m");
        reveal_strlit("um");
        reveal_strlit("mm/s");
        reveal_strlit("m/s");
        reveal_strlit("mm/s^2");
        reveal_strlit("m/s^2");
        reveal_strlit("s");
        reveal_strlit("ms");
        reveal_strlit("us");
        reveal_strlit("min");
        reveal_strlit("W");
        reveal_strlit("kW");
        reveal_strlit("V");
        reveal_strlit("mV");
        reveal_strlit("A");
        reveal_strlit("mA");
        reveal_strlit("Hz");
        reveal_strlit("kHz");
        reveal_strlit("MHz");
        reveal_strlit("C");
        assert("C"@ != "mm"@) by { assert("C"@.len() != "mm"@.len()); }
        assert("C"@ != "m"@) by { assert("C"@[0] != "m"@[0]); }
        assert("C"@ != "um"@) by { assert("C"@.len() != "um"@.len()); }
        assert("C"@ != "mm/s"@) by { assert("C"@.len() != "mm/s"@.len()); }
        assert("C"@ != "m/s"@) by { assert("C"@.len() != "m/s"@.len()); }
        assert("C"@ != "mm/s^2"@) by { assert("C"@.len() != "mm/s^2"@.len()); }
        assert("C"@ != "m/s^2"@) by { assert("C"@.len() != "m/s^2"@.len()); }
        assert("C"@ != "s"@) by { assert("C"@[0] != "s"@[0]); }
        assert("C"@ != "ms"@) by { assert("C"@.len() != "ms"@.len()); }
        assert("C"@ != "us"@) by { assert("C"@.len() != "us"@.len()); }
        assert("C"@ != "min"@) by { assert("C"@.len() != "min"@.len()); }
        assert("C"@ != "W"@) by { assert("C"@[0] != "W"@[0]); }
        assert("C"@ != "kW"@) by { assert("C"@.len() != "kW"@.len()); }
        assert("C"@ != "V"@) by { assert("C"@[0] != "V"@[0]); }
        assert("C"@ != "mV"@) by { assert("C"@.len() != "mV"@.len()); }
        assert("C"@ != "A"@) by { assert("C"@[0] != "A"@[0]); }
        assert("C"@ != "mA"@) by { assert("C"@.len() != "mA"@.len()); }
        assert("C"@ != "Hz"@) by { assert("C"@.len() != "Hz"@.len()); }
        assert("C"@ != "kHz"@) by { assert("C"@.len() != "kHz"@.len()); }
        assert("C"@ != "MHz"@) by { assert("C"@.len() != "MHz"@.len()); }
    }
    assert(unit_dimension_of("Ohm"@) == Some(Dimension::Resistance)) by {
        reveal_strlit("mm");
        reveal_strlit("m");
        reveal_strlit("um");
        reveal_strlit("mm/s");
        reveal_strlit("m/s");
        reveal_strlit("mm/s^2");
        reveal_strlit("m/s^2");
        reveal_strlit("s");
        reveal_strlit("ms");
        reveal_strlit("us");
        reveal_strlit("min");
        reveal_strlit("W");
        reveal_strlit("kW");
        reveal_strlit("V");
        reveal_strlit("mV");
        reveal_strlit("A");
        reveal_strlit("mA");
        reveal_strlit("Hz");
        reveal_strlit("kHz");
        reveal_strlit("MHz");
        reveal_strlit("C");
        reveal_strlit("Ohm");
        assert("Ohm"@ != "mm"@) by { assert("Ohm"@.len() != "mm"@.len()); }
        assert("Ohm"@ != "m"@) by { assert("Ohm"@.len() != "m"@.len()); }
        assert("Ohm"@ != "um"@) by { assert("Ohm"@.len() != "um"@.len()); }
        assert("Ohm"@ != "mm/s"@) by { assert("Ohm"@.len() != "mm/s"@.len()); }
        assert("Ohm"@ != "m/s"@) by { assert("Ohm"@[0] != "m/s"@[0]); }
        assert("Ohm"@ != "mm/s^2"@) by { assert("Ohm"@.len() != "mm/s^2"@.len()); }
        assert("Ohm"@ != "m/s^2"@) by { assert("Ohm"@.len() != "m/s^2"@.len()); }
        assert("Ohm"@ != "s"@) by { assert("Ohm"@.len() != "s"@.len()); }
        assert("Ohm"@ != "ms"@) by { assert("Ohm"@.len() != "ms"@.len()); }
        assert("Ohm"@ != "us"@) by { assert("Ohm"@.len() != "us"@.len()); }
        assert("Ohm"@ != "min"@) by { assert("Ohm"@[0] != "min"@[0]); }
        assert("Ohm"@ != "W"@) by { assert("Ohm"@.len() != "W"@.len()); }
        assert("Ohm"@ != "kW"@) by { assert("Ohm"@.len() != "kW"@.len()); }
        assert("Ohm"@ != "V"@) by { assert("Ohm"@.len() != "V"@.len()); }
        assert("Ohm"@ != "mV"@) by { assert("Ohm"@.len() != "mV"@.len()); }
        assert("Ohm"@ != "A"@) by { assert("Ohm"@.len() != "A"@.len()); }
        assert("Ohm"@ != "mA"@) by { assert("Ohm"@.len() != "mA"@.len()); }
        assert("Ohm"@ != "Hz"@) by { assert("Ohm"@.len() != "Hz"@.len()); }
        assert("Ohm"@ != "kHz"@) by { assert("Ohm"@[0] != "kHz"@[0]); }
        assert("Ohm"@ != "MHz"@) by { assert("Ohm"@[0] != "MHz"@[0]); }
        assert("Ohm"@ != "C"@) by { assert("Ohm"@.len() != "C"@.len()); }
    }
    assert(unit_dimension_of("kOhm"@) == Some(Dimension::Resistance)) by {
        reveal_strlit("mm");
        reveal_strlit("m");
        reveal_strlit("um");
        reveal_strlit("mm/s");
        reveal_strlit("m/s");
        reveal_strlit("mm/s^2");
        reveal_strlit("m/s^2");
        reveal_strlit("s");
        reveal_strlit("ms");
        reveal_strlit("us");
        reveal_strlit("min");
        reveal_strlit("W");
        reveal_strlit("kW");
        reveal_strlit("V");
        reveal_strlit("mV");
        reveal_strlit("A");
        reveal_strlit("mA");
        reveal_strlit("Hz");
        reveal_strlit("kHz");
        reveal_strlit("MHz");
        reveal_strlit("C");
        reveal_strlit("Ohm");
        reveal_strlit("kOhm");
        assert("kOhm"@ != "mm"@) by { assert("kOhm"@.len() != "mm"@.len()); }
        assert("kOhm"@ != "m"@) by { assert("kOhm"@.len() != "m"@.len()); }
        assert("kOhm"@ != "um"@) by { assert("kOhm"@.len() != "um"@.len()); }
        assert("kOhm"@ != "mm/s"@) by { assert("kOhm"@[0] != "mm/s"@[0]); }
        assert("kOhm"@ != "m/s"@) by { assert("kOhm"@.len() != "m/s"@.len()); }
        assert("kOhm"@ != "mm/s^2"@) by { assert("kOhm"@.len() != "mm/s^2"@.len()); }
        assert("kOhm"@ != "m/s^2"@) by { assert("kOhm"@.len() != "m/s^2"@.len()); }
        assert("kOhm"@ != "s"@) by { assert("kOhm"@.len() != "s"@.len()); }
        assert("kOhm"@ != "ms"@) by { assert("kOhm"@.len() != "ms"@.len()); }
        assert("kOhm"@ != "us"@) by { assert("kOhm"@.len() != "us"@.len()); }
        assert("kOhm"@ != "min"@) by { assert("kOhm"@.len() != "min"@.len()); }
        assert("kOhm"@ != "W"@) by { assert("kOhm"@.len() != "W"@.len()); }
        assert("kOhm"@ != "kW"@) by { assert("kOhm"@.len() != "kW"@.len()); }
        assert("kOhm"@ != "V"@) by { assert("kOhm"@.len() != "V"@.len()); }
        assert("kOhm"@ != "mV"@) by { assert("kOhm"@.len() != "mV"@.len()); }
        assert("kOhm"@ != "A"@) by { assert("kOhm"@.len() != "A"@.len()); }
        assert("kOhm"@ != "mA"@) by { assert("kOhm"@.len() != "mA"@.len()); }
        assert("kOhm"@ != "Hz"@) by { assert("kOhm"@.len() != "Hz"@.len()); }
        assert("kOhm"@ != "kHz"@) by { assert("kOhm"@.len() != "kHz"@.len()); }
        assert("kOhm"@ != "MHz"@) by { assert("kOhm"@.len() != "MHz"@.len()); }
        assert("kOhm"@ != "C"@) by { assert("kOhm"@.len() != "C"@.len()); }
        assert("kOhm"@ != "Ohm"@) by { assert("kOhm"@.len() != "Ohm"@.len()); }
    }
    assert(unit_dimension_of("B"@) == Some(Dimension::Memory)) by {
        reveal_strlit("mm");
        reveal_strlit("m");
        reveal_strlit("um");
        reveal_strlit("mm/s");
        reveal_strlit("m/s");
        reveal_strlit("mm/s^2");
        reveal_strlit("m/s^2");
        reveal_strlit("s");
        reveal_strlit("ms");
        reveal_strlit("us");
        reveal_strlit("min");
        reveal_strlit("W");
        reveal_strlit("kW");
        reveal_strlit("V");
        reveal_strlit("mV");
        reveal_strlit("A");
        reveal_strlit("mA");
        reveal_strlit("Hz");
        reveal_strlit("kHz");
        reveal_strlit("MHz");
        reveal_strlit("C");
        reveal_strlit("Ohm");
        reveal_strlit("kOhm");
        reveal_strlit("B");
        assert("B"@ != "mm"@) by { assert("B"@.len() != "mm"@.len()); }
        assert("B"@ != "m"@) by { assert("B"@[0] != "m"@[0]); }
        assert("B"@ != "um"@) by { assert("B"@.len() != "um"@.len()); }
        assert("B"@ != "mm/s"@) by { assert("B"@.len() != "mm/s"@.len()); }
        assert("B"@ != "m/s"@) by { assert("B"@.len() != "m/s"@.len()); }
        assert("B"@ != "mm/s^2"@) by { assert("B"@.len() != "mm/s^2"@.len()); }
        assert("B"@ != "m/s^2"@) by { assert("B"@.len() != "m/s^2"@.len()); }
        assert("B"@ != "s"@) by { assert("B"@[0] != "s"@[0]); }
        assert("B"@ != "ms"@) by { assert("B"@.len() != "ms"@.len()); }
        assert("B"@ != "us"@) by { assert("B"@.len() != "us"@.len()); }
        assert("B"@ != "min"@) by { assert("B"@.len() != "min"@.len()); }
        assert("B"@ != "W"@) by { assert("B"@[0] != "W"@[0]); }
        assert("B"@ != "kW"@) by { assert("B"@.len() != "kW"@.len()); }
        assert("B"@ != "V"@) by { assert("B"@[0] != "V"@[0]); }
        assert("B"@ != "mV"@) by { assert("B"@.len() != "mV"@.len()); }
        assert("B"@ != "A"@) by { assert("B"@[0] != "A"@[0]); }
        assert("B"@ != "mA"@) by { assert("B"@.len() != "mA"@.len()); }
        assert("B"@ != "Hz"@) by { assert("B"@.len() != "Hz"@.len()); }
        assert("B"@ != "kHz"@) by { assert("B"@.len() != "kHz"@.len()); }
        assert("B"@ != "MHz"@) by { assert("B"@.len() != "MHz"@.len()); }
        assert("B"@ != "C"@) by { assert("B"@[0] != "C"@[0]); }
        assert("B"@ != "Ohm"@) by { assert("B"@.len() != "Ohm"@.len()); }
        assert("B"@ != "kOhm"@) by { assert("B"@.len() != "kOhm"@.len()); }
    }
    assert(unit_dimension_of("KiB"@) == Some(Dimension::Memory)) by {
        reveal_strlit("mm");
        reveal_strlit("m");
        reveal_strlit("um");
        reveal_strlit("mm/s");
        reveal_strlit("m/s");
        reveal_strlit("mm/s^2");
        reveal_strlit("m/s^2");
        reveal_strlit("s");
        reveal_strlit("ms");
        reveal_strlit("us");
        reveal_strlit("min");
        reveal_strlit("W");
        reveal_strlit("kW");
        reveal_strlit("V");
        reveal_strlit("mV");
        reveal_strlit("A");
        reveal_strlit("mA");
        reveal_strlit("Hz");
        reveal_strlit("kHz");
        reveal_strlit("MHz");
        reveal_strlit("C");
        reveal_strlit("Ohm");
        reveal_strlit("kOhm");
        reveal_strlit("B");
        reveal_strlit("KiB");
        assert("KiB"@ != "mm"@) by { assert("KiB"@.len() != "mm"@.len()); }
        assert("KiB"@ != "m"@) by { assert("KiB"@.len() != "m"@.len()); }
        assert("KiB"@ != "um"@) by { assert("KiB"@.len() != "um"@.len()); }
        assert("KiB"@ != "mm/s"@) by { assert("KiB"@.len() != "mm/s"@.len()); }
        assert("KiB"@ != "m/s"@) by { assert("KiB"@[0] != "m/s"@[0]); }
        assert("KiB"@ != "mm/s^2"@) by { assert("KiB"@.len() != "mm/s^2"@.len()); }
        assert("KiB"@ != "m/s^2"@) by { assert("KiB"@.len() != "m/s^2"@.len()); }
        assert("KiB"@ != "s"@) by { assert("KiB"@.len() != "s"@.len()); }
        assert("KiB"@ != "ms"@) by { assert("KiB"@.len() != "ms"@.len()); }
        assert("KiB"@ != "us"@) by { assert("KiB"@.len() != "us"@.len()); }
        assert("KiB"@ != "min"@) by { assert("KiB"@[0] != "min"@[0]); }
        assert("KiB"@ != "W"@) by { assert("KiB"@.len() != "W"@.len()); }
        assert("KiB"@ != "kW"@) by { assert("KiB"@.len() != "kW"@.len()); }
        assert("KiB"@ != "V"@) by { assert("KiB"@.len() != "V"@.len()); }
        assert("KiB"@ != "mV"@) by { assert("KiB"@.len() != "mV"@.len()); }
        assert("KiB"@ != "A"@) by { assert("KiB"@.len() != "A"@.len()); }
        assert("KiB"@ != "mA"@) by { assert("KiB"@.len() != "mA"@.len()); }
        assert("KiB"@ != "Hz"@) by { assert("KiB"@.len() != "Hz"@.len()); }
        assert("KiB"@ != "kHz"@) by { assert("KiB"@[0] != "kHz"@[0]); }
        assert("KiB"@ != "MHz"@) by { assert("KiB"@[0] != "MHz"@[0]); }
        assert("KiB"@ != "C"@) by { assert("KiB"@.len() != "C"@.len()); }
        assert("KiB"@ != "Ohm"@) by { assert("KiB"@[0] != "Ohm"@[0]); }
        assert("KiB"@ != "kOhm"@) by { assert("KiB"@.len() != "kOhm"@.len()); }
        assert("KiB"@ != "B"@) by { assert("KiB"@.len() != "B"@.len()); }
    }
    assert(unit_dimension_of("MiB"@) == Some(Dimension::Memory)) by {
        reveal_strlit("mm");
        reveal_strlit("m");
        reveal_strlit("um");
        reveal_strlit("mm/s");
        reveal_strlit("m/s");
        reveal_strlit("mm/s^2");
        reveal_strlit("m/s^2");
        reveal_strlit("s");
        reveal_strlit("ms");
        reveal_strlit("us");
        reveal_strlit("min");
        reveal_strlit("W");
        reveal_strlit("kW");
        reveal_strlit("V");
        reveal_strlit("mV");
        reveal_strlit("A");
        reveal_strlit("mA");
        reveal_strlit("Hz");
        reveal_strlit("kHz");
        reveal_strlit("MHz");
        reveal_strlit("C");
        reveal_strlit("Ohm");
        reveal_strlit("kOhm");
        reveal_strlit("B");
        reveal_strlit("KiB");
        reveal_strlit("MiB");
        assert("MiB"@ != "mm"@) by { assert("MiB"@.len() != "mm"@.len()); }
        assert("MiB"@ != "m"@) by { assert("MiB"@.len() != "m"@.len()); }
        assert("MiB"@ != "um"@) by { assert("MiB"@.len() != "um"@.len()); }
        assert("MiB"@ != "mm/s"@) by { assert("MiB"@.len() != "mm/s"@.len()); }
        assert("MiB"@ != "m/s"@) by { assert("MiB"@[0] != "m/s"@[0]); }
        assert("MiB"@ != "mm/s^2"@) by { assert("MiB"@.len() != "mm/s^2"@.len()); }
        assert("MiB"@ != "m/s^2"@) by { assert("MiB"@.len() != "m/s^2"@.len()); }
        assert("MiB"@ != "s"@) by { assert("MiB"@.len() != "s"@.len()); }
        assert("MiB"@ != "ms"@) by { assert("MiB"@.len() != "ms"@.len()); }
        assert("MiB"@ != "us"@) by { assert("MiB"@.len() != "us"@.len()); }
        assert("MiB"@ != "min"@) by { assert("MiB"@[0] != "min"@[0]); }
        assert("MiB"@ != "W"@) by { assert("MiB"@.len() != "W"@.len()); }
        assert("MiB"@ != "kW"@) by { assert("MiB"@.len() != "kW"@.len()); }
        assert("MiB"@ != "V"@) by { assert("MiB"@.len() != "V"@.len()); }
        assert("MiB"@ != "mV"@) by { assert("MiB"@.len() != "mV"@.len()); }
        assert("MiB"@ != "A"@) by { assert("MiB"@.len() != "A"@.len()); }
        assert("MiB"@ != "mA"@) by { assert("MiB"@.len() != "mA"@.len()); }
        assert("MiB"@ != "Hz"@) by { assert("MiB"@.len() != "Hz"@.len()); }
        assert("MiB"@ != "kHz"@) by { assert("MiB"@[0] != "kHz"@[0]); }
        assert("MiB"@ != "MHz"@) by { assert("MiB"@[1] != "MHz"@[1]); }
        assert("MiB"@ != "C"@) by { assert("MiB"@.len() != "C"@.len()); }
        assert("MiB"@ != "Ohm"@) by { assert("MiB"@[0] != "Ohm"@[0]); }
        assert("MiB"@ != "kOhm"@) by { assert("MiB"@.len() != "kOhm"@.len()); }
        assert("MiB"@ != "B"@) by { assert("MiB"@.len() != "B"@.len()); }
        assert("MiB"@ != "KiB"@) by { assert("MiB"@[0] != "KiB"@[0]); }
    }
    let table = unit_table();
    assert forall|i: int| 0 <= i < table.len() implies unit_dimension_of(#[trigger] table[i].0) == Some(table[i].1) by {
        assert(table[i] == unit_table()[i]);
    }
    if unit_dimension_of(unit) is Some {
        if unit == "mm"@ { assert(table[0].0 == unit); }
        if unit == "m"@ { assert(table[1].0 == unit); }
        if unit == "um"@ { assert(table[2].0 == unit); }
        if unit == "mm/s"@ { assert(table[3].0 == unit); }
        if unit == "m/s"@ { assert(table[4].0 == unit); }
        if unit == "mm/s^2"@ { assert(table[5].0 == unit); }
        if unit == "m/s^2"@ { assert(table[6].0 == unit); }
        if unit == "s"@ { assert(table[7].0 == unit); }
        if unit == "ms"@ { assert(table[8].0 == unit); }
        if unit == "us"@ { assert(table[9].0 == unit); }
        if unit == "min"@ { assert(table[10].0 == unit); }
        if unit == "W"@ { assert(table[11].0 == unit); }
        if unit == "kW"@ { assert(table[12].0 == unit); }
        if unit == "V"@ { assert(table[13].0 == unit); }
        if unit == "mV"@ { assert(table[14].0 == unit); }
        if unit == "A"@ { assert(table[15].0 == unit); }
        if unit == "mA"@ { assert(table[16].0 == unit); }
        if unit == "Hz"@ { assert(table[17].0 == unit); }
        if unit == "kHz"@ { assert(table[18].0 == unit); }
        if unit == "MHz"@ { assert(table[19].0 == unit); }
        if unit == "C"@ { assert(table[20].0 == unit); }
        if unit == "Ohm"@ { assert(table[21].0 == unit); }
        if unit == "kOhm"@ { assert(table[22].0 == unit); }
        if unit == "B"@ { assert(table[23].0 == unit); }
        if unit == "KiB"@ { assert(table[24].0 == unit); }
        if unit == "MiB"@ { assert(table[25].0 == unit); }
    }
}

} // verus!
