//! Device package payload: a reusable component's declared class and the
//! connector, voltage-domain and bus requirements capability matching
//! holds it to.

use vstd::prelude::*;
use crate::package::PackageIdentity;
use crate::package::board::{finding, finding_if, findings, plain_errors, report};
use crate::schema::{Diagnostic, is_valid_identifier, valid_identifier};
use crate::text::{push_str, str_eq};

verus! {

/// The `package.yaml` view of a device package.
#[derive(Debug, Clone)]
pub struct DevicePackageFile {
    pub package: PackageIdentity,
    pub device: Option<DeviceInfo>,
    pub requires: Option<Requires>,
    pub capabilities: Vec<String>,
}

#[derive(Debug, Clone, PartialEq, Eq)]
pub struct DeviceInfo {
    pub class: Option<String>,
    pub model: Option<String>,
}

/// What a device needs from the connector it is placed on.
#[derive(Debug, Clone, PartialEq, Eq)]
pub struct Requires {
    /// The connector kind the device occupies (`stepper_driver_socket`).
    pub connector: Option<String>,
    /// Acceptable connector voltage domains; empty means no requirement. A
    /// connector with no declared domain does not satisfy a non-empty list.
    pub voltage_domains: Vec<String>,
    pub bus: Option<BusReq>,
}

/// A bus requirement: the connector's pins must carry functions of this
/// bus kind, with the declared budgets.
#[derive(Debug, Clone, PartialEq, Eq)]
pub struct BusReq {
    /// Bus family (`spi`, `i2c`, `uart`).
    pub kind: String,
    /// Minimum bus frequency as a quantity text (`1 MHz`).
    pub min_frequency: Option<String>,
    /// Peripheral signals that need an explicit DMA route (`rx`, `tx`).
    pub dma_signals: Vec<String>,
    /// Maximum acceptable worst-case latency (`50 us`).
    pub max_latency: Option<String>,
    /// Maximum acceptable worst-case jitter (`10 us`).
    pub max_jitter: Option<String>,
}

/// What the quantity reader made of a timing budget.
#[derive(Debug, Clone, PartialEq, Eq)]
pub enum TimingReading {
    /// A time that is zero or more.
    NonNegative,
    /// A time below zero.
    Negative,
    /// Not a time; the reason.
    Unreadable(String),
}

/// The finding for a present timing budget that is not a non-negative
/// time.
pub open spec fn timing_findings(
    reference: Seq<char>,
    field: Seq<char>,
    code: Seq<char>,
    raw: Option<String>,
    reading: TimingReading,
) -> Seq<(Seq<char>, Seq<char>)> {
    if raw is None {
        seq![]
    } else {
        match reading {
            TimingReading::NonNegative => seq![],
            TimingReading::Negative => seq![
                finding(code, reference + ": requires.bus."@ + field + " must be non-negative"@),
            ],
            TimingReading::Unreadable(reason) => seq![
                finding(code, reference + ": requires.bus."@ + field + ": "@ + reason@),
            ],
        }
    }
}

/// `name` already occurs among `earlier`.
pub open spec fn seen_before(earlier: Seq<String>, name: Seq<char>) -> bool {
    exists|j: int| 0 <= j < earlier.len() && (#[trigger] earlier[j])@ == name
}

/// One finding for each DMA signal that is not an identifier or repeats
/// an earlier one.
pub open spec fn dma_signal_findings(reference: Seq<char>, signals: Seq<String>) -> Seq<
    (Seq<char>, Seq<char>),
>
    decreases signals.len(),
{
    if signals.len() == 0 {
        seq![]
    } else {
        let signal = signals.last()@;
        dma_signal_findings(reference, signals.drop_last()) + finding_if(
            !is_valid_identifier(signal) || seen_before(signals.drop_last(), signal),
            "E0626"@,
            reference + ": requires.bus.dma_signals entries must be unique identifiers; got '"@
                + signal + "'"@,
        )
    }
}

/// All findings for a device payload's bus requirement: its minimum
/// frequency, its latency and jitter budgets, and its DMA signals.
/// `frequency_problem` is the reason the minimum frequency cannot be read
/// as a frequency, if any.
pub open spec fn device_findings(
    reference: Seq<char>,
    device: DevicePackageFile,
    frequency_problem: Option<String>,
    latency: TimingReading,
    jitter: TimingReading,
) -> Seq<(Seq<char>, Seq<char>)> {
    match device.requires {
        Some(Requires { bus: Some(bus), .. }) => {
            let frequency = match (bus.min_frequency, frequency_problem) {
                (Some(_), Some(reason)) => seq![
                    finding("E0623"@, reference + ": requires.bus.min_frequency: "@ + reason@),
                ],
                _ => seq![],
            };
            frequency + timing_findings(reference, "max_latency"@, "E0624"@, bus.max_latency, latency)
                + timing_findings(reference, "max_jitter"@, "E0625"@, bus.max_jitter, jitter)
                + dma_signal_findings(reference, bus.dma_signals@)
        },
        _ => seq![],
    }
}

fn check_timing(
    reference: &str,
    field: &str,
    code: &str,
    raw: &Option<String>,
    reading: &TimingReading,
    diags: &mut Vec<Diagnostic>,
)
    ensures
        plain_errors(old(diags)@) ==> plain_errors(final(diags)@),
        findings(final(diags)@) == findings(old(diags)@) + timing_findings(
            reference@,
            field@,
            code@,
            *raw,
            *reading,
        ),
{
    if raw.is_some() {
        let mut message = reference.to_owned();
        push_str(&mut message, ": requires.bus.");
        push_str(&mut message, field);
        match reading {
            TimingReading::NonNegative => {},
            TimingReading::Negative => {
                push_str(&mut message, " must be non-negative");
                report(diags, code, message);
            },
            TimingReading::Unreadable(reason) => {
                push_str(&mut message, ": ");
                push_str(&mut message, reason.as_str());
                report(diags, code, message);
            },
        }
    }
    assert(findings(diags@) =~= findings(old(diags)@) + timing_findings(
        reference@,
        field@,
        code@,
        *raw,
        *reading,
    ));
}

fn occurs_among(earlier: &Vec<String>, upto: usize, name: &str) -> (found: bool)
    requires
        upto <= earlier@.len(),
    ensures
        found == seen_before(earlier@.subrange(0, upto as int), name@),
{
    let ghost prefix = earlier@.subrange(0, upto as int);
    let mut j: usize = 0;
    while j < upto
        invariant
            j <= upto,
            upto <= earlier@.len(),
            prefix == earlier@.subrange(0, upto as int),
            forall|k: int| 0 <= k < j ==> (#[trigger] earlier@[k])@ != name@,
        decreases upto - j,
    {
        if str_eq(earlier[j].as_str(), name) {
            assert(prefix[j as int] == earlier@[j as int]);
            return true;
        }
        j = j + 1;
    }
    assert forall|k: int| 0 <= k < prefix.len() implies (#[trigger] prefix[k])@ != name@ by {
        assert(prefix[k] == earlier@[k]);
    }
    false
}

fn check_dma_signals(reference: &str, signals: &Vec<String>, diags: &mut Vec<Diagnostic>)
    ensures
        plain_errors(old(diags)@) ==> plain_errors(final(diags)@),
        findings(final(diags)@) == findings(old(diags)@) + dma_signal_findings(reference@, signals@),
{
    let ghost start = findings(diags@);
    let mut i: usize = 0;
    while i < signals.len()
        invariant
            i <= signals@.len(),
            plain_errors(old(diags)@) ==> plain_errors(diags@),
            findings(diags@) == start + dma_signal_findings(
                reference@,
                signals@.subrange(0, i as int),
            ),
        decreases signals@.len() - i,
    {
        let ghost before = findings(diags@);
        let signal = signals[i].as_str();
        let flagged = !valid_identifier(signal) || occurs_among(signals, i, signal);
        if flagged {
            let mut message = reference.to_owned();
            push_str(
                &mut message,
                ": requires.bus.dma_signals entries must be unique identifiers; got '",
            );
            push_str(&mut message, signal);
            push_str(&mut message, "'");
            report(diags, "E0626", message);
        }
        proof {
            let next = signals@.subrange(0, i + 1);
            assert(next.drop_last() =~= signals@.subrange(0, i as int));
            assert(next.last() == signals@[i as int]);
            assert(findings(diags@) =~= start + dma_signal_findings(reference@, next));
        }
        i = i + 1;
    }
    assert(signals@.subrange(0, signals@.len() as int) =~= signals@);
}

/// Appends the findings for a parsed device payload to `diags`. The
/// quantity texts are judged by the caller: `frequency_problem` is why the
/// minimum frequency is not a frequency, and `latency` and `jitter` what
/// the latency and jitter budgets read as; each is consulted only when its
/// field is present.
pub fn validate_device(
    reference: &str,
    device: &DevicePackageFile,
    frequency_problem: &Option<String>,
    latency: &TimingReading,
    jitter: &TimingReading,
    diags: &mut Vec<Diagnostic>,
)
    ensures
        plain_errors(old(diags)@) ==> plain_errors(final(diags)@),
        findings(final(diags)@) == findings(old(diags)@) + device_findings(
            reference@,
            *device,
            *frequency_problem,
            *latency,
            *jitter,
        ),
{
    let ghost start = findings(diags@);
    match &device.requires {
        Some(needs) => match &needs.bus {
            Some(bus) => {
                match (&bus.min_frequency, frequency_problem) {
                    (Some(_), Some(reason)) => {
                        let mut message = reference.to_owned();
                        push_str(&mut message, ": requires.bus.min_frequency: ");
                        push_str(&mut message, reason.as_str());
                        report(diags, "E0623", message);
                    },
                    _ => {},
                }
                check_timing(reference, "max_latency", "E0624", &bus.max_latency, latency, diags);
                check_timing(reference, "max_jitter", "E0625", &bus.max_jitter, jitter, diags);
                check_dma_signals(reference, &bus.dma_signals, diags);
            },
            None => {},
        },
        None => {},
    }
    assert(findings(diags@) =~= start + device_findings(
        reference@,
        *device,
        *frequency_problem,
        *latency,
        *jitter,
    ));
}

} // verus!
