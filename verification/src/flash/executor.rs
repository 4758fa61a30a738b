//! Flash-tool command lines for a ready plan (`dfu-util`, `stm32flash`,
//! `bossac`, `picotool`) and the checks that come before any of them runs.

use std::str::FromStr;
use vstd::prelude::*;
use crate::digest::{sha256, sha256_label};
use crate::flash::{
    DiscoveredUsbDevice, FlashExecutionError, FlashPlan, FlashResult, MatchStatus, first_reason_or,
    vid_pid_string, vid_pid_text,
};
use crate::text::{
    contains, dashes_to_underscores, decimal, decimal_string, has_infix, has_prefix,
    ascii_lower, is_ascii_text, is_white_space, lowered_text, push_decimal, trim_end, trim_start, push_str, replace_dashes, starts_with, str_eq, string_views,
    to_lowercase, trim, trimmed, joined, join,
};

verus! {

/// The supported flash tools.
#[derive(Debug, Clone, Copy, PartialEq, Eq, Hash, Structural)]
pub enum FlashToolMethod {
    DfuUtil,
    Stm32Flash,
    Bossac,
    Picotool,
}

pub open spec fn method_label(method: FlashToolMethod) -> Seq<char> {
    match method {
        FlashToolMethod::DfuUtil => "dfu_util"@,
        FlashToolMethod::Stm32Flash => "stm32flash"@,
        FlashToolMethod::Bossac => "bossac"@,
        FlashToolMethod::Picotool => "picotool"@,
    }
}

pub open spec fn default_binary(method: FlashToolMethod) -> Seq<char> {
    match method {
        FlashToolMethod::DfuUtil => "dfu-util"@,
        FlashToolMethod::Stm32Flash => "stm32flash"@,
        FlashToolMethod::Bossac => "bossac"@,
        FlashToolMethod::Picotool => "picotool"@,
    }
}

/// The method a normalized (trimmed, lowercased, `-` as `_`) name denotes.
pub open spec fn method_for_name(name: Seq<char>) -> Option<FlashToolMethod> {
    if name == "dfu"@ || name == "dfu_util"@ || name == "dfu_util_v0"@ {
        Some(FlashToolMethod::DfuUtil)
    } else if name == "stm32flash"@ || name == "stm32_flash"@ || name == "stm32"@ {
        Some(FlashToolMethod::Stm32Flash)
    } else if name == "bossac"@ || name == "bossa"@ {
        Some(FlashToolMethod::Bossac)
    } else if name == "picotool"@ || name == "pico"@ {
        Some(FlashToolMethod::Picotool)
    } else {
        None
    }
}

/// A method name as the parser compares it: trimmed, lowercased, and with
/// `-` read as `_`.
pub open spec fn normalized_method_name(text: Seq<char>) -> Seq<char> {
    dashes_to_underscores(lowered_text(trimmed(text)))
}

impl FlashToolMethod {
    pub fn as_str(&self) -> (label: &'static str)
        ensures
            label@ == method_label(*self),
    {
        match self {
            FlashToolMethod::DfuUtil => "dfu_util",
            FlashToolMethod::Stm32Flash => "stm32flash",
            FlashToolMethod::Bossac => "bossac",
            FlashToolMethod::Picotool => "picotool",
        }
    }

    pub fn default_binary_name(&self) -> (name: &'static str)
        ensures
            name@ == default_binary(*self),
    {
        match self {
            FlashToolMethod::DfuUtil => "dfu-util",
            FlashToolMethod::Stm32Flash => "stm32flash",
            FlashToolMethod::Bossac => "bossac",
            FlashToolMethod::Picotool => "picotool",
        }
    }

    /// The method an already normalized name denotes, if any.
    pub fn from_normalized_name(name: &str) -> (method: Option<Self>)
        ensures
            method == method_for_name(name@),
    {
        if str_eq(name, "dfu") || str_eq(name, "dfu_util") || str_eq(name, "dfu_util_v0") {
            Some(FlashToolMethod::DfuUtil)
        } else if str_eq(name, "stm32flash") || str_eq(name, "stm32_flash") || str_eq(
            name,
            "stm32",
        ) {
            Some(FlashToolMethod::Stm32Flash)
        } else if str_eq(name, "bossac") || str_eq(name, "bossa") {
            Some(FlashToolMethod::Bossac)
        } else if str_eq(name, "picotool") || str_eq(name, "pico") {
            Some(FlashToolMethod::Picotool)
        } else {
            None
        }
    }

    /// Parses a method name, ignoring surrounding white space, case, and
    /// the difference between `-` and `_`.
    pub fn parse_name(text: &str) -> (result: Result<Self, FlashExecutionError>)
        ensures
            match method_for_name(normalized_method_name(text@)) {
                Some(method) => result == Ok::<Self, FlashExecutionError>(method),
                None => result matches Err(FlashExecutionError::TransportError { message })
                    && message@ == "unsupported flash execution method '"@ + text@ + "'"@,
            },
    {
        let lowered = to_lowercase(trim(text));
        let normalized = replace_dashes(lowered.as_str());
        match FlashToolMethod::from_normalized_name(normalized.as_str()) {
            Some(method) => Ok(method),
            None => {
                let mut message = String::new();
                push_str(&mut message, "unsupported flash execution method '");
                push_str(&mut message, text);
                push_str(&mut message, "'");
                Err(FlashExecutionError::TransportError { message })
            },
        }
    }
}

impl FromStr for FlashToolMethod {
    type Err = FlashExecutionError;

    fn from_str(s: &str) -> Result<Self, Self::Err> {
        FlashToolMethod::parse_name(s)
    }
}

/// A generated tool command line.
#[derive(Debug, Clone, PartialEq, Eq)]
pub struct FlashCommand {
    pub tool: FlashToolMethod,
    pub program: String,
    pub args: Vec<String>,
}

impl FlashCommand {
    /// The program and its arguments, separated by single spaces.
    pub fn display_command(&self) -> (text: String)
        ensures
            text@ == self.program@ + " "@ + joined(string_views(self.args@), " "@),
    {
        let mut text = self.program.clone();
        push_str(&mut text, " ");
        let rest = join(&self.args, " ");
        push_str(&mut text, rest.as_str());
        text
    }
}

/// A lowercased location that names a serial port.
pub open spec fn serial_port_text(lowered: Seq<char>) -> bool {
    has_prefix(lowered, "/dev/"@) || has_prefix(lowered, "com"@) || has_infix(lowered, "tty"@)
        || has_infix(lowered, "serial"@)
}

/// Whether an already lowercased location names a serial port.
pub fn names_serial_port(lowered: &str) -> (serial: bool)
    ensures
        serial == serial_port_text(lowered@),
{
    starts_with(lowered, "/dev/") || starts_with(lowered, "com") || contains(lowered, "tty")
        || contains(lowered, "serial")
}

fn is_serial_port(location: &str) -> (serial: bool)
    ensures
        serial == serial_port_text(lowered_text(location@)),
{
    let lowered = to_lowercase(location);
    names_serial_port(lowered.as_str())
}

/// The first candidate of the plan's device selection.
pub open spec fn first_candidate(plan: FlashPlan) -> Option<DiscoveredUsbDevice> {
    if plan.device_selection.candidates@.len() > 0 {
        Some(plan.device_selection.candidates@[0])
    } else {
        None
    }
}

/// `-S <serial>` when a serial number with visible characters is known.
pub open spec fn serial_args(serial: Option<String>) -> Seq<Seq<char>> {
    match serial {
        Some(s) => if trimmed(s@).len() > 0 {
            seq!["-S"@, s@]
        } else {
            seq![]
        },
        None => seq![],
    }
}

/// The candidate's location, when it is a serial port.
pub open spec fn serial_location(candidate: Option<DiscoveredUsbDevice>) -> Option<Seq<char>> {
    match candidate {
        Some(c) => if serial_port_text(lowered_text(c.location@)) {
            Some(c.location@)
        } else {
            None
        },
        None => None,
    }
}

/// The arguments of each tool's command line.
pub open spec fn command_args(method: FlashToolMethod, plan: FlashPlan, artifact: Seq<char>) -> Seq<
    Seq<char>,
> {
    let candidate = first_candidate(plan);
    let rule = plan.device_selection.rule;
    match method {
        FlashToolMethod::DfuUtil => {
            let target = match candidate {
                Some(c) => seq!["-d"@, vid_pid_text(c.usb_vid, c.usb_pid)] + serial_args(
                    c.serial_number,
                ),
                None => seq!["-d"@, vid_pid_text(rule.usb_vid, rule.usb_pid)] + serial_args(
                    rule.serial_number,
                ),
            };
            target + seq!["-D"@, artifact, "-R"@]
        },
        FlashToolMethod::Stm32Flash => {
            let port = match serial_location(candidate) {
                Some(l) => seq![l],
                None => seq![],
            };
            seq!["-w"@, artifact, "-v"@, "-g"@, "0x0"@] + port
        },
        FlashToolMethod::Bossac => {
            let port = match serial_location(candidate) {
                Some(l) => seq!["-p"@, l],
                None => seq![],
            };
            port + seq!["-e"@, "-w"@, "-v"@, "-b"@, "-R"@, artifact]
        },
        FlashToolMethod::Picotool => {
            let address = match candidate {
                Some(c) => if c.bus_id@.len() > 0 && c.device_address > 0 {
                    seq!["--bus"@, c.bus_id@, "--address"@, decimal(c.device_address as nat)]
                } else {
                    seq![]
                },
                None => seq![],
            };
            seq!["load"@] + address + seq![artifact, "-x"@, "-v"@]
        },
    }
}

fn push_arg(args: &mut Vec<String>, arg: String)
    ensures
        string_views(final(args)@) == string_views(old(args)@).push(arg@),
{
    args.push(arg);
    assert(string_views(args@) =~= string_views(old(args)@).push(arg@));
}

fn push_literal(args: &mut Vec<String>, arg: &str)
    ensures
        string_views(final(args)@) == string_views(old(args)@).push(arg@),
{
    push_arg(args, arg.to_owned());
}

fn push_serial_args(args: &mut Vec<String>, serial: &Option<String>)
    ensures
        string_views(final(args)@) == string_views(old(args)@) + serial_args(*serial),
{
    match serial {
        Some(s) => {
            if trim(s.as_str()).unicode_len() > 0 {
                push_literal(args, "-S");
                push_arg(args, s.clone());
            }
        },
        None => {},
    }
    assert(string_views(args@) =~= string_views(old(args)@) + serial_args(*serial));
}

/// Generates the tool invocation for a method, plan and artifact path.
pub fn generate_command(
    method: FlashToolMethod,
    plan: &FlashPlan,
    artifact_path: &str,
    binary_override: Option<&str>,
) -> (result: Result<FlashCommand, FlashExecutionError>)
    ensures
        result matches Ok(command) && command.tool == method && command.program@ == (
        match binary_override {
            Some(program) => program@,
            None => default_binary(method),
        }) && string_views(command.args@) == command_args(method, *plan, artifact_path@),
{
    let program = match binary_override {
        Some(p) => p.to_owned(),
        None => method.default_binary_name().to_owned(),
    };
    let candidates = &plan.device_selection.candidates;
    let rule = &plan.device_selection.rule;
    let mut args: Vec<String> = Vec::new();
    let ghost expected = command_args(method, *plan, artifact_path@);
    match method {
        FlashToolMethod::DfuUtil => {
            push_literal(&mut args, "-d");
            if candidates.len() > 0 {
                let c = &candidates[0];
                push_arg(&mut args, vid_pid_string(c.usb_vid, c.usb_pid));
                push_serial_args(&mut args, &c.serial_number);
            } else {
                push_arg(&mut args, vid_pid_string(rule.usb_vid, rule.usb_pid));
                push_serial_args(&mut args, &rule.serial_number);
            }
            push_literal(&mut args, "-D");
            push_literal(&mut args, artifact_path);
            push_literal(&mut args, "-R");
        },
        FlashToolMethod::Stm32Flash => {
            push_literal(&mut args, "-w");
            push_literal(&mut args, artifact_path);
            push_literal(&mut args, "-v");
            push_literal(&mut args, "-g");
            push_literal(&mut args, "0x0");
            if candidates.len() > 0 {
                let c = &candidates[0];
                if is_serial_port(c.location.as_str()) {
                    push_arg(&mut args, c.location.clone());
                }
            }
        },
        FlashToolMethod::Bossac => {
            if candidates.len() > 0 {
                let c = &candidates[0];
                if is_serial_port(c.location.as_str()) {
                    push_literal(&mut args, "-p");
                    push_arg(&mut args, c.location.clone());
                }
            }
            push_literal(&mut args, "-e");
            push_literal(&mut args, "-w");
            push_literal(&mut args, "-v");
            push_literal(&mut args, "-b");
            push_literal(&mut args, "-R");
            push_literal(&mut args, artifact_path);
        },
        FlashToolMethod::Picotool => {
            push_literal(&mut args, "load");
            if candidates.len() > 0 {
                let c = &candidates[0];
                if c.bus_id.as_str().unicode_len() > 0 && c.device_address > 0 {
                    push_literal(&mut args, "--bus");
                    push_arg(&mut args, c.bus_id.clone());
                    push_literal(&mut args, "--address");
                    push_arg(&mut args, decimal_string(c.device_address as u64));
                }
            }
            push_literal(&mut args, artifact_path);
            push_literal(&mut args, "-x");
            push_literal(&mut args, "-v");
        },
    }
    assert(string_views(args@) =~= expected);
    Ok(FlashCommand { tool: method, program, args })
}

/// The program configured for a method: the first override naming it.
pub open spec fn override_for(overrides: Seq<(FlashToolMethod, String)>, method: FlashToolMethod) -> Option<
    Seq<char>,
>
    decreases overrides.len(),
{
    if overrides.len() == 0 {
        None
    } else if overrides[0].0 == method {
        Some(overrides[0].1@)
    } else {
        override_for(overrides.drop_first(), method)
    }
}

/// Native executor configuration: dry-run switch, temporary directory for
/// artifacts written out before flashing, and per-tool program overrides.
#[derive(Debug)]
pub struct NativeFlashExecutor {
    pub dry_run: bool,
    pub custom_temp_dir: Option<String>,
    pub binary_overrides: Vec<(FlashToolMethod, String)>,
}

impl NativeFlashExecutor {
    pub fn new() -> (executor: Self)
        ensures
            !executor.dry_run,
            executor.custom_temp_dir is None,
            executor.binary_overrides@.len() == 0,
    {
        NativeFlashExecutor { dry_run: false, custom_temp_dir: None, binary_overrides: Vec::new() }
    }

    pub fn dry_run() -> (executor: Self)
        ensures
            executor.dry_run,
            executor.custom_temp_dir is None,
            executor.binary_overrides@.len() == 0,
    {
        NativeFlashExecutor { dry_run: true, custom_temp_dir: None, binary_overrides: Vec::new() }
    }

    pub fn with_dry_run(self, dry_run: bool) -> (executor: Self)
        ensures
            executor.dry_run == dry_run,
            executor.custom_temp_dir == self.custom_temp_dir,
            executor.binary_overrides@ == self.binary_overrides@,
    {
        let mut executor = self;
        executor.dry_run = dry_run;
        executor
    }

    pub fn with_temp_dir(self, path: String) -> (executor: Self)
        ensures
            executor.dry_run == self.dry_run,
            executor.custom_temp_dir == Some(path),
            executor.binary_overrides@ == self.binary_overrides@,
    {
        let mut executor = self;
        executor.custom_temp_dir = Some(path);
        executor
    }

    /// Uses `program_path` for `method` from now on.
    pub fn with_binary_override(self, method: FlashToolMethod, program_path: &str) -> (executor:
        Self)
        ensures
            executor.dry_run == self.dry_run,
            executor.custom_temp_dir == self.custom_temp_dir,
            override_for(executor.binary_overrides@, method) == Some(program_path@),
            forall|other: FlashToolMethod|
                other != method ==> override_for(executor.binary_overrides@, other)
                    == override_for(self.binary_overrides@, other),
    {
        let mut executor = self;
        let ghost before = executor.binary_overrides@;
        let mut i: usize = 0;
        while i < executor.binary_overrides.len() && executor.binary_overrides[i].0 != method
            invariant
                executor.binary_overrides@ == before,
                i <= before.len(),
                forall|k: int| 0 <= k < i ==> before[k].0 != method,
            decreases before.len() - i,
        {
            i = i + 1;
        }
        if i < executor.binary_overrides.len() {
            executor.binary_overrides.set(i, (method, program_path.to_owned()));
            proof {
                lemma_override_update(before, i as int, method, executor.binary_overrides@);
            }
        } else {
            executor.binary_overrides.push((method, program_path.to_owned()));
            proof {
                lemma_override_append(before, method, executor.binary_overrides@);
            }
        }
        executor
    }

    /// The program override for a method, if one is configured.
    pub fn binary_override(&self, method: FlashToolMethod) -> (program: Option<&str>)
        ensures
            match program {
                Some(p) => override_for(self.binary_overrides@, method) == Some(p@),
                None => override_for(self.binary_overrides@, method) is None,
            },
    {
        let mut i: usize = 0;
        assert(self.binary_overrides@.subrange(0, self.binary_overrides@.len() as int)
            =~= self.binary_overrides@);
        while i < self.binary_overrides.len()
            invariant
                i <= self.binary_overrides@.len(),
                override_for(self.binary_overrides@, method) == override_for(
                    self.binary_overrides@.subrange(i as int, self.binary_overrides@.len() as int),
                    method,
                ),
            decreases self.binary_overrides@.len() - i,
        {
            proof {
                let rest = self.binary_overrides@.subrange(
                    i as int,
                    self.binary_overrides@.len() as int,
                );
                assert(rest.drop_first() =~= self.binary_overrides@.subrange(
                    i + 1,
                    self.binary_overrides@.len() as int,
                ));
            }
            if self.binary_overrides[i].0 == method {
                return Some(self.binary_overrides[i].1.as_str());
            }
            i = i + 1;
        }
        None
    }

    /// The tool invocation for a plan and artifact path.
    pub fn build_command(&self, plan: &FlashPlan, artifact_path: &str) -> (result: Result<
        FlashCommand,
        FlashExecutionError,
    >)
        ensures
            match method_for_name(normalized_method_name(plan.method@)) {
                Some(method) => result matches Ok(command) && command.tool == method
                    && command.program@ == (match override_for(self.binary_overrides@, method) {
                    Some(program) => program,
                    None => default_binary(method),
                }) && string_views(command.args@) == command_args(method, *plan, artifact_path@),
                None => result matches Err(FlashExecutionError::TransportError { message })
                    && message@ == "unsupported flash execution method '"@ + plan.method@ + "'"@,
            },
    {
        let method = match FlashToolMethod::parse_name(plan.method.as_str()) {
            Ok(m) => m,
            Err(e) => return Err(e),
        };
        let binary_override = self.binary_override(method);
        generate_command(method, plan, artifact_path, binary_override)
    }

    /// The pre-flight checks, in order: a plan that is not ready, a device
    /// that is not uniquely selected, and bytes whose digest is not the
    /// plan's are refused; otherwise the plan's method is parsed.
    pub fn validate_plan(&self, plan: &FlashPlan, artifact_bytes: &[u8]) -> (result: Result<
        FlashToolMethod,
        FlashExecutionError,
    >)
        ensures
            ({
                let not_ready = !plan.ready || plan.blocked_reasons@.len() > 0;
                let no_device = plan.device_selection.status != MatchStatus::Unique
                    || plan.device_selection.candidates@.len() == 0;
                let digest_differs = sha256_label(artifact_bytes@) != plan.artifact.expected_sha256@;
                if not_ready {
                    result matches Err(FlashExecutionError::PlanNotReady { reason })
                        && reason@ == first_reason_or(*plan, "flash plan is not ready"@)
                } else if no_device {
                    result matches Err(FlashExecutionError::DeviceNotFound { target })
                        && target@ == plan.controller@
                } else if digest_differs {
                    result matches Err(FlashExecutionError::ChecksumMismatch { expected, actual })
                        && expected@ == plan.artifact.expected_sha256@ && actual@ == sha256_label(
                        artifact_bytes@,
                    )
                } else {
                    match method_for_name(normalized_method_name(plan.method@)) {
                        Some(method) => result == Ok::<FlashToolMethod, FlashExecutionError>(method),
                        None => result matches Err(FlashExecutionError::TransportError { message })
                            && message@ == "unsupported flash execution method '"@ + plan.method@
                            + "'"@,
                    }
                }
            }),
    {
        if !plan.ready || plan.blocked_reasons.len() > 0 {
            let reason = if plan.blocked_reasons.len() > 0 {
                plan.blocked_reasons[0].clone()
            } else {
                "flash plan is not ready".to_owned()
            };
            return Err(FlashExecutionError::PlanNotReady { reason });
        }
        if plan.device_selection.status != MatchStatus::Unique
            || plan.device_selection.candidates.len() == 0 {
            return Err(FlashExecutionError::DeviceNotFound { target: plan.controller.clone() });
        }
        let actual = sha256(artifact_bytes);
        if !str_eq(actual.as_str(), plan.artifact.expected_sha256.as_str()) {
            return Err(
                FlashExecutionError::ChecksumMismatch {
                    expected: plan.artifact.expected_sha256.clone(),
                    actual,
                },
            );
        }
        FlashToolMethod::parse_name(plan.method.as_str())
    }
}

/// The displayed form of a command line.
pub open spec fn command_text(command: FlashCommand) -> Seq<char> {
    command.program@ + " "@ + joined(string_views(command.args@), " "@)
}

/// The log of a dry run: the digest that was checked, the command that was
/// generated, the simulated run and the byte count.
pub open spec fn dry_run_log(plan: FlashPlan, command: FlashCommand, length: nat) -> Seq<Seq<char>> {
    seq![
        "verified checksum "@ + plan.artifact.expected_sha256@,
        "generated tool command: "@ + command_text(command),
        "[dry-run] simulated execution of "@ + command.program@ + " for controller '"@
            + plan.controller@ + "'"@,
        "flashed "@ + decimal(length) + " bytes to "@ + plan.controller@,
    ]
}

/// What a dry run reports once the plan has passed its checks and the
/// command has been generated: success for the plan's controller, with the
/// byte count and the log of what would have run.
pub fn dry_run_result(plan: &FlashPlan, command: &FlashCommand, byte_count: usize) -> (result:
    FlashResult)
    ensures
        result.success,
        result.controller_id@ == plan.controller@,
        result.bytes_written == byte_count,
        string_views(result.execution_log@) == dry_run_log(*plan, *command, byte_count as nat),
{
    let mut first = String::new();
    push_str(&mut first, "verified checksum ");
    push_str(&mut first, plan.artifact.expected_sha256.as_str());
    let mut second = String::new();
    push_str(&mut second, "generated tool command: ");
    let shown = command.display_command();
    push_str(&mut second, shown.as_str());
    let mut third = String::new();
    push_str(&mut third, "[dry-run] simulated execution of ");
    push_str(&mut third, command.program.as_str());
    push_str(&mut third, " for controller '");
    push_str(&mut third, plan.controller.as_str());
    push_str(&mut third, "'");
    let mut fourth = String::new();
    push_str(&mut fourth, "flashed ");
    push_decimal(&mut fourth, byte_count as u64);
    push_str(&mut fourth, " bytes to ");
    push_str(&mut fourth, plan.controller.as_str());
    let mut execution_log: Vec<String> = Vec::new();
    execution_log.push(first);
    execution_log.push(second);
    execution_log.push(third);
    execution_log.push(fourth);
    assert(string_views(execution_log@) =~= dry_run_log(*plan, *command, byte_count as nat));
    FlashResult {
        success: true,
        controller_id: plan.controller.clone(),
        bytes_written: byte_count,
        execution_log,
    }
}

proof fn lemma_override_update(
    before: Seq<(FlashToolMethod, String)>,
    i: int,
    method: FlashToolMethod,
    after: Seq<(FlashToolMethod, String)>,
)
    requires
        0 <= i < before.len(),
        before[i].0 == method,
        forall|k: int| 0 <= k < i ==> before[k].0 != method,
        after.len() == before.len(),
        after[i].0 == method,
        forall|k: int| 0 <= k < before.len() && k != i ==> after[k] == before[k],
    ensures
        override_for(after, method) == Some(after[i].1@),
        forall|other: FlashToolMethod|
            other != method ==> override_for(after, other) == override_for(before, other),
    decreases i,
{
    if i > 0 {
        lemma_override_update(before.drop_first(), i - 1, method, after.drop_first());
    }
    assert forall|other: FlashToolMethod| other != method implies override_for(after, other)
        == override_for(before, other) by {
        lemma_override_same_beyond(before, after, other, i);
    }
}

proof fn lemma_override_same_beyond(
    before: Seq<(FlashToolMethod, String)>,
    after: Seq<(FlashToolMethod, String)>,
    other: FlashToolMethod,
    i: int,
)
    requires
        0 <= i < before.len(),
        after.len() == before.len(),
        before[i].0 != other,
        after[i].0 != other,
        forall|k: int| 0 <= k < before.len() && k != i ==> after[k] == before[k],
    ensures
        override_for(after, other) == override_for(before, other),
    decreases before.len(),
{
    if before.len() > 0 {
        if i == 0 {
            assert(after.drop_first() =~= before.drop_first());
        } else {
            lemma_override_same_beyond(before.drop_first(), after.drop_first(), other, i - 1);
        }
    }
}

proof fn lemma_override_append(
    before: Seq<(FlashToolMethod, String)>,
    method: FlashToolMethod,
    after: Seq<(FlashToolMethod, String)>,
)
    requires
        forall|k: int| 0 <= k < before.len() ==> before[k].0 != method,
        after.len() == before.len() + 1,
        after.last().0 == method,
        forall|k: int| 0 <= k < before.len() ==> after[k] == before[k],
    ensures
        override_for(after, method) == Some(after.last().1@),
        forall|other: FlashToolMethod|
            other != method ==> override_for(after, other) == override_for(before, other),
    decreases before.len(),
{
    if before.len() > 0 {
        lemma_override_append(before.drop_first(), method, after.drop_first());
    }
    assert forall|other: FlashToolMethod| other != method implies override_for(after, other)
        == override_for(before, other) by {
        if before.len() == 0 {
            assert(after.drop_first().len() == 0);
            assert(override_for(after.drop_first(), other) is None);
        } else {
            assert(after[0] == before[0]);
        }
    }
}

/// A method's label parses back to the method: whatever `as_str` gives,
/// `parse_name` reads as the same method.
pub proof fn method_labels_parse_back(m: FlashToolMethod)
    ensures
        method_for_name(normalized_method_name(method_label(m))) == Some(m),
{
    reveal_strlit("dfu");
    reveal_strlit("dfu_util");
    reveal_strlit("dfu_util_v0");
    reveal_strlit("stm32flash");
    reveal_strlit("stm32_flash");
    reveal_strlit("stm32");
    reveal_strlit("bossac");
    reveal_strlit("bossa");
    reveal_strlit("picotool");
    reveal_strlit("pico");
    let l = method_label(m);
    assert(l.len() > 0);
    assert(!is_white_space(l[0]));
    assert(trim_start(l) == l);
    assert(!is_white_space(l.last()));
    assert(trim_end(l) == l);
    assert(trimmed(l) == l);
    assert(is_ascii_text(l));
    assert(l.map_values(|c: char| ascii_lower(c)) =~= l);
    assert(lowered_text(l) == l);
    assert(dashes_to_underscores(l) =~= l);
}

} // verus!
