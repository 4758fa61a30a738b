//! Workflow package payload: parameters, required capabilities and locks,
//! and the step lists, checked for shape and lowered to controller commands.

use vstd::prelude::*;
use crate::package::PackageIdentity;
use crate::package::board::{finding, finding_if, findings, plain_errors, report};
use crate::protocol::{Command, CommandModel, command_model};
use crate::schema::{Diagnostic, is_valid_identifier, valid_identifier};
use crate::text::{
    chars_of, find_text, has_prefix, lemma_find_text, push_str, split_at_first,
    split_once, starts_with, str_eq,
};

verus! {

/// The `package.yaml` view of a workflow package.
#[derive(Debug, Clone)]
pub struct WorkflowPackageFile {
    pub package: PackageIdentity,
    /// Optional workflow API version.
    pub api_version: Option<String>,
    /// Parameter schema by name, in name order.
    pub parameters: Vec<(String, WorkflowParameter)>,
    pub requires: Option<WorkflowRequires>,
    /// Named resource locks held while running.
    pub locks: Vec<String>,
    /// The ordered step list.
    pub steps: Vec<WorkflowStep>,
    /// Safe-exit handlers on cancellation.
    pub on_cancel: Vec<WorkflowStep>,
}

/// A parameter's declared type and unit.
#[derive(Debug, Clone, Default, PartialEq, Eq)]
pub struct WorkflowParameter {
    pub kind: Option<String>,
    pub unit: Option<String>,
}

/// Action capabilities the workflow needs.
#[derive(Debug, Clone, Default, PartialEq, Eq)]
pub struct WorkflowRequires {
    pub capabilities: Vec<String>,
}

/// A step argument as the step lowering reads it.
#[derive(Debug, Clone, PartialEq, Eq)]
pub enum ArgumentValue {
    Text(String),
    /// A non-negative integer.
    Unsigned(u64),
    /// A negative integer.
    Negative(i64),
    /// Anything else: a float, a boolean, null, a list or a map.
    Other,
}

/// One step: the action it calls and its arguments, in name order.
#[derive(Debug, Clone, PartialEq, Eq)]
pub struct WorkflowStep {
    pub call: Option<String>,
    pub with_arguments: Vec<(String, ArgumentValue)>,
}

/// Why a step could not be lowered.
#[derive(Debug, Clone, PartialEq, Eq)]
pub enum LoweringError {
    NoCallAction,
    UnknownAction { action: String },
    MissingArgument { action: String, argument: String },
    InvalidArgumentType { action: String, argument: String },
}

/// The displayed form of a lowering error.
pub open spec fn lowering_error_text(error: LoweringError) -> Seq<char> {
    match error {
        LoweringError::NoCallAction => "workflow step has no call action"@,
        LoweringError::UnknownAction { action } => "unknown workflow step action '"@ + action@
            + "'"@,
        LoweringError::MissingArgument { action, argument } => "action '"@ + action@
            + "' requires argument '"@ + argument@ + "'"@,
        LoweringError::InvalidArgumentType { action, argument } => "action '"@ + action@
            + "' argument '"@ + argument@ + "' has an invalid type"@,
    }
}

impl LoweringError {
    /// The error as a sentence.
    pub fn to_message(&self) -> (text: String)
        ensures
            text@ == lowering_error_text(*self),
    {
        match self {
            LoweringError::NoCallAction => "workflow step has no call action".to_owned(),
            LoweringError::UnknownAction { action } => {
                let mut text = "unknown workflow step action '".to_owned();
                push_str(&mut text, action.as_str());
                push_str(&mut text, "'");
                text
            },
            LoweringError::MissingArgument { action, argument } => {
                let mut text = "action '".to_owned();
                push_str(&mut text, action.as_str());
                push_str(&mut text, "' requires argument '");
                push_str(&mut text, argument.as_str());
                push_str(&mut text, "'");
                text
            },
            LoweringError::InvalidArgumentType { action, argument } => {
                let mut text = "action '".to_owned();
                push_str(&mut text, action.as_str());
                push_str(&mut text, "' argument '");
                push_str(&mut text, argument.as_str());
                push_str(&mut text, "' has an invalid type");
                text
            },
        }
    }
}

// ---------------------------------------------------------------------------
// Lowering
// ---------------------------------------------------------------------------

/// The value of the first argument named `name`.
pub open spec fn argument(args: Seq<(String, ArgumentValue)>, name: Seq<char>) -> Option<
    ArgumentValue,
>
    decreases args.len(),
{
    if args.len() == 0 {
        None
    } else if args[0].0@ == name {
        Some(args[0].1)
    } else {
        argument(args.drop_first(), name)
    }
}

/// How an argument reads as text, a signed or an unsigned integer.
pub enum Extracted {
    Missing,
    WrongType,
    Text(Seq<char>),
    Int(i64),
    Uint(u64),
}

pub open spec fn as_text(value: Option<ArgumentValue>) -> Extracted {
    match value {
        None => Extracted::Missing,
        Some(ArgumentValue::Text(t)) => Extracted::Text(t@),
        Some(_) => Extracted::WrongType,
    }
}

pub open spec fn as_int(value: Option<ArgumentValue>) -> Extracted {
    match value {
        None => Extracted::Missing,
        Some(ArgumentValue::Unsigned(n)) => if n <= i64::MAX {
            Extracted::Int(n as i64)
        } else {
            Extracted::WrongType
        },
        Some(ArgumentValue::Negative(n)) => Extracted::Int(n),
        Some(_) => Extracted::WrongType,
    }
}

pub open spec fn as_uint(value: Option<ArgumentValue>) -> Extracted {
    match value {
        None => Extracted::Missing,
        Some(ArgumentValue::Unsigned(n)) => Extracted::Uint(n),
        Some(_) => Extracted::WrongType,
    }
}

/// What lowering a step gives: a command, or why not, as views.
pub enum Lowered {
    Done(CommandModel),
    NoCall,
    Unknown(Seq<char>),
    Missing(Seq<char>, Seq<char>),
    WrongType(Seq<char>, Seq<char>),
}

/// The outcome for a required argument.
pub open spec fn missing_or_wrong(e: Extracted, action: Seq<char>, name: Seq<char>) -> Lowered {
    if e is Missing {
        Lowered::Missing(action, name)
    } else {
        Lowered::WrongType(action, name)
    }
}

/// Lowering a step: `heartbeat`/`system.heartbeat`, `heater.set_target`
/// (`heater`, `target_milli_c`), `motion.home` (`axis`, `rate_um_s`), and
/// `motion.move` (`axis`, `distance_um`, `rate_um_s`), arguments read in
/// that order.
pub open spec fn lowered_step(step: WorkflowStep) -> Lowered {
    let args = step.with_arguments@;
    match step.call {
        None => Lowered::NoCall,
        Some(c) => {
            let call = c@;
            if call == "heartbeat"@ || call == "system.heartbeat"@ {
                Lowered::Done(CommandModel::Heartbeat)
            } else if call == "heater.set_target"@ {
                match as_text(argument(args, "heater"@)) {
                    Extracted::Text(heater) => match as_int(argument(args, "target_milli_c"@)) {
                        Extracted::Int(t) => Lowered::Done(
                            CommandModel::SetHeaterTarget { heater, target_milli_c: t },
                        ),
                        e => missing_or_wrong(e, call, "target_milli_c"@),
                    },
                    e => missing_or_wrong(e, call, "heater"@),
                }
            } else if call == "motion.home"@ {
                match as_text(argument(args, "axis"@)) {
                    Extracted::Text(axis) => match as_uint(argument(args, "rate_um_s"@)) {
                        Extracted::Uint(r) => Lowered::Done(CommandModel::Home { axis, rate_um_s: r }),
                        e => missing_or_wrong(e, call, "rate_um_s"@),
                    },
                    e => missing_or_wrong(e, call, "axis"@),
                }
            } else if call == "motion.move"@ {
                match as_text(argument(args, "axis"@)) {
                    Extracted::Text(axis) => match as_int(argument(args, "distance_um"@)) {
                        Extracted::Int(d) => match as_uint(argument(args, "rate_um_s"@)) {
                            Extracted::Uint(r) => Lowered::Done(
                                CommandModel::Move { axis, distance_um: d, rate_um_s: r },
                            ),
                            e => missing_or_wrong(e, call, "rate_um_s"@),
                        },
                        e => missing_or_wrong(e, call, "distance_um"@),
                    },
                    e => missing_or_wrong(e, call, "axis"@),
                }
            } else {
                Lowered::Unknown(call)
            }
        },
    }
}

/// The view of a lowering result.
pub open spec fn lowered_view(result: Result<Command, LoweringError>) -> Lowered {
    match result {
        Ok(c) => Lowered::Done(command_model(c)),
        Err(LoweringError::NoCallAction) => Lowered::NoCall,
        Err(LoweringError::UnknownAction { action }) => Lowered::Unknown(action@),
        Err(LoweringError::MissingArgument { action, argument }) => Lowered::Missing(
            action@,
            argument@,
        ),
        Err(LoweringError::InvalidArgumentType { action, argument }) => Lowered::WrongType(
            action@,
            argument@,
        ),
    }
}

fn find_argument<'a>(args: &'a Vec<(String, ArgumentValue)>, name: &str) -> (value: Option<
    &'a ArgumentValue,
>)
    ensures
        match value {
            Some(v) => argument(args@, name@) == Some(*v),
            None => argument(args@, name@) is None,
        },
{
    let mut i: usize = 0;
    assert(args@.subrange(0, args@.len() as int) =~= args@);
    while i < args.len()
        invariant
            i <= args@.len(),
            argument(args@, name@) == argument(
                args@.subrange(i as int, args@.len() as int),
                name@,
            ),
        decreases args@.len() - i,
    {
        proof {
            let rest = args@.subrange(i as int, args@.len() as int);
            assert(rest.drop_first() =~= args@.subrange(i + 1, args@.len() as int));
        }
        if str_eq(args[i].0.as_str(), name) {
            return Some(&args[i].1);
        }
        i = i + 1;
    }
    None
}

fn required_error(value: Option<&ArgumentValue>, action: &str, name: &str) -> (error: LoweringError)
    ensures
        lowered_view(Err(error)) == (if value is None {
            Lowered::Missing(action@, name@)
        } else {
            Lowered::WrongType(action@, name@)
        }),
{
    match value {
        None => LoweringError::MissingArgument { action: action.to_owned(), argument: name.to_owned() },
        Some(_) => LoweringError::InvalidArgumentType {
            action: action.to_owned(),
            argument: name.to_owned(),
        },
    }
}

fn extract_string(args: &Vec<(String, ArgumentValue)>, action: &str, name: &str) -> (result: Result<
    String,
    LoweringError,
>)
    ensures
        match as_text(argument(args@, name@)) {
            Extracted::Text(t) => result matches Ok(s) && s@ == t,
            e => result matches Err(err) && lowered_view(Err(err)) == missing_or_wrong(
                e,
                action@,
                name@,
            ),
        },
{
    let value = find_argument(args, name);
    match value {
        Some(ArgumentValue::Text(t)) => Ok(t.clone()),
        _ => Err(required_error(value, action, name)),
    }
}

fn extract_i64(args: &Vec<(String, ArgumentValue)>, action: &str, name: &str) -> (result: Result<
    i64,
    LoweringError,
>)
    ensures
        match as_int(argument(args@, name@)) {
            Extracted::Int(n) => result == Ok::<i64, LoweringError>(n),
            e => result matches Err(err) && lowered_view(Err(err)) == missing_or_wrong(
                e,
                action@,
                name@,
            ),
        },
{
    let value = find_argument(args, name);
    match value {
        Some(ArgumentValue::Unsigned(n)) => {
            if *n <= i64::MAX as u64 {
                Ok(*n as i64)
            } else {
                Err(required_error(value, action, name))
            }
        },
        Some(ArgumentValue::Negative(n)) => Ok(*n),
        _ => Err(required_error(value, action, name)),
    }
}

fn extract_u64(args: &Vec<(String, ArgumentValue)>, action: &str, name: &str) -> (result: Result<
    u64,
    LoweringError,
>)
    ensures
        match as_uint(argument(args@, name@)) {
            Extracted::Uint(n) => result == Ok::<u64, LoweringError>(n),
            e => result matches Err(err) && lowered_view(Err(err)) == missing_or_wrong(
                e,
                action@,
                name@,
            ),
        },
{
    let value = find_argument(args, name);
    match value {
        Some(ArgumentValue::Unsigned(n)) => Ok(*n),
        _ => Err(required_error(value, action, name)),
    }
}

impl WorkflowStep {
    /// Lowers this step into a controller command.
    pub fn lower(&self) -> (result: Result<Command, LoweringError>)
        ensures
            lowered_view(result) == lowered_step(*self),
    {
        let call = match &self.call {
            Some(c) => c.as_str(),
            None => return Err(LoweringError::NoCallAction),
        };
        let args = &self.with_arguments;
        if str_eq(call, "heartbeat") || str_eq(call, "system.heartbeat") {
            Ok(Command::Heartbeat)
        } else if str_eq(call, "heater.set_target") {
            let heater = match extract_string(args, call, "heater") {
                Ok(h) => h,
                Err(e) => return Err(e),
            };
            let target_milli_c = match extract_i64(args, call, "target_milli_c") {
                Ok(t) => t,
                Err(e) => return Err(e),
            };
            Ok(Command::SetHeaterTarget { heater, target_milli_c })
        } else if str_eq(call, "motion.home") {
            let axis = match extract_string(args, call, "axis") {
                Ok(a) => a,
                Err(e) => return Err(e),
            };
            let rate_um_s = match extract_u64(args, call, "rate_um_s") {
                Ok(r) => r,
                Err(e) => return Err(e),
            };
            Ok(Command::Home { axis, rate_um_s })
        } else if str_eq(call, "motion.move") {
            let axis = match extract_string(args, call, "axis") {
                Ok(a) => a,
                Err(e) => return Err(e),
            };
            let distance_um = match extract_i64(args, call, "distance_um") {
                Ok(d) => d,
                Err(e) => return Err(e),
            };
            let rate_um_s = match extract_u64(args, call, "rate_um_s") {
                Ok(r) => r,
                Err(e) => return Err(e),
            };
            Ok(Command::Move { axis, distance_um, rate_um_s })
        } else {
            Err(LoweringError::UnknownAction { action: call.to_owned() })
        }
    }
}

// ---------------------------------------------------------------------------
// Payload checks
// ---------------------------------------------------------------------------

/// Identifiers separated by single dots.
pub open spec fn dotted_identifiers(s: Seq<char>) -> bool
    decreases s.len(),
{
    match split_at_first(s, seq!['.']) {
        None => is_valid_identifier(s),
        Some((head, rest)) => {
            proof {
                lemma_find_text(s, seq!['.'], 0);
            }
            is_valid_identifier(head) && dotted_identifiers(rest)
        },
    }
}

/// An action name: non-empty, no leading or trailing dot, and identifiers
/// separated by dots.
pub open spec fn is_valid_action_name(s: Seq<char>) -> bool {
    s.len() > 0 && s.last() != '.' && s[0] != '.' && dotted_identifiers(s)
}

/// Whether `raw` is a valid action name (`heater.set_target`).
pub fn valid_action_name(raw: &str) -> (valid: bool)
    ensures
        valid == is_valid_action_name(raw@),
{
    let n = raw.unicode_len();
    if n == 0 || raw.get_char(n - 1) == '.' || raw.get_char(0) == '.' {
        return false;
    }
    let mut dot = String::new();
    crate::text::push_char(&mut dot, '.');
    assert(dot@ =~= seq!['.']);
    let mut rest: &str = raw;
    loop
        invariant
            dot@ == seq!['.'],
            raw@.len() > 0,
            raw@.last() != '.',
            raw@[0] != '.',
            dotted_identifiers(raw@) == dotted_identifiers(rest@),
        decreases rest@.len(),
    {
        match split_once(rest, dot.as_str()) {
            None => {
                return valid_identifier(rest);
            },
            Some((head, tail)) => {
                proof {
                    lemma_find_text(rest@, seq!['.'], 0);
                }
                if !valid_identifier(head) {
                    return false;
                }
                rest = tail;
            },
        }
    }
}

/// One finding per name that fails its check (identifier or action name).
pub open spec fn names_findings(
    names: Seq<Seq<char>>,
    action: bool,
    code: Seq<char>,
    head: Seq<char>,
    tail: Seq<char>,
) -> Seq<(Seq<char>, Seq<char>)>
    decreases names.len(),
{
    if names.len() == 0 {
        seq![]
    } else {
        let name = names.last();
        let ok = if action {
            is_valid_action_name(name)
        } else {
            is_valid_identifier(name)
        };
        names_findings(names.drop_last(), action, code, head, tail) + finding_if(
            !ok,
            code,
            head + name + tail,
        )
    }
}

fn check_names(
    names: &Vec<&str>,
    action: bool,
    code: &str,
    head: &str,
    tail: &str,
    diags: &mut Vec<Diagnostic>,
)
    ensures
        plain_errors(old(diags)@) ==> plain_errors(final(diags)@),
        findings(final(diags)@) == findings(old(diags)@) + names_findings(
            names@.map_values(|s: &str| s@),
            action,
            code@,
            head@,
            tail@,
        ),
{
    let ghost start = findings(diags@);
    let ghost nv = names@.map_values(|s: &str| s@);
    let mut i: usize = 0;
    while i < names.len()
        invariant
            i <= names@.len(),
            nv == names@.map_values(|s: &str| s@),
            plain_errors(old(diags)@) ==> plain_errors(diags@),
            findings(diags@) == start + names_findings(
                nv.subrange(0, i as int),
                action,
                code@,
                head@,
                tail@,
            ),
        decreases names@.len() - i,
    {
        proof {
            let next = nv.subrange(0, i + 1);
            assert(next.drop_last() =~= nv.subrange(0, i as int));
            assert(next.last() == names@[i as int]@);
        }
        let name = names[i];
        let ok = if action {
            valid_action_name(name)
        } else {
            valid_identifier(name)
        };
        if !ok {
            let mut m = head.to_owned();
            push_str(&mut m, name);
            push_str(&mut m, tail);
            report(diags, code, m);
        }
        proof {
            let next = nv.subrange(0, i + 1);
            assert(findings(diags@) =~= start + names_findings(next, action, code@, head@, tail@));
        }
        i = i + 1;
    }
    assert(nv.subrange(0, nv.len() as int) =~= nv);
}

fn keys_of<V>(pairs: &Vec<(String, V)>) -> (keys: Vec<&str>)
    ensures
        keys@.map_values(|s: &str| s@) == pairs@.map_values(|p: (String, V)| p.0@),
{
    let mut keys: Vec<&str> = Vec::new();
    let mut i: usize = 0;
    while i < pairs.len()
        invariant
            i <= pairs@.len(),
            keys@.map_values(|s: &str| s@) == pairs@.subrange(0, i as int).map_values(
                |p: (String, V)| p.0@,
            ),
        decreases pairs@.len() - i,
    {
        let ghost before = keys@;
        let key = pairs[i].0.as_str();
        keys.push(key);
        proof {
            assert(keys@.map_values(|s: &str| s@) =~= before.map_values(|s: &str| s@).push(key@));
            assert(pairs@.subrange(0, i + 1).map_values(|p: (String, V)| p.0@) =~= pairs@.subrange(
                0,
                i as int,
            ).map_values(|p: (String, V)| p.0@).push(pairs@[i as int].0@));
        }
        i = i + 1;
    }
    assert(pairs@.subrange(0, pairs@.len() as int) =~= pairs@);
    keys
}

fn refs_of(values: &Vec<String>) -> (refs: Vec<&str>)
    ensures
        refs@.map_values(|s: &str| s@) == values@.map_values(|s: String| s@),
{
    let mut refs: Vec<&str> = Vec::new();
    let mut i: usize = 0;
    while i < values.len()
        invariant
            i <= values@.len(),
            refs@.map_values(|s: &str| s@) == values@.subrange(0, i as int).map_values(
                |s: String| s@,
            ),
        decreases values@.len() - i,
    {
        let ghost before = refs@;
        let value = values[i].as_str();
        refs.push(value);
        proof {
            assert(refs@.map_values(|s: &str| s@) =~= before.map_values(|s: &str| s@).push(value@));
            assert(values@.subrange(0, i + 1).map_values(|s: String| s@) =~= values@.subrange(
                0,
                i as int,
            ).map_values(|s: String| s@).push(values@[i as int]@));
        }
        i = i + 1;
    }
    assert(values@.subrange(0, values@.len() as int) =~= values@);
    refs
}

/// The findings for one step: its call, then each argument name.
pub open spec fn step_findings(reference: Seq<char>, context: Seq<char>, step: WorkflowStep) -> Seq<
    (Seq<char>, Seq<char>),
> {
    let head = reference + ": workflow "@ + context;
    let call = match step.call {
        Some(c) => finding_if(
            !is_valid_action_name(c@),
            "E0657"@,
            head + " call '"@ + c@ + "' is not a valid action name"@,
        ),
        None => seq![finding("E0658"@, head + " entry is missing 'call'"@)],
    };
    call + names_findings(
        step.with_arguments@.map_values(|p: (String, ArgumentValue)| p.0@),
        false,
        "E0659"@,
        head + " argument '"@,
        "' is not a valid identifier"@,
    )
}

/// The findings for a step list, in order.
pub open spec fn steps_findings(reference: Seq<char>, context: Seq<char>, steps: Seq<WorkflowStep>) -> Seq<
    (Seq<char>, Seq<char>),
>
    decreases steps.len(),
{
    if steps.len() == 0 {
        seq![]
    } else {
        steps_findings(reference, context, steps.drop_last()) + step_findings(
            reference,
            context,
            steps.last(),
        )
    }
}

fn check_step(reference: &str, context: &str, step: &WorkflowStep, diags: &mut Vec<Diagnostic>)
    ensures
        plain_errors(old(diags)@) ==> plain_errors(final(diags)@),
        findings(final(diags)@) == findings(old(diags)@) + step_findings(reference@, context@, *step),
{
    let ghost start = findings(diags@);
    let mut head = reference.to_owned();
    push_str(&mut head, ": workflow ");
    push_str(&mut head, context);
    match &step.call {
        Some(c) => {
            if !valid_action_name(c.as_str()) {
                let mut m = head.clone();
                push_str(&mut m, " call '");
                push_str(&mut m, c.as_str());
                push_str(&mut m, "' is not a valid action name");
                report(diags, "E0657", m);
            }
        },
        None => {
            let mut m = head.clone();
            push_str(&mut m, " entry is missing 'call'");
            report(diags, "E0658", m);
        },
    }
    let ghost middle = findings(diags@);
    let mut argument_head = head.clone();
    push_str(&mut argument_head, " argument '");
    let keys = keys_of(&step.with_arguments);
    check_names(&keys, false, "E0659", argument_head.as_str(), "' is not a valid identifier", diags);
    assert(findings(diags@) =~= start + step_findings(reference@, context@, *step));
}

fn check_steps(reference: &str, context: &str, steps: &Vec<WorkflowStep>, diags: &mut Vec<Diagnostic>)
    ensures
        plain_errors(old(diags)@) ==> plain_errors(final(diags)@),
        findings(final(diags)@) == findings(old(diags)@) + steps_findings(
            reference@,
            context@,
            steps@,
        ),
{
    let ghost start = findings(diags@);
    let mut i: usize = 0;
    while i < steps.len()
        invariant
            i <= steps@.len(),
            plain_errors(old(diags)@) ==> plain_errors(diags@),
            findings(diags@) == start + steps_findings(
                reference@,
                context@,
                steps@.subrange(0, i as int),
            ),
        decreases steps@.len() - i,
    {
        proof {
            let next = steps@.subrange(0, i + 1);
            assert(next.drop_last() =~= steps@.subrange(0, i as int));
        }
        check_step(reference, context, &steps[i], diags);
        proof {
            let next = steps@.subrange(0, i + 1);
            assert(findings(diags@) =~= start + steps_findings(reference@, context@, next));
        }
        i = i + 1;
    }
    assert(steps@.subrange(0, steps@.len() as int) =~= steps@);
}

/// The findings for a workflow payload, in the order they are reported:
/// API version, parameter names, steps, cancellation steps, required
/// capabilities, locks.
pub open spec fn workflow_findings(reference: Seq<char>, workflow: WorkflowPackageFile) -> Seq<
    (Seq<char>, Seq<char>),
> {
    let api = match workflow.api_version {
        Some(v) => finding_if(
            !has_prefix(v@, "forge.workflow/v"@),
            "E0653"@,
            reference + ": workflow api_version '"@ + v@ + "' is not forge.workflow/vN"@,
        ),
        None => seq![],
    };
    let capabilities = match workflow.requires {
        Some(r) => names_findings(
            r.capabilities@.map_values(|s: String| s@),
            true,
            "E0655"@,
            reference + ": workflow requires capability '"@,
            "' is not a valid identifier"@,
        ),
        None => seq![],
    };
    api + names_findings(
        workflow.parameters@.map_values(|p: (String, WorkflowParameter)| p.0@),
        false,
        "E0654"@,
        reference + ": workflow parameter '"@,
        "' is not a valid identifier"@,
    ) + steps_findings(reference, "steps"@, workflow.steps@) + steps_findings(
        reference,
        "on_cancel"@,
        workflow.on_cancel@,
    ) + capabilities + names_findings(
        workflow.locks@.map_values(|s: String| s@),
        true,
        "E0656"@,
        reference + ": workflow lock '"@,
        "' is not a valid identifier"@,
    )
}

fn prefixed(reference: &str, middle: &str) -> (text: String)
    ensures
        text@ == reference@ + middle@,
{
    let mut text = reference.to_owned();
    push_str(&mut text, middle);
    text
}

/// Appends the findings for a parsed workflow payload to `diags`.
pub fn validate_workflow(reference: &str, workflow: &WorkflowPackageFile, diags: &mut Vec<Diagnostic>)
    ensures
        plain_errors(old(diags)@) ==> plain_errors(final(diags)@),
        findings(final(diags)@) == findings(old(diags)@) + workflow_findings(reference@, *workflow),
{
    let ghost start = findings(diags@);
    match &workflow.api_version {
        Some(v) => {
            if !starts_with(v.as_str(), "forge.workflow/v") {
                let mut m = prefixed(reference, ": workflow api_version '");
                push_str(&mut m, v.as_str());
                push_str(&mut m, "' is not forge.workflow/vN");
                report(diags, "E0653", m);
            }
        },
        None => {},
    }
    let ghost after_api = findings(diags@);
    let parameters = keys_of(&workflow.parameters);
    check_names(
        &parameters,
        false,
        "E0654",
        prefixed(reference, ": workflow parameter '").as_str(),
        "' is not a valid identifier",
        diags,
    );
    check_steps(reference, "steps", &workflow.steps, diags);
    check_steps(reference, "on_cancel", &workflow.on_cancel, diags);
    let ghost after_steps = findings(diags@);
    match &workflow.requires {
        Some(r) => {
            let capabilities = refs_of(&r.capabilities);
            check_names(
                &capabilities,
                true,
                "E0655",
                prefixed(reference, ": workflow requires capability '").as_str(),
                "' is not a valid identifier",
                diags,
            );
        },
        None => {},
    }
    let locks = refs_of(&workflow.locks);
    check_names(
        &locks,
        true,
        "E0656",
        prefixed(reference, ": workflow lock '").as_str(),
        "' is not a valid identifier",
        diags,
    );
    assert(findings(diags@) =~= start + workflow_findings(reference@, *workflow));
}

} // verus!
