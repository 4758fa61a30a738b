//! Deterministic controller firmware outputs from a machine lock: the
//! controller-local safety artifact, the inspectable controller image, the
//! build plan that records the image's exact size and digest, and the
//! checks that a supplied plan or image is the one the lock gives.

use vstd::prelude::*;
use crate::canonical::{
    field_json, json_field, json_object, lock_json, number_field, number_field_json, object_json,
    package_json, package_to_json, safety_json, safety_to_json, states_json, states_to_json,
    text_array, text_array_json, text_field, text_field_json, text_map, text_map_json,
};
use crate::digest::{sha256, sha256_label};
use crate::flash::{compare_text, lemma_text_order, text_order};
use crate::lock::{
    CONTROLLER_SAFETY_SCHEMA, LockedController, LockedPackage, LockedSafeState, LockedSafetyConfig,
    Lockfile, lock_problem,
};
use crate::package::safety::SafeState;
use crate::text::{decimal, push_decimal, push_str, str_eq, string_views};

verus! {

/// Oldest lockfile version that can produce controller safety artifacts.
pub const MINIMUM_LOCK_VERSION: u32 = 3;

/// Oldest lockfile version that can produce controller build plans.
pub const BUILD_PLAN_MINIMUM_LOCK_VERSION: u32 = 4;

pub const CONTROLLER_BUILD_PLAN_SCHEMA: &'static str = "dryer.controller-build-plan/v2";

pub const CONTROLLER_IMAGE_SCHEMA: &'static str = "dryer.controller-image/v1";

/// The artifact a build plan expects its backend to produce.
#[derive(Debug, Clone, PartialEq, Eq)]
pub struct ExpectedFirmwareArtifact {
    pub format: String,
    pub path: String,
    pub size_bytes: u64,
    pub sha256: String,
    /// False for the inspectable reference container; a native backend must
    /// explicitly mark a target executable as deployable.
    pub deployable: bool,
}

/// Why a controller artifact could not be produced or checked.
#[derive(Debug, Clone, PartialEq, Eq)]
pub enum BuildError {
    InvalidLock(String),
    UnsupportedLockVersion(u32),
    UnknownController(String),
    MissingSafetyConfig(String),
    MissingBuildConfig(String),
    UnsupportedBuildPlanLockVersion(u32),
    InvalidSafetyConfig(String),
    InvalidControllerImage(String),
    BuildPlanMismatch(String),
}

/// The displayed form of a build error.
pub open spec fn build_error_text(error: BuildError) -> Seq<char> {
    match error {
        BuildError::InvalidLock(m) => "invalid machine lock: "@ + m@,
        BuildError::UnsupportedLockVersion(v) => "lockfile v"@ + decimal(v as nat)
            + " cannot produce controller safety artifacts; re-lock with v"@ + decimal(
            MINIMUM_LOCK_VERSION as nat,
        ) + "+"@,
        BuildError::UnknownController(c) => "unknown locked controller '"@ + c@ + "'"@,
        BuildError::MissingSafetyConfig(c) => "controller '"@ + c@
            + "' has no compiled safety configuration"@,
        BuildError::MissingBuildConfig(c) => "controller '"@ + c@
            + "' has no compiled build configuration"@,
        BuildError::UnsupportedBuildPlanLockVersion(v) => "lockfile v"@ + decimal(v as nat)
            + " cannot produce controller build plans; re-lock with v"@ + decimal(
            BUILD_PLAN_MINIMUM_LOCK_VERSION as nat,
        ) + "+"@,
        BuildError::InvalidSafetyConfig(m) => "invalid controller safety configuration: "@ + m@,
        BuildError::InvalidControllerImage(m) => "invalid controller image: "@ + m@,
        BuildError::BuildPlanMismatch(m) => "controller build plan mismatch: "@ + m@,
    }
}

fn quoted(head: &str, name: &String, tail: &str) -> (text: String)
    ensures
        text@ == head@ + name@ + tail@,
{
    let mut text = head.to_owned();
    push_str(&mut text, name.as_str());
    push_str(&mut text, tail);
    text
}

fn prefixed(head: &str, message: &String) -> (text: String)
    ensures
        text@ == head@ + message@,
{
    let mut text = head.to_owned();
    push_str(&mut text, message.as_str());
    text
}

fn version_text(head: &str, version: u32, middle: &str, minimum: u32) -> (text: String)
    ensures
        text@ == head@ + decimal(version as nat) + middle@ + decimal(minimum as nat) + "+"@,
{
    let mut text = head.to_owned();
    push_decimal(&mut text, version as u64);
    push_str(&mut text, middle);
    push_decimal(&mut text, minimum as u64);
    push_str(&mut text, "+");
    text
}

impl BuildError {
    /// The error as a sentence.
    pub fn to_message(&self) -> (text: String)
        ensures
            text@ == build_error_text(*self),
    {
        match self {
            BuildError::InvalidLock(m) => prefixed("invalid machine lock: ", m),
            BuildError::UnsupportedLockVersion(v) => version_text(
                "lockfile v",
                *v,
                " cannot produce controller safety artifacts; re-lock with v",
                MINIMUM_LOCK_VERSION,
            ),
            BuildError::UnknownController(c) => quoted("unknown locked controller '", c, "'"),
            BuildError::MissingSafetyConfig(c) => quoted(
                "controller '",
                c,
                "' has no compiled safety configuration",
            ),
            BuildError::MissingBuildConfig(c) => quoted(
                "controller '",
                c,
                "' has no compiled build configuration",
            ),
            BuildError::UnsupportedBuildPlanLockVersion(v) => version_text(
                "lockfile v",
                *v,
                " cannot produce controller build plans; re-lock with v",
                BUILD_PLAN_MINIMUM_LOCK_VERSION,
            ),
            BuildError::InvalidSafetyConfig(m) => prefixed("invalid controller safety configuration: ", m),
            BuildError::InvalidControllerImage(m) => prefixed("invalid controller image: ", m),
            BuildError::BuildPlanMismatch(m) => prefixed("controller build plan mismatch: ", m),
        }
    }
}

// ---------------------------------------------------------------------------
// Artifacts
// ---------------------------------------------------------------------------

/// Versioned, controller-local safety payload ready for firmware embedding.
#[derive(Debug, Clone, PartialEq, Eq)]
pub struct ControllerSafetyArtifact {
    pub schema: String,
    pub controller: String,
    pub lock_hash: String,
    pub safety_profile: LockedPackage,
    /// Sorted by component, then resource.
    pub states: Vec<LockedSafeState>,
}

/// The canonical (compact) or pretty JSON text of a safety artifact.
pub open spec fn safety_artifact_json(a: ControllerSafetyArtifact, pretty: bool) -> Seq<char> {
    json_object(
        seq![
            text_field("schema"@, a.schema@, pretty),
            text_field("controller"@, a.controller@, pretty),
            text_field("lock_hash"@, a.lock_hash@, pretty),
            json_field("safety_profile"@, package_json(a.safety_profile, pretty, 1), pretty),
            json_field("states"@, states_json(a.states@, pretty, 1), pretty),
        ],
        pretty,
        0,
    )
}

fn with_newline(text: String) -> (out: String)
    ensures
        out@ == text@ + seq!['\n'],
{
    let mut out = text;
    crate::text::push_char(&mut out, '\n');
    out
}

impl ControllerSafetyArtifact {
    fn to_json(&self, pretty: bool) -> (json: String)
        ensures
            json@ == safety_artifact_json(*self, pretty),
    {
        let mut fields: Vec<String> = Vec::new();
        fields.push(text_field_json("schema", self.schema.as_str(), pretty));
        fields.push(text_field_json("controller", self.controller.as_str(), pretty));
        fields.push(text_field_json("lock_hash", self.lock_hash.as_str(), pretty));
        let profile = package_to_json(&self.safety_profile, pretty, 1);
        fields.push(field_json("safety_profile", &profile, pretty));
        let states = states_to_json(&self.states, pretty, 1);
        fields.push(field_json("states", &states, pretty));
        assert(string_views(fields@) =~= seq![
            text_field("schema"@, self.schema@, pretty),
            text_field("controller"@, self.controller@, pretty),
            text_field("lock_hash"@, self.lock_hash@, pretty),
            json_field("safety_profile"@, package_json(self.safety_profile, pretty, 1), pretty),
            json_field("states"@, states_json(self.states@, pretty, 1), pretty),
        ]);
        object_json(&fields, pretty, 0)
    }

    /// Canonical artifact bytes: the compact JSON.
    pub fn canonical_bytes(&self) -> (bytes: Vec<u8>)
        ensures
            bytes@ == vstd::utf8::encode_utf8(safety_artifact_json(*self, false)),
    {
        self.to_json(false).as_str().as_bytes_vec()
    }

    /// The digest label of the canonical bytes.
    pub fn artifact_hash(&self) -> (hash: String)
        ensures
            hash@ == sha256_label(vstd::utf8::encode_utf8(safety_artifact_json(*self, false))),
    {
        let bytes = self.canonical_bytes();
        sha256(bytes.as_slice())
    }

    /// The indented JSON, ending with a newline.
    pub fn to_pretty_json(&self) -> (json: String)
        ensures
            json@ == safety_artifact_json(*self, true) + seq!['\n'],
    {
        with_newline(self.to_json(true))
    }
}

// ---------------------------------------------------------------------------
// Sorting safety states
// ---------------------------------------------------------------------------

/// States are ordered by component, then by resource.
pub open spec fn state_order(a: LockedSafeState, b: LockedSafeState) -> int {
    let c = text_order(a.component@, b.component@);
    if c != 0 {
        c
    } else {
        text_order(a.resource@, b.resource@)
    }
}

/// Inserting into a sorted list after the states that tie with `x`.
pub open spec fn insert_state(sorted: Seq<LockedSafeState>, x: LockedSafeState) -> Seq<
    LockedSafeState,
>
    decreases sorted.len(),
{
    if sorted.len() == 0 {
        seq![x]
    } else if state_order(sorted.last(), x) <= 0 {
        sorted.push(x)
    } else {
        insert_state(sorted.drop_last(), x).push(sorted.last())
    }
}

/// The stable sort of states by component, then resource.
pub open spec fn sorted_states(states: Seq<LockedSafeState>) -> Seq<LockedSafeState>
    decreases states.len(),
{
    if states.len() == 0 {
        seq![]
    } else {
        insert_state(sorted_states(states.drop_last()), states.last())
    }
}

/// Every state sorts no later than the ones after it.
pub open spec fn states_in_order(states: Seq<LockedSafeState>) -> bool {
    forall|i: int, j: int| 0 <= i < j < states.len() ==> state_order(states[i], states[j]) <= 0
}

/// The state order is a total preorder.
proof fn lemma_state_order(a: LockedSafeState, b: LockedSafeState, c: LockedSafeState)
    ensures
        state_order(a, b) == -state_order(b, a),
        state_order(a, b) <= 0 && state_order(b, c) <= 0 ==> state_order(a, c) <= 0,
{
    lemma_text_order(a.component@, b.component@, c.component@);
    lemma_text_order(b.component@, c.component@, a.component@);
    lemma_text_order(a.component@, c.component@, b.component@);
    lemma_text_order(a.resource@, b.resource@, c.resource@);
    lemma_text_order(b.resource@, c.resource@, a.resource@);
    lemma_text_order(a.resource@, c.resource@, b.resource@);
}

proof fn lemma_insert_state_multiset(sorted: Seq<LockedSafeState>, x: LockedSafeState)
    ensures
        insert_state(sorted, x).to_multiset() =~= sorted.to_multiset().insert(x),
    decreases sorted.len(),
{
    broadcast use vstd::seq_lib::group_to_multiset_ensures;

    if sorted.len() == 0 {
        assert(seq![x] =~= Seq::<LockedSafeState>::empty().push(x));
    } else if state_order(sorted.last(), x) <= 0 {
    } else {
        let rest = sorted.drop_last();
        lemma_insert_state_multiset(rest, x);
        assert(sorted =~= rest.push(sorted.last()));
    }
}

proof fn lemma_insert_state_in_order(sorted: Seq<LockedSafeState>, x: LockedSafeState)
    requires
        states_in_order(sorted),
    ensures
        states_in_order(insert_state(sorted, x)),
    decreases sorted.len(),
{
    broadcast use vstd::seq_lib::group_to_multiset_ensures;

    let r = insert_state(sorted, x);
    if sorted.len() == 0 {
    } else if state_order(sorted.last(), x) <= 0 {
        assert forall|i: int, j: int| 0 <= i < j < r.len() implies state_order(r[i], r[j]) <= 0 by {
            if j == r.len() - 1 && i < sorted.len() - 1 {
                lemma_state_order(r[i], sorted.last(), x);
            }
        }
    } else {
        let rest = sorted.drop_last();
        let last = sorted.last();
        let inner = insert_state(rest, x);
        lemma_insert_state_in_order(rest, x);
        lemma_insert_state_multiset(rest, x);
        lemma_state_order(last, x, x);
        assert forall|i: int, j: int| 0 <= i < j < r.len() implies state_order(r[i], r[j]) <= 0 by {
            if j == r.len() - 1 {
                let y = inner[i];
                assert(inner.to_multiset().count(y) > 0);
                if y != x {
                    assert(rest.to_multiset().count(y) > 0);
                    let k = choose|k: int| 0 <= k < rest.len() && rest[k] == y;
                    assert(sorted[k] == y);
                } else {
                    lemma_state_order(x, last, x);
                }
            }
        }
    }
}

/// Sorting safety states puts them in component-then-resource order and
/// keeps exactly the states it was given.
pub proof fn sorted_states_are_ordered_and_complete(states: Seq<LockedSafeState>)
    ensures
        states_in_order(sorted_states(states)),
        sorted_states(states).to_multiset() =~= states.to_multiset(),
    decreases states.len(),
{
    broadcast use vstd::seq_lib::group_to_multiset_ensures;

    if states.len() > 0 {
        let rest = states.drop_last();
        sorted_states_are_ordered_and_complete(rest);
        lemma_insert_state_in_order(sorted_states(rest), states.last());
        lemma_insert_state_multiset(sorted_states(rest), states.last());
        assert(states =~= rest.push(states.last()));
    }
}

fn compare_states(a: &LockedSafeState, b: &LockedSafeState) -> (order: i8)
    ensures
        order as int == state_order(*a, *b),
{
    let c = compare_text(a.component.as_str(), b.component.as_str());
    if c != 0 {
        c
    } else {
        compare_text(a.resource.as_str(), b.resource.as_str())
    }
}

fn copy_text(value: &Option<String>) -> (copy: Option<String>)
    ensures
        copy == *value,
{
    match value {
        Some(v) => Some(v.clone()),
        None => None,
    }
}

fn copy_state(s: &LockedSafeState) -> (copy: LockedSafeState)
    ensures
        copy == *s,
{
    LockedSafeState {
        component: s.component.clone(),
        class: s.class.clone(),
        resource: s.resource.clone(),
        state: s.state,
        heartbeat_timeout_us: s.heartbeat_timeout_us,
        sensor: copy_text(&s.sensor),
    }
}

fn copy_package(p: &LockedPackage) -> (copy: LockedPackage)
    ensures
        copy == *p,
{
    LockedPackage {
        id: p.id.clone(),
        manifest_hash: p.manifest_hash.clone(),
        content_hash: p.content_hash.clone(),
    }
}

fn insert_sorted_state(sorted: &mut Vec<LockedSafeState>, x: LockedSafeState)
    ensures
        final(sorted)@ == insert_state(old(sorted)@, x),
{
    let ghost s = sorted@;
    let mut pos = sorted.len();
    assert(s.subrange(0, pos as int) =~= s);
    assert(s.subrange(pos as int, s.len() as int) =~= Seq::<LockedSafeState>::empty());
    while pos > 0 && compare_states(&sorted[pos - 1], &x) > 0
        invariant
            sorted@ == s,
            pos <= s.len(),
            insert_state(s, x) == insert_state(s.subrange(0, pos as int), x) + s.subrange(
                pos as int,
                s.len() as int,
            ),
        decreases pos,
    {
        proof {
            let prefix = s.subrange(0, pos as int);
            assert(prefix.drop_last() =~= s.subrange(0, pos - 1));
            assert(prefix.last() == s[pos - 1]);
            assert(insert_state(prefix, x) == insert_state(s.subrange(0, pos - 1), x).push(
                s[pos - 1],
            ));
            assert(insert_state(s.subrange(0, pos - 1), x).push(s[pos - 1]) + s.subrange(
                pos as int,
                s.len() as int,
            ) =~= insert_state(s.subrange(0, pos - 1), x) + s.subrange(pos - 1, s.len() as int));
        }
        pos = pos - 1;
    }
    proof {
        let prefix = s.subrange(0, pos as int);
        if pos > 0 {
            assert(prefix.last() == s[pos - 1]);
            assert(insert_state(prefix, x) == prefix.push(x));
        } else {
            assert(prefix.len() == 0);
            assert(insert_state(prefix, x) =~= prefix.push(x));
        }
        assert(prefix.push(x) + s.subrange(pos as int, s.len() as int) =~= s.insert(pos as int, x));
    }
    sorted.insert(pos, x);
}

/// The states in component-then-resource order, ties kept in their order.
pub fn sort_safety_states(states: &Vec<LockedSafeState>) -> (sorted: Vec<LockedSafeState>)
    ensures
        sorted@ == sorted_states(states@),
{
    let mut sorted: Vec<LockedSafeState> = Vec::new();
    let mut i: usize = 0;
    while i < states.len()
        invariant
            i <= states@.len(),
            sorted@ == sorted_states(states@.subrange(0, i as int)),
        decreases states@.len() - i,
    {
        proof {
            let next = states@.subrange(0, i + 1);
            assert(next.drop_last() =~= states@.subrange(0, i as int));
            assert(next.last() == states@[i as int]);
        }
        insert_sorted_state(&mut sorted, copy_state(&states[i]));
        i = i + 1;
    }
    assert(states@.subrange(0, states@.len() as int) =~= states@);
    sorted
}

// ---------------------------------------------------------------------------
// Compiling safety artifacts
// ---------------------------------------------------------------------------

/// The controller registered under `name`: the first entry with that id.
pub open spec fn locked_controller(controllers: Seq<(String, LockedController)>, name: Seq<char>) -> Option<
    LockedController,
>
    decreases controllers.len(),
{
    if controllers.len() == 0 {
        None
    } else if controllers[0].0@ == name {
        Some(controllers[0].1)
    } else {
        locked_controller(controllers.drop_first(), name)
    }
}

pub(crate) fn find_controller<'a>(lock: &'a Lockfile, name: &str) -> (found: Option<&'a LockedController>)
    ensures
        match found {
            Some(c) => locked_controller(lock.controllers@, name@) == Some(*c),
            None => locked_controller(lock.controllers@, name@) is None,
        },
{
    let mut i: usize = 0;
    assert(lock.controllers@.subrange(0, lock.controllers@.len() as int) =~= lock.controllers@);
    while i < lock.controllers.len()
        invariant
            i <= lock.controllers@.len(),
            locked_controller(lock.controllers@, name@) == locked_controller(
                lock.controllers@.subrange(i as int, lock.controllers@.len() as int),
                name@,
            ),
        decreases lock.controllers@.len() - i,
    {
        proof {
            let rest = lock.controllers@.subrange(i as int, lock.controllers@.len() as int);
            assert(rest.drop_first() =~= lock.controllers@.subrange(
                i + 1,
                lock.controllers@.len() as int,
            ));
        }
        if str_eq(lock.controllers[i].0.as_str(), name) {
            return Some(&lock.controllers[i].1);
        }
        i = i + 1;
    }
    None
}

/// The lock hash of a lockfile, as a spec value.
pub open spec fn lock_hash_of(lock: Lockfile) -> Seq<char> {
    sha256_label(vstd::utf8::encode_utf8(lock_json(lock)))
}

/// What compiling a controller's safety artifact gives: refused for a lock
/// that is not valid, older than v3, without that controller, or without
/// its safety configuration; otherwise the artifact with the sorted states.
pub open spec fn compiled_as(
    result: Result<ControllerSafetyArtifact, BuildError>,
    lock: Lockfile,
    name: Seq<char>,
) -> bool {
    match lock_problem(lock) {
        Some(p) => result matches Err(BuildError::InvalidLock(m)) && m@ == p,
        None => if lock.lock_version < MINIMUM_LOCK_VERSION {
            result == Err::<ControllerSafetyArtifact, BuildError>(
                BuildError::UnsupportedLockVersion(lock.lock_version),
            )
        } else {
            match locked_controller(lock.controllers@, name) {
                None => result matches Err(BuildError::UnknownController(c)) && c@ == name,
                Some(controller) => match controller.safety {
                    None => result matches Err(BuildError::MissingSafetyConfig(c)) && c@ == name,
                    Some(safety) => result matches Ok(a) && a.schema@ == CONTROLLER_SAFETY_SCHEMA@
                        && a.controller@ == name && a.lock_hash@ == lock_hash_of(lock)
                        && a.safety_profile == lock.safety_profile && a.states@ == sorted_states(
                        safety.states@,
                    ),
                },
            }
        },
    }
}

/// Compile one controller's locked safety projection into the artifact.
pub fn compile_controller(lock: &Lockfile, controller_name: &str) -> (result: Result<
    ControllerSafetyArtifact,
    BuildError,
>)
    ensures
        compiled_as(result, *lock, controller_name@),
{
    match lock.validate() {
        Ok(()) => {},
        Err(m) => return Err(BuildError::InvalidLock(m)),
    }
    if lock.lock_version < MINIMUM_LOCK_VERSION {
        return Err(BuildError::UnsupportedLockVersion(lock.lock_version));
    }
    let controller = match find_controller(lock, controller_name) {
        Some(c) => c,
        None => return Err(BuildError::UnknownController(controller_name.to_owned())),
    };
    let safety = match &controller.safety {
        Some(s) => s,
        None => return Err(BuildError::MissingSafetyConfig(controller_name.to_owned())),
    };
    let states = sort_safety_states(&safety.states);
    Ok(
        ControllerSafetyArtifact {
            schema: CONTROLLER_SAFETY_SCHEMA.to_owned(),
            controller: controller_name.to_owned(),
            lock_hash: lock.lock_hash(),
            safety_profile: copy_package(&lock.safety_profile),
            states,
        },
    )
}

/// Compile every controller in the lock's (id) order; the first refusal
/// is returned.
pub fn compile_all(lock: &Lockfile) -> (result: Result<
    Vec<(String, ControllerSafetyArtifact)>,
    BuildError,
>)
    ensures
        match result {
            Ok(all) => all@.len() == lock.controllers@.len() && forall|i: int|
                0 <= i < all@.len() ==> (#[trigger] all@[i]).0@ == lock.controllers@[i].0@
                    && compiled_as(
                    Ok::<ControllerSafetyArtifact, BuildError>(all@[i].1),
                    *lock,
                    lock.controllers@[i].0@,
                ),
            Err(e) => exists|k: int|
                0 <= k < lock.controllers@.len() && compiled_as(
                    Err::<ControllerSafetyArtifact, BuildError>(e),
                    *lock,
                    #[trigger] lock.controllers@[k].0@,
                ),
        },
{
    let mut all: Vec<(String, ControllerSafetyArtifact)> = Vec::new();
    let mut i: usize = 0;
    while i < lock.controllers.len()
        invariant
            i <= lock.controllers@.len(),
            all@.len() == i,
            forall|j: int|
                0 <= j < i ==> (#[trigger] all@[j]).0@ == lock.controllers@[j].0@ && compiled_as(
                    Ok::<ControllerSafetyArtifact, BuildError>(all@[j].1),
                    *lock,
                    lock.controllers@[j].0@,
                ),
        decreases lock.controllers@.len() - i,
    {
        let name = lock.controllers[i].0.as_str();
        match compile_controller(lock, name) {
            Ok(artifact) => {
                all.push((name.to_owned(), artifact));
            },
            Err(e) => {
                return Err(e);
            },
        }
        i = i + 1;
    }
    Ok(all)
}


// ---------------------------------------------------------------------------
// Controller images and build plans
// ---------------------------------------------------------------------------

/// The JSON form of a boolean.
pub open spec fn bool_json(b: bool) -> Seq<char> {
    if b {
        "true"@
    } else {
        "false"@
    }
}

/// The JSON object of an expected artifact record.
pub open spec fn expected_json(e: ExpectedFirmwareArtifact, pretty: bool, level: nat) -> Seq<char> {
    json_object(
        seq![
            text_field("format"@, e.format@, pretty),
            text_field("path"@, e.path@, pretty),
            number_field("size_bytes"@, e.size_bytes as nat, pretty),
            text_field("sha256"@, e.sha256@, pretty),
            json_field("deployable"@, bool_json(e.deployable), pretty),
        ],
        pretty,
        level,
    )
}

fn expected_to_json(e: &ExpectedFirmwareArtifact, pretty: bool, level: usize) -> (json: String)
    requires
        level < 100,
    ensures
        json@ == expected_json(*e, pretty, level as nat),
{
    let mut fields: Vec<String> = Vec::new();
    fields.push(text_field_json("format", e.format.as_str(), pretty));
    fields.push(text_field_json("path", e.path.as_str(), pretty));
    fields.push(number_field_json("size_bytes", e.size_bytes, pretty));
    fields.push(text_field_json("sha256", e.sha256.as_str(), pretty));
    let flag = if e.deployable {
        "true".to_owned()
    } else {
        "false".to_owned()
    };
    fields.push(field_json("deployable", &flag, pretty));
    assert(string_views(fields@) =~= seq![
        text_field("format"@, e.format@, pretty),
        text_field("path"@, e.path@, pretty),
        number_field("size_bytes"@, e.size_bytes as nat, pretty),
        text_field("sha256"@, e.sha256@, pretty),
        json_field("deployable"@, bool_json(e.deployable), pretty),
    ]);
    object_json(&fields, pretty, level)
}

/// Canonical payload of the reference controller-image backend.
#[derive(Debug, Clone, PartialEq, Eq)]
pub struct ControllerImageManifest {
    pub schema: String,
    pub controller: String,
    pub lock_hash: String,
    pub board: String,
    pub chip: String,
    pub target_triple: String,
    pub toolchain: String,
    pub build_profile: String,
    pub protocol_version: String,
    pub abi_version: String,
    pub flash_bytes: u64,
    pub ram_bytes: u64,
    pub bootloader_offset_bytes: u64,
    pub features: Vec<String>,
    pub native_drivers: Vec<String>,
    /// Ordered by resource id.
    pub resolved_resources: Vec<(String, String)>,
    /// Its states sorted by component, then resource.
    pub safety: LockedSafetyConfig,
}

/// The fields of an image in their serialized order.
pub open spec fn image_fields(m: ControllerImageManifest, pretty: bool) -> Seq<Seq<char>> {
    seq![
        text_field("schema"@, m.schema@, pretty),
        text_field("controller"@, m.controller@, pretty),
        text_field("lock_hash"@, m.lock_hash@, pretty),
        text_field("board"@, m.board@, pretty),
        text_field("chip"@, m.chip@, pretty),
        text_field("target_triple"@, m.target_triple@, pretty),
        text_field("toolchain"@, m.toolchain@, pretty),
        text_field("build_profile"@, m.build_profile@, pretty),
        text_field("protocol_version"@, m.protocol_version@, pretty),
        text_field("abi_version"@, m.abi_version@, pretty),
        number_field("flash_bytes"@, m.flash_bytes as nat, pretty),
        number_field("ram_bytes"@, m.ram_bytes as nat, pretty),
        number_field("bootloader_offset_bytes"@, m.bootloader_offset_bytes as nat, pretty),
        json_field("features"@, text_array(string_views(m.features@), pretty, 1), pretty),
        json_field("native_drivers"@, text_array(string_views(m.native_drivers@), pretty, 1), pretty),
        json_field("resolved_resources"@, text_map(m.resolved_resources@, pretty, 1), pretty),
        json_field("safety"@, safety_json(m.safety, pretty, 1), pretty),
    ]
}

/// The compact or indented JSON text of an image.
pub open spec fn image_json(m: ControllerImageManifest, pretty: bool) -> Seq<char> {
    json_object(image_fields(m, pretty), pretty, 0)
}

/// The bytes of an image: its indented JSON and a final newline.
pub open spec fn image_bytes(m: ControllerImageManifest) -> Seq<u8> {
    vstd::utf8::encode_utf8(image_json(m, true) + seq!['\n'])
}

impl ControllerImageManifest {
    fn fields_json(&self, pretty: bool) -> (fields: Vec<String>)
        ensures
            string_views(fields@) == image_fields(*self, pretty),
    {
        let mut fields: Vec<String> = Vec::new();
        fields.push(text_field_json("schema", self.schema.as_str(), pretty));
        fields.push(text_field_json("controller", self.controller.as_str(), pretty));
        fields.push(text_field_json("lock_hash", self.lock_hash.as_str(), pretty));
        fields.push(text_field_json("board", self.board.as_str(), pretty));
        fields.push(text_field_json("chip", self.chip.as_str(), pretty));
        fields.push(text_field_json("target_triple", self.target_triple.as_str(), pretty));
        fields.push(text_field_json("toolchain", self.toolchain.as_str(), pretty));
        fields.push(text_field_json("build_profile", self.build_profile.as_str(), pretty));
        fields.push(text_field_json("protocol_version", self.protocol_version.as_str(), pretty));
        fields.push(text_field_json("abi_version", self.abi_version.as_str(), pretty));
        fields.push(number_field_json("flash_bytes", self.flash_bytes, pretty));
        fields.push(number_field_json("ram_bytes", self.ram_bytes, pretty));
        fields.push(number_field_json("bootloader_offset_bytes", self.bootloader_offset_bytes, pretty));
        let features = text_array_json(&self.features, pretty, 1);
        fields.push(field_json("features", &features, pretty));
        let drivers = text_array_json(&self.native_drivers, pretty, 1);
        fields.push(field_json("native_drivers", &drivers, pretty));
        let resources = text_map_json(&self.resolved_resources, pretty, 1);
        fields.push(field_json("resolved_resources", &resources, pretty));
        let safety = safety_to_json(&self.safety, pretty, 1);
        fields.push(field_json("safety", &safety, pretty));
        assert(string_views(fields@) =~= image_fields(*self, pretty));
        fields
    }

    fn to_json(&self, pretty: bool) -> (json: String)
        ensures
            json@ == image_json(*self, pretty),
    {
        let fields = self.fields_json(pretty);
        object_json(&fields, pretty, 0)
    }

    /// The indented JSON, ending with a newline.
    pub fn to_pretty_json(&self) -> (json: String)
        ensures
            json@ == image_json(*self, true) + seq!['\n'],
    {
        with_newline(self.to_json(true))
    }

    /// The canonical bytes: the UTF-8 of the indented JSON and its newline.
    pub fn canonical_bytes(&self) -> (bytes: Vec<u8>)
        ensures
            bytes@ == image_bytes(*self),
    {
        self.to_pretty_json().as_str().as_bytes_vec()
    }

    /// The digest label of the canonical bytes.
    pub fn image_hash(&self) -> (hash: String)
        ensures
            hash@ == sha256_label(image_bytes(*self)),
    {
        let bytes = self.canonical_bytes();
        sha256(bytes.as_slice())
    }
}


/// Versioned, deterministic firmware build plan and expected backend output.
#[derive(Debug, Clone, PartialEq, Eq)]
pub struct ControllerBuildPlanArtifact {
    pub schema: String,
    pub controller: String,
    pub lock_hash: String,
    pub board: String,
    pub chip: String,
    pub target_triple: String,
    pub toolchain: String,
    pub build_profile: String,
    pub protocol_version: String,
    pub abi_version: String,
    pub flash_bytes: u64,
    pub ram_bytes: u64,
    pub bootloader_offset_bytes: u64,
    pub features: Vec<String>,
    pub native_drivers: Vec<String>,
    pub resolved_resources: Vec<(String, String)>,
    pub safety: LockedSafetyConfig,
    pub expected_artifact: ExpectedFirmwareArtifact,
}

/// The fields of a build plan in their serialized order.
pub open spec fn plan_fields(p: ControllerBuildPlanArtifact, pretty: bool) -> Seq<Seq<char>> {
    seq![
        text_field("schema"@, p.schema@, pretty),
        text_field("controller"@, p.controller@, pretty),
        text_field("lock_hash"@, p.lock_hash@, pretty),
        text_field("board"@, p.board@, pretty),
        text_field("chip"@, p.chip@, pretty),
        text_field("target_triple"@, p.target_triple@, pretty),
        text_field("toolchain"@, p.toolchain@, pretty),
        text_field("build_profile"@, p.build_profile@, pretty),
        text_field("protocol_version"@, p.protocol_version@, pretty),
        text_field("abi_version"@, p.abi_version@, pretty),
        number_field("flash_bytes"@, p.flash_bytes as nat, pretty),
        number_field("ram_bytes"@, p.ram_bytes as nat, pretty),
        number_field("bootloader_offset_bytes"@, p.bootloader_offset_bytes as nat, pretty),
        json_field("features"@, text_array(string_views(p.features@), pretty, 1), pretty),
        json_field("native_drivers"@, text_array(string_views(p.native_drivers@), pretty, 1), pretty),
        json_field("resolved_resources"@, text_map(p.resolved_resources@, pretty, 1), pretty),
        json_field("safety"@, safety_json(p.safety, pretty, 1), pretty),
        json_field("expected_artifact"@, expected_json(p.expected_artifact, pretty, 1), pretty),
    ]
}

/// The compact or indented JSON text of a build plan.
pub open spec fn plan_json(p: ControllerBuildPlanArtifact, pretty: bool) -> Seq<char> {
    json_object(plan_fields(p, pretty), pretty, 0)
}

impl ControllerBuildPlanArtifact {
    fn to_json(&self, pretty: bool) -> (json: String)
        ensures
            json@ == plan_json(*self, pretty),
    {
        let mut fields: Vec<String> = Vec::new();
        fields.push(text_field_json("schema", self.schema.as_str(), pretty));
        fields.push(text_field_json("controller", self.controller.as_str(), pretty));
        fields.push(text_field_json("lock_hash", self.lock_hash.as_str(), pretty));
        fields.push(text_field_json("board", self.board.as_str(), pretty));
        fields.push(text_field_json("chip", self.chip.as_str(), pretty));
        fields.push(text_field_json("target_triple", self.target_triple.as_str(), pretty));
        fields.push(text_field_json("toolchain", self.toolchain.as_str(), pretty));
        fields.push(text_field_json("build_profile", self.build_profile.as_str(), pretty));
        fields.push(text_field_json("protocol_version", self.protocol_version.as_str(), pretty));
        fields.push(text_field_json("abi_version", self.abi_version.as_str(), pretty));
        fields.push(number_field_json("flash_bytes", self.flash_bytes, pretty));
        fields.push(number_field_json("ram_bytes", self.ram_bytes, pretty));
        fields.push(number_field_json("bootloader_offset_bytes", self.bootloader_offset_bytes, pretty));
        let features = text_array_json(&self.features, pretty, 1);
        fields.push(field_json("features", &features, pretty));
        let drivers = text_array_json(&self.native_drivers, pretty, 1);
        fields.push(field_json("native_drivers", &drivers, pretty));
        let resources = text_map_json(&self.resolved_resources, pretty, 1);
        fields.push(field_json("resolved_resources", &resources, pretty));
        let safety = safety_to_json(&self.safety, pretty, 1);
        fields.push(field_json("safety", &safety, pretty));
        let expected = expected_to_json(&self.expected_artifact, pretty, 1);
        fields.push(field_json("expected_artifact", &expected, pretty));
        assert(string_views(fields@) =~= plan_fields(*self, pretty));
        object_json(&fields, pretty, 0)
    }

    /// Canonical plan bytes: the compact JSON.
    pub fn canonical_bytes(&self) -> (bytes: Vec<u8>)
        ensures
            bytes@ == vstd::utf8::encode_utf8(plan_json(*self, false)),
    {
        self.to_json(false).as_str().as_bytes_vec()
    }

    /// The digest label of the canonical bytes.
    pub fn artifact_hash(&self) -> (hash: String)
        ensures
            hash@ == sha256_label(vstd::utf8::encode_utf8(plan_json(*self, false))),
    {
        let bytes = self.canonical_bytes();
        sha256(bytes.as_slice())
    }

    /// The indented JSON, ending with a newline.
    pub fn to_pretty_json(&self) -> (json: String)
        ensures
            json@ == plan_json(*self, true) + seq!['\n'],
    {
        with_newline(self.to_json(true))
    }
}

/// A built controller: its plan, its image and the image's bytes.
#[derive(Debug, Clone, PartialEq, Eq)]
pub struct BuiltControllerFirmware {
    pub plan: ControllerBuildPlanArtifact,
    pub image: ControllerImageManifest,
    pub bytes: Vec<u8>,
}

fn copy_strings(v: &Vec<String>) -> (copy: Vec<String>)
    ensures
        copy@ == v@,
{
    let mut copy: Vec<String> = Vec::new();
    let mut i: usize = 0;
    while i < v.len()
        invariant
            i <= v@.len(),
            copy@ == v@.subrange(0, i as int),
        decreases v@.len() - i,
    {
        copy.push(v[i].clone());
        assert(copy@ =~= v@.subrange(0, i + 1));
        i = i + 1;
    }
    assert(v@.subrange(0, v@.len() as int) =~= v@);
    copy
}

fn copy_entries(v: &Vec<(String, String)>) -> (copy: Vec<(String, String)>)
    ensures
        copy@ == v@,
{
    let mut copy: Vec<(String, String)> = Vec::new();
    let mut i: usize = 0;
    while i < v.len()
        invariant
            i <= v@.len(),
            copy@ == v@.subrange(0, i as int),
        decreases v@.len() - i,
    {
        copy.push((v[i].0.clone(), v[i].1.clone()));
        assert(copy@ =~= v@.subrange(0, i + 1));
        i = i + 1;
    }
    assert(v@.subrange(0, v@.len() as int) =~= v@);
    copy
}

pub(crate) fn copy_states(v: &Vec<LockedSafeState>) -> (copy: Vec<LockedSafeState>)
    ensures
        copy@ == v@,
{
    let mut copy: Vec<LockedSafeState> = Vec::new();
    let mut i: usize = 0;
    while i < v.len()
        invariant
            i <= v@.len(),
            copy@ == v@.subrange(0, i as int),
        decreases v@.len() - i,
    {
        copy.push(copy_state(&v[i]));
        assert(copy@ =~= v@.subrange(0, i + 1));
        i = i + 1;
    }
    assert(v@.subrange(0, v@.len() as int) =~= v@);
    copy
}

/// The image a lock gives for a controller with build and safety
/// configurations: the lock's build target, resources and safety schema,
/// and the states sorted by component, then resource.
pub open spec fn image_from_lock(
    m: ControllerImageManifest,
    lock: Lockfile,
    name: Seq<char>,
    controller: LockedController,
    build: crate::lock::LockedBuildConfig,
    safety: LockedSafetyConfig,
) -> bool {
    &&& m.schema@ == CONTROLLER_IMAGE_SCHEMA@
    &&& m.controller@ == name
    &&& m.lock_hash@ == lock_hash_of(lock)
    &&& m.board == build.board
    &&& m.chip == build.chip
    &&& m.target_triple == build.target_triple
    &&& m.toolchain == build.toolchain
    &&& m.build_profile == build.build_profile
    &&& m.protocol_version == build.protocol_version
    &&& m.abi_version == build.abi_version
    &&& m.flash_bytes == build.flash_bytes
    &&& m.ram_bytes == build.ram_bytes
    &&& m.bootloader_offset_bytes == build.bootloader_offset_bytes
    &&& m.features@ == build.features@
    &&& m.native_drivers@ == build.native_drivers@
    &&& m.resolved_resources@ == controller.resolved_resources@
    &&& m.safety.schema == safety.schema
    &&& m.safety.states@ == sorted_states(safety.states@)
}

/// Whether the lock cannot give a controller image for `name`.
pub open spec fn image_refused(lock: Lockfile, name: Seq<char>) -> bool {
    lock_problem(lock) is Some || lock.lock_version < BUILD_PLAN_MINIMUM_LOCK_VERSION || match locked_controller(
        lock.controllers@,
        name,
    ) {
        None => true,
        Some(controller) => controller.build is None || controller.safety is None,
    }
}

/// What making a controller image gives: refused for a lock that is not
/// valid, older than v4, without that controller, or without its build or
/// safety configuration (checked in that order); otherwise the image.
pub open spec fn imaged_as(
    result: Result<ControllerImageManifest, BuildError>,
    lock: Lockfile,
    name: Seq<char>,
) -> bool {
    match lock_problem(lock) {
        Some(p) => result matches Err(BuildError::InvalidLock(m)) && m@ == p,
        None => if lock.lock_version < BUILD_PLAN_MINIMUM_LOCK_VERSION {
            result == Err::<ControllerImageManifest, BuildError>(
                BuildError::UnsupportedBuildPlanLockVersion(lock.lock_version),
            )
        } else {
            match locked_controller(lock.controllers@, name) {
                None => result matches Err(BuildError::UnknownController(c)) && c@ == name,
                Some(controller) => match controller.build {
                    None => result matches Err(BuildError::MissingBuildConfig(c)) && c@ == name,
                    Some(build) => match controller.safety {
                        None => result matches Err(BuildError::MissingSafetyConfig(c)) && c@
                            == name,
                        Some(safety) => result matches Ok(m) && image_from_lock(
                            m,
                            lock,
                            name,
                            controller,
                            build,
                            safety,
                        ),
                    },
                },
            }
        },
    }
}

fn controller_image_manifest(lock: &Lockfile, controller_name: &str) -> (result: Result<
    ControllerImageManifest,
    BuildError,
>)
    ensures
        imaged_as(result, *lock, controller_name@),
{
    match lock.validate() {
        Ok(()) => {},
        Err(m) => return Err(BuildError::InvalidLock(m)),
    }
    if lock.lock_version < BUILD_PLAN_MINIMUM_LOCK_VERSION {
        return Err(BuildError::UnsupportedBuildPlanLockVersion(lock.lock_version));
    }
    let controller = match find_controller(lock, controller_name) {
        Some(c) => c,
        None => return Err(BuildError::UnknownController(controller_name.to_owned())),
    };
    let build = match &controller.build {
        Some(b) => b,
        None => return Err(BuildError::MissingBuildConfig(controller_name.to_owned())),
    };
    let safety = match &controller.safety {
        Some(s) => s,
        None => return Err(BuildError::MissingSafetyConfig(controller_name.to_owned())),
    };
    let states = sort_safety_states(&safety.states);
    Ok(
        ControllerImageManifest {
            schema: CONTROLLER_IMAGE_SCHEMA.to_owned(),
            controller: controller_name.to_owned(),
            lock_hash: lock.lock_hash(),
            board: build.board.clone(),
            chip: build.chip.clone(),
            target_triple: build.target_triple.clone(),
            toolchain: build.toolchain.clone(),
            build_profile: build.build_profile.clone(),
            protocol_version: build.protocol_version.clone(),
            abi_version: build.abi_version.clone(),
            flash_bytes: build.flash_bytes,
            ram_bytes: build.ram_bytes,
            bootloader_offset_bytes: build.bootloader_offset_bytes,
            features: copy_strings(&build.features),
            native_drivers: copy_strings(&build.native_drivers),
            resolved_resources: copy_entries(&controller.resolved_resources),
            safety: LockedSafetyConfig { schema: safety.schema.clone(), states },
        },
    )
}

/// The path of a controller's reference image.
pub open spec fn image_path(name: Seq<char>) -> Seq<char> {
    "build/"@ + name + "/firmware.dryer.json"@
}

/// The plan that records an image: the image's fields under the plan
/// schema, and the image's format, path, size and digest, not deployable.
pub open spec fn plan_for_image(p: ControllerBuildPlanArtifact, m: ControllerImageManifest, name: Seq<char>) -> bool {
    &&& p.schema@ == CONTROLLER_BUILD_PLAN_SCHEMA@
    &&& p.controller == m.controller
    &&& p.lock_hash == m.lock_hash
    &&& p.board == m.board
    &&& p.chip == m.chip
    &&& p.target_triple == m.target_triple
    &&& p.toolchain == m.toolchain
    &&& p.build_profile == m.build_profile
    &&& p.protocol_version == m.protocol_version
    &&& p.abi_version == m.abi_version
    &&& p.flash_bytes == m.flash_bytes
    &&& p.ram_bytes == m.ram_bytes
    &&& p.bootloader_offset_bytes == m.bootloader_offset_bytes
    &&& p.features@ == m.features@
    &&& p.native_drivers@ == m.native_drivers@
    &&& p.resolved_resources@ == m.resolved_resources@
    &&& p.safety.schema == m.safety.schema
    &&& p.safety.states@ == m.safety.states@
    &&& p.expected_artifact.format@ == CONTROLLER_IMAGE_SCHEMA@
    &&& p.expected_artifact.path@ == image_path(name)
    &&& p.expected_artifact.size_bytes == image_bytes(m).len()
    &&& p.expected_artifact.sha256@ == sha256_label(image_bytes(m))
    &&& !p.expected_artifact.deployable
}

/// What building a controller gives: the image refusal, or the image, its
/// bytes and the plan that records them.
pub open spec fn built_as(
    result: Result<BuiltControllerFirmware, BuildError>,
    lock: Lockfile,
    name: Seq<char>,
) -> bool {
    match result {
        Err(e) => imaged_as(Err(e), lock, name),
        Ok(b) => imaged_as(Ok(b.image), lock, name) && b.bytes@ == image_bytes(b.image)
            && plan_for_image(b.plan, b.image, name),
    }
}

/// Build one deterministic, inspectable controller-image container from the
/// lock alone.
pub fn build_controller(lock: &Lockfile, controller_name: &str) -> (result: Result<
    BuiltControllerFirmware,
    BuildError,
>)
    ensures
        built_as(result, *lock, controller_name@),
{
    let image = match controller_image_manifest(lock, controller_name) {
        Ok(image) => image,
        Err(e) => return Err(e),
    };
    let bytes = image.canonical_bytes();
    let mut path = "build/".to_owned();
    push_str(&mut path, controller_name);
    push_str(&mut path, "/firmware.dryer.json");
    let expected_artifact = ExpectedFirmwareArtifact {
        format: CONTROLLER_IMAGE_SCHEMA.to_owned(),
        path,
        size_bytes: bytes.len() as u64,
        sha256: sha256(bytes.as_slice()),
        deployable: false,
    };
    let plan = ControllerBuildPlanArtifact {
        schema: CONTROLLER_BUILD_PLAN_SCHEMA.to_owned(),
        controller: image.controller.clone(),
        lock_hash: image.lock_hash.clone(),
        board: image.board.clone(),
        chip: image.chip.clone(),
        target_triple: image.target_triple.clone(),
        toolchain: image.toolchain.clone(),
        build_profile: image.build_profile.clone(),
        protocol_version: image.protocol_version.clone(),
        abi_version: image.abi_version.clone(),
        flash_bytes: image.flash_bytes,
        ram_bytes: image.ram_bytes,
        bootloader_offset_bytes: image.bootloader_offset_bytes,
        features: copy_strings(&image.features),
        native_drivers: copy_strings(&image.native_drivers),
        resolved_resources: copy_entries(&image.resolved_resources),
        safety: LockedSafetyConfig {
            schema: image.safety.schema.clone(),
            states: copy_states(&image.safety.states),
        },
        expected_artifact,
    };
    Ok(BuiltControllerFirmware { plan, image, bytes })
}


/// What planning a controller gives: the image refusal, or the plan that
/// records the lock's image.
pub open spec fn planned_as(
    result: Result<ControllerBuildPlanArtifact, BuildError>,
    lock: Lockfile,
    name: Seq<char>,
) -> bool {
    match result {
        Err(e) => imaged_as(Err(e), lock, name),
        Ok(p) => exists|m: ControllerImageManifest|
            #[trigger] imaged_as(Ok(m), lock, name) && plan_for_image(p, m, name),
    }
}

/// Materialize one controller's locked build plan, including the exact
/// expected reference-backend output.
pub fn plan_controller(lock: &Lockfile, controller_name: &str) -> (result: Result<
    ControllerBuildPlanArtifact,
    BuildError,
>)
    ensures
        planned_as(result, *lock, controller_name@),
{
    match build_controller(lock, controller_name) {
        Ok(built) => {
            assert(imaged_as(Ok(built.image), *lock, controller_name@));
            Ok(built.plan)
        },
        Err(e) => Err(e),
    }
}

/// Build every controller in the lock's (id) order; the first refusal is
/// returned.
pub fn build_all(lock: &Lockfile) -> (result: Result<
    Vec<(String, BuiltControllerFirmware)>,
    BuildError,
>)
    ensures
        match result {
            Ok(all) => all@.len() == lock.controllers@.len() && forall|i: int|
                0 <= i < all@.len() ==> (#[trigger] all@[i]).0@ == lock.controllers@[i].0@
                    && built_as(
                    Ok::<BuiltControllerFirmware, BuildError>(all@[i].1),
                    *lock,
                    lock.controllers@[i].0@,
                ),
            Err(e) => exists|k: int|
                0 <= k < lock.controllers@.len() && built_as(
                    Err::<BuiltControllerFirmware, BuildError>(e),
                    *lock,
                    #[trigger] lock.controllers@[k].0@,
                ),
        },
{
    let mut all: Vec<(String, BuiltControllerFirmware)> = Vec::new();
    let mut i: usize = 0;
    while i < lock.controllers.len()
        invariant
            i <= lock.controllers@.len(),
            all@.len() == i,
            forall|j: int|
                0 <= j < i ==> (#[trigger] all@[j]).0@ == lock.controllers@[j].0@ && built_as(
                    Ok::<BuiltControllerFirmware, BuildError>(all@[j].1),
                    *lock,
                    lock.controllers@[j].0@,
                ),
        decreases lock.controllers@.len() - i,
    {
        let name = lock.controllers[i].0.as_str();
        match build_controller(lock, name) {
            Ok(built) => {
                all.push((name.to_owned(), built));
            },
            Err(e) => {
                return Err(e);
            },
        }
        i = i + 1;
    }
    Ok(all)
}

/// Plan every controller in the lock's (id) order; the first refusal is
/// returned.
pub fn plan_all(lock: &Lockfile) -> (result: Result<
    Vec<(String, ControllerBuildPlanArtifact)>,
    BuildError,
>)
    ensures
        match result {
            Ok(all) => all@.len() == lock.controllers@.len() && forall|i: int|
                0 <= i < all@.len() ==> (#[trigger] all@[i]).0@ == lock.controllers@[i].0@
                    && planned_as(
                    Ok::<ControllerBuildPlanArtifact, BuildError>(all@[i].1),
                    *lock,
                    lock.controllers@[i].0@,
                ),
            Err(e) => exists|k: int|
                0 <= k < lock.controllers@.len() && planned_as(
                    Err::<ControllerBuildPlanArtifact, BuildError>(e),
                    *lock,
                    #[trigger] lock.controllers@[k].0@,
                ),
        },
{
    let mut all: Vec<(String, ControllerBuildPlanArtifact)> = Vec::new();
    let mut i: usize = 0;
    while i < lock.controllers.len()
        invariant
            i <= lock.controllers@.len(),
            all@.len() == i,
            forall|j: int|
                0 <= j < i ==> (#[trigger] all@[j]).0@ == lock.controllers@[j].0@ && planned_as(
                    Ok::<ControllerBuildPlanArtifact, BuildError>(all@[j].1),
                    *lock,
                    lock.controllers@[j].0@,
                ),
        decreases lock.controllers@.len() - i,
    {
        let name = lock.controllers[i].0.as_str();
        match plan_controller(lock, name) {
            Ok(plan) => {
                all.push((name.to_owned(), plan));
            },
            Err(e) => {
                return Err(e);
            },
        }
        i = i + 1;
    }
    Ok(all)
}


// ---------------------------------------------------------------------------
// Comparing artifacts by content
// ---------------------------------------------------------------------------

/// The text views of string pairs.
pub open spec fn entry_views(v: Seq<(String, String)>) -> Seq<(Seq<char>, Seq<char>)> {
    v.map_values(|e: (String, String)| (e.0@, e.1@))
}

/// The content of a safety state.
pub open spec fn state_view(s: LockedSafeState) -> (
    Seq<char>,
    Seq<char>,
    Seq<char>,
    SafeState,
    Option<u64>,
    Option<Seq<char>>,
) {
    (
        s.component@,
        s.class@,
        s.resource@,
        s.state,
        s.heartbeat_timeout_us,
        match s.sensor {
            Some(sensor) => Some(sensor@),
            None => None,
        },
    )
}

pub open spec fn state_views(v: Seq<LockedSafeState>) -> Seq<
    (Seq<char>, Seq<char>, Seq<char>, SafeState, Option<u64>, Option<Seq<char>>),
> {
    v.map_values(|s: LockedSafeState| state_view(s))
}

pub open spec fn same_safety(a: LockedSafetyConfig, b: LockedSafetyConfig) -> bool {
    a.schema@ == b.schema@ && state_views(a.states@) == state_views(b.states@)
}

pub open spec fn same_expected(a: ExpectedFirmwareArtifact, b: ExpectedFirmwareArtifact) -> bool {
    &&& a.format@ == b.format@
    &&& a.path@ == b.path@
    &&& a.size_bytes == b.size_bytes
    &&& a.sha256@ == b.sha256@
    &&& a.deployable == b.deployable
}

/// Two images with equal contents.
pub open spec fn same_image(a: ControllerImageManifest, b: ControllerImageManifest) -> bool {
    &&& a.schema@ == b.schema@
    &&& a.controller@ == b.controller@
    &&& a.lock_hash@ == b.lock_hash@
    &&& a.board@ == b.board@
    &&& a.chip@ == b.chip@
    &&& a.target_triple@ == b.target_triple@
    &&& a.toolchain@ == b.toolchain@
    &&& a.build_profile@ == b.build_profile@
    &&& a.protocol_version@ == b.protocol_version@
    &&& a.abi_version@ == b.abi_version@
    &&& a.flash_bytes == b.flash_bytes
    &&& a.ram_bytes == b.ram_bytes
    &&& a.bootloader_offset_bytes == b.bootloader_offset_bytes
    &&& string_views(a.features@) == string_views(b.features@)
    &&& string_views(a.native_drivers@) == string_views(b.native_drivers@)
    &&& entry_views(a.resolved_resources@) == entry_views(b.resolved_resources@)
    &&& same_safety(a.safety, b.safety)
}

/// Two build plans with equal contents.
pub open spec fn same_plan(a: ControllerBuildPlanArtifact, b: ControllerBuildPlanArtifact) -> bool {
    &&& a.schema@ == b.schema@
    &&& a.controller@ == b.controller@
    &&& a.lock_hash@ == b.lock_hash@
    &&& a.board@ == b.board@
    &&& a.chip@ == b.chip@
    &&& a.target_triple@ == b.target_triple@
    &&& a.toolchain@ == b.toolchain@
    &&& a.build_profile@ == b.build_profile@
    &&& a.protocol_version@ == b.protocol_version@
    &&& a.abi_version@ == b.abi_version@
    &&& a.flash_bytes == b.flash_bytes
    &&& a.ram_bytes == b.ram_bytes
    &&& a.bootloader_offset_bytes == b.bootloader_offset_bytes
    &&& string_views(a.features@) == string_views(b.features@)
    &&& string_views(a.native_drivers@) == string_views(b.native_drivers@)
    &&& entry_views(a.resolved_resources@) == entry_views(b.resolved_resources@)
    &&& same_safety(a.safety, b.safety)
    &&& same_expected(a.expected_artifact, b.expected_artifact)
}

fn strings_match(a: &Vec<String>, b: &Vec<String>) -> (same: bool)
    ensures
        same == (string_views(a@) == string_views(b@)),
{
    if a.len() != b.len() {
        assert(string_views(a@).len() != string_views(b@).len());
        return false;
    }
    let mut i: usize = 0;
    while i < a.len()
        invariant
            i <= a@.len(),
            a@.len() == b@.len(),
            forall|j: int| 0 <= j < i ==> (#[trigger] a@[j])@ == b@[j]@,
        decreases a@.len() - i,
    {
        if !str_eq(a[i].as_str(), b[i].as_str()) {
            assert(string_views(a@)[i as int] != string_views(b@)[i as int]);
            return false;
        }
        i = i + 1;
    }
    assert(string_views(a@) =~= string_views(b@));
    true
}

fn entries_match(a: &Vec<(String, String)>, b: &Vec<(String, String)>) -> (same: bool)
    ensures
        same == (entry_views(a@) == entry_views(b@)),
{
    if a.len() != b.len() {
        assert(entry_views(a@).len() != entry_views(b@).len());
        return false;
    }
    let mut i: usize = 0;
    while i < a.len()
        invariant
            i <= a@.len(),
            a@.len() == b@.len(),
            forall|j: int|
                0 <= j < i ==> (#[trigger] a@[j]).0@ == b@[j].0@ && a@[j].1@ == b@[j].1@,
        decreases a@.len() - i,
    {
        if !str_eq(a[i].0.as_str(), b[i].0.as_str()) || !str_eq(a[i].1.as_str(), b[i].1.as_str()) {
            assert(entry_views(a@)[i as int] != entry_views(b@)[i as int]);
            return false;
        }
        i = i + 1;
    }
    assert(entry_views(a@) =~= entry_views(b@));
    true
}

fn sensors_match(a: &Option<String>, b: &Option<String>) -> (same: bool)
    ensures
        same == (match (*a, *b) {
            (Some(x), Some(y)) => x@ == y@,
            (None, None) => true,
            _ => false,
        }),
{
    match (a, b) {
        (Some(x), Some(y)) => str_eq(x.as_str(), y.as_str()),
        (None, None) => true,
        _ => false,
    }
}

fn state_matches(a: &LockedSafeState, b: &LockedSafeState) -> (same: bool)
    ensures
        same == (state_view(*a) == state_view(*b)),
{
    str_eq(a.component.as_str(), b.component.as_str()) && str_eq(a.class.as_str(), b.class.as_str())
        && str_eq(a.resource.as_str(), b.resource.as_str()) && a.state == b.state
        && a.heartbeat_timeout_us == b.heartbeat_timeout_us && sensors_match(&a.sensor, &b.sensor)
}

fn safety_matches(a: &LockedSafetyConfig, b: &LockedSafetyConfig) -> (same: bool)
    ensures
        same == same_safety(*a, *b),
{
    if !str_eq(a.schema.as_str(), b.schema.as_str()) {
        return false;
    }
    if a.states.len() != b.states.len() {
        assert(state_views(a.states@).len() != state_views(b.states@).len());
        return false;
    }
    let mut i: usize = 0;
    while i < a.states.len()
        invariant
            i <= a.states@.len(),
            a.states@.len() == b.states@.len(),
            forall|j: int| 0 <= j < i ==> state_view(#[trigger] a.states@[j]) == state_view(b.states@[j]),
        decreases a.states@.len() - i,
    {
        if !state_matches(&a.states[i], &b.states[i]) {
            assert(state_views(a.states@)[i as int] != state_views(b.states@)[i as int]);
            return false;
        }
        i = i + 1;
    }
    assert(state_views(a.states@) =~= state_views(b.states@));
    true
}

fn target_matches(
    a: &ControllerImageManifest,
    b: &ControllerBuildPlanArtifact,
) -> (same: bool)
    ensures
        same == (a.board@ == b.board@ && a.chip@ == b.chip@ && a.target_triple@ == b.target_triple@
            && a.toolchain@ == b.toolchain@ && a.build_profile@ == b.build_profile@
            && a.protocol_version@ == b.protocol_version@ && a.abi_version@ == b.abi_version@
            && a.flash_bytes == b.flash_bytes && a.ram_bytes == b.ram_bytes
            && a.bootloader_offset_bytes == b.bootloader_offset_bytes),
{
    str_eq(a.board.as_str(), b.board.as_str()) && str_eq(a.chip.as_str(), b.chip.as_str())
        && str_eq(a.target_triple.as_str(), b.target_triple.as_str())
        && str_eq(a.toolchain.as_str(), b.toolchain.as_str())
        && str_eq(a.build_profile.as_str(), b.build_profile.as_str())
        && str_eq(a.protocol_version.as_str(), b.protocol_version.as_str())
        && str_eq(a.abi_version.as_str(), b.abi_version.as_str())
        && a.flash_bytes == b.flash_bytes && a.ram_bytes == b.ram_bytes
        && a.bootloader_offset_bytes == b.bootloader_offset_bytes
}


fn images_match(a: &ControllerImageManifest, b: &ControllerImageManifest) -> (same: bool)
    ensures
        same == same_image(*a, *b),
{
    str_eq(a.schema.as_str(), b.schema.as_str()) && str_eq(a.controller.as_str(), b.controller.as_str())
        && str_eq(a.lock_hash.as_str(), b.lock_hash.as_str()) && str_eq(a.board.as_str(), b.board.as_str())
        && str_eq(a.chip.as_str(), b.chip.as_str())
        && str_eq(a.target_triple.as_str(), b.target_triple.as_str())
        && str_eq(a.toolchain.as_str(), b.toolchain.as_str())
        && str_eq(a.build_profile.as_str(), b.build_profile.as_str())
        && str_eq(a.protocol_version.as_str(), b.protocol_version.as_str())
        && str_eq(a.abi_version.as_str(), b.abi_version.as_str())
        && a.flash_bytes == b.flash_bytes && a.ram_bytes == b.ram_bytes
        && a.bootloader_offset_bytes == b.bootloader_offset_bytes
        && strings_match(&a.features, &b.features)
        && strings_match(&a.native_drivers, &b.native_drivers)
        && entries_match(&a.resolved_resources, &b.resolved_resources)
        && safety_matches(&a.safety, &b.safety)
}

fn expected_matches(a: &ExpectedFirmwareArtifact, b: &ExpectedFirmwareArtifact) -> (same: bool)
    ensures
        same == same_expected(*a, *b),
{
    str_eq(a.format.as_str(), b.format.as_str()) && str_eq(a.path.as_str(), b.path.as_str())
        && a.size_bytes == b.size_bytes && str_eq(a.sha256.as_str(), b.sha256.as_str())
        && a.deployable == b.deployable
}

fn plans_match(a: &ControllerBuildPlanArtifact, b: &ControllerBuildPlanArtifact) -> (same: bool)
    ensures
        same == same_plan(*a, *b),
{
    str_eq(a.schema.as_str(), b.schema.as_str()) && str_eq(a.controller.as_str(), b.controller.as_str())
        && str_eq(a.lock_hash.as_str(), b.lock_hash.as_str()) && str_eq(a.board.as_str(), b.board.as_str())
        && str_eq(a.chip.as_str(), b.chip.as_str())
        && str_eq(a.target_triple.as_str(), b.target_triple.as_str())
        && str_eq(a.toolchain.as_str(), b.toolchain.as_str())
        && str_eq(a.build_profile.as_str(), b.build_profile.as_str())
        && str_eq(a.protocol_version.as_str(), b.protocol_version.as_str())
        && str_eq(a.abi_version.as_str(), b.abi_version.as_str())
        && a.flash_bytes == b.flash_bytes && a.ram_bytes == b.ram_bytes
        && a.bootloader_offset_bytes == b.bootloader_offset_bytes
        && strings_match(&a.features, &b.features)
        && strings_match(&a.native_drivers, &b.native_drivers)
        && entries_match(&a.resolved_resources, &b.resolved_resources)
        && safety_matches(&a.safety, &b.safety)
        && expected_matches(&a.expected_artifact, &b.expected_artifact)
}

fn bytes_match(a: &[u8], b: &[u8]) -> (same: bool)
    ensures
        same == (a@ == b@),
{
    if a.len() != b.len() {
        return false;
    }
    let mut i: usize = 0;
    while i < a.len()
        invariant
            i <= a@.len(),
            a@.len() == b@.len(),
            forall|j: int| 0 <= j < i ==> a@[j] == b@[j],
        decreases a@.len() - i,
    {
        if a[i] != b[i] {
            return false;
        }
        i = i + 1;
    }
    assert(a@ =~= b@);
    true
}

/// Whatever firmware the lock builds for `name`, its plan, image and bytes
/// have the same contents.
pub proof fn built_firmware_is_determined(
    first: BuiltControllerFirmware,
    second: BuiltControllerFirmware,
    lock: Lockfile,
    name: Seq<char>,
)
    requires
        built_as(Ok(first), lock, name),
        built_as(Ok(second), lock, name),
    ensures
        same_image(first.image, second.image),
        same_plan(first.plan, second.plan),
        first.bytes@ == second.bytes@,
{
    let a = first.image;
    let b = second.image;
    assert(image_fields(a, true) =~= image_fields(b, true));
    assert(image_bytes(a) == image_bytes(b));
}

// ---------------------------------------------------------------------------
// Checking plans and images
// ---------------------------------------------------------------------------

/// The refusal of a plan that differs from the lock's.
pub open spec fn plan_mismatch_text(name: Seq<char>) -> Seq<char> {
    "controller '"@ + name + "' plan does not match the locked inputs"@
}

/// What checking a supplied plan against the lock gives: the image
/// refusal; otherwise success exactly when the plan has the contents of
/// the plan the lock builds, else a mismatch.
pub open spec fn plan_checked_as(
    result: Result<(), BuildError>,
    lock: Lockfile,
    name: Seq<char>,
    plan: ControllerBuildPlanArtifact,
) -> bool {
    if image_refused(lock, name) {
        result matches Err(e) && imaged_as(Err(e), lock, name)
    } else {
        forall|b: BuiltControllerFirmware| #[trigger]
            built_as(Ok(b), lock, name) ==> if same_plan(plan, b.plan) {
                result is Ok
            } else {
                result matches Err(BuildError::BuildPlanMismatch(m)) && m@ == plan_mismatch_text(name)
            }
    }
}

/// Require a supplied build plan to be exactly reproducible from the lock.
pub fn verify_build_plan(
    lock: &Lockfile,
    controller_name: &str,
    plan: &ControllerBuildPlanArtifact,
) -> (result: Result<(), BuildError>)
    ensures
        plan_checked_as(result, *lock, controller_name@, *plan),
{
    let built = match build_controller(lock, controller_name) {
        Ok(built) => built,
        Err(e) => return Err(e),
    };
    let same = plans_match(plan, &built.plan);
    proof {
        assert forall|b: BuiltControllerFirmware| #[trigger]
            built_as(Ok(b), *lock, controller_name@) implies same_plan(built.plan, b.plan) by {
            built_firmware_is_determined(built, b, *lock, controller_name@);
        }
    }
    if !same {
        let mut text = "controller '".to_owned();
        push_str(&mut text, controller_name);
        push_str(&mut text, "' plan does not match the locked inputs");
        return Err(BuildError::BuildPlanMismatch(text));
    }
    Ok(())
}

/// The refusal of an image whose schema is not the image schema.
pub open spec fn schema_refusal_text(schema: Seq<char>) -> Seq<char> {
    "schema '"@ + schema + "' is not '"@ + CONTROLLER_IMAGE_SCHEMA@ + "'"@
}

/// Whether a parsed image passes inspection: the image schema, and the
/// bytes are exactly its canonical encoding.
pub open spec fn inspection_passes(parsed: Result<ControllerImageManifest, String>, bytes: Seq<u8>) -> bool {
    parsed matches Ok(image) && image.schema@ == CONTROLLER_IMAGE_SCHEMA@ && image_bytes(image)
        == bytes
}

/// What inspecting an image gives, from the outcome of parsing its bytes:
/// the parse error, a schema other than the image schema, or bytes that
/// are not the canonical encoding are refused; otherwise the image.
pub open spec fn inspected_as(
    result: Result<ControllerImageManifest, BuildError>,
    parsed: Result<ControllerImageManifest, String>,
    bytes: Seq<u8>,
) -> bool {
    match parsed {
        Err(error) => result matches Err(BuildError::InvalidControllerImage(m)) && m@ == error@,
        Ok(image) => if image.schema@ != CONTROLLER_IMAGE_SCHEMA@ {
            result matches Err(BuildError::InvalidControllerImage(m)) && m@ == schema_refusal_text(
                image.schema@,
            )
        } else if image_bytes(image) != bytes {
            result matches Err(BuildError::InvalidControllerImage(m)) && m@
                == "bytes are not the canonical JSON encoding"@
        } else {
            result == Ok::<ControllerImageManifest, BuildError>(image)
        },
    }
}

/// Check a parsed controller image against the bytes it was parsed from,
/// requiring the image schema and the exact canonical encoding.
pub fn inspect_controller_image(
    parsed: Result<ControllerImageManifest, String>,
    bytes: &[u8],
) -> (result: Result<ControllerImageManifest, BuildError>)
    ensures
        inspected_as(result, parsed, bytes@),
{
    let image = match parsed {
        Ok(image) => image,
        Err(error) => return Err(BuildError::InvalidControllerImage(error)),
    };
    if !str_eq(image.schema.as_str(), CONTROLLER_IMAGE_SCHEMA) {
        let text = quoted("schema '", &image.schema, "' is not '");
        let mut text = text;
        push_str(&mut text, CONTROLLER_IMAGE_SCHEMA);
        push_str(&mut text, "'");
        return Err(BuildError::InvalidControllerImage(text));
    }
    let canonical = image.canonical_bytes();
    if !bytes_match(canonical.as_slice(), bytes) {
        return Err(BuildError::InvalidControllerImage("bytes are not the canonical JSON encoding".to_owned()));
    }
    Ok(image)
}

/// The refusal of image bytes other than the expected ones.
pub open spec fn size_mismatch_text(name: Seq<char>, expected: Seq<u8>, observed: Seq<u8>) -> Seq<char> {
    "controller '"@ + name + "' expected "@ + decimal(expected.len()) + " bytes at "@ + sha256_label(
        expected,
    ) + ", observed "@ + decimal(observed.len()) + " bytes at "@ + sha256_label(observed)
}

/// The refusal of an image whose contents differ from the lock's.
pub open spec fn manifest_mismatch_text(name: Seq<char>) -> Seq<char> {
    "controller '"@ + name + "' manifest does not match the locked inputs"@
}

/// What verifying a supplied plan and image gives: the plan check's
/// refusal; then the inspection's; then bytes other than the built
/// image's, or an image whose contents differ, are refused; otherwise the
/// supplied image.
pub open spec fn image_verified_as(
    result: Result<ControllerImageManifest, BuildError>,
    lock: Lockfile,
    name: Seq<char>,
    plan: ControllerBuildPlanArtifact,
    parsed: Result<ControllerImageManifest, String>,
    bytes: Seq<u8>,
) -> bool {
    if image_refused(lock, name) {
        result matches Err(e) && imaged_as(Err(e), lock, name)
    } else {
        forall|b: BuiltControllerFirmware| #[trigger]
            built_as(Ok(b), lock, name) ==> if !same_plan(plan, b.plan) {
                result matches Err(BuildError::BuildPlanMismatch(m)) && m@ == plan_mismatch_text(name)
            } else if !inspection_passes(parsed, bytes) {
                inspected_as(result, parsed, bytes)
            } else if bytes != b.bytes@ {
                result matches Err(BuildError::InvalidControllerImage(m)) && m@ == size_mismatch_text(
                    name,
                    b.bytes@,
                    bytes,
                )
            } else if !same_image(parsed->Ok_0, b.image) {
                result matches Err(BuildError::InvalidControllerImage(m)) && m@
                    == manifest_mismatch_text(name)
            } else {
                result == Ok::<ControllerImageManifest, BuildError>(parsed->Ok_0)
            }
    }
}

/// Verify a supplied plan and image (with the outcome of parsing its bytes)
/// against one locked controller.
pub fn verify_controller_image(
    lock: &Lockfile,
    controller_name: &str,
    plan: &ControllerBuildPlanArtifact,
    parsed: Result<ControllerImageManifest, String>,
    bytes: &[u8],
) -> (result: Result<ControllerImageManifest, BuildError>)
    ensures
        image_verified_as(result, *lock, controller_name@, *plan, parsed, bytes@),
{
    match verify_build_plan(lock, controller_name, plan) {
        Ok(()) => {},
        Err(e) => return Err(e),
    }
    let expected = match build_controller(lock, controller_name) {
        Ok(built) => built,
        Err(e) => return Err(e),
    };
    proof {
        assert forall|b: BuiltControllerFirmware| #[trigger]
            built_as(Ok(b), *lock, controller_name@) implies same_plan(expected.plan, b.plan)
            && same_image(expected.image, b.image) && expected.bytes@ == b.bytes@ by {
            built_firmware_is_determined(expected, b, *lock, controller_name@);
        }
    }
    let image = match inspect_controller_image(parsed, bytes) {
        Ok(image) => image,
        Err(e) => return Err(e),
    };
    if !bytes_match(bytes, expected.bytes.as_slice()) {
        let mut text = "controller '".to_owned();
        push_str(&mut text, controller_name);
        push_str(&mut text, "' expected ");
        push_decimal(&mut text, expected.bytes.len() as u64);
        push_str(&mut text, " bytes at ");
        let expected_hash = sha256(expected.bytes.as_slice());
        push_str(&mut text, expected_hash.as_str());
        push_str(&mut text, ", observed ");
        push_decimal(&mut text, bytes.len() as u64);
        push_str(&mut text, " bytes at ");
        let observed_hash = sha256(bytes);
        push_str(&mut text, observed_hash.as_str());
        return Err(BuildError::InvalidControllerImage(text));
    }
    if !images_match(&image, &expected.image) {
        let mut text = "controller '".to_owned();
        push_str(&mut text, controller_name);
        push_str(&mut text, "' manifest does not match the locked inputs");
        return Err(BuildError::InvalidControllerImage(text));
    }
    Ok(image)
}

} // verus!
