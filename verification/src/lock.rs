//! `machine.lock` records: pinned packages and compiled controller build
//! inputs, and the shape of versioned interface names.

use vstd::prelude::*;
use crate::flash::{compare_text, text_order};
use crate::package::{RegistrySource, registry_source_problem};
use crate::package::safety::SafeState;
use crate::schema::{is_valid_identifier, valid_identifier};
use crate::text::{
    all_digits, chars_of, decimal, digits_u32, digits_value, find, find_text, has_prefix,
    is_digit, lemma_find_text, push_decimal, push_str, starts_with, str_eq, trim, trimmed,
};

verus! {

/// Current lockfile format version.
pub const LOCK_VERSION: u32 = 5;

pub const CONTROLLER_SAFETY_SCHEMA: &'static str = "dryer.controller-safety/v1";

pub const CONTROLLER_BUILD_SCHEMA: &'static str = "dryer.controller-build-plan/v1";

/// One pinned package.
#[derive(Debug, Clone, PartialEq, Eq)]
pub struct LockedPackage {
    /// `namespace/name@version`.
    pub id: String,
    /// sha256 of the package's `package.yaml` bytes.
    pub manifest_hash: String,
    /// Portable sha256 over every path and regular-file byte in the package;
    /// empty only in a legacy v1 lockfile.
    pub content_hash: String,
}

/// Compiled build inputs of one controller.
#[derive(Debug, Clone, PartialEq, Eq)]
pub struct LockedBuildConfig {
    pub schema: String,
    pub board: String,
    pub chip: String,
    pub target_triple: String,
    pub toolchain: String,
    pub build_profile: String,
    pub protocol_version: String,
    pub abi_version: String,
    pub flash_bytes: u64,
    pub ram_bytes: u64,
    pub bootloader_offset_bytes: u64,
    pub features: Vec<String>,
    pub native_drivers: Vec<String>,
}

pub open spec fn is_interface_name_char(c: char) -> bool {
    ('a' <= c && c <= 'z') || c == '.'
}

/// `name/vN`: a non-empty name of lowercase letters and dots, then `/v` and
/// a decimal version without a leading zero that fits in a `u32`, split at
/// the first `/v`.
pub open spec fn is_versioned_interface(value: Seq<char>) -> bool {
    match find_text(value, "/v"@, 0) {
        None => false,
        Some(k) => {
            let name = value.subrange(0, k);
            let version = value.subrange(k + 2, value.len() as int);
            &&& name.len() > 0
            &&& forall|i: int| 0 <= i < name.len() ==> is_interface_name_char(#[trigger] name[i])
            &&& version.len() > 0
            &&& '1' <= version[0] && version[0] <= '9'
            &&& all_digits(version)
            &&& digits_value(version) <= u32::MAX
        },
    }
}

/// Whether `value` names a versioned interface (`name/vN`).
pub fn versioned_interface(value: &str) -> (valid: bool)
    ensures
        valid == is_versioned_interface(value@),
{
    proof {
        reveal_strlit("/v");
    }
    let k = match find(value, "/v") {
        Some(k) => k,
        None => return false,
    };
    let chars = chars_of(value);
    proof {
        lemma_find_text(value@, "/v"@, 0);
    }
    assert(k + 2 <= chars.len());
    let start: usize = k + 2;
    if k == 0 {
        return false;
    }
    let mut i: usize = 0;
    while i < k
        invariant
            chars@ == value@,
            find_text(value@, "/v"@, 0) == Some(k as int),
            k + 2 <= chars@.len(),
            i <= k,
            forall|j: int| 0 <= j < i ==> is_interface_name_char(#[trigger] value@.subrange(0, k as int)[j]),
        decreases k - i,
    {
        let c = chars[i];
        if !(('a' <= c && c <= 'z') || c == '.') {
            assert(!is_interface_name_char(value@.subrange(0, k as int)[i as int]));
            return false;
        }
        i = i + 1;
    }
    let mut version: Vec<char> = Vec::new();
    let mut j: usize = start;
    while j < chars.len()
        invariant
            chars@ == value@,
            start == k + 2,
            k + 2 <= j <= chars@.len(),
            version@ == value@.subrange(k + 2, j as int),
        decreases chars@.len() - j,
    {
        version.push(chars[j]);
        assert(version@ =~= value@.subrange(k + 2, j + 1));
        j = j + 1;
    }
    if version.len() == 0 {
        return false;
    }
    let first = version[0];
    if !('1' <= first && first <= '9') {
        return false;
    }
    let mut d: usize = 0;
    while d < version.len()
        invariant
            d <= version@.len(),
            forall|m: int| 0 <= m < d ==> is_digit(#[trigger] version@[m]),
            find_text(value@, "/v"@, 0) == Some(k as int),
            version@ == value@.subrange(k + 2, value@.len() as int),
        decreases version@.len() - d,
    {
        let c = version[d];
        if !('0' <= c && c <= '9') {
            assert(!all_digits(version@));
            return false;
        }
        d = d + 1;
    }
    match digits_u32(&version) {
        Some(_) => true,
        None => false,
    }
}

// ---------------------------------------------------------------------------
// The lockfile
// ---------------------------------------------------------------------------

/// A resolved machine, pinned.
#[derive(Debug, Clone, PartialEq, Eq)]
pub struct Lockfile {
    pub lock_version: u32,
    /// sha256 of the exact machine-manifest bytes that resolved.
    pub machine_hash: String,
    /// The resolver that produced this lock.
    pub resolver_version: String,
    /// Present and required from lockfile v5 on.
    pub registry_source: Option<RegistrySource>,
    pub packages: Vec<LockedPackage>,
    /// The safety profile the resolution validated against.
    pub safety_profile: LockedPackage,
    /// Controller id to its locked configuration, in id order.
    pub controllers: Vec<(String, LockedController)>,
}

/// One controller's locked configuration.
#[derive(Debug, Clone, PartialEq, Eq)]
pub struct LockedController {
    pub board: String,
    /// `component/via` to connector id on this controller, in key order.
    pub resolved_resources: Vec<(String, String)>,
    /// Present and required from lockfile v3 on.
    pub safety: Option<LockedSafetyConfig>,
    /// Present and required from lockfile v4 on.
    pub build: Option<LockedBuildConfig>,
}

/// Compiled safety configuration of one controller.
#[derive(Debug, Clone, PartialEq, Eq)]
pub struct LockedSafetyConfig {
    pub schema: String,
    pub states: Vec<LockedSafeState>,
}

/// One safety action bound to a controller-local resource.
#[derive(Debug, Clone, PartialEq, Eq)]
pub struct LockedSafeState {
    pub component: String,
    pub class: String,
    /// Controller-local connector or resource id.
    pub resource: String,
    pub state: SafeState,
    pub heartbeat_timeout_us: Option<u64>,
    /// Controller-local sensor resource when policy requires one.
    pub sensor: Option<String>,
}

/// `lockfile v<N>`.
pub open spec fn version_head(version: u32) -> Seq<char> {
    "lockfile v"@ + decimal(version as nat)
}

/// `lockfile v<N> controller '<name>'`.
pub open spec fn controller_head(version: u32, name: Seq<char>) -> Seq<char> {
    version_head(version) + " controller '"@ + name + "'"@
}

/// Empty after trimming, or surrounded by white space.
pub open spec fn padded(text: Seq<char>) -> bool {
    trimmed(text).len() == 0 || trimmed(text) != text
}

/// The first package without a content hash, as `(index, package)`.
pub open spec fn unhashed_package(packages: Seq<LockedPackage>, from: int) -> Option<int>
    decreases packages.len() - from,
{
    if from < 0 || from >= packages.len() {
        None
    } else if packages[from].content_hash@.len() == 0 {
        Some(from)
    } else {
        unhashed_package(packages, from + 1)
    }
}

/// Content hashes are required from lockfile v2 on.
pub open spec fn content_hash_problem(lock: Lockfile) -> Option<Seq<char>> {
    match unhashed_package(lock.packages@, 0) {
        Some(i) => Some(
            version_head(lock.lock_version) + " package["@ + decimal(i as nat) + "] '"@
                + lock.packages@[i].id@ + "' has no content_hash"@,
        ),
        None => if lock.safety_profile.content_hash@.len() == 0 {
            Some(
                version_head(lock.lock_version) + " safety_profile '"@ + lock.safety_profile.id@
                    + "' has no content_hash"@,
            )
        } else {
            None
        },
    }
}

fn head_string(version: u32) -> (text: String)
    ensures
        text@ == version_head(version),
{
    let mut text = "lockfile v".to_owned();
    push_decimal(&mut text, version as u64);
    text
}

fn controller_string(version: u32, name: &str) -> (text: String)
    ensures
        text@ == controller_head(version, name@),
{
    let mut text = head_string(version);
    push_str(&mut text, " controller '");
    push_str(&mut text, name);
    push_str(&mut text, "'");
    text
}

fn check_content_hashes(lock: &Lockfile) -> (result: Result<(), String>)
    ensures
        match content_hash_problem(*lock) {
            None => result is Ok,
            Some(p) => result matches Err(m) && m@ == p,
        },
{
    let mut i: usize = 0;
    while i < lock.packages.len()
        invariant
            i <= lock.packages@.len(),
            unhashed_package(lock.packages@, 0) == unhashed_package(lock.packages@, i as int),
        decreases lock.packages@.len() - i,
    {
        if lock.packages[i].content_hash.as_str().unicode_len() == 0 {
            let mut m = head_string(lock.lock_version);
            push_str(&mut m, " package[");
            push_decimal(&mut m, i as u64);
            push_str(&mut m, "] '");
            push_str(&mut m, lock.packages[i].id.as_str());
            push_str(&mut m, "' has no content_hash");
            return Err(m);
        }
        i = i + 1;
    }
    if lock.safety_profile.content_hash.as_str().unicode_len() == 0 {
        let mut m = head_string(lock.lock_version);
        push_str(&mut m, " safety_profile '");
        push_str(&mut m, lock.safety_profile.id.as_str());
        push_str(&mut m, "' has no content_hash");
        return Err(m);
    }
    Ok(())
}

/// The resources a controller resolved to.
pub open spec fn resolved_set(controller: LockedController) -> Set<Seq<char>> {
    controller.resolved_resources@.map_values(|p: (String, String)| p.1@).to_set()
}

/// The first problem among safety states, in order, given the resources
/// the controller resolved and those already bound to a state.
pub open spec fn states_problem(
    head: Seq<char>,
    states: Seq<LockedSafeState>,
    resources: Set<Seq<char>>,
    seen: Set<Seq<char>>,
) -> Option<Seq<char>>
    decreases states.len(),
{
    if states.len() == 0 {
        None
    } else {
        let s = states[0];
        if padded(s.component@) || padded(s.class@) {
            Some(head + " has an empty or padded safety component/class"@)
        } else if seen.contains(s.resource@) {
            Some(head + " repeats safety state for physical resource '"@ + s.resource@ + "'"@)
        } else if !resources.contains(s.resource@) {
            Some(head + " safety resource '"@ + s.resource@ + "' is not resolved"@)
        } else if s.sensor matches Some(sensor) && !resources.contains(sensor@) {
            Some(head + " safety sensor '"@ + s.sensor->0@ + "' is not resolved"@)
        } else if s.heartbeat_timeout_us == Some(0u64) {
            Some(head + " safety heartbeat timeout must be positive"@)
        } else {
            states_problem(head, states.drop_first(), resources, seen.insert(s.resource@))
        }
    }
}

/// One controller's compiled safety configuration, checked.
pub open spec fn controller_safety_problem(version: u32, entry: (String, LockedController)) -> Option<
    Seq<char>,
> {
    let head = controller_head(version, entry.0@);
    match entry.1.safety {
        None => Some(head + " has no compiled safety configuration"@),
        Some(safety) => if safety.schema@ != CONTROLLER_SAFETY_SCHEMA@ {
            Some(
                head + " safety schema '"@ + safety.schema@ + "' is not '"@
                    + CONTROLLER_SAFETY_SCHEMA@ + "'"@,
            )
        } else {
            states_problem(head, safety.states@, resolved_set(entry.1), Set::empty())
        },
    }
}

/// The first controller whose safety configuration has a problem.
pub open spec fn controllers_safety_problem(
    version: u32,
    controllers: Seq<(String, LockedController)>,
) -> Option<Seq<char>>
    decreases controllers.len(),
{
    if controllers.len() == 0 {
        None
    } else if controller_safety_problem(version, controllers[0]) is Some {
        controller_safety_problem(version, controllers[0])
    } else {
        controllers_safety_problem(version, controllers.drop_first())
    }
}

/// Compiled safety configuration is required from lockfile v3 on.
pub open spec fn safety_problem(lock: Lockfile) -> Option<Seq<char>> {
    controllers_safety_problem(lock.lock_version, lock.controllers@)
}

fn is_padded(text: &str) -> (result: bool)
    ensures
        result == padded(text@),
{
    let t = trim(text);
    t.unicode_len() == 0 || !str_eq(t, text)
}

fn resolves(controller: &LockedController, resource: &str) -> (found: bool)
    ensures
        found == resolved_set(*controller).contains(resource@),
{
    let pairs = &controller.resolved_resources;
    let ghost values = pairs@.map_values(|p: (String, String)| p.1@);
    let mut i: usize = 0;
    while i < pairs.len()
        invariant
            i <= pairs@.len(),
            pairs@ == controller.resolved_resources@,
            values == pairs@.map_values(|p: (String, String)| p.1@),
            forall|j: int| 0 <= j < i ==> #[trigger] values[j] != resource@,
        decreases pairs@.len() - i,
    {
        if str_eq(pairs[i].1.as_str(), resource) {
            assert(values[i as int] == resource@);
            assert(values.contains(resource@));
            assert(values.to_set().contains(resource@));
            return true;
        }
        i = i + 1;
    }
    proof {
        if values.contains(resource@) {
            let j = choose|j: int| 0 <= j < values.len() && #[trigger] values[j] == resource@;
        }
        assert(!values.to_set().contains(resource@));
    }
    false
}

fn seen_contains(seen: &Vec<&str>, resource: &str) -> (found: bool)
    ensures
        found == seen@.map_values(|s: &str| s@).contains(resource@),
{
    let ghost views = seen@.map_values(|s: &str| s@);
    let mut i: usize = 0;
    while i < seen.len()
        invariant
            i <= seen@.len(),
            views == seen@.map_values(|s: &str| s@),
            forall|j: int| 0 <= j < i ==> #[trigger] views[j] != resource@,
        decreases seen@.len() - i,
    {
        if str_eq(seen[i], resource) {
            assert(views[i as int] == resource@);
            return true;
        }
        i = i + 1;
    }
    proof {
        if views.contains(resource@) {
            let j = choose|j: int| 0 <= j < views.len() && #[trigger] views[j] == resource@;
        }
    }
    false
}

proof fn lemma_views_push_set(v: Seq<&str>, x: &str)
    ensures
        v.push(x).map_values(|s: &str| s@).to_set() =~= v.map_values(|s: &str| s@).to_set().insert(
            x@,
        ),
{
    let a = v.push(x).map_values(|s: &str| s@);
    let b = v.map_values(|s: &str| s@);
    assert(a =~= b.push(x@));
    assert forall|y: Seq<char>| a.to_set().contains(y) <==> b.to_set().insert(x@).contains(y) by {
        if a.contains(y) {
            let k = choose|k: int| 0 <= k < a.len() && #[trigger] a[k] == y;
            if k < b.len() {
                assert(b[k] == y);
            }
        }
        if b.contains(y) {
            let k = choose|k: int| 0 <= k < b.len() && #[trigger] b[k] == y;
            assert(a[k] == y);
        }
        if y == x@ {
            assert(a[b.len() as int] == y);
        }
    }
}

fn check_states(head: &str, controller: &LockedController, states: &Vec<LockedSafeState>) -> (result:
    Result<(), String>)
    ensures
        match states_problem(head@, states@, resolved_set(*controller), Set::empty()) {
            None => result is Ok,
            Some(p) => result matches Err(m) && m@ == p,
        },
{
    let mut seen: Vec<&str> = Vec::new();
    let mut i: usize = 0;
    assert(states@.subrange(0, states@.len() as int) =~= states@);
    assert(seen@.map_values(|s: &str| s@).to_set() =~= Set::<Seq<char>>::empty());
    while i < states.len()
        invariant
            i <= states@.len(),
            states_problem(head@, states@, resolved_set(*controller), Set::empty())
                == states_problem(
                head@,
                states@.subrange(i as int, states@.len() as int),
                resolved_set(*controller),
                seen@.map_values(|s: &str| s@).to_set(),
            ),
        decreases states@.len() - i,
    {
        let ghost rest = states@.subrange(i as int, states@.len() as int);
        let s = &states[i];
        if is_padded(s.component.as_str()) || is_padded(s.class.as_str()) {
            let mut m = head.to_owned();
            push_str(&mut m, " has an empty or padded safety component/class");
            return Err(m);
        }
        if seen_contains(&seen, s.resource.as_str()) {
            let mut m = head.to_owned();
            push_str(&mut m, " repeats safety state for physical resource '");
            push_str(&mut m, s.resource.as_str());
            push_str(&mut m, "'");
            return Err(m);
        }
        if !resolves(controller, s.resource.as_str()) {
            let mut m = head.to_owned();
            push_str(&mut m, " safety resource '");
            push_str(&mut m, s.resource.as_str());
            push_str(&mut m, "' is not resolved");
            return Err(m);
        }
        match &s.sensor {
            Some(sensor) => {
                if !resolves(controller, sensor.as_str()) {
                    let mut m = head.to_owned();
                    push_str(&mut m, " safety sensor '");
                    push_str(&mut m, sensor.as_str());
                    push_str(&mut m, "' is not resolved");
                    return Err(m);
                }
            },
            None => {},
        }
        if s.heartbeat_timeout_us == Some(0u64) {
            let mut m = head.to_owned();
            push_str(&mut m, " safety heartbeat timeout must be positive");
            return Err(m);
        }
        let ghost before = seen@;
        let resource = s.resource.as_str();
        seen.push(resource);
        proof {
            lemma_views_push_set(before, resource);
            assert(rest.drop_first() =~= states@.subrange(i + 1, states@.len() as int));
        }
        i = i + 1;
    }
    Ok(())
}

fn check_controller_safety(version: u32, name: &String, controller: &LockedController) -> (result:
    Result<(), String>)
    ensures
        match controller_safety_problem(version, (*name, *controller)) {
            None => result is Ok,
            Some(p) => result matches Err(m) && m@ == p,
        },
{
    let head = controller_string(version, name.as_str());
    match &controller.safety {
        None => {
            let mut m = head;
            push_str(&mut m, " has no compiled safety configuration");
            Err(m)
        },
        Some(safety) => {
            if !str_eq(safety.schema.as_str(), CONTROLLER_SAFETY_SCHEMA) {
                let mut m = head;
                push_str(&mut m, " safety schema '");
                push_str(&mut m, safety.schema.as_str());
                push_str(&mut m, "' is not '");
                push_str(&mut m, CONTROLLER_SAFETY_SCHEMA);
                push_str(&mut m, "'");
                return Err(m);
            }
            check_states(head.as_str(), controller, &safety.states)
        },
    }
}

fn check_safety(lock: &Lockfile) -> (result: Result<(), String>)
    ensures
        match safety_problem(*lock) {
            None => result is Ok,
            Some(p) => result matches Err(m) && m@ == p,
        },
{
    let controllers = &lock.controllers;
    let mut i: usize = 0;
    assert(controllers@.subrange(0, controllers@.len() as int) =~= controllers@);
    while i < controllers.len()
        invariant
            i <= controllers@.len(),
            controllers@ == lock.controllers@,
            safety_problem(*lock) == controllers_safety_problem(
                lock.lock_version,
                controllers@.subrange(i as int, controllers@.len() as int),
            ),
        decreases controllers@.len() - i,
    {
        let ghost rest = controllers@.subrange(i as int, controllers@.len() as int);
        match check_controller_safety(lock.lock_version, &controllers[i].0, &controllers[i].1) {
            Ok(()) => {},
            Err(m) => {
                proof {
                    assert(rest[0] == controllers@[i as int]);
                }
                return Err(m);
            },
        }
        proof {
            assert(rest[0] == controllers@[i as int]);
            assert(rest.drop_first() =~= controllers@.subrange(i + 1, controllers@.len() as int));
        }
        i = i + 1;
    }
    Ok(())
}

/// The ids of the pinned packages.
pub open spec fn package_ids(lock: Lockfile) -> Set<Seq<char>> {
    lock.packages@.map_values(|p: LockedPackage| p.id@).to_set()
}

/// The packages a build names: board, chip, then native drivers.
pub open spec fn build_inputs(build: LockedBuildConfig) -> Seq<Seq<char>> {
    seq![build.board@, build.chip@] + build.native_drivers@.map_values(|s: String| s@)
}

/// The first input that is not pinned.
pub open spec fn first_unpinned(inputs: Seq<Seq<char>>, packages: Set<Seq<char>>) -> Option<
    Seq<char>,
>
    decreases inputs.len(),
{
    if inputs.len() == 0 {
        None
    } else if !packages.contains(inputs[0]) {
        Some(inputs[0])
    } else {
        first_unpinned(inputs.drop_first(), packages)
    }
}

/// Empty, or surrounded by white space.
pub open spec fn blank_or_padded(text: Seq<char>) -> bool {
    text.len() == 0 || trimmed(text) != text
}

/// The first build text field that is empty or padded, by name.
pub open spec fn padded_build_field(build: LockedBuildConfig) -> Option<Seq<char>> {
    if blank_or_padded(build.target_triple@) {
        Some("target_triple"@)
    } else if blank_or_padded(build.toolchain@) {
        Some("toolchain"@)
    } else if blank_or_padded(build.build_profile@) {
        Some("build_profile"@)
    } else if blank_or_padded(build.protocol_version@) {
        Some("protocol_version"@)
    } else if blank_or_padded(build.abi_version@) {
        Some("abi_version"@)
    } else {
        None
    }
}

/// Each value sorts strictly before the next.
pub open spec fn strictly_sorted(values: Seq<String>) -> bool {
    forall|i: int|
        0 <= i < values.len() - 1 ==> #[trigger] text_order(values[i]@, values[i + 1]@) < 0
}

/// One controller's compiled build configuration, checked.
pub open spec fn controller_build_problem(
    version: u32,
    entry: (String, LockedController),
    packages: Set<Seq<char>>,
) -> Option<Seq<char>> {
    let head = controller_head(version, entry.0@);
    match entry.1.build {
        None => Some(head + " has no compiled build configuration"@),
        Some(b) => if b.schema@ != CONTROLLER_BUILD_SCHEMA@ {
            Some(
                head + " build schema '"@ + b.schema@ + "' is not '"@ + CONTROLLER_BUILD_SCHEMA@
                    + "'"@,
            )
        } else if !has_prefix(b.board@, entry.1.board@ + "@"@) {
            Some(head + " build board '"@ + b.board@ + "' does not pin '"@ + entry.1.board@ + "'"@)
        } else if first_unpinned(build_inputs(b), packages) is Some {
            Some(
                head + " build input '"@ + first_unpinned(build_inputs(b), packages)->0
                    + "' is not in packages"@,
            )
        } else if padded_build_field(b) is Some {
            Some(head + " build "@ + padded_build_field(b)->0 + " is empty or padded"@)
        } else if !is_versioned_interface(b.protocol_version@) {
            Some(head + " build protocol_version is not a versioned interface"@)
        } else if !is_versioned_interface(b.abi_version@) {
            Some(head + " build abi_version is not a versioned interface"@)
        } else if b.flash_bytes == 0 || b.ram_bytes == 0 || b.bootloader_offset_bytes
            >= b.flash_bytes {
            Some(head + " has invalid build memory layout"@)
        } else if !strictly_sorted(b.features@) {
            Some(head + " build features must be sorted and unique"@)
        } else if !strictly_sorted(b.native_drivers@) {
            Some(head + " build native_drivers must be sorted and unique"@)
        } else if exists|i: int|
            0 <= i < b.features@.len() && !is_valid_identifier(#[trigger] b.features@[i]@) {
            Some(head + " build features contain an invalid identifier"@)
        } else {
            None
        }
    }
}

/// The first controller whose build configuration has a problem.
pub open spec fn controllers_build_problem(
    version: u32,
    controllers: Seq<(String, LockedController)>,
    packages: Set<Seq<char>>,
) -> Option<Seq<char>>
    decreases controllers.len(),
{
    if controllers.len() == 0 {
        None
    } else if controller_build_problem(version, controllers[0], packages) is Some {
        controller_build_problem(version, controllers[0], packages)
    } else {
        controllers_build_problem(version, controllers.drop_first(), packages)
    }
}

/// Compiled build configuration is required from lockfile v4 on.
pub open spec fn build_problem(lock: Lockfile) -> Option<Seq<char>> {
    controllers_build_problem(lock.lock_version, lock.controllers@, package_ids(lock))
}

fn pinned(lock: &Lockfile, id: &str) -> (found: bool)
    ensures
        found == package_ids(*lock).contains(id@),
{
    let ghost ids = lock.packages@.map_values(|p: LockedPackage| p.id@);
    let mut i: usize = 0;
    while i < lock.packages.len()
        invariant
            i <= lock.packages@.len(),
            ids == lock.packages@.map_values(|p: LockedPackage| p.id@),
            forall|j: int| 0 <= j < i ==> #[trigger] ids[j] != id@,
        decreases lock.packages@.len() - i,
    {
        if str_eq(lock.packages[i].id.as_str(), id) {
            assert(ids[i as int] == id@);
            assert(ids.contains(id@));
            assert(ids.to_set().contains(id@));
            return true;
        }
        i = i + 1;
    }
    proof {
        if ids.contains(id@) {
            let j = choose|j: int| 0 <= j < ids.len() && #[trigger] ids[j] == id@;
        }
        assert(!ids.to_set().contains(id@));
    }
    false
}

fn check_inputs(lock: &Lockfile, head: &str, build: &LockedBuildConfig) -> (result: Result<(), String>)
    ensures
        match first_unpinned(build_inputs(*build), package_ids(*lock)) {
            None => result is Ok,
            Some(p) => result matches Err(m) && m@ == head@ + " build input '"@ + p
                + "' is not in packages"@,
        },
{
    let ghost inputs = build_inputs(*build);
    let ghost packages = package_ids(*lock);
    if !pinned(lock, build.board.as_str()) {
        let mut m = head.to_owned();
        push_str(&mut m, " build input '");
        push_str(&mut m, build.board.as_str());
        push_str(&mut m, "' is not in packages");
        return Err(m);
    }
    proof {
        assert(inputs[0] == build.board@);
        assert(first_unpinned(inputs, packages) == first_unpinned(inputs.drop_first(), packages));
    }
    if !pinned(lock, build.chip.as_str()) {
        proof {
            assert(inputs.drop_first()[0] == build.chip@);
        }
        let mut m = head.to_owned();
        push_str(&mut m, " build input '");
        push_str(&mut m, build.chip.as_str());
        push_str(&mut m, "' is not in packages");
        return Err(m);
    }
    let drivers = &build.native_drivers;
    let ghost dv = drivers@.map_values(|s: String| s@);
    proof {
        assert(inputs.drop_first()[0] == build.chip@);
        assert(first_unpinned(inputs.drop_first(), packages) == first_unpinned(
            inputs.drop_first().drop_first(),
            packages,
        ));
        assert(inputs.drop_first().drop_first() =~= dv);
    }
    let mut i: usize = 0;
    assert(dv.subrange(0, dv.len() as int) =~= dv);
    while i < drivers.len()
        invariant
            i <= drivers@.len(),
            dv == drivers@.map_values(|s: String| s@),
            dv == build.native_drivers@.map_values(|s: String| s@),
            first_unpinned(build_inputs(*build), package_ids(*lock)) == first_unpinned(
                dv.subrange(i as int, dv.len() as int),
                package_ids(*lock),
            ),
        decreases drivers@.len() - i,
    {
        let ghost rest = dv.subrange(i as int, dv.len() as int);
        if !pinned(lock, drivers[i].as_str()) {
            proof {
                assert(rest[0] == drivers@[i as int]@);
            }
            let mut m = head.to_owned();
            push_str(&mut m, " build input '");
            push_str(&mut m, drivers[i].as_str());
            push_str(&mut m, "' is not in packages");
            return Err(m);
        }
        proof {
            assert(rest[0] == drivers@[i as int]@);
            assert(rest.drop_first() =~= dv.subrange(i + 1, dv.len() as int));
        }
        i = i + 1;
    }
    Ok(())
}

fn blank_or_padded_text(text: &str) -> (result: bool)
    ensures
        result == blank_or_padded(text@),
{
    text.unicode_len() == 0 || !str_eq(trim(text), text)
}

fn padded_field_name(build: &LockedBuildConfig) -> (name: Option<&'static str>)
    ensures
        match padded_build_field(*build) {
            None => name is None,
            Some(f) => name matches Some(n) && n@ == f,
        },
{
    if blank_or_padded_text(build.target_triple.as_str()) {
        Some("target_triple")
    } else if blank_or_padded_text(build.toolchain.as_str()) {
        Some("toolchain")
    } else if blank_or_padded_text(build.build_profile.as_str()) {
        Some("build_profile")
    } else if blank_or_padded_text(build.protocol_version.as_str()) {
        Some("protocol_version")
    } else if blank_or_padded_text(build.abi_version.as_str()) {
        Some("abi_version")
    } else {
        None
    }
}

fn is_strictly_sorted(values: &Vec<String>) -> (sorted: bool)
    ensures
        sorted == strictly_sorted(values@),
{
    if values.len() < 2 {
        return true;
    }
    let last = values.len() - 1;
    let mut i: usize = 0;
    while i < last
        invariant
            values@.len() >= 2,
            last == values@.len() - 1,
            i <= last,
            forall|j: int| 0 <= j < i ==> #[trigger] text_order(values@[j]@, values@[j + 1]@) < 0,
        decreases values@.len() - i,
    {
        if compare_text(values[i].as_str(), values[i + 1].as_str()) >= 0 {
            return false;
        }
        i = i + 1;
    }
    true
}

fn all_identifiers(values: &Vec<String>) -> (valid: bool)
    ensures
        valid == !(exists|i: int| 0 <= i < values@.len() && !is_valid_identifier(#[trigger] values@[i]@)),
{
    let mut i: usize = 0;
    while i < values.len()
        invariant
            i <= values@.len(),
            forall|j: int| 0 <= j < i ==> is_valid_identifier(#[trigger] values@[j]@),
        decreases values@.len() - i,
    {
        if !valid_identifier(values[i].as_str()) {
            return false;
        }
        i = i + 1;
    }
    true
}

fn check_controller_build(lock: &Lockfile, name: &String, controller: &LockedController) -> (result:
    Result<(), String>)
    ensures
        match controller_build_problem(lock.lock_version, (*name, *controller), package_ids(*lock)) {
            None => result is Ok,
            Some(p) => result matches Err(m) && m@ == p,
        },
{
    let head = controller_string(lock.lock_version, name.as_str());
    let build = match &controller.build {
        None => {
            let mut m = head;
            push_str(&mut m, " has no compiled build configuration");
            return Err(m);
        },
        Some(b) => b,
    };
    if !str_eq(build.schema.as_str(), CONTROLLER_BUILD_SCHEMA) {
        let mut m = head;
        push_str(&mut m, " build schema '");
        push_str(&mut m, build.schema.as_str());
        push_str(&mut m, "' is not '");
        push_str(&mut m, CONTROLLER_BUILD_SCHEMA);
        push_str(&mut m, "'");
        return Err(m);
    }
    let mut pin = controller.board.clone();
    push_str(&mut pin, "@");
    if !starts_with(build.board.as_str(), pin.as_str()) {
        let mut m = head;
        push_str(&mut m, " build board '");
        push_str(&mut m, build.board.as_str());
        push_str(&mut m, "' does not pin '");
        push_str(&mut m, controller.board.as_str());
        push_str(&mut m, "'");
        return Err(m);
    }
    match check_inputs(lock, head.as_str(), build) {
        Ok(()) => {},
        Err(m) => return Err(m),
    }
    match padded_field_name(build) {
        Some(field) => {
            let mut m = head;
            push_str(&mut m, " build ");
            push_str(&mut m, field);
            push_str(&mut m, " is empty or padded");
            return Err(m);
        },
        None => {},
    }
    if !versioned_interface(build.protocol_version.as_str()) {
        let mut m = head;
        push_str(&mut m, " build protocol_version is not a versioned interface");
        return Err(m);
    }
    if !versioned_interface(build.abi_version.as_str()) {
        let mut m = head;
        push_str(&mut m, " build abi_version is not a versioned interface");
        return Err(m);
    }
    if build.flash_bytes == 0 || build.ram_bytes == 0 || build.bootloader_offset_bytes
        >= build.flash_bytes {
        let mut m = head;
        push_str(&mut m, " has invalid build memory layout");
        return Err(m);
    }
    if !is_strictly_sorted(&build.features) {
        let mut m = head;
        push_str(&mut m, " build features must be sorted and unique");
        return Err(m);
    }
    if !is_strictly_sorted(&build.native_drivers) {
        let mut m = head;
        push_str(&mut m, " build native_drivers must be sorted and unique");
        return Err(m);
    }
    if !all_identifiers(&build.features) {
        let mut m = head;
        push_str(&mut m, " build features contain an invalid identifier");
        return Err(m);
    }
    Ok(())
}

fn check_builds(lock: &Lockfile) -> (result: Result<(), String>)
    ensures
        match build_problem(*lock) {
            None => result is Ok,
            Some(p) => result matches Err(m) && m@ == p,
        },
{
    let controllers = &lock.controllers;
    let mut i: usize = 0;
    assert(controllers@.subrange(0, controllers@.len() as int) =~= controllers@);
    while i < controllers.len()
        invariant
            i <= controllers@.len(),
            controllers@ == lock.controllers@,
            build_problem(*lock) == controllers_build_problem(
                lock.lock_version,
                controllers@.subrange(i as int, controllers@.len() as int),
                package_ids(*lock),
            ),
        decreases controllers@.len() - i,
    {
        let ghost rest = controllers@.subrange(i as int, controllers@.len() as int);
        match check_controller_build(lock, &controllers[i].0, &controllers[i].1) {
            Ok(()) => {},
            Err(m) => {
                proof {
                    assert(rest[0] == controllers@[i as int]);
                }
                return Err(m);
            },
        }
        proof {
            assert(rest[0] == controllers@[i as int]);
            assert(rest.drop_first() =~= controllers@.subrange(i + 1, controllers@.len() as int));
        }
        i = i + 1;
    }
    Ok(())
}

/// The first version-specific invariant a lockfile breaks: content hashes
/// from v2, compiled safety from v3, compiled build inputs from v4, and a
/// valid registry source identity from v5.
pub open spec fn lock_problem(lock: Lockfile) -> Option<Seq<char>> {
    if lock.lock_version >= 2 && content_hash_problem(lock) is Some {
        content_hash_problem(lock)
    } else if lock.lock_version >= 3 && safety_problem(lock) is Some {
        safety_problem(lock)
    } else if lock.lock_version >= 4 && build_problem(lock) is Some {
        build_problem(lock)
    } else if lock.lock_version >= 5 {
        match lock.registry_source {
            None => Some(version_head(lock.lock_version) + " has no registry source identity"@),
            Some(source) => match registry_source_problem(source) {
                Some(e) => Some(
                    version_head(lock.lock_version) + " has invalid registry source identity: "@
                        + e,
                ),
                None => None,
            },
        }
    } else {
        None
    }
}

impl Lockfile {
    /// Checks the version-specific invariants before downstream artifact
    /// work; the first broken one is reported.
    pub fn validate(&self) -> (result: Result<(), String>)
        ensures
            match lock_problem(*self) {
                None => result is Ok,
                Some(p) => result matches Err(m) && m@ == p,
            },
    {
        if self.lock_version >= 2 {
            match check_content_hashes(self) {
                Ok(()) => {},
                Err(m) => return Err(m),
            }
        }
        if self.lock_version >= 3 {
            match check_safety(self) {
                Ok(()) => {},
                Err(m) => return Err(m),
            }
        }
        if self.lock_version >= 4 {
            match check_builds(self) {
                Ok(()) => {},
                Err(m) => return Err(m),
            }
        }
        if self.lock_version >= 5 {
            let source = match &self.registry_source {
                None => {
                    let mut m = head_string(self.lock_version);
                    push_str(&mut m, " has no registry source identity");
                    return Err(m);
                },
                Some(source) => source,
            };
            match source.validate() {
                Ok(()) => {},
                Err(e) => {
                    let mut m = head_string(self.lock_version);
                    push_str(&mut m, " has invalid registry source identity: ");
                    push_str(&mut m, e.as_str());
                    return Err(m);
                },
            }
        }
        Ok(())
    }
}

proof fn lemma_all_hashed(packages: Seq<LockedPackage>, from: int)
    requires
        0 <= from,
        unhashed_package(packages, from) is None,
    ensures
        forall|i: int| from <= i < packages.len() ==> (#[trigger] packages[i]).content_hash@.len() > 0,
    decreases packages.len() - from,
{
    if from < packages.len() {
        lemma_all_hashed(packages, from + 1);
    }
}

/// What a controller's valid safety configuration promises: the current
/// schema, each state on a distinct resource the controller resolved, and
/// no zero heartbeat timeout.
pub open spec fn safety_promises(controller: LockedController) -> bool {
    controller.safety matches Some(safety) && {
        let states = safety.states@;
        &&& safety.schema@ == CONTROLLER_SAFETY_SCHEMA@
        &&& forall|i: int|
            0 <= i < states.len() ==> resolved_set(controller).contains((#[trigger] states[i]).resource@)
                && states[i].heartbeat_timeout_us != Some(0u64)
        &&& forall|i: int, j: int|
            0 <= i < j < states.len() ==> (#[trigger] states[i]).resource@ != (#[trigger] states[j]).resource@
    }
}

proof fn lemma_states_promise(
    head: Seq<char>,
    states: Seq<LockedSafeState>,
    resources: Set<Seq<char>>,
    seen: Set<Seq<char>>,
)
    requires
        states_problem(head, states, resources, seen) is None,
    ensures
        forall|i: int|
            0 <= i < states.len() ==> resources.contains((#[trigger] states[i]).resource@)
                && states[i].heartbeat_timeout_us != Some(0u64) && !seen.contains(states[i].resource@),
        forall|i: int, j: int|
            0 <= i < j < states.len() ==> (#[trigger] states[i]).resource@ != (#[trigger] states[j]).resource@,
    decreases states.len(),
{
    if states.len() > 0 {
        let first = states[0];
        let rest = states.drop_first();
        lemma_states_promise(head, rest, resources, seen.insert(first.resource@));
        assert forall|i: int|
            0 <= i < states.len() implies resources.contains((#[trigger] states[i]).resource@)
                && states[i].heartbeat_timeout_us != Some(0u64) && !seen.contains(states[i].resource@) by {
            if i > 0 {
                assert(states[i] == rest[i - 1]);
            }
        }
        assert forall|i: int, j: int|
            0 <= i < j < states.len() implies (#[trigger] states[i]).resource@ != (#[trigger] states[j]).resource@ by {
            assert(states[j] == rest[j - 1]);
            if i > 0 {
                assert(states[i] == rest[i - 1]);
            } else {
                assert(!seen.insert(first.resource@).contains(rest[j - 1].resource@));
            }
        }
    }
}

proof fn lemma_all_safe(version: u32, controllers: Seq<(String, LockedController)>)
    requires
        controllers_safety_problem(version, controllers) is None,
    ensures
        forall|i: int| 0 <= i < controllers.len() ==> safety_promises((#[trigger] controllers[i]).1),
    decreases controllers.len(),
{
    if controllers.len() > 0 {
        lemma_all_safe(version, controllers.drop_first());
        let first = controllers[0];
        if let Some(safety) = first.1.safety {
            if safety.schema@ == CONTROLLER_SAFETY_SCHEMA@ {
                lemma_states_promise(
                    controller_head(version, first.0@),
                    safety.states@,
                    resolved_set(first.1),
                    Set::empty(),
                );
            }
        }
        assert forall|i: int| 0 <= i < controllers.len() implies safety_promises((#[trigger] controllers[i]).1) by {
            if i > 0 {
                assert(controllers[i] == controllers.drop_first()[i - 1]);
            }
        }
    }
}

/// What a valid lockfile promises by version: from v2 every pinned package
/// and the safety profile carry a content hash; from v3 every controller
/// carries a compiled safety configuration of the current schema whose
/// states sit on distinct resolved resources with no zero heartbeat
/// timeout; from v4
/// every controller carries a build configuration of the current schema
/// with a usable memory layout (flash and RAM present, the bootloader
/// offset inside flash) and strictly ascending features and native
/// drivers; from v5 a valid registry source identity is present.
pub proof fn valid_locks_keep_their_version_promises(lock: Lockfile)
    requires
        lock_problem(lock) is None,
    ensures
        lock.lock_version >= 2 ==> (forall|i: int|
            0 <= i < lock.packages@.len() ==> (#[trigger] lock.packages@[i]).content_hash@.len() > 0)
            && lock.safety_profile.content_hash@.len() > 0,
        lock.lock_version >= 3 ==> forall|i: int|
            0 <= i < lock.controllers@.len() ==> safety_promises((#[trigger] lock.controllers@[i]).1),
        lock.lock_version >= 4 ==> forall|i: int|
            0 <= i < lock.controllers@.len() ==> ((#[trigger] lock.controllers@[i]).1.build matches Some(
                b,
            ) && build_promises(b)),
        lock.lock_version >= 5 ==> (lock.registry_source matches Some(source)
            && registry_source_problem(source) is None),
{
    if lock.lock_version >= 2 {
        lemma_all_hashed(lock.packages@, 0);
    }
    if lock.lock_version >= 3 {
        lemma_all_safe(lock.lock_version, lock.controllers@);
    }
    if lock.lock_version >= 4 {
        lemma_all_built(lock.lock_version, lock.controllers@, package_ids(lock));
    }
}

/// What a controller's valid build configuration promises.
pub open spec fn build_promises(b: LockedBuildConfig) -> bool {
    &&& b.schema@ == CONTROLLER_BUILD_SCHEMA@
    &&& b.flash_bytes > 0
    &&& b.ram_bytes > 0
    &&& b.bootloader_offset_bytes < b.flash_bytes
    &&& strictly_sorted(b.features@)
    &&& strictly_sorted(b.native_drivers@)
}

proof fn lemma_all_built(
    version: u32,
    controllers: Seq<(String, LockedController)>,
    packages: Set<Seq<char>>,
)
    requires
        controllers_build_problem(version, controllers, packages) is None,
    ensures
        forall|i: int|
            0 <= i < controllers.len() ==> ((#[trigger] controllers[i]).1.build matches Some(b)
                && build_promises(b)),
    decreases controllers.len(),
{
    if controllers.len() > 0 {
        lemma_all_built(version, controllers.drop_first(), packages);
        assert forall|i: int| 0 <= i < controllers.len() implies (#[trigger] controllers[i]).1.build matches Some(
            b,
        ) && build_promises(b) by {
            if i > 0 {
                assert(controllers[i] == controllers.drop_first()[i - 1]);
            }
        }
    }
}

} // verus!
