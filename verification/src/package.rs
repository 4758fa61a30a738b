//! Package identity and references, registry provenance, snapshot digests,
//! and the kind-specific package payloads.

pub mod board;
pub mod chip;
pub mod device;
pub mod machine;
pub mod safety;
pub mod workflow;

use vstd::prelude::*;
use crate::digest::{sha256, sha256_label};
use crate::schema::{is_valid_identifier, valid_identifier};
use crate::text::{
    chars_of, find_text, has_infix, has_prefix, push_char, push_str, split_at_first, split_once,
    starts_with, str_eq, trim, trimmed,
};

verus! {

pub const REGISTRY_DESCRIPTOR_SCHEMA: &'static str = "dryer.registry/v1";

pub const REGISTRY_SOURCE_SCHEMA: &'static str = "dryer.registry-source/v1";

// ---------------------------------------------------------------------------
// Semantic versions
// ---------------------------------------------------------------------------

#[verifier::external_type_specification]
#[verifier::external_body]
pub struct ExVersion(semver::Version);

#[verifier::external_type_specification]
#[verifier::external_body]
pub struct ExVersionReq(semver::VersionReq);

#[verifier::external_type_specification]
#[verifier::external_body]
pub struct ExSemverError(semver::Error);

/// What `semver::Version::parse` gives for a text.
pub uninterp spec fn version_parse(text: Seq<char>) -> Result<semver::Version, semver::Error>;

/// What `semver::VersionReq::parse` gives for a text.
pub uninterp spec fn requirement_parse(text: Seq<char>) -> Result<semver::VersionReq, semver::Error>;

/// The text `<semver::Error as Display>` writes for an error.
pub uninterp spec fn error_display(error: semver::Error) -> Seq<char>;

/// The text `<semver::Version as Display>` writes for a version.
pub uninterp spec fn version_display(version: semver::Version) -> Seq<char>;

/// The text is a semantic version.
pub open spec fn is_semver(text: Seq<char>) -> bool {
    version_parse(text) is Ok
}

/// The text is a semantic version requirement.
pub open spec fn is_semver_requirement(text: Seq<char>) -> bool {
    requirement_parse(text) is Ok
}

/// `semver::Version::parse`; its result is `version_parse` of the text.
#[verifier::external_body]
fn parse_version(text: &str) -> (result: Result<semver::Version, semver::Error>)
    ensures
        result == version_parse(text@),
{
    semver::Version::parse(text)
}

/// `semver::VersionReq::parse`; its result is `requirement_parse` of the
/// text.
#[verifier::external_body]
fn parse_version_req(text: &str) -> (result: Result<semver::VersionReq, semver::Error>)
    ensures
        result == requirement_parse(text@),
{
    semver::VersionReq::parse(text)
}

/// `<semver::Version as Clone>::clone`: the copy holds the same version
/// (the same numbers and the same pre-release and build identifiers, which
/// is what semver's `==` compares).
pub assume_specification[ <semver::Version as Clone>::clone ](version: &semver::Version) -> (copy:
    semver::Version)
    ensures
        copy == *version,
;

/// `<semver::VersionReq as Clone>::clone`: the copy holds the same
/// comparators, which is what semver's `==` compares.
pub assume_specification[ <semver::VersionReq as Clone>::clone ](requirement: &semver::VersionReq) -> (copy:
    semver::VersionReq)
    ensures
        copy == *requirement,
;

/// The precedence `<semver::Version as Ord>::cmp` gives two versions:
/// negative, zero or positive as the first sorts before, with or after the
/// second.
pub uninterp spec fn version_order(a: semver::Version, b: semver::Version) -> i8;

/// Whether `semver::VersionReq::matches` accepts a version.
pub uninterp spec fn requirement_matches(requirement: semver::VersionReq, version: semver::Version) -> bool;

/// The text `<semver::VersionReq as Display>` writes for a requirement.
pub uninterp spec fn requirement_display(requirement: semver::VersionReq) -> Seq<char>;

/// `<semver::Version as Ord>::cmp`, as -1, 0 or 1: `version_order` of
/// the two versions. semver derives `Ord` and `Eq` together (its
/// `Prerelease` and `BuildMetadata` orders are written by hand as total
/// orders), so the order is a total order: antisymmetric, 0 exactly for
/// equal versions, and transitive — whatever sorts at or below the lower
/// of the two sorts at or below the higher, and whatever sorts at or above
/// the higher sorts at or above the lower.
#[verifier::external_body]
pub(crate) fn compare_versions(a: &semver::Version, b: &semver::Version) -> (order: i8)
    ensures
        order == version_order(*a, *b),
        -1 <= order <= 1,
        order == -version_order(*b, *a),
        order == 0 <==> *a == *b,
        order <= 0 ==> forall|c: semver::Version|
            #[trigger] version_order(c, *a) <= 0 ==> version_order(c, *b) <= 0,
        order <= 0 ==> forall|c: semver::Version|
            #[trigger] version_order(*b, c) <= 0 ==> version_order(*a, c) <= 0,
        order >= 0 ==> forall|c: semver::Version|
            #[trigger] version_order(c, *b) <= 0 ==> version_order(c, *a) <= 0,
        order >= 0 ==> forall|c: semver::Version|
            #[trigger] version_order(*a, c) <= 0 ==> version_order(*b, c) <= 0,
{
    match a.cmp(b) {
        std::cmp::Ordering::Less => -1,
        std::cmp::Ordering::Equal => 0,
        std::cmp::Ordering::Greater => 1,
    }
}

/// `<semver::Version as PartialEq>::eq`: whether the two are the same
/// version.
#[verifier::external_body]
pub(crate) fn versions_equal(a: &semver::Version, b: &semver::Version) -> (equal: bool)
    ensures
        equal == (*a == *b),
{
    a == b
}

/// `<semver::VersionReq as PartialEq>::eq`: whether the two are the same
/// requirement.
#[verifier::external_body]
pub(crate) fn requirements_equal(a: &semver::VersionReq, b: &semver::VersionReq) -> (equal: bool)
    ensures
        equal == (*a == *b),
{
    a == b
}

/// `semver::VersionReq::matches`: `requirement_matches` of the two.
#[verifier::external_body]
pub(crate) fn requirement_accepts(requirement: &semver::VersionReq, version: &semver::Version) -> (accepted: bool)
    ensures
        accepted == requirement_matches(*requirement, *version),
{
    requirement.matches(version)
}

/// `<semver::VersionReq as Display>`: the requirement's text,
/// `requirement_display` of it.
#[verifier::external_body]
pub(crate) fn requirement_text(requirement: &semver::VersionReq) -> (text: String)
    ensures
        text@ == requirement_display(*requirement),
{
    format!("{requirement}")
}

/// `<semver::Error as Display>`: the error's text, `error_display` of it.
#[verifier::external_body]
fn semver_error_text(error: &semver::Error) -> (text: String)
    ensures
        text@ == error_display(*error),
{
    format!("{error}")
}

/// `<semver::Version as Display>`: the version's text, `version_display`
/// of it.
#[verifier::external_body]
pub(crate) fn version_text(version: &semver::Version) -> (text: String)
    ensures
        text@ == version_display(*version),
{
    format!("{version}")
}

// ---------------------------------------------------------------------------
// Registry provenance
// ---------------------------------------------------------------------------

/// Portable provenance of a loaded registry; `descriptor_hash` binds the
/// exact `registry.yaml` bytes.
#[derive(Debug, Clone, PartialEq, Eq)]
pub struct RegistrySource {
    pub schema: String,
    pub id: String,
    pub uri: String,
    pub descriptor_hash: String,
}

/// `u8::is_ascii_whitespace` on the character's byte.
pub open spec fn is_ascii_white_space(c: char) -> bool {
    c == ' ' || c == '\t' || c == '\n' || c == '\x0C' || c == '\r'
}

/// A character allowed in a URI scheme at position `index`.
pub open spec fn scheme_char_ok(c: char, index: int) -> bool {
    ('a' <= c && c <= 'z') || (index > 0 && (('0' <= c && c <= '9') || c == '+' || c == '-' || c
        == '.'))
}

/// A portable absolute URI: non-empty, no white space or backslash, a
/// scheme of lowercase letters (then digits, `+`, `-`, `.`) other than
/// `file`, and a non-empty location after the first `:`.
pub open spec fn is_portable_registry_uri(uri: Seq<char>) -> bool {
    &&& uri.len() > 0
    &&& trimmed(uri) == uri
    &&& forall|i: int| 0 <= i < uri.len() ==> !is_ascii_white_space(#[trigger] uri[i])
    &&& !has_infix(uri, seq!['\\'])
    &&& match split_at_first(uri, seq![':']) {
        None => false,
        Some((scheme, location)) => {
            &&& location.len() > 0
            &&& scheme != "file"@
            &&& forall|i: int| 0 <= i < scheme.len() ==> scheme_char_ok(#[trigger] scheme[i], i)
        },
    }
}

/// Whether `uri` is a portable absolute registry URI.
pub fn portable_registry_uri(uri: &str) -> (portable: bool)
    ensures
        portable == is_portable_registry_uri(uri@),
{
    let chars = chars_of(uri);
    if chars.len() == 0 || !str_eq(trim(uri), uri) {
        return false;
    }
    let mut i: usize = 0;
    while i < chars.len()
        invariant
            chars@ == uri@,
            i <= chars@.len(),
            forall|k: int| 0 <= k < i ==> !is_ascii_white_space(#[trigger] uri@[k]),
        decreases chars@.len() - i,
    {
        let c = chars[i];
        if c == ' ' || c == '\t' || c == '\n' || c == '\x0C' || c == '\r' {
            return false;
        }
        i = i + 1;
    }
    let mut backslash = String::new();
    push_char(&mut backslash, '\\');
    if crate::text::contains(uri, backslash.as_str()) {
        return false;
    }
    let mut colon = String::new();
    push_char(&mut colon, ':');
    assert(backslash@ =~= seq!['\\']);
    assert(colon@ =~= seq![':']);
    let (scheme, location) = match split_once(uri, colon.as_str()) {
        Some(parts) => parts,
        None => return false,
    };
    if location.unicode_len() == 0 || str_eq(scheme, "file") {
        return false;
    }
    let sc = chars_of(scheme);
    let mut j: usize = 0;
    while j < sc.len()
        invariant
            sc@ == scheme@,
            j <= sc@.len(),
            split_at_first(uri@, seq![':']) == Some((scheme@, location@)),
            location@.len() > 0,
            scheme@ != "file"@,
            uri@.len() > 0,
            trimmed(uri@) == uri@,
            forall|k: int| 0 <= k < uri@.len() ==> !is_ascii_white_space(#[trigger] uri@[k]),
            !has_infix(uri@, seq!['\\']),
            forall|k: int| 0 <= k < j ==> scheme_char_ok(#[trigger] scheme@[k], k),
        decreases sc@.len() - j,
    {
        let c = sc[j];
        let ok = ('a' <= c && c <= 'z') || (j > 0 && (('0' <= c && c <= '9') || c == '+' || c
            == '-' || c == '.'));
        if !ok {
            assert(!scheme_char_ok(scheme@[j as int], j as int));
            return false;
        }
        j = j + 1;
    }
    true
}

pub open spec fn is_lower_hex_char(c: char) -> bool {
    ('0' <= c && c <= '9') || ('a' <= c && c <= 'f')
}

/// `sha256:` followed by exactly 64 lowercase hexadecimal digits.
pub open spec fn is_sha256_label(value: Seq<char>) -> bool {
    &&& has_prefix(value, "sha256:"@)
    &&& value.len() == "sha256:"@.len() + 64
    &&& forall|i: int|
        "sha256:"@.len() <= i < value.len() ==> is_lower_hex_char(#[trigger] value[i])
}

/// Whether `value` is a lowercase `sha256:` digest label.
pub fn valid_sha256(value: &str) -> (valid: bool)
    ensures
        valid == is_sha256_label(value@),
{
    proof {
        reveal_strlit("sha256:");
    }
    if !starts_with(value, "sha256:") {
        return false;
    }
    let chars = chars_of(value);
    if chars.len() != 71 {
        return false;
    }
    let mut i: usize = 7;
    while i < chars.len()
        invariant
            chars@ == value@,
            "sha256:"@.len() == 7,
            7 <= i <= chars@.len(),
            forall|k: int| 7 <= k < i ==> is_lower_hex_char(#[trigger] value@[k]),
        decreases chars@.len() - i,
    {
        let c = chars[i];
        if !(('0' <= c && c <= '9') || ('a' <= c && c <= 'f')) {
            assert(!is_lower_hex_char(value@[i as int]));
            return false;
        }
        i = i + 1;
    }
    true
}

/// Why a registry source is not valid, checked in order, or none.
pub open spec fn registry_source_problem(source: RegistrySource) -> Option<Seq<char>> {
    if source.schema@ != REGISTRY_SOURCE_SCHEMA@ {
        Some(
            "registry source schema '"@ + source.schema@ + "' is not '"@ + REGISTRY_SOURCE_SCHEMA@
                + "'"@,
        )
    } else if !is_valid_identifier(source.id@) {
        Some("registry source id '"@ + source.id@ + "' is not a valid identifier"@)
    } else if !is_portable_registry_uri(source.uri@) {
        Some("registry source URI '"@ + source.uri@ + "' is not a portable absolute URI"@)
    } else if !is_sha256_label(source.descriptor_hash@) {
        Some("registry descriptor_hash is not a lowercase sha256 digest"@)
    } else {
        None
    }
}

impl RegistrySource {
    /// Checks the schema label, the id, the URI and the descriptor digest.
    pub fn validate(&self) -> (result: Result<(), String>)
        ensures
            match registry_source_problem(*self) {
                None => result is Ok,
                Some(problem) => result matches Err(m) && m@ == problem,
            },
    {
        if !str_eq(self.schema.as_str(), REGISTRY_SOURCE_SCHEMA) {
            let mut m = "registry source schema '".to_owned();
            push_str(&mut m, self.schema.as_str());
            push_str(&mut m, "' is not '");
            push_str(&mut m, REGISTRY_SOURCE_SCHEMA);
            push_str(&mut m, "'");
            return Err(m);
        }
        if !valid_identifier(self.id.as_str()) {
            let mut m = "registry source id '".to_owned();
            push_str(&mut m, self.id.as_str());
            push_str(&mut m, "' is not a valid identifier");
            return Err(m);
        }
        if !portable_registry_uri(self.uri.as_str()) {
            let mut m = "registry source URI '".to_owned();
            push_str(&mut m, self.uri.as_str());
            push_str(&mut m, "' is not a portable absolute URI");
            return Err(m);
        }
        if !valid_sha256(self.descriptor_hash.as_str()) {
            return Err("registry descriptor_hash is not a lowercase sha256 digest".to_owned());
        }
        Ok(())
    }
}

// ---------------------------------------------------------------------------
// Package references
// ---------------------------------------------------------------------------

/// Package kinds the registry supports.
#[derive(Debug, Clone, Copy, PartialEq, Eq, Structural)]
pub enum PackageKind {
    Chip,
    Board,
    Device,
    Machine,
    Workflow,
    SafetyProfile,
    Kinematics,
    HostExtension,
    FirmwareExtension,
}

/// The `package` section of every `package.yaml`.
#[derive(Debug, Clone)]
pub struct PackageIdentity {
    pub namespace: String,
    pub name: String,
    pub version: semver::Version,
    pub kind: PackageKind,
}

/// A fully qualified, versioned package reference: `namespace/name@1.1.0`.
#[derive(Debug, Clone, PartialEq, Eq, PartialOrd, Ord)]
pub struct PackageRef {
    pub namespace: String,
    pub name: String,
    pub version: semver::Version,
}

/// Why a package reference was rejected.
#[derive(Debug, Clone, PartialEq, Eq)]
pub struct RefParseError(pub String);

impl RefParseError {
    /// `invalid package reference: <reason>`.
    pub fn to_message(&self) -> (text: String)
        ensures
            text@ == "invalid package reference: "@ + self.0@,
    {
        let mut text = "invalid package reference: ".to_owned();
        push_str(&mut text, self.0.as_str());
        text
    }
}

/// How `namespace/name@version` decomposes, or why it does not.
pub enum RefShape {
    MissingVersion,
    MissingNamespace,
    BadIdentifiers { path: Seq<char> },
    Parts { namespace: Seq<char>, name: Seq<char>, version: Seq<char> },
}

pub open spec fn ref_shape(text: Seq<char>) -> RefShape {
    match split_at_first(text, "@"@) {
        None => RefShape::MissingVersion,
        Some((path, version)) => match split_at_first(path, "/"@) {
            None => RefShape::MissingNamespace,
            Some((namespace, name)) => if is_valid_identifier(namespace) && is_valid_identifier(
                name,
            ) {
                RefShape::Parts { namespace, name, version }
            } else {
                RefShape::BadIdentifiers { path }
            },
        },
    }
}

impl PackageRef {
    /// Parses `namespace/name@version`: the text before the first `@` is
    /// split at its first `/` into two identifiers, and the rest must be a
    /// semantic version.
    pub fn parse(text: &str) -> (result: Result<Self, RefParseError>)
        ensures
            match ref_shape(text@) {
                RefShape::MissingVersion => result matches Err(RefParseError(m)) && m@ == "'"@
                    + text@ + "' is missing '@version'"@,
                RefShape::MissingNamespace => result matches Err(RefParseError(m)) && m@ == "'"@
                    + text@ + "' is missing 'namespace/'"@,
                RefShape::BadIdentifiers { path } => result matches Err(RefParseError(m)) && m@
                    == "'"@ + path + "' must be lowercase identifiers 'namespace/name'"@,
                RefShape::Parts { namespace, name, version } => match version_parse(version) {
                    Ok(v) => result matches Ok(r) && r.namespace@ == namespace && r.name@ == name
                        && r.version == v,
                    Err(e) => result matches Err(RefParseError(m)) && m@ == "'"@ + version
                        + "' is not semver: "@ + error_display(e),
                },
            },
    {
        let (path, version) = match split_once(text, "@") {
            Some(parts) => parts,
            None => {
                let mut m = "'".to_owned();
                push_str(&mut m, text);
                push_str(&mut m, "' is missing '@version'");
                return Err(RefParseError(m));
            },
        };
        let (namespace, name) = match split_once(path, "/") {
            Some(parts) => parts,
            None => {
                let mut m = "'".to_owned();
                push_str(&mut m, text);
                push_str(&mut m, "' is missing 'namespace/'");
                return Err(RefParseError(m));
            },
        };
        if !valid_identifier(namespace) || !valid_identifier(name) {
            let mut m = "'".to_owned();
            push_str(&mut m, path);
            push_str(&mut m, "' must be lowercase identifiers 'namespace/name'");
            return Err(RefParseError(m));
        }
        match parse_version(version) {
            Ok(v) => Ok(PackageRef { namespace: namespace.to_owned(), name: name.to_owned(), version: v }),
            Err(e) => {
                let mut m = "'".to_owned();
                push_str(&mut m, version);
                push_str(&mut m, "' is not semver: ");
                let detail = semver_error_text(&e);
                push_str(&mut m, detail.as_str());
                Err(RefParseError(m))
            },
        }
    }

    /// `namespace/name@version`.
    pub fn to_message(&self) -> (text: String)
        ensures
            text@ == self.namespace@ + "/"@ + self.name@ + "@"@ + version_display(self.version),
    {
        let mut text = self.namespace.clone();
        push_str(&mut text, "/");
        push_str(&mut text, self.name.as_str());
        push_str(&mut text, "@");
        let version = version_text(&self.version);
        push_str(&mut text, version.as_str());
        text
    }
}

/// A dependency's version range, e.g. `"^1.0"` or `">=2.0,<3.0"`.
#[derive(Debug, Clone, PartialEq, Eq)]
pub struct Dependency {
    pub version: String,
}

/// Every `,` followed by a space, as semver's requirement syntax wants.
pub open spec fn spaced_commas(text: Seq<char>) -> Seq<char>
    decreases text.len(),
{
    if text.len() == 0 {
        seq![]
    } else if text.last() == ',' {
        spaced_commas(text.drop_last()) + seq![',', ' ']
    } else {
        spaced_commas(text.drop_last()).push(text.last())
    }
}

fn space_commas(text: &str) -> (spaced: String)
    ensures
        spaced@ == spaced_commas(text@),
{
    let chars = chars_of(text);
    let mut spaced = String::new();
    let mut i: usize = 0;
    while i < chars.len()
        invariant
            chars@ == text@,
            i <= chars@.len(),
            spaced@ == spaced_commas(text@.subrange(0, i as int)),
        decreases chars@.len() - i,
    {
        proof {
            let next = text@.subrange(0, i + 1);
            assert(next.drop_last() =~= text@.subrange(0, i as int));
        }
        if chars[i] == ',' {
            push_char(&mut spaced, ',');
            push_char(&mut spaced, ' ');
        } else {
            push_char(&mut spaced, chars[i]);
        }
        assert(spaced@ =~= spaced_commas(text@.subrange(0, i + 1)));
        i = i + 1;
    }
    assert(text@.subrange(0, text@.len() as int) =~= text@);
    spaced
}

impl Dependency {
    /// The range as a semver requirement; the comma form `>=2.0,<3.0` is
    /// read as semver's comma-separated conjunction.
    pub fn requirement(&self) -> (result: Result<semver::VersionReq, semver::Error>)
        ensures
            result == requirement_parse(spaced_commas(self.version@)),
    {
        let spaced = space_commas(self.version.as_str());
        parse_version_req(spaced.as_str())
    }
}

// ---------------------------------------------------------------------------
// The local registry
// ---------------------------------------------------------------------------

/// A package's `package.yaml` manifest: its identity and its dependencies
/// by package path, in path order.
#[derive(Debug, Clone)]
pub struct Manifest {
    pub package: PackageIdentity,
    pub dependencies: Vec<(String, Dependency)>,
}

/// One package found by the registry scan.
#[derive(Debug, Clone)]
pub struct LoadedPackage {
    pub reference: PackageRef,
    pub kind: PackageKind,
    /// The package's directory.
    pub dir: String,
    pub manifest: Manifest,
}

/// The packages of a local registry, in `namespace/name` then version
/// order, with the registry's source identity and the problems its scan
/// found.
#[derive(Debug, Clone)]
pub struct LocalRegistry {
    pub source: Option<RegistrySource>,
    pub packages: Vec<LoadedPackage>,
    pub diagnostics: Vec<crate::schema::Diagnostic>,
}

/// The package is `namespace/name`.
pub open spec fn is_package(p: LoadedPackage, namespace: Seq<char>, name: Seq<char>) -> bool {
    p.reference.namespace@ == namespace && p.reference.name@ == name
}

/// The highest version of `namespace/name`; of equal versions, the last.
pub open spec fn latest(packages: Seq<LoadedPackage>, namespace: Seq<char>, name: Seq<char>) -> Option<
    LoadedPackage,
>
    decreases packages.len(),
{
    if packages.len() == 0 {
        None
    } else {
        let p = packages.last();
        let best = latest(packages.drop_last(), namespace, name);
        if !is_package(p, namespace, name) {
            best
        } else {
            match best {
                None => Some(p),
                Some(b) => if version_order(b.reference.version, p.reference.version) <= 0 {
                    Some(p)
                } else {
                    Some(b)
                },
            }
        }
    }
}

/// The first package of `namespace/name` at exactly `version`.
pub open spec fn at_version(
    packages: Seq<LoadedPackage>,
    namespace: Seq<char>,
    name: Seq<char>,
    version: semver::Version,
) -> Option<LoadedPackage>
    decreases packages.len(),
{
    if packages.len() == 0 {
        None
    } else if is_package(packages[0], namespace, name) && packages[0].reference.version == version {
        Some(packages[0])
    } else {
        at_version(packages.drop_first(), namespace, name, version)
    }
}

/// The versions of `namespace/name`, in package order.
pub open spec fn versions_of(packages: Seq<LoadedPackage>, namespace: Seq<char>, name: Seq<char>) -> Seq<
    semver::Version,
>
    decreases packages.len(),
{
    if packages.len() == 0 {
        seq![]
    } else {
        let rest = versions_of(packages.drop_last(), namespace, name);
        if is_package(packages.last(), namespace, name) {
            rest.push(packages.last().reference.version)
        } else {
            rest
        }
    }
}

/// Inserting into a sorted list after the versions that do not sort after
/// `v`.
pub open spec fn insert_version(sorted: Seq<semver::Version>, v: semver::Version) -> Seq<semver::Version>
    decreases sorted.len(),
{
    if sorted.len() == 0 {
        seq![v]
    } else if version_order(sorted.last(), v) <= 0 {
        sorted.push(v)
    } else {
        insert_version(sorted.drop_last(), v).push(sorted.last())
    }
}

/// The stable sort of versions by semver precedence.
pub open spec fn sorted_versions(versions: Seq<semver::Version>) -> Seq<semver::Version>
    decreases versions.len(),
{
    if versions.len() == 0 {
        seq![]
    } else {
        insert_version(sorted_versions(versions.drop_last()), versions.last())
    }
}

/// Every version sorts at or below each version after it.
pub open spec fn precedence_sorted(versions: Seq<semver::Version>) -> bool {
    forall|i: int, j: int| 0 <= i < j < versions.len() ==> #[trigger] version_order(versions[i], versions[j]) <= 0
}

/// The versions the references point at.
pub open spec fn pointed(versions: Seq<&semver::Version>) -> Seq<semver::Version> {
    versions.map_values(|v: &semver::Version| *v)
}

fn insert_sorted_version<'a>(sorted: &mut Vec<&'a semver::Version>, v: &'a semver::Version)
    requires
        precedence_sorted(pointed(old(sorted)@)),
    ensures
        pointed(final(sorted)@) == insert_version(pointed(old(sorted)@), *v),
        precedence_sorted(pointed(final(sorted)@)),
{
    let ghost s = pointed(sorted@);
    let ghost refs = sorted@;
    let mut pos = sorted.len();
    let mut placed = false;
    assert(s.subrange(0, pos as int) =~= s);
    assert(s.subrange(pos as int, s.len() as int) =~= Seq::<semver::Version>::empty());
    while pos > 0 && !placed
        invariant
            sorted@ == refs,
            s == pointed(refs),
            precedence_sorted(s),
            pos <= s.len(),
            insert_version(s, *v) == insert_version(s.subrange(0, pos as int), *v) + s.subrange(
                pos as int,
                s.len() as int,
            ),
            placed ==> pos > 0 && version_order(s[pos - 1], *v) <= 0,
            placed ==> forall|i: int| 0 <= i < pos ==> #[trigger] version_order(s[i], *v) <= 0,
            forall|j: int| pos <= j < s.len() ==> #[trigger] version_order(*v, s[j]) <= 0,
        decreases pos + (if placed { 0int } else { 1int }),
    {
        assert(s[pos - 1] == *refs[pos - 1]);
        let order = compare_versions(sorted[pos - 1], v);
        if order <= 0 {
            placed = true;
            assert forall|i: int| 0 <= i < pos implies #[trigger] version_order(s[i], *v) <= 0 by {
                if i < pos - 1 {
                    assert(version_order(s[i], s[pos - 1]) <= 0);
                }
            }
        } else {
            proof {
                let prefix = s.subrange(0, pos as int);
                assert(prefix.drop_last() =~= s.subrange(0, pos - 1));
                assert(prefix.last() == s[pos - 1]);
                assert(insert_version(s.subrange(0, pos - 1), *v).push(s[pos - 1]) + s.subrange(
                    pos as int,
                    s.len() as int,
                ) =~= insert_version(s.subrange(0, pos - 1), *v) + s.subrange(pos - 1, s.len() as int));
            }
            pos = pos - 1;
        }
    }
    proof {
        let prefix = s.subrange(0, pos as int);
        if pos > 0 {
            assert(prefix.last() == s[pos - 1]);
            assert(insert_version(prefix, *v) == prefix.push(*v));
        } else {
            assert(prefix.len() == 0);
            assert(insert_version(prefix, *v) =~= prefix.push(*v));
        }
        assert(prefix.push(*v) + s.subrange(pos as int, s.len() as int) =~= s.insert(pos as int, *v));
    }
    sorted.insert(pos, v);
    let ghost t = s.insert(pos as int, *v);
    assert(pointed(sorted@) =~= t);
    assert forall|i: int, j: int| 0 <= i < j < t.len() implies #[trigger] version_order(t[i], t[j]) <= 0 by {
        if j < pos {
            assert(t[i] == s[i] && t[j] == s[j]);
        } else if j == pos {
            assert(t[j] == *v && t[i] == s[i]);
        } else if i == pos {
            assert(t[i] == *v && t[j] == s[j - 1]);
        } else if i < pos {
            assert(t[i] == s[i] && t[j] == s[j - 1]);
        } else {
            assert(t[i] == s[i - 1] && t[j] == s[j - 1]);
        }
    }
}

impl LocalRegistry {
    /// The highest version of `namespace/name`.
    pub fn find(&self, namespace: &str, name: &str) -> (found: Option<&LoadedPackage>)
        ensures
            match found {
                Some(p) => latest(self.packages@, namespace@, name@) == Some(*p),
                None => latest(self.packages@, namespace@, name@) is None,
            },
    {
        let mut best: Option<&LoadedPackage> = None;
        let mut i: usize = 0;
        while i < self.packages.len()
            invariant
                i <= self.packages@.len(),
                match best {
                    Some(p) => latest(self.packages@.subrange(0, i as int), namespace@, name@) == Some(*p),
                    None => latest(self.packages@.subrange(0, i as int), namespace@, name@) is None,
                },
            decreases self.packages@.len() - i,
        {
            let p = &self.packages[i];
            proof {
                let next = self.packages@.subrange(0, i + 1);
                assert(next.drop_last() =~= self.packages@.subrange(0, i as int));
                assert(next.last() == *p);
            }
            if str_eq(p.reference.namespace.as_str(), namespace) && str_eq(p.reference.name.as_str(), name) {
                best = match best {
                    None => Some(p),
                    Some(b) => if compare_versions(&b.reference.version, &p.reference.version) <= 0 {
                        Some(p)
                    } else {
                        Some(b)
                    },
                };
            }
            i = i + 1;
        }
        assert(self.packages@.subrange(0, self.packages@.len() as int) =~= self.packages@);
        best
    }

    /// The package of `namespace/name` at exactly `version`.
    pub fn find_version(&self, namespace: &str, name: &str, version: &semver::Version) -> (found: Option<
        &LoadedPackage,
    >)
        ensures
            match found {
                Some(p) => at_version(self.packages@, namespace@, name@, *version) == Some(*p),
                None => at_version(self.packages@, namespace@, name@, *version) is None,
            },
    {
        let mut i: usize = 0;
        assert(self.packages@.subrange(0, self.packages@.len() as int) =~= self.packages@);
        while i < self.packages.len()
            invariant
                i <= self.packages@.len(),
                at_version(self.packages@, namespace@, name@, *version) == at_version(
                    self.packages@.subrange(i as int, self.packages@.len() as int),
                    namespace@,
                    name@,
                    *version,
                ),
            decreases self.packages@.len() - i,
        {
            proof {
                let rest = self.packages@.subrange(i as int, self.packages@.len() as int);
                assert(rest.drop_first() =~= self.packages@.subrange(i + 1, self.packages@.len() as int));
                assert(rest[0] == self.packages@[i as int]);
            }
            let p = &self.packages[i];
            if str_eq(p.reference.namespace.as_str(), namespace) && str_eq(p.reference.name.as_str(), name)
                && versions_equal(&p.reference.version, version) {
                return Some(p);
            }
            i = i + 1;
        }
        None
    }

    /// Every version of `namespace/name`, sorted by semver precedence.
    pub fn versions(&self, namespace: &str, name: &str) -> (versions: Vec<&semver::Version>)
        ensures
            pointed(versions@) == sorted_versions(versions_of(self.packages@, namespace@, name@)),
            precedence_sorted(pointed(versions@)),
    {
        let mut found: Vec<&semver::Version> = Vec::new();
        let mut i: usize = 0;
        while i < self.packages.len()
            invariant
                i <= self.packages@.len(),
                pointed(found@) == sorted_versions(versions_of(self.packages@.subrange(0, i as int), namespace@, name@)),
                precedence_sorted(pointed(found@)),
            decreases self.packages@.len() - i,
        {
            let p = &self.packages[i];
            proof {
                let next = self.packages@.subrange(0, i + 1);
                assert(next.drop_last() =~= self.packages@.subrange(0, i as int));
                assert(next.last() == *p);
            }
            let ghost prior = versions_of(self.packages@.subrange(0, i as int), namespace@, name@);
            if str_eq(p.reference.namespace.as_str(), namespace) && str_eq(p.reference.name.as_str(), name) {
                insert_sorted_version(&mut found, &p.reference.version);
                proof {
                    let vs = versions_of(self.packages@.subrange(0, i + 1), namespace@, name@);
                    assert(vs == prior.push(p.reference.version));
                    assert(vs.drop_last() =~= prior);
                }
            }
            i = i + 1;
        }
        assert(self.packages@.subrange(0, self.packages@.len() as int) =~= self.packages@);
        found
    }
}

// ---------------------------------------------------------------------------
// Snapshots
// ---------------------------------------------------------------------------

/// Domain tag that opens every package content digest.
pub const CONTENT_HASH_DOMAIN: [u8; 25] = [
    0x64, 0x72, 0x79, 0x65, 0x72, 0x2d, 0x70, 0x61, 0x63, 0x6b, 0x61, 0x67, 0x65, 0x2d, 0x63, 0x6f,
    0x6e, 0x74, 0x65, 0x6e, 0x74, 0x2d, 0x76, 0x31, 0x00,
];

/// The big-endian eight bytes of `v`.
pub open spec fn be64(v: u64) -> Seq<u8> {
    seq![
        (v / 0x100000000000000) as u8,
        ((v / 0x1000000000000) % 256) as u8,
        ((v / 0x10000000000) % 256) as u8,
        ((v / 0x100000000) % 256) as u8,
        ((v / 0x1000000) % 256) as u8,
        ((v / 0x10000) % 256) as u8,
        ((v / 0x100) % 256) as u8,
        (v % 256) as u8,
    ]
}

/// One file's contribution to the content digest: path length, path,
/// content length, content.
pub open spec fn file_record(path: Seq<u8>, bytes: Seq<u8>) -> Seq<u8> {
    be64(path.len() as u64) + path + be64(bytes.len() as u64) + bytes
}

/// The UTF-8 bytes of each path and the file bytes.
pub open spec fn file_views(files: Seq<(String, Vec<u8>)>) -> Seq<(Seq<u8>, Seq<u8>)> {
    files.map_values(|f: (String, Vec<u8>)| (vstd::utf8::encode_utf8(f.0@), f.1@))
}

/// The records of all files, in order.
pub open spec fn file_records(files: Seq<(Seq<u8>, Seq<u8>)>) -> Seq<u8>
    decreases files.len(),
{
    if files.len() == 0 {
        seq![]
    } else {
        file_records(files.drop_last()) + file_record(files.last().0, files.last().1)
    }
}

/// What the content digest is taken of: the domain tag, then every file's
/// record in path order.
pub open spec fn content_preimage(files: Seq<(Seq<u8>, Seq<u8>)>) -> Seq<u8> {
    CONTENT_HASH_DOMAIN@ + file_records(files)
}

/// Paths strictly increase in byte order (so each path occurs once).
pub open spec fn paths_increase(files: Seq<(String, Vec<u8>)>) -> bool {
    forall|i: int, j: int|
        0 <= i < j < files.len() ==> crate::flash::text_order(files[i].0@, files[j].0@) < 0
}

/// One stable, in-memory view of every regular file of a package, keyed by
/// its `/`-separated relative path in path order.
/// The bytes of the first `package.yaml` entry.
pub open spec fn manifest_in(entries: Seq<(String, Vec<u8>)>) -> Option<Seq<u8>>
    decreases entries.len(),
{
    if entries.len() == 0 {
        None
    } else if entries[0].0@ == "package.yaml"@ {
        Some(entries[0].1@)
    } else {
        manifest_in(entries.drop_first())
    }
}

proof fn lemma_manifest_in(entries: Seq<(String, Vec<u8>)>, i: int)
    requires
        0 <= i <= entries.len(),
        forall|k: int| 0 <= k < i ==> #[trigger] entries[k].0@ != "package.yaml"@,
    ensures
        i < entries.len() && entries[i].0@ == "package.yaml"@ ==> manifest_in(entries) == Some(entries[i].1@),
        i == entries.len() ==> manifest_in(entries) is None,
    decreases i,
{
    if i > 0 {
        let rest = entries.drop_first();
        assert forall|k: int| 0 <= k < i - 1 implies #[trigger] rest[k].0@ != "package.yaml"@ by {
            assert(rest[k] == entries[k + 1]);
        }
        lemma_manifest_in(rest, i - 1);
        assert(entries[0].0@ != "package.yaml"@);
    }
}

#[derive(Debug, Clone, PartialEq, Eq)]
pub struct PackageSnapshot {
    files: Vec<(String, Vec<u8>)>,
}

fn push_be64(buffer: &mut Vec<u8>, v: u64)
    ensures
        final(buffer)@ == old(buffer)@ + be64(v),
{
    buffer.push((v / 0x100000000000000) as u8);
    buffer.push(((v / 0x1000000000000) % 256) as u8);
    buffer.push(((v / 0x10000000000) % 256) as u8);
    buffer.push(((v / 0x100000000) % 256) as u8);
    buffer.push(((v / 0x1000000) % 256) as u8);
    buffer.push(((v / 0x10000) % 256) as u8);
    buffer.push(((v / 0x100) % 256) as u8);
    buffer.push((v % 256) as u8);
    assert(buffer@ =~= old(buffer)@ + be64(v));
}

fn push_all(buffer: &mut Vec<u8>, bytes: &[u8])
    ensures
        final(buffer)@ == old(buffer)@ + bytes@,
{
    let mut i: usize = 0;
    while i < bytes.len()
        invariant
            i <= bytes@.len(),
            buffer@ == old(buffer)@ + bytes@.subrange(0, i as int),
        decreases bytes@.len() - i,
    {
        buffer.push(bytes[i]);
        assert(buffer@ =~= old(buffer)@ + bytes@.subrange(0, i + 1));
        i = i + 1;
    }
    assert(bytes@.subrange(0, bytes@.len() as int) =~= bytes@);
}

impl PackageSnapshot {
    /// The files, in path order.
    pub closed spec fn entries(&self) -> Seq<(String, Vec<u8>)> {
        self.files@
    }

    /// A snapshot of files already in strictly increasing path order;
    /// `None` when two paths are out of order or repeated.
    pub fn from_sorted_files(files: Vec<(String, Vec<u8>)>) -> (snapshot: Option<Self>)
        ensures
            match snapshot {
                Some(s) => s.entries() == files@ && paths_increase(files@),
                None => !paths_increase(files@),
            },
    {
        let mut i: usize = 1;
        while i < files.len()
            invariant
                1 <= i,
                forall|a: int, b: int|
                    0 <= a < b < i && b < files@.len() ==> crate::flash::text_order(
                        files@[a].0@,
                        files@[b].0@,
                    ) < 0,
            decreases files@.len() - i,
        {
            let order = crate::flash::compare_text(files[i - 1].0.as_str(), files[i].0.as_str());
            if order >= 0 {
                return None;
            }
            proof {
                assert forall|a: int, b: int|
                    0 <= a < b < i + 1 && b < files@.len() implies crate::flash::text_order(
                    files@[a].0@,
                    files@[b].0@,
                ) < 0 by {
                    if b == i && a < i - 1 {
                        crate::flash::lemma_text_order_strict(
                            files@[a].0@,
                            files@[i - 1].0@,
                            files@[b].0@,
                        );
                    }
                }
            }
            i = i + 1;
        }
        Some(PackageSnapshot { files })
    }

    /// The exact `package.yaml` bytes, when the snapshot has one.
    pub fn manifest_bytes(&self) -> (bytes: Option<&[u8]>)
        ensures
            match bytes {
                Some(b) => manifest_in(self.entries()) == Some(b@),
                None => manifest_in(self.entries()) is None,
            },
            match bytes {
                Some(b) => exists|i: int|
                    0 <= i < self.entries().len() && self.entries()[i].0@ == "package.yaml"@
                        && #[trigger] self.entries()[i].1@ == b@,
                None => forall|i: int|
                    0 <= i < self.entries().len() ==> #[trigger] self.entries()[i].0@
                        != "package.yaml"@,
            },
    {
        let mut i: usize = 0;
        while i < self.files.len()
            invariant
                i <= self.files@.len(),
                forall|k: int| 0 <= k < i ==> #[trigger] self.files@[k].0@ != "package.yaml"@,
            decreases self.files@.len() - i,
        {
            if str_eq(self.files[i].0.as_str(), "package.yaml") {
                let found = self.files[i].1.as_slice();
                assert(self.entries()[i as int].1@ == found@);
                proof {
                    lemma_manifest_in(self.entries(), i as int);
                }
                return Some(found);
            }
            i = i + 1;
        }
        proof {
            lemma_manifest_in(self.entries(), self.entries().len() as int);
        }
        None
    }

    /// The bytes the content digest commits to.
    pub fn content_preimage(&self) -> (bytes: Vec<u8>)
        ensures
            bytes@ == content_preimage(file_views(self.entries())),
    {
        let mut bytes: Vec<u8> = Vec::new();
        push_all(&mut bytes, CONTENT_HASH_DOMAIN.as_slice());
        let ghost views = file_views(self.files@);
        let mut i: usize = 0;
        while i < self.files.len()
            invariant
                i <= self.files@.len(),
                views == file_views(self.files@),
                bytes@ == CONTENT_HASH_DOMAIN@ + file_records(views.subrange(0, i as int)),
            decreases self.files@.len() - i,
        {
            let path = self.files[i].0.as_str().as_bytes();
            let content = self.files[i].1.as_slice();
            push_be64(&mut bytes, path.len() as u64);
            push_all(&mut bytes, path);
            push_be64(&mut bytes, content.len() as u64);
            push_all(&mut bytes, content);
            proof {
                let next = views.subrange(0, i + 1);
                assert(next.drop_last() =~= views.subrange(0, i as int));
                assert(next.last() == views[i as int]);
                assert(bytes@ =~= CONTENT_HASH_DOMAIN@ + file_records(next));
            }
            i = i + 1;
        }
        assert(views.subrange(0, views.len() as int) =~= views);
        bytes
    }

    /// Portable digest of all paths and bytes in this snapshot.
    pub fn content_hash(&self) -> (label: String)
        ensures
            label@ == sha256_label(content_preimage(file_views(self.entries()))),
    {
        let preimage = self.content_preimage();
        sha256(preimage.as_slice())
    }
}

// ---------------------------------------------------------------------------
// Snapshots from file lists
// ---------------------------------------------------------------------------

/// Extra complete reads a snapshot may take before the tree is declared
/// unstable.
pub const SNAPSHOT_VERIFY_RETRIES: usize = 3;

/// The files as a map from path to bytes; a later file with the same path
/// replaces an earlier one.
pub open spec fn files_map(files: Seq<(String, Vec<u8>)>) -> Map<Seq<char>, Seq<u8>>
    decreases files.len(),
{
    if files.len() == 0 {
        Map::empty()
    } else {
        files_map(files.drop_last()).insert(files.last().0@, files.last().1@)
    }
}

/// `entries` lists exactly the paths of `map`, each with its bytes.
pub open spec fn lists_exactly(
    entries: Seq<(String, Vec<u8>)>,
    map: Map<Seq<char>, Seq<u8>>,
) -> bool {
    &&& forall|i: int|
        0 <= i < entries.len() ==> map.contains_key(#[trigger] entries[i].0@) && map[entries[i].0@]
            == entries[i].1@
    &&& forall|p: Seq<char>|
        #[trigger] map.contains_key(p) ==> exists|i: int| 0 <= i < entries.len() && entries[i].0@ == p
}

/// Puts one file into a path-ordered list, replacing the bytes of an equal
/// path.
fn insert_file(
    entries: &mut Vec<(String, Vec<u8>)>,
    path: String,
    bytes: Vec<u8>,
    Ghost(map): Ghost<Map<Seq<char>, Seq<u8>>>,
)
    requires
        paths_increase(old(entries)@),
        lists_exactly(old(entries)@, map),
    ensures
        paths_increase(final(entries)@),
        lists_exactly(final(entries)@, map.insert(path@, bytes@)),
{
    let ghost before = entries@;
    let mut k: usize = 0;
    while k < entries.len()
        invariant
            k <= entries@.len(),
            entries@ == before,
            forall|j: int| 0 <= j < k ==> crate::flash::text_order(#[trigger] entries@[j].0@, path@) < 0,
        ensures
            k <= entries@.len(),
            entries@ == before,
            forall|j: int| 0 <= j < k ==> crate::flash::text_order(#[trigger] entries@[j].0@, path@) < 0,
            k < entries@.len() ==> crate::flash::text_order(entries@[k as int].0@, path@) >= 0,
        decreases entries@.len() - k,
    {
        if crate::flash::compare_text(entries[k].0.as_str(), path.as_str()) >= 0 {
            break;
        }
        k = k + 1;
    }
    let ghost target = map.insert(path@, bytes@);
    if k < entries.len() && str_eq(entries[k].0.as_str(), path.as_str()) {
        let ghost old_path = entries@[k as int].0@;
        entries.set(k, (path, bytes));
        proof {
            assert forall|i: int, j: int| 0 <= i < j < entries@.len() implies crate::flash::text_order(
                entries@[i].0@,
                entries@[j].0@,
            ) < 0 by {
                assert(entries@[i].0@ == before[i].0@);
                assert(entries@[j].0@ == before[j].0@);
            }
            assert forall|i: int| 0 <= i < entries@.len() implies target.contains_key(
                #[trigger] entries@[i].0@,
            ) && target[entries@[i].0@] == entries@[i].1@ by {
                if i != k {
                    crate::flash::lemma_text_order(before[i].0@, old_path, old_path);
                    if i < k {
                        assert(crate::flash::text_order(before[i].0@, before[k as int].0@) < 0);
                    } else {
                        assert(crate::flash::text_order(before[k as int].0@, before[i].0@) < 0);
                        crate::flash::lemma_text_order(old_path, before[i].0@, old_path);
                    }
                }
            }
            assert forall|p: Seq<char>| #[trigger] target.contains_key(p) implies exists|i: int|
                0 <= i < entries@.len() && entries@[i].0@ == p by {
                if p == path@ {
                    assert(entries@[k as int].0@ == p);
                } else {
                    let i = choose|i: int| 0 <= i < before.len() && before[i].0@ == p;
                    assert(entries@[i].0@ == p);
                }
            }
        }
    } else {
        proof {
            if k < before.len() {
                crate::flash::lemma_text_order(before[k as int].0@, path@, path@);
                assert(crate::flash::text_order(before[k as int].0@, path@) > 0);
            }
        }
        entries.insert(k, (path, bytes));
        proof {
            assert(entries@ == before.insert(k as int, (path, bytes)));
            assert forall|i: int, j: int| 0 <= i < j < entries@.len() implies crate::flash::text_order(
                entries@[i].0@,
                entries@[j].0@,
            ) < 0 by {
                if j < k {
                } else if j == k {
                    assert(entries@[i].0@ == before[i].0@);
                } else if i == k {
                    assert(entries@[j].0@ == before[j - 1].0@);
                    crate::flash::lemma_text_order(path@, before[k as int].0@, path@);
                    if j - 1 > k {
                        crate::flash::lemma_text_order_strict(
                            path@,
                            before[k as int].0@,
                            before[j - 1].0@,
                        );
                    }
                } else if i < k {
                    assert(entries@[j].0@ == before[j - 1].0@);
                    assert(entries@[i].0@ == before[i].0@);
                } else {
                    assert(entries@[j].0@ == before[j - 1].0@);
                    assert(entries@[i].0@ == before[i - 1].0@);
                }
            }
            assert forall|i: int| 0 <= i < entries@.len() implies target.contains_key(
                #[trigger] entries@[i].0@,
            ) && target[entries@[i].0@] == entries@[i].1@ by {
                if i < k {
                    assert(entries@[i] == before[i]);
                    crate::flash::lemma_text_order(before[i].0@, path@, path@);
                } else if i > k {
                    assert(entries@[i] == before[i - 1]);
                    crate::flash::lemma_text_order(path@, before[k as int].0@, path@);
                    if i - 1 > k {
                        crate::flash::lemma_text_order_strict(
                            path@,
                            before[k as int].0@,
                            before[i - 1].0@,
                        );
                    }
                    crate::flash::lemma_text_order(path@, before[i - 1].0@, path@);
                }
            }
            assert forall|p: Seq<char>| #[trigger] target.contains_key(p) implies exists|i: int|
                0 <= i < entries@.len() && entries@[i].0@ == p by {
                if p == path@ {
                    assert(entries@[k as int].0@ == p);
                } else {
                    let i = choose|i: int| 0 <= i < before.len() && before[i].0@ == p;
                    if i < k {
                        assert(entries@[i].0@ == p);
                    } else {
                        assert(entries@[i + 1].0@ == p);
                    }
                }
            }
        }
    }
}

/// The snapshot of a list of files, in any order: every path once, in path
/// order, with the bytes of its last occurrence in the list.
pub fn package_snapshot(files: &Vec<(String, Vec<u8>)>) -> (snapshot: PackageSnapshot)
    ensures
        paths_increase(snapshot.entries()),
        lists_exactly(snapshot.entries(), files_map(files@)),
{
    let mut entries: Vec<(String, Vec<u8>)> = Vec::new();
    let mut i: usize = 0;
    while i < files.len()
        invariant
            i <= files@.len(),
            paths_increase(entries@),
            lists_exactly(entries@, files_map(files@.subrange(0, i as int))),
        decreases files@.len() - i,
    {
        let path = files[i].0.clone();
        let bytes = files[i].1.clone();
        assert(bytes@ =~= files@[i as int].1@);
        proof {
            let next = files@.subrange(0, i + 1);
            assert(next.drop_last() =~= files@.subrange(0, i as int));
        }
        insert_file(&mut entries, path, bytes, Ghost(files_map(files@.subrange(0, i as int))));
        i = i + 1;
    }
    assert(files@.subrange(0, files@.len() as int) =~= files@);
    PackageSnapshot { files: entries }
}

/// The content digest of a list of files, in any order.
pub fn package_content_hash(files: &Vec<(String, Vec<u8>)>) -> (label: String)
    ensures
        exists|s: PackageSnapshot|
            paths_increase(s.entries()) && lists_exactly(s.entries(), files_map(files@)) && label@
                == sha256_label(content_preimage(file_views(#[trigger] s.entries()))),
{
    let snapshot = package_snapshot(files);
    snapshot.content_hash()
}

proof fn lemma_ordered_listings_agree(
    s1: Seq<(String, Vec<u8>)>,
    s2: Seq<(String, Vec<u8>)>,
    map: Map<Seq<char>, Seq<u8>>,
)
    requires
        paths_increase(s1),
        paths_increase(s2),
        lists_exactly(s1, map),
        lists_exactly(s2, map),
    ensures
        file_views(s1) == file_views(s2),
    decreases s1.len(),
{
    if s1.len() == 0 {
        if s2.len() > 0 {
            assert(map.contains_key(s2[0].0@));
        }
        assert(file_views(s1) =~= file_views(s2));
    } else {
        let p = s1[0].0@;
        assert(map.contains_key(p));
        let j = choose|j: int| 0 <= j < s2.len() && s2[j].0@ == p;
        let q = s2[0].0@;
        assert(map.contains_key(q));
        let i = choose|i: int| 0 <= i < s1.len() && s1[i].0@ == q;
        if j > 0 {
            assert(crate::flash::text_order(s2[0].0@, s2[j].0@) < 0);
            crate::flash::lemma_text_order(q, p, q);
            if i > 0 {
                assert(crate::flash::text_order(s1[0].0@, s1[i].0@) < 0);
            }
            assert(false);
        }
        let rest = map.remove(p);
        let t1 = s1.drop_first();
        let t2 = s2.drop_first();
        assert forall|k: int| 0 <= k < t1.len() implies rest.contains_key(#[trigger] t1[k].0@)
            && rest[t1[k].0@] == t1[k].1@ by {
            assert(t1[k] == s1[k + 1]);
            assert(crate::flash::text_order(s1[0].0@, s1[k + 1].0@) < 0);
            crate::flash::lemma_text_order(p, p, p);
        }
        assert forall|k: int| 0 <= k < t2.len() implies rest.contains_key(#[trigger] t2[k].0@)
            && rest[t2[k].0@] == t2[k].1@ by {
            assert(t2[k] == s2[k + 1]);
            assert(crate::flash::text_order(s2[0].0@, s2[k + 1].0@) < 0);
            crate::flash::lemma_text_order(p, p, p);
        }
        assert forall|x: Seq<char>| #[trigger] rest.contains_key(x) implies exists|k: int|
            0 <= k < t1.len() && t1[k].0@ == x by {
            let k = choose|k: int| 0 <= k < s1.len() && s1[k].0@ == x;
            assert(t1[k - 1].0@ == x);
        }
        assert forall|x: Seq<char>| #[trigger] rest.contains_key(x) implies exists|k: int|
            0 <= k < t2.len() && t2[k].0@ == x by {
            let k = choose|k: int| 0 <= k < s2.len() && s2[k].0@ == x;
            assert(t2[k - 1].0@ == x);
        }
        lemma_ordered_listings_agree(t1, t2, rest);
        assert(file_views(t1) =~= file_views(s1).drop_first());
        assert(file_views(t2) =~= file_views(s2).drop_first());
        assert(file_views(s1)[0] == file_views(s2)[0]);
        assert(file_views(s1) =~= seq![file_views(s1)[0]] + file_views(t1));
        assert(file_views(s2) =~= seq![file_views(s2)[0]] + file_views(t2));
    }
}

/// The snapshot of a list of files, and with it the content digest,
/// depends only on which paths hold which bytes, not on the order in which
/// the files are listed.
pub proof fn snapshot_ignores_file_order(
    first: Seq<(String, Vec<u8>)>,
    second: Seq<(String, Vec<u8>)>,
    a: PackageSnapshot,
    b: PackageSnapshot,
)
    requires
        files_map(first) == files_map(second),
        paths_increase(a.entries()),
        lists_exactly(a.entries(), files_map(first)),
        paths_increase(b.entries()),
        lists_exactly(b.entries(), files_map(second)),
    ensures
        file_views(a.entries()) == file_views(b.entries()),
        sha256_label(content_preimage(file_views(a.entries()))) == sha256_label(
            content_preimage(file_views(b.entries())),
        ),
{
    lemma_ordered_listings_agree(a.entries(), b.entries(), files_map(first));
}

// ---------------------------------------------------------------------------
// Stable reads
// ---------------------------------------------------------------------------

fn same_bytes(a: &Vec<u8>, b: &Vec<u8>) -> (same: bool)
    ensures
        same == (a@ == b@),
{
    if a.len() != b.len() {
        return false;
    }
    let mut i: usize = 0;
    while i < a.len()
        invariant
            i <= a@.len(),
            a@.len() == b@.len(),
            forall|k: int| 0 <= k < i ==> a@[k] == b@[k],
        decreases a@.len() - i,
    {
        if a[i] != b[i] {
            return false;
        }
        i = i + 1;
    }
    assert(a@ =~= b@);
    true
}

/// Whether two snapshots hold the same paths with the same bytes.
fn same_files(a: &PackageSnapshot, b: &PackageSnapshot) -> (same: bool)
    ensures
        same == (file_views(a.entries()) == file_views(b.entries())),
{
    let x = &a.files;
    let y = &b.files;
    if x.len() != y.len() {
        assert(file_views(a.entries()).len() != file_views(b.entries()).len());
        return false;
    }
    let mut i: usize = 0;
    while i < x.len()
        invariant
            i <= x@.len(),
            x@.len() == y@.len(),
            x@ == a.entries(),
            y@ == b.entries(),
            forall|k: int| 0 <= k < i ==> file_views(x@)[k] == file_views(y@)[k],
        decreases x@.len() - i,
    {
        let same_path = str_eq(x[i].0.as_str(), y[i].0.as_str());
        if !same_path || !same_bytes(&x[i].1, &y[i].1) {
            proof {
                if same_path {
                    assert(file_views(x@)[i as int].1 != file_views(y@)[i as int].1);
                } else {
                    vstd::utf8::encode_utf8_decode_utf8(x@[i as int].0@);
                    vstd::utf8::encode_utf8_decode_utf8(y@[i as int].0@);
                    assert(file_views(x@)[i as int].0 != file_views(y@)[i as int].0);
                }
            }
            return false;
        }
        i = i + 1;
    }
    assert(file_views(x@) =~= file_views(y@));
    true
}

/// What to do after another complete read of a package tree.
#[derive(Debug)]
pub enum ReadVerdict {
    /// Two consecutive reads agree: this is the snapshot.
    Stable(PackageSnapshot),
    /// The tree changed between the reads: read it again.
    ReadAgain,
    /// The tree kept changing through every retry.
    Unstable,
}

/// Reading a package tree until two consecutive complete reads agree, so
/// that a rewrite in between (even one that keeps every length) is never
/// mistaken for a stable tree.
#[derive(Debug)]
pub struct SnapshotReads {
    observed: PackageSnapshot,
    attempts: usize,
}

impl SnapshotReads {
    /// The most recent complete read.
    pub closed spec fn observed(&self) -> PackageSnapshot {
        self.observed
    }

    /// How many later reads disagreed with the one before them.
    pub closed spec fn attempts(&self) -> nat {
        self.attempts as nat
    }

    /// Starts from the first complete read.
    pub fn start(first: PackageSnapshot) -> (reads: Self)
        ensures
            reads.observed() == first,
            reads.attempts() == 0,
    {
        SnapshotReads { observed: first, attempts: 0 }
    }

    /// Takes the next complete read: the snapshot when it agrees with the
    /// previous one; otherwise another read, until the retries run out.
    pub fn next_read(&mut self, verified: PackageSnapshot) -> (verdict: ReadVerdict)
        ensures
            file_views(verified.entries()) == file_views(old(self).observed().entries()) ==> (verdict
                matches ReadVerdict::Stable(s) && s == verified),
            file_views(verified.entries()) != file_views(old(self).observed().entries())
                && old(self).attempts() >= SNAPSHOT_VERIFY_RETRIES ==> verdict is Unstable,
            file_views(verified.entries()) != file_views(old(self).observed().entries())
                && old(self).attempts() < SNAPSHOT_VERIFY_RETRIES ==> {
                &&& verdict is ReadAgain
                &&& final(self).observed() == verified
                &&& final(self).attempts() == old(self).attempts() + 1
            },
    {
        if same_files(&self.observed, &verified) {
            return ReadVerdict::Stable(verified);
        }
        if self.attempts >= SNAPSHOT_VERIFY_RETRIES {
            return ReadVerdict::Unstable;
        }
        self.observed = verified;
        self.attempts = self.attempts + 1;
        ReadVerdict::ReadAgain
    }
}

/// `package tree '<root>' remained unstable after 3 verification retries`.
pub fn unstable_tree_message(root: &str) -> (text: String)
    ensures
        text@ == "package tree '"@ + root@ + "' remained unstable after "@ + crate::text::decimal(
            SNAPSHOT_VERIFY_RETRIES as nat,
        ) + " verification retries"@,
{
    let mut text = "package tree '".to_owned();
    push_str(&mut text, root);
    push_str(&mut text, "' remained unstable after ");
    crate::text::push_decimal(&mut text, SNAPSHOT_VERIFY_RETRIES as u64);
    push_str(&mut text, " verification retries");
    text
}

} // verus!
