//! JSON renderings of locked records. The compact form is canonical: a
//! lockfile's hash is the digest of its compact JSON whatever its YAML
//! looked like. The pretty form indents by two spaces per level. Both
//! write fields in declaration order, leave out absent optional fields,
//! and escape strings as JSON requires.

use vstd::prelude::*;
use crate::digest::{sha256, sha256_label};
use crate::lock::{
    LockedBuildConfig, LockedController, LockedPackage, LockedSafeState, LockedSafetyConfig,
    Lockfile, lock_problem,
};
use crate::package::RegistrySource;
use crate::package::safety::{SafeState, safe_state_label};
use crate::text::{
    decimal, hex_padded, joined, push_char, push_decimal, push_hex_padded, push_str, string_views,
};

verus! {

// ---------------------------------------------------------------------------
// Strings and layout
// ---------------------------------------------------------------------------

/// How one character is written inside a JSON string: `"` and `\` and the
/// control characters are escaped (`\b \t \n \f \r`, otherwise `\u00xx`
/// in lowercase hexadecimal); every other character is written as is.
pub open spec fn escaped_char(c: char) -> Seq<char> {
    if c == '"' {
        seq!['\\', '"']
    } else if c == '\\' {
        seq!['\\', '\\']
    } else if c == '\x08' {
        seq!['\\', 'b']
    } else if c == '\t' {
        seq!['\\', 't']
    } else if c == '\n' {
        seq!['\\', 'n']
    } else if c == '\x0c' {
        seq!['\\', 'f']
    } else if c == '\r' {
        seq!['\\', 'r']
    } else if (c as u32) < 0x20 {
        seq!['\\', 'u', '0', '0'] + hex_padded(c as nat, 2)
    } else {
        seq![c]
    }
}

pub open spec fn escaped(s: Seq<char>) -> Seq<char>
    decreases s.len(),
{
    if s.len() == 0 {
        seq![]
    } else {
        escaped(s.drop_last()) + escaped_char(s.last())
    }
}

/// A JSON string literal.
pub open spec fn json_text(s: Seq<char>) -> Seq<char> {
    seq!['"'] + escaped(s) + seq!['"']
}

/// `2 * level` spaces.
pub open spec fn indent(level: nat) -> Seq<char>
    decreases level,
{
    if level == 0 {
        seq![]
    } else {
        indent((level - 1) as nat) + seq![' ', ' ']
    }
}

/// `"key": value`, with a space after the colon in the pretty form.
pub open spec fn json_field(key: Seq<char>, value: Seq<char>, pretty: bool) -> Seq<char> {
    json_text(key) + if pretty {
        seq![':', ' ']
    } else {
        seq![':']
    } + value
}

pub open spec fn indented(items: Seq<Seq<char>>, level: nat) -> Seq<Seq<char>> {
    items.map_values(|item: Seq<char>| indent(level) + item)
}

/// A bracketed list of rendered items: empty as `open close`; compact with
/// `,` between items; pretty with each item on its own line one level
/// deeper and the closing bracket on a line at `level`.
pub open spec fn bracketed(items: Seq<Seq<char>>, open: char, close: char, pretty: bool, level: nat) -> Seq<
    char,
> {
    if items.len() == 0 {
        seq![open, close]
    } else if pretty {
        seq![open, '\n'] + joined(indented(items, level + 1), seq![',', '\n']) + seq!['\n'] + indent(
            level,
        ) + seq![close]
    } else {
        seq![open] + joined(items, seq![',']) + seq![close]
    }
}

pub open spec fn json_object(fields: Seq<Seq<char>>, pretty: bool, level: nat) -> Seq<char> {
    bracketed(fields, '{', '}', pretty, level)
}

pub open spec fn json_array(items: Seq<Seq<char>>, pretty: bool, level: nat) -> Seq<char> {
    bracketed(items, '[', ']', pretty, level)
}

pub open spec fn json_texts(items: Seq<Seq<char>>) -> Seq<Seq<char>>
    decreases items.len(),
{
    if items.len() == 0 {
        seq![]
    } else {
        json_texts(items.drop_last()).push(json_text(items.last()))
    }
}

pub open spec fn text_fields(entries: Seq<(String, String)>, pretty: bool) -> Seq<Seq<char>>
    decreases entries.len(),
{
    if entries.len() == 0 {
        seq![]
    } else {
        text_fields(entries.drop_last(), pretty).push(
            json_field(entries.last().0@, json_text(entries.last().1@), pretty),
        )
    }
}

/// An array of strings.
pub open spec fn text_array(items: Seq<Seq<char>>, pretty: bool, level: nat) -> Seq<char> {
    json_array(json_texts(items), pretty, level)
}

/// An object of string values, in the listed order.
pub open spec fn text_map(entries: Seq<(String, String)>, pretty: bool, level: nat) -> Seq<char> {
    json_object(text_fields(entries, pretty), pretty, level)
}

fn push_escaped(text: &mut String, s: &str)
    ensures
        final(text)@ == old(text)@ + escaped(s@),
{
    let n = s.unicode_len();
    let mut i: usize = 0;
    while i < n
        invariant
            n == s@.len(),
            i <= n,
            text@ == old(text)@ + escaped(s@.subrange(0, i as int)),
        decreases n - i,
    {
        let c = s.get_char(i);
        proof {
            let next = s@.subrange(0, i + 1);
            assert(next.drop_last() =~= s@.subrange(0, i as int));
            assert(next.last() == c);
        }
        let ghost before = text@;
        if c == '"' {
            push_char(text, '\\');
            push_char(text, '"');
        } else if c == '\\' {
            push_char(text, '\\');
            push_char(text, '\\');
        } else if c == '\x08' {
            push_char(text, '\\');
            push_char(text, 'b');
        } else if c == '\t' {
            push_char(text, '\\');
            push_char(text, 't');
        } else if c == '\n' {
            push_char(text, '\\');
            push_char(text, 'n');
        } else if c == '\x0c' {
            push_char(text, '\\');
            push_char(text, 'f');
        } else if c == '\r' {
            push_char(text, '\\');
            push_char(text, 'r');
        } else if (c as u32) < 0x20 {
            push_char(text, '\\');
            push_char(text, 'u');
            push_char(text, '0');
            push_char(text, '0');
            push_hex_padded(text, c as u64, 2);
        } else {
            push_char(text, c);
        }
        assert(text@ =~= before + escaped_char(c));
        i = i + 1;
    }
    assert(s@.subrange(0, n as int) =~= s@);
}

/// A JSON string literal.
pub fn text_json(s: &str) -> (json: String)
    ensures
        json@ == json_text(s@),
{
    let mut json = String::new();
    push_char(&mut json, '"');
    push_escaped(&mut json, s);
    push_char(&mut json, '"');
    assert(json@ =~= json_text(s@));
    json
}

fn push_indent(text: &mut String, level: usize)
    ensures
        final(text)@ == old(text)@ + indent(level as nat),
    decreases level,
{
    if level > 0 {
        push_indent(text, level - 1);
        push_char(text, ' ');
        push_char(text, ' ');
        assert(text@ =~= old(text)@ + indent(level as nat));
    }
}

pub(crate) fn field_json(key: &str, value: &String, pretty: bool) -> (json: String)
    ensures
        json@ == json_field(key@, value@, pretty),
{
    let mut json = text_json(key);
    push_char(&mut json, ':');
    if pretty {
        push_char(&mut json, ' ');
    }
    push_str(&mut json, value.as_str());
    assert(json@ =~= json_field(key@, value@, pretty));
    json
}

fn bracketed_json(items: &Vec<String>, open: char, close: char, pretty: bool, level: usize) -> (json:
    String)
    requires
        level < usize::MAX,
    ensures
        json@ == bracketed(string_views(items@), open, close, pretty, level as nat),
{
    let ghost views = string_views(items@);
    let mut json = String::new();
    push_char(&mut json, open);
    if items.len() == 0 {
        push_char(&mut json, close);
        assert(json@ =~= bracketed(views, open, close, pretty, level as nat));
        return json;
    }
    if pretty {
        push_char(&mut json, '\n');
    }
    let ghost head = json@;
    let ghost parts = if pretty {
        indented(views, (level + 1) as nat)
    } else {
        views
    };
    let ghost sep = if pretty {
        seq![',', '\n']
    } else {
        seq![',']
    };
    let mut i: usize = 0;
    while i < items.len()
        invariant
            i <= items@.len(),
            items@.len() > 0,
            level < usize::MAX,
            views == string_views(items@),
            parts == (if pretty {
                indented(views, (level + 1) as nat)
            } else {
                views
            }),
            sep == (if pretty {
                seq![',', '\n']
            } else {
                seq![',']
            }),
            json@ == head + joined(parts.subrange(0, i as int), sep),
        decreases items@.len() - i,
    {
        proof {
            let next = parts.subrange(0, i + 1);
            assert(next.drop_last() =~= parts.subrange(0, i as int));
        }
        if i > 0 {
            push_char(&mut json, ',');
            if pretty {
                push_char(&mut json, '\n');
            }
        }
        if pretty {
            push_indent(&mut json, level + 1);
        }
        push_str(&mut json, items[i].as_str());
        proof {
            let next = parts.subrange(0, i + 1);
            assert(next.last() == parts[i as int]);
            if i == 0 {
                assert(json@ =~= head + joined(next, sep));
            } else {
                assert(json@ =~= head + joined(next, sep));
            }
        }
        i = i + 1;
    }
    assert(parts.subrange(0, items@.len() as int) =~= parts);
    if pretty {
        push_char(&mut json, '\n');
        push_indent(&mut json, level);
    }
    push_char(&mut json, close);
    assert(json@ =~= bracketed(views, open, close, pretty, level as nat));
    json
}

/// A rendered object from rendered fields.
pub(crate) fn object_json(fields: &Vec<String>, pretty: bool, level: usize) -> (json: String)
    requires
        level < usize::MAX,
    ensures
        json@ == json_object(string_views(fields@), pretty, level as nat),
{
    bracketed_json(fields, '{', '}', pretty, level)
}

fn array_json(items: &Vec<String>, pretty: bool, level: usize) -> (json: String)
    requires
        level < usize::MAX,
    ensures
        json@ == json_array(string_views(items@), pretty, level as nat),
{
    bracketed_json(items, '[', ']', pretty, level)
}

pub fn text_array_json(items: &Vec<String>, pretty: bool, level: usize) -> (json: String)
    requires
        level < usize::MAX,
    ensures
        json@ == text_array(string_views(items@), pretty, level as nat),
{
    let mut rendered: Vec<String> = Vec::new();
    let mut i: usize = 0;
    while i < items.len()
        invariant
            i <= items@.len(),
            string_views(rendered@) == json_texts(string_views(items@).subrange(0, i as int)),
        decreases items@.len() - i,
    {
        rendered.push(text_json(items[i].as_str()));
        proof {
            let next = string_views(items@).subrange(0, i + 1);
            assert(next.drop_last() =~= string_views(items@).subrange(0, i as int));
            assert(string_views(rendered@) =~= json_texts(next));
        }
        i = i + 1;
    }
    assert(string_views(items@).subrange(0, items@.len() as int) =~= string_views(items@));
    array_json(&rendered, pretty, level)
}

pub fn text_map_json(entries: &Vec<(String, String)>, pretty: bool, level: usize) -> (json: String)
    requires
        level < usize::MAX,
    ensures
        json@ == text_map(entries@, pretty, level as nat),
{
    let mut rendered: Vec<String> = Vec::new();
    let mut i: usize = 0;
    while i < entries.len()
        invariant
            i <= entries@.len(),
            string_views(rendered@) == text_fields(entries@.subrange(0, i as int), pretty),
        decreases entries@.len() - i,
    {
        let value = text_json(entries[i].1.as_str());
        rendered.push(field_json(entries[i].0.as_str(), &value, pretty));
        proof {
            let next = entries@.subrange(0, i + 1);
            assert(next.drop_last() =~= entries@.subrange(0, i as int));
            assert(string_views(rendered@) =~= text_fields(next, pretty));
        }
        i = i + 1;
    }
    assert(entries@.subrange(0, entries@.len() as int) =~= entries@);
    object_json(&rendered, pretty, level)
}

// ---------------------------------------------------------------------------
// Locked records
// ---------------------------------------------------------------------------

pub open spec fn text_field(key: Seq<char>, value: Seq<char>, pretty: bool) -> Seq<char> {
    json_field(key, json_text(value), pretty)
}

pub open spec fn number_field(key: Seq<char>, value: nat, pretty: bool) -> Seq<char> {
    json_field(key, decimal(value), pretty)
}

pub open spec fn package_json(p: LockedPackage, pretty: bool, level: nat) -> Seq<char> {
    json_object(
        seq![
            text_field("id"@, p.id@, pretty),
            text_field("manifest_hash"@, p.manifest_hash@, pretty),
        ] + if p.content_hash@.len() == 0 {
            seq![]
        } else {
            seq![text_field("content_hash"@, p.content_hash@, pretty)]
        },
        pretty,
        level,
    )
}

pub open spec fn packages_jsons(ps: Seq<LockedPackage>, pretty: bool, level: nat) -> Seq<Seq<char>>
    decreases ps.len(),
{
    if ps.len() == 0 {
        seq![]
    } else {
        packages_jsons(ps.drop_last(), pretty, level).push(package_json(ps.last(), pretty, level))
    }
}

pub open spec fn registry_json(r: RegistrySource, pretty: bool, level: nat) -> Seq<char> {
    json_object(
        seq![
            text_field("schema"@, r.schema@, pretty),
            text_field("id"@, r.id@, pretty),
            text_field("uri"@, r.uri@, pretty),
            text_field("descriptor_hash"@, r.descriptor_hash@, pretty),
        ],
        pretty,
        level,
    )
}

pub open spec fn safe_state_json(s: LockedSafeState, pretty: bool, level: nat) -> Seq<char> {
    json_object(
        seq![
            text_field("component"@, s.component@, pretty),
            text_field("class"@, s.class@, pretty),
            text_field("resource"@, s.resource@, pretty),
            text_field("state"@, safe_state_label(s.state), pretty),
        ] + match s.heartbeat_timeout_us {
            Some(t) => seq![number_field("heartbeat_timeout_us"@, t as nat, pretty)],
            None => seq![],
        } + match s.sensor {
            Some(sensor) => seq![text_field("sensor"@, sensor@, pretty)],
            None => seq![],
        },
        pretty,
        level,
    )
}

pub open spec fn states_jsons(states: Seq<LockedSafeState>, pretty: bool, level: nat) -> Seq<
    Seq<char>,
>
    decreases states.len(),
{
    if states.len() == 0 {
        seq![]
    } else {
        states_jsons(states.drop_last(), pretty, level).push(
            safe_state_json(states.last(), pretty, level),
        )
    }
}

/// A list of safety states.
pub open spec fn states_json(states: Seq<LockedSafeState>, pretty: bool, level: nat) -> Seq<char> {
    json_array(states_jsons(states, pretty, level + 1), pretty, level)
}

pub open spec fn safety_json(c: LockedSafetyConfig, pretty: bool, level: nat) -> Seq<char> {
    json_object(
        seq![
            text_field("schema"@, c.schema@, pretty),
            json_field("states"@, states_json(c.states@, pretty, level + 1), pretty),
        ],
        pretty,
        level,
    )
}

pub open spec fn build_json(b: LockedBuildConfig, pretty: bool, level: nat) -> Seq<char> {
    json_object(
        seq![
            text_field("schema"@, b.schema@, pretty),
            text_field("board"@, b.board@, pretty),
            text_field("chip"@, b.chip@, pretty),
            text_field("target_triple"@, b.target_triple@, pretty),
            text_field("toolchain"@, b.toolchain@, pretty),
            text_field("build_profile"@, b.build_profile@, pretty),
            text_field("protocol_version"@, b.protocol_version@, pretty),
            text_field("abi_version"@, b.abi_version@, pretty),
            number_field("flash_bytes"@, b.flash_bytes as nat, pretty),
            number_field("ram_bytes"@, b.ram_bytes as nat, pretty),
            number_field("bootloader_offset_bytes"@, b.bootloader_offset_bytes as nat, pretty),
            json_field("features"@, text_array(string_views(b.features@), pretty, level + 1), pretty),
            json_field(
                "native_drivers"@,
                text_array(string_views(b.native_drivers@), pretty, level + 1),
                pretty,
            ),
        ],
        pretty,
        level,
    )
}

pub open spec fn controller_json(c: LockedController, pretty: bool, level: nat) -> Seq<char> {
    json_object(
        seq![
            text_field("board"@, c.board@, pretty),
            json_field("resolved_resources"@, text_map(c.resolved_resources@, pretty, level + 1), pretty),
        ] + match c.safety {
            Some(safety) => seq![json_field("safety"@, safety_json(safety, pretty, level + 1), pretty)],
            None => seq![],
        } + match c.build {
            Some(build) => seq![json_field("build"@, build_json(build, pretty, level + 1), pretty)],
            None => seq![],
        },
        pretty,
        level,
    )
}

pub open spec fn controllers_fields(
    controllers: Seq<(String, LockedController)>,
    pretty: bool,
    level: nat,
) -> Seq<Seq<char>>
    decreases controllers.len(),
{
    if controllers.len() == 0 {
        seq![]
    } else {
        controllers_fields(controllers.drop_last(), pretty, level).push(
            json_field(
                controllers.last().0@,
                controller_json(controllers.last().1, pretty, level),
                pretty,
            ),
        )
    }
}

/// The canonical JSON text of a lockfile: its fields in order, the
/// registry source only when present, the controllers in the listed (id)
/// order.
pub open spec fn lock_json(l: Lockfile) -> Seq<char> {
    json_object(
        seq![
            number_field("lock_version"@, l.lock_version as nat, false),
            text_field("machine_hash"@, l.machine_hash@, false),
            text_field("resolver_version"@, l.resolver_version@, false),
        ] + match l.registry_source {
            Some(r) => seq![json_field("registry_source"@, registry_json(r, false, 1), false)],
            None => seq![],
        } + seq![
            json_field(
                "packages"@,
                json_array(packages_jsons(l.packages@, false, 2), false, 1),
                false,
            ),
            json_field("safety_profile"@, package_json(l.safety_profile, false, 1), false),
            json_field(
                "controllers"@,
                json_object(controllers_fields(l.controllers@, false, 2), false, 1),
                false,
            ),
        ],
        false,
        0,
    )
}

fn number_text(n: u64) -> (text: String)
    ensures
        text@ == decimal(n as nat),
{
    let mut text = String::new();
    push_decimal(&mut text, n);
    text
}

pub(crate) fn text_field_json(key: &str, value: &str, pretty: bool) -> (json: String)
    ensures
        json@ == text_field(key@, value@, pretty),
{
    let v = text_json(value);
    field_json(key, &v, pretty)
}

pub(crate) fn number_field_json(key: &str, value: u64, pretty: bool) -> (json: String)
    ensures
        json@ == number_field(key@, value as nat, pretty),
{
    let v = number_text(value);
    field_json(key, &v, pretty)
}

/// The JSON object of a locked package.
pub fn package_to_json(p: &LockedPackage, pretty: bool, level: usize) -> (json: String)
    requires
        level < 100,
    ensures
        json@ == package_json(*p, pretty, level as nat),
{
    let mut fields: Vec<String> = Vec::new();
    fields.push(text_field_json("id", p.id.as_str(), pretty));
    fields.push(text_field_json("manifest_hash", p.manifest_hash.as_str(), pretty));
    if p.content_hash.unicode_len() > 0 {
        fields.push(text_field_json("content_hash", p.content_hash.as_str(), pretty));
    }
    assert(string_views(fields@) =~= seq![
        text_field("id"@, p.id@, pretty),
        text_field("manifest_hash"@, p.manifest_hash@, pretty),
    ] + if p.content_hash@.len() == 0 {
        seq![]
    } else {
        seq![text_field("content_hash"@, p.content_hash@, pretty)]
    });
    object_json(&fields, pretty, level)
}

fn packages_to_json(ps: &Vec<LockedPackage>, pretty: bool, level: usize) -> (json: String)
    requires
        level < 99,
    ensures
        json@ == json_array(packages_jsons(ps@, pretty, (level + 1) as nat), pretty, level as nat),
{
    let mut items: Vec<String> = Vec::new();
    let mut i: usize = 0;
    while i < ps.len()
        invariant
            i <= ps@.len(),
            level < 99,
            string_views(items@) == packages_jsons(ps@.subrange(0, i as int), pretty, (level + 1) as nat),
        decreases ps@.len() - i,
    {
        items.push(package_to_json(&ps[i], pretty, level + 1));
        proof {
            let next = ps@.subrange(0, i + 1);
            assert(next.drop_last() =~= ps@.subrange(0, i as int));
            assert(string_views(items@) =~= packages_jsons(next, pretty, (level + 1) as nat));
        }
        i = i + 1;
    }
    assert(ps@.subrange(0, ps@.len() as int) =~= ps@);
    array_json(&items, pretty, level)
}

fn registry_to_json(r: &RegistrySource, pretty: bool, level: usize) -> (json: String)
    requires
        level < 100,
    ensures
        json@ == registry_json(*r, pretty, level as nat),
{
    let mut fields: Vec<String> = Vec::new();
    fields.push(text_field_json("schema", r.schema.as_str(), pretty));
    fields.push(text_field_json("id", r.id.as_str(), pretty));
    fields.push(text_field_json("uri", r.uri.as_str(), pretty));
    fields.push(text_field_json("descriptor_hash", r.descriptor_hash.as_str(), pretty));
    assert(string_views(fields@) =~= seq![
        text_field("schema"@, r.schema@, pretty),
        text_field("id"@, r.id@, pretty),
        text_field("uri"@, r.uri@, pretty),
        text_field("descriptor_hash"@, r.descriptor_hash@, pretty),
    ]);
    object_json(&fields, pretty, level)
}

fn safe_state_to_json(s: &LockedSafeState, pretty: bool, level: usize) -> (json: String)
    requires
        level < 100,
    ensures
        json@ == safe_state_json(*s, pretty, level as nat),
{
    let mut fields: Vec<String> = Vec::new();
    fields.push(text_field_json("component", s.component.as_str(), pretty));
    fields.push(text_field_json("class", s.class.as_str(), pretty));
    fields.push(text_field_json("resource", s.resource.as_str(), pretty));
    fields.push(text_field_json("state", s.state.as_str(), pretty));
    match s.heartbeat_timeout_us {
        Some(t) => fields.push(number_field_json("heartbeat_timeout_us", t, pretty)),
        None => {},
    }
    match &s.sensor {
        Some(sensor) => fields.push(text_field_json("sensor", sensor.as_str(), pretty)),
        None => {},
    }
    assert(string_views(fields@) =~= seq![
        text_field("component"@, s.component@, pretty),
        text_field("class"@, s.class@, pretty),
        text_field("resource"@, s.resource@, pretty),
        text_field("state"@, safe_state_label(s.state), pretty),
    ] + match s.heartbeat_timeout_us {
        Some(t) => seq![number_field("heartbeat_timeout_us"@, t as nat, pretty)],
        None => seq![],
    } + match s.sensor {
        Some(sensor) => seq![text_field("sensor"@, sensor@, pretty)],
        None => seq![],
    });
    object_json(&fields, pretty, level)
}

/// The JSON list of safety states.
pub fn states_to_json(states: &Vec<LockedSafeState>, pretty: bool, level: usize) -> (json: String)
    requires
        level < 99,
    ensures
        json@ == states_json(states@, pretty, level as nat),
{
    let mut items: Vec<String> = Vec::new();
    let mut i: usize = 0;
    while i < states.len()
        invariant
            i <= states@.len(),
            level < 99,
            string_views(items@) == states_jsons(states@.subrange(0, i as int), pretty, (level + 1) as nat),
        decreases states@.len() - i,
    {
        items.push(safe_state_to_json(&states[i], pretty, level + 1));
        proof {
            let next = states@.subrange(0, i + 1);
            assert(next.drop_last() =~= states@.subrange(0, i as int));
            assert(string_views(items@) =~= states_jsons(next, pretty, (level + 1) as nat));
        }
        i = i + 1;
    }
    assert(states@.subrange(0, states@.len() as int) =~= states@);
    array_json(&items, pretty, level)
}

/// The JSON object of a safety configuration.
pub fn safety_to_json(c: &LockedSafetyConfig, pretty: bool, level: usize) -> (json: String)
    requires
        level < 98,
    ensures
        json@ == safety_json(*c, pretty, level as nat),
{
    let mut fields: Vec<String> = Vec::new();
    fields.push(text_field_json("schema", c.schema.as_str(), pretty));
    let states = states_to_json(&c.states, pretty, level + 1);
    fields.push(field_json("states", &states, pretty));
    assert(string_views(fields@) =~= seq![
        text_field("schema"@, c.schema@, pretty),
        json_field("states"@, states_json(c.states@, pretty, (level + 1) as nat), pretty),
    ]);
    object_json(&fields, pretty, level)
}

fn build_to_json(b: &LockedBuildConfig, pretty: bool, level: usize) -> (json: String)
    requires
        level < 98,
    ensures
        json@ == build_json(*b, pretty, level as nat),
{
    let mut fields: Vec<String> = Vec::new();
    fields.push(text_field_json("schema", b.schema.as_str(), pretty));
    fields.push(text_field_json("board", b.board.as_str(), pretty));
    fields.push(text_field_json("chip", b.chip.as_str(), pretty));
    fields.push(text_field_json("target_triple", b.target_triple.as_str(), pretty));
    fields.push(text_field_json("toolchain", b.toolchain.as_str(), pretty));
    fields.push(text_field_json("build_profile", b.build_profile.as_str(), pretty));
    fields.push(text_field_json("protocol_version", b.protocol_version.as_str(), pretty));
    fields.push(text_field_json("abi_version", b.abi_version.as_str(), pretty));
    fields.push(number_field_json("flash_bytes", b.flash_bytes, pretty));
    fields.push(number_field_json("ram_bytes", b.ram_bytes, pretty));
    fields.push(number_field_json("bootloader_offset_bytes", b.bootloader_offset_bytes, pretty));
    let features = text_array_json(&b.features, pretty, level + 1);
    fields.push(field_json("features", &features, pretty));
    let drivers = text_array_json(&b.native_drivers, pretty, level + 1);
    fields.push(field_json("native_drivers", &drivers, pretty));
    assert(string_views(fields@) =~= seq![
        text_field("schema"@, b.schema@, pretty),
        text_field("board"@, b.board@, pretty),
        text_field("chip"@, b.chip@, pretty),
        text_field("target_triple"@, b.target_triple@, pretty),
        text_field("toolchain"@, b.toolchain@, pretty),
        text_field("build_profile"@, b.build_profile@, pretty),
        text_field("protocol_version"@, b.protocol_version@, pretty),
        text_field("abi_version"@, b.abi_version@, pretty),
        number_field("flash_bytes"@, b.flash_bytes as nat, pretty),
        number_field("ram_bytes"@, b.ram_bytes as nat, pretty),
        number_field("bootloader_offset_bytes"@, b.bootloader_offset_bytes as nat, pretty),
        json_field("features"@, text_array(string_views(b.features@), pretty, (level + 1) as nat), pretty),
        json_field(
            "native_drivers"@,
            text_array(string_views(b.native_drivers@), pretty, (level + 1) as nat),
            pretty,
        ),
    ]);
    object_json(&fields, pretty, level)
}

fn controller_to_json(c: &LockedController, pretty: bool, level: usize) -> (json: String)
    requires
        level < 97,
    ensures
        json@ == controller_json(*c, pretty, level as nat),
{
    let mut fields: Vec<String> = Vec::new();
    fields.push(text_field_json("board", c.board.as_str(), pretty));
    let resources = text_map_json(&c.resolved_resources, pretty, level + 1);
    fields.push(field_json("resolved_resources", &resources, pretty));
    match &c.safety {
        Some(safety) => {
            let v = safety_to_json(safety, pretty, level + 1);
            fields.push(field_json("safety", &v, pretty));
        },
        None => {},
    }
    match &c.build {
        Some(build) => {
            let v = build_to_json(build, pretty, level + 1);
            fields.push(field_json("build", &v, pretty));
        },
        None => {},
    }
    assert(string_views(fields@) =~= seq![
        text_field("board"@, c.board@, pretty),
        json_field("resolved_resources"@, text_map(c.resolved_resources@, pretty, (level + 1) as nat), pretty),
    ] + match c.safety {
        Some(safety) => seq![json_field("safety"@, safety_json(safety, pretty, (level + 1) as nat), pretty)],
        None => seq![],
    } + match c.build {
        Some(build) => seq![json_field("build"@, build_json(build, pretty, (level + 1) as nat), pretty)],
        None => seq![],
    });
    object_json(&fields, pretty, level)
}

/// The canonical JSON text of a lockfile.
pub fn lock_to_json(l: &Lockfile) -> (json: String)
    ensures
        json@ == lock_json(*l),
{
    let mut fields: Vec<String> = Vec::new();
    fields.push(number_field_json("lock_version", l.lock_version as u64, false));
    fields.push(text_field_json("machine_hash", l.machine_hash.as_str(), false));
    fields.push(text_field_json("resolver_version", l.resolver_version.as_str(), false));
    match &l.registry_source {
        Some(r) => {
            let v = registry_to_json(r, false, 1);
            fields.push(field_json("registry_source", &v, false));
        },
        None => {},
    }
    let packages = packages_to_json(&l.packages, false, 1);
    fields.push(field_json("packages", &packages, false));
    let profile = package_to_json(&l.safety_profile, false, 1);
    fields.push(field_json("safety_profile", &profile, false));
    let mut controllers: Vec<String> = Vec::new();
    let mut i: usize = 0;
    while i < l.controllers.len()
        invariant
            i <= l.controllers@.len(),
            string_views(controllers@) == controllers_fields(
                l.controllers@.subrange(0, i as int),
                false,
                2,
            ),
        decreases l.controllers@.len() - i,
    {
        let v = controller_to_json(&l.controllers[i].1, false, 2);
        controllers.push(field_json(l.controllers[i].0.as_str(), &v, false));
        proof {
            let next = l.controllers@.subrange(0, i + 1);
            assert(next.drop_last() =~= l.controllers@.subrange(0, i as int));
            assert(string_views(controllers@) =~= controllers_fields(next, false, 2));
        }
        i = i + 1;
    }
    assert(l.controllers@.subrange(0, l.controllers@.len() as int) =~= l.controllers@);
    let controllers_text = object_json(&controllers, false, 1);
    fields.push(field_json("controllers", &controllers_text, false));
    assert(string_views(fields@) =~= seq![
        number_field("lock_version"@, l.lock_version as nat, false),
        text_field("machine_hash"@, l.machine_hash@, false),
        text_field("resolver_version"@, l.resolver_version@, false),
    ] + match l.registry_source {
        Some(r) => seq![json_field("registry_source"@, registry_json(r, false, 1), false)],
        None => seq![],
    } + seq![
        json_field("packages"@, json_array(packages_jsons(l.packages@, false, 2), false, 1), false),
        json_field("safety_profile"@, package_json(l.safety_profile, false, 1), false),
        json_field(
            "controllers"@,
            json_object(controllers_fields(l.controllers@, false, 2), false, 1),
            false,
        ),
    ]);
    object_json(&fields, false, 0)
}

impl Lockfile {
    /// The canonical bytes: the UTF-8 of the compact JSON text. A lockfile
    /// that is not valid is refused with the validation message.
    pub fn try_canonical_bytes(&self) -> (bytes: Result<Vec<u8>, String>)
        ensures
            match lock_problem(*self) {
                None => bytes matches Ok(b) && b@ == vstd::utf8::encode_utf8(lock_json(*self)),
                Some(p) => bytes matches Err(m) && m@ == p,
            },
    {
        match self.validate() {
            Ok(()) => {},
            Err(m) => return Err(m),
        }
        let text = lock_to_json(self);
        Ok(text.as_str().as_bytes_vec())
    }

    /// The canonical bytes of a valid lockfile.
    pub fn canonical_bytes(&self) -> (bytes: Vec<u8>)
        requires
            lock_problem(*self) is None,
        ensures
            bytes@ == vstd::utf8::encode_utf8(lock_json(*self)),
    {
        let text = lock_to_json(self);
        text.as_str().as_bytes_vec()
    }

    /// The lock hash: the digest label of the canonical bytes, or the
    /// validation message of a lockfile that is not valid.
    pub fn try_lock_hash(&self) -> (hash: Result<String, String>)
        ensures
            match lock_problem(*self) {
                None => hash matches Ok(h) && h@ == sha256_label(
                    vstd::utf8::encode_utf8(lock_json(*self)),
                ),
                Some(p) => hash matches Err(m) && m@ == p,
            },
    {
        match self.try_canonical_bytes() {
            Ok(bytes) => Ok(sha256(bytes.as_slice())),
            Err(m) => Err(m),
        }
    }

    /// The lock hash of a valid lockfile.
    pub fn lock_hash(&self) -> (hash: String)
        requires
            lock_problem(*self) is None,
        ensures
            hash@ == sha256_label(vstd::utf8::encode_utf8(lock_json(*self))),
    {
        let bytes = self.canonical_bytes();
        sha256(bytes.as_slice())
    }
}

} // verus!
