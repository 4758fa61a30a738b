//! USB device selection for flashing and the dry-run flash plan.
//!
//! A board package's selection rule names a vendor and product id and may
//! constrain the serial number, manufacturer and product strings. Only
//! devices that satisfy every declared field are candidates; they are
//! ordered by a fixed key so that the same inventory always yields the same
//! selection. A missing or ambiguous device blocks the plan.

pub mod executor;

use vstd::prelude::*;
use vstd::utf8::*;
use vstd::slice::slice_to_vec;
use crate::digest::{sha256, sha256_label};
use crate::canonical::lock_json;
use crate::firmware::{
    build_error_text, find_controller, image_verified_as, locked_controller, plan_checked_as,
    verify_build_plan, verify_controller_image, BuildError, ControllerBuildPlanArtifact,
    ControllerImageManifest, ExpectedFirmwareArtifact,
};
use crate::lock::{lock_problem, LockedPackage, Lockfile};
use crate::package::{
    at_version, error_display, ref_shape, version_parse, LoadedPackage, LocalRegistry, PackageRef,
    RefParseError, RefShape, RegistrySource,
};
use crate::package::board::{recipe_named, BoardPackageFile, FlashMethod, UsbSelector};
use crate::text::{
    decimal, has_prefix, hex_padded, push_decimal, push_hex_padded, push_str, starts_with,
    str_eq, string_views, trim, trimmed,
};

verus! {

// ---------------------------------------------------------------------------
// Inventory and rules
// ---------------------------------------------------------------------------

/// The USB identity a board package asks for.
#[derive(Debug, PartialEq, Eq)]
pub struct UsbSelectionRule {
    pub usb_vid: u16,
    pub usb_pid: u16,
    pub serial_number: Option<String>,
    pub manufacturer: Option<String>,
    pub product: Option<String>,
}

/// One enumerated USB device.
#[derive(Debug, PartialEq, Eq)]
pub struct DiscoveredUsbDevice {
    /// `linux`, `macos`, or `windows` for native discovery; imported
    /// inventories may use another stable label.
    pub platform: String,
    pub bus_id: String,
    /// Platform-native stable location identity. It is evidence in the plan,
    /// never a substitute for the package's selection rule.
    pub location: String,
    pub device_address: u8,
    pub usb_vid: u16,
    pub usb_pid: u16,
    pub serial_number: Option<String>,
    pub manufacturer: Option<String>,
    pub product: Option<String>,
}

fn clone_optional(value: &Option<String>) -> (copy: Option<String>)
    ensures
        copy == *value,
{
    match value {
        Some(text) => Some(text.clone()),
        None => None,
    }
}

impl Clone for UsbSelectionRule {
    fn clone(&self) -> (copy: Self)
        ensures
            copy == *self,
    {
        UsbSelectionRule {
            usb_vid: self.usb_vid,
            usb_pid: self.usb_pid,
            serial_number: clone_optional(&self.serial_number),
            manufacturer: clone_optional(&self.manufacturer),
            product: clone_optional(&self.product),
        }
    }
}

impl Clone for DiscoveredUsbDevice {
    fn clone(&self) -> (copy: Self)
        ensures
            copy == *self,
    {
        DiscoveredUsbDevice {
            platform: self.platform.clone(),
            bus_id: self.bus_id.clone(),
            location: self.location.clone(),
            device_address: self.device_address,
            usb_vid: self.usb_vid,
            usb_pid: self.usb_pid,
            serial_number: clone_optional(&self.serial_number),
            manufacturer: clone_optional(&self.manufacturer),
            product: clone_optional(&self.product),
        }
    }
}

/// An optional required string is met when it is absent, or when the
/// observed string is present and equal to it.
pub open spec fn optional_exact_spec(observed: Option<String>, required: Option<String>) -> bool {
    match required {
        None => true,
        Some(r) => match observed {
            Some(o) => o@ == r@,
            None => false,
        },
    }
}

/// The device satisfies every field of the rule.
pub open spec fn device_matches(device: DiscoveredUsbDevice, rule: UsbSelectionRule) -> bool {
    &&& device.usb_vid == rule.usb_vid
    &&& device.usb_pid == rule.usb_pid
    &&& optional_exact_spec(device.serial_number, rule.serial_number)
    &&& optional_exact_spec(device.manufacturer, rule.manufacturer)
    &&& optional_exact_spec(device.product, rule.product)
}

fn optional_exact(observed: &Option<String>, required: &Option<String>) -> (met: bool)
    ensures
        met == optional_exact_spec(*observed, *required),
{
    match required {
        None => true,
        Some(r) => match observed {
            Some(o) => str_eq(o.as_str(), r.as_str()),
            None => false,
        },
    }
}

impl DiscoveredUsbDevice {
    /// Whether this device satisfies every field of `rule`.
    pub fn matches(&self, rule: &UsbSelectionRule) -> (met: bool)
        ensures
            met == device_matches(*self, *rule),
    {
        self.usb_vid == rule.usb_vid && self.usb_pid == rule.usb_pid && optional_exact(
            &self.serial_number,
            &rule.serial_number,
        ) && optional_exact(&self.manufacturer, &rule.manufacturer) && optional_exact(
            &self.product,
            &rule.product,
        )
    }
}

// ---------------------------------------------------------------------------
// Ordering
// ---------------------------------------------------------------------------

/// Lexicographic order of byte strings (that of `str`): negative, zero or
/// positive as `a` sorts before, equal to, or after `b`.
pub open spec fn bytes_order(a: Seq<u8>, b: Seq<u8>) -> int
    decreases a.len(),
{
    if a.len() == 0 {
        if b.len() == 0 {
            0
        } else {
            -1
        }
    } else if b.len() == 0 {
        1
    } else if a[0] < b[0] {
        -1
    } else if a[0] > b[0] {
        1
    } else {
        bytes_order(a.drop_first(), b.drop_first())
    }
}

/// Order of texts, by their UTF-8 bytes.
pub open spec fn text_order(a: Seq<char>, b: Seq<char>) -> int {
    bytes_order(encode_utf8(a), encode_utf8(b))
}

pub open spec fn int_order(a: int, b: int) -> int {
    if a < b {
        -1
    } else if a > b {
        1
    } else {
        0
    }
}

/// An absent string sorts as the empty string.
pub open spec fn optional_text(value: Option<String>) -> Seq<char> {
    match value {
        Some(text) => text@,
        None => seq![],
    }
}

/// The device order: by platform, bus, location, address, vendor id,
/// product id, then serial number, manufacturer and product strings.
pub open spec fn device_order(a: DiscoveredUsbDevice, b: DiscoveredUsbDevice) -> int {
    let c0 = text_order(a.platform@, b.platform@);
    let c1 = text_order(a.bus_id@, b.bus_id@);
    let c2 = text_order(a.location@, b.location@);
    let c3 = int_order(a.device_address as int, b.device_address as int);
    let c4 = int_order(a.usb_vid as int, b.usb_vid as int);
    let c5 = int_order(a.usb_pid as int, b.usb_pid as int);
    let c6 = text_order(optional_text(a.serial_number), optional_text(b.serial_number));
    let c7 = text_order(optional_text(a.manufacturer), optional_text(b.manufacturer));
    let c8 = text_order(optional_text(a.product), optional_text(b.product));
    if c0 != 0 {
        c0
    } else if c1 != 0 {
        c1
    } else if c2 != 0 {
        c2
    } else if c3 != 0 {
        c3
    } else if c4 != 0 {
        c4
    } else if c5 != 0 {
        c5
    } else if c6 != 0 {
        c6
    } else if c7 != 0 {
        c7
    } else {
        c8
    }
}

proof fn lemma_bytes_order_antisymmetric(a: Seq<u8>, b: Seq<u8>)
    ensures
        bytes_order(a, b) == -bytes_order(b, a),
        -1 <= bytes_order(a, b) <= 1,
        bytes_order(a, b) == 0 <==> a == b,
    decreases a.len(),
{
    if a.len() > 0 && b.len() > 0 && a[0] == b[0] {
        lemma_bytes_order_antisymmetric(a.drop_first(), b.drop_first());
        if a.drop_first() == b.drop_first() {
            assert(a =~= seq![a[0]] + a.drop_first());
            assert(b =~= seq![b[0]] + b.drop_first());
        }
    }
    if a.len() == 0 && b.len() == 0 {
        assert(a =~= b);
    }
    if a == b {
        assert(a.len() == b.len());
    }
}

proof fn lemma_bytes_order_transitive(a: Seq<u8>, b: Seq<u8>, c: Seq<u8>)
    requires
        bytes_order(a, b) <= 0,
        bytes_order(b, c) <= 0,
    ensures
        bytes_order(a, c) <= 0,
    decreases a.len(),
{
    if a.len() > 0 && b.len() > 0 && c.len() > 0 && a[0] == b[0] && b[0] == c[0] {
        lemma_bytes_order_transitive(a.drop_first(), b.drop_first(), c.drop_first());
    }
}

pub(crate) proof fn lemma_text_order(a: Seq<char>, b: Seq<char>, c: Seq<char>)
    ensures
        text_order(a, b) == -text_order(b, a),
        -1 <= text_order(a, b) <= 1,
        text_order(a, b) == 0 <==> a == b,
        text_order(a, b) <= 0 && text_order(b, c) <= 0 ==> text_order(a, c) <= 0,
{
    lemma_bytes_order_antisymmetric(encode_utf8(a), encode_utf8(b));
    encode_utf8_decode_utf8(a);
    encode_utf8_decode_utf8(b);
    if text_order(a, b) <= 0 && text_order(b, c) <= 0 {
        lemma_bytes_order_transitive(encode_utf8(a), encode_utf8(b), encode_utf8(c));
    }
}

/// Strict order of texts is transitive.
pub(crate) proof fn lemma_text_order_strict(a: Seq<char>, b: Seq<char>, c: Seq<char>)
    requires
        text_order(a, b) < 0,
        text_order(b, c) < 0,
    ensures
        text_order(a, c) < 0,
{
    lemma_text_order(a, b, c);
    lemma_text_order(b, c, a);
    lemma_text_order(a, c, b);
}

/// The device order is a total preorder whose ties are equal keys.
proof fn lemma_device_order(a: DiscoveredUsbDevice, b: DiscoveredUsbDevice, c: DiscoveredUsbDevice)
    ensures
        device_order(a, b) == -device_order(b, a),
        device_order(a, b) <= 0 && device_order(b, c) <= 0 ==> device_order(a, c) <= 0,
{
    lemma_text_order(a.platform@, b.platform@, c.platform@);
    lemma_text_order(b.platform@, c.platform@, a.platform@);
    lemma_text_order(a.platform@, c.platform@, b.platform@);
    lemma_text_order(a.bus_id@, b.bus_id@, c.bus_id@);
    lemma_text_order(b.bus_id@, c.bus_id@, a.bus_id@);
    lemma_text_order(a.bus_id@, c.bus_id@, b.bus_id@);
    lemma_text_order(a.location@, b.location@, c.location@);
    lemma_text_order(b.location@, c.location@, a.location@);
    lemma_text_order(a.location@, c.location@, b.location@);
    let (sa, sb, sc) = (
        optional_text(a.serial_number),
        optional_text(b.serial_number),
        optional_text(c.serial_number),
    );
    lemma_text_order(sa, sb, sc);
    lemma_text_order(sb, sc, sa);
    lemma_text_order(sa, sc, sb);
    let (ma, mb, mc) = (
        optional_text(a.manufacturer),
        optional_text(b.manufacturer),
        optional_text(c.manufacturer),
    );
    lemma_text_order(ma, mb, mc);
    lemma_text_order(mb, mc, ma);
    lemma_text_order(ma, mc, mb);
    let (pa, pb, pc) = (optional_text(a.product), optional_text(b.product), optional_text(c.product));
    lemma_text_order(pa, pb, pc);
    lemma_text_order(pb, pc, pa);
    lemma_text_order(pa, pc, pb);
}

/// Compares two texts by their UTF-8 bytes.
pub(crate) fn compare_text(a: &str, b: &str) -> (order: i8)
    ensures
        order as int == text_order(a@, b@),
{
    let x = a.as_bytes();
    let y = b.as_bytes();
    let mut i: usize = 0;
    assert(x@.subrange(0, x@.len() as int) =~= x@);
    assert(y@.subrange(0, y@.len() as int) =~= y@);
    while i < x.len() && i < y.len() && x[i] == y[i]
        invariant
            i <= x@.len(),
            i <= y@.len(),
            x@ == encode_utf8(a@),
            y@ == encode_utf8(b@),
            text_order(a@, b@) == bytes_order(x@.subrange(i as int, x@.len() as int), y@.subrange(i as int, y@.len() as int)),
        decreases x@.len() - i,
    {
        proof {
            let xs = x@.subrange(i as int, x@.len() as int);
            let ys = y@.subrange(i as int, y@.len() as int);
            assert(xs.drop_first() =~= x@.subrange(i + 1, x@.len() as int));
            assert(ys.drop_first() =~= y@.subrange(i + 1, y@.len() as int));
        }
        i = i + 1;
    }
    proof {
        assert(x@.subrange(0, x@.len() as int) =~= x@);
        assert(y@.subrange(0, y@.len() as int) =~= y@);
    }
    if i == x.len() {
        if i == y.len() {
            0
        } else {
            -1
        }
    } else if i == y.len() {
        1
    } else if x[i] < y[i] {
        -1
    } else {
        1
    }
}

fn compare_optional(a: &Option<String>, b: &Option<String>) -> (order: i8)
    ensures
        order as int == text_order(optional_text(*a), optional_text(*b)),
{
    let x: &str = match a {
        Some(text) => text.as_str(),
        None => "",
    };
    let y: &str = match b {
        Some(text) => text.as_str(),
        None => "",
    };
    proof {
        reveal_strlit("");
    }
    compare_text(x, y)
}

fn compare_int(a: u16, b: u16) -> (order: i8)
    ensures
        order as int == int_order(a as int, b as int),
{
    if a < b {
        -1
    } else if a > b {
        1
    } else {
        0
    }
}

/// Compares two devices by their sort key.
fn compare_devices(a: &DiscoveredUsbDevice, b: &DiscoveredUsbDevice) -> (order: i8)
    ensures
        order as int == device_order(*a, *b),
{
    let c = compare_text(a.platform.as_str(), b.platform.as_str());
    if c != 0 {
        return c;
    }
    let c = compare_text(a.bus_id.as_str(), b.bus_id.as_str());
    if c != 0 {
        return c;
    }
    let c = compare_text(a.location.as_str(), b.location.as_str());
    if c != 0 {
        return c;
    }
    let c = compare_int(a.device_address as u16, b.device_address as u16);
    if c != 0 {
        return c;
    }
    let c = compare_int(a.usb_vid, b.usb_vid);
    if c != 0 {
        return c;
    }
    let c = compare_int(a.usb_pid, b.usb_pid);
    if c != 0 {
        return c;
    }
    let c = compare_optional(&a.serial_number, &b.serial_number);
    if c != 0 {
        return c;
    }
    let c = compare_optional(&a.manufacturer, &b.manufacturer);
    if c != 0 {
        return c;
    }
    compare_optional(&a.product, &b.product)
}

// ---------------------------------------------------------------------------
// Selection
// ---------------------------------------------------------------------------

/// The devices that satisfy the rule, in inventory order.
pub open spec fn matching_devices(devices: Seq<DiscoveredUsbDevice>, rule: UsbSelectionRule) -> Seq<
    DiscoveredUsbDevice,
>
    decreases devices.len(),
{
    if devices.len() == 0 {
        seq![]
    } else {
        let rest = matching_devices(devices.drop_last(), rule);
        if device_matches(devices.last(), rule) {
            rest.push(devices.last())
        } else {
            rest
        }
    }
}

/// `x` placed after every element of `sorted` that does not sort after it
/// (so ties keep their arrival order).
pub open spec fn insert_in_order(sorted: Seq<DiscoveredUsbDevice>, x: DiscoveredUsbDevice) -> Seq<
    DiscoveredUsbDevice,
>
    decreases sorted.len(),
{
    if sorted.len() == 0 {
        seq![x]
    } else if device_order(sorted.last(), x) <= 0 {
        sorted.push(x)
    } else {
        insert_in_order(sorted.drop_last(), x).push(sorted.last())
    }
}

/// The stable sort of `devices` by the device order.
pub open spec fn sorted_devices(devices: Seq<DiscoveredUsbDevice>) -> Seq<DiscoveredUsbDevice>
    decreases devices.len(),
{
    if devices.len() == 0 {
        seq![]
    } else {
        insert_in_order(sorted_devices(devices.drop_last()), devices.last())
    }
}

/// Every device sorts no later than the ones after it.
pub open spec fn is_sorted(devices: Seq<DiscoveredUsbDevice>) -> bool {
    forall|i: int, j: int| 0 <= i < j < devices.len() ==> device_order(devices[i], devices[j]) <= 0
}

/// How many candidates a selection found.
#[derive(Debug, Clone, Copy, PartialEq, Eq, Structural)]
pub enum MatchStatus {
    Missing,
    Unique,
    Ambiguous,
}

pub open spec fn status_for(count: nat) -> MatchStatus {
    if count == 0 {
        MatchStatus::Missing
    } else if count == 1 {
        MatchStatus::Unique
    } else {
        MatchStatus::Ambiguous
    }
}

/// The rule, what it found, and the ordered candidates.
#[derive(Debug, PartialEq, Eq)]
pub struct DeviceSelection {
    pub rule: UsbSelectionRule,
    pub status: MatchStatus,
    pub candidates: Vec<DiscoveredUsbDevice>,
}

impl Clone for DeviceSelection {
    fn clone(&self) -> (copy: Self)
        ensures
            copy.rule == self.rule,
            copy.status == self.status,
            copy.candidates@ == self.candidates@,
    {
        let mut candidates: Vec<DiscoveredUsbDevice> = Vec::new();
        let mut i: usize = 0;
        while i < self.candidates.len()
            invariant
                i <= self.candidates@.len(),
                candidates@ == self.candidates@.subrange(0, i as int),
            decreases self.candidates@.len() - i,
        {
            candidates.push(self.candidates[i].clone());
            assert(candidates@ =~= self.candidates@.subrange(0, i + 1));
            i = i + 1;
        }
        assert(candidates@ =~= self.candidates@);
        DeviceSelection { rule: self.rule.clone(), status: self.status, candidates }
    }
}

/// Inserts `x` into a vector kept in device order, after its ties.
fn insert_device(sorted: &mut Vec<DiscoveredUsbDevice>, x: DiscoveredUsbDevice)
    ensures
        final(sorted)@ == insert_in_order(old(sorted)@, x),
{
    let ghost s = sorted@;
    let mut pos = sorted.len();
    assert(s.subrange(0, pos as int) =~= s);
    assert(s.subrange(pos as int, s.len() as int) =~= Seq::<DiscoveredUsbDevice>::empty());
    while pos > 0 && compare_devices(&sorted[pos - 1], &x) > 0
        invariant
            sorted@ == s,
            pos <= s.len(),
            insert_in_order(s, x) == insert_in_order(s.subrange(0, pos as int), x) + s.subrange(
                pos as int,
                s.len() as int,
            ),
        decreases pos,
    {
        proof {
            let prefix = s.subrange(0, pos as int);
            assert(prefix.drop_last() =~= s.subrange(0, pos - 1));
            assert(prefix.last() == s[pos - 1]);
            assert(s.subrange(pos - 1, s.len() as int) =~= seq![s[pos - 1]] + s.subrange(
                pos as int,
                s.len() as int,
            ));
            assert(insert_in_order(prefix, x) == insert_in_order(s.subrange(0, pos - 1), x).push(
                s[pos - 1],
            ));
            assert(insert_in_order(s.subrange(0, pos - 1), x).push(s[pos - 1]) + s.subrange(
                pos as int,
                s.len() as int,
            ) =~= insert_in_order(s.subrange(0, pos - 1), x) + s.subrange(
                pos - 1,
                s.len() as int,
            ));
        }
        pos = pos - 1;
    }
    proof {
        let prefix = s.subrange(0, pos as int);
        if pos > 0 {
            assert(prefix.last() == s[pos - 1]);
            assert(insert_in_order(prefix, x) == prefix.push(x));
        } else {
            assert(prefix.len() == 0);
            assert(insert_in_order(prefix, x) =~= prefix.push(x));
        }
        assert(prefix.push(x) + s.subrange(pos as int, s.len() as int) =~= s.insert(pos as int, x));
    }
    sorted.insert(pos, x);
}

/// Match and deterministically order only the candidates that satisfy every
/// field of the selection rule. Selection never falls back to a partial
/// match.
pub fn match_usb_devices(rule: UsbSelectionRule, devices: &[DiscoveredUsbDevice]) -> (selection:
    DeviceSelection)
    ensures
        selection.rule == rule,
        selection.candidates@ == sorted_devices(matching_devices(devices@, rule)),
        selection.status == status_for(selection.candidates@.len()),
{
    let mut candidates: Vec<DiscoveredUsbDevice> = Vec::new();
    let mut i: usize = 0;
    while i < devices.len()
        invariant
            i <= devices@.len(),
            candidates@ == sorted_devices(matching_devices(devices@.subrange(0, i as int), rule)),
        decreases devices@.len() - i,
    {
        proof {
            let next = devices@.subrange(0, i + 1);
            assert(next.drop_last() =~= devices@.subrange(0, i as int));
            assert(next.last() == devices@[i as int]);
        }
        if devices[i].matches(&rule) {
            proof {
                let next = devices@.subrange(0, i + 1);
                let m = matching_devices(next, rule);
                assert(m.drop_last() =~= matching_devices(devices@.subrange(0, i as int), rule));
                assert(m.last() == devices@[i as int]);
            }
            insert_device(&mut candidates, devices[i].clone());
        }
        i = i + 1;
    }
    assert(devices@.subrange(0, devices@.len() as int) =~= devices@);
    let status = if candidates.len() == 0 {
        MatchStatus::Missing
    } else if candidates.len() == 1 {
        MatchStatus::Unique
    } else {
        MatchStatus::Ambiguous
    };
    DeviceSelection { rule, status, candidates }
}

/// Discovered devices in the deterministic device order (a stable sort by
/// bus, location, address, ids and descriptor strings).
pub fn sort_devices(devices: Vec<DiscoveredUsbDevice>) -> (sorted: Vec<DiscoveredUsbDevice>)
    ensures
        sorted@ == sorted_devices(devices@),
{
    let mut sorted: Vec<DiscoveredUsbDevice> = Vec::new();
    let mut i: usize = 0;
    while i < devices.len()
        invariant
            i <= devices@.len(),
            sorted@ == sorted_devices(devices@.subrange(0, i as int)),
        decreases devices@.len() - i,
    {
        proof {
            let next = devices@.subrange(0, i + 1);
            assert(next.drop_last() =~= devices@.subrange(0, i as int));
            assert(next.last() == devices@[i as int]);
        }
        insert_device(&mut sorted, devices[i].clone());
        i = i + 1;
    }
    assert(devices@.subrange(0, devices@.len() as int) =~= devices@);
    sorted
}

// ---------------------------------------------------------------------------
// Laws of the selection
// ---------------------------------------------------------------------------

proof fn lemma_insert_in_order_multiset(sorted: Seq<DiscoveredUsbDevice>, x: DiscoveredUsbDevice)
    ensures
        insert_in_order(sorted, x).to_multiset() =~= sorted.to_multiset().insert(x),
    decreases sorted.len(),
{
    broadcast use vstd::seq_lib::group_to_multiset_ensures;

    if sorted.len() == 0 {
        assert(seq![x] =~= Seq::<DiscoveredUsbDevice>::empty().push(x));
    } else if device_order(sorted.last(), x) <= 0 {
    } else {
        let rest = sorted.drop_last();
        lemma_insert_in_order_multiset(rest, x);
        assert(sorted =~= rest.push(sorted.last()));
    }
}

proof fn lemma_insert_in_order_sorted(sorted: Seq<DiscoveredUsbDevice>, x: DiscoveredUsbDevice)
    requires
        is_sorted(sorted),
    ensures
        is_sorted(insert_in_order(sorted, x)),
    decreases sorted.len(),
{
    broadcast use vstd::seq_lib::group_to_multiset_ensures;

    let r = insert_in_order(sorted, x);
    if sorted.len() == 0 {
    } else if device_order(sorted.last(), x) <= 0 {
        assert forall|i: int, j: int| 0 <= i < j < r.len() implies device_order(r[i], r[j]) <= 0 by {
            if j == r.len() - 1 && i < sorted.len() - 1 {
                lemma_device_order(r[i], sorted.last(), x);
            }
        }
    } else {
        let rest = sorted.drop_last();
        let last = sorted.last();
        let inner = insert_in_order(rest, x);
        lemma_insert_in_order_sorted(rest, x);
        lemma_insert_in_order_multiset(rest, x);
        lemma_device_order(last, x, x);
        assert forall|i: int, j: int| 0 <= i < j < r.len() implies device_order(r[i], r[j]) <= 0 by {
            if j == r.len() - 1 {
                let y = inner[i];
                assert(inner.to_multiset().count(y) > 0);
                if y != x {
                    assert(rest.to_multiset().count(y) > 0);
                    let k = choose|k: int| 0 <= k < rest.len() && rest[k] == y;
                    assert(sorted[k] == y);
                } else {
                    lemma_device_order(x, last, x);
                }
            }
        }
    }
}

proof fn lemma_sorted_devices(devices: Seq<DiscoveredUsbDevice>)
    ensures
        is_sorted(sorted_devices(devices)),
        sorted_devices(devices).to_multiset() =~= devices.to_multiset(),
    decreases devices.len(),
{
    broadcast use vstd::seq_lib::group_to_multiset_ensures;

    if devices.len() > 0 {
        let rest = devices.drop_last();
        lemma_sorted_devices(rest);
        lemma_insert_in_order_sorted(sorted_devices(rest), devices.last());
        lemma_insert_in_order_multiset(sorted_devices(rest), devices.last());
        assert(devices =~= rest.push(devices.last()));
    }
}

proof fn lemma_matching_devices(devices: Seq<DiscoveredUsbDevice>, rule: UsbSelectionRule, x: DiscoveredUsbDevice)
    ensures
        matching_devices(devices, rule).to_multiset().count(x) == (if device_matches(x, rule) {
            devices.to_multiset().count(x)
        } else {
            0
        }),
    decreases devices.len(),
{
    broadcast use vstd::seq_lib::group_to_multiset_ensures;

    if devices.len() > 0 {
        let rest = devices.drop_last();
        lemma_matching_devices(rest, rule, x);
        assert(devices =~= rest.push(devices.last()));
    }
}

/// A candidate meets every field the rule names: the vendor and product
/// ids, and each of the serial number, manufacturer and product string the
/// rule names, reported exactly so by the device; and every discovered
/// device that meets them all is a candidate.
pub proof fn candidates_meet_every_named_field(
    devices: Seq<DiscoveredUsbDevice>,
    rule: UsbSelectionRule,
    x: DiscoveredUsbDevice,
)
    ensures
        ({
            let exact = |observed: Option<String>, required: Option<String>|
                (required matches Some(r) ==> (observed matches Some(o) && o@ == r@));
            let meets = x.usb_vid == rule.usb_vid && x.usb_pid == rule.usb_pid && exact(
                x.serial_number,
                rule.serial_number,
            ) && exact(x.manufacturer, rule.manufacturer) && exact(x.product, rule.product);
            &&& sorted_devices(matching_devices(devices, rule)).contains(x) ==> meets
            &&& devices.contains(x) && meets ==> sorted_devices(matching_devices(devices, rule)).contains(x)
        }),
{
    broadcast use vstd::seq_lib::group_to_multiset_ensures;

    candidates_are_exactly_the_matching_devices(devices, rule, x);
}

/// The candidates are exactly the enumerated devices that satisfy every
/// field of the rule, each as often as it was enumerated: a device that
/// fails any declared field is never a candidate.
pub proof fn candidates_are_exactly_the_matching_devices(
    devices: Seq<DiscoveredUsbDevice>,
    rule: UsbSelectionRule,
    x: DiscoveredUsbDevice,
)
    ensures
        sorted_devices(matching_devices(devices, rule)).to_multiset().count(x) == (if device_matches(
            x,
            rule,
        ) {
            devices.to_multiset().count(x)
        } else {
            0
        }),
        sorted_devices(matching_devices(devices, rule)).contains(x) ==> device_matches(x, rule),
{
    broadcast use vstd::seq_lib::group_to_multiset_ensures;

    lemma_sorted_devices(matching_devices(devices, rule));
    lemma_matching_devices(devices, rule, x);
}

/// The candidates come out in the device order.
pub proof fn candidates_are_in_device_order(devices: Seq<DiscoveredUsbDevice>, rule: UsbSelectionRule)
    ensures
        is_sorted(sorted_devices(matching_devices(devices, rule))),
{
    lemma_sorted_devices(matching_devices(devices, rule));
}

/// Devices that tie in the device order are the same device.
pub open spec fn ties_are_equal(devices: Seq<DiscoveredUsbDevice>) -> bool {
    forall|i: int, j: int|
        0 <= i < devices.len() && 0 <= j < devices.len() && device_order(devices[i], devices[j]) == 0
            ==> devices[i] == devices[j]
}

proof fn lemma_sorted_permutation_is_unique(a: Seq<DiscoveredUsbDevice>, b: Seq<DiscoveredUsbDevice>)
    requires
        is_sorted(a),
        is_sorted(b),
        a.to_multiset() == b.to_multiset(),
        ties_are_equal(a),
    ensures
        a == b,
    decreases a.len(),
{
    broadcast use vstd::seq_lib::group_to_multiset_ensures;

    if a.len() == 0 {
        assert(b.len() == 0);
        assert(a =~= b);
    } else {
        assert(b.len() == a.to_multiset().len());
        let a0 = a[0];
        let b0 = b[0];
        assert(a.to_multiset().count(a0) > 0);
        assert(b.contains(a0));
        let k = choose|k: int| 0 <= k < b.len() && b[k] == a0;
        assert(b.to_multiset().count(b0) > 0);
        assert(a.contains(b0));
        let j = choose|j: int| 0 <= j < a.len() && a[j] == b0;
        lemma_device_order(a0, b0, a0);
        if k > 0 {
            assert(device_order(b[0], b[k]) <= 0);
        }
        if j > 0 {
            assert(device_order(a[0], a[j]) <= 0);
        }
        assert(device_order(a0, b0) == 0);
        assert(a[0] == a[j]);
        let ta = a.drop_first();
        let tb = b.drop_first();
        assert(ta =~= a.remove(0));
        assert(tb =~= b.remove(0));
        assert(ta.to_multiset() =~= b.to_multiset().remove(a0));
        assert(tb.to_multiset() =~= b.to_multiset().remove(a0));
        assert forall|i: int, l: int| 0 <= i < l < ta.len() implies device_order(ta[i], ta[l]) <= 0 by {
            assert(ta[i] == a[i + 1] && ta[l] == a[l + 1]);
        }
        assert forall|i: int, l: int| 0 <= i < l < tb.len() implies device_order(tb[i], tb[l]) <= 0 by {
            assert(tb[i] == b[i + 1] && tb[l] == b[l + 1]);
        }
        assert forall|i: int, l: int|
            0 <= i < ta.len() && 0 <= l < ta.len() && device_order(ta[i], ta[l]) == 0 implies ta[i]
            == ta[l] by {
            assert(ta[i] == a[i + 1] && ta[l] == a[l + 1]);
        }
        lemma_sorted_permutation_is_unique(ta, tb);
        assert forall|i: int| 0 <= i < a.len() implies a[i] == b[i] by {
            if i > 0 {
                assert(a[i] == ta[i - 1]);
                assert(b[i] == tb[i - 1]);
            }
        }
        assert(a =~= b);
    }
}

/// Matching is deterministic: the same inventory, enumerated in any order,
/// yields the same candidates in the same order, whenever no two different
/// matching devices tie in the device order.
pub proof fn matching_is_deterministic(
    first: Seq<DiscoveredUsbDevice>,
    second: Seq<DiscoveredUsbDevice>,
    rule: UsbSelectionRule,
)
    requires
        first.to_multiset() == second.to_multiset(),
        ties_are_equal(matching_devices(first, rule)),
    ensures
        sorted_devices(matching_devices(first, rule)) == sorted_devices(
            matching_devices(second, rule),
        ),
{
    broadcast use vstd::seq_lib::group_to_multiset_ensures;

    let m1 = matching_devices(first, rule);
    let m2 = matching_devices(second, rule);
    let c1 = sorted_devices(m1);
    let c2 = sorted_devices(m2);
    lemma_sorted_devices(m1);
    lemma_sorted_devices(m2);
    assert forall|x: DiscoveredUsbDevice| m1.to_multiset().count(x) == m2.to_multiset().count(x) by {
        lemma_matching_devices(first, rule, x);
        lemma_matching_devices(second, rule, x);
    }
    assert(m1.to_multiset() =~= m2.to_multiset());
    assert forall|i: int, l: int|
        0 <= i < c1.len() && 0 <= l < c1.len() && device_order(c1[i], c1[l]) == 0 implies c1[i]
        == c1[l] by {
        assert(c1.to_multiset().count(c1[i]) > 0);
        assert(c1.to_multiset().count(c1[l]) > 0);
        assert(m1.contains(c1[i]));
        assert(m1.contains(c1[l]));
        let p = choose|p: int| 0 <= p < m1.len() && m1[p] == c1[i];
        let q = choose|q: int| 0 <= q < m1.len() && m1[q] == c1[l];
    }
    lemma_sorted_permutation_is_unique(c1, c2);
}

// ---------------------------------------------------------------------------
// Plans and execution
// ---------------------------------------------------------------------------

/// Schema label of a flash plan.
pub const FLASH_PLAN_SCHEMA: &'static str = "dryer.flash-plan/v0.2";

/// USB enumeration failed.
#[derive(Debug, Clone, PartialEq, Eq)]
pub struct DiscoveryError {
    message: String,
}

impl DiscoveryError {
    /// What the platform reported.
    pub closed spec fn detail(&self) -> Seq<char> {
        self.message@
    }

    pub fn new(message: String) -> (error: Self)
        ensures
            error.detail() == message@,
    {
        DiscoveryError { message }
    }

    /// The error as a sentence: `USB discovery failed: <message>`.
    pub fn to_message(&self) -> (text: String)
        ensures
            text@ == "USB discovery failed: "@ + self.detail(),
    {
        let mut text = String::new();
        push_str(&mut text, "USB discovery failed: ");
        push_str(&mut text, self.message.as_str());
        text
    }
}

/// Where the artifact to flash lies, and its optional signature.
#[derive(Debug, Clone, Copy)]
pub struct ArtifactSpec<'a> {
    pub path: &'a str,
    pub signature: Option<&'a str>,
}

/// What the plan knows of the firmware artifact.
#[derive(Debug, Clone, PartialEq, Eq)]
pub struct ArtifactPlan {
    pub format: String,
    pub path: String,
    pub size_bytes: u64,
    pub expected_sha256: String,
    pub observed_sha256: String,
    pub hash_matches: bool,
    pub deployable: bool,
    pub signature: Option<String>,
}

/// One step of a dry-run plan.
#[derive(Debug, Clone, PartialEq, Eq)]
pub enum PlanStep {
    InspectArtifact,
    SelectDevice,
    CheckCurrentFirmware { expected: String },
    EnterBootloader { instruction: String },
    FlashArtifact { method: String, transport: String },
    VerifyArtifact { method: String },
    ConfirmBoard { expected: String },
}

/// A complete, non-mutating flash plan.
#[derive(Debug, Clone, PartialEq, Eq)]
pub struct FlashPlan {
    pub schema: String,
    pub mode: String,
    pub ready: bool,
    pub controller: String,
    pub lock_hash: String,
    /// Exact locked `namespace/name@version` board identity.
    pub board: String,
    pub method: String,
    pub transport: String,
    pub device_selection: DeviceSelection,
    pub expected_current_firmware: String,
    pub artifact: ArtifactPlan,
    pub steps: Vec<PlanStep>,
    pub blocked_reasons: Vec<String>,
    pub recovery: Vec<String>,
}

/// Why a plan could not be produced.
#[derive(Debug)]
pub enum PlanError {
    UnknownController(String),
    InvalidLock(String),
    RegistryDrift(String),
    RegistryIo(String),
    InvalidBoardMetadata(String),
    MissingFlashMetadata(String),
    InvalidInput(String),
    BuildOutput(String),
    ArtifactIo(String),
}

/// The outcome of a flash.
#[derive(Debug, Clone, PartialEq, Eq)]
pub struct FlashResult {
    pub success: bool,
    pub controller_id: String,
    pub bytes_written: usize,
    pub execution_log: Vec<String>,
}

/// Why a flash was refused or failed.
#[derive(Debug, Clone, PartialEq, Eq)]
pub enum FlashExecutionError {
    PlanNotReady { reason: String },
    ChecksumMismatch { expected: String, actual: String },
    DeviceNotFound { target: String },
    TransportError { message: String },
}

/// Something that can flash a ready plan's artifact.
pub trait FlashExecutor {
    fn execute_flash(&mut self, plan: &FlashPlan, artifact_bytes: &[u8]) -> Result<
        FlashResult,
        FlashExecutionError,
    >;
}

/// The first blocked reason of a plan, or the given fallback.
pub open spec fn first_reason_or(plan: FlashPlan, fallback: Seq<char>) -> Seq<char> {
    if plan.blocked_reasons@.len() > 0 {
        plan.blocked_reasons@[0]@
    } else {
        fallback
    }
}

fn first_reason_or_else(plan: &FlashPlan, fallback: &str) -> (reason: String)
    ensures
        reason@ == first_reason_or(*plan, fallback@),
{
    if plan.blocked_reasons.len() > 0 {
        plan.blocked_reasons[0].clone()
    } else {
        fallback.to_owned()
    }
}

/// In-memory executor that records what it would have flashed.
#[derive(Debug)]
pub struct MockFlashExecutor {
    pub flashed_artifacts: Vec<(String, Vec<u8>)>,
}

impl MockFlashExecutor {
    pub fn new() -> (executor: Self)
        ensures
            executor.flashed_artifacts@.len() == 0,
    {
        MockFlashExecutor { flashed_artifacts: Vec::new() }
    }
}

impl Default for MockFlashExecutor {
    fn default() -> (executor: Self)
        ensures
            executor.flashed_artifacts@.len() == 0,
    {
        MockFlashExecutor::new()
    }
}

/// The log of a flash that the mock executor accepted.
pub open spec fn mock_log(plan: FlashPlan, length: nat) -> Seq<Seq<char>> {
    seq![
        "verified checksum "@ + plan.artifact.expected_sha256@,
        "flashed "@ + decimal(length) + " bytes to "@ + plan.controller@,
    ]
}

impl FlashExecutor for MockFlashExecutor {
    /// Refuses a plan that is not ready and bytes whose digest is not the
    /// plan's; otherwise records the controller and the bytes.
    fn execute_flash(&mut self, plan: &FlashPlan, artifact_bytes: &[u8]) -> (result: Result<
        FlashResult,
        FlashExecutionError,
    >)
        ensures
            !plan.ready ==> {
                &&& result matches Err(FlashExecutionError::PlanNotReady { reason })
                &&& reason@ == first_reason_or(*plan, "plan is deployable: false"@)
                &&& final(self).flashed_artifacts@ == old(self).flashed_artifacts@
            },
            plan.ready && sha256_label(artifact_bytes@) != plan.artifact.expected_sha256@ ==> {
                &&& result matches Err(FlashExecutionError::ChecksumMismatch { expected, actual })
                &&& expected@ == plan.artifact.expected_sha256@
                &&& actual@ == sha256_label(artifact_bytes@)
                &&& final(self).flashed_artifacts@ == old(self).flashed_artifacts@
            },
            plan.ready && sha256_label(artifact_bytes@) == plan.artifact.expected_sha256@ ==> {
                &&& result matches Ok(flashed)
                &&& flashed.success
                &&& flashed.controller_id@ == plan.controller@
                &&& flashed.bytes_written == artifact_bytes@.len()
                &&& string_views(flashed.execution_log@) == mock_log(*plan, artifact_bytes@.len())
                &&& final(self).flashed_artifacts@.len() == old(self).flashed_artifacts@.len() + 1
                &&& final(self).flashed_artifacts@.drop_last() == old(self).flashed_artifacts@
                &&& final(self).flashed_artifacts@.last().0@ == plan.controller@
                &&& final(self).flashed_artifacts@.last().1@ == artifact_bytes@
            },
    {
        if !plan.ready {
            let reason = first_reason_or_else(plan, "plan is deployable: false");
            return Err(FlashExecutionError::PlanNotReady { reason });
        }
        let actual = sha256(artifact_bytes);
        if !str_eq(actual.as_str(), plan.artifact.expected_sha256.as_str()) {
            return Err(
                FlashExecutionError::ChecksumMismatch {
                    expected: plan.artifact.expected_sha256.clone(),
                    actual,
                },
            );
        }
        let bytes = slice_to_vec(artifact_bytes);
        self.flashed_artifacts.push((plan.controller.clone(), bytes));
        let mut first = String::new();
        push_str(&mut first, "verified checksum ");
        push_str(&mut first, plan.artifact.expected_sha256.as_str());
        let mut second = String::new();
        push_str(&mut second, "flashed ");
        push_decimal(&mut second, artifact_bytes.len() as u64);
        push_str(&mut second, " bytes to ");
        push_str(&mut second, plan.controller.as_str());
        let mut execution_log: Vec<String> = Vec::new();
        execution_log.push(first);
        execution_log.push(second);
        assert(string_views(execution_log@) =~= mock_log(*plan, artifact_bytes@.len()));
        assert(self.flashed_artifacts@.drop_last() =~= old(self).flashed_artifacts@);
        Ok(
            FlashResult {
                success: true,
                controller_id: plan.controller.clone(),
                bytes_written: artifact_bytes.len(),
                execution_log,
            },
        )
    }
}

// ---------------------------------------------------------------------------
// Dry-run planning
// ---------------------------------------------------------------------------

/// `vvvv:pppp` in lowercase hexadecimal.
pub open spec fn vid_pid_text(vid: u16, pid: u16) -> Seq<char> {
    hex_padded(vid as nat, 4) + ":"@ + hex_padded(pid as nat, 4)
}

pub(crate) fn vid_pid_string(vid: u16, pid: u16) -> (text: String)
    ensures
        text@ == vid_pid_text(vid, pid),
{
    let mut text = String::new();
    push_hex_padded(&mut text, vid as u64, 4);
    push_str(&mut text, ":");
    push_hex_padded(&mut text, pid as u64, 4);
    assert(text@ =~= vid_pid_text(vid, pid));
    text
}

/// The selection rule a board's USB selector states.
pub open spec fn rule_of(selector: UsbSelector) -> UsbSelectionRule {
    UsbSelectionRule {
        usb_vid: selector.usb_vid,
        usb_pid: selector.usb_pid,
        serial_number: selector.serial_number,
        manufacturer: selector.manufacturer,
        product: selector.product,
    }
}

impl UsbSelectionRule {
    /// The rule a board's USB selector states.
    pub fn from_selector(selector: &UsbSelector) -> (rule: Self)
        ensures
            rule == rule_of(*selector),
    {
        UsbSelectionRule {
            usb_vid: selector.usb_vid,
            usb_pid: selector.usb_pid,
            serial_number: clone_optional(&selector.serial_number),
            manufacturer: clone_optional(&selector.manufacturer),
            product: clone_optional(&selector.product),
        }
    }
}

impl<'a> From<&'a UsbSelector> for UsbSelectionRule {
    fn from(value: &'a UsbSelector) -> (rule: Self) {
        UsbSelectionRule::from_selector(value)
    }
}

impl<'a> vstd::std_specs::convert::FromSpecImpl<&'a UsbSelector> for UsbSelectionRule {
    open spec fn obeys_from_spec() -> bool {
        true
    }

    open spec fn from_spec(v: &'a UsbSelector) -> Self {
        rule_of(*v)
    }
}

/// The locked packages pinned for `board`: those whose id is `board@...`.
pub open spec fn board_pins(packages: Seq<LockedPackage>, board: Seq<char>) -> Seq<LockedPackage>
    decreases packages.len(),
{
    if packages.len() == 0 {
        seq![]
    } else {
        let rest = board_pins(packages.drop_last(), board);
        if has_prefix(packages.last().id@, board + "@"@) {
            rest.push(packages.last())
        } else {
            rest
        }
    }
}

/// The one locked package pinned for the controller's board.
pub fn exact_locked_board<'a>(packages: &'a [LockedPackage], board: &str) -> (result: Result<
    &'a LockedPackage,
    PlanError,
>)
    ensures
        ({
            let pins = board_pins(packages@, board@);
            if pins.len() == 1 {
                result matches Ok(p) && *p == pins[0]
            } else if pins.len() == 0 {
                result matches Err(PlanError::InvalidLock(m)) && m@ == "controller board '"@
                    + board@ + "' has no exact package pin"@
            } else {
                result matches Err(PlanError::InvalidLock(m)) && m@ == "controller board '"@
                    + board@ + "' has multiple exact package pins"@
            }
        }),
{
    let mut prefix = board.to_owned();
    push_str(&mut prefix, "@");
    let mut count: usize = 0;
    let mut first: usize = 0;
    let mut i: usize = 0;
    while i < packages.len()
        invariant
            prefix@ == board@ + "@"@,
            i <= packages@.len(),
            count == board_pins(packages@.subrange(0, i as int), board@).len(),
            count <= i,
            count > 0 ==> first < i && board_pins(packages@.subrange(0, i as int), board@)[0]
                == packages@[first as int],
        decreases packages@.len() - i,
    {
        proof {
            let next = packages@.subrange(0, i + 1);
            assert(next.drop_last() =~= packages@.subrange(0, i as int));
        }
        if starts_with(packages[i].id.as_str(), prefix.as_str()) {
            if count == 0 {
                first = i;
            }
            count = count + 1;
        }
        i = i + 1;
    }
    assert(packages@.subrange(0, packages@.len() as int) =~= packages@);
    let mut message = String::new();
    push_str(&mut message, "controller board '");
    push_str(&mut message, board);
    if count == 1 {
        Ok(&packages[first])
    } else if count == 0 {
        push_str(&mut message, "' has no exact package pin");
        Err(PlanError::InvalidLock(message))
    } else {
        push_str(&mut message, "' has multiple exact package pins");
        Err(PlanError::InvalidLock(message))
    }
}

/// Why the local registry's source differs from the one a lockfile v5 or
/// later pinned, if it does; earlier lockfiles pin no source.
pub open spec fn source_drift(lock: Lockfile, observed: Option<RegistrySource>) -> Option<Seq<char>> {
    if lock.lock_version >= 5 {
        match (observed, lock.registry_source) {
            (None, _) => Some("local registry has no validated portable source descriptor"@),
            (Some(o), Some(l)) => if o.schema@ == l.schema@ && o.id@ == l.id@ && o.uri@ == l.uri@
                && o.descriptor_hash@ == l.descriptor_hash@ {
                None
            } else {
                Some("registry source expected '"@ + l.id@ + "', "@ + l.descriptor_hash@ + " at "@
                    + l.uri@ + "; observed '"@ + o.id@ + "', "@ + o.descriptor_hash@ + " at "@
                    + o.uri@)
            },
            (Some(_), None) => None,
        }
    } else {
        None
    }
}

/// The message `PackageRef::parse` gives for a reference that does not
/// parse; none for one that does.
pub open spec fn ref_error(text: Seq<char>) -> Option<Seq<char>> {
    match ref_shape(text) {
        RefShape::MissingVersion => Some("'"@ + text + "' is missing '@version'"@),
        RefShape::MissingNamespace => Some("'"@ + text + "' is missing 'namespace/'"@),
        RefShape::BadIdentifiers { path } => Some(
            "'"@ + path + "' must be lowercase identifiers 'namespace/name'"@,
        ),
        RefShape::Parts { namespace, name, version } => match version_parse(version) {
            Ok(_) => None,
            Err(e) => Some("'"@ + version + "' is not semver: "@ + error_display(e)),
        },
    }
}

/// The registry package an exact `namespace/name@version` reference names.
pub open spec fn registry_package(packages: Seq<LoadedPackage>, text: Seq<char>) -> Option<
    LoadedPackage,
> {
    match ref_shape(text) {
        RefShape::Parts { namespace, name, version } => match version_parse(version) {
            Ok(v) => at_version(packages, namespace, name, v),
            Err(_) => None,
        },
        _ => None,
    }
}

fn same_source(a: &RegistrySource, b: &RegistrySource) -> (same: bool)
    ensures
        same == (a.schema@ == b.schema@ && a.id@ == b.id@ && a.uri@ == b.uri@ && a.descriptor_hash@
            == b.descriptor_hash@),
{
    str_eq(a.schema.as_str(), b.schema.as_str()) && str_eq(a.id.as_str(), b.id.as_str()) && str_eq(
        a.uri.as_str(),
        b.uri.as_str(),
    ) && str_eq(a.descriptor_hash.as_str(), b.descriptor_hash.as_str())
}

/// The checks a dry run makes before it reads the board package, in
/// order: the lock is valid; a lockfile v5 or later names the registry's
/// own source; the operator inputs are well formed; the controller is
/// locked; its build plan is reproducible from the lock; its board has
/// exactly one exact pin, which parses; and that version is in the
/// registry. Gives the pin and the registry package it names.
pub fn locate_locked_board<'a>(
    lock: &'a Lockfile,
    registry: &'a LocalRegistry,
    controller: &str,
    build_plan: &ControllerBuildPlanArtifact,
    expected_current_firmware: &str,
    signature: Option<&str>,
) -> (result: Result<(&'a LockedPackage, &'a LoadedPackage), PlanError>)
    ensures
        ({
            let firmware = expected_current_firmware@;
            if lock_problem(*lock) is Some {
                result matches Err(PlanError::InvalidLock(m)) && Some(m@) == lock_problem(*lock)
            } else if source_drift(*lock, registry.source) is Some {
                result matches Err(PlanError::RegistryDrift(m)) && Some(m@) == source_drift(
                    *lock,
                    registry.source,
                )
            } else if trimmed(firmware).len() == 0 || trimmed(firmware) != firmware {
                result matches Err(PlanError::InvalidInput(m)) && m@
                    == "expected_current_firmware must be non-empty with no surrounding whitespace"@
            } else if signature matches Some(s) && trimmed(s@).len() == 0 {
                result matches Err(PlanError::InvalidInput(m)) && m@
                    == "artifact signature must not be empty when provided"@
            } else {
                match locked_controller(lock.controllers@, controller@) {
                    None => result matches Err(PlanError::UnknownController(c)) && c@ == controller@,
                    Some(c) => exists|r: Result<(), BuildError>|
                        #[trigger] plan_checked_as(r, *lock, controller@, *build_plan) && match r {
                            Err(e) => result matches Err(PlanError::BuildOutput(m)) && m@
                                == build_error_text(e),
                            Ok(_) => {
                                let pins = board_pins(lock.packages@, c.board@);
                                if pins.len() == 0 {
                                    result matches Err(PlanError::InvalidLock(m)) && m@
                                        == "controller board '"@ + c.board@ + "' has no exact package pin"@
                                } else if pins.len() > 1 {
                                    result matches Err(PlanError::InvalidLock(m)) && m@
                                        == "controller board '"@ + c.board@
                                        + "' has multiple exact package pins"@
                                } else {
                                    match ref_error(pins[0].id@) {
                                        Some(m0) => result matches Err(PlanError::InvalidLock(m)) && m@
                                            == m0,
                                        None => match registry_package(registry.packages@, pins[0].id@) {
                                            None => result matches Err(PlanError::RegistryDrift(m))
                                                && m@ == pins[0].id@ + " is absent from the local registry"@,
                                            Some(p) => result matches Ok((b, q)) && *b == pins[0] && *q
                                                == p,
                                        },
                                    }
                                }
                            },
                        },
                }
            }
        }),
{
    match lock.validate() {
        Err(m) => return Err(PlanError::InvalidLock(m)),
        Ok(()) => {},
    }
    if lock.lock_version >= 5 {
        proof {
            crate::lock::valid_locks_keep_their_version_promises(*lock);
        }
        let locked = lock.registry_source.as_ref().unwrap();
        match &registry.source {
            None => {
                return Err(PlanError::RegistryDrift(
                    "local registry has no validated portable source descriptor".to_owned(),
                ));
            },
            Some(observed) => {
                if !same_source(observed, locked) {
                    let mut m = "registry source expected '".to_owned();
                    push_str(&mut m, locked.id.as_str());
                    push_str(&mut m, "', ");
                    push_str(&mut m, locked.descriptor_hash.as_str());
                    push_str(&mut m, " at ");
                    push_str(&mut m, locked.uri.as_str());
                    push_str(&mut m, "; observed '");
                    push_str(&mut m, observed.id.as_str());
                    push_str(&mut m, "', ");
                    push_str(&mut m, observed.descriptor_hash.as_str());
                    push_str(&mut m, " at ");
                    push_str(&mut m, observed.uri.as_str());
                    return Err(PlanError::RegistryDrift(m));
                }
            },
        }
    }
    match check_dry_run_inputs(expected_current_firmware, signature) {
        Err(e) => return Err(e),
        Ok(()) => {},
    }
    let c = match find_controller(lock, controller) {
        None => return Err(PlanError::UnknownController(controller.to_owned())),
        Some(c) => c,
    };
    let checked = verify_build_plan(lock, controller, build_plan);
    match checked {
        Err(e) => {
            let m = e.to_message();
            assert(plan_checked_as(checked, *lock, controller@, *build_plan));
            return Err(PlanError::BuildOutput(m));
        },
        Ok(()) => {},
    }
    assert(plan_checked_as(checked, *lock, controller@, *build_plan));
    let board = match exact_locked_board(lock.packages.as_slice(), c.board.as_str()) {
        Err(e) => return Err(e),
        Ok(b) => b,
    };
    let reference = match PackageRef::parse(board.id.as_str()) {
        Err(RefParseError(m)) => return Err(PlanError::InvalidLock(m)),
        Ok(r) => r,
    };
    match registry.find_version(reference.namespace.as_str(), reference.name.as_str(), &reference.version) {
        None => {
            let mut m = board.id.clone();
            push_str(&mut m, " is absent from the local registry");
            Err(PlanError::RegistryDrift(m))
        },
        Some(p) => Ok((board, p)),
    }
}

/// Check the registry copy of the locked board against the lock: its
/// `package.yaml` bytes must hash to the locked manifest hash; a lockfile
/// v2 or later must carry a content hash; and a locked content hash must
/// equal the package's observed one. The caller reads both from the
/// package's directory; a read failure is reported where its value is
/// first needed.
pub fn check_board_drift(
    lock_version: u32,
    board: &LockedPackage,
    manifest: &Result<Vec<u8>, String>,
    content_hash: &Result<String, String>,
) -> (result: Result<(), PlanError>)
    ensures
        match manifest {
            Err(e) => result matches Err(PlanError::RegistryIo(m)) && m@ == e@,
            Ok(bytes) => if sha256_label(bytes@) != board.manifest_hash@ {
                result matches Err(PlanError::RegistryDrift(m)) && m@ == board.id@ + " expected "@
                    + board.manifest_hash@ + ", observed "@ + sha256_label(bytes@)
            } else if lock_version >= 2 && board.content_hash@.len() == 0 {
                result matches Err(PlanError::InvalidLock(m)) && m@ == board.id@
                    + " has no package content hash in lockfile v"@ + decimal(lock_version as nat)
            } else if board.content_hash@.len() == 0 {
                result is Ok
            } else {
                match content_hash {
                    Err(e) => result matches Err(PlanError::RegistryIo(m)) && m@ == e@,
                    Ok(h) => if h@ == board.content_hash@ {
                        result is Ok
                    } else {
                        result matches Err(PlanError::RegistryDrift(m)) && m@ == board.id@
                            + " package content expected "@ + board.content_hash@ + ", observed "@
                            + h@
                    },
                }
            },
        },
{
    let bytes = match manifest {
        Err(e) => return Err(PlanError::RegistryIo(e.clone())),
        Ok(bytes) => bytes,
    };
    let observed = sha256(bytes.as_slice());
    if !str_eq(observed.as_str(), board.manifest_hash.as_str()) {
        let mut m = board.id.clone();
        push_str(&mut m, " expected ");
        push_str(&mut m, board.manifest_hash.as_str());
        push_str(&mut m, ", observed ");
        push_str(&mut m, observed.as_str());
        return Err(PlanError::RegistryDrift(m));
    }
    let unhashed = board.content_hash.as_str().unicode_len() == 0;
    if lock_version >= 2 && unhashed {
        let mut m = board.id.clone();
        push_str(&mut m, " has no package content hash in lockfile v");
        push_decimal(&mut m, lock_version as u64);
        return Err(PlanError::InvalidLock(m));
    }
    if unhashed {
        return Ok(());
    }
    match content_hash {
        Err(e) => Err(PlanError::RegistryIo(e.clone())),
        Ok(h) => {
            if str_eq(h.as_str(), board.content_hash.as_str()) {
                Ok(())
            } else {
                let mut m = board.id.clone();
                push_str(&mut m, " package content expected ");
                push_str(&mut m, board.content_hash.as_str());
                push_str(&mut m, ", observed ");
                push_str(&mut m, h.as_str());
                Err(PlanError::RegistryDrift(m))
            }
        },
    }
}

/// How one locked package compares with the local registry.
#[derive(Debug, Clone, PartialEq, Eq)]
pub enum PackageCheck {
    /// The exact version is present with the locked content hash.
    Matches,
    /// The exact version is present with another content hash.
    Drifted { observed: String },
    /// The exact version is not in the registry.
    Missing,
}

/// The checks of the first locked packages, in order, or the message that
/// stopped them: a reference that does not parse, or the content hash of a
/// present package that could not be read.
pub open spec fn locked_checks(
    packages: Seq<LockedPackage>,
    registry: Seq<LoadedPackage>,
    observed: Seq<Result<String, String>>,
) -> Result<Seq<PackageCheck>, Seq<char>>
    decreases packages.len(),
{
    if packages.len() == 0 {
        Ok(seq![])
    } else {
        match locked_checks(packages.drop_last(), registry, observed) {
            Err(m) => Err(m),
            Ok(done) => {
                let p = packages.last();
                match ref_error(p.id@) {
                    Some(m) => Err("invalid locked package ref '"@ + p.id@ + "': "@ + m),
                    None => match registry_package(registry, p.id@) {
                        None => Ok(done.push(PackageCheck::Missing)),
                        Some(_) => match observed[packages.len() - 1] {
                            Err(e) => Err(e@),
                            Ok(h) => if h@ == p.content_hash@ {
                                Ok(done.push(PackageCheck::Matches))
                            } else {
                                Ok(done.push(PackageCheck::Drifted { observed: h }))
                            },
                        },
                    },
                }
            },
        }
    }
}

/// Compare every locked package with the local registry, in lock order.
/// `observed` holds, at each package's position, the content hash the
/// caller computed for the registry package it names, or why it could not;
/// it is read only where that package is present.
pub fn check_locked_packages(
    packages: &Vec<LockedPackage>,
    registry: &LocalRegistry,
    observed: &Vec<Result<String, String>>,
) -> (result: Result<Vec<PackageCheck>, String>)
    requires
        observed@.len() == packages@.len(),
    ensures
        match (result, locked_checks(packages@, registry.packages@, observed@)) {
            (Ok(checks), Ok(expected)) => checks@ == expected,
            (Err(m), Err(expected)) => m@ == expected,
            _ => false,
        },
{
    let mut checks: Vec<PackageCheck> = Vec::new();
    let mut i: usize = 0;
    while i < packages.len()
        invariant
            i <= packages@.len(),
            observed@.len() == packages@.len(),
            locked_checks(packages@.subrange(0, i as int), registry.packages@, observed@) == Ok::<
                Seq<PackageCheck>,
                Seq<char>,
            >(checks@),
        decreases packages@.len() - i,
    {
        let p = &packages[i];
        proof {
            let next = packages@.subrange(0, i + 1);
            assert(next.drop_last() =~= packages@.subrange(0, i as int));
            assert(next.last() == packages@[i as int]);
        }
        let reference = match PackageRef::parse(p.id.as_str()) {
            Err(RefParseError(m)) => {
                let mut text = "invalid locked package ref '".to_owned();
                push_str(&mut text, p.id.as_str());
                push_str(&mut text, "': ");
                push_str(&mut text, m.as_str());
                proof {
                    lemma_locked_checks_stop(packages@, registry.packages@, observed@, i as nat + 1);
                }
                return Err(text);
            },
            Ok(r) => r,
        };
        match registry.find_version(reference.namespace.as_str(), reference.name.as_str(), &reference.version) {
            None => checks.push(PackageCheck::Missing),
            Some(_) => match &observed[i] {
                Err(e) => {
                    proof {
                        lemma_locked_checks_stop(packages@, registry.packages@, observed@, i as nat + 1);
                    }
                    return Err(e.clone());
                },
                Ok(h) => {
                    if str_eq(h.as_str(), p.content_hash.as_str()) {
                        checks.push(PackageCheck::Matches);
                    } else {
                        checks.push(PackageCheck::Drifted { observed: h.clone() });
                    }
                },
            },
        }
        i = i + 1;
    }
    assert(packages@.subrange(0, packages@.len() as int) =~= packages@);
    Ok(checks)
}

/// Once the checks of a prefix stop, the checks of every longer prefix stop
/// with the same message.
proof fn lemma_locked_checks_stop(
    packages: Seq<LockedPackage>,
    registry: Seq<LoadedPackage>,
    observed: Seq<Result<String, String>>,
    k: nat,
)
    requires
        k <= packages.len(),
        locked_checks(packages.subrange(0, k as int), registry, observed) is Err,
    ensures
        locked_checks(packages, registry, observed) == locked_checks(
            packages.subrange(0, k as int),
            registry,
            observed,
        ),
    decreases packages.len() - k,
{
    if k == packages.len() {
        assert(packages.subrange(0, k as int) =~= packages);
    } else {
        let next = packages.subrange(0, k as int + 1);
        assert(next.drop_last() =~= packages.subrange(0, k as int));
        lemma_locked_checks_stop(packages, registry, observed, k + 1);
    }
}

/// The operator inputs of a dry run are well formed: the expected current
/// firmware is non-empty without surrounding white space, and a signature,
/// when given, is not blank.
pub fn check_dry_run_inputs(expected_current_firmware: &str, signature: Option<&str>) -> (result:
    Result<(), PlanError>)
    ensures
        ({
            let firmware = expected_current_firmware@;
            if trimmed(firmware).len() == 0 || trimmed(firmware) != firmware {
                result matches Err(PlanError::InvalidInput(m)) && m@
                    == "expected_current_firmware must be non-empty with no surrounding whitespace"@
            } else if signature matches Some(s) && trimmed(s@).len() == 0 {
                result matches Err(PlanError::InvalidInput(m)) && m@
                    == "artifact signature must not be empty when provided"@
            } else {
                result is Ok
            }
        }),
{
    let trimmed_firmware = trim(expected_current_firmware);
    if trimmed_firmware.unicode_len() == 0 || !str_eq(trimmed_firmware, expected_current_firmware) {
        return Err(
            PlanError::InvalidInput(
                "expected_current_firmware must be non-empty with no surrounding whitespace".to_owned(),
            ),
        );
    }
    match signature {
        Some(s) => {
            if trim(s).unicode_len() == 0 {
                return Err(
                    PlanError::InvalidInput(
                        "artifact signature must not be empty when provided".to_owned(),
                    ),
                );
            }
        },
        None => {},
    }
    Ok(())
}

/// Why the device selection blocks the plan.
pub open spec fn selection_blockers(selection: DeviceSelection) -> Seq<Seq<char>> {
    match selection.status {
        MatchStatus::Missing => seq![
            "no USB device matches "@ + vid_pid_text(selection.rule.usb_vid, selection.rule.usb_pid)
                + " and all declared string constraints"@,
        ],
        MatchStatus::Ambiguous => seq![
            decimal(selection.candidates@.len())
                + " USB devices match; refine the board/controller selection rule before flashing"@,
        ],
        MatchStatus::Unique => seq![],
    }
}

/// Why the artifact blocks the plan.
pub open spec fn artifact_blockers(artifact: ArtifactPlan) -> Seq<Seq<char>> {
    (if artifact.hash_matches {
        seq![]
    } else {
        seq!["artifact sha256 does not match the expected build digest"@]
    }) + (if artifact.deployable {
        seq![]
    } else {
        seq![
            "artifact format '"@ + artifact.format@
                + "' is an inspectable reference image, not a deployable controller executable"@,
        ]
    })
}

/// The plan's steps: inspect, select, check the running firmware, the
/// board's bootloader instructions verbatim, flash, verify, confirm.
pub open spec fn planned_steps(
    steps: Seq<PlanStep>,
    expected_current_firmware: Seq<char>,
    method_name: Seq<char>,
    method: FlashMethod,
    board: Seq<char>,
) -> bool {
    let n = method.enter_bootloader@.len() as int;
    &&& steps.len() == n + 6
    &&& steps[0] is InspectArtifact
    &&& steps[1] is SelectDevice
    &&& steps[2] matches PlanStep::CheckCurrentFirmware { expected } && expected@
        == expected_current_firmware
    &&& forall|i: int|
        0 <= i < n ==> (#[trigger] steps[3 + i] matches PlanStep::EnterBootloader { instruction }
            && instruction@ == method.enter_bootloader@[i]@)
    &&& steps[n + 3] matches PlanStep::FlashArtifact { method: m, transport: t } && m@
        == method_name && t@ == method.transport@
    &&& steps[n + 4] matches PlanStep::VerifyArtifact { method: v } && v@ == method.verify@
    &&& steps[n + 5] matches PlanStep::ConfirmBoard { expected } && expected@ == board
}

fn clone_strings(v: &Vec<String>) -> (copy: Vec<String>)
    ensures
        copy@ == v@,
{
    let mut copy: Vec<String> = Vec::new();
    let mut i: usize = 0;
    while i < v.len()
        invariant
            i <= v@.len(),
            copy@ == v@.subrange(0, i as int),
        decreases v@.len() - i,
    {
        copy.push(v[i].clone());
        assert(copy@ =~= v@.subrange(0, i + 1));
        i = i + 1;
    }
    assert(copy@ =~= v@);
    copy
}

fn selection_reasons(selection: &DeviceSelection, reasons: &mut Vec<String>)
    ensures
        string_views(final(reasons)@) == string_views(old(reasons)@) + selection_blockers(
            *selection,
        ),
{
    match selection.status {
        MatchStatus::Missing => {
            let mut text = String::new();
            push_str(&mut text, "no USB device matches ");
            let ids = vid_pid_string(selection.rule.usb_vid, selection.rule.usb_pid);
            push_str(&mut text, ids.as_str());
            push_str(&mut text, " and all declared string constraints");
            reasons.push(text);
        },
        MatchStatus::Ambiguous => {
            let mut text = String::new();
            push_decimal(&mut text, selection.candidates.len() as u64);
            push_str(
                &mut text,
                " USB devices match; refine the board/controller selection rule before flashing",
            );
            reasons.push(text);
        },
        MatchStatus::Unique => {},
    }
    assert(string_views(reasons@) =~= string_views(old(reasons)@) + selection_blockers(
        *selection,
    ));
}

fn artifact_reasons(artifact: &ArtifactPlan, reasons: &mut Vec<String>)
    ensures
        string_views(final(reasons)@) == string_views(old(reasons)@) + artifact_blockers(*artifact),
{
    if !artifact.hash_matches {
        reasons.push("artifact sha256 does not match the expected build digest".to_owned());
    }
    if !artifact.deployable {
        let mut text = String::new();
        push_str(&mut text, "artifact format '");
        push_str(&mut text, artifact.format.as_str());
        push_str(
            &mut text,
            "' is an inspectable reference image, not a deployable controller executable",
        );
        reasons.push(text);
    }
    assert(string_views(reasons@) =~= string_views(old(reasons)@) + artifact_blockers(*artifact));
}

fn plan_steps(
    expected_current_firmware: &str,
    method_name: &str,
    method: &FlashMethod,
    board: &str,
) -> (steps: Vec<PlanStep>)
    ensures
        planned_steps(steps@, expected_current_firmware@, method_name@, *method, board@),
{
    let mut steps: Vec<PlanStep> = Vec::new();
    steps.push(PlanStep::InspectArtifact);
    steps.push(PlanStep::SelectDevice);
    steps.push(PlanStep::CheckCurrentFirmware { expected: expected_current_firmware.to_owned() });
    let n = method.enter_bootloader.len();
    let mut i: usize = 0;
    while i < n
        invariant
            n == method.enter_bootloader@.len(),
            i <= n,
            steps@.len() == 3 + i,
            steps@[0] is InspectArtifact,
            steps@[1] is SelectDevice,
            steps@[2] matches PlanStep::CheckCurrentFirmware { expected } && expected@
                == expected_current_firmware@,
            forall|k: int|
                0 <= k < i ==> (#[trigger] steps@[3 + k] matches PlanStep::EnterBootloader {
                    instruction,
                } && instruction@ == method.enter_bootloader@[k]@),
        decreases n - i,
    {
        steps.push(
            PlanStep::EnterBootloader { instruction: method.enter_bootloader[i].clone() },
        );
        i = i + 1;
    }
    steps.push(
        PlanStep::FlashArtifact {
            method: method_name.to_owned(),
            transport: method.transport.clone(),
        },
    );
    steps.push(PlanStep::VerifyArtifact { method: method.verify.clone() });
    steps.push(PlanStep::ConfirmBoard { expected: board.to_owned() });
    steps
}

/// What a dry-run plan holds once everything it rests on was checked: the
/// device selection by the recipe's rule, the artifact record, every
/// reason the plan is blocked, and the steps an operator follows.
pub open spec fn assembled(
    plan: FlashPlan,
    controller: Seq<char>,
    lock_hash: Seq<char>,
    board: Seq<char>,
    method_name: Seq<char>,
    method: FlashMethod,
    discovered_devices: Seq<DiscoveredUsbDevice>,
    expected_artifact: ExpectedFirmwareArtifact,
    artifact_size: u64,
    observed_sha256: Seq<char>,
    signature: Option<Seq<char>>,
    expected_current_firmware: Seq<char>,
) -> bool {
    &&& plan.schema@ == FLASH_PLAN_SCHEMA@
    &&& plan.mode@ == "dry_run"@
    &&& plan.controller@ == controller
    &&& plan.lock_hash@ == lock_hash
    &&& plan.board@ == board
    &&& plan.method@ == method_name
    &&& plan.transport@ == method.transport@
    &&& plan.device_selection.rule == rule_of(method.select)
    &&& plan.device_selection.candidates@ == sorted_devices(
        matching_devices(discovered_devices, rule_of(method.select)),
    )
    &&& plan.device_selection.status == status_for(plan.device_selection.candidates@.len())
    &&& plan.expected_current_firmware@ == expected_current_firmware
    &&& plan.artifact.format@ == expected_artifact.format@
    &&& plan.artifact.path@ == expected_artifact.path@
    &&& plan.artifact.size_bytes == artifact_size
    &&& plan.artifact.expected_sha256@ == expected_artifact.sha256@
    &&& plan.artifact.observed_sha256@ == observed_sha256
    &&& plan.artifact.hash_matches == (observed_sha256 == expected_artifact.sha256@)
    &&& plan.artifact.deployable == expected_artifact.deployable
    &&& match signature {
        Some(s) => plan.artifact.signature matches Some(t) && t@ == s,
        None => plan.artifact.signature is None,
    }
    &&& string_views(plan.blocked_reasons@) == selection_blockers(plan.device_selection) + artifact_blockers(
        plan.artifact,
    )
    &&& plan.ready == (plan.blocked_reasons@.len() == 0)
    &&& (plan.ready <==> plan.device_selection.status == MatchStatus::Unique && plan.artifact.hash_matches
        && plan.artifact.deployable)
    &&& planned_steps(plan.steps@, expected_current_firmware, method_name, method, board)
    &&& plan.recovery@ == method.recovery@
}

/// The dry-run plan, once the lock, the registry, the board recipe and the
/// artifact bytes have been read and checked: the device selection by the
/// recipe's rule, the artifact record, every reason the plan is blocked,
/// and the steps an operator follows.
pub fn assemble_dry_run_plan(
    controller: &str,
    lock_hash: &str,
    board: &str,
    method_name: &str,
    method: &FlashMethod,
    discovered_devices: &[DiscoveredUsbDevice],
    expected_artifact: &ExpectedFirmwareArtifact,
    artifact_size: u64,
    observed_sha256: &str,
    signature: Option<&str>,
    expected_current_firmware: &str,
) -> (plan: FlashPlan)
    ensures
        assembled(
            plan,
            controller@,
            lock_hash@,
            board@,
            method_name@,
            *method,
            discovered_devices@,
            *expected_artifact,
            artifact_size,
            observed_sha256@,
            match signature {
                Some(s) => Some(s@),
                None => None,
            },
            expected_current_firmware@,
        ),
{
    let hash_matches = str_eq(observed_sha256, expected_artifact.sha256.as_str());
    let artifact = ArtifactPlan {
        format: expected_artifact.format.clone(),
        path: expected_artifact.path.clone(),
        size_bytes: artifact_size,
        expected_sha256: expected_artifact.sha256.clone(),
        observed_sha256: observed_sha256.to_owned(),
        hash_matches,
        deployable: expected_artifact.deployable,
        signature: match signature {
            Some(s) => Some(s.to_owned()),
            None => None,
        },
    };
    let rule = UsbSelectionRule::from_selector(&method.select);
    let device_selection = match_usb_devices(rule, discovered_devices);
    let mut blocked_reasons: Vec<String> = Vec::new();
    selection_reasons(&device_selection, &mut blocked_reasons);
    artifact_reasons(&artifact, &mut blocked_reasons);
    assert(string_views(blocked_reasons@) =~= selection_blockers(device_selection)
        + artifact_blockers(artifact));
    let steps = plan_steps(expected_current_firmware, method_name, method, board);
    let ready = blocked_reasons.len() == 0;
    proof {
        assert(string_views(blocked_reasons@).len() == blocked_reasons@.len());
    }
    FlashPlan {
        schema: FLASH_PLAN_SCHEMA.to_owned(),
        mode: "dry_run".to_owned(),
        ready,
        controller: controller.to_owned(),
        lock_hash: lock_hash.to_owned(),
        board: board.to_owned(),
        method: method_name.to_owned(),
        transport: method.transport.clone(),
        device_selection,
        expected_current_firmware: expected_current_firmware.to_owned(),
        artifact,
        steps,
        blocked_reasons,
        recovery: clone_strings(&method.recovery),
    }
}

/// The rest of a dry run once the lock is checked against the registry
/// and the locked board's package is read: the lock must be valid; the
/// board must register its default flash recipe; artifact bytes whose
/// digest is the build plan's must pass the controller image check
/// (`parsed_image` is the image manifest the caller parsed from them);
/// then the plan is assembled with no signature.
pub fn finish_dry_run(
    lock: &Lockfile,
    controller: &str,
    build_plan: &ControllerBuildPlanArtifact,
    pin: &LockedPackage,
    board: &BoardPackageFile,
    discovered_devices: &[DiscoveredUsbDevice],
    artifact_bytes: &[u8],
    parsed_image: Result<ControllerImageManifest, String>,
    expected_current_firmware: &str,
) -> (result: Result<FlashPlan, PlanError>)
    ensures
        match lock_problem(*lock) {
            Some(p) => result matches Err(PlanError::InvalidLock(m)) && m@ == p,
            None => match board.flash {
                None => result matches Err(PlanError::MissingFlashMetadata(m)) && m@ == pin.id@,
                Some(f) => match recipe_named(f.methods@, f.default_method@) {
                    None => result matches Err(PlanError::MissingFlashMetadata(m)) && m@ == pin.id@
                        + " (default method '"@ + f.default_method@ + "')"@,
                    Some(method) => {
                        let observed = sha256_label(artifact_bytes@);
                        let planned = |p: FlashPlan|
                            assembled(
                                p,
                                controller@,
                                sha256_label(encode_utf8(lock_json(*lock))),
                                pin.id@,
                                f.default_method@,
                                method,
                                discovered_devices@,
                                build_plan.expected_artifact,
                                artifact_bytes@.len() as u64,
                                observed,
                                None,
                                expected_current_firmware@,
                            );
                        if observed == build_plan.expected_artifact.sha256@ {
                            exists|r: Result<ControllerImageManifest, BuildError>|
                                #[trigger] image_verified_as(
                                    r,
                                    *lock,
                                    controller@,
                                    *build_plan,
                                    parsed_image,
                                    artifact_bytes@,
                                ) && match r {
                                    Err(e) => result matches Err(PlanError::BuildOutput(m)) && m@
                                        == build_error_text(e),
                                    Ok(_) => result matches Ok(p) && planned(p),
                                }
                        } else {
                            result matches Ok(p) && planned(p)
                        }
                    },
                },
            },
        },
{
    let lock_hash = match lock.try_lock_hash() {
        Ok(h) => h,
        Err(m) => return Err(PlanError::InvalidLock(m)),
    };
    let flash = match &board.flash {
        Some(f) => f,
        None => return Err(PlanError::MissingFlashMetadata(pin.id.clone())),
    };
    let method = match flash.default_recipe() {
        Some(m) => m,
        None => {
            let mut m = pin.id.clone();
            push_str(&mut m, " (default method '");
            push_str(&mut m, flash.default_method.as_str());
            push_str(&mut m, "')");
            return Err(PlanError::MissingFlashMetadata(m));
        },
    };
    let observed = sha256(artifact_bytes);
    let ghost parsed_view = parsed_image;
    if str_eq(observed.as_str(), build_plan.expected_artifact.sha256.as_str()) {
        let checked = verify_controller_image(lock, controller, build_plan, parsed_image, artifact_bytes);
        match checked {
            Err(e) => {
                let m = e.to_message();
                assert(image_verified_as(checked, *lock, controller@, *build_plan, parsed_view, artifact_bytes@));
                return Err(PlanError::BuildOutput(m));
            },
            Ok(_) => {
                assert(image_verified_as(checked, *lock, controller@, *build_plan, parsed_view, artifact_bytes@));
            },
        }
    }
    let size = artifact_bytes.len() as u64;
    Ok(
        assemble_dry_run_plan(
            controller,
            lock_hash.as_str(),
            pin.id.as_str(),
            flash.default_method.as_str(),
            method,
            discovered_devices,
            &build_plan.expected_artifact,
            size,
            observed.as_str(),
            None,
            expected_current_firmware,
        ),
    )
}

fn framed(head: &str, body: &String, tail: &str) -> (text: String)
    ensures
        text@ == head@ + body@ + tail@,
{
    let mut text = head.to_owned();
    push_str(&mut text, body.as_str());
    push_str(&mut text, tail);
    text
}

fn headed(head: &str, body: &String) -> (text: String)
    ensures
        text@ == head@ + body@,
{
    let mut text = head.to_owned();
    push_str(&mut text, body.as_str());
    text
}

/// The displayed form of a planning error.
pub open spec fn plan_error_text(error: PlanError) -> Seq<char> {
    match error {
        PlanError::UnknownController(c) => "controller '"@ + c@ + "' is not in machine.lock"@,
        PlanError::InvalidLock(m) => "invalid machine.lock: "@ + m@,
        PlanError::RegistryDrift(m) => "locked registry drift: "@ + m@,
        PlanError::RegistryIo(e) => "cannot read locked registry package: "@ + e@,
        PlanError::InvalidBoardMetadata(m) => "invalid locked board metadata: "@ + m@,
        PlanError::MissingFlashMetadata(b) => "board '"@ + b@ + "' has no usable flash metadata"@,
        PlanError::InvalidInput(m) => "invalid flash-plan input: "@ + m@,
        PlanError::BuildOutput(m) => "invalid locked firmware build output: "@ + m@,
        PlanError::ArtifactIo(e) => "cannot read firmware artifact: "@ + e@,
    }
}

impl PlanError {
    /// The error as a sentence.
    pub fn to_message(&self) -> (text: String)
        ensures
            text@ == plan_error_text(*self),
    {
        match self {
            PlanError::UnknownController(c) => framed("controller '", c, "' is not in machine.lock"),
            PlanError::InvalidLock(m) => headed("invalid machine.lock: ", m),
            PlanError::RegistryDrift(m) => headed("locked registry drift: ", m),
            PlanError::RegistryIo(e) => headed("cannot read locked registry package: ", e),
            PlanError::InvalidBoardMetadata(m) => headed("invalid locked board metadata: ", m),
            PlanError::MissingFlashMetadata(b) => framed(
                "board '",
                b,
                "' has no usable flash metadata",
            ),
            PlanError::InvalidInput(m) => headed("invalid flash-plan input: ", m),
            PlanError::BuildOutput(m) => headed("invalid locked firmware build output: ", m),
            PlanError::ArtifactIo(e) => headed("cannot read firmware artifact: ", e),
        }
    }
}

/// The displayed form of a flash execution error.
pub open spec fn execution_error_text(error: FlashExecutionError) -> Seq<char> {
    match error {
        FlashExecutionError::PlanNotReady { reason } => "flash plan not ready: "@ + reason@,
        FlashExecutionError::ChecksumMismatch { expected, actual } =>
            "artifact checksum mismatch: expected "@ + expected@ + ", actual "@ + actual@,
        FlashExecutionError::DeviceNotFound { target } => "flash target device '"@ + target@
            + "' not found"@,
        FlashExecutionError::TransportError { message } => "flash transport error: "@ + message@,
    }
}

impl FlashExecutionError {
    /// The error as a sentence.
    pub fn to_message(&self) -> (text: String)
        ensures
            text@ == execution_error_text(*self),
    {
        match self {
            FlashExecutionError::PlanNotReady { reason } => headed("flash plan not ready: ", reason),
            FlashExecutionError::ChecksumMismatch { expected, actual } => {
                let mut text = framed("artifact checksum mismatch: expected ", expected, ", actual ");
                push_str(&mut text, actual.as_str());
                text
            },
            FlashExecutionError::DeviceNotFound { target } => framed(
                "flash target device '",
                target,
                "' not found",
            ),
            FlashExecutionError::TransportError { message } => headed(
                "flash transport error: ",
                message,
            ),
        }
    }
}

} // verus!
