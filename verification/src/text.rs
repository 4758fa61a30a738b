//! Character-level text helpers shared by command generation, planning and
//! package framing: digits, trimming, substring tests and joining.

use vstd::prelude::*;
use vstd::string::*;
use vstd::utf8::*;

verus! {

// ---------------------------------------------------------------------------
// Digits
// ---------------------------------------------------------------------------

/// The lowercase hexadecimal digit for a value below sixteen.
pub open spec fn hex_digit(d: int) -> char {
    if d == 0 {
        '0'
    } else if d == 1 {
        '1'
    } else if d == 2 {
        '2'
    } else if d == 3 {
        '3'
    } else if d == 4 {
        '4'
    } else if d == 5 {
        '5'
    } else if d == 6 {
        '6'
    } else if d == 7 {
        '7'
    } else if d == 8 {
        '8'
    } else if d == 9 {
        '9'
    } else if d == 10 {
        'a'
    } else if d == 11 {
        'b'
    } else if d == 12 {
        'c'
    } else if d == 13 {
        'd'
    } else if d == 14 {
        'e'
    } else {
        'f'
    }
}

/// Shortest decimal rendering of `n`.
pub open spec fn decimal(n: nat) -> Seq<char>
    decreases n,
{
    if n < 10 {
        seq![hex_digit(n as int)]
    } else {
        decimal(n / 10).push(hex_digit((n % 10) as int))
    }
}

/// The `width` least significant hexadecimal digits of `n`, most
/// significant first, zero padded.
pub open spec fn hex_padded(n: nat, width: nat) -> Seq<char>
    decreases width,
{
    if width == 0 {
        seq![]
    } else {
        hex_padded(n / 16, (width - 1) as nat).push(hex_digit((n % 16) as int))
    }
}

/// Two lowercase hexadecimal digits per byte, in order.
pub open spec fn hex_bytes(bytes: Seq<u8>) -> Seq<char>
    decreases bytes.len(),
{
    if bytes.len() == 0 {
        seq![]
    } else {
        hex_bytes(bytes.drop_last()) + hex_padded(bytes.last() as nat, 2)
    }
}

fn hex_digit_char(d: u64) -> (c: char)
    requires
        d < 16,
    ensures
        c == hex_digit(d as int),
{
    if d == 0 {
        '0'
    } else if d == 1 {
        '1'
    } else if d == 2 {
        '2'
    } else if d == 3 {
        '3'
    } else if d == 4 {
        '4'
    } else if d == 5 {
        '5'
    } else if d == 6 {
        '6'
    } else if d == 7 {
        '7'
    } else if d == 8 {
        '8'
    } else if d == 9 {
        '9'
    } else if d == 10 {
        'a'
    } else if d == 11 {
        'b'
    } else if d == 12 {
        'c'
    } else if d == 13 {
        'd'
    } else if d == 14 {
        'e'
    } else {
        'f'
    }
}

/// `String::push`: appends one character at the end.
#[verifier::external_body]
pub(crate) fn push_char(text: &mut String, c: char)
    ensures
        final(text)@ == old(text)@.push(c),
{
    text.push(c);
}

/// Appends `piece` at the end of `text`.
pub(crate) fn push_str(text: &mut String, piece: &str)
    ensures
        final(text)@ == old(text)@ + piece@,
{
    text.append(piece);
}

/// Appends the decimal rendering of `n`.
pub(crate) fn push_decimal(text: &mut String, n: u64)
    ensures
        final(text)@ == old(text)@ + decimal(n as nat),
    decreases n,
{
    let ghost start = text@;
    if n >= 10 {
        push_decimal(text, n / 10);
    }
    push_char(text, hex_digit_char(n % 10));
    proof {
        if n >= 10 {
            assert(text@ =~= start + decimal(n as nat));
        } else {
            assert(text@ =~= start + decimal(n as nat));
        }
    }
}

/// Appends `width` zero-padded lowercase hexadecimal digits of `n`.
pub(crate) fn push_hex_padded(text: &mut String, n: u64, width: u32)
    ensures
        final(text)@ == old(text)@ + hex_padded(n as nat, width as nat),
    decreases width,
{
    let ghost start = text@;
    if width > 0 {
        push_hex_padded(text, n / 16, width - 1);
        push_char(text, hex_digit_char(n % 16));
        assert(text@ =~= start + hex_padded(n as nat, width as nat));
    } else {
        assert(text@ =~= start + hex_padded(n as nat, width as nat));
    }
}

/// Appends two lowercase hexadecimal digits for each byte.
pub(crate) fn push_hex_bytes(text: &mut String, bytes: &[u8])
    ensures
        final(text)@ == old(text)@ + hex_bytes(bytes@),
{
    let ghost start = text@;
    let mut i: usize = 0;
    while i < bytes.len()
        invariant
            i <= bytes@.len(),
            text@ == start + hex_bytes(bytes@.subrange(0, i as int)),
        decreases bytes@.len() - i,
    {
        push_hex_padded(text, bytes[i] as u64, 2);
        proof {
            let prefix = bytes@.subrange(0, i + 1);
            assert(prefix.drop_last() =~= bytes@.subrange(0, i as int));
            assert(text@ =~= start + hex_bytes(prefix));
        }
        i = i + 1;
    }
    proof {
        assert(bytes@.subrange(0, bytes@.len() as int) =~= bytes@);
    }
}

/// The decimal rendering of `n` as a new string.
pub(crate) fn decimal_string(n: u64) -> (text: String)
    ensures
        text@ == decimal(n as nat),
{
    let mut text = String::new();
    push_decimal(&mut text, n);
    assert(text@ =~= decimal(n as nat));
    text
}

// ---------------------------------------------------------------------------
// Comparing and scanning
// ---------------------------------------------------------------------------

/// Two texts are equal exactly when their UTF-8 bytes are.
pub fn str_eq(a: &str, b: &str) -> (equal: bool)
    ensures
        equal == (a@ == b@),
{
    let x = a.as_bytes();
    let y = b.as_bytes();
    proof {
        encode_utf8_decode_utf8(a@);
        encode_utf8_decode_utf8(b@);
    }
    if x.len() != y.len() {
        return false;
    }
    let mut i: usize = 0;
    while i < x.len()
        invariant
            i <= x@.len(),
            x@.len() == y@.len(),
            x@ == a.spec_bytes(),
            y@ == b.spec_bytes(),
            decode_utf8(x@) == a@,
            decode_utf8(y@) == b@,
            forall|k: int| 0 <= k < i ==> x@[k] == y@[k],
        decreases x@.len() - i,
    {
        if x[i] != y[i] {
            return false;
        }
        i = i + 1;
    }
    assert(x@ =~= y@);
    true
}

/// The characters of a text, in order.
pub(crate) fn chars_of(text: &str) -> (chars: Vec<char>)
    ensures
        chars@ == text@,
{
    let n = text.unicode_len();
    let mut chars: Vec<char> = Vec::new();
    let mut i: usize = 0;
    while i < n
        invariant
            n == text@.len(),
            i <= n,
            chars@ == text@.subrange(0, i as int),
        decreases n - i,
    {
        chars.push(text.get_char(i));
        assert(chars@ =~= text@.subrange(0, i + 1));
        i = i + 1;
    }
    assert(chars@ =~= text@);
    chars
}

/// `p` is a prefix of `s`.
pub open spec fn has_prefix(s: Seq<char>, p: Seq<char>) -> bool {
    p.len() <= s.len() && s.subrange(0, p.len() as int) == p
}

/// `p` occurs in `s` starting at `at`.
pub open spec fn occurs_at(s: Seq<char>, p: Seq<char>, at: int) -> bool {
    0 <= at && at + p.len() <= s.len() && s.subrange(at, at + p.len()) == p
}

/// `p` occurs somewhere in `s`.
pub open spec fn has_infix(s: Seq<char>, p: Seq<char>) -> bool {
    exists|at: int| occurs_at(s, p, at)
}

fn matches_at(s: &Vec<char>, p: &Vec<char>, at: usize) -> (found: bool)
    requires
        at + p.len() <= s.len(),
    ensures
        found == (s@.subrange(at as int, at + p@.len()) == p@),
{
    let mut k: usize = 0;
    while k < p.len()
        invariant
            at + p@.len() <= s@.len(),
            k <= p@.len(),
            forall|j: int| 0 <= j < k ==> s@[at + j] == p@[j],
        decreases p@.len() - k,
    {
        assert(at + k < s.len());
        if s[at + k] != p[k] {
            assert(s@.subrange(at as int, at + p@.len())[k as int] != p@[k as int]);
            return false;
        }
        k = k + 1;
    }
    assert(s@.subrange(at as int, at + p@.len()) =~= p@);
    true
}

/// `str::starts_with` for a text pattern.
pub(crate) fn starts_with(s: &str, p: &str) -> (found: bool)
    ensures
        found == has_prefix(s@, p@),
{
    let sc = chars_of(s);
    let pc = chars_of(p);
    if pc.len() > sc.len() {
        return false;
    }
    matches_at(&sc, &pc, 0)
}

/// `str::contains` for a text pattern.
pub(crate) fn contains(s: &str, p: &str) -> (found: bool)
    ensures
        found == has_infix(s@, p@),
{
    let sc = chars_of(s);
    let pc = chars_of(p);
    if pc.len() > sc.len() {
        assert forall|at: int| !occurs_at(s@, p@, at) by {}
        return false;
    }
    let last = sc.len() - pc.len();
    let mut at: usize = 0;
    loop
        invariant
            pc@ == p@,
            sc@ == s@,
            last == sc@.len() - pc@.len(),
            at <= last,
            forall|j: int| 0 <= j < at ==> !occurs_at(s@, p@, j),
        ensures
            forall|j: int| 0 <= j <= last ==> !occurs_at(s@, p@, j),
        decreases last - at,
    {
        if matches_at(&sc, &pc, at) {
            assert(occurs_at(s@, p@, at as int));
            return true;
        }
        assert(!occurs_at(s@, p@, at as int));
        if at == last {
            break;
        }
        at = at + 1;
    }
    assert forall|j: int| !occurs_at(s@, p@, j) by {
        if 0 <= j && j + p@.len() <= s@.len() {
            assert(j <= last);
        }
    }
    false
}

/// The first position at or after `from` where `p` occurs in `s`.
pub open spec fn find_text(s: Seq<char>, p: Seq<char>, from: int) -> Option<int>
    decreases s.len() + 1 - from,
{
    if from < 0 || from + p.len() > s.len() {
        None
    } else if occurs_at(s, p, from) {
        Some(from)
    } else {
        find_text(s, p, from + 1)
    }
}

/// What a found position means: the pattern occurs there and nowhere
/// earlier from `from` on.
pub proof fn lemma_find_text(s: Seq<char>, p: Seq<char>, from: int)
    ensures
        find_text(s, p, from) matches Some(k) ==> occurs_at(s, p, k) && from <= k && forall|j: int|
            from <= j < k ==> !occurs_at(s, p, j),
    decreases s.len() + 1 - from,
{
    if from >= 0 && from + p.len() <= s.len() && !occurs_at(s, p, from) {
        lemma_find_text(s, p, from + 1);
    }
}

/// `str::find` for a text pattern, as a character position.
pub(crate) fn find(s: &str, p: &str) -> (position: Option<usize>)
    ensures
        match position {
            Some(at) => find_text(s@, p@, 0) == Some(at as int),
            None => find_text(s@, p@, 0) is None,
        },
{
    let sc = chars_of(s);
    let pc = chars_of(p);
    if pc.len() > sc.len() {
        return None;
    }
    let last = sc.len() - pc.len();
    let mut at: usize = 0;
    loop
        invariant
            pc@ == p@,
            sc@ == s@,
            last == sc@.len() - pc@.len(),
            at <= last,
            find_text(s@, p@, 0) == find_text(s@, p@, at as int),
        ensures
            find_text(s@, p@, 0) == find_text(s@, p@, at as int),
            at == last,
            !occurs_at(s@, p@, at as int),
        decreases last - at,
    {
        if matches_at(&sc, &pc, at) {
            assert(occurs_at(s@, p@, at as int));
            return Some(at);
        }
        assert(!occurs_at(s@, p@, at as int));
        if at == last {
            break;
        }
        at = at + 1;
    }
    assert(find_text(s@, p@, at + 1) is None);
    None
}

/// `str::split_once` for a text separator: the text before and after its
/// first occurrence.
pub open spec fn split_at_first(s: Seq<char>, sep: Seq<char>) -> Option<(Seq<char>, Seq<char>)> {
    match find_text(s, sep, 0) {
        Some(k) => Some((s.subrange(0, k), s.subrange(k + sep.len(), s.len() as int))),
        None => None,
    }
}

/// `str::split_once`.
pub(crate) fn split_once<'a>(s: &'a str, sep: &str) -> (parts: Option<(&'a str, &'a str)>)
    ensures
        match parts {
            Some((before, after)) => split_at_first(s@, sep@) == Some((before@, after@)),
            None => split_at_first(s@, sep@) is None,
        },
{
    match find(s, sep) {
        Some(k) => {
            proof {
                lemma_find_text(s@, sep@, 0);
            }
            let n = s.unicode_len();
            let m = sep.unicode_len();
            let before = s.substring_char(0, k);
            let after = s.substring_char(k + m, n);
            Some((before, after))
        },
        None => None,
    }
}

/// The value of a string of decimal digits.
pub open spec fn digits_value(d: Seq<char>) -> nat
    decreases d.len(),
{
    if d.len() == 0 {
        0
    } else {
        digits_value(d.drop_last()) * 10 + ((d.last() as u32) - ('0' as u32)) as nat
    }
}

pub open spec fn is_digit(c: char) -> bool {
    '0' <= c && c <= '9'
}

pub open spec fn all_digits(d: Seq<char>) -> bool {
    forall|i: int| 0 <= i < d.len() ==> is_digit(#[trigger] d[i])
}

proof fn lemma_digits_value_grows(d: Seq<char>, i: int)
    requires
        all_digits(d),
        0 <= i <= d.len(),
    ensures
        digits_value(d.subrange(0, i)) <= digits_value(d),
    decreases d.len() - i,
{
    if i < d.len() {
        lemma_digits_value_grows(d, i + 1);
        let next = d.subrange(0, i + 1);
        assert(next.drop_last() =~= d.subrange(0, i));
        assert(is_digit(d[i]));
    } else {
        assert(d.subrange(0, i) =~= d);
    }
}

/// The value of a string of decimal digits when it fits in a `u32`.
pub(crate) fn digits_u32(d: &Vec<char>) -> (value: Option<u32>)
    requires
        all_digits(d@),
    ensures
        match value {
            Some(v) => v == digits_value(d@),
            None => digits_value(d@) > u32::MAX,
        },
{
    let mut value: u64 = 0;
    let mut i: usize = 0;
    while i < d.len()
        invariant
            all_digits(d@),
            i <= d@.len(),
            value == digits_value(d@.subrange(0, i as int)),
            value <= u32::MAX,
        decreases d@.len() - i,
    {
        let c = d[i];
        assert(is_digit(d@[i as int]));
        let digit = (c as u32 - '0' as u32) as u64;
        let next = value * 10 + digit;
        proof {
            let prefix = d@.subrange(0, i + 1);
            assert(prefix.drop_last() =~= d@.subrange(0, i as int));
        }
        if next > u32::MAX as u64 {
            proof {
                lemma_digits_value_grows(d@, i + 1);
            }
            return None;
        }
        value = next;
        i = i + 1;
    }
    assert(d@.subrange(0, d@.len() as int) =~= d@);
    Some(value as u32)
}

// ---------------------------------------------------------------------------
// Whitespace and case
// ---------------------------------------------------------------------------

/// `char::is_whitespace`: the Unicode `White_Space` property.
pub open spec fn is_white_space(c: char) -> bool {
    let v = c as u32;
    (0x09 <= v && v <= 0x0d) || v == 0x20 || v == 0x85 || v == 0xa0 || v == 0x1680 || (0x2000
        <= v && v <= 0x200a) || v == 0x2028 || v == 0x2029 || v == 0x202f || v == 0x205f || v
        == 0x3000
}

pub(crate) fn is_white_space_char(c: char) -> (ws: bool)
    ensures
        ws == is_white_space(c),
{
    let v = c as u32;
    (0x09 <= v && v <= 0x0d) || v == 0x20 || v == 0x85 || v == 0xa0 || v == 0x1680 || (0x2000
        <= v && v <= 0x200a) || v == 0x2028 || v == 0x2029 || v == 0x202f || v == 0x205f || v
        == 0x3000
}

/// The text without its leading white space.
pub open spec fn trim_start(s: Seq<char>) -> Seq<char>
    decreases s.len(),
{
    if s.len() > 0 && is_white_space(s[0]) {
        trim_start(s.drop_first())
    } else {
        s
    }
}

/// The text without its trailing white space.
pub open spec fn trim_end(s: Seq<char>) -> Seq<char>
    decreases s.len(),
{
    if s.len() > 0 && is_white_space(s.last()) {
        trim_end(s.drop_last())
    } else {
        s
    }
}

/// `str::trim`: the text without leading and trailing white space.
pub open spec fn trimmed(s: Seq<char>) -> Seq<char> {
    trim_end(trim_start(s))
}

/// `str::trim`.
pub(crate) fn trim(s: &str) -> (t: &str)
    ensures
        t@ == trimmed(s@),
{
    let n = s.unicode_len();
    let mut start: usize = 0;
    assert(s@.subrange(0, n as int) =~= s@);
    while start < n && is_white_space_char(s.get_char(start))
        invariant
            n == s@.len(),
            start <= n,
            trim_start(s@) == trim_start(s@.subrange(start as int, n as int)),
        decreases n - start,
    {
        proof {
            let rest = s@.subrange(start as int, n as int);
            assert(rest.drop_first() =~= s@.subrange(start + 1, n as int));
        }
        start = start + 1;
    }
    proof {
        let rest = s@.subrange(start as int, n as int);
        if start == n {
            assert(rest.len() == 0);
        }
        assert(trim_start(s@) == rest);
    }
    let mut end: usize = n;
    while end > start && is_white_space_char(s.get_char(end - 1))
        invariant
            n == s@.len(),
            start <= end <= n,
            trimmed(s@) == trim_end(s@.subrange(start as int, end as int)),
        decreases end - start,
    {
        proof {
            let part = s@.subrange(start as int, end as int);
            assert(part.drop_last() =~= s@.subrange(start as int, end - 1));
            assert(part.last() == s@[end - 1]);
        }
        end = end - 1;
    }
    proof {
        let part = s@.subrange(start as int, end as int);
        if end == start {
            assert(part.len() == 0);
        } else {
            assert(part.last() == s@[end - 1]);
        }
        assert(trimmed(s@) == part);
    }
    s.substring_char(start, end)
}

/// The Unicode lowercase mapping of a text, as `str::to_lowercase` applies
/// it. Its tables are not restated here.
pub uninterp spec fn lowercase(text: Seq<char>) -> Seq<char>;

/// A character with `A`-`Z` lowered to `a`-`z`.
pub open spec fn ascii_lower(c: char) -> char {
    if 'A' <= c && c <= 'Z' {
        ((c as int) + 32) as char
    } else {
        c
    }
}

/// Every character of the text is ASCII.
pub open spec fn is_ascii_text(text: Seq<char>) -> bool {
    forall|i: int| 0 <= i < text.len() ==> (text[i] as int) < 128
}

/// A text lowercased as `str::to_lowercase` does it: on ASCII text each of
/// `A`-`Z` becomes `a`-`z` and nothing else changes; other text goes by
/// the Unicode mapping `lowercase`.
pub open spec fn lowered_text(text: Seq<char>) -> Seq<char> {
    if is_ascii_text(text) {
        text.map_values(|c: char| ascii_lower(c))
    } else {
        lowercase(text)
    }
}

/// `str::to_lowercase`: the text under the Unicode lowercase mapping, named
/// `lowercase` (a function of the text alone, independent of locale). Its
/// documentation maps each character by `char::to_lowercase`, which on
/// ASCII is `char::to_ascii_lowercase`: on ASCII text, `A`-`Z` become
/// `a`-`z` and nothing else changes.
#[verifier::external_body]
pub(crate) fn to_lowercase(text: &str) -> (lowered: String)
    ensures
        lowered@ == lowercase(text@),
        is_ascii_text(text@) ==> lowered@ == text@.map_values(|c: char| ascii_lower(c)),
{
    text.to_lowercase()
}

/// Every `-` of the text replaced by `_`.
pub open spec fn dashes_to_underscores(s: Seq<char>) -> Seq<char> {
    s.map_values(|c: char| if c == '-' { '_' } else { c })
}

/// `str::replace('-', "_")`.
pub(crate) fn replace_dashes(s: &str) -> (r: String)
    ensures
        r@ == dashes_to_underscores(s@),
{
    let chars = chars_of(s);
    let mut r = String::new();
    let mut i: usize = 0;
    while i < chars.len()
        invariant
            chars@ == s@,
            i <= chars@.len(),
            r@ == dashes_to_underscores(s@.subrange(0, i as int)),
        decreases chars@.len() - i,
    {
        let c = chars[i];
        if c == '-' {
            push_char(&mut r, '_');
        } else {
            push_char(&mut r, c);
        }
        assert(r@ =~= dashes_to_underscores(s@.subrange(0, i + 1)));
        i = i + 1;
    }
    assert(s@.subrange(0, s@.len() as int) =~= s@);
    r
}

// ---------------------------------------------------------------------------
// Joining
// ---------------------------------------------------------------------------

/// The views of a sequence of strings.
pub open spec fn string_views(v: Seq<String>) -> Seq<Seq<char>> {
    v.map_values(|s: String| s@)
}

/// `parts` joined with `sep` between neighbours (`[T]::join`).
pub open spec fn joined(parts: Seq<Seq<char>>, sep: Seq<char>) -> Seq<char>
    decreases parts.len(),
{
    if parts.len() == 0 {
        seq![]
    } else if parts.len() == 1 {
        parts[0]
    } else {
        joined(parts.drop_last(), sep) + sep + parts.last()
    }
}

/// `[String]::join(sep)`.
pub(crate) fn join(parts: &Vec<String>, sep: &str) -> (text: String)
    ensures
        text@ == joined(string_views(parts@), sep@),
{
    let mut text = String::new();
    let mut i: usize = 0;
    while i < parts.len()
        invariant
            i <= parts@.len(),
            text@ == joined(string_views(parts@.subrange(0, i as int)), sep@),
        decreases parts@.len() - i,
    {
        proof {
            let next = string_views(parts@.subrange(0, i + 1));
            assert(next.drop_last() =~= string_views(parts@.subrange(0, i as int)));
            assert(next.last() == parts@[i as int]@);
        }
        if i > 0 {
            push_str(&mut text, sep);
        }
        push_str(&mut text, parts[i].as_str());
        proof {
            let next = string_views(parts@.subrange(0, i + 1));
            if i == 0 {
                assert(next.len() == 1);
                assert(text@ =~= next[0]);
            } else {
                assert(text@ =~= joined(next, sep@));
            }
        }
        i = i + 1;
    }
    assert(parts@.subrange(0, parts@.len() as int) =~= parts@);
    text
}

} // verus!
