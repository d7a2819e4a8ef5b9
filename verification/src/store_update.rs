//! Store versions of the game: reading them out of store responses and
//! comparing them.
use vstd::prelude::*;

use std::cmp::Ordering;

use crate::text::{
    all_digits, byte_len, byte_length, chars_of, eq, eq_str, find_char, find_str,
    first_occurrence, is_alnum, is_all_digits, parse_u32, parse_u32_spec, slice, spec_find,
    spec_find_str, spec_is_alnum, split_char, split_fields, string_of, views,
};

verus! {

/// The bundle and package id of the game.
pub open spec fn package_id() -> Seq<char> {
    "jp.co.ponos.battlecats"@
}

#[derive(Clone, Copy, Debug, PartialEq, Eq, Structural)]
pub enum StorePlatform {
    Android,
    Ios,
}

impl StorePlatform {
    pub fn label(self) -> (r: &'static str)
        ensures
            r@ == match self {
                StorePlatform::Android => "Android（Google Play）"@,
                StorePlatform::Ios => "iOS（App Store）"@,
            },
    {
        match self {
            StorePlatform::Android => "Android（Google Play）",
            StorePlatform::Ios => "iOS（App Store）",
        }
    }

    pub fn key(self) -> (r: &'static str)
        ensures
            r@ == match self {
                StorePlatform::Android => "android"@,
                StorePlatform::Ios => "ios"@,
            },
    {
        match self {
            StorePlatform::Android => "android",
            StorePlatform::Ios => "ios",
        }
    }

    pub fn store_url(self) -> (r: &'static str)
        ensures
            r@ == match self {
                StorePlatform::Android => "https://play.google.com/store/apps/details?id=jp.co.ponos.battlecats"@,
                StorePlatform::Ios => "https://apps.apple.com/jp/app/id547145938"@,
            },
    {
        match self {
            StorePlatform::Android => "https://play.google.com/store/apps/details?id=jp.co.ponos.battlecats",
            StorePlatform::Ios => "https://apps.apple.com/jp/app/id547145938",
        }
    }
}

#[derive(Debug, Clone, Copy, PartialEq, Eq)]
pub struct StoreUpdateError {
    pub code: &'static str,
}

impl StoreUpdateError {
    pub fn new(code: &'static str) -> (r: Self)
        ensures
            r.code == code,
    {
        StoreUpdateError { code }
    }

    pub fn code(&self) -> (r: &'static str)
        ensures
            r == self.code,
    {
        self.code
    }
}

// ---------------------------------------------------------------------------
// Versions
// ---------------------------------------------------------------------------

/// The numbers of a dotted version: each part one or more ASCII digits that
/// fit in `u32`, the whole at most 64 bytes.
pub open spec fn spec_parse_version(value: Seq<char>) -> Option<Seq<u32>> {
    if value.len() == 0 || byte_len(value) > 64 {
        None
    } else {
        let parts = split_fields(value, '.');
        if forall|i: int| 0 <= i < parts.len() ==> (#[trigger] parts[i]).len() > 0 && all_digits(parts[i]) && parse_u32_spec(parts[i]) is Some {
            Some(parts.map_values(|p: Seq<char>| parse_u32_spec(p).unwrap()))
        } else {
            None
        }
    }
}

pub fn parse_version(value: &str) -> (r: Option<Vec<u32>>)
    ensures
        match r {
            Some(v) => spec_parse_version(value@) == Some(v@),
            None => spec_parse_version(value@) is None,
        },
{
    let v = chars_of(value);
    if v.len() == 0 || v.len() > 64 {
        proof {
            crate::text::lemma_byte_len_ge(v@);
        }
        return None;
    }
    if byte_length(v.as_slice()) > 64 {
        return None;
    }
    let parts = split_char(v.as_slice(), '.');
    let ghost f = split_fields(v@, '.');
    let mut numbers: Vec<u32> = Vec::new();
    let mut i: usize = 0;
    assert(numbers@ =~= f.take(0).map_values(|p: Seq<char>| parse_u32_spec(p).unwrap()));
    while i < parts.len()
        invariant
            i <= parts@.len(),
            v@ == value@,
            f == split_fields(value@, '.'),
            value@.len() > 0,
            byte_len(value@) <= 64,
            views(parts@) == f,
            numbers@ == f.take(i as int).map_values(|p: Seq<char>| parse_u32_spec(p).unwrap()),
            forall|j: int| 0 <= j < i ==> (#[trigger] f[j]).len() > 0 && all_digits(f[j]) && parse_u32_spec(f[j]) is Some,
        decreases parts@.len() - i,
    {
        assert(parts@[i as int]@ == f[i as int]);
        if parts[i].len() == 0 || !is_all_digits(parts[i].as_slice()) {
            assert(!((f[i as int]).len() > 0 && all_digits(f[i as int]) && parse_u32_spec(f[i as int]) is Some));
            return None;
        }
        match parse_u32(parts[i].as_slice()) {
            Some(n) => {
                numbers.push(n);
                assert(numbers@ =~= f.take(i + 1).map_values(|p: Seq<char>| parse_u32_spec(p).unwrap()));
            },
            None => {
                assert(!((f[i as int]).len() > 0 && all_digits(f[i as int]) && parse_u32_spec(f[i as int]) is Some));
                return None;
            },
        }
        i += 1;
    }
    assert(f.take(i as int) =~= f);
    Some(numbers)
}

/// Whether a text is a version that the store could publish.
pub fn valid_version(value: &str) -> (r: bool)
    ensures
        r == (spec_parse_version(value@) is Some),
{
    parse_version(value).is_some()
}

/// The version itself when it is valid.
pub fn validated_version(value: &str) -> (r: Result<String, StoreUpdateError>)
    ensures
        match r {
            Ok(s) => spec_parse_version(value@) is Some && s@ == value@,
            Err(e) => spec_parse_version(value@) is None && e.code@ == "invalid-store-version"@,
        },
{
    match parse_version(value) {
        Some(_) => Ok(string_of(chars_of(value).as_slice())),
        None => Err(StoreUpdateError::new("invalid-store-version")),
    }
}

/// The part of a version at an index, zero past its end.
pub open spec fn part_at(v: Seq<u32>, i: int) -> int {
    if 0 <= i < v.len() {
        v[i] as int
    } else {
        0
    }
}

/// Three-way comparison (-1, 0, 1) of two versions from index `i` on, the
/// shorter padded with zeros.
pub open spec fn compare_from(a: Seq<u32>, b: Seq<u32>, i: nat) -> int
    decreases (if a.len() > b.len() { a.len() } else { b.len() }) - i,
{
    if i >= a.len() && i >= b.len() {
        0
    } else if part_at(a, i as int) < part_at(b, i as int) {
        -1
    } else if part_at(a, i as int) > part_at(b, i as int) {
        1
    } else {
        compare_from(a, b, i + 1)
    }
}

pub open spec fn spec_compare(a: Seq<u32>, b: Seq<u32>) -> int {
    compare_from(a, b, 0)
}

/// Comparing two versions the other way round gives the opposite answer.
pub proof fn lemma_compare_antisymmetric(a: Seq<u32>, b: Seq<u32>)
    ensures
        spec_compare(a, b) == -spec_compare(b, a),
{
    lemma_compare_from_antisymmetric(a, b, 0);
}

proof fn lemma_compare_from_antisymmetric(a: Seq<u32>, b: Seq<u32>, i: nat)
    ensures
        compare_from(a, b, i) == -compare_from(b, a, i),
    decreases (if a.len() > b.len() { a.len() } else { b.len() }) - i,
{
    if !(i >= a.len() && i >= b.len()) && part_at(a, i as int) == part_at(b, i as int) {
        lemma_compare_from_antisymmetric(a, b, i + 1);
    }
}

/// A version equals itself.
pub proof fn lemma_compare_reflexive(a: Seq<u32>)
    ensures
        spec_compare(a, a) == 0,
{
    lemma_compare_from_reflexive(a, 0);
}

proof fn lemma_compare_from_reflexive(a: Seq<u32>, i: nat)
    ensures
        compare_from(a, a, i) == 0,
    decreases a.len() - i,
{
    if i < a.len() {
        lemma_compare_from_reflexive(a, i + 1);
    }
}

/// A trailing `.0` does not change a version: `15.6` and `15.6.0` are equal.
pub proof fn lemma_trailing_zero(a: Seq<u32>)
    ensures
        spec_compare(a, a.push(0)) == 0,
{
    lemma_trailing_zero_from(a, 0);
}

proof fn lemma_trailing_zero_from(a: Seq<u32>, i: nat)
    requires
        i <= a.len() + 1,
    ensures
        compare_from(a, a.push(0), i) == 0,
    decreases a.len() + 1 - i,
{
    if i < a.len() + 1 {
        assert(part_at(a, i as int) == part_at(a.push(0), i as int));
        lemma_trailing_zero_from(a, i + 1);
    }
}

/// `compare_from` at a machine index.
pub open spec fn compare_at(a: Seq<u32>, b: Seq<u32>, i: usize) -> int {
    compare_from(a, b, i as nat)
}

/// The order of two parsed versions.
pub fn compare_parts(a: &Vec<u32>, b: &Vec<u32>) -> (r: Ordering)
    ensures
        (r == Ordering::Less) == (spec_compare(a@, b@) == -1),
        (r == Ordering::Equal) == (spec_compare(a@, b@) == 0),
        (r == Ordering::Greater) == (spec_compare(a@, b@) == 1),
{
    let n = if a.len() > b.len() { a.len() } else { b.len() };
    let mut i: usize = 0;
    while i < n
        invariant
            n == (if a@.len() > b@.len() { a@.len() } else { b@.len() }),
            i <= n,
            spec_compare(a@, b@) == compare_at(a@, b@, i),
        decreases n - i,
    {
        let x: u32 = if i < a.len() { a[i] } else { 0 };
        let y: u32 = if i < b.len() { b[i] } else { 0 };
        if x < y {
            return Ordering::Less;
        }
        if x > y {
            return Ordering::Greater;
        }
        i += 1;
    }
    Ordering::Equal
}

/// The order of two versions, when both are valid.
pub fn compare_versions(left: &str, right: &str) -> (r: Option<Ordering>)
    ensures
        match (spec_parse_version(left@), spec_parse_version(right@)) {
            (Some(a), Some(b)) => r is Some && (r == Some(Ordering::Less)) == (spec_compare(a, b) == -1)
                && (r == Some(Ordering::Equal)) == (spec_compare(a, b) == 0)
                && (r == Some(Ordering::Greater)) == (spec_compare(a, b) == 1),
            _ => r is None,
        },
{
    let a = match parse_version(left) {
        Some(a) => a,
        None => {
            return None;
        },
    };
    let b = match parse_version(right) {
        Some(b) => b,
        None => {
            return None;
        },
    };
    Some(compare_parts(&a, &b))
}

// ---------------------------------------------------------------------------
// Google Play
// ---------------------------------------------------------------------------

/// Where, counted from the start of a text, the JSON array that opens there
/// closes (one past its `]`), given the nesting depth and whether a string
/// and an escape are open; `None` when it does not close.
pub open spec fn array_scan(s: Seq<char>, depth: nat, quoted: bool, escaped: bool) -> Option<int>
    decreases s.len(),
{
    if s.len() == 0 {
        None
    } else {
        let c = s[0];
        let rest = s.drop_first();
        let next = if quoted {
            if escaped {
                Some((depth, true, false))
            } else if c == '\\' {
                Some((depth, true, true))
            } else if c == '"' {
                Some((depth, false, false))
            } else {
                Some((depth, true, false))
            }
        } else if c == '"' {
            Some((depth, true, false))
        } else if c == '[' {
            Some((depth + 1, false, false))
        } else if c == ']' {
            if depth == 0 {
                None
            } else if depth == 1 {
                None
            } else {
                Some(((depth - 1) as nat, false, false))
            }
        } else {
            Some((depth, false, false))
        };
        if !quoted && c == ']' && depth == 1 {
            Some(1)
        } else {
            match next {
                None => None,
                Some((d, q, e)) => match array_scan(rest, d, q, e) {
                    Some(k) => Some(k + 1),
                    None => None,
                },
            }
        }
    }
}

/// One past the `]` that closes the JSON array opening at `start`.
pub open spec fn spec_array_end(value: Seq<char>, start: int) -> Option<int> {
    match array_scan(value.skip(start), 0, false, false) {
        Some(k) => Some(start + k),
        None => None,
    }
}

pub fn json_array_end(value: &[char], start: usize) -> (r: Option<usize>)
    requires
        start <= value@.len(),
    ensures
        match r {
            Some(e) => spec_array_end(value@, start as int) == Some(e as int),
            None => spec_array_end(value@, start as int) is None,
        },
{
    let mut depth: u64 = 0;
    let mut quoted = false;
    let mut escaped = false;
    let mut i: usize = start;
    while i < value.len()
        invariant
            start <= i <= value@.len(),
            depth <= i - start,
            !quoted ==> !escaped,
            spec_array_end(value@, start as int) == (match array_scan(value@.skip(i as int), depth as nat, quoted, escaped) {
                Some(k) => Some(i + k),
                None => None,
            }),
        decreases value@.len() - i,
    {
        let ghost rest = value@.skip(i as int);
        let ghost (d0, q0, e0) = (depth as nat, quoted, escaped);
        assert(rest[0] == value@[i as int]);
        assert(rest.drop_first() =~= value@.skip(i + 1));
        let c = value[i];
        if quoted {
            if escaped {
                escaped = false;
            } else if c == '\\' {
                escaped = true;
            } else if c == '"' {
                quoted = false;
            }
        } else if c == '"' {
            quoted = true;
        } else if c == '[' {
            depth = depth + 1;
        } else if c == ']' {
            if depth == 0 {
                return None;
            }
            if depth == 1 {
                return Some(i + 1);
            }
            depth = depth - 1;
        }
        assert(array_scan(rest, d0, q0, e0) == (match array_scan(rest.drop_first(), depth as nat, quoted, escaped) {
            Some(k) => Some(k + 1),
            None => None,
        }));
        i += 1;
    }
    None
}

/// Whether a text is a JSON document, as `serde_json` reads it.
pub uninterp spec fn json_valid(text: Seq<char>) -> bool;

/// `serde_json::from_str::<serde_json::Value>` succeeds.
#[verifier::external_body]
fn is_json(text: &str) -> (r: bool)
    ensures
        r == json_valid(text@),
{
    serde_json::from_str::<serde_json::Value>(text).is_ok()
}

#[derive(Debug, Clone, PartialEq, Eq)]
pub struct GoogleRpc {
    pub id: String,
    pub request: String,
}

pub open spec fn all_alnum(s: Seq<char>) -> bool {
    forall|i: int| 0 <= i < s.len() ==> spec_is_alnum(#[trigger] s[i])
}

/// The id and request of the store's data call, read from the entry `'ds:5'`
/// of the store page: `id:'…'` and the JSON array after `request:`.
pub open spec fn spec_google_rpc(html: Seq<char>) -> Option<(Seq<char>, Seq<char>)> {
    match spec_find_str(html, "'ds:5'"@) {
        None => None,
        Some(at) => {
            let entry = html.skip(at);
            match spec_find_str(entry, "id:'"@) {
                None => None,
                Some(p) => {
                    let id_start = p + 4;
                    match spec_find(entry.skip(id_start), '\'') {
                        None => None,
                        Some(q) => {
                            let id_end = id_start + q;
                            let id = entry.subrange(id_start, id_end);
                            if id.len() == 0 || !all_alnum(id) {
                                None
                            } else {
                                match spec_find_str(entry.skip(id_end), "request:"@) {
                                    None => None,
                                    Some(m) => {
                                        let marker = id_end + m + 8;
                                        match spec_find(entry.skip(marker), '[') {
                                            None => None,
                                            Some(b) => {
                                                let request_start = marker + b;
                                                match spec_array_end(entry, request_start) {
                                                    None => None,
                                                    Some(request_end) => {
                                                        let request = entry.subrange(request_start, request_end);
                                                        if json_valid(request) {
                                                            Some((id, request))
                                                        } else {
                                                            None
                                                        }
                                                    },
                                                }
                                            },
                                        }
                                    },
                                }
                            }
                        },
                    }
                },
            }
        },
    }
}

fn is_all_alnum(id: &[char]) -> (r: bool)
    ensures
        r == all_alnum(id@),
{
    let mut k: usize = 0;
    while k < id.len()
        invariant
            k <= id@.len(),
            forall|j: int| 0 <= j < k ==> spec_is_alnum(#[trigger] id@[j]),
        decreases id@.len() - k,
    {
        if !is_alnum(id[k]) {
            assert(!spec_is_alnum(id@[k as int]));
            return false;
        }
        k += 1;
    }
    true
}

fn schema_error() -> (r: StoreUpdateError)
    ensures
        r.code@ == "google-bootstrap-schema"@,
{
    StoreUpdateError::new("google-bootstrap-schema")
}

/// Reads the data call of the store page.
pub fn parse_google_rpc(html: &str) -> (r: Result<GoogleRpc, StoreUpdateError>)
    ensures
        match r {
            Ok(rpc) => spec_google_rpc(html@) == Some((rpc.id@, rpc.request@)),
            Err(e) => spec_google_rpc(html@) is None && e.code@ == "google-bootstrap-schema"@,
        },
{
    proof {
        reveal_strlit("'ds:5'");
        reveal_strlit("id:'");
        reveal_strlit("request:");
    }
    let h = chars_of(html);
    let at = match find_str(h.as_slice(), "'ds:5'") {
        Some(a) => a,
        None => {
            return Err(schema_error());
        },
    };
    let entry = slice(h.as_slice(), at, h.len());
    assert(entry@ =~= html@.skip(at as int));
    let p = match find_str(entry.as_slice(), "id:'") {
        Some(p) => p,
        None => {
            return Err(schema_error());
        },
    };
    let id_start = p + 4;
    let after_id = slice(entry.as_slice(), id_start, entry.len());
    assert(after_id@ =~= entry@.skip(id_start as int));
    let q = match find_char(after_id.as_slice(), '\'') {
        Some(q) => q,
        None => {
            return Err(schema_error());
        },
    };
    proof {
        crate::text::lemma_find(after_id@, '\'');
    }
    let id_end = id_start + q;
    let id = slice(entry.as_slice(), id_start, id_end);
    if id.len() == 0 {
        return Err(schema_error());
    }
    if !is_all_alnum(id.as_slice()) {
        return Err(schema_error());
    }
    let after_end = slice(entry.as_slice(), id_end, entry.len());
    assert(after_end@ =~= entry@.skip(id_end as int));
    let m = match find_str(after_end.as_slice(), "request:") {
        Some(m) => m,
        None => {
            return Err(schema_error());
        },
    };
    let marker = id_end + m + 8;
    let after_marker = slice(entry.as_slice(), marker, entry.len());
    assert(after_marker@ =~= entry@.skip(marker as int));
    let b = match find_char(after_marker.as_slice(), '[') {
        Some(b) => b,
        None => {
            return Err(schema_error());
        },
    };
    proof {
        crate::text::lemma_find(after_marker@, '[');
    }
    let request_start = marker + b;
    let request_end = match json_array_end(entry.as_slice(), request_start) {
        Some(e) => e,
        None => {
            return Err(schema_error());
        },
    };
    proof {
        lemma_array_end_bounds(entry@, request_start as int);
    }
    let request = slice(entry.as_slice(), request_start, request_end);
    let request_text = string_of(request.as_slice());
    if !is_json(request_text.as_str()) {
        return Err(schema_error());
    }
    Ok(GoogleRpc { id: string_of(id.as_slice()), request: request_text })
}

proof fn lemma_array_scan_bounds(s: Seq<char>, depth: nat, quoted: bool, escaped: bool)
    ensures
        array_scan(s, depth, quoted, escaped) matches Some(k) ==> 1 <= k <= s.len(),
    decreases s.len(),
{
    if s.len() > 0 {
        let c = s[0];
        let rest = s.drop_first();
        if quoted {
            if escaped {
                lemma_array_scan_bounds(rest, depth, true, false);
            } else if c == '\\' {
                lemma_array_scan_bounds(rest, depth, true, true);
            } else if c == '"' {
                lemma_array_scan_bounds(rest, depth, false, false);
            } else {
                lemma_array_scan_bounds(rest, depth, true, false);
            }
        } else if c == '"' {
            lemma_array_scan_bounds(rest, depth, true, false);
        } else if c == '[' {
            lemma_array_scan_bounds(rest, depth + 1, false, false);
        } else if c == ']' {
            if depth > 1 {
                lemma_array_scan_bounds(rest, (depth - 1) as nat, false, false);
            }
        } else {
            lemma_array_scan_bounds(rest, depth, false, false);
        }
    }
}

proof fn lemma_array_end_bounds(value: Seq<char>, start: int)
    requires
        0 <= start <= value.len(),
    ensures
        spec_array_end(value, start) matches Some(e) ==> start < e <= value.len(),
{
    lemma_array_scan_bounds(value.skip(start), 0, false, false);
}

// ---------------------------------------------------------------------------
// Store responses
// ---------------------------------------------------------------------------

/// A JSON document: numbers kept as their text, objects as their members in order.
#[derive(Debug)]
pub enum JsonValue {
    Null,
    Bool(bool),
    Number(String),
    Str(String),
    Array(Vec<JsonValue>),
    Object(Vec<(String, JsonValue)>),
}

pub open spec fn is_str_of(v: JsonValue, s: Seq<char>) -> bool {
    v matches JsonValue::Str(x) && x@ == s
}

/// The payload of the first `["wrb.fr", id, payload]` frame in a document,
/// searching arrays depth first; a frame whose payload is not a string ends
/// the search of that array with nothing.
pub open spec fn payload_in(v: JsonValue, id: Seq<char>) -> Option<Seq<char>>
    decreases v,
{
    match v {
        JsonValue::Array(items) => if items@.len() >= 3 && is_str_of(items@[0], "wrb.fr"@) && is_str_of(items@[1], id) {
            match items@[2] {
                JsonValue::Str(p) => Some(p@),
                _ => None,
            }
        } else {
            payload_in_items(items@, id)
        },
        _ => None,
    }
}

pub open spec fn payload_in_items(items: Seq<JsonValue>, id: Seq<char>) -> Option<Seq<char>>
    decreases items,
{
    if items.len() == 0 {
        None
    } else {
        match payload_in(items[0], id) {
            Some(p) => Some(p),
            None => payload_in_items(items.drop_first(), id),
        }
    }
}

fn str_is(v: &JsonValue, s: &str) -> (r: bool)
    ensures
        r == is_str_of(*v, s@),
{
    match v {
        JsonValue::Str(x) => {
            let xv = chars_of(x.as_str());
            eq_str(xv.as_slice(), s)
        },
        _ => false,
    }
}

#[verifier::loop_isolation(false)]
pub fn find_google_payload(value: &JsonValue, rpc_id: &str) -> (r: Option<String>)
    ensures
        match r {
            Some(p) => payload_in(*value, rpc_id@) == Some(p@),
            None => payload_in(*value, rpc_id@) is None,
        },
    decreases value,
{
    match value {
        JsonValue::Array(items) => {
            if items.len() >= 3 && str_is(&items[0], "wrb.fr") && str_is(&items[1], rpc_id) {
                return match &items[2] {
                    JsonValue::Str(p) => Some(string_of(chars_of(p.as_str()).as_slice())),
                    _ => None,
                };
            }
            let mut k: usize = 0;
            assert(items@.skip(0) =~= items@);
            while k < items.len()
                invariant
                    k <= items@.len(),
                    payload_in_items(items@, rpc_id@) == payload_in_items(items@.skip(k as int), rpc_id@),
                decreases items@.len() - k,
            {
                assert(items@.skip(k as int)[0] == items@[k as int]);
                assert(items@.skip(k as int).drop_first() =~= items@.skip(k + 1));
                proof {
                    assert(decreases_to!(*value => items@[k as int]));
                }
                if let Some(p) = find_google_payload(&items[k], rpc_id) {
                    return Some(p);
                }
                k += 1;
            }
            None
        },
        _ => None,
    }
}

/// The payload of the first document that holds one.
pub fn first_google_payload(values: &[JsonValue], rpc_id: &str) -> (r: Option<String>)
    ensures
        match r {
            Some(p) => payload_in_items(values@, rpc_id@) == Some(p@),
            None => payload_in_items(values@, rpc_id@) is None,
        },
{
    let mut k: usize = 0;
    assert(values@.skip(0) =~= values@);
    while k < values.len()
        invariant
            k <= values@.len(),
            payload_in_items(values@, rpc_id@) == payload_in_items(values@.skip(k as int), rpc_id@),
        decreases values@.len() - k,
    {
        assert(values@.skip(k as int)[0] == values@[k as int]);
        assert(values@.skip(k as int).drop_first() =~= values@.skip(k + 1));
        if let Some(p) = find_google_payload(&values[k], rpc_id) {
            return Some(p);
        }
        k += 1;
    }
    None
}

/// The value at an array index, or at the member named by the index's digits.
pub open spec fn pointer_step(v: JsonValue, index: nat) -> Option<JsonValue> {
    match v {
        JsonValue::Array(items) => if index < items@.len() {
            Some(items@[index as int])
        } else {
            None
        },
        JsonValue::Object(members) => member(members@, crate::text::decimal(index)),
        _ => None,
    }
}

/// The first member of an object with a name.
pub open spec fn member(members: Seq<(String, JsonValue)>, name: Seq<char>) -> Option<JsonValue>
    decreases members.len(),
{
    if members.len() == 0 {
        None
    } else if members[0].0@ == name {
        Some(members[0].1)
    } else {
        member(members.drop_first(), name)
    }
}

/// The value at the pointer `/1/2/140/0/0/0`, where the store keeps the version.
pub open spec fn version_node(v: JsonValue) -> Option<JsonValue> {
    let path = seq![1nat, 2nat, 140nat, 0nat, 0nat, 0nat];
    follow(v, path)
}

pub open spec fn follow(v: JsonValue, path: Seq<nat>) -> Option<JsonValue>
    decreases path.len(),
{
    if path.len() == 0 {
        Some(v)
    } else {
        match pointer_step(v, path[0]) {
            Some(w) => follow(w, path.drop_first()),
            None => None,
        }
    }
}

#[verifier::loop_isolation(false)]
fn step(v: &JsonValue, index: usize) -> (r: Option<&JsonValue>)
    ensures
        match r {
            Some(w) => pointer_step(*v, index as nat) == Some(*w),
            None => pointer_step(*v, index as nat) is None,
        },
{
    match v {
        JsonValue::Array(items) => {
            if index < items.len() {
                Some(&items[index])
            } else {
                None
            }
        },
        JsonValue::Object(members) => {
            let name = crate::text::fmt_usize(index);
            let mut k: usize = 0;
            assert(members@.skip(0) =~= members@);
            while k < members.len()
                invariant
                    k <= members@.len(),
                    name@ == crate::text::decimal(index as nat),
                    member(members@, name@) == member(members@.skip(k as int), name@),
                decreases members@.len() - k,
            {
                assert(members@.skip(k as int)[0] == members@[k as int]);
                assert(members@.skip(k as int).drop_first() =~= members@.skip(k + 1));
                let key = chars_of(members[k].0.as_str());
                if eq(key.as_slice(), name.as_slice()) {
                    return Some(&members[k].1);
                }
                k += 1;
            }
            None
        },
        _ => None,
    }
}

/// The version in the store's payload document.
pub open spec fn spec_google_version(v: JsonValue) -> Result<Seq<char>, Seq<char>> {
    match version_node(v) {
        Some(JsonValue::Str(s)) => if spec_parse_version(s@) is Some {
            Ok(s@)
        } else {
            Err("invalid-store-version"@)
        },
        _ => Err("google-version-missing"@),
    }
}

pub fn google_version(value: &JsonValue) -> (r: Result<String, StoreUpdateError>)
    ensures
        match r {
            Ok(s) => spec_google_version(*value) == Ok::<Seq<char>, Seq<char>>(s@),
            Err(e) => spec_google_version(*value) == Err::<Seq<char>, Seq<char>>(e.code@),
        },
{
    let path: [usize; 6] = [1, 2, 140, 0, 0, 0];
    let ghost spath = seq![1nat, 2nat, 140nat, 0nat, 0nat, 0nat];
    let mut node: &JsonValue = value;
    let mut k: usize = 0;
    assert(spath.skip(0) =~= spath);
    while k < 6
        invariant
            k <= 6,
            path@ == seq![1usize, 2usize, 140usize, 0usize, 0usize, 0usize],
            spath == seq![1nat, 2nat, 140nat, 0nat, 0nat, 0nat],
            follow(*value, spath) == follow(*node, spath.skip(k as int)),
        decreases 6 - k,
    {
        assert(spath.skip(k as int)[0] == path@[k as int] as nat);
        assert(spath.skip(k as int).drop_first() =~= spath.skip(k + 1));
        match step(node, path[k]) {
            Some(w) => {
                node = w;
            },
            None => {
                return Err(StoreUpdateError::new("google-version-missing"));
            },
        }
        k += 1;
    }
    assert(spath.skip(6) =~= Seq::<nat>::empty());
    match node {
        JsonValue::Str(s) => validated_version(s.as_str()),
        _ => Err(StoreUpdateError::new("google-version-missing")),
    }
}

#[derive(Debug, Clone)]
pub struct AppleResult {
    pub bundle_id: String,
    pub version: String,
}

#[derive(Debug, Clone)]
pub struct AppleLookup {
    pub result_count: usize,
    pub results: Vec<AppleResult>,
}

/// The version that an App Store lookup reports for the game.
pub open spec fn spec_apple_version(lookup: AppleLookup) -> Result<Seq<char>, Seq<char>> {
    if lookup.result_count != 1 || lookup.results@.len() != 1 {
        Err("apple-app-missing"@)
    } else if lookup.results@[0].bundle_id@ != package_id() {
        Err("apple-bundle-mismatch"@)
    } else if spec_parse_version(lookup.results@[0].version@) is Some {
        Ok(lookup.results@[0].version@)
    } else {
        Err("invalid-store-version"@)
    }
}

pub fn apple_version(lookup: &AppleLookup) -> (r: Result<String, StoreUpdateError>)
    ensures
        match r {
            Ok(s) => spec_apple_version(*lookup) == Ok::<Seq<char>, Seq<char>>(s@),
            Err(e) => spec_apple_version(*lookup) == Err::<Seq<char>, Seq<char>>(e.code@),
        },
{
    if lookup.result_count != 1 || lookup.results.len() != 1 {
        return Err(StoreUpdateError::new("apple-app-missing"));
    }
    let result = &lookup.results[0];
    let bundle = chars_of(result.bundle_id.as_str());
    if !eq_str(bundle.as_slice(), "jp.co.ponos.battlecats") {
        return Err(StoreUpdateError::new("apple-bundle-mismatch"));
    }
    validated_version(result.version.as_str())
}

// ---------------------------------------------------------------------------
// Google Play responses
// ---------------------------------------------------------------------------

#[verifier::external_type_specification]
#[verifier::external_body]
pub struct ExSerdeJsonValue(serde_json::Value);

/// The document `serde_json` reads from a text, in the library's form, or
/// `None` where the text is not one JSON document.
pub uninterp spec fn json_value_of(text: Seq<char>) -> Option<JsonValue>;

/// `serde_json::Value` in the library's form, variant for variant: a number
/// as `serde_json::Number`'s text, an object's members in the order the map
/// holds them. Only `parse_json_value` hands it a value.
#[verifier::external_body]
fn json_from_serde(value: &serde_json::Value) -> (r: JsonValue) {
    match value {
        serde_json::Value::Null => JsonValue::Null,
        serde_json::Value::Bool(b) => JsonValue::Bool(*b),
        serde_json::Value::Number(n) => JsonValue::Number(n.to_string()),
        serde_json::Value::String(s) => JsonValue::Str(s.clone()),
        serde_json::Value::Array(items) => JsonValue::Array(items.iter().map(json_from_serde).collect()),
        serde_json::Value::Object(members) => JsonValue::Object(
            members.iter().map(|(k, v)| (k.clone(), json_from_serde(v))).collect(),
        ),
    }
}

/// `serde_json::from_str::<serde_json::Value>`: the document a text holds,
/// named by `json_value_of`; `None` where `serde_json` refuses the text.
#[verifier::external_body]
fn parse_json_value(text: &str) -> (r: Option<JsonValue>)
    ensures
        r == json_value_of(text@),
{
    let value = serde_json::from_str::<serde_json::Value>(text).ok()?;
    Some(json_from_serde(&value))
}

/// The documents of a response body, one per line that holds one after
/// trimming, in order.
pub open spec fn line_documents(lines: Seq<Seq<char>>) -> Seq<JsonValue>
    decreases lines.len(),
{
    if lines.len() == 0 {
        Seq::empty()
    } else {
        let prev = line_documents(lines.drop_last());
        match json_value_of(crate::text::spec_trim(lines.last())) {
            Some(v) => prev.push(v),
            None => prev,
        }
    }
}

/// The version that a Google Play response body reports: the payload of the
/// first `wrb.fr` frame for the RPC among the body's line documents, read as
/// a document, and the version at its version pointer.
pub open spec fn spec_google_response(body: Seq<char>, rpc_id: Seq<char>) -> Result<Seq<char>, Seq<char>> {
    match payload_in_items(line_documents(crate::text::spec_lines(body)), rpc_id) {
        None => Err("google-response-schema"@),
        Some(p) => match json_value_of(p) {
            None => Err("google-response-schema"@),
            Some(v) => spec_google_version(v),
        },
    }
}

fn line_document_list(body: &str) -> (r: Vec<JsonValue>)
    ensures
        r@ == line_documents(crate::text::spec_lines(body@)),
{
    let bv = chars_of(body);
    let ls = crate::text::lines(bv.as_slice());
    let ghost lv = views(ls@);
    let mut docs: Vec<JsonValue> = Vec::new();
    let mut i: usize = 0;
    while i < ls.len()
        invariant
            i <= ls@.len(),
            lv == views(ls@),
            lv == crate::text::spec_lines(body@),
            docs@ == line_documents(lv.take(i as int)),
        decreases ls@.len() - i,
    {
        let t = crate::text::trim(ls[i].as_slice());
        let ts = string_of(t.as_slice());
        assert(lv.take(i + 1).drop_last() =~= lv.take(i as int));
        assert(lv.take(i + 1).last() == ls@[i as int]@);
        match parse_json_value(ts.as_str()) {
            Some(v) => {
                docs.push(v);
            },
            None => {},
        }
        i += 1;
    }
    assert(lv.take(i as int) =~= lv);
    docs
}

/// Reads the version out of a Google Play response body for the RPC.
pub fn google_response_version(body: &str, rpc_id: &str) -> (r: Result<String, StoreUpdateError>)
    ensures
        match r {
            Ok(s) => spec_google_response(body@, rpc_id@) == Ok::<Seq<char>, Seq<char>>(s@),
            Err(e) => spec_google_response(body@, rpc_id@) == Err::<Seq<char>, Seq<char>>(e.code@),
        },
{
    let docs = line_document_list(body);
    let payload = match first_google_payload(docs.as_slice(), rpc_id) {
        Some(p) => p,
        None => {
            return Err(StoreUpdateError::new("google-response-schema"));
        },
    };
    match parse_json_value(payload.as_str()) {
        Some(v) => google_version(&v),
        None => Err(StoreUpdateError::new("google-response-schema")),
    }
}

} // verus!
