//! Bookkeeping of detected updates and their delivery to subscribed channels.
use vstd::prelude::*;
use vstd::string::StringSliceAdditionalSpecFns;

use crate::schedule::{jst_civil, jst_time, spec_weekday_japanese, weekday_japanese, CivilTime};
use crate::settings::{
    hex_encode, sha256, sha256_of, spec_hex, spec_valid_event_id, spec_valid_snowflake,
    valid_event_id, valid_snowflake, NotificationCategory, StorageError, Subscription,
};
use crate::protocol::opt_view;
use crate::skd::{spec_label, ScheduleType};
use crate::text::{
    append, append_str, byte_len, byte_length, chars_of, decimal, eq, eq_str, fmt_u64, is_hex,
    join_str, pad_zero, pad_zero_exec, slice, spec_is_hex, spec_join, spec_starts_with,
    spec_utf16_len, string_of, strip_prefix, strip_suffix, utf16_within, views,
};

verus! {

/// The most detail messages that one event may carry.
pub const MAX_DETAIL_MESSAGES: usize = 128;

/// Failure of a notification operation, identified by a short code.
#[derive(Debug)]
pub struct NotificationError {
    code: &'static str,
}

impl NotificationError {
    /// The code of this error.
    pub closed spec fn spec_code(&self) -> Seq<char> {
        self.code@
    }

    pub fn new(code: &'static str) -> (r: Self)
        ensures
            r.spec_code() == code@,
    {
        NotificationError { code }
    }

    /// The code that identifies the failure, such as `invalid-event`.
    pub fn code(&self) -> (r: &'static str)
        ensures
            r@ == self.spec_code(),
    {
        self.code
    }
}

/// A failed storage operation during a delivery.
pub fn storage_failure(error: StorageError) -> (r: NotificationError)
    ensures
        r.spec_code() == "delivery-failed"@,
{
    NotificationError::new("delivery-failed")
}

#[derive(Clone, Copy, Debug, PartialEq, Eq, Structural)]
pub enum DeliveryFailure {
    Failed,
    Reconciliation,
}

pub fn delivery_error(error: DeliveryFailure) -> (r: NotificationError)
    ensures
        r.spec_code() == match error {
            DeliveryFailure::Failed => "delivery-failed"@,
            DeliveryFailure::Reconciliation => "reconciliation-required"@,
        },
{
    match error {
        DeliveryFailure::Failed => NotificationError::new("delivery-failed"),
        DeliveryFailure::Reconciliation => NotificationError::new("reconciliation-required"),
    }
}

// ---------------------------------------------------------------------------
// Ids
// ---------------------------------------------------------------------------

pub open spec fn uuid_dash(i: int) -> bool {
    i == 8 || i == 13 || i == 18 || i == 23
}

/// A UUID in its 36-character text form.
pub open spec fn spec_valid_uuid(v: Seq<char>) -> bool {
    byte_len(v) == 36 && forall|i: int| 0 <= i < v.len() ==> if uuid_dash(i) {
        #[trigger] v[i] == '-'
    } else {
        spec_is_hex(v[i])
    }
}

pub fn valid_uuid(value: &str) -> (r: bool)
    ensures
        r == spec_valid_uuid(value@),
{
    let v = chars_of(value);
    if v.len() > 36 {
        proof {
            crate::text::lemma_byte_len_ge(v@);
        }
        return false;
    }
    if byte_length(v.as_slice()) != 36 {
        return false;
    }
    let mut i: usize = 0;
    while i < v.len()
        invariant
            i <= v@.len(),
            v@ == value@,
            byte_len(value@) == 36,
            forall|j: int| 0 <= j < i ==> if uuid_dash(j) {
                #[trigger] v@[j] == '-'
            } else {
                spec_is_hex(v@[j])
            },
        decreases v@.len() - i,
    {
        let ok = if i == 8 || i == 13 || i == 18 || i == 23 {
            v[i] == '-'
        } else {
            is_hex(v[i])
        };
        if !ok {
            return false;
        }
        i += 1;
    }
    true
}

/// A git revision: 40 hexadecimal digits.
pub open spec fn spec_valid_revision(v: Seq<char>) -> bool {
    byte_len(v) == 40 && forall|i: int| 0 <= i < v.len() ==> spec_is_hex(#[trigger] v[i])
}

pub fn valid_revision(value: &str) -> (r: bool)
    ensures
        r == spec_valid_revision(value@),
{
    let v = chars_of(value);
    if v.len() > 40 {
        proof {
            crate::text::lemma_byte_len_ge(v@);
        }
        return false;
    }
    if byte_length(v.as_slice()) != 40 {
        return false;
    }
    let mut i: usize = 0;
    while i < v.len()
        invariant
            i <= v@.len(),
            v@ == value@,
            byte_len(value@) == 40,
            forall|j: int| 0 <= j < i ==> spec_is_hex(#[trigger] v@[j]),
        decreases v@.len() - i,
    {
        if !is_hex(v[i]) {
            return false;
        }
        i += 1;
    }
    true
}

/// The nonce of a notification message: the first 24 hexadecimal digits of
/// the digest of its key.
pub fn notification_nonce(value: &str) -> (r: String)
    ensures
        r@ == spec_hex(sha256_of(value.spec_bytes())).take(24),
{
    let digest = sha256(value.as_bytes());
    let hex = hex_encode(digest.as_slice());
    proof {
        crate::settings::lemma_hex_len(digest@);
    }
    let h = chars_of(hex.as_str());
    let first = slice(h.as_slice(), 0, 24);
    string_of(first.as_slice())
}

/// `getrandom::fill` of 16 bytes; what the bytes are is left to chance.
#[verifier::external_body]
fn random_16() -> (r: Option<Vec<u8>>)
    ensures
        r matches Some(b) ==> b@.len() == 16,
{
    let mut bytes = vec![0_u8; 16];
    match getrandom::fill(&mut bytes) {
        Ok(()) => Some(bytes),
        Err(_) => None,
    }
}

/// Turns 16 bytes into a version-4 UUID: the version nibble set to 4, the
/// variant bits to `10`, the hexadecimal digits grouped 8-4-4-4-12.
pub open spec fn spec_uuid_text(bytes: Seq<u8>) -> Seq<char> {
    let b = bytes.update(6, (bytes[6] & 0x0f) | 0x40).update(8, (bytes[8] & 0x3f) | 0x80);
    let h = spec_hex(b);
    h.subrange(0, 8) + "-"@ + h.subrange(8, 12) + "-"@ + h.subrange(12, 16) + "-"@ + h.subrange(16, 20)
        + "-"@ + h.subrange(20, 32)
}

pub fn uuid_text(bytes: &Vec<u8>) -> (r: String)
    requires
        bytes@.len() == 16,
    ensures
        r@ == spec_uuid_text(bytes@),
{
    let mut b: Vec<u8> = bytes.clone();
    assert(b@ == bytes@);
    let b6 = (b[6] & 0x0f) | 0x40;
    b.set(6, b6);
    let b8 = (b[8] & 0x3f) | 0x80;
    b.set(8, b8);
    let hex = hex_encode(b.as_slice());
    proof {
        crate::settings::lemma_hex_len(b@);
    }
    let h = chars_of(hex.as_str());
    let mut v = slice(h.as_slice(), 0, 8);
    append_str(&mut v, "-");
    append(&mut v, slice(h.as_slice(), 8, 12).as_slice());
    append_str(&mut v, "-");
    append(&mut v, slice(h.as_slice(), 12, 16).as_slice());
    append_str(&mut v, "-");
    append(&mut v, slice(h.as_slice(), 16, 20).as_slice());
    append_str(&mut v, "-");
    append(&mut v, slice(h.as_slice(), 20, 32).as_slice());
    string_of(v.as_slice())
}

/// A fresh id for a delivery attempt, `None` when the system has no randomness.
pub fn new_attempt_id() -> (r: Option<String>)
    ensures
        r matches Some(s) ==> exists|b: Seq<u8>| b.len() == 16 && s@ == spec_uuid_text(b),
{
    match random_16() {
        Some(bytes) => Some(uuid_text(&bytes)),
        None => None,
    }
}

proof fn lemma_hex_digits(bytes: Seq<u8>)
    ensures
        forall|i: int| 0 <= i < spec_hex(bytes).len() ==> spec_is_hex(#[trigger] spec_hex(bytes)[i]),
    decreases bytes.len(),
{
    crate::settings::lemma_hex_len(bytes);
    if bytes.len() > 0 {
        lemma_hex_digits(bytes.drop_last());
        let prev = spec_hex(bytes.drop_last());
        crate::settings::lemma_hex_len(bytes.drop_last());
        let hi = bytes.last() / 16;
        let lo = bytes.last() % 16;
        assert forall|i: int| 0 <= i < spec_hex(bytes).len() implies spec_is_hex(#[trigger] spec_hex(bytes)[i]) by {
            if i < prev.len() {
                assert(spec_hex(bytes)[i] == prev[i]);
            } else if i == prev.len() {
                assert(spec_hex(bytes)[i] == crate::settings::hex_digit(hi));
            } else {
                assert(spec_hex(bytes)[i] == crate::settings::hex_digit(lo));
            }
        }
    }
}

/// Every attempt id is a valid UUID.
pub proof fn lemma_attempt_id_is_uuid(bytes: Seq<u8>)
    requires
        bytes.len() == 16,
    ensures
        spec_valid_uuid(spec_uuid_text(bytes)),
{
    reveal_strlit("-");
    let b = bytes.update(6, (bytes[6] & 0x0f) | 0x40).update(8, (bytes[8] & 0x3f) | 0x80);
    let h = spec_hex(b);
    crate::settings::lemma_hex_len(b);
    lemma_hex_digits(b);
    let t = spec_uuid_text(bytes);
    assert(t.len() == 36);
    assert forall|i: int| 0 <= i < t.len() implies (if uuid_dash(i) {
        #[trigger] t[i] == '-'
    } else {
        spec_is_hex(t[i])
    }) by {
        if i < 8 {
            assert(t[i] == h[i]);
        } else if i == 8 {
        } else if i < 13 {
            assert(t[i] == h[i - 1]);
        } else if i == 13 {
        } else if i < 18 {
            assert(t[i] == h[i - 2]);
        } else if i == 18 {
        } else if i < 23 {
            assert(t[i] == h[i - 3]);
        } else if i == 23 {
        } else {
            assert(t[i] == h[i - 4]);
        }
    }
    lemma_ascii_byte_len(t);
}

proof fn lemma_ascii_byte_len(t: Seq<char>)
    requires
        forall|i: int| 0 <= i < t.len() ==> (#[trigger] t[i]) == '-' || spec_is_hex(t[i]),
    ensures
        byte_len(t) == t.len(),
    decreases t.len(),
{
    if t.len() > 0 {
        assert forall|i: int| 0 <= i < t.drop_last().len() implies (#[trigger] t.drop_last()[i]) == '-' || spec_is_hex(t.drop_last()[i]) by {
            assert(t.drop_last()[i] == t[i]);
        }
        lemma_ascii_byte_len(t.drop_last());
        assert(t.last() == t[t.len() - 1]);
    }
}


// ---------------------------------------------------------------------------
// Detection events
// ---------------------------------------------------------------------------

#[derive(Clone, Copy, Debug, PartialEq, Eq, Structural)]
pub enum DetectionPhase {
    Detected,
    Types,
    Ready,
}

#[derive(Clone, Debug)]
pub struct ScheduleFile {
    pub path: String,
    pub hash: String,
}

/// The raw file of each kind of schedule that an update brought, if any.
#[derive(Clone, Debug)]
pub struct ScheduleFiles {
    pub gatya: Option<ScheduleFile>,
    pub sale: Option<ScheduleFile>,
    pub item: Option<ScheduleFile>,
}

#[derive(Clone, Debug)]
pub struct ScheduleSource {
    pub before_ref: String,
    pub after_ref: String,
    pub files: ScheduleFiles,
}

#[derive(Debug)]
pub struct DetectionEvent {
    pub version: u8,
    pub event_id: String,
    pub category: NotificationCategory,
    pub phase: DetectionPhase,
    pub detected_at: String,
    pub types: Vec<ScheduleType>,
    pub source: Option<ScheduleSource>,
}

pub open spec fn file_view(f: Option<ScheduleFile>) -> Option<(Seq<char>, Seq<char>)> {
    match f {
        Some(f) => Some((f.path@, f.hash@)),
        None => None,
    }
}

/// A schedule source as plain values: the two revisions and the
/// `(path, hash)` of each kind's file.
pub struct SourceView {
    pub before_ref: Seq<char>,
    pub after_ref: Seq<char>,
    pub gatya: Option<(Seq<char>, Seq<char>)>,
    pub sale: Option<(Seq<char>, Seq<char>)>,
    pub item: Option<(Seq<char>, Seq<char>)>,
}

impl View for ScheduleSource {
    type V = SourceView;

    open spec fn view(&self) -> SourceView {
        SourceView {
            before_ref: self.before_ref@,
            after_ref: self.after_ref@,
            gatya: file_view(self.files.gatya),
            sale: file_view(self.files.sale),
            item: file_view(self.files.item),
        }
    }
}

pub open spec fn source_file(s: SourceView, t: ScheduleType) -> Option<(Seq<char>, Seq<char>)> {
    match t {
        ScheduleType::Gatya => s.gatya,
        ScheduleType::Sale => s.sale,
        ScheduleType::Item => s.item,
    }
}

pub open spec fn opt_count<A>(o: Option<A>) -> nat {
    if o is Some {
        1
    } else {
        0
    }
}

/// How many kinds have a file.
pub open spec fn source_file_count(s: SourceView) -> nat {
    opt_count(s.gatya) + opt_count(s.sale) + opt_count(s.item)
}

pub open spec fn source_view(o: Option<ScheduleSource>) -> Option<SourceView> {
    match o {
        Some(s) => Some(s@),
        None => None,
    }
}

/// A detection event as plain values.
pub struct EventView {
    pub version: u8,
    pub event_id: Seq<char>,
    pub category: NotificationCategory,
    pub phase: DetectionPhase,
    pub detected_at: Seq<char>,
    pub types: Seq<ScheduleType>,
    pub source: Option<SourceView>,
}

impl View for DetectionEvent {
    type V = EventView;

    open spec fn view(&self) -> EventView {
        EventView {
            version: self.version,
            event_id: self.event_id@,
            category: self.category,
            phase: self.phase,
            detected_at: self.detected_at@,
            types: self.types@,
            source: source_view(self.source),
        }
    }
}

/// The instant that `chrono` reads from an RFC 3339 timestamp, as seconds
/// since the epoch and the nanoseconds within that second.
pub uninterp spec fn rfc3339_of(text: Seq<char>) -> Option<(i64, u32)>;

/// `chrono::DateTime::parse_from_rfc3339`, read back as the instant's
/// seconds and nanoseconds; `None` where the text is refused.
#[verifier::external_body]
fn parse_rfc3339(text: &str) -> (r: Option<(i64, u32)>)
    ensures
        r == rfc3339_of(text@),
{
    match chrono::DateTime::parse_from_rfc3339(text) {
        Ok(t) => Some((t.timestamp(), t.timestamp_subsec_nanos())),
        Err(_) => None,
    }
}

/// The text that `chrono` writes for an instant in UTC in RFC 3339 with
/// milliseconds and a `Z`.
pub uninterp spec fn rfc3339_millis_of(seconds: i64, nanos: u32) -> Option<Seq<char>>;

/// `chrono::DateTime::<Utc>::from_timestamp` followed by
/// `to_rfc3339_opts(SecondsFormat::Millis, true)`; `None` where the instant
/// lies outside what `chrono` represents.
#[verifier::external_body]
fn rfc3339_millis(seconds: i64, nanos: u32) -> (r: Option<String>)
    ensures
        match r {
            Some(s) => rfc3339_millis_of(seconds, nanos) == Some(s@),
            None => rfc3339_millis_of(seconds, nanos) is None,
        },
{
    match chrono::DateTime::<chrono::Utc>::from_timestamp(seconds, nanos) {
        Some(t) => Some(t.to_rfc3339_opts(chrono::SecondsFormat::Millis, true)),
        None => None,
    }
}

/// A file of a kind: `raw/{kind}_{digits}.tsv`, with a 32-digit hexadecimal hash.
pub open spec fn file_ok(t: ScheduleType, f: (Seq<char>, Seq<char>)) -> bool {
    let prefix = "raw/"@ + spec_label(t) + "_"@;
    let path = f.0;
    &&& spec_starts_with(path, prefix)
    &&& path.len() >= prefix.len() + 4
    &&& path.subrange(path.len() - 4, path.len() as int) == ".tsv"@
    &&& path.len() > prefix.len() + 4
    &&& crate::text::all_digits(path.subrange(prefix.len() as int, path.len() - 4))
    &&& byte_len(f.1) == 32
    &&& forall|i: int| 0 <= i < f.1.len() ==> spec_is_hex(#[trigger] f.1[i])
}

/// The source of a ready schedule event: two revisions and one valid file
/// for each of its kinds, and no other file.
pub open spec fn spec_source_ok(s: SourceView, types: Seq<ScheduleType>) -> bool {
    &&& spec_valid_revision(s.before_ref)
    &&& spec_valid_revision(s.after_ref)
    &&& types.len() > 0
    &&& source_file_count(s) == types.len()
    &&& forall|i: int| 0 <= i < types.len() ==> (source_file(s, #[trigger] types[i]) matches Some(f) && file_ok(types[i], f))
}

fn get_file(files: &ScheduleFiles, t: ScheduleType) -> (r: &Option<ScheduleFile>)
    ensures
        file_view(*r) == match t {
            ScheduleType::Gatya => file_view(files.gatya),
            ScheduleType::Sale => file_view(files.sale),
            ScheduleType::Item => file_view(files.item),
        },
{
    match t {
        ScheduleType::Gatya => &files.gatya,
        ScheduleType::Sale => &files.sale,
        ScheduleType::Item => &files.item,
    }
}

fn file_count(files: &ScheduleFiles) -> (r: usize)
    ensures
        r == opt_count(file_view(files.gatya)) + opt_count(file_view(files.sale)) + opt_count(file_view(files.item)),
{
    let mut n: usize = 0;
    if files.gatya.is_some() {
        n += 1;
    }
    if files.sale.is_some() {
        n += 1;
    }
    if files.item.is_some() {
        n += 1;
    }
    n
}

fn check_file(t: ScheduleType, f: &ScheduleFile) -> (r: bool)
    ensures
        r == file_ok(t, (f.path@, f.hash@)),
{
    proof {
        reveal_strlit(".tsv");
        reveal_strlit("raw/");
        reveal_strlit("_");
    }
    let path = chars_of(f.path.as_str());
    let mut prefix = chars_of("raw/");
    append_str(&mut prefix, t.label());
    append_str(&mut prefix, "_");
    let ghost pv = "raw/"@ + spec_label(t) + "_"@;
    assert(prefix@ == pv);
    let rest = match strip_prefix_chars(path.as_slice(), prefix.as_slice()) {
        Some(r) => r,
        None => {
            return false;
        },
    };
    let stamp = match strip_suffix(rest.as_slice(), ".tsv") {
        Some(r) => r,
        None => {
            assert(!(path@.len() >= pv.len() + 4 && path@.subrange(path@.len() - 4, path@.len() as int) == ".tsv"@)) by {
                if path@.len() >= pv.len() + 4 && path@.subrange(path@.len() - 4, path@.len() as int) == ".tsv"@ {
                    assert(rest@.subrange(rest@.len() - 4, rest@.len() as int) =~= path@.subrange(path@.len() - 4, path@.len() as int));
                }
            }
            return false;
        },
    };
    assert(path@.subrange(path@.len() - 4, path@.len() as int) =~= rest@.subrange(rest@.len() - 4, rest@.len() as int));
    assert(stamp@ =~= path@.subrange(pv.len() as int, path@.len() - 4));
    if stamp.len() == 0 || !crate::text::is_all_digits(stamp.as_slice()) {
        return false;
    }
    let hash = chars_of(f.hash.as_str());
    if hash.len() > 32 {
        proof {
            crate::text::lemma_byte_len_ge(hash@);
        }
        return false;
    }
    if byte_length(hash.as_slice()) != 32 {
        return false;
    }
    let mut i: usize = 0;
    while i < hash.len()
        invariant
            i <= hash@.len(),
            hash@ == f.hash@,
            forall|j: int| 0 <= j < i ==> spec_is_hex(#[trigger] hash@[j]),
        decreases hash@.len() - i,
    {
        if !is_hex(hash[i]) {
            return false;
        }
        i += 1;
    }
    true
}

fn strip_prefix_chars(s: &[char], p: &[char]) -> (r: Option<Vec<char>>)
    ensures
        match r {
            Some(rest) => spec_starts_with(s@, p@) && rest@ == s@.skip(p@.len() as int),
            None => !spec_starts_with(s@, p@),
        },
{
    if crate::text::starts_with(s, p) {
        Some(slice(s, p.len(), s.len()))
    } else {
        None
    }
}

/// Checks the source of a ready schedule event against its kinds.
pub fn validate_source(source: &ScheduleSource, types: &[ScheduleType]) -> (r: Result<(), StorageError>)
    ensures
        match r {
            Ok(()) => spec_source_ok(source@, types@),
            Err(e) => !spec_source_ok(source@, types@) && e.code@ == "invalid-schedule-source"@,
        },
{
    if !valid_revision(source.before_ref.as_str()) || !valid_revision(source.after_ref.as_str()) || types.len() == 0
        || file_count(&source.files) != types.len() {
        return Err(StorageError::new("invalid-schedule-source"));
    }
    let mut i: usize = 0;
    while i < types.len()
        invariant
            i <= types@.len(),
            forall|j: int| 0 <= j < i ==> (source_file(source@, #[trigger] types@[j]) matches Some(f) && file_ok(types@[j], f)),
        decreases types@.len() - i,
    {
        let t = types[i];
        let ok = match get_file(&source.files, t) {
            Some(f) => check_file(t, f),
            None => false,
        };
        if !ok {
            return Err(StorageError::new("invalid-schedule-source"));
        }
        i += 1;
    }
    Ok(())
}

/// Why an event is refused, or `None` when it is valid.
pub open spec fn event_error(e: EventView) -> Option<Seq<char>> {
    if e.version != 1 || !spec_valid_event_id(e.event_id) {
        Some("invalid-event"@)
    } else if rfc3339_of(e.detected_at) is None {
        Some("invalid-event-timestamp"@)
    } else if e.types.len() > 3 || !e.types.no_duplicates() {
        Some("invalid-event-types"@)
    } else if e.category != NotificationCategory::Skd {
        if e.phase != DetectionPhase::Detected || e.types.len() > 0 || e.source is Some {
            Some("invalid-control-event"@)
        } else {
            None
        }
    } else if e.phase == DetectionPhase::Types && e.types.len() == 0 {
        Some("missing-schedule-types"@)
    } else {
        match e.source {
            Some(s) => if e.phase == DetectionPhase::Ready {
                if spec_source_ok(s, e.types) {
                    None
                } else {
                    Some("invalid-schedule-source"@)
                }
            } else {
                Some("unexpected-schedule-source"@)
            },
            None => if e.phase == DetectionPhase::Ready {
                Some("missing-schedule-source"@)
            } else {
                None
            },
        }
    }
}

fn distinct_types(types: &Vec<ScheduleType>) -> (r: bool)
    ensures
        r == types@.no_duplicates(),
{
    let mut i: usize = 0;
    while i < types.len()
        invariant
            i <= types@.len(),
            forall|a: int, b: int| 0 <= a < b < types@.len() && a < i ==> types@[a] != types@[b],
        decreases types@.len() - i,
    {
        let mut j: usize = i + 1;
        while j < types.len()
            invariant
                i < types@.len(),
                i + 1 <= j <= types@.len(),
                forall|a: int, b: int| 0 <= a < b < types@.len() && a < i ==> types@[a] != types@[b],
                forall|b: int| i < b < j ==> types@[i as int] != types@[b],
            decreases types@.len() - j,
        {
            if types[i] == types[j] {
                return false;
            }
            j += 1;
        }
        i += 1;
    }
    true
}

impl DetectionEvent {
    /// Checks an event as it arrives or as it was stored.
    pub fn validate(&self) -> (r: Result<(), StorageError>)
        ensures
            match r {
                Ok(()) => event_error(self@) is None,
                Err(e) => event_error(self@) == Some(e.code@),
            },
    {
        if self.version != 1 || !valid_event_id(self.event_id.as_str()) {
            return Err(StorageError::new("invalid-event"));
        }
        if parse_rfc3339(self.detected_at.as_str()).is_none() {
            return Err(StorageError::new("invalid-event-timestamp"));
        }
        if self.types.len() > 3 || !distinct_types(&self.types) {
            return Err(StorageError::new("invalid-event-types"));
        }
        if self.category != NotificationCategory::Skd {
            if self.phase != DetectionPhase::Detected || self.types.len() > 0 || self.source.is_some() {
                return Err(StorageError::new("invalid-control-event"));
            }
            return Ok(());
        }
        if self.phase == DetectionPhase::Types && self.types.len() == 0 {
            return Err(StorageError::new("missing-schedule-types"));
        }
        match &self.source {
            Some(source) => if self.phase == DetectionPhase::Ready {
                validate_source(source, self.types.as_slice())
            } else {
                Err(StorageError::new("unexpected-schedule-source"))
            },
            None => if self.phase == DetectionPhase::Ready {
                Err(StorageError::new("missing-schedule-source"))
            } else {
                Ok(())
            },
        }
    }
}


/// The kinds of schedule in their fixed order.
pub open spec fn all_types() -> Seq<ScheduleType> {
    seq![ScheduleType::Gatya, ScheduleType::Sale, ScheduleType::Item]
}

/// The kinds that occur in `a` or `b`, in the fixed order.
pub open spec fn ordered_types(a: Seq<ScheduleType>, b: Seq<ScheduleType>) -> Seq<ScheduleType> {
    all_types().filter(|t: ScheduleType| a.contains(t) || b.contains(t))
}

fn contains_type(types: &Vec<ScheduleType>, t: ScheduleType) -> (r: bool)
    ensures
        r == types@.contains(t),
{
    let mut i: usize = 0;
    while i < types.len()
        invariant
            i <= types@.len(),
            forall|j: int| 0 <= j < i ==> types@[j] != t,
        decreases types@.len() - i,
    {
        if types[i] == t {
            return true;
        }
        i += 1;
    }
    false
}

/// The kinds of either list, in the fixed order.
pub fn merge_types(a: &Vec<ScheduleType>, b: &Vec<ScheduleType>) -> (r: Vec<ScheduleType>)
    ensures
        r@ == ordered_types(a@, b@),
{
    let mut r: Vec<ScheduleType> = Vec::new();
    let ghost f = |t: ScheduleType| a@.contains(t) || b@.contains(t);
    let all = [ScheduleType::Gatya, ScheduleType::Sale, ScheduleType::Item];
    assert(all@ == all_types());
    let mut i: usize = 0;
    while i < 3
        invariant
            i <= 3,
            all@ == all_types(),
            f == (|t: ScheduleType| a@.contains(t) || b@.contains(t)),
            r@ == all_types().take(i as int).filter(f),
        decreases 3 - i,
    {
        let t = all[i];
        assert(all_types().take(i + 1).drop_last() =~= all_types().take(i as int));
        proof {
            reveal(Seq::filter);
        }
        if contains_type(a, t) || contains_type(b, t) {
            r.push(t);
        }
        assert(r@ =~= all_types().take(i + 1).filter(f));
        i += 1;
    }
    assert(all_types().take(3) =~= all_types());
    r
}

/// An event as it is kept: its timestamp rewritten with milliseconds in UTC
/// and its kinds in the fixed order.
pub open spec fn spec_normalized(e: EventView) -> Option<EventView> {
    if event_error(e) is Some {
        None
    } else {
        match rfc3339_of(e.detected_at) {
            Some((secs, nanos)) => match rfc3339_millis_of(secs, nanos) {
                Some(text) => Some(EventView { detected_at: text, types: ordered_types(e.types, seq![]), ..e }),
                None => None,
            },
            None => None,
        }
    }
}

impl DetectionEvent {
    /// Checks an arriving event and brings it into the form in which it is
    /// kept; any refusal is `invalid-event`.
    pub fn normalize(self) -> (r: Result<DetectionEvent, NotificationError>)
        ensures
            match r {
                Ok(e) => spec_normalized(self@) == Some(e@),
                Err(err) => spec_normalized(self@) is None && err.spec_code() == "invalid-event"@,
            },
    {
        if self.validate().is_err() {
            return Err(NotificationError::new("invalid-event"));
        }
        let (secs, nanos) = match parse_rfc3339(self.detected_at.as_str()) {
            Some(t) => t,
            None => {
                return Err(NotificationError::new("invalid-event"));
            },
        };
        let text = match rfc3339_millis(secs, nanos) {
            Some(t) => t,
            None => {
                return Err(NotificationError::new("invalid-event"));
            },
        };
        let none: Vec<ScheduleType> = Vec::new();
        let types = merge_types(&self.types, &none);
        Ok(DetectionEvent {
            version: self.version,
            event_id: self.event_id,
            category: self.category,
            phase: self.phase,
            detected_at: text,
            types,
            source: self.source,
        })
    }
}

// ---------------------------------------------------------------------------
// Delivery records
// ---------------------------------------------------------------------------

#[derive(Clone, Copy, Debug, PartialEq, Eq, Structural)]
pub enum DeliveryStatus {
    Pending,
    Attempting,
    Sent,
}

#[derive(Clone, Debug)]
pub struct DeliveryPart {
    pub status: DeliveryStatus,
    pub attempt_id: Option<String>,
    pub message_id: Option<String>,
    pub content: Option<String>,
}

#[derive(Debug)]
pub struct DeliveryRecord {
    pub channel_id: String,
    pub status: DeliveryStatus,
    pub attempt_id: Option<String>,
    pub message_id: Option<String>,
    pub content: Option<String>,
    pub follow_ups: Option<Vec<DeliveryPart>>,
}

#[derive(Debug)]
pub struct EventRecord {
    pub schema_version: u8,
    pub event: DetectionEvent,
    pub deliveries: Vec<DeliveryRecord>,
    pub detail_contents: Option<Vec<String>>,
}

pub struct PartView {
    pub status: DeliveryStatus,
    pub attempt_id: Option<Seq<char>>,
    pub message_id: Option<Seq<char>>,
    pub content: Option<Seq<char>>,
}

impl View for DeliveryPart {
    type V = PartView;

    open spec fn view(&self) -> PartView {
        PartView {
            status: self.status,
            attempt_id: opt_view(self.attempt_id),
            message_id: opt_view(self.message_id),
            content: opt_view(self.content),
        }
    }
}

pub open spec fn part_views(v: Seq<DeliveryPart>) -> Seq<PartView> {
    v.map_values(|p: DeliveryPart| p@)
}

pub struct DeliveryView {
    pub channel_id: Seq<char>,
    pub part: PartView,
    pub follow_ups: Option<Seq<PartView>>,
}

impl View for DeliveryRecord {
    type V = DeliveryView;

    open spec fn view(&self) -> DeliveryView {
        DeliveryView {
            channel_id: self.channel_id@,
            part: PartView {
                status: self.status,
                attempt_id: opt_view(self.attempt_id),
                message_id: opt_view(self.message_id),
                content: opt_view(self.content),
            },
            follow_ups: match self.follow_ups {
                Some(v) => Some(part_views(v@)),
                None => None,
            },
        }
    }
}

pub open spec fn delivery_views(v: Seq<DeliveryRecord>) -> Seq<DeliveryView> {
    v.map_values(|d: DeliveryRecord| d@)
}

pub struct RecordView {
    pub schema_version: u8,
    pub event: EventView,
    pub deliveries: Seq<DeliveryView>,
    pub detail_contents: Option<Seq<Seq<char>>>,
}

impl View for EventRecord {
    type V = RecordView;

    open spec fn view(&self) -> RecordView {
        RecordView {
            schema_version: self.schema_version,
            event: self.event@,
            deliveries: delivery_views(self.deliveries@),
            detail_contents: match self.detail_contents {
                Some(v) => Some(crate::text::string_views(v@)),
                None => None,
            },
        }
    }
}

pub open spec fn pending_part() -> PartView {
    PartView { status: DeliveryStatus::Pending, attempt_id: None, message_id: None, content: None }
}

/// A part of a delivery that has not been tried yet.
pub fn pending_part_exec() -> (r: DeliveryPart)
    ensures
        r@ == pending_part(),
{
    DeliveryPart { status: DeliveryStatus::Pending, attempt_id: None, message_id: None, content: None }
}

/// A delivery to a channel that has not been tried yet.
pub fn pending_delivery(channel_id: String) -> (r: DeliveryRecord)
    ensures
        r@ == (DeliveryView { channel_id: channel_id@, part: pending_part(), follow_ups: None }),
{
    DeliveryRecord {
        channel_id,
        status: DeliveryStatus::Pending,
        attempt_id: None,
        message_id: None,
        content: None,
        follow_ups: None,
    }
}

/// A stored part: ids in their forms, and a sent part knows its message.
pub open spec fn part_ok(p: PartView) -> bool {
    &&& (p.attempt_id matches Some(a) ==> spec_valid_uuid(a))
    &&& (p.message_id matches Some(m) ==> spec_valid_snowflake(m))
    &&& (p.status == DeliveryStatus::Sent ==> p.message_id is Some)
}

pub fn part_valid(p: &DeliveryPart) -> (r: bool)
    ensures
        r == part_ok(p@),
{
    let a = match &p.attempt_id {
        Some(a) => valid_uuid(a.as_str()),
        None => true,
    };
    let m = match &p.message_id {
        Some(m) => valid_snowflake(m.as_str()),
        None => true,
    };
    a && m && (p.status != DeliveryStatus::Sent || p.message_id.is_some())
}


/// A stored delivery: a channel id, a valid part, and as many valid
/// follow-up parts as there are detail messages.
pub open spec fn delivery_ok(d: DeliveryView, details: nat) -> bool {
    &&& spec_valid_snowflake(d.channel_id)
    &&& part_ok(d.part)
    &&& (d.follow_ups matches Some(ps) ==> ps.len() == details && forall|i: int| 0 <= i < ps.len() ==> part_ok(#[trigger] ps[i]))
}

pub open spec fn deliveries_ok(ds: Seq<DeliveryView>, details: nat) -> bool {
    &&& forall|i: int| 0 <= i < ds.len() ==> delivery_ok(#[trigger] ds[i], details)
    &&& forall|i: int, j: int| 0 <= i < j < ds.len() ==> (#[trigger] ds[i]).channel_id != (#[trigger] ds[j]).channel_id
}

pub open spec fn details_count(c: Option<Seq<Seq<char>>>) -> nat {
    match c {
        Some(c) => c.len(),
        None => 0,
    }
}

/// Detail messages, when there are any: between one and the most, each
/// within a message's length.
pub open spec fn details_ok(c: Option<Seq<Seq<char>>>) -> bool {
    match c {
        Some(c) => c.len() > 0 && c.len() <= MAX_DETAIL_MESSAGES && forall|i: int| 0 <= i < c.len() ==> spec_utf16_len(#[trigger] c[i]) <= 2000,
        None => true,
    }
}

/// Why a stored record is refused, or `None` when it is valid.
pub open spec fn record_error(r: RecordView) -> Option<Seq<char>> {
    if r.schema_version != 1 {
        Some("invalid-event-record"@)
    } else if event_error(r.event) is Some {
        event_error(r.event)
    } else if !deliveries_ok(r.deliveries, details_count(r.detail_contents)) {
        Some("invalid-delivery"@)
    } else if !details_ok(r.detail_contents) {
        Some("invalid-details"@)
    } else {
        None
    }
}

#[verifier::loop_isolation(false)]
fn delivery_valid(d: &DeliveryRecord, details: usize) -> (r: bool)
    ensures
        r == delivery_ok(d@, details as nat),
{
    if !valid_snowflake(d.channel_id.as_str()) {
        return false;
    }
    let head = DeliveryPart {
        status: d.status,
        attempt_id: match &d.attempt_id {
            Some(a) => Some(string_of(chars_of(a.as_str()).as_slice())),
            None => None,
        },
        message_id: match &d.message_id {
            Some(a) => Some(string_of(chars_of(a.as_str()).as_slice())),
            None => None,
        },
        content: None,
    };
    if !part_valid(&head) {
        return false;
    }
    match &d.follow_ups {
        None => true,
        Some(parts) => {
            if parts.len() != details {
                return false;
            }
            let mut i: usize = 0;
            while i < parts.len()
                invariant
                    i <= parts@.len(),
                    forall|j: int| 0 <= j < i ==> part_ok(#[trigger] part_views(parts@)[j]),
                decreases parts@.len() - i,
            {
                if !part_valid(&parts[i]) {
                    assert(part_views(parts@)[i as int] == parts@[i as int]@);
                    return false;
                }
                assert(part_views(parts@)[i as int] == parts@[i as int]@);
                i += 1;
            }
            true
        },
    }
}

impl EventRecord {
    /// Checks a record as it was stored.
    #[verifier::loop_isolation(false)]
    pub fn validate(&self) -> (r: Result<(), StorageError>)
        ensures
            match r {
                Ok(()) => record_error(self@) is None,
                Err(e) => record_error(self@) == Some(e.code@),
            },
    {
        if self.schema_version != 1 {
            return Err(StorageError::new("invalid-event-record"));
        }
        self.event.validate()?;
        let details: usize = match &self.detail_contents {
            Some(c) => c.len(),
            None => 0,
        };
        let ghost ds = delivery_views(self.deliveries@);
        let mut i: usize = 0;
        while i < self.deliveries.len()
            invariant
                i <= self.deliveries@.len(),
                ds == delivery_views(self.deliveries@),
                details == details_count(self@.detail_contents),
                forall|a: int| 0 <= a < i ==> delivery_ok(#[trigger] ds[a], details as nat),
                forall|a: int, b: int| 0 <= a < b < i ==> (#[trigger] ds[a]).channel_id != (#[trigger] ds[b]).channel_id,
            decreases self.deliveries@.len() - i,
        {
            let d = &self.deliveries[i];
            assert(ds[i as int] == d@);
            if !delivery_valid(d, details) {
                return Err(StorageError::new("invalid-delivery"));
            }
            let c = chars_of(d.channel_id.as_str());
            let mut j: usize = 0;
            while j < i
                invariant
                    j <= i < self.deliveries@.len(),
                    ds == delivery_views(self.deliveries@),
                    c@ == ds[i as int].channel_id,
                    forall|b: int| 0 <= b < j ==> ds[b].channel_id != ds[i as int].channel_id,
                decreases i - j,
            {
                let other = chars_of(self.deliveries[j].channel_id.as_str());
                assert(ds[j as int] == self.deliveries@[j as int]@);
                if eq(other.as_slice(), c.as_slice()) {
                    return Err(StorageError::new("invalid-delivery"));
                }
                j += 1;
            }
            i += 1;
        }
        match &self.detail_contents {
            None => Ok(()),
            Some(contents) => {
                if contents.len() == 0 || contents.len() > MAX_DETAIL_MESSAGES {
                    return Err(StorageError::new("invalid-details"));
                }
                let ghost cv = crate::text::string_views(contents@);
                let mut k: usize = 0;
                while k < contents.len()
                    invariant
                        k <= contents@.len(),
                        cv == crate::text::string_views(contents@),
                        forall|a: int| 0 <= a < k ==> spec_utf16_len(#[trigger] cv[a]) <= 2000,
                    decreases contents@.len() - k,
                {
                    let v = chars_of(contents[k].as_str());
                    assert(cv[k as int] == contents@[k as int]@);
                    if !utf16_within(v.as_slice(), 2000) {
                        return Err(StorageError::new("invalid-details"));
                    }
                    k += 1;
                }
                Ok(())
            },
        }
    }
}


// ---------------------------------------------------------------------------
// Merging an event into its record
// ---------------------------------------------------------------------------

pub open spec fn delivery_channels(ds: Seq<DeliveryView>) -> Seq<Seq<char>> {
    ds.map_values(|d: DeliveryView| d.channel_id)
}

/// One pending delivery for each channel subscribed to the category, in the
/// order of the subscriptions, each channel once.
pub open spec fn pending_deliveries(subs: Seq<Subscription>, category: NotificationCategory) -> Seq<DeliveryView>
    decreases subs.len(),
{
    if subs.len() == 0 {
        seq![]
    } else {
        let prev = pending_deliveries(subs.drop_last(), category);
        let s = subs.last();
        if s.category == category && !delivery_channels(prev).contains(s.channel_id@) {
            prev.push(DeliveryView { channel_id: s.channel_id@, part: pending_part(), follow_ups: None })
        } else {
            prev
        }
    }
}

pub open spec fn record_view(o: Option<EventRecord>) -> Option<RecordView> {
    match o {
        Some(r) => Some(r@),
        None => None,
    }
}

/// A new event opens a record with a pending delivery for each subscribed
/// channel; a later event of the same category brings the source, or more
/// kinds, to the record it finds.
pub open spec fn spec_merge(current: Option<RecordView>, event: EventView, subs: Seq<Subscription>) -> Result<RecordView, Seq<char>> {
    match current {
        None => Ok(RecordView {
            schema_version: 1,
            event,
            deliveries: pending_deliveries(subs, event.category),
            detail_contents: None,
        }),
        Some(r) => if r.event.category != event.category {
            Err("event-category-mismatch"@)
        } else {
            match event.source {
                Some(s) => if r.event.source is Some && r.event.source != Some(s) {
                    Err("schedule-source-mismatch"@)
                } else {
                    Ok(RecordView {
                        event: EventView { source: Some(s), phase: DetectionPhase::Ready, types: event.types, ..r.event },
                        ..r
                    })
                },
                None => Ok(RecordView {
                    event: EventView { types: ordered_types(r.event.types, event.types), ..r.event },
                    ..r
                }),
            }
        },
    }
}

fn same_file(a: &Option<ScheduleFile>, b: &Option<ScheduleFile>) -> (r: bool)
    ensures
        r == (file_view(*a) == file_view(*b)),
{
    match (a, b) {
        (None, None) => true,
        (Some(x), Some(y)) => {
            let xp = chars_of(x.path.as_str());
            let yp = chars_of(y.path.as_str());
            let xh = chars_of(x.hash.as_str());
            let yh = chars_of(y.hash.as_str());
            eq(xp.as_slice(), yp.as_slice()) && eq(xh.as_slice(), yh.as_slice())
        },
        _ => false,
    }
}

/// Whether two sources name the same revisions and files.
pub fn same_source(a: &ScheduleSource, b: &ScheduleSource) -> (r: bool)
    ensures
        r == (a@ == b@),
{
    let ab = chars_of(a.before_ref.as_str());
    let bb = chars_of(b.before_ref.as_str());
    let aa = chars_of(a.after_ref.as_str());
    let ba = chars_of(b.after_ref.as_str());
    eq(ab.as_slice(), bb.as_slice()) && eq(aa.as_slice(), ba.as_slice()) && same_file(&a.files.gatya, &b.files.gatya)
        && same_file(&a.files.sale, &b.files.sale) && same_file(&a.files.item, &b.files.item)
}

fn has_channel(ds: &Vec<DeliveryRecord>, channel: &[char]) -> (r: bool)
    ensures
        r == delivery_channels(delivery_views(ds@)).contains(channel@),
{
    let ghost cs = delivery_channels(delivery_views(ds@));
    let mut i: usize = 0;
    while i < ds.len()
        invariant
            i <= ds@.len(),
            cs == delivery_channels(delivery_views(ds@)),
            forall|j: int| 0 <= j < i ==> cs[j] != channel@,
        decreases ds@.len() - i,
    {
        let c = chars_of(ds[i].channel_id.as_str());
        assert(cs[i as int] == ds@[i as int].channel_id@);
        if eq(c.as_slice(), channel) {
            return true;
        }
        i += 1;
    }
    false
}

fn fresh_deliveries(subs: &[Subscription], category: NotificationCategory) -> (r: Vec<DeliveryRecord>)
    ensures
        delivery_views(r@) == pending_deliveries(subs@, category),
{
    let mut r: Vec<DeliveryRecord> = Vec::new();
    let mut i: usize = 0;
    assert(delivery_views(r@) =~= seq![]);
    while i < subs.len()
        invariant
            i <= subs@.len(),
            delivery_views(r@) == pending_deliveries(subs@.take(i as int), category),
        decreases subs@.len() - i,
    {
        let s = &subs[i];
        assert(subs@.take(i + 1).drop_last() =~= subs@.take(i as int));
        assert(subs@.take(i + 1).last() == subs@[i as int]);
        let c = chars_of(s.channel_id.as_str());
        if s.category == category && !has_channel(&r, c.as_slice()) {
            let d = pending_delivery(string_of(c.as_slice()));
            let ghost before = r@;
            r.push(d);
            assert(delivery_views(r@) =~= delivery_views(before).push(d@));
        }
        i += 1;
    }
    assert(subs@.take(i as int) =~= subs@);
    r
}

/// Merges an arriving event into the stored record of its id.
pub fn merge_event(current: Option<EventRecord>, event: DetectionEvent, subscriptions: &[Subscription]) -> (r: Result<EventRecord, StorageError>)
    ensures
        match r {
            Ok(rec) => spec_merge(record_view(current), event@, subscriptions@) == Ok::<RecordView, Seq<char>>(rec@),
            Err(e) => spec_merge(record_view(current), event@, subscriptions@) == Err::<RecordView, Seq<char>>(e.code@),
        },
{
    match current {
        None => {
            let deliveries = fresh_deliveries(subscriptions, event.category);
            Ok(EventRecord { schema_version: 1, event, deliveries, detail_contents: None })
        },
        Some(mut record) => {
            if record.event.category != event.category {
                return Err(StorageError::new("event-category-mismatch"));
            }
            let DetectionEvent { source, types, .. } = event;
            match source {
                Some(s) => {
                    let clash = match &record.event.source {
                        Some(current) => !same_source(current, &s),
                        None => false,
                    };
                    if clash {
                        return Err(StorageError::new("schedule-source-mismatch"));
                    }
                    record.event.source = Some(s);
                    record.event.phase = DetectionPhase::Ready;
                    record.event.types = types;
                    Ok(record)
                },
                None => {
                    let merged = merge_types(&record.event.types, &types);
                    record.event.types = merged;
                    Ok(record)
                },
            }
        },
    }
}

proof fn lemma_pending_shape(subs: Seq<Subscription>, category: NotificationCategory)
    ensures
        forall|i: int, j: int| 0 <= i < j < pending_deliveries(subs, category).len()
            ==> (#[trigger] pending_deliveries(subs, category)[i]).channel_id != (#[trigger] pending_deliveries(subs, category)[j]).channel_id,
        forall|i: int| 0 <= i < pending_deliveries(subs, category).len() ==> (#[trigger] pending_deliveries(subs, category)[i]).part == pending_part()
            && pending_deliveries(subs, category)[i].follow_ups is None,
        forall|c: Seq<char>| delivery_channels(pending_deliveries(subs, category)).contains(c) <==> crate::settings::subscribed(subs, c, category),
    decreases subs.len(),
{
    if subs.len() > 0 {
        let t = subs.drop_last();
        lemma_pending_shape(t, category);
        let prev = pending_deliveries(t, category);
        let cur = pending_deliveries(subs, category);
        let s = subs.last();
        assert forall|c: Seq<char>| delivery_channels(cur).contains(c) <==> crate::settings::subscribed(subs, c, category) by {
            if crate::settings::subscribed(subs, c, category) {
                let k = choose|k: int| 0 <= k < subs.len() && (#[trigger] subs[k]).channel_id@ == c && subs[k].category == category;
                if k < t.len() {
                    assert(t[k] == subs[k]);
                    assert(crate::settings::subscribed(t, c, category));
                    assert(delivery_channels(prev).contains(c));
                    let m = choose|m: int| 0 <= m < delivery_channels(prev).len() && delivery_channels(prev)[m] == c;
                    assert(delivery_channels(cur)[m] == c);
                } else {
                    if !delivery_channels(prev).contains(c) {
                        assert(delivery_channels(cur)[prev.len() as int] == c);
                    } else {
                        let m = choose|m: int| 0 <= m < delivery_channels(prev).len() && delivery_channels(prev)[m] == c;
                        assert(delivery_channels(cur)[m] == c);
                    }
                }
            }
            if delivery_channels(cur).contains(c) {
                let m = choose|m: int| 0 <= m < delivery_channels(cur).len() && delivery_channels(cur)[m] == c;
                if m < prev.len() {
                    assert(delivery_channels(prev)[m] == c);
                    assert(crate::settings::subscribed(t, c, category));
                    let k = choose|k: int| 0 <= k < t.len() && (#[trigger] t[k]).channel_id@ == c && t[k].category == category;
                    assert(subs[k] == t[k]);
                } else {
                    assert(subs[subs.len() - 1].channel_id@ == c);
                }
            }
        }
        if s.category == category && !delivery_channels(prev).contains(s.channel_id@) {
            assert forall|i: int| 0 <= i < prev.len() implies (#[trigger] cur[i]).channel_id != cur[prev.len() as int].channel_id by {
                assert(delivery_channels(prev)[i] == prev[i].channel_id);
            }
        }
    }
}

/// A new record lists each channel subscribed to the event's category once,
/// and only those, with nothing delivered yet.
pub proof fn lemma_fresh_record(event: EventView, subs: Seq<Subscription>)
    ensures
        spec_merge(None, event, subs) matches Ok(r) && {
            &&& r.event == event
            &&& r.detail_contents is None
            &&& forall|i: int, j: int| 0 <= i < j < r.deliveries.len() ==> (#[trigger] r.deliveries[i]).channel_id != (#[trigger] r.deliveries[j]).channel_id
            &&& forall|i: int| 0 <= i < r.deliveries.len() ==> (#[trigger] r.deliveries[i]).part == pending_part() && r.deliveries[i].follow_ups is None
            &&& forall|c: Seq<char>| delivery_channels(r.deliveries).contains(c) <==> crate::settings::subscribed(subs, c, event.category)
        },
{
    lemma_pending_shape(subs, event.category);
}

/// Merging into a stored record never touches its deliveries or details.
pub proof fn lemma_merge_keeps_deliveries(current: RecordView, event: EventView, subs: Seq<Subscription>)
    ensures
        spec_merge(Some(current), event, subs) matches Ok(r) ==> r.deliveries == current.deliveries
            && r.detail_contents == current.detail_contents && r.schema_version == current.schema_version
            && r.event.event_id == current.event.event_id && r.event.detected_at == current.event.detected_at,
{
}

/// Without a source, the kinds after a merge are those of either event, in
/// the fixed order.
pub proof fn lemma_merge_unites_types(current: RecordView, event: EventView, subs: Seq<Subscription>, t: ScheduleType)
    requires
        event.source is None,
        current.event.category == event.category,
    ensures
        spec_merge(Some(current), event, subs) matches Ok(r) && (r.event.types.contains(t) <==> (current.event.types.contains(t)
            || event.types.contains(t))),
{
    let f = |u: ScheduleType| current.event.types.contains(u) || event.types.contains(u);
    reveal_with_fuel(Seq::filter, 4);
    assert(all_types().filter(f).contains(t) <==> f(t)) by {
        assert(all_types()[0] == ScheduleType::Gatya);
        assert(all_types()[1] == ScheduleType::Sale);
        assert(all_types()[2] == ScheduleType::Item);
        assert(all_types().drop_last().drop_last().drop_last() =~= seq![]);
        if f(t) {
            match t {
                ScheduleType::Gatya => assert(all_types().filter(f)[0] == t),
                ScheduleType::Sale => assert(all_types().filter(f).contains(t)) by {
                    let pre = all_types().drop_last().drop_last().filter(f);
                    assert(all_types().drop_last().filter(f) == pre.push(ScheduleType::Sale));
                    assert(all_types().drop_last().filter(f).last() == t);
                },
                ScheduleType::Item => assert(all_types().filter(f).last() == t),
            }
        }
    }
}

proof fn lemma_ordered_types_twice(a: Seq<ScheduleType>, b: Seq<ScheduleType>)
    ensures
        ordered_types(ordered_types(a, b), b) == ordered_types(a, b),
{
    let f = |u: ScheduleType| a.contains(u) || b.contains(u);
    let g = |u: ScheduleType| ordered_types(a, b).contains(u) || b.contains(u);
    reveal_with_fuel(Seq::filter, 4);
    let all = all_types();
    assert(all.drop_last().drop_last().drop_last() =~= seq![]);
    assert(all[0] == ScheduleType::Gatya && all[1] == ScheduleType::Sale && all[2] == ScheduleType::Item);
    let o = all.filter(f);
    assert forall|u: ScheduleType| #[trigger] g(u) == f(u) by {
        if f(u) {
            match u {
                ScheduleType::Gatya => assert(all.drop_last().drop_last().filter(f).contains(u) ==> o.contains(u)),
                _ => {},
            }
        }
    }
    assert(g =~= f);
}

/// Merging the same event a second time changes nothing.
pub proof fn lemma_merge_idempotent(current: Option<RecordView>, event: EventView, subs: Seq<Subscription>)
    requires
        spec_merge(current, event, subs) is Ok,
        current is Some,
    ensures
        spec_merge(Some(spec_merge(current, event, subs)->Ok_0), event, subs) == spec_merge(current, event, subs),
{
    let r = spec_merge(current, event, subs)->Ok_0;
    let c = current->Some_0;
    if event.source is None {
        lemma_ordered_types_twice(c.event.types, event.types);
        assert(spec_merge(Some(r), event, subs)->Ok_0 =~= r);
    }
}

/// The stored record of an event, which must exist.
pub fn required_record(current: Option<EventRecord>) -> (r: Result<EventRecord, StorageError>)
    ensures
        match r {
            Ok(rec) => current matches Some(c) && rec@ == c@,
            Err(e) => current is None && e.code@ == "missing-event-record"@,
        },
{
    match current {
        Some(c) => Ok(c),
        None => Err(StorageError::new("missing-event-record")),
    }
}

/// The first delivery of a record to a channel.
pub fn find_delivery<'a>(record: &'a EventRecord, channel_id: &str) -> (r: Result<&'a DeliveryRecord, DeliveryFailure>)
    ensures
        match r {
            Ok(d) => {
                let i = crate::gatya_schedule::first_index(delivery_channels(record@.deliveries), channel_id@);
                i >= 0 && d@ == record@.deliveries[i]
            },
            Err(f) => crate::gatya_schedule::first_index(delivery_channels(record@.deliveries), channel_id@) == -1
                && f == DeliveryFailure::Failed,
        },
{
    let ghost cs = delivery_channels(record@.deliveries);
    let c = chars_of(channel_id);
    let mut i: usize = 0;
    while i < record.deliveries.len()
        invariant
            i <= record.deliveries@.len(),
            c@ == channel_id@,
            cs == delivery_channels(delivery_views(record.deliveries@)),
            forall|j: int| 0 <= j < i ==> cs[j] != channel_id@,
        decreases record.deliveries@.len() - i,
    {
        let d = chars_of(record.deliveries[i].channel_id.as_str());
        assert(cs[i as int] == record.deliveries@[i as int].channel_id@);
        if eq(d.as_slice(), c.as_slice()) {
            proof {
                crate::gatya_schedule::lemma_first_index(cs, channel_id@, i as int);
            }
            return Ok(&record.deliveries[i]);
        }
        i += 1;
    }
    proof {
        crate::gatya_schedule::lemma_first_index(cs, channel_id@, i as int);
    }
    Err(DeliveryFailure::Failed)
}


// ---------------------------------------------------------------------------
// The notification message
// ---------------------------------------------------------------------------

pub open spec fn detection_title(c: NotificationCategory) -> Seq<char> {
    match c {
        NotificationCategory::Skd => "**スケジュール更新**"@,
        NotificationCategory::Ad => "adの更新を検知"@,
        _ => "popup_noticeの更新を検知"@,
    }
}

/// A year written with at least four characters, a minus sign counting as one.
pub open spec fn year_text(y: i32) -> Seq<char> {
    if y >= 0 {
        pad_zero(decimal(y as nat), 4)
    } else {
        "-"@ + pad_zero(decimal((-y) as nat), 3)
    }
}

pub open spec fn two(n: u32) -> Seq<char> {
    pad_zero(decimal(n as nat), 2)
}

/// `検知時刻: YYYY/MM/DD(曜) HH:MM:SS` in Japan time.
pub open spec fn detection_time(c: CivilTime) -> Seq<char> {
    "検知時刻: "@ + year_text(c.year) + "/"@ + two(c.month) + "/"@ + two(c.day) + "("@ + spec_weekday_japanese(
        c.weekday_from_sunday,
    ) + ") "@ + two(c.hour) + ":"@ + two(c.minute) + ":"@ + two(c.second)
}

/// The message for a detected update: its title, when it was detected and,
/// for a schedule update when asked, its kinds.
pub open spec fn spec_format_detection(e: EventView, include_types: bool) -> Option<Seq<char>> {
    match rfc3339_of(e.detected_at) {
        Some((secs, _)) => match jst_civil(secs) {
            Some(c) => {
                let base = seq![detection_title(e.category), detection_time(c)];
                let lines = if e.category == NotificationCategory::Skd && include_types && e.types.len() > 0 {
                    base.push("種類: "@ + spec_join(crate::skd::type_labels(e.types), ","@))
                } else {
                    base
                };
                Some(spec_join(lines, "\n"@))
            },
            None => None,
        },
        None => None,
    }
}

/// `の更新を検知` followed by a line feed, character by character.
pub open spec fn detected_suffix() -> Seq<char> {
    seq!['の', '更', '新', 'を', '検', '知', '\n']
}

/// The name of the file watched for a category of detection.
pub open spec fn watched_source(c: NotificationCategory) -> Seq<char> {
    if c == NotificationCategory::Ad {
        seq!['a', 'd']
    } else {
        seq!['p', 'o', 'p', 'u', 'p', '_', 'n', 'o', 't', 'i', 'c', 'e']
    }
}

/// A detection message of the ad or the notice file begins with the name of
/// the file it watches, `ad` or `popup_notice`, and `の更新を検知` on a line
/// of its own; so the first lines of an ad and a notice detection differ.
pub proof fn lemma_detection_title_names_source(e: EventView, include_types: bool)
    requires
        e.category == NotificationCategory::Ad || e.category == NotificationCategory::Notice,
        spec_format_detection(e, include_types) is Some,
    ensures
        ({
            let m = spec_format_detection(e, include_types)->Some_0;
            let p = watched_source(e.category) + detected_suffix();
            m.len() >= p.len() && m.take(p.len() as int) == p
        }),
{
    reveal_strlit("adの更新を検知");
    reveal_strlit("popup_noticeの更新を検知");
    reveal_strlit("\n");
    let (secs, _) = rfc3339_of(e.detected_at)->Some_0;
    let c = jst_civil(secs)->Some_0;
    let title = detection_title(e.category);
    let lines = seq![title, detection_time(c)];
    assert(lines.drop_last() =~= seq![title]);
    assert(seq![title].len() == 1);
    assert(spec_join(seq![title], "\n"@) == seq![title][0]);
    assert(lines.last() == detection_time(c));
    let m = spec_join(lines, "\n"@);
    assert(m == spec_join(lines.drop_last(), "\n"@) + "\n"@ + lines.last());
    assert(m == title + "\n"@ + detection_time(c));
    assert(spec_format_detection(e, include_types) == Some(m));
    let p = watched_source(e.category) + detected_suffix();
    if e.category == NotificationCategory::Ad {
        assert(title =~= seq!['a', 'd', 'の', '更', '新', 'を', '検', '知']);
    } else {
        assert(title =~= seq!['p', 'o', 'p', 'u', 'p', '_', 'n', 'o', 't', 'i', 'c', 'e', 'の', '更', '新', 'を', '検', '知']);
    }
    assert(title + "\n"@ =~= p);
    assert(m.take(p.len() as int) =~= p);
}

/// An ad detection and a notice detection never begin alike.
pub proof fn lemma_ad_and_notice_titles_differ(a: EventView, b: EventView, ta: bool, tb: bool)
    requires
        a.category == NotificationCategory::Ad,
        b.category == NotificationCategory::Notice,
        spec_format_detection(a, ta) is Some,
        spec_format_detection(b, tb) is Some,
    ensures
        spec_format_detection(a, ta)->Some_0.take(3) != spec_format_detection(b, tb)->Some_0.take(3),
{
    lemma_detection_title_names_source(a, ta);
    lemma_detection_title_names_source(b, tb);
    let ma = spec_format_detection(a, ta)->Some_0;
    let mb = spec_format_detection(b, tb)->Some_0;
    let pa = watched_source(a.category) + detected_suffix();
    let pb = watched_source(b.category) + detected_suffix();
    assert(ma.take(3)[0] == pa[0]);
    assert(mb.take(3)[0] == pb[0]);
}

pub(crate) fn push_two(v: &mut Vec<char>, n: u32)
    ensures
        final(v)@ == old(v)@ + two(n),
{
    let d = fmt_u64(n as u64);
    let p = pad_zero_exec(d.as_slice(), 2);
    append(v, p.as_slice());
}

pub(crate) fn push_year(v: &mut Vec<char>, y: i32)
    ensures
        final(v)@ == old(v)@ + year_text(y),
{
    if y >= 0 {
        let d = fmt_u64(y as u64);
        append(v, pad_zero_exec(d.as_slice(), 4).as_slice());
    } else {
        let m: u64 = (-(y as i64)) as u64;
        let d = fmt_u64(m);
        let ghost before = v@;
        append_str(v, "-");
        append(v, pad_zero_exec(d.as_slice(), 3).as_slice());
        assert(v@ =~= before + year_text(y));
    }
}

/// The message for a detected update of a schedule, an ad or a notice;
/// `invalid-event` when its timestamp cannot be read.
pub fn format_detection(event: &DetectionEvent, include_types: bool) -> (r: Result<String, NotificationError>)
    requires
        event.category == NotificationCategory::Skd || event.category == NotificationCategory::Ad
            || event.category == NotificationCategory::Notice,
    ensures
        match r {
            Ok(s) => spec_format_detection(event@, include_types) == Some(s@),
            Err(e) => spec_format_detection(event@, include_types) is None && e.spec_code() == "invalid-event"@,
        },
        event.category != NotificationCategory::Skd ==> match r {
            Ok(s) => s@.len() >= (watched_source(event.category) + detected_suffix()).len() && s@.take(
                (watched_source(event.category) + detected_suffix()).len() as int,
            ) == watched_source(event.category) + detected_suffix(),
            Err(_) => true,
        },
{
    proof {
        if event.category != NotificationCategory::Skd && spec_format_detection(event@, include_types) is Some {
            lemma_detection_title_names_source(event@, include_types);
        }
    }
    let secs = match parse_rfc3339(event.detected_at.as_str()) {
        Some((s, _)) => s,
        None => {
            return Err(NotificationError::new("invalid-event"));
        },
    };
    let c = match jst_time(secs) {
        Some(c) => c,
        None => {
            return Err(NotificationError::new("invalid-event"));
        },
    };
    let title = match event.category {
        NotificationCategory::Skd => "**スケジュール更新**",
        NotificationCategory::Ad => "adの更新を検知",
        _ => "popup_noticeの更新を検知",
    };
    let mut time = chars_of("検知時刻: ");
    push_year(&mut time, c.year);
    append_str(&mut time, "/");
    push_two(&mut time, c.month);
    append_str(&mut time, "/");
    push_two(&mut time, c.day);
    append_str(&mut time, "(");
    append_str(&mut time, weekday_japanese(c.weekday_from_sunday));
    append_str(&mut time, ") ");
    push_two(&mut time, c.hour);
    append_str(&mut time, ":");
    push_two(&mut time, c.minute);
    append_str(&mut time, ":");
    push_two(&mut time, c.second);
    let mut lines: Vec<Vec<char>> = Vec::new();
    lines.push(chars_of(title));
    lines.push(time);
    if event.category == NotificationCategory::Skd && include_types && event.types.len() > 0 {
        let mut kinds = chars_of("種類: ");
        let labels = crate::skd::format_types(event.types.as_slice());
        append(&mut kinds, chars_of(labels.as_str()).as_slice());
        lines.push(kinds);
    }
    let ghost expected = if event.category == NotificationCategory::Skd && include_types && event.types.len() > 0 {
        seq![detection_title(event.category), detection_time(c)].push("種類: "@ + spec_join(crate::skd::type_labels(event.types@), ","@))
    } else {
        seq![detection_title(event.category), detection_time(c)]
    };
    assert(views(lines@) =~= expected);
    let joined = join_str(lines.as_slice(), "\n");
    Ok(string_of(joined.as_slice()))
}


// ---------------------------------------------------------------------------
// Steps of a delivery
// ---------------------------------------------------------------------------

pub open spec fn first_delivery(r: RecordView, channel: Seq<char>) -> int {
    crate::gatya_schedule::first_index(delivery_channels(r.deliveries), channel)
}

pub open spec fn with_delivery(r: RecordView, i: int, d: DeliveryView) -> RecordView {
    RecordView { deliveries: r.deliveries.update(i, d), ..r }
}

/// Marks the pending delivery to a channel as being attempted under an id;
/// a delivery that is no longer pending is never attempted again.
pub open spec fn spec_begin_attempt(current: Option<RecordView>, channel: Seq<char>, attempt_id: Seq<char>) -> Result<RecordView, Seq<char>> {
    match current {
        None => Err("missing-event-record"@),
        Some(r) => {
            let i = first_delivery(r, channel);
            if i < 0 {
                Err("missing-delivery"@)
            } else if r.deliveries[i].part.status != DeliveryStatus::Pending {
                Err("delivery-already-updated"@)
            } else {
                let d = r.deliveries[i];
                Ok(with_delivery(r, i, DeliveryView {
                    part: PartView { status: DeliveryStatus::Attempting, attempt_id: Some(attempt_id), ..d.part },
                    ..d
                }))
            }
        },
    }
}

/// Records the message that a delivery sent, and the content it had.
pub open spec fn spec_record_sent(current: Option<RecordView>, channel: Seq<char>, message_id: Seq<char>, content: Seq<char>) -> Result<RecordView, Seq<char>> {
    match current {
        None => Err("missing-event-record"@),
        Some(r) => {
            let i = first_delivery(r, channel);
            if i < 0 {
                Err("missing-delivery"@)
            } else {
                let d = r.deliveries[i];
                Ok(with_delivery(r, i, DeliveryView {
                    part: PartView { status: DeliveryStatus::Sent, message_id: Some(message_id), content: Some(content), ..d.part },
                    ..d
                }))
            }
        },
    }
}

/// Records the content that a delivered message was edited to.
pub open spec fn spec_record_content(current: Option<RecordView>, channel: Seq<char>, content: Seq<char>) -> Result<RecordView, Seq<char>> {
    match current {
        None => Err("missing-event-record"@),
        Some(r) => {
            let i = first_delivery(r, channel);
            if i < 0 {
                Err("missing-delivery"@)
            } else {
                let d = r.deliveries[i];
                Ok(with_delivery(r, i, DeliveryView { part: PartView { content: Some(content), ..d.part }, ..d }))
            }
        },
    }
}

fn delivery_index(record: &EventRecord, channel_id: &str) -> (r: Option<usize>)
    ensures
        match r {
            Some(i) => first_delivery(record@, channel_id@) == i && i < record@.deliveries.len(),
            None => first_delivery(record@, channel_id@) == -1,
        },
{
    let ghost cs = delivery_channels(record@.deliveries);
    let c = chars_of(channel_id);
    let mut i: usize = 0;
    while i < record.deliveries.len()
        invariant
            i <= record.deliveries@.len(),
            c@ == channel_id@,
            cs == delivery_channels(delivery_views(record.deliveries@)),
            forall|j: int| 0 <= j < i ==> cs[j] != channel_id@,
        decreases record.deliveries@.len() - i,
    {
        let d = chars_of(record.deliveries[i].channel_id.as_str());
        assert(cs[i as int] == record.deliveries@[i as int].channel_id@);
        if eq(d.as_slice(), c.as_slice()) {
            proof {
                crate::gatya_schedule::lemma_first_index(cs, channel_id@, i as int);
            }
            return Some(i);
        }
        i += 1;
    }
    proof {
        crate::gatya_schedule::lemma_first_index(cs, channel_id@, i as int);
    }
    None
}

fn copy_text(s: &str) -> (r: String)
    ensures
        r@ == s@,
{
    string_of(chars_of(s).as_slice())
}

/// Marks the pending delivery to a channel as attempted.
pub fn begin_attempt(current: Option<EventRecord>, channel_id: &str, attempt_id: &str) -> (r: Result<EventRecord, StorageError>)
    ensures
        match r {
            Ok(rec) => spec_begin_attempt(record_view(current), channel_id@, attempt_id@) == Ok::<RecordView, Seq<char>>(rec@),
            Err(e) => spec_begin_attempt(record_view(current), channel_id@, attempt_id@) == Err::<RecordView, Seq<char>>(e.code@),
        },
{
    let mut record = match current {
        Some(r) => r,
        None => {
            return Err(StorageError::new("missing-event-record"));
        },
    };
    let i = match delivery_index(&record, channel_id) {
        Some(i) => i,
        None => {
            return Err(StorageError::new("missing-delivery"));
        },
    };
    if record.deliveries[i].status != DeliveryStatus::Pending {
        return Err(StorageError::new("delivery-already-updated"));
    }
    let ghost before = record@;
    let mut d = record.deliveries.remove(i);
    d.status = DeliveryStatus::Attempting;
    d.attempt_id = Some(copy_text(attempt_id));
    record.deliveries.insert(i, d);
    assert(record@.deliveries =~= before.deliveries.update(i as int, d@));
    Ok(record)
}

/// Records the message that the delivery to a channel sent.
pub fn record_sent(current: Option<EventRecord>, channel_id: &str, message_id: &str, content: &str) -> (r: Result<EventRecord, StorageError>)
    ensures
        match r {
            Ok(rec) => spec_record_sent(record_view(current), channel_id@, message_id@, content@) == Ok::<RecordView, Seq<char>>(rec@),
            Err(e) => spec_record_sent(record_view(current), channel_id@, message_id@, content@) == Err::<RecordView, Seq<char>>(e.code@),
        },
{
    let mut record = match current {
        Some(r) => r,
        None => {
            return Err(StorageError::new("missing-event-record"));
        },
    };
    let i = match delivery_index(&record, channel_id) {
        Some(i) => i,
        None => {
            return Err(StorageError::new("missing-delivery"));
        },
    };
    let ghost before = record@;
    let mut d = record.deliveries.remove(i);
    d.status = DeliveryStatus::Sent;
    d.message_id = Some(copy_text(message_id));
    d.content = Some(copy_text(content));
    record.deliveries.insert(i, d);
    assert(record@.deliveries =~= before.deliveries.update(i as int, d@));
    Ok(record)
}

/// Records the content that the message of a channel was edited to.
pub fn record_content(current: Option<EventRecord>, channel_id: &str, content: &str) -> (r: Result<EventRecord, StorageError>)
    ensures
        match r {
            Ok(rec) => spec_record_content(record_view(current), channel_id@, content@) == Ok::<RecordView, Seq<char>>(rec@),
            Err(e) => spec_record_content(record_view(current), channel_id@, content@) == Err::<RecordView, Seq<char>>(e.code@),
        },
{
    let mut record = match current {
        Some(r) => r,
        None => {
            return Err(StorageError::new("missing-event-record"));
        },
    };
    let i = match delivery_index(&record, channel_id) {
        Some(i) => i,
        None => {
            return Err(StorageError::new("missing-delivery"));
        },
    };
    let ghost before = record@;
    let mut d = record.deliveries.remove(i);
    d.content = Some(copy_text(content));
    record.deliveries.insert(i, d);
    assert(record@.deliveries =~= before.deliveries.update(i as int, d@));
    Ok(record)
}

/// An attempt, once begun, is never begun again: the delivery is no longer
/// pending, so a second attempt is refused.
pub proof fn lemma_attempt_once(r: RecordView, channel: Seq<char>, first: Seq<char>, second: Seq<char>)
    requires
        spec_begin_attempt(Some(r), channel, first) is Ok,
    ensures
        spec_begin_attempt(Some(spec_begin_attempt(Some(r), channel, first)->Ok_0), channel, second)
            == Err::<RecordView, Seq<char>>("delivery-already-updated"@),
{
    let r2 = spec_begin_attempt(Some(r), channel, first)->Ok_0;
    let i = first_delivery(r, channel);
    crate::gatya_schedule::lemma_first_index_found(delivery_channels(r.deliveries), channel);
    assert(delivery_channels(r2.deliveries) =~= delivery_channels(r.deliveries));
    assert(first_delivery(r2, channel) == i);
    assert(r2.deliveries[i].part.status == DeliveryStatus::Attempting);
}

/// Recording what a delivery sent leaves every other delivery as it was.
pub proof fn lemma_record_sent_local(r: RecordView, channel: Seq<char>, message_id: Seq<char>, content: Seq<char>, j: int)
    requires
        spec_record_sent(Some(r), channel, message_id, content) is Ok,
        0 <= j < r.deliveries.len(),
        j != first_delivery(r, channel),
    ensures
        spec_record_sent(Some(r), channel, message_id, content)->Ok_0.deliveries[j] == r.deliveries[j],
        spec_record_sent(Some(r), channel, message_id, content)->Ok_0.event == r.event,
{
    crate::gatya_schedule::lemma_first_index_found(delivery_channels(r.deliveries), channel);
}

/// What to do first for the delivery to a channel: `Ok(true)` to send,
/// `Ok(false)` when it already has a message, and reconciliation when an
/// earlier attempt did not finish.
pub open spec fn spec_send_step(d: PartView) -> Result<bool, DeliveryFailure> {
    if d.message_id is Some {
        Ok(false)
    } else if d.status == DeliveryStatus::Attempting {
        Err(DeliveryFailure::Reconciliation)
    } else {
        Ok(true)
    }
}

pub fn send_step(d: &DeliveryRecord) -> (r: Result<bool, DeliveryFailure>)
    ensures
        r == spec_send_step(d@.part),
{
    if d.message_id.is_some() {
        Ok(false)
    } else if d.status == DeliveryStatus::Attempting {
        Err(DeliveryFailure::Reconciliation)
    } else {
        Ok(true)
    }
}

/// What to do once a delivery has sent: nothing when its content is final,
/// else edit its message, which must be known.
pub open spec fn spec_edit_step(d: PartView, final_content: Seq<char>) -> Result<Option<Seq<char>>, DeliveryFailure> {
    if d.content == Some(final_content) {
        Ok(None)
    } else {
        match d.message_id {
            Some(m) => Ok(Some(m)),
            None => Err(DeliveryFailure::Reconciliation),
        }
    }
}

pub fn edit_step(d: &DeliveryRecord, final_content: &str) -> (r: Result<Option<String>, DeliveryFailure>)
    ensures
        match r {
            Ok(Some(m)) => spec_edit_step(d@.part, final_content@) == Ok::<Option<Seq<char>>, DeliveryFailure>(Some(m@)),
            Ok(None) => spec_edit_step(d@.part, final_content@) == Ok::<Option<Seq<char>>, DeliveryFailure>(None),
            Err(f) => spec_edit_step(d@.part, final_content@) == Err::<Option<Seq<char>>, DeliveryFailure>(f),
        },
{
    let same = match &d.content {
        Some(c) => {
            let cv = chars_of(c.as_str());
            let fv = chars_of(final_content);
            eq(cv.as_slice(), fv.as_slice())
        },
        None => false,
    };
    if same {
        return Ok(None);
    }
    match &d.message_id {
        Some(m) => Ok(Some(copy_text(m.as_str()))),
        None => Err(DeliveryFailure::Reconciliation),
    }
}

/// The message id of a successful send, kept only when it is a snowflake.
pub fn accepted_message_id(message_id: Option<String>) -> (r: Option<String>)
    ensures
        match r {
            Some(m) => message_id matches Some(x) && x@ == m@ && spec_valid_snowflake(m@),
            None => message_id matches Some(x) ==> !spec_valid_snowflake(x@),
        },
{
    match message_id {
        Some(m) => if valid_snowflake(m.as_str()) {
            Some(m)
        } else {
            None
        },
        None => None,
    }
}

/// The channels of a record whose subscription to its category still stands.
pub open spec fn spec_active_channels(r: RecordView, subs: Seq<Subscription>) -> Seq<Seq<char>> {
    delivery_channels(r.deliveries).filter(|c: Seq<char>| crate::settings::subscribed(subs, c, r.event.category))
}

fn is_subscribed(subs: &[Subscription], channel: &[char], category: NotificationCategory) -> (r: bool)
    ensures
        r == crate::settings::subscribed(subs@, channel@, category),
{
    let mut i: usize = 0;
    while i < subs.len()
        invariant
            i <= subs@.len(),
            forall|j: int| 0 <= j < i ==> !((#[trigger] subs@[j]).channel_id@ == channel@ && subs@[j].category == category),
        decreases subs@.len() - i,
    {
        let c = chars_of(subs[i].channel_id.as_str());
        if subs[i].category == category && eq(c.as_slice(), channel) {
            return true;
        }
        i += 1;
    }
    false
}

/// The channels to deliver to, in the record's order.
pub fn active_channels(record: &EventRecord, subscriptions: &[Subscription]) -> (r: Vec<String>)
    ensures
        crate::text::string_views(r@) == spec_active_channels(record@, subscriptions@),
{
    let ghost cs = delivery_channels(record@.deliveries);
    let ghost f = |c: Seq<char>| crate::settings::subscribed(subscriptions@, c, record@.event.category);
    let mut r: Vec<String> = Vec::new();
    let mut i: usize = 0;
    while i < record.deliveries.len()
        invariant
            i <= record.deliveries@.len(),
            cs == delivery_channels(delivery_views(record.deliveries@)),
            f == (|c: Seq<char>| crate::settings::subscribed(subscriptions@, c, record@.event.category)),
            crate::text::string_views(r@) == cs.take(i as int).filter(f),
        decreases record.deliveries@.len() - i,
    {
        let c = chars_of(record.deliveries[i].channel_id.as_str());
        assert(cs[i as int] == record.deliveries@[i as int].channel_id@);
        assert(cs.take(i + 1).drop_last() =~= cs.take(i as int));
        proof {
            reveal(Seq::filter);
        }
        if is_subscribed(subscriptions, c.as_slice(), record.event.category) {
            let ghost before = r@;
            r.push(string_of(c.as_slice()));
            assert(crate::text::string_views(r@) =~= crate::text::string_views(before).push(c@));
        }
        assert(crate::text::string_views(r@) =~= cs.take(i + 1).filter(f));
        i += 1;
    }
    assert(cs.take(i as int) =~= cs);
    r
}

/// The outcome of a delivery round: any failure first, then any delivery
/// that needs reconciliation.
pub fn delivery_result(failed: bool, reconciliation: bool) -> (r: Result<(), NotificationError>)
    ensures
        match r {
            Ok(()) => !failed && !reconciliation,
            Err(e) => (failed && e.spec_code() == "delivery-failed"@) || (!failed && reconciliation && e.spec_code()
                == "reconciliation-required"@),
        },
{
    if failed {
        Err(NotificationError::new("delivery-failed"))
    } else if reconciliation {
        Err(NotificationError::new("reconciliation-required"))
    } else {
        Ok(())
    }
}


// ---------------------------------------------------------------------------
// Detail messages that follow a delivery
// ---------------------------------------------------------------------------

/// Keeps the first detail messages computed for a record.
pub open spec fn spec_store_details(current: Option<RecordView>, contents: Seq<Seq<char>>) -> Result<RecordView, Seq<char>> {
    match current {
        None => Err("missing-event-record"@),
        Some(r) => if r.detail_contents is None {
            Ok(RecordView { detail_contents: Some(contents), ..r })
        } else {
            Ok(r)
        },
    }
}

pub fn store_details(current: Option<EventRecord>, contents: &Vec<String>) -> (r: Result<EventRecord, StorageError>)
    ensures
        match r {
            Ok(rec) => spec_store_details(record_view(current), crate::text::string_views(contents@)) == Ok::<RecordView, Seq<char>>(rec@),
            Err(e) => spec_store_details(record_view(current), crate::text::string_views(contents@)) == Err::<RecordView, Seq<char>>(e.code@),
        },
{
    let mut record = match current {
        Some(r) => r,
        None => {
            return Err(StorageError::new("missing-event-record"));
        },
    };
    if record.detail_contents.is_none() {
        let mut copy: Vec<String> = Vec::new();
        let mut i: usize = 0;
        while i < contents.len()
            invariant
                i <= contents@.len(),
                crate::text::string_views(copy@) == crate::text::string_views(contents@).take(i as int),
            decreases contents@.len() - i,
        {
            let ghost before = copy@;
            copy.push(copy_text(contents[i].as_str()));
            assert(crate::text::string_views(copy@) =~= crate::text::string_views(before).push(contents@[i as int]@));
            assert(crate::text::string_views(copy@) =~= crate::text::string_views(contents@).take(i + 1));
            i += 1;
        }
        assert(crate::text::string_views(contents@).take(i as int) =~= crate::text::string_views(contents@));
        record.detail_contents = Some(copy);
    }
    Ok(record)
}

/// Gives the delivery to a channel one pending part per detail message,
/// unless it has its parts already.
pub open spec fn spec_ensure_follow_ups(current: Option<RecordView>, channel: Seq<char>) -> Result<RecordView, Seq<char>> {
    match current {
        None => Err("missing-event-record"@),
        Some(r) => match r.detail_contents {
            None => Err("missing-details"@),
            Some(c) => {
                let i = first_delivery(r, channel);
                if i < 0 {
                    Err("missing-delivery"@)
                } else {
                    let d = r.deliveries[i];
                    if d.follow_ups is Some {
                        Ok(r)
                    } else {
                        Ok(with_delivery(r, i, DeliveryView { follow_ups: Some(Seq::new(c.len(), |k: int| pending_part())), ..d }))
                    }
                }
            },
        },
    }
}

pub fn ensure_follow_ups(current: Option<EventRecord>, channel_id: &str) -> (r: Result<EventRecord, StorageError>)
    ensures
        match r {
            Ok(rec) => spec_ensure_follow_ups(record_view(current), channel_id@) == Ok::<RecordView, Seq<char>>(rec@),
            Err(e) => spec_ensure_follow_ups(record_view(current), channel_id@) == Err::<RecordView, Seq<char>>(e.code@),
        },
{
    let mut record = match current {
        Some(r) => r,
        None => {
            return Err(StorageError::new("missing-event-record"));
        },
    };
    let length = match &record.detail_contents {
        Some(c) => c.len(),
        None => {
            return Err(StorageError::new("missing-details"));
        },
    };
    let i = match delivery_index(&record, channel_id) {
        Some(i) => i,
        None => {
            return Err(StorageError::new("missing-delivery"));
        },
    };
    if record.deliveries[i].follow_ups.is_some() {
        return Ok(record);
    }
    let mut parts: Vec<DeliveryPart> = Vec::new();
    let mut k: usize = 0;
    while k < length
        invariant
            k <= length,
            part_views(parts@) == Seq::new(k as nat, |j: int| pending_part()),
        decreases length - k,
    {
        let ghost before = parts@;
        let np = pending_part_exec();
        parts.push(np);
        assert(part_views(parts@) =~= part_views(before).push(np@));
        assert(part_views(parts@) =~= Seq::new((k + 1) as nat, |j: int| pending_part()));
        k += 1;
    }
    let ghost before = record@;
    let mut d = record.deliveries.remove(i);
    d.follow_ups = Some(parts);
    record.deliveries.insert(i, d);
    assert(record@.deliveries =~= before.deliveries.update(i as int, d@));
    Ok(record)
}

/// Changes the follow-up part `index` of the delivery to a channel.
pub open spec fn with_follow_up(r: RecordView, channel: Seq<char>, index: int, p: PartView) -> RecordView {
    let i = first_delivery(r, channel);
    let d = r.deliveries[i];
    with_delivery(r, i, DeliveryView { follow_ups: Some(d.follow_ups->Some_0.update(index, p)), ..d })
}

pub open spec fn follow_up_of(r: RecordView, channel: Seq<char>, index: int) -> Option<PartView> {
    let i = first_delivery(r, channel);
    if i < 0 {
        None
    } else {
        match r.deliveries[i].follow_ups {
            Some(ps) => if 0 <= index < ps.len() {
                Some(ps[index])
            } else {
                None
            },
            None => None,
        }
    }
}

/// Marks a pending follow-up part as attempted.
pub open spec fn spec_begin_follow_up(current: Option<RecordView>, channel: Seq<char>, index: int, attempt_id: Seq<char>) -> Result<RecordView, Seq<char>> {
    match current {
        None => Err("missing-event-record"@),
        Some(r) => if first_delivery(r, channel) < 0 {
            Err("missing-delivery"@)
        } else {
            match follow_up_of(r, channel, index) {
                None => Err("missing-follow-up"@),
                Some(p) => if p.status != DeliveryStatus::Pending {
                    Err("delivery-already-updated"@)
                } else {
                    Ok(with_follow_up(r, channel, index, PartView { status: DeliveryStatus::Attempting, attempt_id: Some(attempt_id), ..p }))
                },
            }
        },
    }
}

/// Records the message that a follow-up part sent.
pub open spec fn spec_record_follow_up_sent(
    current: Option<RecordView>,
    channel: Seq<char>,
    index: int,
    message_id: Seq<char>,
    content: Seq<char>,
) -> Result<RecordView, Seq<char>> {
    match current {
        None => Err("missing-event-record"@),
        Some(r) => if first_delivery(r, channel) < 0 {
            Err("missing-delivery"@)
        } else {
            match follow_up_of(r, channel, index) {
                None => Err("missing-follow-up"@),
                Some(p) => Ok(with_follow_up(r, channel, index, PartView {
                    status: DeliveryStatus::Sent,
                    message_id: Some(message_id),
                    content: Some(content),
                    ..p
                })),
            }
        },
    }
}

/// Applies a change to one follow-up part; `begin` refuses a part that is
/// not pending and marks it attempted, else the part is marked sent.
fn update_follow_up(
    current: Option<EventRecord>,
    channel_id: &str,
    index: usize,
    begin: bool,
    first: &str,
    second: &str,
) -> (r: Result<EventRecord, StorageError>)
    ensures
        begin ==> match r {
            Ok(rec) => spec_begin_follow_up(record_view(current), channel_id@, index as int, first@) == Ok::<RecordView, Seq<char>>(rec@),
            Err(e) => spec_begin_follow_up(record_view(current), channel_id@, index as int, first@) == Err::<RecordView, Seq<char>>(e.code@),
        },
        !begin ==> match r {
            Ok(rec) => spec_record_follow_up_sent(record_view(current), channel_id@, index as int, first@, second@)
                == Ok::<RecordView, Seq<char>>(rec@),
            Err(e) => spec_record_follow_up_sent(record_view(current), channel_id@, index as int, first@, second@)
                == Err::<RecordView, Seq<char>>(e.code@),
        },
{
    let mut record = match current {
        Some(r) => r,
        None => {
            return Err(StorageError::new("missing-event-record"));
        },
    };
    let i = match delivery_index(&record, channel_id) {
        Some(i) => i,
        None => {
            return Err(StorageError::new("missing-delivery"));
        },
    };
    let ghost before = record@;
    let present = match &record.deliveries[i].follow_ups {
        Some(parts) => index < parts.len(),
        None => false,
    };
    if !present {
        return Err(StorageError::new("missing-follow-up"));
    }
    let mut d = record.deliveries.remove(i);
    let mut parts = match d.follow_ups {
        Some(p) => p,
        None => Vec::new(),
    };
    let ghost pv = part_views(parts@);
    let mut p = parts.remove(index);
    assert(p@ == pv[index as int]);
    if begin {
        if p.status != DeliveryStatus::Pending {
            return Err(StorageError::new("delivery-already-updated"));
        }
        p.status = DeliveryStatus::Attempting;
        p.attempt_id = Some(copy_text(first));
    } else {
        p.status = DeliveryStatus::Sent;
        p.message_id = Some(copy_text(first));
        p.content = Some(copy_text(second));
    }
    parts.insert(index, p);
    assert(part_views(parts@) =~= pv.update(index as int, p@));
    d.follow_ups = Some(parts);
    record.deliveries.insert(i, d);
    assert(record@.deliveries =~= before.deliveries.update(i as int, d@));
    Ok(record)
}

/// Marks a pending follow-up part of the delivery to a channel as attempted.
pub fn begin_follow_up(current: Option<EventRecord>, channel_id: &str, index: usize, attempt_id: &str) -> (r: Result<EventRecord, StorageError>)
    ensures
        match r {
            Ok(rec) => spec_begin_follow_up(record_view(current), channel_id@, index as int, attempt_id@) == Ok::<RecordView, Seq<char>>(rec@),
            Err(e) => spec_begin_follow_up(record_view(current), channel_id@, index as int, attempt_id@) == Err::<RecordView, Seq<char>>(e.code@),
        },
{
    update_follow_up(current, channel_id, index, true, attempt_id, "")
}

/// Records the message that a follow-up part sent.
pub fn record_follow_up_sent(current: Option<EventRecord>, channel_id: &str, index: usize, message_id: &str, content: &str) -> (r: Result<EventRecord, StorageError>)
    ensures
        match r {
            Ok(rec) => spec_record_follow_up_sent(record_view(current), channel_id@, index as int, message_id@, content@)
                == Ok::<RecordView, Seq<char>>(rec@),
            Err(e) => spec_record_follow_up_sent(record_view(current), channel_id@, index as int, message_id@, content@)
                == Err::<RecordView, Seq<char>>(e.code@),
        },
{
    update_follow_up(current, channel_id, index, false, message_id, content)
}

/// What to do for a follow-up part: `Ok(true)` to send it, `Ok(false)` when
/// it was sent, reconciliation when an earlier attempt did not finish.
pub open spec fn spec_follow_up_step(p: PartView) -> Result<bool, DeliveryFailure> {
    if p.status == DeliveryStatus::Sent {
        Ok(false)
    } else if p.status == DeliveryStatus::Attempting {
        Err(DeliveryFailure::Reconciliation)
    } else {
        Ok(true)
    }
}

pub fn follow_up_step(p: &DeliveryPart) -> (r: Result<bool, DeliveryFailure>)
    ensures
        r == spec_follow_up_step(p@),
{
    if p.status == DeliveryStatus::Sent {
        Ok(false)
    } else if p.status == DeliveryStatus::Attempting {
        Err(DeliveryFailure::Reconciliation)
    } else {
        Ok(true)
    }
}

/// A follow-up part, once attempted, is never attempted again.
pub proof fn lemma_follow_up_once(r: RecordView, channel: Seq<char>, index: int, first: Seq<char>, second: Seq<char>)
    requires
        spec_begin_follow_up(Some(r), channel, index, first) is Ok,
    ensures
        spec_begin_follow_up(Some(spec_begin_follow_up(Some(r), channel, index, first)->Ok_0), channel, index, second)
            == Err::<RecordView, Seq<char>>("delivery-already-updated"@),
{
    let r2 = spec_begin_follow_up(Some(r), channel, index, first)->Ok_0;
    let i = first_delivery(r, channel);
    crate::gatya_schedule::lemma_first_index_found(delivery_channels(r.deliveries), channel);
    assert(delivery_channels(r2.deliveries) =~= delivery_channels(r.deliveries));
    assert(first_delivery(r2, channel) == i);
}

} // verus!
