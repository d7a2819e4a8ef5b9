//! Stored settings: notification subscriptions and roles of each guild, bot
//! maintainers and store versions, their checks and the changes made to them.
use vstd::prelude::*;
use vstd::string::StringSliceAdditionalSpecFns;

use crate::maint::{is_snowflake, spec_subject_id};
use crate::store_update::{spec_parse_version, valid_version, StorePlatform};
use crate::text::{
    all_digits, append, append_str, chars_of, eq, eq_str, fmt_u64, is_all_digits, is_alnum,
    parse_u64, spec_is_alnum, spec_is_digit, split_char, split_fields, string_of, views,
};

verus! {

pub const MAX_MAINTAINER_SUBJECTS: usize = 64;

pub const MAX_NOTIFICATION_ROLES: usize = 9;

pub const MAX_SKD_RELATED_URLS: usize = 9;

pub const MAX_SKD_RELATED_URL_CHARS: usize = 1_200;

#[derive(Debug, Clone, PartialEq, Eq)]
pub struct StorageError {
    pub code: String,
}

impl StorageError {
    pub fn new(code: &str) -> (r: Self)
        ensures
            r.code@ == code@,
    {
        StorageError { code: string_of(chars_of(code).as_slice()) }
    }

    pub fn code(&self) -> (r: &str)
        ensures
            r@ == self.code@,
    {
        self.code.as_str()
    }
}

#[derive(Clone, Copy, Debug, PartialEq, Eq, Hash, Structural)]
pub enum NotificationCategory {
    Skd,
    Ad,
    Notice,
    UpdateAndroid,
    UpdateIos,
}

impl NotificationCategory {
    pub fn label(self) -> (r: &'static str)
        ensures
            r@ == match self {
                NotificationCategory::Skd => "skd"@,
                NotificationCategory::Ad => "ad"@,
                NotificationCategory::Notice => "notice"@,
                NotificationCategory::UpdateAndroid => "update android"@,
                NotificationCategory::UpdateIos => "update ios"@,
            },
    {
        match self {
            NotificationCategory::Skd => "skd",
            NotificationCategory::Ad => "ad",
            NotificationCategory::Notice => "notice",
            NotificationCategory::UpdateAndroid => "update android",
            NotificationCategory::UpdateIos => "update ios",
        }
    }
}

#[derive(Clone, Debug, PartialEq, Eq)]
pub struct Subscription {
    pub guild_id: String,
    pub channel_id: String,
    pub category: NotificationCategory,
    pub role_ids: Vec<String>,
}

#[derive(Clone, Debug, PartialEq, Eq)]
pub struct NotificationRole {
    pub role_id: String,
    pub name: String,
}

#[derive(Clone, Debug, PartialEq, Eq)]
pub struct NotificationRolePanel {
    pub channel_id: String,
    pub message_id: String,
}

#[derive(Clone, Debug, PartialEq, Eq)]
pub struct NotificationRoleSettings {
    pub roles: Vec<NotificationRole>,
    pub panel: Option<NotificationRolePanel>,
}

#[derive(Clone, Debug)]
pub struct GuildSettings {
    pub schema_version: u8,
    pub guild_id: String,
    pub health_maintainer_role_id: Option<String>,
    pub subscriptions: Vec<Subscription>,
    pub notification_roles: Vec<NotificationRole>,
    pub notification_role_panel: Option<NotificationRolePanel>,
    pub skd_related_urls: Vec<String>,
}

#[derive(Clone, Debug)]
pub struct MaintainerSettings {
    pub schema_version: u8,
    pub subject_ids: Vec<String>,
}

#[derive(Clone, Debug)]
pub struct StoreVersionState {
    pub schema_version: u8,
    pub google_play: Option<String>,
    pub app_store: Option<String>,
}

// ---------------------------------------------------------------------------
// Ids and paths
// ---------------------------------------------------------------------------

/// A channel, role, guild or message id: one or more ASCII digits.
pub open spec fn spec_valid_snowflake(v: Seq<char>) -> bool {
    v.len() > 0 && all_digits(v)
}

pub fn valid_snowflake(value: &str) -> (r: bool)
    ensures
        r == spec_valid_snowflake(value@),
{
    let v = chars_of(value);
    v.len() > 0 && is_all_digits(v.as_slice())
}

/// A maintainer: a user or role id of 17 to 20 digits naming a positive number.
pub fn valid_maintainer_subject_id(value: &str) -> (r: bool)
    ensures
        r == is_snowflake(value@),
{
    let v = chars_of(value);
    if v.len() < 17 || v.len() > 20 || !is_all_digits(v.as_slice()) {
        return false;
    }
    match parse_u64(v.as_slice()) {
        Some(n) => n > 0,
        None => false,
    }
}

pub open spec fn is_name_char(c: char) -> bool {
    spec_is_alnum(c) || c == '_' || c == '.' || c == '-'
}

pub open spec fn all_name_chars(v: Seq<char>) -> bool {
    forall|i: int| 0 <= i < v.len() ==> is_name_char(#[trigger] v[i])
}

fn all_name_chars_exec(v: &[char]) -> (r: bool)
    ensures
        r == all_name_chars(v@),
{
    let mut i: usize = 0;
    while i < v.len()
        invariant
            i <= v@.len(),
            forall|j: int| 0 <= j < i ==> is_name_char(#[trigger] v@[j]),
        decreases v@.len() - i,
    {
        let c = v[i];
        if !(is_alnum(c) || c == '_' || c == '.' || c == '-') {
            assert(!is_name_char(v@[i as int]));
            return false;
        }
        i += 1;
    }
    true
}

/// An owner or repository name of GitHub.
pub fn valid_repository_name(value: &str) -> (r: bool)
    ensures
        r == (value@.len() > 0 && all_name_chars(value@)),
{
    let v = chars_of(value);
    v.len() > 0 && all_name_chars_exec(v.as_slice())
}

/// A path of the settings repository: non-empty segments of name
/// characters, none of them `.` or `..`.
pub open spec fn spec_valid_path(path: Seq<char>) -> bool {
    let parts = split_fields(path, '/');
    path.len() > 0 && forall|i: int| 0 <= i < parts.len() ==> {
        let p = #[trigger] parts[i];
        p.len() > 0 && p != seq!['.'] && p != seq!['.', '.'] && all_name_chars(p)
    }
}

pub fn validate_path(path: &str) -> (r: Result<(), StorageError>)
    ensures
        r is Ok <==> spec_valid_path(path@),
        r matches Err(e) ==> e.code@ == "invalid-path"@,
{
    let v = chars_of(path);
    if v.len() == 0 {
        return Err(StorageError::new("invalid-path"));
    }
    let parts = split_char(v.as_slice(), '/');
    let ghost f = split_fields(path@, '/');
    let mut i: usize = 0;
    while i < parts.len()
        invariant
            i <= parts@.len(),
            views(parts@) == f,
            f == split_fields(path@, '/'),
            forall|j: int| 0 <= j < i ==> {
                let p = #[trigger] f[j];
                p.len() > 0 && p != seq!['.'] && p != seq!['.', '.'] && all_name_chars(p)
            },
        decreases parts@.len() - i,
    {
        let p = &parts[i];
        assert(p@ == f[i as int]);
        let dot = p.len() == 1 && p[0] == '.';
        let dots = p.len() == 2 && p[0] == '.' && p[1] == '.';
        assert(dot <==> p@ == seq!['.']) by {
            if p@ == seq!['.'] {
                assert(p@[0] == '.');
            }
            if dot {
                assert(p@ =~= seq!['.']);
            }
        }
        assert(dots <==> p@ == seq!['.', '.']) by {
            if p@ == seq!['.', '.'] {
                assert(p@[0] == '.' && p@[1] == '.');
            }
            if dots {
                assert(p@ =~= seq!['.', '.']);
            }
        }
        if p.len() == 0 || dot || dots || !all_name_chars_exec(p.as_slice()) {
            assert(!({
                let q = f[i as int];
                q.len() > 0 && q != seq!['.'] && q != seq!['.', '.'] && all_name_chars(q)
            }));
            return Err(StorageError::new("invalid-path"));
        }
        i += 1;
    }
    Ok(())
}

/// Where the settings of a guild are stored.
pub fn guild_path(guild_id: &str) -> (r: Result<String, StorageError>)
    ensures
        match r {
            Ok(p) => spec_valid_snowflake(guild_id@) && p@ == "config/guilds/"@ + guild_id@ + ".json"@,
            Err(e) => !spec_valid_snowflake(guild_id@) && e.code@ == "invalid-guild-id"@,
        },
{
    if !valid_snowflake(guild_id) {
        return Err(StorageError::new("invalid-guild-id"));
    }
    let mut v = chars_of("config/guilds/");
    append_str(&mut v, guild_id);
    append_str(&mut v, ".json");
    Ok(string_of(v.as_slice()))
}

// ---------------------------------------------------------------------------
// Hexadecimal and digests
// ---------------------------------------------------------------------------

pub open spec fn hex_digit(n: u8) -> char {
    if n < 10 {
        ((n as u32) + ('0' as u32)) as char
    } else {
        ((n as u32) - 10 + ('a' as u32)) as char
    }
}

/// Two lower-case hexadecimal digits per byte.
pub open spec fn spec_hex(bytes: Seq<u8>) -> Seq<char>
    decreases bytes.len(),
{
    if bytes.len() == 0 {
        Seq::empty()
    } else {
        spec_hex(bytes.drop_last()) + seq![hex_digit(bytes.last() / 16), hex_digit(bytes.last() % 16)]
    }
}

/// A hexadecimal digit is an ASCII character.
pub proof fn lemma_hex_digit_ascii(n: u8)
    requires
        n < 16,
    ensures
        (hex_digit(n) as u32) < 128,
{
}

pub proof fn lemma_hex_len(bytes: Seq<u8>)
    ensures
        spec_hex(bytes).len() == 2 * bytes.len(),
    decreases bytes.len(),
{
    if bytes.len() > 0 {
        lemma_hex_len(bytes.drop_last());
    }
}

fn hex_char(n: u8) -> (r: char)
    requires
        n < 16,
    ensures
        r == hex_digit(n),
{
    let code: u32 = if n < 10 {
        (n as u32) + 48
    } else {
        (n as u32) - 10 + 97
    };
    match crate::text::char_from_u32(code) {
        Some(c) => c,
        None => ' ',
    }
}

pub fn hex_encode(bytes: &[u8]) -> (r: String)
    ensures
        r@ == spec_hex(bytes@),
{
    let mut v: Vec<char> = Vec::new();
    let mut i: usize = 0;
    while i < bytes.len()
        invariant
            i <= bytes@.len(),
            v@ == spec_hex(bytes@.take(i as int)),
        decreases bytes@.len() - i,
    {
        let b = bytes[i];
        assert(bytes@.take(i + 1).drop_last() =~= bytes@.take(i as int));
        v.push(hex_char(b / 16));
        v.push(hex_char(b % 16));
        assert(v@ =~= spec_hex(bytes@.take(i + 1)));
        i += 1;
    }
    assert(bytes@.take(i as int) =~= bytes@);
    string_of(v.as_slice())
}

/// The SHA-256 digest of some bytes.
pub uninterp spec fn sha256_of(data: Seq<u8>) -> Seq<u8>;

/// `sha2::Sha256::digest`: 32 bytes.
#[verifier::external_body]
pub fn sha256(data: &[u8]) -> (r: Vec<u8>)
    ensures
        r@ == sha256_of(data@),
        r@.len() == 32,
{
    <sha2::Sha256 as sha2::Digest>::digest(data).to_vec()
}

pub open spec fn is_event_id_char(c: char) -> bool {
    spec_is_alnum(c) || c == ':' || c == '_' || c == '-'
}

/// An event id: 1 to 160 bytes of ASCII letters, digits, `:`, `_` and `-`.
pub open spec fn spec_valid_event_id(v: Seq<char>) -> bool {
    v.len() > 0 && crate::text::byte_len(v) <= 160 && forall|i: int| 0 <= i < v.len() ==> is_event_id_char(#[trigger] v[i])
}

pub fn valid_event_id(value: &str) -> (r: bool)
    ensures
        r == spec_valid_event_id(value@),
{
    let v = chars_of(value);
    if v.len() == 0 || v.len() > 160 {
        proof {
            crate::text::lemma_byte_len_ge(v@);
        }
        return false;
    }
    if crate::text::byte_length(v.as_slice()) > 160 {
        return false;
    }
    let mut i: usize = 0;
    while i < v.len()
        invariant
            i <= v@.len(),
            v@ == value@,
            forall|j: int| 0 <= j < i ==> is_event_id_char(#[trigger] v@[j]),
        decreases v@.len() - i,
    {
        let c = v[i];
        if !(is_alnum(c) || c == ':' || c == '_' || c == '-') {
            assert(!is_event_id_char(v@[i as int]));
            return false;
        }
        i += 1;
    }
    true
}

/// Where the record of a notification event is stored: named by the digest
/// of its id.
pub fn notification_path(event_id: &str) -> (r: Result<String, StorageError>)
    ensures
        match r {
            Ok(p) => spec_valid_event_id(event_id@) && p@ == "notifications/events/"@ + spec_hex(
                sha256_of(event_id.spec_bytes()),
            ) + ".json"@,
            Err(e) => !spec_valid_event_id(event_id@) && e.code@ == "invalid-event-id"@,
        },
{
    if !valid_event_id(event_id) {
        return Err(StorageError::new("invalid-event-id"));
    }
    let digest = sha256(event_id.as_bytes());
    let hex = hex_encode(digest.as_slice());
    let mut v = chars_of("notifications/events/");
    append_str(&mut v, hex.as_str());
    append_str(&mut v, ".json");
    Ok(string_of(v.as_slice()))
}

/// Bytes that stay as they are in a path segment.
pub open spec fn is_unreserved(b: u8) -> bool {
    (48 <= b <= 57) || (65 <= b <= 90) || (97 <= b <= 122) || b == 45 || b == 46 || b == 95
        || b == 126
}

pub open spec fn upper_hex_digit(n: u8) -> char {
    if n < 10 {
        ((n as u32) + ('0' as u32)) as char
    } else {
        ((n as u32) - 10 + ('A' as u32)) as char
    }
}

/// Percent-encoding of the UTF-8 bytes of a path segment.
pub open spec fn spec_encode_segment(bytes: Seq<u8>) -> Seq<char>
    decreases bytes.len(),
{
    if bytes.len() == 0 {
        Seq::empty()
    } else {
        let b = bytes.last();
        spec_encode_segment(bytes.drop_last()) + if is_unreserved(b) {
            seq![(b as u32) as char]
        } else {
            seq!['%', upper_hex_digit(b / 16), upper_hex_digit(b % 16)]
        }
    }
}

fn upper_hex_char(n: u8) -> (r: char)
    requires
        n < 16,
    ensures
        r == upper_hex_digit(n),
{
    let code: u32 = if n < 10 {
        (n as u32) + 48
    } else {
        (n as u32) - 10 + 65
    };
    match crate::text::char_from_u32(code) {
        Some(c) => c,
        None => ' ',
    }
}

pub fn encode_path_segment(value: &str) -> (r: String)
    ensures
        r@ == spec_encode_segment(value.spec_bytes()),
{
    let bytes = value.as_bytes();
    let mut v: Vec<char> = Vec::new();
    let mut i: usize = 0;
    while i < bytes.len()
        invariant
            i <= bytes@.len(),
            bytes@ == value.spec_bytes(),
            v@ == spec_encode_segment(bytes@.take(i as int)),
        decreases bytes@.len() - i,
    {
        let b = bytes[i];
        assert(bytes@.take(i + 1).drop_last() =~= bytes@.take(i as int));
        if (48 <= b && b <= 57) || (65 <= b && b <= 90) || (97 <= b && b <= 122) || b == 45 || b == 46
            || b == 95 || b == 126 {
            match crate::text::char_from_u32(b as u32) {
                Some(c) => v.push(c),
                None => {},
            }
        } else {
            v.push('%');
            v.push(upper_hex_char(b / 16));
            v.push(upper_hex_char(b % 16));
        }
        assert(v@ =~= spec_encode_segment(bytes@.take(i + 1)));
        i += 1;
    }
    assert(bytes@.take(i as int) =~= bytes@);
    string_of(v.as_slice())
}

// ---------------------------------------------------------------------------
// Web addresses
// ---------------------------------------------------------------------------

/// The parts of a parsed web address that the settings look at.
#[derive(Clone, Debug)]
pub struct ParsedUrl {
    pub scheme: String,
    pub host: Option<String>,
    pub username: String,
    pub has_password: bool,
    pub serialized: String,
}

pub struct ParsedUrlView {
    pub scheme: Seq<char>,
    pub host: Option<Seq<char>>,
    pub username: Seq<char>,
    pub has_password: bool,
    pub serialized: Seq<char>,
}

impl View for ParsedUrl {
    type V = ParsedUrlView;

    open spec fn view(&self) -> ParsedUrlView {
        ParsedUrlView {
            scheme: self.scheme@,
            host: match self.host {
                Some(h) => Some(h@),
                None => None,
            },
            username: self.username@,
            has_password: self.has_password,
            serialized: self.serialized@,
        }
    }
}

/// What the `url` crate reads in a text: its scheme, host, user name,
/// whether it has a password, and its serialisation.
pub uninterp spec fn url_parts(value: Seq<char>) -> Option<ParsedUrlView>;

/// `url::Url::parse`, read back through `scheme`, `host_str`, `username`,
/// `password` and `as_str`.
#[verifier::external_body]
fn parse_url(value: &str) -> (r: Option<ParsedUrl>)
    ensures
        match r {
            Some(p) => url_parts(value@) == Some(p@),
            None => url_parts(value@) is None,
        },
{
    match url::Url::parse(value) {
        Ok(u) => Some(ParsedUrl {
            scheme: u.scheme().to_string(),
            host: match u.host_str() {
                Some(h) => Some(h.to_string()),
                None => None,
            },
            username: u.username().to_string(),
            has_password: u.password().is_some(),
            serialized: u.as_str().to_string(),
        }),
        Err(_) => None,
    }
}

/// The canonical text of an `http` or `https` address with a host and no
/// user or password.
pub open spec fn spec_normalize_web_url(value: Seq<char>) -> Option<Seq<char>> {
    match url_parts(value) {
        Some(p) => if (p.scheme == "http"@ || p.scheme == "https"@) && p.host is Some
            && p.username.len() == 0 && !p.has_password {
            Some(p.serialized)
        } else {
            None
        },
        None => None,
    }
}

pub fn normalize_web_url(value: &str) -> (r: Option<String>)
    ensures
        match r {
            Some(u) => spec_normalize_web_url(value@) == Some(u@),
            None => spec_normalize_web_url(value@) is None,
        },
{
    let p = match parse_url(value) {
        Some(p) => p,
        None => {
            return None;
        },
    };
    let scheme = chars_of(p.scheme.as_str());
    let user = chars_of(p.username.as_str());
    if (eq_str(scheme.as_slice(), "http") || eq_str(scheme.as_slice(), "https")) && p.host.is_some()
        && user.len() == 0 && !p.has_password {
        Some(p.serialized)
    } else {
        None
    }
}

// ---------------------------------------------------------------------------
// Checks of stored settings
// ---------------------------------------------------------------------------

pub open spec fn all_snowflakes(v: Seq<String>) -> bool {
    forall|i: int| 0 <= i < v.len() ==> spec_valid_snowflake(#[trigger] v[i]@)
}

fn all_snowflakes_exec(v: &Vec<String>) -> (r: bool)
    ensures
        r == all_snowflakes(v@),
{
    let mut i: usize = 0;
    while i < v.len()
        invariant
            i <= v@.len(),
            forall|j: int| 0 <= j < i ==> spec_valid_snowflake(#[trigger] v@[j]@),
        decreases v@.len() - i,
    {
        if !valid_snowflake(v[i].as_str()) {
            return false;
        }
        i += 1;
    }
    true
}

pub open spec fn spec_valid_subscription(s: Subscription) -> bool {
    spec_valid_snowflake(s.guild_id@) && spec_valid_snowflake(s.channel_id@) && all_snowflakes(s.role_ids@)
}

pub fn validate_subscription(subscription: &Subscription) -> (r: Result<(), StorageError>)
    ensures
        r is Ok <==> spec_valid_subscription(*subscription),
        r matches Err(e) ==> e.code@ == "invalid-subscription"@,
{
    if !valid_snowflake(subscription.guild_id.as_str()) || !valid_snowflake(subscription.channel_id.as_str())
        || !all_snowflakes_exec(&subscription.role_ids) {
        return Err(StorageError::new("invalid-subscription"));
    }
    Ok(())
}

/// `char::is_control`: the general category Cc.
pub open spec fn is_control(c: char) -> bool {
    c <= '\u{1f}' || ('\u{7f}' <= c && c <= '\u{9f}')
}

pub open spec fn spec_valid_role(role: NotificationRole) -> bool {
    &&& spec_valid_snowflake(role.role_id@)
    &&& role.name@.len() > 0
    &&& role.name@.len() <= 100
    &&& forall|i: int| 0 <= i < role.name@.len() ==> !is_control(#[trigger] role.name@[i])
}

pub fn validate_notification_role(role: &NotificationRole) -> (r: Result<(), StorageError>)
    ensures
        r is Ok <==> spec_valid_role(*role),
        r matches Err(e) ==> e.code@ == "invalid-notification-role"@,
{
    let name = chars_of(role.name.as_str());
    if !valid_snowflake(role.role_id.as_str()) || name.len() == 0 || name.len() > 100 {
        return Err(StorageError::new("invalid-notification-role"));
    }
    let mut i: usize = 0;
    while i < name.len()
        invariant
            i <= name@.len(),
            name@ == role.name@,
            forall|j: int| 0 <= j < i ==> !is_control(#[trigger] name@[j]),
        decreases name@.len() - i,
    {
        let c = name[i];
        if c <= '\u{1f}' || ('\u{7f}' <= c && c <= '\u{9f}') {
            assert(is_control(role.name@[i as int]));
            return Err(StorageError::new("invalid-notification-role"));
        }
        i += 1;
    }
    Ok(())
}

pub open spec fn spec_valid_panel(panel: NotificationRolePanel) -> bool {
    spec_valid_snowflake(panel.channel_id@) && spec_valid_snowflake(panel.message_id@)
}

pub fn validate_notification_role_panel(panel: &NotificationRolePanel) -> (r: Result<(), StorageError>)
    ensures
        r is Ok <==> spec_valid_panel(*panel),
        r matches Err(e) ==> e.code@ == "invalid-notification-role-panel"@,
{
    if !valid_snowflake(panel.channel_id.as_str()) || !valid_snowflake(panel.message_id.as_str()) {
        return Err(StorageError::new("invalid-notification-role-panel"));
    }
    Ok(())
}

/// No two texts of a list are the same.
pub open spec fn distinct_texts(v: Seq<Seq<char>>) -> bool {
    forall|i: int, j: int| 0 <= i < j < v.len() ==> v[i] != v[j]
}

pub open spec fn texts(v: Seq<String>) -> Seq<Seq<char>> {
    v.map_values(|s: String| s@)
}

/// Whether a list of texts has no repeated text.
pub fn distinct_strings(v: &Vec<String>) -> (r: bool)
    ensures
        r == distinct_texts(texts(v@)),
{
    let mut i: usize = 0;
    while i < v.len()
        invariant
            i <= v@.len(),
            forall|a: int, b: int| 0 <= a < b < v@.len() && a < i ==> v@[a]@ != v@[b]@,
        decreases v@.len() - i,
    {
        let vi = chars_of(v[i].as_str());
        let mut j: usize = i + 1;
        while j < v.len()
            invariant
                i < j <= v@.len(),
                vi@ == v@[i as int]@,
                forall|a: int, b: int| 0 <= a < b < v@.len() && a < i ==> v@[a]@ != v@[b]@,
                forall|b: int| i < b < j ==> v@[i as int]@ != v@[b]@,
            decreases v@.len() - j,
        {
            let vj = chars_of(v[j].as_str());
            if eq(vi.as_slice(), vj.as_slice()) {
                assert(texts(v@)[i as int] == texts(v@)[j as int]);
                return false;
            }
            j += 1;
        }
        i += 1;
    }
    true
}

pub open spec fn store_versions_valid(v: StoreVersionState) -> bool {
    &&& v.schema_version == 1
    &&& (v.google_play matches Some(x) ==> spec_parse_version(x@) is Some)
    &&& (v.app_store matches Some(x) ==> spec_parse_version(x@) is Some)
}

pub fn validate_store_versions(versions: &StoreVersionState) -> (r: Result<(), StorageError>)
    ensures
        r is Ok <==> store_versions_valid(*versions),
        r matches Err(e) ==> e.code@ == "invalid-store-versions"@,
{
    let google_ok = match &versions.google_play {
        Some(x) => valid_version(x.as_str()),
        None => true,
    };
    let apple_ok = match &versions.app_store {
        Some(x) => valid_version(x.as_str()),
        None => true,
    };
    if versions.schema_version != 1 || !google_ok || !apple_ok {
        return Err(StorageError::new("invalid-store-versions"));
    }
    Ok(())
}

pub open spec fn spec_maintainers_check(m: MaintainerSettings) -> Result<(), Seq<char>> {
    if m.schema_version != 1 || m.subject_ids@.len() > MAX_MAINTAINER_SUBJECTS || !(forall|i: int|
        0 <= i < m.subject_ids@.len() ==> is_snowflake(#[trigger] m.subject_ids@[i]@)) {
        Err("invalid-maintainer-settings"@)
    } else if !distinct_texts(texts(m.subject_ids@)) {
        Err("duplicate-maintainer-subject"@)
    } else {
        Ok(())
    }
}

pub fn validate_maintainers(settings: &MaintainerSettings) -> (r: Result<(), StorageError>)
    ensures
        match r {
            Ok(()) => spec_maintainers_check(*settings) is Ok,
            Err(e) => spec_maintainers_check(*settings) == Err::<(), Seq<char>>(e.code@),
        },
{
    if settings.schema_version != 1 || settings.subject_ids.len() > MAX_MAINTAINER_SUBJECTS {
        return Err(StorageError::new("invalid-maintainer-settings"));
    }
    let mut i: usize = 0;
    while i < settings.subject_ids.len()
        invariant
            i <= settings.subject_ids@.len(),
            settings.schema_version == 1,
            settings.subject_ids@.len() <= MAX_MAINTAINER_SUBJECTS,
            forall|j: int| 0 <= j < i ==> is_snowflake(#[trigger] settings.subject_ids@[j]@),
        decreases settings.subject_ids@.len() - i,
    {
        if !valid_maintainer_subject_id(settings.subject_ids[i].as_str()) {
            return Err(StorageError::new("invalid-maintainer-settings"));
        }
        i += 1;
    }
    if !distinct_strings(&settings.subject_ids) {
        return Err(StorageError::new("duplicate-maintainer-subject"));
    }
    Ok(())
}

// ---------------------------------------------------------------------------
// Guild settings
// ---------------------------------------------------------------------------

/// The settings of a guild that has none stored yet.
pub fn new_guild_settings(guild_id: &str) -> (r: GuildSettings)
    ensures
        r.schema_version == 1,
        r.guild_id@ == guild_id@,
        r.health_maintainer_role_id is None,
        r.subscriptions@.len() == 0,
        r.notification_roles@.len() == 0,
        r.notification_role_panel is None,
        r.skd_related_urls@.len() == 0,
{
    GuildSettings {
        schema_version: 1,
        guild_id: string_of(chars_of(guild_id).as_slice()),
        health_maintainer_role_id: None,
        subscriptions: Vec::new(),
        notification_roles: Vec::new(),
        notification_role_panel: None,
        skd_related_urls: Vec::new(),
    }
}

/// Total characters of the related sites.
pub open spec fn url_chars(urls: Seq<String>) -> int
    decreases urls.len(),
{
    if urls.len() == 0 {
        0
    } else {
        url_chars(urls.drop_last()) + urls.last()@.len()
    }
}

pub open spec fn role_ids_of(roles: Seq<NotificationRole>) -> Seq<Seq<char>> {
    roles.map_values(|r: NotificationRole| r.role_id@)
}

/// The checks of a guild's settings that do not compare entries with each other.
pub open spec fn settings_shape_ok(s: GuildSettings) -> bool {
    &&& s.schema_version == 1
    &&& spec_valid_snowflake(s.guild_id@)
    &&& (s.health_maintainer_role_id matches Some(r) ==> spec_valid_snowflake(r@))
    &&& forall|i: int| 0 <= i < s.subscriptions@.len() ==> (#[trigger] s.subscriptions@[i]).guild_id@ == s.guild_id@
    &&& s.notification_roles@.len() <= MAX_NOTIFICATION_ROLES
    &&& forall|i: int| 0 <= i < s.notification_roles@.len() ==> spec_valid_role(#[trigger] s.notification_roles@[i])
    &&& (s.notification_role_panel matches Some(p) ==> spec_valid_panel(p))
    &&& s.skd_related_urls@.len() <= MAX_SKD_RELATED_URLS
    &&& forall|i: int| 0 <= i < s.skd_related_urls@.len() ==> spec_normalize_web_url(#[trigger] s.skd_related_urls@[i]@) == Some(s.skd_related_urls@[i]@)
    &&& url_chars(s.skd_related_urls@) <= MAX_SKD_RELATED_URL_CHARS
}

/// What is wrong with the subscription at position `k`, given those before it.
pub open spec fn subscription_error(subs: Seq<Subscription>, roles: Seq<Seq<char>>, k: int) -> Option<Seq<char>> {
    let s = subs[k];
    if !spec_valid_subscription(s) {
        Some("invalid-subscription"@)
    } else if s.role_ids@.len() > MAX_NOTIFICATION_ROLES || !(forall|i: int| 0 <= i < s.role_ids@.len() ==> roles.contains(#[trigger] s.role_ids@[i]@))
        || !distinct_texts(texts(s.role_ids@)) {
        Some("invalid-subscription-role"@)
    } else if exists|j: int| 0 <= j < k && (#[trigger] subs[j]).channel_id@ == s.channel_id@ && subs[j].category == s.category {
        Some("duplicate-subscription"@)
    } else {
        None
    }
}

/// The first error among the subscriptions from position `k` on.
pub open spec fn subscriptions_check(subs: Seq<Subscription>, roles: Seq<Seq<char>>, k: int) -> Result<(), Seq<char>>
    decreases subs.len() - k,
{
    if k >= subs.len() || k < 0 {
        Ok(())
    } else {
        match subscription_error(subs, roles, k) {
            Some(e) => Err(e),
            None => subscriptions_check(subs, roles, k + 1),
        }
    }
}

/// The verdict on a guild's stored settings.
pub open spec fn spec_settings_check(s: GuildSettings) -> Result<(), Seq<char>> {
    if !settings_shape_ok(s) {
        Err("invalid-guild-settings"@)
    } else if !distinct_texts(role_ids_of(s.notification_roles@)) {
        Err("duplicate-notification-role"@)
    } else if !distinct_texts(texts(s.skd_related_urls@)) {
        Err("duplicate-related-url"@)
    } else {
        subscriptions_check(s.subscriptions@, role_ids_of(s.notification_roles@), 0)
    }
}

fn shape_ok(s: &GuildSettings) -> (r: bool)
    ensures
        r == settings_shape_ok(*s),
{
    if s.schema_version != 1 || !valid_snowflake(s.guild_id.as_str()) {
        return false;
    }
    match &s.health_maintainer_role_id {
        Some(r) => {
            if !valid_snowflake(r.as_str()) {
                return false;
            }
        },
        None => {},
    }
    let g = chars_of(s.guild_id.as_str());
    let mut i: usize = 0;
    while i < s.subscriptions.len()
        invariant
            i <= s.subscriptions@.len(),
            g@ == s.guild_id@,
            forall|j: int| 0 <= j < i ==> (#[trigger] s.subscriptions@[j]).guild_id@ == s.guild_id@,
        decreases s.subscriptions@.len() - i,
    {
        let sg = chars_of(s.subscriptions[i].guild_id.as_str());
        if !eq(sg.as_slice(), g.as_slice()) {
            return false;
        }
        i += 1;
    }
    if s.notification_roles.len() > MAX_NOTIFICATION_ROLES {
        return false;
    }
    let mut i: usize = 0;
    while i < s.notification_roles.len()
        invariant
            i <= s.notification_roles@.len(),
            forall|j: int| 0 <= j < i ==> spec_valid_role(#[trigger] s.notification_roles@[j]),
        decreases s.notification_roles@.len() - i,
    {
        if validate_notification_role(&s.notification_roles[i]).is_err() {
            return false;
        }
        i += 1;
    }
    match &s.notification_role_panel {
        Some(p) => {
            if validate_notification_role_panel(p).is_err() {
                return false;
            }
        },
        None => {},
    }
    if s.skd_related_urls.len() > MAX_SKD_RELATED_URLS {
        return false;
    }
    let mut total: usize = 0;
    let mut i: usize = 0;
    while i < s.skd_related_urls.len()
        invariant
            i <= s.skd_related_urls@.len(),
            s.skd_related_urls@.len() <= MAX_SKD_RELATED_URLS,
            total == url_chars(s.skd_related_urls@.take(i as int)),
            total <= MAX_SKD_RELATED_URL_CHARS,
            forall|j: int| 0 <= j < i ==> spec_normalize_web_url(#[trigger] s.skd_related_urls@[j]@) == Some(s.skd_related_urls@[j]@),
        decreases s.skd_related_urls@.len() - i,
    {
        let url = &s.skd_related_urls[i];
        let uv = chars_of(url.as_str());
        match normalize_web_url(url.as_str()) {
            Some(n) => {
                let nv = chars_of(n.as_str());
                if !eq(nv.as_slice(), uv.as_slice()) {
                    return false;
                }
            },
            None => {
                return false;
            },
        }
        assert(s.skd_related_urls@.take(i + 1).drop_last() =~= s.skd_related_urls@.take(i as int));
        if uv.len() > MAX_SKD_RELATED_URL_CHARS - total {
            proof {
                lemma_url_chars_prefix(s.skd_related_urls@, i + 1);
            }
            return false;
        }
        total = total + uv.len();
        i += 1;
    }
    assert(s.skd_related_urls@.take(i as int) =~= s.skd_related_urls@);
    true
}

proof fn lemma_url_chars_prefix(urls: Seq<String>, k: int)
    requires
        0 <= k <= urls.len(),
    ensures
        url_chars(urls.take(k)) <= url_chars(urls),
    decreases urls.len() - k,
{
    if k < urls.len() {
        lemma_url_chars_prefix(urls, k + 1);
        assert(urls.take(k + 1).drop_last() =~= urls.take(k));
    } else {
        assert(urls.take(k) =~= urls);
    }
}

fn role_ids(roles: &Vec<NotificationRole>) -> (r: Vec<String>)
    ensures
        texts(r@) == role_ids_of(roles@),
{
    let mut r: Vec<String> = Vec::new();
    let mut i: usize = 0;
    while i < roles.len()
        invariant
            i <= roles@.len(),
            texts(r@) == role_ids_of(roles@).take(i as int),
        decreases roles@.len() - i,
    {
        let id = string_of(chars_of(roles[i].role_id.as_str()).as_slice());
        let ghost before = r@;
        r.push(id);
        assert(texts(r@) =~= texts(before).push(roles@[i as int].role_id@));
        assert(texts(r@) =~= role_ids_of(roles@).take(i + 1));
        i += 1;
    }
    assert(role_ids_of(roles@).take(i as int) =~= role_ids_of(roles@));
    r
}

fn contains_text(list: &Vec<String>, item: &str) -> (r: bool)
    ensures
        r == texts(list@).contains(item@),
{
    let v = chars_of(item);
    let mut i: usize = 0;
    while i < list.len()
        invariant
            i <= list@.len(),
            v@ == item@,
            forall|j: int| 0 <= j < i ==> list@[j]@ != item@,
        decreases list@.len() - i,
    {
        let w = chars_of(list[i].as_str());
        if eq(w.as_slice(), v.as_slice()) {
            assert(texts(list@)[i as int] == item@);
            return true;
        }
        i += 1;
    }
    assert forall|j: int| 0 <= j < texts(list@).len() implies texts(list@)[j] != item@ by {
        assert(texts(list@)[j] == list@[j]@);
    }
    false
}

#[verifier::loop_isolation(false)]
fn subscription_error_exec(subs: &Vec<Subscription>, roles: &Vec<String>, k: usize) -> (r: Option<&'static str>)
    requires
        k < subs@.len(),
    ensures
        match r {
            Some(e) => subscription_error(subs@, texts(roles@), k as int) == Some(e@),
            None => subscription_error(subs@, texts(roles@), k as int) is None,
        },
{
    let s = &subs[k];
    if validate_subscription(s).is_err() {
        return Some("invalid-subscription");
    }
    if s.role_ids.len() > MAX_NOTIFICATION_ROLES {
        return Some("invalid-subscription-role");
    }
    let mut i: usize = 0;
    while i < s.role_ids.len()
        invariant
            i <= s.role_ids@.len(),
            forall|j: int| 0 <= j < i ==> texts(roles@).contains(#[trigger] s.role_ids@[j]@),
        decreases s.role_ids@.len() - i,
    {
        if !contains_text(roles, s.role_ids[i].as_str()) {
            return Some("invalid-subscription-role");
        }
        i += 1;
    }
    if !distinct_strings(&s.role_ids) {
        return Some("invalid-subscription-role");
    }
    let c = chars_of(s.channel_id.as_str());
    let mut j: usize = 0;
    while j < k
        invariant
            j <= k < subs@.len(),
            c@ == subs@[k as int].channel_id@,
            forall|x: int| 0 <= x < j ==> !((#[trigger] subs@[x]).channel_id@ == subs@[k as int].channel_id@ && subs@[x].category == subs@[k as int].category),
        decreases k - j,
    {
        let other = chars_of(subs[j].channel_id.as_str());
        if eq(other.as_slice(), c.as_slice()) && subs[j].category == s.category {
            return Some("duplicate-subscription");
        }
        j += 1;
    }
    None
}

/// Checks a guild's settings; the first failing check names the error.
#[verifier::loop_isolation(false)]
pub fn validate_settings(settings: &GuildSettings) -> (r: Result<(), StorageError>)
    ensures
        match r {
            Ok(()) => spec_settings_check(*settings) is Ok,
            Err(e) => spec_settings_check(*settings) == Err::<(), Seq<char>>(e.code@),
        },
{
    if !shape_ok(settings) {
        return Err(StorageError::new("invalid-guild-settings"));
    }
    let ids = role_ids(&settings.notification_roles);
    if !distinct_strings(&ids) {
        return Err(StorageError::new("duplicate-notification-role"));
    }
    if !distinct_strings(&settings.skd_related_urls) {
        return Err(StorageError::new("duplicate-related-url"));
    }
    let ghost roles = role_ids_of(settings.notification_roles@);
    let mut k: usize = 0;
    while k < settings.subscriptions.len()
        invariant
            k <= settings.subscriptions@.len(),
            texts(ids@) == roles,
            roles == role_ids_of(settings.notification_roles@),
            subscriptions_check(settings.subscriptions@, roles, 0) == subscriptions_check(settings.subscriptions@, roles, k as int),
        decreases settings.subscriptions@.len() - k,
    {
        match subscription_error_exec(&settings.subscriptions, &ids, k) {
            Some(e) => {
                return Err(StorageError::new(e));
            },
            None => {},
        }
        k += 1;
    }
    Ok(())
}

// ---------------------------------------------------------------------------
// Changes to guild settings
// ---------------------------------------------------------------------------

/// Whether a channel is subscribed to a category.
pub open spec fn subscribed(subs: Seq<Subscription>, channel_id: Seq<char>, category: NotificationCategory) -> bool {
    exists|i: int| 0 <= i < subs.len() && (#[trigger] subs[i]).channel_id@ == channel_id && subs[i].category == category
}

pub open spec fn other_pair(c: Subscription, channel_id: Seq<char>, category: NotificationCategory) -> bool {
    !(c.channel_id@ == channel_id && c.category == category)
}

/// The subscriptions without those of a channel and category.
pub open spec fn without_pair(subs: Seq<Subscription>, channel_id: Seq<char>, category: NotificationCategory) -> Seq<Subscription> {
    subs.filter(|c: Subscription| other_pair(c, channel_id, category))
}

/// The subscriptions after subscribing a channel to a category, or
/// unsubscribing it; nothing changes when it already is (is not).
pub open spec fn subscriptions_after(subs: Seq<Subscription>, sub: Subscription, enabled: bool) -> Seq<Subscription> {
    let exists = subscribed(subs, sub.channel_id@, sub.category);
    if enabled && !exists {
        subs.push(sub)
    } else if !enabled && exists {
        without_pair(subs, sub.channel_id@, sub.category)
    } else {
        subs
    }
}

pub open spec fn same_except_subscriptions(a: GuildSettings, b: GuildSettings) -> bool {
    &&& a.schema_version == b.schema_version
    &&& a.guild_id == b.guild_id
    &&& a.health_maintainer_role_id == b.health_maintainer_role_id
    &&& a.notification_roles == b.notification_roles
    &&& a.notification_role_panel == b.notification_role_panel
    &&& a.skd_related_urls == b.skd_related_urls
}

fn find_subscription(subs: &Vec<Subscription>, channel_id: &str, category: NotificationCategory) -> (r: Option<usize>)
    ensures
        match r {
            Some(i) => i < subs@.len() && subs@[i as int].channel_id@ == channel_id@ && subs@[i as int].category == category
                && forall|j: int| 0 <= j < i ==> other_pair(#[trigger] subs@[j], channel_id@, category),
            None => !subscribed(subs@, channel_id@, category),
        },
{
    let c = chars_of(channel_id);
    let mut i: usize = 0;
    while i < subs.len()
        invariant
            i <= subs@.len(),
            c@ == channel_id@,
            forall|j: int| 0 <= j < i ==> other_pair(#[trigger] subs@[j], channel_id@, category),
        decreases subs@.len() - i,
    {
        let other = chars_of(subs[i].channel_id.as_str());
        if eq(other.as_slice(), c.as_slice()) && subs[i].category == category {
            return Some(i);
        }
        i += 1;
    }
    assert forall|j: int| 0 <= j < subs@.len() implies !((#[trigger] subs@[j]).channel_id@ == channel_id@ && subs@[j].category == category) by {
        assert(other_pair(subs@[j], channel_id@, category));
    }
    None
}

fn remove_pair(subs: Vec<Subscription>, channel_id: &str, category: NotificationCategory) -> (r: Vec<Subscription>)
    ensures
        r@ == without_pair(subs@, channel_id@, category),
{
    let c = chars_of(channel_id);
    let ghost all = subs@;
    let mut rest = subs;
    let total = rest.len();
    let mut r: Vec<Subscription> = Vec::new();
    let mut i: usize = 0;
    while rest.len() > 0
        invariant
            i <= all.len(),
            all.len() == total,
            rest@ == all.skip(i as int),
            c@ == channel_id@,
            r@ == without_pair(all.take(i as int), channel_id@, category),
        decreases rest@.len(),
    {
        let item = rest.remove(0);
        assert(item == all[i as int]);
        assert(rest@ =~= all.skip(i + 1));
        assert(all.take(i + 1) =~= all.take(i as int).push(item));
        proof {
            all.take(i as int).lemma_filter_push(item, |x: Subscription| other_pair(x, channel_id@, category));
        }
        let other = chars_of(item.channel_id.as_str());
        if !(eq(other.as_slice(), c.as_slice()) && item.category == category) {
            r.push(item);
        }
        i += 1;
    }
    assert(all.take(i as int) =~= all);
    r
}

/// Subscribes or unsubscribes a channel; says whether anything changed.
pub fn apply_subscription(settings: &mut GuildSettings, subscription: Subscription, enabled: bool) -> (changed: bool)
    ensures
        final(settings).subscriptions@ == subscriptions_after(old(settings).subscriptions@, subscription, enabled),
        changed == (final(settings).subscriptions@ != old(settings).subscriptions@),
        same_except_subscriptions(*final(settings), *old(settings)),
{
    let found = find_subscription(&settings.subscriptions, subscription.channel_id.as_str(), subscription.category);
    let exists = found.is_some();
    if enabled && !exists {
        settings.subscriptions.push(subscription);
        assert(settings.subscriptions@.len() != old(settings).subscriptions@.len());
        true
    } else if !enabled && exists {
        let channel = string_of(chars_of(subscription.channel_id.as_str()).as_slice());
        let mut subs: Vec<Subscription> = Vec::new();
        std::mem::swap(&mut subs, &mut settings.subscriptions);
        let kept = remove_pair(subs, channel.as_str(), subscription.category);
        settings.subscriptions = kept;
        proof {
            let i = found.unwrap() as int;
            let old_subs = old(settings).subscriptions@;
            old_subs.filter_lemma(|x: Subscription| other_pair(x, subscription.channel_id@, subscription.category));
            assert(!other_pair(old_subs[i], subscription.channel_id@, subscription.category));
            if settings.subscriptions@ == old_subs {
                assert(settings.subscriptions@.contains(old_subs[i]));
            }
        }
        true
    } else {
        false
    }
}

/// After subscribing, the channel is subscribed; after unsubscribing, it is not.
pub proof fn lemma_subscription_set_then_get(subs: Seq<Subscription>, sub: Subscription)
    ensures
        subscribed(subscriptions_after(subs, sub, true), sub.channel_id@, sub.category),
        !subscribed(subscriptions_after(subs, sub, false), sub.channel_id@, sub.category),
{
    let after = subscriptions_after(subs, sub, true);
    if !subscribed(subs, sub.channel_id@, sub.category) {
        assert(after[subs.len() as int] == sub);
    }
    let removed = subscriptions_after(subs, sub, false);
    if subscribed(subs, sub.channel_id@, sub.category) {
        subs.filter_lemma(|x: Subscription| other_pair(x, sub.channel_id@, sub.category));
        assert forall|i: int| 0 <= i < removed.len() implies other_pair(#[trigger] removed[i], sub.channel_id@, sub.category) by {}
    }
}

/// Asking for the same change twice changes nothing the second time.
pub proof fn lemma_subscription_idempotent(subs: Seq<Subscription>, sub: Subscription, enabled: bool)
    ensures
        subscriptions_after(subscriptions_after(subs, sub, enabled), sub, enabled) == subscriptions_after(subs, sub, enabled),
{
    lemma_subscription_set_then_get(subs, sub);
}

/// Position of the first role with an id.
pub open spec fn role_position(roles: Seq<NotificationRole>, role_id: Seq<char>) -> Option<int>
    decreases roles.len(),
{
    if roles.len() == 0 {
        None
    } else if roles[0].role_id@ == role_id {
        Some(0)
    } else {
        match role_position(roles.drop_first(), role_id) {
            Some(i) => Some(i + 1),
            None => None,
        }
    }
}

pub proof fn lemma_role_position(roles: Seq<NotificationRole>, role_id: Seq<char>)
    ensures
        match role_position(roles, role_id) {
            Some(i) => 0 <= i < roles.len() && roles[i].role_id@ == role_id,
            None => forall|j: int| 0 <= j < roles.len() ==> (#[trigger] roles[j]).role_id@ != role_id,
        },
    decreases roles.len(),
{
    if roles.len() > 0 {
        lemma_role_position(roles.drop_first(), role_id);
        if roles[0].role_id@ != role_id {
            assert forall|j: int| 0 < j < roles.len() implies roles[j] == roles.drop_first()[j - 1] by {}
        }
    }
}

/// Two roles with the same id and name.
pub open spec fn same_role_view(a: NotificationRole, b: NotificationRole) -> bool {
    a.role_id@ == b.role_id@ && a.name@ == b.name@
}

pub open spec fn other_role(r: NotificationRole, role_id: Seq<char>) -> bool {
    r.role_id@ != role_id
}

pub open spec fn other_id(id: String, role_id: Seq<char>) -> bool {
    id@ != role_id
}

/// The outcome of registering (`enabled`) or removing a notification role:
/// the roles, whether the role ids of subscriptions lose it, and whether
/// anything changed; `None` when the limit of roles is reached.
pub open spec fn roles_after(roles: Seq<NotificationRole>, role: NotificationRole, enabled: bool) -> Option<(Seq<NotificationRole>, bool)> {
    match role_position(roles, role.role_id@) {
        Some(p) => if enabled {
            if same_role_view(roles[p], role) {
                Some((roles, false))
            } else {
                Some((roles.update(p, role), true))
            }
        } else {
            Some((roles.filter(|r: NotificationRole| other_role(r, role.role_id@)), true))
        },
        None => if enabled {
            if roles.len() >= MAX_NOTIFICATION_ROLES {
                None
            } else {
                Some((roles.push(role), true))
            }
        } else {
            Some((roles, false))
        },
    }
}

fn find_role(roles: &Vec<NotificationRole>, role_id: &str) -> (r: Option<usize>)
    ensures
        match r {
            Some(i) => role_position(roles@, role_id@) == Some(i as int),
            None => role_position(roles@, role_id@) is None,
        },
{
    let id = chars_of(role_id);
    let mut i: usize = 0;
    assert(roles@.skip(0) =~= roles@);
    while i < roles.len()
        invariant
            i <= roles@.len(),
            id@ == role_id@,
            role_position(roles@, role_id@) == (match role_position(roles@.skip(i as int), role_id@) {
                Some(k) => Some(k + i),
                None => None,
            }),
        decreases roles@.len() - i,
    {
        assert(roles@.skip(i as int)[0] == roles@[i as int]);
        assert(roles@.skip(i as int).drop_first() =~= roles@.skip(i + 1));
        let other = chars_of(roles[i].role_id.as_str());
        if eq(other.as_slice(), id.as_slice()) {
            return Some(i);
        }
        i += 1;
    }
    None
}

fn same_role(a: &NotificationRole, b: &NotificationRole) -> (r: bool)
    ensures
        r == same_role_view(*a, *b),
{
    let a1 = chars_of(a.role_id.as_str());
    let b1 = chars_of(b.role_id.as_str());
    let a2 = chars_of(a.name.as_str());
    let b2 = chars_of(b.name.as_str());
    eq(a1.as_slice(), b1.as_slice()) && eq(a2.as_slice(), b2.as_slice())
}

pub open spec fn without_id(ids: Seq<String>, role_id: Seq<char>) -> Seq<String> {
    ids.filter(|x: String| other_id(x, role_id))
}

fn remove_id(ids: Vec<String>, role_id: &str) -> (r: Vec<String>)
    ensures
        r@ == without_id(ids@, role_id@),
{
    let c = chars_of(role_id);
    let ghost all = ids@;
    let mut rest = ids;
    let total = rest.len();
    let mut r: Vec<String> = Vec::new();
    let mut i: usize = 0;
    while rest.len() > 0
        invariant
            i <= all.len(),
            all.len() == total,
            rest@ == all.skip(i as int),
            c@ == role_id@,
            r@ == without_id(all.take(i as int), role_id@),
        decreases rest@.len(),
    {
        let item = rest.remove(0);
        assert(item == all[i as int]);
        assert(rest@ =~= all.skip(i + 1));
        assert(all.take(i + 1) =~= all.take(i as int).push(item));
        proof {
            all.take(i as int).lemma_filter_push(item, |x: String| other_id(x, role_id@));
        }
        let other = chars_of(item.as_str());
        if !eq(other.as_slice(), c.as_slice()) {
            r.push(item);
        }
        i += 1;
    }
    assert(all.take(i as int) =~= all);
    r
}

/// The subscriptions with a role taken out of their role ids.
pub open spec fn stripped(old_subs: Seq<Subscription>, new_subs: Seq<Subscription>, role_id: Seq<char>) -> bool {
    &&& new_subs.len() == old_subs.len()
    &&& forall|i: int| 0 <= i < new_subs.len() ==> {
        let a = #[trigger] new_subs[i];
        let b = old_subs[i];
        a.guild_id == b.guild_id && a.channel_id == b.channel_id && a.category == b.category
            && a.role_ids@ == without_id(b.role_ids@, role_id)
    }
}

fn strip_role(subs: Vec<Subscription>, role_id: &str) -> (r: Vec<Subscription>)
    ensures
        stripped(subs@, r@, role_id@),
{
    let ghost all = subs@;
    let mut rest = subs;
    let total = rest.len();
    let mut r: Vec<Subscription> = Vec::new();
    let mut i: usize = 0;
    while rest.len() > 0
        invariant
            i <= all.len(),
            all.len() == total,
            rest@ == all.skip(i as int),
            stripped(all.take(i as int), r@, role_id@),
        decreases rest@.len(),
    {
        let item = rest.remove(0);
        assert(item == all[i as int]);
        assert(rest@ =~= all.skip(i + 1));
        let Subscription { guild_id, channel_id, category, role_ids } = item;
        let kept = remove_id(role_ids, role_id);
        r.push(Subscription { guild_id, channel_id, category, role_ids: kept });
        assert(stripped(all.take(i + 1), r@, role_id@)) by {
            assert forall|k: int| 0 <= k < r@.len() implies {
                let a = #[trigger] r@[k];
                let b = all.take(i + 1)[k];
                a.guild_id == b.guild_id && a.channel_id == b.channel_id && a.category == b.category
                    && a.role_ids@ == without_id(b.role_ids@, role_id@)
            } by {
                if k < i {
                    assert(all.take(i + 1)[k] == all.take(i as int)[k]);
                }
            }
        }
        i += 1;
    }
    assert(all.take(i as int) =~= all);
    r
}

fn remove_role(roles: Vec<NotificationRole>, role_id: &str) -> (r: Vec<NotificationRole>)
    ensures
        r@ == roles@.filter(|x: NotificationRole| other_role(x, role_id@)),
{
    let c = chars_of(role_id);
    let ghost all = roles@;
    let mut rest = roles;
    let total = rest.len();
    let mut r: Vec<NotificationRole> = Vec::new();
    let mut i: usize = 0;
    while rest.len() > 0
        invariant
            i <= all.len(),
            all.len() == total,
            rest@ == all.skip(i as int),
            c@ == role_id@,
            r@ == all.take(i as int).filter(|x: NotificationRole| other_role(x, role_id@)),
        decreases rest@.len(),
    {
        let item = rest.remove(0);
        assert(item == all[i as int]);
        assert(rest@ =~= all.skip(i + 1));
        assert(all.take(i + 1) =~= all.take(i as int).push(item));
        proof {
            all.take(i as int).lemma_filter_push(item, |x: NotificationRole| other_role(x, role_id@));
        }
        let other = chars_of(item.role_id.as_str());
        if !eq(other.as_slice(), c.as_slice()) {
            r.push(item);
        }
        i += 1;
    }
    assert(all.take(i as int) =~= all);
    r
}

/// Registers a notification role (or renames it), or removes it together
/// with its mentions in subscriptions; says whether anything changed.
pub fn apply_notification_role(settings: &mut GuildSettings, role: NotificationRole, enabled: bool) -> (r: Result<bool, StorageError>)
    ensures
        match roles_after(old(settings).notification_roles@, role, enabled) {
            None => r matches Err(e) && e.code@ == "notification-role-limit-reached"@
                && final(settings).notification_roles == old(settings).notification_roles
                && final(settings).subscriptions == old(settings).subscriptions,
            Some((roles, changed)) => r == Ok::<bool, StorageError>(changed)
                && final(settings).notification_roles@ == roles
                && (if !enabled && changed {
                    stripped(old(settings).subscriptions@, final(settings).subscriptions@, role.role_id@)
                } else {
                    final(settings).subscriptions == old(settings).subscriptions
                }),
        },
        final(settings).guild_id == old(settings).guild_id,
        final(settings).schema_version == old(settings).schema_version,
        final(settings).health_maintainer_role_id == old(settings).health_maintainer_role_id,
        final(settings).notification_role_panel == old(settings).notification_role_panel,
        final(settings).skd_related_urls == old(settings).skd_related_urls,
{
    let position = find_role(&settings.notification_roles, role.role_id.as_str());
    proof {
        lemma_role_position(old(settings).notification_roles@, role.role_id@);
    }
    if enabled {
        match position {
            Some(p) => {
                if same_role(&settings.notification_roles[p], &role) {
                    return Ok(false);
                }
                settings.notification_roles.set(p, role);
            },
            None => {
                if settings.notification_roles.len() >= MAX_NOTIFICATION_ROLES {
                    return Err(StorageError::new("notification-role-limit-reached"));
                }
                settings.notification_roles.push(role);
            },
        }
        Ok(true)
    } else {
        match position {
            Some(_) => {
                let id = string_of(chars_of(role.role_id.as_str()).as_slice());
                let mut roles: Vec<NotificationRole> = Vec::new();
                std::mem::swap(&mut roles, &mut settings.notification_roles);
                settings.notification_roles = remove_role(roles, id.as_str());
                let mut subs: Vec<Subscription> = Vec::new();
                std::mem::swap(&mut subs, &mut settings.subscriptions);
                settings.subscriptions = strip_role(subs, id.as_str());
                Ok(true)
            },
            None => Ok(false),
        }
    }
}

/// After a role is removed no role has its id any more.
pub proof fn lemma_removed_role_is_gone(roles: Seq<NotificationRole>, role: NotificationRole)
    ensures
        roles_after(roles, role, false) matches Some((r, _)) ==> role_position(r, role.role_id@) is None,
{
    lemma_role_position(roles, role.role_id@);
    if let Some((r, _)) = roles_after(roles, role, false) {
        lemma_role_position(r, role.role_id@);
        if role_position(roles, role.role_id@) is Some {
            roles.filter_lemma(|x: NotificationRole| other_role(x, role.role_id@));
            assert forall|j: int| 0 <= j < r.len() implies (#[trigger] r[j]).role_id@ != role.role_id@ by {
                assert(other_role(r[j], role.role_id@));
            }
        }
    }
}

/// A registered role can be found under its id, with the name it was given.
pub proof fn lemma_registered_role_is_found(roles: Seq<NotificationRole>, role: NotificationRole)
    ensures
        roles_after(roles, role, true) matches Some((r, _)) ==> (role_position(r, role.role_id@) matches Some(p)
            && same_role_view(r[p], role)),
{
    lemma_role_position(roles, role.role_id@);
    if let Some((r, _)) = roles_after(roles, role, true) {
        match role_position(roles, role.role_id@) {
            Some(p) => {
                lemma_role_position_first(roles, role.role_id@, p);
                lemma_role_position_update(roles, role.role_id@, p, role);
            },
            None => {
                lemma_role_position_push(roles, role);
            },
        }
    }
}

proof fn lemma_role_position_first(roles: Seq<NotificationRole>, role_id: Seq<char>, p: int)
    requires
        role_position(roles, role_id) == Some(p),
    ensures
        forall|j: int| 0 <= j < p ==> (#[trigger] roles[j]).role_id@ != role_id,
    decreases roles.len(),
{
    lemma_role_position(roles, role_id);
    if roles.len() > 0 && roles[0].role_id@ != role_id {
        lemma_role_position_first(roles.drop_first(), role_id, p - 1);
        assert forall|j: int| 0 <= j < p implies (#[trigger] roles[j]).role_id@ != role_id by {
            if j > 0 {
                assert(roles[j] == roles.drop_first()[j - 1]);
            }
        }
    }
}

proof fn lemma_role_position_at(roles: Seq<NotificationRole>, role_id: Seq<char>, p: int)
    requires
        0 <= p < roles.len(),
        roles[p].role_id@ == role_id,
        forall|j: int| 0 <= j < p ==> (#[trigger] roles[j]).role_id@ != role_id,
    ensures
        role_position(roles, role_id) == Some(p),
    decreases p,
{
    if p > 0 {
        assert forall|j: int| 0 <= j < p - 1 implies (#[trigger] roles.drop_first()[j]).role_id@ != role_id by {
            assert(roles.drop_first()[j] == roles[j + 1]);
        }
        lemma_role_position_at(roles.drop_first(), role_id, p - 1);
    }
}

proof fn lemma_role_position_update(roles: Seq<NotificationRole>, role_id: Seq<char>, p: int, role: NotificationRole)
    requires
        role_position(roles, role_id) == Some(p),
        role.role_id@ == role_id,
        0 <= p < roles.len(),
        forall|j: int| 0 <= j < p ==> (#[trigger] roles[j]).role_id@ != role_id,
    ensures
        role_position(roles.update(p, role), role_id) == Some(p),
{
    let u = roles.update(p, role);
    assert forall|j: int| 0 <= j < p implies (#[trigger] u[j]).role_id@ != role_id by {
        assert(u[j] == roles[j]);
    }
    lemma_role_position_at(u, role_id, p);
}

proof fn lemma_role_position_push(roles: Seq<NotificationRole>, role: NotificationRole)
    requires
        role_position(roles, role.role_id@) is None,
    ensures
        role_position(roles.push(role), role.role_id@) == Some(roles.len() as int),
{
    lemma_role_position(roles, role.role_id@);
    let u = roles.push(role);
    assert forall|j: int| 0 <= j < roles.len() implies (#[trigger] u[j]).role_id@ != role.role_id@ by {
        assert(u[j] == roles[j]);
    }
    lemma_role_position_at(u, role.role_id@, roles.len() as int);
}

pub open spec fn same_panel(a: NotificationRolePanel, b: NotificationRolePanel) -> bool {
    a.channel_id@ == b.channel_id@ && a.message_id@ == b.message_id@
}

/// Records where the role panel is; says whether it moved.
pub fn apply_notification_role_panel(settings: &mut GuildSettings, panel: NotificationRolePanel) -> (changed: bool)
    ensures
        changed == !(old(settings).notification_role_panel matches Some(p) && same_panel(p, panel)),
        changed ==> final(settings).notification_role_panel == Some(panel),
        !changed ==> final(settings).notification_role_panel == old(settings).notification_role_panel,
        final(settings).subscriptions == old(settings).subscriptions,
        final(settings).notification_roles == old(settings).notification_roles,
        final(settings).skd_related_urls == old(settings).skd_related_urls,
        final(settings).guild_id == old(settings).guild_id,
{
    let same = match &settings.notification_role_panel {
        Some(p) => {
            let a1 = chars_of(p.channel_id.as_str());
            let b1 = chars_of(panel.channel_id.as_str());
            let a2 = chars_of(p.message_id.as_str());
            let b2 = chars_of(panel.message_id.as_str());
            eq(a1.as_slice(), b1.as_slice()) && eq(a2.as_slice(), b2.as_slice())
        },
        None => false,
    };
    if same {
        return false;
    }
    settings.notification_role_panel = Some(panel);
    true
}

/// Whether some role of the settings has an id.
pub open spec fn role_registered(roles: Seq<NotificationRole>, role_id: Seq<char>) -> bool {
    exists|i: int| 0 <= i < roles.len() && (#[trigger] roles[i]).role_id@ == role_id
}

pub open spec fn has_id(ids: Seq<String>, id: Seq<char>) -> bool {
    exists|i: int| 0 <= i < ids.len() && (#[trigger] ids[i])@ == id
}

/// The first subscription of a channel to a category.
pub open spec fn first_subscription(subs: Seq<Subscription>, channel_id: Seq<char>, category: NotificationCategory, i: int) -> bool {
    0 <= i < subs.len() && subs[i].channel_id@ == channel_id && subs[i].category == category
        && forall|j: int| 0 <= j < i ==> other_pair(#[trigger] subs[j], channel_id, category)
}

fn has_id_exec(ids: &Vec<String>, id: &str) -> (r: bool)
    ensures
        r == has_id(ids@, id@),
{
    let c = chars_of(id);
    let mut i: usize = 0;
    while i < ids.len()
        invariant
            i <= ids@.len(),
            c@ == id@,
            forall|j: int| 0 <= j < i ==> (#[trigger] ids@[j])@ != id@,
        decreases ids@.len() - i,
    {
        let other = chars_of(ids[i].as_str());
        if eq(other.as_slice(), c.as_slice()) {
            return true;
        }
        i += 1;
    }
    false
}

/// Adds a notification role to, or removes it from, a channel's
/// subscription to a category; says whether anything changed.
#[verifier::loop_isolation(false)]
pub fn apply_subscription_role(
    settings: &mut GuildSettings,
    channel_id: &str,
    category: NotificationCategory,
    role_id: &str,
    enabled: bool,
) -> (r: Result<bool, StorageError>)
    ensures
        !spec_valid_snowflake(channel_id@) || !spec_valid_snowflake(role_id@) ==> (r matches Err(e)
            && e.code@ == "invalid-subscription-role"@),
        spec_valid_snowflake(channel_id@) && spec_valid_snowflake(role_id@) && !role_registered(old(settings).notification_roles@, role_id@)
            ==> (r matches Err(e) && e.code@ == "notification-role-not-registered"@),
        spec_valid_snowflake(channel_id@) && spec_valid_snowflake(role_id@) && role_registered(old(settings).notification_roles@, role_id@)
            && !subscribed(old(settings).subscriptions@, channel_id@, category) ==> (r matches Err(e) && e.code@ == "subscription-not-found"@),
        r is Err || r == Ok::<bool, StorageError>(false) ==> final(settings).subscriptions == old(settings).subscriptions,
        r == Ok::<bool, StorageError>(true) ==> exists|k: int| {
            &&& first_subscription(old(settings).subscriptions@, channel_id@, category, k)
            &&& final(settings).subscriptions@.len() == old(settings).subscriptions@.len()
            &&& forall|j: int| 0 <= j < old(settings).subscriptions@.len() && j != k ==> #[trigger] final(settings).subscriptions@[j] == old(settings).subscriptions@[j]
            &&& final(settings).subscriptions@[k].channel_id == old(settings).subscriptions@[k].channel_id
            &&& final(settings).subscriptions@[k].guild_id == old(settings).subscriptions@[k].guild_id
            &&& final(settings).subscriptions@[k].category == category
            &&& if enabled {
                !has_id(old(settings).subscriptions@[k].role_ids@, role_id@)
                    && final(settings).subscriptions@[k].role_ids@.drop_last() == old(settings).subscriptions@[k].role_ids@
                    && final(settings).subscriptions@[k].role_ids@.last()@ == role_id@
            } else {
                has_id(old(settings).subscriptions@[k].role_ids@, role_id@)
                    && final(settings).subscriptions@[k].role_ids@ == without_id(old(settings).subscriptions@[k].role_ids@, role_id@)
            }
        },
        r matches Ok(changed) && !changed ==> (exists|k: int| first_subscription(old(settings).subscriptions@, channel_id@, category, k)
            && has_id(old(settings).subscriptions@[k].role_ids@, role_id@) == enabled),
        final(settings).notification_roles == old(settings).notification_roles,
        final(settings).skd_related_urls == old(settings).skd_related_urls,
        final(settings).guild_id == old(settings).guild_id,
{
    if !valid_snowflake(channel_id) || !valid_snowflake(role_id) {
        return Err(StorageError::new("invalid-subscription-role"));
    }
    let registered = match find_role(&settings.notification_roles, role_id) {
        Some(_) => true,
        None => false,
    };
    proof {
        lemma_role_position(old(settings).notification_roles@, role_id@);
    }
    if !registered {
        return Err(StorageError::new("notification-role-not-registered"));
    }
    let k = match find_subscription(&settings.subscriptions, channel_id, category) {
        Some(k) => k,
        None => {
            return Err(StorageError::new("subscription-not-found"));
        },
    };
    assert(first_subscription(old(settings).subscriptions@, channel_id@, category, k as int));
    let exists = has_id_exec(&settings.subscriptions[k].role_ids, role_id);
    if enabled == exists {
        return Ok(false);
    }
    let mut subs: Vec<Subscription> = Vec::new();
    std::mem::swap(&mut subs, &mut settings.subscriptions);
    let ghost before = subs@;
    let placeholder = Subscription { guild_id: String::new(), channel_id: String::new(), category, role_ids: Vec::new() };
    let mut target = placeholder;
    std::mem::swap(&mut target, &mut subs[k]);
    assert(target == before[k as int]);
    assert(forall|j: int| 0 <= j < before.len() && j != k ==> subs@[j] == before[j]);
    let Subscription { guild_id, channel_id: channel, category: cat, role_ids } = target;
    let new_ids = if enabled {
        let mut ids = role_ids;
        ids.push(string_of(chars_of(role_id).as_slice()));
        ids
    } else {
        remove_id(role_ids, role_id)
    };
    let mut updated = Subscription { guild_id, channel_id: channel, category: cat, role_ids: new_ids };
    let ghost updated_value = updated;
    std::mem::swap(&mut updated, &mut subs[k]);
    assert(subs@[k as int] == updated_value);
    assert(forall|j: int| 0 <= j < before.len() && j != k ==> subs@[j] == before[j]);
    settings.subscriptions = subs;
    Ok(true)
}

/// The role that a reaction on the role panel selects: the guild must have
/// settings, the reaction must be on the panel, and the index must name a role.
pub open spec fn spec_reaction_role(
    settings: Option<GuildSettings>,
    guild_id: Seq<char>,
    channel_id: Seq<char>,
    message_id: Seq<char>,
    index: int,
) -> Option<Seq<char>> {
    if !(spec_valid_snowflake(guild_id) && spec_valid_snowflake(channel_id) && spec_valid_snowflake(message_id)) {
        None
    } else {
        match settings {
            None => None,
            Some(s) => match s.notification_role_panel {
                None => None,
                Some(p) => if p.channel_id@ == channel_id && p.message_id@ == message_id && 0 <= index < s.notification_roles@.len() {
                    Some(s.notification_roles@[index].role_id@)
                } else {
                    None
                },
            },
        }
    }
}

pub open spec fn settings_value(settings: Option<&GuildSettings>) -> Option<GuildSettings> {
    match settings {
        Some(s) => Some(*s),
        None => None,
    }
}

pub fn role_for_reaction(
    settings: Option<&GuildSettings>,
    guild_id: &str,
    channel_id: &str,
    message_id: &str,
    index: usize,
) -> (r: Option<String>)
    ensures
        match r {
            Some(id) => spec_reaction_role(settings_value(settings), guild_id@, channel_id@, message_id@, index as int) == Some(id@),
            None => spec_reaction_role(settings_value(settings), guild_id@, channel_id@, message_id@, index as int) is None,
        },
{
    if !valid_snowflake(guild_id) || !valid_snowflake(channel_id) || !valid_snowflake(message_id) {
        return None;
    }
    let s = match settings {
        Some(s) => s,
        None => {
            return None;
        },
    };
    let p = match &s.notification_role_panel {
        Some(p) => p,
        None => {
            return None;
        },
    };
    let pc = chars_of(p.channel_id.as_str());
    let pm = chars_of(p.message_id.as_str());
    let c = chars_of(channel_id);
    let m = chars_of(message_id);
    if !eq(pc.as_slice(), c.as_slice()) || !eq(pm.as_slice(), m.as_slice()) {
        return None;
    }
    if index >= s.notification_roles.len() {
        return None;
    }
    Some(string_of(chars_of(s.notification_roles[index].role_id.as_str()).as_slice()))
}

// ---------------------------------------------------------------------------
// Related sites
// ---------------------------------------------------------------------------

fn total_chars(urls: &Vec<String>) -> (r: Option<usize>)
    ensures
        match r {
            Some(n) => n == url_chars(urls@) && n <= MAX_SKD_RELATED_URL_CHARS,
            None => url_chars(urls@) > MAX_SKD_RELATED_URL_CHARS,
        },
{
    let mut total: usize = 0;
    let mut i: usize = 0;
    while i < urls.len()
        invariant
            i <= urls@.len(),
            total == url_chars(urls@.take(i as int)),
            total <= MAX_SKD_RELATED_URL_CHARS,
        decreases urls@.len() - i,
    {
        assert(urls@.take(i + 1).drop_last() =~= urls@.take(i as int));
        let n = chars_of(urls[i].as_str()).len();
        if n > MAX_SKD_RELATED_URL_CHARS - total {
            proof {
                lemma_url_chars_prefix(urls@, i + 1);
            }
            return None;
        }
        total = total + n;
        i += 1;
    }
    assert(urls@.take(i as int) =~= urls@);
    Some(total)
}

/// The outcome of adding or removing a related site (already normalised):
/// the sites and whether they changed, or the refusal when a limit is reached.
pub open spec fn urls_after(urls: Seq<String>, url: Seq<char>, enabled: bool) -> Option<bool> {
    let exists = has_id(urls, url);
    if enabled == exists {
        Some(false)
    } else if enabled && (urls.len() >= MAX_SKD_RELATED_URLS || url_chars(urls) + url.len() > MAX_SKD_RELATED_URL_CHARS) {
        None
    } else {
        Some(true)
    }
}

/// Adds a related site of `skd` to a guild, or removes it; says whether
/// anything changed.
pub fn apply_related_url(settings: &mut GuildSettings, url: &str, enabled: bool) -> (r: Result<bool, StorageError>)
    ensures
        match spec_normalize_web_url(url@) {
            None => r matches Err(e) && e.code@ == "invalid-related-url"@ && final(settings).skd_related_urls == old(settings).skd_related_urls,
            Some(n) => match urls_after(old(settings).skd_related_urls@, n, enabled) {
                None => r matches Err(e) && e.code@ == "related-url-limit-reached"@ && final(settings).skd_related_urls == old(settings).skd_related_urls,
                Some(changed) => r == Ok::<bool, StorageError>(changed) && (if !changed {
                    final(settings).skd_related_urls == old(settings).skd_related_urls
                } else if enabled {
                    final(settings).skd_related_urls@.drop_last() == old(settings).skd_related_urls@
                        && final(settings).skd_related_urls@.last()@ == n
                } else {
                    final(settings).skd_related_urls@ == without_id(old(settings).skd_related_urls@, n)
                }),
            },
        },
        final(settings).subscriptions == old(settings).subscriptions,
        final(settings).notification_roles == old(settings).notification_roles,
        final(settings).guild_id == old(settings).guild_id,
{
    let n = match normalize_web_url(url) {
        Some(n) => n,
        None => {
            return Err(StorageError::new("invalid-related-url"));
        },
    };
    let exists = has_id_exec(&settings.skd_related_urls, n.as_str());
    if enabled == exists {
        return Ok(false);
    }
    if enabled {
        let len = chars_of(n.as_str()).len();
        let over = match total_chars(&settings.skd_related_urls) {
            Some(total) => len > MAX_SKD_RELATED_URL_CHARS - total,
            None => true,
        };
        if settings.skd_related_urls.len() >= MAX_SKD_RELATED_URLS || over {
            return Err(StorageError::new("related-url-limit-reached"));
        }
        settings.skd_related_urls.push(n);
    } else {
        let mut urls: Vec<String> = Vec::new();
        std::mem::swap(&mut urls, &mut settings.skd_related_urls);
        settings.skd_related_urls = remove_id(urls, n.as_str());
    }
    Ok(true)
}

// ---------------------------------------------------------------------------
// Maintainers
// ---------------------------------------------------------------------------

/// Code-point order of texts, which is the byte order of their UTF-8.
pub open spec fn text_lt(a: Seq<char>, b: Seq<char>) -> bool
    decreases a.len(),
{
    if a.len() == 0 {
        b.len() > 0
    } else if b.len() == 0 {
        false
    } else if a[0] != b[0] {
        a[0] < b[0]
    } else {
        text_lt(a.drop_first(), b.drop_first())
    }
}

pub open spec fn text_le(a: Seq<char>, b: Seq<char>) -> bool {
    a == b || text_lt(a, b)
}

pub open spec fn sorted_texts(v: Seq<Seq<char>>) -> bool {
    forall|i: int, j: int| 0 <= i < j < v.len() ==> text_le(v[i], v[j])
}

pub proof fn lemma_text_lt_asymmetric(a: Seq<char>, b: Seq<char>)
    ensures
        text_lt(a, b) ==> !text_lt(b, a),
        !text_lt(a, a),
    decreases a.len(),
{
    if a.len() > 0 && b.len() > 0 && a[0] == b[0] {
        lemma_text_lt_asymmetric(a.drop_first(), b.drop_first());
    }
    if a.len() > 0 {
        lemma_text_lt_asymmetric(a.drop_first(), a.drop_first());
    }
}

pub proof fn lemma_text_lt_total(a: Seq<char>, b: Seq<char>)
    ensures
        a != b ==> text_lt(a, b) || text_lt(b, a),
    decreases a.len(),
{
    if a.len() > 0 && b.len() > 0 && a[0] == b[0] {
        lemma_text_lt_total(a.drop_first(), b.drop_first());
        if a != b {
            assert(a.drop_first() != b.drop_first()) by {
                if a.drop_first() == b.drop_first() {
                    assert(a =~= seq![a[0]] + a.drop_first());
                    assert(b =~= seq![b[0]] + b.drop_first());
                }
            }
        }
    } else if a.len() == 0 && b.len() == 0 {
        assert(a =~= b);
    }
}

pub proof fn lemma_text_lt_transitive(a: Seq<char>, b: Seq<char>, c: Seq<char>)
    requires
        text_lt(a, b),
        text_lt(b, c),
    ensures
        text_lt(a, c),
    decreases a.len(),
{
    if a.len() > 0 && b.len() > 0 && c.len() > 0 && a[0] == b[0] && b[0] == c[0] {
        lemma_text_lt_transitive(a.drop_first(), b.drop_first(), c.drop_first());
    }
}

pub fn text_less(a: &[char], b: &[char]) -> (r: bool)
    ensures
        r == text_lt(a@, b@),
{
    let mut i: usize = 0;
    assert(a@.skip(0) =~= a@);
    assert(b@.skip(0) =~= b@);
    while i < a.len() && i < b.len()
        invariant
            i <= a@.len(),
            i <= b@.len(),
            text_lt(a@, b@) == text_lt(a@.skip(i as int), b@.skip(i as int)),
        decreases a@.len() - i,
    {
        assert(a@.skip(i as int)[0] == a@[i as int]);
        assert(b@.skip(i as int)[0] == b@[i as int]);
        if a[i] != b[i] {
            return a[i] < b[i];
        }
        assert(a@.skip(i as int).drop_first() =~= a@.skip(i + 1));
        assert(b@.skip(i as int).drop_first() =~= b@.skip(i + 1));
        i += 1;
    }
    i == a.len() && i < b.len()
}

/// The texts in code-point order.
pub fn sort_texts(v: Vec<String>) -> (r: Vec<String>)
    ensures
        sorted_texts(texts(r@)),
        texts(r@).to_multiset() == texts(v@).to_multiset(),
{
    broadcast use vstd::seq_lib::to_multiset_build, vstd::seq_lib::to_multiset_insert;

    let ghost all = v@;
    let mut rest = v;
    let total = rest.len();
    let mut r: Vec<String> = Vec::new();
    let mut i: usize = 0;
    assert(texts(r@).to_multiset() =~= texts(all.take(0)).to_multiset()) by {
        assert(texts(r@) =~= Seq::<Seq<char>>::empty());
        assert(texts(all.take(0)) =~= Seq::<Seq<char>>::empty());
    }
    while rest.len() > 0
        invariant
            i <= all.len(),
            all.len() == total,
            rest@ == all.skip(i as int),
            sorted_texts(texts(r@)),
            texts(r@).to_multiset() == texts(all.take(i as int)).to_multiset(),
        decreases rest@.len(),
    {
        let item = rest.remove(0);
        assert(item == all[i as int]);
        assert(rest@ =~= all.skip(i + 1));
        let x = chars_of(item.as_str());
        let mut p: usize = 0;
        while p < r.len()
            invariant
                p <= r@.len(),
                x@ == item@,
                forall|j: int| 0 <= j < p ==> !text_lt(item@, #[trigger] r@[j]@),
            ensures
                p <= r@.len(),
                forall|j: int| 0 <= j < p ==> !text_lt(item@, #[trigger] r@[j]@),
                p < r@.len() ==> text_lt(item@, r@[p as int]@),
            decreases r@.len() - p,
        {
            let y = chars_of(r[p].as_str());
            if text_less(x.as_slice(), y.as_slice()) {
                break;
            }
            p += 1;
        }
        let ghost before = r@;
        r.insert(p, item);
        proof {
            let t = texts(before);
            assert(texts(r@) =~= t.insert(p as int, item@));
            assert(texts(all.take(i + 1)) =~= texts(all.take(i as int)).push(item@));
            vstd::seq_lib::to_multiset_insert(t, p as int, item@);
            vstd::seq_lib::to_multiset_build(texts(all.take(i as int)), item@);
            assert forall|a: int, b: int| 0 <= a < b < texts(r@).len() implies text_le(#[trigger] texts(r@)[a], #[trigger] texts(r@)[b]) by {
                let ra = texts(r@)[a];
                let rb = texts(r@)[b];
                if a < p && b < p {
                    assert(ra == t[a] && rb == t[b]);
                } else if a < p && b == p {
                    assert(ra == t[a]);
                    lemma_text_lt_total(item@, t[a]);
                    assert(!text_lt(item@, before[a]@));
                } else if a < p && b > p {
                    assert(ra == t[a] && rb == t[b - 1]);
                } else if a == p {
                    assert(rb == t[b - 1]);
                    if p < before.len() {
                        assert(text_lt(item@, t[p as int]));
                        if b - 1 > p {
                            assert(text_le(t[p as int], t[b - 1]));
                            if t[p as int] != t[b - 1] {
                                lemma_text_lt_transitive(item@, t[p as int], t[b - 1]);
                            }
                        }
                    }
                } else {
                    assert(ra == t[a - 1] && rb == t[b - 1]);
                }
            }
        }
        i += 1;
    }
    assert(all.take(i as int) =~= all);
    r
}

/// The maintainers after adding or removing one, or the refusal.
pub open spec fn maintainer_change(ids: Seq<String>, subject_id: Seq<char>, enabled: bool) -> Result<bool, Seq<char>> {
    if !is_snowflake(subject_id) {
        Err("invalid-maintainer-subject"@)
    } else if enabled == has_id(ids, subject_id) {
        Ok(false)
    } else if enabled && ids.len() >= MAX_MAINTAINER_SUBJECTS {
        Err("maintainer-limit-reached"@)
    } else {
        Ok(true)
    }
}

/// Adds a maintainer (keeping the list in order) or removes one; says
/// whether anything changed.
pub fn apply_maintainer(settings: &mut MaintainerSettings, subject_id: &str, enabled: bool) -> (r: Result<bool, StorageError>)
    ensures
        match maintainer_change(old(settings).subject_ids@, subject_id@, enabled) {
            Err(code) => r matches Err(e) && e.code@ == code && final(settings).subject_ids == old(settings).subject_ids,
            Ok(changed) => r == Ok::<bool, StorageError>(changed) && (if !changed {
                final(settings).subject_ids == old(settings).subject_ids
            } else if enabled {
                sorted_texts(texts(final(settings).subject_ids@))
                    && texts(final(settings).subject_ids@).to_multiset() == texts(old(settings).subject_ids@).push(subject_id@).to_multiset()
            } else {
                final(settings).subject_ids@ == without_id(old(settings).subject_ids@, subject_id@)
            }),
        },
        final(settings).schema_version == old(settings).schema_version,
{
    if !valid_maintainer_subject_id(subject_id) {
        return Err(StorageError::new("invalid-maintainer-subject"));
    }
    let exists = has_id_exec(&settings.subject_ids, subject_id);
    if enabled == exists {
        return Ok(false);
    }
    let mut ids: Vec<String> = Vec::new();
    std::mem::swap(&mut ids, &mut settings.subject_ids);
    if enabled {
        if ids.len() >= MAX_MAINTAINER_SUBJECTS {
            settings.subject_ids = ids;
            return Err(StorageError::new("maintainer-limit-reached"));
        }
        let ghost before = ids@;
        ids.push(string_of(chars_of(subject_id).as_slice()));
        assert(texts(ids@) =~= texts(before).push(subject_id@));
        settings.subject_ids = sort_texts(ids);
    } else {
        settings.subject_ids = remove_id(ids, subject_id);
    }
    Ok(true)
}

/// Whether a user, or one of its roles, is a maintainer.
pub fn is_maintainer(subjects: &Vec<String>, user_id: &str, member_role_ids: &[String]) -> (r: bool)
    ensures
        r == (has_id(subjects@, user_id@) || exists|i: int| 0 <= i < member_role_ids@.len() && has_id(subjects@, #[trigger] member_role_ids@[i]@)),
{
    if has_id_exec(subjects, user_id) {
        return true;
    }
    let mut i: usize = 0;
    while i < member_role_ids.len()
        invariant
            i <= member_role_ids@.len(),
            forall|j: int| 0 <= j < i ==> !has_id(subjects@, #[trigger] member_role_ids@[j]@),
        decreases member_role_ids@.len() - i,
    {
        if has_id_exec(subjects, member_role_ids[i].as_str()) {
            return true;
        }
        i += 1;
    }
    false
}

// ---------------------------------------------------------------------------
// Store versions
// ---------------------------------------------------------------------------

pub open spec fn stored_version(v: StoreVersionState, platform: StorePlatform) -> Option<Seq<char>> {
    match platform {
        StorePlatform::Android => match v.google_play {
            Some(x) => Some(x@),
            None => None,
        },
        StorePlatform::Ios => match v.app_store {
            Some(x) => Some(x@),
            None => None,
        },
    }
}

impl Default for StoreVersionState {
    /// No version known yet.
    fn default() -> (r: Self)
        ensures
            r.schema_version == 1,
            r.google_play is None,
            r.app_store is None,
    {
        StoreVersionState { schema_version: 1, google_play: None, app_store: None }
    }
}

impl StoreVersionState {
    /// The last version seen on a store.
    pub fn version(&self, platform: StorePlatform) -> (r: Option<&str>)
        ensures
            match r {
                Some(v) => stored_version(*self, platform) == Some(v@),
                None => stored_version(*self, platform) is None,
            },
    {
        match platform {
            StorePlatform::Android => match &self.google_play {
                Some(v) => Some(v.as_str()),
                None => None,
            },
            StorePlatform::Ios => match &self.app_store {
                Some(v) => Some(v.as_str()),
                None => None,
            },
        }
    }

    pub fn set_version(&mut self, platform: StorePlatform, version: String)
        ensures
            stored_version(*final(self), platform) == Some(version@),
            platform == StorePlatform::Android ==> final(self).app_store == old(self).app_store,
            platform == StorePlatform::Ios ==> final(self).google_play == old(self).google_play,
            final(self).schema_version == old(self).schema_version,
    {
        match platform {
            StorePlatform::Android => {
                self.google_play = Some(version);
            },
            StorePlatform::Ios => {
                self.app_store = Some(version);
            },
        }
    }
}

/// What recording a store version reads back, and that the other store's
/// version stays.
pub proof fn lemma_set_version_then_get(v: StoreVersionState, platform: StorePlatform, version: String)
    ensures
        stored_version(StoreVersionState {
            google_play: if platform == StorePlatform::Android { Some(version) } else { v.google_play },
            app_store: if platform == StorePlatform::Ios { Some(version) } else { v.app_store },
            ..v
        }, platform) == Some(version@),
{
}

/// A maintainer that was added is among the maintainers.
pub proof fn lemma_added_id_is_present(old_ids: Seq<String>, new_ids: Seq<String>, id: Seq<char>)
    requires
        texts(new_ids).to_multiset() == texts(old_ids).push(id).to_multiset(),
    ensures
        has_id(new_ids, id),
{
    assert(texts(old_ids).push(id)[texts(old_ids).len() as int] == id);
    assert(texts(old_ids).push(id).contains(id));
    vstd::seq_lib::to_multiset_contains(texts(old_ids).push(id), id);
    vstd::seq_lib::to_multiset_contains(texts(new_ids), id);
    assert(texts(new_ids).contains(id));
    let k = choose|k: int| 0 <= k < texts(new_ids).len() && texts(new_ids)[k] == id;
    assert(new_ids[k]@ == id);
}

/// An id that was removed is gone from the list.
pub proof fn lemma_removed_id_is_gone(ids: Seq<String>, id: Seq<char>)
    ensures
        !has_id(without_id(ids, id), id),
{
    ids.filter_lemma(|x: String| other_id(x, id));
    let w = without_id(ids, id);
    assert forall|i: int| 0 <= i < w.len() implies (#[trigger] w[i])@ != id by {
        assert(other_id(w[i], id));
    }
}

} // verus!
