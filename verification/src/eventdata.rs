//! The `eventdata` command: which event files are asked for, where they are
//! published, how they are checked, encrypted and requested.
use vstd::prelude::*;
use vstd::string::StringSliceAdditionalSpecFns;

use crate::settings::{hex_encode, spec_hex};
use crate::text::{append, append_str, chars_of, eq_str, lower_seq, spec_contains, string_of, to_lower};

verus! {

pub const OFFICIAL_ORIGIN: &'static str = "https://nyanko-events.ponosgames.com";

pub const KBC_ORIGIN: &'static str = "https://kbc-rakv0.vercel.app";

#[derive(Clone, Copy, Debug, PartialEq, Eq, Hash, Structural)]
pub enum EventDataType {
    Sale,
    Gatya,
    Item,
    Ad,
    Notice,
}

#[derive(Clone, Copy, Debug, PartialEq, Eq, Structural)]
pub enum EventCountry {
    Jp,
    En,
    Kr,
    Tw,
}

/// The kind a word names, in any letter case.
pub open spec fn spec_event_type(lower: Seq<char>) -> Option<EventDataType> {
    if lower == "sale"@ {
        Some(EventDataType::Sale)
    } else if lower == "gatya"@ {
        Some(EventDataType::Gatya)
    } else if lower == "item"@ {
        Some(EventDataType::Item)
    } else if lower == "ad"@ {
        Some(EventDataType::Ad)
    } else if lower == "notice"@ || lower == "popup_notice"@ || lower == "placement"@ {
        Some(EventDataType::Notice)
    } else {
        None
    }
}

pub open spec fn spec_type_label(t: EventDataType) -> Seq<char> {
    match t {
        EventDataType::Sale => "sale"@,
        EventDataType::Gatya => "gatya"@,
        EventDataType::Item => "item"@,
        EventDataType::Ad => "ad"@,
        EventDataType::Notice => "notice"@,
    }
}

/// The country a word names, in any letter case.
pub open spec fn spec_country(lower: Seq<char>) -> Option<EventCountry> {
    if lower == "jp"@ || lower == "ja"@ {
        Some(EventCountry::Jp)
    } else if lower == "en"@ {
        Some(EventCountry::En)
    } else if lower == "kr"@ || lower == "ko"@ {
        Some(EventCountry::Kr)
    } else if lower == "tw"@ {
        Some(EventCountry::Tw)
    } else {
        None
    }
}

impl EventDataType {
    pub fn parse(value: &str) -> (r: Option<EventDataType>)
        ensures
            r == spec_event_type(lower_seq(value@)),
    {
        let v = to_lower(chars_of(value).as_slice());
        if eq_str(v.as_slice(), "sale") {
            Some(EventDataType::Sale)
        } else if eq_str(v.as_slice(), "gatya") {
            Some(EventDataType::Gatya)
        } else if eq_str(v.as_slice(), "item") {
            Some(EventDataType::Item)
        } else if eq_str(v.as_slice(), "ad") {
            Some(EventDataType::Ad)
        } else if eq_str(v.as_slice(), "notice") || eq_str(v.as_slice(), "popup_notice") || eq_str(
            v.as_slice(),
            "placement",
        ) {
            Some(EventDataType::Notice)
        } else {
            None
        }
    }

    pub fn label(self) -> (r: &'static str)
        ensures
            r@ == spec_type_label(self),
    {
        match self {
            EventDataType::Sale => "sale",
            EventDataType::Gatya => "gatya",
            EventDataType::Item => "item",
            EventDataType::Ad => "ad",
            EventDataType::Notice => "notice",
        }
    }

    /// The schedule files need a signed token.
    pub fn needs_jwt(self) -> (r: bool)
        ensures
            r == (self == EventDataType::Sale || self == EventDataType::Gatya || self == EventDataType::Item),
    {
        match self {
            EventDataType::Sale | EventDataType::Gatya | EventDataType::Item => true,
            _ => false,
        }
    }
}

impl EventCountry {
    pub fn parse(value: &str) -> (r: Option<EventCountry>)
        ensures
            r == spec_country(lower_seq(value@)),
    {
        let v = to_lower(chars_of(value).as_slice());
        if eq_str(v.as_slice(), "jp") || eq_str(v.as_slice(), "ja") {
            Some(EventCountry::Jp)
        } else if eq_str(v.as_slice(), "en") {
            Some(EventCountry::En)
        } else if eq_str(v.as_slice(), "kr") || eq_str(v.as_slice(), "ko") {
            Some(EventCountry::Kr)
        } else if eq_str(v.as_slice(), "tw") {
            Some(EventCountry::Tw)
        } else {
            None
        }
    }
}

// ---------------------------------------------------------------------------
// Arguments
// ---------------------------------------------------------------------------

#[derive(Clone, Copy, Debug, PartialEq, Eq, Structural)]
pub struct SelectedRequest {
    pub data_type: EventDataType,
    pub country: EventCountry,
    pub file: bool,
    pub encrypted: bool,
    pub kbc: bool,
}

#[derive(Clone, Copy, Debug, PartialEq, Eq, Structural)]
pub enum EventDataRequest {
    DefaultLinks,
    All { country: EventCountry, file: bool, encrypted: bool, kbc: bool },
    Selected(SelectedRequest),
    Invalid,
}

/// The options read so far: the country and whether one was given, and the
/// file, encryption and KBC marks; none when an option repeats or a word is
/// unknown.
pub struct OptionScan {
    pub country: EventCountry,
    pub country_seen: bool,
    pub file: bool,
    pub encrypted: bool,
    pub kbc: bool,
}

pub open spec fn option_step(s: Option<OptionScan>, a: Seq<char>) -> Option<OptionScan> {
    match s {
        None => None,
        Some(s) => {
            let n = lower_seq(a);
            match spec_country(n) {
                Some(c) => if s.country_seen {
                    None
                } else {
                    Some(OptionScan { country: c, country_seen: true, ..s })
                },
                None => if n == "tsv"@ || n == "file"@ {
                    if s.file {
                        None
                    } else {
                        Some(OptionScan { file: true, ..s })
                    }
                } else if n == "enc"@ {
                    if s.encrypted {
                        None
                    } else {
                        Some(OptionScan { encrypted: true, ..s })
                    }
                } else if n == "kbc"@ {
                    if s.kbc {
                        None
                    } else {
                        Some(OptionScan { kbc: true, ..s })
                    }
                } else {
                    None
                },
            }
        },
    }
}

pub open spec fn scan_options(args: Seq<Seq<char>>) -> Option<OptionScan>
    decreases args.len(),
{
    if args.len() == 0 {
        Some(OptionScan { country: EventCountry::Jp, country_seen: false, file: false, encrypted: false, kbc: false })
    } else {
        option_step(scan_options(args.drop_last()), args.last())
    }
}

/// No arguments: the default links; else `all` or a kind, then options; an
/// encrypted file must be asked as a file or from KBC.
pub open spec fn spec_request(args: Seq<Seq<char>>) -> EventDataRequest {
    if args.len() == 0 {
        EventDataRequest::DefaultLinks
    } else {
        let all = lower_seq(args[0]) == "all"@;
        let kind = spec_event_type(lower_seq(args[0]));
        if !all && kind is None {
            EventDataRequest::Invalid
        } else {
            match scan_options(args.skip(1)) {
                None => EventDataRequest::Invalid,
                Some(s) => if s.encrypted && !s.file && !s.kbc {
                    EventDataRequest::Invalid
                } else if all {
                    EventDataRequest::All { country: s.country, file: s.file, encrypted: s.encrypted, kbc: s.kbc }
                } else {
                    EventDataRequest::Selected(
                        SelectedRequest {
                            data_type: kind->Some_0,
                            country: s.country,
                            file: s.file,
                            encrypted: s.encrypted,
                            kbc: s.kbc,
                        },
                    )
                },
            }
        }
    }
}

proof fn lemma_scan_none(args: Seq<Seq<char>>, k: int)
    requires
        0 <= k <= args.len(),
        scan_options(args.take(k)) is None,
    ensures
        scan_options(args) is None,
    decreases args.len() - k,
{
    if k < args.len() {
        assert(args.take(k + 1).drop_last() =~= args.take(k));
        lemma_scan_none(args, k + 1);
    } else {
        assert(args.take(k) =~= args);
    }
}

pub fn parse_request(arguments: &[String]) -> (r: EventDataRequest)
    ensures
        r == spec_request(crate::text::string_views(arguments@)),
{
    let ghost a = crate::text::string_views(arguments@);
    if arguments.len() == 0 {
        return EventDataRequest::DefaultLinks;
    }
    assert(a[0] == arguments@[0]@);
    let first = to_lower(chars_of(arguments[0].as_str()).as_slice());
    let all = eq_str(first.as_slice(), "all");
    let kind = if all {
        None
    } else {
        match EventDataType::parse(arguments[0].as_str()) {
            Some(t) => Some(t),
            None => {
                return EventDataRequest::Invalid;
            },
        }
    };
    assert(all || kind == spec_event_type(lower_seq(a[0])));
    let mut country = EventCountry::Jp;
    let mut country_seen = false;
    let mut file = false;
    let mut encrypted = false;
    let mut kbc = false;
    let mut i: usize = 1;
    assert(a.skip(1).take(0) =~= Seq::<Seq<char>>::empty());
    while i < arguments.len()
        invariant
            1 <= i <= arguments@.len(),
            a == crate::text::string_views(arguments@),
            scan_options(a.skip(1).take(i - 1)) == Some(
                OptionScan { country, country_seen, file, encrypted, kbc },
            ),
        decreases arguments@.len() - i,
    {
        assert(a.skip(1).take(i as int).drop_last() =~= a.skip(1).take(i - 1));
        assert(a.skip(1).take(i as int).last() == arguments@[i as int]@);
        let arg = arguments[i].as_str();
        let n = to_lower(chars_of(arg).as_slice());
        match EventCountry::parse(arg) {
            Some(c) => {
                if country_seen {
                    proof {
                        lemma_scan_none(a.skip(1), i as int);
                    }
                    return EventDataRequest::Invalid;
                }
                country = c;
                country_seen = true;
            },
            None => {
                if eq_str(n.as_slice(), "tsv") || eq_str(n.as_slice(), "file") {
                    if file {
                        proof {
                        lemma_scan_none(a.skip(1), i as int);
                    }
                    return EventDataRequest::Invalid;
                    }
                    file = true;
                } else if eq_str(n.as_slice(), "enc") {
                    if encrypted {
                        proof {
                        lemma_scan_none(a.skip(1), i as int);
                    }
                    return EventDataRequest::Invalid;
                    }
                    encrypted = true;
                } else if eq_str(n.as_slice(), "kbc") {
                    if kbc {
                        proof {
                        lemma_scan_none(a.skip(1), i as int);
                    }
                    return EventDataRequest::Invalid;
                    }
                    kbc = true;
                } else {
                    proof {
                        lemma_scan_none(a.skip(1), i as int);
                    }
                    return EventDataRequest::Invalid;
                }
            },
        }
        i += 1;
    }
    assert(a.skip(1).take(i - 1) =~= a.skip(1));
    if encrypted && !file && !kbc {
        return EventDataRequest::Invalid;
    }
    match kind {
        Some(data_type) => EventDataRequest::Selected(SelectedRequest { data_type, country, file, encrypted, kbc }),
        None => EventDataRequest::All { country, file, encrypted, kbc },
    }
}

// ---------------------------------------------------------------------------
// Where the files are
// ---------------------------------------------------------------------------

/// The product, the event directory and the signature salt of a country.
pub open spec fn spec_region(c: EventCountry) -> (Seq<char>, Seq<char>, Seq<char>) {
    match c {
        EventCountry::Jp => ("battlecats"@, "battlecats_production"@, "battlecats"@),
        EventCountry::En => ("battlecatsen"@, "battlecatsen_production"@, "battlecatsen"@),
        EventCountry::Kr => ("battlecatskr"@, "battlecatskr_production"@, "battlecatskr"@),
        EventCountry::Tw => ("battlecatstw"@, "battlecatstw_production"@, "battlecatstw"@),
    }
}

pub fn region_info(c: EventCountry) -> (r: (&'static str, &'static str, &'static str))
    ensures
        (r.0@, r.1@, r.2@) == spec_region(c),
{
    match c {
        EventCountry::Jp => ("battlecats", "battlecats_production", "battlecats"),
        EventCountry::En => ("battlecatsen", "battlecatsen_production", "battlecatsen"),
        EventCountry::Kr => ("battlecatskr", "battlecatskr_production", "battlecatskr"),
        EventCountry::Tw => ("battlecatstw", "battlecatstw_production", "battlecatstw"),
    }
}

/// The official address of a file: the ad and notice files are public; a
/// schedule file needs a token.
pub open spec fn spec_official_url(t: EventDataType, c: EventCountry, token: Option<Seq<char>>) -> Option<Seq<char>> {
    match t {
        EventDataType::Ad => Some(OFFICIAL_ORIGIN@ + "/control/ad/battlecats/adcontrol.json"@),
        EventDataType::Notice => Some(OFFICIAL_ORIGIN@ + "/control/placement/"@ + spec_region(c).0 + "/event.json"@),
        _ => match token {
            Some(tk) => Some(OFFICIAL_ORIGIN@ + "/"@ + spec_region(c).1 + "/"@ + spec_type_label(t) + ".tsv?jwt="@ + tk),
            None => None,
        },
    }
}

pub fn build_official_url(t: EventDataType, c: EventCountry, token: Option<&str>) -> (r: Option<String>)
    ensures
        match r {
            Some(u) => spec_official_url(t, c, match token {
                Some(x) => Some(x@),
                None => None,
            }) == Some(u@),
            None => spec_official_url(t, c, match token {
                Some(x) => Some(x@),
                None => None,
            }) is None,
        },
{
    let region = region_info(c);
    let mut v = chars_of(OFFICIAL_ORIGIN);
    match t {
        EventDataType::Ad => {
            append_str(&mut v, "/control/ad/battlecats/adcontrol.json");
        },
        EventDataType::Notice => {
            append_str(&mut v, "/control/placement/");
            append_str(&mut v, region.0);
            append_str(&mut v, "/event.json");
        },
        _ => {
            let tk = match token {
                Some(x) => x,
                None => {
                    return None;
                },
            };
            append_str(&mut v, "/");
            append_str(&mut v, region.1);
            append_str(&mut v, "/");
            append_str(&mut v, t.label());
            append_str(&mut v, ".tsv?jwt=");
            append_str(&mut v, tk);
        },
    }
    Some(string_of(v.as_slice()))
}

/// The address of a file on KBC, encrypted when asked.
pub open spec fn spec_kbc_url(t: EventDataType, c: EventCountry, encrypted: bool) -> Seq<char> {
    let path = match t {
        EventDataType::Ad => "control/ad/battlecats/adcontrol.json"@,
        EventDataType::Notice => "control/placement/"@ + spec_region(c).0 + "/event.json"@,
        _ => spec_region(c).1 + "/"@ + spec_type_label(t) + ".tsv"@,
    };
    KBC_ORIGIN@ + "/nyanko-events/"@ + path + if encrypted {
        "?enc=1"@
    } else {
        ""@
    }
}

pub fn build_kbc_url(t: EventDataType, c: EventCountry, encrypted: bool) -> (r: String)
    ensures
        r@ == spec_kbc_url(t, c, encrypted),
{
    let region = region_info(c);
    let mut v = chars_of(KBC_ORIGIN);
    append_str(&mut v, "/nyanko-events/");
    match t {
        EventDataType::Ad => {
            append_str(&mut v, "control/ad/battlecats/adcontrol.json");
        },
        EventDataType::Notice => {
            append_str(&mut v, "control/placement/");
            append_str(&mut v, region.0);
            append_str(&mut v, "/event.json");
        },
        _ => {
            append_str(&mut v, region.1);
            append_str(&mut v, "/");
            append_str(&mut v, t.label());
            append_str(&mut v, ".tsv");
        },
    }
    if encrypted {
        append_str(&mut v, "?enc=1");
    } else {
        append_str(&mut v, "");
    }
    string_of(v.as_slice())
}

/// The names of a file, plain and encrypted.
pub open spec fn spec_file_info(t: EventDataType) -> (Seq<char>, Seq<char>) {
    match t {
        EventDataType::Sale => ("sale.tsv"@, "002a4b18244f32d7833fd81bc833b97f.dat"@),
        EventDataType::Gatya => ("gatya.tsv"@, "09b1058188348630d98a08e0f731f6bd.dat"@),
        EventDataType::Item => ("item.tsv"@, "408f66def075926baea9466e70504a3b.dat"@),
        EventDataType::Ad => ("ad.json"@, "523af537946b79c4f8369ed39ba78605.dat"@),
        EventDataType::Notice => ("popup_notice.json"@, "e4698396f16e151d6634fee4dfa32741.dat"@),
    }
}

pub fn file_info(t: EventDataType) -> (r: (&'static str, &'static str))
    ensures
        (r.0@, r.1@) == spec_file_info(t),
{
    match t {
        EventDataType::Sale => ("sale.tsv", "002a4b18244f32d7833fd81bc833b97f.dat"),
        EventDataType::Gatya => ("gatya.tsv", "09b1058188348630d98a08e0f731f6bd.dat"),
        EventDataType::Item => ("item.tsv", "408f66def075926baea9466e70504a3b.dat"),
        EventDataType::Ad => ("ad.json", "523af537946b79c4f8369ed39ba78605.dat"),
        EventDataType::Notice => ("popup_notice.json", "e4698396f16e151d6634fee4dfa32741.dat"),
    }
}

/// The name of the attachment of a file.
pub fn attachment_name(t: EventDataType, encrypted: bool) -> (r: &'static str)
    ensures
        r@ == if encrypted {
            spec_file_info(t).1
        } else {
            spec_file_info(t).0
        },
{
    let (plain, enc) = file_info(t);
    if encrypted {
        enc
    } else {
        plain
    }
}

// ---------------------------------------------------------------------------
// Checking, encrypting and signing
// ---------------------------------------------------------------------------

pub uninterp spec fn json_object_of(text: Seq<char>) -> Result<bool, Seq<char>>;

/// `serde_json::from_str::<serde_json::Value>` read back through
/// `Value::is_object`; a text that is not JSON gives the error's message.
#[verifier::external_body]
fn json_object(text: &str) -> (r: Result<bool, String>)
    ensures
        match r {
            Ok(b) => json_object_of(text@) == Ok::<bool, Seq<char>>(b),
            Err(e) => json_object_of(text@) == Err::<bool, Seq<char>>(e@),
        },
{
    match serde_json::from_str::<serde_json::Value>(text) {
        Ok(value) => Ok(value.is_object()),
        Err(error) => Err(error.to_string()),
    }
}

pub open spec fn has_tab(text: Seq<char>) -> bool {
    exists|i: int| 0 <= i < text.len() && text[i] == '\t'
}

/// A file must not be empty and must be UTF-8; after any byte order marks,
/// the ad and notice files must be a JSON object and the others must hold a
/// tab.
pub open spec fn spec_validate(t: EventDataType, value: Seq<u8>) -> Result<(), Seq<char>> {
    if value.len() == 0 {
        Err("event data response is empty"@)
    } else if !vstd::utf8::valid_utf8(value) {
        Err("event data response is not UTF-8"@)
    } else {
        let text = crate::skd_parse::strip_boms(vstd::utf8::decode_utf8(value));
        match t {
            EventDataType::Ad | EventDataType::Notice => match json_object_of(text) {
                Err(e) => Err("event JSON is invalid: "@ + e),
                Ok(false) => Err("event JSON root is not an object"@),
                Ok(true) => Ok(()),
            },
            _ => if has_tab(text) {
                Ok(())
            } else {
                Err("event TSV has no tab-separated fields"@)
            },
        }
    }
}

pub fn validate_event_data(t: EventDataType, value: &[u8]) -> (r: Result<(), String>)
    ensures
        match r {
            Ok(()) => spec_validate(t, value@) == Ok::<(), Seq<char>>(()),
            Err(e) => spec_validate(t, value@) == Err::<(), Seq<char>>(e@),
        },
{
    if value.len() == 0 {
        return Err(string_of(chars_of("event data response is empty").as_slice()));
    }
    let decoded = match crate::motion_project::from_utf8(value) {
        Some(s) => s,
        None => {
            return Err(string_of(chars_of("event data response is not UTF-8").as_slice()));
        },
    };
    let text = crate::skd_parse::strip_boms_exec(chars_of(decoded.as_str()).as_slice());
    match t {
        EventDataType::Ad | EventDataType::Notice => match json_object(string_of(text.as_slice()).as_str()) {
            Err(e) => {
                let mut m = chars_of("event JSON is invalid: ");
                append(&mut m, chars_of(e.as_str()).as_slice());
                Err(string_of(m.as_slice()))
            },
            Ok(false) => Err(string_of(chars_of("event JSON root is not an object").as_slice())),
            Ok(true) => Ok(()),
        },
        _ => {
            if crate::text::contains_char(text.as_slice(), '\t') {
                Ok(())
            } else {
                Err(string_of(chars_of("event TSV has no tab-separated fields").as_slice()))
            }
        },
    }
}

pub uninterp spec fn aes128_ecb_of(key: Seq<u8>, data: Seq<u8>) -> Seq<u8>;

/// `ecb::Encryptor::<aes::Aes128>` made with `KeyInit::new_from_slice` from a
/// key of 16 bytes, then `BlockEncryptMut::encrypt_padded_vec_mut::<Pkcs7>`:
/// the data encrypted with AES-128 in ECB mode after PKCS#7 padding, which
/// always adds 1 to 16 bytes to reach whole blocks of 16.
#[verifier::external_body]
fn aes128_ecb(key: &[u8], data: &[u8]) -> (r: Vec<u8>)
    requires
        key@.len() == 16,
    ensures
        r@ == aes128_ecb_of(key@, data@),
        r@.len() == (data@.len() / 16 + 1) * 16,
{
    let encryptor = <ecb::Encryptor<aes::Aes128> as cipher::KeyInit>::new_from_slice(key).unwrap();
    cipher::BlockEncryptMut::encrypt_padded_vec_mut::<cipher::block_padding::Pkcs7>(encryptor, data)
}

/// The bytes of a text of ASCII characters.
pub open spec fn ascii_bytes(s: Seq<char>) -> Seq<u8> {
    s.map_values(|c: char| c as u8)
}

fn ascii_bytes_exec(s: &[char]) -> (r: Vec<u8>)
    requires
        forall|i: int| 0 <= i < s@.len() ==> (#[trigger] s@[i] as u32) < 128,
    ensures
        r@ == ascii_bytes(s@),
{
    let mut r: Vec<u8> = Vec::new();
    let mut i: usize = 0;
    while i < s.len()
        invariant
            i <= s@.len(),
            forall|k: int| 0 <= k < s@.len() ==> (#[trigger] s@[k] as u32) < 128,
            r@ == ascii_bytes(s@.take(i as int)),
        decreases s@.len() - i,
    {
        let c = s[i];
        assert((c as u32) < 128);
        r.push(c as u8);
        assert(r@ =~= ascii_bytes(s@.take(i + 1)));
        i += 1;
    }
    assert(s@.take(i as int) =~= s@);
    r
}

proof fn lemma_hex_ascii(bytes: Seq<u8>)
    ensures
        forall|i: int| 0 <= i < spec_hex(bytes).len() ==> (#[trigger] spec_hex(bytes)[i] as u32) < 128,
    decreases bytes.len(),
{
    if bytes.len() > 0 {
        lemma_hex_ascii(bytes.drop_last());
        crate::settings::lemma_hex_len(bytes.drop_last());
        let h = spec_hex(bytes);
        assert forall|i: int| 0 <= i < h.len() implies (#[trigger] h[i] as u32) < 128 by {
            if i < spec_hex(bytes.drop_last()).len() {
                assert(h[i] == spec_hex(bytes.drop_last())[i]);
            } else {
                crate::settings::lemma_hex_digit_ascii(bytes.last() / 16);
                crate::settings::lemma_hex_digit_ascii(bytes.last() % 16);
            }
        }
    }
}

/// The key of the encryption: the first 16 characters of the hexadecimal
/// MD5 digest of `battlecats`.
pub open spec fn event_key() -> Seq<u8> {
    ascii_bytes(spec_hex(crate::skd_history::md5_of(ascii_bytes("battlecats"@)))).take(16)
}

/// An encrypted file: the encrypted data, then the hexadecimal MD5 digest
/// of the country's salt followed by the encrypted data.
pub open spec fn spec_encrypt(value: Seq<u8>, c: EventCountry) -> Seq<u8> {
    let cipher = aes128_ecb_of(event_key(), value);
    cipher + ascii_bytes(spec_hex(crate::skd_history::md5_of(ascii_bytes(spec_region(c).2) + cipher)))
}

pub fn encrypt_event_data(value: &[u8], c: EventCountry) -> (r: Vec<u8>)
    ensures
        r@ == spec_encrypt(value@, c),
{
    proof {
        reveal_strlit("battlecats");
        reveal_strlit("battlecatsen");
        reveal_strlit("battlecatskr");
        reveal_strlit("battlecatstw");
    }
    let word = chars_of("battlecats");
    let digest = crate::skd_history::md5(ascii_bytes_exec(word.as_slice()).as_slice());
    let key_hex = chars_of(hex_encode(digest.as_slice()).as_str());
    proof {
        lemma_hex_ascii(digest@);
        crate::settings::lemma_hex_len(digest@);
    }
    let key_all = ascii_bytes_exec(key_hex.as_slice());
    let key = crate::text::slice_bytes(key_all.as_slice(), 0, 16);
    assert(key@ =~= event_key());
    let cipher = aes128_ecb(key.as_slice(), value);
    let salt = chars_of(region_info(c).2);
    let mut input = ascii_bytes_exec(salt.as_slice());
    let mut k: usize = 0;
    let ghost start = input@;
    while k < cipher.len()
        invariant
            k <= cipher@.len(),
            input@ == start + cipher@.take(k as int),
        decreases cipher@.len() - k,
    {
        input.push(cipher[k]);
        assert(input@ =~= start + cipher@.take(k + 1));
        k += 1;
    }
    assert(cipher@.take(k as int) =~= cipher@);
    let signature = crate::skd_history::md5(input.as_slice());
    let sig_hex = chars_of(hex_encode(signature.as_slice()).as_str());
    proof {
        lemma_hex_ascii(signature@);
    }
    let sig_bytes = ascii_bytes_exec(sig_hex.as_slice());
    let mut out = cipher;
    let ghost c0 = out@;
    let mut j: usize = 0;
    while j < sig_bytes.len()
        invariant
            j <= sig_bytes@.len(),
            out@ == c0 + sig_bytes@.take(j as int),
        decreases sig_bytes@.len() - j,
    {
        out.push(sig_bytes[j]);
        assert(out@ =~= c0 + sig_bytes@.take(j + 1));
        j += 1;
    }
    assert(sig_bytes@.take(j as int) =~= sig_bytes@);
    out
}

pub uninterp spec fn hmac_sha256_of(key: Seq<u8>, data: Seq<u8>) -> Seq<u8>;

/// `hmac::Hmac::<sha2::Sha256>` made with `Mac::new_from_slice`, which takes
/// a key of any length, then `update` and `finalize`: the 32 bytes of the
/// HMAC-SHA256 of the data.
#[verifier::external_body]
fn hmac_sha256(key: &[u8], data: &[u8]) -> (r: Vec<u8>)
    ensures
        r@ == hmac_sha256_of(key@, data@),
        r@.len() == 32,
{
    let mut mac = <hmac::Hmac<sha2::Sha256> as hmac::Mac>::new_from_slice(key).unwrap();
    hmac::Mac::update(&mut mac, data);
    hmac::Mac::finalize(mac).into_bytes().to_vec()
}

/// `getrandom::fill` of `n` bytes; what the bytes are, and whether the
/// system gives them, is left to chance. A failure gives its message.
#[verifier::external_body]
fn random_bytes(n: usize) -> (r: Result<Vec<u8>, String>)
    ensures
        r matches Ok(b) ==> b@.len() == n,
{
    let mut bytes = vec![0u8; n];
    match getrandom::fill(&mut bytes) {
        Ok(()) => Ok(bytes),
        Err(error) => Err(error.to_string()),
    }
}

/// The headers that sign a request body: the signature is the random data
/// in hexadecimal, then the hexadecimal HMAC-SHA256 of the body keyed by the
/// UTF-8 of the account code followed by that random data.
pub open spec fn spec_signed_headers(account_code: Seq<char>, timestamp: i64, body: Seq<u8>, random: Seq<u8>) -> Seq<(Seq<char>, Seq<char>)> {
    let random_data = spec_hex(random);
    let key = vstd::utf8::encode_utf8(account_code + random_data);
    seq![
        ("content-type"@, "application/json"@),
        ("nyanko-signature"@, random_data + spec_hex(hmac_sha256_of(key, body))),
        ("nyanko-timestamp"@, crate::text::decimal_int(timestamp as int)),
        ("nyanko-signature-version"@, "1"@),
        ("nyanko-signature-algorithm"@, "HMACSHA256"@),
    ]
}

pub open spec fn header_views(v: Seq<(String, String)>) -> Seq<(Seq<char>, Seq<char>)> {
    v.map_values(|p: (String, String)| (p.0@, p.1@))
}

fn owned(s: &str) -> (r: String)
    ensures
        r@ == s@,
{
    string_of(chars_of(s).as_slice())
}

/// The signing headers for given random bytes.
pub fn signed_headers_with(account_code: &str, timestamp: i64, body: &[u8], random: &[u8]) -> (r: Vec<(String, String)>)
    ensures
        header_views(r@) == spec_signed_headers(account_code@, timestamp, body@, random@),
{
    let random_data = hex_encode(random);
    let mut key_text = chars_of(account_code);
    append(&mut key_text, chars_of(random_data.as_str()).as_slice());
    let key_string = string_of(key_text.as_slice());
    let key = key_string.as_str().as_bytes();
    let mac = hmac_sha256(key, body);
    let mut signature = chars_of(random_data.as_str());
    append(&mut signature, chars_of(hex_encode(mac.as_slice()).as_str()).as_slice());
    let mut r: Vec<(String, String)> = Vec::new();
    r.push((owned("content-type"), owned("application/json")));
    r.push((owned("nyanko-signature"), string_of(signature.as_slice())));
    r.push((owned("nyanko-timestamp"), string_of(crate::text::fmt_i64(timestamp).as_slice())));
    r.push((owned("nyanko-signature-version"), owned("1")));
    r.push((owned("nyanko-signature-algorithm"), owned("HMACSHA256")));
    assert(header_views(r@) =~= spec_signed_headers(account_code@, timestamp, body@, random@));
    r
}

/// The signing headers with 32 random bytes from the system; a failure to
/// get them is reported.
pub fn signed_headers(account_code: &str, timestamp: i64, body: &[u8]) -> (r: Result<Vec<(String, String)>, String>)
    ensures
        match r {
            Ok(h) => exists|random: Seq<u8>| random.len() == 32 && header_views(h@) == spec_signed_headers(
                account_code@,
                timestamp,
                body@,
                random,
            ),
            Err(e) => exists|m: Seq<char>| e@ == "secure random generation failed: "@ + m,
        },
{
    match random_bytes(32) {
        Ok(b) => Ok(signed_headers_with(account_code, timestamp, body, b.as_slice())),
        Err(error) => {
            let mut m = chars_of("secure random generation failed: ");
            append(&mut m, chars_of(error.as_str()).as_slice());
            let e = string_of(m.as_slice());
            assert(e@ == "secure random generation failed: "@ + error@);
            Err(e)
        },
    }
}

// ---------------------------------------------------------------------------
// Links
// ---------------------------------------------------------------------------

/// Some kind needs a signed token.
pub open spec fn any_needs_jwt(types: Seq<EventDataType>) -> bool {
    exists|i: int| 0 <= i < types.len() && (types[i] == EventDataType::Sale || types[i] == EventDataType::Gatya || types[i]
        == EventDataType::Item)
}

pub fn needs_token(types: &[EventDataType]) -> (r: bool)
    ensures
        r == any_needs_jwt(types@),
{
    let mut i: usize = 0;
    while i < types.len()
        invariant
            i <= types@.len(),
            forall|k: int| 0 <= k < i ==> !(types@[k] == EventDataType::Sale || types@[k] == EventDataType::Gatya || types@[k]
                == EventDataType::Item),
        decreases types@.len() - i,
    {
        if types[i].needs_jwt() {
            return true;
        }
        i += 1;
    }
    false
}

/// The official link of each kind, in order; a schedule kind without a token
/// fails.
pub open spec fn spec_official_links(types: Seq<EventDataType>, c: EventCountry, token: Option<Seq<char>>) -> Result<Seq<(EventDataType, Seq<char>)>, Seq<char>>
    decreases types.len(),
{
    if types.len() == 0 {
        Ok(Seq::empty())
    } else {
        match spec_official_links(types.drop_last(), c, token) {
            Err(e) => Err(e),
            Ok(prev) => match spec_official_url(types.last(), c, token) {
                None => Err("official event URL could not be created"@),
                Some(u) => Ok(prev.push((types.last(), u))),
            },
        }
    }
}

pub open spec fn link_views(v: Seq<(EventDataType, String)>) -> Seq<(EventDataType, Seq<char>)> {
    v.map_values(|p: (EventDataType, String)| (p.0, p.1@))
}

proof fn lemma_links_err(types: Seq<EventDataType>, c: EventCountry, token: Option<Seq<char>>, k: int)
    requires
        0 <= k <= types.len(),
        spec_official_links(types.take(k), c, token) is Err,
    ensures
        spec_official_links(types, c, token) == spec_official_links(types.take(k), c, token),
    decreases types.len() - k,
{
    if k < types.len() {
        assert(types.take(k + 1).drop_last() =~= types.take(k));
        lemma_links_err(types, c, token, k + 1);
    } else {
        assert(types.take(k) =~= types);
    }
}

pub fn official_links(types: &[EventDataType], c: EventCountry, token: Option<&str>) -> (r: Result<Vec<(EventDataType, String)>, String>)
    ensures
        match r {
            Ok(v) => spec_official_links(types@, c, match token {
                Some(x) => Some(x@),
                None => None,
            }) == Ok::<Seq<(EventDataType, Seq<char>)>, Seq<char>>(link_views(v@)),
            Err(e) => spec_official_links(types@, c, match token {
                Some(x) => Some(x@),
                None => None,
            }) == Err::<Seq<(EventDataType, Seq<char>)>, Seq<char>>(e@),
        },
{
    let ghost tk = match token {
        Some(x) => Some(x@),
        None => None,
    };
    let mut r: Vec<(EventDataType, String)> = Vec::new();
    let mut i: usize = 0;
    assert(types@.take(0) =~= Seq::<EventDataType>::empty());
    assert(link_views(r@) =~= Seq::<(EventDataType, Seq<char>)>::empty());
    while i < types.len()
        invariant
            i <= types@.len(),
            tk == match token {
                Some(x) => Some(x@),
                None => None::<Seq<char>>,
            },
            spec_official_links(types@.take(i as int), c, tk) == Ok::<Seq<(EventDataType, Seq<char>)>, Seq<char>>(link_views(r@)),
        decreases types@.len() - i,
    {
        assert(types@.take(i + 1).drop_last() =~= types@.take(i as int));
        assert(types@.take(i + 1).last() == types@[i as int]);
        match build_official_url(types[i], c, token) {
            None => {
                let e = owned("official event URL could not be created");
                proof {
                    lemma_links_err(types@, c, tk, i + 1);
                }
                return Err(e);
            },
            Some(u) => {
                let ghost before = link_views(r@);
                let ghost uv = u@;
                r.push((types[i], u));
                assert(link_views(r@) =~= before.push((types@[i as int], uv)));
            },
        }
        i += 1;
    }
    assert(types@.take(i as int) =~= types@);
    Ok(r)
}

/// The link given for a kind, or nothing.
pub open spec fn link_of(links: Seq<(EventDataType, Seq<char>)>, t: EventDataType) -> Seq<char>
    decreases links.len(),
{
    if links.len() == 0 {
        Seq::empty()
    } else if links[0].0 == t {
        links[0].1
    } else {
        link_of(links.drop_first(), t)
    }
}

/// `[{kind}]` and its link, for each kind, separated by blank lines.
pub open spec fn spec_links_text(types: Seq<EventDataType>, links: Seq<(EventDataType, Seq<char>)>) -> Seq<char> {
    crate::text::spec_join(
        types.map_values(|t: EventDataType| "["@ + spec_type_label(t) + "]\n"@ + link_of(links, t)),
        "\n\n"@,
    )
}

fn find_link(links: &Vec<(EventDataType, String)>, t: EventDataType) -> (r: String)
    ensures
        r@ == link_of(link_views(links@), t),
{
    let ghost lv = link_views(links@);
    let mut i: usize = 0;
    assert(lv.skip(0) =~= lv);
    while i < links.len()
        invariant
            i <= links@.len(),
            lv == link_views(links@),
            link_of(lv, t) == link_of(lv.skip(i as int), t),
        decreases links@.len() - i,
    {
        assert(lv.skip(i as int)[0] == (links@[i as int].0, links@[i as int].1@));
        if links[i].0 == t {
            return string_of(chars_of(links[i].1.as_str()).as_slice());
        }
        assert(lv.skip(i as int).drop_first() =~= lv.skip(i + 1));
        i += 1;
    }
    String::new()
}

pub fn format_links(types: &[EventDataType], links: &Vec<(EventDataType, String)>) -> (r: String)
    ensures
        r@ == spec_links_text(types@, link_views(links@)),
{
    let ghost lv = link_views(links@);
    let mut parts: Vec<Vec<char>> = Vec::new();
    let mut i: usize = 0;
    while i < types.len()
        invariant
            i <= types@.len(),
            lv == link_views(links@),
            crate::text::views(parts@) == types@.take(i as int).map_values(
                |t: EventDataType| "["@ + spec_type_label(t) + "]\n"@ + link_of(lv, t),
            ),
        decreases types@.len() - i,
    {
        let mut p = chars_of("[");
        append_str(&mut p, types[i].label());
        append_str(&mut p, "]\n");
        append(&mut p, chars_of(find_link(links, types[i]).as_str()).as_slice());
        let ghost before = crate::text::views(parts@);
        let ghost pv = p@;
        assert(pv == "["@ + spec_type_label(types@[i as int]) + "]\n"@ + link_of(lv, types@[i as int]));
        parts.push(p);
        assert(crate::text::views(parts@) =~= before.push(pv));
        assert(crate::text::views(parts@) =~= types@.take(i + 1).map_values(
            |t: EventDataType| "["@ + spec_type_label(t) + "]\n"@ + link_of(lv, t),
        ));
        i += 1;
    }
    assert(types@.take(i as int) =~= types@);
    string_of(crate::text::join_str(parts.as_slice(), "\n\n").as_slice())
}

} // verus!
