//! Arguments of the `item` command and the cleaning of gift descriptions.
use vstd::prelude::*;

use crate::text::{
    append, append_str, chars_of, chars_of_all, contains, eq_ignore_case, eq_str, find_char,
    fmt_i64, is_all_digits, is_scalar, join_str, lines, lower_seq, occurs_at, parse_hex_u32,
    parse_hex_u32_spec, parse_i64, parse_i64_spec, parse_u32, parse_u32_spec, replace_str, slice,
    spec_contains, spec_find, spec_join, spec_lines, spec_replace, spec_trim, spec_trim_end,
    string_of, string_views, to_lower, trim, trim_end, views, all_digits, char_from_u32,
    decimal_int,
};

verus! {

/// The largest integer that a JSON number holds exactly.
pub const MAX_SAFE_INTEGER: i64 = 9_007_199_254_740_991;

#[derive(Clone, Copy, Debug, PartialEq, Eq, Structural)]
pub enum ItemRequest {
    Schedule,
    Detail { id: i64 },
    Json { id: i64 },
    Raw { id: i64 },
    Usage,
}

/// An item id: ASCII digits only, at most `MAX_SAFE_INTEGER`.
pub open spec fn spec_id(value: Seq<char>) -> Option<i64> {
    if value.len() > 0 && all_digits(value) {
        match parse_i64_spec(value) {
            Some(id) => if id <= MAX_SAFE_INTEGER {
                Some(id)
            } else {
                None
            },
            None => None,
        }
    } else {
        None
    }
}

pub open spec fn is_word(value: Seq<char>, short: Seq<char>, long: Seq<char>) -> bool {
    lower_seq(value) == lower_seq(short) || lower_seq(value) == lower_seq(long)
}

/// No argument: the schedule; an id: its detail; an id with `j`/`json` or
/// `r`/`raw`: its JSON; anything else: the usage.
pub open spec fn spec_request(args: Seq<Seq<char>>) -> ItemRequest {
    if args.len() == 0 {
        ItemRequest::Schedule
    } else if args.len() == 1 {
        match spec_id(args[0]) {
            Some(id) => ItemRequest::Detail { id },
            None => ItemRequest::Usage,
        }
    } else if args.len() == 2 && spec_id(args[0]) is Some {
        if is_word(args[1], "j"@, "json"@) {
            ItemRequest::Json { id: spec_id(args[0]).unwrap() }
        } else if is_word(args[1], "r"@, "raw"@) {
            ItemRequest::Raw { id: spec_id(args[0]).unwrap() }
        } else {
            ItemRequest::Usage
        }
    } else {
        ItemRequest::Usage
    }
}

pub fn parse_id(value: &[char]) -> (r: Option<i64>)
    ensures
        r == spec_id(value@),
{
    if value.len() == 0 || !is_all_digits(value) {
        return None;
    }
    match parse_i64(value) {
        Some(id) => if id <= MAX_SAFE_INTEGER {
            Some(id)
        } else {
            None
        },
        None => None,
    }
}

/// Reads the arguments of `item`.
pub fn parse_request(arguments: &[String]) -> (r: ItemRequest)
    ensures
        r == spec_request(string_views(arguments@)),
{
    let args = chars_of_all(arguments);
    let ghost a = string_views(arguments@);
    if args.len() == 0 {
        return ItemRequest::Schedule;
    }
    assert(args@[0]@ == a[0]);
    let id = parse_id(args[0].as_slice());
    if args.len() == 1 {
        return match id {
            Some(id) => ItemRequest::Detail { id },
            None => ItemRequest::Usage,
        };
    }
    if args.len() == 2 {
        let id = match id {
            Some(id) => id,
            None => {
                return ItemRequest::Usage;
            },
        };
        assert(args@[1]@ == a[1]);
        if eq_ignore_case(args[1].as_slice(), "j") || eq_ignore_case(args[1].as_slice(), "json") {
            return ItemRequest::Json { id };
        }
        if eq_ignore_case(args[1].as_slice(), "r") || eq_ignore_case(args[1].as_slice(), "raw") {
            return ItemRequest::Raw { id };
        }
    }
    ItemRequest::Usage
}

/// The reply when no entry has the id as gift type or event id.
pub fn not_found_message(id: i64) -> (r: String)
    ensures
        r@ == "❌ `"@ + decimal_int(id as int) + "` は giftType・eventID のどちらでも見つかりませんでした"@,
{
    let mut v: Vec<char> = Vec::new();
    append_str(&mut v, "❌ `");
    let n = fmt_i64(id);
    append(&mut v, n.as_slice());
    append_str(&mut v, "` は giftType・eventID のどちらでも見つかりませんでした");
    string_of(v.as_slice())
}

// ---------------------------------------------------------------------------
// HTML entities
// ---------------------------------------------------------------------------

/// The character that an entity's code (the text between `&` and `;`)
/// stands for: a few names in any case, `#x` hexadecimal or `#` decimal
/// scalar values.
pub open spec fn spec_entity(code: Seq<char>) -> Option<char> {
    let l = lower_seq(code);
    if l == "amp"@ {
        Some('&')
    } else if l == "apos"@ {
        Some('\'')
    } else if l == "gt"@ {
        Some('>')
    } else if l == "lt"@ {
        Some('<')
    } else if l == "nbsp"@ {
        Some(' ')
    } else if l == "quot"@ {
        Some('"')
    } else if code.len() >= 2 && code[0] == '#' && (code[1] == 'x' || code[1] == 'X') {
        match parse_hex_u32_spec(code.skip(2)) {
            Some(v) => if is_scalar(v) {
                Some(v as char)
            } else {
                None
            },
            None => None,
        }
    } else if code.len() >= 1 && code[0] == '#' {
        match parse_u32_spec(code.skip(1)) {
            Some(v) => if is_scalar(v) {
                Some(v as char)
            } else {
                None
            },
            None => None,
        }
    } else {
        None
    }
}

/// Every `&code;` whose code names a character replaced by it; an unknown
/// entity stays as written, and an `&` with no `;` after it ends the
/// decoding.
pub open spec fn spec_decode_entities(s: Seq<char>) -> Seq<char>
    decreases s.len(),
{
    if s.len() == 0 {
        s
    } else if s[0] != '&' {
        seq![s[0]] + spec_decode_entities(s.drop_first())
    } else {
        match spec_find(s, ';') {
            None => s,
            Some(end) => if 0 < end < s.len() {
                (match spec_entity(s.subrange(1, end)) {
                    Some(c) => seq![c],
                    None => s.take(end + 1),
                }) + spec_decode_entities(s.skip(end + 1))
            } else {
                s
            },
        }
    }
}

pub fn entity(code: &[char]) -> (r: Option<char>)
    ensures
        r == spec_entity(code@),
{
    let l = to_lower(code);
    if eq_str(l.as_slice(), "amp") {
        Some('&')
    } else if eq_str(l.as_slice(), "apos") {
        Some('\'')
    } else if eq_str(l.as_slice(), "gt") {
        Some('>')
    } else if eq_str(l.as_slice(), "lt") {
        Some('<')
    } else if eq_str(l.as_slice(), "nbsp") {
        Some(' ')
    } else if eq_str(l.as_slice(), "quot") {
        Some('"')
    } else if code.len() >= 2 && code[0] == '#' && (code[1] == 'x' || code[1] == 'X') {
        let digits = slice(code, 2, code.len());
        assert(digits@ =~= code@.skip(2));
        match parse_hex_u32(digits.as_slice()) {
            Some(v) => char_from_u32(v),
            None => None,
        }
    } else if code.len() >= 1 && code[0] == '#' {
        let digits = slice(code, 1, code.len());
        assert(digits@ =~= code@.skip(1));
        match parse_u32(digits.as_slice()) {
            Some(v) => char_from_u32(v),
            None => None,
        }
    } else {
        None
    }
}

pub fn decode_entities(s: &[char]) -> (r: Vec<char>)
    ensures
        r@ == spec_decode_entities(s@),
{
    let mut out: Vec<char> = Vec::new();
    let mut i: usize = 0;
    assert(s@.skip(0) =~= s@);
    while i < s.len()
        invariant
            i <= s@.len(),
            out@ + spec_decode_entities(s@.skip(i as int)) == spec_decode_entities(s@),
        decreases s@.len() - i,
    {
        let ghost rest = s@.skip(i as int);
        let ghost before = out@;
        if s[i] != '&' {
            out.push(s[i]);
            assert(rest.drop_first() =~= s@.skip(i + 1));
            assert(out@ + spec_decode_entities(s@.skip(i + 1)) =~= before + (seq![rest[0]]
                + spec_decode_entities(rest.drop_first())));
            i += 1;
        } else {
            let tail = slice(s, i, s.len());
            assert(tail@ =~= rest);
            match find_char(tail.as_slice(), ';') {
                None => {
                    append(&mut out, tail.as_slice());
                    assert(s@.skip(s@.len() as int) =~= Seq::<char>::empty());
                    assert(out@ + spec_decode_entities(s@.skip(s@.len() as int)) =~= before + rest);
                    i = s.len();
                },
                Some(end) => {
                    proof {
                        crate::text::lemma_find(rest, ';');
                    }
                    let code = slice(tail.as_slice(), 1, end);
                    assert(code@ =~= rest.subrange(1, end as int));
                    match entity(code.as_slice()) {
                        Some(c) => {
                            out.push(c);
                        },
                        None => {
                            let raw = slice(tail.as_slice(), 0, end + 1);
                            assert(raw@ =~= rest.take(end + 1));
                            append(&mut out, raw.as_slice());
                        },
                    }
                    assert(rest.skip(end + 1) =~= s@.skip(i + end + 1));
                    assert(out@ + spec_decode_entities(s@.skip(i + end + 1)) =~= before + ((match spec_entity(rest.subrange(1, end as int)) {
                        Some(c) => seq![c],
                        None => rest.take(end + 1),
                    }) + spec_decode_entities(rest.skip(end + 1))));
                    i = i + end + 1;
                },
            }
        }
    }
    assert(out@ + spec_decode_entities(s@.skip(i as int)) =~= out@);
    out
}

/// Decodes the HTML entities of a text.
pub fn decode_html_entities(value: &str) -> (r: String)
    ensures
        r@ == spec_decode_entities(value@),
{
    let s = chars_of(value);
    let d = decode_entities(s.as_slice());
    string_of(d.as_slice())
}

// ---------------------------------------------------------------------------
// Markup
// ---------------------------------------------------------------------------

/// The six spellings of an HTML line break, each replaced in turn.
pub open spec fn spec_breaks(s: Seq<char>, rep: Seq<char>) -> Seq<char> {
    let a = spec_replace(s, "<br>"@, rep);
    let b = spec_replace(a, "<BR>"@, rep);
    let c = spec_replace(b, "<br/>"@, rep);
    let d = spec_replace(c, "<BR/>"@, rep);
    let e = spec_replace(d, "<br />"@, rep);
    spec_replace(e, "<BR />"@, rep)
}

pub fn replace_breaks(value: &[char], replacement: &str) -> (r: Vec<char>)
    ensures
        r@ == spec_breaks(value@, replacement@),
{
    proof {
        reveal_strlit("<br>");
        reveal_strlit("<BR>");
        reveal_strlit("<br/>");
        reveal_strlit("<BR/>");
        reveal_strlit("<br />");
        reveal_strlit("<BR />");
    }
    let a = replace_str(value, "<br>", replacement);
    let b = replace_str(a.as_slice(), "<BR>", replacement);
    let c = replace_str(b.as_slice(), "<br/>", replacement);
    let d = replace_str(c.as_slice(), "<BR/>", replacement);
    let e = replace_str(d.as_slice(), "<br />", replacement);
    replace_str(e.as_slice(), "<BR />", replacement)
}

/// HTML line breaks of a text turned into line feeds.
pub fn replace_html_breaks(value: &str) -> (r: String)
    ensures
        r@ == spec_breaks(value@, "\n"@),
{
    let s = chars_of(value);
    let r = replace_breaks(s.as_slice(), "\n");
    string_of(r.as_slice())
}

/// The text outside `<...>` tags, scanning from the left: `<` opens a tag,
/// `>` closes an open one.
pub open spec fn strip_tags_from(s: Seq<char>, inside: bool) -> Seq<char>
    decreases s.len(),
{
    if s.len() == 0 {
        s
    } else if s[0] == '<' {
        strip_tags_from(s.drop_first(), true)
    } else if s[0] == '>' && inside {
        strip_tags_from(s.drop_first(), false)
    } else if !inside {
        seq![s[0]] + strip_tags_from(s.drop_first(), inside)
    } else {
        strip_tags_from(s.drop_first(), inside)
    }
}

pub open spec fn spec_strip_tags(s: Seq<char>) -> Seq<char> {
    strip_tags_from(s, false)
}

pub fn strip_tags(s: &[char]) -> (r: Vec<char>)
    ensures
        r@ == spec_strip_tags(s@),
{
    let mut out: Vec<char> = Vec::new();
    let mut inside = false;
    let mut i: usize = 0;
    assert(s@.skip(0) =~= s@);
    while i < s.len()
        invariant
            i <= s@.len(),
            out@ + strip_tags_from(s@.skip(i as int), inside) == spec_strip_tags(s@),
        decreases s@.len() - i,
    {
        let ghost rest = s@.skip(i as int);
        let ghost before = out@;
        let ghost was = inside;
        assert(rest.drop_first() =~= s@.skip(i + 1));
        let c = s[i];
        if c == '<' {
            inside = true;
        } else if c == '>' && inside {
            inside = false;
        } else if !inside {
            out.push(c);
            assert(out@ + strip_tags_from(s@.skip(i + 1), inside) =~= before + (seq![c]
                + strip_tags_from(rest.drop_first(), was)));
        }
        i += 1;
    }
    assert(out@ + strip_tags_from(s@.skip(i as int), inside) =~= out@);
    out
}

// ---------------------------------------------------------------------------
// Gift descriptions
// ---------------------------------------------------------------------------

pub proof fn lemma_replace_len(s: Seq<char>, pat: Seq<char>, rep: Seq<char>)
    requires
        pat.len() > 0,
        rep.len() <= pat.len(),
    ensures
        spec_replace(s, pat, rep).len() <= s.len(),
        spec_contains(s, pat) && rep.len() < pat.len() ==> spec_replace(s, pat, rep).len()
            < s.len(),
    decreases s.len(),
{
    if s.len() < pat.len() {
        if spec_contains(s, pat) {
            let i = choose|i: int| occurs_at(s, pat, i);
        }
    } else if s.take(pat.len() as int) == pat {
        lemma_replace_len(s.skip(pat.len() as int), pat, rep);
    } else {
        lemma_replace_len(s.drop_first(), pat, rep);
        if spec_contains(s, pat) {
            let i = choose|i: int| occurs_at(s, pat, i);
            assert(i != 0);
            assert(s.drop_first().subrange(i - 1, i - 1 + pat.len()) =~= s.subrange(i, i
                + pat.len()));
            assert(occurs_at(s.drop_first(), pat, i - 1));
        }
    }
}

/// Runs of three or more line feeds shortened until none is left.
pub open spec fn spec_collapse(s: Seq<char>) -> Seq<char>
    decreases s.len(),
{
    if spec_contains(s, "\n\n\n"@) {
        proof {
            reveal_strlit("\n\n\n");
            reveal_strlit("\n\n");
            lemma_replace_len(s, "\n\n\n"@, "\n\n"@);
        }
        spec_collapse(spec_replace(s, "\n\n\n"@, "\n\n"@))
    } else {
        s
    }
}

/// What a gift description shows: entities decoded, breaks as line feeds,
/// tags removed, line ends normalised and trailing blanks of each line
/// dropped, blank runs shortened to one empty line, the whole trimmed.
pub open spec fn spec_gift_detail(value: Seq<char>) -> Seq<char> {
    let a = spec_decode_entities(value);
    let b = spec_breaks(a, "\n"@);
    let c = spec_strip_tags(b);
    let d = spec_replace(spec_replace(c, "\r\n"@, "\n"@), "\r"@, "\n"@);
    let e = spec_join(spec_lines(d).map_values(|l: Seq<char>| spec_trim_end(l)), "\n"@);
    spec_trim(spec_collapse(e))
}

fn trim_line_ends(ls: &Vec<Vec<char>>) -> (r: Vec<Vec<char>>)
    ensures
        views(r@) == views(ls@).map_values(|l: Seq<char>| spec_trim_end(l)),
{
    let mut r: Vec<Vec<char>> = Vec::new();
    let mut i: usize = 0;
    while i < ls.len()
        invariant
            i <= ls@.len(),
            views(r@) == views(ls@).take(i as int).map_values(|l: Seq<char>| spec_trim_end(l)),
        decreases ls@.len() - i,
    {
        let t = trim_end(ls[i].as_slice());
        let ghost before = r@;
        r.push(t);
        assert(views(r@) =~= views(before).push(spec_trim_end(ls@[i as int]@)));
        assert(views(ls@).take(i + 1) =~= views(ls@).take(i as int).push(ls@[i as int]@));
        assert(views(r@) =~= views(ls@).take(i + 1).map_values(|l: Seq<char>| spec_trim_end(l)));
        i += 1;
    }
    assert(views(ls@).take(i as int) =~= views(ls@));
    r
}

pub fn format_gift_detail(value: &str) -> (r: String)
    ensures
        r@ == spec_gift_detail(value@),
{
    proof {
        reveal_strlit("\r\n");
        reveal_strlit("\r");
        reveal_strlit("\n\n\n");
        reveal_strlit("\n\n");
    }
    let decoded = decode_html_entities(value);
    let dv = chars_of(decoded.as_str());
    let with_breaks = replace_breaks(dv.as_slice(), "\n");
    let stripped = strip_tags(with_breaks.as_slice());
    let crlf = replace_str(stripped.as_slice(), "\r\n", "\n");
    let cr = replace_str(crlf.as_slice(), "\r", "\n");
    let ls = lines(cr.as_slice());
    let trimmed = trim_line_ends(&ls);
    let mut normalized = join_str(trimmed.as_slice(), "\n");
    let pattern = chars_of("\n\n\n");
    while contains(normalized.as_slice(), pattern.as_slice())
        invariant
            pattern@ == "\n\n\n"@,
            spec_collapse(normalized@) == spec_collapse(spec_join(
                spec_lines(cr@).map_values(|l: Seq<char>| spec_trim_end(l)),
                "\n"@,
            )),
        decreases normalized@.len(),
    {
        proof {
            reveal_strlit("\n\n\n");
            reveal_strlit("\n\n");
            lemma_replace_len(normalized@, "\n\n\n"@, "\n\n"@);
        }
        normalized = replace_str(normalized.as_slice(), "\n\n\n", "\n\n");
    }
    let t = trim(normalized.as_slice());
    string_of(t.as_slice())
}


// ---------------------------------------------------------------------------
// Item schedule data
// ---------------------------------------------------------------------------

#[derive(Clone, Debug)]
pub struct ItemGift {
    pub event_id: i64,
    pub gift_type: i64,
    pub gift_amount: i64,
    pub title: String,
    pub message: String,
    pub url: String,
    pub repeat_flag: i64,
}

#[derive(Clone, Debug)]
pub struct ItemEntry {
    pub header: crate::schedule::ScheduleHeader,
    pub time_blocks: Vec<crate::schedule::TimeBlock>,
    pub gift: ItemGift,
    pub raw: Option<String>,
}

#[derive(Debug)]
pub struct ItemJson {
    pub updated_at: String,
    pub data: Vec<ItemEntry>,
}

pub struct ItemName {
    pub name: String,
    pub detail: String,
}

pub struct ItemDisplayData {
    pub item: ItemJson,
    pub item_names: std::collections::HashMap<i64, ItemName>,
    pub sale_names: std::collections::HashMap<i64, String>,
}

/// The name that a schedule shows for a gift: for the sale gifts 301 and
/// 302 their sale name (else their item name) when not empty, else the
/// trimmed title, else `不明`; for any other gift its trimmed title when not
/// empty, else its item name, else `不明`.
pub open spec fn spec_schedule_name(entry: ItemEntry, data: &ItemDisplayData) -> Seq<char> {
    let t = entry.gift.gift_type;
    let title = spec_trim(entry.gift.title@);
    if t == 301 || t == 302 {
        let found: Option<Seq<char>> = if data.sale_names@.contains_key(t) {
            Some(data.sale_names@[t]@)
        } else if data.item_names@.contains_key(t) {
            Some(data.item_names@[t].name@)
        } else {
            None
        };
        match found {
            Some(n) => if n.len() > 0 {
                n
            } else if title.len() > 0 {
                title
            } else {
                "不明"@
            },
            None => if title.len() > 0 {
                title
            } else {
                "不明"@
            },
        }
    } else if title.len() > 0 {
        title
    } else if data.item_names@.contains_key(t) {
        data.item_names@[t].name@
    } else {
        "不明"@
    }
}

pub fn schedule_name(entry: &ItemEntry, data: &ItemDisplayData) -> (r: Vec<char>)
    ensures
        r@ == spec_schedule_name(*entry, data),
{
    broadcast use vstd::std_specs::hash::group_hash_axioms;
    let t = entry.gift.gift_type;
    let title = trim(chars_of(entry.gift.title.as_str()).as_slice());
    if t == 301 || t == 302 {
        let found: Option<Vec<char>> = match data.sale_names.get(&t) {
            Some(n) => Some(chars_of(n.as_str())),
            None => match data.item_names.get(&t) {
                Some(n) => Some(chars_of(n.name.as_str())),
                None => None,
            },
        };
        match found {
            Some(n) => if n.len() > 0 {
                n
            } else if title.len() > 0 {
                title
            } else {
                chars_of("不明")
            },
            None => if title.len() > 0 {
                title
            } else {
                chars_of("不明")
            },
        }
    } else if title.len() > 0 {
        title
    } else {
        match data.item_names.get(&t) {
            Some(n) => chars_of(n.name.as_str()),
            None => chars_of("不明"),
        }
    }
}

} // verus!
