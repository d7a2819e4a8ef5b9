//! Messages that announce added and changed schedules, packed into code
//! blocks that each fit in one message.
use vstd::prelude::*;

use crate::gatya::spec_mode_for_type;
use crate::gatya_schedule::{entry_labels, series_id, series_name_of, series_of, spec_entry_labels, spec_type_tag, GachaBlock, GachaEntry, GachaScheduleData};
use crate::item::{schedule_name, spec_schedule_name, ItemDisplayData, ItemEntry};
use crate::sale::{spec_is_mission_id, spec_stage_name, SaleDisplayData, SaleEntry};
use crate::schedule::{format_jst_short, jst_civil, parse_header_date, spec_header_date, spec_jst_short, ScheduleHeader};
use crate::text::{
    append, append_str, byte_get, chars_of, decimal, eq, eq_str, fmt_usize, join, join_str, pad_zero, pad_zero_exec,
    replace_str, spec_byte_get, spec_join, spec_replace, spec_utf16_char, spec_utf16_len, string_of, utf16_char,
    utf16_within, views,
};

verus! {

/// The longest message, in UTF-16 code units.
pub const MESSAGE_LIMIT: usize = 2_000;

/// How many missions a section lists before it only counts the rest.
pub const MISSION_DISPLAY_LIMIT: usize = 5;

// ---------------------------------------------------------------------------
// Text helpers
// ---------------------------------------------------------------------------

/// The longest start of a text that fits in `maximum` UTF-16 code units.
pub open spec fn spec_truncate_utf16(s: Seq<char>, maximum: int) -> Seq<char>
    decreases s.len(),
{
    if s.len() == 0 || spec_utf16_char(s[0]) > maximum {
        seq![]
    } else {
        seq![s[0]] + spec_truncate_utf16(s.drop_first(), maximum - spec_utf16_char(s[0]))
    }
}

pub fn truncate_utf16(value: &[char], maximum: usize) -> (r: Vec<char>)
    ensures
        r@ == spec_truncate_utf16(value@, maximum as int),
{
    let mut out: Vec<char> = Vec::new();
    let mut length: usize = 0;
    let mut i: usize = 0;
    let mut full = false;
    assert(value@.skip(0) =~= value@);
    assert(out@ + spec_truncate_utf16(value@, maximum as int) =~= spec_truncate_utf16(value@, maximum as int));
    while i < value.len() && !full
        invariant
            i <= value@.len(),
            length <= maximum,
            full ==> spec_truncate_utf16(value@.skip(i as int), maximum - length) == Seq::<char>::empty(),
            out@ + spec_truncate_utf16(value@.skip(i as int), maximum - length) == spec_truncate_utf16(value@, maximum as int),
        decreases value@.len() - i, if full { 0int } else { 1int },
    {
        let w = utf16_char(value[i]);
        let ghost rest = value@.skip(i as int);
        assert(rest[0] == value@[i as int]);
        if w > maximum - length {
            full = true;
        } else {
            let ghost before = out@;
            out.push(value[i]);
            assert(rest.drop_first() =~= value@.skip(i + 1));
            assert(before + spec_truncate_utf16(rest, maximum - length) =~= out@ + spec_truncate_utf16(
                value@.skip(i + 1),
                maximum - (length + w),
            ));
            length = length + w;
            i += 1;
        }
    }
    proof {
        if !full {
            assert(value@.skip(i as int) =~= seq![]);
        }
    }
    assert(out@ + Seq::<char>::empty() =~= out@);
    out
}

/// `{value:0>8}`-style padding, then the parts of a date and a time:
/// `YYYY/MM/DD HH:MM`, a part that cannot be cut out written as zeros.
pub open spec fn spec_date_time(date: Seq<char>, time: Seq<char>) -> Seq<char> {
    let d = pad_zero(date, 8);
    let t = pad_zero(time, 4);
    let part = |s: Seq<char>, a: nat, b: nat, zero: Seq<char>| match spec_byte_get(s, a, b) {
        Some(p) => p,
        None => zero,
    };
    part(d, 0, 4, "0000"@) + "/"@ + part(d, 4, 6, "00"@) + "/"@ + part(d, 6, 8, "00"@) + " "@ + part(t, 0, 2, "00"@) + ":"@
        + part(t, 2, 4, "00"@)
}

fn part_or(s: &[char], a: usize, b: usize, zero: &str) -> (r: Vec<char>)
    ensures
        r@ == match spec_byte_get(s@, a as nat, b as nat) {
            Some(p) => p,
            None => zero@,
        },
{
    match byte_get(s, a, b) {
        Some(p) => p,
        None => chars_of(zero),
    }
}

pub fn date_time(date: &str, time: &str) -> (r: Vec<char>)
    ensures
        r@ == spec_date_time(date@, time@),
{
    let d = pad_zero_exec(chars_of(date).as_slice(), 8);
    let t = pad_zero_exec(chars_of(time).as_slice(), 4);
    let mut v = part_or(d.as_slice(), 0, 4, "0000");
    append_str(&mut v, "/");
    append(&mut v, part_or(d.as_slice(), 4, 6, "00").as_slice());
    append_str(&mut v, "/");
    append(&mut v, part_or(d.as_slice(), 6, 8, "00").as_slice());
    append_str(&mut v, " ");
    append(&mut v, part_or(t.as_slice(), 0, 2, "00").as_slice());
    append_str(&mut v, ":");
    append(&mut v, part_or(t.as_slice(), 2, 4, "00").as_slice());
    v
}

/// A header whose end date is 2030-01-01 never ends.
pub open spec fn spec_is_permanent(h: ScheduleHeader) -> bool {
    h.end_date@ == "20300101"@
}

pub fn is_permanent(header: &ScheduleHeader) -> (r: bool)
    ensures
        r == spec_is_permanent(*header),
{
    eq_str(chars_of(header.end_date.as_str()).as_slice(), "20300101")
}

pub open spec fn spec_end_date_time(h: ScheduleHeader) -> Seq<char> {
    if spec_is_permanent(h) {
        "常設"@
    } else {
        spec_date_time(h.end_date@, h.end_time@)
    }
}

pub fn end_date_time(header: &ScheduleHeader) -> (r: Vec<char>)
    ensures
        r@ == spec_end_date_time(*header),
{
    if is_permanent(header) {
        chars_of("常設")
    } else {
        date_time(header.end_date.as_str(), header.end_time.as_str())
    }
}

/// The six fields of a header, separated by NUL characters.
pub open spec fn spec_header_key(h: ScheduleHeader) -> Seq<char> {
    h.start_date@ + "\0"@ + h.start_time@ + "\0"@ + h.end_date@ + "\0"@ + h.end_time@ + "\0"@ + h.min_version@ + "\0"@
        + h.max_version@
}

pub fn header_key(header: &ScheduleHeader) -> (r: Vec<char>)
    ensures
        r@ == spec_header_key(*header),
{
    let mut v = chars_of(header.start_date.as_str());
    append_str(&mut v, "\0");
    append_str(&mut v, header.start_time.as_str());
    append_str(&mut v, "\0");
    append_str(&mut v, header.end_date.as_str());
    append_str(&mut v, "\0");
    append_str(&mut v, header.end_time.as_str());
    append_str(&mut v, "\0");
    append_str(&mut v, header.min_version.as_str());
    append_str(&mut v, "\0");
    append_str(&mut v, header.max_version.as_str());
    v
}

/// A schedule is shown while it has not ended; one whose end cannot be read is not.
pub open spec fn spec_is_visible(h: ScheduleHeader, now: i64) -> bool {
    spec_is_permanent(h) || match spec_header_date(h.end_date@, h.end_time@) {
        Ok(t) => t > now,
        Err(_) => false,
    }
}

pub fn is_visible(header: &ScheduleHeader, now: i64) -> (r: bool)
    ensures
        r == spec_is_visible(*header, now),
{
    if is_permanent(header) {
        return true;
    }
    match parse_header_date(header.end_date.as_str(), header.end_time.as_str()) {
        Ok(t) => t > now,
        Err(_) => false,
    }
}

// ---------------------------------------------------------------------------
// Code blocks
// ---------------------------------------------------------------------------

/// A titled group of lines within a section.
pub struct CodeGroup {
    pub key: String,
    pub title: String,
    pub labels: Vec<String>,
}

/// `**{name}**` and a text code block holding the lines.
pub open spec fn wrap(name: Seq<char>, lines: Seq<Seq<char>>, separator: Seq<char>) -> Seq<char> {
    "**"@ + name + "**\n```text\n"@ + spec_join(lines, separator) + "\n```"@
}

/// The labels of the groups in order, each with its group's title.
pub open spec fn group_items(groups: Seq<(Seq<char>, Seq<Seq<char>>)>) -> Seq<(Seq<char>, Seq<char>)>
    decreases groups.len(),
{
    if groups.len() == 0 {
        seq![]
    } else {
        group_items(groups.drop_last()) + groups.last().1.map_values(|l: Seq<char>| (groups.last().0, l))
    }
}

/// The state of packing: the messages so far, the lines of the open block
/// and the title last seen.
pub struct PackState {
    pub parts: Seq<Seq<char>>,
    pub lines: Seq<Seq<char>>,
    pub last_title: Seq<char>,
}

pub open spec fn title_lines(title: Seq<char>) -> Seq<Seq<char>> {
    if title.len() == 0 {
        seq![]
    } else {
        seq![title]
    }
}

/// Adds one label: its group's title goes before it when the block is new
/// or the title changed; a block that would grow past the limit is closed
/// first, and a label that fits in no block is an error.
pub open spec fn pack_step(name: Seq<char>, separator: Seq<char>, st: PackState, title: Seq<char>, label: Seq<char>) -> Result<PackState, Seq<char>> {
    let shown_title = if st.lines.len() == 0 || st.last_title != title {
        title
    } else {
        seq![]
    };
    let next = st.lines + title_lines(shown_title) + seq![label];
    let split = spec_utf16_len(wrap(name, next, separator)) > MESSAGE_LIMIT && st.lines.len() > 0;
    let parts = if split {
        st.parts.push(wrap(name, st.lines, separator))
    } else {
        st.parts
    };
    let next = if split {
        title_lines(title) + seq![label]
    } else {
        next
    };
    if spec_utf16_len(wrap(name, next, separator)) > MESSAGE_LIMIT {
        Err("schedule "@ + name + " entry exceeds message limit"@)
    } else {
        Ok(PackState { parts, lines: next, last_title: title })
    }
}

pub open spec fn pack(name: Seq<char>, separator: Seq<char>, items: Seq<(Seq<char>, Seq<char>)>) -> Result<PackState, Seq<char>>
    decreases items.len(),
{
    if items.len() == 0 {
        Ok(PackState { parts: seq![], lines: seq![], last_title: seq![] })
    } else {
        match pack(name, separator, items.drop_last()) {
            Ok(st) => pack_step(name, separator, st, items.last().0, items.last().1),
            Err(e) => Err(e),
        }
    }
}

/// The messages of a section: its groups' labels packed into code blocks.
pub open spec fn spec_code_blocks(name: Seq<char>, groups: Seq<(Seq<char>, Seq<Seq<char>>)>, separator: Seq<char>) -> Result<Seq<Seq<char>>, Seq<char>> {
    match pack(name, separator, group_items(groups)) {
        Ok(st) => Ok(if st.lines.len() > 0 {
            st.parts.push(wrap(name, st.lines, separator))
        } else {
            st.parts
        }),
        Err(e) => Err(e),
    }
}

pub open spec fn code_group_views(groups: Seq<CodeGroup>) -> Seq<(Seq<char>, Seq<Seq<char>>)> {
    groups.map_values(|g: CodeGroup| (g.title@, crate::text::string_views(g.labels@)))
}

fn wrap_exec(name: &[char], lines: &Vec<Vec<char>>, separator: &[char]) -> (r: Vec<char>)
    ensures
        r@ == wrap(name@, views(lines@), separator@),
{
    let mut v = chars_of("**");
    append(&mut v, name);
    append_str(&mut v, "**\n```text\n");
    append(&mut v, join(lines.as_slice(), separator).as_slice());
    append_str(&mut v, "\n```");
    v
}

fn copy_lines(lines: &Vec<Vec<char>>) -> (r: Vec<Vec<char>>)
    ensures
        views(r@) == views(lines@),
{
    let mut out: Vec<Vec<char>> = Vec::new();
    let mut i: usize = 0;
    while i < lines.len()
        invariant
            i <= lines@.len(),
            views(out@) == views(lines@).take(i as int),
        decreases lines@.len() - i,
    {
        let c = lines[i].clone();
        let ghost before = out@;
        out.push(c);
        assert(views(out@) =~= views(before).push(lines@[i as int]@));
        assert(views(out@) =~= views(lines@).take(i + 1));
        i += 1;
    }
    assert(views(lines@).take(i as int) =~= views(lines@));
    out
}

fn push_line(lines: &mut Vec<Vec<char>>, line: Vec<char>)
    ensures
        views(final(lines)@) == views(old(lines)@).push(line@),
{
    lines.push(line);
    assert(views(lines@) =~= views(old(lines)@).push(line@));
}

fn fits(text: &[char]) -> (r: bool)
    ensures
        r == (spec_utf16_len(text@) <= MESSAGE_LIMIT),
{
    utf16_within(text, MESSAGE_LIMIT)
}

/// One step of packing, on the exec state.
fn pack_label(
    parts: &mut Vec<Vec<char>>,
    lines: &mut Vec<Vec<char>>,
    last_title: &mut Vec<char>,
    nm: &Vec<char>,
    sep: &Vec<char>,
    title: &Vec<char>,
    label: Vec<char>,
) -> (r: Result<(), Vec<char>>)
    ensures
        match r {
            Ok(()) => pack_step(nm@, sep@, PackState { parts: views(old(parts)@), lines: views(old(lines)@), last_title: old(last_title)@ }, title@, label@)
                == Ok::<PackState, Seq<char>>(PackState { parts: views(final(parts)@), lines: views(final(lines)@), last_title: final(last_title)@ }),
            Err(msg) => pack_step(nm@, sep@, PackState { parts: views(old(parts)@), lines: views(old(lines)@), last_title: old(last_title)@ }, title@, label@)
                == Err::<PackState, Seq<char>>(msg@),
        },
{
    let ghost st = PackState { parts: views(parts@), lines: views(lines@), last_title: last_title@ };
    let show_title = lines.len() == 0 || !eq(last_title.as_slice(), title.as_slice());
    let mut next = copy_lines(lines);
    if show_title && title.len() > 0 {
        push_line(&mut next, title.clone());
    }
    push_line(&mut next, label.clone());
    proof {
        let shown = if st.lines.len() == 0 || st.last_title != title@ {
            title@
        } else {
            seq![]
        };
        assert(views(next@) =~= st.lines + title_lines(shown) + seq![label@]);
    }
    let whole = wrap_exec(nm.as_slice(), &next, sep.as_slice());
    if !fits(whole.as_slice()) && lines.len() > 0 {
        let closed = wrap_exec(nm.as_slice(), lines, sep.as_slice());
        push_line(parts, closed);
        next = Vec::new();
        if title.len() > 0 {
            push_line(&mut next, title.clone());
        }
        push_line(&mut next, label);
        assert(views(next@) =~= title_lines(title@) + seq![label@]);
    }
    let again = wrap_exec(nm.as_slice(), &next, sep.as_slice());
    if !fits(again.as_slice()) {
        let mut msg = chars_of("schedule ");
        append(&mut msg, nm.as_slice());
        append_str(&mut msg, " entry exceeds message limit");
        return Err(msg);
    }
    *lines = next;
    *last_title = title.clone();
    Ok(())
}

/// Packs the labels of the groups into as few code blocks as the message
/// limit allows, in order.
pub fn format_code_blocks(name: &str, groups: Vec<CodeGroup>, separator: &str) -> (r: Result<Vec<String>, String>)
    ensures
        match r {
            Ok(parts) => spec_code_blocks(name@, code_group_views(groups@), separator@) == Ok::<Seq<Seq<char>>, Seq<char>>(
                crate::text::string_views(parts@),
            ),
            Err(e) => spec_code_blocks(name@, code_group_views(groups@), separator@) == Err::<Seq<Seq<char>>, Seq<char>>(e@),
        },
{
    let nm = chars_of(name);
    let sep = chars_of(separator);
    let ghost gv = code_group_views(groups@);
    let mut parts: Vec<Vec<char>> = Vec::new();
    let mut lines: Vec<Vec<char>> = Vec::new();
    let mut last_title: Vec<char> = Vec::new();
    let mut g: usize = 0;
    assert(group_items(gv.take(0)) =~= seq![]);
    assert(views(parts@) =~= seq![]);
    assert(views(lines@) =~= seq![]);
    assert(last_title@ =~= seq![]);
    while g < groups.len()
        invariant
            g <= groups@.len(),
            nm@ == name@,
            sep@ == separator@,
            gv == code_group_views(groups@),
            pack(name@, separator@, group_items(gv.take(g as int))) == Ok::<PackState, Seq<char>>(
                PackState { parts: views(parts@), lines: views(lines@), last_title: last_title@ },
            ),
        decreases groups@.len() - g,
    {
        let group = &groups[g];
        let title = chars_of(group.title.as_str());
        let ghost labels = crate::text::string_views(group.labels@);
        let ghost prefix = group_items(gv.take(g as int));
        let ghost f = |l: Seq<char>| (title@, l);
        assert(gv[g as int] == (title@, labels));
        let mut k: usize = 0;
        assert(prefix + labels.take(0).map_values(f) =~= prefix);
        while k < group.labels.len()
            invariant
                g < groups@.len(),
                k <= group.labels@.len(),
                nm@ == name@,
                sep@ == separator@,
                gv == code_group_views(groups@),
                gv[g as int] == (title@, labels),
                f == (|l: Seq<char>| (title@, l)),
                prefix == group_items(gv.take(g as int)),
                labels == crate::text::string_views(group.labels@),
                pack(name@, separator@, prefix + labels.take(k as int).map_values(f))
                    == Ok::<PackState, Seq<char>>(PackState { parts: views(parts@), lines: views(lines@), last_title: last_title@ }),
            decreases group.labels@.len() - k,
        {
            let label = chars_of(group.labels[k].as_str());
            assert(labels[k as int] == label@);
            let ghost items_k = prefix + labels.take(k as int).map_values(f);
            let ghost items_k1 = prefix + labels.take(k + 1).map_values(f);
            assert(items_k1.drop_last() =~= items_k);
            assert(items_k1.last() == (title@, label@));
            match pack_label(&mut parts, &mut lines, &mut last_title, &nm, &sep, &title, label) {
                Ok(()) => {},
                Err(msg) => {
                    proof {
                        lemma_pack_prefix_err(name@, separator@, gv, g as int, k as int, msg@);
                    }
                    return Err(string_of(msg.as_slice()));
                },
            }
            k += 1;
        }
        proof {
            assert(labels.take(k as int) =~= labels);
            assert(gv.take(g + 1).drop_last() =~= gv.take(g as int));
            assert(gv.take(g + 1).last() == gv[g as int]);
            assert(labels.map_values(f) =~= labels.take(k as int).map_values(f));
        }
        g += 1;
    }
    assert(gv.take(g as int) =~= gv);
    if lines.len() > 0 {
        let last = wrap_exec(nm.as_slice(), &lines, sep.as_slice());
        push_line(&mut parts, last);
    }
    let mut out: Vec<String> = Vec::new();
    let mut i: usize = 0;
    while i < parts.len()
        invariant
            i <= parts@.len(),
            crate::text::string_views(out@) == views(parts@).take(i as int),
        decreases parts@.len() - i,
    {
        let ghost before = out@;
        out.push(string_of(parts[i].as_slice()));
        assert(crate::text::string_views(out@) =~= crate::text::string_views(before).push(parts@[i as int]@));
        assert(crate::text::string_views(out@) =~= views(parts@).take(i + 1));
        i += 1;
    }
    assert(views(parts@).take(i as int) =~= views(parts@));
    Ok(out)
}

proof fn lemma_pack_extends_err(name: Seq<char>, sep: Seq<char>, a: Seq<(Seq<char>, Seq<char>)>, b: Seq<(Seq<char>, Seq<char>)>, e: Seq<char>)
    requires
        pack(name, sep, a) == Err::<PackState, Seq<char>>(e),
    ensures
        pack(name, sep, a + b) == Err::<PackState, Seq<char>>(e),
    decreases b.len(),
{
    if b.len() == 0 {
        assert(a + b =~= a);
    } else {
        lemma_pack_extends_err(name, sep, a, b.drop_last(), e);
        assert((a + b).drop_last() =~= a + b.drop_last());
    }
}

proof fn lemma_group_items_split(gv: Seq<(Seq<char>, Seq<Seq<char>>)>, g: int)
    requires
        0 <= g <= gv.len(),
    ensures
        group_items(gv) == group_items(gv.take(g)) + group_items(gv.skip(g)),
    decreases gv.len() - g,
{
    if g == gv.len() {
        assert(gv.take(g) =~= gv);
        assert(gv.skip(g) =~= seq![]);
        assert(group_items(gv) + seq![] =~= group_items(gv));
    } else {
        lemma_group_items_split(gv.drop_last(), if g < gv.len() { g } else { g - 1 });
        if g < gv.len() {
            assert(gv.drop_last().take(g) =~= gv.take(g));
            assert(gv.drop_last().skip(g) =~= gv.skip(g).drop_last());
            assert(gv.skip(g).last() == gv.last());
        }
    }
}

proof fn lemma_group_items_first(gv: Seq<(Seq<char>, Seq<Seq<char>>)>)
    requires
        gv.len() > 0,
    ensures
        group_items(gv) == gv[0].1.map_values(|l: Seq<char>| (gv[0].0, l)) + group_items(gv.drop_first()),
    decreases gv.len(),
{
    if gv.len() == 1 {
        assert(gv.drop_last() =~= seq![]);
        assert(gv.drop_first() =~= seq![]);
    } else {
        lemma_group_items_first(gv.drop_last());
        assert(gv.drop_last().drop_first() =~= gv.drop_first().drop_last());
        assert(gv.drop_first().last() == gv.last());
    }
}

proof fn lemma_pack_prefix_err(name: Seq<char>, sep: Seq<char>, gv: Seq<(Seq<char>, Seq<Seq<char>>)>, g: int, k: int, e: Seq<char>)
    requires
        0 <= g < gv.len(),
        0 <= k < gv[g].1.len(),
        pack(name, sep, group_items(gv.take(g)) + gv[g].1.take(k + 1).map_values(|l: Seq<char>| (gv[g].0, l)))
            == Err::<PackState, Seq<char>>(e),
    ensures
        pack(name, sep, group_items(gv)) == Err::<PackState, Seq<char>>(e),
{
    let f = |l: Seq<char>| (gv[g].0, l);
    let head = group_items(gv.take(g)) + gv[g].1.take(k + 1).map_values(f);
    let tail = gv[g].1.skip(k + 1).map_values(f) + group_items(gv.skip(g + 1));
    lemma_pack_extends_err(name, sep, head, tail, e);
    lemma_group_items_split(gv, g);
    lemma_group_items_first(gv.skip(g));
    assert(gv.skip(g).drop_first() =~= gv.skip(g + 1));
    assert(gv.skip(g)[0] == gv[g]);
    assert(gv[g].1.map_values(f) =~= gv[g].1.take(k + 1).map_values(f) + gv[g].1.skip(k + 1).map_values(f));
    assert(head + tail =~= group_items(gv));
}


// ---------------------------------------------------------------------------
// Missions left out
// ---------------------------------------------------------------------------

pub open spec fn footer_text(prefix: Seq<char>, values: Seq<Seq<char>>) -> Seq<char> {
    prefix + spec_join(values, ","@) + ")"@
}

/// Packs ids into footers `その他{n}件(id,id,..)` of at most 1,900 UTF-16
/// code units, as far as one id allows: the footers so far and the open one.
pub open spec fn footer_fold(prefix: Seq<char>, ids: Seq<i64>) -> (Seq<Seq<char>>, Seq<Seq<char>>)
    decreases ids.len(),
{
    if ids.len() == 0 {
        (seq![], seq![])
    } else {
        let (out, values) = footer_fold(prefix, ids.drop_last());
        let id = crate::text::decimal_int(ids.last() as int);
        if spec_utf16_len(footer_text(prefix, values.push(id))) > 1_900 && values.len() > 0 {
            (out.push(footer_text(prefix, values)), seq![id])
        } else {
            (out, values.push(id))
        }
    }
}

pub open spec fn spec_mission_footers(ids: Seq<i64>) -> Seq<Seq<char>> {
    let prefix = "その他"@ + decimal(ids.len()) + "件("@;
    let (out, values) = footer_fold(prefix, ids);
    if values.len() > 0 {
        out.push(footer_text(prefix, values))
    } else {
        out
    }
}

fn footer_exec(prefix: &Vec<char>, values: &Vec<Vec<char>>) -> (r: Vec<char>)
    ensures
        r@ == footer_text(prefix@, views(values@)),
{
    let mut v = prefix.clone();
    append(&mut v, join_str(values.as_slice(), ",").as_slice());
    append_str(&mut v, ")");
    v
}

/// The footers that count the missions a section leaves out.
pub fn mission_footers(ids: &Vec<i64>) -> (r: Vec<String>)
    ensures
        crate::text::string_views(r@) == spec_mission_footers(ids@),
{
    let mut prefix = chars_of("その他");
    append(&mut prefix, fmt_usize(ids.len()).as_slice());
    append_str(&mut prefix, "件(");
    let mut out: Vec<Vec<char>> = Vec::new();
    let mut values: Vec<Vec<char>> = Vec::new();
    let mut i: usize = 0;
    assert(views(out@) =~= seq![] && views(values@) =~= seq![]);
    while i < ids.len()
        invariant
            i <= ids@.len(),
            prefix@ == "その他"@ + decimal(ids@.len()) + "件("@,
            footer_fold(prefix@, ids@.take(i as int)) == (views(out@), views(values@)),
        decreases ids@.len() - i,
    {
        let id = crate::text::fmt_i64(ids[i]);
        assert(ids@.take(i + 1).drop_last() =~= ids@.take(i as int));
        let mut next = copy_lines(&values);
        push_line(&mut next, id.clone());
        let text = footer_exec(&prefix, &next);
        if !utf16_within(text.as_slice(), 1_900) && values.len() > 0 {
            let done = footer_exec(&prefix, &values);
            push_line(&mut out, done);
            values = Vec::new();
            push_line(&mut values, id);
            assert(views(values@) =~= seq![crate::text::decimal_int(ids@[i as int] as int)]);
        } else {
            push_line(&mut values, id);
        }
        i += 1;
    }
    assert(ids@.take(i as int) =~= ids@);
    if values.len() > 0 {
        let done = footer_exec(&prefix, &values);
        push_line(&mut out, done);
    }
    let mut r: Vec<String> = Vec::new();
    let mut k: usize = 0;
    while k < out.len()
        invariant
            k <= out@.len(),
            crate::text::string_views(r@) == views(out@).take(k as int),
        decreases out@.len() - k,
    {
        let ghost before = r@;
        r.push(string_of(out[k].as_slice()));
        assert(crate::text::string_views(r@) =~= crate::text::string_views(before).push(out@[k as int]@));
        assert(crate::text::string_views(r@) =~= views(out@).take(k + 1));
        k += 1;
    }
    assert(views(out@).take(k as int) =~= views(out@));
    r
}


// ---------------------------------------------------------------------------
// Sections of added schedules
// ---------------------------------------------------------------------------

/// One schedule to list: its header, its label and, for a mission, its id.
pub struct Row<'a> {
    pub header: &'a ScheduleHeader,
    pub label: String,
    pub id: Option<i64>,
}

/// A row as plain values.
pub struct RowSpec {
    pub header: ScheduleHeader,
    pub label: Seq<char>,
    pub id: Option<i64>,
}

pub open spec fn row_view(r: Row) -> RowSpec {
    RowSpec { header: *r.header, label: r.label@, id: r.id }
}

pub open spec fn row_views(rows: Seq<Row>) -> Seq<RowSpec> {
    rows.map_values(|r: Row| row_view(r))
}

pub open spec fn spec_row_key(r: RowSpec) -> Seq<char> {
    spec_header_key(r.header) + "\0"@ + r.label
}

pub open spec fn first_seen(rows: Seq<RowSpec>, i: int) -> bool {
    forall|j: int| 0 <= j < i ==> spec_row_key(#[trigger] rows[j]) != spec_row_key(rows[i])
}

/// The positions of the rows that are listed: the first row of each key,
/// when it is still visible.
pub open spec fn visible_indices(rows: Seq<RowSpec>, now: i64, n: int) -> Seq<usize>
    decreases n,
{
    if n <= 0 {
        seq![]
    } else {
        let prev = visible_indices(rows, now, n - 1);
        if first_seen(rows, n - 1) && spec_is_visible(rows[n - 1].header, now) {
            prev.push((n - 1) as usize)
        } else {
            prev
        }
    }
}

/// When a row starts, if its start can be read.
pub open spec fn start_key(h: ScheduleHeader) -> Option<i64> {
    match spec_header_date(h.start_date@, h.start_time@) {
        Ok(t) => Some(t as i64),
        Err(_) => None,
    }
}

/// The order of `Option`: nothing first, then by value.
pub open spec fn key_le(a: Option<i64>, b: Option<i64>) -> bool {
    match (a, b) {
        (None, _) => true,
        (Some(_), None) => false,
        (Some(x), Some(y)) => x <= y,
    }
}

pub open spec fn insert_by_key(s: Seq<(Option<i64>, usize)>, x: (Option<i64>, usize)) -> Seq<(Option<i64>, usize)>
    decreases s.len(),
{
    if s.len() == 0 || key_le(s.last().0, x.0) {
        s.push(x)
    } else {
        insert_by_key(s.drop_last(), x).push(s.last())
    }
}

/// Sorted by key; pairs with equal keys keep their order.
pub open spec fn sort_by_key(s: Seq<(Option<i64>, usize)>) -> Seq<(Option<i64>, usize)>
    decreases s.len(),
{
    if s.len() == 0 {
        s
    } else {
        insert_by_key(sort_by_key(s.drop_last()), s.last())
    }
}

proof fn lemma_insert_by_key(s: Seq<(Option<i64>, usize)>, x: (Option<i64>, usize), j: int)
    requires
        0 <= j <= s.len(),
        forall|k: int| j <= k < s.len() ==> !key_le((#[trigger] s[k]).0, x.0),
        j == 0 || key_le(s[j - 1].0, x.0),
    ensures
        insert_by_key(s, x) == s.take(j).push(x) + s.skip(j),
    decreases s.len(),
{
    if s.len() == j {
        assert(s.take(j).push(x) + s.skip(j) =~= s.push(x));
    } else {
        let t = s.drop_last();
        assert forall|k: int| j <= k < t.len() implies !key_le((#[trigger] t[k]).0, x.0) by {
            assert(t[k] == s[k]);
        }
        if j > 0 {
            assert(t[j - 1] == s[j - 1]);
        }
        lemma_insert_by_key(t, x, j);
        assert((t.take(j).push(x) + t.skip(j)).push(s.last()) =~= s.take(j).push(x) + s.skip(j));
    }
}

fn key_le_exec(a: Option<i64>, b: Option<i64>) -> (r: bool)
    ensures
        r == key_le(a, b),
{
    match (a, b) {
        (None, _) => true,
        (Some(_), None) => false,
        (Some(x), Some(y)) => x <= y,
    }
}

fn sort_pairs(pairs: Vec<(Option<i64>, usize)>) -> (r: Vec<(Option<i64>, usize)>)
    ensures
        r@ == sort_by_key(pairs@),
{
    let mut r: Vec<(Option<i64>, usize)> = Vec::new();
    let mut i: usize = 0;
    while i < pairs.len()
        invariant
            i <= pairs@.len(),
            r@ == sort_by_key(pairs@.take(i as int)),
        decreases pairs@.len() - i,
    {
        let x = pairs[i];
        let mut j: usize = r.len();
        while j > 0 && !key_le_exec(r[j - 1].0, x.0)
            invariant
                j <= r@.len(),
                forall|k: int| j <= k < r@.len() ==> !key_le((#[trigger] r@[k]).0, x.0),
            decreases j,
        {
            j -= 1;
        }
        proof {
            lemma_insert_by_key(r@, x, j as int);
            assert(pairs@.take(i + 1).drop_last() =~= pairs@.take(i as int));
        }
        r.insert(j, x);
        assert(r@ =~= sort_by_key(pairs@.take(i + 1)));
        i += 1;
    }
    assert(pairs@.take(i as int) =~= pairs@);
    r
}

pub open spec fn bool_text(b: bool) -> Seq<char> {
    if b {
        "true"@
    } else {
        "false"@
    }
}

/// A label made to fit a code block: backticks to spaces, carriage returns
/// dropped, line breaks to spaces unless it is a mission, every line
/// indented by four spaces, cut to 244 UTF-16 code units.
pub open spec fn section_label(label: Seq<char>, mission: bool) -> Seq<char> {
    let l1 = spec_replace(spec_replace(label, "`"@, " "@), "\r"@, ""@);
    let l2 = if mission {
        l1
    } else {
        spec_replace(l1, "\n"@, " "@)
    };
    spec_truncate_utf16("    "@ + spec_replace(l2, "\n"@, "\n    "@), 244)
}

pub open spec fn jst_short_text(t: i64) -> Seq<char> {
    match jst_civil(t) {
        Some(c) => spec_jst_short(c),
        None => ""@,
    }
}

/// The group key, title and label of a listed row: a running schedule by
/// its end, unless it runs for good, a coming one by its start.
pub open spec fn section_row(r: RowSpec, now: i64, mission: bool) -> Result<(Seq<char>, Seq<char>, Seq<char>), Seq<char>> {
    match spec_header_date(r.header.start_date@, r.header.start_time@) {
        Err(e) => Err(e),
        Ok(start) => {
            let active = start <= now;
            let permanent = spec_is_permanent(r.header);
            let use_end = active && !permanent;
            let date = if use_end {
                spec_header_date(r.header.end_date@, r.header.end_time@)
            } else {
                Ok(start)
            };
            match date {
                Err(e) => Err(e),
                Ok(d) => {
                    let key = bool_text(permanent) + ":"@ + bool_text(active) + ":"@ + if use_end {
                        r.header.end_date@
                    } else {
                        r.header.start_date@
                    };
                    let period = if use_end {
                        "[~"@ + jst_short_text(d as i64) + "]"@
                    } else {
                        "["@ + jst_short_text(d as i64) + "~]"@
                    };
                    let title = (if active {
                        "🟢 "@
                    } else {
                        ""@
                    }) + period + if permanent {
                        " 常設"@
                    } else {
                        ""@
                    };
                    Ok((key, title, section_label(r.label, mission)))
                },
            }
        },
    }
}

/// A group of a section: its key, title and labels.
pub struct SectionGroup {
    pub key: Seq<char>,
    pub title: Seq<char>,
    pub labels: Seq<Seq<char>>,
}

pub open spec fn section_keys(gs: Seq<SectionGroup>) -> Seq<Seq<char>> {
    gs.map_values(|g: SectionGroup| g.key)
}

pub open spec fn add_row(gs: Seq<SectionGroup>, key: Seq<char>, title: Seq<char>, label: Seq<char>) -> Seq<SectionGroup> {
    let i = crate::gatya_schedule::first_index(section_keys(gs), key);
    if i < 0 {
        gs.push(SectionGroup { key, title, labels: seq![label] })
    } else {
        gs.update(i, SectionGroup { labels: gs[i].labels.push(label), ..gs[i] })
    }
}

/// The groups of the first `n` rows in `order`.
pub open spec fn section_groups(rows: Seq<RowSpec>, order: Seq<usize>, now: i64, mission: bool, n: int) -> Result<Seq<SectionGroup>, Seq<char>>
    decreases n,
{
    if n <= 0 {
        Ok(seq![])
    } else {
        match section_groups(rows, order, now, mission, n - 1) {
            Err(e) => Err(e),
            Ok(gs) => match section_row(rows[order[n - 1] as int], now, mission) {
                Err(e) => Err(e),
                Ok((k, t, l)) => Ok(add_row(gs, k, t, l)),
            },
        }
    }
}

/// The mission ids among the rows at the given positions.
pub open spec fn row_ids(rows: Seq<RowSpec>, order: Seq<usize>) -> Seq<i64>
    decreases order.len(),
{
    if order.len() == 0 {
        seq![]
    } else {
        let prev = row_ids(rows, order.drop_last());
        match rows[order.last() as int].id {
            Some(id) => prev.push(id),
            None => prev,
        }
    }
}

pub open spec fn sorted_rows(rows: Seq<RowSpec>, now: i64) -> Seq<usize> {
    let vis = visible_indices(rows, now, rows.len() as int);
    sort_by_key(vis.map_values(|i: usize| (start_key(rows[i as int].header), i))).map_values(|p: (Option<i64>, usize)| p.1)
}

pub open spec fn shown_count(mission: bool, n: nat) -> nat {
    if mission && n > MISSION_DISPLAY_LIMIT {
        MISSION_DISPLAY_LIMIT as nat
    } else {
        n
    }
}

/// The messages of a section: its visible rows by start, grouped by
/// period, at most five missions with a count of the rest.
#[verifier::opaque]
pub open spec fn spec_format_section(name: Seq<char>, rows: Seq<RowSpec>, now: i64) -> Result<Seq<Seq<char>>, Seq<char>> {
    let mission = name == "mission"@;
    let order = sorted_rows(rows, now);
    let shown = shown_count(mission, order.len());
    match section_groups(rows, order, now, mission, shown as int) {
        Err(e) => Err(e),
        Ok(gs) => {
            let all = if mission && order.len() > shown {
                gs.push(SectionGroup { key: "omitted"@, title: ""@, labels: spec_mission_footers(row_ids(rows, order.skip(shown as int))) })
            } else {
                gs
            };
            spec_code_blocks(name, all.map_values(|g: SectionGroup| (g.title, g.labels)), "\n"@)
        },
    }
}

fn row_key(row: &Row) -> (r: Vec<char>)
    ensures
        r@ == spec_row_key(row_view(*row)),
{
    let mut v = header_key(row.header);
    append_str(&mut v, "\0");
    append_str(&mut v, row.label.as_str());
    v
}

fn visible_list(rows: &Vec<Row>, now: i64) -> (r: Vec<usize>)
    ensures
        r@ == visible_indices(row_views(rows@), now, rows@.len() as int),
{
    let mut keys: Vec<Vec<char>> = Vec::new();
    let mut r: Vec<usize> = Vec::new();
    let mut i: usize = 0;
    while i < rows.len()
        invariant
            i <= rows@.len(),
            keys@.len() == i,
            forall|j: int| 0 <= j < i ==> (#[trigger] keys@[j])@ == spec_row_key(row_views(rows@)[j]),
            r@ == visible_indices(row_views(rows@), now, i as int),
        decreases rows@.len() - i,
    {
        let key = row_key(&rows[i]);
        assert(row_views(rows@)[i as int] == row_view(rows@[i as int]));
        let mut seen = false;
        let mut j: usize = 0;
        while j < i
            invariant
                j <= i,
                keys@.len() == i,
                i < rows@.len(),
                key@ == spec_row_key(row_views(rows@)[i as int]),
                forall|m: int| 0 <= m < i ==> (#[trigger] keys@[m])@ == spec_row_key(row_views(rows@)[m]),
                seen == exists|m: int| 0 <= m < j && spec_row_key(#[trigger] row_views(rows@)[m]) == spec_row_key(row_views(rows@)[i as int]),
            decreases i - j,
        {
            if eq(keys[j].as_slice(), key.as_slice()) {
                seen = true;
            }
            assert(keys@[j as int]@ == spec_row_key(row_views(rows@)[j as int]));
            j += 1;
        }
        if !seen && is_visible(rows[i].header, now) {
            r.push(i);
        }
        keys.push(key);
        i += 1;
    }
    r
}

fn start_key_exec(h: &ScheduleHeader) -> (r: Option<i64>)
    ensures
        r == start_key(*h),
{
    match parse_header_date(h.start_date.as_str(), h.start_time.as_str()) {
        Ok(t) => Some(t),
        Err(_) => None,
    }
}

fn section_order(rows: &Vec<Row>, now: i64) -> (r: Vec<usize>)
    ensures
        r@ == sorted_rows(row_views(rows@), now),
        forall|k: int| 0 <= k < r@.len() ==> r@[k] < rows@.len(),
{
    let vis = visible_list(rows, now);
    let count = rows.len();
    assert(rows@.len() == count);
    proof {
        lemma_visible_bound(row_views(rows@), now, rows@.len() as int);
    }
    let ghost rv = row_views(rows@);
    let ghost f = |i: usize| (start_key(rv[i as int].header), i);
    let mut pairs: Vec<(Option<i64>, usize)> = Vec::new();
    let mut i: usize = 0;
    while i < vis.len()
        invariant
            i <= vis@.len(),
            forall|k: int| 0 <= k < vis@.len() ==> vis@[k] < rows@.len(),
            rv == row_views(rows@),
            f == (|i: usize| (start_key(rv[i as int].header), i)),
            pairs@ == vis@.take(i as int).map_values(f),
        decreases vis@.len() - i,
    {
        let idx = vis[i];
        assert(rv[idx as int] == row_view(rows@[idx as int]));
        pairs.push((start_key_exec(rows[idx].header), idx));
        assert(pairs@ =~= vis@.take(i + 1).map_values(f));
        i += 1;
    }
    assert(vis@.take(i as int) =~= vis@);
    let sorted = sort_pairs(pairs);
    proof {
        lemma_sort_keeps_members(vis@.map_values(f), rows@.len() as int);
    }
    let mut r: Vec<usize> = Vec::new();
    let mut k: usize = 0;
    while k < sorted.len()
        invariant
            k <= sorted@.len(),
            forall|m: int| 0 <= m < sorted@.len() ==> (#[trigger] sorted@[m]).1 < rows@.len(),
            r@ == sorted@.take(k as int).map_values(|p: (Option<i64>, usize)| p.1),
        decreases sorted@.len() - k,
    {
        r.push(sorted[k].1);
        assert(r@ =~= sorted@.take(k + 1).map_values(|p: (Option<i64>, usize)| p.1));
        k += 1;
    }
    assert(sorted@.take(k as int) =~= sorted@);
    r
}

proof fn lemma_visible_bound(rows: Seq<RowSpec>, now: i64, n: int)
    requires
        n <= rows.len(),
        rows.len() <= usize::MAX,
    ensures
        forall|k: int| 0 <= k < visible_indices(rows, now, n).len() ==> visible_indices(rows, now, n)[k] < rows.len(),
    decreases n,
{
    if n > 0 {
        lemma_visible_bound(rows, now, n - 1);
        let prev = visible_indices(rows, now, n - 1);
        let cur = visible_indices(rows, now, n);
        assert forall|k: int| 0 <= k < cur.len() implies cur[k] < rows.len() by {
            if k < prev.len() {
                assert(cur[k] == prev[k]);
            }
        }
    }
}

proof fn lemma_insert_keeps_members(s: Seq<(Option<i64>, usize)>, x: (Option<i64>, usize), bound: int)
    requires
        forall|k: int| 0 <= k < s.len() ==> (#[trigger] s[k]).1 < bound,
        x.1 < bound,
    ensures
        forall|k: int| 0 <= k < insert_by_key(s, x).len() ==> (#[trigger] insert_by_key(s, x)[k]).1 < bound,
    decreases s.len(),
{
    let r = insert_by_key(s, x);
    if !(s.len() == 0 || key_le(s.last().0, x.0)) {
        let t = s.drop_last();
        assert forall|k: int| 0 <= k < t.len() implies (#[trigger] t[k]).1 < bound by {
            assert(t[k] == s[k]);
        }
        lemma_insert_keeps_members(t, x, bound);
        assert(s[s.len() - 1].1 < bound);
        let u = insert_by_key(t, x);
        assert forall|k: int| 0 <= k < r.len() implies (#[trigger] r[k]).1 < bound by {
            if k < u.len() {
                assert(r[k] == u[k]);
            }
        }
    } else {
        assert forall|k: int| 0 <= k < r.len() implies (#[trigger] r[k]).1 < bound by {
            if k < s.len() {
                assert(r[k] == s[k]);
            }
        }
    }
}

proof fn lemma_sort_keeps_members(s: Seq<(Option<i64>, usize)>, bound: int)
    requires
        forall|k: int| 0 <= k < s.len() ==> (#[trigger] s[k]).1 < bound,
    ensures
        forall|k: int| 0 <= k < sort_by_key(s).len() ==> (#[trigger] sort_by_key(s)[k]).1 < bound,
    decreases s.len(),
{
    if s.len() > 0 {
        let t = s.drop_last();
        assert forall|k: int| 0 <= k < t.len() implies (#[trigger] t[k]).1 < bound by {
            assert(t[k] == s[k]);
        }
        lemma_sort_keeps_members(t, bound);
        assert(s[s.len() - 1].1 < bound);
        lemma_insert_keeps_members(sort_by_key(t), s.last(), bound);
    }
}


fn section_label_exec(label: &str, mission: bool) -> (r: Vec<char>)
    ensures
        r@ == section_label(label@, mission),
{
    proof {
        reveal_strlit("`");
        reveal_strlit("\r");
        reveal_strlit("\n");
    }
    let v = chars_of(label);
    let l1 = replace_str(replace_str(v.as_slice(), "`", " ").as_slice(), "\r", "");
    let l2 = if mission {
        l1
    } else {
        replace_str(l1.as_slice(), "\n", " ")
    };
    let mut indented = chars_of("    ");
    append(&mut indented, replace_str(l2.as_slice(), "\n", "\n    ").as_slice());
    truncate_utf16(indented.as_slice(), 244)
}

fn jst_short_exec(t: i64) -> (r: Vec<char>)
    ensures
        r@ == jst_short_text(t),
{
    match format_jst_short(t) {
        Some(s) => chars_of(s.as_str()),
        None => chars_of(""),
    }
}

fn bool_exec(b: bool) -> (r: &'static str)
    ensures
        r@ == bool_text(b),
{
    if b {
        "true"
    } else {
        "false"
    }
}

pub open spec fn row_key_text(h: ScheduleHeader, active: bool, permanent: bool) -> Seq<char> {
    bool_text(permanent) + ":"@ + bool_text(active) + ":"@ + if active && !permanent {
        h.end_date@
    } else {
        h.start_date@
    }
}

pub open spec fn row_title(active: bool, permanent: bool, d: i64) -> Seq<char> {
    let period = if active && !permanent {
        "[~"@ + jst_short_text(d) + "]"@
    } else {
        "["@ + jst_short_text(d) + "~]"@
    };
    (if active {
        "🟢 "@
    } else {
        ""@
    }) + period + if permanent {
        " 常設"@
    } else {
        ""@
    }
}

fn row_key_exec(h: &ScheduleHeader, active: bool, permanent: bool) -> (r: Vec<char>)
    ensures
        r@ == row_key_text(*h, active, permanent),
{
    let mut key = chars_of(bool_exec(permanent));
    append_str(&mut key, ":");
    append_str(&mut key, bool_exec(active));
    append_str(&mut key, ":");
    if active && !permanent {
        append_str(&mut key, h.end_date.as_str());
    } else {
        append_str(&mut key, h.start_date.as_str());
    }
    key
}

fn row_title_exec(active: bool, permanent: bool, d: i64) -> (r: Vec<char>)
    ensures
        r@ == row_title(active, permanent, d),
{
    let mut period = if active && !permanent {
        chars_of("[~")
    } else {
        chars_of("[")
    };
    append(&mut period, jst_short_exec(d).as_slice());
    if active && !permanent {
        append_str(&mut period, "]");
    } else {
        append_str(&mut period, "~]");
    }
    let mut title = if active {
        chars_of("🟢 ")
    } else {
        chars_of("")
    };
    append(&mut title, period.as_slice());
    if permanent {
        append_str(&mut title, " 常設");
    }
    let ghost p = if active && !permanent {
        "[~"@ + jst_short_text(d) + "]"@
    } else {
        "["@ + jst_short_text(d) + "~]"@
    };
    assert(period@ =~= p);
    proof {
        reveal_strlit("");
    }
    assert(title@ =~= row_title(active, permanent, d));
    title
}

fn section_row_exec(r: &Row, now: i64, mission: bool) -> (res: Result<(Vec<char>, Vec<char>, Vec<char>), String>)
    ensures
        match res {
            Ok((k, t, l)) => section_row(row_view(*r), now, mission) == Ok::<(Seq<char>, Seq<char>, Seq<char>), Seq<char>>((k@, t@, l@)),
            Err(e) => section_row(row_view(*r), now, mission) == Err::<(Seq<char>, Seq<char>, Seq<char>), Seq<char>>(e@),
        },
{
    let start = match parse_header_date(r.header.start_date.as_str(), r.header.start_time.as_str()) {
        Ok(t) => t,
        Err(e) => {
            return Err(e);
        },
    };
    let active = start <= now;
    let permanent = is_permanent(r.header);
    let use_end = active && !permanent;
    let date = if use_end {
        match parse_header_date(r.header.end_date.as_str(), r.header.end_time.as_str()) {
            Ok(t) => t,
            Err(e) => {
                return Err(e);
            },
        }
    } else {
        start
    };
    let key = row_key_exec(r.header, active, permanent);
    let title = row_title_exec(active, permanent, date);
    let label = section_label_exec(r.label.as_str(), mission);
    assert(key@ == bool_text(permanent) + ":"@ + bool_text(active) + ":"@ + if use_end {
        r.header.end_date@
    } else {
        r.header.start_date@
    });
    Ok((key, title, label))
}

pub open spec fn section_group_views(gs: Seq<CodeGroup>) -> Seq<SectionGroup> {
    gs.map_values(|g: CodeGroup| SectionGroup { key: g.key@, title: g.title@, labels: crate::text::string_views(g.labels@) })
}

fn add_row_exec(groups: &mut Vec<CodeGroup>, key: Vec<char>, title: Vec<char>, label: Vec<char>)
    ensures
        section_group_views(final(groups)@) == add_row(section_group_views(old(groups)@), key@, title@, label@),
{
    let ghost gs = section_group_views(groups@);
    let mut j: usize = 0;
    while j < groups.len() && !eq(chars_of(groups[j].key.as_str()).as_slice(), key.as_slice())
        invariant
            j <= groups@.len(),
            gs == section_group_views(groups@),
            forall|m: int| 0 <= m < j ==> (#[trigger] groups@[m]).key@ != key@,
        decreases groups@.len() - j,
    {
        j += 1;
    }
    proof {
        assert forall|m: int| 0 <= m < j implies (#[trigger] section_keys(gs)[m]) != key@ by {
            assert(section_keys(gs)[m] == groups@[m].key@);
        }
        if j < groups@.len() {
            assert(section_keys(gs)[j as int] == groups@[j as int].key@);
        }
        crate::gatya_schedule::lemma_first_index(section_keys(gs), key@, j as int);
    }
    if j == groups.len() {
        let mut labels: Vec<String> = Vec::new();
        labels.push(string_of(label.as_slice()));
        assert(crate::text::string_views(labels@) =~= seq![label@]);
        groups.push(CodeGroup { key: string_of(key.as_slice()), title: string_of(title.as_slice()), labels });
        assert(section_group_views(groups@) =~= gs.push(SectionGroup { key: key@, title: title@, labels: seq![label@] }));
    } else {
        let mut g = groups.remove(j);
        let ghost before = crate::text::string_views(g.labels@);
        g.labels.push(string_of(label.as_slice()));
        assert(crate::text::string_views(g.labels@) =~= before.push(label@));
        groups.insert(j, g);
        assert(section_group_views(groups@) =~= gs.update(j as int, SectionGroup { labels: gs[j as int].labels.push(label@), ..gs[j as int] }));
    }
}

fn rest_footers(rows: &Vec<Row>, order: &Vec<usize>, shown: usize) -> (r: Vec<String>)
    requires
        shown <= order@.len(),
        forall|m: int| 0 <= m < order@.len() ==> order@[m] < rows@.len(),
    ensures
        crate::text::string_views(r@) == spec_mission_footers(row_ids(row_views(rows@), order@.skip(shown as int))),
{
    let mut ids: Vec<i64> = Vec::new();
    let mut k: usize = shown;
    assert(row_ids(row_views(rows@), order@.skip(shown as int).take(0)) =~= seq![]);
    while k < order.len()
        invariant
            shown <= k <= order@.len(),
            forall|m: int| 0 <= m < order@.len() ==> order@[m] < rows@.len(),
            ids@ == row_ids(row_views(rows@), order@.skip(shown as int).take(k - shown)),
        decreases order@.len() - k,
    {
        let ghost tail = order@.skip(shown as int).take(k + 1 - shown);
        assert(tail.drop_last() =~= order@.skip(shown as int).take(k - shown));
        assert(tail.last() == order@[k as int]);
        assert(row_views(rows@)[order@[k as int] as int] == row_view(rows@[order@[k as int] as int]));
        match rows[order[k]].id {
            Some(id) => ids.push(id),
            None => {},
        }
        k += 1;
    }
    assert(order@.skip(shown as int).take(k - shown) =~= order@.skip(shown as int));
    mission_footers(&ids)
}

/// The messages of one section of added schedules.
#[verifier::spinoff_prover]
pub fn format_section(name: &str, rows: Vec<Row>, now: i64) -> (r: Result<Vec<String>, String>)
    ensures
        match r {
            Ok(parts) => spec_format_section(name@, row_views(rows@), now) == Ok::<Seq<Seq<char>>, Seq<char>>(crate::text::string_views(parts@)),
            Err(e) => spec_format_section(name@, row_views(rows@), now) == Err::<Seq<Seq<char>>, Seq<char>>(e@),
        },
{
    let mission = eq_str(chars_of(name).as_slice(), "mission");
    let order = section_order(&rows, now);
    let shown: usize = if mission && order.len() > MISSION_DISPLAY_LIMIT {
        MISSION_DISPLAY_LIMIT
    } else {
        order.len()
    };
    let mut groups: Vec<CodeGroup> = Vec::new();
    let mut i: usize = 0;
    assert(section_group_views(groups@) =~= seq![]);
    while i < shown
        invariant
            i <= shown <= order@.len(),
            shown == shown_count(mission, order@.len()),
            mission == (name@ == "mission"@),
            order@ == sorted_rows(row_views(rows@), now),
            forall|k: int| 0 <= k < order@.len() ==> order@[k] < rows@.len(),
            section_groups(row_views(rows@), order@, now, mission, i as int) == Ok::<Seq<SectionGroup>, Seq<char>>(section_group_views(groups@)),
        decreases shown - i,
    {
        assert(row_views(rows@)[order@[i as int] as int] == row_view(rows@[order@[i as int] as int]));
        match section_row_exec(&rows[order[i]], now, mission) {
            Ok((k, t, l)) => {
                add_row_exec(&mut groups, k, t, l);
            },
            Err(e) => {
                proof {
                    lemma_section_groups_err(row_views(rows@), order@, now, mission, i + 1, shown as int, e@);
                    reveal(spec_format_section);
                }
                return Err(e);
            },
        }
        i += 1;
    }
    let ghost gs = section_group_views(groups@);
    if mission && order.len() > shown {
        let footers = rest_footers(&rows, &order, shown);
        let key = string_of(chars_of("omitted").as_slice());
        let title = string_of(chars_of("").as_slice());
        let ghost fv = crate::text::string_views(footers@);
        groups.push(CodeGroup { key, title, labels: footers });
        proof {
            reveal_strlit("omitted");
            reveal_strlit("");
        }
        assert(section_group_views(groups@) =~= gs.push(SectionGroup { key: "omitted"@, title: ""@, labels: fv }));
    }
    proof {
        reveal_strlit("omitted");
        reveal_strlit("");
    }
    let ghost all = section_group_views(groups@);
    assert(code_group_views(groups@) =~= all.map_values(|g: SectionGroup| (g.title, g.labels)));
    let r = format_code_blocks(name, groups, "\n");
    proof {
        reveal(spec_format_section);
    }
    r
}

proof fn lemma_section_groups_err(rows: Seq<RowSpec>, order: Seq<usize>, now: i64, mission: bool, n: int, m: int, e: Seq<char>)
    requires
        n <= m,
        section_groups(rows, order, now, mission, n) == Err::<Seq<SectionGroup>, Seq<char>>(e),
    ensures
        section_groups(rows, order, now, mission, m) == Err::<Seq<SectionGroup>, Seq<char>>(e),
    decreases m - n,
{
    if n < m {
        lemma_section_groups_err(rows, order, now, mission, n, m - 1, e);
    }
}


// ---------------------------------------------------------------------------
// Labels of schedules
// ---------------------------------------------------------------------------

/// `{id} s{series} {name}{labels}{tag}` for a gacha, `s?` and `不明` when
/// its series is not known.
pub open spec fn spec_gacha_label(entry: GachaEntry, gacha_type: i64, data: &GachaScheduleData) -> Seq<char> {
    let mode = spec_mode_for_type(gacha_type);
    let sid = series_of(&data.series_mappings, gacha_type, entry.id);
    crate::text::decimal_int(entry.id as int) + " s"@ + (match sid {
        Some(v) => crate::text::decimal_int(v as int),
        None => "?"@,
    }) + " "@ + series_name_of(&data.short_series_names, mode, sid) + spec_entry_labels(entry.guaranteed, entry.flags)
        + spec_type_tag(gacha_type)
}

pub fn gacha_label(entry: &GachaEntry, gacha_type: i64, data: &GachaScheduleData) -> (r: Vec<char>)
    ensures
        r@ == spec_gacha_label(*entry, gacha_type, data),
{
    broadcast use vstd::std_specs::hash::group_hash_axioms;
    let mode = crate::gatya::mode_for_type(gacha_type);
    let sid = series_id(&data.series_mappings, gacha_type, entry.id);
    let mut v = crate::text::fmt_i64(entry.id);
    append_str(&mut v, " s");
    match sid {
        Some(x) => append(&mut v, crate::text::fmt_i64(x).as_slice()),
        None => append_str(&mut v, "?"),
    }
    append_str(&mut v, " ");
    let name: Vec<char> = match sid {
        Some(id) => match data.short_series_names.get(mode).get(&id) {
            Some(n) => chars_of(n.as_str()),
            None => chars_of("不明"),
        },
        None => chars_of("不明"),
    };
    append(&mut v, name.as_slice());
    append(&mut v, chars_of(entry_labels(entry).as_str()).as_slice());
    append_str(&mut v, crate::gatya::type_tag(gacha_type));
    v
}

/// `{gift type} {name}` and ` ×{amount}` for a positive amount.
pub open spec fn spec_item_label(entry: ItemEntry, data: &ItemDisplayData) -> Seq<char> {
    crate::text::decimal_int(entry.gift.gift_type as int) + " "@ + spec_schedule_name(entry, data) + if entry.gift.gift_amount > 0 {
        " ×"@ + crate::text::decimal_int(entry.gift.gift_amount as int)
    } else {
        ""@
    }
}

pub fn item_label(entry: &ItemEntry, data: &ItemDisplayData) -> (r: Vec<char>)
    ensures
        r@ == spec_item_label(*entry, data),
{
    let mut v = crate::text::fmt_i64(entry.gift.gift_type);
    append_str(&mut v, " ");
    append(&mut v, schedule_name(entry, data).as_slice());
    if entry.gift.gift_amount > 0 {
        append_str(&mut v, " ×");
        append(&mut v, crate::text::fmt_i64(entry.gift.gift_amount).as_slice());
    } else {
        proof {
            reveal_strlit("");
        }
        assert(v@ =~= v@ + ""@);
    }
    v
}

// ---------------------------------------------------------------------------
// Changed schedules
// ---------------------------------------------------------------------------

pub struct ScheduleChange<T> {
    pub before: T,
    pub after: T,
}

/// Schedules whose period or versions changed, by kind.
pub struct ScheduleChanges {
    pub gatya: Vec<ScheduleChange<GachaBlock>>,
    pub sale: Vec<ScheduleChange<SaleEntry>>,
    pub item: Vec<ScheduleChange<ItemEntry>>,
}

/// The data that announcing added and changed schedules draws on.
pub struct AddedScheduleData {
    pub gatya: Option<GachaScheduleData>,
    pub sale: Option<SaleDisplayData>,
    pub item: Option<ItemDisplayData>,
    pub changes: ScheduleChanges,
}

/// The kinds of change rows, in the order they are listed: gatya, sale,
/// item, mission.
pub open spec fn kind_name(k: u8) -> Seq<char> {
    if k == 0 {
        "gatya"@
    } else if k == 1 {
        "sale"@
    } else if k == 2 {
        "item"@
    } else {
        "mission"@
    }
}

fn kind_name_exec(k: u8) -> (r: &'static str)
    ensures
        r@ == kind_name(k),
{
    if k == 0 {
        "gatya"
    } else if k == 1 {
        "sale"
    } else if k == 2 {
        "item"
    } else {
        "mission"
    }
}

pub type ChangeRowView = (u8, Seq<char>, ScheduleHeader, ScheduleHeader);

pub open spec fn gatya_change_rows(data: &AddedScheduleData, n: int) -> Seq<ChangeRowView>
    decreases n,
{
    if n <= 0 {
        seq![]
    } else {
        let prev = gatya_change_rows(data, n - 1);
        let c = data.changes.gatya@[n - 1];
        if data.gatya is Some && c.after.gachas@.len() > 0 && c.after.gachas@[0].id >= 0 {
            prev.push((0u8, spec_gacha_label(c.after.gachas@[0], c.after.header.gacha_type, &data.gatya->Some_0), c.before.header.schedule, c.after.header.schedule))
        } else {
            prev
        }
    }
}

pub open spec fn sale_change_rows(data: &AddedScheduleData, n: int) -> Seq<ChangeRowView>
    decreases n,
{
    if n <= 0 {
        seq![]
    } else {
        let prev = sale_change_rows(data, n - 1);
        let c = data.changes.sale@[n - 1];
        if data.sale is Some && c.after.stage_ids@.len() > 0 {
            let id = c.after.stage_ids@[0];
            let sale = data.sale->Some_0;
            prev.push((
                if spec_is_mission_id(id) { 3u8 } else { 1u8 },
                crate::text::decimal_int(id as int) + " "@ + spec_stage_name(id, sale.sale_names@, sale.all_day_event_names@, sale.mission_names@, "\n"@),
                c.before.header,
                c.after.header,
            ))
        } else {
            prev
        }
    }
}

pub open spec fn item_change_rows(data: &AddedScheduleData, n: int) -> Seq<ChangeRowView>
    decreases n,
{
    if n <= 0 {
        seq![]
    } else {
        let prev = item_change_rows(data, n - 1);
        let c = data.changes.item@[n - 1];
        if data.item is Some {
            prev.push((2u8, spec_item_label(c.after, &data.item->Some_0), c.before.header, c.after.header))
        } else {
            prev
        }
    }
}

pub open spec fn change_rows(data: &AddedScheduleData) -> Seq<ChangeRowView> {
    gatya_change_rows(data, data.changes.gatya@.len() as int) + sale_change_rows(data, data.changes.sale@.len() as int)
        + item_change_rows(data, data.changes.item@.len() as int)
}

pub open spec fn change_key(r: ChangeRowView) -> Seq<char> {
    kind_name(r.0) + "\0"@ + r.1 + "\0"@ + spec_header_key(r.2) + "\0"@ + spec_header_key(r.3)
}

/// The rows kept: the first of each key, when its new period is still visible.
pub open spec fn kept_changes(rows: Seq<ChangeRowView>, now: i64, n: int) -> Seq<usize>
    decreases n,
{
    if n <= 0 {
        seq![]
    } else {
        let prev = kept_changes(rows, now, n - 1);
        if (forall|j: int| 0 <= j < n - 1 ==> change_key(#[trigger] rows[j]) != change_key(rows[n - 1])) && spec_is_visible(
            rows[n - 1].3,
            now,
        ) {
            prev.push((n - 1) as usize)
        } else {
            prev
        }
    }
}

/// The lines that describe what changed between two headers.
pub open spec fn change_details(b: ScheduleHeader, a: ScheduleHeader) -> Seq<Seq<char>> {
    let d1: Seq<Seq<char>> = if b.start_date@ != a.start_date@ || b.start_time@ != a.start_time@ {
        seq!["開始: "@ + spec_date_time(b.start_date@, b.start_time@) + " → "@ + spec_date_time(a.start_date@, a.start_time@)]
    } else {
        seq![]
    };
    let d2: Seq<Seq<char>> = if b.end_date@ != a.end_date@ || b.end_time@ != a.end_time@ {
        seq!["終了: "@ + spec_end_date_time(b) + " → "@ + spec_end_date_time(a)]
    } else {
        seq![]
    };
    let d3: Seq<Seq<char>> = if b.min_version@ != a.min_version@ {
        seq!["必要Ver: "@ + b.min_version@ + " → "@ + a.min_version@]
    } else {
        seq![]
    };
    let d4: Seq<Seq<char>> = if b.max_version@ != a.max_version@ {
        seq!["上限Ver: "@ + b.max_version@ + " → "@ + a.max_version@]
    } else {
        seq![]
    };
    d1 + d2 + d3 + d4
}

pub open spec fn change_label(r: ChangeRowView) -> Seq<char> {
    let text = "["@ + kind_name(r.0) + "] "@ + spec_truncate_utf16(r.1, 120) + "\n  "@ + spec_join(change_details(r.2, r.3), "\n  "@);
    spec_truncate_utf16(spec_replace(spec_replace(text, "`"@, " "@), "\r"@, ""@), 360)
}

/// The message block of changed schedules, in the order of their kinds.
#[verifier::opaque]
pub open spec fn spec_format_changes(data: &AddedScheduleData, now: i64) -> Result<Seq<Seq<char>>, Seq<char>> {
    let rows = change_rows(data);
    let kept = kept_changes(rows, now, rows.len() as int);
    let order = sort_by_key(kept.map_values(|i: usize| (Some(rows[i as int].0 as i64), i))).map_values(|p: (Option<i64>, usize)| p.1);
    if order.len() == 0 {
        Ok(seq![])
    } else {
        spec_code_blocks("変更"@, seq![(""@, order.map_values(|i: usize| change_label(rows[i as int])))], "\n\n"@)
    }
}


pub open spec fn change_row_views<'a>(v: Seq<(u8, Vec<char>, &'a ScheduleHeader, &'a ScheduleHeader)>) -> Seq<ChangeRowView> {
    v.map_values(|r: (u8, Vec<char>, &'a ScheduleHeader, &'a ScheduleHeader)| (r.0, r.1@, *r.2, *r.3))
}

fn push_row<'a>(rows: &mut Vec<(u8, Vec<char>, &'a ScheduleHeader, &'a ScheduleHeader)>, row: (u8, Vec<char>, &'a ScheduleHeader, &'a ScheduleHeader))
    ensures
        change_row_views(final(rows)@) == change_row_views(old(rows)@).push((row.0, row.1@, *row.2, *row.3)),
{
    rows.push(row);
    assert(change_row_views(rows@) =~= change_row_views(old(rows)@).push((row.0, row.1@, *row.2, *row.3)));
}

fn collect_change_rows<'a>(data: &'a AddedScheduleData) -> (r: Vec<(u8, Vec<char>, &'a ScheduleHeader, &'a ScheduleHeader)>)
    ensures
        change_row_views(r@) == change_rows(data),
{
    let mut rows: Vec<(u8, Vec<char>, &'a ScheduleHeader, &'a ScheduleHeader)> = Vec::new();
    assert(change_row_views(rows@) =~= seq![]);
    let mut i: usize = 0;
    while i < data.changes.gatya.len()
        invariant
            i <= data.changes.gatya@.len(),
            change_row_views(rows@) == gatya_change_rows(data, i as int),
        decreases data.changes.gatya@.len() - i,
    {
        let c = &data.changes.gatya[i];
        match &data.gatya {
            Some(g) => {
                if c.after.gachas.len() > 0 && c.after.gachas[0].id >= 0 {
                    let label = gacha_label(&c.after.gachas[0], c.after.header.gacha_type, g);
                    push_row(&mut rows, (0u8, label, &c.before.header.schedule, &c.after.header.schedule));
                }
            },
            None => {},
        }
        i += 1;
    }
    let ghost g_rows = change_row_views(rows@);
    let mut j: usize = 0;
    assert(g_rows + sale_change_rows(data, 0) =~= g_rows);
    while j < data.changes.sale.len()
        invariant
            j <= data.changes.sale@.len(),
            g_rows == gatya_change_rows(data, data.changes.gatya@.len() as int),
            change_row_views(rows@) == g_rows + sale_change_rows(data, j as int),
        decreases data.changes.sale@.len() - j,
    {
        let c = &data.changes.sale[j];
        match &data.sale {
            Some(sale) => {
                if c.after.stage_ids.len() > 0 {
                    let id = c.after.stage_ids[0];
                    let mut label = crate::text::fmt_i64(id);
                    append_str(&mut label, " ");
                    append(&mut label, chars_of(crate::sale::stage_name_preserving_breaks(id, sale).as_str()).as_slice());
                    let kind: u8 = if crate::sale::is_mission_id(id) {
                        3
                    } else {
                        1
                    };
                    push_row(&mut rows, (kind, label, &c.before.header, &c.after.header));
                    assert(change_row_views(rows@) =~= g_rows + sale_change_rows(data, j + 1));
                }
            },
            None => {},
        }
        j += 1;
    }
    let ghost gs_rows = change_row_views(rows@);
    let mut k: usize = 0;
    assert(gs_rows + item_change_rows(data, 0) =~= gs_rows);
    while k < data.changes.item.len()
        invariant
            k <= data.changes.item@.len(),
            gs_rows == gatya_change_rows(data, data.changes.gatya@.len() as int) + sale_change_rows(data, data.changes.sale@.len() as int),
            change_row_views(rows@) == gs_rows + item_change_rows(data, k as int),
        decreases data.changes.item@.len() - k,
    {
        let c = &data.changes.item[k];
        match &data.item {
            Some(item) => {
                let label = item_label(&c.after, item);
                push_row(&mut rows, (2u8, label, &c.before.header, &c.after.header));
                assert(change_row_views(rows@) =~= gs_rows + item_change_rows(data, k + 1));
            },
            None => {},
        }
        k += 1;
    }
    rows
}

fn change_key_exec(kind: u8, label: &Vec<char>, before: &ScheduleHeader, after: &ScheduleHeader) -> (r: Vec<char>)
    ensures
        r@ == change_key((kind, label@, *before, *after)),
{
    let mut v = chars_of(kind_name_exec(kind));
    append_str(&mut v, "\0");
    append(&mut v, label.as_slice());
    append_str(&mut v, "\0");
    append(&mut v, header_key(before).as_slice());
    append_str(&mut v, "\0");
    append(&mut v, header_key(after).as_slice());
    v
}

fn kept_list<'a>(rows: &Vec<(u8, Vec<char>, &'a ScheduleHeader, &'a ScheduleHeader)>, now: i64) -> (r: Vec<usize>)
    ensures
        r@ == kept_changes(change_row_views(rows@), now, rows@.len() as int),
{
    let ghost rv = change_row_views(rows@);
    let mut keys: Vec<Vec<char>> = Vec::new();
    let mut r: Vec<usize> = Vec::new();
    let mut i: usize = 0;
    while i < rows.len()
        invariant
            i <= rows@.len(),
            rv == change_row_views(rows@),
            keys@.len() == i,
            forall|j: int| 0 <= j < i ==> (#[trigger] keys@[j])@ == change_key(rv[j]),
            r@ == kept_changes(rv, now, i as int),
        decreases rows@.len() - i,
    {
        let row = &rows[i];
        let key = change_key_exec(row.0, &row.1, row.2, row.3);
        assert(rv[i as int] == (row.0, row.1@, *row.2, *row.3));
        let mut seen = false;
        let mut j: usize = 0;
        while j < i
            invariant
                j <= i,
                keys@.len() == i,
                i < rv.len(),
                key@ == change_key(rv[i as int]),
                forall|m: int| 0 <= m < i ==> (#[trigger] keys@[m])@ == change_key(rv[m]),
                seen == exists|m: int| 0 <= m < j && change_key(#[trigger] rv[m]) == change_key(rv[i as int]),
            decreases i - j,
        {
            if eq(keys[j].as_slice(), key.as_slice()) {
                seen = true;
            }
            assert(keys@[j as int]@ == change_key(rv[j as int]));
            j += 1;
        }
        if !seen && is_visible(row.3, now) {
            r.push(i);
        }
        keys.push(key);
        i += 1;
    }
    r
}

fn details_exec(b: &ScheduleHeader, a: &ScheduleHeader) -> (r: Vec<Vec<char>>)
    ensures
        views(r@) == change_details(*b, *a),
{
    let mut d: Vec<Vec<char>> = Vec::new();
    let same_start = eq(chars_of(b.start_date.as_str()).as_slice(), chars_of(a.start_date.as_str()).as_slice())
        && eq(chars_of(b.start_time.as_str()).as_slice(), chars_of(a.start_time.as_str()).as_slice());
    if !same_start {
        let mut l = chars_of("開始: ");
        append(&mut l, date_time(b.start_date.as_str(), b.start_time.as_str()).as_slice());
        append_str(&mut l, " → ");
        append(&mut l, date_time(a.start_date.as_str(), a.start_time.as_str()).as_slice());
        push_line(&mut d, l);
    }
    let ghost d1 = views(d@);
    let same_end = eq(chars_of(b.end_date.as_str()).as_slice(), chars_of(a.end_date.as_str()).as_slice())
        && eq(chars_of(b.end_time.as_str()).as_slice(), chars_of(a.end_time.as_str()).as_slice());
    if !same_end {
        let mut l = chars_of("終了: ");
        append(&mut l, end_date_time(b).as_slice());
        append_str(&mut l, " → ");
        append(&mut l, end_date_time(a).as_slice());
        push_line(&mut d, l);
    }
    let ghost d2 = views(d@);
    if !eq(chars_of(b.min_version.as_str()).as_slice(), chars_of(a.min_version.as_str()).as_slice()) {
        let mut l = chars_of("必要Ver: ");
        append_str(&mut l, b.min_version.as_str());
        append_str(&mut l, " → ");
        append_str(&mut l, a.min_version.as_str());
        push_line(&mut d, l);
    }
    let ghost d3 = views(d@);
    if !eq(chars_of(b.max_version.as_str()).as_slice(), chars_of(a.max_version.as_str()).as_slice()) {
        let mut l = chars_of("上限Ver: ");
        append_str(&mut l, b.max_version.as_str());
        append_str(&mut l, " → ");
        append_str(&mut l, a.max_version.as_str());
        push_line(&mut d, l);
    }
    assert(views(d@) =~= change_details(*b, *a));
    d
}

fn change_label_exec(kind: u8, label: &Vec<char>, b: &ScheduleHeader, a: &ScheduleHeader) -> (r: Vec<char>)
    ensures
        r@ == change_label((kind, label@, *b, *a)),
{
    proof {
        reveal_strlit("`");
        reveal_strlit("\r");
    }
    let mut text = chars_of("[");
    append_str(&mut text, kind_name_exec(kind));
    append_str(&mut text, "] ");
    append(&mut text, truncate_utf16(label.as_slice(), 120).as_slice());
    append_str(&mut text, "\n  ");
    let details = details_exec(b, a);
    append(&mut text, join_str(details.as_slice(), "\n  ").as_slice());
    let cleaned = replace_str(replace_str(text.as_slice(), "`", " ").as_slice(), "\r", "");
    truncate_utf16(cleaned.as_slice(), 360)
}

/// The block of changed schedules; nothing when no change is still visible.
pub fn format_changes(data: &AddedScheduleData, now: i64) -> (r: Result<Vec<String>, String>)
    ensures
        match r {
            Ok(parts) => spec_format_changes(data, now) == Ok::<Seq<Seq<char>>, Seq<char>>(crate::text::string_views(parts@)),
            Err(e) => spec_format_changes(data, now) == Err::<Seq<Seq<char>>, Seq<char>>(e@),
        },
{
    proof {
        reveal(spec_format_changes);
    }
    let rows = collect_change_rows(data);
    let ghost rv = change_row_views(rows@);
    let kept = kept_list(&rows, now);
    let count = rows.len();
    assert(rv.len() == count);
    proof {
        lemma_kept_bound(rv, now, rv.len() as int);
    }
    let ghost f = |i: usize| (Some(rv[i as int].0 as i64), i);
    let mut pairs: Vec<(Option<i64>, usize)> = Vec::new();
    let mut i: usize = 0;
    while i < kept.len()
        invariant
            i <= kept@.len(),
            rv == change_row_views(rows@),
            forall|k: int| 0 <= k < kept@.len() ==> kept@[k] < rv.len(),
            f == (|i: usize| (Some(rv[i as int].0 as i64), i)),
            pairs@ == kept@.take(i as int).map_values(f),
        decreases kept@.len() - i,
    {
        let idx = kept[i];
        assert(rv[idx as int].0 == rows@[idx as int].0);
        pairs.push((Some(rows[idx].0 as i64), idx));
        assert(pairs@ =~= kept@.take(i + 1).map_values(f));
        i += 1;
    }
    assert(kept@.take(i as int) =~= kept@);
    let sorted = sort_pairs(pairs);
    proof {
        lemma_sort_keeps_members(kept@.map_values(f), rv.len() as int);
    }
    if sorted.len() == 0 {
        let empty: Vec<String> = Vec::new();
        assert(crate::text::string_views(empty@) =~= seq![]);
        return Ok(empty);
    }
    let ghost order = sorted@.map_values(|p: (Option<i64>, usize)| p.1);
    let ghost lf = |i: usize| change_label(rv[i as int]);
    let mut labels: Vec<String> = Vec::new();
    let mut k: usize = 0;
    while k < sorted.len()
        invariant
            k <= sorted@.len(),
            rv == change_row_views(rows@),
            order == sorted@.map_values(|p: (Option<i64>, usize)| p.1),
            lf == (|i: usize| change_label(rv[i as int])),
            forall|m: int| 0 <= m < sorted@.len() ==> (#[trigger] sorted@[m]).1 < rv.len(),
            crate::text::string_views(labels@) == order.take(k as int).map_values(lf),
        decreases sorted@.len() - k,
    {
        let idx = sorted[k].1;
        let row = &rows[idx];
        assert(rv[idx as int] == (row.0, row.1@, *row.2, *row.3));
        let l = change_label_exec(row.0, &row.1, row.2, row.3);
        let ghost before = labels@;
        labels.push(string_of(l.as_slice()));
        assert(crate::text::string_views(labels@) =~= crate::text::string_views(before).push(l@));
        assert(crate::text::string_views(labels@) =~= order.take(k + 1).map_values(lf));
        k += 1;
    }
    assert(order.take(k as int) =~= order);
    let ghost lv = crate::text::string_views(labels@);
    let mut groups: Vec<CodeGroup> = Vec::new();
    groups.push(CodeGroup { key: string_of(chars_of("").as_slice()), title: string_of(chars_of("").as_slice()), labels });
    proof {
        reveal_strlit("");
    }
    assert(code_group_views(groups@) =~= seq![(""@, order.map_values(lf))]);
    format_code_blocks("変更", groups, "\n\n")
}

proof fn lemma_kept_bound(rows: Seq<ChangeRowView>, now: i64, n: int)
    requires
        n <= rows.len(),
        rows.len() <= usize::MAX,
    ensures
        forall|k: int| 0 <= k < kept_changes(rows, now, n).len() ==> kept_changes(rows, now, n)[k] < rows.len(),
    decreases n,
{
    if n > 0 {
        lemma_kept_bound(rows, now, n - 1);
        let prev = kept_changes(rows, now, n - 1);
        let cur = kept_changes(rows, now, n);
        assert forall|k: int| 0 <= k < cur.len() implies cur[k] < rows.len() by {
            if k < prev.len() {
                assert(cur[k] == prev[k]);
            }
        }
    }
}


// ---------------------------------------------------------------------------
// Added schedules
// ---------------------------------------------------------------------------

pub open spec fn block_rows(b: GachaBlock, g: &GachaScheduleData, n: int) -> Seq<RowSpec>
    decreases n,
{
    if n <= 0 {
        seq![]
    } else {
        let prev = block_rows(b, g, n - 1);
        let e = b.gachas@[n - 1];
        if e.id >= 0 {
            prev.push(RowSpec { header: b.header.schedule, label: spec_gacha_label(e, b.header.gacha_type, g), id: None })
        } else {
            prev
        }
    }
}

/// One row for each gacha with a non-negative id, block by block.
pub open spec fn gatya_rows(g: &GachaScheduleData, n: int) -> Seq<RowSpec>
    decreases n,
{
    if n <= 0 {
        seq![]
    } else {
        let b = g.gacha@[n - 1];
        gatya_rows(g, n - 1) + block_rows(b, g, b.gachas@.len() as int)
    }
}

/// ` <{duration}>` after a sale that ends, read from its header.
pub open spec fn sale_duration(h: ScheduleHeader) -> Result<Seq<char>, Seq<char>> {
    if spec_is_permanent(h) {
        Ok(""@)
    } else {
        match spec_header_date(h.start_date@, h.start_time@) {
            Err(e) => Err(e),
            Ok(s) => match spec_header_date(h.end_date@, h.end_time@) {
                Err(e) => Err(e),
                Ok(t) => Ok(" "@ + crate::schedule::spec_format_duration(s as i64, t as i64)),
            },
        }
    }
}

pub open spec fn sale_label(id: i64, sale: &SaleDisplayData, line_break: Seq<char>, duration: Seq<char>) -> Seq<char> {
    crate::text::decimal_int(id as int) + " "@ + spec_stage_name(id, sale.sale_names@, sale.all_day_event_names@, sale.mission_names@, line_break)
        + duration
}

pub open spec fn mission_ids(ids: Seq<i64>) -> Seq<i64>
    decreases ids.len(),
{
    if ids.len() == 0 {
        seq![]
    } else if spec_is_mission_id(ids.last()) {
        mission_ids(ids.drop_last()).push(ids.last())
    } else {
        mission_ids(ids.drop_last())
    }
}

/// The sale rows and the mission rows of the first `n` sales.
pub open spec fn sale_rows(sale: &SaleDisplayData, n: int) -> Result<(Seq<RowSpec>, Seq<RowSpec>), Seq<char>>
    decreases n,
{
    if n <= 0 {
        Ok((seq![], seq![]))
    } else {
        match sale_rows(sale, n - 1) {
            Err(e) => Err(e),
            Ok((rows, missions)) => {
                let entry = sale.sale.data@[n - 1];
                match sale_duration(entry.header) {
                    Err(e) => Err(e),
                    Ok(d) => Ok((
                        rows + crate::sale::spec_list_stage_ids(entry.stage_ids@, sale.card_setting_stage_ids@).map_values(
                            |id: i64| RowSpec { header: entry.header, label: sale_label(id, sale, " "@, d), id: None },
                        ),
                        missions + mission_ids(entry.stage_ids@).map_values(
                            |id: i64| RowSpec { header: entry.header, label: sale_label(id, sale, "\n"@, d), id: Some(id) },
                        ),
                    )),
                }
            },
        }
    }
}

pub open spec fn item_rows(item: &ItemDisplayData, n: int) -> Seq<RowSpec>
    decreases n,
{
    if n <= 0 {
        seq![]
    } else {
        let e = item.item.data@[n - 1];
        item_rows(item, n - 1).push(RowSpec { header: e.header, label: spec_item_label(e, item), id: None })
    }
}

/// The messages announcing added schedules: a section for each kind, the
/// changed schedules, and a link to the history site.
pub open spec fn spec_format_added(data: &AddedScheduleData, now: i64, history_url: Seq<char>) -> Result<Seq<Seq<char>>, Seq<char>> {
    let g = match data.gatya {
        Some(g) => gatya_rows(&g, g.gacha@.len() as int),
        None => seq![],
    };
    let sm = match data.sale {
        Some(s) => sale_rows(&s, s.sale.data@.len() as int),
        None => Ok((seq![], seq![])),
    };
    let it = match data.item {
        Some(i) => item_rows(&i, i.item.data@.len() as int),
        None => seq![],
    };
    match sm {
        Err(e) => Err(e),
        Ok((sr, mr)) => sections_after_rows(data, g, sr, it, mr, now, history_url),
    }
}

fn push_spec_row<'a>(rows: &mut Vec<Row<'a>>, row: Row<'a>)
    ensures
        row_views(final(rows)@) == row_views(old(rows)@).push(row_view(row)),
{
    rows.push(row);
    assert(row_views(rows@) =~= row_views(old(rows)@).push(row_view(row)));
}

fn collect_gatya_rows<'a>(g: &'a GachaScheduleData) -> (r: Vec<Row<'a>>)
    ensures
        row_views(r@) == gatya_rows(g, g.gacha@.len() as int),
{
    let mut rows: Vec<Row<'a>> = Vec::new();
    assert(row_views(rows@) =~= seq![]);
    let mut i: usize = 0;
    while i < g.gacha.len()
        invariant
            i <= g.gacha@.len(),
            row_views(rows@) == gatya_rows(g, i as int),
        decreases g.gacha@.len() - i,
    {
        let b = &g.gacha[i];
        let ghost base = row_views(rows@);
        let mut k: usize = 0;
        assert(base + block_rows(*b, g, 0) =~= base);
        while k < b.gachas.len()
            invariant
                k <= b.gachas@.len(),
                b == g.gacha@[i as int],
                row_views(rows@) == base + block_rows(*b, g, k as int),
            decreases b.gachas@.len() - k,
        {
            let e = &b.gachas[k];
            if e.id >= 0 {
                let label = gacha_label(e, b.header.gacha_type, g);
                push_spec_row(&mut rows, Row { header: &b.header.schedule, label: string_of(label.as_slice()), id: None });
                assert(row_views(rows@) =~= base + block_rows(*b, g, k + 1));
            }
            k += 1;
        }
        i += 1;
    }
    rows
}

fn collect_item_rows<'a>(item: &'a ItemDisplayData) -> (r: Vec<Row<'a>>)
    ensures
        row_views(r@) == item_rows(item, item.item.data@.len() as int),
{
    let mut rows: Vec<Row<'a>> = Vec::new();
    assert(row_views(rows@) =~= seq![]);
    let mut i: usize = 0;
    while i < item.item.data.len()
        invariant
            i <= item.item.data@.len(),
            row_views(rows@) == item_rows(item, i as int),
        decreases item.item.data@.len() - i,
    {
        let e = &item.item.data[i];
        let label = item_label(e, item);
        push_spec_row(&mut rows, Row { header: &e.header, label: string_of(label.as_slice()), id: None });
        i += 1;
    }
    rows
}

fn duration_exec(h: &ScheduleHeader) -> (r: Result<Vec<char>, String>)
    ensures
        match r {
            Ok(d) => sale_duration(*h) == Ok::<Seq<char>, Seq<char>>(d@),
            Err(e) => sale_duration(*h) == Err::<Seq<char>, Seq<char>>(e@),
        },
{
    if is_permanent(h) {
        proof {
            reveal_strlit("");
        }
        return Ok(chars_of(""));
    }
    let s = parse_header_date(h.start_date.as_str(), h.start_time.as_str())?;
    let t = parse_header_date(h.end_date.as_str(), h.end_time.as_str())?;
    let mut v = chars_of(" ");
    append(&mut v, chars_of(crate::schedule::format_duration(s, t).as_str()).as_slice());
    Ok(v)
}

fn sale_label_exec(id: i64, sale: &SaleDisplayData, line_break: bool, duration: &Vec<char>) -> (r: Vec<char>)
    ensures
        r@ == sale_label(id, sale, if line_break { "\n"@ } else { " "@ }, duration@),
{
    let mut v = crate::text::fmt_i64(id);
    append_str(&mut v, " ");
    let name = if line_break {
        crate::sale::stage_name_preserving_breaks(id, sale)
    } else {
        crate::sale::stage_name(id, sale)
    };
    append(&mut v, chars_of(name.as_str()).as_slice());
    append(&mut v, duration.as_slice());
    v
}

fn push_sale_entry_rows<'a>(rows: &mut Vec<Row<'a>>, sale: &'a SaleDisplayData, entry: &'a SaleEntry, d: &Vec<char>)
    ensures
        row_views(final(rows)@) == row_views(old(rows)@) + crate::sale::spec_list_stage_ids(entry.stage_ids@, sale.card_setting_stage_ids@).map_values(
            |id: i64| RowSpec { header: entry.header, label: sale_label(id, sale, " "@, d@), id: None },
        ),
{
    let ids = crate::sale::list_stage_ids(entry, sale.card_setting_stage_ids.as_slice());
    let ghost base = row_views(rows@);
    let ghost f = |id: i64| RowSpec { header: entry.header, label: sale_label(id, sale, " "@, d@), id: None };
    let mut k: usize = 0;
    assert(base + ids@.take(0).map_values(f) =~= base);
    while k < ids.len()
        invariant
            k <= ids@.len(),
            f == (|id: i64| RowSpec { header: entry.header, label: sale_label(id, sale, " "@, d@), id: None }),
            row_views(rows@) == base + ids@.take(k as int).map_values(f),
        decreases ids@.len() - k,
    {
        let label = sale_label_exec(ids[k], sale, false, d);
        push_spec_row(rows, Row { header: &entry.header, label: string_of(label.as_slice()), id: None });
        assert(row_views(rows@) =~= base + ids@.take(k + 1).map_values(f));
        k += 1;
    }
    assert(ids@.take(k as int) =~= ids@);
}

fn push_mission_rows<'a>(missions: &mut Vec<Row<'a>>, sale: &'a SaleDisplayData, entry: &'a SaleEntry, d: &Vec<char>)
    ensures
        row_views(final(missions)@) == row_views(old(missions)@) + mission_ids(entry.stage_ids@).map_values(
            |id: i64| RowSpec { header: entry.header, label: sale_label(id, sale, "\n"@, d@), id: Some(id) },
        ),
{
    let ghost mbase = row_views(missions@);
    let ghost mf = |id: i64| RowSpec { header: entry.header, label: sale_label(id, sale, "\n"@, d@), id: Some(id) };
    let mut j: usize = 0;
    assert(mbase + mission_ids(entry.stage_ids@.take(0)).map_values(mf) =~= mbase);
    while j < entry.stage_ids.len()
        invariant
            j <= entry.stage_ids@.len(),
            mf == (|id: i64| RowSpec { header: entry.header, label: sale_label(id, sale, "\n"@, d@), id: Some(id) }),
            row_views(missions@) == mbase + mission_ids(entry.stage_ids@.take(j as int)).map_values(mf),
        decreases entry.stage_ids@.len() - j,
    {
        let id = entry.stage_ids[j];
        assert(entry.stage_ids@.take(j + 1).drop_last() =~= entry.stage_ids@.take(j as int));
        if crate::sale::is_mission_id(id) {
            let label = sale_label_exec(id, sale, true, d);
            push_spec_row(missions, Row { header: &entry.header, label: string_of(label.as_slice()), id: Some(id) });
            assert(row_views(missions@) =~= mbase + mission_ids(entry.stage_ids@.take(j + 1)).map_values(mf));
        }
        j += 1;
    }
    assert(entry.stage_ids@.take(j as int) =~= entry.stage_ids@);
}

#[verifier::spinoff_prover]
#[verifier::rlimit(40)]
fn collect_sale_rows<'a>(sale: &'a SaleDisplayData) -> (r: Result<(Vec<Row<'a>>, Vec<Row<'a>>), String>)
    ensures
        match r {
            Ok((a, b)) => sale_rows(sale, sale.sale.data@.len() as int) == Ok::<(Seq<RowSpec>, Seq<RowSpec>), Seq<char>>((row_views(a@), row_views(b@))),
            Err(e) => sale_rows(sale, sale.sale.data@.len() as int) == Err::<(Seq<RowSpec>, Seq<RowSpec>), Seq<char>>(e@),
        },
{
    let mut rows: Vec<Row<'a>> = Vec::new();
    let mut missions: Vec<Row<'a>> = Vec::new();
    assert(row_views(rows@) =~= seq![]);
    assert(row_views(missions@) =~= seq![]);
    let mut i: usize = 0;
    while i < sale.sale.data.len()
        invariant
            i <= sale.sale.data@.len(),
            sale_rows(sale, i as int) == Ok::<(Seq<RowSpec>, Seq<RowSpec>), Seq<char>>((row_views(rows@), row_views(missions@))),
        decreases sale.sale.data@.len() - i,
    {
        let entry = &sale.sale.data[i];
        let d = match duration_exec(&entry.header) {
            Ok(d) => d,
            Err(e) => {
                proof {
                    lemma_sale_rows_err(sale, i + 1, sale.sale.data@.len() as int, e@);
                }
                return Err(e);
            },
        };
        push_sale_entry_rows(&mut rows, sale, entry, &d);
        push_mission_rows(&mut missions, sale, entry, &d);
        i += 1;
    }
    Ok((rows, missions))
}

proof fn lemma_sale_rows_err(sale: &SaleDisplayData, n: int, m: int, e: Seq<char>)
    requires
        n <= m,
        sale_rows(sale, n) == Err::<(Seq<RowSpec>, Seq<RowSpec>), Seq<char>>(e),
    ensures
        sale_rows(sale, m) == Err::<(Seq<RowSpec>, Seq<RowSpec>), Seq<char>>(e),
    decreases m - n,
{
    if n < m {
        lemma_sale_rows_err(sale, n, m - 1, e);
    }
}

fn append_parts(out: &mut Vec<String>, parts: Vec<String>)
    ensures
        crate::text::string_views(final(out)@) == crate::text::string_views(old(out)@) + crate::text::string_views(parts@),
{
    let mut p = parts;
    let ghost pv = crate::text::string_views(p@);
    out.append(&mut p);
    assert(crate::text::string_views(out@) =~= crate::text::string_views(old(out)@) + pv);
}

pub open spec fn sections_after_rows(
    data: &AddedScheduleData,
    g: Seq<RowSpec>,
    sr: Seq<RowSpec>,
    it: Seq<RowSpec>,
    mr: Seq<RowSpec>,
    now: i64,
    history_url: Seq<char>,
) -> Result<Seq<Seq<char>>, Seq<char>> {
    match spec_format_section("gatya"@, g, now) {
        Err(e) => Err(e),
        Ok(a) => match spec_format_section("sale"@, sr, now) {
            Err(e) => Err(e),
            Ok(b) => match spec_format_section("item"@, it, now) {
                Err(e) => Err(e),
                Ok(c) => match spec_format_section("mission"@, mr, now) {
                    Err(e) => Err(e),
                    Ok(d) => match spec_format_changes(data, now) {
                        Err(e) => Err(e),
                        Ok(f) => Ok(a + b + c + d + f + seq!["**関連サイト**\n<"@ + history_url + ">"@]),
                    },
                },
            },
        },
    }
}

fn format_sections<'a>(
    data: &AddedScheduleData,
    g: Vec<Row<'a>>,
    sr: Vec<Row<'a>>,
    it: Vec<Row<'a>>,
    mr: Vec<Row<'a>>,
    now: i64,
    history_url: &str,
) -> (r: Result<Vec<String>, String>)
    ensures
        match r {
            Ok(parts) => sections_after_rows(data, row_views(g@), row_views(sr@), row_views(it@), row_views(mr@), now, history_url@)
                == Ok::<Seq<Seq<char>>, Seq<char>>(crate::text::string_views(parts@)),
            Err(e) => sections_after_rows(data, row_views(g@), row_views(sr@), row_views(it@), row_views(mr@), now, history_url@)
                == Err::<Seq<Seq<char>>, Seq<char>>(e@),
        },
{
    let ghost (gv, sv, iv, mv) = (row_views(g@), row_views(sr@), row_views(it@), row_views(mr@));
    let a = match format_section("gatya", g, now) {
        Ok(a) => a,
        Err(e) => {
            return Err(e);
        },
    };
    let b = match format_section("sale", sr, now) {
        Ok(b) => b,
        Err(e) => {
            return Err(e);
        },
    };
    let c = match format_section("item", it, now) {
        Ok(c) => c,
        Err(e) => {
            return Err(e);
        },
    };
    let d = match format_section("mission", mr, now) {
        Ok(d) => d,
        Err(e) => {
            return Err(e);
        },
    };
    let f = match format_changes(data, now) {
        Ok(f) => f,
        Err(e) => {
            return Err(e);
        },
    };
    let ghost (av, bv, cv, dv, fv) = (
        crate::text::string_views(a@),
        crate::text::string_views(b@),
        crate::text::string_views(c@),
        crate::text::string_views(d@),
        crate::text::string_views(f@),
    );
    let mut output: Vec<String> = Vec::new();
    assert(crate::text::string_views(output@) =~= seq![]);
    append_parts(&mut output, a);
    append_parts(&mut output, b);
    append_parts(&mut output, c);
    append_parts(&mut output, d);
    append_parts(&mut output, f);
    let mut link = chars_of("**関連サイト**\n<");
    append_str(&mut link, history_url);
    append_str(&mut link, ">");
    let ghost before = output@;
    output.push(string_of(link.as_slice()));
    assert(crate::text::string_views(output@) =~= crate::text::string_views(before).push(link@));
    assert(crate::text::string_views(output@) =~= av + bv + cv + dv + fv + seq![link@]);
    Ok(output)
}

/// The messages that announce added and changed schedules.
pub fn format_added_schedules(data: &AddedScheduleData, now: i64, history_url: &str) -> (r: Result<Vec<String>, String>)
    ensures
        match r {
            Ok(parts) => spec_format_added(data, now, history_url@) == Ok::<Seq<Seq<char>>, Seq<char>>(crate::text::string_views(parts@)),
            Err(e) => spec_format_added(data, now, history_url@) == Err::<Seq<Seq<char>>, Seq<char>>(e@),
        },
{
    let gatya_rows_v: Vec<Row> = match &data.gatya {
        Some(g) => collect_gatya_rows(g),
        None => {
            let v: Vec<Row> = Vec::new();
            assert(row_views(v@) =~= seq![]);
            v
        },
    };
    let (sale_rows_v, mission_rows_v) = match &data.sale {
        Some(s) => match collect_sale_rows(s) {
            Ok(p) => p,
            Err(e) => {
                return Err(e);
            },
        },
        None => {
            let a: Vec<Row> = Vec::new();
            let b: Vec<Row> = Vec::new();
            assert(row_views(a@) =~= seq![]);
            assert(row_views(b@) =~= seq![]);
            (a, b)
        },
    };
    let item_rows_v: Vec<Row> = match &data.item {
        Some(i) => collect_item_rows(i),
        None => {
            let v: Vec<Row> = Vec::new();
            assert(row_views(v@) =~= seq![]);
            v
        },
    };
    format_sections(data, gatya_rows_v, sale_rows_v, item_rows_v, mission_rows_v, now, history_url)
}


// ---------------------------------------------------------------------------
// The history link
// ---------------------------------------------------------------------------

/// The position of the last occurrence of a character.
pub open spec fn spec_rfind(s: Seq<char>, c: char) -> Option<int>
    decreases s.len(),
{
    if s.len() == 0 {
        None
    } else if s.last() == c {
        Some(s.len() - 1)
    } else {
        spec_rfind(s.drop_last(), c)
    }
}

/// The number after the last `_` of a `.tsv` path, when there is one.
pub open spec fn path_timestamp(p: Seq<char>) -> Option<i64> {
    if p.len() >= 4 && p.subrange(p.len() - 4, p.len() as int) == ".tsv"@ {
        let stem = p.take(p.len() - 4);
        match spec_rfind(stem, '_') {
            Some(i) => crate::text::parse_i64_spec(stem.skip(i + 1)),
            None => None,
        }
    } else {
        None
    }
}

pub open spec fn max_timestamp(paths: Seq<Seq<char>>) -> Option<i64>
    decreases paths.len(),
{
    if paths.len() == 0 {
        None
    } else {
        let prev = max_timestamp(paths.drop_last());
        match (prev, path_timestamp(paths.last())) {
            (Some(a), Some(b)) => Some(if a >= b { a } else { b }),
            (None, t) => t,
            (a, None) => a,
        }
    }
}

fn rfind_char(s: &[char], c: char) -> (r: Option<usize>)
    ensures
        match r {
            Some(i) => spec_rfind(s@, c) == Some(i as int) && i < s@.len(),
            None => spec_rfind(s@, c) is None,
        },
{
    let mut i: usize = s.len();
    assert(s@.take(i as int) =~= s@);
    while i > 0
        invariant
            i <= s@.len(),
            spec_rfind(s@, c) == spec_rfind(s@.take(i as int), c),
        decreases i,
    {
        assert(s@.take(i as int).drop_last() =~= s@.take(i - 1));
        if s[i - 1] == c {
            return Some(i - 1);
        }
        i -= 1;
    }
    None
}

fn path_timestamp_exec(p: &str) -> (r: Option<i64>)
    ensures
        r == path_timestamp(p@),
{
    proof {
        reveal_strlit(".tsv");
    }
    let v = chars_of(p);
    let stem = match crate::text::strip_suffix(v.as_slice(), ".tsv") {
        Some(s) => s,
        None => {
            return None;
        },
    };
    assert(v@.subrange(v@.len() - 4, v@.len() as int) =~= ".tsv"@);
    match rfind_char(stem.as_slice(), '_') {
        Some(i) => {
            let n = stem.len();
            assert(i < n);
            let rest = crate::text::slice(stem.as_slice(), i + 1, n);
            assert(rest@ =~= stem@.skip(i + 1));
            crate::text::parse_i64(rest.as_slice())
        },
        None => None,
    }
}

/// The newest timestamp among the schedule files' paths.
pub fn history_timestamp(paths: &[String]) -> (r: Option<i64>)
    ensures
        r == max_timestamp(crate::text::string_views(paths@)),
{
    let ghost pv = crate::text::string_views(paths@);
    let mut best: Option<i64> = None;
    let mut i: usize = 0;
    while i < paths.len()
        invariant
            i <= paths@.len(),
            pv == crate::text::string_views(paths@),
            best == max_timestamp(pv.take(i as int)),
        decreases paths@.len() - i,
    {
        assert(pv.take(i + 1).drop_last() =~= pv.take(i as int));
        assert(pv[i as int] == paths@[i as int]@);
        let t = path_timestamp_exec(paths[i].as_str());
        best = match (best, t) {
            (Some(a), Some(b)) => Some(if a >= b { a } else { b }),
            (None, t) => t,
            (a, None) => a,
        };
        i += 1;
    }
    assert(pv.take(i as int) =~= pv);
    best
}

/// What `url` gives for a URL with one more form-encoded query pair.
pub uninterp spec fn url_with_pair_of(url: Seq<char>, key: Seq<char>, value: Seq<char>) -> Option<Seq<char>>;

/// `url::Url::parse` of a URL, then `query_pairs_mut().append_pair(key,
/// value)`, serialised again; `None` where the URL is refused.
#[verifier::external_body]
fn url_with_pair(url: &str, key: &str, value: &str) -> (r: Option<String>)
    ensures
        match r {
            Some(s) => url_with_pair_of(url@, key@, value@) == Some(s@),
            None => url_with_pair_of(url@, key@, value@) is None,
        },
{
    match url::Url::parse(url) {
        Ok(mut parsed) => {
            parsed.query_pairs_mut().append_pair(key, value);
            Some(parsed.to_string())
        },
        Err(_) => None,
    }
}

pub open spec fn then_pair(url: Option<Seq<char>>, key: Seq<char>, value: Seq<char>) -> Option<Seq<char>> {
    match url {
        Some(u) => url_with_pair_of(u, key, value),
        None => None,
    }
}

/// The event site's history tab for all kinds, at the newest timestamp of
/// the paths when there is one.
pub open spec fn spec_history_url(paths: Seq<Seq<char>>) -> Option<Seq<char>> {
    let base = "https://kbc-rakv0-event.vercel.app/"@;
    let with_tab = url_with_pair_of(base, "tab"@, "history"@);
    let with_tsv = match max_timestamp(paths) {
        Some(t) => then_pair(with_tab, "tsv"@, crate::text::decimal_int(t as int)),
        None => with_tab,
    };
    then_pair(with_tsv, "type"@, "all"@)
}

fn then_pair_exec(url: Option<String>, key: &str, value: &str) -> (r: Option<String>)
    ensures
        match r {
            Some(s) => then_pair(match url { Some(u) => Some(u@), None => None }, key@, value@) == Some(s@),
            None => then_pair(match url { Some(u) => Some(u@), None => None }, key@, value@) is None,
        },
{
    match url {
        Some(u) => url_with_pair(u.as_str(), key, value),
        None => None,
    }
}

/// The link to the history of schedule updates; `None` only where the `url`
/// crate refuses the site's address.
pub fn history_url(paths: &[String]) -> (r: Option<String>)
    ensures
        match r {
            Some(s) => spec_history_url(crate::text::string_views(paths@)) == Some(s@),
            None => spec_history_url(crate::text::string_views(paths@)) is None,
        },
{
    let with_tab = url_with_pair("https://kbc-rakv0-event.vercel.app/", "tab", "history");
    let with_tsv = match history_timestamp(paths) {
        Some(t) => {
            let digits = string_of(crate::text::fmt_i64(t).as_slice());
            then_pair_exec(with_tab, "tsv", digits.as_str())
        },
        None => with_tab,
    };
    then_pair_exec(with_tsv, "type", "all")
}

} // verus!
