//! Reading the raw schedule TSV files into schedule data.
use vstd::prelude::*;

use crate::gatya_schedule::{GachaBlock, GachaEntry, GachaHeader, GachaRate};
use crate::item::{ItemEntry, ItemGift};
use crate::sale::SaleEntry;
use crate::schedule::{parse_header_date, spec_header_date, DateRange, ScheduleHeader, TimeBlock};
use crate::text::{
    append, append_str, chars_of, eq_str, lines, parse_i64, parse_i64_spec, parse_usize, parse_usize_spec, slice,
    spec_lines, spec_trim, split_char, split_fields, string_of, trim, views,
};

verus! {

pub const MAX_ROWS: usize = 20_000;

pub const MAX_TIME_BLOCKS: usize = 128;

pub const MAX_BLOCK_VALUES: usize = 1_000;

pub const MAX_GACHAS: usize = 128;

// ---------------------------------------------------------------------------
// Lines and headers
// ---------------------------------------------------------------------------

/// A text without its leading byte order marks.
pub open spec fn strip_boms(s: Seq<char>) -> Seq<char>
    decreases s.len(),
{
    if s.len() > 0 && s[0] == '\u{feff}' {
        strip_boms(s.drop_first())
    } else {
        s
    }
}

pub open spec fn kept_line(l: Seq<char>) -> bool {
    l.len() > 0 && l != "[start]"@ && l != "[end]"@
}

/// The trimmed lines that carry data, in order.
pub open spec fn data_line_list(ls: Seq<Seq<char>>) -> Seq<Seq<char>>
    decreases ls.len(),
{
    if ls.len() == 0 {
        seq![]
    } else {
        let prev = data_line_list(ls.drop_last());
        let t = spec_trim(ls.last());
        if kept_line(t) {
            prev.push(t)
        } else {
            prev
        }
    }
}

/// The rows of a schedule TSV: trimmed lines that are neither empty nor a
/// `[start]` or `[end]` marker, at most `MAX_ROWS` of them.
pub open spec fn spec_data_lines(text: Seq<char>) -> Result<Seq<Seq<char>>, Seq<char>> {
    let ls = data_line_list(spec_lines(strip_boms(text)));
    if ls.len() > MAX_ROWS {
        Err("schedule TSV has too many rows"@)
    } else {
        Ok(ls)
    }
}

pub(crate) fn strip_boms_exec(s: &[char]) -> (r: Vec<char>)
    ensures
        r@ == strip_boms(s@),
{
    let mut i: usize = 0;
    assert(s@.skip(0) =~= s@);
    while i < s.len() && s[i] == '\u{feff}'
        invariant
            i <= s@.len(),
            strip_boms(s@) == strip_boms(s@.skip(i as int)),
        decreases s@.len() - i,
    {
        assert(s@.skip(i as int).drop_first() =~= s@.skip(i + 1));
        i += 1;
    }
    slice(s, i, s.len())
}

pub fn data_lines(text: &str) -> (r: Result<Vec<Vec<char>>, String>)
    ensures
        match r {
            Ok(ls) => spec_data_lines(text@) == Ok::<Seq<Seq<char>>, Seq<char>>(views(ls@)),
            Err(e) => spec_data_lines(text@) == Err::<Seq<Seq<char>>, Seq<char>>(e@),
        },
{
    proof {
        reveal_strlit("[start]");
        reveal_strlit("[end]");
    }
    let t = chars_of(text);
    assert(t@.skip(0) =~= t@);
    let body = strip_boms_exec(t.as_slice());
    let all = lines(body.as_slice());
    let ghost ls = views(all@);
    let mut out: Vec<Vec<char>> = Vec::new();
    let mut i: usize = 0;
    assert(views(out@) =~= data_line_list(ls.take(0)));
    while i < all.len()
        invariant
            i <= all@.len(),
            ls == views(all@),
            views(out@) == data_line_list(ls.take(i as int)),
        decreases all@.len() - i,
    {
        let l = trim(all[i].as_slice());
        assert(ls.take(i + 1).drop_last() =~= ls.take(i as int));
        assert(ls[i as int] == all@[i as int]@);
        if l.len() > 0 && !eq_str(l.as_slice(), "[start]") && !eq_str(l.as_slice(), "[end]") {
            let ghost before = out@;
            out.push(l);
            assert(views(out@) =~= views(before).push(spec_trim(ls[i as int])));
        }
        i += 1;
    }
    assert(ls.take(i as int) =~= ls);
    if out.len() > MAX_ROWS {
        return Err(string_of(chars_of("schedule TSV has too many rows").as_slice()));
    }
    Ok(out)
}

/// A header as plain values.
pub struct HeaderView {
    pub start_date: Seq<char>,
    pub start_time: Seq<char>,
    pub end_date: Seq<char>,
    pub end_time: Seq<char>,
    pub min_version: Seq<char>,
    pub max_version: Seq<char>,
}

pub open spec fn header_view(h: ScheduleHeader) -> HeaderView {
    HeaderView {
        start_date: h.start_date@,
        start_time: h.start_time@,
        end_date: h.end_date@,
        end_time: h.end_time@,
        min_version: h.min_version@,
        max_version: h.max_version@,
    }
}

/// The header of the first six cells, when both of its dates can be read.
pub open spec fn spec_parse_header(cells: Seq<Seq<char>>) -> Result<HeaderView, Seq<char>> {
    if cells.len() < 6 {
        Err("schedule header is incomplete"@)
    } else {
        let h = HeaderView {
            start_date: cells[0],
            start_time: cells[1],
            end_date: cells[2],
            end_time: cells[3],
            min_version: cells[4],
            max_version: cells[5],
        };
        match spec_header_date(h.start_date, h.start_time) {
            Err(e) => Err(e),
            Ok(_) => match spec_header_date(h.end_date, h.end_time) {
                Err(e) => Err(e),
                Ok(_) => Ok(h),
            },
        }
    }
}

pub fn parse_header(cells: &[Vec<char>]) -> (r: Result<ScheduleHeader, String>)
    ensures
        match r {
            Ok(h) => spec_parse_header(views(cells@)) == Ok::<HeaderView, Seq<char>>(header_view(h)),
            Err(e) => spec_parse_header(views(cells@)) == Err::<HeaderView, Seq<char>>(e@),
        },
{
    if cells.len() < 6 {
        return Err(string_of(chars_of("schedule header is incomplete").as_slice()));
    }
    let ghost c = views(cells@);
    assert(c[0] == cells@[0]@ && c[1] == cells@[1]@ && c[2] == cells@[2]@);
    assert(c[3] == cells@[3]@ && c[4] == cells@[4]@ && c[5] == cells@[5]@);
    let header = ScheduleHeader {
        start_date: string_of(cells[0].as_slice()),
        start_time: string_of(cells[1].as_slice()),
        end_date: string_of(cells[2].as_slice()),
        end_time: string_of(cells[3].as_slice()),
        min_version: string_of(cells[4].as_slice()),
        max_version: string_of(cells[5].as_slice()),
    };
    match parse_header_date(header.start_date.as_str(), header.start_time.as_str()) {
        Err(e) => {
            return Err(e);
        },
        Ok(_) => {},
    }
    match parse_header_date(header.end_date.as_str(), header.end_time.as_str()) {
        Err(e) => {
            return Err(e);
        },
        Ok(_) => {},
    }
    Ok(header)
}

// ---------------------------------------------------------------------------
// Reading cells in order
// ---------------------------------------------------------------------------

/// The next cell, or `missing {label}`.
pub open spec fn cur_next(parts: Seq<Seq<char>>, i: int, label: Seq<char>) -> Result<(Seq<char>, int), Seq<char>> {
    if 0 <= i < parts.len() {
        Ok((parts[i], i + 1))
    } else {
        Err("missing "@ + label)
    }
}

pub open spec fn cur_usize(parts: Seq<Seq<char>>, i: int, label: Seq<char>) -> Result<(usize, int), Seq<char>> {
    match cur_next(parts, i, label) {
        Err(e) => Err(e),
        Ok((v, j)) => match parse_usize_spec(spec_trim(v)) {
            Some(n) => Ok((n, j)),
            None => Err("invalid "@ + label),
        },
    }
}

pub open spec fn cur_i64(parts: Seq<Seq<char>>, i: int, label: Seq<char>) -> Result<(i64, int), Seq<char>> {
    match cur_next(parts, i, label) {
        Err(e) => Err(e),
        Ok((v, j)) => match parse_i64_spec(spec_trim(v)) {
            Some(n) => Ok((n, j)),
            None => Err("invalid "@ + label),
        },
    }
}

fn labelled(prefix: &str, label: &str) -> (r: String)
    ensures
        r@ == prefix@ + label@,
{
    let mut v = chars_of(prefix);
    append_str(&mut v, label);
    string_of(v.as_slice())
}

fn next_cell(parts: &[Vec<char>], i: usize, label: &str) -> (r: Result<Vec<char>, String>)
    ensures
        match r {
            Ok(v) => cur_next(views(parts@), i as int, label@) == Ok::<(Seq<char>, int), Seq<char>>((v@, i + 1)) && i < parts@.len(),
            Err(e) => cur_next(views(parts@), i as int, label@) == Err::<(Seq<char>, int), Seq<char>>(e@),
        },
{
    if i < parts.len() {
        assert(views(parts@)[i as int] == parts@[i as int]@);
        let v = slice(parts[i].as_slice(), 0, parts[i].len());
        assert(v@ =~= parts@[i as int]@);
        Ok(v)
    } else {
        Err(labelled("missing ", label))
    }
}

fn next_usize(parts: &[Vec<char>], i: usize, label: &str) -> (r: Result<usize, String>)
    ensures
        match r {
            Ok(n) => cur_usize(views(parts@), i as int, label@) == Ok::<(usize, int), Seq<char>>((n, i + 1)) && i < parts@.len(),
            Err(e) => cur_usize(views(parts@), i as int, label@) == Err::<(usize, int), Seq<char>>(e@),
        },
{
    let v = next_cell(parts, i, label)?;
    match parse_usize(trim(v.as_slice()).as_slice()) {
        Some(n) => Ok(n),
        None => Err(labelled("invalid ", label)),
    }
}

fn next_i64(parts: &[Vec<char>], i: usize, label: &str) -> (r: Result<i64, String>)
    ensures
        match r {
            Ok(n) => cur_i64(views(parts@), i as int, label@) == Ok::<(i64, int), Seq<char>>((n, i + 1)) && i < parts@.len(),
            Err(e) => cur_i64(views(parts@), i as int, label@) == Err::<(i64, int), Seq<char>>(e@),
        },
{
    let v = next_cell(parts, i, label)?;
    match parse_i64(trim(v.as_slice()).as_slice()) {
        Some(n) => Ok(n),
        None => Err(labelled("invalid ", label)),
    }
}


// ---------------------------------------------------------------------------
// Time blocks
// ---------------------------------------------------------------------------

pub type TextPair = (Seq<char>, Seq<char>);

/// A time block as plain values.
pub struct TimeBlockView {
    pub date_ranges: Seq<TextPair>,
    pub month_days: Seq<i64>,
    pub weekdays: Seq<Seq<char>>,
    pub time_ranges: Seq<TextPair>,
}

pub open spec fn pair_views(v: Seq<(String, String)>) -> Seq<TextPair> {
    v.map_values(|p: (String, String)| (p.0@, p.1@))
}

pub open spec fn range_views(v: Seq<DateRange>) -> Seq<TextPair> {
    v.map_values(|r: DateRange| (r.start@, r.end@))
}

pub open spec fn time_block_view(b: TimeBlock) -> TimeBlockView {
    TimeBlockView {
        date_ranges: range_views(b.date_ranges@),
        month_days: b.month_days@,
        weekdays: crate::text::string_views(b.weekdays@),
        time_ranges: pair_views(b.time_ranges@),
    }
}

pub open spec fn time_block_views(v: Seq<TimeBlock>) -> Seq<TimeBlockView> {
    v.map_values(|b: TimeBlock| time_block_view(b))
}

/// A date range: `{start date} {start time}` to `{end date} {end time}`.
pub open spec fn one_range(p: Seq<Seq<char>>, i: int) -> Result<(TextPair, int), Seq<char>> {
    match cur_next(p, i, "start date"@) {
        Err(e) => Err(e),
        Ok((sd, j1)) => match cur_next(p, j1, "start time"@) {
            Err(e) => Err(e),
            Ok((st, j2)) => match cur_next(p, j2, "end date"@) {
                Err(e) => Err(e),
                Ok((ed, j3)) => match cur_next(p, j3, "end time"@) {
                    Err(e) => Err(e),
                    Ok((et, j4)) => Ok(((sd + " "@ + st, ed + " "@ + et), j4)),
                },
            },
        },
    }
}

pub open spec fn one_time_range(p: Seq<Seq<char>>, i: int) -> Result<(TextPair, int), Seq<char>> {
    match cur_next(p, i, "time range start"@) {
        Err(e) => Err(e),
        Ok((a, j1)) => match cur_next(p, j1, "time range end"@) {
            Err(e) => Err(e),
            Ok((b, j2)) => Ok(((a, b), j2)),
        },
    }
}

pub open spec fn date_ranges_n(p: Seq<Seq<char>>, i: int, n: nat) -> Result<(Seq<TextPair>, int), Seq<char>>
    decreases n,
{
    if n == 0 {
        Ok((seq![], i))
    } else {
        match date_ranges_n(p, i, (n - 1) as nat) {
            Err(e) => Err(e),
            Ok((rs, j)) => match one_range(p, j) {
                Err(e) => Err(e),
                Ok((r, k)) => Ok((rs.push(r), k)),
            },
        }
    }
}

pub open spec fn time_ranges_n(p: Seq<Seq<char>>, i: int, n: nat) -> Result<(Seq<TextPair>, int), Seq<char>>
    decreases n,
{
    if n == 0 {
        Ok((seq![], i))
    } else {
        match time_ranges_n(p, i, (n - 1) as nat) {
            Err(e) => Err(e),
            Ok((rs, j)) => match one_time_range(p, j) {
                Err(e) => Err(e),
                Ok((r, k)) => Ok((rs.push(r), k)),
            },
        }
    }
}

pub open spec fn i64s_n(p: Seq<Seq<char>>, i: int, n: nat, label: Seq<char>) -> Result<(Seq<i64>, int), Seq<char>>
    decreases n,
{
    if n == 0 {
        Ok((seq![], i))
    } else {
        match i64s_n(p, i, (n - 1) as nat, label) {
            Err(e) => Err(e),
            Ok((vs, j)) => match cur_i64(p, j, label) {
                Err(e) => Err(e),
                Ok((v, k)) => Ok((vs.push(v), k)),
            },
        }
    }
}

pub open spec fn weekday_label(i: int) -> Seq<char> {
    if i == 0 {
        "Sun"@
    } else if i == 1 {
        "Mon"@
    } else if i == 2 {
        "Tue"@
    } else if i == 3 {
        "Wed"@
    } else if i == 4 {
        "Thu"@
    } else if i == 5 {
        "Fri"@
    } else {
        "Sat"@
    }
}

/// The weekdays among the first `k` whose bit is set, Sunday first.
pub open spec fn weekdays_upto(mask: i64, k: nat) -> Seq<Seq<char>>
    decreases k,
{
    if k == 0 {
        seq![]
    } else {
        let prev = weekdays_upto(mask, (k - 1) as nat);
        if mask & (1i64 << ((k - 1) as i64)) != 0 {
            prev.push(weekday_label(k - 1))
        } else {
            prev
        }
    }
}

#[verifier::opaque]
pub open spec fn one_block(p: Seq<Seq<char>>, i: int) -> Result<(TimeBlockView, int), Seq<char>> {
    match cur_usize(p, i, "date range count"@) {
        Err(e) => Err(e),
        Ok((yc, j)) => if yc > MAX_BLOCK_VALUES {
            Err("time block has too many date ranges"@)
        } else {
            match date_ranges_n(p, j, yc as nat) {
                Err(e) => Err(e),
                Ok((drs, j2)) => match cur_usize(p, j2, "month day count"@) {
                    Err(e) => Err(e),
                    Ok((mc, j3)) => if mc > MAX_BLOCK_VALUES {
                        Err("time block has too many month days"@)
                    } else {
                        match i64s_n(p, j3, mc as nat, "month day"@) {
                            Err(e) => Err(e),
                            Ok((mds, j4)) => match cur_i64(p, j4, "weekday bitmask"@) {
                                Err(e) => Err(e),
                                Ok((mask, j5)) => match cur_usize(p, j5, "time range count"@) {
                                    Err(e) => Err(e),
                                    Ok((tc, j6)) => if tc > MAX_BLOCK_VALUES {
                                        Err("time block has too many time ranges"@)
                                    } else {
                                        match time_ranges_n(p, j6, tc as nat) {
                                            Err(e) => Err(e),
                                            Ok((trs, j7)) => Ok((
                                                TimeBlockView { date_ranges: drs, month_days: mds, weekdays: weekdays_upto(mask, 7), time_ranges: trs },
                                                j7,
                                            )),
                                        }
                                    },
                                },
                            },
                        }
                    },
                },
            }
        },
    }
}

pub open spec fn blocks_n(p: Seq<Seq<char>>, i: int, n: nat) -> Result<(Seq<TimeBlockView>, int), Seq<char>>
    decreases n,
{
    if n == 0 {
        Ok((seq![], i))
    } else {
        match blocks_n(p, i, (n - 1) as nat) {
            Err(e) => Err(e),
            Ok((bs, j)) => match one_block(p, j) {
                Err(e) => Err(e),
                Ok((b, k)) => Ok((bs.push(b), k)),
            },
        }
    }
}

/// The time blocks that start at cell `i`: a count, at most
/// `MAX_TIME_BLOCKS`, then each block.
pub open spec fn spec_time_blocks(p: Seq<Seq<char>>, i: int) -> Result<(Seq<TimeBlockView>, int), Seq<char>> {
    match cur_usize(p, i, "time block count"@) {
        Err(e) => Err(e),
        Ok((n, j)) => if n > MAX_TIME_BLOCKS {
            Err("schedule row has too many time blocks"@)
        } else {
            blocks_n(p, j, n as nat)
        },
    }
}

fn read_range(parts: &[Vec<char>], i: usize) -> (r: Result<((String, String), usize), String>)
    ensures
        match r {
            Ok((v, k)) => one_range(views(parts@), i as int) == Ok::<(TextPair, int), Seq<char>>(((v.0@, v.1@), k as int)) && k <= parts@.len(),
            Err(e) => one_range(views(parts@), i as int) == Err::<(TextPair, int), Seq<char>>(e@),
        },
{
    let len = parts.len();
    let sd = next_cell(parts, i, "start date")?;
    assert(i < len);
    let st = next_cell(parts, i + 1, "start time")?;
    assert(i + 1 < len);
    let ed = next_cell(parts, i + 2, "end date")?;
    assert(i + 2 < len);
    let et = next_cell(parts, i + 3, "end time")?;
    assert(i + 3 < len);
    let mut a = sd;
    append_str(&mut a, " ");
    append(&mut a, st.as_slice());
    let mut b = ed;
    append_str(&mut b, " ");
    append(&mut b, et.as_slice());
    Ok(((string_of(a.as_slice()), string_of(b.as_slice())), i + 4))
}

fn read_time_range(parts: &[Vec<char>], i: usize) -> (r: Result<((String, String), usize), String>)
    ensures
        match r {
            Ok((v, k)) => one_time_range(views(parts@), i as int) == Ok::<(TextPair, int), Seq<char>>(((v.0@, v.1@), k as int)) && k <= parts@.len(),
            Err(e) => one_time_range(views(parts@), i as int) == Err::<(TextPair, int), Seq<char>>(e@),
        },
{
    let len = parts.len();
    let a = next_cell(parts, i, "time range start")?;
    assert(i < len);
    let b = next_cell(parts, i + 1, "time range end")?;
    assert(i + 1 < len);
    Ok(((string_of(a.as_slice()), string_of(b.as_slice())), i + 2))
}

proof fn lemma_date_ranges_err(p: Seq<Seq<char>>, i: int, n: nat, m: nat, e: Seq<char>)
    requires
        n <= m,
        date_ranges_n(p, i, n) == Err::<(Seq<TextPair>, int), Seq<char>>(e),
    ensures
        date_ranges_n(p, i, m) == Err::<(Seq<TextPair>, int), Seq<char>>(e),
    decreases m - n,
{
    if n < m {
        lemma_date_ranges_err(p, i, n, (m - 1) as nat, e);
    }
}

proof fn lemma_time_ranges_err(p: Seq<Seq<char>>, i: int, n: nat, m: nat, e: Seq<char>)
    requires
        n <= m,
        time_ranges_n(p, i, n) == Err::<(Seq<TextPair>, int), Seq<char>>(e),
    ensures
        time_ranges_n(p, i, m) == Err::<(Seq<TextPair>, int), Seq<char>>(e),
    decreases m - n,
{
    if n < m {
        lemma_time_ranges_err(p, i, n, (m - 1) as nat, e);
    }
}

proof fn lemma_i64s_err(p: Seq<Seq<char>>, i: int, n: nat, m: nat, label: Seq<char>, e: Seq<char>)
    requires
        n <= m,
        i64s_n(p, i, n, label) == Err::<(Seq<i64>, int), Seq<char>>(e),
    ensures
        i64s_n(p, i, m, label) == Err::<(Seq<i64>, int), Seq<char>>(e),
    decreases m - n,
{
    if n < m {
        lemma_i64s_err(p, i, n, (m - 1) as nat, label, e);
    }
}

proof fn lemma_blocks_err(p: Seq<Seq<char>>, i: int, n: nat, m: nat, e: Seq<char>)
    requires
        n <= m,
        blocks_n(p, i, n) == Err::<(Seq<TimeBlockView>, int), Seq<char>>(e),
    ensures
        blocks_n(p, i, m) == Err::<(Seq<TimeBlockView>, int), Seq<char>>(e),
    decreases m - n,
{
    if n < m {
        lemma_blocks_err(p, i, n, (m - 1) as nat, e);
    }
}

fn read_date_ranges(parts: &[Vec<char>], i: usize, n: usize) -> (r: Result<(Vec<DateRange>, usize), String>)
    requires
        i <= parts@.len(),
    ensures
        match r {
            Ok((v, k)) => date_ranges_n(views(parts@), i as int, n as nat) == Ok::<(Seq<TextPair>, int), Seq<char>>((range_views(v@), k as int)) && k <= parts@.len(),
            Err(e) => date_ranges_n(views(parts@), i as int, n as nat) == Err::<(Seq<TextPair>, int), Seq<char>>(e@),
        },
{
    let mut out: Vec<DateRange> = Vec::new();
    let mut j: usize = i;
    let mut c: usize = 0;
    assert(range_views(out@) =~= seq![]);
    while c < n
        invariant
            c <= n,
            j <= parts@.len(),
            date_ranges_n(views(parts@), i as int, c as nat) == Ok::<(Seq<TextPair>, int), Seq<char>>((range_views(out@), j as int)),
        decreases n - c,
    {
        match read_range(parts, j) {
            Ok(((a, b), k)) => {
                let ghost before = range_views(out@);
                out.push(DateRange { start: a, end: b });
                assert(range_views(out@) =~= before.push((a@, b@)));
                j = k;
            },
            Err(e) => {
                proof {
                    lemma_date_ranges_err(views(parts@), i as int, (c + 1) as nat, n as nat, e@);
                }
                return Err(e);
            },
        }
        c += 1;
    }
    Ok((out, j))
}

fn read_time_ranges(parts: &[Vec<char>], i: usize, n: usize) -> (r: Result<(Vec<(String, String)>, usize), String>)
    requires
        i <= parts@.len(),
    ensures
        match r {
            Ok((v, k)) => time_ranges_n(views(parts@), i as int, n as nat) == Ok::<(Seq<TextPair>, int), Seq<char>>((pair_views(v@), k as int)) && k <= parts@.len(),
            Err(e) => time_ranges_n(views(parts@), i as int, n as nat) == Err::<(Seq<TextPair>, int), Seq<char>>(e@),
        },
{
    let mut out: Vec<(String, String)> = Vec::new();
    let mut j: usize = i;
    let mut c: usize = 0;
    assert(pair_views(out@) =~= seq![]);
    while c < n
        invariant
            c <= n,
            j <= parts@.len(),
            time_ranges_n(views(parts@), i as int, c as nat) == Ok::<(Seq<TextPair>, int), Seq<char>>((pair_views(out@), j as int)),
        decreases n - c,
    {
        match read_time_range(parts, j) {
            Ok((pair, k)) => {
                let ghost before = pair_views(out@);
                let ghost pv = (pair.0@, pair.1@);
                out.push(pair);
                assert(pair_views(out@) =~= before.push(pv));
                j = k;
            },
            Err(e) => {
                proof {
                    lemma_time_ranges_err(views(parts@), i as int, (c + 1) as nat, n as nat, e@);
                }
                return Err(e);
            },
        }
        c += 1;
    }
    Ok((out, j))
}

fn read_i64s(parts: &[Vec<char>], i: usize, n: usize, label: &str) -> (r: Result<(Vec<i64>, usize), String>)
    requires
        i <= parts@.len(),
    ensures
        match r {
            Ok((v, k)) => i64s_n(views(parts@), i as int, n as nat, label@) == Ok::<(Seq<i64>, int), Seq<char>>((v@, k as int)) && k <= parts@.len(),
            Err(e) => i64s_n(views(parts@), i as int, n as nat, label@) == Err::<(Seq<i64>, int), Seq<char>>(e@),
        },
{
    let mut out: Vec<i64> = Vec::new();
    let mut j: usize = i;
    let mut c: usize = 0;
    while c < n
        invariant
            c <= n,
            j <= parts@.len(),
            i64s_n(views(parts@), i as int, c as nat, label@) == Ok::<(Seq<i64>, int), Seq<char>>((out@, j as int)),
        decreases n - c,
    {
        match next_i64(parts, j, label) {
            Ok(v) => {
                let len = parts.len();
                assert(j < len);
                out.push(v);
                j = j + 1;
            },
            Err(e) => {
                proof {
                    lemma_i64s_err(views(parts@), i as int, (c + 1) as nat, n as nat, label@, e@);
                }
                return Err(e);
            },
        }
        c += 1;
    }
    Ok((out, j))
}

/// The weekday names whose bit is set in a mask, Sunday first.
pub fn decode_weekdays(mask: i64) -> (r: Vec<String>)
    ensures
        crate::text::string_views(r@) == weekdays_upto(mask, 7),
{
    let names = ["Sun", "Mon", "Tue", "Wed", "Thu", "Fri", "Sat"];
    let mut out: Vec<String> = Vec::new();
    let mut k: usize = 0;
    assert(crate::text::string_views(out@) =~= seq![]);
    while k < 7
        invariant
            k <= 7,
            names@ == seq!["Sun", "Mon", "Tue", "Wed", "Thu", "Fri", "Sat"],
            crate::text::string_views(out@) == weekdays_upto(mask, k as nat),
        decreases 7 - k,
    {
        let bit: i64 = 1i64 << (k as i64);
        if mask & bit != 0 {
            let name = names[k];
            assert(name@ == weekday_label(k as int));
            let ghost before = out@;
            out.push(string_of(chars_of(name).as_slice()));
            assert(crate::text::string_views(out@) =~= crate::text::string_views(before).push(weekday_label(k as int)));
        }
        k += 1;
    }
    out
}


fn read_block(parts: &[Vec<char>], i: usize) -> (r: Result<(TimeBlock, usize), String>)
    requires
        i <= parts@.len(),
    ensures
        match r {
            Ok((b, k)) => one_block(views(parts@), i as int) == Ok::<(TimeBlockView, int), Seq<char>>((time_block_view(b), k as int)) && k <= parts@.len(),
            Err(e) => one_block(views(parts@), i as int) == Err::<(TimeBlockView, int), Seq<char>>(e@),
        },
{
    proof {
        reveal(one_block);
    }
    let len = parts.len();
    let yc = next_usize(parts, i, "date range count")?;
    assert(i < len);
    if yc > MAX_BLOCK_VALUES {
        return Err(string_of(chars_of("time block has too many date ranges").as_slice()));
    }
    let (date_ranges, j2) = read_date_ranges(parts, i + 1, yc)?;
    let mc = next_usize(parts, j2, "month day count")?;
    assert(j2 < len);
    if mc > MAX_BLOCK_VALUES {
        return Err(string_of(chars_of("time block has too many month days").as_slice()));
    }
    let (month_days, j4) = read_i64s(parts, j2 + 1, mc, "month day")?;
    let mask = next_i64(parts, j4, "weekday bitmask")?;
    assert(j4 < len);
    let tc = next_usize(parts, j4 + 1, "time range count")?;
    assert(j4 + 1 < len);
    if tc > MAX_BLOCK_VALUES {
        return Err(string_of(chars_of("time block has too many time ranges").as_slice()));
    }
    let (time_ranges, j7) = read_time_ranges(parts, j4 + 2, tc)?;
    let weekdays = decode_weekdays(mask);
    Ok((TimeBlock { date_ranges, month_days, weekdays, time_ranges }, j7))
}

/// Reads the time blocks that start at cell `i`.
pub fn read_time_blocks(parts: &[Vec<char>], i: usize) -> (r: Result<(Vec<TimeBlock>, usize), String>)
    requires
        i <= parts@.len(),
    ensures
        match r {
            Ok((v, k)) => spec_time_blocks(views(parts@), i as int) == Ok::<(Seq<TimeBlockView>, int), Seq<char>>((time_block_views(v@), k as int)) && k <= parts@.len(),
            Err(e) => spec_time_blocks(views(parts@), i as int) == Err::<(Seq<TimeBlockView>, int), Seq<char>>(e@),
        },
{
    let len = parts.len();
    let n = next_usize(parts, i, "time block count")?;
    assert(i < len);
    if n > MAX_TIME_BLOCKS {
        return Err(string_of(chars_of("schedule row has too many time blocks").as_slice()));
    }
    let mut out: Vec<TimeBlock> = Vec::new();
    let mut j: usize = i + 1;
    let mut c: usize = 0;
    assert(time_block_views(out@) =~= seq![]);
    while c < n
        invariant
            c <= n,
            j <= parts@.len(),
            spec_time_blocks(views(parts@), i as int) == blocks_n(views(parts@), i + 1, n as nat),
            blocks_n(views(parts@), i + 1, c as nat) == Ok::<(Seq<TimeBlockView>, int), Seq<char>>((time_block_views(out@), j as int)),
        decreases n - c,
    {
        match read_block(parts, j) {
            Ok((b, k)) => {
                let ghost before = time_block_views(out@);
                let ghost bv = time_block_view(b);
                out.push(b);
                assert(time_block_views(out@) =~= before.push(bv));
                j = k;
            },
            Err(e) => {
                proof {
                    lemma_blocks_err(views(parts@), i + 1, (c + 1) as nat, n as nat, e@);
                }
                return Err(e);
            },
        }
        c += 1;
    }
    Ok((out, j))
}


// ---------------------------------------------------------------------------
// Gacha rows
// ---------------------------------------------------------------------------

/// The canonical text of a JSON number, as `serde_json` writes back the
/// `Number` it reads from a text; `None` where it reads none.
pub uninterp spec fn json_number_of(text: Seq<char>) -> Option<Seq<char>>;

/// `text.parse::<serde_json::Number>()` written back with `to_string`.
#[verifier::external_body]
fn json_number_text(text: &str) -> (r: Option<String>)
    ensures
        match r {
            Some(s) => json_number_of(text@) == Some(s@),
            None => json_number_of(text@) is None,
        },
{
    match text.parse::<serde_json::Number>() {
        Ok(n) => Some(n.to_string()),
        Err(_) => None,
    }
}

pub struct GachaEntryView {
    pub id: i64,
    pub price: Seq<char>,
    pub flags: i64,
    pub rates: Seq<Seq<char>>,
    pub guaranteed: bool,
    pub message: Option<Seq<char>>,
}

pub struct GachaBlockView {
    pub schedule: HeaderView,
    pub gacha_type: i64,
    pub gacha_count: i64,
    pub gachas: Seq<GachaEntryView>,
    pub raw: Option<Seq<char>>,
}

pub open spec fn entry_view(e: GachaEntry) -> GachaEntryView {
    GachaEntryView {
        id: e.id,
        price: e.price@,
        flags: e.flags,
        rates: seq![e.rates.normal@, e.rates.rare@, e.rates.super_rare@, e.rates.uber_rare@, e.rates.legend_rare@],
        guaranteed: e.guaranteed,
        message: crate::protocol::opt_view(e.message),
    }
}

pub open spec fn block_view(b: GachaBlock) -> GachaBlockView {
    GachaBlockView {
        schedule: header_view(b.header.schedule),
        gacha_type: b.header.gacha_type,
        gacha_count: b.header.gacha_count,
        gachas: b.gachas@.map_values(|e: GachaEntry| entry_view(e)),
        raw: crate::protocol::opt_view(b.raw),
    }
}

pub open spec fn block_views(v: Seq<GachaBlock>) -> Seq<GachaBlockView> {
    v.map_values(|b: GachaBlock| block_view(b))
}

/// The first non-empty cell from `offset` on, or the end.
pub open spec fn skip_empty(cells: Seq<Seq<char>>, offset: int) -> int
    decreases cells.len() - offset,
{
    if 0 <= offset < cells.len() && cells[offset].len() == 0 {
        skip_empty(cells, offset + 1)
    } else {
        offset
    }
}

pub open spec fn sat_add(o: int, n: int) -> int {
    if o + n > usize::MAX {
        usize::MAX as int
    } else {
        o + n
    }
}

/// The `k` gacha cell groups from `offset` on: up to 15 cells each, after
/// any empty cells; `None` where a group would start past the row's end.
pub open spec fn cut_blocks(cells: Seq<Seq<char>>, offset: int, k: nat) -> Option<Seq<Seq<Seq<char>>>>
    decreases k,
{
    if k == 0 {
        Some(seq![])
    } else {
        let o = skip_empty(cells, offset);
        if o > cells.len() {
            None
        } else {
            let end = if o + 15 < cells.len() {
                o + 15
            } else {
                cells.len() as int
            };
            match cut_blocks(cells, sat_add(o, 15), (k - 1) as nat) {
                Some(rest) => Some(seq![cells.subrange(o, end)] + rest),
                None => None,
            }
        }
    }
}

pub open spec fn block_get(block: Seq<Seq<char>>, i: int) -> Seq<char> {
    if i < block.len() {
        block[i]
    } else {
        "0"@
    }
}

pub open spec fn i64_field(block: Seq<Seq<char>>, i: int, label: Seq<char>) -> Result<i64, Seq<char>> {
    match parse_i64_spec(spec_trim(block_get(block, i))) {
        Some(v) => Ok(v),
        None => Err("invalid "@ + label),
    }
}

pub open spec fn number_field(block: Seq<Seq<char>>, i: int, label: Seq<char>) -> Result<Seq<char>, Seq<char>> {
    match json_number_of(spec_trim(block_get(block, i))) {
        Some(t) => Ok(t),
        None => Err("invalid "@ + label),
    }
}

pub open spec fn block_id(block: Seq<Seq<char>>) -> i64 {
    if block.len() > 0 {
        match parse_i64_spec(block[0]) {
            Some(v) => v,
            None => -1i64,
        }
    } else {
        -1i64
    }
}

/// The gacha of a cell group, none when its id is missing or `-1`.
pub open spec fn spec_gacha_entry(block: Seq<Seq<char>>) -> Result<Option<GachaEntryView>, Seq<char>> {
    let id = block_id(block);
    if id == -1 {
        Ok(None)
    } else {
        match i64_field(block, 3, "gacha flags"@) {
            Err(e) => Err(e),
            Ok(flags) => match i64_field(block, 11, "gacha guaranteed flag"@) {
                Err(e) => Err(e),
                Ok(g) => match number_field(block, 1, "gacha price"@) {
                    Err(e) => Err(e),
                    Ok(price) => match number_field(block, 4, "normal rate"@) {
                        Err(e) => Err(e),
                        Ok(n) => match number_field(block, 6, "rare rate"@) {
                            Err(e) => Err(e),
                            Ok(r) => match number_field(block, 8, "super rare rate"@) {
                                Err(e) => Err(e),
                                Ok(sr) => match number_field(block, 10, "uber rare rate"@) {
                                    Err(e) => Err(e),
                                    Ok(ur) => match number_field(block, 12, "legend rare rate"@) {
                                        Err(e) => Err(e),
                                        Ok(lr) => Ok(Some(GachaEntryView {
                                            id,
                                            price,
                                            flags,
                                            rates: seq![n, r, sr, ur, lr],
                                            guaranteed: g == 1,
                                            message: Some(if 14 < block.len() {
                                                block[14]
                                            } else {
                                                ""@
                                            }),
                                        })),
                                    },
                                },
                            },
                        },
                    },
                },
            },
        }
    }
}

pub open spec fn entries_n(blocks: Seq<Seq<Seq<char>>>, n: int) -> Result<Seq<GachaEntryView>, Seq<char>>
    decreases n,
{
    if n <= 0 {
        Ok(seq![])
    } else {
        match entries_n(blocks, n - 1) {
            Err(e) => Err(e),
            Ok(es) => match spec_gacha_entry(blocks[n - 1]) {
                Err(e) => Err(e),
                Ok(None) => Ok(es),
                Ok(Some(g)) => Ok(es.push(g)),
            },
        }
    }
}

/// A gacha row: none when it has fewer than ten cells; `None` where its
/// cell groups run past its end.
#[verifier::opaque]
pub open spec fn spec_gatya_line(line: Seq<char>) -> Option<Result<Option<GachaBlockView>, Seq<char>>> {
    let cells = split_fields(line, '\t');
    if cells.len() < 10 {
        Some(Ok(None))
    } else {
        match parse_usize_spec(spec_trim(cells[9])) {
            None => Some(Err("invalid gacha count"@)),
            Some(count) => if count > MAX_GACHAS {
                Some(Err("gacha row has too many entries"@))
            } else {
                match spec_parse_header(cells.take(6)) {
                    Err(e) => Some(Err(e)),
                    Ok(h) => match parse_i64_spec(spec_trim(cells[8])) {
                        None => Some(Err("invalid gacha type"@)),
                        Some(t) => match cut_blocks(cells, 10, count as nat) {
                            None => None,
                            Some(blocks) => match entries_n(blocks, blocks.len() as int) {
                                Err(e) => Some(Err(e)),
                                Ok(es) => Some(Ok(Some(GachaBlockView {
                                    schedule: h,
                                    gacha_type: t,
                                    gacha_count: count as i64,
                                    gachas: es,
                                    raw: Some(line),
                                }))),
                            },
                        },
                    },
                }
            },
        }
    }
}

pub open spec fn gatya_lines(ls: Seq<Seq<char>>, n: int) -> Option<Result<Seq<GachaBlockView>, Seq<char>>>
    decreases n,
{
    if n <= 0 {
        Some(Ok(seq![]))
    } else {
        match gatya_lines(ls, n - 1) {
            None => None,
            Some(Err(e)) => Some(Err(e)),
            Some(Ok(bs)) => match spec_gatya_line(ls[n - 1]) {
                None => None,
                Some(Err(e)) => Some(Err(e)),
                Some(Ok(None)) => Some(Ok(bs)),
                Some(Ok(Some(b))) => Some(Ok(bs.push(b))),
            },
        }
    }
}

/// The gacha schedule of a raw TSV; `None` on the rows where cell groups
/// would start past the end of the row.
pub open spec fn spec_parse_gatya(text: Seq<char>) -> Option<Result<Seq<GachaBlockView>, Seq<char>>> {
    match spec_data_lines(text) {
        Err(e) => Some(Err(e)),
        Ok(ls) => gatya_lines(ls, ls.len() as int),
    }
}


pub open spec fn prepend_blocks(done: Seq<Seq<Seq<char>>>, rest: Option<Seq<Seq<Seq<char>>>>) -> Option<Seq<Seq<Seq<char>>>> {
    match rest {
        Some(r) => Some(done + r),
        None => None,
    }
}

fn copy_cells(cells: &Vec<Vec<char>>, from: usize, to: usize) -> (r: Vec<Vec<char>>)
    requires
        from <= to <= cells@.len(),
    ensures
        views(r@) == views(cells@).subrange(from as int, to as int),
{
    let mut out: Vec<Vec<char>> = Vec::new();
    let mut i: usize = from;
    while i < to
        invariant
            from <= i <= to <= cells@.len(),
            views(out@) == views(cells@).subrange(from as int, i as int),
        decreases to - i,
    {
        let c = slice(cells[i].as_slice(), 0, cells[i].len());
        assert(c@ =~= cells@[i as int]@);
        let ghost before = views(out@);
        out.push(c);
        assert(views(out@) =~= before.push(c@));
        assert(views(out@) =~= views(cells@).subrange(from as int, i + 1));
        i += 1;
    }
    out
}

fn cut_blocks_exec(cells: &Vec<Vec<char>>, count: usize) -> (r: Option<Vec<Vec<Vec<char>>>>)
    requires
        10 <= cells@.len(),
    ensures
        match r {
            Some(b) => cut_blocks(views(cells@), 10, count as nat) == Some(b@.map_values(|x: Vec<Vec<char>>| views(x@))),
            None => cut_blocks(views(cells@), 10, count as nat) is None,
        },
{
    let ghost cv = views(cells@);
    let ghost f = |x: Vec<Vec<char>>| views(x@);
    let mut out: Vec<Vec<Vec<char>>> = Vec::new();
    let mut offset: usize = 10;
    let mut k: usize = 0;
    assert(prepend_blocks(out@.map_values(f), cut_blocks(cv, 10, count as nat)) =~= cut_blocks(cv, 10, count as nat)) by {
        assert(out@.map_values(f) =~= seq![]);
        match cut_blocks(cv, 10, count as nat) {
            Some(r) => assert(seq![] + r =~= r),
            None => {},
        }
    }
    while k < count
        invariant
            k <= count,
            cv == views(cells@),
            f == (|x: Vec<Vec<char>>| views(x@)),
            cut_blocks(cv, 10, count as nat) == prepend_blocks(out@.map_values(f), cut_blocks(cv, offset as int, (count - k) as nat)),
        decreases count - k,
    {
        let ghost start = offset as int;
        while offset < cells.len() && cells[offset].len() == 0
            invariant
                cv == views(cells@),
                skip_empty(cv, start) == skip_empty(cv, offset as int),
            decreases cells@.len() - offset,
        {
            assert(cv[offset as int] == cells@[offset as int]@);
            offset += 1;
        }
        proof {
            if (offset as int) < cv.len() {
                assert(cv[offset as int] == cells@[offset as int]@);
            }
        }
        assert(skip_empty(cv, offset as int) == offset as int);
        if offset > cells.len() {
            return None;
        }
        let end = if cells.len() - offset > 15 {
            offset + 15
        } else {
            cells.len()
        };
        let block = copy_cells(cells, offset, end);
        let ghost bv = views(block@);
        let ghost before = out@.map_values(f);
        out.push(block);
        assert(out@.map_values(f) =~= before.push(bv));
        proof {
            match cut_blocks(cv, sat_add(offset as int, 15), (count - k - 1) as nat) {
                Some(rest) => {
                    assert(before + (seq![bv] + rest) =~= before.push(bv) + rest);
                },
                None => {},
            }
        }
        offset = offset.saturating_add(15);
        k += 1;
    }
    assert(cut_blocks(cv, offset as int, 0) == Some(Seq::<Seq<Seq<char>>>::empty()));
    assert(out@.map_values(f) + Seq::<Seq<Seq<char>>>::empty() =~= out@.map_values(f));
    Some(out)
}

fn field_text(block: &Vec<Vec<char>>, i: usize) -> (r: Vec<char>)
    ensures
        r@ == spec_trim(block_get(views(block@), i as int)),
{
    if i < block.len() {
        assert(views(block@)[i as int] == block@[i as int]@);
        trim(block[i].as_slice())
    } else {
        trim(chars_of("0").as_slice())
    }
}

fn read_i64_field(block: &Vec<Vec<char>>, i: usize, label: &str) -> (r: Result<i64, String>)
    ensures
        match r {
            Ok(v) => i64_field(views(block@), i as int, label@) == Ok::<i64, Seq<char>>(v),
            Err(e) => i64_field(views(block@), i as int, label@) == Err::<i64, Seq<char>>(e@),
        },
{
    match parse_i64(field_text(block, i).as_slice()) {
        Some(v) => Ok(v),
        None => Err(labelled("invalid ", label)),
    }
}

fn read_number_field(block: &Vec<Vec<char>>, i: usize, label: &str) -> (r: Result<String, String>)
    ensures
        match r {
            Ok(v) => number_field(views(block@), i as int, label@) == Ok::<Seq<char>, Seq<char>>(v@),
            Err(e) => number_field(views(block@), i as int, label@) == Err::<Seq<char>, Seq<char>>(e@),
        },
{
    let t = string_of(field_text(block, i).as_slice());
    match json_number_text(t.as_str()) {
        Some(v) => Ok(v),
        None => Err(labelled("invalid ", label)),
    }
}

fn read_gacha_entry(block: &Vec<Vec<char>>) -> (r: Result<Option<GachaEntry>, String>)
    ensures
        match r {
            Ok(Some(e)) => spec_gacha_entry(views(block@)) == Ok::<Option<GachaEntryView>, Seq<char>>(Some(entry_view(e))),
            Ok(None) => spec_gacha_entry(views(block@)) == Ok::<Option<GachaEntryView>, Seq<char>>(None),
            Err(e) => spec_gacha_entry(views(block@)) == Err::<Option<GachaEntryView>, Seq<char>>(e@),
        },
{
    let id: i64 = if block.len() > 0 {
        assert(views(block@)[0] == block@[0]@);
        match parse_i64(block[0].as_slice()) {
            Some(v) => v,
            None => -1,
        }
    } else {
        -1
    };
    if id == -1 {
        return Ok(None);
    }
    let flags = read_i64_field(block, 3, "gacha flags")?;
    let g = read_i64_field(block, 11, "gacha guaranteed flag")?;
    let price = read_number_field(block, 1, "gacha price")?;
    let normal = read_number_field(block, 4, "normal rate")?;
    let rare = read_number_field(block, 6, "rare rate")?;
    let super_rare = read_number_field(block, 8, "super rare rate")?;
    let uber_rare = read_number_field(block, 10, "uber rare rate")?;
    let legend_rare = read_number_field(block, 12, "legend rare rate")?;
    let message = if 14 < block.len() {
        assert(views(block@)[14] == block@[14]@);
        string_of(block[14].as_slice())
    } else {
        proof {
            reveal_strlit("");
        }
        string_of(chars_of("").as_slice())
    };
    let e = GachaEntry {
        id,
        price,
        flags,
        rates: GachaRate { normal, rare, super_rare, uber_rare, legend_rare },
        guaranteed: g == 1,
        message: Some(message),
    };
    assert(entry_view(e).rates =~= seq![e.rates.normal@, e.rates.rare@, e.rates.super_rare@, e.rates.uber_rare@, e.rates.legend_rare@]);
    Ok(Some(e))
}

proof fn lemma_entries_err(blocks: Seq<Seq<Seq<char>>>, n: int, m: int, e: Seq<char>)
    requires
        n <= m,
        entries_n(blocks, n) == Err::<Seq<GachaEntryView>, Seq<char>>(e),
    ensures
        entries_n(blocks, m) == Err::<Seq<GachaEntryView>, Seq<char>>(e),
    decreases m - n,
{
    if n < m {
        lemma_entries_err(blocks, n, m - 1, e);
    }
}

fn read_entries(blocks: &Vec<Vec<Vec<char>>>) -> (r: Result<Vec<GachaEntry>, String>)
    ensures
        match r {
            Ok(v) => entries_n(blocks@.map_values(|x: Vec<Vec<char>>| views(x@)), blocks@.len() as int) == Ok::<Seq<GachaEntryView>, Seq<char>>(
                v@.map_values(|e: GachaEntry| entry_view(e)),
            ),
            Err(e) => entries_n(blocks@.map_values(|x: Vec<Vec<char>>| views(x@)), blocks@.len() as int) == Err::<Seq<GachaEntryView>, Seq<char>>(e@),
        },
{
    let ghost bv = blocks@.map_values(|x: Vec<Vec<char>>| views(x@));
    let ghost ev = |e: GachaEntry| entry_view(e);
    let mut out: Vec<GachaEntry> = Vec::new();
    let mut i: usize = 0;
    assert(out@.map_values(ev) =~= seq![]);
    while i < blocks.len()
        invariant
            i <= blocks@.len(),
            bv == blocks@.map_values(|x: Vec<Vec<char>>| views(x@)),
            ev == (|e: GachaEntry| entry_view(e)),
            entries_n(bv, i as int) == Ok::<Seq<GachaEntryView>, Seq<char>>(out@.map_values(ev)),
        decreases blocks@.len() - i,
    {
        assert(bv[i as int] == views(blocks@[i as int]@));
        match read_gacha_entry(&blocks[i]) {
            Ok(Some(e)) => {
                let ghost before = out@.map_values(ev);
                let ghost evv = entry_view(e);
                out.push(e);
                assert(out@.map_values(ev) =~= before.push(evv));
            },
            Ok(None) => {},
            Err(e) => {
                proof {
                    lemma_entries_err(bv, i + 1, blocks@.len() as int, e@);
                }
                return Err(e);
            },
        }
        i += 1;
    }
    Ok(out)
}

fn read_gatya_line(line: &Vec<char>) -> (r: Option<Result<Option<GachaBlock>, String>>)
    ensures
        match r {
            None => spec_gatya_line(line@) is None,
            Some(Err(e)) => spec_gatya_line(line@) == Some(Err::<Option<GachaBlockView>, Seq<char>>(e@)),
            Some(Ok(None)) => spec_gatya_line(line@) == Some(Ok::<Option<GachaBlockView>, Seq<char>>(None)),
            Some(Ok(Some(b))) => spec_gatya_line(line@) == Some(Ok::<Option<GachaBlockView>, Seq<char>>(Some(block_view(b)))),
        },
{
    proof {
        reveal(spec_gatya_line);
    }
    let cells = split_char(line.as_slice(), '\t');
    let ghost cv = views(cells@);
    if cells.len() < 10 {
        return Some(Ok(None));
    }
    assert(cv[9] == cells@[9]@ && cv[8] == cells@[8]@);
    let count = match parse_usize(trim(cells[9].as_slice()).as_slice()) {
        Some(c) => c,
        None => {
            return Some(Err(string_of(chars_of("invalid gacha count").as_slice())));
        },
    };
    if count > MAX_GACHAS {
        return Some(Err(string_of(chars_of("gacha row has too many entries").as_slice())));
    }
    let first = copy_cells(&cells, 0, 6);
    assert(views(first@) =~= cv.take(6));
    let schedule = match parse_header(first.as_slice()) {
        Ok(h) => h,
        Err(e) => {
            return Some(Err(e));
        },
    };
    let gacha_type = match parse_i64(trim(cells[8].as_slice()).as_slice()) {
        Some(t) => t,
        None => {
            return Some(Err(string_of(chars_of("invalid gacha type").as_slice())));
        },
    };
    let blocks = match cut_blocks_exec(&cells, count) {
        Some(b) => b,
        None => {
            return None;
        },
    };
    let gachas = match read_entries(&blocks) {
        Ok(g) => g,
        Err(e) => {
            return Some(Err(e));
        },
    };
    let b = GachaBlock {
        header: GachaHeader { schedule, gacha_type, gacha_count: count as i64 },
        gachas,
        raw: Some(string_of(line.as_slice())),
    };
    Some(Ok(Some(b)))
}

proof fn lemma_gatya_lines_stop(ls: Seq<Seq<char>>, n: int, m: int)
    requires
        n <= m,
        !(gatya_lines(ls, n) matches Some(Ok(_))),
    ensures
        gatya_lines(ls, m) == gatya_lines(ls, n),
    decreases m - n,
{
    if n < m {
        lemma_gatya_lines_stop(ls, n, m - 1);
    }
}

fn read_gatya_rows(text: &str) -> (r: Option<Result<Vec<GachaBlock>, String>>)
    ensures
        match r {
            None => spec_parse_gatya(text@) is None,
            Some(Err(e)) => spec_parse_gatya(text@) == Some(Err::<Seq<GachaBlockView>, Seq<char>>(e@)),
            Some(Ok(v)) => spec_parse_gatya(text@) == Some(Ok::<Seq<GachaBlockView>, Seq<char>>(block_views(v@))),
        },
{
    let ls = match data_lines(text) {
        Ok(ls) => ls,
        Err(e) => {
            return Some(Err(e));
        },
    };
    let ghost lv = views(ls@);
    let mut out: Vec<GachaBlock> = Vec::new();
    let mut i: usize = 0;
    assert(block_views(out@) =~= seq![]);
    while i < ls.len()
        invariant
            i <= ls@.len(),
            lv == views(ls@),
            spec_parse_gatya(text@) == gatya_lines(lv, lv.len() as int),
            gatya_lines(lv, i as int) == Some(Ok::<Seq<GachaBlockView>, Seq<char>>(block_views(out@))),
        decreases ls@.len() - i,
    {
        assert(lv[i as int] == ls@[i as int]@);
        match read_gatya_line(&ls[i]) {
            None => {
                proof {
                    lemma_gatya_lines_stop(lv, i + 1, lv.len() as int);
                }
                return None;
            },
            Some(Err(e)) => {
                proof {
                    lemma_gatya_lines_stop(lv, i + 1, lv.len() as int);
                }
                return Some(Err(e));
            },
            Some(Ok(None)) => {},
            Some(Ok(Some(b))) => {
                let ghost before = block_views(out@);
                let ghost bvv = block_view(b);
                out.push(b);
                assert(block_views(out@) =~= before.push(bvv));
            },
        }
        i += 1;
    }
    Some(Ok(out))
}

/// Reads a raw gacha schedule: one block for each row of ten or more cells.
/// The featured rates that follow a row's gachas are not kept.
pub fn parse_gatya_tsv(text: &str) -> (r: Result<Vec<GachaBlock>, String>)
    requires
        spec_parse_gatya(text@) is Some,
    ensures
        match r {
            Err(e) => spec_parse_gatya(text@) == Some(Err::<Seq<GachaBlockView>, Seq<char>>(e@)),
            Ok(v) => spec_parse_gatya(text@) == Some(Ok::<Seq<GachaBlockView>, Seq<char>>(block_views(v@))),
        },
{
    match read_gatya_rows(text) {
        Some(r) => r,
        None => Ok(Vec::new()),
    }
}

/// Reads a raw gacha schedule when no row's cell groups start past the end
/// of the row, `None` otherwise.
pub fn parse_gatya_tsv_checked(text: &str) -> (r: Option<Result<Vec<GachaBlock>, String>>)
    ensures
        match r {
            None => spec_parse_gatya(text@) is None,
            Some(Err(e)) => spec_parse_gatya(text@) == Some(Err::<Seq<GachaBlockView>, Seq<char>>(e@)),
            Some(Ok(v)) => spec_parse_gatya(text@) == Some(Ok::<Seq<GachaBlockView>, Seq<char>>(block_views(v@))),
        },
{
    match read_gatya_rows(text) {
        None => None,
        Some(_) => Some(parse_gatya_tsv(text)),
    }
}


// ---------------------------------------------------------------------------
// Sale and item rows
// ---------------------------------------------------------------------------

pub struct SaleEntryView {
    pub header: HeaderView,
    pub time_blocks: Seq<TimeBlockView>,
    pub stage_ids: Seq<i64>,
    pub raw: Option<Seq<char>>,
}

pub open spec fn sale_entry_view(e: SaleEntry) -> SaleEntryView {
    SaleEntryView {
        header: header_view(e.header),
        time_blocks: time_block_views(e.time_blocks@),
        stage_ids: e.stage_ids@,
        raw: crate::protocol::opt_view(e.raw),
    }
}

/// The cells that are not empty, in order.
pub open spec fn non_empty(cells: Seq<Seq<char>>) -> Seq<Seq<char>>
    decreases cells.len(),
{
    if cells.len() == 0 {
        seq![]
    } else if cells.last().len() > 0 {
        non_empty(cells.drop_last()).push(cells.last())
    } else {
        non_empty(cells.drop_last())
    }
}

/// A sale row: its non-empty cells hold a header, then after one more cell
/// the time blocks and the stage ids.
#[verifier::opaque]
pub open spec fn spec_sale_line(line: Seq<char>) -> Result<SaleEntryView, Seq<char>> {
    let parts = non_empty(split_fields(line, '\t'));
    if parts.len() < 9 {
        Err("sale row is too short"@)
    } else {
        match spec_parse_header(parts.take(6)) {
            Err(e) => Err(e),
            Ok(h) => {
                let rest = parts.skip(7);
                match spec_time_blocks(rest, 0) {
                    Err(e) => Err(e),
                    Ok((tbs, j)) => match cur_usize(rest, j, "stage count"@) {
                        Err(e) => Err(e),
                        Ok((n, j2)) => if n > MAX_BLOCK_VALUES {
                            Err("sale row has too many stage IDs"@)
                        } else {
                            match i64s_n(rest, j2, n as nat, "stage ID"@) {
                                Err(e) => Err(e),
                                Ok((ids, _)) => Ok(SaleEntryView { header: h, time_blocks: tbs, stage_ids: ids, raw: Some(line) }),
                            }
                        },
                    },
                }
            },
        }
    }
}

pub open spec fn sale_lines(ls: Seq<Seq<char>>, n: int) -> Result<Seq<SaleEntryView>, Seq<char>>
    decreases n,
{
    if n <= 0 {
        Ok(seq![])
    } else {
        match sale_lines(ls, n - 1) {
            Err(e) => Err(e),
            Ok(es) => match spec_sale_line(ls[n - 1]) {
                Err(e) => Err(e),
                Ok(x) => Ok(es.push(x)),
            },
        }
    }
}

pub open spec fn spec_parse_sale(text: Seq<char>) -> Result<Seq<SaleEntryView>, Seq<char>> {
    match spec_data_lines(text) {
        Err(e) => Err(e),
        Ok(ls) => sale_lines(ls, ls.len() as int),
    }
}

fn non_empty_exec(cells: &Vec<Vec<char>>) -> (r: Vec<Vec<char>>)
    ensures
        views(r@) == non_empty(views(cells@)),
{
    let ghost cv = views(cells@);
    let mut out: Vec<Vec<char>> = Vec::new();
    let mut i: usize = 0;
    assert(views(out@) =~= non_empty(cv.take(0)));
    while i < cells.len()
        invariant
            i <= cells@.len(),
            cv == views(cells@),
            views(out@) == non_empty(cv.take(i as int)),
        decreases cells@.len() - i,
    {
        assert(cv.take(i + 1).drop_last() =~= cv.take(i as int));
        assert(cv[i as int] == cells@[i as int]@);
        if cells[i].len() > 0 {
            let c = slice(cells[i].as_slice(), 0, cells[i].len());
            assert(c@ =~= cells@[i as int]@);
            let ghost before = views(out@);
            out.push(c);
            assert(views(out@) =~= before.push(c@));
        }
        i += 1;
    }
    assert(cv.take(i as int) =~= cv);
    out
}

fn read_sale_line(line: &Vec<char>) -> (r: Result<SaleEntry, String>)
    ensures
        match r {
            Ok(e) => spec_sale_line(line@) == Ok::<SaleEntryView, Seq<char>>(sale_entry_view(e)),
            Err(e) => spec_sale_line(line@) == Err::<SaleEntryView, Seq<char>>(e@),
        },
{
    proof {
        reveal(spec_sale_line);
    }
    let cells = split_char(line.as_slice(), '\t');
    let parts = non_empty_exec(&cells);
    let ghost pv = views(parts@);
    if parts.len() < 9 {
        return Err(string_of(chars_of("sale row is too short").as_slice()));
    }
    let first = copy_cells(&parts, 0, 6);
    assert(views(first@) =~= pv.take(6));
    let header = parse_header(first.as_slice())?;
    let rest = copy_cells(&parts, 7, parts.len());
    assert(views(rest@) =~= pv.skip(7));
    let (time_blocks, j) = read_time_blocks(rest.as_slice(), 0)?;
    let n = next_usize(rest.as_slice(), j, "stage count")?;
    let len = rest.len();
    assert(j < len);
    if n > MAX_BLOCK_VALUES {
        return Err(string_of(chars_of("sale row has too many stage IDs").as_slice()));
    }
    let (stage_ids, _) = read_i64s(rest.as_slice(), j + 1, n, "stage ID")?;
    Ok(SaleEntry { header, time_blocks, stage_ids, raw: Some(string_of(line.as_slice())) })
}

proof fn lemma_sale_lines_err(ls: Seq<Seq<char>>, n: int, m: int, e: Seq<char>)
    requires
        n <= m,
        sale_lines(ls, n) == Err::<Seq<SaleEntryView>, Seq<char>>(e),
    ensures
        sale_lines(ls, m) == Err::<Seq<SaleEntryView>, Seq<char>>(e),
    decreases m - n,
{
    if n < m {
        lemma_sale_lines_err(ls, n, m - 1, e);
    }
}

/// Reads a raw sale schedule: one entry for each row.
pub fn parse_sale_tsv(text: &str) -> (r: Result<Vec<SaleEntry>, String>)
    ensures
        match r {
            Ok(v) => spec_parse_sale(text@) == Ok::<Seq<SaleEntryView>, Seq<char>>(v@.map_values(|e: SaleEntry| sale_entry_view(e))),
            Err(e) => spec_parse_sale(text@) == Err::<Seq<SaleEntryView>, Seq<char>>(e@),
        },
{
    let ls = data_lines(text)?;
    let ghost lv = views(ls@);
    let ghost f = |e: SaleEntry| sale_entry_view(e);
    let mut out: Vec<SaleEntry> = Vec::new();
    let mut i: usize = 0;
    assert(out@.map_values(f) =~= seq![]);
    while i < ls.len()
        invariant
            i <= ls@.len(),
            lv == views(ls@),
            f == (|e: SaleEntry| sale_entry_view(e)),
            spec_parse_sale(text@) == sale_lines(lv, lv.len() as int),
            sale_lines(lv, i as int) == Ok::<Seq<SaleEntryView>, Seq<char>>(out@.map_values(f)),
        decreases ls@.len() - i,
    {
        assert(lv[i as int] == ls@[i as int]@);
        match read_sale_line(&ls[i]) {
            Ok(e) => {
                let ghost before = out@.map_values(f);
                let ghost ev = sale_entry_view(e);
                out.push(e);
                assert(out@.map_values(f) =~= before.push(ev));
            },
            Err(e) => {
                proof {
                    lemma_sale_lines_err(lv, i + 1, lv.len() as int, e@);
                }
                return Err(e);
            },
        }
        i += 1;
    }
    Ok(out)
}


pub struct ItemGiftView {
    pub event_id: i64,
    pub gift_type: i64,
    pub gift_amount: i64,
    pub title: Seq<char>,
    pub message: Seq<char>,
    pub url: Seq<char>,
    pub repeat_flag: i64,
}

pub struct ItemEntryView {
    pub header: HeaderView,
    pub time_blocks: Seq<TimeBlockView>,
    pub gift: ItemGiftView,
    pub raw: Option<Seq<char>>,
}

pub open spec fn item_entry_view(e: ItemEntry) -> ItemEntryView {
    ItemEntryView {
        header: header_view(e.header),
        time_blocks: time_block_views(e.time_blocks@),
        gift: ItemGiftView {
            event_id: e.gift.event_id,
            gift_type: e.gift.gift_type,
            gift_amount: e.gift.gift_amount,
            title: e.gift.title@,
            message: e.gift.message@,
            url: e.gift.url@,
            repeat_flag: e.gift.repeat_flag,
        },
        raw: crate::protocol::opt_view(e.raw),
    }
}

pub open spec fn or_zero(v: Seq<char>) -> i64 {
    match parse_i64_spec(spec_trim(v)) {
        Some(n) => n,
        None => 0,
    }
}

/// The gift of the cells after the time blocks: with eight or more cells,
/// the numbers, and a title and a message, a link taking the place of
/// either when it starts with `http`; else an empty gift.
pub open spec fn spec_item_gift(rem: Seq<Seq<char>>) -> ItemGiftView {
    if rem.len() >= 8 {
        let title = rem[3];
        let second = rem[4];
        let (t, m, u) = if crate::text::spec_starts_with(second, "http"@) {
            (title, ""@, second)
        } else if crate::text::spec_starts_with(title, "http"@) {
            (""@, ""@, title)
        } else {
            (title, second, ""@)
        };
        ItemGiftView {
            event_id: or_zero(rem[0]),
            gift_type: or_zero(rem[1]),
            gift_amount: or_zero(rem[2]),
            title: t,
            message: m,
            url: u,
            repeat_flag: or_zero(rem[7]),
        }
    } else {
        ItemGiftView { event_id: 0, gift_type: 0, gift_amount: 0, title: ""@, message: ""@, url: ""@, repeat_flag: 0 }
    }
}

/// An item row: a header, after one more cell the time blocks, then the gift.
#[verifier::opaque]
pub open spec fn spec_item_line(line: Seq<char>) -> Result<ItemEntryView, Seq<char>> {
    let parts = split_fields(line, '\t');
    if parts.len() < 9 {
        Err("item row is too short"@)
    } else {
        match spec_parse_header(parts.take(6)) {
            Err(e) => Err(e),
            Ok(h) => {
                let rest = parts.skip(7);
                match spec_time_blocks(rest, 0) {
                    Err(e) => Err(e),
                    Ok((tbs, j)) => Ok(ItemEntryView { header: h, time_blocks: tbs, gift: spec_item_gift(rest.skip(j)), raw: Some(line) }),
                }
            },
        }
    }
}

pub open spec fn item_lines(ls: Seq<Seq<char>>, n: int) -> Result<Seq<ItemEntryView>, Seq<char>>
    decreases n,
{
    if n <= 0 {
        Ok(seq![])
    } else {
        match item_lines(ls, n - 1) {
            Err(e) => Err(e),
            Ok(es) => match spec_item_line(ls[n - 1]) {
                Err(e) => Err(e),
                Ok(x) => Ok(es.push(x)),
            },
        }
    }
}

pub open spec fn spec_parse_item(text: Seq<char>) -> Result<Seq<ItemEntryView>, Seq<char>> {
    match spec_data_lines(text) {
        Err(e) => Err(e),
        Ok(ls) => item_lines(ls, ls.len() as int),
    }
}

fn or_zero_exec(v: &Vec<char>) -> (r: i64)
    ensures
        r == or_zero(v@),
{
    match parse_i64(trim(v.as_slice()).as_slice()) {
        Some(n) => n,
        None => 0,
    }
}

fn read_gift(rem: &Vec<Vec<char>>) -> (r: ItemGift)
    ensures
        (ItemGiftView {
            event_id: r.event_id,
            gift_type: r.gift_type,
            gift_amount: r.gift_amount,
            title: r.title@,
            message: r.message@,
            url: r.url@,
            repeat_flag: r.repeat_flag,
        }) == spec_item_gift(views(rem@)),
{
    proof {
        reveal_strlit("http");
        reveal_strlit("");
    }
    let empty = string_of(chars_of("").as_slice());
    if rem.len() < 8 {
        return ItemGift {
            event_id: 0,
            gift_type: 0,
            gift_amount: 0,
            title: string_of(chars_of("").as_slice()),
            message: string_of(chars_of("").as_slice()),
            url: empty,
            repeat_flag: 0,
        };
    }
    let ghost rv = views(rem@);
    assert(rv[0] == rem@[0]@ && rv[1] == rem@[1]@ && rv[2] == rem@[2]@ && rv[3] == rem@[3]@);
    assert(rv[4] == rem@[4]@ && rv[7] == rem@[7]@);
    let title = &rem[3];
    let second = &rem[4];
    let http = chars_of("http");
    let (t, m, u) = if crate::text::starts_with(second.as_slice(), http.as_slice()) {
        (string_of(title.as_slice()), string_of(chars_of("").as_slice()), string_of(second.as_slice()))
    } else if crate::text::starts_with(title.as_slice(), http.as_slice()) {
        (string_of(chars_of("").as_slice()), string_of(chars_of("").as_slice()), string_of(title.as_slice()))
    } else {
        (string_of(title.as_slice()), string_of(second.as_slice()), string_of(chars_of("").as_slice()))
    };
    ItemGift {
        event_id: or_zero_exec(&rem[0]),
        gift_type: or_zero_exec(&rem[1]),
        gift_amount: or_zero_exec(&rem[2]),
        title: t,
        message: m,
        url: u,
        repeat_flag: or_zero_exec(&rem[7]),
    }
}

fn read_item_line(line: &Vec<char>) -> (r: Result<ItemEntry, String>)
    ensures
        match r {
            Ok(e) => spec_item_line(line@) == Ok::<ItemEntryView, Seq<char>>(item_entry_view(e)),
            Err(e) => spec_item_line(line@) == Err::<ItemEntryView, Seq<char>>(e@),
        },
{
    proof {
        reveal(spec_item_line);
    }
    let parts = split_char(line.as_slice(), '\t');
    let ghost pv = views(parts@);
    if parts.len() < 9 {
        return Err(string_of(chars_of("item row is too short").as_slice()));
    }
    let first = copy_cells(&parts, 0, 6);
    assert(views(first@) =~= pv.take(6));
    let header = parse_header(first.as_slice())?;
    let rest = copy_cells(&parts, 7, parts.len());
    assert(views(rest@) =~= pv.skip(7));
    let (time_blocks, j) = read_time_blocks(rest.as_slice(), 0)?;
    let rem = copy_cells(&rest, j, rest.len());
    assert(views(rem@) =~= views(rest@).skip(j as int));
    let gift = read_gift(&rem);
    Ok(ItemEntry { header, time_blocks, gift, raw: Some(string_of(line.as_slice())) })
}

proof fn lemma_item_lines_err(ls: Seq<Seq<char>>, n: int, m: int, e: Seq<char>)
    requires
        n <= m,
        item_lines(ls, n) == Err::<Seq<ItemEntryView>, Seq<char>>(e),
    ensures
        item_lines(ls, m) == Err::<Seq<ItemEntryView>, Seq<char>>(e),
    decreases m - n,
{
    if n < m {
        lemma_item_lines_err(ls, n, m - 1, e);
    }
}

/// Reads a raw item schedule: one entry for each row.
pub fn parse_item_tsv(text: &str) -> (r: Result<Vec<ItemEntry>, String>)
    ensures
        match r {
            Ok(v) => spec_parse_item(text@) == Ok::<Seq<ItemEntryView>, Seq<char>>(v@.map_values(|e: ItemEntry| item_entry_view(e))),
            Err(e) => spec_parse_item(text@) == Err::<Seq<ItemEntryView>, Seq<char>>(e@),
        },
{
    let ls = data_lines(text)?;
    let ghost lv = views(ls@);
    let ghost f = |e: ItemEntry| item_entry_view(e);
    let mut out: Vec<ItemEntry> = Vec::new();
    let mut i: usize = 0;
    assert(out@.map_values(f) =~= seq![]);
    while i < ls.len()
        invariant
            i <= ls@.len(),
            lv == views(ls@),
            f == (|e: ItemEntry| item_entry_view(e)),
            spec_parse_item(text@) == item_lines(lv, lv.len() as int),
            item_lines(lv, i as int) == Ok::<Seq<ItemEntryView>, Seq<char>>(out@.map_values(f)),
        decreases ls@.len() - i,
    {
        assert(lv[i as int] == ls@[i as int]@);
        match read_item_line(&ls[i]) {
            Ok(e) => {
                let ghost before = out@.map_values(f);
                let ghost ev = item_entry_view(e);
                out.push(e);
                assert(out@.map_values(f) =~= before.push(ev));
            },
            Err(e) => {
                proof {
                    lemma_item_lines_err(lv, i + 1, lv.len() as int, e@);
                }
                return Err(e);
            },
        }
        i += 1;
    }
    Ok(out)
}

} // verus!
