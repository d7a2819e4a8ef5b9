//! Dates and times of event data: header dates in Japan time, recurring time
//! blocks, and durations.
use vstd::prelude::*;

use crate::text::{
    append, append_str, byte_get, chars_of, decimal, decimal_int, fmt_i64, fmt_u64, join,
    join_str, pad_zero, pad_zero_exec, parse_i32, parse_i32_spec, parse_i64, parse_i64_spec,
    parse_u32, parse_u32_spec, spec_byte_get, spec_join, spec_trim, spec_words, string_of,
    string_views, trim, utf8_width, views, words, char_at_byte,
};

verus! {

#[derive(Clone, Debug)]
pub struct ScheduleHeader {
    pub start_date: String,
    pub start_time: String,
    pub end_date: String,
    pub end_time: String,
    pub min_version: String,
    pub max_version: String,
}

#[derive(Clone, Debug)]
pub struct DateRange {
    pub start: String,
    pub end: String,
}

#[derive(Clone, Debug)]
pub struct TimeBlock {
    pub date_ranges: Vec<DateRange>,
    pub month_days: Vec<i64>,
    pub weekdays: Vec<String>,
    pub time_ranges: Vec<(String, String)>,
}

// ---------------------------------------------------------------------------
// Time blocks
// ---------------------------------------------------------------------------

/// The Japanese name of an English weekday abbreviation; other text as is.
pub open spec fn spec_weekday_name(value: Seq<char>) -> Seq<char> {
    if value == "Sun"@ {
        "日"@
    } else if value == "Mon"@ {
        "月"@
    } else if value == "Tue"@ {
        "火"@
    } else if value == "Wed"@ {
        "水"@
    } else if value == "Thu"@ {
        "木"@
    } else if value == "Fri"@ {
        "金"@
    } else if value == "Sat"@ {
        "土"@
    } else {
        value
    }
}

pub fn weekday_name(value: &[char]) -> (r: Vec<char>)
    ensures
        r@ == spec_weekday_name(value@),
{
    if crate::text::eq_str(value, "Sun") {
        chars_of("日")
    } else if crate::text::eq_str(value, "Mon") {
        chars_of("月")
    } else if crate::text::eq_str(value, "Tue") {
        chars_of("火")
    } else if crate::text::eq_str(value, "Wed") {
        chars_of("水")
    } else if crate::text::eq_str(value, "Thu") {
        chars_of("木")
    } else if crate::text::eq_str(value, "Fri") {
        chars_of("金")
    } else if crate::text::eq_str(value, "Sat") {
        chars_of("土")
    } else {
        crate::text::slice(value, 0, value.len())
    }
}

/// A number read from the byte range of a text, zero when the range does not
/// fall on characters or does not parse.
pub open spec fn part_or_zero(s: Seq<char>, a: nat, b: nat) -> int {
    match spec_byte_get(s, a, b) {
        Some(x) => match parse_i64_spec(x) {
            Some(v) => v as int,
            None => 0,
        },
        None => 0,
    }
}

/// `HHMM` (zero-padded to four characters after trimming) as minutes of the day.
pub open spec fn spec_time_minutes(value: Seq<char>) -> int {
    let padded = pad_zero(spec_trim(value), 4);
    part_or_zero(padded, 0, 2) * 60 + part_or_zero(padded, 2, 4)
}

proof fn lemma_char_at_byte_le(s: Seq<char>, b: nat)
    ensures
        char_at_byte(s, b) matches Some(i) ==> i <= b,
    decreases s.len(),
{
    if b != 0 && s.len() != 0 && utf8_width(s[0]) <= b {
        lemma_char_at_byte_le(s.drop_first(), (b - utf8_width(s[0])) as nat);
    }
}

proof fn lemma_digits_short(body: Seq<char>)
    requires
        0 < body.len() <= 2,
        crate::text::all_digits(body),
    ensures
        crate::text::digits_value(body) <= 99,
        body.len() == 1 ==> crate::text::digits_value(body) <= 9,
{
    let last = body.last();
    assert(crate::text::digits_value(body) == crate::text::digits_value(body.drop_last()) * 10
        + crate::text::digit_value(body.last()));
    assert(crate::text::spec_is_digit(body[body.len() - 1]));
    assert(crate::text::digit_value(last) <= 9);
    if body.len() == 2 {
        let first = body.drop_last();
        assert(first.len() == 1);
        assert(crate::text::spec_is_digit(body[0]));
        assert(first.last() == body[0]);
        assert(first.drop_last().len() == 0);
        assert(crate::text::digits_value(first) == crate::text::digits_value(first.drop_last()) * 10 + crate::text::digit_value(first.last()));
        assert(crate::text::digits_value(first) <= 9);
    } else {
        assert(body.drop_last().len() == 0);
    }
}

proof fn lemma_short_number(x: Seq<char>)
    requires
        x.len() <= 2,
    ensures
        parse_i64_spec(x) matches Some(v) ==> -9 <= v <= 99,
{
    if x.len() > 0 && x[0] == '-' {
        let body = x.drop_first();
        if body.len() > 0 && crate::text::all_digits(body) {
            lemma_digits_short(body);
        }
    } else {
        let body = if x.len() > 0 && x[0] == '+' {
            x.drop_first()
        } else {
            x
        };
        if body.len() > 0 && crate::text::all_digits(body) {
            lemma_digits_short(body);
        }
    }
}

fn number_part(s: &[char], a: usize, b: usize) -> (r: i64)
    requires
        a + 2 == b,
    ensures
        r == part_or_zero(s@, a as nat, b as nat),
        -9 <= r <= 99,
{
    match byte_get(s, a, b) {
        Some(x) => {
            proof {
                let i = char_at_byte(s@, a as nat).unwrap();
                let j = char_at_byte(s@, b as nat).unwrap();
                crate::text::lemma_char_at_byte_bounds(s@, a as nat);
                crate::text::lemma_char_at_byte_bounds(s@, b as nat);
                lemma_char_offsets(s@, a as nat, b as nat);
                crate::text::lemma_char_at_byte_monotone(s@, a as nat, b as nat);
                assert(x@ == s@.subrange(i, j));
                lemma_short_number(x@);
            }
            match parse_i64(x.as_slice()) {
                Some(v) => v,
                None => 0,
            }
        },
        None => 0,
    }
}

/// Characters between two boundaries `a` and `a + 2` bytes apart are at most two.
proof fn lemma_char_offsets(s: Seq<char>, a: nat, b: nat)
    requires
        a <= b,
        char_at_byte(s, a) is Some,
        char_at_byte(s, b) is Some,
    ensures
        char_at_byte(s, b).unwrap() - char_at_byte(s, a).unwrap() <= b - a,
    decreases s.len(),
{
    lemma_char_at_byte_le(s, b);
    if a != 0 {
        lemma_char_offsets(s.drop_first(), (a - utf8_width(s[0])) as nat, (b - utf8_width(s[0])) as nat);
    }
}

pub fn parse_time_minutes(value: &[char]) -> (r: i64)
    ensures
        r == spec_time_minutes(value@),
{
    let t = trim(value);
    let padded = pad_zero_exec(t.as_slice(), 4);
    let hour = number_part(padded.as_slice(), 0, 2);
    let minute = number_part(padded.as_slice(), 2, 4);
    hour * 60 + minute
}

/// `{:02}` of an integer: at least two digits, a minus sign counting toward the width.
pub open spec fn two_digits(n: int) -> Seq<char> {
    if n >= 0 {
        pad_zero(decimal(n as nat), 2)
    } else {
        seq!['-'] + decimal((-n) as nat)
    }
}

fn two_digits_exec(n: i64) -> (r: Vec<char>)
    ensures
        r@ == two_digits(n as int),
{
    if n >= 0 {
        let d = fmt_u64(n as u64);
        pad_zero_exec(d.as_slice(), 2)
    } else {
        let mut v: Vec<char> = Vec::new();
        v.push('-');
        let magnitude: u64 = if n == i64::MIN {
            9_223_372_036_854_775_808u64
        } else {
            (-n) as u64
        };
        let d = fmt_u64(magnitude);
        append(&mut v, d.as_slice());
        v
    }
}

/// Quotient and remainder of Rust's `/` and `%`, which round toward zero.
pub open spec fn trunc_div(a: int, b: int) -> int {
    if a >= 0 {
        a / b
    } else {
        -((-a) / b)
    }
}

pub open spec fn trunc_rem(a: int, b: int) -> int {
    if a >= 0 {
        a % b
    } else {
        -((-a) % b)
    }
}

/// Minutes of the day as `HH:MM`, `24:00` from a full day on.
pub open spec fn spec_format_minutes(value: int) -> Seq<char> {
    if value >= 1440 {
        "24:00"@
    } else {
        two_digits(trunc_div(value, 60)) + ":"@ + two_digits(trunc_rem(value, 60))
    }
}

pub fn format_minutes(value: i64) -> (r: Vec<char>)
    ensures
        r@ == spec_format_minutes(value as int),
{
    if value >= 1440 {
        return chars_of("24:00");
    }
    let (q, m) = if value >= 0 {
        (value / 60, value % 60)
    } else {
        let magnitude: i128 = -(value as i128);
        ((-(magnitude / 60)) as i64, (-(magnitude % 60)) as i64)
    };
    let mut v = two_digits_exec(q);
    append_str(&mut v, ":");
    let tail = two_digits_exec(m);
    append(&mut v, tail.as_slice());
    v
}

/// A `MMDD HHMM` point of a date range shown as `M/D HH:MM`: the month and
/// day read as numbers, the hour and minute kept as written.
pub open spec fn spec_range_point(value: Seq<char>) -> Seq<char> {
    let parts = spec_words(value);
    let month_day = pad_zero(if parts.len() > 0 {
        parts[0]
    } else {
        "0"@
    }, 4);
    let time = pad_zero(if parts.len() > 1 {
        parts[1]
    } else {
        "0"@
    }, 4);
    let month = match spec_byte_get(month_day, 0, 2) {
        Some(x) => match parse_u32_spec(x) {
            Some(v) => v,
            None => 0u32,
        },
        None => 0u32,
    };
    let day = match spec_byte_get(month_day, 2, 4) {
        Some(x) => match parse_u32_spec(x) {
            Some(v) => v,
            None => 0u32,
        },
        None => 0u32,
    };
    let hour = match spec_byte_get(time, 0, 2) {
        Some(x) => x,
        None => "00"@,
    };
    let minute = match spec_byte_get(time, 2, 4) {
        Some(x) => x,
        None => "00"@,
    };
    decimal(month as nat) + "/"@ + decimal(day as nat) + " "@ + hour + ":"@ + minute
}

fn u32_part(s: &[char], a: usize, b: usize) -> (r: u32)
    ensures
        r == (match spec_byte_get(s@, a as nat, b as nat) {
            Some(x) => match parse_u32_spec(x) {
                Some(v) => v,
                None => 0u32,
            },
            None => 0u32,
        }),
{
    match byte_get(s, a, b) {
        Some(x) => match parse_u32(x.as_slice()) {
            Some(v) => v,
            None => 0,
        },
        None => 0,
    }
}

fn text_part(s: &[char], a: usize, b: usize) -> (r: Vec<char>)
    ensures
        r@ == (match spec_byte_get(s@, a as nat, b as nat) {
            Some(x) => x,
            None => "00"@,
        }),
{
    match byte_get(s, a, b) {
        Some(x) => x,
        None => chars_of("00"),
    }
}

pub fn format_date_range_point(value: &[char]) -> (r: Vec<char>)
    ensures
        r@ == spec_range_point(value@),
{
    let parts = words(value);
    let first = if parts.len() > 0 {
        assert(parts@[0]@ == views(parts@)[0]);
        crate::text::slice(parts[0].as_slice(), 0, parts[0].len())
    } else {
        chars_of("0")
    };
    let second = if parts.len() > 1 {
        assert(parts@[1]@ == views(parts@)[1]);
        crate::text::slice(parts[1].as_slice(), 0, parts[1].len())
    } else {
        chars_of("0")
    };
    assert(parts.len() > 0 ==> first@ =~= spec_words(value@)[0]);
    assert(parts.len() > 1 ==> second@ =~= spec_words(value@)[1]);
    let month_day = pad_zero_exec(first.as_slice(), 4);
    let time = pad_zero_exec(second.as_slice(), 4);
    let month = u32_part(month_day.as_slice(), 0, 2);
    let day = u32_part(month_day.as_slice(), 2, 4);
    let hour = text_part(time.as_slice(), 0, 2);
    let minute = text_part(time.as_slice(), 2, 4);
    let mut v = fmt_u64(month as u64);
    append_str(&mut v, "/");
    let d = fmt_u64(day as u64);
    append(&mut v, d.as_slice());
    append_str(&mut v, " ");
    append(&mut v, hour.as_slice());
    append_str(&mut v, ":");
    append(&mut v, minute.as_slice());
    v
}

pub open spec fn spec_weekday_names(w: Seq<Seq<char>>) -> Seq<Seq<char>> {
    w.map_values(|d: Seq<char>| spec_weekday_name(d))
}

pub open spec fn spec_day_numbers(d: Seq<i64>) -> Seq<Seq<char>> {
    d.map_values(|n: i64| decimal_int(n as int))
}

pub open spec fn spec_range_texts(r: Seq<DateRange>) -> Seq<Seq<char>> {
    r.map_values(|x: DateRange| spec_range_point(x.start@) + "~"@ + spec_range_point(x.end@))
}

pub open spec fn spec_time_texts(r: Seq<(String, String)>) -> Seq<Seq<char>> {
    r.map_values(
        |x: (String, String)| spec_format_minutes(spec_time_minutes(x.0@)) + "~"@
            + spec_format_minutes(spec_time_minutes(x.1@)),
    )
}

/// When a time block applies: weekly days, monthly days, date ranges or every
/// day, then its time ranges or the whole day.
pub open spec fn spec_time_block(block: TimeBlock) -> Seq<char> {
    let day_part = if block.weekdays@.len() > 0 {
        "毎週"@ + spec_join(spec_weekday_names(string_views(block.weekdays@)), "・"@) + "曜"@
    } else if block.month_days@.len() > 0 {
        "毎月"@ + spec_join(spec_day_numbers(block.month_days@), ","@) + "日"@
    } else if block.date_ranges@.len() > 0 {
        spec_join(spec_range_texts(block.date_ranges@), " / "@)
    } else {
        "毎日"@
    };
    let time_part = if block.time_ranges@.len() == 0 {
        "終日"@
    } else {
        spec_join(spec_time_texts(block.time_ranges@), "、"@)
    };
    day_part + "  "@ + time_part
}

pub fn format_time_block(block: &TimeBlock) -> (r: String)
    ensures
        r@ == spec_time_block(*block),
{
    let mut day_part: Vec<char> = Vec::new();
    if block.weekdays.len() > 0 {
        let mut names: Vec<Vec<char>> = Vec::new();
        let mut i: usize = 0;
        while i < block.weekdays.len()
            invariant
                i <= block.weekdays@.len(),
                views(names@) == spec_weekday_names(string_views(block.weekdays@)).take(i as int),
            decreases block.weekdays@.len() - i,
        {
            let w = chars_of(block.weekdays[i].as_str());
            let n = weekday_name(w.as_slice());
            let ghost before = names@;
            names.push(n);
            assert(views(names@) =~= views(before).push(spec_weekday_name(block.weekdays@[i as int]@)));
            assert(views(names@) =~= spec_weekday_names(string_views(block.weekdays@)).take(i + 1));
            i += 1;
        }
        assert(spec_weekday_names(string_views(block.weekdays@)).take(i as int) =~= spec_weekday_names(string_views(block.weekdays@)));
        append_str(&mut day_part, "毎週");
        let j = join_str(names.as_slice(), "・");
        append(&mut day_part, j.as_slice());
        append_str(&mut day_part, "曜");
    } else if block.month_days.len() > 0 {
        let mut days: Vec<Vec<char>> = Vec::new();
        let mut i: usize = 0;
        while i < block.month_days.len()
            invariant
                i <= block.month_days@.len(),
                views(days@) == spec_day_numbers(block.month_days@).take(i as int),
            decreases block.month_days@.len() - i,
        {
            let n = fmt_i64(block.month_days[i]);
            let ghost before = days@;
            days.push(n);
            assert(views(days@) =~= views(before).push(decimal_int(block.month_days@[i as int] as int)));
            assert(views(days@) =~= spec_day_numbers(block.month_days@).take(i + 1));
            i += 1;
        }
        assert(spec_day_numbers(block.month_days@).take(i as int) =~= spec_day_numbers(block.month_days@));
        append_str(&mut day_part, "毎月");
        let j = join_str(days.as_slice(), ",");
        append(&mut day_part, j.as_slice());
        append_str(&mut day_part, "日");
    } else if block.date_ranges.len() > 0 {
        let mut ranges: Vec<Vec<char>> = Vec::new();
        let mut i: usize = 0;
        while i < block.date_ranges.len()
            invariant
                i <= block.date_ranges@.len(),
                views(ranges@) == spec_range_texts(block.date_ranges@).take(i as int),
            decreases block.date_ranges@.len() - i,
        {
            let range = &block.date_ranges[i];
            let s = chars_of(range.start.as_str());
            let e = chars_of(range.end.as_str());
            let mut text = format_date_range_point(s.as_slice());
            append_str(&mut text, "~");
            let tail = format_date_range_point(e.as_slice());
            append(&mut text, tail.as_slice());
            let ghost before = ranges@;
            ranges.push(text);
            assert(views(ranges@) =~= views(before).push(spec_range_point(range.start@) + "~"@ + spec_range_point(range.end@)));
            assert(views(ranges@) =~= spec_range_texts(block.date_ranges@).take(i + 1));
            i += 1;
        }
        assert(spec_range_texts(block.date_ranges@).take(i as int) =~= spec_range_texts(block.date_ranges@));
        let j = join_str(ranges.as_slice(), " / ");
        append(&mut day_part, j.as_slice());
    } else {
        append_str(&mut day_part, "毎日");
    }
    let mut time_part: Vec<char> = Vec::new();
    if block.time_ranges.len() == 0 {
        append_str(&mut time_part, "終日");
    } else {
        let mut texts: Vec<Vec<char>> = Vec::new();
        let mut i: usize = 0;
        while i < block.time_ranges.len()
            invariant
                i <= block.time_ranges@.len(),
                views(texts@) == spec_time_texts(block.time_ranges@).take(i as int),
            decreases block.time_ranges@.len() - i,
        {
            let range = &block.time_ranges[i];
            let a = chars_of(range.0.as_str());
            let b = chars_of(range.1.as_str());
            let mut text = format_minutes(parse_time_minutes(a.as_slice()));
            append_str(&mut text, "~");
            let tail = format_minutes(parse_time_minutes(b.as_slice()));
            append(&mut text, tail.as_slice());
            let ghost before = texts@;
            texts.push(text);
            assert(views(texts@) =~= views(before).push(spec_format_minutes(spec_time_minutes(range.0@)) + "~"@ + spec_format_minutes(spec_time_minutes(range.1@))));
            assert(views(texts@) =~= spec_time_texts(block.time_ranges@).take(i + 1));
            i += 1;
        }
        assert(spec_time_texts(block.time_ranges@).take(i as int) =~= spec_time_texts(block.time_ranges@));
        let j = join_str(texts.as_slice(), "、");
        append(&mut time_part, j.as_slice());
    }
    append_str(&mut day_part, "  ");
    append(&mut day_part, time_part.as_slice());
    string_of(day_part.as_slice())
}

// ---------------------------------------------------------------------------
// Durations
// ---------------------------------------------------------------------------

/// Whole minutes from `start` to `end` (seconds since the Unix epoch), none
/// when `end` is not later.
pub open spec fn elapsed_minutes(start: i64, end: i64) -> int {
    if end > start {
        (end - start) / 60
    } else {
        0
    }
}

pub open spec fn unit_text(n: int, unit: Seq<char>) -> Seq<char> {
    if n > 0 {
        decimal(n as nat) + unit
    } else {
        Seq::empty()
    }
}

/// A duration as `<{d}d{h}h{m}m>` with the zero units left out, `<0m>` when
/// all are zero.
pub open spec fn spec_format_duration(start: i64, end: i64) -> Seq<char> {
    let total = elapsed_minutes(start, end);
    let days = total / 1440;
    let hours = (total % 1440) / 60;
    let minutes = total % 60;
    let parts = unit_text(days, "d"@) + unit_text(hours, "h"@) + unit_text(minutes, "m"@);
    "<"@ + (if parts.len() == 0 {
        "0m"@
    } else {
        parts
    }) + ">"@
}

fn push_unit(v: &mut Vec<char>, n: u64, unit: &str)
    ensures
        final(v)@ == old(v)@ + unit_text(n as int, unit@),
{
    if n > 0 {
        let d = fmt_u64(n);
        append(v, d.as_slice());
        append_str(v, unit);
    } else {
        assert(old(v)@ + unit_text(n as int, unit@) =~= old(v)@);
    }
}

pub fn format_duration(start: i64, end: i64) -> (r: String)
    ensures
        r@ == spec_format_duration(start, end),
{
    let total: u64 = if end > start {
        (((end as i128) - (start as i128)) / 60) as u64
    } else {
        0
    };
    assert((total % 1440) / 60 == ((total as int) % 1440) / 60);
    assert(total % 60 == (total % 1440) % 60) by (nonlinear_arith);
    let mut parts: Vec<char> = Vec::new();
    push_unit(&mut parts, total / 1440, "d");
    push_unit(&mut parts, (total % 1440) / 60, "h");
    push_unit(&mut parts, total % 60, "m");
    let mut v: Vec<char> = Vec::new();
    append_str(&mut v, "<");
    if parts.len() == 0 {
        append_str(&mut v, "0m");
    } else {
        append(&mut v, parts.as_slice());
    }
    append_str(&mut v, ">");
    string_of(v.as_slice())
}

// ---------------------------------------------------------------------------
// Header dates
// ---------------------------------------------------------------------------

/// Seconds that Japan time is ahead of UTC.
pub const JST_OFFSET_SECONDS: i32 = 32_400;

/// Day number (counted from 1 January of year 1) of 1 January 1970.
pub const UNIX_EPOCH_DAYS_FROM_CE: i64 = 719_163;

pub open spec fn is_leap_year(y: int) -> bool {
    y % 4 == 0 && (y % 100 != 0 || y % 400 == 0)
}

pub open spec fn days_in_month(y: int, m: int) -> int {
    if m == 2 {
        if is_leap_year(y) {
            29
        } else {
            28
        }
    } else if m == 4 || m == 6 || m == 9 || m == 11 {
        30
    } else {
        31
    }
}

/// A day of the proleptic Gregorian calendar.
pub open spec fn valid_date(y: int, m: int, d: int) -> bool {
    1 <= m <= 12 && 1 <= d <= days_in_month(y, m)
}


/// The days of a year before the first of a month.
pub open spec fn days_before_month(y: int, m: int) -> int
    decreases m,
{
    if m <= 1 {
        0
    } else {
        days_before_month(y, m - 1) + days_in_month(y, m - 1)
    }
}

/// The proleptic Gregorian day count of a date: 1 January of year 1 is day
/// 1, earlier days count down from there.
pub open spec fn civil_day_number(y: int, m: int, d: int) -> int {
    let p = y - 1;
    365 * p + p / 4 - p / 100 + p / 400 + days_before_month(y, m) + d
}

/// `chrono::NaiveDate::from_ymd_opt` followed by `Datelike::num_days_from_ce`:
/// `None` for a day that the calendar does not have, else the proleptic
/// Gregorian day count that chrono documents for `num_days_from_ce`.
#[verifier::external_body]
pub(crate) fn calendar_day(year: i32, month: u32, day: u32) -> (r: Option<i32>)
    requires
        -9999 <= year <= 9999,
    ensures
        r is Some <==> valid_date(year as int, month as int, day as int),
        r matches Some(n) ==> n == civil_day_number(
            year as int,
            month as int,
            day as int,
        ),
{
    match chrono::NaiveDate::from_ymd_opt(year, month, day) {
        Some(date) => Some(chrono::Datelike::num_days_from_ce(&date)),
        None => None,
    }
}

/// `chrono::NaiveTime::from_hms_opt(hour, minute, 0)` followed by
/// `Timelike::num_seconds_from_midnight`: `None` outside the clock.
#[verifier::external_body]
fn clock_seconds(hour: u32, minute: u32) -> (r: Option<u32>)
    ensures
        r is Some <==> (hour < 24 && minute < 60),
        r matches Some(s) ==> s == hour * 3600 + minute * 60,
{
    match chrono::NaiveTime::from_hms_opt(hour, minute, 0) {
        Some(time) => Some(chrono::Timelike::num_seconds_from_midnight(&time)),
        None => None,
    }
}

/// `chrono::FixedOffset::east_opt` read back as seconds east of UTC: `None`
/// unless the offset is less than a day either way.
#[verifier::external_body]
fn east_offset(seconds: i32) -> (r: Option<i32>)
    ensures
        r is Some <==> -86_400 < seconds < 86_400,
        r matches Some(v) ==> v == seconds,
{
    match chrono::FixedOffset::east_opt(seconds) {
        Some(offset) => Some(offset.local_minus_utc()),
        None => None,
    }
}

/// Seconds since the Unix epoch of a local day and time at a fixed offset.
pub open spec fn spec_instant(days: int, seconds: int, offset: int) -> int {
    (days - UNIX_EPOCH_DAYS_FROM_CE) * 86_400 + seconds - offset
}

pub fn local_instant(days: i32, seconds: u32, offset: i32) -> (r: i64)
    requires
        seconds < 86_400,
    ensures
        r == spec_instant(days as int, seconds as int, offset as int),
{
    (days as i64 - UNIX_EPOCH_DAYS_FROM_CE) * 86_400 + seconds as i64 - offset as i64
}

pub open spec fn pow10(n: nat) -> nat
    decreases n,
{
    if n == 0 {
        1
    } else {
        10 * pow10((n - 1) as nat)
    }
}

proof fn lemma_digits_bound(body: Seq<char>)
    requires
        crate::text::all_digits(body),
    ensures
        crate::text::digits_value(body) < pow10(body.len()),
    decreases body.len(),
{
    if body.len() > 0 {
        let rest = body.drop_last();
        assert(crate::text::all_digits(rest)) by {
            assert forall|i: int| 0 <= i < rest.len() implies crate::text::spec_is_digit(#[trigger] rest[i]) by {
                assert(rest[i] == body[i]);
            }
        }
        lemma_digits_bound(rest);
        assert(crate::text::spec_is_digit(body[body.len() - 1]));
        assert(crate::text::digit_value(body.last()) <= 9);
    }
}

pub proof fn lemma_four_digit_number(x: Seq<char>)
    requires
        x.len() <= 4,
    ensures
        parse_i32_spec(x) matches Some(v) ==> -999 <= v <= 9999,
{
    assert(pow10(4) == 10000) by {
        reveal_with_fuel(pow10, 5);
    }
    assert(pow10(3) == 1000) by {
        reveal_with_fuel(pow10, 4);
    }
    if x.len() > 0 && x[0] == '-' {
        let body = x.drop_first();
        if body.len() > 0 && crate::text::all_digits(body) {
            lemma_digits_bound(body);
            lemma_pow10_monotone(body.len(), 3);
        }
    } else {
        let body = if x.len() > 0 && x[0] == '+' {
            x.drop_first()
        } else {
            x
        };
        if body.len() > 0 && crate::text::all_digits(body) {
            lemma_digits_bound(body);
            lemma_pow10_monotone(body.len(), 4);
        }
    }
}

proof fn lemma_pow10_monotone(a: nat, b: nat)
    requires
        a <= b,
    ensures
        pow10(a) <= pow10(b),
    decreases b,
{
    if a < b {
        lemma_pow10_monotone(a, (b - 1) as nat);
    }
}

/// A number read from a byte range of a date or time.
pub open spec fn spec_part(s: Seq<char>, a: nat, b: nat) -> Result<i32, Seq<char>> {
    match spec_byte_get(s, a, b) {
        None => Err("date or time is not ASCII"@),
        Some(x) => match parse_i32_spec(x) {
            Some(v) => Ok(v),
            None => Err("date or time contains a non-number"@),
        },
    }
}

pub fn parse_part(value: &[char], start: usize, end: usize) -> (r: Result<i32, String>)
    requires
        start <= end <= start + 4,
    ensures
        match r {
            Ok(v) => spec_part(value@, start as nat, end as nat) == Ok::<i32, Seq<char>>(v),
            Err(e) => spec_part(value@, start as nat, end as nat) == Err::<i32, Seq<char>>(e@),
        },
        r matches Ok(v) ==> -999 <= v <= 9999,
{
    match byte_get(value, start, end) {
        None => Err("date or time is not ASCII".to_string()),
        Some(x) => {
            proof {
                let i = char_at_byte(value@, start as nat).unwrap();
                let j = char_at_byte(value@, end as nat).unwrap();
                crate::text::lemma_char_at_byte_bounds(value@, start as nat);
                crate::text::lemma_char_at_byte_bounds(value@, end as nat);
                lemma_char_offsets(value@, start as nat, end as nat);
                crate::text::lemma_char_at_byte_monotone(value@, start as nat, end as nat);
                assert(x@ == value@.subrange(i, j));
                lemma_four_digit_number(x@);
            }
            match parse_i32(x.as_slice()) {
                Some(v) => Ok(v),
                None => Err("date or time contains a non-number".to_string()),
            }
        },
    }
}

/// The instant of a header date (`YYYYMMDD`) and time (`HHMM`) in Japan
/// time, each zero-padded after trimming, as seconds since the Unix epoch.
pub open spec fn spec_header_date(date_text: Seq<char>, time_text: Seq<char>) -> Result<int, Seq<char>> {
    let date = pad_zero(spec_trim(date_text), 8);
    let time = pad_zero(spec_trim(time_text), 4);
    if crate::text::byte_len(date) != 8 || crate::text::byte_len(time) != 4 {
        Err("date or time has an invalid length"@)
    } else {
        match (spec_part(date, 0, 4), spec_part(date, 4, 6), spec_part(date, 6, 8), spec_part(time, 0, 2), spec_part(time, 2, 4)) {
            (Err(e), _, _, _, _) => Err(e),
            (Ok(_), Err(e), _, _, _) => Err(e),
            (Ok(_), Ok(_), Err(e), _, _) => Err(e),
            (Ok(_), Ok(_), Ok(_), Err(e), _) => Err(e),
            (Ok(_), Ok(_), Ok(_), Ok(_), Err(e)) => Err(e),
            (Ok(y), Ok(m), Ok(d), Ok(h), Ok(mi)) => if !valid_date(y as int, (m as u32) as int, (d as u32) as int) {
                Err("date is outside the calendar"@)
            } else if !((h as u32) < 24 && (mi as u32) < 60) {
                Err("time is outside the clock"@)
            } else {
                Ok(spec_instant(
                    civil_day_number(y as int, (m as u32) as int, (d as u32) as int),
                    (h as u32) * 3600 + (mi as u32) * 60,
                    JST_OFFSET_SECONDS as int,
                ))
            },
        }
    }
}

pub fn parse_header_date(date_text: &str, time_text: &str) -> (r: Result<i64, String>)
    ensures
        match r {
            Ok(t) => spec_header_date(date_text@, time_text@) == Ok::<int, Seq<char>>(t as int),
            Err(e) => spec_header_date(date_text@, time_text@) == Err::<int, Seq<char>>(e@),
        },
{
    let dt = chars_of(date_text);
    let tt = chars_of(time_text);
    let dtrim = trim(dt.as_slice());
    let ttrim = trim(tt.as_slice());
    let date = pad_zero_exec(dtrim.as_slice(), 8);
    let time = pad_zero_exec(ttrim.as_slice(), 4);
    if date.len() > 8 || time.len() > 4 {
        proof {
            crate::text::lemma_byte_len_ge(date@);
            crate::text::lemma_byte_len_ge(time@);
        }
        return Err("date or time has an invalid length".to_string());
    }
    if crate::text::byte_length(date.as_slice()) != 8 || crate::text::byte_length(time.as_slice()) != 4 {
        return Err("date or time has an invalid length".to_string());
    }
    let year = parse_part(date.as_slice(), 0, 4)?;
    let month = parse_part(date.as_slice(), 4, 6)? as u32;
    let day = parse_part(date.as_slice(), 6, 8)? as u32;
    let hour = parse_part(time.as_slice(), 0, 2)? as u32;
    let minute = parse_part(time.as_slice(), 2, 4)? as u32;
    let days = match calendar_day(year, month, day) {
        Some(n) => n,
        None => {
            return Err("date is outside the calendar".to_string());
        },
    };
    let seconds = match clock_seconds(hour, minute) {
        Some(s) => s,
        None => {
            return Err("time is outside the clock".to_string());
        },
    };
    let offset = match east_offset(JST_OFFSET_SECONDS) {
        Some(o) => o,
        None => {
            return Err("JST offset is invalid".to_string());
        },
    };
    Ok(local_instant(days, seconds, offset))
}

/// Both dates of a header can be read.
pub fn validate_header(header: &ScheduleHeader) -> (r: Result<(), String>)
    ensures
        r is Ok <==> (spec_header_date(header.start_date@, header.start_time@) is Ok
            && spec_header_date(header.end_date@, header.end_time@) is Ok),
{
    parse_header_date(header.start_date.as_str(), header.start_time.as_str())?;
    parse_header_date(header.end_date.as_str(), header.end_time.as_str())?;
    Ok(())
}

// ---------------------------------------------------------------------------
// Calendar fields of an instant
// ---------------------------------------------------------------------------

/// The calendar fields of an instant in UTC.
#[derive(Clone, Copy, Debug, PartialEq, Eq, Structural)]
pub struct CivilTime {
    pub year: i32,
    pub month: u32,
    pub day: u32,
    pub weekday_from_sunday: u32,
    pub hour: u32,
    pub minute: u32,
    pub second: u32,
}

/// The calendar fields that `chrono` gives an instant, when it can represent it.
pub uninterp spec fn civil_of(seconds: i64) -> Option<CivilTime>;

/// `chrono::DateTime::<Utc>::from_timestamp(seconds, 0)` read back through
/// `Datelike` and `Timelike`: the proleptic Gregorian date of the instant's
/// day (counted from 1970-01-01, a Thursday), its time of day and weekday.
/// Which instants chrono can represent is left to the name.
#[verifier::external_body]
pub fn civil_time(seconds: i64) -> (r: Option<CivilTime>)
    ensures
        r == civil_of(seconds),
        r matches Some(c) ==> 1 <= c.month <= 12 && 1 <= c.day <= 31 && c.weekday_from_sunday < 7
            && c.hour < 24 && c.minute < 60 && c.second < 60,
        r matches Some(c) ==> valid_date(c.year as int, c.month as int, c.day as int) && civil_day_number(
            c.year as int,
            c.month as int,
            c.day as int,
        ) == seconds / 86_400 + UNIX_EPOCH_DAYS_FROM_CE && c.hour * 3600 + c.minute * 60 + c.second
            == seconds % 86_400 && c.weekday_from_sunday == (seconds / 86_400 + 4) % 7,
{
    match chrono::DateTime::<chrono::Utc>::from_timestamp(seconds, 0) {
        Some(t) => Some(CivilTime {
            year: chrono::Datelike::year(&t),
            month: chrono::Datelike::month(&t),
            day: chrono::Datelike::day(&t),
            weekday_from_sunday: chrono::Datelike::weekday(&t).num_days_from_sunday(),
            hour: chrono::Timelike::hour(&t),
            minute: chrono::Timelike::minute(&t),
            second: chrono::Timelike::second(&t),
        }),
        None => None,
    }
}

/// The calendar fields of an instant in Japan time (nine hours ahead of UTC).
pub open spec fn jst_civil(seconds: i64) -> Option<CivilTime> {
    if seconds <= i64::MAX - JST_OFFSET_SECONDS {
        civil_of((seconds + JST_OFFSET_SECONDS) as i64)
    } else {
        None
    }
}

pub fn jst_time(seconds: i64) -> (r: Option<CivilTime>)
    ensures
        r == jst_civil(seconds),
        r matches Some(c) ==> 1 <= c.month <= 12 && 1 <= c.day <= 31 && c.weekday_from_sunday < 7
            && c.hour < 24 && c.minute < 60 && c.second < 60,
{
    if seconds > i64::MAX - JST_OFFSET_SECONDS as i64 {
        return None;
    }
    civil_time(seconds + JST_OFFSET_SECONDS as i64)
}

/// The Japanese name of a weekday counted from Sunday.
pub open spec fn spec_weekday_japanese(d: u32) -> Seq<char> {
    if d == 0 {
        "日"@
    } else if d == 1 {
        "月"@
    } else if d == 2 {
        "火"@
    } else if d == 3 {
        "水"@
    } else if d == 4 {
        "木"@
    } else if d == 5 {
        "金"@
    } else {
        "土"@
    }
}

pub fn weekday_japanese(d: u32) -> (r: &'static str)
    requires
        d < 7,
    ensures
        r@ == spec_weekday_japanese(d),
{
    if d == 0 {
        "日"
    } else if d == 1 {
        "月"
    } else if d == 2 {
        "火"
    } else if d == 3 {
        "水"
    } else if d == 4 {
        "木"
    } else if d == 5 {
        "金"
    } else {
        "土"
    }
}

/// `{Y}年{M}月{D}日({曜}) HH:MM` in Japan time.
pub open spec fn spec_jst_full(c: CivilTime) -> Seq<char> {
    decimal_int(c.year as int) + "年"@ + decimal(c.month as nat) + "月"@ + decimal(c.day as nat) + "日("@
        + spec_weekday_japanese(c.weekday_from_sunday) + ") "@ + pad_zero(decimal(c.hour as nat), 2) + ":"@
        + pad_zero(decimal(c.minute as nat), 2)
}

/// `{M}/{D}({曜}) HH:MM` in Japan time.
pub open spec fn spec_jst_short(c: CivilTime) -> Seq<char> {
    decimal(c.month as nat) + "/"@ + decimal(c.day as nat) + "("@ + spec_weekday_japanese(c.weekday_from_sunday)
        + ") "@ + pad_zero(decimal(c.hour as nat), 2) + ":"@ + pad_zero(decimal(c.minute as nat), 2)
}

fn push_two(v: &mut Vec<char>, n: u32)
    ensures
        final(v)@ == old(v)@ + pad_zero(decimal(n as nat), 2),
{
    let d = fmt_u64(n as u64);
    let p = pad_zero_exec(d.as_slice(), 2);
    append(v, p.as_slice());
}

/// An instant written out in full in Japan time, when `chrono` can represent it.
pub fn format_jst_full(seconds: i64) -> (r: Option<String>)
    ensures
        match r {
            Some(s) => jst_civil(seconds) matches Some(c) && s@ == spec_jst_full(c),
            None => jst_civil(seconds) is None,
        },
{
    let c = match jst_time(seconds) {
        Some(c) => c,
        None => {
            return None;
        },
    };
    let mut v = fmt_i64(c.year as i64);
    append_str(&mut v, "年");
    append(&mut v, fmt_u64(c.month as u64).as_slice());
    append_str(&mut v, "月");
    append(&mut v, fmt_u64(c.day as u64).as_slice());
    append_str(&mut v, "日(");
    append_str(&mut v, weekday_japanese(c.weekday_from_sunday));
    append_str(&mut v, ") ");
    push_two(&mut v, c.hour);
    append_str(&mut v, ":");
    push_two(&mut v, c.minute);
    Some(string_of(v.as_slice()))
}

/// An instant written briefly in Japan time.
pub fn format_jst_short(seconds: i64) -> (r: Option<String>)
    ensures
        match r {
            Some(s) => jst_civil(seconds) matches Some(c) && s@ == spec_jst_short(c),
            None => jst_civil(seconds) is None,
        },
{
    let c = match jst_time(seconds) {
        Some(c) => c,
        None => {
            return None;
        },
    };
    let mut v = fmt_u64(c.month as u64);
    append_str(&mut v, "/");
    append(&mut v, fmt_u64(c.day as u64).as_slice());
    append_str(&mut v, "(");
    append_str(&mut v, weekday_japanese(c.weekday_from_sunday));
    append_str(&mut v, ") ");
    push_two(&mut v, c.hour);
    append_str(&mut v, ":");
    push_two(&mut v, c.minute);
    Some(string_of(v.as_slice()))
}

} // verus!
