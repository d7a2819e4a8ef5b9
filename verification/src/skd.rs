//! The `skd` command: its arguments, the kinds of schedule data and the
//! related sites that follow an update.
use vstd::prelude::*;

use crate::schedule::{calendar_day, valid_date};
use crate::text::{
    all_digits, append, append_str, chars_of, chars_of_all, eq_str, is_all_digits, join_str,
    parse_i32, parse_i32_spec, parse_u32, parse_u32_spec, spec_is_ws, spec_join, spec_starts_with,
    spec_utf16_len, string_of, string_views, strip_prefix, utf16_within, views, is_ws,
};

verus! {

/// The longest message that Discord accepts, in UTF-16 code units.
pub const MAX_MESSAGE_UTF16: usize = 2_000;

#[derive(Clone, Copy, Debug, PartialEq, Eq, Hash, Structural)]
pub enum ScheduleType {
    Gatya,
    Sale,
    Item,
}

pub open spec fn spec_label(t: ScheduleType) -> Seq<char> {
    match t {
        ScheduleType::Gatya => "gatya"@,
        ScheduleType::Sale => "sale"@,
        ScheduleType::Item => "item"@,
    }
}

pub open spec fn spec_schedule_type(value: Seq<char>) -> Option<ScheduleType> {
    if value == "gatya"@ {
        Some(ScheduleType::Gatya)
    } else if value == "sale"@ {
        Some(ScheduleType::Sale)
    } else if value == "item"@ {
        Some(ScheduleType::Item)
    } else {
        None
    }
}

impl ScheduleType {
    pub fn label(self) -> (r: &'static str)
        ensures
            r@ == spec_label(self),
    {
        match self {
            ScheduleType::Gatya => "gatya",
            ScheduleType::Sale => "sale",
            ScheduleType::Item => "item",
        }
    }

    pub fn parse(value: &str) -> (r: Option<ScheduleType>)
        ensures
            r == spec_schedule_type(value@),
    {
        let v = chars_of(value);
        if eq_str(v.as_slice(), "gatya") {
            Some(ScheduleType::Gatya)
        } else if eq_str(v.as_slice(), "sale") {
            Some(ScheduleType::Sale)
        } else if eq_str(v.as_slice(), "item") {
            Some(ScheduleType::Item)
        } else {
            None
        }
    }
}

/// A label read back gives the kind it came from.
pub proof fn lemma_label_round_trip(t: ScheduleType)
    ensures
        spec_schedule_type(spec_label(t)) == Some(t),
{
    reveal_strlit("gatya");
    reveal_strlit("sale");
    reveal_strlit("item");
    assert("item"@[0] != "sale"@[0]);
    assert("item"@.len() != "gatya"@.len());
    assert("sale"@.len() != "gatya"@.len());
}

pub open spec fn type_labels(types: Seq<ScheduleType>) -> Seq<Seq<char>> {
    types.map_values(|t: ScheduleType| spec_label(t))
}

/// The labels of some kinds of data, separated by commas.
pub fn format_types(types: &[ScheduleType]) -> (r: String)
    ensures
        r@ == spec_join(type_labels(types@), ","@),
{
    let mut labels: Vec<Vec<char>> = Vec::new();
    let mut i: usize = 0;
    while i < types.len()
        invariant
            i <= types@.len(),
            views(labels@) == type_labels(types@).take(i as int),
        decreases types@.len() - i,
    {
        let l = chars_of(types[i].label());
        let ghost before = labels@;
        labels.push(l);
        assert(views(labels@) =~= views(before).push(spec_label(types@[i as int])));
        assert(views(labels@) =~= type_labels(types@).take(i + 1));
        i += 1;
    }
    assert(type_labels(types@).take(i as int) =~= type_labels(types@));
    let j = join_str(labels.as_slice(), ",");
    string_of(j.as_slice())
}

/// The text after the heading of a history block, with either heading.
pub open spec fn related_body(content: Seq<char>) -> Option<Seq<char>> {
    if spec_starts_with(content, "**関連サイト**\n"@) {
        Some(content.skip("**関連サイト**\n"@.len() as int))
    } else if spec_starts_with(content, "**KBC**\n"@) {
        Some(content.skip("**KBC**\n"@.len() as int))
    } else {
        None
    }
}

pub open spec fn url_lines(urls: Seq<Seq<char>>) -> Seq<char>
    decreases urls.len(),
{
    if urls.len() == 0 {
        Seq::empty()
    } else {
        url_lines(urls.drop_last()) + "\n<"@ + urls.last() + ">"@
    }
}

/// A history block under the heading of related sites with the guild's own
/// sites added, when it still fits in one message; any other content as is.
pub open spec fn spec_with_related_sites(content: Seq<char>, urls: Seq<Seq<char>>) -> Option<Seq<char>> {
    match related_body(content) {
        None => Some(content),
        Some(body) => {
            let output = "**関連サイト**\n"@ + body + url_lines(urls);
            if spec_utf16_len(output) <= MAX_MESSAGE_UTF16 {
                Some(output)
            } else {
                None
            }
        },
    }
}

pub fn with_related_sites(content: &str, urls: &[String]) -> (r: Option<String>)
    ensures
        match r {
            Some(s) => spec_with_related_sites(content@, string_views(urls@)) == Some(s@),
            None => spec_with_related_sites(content@, string_views(urls@)) is None,
        },
{
    let c = chars_of(content);
    let body = match strip_prefix(c.as_slice(), "**関連サイト**\n") {
        Some(b) => b,
        None => match strip_prefix(c.as_slice(), "**KBC**\n") {
            Some(b) => b,
            None => {
                return Some(string_of(c.as_slice()));
            },
        },
    };
    let mut output = chars_of("**関連サイト**\n");
    append(&mut output, body.as_slice());
    let ghost head = output@;
    let mut i: usize = 0;
    while i < urls.len()
        invariant
            i <= urls@.len(),
            output@ == head + url_lines(string_views(urls@).take(i as int)),
        decreases urls@.len() - i,
    {
        assert(string_views(urls@).take(i + 1).drop_last() =~= string_views(urls@).take(i as int));
        append_str(&mut output, "\n<");
        append_str(&mut output, urls[i].as_str());
        append_str(&mut output, ">");
        assert(output@ =~= head + url_lines(string_views(urls@).take(i + 1)));
        i += 1;
    }
    assert(string_views(urls@).take(i as int) =~= string_views(urls@));
    if utf16_within(output.as_slice(), MAX_MESSAGE_UTF16) {
        Some(string_of(output.as_slice()))
    } else {
        None
    }
}

// ---------------------------------------------------------------------------
// Dates of `skd`
// ---------------------------------------------------------------------------

pub open spec fn is_date_separator(c: char) -> bool {
    c == '/' || spec_is_ws(c)
}

/// The non-empty pieces of a text between slashes and white space.
pub open spec fn date_pieces(s: Seq<char>) -> Seq<Seq<char>>
    decreases s.len(),
{
    if s.len() == 0 {
        Seq::empty()
    } else {
        let prev = date_pieces(s.drop_last());
        let c = s.last();
        if is_date_separator(c) {
            prev
        } else if s.len() >= 2 && !is_date_separator(s[s.len() - 2]) {
            prev.update(prev.len() - 1, prev.last().push(c))
        } else {
            prev.push(seq![c])
        }
    }
}

/// A day named by `YYYY/MM/DD` or three words: none without arguments.
pub open spec fn spec_parse_date(args: Seq<Seq<char>>) -> Result<Option<(i32, u32, u32)>, ()> {
    if args.len() == 0 {
        Ok(None)
    } else {
        let parts = date_pieces(spec_join(args, " "@));
        if parts.len() != 3 || parts[0].len() != 4 || !(all_digits(parts[0]) && all_digits(parts[1])
            && all_digits(parts[2])) {
            Err(())
        } else {
            match (parse_i32_spec(parts[0]), parse_u32_spec(parts[1]), parse_u32_spec(parts[2])) {
                (Some(y), Some(m), Some(d)) => if y < 1000 {
                    Err(())
                } else if valid_date(y as int, m as int, d as int) {
                    Ok(Some((y, m, d)))
                } else {
                    Err(())
                },
                _ => Err(()),
            }
        }
    }
}

fn pieces(s: &[char]) -> (r: Vec<Vec<char>>)
    ensures
        views(r@) == date_pieces(s@),
{
    let mut done: Vec<Vec<char>> = Vec::new();
    let mut i: usize = 0;
    while i < s.len()
        invariant
            i <= s@.len(),
            views(done@) == date_pieces(s@.take(i as int)),
        decreases s@.len() - i,
    {
        let c = s[i];
        let ghost prefix = s@.take(i + 1);
        assert(prefix.drop_last() =~= s@.take(i as int));
        assert(prefix.last() == c);
        let sep = c == '/' || is_ws(c);
        if sep {
        } else if i >= 1 && !(s[i - 1] == '/' || is_ws(s[i - 1])) {
            assert(prefix[prefix.len() - 2] == s@[i - 1]);
            proof {
                lemma_pieces_nonempty(s@.take(i as int));
            }
            let last = done.len() - 1;
            let ghost before = done@;
            let mut piece: Vec<char> = Vec::new();
            std::mem::swap(&mut piece, &mut done[last]);
            piece.push(c);
            let mut tmp = piece;
            std::mem::swap(&mut tmp, &mut done[last]);
            assert(views(done@) =~= views(before).update(last as int, views(before)[last as int].push(c)));
        } else {
            let ghost before = done@;
            let mut piece: Vec<char> = Vec::new();
            piece.push(c);
            assert(piece@ =~= seq![c]);
            done.push(piece);
            assert(views(done@) =~= views(before).push(seq![c]));
        }
        i += 1;
    }
    assert(s@.take(i as int) =~= s@);
    done
}

proof fn lemma_pieces_nonempty(s: Seq<char>)
    requires
        s.len() > 0,
        !is_date_separator(s.last()),
    ensures
        date_pieces(s).len() > 0,
    decreases s.len(),
{
    if s.len() >= 2 && !is_date_separator(s[s.len() - 2]) {
        assert(s.drop_last().last() == s[s.len() - 2]);
        lemma_pieces_nonempty(s.drop_last());
    }
}

/// Reads the day that `skd` is asked about.
pub fn parse_date(arguments: &[String]) -> (r: Result<Option<(i32, u32, u32)>, ()>)
    ensures
        r == spec_parse_date(string_views(arguments@)),
{
    let args = chars_of_all(arguments);
    assert(views(args@) =~= string_views(arguments@));
    if args.len() == 0 {
        return Ok(None);
    }
    let joined = join_str(args.as_slice(), " ");
    let parts = pieces(joined.as_slice());
    if parts.len() != 3 {
        return Err(());
    }
    assert(parts@[0]@ == views(parts@)[0]);
    assert(parts@[1]@ == views(parts@)[1]);
    assert(parts@[2]@ == views(parts@)[2]);
    if parts[0].len() != 4 || !is_all_digits(parts[0].as_slice()) || !is_all_digits(parts[1].as_slice())
        || !is_all_digits(parts[2].as_slice()) {
        return Err(());
    }
    let year = match parse_i32(parts[0].as_slice()) {
        Some(y) => y,
        None => {
            return Err(());
        },
    };
    let month = match parse_u32(parts[1].as_slice()) {
        Some(m) => m,
        None => {
            return Err(());
        },
    };
    let day = match parse_u32(parts[2].as_slice()) {
        Some(d) => d,
        None => {
            return Err(());
        },
    };
    if year < 1000 {
        return Err(());
    }
    proof {
        crate::schedule::lemma_four_digit_number(parts@[0]@);
    }
    match calendar_day(year, month, day) {
        Some(_) => Ok(Some((year, month, day))),
        None => Err(()),
    }
}

// ---------------------------------------------------------------------------
// Showing an update
// ---------------------------------------------------------------------------

/// The most actions that one command may answer with.
pub const MAX_COMMAND_ACTIONS: usize = 32;

/// Why the messages of an update cannot be sent.
#[derive(Clone, Copy, Debug, PartialEq, Eq, Structural)]
pub enum UpdateMessageError {
    /// More messages than one command may send.
    TooManyActions,
    /// The update's time lies beyond what the calendar can show.
    TimeOutOfRange,
}

/// The first message of an update: when it was saved, in Japan time, and its
/// kinds, with the kinds saved for the first time if there are any.
pub open spec fn spec_update_header(c: crate::schedule::CivilTime, types: Seq<ScheduleType>, initial: Seq<ScheduleType>) -> Seq<char> {
    "**スケジュール更新**\n検知時刻（TSV保存時刻）: "@ + crate::notification::year_text(c.year) + "/"@
        + crate::notification::two(c.month) + "/"@ + crate::notification::two(c.day) + "("@
        + crate::schedule::spec_weekday_japanese(c.weekday_from_sunday) + ") "@ + crate::notification::two(c.hour) + ":"@
        + crate::notification::two(c.minute) + ":"@ + crate::notification::two(c.second) + "\n種類: "@ + spec_join(
        type_labels(types),
        ","@,
    ) + if initial.len() == 0 {
        Seq::empty()
    } else {
        "\n初回保存分（比較元なし）: "@ + spec_join(type_labels(initial), ","@)
    }
}

/// A message with the guild's related sites, or as it is when they do not
/// fit.
pub open spec fn with_sites_or_same(content: Seq<char>, urls: Seq<Seq<char>>) -> Seq<char> {
    match spec_with_related_sites(content, urls) {
        Some(s) => s,
        None => content,
    }
}

/// The messages of an update: the header, then each content with the
/// related sites.
pub open spec fn spec_update_messages(
    timestamp: i64,
    types: Seq<ScheduleType>,
    initial: Seq<ScheduleType>,
    contents: Seq<Seq<char>>,
    urls: Seq<Seq<char>>,
) -> Result<Seq<Seq<char>>, UpdateMessageError> {
    match crate::schedule::jst_civil(timestamp) {
        None => Err(UpdateMessageError::TimeOutOfRange),
        Some(c) => {
            let msgs = seq![spec_update_header(c, types, initial)] + contents.map_values(
                |s: Seq<char>| with_sites_or_same(s, urls),
            );
            if msgs.len() > MAX_COMMAND_ACTIONS {
                Err(UpdateMessageError::TooManyActions)
            } else {
                Ok(msgs)
            }
        },
    }
}

/// The messages that show an update, as `spec_update_messages` says.
pub fn format_update(
    timestamp: i64,
    types: &[ScheduleType],
    initial_types: &[ScheduleType],
    contents: &Vec<String>,
    related_urls: &[String],
) -> (r: Result<Vec<String>, UpdateMessageError>)
    ensures
        match r {
            Ok(v) => spec_update_messages(timestamp, types@, initial_types@, string_views(contents@), string_views(related_urls@))
                == Ok::<Seq<Seq<char>>, UpdateMessageError>(string_views(v@)),
            Err(e) => spec_update_messages(timestamp, types@, initial_types@, string_views(contents@), string_views(related_urls@))
                == Err::<Seq<Seq<char>>, UpdateMessageError>(e),
        },
{
    let c = match crate::schedule::jst_time(timestamp) {
        Some(c) => c,
        None => {
            return Err(UpdateMessageError::TimeOutOfRange);
        },
    };
    if contents.len() >= MAX_COMMAND_ACTIONS {
        return Err(UpdateMessageError::TooManyActions);
    }
    let mut h = chars_of("**スケジュール更新**\n検知時刻（TSV保存時刻）: ");
    crate::notification::push_year(&mut h, c.year);
    append_str(&mut h, "/");
    crate::notification::push_two(&mut h, c.month);
    append_str(&mut h, "/");
    crate::notification::push_two(&mut h, c.day);
    append_str(&mut h, "(");
    append_str(&mut h, crate::schedule::weekday_japanese(c.weekday_from_sunday));
    append_str(&mut h, ") ");
    crate::notification::push_two(&mut h, c.hour);
    append_str(&mut h, ":");
    crate::notification::push_two(&mut h, c.minute);
    append_str(&mut h, ":");
    crate::notification::push_two(&mut h, c.second);
    append_str(&mut h, "\n種類: ");
    let tl = format_types(types);
    append(&mut h, chars_of(tl.as_str()).as_slice());
    if initial_types.len() > 0 {
        append_str(&mut h, "\n初回保存分（比較元なし）: ");
        let il = format_types(initial_types);
        append(&mut h, chars_of(il.as_str()).as_slice());
    }
    proof {
        reveal_strlit("");
    }
    assert(h@ =~= spec_update_header(c, types@, initial_types@));
    let mut out: Vec<String> = Vec::new();
    out.push(string_of(h.as_slice()));
    let ghost cv = string_views(contents@);
    let ghost uv = string_views(related_urls@);
    let mut i: usize = 0;
    while i < contents.len()
        invariant
            i <= contents@.len(),
            cv == string_views(contents@),
            uv == string_views(related_urls@),
            string_views(out@) == seq![spec_update_header(c, types@, initial_types@)] + cv.take(i as int).map_values(
                |s: Seq<char>| with_sites_or_same(s, uv),
            ),
        decreases contents@.len() - i,
    {
        let m = match with_related_sites(contents[i].as_str(), related_urls) {
            Some(s) => s,
            None => string_of(chars_of(contents[i].as_str()).as_slice()),
        };
        assert(cv[i as int] == contents@[i as int]@);
        assert(m@ == with_sites_or_same(cv[i as int], uv));
        let ghost before = string_views(out@);
        out.push(m);
        assert(string_views(out@) =~= before.push(m@));
        assert(cv.take(i + 1).map_values(|s: Seq<char>| with_sites_or_same(s, uv)) =~= cv.take(i as int).map_values(
            |s: Seq<char>| with_sites_or_same(s, uv),
        ).push(with_sites_or_same(cv[i as int], uv)));
        assert(string_views(out@) =~= seq![spec_update_header(c, types@, initial_types@)] + cv.take(i + 1).map_values(
            |s: Seq<char>| with_sites_or_same(s, uv),
        ));
        i += 1;
    }
    assert(cv.take(i as int) =~= cv);
    Ok(out)
}

} // verus!
