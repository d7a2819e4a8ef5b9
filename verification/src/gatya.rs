//! Arguments of the `gatya` command and the small rules on gacha kinds.
use vstd::prelude::*;

use crate::text::{
    all_digits, chars_of_all, eq_ignore_case, eq_str, is_all_digits, join_str, lower_seq,
    parse_i64, parse_i64_spec, skip_args, slice, spec_join, spec_trim, string_of, string_views, to_upper,
    trim, upper_seq, views,
};

verus! {

#[derive(Clone, Copy, Debug, PartialEq, Eq, Hash, Structural)]
pub enum GachaMode {
    Rare,
    Event,
    Normal,
}

#[derive(Clone, Copy, Debug, PartialEq, Eq, Structural)]
pub enum GachaTarget {
    Gacha(i64),
    Series(i64),
}

#[derive(Debug)]
pub enum GatyaRequest {
    Schedule { mode: Option<GachaMode> },
    Detail { mode: Option<GachaMode>, target: GachaTarget },
    Json { mode: Option<GachaMode>, target: GachaTarget },
    Raw { mode: Option<GachaMode>, target: GachaTarget },
    Search { mode: Option<GachaMode>, query: String },
}

pub enum GatyaRequestView {
    Schedule { mode: Option<GachaMode> },
    Detail { mode: Option<GachaMode>, target: GachaTarget },
    Json { mode: Option<GachaMode>, target: GachaTarget },
    Raw { mode: Option<GachaMode>, target: GachaTarget },
    Search { mode: Option<GachaMode>, query: Seq<char> },
}

impl View for GatyaRequest {
    type V = GatyaRequestView;

    open spec fn view(&self) -> GatyaRequestView {
        match self {
            GatyaRequest::Schedule { mode } => GatyaRequestView::Schedule { mode: *mode },
            GatyaRequest::Detail { mode, target } => GatyaRequestView::Detail {
                mode: *mode,
                target: *target,
            },
            GatyaRequest::Json { mode, target } => GatyaRequestView::Json {
                mode: *mode,
                target: *target,
            },
            GatyaRequest::Raw { mode, target } => GatyaRequestView::Raw {
                mode: *mode,
                target: *target,
            },
            GatyaRequest::Search { mode, query } => GatyaRequestView::Search {
                mode: *mode,
                query: query@,
            },
        }
    }
}

/// `R`, `E` or `N` in either case.
pub open spec fn spec_mode(value: Seq<char>) -> Option<GachaMode> {
    let u = upper_seq(value);
    if u == "R"@ {
        Some(GachaMode::Rare)
    } else if u == "E"@ {
        Some(GachaMode::Event)
    } else if u == "N"@ {
        Some(GachaMode::Normal)
    } else {
        None
    }
}

/// A gacha id as `i64`, or `s`/`S` followed by digits for a series id.
pub open spec fn spec_target(value: Seq<char>) -> Option<GachaTarget> {
    match parse_i64_spec(value) {
        Some(id) => Some(GachaTarget::Gacha(id)),
        None => if value.len() > 0 && (value[0] == 's' || value[0] == 'S') {
            let series = value.drop_first();
            if series.len() > 0 && all_digits(series) {
                match parse_i64_spec(series) {
                    Some(id) => Some(GachaTarget::Series(id)),
                    None => None,
                }
            } else {
                None
            }
        } else {
            None
        },
    }
}

pub open spec fn is_word(value: Seq<char>, short: Seq<char>, long: Seq<char>) -> bool {
    lower_seq(value) == lower_seq(short) || lower_seq(value) == lower_seq(long)
}

/// The request that the arguments of `gatya` spell: an optional leading mode,
/// then nothing (the schedule), a target with `j`/`json` or `r`/`raw`, a lone
/// target, or else a search for the remaining words.
pub open spec fn spec_request(args: Seq<Seq<char>>) -> GatyaRequestView {
    let lead = if args.len() > 0 {
        spec_mode(args[0])
    } else {
        None
    };
    let mode = lead;
    let rest = if lead is Some {
        args.drop_first()
    } else {
        args
    };
    if rest.len() == 0 {
        GatyaRequestView::Schedule { mode }
    } else if rest.len() == 2 && spec_target(rest[0]) is Some && is_word(rest[1], "j"@, "json"@) {
        GatyaRequestView::Json { mode, target: spec_target(rest[0]).unwrap() }
    } else if rest.len() == 2 && spec_target(rest[0]) is Some && is_word(rest[1], "r"@, "raw"@) {
        GatyaRequestView::Raw { mode, target: spec_target(rest[0]).unwrap() }
    } else if rest.len() == 1 && spec_target(rest[0]) is Some {
        GatyaRequestView::Detail { mode, target: spec_target(rest[0]).unwrap() }
    } else {
        GatyaRequestView::Search { mode, query: spec_trim(spec_join(rest, " "@)) }
    }
}

pub fn parse_mode(value: &[char]) -> (r: Option<GachaMode>)
    ensures
        r == spec_mode(value@),
{
    let u = to_upper(value);
    if eq_str(u.as_slice(), "R") {
        Some(GachaMode::Rare)
    } else if eq_str(u.as_slice(), "E") {
        Some(GachaMode::Event)
    } else if eq_str(u.as_slice(), "N") {
        Some(GachaMode::Normal)
    } else {
        None
    }
}

pub fn parse_target(value: &[char]) -> (r: Option<GachaTarget>)
    ensures
        r == spec_target(value@),
{
    if let Some(id) = parse_i64(value) {
        return Some(GachaTarget::Gacha(id));
    }
    if value.len() == 0 || !(value[0] == 's' || value[0] == 'S') {
        return None;
    }
    let series = slice(value, 1, value.len());
    assert(series@ == value@.drop_first());
    if series.len() == 0 || !is_all_digits(series.as_slice()) {
        return None;
    }
    match parse_i64(series.as_slice()) {
        Some(id) => Some(GachaTarget::Series(id)),
        None => None,
    }
}

fn is_word_exec(value: &[char], short: &str, long: &str) -> (r: bool)
    ensures
        r == is_word(value@, short@, long@),
{
    eq_ignore_case(value, short) || eq_ignore_case(value, long)
}

/// Reads the arguments of `gatya`.
pub fn parse_request(arguments: &[String]) -> (r: GatyaRequest)
    ensures
        r@ == spec_request(string_views(arguments@)),
{
    let args = chars_of_all(arguments);
    let ghost a = string_views(arguments@);
    assert(views(args@) =~= a);
    let lead = if args.len() > 0 {
        parse_mode(args[0].as_slice())
    } else {
        None
    };
    let start: usize = if lead.is_some() {
        1
    } else {
        0
    };
    let rest = skip_args(&args, start);
    assert(views(rest@) == (if lead is Some {
        a.drop_first()
    } else {
        a
    }));
    let mode = lead;
    if rest.len() == 0 {
        return GatyaRequest::Schedule { mode };
    }
    if rest.len() == 2 {
        assert(rest@[0]@ == views(rest@)[0]);
        assert(rest@[1]@ == views(rest@)[1]);
        if let Some(target) = parse_target(rest[0].as_slice()) {
            if is_word_exec(rest[1].as_slice(), "j", "json") {
                return GatyaRequest::Json { mode, target };
            }
            if is_word_exec(rest[1].as_slice(), "r", "raw") {
                return GatyaRequest::Raw { mode, target };
            }
        }
    }
    if rest.len() == 1 {
        assert(rest@[0]@ == views(rest@)[0]);
        if let Some(target) = parse_target(rest[0].as_slice()) {
            return GatyaRequest::Detail { mode, target };
        }
    }
    let joined = join_str(rest.as_slice(), " ");
    let query = trim(joined.as_slice());
    GatyaRequest::Search { mode, query: string_of(query.as_slice()) }
}

/// The tag shown after a gacha of this type.
pub fn type_tag(gacha_type: i64) -> (r: &'static str)
    ensures
        r@ == (if gacha_type == 4 {
            " <イベント>"@
        } else if gacha_type == 0 {
            " <ノーマル>"@
        } else {
            ""@
        }),
{
    if gacha_type == 4 {
        " <イベント>"
    } else if gacha_type == 0 {
        " <ノーマル>"
    } else {
        ""
    }
}

pub open spec fn spec_mode_for_type(gacha_type: i64) -> GachaMode {
    if gacha_type == 1 {
        GachaMode::Rare
    } else if gacha_type == 4 {
        GachaMode::Event
    } else {
        GachaMode::Normal
    }
}

pub open spec fn spec_type_for_mode(mode: GachaMode) -> i64 {
    match mode {
        GachaMode::Rare => 1,
        GachaMode::Event => 4,
        GachaMode::Normal => 0,
    }
}

/// The mode that a gacha type belongs to: `1` rare, `4` event, any other normal.
pub fn mode_for_type(gacha_type: i64) -> (r: GachaMode)
    ensures
        r == spec_mode_for_type(gacha_type),
{
    if gacha_type == 1 {
        GachaMode::Rare
    } else if gacha_type == 4 {
        GachaMode::Event
    } else {
        GachaMode::Normal
    }
}

/// The gacha type that stands for a mode.
pub fn type_for_mode(mode: GachaMode) -> (r: i64)
    ensures
        r == spec_type_for_mode(mode),
{
    match mode {
        GachaMode::Rare => 1,
        GachaMode::Event => 4,
        GachaMode::Normal => 0,
    }
}

/// Going from a mode to its type and back gives the mode again.
pub proof fn lemma_mode_type_round_trip(mode: GachaMode)
    ensures
        spec_mode_for_type(spec_type_for_mode(mode)) == mode,
{
}

/// The letter that selects a mode, which `parse_mode` reads back.
pub fn mode_label(mode: GachaMode) -> (r: &'static str)
    ensures
        r@ == match mode {
            GachaMode::Rare => "R"@,
            GachaMode::Event => "E"@,
            GachaMode::Normal => "N"@,
        },
{
    match mode {
        GachaMode::Rare => "R",
        GachaMode::Event => "E",
        GachaMode::Normal => "N",
    }
}

/// Whether a gacha type is shown under a mode filter (no filter shows all).
pub fn mode_matches_type(mode: Option<GachaMode>, gacha_type: i64) -> (r: bool)
    ensures
        r == match mode {
            None => true,
            Some(m) => spec_type_for_mode(m) == gacha_type,
        },
{
    match mode {
        None => true,
        Some(m) => type_for_mode(m) == gacha_type,
    }
}

/// The modes that a filter covers, rare first.
pub fn modes(mode: Option<GachaMode>) -> (r: Vec<GachaMode>)
    ensures
        r@ == match mode {
            None => seq![GachaMode::Rare, GachaMode::Event, GachaMode::Normal],
            Some(m) => seq![m],
        },
{
    match mode {
        None => vec![GachaMode::Rare, GachaMode::Event, GachaMode::Normal],
        Some(m) => vec![m],
    }
}

} // verus!
