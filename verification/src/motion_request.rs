//! Motion arguments of `ut` and `tut` turned into a bounded, typed request.
use vstd::prelude::*;

use crate::text::{
    all_digits, chars_of, chars_of_all, eq, eq_str, is_all_digits, lower_seq, parse_u32,
    parse_u32_spec, spec_split_once, split_once_str, string_of, string_views, to_lower, views,
};

verus! {

/// The largest number of frames that explicit video ranges may add up to.
pub const MAX_VIDEO_FRAMES: usize = 900;

#[derive(Clone, Copy, Debug, PartialEq, Eq, Structural)]
pub enum MotionFormat {
    Png,
    Mp4,
    Gif,
}

impl MotionFormat {
    pub fn extension(self) -> (r: &'static str)
        ensures
            r@ == match self {
                MotionFormat::Png => "png"@,
                MotionFormat::Mp4 => "mp4"@,
                MotionFormat::Gif => "gif"@,
            },
    {
        match self {
            MotionFormat::Png => "png",
            MotionFormat::Mp4 => "mp4",
            MotionFormat::Gif => "gif",
        }
    }
}

#[derive(Clone, Copy, Debug, PartialEq, Eq, Hash, Structural)]
pub enum MotionKind {
    Attack,
    Move,
    Idle,
    Knockback,
}

impl MotionKind {
    /// Index of the animation file of this motion (`00` walk to `03` knockback).
    pub fn asset_index(self) -> (r: u8)
        ensures
            r == match self {
                MotionKind::Move => 0u8,
                MotionKind::Idle => 1u8,
                MotionKind::Attack => 2u8,
                MotionKind::Knockback => 3u8,
            },
    {
        match self {
            MotionKind::Move => 0,
            MotionKind::Idle => 1,
            MotionKind::Attack => 2,
            MotionKind::Knockback => 3,
        }
    }
}

#[derive(Clone, Copy, Debug, PartialEq, Eq, Structural)]
pub struct FrameRange {
    pub start: u32,
    pub end: u32,
}

impl FrameRange {
    /// Number of frames from `start` to `end`, both included.
    pub fn len(self) -> (r: usize)
        requires
            self.start <= self.end,
            self.end - self.start < usize::MAX,
        ensures
            r == self.end - self.start + 1,
    {
        (self.end - self.start) as usize + 1
    }
}

#[derive(Clone, Copy, Debug, PartialEq, Eq, Structural)]
pub struct MotionSegment {
    pub motion: MotionKind,
    pub range: Option<FrameRange>,
}

#[derive(Clone, Debug)]
pub struct MotionRequest {
    pub format: MotionFormat,
    pub full: bool,
    pub form: Option<String>,
    pub segments: Vec<MotionSegment>,
}

/// The mathematical content of a motion request.
pub struct MotionRequestView {
    pub format: MotionFormat,
    pub full: bool,
    pub form: Option<Seq<char>>,
    pub segments: Seq<MotionSegment>,
}

impl View for MotionRequest {
    type V = MotionRequestView;

    open spec fn view(&self) -> MotionRequestView {
        MotionRequestView {
            format: self.format,
            full: self.full,
            form: match self.form {
                Some(f) => Some(f@),
                None => None,
            },
            segments: self.segments@,
        }
    }
}

pub open spec fn spec_motion_kind(t: Seq<char>) -> Option<MotionKind> {
    if t == "a"@ {
        Some(MotionKind::Attack)
    } else if t == "w"@ {
        Some(MotionKind::Move)
    } else if t == "i"@ {
        Some(MotionKind::Idle)
    } else if t == "k"@ {
        Some(MotionKind::Knockback)
    } else {
        None
    }
}

/// A non-empty run of ASCII digits that fits in `u32`.
pub open spec fn spec_frame_number(t: Seq<char>) -> Option<u32> {
    if t.len() > 0 && all_digits(t) {
        parse_u32_spec(t)
    } else {
        None
    }
}

/// `start~~end` with `start <= end`.
pub open spec fn spec_compact_range(t: Seq<char>) -> Option<FrameRange> {
    match spec_split_once(t, "~~"@) {
        Some((a, b)) => match (spec_frame_number(a), spec_frame_number(b)) {
            (Some(start), Some(end)) => if start <= end {
                Some(FrameRange { start, end })
            } else {
                None
            },
            _ => None,
        },
        None => None,
    }
}

pub open spec fn range_frames(r: FrameRange) -> int {
    r.end - r.start + 1
}

/// The explicit range that follows a motion at `cursor`, with the position
/// after it: a compact `a~~b`, or two numbers `a b` with `a <= b`.
pub open spec fn spec_explicit_range(toks: Seq<Seq<char>>, cursor: int) -> Option<(FrameRange, int)> {
    match spec_compact_range(toks[cursor]) {
        Some(r) => Some((r, cursor + 1)),
        None => if cursor + 1 < toks.len() {
            match (spec_frame_number(toks[cursor]), spec_frame_number(toks[cursor + 1])) {
                (Some(start), Some(end)) => if start <= end {
                    Some((FrameRange { start, end }, cursor + 2))
                } else {
                    None
                },
                _ => None,
            }
        } else {
            None
        },
    }
}

/// The segments of a video request from `cursor` on, given the frames that
/// earlier explicit ranges already take: each motion letter is followed by
/// nothing (whole motion) or by a range; explicit frames may add up to at most
/// `MAX_VIDEO_FRAMES`.
pub open spec fn spec_segments(toks: Seq<Seq<char>>, cursor: int, explicit: int) -> Option<
    Seq<MotionSegment>,
>
    decreases toks.len() - cursor,
{
    if cursor < 0 || cursor >= toks.len() {
        Some(Seq::empty())
    } else {
        match spec_motion_kind(toks[cursor]) {
            None => None,
            Some(motion) => {
                let next = cursor + 1;
                if next >= toks.len() || spec_motion_kind(toks[next]) is Some {
                    match spec_segments(toks, next, explicit) {
                        Some(rest) => Some(seq![MotionSegment { motion, range: None }] + rest),
                        None => None,
                    }
                } else {
                    match spec_explicit_range(toks, next) {
                        None => None,
                        Some((range, after)) => {
                            let total = explicit + range_frames(range);
                            if total > MAX_VIDEO_FRAMES {
                                None
                            } else if after <= cursor {
                                None
                            } else {
                                match spec_segments(toks, after, total) {
                                    Some(rest) => Some(
                                        seq![MotionSegment { motion, range: Some(range) }] + rest,
                                    ),
                                    None => None,
                                }
                            }
                        },
                    }
                }
            },
        }
    }
}

pub open spec fn is_full_flag(t: Seq<char>) -> bool {
    t == "--full"@
}

pub open spec fn spec_format(t: Seq<char>) -> Option<MotionFormat> {
    if t == "png"@ {
        Some(MotionFormat::Png)
    } else if t == "mp4"@ {
        Some(MotionFormat::Mp4)
    } else if t == "gif"@ {
        Some(MotionFormat::Gif)
    } else {
        None
    }
}

/// The request that motion arguments describe, `None` when they are invalid.
///
/// Arguments are compared without regard to ASCII case. The first names the
/// format; `--full` may appear once anywhere; a form name may follow the
/// format. A PNG takes one motion and an optional frame (0 by default); a
/// video takes one or more segments.
pub open spec fn spec_parse_motion(args: Seq<Seq<char>>, forms: Seq<Seq<char>>) -> Option<
    MotionRequestView,
> {
    let tokens = args.map_values(|a: Seq<char>| lower_seq(a));
    if tokens.len() == 0 {
        None
    } else {
        match spec_format(tokens[0]) {
            None => None,
            Some(format) => {
                let flags = tokens.filter(|t: Seq<char>| is_full_flag(t));
                if flags.len() > 1 {
                    None
                } else {
                    let full = flags.len() == 1;
                    let normalized = tokens.filter(|t: Seq<char>| !is_full_flag(t));
                    let form = if normalized.len() > 1 && forms.contains(normalized[1]) {
                        Some(normalized[1])
                    } else {
                        None
                    };
                    let cursor: int = if form is Some {
                        2
                    } else {
                        1
                    };
                    if format == MotionFormat::Png {
                        if cursor >= normalized.len() {
                            None
                        } else {
                            match spec_motion_kind(normalized[cursor]) {
                                None => None,
                                Some(motion) => {
                                    let frame = if cursor + 1 < normalized.len() {
                                        spec_frame_number(normalized[cursor + 1])
                                    } else {
                                        Some(0u32)
                                    };
                                    match frame {
                                        None => None,
                                        Some(frame) => if normalized.len() > cursor + 2 {
                                            None
                                        } else {
                                            Some(
                                                MotionRequestView {
                                                    format,
                                                    full,
                                                    form,
                                                    segments: seq![
                                                        MotionSegment {
                                                            motion,
                                                            range: Some(
                                                                FrameRange { start: frame, end: frame },
                                                            ),
                                                        },
                                                    ],
                                                },
                                            )
                                        },
                                    }
                                },
                            }
                        }
                    } else {
                        match spec_segments(normalized, cursor, 0) {
                            Some(segments) => if segments.len() > 0 {
                                Some(MotionRequestView { format, full, form, segments })
                            } else {
                                None
                            },
                            None => None,
                        }
                    }
                }
            },
        }
    }
}

/// The name of a motion: its animation is the unit's walk (`w`), idle
/// (`i`), attack (`a`) or knockback (`k`), and its letter is the name's
/// initial.
pub open spec fn motion_name(k: MotionKind) -> Seq<char> {
    match k {
        MotionKind::Move => "walk"@,
        MotionKind::Idle => "idle"@,
        MotionKind::Attack => "attack"@,
        MotionKind::Knockback => "knockback"@,
    }
}

proof fn lemma_motion_letters_distinct()
    ensures
        "a"@ != "w"@,
        "a"@ != "i"@,
        "a"@ != "k"@,
        "w"@ != "i"@,
        "w"@ != "k"@,
        "i"@ != "k"@,
        "a"@ == seq!['a'],
        "w"@ == seq!['w'],
        "i"@ == seq!['i'],
        "k"@ == seq!['k'],
{
    reveal_strlit("a");
    reveal_strlit("w");
    reveal_strlit("i");
    reveal_strlit("k");
    assert("a"@ =~= seq!['a']);
    assert("w"@ =~= seq!['w']);
    assert("i"@ =~= seq!['i']);
    assert("k"@ =~= seq!['k']);
    assert("a"@[0] != "w"@[0]);
    assert("a"@[0] != "i"@[0]);
    assert("a"@[0] != "k"@[0]);
    assert("w"@[0] != "i"@[0]);
    assert("w"@[0] != "k"@[0]);
    assert("i"@[0] != "k"@[0]);
}

/// A motion letter selects the motion whose name it begins: `k` the
/// knockback, `i` the idle motion, `a` the attack, `w` the walk; each motion
/// has its letter, and no other text selects a motion.
pub proof fn lemma_motion_letter_is_initial(t: Seq<char>)
    ensures
        spec_motion_kind(t) matches Some(k) ==> t.len() == 1 && t[0] == motion_name(k)[0],
        forall|k: MotionKind| spec_motion_kind(seq![#[trigger] motion_name(k)[0]]) == Some(k),
        spec_motion_kind(t) is Some <==> (t.len() == 1 && (t[0] == 'a' || t[0] == 'w' || t[0] == 'i' || t[0] == 'k')),
{
    lemma_motion_letters_distinct();
    reveal_strlit("walk");
    reveal_strlit("idle");
    reveal_strlit("attack");
    reveal_strlit("knockback");
    assert forall|k: MotionKind| spec_motion_kind(seq![#[trigger] motion_name(k)[0]]) == Some(k) by {
        lemma_motion_letters_distinct();
        reveal_strlit("walk");
        reveal_strlit("idle");
        reveal_strlit("attack");
        reveal_strlit("knockback");
        if k == MotionKind::Move {
            assert(motion_name(k)[0] == 'w');
            assert(seq![motion_name(k)[0]] =~= "w"@);
        } else if k == MotionKind::Idle {
            assert(motion_name(k)[0] == 'i');
            assert(seq![motion_name(k)[0]] =~= "i"@);
        } else if k == MotionKind::Attack {
            assert(motion_name(k)[0] == 'a');
            assert(seq![motion_name(k)[0]] =~= "a"@);
        } else {
            assert(motion_name(k)[0] == 'k');
            assert(seq![motion_name(k)[0]] =~= "k"@);
        }
    }
    if t.len() == 1 {
        if t[0] == 'a' {
            assert(t =~= "a"@);
        } else if t[0] == 'w' {
            assert(t =~= "w"@);
        } else if t[0] == 'i' {
            assert(t =~= "i"@);
        } else if t[0] == 'k' {
            assert(t =~= "k"@);
        }
    }
}

/// The animation file a motion letter selects: `w` 00, `i` 01, `a` 02 and
/// `k` 03.
pub proof fn lemma_motion_letter_asset(t: Seq<char>)
    requires
        spec_motion_kind(t) is Some,
    ensures
        ({
            let k = spec_motion_kind(t)->Some_0;
            &&& t[0] == 'w' ==> k == MotionKind::Move
            &&& t[0] == 'i' ==> k == MotionKind::Idle
            &&& t[0] == 'a' ==> k == MotionKind::Attack
            &&& t[0] == 'k' ==> k == MotionKind::Knockback
        }),
{
    lemma_motion_letter_is_initial(t);
    reveal_strlit("walk");
    reveal_strlit("idle");
    reveal_strlit("attack");
    reveal_strlit("knockback");
}

pub fn parse_motion_kind(value: &[char]) -> (r: Option<MotionKind>)
    ensures
        r == spec_motion_kind(value@),
        r matches Some(k) ==> value@.len() == 1 && value@[0] == motion_name(k)[0],
{
    proof {
        lemma_motion_letter_is_initial(value@);
    }
    if eq_str(value, "a") {
        Some(MotionKind::Attack)
    } else if eq_str(value, "w") {
        Some(MotionKind::Move)
    } else if eq_str(value, "i") {
        Some(MotionKind::Idle)
    } else if eq_str(value, "k") {
        Some(MotionKind::Knockback)
    } else {
        None
    }
}

pub fn parse_non_negative_integer(value: &[char]) -> (r: Option<u32>)
    ensures
        r == spec_frame_number(value@),
{
    if value.len() > 0 && is_all_digits(value) {
        parse_u32(value)
    } else {
        None
    }
}

pub fn parse_compact_range(value: &[char]) -> (r: Option<FrameRange>)
    ensures
        r == spec_compact_range(value@),
{
    proof {
        reveal_strlit("~~");
    }
    match split_once_str(value, "~~") {
        Some((a, b)) => {
            let start = parse_non_negative_integer(a.as_slice());
            let end = parse_non_negative_integer(b.as_slice());
            match (start, end) {
                (Some(start), Some(end)) => {
                    if start <= end {
                        Some(FrameRange { start, end })
                    } else {
                        None
                    }
                },
                _ => None,
            }
        },
        None => None,
    }
}

fn parse_format(value: &[char]) -> (r: Option<MotionFormat>)
    ensures
        r == spec_format(value@),
{
    if eq_str(value, "png") {
        Some(MotionFormat::Png)
    } else if eq_str(value, "mp4") {
        Some(MotionFormat::Mp4)
    } else if eq_str(value, "gif") {
        Some(MotionFormat::Gif)
    } else {
        None
    }
}

/// Parses the video segments from `cursor` on.
fn parse_segments(normalized: &Vec<Vec<char>>, start: usize) -> (r: Option<Vec<MotionSegment>>)
    requires
        start <= normalized@.len(),
    ensures
        match r {
            Some(v) => spec_segments(views(normalized@), start as int, 0) == Some(v@),
            None => spec_segments(views(normalized@), start as int, 0) is None,
        },
{
    let ghost toks = views(normalized@);
    let mut segments: Vec<MotionSegment> = Vec::new();
    let mut explicit: u64 = 0;
    let mut cursor: usize = start;
    while cursor < normalized.len()
        invariant
            toks == views(normalized@),
            cursor <= normalized@.len(),
            explicit <= MAX_VIDEO_FRAMES,
            spec_segments(toks, start as int, 0) == match spec_segments(
                toks,
                cursor as int,
                explicit as int,
            ) {
                Some(rest) => Some(segments@ + rest),
                None => None,
            },
        decreases normalized@.len() - cursor,
    {
        let ghost old_cursor = cursor as int;
        let ghost old_explicit = explicit as int;
        let ghost old_segments = segments@;
        assert(normalized@[cursor as int]@ == toks[cursor as int]);
        let motion = match parse_motion_kind(normalized[cursor].as_slice()) {
            Some(m) => m,
            None => return None,
        };
        cursor += 1;
        if cursor >= normalized.len() || parse_motion_kind(normalized[cursor].as_slice()).is_some() {
            let seg = MotionSegment { motion, range: None };
            segments.push(seg);
            assert(spec_segments(toks, old_cursor, old_explicit) == match spec_segments(
                toks,
                cursor as int,
                explicit as int,
            ) {
                Some(rest) => Some(seq![seg] + rest),
                None => None,
            });
            assert forall|rest: Seq<MotionSegment>| old_segments + (seq![seg] + rest) == segments@
                + rest by {
                assert(old_segments + (seq![seg] + rest) =~= segments@ + rest);
            }
            continue;
        }
        assert(normalized@[cursor as int]@ == toks[cursor as int]);
        let (range, after) = match parse_compact_range(normalized[cursor].as_slice()) {
            Some(range) => (range, cursor + 1),
            None => {
                if cursor + 1 >= normalized.len() {
                    return None;
                }
                assert(normalized@[cursor + 1]@ == toks[cursor + 1]);
                let start_frame = match parse_non_negative_integer(normalized[cursor].as_slice()) {
                    Some(v) => v,
                    None => return None,
                };
                let end_frame = match parse_non_negative_integer(
                    normalized[cursor + 1].as_slice(),
                ) {
                    Some(v) => v,
                    None => return None,
                };
                if start_frame > end_frame {
                    return None;
                }
                (FrameRange { start: start_frame, end: end_frame }, cursor + 2)
            },
        };
        assert(spec_explicit_range(toks, cursor as int) == Some((range, after as int)));
        let frames: u64 = (range.end - range.start) as u64 + 1;
        if explicit + frames > MAX_VIDEO_FRAMES as u64 {
            return None;
        }
        explicit = explicit + frames;
        let seg = MotionSegment { motion, range: Some(range) };
        segments.push(seg);
        cursor = after;
        assert(spec_segments(toks, old_cursor, old_explicit) == match spec_segments(
            toks,
            cursor as int,
            explicit as int,
        ) {
            Some(rest) => Some(seq![seg] + rest),
            None => None,
        });
        assert forall|rest: Seq<MotionSegment>| old_segments + (seq![seg] + rest) == segments@
            + rest by {
            assert(old_segments + (seq![seg] + rest) =~= segments@ + rest);
        }
    }
    assert(segments@ + Seq::<MotionSegment>::empty() =~= segments@);
    Some(segments)
}

/// The views of a slice of string slices.
pub open spec fn str_views(v: Seq<&str>) -> Seq<Seq<char>> {
    v.map_values(|x: &str| x@)
}

/// Whether `candidate` is one of `forms`.
fn is_form(candidate: &[char], forms: &[&str]) -> (r: bool)
    ensures
        r == str_views(forms@).contains(candidate@),
{
    let mut i: usize = 0;
    while i < forms.len()
        invariant
            i <= forms.len(),
            forall|j: int| 0 <= j < i ==> forms@[j]@ != candidate@,
        decreases forms.len() - i,
    {
        if eq_str(candidate, forms[i]) {
            assert(str_views(forms@)[i as int] == candidate@);
            return true;
        }
        i += 1;
    }
    assert forall|j: int| 0 <= j < str_views(forms@).len() implies str_views(forms@)[j]
        != candidate@ by {
        assert(str_views(forms@)[j] == forms@[j]@);
    }
    false
}

/// Parses motion arguments; `forms` lists the form names that may follow the
/// format.
pub fn parse_motion_arguments(arguments: &[String], forms: &[&str]) -> (r: Option<MotionRequest>)
    ensures
        match r {
            Some(req) => spec_parse_motion(string_views(arguments@), str_views(forms@)) == Some(
                req@,
            ),
            None => spec_parse_motion(string_views(arguments@), str_views(forms@)) is None,
        },
{
    let raw = chars_of_all(arguments);
    let ghost args = string_views(arguments@);
    let ghost tokens_spec = args.map_values(|a: Seq<char>| lower_seq(a));
    let mut tokens: Vec<Vec<char>> = Vec::new();
    let mut i: usize = 0;
    while i < raw.len()
        invariant
            i <= raw.len(),
            raw@.len() == arguments@.len(),
            forall|j: int| 0 <= j < arguments@.len() ==> #[trigger] raw@[j]@ == arguments@[j]@,
            args == string_views(arguments@),
            tokens_spec == args.map_values(|a: Seq<char>| lower_seq(a)),
            views(tokens@) == tokens_spec.take(i as int),
        decreases raw.len() - i,
    {
        let ghost before = views(tokens@);
        let t = to_lower(raw[i].as_slice());
        tokens.push(t);
        assert(views(tokens@) =~= before.push(t@));
        assert(tokens_spec.take(i + 1) =~= tokens_spec.take(i as int).push(tokens_spec[i as int]));
        i += 1;
    }
    assert(tokens_spec.take(i as int) =~= tokens_spec);
    if tokens.len() == 0 {
        return None;
    }
    let format = match parse_format(tokens[0].as_slice()) {
        Some(f) => f,
        None => return None,
    };
    // Count the `--full` flags and keep the other tokens.
    let full_flag = chars_of("--full");
    let mut flags: usize = 0;
    let mut normalized: Vec<Vec<char>> = Vec::new();
    let mut k: usize = 0;
    while k < tokens.len()
        invariant
            k <= tokens.len(),
            views(tokens@) == tokens_spec,
            full_flag@ == "--full"@,
            flags == tokens_spec.take(k as int).filter(|t: Seq<char>| is_full_flag(t)).len(),
            views(normalized@) == tokens_spec.take(k as int).filter(|t: Seq<char>| !is_full_flag(t)),
        decreases tokens.len() - k,
    {
        let ghost prefix = tokens_spec.take(k as int);
        let ghost item = tokens_spec[k as int];
        assert(tokens_spec.take(k + 1) =~= prefix.push(item));
        proof {
            prefix.lemma_filter_push(item, |t: Seq<char>| is_full_flag(t));
            prefix.lemma_filter_push(item, |t: Seq<char>| !is_full_flag(t));
        }
        assert(tokens@[k as int]@ == item);
        if eq(tokens[k].as_slice(), full_flag.as_slice()) {
            flags = flags + 1;
        } else {
            let ghost before = views(normalized@);
            let copy = crate::text::slice(tokens[k].as_slice(), 0, tokens[k].len());
            assert(copy@ =~= item);
            normalized.push(copy);
            assert(views(normalized@) =~= before.push(item));
        }
        k += 1;
    }
    assert(tokens_spec.take(k as int) =~= tokens_spec);
    if flags > 1 {
        return None;
    }
    let full = flags == 1;
    let ghost norm = views(normalized@);
    let form: Option<String> = if normalized.len() > 1 && is_form(normalized[1].as_slice(), forms) {
        Some(string_of(normalized[1].as_slice()))
    } else {
        None
    };
    let cursor: usize = if form.is_some() {
        2
    } else {
        1
    };
    if format == MotionFormat::Png {
        if cursor >= normalized.len() {
            return None;
        }
        assert(normalized@[cursor as int]@ == norm[cursor as int]);
        let motion = match parse_motion_kind(normalized[cursor].as_slice()) {
            Some(m) => m,
            None => return None,
        };
        let frame: u32 = if cursor + 1 < normalized.len() {
            assert(normalized@[cursor + 1]@ == norm[cursor + 1]);
            match parse_non_negative_integer(normalized[cursor + 1].as_slice()) {
                Some(v) => v,
                None => return None,
            }
        } else {
            0
        };
        if normalized.len() > cursor + 2 {
            return None;
        }
        let mut segments: Vec<MotionSegment> = Vec::new();
        segments.push(MotionSegment { motion, range: Some(FrameRange { start: frame, end: frame }) });
        let req = MotionRequest { format, full, form, segments };
        assert(req@.segments =~= seq![
            MotionSegment { motion, range: Some(FrameRange { start: frame, end: frame }) },
        ]);
        return Some(req);
    }
    if cursor > normalized.len() {
        return None;
    }
    match parse_segments(&normalized, cursor) {
        Some(segments) => {
            if segments.len() > 0 {
                Some(MotionRequest { format, full, form, segments })
            } else {
                None
            }
        },
        None => None,
    }
}

} // verus!
