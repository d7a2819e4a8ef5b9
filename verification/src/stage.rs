//! The data behind the `st` stage search: stage type ranges, map and stage
//! names, and the index that finds an entry by its id.
use vstd::prelude::*;

use crate::settings::{lemma_text_lt_asymmetric, lemma_text_lt_total, lemma_text_lt_transitive, text_less, text_lt, texts};
use crate::text::string_views;
use crate::text::{
    byte_get, byte_len, contains, is_alnum, spec_byte_get, spec_contains, spec_split_once, spec_starts_with, split_once_str, starts_with, utf8_width_exec,
    all_digits, append, append_str, chars_of, decimal, eq, eq_ignore_case, eq_str, fmt_usize, is_all_digits, lines,
    lower_seq, pad_zero, pad_zero_exec, parse_usize, parse_usize_spec, slice, spec_is_alnum, spec_is_alpha, spec_lines,
    spec_trim, spec_utf16_len, split_char, split_fields, string_of, to_lower, trim, utf16_within, views,
};

verus! {

pub const MAX_STAGE_TYPES: usize = 64;

pub const MAX_NAME_ROWS: usize = 100_000;

pub const MAX_STAGES_PER_ROW: usize = 1_000;

pub const MAX_NAME_UTF16: usize = 200;

/// A failure to build the stage data, with its reason.
#[derive(Debug)]
pub struct StageDataError {
    pub reason: String,
    pub not_found: bool,
}

impl StageDataError {
    pub fn new(reason: Vec<char>) -> (r: Self)
        ensures
            r.reason@ == reason@,
            !r.not_found,
    {
        StageDataError { reason: string_of(reason.as_slice()), not_found: false }
    }

    /// Whether the failure was a missing document.
    pub fn is_not_found(&self) -> (r: bool)
        ensures
            r == self.not_found,
    {
        self.not_found
    }
}

fn text(s: &str) -> (r: Vec<char>)
    ensures
        r@ == s@,
{
    chars_of(s)
}

// ---------------------------------------------------------------------------
// Lines, integers and names
// ---------------------------------------------------------------------------

pub open spec fn drop_trailing_empty(ls: Seq<Seq<char>>) -> Seq<Seq<char>>
    decreases ls.len(),
{
    if ls.len() > 0 && ls.last().len() == 0 {
        drop_trailing_empty(ls.drop_last())
    } else {
        ls
    }
}

/// The lines of a CSV text after its byte order marks, without trailing
/// empty lines.
pub open spec fn csv_lines(text: Seq<char>) -> Seq<Seq<char>> {
    drop_trailing_empty(spec_lines(crate::skd_parse::strip_boms(text)))
}

pub fn lines_without_trailing_empty(value: &str) -> (r: Vec<Vec<char>>)
    ensures
        views(r@) == csv_lines(value@),
{
    let t = chars_of(value);
    let body = strip_boms_chars(t.as_slice());
    let mut ls = lines(body.as_slice());
    while ls.len() > 0 && ls[ls.len() - 1].len() == 0
        invariant
            drop_trailing_empty(views(ls@)) == csv_lines(value@),
        decreases ls@.len(),
    {
        let ghost before = views(ls@);
        assert(before.last() == ls@[ls@.len() - 1]@);
        ls.pop();
        assert(views(ls@) =~= before.drop_last());
    }
    ls
}

fn strip_boms_chars(s: &[char]) -> (r: Vec<char>)
    ensures
        r@ == crate::skd_parse::strip_boms(s@),
{
    let mut i: usize = 0;
    assert(s@.skip(0) =~= s@);
    while i < s.len() && s[i] == '\u{feff}'
        invariant
            i <= s@.len(),
            crate::skd_parse::strip_boms(s@) == crate::skd_parse::strip_boms(s@.skip(i as int)),
        decreases s@.len() - i,
    {
        assert(s@.skip(i as int).drop_first() =~= s@.skip(i + 1));
        i += 1;
    }
    slice(s, i, s.len())
}

/// A non-negative integer of ASCII digits that fits in `usize`.
pub open spec fn spec_st_usize(v: Seq<char>, label: Seq<char>) -> Result<usize, Seq<char>> {
    if v.len() == 0 || !all_digits(v) {
        Err("invalid integer in "@ + label)
    } else {
        match parse_usize_spec(v) {
            Some(n) => Ok(n),
            None => Err("integer out of range in "@ + label),
        }
    }
}

pub fn st_parse_usize(value: &[char], label: &[char]) -> (r: Result<usize, Vec<char>>)
    ensures
        match r {
            Ok(n) => spec_st_usize(value@, label@) == Ok::<usize, Seq<char>>(n),
            Err(e) => spec_st_usize(value@, label@) == Err::<usize, Seq<char>>(e@),
        },
{
    if value.len() == 0 || !is_all_digits(value) {
        let mut e = text("invalid integer in ");
        append(&mut e, label);
        return Err(e);
    }
    match parse_usize(value) {
        Some(n) => Ok(n),
        None => {
            let mut e = text("integer out of range in ");
            append(&mut e, label);
            Err(e)
        },
    }
}

/// A type name: an ASCII letter, then ASCII letters, digits or `_`.
pub open spec fn spec_valid_stage_type(v: Seq<char>) -> bool {
    v.len() > 0 && spec_is_alpha(v[0]) && forall|i: int| 1 <= i < v.len() ==> spec_is_alnum(#[trigger] v[i]) || v[i] == '_'
}

pub fn valid_stage_type(v: &[char]) -> (r: bool)
    ensures
        r == spec_valid_stage_type(v@),
{
    if v.len() == 0 || !crate::text::is_alpha(v[0]) {
        return false;
    }
    let mut i: usize = 1;
    while i < v.len()
        invariant
            1 <= i <= v@.len(),
            forall|j: int| 1 <= j < i ==> spec_is_alnum(#[trigger] v@[j]) || v@[j] == '_',
        decreases v@.len() - i,
    {
        if !(crate::text::is_alnum(v[i]) || v[i] == '_') {
            return false;
        }
        i += 1;
    }
    true
}

/// A name cell: nothing when empty or a placeholder `@`/`＠`, an error when
/// longer than `MAX_NAME_UTF16` UTF-16 code units.
pub open spec fn spec_normalized_name(value: Seq<char>) -> Result<Option<Seq<char>>, Seq<char>> {
    let name = spec_trim(value);
    if name.len() == 0 || name == "@"@ || name == "＠"@ {
        Ok(None)
    } else if spec_utf16_len(name) > MAX_NAME_UTF16 {
        Err("stage name is too long"@)
    } else {
        Ok(Some(name))
    }
}

pub fn normalized_name(value: &[char]) -> (r: Result<Option<Vec<char>>, Vec<char>>)
    ensures
        match r {
            Ok(Some(n)) => spec_normalized_name(value@) == Ok::<Option<Seq<char>>, Seq<char>>(Some(n@)),
            Ok(None) => spec_normalized_name(value@) == Ok::<Option<Seq<char>>, Seq<char>>(None),
            Err(e) => spec_normalized_name(value@) == Err::<Option<Seq<char>>, Seq<char>>(e@),
        },
{
    let name = trim(value);
    if name.len() == 0 || eq_str(name.as_slice(), "@") || eq_str(name.as_slice(), "＠") {
        return Ok(None);
    }
    if !utf16_within(name.as_slice(), MAX_NAME_UTF16) {
        return Err(text("stage name is too long"));
    }
    Ok(Some(name))
}

/// `{value:03}`.
pub open spec fn spec_pad_id(value: usize) -> Seq<char> {
    pad_zero(decimal(value as nat), 3)
}

pub fn pad_id(value: usize) -> (r: Vec<char>)
    ensures
        r@ == spec_pad_id(value),
{
    pad_zero_exec(fmt_usize(value).as_slice(), 3)
}


// ---------------------------------------------------------------------------
// Stage type ranges
// ---------------------------------------------------------------------------

/// The raw map ids `from..=to` that belong to a stage type.
#[derive(Debug)]
pub struct StageTypeRange {
    pub from: usize,
    pub to: usize,
    pub stage_type: String,
}

pub struct RangeView {
    pub from: usize,
    pub to: usize,
    pub stage_type: Seq<char>,
}

pub open spec fn range_view(r: StageTypeRange) -> RangeView {
    RangeView { from: r.from, to: r.to, stage_type: r.stage_type@ }
}

pub open spec fn range_views(v: Seq<StageTypeRange>) -> Seq<RangeView> {
    v.map_values(|r: StageTypeRange| range_view(r))
}

pub open spec fn trimmed_cells(line: Seq<char>) -> Seq<Seq<char>> {
    split_fields(line, ',').map_values(|c: Seq<char>| spec_trim(c))
}

pub open spec fn lower_names(rs: Seq<RangeView>) -> Seq<Seq<char>> {
    rs.map_values(|r: RangeView| lower_seq(r.stage_type))
}

/// One row of `stage_type.csv`, numbered `n`: `from,to,type`, a range of at
/// most 1,000 ids and a type not seen before in any letter case.
pub open spec fn type_row(line: Seq<char>, n: nat, seen: Seq<RangeView>) -> Result<RangeView, Seq<char>> {
    let cells = trimmed_cells(line);
    if cells.len() != 3 {
        Err("stage_type.csv row "@ + decimal(n) + " must have 3 columns"@)
    } else {
        match spec_st_usize(cells[0], "stage range start"@) {
            Err(e) => Err(e),
            Ok(from) => match spec_st_usize(cells[1], "stage range end"@) {
                Err(e) => Err(e),
                Ok(to) => if to < from || to - from > 999 || !spec_valid_stage_type(cells[2]) || lower_names(seen).contains(
                    lower_seq(cells[2]),
                ) {
                    Err("stage_type.csv row "@ + decimal(n) + " has an invalid range or type"@)
                } else {
                    Ok(RangeView { from, to, stage_type: cells[2] })
                },
            },
        }
    }
}

pub open spec fn type_rows(rows: Seq<Seq<char>>, k: int) -> Result<Seq<RangeView>, Seq<char>>
    decreases k,
{
    if k <= 0 {
        Ok(seq![])
    } else {
        match type_rows(rows, k - 1) {
            Err(e) => Err(e),
            Ok(rs) => match type_row(rows[k - 1], (k + 1) as nat, rs) {
                Err(e) => Err(e),
                Ok(r) => Ok(rs.push(r)),
            },
        }
    }
}

/// The stage type ranges of `stage_type.csv`.
pub open spec fn spec_parse_stage_types(text: Seq<char>) -> Result<Seq<RangeView>, Seq<char>> {
    let ls = csv_lines(text);
    if ls.len() < 2 || lower_seq(spec_trim(ls[0])) != lower_seq("from,to,type"@) {
        Err("invalid stage_type.csv header"@)
    } else if ls.len() - 1 > MAX_STAGE_TYPES {
        Err("stage_type.csv has too many rows"@)
    } else {
        type_rows(ls.skip(1), ls.len() - 1)
    }
}

fn row_message(n: usize, tail: &str) -> (r: Vec<char>)
    ensures
        r@ == "stage_type.csv row "@ + decimal(n as nat) + tail@,
{
    let mut e = text("stage_type.csv row ");
    append(&mut e, fmt_usize(n).as_slice());
    append_str(&mut e, tail);
    e
}

fn seen_lower(rs: &Vec<StageTypeRange>, name: &[char]) -> (r: bool)
    ensures
        r == lower_names(range_views(rs@)).contains(lower_seq(name@)),
{
    let ghost ln = lower_names(range_views(rs@));
    let target = to_lower(name);
    let mut i: usize = 0;
    while i < rs.len()
        invariant
            i <= rs@.len(),
            ln == lower_names(range_views(rs@)),
            target@ == lower_seq(name@),
            forall|j: int| 0 <= j < i ==> ln[j] != lower_seq(name@),
        decreases rs@.len() - i,
    {
        let l = to_lower(chars_of(rs[i].stage_type.as_str()).as_slice());
        assert(ln[i as int] == lower_seq(rs@[i as int].stage_type@));
        if eq(l.as_slice(), target.as_slice()) {
            return true;
        }
        i += 1;
    }
    false
}

fn read_type_row(line: &Vec<char>, n: usize, seen: &Vec<StageTypeRange>) -> (r: Result<StageTypeRange, Vec<char>>)
    ensures
        match r {
            Ok(x) => type_row(line@, n as nat, range_views(seen@)) == Ok::<RangeView, Seq<char>>(range_view(x)),
            Err(e) => type_row(line@, n as nat, range_views(seen@)) == Err::<RangeView, Seq<char>>(e@),
        },
{
    let raw = split_char(line.as_slice(), ',');
    let ghost cv = trimmed_cells(line@);
    if raw.len() != 3 {
        return Err(row_message(n, " must have 3 columns"));
    }
    assert(cv[0] == spec_trim(raw@[0]@) && cv[1] == spec_trim(raw@[1]@) && cv[2] == spec_trim(raw@[2]@));
    let c0 = trim(raw[0].as_slice());
    let c1 = trim(raw[1].as_slice());
    let c2 = trim(raw[2].as_slice());
    let from = st_parse_usize(c0.as_slice(), text("stage range start").as_slice())?;
    let to = st_parse_usize(c1.as_slice(), text("stage range end").as_slice())?;
    if to < from || to - from > 999 || !valid_stage_type(c2.as_slice()) || seen_lower(seen, c2.as_slice()) {
        return Err(row_message(n, " has an invalid range or type"));
    }
    Ok(StageTypeRange { from, to, stage_type: string_of(c2.as_slice()) })
}

proof fn lemma_type_rows_err(rows: Seq<Seq<char>>, k: int, m: int, e: Seq<char>)
    requires
        k <= m,
        type_rows(rows, k) == Err::<Seq<RangeView>, Seq<char>>(e),
    ensures
        type_rows(rows, m) == Err::<Seq<RangeView>, Seq<char>>(e),
    decreases m - k,
{
    if k < m {
        lemma_type_rows_err(rows, k, m - 1, e);
    }
}

/// Reads `stage_type.csv`.
pub fn parse_stage_types(value: &str) -> (r: Result<Vec<StageTypeRange>, StageDataError>)
    ensures
        match r {
            Ok(v) => spec_parse_stage_types(value@) == Ok::<Seq<RangeView>, Seq<char>>(range_views(v@)),
            Err(e) => spec_parse_stage_types(value@) == Err::<Seq<RangeView>, Seq<char>>(e.reason@),
        },
{
    let ls = lines_without_trailing_empty(value);
    let ghost lv = views(ls@);
    if ls.len() < 2 {
        return Err(StageDataError::new(text("invalid stage_type.csv header")));
    }
    assert(lv[0] == ls@[0]@);
    if !eq_ignore_case(trim(ls[0].as_slice()).as_slice(), "from,to,type") {
        return Err(StageDataError::new(text("invalid stage_type.csv header")));
    }
    if ls.len() - 1 > MAX_STAGE_TYPES {
        return Err(StageDataError::new(text("stage_type.csv has too many rows")));
    }
    let ghost rows = lv.skip(1);
    let mut out: Vec<StageTypeRange> = Vec::new();
    let mut i: usize = 1;
    assert(range_views(out@) =~= seq![]);
    while i < ls.len()
        invariant
            1 <= i <= ls@.len(),
            ls@.len() - 1 <= MAX_STAGE_TYPES,
            lv == views(ls@),
            rows == lv.skip(1),
            spec_parse_stage_types(value@) == type_rows(rows, ls@.len() - 1),
            type_rows(rows, i - 1) == Ok::<Seq<RangeView>, Seq<char>>(range_views(out@)),
        decreases ls@.len() - i,
    {
        assert(rows[i - 1] == ls@[i as int]@);
        match read_type_row(&ls[i], i + 1, &out) {
            Ok(x) => {
                let ghost before = range_views(out@);
                let ghost xv = range_view(x);
                out.push(x);
                assert(range_views(out@) =~= before.push(xv));
            },
            Err(e) => {
                proof {
                    lemma_type_rows_err(rows, i as int, ls@.len() - 1, e@);
                }
                return Err(StageDataError::new(e));
            },
        }
        i += 1;
    }
    Ok(out)
}


// ---------------------------------------------------------------------------
// Names
// ---------------------------------------------------------------------------

/// Inserts a new id into a list kept in increasing id.
pub open spec fn insert_by_id(s: Seq<(usize, Seq<char>)>, k: usize, v: Seq<char>) -> Seq<(usize, Seq<char>)>
    decreases s.len(),
{
    if s.len() == 0 || k < s[0].0 {
        seq![(k, v)] + s
    } else {
        seq![s[0]] + insert_by_id(s.drop_first(), k, v)
    }
}

proof fn lemma_insert_by_id(s: Seq<(usize, Seq<char>)>, k: usize, v: Seq<char>, i: int)
    requires
        0 <= i <= s.len(),
        forall|j: int| 0 <= j < i ==> (#[trigger] s[j]).0 <= k,
        i == s.len() || k < s[i].0,
    ensures
        insert_by_id(s, k, v) == s.take(i).push((k, v)) + s.skip(i),
    decreases i,
{
    if i == 0 {
        assert(s.take(0).push((k, v)) + s.skip(0) =~= seq![(k, v)] + s);
    } else {
        let t = s.drop_first();
        assert(s[0].0 <= k);
        assert forall|j: int| 0 <= j < i - 1 implies (#[trigger] t[j]).0 <= k by {
            assert(t[j] == s[j + 1]);
        }
        if i < s.len() {
            assert(t[i - 1] == s[i]);
        }
        lemma_insert_by_id(t, k, v, i - 1);
        assert(seq![s[0]] + (t.take(i - 1).push((k, v)) + t.skip(i - 1)) =~= s.take(i).push((k, v)) + s.skip(i));
    }
}

pub open spec fn id_list_has(s: Seq<(usize, Seq<char>)>, k: usize) -> bool {
    exists|j: int| 0 <= j < s.len() && (#[trigger] s[j]).0 == k
}

/// One `id,name` row, numbered `n`: skipped when ids may be negative and
/// this one is; a named id may occur once.
pub open spec fn id_name_row(
    line: Seq<char>,
    n: nat,
    allow_negative: bool,
    label: Seq<char>,
    names: Seq<(usize, Seq<char>)>,
) -> Result<Seq<(usize, Seq<char>)>, Seq<char>> {
    match crate::text::spec_split_once(line, ","@) {
        None => Err(label + " row "@ + decimal(n) + " has no name"@),
        Some((id_text, name_text)) => if allow_negative && crate::text::spec_starts_with(spec_trim(id_text), "-"@) {
            Ok(names)
        } else {
            match spec_st_usize(spec_trim(id_text), label) {
                Err(e) => Err(e),
                Ok(id) => match spec_normalized_name(name_text) {
                    Err(e) => Err(e),
                    Ok(None) => Ok(names),
                    Ok(Some(name)) => if id_list_has(names, id) {
                        Err("duplicate ID in "@ + label)
                    } else {
                        Ok(insert_by_id(names, id, name))
                    },
                },
            }
        },
    }
}

pub open spec fn id_name_rows(ls: Seq<Seq<char>>, k: int, allow_negative: bool, label: Seq<char>) -> Result<Seq<(usize, Seq<char>)>, Seq<char>>
    decreases k,
{
    if k <= 0 {
        Ok(seq![])
    } else {
        match id_name_rows(ls, k - 1, allow_negative, label) {
            Err(e) => Err(e),
            Ok(names) => id_name_row(ls[k - 1], k as nat, allow_negative, label, names),
        }
    }
}

/// The names of an `id,name` CSV, in increasing id.
pub open spec fn spec_parse_id_names(text: Seq<char>, allow_negative: bool, label: Seq<char>) -> Result<Seq<(usize, Seq<char>)>, Seq<char>> {
    let ls = csv_lines(text);
    if ls.len() == 0 || ls.len() > MAX_NAME_ROWS {
        Err("invalid "@ + label + " row count"@)
    } else {
        match id_name_rows(ls, ls.len() as int, allow_negative, label) {
            Err(e) => Err(e),
            Ok(names) => if names.len() == 0 {
                Err(label + " has no names"@)
            } else {
                Ok(names)
            },
        }
    }
}

pub open spec fn name_list_views(v: Seq<(usize, String)>) -> Seq<(usize, Seq<char>)> {
    v.map_values(|p: (usize, String)| (p.0, p.1@))
}

fn insert_name(names: &mut Vec<(usize, String)>, k: usize, v: Vec<char>) -> (dup: bool)
    ensures
        dup == id_list_has(name_list_views(old(names)@), k),
        dup ==> final(names)@ == old(names)@,
        !dup ==> name_list_views(final(names)@) == insert_by_id(name_list_views(old(names)@), k, v@),
{
    let ghost s = name_list_views(names@);
    let mut i: usize = 0;
    while i < names.len() && names[i].0 < k
        invariant
            i <= names@.len(),
            s == name_list_views(names@),
            forall|j: int| 0 <= j < i ==> (#[trigger] s[j]).0 < k,
        decreases names@.len() - i,
    {
        i += 1;
    }
    let mut j: usize = 0;
    let mut found = false;
    while j < names.len()
        invariant
            j <= names@.len(),
            s == name_list_views(names@),
            found == exists|m: int| 0 <= m < j && (#[trigger] s[m]).0 == k,
        decreases names@.len() - j,
    {
        if names[j].0 == k {
            found = true;
        }
        assert(s[j as int].0 == names@[j as int].0);
        j += 1;
    }
    if found {
        return true;
    }
    proof {
        if (i as int) < s.len() {
            assert(s[i as int].0 != k);
        }
        lemma_insert_by_id(s, k, v@, i as int);
    }
    names.insert(i, (k, string_of(v.as_slice())));
    assert(name_list_views(names@) =~= s.take(i as int).push((k, v@)) + s.skip(i as int));
    false
}

fn message_with(a: &str, b: &[char], c: &str) -> (r: Vec<char>)
    ensures
        r@ == a@ + b@ + c@,
{
    let mut v = text(a);
    append(&mut v, b);
    append_str(&mut v, c);
    v
}

fn read_id_name_row(
    line: &Vec<char>,
    n: usize,
    allow_negative: bool,
    label: &[char],
    names: &mut Vec<(usize, String)>,
) -> (r: Result<(), Vec<char>>)
    ensures
        match r {
            Ok(()) => id_name_row(line@, n as nat, allow_negative, label@, name_list_views(old(names)@))
                == Ok::<Seq<(usize, Seq<char>)>, Seq<char>>(name_list_views(final(names)@)),
            Err(e) => id_name_row(line@, n as nat, allow_negative, label@, name_list_views(old(names)@))
                == Err::<Seq<(usize, Seq<char>)>, Seq<char>>(e@),
        },
{
    proof {
        reveal_strlit(",");
        reveal_strlit("-");
        reveal_strlit("");
    }
    let comma = text(",");
    let (id_text, name_text) = match crate::text::split_once(line.as_slice(), comma.as_slice()) {
        Some(p) => p,
        None => {
            let mut e = slice(label, 0, label.len());
            append_str(&mut e, " row ");
            append(&mut e, fmt_usize(n).as_slice());
            append_str(&mut e, " has no name");
            assert(e@ =~= label@ + " row "@ + decimal(n as nat) + " has no name"@);
            return Err(e);
        },
    };
    let id_trim = trim(id_text.as_slice());
    if allow_negative && crate::text::starts_with_str(id_trim.as_slice(), "-") {
        return Ok(());
    }
    let id = st_parse_usize(id_trim.as_slice(), label)?;
    let name = normalized_name(name_text.as_slice())?;
    match name {
        None => Ok(()),
        Some(nm) => {
            if insert_name(names, id, nm) {
                Err(message_with("duplicate ID in ", label, ""))
            } else {
                Ok(())
            }
        },
    }
}

proof fn lemma_id_rows_err(ls: Seq<Seq<char>>, k: int, m: int, allow_negative: bool, label: Seq<char>, e: Seq<char>)
    requires
        k <= m,
        id_name_rows(ls, k, allow_negative, label) == Err::<Seq<(usize, Seq<char>)>, Seq<char>>(e),
    ensures
        id_name_rows(ls, m, allow_negative, label) == Err::<Seq<(usize, Seq<char>)>, Seq<char>>(e),
    decreases m - k,
{
    if k < m {
        lemma_id_rows_err(ls, k, m - 1, allow_negative, label, e);
    }
}

/// Reads an `id,name` CSV into names in increasing id.
pub fn parse_id_names(value: &str, allow_negative: bool, label: &str) -> (r: Result<Vec<(usize, String)>, StageDataError>)
    ensures
        match r {
            Ok(v) => spec_parse_id_names(value@, allow_negative, label@) == Ok::<Seq<(usize, Seq<char>)>, Seq<char>>(name_list_views(v@)),
            Err(e) => spec_parse_id_names(value@, allow_negative, label@) == Err::<Seq<(usize, Seq<char>)>, Seq<char>>(e.reason@),
        },
{
    proof {
        reveal_strlit("");
    }
    let lab = text(label);
    let ls = lines_without_trailing_empty(value);
    let ghost lv = views(ls@);
    if ls.len() == 0 || ls.len() > MAX_NAME_ROWS {
        return Err(StageDataError::new(message_with("invalid ", lab.as_slice(), " row count")));
    }
    let mut names: Vec<(usize, String)> = Vec::new();
    let mut i: usize = 0;
    assert(name_list_views(names@) =~= seq![]);
    while i < ls.len()
        invariant
            i <= ls@.len(),
            lab@ == label@,
            lv == views(ls@),
            spec_parse_id_names(value@, allow_negative, label@) == match id_name_rows(lv, lv.len() as int, allow_negative, label@) {
                Err(e) => Err(e),
                Ok(names) => if names.len() == 0 {
                    Err(label@ + " has no names"@)
                } else {
                    Ok(names)
                },
            },
            id_name_rows(lv, i as int, allow_negative, label@) == Ok::<Seq<(usize, Seq<char>)>, Seq<char>>(name_list_views(names@)),
        decreases ls@.len() - i,
    {
        assert(lv[i as int] == ls@[i as int]@);
        match read_id_name_row(&ls[i], i + 1, allow_negative, lab.as_slice(), &mut names) {
            Ok(()) => {},
            Err(e) => {
                proof {
                    lemma_id_rows_err(lv, i + 1, lv.len() as int, allow_negative, label@, e@);
                }
                return Err(StageDataError::new(e));
            },
        }
        i += 1;
    }
    if names.len() == 0 {
        return Err(StageDataError::new(message_with("", lab.as_slice(), " has no names")));
    }
    Ok(names)
}

pub open spec fn opt_name_views(row: Seq<Option<String>>) -> Seq<Option<Seq<char>>> {
    row.map_values(|o: Option<String>| crate::protocol::opt_view(o))
}

pub open spec fn name_rows_views(rows: Seq<Vec<Option<String>>>) -> Seq<Seq<Option<Seq<char>>>> {
    rows.map_values(|r: Vec<Option<String>>| opt_name_views(r@))
}

/// The names of one row's cells.
pub open spec fn name_cells(cells: Seq<Seq<char>>, k: int) -> Result<Seq<Option<Seq<char>>>, Seq<char>>
    decreases k,
{
    if k <= 0 {
        Ok(seq![])
    } else {
        match name_cells(cells, k - 1) {
            Err(e) => Err(e),
            Ok(ns) => match spec_normalized_name(cells[k - 1]) {
                Err(e) => Err(e),
                Ok(n) => Ok(ns.push(n)),
            },
        }
    }
}

pub open spec fn name_row(line: Seq<char>, label: Seq<char>) -> Result<Seq<Option<Seq<char>>>, Seq<char>> {
    let cells = split_fields(line, ',');
    if cells.len() > MAX_STAGES_PER_ROW {
        Err(label + " row is too wide"@)
    } else {
        name_cells(cells, cells.len() as int)
    }
}

pub open spec fn name_rows(ls: Seq<Seq<char>>, k: int, label: Seq<char>) -> Result<Seq<Seq<Option<Seq<char>>>>, Seq<char>>
    decreases k,
{
    if k <= 0 {
        Ok(seq![])
    } else {
        match name_rows(ls, k - 1, label) {
            Err(e) => Err(e),
            Ok(rs) => match name_row(ls[k - 1], label) {
                Err(e) => Err(e),
                Ok(r) => Ok(rs.push(r)),
            },
        }
    }
}

pub open spec fn some_in(row: Seq<Option<Seq<char>>>) -> bool {
    exists|j: int| 0 <= j < row.len() && (#[trigger] row[j]) is Some
}

pub open spec fn has_name(rows: Seq<Seq<Option<Seq<char>>>>) -> bool {
    exists|i: int| 0 <= i < rows.len() && some_in(#[trigger] rows[i])
}

proof fn lemma_some_in_push(row: Seq<Option<Seq<char>>>, x: Option<Seq<char>>)
    ensures
        some_in(row.push(x)) == (some_in(row) || x is Some),
{
    let r = row.push(x);
    if some_in(r) {
        let j = choose|j: int| 0 <= j < r.len() && (#[trigger] r[j]) is Some;
        if j < row.len() {
            assert(row[j] == r[j]);
        }
    }
    if some_in(row) {
        let j = choose|j: int| 0 <= j < row.len() && (#[trigger] row[j]) is Some;
        assert(r[j] == row[j]);
    }
    if x is Some {
        assert(r[row.len() as int] == x);
    }
}

proof fn lemma_has_name_push(rows: Seq<Seq<Option<Seq<char>>>>, x: Seq<Option<Seq<char>>>)
    ensures
        has_name(rows.push(x)) == (has_name(rows) || some_in(x)),
{
    let r = rows.push(x);
    if has_name(r) {
        let i = choose|i: int| 0 <= i < r.len() && some_in(#[trigger] r[i]);
        if i < rows.len() {
            assert(rows[i] == r[i]);
        }
    }
    if has_name(rows) {
        let i = choose|i: int| 0 <= i < rows.len() && some_in(#[trigger] rows[i]);
        assert(r[i] == rows[i]);
    }
    if some_in(x) {
        assert(r[rows.len() as int] == x);
    }
}

/// The stage names of a CSV, one row per map; at least one name.
pub open spec fn spec_parse_stage_names(text: Seq<char>, label: Seq<char>) -> Result<Seq<Seq<Option<Seq<char>>>>, Seq<char>> {
    let ls = csv_lines(text);
    if ls.len() == 0 || ls.len() > MAX_NAME_ROWS {
        Err("invalid "@ + label + " row count"@)
    } else {
        match name_rows(ls, ls.len() as int, label) {
            Err(e) => Err(e),
            Ok(rows) => if has_name(rows) {
                Ok(rows)
            } else {
                Err(label + " has no stage names"@)
            },
        }
    }
}

fn read_name_row(line: &Vec<char>, label: &[char]) -> (r: Result<(Vec<Option<String>>, bool), Vec<char>>)
    ensures
        match r {
            Ok((row, found)) => name_row(line@, label@) == Ok::<Seq<Option<Seq<char>>>, Seq<char>>(opt_name_views(row@))
                && found == some_in(opt_name_views(row@)),
            Err(e) => name_row(line@, label@) == Err::<Seq<Option<Seq<char>>>, Seq<char>>(e@),
        },
{
    proof {
        reveal_strlit("");
    }
    let cells = split_char(line.as_slice(), ',');
    let ghost cv = views(cells@);
    if cells.len() > MAX_STAGES_PER_ROW {
        return Err(message_with("", label, " row is too wide"));
    }
    let mut row: Vec<Option<String>> = Vec::new();
    let mut found = false;
    let mut k: usize = 0;
    assert(opt_name_views(row@) =~= seq![]);
    while k < cells.len()
        invariant
            k <= cells@.len(),
            cv == views(cells@),
            name_cells(cv, k as int) == Ok::<Seq<Option<Seq<char>>>, Seq<char>>(opt_name_views(row@)),
            name_row(line@, label@) == name_cells(cv, cv.len() as int),
            found == some_in(opt_name_views(row@)),
        decreases cells@.len() - k,
    {
        assert(cv[k as int] == cells@[k as int]@);
        match normalized_name(cells[k].as_slice()) {
            Ok(n) => {
                let ghost before = opt_name_views(row@);
                let item = match n {
                    Some(v) => Some(string_of(v.as_slice())),
                    None => None,
                };
                let ghost iv = crate::protocol::opt_view(item);
                let present = item.is_some();
                row.push(item);
                assert(opt_name_views(row@) =~= before.push(iv));
                proof {
                    lemma_some_in_push(before, iv);
                }
                found = found || present;
            },
            Err(e) => {
                proof {
                    lemma_name_cells_err(cv, k + 1, cv.len() as int, e@);
                }
                return Err(e);
            },
        }
        k += 1;
    }
    Ok((row, found))
}

proof fn lemma_name_cells_err(cells: Seq<Seq<char>>, k: int, m: int, e: Seq<char>)
    requires
        k <= m,
        name_cells(cells, k) == Err::<Seq<Option<Seq<char>>>, Seq<char>>(e),
    ensures
        name_cells(cells, m) == Err::<Seq<Option<Seq<char>>>, Seq<char>>(e),
    decreases m - k,
{
    if k < m {
        lemma_name_cells_err(cells, k, m - 1, e);
    }
}

proof fn lemma_name_rows_err(ls: Seq<Seq<char>>, k: int, m: int, label: Seq<char>, e: Seq<char>)
    requires
        k <= m,
        name_rows(ls, k, label) == Err::<Seq<Seq<Option<Seq<char>>>>, Seq<char>>(e),
    ensures
        name_rows(ls, m, label) == Err::<Seq<Seq<Option<Seq<char>>>>, Seq<char>>(e),
    decreases m - k,
{
    if k < m {
        lemma_name_rows_err(ls, k, m - 1, label, e);
    }
}

/// Reads a stage name CSV: for each map a row of stage names.
pub fn parse_stage_names(value: &str, label: &str) -> (r: Result<Vec<Vec<Option<String>>>, StageDataError>)
    ensures
        match r {
            Ok(v) => spec_parse_stage_names(value@, label@) == Ok::<Seq<Seq<Option<Seq<char>>>>, Seq<char>>(name_rows_views(v@)),
            Err(e) => spec_parse_stage_names(value@, label@) == Err::<Seq<Seq<Option<Seq<char>>>>, Seq<char>>(e.reason@),
        },
{
    proof {
        reveal_strlit("");
    }
    let lab = text(label);
    let ls = lines_without_trailing_empty(value);
    let ghost lv = views(ls@);
    if ls.len() == 0 || ls.len() > MAX_NAME_ROWS {
        return Err(StageDataError::new(message_with("invalid ", lab.as_slice(), " row count")));
    }
    let mut rows: Vec<Vec<Option<String>>> = Vec::new();
    let mut found = false;
    let mut i: usize = 0;
    assert(name_rows_views(rows@) =~= seq![]);
    while i < ls.len()
        invariant
            i <= ls@.len(),
            lab@ == label@,
            lv == views(ls@),
            spec_parse_stage_names(value@, label@) == match name_rows(lv, lv.len() as int, label@) {
                Err(e) => Err(e),
                Ok(rows) => if has_name(rows) {
                    Ok(rows)
                } else {
                    Err(label@ + " has no stage names"@)
                },
            },
            name_rows(lv, i as int, label@) == Ok::<Seq<Seq<Option<Seq<char>>>>, Seq<char>>(name_rows_views(rows@)),
            found == has_name(name_rows_views(rows@)),
        decreases ls@.len() - i,
    {
        assert(lv[i as int] == ls@[i as int]@);
        match read_name_row(&ls[i], lab.as_slice()) {
            Ok((row, f)) => {
                let ghost before = name_rows_views(rows@);
                let ghost rv = opt_name_views(row@);
                rows.push(row);
                assert(name_rows_views(rows@) =~= before.push(rv));
                proof {
                    lemma_has_name_push(before, rv);
                }
                found = found || f;
            },
            Err(e) => {
                proof {
                    lemma_name_rows_err(lv, i + 1, lv.len() as int, label@, e@);
                }
                return Err(StageDataError::new(e));
            },
        }
        i += 1;
    }
    if !found {
        return Err(StageDataError::new(message_with("", lab.as_slice(), " has no stage names")));
    }
    Ok(rows)
}


// ---------------------------------------------------------------------------
// Ranges and routes
// ---------------------------------------------------------------------------

/// The maps of the chapter files: file, first raw map id and JDB type.
pub open spec fn chapter(i: int) -> (Seq<char>, usize, Seq<char>) {
    if i == 0 {
        ("StageName0_ja.csv"@, 3_000usize, "0"@)
    } else if i == 1 {
        ("StageName1_ja.csv"@, 3_003usize, "1"@)
    } else if i == 2 {
        ("StageName2_ja.csv"@, 3_006usize, "2"@)
    } else if i == 3 {
        ("StageName0Z_ja.csv"@, 20_000usize, "0Z"@)
    } else if i == 4 {
        ("StageName1Z_ja.csv"@, 21_000usize, "1Z"@)
    } else {
        ("StageName2Z_ja.csv"@, 22_000usize, "2Z"@)
    }
}

pub const CHAPTER_COUNT: usize = 6;

fn chapter_exec(i: usize) -> (r: (&'static str, usize, &'static str))
    requires
        i < CHAPTER_COUNT,
    ensures
        (r.0@, r.1, r.2@) == chapter(i as int),
{
    if i == 0 {
        ("StageName0_ja.csv", 3_000, "0")
    } else if i == 1 {
        ("StageName1_ja.csv", 3_003, "1")
    } else if i == 2 {
        ("StageName2_ja.csv", 3_006, "2")
    } else if i == 3 {
        ("StageName0Z_ja.csv", 20_000, "0Z")
    } else if i == 4 {
        ("StageName1Z_ja.csv", 21_000, "1Z")
    } else {
        ("StageName2Z_ja.csv", 22_000, "2Z")
    }
}

/// The raw map ids that the chapters and the two invasion maps use.
pub open spec fn is_reserved(id: int) -> bool {
    (exists|i: int| 0 <= i < CHAPTER_COUNT && (#[trigger] chapter(i)).1 <= id <= chapter(i).1 + 2) || id == 23_000 || id == 38_000
}

pub open spec fn normal_range() -> RangeView {
    RangeView { from: 0, to: 999, stage_type: "N"@ }
}

pub open spec fn insert_by_from(s: Seq<RangeView>, x: RangeView) -> Seq<RangeView>
    decreases s.len(),
{
    if s.len() == 0 || s.last().from <= x.from {
        s.push(x)
    } else {
        insert_by_from(s.drop_last(), x).push(s.last())
    }
}

/// The ranges by their first id; ranges that start together keep their order.
pub open spec fn sort_by_from(s: Seq<RangeView>) -> Seq<RangeView>
    decreases s.len(),
{
    if s.len() == 0 {
        s
    } else {
        insert_by_from(sort_by_from(s.drop_last()), s.last())
    }
}

/// The configured ranges and the normal range `N`, by their first id: their
/// types differ in any letter case, they do not overlap and they hold no
/// reserved map id.
pub open spec fn spec_all_ranges(configured: Seq<RangeView>) -> Result<Seq<RangeView>, Seq<char>> {
    let all = configured.push(normal_range());
    if exists|i: int, j: int| 0 <= i < j < all.len() && lower_seq((#[trigger] all[i]).stage_type) == lower_seq((#[trigger] all[j]).stage_type) {
        Err("duplicate stage type"@)
    } else {
        let sorted = sort_by_from(all);
        if exists|i: int| 0 <= i < sorted.len() - 1 && (#[trigger] sorted[i + 1]).from <= sorted[i].to {
            Err("stage type ranges overlap"@)
        } else if exists|i: int, id: int| #![trigger sorted[i], is_reserved(id)] 0 <= i < sorted.len() && is_reserved(id) && sorted[i].from <= id <= sorted[i].to {
            Err("stage type range overlaps a reserved map ID"@)
        } else {
            Ok(sorted)
        }
    }
}

proof fn lemma_insert_by_from(s: Seq<RangeView>, x: RangeView, j: int)
    requires
        0 <= j <= s.len(),
        forall|k: int| j <= k < s.len() ==> (#[trigger] s[k]).from > x.from,
        j == 0 || s[j - 1].from <= x.from,
    ensures
        insert_by_from(s, x) == s.take(j).push(x) + s.skip(j),
    decreases s.len(),
{
    if s.len() == j {
        assert(s.take(j).push(x) + s.skip(j) =~= s.push(x));
    } else {
        let t = s.drop_last();
        assert forall|k: int| j <= k < t.len() implies (#[trigger] t[k]).from > x.from by {
            assert(t[k] == s[k]);
        }
        if j > 0 {
            assert(t[j - 1] == s[j - 1]);
        }
        lemma_insert_by_from(t, x, j);
        assert((t.take(j).push(x) + t.skip(j)).push(s.last()) =~= s.take(j).push(x) + s.skip(j));
    }
}

fn copy_range(r: &StageTypeRange) -> (c: StageTypeRange)
    ensures
        range_view(c) == range_view(*r),
{
    StageTypeRange { from: r.from, to: r.to, stage_type: string_of(chars_of(r.stage_type.as_str()).as_slice()) }
}

fn range_in_reserved(from: usize, to: usize) -> (r: bool)
    ensures
        r == exists|id: int| is_reserved(id) && from <= id <= to,
{
    let mut i: usize = 0;
    while i < CHAPTER_COUNT
        invariant
            i <= CHAPTER_COUNT,
            forall|k: int| 0 <= k < i ==> !(from <= (#[trigger] chapter(k)).1 + 2 && chapter(k).1 <= to && from <= to),
        decreases CHAPTER_COUNT - i,
    {
        let (_, start, _) = chapter_exec(i);
        let lo = if from > start {
            from
        } else {
            start
        };
        let hi = if to < start + 2 {
            to
        } else {
            start + 2
        };
        if lo <= hi {
            proof {
                assert(chapter(i as int).1 <= lo as int <= chapter(i as int).1 + 2);
                assert(is_reserved(lo as int));
            }
            return true;
        }
        i += 1;
    }
    if from <= 23_000 && 23_000 <= to {
        assert(is_reserved(23_000));
        return true;
    }
    if from <= 38_000 && 38_000 <= to {
        assert(is_reserved(38_000));
        return true;
    }
    proof {
        assert forall|id: int| is_reserved(id) implies !(from <= id <= to) by {
            if exists|k: int| 0 <= k < CHAPTER_COUNT && (#[trigger] chapter(k)).1 <= id <= chapter(k).1 + 2 {
                let k = choose|k: int| 0 <= k < CHAPTER_COUNT && (#[trigger] chapter(k)).1 <= id <= chapter(k).1 + 2;
                assert(chapter(k).1 <= id <= chapter(k).1 + 2);
            }
        }
    }
    false
}

/// Completes and checks the configured ranges.
#[verifier::loop_isolation(false)]
pub fn all_ranges(configured: Vec<StageTypeRange>) -> (r: Result<Vec<StageTypeRange>, StageDataError>)
    ensures
        match r {
            Ok(v) => spec_all_ranges(range_views(configured@)) == Ok::<Seq<RangeView>, Seq<char>>(range_views(v@)),
            Err(e) => spec_all_ranges(range_views(configured@)) == Err::<Seq<RangeView>, Seq<char>>(e.reason@),
        },
{
    let ghost cfg = range_views(configured@);
    let mut all = configured;
    let n_range = StageTypeRange { from: 0, to: 999, stage_type: string_of(chars_of("N").as_slice()) };
    all.push(n_range);
    let ghost av = range_views(all@);
    assert(av =~= cfg.push(normal_range()));
    // distinct types
    let mut i: usize = 0;
    while i < all.len()
        invariant
            i <= all@.len(),
            av == range_views(all@),
            forall|a: int, b: int| 0 <= a < b < av.len() && a < i ==> lower_seq(av[a].stage_type) != lower_seq(av[b].stage_type),
        decreases all@.len() - i,
    {
        let li = to_lower(chars_of(all[i].stage_type.as_str()).as_slice());
        assert(av[i as int].stage_type == all@[i as int].stage_type@);
        let mut j: usize = i + 1;
        while j < all.len()
            invariant
                i < all@.len(),
                i + 1 <= j <= all@.len(),
                av == range_views(all@),
                li@ == lower_seq(av[i as int].stage_type),
                forall|a: int, b: int| 0 <= a < b < av.len() && a < i ==> lower_seq(av[a].stage_type) != lower_seq(av[b].stage_type),
                forall|b: int| i < b < j ==> lower_seq(av[i as int].stage_type) != lower_seq(av[b].stage_type),
            decreases all@.len() - j,
        {
            let lj = to_lower(chars_of(all[j].stage_type.as_str()).as_slice());
            assert(av[j as int].stage_type == all@[j as int].stage_type@);
            if eq(li.as_slice(), lj.as_slice()) {
                assert(lower_seq(av[i as int].stage_type) == lower_seq(av[j as int].stage_type));
                return Err(StageDataError::new(text("duplicate stage type")));
            }
            j += 1;
        }
        i += 1;
    }
    // stable sort by first id
    let mut sorted: Vec<StageTypeRange> = Vec::new();
    let mut k: usize = 0;
    assert(range_views(sorted@) =~= sort_by_from(av.take(0)));
    while k < all.len()
        invariant
            k <= all@.len(),
            av == range_views(all@),
            range_views(sorted@) == sort_by_from(av.take(k as int)),
        decreases all@.len() - k,
    {
        let x = copy_range(&all[k]);
        let ghost xv = range_view(x);
        assert(xv == av[k as int]);
        let ghost sv = range_views(sorted@);
        let mut j: usize = sorted.len();
        while j > 0 && sorted[j - 1].from > x.from
            invariant
                j <= sorted@.len(),
                sv == range_views(sorted@),
                forall|m: int| j <= m < sorted@.len() ==> (#[trigger] sv[m]).from > xv.from,
            decreases j,
        {
            assert(sv[j - 1].from == sorted@[j - 1].from);
            assert(sv[j - 1].from > xv.from);
            j -= 1;
        }
        proof {
            if j > 0 {
                assert(sv[j - 1].from == sorted@[j - 1].from);
            }
            lemma_insert_by_from(sv, xv, j as int);
            assert(av.take(k + 1).drop_last() =~= av.take(k as int));
        }
        sorted.insert(j, x);
        assert(range_views(sorted@) =~= sv.take(j as int).push(xv) + sv.skip(j as int));
        k += 1;
    }
    assert(av.take(k as int) =~= av);
    let ghost srt = range_views(sorted@);
    // overlap
    let mut m: usize = 0;
    while sorted.len() > 0 && m < sorted.len() - 1
        invariant
            srt == range_views(sorted@),
            forall|q: int| 0 <= q < m && q < srt.len() - 1 ==> !((#[trigger] srt[q + 1]).from <= srt[q].to),
        decreases sorted@.len() - m,
    {
        assert(srt[m as int].to == sorted@[m as int].to && srt[m + 1].from == sorted@[m + 1].from);
        if sorted[m + 1].from <= sorted[m].to {
            return Err(StageDataError::new(text("stage type ranges overlap")));
        }
        m += 1;
    }
    // reserved ids
    let mut q: usize = 0;
    while q < sorted.len()
        invariant
            q <= sorted@.len(),
            srt == range_views(sorted@),
            forall|p: int, id: int| #![trigger srt[p], is_reserved(id)] 0 <= p < q && is_reserved(id) ==> !(srt[p].from <= id <= srt[p].to),
        decreases sorted@.len() - q,
    {
        assert(srt[q as int].from == sorted@[q as int].from && srt[q as int].to == sorted@[q as int].to);
        if range_in_reserved(sorted[q].from, sorted[q].to) {
            return Err(StageDataError::new(text("stage type range overlaps a reserved map ID")));
        }
        q += 1;
    }
    Ok(sorted)
}


/// Where a map lives in the JDB: its type and map number, the id shown, and
/// the type and map that an id query can name.
pub struct StageRoute {
    pub jdb_type: String,
    pub jdb_map: usize,
    pub display_id: String,
    pub display_type: Option<String>,
    pub display_map: Option<usize>,
}

pub struct RouteView {
    pub jdb_type: Seq<char>,
    pub jdb_map: usize,
    pub display_id: Seq<char>,
    pub display_type: Option<Seq<char>>,
    pub display_map: Option<usize>,
}

pub open spec fn route_view(r: StageRoute) -> RouteView {
    RouteView {
        jdb_type: r.jdb_type@,
        jdb_map: r.jdb_map,
        display_id: r.display_id@,
        display_type: crate::protocol::opt_view(r.display_type),
        display_map: r.display_map,
    }
}

pub open spec fn first_range(raw: usize, ranges: Seq<RangeView>, k: int) -> Option<int>
    decreases ranges.len() - k,
{
    if k < 0 || k >= ranges.len() {
        None
    } else if ranges[k].from <= raw <= ranges[k].to {
        Some(k)
    } else {
        first_range(raw, ranges, k + 1)
    }
}

pub open spec fn first_chapter(raw: usize, k: int) -> Option<int>
    decreases CHAPTER_COUNT - k,
{
    if k < 0 || k >= CHAPTER_COUNT {
        None
    } else if chapter(k).1 <= raw <= chapter(k).1 + 2 {
        Some(k)
    } else {
        first_chapter(raw, k + 1)
    }
}

/// The route of a raw map id: by the first range that holds it, else by the
/// chapter that holds it, else one of the two invasion maps.
pub open spec fn spec_find_route(raw: usize, ranges: Seq<RangeView>) -> Option<RouteView> {
    match first_range(raw, ranges, 0) {
        Some(k) => {
            let r = ranges[k];
            let map = (raw - r.from) as usize;
            Some(RouteView {
                jdb_type: r.stage_type,
                jdb_map: map,
                display_id: r.stage_type + spec_pad_id(map),
                display_type: Some(r.stage_type),
                display_map: Some(map),
            })
        },
        None => match first_chapter(raw, 0) {
            Some(k) => Some(RouteView {
                jdb_type: chapter(k).2,
                jdb_map: (raw - chapter(k).1) as usize,
                display_id: decimal(raw as nat),
                display_type: None,
                display_map: None,
            }),
            None => if raw == 23_000 {
                Some(RouteView { jdb_type: "2_Inv"@, jdb_map: 0, display_id: "2_Inv000"@, display_type: Some("2_Inv"@), display_map: Some(0) })
            } else if raw == 38_000 {
                Some(RouteView { jdb_type: "2Z_Inv"@, jdb_map: 0, display_id: "2Z_Inv000"@, display_type: Some("2Z_Inv"@), display_map: Some(0) })
            } else {
                None
            },
        },
    }
}

fn own(s: &str) -> (r: String)
    ensures
        r@ == s@,
{
    string_of(chars_of(s).as_slice())
}

pub fn find_route(raw: usize, ranges: &Vec<StageTypeRange>) -> (r: Option<StageRoute>)
    ensures
        match r {
            Some(x) => spec_find_route(raw, range_views(ranges@)) == Some(route_view(x)),
            None => spec_find_route(raw, range_views(ranges@)) is None,
        },
{
    let ghost rv = range_views(ranges@);
    let mut k: usize = 0;
    while k < ranges.len()
        invariant
            k <= ranges@.len(),
            rv == range_views(ranges@),
            first_range(raw, rv, 0) == first_range(raw, rv, k as int),
        decreases ranges@.len() - k,
    {
        let r = &ranges[k];
        assert(rv[k as int] == range_view(*r));
        if r.from <= raw && raw <= r.to {
            let map = raw - r.from;
            let mut id = chars_of(r.stage_type.as_str());
            append(&mut id, pad_id(map).as_slice());
            return Some(StageRoute {
                jdb_type: own(r.stage_type.as_str()),
                jdb_map: map,
                display_id: string_of(id.as_slice()),
                display_type: Some(own(r.stage_type.as_str())),
                display_map: Some(map),
            });
        }
        k += 1;
    }
    let mut c: usize = 0;
    while c < CHAPTER_COUNT
        invariant
            c <= CHAPTER_COUNT,
            rv == range_views(ranges@),
            first_range(raw, rv, 0) is None,
            first_chapter(raw, 0) == first_chapter(raw, c as int),
        decreases CHAPTER_COUNT - c,
    {
        let (_, start, jdb) = chapter_exec(c);
        if start <= raw && raw <= start + 2 {
            assert(first_chapter(raw, c as int) == Some(c as int));
            let id = fmt_usize(raw);
            assert(id@ == decimal(raw as nat));
            return Some(StageRoute {
                jdb_type: own(jdb),
                jdb_map: raw - start,
                display_id: string_of(id.as_slice()),
                display_type: None,
                display_map: None,
            });
        }
        c += 1;
    }
    if raw == 23_000 {
        Some(StageRoute { jdb_type: own("2_Inv"), jdb_map: 0, display_id: own("2_Inv000"), display_type: Some(own("2_Inv")), display_map: Some(0) })
    } else if raw == 38_000 {
        Some(StageRoute { jdb_type: own("2Z_Inv"), jdb_map: 0, display_id: own("2Z_Inv000"), display_type: Some(own("2Z_Inv")), display_map: Some(0) })
    } else {
        None
    }
}

// ---------------------------------------------------------------------------
// Entries and their ids
// ---------------------------------------------------------------------------

pub enum StageKind {
    WholeMap { search_names: Vec<String> },
    Stage { stage_index: usize },
}

/// A map or a stage that the search can find.
pub struct StageEntry {
    pub kind: StageKind,
    pub raw_map_id: usize,
    pub display_id: String,
    pub display_name: String,
    pub jdb_type: String,
    pub jdb_map: usize,
    pub display_type: Option<String>,
    pub display_map: Option<usize>,
}

pub enum KindView {
    WholeMap { search_names: Seq<Seq<char>> },
    Stage { stage_index: usize },
}

pub struct EntryView {
    pub kind: KindView,
    pub raw_map_id: usize,
    pub display_id: Seq<char>,
    pub display_name: Seq<char>,
    pub jdb_type: Seq<char>,
    pub jdb_map: usize,
    pub display_type: Option<Seq<char>>,
    pub display_map: Option<usize>,
}

pub open spec fn entry_view(e: StageEntry) -> EntryView {
    EntryView {
        kind: match e.kind {
            StageKind::WholeMap { search_names } => KindView::WholeMap { search_names: crate::text::string_views(search_names@) },
            StageKind::Stage { stage_index } => KindView::Stage { stage_index },
        },
        raw_map_id: e.raw_map_id,
        display_id: e.display_id@,
        display_name: e.display_name@,
        jdb_type: e.jdb_type@,
        jdb_map: e.jdb_map,
        display_type: crate::protocol::opt_view(e.display_type),
        display_map: e.display_map,
    }
}

pub open spec fn entry_views(v: Seq<StageEntry>) -> Seq<EntryView> {
    v.map_values(|e: StageEntry| entry_view(e))
}

pub open spec fn stage_index_of(e: EntryView) -> Option<usize> {
    match e.kind {
        KindView::WholeMap { .. } => None,
        KindView::Stage { stage_index } => Some(stage_index),
    }
}

impl StageEntry {
    /// The stage's position within its map, none for a map.
    pub fn stage_index(&self) -> (r: Option<usize>)
        ensures
            r == stage_index_of(entry_view(*self)),
    {
        match self.kind {
            StageKind::WholeMap { .. } => None,
            StageKind::Stage { stage_index } => Some(stage_index),
        }
    }

    pub fn is_map(&self) -> (r: bool)
        ensures
            r == (entry_view(*self).kind is WholeMap),
    {
        match self.kind {
            StageKind::WholeMap { .. } => true,
            StageKind::Stage { .. } => false,
        }
    }
}

/// `raw:{id}`, with `:stage:{index}` for a stage.
pub open spec fn spec_raw_id_key(raw: usize, stage: Option<usize>) -> Seq<char> {
    "raw:"@ + decimal(raw as nat) + match stage {
        Some(i) => ":stage:"@ + decimal(i as nat),
        None => ""@,
    }
}

/// `type:{type in lower case}:{map}`, with `:stage:{index}` for a stage.
pub open spec fn spec_type_id_key(t: Seq<char>, map: usize, stage: Option<usize>) -> Seq<char> {
    "type:"@ + lower_seq(t) + ":"@ + decimal(map as nat) + match stage {
        Some(i) => ":stage:"@ + decimal(i as nat),
        None => ""@,
    }
}

fn push_stage_suffix(v: &mut Vec<char>, stage: Option<usize>)
    ensures
        final(v)@ == old(v)@ + match stage {
            Some(i) => ":stage:"@ + decimal(i as nat),
            None => ""@,
        },
{
    proof {
        reveal_strlit("");
    }
    match stage {
        Some(i) => {
            let ghost before = v@;
            append_str(v, ":stage:");
            append(v, fmt_usize(i).as_slice());
            assert(v@ =~= before + (":stage:"@ + decimal(i as nat)));
        },
        None => {
            assert(v@ =~= v@ + ""@);
        },
    }
}

pub fn raw_id_key(raw: usize, stage: Option<usize>) -> (r: Vec<char>)
    ensures
        r@ == spec_raw_id_key(raw, stage),
{
    let mut v = text("raw:");
    append(&mut v, fmt_usize(raw).as_slice());
    push_stage_suffix(&mut v, stage);
    v
}

pub fn type_id_key(t: &[char], map: usize, stage: Option<usize>) -> (r: Vec<char>)
    ensures
        r@ == spec_type_id_key(t@, map, stage),
{
    let mut v = text("type:");
    append(&mut v, to_lower(t).as_slice());
    append_str(&mut v, ":");
    append(&mut v, fmt_usize(map).as_slice());
    push_stage_suffix(&mut v, stage);
    v
}

// ---------------------------------------------------------------------------
// Stages in order
// ---------------------------------------------------------------------------

/// The stage index of an entry, zero for a map: with the raw map id it orders
/// the stages.
pub open spec fn order_index(e: EntryView) -> usize {
    match stage_index_of(e) {
        Some(i) => i,
        None => 0,
    }
}

/// `a` comes no later than `b`: by raw map id, then by stage index.
pub open spec fn stage_le(a: EntryView, b: EntryView) -> bool {
    a.raw_map_id < b.raw_map_id || (a.raw_map_id == b.raw_map_id && order_index(a) <= order_index(b))
}

/// `x` put after every entry of `s` that comes no later than it.
pub open spec fn insert_stage(s: Seq<EntryView>, x: EntryView) -> Seq<EntryView>
    decreases s.len(),
{
    if s.len() == 0 || stage_le(s.last(), x) {
        s.push(x)
    } else {
        insert_stage(s.drop_last(), x).push(s.last())
    }
}

/// The entries of `xs` put one by one into `s`: a stable sort by raw map id
/// and stage index when `s` is empty.
pub open spec fn insert_all(s: Seq<EntryView>, xs: Seq<EntryView>) -> Seq<EntryView>
    decreases xs.len(),
{
    if xs.len() == 0 {
        s
    } else {
        insert_stage(insert_all(s, xs.drop_last()), xs.last())
    }
}

pub open spec fn stages_sorted(s: Seq<EntryView>) -> bool {
    forall|i: int, j: int| 0 <= i < j < s.len() ==> stage_le(s[i], s[j])
}

proof fn lemma_insert_all_concat(s: Seq<EntryView>, a: Seq<EntryView>, b: Seq<EntryView>)
    ensures
        insert_all(insert_all(s, a), b) == insert_all(s, a + b),
    decreases b.len(),
{
    if b.len() == 0 {
        assert(a + b =~= a);
    } else {
        lemma_insert_all_concat(s, a, b.drop_last());
        assert((a + b).drop_last() =~= a + b.drop_last());
        assert((a + b).last() == b.last());
    }
}

proof fn lemma_insert_stage_at(s: Seq<EntryView>, x: EntryView, j: int)
    requires
        0 <= j <= s.len(),
        forall|k: int| j <= k < s.len() ==> !stage_le(#[trigger] s[k], x),
        j == 0 || stage_le(s[j - 1], x),
    ensures
        insert_stage(s, x) == s.insert(j, x),
    decreases s.len(),
{
    if s.len() == j {
        assert(s.insert(j, x) =~= s.push(x));
    } else {
        let t = s.drop_last();
        assert forall|k: int| j <= k < t.len() implies !stage_le(#[trigger] t[k], x) by {
            assert(t[k] == s[k]);
        }
        if j > 0 {
            assert(t[j - 1] == s[j - 1]);
        }
        lemma_insert_stage_at(t, x, j);
        assert(t.insert(j, x).push(s.last()) =~= s.insert(j, x));
    }
}

/// Putting an entry into ordered stages keeps them in order.
pub proof fn lemma_insert_stage_sorted(s: Seq<EntryView>, x: EntryView)
    requires
        stages_sorted(s),
    ensures
        stages_sorted(insert_stage(s, x)),
        insert_stage(s, x).len() == s.len() + 1,
    decreases s.len(),
{
    if s.len() == 0 || stage_le(s.last(), x) {
        assert forall|i: int, j: int| 0 <= i < j < s.push(x).len() implies stage_le(s.push(x)[i], s.push(x)[j]) by {
            assert(s.push(x)[i] == s[i]);
            if j == s.len() {
                assert(s[s.len() - 1] == s.last());
                if i < s.len() - 1 {
                    assert(stage_le(s[i], s[s.len() - 1]));
                }
                assert(stage_le(s[i], x));
            } else {
                assert(s.push(x)[j] == s[j]);
            }
        }
    } else {
        let t = s.drop_last();
        assert(stages_sorted(t));
        lemma_insert_stage_sorted(t, x);
        let u = insert_stage(t, x);
        lemma_insert_stage_members(t, x);
        assert forall|k: int| 0 <= k < u.len() implies stage_le(#[trigger] u[k], s.last()) by {
            if u[k] != x {
                let i = choose|i: int| 0 <= i < t.len() && t[i] == u[k];
                assert(s[i] == u[k]);
                assert(s[s.len() - 1] == s.last());
            }
        }
        assert forall|i: int, j: int| 0 <= i < j < u.push(s.last()).len() implies stage_le(u.push(s.last())[i], u.push(s.last())[j]) by {
            if j == u.len() {
                assert(u.push(s.last())[j] == s.last());
                assert(u.push(s.last())[i] == u[i]);
            } else {
                assert(u.push(s.last())[i] == u[i]);
                assert(u.push(s.last())[j] == u[j]);
            }
        }
    }
}

proof fn lemma_insert_stage_members(s: Seq<EntryView>, x: EntryView)
    ensures
        insert_stage(s, x).len() == s.len() + 1,
        forall|k: int| 0 <= k < s.len() + 1 ==> (#[trigger] insert_stage(s, x)[k] == x || s.contains(insert_stage(s, x)[k])),
    decreases s.len(),
{
    if s.len() == 0 || stage_le(s.last(), x) {
        assert forall|k: int| 0 <= k < s.len() + 1 implies (#[trigger] insert_stage(s, x)[k] == x || s.contains(insert_stage(s, x)[k])) by {
            if k < s.len() {
                assert(insert_stage(s, x)[k] == s[k]);
            }
        }
    } else {
        let t = s.drop_last();
        lemma_insert_stage_members(t, x);
        assert forall|k: int| 0 <= k < s.len() + 1 implies (#[trigger] insert_stage(s, x)[k] == x || s.contains(insert_stage(s, x)[k])) by {
            if k < s.len() {
                let e = insert_stage(t, x)[k];
                assert(insert_stage(s, x)[k] == e);
                if e != x {
                    let i = choose|i: int| 0 <= i < t.len() && t[i] == e;
                    assert(s[i] == e);
                }
            } else {
                assert(insert_stage(s, x)[k] == s.last());
                assert(s[s.len() - 1] == s.last());
            }
        }
    }
}

/// Stages put in one by one, from none, come out ordered by raw map id and
/// stage index.
pub proof fn lemma_insert_all_sorted(s: Seq<EntryView>, xs: Seq<EntryView>)
    requires
        stages_sorted(s),
    ensures
        stages_sorted(insert_all(s, xs)),
        insert_all(s, xs).len() == s.len() + xs.len(),
    decreases xs.len(),
{
    if xs.len() > 0 {
        lemma_insert_all_sorted(s, xs.drop_last());
        lemma_insert_stage_sorted(insert_all(s, xs.drop_last()), xs.last());
    }
}

fn stage_le_exec(a: &StageEntry, b: &StageEntry) -> (r: bool)
    ensures
        r == stage_le(entry_view(*a), entry_view(*b)),
{
    let ia = match a.stage_index() {
        Some(i) => i,
        None => 0,
    };
    let ib = match b.stage_index() {
        Some(i) => i,
        None => 0,
    };
    a.raw_map_id < b.raw_map_id || (a.raw_map_id == b.raw_map_id && ia <= ib)
}

fn insert_in_order(target: &mut Vec<StageEntry>, x: StageEntry)
    ensures
        entry_views(final(target)@) == insert_stage(entry_views(old(target)@), entry_view(x)),
{
    let ghost before = entry_views(target@);
    let mut j: usize = target.len();
    while j > 0 && !stage_le_exec(&target[j - 1], &x)
        invariant
            j <= target@.len(),
            before == entry_views(target@),
            forall|k: int| j <= k < before.len() ==> !stage_le(#[trigger] before[k], entry_view(x)),
        decreases j,
    {
        j -= 1;
    }
    proof {
        lemma_insert_stage_at(before, entry_view(x), j as int);
    }
    target.insert(j, x);
    assert(entry_views(target@) =~= before.insert(j as int, entry_view(x)));
}

// ---------------------------------------------------------------------------
// Stage entries from name files
// ---------------------------------------------------------------------------

/// The stage at `idx` of map `map` of a name file whose first raw map id is
/// `start`; `dt` is the display type of its maps, if they have one.
pub open spec fn stage_entry(
    start: usize,
    map: int,
    idx: int,
    name: Seq<char>,
    jdb: Seq<char>,
    dt: Option<Seq<char>>,
) -> EntryView {
    let raw = (start + map) as usize;
    let map_id = match dt {
        Some(t) => t + spec_pad_id(map as usize),
        None => decimal(raw as nat),
    };
    EntryView {
        kind: KindView::Stage { stage_index: idx as usize },
        raw_map_id: raw,
        display_id: map_id + "-"@ + spec_pad_id(idx as usize),
        display_name: name,
        jdb_type: jdb,
        jdb_map: map as usize,
        display_type: dt,
        display_map: match dt {
            Some(_) => Some(map as usize),
            None => None,
        },
    }
}

/// The stages of the first `n` cells of one row, skipping empty cells.
pub open spec fn cell_entries(
    row: Seq<Option<Seq<char>>>,
    start: usize,
    map: int,
    jdb: Seq<char>,
    dt: Option<Seq<char>>,
    n: int,
) -> Seq<EntryView>
    decreases n,
{
    if n <= 0 {
        Seq::empty()
    } else {
        cell_entries(row, start, map, jdb, dt, n - 1) + match row[n - 1] {
            Some(name) => seq![stage_entry(start, map, n - 1, name, jdb, dt)],
            None => Seq::empty(),
        }
    }
}

/// The stages of the first `n` rows of a name file, row `k` being map `k`.
pub open spec fn row_entries(
    rows: Seq<Seq<Option<Seq<char>>>>,
    start: usize,
    jdb: Seq<char>,
    dt: Option<Seq<char>>,
    n: int,
) -> Seq<EntryView>
    decreases n,
{
    if n <= 0 {
        Seq::empty()
    } else {
        row_entries(rows, start, jdb, dt, n - 1) + cell_entries(rows[n - 1], start, n - 1, jdb, dt, rows[n - 1].len() as int)
    }
}

pub open spec fn opt_chars(o: Option<&[char]>) -> Option<Seq<char>> {
    match o {
        Some(t) => Some(t@),
        None => None,
    }
}

fn copy_text(s: &String) -> (r: String)
    ensures
        r@ == s@,
{
    string_of(chars_of(s.as_str()).as_slice())
}

/// Puts the stages of a name file among `target`, keeping the order.
fn add_stages(
    target: &mut Vec<StageEntry>,
    rows: &Vec<Vec<Option<String>>>,
    start: usize,
    jdb: &[char],
    dt: Option<&[char]>,
)
    requires
        start + rows@.len() <= usize::MAX + 1,
    ensures
        entry_views(final(target)@) == insert_all(
            entry_views(old(target)@),
            row_entries(name_rows_views(rows@), start, jdb@, opt_chars(dt), rows@.len() as int),
        ),
{
    let ghost rv = name_rows_views(rows@);
    let ghost base = entry_views(target@);
    let ghost dtv = opt_chars(dt);
    let mut m: usize = 0;
    while m < rows.len()
        invariant
            m <= rows@.len(),
            start + rows@.len() <= usize::MAX + 1,
            rv == name_rows_views(rows@),
            dtv == opt_chars(dt),
            entry_views(target@) == insert_all(base, row_entries(rv, start, jdb@, dtv, m as int)),
        decreases rows@.len() - m,
    {
        let row = &rows[m];
        let ghost cells = rv[m as int];
        assert(cells == opt_name_views(row@));
        let ghost done = row_entries(rv, start, jdb@, dtv, m as int);
        let mut i: usize = 0;
        assert(done + cell_entries(cells, start, m as int, jdb@, dtv, 0) =~= done);
        while i < row.len()
            invariant
                i <= row@.len(),
                m < rows@.len(),
                start + rows@.len() <= usize::MAX + 1,
                cells == opt_name_views(row@),
                dtv == opt_chars(dt),
                entry_views(target@) == insert_all(base, done + cell_entries(cells, start, m as int, jdb@, dtv, i as int)),
            decreases row@.len() - i,
        {
            let ghost so_far = done + cell_entries(cells, start, m as int, jdb@, dtv, i as int);
            match &row[i] {
                Some(name) => {
                    let raw = start + m;
                    let mut id = match dt {
                        Some(t) => {
                            let mut v = slice(t, 0, t.len());
                            assert(v@ =~= t@);
                            append(&mut v, pad_id(m).as_slice());
                            v
                        },
                        None => fmt_usize(raw),
                    };
                    let ghost map_id = id@;
                    append_str(&mut id, "-");
                    append(&mut id, pad_id(i).as_slice());
                    assert(id@ =~= map_id + "-"@ + spec_pad_id(i));
                    let entry = StageEntry {
                        kind: StageKind::Stage { stage_index: i },
                        raw_map_id: raw,
                        display_id: string_of(id.as_slice()),
                        display_name: copy_text(name),
                        jdb_type: string_of(jdb),
                        jdb_map: m,
                        display_type: match dt {
                            Some(t) => Some(string_of(t)),
                            None => None,
                        },
                        display_map: match dt {
                            Some(_) => Some(m),
                            None => None,
                        },
                    };
                    let ghost ev = stage_entry(start, m as int, i as int, name@, jdb@, dtv);
                    assert(map_id == match dtv {
                        Some(t) => t + spec_pad_id(m),
                        None => decimal(raw as nat),
                    });
                    assert(entry_view(entry).display_id == ev.display_id);
                    assert(entry_view(entry).display_type == ev.display_type);
                    assert(entry_view(entry).kind == ev.kind);
                    assert(entry_view(entry) == ev);
                    insert_in_order(target, entry);
                    proof {
                        assert(cell_entries(cells, start, m as int, jdb@, dtv, i + 1) =~= cell_entries(cells, start, m as int, jdb@, dtv, i as int) + seq![ev]);
                        assert(done + cell_entries(cells, start, m as int, jdb@, dtv, i + 1) =~= so_far.push(ev));
                        assert(so_far.push(ev).drop_last() =~= so_far);
                    }
                },
                None => {
                    assert(cell_entries(cells, start, m as int, jdb@, dtv, i + 1) =~= cell_entries(cells, start, m as int, jdb@, dtv, i as int));
                },
            }
            i += 1;
        }
        assert(row_entries(rv, start, jdb@, dtv, m + 1) == done + cell_entries(cells, start, m as int, jdb@, dtv, row@.len() as int));
        m += 1;
    }
}

// ---------------------------------------------------------------------------
// The id index
// ---------------------------------------------------------------------------

/// What an id finds: a map or a stage, by its position in the data.
#[derive(Clone, Copy, Debug, PartialEq, Eq, Structural)]
pub enum IdTarget {
    WholeMap(usize),
    Stage(usize),
}

pub open spec fn index_view(v: Seq<(Vec<char>, IdTarget)>) -> Seq<(Seq<char>, IdTarget)> {
    v.map_values(|p: (Vec<char>, IdTarget)| (p.0@, p.1))
}

pub open spec fn has_key(index: Seq<(Seq<char>, IdTarget)>, key: Seq<char>) -> bool {
    exists|i: int| 0 <= i < index.len() && (#[trigger] index[i]).0 == key
}

/// A key added to the index; a key that is there already is refused.
pub open spec fn add_key(index: Seq<(Seq<char>, IdTarget)>, key: Seq<char>, t: IdTarget) -> Result<Seq<(Seq<char>, IdTarget)>, Seq<char>> {
    if has_key(index, key) {
        Err("duplicate stage search ID: "@ + key)
    } else {
        Ok(index.push((key, t)))
    }
}

pub open spec fn entry_raw_key(e: EntryView) -> Seq<char> {
    spec_raw_id_key(e.raw_map_id, stage_index_of(e))
}

/// The typed key of an entry that has a display type and map.
pub open spec fn entry_type_key(e: EntryView) -> Option<Seq<char>> {
    match (e.display_type, e.display_map) {
        (Some(t), Some(m)) => Some(spec_type_id_key(t, m, stage_index_of(e))),
        _ => None,
    }
}

/// The maps, then the stages, each with what an id of it finds.
pub open spec fn id_items(maps: Seq<EntryView>, stages: Seq<EntryView>) -> Seq<(EntryView, IdTarget)> {
    Seq::new(maps.len(), |i: int| (maps[i], IdTarget::WholeMap(i as usize))) + Seq::new(
        stages.len(),
        |i: int| (stages[i], IdTarget::Stage(i as usize)),
    )
}

/// The raw key of an entry, then its typed key, added to the index.
pub open spec fn index_step(prev: Seq<(Seq<char>, IdTarget)>, e: EntryView, t: IdTarget) -> Result<Seq<(Seq<char>, IdTarget)>, Seq<char>> {
    match add_key(prev, entry_raw_key(e), t) {
        Err(x) => Err(x),
        Ok(next) => match entry_type_key(e) {
            None => Ok(next),
            Some(k) => add_key(next, k, t),
        },
    }
}

/// The keys of the first `n` items: the raw key of each, then its typed key.
pub open spec fn index_upto(items: Seq<(EntryView, IdTarget)>, n: int) -> Result<Seq<(Seq<char>, IdTarget)>, Seq<char>>
    decreases n,
{
    if n <= 0 {
        Ok(Seq::empty())
    } else {
        match index_upto(items, n - 1) {
            Err(e) => Err(e),
            Ok(prev) => index_step(prev, items[n - 1].0, items[n - 1].1),
        }
    }
}

proof fn lemma_index_err(items: Seq<(EntryView, IdTarget)>, k: int, m: int, e: Seq<char>)
    requires
        0 <= k <= m,
        index_upto(items, k) == Err::<Seq<(Seq<char>, IdTarget)>, Seq<char>>(e),
    ensures
        index_upto(items, m) == Err::<Seq<(Seq<char>, IdTarget)>, Seq<char>>(e),
    decreases m - k,
{
    if m > k {
        lemma_index_err(items, k, m - 1, e);
    }
}

/// The target of the first entry with the key.
pub open spec fn lookup_key(index: Seq<(Seq<char>, IdTarget)>, key: Seq<char>) -> Option<IdTarget>
    decreases index.len(),
{
    if index.len() == 0 {
        None
    } else if index[0].0 == key {
        Some(index[0].1)
    } else {
        lookup_key(index.drop_first(), key)
    }
}

/// What a key leads to is among the targets of the index.
pub proof fn lemma_lookup_in(index: Seq<(Seq<char>, IdTarget)>, key: Seq<char>)
    ensures
        lookup_key(index, key) matches Some(t) ==> exists|j: int| 0 <= j < index.len() && (#[trigger] index[j]).1 == t,
    decreases index.len(),
{
    if index.len() > 0 && index[0].0 != key {
        lemma_lookup_in(index.drop_first(), key);
        if let Some(t) = lookup_key(index, key) {
            let j = choose|j: int| 0 <= j < index.drop_first().len() && (#[trigger] index.drop_first()[j]).1 == t;
            assert(index[j + 1] == index.drop_first()[j]);
        }
    }
}

pub open spec fn targets_within(index: Seq<(Seq<char>, IdTarget)>, maps: nat, stages: nat) -> bool {
    forall|i: int| 0 <= i < index.len() ==> match (#[trigger] index[i]).1 {
        IdTarget::WholeMap(k) => k < maps,
        IdTarget::Stage(k) => k < stages,
    }
}

fn add_id(index: &mut Vec<(Vec<char>, IdTarget)>, key: Vec<char>, t: IdTarget) -> (r: Result<(), StageDataError>)
    ensures
        match r {
            Ok(()) => add_key(index_view(old(index)@), key@, t) == Ok::<Seq<(Seq<char>, IdTarget)>, Seq<char>>(index_view(final(index)@)),
            Err(e) => add_key(index_view(old(index)@), key@, t) == Err::<Seq<(Seq<char>, IdTarget)>, Seq<char>>(e.reason@),
        },
{
    let ghost iv = index_view(index@);
    let mut i: usize = 0;
    while i < index.len()
        invariant
            i <= index@.len(),
            iv == index_view(index@),
            forall|j: int| 0 <= j < i ==> (#[trigger] iv[j]).0 != key@,
        decreases index@.len() - i,
    {
        if eq(index[i].0.as_slice(), key.as_slice()) {
            assert(iv[i as int].0 == key@);
            let mut msg = text("duplicate stage search ID: ");
            append(&mut msg, key.as_slice());
            return Err(StageDataError::new(msg));
        }
        i += 1;
    }
    index.push((key, t));
    assert(index_view(index@) =~= iv.push((key@, t)));
    Ok(())
}

// ---------------------------------------------------------------------------
// Display types
// ---------------------------------------------------------------------------

/// The order of display types: longer first (by UTF-8 length), then by text.
pub open spec fn dt_before(a: Seq<char>, b: Seq<char>) -> bool {
    byte_len(a) > byte_len(b) || (byte_len(a) == byte_len(b) && text_lt(a, b))
}

pub open spec fn dt_sorted(v: Seq<Seq<char>>) -> bool {
    forall|i: int, j: int| 0 <= i < j < v.len() ==> dt_before(v[i], v[j])
}

/// Some entry has the display type `t`.
pub open spec fn has_display_type(entries: Seq<EntryView>, t: Seq<char>) -> bool {
    exists|i: int| 0 <= i < entries.len() && (#[trigger] entries[i]).display_type == Some(t)
}

proof fn lemma_dt_order(a: Seq<char>, b: Seq<char>, c: Seq<char>)
    ensures
        !dt_before(a, a),
        dt_before(a, b) ==> !dt_before(b, a),
        a != b ==> dt_before(a, b) || dt_before(b, a),
        dt_before(a, b) && dt_before(b, c) ==> dt_before(a, c),
{
    lemma_text_lt_asymmetric(a, b);
    lemma_text_lt_total(a, b);
    if text_lt(a, b) && text_lt(b, c) {
        lemma_text_lt_transitive(a, b, c);
    }
}

fn byte_count(s: &[char]) -> (r: u128)
    ensures
        r == byte_len(s@),
{
    let mut n: u128 = 0;
    let mut i: usize = 0;
    while i < s.len()
        invariant
            i <= s@.len(),
            n == byte_len(s@.take(i as int)),
            n <= 4 * i,
        decreases s@.len() - i,
    {
        assert(s@.take(i + 1).drop_last() =~= s@.take(i as int));
        n = n + utf8_width_exec(s[i]) as u128;
        i += 1;
    }
    assert(s@.take(i as int) =~= s@);
    n
}

fn dt_before_exec(a: &[char], b: &[char]) -> (r: bool)
    ensures
        r == dt_before(a@, b@),
{
    let la = byte_count(a);
    let lb = byte_count(b);
    la > lb || (la == lb && text_less(a, b))
}

proof fn lemma_insert_contains(s: Seq<Seq<char>>, j: int, t: Seq<char>)
    requires
        0 <= j <= s.len(),
    ensures
        s.insert(j, t).to_set() == s.to_set().insert(t),
{
    let v = s.insert(j, t);
    assert forall|x: Seq<char>| v.contains(x) <==> (s.contains(x) || x == t) by {
        if v.contains(x) {
            let i = choose|i: int| 0 <= i < v.len() && v[i] == x;
            if i < j {
                assert(s[i] == x);
            } else if i > j {
                assert(s[i - 1] == x);
            }
        }
        if s.contains(x) {
            let i = choose|i: int| 0 <= i < s.len() && s[i] == x;
            if i < j {
                assert(v[i] == x);
            } else {
                assert(v[i + 1] == x);
            }
        }
        if x == t {
            assert(v[j] == x);
        }
    }
    assert(v.to_set() =~= s.to_set().insert(t));
}

/// Adds a display type to ordered distinct ones, keeping them so.
#[verifier::spinoff_prover]
fn add_display_type(list: &mut Vec<String>, t: &String)
    requires
        dt_sorted(texts(old(list)@)),
    ensures
        dt_sorted(texts(final(list)@)),
        texts(final(list)@).to_set() == texts(old(list)@).to_set().insert(t@),
{
    let ghost before = texts(list@);
    let tc = chars_of(t.as_str());
    let mut j: usize = 0;
    while j < list.len()
        invariant
            j <= list@.len(),
            before == texts(list@),
            tc@ == t@,
            forall|k: int| 0 <= k < j ==> dt_before(#[trigger] before[k], t@),
        ensures
            j <= list@.len(),
            forall|k: int| 0 <= k < j ==> dt_before(#[trigger] before[k], t@),
            j < list@.len() ==> !dt_before(before[j as int], t@),
        decreases list@.len() - j,
    {
        let cur = chars_of(list[j].as_str());
        assert(cur@ == before[j as int]);
        if !dt_before_exec(cur.as_slice(), tc.as_slice()) {
            break;
        }
        j += 1;
    }
    if j < list.len() && eq(chars_of(list[j].as_str()).as_slice(), tc.as_slice()) {
        assert(before[j as int] == t@);
        assert(before.contains(t@));
        assert(before.to_set() =~= before.to_set().insert(t@));
        return;
    }
    proof {
        assert forall|k: int| j <= k < before.len() implies dt_before(t@, #[trigger] before[k]) by {
            lemma_dt_order(before[j as int], t@, t@);
            lemma_dt_order(t@, before[j as int], before[k]);
            if k > j {
                assert(dt_before(before[j as int], before[k]));
            }
        }
    }
    list.insert(j, copy_text(t));
    assert(texts(list@) =~= before.insert(j as int, t@));
    assert forall|a: int, b: int| 0 <= a < b < texts(list@).len() implies dt_before(texts(list@)[a], texts(list@)[b]) by {
        let v = texts(list@);
        if b < j {
            assert(v[a] == before[a] && v[b] == before[b]);
        } else if b == j {
            assert(v[a] == before[a]);
        } else if a == j {
            assert(v[b] == before[b - 1]);
        } else if a < j {
            assert(v[a] == before[a] && v[b] == before[b - 1]);
            lemma_dt_order(before[a], t@, before[b - 1]);
        } else {
            assert(v[a] == before[a - 1] && v[b] == before[b - 1]);
        }
    }
    proof {
        lemma_insert_contains(before, j as int, t@);
    }
    assert(texts(old(list)@) == before);
}

// ---------------------------------------------------------------------------
// Maps
// ---------------------------------------------------------------------------

/// The name of the first pair with the id.
pub open spec fn name_of(list: Seq<(usize, Seq<char>)>, k: usize) -> Option<Seq<char>>
    decreases list.len(),
{
    if list.len() == 0 {
        None
    } else if list[0].0 == k {
        Some(list[0].1)
    } else {
        name_of(list.drop_first(), k)
    }
}

/// The sale name that a map of id 1000 or more takes as its alias.
pub open spec fn alias_of(sale: Seq<(usize, Seq<char>)>, raw: usize) -> Option<Seq<char>> {
    if raw >= 1_000 {
        name_of(sale, raw)
    } else {
        None
    }
}

/// A map name marked as an old one.
pub open spec fn is_old_name(name: Seq<char>) -> bool {
    spec_contains(name, "(旧)"@) || spec_contains(name, "（旧）"@)
}

/// A map: shown by its alias unless its name is an old one, found by its name
/// and by its alias.
pub open spec fn map_entry(raw: usize, name: Seq<char>, route: RouteView, alias: Option<Seq<char>>) -> EntryView {
    EntryView {
        kind: KindView::WholeMap {
            search_names: match alias {
                Some(a) => if a == name {
                    seq![name]
                } else {
                    seq![name, a]
                },
                None => seq![name],
            },
        },
        raw_map_id: raw,
        display_id: route.display_id,
        display_name: if is_old_name(name) {
            name
        } else {
            match alias {
                Some(a) => a,
                None => name,
            }
        },
        jdb_type: route.jdb_type,
        jdb_map: route.jdb_map,
        display_type: route.display_type,
        display_map: route.display_map,
    }
}

/// The maps of the first `n` names; a map without a route fails.
pub open spec fn map_list(
    names: Seq<(usize, Seq<char>)>,
    sale: Seq<(usize, Seq<char>)>,
    ranges: Seq<RangeView>,
    n: int,
) -> Result<Seq<EntryView>, Seq<char>>
    decreases n,
{
    if n <= 0 {
        Ok(Seq::empty())
    } else {
        match map_list(names, sale, ranges, n - 1) {
            Err(e) => Err(e),
            Ok(prev) => {
                let (raw, name) = names[n - 1];
                match spec_find_route(raw, ranges) {
                    None => Err("map ID "@ + decimal(raw as nat) + " has no JDB route"@),
                    Some(route) => Ok(prev.push(map_entry(raw, name, route, alias_of(sale, raw)))),
                }
            },
        }
    }
}

proof fn lemma_map_list_err(
    names: Seq<(usize, Seq<char>)>,
    sale: Seq<(usize, Seq<char>)>,
    ranges: Seq<RangeView>,
    k: int,
    m: int,
    e: Seq<char>,
)
    requires
        0 <= k <= m,
        map_list(names, sale, ranges, k) == Err::<Seq<EntryView>, Seq<char>>(e),
    ensures
        map_list(names, sale, ranges, m) == Err::<Seq<EntryView>, Seq<char>>(e),
    decreases m - k,
{
    if m > k {
        lemma_map_list_err(names, sale, ranges, k, m - 1, e);
    }
}

fn find_name(list: &Vec<(usize, String)>, k: usize) -> (r: Option<&String>)
    ensures
        match r {
            Some(s) => name_of(name_list_views(list@), k) == Some(s@),
            None => name_of(name_list_views(list@), k) is None,
        },
{
    let ghost lv = name_list_views(list@);
    let mut i: usize = 0;
    assert(lv.skip(0) =~= lv);
    while i < list.len()
        invariant
            i <= list@.len(),
            lv == name_list_views(list@),
            name_of(lv, k) == name_of(lv.skip(i as int), k),
        decreases list@.len() - i,
    {
        assert(lv.skip(i as int)[0] == lv[i as int]);
        if list[i].0 == k {
            return Some(&list[i].1);
        }
        assert(lv.skip(i as int).drop_first() =~= lv.skip(i + 1));
        i += 1;
    }
    None
}

fn make_map_entry(raw: usize, name: &String, route: StageRoute, alias: Option<&String>) -> (r: StageEntry)
    ensures
        entry_view(r) == map_entry(raw, name@, route_view(route), match alias {
            Some(a) => Some(a@),
            None => None,
        }),
{
    let nc = chars_of(name.as_str());
    let old_name = contains(nc.as_slice(), chars_of("(旧)").as_slice()) || contains(nc.as_slice(), chars_of("（旧）").as_slice());
    let display_name = if old_name {
        copy_text(name)
    } else {
        match alias {
            Some(a) => copy_text(a),
            None => copy_text(name),
        }
    };
    let mut search_names: Vec<String> = Vec::new();
    search_names.push(copy_text(name));
    match alias {
        Some(a) => {
            if !eq(chars_of(a.as_str()).as_slice(), nc.as_slice()) {
                search_names.push(copy_text(a));
            }
        },
        None => {},
    }
    let r = StageEntry {
        kind: StageKind::WholeMap { search_names },
        raw_map_id: raw,
        display_id: route.display_id,
        display_name,
        jdb_type: route.jdb_type,
        jdb_map: route.jdb_map,
        display_type: route.display_type,
        display_map: route.display_map,
    };
    assert(entry_view(r).kind == map_entry(raw, name@, route_view(route), match alias {
        Some(a) => Some(a@),
        None => None,
    }).kind) by {
        assert(crate::text::string_views(search_names@) =~= match alias {
            Some(a) => if a@ == name@ {
                seq![name@]
            } else {
                seq![name@, a@]
            },
            None => seq![name@],
        });
    }
    r
}

// ---------------------------------------------------------------------------
// Stages of the ranges and of the chapters
// ---------------------------------------------------------------------------

/// The name rows of the first file with the name.
pub open spec fn rows_of(list: Seq<(Seq<char>, Seq<Seq<Option<Seq<char>>>>)>, key: Seq<char>) -> Option<Seq<Seq<Option<Seq<char>>>>>
    decreases list.len(),
{
    if list.len() == 0 {
        None
    } else if list[0].0 == key {
        Some(list[0].1)
    } else {
        rows_of(list.drop_first(), key)
    }
}

pub open spec fn file_rows_views(v: Seq<(String, Vec<Vec<Option<String>>>)>) -> Seq<(Seq<char>, Seq<Seq<Option<Seq<char>>>>)> {
    v.map_values(|p: (String, Vec<Vec<Option<String>>>)| (p.0@, name_rows_views(p.1@)))
}

/// The stages of the first `n` ranges, in the order of their files; each
/// range needs its names, and no more rows than it has maps.
pub open spec fn range_stage_list(
    ranges: Seq<RangeView>,
    normal: Seq<(Seq<char>, Seq<Seq<Option<Seq<char>>>>)>,
    n: int,
) -> Result<Seq<EntryView>, Seq<char>>
    decreases n,
{
    if n <= 0 {
        Ok(Seq::empty())
    } else {
        match range_stage_list(ranges, normal, n - 1) {
            Err(e) => Err(e),
            Ok(prev) => {
                let r = ranges[n - 1];
                match rows_of(normal, r.stage_type) {
                    None => Err("missing stage names for "@ + r.stage_type),
                    Some(rows) => if rows.len() > 0 && rows.len() - 1 > r.to - r.from {
                        Err("stage names exceed the range for "@ + r.stage_type)
                    } else {
                        Ok(prev + row_entries(rows, r.from, r.stage_type, Some(r.stage_type), rows.len() as int))
                    },
                }
            },
        }
    }
}

/// The stages of the first `n` chapter files; each needs exactly three rows.
pub open spec fn chapter_stage_list(chapters: Seq<(Seq<char>, Seq<Seq<Option<Seq<char>>>>)>, n: int) -> Result<Seq<EntryView>, Seq<char>>
    decreases n,
{
    if n <= 0 {
        Ok(Seq::empty())
    } else {
        match chapter_stage_list(chapters, n - 1) {
            Err(e) => Err(e),
            Ok(prev) => {
                let (file, start, jdb) = chapter(n - 1);
                match rows_of(chapters, file) {
                    None => Err("missing "@ + file),
                    Some(rows) => if rows.len() != 3 {
                        Err(file + " must contain 3 rows"@)
                    } else {
                        Ok(prev + row_entries(rows, start, jdb, None, 3))
                    },
                }
            },
        }
    }
}

proof fn lemma_range_list_err(
    ranges: Seq<RangeView>,
    normal: Seq<(Seq<char>, Seq<Seq<Option<Seq<char>>>>)>,
    k: int,
    m: int,
    e: Seq<char>,
)
    requires
        0 <= k <= m,
        range_stage_list(ranges, normal, k) == Err::<Seq<EntryView>, Seq<char>>(e),
    ensures
        range_stage_list(ranges, normal, m) == Err::<Seq<EntryView>, Seq<char>>(e),
    decreases m - k,
{
    if m > k {
        lemma_range_list_err(ranges, normal, k, m - 1, e);
    }
}

proof fn lemma_chapter_list_err(chapters: Seq<(Seq<char>, Seq<Seq<Option<Seq<char>>>>)>, k: int, m: int, e: Seq<char>)
    requires
        0 <= k <= m,
        chapter_stage_list(chapters, k) == Err::<Seq<EntryView>, Seq<char>>(e),
    ensures
        chapter_stage_list(chapters, m) == Err::<Seq<EntryView>, Seq<char>>(e),
    decreases m - k,
{
    if m > k {
        lemma_chapter_list_err(chapters, k, m - 1, e);
    }
}

fn find_rows<'a>(list: &'a Vec<(String, Vec<Vec<Option<String>>>)>, key: &[char]) -> (r: Option<&'a Vec<Vec<Option<String>>>>)
    ensures
        match r {
            Some(rows) => rows_of(file_rows_views(list@), key@) == Some(name_rows_views(rows@)),
            None => rows_of(file_rows_views(list@), key@) is None,
        },
{
    let ghost lv = file_rows_views(list@);
    let mut i: usize = 0;
    assert(lv.skip(0) =~= lv);
    while i < list.len()
        invariant
            i <= list@.len(),
            lv == file_rows_views(list@),
            rows_of(lv, key@) == rows_of(lv.skip(i as int), key@),
        decreases list@.len() - i,
    {
        assert(lv.skip(i as int)[0] == lv[i as int]);
        if eq(chars_of(list[i].0.as_str()).as_slice(), key) {
            return Some(&list[i].1);
        }
        assert(lv.skip(i as int).drop_first() =~= lv.skip(i + 1));
        i += 1;
    }
    None
}

fn build_maps(
    names: &Vec<(usize, String)>,
    sale: &Vec<(usize, String)>,
    ranges: &Vec<StageTypeRange>,
) -> (r: Result<Vec<StageEntry>, StageDataError>)
    ensures
        match r {
            Ok(m) => map_list(name_list_views(names@), name_list_views(sale@), range_views(ranges@), names@.len() as int)
                == Ok::<Seq<EntryView>, Seq<char>>(entry_views(m@)),
            Err(e) => map_list(name_list_views(names@), name_list_views(sale@), range_views(ranges@), names@.len() as int)
                == Err::<Seq<EntryView>, Seq<char>>(e.reason@),
        },
{
    let ghost nv = name_list_views(names@);
    let ghost sv = name_list_views(sale@);
    let ghost rv = range_views(ranges@);
    let mut maps: Vec<StageEntry> = Vec::new();
    let mut i: usize = 0;
    assert(entry_views(maps@) =~= Seq::<EntryView>::empty());
    while i < names.len()
        invariant
            i <= names@.len(),
            nv == name_list_views(names@),
            sv == name_list_views(sale@),
            rv == range_views(ranges@),
            map_list(nv, sv, rv, i as int) == Ok::<Seq<EntryView>, Seq<char>>(entry_views(maps@)),
        decreases names@.len() - i,
    {
        let raw = names[i].0;
        assert(nv[i as int] == (raw, names@[i as int].1@));
        let route = match find_route(raw, ranges) {
            Some(x) => x,
            None => {
                let mut msg = text("map ID ");
                append(&mut msg, fmt_usize(raw).as_slice());
                append_str(&mut msg, " has no JDB route");
                proof {
                    lemma_map_list_err(nv, sv, rv, i + 1, names@.len() as int, msg@);
                }
                return Err(StageDataError::new(msg));
            },
        };
        let alias = if raw >= 1_000 {
            find_name(sale, raw)
        } else {
            None
        };
        let e = make_map_entry(raw, &names[i].1, route, alias);
        let ghost before = entry_views(maps@);
        maps.push(e);
        assert(entry_views(maps@) =~= before.push(entry_view(e)));
        i += 1;
    }
    Ok(maps)
}

/// The stages of the ranges, then of the chapters, ordered by raw map id and
/// stage index.
pub open spec fn spec_stage_data(
    ranges: Seq<RangeView>,
    normal: Seq<(Seq<char>, Seq<Seq<Option<Seq<char>>>>)>,
    chapters: Seq<(Seq<char>, Seq<Seq<Option<Seq<char>>>>)>,
) -> Result<Seq<EntryView>, Seq<char>> {
    match range_stage_list(ranges, normal, ranges.len() as int) {
        Err(e) => Err(e),
        Ok(a) => match chapter_stage_list(chapters, CHAPTER_COUNT as int) {
            Err(e) => Err(e),
            Ok(b) => Ok(insert_all(Seq::empty(), a + b)),
        },
    }
}

fn build_stages(
    ranges: &Vec<StageTypeRange>,
    normal: &Vec<(String, Vec<Vec<Option<String>>>)>,
    chapters: &Vec<(String, Vec<Vec<Option<String>>>)>,
) -> (r: Result<Vec<StageEntry>, StageDataError>)
    ensures
        match r {
            Ok(v) => spec_stage_data(range_views(ranges@), file_rows_views(normal@), file_rows_views(chapters@))
                == Ok::<Seq<EntryView>, Seq<char>>(entry_views(v@)),
            Err(e) => spec_stage_data(range_views(ranges@), file_rows_views(normal@), file_rows_views(chapters@))
                == Err::<Seq<EntryView>, Seq<char>>(e.reason@),
        },
{
    let ghost rv = range_views(ranges@);
    let ghost normv = file_rows_views(normal@);
    let ghost chv = file_rows_views(chapters@);
    let mut stages: Vec<StageEntry> = Vec::new();
    let ghost mut acc: Seq<EntryView> = Seq::empty();
    assert(entry_views(stages@) =~= insert_all(Seq::empty(), acc));
    let mut k: usize = 0;
    while k < ranges.len()
        invariant
            k <= ranges@.len(),
            rv == range_views(ranges@),
            normv == file_rows_views(normal@),
            range_stage_list(rv, normv, k as int) == Ok::<Seq<EntryView>, Seq<char>>(acc),
            entry_views(stages@) == insert_all(Seq::empty(), acc),
        decreases ranges@.len() - k,
    {
        let r = &ranges[k];
        assert(rv[k as int] == range_view(*r));
        let tc = chars_of(r.stage_type.as_str());
        let rows = match find_rows(normal, tc.as_slice()) {
            Some(x) => x,
            None => {
                let mut msg = text("missing stage names for ");
                append(&mut msg, tc.as_slice());
                proof {
                    lemma_range_list_err(rv, normv, k + 1, rv.len() as int, msg@);
                }
                return Err(StageDataError::new(msg));
            },
        };
        let n = rows.len();
        if n > 0 && (n - 1) as u128 + r.from as u128 > r.to as u128 {
            let mut msg = text("stage names exceed the range for ");
            append(&mut msg, tc.as_slice());
            proof {
                lemma_range_list_err(rv, normv, k + 1, rv.len() as int, msg@);
            }
            return Err(StageDataError::new(msg));
        }
        let ghost added = row_entries(name_rows_views(rows@), r.from, tc@, Some(tc@), n as int);
        add_stages(&mut stages, rows, r.from, tc.as_slice(), Some(tc.as_slice()));
        proof {
            lemma_insert_all_concat(Seq::empty(), acc, added);
            acc = acc + added;
        }
        k += 1;
    }
    let ghost a = acc;
    let ghost mut acc2: Seq<EntryView> = Seq::empty();
    assert(a + acc2 =~= a);
    let mut c: usize = 0;
    while c < CHAPTER_COUNT
        invariant
            c <= CHAPTER_COUNT,
            rv == range_views(ranges@),
            chv == file_rows_views(chapters@),
            normv == file_rows_views(normal@),
            range_stage_list(rv, normv, rv.len() as int) == Ok::<Seq<EntryView>, Seq<char>>(a),
            chapter_stage_list(chv, c as int) == Ok::<Seq<EntryView>, Seq<char>>(acc2),
            entry_views(stages@) == insert_all(Seq::empty(), a + acc2),
        decreases CHAPTER_COUNT - c,
    {
        let (file, start, jdb) = chapter_exec(c);
        let fc = chars_of(file);
        let rows = match find_rows(chapters, fc.as_slice()) {
            Some(x) => x,
            None => {
                let mut msg = text("missing ");
                append(&mut msg, fc.as_slice());
                proof {
                    lemma_chapter_list_err(chv, c + 1, CHAPTER_COUNT as int, msg@);
                }
                return Err(StageDataError::new(msg));
            },
        };
        if rows.len() != 3 {
            let mut msg = fc;
            append_str(&mut msg, " must contain 3 rows");
            proof {
                lemma_chapter_list_err(chv, c + 1, CHAPTER_COUNT as int, msg@);
            }
            return Err(StageDataError::new(msg));
        }
        let jc = chars_of(jdb);
        let ghost added = row_entries(name_rows_views(rows@), start, jc@, None, 3);
        add_stages(&mut stages, rows, start, jc.as_slice(), None);
        proof {
            lemma_insert_all_concat(Seq::empty(), a + acc2, added);
            assert(a + acc2 + added =~= a + (acc2 + added));
            acc2 = acc2 + added;
        }
        c += 1;
    }
    Ok(stages)
}

fn add_entry_keys(index: &mut Vec<(Vec<char>, IdTarget)>, e: &StageEntry, t: IdTarget, maps: usize, stages: usize) -> (r: Result<(), StageDataError>)
    requires
        targets_within(index_view(old(index)@), maps as nat, stages as nat),
        match t {
            IdTarget::WholeMap(k) => k < maps,
            IdTarget::Stage(k) => k < stages,
        },
    ensures
        match r {
            Ok(()) => index_step(index_view(old(index)@), entry_view(*e), t) == Ok::<Seq<(Seq<char>, IdTarget)>, Seq<char>>(index_view(final(index)@))
                && targets_within(index_view(final(index)@), maps as nat, stages as nat),
            Err(x) => index_step(index_view(old(index)@), entry_view(*e), t) == Err::<Seq<(Seq<char>, IdTarget)>, Seq<char>>(x.reason@),
        },
{
    let si = e.stage_index();
    let ghost before = index_view(index@);
    add_id(index, raw_id_key(e.raw_map_id, si), t)?;
    let ghost middle = index_view(index@);
    assert(targets_within(middle, maps as nat, stages as nat)) by {
        assert forall|j: int| 0 <= j < middle.len() implies match (#[trigger] middle[j]).1 {
            IdTarget::WholeMap(k) => k < maps,
            IdTarget::Stage(k) => k < stages,
        } by {
            if j < before.len() {
                assert(middle[j] == before[j]);
            }
        }
    }
    match (&e.display_type, e.display_map) {
        (Some(dt), Some(dm)) => {
            let key = type_id_key(chars_of(dt.as_str()).as_slice(), dm, si);
            add_id(index, key, t)?;
            let ghost after = index_view(index@);
            assert(targets_within(after, maps as nat, stages as nat)) by {
                assert forall|j: int| 0 <= j < after.len() implies match (#[trigger] after[j]).1 {
                    IdTarget::WholeMap(k) => k < maps,
                    IdTarget::Stage(k) => k < stages,
                } by {
                    if j < middle.len() {
                        assert(after[j] == middle[j]);
                    }
                }
            }
        },
        _ => {},
    }
    Ok(())
}

fn build_index(maps: &Vec<StageEntry>, stages: &Vec<StageEntry>) -> (r: Result<Vec<(Vec<char>, IdTarget)>, StageDataError>)
    ensures
        match r {
            Ok(ix) => index_upto(id_items(entry_views(maps@), entry_views(stages@)), (maps@.len() + stages@.len()) as int)
                == Ok::<Seq<(Seq<char>, IdTarget)>, Seq<char>>(index_view(ix@))
                && targets_within(index_view(ix@), maps@.len(), stages@.len()),
            Err(e) => index_upto(id_items(entry_views(maps@), entry_views(stages@)), (maps@.len() + stages@.len()) as int)
                == Err::<Seq<(Seq<char>, IdTarget)>, Seq<char>>(e.reason@),
        },
{
    let ghost items = id_items(entry_views(maps@), entry_views(stages@));
    let ghost total = maps@.len() + stages@.len();
    let mut index: Vec<(Vec<char>, IdTarget)> = Vec::new();
    assert(index_view(index@) =~= Seq::<(Seq<char>, IdTarget)>::empty());
    let mut i: usize = 0;
    while i < maps.len()
        invariant
            i <= maps@.len(),
            items == id_items(entry_views(maps@), entry_views(stages@)),
            total == maps@.len() + stages@.len(),
            index_upto(items, i as int) == Ok::<Seq<(Seq<char>, IdTarget)>, Seq<char>>(index_view(index@)),
            targets_within(index_view(index@), maps@.len(), stages@.len()),
        decreases maps@.len() - i,
    {
        assert(items[i as int] == (entry_view(maps@[i as int]), IdTarget::WholeMap(i)));
        match add_entry_keys(&mut index, &maps[i], IdTarget::WholeMap(i), maps.len(), stages.len()) {
            Ok(()) => {},
            Err(x) => {
                proof {
                    lemma_index_err(items, i + 1, total as int, x.reason@);
                }
                return Err(x);
            },
        }
        i += 1;
    }
    let mut j: usize = 0;
    while j < stages.len()
        invariant
            j <= stages@.len(),
            items == id_items(entry_views(maps@), entry_views(stages@)),
            total == maps@.len() + stages@.len(),
            index_upto(items, maps@.len() + j) == Ok::<Seq<(Seq<char>, IdTarget)>, Seq<char>>(index_view(index@)),
            targets_within(index_view(index@), maps@.len(), stages@.len()),
        decreases stages@.len() - j,
    {
        assert(items[maps@.len() + j] == (entry_view(stages@[j as int]), IdTarget::Stage(j)));
        match add_entry_keys(&mut index, &stages[j], IdTarget::Stage(j), maps.len(), stages.len()) {
            Ok(()) => {},
            Err(x) => {
                proof {
                    lemma_index_err(items, maps@.len() + j + 1, total as int, x.reason@);
                }
                return Err(x);
            },
        }
        j += 1;
    }
    Ok(index)
}

pub open spec fn display_type_set(entries: Seq<EntryView>) -> Set<Seq<char>> {
    Set::new(|t: Seq<char>| has_display_type(entries, t))
}

fn collect_display_types(entries: &Vec<StageEntry>, list: &mut Vec<String>)
    requires
        dt_sorted(texts(old(list)@)),
    ensures
        dt_sorted(texts(final(list)@)),
        texts(final(list)@).to_set() == texts(old(list)@).to_set().union(display_type_set(entry_views(entries@))),
{
    let ghost ev = entry_views(entries@);
    let ghost start = texts(list@).to_set();
    let mut i: usize = 0;
    assert(texts(list@).to_set() =~= start.union(display_type_set(ev.take(0))));
    while i < entries.len()
        invariant
            i <= entries@.len(),
            ev == entry_views(entries@),
            dt_sorted(texts(list@)),
            texts(list@).to_set() == start.union(display_type_set(ev.take(i as int))),
        decreases entries@.len() - i,
    {
        let ghost prev = texts(list@).to_set();
        assert(ev[i as int] == entry_view(entries@[i as int]));
        match &entries[i].display_type {
            Some(t) => {
                assert(ev[i as int].display_type == Some(t@));
                add_display_type(list, t);
                assert(texts(list@).to_set() == prev.insert(t@));
                assert forall|x: Seq<char>| has_display_type(ev.take(i + 1), x) <==> (has_display_type(ev.take(i as int), x) || x == t@) by {
                    if has_display_type(ev.take(i + 1), x) {
                        let j = choose|j: int| 0 <= j < ev.take(i + 1).len() && (#[trigger] ev.take(i + 1)[j]).display_type == Some(x);
                        if j < i {
                            assert(ev.take(i as int)[j] == ev[j]);
                        }
                    }
                    if has_display_type(ev.take(i as int), x) {
                        let j = choose|j: int| 0 <= j < ev.take(i as int).len() && (#[trigger] ev.take(i as int)[j]).display_type == Some(x);
                        assert(ev.take(i + 1)[j] == ev[j]);
                    }
                    if x == t@ {
                        assert(ev.take(i + 1)[i as int] == ev[i as int]);
                    }
                }
                assert forall|x: Seq<char>| texts(list@).to_set().contains(x) <==> start.union(display_type_set(ev.take(i + 1))).contains(x) by {
                    assert(display_type_set(ev.take(i + 1)).contains(x) == has_display_type(ev.take(i + 1), x));
                    assert(display_type_set(ev.take(i as int)).contains(x) == has_display_type(ev.take(i as int), x));
                }
                assert(texts(list@).to_set() =~= start.union(display_type_set(ev.take(i + 1))));
            },
            None => {
                assert(texts(list@).to_set() =~= start.union(display_type_set(ev.take(i + 1)))) by {
                    assert forall|x: Seq<char>| has_display_type(ev.take(i + 1), x) <==> has_display_type(ev.take(i as int), x) by {
                        if has_display_type(ev.take(i + 1), x) {
                            let j = choose|j: int| 0 <= j < ev.take(i + 1).len() && (#[trigger] ev.take(i + 1)[j]).display_type == Some(x);
                            assert(j != i);
                            assert(ev.take(i as int)[j] == ev[j]);
                        }
                        if has_display_type(ev.take(i as int), x) {
                            let j = choose|j: int| 0 <= j < ev.take(i as int).len() && (#[trigger] ev.take(i as int)[j]).display_type == Some(x);
                            assert(ev.take(i + 1)[j] == ev[j]);
                        }
                    }
                }
            },
        }
        i += 1;
    }
    assert(ev.take(i as int) =~= ev);
}

// ---------------------------------------------------------------------------
// The search data
// ---------------------------------------------------------------------------

/// What the stage search works on: the maps, the stages in order, the
/// display types and the index from ids to entries.
pub struct StageSearchData {
    pub maps: Vec<StageEntry>,
    pub stages: Vec<StageEntry>,
    pub display_types: Vec<String>,
    pub id_index: Vec<(Vec<char>, IdTarget)>,
}

pub struct SearchView {
    pub maps: Seq<EntryView>,
    pub stages: Seq<EntryView>,
    pub index: Seq<(Seq<char>, IdTarget)>,
}

impl View for StageSearchData {
    type V = SearchView;

    open spec fn view(&self) -> SearchView {
        SearchView { maps: entry_views(self.maps@), stages: entry_views(self.stages@), index: index_view(self.id_index@) }
    }
}

impl StageSearchData {
    /// Every id leads to an entry of the data, and the display types are
    /// those of the entries, distinct and in order.
    pub open spec fn wf(&self) -> bool {
        &&& targets_within(index_view(self.id_index@), self.maps@.len(), self.stages@.len())
        &&& dt_sorted(texts(self.display_types@))
        &&& texts(self.display_types@).to_set() == display_type_set(self@.maps + self@.stages)
    }
}

/// The search data of the configured ranges, the map names, the sale names
/// and the name files of the ranges and of the chapters: the maps in the
/// order of their names, the stages ordered by raw map id and stage index,
/// and every raw and typed id of them, none twice.
pub open spec fn spec_search_data(
    configured: Seq<RangeView>,
    names: Seq<(usize, Seq<char>)>,
    sale: Seq<(usize, Seq<char>)>,
    normal: Seq<(Seq<char>, Seq<Seq<Option<Seq<char>>>>)>,
    chapters: Seq<(Seq<char>, Seq<Seq<Option<Seq<char>>>>)>,
) -> Result<SearchView, Seq<char>> {
    match spec_all_ranges(configured) {
        Err(e) => Err(e),
        Ok(ranges) => match map_list(names, sale, ranges, names.len() as int) {
            Err(e) => Err(e),
            Ok(maps) => match spec_stage_data(ranges, normal, chapters) {
                Err(e) => Err(e),
                Ok(stages) => match index_upto(id_items(maps, stages), (maps.len() + stages.len()) as int) {
                    Err(e) => Err(e),
                    Ok(index) => Ok(SearchView { maps, stages, index }),
                },
            },
        },
    }
}

proof fn lemma_display_types_concat(a: Seq<EntryView>, b: Seq<EntryView>)
    ensures
        display_type_set(a + b) == display_type_set(a).union(display_type_set(b)),
{
    let c = a + b;
    assert forall|x: Seq<char>| has_display_type(c, x) <==> (has_display_type(a, x) || has_display_type(b, x)) by {
        if has_display_type(c, x) {
            let j = choose|j: int| 0 <= j < c.len() && (#[trigger] c[j]).display_type == Some(x);
            if j < a.len() {
                assert(a[j] == c[j]);
            } else {
                assert(b[j - a.len()] == c[j]);
            }
        }
        if has_display_type(a, x) {
            let j = choose|j: int| 0 <= j < a.len() && (#[trigger] a[j]).display_type == Some(x);
            assert(c[j] == a[j]);
        }
        if has_display_type(b, x) {
            let j = choose|j: int| 0 <= j < b.len() && (#[trigger] b[j]).display_type == Some(x);
            assert(c[a.len() + j] == b[j]);
        }
    }
    assert(display_type_set(a + b) =~= display_type_set(a).union(display_type_set(b)));
}

/// Builds the search data from what the sources gave: the configured stage
/// type ranges, the map names and sale names as tables by id (each id once,
/// in increasing order), and the stage name rows of
/// each range's type and of each chapter file.
pub fn build_search_data(
    configured_ranges: Vec<StageTypeRange>,
    map_names: Vec<(usize, String)>,
    sale_names: Vec<(usize, String)>,
    normal_stages: Vec<(String, Vec<Vec<Option<String>>>)>,
    chapter_stages: Vec<(String, Vec<Vec<Option<String>>>)>,
) -> (r: Result<StageSearchData, StageDataError>)
    requires
        ids_increasing(name_list_views(map_names@)),
        ids_increasing(name_list_views(sale_names@)),
    ensures
        match r {
            Ok(d) => spec_search_data(
                range_views(configured_ranges@),
                name_list_views(map_names@),
                name_list_views(sale_names@),
                file_rows_views(normal_stages@),
                file_rows_views(chapter_stages@),
            ) == Ok::<SearchView, Seq<char>>(d@) && d.wf(),
            Err(e) => spec_search_data(
                range_views(configured_ranges@),
                name_list_views(map_names@),
                name_list_views(sale_names@),
                file_rows_views(normal_stages@),
                file_rows_views(chapter_stages@),
            ) == Err::<SearchView, Seq<char>>(e.reason@),
        },
{
    let ranges = all_ranges(configured_ranges)?;
    let maps = build_maps(&map_names, &sale_names, &ranges)?;
    let stages = build_stages(&ranges, &normal_stages, &chapter_stages)?;
    let id_index = build_index(&maps, &stages)?;
    let mut display_types: Vec<String> = Vec::new();
    assert(texts(display_types@) =~= Seq::<Seq<char>>::empty());
    collect_display_types(&maps, &mut display_types);
    collect_display_types(&stages, &mut display_types);
    proof {
        lemma_display_types_concat(entry_views(maps@), entry_views(stages@));
        assert(Seq::<Seq<char>>::empty().to_set() =~= Set::<Seq<char>>::empty());
        assert(texts(display_types@).to_set() =~= display_type_set(entry_views(maps@) + entry_views(stages@)));
    }
    Ok(StageSearchData { maps, stages, display_types, id_index })
}

// ---------------------------------------------------------------------------
// Ids
// ---------------------------------------------------------------------------

/// A character that an id may hold: an ASCII letter or digit, `_` or `-`.
pub open spec fn id_char(c: char) -> bool {
    spec_is_alnum(c) || c == '_' || c == '-'
}

/// The typed key of `base` by the first display type that it starts with,
/// letter case aside; what follows the type must be a map number.
pub open spec fn typed_key(base: Seq<char>, stage: Option<usize>, types: Seq<Seq<char>>, k: int) -> Option<Seq<char>>
    decreases types.len() - k,
{
    if k < 0 || k >= types.len() {
        None
    } else {
        let t = types[k];
        if spec_starts_with(lower_seq(base), lower_seq(t)) {
            match spec_byte_get(base, byte_len(t), byte_len(base)) {
                None => None,
                Some(rest) => match parse_usize_spec(rest) {
                    None => None,
                    Some(m) => Some(spec_type_id_key(t, m, stage)),
                },
            }
        } else {
            typed_key(base, stage, types, k + 1)
        }
    }
}

/// An id query cut at its first `-`: the base, and the stage index after the
/// cut, which must be a number.
pub open spec fn id_parts(query: Seq<char>) -> Option<(Seq<char>, Option<usize>)> {
    match spec_split_once(query, "-"@) {
        Some((base, stage)) => if spec_contains(stage, "-"@) {
            None
        } else {
            match parse_usize_spec(stage) {
                Some(i) => Some((base, Some(i))),
                None => None,
            }
        },
        None => Some((query, None)),
    }
}

/// The index key of an id query: `{raw map id}` or `{display type}{map}`,
/// each with `-{stage index}` for a stage; anything else has none.
pub open spec fn spec_parse_id_key(query: Seq<char>, types: Seq<Seq<char>>) -> Option<Seq<char>> {
    if query.len() == 0 || !(forall|i: int| 0 <= i < query.len() ==> id_char(#[trigger] query[i])) {
        None
    } else {
        match id_parts(query) {
            None => None,
            Some((base, stage)) => if all_digits(base) {
                match parse_usize_spec(base) {
                    Some(raw) => Some(spec_raw_id_key(raw, stage)),
                    None => None,
                }
            } else {
                typed_key(base, stage, types, 0)
            },
        }
    }
}

proof fn lemma_byte_len_ascii(s: Seq<char>)
    requires
        forall|i: int| 0 <= i < s.len() ==> (#[trigger] s[i] as u32) <= 0x7F,
    ensures
        byte_len(s) == s.len(),
    decreases s.len(),
{
    if s.len() > 0 {
        assert(s[s.len() - 1] == s.last());
        assert forall|i: int| 0 <= i < s.drop_last().len() implies (#[trigger] s.drop_last()[i] as u32) <= 0x7F by {
            assert(s.drop_last()[i] == s[i]);
        }
        lemma_byte_len_ascii(s.drop_last());
    }
}

fn all_id_chars(q: &[char]) -> (r: bool)
    ensures
        r == (forall|i: int| 0 <= i < q@.len() ==> id_char(#[trigger] q@[i])),
{
    let mut i: usize = 0;
    while i < q.len()
        invariant
            i <= q@.len(),
            forall|j: int| 0 <= j < i ==> id_char(#[trigger] q@[j]),
        decreases q@.len() - i,
    {
        let c = q[i];
        if !(is_alnum(c) || c == '_' || c == '-') {
            return false;
        }
        i += 1;
    }
    true
}

/// The index key of an id query, as `spec_parse_id_key` says.
pub fn parse_id_key(query: &[char], display_types: &Vec<String>) -> (r: Option<Vec<char>>)
    ensures
        match r {
            Some(k) => spec_parse_id_key(query@, texts(display_types@)) == Some(k@),
            None => spec_parse_id_key(query@, texts(display_types@)) is None,
        },
{
    if query.len() == 0 || !all_id_chars(query) {
        return None;
    }
    proof {
        reveal_strlit("-");
    }
    let (base, stage) = match split_once_str(query, "-") {
        Some((b, st)) => {
            if contains(st.as_slice(), chars_of("-").as_slice()) {
                return None;
            }
            match parse_usize(st.as_slice()) {
                Some(i) => (b, Some(i)),
                None => {
                    return None;
                },
            }
        },
        None => {
            let b = slice(query, 0, query.len());
            assert(b@ =~= query@.take(query@.len() as int));
            (b, None)
        },
    };
    assert(base@.len() <= query@.len() && base@ == query@.take(base@.len() as int));
    assert(id_parts(query@) == Some((base@, stage)));
    assert forall|i: int| 0 <= i < base@.len() implies id_char(#[trigger] base@[i]) by {
        assert(base@[i] == query@[i]);
    }
    if is_all_digits(base.as_slice()) {
        return match parse_usize(base.as_slice()) {
            Some(raw) => Some(raw_id_key(raw, stage)),
            None => None,
        };
    }
    let ghost tv = texts(display_types@);
    assert(spec_parse_id_key(query@, tv) == typed_key(base@, stage, tv, 0));
    let lower = to_lower(base.as_slice());
    let mut k: usize = 0;
    while k < display_types.len()
        invariant
            k <= display_types@.len(),
            tv == texts(display_types@),
            lower@ == lower_seq(base@),
            forall|i: int| 0 <= i < base@.len() ==> id_char(#[trigger] base@[i]),
            spec_parse_id_key(query@, tv) == typed_key(base@, stage, tv, 0),
            typed_key(base@, stage, tv, 0) == typed_key(base@, stage, tv, k as int),
        decreases display_types@.len() - k,
    {
        let t = chars_of(display_types[k].as_str());
        assert(t@ == tv[k as int]);
        if starts_with(lower.as_slice(), to_lower(t.as_slice()).as_slice()) {
            assert forall|i: int| 0 <= i < t@.len() implies (#[trigger] t@[i] as u32) <= 0x7F by {
                assert(lower_seq(t@)[i] == lower_seq(base@)[i]);
                assert(id_char(base@[i]));
            }
            assert forall|i: int| 0 <= i < base@.len() implies (#[trigger] base@[i] as u32) <= 0x7F by {
                assert(id_char(base@[i]));
            }
            proof {
                lemma_byte_len_ascii(t@);
                lemma_byte_len_ascii(base@);
            }
            let rest = match byte_get(base.as_slice(), t.len(), base.len()) {
                Some(x) => x,
                None => {
                    return None;
                },
            };
            return match parse_usize(rest.as_slice()) {
                Some(m) => Some(type_id_key(t.as_slice(), m, stage)),
                None => None,
            };
        }
        k += 1;
    }
    None
}

impl StageSearchData {
    /// The map or stage that an id query names.
    pub fn find_by_id(&self, query: &str) -> (r: Option<&StageEntry>)
        requires
            self.wf(),
        ensures
            r == match spec_parse_id_key(spec_trim(query@), texts(self.display_types@)) {
                None => None,
                Some(key) => match lookup_key(self@.index, key) {
                    None => None,
                    Some(IdTarget::WholeMap(i)) => Some(&self.maps@[i as int]),
                    Some(IdTarget::Stage(i)) => Some(&self.stages@[i as int]),
                },
            },
    {
        let q = trim(chars_of(query).as_slice());
        let key = match parse_id_key(q.as_slice(), &self.display_types) {
            Some(k) => k,
            None => {
                return None;
            },
        };
        let ghost iv = self@.index;
        let mut i: usize = 0;
        assert(iv.skip(0) =~= iv);
        while i < self.id_index.len()
            invariant
                i <= self.id_index@.len(),
                self.wf(),
                iv == index_view(self.id_index@),
                spec_parse_id_key(spec_trim(query@), texts(self.display_types@)) == Some(key@),
                lookup_key(iv, key@) == lookup_key(iv.skip(i as int), key@),
            decreases self.id_index@.len() - i,
        {
            assert(iv.skip(i as int)[0] == iv[i as int]);
            if eq(self.id_index[i].0.as_slice(), key.as_slice()) {
                assert(targets_within(iv, self.maps@.len(), self.stages@.len()));
                assert(iv[i as int].1 == self.id_index@[i as int].1);
                return match self.id_index[i].1 {
                    IdTarget::WholeMap(k) => Some(&self.maps[k]),
                    IdTarget::Stage(k) => Some(&self.stages[k]),
                };
            }
            assert(iv.skip(i as int).drop_first() =~= iv.skip(i + 1));
            i += 1;
        }
        None
    }
}

impl StageEntry {
    /// The names that find the entry: a map's names, a stage's own name.
    pub fn search_names(&self) -> (r: Vec<String>)
        ensures
            crate::text::string_views(r@) == match entry_view(*self).kind {
                KindView::WholeMap { search_names } => search_names,
                KindView::Stage { .. } => seq![self.display_name@],
            },
    {
        let mut r: Vec<String> = Vec::new();
        match &self.kind {
            StageKind::WholeMap { search_names } => {
                let mut i: usize = 0;
                while i < search_names.len()
                    invariant
                        i <= search_names@.len(),
                        r@.len() == i,
                        forall|j: int| 0 <= j < i ==> (#[trigger] r@[j])@ == search_names@[j]@,
                    decreases search_names@.len() - i,
                {
                    let c = copy_text(&search_names[i]);
                    r.push(c);
                    i += 1;
                }
                assert(crate::text::string_views(r@) =~= crate::text::string_views(search_names@));
            },
            StageKind::Stage { .. } => {
                r.push(copy_text(&self.display_name));
                assert(crate::text::string_views(r@) =~= seq![self.display_name@]);
            },
        }
        r
    }
}

/// The stages of the search data come ordered by raw map id, then by stage
/// index.
pub proof fn lemma_stage_data_sorted(
    ranges: Seq<RangeView>,
    normal: Seq<(Seq<char>, Seq<Seq<Option<Seq<char>>>>)>,
    chapters: Seq<(Seq<char>, Seq<Seq<Option<Seq<char>>>>)>,
)
    requires
        spec_stage_data(ranges, normal, chapters) is Ok,
    ensures
        stages_sorted(spec_stage_data(ranges, normal, chapters)->Ok_0),
{
    let a = range_stage_list(ranges, normal, ranges.len() as int)->Ok_0;
    let b = chapter_stage_list(chapters, CHAPTER_COUNT as int)->Ok_0;
    lemma_insert_all_sorted(Seq::empty(), a + b);
}

// ---------------------------------------------------------------------------
// The documents the stage data is built from
// ---------------------------------------------------------------------------

pub const ASSET_RESOURCE_BASE: &'static str =
    "https://raw.githubusercontent.com/sinsuirakv0/KBC-rakv0-assets/main/jp/sitedata/res";

pub const CHAPTER_STAGE_BASE: &'static str = "https://raw.githubusercontent.com/Sugar2550/omoroirie/main/data";

pub const STAGE_TYPES_URL: &'static str =
    "https://raw.githubusercontent.com/sinsuirakv0/KBC-rakv0-event/main/data/stage_type.csv";

pub const MAP_NAMES_URL: &'static str =
    "https://raw.githubusercontent.com/sinsuirakv0/KBC-rakv0-assets/main/jp/sitedata/res/Map_Name.csv";

pub const SALE_NAMES_URL: &'static str =
    "https://raw.githubusercontent.com/sinsuirakv0/KBC-rakv0-event/main/data/sale_name.csv";

/// A document to download: the key it is kept under and the URLs to try in
/// order, the next one only where the previous one is missing.
pub struct DocumentRequest {
    pub key: String,
    pub candidates: Vec<String>,
}

pub open spec fn request_views(v: Seq<DocumentRequest>) -> Seq<(Seq<char>, Seq<Seq<char>>)> {
    v.map_values(|r: DocumentRequest| (r.key@, string_views(r.candidates@)))
}

/// The name file of a stage type: its `R` file, else its plain file.
pub open spec fn type_request(t: Seq<char>) -> (Seq<char>, Seq<Seq<char>>) {
    (
        "normal:"@ + t,
        seq![
            ASSET_RESOURCE_BASE@ + "/StageName_R"@ + t + "_ja.csv"@,
            ASSET_RESOURCE_BASE@ + "/StageName_"@ + t + "_ja.csv"@,
        ],
    )
}

pub open spec fn chapter_request(i: int) -> (Seq<char>, Seq<Seq<char>>) {
    ("chapter:"@ + chapter(i).0, seq![CHAPTER_STAGE_BASE@ + "/"@ + chapter(i).0])
}

/// The stage types whose name files are read: the normal type `N`, then the
/// configured ones.
pub open spec fn name_types(configured: Seq<RangeView>) -> Seq<Seq<char>> {
    seq!["N"@] + configured.map_values(|r: RangeView| r.stage_type)
}

/// The documents the stage data needs: the map names, the sale names, the
/// name file of each stage type and each chapter's file.
pub open spec fn spec_document_requests(configured: Seq<RangeView>) -> Seq<(Seq<char>, Seq<Seq<char>>)> {
    seq![("map"@, seq![MAP_NAMES_URL@]), ("sale"@, seq![SALE_NAMES_URL@])] + name_types(configured).map_values(
        |t: Seq<char>| type_request(t),
    ) + Seq::new(CHAPTER_COUNT as nat, |i: int| chapter_request(i))
}

fn single_request(key: &str, url: &str) -> (r: DocumentRequest)
    ensures
        r.key@ == key@,
        string_views(r.candidates@) == seq![url@],
{
    let mut candidates: Vec<String> = Vec::new();
    candidates.push(string_of(text(url).as_slice()));
    assert(string_views(candidates@) =~= seq![url@]);
    DocumentRequest { key: string_of(text(key).as_slice()), candidates }
}

fn joined(a: &str, b: &str, c: &[char], d: &str) -> (r: String)
    ensures
        r@ == a@ + b@ + c@ + d@,
{
    let mut v = text(a);
    append_str(&mut v, b);
    append(&mut v, c);
    append_str(&mut v, d);
    string_of(v.as_slice())
}

fn push_request(requests: &mut Vec<DocumentRequest>, r: DocumentRequest)
    ensures
        request_views(final(requests)@) == request_views(old(requests)@).push((r.key@, string_views(r.candidates@))),
{
    let ghost before = request_views(requests@);
    let ghost rv = (r.key@, string_views(r.candidates@));
    requests.push(r);
    assert(request_views(requests@) =~= before.push(rv));
}

fn type_request_exec(t: &[char]) -> (r: DocumentRequest)
    ensures
        (r.key@, string_views(r.candidates@)) == type_request(t@),
{
    let mut key = text("normal:");
    append(&mut key, t);
    let mut candidates: Vec<String> = Vec::new();
    candidates.push(joined(ASSET_RESOURCE_BASE, "/StageName_R", t, "_ja.csv"));
    candidates.push(joined(ASSET_RESOURCE_BASE, "/StageName_", t, "_ja.csv"));
    proof {
        reveal_strlit("/StageName_R");
        reveal_strlit("/StageName_");
        reveal_strlit("/");
        reveal_strlit("StageName_R");
        reveal_strlit("StageName_");
    }
    assert(string_views(candidates@) =~= type_request(t@).1);
    DocumentRequest { key: string_of(key.as_slice()), candidates }
}

/// The documents to download for the configured stage type ranges.
pub fn stage_document_requests(configured: &Vec<StageTypeRange>) -> (r: Vec<DocumentRequest>)
    ensures
        request_views(r@) == spec_document_requests(range_views(configured@)),
{
    let ghost target = spec_document_requests(range_views(configured@));
    let ghost types = name_types(range_views(configured@));
    let mut requests: Vec<DocumentRequest> = Vec::new();
    push_request(&mut requests, single_request("map", MAP_NAMES_URL));
    push_request(&mut requests, single_request("sale", SALE_NAMES_URL));
    let ghost head = seq![("map"@, seq![MAP_NAMES_URL@]), ("sale"@, seq![SALE_NAMES_URL@])];
    assert(request_views(requests@) =~= head);
    let ghost typed = types.map_values(|t: Seq<char>| type_request(t));
    push_request(&mut requests, type_request_exec(text("N").as_slice()));
    assert(typed[0] == type_request("N"@));
    let mut i: usize = 0;
    while i < configured.len()
        invariant
            i <= configured@.len(),
            types == name_types(range_views(configured@)),
            typed == types.map_values(|t: Seq<char>| type_request(t)),
            typed.len() == configured@.len() + 1,
            request_views(requests@) == head + typed.take(i + 1),
        decreases configured@.len() - i,
    {
        let ghost before = request_views(requests@);
        let t = text_of_string(&configured[i].stage_type);
        assert(types[i + 1] == configured@[i as int].stage_type@);
        push_request(&mut requests, type_request_exec(t.as_slice()));
        assert(typed.take(i + 2) =~= typed.take(i + 1).push(typed[i + 1]));
        i += 1;
    }
    assert(typed.take(i + 1) =~= typed);
    let ghost chapters = Seq::new(CHAPTER_COUNT as nat, |k: int| chapter_request(k));
    let mut k: usize = 0;
    while k < CHAPTER_COUNT
        invariant
            k <= CHAPTER_COUNT,
            chapters == Seq::new(CHAPTER_COUNT as nat, |k: int| chapter_request(k)),
            request_views(requests@) == head + typed + chapters.take(k as int),
        decreases CHAPTER_COUNT - k,
    {
        let (file, _, _) = chapter_exec(k);
        let mut key = text("chapter:");
        append_str(&mut key, file);
        let mut url = text(CHAPTER_STAGE_BASE);
        append_str(&mut url, "/");
        append_str(&mut url, file);
        let mut candidates: Vec<String> = Vec::new();
        candidates.push(string_of(url.as_slice()));
        assert(string_views(candidates@) =~= chapter_request(k as int).1);
        push_request(&mut requests, DocumentRequest { key: string_of(key.as_slice()), candidates });
        assert(chapters.take(k + 1) =~= chapters.take(k as int).push(chapters[k as int]));
        k += 1;
    }
    assert(chapters.take(k as int) =~= chapters);
    assert(request_views(requests@) =~= target);
    requests
}

fn text_of_string(s: &String) -> (r: Vec<char>)
    ensures
        r@ == s@,
{
    chars_of(s.as_str())
}

/// The text kept under a key: the first document downloaded for it.
pub open spec fn document_of(docs: Seq<(Seq<char>, Seq<char>)>, key: Seq<char>) -> Option<Seq<char>>
    decreases docs.len(),
{
    if docs.len() == 0 {
        None
    } else if docs[0].0 == key {
        Some(docs[0].1)
    } else {
        document_of(docs.drop_first(), key)
    }
}

pub open spec fn document_views(v: Seq<(String, String)>) -> Seq<(Seq<char>, Seq<char>)> {
    v.map_values(|p: (String, String)| (p.0@, p.1@))
}

pub open spec fn missing_document(key: Seq<char>) -> Seq<char> {
    "missing downloaded document: "@ + key
}

/// The name rows of the first `n` files, each read from the document kept
/// under its key and named by its name; the first missing or unreadable one
/// is reported.
pub open spec fn named_rows(
    docs: Seq<(Seq<char>, Seq<char>)>,
    files: Seq<(Seq<char>, Seq<char>)>,
    n: int,
) -> Result<Seq<(Seq<char>, Seq<Seq<Option<Seq<char>>>>)>, Seq<char>>
    decreases n,
{
    if n <= 0 {
        Ok(Seq::empty())
    } else {
        match named_rows(docs, files, n - 1) {
            Err(e) => Err(e),
            Ok(prev) => {
                let (key, name) = files[n - 1];
                match document_of(docs, key) {
                    None => Err(missing_document(key)),
                    Some(d) => match spec_parse_stage_names(d, key) {
                        Err(e) => Err(e),
                        Ok(rows) => Ok(prev.push((name, rows))),
                    },
                }
            },
        }
    }
}

pub open spec fn type_files(configured: Seq<RangeView>) -> Seq<(Seq<char>, Seq<char>)> {
    name_types(configured).map_values(|t: Seq<char>| ("normal:"@ + t, t))
}

pub open spec fn chapter_files() -> Seq<(Seq<char>, Seq<char>)> {
    Seq::new(CHAPTER_COUNT as nat, |i: int| ("chapter:"@ + chapter(i).0, chapter(i).0))
}

/// The stage search data from the configured ranges and the downloaded
/// documents (key and text): map names, sale names, each stage type's and
/// each chapter's name rows, in that order, the first failure reported.
pub open spec fn spec_assemble(configured: Seq<RangeView>, docs: Seq<(Seq<char>, Seq<char>)>) -> Result<
    SearchView,
    Seq<char>,
> {
    match document_of(docs, "map"@) {
        None => Err(missing_document("map"@)),
        Some(m) => match spec_parse_id_names(m, false, "Map_Name.csv"@) {
            Err(e) => Err(e),
            Ok(map_names) => match document_of(docs, "sale"@) {
                None => Err(missing_document("sale"@)),
                Some(sd) => match spec_parse_id_names(sd, true, "sale_name.csv"@) {
                    Err(e) => Err(e),
                    Ok(sale_names) => match named_rows(docs, type_files(configured), type_files(configured).len() as int) {
                        Err(e) => Err(e),
                        Ok(normal) => match named_rows(docs, chapter_files(), CHAPTER_COUNT as int) {
                            Err(e) => Err(e),
                            Ok(chapters) => spec_search_data(configured, map_names, sale_names, normal, chapters),
                        },
                    },
                },
            },
        },
    }
}

fn find_document<'a>(docs: &'a Vec<(String, String)>, key: &[char]) -> (r: Option<&'a String>)
    ensures
        match r {
            Some(d) => document_of(document_views(docs@), key@) == Some(d@),
            None => document_of(document_views(docs@), key@) is None,
        },
{
    let ghost dv = document_views(docs@);
    let mut i: usize = 0;
    assert(dv.skip(0) =~= dv);
    while i < docs.len()
        invariant
            i <= docs@.len(),
            dv == document_views(docs@),
            document_of(dv, key@) == document_of(dv.skip(i as int), key@),
        decreases docs@.len() - i,
    {
        assert(dv.skip(i as int)[0] == (docs@[i as int].0@, docs@[i as int].1@));
        assert(dv.skip(i as int).drop_first() =~= dv.skip(i + 1));
        let k = text_of_string(&docs[i].0);
        if eq(k.as_slice(), key) {
            return Some(&docs[i].1);
        }
        i += 1;
    }
    None
}

fn missing_error(key: &[char]) -> (r: StageDataError)
    ensures
        r.reason@ == missing_document(key@),
{
    let mut v = text("missing downloaded document: ");
    append(&mut v, key);
    StageDataError::new(v)
}

fn read_named_rows(docs: &Vec<(String, String)>, files: &Vec<(Vec<char>, Vec<char>)>) -> (r: Result<
    Vec<(String, Vec<Vec<Option<String>>>)>,
    StageDataError,
>)
    ensures
        ({
            let fv = files@.map_values(|p: (Vec<char>, Vec<char>)| (p.0@, p.1@));
            match r {
                Ok(v) => named_rows(document_views(docs@), fv, fv.len() as int) == Ok::<
                    Seq<(Seq<char>, Seq<Seq<Option<Seq<char>>>>)>,
                    Seq<char>,
                >(file_rows_views(v@)),
                Err(e) => named_rows(document_views(docs@), fv, fv.len() as int) == Err::<
                    Seq<(Seq<char>, Seq<Seq<Option<Seq<char>>>>)>,
                    Seq<char>,
                >(e.reason@),
            }
        }),
{
    let ghost fv = files@.map_values(|p: (Vec<char>, Vec<char>)| (p.0@, p.1@));
    let ghost dv = document_views(docs@);
    let mut out: Vec<(String, Vec<Vec<Option<String>>>)> = Vec::new();
    assert(file_rows_views(out@) =~= Seq::<(Seq<char>, Seq<Seq<Option<Seq<char>>>>)>::empty());
    let mut i: usize = 0;
    while i < files.len()
        invariant
            i <= files@.len(),
            fv == files@.map_values(|p: (Vec<char>, Vec<char>)| (p.0@, p.1@)),
            dv == document_views(docs@),
            named_rows(dv, fv, i as int) == Ok::<Seq<(Seq<char>, Seq<Seq<Option<Seq<char>>>>)>, Seq<char>>(
                file_rows_views(out@),
            ),
        decreases files@.len() - i,
    {
        assert(fv[i as int] == (files@[i as int].0@, files@[i as int].1@));
        let key = string_of(files[i].0.as_slice());
        let doc = match find_document(docs, files[i].0.as_slice()) {
            Some(d) => d,
            None => {
                proof {
                    lemma_named_rows_err(dv, fv, i as int + 1, fv.len() as int, missing_document(fv[i as int].0));
                }
                return Err(missing_error(files[i].0.as_slice()));
            },
        };
        match parse_stage_names(doc.as_str(), key.as_str()) {
            Ok(rows) => {
                let ghost before = file_rows_views(out@);
                let name = string_of(files[i].1.as_slice());
                out.push((name, rows));
                assert(file_rows_views(out@) =~= before.push((fv[i as int].1, name_rows_views(rows@))));
            },
            Err(e) => {
                proof {
                    lemma_named_rows_err(dv, fv, i as int + 1, fv.len() as int, e.reason@);
                }
                return Err(e);
            },
        }
        i += 1;
    }
    Ok(out)
}

proof fn lemma_named_rows_err(
    docs: Seq<(Seq<char>, Seq<char>)>,
    files: Seq<(Seq<char>, Seq<char>)>,
    k: int,
    m: int,
    e: Seq<char>,
)
    requires
        0 <= k <= m,
        named_rows(docs, files, k) == Err::<Seq<(Seq<char>, Seq<Seq<Option<Seq<char>>>>)>, Seq<char>>(e),
    ensures
        named_rows(docs, files, m) == Err::<Seq<(Seq<char>, Seq<Seq<Option<Seq<char>>>>)>, Seq<char>>(e),
    decreases m - k,
{
    if k < m {
        lemma_named_rows_err(docs, files, k, m - 1, e);
    }
}

/// Builds the stage search data from the configured ranges and the
/// downloaded documents, each given by its key and text.
pub fn assemble_stage_data(configured: Vec<StageTypeRange>, documents: &Vec<(String, String)>) -> (r: Result<
    StageSearchData,
    StageDataError,
>)
    ensures
        match r {
            Ok(d) => spec_assemble(range_views(configured@), document_views(documents@)) == Ok::<
                SearchView,
                Seq<char>,
            >(d@) && d.wf(),
            Err(e) => spec_assemble(range_views(configured@), document_views(documents@)) == Err::<
                SearchView,
                Seq<char>,
            >(e.reason@),
        },
{
    proof {
        reveal_strlit("map");
        reveal_strlit("sale");
    }
    let map_doc = match find_document(documents, text("map").as_slice()) {
        Some(d) => d,
        None => {
            return Err(missing_error(text("map").as_slice()));
        },
    };
    let map_names = parse_id_names(map_doc.as_str(), false, "Map_Name.csv")?;
    let sale_doc = match find_document(documents, text("sale").as_slice()) {
        Some(d) => d,
        None => {
            return Err(missing_error(text("sale").as_slice()));
        },
    };
    let sale_names = parse_id_names(sale_doc.as_str(), true, "sale_name.csv")?;
    let ghost types = name_types(range_views(configured@));
    let mut type_list: Vec<(Vec<char>, Vec<char>)> = Vec::new();
    let mut n_key = text("normal:");
    let n_name = text("N");
    append(&mut n_key, n_name.as_slice());
    let first = (n_key, n_name);
    type_list.push(first);
    assert(type_list@.map_values(|p: (Vec<char>, Vec<char>)| (p.0@, p.1@)) =~= type_files(range_views(configured@)).take(1));
    let mut i: usize = 0;
    while i < configured.len()
        invariant
            i <= configured@.len(),
            types == name_types(range_views(configured@)),
            type_list@.map_values(|p: (Vec<char>, Vec<char>)| (p.0@, p.1@)) == type_files(range_views(configured@)).take(i + 1),
        decreases configured@.len() - i,
    {
        let ghost before = type_list@.map_values(|p: (Vec<char>, Vec<char>)| (p.0@, p.1@));
        let t = text_of_string(&configured[i].stage_type);
        let mut key = text("normal:");
        append(&mut key, t.as_slice());
        let pair = (key, t);
        type_list.push(pair);
        assert(type_list@.map_values(|p: (Vec<char>, Vec<char>)| (p.0@, p.1@)) =~= before.push((pair.0@, pair.1@)));
        assert(type_files(range_views(configured@)).take(i + 2) =~= type_files(range_views(configured@)).take(i + 1).push(
            type_files(range_views(configured@))[i + 1],
        ));
        i += 1;
    }
    assert(type_files(range_views(configured@)).take(i + 1) =~= type_files(range_views(configured@)));
    let normal = read_named_rows(documents, &type_list)?;
    let mut chapter_list: Vec<(Vec<char>, Vec<char>)> = Vec::new();
    let mut k: usize = 0;
    while k < CHAPTER_COUNT
        invariant
            k <= CHAPTER_COUNT,
            chapter_list@.map_values(|p: (Vec<char>, Vec<char>)| (p.0@, p.1@)) == chapter_files().take(k as int),
        decreases CHAPTER_COUNT - k,
    {
        let ghost before = chapter_list@.map_values(|p: (Vec<char>, Vec<char>)| (p.0@, p.1@));
        let (file, _, _) = chapter_exec(k);
        let mut key = text("chapter:");
        append_str(&mut key, file);
        let pair = (key, text(file));
        chapter_list.push(pair);
        assert(chapter_list@.map_values(|p: (Vec<char>, Vec<char>)| (p.0@, p.1@)) =~= before.push((pair.0@, pair.1@)));
        assert(chapter_files().take(k + 1) =~= chapter_files().take(k as int).push(chapter_files()[k as int]));
        k += 1;
    }
    assert(chapter_files().take(k as int) =~= chapter_files());
    let chapters = read_named_rows(documents, &chapter_list)?;
    proof {
        lemma_parsed_names_by_id(map_doc@, false, "Map_Name.csv"@);
        lemma_parsed_names_by_id(sale_doc@, true, "sale_name.csv"@);
    }
    build_search_data(configured, map_names, sale_names, normal, chapters)
}

// ---------------------------------------------------------------------------
// Name lists are keyed by id
// ---------------------------------------------------------------------------

/// The ids of a name list increase strictly: each id once, in order.
pub open spec fn ids_increasing(s: Seq<(usize, Seq<char>)>) -> bool {
    forall|i: int, j: int| 0 <= i < j < s.len() ==> (#[trigger] s[i]).0 < (#[trigger] s[j]).0
}

proof fn lemma_insert_increasing(s: Seq<(usize, Seq<char>)>, k: usize, v: Seq<char>)
    requires
        ids_increasing(s),
        !id_list_has(s, k),
    ensures
        ids_increasing(insert_by_id(s, k, v)),
        insert_by_id(s, k, v).len() == s.len() + 1,
        insert_by_id(s, k, v)[0].0 == (if s.len() == 0 || k < s[0].0 {
            k
        } else {
            s[0].0
        }),
    decreases s.len(),
{
    let r = insert_by_id(s, k, v);
    if s.len() == 0 || k < s[0].0 {
        assert forall|i: int, j: int| 0 <= i < j < r.len() implies (#[trigger] r[i]).0 < (#[trigger] r[j]).0 by {
            if i == 0 {
                assert(r[j] == s[j - 1]);
                if j - 1 > 0 {
                    assert(s[0].0 < s[j - 1].0);
                }
            } else {
                assert(r[i] == s[i - 1] && r[j] == s[j - 1]);
            }
        }
    } else {
        let t = s.drop_first();
        assert(s[0].0 != k) by {
            assert(s[0] == s[0]);
        }
        assert forall|i: int, j: int| 0 <= i < j < t.len() implies (#[trigger] t[i]).0 < (#[trigger] t[j]).0 by {
            assert(t[i] == s[i + 1] && t[j] == s[j + 1]);
        }
        assert(!id_list_has(t, k)) by {
            if id_list_has(t, k) {
                let j = choose|j: int| 0 <= j < t.len() && (#[trigger] t[j]).0 == k;
                assert(s[j + 1] == t[j]);
            }
        }
        lemma_insert_increasing(t, k, v);
        let rt = insert_by_id(t, k, v);
        assert(r == seq![s[0]] + rt);
        if t.len() > 0 {
            assert(t[0] == s[1]);
        }
        assert forall|i: int, j: int| 0 <= i < j < r.len() implies (#[trigger] r[i]).0 < (#[trigger] r[j]).0 by {
            assert(r[j] == rt[j - 1]);
            if i == 0 {
                if j - 1 > 0 {
                    assert(rt[0].0 < rt[j - 1].0);
                }
            } else {
                assert(r[i] == rt[i - 1]);
            }
        }
    }
}

proof fn lemma_rows_increasing(ls: Seq<Seq<char>>, k: int, allow_negative: bool, label: Seq<char>)
    ensures
        id_name_rows(ls, k, allow_negative, label) matches Ok(names) ==> ids_increasing(names),
    decreases k,
{
    if k > 0 {
        lemma_rows_increasing(ls, k - 1, allow_negative, label);
        match id_name_rows(ls, k - 1, allow_negative, label) {
            Err(_) => {},
            Ok(names) => {
                let line = ls[k - 1];
                match crate::text::spec_split_once(line, ","@) {
                    None => {},
                    Some((id_text, name_text)) => {
                        match spec_st_usize(spec_trim(id_text), label) {
                            Err(_) => {},
                            Ok(id) => match spec_normalized_name(name_text) {
                                Ok(Some(name)) => {
                                    if !id_list_has(names, id) {
                                        lemma_insert_increasing(names, id, name);
                                    }
                                },
                                _ => {},
                            },
                        }
                    },
                }
            },
        }
    }
}

/// An `id,name` CSV is read into names by id, as a map keyed by id holds
/// them: each id once, in increasing order.
pub proof fn lemma_parsed_names_by_id(text: Seq<char>, allow_negative: bool, label: Seq<char>)
    ensures
        spec_parse_id_names(text, allow_negative, label) matches Ok(names) ==> ids_increasing(names),
{
    let ls = csv_lines(text);
    lemma_rows_increasing(ls, ls.len() as int, allow_negative, label);
}

// ---------------------------------------------------------------------------
// The display types follow from the entries
// ---------------------------------------------------------------------------

proof fn lemma_dt_before_asymmetric(a: Seq<char>, b: Seq<char>)
    ensures
        dt_before(a, b) ==> !dt_before(b, a),
        !dt_before(a, a),
{
    lemma_text_lt_asymmetric(a, b);
    lemma_text_lt_asymmetric(b, a);
}

/// Two lists in display type order that hold the same types are the same.
proof fn lemma_dt_sorted_unique(a: Seq<Seq<char>>, b: Seq<Seq<char>>)
    requires
        dt_sorted(a),
        dt_sorted(b),
        a.to_set() == b.to_set(),
    ensures
        a == b,
    decreases a.len(),
{
    if a.len() == 0 {
        if b.len() > 0 {
            assert(b.to_set().contains(b[0]));
        }
        assert(a =~= b);
    } else {
        assert(a.to_set().contains(a[0]));
        assert(b.len() > 0);
        assert(b.to_set().contains(b[0]));
        let k = choose|k: int| 0 <= k < b.len() && b[k] == a[0];
        let m = choose|m: int| 0 <= m < a.len() && a[m] == b[0];
        if k > 0 {
            lemma_dt_before_asymmetric(a[0], a[m]);
            if m == 0 {
                lemma_dt_before_asymmetric(b[0], b[k]);
            } else {
                assert(dt_before(a[0], a[m]));
                assert(dt_before(b[0], b[k]));
            }
        }
        assert(a[0] == b[0]);
        let ta = a.drop_first();
        let tb = b.drop_first();
        assert forall|i: int, j: int| 0 <= i < j < ta.len() implies dt_before(ta[i], ta[j]) by {
            assert(ta[i] == a[i + 1] && ta[j] == a[j + 1]);
        }
        assert forall|i: int, j: int| 0 <= i < j < tb.len() implies dt_before(tb[i], tb[j]) by {
            assert(tb[i] == b[i + 1] && tb[j] == b[j + 1]);
        }
        assert forall|x: Seq<char>| ta.to_set().contains(x) <==> tb.to_set().contains(x) by {
            if ta.to_set().contains(x) {
                let i = choose|i: int| 0 <= i < ta.len() && ta[i] == x;
                assert(a[i + 1] == x);
                assert(a.to_set().contains(x));
                assert(b.to_set().contains(x));
                let j = choose|j: int| 0 <= j < b.len() && b[j] == x;
                if j == 0 {
                    lemma_dt_before_asymmetric(a[0], a[0]);
                    assert(dt_before(a[0], a[i + 1]));
                } else {
                    assert(tb[j - 1] == x);
                }
            }
            if tb.to_set().contains(x) {
                let i = choose|i: int| 0 <= i < tb.len() && tb[i] == x;
                assert(b[i + 1] == x);
                assert(b.to_set().contains(x));
                assert(a.to_set().contains(x));
                let j = choose|j: int| 0 <= j < a.len() && a[j] == x;
                if j == 0 {
                    lemma_dt_before_asymmetric(b[0], b[0]);
                    assert(dt_before(b[0], b[i + 1]));
                } else {
                    assert(ta[j - 1] == x);
                }
            }
        }
        assert(ta.to_set() =~= tb.to_set());
        lemma_dt_sorted_unique(ta, tb);
        assert(a =~= seq![a[0]] + ta);
        assert(b =~= seq![b[0]] + tb);
    }
}

/// The display types of well-formed search data follow from its entries:
/// two such data with the same view have the same display types.
pub proof fn lemma_display_types_determined(d1: &StageSearchData, d2: &StageSearchData)
    requires
        d1.wf(),
        d2.wf(),
        d1@ == d2@,
    ensures
        texts(d1.display_types@) == texts(d2.display_types@),
{
    lemma_dt_sorted_unique(texts(d1.display_types@), texts(d2.display_types@));
}

} // verus!
