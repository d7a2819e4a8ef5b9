//! The index of the player's units: reading it, reading which forms share
//! images, and searching units by id, form name or alias.
use vstd::prelude::*;

use crate::search::{normalize_search_text, spec_normalize};
use crate::text::{
    all_digits, append, append_str, chars_of, decimal, fmt_i64, fmt_usize, is_all_digits, pad_zero, pad_zero_exec,
    parse_i64, parse_i64_spec, parse_usize, parse_usize_spec, spec_join, spec_lines, spec_trim, spec_words, split_char,
    split_fields, string_of, string_views, trim, views, words,
};
use crate::tut::{name_matches, spec_name_matches};
use crate::ut::{UnitBuy, UnitBuyEntry};

verus! {

// ---------------------------------------------------------------------------
// The character index
// ---------------------------------------------------------------------------

/// A unit as the index file gives it: its id, each form's name and
/// description, and its aliases.
pub struct RawCharacterUnit {
    pub id: String,
    pub forms: Vec<(String, String)>,
    pub aliases: Vec<String>,
}

pub struct CharacterUnit {
    pub id: String,
    pub forms: Vec<String>,
    pub aliases: Vec<String>,
}

pub struct CharacterIndex {
    pub units: Vec<CharacterUnit>,
}

pub struct UnitView {
    pub id: Seq<char>,
    pub forms: Seq<Seq<char>>,
    pub aliases: Seq<Seq<char>>,
}

pub open spec fn unit_view(u: CharacterUnit) -> UnitView {
    UnitView { id: u.id@, forms: string_views(u.forms@), aliases: string_views(u.aliases@) }
}

pub open spec fn unit_views(v: Seq<CharacterUnit>) -> Seq<UnitView> {
    v.map_values(|u: CharacterUnit| unit_view(u))
}

pub open spec fn raw_view(u: RawCharacterUnit) -> UnitView {
    UnitView {
        id: u.id@,
        forms: u.forms@.map_values(|f: (String, String)| f.0@),
        aliases: string_views(u.aliases@),
    }
}

pub open spec fn raw_views(v: Seq<RawCharacterUnit>) -> Seq<UnitView> {
    v.map_values(|u: RawCharacterUnit| raw_view(u))
}

/// The id a unit must have at a position: the position, three digits wide.
pub open spec fn padded(n: nat) -> Seq<char> {
    pad_zero(decimal(n), 3)
}

pub open spec fn blank(s: Seq<char>) -> bool {
    spec_trim(s).len() == 0
}

pub open spec fn distinct_texts(v: Seq<Seq<char>>) -> bool {
    forall|i: int, j: int| 0 <= i < j < v.len() ==> v[i] != v[j]
}

/// The first error of the unit at position `i`, if any.
pub open spec fn unit_error(u: UnitView, i: nat) -> Option<Seq<char>> {
    if u.id != padded(i) {
        Some("unit "@ + decimal(i) + " has an invalid id"@)
    } else if !(1 <= u.forms.len() <= 4) {
        Some("unit "@ + u.id + " forms must contain 1-4 items"@)
    } else if exists|k: int| 0 <= k < u.forms.len() && blank(#[trigger] u.forms[k]) {
        Some("unit "@ + u.id + " contains an invalid form"@)
    } else if (exists|k: int| 0 <= k < u.aliases.len() && blank(#[trigger] u.aliases[k])) || !distinct_texts(u.aliases) {
        Some("unit "@ + u.id + " aliases are invalid"@)
    } else {
        None
    }
}

/// The units read in order, up to the first that is invalid; an index
/// without units is refused.
pub open spec fn spec_character_index(units: Seq<UnitView>) -> Result<Seq<UnitView>, Seq<char>> {
    if units.len() == 0 {
        Err("units must be a non-empty array"@)
    } else {
        match first_unit_error(units, 0) {
            Some(e) => Err(e),
            None => Ok(units),
        }
    }
}

/// The error of the first invalid unit from position `k` on.
pub open spec fn first_unit_error(units: Seq<UnitView>, k: int) -> Option<Seq<char>>
    decreases units.len() - k,
{
    if k < 0 || k >= units.len() {
        None
    } else {
        match unit_error(units[k], k as nat) {
            Some(e) => Some(e),
            None => first_unit_error(units, k + 1),
        }
    }
}

fn any_blank(v: &Vec<String>) -> (r: bool)
    ensures
        r == exists|k: int| 0 <= k < v@.len() && blank(#[trigger] string_views(v@)[k]),
{
    let mut i: usize = 0;
    while i < v.len()
        invariant
            i <= v@.len(),
            forall|k: int| 0 <= k < i ==> !blank(#[trigger] string_views(v@)[k]),
        decreases v@.len() - i,
    {
        if trim(chars_of(v[i].as_str()).as_slice()).len() == 0 {
            assert(blank(string_views(v@)[i as int]));
            return true;
        }
        i += 1;
    }
    false
}

fn all_distinct(v: &Vec<String>) -> (r: bool)
    ensures
        r == distinct_texts(string_views(v@)),
{
    let ghost sv = string_views(v@);
    let mut i: usize = 0;
    while i < v.len()
        invariant
            i <= v@.len(),
            sv == string_views(v@),
            forall|a: int, b: int| 0 <= a < b < sv.len() && a < i ==> sv[a] != sv[b],
        decreases v@.len() - i,
    {
        let mut j: usize = i + 1;
        while j < v.len()
            invariant
                i < j <= v@.len(),
                sv == string_views(v@),
                forall|b: int| i < b < j ==> sv[i as int] != sv[b],
            decreases v@.len() - j,
        {
            if crate::text::eq(chars_of(v[i].as_str()).as_slice(), chars_of(v[j].as_str()).as_slice()) {
                assert(sv[i as int] == sv[j as int]);
                return false;
            }
            j += 1;
        }
        i += 1;
    }
    true
}

fn copy_text(s: &String) -> (r: String)
    ensures
        r@ == s@,
{
    string_of(chars_of(s.as_str()).as_slice())
}

proof fn lemma_first_error_prefix(units: Seq<UnitView>, k: int)
    requires
        0 <= k <= units.len(),
        forall|i: int| 0 <= i < k ==> unit_error(#[trigger] units[i], i as nat) is None,
    ensures
        first_unit_error(units, 0) == first_unit_error(units, k),
    decreases k,
{
    if k > 0 {
        lemma_first_error_prefix(units, k - 1);
        assert(unit_error(units[k - 1], (k - 1) as nat) is None);
    }
}

/// Checks the units of an index file, as `spec_character_index` says.
pub fn validate_character_index(raw: Vec<RawCharacterUnit>) -> (r: Result<CharacterIndex, String>)
    ensures
        match r {
            Ok(index) => spec_character_index(raw_views(raw@)) == Ok::<Seq<UnitView>, Seq<char>>(unit_views(index.units@)),
            Err(e) => spec_character_index(raw_views(raw@)) == Err::<Seq<UnitView>, Seq<char>>(e@),
        },
{
    let ghost rv = raw_views(raw@);
    if raw.len() == 0 {
        return Err(string_of(chars_of("units must be a non-empty array").as_slice()));
    }
    let mut units: Vec<CharacterUnit> = Vec::new();
    let mut i: usize = 0;
    while i < raw.len()
        invariant
            i <= raw@.len(),
            rv == raw_views(raw@),
            unit_views(units@) == rv.take(i as int),
            forall|k: int| 0 <= k < i ==> unit_error(#[trigger] rv[k], k as nat) is None,
        decreases raw@.len() - i,
    {
        let u = &raw[i];
        let ghost uv = rv[i as int];
        assert(uv == raw_view(*u));
        let mut forms: Vec<String> = Vec::new();
        let mut k: usize = 0;
        while k < u.forms.len()
            invariant
                k <= u.forms@.len(),
                uv == raw_view(*u),
                string_views(forms@) == uv.forms.take(k as int),
            decreases u.forms@.len() - k,
        {
            let ghost before = string_views(forms@);
            let f = copy_text(&u.forms[k].0);
            assert(uv.forms[k as int] == u.forms@[k as int].0@);
            forms.push(f);
            assert(string_views(forms@) =~= before.push(f@));
            assert(string_views(forms@) =~= uv.forms.take(k + 1));
            k += 1;
        }
        assert(uv.forms.take(k as int) =~= uv.forms);
        proof {
            lemma_first_error_prefix(rv, i as int);
        }
        let expected = pad_zero_exec(fmt_usize(i).as_slice(), 3);
        let id = chars_of(u.id.as_str());
        if !crate::text::eq(id.as_slice(), expected.as_slice()) {
            let mut m = chars_of("unit ");
            append(&mut m, fmt_usize(i).as_slice());
            append_str(&mut m, " has an invalid id");
            return Err(string_of(m.as_slice()));
        }
        if forms.len() < 1 || forms.len() > 4 {
            let mut m = chars_of("unit ");
            append(&mut m, id.as_slice());
            append_str(&mut m, " forms must contain 1-4 items");
            return Err(string_of(m.as_slice()));
        }
        if any_blank(&forms) {
            let mut m = chars_of("unit ");
            append(&mut m, id.as_slice());
            append_str(&mut m, " contains an invalid form");
            return Err(string_of(m.as_slice()));
        }
        if any_blank(&u.aliases) || !all_distinct(&u.aliases) {
            let mut m = chars_of("unit ");
            append(&mut m, id.as_slice());
            append_str(&mut m, " aliases are invalid");
            return Err(string_of(m.as_slice()));
        }
        let mut aliases: Vec<String> = Vec::new();
        let mut k: usize = 0;
        while k < u.aliases.len()
            invariant
                k <= u.aliases@.len(),
                uv == raw_view(*u),
                string_views(aliases@) == uv.aliases.take(k as int),
            decreases u.aliases@.len() - k,
        {
            let a = copy_text(&u.aliases[k]);
            let ghost before = string_views(aliases@);
            assert(uv.aliases[k as int] == u.aliases@[k as int]@);
            aliases.push(a);
            assert(string_views(aliases@) =~= before.push(a@));
            assert(string_views(aliases@) =~= uv.aliases.take(k + 1));
            k += 1;
        }
        assert(uv.aliases.take(k as int) =~= uv.aliases);
        let unit = CharacterUnit { id: copy_text(&u.id), forms, aliases };
        let ghost before = unit_views(units@);
        units.push(unit);
        assert(unit_views(units@) =~= before.push(unit_view(unit)));
        assert(rv.take(i + 1) =~= rv.take(i as int).push(uv));
        i += 1;
    }
    assert(rv.take(i as int) =~= rv);
    proof {
        lemma_first_error_prefix(rv, i as int);
    }
    Ok(CharacterIndex { units })
}

// ---------------------------------------------------------------------------
// Shared forms
// ---------------------------------------------------------------------------

pub open spec fn nonblank_lines(s: Seq<char>) -> Seq<Seq<char>> {
    spec_lines(crate::skd_parse::strip_boms(s)).filter(|l: Seq<char>| !blank(l))
}

pub struct BuyView {
    pub id: Seq<char>,
    pub shared: Seq<Option<Seq<char>>>,
}

pub open spec fn buy_view(e: UnitBuyEntry) -> BuyView {
    BuyView {
        id: e.id@,
        shared: seq![crate::protocol::opt_view(e.shared_form_ids[0]), crate::protocol::opt_view(e.shared_form_ids[1])],
    }
}

pub open spec fn buy_views(v: Seq<UnitBuyEntry>) -> Seq<BuyView> {
    v.map_values(|e: UnitBuyEntry| buy_view(e))
}

/// A shared form column: `-1` for none, else the id of the unit whose form
/// is shared, three digits wide; anything else is refused.
pub open spec fn shared_form(cell: Seq<char>) -> Result<Option<Seq<char>>, ()> {
    match parse_i64_spec(cell) {
        None => Err(()),
        Some(v) => if v < -1 {
            Err(())
        } else if v == -1 {
            Ok(None)
        } else {
            Ok(Some(pad_zero(decimal(v as nat), 3)))
        },
    }
}

/// The row at position `i`: at least 63 columns, the last two read as shared
/// forms.
pub open spec fn buy_row(line: Seq<char>, i: nat) -> Result<BuyView, Seq<char>> {
    let cols = split_fields(line, ',');
    if cols.len() < 63 {
        Err("row "@ + decimal(i) + " has too few columns"@)
    } else {
        match (shared_form(cols[61]), shared_form(cols[62])) {
            (Err(_), _) => Err("row "@ + decimal(i) + " form 0 is invalid"@),
            (Ok(_), Err(_)) => Err("row "@ + decimal(i) + " form 1 is invalid"@),
            (Ok(a), Ok(b)) => Ok(BuyView { id: padded(i), shared: seq![a, b] }),
        }
    }
}

pub open spec fn buy_rows(ls: Seq<Seq<char>>, n: int) -> Result<Seq<BuyView>, Seq<char>>
    decreases n,
{
    if n <= 0 {
        Ok(Seq::empty())
    } else {
        match buy_rows(ls, n - 1) {
            Err(e) => Err(e),
            Ok(prev) => match buy_row(ls[n - 1], (n - 1) as nat) {
                Err(e) => Err(e),
                Ok(row) => Ok(prev.push(row)),
            },
        }
    }
}

/// The rows of `unitbuy.csv` that are not blank, in order; none is refused.
pub open spec fn spec_unit_buy(text: Seq<char>) -> Result<Seq<BuyView>, Seq<char>> {
    let ls = nonblank_lines(text);
    match buy_rows(ls, ls.len() as int) {
        Err(e) => Err(e),
        Ok(rows) => if rows.len() == 0 {
            Err("no rows"@)
        } else {
            Ok(rows)
        },
    }
}

proof fn lemma_buy_rows_err(ls: Seq<Seq<char>>, k: int, m: int, e: Seq<char>)
    requires
        0 <= k <= m,
        buy_rows(ls, k) == Err::<Seq<BuyView>, Seq<char>>(e),
    ensures
        buy_rows(ls, m) == Err::<Seq<BuyView>, Seq<char>>(e),
    decreases m - k,
{
    if m > k {
        lemma_buy_rows_err(ls, k, m - 1, e);
    }
}

fn read_shared(cell: &Vec<char>) -> (r: Result<Option<String>, ()>)
    ensures
        match r {
            Ok(Some(s)) => shared_form(cell@) == Ok::<Option<Seq<char>>, ()>(Some(s@)),
            Ok(None) => shared_form(cell@) == Ok::<Option<Seq<char>>, ()>(None),
            Err(()) => shared_form(cell@) is Err,
        },
{
    match parse_i64(cell.as_slice()) {
        None => Err(()),
        Some(v) => {
            if v < -1 {
                Err(())
            } else if v == -1 {
                Ok(None)
            } else {
                let d = fmt_i64(v);
                assert(d@ == decimal(v as nat));
                Ok(Some(string_of(pad_zero_exec(d.as_slice(), 3).as_slice())))
            }
        },
    }
}

fn row_message(i: usize, tail: &str) -> (r: String)
    ensures
        r@ == "row "@ + decimal(i as nat) + tail@,
{
    let mut m = chars_of("row ");
    append(&mut m, fmt_usize(i).as_slice());
    append_str(&mut m, tail);
    string_of(m.as_slice())
}

fn nonblank_lines_exec(text: &str) -> (r: Vec<Vec<char>>)
    ensures
        views(r@) == nonblank_lines(text@),
{
    let stripped = crate::skd_parse::strip_boms_exec(chars_of(text).as_slice());
    let ls = crate::text::lines(stripped.as_slice());
    let ghost lv = views(ls@);
    let mut r: Vec<Vec<char>> = Vec::new();
    let mut i: usize = 0;
    proof {
        reveal(Seq::filter);
    }
    assert(lv.take(0).filter(|l: Seq<char>| !blank(l)) =~= Seq::<Seq<char>>::empty());
    while i < ls.len()
        invariant
            i <= ls@.len(),
            lv == views(ls@),
            views(r@) == lv.take(i as int).filter(|l: Seq<char>| !blank(l)),
        decreases ls@.len() - i,
    {
        proof {
            reveal(Seq::filter);
        }
        assert(lv.take(i + 1).drop_last() =~= lv.take(i as int));
        assert(lv.take(i + 1).last() == ls@[i as int]@);
        let ghost before = views(r@);
        if trim(ls[i].as_slice()).len() != 0 {
            let l = crate::text::slice(ls[i].as_slice(), 0, ls[i].len());
            assert(l@ =~= ls@[i as int]@);
            r.push(l);
            assert(views(r@) =~= before.push(l@));
        }
        assert(views(r@) =~= lv.take(i + 1).filter(|l: Seq<char>| !blank(l)));
        i += 1;
    }
    assert(lv.take(i as int) =~= lv);
    r
}

/// Reads `unitbuy.csv`, as `spec_unit_buy` says.
pub fn parse_unit_buy(text: &str) -> (r: Result<UnitBuy, String>)
    ensures
        match r {
            Ok(u) => spec_unit_buy(text@) == Ok::<Seq<BuyView>, Seq<char>>(buy_views(u.units@)),
            Err(e) => spec_unit_buy(text@) == Err::<Seq<BuyView>, Seq<char>>(e@),
        },
{
    let ls = nonblank_lines_exec(text);
    let ghost lv = views(ls@);
    let mut units: Vec<UnitBuyEntry> = Vec::new();
    let mut i: usize = 0;
    assert(buy_views(units@) =~= Seq::<BuyView>::empty());
    while i < ls.len()
        invariant
            i <= ls@.len(),
            lv == views(ls@),
            lv == nonblank_lines(text@),
            buy_rows(lv, i as int) == Ok::<Seq<BuyView>, Seq<char>>(buy_views(units@)),
        decreases ls@.len() - i,
    {
        assert(lv[i as int] == ls@[i as int]@);
        let cols = split_char(ls[i].as_slice(), ',');
        if cols.len() < 63 {
            let e = row_message(i, " has too few columns");
            proof {
                lemma_buy_rows_err(lv, i + 1, lv.len() as int, e@);
            }
            return Err(e);
        }
        assert(views(cols@)[61] == cols@[61]@ && views(cols@)[62] == cols@[62]@);
        let a = match read_shared(&cols[61]) {
            Ok(x) => x,
            Err(()) => {
                let e = row_message(i, " form 0 is invalid");
                proof {
                    lemma_buy_rows_err(lv, i + 1, lv.len() as int, e@);
                }
                return Err(e);
            },
        };
        let b = match read_shared(&cols[62]) {
            Ok(x) => x,
            Err(()) => {
                let e = row_message(i, " form 1 is invalid");
                proof {
                    lemma_buy_rows_err(lv, i + 1, lv.len() as int, e@);
                }
                return Err(e);
            },
        };
        let id = string_of(pad_zero_exec(fmt_usize(i).as_slice(), 3).as_slice());
        let entry = UnitBuyEntry { id, shared_form_ids: [a, b] };
        assert(buy_view(entry).shared =~= seq![crate::protocol::opt_view(entry.shared_form_ids[0]), crate::protocol::opt_view(entry.shared_form_ids[1])]);
        let ghost before = buy_views(units@);
        units.push(entry);
        assert(buy_views(units@) =~= before.push(buy_view(entry)));
        i += 1;
    }
    if units.len() == 0 {
        return Err(string_of(chars_of("no rows").as_slice()));
    }
    Ok(UnitBuy { units })
}

// ---------------------------------------------------------------------------
// Searching units
// ---------------------------------------------------------------------------

/// How a unit was found.
#[derive(Clone, Copy, Debug, PartialEq, Eq, Structural)]
pub enum MatchSource {
    Id,
    Form(usize),
    Alias,
}

pub struct UtSearchMatch {
    pub unit: CharacterUnit,
    pub source: MatchSource,
}

pub open spec fn match_view(m: UtSearchMatch) -> (UnitView, MatchSource) {
    (unit_view(m.unit), m.source)
}

pub open spec fn match_views(v: Seq<UtSearchMatch>) -> Seq<(UnitView, MatchSource)> {
    v.map_values(|m: UtSearchMatch| match_view(m))
}

/// The first form from `k` on whose name holds every word.
pub open spec fn first_form(forms: Seq<Seq<char>>, words: Seq<Seq<char>>, force: bool, k: int) -> Option<int>
    decreases forms.len() - k,
{
    if k < 0 || k >= forms.len() {
        None
    } else if spec_name_matches(forms[k], words, force) {
        Some(k)
    } else {
        first_form(forms, words, force, k + 1)
    }
}

/// How a unit is found by words: by its first matching form, else, unless
/// forced, by an alias.
pub open spec fn unit_match(u: UnitView, words: Seq<Seq<char>>, force: bool) -> Option<MatchSource> {
    match first_form(u.forms, words, force, 0) {
        Some(k) => Some(MatchSource::Form(k as usize)),
        None => if !force && exists|i: int| 0 <= i < u.aliases.len() && spec_name_matches(#[trigger] u.aliases[i], words, false) {
            Some(MatchSource::Alias)
        } else {
            None
        },
    }
}

pub open spec fn word_matches(units: Seq<UnitView>, words: Seq<Seq<char>>, force: bool, n: int) -> Seq<(UnitView, MatchSource)>
    decreases n,
{
    if n <= 0 {
        Seq::empty()
    } else {
        word_matches(units, words, force, n - 1) + match unit_match(units[n - 1], words, force) {
            Some(s) => seq![(units[n - 1], s)],
            None => Seq::empty(),
        }
    }
}

/// The number a match is ordered by: its unit's id, or the largest number
/// when the id is not one.
pub open spec fn order_key(m: (UnitView, MatchSource)) -> usize {
    match parse_usize_spec(m.0.id) {
        Some(v) => v,
        None => usize::MAX,
    }
}

pub open spec fn insert_by_key(s: Seq<(UnitView, MatchSource)>, x: (UnitView, MatchSource)) -> Seq<(UnitView, MatchSource)>
    decreases s.len(),
{
    if s.len() == 0 || order_key(s.last()) <= order_key(x) {
        s.push(x)
    } else {
        insert_by_key(s.drop_last(), x).push(s.last())
    }
}

/// The matches by id; matches of one id keep their order.
pub open spec fn sort_by_key(s: Seq<(UnitView, MatchSource)>) -> Seq<(UnitView, MatchSource)>
    decreases s.len(),
{
    if s.len() == 0 {
        s
    } else {
        insert_by_key(sort_by_key(s.drop_last()), s.last())
    }
}

/// The unit a digit query names, when its position holds the unit of that
/// id.
pub open spec fn id_unit(units: Seq<UnitView>, q: Seq<char>) -> Option<UnitView> {
    if all_digits(q) {
        match parse_usize_spec(q) {
            Some(id) => if id < units.len() && parse_usize_spec(units[id as int].id) == Some(id) {
                Some(units[id as int])
            } else {
                None
            },
            None => None,
        }
    } else {
        None
    }
}

/// The units that a query finds: unless forced, the unit of a digit id;
/// else those with a form or alias holding every word, ordered by id.
pub open spec fn spec_search_units(units: Seq<UnitView>, query: Seq<char>, force: bool) -> Seq<(UnitView, MatchSource)> {
    let trimmed = spec_trim(query);
    if trimmed.len() == 0 {
        Seq::empty()
    } else if !force && id_unit(units, trimmed) is Some {
        seq![(id_unit(units, trimmed)->Some_0, MatchSource::Id)]
    } else {
        let w = spec_words(
            if force {
                trimmed
            } else {
                spec_normalize(trimmed)
            },
        );
        sort_by_key(word_matches(units, w, force, units.len() as int))
    }
}

fn copy_unit(u: &CharacterUnit) -> (r: CharacterUnit)
    ensures
        unit_view(r) == unit_view(*u),
{
    CharacterUnit { id: copy_text(&u.id), forms: copy_texts(&u.forms), aliases: copy_texts(&u.aliases) }
}

fn copy_texts(v: &Vec<String>) -> (r: Vec<String>)
    ensures
        string_views(r@) == string_views(v@),
{
    let mut r: Vec<String> = Vec::new();
    let mut i: usize = 0;
    while i < v.len()
        invariant
            i <= v@.len(),
            r@.len() == i,
            forall|k: int| 0 <= k < i ==> (#[trigger] r@[k])@ == v@[k]@,
        decreases v@.len() - i,
    {
        r.push(copy_text(&v[i]));
        i += 1;
    }
    assert(string_views(r@) =~= string_views(v@));
    r
}

fn find_form(forms: &Vec<String>, words: &Vec<Vec<char>>, force: bool) -> (r: Option<usize>)
    ensures
        match r {
            Some(k) => first_form(string_views(forms@), views(words@), force, 0) == Some(k as int),
            None => first_form(string_views(forms@), views(words@), force, 0) is None,
        },
{
    let ghost fv = string_views(forms@);
    let mut k: usize = 0;
    while k < forms.len()
        invariant
            k <= forms@.len(),
            fv == string_views(forms@),
            first_form(fv, views(words@), force, 0) == first_form(fv, views(words@), force, k as int),
        decreases forms@.len() - k,
    {
        assert(fv[k as int] == forms@[k as int]@);
        if name_matches(forms[k].as_str(), words, force) {
            return Some(k);
        }
        k += 1;
    }
    None
}

fn alias_found(aliases: &Vec<String>, words: &Vec<Vec<char>>) -> (r: bool)
    ensures
        r == exists|i: int| 0 <= i < aliases@.len() && spec_name_matches(#[trigger] string_views(aliases@)[i], views(words@), false),
{
    let mut i: usize = 0;
    while i < aliases.len()
        invariant
            i <= aliases@.len(),
            forall|k: int| 0 <= k < i ==> !spec_name_matches(#[trigger] string_views(aliases@)[k], views(words@), false),
        decreases aliases@.len() - i,
    {
        if name_matches(aliases[i].as_str(), words, false) {
            assert(string_views(aliases@)[i as int] == aliases@[i as int]@);
            return true;
        }
        i += 1;
    }
    false
}

fn match_key(m: &UtSearchMatch) -> (r: usize)
    ensures
        r == order_key(match_view(*m)),
{
    match parse_usize(chars_of(m.unit.id.as_str()).as_slice()) {
        Some(v) => v,
        None => usize::MAX,
    }
}

proof fn lemma_insert_by_key(s: Seq<(UnitView, MatchSource)>, x: (UnitView, MatchSource), j: int)
    requires
        0 <= j <= s.len(),
        forall|k: int| j <= k < s.len() ==> order_key(#[trigger] s[k]) > order_key(x),
        j == 0 || order_key(s[j - 1]) <= order_key(x),
    ensures
        insert_by_key(s, x) == s.insert(j, x),
    decreases s.len(),
{
    if s.len() == j {
        assert(s.insert(j, x) =~= s.push(x));
    } else {
        let t = s.drop_last();
        assert forall|k: int| j <= k < t.len() implies order_key(#[trigger] t[k]) > order_key(x) by {
            assert(t[k] == s[k]);
        }
        if j > 0 {
            assert(t[j - 1] == s[j - 1]);
        }
        lemma_insert_by_key(t, x, j);
        assert(t.insert(j, x).push(s.last()) =~= s.insert(j, x));
    }
}

fn insert_match(v: &mut Vec<UtSearchMatch>, m: UtSearchMatch)
    ensures
        match_views(final(v)@) == insert_by_key(match_views(old(v)@), match_view(m)),
{
    let ghost before = match_views(v@);
    let key = match_key(&m);
    let mut j: usize = v.len();
    while j > 0
        invariant
            j <= v@.len(),
            before == match_views(v@),
            key == order_key(match_view(m)),
            forall|k: int| j <= k < before.len() ==> order_key(#[trigger] before[k]) > order_key(match_view(m)),
        ensures
            j <= v@.len(),
            forall|k: int| j <= k < before.len() ==> order_key(#[trigger] before[k]) > order_key(match_view(m)),
            j == 0 || order_key(before[j - 1]) <= order_key(match_view(m)),
        decreases j,
    {
        let kj = match_key(&v[j - 1]);
        assert(before[j - 1] == match_view(v@[j - 1]));
        if kj <= key {
            break;
        }
        j -= 1;
    }
    proof {
        lemma_insert_by_key(before, match_view(m), j as int);
    }
    v.insert(j, m);
    assert(match_views(v@) =~= before.insert(j as int, match_view(m)));
}

/// Finds units, as `spec_search_units` says.
pub fn search_character_index(index: &CharacterIndex, query: &str, force: bool) -> (r: Vec<UtSearchMatch>)
    ensures
        match_views(r@) == spec_search_units(unit_views(index.units@), query@, force),
{
    let ghost uv = unit_views(index.units@);
    let trimmed = trim(chars_of(query).as_slice());
    let mut r: Vec<UtSearchMatch> = Vec::new();
    if trimmed.len() == 0 {
        assert(match_views(r@) =~= Seq::<(UnitView, MatchSource)>::empty());
        return r;
    }
    if !force && is_all_digits(trimmed.as_slice()) {
        match parse_usize(trimmed.as_slice()) {
            Some(id) => {
                if id < index.units.len() && parse_usize(chars_of(index.units[id].id.as_str()).as_slice()) == Some(id) {
                    assert(uv[id as int] == unit_view(index.units@[id as int]));
                    r.push(UtSearchMatch { unit: copy_unit(&index.units[id]), source: MatchSource::Id });
                    assert(match_views(r@) =~= seq![(uv[id as int], MatchSource::Id)]);
                    return r;
                }
            },
            None => {},
        }
    }
    let searchable = if force {
        trimmed
    } else {
        chars_of(normalize_search_text(string_of(trimmed.as_slice()).as_str()).as_str())
    };
    let w = words(searchable.as_slice());
    let mut i: usize = 0;
    assert(match_views(r@) =~= sort_by_key(word_matches(uv, views(w@), force, 0)));
    while i < index.units.len()
        invariant
            i <= index.units@.len(),
            uv == unit_views(index.units@),
            match_views(r@) == sort_by_key(word_matches(uv, views(w@), force, i as int)),
        decreases index.units@.len() - i,
    {
        let u = &index.units[i];
        assert(uv[i as int] == unit_view(*u));
        let found = match find_form(&u.forms, &w, force) {
            Some(k) => Some(MatchSource::Form(k)),
            None => {
                if !force && alias_found(&u.aliases, &w) {
                    Some(MatchSource::Alias)
                } else {
                    None
                }
            },
        };
        proof {
            let ghost av = uv[i as int].aliases;
            assert(av == string_views(u.aliases@));
            assert((exists|a: int| 0 <= a < av.len() && spec_name_matches(#[trigger] av[a], views(w@), false)) == (exists|a: int|
                0 <= a < u.aliases@.len() && spec_name_matches(#[trigger] string_views(u.aliases@)[a], views(w@), false)));
        }
        assert(found == unit_match(uv[i as int], views(w@), force));
        match found {
            Some(source) => {
                let m = UtSearchMatch { unit: copy_unit(u), source };
                insert_match(&mut r, m);
                assert(word_matches(uv, views(w@), force, i + 1) =~= word_matches(uv, views(w@), force, i as int).push(
                    (uv[i as int], source),
                ));
                assert(word_matches(uv, views(w@), force, i + 1).drop_last() =~= word_matches(uv, views(w@), force, i as int));
            },
            None => {
                assert(word_matches(uv, views(w@), force, i + 1) =~= word_matches(uv, views(w@), force, i as int));
            },
        }
        i += 1;
    }
    r
}

// ---------------------------------------------------------------------------
// Messages
// ---------------------------------------------------------------------------

pub const DETAIL_PAGE_BASE_URL: &'static str = "https://jarjarblink.github.io/JDB";

/// The note on a unit found by an alias or by a later form's name.
pub open spec fn spec_annotation(s: MatchSource) -> Seq<char> {
    match s {
        MatchSource::Alias => " (別称でヒット)"@,
        MatchSource::Form(1) => " (第二形態名でヒット)"@,
        MatchSource::Form(2) => " (第三形態名でヒット)"@,
        MatchSource::Form(3) => " (第四形態名でヒット)"@,
        _ => ""@,
    }
}

pub fn match_annotation(m: &UtSearchMatch) -> (r: &'static str)
    ensures
        r@ == spec_annotation(m.source),
{
    match m.source {
        MatchSource::Alias => " (別称でヒット)",
        MatchSource::Form(1) => " (第二形態名でヒット)",
        MatchSource::Form(2) => " (第三形態名でヒット)",
        MatchSource::Form(3) => " (第四形態名でヒット)",
        _ => "",
    }
}

/// `{id} {first form's name}` and the note.
pub open spec fn spec_unit_label(m: (UnitView, MatchSource)) -> Seq<char> {
    m.0.id + " "@ + m.0.forms[0] + spec_annotation(m.1)
}

pub fn format_label(m: &UtSearchMatch) -> (r: String)
    requires
        m.unit.forms@.len() > 0,
    ensures
        r@ == spec_unit_label(match_view(*m)),
{
    let mut v = chars_of(m.unit.id.as_str());
    append_str(&mut v, " ");
    append(&mut v, chars_of(m.unit.forms[0].as_str()).as_slice());
    append_str(&mut v, match_annotation(m));
    string_of(v.as_slice())
}

/// The label, then the unit's page.
pub open spec fn spec_unit_detail(m: (UnitView, MatchSource)) -> Seq<char> {
    spec_unit_label(m) + "\n"@ + DETAIL_PAGE_BASE_URL@ + "/u000.html?cc=ja&unit="@ + m.0.id
}

pub fn format_detail(m: &UtSearchMatch) -> (r: String)
    requires
        m.unit.forms@.len() > 0,
    ensures
        r@ == spec_unit_detail(match_view(*m)),
{
    let mut v = chars_of(format_label(m).as_str());
    append_str(&mut v, "\n");
    append_str(&mut v, DETAIL_PAGE_BASE_URL);
    append_str(&mut v, "/u000.html?cc=ja&unit=");
    append(&mut v, chars_of(m.unit.id.as_str()).as_slice());
    string_of(v.as_slice())
}

pub open spec fn all_have_forms(ms: Seq<UtSearchMatch>) -> bool {
    forall|i: int| 0 <= i < ms.len() ==> (#[trigger] ms[i]).unit.forms@.len() > 0
}

/// The found units numbered with the reactions that choose them.
pub open spec fn unit_selection_lines(ms: Seq<(UnitView, MatchSource)>) -> Seq<Seq<char>> {
    Seq::new(ms.len(), |i: int| crate::maint::number_emojis()[i] + " "@ + spec_unit_label(ms[i]))
}

/// `味方キャラ「{query}」検索結果 1～{n}/{n}`, the lines in a text code block,
/// and the footer.
pub open spec fn spec_unit_selection(query: Seq<char>, ms: Seq<(UnitView, MatchSource)>, footer: Seq<char>) -> Seq<char> {
    "味方キャラ「"@ + query + "」検索結果 1～"@ + decimal(ms.len()) + "/"@ + decimal(ms.len()) + "\n```text\n"@
        + spec_join(unit_selection_lines(ms), "\n"@) + "\n```\n"@ + footer
}

pub fn format_selection(query: &str, matches: &Vec<UtSearchMatch>, footer: &str) -> (r: String)
    requires
        matches@.len() <= 9,
        all_have_forms(matches@),
    ensures
        r@ == spec_unit_selection(query@, match_views(matches@), footer@),
{
    let ghost mv = match_views(matches@);
    let mut lines: Vec<Vec<char>> = Vec::new();
    let mut i: usize = 0;
    while i < matches.len()
        invariant
            i <= matches@.len() <= 9,
            all_have_forms(matches@),
            mv == match_views(matches@),
            views(lines@) == unit_selection_lines(mv).take(i as int),
        decreases matches@.len() - i,
    {
        let emoji = crate::maint::number_emoji(i).unwrap();
        let mut line = chars_of(emoji);
        append_str(&mut line, " ");
        append(&mut line, chars_of(format_label(&matches[i]).as_str()).as_slice());
        let ghost before = views(lines@);
        let ghost lv = line@;
        assert(mv[i as int] == match_view(matches@[i as int]));
        lines.push(line);
        assert(views(lines@) =~= before.push(lv));
        assert(views(lines@) =~= unit_selection_lines(mv).take(i + 1));
        i += 1;
    }
    assert(unit_selection_lines(mv).take(i as int) =~= unit_selection_lines(mv));
    let mut v = chars_of("味方キャラ「");
    append(&mut v, chars_of(query).as_slice());
    append_str(&mut v, "」検索結果 1～");
    append(&mut v, fmt_usize(matches.len()).as_slice());
    append_str(&mut v, "/");
    append(&mut v, fmt_usize(matches.len()).as_slice());
    append_str(&mut v, "\n```text\n");
    append(&mut v, crate::text::join_str(lines.as_slice(), "\n").as_slice());
    append_str(&mut v, "\n```\n");
    append(&mut v, chars_of(footer).as_slice());
    string_of(v.as_slice())
}

/// One page of found units: `味方キャラ「{query}」検索結果 {first}～{last}/{n}`,
/// with `（{page}/{pages}ページ）` when asked, the labels of the page in a
/// text code block, and the footer.
pub open spec fn spec_unit_page(query: Seq<char>, ms: Seq<(UnitView, MatchSource)>, page_index: nat, footer: Seq<char>, include_page_count: bool) -> Seq<char> {
    let start: int = (page_index * 20) as int;
    let end: int = if start + 20 <= ms.len() {
        start + 20
    } else {
        ms.len() as int
    };
    "味方キャラ「"@ + query + "」検索結果 "@ + decimal((start + 1) as nat) + "～"@ + decimal(end as nat) + "/"@ + decimal(ms.len())
        + (if include_page_count {
        "（"@ + decimal(page_index + 1) + "/"@ + decimal(crate::st::page_count(ms.len())) + "ページ）"@
    } else {
        Seq::empty()
    }) + "\n```text\n"@ + spec_join(ms.subrange(start as int, end).map_values(|m: (UnitView, MatchSource)| spec_unit_label(m)), "\n"@)
        + "\n```\n"@ + footer
}

#[verifier::spinoff_prover]
#[verifier::rlimit(40)]
pub fn format_page(query: &str, matches: &Vec<UtSearchMatch>, page_index: usize, footer: &str, include_page_count: bool) -> (r: String)
    requires
        page_index * 20 <= matches@.len(),
        all_have_forms(matches@),
    ensures
        r@ == spec_unit_page(query@, match_views(matches@), page_index as nat, footer@, include_page_count),
{
    let ghost mv = match_views(matches@);
    let n = matches.len();
    let start = page_index * 20;
    let end = if n - start >= 20 {
        start + 20
    } else {
        n
    };
    let mut lines: Vec<Vec<char>> = Vec::new();
    let mut k: usize = start;
    while k < end
        invariant
            start <= k <= end <= n,
            n == matches@.len(),
            all_have_forms(matches@),
            mv == match_views(matches@),
            views(lines@) == mv.subrange(start as int, k as int).map_values(|m: (UnitView, MatchSource)| spec_unit_label(m)),
        decreases end - k,
    {
        let label = format_label(&matches[k]);
        assert(mv[k as int] == match_view(matches@[k as int]));
        let ghost before = views(lines@);
        let lc = chars_of(label.as_str());
        lines.push(lc);
        assert(views(lines@) =~= before.push(lc@));
        assert(views(lines@) =~= mv.subrange(start as int, k + 1).map_values(|m: (UnitView, MatchSource)| spec_unit_label(m)));
        k += 1;
    }
    let mut v = chars_of("味方キャラ「");
    append(&mut v, chars_of(query).as_slice());
    append_str(&mut v, "」検索結果 ");
    append(&mut v, fmt_usize(start + 1).as_slice());
    append_str(&mut v, "～");
    append(&mut v, fmt_usize(end).as_slice());
    append_str(&mut v, "/");
    append(&mut v, fmt_usize(n).as_slice());
    let ghost head = v@;
    if include_page_count {
        let count = n / 20 + if n % 20 == 0 {
            0
        } else {
            1
        };
        assert(count == crate::st::page_count(n as nat)) by (nonlinear_arith)
            requires
                count == n / 20 + if n % 20 == 0 {
                    0int
                } else {
                    1int
                },
        {
        }
        append_str(&mut v, "（");
        append(&mut v, fmt_usize(page_index + 1).as_slice());
        append_str(&mut v, "/");
        append(&mut v, fmt_usize(count).as_slice());
        append_str(&mut v, "ページ）");
    } else {
        assert(v@ =~= head + Seq::<char>::empty());
    }
    append_str(&mut v, "\n```text\n");
    append(&mut v, crate::text::join_str(lines.as_slice(), "\n").as_slice());
    append_str(&mut v, "\n```\n");
    append(&mut v, chars_of(footer).as_slice());
    string_of(v.as_slice())
}

// ---------------------------------------------------------------------------
// A unit's files
// ---------------------------------------------------------------------------

/// A file of a unit that can be picked: its path under the asset root and
/// its label.
pub struct AssetFileOption {
    pub relative_path: String,
    pub label: String,
}

pub open spec fn file_option_views(v: Seq<AssetFileOption>) -> Seq<(Seq<char>, Seq<char>)> {
    v.map_values(|o: AssetFileOption| (o.relative_path@, o.label@))
}

/// The forms in their order.
pub open spec fn form_at(i: int) -> crate::ut::UtForm {
    if i == 0 {
        crate::ut::UtForm::First
    } else if i == 1 {
        crate::ut::UtForm::Second
    } else if i == 2 {
        crate::ut::UtForm::Third
    } else {
        crate::ut::UtForm::Fourth
    }
}

pub open spec fn spec_form_label(form: crate::ut::UtForm) -> Seq<char> {
    match form {
        crate::ut::UtForm::First => "第一形態"@,
        crate::ut::UtForm::Second => "第二形態"@,
        crate::ut::UtForm::Third => "第三形態"@,
        crate::ut::UtForm::Fourth => "第四形態"@,
    }
}

/// The nine files of one form, from the form's asset stem (asset id, suffix,
/// shared): icon, wide image, sprite, cut data, model and four animations.
/// A form that shares another unit's images takes that unit's `_m00` (or, for
/// the second form, `_m01`) images.
pub open spec fn form_file_options(stem: (Seq<char>, Seq<char>, bool), form: crate::ut::UtForm) -> Seq<
    (Seq<char>, Seq<char>),
> {
    let (asset_id, suffix, shared) = stem;
    let shared_suffix = "_m0"@ + (if form == crate::ut::UtForm::Second {
        "1"@
    } else {
        "0"@
    }) + ".png"@;
    let icon = if shared {
        shared_suffix
    } else {
        "_"@ + crate::ut::spec_suffix(form) + "00.png"@
    };
    let wide = if shared {
        shared_suffix
    } else {
        "_"@ + crate::ut::spec_suffix(form) + ".png"@
    };
    let base = asset_id + "_"@ + suffix;
    let label = spec_form_label(form);
    seq![
        ("Unit/uni"@ + asset_id + icon, label + " アイコン"@),
        ("Unit/udi"@ + asset_id + wide, label + " 横長画像"@),
        ("Number/"@ + base + ".png"@, label + " スプライト"@),
        ("ImageData/"@ + base + ".imgcut"@, label + " 切り抜き情報"@),
        ("ImageData/"@ + base + ".mamodel"@, label + " モデル"@),
        ("ImageData/"@ + base + "00.maanim"@, label + " 歩行"@),
        ("ImageData/"@ + base + "01.maanim"@, label + " 待機"@),
        ("ImageData/"@ + base + "02.maanim"@, label + " 攻撃"@),
        ("ImageData/"@ + base + "03.maanim"@, label + " ノックバック"@),
    ]
}

/// The files of the first `n` forms that pass the filter and have a stem.
pub open spec fn forms_file_options(
    units: Seq<UnitBuyEntry>,
    id: Seq<char>,
    filter: Option<crate::ut::UtForm>,
    n: int,
) -> Seq<(Seq<char>, Seq<char>)>
    decreases n,
{
    if n <= 0 {
        Seq::empty()
    } else {
        let prev = forms_file_options(units, id, filter, n - 1);
        let form = form_at(n - 1);
        if filter is Some && filter != Some(form) {
            prev
        } else {
            match crate::ut::spec_asset_stem(units, id, form) {
                Some(stem) => prev + form_file_options(stem, form),
                None => prev,
            }
        }
    }
}

/// The gacha images of a unit, offered when no form is asked for.
pub open spec fn gacha_file_options(id: Seq<char>) -> Seq<(Seq<char>, Seq<char>)> {
    seq![
        ("Image/gatyachara_"@ + id + "_"@ + "f"@ + ".png"@, "ガチャ画像 "@ + "f"@),
        ("Image/gatyachara_"@ + id + "_"@ + "m"@ + ".png"@, "ガチャ画像 "@ + "m"@),
        ("Image/gatyachara_"@ + id + "_"@ + "z"@ + ".png"@, "ガチャ画像 "@ + "z"@),
    ]
}

/// The files offered for a unit: those of each of its forms (at most four)
/// that the filter lets through, then, without a filter, its gacha images.
pub open spec fn spec_file_options(
    units: Seq<UnitBuyEntry>,
    id: Seq<char>,
    form_count: nat,
    filter: Option<crate::ut::UtForm>,
) -> Seq<(Seq<char>, Seq<char>)> {
    let n: int = if form_count < 4 {
        form_count as int
    } else {
        4
    };
    forms_file_options(units, id, filter, n) + if filter is None {
        gacha_file_options(id)
    } else {
        Seq::empty()
    }
}

fn lit(s: &str) -> (r: Vec<char>)
    ensures
        r@ == s@,
{
    chars_of(s)
}

fn cat(a: Vec<char>, b: Vec<char>) -> (r: Vec<char>)
    ensures
        r@ == a@ + b@,
{
    crate::text::concat(a.as_slice(), b.as_slice())
}

fn push_option(options: &mut Vec<AssetFileOption>, path: Vec<char>, label: Vec<char>)
    ensures
        file_option_views(final(options)@) == file_option_views(old(options)@).push((path@, label@)),
{
    let ghost before = file_option_views(options@);
    let o = AssetFileOption { relative_path: string_of(path.as_slice()), label: string_of(label.as_slice()) };
    options.push(o);
    assert(file_option_views(options@) =~= before.push((o.relative_path@, o.label@)));
}

fn push_form_options(options: &mut Vec<AssetFileOption>, stem: &crate::ut::UnitAssetStem, form: crate::ut::UtForm)
    ensures
        file_option_views(final(options)@) == file_option_views(old(options)@) + form_file_options(
            (stem.asset_id@, stem.suffix@, stem.shared),
            form,
        ),
{
    let ghost before = file_option_views(options@);
    let ghost target = form_file_options((stem.asset_id@, stem.suffix@, stem.shared), form);
    let id = chars_of(stem.asset_id.as_str());
    let second = match form {
        crate::ut::UtForm::Second => true,
        _ => false,
    };
    let shared_suffix = cat(cat(lit("_m0"), if second {
        lit("1")
    } else {
        lit("0")
    }), lit(".png"));
    let icon = if stem.shared {
        shared_suffix.clone()
    } else {
        cat(cat(lit("_"), lit(form.suffix())), lit("00.png"))
    };
    let wide = if stem.shared {
        shared_suffix.clone()
    } else {
        cat(cat(lit("_"), lit(form.suffix())), lit(".png"))
    };
    let base = cat(cat(id.clone(), lit("_")), lit(stem.suffix));
    let label = lit(form.label());
    assert(label@ == spec_form_label(form));
    push_option(options, cat(cat(lit("Unit/uni"), id.clone()), icon), cat(label.clone(), lit(" アイコン")));
    push_option(options, cat(cat(lit("Unit/udi"), id.clone()), wide), cat(label.clone(), lit(" 横長画像")));
    push_option(options, cat(cat(lit("Number/"), base.clone()), lit(".png")), cat(label.clone(), lit(" スプライト")));
    push_option(
        options,
        cat(cat(lit("ImageData/"), base.clone()), lit(".imgcut")),
        cat(label.clone(), lit(" 切り抜き情報")),
    );
    push_option(options, cat(cat(lit("ImageData/"), base.clone()), lit(".mamodel")), cat(label.clone(), lit(" モデル")));
    push_option(options, cat(cat(lit("ImageData/"), base.clone()), lit("00.maanim")), cat(label.clone(), lit(" 歩行")));
    push_option(options, cat(cat(lit("ImageData/"), base.clone()), lit("01.maanim")), cat(label.clone(), lit(" 待機")));
    push_option(options, cat(cat(lit("ImageData/"), base.clone()), lit("02.maanim")), cat(label.clone(), lit(" 攻撃")));
    push_option(
        options,
        cat(cat(lit("ImageData/"), base.clone()), lit("03.maanim")),
        cat(label.clone(), lit(" ノックバック")),
    );
    assert(file_option_views(options@) =~= before + target);
}

fn form_at_exec(i: usize) -> (r: crate::ut::UtForm)
    requires
        i < 4,
    ensures
        r == form_at(i as int),
{
    if i == 0 {
        crate::ut::UtForm::First
    } else if i == 1 {
        crate::ut::UtForm::Second
    } else if i == 2 {
        crate::ut::UtForm::Third
    } else {
        crate::ut::UtForm::Fourth
    }
}

fn same_form(a: crate::ut::UtForm, b: crate::ut::UtForm) -> (r: bool)
    ensures
        r == (a == b),
{
    match (a, b) {
        (crate::ut::UtForm::First, crate::ut::UtForm::First) => true,
        (crate::ut::UtForm::Second, crate::ut::UtForm::Second) => true,
        (crate::ut::UtForm::Third, crate::ut::UtForm::Third) => true,
        (crate::ut::UtForm::Fourth, crate::ut::UtForm::Fourth) => true,
        _ => false,
    }
}

/// The files that can be picked for a unit, with at most one form asked for.
pub fn resolve_file_options(unit: &CharacterUnit, unit_buy: &UnitBuy, form_filter: Option<crate::ut::UtForm>) -> (r: Vec<
    AssetFileOption,
>)
    ensures
        file_option_views(r@) == spec_file_options(unit_buy.units@, unit.id@, unit.forms@.len(), form_filter),
{
    let n: usize = if unit.forms.len() < 4 {
        unit.forms.len()
    } else {
        4
    };
    let mut options: Vec<AssetFileOption> = Vec::new();
    let mut i: usize = 0;
    while i < n
        invariant
            i <= n <= 4,
            file_option_views(options@) == forms_file_options(unit_buy.units@, unit.id@, form_filter, i as int),
        decreases n - i,
    {
        let form = form_at_exec(i);
        let skip = match form_filter {
            Some(f) => !same_form(f, form),
            None => false,
        };
        if !skip {
            match crate::ut::resolve_asset_stem(unit_buy, unit.id.as_str(), form) {
                Some(stem) => {
                    push_form_options(&mut options, &stem, form);
                },
                None => {},
            }
        }
        i += 1;
    }
    if form_filter.is_none() {
        let id = chars_of(unit.id.as_str());
        let ghost before = file_option_views(options@);
        push_option(&mut options, cat(cat(cat(cat(lit("Image/gatyachara_"), id.clone()), lit("_")), lit("f")), lit(".png")), cat(lit("ガチャ画像 "), lit("f")));
        push_option(&mut options, cat(cat(cat(cat(lit("Image/gatyachara_"), id.clone()), lit("_")), lit("m")), lit(".png")), cat(lit("ガチャ画像 "), lit("m")));
        push_option(&mut options, cat(cat(cat(cat(lit("Image/gatyachara_"), id.clone()), lit("_")), lit("z")), lit(".png")), cat(lit("ガチャ画像 "), lit("z")));
        assert(file_option_views(options@) =~= before + gacha_file_options(unit.id@));
    } else {
        assert(file_option_views(options@) =~= file_option_views(options@) + Seq::<(Seq<char>, Seq<char>)>::empty());
    }
    options
}

} // verus!
