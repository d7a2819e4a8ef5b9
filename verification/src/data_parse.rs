//! Reading the name files and tables that the gatya, sale, item and tut
//! commands look names and series up in.
use vstd::prelude::*;

use std::collections::HashMap;
use vstd::std_specs::iter::IteratorSpec;

use crate::item::ItemName;
use crate::sale::{spec_insert, OrderedNames};
use crate::skd_parse::strip_boms;
use crate::text::{
    append, chars_of, decimal, fmt_usize, join_str, parse_i64, parse_i64_spec, spec_join, spec_lines, spec_split_once,
    spec_trim, split_char, split_fields, split_once_str, string_of, trim, views,
};

verus! {

broadcast use vstd::std_specs::hash::group_hash_axioms;

pub open spec fn blank(s: Seq<char>) -> bool {
    spec_trim(s).len() == 0
}

fn is_blank(s: &[char]) -> (r: bool)
    ensures
        r == blank(s@),
{
    trim(s).len() == 0
}

fn owned(s: &str) -> (r: String)
    ensures
        r@ == s@,
{
    string_of(chars_of(s).as_slice())
}

// ---------------------------------------------------------------------------
// `{id},{name}` files
// ---------------------------------------------------------------------------

/// A line `{id},{name}` after its byte order marks: the id trimmed must be a
/// number and the name trimmed must not be empty.
pub open spec fn id_name_line(raw: Seq<char>) -> Option<(i64, Seq<char>)> {
    match spec_split_once(strip_boms(raw), ","@) {
        None => None,
        Some((id, name)) => match parse_i64_spec(spec_trim(id)) {
            Some(v) => if blank(name) {
                None
            } else {
                Some((v, spec_trim(name)))
            },
            None => None,
        },
    }
}

/// The names of the first `n` lines, a later line naming an id again
/// replacing the earlier name.
pub open spec fn id_name_map(ls: Seq<Seq<char>>, n: int) -> Map<i64, Seq<char>>
    decreases n,
{
    if n <= 0 {
        Map::empty()
    } else {
        match id_name_line(ls[n - 1]) {
            Some((id, name)) => id_name_map(ls, n - 1).insert(id, name),
            None => id_name_map(ls, n - 1),
        }
    }
}

pub open spec fn spec_id_names(text: Seq<char>) -> Map<i64, Seq<char>> {
    id_name_map(spec_lines(text), spec_lines(text).len() as int)
}

pub open spec fn name_map_view(m: Map<i64, String>) -> Map<i64, Seq<char>> {
    m.map_values(|s: String| s@)
}

fn read_id_name_line(raw: &Vec<char>) -> (r: Option<(i64, String)>)
    ensures
        match r {
            Some((id, name)) => id_name_line(raw@) == Some((id, name@)),
            None => id_name_line(raw@) is None,
        },
{
    proof {
        reveal_strlit(",");
    }
    let line = crate::skd_parse::strip_boms_exec(raw.as_slice());
    match split_once_str(line.as_slice(), ",") {
        None => None,
        Some((id, name)) => match parse_i64(trim(id.as_slice()).as_slice()) {
            Some(v) => {
                if is_blank(name.as_slice()) {
                    None
                } else {
                    Some((v, string_of(trim(name.as_slice()).as_slice())))
                }
            },
            None => None,
        },
    }
}

/// The names of an `{id},{name}` file, as `spec_id_names` says.
pub fn parse_id_names(text: &str) -> (r: HashMap<i64, String>)
    ensures
        name_map_view(r@) == spec_id_names(text@),
{
    let ls = crate::text::lines(chars_of(text).as_slice());
    let ghost lv = views(ls@);
    let mut names: HashMap<i64, String> = HashMap::new();
    let mut i: usize = 0;
    assert(name_map_view(names@) =~= Map::<i64, Seq<char>>::empty());
    while i < ls.len()
        invariant
            i <= ls@.len(),
            lv == views(ls@),
            name_map_view(names@) == id_name_map(lv, i as int),
        decreases ls@.len() - i,
    {
        assert(lv[i as int] == ls@[i as int]@);
        match read_id_name_line(&ls[i]) {
            Some((id, name)) => {
                let ghost before = names@;
                let ghost nv = name@;
                names.insert(id, name);
                assert(name_map_view(names@) =~= name_map_view(before).insert(id, nv));
            },
            None => {},
        }
        i += 1;
    }
    names
}

/// The sale names of an `{id},{name}` file; a file without one is refused.
pub fn parse_required_id_names(text: &str) -> (r: Result<HashMap<i64, String>, String>)
    ensures
        match r {
            Ok(m) => name_map_view(m@) == spec_id_names(text@) && spec_id_names(text@).len() > 0,
            Err(e) => spec_id_names(text@).len() == 0 && e@ == "sale name CSV contains no valid entries"@,
        },
{
    let names = parse_id_names(text);
    proof {
        lemma_id_name_map_finite(spec_lines(text@), spec_lines(text@).len() as int);
        assert(name_map_view(names@).dom() == names@.dom());
    }
    if names.len() == 0 {
        return Err(owned("sale name CSV contains no valid entries"));
    }
    Ok(names)
}

proof fn lemma_id_name_map_finite(ls: Seq<Seq<char>>, n: int)
    ensures
        id_name_map(ls, n).dom().finite(),
    decreases n,
{
    if n > 0 {
        lemma_id_name_map_finite(ls, n - 1);
    }
}

/// The names of an `{id},{name}` file in the order of their first line; a
/// later line naming an id again replaces the name in its place.
pub open spec fn ordered_id_names(ls: Seq<Seq<char>>, n: int) -> Seq<(i64, Seq<char>)>
    decreases n,
{
    if n <= 0 {
        Seq::empty()
    } else {
        match id_name_line(ls[n - 1]) {
            Some((id, name)) => spec_insert(ordered_id_names(ls, n - 1), id, name),
            None => ordered_id_names(ls, n - 1),
        }
    }
}

pub fn parse_ordered_id_names(text: &str) -> (r: OrderedNames)
    ensures
        r@ == ordered_id_names(spec_lines(text@), spec_lines(text@).len() as int),
{
    let ls = crate::text::lines(chars_of(text).as_slice());
    let ghost lv = views(ls@);
    let mut names = OrderedNames::new();
    let mut i: usize = 0;
    while i < ls.len()
        invariant
            i <= ls@.len(),
            lv == views(ls@),
            names@ == ordered_id_names(lv, i as int),
        decreases ls@.len() - i,
    {
        assert(lv[i as int] == ls@[i as int]@);
        match read_id_name_line(&ls[i]) {
            Some((id, name)) => {
                names.insert(id, name);
            },
            None => {},
        }
        i += 1;
    }
    names
}

// ---------------------------------------------------------------------------
// All-day event names
// ---------------------------------------------------------------------------

/// A line `{name}\t{id}`: blank lines and `//` comments are passed over; the
/// name trimmed must not be empty and the id trimmed must be a number.
pub open spec fn all_day_line(line: Seq<char>) -> Option<(i64, Seq<char>)> {
    let t = spec_trim(line);
    if t.len() == 0 || crate::text::spec_starts_with(t, "//"@) {
        None
    } else {
        let cells = split_fields(line, '\t');
        if blank(cells[0]) || cells.len() < 2 {
            None
        } else {
            match parse_i64_spec(spec_trim(cells[1])) {
                Some(id) => Some((id, spec_trim(cells[0]))),
                None => None,
            }
        }
    }
}

pub open spec fn all_day_names(ls: Seq<Seq<char>>, n: int) -> Seq<(i64, Seq<char>)>
    decreases n,
{
    if n <= 0 {
        Seq::empty()
    } else {
        match all_day_line(ls[n - 1]) {
            Some((id, name)) => spec_insert(all_day_names(ls, n - 1), id, name),
            None => all_day_names(ls, n - 1),
        }
    }
}

fn read_all_day_line(line: &Vec<char>) -> (r: Option<(i64, String)>)
    ensures
        match r {
            Some((id, name)) => all_day_line(line@) == Some((id, name@)),
            None => all_day_line(line@) is None,
        },
{
    proof {
        reveal_strlit("//");
    }
    let t = trim(line.as_slice());
    if t.len() == 0 || crate::text::starts_with_str(t.as_slice(), "//") {
        return None;
    }
    let cells = split_char(line.as_slice(), '\t');
    proof {
        crate::text::lemma_split_fields_len(line@, '\t');
    }
    assert(views(cells@)[0] == cells@[0]@);
    if is_blank(cells[0].as_slice()) || cells.len() < 2 {
        return None;
    }
    assert(views(cells@)[1] == cells@[1]@);
    match parse_i64(trim(cells[1].as_slice()).as_slice()) {
        Some(id) => Some((id, string_of(trim(cells[0].as_slice()).as_slice()))),
        None => None,
    }
}

/// The all-day event names, in the order of their first line.
pub fn parse_all_day_names(text: &str) -> (r: OrderedNames)
    ensures
        r@ == all_day_names(spec_lines(text@), spec_lines(text@).len() as int),
{
    let ls = crate::text::lines(chars_of(text).as_slice());
    let ghost lv = views(ls@);
    let mut names = OrderedNames::new();
    let mut i: usize = 0;
    while i < ls.len()
        invariant
            i <= ls@.len(),
            lv == views(ls@),
            names@ == all_day_names(lv, i as int),
        decreases ls@.len() - i,
    {
        assert(lv[i as int] == ls@[i as int]@);
        match read_all_day_line(&ls[i]) {
            Some((id, name)) => {
                names.insert(id, name);
            },
            None => {},
        }
        i += 1;
    }
    names
}

// ---------------------------------------------------------------------------
// Card settings
// ---------------------------------------------------------------------------

pub open spec fn card_sep(c: char) -> bool {
    c == ',' || crate::text::spec_is_ws(c)
}

/// Splits at every comma or white space.
pub open spec fn card_tokens(s: Seq<char>) -> Seq<Seq<char>>
    decreases s.len(),
{
    if s.len() == 0 {
        seq![Seq::<char>::empty()]
    } else {
        let prev = card_tokens(s.drop_last());
        if card_sep(s.last()) {
            prev.push(Seq::<char>::empty())
        } else {
            prev.update(prev.len() - 1, prev.last().push(s.last()))
        }
    }
}

proof fn lemma_card_tokens_len(s: Seq<char>)
    ensures
        card_tokens(s).len() >= 1,
    decreases s.len(),
{
    if s.len() > 0 {
        lemma_card_tokens_len(s.drop_last());
    }
}

fn split_cards(s: &[char]) -> (r: Vec<Vec<char>>)
    ensures
        views(r@) == card_tokens(s@),
{
    let mut done: Vec<Vec<char>> = Vec::new();
    let mut current: Vec<char> = Vec::new();
    let mut i: usize = 0;
    while i < s.len()
        invariant
            i <= s.len(),
            views(done@).push(current@) == card_tokens(s@.take(i as int)),
        decreases s.len() - i,
    {
        let c = s[i];
        let ghost prev = card_tokens(s@.take(i as int));
        assert(s@.take(i + 1).drop_last() =~= s@.take(i as int));
        proof {
            lemma_card_tokens_len(s@.take(i as int));
        }
        if c == ',' || crate::text::is_ws(c) {
            let mut finished: Vec<char> = Vec::new();
            std::mem::swap(&mut finished, &mut current);
            done.push(finished);
            assert(views(done@).push(current@) =~= prev.push(Seq::<char>::empty()));
        } else {
            let ghost old_done = done@;
            current.push(c);
            assert(views(done@).push(current@) =~= prev.update(prev.len() - 1, prev.last().push(c)));
        }
        i += 1;
    }
    assert(s@.take(i as int) =~= s@);
    done.push(current);
    done
}

/// A line without what follows `#` or `//`, trimmed.
pub open spec fn card_body(raw: Seq<char>) -> Seq<char> {
    let a = split_fields(raw, '#')[0];
    spec_trim(
        match spec_split_once(a, "//"@) {
            Some((b, _)) => b,
            None => a,
        },
    )
}

/// The ids gathered from the first `n` tokens, each once, in the order
/// they first come.
pub open spec fn gather_ids(ids: Seq<i64>, tokens: Seq<Seq<char>>, n: int) -> Seq<i64>
    decreases n,
{
    if n <= 0 {
        ids
    } else {
        let prev = gather_ids(ids, tokens, n - 1);
        match parse_i64_spec(spec_trim(tokens[n - 1])) {
            Some(v) => if prev.contains(v) {
                prev
            } else {
                prev.push(v)
            },
            None => prev,
        }
    }
}

pub open spec fn card_ids(ls: Seq<Seq<char>>, n: int) -> Seq<i64>
    decreases n,
{
    if n <= 0 {
        Seq::empty()
    } else {
        let toks = card_tokens(card_body(ls[n - 1]));
        gather_ids(card_ids(ls, n - 1), toks, toks.len() as int)
    }
}

/// The stage ids of the card settings, each once, in the order they first
/// come.
pub fn parse_card_setting(text: &str) -> (r: Vec<i64>)
    ensures
        r@ == card_ids(spec_lines(text@), spec_lines(text@).len() as int),
{
    proof {
        reveal_strlit("//");
    }
    let ls = crate::text::lines(chars_of(text).as_slice());
    let ghost lv = views(ls@);
    let mut ids: Vec<i64> = Vec::new();
    let mut i: usize = 0;
    while i < ls.len()
        invariant
            i <= ls@.len(),
            lv == views(ls@),
            ids@ == card_ids(lv, i as int),
        decreases ls@.len() - i,
    {
        assert(lv[i as int] == ls@[i as int]@);
        let parts = split_char(ls[i].as_slice(), '#');
        proof {
            crate::text::lemma_split_fields_len(ls@[i as int]@, '#');
        }
        assert(views(parts@)[0] == parts@[0]@);
        let a = &parts[0];
        proof {
            reveal_strlit("//");
        }
        let b = match split_once_str(a.as_slice(), "//") {
            Some((x, _)) => x,
            None => crate::text::slice(a.as_slice(), 0, a.len()),
        };
        assert(b@ == match spec_split_once(a@, "//"@) {
            Some((x, _)) => x,
            None => a@,
        }) by {
            if spec_split_once(a@, "//"@) is None {
                assert(a@.subrange(0, a@.len() as int) =~= a@);
            }
        }
        let body = trim(b.as_slice());
        let toks = split_cards(body.as_slice());
        let ghost tv = views(toks@);
        let ghost start = ids@;
        let mut k: usize = 0;
        while k < toks.len()
            invariant
                k <= toks@.len(),
                tv == views(toks@),
                ids@ == gather_ids(start, tv, k as int),
            decreases toks@.len() - k,
        {
            assert(tv[k as int] == toks@[k as int]@);
            match parse_i64(trim(toks[k].as_slice()).as_slice()) {
                Some(v) => {
                    let mut seen = false;
                    let mut j: usize = 0;
                    while j < ids.len()
                        invariant
                            j <= ids@.len(),
                            seen == (exists|q: int| 0 <= q < j && ids@[q] == v),
                        decreases ids@.len() - j,
                    {
                        if ids[j] == v {
                            seen = true;
                        }
                        j += 1;
                    }
                    assert(seen == ids@.contains(v));
                    if !seen {
                        ids.push(v);
                    }
                },
                None => {},
            }
            k += 1;
        }
        i += 1;
    }
    ids
}

// ---------------------------------------------------------------------------
// Item names
// ---------------------------------------------------------------------------

/// A line `{id},{name},{detail...}` after its byte order marks: the id
/// trimmed must be a number and the name trimmed must not be empty; the
/// detail is the rest, trimmed.
pub open spec fn item_name_line(raw: Seq<char>) -> Option<(i64, (Seq<char>, Seq<char>))> {
    let line = strip_boms(raw);
    let cells = split_fields(line, ',');
    if blank(line) {
        None
    } else {
        match parse_i64_spec(spec_trim(cells[0])) {
            None => None,
            Some(id) => if cells.len() < 2 || blank(cells[1]) {
                None
            } else {
                Some((id, (spec_trim(cells[1]), spec_trim(spec_join(cells.skip(2), ","@)))))
            },
        }
    }
}

pub open spec fn item_name_map(ls: Seq<Seq<char>>, n: int) -> Map<i64, (Seq<char>, Seq<char>)>
    decreases n,
{
    if n <= 0 {
        Map::empty()
    } else {
        match item_name_line(ls[n - 1]) {
            Some((id, v)) => item_name_map(ls, n - 1).insert(id, v),
            None => item_name_map(ls, n - 1),
        }
    }
}

pub open spec fn item_names_view(m: Map<i64, ItemName>) -> Map<i64, (Seq<char>, Seq<char>)> {
    m.map_values(|n: ItemName| (n.name@, n.detail@))
}

proof fn lemma_item_name_map_finite(ls: Seq<Seq<char>>, n: int)
    ensures
        item_name_map(ls, n).dom().finite(),
    decreases n,
{
    if n > 0 {
        lemma_item_name_map_finite(ls, n - 1);
    }
}

fn read_item_name_line(raw: &Vec<char>) -> (r: Option<(i64, ItemName)>)
    ensures
        match r {
            Some((id, n)) => item_name_line(raw@) == Some((id, (n.name@, n.detail@))),
            None => item_name_line(raw@) is None,
        },
{
    let line = crate::skd_parse::strip_boms_exec(raw.as_slice());
    if is_blank(line.as_slice()) {
        return None;
    }
    let cells = split_char(line.as_slice(), ',');
    proof {
        crate::text::lemma_split_fields_len(line@, ',');
    }
    assert(views(cells@)[0] == cells@[0]@);
    let id = match parse_i64(trim(cells[0].as_slice()).as_slice()) {
        Some(v) => v,
        None => {
            return None;
        },
    };
    if cells.len() < 2 || is_blank(cells[1].as_slice()) {
        return None;
    }
    assert(views(cells@)[1] == cells@[1]@);
    let rest = crate::text::skip_args(&cells, 2);
    let detail = trim(join_str(rest.as_slice(), ",").as_slice());
    Some((id, ItemName { name: string_of(trim(cells[1].as_slice()).as_slice()), detail: string_of(detail.as_slice()) }))
}

/// The names of the items, by id; a file without one is refused.
pub fn parse_item_names(text: &str) -> (r: Result<HashMap<i64, ItemName>, String>)
    ensures
        match r {
            Ok(m) => item_names_view(m@) == item_name_map(spec_lines(text@), spec_lines(text@).len() as int)
                && m@.len() > 0,
            Err(e) => item_name_map(spec_lines(text@), spec_lines(text@).len() as int).len() == 0
                && e@ == "item name CSV contains no valid entries"@,
        },
{
    let ls = crate::text::lines(chars_of(text).as_slice());
    let ghost lv = views(ls@);
    let mut names: HashMap<i64, ItemName> = HashMap::new();
    let mut i: usize = 0;
    assert(item_names_view(names@) =~= Map::<i64, (Seq<char>, Seq<char>)>::empty());
    while i < ls.len()
        invariant
            i <= ls@.len(),
            lv == views(ls@),
            item_names_view(names@) == item_name_map(lv, i as int),
        decreases ls@.len() - i,
    {
        assert(lv[i as int] == ls@[i as int]@);
        match read_item_name_line(&ls[i]) {
            Some((id, n)) => {
                let ghost before = names@;
                let ghost nv = (n.name@, n.detail@);
                names.insert(id, n);
                assert(item_names_view(names@) =~= item_names_view(before).insert(id, nv));
            },
            None => {},
        }
        i += 1;
    }
    proof {
        lemma_item_name_map_finite(lv, lv.len() as int);
        assert(item_names_view(names@).dom() == names@.dom());
    }
    if names.len() == 0 {
        return Err(owned("item name CSV contains no valid entries"));
    }
    Ok(names)
}

// ---------------------------------------------------------------------------
// Series of gachas
// ---------------------------------------------------------------------------

pub open spec fn trimmed_cells(line: Seq<char>) -> Seq<Seq<char>> {
    split_fields(line, '\t').map_values(|c: Seq<char>| spec_trim(c))
}

pub open spec fn first_index_of(v: Seq<Seq<char>>, x: Seq<char>, k: int) -> Option<int>
    decreases v.len() - k,
{
    if k < 0 || k >= v.len() {
        None
    } else if v[k] == x {
        Some(k)
    } else {
        first_index_of(v, x, k + 1)
    }
}

/// A row's gacha id and series id, when both columns are there and read.
pub open spec fn mapping_row(line: Seq<char>, gi: int, si: int) -> Option<(i64, i64)> {
    let cells = split_fields(line, '\t');
    if gi < cells.len() && si < cells.len() {
        match (parse_i64_spec(spec_trim(cells[gi])), parse_i64_spec(spec_trim(cells[si]))) {
            (Some(g), Some(s)) => Some((g, s)),
            _ => None,
        }
    } else {
        None
    }
}

pub open spec fn mapping_map(ls: Seq<Seq<char>>, gi: int, si: int, n: int) -> Map<i64, i64>
    decreases n,
{
    if n <= 1 {
        Map::empty()
    } else {
        match mapping_row(ls[n - 1], gi, si) {
            Some((g, s)) => mapping_map(ls, gi, si, n - 1).insert(g, s),
            None => mapping_map(ls, gi, si, n - 1),
        }
    }
}

/// The series of each gacha: the lines that are not blank, the first giving
/// the columns, which must include `GatyaSetID` and `seriesID`.
pub open spec fn spec_series_mapping(text: Seq<char>) -> Result<Map<i64, i64>, Seq<char>> {
    let ls = spec_lines(text).filter(|l: Seq<char>| !blank(l));
    let headers = if ls.len() > 0 {
        trimmed_cells(ls[0])
    } else {
        Seq::empty()
    };
    match first_index_of(headers, "GatyaSetID"@, 0) {
        None => Err("GatyaSetID column is missing"@),
        Some(gi) => match first_index_of(headers, "seriesID"@, 0) {
            None => Err("seriesID column is missing"@),
            Some(si) => Ok(mapping_map(ls, gi, si, ls.len() as int)),
        },
    }
}

fn position_of(v: &Vec<Vec<char>>, x: &str) -> (r: Option<usize>)
    ensures
        match r {
            Some(k) => first_index_of(views(v@), x@, 0) == Some(k as int),
            None => first_index_of(views(v@), x@, 0) is None,
        },
{
    let ghost vv = views(v@);
    let mut k: usize = 0;
    while k < v.len()
        invariant
            k <= v@.len(),
            vv == views(v@),
            first_index_of(vv, x@, 0) == first_index_of(vv, x@, k as int),
        decreases v@.len() - k,
    {
        assert(vv[k as int] == v@[k as int]@);
        if crate::text::eq_str(v[k].as_slice(), x) {
            return Some(k);
        }
        k += 1;
    }
    None
}

fn nonblank(ls: &Vec<Vec<char>>) -> (r: Vec<Vec<char>>)
    ensures
        views(r@) == views(ls@).filter(|l: Seq<char>| !blank(l)),
{
    let ghost lv = views(ls@);
    let mut r: Vec<Vec<char>> = Vec::new();
    let mut i: usize = 0;
    proof {
        reveal(Seq::filter);
    }
    assert(lv.take(0).filter(|l: Seq<char>| !blank(l)) =~= Seq::<Seq<char>>::empty());
    while i < ls.len()
        invariant
            i <= ls@.len(),
            lv == views(ls@),
            views(r@) == lv.take(i as int).filter(|l: Seq<char>| !blank(l)),
        decreases ls@.len() - i,
    {
        proof {
            reveal(Seq::filter);
        }
        assert(lv.take(i + 1).drop_last() =~= lv.take(i as int));
        assert(lv.take(i + 1).last() == ls@[i as int]@);
        let ghost before = views(r@);
        if !is_blank(ls[i].as_slice()) {
            let l = crate::text::slice(ls[i].as_slice(), 0, ls[i].len());
            assert(l@ =~= ls@[i as int]@);
            r.push(l);
            assert(views(r@) =~= before.push(l@));
        }
        assert(views(r@) =~= lv.take(i + 1).filter(|l: Seq<char>| !blank(l)));
        i += 1;
    }
    assert(lv.take(i as int) =~= lv);
    r
}

/// The series of each gacha, as `spec_series_mapping` says.
pub fn parse_series_mapping(text: &str) -> (r: Result<HashMap<i64, i64>, String>)
    ensures
        match r {
            Ok(m) => spec_series_mapping(text@) == Ok::<Map<i64, i64>, Seq<char>>(m@),
            Err(e) => spec_series_mapping(text@) == Err::<Map<i64, i64>, Seq<char>>(e@),
        },
{
    proof {
        reveal_strlit("GatyaSetID");
        reveal_strlit("seriesID");
    }
    let all = crate::text::lines(chars_of(text).as_slice());
    let ls = nonblank(&all);
    let ghost lv = views(ls@);
    let mut headers: Vec<Vec<char>> = Vec::new();
    if ls.len() > 0 {
        let cells = split_char(ls[0].as_slice(), '\t');
        assert(lv[0] == ls@[0]@);
        let mut k: usize = 0;
        while k < cells.len()
            invariant
                k <= cells@.len(),
                views(headers@) == views(cells@).take(k as int).map_values(|c: Seq<char>| spec_trim(c)),
            decreases cells@.len() - k,
        {
            let t = trim(cells[k].as_slice());
            let ghost before = views(headers@);
            let ghost tv = t@;
            headers.push(t);
            assert(views(headers@) =~= before.push(tv));
            assert(views(headers@) =~= views(cells@).take(k + 1).map_values(|c: Seq<char>| spec_trim(c)));
            k += 1;
        }
        assert(views(cells@).take(k as int) =~= views(cells@));
    } else {
        assert(views(headers@) =~= Seq::<Seq<char>>::empty());
    }
    let gi = match position_of(&headers, "GatyaSetID") {
        Some(k) => k,
        None => {
            return Err(owned("GatyaSetID column is missing"));
        },
    };
    let si = match position_of(&headers, "seriesID") {
        Some(k) => k,
        None => {
            return Err(owned("seriesID column is missing"));
        },
    };
    let mut m: HashMap<i64, i64> = HashMap::new();
    let mut i: usize = 1;
    assert(m@ =~= mapping_map(lv, gi as int, si as int, 1));
    while i < ls.len()
        invariant
            1 <= i <= ls@.len(),
            lv == views(ls@),
            m@ == mapping_map(lv, gi as int, si as int, i as int),
        decreases ls@.len() - i,
    {
        assert(lv[i as int] == ls@[i as int]@);
        let cells = split_char(ls[i].as_slice(), '\t');
        if gi < cells.len() && si < cells.len() {
            assert(views(cells@)[gi as int] == cells@[gi as int]@);
            assert(views(cells@)[si as int] == cells@[si as int]@);
            match (parse_i64(trim(cells[gi].as_slice()).as_slice()), parse_i64(trim(cells[si].as_slice()).as_slice())) {
                (Some(g), Some(s)) => {
                    m.insert(g, s);
                },
                _ => {},
            }
        }
        i += 1;
    }
    Ok(m)
}

// ---------------------------------------------------------------------------
// Enemy names and aliases
// ---------------------------------------------------------------------------

/// `char::is_control`: the control characters, U+0000 to U+001F and U+007F
/// to U+009F.
pub open spec fn is_control(c: char) -> bool {
    (c as u32) <= 0x1f || (0x7f <= (c as u32) && (c as u32) <= 0x9f)
}

/// A name row must hold no tab and no control character.
pub open spec fn bad_row(line: Seq<char>) -> bool {
    exists|i: int| 0 <= i < line.len() && (line[i] == '\t' || is_control(#[trigger] line[i]))
}

/// The names by enemy id, one line per id, a blank line for an id without
/// a searchable name; trailing empty lines do not count.
pub open spec fn spec_enemy_names(text: Seq<char>) -> Result<Seq<Option<Seq<char>>>, Seq<char>> {
    let ls = crate::stage::csv_lines(text);
    if ls.len() == 0 {
        Err("rows are required"@)
    } else if exists|i: int| 0 <= i < ls.len() && bad_row(#[trigger] ls[i]) {
        let i = choose|i: int| 0 <= i < ls.len() && bad_row(#[trigger] ls[i]) && forall|j: int| 0 <= j < i ==> !bad_row(#[trigger] ls[j]);
        Err("row "@ + decimal((i + 1) as nat) + " is invalid"@)
    } else {
        let names = ls.map_values(|l: Seq<char>| if blank(l) {
            None
        } else {
            Some(l)
        });
        if forall|i: int| 0 <= i < ls.len() ==> blank(#[trigger] ls[i]) {
            Err("searchable names are required"@)
        } else {
            Ok(names)
        }
    }
}

fn is_bad_row(line: &Vec<char>) -> (r: bool)
    ensures
        r == bad_row(line@),
{
    let mut i: usize = 0;
    while i < line.len()
        invariant
            i <= line@.len(),
            forall|k: int| 0 <= k < i ==> !(line@[k] == '\t' || is_control(#[trigger] line@[k])),
        decreases line@.len() - i,
    {
        let c = line[i];
        let code = c as u32;
        if c == '\t' || code <= 0x1f || (0x7f <= code && code <= 0x9f) {
            return true;
        }
        i += 1;
    }
    false
}

pub open spec fn opt_views(v: Seq<Option<String>>) -> Seq<Option<Seq<char>>> {
    v.map_values(|o: Option<String>| crate::protocol::opt_view(o))
}

/// Reads the enemy names file, as `spec_enemy_names` says.
pub fn parse_enemy_names(text: &str) -> (r: Result<Vec<Option<String>>, String>)
    ensures
        match r {
            Ok(v) => spec_enemy_names(text@) == Ok::<Seq<Option<Seq<char>>>, Seq<char>>(opt_views(v@)),
            Err(e) => spec_enemy_names(text@) == Err::<Seq<Option<Seq<char>>>, Seq<char>>(e@),
        },
{
    let ls = crate::stage::lines_without_trailing_empty(text);
    let ghost lv = views(ls@);
    if ls.len() == 0 {
        return Err(owned("rows are required"));
    }
    let mut names: Vec<Option<String>> = Vec::new();
    let mut any = false;
    let mut i: usize = 0;
    while i < ls.len()
        invariant
            i <= ls@.len(),
            lv == views(ls@),
            lv == crate::stage::csv_lines(text@),
            forall|j: int| 0 <= j < i ==> !bad_row(#[trigger] lv[j]),
            opt_views(names@) == lv.take(i as int).map_values(|l: Seq<char>| if blank(l) {
                None
            } else {
                Some(l)
            }),
            any == exists|j: int| 0 <= j < i && !blank(#[trigger] lv[j]),
        decreases ls@.len() - i,
    {
        assert(lv[i as int] == ls@[i as int]@);
        if is_bad_row(&ls[i]) {
            let mut m = chars_of("row ");
            append(&mut m, fmt_usize(i + 1).as_slice());
            crate::text::append_str(&mut m, " is invalid");
            proof {
                let w = choose|k: int| 0 <= k < lv.len() && bad_row(#[trigger] lv[k]) && forall|j: int| 0 <= j < k ==> !bad_row(#[trigger] lv[j]);
                assert(bad_row(lv[i as int]));
                if w < i {
                    assert(!bad_row(lv[w]));
                }
                if w > i {
                    assert(!bad_row(lv[i as int]));
                }
            }
            return Err(string_of(m.as_slice()));
        }
        let ghost before = opt_views(names@);
        if is_blank(ls[i].as_slice()) {
            names.push(None);
            assert(opt_views(names@) =~= before.push(None));
        } else {
            let nm = string_of(ls[i].as_slice());
            names.push(Some(nm));
            assert(opt_views(names@) =~= before.push(Some(lv[i as int])));
            any = true;
        }
        assert(opt_views(names@) =~= lv.take(i + 1).map_values(|l: Seq<char>| if blank(l) {
            None
        } else {
            Some(l)
        }));
        i += 1;
    }
    assert(lv.take(i as int) =~= lv);
    if !any {
        return Err(owned("searchable names are required"));
    }
    Ok(names)
}

/// The aliases of one enemy, as the aliases file gives them.
pub struct EnemyAliasEntry {
    pub id: usize,
    pub names: Vec<String>,
}

pub open spec fn alias_entry_views(v: Seq<EnemyAliasEntry>) -> Seq<(usize, Seq<Seq<char>>)> {
    v.map_values(|e: EnemyAliasEntry| (e.id, crate::text::string_views(e.names@)))
}

/// The entry at `i` is refused when its id came before or a name is blank.
pub open spec fn bad_alias_entry(v: Seq<(usize, Seq<Seq<char>>)>, i: int) -> bool {
    (exists|j: int| 0 <= j < i && v[j].0 == v[i].0) || (exists|k: int| 0 <= k < v[i].1.len() && blank(#[trigger] v[i].1[k]))
}

/// The aliases file must not be empty; the first refused entry is named.
pub open spec fn spec_check_aliases(v: Seq<(usize, Seq<Seq<char>>)>) -> Result<(), Seq<char>> {
    if v.len() == 0 {
        Err("a non-empty array is required"@)
    } else if exists|i: int| 0 <= i < v.len() && #[trigger] bad_alias_entry(v, i) {
        let i = choose|i: int| 0 <= i < v.len() && #[trigger] bad_alias_entry(v, i) && forall|j: int| 0 <= j < i ==> !#[trigger] bad_alias_entry(v, j);
        Err("entry "@ + decimal(i as nat) + " is invalid"@)
    } else {
        Ok(())
    }
}

fn any_blank(v: &Vec<String>) -> (r: bool)
    ensures
        r == exists|k: int| 0 <= k < v@.len() && blank(#[trigger] crate::text::string_views(v@)[k]),
{
    let mut i: usize = 0;
    while i < v.len()
        invariant
            i <= v@.len(),
            forall|k: int| 0 <= k < i ==> !blank(#[trigger] crate::text::string_views(v@)[k]),
        decreases v@.len() - i,
    {
        if is_blank(chars_of(v[i].as_str()).as_slice()) {
            assert(blank(crate::text::string_views(v@)[i as int]));
            return true;
        }
        i += 1;
    }
    false
}

/// Checks the entries of the aliases file, as `spec_check_aliases` says.
pub fn check_enemy_aliases(entries: &Vec<EnemyAliasEntry>) -> (r: Result<(), String>)
    ensures
        match r {
            Ok(()) => spec_check_aliases(alias_entry_views(entries@)) == Ok::<(), Seq<char>>(()),
            Err(e) => spec_check_aliases(alias_entry_views(entries@)) == Err::<(), Seq<char>>(e@),
        },
{
    let ghost v = alias_entry_views(entries@);
    if entries.len() == 0 {
        return Err(owned("a non-empty array is required"));
    }
    let mut i: usize = 0;
    while i < entries.len()
        invariant
            i <= entries@.len(),
            v == alias_entry_views(entries@),
            forall|j: int| 0 <= j < i ==> !#[trigger] bad_alias_entry(v, j),
        decreases entries@.len() - i,
    {
        assert(v[i as int] == (entries@[i as int].id, crate::text::string_views(entries@[i as int].names@)));
        let mut seen = false;
        let mut j: usize = 0;
        while j < i
            invariant
                j <= i < entries@.len(),
                v == alias_entry_views(entries@),
                seen == exists|q: int| 0 <= q < j && v[q].0 == v[i as int].0,
            decreases i - j,
        {
            assert(v[j as int].0 == entries@[j as int].id);
            if entries[j].id == entries[i].id {
                seen = true;
            }
            j += 1;
        }
        let blank_name = any_blank(&entries[i].names);
        if seen || blank_name {
            assert(bad_alias_entry(v, i as int)) by {
                if !seen {
                    let k = choose|k: int| 0 <= k < entries@[i as int].names@.len() && blank(
                        #[trigger] crate::text::string_views(entries@[i as int].names@)[k],
                    );
                    assert(v[i as int].1[k] == crate::text::string_views(entries@[i as int].names@)[k]);
                    assert(blank(v[i as int].1[k]));
                }
            }
            let mut m = chars_of("entry ");
            append(&mut m, fmt_usize(i).as_slice());
            crate::text::append_str(&mut m, " is invalid");
            proof {
                let w = choose|k: int| 0 <= k < v.len() && #[trigger] bad_alias_entry(v, k) && forall|q: int| 0 <= q < k ==> !#[trigger] bad_alias_entry(v, q);
                if w < i {
                    assert(!bad_alias_entry(v, w));
                }
                if w > i {
                    assert(!bad_alias_entry(v, i as int));
                }
            }
            return Err(string_of(m.as_slice()));
        }
        i += 1;
    }
    Ok(())
}

/// The aliases an id is given: those of the last entry of that id.
pub open spec fn aliases_of(v: Seq<(usize, Seq<Seq<char>>)>, id: usize) -> Seq<Seq<char>>
    decreases v.len(),
{
    if v.len() == 0 {
        Seq::empty()
    } else if v.last().0 == id {
        v.last().1
    } else {
        aliases_of(v.drop_last(), id)
    }
}

/// The first `n` aliases other than the display name, each once.
pub open spec fn own_aliases(aliases: Seq<Seq<char>>, display: Seq<char>, n: int) -> Seq<Seq<char>>
    decreases n,
{
    if n <= 0 {
        Seq::empty()
    } else {
        let prev = own_aliases(aliases, display, n - 1);
        let a = aliases[n - 1];
        if a != display && !prev.contains(a) {
            prev.push(a)
        } else {
            prev
        }
    }
}

/// The searchable enemies of the first `n` ids: each with a name, with its
/// own aliases.
pub open spec fn enemy_entries(names: Seq<Option<Seq<char>>>, aliases: Seq<(usize, Seq<Seq<char>>)>, n: int) -> Seq<crate::tut::EnemyView>
    decreases n,
{
    if n <= 0 {
        Seq::empty()
    } else {
        let prev = enemy_entries(names, aliases, n - 1);
        match names[n - 1] {
            None => prev,
            Some(display) => {
                let all = aliases_of(aliases, (n - 1) as usize);
                prev.push(
                    crate::tut::EnemyView {
                        id: (n - 1) as usize,
                        display_name: display,
                        aliases: own_aliases(all, display, all.len() as int),
                    },
                )
            },
        }
    }
}

fn find_aliases<'a>(entries: &'a Vec<EnemyAliasEntry>, id: usize) -> (r: Option<&'a Vec<String>>)
    ensures
        match r {
            Some(v) => aliases_of(alias_entry_views(entries@), id) == crate::text::string_views(v@),
            None => aliases_of(alias_entry_views(entries@), id) == Seq::<Seq<char>>::empty(),
        },
{
    let ghost av = alias_entry_views(entries@);
    let mut k: usize = entries.len();
    assert(av.take(k as int) =~= av);
    while k > 0
        invariant
            k <= entries@.len(),
            av == alias_entry_views(entries@),
            aliases_of(av, id) == aliases_of(av.take(k as int), id),
        decreases k,
    {
        assert(av.take(k as int).last() == av[k - 1]);
        assert(av[k - 1] == (entries@[k - 1].id, crate::text::string_views(entries@[k - 1].names@)));
        if entries[k - 1].id == id {
            return Some(&entries[k - 1].names);
        }
        assert(av.take(k as int).drop_last() =~= av.take(k - 1));
        k -= 1;
    }
    None
}

fn copy_own_aliases(all: &Vec<String>, display: &String) -> (r: Vec<String>)
    ensures
        crate::text::string_views(r@) == own_aliases(crate::text::string_views(all@), display@, all@.len() as int),
{
    let ghost av = crate::text::string_views(all@);
    let mut r: Vec<String> = Vec::new();
    let mut i: usize = 0;
    while i < all.len()
        invariant
            i <= all@.len(),
            av == crate::text::string_views(all@),
            crate::text::string_views(r@) == own_aliases(av, display@, i as int),
        decreases all@.len() - i,
    {
        let a = chars_of(all[i].as_str());
        assert(av[i as int] == a@);
        let ghost prev = crate::text::string_views(r@);
        if !crate::text::eq(a.as_slice(), chars_of(display.as_str()).as_slice()) {
            let mut seen = false;
            let mut j: usize = 0;
            while j < r.len()
                invariant
                    j <= r@.len(),
                    prev == crate::text::string_views(r@),
                    seen == exists|q: int| 0 <= q < j && prev[q] == a@,
                decreases r@.len() - j,
            {
                assert(prev[j as int] == r@[j as int]@);
                if crate::text::eq(chars_of(r[j].as_str()).as_slice(), a.as_slice()) {
                    seen = true;
                }
                j += 1;
            }
            assert(seen == prev.contains(a@));
            if !seen {
                let s = string_of(a.as_slice());
                r.push(s);
                assert(crate::text::string_views(r@) =~= prev.push(a@));
            }
        }
        i += 1;
    }
    r
}

/// The enemy search data of the names by id and the aliases file: the
/// enemies with a name, in id order, each with its own aliases, and the
/// index from id to position.
pub fn build_enemy_search_data(names: &Vec<Option<String>>, aliases: &Vec<EnemyAliasEntry>) -> (r: crate::tut::EnemySearchData)
    ensures
        crate::tut::entry_views(r.entries@) == enemy_entries(opt_views(names@), alias_entry_views(aliases@), names@.len() as int),
        forall|k: int| 0 <= k < r.entries@.len() ==> r.id_index@.contains_key((#[trigger] r.entries@[k]).id)
            && r.id_index@[r.entries@[k].id] == k,
        forall|id: usize| #[trigger] r.id_index@.contains_key(id) ==> r.id_index@[id] < r.entries@.len(),
{
    let ghost nv = opt_views(names@);
    let ghost av = alias_entry_views(aliases@);
    let mut entries: Vec<crate::tut::EnemySearchEntry> = Vec::new();
    let mut id_index: HashMap<usize, usize> = HashMap::new();
    let mut id: usize = 0;
    assert(crate::tut::entry_views(entries@) =~= Seq::<crate::tut::EnemyView>::empty());
    while id < names.len()
        invariant
            id <= names@.len(),
            nv == opt_views(names@),
            av == alias_entry_views(aliases@),
            crate::tut::entry_views(entries@) == enemy_entries(nv, av, id as int),
            forall|k: int| 0 <= k < entries@.len() ==> (#[trigger] entries@[k]).id < id && id_index@.contains_key(entries@[k].id)
                && id_index@[entries@[k].id] == k,
            forall|x: usize| #[trigger] id_index@.contains_key(x) ==> id_index@[x] < entries@.len() && x < id,
        decreases names@.len() - id,
    {
        assert(nv[id as int] == crate::protocol::opt_view(names@[id as int]));
        match &names[id] {
            None => {},
            Some(display) => {
                let own = match find_aliases(aliases, id) {
                    Some(all) => copy_own_aliases(all, display),
                    None => {
                        let e: Vec<String> = Vec::new();
                        assert(crate::text::string_views(e@) =~= own_aliases(Seq::<Seq<char>>::empty(), display@, 0));
                        e
                    },
                };
                let index = entries.len();
                let entry = crate::tut::EnemySearchEntry { id, display_name: string_of(chars_of(display.as_str()).as_slice()), aliases: own };
                let ghost before = crate::tut::entry_views(entries@);
                entries.push(entry);
                assert(crate::tut::entry_views(entries@) =~= before.push(crate::tut::enemy_view(entry)));
                id_index.insert(id, index);
            },
        }
        id += 1;
    }
    crate::tut::EnemySearchData { entries, id_index }
}

// ---------------------------------------------------------------------------
// Series names from gacha names
// ---------------------------------------------------------------------------

/// The keys of a map, each once.
fn map_keys(m: &HashMap<i64, i64>) -> (r: Vec<i64>)
    ensures
        r@.to_set() == m@.dom(),
        r@.no_duplicates(),
{
    let keys = m.keys();
    let ghost all = keys.remaining();
    let mut r: Vec<i64> = Vec::new();
    for k in it: keys
        invariant
            it.seq() == all,
            all.unref().to_set() == m@.dom(),
            all.no_duplicates(),
            r@ == it.seq().take(it.index()).unref(),
    {
        r.push(*k);
        assert(r@ =~= it.seq().take(it.index() + 1).unref());
    }
    assert(r@ =~= all.unref());
    r
}

/// Sorts distinct ids into increasing order.
fn sort_ids(v: Vec<i64>) -> (r: Vec<i64>)
    requires
        v@.no_duplicates(),
    ensures
        forall|i: int, j: int| 0 <= i < j < r@.len() ==> r@[i] < r@[j],
        forall|x: i64| r@.contains(x) <==> v@.contains(x),
{
    let mut r: Vec<i64> = Vec::new();
    let mut i: usize = 0;
    while i < v.len()
        invariant
            i <= v@.len(),
            v@.no_duplicates(),
            forall|a: int, b: int| 0 <= a < b < r@.len() ==> r@[a] < r@[b],
            forall|x: i64| r@.contains(x) <==> v@.take(i as int).contains(x),
        decreases v@.len() - i,
    {
        let x = v[i];
        assert(!v@.take(i as int).contains(x)) by {
            if v@.take(i as int).contains(x) {
                let k = choose|k: int| 0 <= k < i && v@.take(i as int)[k] == x;
                assert(v@[k] == v@[i as int]);
            }
        }
        let mut p: usize = 0;
        while p < r.len() && r[p] < x
            invariant
                p <= r@.len(),
                forall|a: int| 0 <= a < p ==> r@[a] < x,
            decreases r@.len() - p,
        {
            p += 1;
        }
        let ghost old_r = r@;
        assert(p < old_r.len() ==> old_r[p as int] != x) by {
            if p < old_r.len() && old_r[p as int] == x {
                assert(old_r.contains(x));
            }
        }
        r.insert(p, x);
        assert(r@ =~= old_r.take(p as int).push(x) + old_r.skip(p as int));
        assert forall|a: int, b: int| 0 <= a < b < r@.len() implies r@[a] < r@[b] by {
            if b < p {
            } else if b == p {
            } else if a < p {
                assert(r@[b] == old_r[b - 1]);
                assert(old_r[a] < old_r[b - 1]);
            } else if a == p {
                assert(r@[b] == old_r[b - 1]);
                if p < b - 1 {
                    assert(old_r[p as int] < old_r[b - 1]);
                }
                assert(old_r[p as int] >= x);
            } else {
                assert(r@[a] == old_r[a - 1] && r@[b] == old_r[b - 1]);
            }
        }
        assert(v@.take(i + 1) =~= v@.take(i as int).push(x));
        assert forall|y: i64| r@.contains(y) <==> v@.take(i + 1).contains(y) by {
            if r@.contains(y) {
                let k = choose|k: int| 0 <= k < r@.len() && r@[k] == y;
                if k < p {
                    assert(old_r[k] == y);
                } else if k > p {
                    assert(old_r[k - 1] == y);
                }
            }
            if old_r.contains(y) {
                let k = choose|k: int| 0 <= k < old_r.len() && old_r[k] == y;
                if k < p {
                    assert(r@[k] == y);
                } else {
                    assert(r@[k + 1] == y);
                }
            }
            if y == x {
                assert(r@[p as int] == x);
                assert(v@.take(i + 1)[i as int] == x);
            }
            if v@.take(i + 1).contains(y) {
                let k = choose|k: int| 0 <= k < i + 1 && #[trigger] v@.take(i + 1)[k] == y;
                if k < i {
                    assert(v@.take(i as int)[k] == y);
                    assert(v@.take(i as int).contains(y));
                    assert(old_r.contains(y));
                    let m = choose|m: int| 0 <= m < old_r.len() && old_r[m] == y;
                    if m < p {
                        assert(r@[m] == y);
                    } else {
                        assert(r@[m + 1] == y);
                    }
                }
            }
            if old_r.contains(y) {
                assert(v@.take(i as int).contains(y));
                let k = choose|k: int| 0 <= k < i && #[trigger] v@.take(i as int)[k] == y;
                assert(v@.take(i + 1)[k] == y);
            }
        }
        i += 1;
    }
    assert(v@.take(i as int) =~= v@);
    r
}

/// A gacha that lends its name to a series: it belongs to the series and
/// has a name.
pub open spec fn names_series(names: Map<i64, Seq<char>>, mappings: Map<i64, i64>, series: i64, gacha: i64) -> bool {
    mappings.contains_key(gacha) && mappings[gacha] == series && names.contains_key(gacha)
}

/// The series names derived from gacha names: a series that some named
/// gacha belongs to is named after the one with the smallest id.
pub open spec fn derived_names(result: Map<i64, Seq<char>>, names: Map<i64, Seq<char>>, mappings: Map<i64, i64>) -> bool {
    &&& forall|s: i64| result.contains_key(s) <==> exists|g: i64| #[trigger] names_series(names, mappings, s, g)
    &&& forall|s: i64|
        #[trigger] result.contains_key(s) ==> exists|g: i64|
            #[trigger] names_series(names, mappings, s, g) && result[s] == names[g] && forall|h: i64|
                #[trigger] names_series(names, mappings, s, h) ==> g <= h
}

/// Names each series after its named gacha with the smallest id.
pub fn derive_mode_names(gacha_names: &HashMap<i64, String>, mappings: &HashMap<i64, i64>) -> (r: HashMap<
    i64,
    String,
>)
    ensures
        derived_names(name_map_view(r@), name_map_view(gacha_names@), mappings@),
{
    let ghost nv = name_map_view(gacha_names@);
    let ghost mv = mappings@;
    let keys = sort_ids(map_keys(mappings));
    let mut result: HashMap<i64, String> = HashMap::new();
    let mut i: usize = 0;
    while i < keys.len()
        invariant
            i <= keys@.len(),
            nv == name_map_view(gacha_names@),
            mv == mappings@,
            forall|a: int, b: int| 0 <= a < b < keys@.len() ==> keys@[a] < keys@[b],
            forall|x: i64| keys@.contains(x) <==> mv.dom().contains(x),
            forall|s: i64|
                name_map_view(result@).contains_key(s) <==> exists|j: int|
                    0 <= j < i && #[trigger] names_series(nv, mv, s, keys@[j]),
            forall|s: i64|
                #[trigger] name_map_view(result@).contains_key(s) ==> exists|j: int|
                    0 <= j < i && #[trigger] names_series(nv, mv, s, keys@[j]) && name_map_view(result@)[s]
                        == nv[keys@[j]] && forall|k: int| 0 <= k < j ==> !names_series(nv, mv, s, keys@[k]),
        decreases keys@.len() - i,
    {
        let g = keys[i];
        assert(keys@.contains(g));
        let s = *mappings.get(&g).unwrap();
        let ghost before = name_map_view(result@);
        if !result.contains_key(&s) {
            match gacha_names.get(&g) {
                Some(name) => {
                    let copy = string_of(chars_of(name.as_str()).as_slice());
                    result.insert(s, copy);
                    assert(names_series(nv, mv, s, keys@[i as int]));
                    assert(name_map_view(result@) == before.insert(s, nv[g]));
                    assert forall|t: i64| #[trigger] name_map_view(result@).contains_key(t) implies exists|j: int|
                        0 <= j < i + 1 && #[trigger] names_series(nv, mv, t, keys@[j]) && name_map_view(result@)[t]
                            == nv[keys@[j]] && forall|k: int| 0 <= k < j ==> !names_series(nv, mv, t, keys@[k]) by {
                        if t == s {
                            assert forall|k: int| 0 <= k < i implies !names_series(nv, mv, t, keys@[k]) by {
                                if names_series(nv, mv, t, keys@[k]) {
                                    assert(before.contains_key(t));
                                }
                            }
                        }
                    }
                },
                None => {
                    assert(!nv.contains_key(g));
                },
            }
        }
        assert forall|t: i64| name_map_view(result@).contains_key(t) <==> exists|j: int|
            0 <= j < i + 1 && #[trigger] names_series(nv, mv, t, keys@[j]) by {
            if names_series(nv, mv, t, keys@[i as int]) {
                assert(t == s);
            }
            if exists|j: int| 0 <= j < i && #[trigger] names_series(nv, mv, t, keys@[j]) {
                assert(before.contains_key(t));
            }
            if exists|j: int| 0 <= j < i + 1 && #[trigger] names_series(nv, mv, t, keys@[j]) {
                let j = choose|j: int| 0 <= j < i + 1 && #[trigger] names_series(nv, mv, t, keys@[j]);
                if j < i {
                    assert(before.contains_key(t));
                }
            }
        }
        i += 1;
    }
    proof {
        let rv = name_map_view(result@);
        assert forall|t: i64| rv.contains_key(t) <==> exists|g: i64| #[trigger] names_series(nv, mv, t, g) by {
            if exists|g: i64| #[trigger] names_series(nv, mv, t, g) {
                let g = choose|g: i64| #[trigger] names_series(nv, mv, t, g);
                assert(keys@.contains(g));
                let j = choose|j: int| 0 <= j < keys@.len() && keys@[j] == g;
                assert(names_series(nv, mv, t, keys@[j]));
            }
        }
        assert forall|t: i64| #[trigger] rv.contains_key(t) implies exists|g: i64|
            #[trigger] names_series(nv, mv, t, g) && rv[t] == nv[g] && forall|h: i64|
                #[trigger] names_series(nv, mv, t, h) ==> g <= h by {
            let j = choose|j: int|
                0 <= j < i && #[trigger] names_series(nv, mv, t, keys@[j]) && rv[t] == nv[keys@[j]] && forall|k: int|
                    0 <= k < j ==> !names_series(nv, mv, t, keys@[k]);
            let g = keys@[j];
            assert forall|h: i64| #[trigger] names_series(nv, mv, t, h) implies g <= h by {
                assert(keys@.contains(h));
                let k = choose|k: int| 0 <= k < keys@.len() && keys@[k] == h;
                if k < j {
                    assert(names_series(nv, mv, t, keys@[k]));
                }
            }
        }
    }
    result
}

} // verus!
