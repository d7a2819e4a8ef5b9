//! Arguments of the `tut` command and the search of enemies.
use vstd::prelude::*;

use std::collections::HashMap;

use crate::motion_request::{
    parse_motion_arguments, spec_parse_motion, str_views, MotionRequest, MotionRequestView,
};
use crate::search::{normalize_search_text, spec_normalize};
use crate::text::{
    all_digits, append, append_str, chars_of, contains, eq_str, fmt_usize, is_all_digits,
    join_str, lower_seq, parse_usize, parse_usize_spec, spec_contains, spec_join, spec_trim,
    spec_words, string_of, string_views, to_lower, trim, views, words, decimal,
};

verus! {

broadcast use vstd::std_specs::hash::group_hash_axioms;

#[derive(Debug)]
pub enum TutOperation {
    Detail,
    Origin,
    File,
    Motion(MotionRequest),
}

#[derive(Debug)]
pub enum TutRequest {
    Landing,
    Help,
    InvalidFile,
    InvalidMotion,
    Search { query: String, force: bool, operation: TutOperation },
}

pub enum TutOperationView {
    Detail,
    Origin,
    File,
    Motion(MotionRequestView),
}

pub enum TutRequestView {
    Landing,
    Help,
    InvalidFile,
    InvalidMotion,
    Search { query: Seq<char>, force: bool, operation: TutOperationView },
}

impl View for TutRequest {
    type V = TutRequestView;

    open spec fn view(&self) -> TutRequestView {
        match self {
            TutRequest::Landing => TutRequestView::Landing,
            TutRequest::Help => TutRequestView::Help,
            TutRequest::InvalidFile => TutRequestView::InvalidFile,
            TutRequest::InvalidMotion => TutRequestView::InvalidMotion,
            TutRequest::Search { query, force, operation } => TutRequestView::Search {
                query: query@,
                force: *force,
                operation: match operation {
                    TutOperation::Detail => TutOperationView::Detail,
                    TutOperation::Origin => TutOperationView::Origin,
                    TutOperation::File => TutOperationView::File,
                    TutOperation::Motion(m) => TutOperationView::Motion(m@),
                },
            },
        }
    }
}

/// What the arguments of `tut` have said so far.
pub struct TutScan {
    pub force: bool,
    pub origin: bool,
    pub file: bool,
    pub motion: bool,
    pub query: Seq<Seq<char>>,
    pub file_parts: Seq<Seq<char>>,
    pub motion_parts: Seq<Seq<char>>,
}

/// One argument read: a flag or operation word sets its mark (the first
/// `file` and `motion` only); other words go after the operation that came
/// before them, or to the query.
pub open spec fn scan_step(s: TutScan, a: Seq<char>) -> TutScan {
    let n = lower_seq(a);
    if n == "-f"@ || n == "-force"@ {
        TutScan { force: true, ..s }
    } else if n == "origin"@ {
        TutScan { origin: true, ..s }
    } else if n == "file"@ && !s.file {
        TutScan { file: true, ..s }
    } else if n == "motion"@ && !s.motion {
        TutScan { motion: true, ..s }
    } else if s.file {
        TutScan { file_parts: s.file_parts.push(a), ..s }
    } else if s.motion {
        TutScan { motion_parts: s.motion_parts.push(a), ..s }
    } else {
        TutScan { query: s.query.push(a), ..s }
    }
}

pub open spec fn scan(args: Seq<Seq<char>>) -> TutScan
    decreases args.len(),
{
    if args.len() == 0 {
        TutScan {
            force: false,
            origin: false,
            file: false,
            motion: false,
            query: Seq::empty(),
            file_parts: Seq::empty(),
            motion_parts: Seq::empty(),
        }
    } else {
        scan_step(scan(args.drop_last()), args.last())
    }
}

/// The request that the arguments of `tut` spell.
pub open spec fn spec_request(args: Seq<Seq<char>>) -> TutRequestView {
    if args.len() == 0 {
        TutRequestView::Landing
    } else {
        let s = scan(args);
        let query = spec_trim(spec_join(s.query, " "@));
        if query.len() == 0 {
            TutRequestView::Help
        } else if s.file {
            if s.origin || s.motion || s.file_parts.len() > 0 {
                TutRequestView::InvalidFile
            } else {
                TutRequestView::Search { query, force: s.force, operation: TutOperationView::File }
            }
        } else if s.motion {
            if s.origin {
                TutRequestView::InvalidMotion
            } else {
                match spec_parse_motion(s.motion_parts, Seq::empty()) {
                    Some(req) => TutRequestView::Search { query, force: s.force, operation: TutOperationView::Motion(req) },
                    None => TutRequestView::InvalidMotion,
                }
            }
        } else {
            TutRequestView::Search {
                query,
                force: s.force,
                operation: if s.origin {
                    TutOperationView::Origin
                } else {
                    TutOperationView::Detail
                },
            }
        }
    }
}

fn push_copy(parts: &mut Vec<String>, value: &String)
    ensures
        string_views(final(parts)@) == string_views(old(parts)@).push(value@),
{
    let copy = string_of(chars_of(value.as_str()).as_slice());
    let ghost before = parts@;
    parts.push(copy);
    assert(string_views(parts@) =~= string_views(before).push(value@));
}

/// Reads the arguments of `tut`.
pub fn parse_request(arguments: &[String]) -> (r: TutRequest)
    ensures
        r@ == spec_request(string_views(arguments@)),
{
    let ghost a = string_views(arguments@);
    if arguments.len() == 0 {
        return TutRequest::Landing;
    }
    let mut force = false;
    let mut origin = false;
    let mut file = false;
    let mut motion = false;
    let mut query_parts: Vec<String> = Vec::new();
    let mut file_parts: Vec<String> = Vec::new();
    let mut motion_parts: Vec<String> = Vec::new();
    let mut i: usize = 0;
    assert(a.take(0) =~= Seq::<Seq<char>>::empty());
    assert(string_views(query_parts@) =~= Seq::<Seq<char>>::empty());
    assert(string_views(file_parts@) =~= Seq::<Seq<char>>::empty());
    assert(string_views(motion_parts@) =~= Seq::<Seq<char>>::empty());
    while i < arguments.len()
        invariant
            i <= arguments@.len(),
            a == string_views(arguments@),
            scan(a.take(i as int)) == (TutScan {
                force,
                origin,
                file,
                motion,
                query: string_views(query_parts@),
                file_parts: string_views(file_parts@),
                motion_parts: string_views(motion_parts@),
            }),
        decreases arguments@.len() - i,
    {
        assert(a.take(i + 1).drop_last() =~= a.take(i as int));
        assert(a.take(i + 1).last() == arguments@[i as int]@);
        let raw = chars_of(arguments[i].as_str());
        let n = to_lower(raw.as_slice());
        if eq_str(n.as_slice(), "-f") || eq_str(n.as_slice(), "-force") {
            force = true;
        } else if eq_str(n.as_slice(), "origin") {
            origin = true;
        } else if eq_str(n.as_slice(), "file") && !file {
            file = true;
        } else if eq_str(n.as_slice(), "motion") && !motion {
            motion = true;
        } else if file {
            push_copy(&mut file_parts, &arguments[i]);
        } else if motion {
            push_copy(&mut motion_parts, &arguments[i]);
        } else {
            push_copy(&mut query_parts, &arguments[i]);
        }
        i += 1;
    }
    assert(a.take(i as int) =~= a);
    let qv = strings_chars(&query_parts);
    let joined = join_str(qv.as_slice(), " ");
    let query_chars = trim(joined.as_slice());
    if query_chars.len() == 0 {
        return TutRequest::Help;
    }
    let query = string_of(query_chars.as_slice());
    if file {
        if origin || motion || file_parts.len() > 0 {
            return TutRequest::InvalidFile;
        }
        return TutRequest::Search { query, force, operation: TutOperation::File };
    }
    if motion {
        if origin {
            return TutRequest::InvalidMotion;
        }
        let no_forms: Vec<&str> = Vec::new();
        assert(str_views(no_forms@) =~= Seq::<Seq<char>>::empty());
        return match parse_motion_arguments(motion_parts.as_slice(), no_forms.as_slice()) {
            Some(request) => TutRequest::Search { query, force, operation: TutOperation::Motion(request) },
            None => TutRequest::InvalidMotion,
        };
    }
    TutRequest::Search {
        query,
        force,
        operation: if origin {
            TutOperation::Origin
        } else {
            TutOperation::Detail
        },
    }
}

fn strings_chars(values: &Vec<String>) -> (r: Vec<Vec<char>>)
    ensures
        views(r@) == string_views(values@),
{
    let r = crate::text::chars_of_all(values.as_slice());
    assert(views(r@) =~= string_views(values@));
    r
}

// ---------------------------------------------------------------------------
// Enemy search
// ---------------------------------------------------------------------------

#[derive(Clone, Debug, PartialEq, Eq)]
pub struct EnemySearchEntry {
    pub id: usize,
    pub display_name: String,
    pub aliases: Vec<String>,
}

pub struct EnemySearchData {
    pub entries: Vec<EnemySearchEntry>,
    pub id_index: HashMap<usize, usize>,
}

#[derive(Clone, Debug, PartialEq, Eq)]
pub struct TutSearchMatch {
    pub enemy: EnemySearchEntry,
    pub matched_alias: Option<String>,
}

pub struct EnemyView {
    pub id: usize,
    pub display_name: Seq<char>,
    pub aliases: Seq<Seq<char>>,
}

pub open spec fn enemy_view(e: EnemySearchEntry) -> EnemyView {
    EnemyView { id: e.id, display_name: e.display_name@, aliases: string_views(e.aliases@) }
}

pub open spec fn match_view(m: TutSearchMatch) -> (EnemyView, Option<Seq<char>>) {
    (enemy_view(m.enemy), match m.matched_alias {
        Some(a) => Some(a@),
        None => None,
    })
}

/// Whether every word occurs in a name (normalised unless forced).
pub open spec fn spec_name_matches(name: Seq<char>, words: Seq<Seq<char>>, force: bool) -> bool {
    let searchable = if force {
        name
    } else {
        spec_normalize(name)
    };
    forall|i: int| 0 <= i < words.len() ==> spec_contains(searchable, #[trigger] words[i])
}

pub fn name_matches(name: &str, words: &Vec<Vec<char>>, force: bool) -> (r: bool)
    ensures
        r == spec_name_matches(name@, views(words@), force),
{
    let searchable = if force {
        chars_of(name)
    } else {
        let n = normalize_search_text(name);
        chars_of(n.as_str())
    };
    let mut i: usize = 0;
    while i < words.len()
        invariant
            i <= words@.len(),
            searchable@ == (if force {
                name@
            } else {
                spec_normalize(name@)
            }),
            forall|j: int| 0 <= j < i ==> spec_contains(searchable@, #[trigger] views(words@)[j]),
        decreases words@.len() - i,
    {
        if !contains(searchable.as_slice(), words[i].as_slice()) {
            assert(!spec_contains(searchable@, views(words@)[i as int]));
            return false;
        }
        i += 1;
    }
    true
}

/// The first alias that matches, if any.
pub open spec fn first_alias(aliases: Seq<Seq<char>>, words: Seq<Seq<char>>, force: bool) -> Option<Seq<char>>
    decreases aliases.len(),
{
    if aliases.len() == 0 {
        None
    } else if spec_name_matches(aliases[0], words, force) {
        Some(aliases[0])
    } else {
        first_alias(aliases.drop_first(), words, force)
    }
}

/// The matches among the entries: by display name, else by first alias.
pub open spec fn spec_matches(entries: Seq<EnemyView>, words: Seq<Seq<char>>, force: bool) -> Seq<(EnemyView, Option<Seq<char>>)>
    decreases entries.len(),
{
    if entries.len() == 0 {
        Seq::empty()
    } else {
        let prev = spec_matches(entries.drop_last(), words, force);
        let e = entries.last();
        if spec_name_matches(e.display_name, words, force) {
            prev.push((e, None))
        } else {
            match first_alias(e.aliases, words, force) {
                Some(a) => prev.push((e, Some(a))),
                None => prev,
            }
        }
    }
}

pub open spec fn entry_views(entries: Seq<EnemySearchEntry>) -> Seq<EnemyView> {
    entries.map_values(|e: EnemySearchEntry| enemy_view(e))
}

pub open spec fn matches_view(ms: Seq<TutSearchMatch>) -> Seq<(EnemyView, Option<Seq<char>>)> {
    ms.map_values(|m: TutSearchMatch| match_view(m))
}

/// The enemies that a query finds: the one with that id when the query is an
/// id that the index knows, else those whose names hold every word.
pub open spec fn spec_search(data_entries: Seq<EnemySearchEntry>, id_index: Map<usize, usize>, query: Seq<char>, force: bool) -> Seq<(EnemyView, Option<Seq<char>>)> {
    let trimmed = spec_trim(query);
    if trimmed.len() == 0 {
        Seq::empty()
    } else if all_digits(trimmed) && parse_usize_spec(trimmed) is Some && id_index.contains_key(parse_usize_spec(trimmed).unwrap()) {
        seq![(enemy_view(data_entries[id_index[parse_usize_spec(trimmed).unwrap()] as int]), None)]
    } else {
        let searchable = if force {
            trimmed
        } else {
            spec_normalize(trimmed)
        };
        spec_matches(entry_views(data_entries), spec_words(searchable), force)
    }
}

pub open spec fn index_valid(data: &EnemySearchData) -> bool {
    forall|k: usize| #[trigger] data.id_index@.contains_key(k) ==> data.id_index@[k] < data.entries@.len()
}

fn copy_entry(e: &EnemySearchEntry) -> (r: EnemySearchEntry)
    ensures
        enemy_view(r) == enemy_view(*e),
{
    let mut aliases: Vec<String> = Vec::new();
    let mut i: usize = 0;
    while i < e.aliases.len()
        invariant
            i <= e.aliases@.len(),
            string_views(aliases@) == string_views(e.aliases@).take(i as int),
        decreases e.aliases@.len() - i,
    {
        push_copy(&mut aliases, &e.aliases[i]);
        assert(string_views(e.aliases@).take(i + 1) =~= string_views(e.aliases@).take(i as int).push(e.aliases@[i as int]@));
        i += 1;
    }
    assert(string_views(e.aliases@).take(i as int) =~= string_views(e.aliases@));
    EnemySearchEntry {
        id: e.id,
        display_name: string_of(chars_of(e.display_name.as_str()).as_slice()),
        aliases,
    }
}

fn find_alias(aliases: &Vec<String>, words: &Vec<Vec<char>>, force: bool) -> (r: Option<String>)
    ensures
        match r {
            Some(a) => first_alias(string_views(aliases@), views(words@), force) == Some(a@),
            None => first_alias(string_views(aliases@), views(words@), force) is None,
        },
{
    let ghost all = string_views(aliases@);
    let mut i: usize = 0;
    assert(all.skip(0) =~= all);
    while i < aliases.len()
        invariant
            i <= aliases@.len(),
            all == string_views(aliases@),
            first_alias(all, views(words@), force) == first_alias(all.skip(i as int), views(words@), force),
        decreases aliases@.len() - i,
    {
        assert(all.skip(i as int)[0] == aliases@[i as int]@);
        assert(all.skip(i as int).drop_first() =~= all.skip(i + 1));
        if name_matches(aliases[i].as_str(), words, force) {
            return Some(string_of(chars_of(aliases[i].as_str()).as_slice()));
        }
        i += 1;
    }
    None
}

/// Finds the enemies that a query names.
pub fn search_enemies(data: &EnemySearchData, query: &str, force: bool) -> (r: Vec<TutSearchMatch>)
    requires
        index_valid(data),
    ensures
        matches_view(r@) == spec_search(data.entries@, data.id_index@, query@, force),
{
    let q = chars_of(query);
    let trimmed = trim(q.as_slice());
    if trimmed.len() == 0 {
        return Vec::new();
    }
    let digits = is_all_digits(trimmed.as_slice());
    let parsed = if digits {
        parse_usize(trimmed.as_slice())
    } else {
        None
    };
    if let Some(id) = parsed {
        match data.id_index.get(&id) {
            Some(index) => {
                assert(data.id_index@.contains_key(id));
                let enemy = copy_entry(&data.entries[*index]);
                let mut r: Vec<TutSearchMatch> = Vec::new();
                r.push(TutSearchMatch { enemy, matched_alias: None });
                assert(matches_view(r@) =~= seq![(enemy_view(data.entries@[*index as int]), None::<Seq<char>>)]);
                return r;
            },
            None => {
                assert(!data.id_index@.contains_key(id));
            },
        }
    }
    assert(!(all_digits(trimmed@) && parse_usize_spec(trimmed@) is Some && data.id_index@.contains_key(parse_usize_spec(trimmed@).unwrap())));
    let searchable = if force {
        crate::text::slice(trimmed.as_slice(), 0, trimmed.len())
    } else {
        let t = string_of(trimmed.as_slice());
        let n = normalize_search_text(t.as_str());
        chars_of(n.as_str())
    };
    assert(searchable@ == (if force {
        spec_trim(query@)
    } else {
        spec_normalize(spec_trim(query@))
    }));
    let words = words(searchable.as_slice());
    let ghost ev = entry_views(data.entries@);
    let mut matches: Vec<TutSearchMatch> = Vec::new();
    let mut k: usize = 0;
    while k < data.entries.len()
        invariant
            k <= data.entries@.len(),
            ev == entry_views(data.entries@),
            matches_view(matches@) == spec_matches(ev.take(k as int), views(words@), force),
        decreases data.entries@.len() - k,
    {
        let enemy = &data.entries[k];
        assert(ev.take(k + 1).drop_last() =~= ev.take(k as int));
        assert(ev.take(k + 1).last() == enemy_view(*enemy));
        if name_matches(enemy.display_name.as_str(), &words, force) {
            let copy = copy_entry(enemy);
            let ghost before = matches@;
            matches.push(TutSearchMatch { enemy: copy, matched_alias: None });
            assert(matches_view(matches@) =~= matches_view(before).push((enemy_view(*enemy), None)));
        } else {
            match find_alias(&enemy.aliases, &words, force) {
                Some(alias) => {
                    let copy = copy_entry(enemy);
                    let ghost before = matches@;
                    let ghost av = alias@;
                    matches.push(TutSearchMatch { enemy: copy, matched_alias: Some(alias) });
                    assert(matches_view(matches@) =~= matches_view(before).push((enemy_view(*enemy), Some(av))));
                },
                None => {},
            }
        }
        k += 1;
    }
    assert(ev.take(k as int) =~= ev);
    matches
}

/// The name to show for a match: a dummy enemy is named by the alias that
/// matched, or its first other alias.
pub open spec fn spec_display_name(m: (EnemyView, Option<Seq<char>>)) -> Seq<char> {
    if m.0.display_name != "ダミー"@ {
        m.0.display_name
    } else {
        let alias = match m.1 {
            Some(a) => Some(a),
            None => first_not_dummy(m.0.aliases),
        };
        match alias {
            Some(a) => a + " (ダミー)"@,
            None => "ダミー"@,
        }
    }
}

pub open spec fn first_not_dummy(aliases: Seq<Seq<char>>) -> Option<Seq<char>>
    decreases aliases.len(),
{
    if aliases.len() == 0 {
        None
    } else if aliases[0] != "ダミー"@ {
        Some(aliases[0])
    } else {
        first_not_dummy(aliases.drop_first())
    }
}

pub fn display_name(matched: &TutSearchMatch) -> (r: String)
    ensures
        r@ == spec_display_name(match_view(*matched)),
{
    let name = chars_of(matched.enemy.display_name.as_str());
    if !eq_str(name.as_slice(), "ダミー") {
        return string_of(name.as_slice());
    }
    let alias: Option<Vec<char>> = match &matched.matched_alias {
        Some(a) => Some(chars_of(a.as_str())),
        None => first_other_alias(&matched.enemy.aliases),
    };
    match alias {
        Some(a) => {
            let mut v = a;
            append_str(&mut v, " (ダミー)");
            string_of(v.as_slice())
        },
        None => "ダミー".to_string(),
    }
}

fn first_other_alias(aliases: &Vec<String>) -> (r: Option<Vec<char>>)
    ensures
        match r {
            Some(a) => first_not_dummy(string_views(aliases@)) == Some(a@),
            None => first_not_dummy(string_views(aliases@)) is None,
        },
{
    let ghost all = string_views(aliases@);
    let mut i: usize = 0;
    assert(all.skip(0) =~= all);
    while i < aliases.len()
        invariant
            i <= aliases@.len(),
            all == string_views(aliases@),
            first_not_dummy(all) == first_not_dummy(all.skip(i as int)),
        decreases aliases@.len() - i,
    {
        assert(all.skip(i as int)[0] == aliases@[i as int]@);
        assert(all.skip(i as int).drop_first() =~= all.skip(i + 1));
        let a = chars_of(aliases[i].as_str());
        if !eq_str(a.as_slice(), "ダミー") {
            return Some(a);
        }
        i += 1;
    }
    None
}

/// `<id> <name>`.
pub fn format_label(matched: &TutSearchMatch) -> (r: String)
    ensures
        r@ == decimal(matched.enemy.id as nat) + " "@ + spec_display_name(match_view(*matched)),
{
    let mut v = fmt_usize(matched.enemy.id);
    append_str(&mut v, " ");
    let name = display_name(matched);
    append_str(&mut v, name.as_str());
    string_of(v.as_slice())
}

} // verus!
