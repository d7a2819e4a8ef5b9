//! The `st` command: finding maps and stages by id or by name, and the
//! messages that list them.
use vstd::prelude::*;

use crate::search::{normalize_search_text, spec_normalize};
use crate::stage::{
    entry_view, lookup_key, spec_parse_id_key, stage_index_of, EntryView, IdTarget, KindView, StageEntry,
    StageSearchData,
};
use crate::settings::texts;
use crate::text::{
    append, append_str, chars_of, decimal, eq_ignore_case, fmt_usize, join_str, spec_join, spec_trim, spec_words,
    string_of, string_views, trim, views, words,
};
use crate::tut::{name_matches, spec_name_matches};

verus! {

pub const SEARCH_PAGE_URL: &'static str = "https://jarjarblink.github.io/JDB/map_search.html?cc=ja";

pub const DETAIL_PAGE_URL: &'static str = "https://jarjarblink.github.io/JDB/map.html";

/// How many entries one page of a list shows.
pub const PAGE_SIZE: usize = 20;

pub const NOT_FOUND_MESSAGE: &'static str = "該当するステージが見つかりませんでした。";

pub const LIST_FOOTER: &'static str = "詳細は o.st <ID> で表示できます。";

// ---------------------------------------------------------------------------
// Arguments
// ---------------------------------------------------------------------------

pub enum StRequest {
    Landing,
    Help,
    Search { query: String, force: bool },
}

pub enum StRequestView {
    Landing,
    Help,
    Search { query: Seq<char>, force: bool },
}

impl View for StRequest {
    type V = StRequestView;

    open spec fn view(&self) -> StRequestView {
        match self {
            StRequest::Landing => StRequestView::Landing,
            StRequest::Help => StRequestView::Help,
            StRequest::Search { query, force } => StRequestView::Search { query: query@, force: *force },
        }
    }
}

pub open spec fn is_help(a: Seq<char>) -> bool {
    crate::text::lower_seq(a) == "help"@
}

pub open spec fn is_force(a: Seq<char>) -> bool {
    crate::text::lower_seq(a) == "-f"@ || crate::text::lower_seq(a) == "-force"@
}

/// No arguments: the search page; `help` alone, or nothing to search: the
/// help; else the words joined, after `-f` or `-force` for a search by exact
/// text.
pub open spec fn spec_request(args: Seq<Seq<char>>) -> StRequestView {
    if args.len() == 0 {
        StRequestView::Landing
    } else if args.len() == 1 && is_help(args[0]) {
        StRequestView::Help
    } else {
        let force = is_force(args[0]);
        let query = spec_trim(spec_join(if force { args.skip(1) } else { args }, " "@));
        if query.len() == 0 {
            StRequestView::Help
        } else {
            StRequestView::Search { query, force }
        }
    }
}

pub fn parse_request(arguments: &[String]) -> (r: StRequest)
    ensures
        r@ == spec_request(string_views(arguments@)),
{
    let ghost a = string_views(arguments@);
    if arguments.len() == 0 {
        return StRequest::Landing;
    }
    let first = chars_of(arguments[0].as_str());
    assert(first@ == a[0]);
    proof {
        reveal_strlit("help");
        reveal_strlit("-f");
        reveal_strlit("-force");
        assert(crate::text::lower_seq("help"@) =~= "help"@);
        assert(crate::text::lower_seq("-f"@) =~= "-f"@);
        assert(crate::text::lower_seq("-force"@) =~= "-force"@);
    }
    if arguments.len() == 1 && eq_ignore_case(first.as_slice(), "help") {
        return StRequest::Help;
    }
    let force = eq_ignore_case(first.as_slice(), "-f") || eq_ignore_case(first.as_slice(), "-force");
    let all = crate::text::chars_of_all(arguments);
    let parts = if force {
        crate::text::skip_args(&all, 1)
    } else {
        crate::text::skip_args(&all, 0)
    };
    assert(views(parts@) == if force { a.skip(1) } else { a }) by {
        assert(a.skip(0) =~= a);
    }
    let joined = join_str(parts.as_slice(), " ");
    let query = trim(joined.as_slice());
    if query.len() == 0 {
        StRequest::Help
    } else {
        StRequest::Search { query: string_of(query.as_slice()), force }
    }
}

// ---------------------------------------------------------------------------
// Searching
// ---------------------------------------------------------------------------

pub open spec fn ref_views(v: Seq<&StageEntry>) -> Seq<EntryView> {
    v.map_values(|e: &StageEntry| entry_view(*e))
}

/// A map is found when one of its names holds every word.
pub open spec fn map_found(e: EntryView, words: Seq<Seq<char>>, force: bool) -> bool {
    match e.kind {
        KindView::WholeMap { search_names } => exists|i: int|
            0 <= i < search_names.len() && spec_name_matches(#[trigger] search_names[i], words, force),
        KindView::Stage { .. } => spec_name_matches(e.display_name, words, force),
    }
}

/// What the id query finds in the data, if it is an id the data knows.
pub open spec fn id_entry(data: StageSearchData, query: Seq<char>) -> Option<EntryView> {
    match spec_parse_id_key(spec_trim(query), texts(data.display_types@)) {
        None => None,
        Some(key) => match lookup_key(data@.index, key) {
            None => None,
            Some(IdTarget::WholeMap(i)) => Some(data@.maps[i as int]),
            Some(IdTarget::Stage(i)) => Some(data@.stages[i as int]),
        },
    }
}

/// The maps, then the stages, whose names hold every word of the query;
/// without `force` an id finds its entry alone, and names and words are
/// compared normalized.
pub open spec fn spec_search(data: StageSearchData, query: Seq<char>, force: bool) -> Seq<EntryView> {
    let trimmed = spec_trim(query);
    if trimmed.len() == 0 {
        Seq::empty()
    } else if !force && id_entry(data, trimmed) is Some {
        seq![id_entry(data, trimmed)->Some_0]
    } else {
        let w = spec_words(
            if force {
                trimmed
            } else {
                spec_normalize(trimmed)
            },
        );
        data@.maps.filter(|e: EntryView| map_found(e, w, force)) + data@.stages.filter(
            |e: EntryView| map_found(e, w, force),
        )
    }
}

fn any_name_matches(names: &Vec<String>, words: &Vec<Vec<char>>, force: bool) -> (r: bool)
    ensures
        r == (exists|i: int| 0 <= i < names@.len() && spec_name_matches(#[trigger] string_views(names@)[i], views(words@), force)),
{
    let mut i: usize = 0;
    while i < names.len()
        invariant
            i <= names@.len(),
            forall|k: int| 0 <= k < i ==> !spec_name_matches(#[trigger] string_views(names@)[k], views(words@), force),
        decreases names@.len() - i,
    {
        if name_matches(names[i].as_str(), words, force) {
            assert(string_views(names@)[i as int] == names@[i as int]@);
            return true;
        }
        i += 1;
    }
    false
}

fn entry_found(e: &StageEntry, words: &Vec<Vec<char>>, force: bool) -> (r: bool)
    ensures
        r == map_found(entry_view(*e), views(words@), force),
{
    match &e.kind {
        crate::stage::StageKind::WholeMap { search_names } => {
            let r = any_name_matches(search_names, words, force);
            let ghost sv = string_views(search_names@);
            assert(entry_view(*e).kind == (KindView::WholeMap { search_names: sv }));
            assert(r == (exists|i: int| 0 <= i < sv.len() && spec_name_matches(#[trigger] sv[i], views(words@), force)));
            let ghost ev = entry_view(*e);
            let ghost w = views(words@);
            assert(ev.kind->WholeMap_search_names == sv);
            assert(map_found(ev, w, force) == (exists|i: int| 0 <= i < ev.kind->WholeMap_search_names.len() && spec_name_matches(#[trigger] ev.kind->WholeMap_search_names[i], w, force)));
            assert(map_found(entry_view(*e), views(words@), force) == (exists|i: int| 0 <= i < sv.len() && spec_name_matches(#[trigger] sv[i], views(words@), force)));
            assert(r == map_found(entry_view(*e), views(words@), force)) by {
                if r {
                    let i = choose|i: int| 0 <= i < sv.len() && spec_name_matches(#[trigger] sv[i], views(words@), force);
                    assert(spec_name_matches(sv[i], views(words@), force));
                } else {
                    assert(forall|i: int| 0 <= i < sv.len() ==> !spec_name_matches(#[trigger] sv[i], views(words@), force));
                }
            }
            r
        },
        crate::stage::StageKind::Stage { .. } => {
            let r = name_matches(e.display_name.as_str(), words, force);
            assert(entry_view(*e).kind is Stage);
            assert(entry_view(*e).display_name == e.display_name@);
            r
        },
    }
}

fn found_in<'a>(v: &'a Vec<StageEntry>, words: &Vec<Vec<char>>, force: bool, out: &mut Vec<&'a StageEntry>)
    ensures
        ref_views(final(out)@) == ref_views(old(out)@) + crate::stage::entry_views(v@).filter(
            |e: EntryView| map_found(e, views(words@), force),
        ),
{
    let ghost ev = crate::stage::entry_views(v@);
    let ghost start = ref_views(out@);
    let mut i: usize = 0;
    proof {
        reveal(Seq::filter);
    }
    assert(ev.take(0).filter(|e: EntryView| map_found(e, views(words@), force)) =~= Seq::<EntryView>::empty());
    assert(start + Seq::<EntryView>::empty() =~= start);
    while i < v.len()
        invariant
            i <= v@.len(),
            ev == crate::stage::entry_views(v@),
            ref_views(out@) == start + ev.take(i as int).filter(|e: EntryView| map_found(e, views(words@), force)),
        decreases v@.len() - i,
    {
        proof {
            reveal(Seq::filter);
        }
        assert(ev.take(i + 1).drop_last() =~= ev.take(i as int));
        assert(ev.take(i + 1).last() == entry_view(v@[i as int]));
        let ghost before = ref_views(out@);
        if entry_found(&v[i], words, force) {
            out.push(&v[i]);
            assert(ref_views(out@) =~= before.push(entry_view(v@[i as int])));
        }
        assert(ref_views(out@) =~= start + ev.take(i + 1).filter(|e: EntryView| map_found(e, views(words@), force)));
        i += 1;
    }
    assert(ev.take(i as int) =~= ev);
}

/// The maps and stages that a query finds, as `spec_search` says.
pub fn search_stages<'a>(data: &'a StageSearchData, query: &str, force: bool) -> (r: Vec<&'a StageEntry>)
    requires
        data.wf(),
    ensures
        ref_views(r@) == spec_search(*data, query@, force),
{
    let trimmed = trim(chars_of(query).as_slice());
    let mut out: Vec<&'a StageEntry> = Vec::new();
    if trimmed.len() == 0 {
        assert(ref_views(out@) =~= Seq::<EntryView>::empty());
        return out;
    }
    let t = string_of(trimmed.as_slice());
    proof {
        crate::text::lemma_trim_idempotent(query@);
    }
    assert(t@ == spec_trim(query@));
    if !force {
        let found = data.find_by_id(t.as_str());
        proof {
            match spec_parse_id_key(spec_trim(t@), texts(data.display_types@)) {
                Some(key) => {
                    crate::stage::lemma_lookup_in(data@.index, key);
                },
                None => {},
            }
        }
        assert(id_entry(*data, t@) == match found {
            Some(e) => Some(entry_view(*e)),
            None => None::<EntryView>,
        });
        match found {
            Some(e) => {
                out.push(e);
                assert(ref_views(out@) =~= seq![entry_view(*e)]);
                return out;
            },
            None => {},
        }
    }
    let searchable = if force {
        trimmed
    } else {
        chars_of(normalize_search_text(t.as_str()).as_str())
    };
    let w = words(searchable.as_slice());
    assert(ref_views(out@) =~= Seq::<EntryView>::empty());
    found_in(&data.maps, &w, force, &mut out);
    found_in(&data.stages, &w, force, &mut out);
    assert(ref_views(out@) =~= Seq::<EntryView>::empty() + data@.maps.filter(|e: EntryView| map_found(e, views(w@), force))
        + data@.stages.filter(|e: EntryView| map_found(e, views(w@), force)));
    out
}

// ---------------------------------------------------------------------------
// Messages
// ---------------------------------------------------------------------------

/// `{display id} {display name}`.
pub open spec fn spec_label(e: EntryView) -> Seq<char> {
    e.display_id + " "@ + e.display_name
}

pub fn format_label(entry: &StageEntry) -> (r: String)
    ensures
        r@ == spec_label(entry_view(*entry)),
{
    let mut v = chars_of(entry.display_id.as_str());
    append_str(&mut v, " ");
    append(&mut v, chars_of(entry.display_name.as_str()).as_slice());
    string_of(v.as_slice())
}

/// The entry's page on the database: by raw map id for a map found by its
/// id, else by type, map and, for a stage, its index.
pub open spec fn spec_url(e: EntryView, raw_map_id: bool) -> Seq<char> {
    if raw_map_id && e.kind is WholeMap {
        DETAIL_PAGE_URL@ + "?cc=ja&id="@ + decimal(e.raw_map_id as nat)
    } else {
        DETAIL_PAGE_URL@ + "?cc=ja&type="@ + e.jdb_type + "&map="@ + decimal(e.jdb_map as nat) + match stage_index_of(e) {
            Some(i) => "&stage="@ + decimal(i as nat),
            None => Seq::empty(),
        }
    }
}

proof fn lemma_decimal_nonempty(n: nat)
    ensures
        decimal(n).len() >= 1,
    decreases n,
{
    if n >= 10 {
        lemma_decimal_nonempty(n / 10);
    }
}

/// The end of a stage's link: `&stage=` and its index.
pub open spec fn stage_suffix(i: usize) -> Seq<char> {
    seq!['&', 's', 't', 'a', 'g', 'e', '='] + decimal(i as nat)
}

/// The link of a stage ends with `&stage=` and the stage's index, and it is
/// the link of the stage's map (same type and map) followed by that ending;
pub proof fn lemma_stage_link(e: EntryView, raw_map_id: bool)
    ensures
        stage_index_of(e) matches Some(i) ==> {
            let u = spec_url(e, raw_map_id);
            let s = stage_suffix(i);
            &&& u.len() > s.len()
            &&& u.skip(u.len() - s.len()) == s
            &&& u == spec_url(
                EntryView { kind: KindView::WholeMap { search_names: Seq::empty() }, ..e },
                false,
            ) + s
        },
{
    reveal_strlit("&stage=");
    assert("&stage="@ =~= seq!['&', 's', 't', 'a', 'g', 'e', '=']);
    if let Some(i) = stage_index_of(e) {
        let m = EntryView { kind: KindView::WholeMap { search_names: Seq::empty() }, ..e };
        let base = DETAIL_PAGE_URL@ + "?cc=ja&type="@ + e.jdb_type + "&map="@ + decimal(e.jdb_map as nat);
        assert(spec_url(m, false) == base + Seq::<char>::empty());
        assert(spec_url(m, false) =~= base);
        assert(spec_url(e, raw_map_id) == base + stage_suffix(i));
        lemma_decimal_nonempty(i as nat);
        let u = spec_url(e, raw_map_id);
        assert(u.skip(u.len() - stage_suffix(i).len()) =~= stage_suffix(i));
    }
}

pub fn format_url(entry: &StageEntry, raw_map_id: bool) -> (r: String)
    ensures
        r@ == spec_url(entry_view(*entry), raw_map_id),
        stage_index_of(entry_view(*entry)) matches Some(i) ==> r@.len() > stage_suffix(i).len() && r@.skip(
            r@.len() - stage_suffix(i).len(),
        ) == stage_suffix(i),
{
    proof {
        lemma_stage_link(entry_view(*entry), raw_map_id);
    }
    let mut v = chars_of(DETAIL_PAGE_URL);
    if raw_map_id && entry.is_map() {
        append_str(&mut v, "?cc=ja&id=");
        append(&mut v, fmt_usize(entry.raw_map_id).as_slice());
        return string_of(v.as_slice());
    }
    append_str(&mut v, "?cc=ja&type=");
    append(&mut v, chars_of(entry.jdb_type.as_str()).as_slice());
    append_str(&mut v, "&map=");
    append(&mut v, fmt_usize(entry.jdb_map).as_slice());
    let ghost base = v@;
    match entry.stage_index() {
        Some(i) => {
            append_str(&mut v, "&stage=");
            append(&mut v, fmt_usize(i).as_slice());
        },
        None => {
            assert(v@ =~= base + Seq::<char>::empty());
        },
    }
    string_of(v.as_slice())
}

pub open spec fn spec_detail(e: EntryView, raw_map_id: bool) -> Seq<char> {
    spec_label(e) + "\n"@ + spec_url(e, raw_map_id)
}

pub fn format_detail(entry: &StageEntry, raw_map_id: bool) -> (r: String)
    ensures
        r@ == spec_detail(entry_view(*entry), raw_map_id),
{
    let mut v = chars_of(format_label(entry).as_str());
    append_str(&mut v, "\n");
    append(&mut v, chars_of(format_url(entry, raw_map_id).as_str()).as_slice());
    string_of(v.as_slice())
}

/// `ステージ「{query}」検索結果（{total}件）`, with `・{page}/{pages}ページ`
/// before the closing bracket when a page is given.
pub open spec fn spec_header(query: Seq<char>, total: usize, page: Option<(usize, usize)>) -> Seq<char> {
    "ステージ「"@ + query + "」検索結果（"@ + decimal(total as nat) + "件"@ + match page {
        Some((index, count)) => "・"@ + decimal(index as nat + 1) + "/"@ + decimal(count as nat) + "ページ"@,
        None => Seq::empty(),
    } + "）"@
}

pub fn format_header(query: &str, total: usize, page: Option<(usize, usize)>) -> (r: String)
    requires
        page matches Some((index, _)) ==> index < usize::MAX,
    ensures
        r@ == spec_header(query@, total, page),
{
    let mut v = chars_of("ステージ「");
    append(&mut v, chars_of(query).as_slice());
    append_str(&mut v, "」検索結果（");
    append(&mut v, fmt_usize(total).as_slice());
    append_str(&mut v, "件");
    let ghost base = v@;
    match page {
        Some((index, count)) => {
            append_str(&mut v, "・");
            append(&mut v, fmt_usize(index + 1).as_slice());
            append_str(&mut v, "/");
            append(&mut v, fmt_usize(count).as_slice());
            append_str(&mut v, "ページ");
        },
        None => {
            assert(v@ =~= base + Seq::<char>::empty());
        },
    }
    append_str(&mut v, "）");
    string_of(v.as_slice())
}

/// The header, the lines in a text code block, and the footer.
pub open spec fn framed(header: Seq<char>, lines: Seq<Seq<char>>, footer: Seq<char>) -> Seq<char> {
    header + "\n```text\n"@ + spec_join(lines, "\n"@) + "\n```\n"@ + footer
}

fn frame(header: String, lines: &Vec<Vec<char>>, footer: &str) -> (r: String)
    ensures
        r@ == framed(header@, views(lines@), footer@),
{
    let mut v = chars_of(header.as_str());
    append_str(&mut v, "\n```text\n");
    append(&mut v, join_str(lines.as_slice(), "\n").as_slice());
    append_str(&mut v, "\n```\n");
    append(&mut v, chars_of(footer).as_slice());
    string_of(v.as_slice())
}

/// The found entries numbered with the reactions that choose them.
pub open spec fn selection_lines(ms: Seq<EntryView>) -> Seq<Seq<char>> {
    Seq::new(ms.len(), |i: int| crate::maint::number_emojis()[i] + " "@ + spec_label(ms[i]))
}

pub fn format_selection(query: &str, matches: &Vec<&StageEntry>, footer: &str) -> (r: String)
    requires
        matches@.len() <= 9,
    ensures
        r@ == framed(spec_header(query@, matches@.len() as usize, None), selection_lines(ref_views(matches@)), footer@),
{
    let ghost mv = ref_views(matches@);
    let mut lines: Vec<Vec<char>> = Vec::new();
    let mut i: usize = 0;
    while i < matches.len()
        invariant
            i <= matches@.len() <= 9,
            mv == ref_views(matches@),
            views(lines@) == selection_lines(mv).take(i as int),
        decreases matches@.len() - i,
    {
        let emoji = crate::maint::number_emoji(i).unwrap();
        let mut line = chars_of(emoji);
        append_str(&mut line, " ");
        append(&mut line, chars_of(format_label(matches[i]).as_str()).as_slice());
        let ghost before = views(lines@);
        assert(mv[i as int] == entry_view(*matches@[i as int]));
        lines.push(line);
        assert(views(lines@) =~= before.push(line@));
        assert(views(lines@) =~= selection_lines(mv).take(i + 1));
        i += 1;
    }
    assert(selection_lines(mv).take(i as int) =~= selection_lines(mv));
    frame(format_header(query, matches.len(), None), &lines, footer)
}

/// The number of pages that `n` entries fill.
pub open spec fn page_count(n: nat) -> nat {
    ((n + PAGE_SIZE - 1) / PAGE_SIZE as int) as nat
}

/// The labels of one page of entries.
pub open spec fn page_lines(ms: Seq<EntryView>, page_index: nat) -> Seq<Seq<char>> {
    let from = page_index * PAGE_SIZE;
    let to = if from + PAGE_SIZE <= ms.len() {
        from + PAGE_SIZE
    } else {
        ms.len() as int
    };
    if from >= ms.len() {
        Seq::empty()
    } else {
        ms.subrange(from as int, to).map_values(|e: EntryView| spec_label(e))
    }
}

pub fn format_page(query: &str, matches: &Vec<&StageEntry>, page_index: usize, footer: &str, include_page_count: bool) -> (r: String)
    requires
        page_index < usize::MAX / PAGE_SIZE,
    ensures
        r@ == framed(
            spec_header(
                query@,
                matches@.len() as usize,
                if include_page_count {
                    Some((page_index, page_count(matches@.len()) as usize))
                } else {
                    None
                },
            ),
            page_lines(ref_views(matches@), page_index as nat),
            footer@,
        ),
{
    let ghost mv = ref_views(matches@);
    let n = matches.len();
    let count = n / PAGE_SIZE + if n % PAGE_SIZE == 0 {
        0
    } else {
        1
    };
    assert(count == page_count(n as nat)) by (nonlinear_arith)
        requires
            count == n / 20 + if n % 20 == 0 {
                0int
            } else {
                1int
            },
    {
    }
    let from = page_index * PAGE_SIZE;
    let mut lines: Vec<Vec<char>> = Vec::new();
    if from < n {
        let to = if n - from >= PAGE_SIZE {
            from + PAGE_SIZE
        } else {
            n
        };
        let mut k: usize = from;
        while k < to
            invariant
                from <= k <= to <= n,
                mv == ref_views(matches@),
                n == matches@.len(),
                views(lines@) == mv.subrange(from as int, k as int).map_values(|e: EntryView| spec_label(e)),
            decreases to - k,
        {
            let label = format_label(matches[k]);
            assert(mv[k as int] == entry_view(*matches@[k as int]));
            let ghost before = views(lines@);
            let lc = chars_of(label.as_str());
            lines.push(lc);
            assert(views(lines@) =~= before.push(lc@));
            assert(views(lines@) =~= mv.subrange(from as int, k + 1).map_values(|e: EntryView| spec_label(e)));
            k += 1;
        }
    }
    assert(views(lines@) =~= page_lines(mv, page_index as nat));
    let page = if include_page_count {
        Some((page_index, count))
    } else {
        None
    };
    frame(format_header(query, n, page), &lines, footer)
}

/// The reactions of a page: back unless it is the first, on unless it is the
/// last.
pub open spec fn spec_page_reactions(total: nat, page_index: nat) -> Seq<Seq<char>> {
    (if page_index > 0 {
        seq!["◀️"@]
    } else {
        Seq::empty()
    }) + if page_index + 1 < page_count(total) {
        seq!["▶️"@]
    } else {
        Seq::empty()
    }
}

pub fn page_reactions(total: usize, page_index: usize) -> (r: Vec<String>)
    requires
        page_index < usize::MAX,
    ensures
        string_views(r@) == spec_page_reactions(total as nat, page_index as nat),
{
    let count = total / PAGE_SIZE + if total % PAGE_SIZE == 0 {
        0
    } else {
        1
    };
    assert(count == page_count(total as nat)) by (nonlinear_arith)
        requires
            count == total / 20 + if total % 20 == 0 {
                0int
            } else {
                1int
            },
    {
    }
    let mut r: Vec<String> = Vec::new();
    if page_index > 0 {
        r.push(string_of(chars_of("◀️").as_slice()));
    }
    let ghost first = string_views(r@);
    if page_index + 1 < count {
        r.push(string_of(chars_of("▶️").as_slice()));
    }
    assert(string_views(r@) =~= spec_page_reactions(total as nat, page_index as nat));
    r
}

// ---------------------------------------------------------------------------
// Replies
// ---------------------------------------------------------------------------

pub const SELECTION_FOOTER: &'static str = "数字のリアクションで選択してください。";

/// What a search is answered with.
pub enum StReply {
    NotFound,
    /// One message per entry found.
    Details(Vec<String>),
    /// A numbered list to choose from by reaction.
    Selection { content: String, reactions: Vec<String> },
    /// One page that lists everything found.
    List(String),
    /// The first of several pages, turned by reaction.
    Pages { content: String, reactions: Vec<String> },
}

pub enum StReplyView {
    NotFound,
    Details(Seq<Seq<char>>),
    Selection { content: Seq<char>, reactions: Seq<Seq<char>> },
    List(Seq<char>),
    Pages { content: Seq<char>, reactions: Seq<Seq<char>> },
}

impl View for StReply {
    type V = StReplyView;

    open spec fn view(&self) -> StReplyView {
        match self {
            StReply::NotFound => StReplyView::NotFound,
            StReply::Details(v) => StReplyView::Details(string_views(v@)),
            StReply::Selection { content, reactions } => StReplyView::Selection {
                content: content@,
                reactions: string_views(reactions@),
            },
            StReply::List(c) => StReplyView::List(c@),
            StReply::Pages { content, reactions } => StReplyView::Pages {
                content: content@,
                reactions: string_views(reactions@),
            },
        }
    }
}

/// Up to three entries are shown each with its page, a map found by its id
/// by its raw map id; up to nine are offered for choice; more are listed,
/// twenty to a page.
pub open spec fn spec_reply(data: StageSearchData, query: Seq<char>, force: bool) -> StReplyView {
    let ms = spec_search(data, query, force);
    if ms.len() == 0 {
        StReplyView::NotFound
    } else if ms.len() <= 3 {
        let by_id = !force && id_entry(data, query) is Some;
        StReplyView::Details(Seq::new(ms.len(), |i: int| spec_detail(ms[i], by_id)))
    } else if ms.len() <= 9 {
        StReplyView::Selection {
            content: framed(spec_header(query, ms.len() as usize, None), selection_lines(ms), SELECTION_FOOTER@),
            reactions: crate::maint::number_emojis().take(ms.len() as int),
        }
    } else if ms.len() <= PAGE_SIZE {
        StReplyView::List(framed(spec_header(query, ms.len() as usize, None), page_lines(ms, 0), LIST_FOOTER@))
    } else {
        StReplyView::Pages {
            content: framed(
                spec_header(query, ms.len() as usize, Some((0usize, page_count(ms.len()) as usize))),
                page_lines(ms, 0),
                LIST_FOOTER@,
            ),
            reactions: spec_page_reactions(ms.len(), 0),
        }
    }
}

/// The reply to a search, as `spec_reply` says.
pub fn reply(data: &StageSearchData, query: &str, force: bool) -> (r: StReply)
    requires
        data.wf(),
    ensures
        r@ == spec_reply(*data, query@, force),
{
    let matches = search_stages(data, query, force);
    let ghost ms = ref_views(matches@);
    let n = matches.len();
    if n == 0 {
        return StReply::NotFound;
    }
    if n <= 3 {
        let by_id = !force && data.find_by_id(query).is_some();
        proof {
            match spec_parse_id_key(spec_trim(query@), texts(data.display_types@)) {
                Some(key) => {
                    crate::stage::lemma_lookup_in(data@.index, key);
                },
                None => {},
            }
        }
        let mut out: Vec<String> = Vec::new();
        let mut i: usize = 0;
        while i < n
            invariant
                i <= n == matches@.len(),
                ms == ref_views(matches@),
                string_views(out@) == Seq::new(ms.len(), |k: int| spec_detail(ms[k], by_id)).take(i as int),
            decreases n - i,
        {
            let d = format_detail(matches[i], by_id);
            assert(ms[i as int] == entry_view(*matches@[i as int]));
            let ghost before = string_views(out@);
            out.push(d);
            assert(string_views(out@) =~= before.push(d@));
            assert(string_views(out@) =~= Seq::new(ms.len(), |k: int| spec_detail(ms[k], by_id)).take(i + 1));
            i += 1;
        }
        assert(Seq::new(ms.len(), |k: int| spec_detail(ms[k], by_id)).take(i as int) =~= Seq::new(
            ms.len(),
            |k: int| spec_detail(ms[k], by_id),
        ));
        return StReply::Details(out);
    }
    if n <= 9 {
        let content = format_selection(query, &matches, SELECTION_FOOTER);
        let mut reactions: Vec<String> = Vec::new();
        let mut i: usize = 0;
        while i < n
            invariant
                i <= n <= 9,
                string_views(reactions@) == crate::maint::number_emojis().take(i as int),
            decreases n - i,
        {
            let e = crate::maint::number_emoji(i).unwrap();
            let ghost before = string_views(reactions@);
            let es = string_of(chars_of(e).as_slice());
            reactions.push(es);
            assert(string_views(reactions@) =~= before.push(es@));
            assert(string_views(reactions@) =~= crate::maint::number_emojis().take(i + 1));
            i += 1;
        }
        return StReply::Selection { content, reactions };
    }
    if n <= PAGE_SIZE {
        return StReply::List(format_page(query, &matches, 0, LIST_FOOTER, false));
    }
    let content = format_page(query, &matches, 0, LIST_FOOTER, true);
    StReply::Pages { content, reactions: page_reactions(n, 0) }
}

/// The page a reaction turns to: back by one, not before the first, or on by
/// one.
pub open spec fn spec_turn(page_index: usize, reaction: Seq<char>) -> int {
    if reaction == "◀️"@ {
        if page_index > 0 {
            page_index - 1
        } else {
            0
        }
    } else {
        page_index + 1
    }
}

pub fn turn_page(page_index: usize, reaction: &str) -> (r: usize)
    requires
        page_index < usize::MAX,
    ensures
        r == spec_turn(page_index, reaction@),
{
    if crate::text::eq_str(chars_of(reaction).as_slice(), "◀️") {
        if page_index > 0 {
            page_index - 1
        } else {
            0
        }
    } else {
        page_index + 1
    }
}

} // verus!
