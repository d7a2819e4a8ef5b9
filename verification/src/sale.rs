//! Arguments of the `sale` command, its name tables and stage names.
use vstd::prelude::*;

use crate::item::{replace_breaks, spec_breaks, spec_strip_tags, strip_tags};
use crate::schedule::{ScheduleHeader, TimeBlock};
use crate::text::{
    chars_of, chars_of_all, eq_str, join_str, lower_seq, pad_zero, pad_zero_exec, parse_i64,
    parse_i64_spec, spec_join, spec_trim, string_of, string_views, to_lower, trim, views,
};

verus! {

#[derive(Debug)]
pub enum SaleRequest {
    Schedule,
    Detail { id: i64 },
    Json { id: i64 },
    Raw { id: i64 },
    Search { query: String },
}

pub enum SaleRequestView {
    Schedule,
    Detail { id: i64 },
    Json { id: i64 },
    Raw { id: i64 },
    Search { query: Seq<char> },
}

impl View for SaleRequest {
    type V = SaleRequestView;

    open spec fn view(&self) -> SaleRequestView {
        match self {
            SaleRequest::Schedule => SaleRequestView::Schedule,
            SaleRequest::Detail { id } => SaleRequestView::Detail { id: *id },
            SaleRequest::Json { id } => SaleRequestView::Json { id: *id },
            SaleRequest::Raw { id } => SaleRequestView::Raw { id: *id },
            SaleRequest::Search { query } => SaleRequestView::Search { query: query@ },
        }
    }
}

/// No argument: the schedule; a first argument that trims to an integer: that
/// sale, as JSON after `j`/`json`, raw after `r`/`raw`, else its detail; any
/// other words: a search.
pub open spec fn spec_request(args: Seq<Seq<char>>) -> SaleRequestView {
    if args.len() == 0 {
        SaleRequestView::Schedule
    } else {
        match parse_i64_spec(spec_trim(args[0])) {
            Some(id) => if args.len() > 1 && (lower_seq(args[1]) == "j"@ || lower_seq(args[1])
                == "json"@) {
                SaleRequestView::Json { id }
            } else if args.len() > 1 && (lower_seq(args[1]) == "r"@ || lower_seq(args[1])
                == "raw"@) {
                SaleRequestView::Raw { id }
            } else {
                SaleRequestView::Detail { id }
            },
            None => SaleRequestView::Search { query: spec_trim(spec_join(args, " "@)) },
        }
    }
}

/// Reads the arguments of `sale`.
pub fn parse_request(arguments: &[String]) -> (r: SaleRequest)
    ensures
        r@ == spec_request(string_views(arguments@)),
{
    let args = chars_of_all(arguments);
    let ghost a = string_views(arguments@);
    assert(views(args@) =~= a);
    if args.len() == 0 {
        return SaleRequest::Schedule;
    }
    assert(args@[0]@ == a[0]);
    let first = trim(args[0].as_slice());
    if let Some(id) = parse_i64(first.as_slice()) {
        if args.len() > 1 {
            assert(args@[1]@ == a[1]);
            let modifier = to_lower(args[1].as_slice());
            if eq_str(modifier.as_slice(), "j") || eq_str(modifier.as_slice(), "json") {
                return SaleRequest::Json { id };
            }
            if eq_str(modifier.as_slice(), "r") || eq_str(modifier.as_slice(), "raw") {
                return SaleRequest::Raw { id };
            }
        }
        return SaleRequest::Detail { id };
    }
    let joined = join_str(args.as_slice(), " ");
    let query = trim(joined.as_slice());
    SaleRequest::Search { query: string_of(query.as_slice()) }
}

pub open spec fn spec_is_mission_id(id: i64) -> bool {
    (8_000 <= id <= 9_999) || (15_000 <= id <= 15_999) || (17_000 <= id <= 17_999)
}

/// Ids of missions rather than stages.
pub fn is_mission_id(id: i64) -> (r: bool)
    ensures
        r == spec_is_mission_id(id),
{
    (8_000 <= id && id <= 9_999) || (15_000 <= id && id <= 15_999) || (17_000 <= id && id
        <= 17_999)
}

/// A display name with its breaks replaced, its tags removed and trimmed.
pub open spec fn spec_strip_display_markup(value: Seq<char>, line_break: Seq<char>) -> Seq<char> {
    spec_trim(spec_strip_tags(spec_breaks(value, line_break)))
}

pub fn strip_display_markup(value: &[char], line_break: &str) -> (r: Vec<char>)
    ensures
        r@ == spec_strip_display_markup(value@, line_break@),
{
    let with_breaks = replace_breaks(value, line_break);
    let stripped = strip_tags(with_breaks.as_slice());
    trim(stripped.as_slice())
}

/// A date key padded with zeros to eight characters after trimming.
pub fn normalized_date_key(value: &str) -> (r: String)
    ensures
        r@ == pad_zero(spec_trim(value@), 8),
{
    let v = chars_of(value);
    let t = trim(v.as_slice());
    let p = pad_zero_exec(t.as_slice(), 8);
    string_of(p.as_slice())
}

// ---------------------------------------------------------------------------
// Names kept in the order in which their ids first came
// ---------------------------------------------------------------------------

/// Position of an id in a list of named ids.
pub open spec fn position(s: Seq<(i64, Seq<char>)>, id: i64) -> Option<int>
    decreases s.len(),
{
    if s.len() == 0 {
        None
    } else if s.last().0 == id {
        Some(s.len() - 1)
    } else {
        position(s.drop_last(), id)
    }
}

/// The name of an id.
pub open spec fn lookup(s: Seq<(i64, Seq<char>)>, id: i64) -> Option<Seq<char>> {
    match position(s, id) {
        Some(k) => Some(s[k].1),
        None => None,
    }
}

/// The list after naming an id: a known id keeps its place and takes the new
/// name, a new id goes to the end.
pub open spec fn spec_insert(s: Seq<(i64, Seq<char>)>, id: i64, name: Seq<char>) -> Seq<(i64, Seq<char>)> {
    match position(s, id) {
        Some(k) => s.update(k, (id, name)),
        None => s.push((id, name)),
    }
}

pub open spec fn distinct_ids(s: Seq<(i64, Seq<char>)>) -> bool {
    forall|i: int, j: int| 0 <= i < j < s.len() ==> s[i].0 != s[j].0
}

pub proof fn lemma_position(s: Seq<(i64, Seq<char>)>, id: i64)
    ensures
        match position(s, id) {
            Some(k) => 0 <= k < s.len() && s[k].0 == id,
            None => forall|i: int| 0 <= i < s.len() ==> s[i].0 != id,
        },
    decreases s.len(),
{
    if s.len() > 0 {
        lemma_position(s.drop_last(), id);
        if s.last().0 != id {
            assert forall|i: int| 0 <= i < s.len() - 1 implies s[i] == s.drop_last()[i] by {}
        }
    }
}

proof fn lemma_position_of_distinct(s: Seq<(i64, Seq<char>)>, k: int)
    requires
        distinct_ids(s),
        0 <= k < s.len(),
    ensures
        position(s, s[k].0) == Some(k),
    decreases s.len(),
{
    if k < s.len() - 1 {
        assert(s.last().0 != s[k].0);
        let t = s.drop_last();
        assert(distinct_ids(t));
        assert(t[k] == s[k]);
        lemma_position_of_distinct(t, k);
    }
}

pub struct OrderedNames {
    entries: Vec<(i64, String)>,
}

pub open spec fn named_views(v: Seq<(i64, String)>) -> Seq<(i64, Seq<char>)> {
    v.map_values(|e: (i64, String)| (e.0, e.1@))
}

impl View for OrderedNames {
    type V = Seq<(i64, Seq<char>)>;

    closed spec fn view(&self) -> Seq<(i64, Seq<char>)> {
        named_views(self.entries@)
    }
}

impl OrderedNames {
    #[verifier::type_invariant]
    closed spec fn no_repeated_id(self) -> bool {
        distinct_ids(named_views(self.entries@))
    }

    pub fn new() -> (r: Self)
        ensures
            r@ == Seq::<(i64, Seq<char>)>::empty(),
            distinct_ids(r@),
    {
        let r = OrderedNames { entries: Vec::new() };
        assert(named_views(r.entries@) =~= Seq::<(i64, Seq<char>)>::empty());
        r
    }

    fn find(&self, id: i64) -> (r: Option<usize>)
        ensures
            match r {
                Some(k) => position(self@, id) == Some(k as int),
                None => position(self@, id) is None,
            },
    {
        proof {
            use_type_invariant(self);
            lemma_position(self@, id);
        }
        let mut k: usize = 0;
        while k < self.entries.len()
            invariant
                k <= self.entries@.len(),
                self@ == named_views(self.entries@),
                distinct_ids(self@),
                forall|i: int| 0 <= i < k ==> self@[i].0 != id,
            decreases self.entries@.len() - k,
        {
            if self.entries[k].0 == id {
                proof {
                    assert(self@[k as int].0 == id);
                    lemma_position_of_distinct(self@, k as int);
                }
                return Some(k);
            }
            k += 1;
        }
        proof {
            lemma_position(self@, id);
            match position(self@, id) {
                Some(p) => {
                    assert(self@[p].0 == id);
                },
                None => {},
            }
        }
        None
    }

    /// Names an id: a known id keeps its place, a new one goes last.
    pub fn insert(&mut self, id: i64, name: String)
        ensures
            final(self)@ == spec_insert(old(self)@, id, name@),
            distinct_ids(final(self)@),
    {
        proof {
            use_type_invariant(&*self);
            lemma_position(self@, id);
        }
        let ghost before = self@;
        match self.find(id) {
            Some(k) => {
                let mut entries: Vec<(i64, String)> = Vec::new();
                std::mem::swap(&mut entries, &mut self.entries);
                entries.set(k, (id, name));
                assert(named_views(entries@) =~= before.update(k as int, (id, name@)));
                assert(distinct_ids(named_views(entries@))) by {
                    assert forall|i: int, j: int| 0 <= i < j < entries@.len() implies named_views(entries@)[i].0 != named_views(entries@)[j].0 by {
                        assert(before[k as int].0 == id);
                    }
                }
                self.entries = entries;
            },
            None => {
                let mut entries: Vec<(i64, String)> = Vec::new();
                std::mem::swap(&mut entries, &mut self.entries);
                entries.push((id, name));
                assert(named_views(entries@) =~= before.push((id, name@)));
                self.entries = entries;
            },
        }
    }

    /// The name of an id.
    pub fn get(&self, id: i64) -> (r: Option<&str>)
        ensures
            match r {
                Some(v) => lookup(self@, id) == Some(v@),
                None => lookup(self@, id) is None,
            },
    {
        proof {
            lemma_position(self@, id);
        }
        match self.find(id) {
            Some(k) => {
                assert(self@.len() == self.entries@.len());
                assert(self@[k as int].1 == self.entries@[k as int].1@);
                Some(self.entries[k].1.as_str())
            },
            None => None,
        }
    }

    /// The ids and their names, in the order in which the ids first came.
    pub fn entries(&self) -> (r: Vec<(i64, String)>)
        ensures
            named_views(r@) == self@,
    {
        let mut r: Vec<(i64, String)> = Vec::new();
        let mut k: usize = 0;
        while k < self.entries.len()
            invariant
                k <= self.entries@.len(),
                named_views(r@) == named_views(self.entries@).take(k as int),
            decreases self.entries@.len() - k,
        {
            let (id, name) = &self.entries[k];
            let copy = string_of(chars_of(name.as_str()).as_slice());
            let ghost before = r@;
            r.push((*id, copy));
            assert(named_views(r@) =~= named_views(before).push((self.entries@[k as int].0, self.entries@[k as int].1@)));
            assert(named_views(r@) =~= named_views(self.entries@).take(k + 1));
            k += 1;
        }
        assert(named_views(self.entries@).take(k as int) =~= named_views(self.entries@));
        r
    }
}

/// What naming an id gives back: the new name for it, and the old name for
/// every other id.
pub proof fn lemma_insert_then_lookup(s: Seq<(i64, Seq<char>)>, id: i64, name: Seq<char>, other: i64)
    requires
        distinct_ids(s),
    ensures
        lookup(spec_insert(s, id, name), id) == Some(name),
        other != id ==> lookup(spec_insert(s, id, name), other) == lookup(s, other),
        distinct_ids(spec_insert(s, id, name)),
{
    lemma_position(s, id);
    lemma_position(s, other);
    let t = spec_insert(s, id, name);
    match position(s, id) {
        Some(k) => {
            assert(distinct_ids(t)) by {
                assert forall|i: int, j: int| 0 <= i < j < t.len() implies t[i].0 != t[j].0 by {}
            }
            lemma_position_of_distinct(t, k);
            if other != id {
                lemma_position(t, other);
                match position(s, other) {
                    Some(p) => {
                        assert(t[p] == s[p]);
                        lemma_position_of_distinct(t, p);
                    },
                    None => {
                        match position(t, other) {
                            Some(p) => {
                                assert(t[p] == s[p]);
                            },
                            None => {},
                        }
                    },
                }
            }
        },
        None => {
            assert(distinct_ids(t)) by {
                assert forall|i: int, j: int| 0 <= i < j < t.len() implies t[i].0 != t[j].0 by {}
            }
            lemma_position_of_distinct(t, s.len() as int);
            if other != id {
                assert(t.drop_last() =~= s);
            }
        },
    }
}

/// Naming an id that is already known does not move it: the ids keep the
/// order in which they first came.
pub proof fn lemma_insert_keeps_order(s: Seq<(i64, Seq<char>)>, id: i64, name: Seq<char>)
    ensures
        lookup(s, id) is Some ==> spec_insert(s, id, name).map_values(|e: (i64, Seq<char>)| e.0)
            == s.map_values(|e: (i64, Seq<char>)| e.0),
        lookup(s, id) is None ==> spec_insert(s, id, name).map_values(|e: (i64, Seq<char>)| e.0)
            == s.map_values(|e: (i64, Seq<char>)| e.0).push(id),
{
    lemma_position(s, id);
    let t = spec_insert(s, id, name);
    if lookup(s, id) is Some {
        assert(t.map_values(|e: (i64, Seq<char>)| e.0) =~= s.map_values(|e: (i64, Seq<char>)| e.0));
    } else {
        assert(t.map_values(|e: (i64, Seq<char>)| e.0) =~= s.map_values(|e: (i64, Seq<char>)| e.0).push(id));
    }
}

// ---------------------------------------------------------------------------
// Sale data
// ---------------------------------------------------------------------------

#[derive(Clone, Debug)]
pub struct SaleEntry {
    pub header: ScheduleHeader,
    pub time_blocks: Vec<TimeBlock>,
    pub stage_ids: Vec<i64>,
    pub raw: Option<String>,
}

#[derive(Debug)]
pub struct SaleJson {
    pub updated_at: String,
    pub data: Vec<SaleEntry>,
}

pub struct SaleDisplayData {
    pub sale: SaleJson,
    pub sale_names: OrderedNames,
    pub all_day_event_names: OrderedNames,
    pub mission_names: OrderedNames,
    pub card_setting_stage_ids: Vec<i64>,
}

/// The ids of a list in order.
pub open spec fn ids_of(s: Seq<(i64, Seq<char>)>) -> Seq<i64> {
    s.map_values(|e: (i64, Seq<char>)| e.0)
}

/// A list with every id after its first occurrence left out.
pub open spec fn first_of_each(s: Seq<(i64, Seq<char>)>) -> Seq<(i64, Seq<char>)>
    decreases s.len(),
{
    if s.len() == 0 {
        s
    } else {
        let d = first_of_each(s.drop_last());
        if ids_of(d).contains(s.last().0) {
            d
        } else {
            d.push(s.last())
        }
    }
}

/// Adds a named id at the end unless the list has it already.
fn push_new(r: &mut Vec<(i64, String)>, id: i64, name: &str)
    ensures
        named_views(final(r)@) == (if ids_of(named_views(old(r)@)).contains(id) {
            named_views(old(r)@)
        } else {
            named_views(old(r)@).push((id, name@))
        }),
{
    let mut seen = false;
    let mut j: usize = 0;
    while j < r.len()
        invariant
            j <= r@.len(),
            seen <==> ids_of(named_views(r@)).take(j as int).contains(id),
        decreases r@.len() - j,
    {
        assert(ids_of(named_views(r@)).take(j + 1) =~= ids_of(named_views(r@)).take(j as int).push(r@[j as int].0));
        proof {
            vstd::seq_lib::lemma_seq_contains_after_push(ids_of(named_views(r@)).take(j as int), r@[j as int].0, id);
        }
        if r[j].0 == id {
            seen = true;
        }
        j += 1;
    }
    assert(ids_of(named_views(r@)).take(j as int) =~= ids_of(named_views(r@)));
    if !seen {
        let copy = string_of(chars_of(name).as_slice());
        let ghost before = r@;
        r.push((id, copy));
        assert(named_views(r@) =~= named_views(before).push((id, name@)));
    }
}

impl SaleDisplayData {
    /// Sale names, then all-day event names whose id has no sale name.
    pub fn merged_search_names(&self) -> (r: Vec<(i64, String)>)
        ensures
            named_views(r@) == first_of_each(self.sale_names@ + self.all_day_event_names@),
    {
        let first = self.sale_names.entries();
        let second = self.all_day_event_names.entries();
        let ghost f = self.sale_names@;
        let ghost g = self.all_day_event_names@;
        let mut r: Vec<(i64, String)> = Vec::new();
        let mut k: usize = 0;
        while k < first.len()
            invariant
                named_views(first@) == f,
                k <= first@.len(),
                named_views(r@) == first_of_each(f.take(k as int)),
            decreases first@.len() - k,
        {
            assert(f.take(k + 1).drop_last() =~= f.take(k as int));
            assert(f[k as int] == (first@[k as int].0, first@[k as int].1@));
            push_new(&mut r, first[k].0, first[k].1.as_str());
            k += 1;
        }
        assert(f.take(k as int) =~= f);
        let mut k: usize = 0;
        while k < second.len()
            invariant
                named_views(second@) == g,
                k <= second@.len(),
                named_views(r@) == first_of_each(f + g.take(k as int)),
            decreases second@.len() - k,
        {
            assert((f + g.take(k + 1)).drop_last() =~= f + g.take(k as int));
            assert((f + g.take(k + 1)).last() == g[k as int]);
            assert(g[k as int] == (second@[k as int].0, second@[k as int].1@));
            push_new(&mut r, second[k].0, second[k].1.as_str());
            k += 1;
        }
        assert(g.take(k as int) =~= g);
        r
    }
}

/// Length of the first piece of a name cut at `,` or `，`.
pub open spec fn first_piece_len(s: Seq<char>) -> int
    decreases s.len(),
{
    if s.len() == 0 {
        0
    } else if s[0] == ',' || s[0] == '，' {
        0
    } else {
        1 + first_piece_len(s.drop_first())
    }
}

proof fn lemma_first_piece_len(s: Seq<char>)
    ensures
        0 <= first_piece_len(s) <= s.len(),
        first_piece_len(s) < s.len() ==> (s[first_piece_len(s)] == ',' || s[first_piece_len(s)] == '，'),
        forall|i: int| 0 <= i < first_piece_len(s) ==> s[i] != ',' && s[i] != '，',
    decreases s.len(),
{
    if s.len() > 0 && !(s[0] == ',' || s[0] == '，') {
        lemma_first_piece_len(s.drop_first());
        assert forall|i: int| 0 <= i < first_piece_len(s) implies s[i] != ',' && s[i] != '，' by {
            if i > 0 {
                assert(s[i] == s.drop_first()[i - 1]);
            }
        }
    }
}

fn first_piece(s: &[char]) -> (r: Vec<char>)
    ensures
        r@ == s@.take(first_piece_len(s@)),
{
    proof {
        lemma_first_piece_len(s@);
    }
    let mut k: usize = 0;
    while k < s.len() && s[k] != ',' && s[k] != '，'
        invariant
            k <= s@.len(),
            forall|i: int| 0 <= i < k ==> s@[i] != ',' && s@[i] != '，',
        decreases s@.len() - k,
    {
        k += 1;
    }
    proof {
        lemma_first_piece_at(s@, k as int);
    }
    crate::text::slice(s, 0, k)
}

proof fn lemma_first_piece_at(s: Seq<char>, k: int)
    requires
        0 <= k <= s.len(),
        forall|i: int| 0 <= i < k ==> s[i] != ',' && s[i] != '，',
        k == s.len() || s[k] == ',' || s[k] == '，',
    ensures
        first_piece_len(s) == k,
    decreases k,
{
    if k > 0 {
        lemma_first_piece_at(s.drop_first(), k - 1);
    }
}

/// The shown name of a stage or mission id, `不明` when it has none.
pub open spec fn spec_stage_name(
    id: i64,
    sale_names: Seq<(i64, Seq<char>)>,
    all_day: Seq<(i64, Seq<char>)>,
    missions: Seq<(i64, Seq<char>)>,
    line_break: Seq<char>,
) -> Seq<char> {
    if spec_is_mission_id(id) {
        let lookup_id = if 15_000 <= id <= 15_999 {
            (id - 15_000) as i64
        } else {
            id
        };
        match lookup(missions, lookup_id) {
            Some(raw) => spec_strip_display_markup(raw.take(first_piece_len(raw)), line_break),
            None => "不明"@,
        }
    } else {
        match lookup(sale_names, id) {
            Some(n) => spec_strip_display_markup(n, line_break),
            None => match lookup(all_day, id) {
                Some(n) => spec_strip_display_markup(n, line_break),
                None => "不明"@,
            },
        }
    }
}

pub fn stage_name_with_breaks(id: i64, data: &SaleDisplayData, line_break: &str) -> (r: String)
    ensures
        r@ == spec_stage_name(
            id,
            data.sale_names@,
            data.all_day_event_names@,
            data.mission_names@,
            line_break@,
        ),
{
    if is_mission_id(id) {
        let lookup_id = if 15_000 <= id && id <= 15_999 {
            id - 15_000
        } else {
            id
        };
        let raw = match data.mission_names.get(lookup_id) {
            Some(raw) => raw,
            None => {
                return "不明".to_string();
            },
        };
        let chars = chars_of(raw);
        let piece = first_piece(chars.as_slice());
        let name = strip_display_markup(piece.as_slice(), line_break);
        return string_of(name.as_slice());
    }
    let found = match data.sale_names.get(id) {
        Some(n) => Some(n),
        None => data.all_day_event_names.get(id),
    };
    match found {
        Some(n) => {
            let chars = chars_of(n);
            let name = strip_display_markup(chars.as_slice(), line_break);
            string_of(name.as_slice())
        },
        None => "不明".to_string(),
    }
}

/// A stage name on one line.
pub fn stage_name(id: i64, data: &SaleDisplayData) -> (r: String)
    ensures
        r@ == spec_stage_name(id, data.sale_names@, data.all_day_event_names@, data.mission_names@, " "@),
{
    stage_name_with_breaks(id, data, " ")
}

/// A stage name that keeps its line breaks.
pub fn stage_name_preserving_breaks(id: i64, data: &SaleDisplayData) -> (r: String)
    ensures
        r@ == spec_stage_name(id, data.sale_names@, data.all_day_event_names@, data.mission_names@, "\n"@),
{
    stage_name_with_breaks(id, data, "\n")
}

/// Index of the first id of a list that another list contains.
pub open spec fn first_shared(ids: Seq<i64>, stages: Seq<i64>) -> Option<i64>
    decreases ids.len(),
{
    if ids.len() == 0 {
        None
    } else if stages.contains(ids[0]) {
        Some(ids[0])
    } else {
        first_shared(ids.drop_first(), stages)
    }
}

/// For a sale on several stages, the first card-setting stage among them.
pub open spec fn spec_representative(stages: Seq<i64>, card_setting_ids: Seq<i64>) -> Option<i64> {
    if stages.len() <= 1 {
        None
    } else {
        first_shared(card_setting_ids, stages)
    }
}

pub fn representative_stage_id(entry: &SaleEntry, card_setting_ids: &[i64]) -> (r: Option<i64>)
    ensures
        r == spec_representative(entry.stage_ids@, card_setting_ids@),
{
    if entry.stage_ids.len() <= 1 {
        return None;
    }
    let mut k: usize = 0;
    assert(card_setting_ids@.skip(0) =~= card_setting_ids@);
    while k < card_setting_ids.len()
        invariant
            k <= card_setting_ids@.len(),
            entry.stage_ids@.len() > 1,
            first_shared(card_setting_ids@, entry.stage_ids@) == first_shared(card_setting_ids@.skip(k as int), entry.stage_ids@),
        decreases card_setting_ids@.len() - k,
    {
        let id = card_setting_ids[k];
        assert(card_setting_ids@.skip(k as int)[0] == id);
        assert(card_setting_ids@.skip(k as int).drop_first() =~= card_setting_ids@.skip(k + 1));
        let mut j: usize = 0;
        let mut found = false;
        while j < entry.stage_ids.len()
            invariant
                j <= entry.stage_ids@.len(),
                found <==> entry.stage_ids@.take(j as int).contains(id),
            decreases entry.stage_ids@.len() - j,
        {
            assert(entry.stage_ids@.take(j + 1) =~= entry.stage_ids@.take(j as int).push(entry.stage_ids@[j as int]));
            proof {
                vstd::seq_lib::lemma_seq_contains_after_push(entry.stage_ids@.take(j as int), entry.stage_ids@[j as int], id);
            }
            if entry.stage_ids[j] == id {
                found = true;
            }
            j += 1;
        }
        assert(entry.stage_ids@.take(j as int) =~= entry.stage_ids@);
        if found {
            return Some(id);
        }
        k += 1;
    }
    None
}

/// The stages of a sale to show: its representative alone when it has one,
/// otherwise all of them, missions left out.
pub open spec fn spec_list_stage_ids(stages: Seq<i64>, card_setting_ids: Seq<i64>) -> Seq<i64> {
    let chosen = match spec_representative(stages, card_setting_ids) {
        Some(id) => seq![id],
        None => stages,
    };
    chosen.filter(|id: i64| !spec_is_mission_id(id))
}

pub fn list_stage_ids(entry: &SaleEntry, card_setting_ids: &[i64]) -> (r: Vec<i64>)
    ensures
        r@ == spec_list_stage_ids(entry.stage_ids@, card_setting_ids@),
{
    let chosen: Vec<i64> = match representative_stage_id(entry, card_setting_ids) {
        Some(id) => {
            let mut one: Vec<i64> = Vec::new();
            one.push(id);
            assert(one@ =~= seq![id]);
            one
        },
        None => {
            let all = entry.stage_ids.clone();
            assert(all@ =~= entry.stage_ids@);
            all
        },
    };
    let mut r: Vec<i64> = Vec::new();
    let mut k: usize = 0;
    while k < chosen.len()
        invariant
            k <= chosen@.len(),
            r@ == chosen@.take(k as int).filter(|id: i64| !spec_is_mission_id(id)),
        decreases chosen@.len() - k,
    {
        let id = chosen[k];
        assert(chosen@.take(k + 1) =~= chosen@.take(k as int).push(id));
        proof {
            chosen@.take(k as int).lemma_filter_push(id, |id: i64| !spec_is_mission_id(id));
        }
        if !is_mission_id(id) {
            r.push(id);
        }
        k += 1;
    }
    assert(chosen@.take(k as int) =~= chosen@);
    r
}

} // verus!
