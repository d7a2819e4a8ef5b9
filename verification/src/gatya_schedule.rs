//! The schedule of running and coming gachas, with the item gifts that go
//! with them, grouped by period.
use std::collections::HashMap;
use vstd::prelude::*;

use crate::gatya::{mode_for_type, mode_label, mode_matches_type, spec_mode_for_type, spec_type_for_mode, type_tag, GachaMode};
use crate::schedule::{format_jst_short, jst_civil, parse_header_date, spec_header_date, spec_jst_short, ScheduleHeader};
use crate::text::{
    append, append_str, chars_of, decimal_int, eq, eq_str, fmt_i64, join_str, spec_join, spec_trim, trim, views,
};

verus! {

broadcast use vstd::std_specs::hash::group_hash_axioms;

/// The rates of a gacha, each as the text of its JSON number.
#[derive(Clone, Debug)]
pub struct GachaRate {
    pub normal: String,
    pub rare: String,
    pub super_rare: String,
    pub uber_rare: String,
    pub legend_rare: String,
}

/// One gacha of a block; `price` and the rates hold the text of their JSON numbers.
#[derive(Clone, Debug)]
pub struct GachaEntry {
    pub id: i64,
    pub price: String,
    pub flags: i64,
    pub rates: GachaRate,
    pub guaranteed: bool,
    pub message: Option<String>,
}

#[derive(Clone, Debug)]
pub struct GachaHeader {
    pub schedule: ScheduleHeader,
    pub gacha_type: i64,
    pub gacha_count: i64,
}

#[derive(Clone, Debug)]
pub struct GachaBlock {
    pub header: GachaHeader,
    pub gachas: Vec<GachaEntry>,
    pub raw: Option<String>,
}

#[derive(Clone, Copy, Debug)]
pub struct ItemScheduleGift {
    pub gift_type: i64,
}

#[derive(Clone, Debug)]
pub struct ItemScheduleEntry {
    pub header: ScheduleHeader,
    pub gift: ItemScheduleGift,
}

/// One value for each gacha mode.
pub struct ModeMaps<T> {
    pub rare: T,
    pub event: T,
    pub normal: T,
}

impl<T> ModeMaps<T> {
    pub open spec fn pick(&self, mode: GachaMode) -> &T {
        match mode {
            GachaMode::Rare => &self.rare,
            GachaMode::Event => &self.event,
            GachaMode::Normal => &self.normal,
        }
    }

    pub fn get(&self, mode: GachaMode) -> (r: &T)
        ensures
            r == self.pick(mode),
    {
        match mode {
            GachaMode::Rare => &self.rare,
            GachaMode::Event => &self.event,
            GachaMode::Normal => &self.normal,
        }
    }
}

/// Everything the gacha schedule is drawn from.
pub struct GachaScheduleData {
    pub gacha: Vec<GachaBlock>,
    pub item: Vec<ItemScheduleEntry>,
    pub sale_names: HashMap<i64, String>,
    pub short_series_names: ModeMaps<HashMap<i64, String>>,
    pub series_mappings: ModeMaps<HashMap<i64, i64>>,
}

// ---------------------------------------------------------------------------
// Instants of headers
// ---------------------------------------------------------------------------

pub open spec fn header_instant(date: Seq<char>, time: Seq<char>) -> int {
    match spec_header_date(date, time) {
        Ok(t) => t,
        Err(_) => 0,
    }
}

pub open spec fn start_of(h: ScheduleHeader) -> int {
    header_instant(h.start_date@, h.start_time@)
}

pub open spec fn end_of(h: ScheduleHeader) -> int {
    header_instant(h.end_date@, h.end_time@)
}

/// Both dates of a header can be read, as the loaders make sure.
pub open spec fn header_ok(h: ScheduleHeader) -> bool {
    spec_header_date(h.start_date@, h.start_time@) is Ok && spec_header_date(h.end_date@, h.end_time@) is Ok
}

pub open spec fn headers_ok(data: &GachaScheduleData) -> bool {
    &&& forall|i: int| 0 <= i < data.gacha@.len() ==> header_ok(#[trigger] data.gacha@[i].header.schedule)
    &&& forall|i: int| 0 <= i < data.item@.len() ==> header_ok(#[trigger] data.item@[i].header)
}

fn start_instant(h: &ScheduleHeader) -> (r: i64)
    requires
        header_ok(*h),
    ensures
        r == start_of(*h),
{
    match parse_header_date(h.start_date.as_str(), h.start_time.as_str()) {
        Ok(t) => t,
        Err(_) => 0,
    }
}

fn end_instant(h: &ScheduleHeader) -> (r: i64)
    requires
        header_ok(*h),
    ensures
        r == end_of(*h),
{
    match parse_header_date(h.end_date.as_str(), h.end_time.as_str()) {
        Ok(t) => t,
        Err(_) => 0,
    }
}

/// A block that ends on 2030-01-01 runs for good.
pub open spec fn spec_is_permanent(h: ScheduleHeader) -> bool {
    h.end_date@ == "20300101"@
}

pub fn is_permanent(block: &GachaBlock) -> (r: bool)
    ensures
        r == spec_is_permanent(block.header.schedule),
{
    let v = chars_of(block.header.schedule.end_date.as_str());
    eq_str(v.as_slice(), "20300101")
}

// ---------------------------------------------------------------------------
// Events
// ---------------------------------------------------------------------------

/// A gacha block or an item gift that the schedule shows, by its position.
#[derive(Clone, Copy, PartialEq, Eq, Structural)]
pub enum ScheduleEvent {
    Gacha { block: usize, start: i64, end: i64 },
    Item { entry: usize, start: i64, end: i64 },
}

pub open spec fn event_start(e: ScheduleEvent) -> i64 {
    match e {
        ScheduleEvent::Gacha { start, .. } => start,
        ScheduleEvent::Item { start, .. } => start,
    }
}

pub open spec fn event_end(e: ScheduleEvent) -> i64 {
    match e {
        ScheduleEvent::Gacha { end, .. } => end,
        ScheduleEvent::Item { end, .. } => end,
    }
}

pub open spec fn keep_gacha(b: GachaBlock, now: i64, mode: Option<GachaMode>) -> bool {
    &&& !spec_is_permanent(b.header.schedule)
    &&& match mode {
        None => true,
        Some(m) => spec_type_for_mode(m) == b.header.gacha_type,
    }
    &&& end_of(b.header.schedule) > now
}

/// Gift types 301 and 302 are shown; one that ends on 2030-01-01 only
/// before it starts, any other until it ends.
pub open spec fn keep_item(e: ItemScheduleEntry, now: i64) -> bool {
    &&& (e.gift.gift_type == 301 || e.gift.gift_type == 302)
    &&& if e.header.end_date@ == "20300101"@ {
        start_of(e.header) > now
    } else {
        end_of(e.header) > now
    }
}

/// Items show unless the filter asks for event or normal gachas.
pub open spec fn items_shown(mode: Option<GachaMode>) -> bool {
    !(mode == Some(GachaMode::Event) || mode == Some(GachaMode::Normal))
}

/// The kept gacha blocks among the first `n`, in order.
pub open spec fn gacha_events(data: &GachaScheduleData, now: i64, mode: Option<GachaMode>, n: int) -> Seq<ScheduleEvent>
    decreases n,
{
    if n <= 0 {
        seq![]
    } else {
        let prev = gacha_events(data, now, mode, n - 1);
        let b = data.gacha@[n - 1];
        if keep_gacha(b, now, mode) {
            prev.push(ScheduleEvent::Gacha {
                block: (n - 1) as usize,
                start: start_of(b.header.schedule) as i64,
                end: end_of(b.header.schedule) as i64,
            })
        } else {
            prev
        }
    }
}

/// The kept item gifts among the first `n`, in order.
pub open spec fn item_events(data: &GachaScheduleData, now: i64, n: int) -> Seq<ScheduleEvent>
    decreases n,
{
    if n <= 0 {
        seq![]
    } else {
        let prev = item_events(data, now, n - 1);
        let e = data.item@[n - 1];
        if keep_item(e, now) {
            prev.push(ScheduleEvent::Item {
                entry: (n - 1) as usize,
                start: start_of(e.header) as i64,
                end: end_of(e.header) as i64,
            })
        } else {
            prev
        }
    }
}

pub open spec fn all_events(data: &GachaScheduleData, now: i64, mode: Option<GachaMode>) -> Seq<ScheduleEvent> {
    gacha_events(data, now, mode, data.gacha@.len() as int) + if items_shown(mode) {
        item_events(data, now, data.item@.len() as int)
    } else {
        seq![]
    }
}

/// Inserts an event after every event that starts no later.
pub open spec fn insert_by_start(s: Seq<ScheduleEvent>, x: ScheduleEvent) -> Seq<ScheduleEvent>
    decreases s.len(),
{
    if s.len() == 0 || event_start(s.last()) <= event_start(x) {
        s.push(x)
    } else {
        insert_by_start(s.drop_last(), x).push(s.last())
    }
}

/// The events in order of their start; events that start together keep their order.
pub open spec fn sort_by_start(s: Seq<ScheduleEvent>) -> Seq<ScheduleEvent>
    decreases s.len(),
{
    if s.len() == 0 {
        s
    } else {
        insert_by_start(sort_by_start(s.drop_last()), s.last())
    }
}

proof fn lemma_insert_by_start(s: Seq<ScheduleEvent>, x: ScheduleEvent, j: int)
    requires
        0 <= j <= s.len(),
        forall|k: int| j <= k < s.len() ==> event_start(#[trigger] s[k]) > event_start(x),
        j == 0 || event_start(s[j - 1]) <= event_start(x),
    ensures
        insert_by_start(s, x) == s.take(j).push(x) + s.skip(j),
    decreases s.len(),
{
    if s.len() == j {
        assert(s.skip(j) =~= seq![]);
        assert(s.take(j) =~= s);
        assert(s.take(j).push(x) + s.skip(j) =~= s.push(x));
    } else {
        let t = s.drop_last();
        assert(event_start(s.last()) > event_start(x));
        assert forall|k: int| j <= k < t.len() implies event_start(#[trigger] t[k]) > event_start(x) by {
            assert(t[k] == s[k]);
        }
        if j > 0 {
            assert(t[j - 1] == s[j - 1]);
        }
        lemma_insert_by_start(t, x, j);
        assert(t.take(j) =~= s.take(j));
        assert((t.take(j).push(x) + t.skip(j)).push(s.last()) =~= s.take(j).push(x) + s.skip(j));
    }
}

#[verifier::spinoff_prover]
fn gacha_event_list(data: &GachaScheduleData, now: i64, mode: Option<GachaMode>) -> (r: Vec<ScheduleEvent>)
    requires
        headers_ok(data),
    ensures
        r@ == gacha_events(data, now, mode, data.gacha@.len() as int),
{
    let mut r: Vec<ScheduleEvent> = Vec::new();
    let mut i: usize = 0;
    while i < data.gacha.len()
        invariant
            i <= data.gacha@.len(),
            headers_ok(data),
            r@ == gacha_events(data, now, mode, i as int),
        decreases data.gacha@.len() - i,
    {
        let b = &data.gacha[i];
        assert(header_ok(data.gacha@[i as int].header.schedule));
        let end = end_instant(&b.header.schedule);
        let keep = !is_permanent(b) && mode_matches_type(mode, b.header.gacha_type) && end > now;
        assert(keep == keep_gacha(data.gacha@[i as int], now, mode));
        if keep {
            let start = start_instant(&b.header.schedule);
            r.push(ScheduleEvent::Gacha { block: i, start, end });
        }
        assert(gacha_events(data, now, mode, i + 1) == if keep {
            gacha_events(data, now, mode, i as int).push(ScheduleEvent::Gacha {
                block: i,
                start: start_of(b.header.schedule) as i64,
                end: end_of(b.header.schedule) as i64,
            })
        } else {
            gacha_events(data, now, mode, i as int)
        });
        i += 1;
    }
    r
}

fn item_event_list(data: &GachaScheduleData, now: i64) -> (r: Vec<ScheduleEvent>)
    requires
        headers_ok(data),
    ensures
        r@ == item_events(data, now, data.item@.len() as int),
{
    let mut r: Vec<ScheduleEvent> = Vec::new();
    let mut i: usize = 0;
    while i < data.item.len()
        invariant
            i <= data.item@.len(),
            headers_ok(data),
            r@ == item_events(data, now, i as int),
        decreases data.item@.len() - i,
    {
        let e = &data.item[i];
        assert(header_ok(data.item@[i as int].header));
        let start = start_instant(&e.header);
        let end = end_instant(&e.header);
        let kind = e.gift.gift_type;
        if kind == 301 || kind == 302 {
            let v = chars_of(e.header.end_date.as_str());
            let keep = if eq_str(v.as_slice(), "20300101") {
                start > now
            } else {
                end > now
            };
            if keep {
                r.push(ScheduleEvent::Item { entry: i, start, end });
            }
        }
        i += 1;
    }
    r
}

fn ev_start(e: &ScheduleEvent) -> (r: i64)
    ensures
        r == event_start(*e),
{
    match e {
        ScheduleEvent::Gacha { start, .. } => *start,
        ScheduleEvent::Item { start, .. } => *start,
    }
}

/// The events in order of their start, events that start together in their
/// given order.
pub fn sort_events(events: Vec<ScheduleEvent>) -> (r: Vec<ScheduleEvent>)
    ensures
        r@ == sort_by_start(events@),
{
    let mut r: Vec<ScheduleEvent> = Vec::new();
    let mut i: usize = 0;
    while i < events.len()
        invariant
            i <= events@.len(),
            r@ == sort_by_start(events@.take(i as int)),
        decreases events@.len() - i,
    {
        let x = events[i];
        let mut j: usize = r.len();
        while j > 0 && ev_start(&r[j - 1]) > ev_start(&x)
            invariant
                j <= r@.len(),
                forall|k: int| j <= k < r@.len() ==> event_start(#[trigger] r@[k]) > event_start(x),
            decreases j,
        {
            j -= 1;
        }
        proof {
            lemma_insert_by_start(r@, x, j as int);
            assert(events@.take(i + 1).drop_last() =~= events@.take(i as int));
        }
        r.insert(j, x);
        assert(r@ =~= sort_by_start(events@.take(i + 1)));
        i += 1;
    }
    assert(events@.take(i as int) =~= events@);
    r
}

/// The events that the schedule shows, in order of their start.
pub fn schedule_events(data: &GachaScheduleData, now: i64, mode: Option<GachaMode>) -> (r: Vec<ScheduleEvent>)
    requires
        headers_ok(data),
    ensures
        r@ == sort_by_start(all_events(data, now, mode)),
{
    let mut events = gacha_event_list(data, now, mode);
    let show_items = match mode {
        Some(GachaMode::Event) | Some(GachaMode::Normal) => false,
        _ => true,
    };
    if show_items {
        let mut items = item_event_list(data, now);
        events.append(&mut items);
    }
    assert(events@ =~= all_events(data, now, mode));
    sort_events(events)
}


/// Whether every event refers to a block or an entry of the data.
pub open spec fn event_ok(data: &GachaScheduleData, e: ScheduleEvent) -> bool {
    match e {
        ScheduleEvent::Gacha { block, .. } => block < data.gacha@.len(),
        ScheduleEvent::Item { entry, .. } => entry < data.item@.len(),
    }
}

pub open spec fn events_ok(data: &GachaScheduleData, s: Seq<ScheduleEvent>) -> bool {
    forall|i: int| 0 <= i < s.len() ==> event_ok(data, #[trigger] s[i])
}

proof fn lemma_gacha_events_ok(data: &GachaScheduleData, now: i64, mode: Option<GachaMode>, n: int)
    requires
        n <= data.gacha@.len(),
    ensures
        events_ok(data, gacha_events(data, now, mode, n)),
    decreases n,
{
    if n > 0 {
        lemma_gacha_events_ok(data, now, mode, n - 1);
    }
}

proof fn lemma_item_events_ok(data: &GachaScheduleData, now: i64, n: int)
    requires
        n <= data.item@.len(),
    ensures
        events_ok(data, item_events(data, now, n)),
    decreases n,
{
    if n > 0 {
        lemma_item_events_ok(data, now, n - 1);
    }
}

proof fn lemma_insert_ok(data: &GachaScheduleData, s: Seq<ScheduleEvent>, x: ScheduleEvent)
    requires
        events_ok(data, s),
        event_ok(data, x),
    ensures
        events_ok(data, insert_by_start(s, x)),
    decreases s.len(),
{
    if !(s.len() == 0 || event_start(s.last()) <= event_start(x)) {
        let t = s.drop_last();
        assert(events_ok(data, t)) by {
            assert forall|i: int| 0 <= i < t.len() implies event_ok(data, #[trigger] t[i]) by {
                assert(t[i] == s[i]);
            }
        }
        lemma_insert_ok(data, t, x);
        assert(event_ok(data, s[s.len() - 1]));
    }
}

proof fn lemma_sort_ok(data: &GachaScheduleData, s: Seq<ScheduleEvent>)
    requires
        events_ok(data, s),
    ensures
        events_ok(data, sort_by_start(s)),
    decreases s.len(),
{
    if s.len() > 0 {
        let t = s.drop_last();
        assert(events_ok(data, t)) by {
            assert forall|i: int| 0 <= i < t.len() implies event_ok(data, #[trigger] t[i]) by {
                assert(t[i] == s[i]);
            }
        }
        lemma_sort_ok(data, t);
        assert(event_ok(data, s[s.len() - 1]));
        lemma_insert_ok(data, sort_by_start(t), s.last());
    }
}

/// Every event of the schedule refers to a block or an entry of the data.
proof fn lemma_schedule_events_ok(data: &GachaScheduleData, now: i64, mode: Option<GachaMode>)
    ensures
        events_ok(data, sort_by_start(all_events(data, now, mode))),
{
    let g = gacha_events(data, now, mode, data.gacha@.len() as int);
    let it = if items_shown(mode) {
        item_events(data, now, data.item@.len() as int)
    } else {
        seq![]
    };
    lemma_gacha_events_ok(data, now, mode, data.gacha@.len() as int);
    lemma_item_events_ok(data, now, data.item@.len() as int);
    assert forall|i: int| 0 <= i < (g + it).len() implies event_ok(data, #[trigger] (g + it)[i]) by {
        if i < g.len() {
            assert((g + it)[i] == g[i]);
        } else {
            assert((g + it)[i] == it[i - g.len()]);
        }
    }
    lemma_sort_ok(data, g + it);
}

// ---------------------------------------------------------------------------
// Groups of a period
// ---------------------------------------------------------------------------

/// The gachas of one series within a period; `entries` are `(id, (flags,
/// guaranteed))` in increasing id, `types` the gacha types seen, each once.
pub struct SeriesModel {
    pub series_id: Option<i64>,
    pub name: Seq<char>,
    pub entries: Seq<(i64, (i64, bool))>,
    pub types: Seq<i64>,
}

/// The events of one period: its series in order of first appearance and
/// its item gifts in increasing gift type.
pub struct GroupModel {
    pub key: Seq<char>,
    pub active: bool,
    pub period: Seq<char>,
    pub series: Seq<(Seq<char>, SeriesModel)>,
    pub gifts: Seq<(i64, Seq<char>)>,
}

/// The position of the first key equal to `key`, or -1.
pub open spec fn first_index(keys: Seq<Seq<char>>, key: Seq<char>) -> int
    decreases keys.len(),
{
    if keys.len() == 0 {
        -1
    } else if keys[0] == key {
        0
    } else {
        let r = first_index(keys.drop_first(), key);
        if r < 0 {
            -1
        } else {
            r + 1
        }
    }
}

pub proof fn lemma_first_index(keys: Seq<Seq<char>>, key: Seq<char>, i: int)
    requires
        0 <= i <= keys.len(),
        forall|j: int| 0 <= j < i ==> keys[j] != key,
        i == keys.len() || keys[i] == key,
    ensures
        first_index(keys, key) == if i == keys.len() {
            -1
        } else {
            i
        },
    decreases i,
{
    if i > 0 {
        let t = keys.drop_first();
        assert forall|j: int| 0 <= j < i - 1 implies t[j] != key by {
            assert(t[j] == keys[j + 1]);
        }
        if i < keys.len() {
            assert(t[i - 1] == keys[i]);
        }
        lemma_first_index(t, key, i - 1);
    }
}

/// A found key lies within the list and is the first of its kind.
pub proof fn lemma_first_index_found(keys: Seq<Seq<char>>, key: Seq<char>)
    ensures
        first_index(keys, key) >= 0 ==> first_index(keys, key) < keys.len() && keys[first_index(keys, key)] == key,
        first_index(keys, key) >= -1,
    decreases keys.len(),
{
    if keys.len() > 0 && keys[0] != key {
        lemma_first_index_found(keys.drop_first(), key);
    }
}

/// Inserts `(k, v)` into a list kept in increasing key: a pair with the same
/// key is replaced.
pub open spec fn sorted_insert<V>(s: Seq<(i64, V)>, k: i64, v: V) -> Seq<(i64, V)>
    decreases s.len(),
{
    if s.len() == 0 {
        seq![(k, v)]
    } else if s[0].0 == k {
        s.update(0, (k, v))
    } else if k < s[0].0 {
        seq![(k, v)] + s
    } else {
        seq![s[0]] + sorted_insert(s.drop_first(), k, v)
    }
}

proof fn lemma_sorted_insert<V>(s: Seq<(i64, V)>, k: i64, v: V, i: int)
    requires
        0 <= i <= s.len(),
        forall|j: int| 0 <= j < i ==> (#[trigger] s[j]).0 < k,
        i == s.len() || s[i].0 >= k,
    ensures
        sorted_insert(s, k, v) == if i < s.len() && s[i].0 == k {
            s.update(i, (k, v))
        } else {
            s.take(i).push((k, v)) + s.skip(i)
        },
    decreases i,
{
    if i == 0 {
        if s.len() == 0 {
            assert(s.take(0).push((k, v)) + s.skip(0) =~= seq![(k, v)]);
        } else if s[0].0 != k {
            assert(s.take(0).push((k, v)) + s.skip(0) =~= seq![(k, v)] + s);
        }
    } else {
        let t = s.drop_first();
        assert(s[0].0 < k);
        assert forall|j: int| 0 <= j < i - 1 implies (#[trigger] t[j]).0 < k by {
            assert(t[j] == s[j + 1]);
        }
        if i < s.len() {
            assert(t[i - 1] == s[i]);
        }
        lemma_sorted_insert(t, k, v, i - 1);
        if i < s.len() && s[i].0 == k {
            assert(seq![s[0]] + t.update(i - 1, (k, v)) =~= s.update(i, (k, v)));
        } else {
            assert(seq![s[0]] + (t.take(i - 1).push((k, v)) + t.skip(i - 1)) =~= s.take(i).push((k, v)) + s.skip(i));
        }
    }
}

pub open spec fn add_type(types: Seq<i64>, t: i64) -> Seq<i64> {
    if types.contains(t) {
        types
    } else {
        types.push(t)
    }
}

pub open spec fn spec_mode_label(mode: GachaMode) -> Seq<char> {
    match mode {
        GachaMode::Rare => "R"@,
        GachaMode::Event => "E"@,
        GachaMode::Normal => "N"@,
    }
}

/// The series of a gacha, through the mapping of the mode of its type.
pub open spec fn series_of(mappings: &ModeMaps<HashMap<i64, i64>>, gacha_type: i64, gacha_id: i64) -> Option<i64> {
    let m = mappings.pick(spec_mode_for_type(gacha_type))@;
    if m.contains_key(gacha_id) {
        Some(m[gacha_id])
    } else {
        None
    }
}

pub open spec fn series_name_of(names: &ModeMaps<HashMap<i64, String>>, mode: GachaMode, sid: Option<i64>) -> Seq<char> {
    match sid {
        Some(id) => if names.pick(mode)@.contains_key(id) {
            names.pick(mode)@[id]@
        } else {
            "不明"@
        },
        None => "不明"@,
    }
}

pub open spec fn series_key(mode: GachaMode, sid: Option<i64>, entry_id: i64) -> Seq<char> {
    match sid {
        Some(id) => spec_mode_label(mode) + ":"@ + decimal_int(id as int),
        None => spec_mode_label(mode) + ":unknown:"@ + decimal_int(entry_id as int),
    }
}

pub open spec fn series_keys(ss: Seq<(Seq<char>, SeriesModel)>) -> Seq<Seq<char>> {
    ss.map_values(|p: (Seq<char>, SeriesModel)| p.0)
}

/// Adds one gacha to the series of its period: a new series when none has
/// its key yet, the entry replacing one with the same id.
pub open spec fn spec_add_entry(
    ss: Seq<(Seq<char>, SeriesModel)>,
    data: &GachaScheduleData,
    gacha_type: i64,
    e: GachaEntry,
) -> Seq<(Seq<char>, SeriesModel)> {
    let mode = spec_mode_for_type(gacha_type);
    let sid = series_of(&data.series_mappings, gacha_type, e.id);
    let key = series_key(mode, sid, e.id);
    let idx = first_index(series_keys(ss), key);
    let ss2 = if idx < 0 {
        ss.push((key, SeriesModel { series_id: sid, name: series_name_of(&data.short_series_names, mode, sid), entries: seq![], types: seq![] }))
    } else {
        ss
    };
    let i = if idx < 0 {
        ss.len() as int
    } else {
        idx
    };
    let s = ss2[i].1;
    ss2.update(i, (key, SeriesModel {
        series_id: s.series_id,
        name: s.name,
        entries: sorted_insert(s.entries, e.id, (e.flags, e.guaranteed)),
        types: add_type(s.types, gacha_type),
    }))
}

/// Adds the gachas with a non-negative id among the first `n` of a block.
pub open spec fn add_block_entries(
    ss: Seq<(Seq<char>, SeriesModel)>,
    data: &GachaScheduleData,
    b: GachaBlock,
    n: int,
) -> Seq<(Seq<char>, SeriesModel)>
    decreases n,
{
    if n <= 0 {
        ss
    } else {
        let prev = add_block_entries(ss, data, b, n - 1);
        let e = b.gachas@[n - 1];
        if e.id < 0 {
            prev
        } else {
            spec_add_entry(prev, data, b.header.gacha_type, e)
        }
    }
}

pub open spec fn gift_name(data: &GachaScheduleData, t: i64) -> Seq<char> {
    if data.sale_names@.contains_key(t) {
        data.sale_names@[t]@
    } else {
        "不明"@
    }
}

pub open spec fn is_active(e: ScheduleEvent, now: i64) -> bool {
    now >= event_start(e) && now < event_end(e)
}

/// A running event is keyed by its end date, a coming one by its start date.
pub open spec fn date_key(data: &GachaScheduleData, e: ScheduleEvent, active: bool) -> Seq<char> {
    match e {
        ScheduleEvent::Gacha { block, .. } => {
            let h = data.gacha@[block as int].header.schedule;
            if active {
                h.end_date@
            } else {
                h.start_date@
            }
        },
        ScheduleEvent::Item { entry, .. } => {
            let h = data.item@[entry as int].header;
            if active {
                h.end_date@
            } else {
                h.start_date@
            }
        },
    }
}

pub open spec fn group_key(data: &GachaScheduleData, e: ScheduleEvent, now: i64) -> Seq<char> {
    let active = is_active(e, now);
    (if active {
        "active"@
    } else {
        "upcoming"@
    }) + ":"@ + spec_trim(date_key(data, e, active))
}

/// An instant written briefly in Japan time; nothing when `chrono` cannot
/// represent it.
pub open spec fn jst_short_text(t: i64) -> Seq<char> {
    match jst_civil(t) {
        Some(c) => spec_jst_short(c),
        None => ""@,
    }
}

pub open spec fn period_of(e: ScheduleEvent, now: i64) -> Seq<char> {
    if is_active(e, now) {
        "~"@ + jst_short_text(event_end(e))
    } else {
        jst_short_text(event_start(e)) + "~"@
    }
}

pub open spec fn add_to_group(g: GroupModel, data: &GachaScheduleData, e: ScheduleEvent) -> GroupModel {
    match e {
        ScheduleEvent::Item { entry, .. } => {
            let t = data.item@[entry as int].gift.gift_type;
            GroupModel { gifts: sorted_insert(g.gifts, t, gift_name(data, t)), ..g }
        },
        ScheduleEvent::Gacha { block, .. } => {
            let b = data.gacha@[block as int];
            GroupModel { series: add_block_entries(g.series, data, b, b.gachas@.len() as int), ..g }
        },
    }
}

pub open spec fn group_keys(gs: Seq<GroupModel>) -> Seq<Seq<char>> {
    gs.map_values(|g: GroupModel| g.key)
}

/// Adds an event to the group of its key, opening the group when it is the
/// first event with that key.
pub open spec fn spec_add_event(gs: Seq<GroupModel>, data: &GachaScheduleData, now: i64, e: ScheduleEvent) -> Seq<GroupModel> {
    let key = group_key(data, e, now);
    let idx = first_index(group_keys(gs), key);
    let gs2 = if idx < 0 {
        gs.push(GroupModel { key, active: is_active(e, now), period: period_of(e, now), series: seq![], gifts: seq![] })
    } else {
        gs
    };
    let i = if idx < 0 {
        gs.len() as int
    } else {
        idx
    };
    gs2.update(i, add_to_group(gs2[i], data, e))
}

pub open spec fn build_groups(data: &GachaScheduleData, now: i64, events: Seq<ScheduleEvent>) -> Seq<GroupModel>
    decreases events.len(),
{
    if events.len() == 0 {
        seq![]
    } else {
        spec_add_event(build_groups(data, now, events.drop_last()), data, now, events.last())
    }
}


// ---------------------------------------------------------------------------
// Building the groups
// ---------------------------------------------------------------------------

struct ScheduleSeries {
    series_id: Option<i64>,
    name: Vec<char>,
    entries: Vec<(i64, (i64, bool))>,
    types: Vec<i64>,
}

impl ScheduleSeries {
    spec fn model(&self) -> SeriesModel {
        SeriesModel { series_id: self.series_id, name: self.name@, entries: self.entries@, types: self.types@ }
    }
}

struct ScheduleGroup {
    key: Vec<char>,
    active: bool,
    period: Vec<char>,
    series: Vec<(Vec<char>, ScheduleSeries)>,
    gifts: Vec<(i64, Vec<char>)>,
}

spec fn series_models(v: Seq<(Vec<char>, ScheduleSeries)>) -> Seq<(Seq<char>, SeriesModel)> {
    v.map_values(|p: (Vec<char>, ScheduleSeries)| (p.0@, p.1.model()))
}

spec fn gift_models(v: Seq<(i64, Vec<char>)>) -> Seq<(i64, Seq<char>)> {
    v.map_values(|p: (i64, Vec<char>)| (p.0, p.1@))
}

impl ScheduleGroup {
    spec fn model(&self) -> GroupModel {
        GroupModel {
            key: self.key@,
            active: self.active,
            period: self.period@,
            series: series_models(self.series@),
            gifts: gift_models(self.gifts@),
        }
    }
}

spec fn group_models(v: Seq<ScheduleGroup>) -> Seq<GroupModel> {
    v.map_values(|g: ScheduleGroup| g.model())
}

fn insert_entry(entries: &mut Vec<(i64, (i64, bool))>, k: i64, v: (i64, bool))
    ensures
        final(entries)@ == sorted_insert(old(entries)@, k, v),
{
    let mut i: usize = 0;
    while i < entries.len() && entries[i].0 < k
        invariant
            i <= entries@.len(),
            forall|j: int| 0 <= j < i ==> (#[trigger] entries@[j]).0 < k,
        decreases entries@.len() - i,
    {
        i += 1;
    }
    proof {
        lemma_sorted_insert(entries@, k, v, i as int);
    }
    if i < entries.len() && entries[i].0 == k {
        entries.set(i, (k, v));
    } else {
        entries.insert(i, (k, v));
        assert(entries@ =~= old(entries)@.take(i as int).push((k, v)) + old(entries)@.skip(i as int));
    }
}

fn insert_gift(gifts: &mut Vec<(i64, Vec<char>)>, k: i64, name: Vec<char>)
    ensures
        gift_models(final(gifts)@) == sorted_insert(gift_models(old(gifts)@), k, name@),
{
    let ghost s = gift_models(gifts@);
    let mut i: usize = 0;
    while i < gifts.len() && gifts[i].0 < k
        invariant
            i <= gifts@.len(),
            s == gift_models(gifts@),
            forall|j: int| 0 <= j < i ==> (#[trigger] s[j]).0 < k,
        decreases gifts@.len() - i,
    {
        i += 1;
    }
    proof {
        lemma_sorted_insert(s, k, name@, i as int);
    }
    if i < gifts.len() && gifts[i].0 == k {
        gifts.set(i, (k, name));
        assert(gift_models(gifts@) =~= s.update(i as int, (k, name@)));
    } else {
        gifts.insert(i, (k, name));
        assert(gift_models(gifts@) =~= s.take(i as int).push((k, name@)) + s.skip(i as int));
    }
}

fn contains_type(types: &Vec<i64>, t: i64) -> (r: bool)
    ensures
        r == types@.contains(t),
{
    let mut i: usize = 0;
    while i < types.len()
        invariant
            i <= types@.len(),
            forall|j: int| 0 <= j < i ==> types@[j] != t,
        decreases types@.len() - i,
    {
        if types[i] == t {
            return true;
        }
        i += 1;
    }
    false
}

/// The series that a gacha belongs to, through the mapping of the mode of its type.
pub fn series_id(mappings: &ModeMaps<HashMap<i64, i64>>, gacha_type: i64, gacha_id: i64) -> (r: Option<i64>)
    ensures
        r == series_of(mappings, gacha_type, gacha_id),
{
    let mode = mode_for_type(gacha_type);
    match mappings.get(mode).get(&gacha_id) {
        Some(v) => Some(*v),
        None => None,
    }
}

fn unknown_name() -> (r: Vec<char>)
    ensures
        r@ == "不明"@,
{
    chars_of("不明")
}

fn series_name(names: &ModeMaps<HashMap<i64, String>>, mode: GachaMode, sid: Option<i64>) -> (r: Vec<char>)
    ensures
        r@ == series_name_of(names, mode, sid),
{
    match sid {
        Some(id) => match names.get(mode).get(&id) {
            Some(n) => chars_of(n.as_str()),
            None => unknown_name(),
        },
        None => unknown_name(),
    }
}

fn make_series_key(mode: GachaMode, sid: Option<i64>, entry_id: i64) -> (r: Vec<char>)
    ensures
        r@ == series_key(mode, sid, entry_id),
{
    let mut v = chars_of(mode_label(mode));
    match sid {
        Some(id) => {
            append_str(&mut v, ":");
            append(&mut v, fmt_i64(id).as_slice());
        },
        None => {
            append_str(&mut v, ":unknown:");
            append(&mut v, fmt_i64(entry_id).as_slice());
        },
    }
    v
}

fn add_entry(series: &mut Vec<(Vec<char>, ScheduleSeries)>, data: &GachaScheduleData, gacha_type: i64, e: &GachaEntry)
    ensures
        series_models(final(series)@) == spec_add_entry(series_models(old(series)@), data, gacha_type, *e),
{
    let mode = mode_for_type(gacha_type);
    let sid = series_id(&data.series_mappings, gacha_type, e.id);
    let key = make_series_key(mode, sid, e.id);
    let ghost ss = series_models(series@);
    let mut j: usize = 0;
    while j < series.len() && !eq(series[j].0.as_slice(), key.as_slice())
        invariant
            j <= series@.len(),
            ss == series_models(series@),
            forall|m: int| 0 <= m < j ==> (#[trigger] series@[m]).0@ != key@,
        decreases series@.len() - j,
    {
        j += 1;
    }
    proof {
        assert forall|m: int| 0 <= m < j implies (#[trigger] series_keys(ss)[m]) != key@ by {
            assert(series_keys(ss)[m] == series@[m].0@);
        }
        if j < series@.len() {
            assert(series_keys(ss)[j as int] == series@[j as int].0@);
        }
        lemma_first_index(series_keys(ss), key@, j as int);
    }
    if j == series.len() {
        let name = series_name(&data.short_series_names, mode, sid);
        let k = key.clone();
        series.push((k, ScheduleSeries { series_id: sid, name, entries: Vec::new(), types: Vec::new() }));
        assert(series_models(series@) =~= ss.push((key@, SeriesModel {
            series_id: sid,
            name: series_name_of(&data.short_series_names, mode, sid),
            entries: seq![],
            types: seq![],
        })));
    }
    let ghost ss2 = series_models(series@);
    let (k, mut s) = series.remove(j);
    insert_entry(&mut s.entries, e.id, (e.flags, e.guaranteed));
    if !contains_type(&s.types, gacha_type) {
        s.types.push(gacha_type);
    }
    series.insert(j, (k, s));
    assert(series_models(series@) =~= ss2.update(j as int, (key@, SeriesModel {
        series_id: ss2[j as int].1.series_id,
        name: ss2[j as int].1.name,
        entries: sorted_insert(ss2[j as int].1.entries, e.id, (e.flags, e.guaranteed)),
        types: add_type(ss2[j as int].1.types, gacha_type),
    })));
}


fn gift_name_of(data: &GachaScheduleData, t: i64) -> (r: Vec<char>)
    ensures
        r@ == gift_name(data, t),
{
    match data.sale_names.get(&t) {
        Some(n) => chars_of(n.as_str()),
        None => unknown_name(),
    }
}

fn add_event_to_group(g: &mut ScheduleGroup, data: &GachaScheduleData, e: ScheduleEvent)
    requires
        event_ok(data, e),
    ensures
        final(g).model() == add_to_group(old(g).model(), data, e),
{
    match e {
        ScheduleEvent::Item { entry, .. } => {
            let t = data.item[entry].gift.gift_type;
            let name = gift_name_of(data, t);
            insert_gift(&mut g.gifts, t, name);
        },
        ScheduleEvent::Gacha { block, .. } => {
            let b = &data.gacha[block];
            let ghost start = series_models(g.series@);
            let mut n: usize = 0;
            while n < b.gachas.len()
                invariant
                    n <= b.gachas@.len(),
                    b == data.gacha@[block as int],
                    g.key == old(g).key,
                    g.active == old(g).active,
                    g.period == old(g).period,
                    g.gifts == old(g).gifts,
                    series_models(g.series@) == add_block_entries(start, data, *b, n as int),
                decreases b.gachas@.len() - n,
            {
                let entry = &b.gachas[n];
                if entry.id >= 0 {
                    add_entry(&mut g.series, data, b.header.gacha_type, entry);
                }
                n += 1;
            }
        },
    }
}

fn make_group_key(data: &GachaScheduleData, e: ScheduleEvent, now: i64) -> (r: Vec<char>)
    requires
        event_ok(data, e),
    ensures
        r@ == group_key(data, e, now),
{
    let active = now >= ev_start(&e) && now < ev_end(&e);
    let date = match e {
        ScheduleEvent::Gacha { block, .. } => {
            let h = &data.gacha[block].header.schedule;
            if active {
                chars_of(h.end_date.as_str())
            } else {
                chars_of(h.start_date.as_str())
            }
        },
        ScheduleEvent::Item { entry, .. } => {
            let h = &data.item[entry].header;
            if active {
                chars_of(h.end_date.as_str())
            } else {
                chars_of(h.start_date.as_str())
            }
        },
    };
    let mut v = if active {
        chars_of("active")
    } else {
        chars_of("upcoming")
    };
    append_str(&mut v, ":");
    append(&mut v, trim(date.as_slice()).as_slice());
    v
}

fn ev_end(e: &ScheduleEvent) -> (r: i64)
    ensures
        r == event_end(*e),
{
    match e {
        ScheduleEvent::Gacha { end, .. } => *end,
        ScheduleEvent::Item { end, .. } => *end,
    }
}

fn short_text(t: i64) -> (r: Vec<char>)
    ensures
        r@ == jst_short_text(t),
{
    match format_jst_short(t) {
        Some(s) => chars_of(s.as_str()),
        None => {
            let v: Vec<char> = Vec::new();
            proof {
                reveal_strlit("");
            }
            assert(v@ =~= ""@);
            v
        },
    }
}

fn make_period(e: ScheduleEvent, now: i64) -> (r: Vec<char>)
    ensures
        r@ == period_of(e, now),
{
    if now >= ev_start(&e) && now < ev_end(&e) {
        let mut v = chars_of("~");
        append(&mut v, short_text(ev_end(&e)).as_slice());
        v
    } else {
        let mut v = short_text(ev_start(&e));
        append_str(&mut v, "~");
        v
    }
}

fn add_event(groups: &mut Vec<ScheduleGroup>, data: &GachaScheduleData, now: i64, e: ScheduleEvent)
    requires
        event_ok(data, e),
    ensures
        group_models(final(groups)@) == spec_add_event(group_models(old(groups)@), data, now, e),
{
    let key = make_group_key(data, e, now);
    let ghost gs = group_models(groups@);
    let mut j: usize = 0;
    while j < groups.len() && !eq(groups[j].key.as_slice(), key.as_slice())
        invariant
            j <= groups@.len(),
            gs == group_models(groups@),
            forall|m: int| 0 <= m < j ==> (#[trigger] groups@[m]).key@ != key@,
        decreases groups@.len() - j,
    {
        j += 1;
    }
    proof {
        assert forall|m: int| 0 <= m < j implies (#[trigger] group_keys(gs)[m]) != key@ by {
            assert(group_keys(gs)[m] == groups@[m].key@);
        }
        if j < groups@.len() {
            assert(group_keys(gs)[j as int] == groups@[j as int].key@);
        }
        lemma_first_index(group_keys(gs), key@, j as int);
    }
    if j == groups.len() {
        let active = now >= ev_start(&e) && now < ev_end(&e);
        let period = make_period(e, now);
        groups.push(ScheduleGroup { key, active, period, series: Vec::new(), gifts: Vec::new() });
        assert(series_models(Seq::<(Vec<char>, ScheduleSeries)>::empty()) =~= seq![]);
        assert(gift_models(Seq::<(i64, Vec<char>)>::empty()) =~= seq![]);
        assert(group_models(groups@) =~= gs.push(GroupModel {
            key: group_key(data, e, now),
            active: is_active(e, now),
            period: period_of(e, now),
            series: seq![],
            gifts: seq![],
        }));
    }
    let ghost gs2 = group_models(groups@);
    let mut g = groups.remove(j);
    assert(g.model() == gs2[j as int]);
    add_event_to_group(&mut g, data, e);
    groups.insert(j, g);
    assert(group_models(groups@) =~= gs2.update(j as int, add_to_group(gs2[j as int], data, e)));
}

fn build_schedule_groups(data: &GachaScheduleData, now: i64, events: &Vec<ScheduleEvent>) -> (r: Vec<ScheduleGroup>)
    requires
        events_ok(data, events@),
    ensures
        group_models(r@) == build_groups(data, now, events@),
{
    let mut groups: Vec<ScheduleGroup> = Vec::new();
    let mut i: usize = 0;
    assert(group_models(groups@) =~= seq![]);
    while i < events.len()
        invariant
            i <= events@.len(),
            events_ok(data, events@),
            group_models(groups@) == build_groups(data, now, events@.take(i as int)),
        decreases events@.len() - i,
    {
        assert(event_ok(data, events@[i as int]));
        add_event(&mut groups, data, now, events[i]);
        assert(events@.take(i + 1).drop_last() =~= events@.take(i as int));
        i += 1;
    }
    assert(events@.take(i as int) =~= events@);
    groups
}


// ---------------------------------------------------------------------------
// Lines of the schedule
// ---------------------------------------------------------------------------

pub open spec fn spec_flag_label(flags: i64) -> Seq<char> {
    if flags == 4 {
        "【step up】"@
    } else if flags == 20_600 {
        "＋福引＆かけら"@
    } else if flags == 16_384 {
        "＋かけら"@
    } else if flags == 4_216 {
        "＋福引"@
    } else {
        ""@
    }
}

/// `【確定】` for a guaranteed gacha, then the label of its flags.
pub open spec fn spec_entry_labels(guaranteed: bool, flags: i64) -> Seq<char> {
    (if guaranteed {
        "【確定】"@
    } else {
        ""@
    }) + spec_flag_label(flags)
}

/// The guaranteed mark, character by character.
pub open spec fn guaranteed_mark() -> Seq<char> {
    seq!['【', '確', '定', '】']
}

/// The labels of a guaranteed gacha are the guaranteed mark 【確定】 followed
/// by the labels the same gacha has when not guaranteed; a gacha that is not
/// guaranteed has no such mark in front.
pub proof fn lemma_guaranteed_labels(flags: i64)
    ensures
        spec_entry_labels(true, flags) == guaranteed_mark() + spec_entry_labels(false, flags),
        spec_entry_labels(true, flags).len() == spec_entry_labels(false, flags).len() + 4,
        spec_entry_labels(true, flags).take(4) == guaranteed_mark(),
        !(spec_entry_labels(false, flags).len() >= 4 && spec_entry_labels(false, flags).take(4) == guaranteed_mark()),
{
    reveal_strlit("【確定】");
    reveal_strlit("");
    reveal_strlit("【step up】");
    reveal_strlit("＋福引＆かけら");
    reveal_strlit("＋かけら");
    reveal_strlit("＋福引");
    assert("【確定】"@ =~= guaranteed_mark());
    assert(""@ + spec_flag_label(flags) =~= spec_flag_label(flags));
    assert((guaranteed_mark() + spec_entry_labels(false, flags)).take(4) =~= guaranteed_mark());
    let f = spec_entry_labels(false, flags);
    if f.len() >= 4 {
        assert(f[1] != '確');
        assert(f.take(4)[1] == f[1]);
    }
}

fn labels_of(guaranteed: bool, flags: i64) -> (r: Vec<char>)
    ensures
        r@ == spec_entry_labels(guaranteed, flags),
        guaranteed ==> r@ == guaranteed_mark() + spec_entry_labels(false, flags),
{
    proof {
        lemma_guaranteed_labels(flags);
    }
    let mut v: Vec<char> = if guaranteed {
        chars_of("【確定】")
    } else {
        chars_of("")
    };
    let label = if flags == 4 {
        "【step up】"
    } else if flags == 20_600 {
        "＋福引＆かけら"
    } else if flags == 16_384 {
        "＋かけら"
    } else if flags == 4_216 {
        "＋福引"
    } else {
        ""
    };
    append_str(&mut v, label);
    v
}

/// The labels shown after a gacha's name.
pub fn entry_labels(entry: &GachaEntry) -> (r: String)
    ensures
        r@ == spec_entry_labels(entry.guaranteed, entry.flags),
        entry.guaranteed ==> r@ == guaranteed_mark() + spec_entry_labels(false, entry.flags),
{
    let v = labels_of(entry.guaranteed, entry.flags);
    crate::text::string_of(v.as_slice())
}

pub open spec fn spec_type_tag(t: i64) -> Seq<char> {
    if t == 4 {
        " <イベント>"@
    } else if t == 0 {
        " <ノーマル>"@
    } else {
        ""@
    }
}

pub open spec fn series_label(sid: Option<i64>) -> Seq<char> {
    match sid {
        Some(id) => "s"@ + decimal_int(id as int),
        None => "s?"@,
    }
}

/// The type tag when all gachas of a series share one type.
pub open spec fn series_tag(types: Seq<i64>) -> Seq<char> {
    if types.len() == 1 {
        spec_type_tag(types[0])
    } else {
        ""@
    }
}

pub open spec fn entry_line(s: SeriesModel, e: (i64, (i64, bool))) -> Seq<char> {
    "    "@ + decimal_int(e.0 as int) + " "@ + series_label(s.series_id) + " "@ + s.name + spec_entry_labels(e.1.1, e.1.0)
        + series_tag(s.types)
}

pub open spec fn series_lines(ss: Seq<(Seq<char>, SeriesModel)>) -> Seq<Seq<char>>
    decreases ss.len(),
{
    if ss.len() == 0 {
        seq![]
    } else {
        series_lines(ss.drop_last()) + ss.last().1.entries.map_values(|e: (i64, (i64, bool))| entry_line(ss.last().1, e))
    }
}

pub open spec fn gift_line(g: (i64, Seq<char>)) -> Seq<char> {
    "    "@ + decimal_int(g.0 as int) + " "@ + g.1
}

pub open spec fn group_header(g: GroupModel) -> Seq<char> {
    (if g.active {
        "🟢 "@
    } else {
        ""@
    }) + "["@ + g.period + "]"@
}

/// A period's heading, its gifts, then each series' gachas.
pub open spec fn group_lines(g: GroupModel) -> Seq<Seq<char>> {
    seq![group_header(g)] + g.gifts.map_values(|p: (i64, Seq<char>)| gift_line(p)) + series_lines(g.series)
}

pub open spec fn all_lines(gs: Seq<GroupModel>) -> Seq<Seq<char>>
    decreases gs.len(),
{
    if gs.len() == 0 {
        seq![]
    } else {
        all_lines(gs.drop_last()) + group_lines(gs.last())
    }
}

/// The gacha schedule: one group per period of running and coming gachas and
/// item gifts, in order of their start; nothing when there is none.
pub open spec fn spec_format_schedule(data: &GachaScheduleData, now: i64, mode: Option<GachaMode>) -> Option<Seq<char>> {
    let lines = all_lines(build_groups(data, now, sort_by_start(all_events(data, now, mode))));
    if lines.len() == 0 {
        None
    } else {
        Some("ガチャスケジュール [開催中＆予定]\n\n"@ + spec_join(lines, "\n"@))
    }
}

fn push_series_lines(lines: &mut Vec<Vec<char>>, s: &ScheduleSeries)
    ensures
        views(final(lines)@) == views(old(lines)@) + s.model().entries.map_values(
            |e: (i64, (i64, bool))| entry_line(s.model(), e),
        ),
{
    let label = match s.series_id {
        Some(id) => {
            let mut v = chars_of("s");
            append(&mut v, fmt_i64(id).as_slice());
            v
        },
        None => chars_of("s?"),
    };
    let tag = if s.types.len() == 1 {
        chars_of(type_tag(s.types[0]))
    } else {
        chars_of("")
    };
    assert(tag@ == series_tag(s.types@));
    let ghost f = |e: (i64, (i64, bool))| entry_line(s.model(), e);
    let mut i: usize = 0;
    while i < s.entries.len()
        invariant
            i <= s.entries@.len(),
            label@ == series_label(s.series_id),
            tag@ == series_tag(s.types@),
            f == (|e: (i64, (i64, bool))| entry_line(s.model(), e)),
            views(lines@) == views(old(lines)@) + s.entries@.take(i as int).map_values(f),
        decreases s.entries@.len() - i,
    {
        let e = s.entries[i];
        let mut line = chars_of("    ");
        append(&mut line, fmt_i64(e.0).as_slice());
        append_str(&mut line, " ");
        append(&mut line, label.as_slice());
        append_str(&mut line, " ");
        append(&mut line, s.name.as_slice());
        append(&mut line, labels_of(e.1.1, e.1.0).as_slice());
        append(&mut line, tag.as_slice());
        assert(line@ == f(e));
        let ghost prev = lines@;
        lines.push(line);
        assert(views(lines@) =~= views(prev).push(f(e)));
        assert(s.entries@.take(i + 1).map_values(f) =~= s.entries@.take(i as int).map_values(f).push(f(e)));
        assert(views(lines@) =~= views(old(lines)@) + s.entries@.take(i + 1).map_values(f));
        i += 1;
    }
    assert(s.entries@.take(i as int) =~= s.entries@);
}

fn push_group_lines(lines: &mut Vec<Vec<char>>, g: &ScheduleGroup)
    ensures
        views(final(lines)@) == views(old(lines)@) + group_lines(g.model()),
{
    let mut head = if g.active {
        chars_of("🟢 ")
    } else {
        chars_of("")
    };
    append_str(&mut head, "[");
    append(&mut head, g.period.as_slice());
    append_str(&mut head, "]");
    lines.push(head);
    let ghost base = views(old(lines)@) + seq![group_header(g.model())];
    assert(views(lines@) =~= base);
    let ghost gf = |p: (i64, Seq<char>)| gift_line(p);
    let ghost gm = gift_models(g.gifts@);
    let mut i: usize = 0;
    while i < g.gifts.len()
        invariant
            i <= g.gifts@.len(),
            gm == gift_models(g.gifts@),
            gf == (|p: (i64, Seq<char>)| gift_line(p)),
            views(lines@) == base + gm.take(i as int).map_values(gf),
        decreases g.gifts@.len() - i,
    {
        let mut line = chars_of("    ");
        append(&mut line, fmt_i64(g.gifts[i].0).as_slice());
        append_str(&mut line, " ");
        append(&mut line, g.gifts[i].1.as_slice());
        assert(gm[i as int] == (g.gifts@[i as int].0, g.gifts@[i as int].1@));
        assert(line@ == gf(gm[i as int]));
        let ghost prev = lines@;
        lines.push(line);
        assert(views(lines@) =~= views(prev).push(gf(gm[i as int])));
        assert(gm.take(i + 1).map_values(gf) =~= gm.take(i as int).map_values(gf).push(gf(gm[i as int])));
        assert(views(lines@) =~= base + gm.take(i + 1).map_values(gf));
        i += 1;
    }
    assert(gm.take(i as int) =~= gm);
    let ghost base2 = views(lines@);
    let ghost sm = series_models(g.series@);
    let mut j: usize = 0;
    assert(series_lines(sm.take(0)) =~= seq![]);
    while j < g.series.len()
        invariant
            j <= g.series@.len(),
            sm == series_models(g.series@),
            views(lines@) == base2 + series_lines(sm.take(j as int)),
        decreases g.series@.len() - j,
    {
        push_series_lines(lines, &g.series[j].1);
        assert(sm.take(j + 1).drop_last() =~= sm.take(j as int));
        assert(sm.take(j + 1).last() == sm[j as int]);
        assert(sm[j as int].1 == g.series@[j as int].1.model());
        assert(views(lines@) =~= base2 + series_lines(sm.take(j + 1)));
        j += 1;
    }
    assert(sm.take(j as int) =~= sm);
    assert(views(lines@) =~= views(old(lines)@) + group_lines(g.model()));
}

/// The gacha schedule, `None` when nothing runs or is to come.
pub fn format_schedule(data: &GachaScheduleData, now: i64, mode: Option<GachaMode>) -> (r: Option<String>)
    requires
        headers_ok(data),
    ensures
        match r {
            Some(s) => spec_format_schedule(data, now, mode) == Some(s@),
            None => spec_format_schedule(data, now, mode) is None,
        },
{
    let events = schedule_events(data, now, mode);
    proof {
        lemma_schedule_events_ok(data, now, mode);
    }
    let groups = build_schedule_groups(data, now, &events);
    let ghost gm = group_models(groups@);
    let mut lines: Vec<Vec<char>> = Vec::new();
    let mut i: usize = 0;
    assert(views(lines@) =~= all_lines(gm.take(0)));
    while i < groups.len()
        invariant
            i <= groups@.len(),
            gm == group_models(groups@),
            views(lines@) == all_lines(gm.take(i as int)),
        decreases groups@.len() - i,
    {
        push_group_lines(&mut lines, &groups[i]);
        assert(gm.take(i + 1).drop_last() =~= gm.take(i as int));
        assert(gm.take(i + 1).last() == groups@[i as int].model());
        i += 1;
    }
    assert(gm.take(i as int) =~= gm);
    if lines.len() == 0 {
        return None;
    }
    let mut out = chars_of("ガチャスケジュール [開催中＆予定]\n\n");
    append(&mut out, join_str(lines.as_slice(), "\n").as_slice());
    Some(crate::text::string_of(out.as_slice()))
}

/// When a block starts.
pub fn gacha_start(block: &GachaBlock) -> (r: i64)
    requires
        header_ok(block.header.schedule),
    ensures
        r == start_of(block.header.schedule),
{
    start_instant(&block.header.schedule)
}

/// When a block ends.
pub fn gacha_end(block: &GachaBlock) -> (r: i64)
    requires
        header_ok(block.header.schedule),
    ensures
        r == end_of(block.header.schedule),
{
    end_instant(&block.header.schedule)
}

/// When an item gift starts.
pub fn item_start(entry: &ItemScheduleEntry) -> (r: i64)
    requires
        header_ok(entry.header),
    ensures
        r == start_of(entry.header),
{
    start_instant(&entry.header)
}

/// When an item gift ends.
pub fn item_end(entry: &ItemScheduleEntry) -> (r: i64)
    requires
        header_ok(entry.header),
    ensures
        r == end_of(entry.header),
{
    end_instant(&entry.header)
}

} // verus!
