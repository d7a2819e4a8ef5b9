//! The schedule history: reading file paths, grouping files into updates,
//! choosing the update to show and the files to compare.
use vstd::prelude::*;
use vstd::string::StringSliceAdditionalSpecFns;

use crate::notification::{spec_valid_revision, valid_revision};
use crate::schedule::{civil_of, civil_time};
use crate::skd::{spec_label, spec_schedule_type, ScheduleType};
use crate::skd_format::spec_rfind;
use crate::text::{
    append, append_str, byte_len, byte_length, chars_of, is_hex, parse_i64, parse_i64_spec, slice, spec_ends_with,
    spec_is_hex, spec_starts_with, strip_prefix, strip_suffix, string_of, to_lower, lower_seq,
};

verus! {

/// Files of one update lie at most this many seconds after its first file.
pub const HISTORY_GROUP_SECONDS: i64 = 100;

/// A schedule file of the history: `raw/{type}_{timestamp}.tsv`.
pub struct HistoryFile {
    pub data_type: ScheduleType,
    pub path: String,
    pub timestamp: i64,
}

pub struct HistoryView {
    pub data_type: ScheduleType,
    pub path: Seq<char>,
    pub timestamp: i64,
}

pub open spec fn history_view(f: HistoryFile) -> HistoryView {
    HistoryView { data_type: f.data_type, path: f.path@, timestamp: f.timestamp }
}

pub open spec fn history_views(v: Seq<HistoryFile>) -> Seq<HistoryView> {
    v.map_values(|f: HistoryFile| history_view(f))
}

fn copy_file(f: &HistoryFile) -> (r: HistoryFile)
    ensures
        history_view(r) == history_view(*f),
{
    HistoryFile { data_type: f.data_type, path: string_of(chars_of(f.path.as_str()).as_slice()), timestamp: f.timestamp }
}

// ---------------------------------------------------------------------------
// Paths
// ---------------------------------------------------------------------------

/// The file a history path names: `raw/`, a type, `_`, a timestamp that
/// `chrono` can represent, and `.tsv`.
pub open spec fn spec_history_path(path: Seq<char>) -> Option<HistoryView> {
    if spec_starts_with(path, "raw/"@) && spec_ends_with(path.skip(4), ".tsv"@) {
        let name = path.skip(4).take(path.len() - 4 - 4);
        match spec_rfind(name, '_') {
            None => None,
            Some(i) => match spec_schedule_type(name.take(i)) {
                None => None,
                Some(t) => match parse_i64_spec(name.skip(i + 1)) {
                    None => None,
                    Some(ts) => if civil_of(ts) is Some {
                        Some(HistoryView { data_type: t, path, timestamp: ts })
                    } else {
                        None
                    },
                },
            },
        }
    } else {
        None
    }
}

fn rfind_underscore(s: &[char]) -> (r: Option<usize>)
    ensures
        match r {
            Some(i) => spec_rfind(s@, '_') == Some(i as int) && i < s@.len(),
            None => spec_rfind(s@, '_') is None,
        },
{
    let mut k: usize = s.len();
    assert(s@.take(k as int) =~= s@);
    while k > 0
        invariant
            k <= s@.len(),
            spec_rfind(s@, '_') == spec_rfind(s@.take(k as int), '_'),
        decreases k,
    {
        assert(s@.take(k as int).last() == s@[k - 1]);
        if s[k - 1] == '_' {
            return Some(k - 1);
        }
        assert(s@.take(k as int).drop_last() =~= s@.take(k - 1));
        k -= 1;
    }
    None
}

/// The history file of a path, as `spec_history_path` says.
pub fn parse_history_path(path: &str) -> (r: Option<HistoryFile>)
    ensures
        match r {
            Some(f) => spec_history_path(path@) == Some(history_view(f)),
            None => spec_history_path(path@) is None,
        },
{
    proof {
        reveal_strlit("raw/");
        reveal_strlit(".tsv");
    }
    let p = chars_of(path);
    let rest = match strip_prefix(p.as_slice(), "raw/") {
        Some(x) => x,
        None => {
            return None;
        },
    };
    let name = match strip_suffix(rest.as_slice(), ".tsv") {
        Some(x) => x,
        None => {
            return None;
        },
    };
    assert(name@ =~= path@.skip(4).take(path@.len() - 4 - 4));
    let i = match rfind_underscore(name.as_slice()) {
        Some(i) => i,
        None => {
            return None;
        },
    };
    let kind_text = slice(name.as_slice(), 0, i);
    assert(kind_text@ =~= name@.take(i as int));
    let data_type = match ScheduleType::parse(string_of(kind_text.as_slice()).as_str()) {
        Some(t) => t,
        None => {
            return None;
        },
    };
    let digits = slice(name.as_slice(), i + 1, name.len());
    assert(digits@ =~= name@.skip(i + 1));
    let timestamp = match parse_i64(digits.as_slice()) {
        Some(t) => t,
        None => {
            return None;
        },
    };
    if civil_time(timestamp).is_none() {
        return None;
    }
    Some(HistoryFile { data_type, path: string_of(p.as_slice()), timestamp })
}

// ---------------------------------------------------------------------------
// Updates
// ---------------------------------------------------------------------------

/// Files written together: the timestamp of the first, and the files.
pub struct ScheduleUpdate {
    pub timestamp: i64,
    pub files: Vec<HistoryFile>,
}

pub struct UpdateView {
    pub timestamp: i64,
    pub files: Seq<HistoryView>,
}

pub open spec fn update_view(u: ScheduleUpdate) -> UpdateView {
    UpdateView { timestamp: u.timestamp, files: history_views(u.files@) }
}

pub open spec fn update_views(v: Seq<ScheduleUpdate>) -> Seq<UpdateView> {
    v.map_values(|u: ScheduleUpdate| update_view(u))
}

/// `x` put after every file of `s` that is no newer.
pub open spec fn insert_by_time(s: Seq<HistoryView>, x: HistoryView) -> Seq<HistoryView>
    decreases s.len(),
{
    if s.len() == 0 || s.last().timestamp <= x.timestamp {
        s.push(x)
    } else {
        insert_by_time(s.drop_last(), x).push(s.last())
    }
}

/// The files by timestamp; files of one timestamp keep their order.
pub open spec fn sort_by_time(s: Seq<HistoryView>) -> Seq<HistoryView>
    decreases s.len(),
{
    if s.len() == 0 {
        s
    } else {
        insert_by_time(sort_by_time(s.drop_last()), s.last())
    }
}

/// Sorted files grouped into updates: a file joins the last update when it
/// is at most `HISTORY_GROUP_SECONDS` after that update's timestamp.
pub open spec fn group_files(sorted: Seq<HistoryView>) -> Seq<UpdateView>
    decreases sorted.len(),
{
    if sorted.len() == 0 {
        Seq::empty()
    } else {
        let prev = group_files(sorted.drop_last());
        let f = sorted.last();
        if prev.len() > 0 && f.timestamp - prev.last().timestamp <= HISTORY_GROUP_SECONDS {
            prev.update(prev.len() - 1, UpdateView { timestamp: prev.last().timestamp, files: prev.last().files.push(f) })
        } else {
            prev.push(UpdateView { timestamp: f.timestamp, files: seq![f] })
        }
    }
}

proof fn lemma_insert_by_time(s: Seq<HistoryView>, x: HistoryView, j: int)
    requires
        0 <= j <= s.len(),
        forall|k: int| j <= k < s.len() ==> (#[trigger] s[k]).timestamp > x.timestamp,
        j == 0 || s[j - 1].timestamp <= x.timestamp,
    ensures
        insert_by_time(s, x) == s.insert(j, x),
    decreases s.len(),
{
    if s.len() == j {
        assert(s.insert(j, x) =~= s.push(x));
    } else {
        let t = s.drop_last();
        assert forall|k: int| j <= k < t.len() implies (#[trigger] t[k]).timestamp > x.timestamp by {
            assert(t[k] == s[k]);
        }
        if j > 0 {
            assert(t[j - 1] == s[j - 1]);
        }
        lemma_insert_by_time(t, x, j);
        assert(t.insert(j, x).push(s.last()) =~= s.insert(j, x));
    }
}

fn sorted_files(files: &Vec<HistoryFile>) -> (r: Vec<HistoryFile>)
    ensures
        history_views(r@) == sort_by_time(history_views(files@)),
{
    let ghost fv = history_views(files@);
    let mut r: Vec<HistoryFile> = Vec::new();
    let mut i: usize = 0;
    assert(history_views(r@) =~= sort_by_time(fv.take(0)));
    while i < files.len()
        invariant
            i <= files@.len(),
            fv == history_views(files@),
            history_views(r@) == sort_by_time(fv.take(i as int)),
        decreases files@.len() - i,
    {
        let x = copy_file(&files[i]);
        let ghost rv = history_views(r@);
        let mut j: usize = r.len();
        while j > 0 && r[j - 1].timestamp > x.timestamp
            invariant
                j <= r@.len(),
                rv == history_views(r@),
                forall|k: int| j <= k < rv.len() ==> (#[trigger] rv[k]).timestamp > x.timestamp,
            decreases j,
        {
            j -= 1;
        }
        proof {
            lemma_insert_by_time(rv, history_view(x), j as int);
            assert(fv.take(i + 1).drop_last() =~= fv.take(i as int));
            assert(fv.take(i + 1).last() == history_view(x));
        }
        r.insert(j, x);
        assert(history_views(r@) =~= rv.insert(j as int, history_view(x)));
        i += 1;
    }
    assert(fv.take(i as int) =~= fv);
    r
}

fn group_sorted(sorted: Vec<HistoryFile>) -> (r: Vec<ScheduleUpdate>)
    ensures
        update_views(r@) == group_files(history_views(sorted@)),
{
    let ghost sv = history_views(sorted@);
    let mut updates: Vec<ScheduleUpdate> = Vec::new();
    let mut rest = sorted;
    let mut i: usize = 0;
    let n = rest.len();
    assert(sv.skip(0) =~= sv);
    assert(update_views(updates@) =~= group_files(sv.take(0)));
    while rest.len() > 0
        invariant
            i <= sv.len(),
            sv.len() == n,
            history_views(rest@) == sv.skip(i as int),
            update_views(updates@) == group_files(sv.take(i as int)),
        decreases rest@.len(),
    {
        assert(rest@.len() == history_views(rest@).len());
        assert(i < sv.len());
        let ghost old_rest = rest@;
        let f = rest.remove(0);
        assert(rest@ =~= old_rest.drop_first());
        assert(history_views(old_rest)[0] == history_view(f));
        assert(history_views(old_rest)[0] == sv.skip(i as int)[0]);
        assert(history_view(f) == sv[i as int]);
        assert(history_views(rest@) =~= history_views(old_rest).drop_first());
        assert(sv.skip(i as int).drop_first() =~= sv.skip(i + 1));
        assert(history_views(rest@) =~= sv.skip(i + 1));
        let ghost before = update_views(updates@);
        assert(sv.take(i + 1).drop_last() =~= sv.take(i as int));
        assert(sv.take(i + 1).last() == sv[i as int]);
        let len = updates.len();
        let joins = len > 0 && (f.timestamp as i128) - (updates[len - 1].timestamp as i128) <= HISTORY_GROUP_SECONDS as i128;
        if joins {
            let mut last = updates.pop().unwrap();
            let ghost lv = update_view(last);
            assert(lv == before.last());
            let ghost fs = history_views(last.files@);
            last.files.push(f);
            assert(history_views(last.files@) =~= fs.push(history_view(f)));
            updates.push(last);
            assert(update_views(updates@) =~= before.update(before.len() - 1, UpdateView { timestamp: lv.timestamp, files: lv.files.push(history_view(f)) }));
        } else {
            let ts = f.timestamp;
            let mut files: Vec<HistoryFile> = Vec::new();
            files.push(f);
            let u = ScheduleUpdate { timestamp: ts, files };
            assert(history_views(u.files@) =~= seq![history_view(f)]);
            updates.push(u);
            assert(update_views(updates@) =~= before.push(update_view(u)));
        }
        i += 1;
    }
    assert(i == sv.len()) by {
        assert(sv.skip(i as int).len() == 0);
    }
    assert(sv.take(i as int) =~= sv);
    updates
}

pub uninterp spec fn day_at_offset_of(seconds: i64, offset: i32) -> Option<i32>;

/// `chrono`: the local date, at a fixed offset of `offset` seconds east of
/// UTC, of a UTC instant given in whole seconds, as its day count from the
/// first day of the common era (`Datelike::num_days_from_ce`). The instant
/// is taken by `DateTime::<Utc>::from_timestamp`, the offset by
/// `FixedOffset::east_opt` and applied by `NaiveDateTime::checked_add_offset`,
/// each of which gives `None` outside its range, so no input panics. That day
/// count is the number of whole days from 1970-01-01 00:00 local time, plus
/// 719163. Where `chrono`'s range ends is left to the name.
#[verifier::external_body]
fn day_at_offset(seconds: i64, offset: i32) -> (r: Option<i32>)
    ensures
        r == day_at_offset_of(seconds, offset),
        r matches Some(d) ==> d == (seconds + offset) / 86_400 + 719_163,
{
    let zone = chrono::FixedOffset::east_opt(offset)?;
    let instant = chrono::DateTime::<chrono::Utc>::from_timestamp(seconds, 0)?;
    let local = instant.naive_utc().checked_add_offset(zone)?;
    Some(chrono::Datelike::num_days_from_ce(&local.date()))
}

/// Japan Standard Time, in seconds east of UTC: the zone in which the days
/// of the update history are counted.
pub const JST_OFFSET_SECONDS: i32 = 32_400;

/// The day in Japan Standard Time of an update instant.
pub open spec fn jst_day_of(seconds: i64) -> Option<i32> {
    day_at_offset_of(seconds, JST_OFFSET_SECONDS)
}

fn jst_day(seconds: i64) -> (r: Option<i32>)
    ensures
        r == jst_day_of(seconds),
        r matches Some(d) ==> d == (seconds + 32_400) / 86_400 + 719_163,
{
    day_at_offset(seconds, JST_OFFSET_SECONDS)
}

/// How far an update's day lies from the target day; an update whose day is
/// unknown is farthest.
pub open spec fn day_distance(day: Option<i32>, target: i32) -> int {
    match day {
        Some(d) => if d >= target {
            d - target
        } else {
            target - d
        },
        None => u64::MAX as int,
    }
}

/// The order of `Option`: nothing first, then by value.
pub open spec fn day_lt(a: Option<i32>, b: Option<i32>) -> bool {
    match (a, b) {
        (None, Some(_)) => true,
        (Some(x), Some(y)) => x < y,
        _ => false,
    }
}

/// `a` is chosen over `b`: nearer to the target day, then on an earlier
/// day, then the newer one.
pub open spec fn closer(a: UpdateView, b: UpdateView, target: i32) -> bool {
    let da = jst_day_of(a.timestamp);
    let db = jst_day_of(b.timestamp);
    day_distance(da, target) < day_distance(db, target) || (day_distance(da, target) == day_distance(db, target) && (
    day_lt(da, db) || (da == db && a.timestamp > b.timestamp)))
}

/// The first update that no later one is chosen over, among the first `n`.
pub open spec fn closest_upto(us: Seq<UpdateView>, target: i32, n: int) -> int
    decreases n,
{
    if n <= 1 {
        0
    } else {
        let best = closest_upto(us, target, n - 1);
        if closer(us[n - 1], us[best], target) {
            n - 1
        } else {
            best
        }
    }
}

/// The update to show: the last one, or the one closest to the given day
/// (days counted from the first day of the common era).
pub open spec fn spec_select_update(files: Seq<HistoryView>, date: Option<i32>) -> Option<UpdateView> {
    let us = group_files(sort_by_time(files));
    if us.len() == 0 {
        None
    } else {
        match date {
            None => Some(us.last()),
            Some(t) => Some(us[closest_upto(us, t, us.len() as int)]),
        }
    }
}

proof fn lemma_closest_bounds(us: Seq<UpdateView>, target: i32, n: int)
    requires
        1 <= n <= us.len(),
    ensures
        0 <= closest_upto(us, target, n) < n,
    decreases n,
{
    if n > 1 {
        lemma_closest_bounds(us, target, n - 1);
    }
}

fn distance_exec(day: Option<i32>, target: i32) -> (r: u64)
    ensures
        r == day_distance(day, target),
{
    match day {
        Some(d) => if d >= target {
            (d as i64 - target as i64) as u64
        } else {
            (target as i64 - d as i64) as u64
        },
        None => u64::MAX,
    }
}

fn closer_exec(a: &ScheduleUpdate, b: &ScheduleUpdate, target: i32) -> (r: bool)
    ensures
        r == closer(update_view(*a), update_view(*b), target),
{
    let da = jst_day(a.timestamp);
    let db = jst_day(b.timestamp);
    let xa = distance_exec(da, target);
    let xb = distance_exec(db, target);
    let day_earlier = match (da, db) {
        (None, Some(_)) => true,
        (Some(x), Some(y)) => x < y,
        _ => false,
    };
    let same_day = match (da, db) {
        (None, None) => true,
        (Some(x), Some(y)) => x == y,
        _ => false,
    };
    xa < xb || (xa == xb && (day_earlier || (same_day && a.timestamp > b.timestamp)))
}

/// The update to show, as `spec_select_update` says.
pub fn select_update(files: &Vec<HistoryFile>, date: Option<i32>) -> (r: Option<ScheduleUpdate>)
    ensures
        match r {
            Some(u) => spec_select_update(history_views(files@), date) == Some(update_view(u)),
            None => spec_select_update(history_views(files@), date) is None,
        },
{
    let sorted = sorted_files(files);
    let mut updates = group_sorted(sorted);
    let ghost us = update_views(updates@);
    if updates.len() == 0 {
        return None;
    }
    match date {
        None => {
            let u = updates.pop().unwrap();
            assert(update_view(u) == us.last());
            Some(u)
        },
        Some(target) => {
            let mut best: usize = 0;
            let mut k: usize = 1;
            while k < updates.len()
                invariant
                    1 <= k <= updates@.len(),
                    us == update_views(updates@),
                    best == closest_upto(us, target, k as int),
                decreases updates@.len() - k,
            {
                proof {
                    lemma_closest_bounds(us, target, k as int);
                }
                if closer_exec(&updates[k], &updates[best], target) {
                    best = k;
                }
                k += 1;
            }
            proof {
                lemma_closest_bounds(us, target, k as int);
            }
            let u = updates.swap_remove(best);
            assert(update_view(u) == us[best as int]);
            Some(u)
        },
    }
}

// ---------------------------------------------------------------------------
// Files to compare
// ---------------------------------------------------------------------------

/// A schedule file at a revision of the repository, with the MD5 digest its
/// text must have, if one is known.
pub struct FileReference {
    pub revision: String,
    pub path: String,
    pub hash: Option<String>,
}

/// The file before and the file after, for one kind of schedule.
pub struct Comparison {
    pub data_type: ScheduleType,
    pub before: Option<FileReference>,
    pub after: FileReference,
}

pub struct RefView {
    pub revision: Seq<char>,
    pub path: Seq<char>,
    pub hash: Option<Seq<char>>,
}

pub struct ComparisonView {
    pub data_type: ScheduleType,
    pub before: Option<RefView>,
    pub after: RefView,
}

pub open spec fn ref_view(f: FileReference) -> RefView {
    RefView { revision: f.revision@, path: f.path@, hash: crate::protocol::opt_view(f.hash) }
}

pub open spec fn comparison_view(c: Comparison) -> ComparisonView {
    ComparisonView {
        data_type: c.data_type,
        before: match c.before {
            Some(f) => Some(ref_view(f)),
            None => None,
        },
        after: ref_view(c.after),
    }
}

pub open spec fn comparison_views(v: Seq<Comparison>) -> Seq<ComparisonView> {
    v.map_values(|c: Comparison| comparison_view(c))
}

/// The kinds of schedules, in the order they are compared.
pub open spec fn kind_at(k: int) -> ScheduleType {
    if k == 0 {
        ScheduleType::Gatya
    } else if k == 1 {
        ScheduleType::Sale
    } else {
        ScheduleType::Item
    }
}

/// Among the first `n` files, the newest of the kind, older than `limit` if
/// one is given; of files equally new, the last.
pub open spec fn newest_of(files: Seq<HistoryView>, t: ScheduleType, limit: Option<i64>, n: int) -> Option<int>
    decreases n,
{
    if n <= 0 {
        None
    } else {
        let prev = newest_of(files, t, limit, n - 1);
        let f = files[n - 1];
        let fits = f.data_type == t && match limit {
            Some(l) => f.timestamp < l,
            None => true,
        };
        if fits && match prev {
            Some(p) => f.timestamp >= files[p].timestamp,
            None => true,
        } {
            Some(n - 1)
        } else {
            prev
        }
    }
}

proof fn lemma_newest_bounds(files: Seq<HistoryView>, t: ScheduleType, limit: Option<i64>, n: int)
    requires
        0 <= n <= files.len(),
    ensures
        newest_of(files, t, limit, n) matches Some(i) ==> 0 <= i < n,
    decreases n,
{
    if n > 0 {
        lemma_newest_bounds(files, t, limit, n - 1);
    }
}

fn newest_index(files: &Vec<HistoryFile>, t: ScheduleType, limit: Option<i64>) -> (r: Option<usize>)
    ensures
        match r {
            Some(i) => newest_of(history_views(files@), t, limit, files@.len() as int) == Some(i as int) && i < files@.len(),
            None => newest_of(history_views(files@), t, limit, files@.len() as int) is None,
        },
{
    let ghost fv = history_views(files@);
    let mut best: Option<usize> = None;
    let mut i: usize = 0;
    while i < files.len()
        invariant
            i <= files@.len(),
            fv == history_views(files@),
            best == match newest_of(fv, t, limit, i as int) {
                Some(k) => Some(k as usize),
                None => None::<usize>,
            },
            best matches Some(k) ==> k < i,
        decreases files@.len() - i,
    {
        proof {
            lemma_newest_bounds(fv, t, limit, i as int);
        }
        let f = &files[i];
        let fits = f.data_type == t && match limit {
            Some(l) => f.timestamp < l,
            None => true,
        };
        let newer = match best {
            Some(p) => f.timestamp >= files[p].timestamp,
            None => true,
        };
        if fits && newer {
            best = Some(i);
        }
        i += 1;
    }
    proof {
        lemma_newest_bounds(fv, t, limit, i as int);
    }
    best
}

fn copy_str(s: &str) -> (r: String)
    ensures
        r@ == s@,
{
    string_of(chars_of(s).as_slice())
}

/// For each kind with a file in the update, the newest such file of the
/// update, and the newest file of the kind from before the update.
pub open spec fn spec_plan(update: UpdateView, files: Seq<HistoryView>, revision: Seq<char>, n: int) -> Seq<ComparisonView>
    decreases n,
{
    if n <= 0 {
        Seq::empty()
    } else {
        let prev = spec_plan(update, files, revision, n - 1);
        let t = kind_at(n - 1);
        match newest_of(update.files, t, None, update.files.len() as int) {
            None => prev,
            Some(a) => prev.push(
                ComparisonView {
                    data_type: t,
                    before: match newest_of(files, t, Some(update.timestamp), files.len() as int) {
                        Some(b) => Some(RefView { revision, path: files[b].path, hash: None }),
                        None => None,
                    },
                    after: RefView { revision, path: update.files[a].path, hash: None },
                },
            ),
        }
    }
}

/// The files to compare for an update of the history at a revision.
pub fn plan_comparisons(update: &ScheduleUpdate, files: &Vec<HistoryFile>, revision: &str) -> (r: Vec<Comparison>)
    ensures
        comparison_views(r@) == spec_plan(update_view(*update), history_views(files@), revision@, 3),
{
    let mut r: Vec<Comparison> = Vec::new();
    let mut k: usize = 0;
    assert(comparison_views(r@) =~= spec_plan(update_view(*update), history_views(files@), revision@, 0));
    while k < 3
        invariant
            k <= 3,
            comparison_views(r@) == spec_plan(update_view(*update), history_views(files@), revision@, k as int),
        decreases 3 - k,
    {
        let t = if k == 0 {
            ScheduleType::Gatya
        } else if k == 1 {
            ScheduleType::Sale
        } else {
            ScheduleType::Item
        };
        assert(t == kind_at(k as int));
        match newest_index(&update.files, t, None) {
            None => {},
            Some(a) => {
                let before = match newest_index(files, t, Some(update.timestamp)) {
                    Some(b) => Some(FileReference { revision: copy_str(revision), path: copy_str(files[b].path.as_str()), hash: None }),
                    None => None,
                };
                let c = Comparison {
                    data_type: t,
                    before,
                    after: FileReference { revision: copy_str(revision), path: copy_str(update.files[a].path.as_str()), hash: None },
                };
                let ghost prev = comparison_views(r@);
                r.push(c);
                assert(comparison_views(r@) =~= prev.push(comparison_view(c)));
            },
        }
        k += 1;
    }
    r
}

/// The kinds of the comparisons that have no file before: data that is new.
pub fn initial_types(comparisons: &Vec<Comparison>) -> (r: Vec<ScheduleType>)
    ensures
        r@ == comparison_views(comparisons@).filter(|c: ComparisonView| c.before is None).map_values(
            |c: ComparisonView| c.data_type,
        ),
{
    let ghost cv = comparison_views(comparisons@);
    let mut r: Vec<ScheduleType> = Vec::new();
    let mut i: usize = 0;
    proof {
        reveal(Seq::filter);
    }
    assert(cv.take(0).filter(|c: ComparisonView| c.before is None) =~= Seq::<ComparisonView>::empty());
    while i < comparisons.len()
        invariant
            i <= comparisons@.len(),
            cv == comparison_views(comparisons@),
            r@ == cv.take(i as int).filter(|c: ComparisonView| c.before is None).map_values(|c: ComparisonView| c.data_type),
        decreases comparisons@.len() - i,
    {
        proof {
            reveal(Seq::filter);
        }
        assert(cv.take(i + 1).drop_last() =~= cv.take(i as int));
        assert(cv[i as int] == comparison_view(comparisons@[i as int]));
        let ghost prev = r@;
        if comparisons[i].before.is_none() {
            r.push(comparisons[i].data_type);
            assert(r@ =~= cv.take(i + 1).filter(|c: ComparisonView| c.before is None).map_values(|c: ComparisonView| c.data_type));
        } else {
            assert(r@ =~= cv.take(i + 1).filter(|c: ComparisonView| c.before is None).map_values(|c: ComparisonView| c.data_type));
        }
        i += 1;
    }
    assert(cv.take(i as int) =~= cv);
    r
}

// ---------------------------------------------------------------------------
// Files named by a notification
// ---------------------------------------------------------------------------

/// An MD5 digest written out: 32 hexadecimal digits.
pub open spec fn spec_valid_hash(v: Seq<char>) -> bool {
    byte_len(v) == 32 && forall|i: int| 0 <= i < v.len() ==> spec_is_hex(#[trigger] v[i])
}

pub fn valid_hash(value: &str) -> (r: bool)
    ensures
        r == spec_valid_hash(value@),
{
    let v = chars_of(value);
    if v.len() > 32 {
        proof {
            crate::text::lemma_byte_len_ge(v@);
        }
        return false;
    }
    if byte_length(v.as_slice()) != 32 {
        return false;
    }
    let mut i: usize = 0;
    while i < v.len()
        invariant
            i <= v@.len(),
            v@ == value@,
            byte_len(value@) == 32,
            forall|j: int| 0 <= j < i ==> spec_is_hex(#[trigger] v@[j]),
        decreases v@.len() - i,
    {
        if !is_hex(v[i]) {
            return false;
        }
        i += 1;
    }
    true
}

/// The comparisons for the changed files that a notification names, each
/// against the newest file of its kind at the revision before; with the
/// paths of the new files.
pub open spec fn spec_named_comparisons(
    before_revision: Seq<char>,
    after_revision: Seq<char>,
    changed: Seq<(ScheduleType, Seq<char>, Seq<char>)>,
    history: Seq<HistoryView>,
    n: int,
) -> Result<(Seq<ComparisonView>, Seq<Seq<char>>), Seq<char>>
    decreases n,
{
    if n <= 0 {
        if spec_valid_revision(before_revision) && spec_valid_revision(after_revision) {
            Ok((Seq::empty(), Seq::empty()))
        } else {
            Err("schedule revision is invalid"@)
        }
    } else {
        match spec_named_comparisons(before_revision, after_revision, changed, history, n - 1) {
            Err(e) => Err(e),
            Ok((cs, paths)) => {
                let (t, path, hash) = changed[n - 1];
                if !spec_valid_hash(hash) {
                    Err("schedule hash is invalid"@)
                } else {
                    match newest_of(history, t, None, history.len() as int) {
                        None => Err("previous "@ + spec_label(t) + " schedule is unavailable"@),
                        Some(b) => Ok(
                            (
                                cs.push(
                                    ComparisonView {
                                        data_type: t,
                                        before: Some(RefView { revision: before_revision, path: history[b].path, hash: None }),
                                        after: RefView { revision: after_revision, path, hash: Some(lower_seq(hash)) },
                                    },
                                ),
                                paths.push(path),
                            ),
                        ),
                    }
                }
            },
        }
    }
}

pub open spec fn changed_views(v: Seq<(ScheduleType, String, String)>) -> Seq<(ScheduleType, Seq<char>, Seq<char>)> {
    v.map_values(|c: (ScheduleType, String, String)| (c.0, c.1@, c.2@))
}

proof fn lemma_named_err(
    b: Seq<char>,
    a: Seq<char>,
    changed: Seq<(ScheduleType, Seq<char>, Seq<char>)>,
    history: Seq<HistoryView>,
    k: int,
    m: int,
    e: Seq<char>,
)
    requires
        0 <= k <= m,
        spec_named_comparisons(b, a, changed, history, k) == Err::<(Seq<ComparisonView>, Seq<Seq<char>>), Seq<char>>(e),
    ensures
        spec_named_comparisons(b, a, changed, history, m) == Err::<(Seq<ComparisonView>, Seq<Seq<char>>), Seq<char>>(e),
    decreases m - k,
{
    if m > k {
        lemma_named_err(b, a, changed, history, k, m - 1, e);
    }
}

/// The comparisons for the files a notification names, as
/// `spec_named_comparisons` says.
pub fn named_comparisons(
    before_revision: &str,
    after_revision: &str,
    changed: &Vec<(ScheduleType, String, String)>,
    history: &Vec<HistoryFile>,
) -> (r: Result<(Vec<Comparison>, Vec<String>), String>)
    ensures
        match r {
            Ok((cs, paths)) => spec_named_comparisons(
                before_revision@,
                after_revision@,
                changed_views(changed@),
                history_views(history@),
                changed@.len() as int,
            ) == Ok::<(Seq<ComparisonView>, Seq<Seq<char>>), Seq<char>>(
                (comparison_views(cs@), crate::text::string_views(paths@)),
            ),
            Err(e) => spec_named_comparisons(
                before_revision@,
                after_revision@,
                changed_views(changed@),
                history_views(history@),
                changed@.len() as int,
            ) == Err::<(Seq<ComparisonView>, Seq<Seq<char>>), Seq<char>>(e@),
        },
{
    let ghost cv = changed_views(changed@);
    let ghost hv = history_views(history@);
    if !valid_revision(before_revision) || !valid_revision(after_revision) {
        let e = copy_str("schedule revision is invalid");
        proof {
            lemma_named_err(before_revision@, after_revision@, cv, hv, 0, cv.len() as int, e@);
        }
        return Err(e);
    }
    let mut cs: Vec<Comparison> = Vec::new();
    let mut paths: Vec<String> = Vec::new();
    let mut i: usize = 0;
    assert(comparison_views(cs@) =~= Seq::<ComparisonView>::empty());
    assert(crate::text::string_views(paths@) =~= Seq::<Seq<char>>::empty());
    while i < changed.len()
        invariant
            i <= changed@.len(),
            cv == changed_views(changed@),
            hv == history_views(history@),
            spec_named_comparisons(before_revision@, after_revision@, cv, hv, i as int) == Ok::<
                (Seq<ComparisonView>, Seq<Seq<char>>),
                Seq<char>,
            >((comparison_views(cs@), crate::text::string_views(paths@))),
        decreases changed@.len() - i,
    {
        let (t, path, hash) = (changed[i].0, &changed[i].1, &changed[i].2);
        assert(cv[i as int] == (t, path@, hash@));
        if !valid_hash(hash.as_str()) {
            let e = copy_str("schedule hash is invalid");
            proof {
                lemma_named_err(before_revision@, after_revision@, cv, hv, i + 1, cv.len() as int, e@);
            }
            return Err(e);
        }
        let b = match newest_index(history, t, None) {
            Some(b) => b,
            None => {
                let mut msg = chars_of("previous ");
                crate::text::append_str(&mut msg, t.label());
                crate::text::append_str(&mut msg, " schedule is unavailable");
                let e = string_of(msg.as_slice());
                proof {
                    lemma_named_err(before_revision@, after_revision@, cv, hv, i + 1, cv.len() as int, e@);
                }
                return Err(e);
            },
        };
        let c = Comparison {
            data_type: t,
            before: Some(FileReference { revision: copy_str(before_revision), path: copy_str(history[b].path.as_str()), hash: None }),
            after: FileReference {
                revision: copy_str(after_revision),
                path: copy_str(path.as_str()),
                hash: Some(string_of(to_lower(chars_of(hash.as_str()).as_slice()).as_slice())),
            },
        };
        let ghost c0 = comparison_views(cs@);
        let ghost p0 = crate::text::string_views(paths@);
        cs.push(c);
        paths.push(copy_str(path.as_str()));
        assert(comparison_views(cs@) =~= c0.push(comparison_view(c)));
        assert(crate::text::string_views(paths@) =~= p0.push(path@));
        i += 1;
    }
    Ok((cs, paths))
}

// ---------------------------------------------------------------------------
// Reading a file
// ---------------------------------------------------------------------------

/// A reference that may be read for a kind: a valid revision and a history
/// path of that kind.
pub open spec fn spec_reference_valid(f: RefView, t: ScheduleType) -> bool {
    spec_valid_revision(f.revision) && match spec_history_path(f.path) {
        Some(h) => h.data_type == t,
        None => false,
    }
}

pub fn reference_valid(file: &FileReference, t: ScheduleType) -> (r: bool)
    ensures
        r == spec_reference_valid(ref_view(*file), t),
{
    valid_revision(file.revision.as_str()) && match parse_history_path(file.path.as_str()) {
        Some(h) => h.data_type == t,
        None => false,
    }
}

pub uninterp spec fn md5_of(data: Seq<u8>) -> Seq<u8>;

/// `md5::Md5::digest` (crate `md-5`): the 16 bytes of the MD5 digest.
#[verifier::external_body]
pub(crate) fn md5(data: &[u8]) -> (r: Vec<u8>)
    ensures
        r@ == md5_of(data@),
        r@.len() == 16,
{
    <md5::Md5 as md5::Digest>::digest(data).to_vec()
}

/// The text has the digest the reference names, if it names one: the
/// lower-case hexadecimal MD5 digest of its UTF-8 bytes.
pub open spec fn spec_content_matches(text: &str, hash: Option<Seq<char>>) -> bool {
    match hash {
        None => true,
        Some(h) => crate::settings::spec_hex(md5_of(text.spec_bytes())) == lower_seq(h),
    }
}

pub fn content_matches(text: &str, hash: &Option<String>) -> (r: bool)
    ensures
        r == spec_content_matches(text, crate::protocol::opt_view(*hash)),
{
    match hash {
        None => true,
        Some(h) => {
            let digest = crate::settings::hex_encode(md5(text.as_bytes()).as_slice());
            crate::text::eq(chars_of(digest.as_str()).as_slice(), to_lower(chars_of(h.as_str()).as_slice()).as_slice())
        },
    }
}

} // verus!
