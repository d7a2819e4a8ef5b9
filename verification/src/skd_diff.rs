//! Sorting the schedules of a new file, against those of the file before it,
//! into added ones and ones whose period or versions changed.
use vstd::prelude::*;

use crate::gatya_schedule::{GachaBlock, GachaEntry, GachaHeader, GachaRate};
use crate::item::{ItemEntry, ItemGift, ItemJson};
use crate::sale::{SaleEntry, SaleJson};
use crate::schedule::{DateRange, ScheduleHeader, TimeBlock};
use crate::skd_format::ScheduleChange;
use crate::skd_parse::{
    block_view, entry_view, header_view, item_entry_view, sale_entry_view, time_block_view, time_block_views,
    GachaBlockView, GachaEntryView, HeaderView, ItemEntryView, ItemGiftView, SaleEntryView, TimeBlockView,
};
use crate::text::{chars_of, eq, string_of};

verus! {

// ---------------------------------------------------------------------------
// Equality of schedule parts
// ---------------------------------------------------------------------------

fn same_text(a: &String, b: &String) -> (r: bool)
    ensures
        r == (a@ == b@),
{
    eq(chars_of(a.as_str()).as_slice(), chars_of(b.as_str()).as_slice())
}

fn copy_text(s: &String) -> (r: String)
    ensures
        r@ == s@,
{
    string_of(chars_of(s.as_str()).as_slice())
}

fn same_opt_text(a: &Option<String>, b: &Option<String>) -> (r: bool)
    ensures
        r == (crate::protocol::opt_view(*a) == crate::protocol::opt_view(*b)),
{
    match (a, b) {
        (Some(x), Some(y)) => same_text(x, y),
        (None, None) => true,
        _ => false,
    }
}

fn same_header(a: &ScheduleHeader, b: &ScheduleHeader) -> (r: bool)
    ensures
        r == (header_view(*a) == header_view(*b)),
{
    same_text(&a.start_date, &b.start_date) && same_text(&a.start_time, &b.start_time) && same_text(
        &a.end_date,
        &b.end_date,
    ) && same_text(&a.end_time, &b.end_time) && same_text(&a.min_version, &b.min_version) && same_text(
        &a.max_version,
        &b.max_version,
    )
}

fn same_numbers(a: &Vec<i64>, b: &Vec<i64>) -> (r: bool)
    ensures
        r == (a@ == b@),
{
    if a.len() != b.len() {
        assert(a@.len() != b@.len());
        return false;
    }
    let mut i: usize = 0;
    while i < a.len()
        invariant
            i <= a@.len(),
            a@.len() == b@.len(),
            forall|k: int| 0 <= k < i ==> a@[k] == b@[k],
        decreases a@.len() - i,
    {
        if a[i] != b[i] {
            return false;
        }
        i += 1;
    }
    assert(a@ =~= b@);
    true
}

fn same_texts(a: &Vec<String>, b: &Vec<String>) -> (r: bool)
    ensures
        r == (crate::text::string_views(a@) == crate::text::string_views(b@)),
{
    if a.len() != b.len() {
        assert(crate::text::string_views(a@).len() != crate::text::string_views(b@).len());
        return false;
    }
    let mut i: usize = 0;
    while i < a.len()
        invariant
            i <= a@.len(),
            a@.len() == b@.len(),
            forall|k: int| 0 <= k < i ==> (#[trigger] a@[k])@ == b@[k]@,
        decreases a@.len() - i,
    {
        if !same_text(&a[i], &b[i]) {
            assert(crate::text::string_views(a@)[i as int] != crate::text::string_views(b@)[i as int]);
            return false;
        }
        i += 1;
    }
    assert(crate::text::string_views(a@) =~= crate::text::string_views(b@));
    true
}

fn same_ranges(a: &Vec<DateRange>, b: &Vec<DateRange>) -> (r: bool)
    ensures
        r == (crate::skd_parse::range_views(a@) == crate::skd_parse::range_views(b@)),
{
    if a.len() != b.len() {
        assert(crate::skd_parse::range_views(a@).len() != crate::skd_parse::range_views(b@).len());
        return false;
    }
    let mut i: usize = 0;
    while i < a.len()
        invariant
            i <= a@.len(),
            a@.len() == b@.len(),
            forall|k: int| 0 <= k < i ==> (#[trigger] a@[k]).start@ == b@[k].start@ && a@[k].end@ == b@[k].end@,
        decreases a@.len() - i,
    {
        if !(same_text(&a[i].start, &b[i].start) && same_text(&a[i].end, &b[i].end)) {
            assert(crate::skd_parse::range_views(a@)[i as int] != crate::skd_parse::range_views(b@)[i as int]);
            return false;
        }
        i += 1;
    }
    assert(crate::skd_parse::range_views(a@) =~= crate::skd_parse::range_views(b@));
    true
}

fn same_pairs(a: &Vec<(String, String)>, b: &Vec<(String, String)>) -> (r: bool)
    ensures
        r == (crate::skd_parse::pair_views(a@) == crate::skd_parse::pair_views(b@)),
{
    if a.len() != b.len() {
        assert(crate::skd_parse::pair_views(a@).len() != crate::skd_parse::pair_views(b@).len());
        return false;
    }
    let mut i: usize = 0;
    while i < a.len()
        invariant
            i <= a@.len(),
            a@.len() == b@.len(),
            forall|k: int| 0 <= k < i ==> (#[trigger] a@[k]).0@ == b@[k].0@ && a@[k].1@ == b@[k].1@,
        decreases a@.len() - i,
    {
        if !(same_text(&a[i].0, &b[i].0) && same_text(&a[i].1, &b[i].1)) {
            assert(crate::skd_parse::pair_views(a@)[i as int] != crate::skd_parse::pair_views(b@)[i as int]);
            return false;
        }
        i += 1;
    }
    assert(crate::skd_parse::pair_views(a@) =~= crate::skd_parse::pair_views(b@));
    true
}

fn same_time_block(a: &TimeBlock, b: &TimeBlock) -> (r: bool)
    ensures
        r == (time_block_view(*a) == time_block_view(*b)),
{
    same_ranges(&a.date_ranges, &b.date_ranges) && same_numbers(&a.month_days, &b.month_days) && same_texts(
        &a.weekdays,
        &b.weekdays,
    ) && same_pairs(&a.time_ranges, &b.time_ranges)
}

fn same_time_blocks(a: &Vec<TimeBlock>, b: &Vec<TimeBlock>) -> (r: bool)
    ensures
        r == (time_block_views(a@) == time_block_views(b@)),
{
    if a.len() != b.len() {
        assert(time_block_views(a@).len() != time_block_views(b@).len());
        return false;
    }
    let mut i: usize = 0;
    while i < a.len()
        invariant
            i <= a@.len(),
            a@.len() == b@.len(),
            forall|k: int| 0 <= k < i ==> time_block_view(#[trigger] a@[k]) == time_block_view(b@[k]),
        decreases a@.len() - i,
    {
        if !same_time_block(&a[i], &b[i]) {
            assert(time_block_views(a@)[i as int] != time_block_views(b@)[i as int]);
            return false;
        }
        i += 1;
    }
    assert(time_block_views(a@) =~= time_block_views(b@));
    true
}

pub open spec fn gacha_entry_views(v: Seq<GachaEntry>) -> Seq<GachaEntryView> {
    v.map_values(|e: GachaEntry| entry_view(e))
}

fn same_gacha_entry(a: &GachaEntry, b: &GachaEntry) -> (r: bool)
    ensures
        r == (entry_view(*a) == entry_view(*b)),
{
    let same_rates = same_text(&a.rates.normal, &b.rates.normal) && same_text(&a.rates.rare, &b.rates.rare)
        && same_text(&a.rates.super_rare, &b.rates.super_rare) && same_text(&a.rates.uber_rare, &b.rates.uber_rare)
        && same_text(&a.rates.legend_rare, &b.rates.legend_rare);
    assert(same_rates == (entry_view(*a).rates == entry_view(*b).rates)) by {
        if entry_view(*a).rates == entry_view(*b).rates {
            assert(entry_view(*a).rates[0] == entry_view(*b).rates[0]);
            assert(entry_view(*a).rates[1] == entry_view(*b).rates[1]);
            assert(entry_view(*a).rates[2] == entry_view(*b).rates[2]);
            assert(entry_view(*a).rates[3] == entry_view(*b).rates[3]);
            assert(entry_view(*a).rates[4] == entry_view(*b).rates[4]);
        }
        if same_rates {
            assert(entry_view(*a).rates =~= entry_view(*b).rates);
        }
    }
    a.id == b.id && same_text(&a.price, &b.price) && a.flags == b.flags && same_rates && a.guaranteed == b.guaranteed
        && same_opt_text(&a.message, &b.message)
}

fn same_gacha_entries(a: &Vec<GachaEntry>, b: &Vec<GachaEntry>) -> (r: bool)
    ensures
        r == (gacha_entry_views(a@) == gacha_entry_views(b@)),
{
    if a.len() != b.len() {
        assert(gacha_entry_views(a@).len() != gacha_entry_views(b@).len());
        return false;
    }
    let mut i: usize = 0;
    while i < a.len()
        invariant
            i <= a@.len(),
            a@.len() == b@.len(),
            forall|k: int| 0 <= k < i ==> entry_view(#[trigger] a@[k]) == entry_view(b@[k]),
        decreases a@.len() - i,
    {
        if !same_gacha_entry(&a[i], &b[i]) {
            assert(gacha_entry_views(a@)[i as int] != gacha_entry_views(b@)[i as int]);
            return false;
        }
        i += 1;
    }
    assert(gacha_entry_views(a@) =~= gacha_entry_views(b@));
    true
}

pub open spec fn gift_view(g: ItemGift) -> ItemGiftView {
    ItemGiftView {
        event_id: g.event_id,
        gift_type: g.gift_type,
        gift_amount: g.gift_amount,
        title: g.title@,
        message: g.message@,
        url: g.url@,
        repeat_flag: g.repeat_flag,
    }
}

fn same_gift(a: &ItemGift, b: &ItemGift) -> (r: bool)
    ensures
        r == (gift_view(*a) == gift_view(*b)),
{
    a.event_id == b.event_id && a.gift_type == b.gift_type && a.gift_amount == b.gift_amount && same_text(
        &a.title,
        &b.title,
    ) && same_text(&a.message, &b.message) && same_text(&a.url, &b.url) && a.repeat_flag == b.repeat_flag
}

// ---------------------------------------------------------------------------
// Comparing two lists of schedules
// ---------------------------------------------------------------------------

/// A schedule that can be compared: its shape is what its JSON holds, and
/// its identity is what stays when only its period or versions change.
pub trait ScheduleItem: Sized {
    type Shape;

    spec fn shape(&self) -> Self::Shape;

    spec fn same_identity(a: Self::Shape, b: Self::Shape) -> bool;

    spec fn header_of(a: Self::Shape) -> HeaderView;

    fn same_shape(&self, other: &Self) -> (r: bool)
        ensures
            r == (self.shape() == other.shape()),
    ;

    fn same_identity_as(&self, other: &Self) -> (r: bool)
        ensures
            r == Self::same_identity(self.shape(), other.shape()),
    ;

    fn schedule_header(&self) -> (r: &ScheduleHeader)
        ensures
            header_view(*r) == Self::header_of(self.shape()),
    ;
}

pub open spec fn flag(b: bool) -> nat {
    if b {
        1
    } else {
        0
    }
}

/// In how many of its six fields one header differs from another.
pub open spec fn header_difference(l: HeaderView, r: HeaderView) -> nat {
    flag(l.start_date != r.start_date) + flag(l.start_time != r.start_time) + flag(l.end_date != r.end_date) + flag(
        l.end_time != r.end_time,
    ) + flag(l.min_version != r.min_version) + flag(l.max_version != r.max_version)
}

fn header_difference_exec(l: &ScheduleHeader, r: &ScheduleHeader) -> (d: usize)
    ensures
        d == header_difference(header_view(*l), header_view(*r)),
{
    let mut d: usize = 0;
    if !same_text(&l.start_date, &r.start_date) {
        d += 1;
    }
    if !same_text(&l.start_time, &r.start_time) {
        d += 1;
    }
    if !same_text(&l.end_date, &r.end_date) {
        d += 1;
    }
    if !same_text(&l.end_time, &r.end_time) {
        d += 1;
    }
    if !same_text(&l.min_version, &r.min_version) {
        d += 1;
    }
    if !same_text(&l.max_version, &r.max_version) {
        d += 1;
    }
    d
}

pub open spec fn shapes<T: ScheduleItem>(v: Seq<T>) -> Seq<T::Shape> {
    v.map_values(|t: T| t.shape())
}

pub open spec fn change_shapes<T: ScheduleItem>(v: Seq<ScheduleChange<T>>) -> Seq<(T::Shape, T::Shape)> {
    v.map_values(|c: ScheduleChange<T>| (c.before.shape(), c.after.shape()))
}

/// The first `n` schedules before that are not among those after, in order.
pub open spec fn missing_from<S>(before: Seq<S>, after: Seq<S>, n: int) -> Seq<S>
    decreases n,
{
    if n <= 0 {
        Seq::empty()
    } else {
        missing_from(before, after, n - 1) + if after.contains(before[n - 1]) {
            Seq::empty()
        } else {
            seq![before[n - 1]]
        }
    }
}

/// Of the schedules from `k` on with the identity of `x`, the first of those
/// whose header differs least from that of `x`, if it differs less than `d`;
/// else `best`.
pub open spec fn best_match<T: ScheduleItem>(removed: Seq<T::Shape>, x: T::Shape, k: int, best: Option<int>, d: int) -> Option<int>
    decreases removed.len() - k,
{
    if k < 0 || k >= removed.len() {
        best
    } else if T::same_identity(removed[k], x) && header_difference(T::header_of(removed[k]), T::header_of(x)) < d {
        best_match::<T>(removed, x, k + 1, Some(k), header_difference(T::header_of(removed[k]), T::header_of(x)) as int)
    } else {
        best_match::<T>(removed, x, k + 1, best, d)
    }
}

/// What the comparison holds after some of the new schedules: the old
/// schedules not matched yet, the added ones and the changed ones.
pub struct DiffState<S> {
    pub removed: Seq<S>,
    pub added: Seq<S>,
    pub changes: Seq<(S, S)>,
}

/// The comparison after the first `n` new schedules. A new schedule that
/// was there before is passed over; else it changes the closest old
/// schedule of its identity that is gone, or it is added.
pub open spec fn diff_upto<T: ScheduleItem>(before: Seq<T::Shape>, after: Seq<T::Shape>, n: int) -> DiffState<T::Shape>
    decreases n,
{
    if n <= 0 {
        DiffState { removed: missing_from(before, after, before.len() as int), added: Seq::empty(), changes: Seq::empty() }
    } else {
        let st = diff_upto::<T>(before, after, n - 1);
        let x = after[n - 1];
        if before.contains(x) {
            st
        } else {
            match best_match::<T>(st.removed, x, 0, None, usize::MAX as int) {
                Some(k) => DiffState {
                    removed: st.removed.remove(k),
                    added: st.added,
                    changes: st.changes.push((st.removed[k], x)),
                },
                None => DiffState { removed: st.removed, added: st.added.push(x), changes: st.changes },
            }
        }
    }
}

pub open spec fn spec_compare<T: ScheduleItem>(before: Seq<T::Shape>, after: Seq<T::Shape>) -> (Seq<T::Shape>, Seq<(T::Shape, T::Shape)>) {
    let st = diff_upto::<T>(before, after, after.len() as int);
    (st.added, st.changes)
}

fn contains_shape<T: ScheduleItem>(v: &Vec<T>, x: &T) -> (r: bool)
    ensures
        r == shapes(v@).contains(x.shape()),
{
    let mut i: usize = 0;
    while i < v.len()
        invariant
            i <= v@.len(),
            forall|k: int| 0 <= k < i ==> (#[trigger] v@[k]).shape() != x.shape(),
        decreases v@.len() - i,
    {
        if v[i].same_shape(x) {
            assert(shapes(v@)[i as int] == x.shape());
            return true;
        }
        i += 1;
    }
    assert forall|k: int| 0 <= k < shapes(v@).len() implies shapes(v@)[k] != x.shape() by {
        assert(shapes(v@)[k] == v@[k].shape());
    }
    false
}

/// The new schedules that were not there before, and the old ones whose
/// period or versions changed, each with its new form.
pub fn compare_entries<T: ScheduleItem>(before: Vec<T>, after: Vec<T>) -> (r: (Vec<T>, Vec<ScheduleChange<T>>))
    ensures
        (shapes(r.0@), change_shapes(r.1@)) == spec_compare::<T>(shapes(before@), shapes(after@)),
        forall|k: int| 0 <= k < r.0@.len() ==> after@.contains(#[trigger] r.0@[k]),
        forall|k: int| 0 <= k < r.1@.len() ==> before@.contains((#[trigger] r.1@[k]).before) && after@.contains(r.1@[k].after),
{
    let ghost b0 = before@;
    let ghost a0 = after@;
    let ghost bv = shapes(before@);
    let ghost av = shapes(after@);
    let mut in_before: Vec<bool> = Vec::new();
    let mut j: usize = 0;
    while j < after.len()
        invariant
            j <= after@.len(),
            bv == shapes(before@),
            av == shapes(after@),
            in_before@.len() == j,
            forall|k: int| 0 <= k < j ==> in_before@[k] == bv.contains(#[trigger] av[k]),
        decreases after@.len() - j,
    {
        let c = contains_shape(&before, &after[j]);
        in_before.push(c);
        j += 1;
    }
    let before_len = before.len();
    let after_len = after.len();
    let mut rest = before;
    let mut removed: Vec<T> = Vec::new();
    let mut i: usize = 0;
    assert(bv.skip(0) =~= bv);
    assert(b0.skip(0) =~= b0);
    while rest.len() > 0
        invariant
            i <= bv.len(),
            bv.len() == before_len,
            av == shapes(after@),
            shapes(rest@) == bv.skip(i as int),
            shapes(removed@) == missing_from(bv, av, i as int),
            rest@ == b0.skip(i as int),
            b0.len() == bv.len(),
            forall|k: int| 0 <= k < removed@.len() ==> b0.contains(#[trigger] removed@[k]),
        decreases rest@.len(),
    {
        assert(rest@.len() == shapes(rest@).len());
        assert(i < bv.len());
        assert(shapes(rest@)[0] == bv[i as int]);
        let ghost old_rest = rest@;
        let x = rest.remove(0);
        assert(rest@ =~= old_rest.drop_first());
        assert(x == b0[i as int]);
        assert(b0.skip(i as int).drop_first() =~= b0.skip(i + 1));
        let ghost before_removed = shapes(removed@);
        if !contains_shape(&after, &x) {
            removed.push(x);
            assert(shapes(removed@) =~= before_removed.push(x.shape()));
        }
        assert(missing_from(bv, av, i + 1) =~= missing_from(bv, av, i as int) + if av.contains(bv[i as int]) {
            Seq::empty()
        } else {
            seq![bv[i as int]]
        });
        assert(shapes(rest@) =~= shapes(old_rest).drop_first());
        assert(bv.skip(i as int).drop_first() =~= bv.skip(i + 1));
        assert(shapes(rest@) =~= bv.skip(i + 1));
        i += 1;
    }
    assert(i == bv.len()) by {
        assert(bv.skip(i as int).len() == 0);
    }
    let mut rest_after = after;
    let mut added: Vec<T> = Vec::new();
    let mut changes: Vec<ScheduleChange<T>> = Vec::new();
    let mut j: usize = 0;
    assert(av.skip(0) =~= av);
    assert(a0.skip(0) =~= a0);
    assert(shapes(added@) =~= Seq::<T::Shape>::empty());
    assert(change_shapes(changes@) =~= Seq::<(T::Shape, T::Shape)>::empty());
    while rest_after.len() > 0
        invariant
            j <= av.len(),
            av.len() == after_len,
            in_before@.len() == av.len(),
            forall|k: int| 0 <= k < av.len() ==> in_before@[k] == bv.contains(#[trigger] av[k]),
            shapes(rest_after@) == av.skip(j as int),
            shapes(removed@) == diff_upto::<T>(bv, av, j as int).removed,
            shapes(added@) == diff_upto::<T>(bv, av, j as int).added,
            change_shapes(changes@) == diff_upto::<T>(bv, av, j as int).changes,
            rest_after@ == a0.skip(j as int),
            a0.len() == av.len(),
            forall|k: int| 0 <= k < removed@.len() ==> b0.contains(#[trigger] removed@[k]),
            forall|k: int| 0 <= k < added@.len() ==> a0.contains(#[trigger] added@[k]),
            forall|k: int| 0 <= k < changes@.len() ==> b0.contains((#[trigger] changes@[k]).before) && a0.contains(changes@[k].after),
        decreases rest_after@.len(),
    {
        assert(rest_after@.len() == shapes(rest_after@).len());
        assert(j < av.len());
        assert(shapes(rest_after@)[0] == av[j as int]);
        let ghost old_rest = rest_after@;
        let x = rest_after.remove(0);
        assert(rest_after@ =~= old_rest.drop_first());
        assert(x == a0[j as int]);
        assert(a0.skip(j as int).drop_first() =~= a0.skip(j + 1));
        assert(shapes(rest_after@) =~= shapes(old_rest).drop_first());
        assert(av.skip(j as int).drop_first() =~= av.skip(j + 1));
        assert(shapes(rest_after@) =~= av.skip(j + 1));
        let ghost st = diff_upto::<T>(bv, av, j as int);
        if !in_before[j] {
            let mut matched: Option<usize> = None;
            let mut difference: usize = usize::MAX;
            let mut k: usize = 0;
            while k < removed.len()
                invariant
                    k <= removed@.len(),
                    shapes(removed@) == st.removed,
                    matched matches Some(m) ==> m < removed@.len(),
                    best_match::<T>(st.removed, x.shape(), 0, None, usize::MAX as int) == best_match::<T>(
                        st.removed,
                        x.shape(),
                        k as int,
                        match matched {
                            Some(m) => Some(m as int),
                            None => None,
                        },
                        difference as int,
                    ),
                decreases removed@.len() - k,
            {
                assert(st.removed[k as int] == removed@[k as int].shape());
                if removed[k].same_identity_as(&x) {
                    let score = header_difference_exec(removed[k].schedule_header(), x.schedule_header());
                    if score < difference {
                        matched = Some(k);
                        difference = score;
                    }
                }
                k += 1;
            }
            match matched {
                Some(m) => {
                    let ghost c0 = change_shapes(changes@);
                    let ghost r0 = removed@;
                    let b = removed.remove(m);
                    assert(b == r0[m as int]);
                    assert(forall|k: int| 0 <= k < removed@.len() ==> #[trigger] removed@[k] == r0.remove(m as int)[k]);
                    assert(shapes(removed@) =~= st.removed.remove(m as int));
                    changes.push(ScheduleChange { before: b, after: x });
                    assert(change_shapes(changes@) =~= c0.push((st.removed[m as int], x.shape())));
                },
                None => {
                    let ghost a0 = shapes(added@);
                    added.push(x);
                    assert(shapes(added@) =~= a0.push(x.shape()));
                },
            }
        }
        j += 1;
    }
    assert(j == av.len()) by {
        assert(av.skip(j as int).len() == 0);
    }
    (added, changes)
}

// ---------------------------------------------------------------------------
// The three kinds of schedules
// ---------------------------------------------------------------------------

impl ScheduleItem for ItemEntry {
    type Shape = ItemEntryView;

    /// The entry as its JSON holds it: without its raw line.
    open spec fn shape(&self) -> ItemEntryView {
        ItemEntryView { raw: None, ..item_entry_view(*self) }
    }

    /// The gift and the time blocks.
    open spec fn same_identity(a: ItemEntryView, b: ItemEntryView) -> bool {
        a.gift == b.gift && a.time_blocks == b.time_blocks
    }

    open spec fn header_of(a: ItemEntryView) -> HeaderView {
        a.header
    }

    fn same_shape(&self, other: &Self) -> (r: bool) {
        let r = same_header(&self.header, &other.header) && same_time_blocks(&self.time_blocks, &other.time_blocks)
            && same_gift(&self.gift, &other.gift);
        assert(r == (self.shape() == other.shape())) by {
            if self.shape() == other.shape() {
                assert(self.shape().gift == other.shape().gift);
            }
        }
        r
    }

    fn same_identity_as(&self, other: &Self) -> (r: bool) {
        same_gift(&self.gift, &other.gift) && same_time_blocks(&self.time_blocks, &other.time_blocks)
    }

    fn schedule_header(&self) -> (r: &ScheduleHeader) {
        &self.header
    }
}

impl ScheduleItem for SaleEntry {
    type Shape = SaleEntryView;

    /// The entry as its JSON holds it: without its raw line.
    open spec fn shape(&self) -> SaleEntryView {
        SaleEntryView { raw: None, ..sale_entry_view(*self) }
    }

    /// The time blocks and the stage ids.
    open spec fn same_identity(a: SaleEntryView, b: SaleEntryView) -> bool {
        a.time_blocks == b.time_blocks && a.stage_ids == b.stage_ids
    }

    open spec fn header_of(a: SaleEntryView) -> HeaderView {
        a.header
    }

    fn same_shape(&self, other: &Self) -> (r: bool) {
        same_header(&self.header, &other.header) && same_time_blocks(&self.time_blocks, &other.time_blocks)
            && same_numbers(&self.stage_ids, &other.stage_ids)
    }

    fn same_identity_as(&self, other: &Self) -> (r: bool) {
        same_time_blocks(&self.time_blocks, &other.time_blocks) && same_numbers(&self.stage_ids, &other.stage_ids)
    }

    fn schedule_header(&self) -> (r: &ScheduleHeader) {
        &self.header
    }
}

impl ScheduleItem for GachaBlock {
    type Shape = GachaBlockView;

    /// The block as its JSON holds it: without its raw line.
    open spec fn shape(&self) -> GachaBlockView {
        GachaBlockView { raw: None, ..block_view(*self) }
    }

    /// The gacha type and the gachas.
    open spec fn same_identity(a: GachaBlockView, b: GachaBlockView) -> bool {
        a.gacha_type == b.gacha_type && a.gachas == b.gachas
    }

    open spec fn header_of(a: GachaBlockView) -> HeaderView {
        a.schedule
    }

    fn same_shape(&self, other: &Self) -> (r: bool) {
        let r = same_header(&self.header.schedule, &other.header.schedule) && self.header.gacha_type
            == other.header.gacha_type && self.header.gacha_count == other.header.gacha_count && same_gacha_entries(
            &self.gachas,
            &other.gachas,
        );
        assert(self.shape().gachas == gacha_entry_views(self.gachas@));
        assert(other.shape().gachas == gacha_entry_views(other.gachas@));
        r
    }

    fn same_identity_as(&self, other: &Self) -> (r: bool) {
        let r = self.header.gacha_type == other.header.gacha_type && same_gacha_entries(&self.gachas, &other.gachas);
        assert(self.shape().gachas == gacha_entry_views(self.gachas@));
        assert(other.shape().gachas == gacha_entry_views(other.gachas@));
        r
    }

    fn schedule_header(&self) -> (r: &ScheduleHeader) {
        &self.header.schedule
    }
}

/// The new item schedules, and the changed ones.
pub fn compare_item(before: ItemJson, after: ItemJson) -> (r: (ItemJson, Vec<ScheduleChange<ItemEntry>>))
    ensures
        (shapes(r.0.data@), change_shapes(r.1@)) == spec_compare::<ItemEntry>(shapes(before.data@), shapes(after.data@)),
        r.0.updated_at@ == Seq::<char>::empty(),
{
    let (added, changes) = compare_entries(before.data, after.data);
    (ItemJson { updated_at: String::new(), data: added }, changes)
}

// ---------------------------------------------------------------------------
// Copies
// ---------------------------------------------------------------------------

fn copy_header(h: &ScheduleHeader) -> (r: ScheduleHeader)
    ensures
        header_view(r) == header_view(*h),
{
    ScheduleHeader {
        start_date: copy_text(&h.start_date),
        start_time: copy_text(&h.start_time),
        end_date: copy_text(&h.end_date),
        end_time: copy_text(&h.end_time),
        min_version: copy_text(&h.min_version),
        max_version: copy_text(&h.max_version),
    }
}

fn copy_time_block(b: &TimeBlock) -> (r: TimeBlock)
    ensures
        time_block_view(r) == time_block_view(*b),
{
    let mut date_ranges: Vec<DateRange> = Vec::new();
    let mut i: usize = 0;
    while i < b.date_ranges.len()
        invariant
            i <= b.date_ranges@.len(),
            date_ranges@.len() == i,
            forall|k: int| 0 <= k < i ==> (#[trigger] date_ranges@[k]).start@ == b.date_ranges@[k].start@
                && date_ranges@[k].end@ == b.date_ranges@[k].end@,
        decreases b.date_ranges@.len() - i,
    {
        date_ranges.push(DateRange { start: copy_text(&b.date_ranges[i].start), end: copy_text(&b.date_ranges[i].end) });
        i += 1;
    }
    let mut month_days: Vec<i64> = Vec::new();
    let mut i: usize = 0;
    while i < b.month_days.len()
        invariant
            i <= b.month_days@.len(),
            month_days@ == b.month_days@.take(i as int),
        decreases b.month_days@.len() - i,
    {
        month_days.push(b.month_days[i]);
        assert(month_days@ =~= b.month_days@.take(i + 1));
        i += 1;
    }
    let mut weekdays: Vec<String> = Vec::new();
    let mut i: usize = 0;
    while i < b.weekdays.len()
        invariant
            i <= b.weekdays@.len(),
            weekdays@.len() == i,
            forall|k: int| 0 <= k < i ==> (#[trigger] weekdays@[k])@ == b.weekdays@[k]@,
        decreases b.weekdays@.len() - i,
    {
        weekdays.push(copy_text(&b.weekdays[i]));
        i += 1;
    }
    let mut time_ranges: Vec<(String, String)> = Vec::new();
    let mut i: usize = 0;
    while i < b.time_ranges.len()
        invariant
            i <= b.time_ranges@.len(),
            time_ranges@.len() == i,
            forall|k: int| 0 <= k < i ==> (#[trigger] time_ranges@[k]).0@ == b.time_ranges@[k].0@
                && time_ranges@[k].1@ == b.time_ranges@[k].1@,
        decreases b.time_ranges@.len() - i,
    {
        time_ranges.push((copy_text(&b.time_ranges[i].0), copy_text(&b.time_ranges[i].1)));
        i += 1;
    }
    assert(month_days@ =~= b.month_days@);
    let r = TimeBlock { date_ranges, month_days, weekdays, time_ranges };
    assert(crate::skd_parse::range_views(r.date_ranges@) =~= crate::skd_parse::range_views(b.date_ranges@));
    assert(crate::text::string_views(r.weekdays@) =~= crate::text::string_views(b.weekdays@));
    assert(crate::skd_parse::pair_views(r.time_ranges@) =~= crate::skd_parse::pair_views(b.time_ranges@));
    r
}

fn copy_time_blocks(v: &Vec<TimeBlock>) -> (r: Vec<TimeBlock>)
    ensures
        time_block_views(r@) == time_block_views(v@),
{
    let mut r: Vec<TimeBlock> = Vec::new();
    let mut i: usize = 0;
    while i < v.len()
        invariant
            i <= v@.len(),
            r@.len() == i,
            forall|k: int| 0 <= k < i ==> time_block_view(#[trigger] r@[k]) == time_block_view(v@[k]),
        decreases v@.len() - i,
    {
        r.push(copy_time_block(&v[i]));
        i += 1;
    }
    assert(time_block_views(r@) =~= time_block_views(v@));
    r
}

fn copy_gacha_entry(e: &GachaEntry) -> (r: GachaEntry)
    ensures
        entry_view(r) == entry_view(*e),
{
    let r = GachaEntry {
        id: e.id,
        price: copy_text(&e.price),
        flags: e.flags,
        rates: GachaRate {
            normal: copy_text(&e.rates.normal),
            rare: copy_text(&e.rates.rare),
            super_rare: copy_text(&e.rates.super_rare),
            uber_rare: copy_text(&e.rates.uber_rare),
            legend_rare: copy_text(&e.rates.legend_rare),
        },
        guaranteed: e.guaranteed,
        message: match &e.message {
            Some(m) => Some(copy_text(m)),
            None => None,
        },
    };
    assert(entry_view(r).rates =~= entry_view(*e).rates);
    r
}

// ---------------------------------------------------------------------------
// Gatya: one block per gacha
// ---------------------------------------------------------------------------

/// A block of one gacha of `b`.
pub open spec fn single_gacha(b: GachaBlockView, e: GachaEntryView) -> GachaBlockView {
    GachaBlockView { schedule: b.schedule, gacha_type: b.gacha_type, gacha_count: 1, gachas: seq![e], raw: None }
}

/// The blocks cut into blocks of one gacha each, in order.
pub open spec fn flatten_gatya(blocks: Seq<GachaBlockView>) -> Seq<GachaBlockView>
    decreases blocks.len(),
{
    if blocks.len() == 0 {
        Seq::empty()
    } else {
        let b = blocks.last();
        flatten_gatya(blocks.drop_last()) + b.gachas.map_values(|e: GachaEntryView| single_gacha(b, e))
    }
}

fn flatten_blocks(blocks: &Vec<GachaBlock>) -> (r: Vec<GachaBlock>)
    ensures
        shapes(r@) == flatten_gatya(shapes(blocks@)),
{
    let mut r: Vec<GachaBlock> = Vec::new();
    let mut i: usize = 0;
    assert(shapes(r@) =~= flatten_gatya(shapes(blocks@).take(0)));
    while i < blocks.len()
        invariant
            i <= blocks@.len(),
            shapes(r@) == flatten_gatya(shapes(blocks@).take(i as int)),
        decreases blocks@.len() - i,
    {
        let b = &blocks[i];
        let ghost bs = b.shape();
        let ghost done = shapes(r@);
        let mut k: usize = 0;
        assert(done + bs.gachas.take(0).map_values(|e: GachaEntryView| single_gacha(bs, e)) =~= done);
        while k < b.gachas.len()
            invariant
                k <= b.gachas@.len(),
                bs == b.shape(),
                bs.gachas == gacha_entry_views(b.gachas@),
                shapes(r@) == done + bs.gachas.take(k as int).map_values(|e: GachaEntryView| single_gacha(bs, e)),
            decreases b.gachas@.len() - k,
        {
            let mut gachas: Vec<GachaEntry> = Vec::new();
            gachas.push(copy_gacha_entry(&b.gachas[k]));
            let block = GachaBlock {
                header: GachaHeader { schedule: copy_header(&b.header.schedule), gacha_type: b.header.gacha_type, gacha_count: 1 },
                gachas,
                raw: None,
            };
            assert(block.shape().gachas =~= seq![bs.gachas[k as int]]);
            assert(block.shape() == single_gacha(bs, bs.gachas[k as int]));
            let ghost prev = shapes(r@);
            r.push(block);
            assert(shapes(r@) =~= prev.push(block.shape()));
            assert(bs.gachas.take(k + 1).map_values(|e: GachaEntryView| single_gacha(bs, e)) =~= bs.gachas.take(
                k as int,
            ).map_values(|e: GachaEntryView| single_gacha(bs, e)).push(single_gacha(bs, bs.gachas[k as int])));
            k += 1;
        }
        assert(bs.gachas.take(k as int) =~= bs.gachas);
        assert(shapes(blocks@).take(i + 1).drop_last() =~= shapes(blocks@).take(i as int));
        assert(shapes(blocks@).take(i + 1).last() == bs);
        i += 1;
    }
    assert(shapes(blocks@).take(i as int) =~= shapes(blocks@));
    r
}

/// The new gatya schedules, one gacha each, and the changed ones.
pub fn compare_gatya(before: Vec<GachaBlock>, after: Vec<GachaBlock>) -> (r: (Vec<GachaBlock>, Vec<ScheduleChange<GachaBlock>>))
    ensures
        (shapes(r.0@), change_shapes(r.1@)) == spec_compare::<GachaBlock>(
            flatten_gatya(shapes(before@)),
            flatten_gatya(shapes(after@)),
        ),
        forall|i: int|
            0 <= i < r.1@.len() ==> (#[trigger] r.1@[i]).before.header.gacha_type == r.1@[i].after.header.gacha_type
                && r.1@[i].before.shape().gachas == r.1@[i].after.shape().gachas,
{
    let b = flatten_blocks(&before);
    let a = flatten_blocks(&after);
    let r = compare_entries(b, a);
    proof {
        lemma_gatya_identity(flatten_gatya(shapes(before@)), flatten_gatya(shapes(after@)));
        assert forall|i: int|
            0 <= i < r.1@.len() implies (#[trigger] r.1@[i]).before.header.gacha_type
                == r.1@[i].after.header.gacha_type && r.1@[i].before.shape().gachas == r.1@[i].after.shape().gachas by {
            assert(change_shapes(r.1@)[i] == (r.1@[i].before.shape(), r.1@[i].after.shape()));
        }
    }
    r
}

// ---------------------------------------------------------------------------
// Sale: one entry per stage
// ---------------------------------------------------------------------------

/// An entry for one stage of `e`.
pub open spec fn single_stage(e: SaleEntryView, id: i64) -> SaleEntryView {
    SaleEntryView { header: e.header, time_blocks: e.time_blocks, stage_ids: seq![id], raw: None }
}

/// The entries cut into entries of one stage each, in order.
pub open spec fn flatten_sale(entries: Seq<SaleEntryView>) -> Seq<SaleEntryView>
    decreases entries.len(),
{
    if entries.len() == 0 {
        Seq::empty()
    } else {
        let e = entries.last();
        flatten_sale(entries.drop_last()) + e.stage_ids.map_values(|id: i64| single_stage(e, id))
    }
}

/// The first `n` stage ids of `e` whose one-stage entry was added.
pub open spec fn kept_ids(e: SaleEntryView, added: Seq<SaleEntryView>, n: int) -> Seq<i64>
    decreases n,
{
    if n <= 0 {
        Seq::empty()
    } else {
        kept_ids(e, added, n - 1) + if added.contains(single_stage(e, e.stage_ids[n - 1])) {
            seq![e.stage_ids[n - 1]]
        } else {
            Seq::empty()
        }
    }
}

/// The new entries, each with only its added stages; one left with none is
/// dropped.
pub open spec fn kept_entries(after: Seq<SaleEntryView>, added: Seq<SaleEntryView>, n: int) -> Seq<SaleEntryView>
    decreases n,
{
    if n <= 0 {
        Seq::empty()
    } else {
        let e = after[n - 1];
        let ids = kept_ids(e, added, e.stage_ids.len() as int);
        kept_entries(after, added, n - 1) + if ids.len() > 0 {
            seq![SaleEntryView { stage_ids: ids, ..e }]
        } else {
            Seq::empty()
        }
    }
}

pub open spec fn sale_views(v: Seq<SaleEntry>) -> Seq<SaleEntryView> {
    v.map_values(|e: SaleEntry| sale_entry_view(e))
}

fn single_stage_entry(e: &SaleEntry, id: i64) -> (r: SaleEntry)
    ensures
        r.shape() == single_stage(sale_entry_view(*e), id),
        sale_entry_view(r) == single_stage(sale_entry_view(*e), id),
{
    let mut ids: Vec<i64> = Vec::new();
    ids.push(id);
    let r = SaleEntry { header: copy_header(&e.header), time_blocks: copy_time_blocks(&e.time_blocks), stage_ids: ids, raw: None };
    assert(r.stage_ids@ =~= seq![id]);
    r
}

fn flatten_entries(entries: &Vec<SaleEntry>) -> (r: Vec<SaleEntry>)
    ensures
        shapes(r@) == flatten_sale(shapes(entries@)),
{
    let mut r: Vec<SaleEntry> = Vec::new();
    let mut i: usize = 0;
    assert(shapes(r@) =~= flatten_sale(shapes(entries@).take(0)));
    while i < entries.len()
        invariant
            i <= entries@.len(),
            shapes(r@) == flatten_sale(shapes(entries@).take(i as int)),
        decreases entries@.len() - i,
    {
        let e = &entries[i];
        let ghost es = e.shape();
        let ghost done = shapes(r@);
        let mut k: usize = 0;
        assert(done + es.stage_ids.take(0).map_values(|id: i64| single_stage(es, id)) =~= done);
        while k < e.stage_ids.len()
            invariant
                k <= e.stage_ids@.len(),
                es == e.shape(),
                shapes(r@) == done + es.stage_ids.take(k as int).map_values(|id: i64| single_stage(es, id)),
            decreases e.stage_ids@.len() - k,
        {
            let one = single_stage_entry(e, e.stage_ids[k]);
            assert(single_stage(sale_entry_view(*e), e.stage_ids@[k as int]) == single_stage(es, es.stage_ids[k as int]));
            let ghost prev = shapes(r@);
            r.push(one);
            assert(shapes(r@) =~= prev.push(one.shape()));
            assert(es.stage_ids.take(k + 1).map_values(|id: i64| single_stage(es, id)) =~= es.stage_ids.take(
                k as int,
            ).map_values(|id: i64| single_stage(es, id)).push(single_stage(es, es.stage_ids[k as int])));
            k += 1;
        }
        assert(es.stage_ids.take(k as int) =~= es.stage_ids);
        assert(shapes(entries@).take(i + 1).drop_last() =~= shapes(entries@).take(i as int));
        assert(shapes(entries@).take(i + 1).last() == es);
        i += 1;
    }
    assert(shapes(entries@).take(i as int) =~= shapes(entries@));
    r
}

fn copy_sale_entry_with(e: &SaleEntry, ids: Vec<i64>) -> (r: SaleEntry)
    ensures
        sale_entry_view(r) == (SaleEntryView { stage_ids: ids@, ..sale_entry_view(*e) }),
{
    SaleEntry {
        header: copy_header(&e.header),
        time_blocks: copy_time_blocks(&e.time_blocks),
        stage_ids: ids,
        raw: match &e.raw {
            Some(x) => Some(copy_text(x)),
            None => None,
        },
    }
}

/// The new sale schedules, each with only its added stages, and the changed
/// ones, one stage each.
pub fn compare_sale(before: SaleJson, after: SaleJson) -> (r: (SaleJson, Vec<ScheduleChange<SaleEntry>>))
    ensures
        change_shapes(r.1@) == spec_compare::<SaleEntry>(flatten_sale(shapes(before.data@)), flatten_sale(shapes(after.data@))).1,
        sale_views(r.0.data@) == kept_entries(
            sale_views(after.data@),
            spec_compare::<SaleEntry>(flatten_sale(shapes(before.data@)), flatten_sale(shapes(after.data@))).0,
            after.data@.len() as int,
        ),
        r.0.updated_at@ == Seq::<char>::empty(),
{
    let b = flatten_entries(&before.data);
    let a = flatten_entries(&after.data);
    let (added, changes) = compare_entries(b, a);
    let ghost addv = shapes(added@);
    let ghost av = sale_views(after.data@);
    let mut data: Vec<SaleEntry> = Vec::new();
    let mut i: usize = 0;
    assert(sale_views(data@) =~= kept_entries(av, addv, 0));
    while i < after.data.len()
        invariant
            i <= after.data@.len(),
            av == sale_views(after.data@),
            addv == shapes(added@),
            sale_views(data@) == kept_entries(av, addv, i as int),
        decreases after.data@.len() - i,
    {
        let e = &after.data[i];
        let ghost ev = sale_entry_view(*e);
        assert(av[i as int] == ev);
        let mut ids: Vec<i64> = Vec::new();
        let mut k: usize = 0;
        while k < e.stage_ids.len()
            invariant
                k <= e.stage_ids@.len(),
                ev == sale_entry_view(*e),
                addv == shapes(added@),
                ids@ == kept_ids(ev, addv, k as int),
            decreases e.stage_ids@.len() - k,
        {
            let one = single_stage_entry(e, e.stage_ids[k]);
            if contains_shape(&added, &one) {
                ids.push(e.stage_ids[k]);
            }
            k += 1;
        }
        let ghost prev = sale_views(data@);
        if ids.len() > 0 {
            let kept = copy_sale_entry_with(e, ids);
            data.push(kept);
            assert(sale_views(data@) =~= prev.push(sale_entry_view(kept)));
        }
        assert(kept_entries(av, addv, i + 1) =~= kept_entries(av, addv, i as int) + if kept_ids(ev, addv, ev.stage_ids.len() as int).len() > 0 {
            seq![SaleEntryView { stage_ids: kept_ids(ev, addv, ev.stage_ids.len() as int), ..ev }]
        } else {
            Seq::empty()
        });
        i += 1;
    }
    (SaleJson { updated_at: String::new(), data }, changes)
}

// ---------------------------------------------------------------------------
// Laws
// ---------------------------------------------------------------------------

proof fn lemma_diff_same<T: ScheduleItem>(s: Seq<T::Shape>, n: int)
    requires
        0 <= n <= s.len(),
    ensures
        diff_upto::<T>(s, s, n).added == Seq::<T::Shape>::empty(),
        diff_upto::<T>(s, s, n).changes == Seq::<(T::Shape, T::Shape)>::empty(),
    decreases n,
{
    if n > 0 {
        lemma_diff_same::<T>(s, n - 1);
        assert(s.contains(s[n - 1]));
    }
}

/// A file compared with itself has nothing added and nothing changed.
pub proof fn lemma_compare_unchanged<T: ScheduleItem>(s: Seq<T::Shape>)
    ensures
        spec_compare::<T>(s, s).0 == Seq::<T::Shape>::empty(),
        spec_compare::<T>(s, s).1 == Seq::<(T::Shape, T::Shape)>::empty(),
{
    lemma_diff_same::<T>(s, s.len() as int);
}

proof fn lemma_diff_after_members<T: ScheduleItem>(before: Seq<T::Shape>, after: Seq<T::Shape>, n: int)
    requires
        0 <= n <= after.len(),
    ensures
        forall|k: int| 0 <= k < diff_upto::<T>(before, after, n).added.len() ==> {
            let x = #[trigger] diff_upto::<T>(before, after, n).added[k];
            after.contains(x) && !before.contains(x)
        },
    decreases n,
{
    if n > 0 {
        lemma_diff_after_members::<T>(before, after, n - 1);
        let st = diff_upto::<T>(before, after, n - 1);
        assert(after[n - 1] == after[n - 1]);
        assert forall|k: int| 0 <= k < diff_upto::<T>(before, after, n).added.len() implies {
            let x = #[trigger] diff_upto::<T>(before, after, n).added[k];
            after.contains(x) && !before.contains(x)
        } by {
            if k < st.added.len() {
                assert(diff_upto::<T>(before, after, n).added[k] == st.added[k]);
            } else {
                assert(diff_upto::<T>(before, after, n).added[k] == after[n - 1]);
            }
        }
    }
}

/// What the comparison reports as added is in the new file and was not in
/// the old one.
pub proof fn lemma_added_are_new<T: ScheduleItem>(before: Seq<T::Shape>, after: Seq<T::Shape>)
    ensures
        forall|k: int| 0 <= k < spec_compare::<T>(before, after).0.len() ==> {
            let x = #[trigger] spec_compare::<T>(before, after).0[k];
            after.contains(x) && !before.contains(x)
        },
{
    lemma_diff_after_members::<T>(before, after, after.len() as int);
}

proof fn lemma_best_match<T: ScheduleItem>(removed: Seq<T::Shape>, x: T::Shape, k: int, best: Option<int>, d: int)
    requires
        0 <= k,
        best matches Some(j) ==> 0 <= j < removed.len() && T::same_identity(removed[j], x),
    ensures
        best_match::<T>(removed, x, k, best, d) matches Some(j) ==> 0 <= j < removed.len() && T::same_identity(
            removed[j],
            x,
        ),
        best is None && (forall|j: int| k <= j < removed.len() ==> !T::same_identity(#[trigger] removed[j], x))
            ==> best_match::<T>(removed, x, k, best, d) is None,
    decreases removed.len() - k,
{
    if k < removed.len() {
        if T::same_identity(removed[k], x) && header_difference(T::header_of(removed[k]), T::header_of(x)) < d {
            lemma_best_match::<T>(
                removed,
                x,
                k + 1,
                Some(k),
                header_difference(T::header_of(removed[k]), T::header_of(x)) as int,
            );
        } else {
            lemma_best_match::<T>(removed, x, k + 1, best, d);
        }
    }
}

proof fn lemma_missing_members<S>(before: Seq<S>, after: Seq<S>, n: int)
    requires
        0 <= n <= before.len(),
    ensures
        forall|i: int| 0 <= i < missing_from(before, after, n).len() ==> before.contains(
            #[trigger] missing_from(before, after, n)[i],
        ),
    decreases n,
{
    if n > 0 {
        lemma_missing_members(before, after, n - 1);
        let prev = missing_from(before, after, n - 1);
        assert forall|i: int| 0 <= i < missing_from(before, after, n).len() implies before.contains(
            #[trigger] missing_from(before, after, n)[i],
        ) by {
            if i < prev.len() {
                assert(missing_from(before, after, n)[i] == prev[i]);
            } else {
                assert(missing_from(before, after, n)[i] == before[n - 1]);
            }
        }
    }
}

/// What the comparison keeps along the new schedules: the old schedules not
/// matched yet come from the old file, each change pairs an old schedule with
/// a new one of its identity, and what was added stays added.
proof fn lemma_diff_invariant<T: ScheduleItem>(before: Seq<T::Shape>, after: Seq<T::Shape>, n: int)
    requires
        0 <= n <= after.len(),
    ensures
        ({
            let st = diff_upto::<T>(before, after, n);
            &&& forall|i: int| 0 <= i < st.removed.len() ==> before.contains(#[trigger] st.removed[i])
            &&& forall|i: int| 0 <= i < st.changes.len() ==> T::same_identity((#[trigger] st.changes[i]).0, st.changes[i].1)
            &&& forall|m: int| 0 <= m <= n ==> diff_upto::<T>(before, after, m).added.len() <= st.added.len()
                && forall|i: int| 0 <= i < diff_upto::<T>(before, after, m).added.len() ==> st.added[i]
                == #[trigger] diff_upto::<T>(before, after, m).added[i]
        }),
    decreases n,
{
    if n == 0 {
        lemma_missing_members(before, after, before.len() as int);
    } else {
        lemma_diff_invariant::<T>(before, after, n - 1);
        let st = diff_upto::<T>(before, after, n - 1);
        let nx = diff_upto::<T>(before, after, n);
        let x = after[n - 1];
        if !before.contains(x) {
            lemma_best_match::<T>(st.removed, x, 0, None, usize::MAX as int);
            match best_match::<T>(st.removed, x, 0, None, usize::MAX as int) {
                Some(k) => {
                    assert forall|i: int| 0 <= i < nx.removed.len() implies before.contains(#[trigger] nx.removed[i]) by {
                        if i < k {
                            assert(nx.removed[i] == st.removed[i]);
                        } else {
                            assert(nx.removed[i] == st.removed[i + 1]);
                        }
                    }
                    assert forall|i: int| 0 <= i < nx.changes.len() implies T::same_identity(
                        (#[trigger] nx.changes[i]).0,
                        nx.changes[i].1,
                    ) by {
                        if i < st.changes.len() {
                            assert(nx.changes[i] == st.changes[i]);
                        }
                    }
                },
                None => {},
            }
        }
        assert forall|m: int| 0 <= m <= n implies diff_upto::<T>(before, after, m).added.len() <= nx.added.len()
            && forall|i: int| 0 <= i < diff_upto::<T>(before, after, m).added.len() ==> nx.added[i]
            == #[trigger] diff_upto::<T>(before, after, m).added[i] by {
            if m < n {
                assert forall|i: int| 0 <= i < diff_upto::<T>(before, after, m).added.len() implies nx.added[i]
                    == #[trigger] diff_upto::<T>(before, after, m).added[i] by {
                    assert(st.added[i] == diff_upto::<T>(before, after, m).added[i]);
                }
            }
        }
    }
}

/// Each change pairs an old schedule with a new one of the same identity.
pub proof fn lemma_changes_keep_identity<T: ScheduleItem>(before: Seq<T::Shape>, after: Seq<T::Shape>)
    ensures
        forall|i: int|
            0 <= i < spec_compare::<T>(before, after).1.len() ==> T::same_identity(
                (#[trigger] spec_compare::<T>(before, after).1[i]).0,
                spec_compare::<T>(before, after).1[i].1,
            ),
{
    lemma_diff_invariant::<T>(before, after, after.len() as int);
}

/// A new schedule whose identity no old schedule has is reported as added.
pub proof fn lemma_new_identity_added<T: ScheduleItem>(before: Seq<T::Shape>, after: Seq<T::Shape>, x: T::Shape)
    requires
        after.contains(x),
        !before.contains(x),
        forall|i: int| 0 <= i < before.len() ==> !T::same_identity(#[trigger] before[i], x),
    ensures
        spec_compare::<T>(before, after).0.contains(x),
{
    let n = choose|n: int| 0 <= n < after.len() && after[n] == x;
    lemma_diff_invariant::<T>(before, after, n);
    let st = diff_upto::<T>(before, after, n);
    assert forall|j: int| 0 <= j < st.removed.len() implies !T::same_identity(#[trigger] st.removed[j], x) by {
        assert(before.contains(st.removed[j]));
        let i = choose|i: int| 0 <= i < before.len() && before[i] == st.removed[j];
        assert(!T::same_identity(before[i], x));
    }
    lemma_best_match::<T>(st.removed, x, 0, None, usize::MAX as int);
    let nx = diff_upto::<T>(before, after, n + 1);
    assert(after[n] == x);
    assert(nx.added == st.added.push(x));
    lemma_diff_invariant::<T>(before, after, after.len() as int);
    let fin = diff_upto::<T>(before, after, after.len() as int);
    assert(fin.added[st.added.len() as int] == nx.added[st.added.len() as int]);
}

/// A gatya schedule change pairs only blocks with the same gacha type and the
/// same gachas, so a gacha that no block had before (with its type) is
/// reported as added, never as a change of another gacha.
pub proof fn lemma_gatya_identity(before: Seq<GachaBlockView>, after: Seq<GachaBlockView>)
    ensures
        forall|i: int|
            0 <= i < spec_compare::<GachaBlock>(before, after).1.len() ==> {
                let c = #[trigger] spec_compare::<GachaBlock>(before, after).1[i];
                c.0.gacha_type == c.1.gacha_type && c.0.gachas == c.1.gachas
            },
        forall|x: GachaBlockView|
            after.contains(x) && (forall|i: int|
                0 <= i < before.len() ==> !(#[trigger] before[i].gacha_type == x.gacha_type && before[i].gachas
                    == x.gachas)) ==> #[trigger] spec_compare::<GachaBlock>(before, after).0.contains(x),
{
    lemma_changes_keep_identity::<GachaBlock>(before, after);
    assert forall|x: GachaBlockView|
        after.contains(x) && (forall|i: int|
            0 <= i < before.len() ==> !(#[trigger] before[i].gacha_type == x.gacha_type && before[i].gachas
                == x.gachas)) implies #[trigger] spec_compare::<GachaBlock>(before, after).0.contains(x) by {
        assert(!before.contains(x)) by {
            if before.contains(x) {
                let i = choose|i: int| 0 <= i < before.len() && before[i] == x;
                assert(before[i].gacha_type == x.gacha_type && before[i].gachas == x.gachas);
            }
        }
        lemma_new_identity_added::<GachaBlock>(before, after, x);
    }
}

// ---------------------------------------------------------------------------
// Comparing two schedule files
// ---------------------------------------------------------------------------

pub open spec fn has_ascii_digit(text: Seq<char>) -> bool {
    exists|i: int| 0 <= i < text.len() && crate::text::spec_is_digit(#[trigger] text[i])
}

fn any_ascii_digit(text: &str) -> (r: bool)
    ensures
        r == has_ascii_digit(text@),
{
    let v = chars_of(text);
    let mut i: usize = 0;
    while i < v.len()
        invariant
            i <= v@.len(),
            v@ == text@,
            forall|k: int| 0 <= k < i ==> !crate::text::spec_is_digit(#[trigger] v@[k]),
        decreases v@.len() - i,
    {
        if crate::text::is_digit(v[i]) {
            return true;
        }
        i += 1;
    }
    false
}

/// The gatya schedules of two files compared: each file must be read, and a
/// new file with digits must give some schedule.
pub fn compare_gatya_texts(before: &str, after: &str) -> (r: Result<(Vec<GachaBlock>, Vec<ScheduleChange<GachaBlock>>), String>)
    requires
        crate::skd_parse::spec_parse_gatya(before@) is Some,
        crate::skd_parse::spec_parse_gatya(after@) is Some,
    ensures
        match (crate::skd_parse::spec_parse_gatya(before@)->Some_0, crate::skd_parse::spec_parse_gatya(after@)->Some_0) {
            (Err(e), _) => r is Err && r->Err_0@ == e,
            (Ok(_), Err(e)) => r is Err && r->Err_0@ == e,
            (Ok(b), Ok(a)) => if a.len() == 0 && has_ascii_digit(after@) {
                r is Err && r->Err_0@ == "gatya TSV could not be parsed"@
            } else {
                r matches Ok((added, changes)) && (shapes(added@), change_shapes(changes@)) == spec_compare::<GachaBlock>(
                    flatten_gatya(shape_blocks(b)),
                    flatten_gatya(shape_blocks(a)),
                )
            },
        },
{
    let b = crate::skd_parse::parse_gatya_tsv(before)?;
    let a = crate::skd_parse::parse_gatya_tsv(after)?;
    if a.len() == 0 && any_ascii_digit(after) {
        return Err(string_of(chars_of("gatya TSV could not be parsed").as_slice()));
    }
    proof {
        lemma_shape_blocks(b@);
        lemma_shape_blocks(a@);
    }
    Ok(compare_gatya(b, a))
}

/// The blocks as their JSON holds them: without their raw lines.
pub open spec fn shape_blocks(v: Seq<GachaBlockView>) -> Seq<GachaBlockView> {
    v.map_values(|b: GachaBlockView| GachaBlockView { raw: None, ..b })
}

proof fn lemma_shape_blocks(v: Seq<GachaBlock>)
    ensures
        shapes(v) == shape_blocks(crate::skd_parse::block_views(v)),
{
    assert(shapes(v) =~= shape_blocks(crate::skd_parse::block_views(v)));
}

/// The sale schedules of two files compared; each file must be read.
pub fn compare_sale_texts(before: &str, after: &str) -> (r: Result<(SaleJson, Vec<ScheduleChange<SaleEntry>>), String>)
    ensures
        match (crate::skd_parse::spec_parse_sale(before@), crate::skd_parse::spec_parse_sale(after@)) {
            (Err(e), _) => r is Err && r->Err_0@ == e,
            (Ok(_), Err(e)) => r is Err && r->Err_0@ == e,
            (Ok(b), Ok(a)) => r matches Ok((added, changes)) && change_shapes(changes@) == spec_compare::<SaleEntry>(
                flatten_sale(shape_sales(b)),
                flatten_sale(shape_sales(a)),
            ).1 && sale_views(added.data@) == kept_entries(
                a,
                spec_compare::<SaleEntry>(flatten_sale(shape_sales(b)), flatten_sale(shape_sales(a))).0,
                a.len() as int,
            ),
        },
{
    let b = crate::skd_parse::parse_sale_tsv(before)?;
    let a = crate::skd_parse::parse_sale_tsv(after)?;
    proof {
        assert(shapes(b@) =~= shape_sales(sale_views(b@)));
        assert(shapes(a@) =~= shape_sales(sale_views(a@)));
        assert(sale_views(a@) =~= a@.map_values(|e: SaleEntry| sale_entry_view(e)));
        assert(sale_views(b@) =~= b@.map_values(|e: SaleEntry| sale_entry_view(e)));
    }
    Ok(compare_sale(SaleJson { updated_at: String::new(), data: b }, SaleJson { updated_at: String::new(), data: a }))
}

/// The entries as their JSON holds them: without their raw lines.
pub open spec fn shape_sales(v: Seq<SaleEntryView>) -> Seq<SaleEntryView> {
    v.map_values(|e: SaleEntryView| SaleEntryView { raw: None, ..e })
}

/// The entries as their JSON holds them: without their raw lines.
pub open spec fn shape_items(v: Seq<ItemEntryView>) -> Seq<ItemEntryView> {
    v.map_values(|e: ItemEntryView| ItemEntryView { raw: None, ..e })
}

/// The item schedules of two files compared; each file must be read.
pub fn compare_item_texts(before: &str, after: &str) -> (r: Result<(ItemJson, Vec<ScheduleChange<ItemEntry>>), String>)
    ensures
        match (crate::skd_parse::spec_parse_item(before@), crate::skd_parse::spec_parse_item(after@)) {
            (Err(e), _) => r is Err && r->Err_0@ == e,
            (Ok(_), Err(e)) => r is Err && r->Err_0@ == e,
            (Ok(b), Ok(a)) => r matches Ok((added, changes)) && (shapes(added.data@), change_shapes(changes@))
                == spec_compare::<ItemEntry>(shape_items(b), shape_items(a)),
        },
{
    let b = crate::skd_parse::parse_item_tsv(before)?;
    let a = crate::skd_parse::parse_item_tsv(after)?;
    proof {
        assert(shapes(b@) =~= shape_items(b@.map_values(|e: ItemEntry| item_entry_view(e))));
        assert(shapes(a@) =~= shape_items(a@.map_values(|e: ItemEntry| item_entry_view(e))));
    }
    Ok(
        compare_item(
            ItemJson { updated_at: String::new(), data: b },
            ItemJson { updated_at: String::new(), data: a },
        ),
    )
}

} // verus!
