//! `imgcut`, `mamodel` and `maanim` texts turned into a typed motion project.
use vstd::prelude::*;

use crate::motion_error::{invalid_chars, invalid_message, MotionError};
use crate::motion_request::MotionKind;
use vstd::utf8::{decode_utf8, valid_utf8};
use crate::text::{
    chars_of, lines as text_lines, lower_seq, parse_i64, parse_i64_spec, slice, spec_lines,
    spec_trim, split_char, split_fields, to_lower, trim, views, eq_str, lemma_split_fields_len,
    append_str, append,
};

verus! {

#[derive(Clone, Copy, Debug, PartialEq, Eq, Structural)]
pub struct Cut {
    pub x: i64,
    pub y: i64,
    pub width: i64,
    pub height: i64,
}

#[derive(Clone, Copy, Debug, PartialEq, Eq, Structural)]
pub struct ModelPart {
    pub index: usize,
    pub parent: i64,
    pub id: i64,
    pub image_index: i64,
    pub z_index: i64,
    pub x: i64,
    pub y: i64,
    pub pivot_x: i64,
    pub pivot_y: i64,
    pub scale_x: i64,
    pub scale_y: i64,
    pub angle: i64,
    pub opacity: i64,
    pub glow: i64,
}

#[derive(Clone, Debug)]
pub struct Model {
    pub parts: Vec<ModelPart>,
    pub scale_unit: i64,
    pub angle_unit: i64,
    pub opacity_unit: i64,
    pub anchor: Option<[i64; 4]>,
}

#[derive(Clone, Copy, Debug, PartialEq, Eq, Structural)]
pub struct KeyFrame {
    pub frame: i64,
    pub value: i64,
    pub easing: i64,
    pub easing_power: i64,
}

#[derive(Clone, Debug)]
pub struct Track {
    pub part_index: usize,
    pub property: i64,
    pub loop_value: i64,
    pub keys: Vec<KeyFrame>,
    pub first_frame: i64,
    pub last_frame: i64,
    pub offset: i64,
}

#[derive(Clone, Debug)]
pub struct Animation {
    pub tracks: Vec<Track>,
    pub max_frame: i64,
}

/// The raw files of one motion: sprite, cut table, model, and one animation
/// per motion kind.
pub struct MotionAssets {
    pub sprite: Vec<u8>,
    pub imgcut: Vec<u8>,
    pub model: Vec<u8>,
    pub animations: Vec<(MotionKind, Vec<u8>)>,
}

#[derive(Debug)]
pub struct MotionProject {
    pub cuts: Vec<Cut>,
    pub model: Model,
    pub animations: Vec<(MotionKind, Animation)>,
}

// ---------------------------------------------------------------------------
// Lines, integers and columns
// ---------------------------------------------------------------------------

/// Removes every leading byte order mark.
pub open spec fn strip_bom(s: Seq<char>) -> Seq<char>
    decreases s.len(),
{
    if s.len() > 0 && s[0] == '\u{feff}' {
        strip_bom(s.drop_first())
    } else {
        s
    }
}

/// The trimmed, non-empty lines of a text after its byte order marks.
pub open spec fn content_lines(text: Seq<char>) -> Seq<Seq<char>> {
    spec_lines(strip_bom(text)).map_values(|l: Seq<char>| spec_trim(l)).filter(
        |l: Seq<char>| l.len() > 0,
    )
}

/// Line `i`, or the empty text when there is none.
pub open spec fn line_at(ls: Seq<Seq<char>>, i: int) -> Seq<char> {
    if 0 <= i < ls.len() {
        ls[i]
    } else {
        Seq::empty()
    }
}

/// The first `count` comma-separated values of a line as integers (each
/// trimmed), when the line has that many and all of them parse.
pub open spec fn spec_columns(line: Seq<char>, count: nat) -> Option<Seq<i64>> {
    let fields = split_fields(line, ',');
    if fields.len() < count {
        None
    } else if fields_parse(fields, count) {
        Some(Seq::new(count, |i: int| parse_i64_spec(spec_trim(fields[i])).unwrap()))
    } else {
        None
    }
}

/// The first `count` fields are integers.
pub open spec fn fields_parse(fields: Seq<Seq<char>>, count: nat) -> bool {
    forall|i: int| 0 <= i < count ==> (#[trigger] parse_i64_spec(spec_trim(fields[i]))) is Some
}

fn strip_bom_exec(s: &[char]) -> (r: Vec<char>)
    ensures
        r@ == strip_bom(s@),
{
    let mut i: usize = 0;
    assert(s@.skip(0) =~= s@);
    while i < s.len() && s[i] == '\u{feff}'
        invariant
            i <= s.len(),
            strip_bom(s@) == strip_bom(s@.skip(i as int)),
        decreases s.len() - i,
    {
        assert(s@.skip(i as int).drop_first() =~= s@.skip(i + 1));
        i += 1;
    }
    let r = slice(s, i, s.len());
    assert(r@ =~= s@.skip(i as int));
    r
}

/// The trimmed non-empty lines of a text.
pub fn lines(text: &[char]) -> (r: Vec<Vec<char>>)
    ensures
        views(r@) == content_lines(text@),
{
    let body = strip_bom_exec(text);
    let raw = text_lines(body.as_slice());
    let ghost trimmed = views(raw@).map_values(|l: Seq<char>| spec_trim(l));
    let mut r: Vec<Vec<char>> = Vec::new();
    let mut i: usize = 0;
    while i < raw.len()
        invariant
            i <= raw.len(),
            trimmed == views(raw@).map_values(|l: Seq<char>| spec_trim(l)),
            views(r@) == trimmed.take(i as int).filter(|l: Seq<char>| l.len() > 0),
        decreases raw.len() - i,
    {
        let t = trim(raw[i].as_slice());
        assert(t@ == trimmed[i as int]);
        assert(trimmed.take(i + 1) =~= trimmed.take(i as int).push(trimmed[i as int]));
        proof {
            trimmed.take(i as int).lemma_filter_push(trimmed[i as int], |l: Seq<char>| l.len() > 0);
        }
        if t.len() > 0 {
            let ghost before = views(r@);
            r.push(t);
            assert(views(r@) =~= before.push(trimmed[i as int]));
        }
        i += 1;
    }
    assert(trimmed.take(i as int) =~= trimmed);
    r
}

/// Line `i` of `ls`, or an empty line.
fn line_or_empty(ls: &Vec<Vec<char>>, i: usize) -> (r: Vec<char>)
    ensures
        r@ == line_at(views(ls@), i as int),
{
    if i < ls.len() {
        slice(ls[i].as_slice(), 0, ls[i].len())
    } else {
        Vec::new()
    }
}

/// An error for malformed motion data, with a detail made of a label and a
/// reason.
fn invalid(label: &str, reason: &str) -> (r: MotionError)
    ensures
        r.spec_public_message() == invalid_message(),
{
    let mut detail: Vec<char> = Vec::new();
    append_str(&mut detail, label);
    append_str(&mut detail, reason);
    invalid_chars(detail.as_slice())
}

/// Parses one line as an integer.
pub fn integer(ls: &Vec<Vec<char>>, i: usize, label: &str) -> (r: Result<i64, MotionError>)
    ensures
        match r {
            Ok(v) => parse_i64_spec(line_at(views(ls@), i as int)) == Some(v),
            Err(e) => parse_i64_spec(line_at(views(ls@), i as int)) is None
                && e.spec_public_message() == invalid_message(),
        },
{
    let line = line_or_empty(ls, i);
    match parse_i64(line.as_slice()) {
        Some(v) => Ok(v),
        None => Err(invalid(label, " is not an integer")),
    }
}

/// Parses the first `count` comma-separated integers of one line.
pub fn columns(ls: &Vec<Vec<char>>, i: usize, count: usize, label: &str) -> (r: Result<
    Vec<i64>,
    MotionError,
>)
    ensures
        match r {
            Ok(v) => spec_columns(line_at(views(ls@), i as int), count as nat) == Some(v@),
            Err(e) => spec_columns(line_at(views(ls@), i as int), count as nat) is None
                && e.spec_public_message() == invalid_message(),
        },
{
    let line = line_or_empty(ls, i);
    let fields = split_char(line.as_slice(), ',');
    let ghost fs = split_fields(line@, ',');
    if fields.len() < count {
        return Err(invalid(label, " has too few columns"));
    }
    let mut values: Vec<i64> = Vec::new();
    let mut k: usize = 0;
    while k < count
        invariant
            k <= count <= fields@.len(),
            views(fields@) == fs,
            fs == split_fields(line_at(views(ls@), i as int), ','),
            values@.len() == k,
            forall|j: int| 0 <= j < k ==> parse_i64_spec(spec_trim(fs[j])) == Some(
                #[trigger] values@[j],
            ),
        decreases count - k,
    {
        let t = trim(fields[k].as_slice());
        assert(fields@[k as int]@ == fs[k as int]);
        match parse_i64(t.as_slice()) {
            Some(v) => {
                values.push(v);
            },
            None => {
                assert(parse_i64_spec(spec_trim(fs[k as int])) is None);
                assert(!fields_parse(fs, count as nat));
                return Err(invalid(label, " contains a non-integer"));
            },
        }
        k += 1;
    }
    assert(values@ =~= Seq::new(count as nat, |j: int| parse_i64_spec(spec_trim(fs[j])).unwrap()));
    assert(fields_parse(fs, count as nat)) by {
        assert forall|j: int| 0 <= j < count implies (#[trigger] parse_i64_spec(spec_trim(fs[j]))) is Some by {
            assert(parse_i64_spec(spec_trim(fs[j])) == Some(values@[j]));
        }
    }
    Ok(values)
}

/// Whether the first line, compared without regard to ASCII case, is one of
/// the accepted headers.
fn header_is(ls: &Vec<Vec<char>>, expected: &str) -> (r: bool)
    ensures
        r == (lower_seq(line_at(views(ls@), 0)) == expected@),
{
    let line = line_or_empty(ls, 0);
    let lower = to_lower(line.as_slice());
    eq_str(lower.as_slice(), expected)
}

// ---------------------------------------------------------------------------
// imgcut
// ---------------------------------------------------------------------------

pub open spec fn cut_of(v: Seq<i64>) -> Cut {
    Cut { x: v[0], y: v[1], width: v[2], height: v[3] }
}

pub open spec fn valid_cut(entry: Option<Seq<i64>>) -> bool {
    match entry {
        Some(v) => v[2] > 0 && v[3] > 0,
        None => false,
    }
}

/// Entry `i` of a cut table.
pub open spec fn imgcut_entry(ls: Seq<Seq<char>>, i: int) -> Option<Seq<i64>> {
    spec_columns(line_at(ls, 4 + i), 4)
}

/// The cut table that an `imgcut` text describes: header, version, image
/// name, a count of at most 4096, and that many non-empty rectangles.
pub open spec fn spec_imgcut(text: Seq<char>) -> Option<Seq<Cut>> {
    let ls = content_lines(text);
    if lower_seq(line_at(ls, 0)) != "[imgcut]"@ {
        None
    } else if parse_i64_spec(line_at(ls, 1)) is None {
        None
    } else if ls.len() <= 2 {
        None
    } else {
        match parse_i64_spec(line_at(ls, 3)) {
            None => None,
            Some(count) => if count < 0 || count > 4096 {
                None
            } else if forall|i: int| 0 <= i < count ==> valid_cut(#[trigger] imgcut_entry(ls, i)) {
                Some(Seq::new(count as nat, |i: int| cut_of(imgcut_entry(ls, i).unwrap())))
            } else {
                None
            },
        }
    }
}

pub fn parse_imgcut(text: &[char]) -> (r: Result<Vec<Cut>, MotionError>)
    ensures
        match r {
            Ok(v) => spec_imgcut(text@) == Some(v@),
            Err(e) => spec_imgcut(text@) is None && e.spec_public_message() == invalid_message(),
        },
{
    let ls = lines(text);
    let ghost l = views(ls@);
    proof {
        reveal_strlit("[imgcut]");
    }
    if !header_is(&ls, "[imgcut]") {
        return Err(invalid("imgcut", " header is invalid"));
    }
    let _version = integer(&ls, 1, "imgcut version")?;
    if ls.len() <= 2 {
        return Err(invalid("imgcut", " image name is empty"));
    }
    let count = integer(&ls, 3, "imgcut count")?;
    if count < 0 || count > 4096 {
        return Err(invalid("imgcut", " count is outside the limit"));
    }
    let count = count as usize;
    let mut cuts: Vec<Cut> = Vec::new();
    let mut index: usize = 0;
    while index < count
        invariant
            index <= count <= 4096,
            l == views(ls@),
            l == content_lines(text@),
            lower_seq(line_at(l, 0)) == "[imgcut]"@,
            parse_i64_spec(line_at(l, 1)) is Some,
            l.len() > 2,
            parse_i64_spec(line_at(l, 3)) == Some(count as i64),
            cuts@.len() == index,
            forall|j: int|
                0 <= j < index ==> valid_cut(#[trigger] imgcut_entry(l, j)) && cuts@[j] == cut_of(
                    imgcut_entry(l, j).unwrap(),
                ),
        decreases count - index,
    {
        let values = columns(&ls, 4 + index, 4, "imgcut entry")?;
        assert(imgcut_entry(l, index as int) == Some(values@));
        if values[2] <= 0 || values[3] <= 0 {
            return Err(invalid("imgcut", " contains an empty rectangle"));
        }
        cuts.push(Cut { x: values[0], y: values[1], width: values[2], height: values[3] });
        index += 1;
    }
    assert(cuts@ =~= Seq::new(count as nat, |i: int| cut_of(imgcut_entry(l, i).unwrap())));
    Ok(cuts)
}

// ---------------------------------------------------------------------------
// mamodel
// ---------------------------------------------------------------------------

/// The mathematical content of a model.
pub struct ModelView {
    pub parts: Seq<ModelPart>,
    pub scale_unit: i64,
    pub angle_unit: i64,
    pub opacity_unit: i64,
    pub anchor: Option<Seq<i64>>,
}

impl View for Model {
    type V = ModelView;

    open spec fn view(&self) -> ModelView {
        ModelView {
            parts: self.parts@,
            scale_unit: self.scale_unit,
            angle_unit: self.angle_unit,
            opacity_unit: self.opacity_unit,
            anchor: match self.anchor {
                Some(a) => Some(a@),
                None => None,
            },
        }
    }
}

pub open spec fn part_of(index: int, v: Seq<i64>) -> ModelPart {
    ModelPart {
        index: index as usize,
        parent: v[0],
        id: v[1],
        image_index: v[2],
        z_index: v[3],
        x: v[4],
        y: v[5],
        pivot_x: v[6],
        pivot_y: v[7],
        scale_x: v[8],
        scale_y: v[9],
        angle: v[10],
        opacity: v[11],
        glow: v[12],
    }
}

/// The ancestor `k` levels up from part `start` (`start` itself for `k == 0`);
/// a negative value means the chain has left the model (reached the root).
pub open spec fn ancestor(parts: Seq<ModelPart>, start: int, k: nat) -> int
    decreases k,
{
    if k == 0 {
        start
    } else {
        let a = ancestor(parts, start, (k - 1) as nat);
        if 0 <= a < parts.len() {
            parts[a].parent as int
        } else {
            a
        }
    }
}

pub open spec fn parents_in_range(parts: Seq<ModelPart>) -> bool {
    forall|i: int| 0 <= i < parts.len() ==> -1 <= (#[trigger] parts[i]).parent < parts.len()
}

/// Following parents from part `i` eventually reaches the root.
pub open spec fn reaches_root(parts: Seq<ModelPart>, i: int) -> bool {
    exists|k: nat| #[trigger] ancestor(parts, i, k) < 0
}

/// Parents are in range and form no cycle: every part leads to the root.
pub open spec fn parents_valid(parts: Seq<ModelPart>) -> bool {
    parents_in_range(parts) && forall|i: int| 0 <= i < parts.len() ==> #[trigger] reaches_root(parts, i)
}

proof fn lemma_ancestor_compose(parts: Seq<ModelPart>, start: int, a: nat, m: nat)
    ensures
        ancestor(parts, start, a + m) == ancestor(parts, ancestor(parts, start, a), m),
    decreases m,
{
    if m > 0 {
        lemma_ancestor_compose(parts, start, a, (m - 1) as nat);
        assert((a + m - 1) as nat == a + (m - 1) as nat);
    }
}

/// A chain that comes back to a part it visited never reaches the root.
proof fn lemma_cycle_never_root(parts: Seq<ModelPart>, p: int, a: nat, b: nat)
    requires
        a < b,
        ancestor(parts, p, a) == ancestor(parts, p, b),
        forall|j: nat| j <= b ==> ancestor(parts, p, j) >= 0,
    ensures
        !reaches_root(parts, p),
{
    let x = ancestor(parts, p, a);
    let d = (b - a) as nat;
    lemma_ancestor_compose(parts, p, a, d);
    assert((a + d) as nat == b);
    assert forall|k: nat| ancestor(parts, p, k) >= 0 by {
        if k <= b {
        } else {
            lemma_cycle_tail(parts, x, d, (k - a) as nat, p, a, b);
            lemma_ancestor_compose(parts, p, a, (k - a) as nat);
            assert((a + (k - a) as nat) as nat == k);
        }
    }
}

proof fn lemma_cycle_tail(parts: Seq<ModelPart>, x: int, d: nat, t: nat, p: int, a: nat, b: nat)
    requires
        d > 0,
        a + d == b,
        x == ancestor(parts, p, a),
        ancestor(parts, x, d) == x,
        forall|j: nat| j <= b ==> ancestor(parts, p, j) >= 0,
    ensures
        ancestor(parts, x, t) >= 0,
    decreases t,
{
    if t <= d {
        lemma_ancestor_compose(parts, p, a, t);
        assert(ancestor(parts, p, a + t) >= 0);
    } else {
        lemma_cycle_tail(parts, x, d, (t - d) as nat, p, a, b);
        lemma_ancestor_compose(parts, x, d, (t - d) as nat);
        assert((d + (t - d) as nat) as nat == t);
    }
}

pub open spec fn count_false(v: Seq<bool>) -> nat
    decreases v.len(),
{
    if v.len() == 0 {
        0
    } else {
        count_false(v.drop_last()) + if v.last() {
            0nat
        } else {
            1nat
        }
    }
}

proof fn lemma_count_false_update(v: Seq<bool>, i: int)
    requires
        0 <= i < v.len(),
        !v[i],
    ensures
        count_false(v.update(i, true)) + 1 == count_false(v),
    decreases v.len(),
{
    let w = v.update(i, true);
    if i == v.len() - 1 {
        assert(w.drop_last() =~= v.drop_last());
    } else {
        assert(w.drop_last() =~= v.drop_last().update(i, true));
        lemma_count_false_update(v.drop_last(), i);
    }
}

/// Checks that every parent index is in range and that parents form no cycle.
pub fn validate_parents(parts: &Vec<ModelPart>) -> (r: Result<(), MotionError>)
    ensures
        r is Ok <==> parents_valid(parts@),
        r matches Err(e) ==> e.spec_public_message() == invalid_message(),
{
    let n = parts.len();
    let mut i: usize = 0;
    while i < n
        invariant
            n == parts@.len(),
            i <= n,
            forall|j: int| 0 <= j < i ==> -1 <= (#[trigger] parts@[j]).parent < n,
        decreases n - i,
    {
        let parent = parts[i].parent;
        if parent < -1 || (parent >= 0 && parent as u64 >= n as u64) {
            assert(!(-1 <= parts@[i as int].parent < n));
            return Err(invalid("mamodel part", " has an invalid parent"));
        }
        i += 1;
    }
    assert(parents_in_range(parts@));
    let mut p: usize = 0;
    while p < n
        invariant
            n == parts@.len(),
            p <= n,
            parents_in_range(parts@),
            forall|j: int| 0 <= j < p ==> #[trigger] reaches_root(parts@, j),
        decreases n - p,
    {
        let mut visited: Vec<bool> = Vec::new();
        let mut z: usize = 0;
        while z < n
            invariant
                z <= n,
                visited@.len() == z,
                forall|j: int| 0 <= j < z ==> !(#[trigger] visited@[j]),
            decreases n - z,
        {
            visited.push(false);
            z += 1;
        }
        visited.set(p, true);
        let ghost mut k: nat = 0;
        let mut current: i64 = parts[p].parent;
        proof {
            assert(ancestor(parts@, p as int, 0) == p);
            assert(ancestor(parts@, p as int, 1) == parts@[p as int].parent);
        }
        while current >= 0
            invariant
                n == parts@.len(),
                p < n,
                parents_in_range(parts@),
                visited@.len() == n,
                -1 <= current < n,
                current == ancestor(parts@, p as int, k + 1),
                forall|j: nat| j <= k ==> #[trigger] ancestor(parts@, p as int, j) >= 0,
                forall|x: int|
                    0 <= x < n ==> (#[trigger] visited@[x] <==> exists|j: nat|
                        j <= k && ancestor(parts@, p as int, j) == x),
            decreases count_false(visited@),
        {
            let c = current as usize;
            if visited[c] {
                proof {
                    let j = choose|j: nat| j <= k && ancestor(parts@, p as int, j) == c;
                    assert forall|m: nat| m <= k + 1 implies ancestor(parts@, p as int, m) >= 0 by {
                        if m == k + 1 {
                        }
                    }
                    lemma_cycle_never_root(parts@, p as int, j, k + 1);
                }
                return Err(invalid("mamodel", " has a parent cycle"));
            }
            proof {
                lemma_count_false_update(visited@, c as int);
            }
            let ghost before = visited@;
            visited.set(c, true);
            proof {
                assert forall|x: int| 0 <= x < n implies (#[trigger] visited@[x] <==> exists|j: nat|
                    j <= k + 1 && ancestor(parts@, p as int, j) == x) by {
                    if x == c {
                        assert(ancestor(parts@, p as int, k + 1) == x);
                    } else {
                        if visited@[x] {
                            assert(before[x]);
                        }
                        if exists|j: nat| j <= k + 1 && ancestor(parts@, p as int, j) == x {
                            let j = choose|j: nat| j <= k + 1 && ancestor(parts@, p as int, j) == x;
                            assert(j <= k);
                            assert(before[x]);
                        }
                    }
                }
                assert forall|j: nat| j <= k + 1 implies #[trigger] ancestor(parts@, p as int, j) >= 0 by {
                    if j == k + 1 {
                    }
                }
                k = k + 1;
            }
            current = parts[c].parent;
            assert(current == ancestor(parts@, p as int, k + 1));
        }
        assert(ancestor(parts@, p as int, k + 1) < 0);
        assert(reaches_root(parts@, p as int));
        p += 1;
    }
    Ok(())
}

pub open spec fn header_ok_model(line: Seq<char>) -> bool {
    let l = lower_seq(line);
    l == "[modelanim:model]"@ || l == "[modelanim:model2]"@ || l == "[mamodel]"@
}

/// Part line `i` of a model.
pub open spec fn model_part_entry(ls: Seq<Seq<char>>, i: int) -> Option<Seq<i64>> {
    spec_columns(line_at(ls, 3 + i), 13)
}

/// Configuration line `k` of a model whose configuration count is at `cursor`.
pub open spec fn model_config_entry(ls: Seq<Seq<char>>, cursor: int, k: int) -> Option<Seq<i64>> {
    spec_columns(line_at(ls, cursor + 1 + k), 6)
}

/// The model that a `mamodel` text describes: header, version, between 1 and
/// 4096 parts of 13 columns, non-zero units (on one line from version 1, else
/// 100, 360 and 255), from version 3 at most 1024 configuration lines of six
/// columns whose first gives the anchor, and valid parents.
pub open spec fn spec_model(text: Seq<char>) -> Option<ModelView> {
    let ls = content_lines(text);
    if !header_ok_model(line_at(ls, 0)) {
        None
    } else {
        match (parse_i64_spec(line_at(ls, 1)), parse_i64_spec(line_at(ls, 2))) {
            (Some(version), Some(count)) => if count < 1 || count > 4096 {
                None
            } else if !(forall|i: int| 0 <= i < count ==> (#[trigger] model_part_entry(ls, i)) is Some) {
                None
            } else {
                let parts = Seq::new(count as nat, |i: int| part_of(i, model_part_entry(ls, i).unwrap()));
                let cursor = 3 + count;
                let units = if version >= 1 {
                    spec_columns(line_at(ls, cursor), 3)
                } else {
                    Some(seq![100i64, 360i64, 255i64])
                };
                let cursor2 = if version >= 1 {
                    cursor + 1
                } else {
                    cursor
                };
                match units {
                    None => None,
                    Some(u) => if u[0] == 0 || u[1] == 0 || u[2] == 0 {
                        None
                    } else {
                        let anchor = model_anchor(ls, version, cursor2);
                        match anchor {
                            None => None,
                            Some(anchor) => if parents_valid(parts) {
                                Some(
                                    ModelView {
                                        parts,
                                        scale_unit: u[0],
                                        angle_unit: u[1],
                                        opacity_unit: u[2],
                                        anchor,
                                    },
                                )
                            } else {
                                None
                            },
                        }
                    },
                }
            },
            _ => None,
        }
    }
}

/// The anchor of a model: from version 3, the configuration count at
/// `cursor` (at most 1024) and that many configuration lines, the first of
/// which gives the anchor; `None` when they are malformed.
pub open spec fn model_anchor(ls: Seq<Seq<char>>, version: i64, cursor: int) -> Option<Option<Seq<i64>>> {
    if version >= 3 {
        match parse_i64_spec(line_at(ls, cursor)) {
            None => None,
            Some(config_count) => if config_count < 0 || config_count > 1024 {
                None
            } else if !(forall|k: int|
                0 <= k < config_count ==> (#[trigger] model_config_entry(ls, cursor, k)) is Some) {
                None
            } else if config_count > 0 {
                Some(Some(model_config_entry(ls, cursor, 0).unwrap().take(4)))
            } else {
                Some(None)
            },
        }
    } else {
        Some(None)
    }
}

pub fn parse_model(text: &[char]) -> (r: Result<Model, MotionError>)
    ensures
        match r {
            Ok(m) => spec_model(text@) == Some(m@),
            Err(e) => spec_model(text@) is None && e.spec_public_message() == invalid_message(),
        },
{
    let ls = lines(text);
    let ghost l = views(ls@);
    proof {
        reveal_strlit("[modelanim:model]");
        reveal_strlit("[modelanim:model2]");
        reveal_strlit("[mamodel]");
    }
    if !(header_is(&ls, "[modelanim:model]") || header_is(&ls, "[modelanim:model2]") || header_is(
        &ls,
        "[mamodel]",
    )) {
        return Err(invalid("mamodel", " header is invalid"));
    }
    let version = integer(&ls, 1, "mamodel version")?;
    let count = integer(&ls, 2, "mamodel part count")?;
    if count < 1 || count > 4096 {
        return Err(invalid("mamodel part count", " is outside the limit"));
    }
    let count = count as usize;
    let mut parts: Vec<ModelPart> = Vec::new();
    let mut index: usize = 0;
    while index < count
        invariant
            index <= count <= 4096,
            l == views(ls@),
            l == content_lines(text@),
            header_ok_model(line_at(l, 0)),
            parse_i64_spec(line_at(l, 1)) == Some(version),
            parse_i64_spec(line_at(l, 2)) == Some(count as i64),
            parts@.len() == index,
            forall|j: int|
                0 <= j < index ==> (#[trigger] model_part_entry(l, j)) is Some && parts@[j]
                    == part_of(j, model_part_entry(l, j).unwrap()),
        decreases count - index,
    {
        let values = columns(&ls, 3 + index, 13, "mamodel part")?;
        assert(model_part_entry(l, index as int) == Some(values@));
        parts.push(
            ModelPart {
                index,
                parent: values[0],
                id: values[1],
                image_index: values[2],
                z_index: values[3],
                x: values[4],
                y: values[5],
                pivot_x: values[6],
                pivot_y: values[7],
                scale_x: values[8],
                scale_y: values[9],
                angle: values[10],
                opacity: values[11],
                glow: values[12],
            },
        );
        index += 1;
    }
    let ghost parts_spec = Seq::new(count as nat, |i: int| part_of(i, model_part_entry(l, i).unwrap()));
    assert(parts@ =~= parts_spec);
    let mut cursor: usize = 3 + count;
    let (scale_unit, angle_unit, opacity_unit) = if version >= 1 {
        let values = columns(&ls, cursor, 3, "mamodel units")?;
        cursor += 1;
        assert(values@ =~= seq![values[0], values[1], values[2]]);
        (values[0], values[1], values[2])
    } else {
        (100i64, 360i64, 255i64)
    };
    if scale_unit == 0 || angle_unit == 0 || opacity_unit == 0 {
        return Err(invalid("mamodel unit", " cannot be zero"));
    }
    let mut anchor: Option<[i64; 4]> = None;
    if version >= 3 {
        let config_count = integer(&ls, cursor, "mamodel config count")?;
        if config_count < 0 || config_count > 1024 {
            return Err(invalid("mamodel config count", " is outside the limit"));
        }
        let config_count = config_count as usize;
        let ghost base = cursor as int;
        let mut k: usize = 0;
        while k < config_count
            invariant
                k <= config_count <= 1024,
                cursor as int == base,
                l == content_lines(text@),
                header_ok_model(line_at(l, 0)),
                parse_i64_spec(line_at(l, 1)) == Some(version),
                parse_i64_spec(line_at(l, 2)) == Some(count as i64),
                1 <= count <= 4096,
                version >= 3,
                forall|j: int| 0 <= j < count ==> (#[trigger] model_part_entry(l, j)) is Some,
                spec_columns(line_at(l, 3 + count), 3) == Some(seq![scale_unit, angle_unit, opacity_unit]),
                base == 3 + count + 1,
                scale_unit != 0 && angle_unit != 0 && opacity_unit != 0,
                parse_i64_spec(line_at(l, base)) == Some(config_count as i64),
                cursor <= 3 + 4096 + 1,
                l == views(ls@),
                forall|j: int| 0 <= j < k ==> (#[trigger] model_config_entry(l, base, j)) is Some,
                k > 0 ==> (anchor matches Some(a) && a@ == model_config_entry(l, base, 0).unwrap().take(4)),
                k == 0 ==> anchor is None,
            decreases config_count - k,
        {
            let values = match columns(&ls, cursor + 1 + k, 6, "mamodel config") {
                Ok(v) => v,
                Err(e) => {
                    assert(model_config_entry(l, base, k as int) is None);
                    assert(model_anchor(l, version, base) is None);
                    return Err(e);
                },
            };
            assert(model_config_entry(l, base, k as int) == Some(values@));
            if k == 0 {
                let a: [i64; 4] = [values[0], values[1], values[2], values[3]];
                assert(a@ =~= values@.take(4));
                anchor = Some(a);
            }
            k += 1;
        }
    }
    validate_parents(&parts)?;
    let model = Model { parts, scale_unit, angle_unit, opacity_unit, anchor };
    Ok(model)
}

// ---------------------------------------------------------------------------
// maanim
// ---------------------------------------------------------------------------

/// The mathematical content of a track.
pub struct TrackView {
    pub part_index: usize,
    pub property: i64,
    pub loop_value: i64,
    pub keys: Seq<KeyFrame>,
    pub first_frame: i64,
    pub last_frame: i64,
    pub offset: i64,
}

impl View for Track {
    type V = TrackView;

    open spec fn view(&self) -> TrackView {
        TrackView {
            part_index: self.part_index,
            property: self.property,
            loop_value: self.loop_value,
            keys: self.keys@,
            first_frame: self.first_frame,
            last_frame: self.last_frame,
            offset: self.offset,
        }
    }
}

pub open spec fn track_views(tracks: Seq<Track>) -> Seq<TrackView> {
    tracks.map_values(|t: Track| t@)
}

pub open spec fn key_of(v: Seq<i64>) -> KeyFrame {
    KeyFrame { frame: v[0], value: v[1], easing: v[2], easing_power: v[3] }
}

/// Key line `j` of the track whose header is at `cursor`.
pub open spec fn key_entry(ls: Seq<Seq<char>>, cursor: int, j: int) -> Option<Seq<i64>> {
    spec_columns(line_at(ls, cursor + 2 + j), 4)
}

pub open spec fn valid_key(entry: Option<Seq<i64>>) -> bool {
    match entry {
        Some(v) => 0 <= v[2] <= 3,
        None => false,
    }
}

pub open spec fn fits_i64(v: int) -> bool {
    i64::MIN <= v <= i64::MAX
}

/// Frames are shifted so that a track starts at frame 0 when its first key is
/// negative or the track does not play exactly once.
pub open spec fn key_offset(keys: Seq<KeyFrame>, loop_value: i64) -> int {
    if keys.len() == 0 {
        0
    } else if keys[0].frame < 0 || loop_value != 1 {
        -(keys[0].frame as int)
    } else {
        0
    }
}

pub open spec fn shift_keys(keys: Seq<KeyFrame>, offset: int) -> Seq<KeyFrame> {
    keys.map_values(|k: KeyFrame| KeyFrame { frame: (k.frame + offset) as i64, ..k })
}

/// The track whose header line is at `cursor`, with the position after it:
/// five columns, a key count of at most 65536, that many keys with an
/// easing between 0 and 3, and a non-negative part index. Shifted frames
/// must stay within `i64`.
pub open spec fn spec_track(ls: Seq<Seq<char>>, cursor: int) -> Option<(TrackView, int)> {
    match spec_columns(line_at(ls, cursor), 5) {
        None => None,
        Some(v) => match parse_i64_spec(line_at(ls, cursor + 1)) {
            None => None,
            Some(kc) => if kc < 0 || kc > 65536 {
                None
            } else if !(forall|j: int| 0 <= j < kc ==> valid_key(#[trigger] key_entry(ls, cursor, j))) {
                None
            } else {
                let raw = Seq::new(kc as nat, |j: int| key_of(key_entry(ls, cursor, j).unwrap()));
                let offset = key_offset(raw, v[2]);
                if !fits_i64(offset) || !(forall|j: int|
                    0 <= j < kc ==> fits_i64(#[trigger] raw[j].frame + offset)) || v[0] < 0 || v[0]
                    > usize::MAX {
                    None
                } else {
                    let keys = shift_keys(raw, offset);
                    Some(
                        (
                            TrackView {
                                part_index: v[0] as usize,
                                property: v[1],
                                loop_value: v[2],
                                keys,
                                first_frame: if kc > 0 {
                                    keys[0].frame
                                } else {
                                    0
                                },
                                last_frame: if kc > 0 {
                                    keys[kc - 1].frame
                                } else {
                                    0
                                },
                                offset: offset as i64,
                            },
                            cursor + 2 + kc,
                        ),
                    )
                }
            },
        },
    }
}

/// `n` consecutive tracks from `cursor` on.
pub open spec fn spec_tracks(ls: Seq<Seq<char>>, cursor: int, n: nat) -> Option<Seq<TrackView>>
    decreases n,
{
    if n == 0 {
        Some(Seq::empty())
    } else {
        match spec_track(ls, cursor) {
            None => None,
            Some((t, next)) => match spec_tracks(ls, next, (n - 1) as nat) {
                Some(rest) => Some(seq![t] + rest),
                None => None,
            },
        }
    }
}

/// The last frame that a track reaches, counting its loops.
pub open spec fn spec_track_max(t: TrackView) -> int {
    if t.keys.len() == 0 {
        0
    } else if t.loop_value != -1 {
        if t.loop_value > 1 {
            t.first_frame + (t.last_frame - t.first_frame) * t.loop_value - t.offset
        } else {
            t.last_frame - t.offset
        }
    } else {
        t.last_frame - (if t.offset < 0 {
            t.offset
        } else {
            0
        })
    }
}

/// The length of an animation: the largest track end, and at least 1.
pub open spec fn spec_max_frame(tracks: Seq<TrackView>) -> int
    decreases tracks.len(),
{
    if tracks.len() == 0 {
        1
    } else {
        let m = spec_max_frame(tracks.drop_last());
        let t = spec_track_max(tracks.last());
        if t > m {
            t
        } else {
            m
        }
    }
}

pub open spec fn header_ok_animation(line: Seq<char>) -> bool {
    let l = lower_seq(line);
    l == "[modelanim:animation]"@ || l == "[modelanim:animation2]"@ || l == "[maanim]"@
}

/// The mathematical content of an animation.
pub struct AnimationView {
    pub tracks: Seq<TrackView>,
    pub max_frame: i64,
}

impl View for Animation {
    type V = AnimationView;

    open spec fn view(&self) -> AnimationView {
        AnimationView { tracks: track_views(self.tracks@), max_frame: self.max_frame }
    }
}

/// The animation that a `maanim` text describes: header, version, at most
/// 16384 tracks; every track end must fit in `i64`.
pub open spec fn spec_animation(text: Seq<char>) -> Option<AnimationView> {
    let ls = content_lines(text);
    if !header_ok_animation(line_at(ls, 0)) {
        None
    } else if parse_i64_spec(line_at(ls, 1)) is None {
        None
    } else {
        match parse_i64_spec(line_at(ls, 2)) {
            None => None,
            Some(count) => if count < 0 || count > 16384 {
                None
            } else {
                match spec_tracks(ls, 3, count as nat) {
                    None => None,
                    Some(tracks) => if forall|i: int|
                        0 <= i < tracks.len() ==> fits_i64(#[trigger] spec_track_max(tracks[i])) {
                        Some(AnimationView { tracks, max_frame: spec_max_frame(tracks) as i64 })
                    } else {
                        None
                    },
                }
            },
        }
    }
}

/// Parses the track whose header line is at `cursor`.
fn parse_track(ls: &Vec<Vec<char>>, cursor: usize) -> (r: Result<(Track, usize), MotionError>)
    requires
        cursor <= usize::MAX - 65540,
    ensures
        match r {
            Ok((t, next)) => spec_track(views(ls@), cursor as int) == Some((t@, next as int)),
            Err(e) => spec_track(views(ls@), cursor as int) is None && e.spec_public_message()
                == invalid_message(),
        },
{
    let ghost l = views(ls@);
    let values = columns(ls, cursor, 5, "maanim track")?;
    let key_count = integer(ls, cursor + 1, "maanim key count")?;
    if key_count < 0 || key_count > 65536 {
        return Err(invalid("maanim key count", " is outside the limit"));
    }
    let key_count = key_count as usize;
    let ghost raw_spec = Seq::new(key_count as nat, |j: int| key_of(key_entry(l, cursor as int, j).unwrap()));
    let mut keys: Vec<KeyFrame> = Vec::new();
    let mut j: usize = 0;
    while j < key_count
        invariant
            j <= key_count <= 65536,
            cursor <= usize::MAX - 65540,
            l == views(ls@),
            spec_columns(line_at(l, cursor as int), 5) == Some(values@),
            parse_i64_spec(line_at(l, cursor + 1)) == Some(key_count as i64),
            keys@.len() == j,
            forall|i: int|
                0 <= i < j ==> valid_key(#[trigger] key_entry(l, cursor as int, i)) && keys@[i]
                    == key_of(key_entry(l, cursor as int, i).unwrap()),
        decreases key_count - j,
    {
        let key = match columns(ls, cursor + 2 + j, 4, "maanim key") {
            Ok(v) => v,
            Err(e) => {
                assert(!valid_key(key_entry(l, cursor as int, j as int)));
                return Err(e);
            },
        };
        assert(key_entry(l, cursor as int, j as int) == Some(key@));
        if key[2] < 0 || key[2] > 3 {
            assert(!valid_key(key_entry(l, cursor as int, j as int)));
            return Err(invalid("maanim easing", " is unsupported"));
        }
        keys.push(KeyFrame { frame: key[0], value: key[1], easing: key[2], easing_power: key[3] });
        j += 1;
    }
    assert(keys@ =~= raw_spec);
    let loop_value = values[2];
    let offset_wide: i128 = if keys.len() == 0 {
        0
    } else if keys[0].frame < 0 || loop_value != 1 {
        -(keys[0].frame as i128)
    } else {
        0
    };
    assert(offset_wide == key_offset(raw_spec, loop_value));
    if offset_wide < i64::MIN as i128 || offset_wide > i64::MAX as i128 {
        return Err(invalid("maanim key", " frame is out of range"));
    }
    let offset = offset_wide as i64;
    let mut shifted: Vec<KeyFrame> = Vec::new();
    let mut k: usize = 0;
    while k < keys.len()
        invariant
            k <= keys@.len(),
            keys@ == raw_spec,
            l == views(ls@),
            key_count == keys@.len(),
            raw_spec == Seq::new(key_count as nat, |j: int| key_of(key_entry(l, cursor as int, j).unwrap())),
            spec_columns(line_at(l, cursor as int), 5) == Some(values@),
            parse_i64_spec(line_at(l, cursor + 1)) == Some(key_count as i64),
            key_count <= 65536,
            forall|i: int| 0 <= i < key_count ==> valid_key(#[trigger] key_entry(l, cursor as int, i)),
            loop_value == values@[2],
            offset as int == key_offset(raw_spec, loop_value),
            shifted@ == shift_keys(raw_spec.take(k as int), offset as int),
            forall|i: int| 0 <= i < k ==> fits_i64(#[trigger] raw_spec[i].frame + offset),
        decreases keys@.len() - k,
    {
        let key = keys[k];
        let frame = key.frame as i128 + offset as i128;
        if frame < i64::MIN as i128 || frame > i64::MAX as i128 {
            assert(!fits_i64(raw_spec[k as int].frame + offset));
            return Err(invalid("maanim key", " frame is out of range"));
        }
        let ghost before = shifted@;
        shifted.push(KeyFrame { frame: frame as i64, ..key });
        assert(raw_spec.take(k + 1) =~= raw_spec.take(k as int).push(raw_spec[k as int]));
        assert(shifted@ =~= shift_keys(raw_spec.take(k + 1), offset as int));
        k += 1;
    }
    assert(raw_spec.take(k as int) =~= raw_spec);
    if values[0] < 0 || values[0] as u64 > usize::MAX as u64 {
        return Err(invalid("maanim part index", " is negative"));
    }
    let first_frame = if shifted.len() > 0 {
        shifted[0].frame
    } else {
        0
    };
    let last_frame = if shifted.len() > 0 {
        shifted[shifted.len() - 1].frame
    } else {
        0
    };
    let track = Track {
        part_index: values[0] as usize,
        property: values[1],
        loop_value,
        keys: shifted,
        first_frame,
        last_frame,
        offset,
    };
    Ok((track, cursor + 2 + key_count))
}

/// The last frame that a track reaches, counting its loops.
pub fn track_max_frame(track: &Track) -> (r: Option<i64>)
    ensures
        match r {
            Some(v) => v == spec_track_max(track@),
            None => !fits_i64(spec_track_max(track@)),
        },
{
    let first = track.first_frame as i128;
    let last = track.last_frame as i128;
    let offset = track.offset as i128;
    let value: i128 = if track.keys.len() == 0 {
        0
    } else if track.loop_value != -1 {
        if track.loop_value > 1 {
            let span = last - first;
            assert(-18446744073709551615 <= span <= 18446744073709551615);
            let lp = track.loop_value as i128;
            assert(-18446744073709551615 * 9223372036854775807 <= span * lp
                <= 18446744073709551615 * 9223372036854775807) by (nonlinear_arith)
                requires
                    -18446744073709551615 <= span <= 18446744073709551615,
                    1 < lp <= 9223372036854775807,
            ;
            let product = span * lp;
            first + product - offset
        } else {
            last - offset
        }
    } else {
        last - (if offset < 0 {
            offset
        } else {
            0
        })
    };
    if value < i64::MIN as i128 || value > i64::MAX as i128 {
        None
    } else {
        Some(value as i64)
    }
}

pub fn parse_animation(text: &[char]) -> (r: Result<Animation, MotionError>)
    ensures
        match r {
            Ok(a) => spec_animation(text@) == Some(a@),
            Err(e) => spec_animation(text@) is None && e.spec_public_message() == invalid_message(),
        },
{
    let ls = lines(text);
    let ghost l = views(ls@);
    proof {
        reveal_strlit("[modelanim:animation]");
        reveal_strlit("[modelanim:animation2]");
        reveal_strlit("[maanim]");
    }
    if !(header_is(&ls, "[modelanim:animation]") || header_is(&ls, "[modelanim:animation2]")
        || header_is(&ls, "[maanim]")) {
        return Err(invalid("maanim", " header is invalid"));
    }
    let _version = integer(&ls, 1, "maanim version")?;
    let count = integer(&ls, 2, "maanim track count")?;
    if count < 0 || count > 16384 {
        return Err(invalid("maanim track count", " is outside the limit"));
    }
    let count = count as usize;
    let mut tracks: Vec<Track> = Vec::new();
    let mut cursor: usize = 3;
    let mut done: usize = 0;
    while done < count
        invariant
            done <= count <= 16384,
            l == views(ls@),
            l == content_lines(text@),
            header_ok_animation(line_at(l, 0)),
            parse_i64_spec(line_at(l, 1)) is Some,
            parse_i64_spec(line_at(l, 2)) == Some(count as i64),
            cursor <= 3 + done * 65538,
            spec_tracks(l, 3, count as nat) == match spec_tracks(
                l,
                cursor as int,
                (count - done) as nat,
            ) {
                Some(rest) => Some(track_views(tracks@) + rest),
                None => None,
            },
        decreases count - done,
    {
        let ghost before = track_views(tracks@);
        assert(done * 65538 <= 16384 * 65538) by (nonlinear_arith)
            requires
                done <= 16384,
        ;
        let (track, next) = match parse_track(&ls, cursor) {
            Ok(v) => v,
            Err(e) => {
                assert(spec_tracks(l, cursor as int, (count - done) as nat) is None);
                return Err(e);
            },
        };
        tracks.push(track);
        assert(track_views(tracks@) =~= before.push(track@));
        assert forall|rest: Seq<TrackView>| before + (seq![track@] + rest) == track_views(tracks@)
            + rest by {
            assert(before + (seq![track@] + rest) =~= track_views(tracks@) + rest);
        }
        cursor = next;
        done += 1;
        assert(done * 65538 == (done - 1) * 65538 + 65538) by (nonlinear_arith)
            requires
                done >= 1,
        ;
    }
    assert(track_views(tracks@) + Seq::<TrackView>::empty() =~= track_views(tracks@));
    let ghost tv = track_views(tracks@);
    let mut max_frame: i64 = 1;
    let mut i: usize = 0;
    while i < tracks.len()
        invariant
            i <= tracks@.len(),
            tv == track_views(tracks@),
            l == content_lines(text@),
            header_ok_animation(line_at(l, 0)),
            parse_i64_spec(line_at(l, 1)) is Some,
            parse_i64_spec(line_at(l, 2)) == Some(count as i64),
            count <= 16384,
            spec_tracks(l, 3, count as nat) == Some(tv),
            max_frame == spec_max_frame(tv.take(i as int)),
            forall|j: int| 0 <= j < i ==> fits_i64(#[trigger] spec_track_max(tv[j])),
        decreases tracks@.len() - i,
    {
        assert(tv.take(i + 1).drop_last() =~= tv.take(i as int));
        assert(tv[i as int] == tracks@[i as int]@);
        let m = match track_max_frame(&tracks[i]) {
            Some(m) => m,
            None => {
                assert(!fits_i64(spec_track_max(tv[i as int])));
                return Err(invalid("maanim track", " end is out of range"));
            },
        };
        if m > max_frame {
            max_frame = m;
        }
        i += 1;
    }
    assert(tv.take(i as int) =~= tv);
    Ok(Animation { tracks, max_frame })
}

// ---------------------------------------------------------------------------
// Project
// ---------------------------------------------------------------------------

/// Every part shows an existing cut, every track animates an existing part,
/// and image-swap tracks (property 2) only name existing cuts.
pub open spec fn references_valid(
    cut_count: int,
    parts: Seq<ModelPart>,
    animations: Seq<(MotionKind, AnimationView)>,
) -> bool {
    &&& forall|i: int| 0 <= i < parts.len() ==> (#[trigger] parts[i]).image_index < cut_count
    &&& forall|a: int, t: int|
        0 <= a < animations.len() && 0 <= t < animations[a].1.tracks.len() ==> track_refs_valid(
            cut_count,
            parts.len() as int,
            #[trigger] animations[a].1.tracks[t],
        )
}

pub open spec fn track_refs_valid(cut_count: int, part_count: int, track: TrackView) -> bool {
    &&& track.part_index < part_count
    &&& track.property == 2 ==> forall|k: int|
        0 <= k < track.keys.len() ==> 0 <= (#[trigger] track.keys[k]).value < cut_count
}

fn track_references_valid(cut_count: usize, part_count: usize, track: &Track) -> (r: bool)
    ensures
        r == track_refs_valid(cut_count as int, part_count as int, track@),
{
    if track.part_index >= part_count {
        return false;
    }
    if track.property == 2 {
        let mut k: usize = 0;
        while k < track.keys.len()
            invariant
                k <= track.keys@.len(),
                track.property == 2,
                track.part_index < part_count,
                forall|j: int| 0 <= j < k ==> 0 <= (#[trigger] track.keys@[j]).value < cut_count,
            decreases track.keys@.len() - k,
        {
            let v = track.keys[k].value;
            if v < 0 || v as u64 >= cut_count as u64 {
                assert(!(0 <= track@.keys[k as int].value < cut_count));
                return false;
            }
            k += 1;
        }
    }
    true
}

pub open spec fn animation_views(a: Seq<(MotionKind, Animation)>) -> Seq<(MotionKind, AnimationView)> {
    a.map_values(|p: (MotionKind, Animation)| (p.0, p.1@))
}

pub fn validate_references(
    cuts: &Vec<Cut>,
    model: &Model,
    animations: &Vec<(MotionKind, Animation)>,
) -> (r: Result<(), MotionError>)
    ensures
        r is Ok <==> references_valid(cuts@.len() as int, model.parts@, animation_views(animations@)),
        r matches Err(e) ==> e.spec_public_message() == invalid_message(),
{
    let ghost av = animation_views(animations@);
    let mut i: usize = 0;
    while i < model.parts.len()
        invariant
            i <= model.parts@.len(),
            forall|j: int| 0 <= j < i ==> (#[trigger] model.parts@[j]).image_index < cuts@.len(),
        decreases model.parts@.len() - i,
    {
        let index = model.parts[i].image_index;
        if index >= 0 && index as u64 >= cuts.len() as u64 {
            assert(!(model.parts@[i as int].image_index < cuts@.len()));
            return Err(invalid("mamodel", " references a missing cut"));
        }
        i += 1;
    }
    let mut a: usize = 0;
    while a < animations.len()
        invariant
            a <= animations@.len(),
            av == animation_views(animations@),
            forall|j: int| 0 <= j < model.parts@.len() ==> (#[trigger] model.parts@[j]).image_index < cuts@.len(),
            forall|x: int, t: int|
                0 <= x < a && 0 <= t < av[x].1.tracks.len() ==> track_refs_valid(
                    cuts@.len() as int,
                    model.parts@.len() as int,
                    #[trigger] av[x].1.tracks[t],
                ),
        decreases animations@.len() - a,
    {
        let animation = &animations[a].1;
        assert(av[a as int].1 == animation@);
        let mut t: usize = 0;
        while t < animation.tracks.len()
            invariant
                t <= animation.tracks@.len(),
                a < animations@.len(),
                av == animation_views(animations@),
                av[a as int].1 == animation@,
                forall|y: int|
                    0 <= y < t ==> track_refs_valid(
                        cuts@.len() as int,
                        model.parts@.len() as int,
                        #[trigger] av[a as int].1.tracks[y],
                    ),
            decreases animation.tracks@.len() - t,
        {
            assert(av[a as int].1.tracks[t as int] == animation.tracks@[t as int]@);
            if !track_references_valid(cuts.len(), model.parts.len(), &animation.tracks[t]) {
                assert(!track_refs_valid(
                    cuts@.len() as int,
                    model.parts@.len() as int,
                    av[a as int].1.tracks[t as int],
                ));
                return Err(invalid("maanim", " references a missing part or cut"));
            }
            t += 1;
        }
        a += 1;
    }
    Ok(())
}

/// The text that bytes encode in UTF-8, when they are valid UTF-8.
pub open spec fn decoded(bytes: Seq<u8>) -> Option<Seq<char>> {
    if valid_utf8(bytes) {
        Some(decode_utf8(bytes))
    } else {
        None
    }
}

/// `std::str::from_utf8`: the text of valid UTF-8 bytes.
#[verifier::external_body]
pub(crate) fn from_utf8(data: &[u8]) -> (r: Option<String>)
    ensures
        r is Some <==> valid_utf8(data@),
        r matches Some(s) ==> s@ == decode_utf8(data@),
{
    std::str::from_utf8(data).ok().map(str::to_owned)
}

/// Decodes one asset file.
pub fn text(data: &[u8], label: &str) -> (r: Result<Vec<char>, MotionError>)
    ensures
        match r {
            Ok(v) => decoded(data@) == Some(v@),
            Err(e) => decoded(data@) is None && e.spec_public_message() == invalid_message(),
        },
{
    match from_utf8(data) {
        Some(s) => Ok(chars_of(s.as_str())),
        None => Err(invalid(label, " is not UTF-8")),
    }
}

/// The mathematical content of a motion project.
pub struct MotionProjectView {
    pub cuts: Seq<Cut>,
    pub model: ModelView,
    pub animations: Seq<(MotionKind, AnimationView)>,
}

impl View for MotionProject {
    type V = MotionProjectView;

    open spec fn view(&self) -> MotionProjectView {
        MotionProjectView {
            cuts: self.cuts@,
            model: self.model@,
            animations: animation_views(self.animations@),
        }
    }
}

pub open spec fn asset_views(a: Seq<(MotionKind, Vec<u8>)>) -> Seq<(MotionKind, Seq<u8>)> {
    a.map_values(|p: (MotionKind, Vec<u8>)| (p.0, p.1@))
}

pub open spec fn spec_animation_bytes(data: Seq<u8>) -> Option<AnimationView> {
    match decoded(data) {
        Some(t) => spec_animation(t),
        None => None,
    }
}

/// Every animation file decodes and parses.
pub open spec fn animations_parse(files: Seq<(MotionKind, Seq<u8>)>) -> bool {
    forall|i: int| 0 <= i < files.len() ==> (#[trigger] spec_animation_bytes(files[i].1)) is Some
}

/// The project that motion assets describe: the cut table, the model and
/// every animation parse, and their references hold.
pub open spec fn spec_project(
    imgcut: Seq<u8>,
    model: Seq<u8>,
    files: Seq<(MotionKind, Seq<u8>)>,
) -> Option<MotionProjectView> {
    match (decoded(imgcut), decoded(model)) {
        (Some(ti), Some(tm)) => match (spec_imgcut(ti), spec_model(tm)) {
            (Some(cuts), Some(m)) => if animations_parse(files) {
                let animations = files.map_values(
                    |p: (MotionKind, Seq<u8>)| (p.0, spec_animation_bytes(p.1).unwrap()),
                );
                if references_valid(cuts.len() as int, m.parts, animations) {
                    Some(MotionProjectView { cuts, model: m, animations })
                } else {
                    None
                }
            } else {
                None
            },
            _ => None,
        },
        _ => None,
    }
}

impl MotionProject {
    pub fn parse(assets: &MotionAssets) -> (r: Result<Self, MotionError>)
        ensures
            match r {
                Ok(p) => spec_project(assets.imgcut@, assets.model@, asset_views(assets.animations@))
                    == Some(p@),
                Err(e) => spec_project(assets.imgcut@, assets.model@, asset_views(assets.animations@))
                    is None && e.spec_public_message() == invalid_message(),
            },
    {
        let ghost files = asset_views(assets.animations@);
        let imgcut_text = text(assets.imgcut.as_slice(), "imgcut")?;
        let cuts = parse_imgcut(imgcut_text.as_slice())?;
        let model_text = text(assets.model.as_slice(), "mamodel")?;
        let model = parse_model(model_text.as_slice())?;
        let mut animations: Vec<(MotionKind, Animation)> = Vec::new();
        let mut i: usize = 0;
        while i < assets.animations.len()
            invariant
                i <= assets.animations@.len(),
                files == asset_views(assets.animations@),
                animations@.len() == i,
                forall|j: int|
                    0 <= j < i ==> (#[trigger] spec_animation_bytes(files[j].1)) == Some(
                        animations@[j].1@,
                    ) && animations@[j].0 == files[j].0,
            decreases assets.animations@.len() - i,
        {
            let (kind, data) = &assets.animations[i];
            assert(files[i as int] == (*kind, data@));
            let animation_text = match text(data.as_slice(), "maanim") {
                Ok(t) => t,
                Err(e) => {
                    assert(spec_animation_bytes(files[i as int].1) is None);
                    assert(!animations_parse(files));
                    return Err(e);
                },
            };
            let animation = match parse_animation(animation_text.as_slice()) {
                Ok(a) => a,
                Err(e) => {
                    assert(spec_animation_bytes(files[i as int].1) is None);
                    assert(!animations_parse(files));
                    return Err(e);
                },
            };
            animations.push((*kind, animation));
            i += 1;
        }
        assert(animations_parse(files));
        assert(animation_views(animations@) =~= files.map_values(
            |p: (MotionKind, Seq<u8>)| (p.0, spec_animation_bytes(p.1).unwrap()),
        ));
        validate_references(&cuts, &model, &animations)?;
        Ok(MotionProject { cuts, model, animations })
    }

    /// The length of the animation of `motion`, when the project has one and
    /// its length fits in `u32`.
    pub fn max_frame(&self, motion: MotionKind) -> (r: Option<u32>)
        ensures
            match r {
                Some(v) => exists|i: int|
                    0 <= i < self.animations@.len() && self.animations@[i].0 == motion
                        && (forall|j: int| 0 <= j < i ==> self.animations@[j].0 != motion)
                        && self.animations@[i].1.max_frame == v,
                None => forall|i: int|
                    0 <= i < self.animations@.len() && self.animations@[i].0 == motion ==> (exists|j: int|
                        0 <= j < i && self.animations@[j].0 == motion) || !(0
                        <= self.animations@[i].1.max_frame <= u32::MAX),
            },
    {
        let mut i: usize = 0;
        while i < self.animations.len()
            invariant
                i <= self.animations@.len(),
                forall|j: int| 0 <= j < i ==> self.animations@[j].0 != motion,
            decreases self.animations@.len() - i,
        {
            if self.animations[i].0 == motion {
                let m = self.animations[i].1.max_frame;
                if 0 <= m && m <= u32::MAX as i64 {
                    return Some(m as u32);
                } else {
                    return None;
                }
            }
            i += 1;
        }
        None
    }
}

} // verus!
