//! Character-level text primitives with their mathematical meaning.
//!
//! Text is handled as `Vec<char>` inside the library; its view is the
//! `Seq<char>` of the characters, the same view that `String` and `str` have.
use vstd::prelude::*;

verus! {

// ---------------------------------------------------------------------------
// Character classes
// ---------------------------------------------------------------------------

pub open spec fn spec_is_digit(c: char) -> bool {
    '0' <= c && c <= '9'
}

pub open spec fn spec_is_lower(c: char) -> bool {
    'a' <= c && c <= 'z'
}

pub open spec fn spec_is_upper(c: char) -> bool {
    'A' <= c && c <= 'Z'
}

pub open spec fn spec_is_alpha(c: char) -> bool {
    spec_is_lower(c) || spec_is_upper(c)
}

pub open spec fn spec_is_alnum(c: char) -> bool {
    spec_is_alpha(c) || spec_is_digit(c)
}

pub open spec fn spec_is_hex(c: char) -> bool {
    spec_is_digit(c) || ('a' <= c && c <= 'f') || ('A' <= c && c <= 'F')
}

/// The Unicode `White_Space` property, as `char::is_whitespace` defines it.
pub open spec fn spec_is_ws(c: char) -> bool {
    ||| ('\u{9}' <= c && c <= '\u{d}')
    ||| c == ' '
    ||| c == '\u{85}'
    ||| c == '\u{a0}'
    ||| c == '\u{1680}'
    ||| ('\u{2000}' <= c && c <= '\u{200a}')
    ||| c == '\u{2028}'
    ||| c == '\u{2029}'
    ||| c == '\u{202f}'
    ||| c == '\u{205f}'
    ||| c == '\u{3000}'
}

pub open spec fn spec_lower(c: char) -> char {
    if spec_is_upper(c) {
        ((c as u32) + 32) as char
    } else {
        c
    }
}

pub open spec fn spec_upper(c: char) -> char {
    if spec_is_lower(c) {
        ((c as u32) - 32) as char
    } else {
        c
    }
}

pub open spec fn lower_seq(s: Seq<char>) -> Seq<char> {
    s.map_values(|c: char| spec_lower(c))
}

pub open spec fn upper_seq(s: Seq<char>) -> Seq<char> {
    s.map_values(|c: char| spec_upper(c))
}

pub open spec fn all_digits(s: Seq<char>) -> bool {
    forall|i: int| 0 <= i < s.len() ==> spec_is_digit(#[trigger] s[i])
}

pub fn is_digit(c: char) -> (r: bool)
    ensures
        r == spec_is_digit(c),
{
    '0' <= c && c <= '9'
}

pub fn is_alpha(c: char) -> (r: bool)
    ensures
        r == spec_is_alpha(c),
{
    ('a' <= c && c <= 'z') || ('A' <= c && c <= 'Z')
}

pub fn is_alnum(c: char) -> (r: bool)
    ensures
        r == spec_is_alnum(c),
{
    is_alpha(c) || is_digit(c)
}

pub fn is_hex(c: char) -> (r: bool)
    ensures
        r == spec_is_hex(c),
{
    is_digit(c) || ('a' <= c && c <= 'f') || ('A' <= c && c <= 'F')
}

pub fn is_ws(c: char) -> (r: bool)
    ensures
        r == spec_is_ws(c),
{
    ('\u{9}' <= c && c <= '\u{d}') || c == ' ' || c == '\u{85}' || c == '\u{a0}' || c
        == '\u{1680}' || ('\u{2000}' <= c && c <= '\u{200a}') || c == '\u{2028}' || c
        == '\u{2029}' || c == '\u{202f}' || c == '\u{205f}' || c == '\u{3000}'
}

pub fn lower_char(c: char) -> (r: char)
    ensures
        r == spec_lower(c),
{
    if 'A' <= c && c <= 'Z' {
        let code: u32 = (c as u32) + 32;
        char_from_ascii(code)
    } else {
        c
    }
}

pub fn upper_char(c: char) -> (r: char)
    ensures
        r == spec_upper(c),
{
    if 'a' <= c && c <= 'z' {
        let code: u32 = (c as u32) - 32;
        char_from_ascii(code)
    } else {
        c
    }
}

/// A Unicode scalar value: a code point that is not a surrogate.
pub open spec fn is_scalar(code: u32) -> bool {
    code <= 0xD7FF || (0xE000 <= code && code <= 0x10FFFF)
}

/// `char::from_u32`: the character of a scalar value, `None` for any other number.
#[verifier::external_body]
pub fn char_from_u32(code: u32) -> (r: Option<char>)
    ensures
        r is Some <==> is_scalar(code),
        r matches Some(c) ==> c == code as char && c as u32 == code,
{
    char::from_u32(code)
}

/// The character of an ASCII code.
fn char_from_ascii(code: u32) -> (r: char)
    requires
        code < 128,
    ensures
        r == code as char,
        r as u32 == code,
{
    char_from_u32(code).unwrap()
}

/// Every character of the text is an ASCII digit.
pub fn is_all_digits(s: &[char]) -> (r: bool)
    ensures
        r == all_digits(s@),
{
    let mut i: usize = 0;
    while i < s.len()
        invariant
            i <= s.len(),
            all_digits(s@.take(i as int)),
        decreases s.len() - i,
    {
        if !is_digit(s[i]) {
            assert(!spec_is_digit(s@[i as int]));
            return false;
        }
        assert(s@.take(i + 1) =~= s@.take(i as int).push(s@[i as int]));
        i += 1;
    }
    assert(s@.take(i as int) =~= s@);
    true
}

// ---------------------------------------------------------------------------
// Conversions between `str`/`String` and character vectors
// ---------------------------------------------------------------------------

/// Copies the characters of a string slice into a vector.
pub fn chars_of(s: &str) -> (r: Vec<char>)
    ensures
        r@ == s@,
{
    let mut v: Vec<char> = Vec::new();
    for c in it: s.chars()
        invariant
            v@ == it.seq().take(it.index() as int),
    {
        v.push(c);
    }
    v
}

/// `String::push`.
#[verifier::external_body]
fn push_char(s: &mut String, c: char)
    ensures
        final(s)@ == old(s)@.push(c),
{
    s.push(c);
}

/// Builds a `String` out of a character sequence.
pub fn string_of(v: &[char]) -> (r: String)
    ensures
        r@ == v@,
{
    let mut s = String::new();
    let mut i: usize = 0;
    while i < v.len()
        invariant
            i <= v.len(),
            s@ == v@.take(i as int),
        decreases v.len() - i,
    {
        push_char(&mut s, v[i]);
        assert(v@.take(i + 1) =~= v@.take(i as int).push(v@[i as int]));
        i += 1;
    }
    assert(v@.take(i as int) =~= v@);
    s
}

/// Characters of each string of a slice.
pub fn chars_of_all(values: &[String]) -> (r: Vec<Vec<char>>)
    ensures
        r@.len() == values@.len(),
        forall|i: int| 0 <= i < values@.len() ==> #[trigger] r@[i]@ == values@[i]@,
{
    let mut r: Vec<Vec<char>> = Vec::new();
    let mut i: usize = 0;
    while i < values.len()
        invariant
            i <= values.len(),
            r@.len() == i,
            forall|j: int| 0 <= j < i ==> #[trigger] r@[j]@ == values@[j]@,
        decreases values.len() - i,
    {
        r.push(chars_of(values[i].as_str()));
        i += 1;
    }
    r
}

/// The views of a sequence of character vectors.
pub open spec fn views(v: Seq<Vec<char>>) -> Seq<Seq<char>> {
    v.map_values(|x: Vec<char>| x@)
}

/// The views of a sequence of strings.
pub open spec fn string_views(v: Seq<String>) -> Seq<Seq<char>> {
    v.map_values(|x: String| x@)
}

// ---------------------------------------------------------------------------
// Comparison
// ---------------------------------------------------------------------------

pub fn eq(a: &[char], b: &[char]) -> (r: bool)
    ensures
        r == (a@ == b@),
{
    if a.len() != b.len() {
        return false;
    }
    let mut i: usize = 0;
    while i < a.len()
        invariant
            i <= a.len(),
            a.len() == b.len(),
            a@.take(i as int) == b@.take(i as int),
        decreases a.len() - i,
    {
        if a[i] != b[i] {
            assert(a@[i as int] != b@[i as int]);
            return false;
        }
        assert(a@.take(i + 1) =~= a@.take(i as int).push(a@[i as int]));
        assert(b@.take(i + 1) =~= b@.take(i as int).push(b@[i as int]));
        i += 1;
    }
    assert(a@ =~= a@.take(i as int));
    assert(b@ =~= b@.take(i as int));
    true
}

/// Compares a character vector with a string slice.
pub fn eq_str(a: &[char], b: &str) -> (r: bool)
    ensures
        r == (a@ == b@),
{
    let bv = chars_of(b);
    eq(a, bv.as_slice())
}

pub fn to_lower(s: &[char]) -> (r: Vec<char>)
    ensures
        r@ == lower_seq(s@),
{
    let mut r: Vec<char> = Vec::new();
    let mut i: usize = 0;
    while i < s.len()
        invariant
            i <= s.len(),
            r@ == lower_seq(s@.take(i as int)),
        decreases s.len() - i,
    {
        r.push(lower_char(s[i]));
        assert(lower_seq(s@.take(i + 1)) =~= lower_seq(s@.take(i as int)).push(
            spec_lower(s@[i as int]),
        ));
        i += 1;
    }
    assert(s@.take(i as int) =~= s@);
    r
}

pub fn to_upper(s: &[char]) -> (r: Vec<char>)
    ensures
        r@ == upper_seq(s@),
{
    let mut r: Vec<char> = Vec::new();
    let mut i: usize = 0;
    while i < s.len()
        invariant
            i <= s.len(),
            r@ == upper_seq(s@.take(i as int)),
        decreases s.len() - i,
    {
        r.push(upper_char(s[i]));
        assert(upper_seq(s@.take(i + 1)) =~= upper_seq(s@.take(i as int)).push(
            spec_upper(s@[i as int]),
        ));
        i += 1;
    }
    assert(s@.take(i as int) =~= s@);
    r
}

/// `eq_ignore_ascii_case` against a string slice.
pub fn eq_ignore_case(a: &[char], b: &str) -> (r: bool)
    ensures
        r == (lower_seq(a@) == lower_seq(b@)),
{
    let la = to_lower(a);
    let bv = chars_of(b);
    let lb = to_lower(bv.as_slice());
    eq(la.as_slice(), lb.as_slice())
}

pub open spec fn spec_starts_with(s: Seq<char>, p: Seq<char>) -> bool {
    p.len() <= s.len() && s.take(p.len() as int) == p
}

pub open spec fn spec_ends_with(s: Seq<char>, p: Seq<char>) -> bool {
    p.len() <= s.len() && s.skip(s.len() - p.len()) == p
}

pub fn starts_with(s: &[char], p: &[char]) -> (r: bool)
    ensures
        r == spec_starts_with(s@, p@),
{
    if p.len() > s.len() {
        return false;
    }
    let mut i: usize = 0;
    while i < p.len()
        invariant
            i <= p.len(),
            p.len() <= s.len(),
            s@.take(i as int) == p@.take(i as int),
        decreases p.len() - i,
    {
        if s[i] != p[i] {
            assert(s@.take(p.len() as int)[i as int] != p@[i as int]);
            return false;
        }
        assert(s@.take(i + 1) =~= s@.take(i as int).push(s@[i as int]));
        assert(p@.take(i + 1) =~= p@.take(i as int).push(p@[i as int]));
        i += 1;
    }
    assert(p@.take(i as int) =~= p@);
    true
}

pub fn starts_with_str(s: &[char], p: &str) -> (r: bool)
    ensures
        r == spec_starts_with(s@, p@),
{
    let pv = chars_of(p);
    starts_with(s, pv.as_slice())
}

pub fn ends_with(s: &[char], p: &[char]) -> (r: bool)
    ensures
        r == spec_ends_with(s@, p@),
{
    if p.len() > s.len() {
        return false;
    }
    let tail = slice(s, s.len() - p.len(), s.len());
    eq(tail.as_slice(), p)
}

/// The characters from position `from` up to `to`.
pub fn slice(s: &[char], from: usize, to: usize) -> (r: Vec<char>)
    requires
        from <= to <= s.len(),
    ensures
        r@ == s@.subrange(from as int, to as int),
{
    let mut r: Vec<char> = Vec::new();
    let mut i: usize = from;
    while i < to
        invariant
            from <= i <= to <= s.len(),
            r@ == s@.subrange(from as int, i as int),
        decreases to - i,
    {
        r.push(s[i]);
        assert(s@.subrange(from as int, i + 1) =~= s@.subrange(from as int, i as int).push(
            s@[i as int],
        ));
        i += 1;
    }
    r
}

/// The bytes from `from` up to `to`.
pub fn slice_bytes(s: &[u8], from: usize, to: usize) -> (r: Vec<u8>)
    requires
        from <= to <= s@.len(),
    ensures
        r@ == s@.subrange(from as int, to as int),
{
    let mut r: Vec<u8> = Vec::new();
    let mut i: usize = from;
    while i < to
        invariant
            from <= i <= to <= s@.len(),
            r@ == s@.subrange(from as int, i as int),
        decreases to - i,
    {
        r.push(s[i]);
        assert(r@ =~= s@.subrange(from as int, i + 1));
        i += 1;
    }
    r
}

pub fn strip_prefix(s: &[char], p: &str) -> (r: Option<Vec<char>>)
    ensures
        r is Some <==> spec_starts_with(s@, p@),
        r matches Some(v) ==> v@ == s@.skip(p@.len() as int),
{
    let pv = chars_of(p);
    if starts_with(s, pv.as_slice()) {
        Some(slice(s, pv.len(), s.len()))
    } else {
        None
    }
}

pub fn strip_suffix(s: &[char], p: &str) -> (r: Option<Vec<char>>)
    ensures
        r is Some <==> spec_ends_with(s@, p@),
        r matches Some(v) ==> v@ == s@.take(s@.len() - p@.len()),
{
    let pv = chars_of(p);
    if ends_with(s, pv.as_slice()) {
        Some(slice(s, 0, s.len() - pv.len()))
    } else {
        None
    }
}

pub fn contains_char(s: &[char], c: char) -> (r: bool)
    ensures
        r == s@.contains(c),
{
    let mut i: usize = 0;
    while i < s.len()
        invariant
            i <= s.len(),
            forall|j: int| 0 <= j < i ==> s@[j] != c,
        decreases s.len() - i,
    {
        if s[i] == c {
            assert(s@[i as int] == c);
            return true;
        }
        i += 1;
    }
    false
}

/// `needle` occurs in `hay` starting at position `i`.
pub open spec fn occurs_at(hay: Seq<char>, needle: Seq<char>, i: int) -> bool {
    0 <= i && i + needle.len() <= hay.len() && hay.subrange(i, i + needle.len()) == needle
}

pub open spec fn spec_contains(hay: Seq<char>, needle: Seq<char>) -> bool {
    exists|i: int| occurs_at(hay, needle, i)
}

/// `str::contains` for a text needle.
pub fn contains(hay: &[char], needle: &[char]) -> (r: bool)
    ensures
        r == spec_contains(hay@, needle@),
{
    if needle.len() > hay.len() {
        assert(forall|i: int| !occurs_at(hay@, needle@, i));
        return false;
    }
    if needle.len() == 0 {
        assert(hay@.subrange(0, 0) =~= needle@);
        assert(occurs_at(hay@, needle@, 0));
        return true;
    }
    let mut i: usize = 0;
    while i <= hay.len() - needle.len()
        invariant
            0 < needle.len() <= hay.len(),
            i <= hay.len() - needle.len() + 1,
            forall|j: int| 0 <= j < i ==> !occurs_at(hay@, needle@, j),
        decreases hay.len() - needle.len() + 1 - i,
    {
        let part = slice(hay, i, i + needle.len());
        if eq(part.as_slice(), needle) {
            assert(occurs_at(hay@, needle@, i as int));
            return true;
        }
        i += 1;
    }
    assert forall|j: int| !occurs_at(hay@, needle@, j) by {
        if 0 <= j && j + needle@.len() <= hay@.len() {
            assert(j < i);
        }
    }
    false
}

// ---------------------------------------------------------------------------
// Trimming
// ---------------------------------------------------------------------------

/// Index of the first non-whitespace character (the length when there is none).
pub open spec fn trim_start_index(s: Seq<char>) -> int
    decreases s.len(),
{
    if s.len() == 0 {
        0
    } else if spec_is_ws(s[0]) {
        1 + trim_start_index(s.drop_first())
    } else {
        0
    }
}

/// One past the last non-whitespace character (zero when there is none).
pub open spec fn trim_end_index(s: Seq<char>) -> int
    decreases s.len(),
{
    if s.len() == 0 {
        0
    } else if spec_is_ws(s.last()) {
        trim_end_index(s.drop_last())
    } else {
        s.len() as int
    }
}

pub open spec fn spec_trim_start(s: Seq<char>) -> Seq<char> {
    s.skip(trim_start_index(s))
}

pub open spec fn spec_trim_end(s: Seq<char>) -> Seq<char> {
    s.take(trim_end_index(s))
}

/// `str::trim`: whitespace removed at both ends.
pub open spec fn spec_trim(s: Seq<char>) -> Seq<char> {
    spec_trim_end(spec_trim_start(s))
}

proof fn lemma_trim_start_index(s: Seq<char>)
    ensures
        0 <= trim_start_index(s) <= s.len(),
        forall|j: int| 0 <= j < trim_start_index(s) ==> spec_is_ws(#[trigger] s[j]),
        trim_start_index(s) < s.len() ==> !spec_is_ws(s[trim_start_index(s)]),
    decreases s.len(),
{
    if s.len() > 0 && spec_is_ws(s[0]) {
        lemma_trim_start_index(s.drop_first());
        assert forall|j: int| 0 <= j < trim_start_index(s) implies spec_is_ws(#[trigger] s[j]) by {
            if j > 0 {
                assert(s[j] == s.drop_first()[j - 1]);
            }
        }
    }
}

proof fn lemma_trim_end_index(s: Seq<char>)
    ensures
        0 <= trim_end_index(s) <= s.len(),
        forall|j: int| trim_end_index(s) <= j < s.len() ==> spec_is_ws(#[trigger] s[j]),
        trim_end_index(s) > 0 ==> !spec_is_ws(s[trim_end_index(s) - 1]),
    decreases s.len(),
{
    if s.len() > 0 && spec_is_ws(s.last()) {
        lemma_trim_end_index(s.drop_last());
        assert forall|j: int| trim_end_index(s) <= j < s.len() implies spec_is_ws(#[trigger] s[j]) by {
            if j < s.len() - 1 {
                assert(s[j] == s.drop_last()[j]);
            }
        }
    }
}

/// A start index characterised by its properties is the trim start index.
proof fn lemma_trim_start_unique(s: Seq<char>, k: int)
    requires
        0 <= k <= s.len(),
        forall|j: int| 0 <= j < k ==> spec_is_ws(#[trigger] s[j]),
        k < s.len() ==> !spec_is_ws(s[k]),
    ensures
        trim_start_index(s) == k,
    decreases s.len(),
{
    if s.len() > 0 && k > 0 {
        assert(spec_is_ws(s[0]));
        assert forall|j: int| 0 <= j < k - 1 implies spec_is_ws(#[trigger] s.drop_first()[j]) by {
            assert(s.drop_first()[j] == s[j + 1]);
        }
        lemma_trim_start_unique(s.drop_first(), k - 1);
    }
}

proof fn lemma_trim_end_unique(s: Seq<char>, k: int)
    requires
        0 <= k <= s.len(),
        forall|j: int| k <= j < s.len() ==> spec_is_ws(#[trigger] s[j]),
        k > 0 ==> !spec_is_ws(s[k - 1]),
    ensures
        trim_end_index(s) == k,
    decreases s.len(),
{
    if s.len() > 0 && k < s.len() {
        assert(spec_is_ws(s[s.len() - 1]));
        assert forall|j: int| k <= j < s.len() - 1 implies spec_is_ws(#[trigger] s.drop_last()[j]) by {
            assert(s.drop_last()[j] == s[j]);
        }
        lemma_trim_end_unique(s.drop_last(), k);
    }
}

pub fn trim_start(s: &[char]) -> (r: Vec<char>)
    ensures
        r@ == spec_trim_start(s@),
{
    let mut i: usize = 0;
    while i < s.len() && is_ws(s[i])
        invariant
            i <= s.len(),
            forall|j: int| 0 <= j < i ==> spec_is_ws(#[trigger] s@[j]),
        decreases s.len() - i,
    {
        i += 1;
    }
    proof {
        lemma_trim_start_unique(s@, i as int);
    }
    slice(s, i, s.len())
}

pub fn trim_end(s: &[char]) -> (r: Vec<char>)
    ensures
        r@ == spec_trim_end(s@),
{
    let mut k: usize = s.len();
    while k > 0 && is_ws(s[k - 1])
        invariant
            k <= s.len(),
            forall|j: int| k <= j < s.len() ==> spec_is_ws(#[trigger] s@[j]),
        decreases k,
    {
        k -= 1;
    }
    proof {
        lemma_trim_end_unique(s@, k as int);
    }
    slice(s, 0, k)
}

pub fn trim(s: &[char]) -> (r: Vec<char>)
    ensures
        r@ == spec_trim(s@),
{
    let a = trim_start(s);
    trim_end(a.as_slice())
}

/// Trimming twice changes nothing more.
pub proof fn lemma_trim_idempotent(s: Seq<char>)
    ensures
        spec_trim(spec_trim(s)) == spec_trim(s),
{
    let t = spec_trim(s);
    let a = spec_trim_start(s);
    lemma_trim_start_index(s);
    lemma_trim_end_index(a);
    let k = trim_end_index(a);
    // t starts with a non-whitespace character (if non-empty) and ends with one.
    if t.len() > 0 {
        assert(t[0] == a[0]);
        assert(a[0] == s[trim_start_index(s)]);
    }
    lemma_trim_start_unique(t, 0);
    assert(spec_trim_start(t) =~= t);
    if t.len() > 0 {
        assert(t[t.len() - 1] == a[k - 1]);
    }
    lemma_trim_end_unique(t, t.len() as int);
    assert(spec_trim_end(t) =~= t);
}

// ---------------------------------------------------------------------------
// Splitting and joining
// ---------------------------------------------------------------------------

/// `str::split` on a single character: the fields between separators.
pub open spec fn split_fields(s: Seq<char>, sep: char) -> Seq<Seq<char>>
    decreases s.len(),
{
    if s.len() == 0 {
        seq![Seq::<char>::empty()]
    } else {
        let prev = split_fields(s.drop_last(), sep);
        if s.last() == sep {
            prev.push(Seq::<char>::empty())
        } else {
            prev.update(prev.len() - 1, prev.last().push(s.last()))
        }
    }
}

pub proof fn lemma_split_fields_len(s: Seq<char>, sep: char)
    ensures
        split_fields(s, sep).len() >= 1,
    decreases s.len(),
{
    if s.len() > 0 {
        lemma_split_fields_len(s.drop_last(), sep);
    }
}

/// Splits at every occurrence of `sep`.
pub fn split_char(s: &[char], sep: char) -> (r: Vec<Vec<char>>)
    ensures
        views(r@) == split_fields(s@, sep),
{
    let mut done: Vec<Vec<char>> = Vec::new();
    let mut current: Vec<char> = Vec::new();
    let mut i: usize = 0;
    while i < s.len()
        invariant
            i <= s.len(),
            views(done@).push(current@) == split_fields(s@.take(i as int), sep),
        decreases s.len() - i,
    {
        let c = s[i];
        let ghost prev = split_fields(s@.take(i as int), sep);
        assert(s@.take(i + 1).drop_last() =~= s@.take(i as int));
        proof {
            lemma_split_fields_len(s@.take(i as int), sep);
        }
        if c == sep {
            let mut finished: Vec<char> = Vec::new();
                std::mem::swap(&mut finished, &mut current);
            done.push(finished);
            assert(views(done@).push(current@) =~= prev.push(Seq::<char>::empty()));
        } else {
            let ghost old_done = done@;
            current.push(c);
            assert(views(done@).push(current@) =~= prev.update(prev.len() - 1, prev.last().push(c)));
        }
        i += 1;
    }
    assert(s@.take(i as int) =~= s@);
    done.push(current);
    assert(views(done@) =~= split_fields(s@, sep));
    done
}

/// Removes one trailing carriage return.
pub open spec fn strip_cr(l: Seq<char>) -> Seq<char> {
    if l.len() > 0 && l.last() == '\r' {
        l.drop_last()
    } else {
        l
    }
}

/// `str::lines`: fields between line feeds, a carriage return before a line
/// feed removed, and no final empty line.
pub open spec fn spec_lines(s: Seq<char>) -> Seq<Seq<char>> {
    let f = split_fields(s, '\n');
    let body = f.drop_last().map_values(|l: Seq<char>| strip_cr(l));
    if f.last().len() == 0 {
        body
    } else {
        body.push(f.last())
    }
}

pub fn lines(s: &[char]) -> (r: Vec<Vec<char>>)
    ensures
        views(r@) == spec_lines(s@),
{
    let fields = split_char(s, '\n');
    proof {
        lemma_split_fields_len(s@, '\n');
    }
    let ghost f = split_fields(s@, '\n');
    let n = fields.len();
    let mut r: Vec<Vec<char>> = Vec::new();
    let mut i: usize = 0;
    while i + 1 < n
        invariant
            n == fields.len(),
            n >= 1,
            views(fields@) == f,
            i + 1 <= n,
            views(r@) == f.take(i as int).map_values(|l: Seq<char>| strip_cr(l)),
        decreases n - i,
    {
        let field = &fields[i];
        let line = if field.len() > 0 && field[field.len() - 1] == '\r' {
            slice(field.as_slice(), 0, field.len() - 1)
        } else {
            slice(field.as_slice(), 0, field.len())
        };
        assert(field@ == views(fields@)[i as int]);
        assert(line@ =~= strip_cr(f[i as int]));
        let ghost before = views(r@);
        r.push(line);
        assert(views(r@) =~= before.push(strip_cr(f[i as int])));
        assert(f.take(i + 1) =~= f.take(i as int).push(f[i as int]));
        assert(f.take(i + 1).map_values(|l: Seq<char>| strip_cr(l)) =~= f.take(i as int).map_values(|l: Seq<char>| strip_cr(l)).push(strip_cr(f[i as int])));
        i += 1;
    }
    assert(f.take(i as int) =~= f.drop_last());
    let last = &fields[n - 1];
    assert(last@ == views(fields@)[n - 1]);
    assert(last@ == f.last());
    if last.len() > 0 {
        let ghost before = views(r@);
        let copy = slice(last.as_slice(), 0, last.len());
        assert(copy@ =~= f.last());
        r.push(copy);
        assert(views(r@) =~= before.push(f.last()));
    }
    r
}

/// `str::split_whitespace`: the maximal runs of non-whitespace characters.
pub open spec fn spec_words(s: Seq<char>) -> Seq<Seq<char>>
    decreases s.len(),
{
    if s.len() == 0 {
        Seq::empty()
    } else {
        let prev = spec_words(s.drop_last());
        let c = s.last();
        if spec_is_ws(c) {
            prev
        } else if s.len() >= 2 && !spec_is_ws(s[s.len() - 2]) {
            prev.update(prev.len() - 1, prev.last().push(c))
        } else {
            prev.push(seq![c])
        }
    }
}

pub fn words(s: &[char]) -> (r: Vec<Vec<char>>)
    ensures
        views(r@) == spec_words(s@),
{
    let mut done: Vec<Vec<char>> = Vec::new();
    let mut current: Vec<char> = Vec::new();
    let mut in_word = false;
    let mut i: usize = 0;
    while i < s.len()
        invariant
            i <= s.len(),
            in_word == (i > 0 && !spec_is_ws(s@[i - 1])),
            in_word ==> views(done@).push(current@) == spec_words(s@.take(i as int)),
            !in_word ==> views(done@) == spec_words(s@.take(i as int)) && current@.len() == 0,
        decreases s.len() - i,
    {
        let c = s[i];
        let ghost prev = spec_words(s@.take(i as int));
        assert(s@.take(i + 1).drop_last() =~= s@.take(i as int));
        if is_ws(c) {
            if in_word {
                let mut finished: Vec<char> = Vec::new();
                std::mem::swap(&mut finished, &mut current);
                done.push(finished);
                assert(views(done@) =~= prev);
            }
            in_word = false;
        } else {
            if in_word {
                assert(s@.take(i + 1)[i - 1] == s@[i - 1]);
                current.push(c);
                assert(views(done@).push(current@) =~= prev.update(prev.len() - 1, prev.last().push(c)));
            } else {
                if i >= 1 {
                    assert(s@.take(i + 1)[i - 1] == s@[i - 1]);
                }
                current.push(c);
                assert(current@ =~= seq![c]);
                assert(views(done@).push(current@) =~= prev.push(seq![c]));
            }
            in_word = true;
        }
        i += 1;
    }
    assert(s@.take(i as int) =~= s@);
    if in_word {
        done.push(current);
    }
    done
}

/// `[..].join(sep)`.
pub open spec fn spec_join(parts: Seq<Seq<char>>, sep: Seq<char>) -> Seq<char>
    decreases parts.len(),
{
    if parts.len() == 0 {
        Seq::empty()
    } else if parts.len() == 1 {
        parts[0]
    } else {
        spec_join(parts.drop_last(), sep) + sep + parts.last()
    }
}

pub fn append(dst: &mut Vec<char>, src: &[char])
    ensures
        final(dst)@ == old(dst)@ + src@,
{
    let mut i: usize = 0;
    while i < src.len()
        invariant
            i <= src.len(),
            dst@ == old(dst)@ + src@.take(i as int),
        decreases src.len() - i,
    {
        dst.push(src[i]);
        assert(src@.take(i + 1) =~= src@.take(i as int).push(src@[i as int]));
        assert(dst@ =~= old(dst)@ + src@.take(i + 1));
        i += 1;
    }
    assert(src@.take(i as int) =~= src@);
}

pub fn append_str(dst: &mut Vec<char>, src: &str)
    ensures
        final(dst)@ == old(dst)@ + src@,
{
    let v = chars_of(src);
    append(dst, v.as_slice());
}

pub fn join(parts: &[Vec<char>], sep: &[char]) -> (r: Vec<char>)
    ensures
        r@ == spec_join(views(parts@), sep@),
{
    let mut r: Vec<char> = Vec::new();
    let mut i: usize = 0;
    while i < parts.len()
        invariant
            i <= parts.len(),
            r@ == spec_join(views(parts@.take(i as int)), sep@),
        decreases parts.len() - i,
    {
        let ghost before = views(parts@.take(i as int));
        if i > 0 {
            append(&mut r, sep);
        }
        append(&mut r, parts[i].as_slice());
        assert(views(parts@.take(i + 1)).drop_last() =~= before);
        assert(views(parts@.take(i + 1)).last() == parts@[i as int]@);
        if i == 0 {
            assert(views(parts@.take(1)) =~= seq![parts@[0]@]);
        }
        i += 1;
    }
    assert(parts@.take(i as int) =~= parts@);
    r
}

pub fn join_str(parts: &[Vec<char>], sep: &str) -> (r: Vec<char>)
    ensures
        r@ == spec_join(views(parts@), sep@),
{
    let s = chars_of(sep);
    join(parts, s.as_slice())
}

/// The arguments from position `start` on.
pub fn skip_args(args: &Vec<Vec<char>>, start: usize) -> (r: Vec<Vec<char>>)
    requires
        start <= args@.len(),
    ensures
        views(r@) == views(args@).skip(start as int),
{
    let mut r: Vec<Vec<char>> = Vec::new();
    let mut i: usize = start;
    while i < args.len()
        invariant
            start <= i <= args@.len(),
            views(r@) == views(args@).subrange(start as int, i as int),
        decreases args@.len() - i,
    {
        let item = slice(args[i].as_slice(), 0, args[i].len());
        assert(item@ =~= args@[i as int]@);
        let ghost before = r@;
        r.push(item);
        assert(views(r@) =~= views(before).push(args@[i as int]@));
        assert(views(r@) =~= views(args@).subrange(start as int, i + 1));
        i += 1;
    }
    assert(views(args@).subrange(start as int, i as int) =~= views(args@).skip(start as int));
    r
}

/// `str::replace`: every non-overlapping occurrence of a non-empty pattern,
/// from the left, replaced.
pub open spec fn spec_replace(s: Seq<char>, pat: Seq<char>, rep: Seq<char>) -> Seq<char>
    decreases s.len(),
{
    if pat.len() == 0 || s.len() < pat.len() {
        s
    } else if s.take(pat.len() as int) == pat {
        rep + spec_replace(s.skip(pat.len() as int), pat, rep)
    } else {
        seq![s[0]] + spec_replace(s.drop_first(), pat, rep)
    }
}

pub fn replace(s: &[char], pat: &[char], rep: &[char]) -> (r: Vec<char>)
    requires
        pat@.len() > 0,
    ensures
        r@ == spec_replace(s@, pat@, rep@),
{
    let mut out: Vec<char> = Vec::new();
    let mut i: usize = 0;
    assert(s@.skip(0) =~= s@);
    assert(out@ + spec_replace(s@, pat@, rep@) =~= spec_replace(s@, pat@, rep@));
    while i < s.len()
        invariant
            i <= s@.len(),
            pat@.len() > 0,
            out@ + spec_replace(s@.skip(i as int), pat@, rep@) == spec_replace(s@, pat@, rep@),
        decreases s@.len() - i,
    {
        let ghost rest = s@.skip(i as int);
        let hit = if pat.len() <= s.len() - i {
            let part = slice(s, i, i + pat.len());
            assert(part@ =~= rest.take(pat@.len() as int));
            eq(part.as_slice(), pat)
        } else {
            false
        };
        if hit {
            let ghost before = out@;
            append(&mut out, rep);
            assert(rest.skip(pat@.len() as int) =~= s@.skip(i + pat@.len()));
            assert(out@ + spec_replace(s@.skip(i + pat@.len()), pat@, rep@) =~= before + (rep@
                + spec_replace(rest.skip(pat@.len() as int), pat@, rep@)));
            i += pat.len();
        } else {
            let ghost before = out@;
            out.push(s[i]);
            assert(rest.drop_first() =~= s@.skip(i + 1));
            proof {
                if rest.len() < pat@.len() {
                    assert(seq![rest[0]] + rest.drop_first() =~= rest);
                }
            }
            assert(out@ + spec_replace(s@.skip(i + 1), pat@, rep@) =~= before + (seq![rest[0]]
                + spec_replace(rest.drop_first(), pat@, rep@)));
            i += 1;
        }
    }
    assert(out@ + spec_replace(s@.skip(i as int), pat@, rep@) =~= out@);
    out
}

pub fn replace_str(s: &[char], pat: &str, rep: &str) -> (r: Vec<char>)
    requires
        pat@.len() > 0,
    ensures
        r@ == spec_replace(s@, pat@, rep@),
{
    let p = chars_of(pat);
    let q = chars_of(rep);
    replace(s, p.as_slice(), q.as_slice())
}

/// Position of the first occurrence of a character.
pub open spec fn spec_find(s: Seq<char>, c: char) -> Option<int>
    decreases s.len(),
{
    if s.len() == 0 {
        None
    } else if s[0] == c {
        Some(0)
    } else {
        match spec_find(s.drop_first(), c) {
            Some(i) => Some(i + 1),
            None => None,
        }
    }
}

pub proof fn lemma_find(s: Seq<char>, c: char)
    ensures
        match spec_find(s, c) {
            Some(i) => 0 <= i < s.len() && s[i] == c && forall|j: int| 0 <= j < i ==> s[j] != c,
            None => forall|j: int| 0 <= j < s.len() ==> s[j] != c,
        },
    decreases s.len(),
{
    if s.len() > 0 {
        lemma_find(s.drop_first(), c);
        if s[0] != c {
            match spec_find(s.drop_first(), c) {
                Some(i) => {
                    assert forall|j: int| 0 <= j < i + 1 implies s[j] != c by {
                        if j > 0 {
                            assert(s[j] == s.drop_first()[j - 1]);
                        }
                    }
                },
                None => {
                    assert forall|j: int| 0 <= j < s.len() implies s[j] != c by {
                        if j > 0 {
                            assert(s[j] == s.drop_first()[j - 1]);
                        }
                    }
                },
            }
        }
    }
}

pub fn find_char(s: &[char], c: char) -> (r: Option<usize>)
    ensures
        match r {
            Some(i) => spec_find(s@, c) == Some(i as int),
            None => spec_find(s@, c) is None,
        },
{
    proof {
        lemma_find(s@, c);
    }
    let mut i: usize = 0;
    while i < s.len()
        invariant
            i <= s@.len(),
            forall|j: int| 0 <= j < i ==> s@[j] != c,
        decreases s@.len() - i,
    {
        if s[i] == c {
            proof {
                lemma_find_first(s@, c, i as int);
            }
            return Some(i);
        }
        i += 1;
    }
    proof {
        lemma_find_none(s@, c);
    }
    None
}

proof fn lemma_find_first(s: Seq<char>, c: char, i: int)
    requires
        0 <= i < s.len(),
        s[i] == c,
        forall|j: int| 0 <= j < i ==> s[j] != c,
    ensures
        spec_find(s, c) == Some(i),
    decreases i,
{
    if i > 0 {
        lemma_find_first(s.drop_first(), c, i - 1);
    }
}

proof fn lemma_find_none(s: Seq<char>, c: char)
    requires
        forall|j: int| 0 <= j < s.len() ==> s[j] != c,
    ensures
        spec_find(s, c) is None,
    decreases s.len(),
{
    if s.len() > 0 {
        lemma_find_none(s.drop_first(), c);
    }
}

/// Concatenates a literal and a text: used to build messages.
pub fn concat(a: &[char], b: &[char]) -> (r: Vec<char>)
    ensures
        r@ == a@ + b@,
{
    let mut r = slice(a, 0, a.len());
    append(&mut r, b);
    r
}

/// `split_once` on a text separator: the parts before and after its first occurrence.
pub open spec fn first_occurrence(hay: Seq<char>, needle: Seq<char>, i: int) -> bool {
    occurs_at(hay, needle, i) && forall|j: int| 0 <= j < i ==> !occurs_at(hay, needle, j)
}

/// `str::split_once`: the parts before and after the first occurrence of `sep`.
pub open spec fn spec_split_once(s: Seq<char>, sep: Seq<char>) -> Option<(Seq<char>, Seq<char>)> {
    if spec_contains(s, sep) {
        let i = choose|i: int| first_occurrence(s, sep, i);
        Some((s.take(i), s.skip(i + sep.len())))
    } else {
        None
    }
}

pub proof fn lemma_first_occurrence_unique(s: Seq<char>, sep: Seq<char>, i: int, j: int)
    requires
        first_occurrence(s, sep, i),
        first_occurrence(s, sep, j),
    ensures
        i == j,
{
    if i < j {
        assert(!occurs_at(s, sep, i));
    } else if j < i {
        assert(!occurs_at(s, sep, j));
    }
}

/// `str::find` of a text: the position of its first occurrence.
pub open spec fn spec_find_str(s: Seq<char>, pat: Seq<char>) -> Option<int> {
    if spec_contains(s, pat) {
        Some(choose|i: int| first_occurrence(s, pat, i))
    } else {
        None
    }
}

pub fn find_str(s: &[char], pat: &str) -> (r: Option<usize>)
    requires
        pat@.len() > 0,
    ensures
        match r {
            Some(i) => spec_find_str(s@, pat@) == Some(i as int) && first_occurrence(s@, pat@, i as int),
            None => spec_find_str(s@, pat@) is None,
        },
{
    let p = chars_of(pat);
    if p.len() > s.len() {
        assert(forall|i: int| !occurs_at(s@, p@, i));
        return None;
    }
    let mut i: usize = 0;
    while i <= s.len() - p.len()
        invariant
            p@ == pat@,
            0 < p@.len() <= s@.len(),
            i <= s@.len() - p@.len() + 1,
            forall|j: int| 0 <= j < i ==> !occurs_at(s@, p@, j),
        decreases s@.len() - p@.len() + 1 - i,
    {
        let part = slice(s, i, i + p.len());
        if eq(part.as_slice(), p.as_slice()) {
            assert(first_occurrence(s@, p@, i as int));
            proof {
                let k = choose|k: int| first_occurrence(s@, p@, k);
                lemma_first_occurrence_unique(s@, p@, k, i as int);
            }
            return Some(i);
        }
        i += 1;
    }
    assert forall|j: int| !occurs_at(s@, p@, j) by {
        if 0 <= j && j + p@.len() <= s@.len() {
            assert(j < i);
        }
    }
    None
}

pub fn split_once(s: &[char], sep: &[char]) -> (r: Option<(Vec<char>, Vec<char>)>)
    requires
        sep@.len() > 0,
    ensures
        match r {
            None => spec_split_once(s@, sep@) is None,
            Some((a, b)) => spec_split_once(s@, sep@) == Some((a@, b@)) && a@.len() <= s@.len() && a@ == s@.take(a@.len() as int),
        },
{
    if sep.len() > s.len() {
        assert(forall|i: int| !occurs_at(s@, sep@, i));
        return None;
    }
    let mut i: usize = 0;
    while i <= s.len() - sep.len()
        invariant
            0 < sep.len() <= s.len(),
            i <= s.len() - sep.len() + 1,
            forall|j: int| 0 <= j < i ==> !occurs_at(s@, sep@, j),
        decreases s.len() - sep.len() + 1 - i,
    {
        let part = slice(s, i, i + sep.len());
        if eq(part.as_slice(), sep) {
            assert(first_occurrence(s@, sep@, i as int));
            let a = slice(s, 0, i);
            let b = slice(s, i + sep.len(), s.len());
            assert(b@ =~= s@.skip(i + sep@.len()));
            assert(a@ =~= s@.take(i as int));
            proof {
                let k = choose|k: int| first_occurrence(s@, sep@, k);
                lemma_first_occurrence_unique(s@, sep@, k, i as int);
            }
            return Some((a, b));
        }
        i += 1;
    }
    assert forall|j: int| !occurs_at(s@, sep@, j) by {
        if 0 <= j && j + sep@.len() <= s@.len() {
            assert(j < i);
        }
    }
    None
}

pub fn split_once_str(s: &[char], sep: &str) -> (r: Option<(Vec<char>, Vec<char>)>)
    requires
        sep@.len() > 0,
    ensures
        match r {
            None => spec_split_once(s@, sep@) is None,
            Some((a, b)) => spec_split_once(s@, sep@) == Some((a@, b@)) && a@.len() <= s@.len() && a@ == s@.take(a@.len() as int),
        },
{
    let v = chars_of(sep);
    split_once(s, v.as_slice())
}

/// Builds `String`s out of character vectors.
pub fn strings_of(v: &[Vec<char>]) -> (r: Vec<String>)
    ensures
        string_views(r@) == views(v@),
{
    let mut r: Vec<String> = Vec::new();
    let mut i: usize = 0;
    while i < v.len()
        invariant
            i <= v.len(),
            string_views(r@) == views(v@.take(i as int)),
        decreases v.len() - i,
    {
        let ghost before = r@;
        let item = string_of(v[i].as_slice());
        assert(item@ == v@[i as int]@);
        r.push(item);
        assert(r@ =~= before.push(item));
        assert(v@.take(i + 1) =~= v@.take(i as int).push(v@[i as int]));
        assert(string_views(r@) =~= string_views(before).push(item@));
        assert(views(v@.take(i + 1)) =~= views(v@.take(i as int)).push(v@[i as int]@));
        i += 1;
    }
    assert(v@.take(i as int) =~= v@);
    r
}

// ---------------------------------------------------------------------------
// Lengths in UTF-16 code units
// ---------------------------------------------------------------------------

pub open spec fn spec_utf16_char(c: char) -> nat {
    if (c as u32) < 0x10000 {
        1
    } else {
        2
    }
}

/// `str::encode_utf16().count()`.
pub open spec fn spec_utf16_len(s: Seq<char>) -> nat
    decreases s.len(),
{
    if s.len() == 0 {
        0
    } else {
        spec_utf16_len(s.drop_last()) + spec_utf16_char(s.last())
    }
}

pub proof fn lemma_utf16_len_bounds(s: Seq<char>)
    ensures
        s.len() <= spec_utf16_len(s) <= 2 * s.len(),
    decreases s.len(),
{
    if s.len() > 0 {
        lemma_utf16_len_bounds(s.drop_last());
    }
}

pub proof fn lemma_utf16_len_add(a: Seq<char>, b: Seq<char>)
    ensures
        spec_utf16_len(a + b) == spec_utf16_len(a) + spec_utf16_len(b),
    decreases b.len(),
{
    if b.len() > 0 {
        assert((a + b).drop_last() =~= a + b.drop_last());
        lemma_utf16_len_add(a, b.drop_last());
    } else {
        assert(a + b =~= a);
    }
}

pub fn utf16_char(c: char) -> (r: usize)
    ensures
        r == spec_utf16_char(c),
{
    if (c as u32) < 0x10000 {
        1
    } else {
        2
    }
}

pub fn utf16_len(s: &[char]) -> (r: usize)
    requires
        s@.len() <= usize::MAX / 2,
    ensures
        r == spec_utf16_len(s@),
{
    let mut total: usize = 0;
    let mut i: usize = 0;
    while i < s.len()
        invariant
            i <= s.len(),
            total == spec_utf16_len(s@.take(i as int)),
            total <= 2 * i,
            s@.len() <= usize::MAX / 2,
        decreases s.len() - i,
    {
        assert(s@.take(i + 1).drop_last() =~= s@.take(i as int));
        total = total + utf16_char(s[i]);
        i += 1;
    }
    assert(s@.take(i as int) =~= s@);
    total
}

/// Whether a text takes at most `limit` UTF-16 code units.
pub fn utf16_within(s: &[char], limit: usize) -> (r: bool)
    ensures
        r == (spec_utf16_len(s@) <= limit),
{
    let mut total: usize = 0;
    let mut i: usize = 0;
    while i < s.len()
        invariant
            i <= s.len(),
            total == spec_utf16_len(s@.take(i as int)),
            total <= limit,
        decreases s.len() - i,
    {
        assert(s@.take(i + 1).drop_last() =~= s@.take(i as int));
        let w = utf16_char(s[i]);
        if w > limit - total {
            proof {
                lemma_utf16_prefix(s@, i + 1);
            }
            return false;
        }
        total = total + w;
        i += 1;
    }
    assert(s@.take(i as int) =~= s@);
    true
}

proof fn lemma_utf16_prefix(s: Seq<char>, k: int)
    requires
        0 <= k <= s.len(),
    ensures
        spec_utf16_len(s.take(k)) <= spec_utf16_len(s),
{
    assert(s =~= s.take(k) + s.skip(k));
    lemma_utf16_len_add(s.take(k), s.skip(k));
}

// ---------------------------------------------------------------------------
// Byte ranges of UTF-8 text
// ---------------------------------------------------------------------------

/// Number of bytes that UTF-8 spends on a character.
pub open spec fn utf8_width(c: char) -> nat {
    if (c as u32) <= 0x7F {
        1
    } else if (c as u32) <= 0x7FF {
        2
    } else if (c as u32) <= 0xFFFF {
        3
    } else {
        4
    }
}

/// The character index at which byte offset `b` falls, when it falls on a
/// character boundary.
pub open spec fn char_at_byte(s: Seq<char>, b: nat) -> Option<int>
    decreases s.len(),
{
    if b == 0 {
        Some(0)
    } else if s.len() == 0 {
        None
    } else if utf8_width(s[0]) > b {
        None
    } else {
        match char_at_byte(s.drop_first(), (b - utf8_width(s[0])) as nat) {
            Some(i) => Some(i + 1),
            None => None,
        }
    }
}

/// `str::get(a..b)` on byte offsets: the text between two character
/// boundaries.
pub open spec fn spec_byte_get(s: Seq<char>, a: nat, b: nat) -> Option<Seq<char>> {
    if a <= b {
        match (char_at_byte(s, a), char_at_byte(s, b)) {
            (Some(i), Some(j)) => Some(s.subrange(i, j)),
            _ => None,
        }
    } else {
        None
    }
}

pub proof fn lemma_char_at_byte_bounds(s: Seq<char>, b: nat)
    ensures
        char_at_byte(s, b) matches Some(i) ==> 0 <= i <= s.len(),
        char_at_byte(s, b) matches Some(i) ==> (b == 0 <==> i == 0),
    decreases s.len(),
{
    if b != 0 && s.len() != 0 && utf8_width(s[0]) <= b {
        lemma_char_at_byte_bounds(s.drop_first(), (b - utf8_width(s[0])) as nat);
    }
}

pub fn utf8_width_exec(c: char) -> (r: usize)
    ensures
        r == utf8_width(c),
{
    let v = c as u32;
    if v <= 0x7F {
        1
    } else if v <= 0x7FF {
        2
    } else if v <= 0xFFFF {
        3
    } else {
        4
    }
}

pub fn char_index_at_byte(s: &[char], b: usize) -> (r: Option<usize>)
    ensures
        match r {
            Some(i) => char_at_byte(s@, b as nat) == Some(i as int),
            None => char_at_byte(s@, b as nat) is None,
        },
{
    let mut k: usize = 0;
    let mut acc: usize = 0;
    assert(s@.skip(0) =~= s@);
    while acc < b
        invariant
            k <= s@.len(),
            acc <= b,
            char_at_byte(s@, b as nat) == (match char_at_byte(s@.skip(k as int), (b - acc) as nat) {
                Some(i) => Some(i + k),
                None => None,
            }),
        decreases b - acc,
    {
        if k == s.len() {
            return None;
        }
        let w = utf8_width_exec(s[k]);
        assert(s@.skip(k as int)[0] == s@[k as int]);
        if w > b - acc {
            return None;
        }
        assert(s@.skip(k as int).drop_first() =~= s@.skip(k + 1));
        acc = acc + w;
        k = k + 1;
    }
    Some(k)
}

/// `str::get(a..b)` on byte offsets.
pub fn byte_get(s: &[char], a: usize, b: usize) -> (r: Option<Vec<char>>)
    ensures
        match r {
            Some(v) => spec_byte_get(s@, a as nat, b as nat) == Some(v@),
            None => spec_byte_get(s@, a as nat, b as nat) is None,
        },
{
    if a > b {
        return None;
    }
    let i = char_index_at_byte(s, a);
    let j = char_index_at_byte(s, b);
    proof {
        lemma_char_at_byte_bounds(s@, a as nat);
        lemma_char_at_byte_bounds(s@, b as nat);
    }
    match (i, j) {
        (Some(i), Some(j)) => {
            if i <= j {
                Some(slice(s, i, j))
            } else {
                proof {
                    lemma_char_at_byte_monotone(s@, a as nat, b as nat);
                }
                None
            }
        },
        _ => None,
    }
}

pub proof fn lemma_char_at_byte_monotone(s: Seq<char>, a: nat, b: nat)
    requires
        a <= b,
        char_at_byte(s, a) is Some,
        char_at_byte(s, b) is Some,
    ensures
        char_at_byte(s, a).unwrap() <= char_at_byte(s, b).unwrap(),
    decreases s.len(),
{
    lemma_char_at_byte_bounds(s, a);
    lemma_char_at_byte_bounds(s, b);
    if a != 0 {
        lemma_char_at_byte_monotone(s.drop_first(), (a - utf8_width(s[0])) as nat, (b
            - utf8_width(s[0])) as nat);
    }
}

/// Number of bytes of the UTF-8 encoding of a text (`str::len`).
pub open spec fn byte_len(s: Seq<char>) -> nat
    decreases s.len(),
{
    if s.len() == 0 {
        0
    } else {
        byte_len(s.drop_last()) + utf8_width(s.last())
    }
}

pub proof fn lemma_byte_len_ge(s: Seq<char>)
    ensures
        byte_len(s) >= s.len(),
        byte_len(s) == s.len() ==> forall|i: int| 0 <= i < s.len() ==> utf8_width(#[trigger] s[i]) == 1,
    decreases s.len(),
{
    if s.len() > 0 {
        lemma_byte_len_ge(s.drop_last());
        assert forall|i: int| 0 <= i < s.len() && byte_len(s) == s.len() implies utf8_width(#[trigger] s[i]) == 1 by {
            if i < s.len() - 1 {
                assert(s[i] == s.drop_last()[i]);
            }
        }
    }
}

pub fn byte_length(s: &[char]) -> (r: usize)
    requires
        s@.len() <= usize::MAX / 4,
    ensures
        r == byte_len(s@),
{
    let mut n: usize = 0;
    let mut i: usize = 0;
    while i < s.len()
        invariant
            i <= s@.len(),
            s@.len() <= usize::MAX / 4,
            n == byte_len(s@.take(i as int)),
            n <= 4 * i,
        decreases s@.len() - i,
    {
        assert(s@.take(i + 1).drop_last() =~= s@.take(i as int));
        n = n + utf8_width_exec(s[i]);
        i += 1;
    }
    assert(s@.take(i as int) =~= s@);
    n
}

// ---------------------------------------------------------------------------
// Hexadecimal numbers
// ---------------------------------------------------------------------------

pub open spec fn hex_digit_value(c: char) -> nat {
    if '0' <= c && c <= '9' {
        ((c as u32) - ('0' as u32)) as nat
    } else if 'a' <= c && c <= 'f' {
        ((c as u32) - ('a' as u32) + 10) as nat
    } else {
        ((c as u32) - ('A' as u32) + 10) as nat
    }
}

pub open spec fn all_hex(s: Seq<char>) -> bool {
    forall|i: int| 0 <= i < s.len() ==> spec_is_hex(#[trigger] s[i])
}

/// The number that a string of hexadecimal digits spells.
pub open spec fn hex_digits_value(s: Seq<char>) -> nat
    decreases s.len(),
{
    if s.len() == 0 {
        0
    } else {
        hex_digits_value(s.drop_last()) * 16 + hex_digit_value(s.last())
    }
}

/// `u32::from_str_radix(s, 16)`: an optional `+`, at least one hexadecimal
/// digit, and a value that fits.
pub open spec fn parse_hex_u32_spec(s: Seq<char>) -> Option<u32> {
    let body = if s.len() > 0 && s[0] == '+' {
        s.drop_first()
    } else {
        s
    };
    if body.len() > 0 && all_hex(body) && hex_digits_value(body) <= u32::MAX {
        Some(hex_digits_value(body) as u32)
    } else {
        None
    }
}

proof fn lemma_hex_value_prefix(s: Seq<char>, i: int)
    requires
        0 <= i <= s.len(),
    ensures
        hex_digits_value(s.take(i)) <= hex_digits_value(s),
    decreases s.len() - i,
{
    if i < s.len() {
        lemma_hex_value_prefix(s, i + 1);
        assert(s.take(i + 1).drop_last() =~= s.take(i));
    } else {
        assert(s.take(i) =~= s);
    }
}

pub fn parse_hex_u32(s: &[char]) -> (r: Option<u32>)
    ensures
        r == parse_hex_u32_spec(s@),
{
    let from: usize = if s.len() > 0 && s[0] == '+' {
        1
    } else {
        0
    };
    let tail = slice(s, from, s.len());
    assert(from == 1 ==> tail@ =~= s@.drop_first());
    assert(from == 0 ==> tail@ =~= s@);
    if tail.len() == 0 {
        return None;
    }
    let mut value: u64 = 0;
    let mut i: usize = 0;
    while i < tail.len()
        invariant
            i <= tail@.len(),
            tail@ == (if s@.len() > 0 && s@[0] == '+' {
                s@.drop_first()
            } else {
                s@
            }),
            all_hex(tail@.take(i as int)),
            value == hex_digits_value(tail@.take(i as int)),
            value <= u32::MAX,
        decreases tail@.len() - i,
    {
        let c = tail[i];
        if !is_hex(c) {
            assert(!all_hex(tail@));
            return None;
        }
        let d: u64 = if '0' <= c && c <= '9' {
            (c as u32 - '0' as u32) as u64
        } else if 'a' <= c && c <= 'f' {
            (c as u32 - 'a' as u32 + 10) as u64
        } else {
            (c as u32 - 'A' as u32 + 10) as u64
        };
        assert(tail@.take(i + 1).drop_last() =~= tail@.take(i as int));
        assert(tail@.take(i + 1).last() == c);
        value = value * 16 + d;
        if value > u32::MAX as u64 {
            proof {
                lemma_hex_value_prefix(tail@, i + 1);
            }
            return None;
        }
        assert(all_hex(tail@.take(i + 1))) by {
            assert forall|j: int| 0 <= j < i + 1 implies spec_is_hex(#[trigger] tail@.take(i + 1)[j]) by {
                if j < i {
                    assert(tail@.take(i + 1)[j] == tail@.take(i as int)[j]);
                }
            }
        }
        i += 1;
    }
    assert(tail@.take(i as int) =~= tail@);
    Some(value as u32)
}

// ---------------------------------------------------------------------------
// Decimal numbers
// ---------------------------------------------------------------------------

pub open spec fn digit_value(c: char) -> nat {
    ((c as u32) - ('0' as u32)) as nat
}

pub open spec fn digit_char(d: nat) -> char {
    ((d + ('0' as u32)) as u32) as char
}

/// The number that a string of decimal digits spells.
pub open spec fn digits_value(s: Seq<char>) -> nat
    decreases s.len(),
{
    if s.len() == 0 {
        0
    } else {
        digits_value(s.drop_last()) * 10 + digit_value(s.last())
    }
}

/// What `str::parse` gives for an unsigned integer type, before the range check:
/// an optional `+` and at least one digit.
pub open spec fn spec_parse_nat(s: Seq<char>) -> Option<nat> {
    let body = if s.len() > 0 && s[0] == '+' {
        s.drop_first()
    } else {
        s
    };
    if body.len() > 0 && all_digits(body) {
        Some(digits_value(body))
    } else {
        None
    }
}

/// What `str::parse` gives for a signed integer type, before the range check.
pub open spec fn spec_parse_int(s: Seq<char>) -> Option<int> {
    if s.len() > 0 && s[0] == '-' {
        let body = s.drop_first();
        if body.len() > 0 && all_digits(body) {
            Some(-(digits_value(body) as int))
        } else {
            None
        }
    } else {
        match spec_parse_nat(s) {
            Some(v) => Some(v as int),
            None => None,
        }
    }
}

/// `str::parse::<u64>()`.
pub open spec fn parse_u64_spec(s: Seq<char>) -> Option<u64> {
    match spec_parse_nat(s) {
        Some(v) => if v <= u64::MAX {
            Some(v as u64)
        } else {
            None
        },
        None => None,
    }
}

/// `str::parse::<usize>()`.
pub open spec fn parse_usize_spec(s: Seq<char>) -> Option<usize> {
    match spec_parse_nat(s) {
        Some(v) => if v <= usize::MAX {
            Some(v as usize)
        } else {
            None
        },
        None => None,
    }
}

/// `str::parse::<u32>()`.
pub open spec fn parse_u32_spec(s: Seq<char>) -> Option<u32> {
    match spec_parse_nat(s) {
        Some(v) => if v <= u32::MAX {
            Some(v as u32)
        } else {
            None
        },
        None => None,
    }
}

/// `str::parse::<i64>()`.
pub open spec fn parse_i64_spec(s: Seq<char>) -> Option<i64> {
    match spec_parse_int(s) {
        Some(v) => if i64::MIN <= v <= i64::MAX {
            Some(v as i64)
        } else {
            None
        },
        None => None,
    }
}

/// `str::parse::<i32>()`.
pub open spec fn parse_i32_spec(s: Seq<char>) -> Option<i32> {
    match spec_parse_int(s) {
        Some(v) => if i32::MIN <= v <= i32::MAX {
            Some(v as i32)
        } else {
            None
        },
        None => None,
    }
}

proof fn lemma_digits_value_prefix(s: Seq<char>, i: int)
    requires
        0 <= i <= s.len(),
        all_digits(s),
    ensures
        digits_value(s.take(i)) <= digits_value(s),
    decreases s.len() - i,
{
    if i < s.len() {
        lemma_digits_value_prefix(s, i + 1);
        assert(s.take(i + 1).drop_last() =~= s.take(i));
        assert(digits_value(s.take(i + 1)) == digits_value(s.take(i)) * 10 + digit_value(
            s[i],
        ));
    } else {
        assert(s.take(i) =~= s);
    }
}

/// Value of a run of digits, `None` once it exceeds `u64::MAX`.
fn digits_u64(s: &[char], from: usize) -> (r: Option<u64>)
    requires
        from <= s.len(),
        all_digits(s@.skip(from as int)),
    ensures
        match r {
            Some(v) => v == digits_value(s@.skip(from as int)),
            None => digits_value(s@.skip(from as int)) > u64::MAX,
        },
{
    let ghost body = s@.skip(from as int);
    let mut value: u64 = 0;
    let mut i: usize = from;
    while i < s.len()
        invariant
            from <= i <= s.len(),
            body == s@.skip(from as int),
            all_digits(body),
            value == digits_value(body.take(i - from)),
        decreases s.len() - i,
    {
        let c = s[i];
        assert(body[i - from] == c);
        let d: u64 = (c as u32 - '0' as u32) as u64;
        assert(body.take(i - from + 1).drop_last() =~= body.take(i - from));
        match value.checked_mul(10) {
            Some(m) => match m.checked_add(d) {
                Some(v) => {
                    value = v;
                },
                None => {
                    proof {
                        lemma_digits_value_prefix(body, i - from + 1);
                    }
                    return None;
                },
            },
            None => {
                proof {
                    lemma_digits_value_prefix(body, i - from + 1);
                }
                return None;
            },
        }
        i += 1;
    }
    assert(body.take(i - from) =~= body);
    Some(value)
}

pub fn parse_u64(s: &[char]) -> (r: Option<u64>)
    ensures
        r == parse_u64_spec(s@),
{
    let from: usize = if s.len() > 0 && s[0] == '+' {
        1
    } else {
        0
    };
    assert(from == 1 ==> s@.skip(1) =~= s@.drop_first());
    assert(from == 0 ==> s@.skip(0) =~= s@);
    if from >= s.len() {
        return None;
    }
    let tail = slice(s, from, s.len());
    assert(tail@ =~= s@.skip(from as int));
    if !is_all_digits(tail.as_slice()) {
        return None;
    }
    digits_u64(s, from)
}

pub fn parse_usize(s: &[char]) -> (r: Option<usize>)
    ensures
        r == parse_usize_spec(s@),
{
    match parse_u64(s) {
        Some(v) => {
            if v <= usize::MAX as u64 {
                Some(v as usize)
            } else {
                None
            }
        },
        None => {
            None
        },
    }
}

pub fn parse_u32(s: &[char]) -> (r: Option<u32>)
    ensures
        r == parse_u32_spec(s@),
{
    match parse_u64(s) {
        Some(v) => {
            if v <= u32::MAX as u64 {
                Some(v as u32)
            } else {
                None
            }
        },
        None => None,
    }
}

pub fn parse_i64(s: &[char]) -> (r: Option<i64>)
    ensures
        r == parse_i64_spec(s@),
{
    if s.len() > 0 && s[0] == '-' {
        if s.len() < 2 {
            return None;
        }
        let tail = slice(s, 1, s.len());
        assert(tail@ =~= s@.drop_first());
        if !is_all_digits(tail.as_slice()) {
            return None;
        }
        assert(s@.skip(1) =~= s@.drop_first());
        match digits_u64(s, 1) {
            Some(m) => {
                if m <= 9223372036854775808u64 {
                    if m == 9223372036854775808u64 {
                        Some(i64::MIN)
                    } else {
                        Some(-(m as i64))
                    }
                } else {
                    None
                }
            },
            None => None,
        }
    } else {
        match parse_u64(s) {
            Some(v) => {
                if v <= i64::MAX as u64 {
                    Some(v as i64)
                } else {
                    None
                }
            },
            None => None,
        }
    }
}

pub fn parse_i32(s: &[char]) -> (r: Option<i32>)
    ensures
        r == parse_i32_spec(s@),
{
    match parse_i64(s) {
        Some(v) => {
            if i32::MIN as i64 <= v && v <= i32::MAX as i64 {
                Some(v as i32)
            } else {
                None
            }
        },
        None => {
            assert(spec_parse_int(s@) is Some ==> {
                let v = spec_parse_int(s@).unwrap();
                !(i64::MIN <= v <= i64::MAX)
            });
            None
        },
    }
}

/// Decimal digits of a natural number, without leading zeros.
pub open spec fn decimal(n: nat) -> Seq<char>
    decreases n,
{
    if n < 10 {
        seq![digit_char(n)]
    } else {
        decimal(n / 10).push(digit_char(n % 10))
    }
}

/// Decimal rendering of an integer, with a leading `-` when negative.
pub open spec fn decimal_int(n: int) -> Seq<char> {
    if n < 0 {
        seq!['-'] + decimal((-n) as nat)
    } else {
        decimal(n as nat)
    }
}

pub fn fmt_u64(n: u64) -> (r: Vec<char>)
    ensures
        r@ == decimal(n as nat),
    decreases n,
{
    if n < 10 {
        let c = char_from_ascii((n as u32) + 48);
        let mut v: Vec<char> = Vec::new();
        v.push(c);
        assert(v@ =~= seq![digit_char(n as nat)]);
        v
    } else {
        let mut v = fmt_u64(n / 10);
        let d: u32 = (n % 10) as u32;
        v.push(char_from_ascii(d + 48));
        v
    }
}

pub fn fmt_usize(n: usize) -> (r: Vec<char>)
    ensures
        r@ == decimal(n as nat),
{
    fmt_u64(n as u64)
}

pub fn fmt_i64(n: i64) -> (r: Vec<char>)
    ensures
        r@ == decimal_int(n as int),
{
    if n < 0 {
        let magnitude: u64 = if n == i64::MIN {
            9223372036854775808u64
        } else {
            (-n) as u64
        };
        let mut v: Vec<char> = Vec::new();
        v.push('-');
        let d = fmt_u64(magnitude);
        append(&mut v, d.as_slice());
        assert(v@ =~= seq!['-'] + decimal((-(n as int)) as nat));
        v
    } else {
        fmt_u64(n as u64)
    }
}

/// `format!("{:0>w}", s)`: left padded with zeros to at least `width` characters.
pub open spec fn pad_zero(s: Seq<char>, width: nat) -> Seq<char> {
    if s.len() >= width {
        s
    } else {
        Seq::new((width - s.len()) as nat, |i: int| '0') + s
    }
}

pub fn pad_zero_exec(s: &[char], width: usize) -> (r: Vec<char>)
    ensures
        r@ == pad_zero(s@, width as nat),
{
    let mut r: Vec<char> = Vec::new();
    if s.len() < width {
        let n = width - s.len();
        let mut i: usize = 0;
        while i < n
            invariant
                i <= n,
                r@ == Seq::new(i as nat, |j: int| '0'),
            decreases n - i,
        {
            r.push('0');
            assert(r@ =~= Seq::new((i + 1) as nat, |j: int| '0'));
            i += 1;
        }
    }
    append(&mut r, s);
    assert(r@ =~= pad_zero(s@, width as nat));
    r
}

} // verus!
