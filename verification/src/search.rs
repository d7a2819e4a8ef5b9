//! Spelling-insensitive search text shared by `ut` and `tut`.
use vstd::prelude::*;

use crate::text::{append, char_from_u32, chars_of, spec_trim, string_of, trim};

verus! {

/// The NFKC normal form of a text, as `unicode-normalization` computes it.
pub uninterp spec fn nfkc_of(s: Seq<char>) -> Seq<char>;

/// `UnicodeNormalization::nfkc` of the `unicode-normalization` crate,
/// collected into a string.
#[verifier::external_body]
fn nfkc(value: &str) -> (r: String)
    ensures
        r@ == nfkc_of(value@),
{
    unicode_normalization::UnicodeNormalization::nfkc(value).collect()
}

/// The characters that `char::to_lowercase` yields for a character.
pub uninterp spec fn lowercase_of(c: char) -> Seq<char>;

/// `char::to_lowercase`, collected; an ASCII character yields its ASCII
/// lower case alone.
#[verifier::external_body]
fn char_lowercase(c: char) -> (r: Vec<char>)
    ensures
        r@ == lowercase_of(c),
        (c as u32) < 128 ==> r@ == seq![crate::text::spec_lower(c)],
{
    c.to_lowercase().collect()
}

/// The lower case of every character of a text, one after another.
pub open spec fn lowercase_all(s: Seq<char>) -> Seq<char>
    decreases s.len(),
{
    if s.len() == 0 {
        Seq::empty()
    } else {
        lowercase_all(s.drop_last()) + lowercase_of(s.last())
    }
}

/// Katakana as hiragana, the wave dashes as one, and the many dashes as the
/// long vowel mark.
pub open spec fn spec_fold_char(c: char) -> char {
    if '\u{30a1}' <= c && c <= '\u{30f6}' {
        ((c as u32) - 0x60) as char
    } else if c == '~' || c == '～' || c == '〜' {
        '〜'
    } else if c == '－' || c == '−' || c == '‐' || c == '⁃' || c == '‑' || c == '‒' || c == '–'
        || c == '—' || c == '―' || c == '-' {
        'ー'
    } else {
        c
    }
}

pub fn fold_search_char(c: char) -> (r: char)
    ensures
        r == spec_fold_char(c),
{
    if '\u{30a1}' <= c && c <= '\u{30f6}' {
        let code = (c as u32) - 0x60;
        match char_from_u32(code) {
            Some(h) => h,
            None => c,
        }
    } else if c == '~' || c == '～' || c == '〜' {
        '〜'
    } else if c == '－' || c == '−' || c == '‐' || c == '⁃' || c == '‑' || c == '‒' || c == '–'
        || c == '—' || c == '―' || c == '-' {
        'ー'
    } else {
        c
    }
}

/// Folds every character of a text that is already in NFKC and lower case.
pub fn fold_search_chars(s: &[char]) -> (r: Vec<char>)
    ensures
        r@ == s@.map_values(|c: char| spec_fold_char(c)),
{
    let mut r: Vec<char> = Vec::new();
    let mut i: usize = 0;
    while i < s.len()
        invariant
            i <= s@.len(),
            r@ == s@.take(i as int).map_values(|c: char| spec_fold_char(c)),
        decreases s@.len() - i,
    {
        r.push(fold_search_char(s[i]));
        assert(r@ =~= s@.take(i + 1).map_values(|c: char| spec_fold_char(c)));
        i += 1;
    }
    assert(s@.take(i as int) =~= s@);
    r
}

/// Search text: trimmed, NFKC-normalised, lower-cased and folded.
pub open spec fn spec_normalize(value: Seq<char>) -> Seq<char> {
    lowercase_all(nfkc_of(spec_trim(value))).map_values(|c: char| spec_fold_char(c))
}

pub fn normalize_search_text(value: &str) -> (r: String)
    ensures
        r@ == spec_normalize(value@),
{
    let v = chars_of(value);
    let t = trim(v.as_slice());
    let trimmed = string_of(t.as_slice());
    let n = nfkc(trimmed.as_str());
    let nv = chars_of(n.as_str());
    let mut lowered: Vec<char> = Vec::new();
    let mut i: usize = 0;
    while i < nv.len()
        invariant
            i <= nv@.len(),
            lowered@ == lowercase_all(nv@.take(i as int)),
        decreases nv@.len() - i,
    {
        let l = char_lowercase(nv[i]);
        append(&mut lowered, l.as_slice());
        assert(nv@.take(i + 1).drop_last() =~= nv@.take(i as int));
        i += 1;
    }
    assert(nv@.take(i as int) =~= nv@);
    let folded = fold_search_chars(lowered.as_slice());
    string_of(folded.as_slice())
}

} // verus!
