//! Splitting of long command output into chunks that fit one Discord message.
use vstd::prelude::*;

use crate::text::{
    append, lemma_split_fields_len, spec_contains, lemma_utf16_len_add, lemma_utf16_len_bounds, spec_utf16_char,
    spec_utf16_len, split_char, split_fields, utf16_char, utf16_len, views, chars_of, strings_of,
    string_views,
};

verus! {

/// The chunk size that command output uses, in UTF-16 code units.
pub const DISCORD_TEXT_CHUNK_SIZE: usize = 1800;

/// Appends the pending chunk when it is not empty.
pub open spec fn flushed(chunks: Seq<Seq<char>>, current: Seq<char>) -> Seq<Seq<char>> {
    if current.len() > 0 {
        chunks.push(current)
    } else {
        chunks
    }
}

/// State after greedily packing the characters of `line` (one character at a
/// time) into chunks of at most `max` UTF-16 units: finished chunks and the
/// pending chunk.
pub open spec fn long_line_state(line: Seq<char>, max: nat) -> (Seq<Seq<char>>, Seq<char>)
    decreases line.len(),
{
    if line.len() == 0 {
        (Seq::empty(), Seq::empty())
    } else {
        let (chunks, current) = long_line_state(line.drop_last(), max);
        let c = line.last();
        if current.len() > 0 && spec_utf16_len(current) + spec_utf16_char(c) > max {
            (chunks.push(current), seq![c])
        } else {
            (chunks, current.push(c))
        }
    }
}

/// The chunks that a line longer than the limit is cut into.
pub open spec fn long_line_chunks(line: Seq<char>, max: nat) -> Seq<Seq<char>> {
    let (chunks, current) = long_line_state(line, max);
    flushed(chunks, current)
}

/// One step of the line packing: a line either starts new chunks of its own
/// (when longer than the limit), or joins the pending chunk after a line
/// feed, or moves to a new chunk when it would not fit.
pub open spec fn chunk_step(
    state: (Seq<Seq<char>>, Seq<char>),
    line: Seq<char>,
    max: nat,
) -> (Seq<Seq<char>>, Seq<char>) {
    let (chunks, current) = state;
    if spec_utf16_len(line) > max {
        (flushed(chunks, current) + long_line_chunks(line, max), Seq::empty())
    } else {
        let (chunks1, current1) = if current.len() > 0 && spec_utf16_len(current) + 1
            + spec_utf16_len(line) > max {
            (flushed(chunks, current), Seq::<char>::empty())
        } else {
            (chunks, current)
        };
        if current1.len() > 0 {
            (chunks1, current1.push('\n') + line)
        } else {
            (chunks1, line)
        }
    }
}

pub open spec fn chunk_state(lines: Seq<Seq<char>>, max: nat) -> (Seq<Seq<char>>, Seq<char>)
    decreases lines.len(),
{
    if lines.len() == 0 {
        (Seq::empty(), Seq::empty())
    } else {
        chunk_step(chunk_state(lines.drop_last(), max), lines.last(), max)
    }
}

/// The chunks of `text`: its lines packed greedily, in order.
pub open spec fn text_chunks(text: Seq<char>, max: nat) -> Seq<Seq<char>> {
    let (chunks, current) = chunk_state(split_fields(text, '\n'), max);
    flushed(chunks, current)
}

/// Concatenation of all chunks.
pub open spec fn concat_all(chunks: Seq<Seq<char>>) -> Seq<char>
    decreases chunks.len(),
{
    if chunks.len() == 0 {
        Seq::empty()
    } else {
        concat_all(chunks.drop_last()) + chunks.last()
    }
}

pub open spec fn all_nonempty(chunks: Seq<Seq<char>>) -> bool {
    forall|i: int| 0 <= i < chunks.len() ==> (#[trigger] chunks[i]).len() > 0
}

pub open spec fn all_within(chunks: Seq<Seq<char>>, max: nat) -> bool {
    forall|i: int| 0 <= i < chunks.len() ==> spec_utf16_len(#[trigger] chunks[i]) <= max
}

/// Cuts one line longer than the limit into chunks, appending them.
pub fn split_long_line(line: &[char], max_length: usize, chunks: &mut Vec<Vec<char>>)
    requires
        line@.len() <= usize::MAX / 4,
        max_length <= usize::MAX / 2,
    ensures
        views(final(chunks)@) == views(old(chunks)@) + long_line_chunks(line@, max_length as nat),
{
    let ghost start = views(chunks@);
    let mut current: Vec<char> = Vec::new();
    let mut current_length: usize = 0;
    let mut i: usize = 0;
    while i < line.len()
        invariant
            i <= line.len(),
            line@.len() <= usize::MAX / 4,
            max_length <= usize::MAX / 2,
            current_length == spec_utf16_len(current@),
            current_length <= 2 * i,
            views(chunks@) == start + long_line_state(line@.take(i as int), max_length as nat).0,
            current@ == long_line_state(line@.take(i as int), max_length as nat).1,
        decreases line.len() - i,
    {
        let c = line[i];
        assert(line@.take(i + 1).drop_last() =~= line@.take(i as int));
        let w = utf16_char(c);
        if current.len() > 0 && current_length + w > max_length {
            let mut finished: Vec<char> = Vec::new();
            std::mem::swap(&mut finished, &mut current);
            let ghost before = views(chunks@);
            chunks.push(finished);
            assert(views(chunks@) =~= before.push(finished@));
            current.push(c);
            assert(current@ =~= seq![c]);
            proof {
                assert(seq![c].drop_last() =~= Seq::<char>::empty());
                assert(spec_utf16_len(seq![c]) == spec_utf16_len(Seq::<char>::empty())
                    + spec_utf16_char(c));
            }
            current_length = w;
        } else {
            let ghost before = current@;
            current.push(c);
            proof {
                assert(current@.drop_last() =~= before);
                assert(current@.last() == c);
            }
            current_length = current_length + w;
        }
        i += 1;
    }
    assert(line@.take(i as int) =~= line@);
    if current.len() > 0 {
        let ghost before = views(chunks@);
        chunks.push(current);
        assert(views(chunks@) =~= before.push(long_line_state(line@, max_length as nat).1));
    }
}

/// Appends the pending chunk when it is not empty, and resets it.
pub fn flush(chunks: &mut Vec<Vec<char>>, current: &mut Vec<char>, current_length: &mut usize)
    ensures
        views(final(chunks)@) == flushed(views(old(chunks)@), old(current)@),
        final(current)@.len() == 0,
        *final(current_length) == 0,
{
    if current.len() > 0 {
        let mut finished: Vec<char> = Vec::new();
        std::mem::swap(&mut finished, current);
        let ghost before = views(chunks@);
        chunks.push(finished);
        assert(views(chunks@) =~= before.push(finished@));
    }
    *current_length = 0;
}

/// Splits text into chunks of at most `max_length` UTF-16 units, keeping
/// lines together where they fit and cutting lines that are longer.
pub fn chunk_text(text: &[char], max_length: usize) -> (r: Vec<Vec<char>>)
    requires
        max_length > 0,
        max_length <= usize::MAX / 2,
        text@.len() <= usize::MAX / 4,
    ensures
        views(r@) == text_chunks(text@, max_length as nat),
{
    let lines = split_char(text, '\n');
    let ghost ls = split_fields(text@, '\n');
    let mut chunks: Vec<Vec<char>> = Vec::new();
    let mut current: Vec<char> = Vec::new();
    let mut current_length: usize = 0;
    let mut i: usize = 0;
    proof {
        lemma_utf16_len_bounds(text@);
        lemma_split_fields_bounded(text@, '\n');
    }
    while i < lines.len()
        invariant
            i <= lines.len(),
            views(lines@) == ls,
            max_length <= usize::MAX / 2,
            text@.len() <= usize::MAX / 4,
            forall|j: int| 0 <= j < ls.len() ==> (#[trigger] ls[j]).len() <= text@.len(),
            current_length == spec_utf16_len(current@),
            current_length <= max_length,
            views(chunks@) == chunk_state(ls.take(i as int), max_length as nat).0,
            current@ == chunk_state(ls.take(i as int), max_length as nat).1,
        decreases lines.len() - i,
    {
        let line = &lines[i];
        assert(line@ == ls[i as int]);
        assert(ls.take(i + 1).drop_last() =~= ls.take(i as int));
        proof {
            lemma_utf16_len_bounds(line@);
        }
        let line_length = utf16_len(line.as_slice());
        if line_length > max_length {
            flush(&mut chunks, &mut current, &mut current_length);
            split_long_line(line.as_slice(), max_length, &mut chunks);
        } else {
            let separator_length: usize = if current.len() > 0 {
                1
            } else {
                0
            };
            if current.len() > 0 && current_length + separator_length + line_length > max_length {
                flush(&mut chunks, &mut current, &mut current_length);
            }
            if current.len() > 0 {
                let ghost before = current@;
                current.push('\n');
                proof {
                    lemma_utf16_len_add(before, seq!['\n']);
                    assert(before + seq!['\n'] =~= before.push('\n'));
                    assert(seq!['\n'].drop_last() =~= Seq::<char>::empty());
                assert(seq!['\n'].last() == '\n');
                assert(without_breaks(seq!['\n']) == without_breaks(Seq::<char>::empty()));
                assert(without_breaks(Seq::<char>::empty()) == Seq::<char>::empty());
                    assert(spec_utf16_len(seq!['\n']) == spec_utf16_len(Seq::<char>::empty())
                        + spec_utf16_char('\n'));
                }
                current_length = current_length + 1;
            }
            let ghost before = current@;
            append(&mut current, line.as_slice());
            proof {
                lemma_utf16_len_add(before, line@);
                if before.len() == 0 {
                    assert(before + line@ =~= line@);
                }
            }
            current_length = current_length + line_length;
        }
        i += 1;
    }
    assert(ls.take(i as int) =~= ls);
    flush(&mut chunks, &mut current, &mut current_length);
    chunks
}

/// Splits text into chunks of at most `max_length` UTF-16 units, keeping
/// lines together where they fit and cutting lines that are longer.
pub fn split_text_into_chunks(text: &str, max_length: usize) -> (r: Vec<String>)
    requires
        max_length > 0,
        max_length <= usize::MAX / 2,
        text@.len() <= usize::MAX / 4,
    ensures
        string_views(r@) == text_chunks(text@, max_length as nat),
{
    let chars = chars_of(text);
    let chunks = chunk_text(chars.as_slice(), max_length);
    strings_of(chunks.as_slice())
}

pub proof fn lemma_split_fields_bounded(s: Seq<char>, sep: char)
    ensures
        forall|j: int|
            0 <= j < split_fields(s, sep).len() ==> (#[trigger] split_fields(s, sep)[j]).len()
                <= s.len(),
    decreases s.len(),
{
    if s.len() > 0 {
        lemma_split_fields_bounded(s.drop_last(), sep);
        lemma_split_fields_len(s.drop_last(), sep);
    }
}

proof fn lemma_long_line_state(line: Seq<char>, max: nat)
    requires
        max >= 2,
    ensures
        all_nonempty(long_line_state(line, max).0),
        all_within(long_line_state(line, max).0, max),
        spec_utf16_len(long_line_state(line, max).1) <= max,
        concat_all(long_line_state(line, max).0) + long_line_state(line, max).1 == line,
    decreases line.len(),
{
    if line.len() > 0 {
        let (chunks, current) = long_line_state(line.drop_last(), max);
        lemma_long_line_state(line.drop_last(), max);
        let c = line.last();
        assert(line =~= line.drop_last().push(c));
        assert(seq![c].drop_last() =~= Seq::<char>::empty());
        assert(seq![c].last() == c);
        assert(spec_utf16_len(Seq::<char>::empty()) == 0);
        assert(spec_utf16_len(seq![c]) == spec_utf16_char(c));
        assert(current.push(c).drop_last() =~= current);
        assert(spec_utf16_len(current.push(c)) == spec_utf16_len(current) + spec_utf16_char(c));
        if current.len() > 0 && spec_utf16_len(current) + spec_utf16_char(c) > max {
            assert(concat_all(chunks.push(current)) == concat_all(chunks) + current) by {
                assert(chunks.push(current).drop_last() =~= chunks);
            }
            assert(concat_all(chunks.push(current)) + seq![c] =~= line);
        } else {
            if current.len() == 0 {
                assert(spec_utf16_len(current) == 0);
            }
            assert(concat_all(chunks) + current.push(c) =~= line);
        }
    } else {
        assert(concat_all(Seq::<Seq<char>>::empty()) + Seq::<char>::empty() =~= line);
    }
}

proof fn lemma_concat_all_add(a: Seq<Seq<char>>, b: Seq<Seq<char>>)
    ensures
        concat_all(a + b) == concat_all(a) + concat_all(b),
    decreases b.len(),
{
    if b.len() == 0 {
        assert(a + b =~= a);
        assert(concat_all(a) + Seq::<char>::empty() =~= concat_all(a));
    } else {
        assert((a + b).drop_last() =~= a + b.drop_last());
        lemma_concat_all_add(a, b.drop_last());
        assert(concat_all(a + b) =~= concat_all(a) + concat_all(b));
    }
}

proof fn lemma_chunk_state(lines: Seq<Seq<char>>, max: nat)
    requires
        max >= 2,
    ensures
        all_nonempty(chunk_state(lines, max).0),
        all_within(chunk_state(lines, max).0, max),
        spec_utf16_len(chunk_state(lines, max).1) <= max,
    decreases lines.len(),
{
    if lines.len() > 0 {
        lemma_chunk_state(lines.drop_last(), max);
        let (chunks, current) = chunk_state(lines.drop_last(), max);
        let line = lines.last();
        let f = flushed(chunks, current);
        assert(all_nonempty(f) && all_within(f, max));
        if spec_utf16_len(line) > max {
            lemma_long_line_state(line, max);
            let l = long_line_chunks(line, max);
            assert(all_nonempty(l) && all_within(l, max));
            assert(all_nonempty(f + l));
            assert(all_within(f + l, max));
            assert(spec_utf16_len(Seq::<char>::empty()) == 0);
        } else {
            let (chunks1, current1) = if current.len() > 0 && spec_utf16_len(current) + 1
                + spec_utf16_len(line) > max {
                (flushed(chunks, current), Seq::<char>::empty())
            } else {
                (chunks, current)
            };
            if current1.len() > 0 {
                lemma_utf16_len_add(current1.push('\n'), line);
                assert(current1.push('\n').drop_last() =~= current1);
                assert(seq!['\n'].drop_last() =~= Seq::<char>::empty());
                assert(seq!['\n'].last() == '\n');
                assert(without_breaks(seq!['\n']) == without_breaks(Seq::<char>::empty()));
                assert(without_breaks(Seq::<char>::empty()) == Seq::<char>::empty());
            }
        }
    }
}

/// Every chunk holds text, and when the limit admits any single character
/// (two UTF-16 units), no chunk is longer than the limit.
pub proof fn lemma_chunks_fit(text: Seq<char>, max: nat)
    requires
        max >= 2,
    ensures
        all_nonempty(text_chunks(text, max)),
        all_within(text_chunks(text, max), max),
{
    lemma_chunk_state(split_fields(text, '\n'), max);
}

proof fn lemma_split_fields_without_sep(s: Seq<char>, sep: char)
    requires
        !s.contains(sep),
    ensures
        split_fields(s, sep) == seq![s],
    decreases s.len(),
{
    if s.len() > 0 {
        assert(!s.drop_last().contains(sep)) by {
            if s.drop_last().contains(sep) {
                let k = choose|k: int| 0 <= k < s.drop_last().len() && s.drop_last()[k] == sep;
                assert(s[k] == sep);
            }
        }
        lemma_split_fields_without_sep(s.drop_last(), sep);
        assert(s[s.len() - 1] != sep);
        assert(s.drop_last().push(s.last()) =~= s);
        assert(seq![s.drop_last()].update(0, s.drop_last().push(s.last())) =~= seq![s]);
    } else {
        assert(s =~= Seq::<char>::empty());
        assert(seq![Seq::<char>::empty()] =~= seq![s]);
    }
}

/// A single line loses no text: the chunks put back together give the line.
pub proof fn lemma_single_line_chunks_concat(text: Seq<char>, max: nat)
    requires
        max >= 2,
        !text.contains('\n'),
    ensures
        concat_all(text_chunks(text, max)) == text,
{
    lemma_split_fields_without_sep(text, '\n');
    let lines = seq![text];
    assert(lines.drop_last() =~= Seq::<Seq<char>>::empty());
    assert(chunk_state(Seq::<Seq<char>>::empty(), max) == (
        Seq::<Seq<char>>::empty(),
        Seq::<char>::empty(),
    ));
    assert(lines.last() == text);
    assert(chunk_state(lines, max) == chunk_step(
        (Seq::<Seq<char>>::empty(), Seq::<char>::empty()),
        text,
        max,
    ));
    let e = Seq::<Seq<char>>::empty();
    assert(concat_all(e) == Seq::<char>::empty());
    if spec_utf16_len(text) > max {
        lemma_long_line_state(text, max);
        let (chunks, current) = long_line_state(text, max);
        assert(flushed(e, Seq::<char>::empty()) + long_line_chunks(text, max) =~= long_line_chunks(
            text,
            max,
        ));
        if current.len() > 0 {
            assert(chunks.push(current).drop_last() =~= chunks);
        } else {
            assert(concat_all(chunks) + current =~= concat_all(chunks));
        }
    } else {
        if text.len() > 0 {
            assert(e.push(text).drop_last() =~= e);
            assert(concat_all(e.push(text)) =~= text);
        }
    }
}

/// A text without its line feeds.
pub open spec fn without_breaks(s: Seq<char>) -> Seq<char>
    decreases s.len(),
{
    if s.len() == 0 {
        Seq::empty()
    } else if s.last() == '\n' {
        without_breaks(s.drop_last())
    } else {
        without_breaks(s.drop_last()).push(s.last())
    }
}

proof fn lemma_without_breaks_add(a: Seq<char>, b: Seq<char>)
    ensures
        without_breaks(a + b) == without_breaks(a) + without_breaks(b),
    decreases b.len(),
{
    if b.len() == 0 {
        assert(a + b =~= a);
        assert(without_breaks(a) + without_breaks(b) =~= without_breaks(a));
    } else {
        assert((a + b).drop_last() =~= a + b.drop_last());
        lemma_without_breaks_add(a, b.drop_last());
        if b.last() != '\n' {
            assert(without_breaks(a) + without_breaks(b.drop_last()).push(b.last()) =~= (without_breaks(a)
                + without_breaks(b.drop_last())).push(b.last()));
        }
    }
}

proof fn lemma_without_breaks_twice(s: Seq<char>)
    ensures
        without_breaks(without_breaks(s)) == without_breaks(s),
    decreases s.len(),
{
    if s.len() > 0 {
        lemma_without_breaks_twice(s.drop_last());
        if s.last() != '\n' {
            let w = without_breaks(s.drop_last()).push(s.last());
            assert(w.drop_last() =~= without_breaks(s.drop_last()));
        }
    }
}

proof fn lemma_concat_flushed(chunks: Seq<Seq<char>>, current: Seq<char>)
    ensures
        concat_all(flushed(chunks, current)) == concat_all(chunks) + current,
{
    if current.len() > 0 {
        assert(chunks.push(current).drop_last() =~= chunks);
    } else {
        assert(concat_all(chunks) + current =~= concat_all(chunks));
    }
}

proof fn lemma_split_without_breaks(s: Seq<char>)
    ensures
        concat_all(split_fields(s, '\n')) == without_breaks(s),
    decreases s.len(),
{
    if s.len() == 0 {
        let e = seq![Seq::<char>::empty()];
        assert(e.drop_last() =~= Seq::<Seq<char>>::empty());
        assert(concat_all(Seq::<Seq<char>>::empty()) == Seq::<char>::empty());
        assert(e.last() == Seq::<char>::empty());
        assert(concat_all(e) =~= Seq::<char>::empty() + Seq::<char>::empty());
    } else {
        let prev = split_fields(s.drop_last(), '\n');
        lemma_split_without_breaks(s.drop_last());
        lemma_split_fields_len(s.drop_last(), '\n');
        if s.last() == '\n' {
            assert(prev.push(Seq::<char>::empty()).drop_last() =~= prev);
            assert(concat_all(prev) + Seq::<char>::empty() =~= concat_all(prev));
        } else {
            let u = prev.update(prev.len() - 1, prev.last().push(s.last()));
            assert(u.drop_last() =~= prev.drop_last());
            assert(u.last() == prev.last().push(s.last()));
            assert(concat_all(prev) == concat_all(prev.drop_last()) + prev.last());
            assert(concat_all(prev.drop_last()) + prev.last().push(s.last()) =~= (concat_all(prev.drop_last())
                + prev.last()).push(s.last()));
        }
    }
}

proof fn lemma_chunk_state_keeps_text(lines: Seq<Seq<char>>, max: nat)
    requires
        max >= 2,
    ensures
        ({
            let (chunks, current) = chunk_state(lines, max);
            without_breaks(concat_all(flushed(chunks, current))) == without_breaks(concat_all(lines))
        }),
    decreases lines.len(),
{
    if lines.len() > 0 {
        let rest = lines.drop_last();
        let line = lines.last();
        lemma_chunk_state_keeps_text(rest, max);
        let (chunks, current) = chunk_state(rest, max);
        lemma_concat_flushed(chunks, current);
        let before = concat_all(flushed(chunks, current));
        lemma_without_breaks_add(concat_all(rest), line);
        if spec_utf16_len(line) > max {
            lemma_long_line_state(line, max);
            let (lc, lcur) = long_line_state(line, max);
            lemma_concat_flushed(lc, lcur);
            let nc = flushed(chunks, current) + long_line_chunks(line, max);
            lemma_concat_all_add(flushed(chunks, current), long_line_chunks(line, max));
            lemma_concat_flushed(nc, Seq::<char>::empty());
            lemma_without_breaks_add(before, line);
        } else {
            let (chunks1, current1) = if current.len() > 0 && spec_utf16_len(current) + 1 + spec_utf16_len(
                line,
            ) > max {
                (flushed(chunks, current), Seq::<char>::empty())
            } else {
                (chunks, current)
            };
            lemma_concat_flushed(chunks1, current1);
            lemma_concat_flushed(flushed(chunks, current), Seq::<char>::empty());
            assert(concat_all(chunks1) + current1 == before);
            if current1.len() > 0 {
                let nc = current1.push('\n') + line;
                lemma_concat_flushed(chunks1, nc);
                assert(concat_all(chunks1) + nc =~= (before + seq!['\n']) + line);
                lemma_without_breaks_add(before + seq!['\n'], line);
                lemma_without_breaks_add(before, seq!['\n']);
                assert(seq!['\n'].drop_last() =~= Seq::<char>::empty());
                assert(seq!['\n'].last() == '\n');
                assert(without_breaks(seq!['\n']) == without_breaks(Seq::<char>::empty()));
                assert(without_breaks(Seq::<char>::empty()) == Seq::<char>::empty());
                assert(without_breaks(before) + without_breaks(seq!['\n']) =~= without_breaks(before));
            } else {
                lemma_concat_flushed(chunks1, line);
                lemma_without_breaks_add(before, line);
            }
        }
    }
}

/// No text is lost in chunking: the chunks put back together hold every
/// character of the text other than its line feeds, in order.
pub proof fn lemma_chunks_keep_text(text: Seq<char>, max: nat)
    requires
        max >= 2,
    ensures
        without_breaks(concat_all(text_chunks(text, max))) == without_breaks(text),
{
    let lines = split_fields(text, '\n');
    lemma_chunk_state_keeps_text(lines, max);
    lemma_split_without_breaks(text);
    lemma_without_breaks_twice(text);
}

proof fn lemma_join_extend_last(p: Seq<Seq<char>>, c: char)
    requires
        p.len() >= 1,
    ensures
        crate::text::spec_join(p.update(p.len() - 1, p.last().push(c)), seq!['\n']) == crate::text::spec_join(
            p,
            seq!['\n'],
        ).push(c),
{
    let u = p.update(p.len() - 1, p.last().push(c));
    if p.len() > 1 {
        assert(u.drop_last() =~= p.drop_last());
        assert(crate::text::spec_join(u.drop_last(), seq!['\n']) + seq!['\n'] + p.last().push(c) =~= (
        crate::text::spec_join(p.drop_last(), seq!['\n']) + seq!['\n'] + p.last()).push(c));
    }
}

proof fn lemma_join_split(s: Seq<char>)
    ensures
        crate::text::spec_join(split_fields(s, '\n'), seq!['\n']) == s,
    decreases s.len(),
{
    if s.len() == 0 {
        assert(seq![Seq::<char>::empty()].len() == 1);
    } else {
        let prev = split_fields(s.drop_last(), '\n');
        lemma_join_split(s.drop_last());
        lemma_split_fields_len(s.drop_last(), '\n');
        if s.last() == '\n' {
            let q = prev.push(Seq::<char>::empty());
            assert(q.drop_last() =~= prev);
            assert(crate::text::spec_join(prev, seq!['\n']) + seq!['\n'] + Seq::<char>::empty() =~= s);
        } else {
            lemma_join_extend_last(prev, s.last());
            assert(s.drop_last().push(s.last()) =~= s);
        }
    }
}

/// Every line of a text is non-empty and fits in a chunk.
pub open spec fn lines_fit(text: Seq<char>, max: nat) -> bool {
    forall|j: int|
        0 <= j < split_fields(text, '\n').len() ==> {
            let l = #[trigger] split_fields(text, '\n')[j];
            l.len() > 0 && spec_utf16_len(l) <= max
        }
}

proof fn lemma_chunk_state_join(lines: Seq<Seq<char>>, k: int, max: nat)
    requires
        1 <= k <= lines.len(),
        forall|j: int| 0 <= j < lines.len() ==> (#[trigger] lines[j]).len() > 0 && spec_utf16_len(lines[j]) <= max,
    ensures
        chunk_state(lines.take(k), max).1.len() > 0,
        crate::text::spec_join(chunk_state(lines.take(k), max).0.push(chunk_state(lines.take(k), max).1), seq!['\n'])
            == crate::text::spec_join(lines.take(k), seq!['\n']),
    decreases k,
{
    let t = lines.take(k);
    assert(t.last() == lines[k - 1]);
    let l = lines[k - 1];
    if k == 1 {
        assert(t.drop_last() =~= Seq::<Seq<char>>::empty());
        let e = Seq::<Seq<char>>::empty();
        assert(e.push(l).len() == 1);
        assert(t =~= seq![l]);
        assert(chunk_state(t, max) == chunk_step(chunk_state(t.drop_last(), max), l, max));
        assert(chunk_state(e, max) == (e, Seq::<char>::empty()));
        assert(chunk_state(t, max) == (e, l));
        assert(e.push(l) =~= seq![l]);
    } else {
        assert(t.drop_last() =~= lines.take(k - 1));
        lemma_chunk_state_join(lines, k - 1, max);
        let (c, cur) = chunk_state(lines.take(k - 1), max);
        let sep = seq!['\n'];
        assert(chunk_state(t, max) == chunk_step(chunk_state(lines.take(k - 1), max), l, max));
        assert(!(spec_utf16_len(l) > max));
        assert(crate::text::spec_join(t, sep) == crate::text::spec_join(lines.take(k - 1), sep) + sep + l);
        if spec_utf16_len(cur) + 1 + spec_utf16_len(l) > max {
            let c1 = c.push(cur);
            assert(flushed(c, cur) == c1);
            assert(chunk_state(t, max) == (c1, l));
            assert(c1.push(l).drop_last() =~= c1);
        } else {
            let z = cur.push('\n') + l;
            assert(chunk_state(t, max) == (c, z));
            if c.len() == 0 {
                assert(c.push(z) =~= seq![z]);
                assert(c.push(cur) =~= seq![cur]);
                assert(z =~= cur + sep + l);
            } else {
                assert(c.push(z).drop_last() =~= c);
                assert(c.push(cur).drop_last() =~= c);
                assert(crate::text::spec_join(c, sep) + sep + z =~= crate::text::spec_join(c, sep) + sep + cur + sep + l);
            }
        }
    }
}

/// When every line of a text is non-empty and fits in a chunk, the chunks
/// joined with line feeds give the text back. (An empty line can be lost at
/// the start of a chunk, so the law leaves such texts out.)
pub proof fn lemma_chunks_join_to_text(text: Seq<char>, max: nat)
    requires
        lines_fit(text, max),
    ensures
        crate::text::spec_join(text_chunks(text, max), seq!['\n']) == text,
{
    let lines = split_fields(text, '\n');
    lemma_split_fields_len(text, '\n');
    assert forall|j: int| 0 <= j < lines.len() implies (#[trigger] lines[j]).len() > 0 && spec_utf16_len(lines[j]) <= max by {
        assert(lines[j] == split_fields(text, '\n')[j]);
    }
    lemma_chunk_state_join(lines, lines.len() as int, max);
    assert(lines.take(lines.len() as int) =~= lines);
    lemma_join_split(text);
}

} // verus!
