//! Remote data shared by the unit and enemy commands: which asset paths may
//! be fetched, the URL and attachment for one, and whether a cached text
//! resource is used, refreshed or kept stale. The requests themselves are made
//! by the caller.
use vstd::prelude::*;

use crate::text::{
    append, append_str, chars_of, ends_with, eq, spec_ends_with, spec_is_alnum, split_char,
    split_fields, string_of, to_lower, lower_seq, views,
};

verus! {

/// `char::is_control`: the control characters, U+0000 to U+001F and U+007F
/// to U+009F.
pub open spec fn spec_is_control(c: char) -> bool {
    c <= '\u{1f}' || ('\u{7f}' <= c && c <= '\u{9f}')
}

/// A path segment: not empty, not `.` or `..`, and made of ASCII letters,
/// digits, `.`, `_` and `-`.
pub open spec fn segment_ok(seg: Seq<char>) -> bool {
    &&& seg.len() > 0
    &&& seg != seq!['.']
    &&& seg != seq!['.', '.']
    &&& forall|i: int|
        0 <= i < seg.len() ==> spec_is_alnum(#[trigger] seg[i]) || seg[i] == '.' || seg[i] == '_'
            || seg[i] == '-'
}

/// The asset kinds that may be fetched, by extension (ASCII case ignored).
pub open spec fn asset_extension_ok(value: Seq<char>) -> bool {
    let l = lower_seq(value);
    ||| spec_ends_with(l, ".png"@)
    ||| spec_ends_with(l, ".imgcut"@)
    ||| spec_ends_with(l, ".mamodel"@)
    ||| spec_ends_with(l, ".maanim"@)
}

/// A relative asset path that may be fetched: not empty, not absolute, with
/// no backslash, no `?`, `#` or `%`, no control character, only well-formed
/// segments, and a known asset extension.
pub open spec fn spec_safe_asset_path(value: Seq<char>) -> bool {
    &&& value.len() > 0
    &&& value[0] != '/'
    &&& forall|i: int|
        0 <= i < value.len() ==> {
            let c = #[trigger] value[i];
            c != '\\' && c != '?' && c != '#' && c != '%' && !spec_is_control(c)
        }
    &&& forall|j: int|
        0 <= j < split_fields(value, '/').len() ==> segment_ok(
            #[trigger] split_fields(value, '/')[j],
        )
    &&& asset_extension_ok(value)
}

fn is_control(c: char) -> (r: bool)
    ensures
        r == spec_is_control(c),
{
    c <= '\u{1f}' || ('\u{7f}' <= c && c <= '\u{9f}')
}

fn segment_valid(seg: &[char]) -> (r: bool)
    ensures
        r == segment_ok(seg@),
{
    if seg.len() == 0 {
        return false;
    }
    if seg.len() == 1 && seg[0] == '.' {
        assert(seg@ =~= seq!['.']);
        return false;
    }
    if seg.len() == 2 && seg[0] == '.' && seg[1] == '.' {
        assert(seg@ =~= seq!['.', '.']);
        return false;
    }
    let mut i: usize = 0;
    while i < seg.len()
        invariant
            i <= seg@.len(),
            forall|k: int|
                0 <= k < i ==> spec_is_alnum(#[trigger] seg@[k]) || seg@[k] == '.' || seg@[k] == '_'
                    || seg@[k] == '-',
        decreases seg@.len() - i,
    {
        let c = seg[i];
        if !(crate::text::is_alnum(c) || c == '.' || c == '_' || c == '-') {
            return false;
        }
        i += 1;
    }
    true
}

fn has_extension(value: &[char]) -> (r: bool)
    ensures
        r == asset_extension_ok(value@),
{
    let l = to_lower(value);
    let png = chars_of(".png");
    let imgcut = chars_of(".imgcut");
    let mamodel = chars_of(".mamodel");
    let maanim = chars_of(".maanim");
    ends_with(l.as_slice(), png.as_slice()) || ends_with(l.as_slice(), imgcut.as_slice())
        || ends_with(l.as_slice(), mamodel.as_slice()) || ends_with(l.as_slice(), maanim.as_slice())
}

/// Whether a relative asset path may be fetched.
pub fn is_safe_asset_path(value: &str) -> (r: bool)
    ensures
        r == spec_safe_asset_path(value@),
{
    let v = chars_of(value);
    if v.len() == 0 || v[0] == '/' {
        return false;
    }
    let mut i: usize = 0;
    while i < v.len()
        invariant
            i <= v@.len(),
            v@ == value@,
            forall|k: int|
                0 <= k < i ==> {
                    let c = #[trigger] v@[k];
                    c != '\\' && c != '?' && c != '#' && c != '%' && !spec_is_control(c)
                },
        decreases v@.len() - i,
    {
        let c = v[i];
        if c == '\\' || c == '?' || c == '#' || c == '%' || is_control(c) {
            assert(v@[i as int] == c);
            assert(value@[i as int] == c);
            return false;
        }
        i += 1;
    }
    let segs = split_char(v.as_slice(), '/');
    let ghost sv = views(segs@);
    let mut j: usize = 0;
    while j < segs.len()
        invariant
            j <= segs@.len(),
            v@ == value@,
            sv == views(segs@),
            sv == split_fields(v@, '/'),
            forall|k: int| 0 <= k < j ==> segment_ok(#[trigger] sv[k]),
        decreases segs@.len() - j,
    {
        assert(sv[j as int] == segs@[j as int]@);
        if !segment_valid(segs[j].as_slice()) {
            assert(split_fields(value@, '/')[j as int] == sv[j as int]);
            assert(!segment_ok(split_fields(value@, '/')[j as int]));
            return false;
        }
        j += 1;
    }
    has_extension(v.as_slice())
}

/// `text` with every trailing `c` removed.
pub open spec fn trim_end_char(s: Seq<char>, c: char) -> Seq<char>
    decreases s.len(),
{
    if s.len() > 0 && s.last() == c {
        trim_end_char(s.drop_last(), c)
    } else {
        s
    }
}

/// The URL of an asset under a base URL, or `None` for a path that may not
/// be fetched.
pub open spec fn spec_asset_url(base_url: Seq<char>, relative_path: Seq<char>) -> Option<Seq<char>> {
    if spec_safe_asset_path(relative_path) {
        Some(trim_end_char(base_url, '/') + seq!['/'] + relative_path)
    } else {
        None
    }
}

pub fn asset_url(base_url: &str, relative_path: &str) -> (r: Option<String>)
    ensures
        match r {
            Some(u) => spec_asset_url(base_url@, relative_path@) == Some(u@),
            None => spec_asset_url(base_url@, relative_path@) is None,
        },
{
    if !is_safe_asset_path(relative_path) {
        return None;
    }
    let b = chars_of(base_url);
    let mut end: usize = b.len();
    assert(b@.take(end as int) =~= b@);
    while end > 0 && b[end - 1] == '/'
        invariant
            end <= b@.len(),
            trim_end_char(b@, '/') == trim_end_char(b@.take(end as int), '/'),
        decreases end,
    {
        assert(b@.take(end as int).drop_last() =~= b@.take(end - 1));
        end -= 1;
    }
    assert(trim_end_char(b@.take(end as int), '/') == b@.take(end as int));
    let mut u = crate::text::slice(b.as_slice(), 0, end);
    u.push('/');
    append_str(&mut u, relative_path);
    assert(u@ =~= trim_end_char(base_url@, '/') + seq!['/'] + relative_path@);
    Some(string_of(u.as_slice()))
}

/// The part of a path after its last `/`.
pub open spec fn last_segment(s: Seq<char>) -> Seq<char>
    decreases s.len(),
{
    if s.len() == 0 || s.last() == '/' {
        Seq::empty()
    } else {
        last_segment(s.drop_last()).push(s.last())
    }
}

/// The file name an asset is sent under: its last path segment, or
/// `asset.bin` where that is empty.
pub open spec fn spec_attachment_file_name(path: Seq<char>) -> Seq<char> {
    if last_segment(path).len() > 0 {
        last_segment(path)
    } else {
        "asset.bin"@
    }
}

pub fn attachment_file_name(path: &str) -> (r: String)
    ensures
        r@ == spec_attachment_file_name(path@),
{
    let p = chars_of(path);
    let mut start: usize = p.len();
    assert(p@.take(start as int) =~= p@);
    assert(p@.skip(start as int) =~= Seq::<char>::empty());
    assert(p@ + Seq::<char>::empty() =~= p@);
    while start > 0 && p[start - 1] != '/'
        invariant
            start <= p@.len(),
            last_segment(p@) == last_segment(p@.take(start as int)) + p@.skip(start as int),
        decreases start,
    {
        assert(p@.take(start as int).drop_last() =~= p@.take(start - 1));
        assert(p@.skip(start - 1) =~= seq![p@[start - 1]] + p@.skip(start as int));
        assert(last_segment(p@.take(start as int)) =~= last_segment(p@.take(start - 1)).push(
            p@[start - 1],
        ));
        assert(last_segment(p@.take(start - 1)) + p@.skip(start - 1) =~= last_segment(
            p@.take(start - 1),
        ).push(p@[start - 1]) + p@.skip(start as int));
        start -= 1;
    }
    assert(last_segment(p@.take(start as int)) =~= Seq::<char>::empty());
    let name = crate::text::slice(p.as_slice(), start, p.len());
    assert(name@ =~= p@.skip(start as int));
    if name.len() > 0 {
        string_of(name.as_slice())
    } else {
        proof {
            reveal_strlit("asset.bin");
        }
        "asset.bin".to_string()
    }
}

/// A PNG asset is sent as `image/png`; other assets without a content type.
pub open spec fn spec_attachment_content_type(path: Seq<char>) -> Option<Seq<char>> {
    if spec_ends_with(lower_seq(path), ".png"@) {
        Some("image/png"@)
    } else {
        None
    }
}

pub fn attachment_content_type(path: &str) -> (r: Option<String>)
    ensures
        crate::protocol::opt_view(r) == spec_attachment_content_type(path@),
{
    let l = to_lower(chars_of(path).as_slice());
    let png = chars_of(".png");
    if ends_with(l.as_slice(), png.as_slice()) {
        proof {
            reveal_strlit("image/png");
        }
        Some("image/png".to_string())
    } else {
        None
    }
}

/// A cached resource is used as it is while it was validated less than its
/// lifetime ago; otherwise it is requested again.
pub fn snapshot_fresh(has_snapshot: bool, elapsed_nanos: u128, ttl_nanos: u128) -> (r: bool)
    ensures
        r == (has_snapshot && elapsed_nanos < ttl_nanos),
{
    has_snapshot && elapsed_nanos < ttl_nanos
}

/// What a conditional request for a cached text resource brought.
pub enum ResourceResponse {
    /// `304`, with the validators the server sent again.
    NotModified { etag: Option<String>, last_modified: Option<String> },
    /// A new text that was parsed, with its validators.
    Parsed { etag: Option<String>, last_modified: Option<String> },
    /// A new text that could not be parsed, with the parser's reason.
    ParseFailed(String),
    /// The request failed, with its reason.
    RequestFailed(String),
}

/// What becomes of the cached resource.
pub enum FetchDecision {
    /// The snapshot stays and counts as validated now, with these validators.
    Revalidated { etag: Option<String>, last_modified: Option<String> },
    /// The parsed text replaces the snapshot, with its validators.
    Replaced { etag: Option<String>, last_modified: Option<String> },
    /// The refresh failed and the old snapshot is used.
    Stale { reason: String },
    /// The refresh failed and there is nothing to fall back on.
    Failed { reason: String },
}

pub const NOT_MODIFIED_WITHOUT_SNAPSHOT: &'static str = "304 response was received without a snapshot";

pub open spec fn keep_validator(old: Option<String>, new: Option<String>) -> Option<Seq<char>> {
    match new {
        Some(v) => Some(v@),
        None => crate::protocol::opt_view(old),
    }
}

/// The failure of a refresh falls back on the snapshot where there is one.
pub open spec fn failure_outcome(has_snapshot: bool, reason: Seq<char>, r: FetchDecision) -> bool {
    if has_snapshot {
        r matches FetchDecision::Stale { reason: x } && x@ == reason
    } else {
        r matches FetchDecision::Failed { reason: x } && x@ == reason
    }
}

fn pick_validator(old: Option<String>, new: Option<String>) -> (r: Option<String>)
    ensures
        crate::protocol::opt_view(r) == keep_validator(old, new),
{
    match new {
        Some(v) => Some(v),
        None => old,
    }
}

/// Decides what a refresh of a cached resource does, from the snapshot's
/// validators (where there is a snapshot) and the response.
pub fn fetch_decision(
    snapshot: Option<(Option<String>, Option<String>)>,
    response: ResourceResponse,
) -> (r: FetchDecision)
    ensures
        match response {
            ResourceResponse::NotModified { etag, last_modified } => match snapshot {
                Some((old_etag, old_modified)) => r matches FetchDecision::Revalidated {
                    etag: e,
                    last_modified: m,
                } && crate::protocol::opt_view(e) == keep_validator(old_etag, etag)
                    && crate::protocol::opt_view(m) == keep_validator(old_modified, last_modified),
                None => failure_outcome(false, NOT_MODIFIED_WITHOUT_SNAPSHOT@, r),
            },
            ResourceResponse::Parsed { etag, last_modified } => r matches FetchDecision::Replaced {
                etag: e,
                last_modified: m,
            } && crate::protocol::opt_view(e) == crate::protocol::opt_view(etag)
                && crate::protocol::opt_view(m) == crate::protocol::opt_view(last_modified),
            ResourceResponse::ParseFailed(reason) => failure_outcome(snapshot is Some, reason@, r),
            ResourceResponse::RequestFailed(reason) => failure_outcome(snapshot is Some, reason@, r),
        },
{
    let has = snapshot.is_some();
    match response {
        ResourceResponse::NotModified { etag, last_modified } => match snapshot {
            Some((old_etag, old_modified)) => FetchDecision::Revalidated {
                etag: pick_validator(old_etag, etag),
                last_modified: pick_validator(old_modified, last_modified),
            },
            None => FetchDecision::Failed { reason: NOT_MODIFIED_WITHOUT_SNAPSHOT.to_string() },
        },
        ResourceResponse::Parsed { etag, last_modified } => FetchDecision::Replaced {
            etag,
            last_modified,
        },
        ResourceResponse::ParseFailed(reason) | ResourceResponse::RequestFailed(reason) => {
            if has {
                FetchDecision::Stale { reason }
            } else {
                FetchDecision::Failed { reason }
            }
        },
    }
}

} // verus!
