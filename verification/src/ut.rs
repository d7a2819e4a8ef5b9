//! Arguments of the `ut` command and the asset paths of unit forms.
use vstd::prelude::*;

use crate::motion_request::{
    parse_motion_arguments, spec_parse_motion, str_views, MotionRequest, MotionRequestView,
};
use crate::text::{
    append, append_str, chars_of, chars_of_all, eq_ignore_case, eq_str, join_str, lower_seq,
    parse_usize, parse_usize_spec, skip_args, spec_join, spec_trim, string_of, string_views,
    to_lower, trim, views,
};

verus! {

#[derive(Clone, Copy, Debug, PartialEq, Eq, Structural)]
pub enum UtForm {
    First,
    Second,
    Third,
    Fourth,
}

pub open spec fn spec_form(value: Seq<char>) -> Option<UtForm> {
    let l = lower_seq(value);
    if l == "f"@ {
        Some(UtForm::First)
    } else if l == "c"@ {
        Some(UtForm::Second)
    } else if l == "s"@ {
        Some(UtForm::Third)
    } else if l == "u"@ {
        Some(UtForm::Fourth)
    } else {
        None
    }
}

pub open spec fn spec_suffix(form: UtForm) -> Seq<char> {
    match form {
        UtForm::First => "f"@,
        UtForm::Second => "c"@,
        UtForm::Third => "s"@,
        UtForm::Fourth => "u"@,
    }
}

impl UtForm {
    pub fn parse(value: &[char]) -> (r: Option<UtForm>)
        ensures
            r == spec_form(value@),
    {
        let l = to_lower(value);
        if eq_str(l.as_slice(), "f") {
            Some(UtForm::First)
        } else if eq_str(l.as_slice(), "c") {
            Some(UtForm::Second)
        } else if eq_str(l.as_slice(), "s") {
            Some(UtForm::Third)
        } else if eq_str(l.as_slice(), "u") {
            Some(UtForm::Fourth)
        } else {
            None
        }
    }

    /// The letter of the form in asset names.
    pub fn suffix(self) -> (r: &'static str)
        ensures
            r@ == spec_suffix(self),
    {
        match self {
            UtForm::First => "f",
            UtForm::Second => "c",
            UtForm::Third => "s",
            UtForm::Fourth => "u",
        }
    }

    pub fn label(self) -> (r: &'static str)
        ensures
            r@ == match self {
                UtForm::First => "第一形態"@,
                UtForm::Second => "第二形態"@,
                UtForm::Third => "第三形態"@,
                UtForm::Fourth => "第四形態"@,
            },
    {
        match self {
            UtForm::First => "第一形態",
            UtForm::Second => "第二形態",
            UtForm::Third => "第三形態",
            UtForm::Fourth => "第四形態",
        }
    }
}

/// The suffix of a form is read back as that form.
pub proof fn lemma_suffix_round_trip(form: UtForm)
    ensures
        spec_form(spec_suffix(form)) == Some(form),
{
    reveal_strlit("f");
    reveal_strlit("c");
    reveal_strlit("s");
    reveal_strlit("u");
    assert(lower_seq("f"@) =~= "f"@);
    assert(lower_seq("c"@) =~= "c"@);
    assert(lower_seq("s"@) =~= "s"@);
    assert(lower_seq("u"@) =~= "u"@);
    assert("f"@[0] != "c"@[0] && "f"@[0] != "s"@[0] && "f"@[0] != "u"@[0]);
    assert("c"@[0] != "s"@[0] && "c"@[0] != "u"@[0] && "s"@[0] != "u"@[0]);
}

#[derive(Clone, Copy, Debug, PartialEq, Eq, Structural)]
pub enum OriginFamily {
    Icon,
    Wide,
    Gacha,
    Sprite,
}

#[derive(Clone, Copy, Debug, PartialEq, Eq, Structural)]
pub enum OriginVariant {
    Form(UtForm),
    GachaMiddle,
    GachaThird,
}

#[derive(Clone, Copy, Debug, PartialEq, Eq, Structural)]
pub struct OriginRequest {
    pub family: OriginFamily,
    pub variant: OriginVariant,
}

#[derive(Clone, Copy, Debug, PartialEq, Eq, Structural)]
pub struct FileRequest {
    pub form: Option<UtForm>,
}

#[derive(Debug)]
pub enum UtOperation {
    Detail,
    Origin(OriginRequest),
    File(FileRequest),
    Motion(MotionRequest),
}

#[derive(Debug)]
pub enum UtRequest {
    Landing,
    InvalidOrigin,
    InvalidFile,
    InvalidMotion,
    Search { query: String, force: bool, operation: UtOperation },
}

pub enum UtOperationView {
    Detail,
    Origin(OriginRequest),
    File(FileRequest),
    Motion(MotionRequestView),
}

pub enum UtRequestView {
    Landing,
    InvalidOrigin,
    InvalidFile,
    InvalidMotion,
    Search { query: Seq<char>, force: bool, operation: UtOperationView },
}

impl View for UtOperation {
    type V = UtOperationView;

    open spec fn view(&self) -> UtOperationView {
        match self {
            UtOperation::Detail => UtOperationView::Detail,
            UtOperation::Origin(o) => UtOperationView::Origin(*o),
            UtOperation::File(f) => UtOperationView::File(*f),
            UtOperation::Motion(m) => UtOperationView::Motion(m@),
        }
    }
}

impl View for UtRequest {
    type V = UtRequestView;

    open spec fn view(&self) -> UtRequestView {
        match self {
            UtRequest::Landing => UtRequestView::Landing,
            UtRequest::InvalidOrigin => UtRequestView::InvalidOrigin,
            UtRequest::InvalidFile => UtRequestView::InvalidFile,
            UtRequest::InvalidMotion => UtRequestView::InvalidMotion,
            UtRequest::Search { query, force, operation } => UtRequestView::Search {
                query: query@,
                force: *force,
                operation: operation@,
            },
        }
    }
}

// ---------------------------------------------------------------------------
// Origin images
// ---------------------------------------------------------------------------

/// `[form]` for the icon of a form, or a family (`icon`, `wide`, `sprite`
/// with an optional form; `gacha` with an optional `m` or `z`).
pub open spec fn spec_origin(args: Seq<Seq<char>>) -> Option<OriginRequest> {
    let values = args.map_values(|a: Seq<char>| lower_seq(a));
    if values.len() == 0 {
        Some(OriginRequest { family: OriginFamily::Icon, variant: OriginVariant::Form(UtForm::First) })
    } else if values.len() == 1 && spec_form(values[0]) is Some {
        Some(OriginRequest { family: OriginFamily::Icon, variant: OriginVariant::Form(spec_form(values[0]).unwrap()) })
    } else {
        let family = if values[0] == "icon"@ {
            Some(OriginFamily::Icon)
        } else if values[0] == "wide"@ {
            Some(OriginFamily::Wide)
        } else if values[0] == "sprite"@ {
            Some(OriginFamily::Sprite)
        } else if values[0] == "gacha"@ {
            Some(OriginFamily::Gacha)
        } else {
            None
        };
        match family {
            None => None,
            Some(OriginFamily::Gacha) => if values.len() == 1 {
                Some(OriginRequest { family: OriginFamily::Gacha, variant: OriginVariant::Form(UtForm::First) })
            } else if values.len() == 2 && values[1] == "m"@ {
                Some(OriginRequest { family: OriginFamily::Gacha, variant: OriginVariant::GachaMiddle })
            } else if values.len() == 2 && values[1] == "z"@ {
                Some(OriginRequest { family: OriginFamily::Gacha, variant: OriginVariant::GachaThird })
            } else {
                None
            },
            Some(f) => if values.len() == 1 {
                Some(OriginRequest { family: f, variant: OriginVariant::Form(UtForm::First) })
            } else if values.len() == 2 {
                match spec_form(values[1]) {
                    Some(form) => Some(OriginRequest { family: f, variant: OriginVariant::Form(form) }),
                    None => None,
                }
            } else {
                None
            },
        }
    }
}

pub fn parse_origin(arguments: &[Vec<char>]) -> (r: Option<OriginRequest>)
    ensures
        r == spec_origin(views(arguments@)),
{
    let ghost values = views(arguments@).map_values(|a: Seq<char>| lower_seq(a));
    if arguments.len() == 0 {
        return Some(OriginRequest { family: OriginFamily::Icon, variant: OriginVariant::Form(UtForm::First) });
    }
    let first = to_lower(arguments[0].as_slice());
    assert(first@ == values[0]);
    assert(lower_seq(first@) =~= first@) by {
        assert forall|i: int| 0 <= i < first@.len() implies #[trigger] crate::text::spec_lower(first@[i]) == first@[i] by {}
    }
    if arguments.len() == 1 {
        if let Some(form) = UtForm::parse(first.as_slice()) {
            return Some(OriginRequest { family: OriginFamily::Icon, variant: OriginVariant::Form(form) });
        }
    }
    let family = if eq_str(first.as_slice(), "icon") {
        OriginFamily::Icon
    } else if eq_str(first.as_slice(), "wide") {
        OriginFamily::Wide
    } else if eq_str(first.as_slice(), "sprite") {
        OriginFamily::Sprite
    } else if eq_str(first.as_slice(), "gacha") {
        OriginFamily::Gacha
    } else {
        return None;
    };
    let second = if arguments.len() == 2 {
        let s = to_lower(arguments[1].as_slice());
        assert(s@ == values[1]);
        s
    } else {
        Vec::new()
    };
    if family == OriginFamily::Gacha {
        if arguments.len() == 1 {
            return Some(OriginRequest { family, variant: OriginVariant::Form(UtForm::First) });
        }
        if arguments.len() == 2 && eq_str(second.as_slice(), "m") {
            return Some(OriginRequest { family, variant: OriginVariant::GachaMiddle });
        }
        if arguments.len() == 2 && eq_str(second.as_slice(), "z") {
            return Some(OriginRequest { family, variant: OriginVariant::GachaThird });
        }
        return None;
    }
    if arguments.len() == 1 {
        return Some(OriginRequest { family, variant: OriginVariant::Form(UtForm::First) });
    }
    if arguments.len() == 2 {
        assert(lower_seq(second@) =~= second@) by {
            assert forall|i: int| 0 <= i < second@.len() implies #[trigger] crate::text::spec_lower(second@[i]) == second@[i] by {}
        }
        return match UtForm::parse(second.as_slice()) {
            Some(form) => Some(OriginRequest { family, variant: OriginVariant::Form(form) }),
            None => None,
        };
    }
    None
}

// ---------------------------------------------------------------------------
// Requests
// ---------------------------------------------------------------------------

/// Position of the first argument that is `word` in any case.
pub open spec fn word_index(args: Seq<Seq<char>>, word: Seq<char>) -> Option<int>
    decreases args.len(),
{
    if args.len() == 0 {
        None
    } else if lower_seq(args[0]) == word {
        Some(0)
    } else {
        match word_index(args.drop_first(), word) {
            Some(i) => Some(i + 1),
            None => None,
        }
    }
}

pub open spec fn count_some(a: Option<int>, b: Option<int>, c: Option<int>) -> int {
    (if a is Some { 1int } else { 0int }) + (if b is Some { 1int } else { 0int }) + (if c is Some { 1int } else { 0int })
}

/// The smallest of the positions that are present.
pub open spec fn first_present(a: Option<int>, b: Option<int>, c: Option<int>) -> Option<int> {
    let ab = match (a, b) {
        (Some(x), Some(y)) => Some(if x <= y { x } else { y }),
        (Some(x), None) => Some(x),
        (None, y) => y,
    };
    match (ab, c) {
        (Some(x), Some(y)) => Some(if x <= y { x } else { y }),
        (Some(x), None) => Some(x),
        (None, y) => y,
    }
}

pub open spec fn is_force(a: Seq<char>) -> bool {
    lower_seq(a) == lower_seq("-f"@)
}

/// The words of a search, `-f` left out.
pub open spec fn query_words(args: Seq<Seq<char>>) -> Seq<Seq<char>> {
    args.filter(|a: Seq<char>| !is_force(a))
}

pub open spec fn has_force(args: Seq<Seq<char>>) -> bool {
    exists|i: int| 0 <= i < args.len() && is_force(#[trigger] args[i])
}

/// The request that the arguments of `ut` spell: a search by name or id,
/// forced by `-f`, and at most one of `origin`, `file` and `motion` with
/// their own arguments after it.
pub open spec fn spec_request(args: Seq<Seq<char>>) -> UtRequestView {
    if args.len() == 0 {
        UtRequestView::Landing
    } else {
        let o = word_index(args, "origin"@);
        let f = word_index(args, "file"@);
        let m = word_index(args, "motion"@);
        if count_some(o, f, m) > 1 {
            let first = first_present(o, f, m);
            if first == f {
                UtRequestView::InvalidFile
            } else if first == m {
                UtRequestView::InvalidMotion
            } else {
                UtRequestView::InvalidOrigin
            }
        } else {
            let op = first_present(o, f, m);
            let query_args = match op {
                Some(i) => args.take(i),
                None => args,
            };
            let force = has_force(query_args);
            let query = spec_trim(spec_join(query_words(query_args), " "@));
            match op {
                None => UtRequestView::Search { query, force, operation: UtOperationView::Detail },
                Some(i) => if query.len() == 0 {
                    if op == f {
                        UtRequestView::InvalidFile
                    } else if op == m {
                        UtRequestView::InvalidMotion
                    } else {
                        UtRequestView::InvalidOrigin
                    }
                } else if op == m {
                    match spec_parse_motion(args.skip(i + 1), seq!["f"@, "c"@, "s"@, "u"@]) {
                        Some(req) => UtRequestView::Search { query, force, operation: UtOperationView::Motion(req) },
                        None => UtRequestView::InvalidMotion,
                    }
                } else if op == f {
                    let rest = args.skip(i + 1);
                    if rest.len() == 0 {
                        UtRequestView::Search { query, force, operation: UtOperationView::File(FileRequest { form: None }) }
                    } else if rest.len() == 1 && spec_form(rest[0]) is Some {
                        UtRequestView::Search { query, force, operation: UtOperationView::File(FileRequest { form: spec_form(rest[0]) }) }
                    } else {
                        UtRequestView::InvalidFile
                    }
                } else {
                    match spec_origin(args.skip(i + 1)) {
                        Some(req) => UtRequestView::Search { query, force, operation: UtOperationView::Origin(req) },
                        None => UtRequestView::InvalidOrigin,
                    }
                },
            }
        }
    }
}

proof fn lemma_word_index(args: Seq<Seq<char>>, word: Seq<char>)
    ensures
        match word_index(args, word) {
            Some(i) => 0 <= i < args.len() && lower_seq(args[i]) == word && forall|j: int|
                0 <= j < i ==> lower_seq(#[trigger] args[j]) != word,
            None => forall|j: int| 0 <= j < args.len() ==> lower_seq(#[trigger] args[j]) != word,
        },
    decreases args.len(),
{
    if args.len() > 0 {
        lemma_word_index(args.drop_first(), word);
        if lower_seq(args[0]) != word {
            assert forall|j: int| 0 < j < args.len() implies args[j] == args.drop_first()[j - 1] by {}
        }
    }
}

proof fn lemma_word_index_at(args: Seq<Seq<char>>, word: Seq<char>, k: int)
    requires
        0 <= k <= args.len(),
        forall|j: int| 0 <= j < k ==> lower_seq(#[trigger] args[j]) != word,
        k == args.len() || lower_seq(args[k]) == word,
    ensures
        word_index(args, word) == (if k == args.len() {
            None
        } else {
            Some(k)
        }),
    decreases k,
{
    if k > 0 {
        assert forall|j: int| 0 <= j < k - 1 implies lower_seq(#[trigger] args.drop_first()[j]) != word by {
            assert(args.drop_first()[j] == args[j + 1]);
        }
        lemma_word_index_at(args.drop_first(), word, k - 1);
    }
}

/// Position of the first argument that is a word, in any case.
fn find_word(args: &Vec<Vec<char>>, word: &str) -> (r: Option<usize>)
    ensures
        match r {
            Some(i) => word_index(views(args@), word@) == Some(i as int),
            None => word_index(views(args@), word@) is None,
        },
{
    let mut k: usize = 0;
    while k < args.len()
        invariant
            k <= args@.len(),
            forall|j: int| 0 <= j < k ==> lower_seq(#[trigger] views(args@)[j]) != word@,
        decreases args@.len() - k,
    {
        let l = to_lower(args[k].as_slice());
        if eq_str(l.as_slice(), word) {
            proof {
                lemma_word_index_at(views(args@), word@, k as int);
            }
            return Some(k);
        }
        k += 1;
    }
    proof {
        lemma_word_index_at(views(args@), word@, k as int);
    }
    None
}

fn min_present(a: Option<usize>, b: Option<usize>, c: Option<usize>) -> (r: Option<usize>)
    ensures
        opt_int(r) == first_present(opt_int(a), opt_int(b), opt_int(c)),
{
    let ab = match (a, b) {
        (Some(x), Some(y)) => Some(if x <= y { x } else { y }),
        (Some(x), None) => Some(x),
        (None, y) => y,
    };
    match (ab, c) {
        (Some(x), Some(y)) => Some(if x <= y { x } else { y }),
        (Some(x), None) => Some(x),
        (None, y) => y,
    }
}

pub open spec fn opt_int(o: Option<usize>) -> Option<int> {
    match o {
        Some(x) => Some(x as int),
        None => None,
    }
}

/// The words of a search without `-f`, and whether `-f` was among them.
fn search_words(args: &Vec<Vec<char>>, end: usize) -> (r: (Vec<Vec<char>>, bool))
    requires
        end <= args@.len(),
    ensures
        views(r.0@) == query_words(views(args@).take(end as int)),
        r.1 == has_force(views(args@).take(end as int)),
{
    let ghost all = views(args@).take(end as int);
    let mut words: Vec<Vec<char>> = Vec::new();
    let mut force = false;
    let mut k: usize = 0;
    while k < end
        invariant
            end <= args@.len(),
            all == views(args@).take(end as int),
            k <= end,
            views(words@) == query_words(all.take(k as int)),
            force == has_force(all.take(k as int)),
        decreases end - k,
    {
        let ghost a = args@[k as int]@;
        assert(all[k as int] == a);
        assert(all.take(k + 1) =~= all.take(k as int).push(a));
        proof {
            all.take(k as int).lemma_filter_push(a, |a: Seq<char>| !is_force(a));
        }
        if eq_ignore_case(args[k].as_slice(), "-f") {
            force = true;
            assert(all.take(k + 1)[k as int] == a);
        } else {
            let copy = crate::text::slice(args[k].as_slice(), 0, args[k].len());
            assert(copy@ =~= a);
            let ghost before = words@;
            words.push(copy);
            assert(views(words@) =~= views(before).push(a));
            assert(has_force(all.take(k + 1)) == has_force(all.take(k as int))) by {
                if has_force(all.take(k + 1)) {
                    let i = choose|i: int| 0 <= i < all.take(k + 1).len() && is_force(#[trigger] all.take(k + 1)[i]);
                    assert(i < k);
                    assert(all.take(k as int)[i] == all.take(k + 1)[i]);
                }
                if has_force(all.take(k as int)) {
                    let i = choose|i: int| 0 <= i < all.take(k as int).len() && is_force(#[trigger] all.take(k as int)[i]);
                    assert(all.take(k as int)[i] == all.take(k + 1)[i]);
                }
            }
        }
        assert(force == has_force(all.take(k + 1))) by {
            if has_force(all.take(k as int)) {
                let i = choose|i: int| 0 <= i < all.take(k as int).len() && is_force(#[trigger] all.take(k as int)[i]);
                assert(all.take(k as int)[i] == all.take(k + 1)[i]);
            }
            if has_force(all.take(k + 1)) && !is_force(a) {
                let i = choose|i: int| 0 <= i < all.take(k + 1).len() && is_force(#[trigger] all.take(k + 1)[i]);
                assert(i < k);
                assert(all.take(k as int)[i] == all.take(k + 1)[i]);
            }
        }
        k += 1;
    }
    assert(all.take(k as int) =~= all);
    (words, force)
}

fn invalid_for(op: usize, file: Option<usize>, motion: Option<usize>) -> (r: UtRequest)
    ensures
        r@ == (if Some(op as int) == opt_int(file) {
            UtRequestView::InvalidFile
        } else if Some(op as int) == opt_int(motion) {
            UtRequestView::InvalidMotion
        } else {
            UtRequestView::InvalidOrigin
        }),
{
    if file == Some(op) {
        UtRequest::InvalidFile
    } else if motion == Some(op) {
        UtRequest::InvalidMotion
    } else {
        UtRequest::InvalidOrigin
    }
}

/// Reads the arguments of `ut`.
pub fn parse_request(arguments: &[String]) -> (r: UtRequest)
    ensures
        r@ == spec_request(string_views(arguments@)),
{
    let args = chars_of_all(arguments);
    let ghost a = string_views(arguments@);
    assert(views(args@) =~= a);
    if args.len() == 0 {
        return UtRequest::Landing;
    }
    let origin = find_word(&args, "origin");
    let file = find_word(&args, "file");
    let motion = find_word(&args, "motion");
    let count = (if origin.is_some() { 1usize } else { 0 }) + (if file.is_some() { 1usize } else { 0 })
        + (if motion.is_some() { 1usize } else { 0 });
    let op = min_present(origin, file, motion);
    if count > 1 {
        return match op {
            Some(first) => invalid_for(first, file, motion),
            None => UtRequest::InvalidOrigin,
        };
    }
    let end = match op {
        Some(i) => i,
        None => args.len(),
    };
    proof {
        lemma_word_index(a, "origin"@);
        lemma_word_index(a, "file"@);
        lemma_word_index(a, "motion"@);
    }
    assert(op is None ==> a.take(end as int) =~= a);
    let (words, force) = search_words(&args, end);
    let joined = join_str(words.as_slice(), " ");
    let query_chars = trim(joined.as_slice());
    let i = match op {
        None => {
            return UtRequest::Search {
                query: string_of(query_chars.as_slice()),
                force,
                operation: UtOperation::Detail,
            };
        },
        Some(i) => i,
    };
    if query_chars.len() == 0 {
        return invalid_for(i, file, motion);
    }
    let query = string_of(query_chars.as_slice());
    let rest_strings = slice_strings(arguments, i + 1);
    let rest = skip_args(&args, i + 1);
    assert(views(rest@) == a.skip(i + 1));
    if motion == Some(i) {
        let mut forms: Vec<&str> = Vec::new();
        forms.push("f");
        forms.push("c");
        forms.push("s");
        forms.push("u");
        assert(str_views(forms@) =~= seq!["f"@, "c"@, "s"@, "u"@]);
        return match parse_motion_arguments(rest_strings.as_slice(), forms.as_slice()) {
            Some(request) => UtRequest::Search { query, force, operation: UtOperation::Motion(request) },
            None => UtRequest::InvalidMotion,
        };
    }
    if file == Some(i) {
        if rest.len() == 0 {
            return UtRequest::Search { query, force, operation: UtOperation::File(FileRequest { form: None }) };
        }
        if rest.len() == 1 {
            assert(rest@[0]@ == views(rest@)[0]);
            return match UtForm::parse(rest[0].as_slice()) {
                Some(form) => UtRequest::Search {
                    query,
                    force,
                    operation: UtOperation::File(FileRequest { form: Some(form) }),
                },
                None => UtRequest::InvalidFile,
            };
        }
        return UtRequest::InvalidFile;
    }
    match parse_origin(rest.as_slice()) {
        Some(request) => UtRequest::Search { query, force, operation: UtOperation::Origin(request) },
        None => UtRequest::InvalidOrigin,
    }
}

/// The strings from position `start` on.
fn slice_strings(values: &[String], start: usize) -> (r: Vec<String>)
    requires
        start <= values@.len(),
    ensures
        string_views(r@) == string_views(values@).skip(start as int),
{
    let mut r: Vec<String> = Vec::new();
    let mut i: usize = start;
    while i < values.len()
        invariant
            start <= i <= values@.len(),
            string_views(r@) == string_views(values@).subrange(start as int, i as int),
        decreases values@.len() - i,
    {
        let copy = string_of(chars_of(values[i].as_str()).as_slice());
        let ghost before = r@;
        r.push(copy);
        assert(string_views(r@) =~= string_views(before).push(values@[i as int]@));
        assert(string_views(r@) =~= string_views(values@).subrange(start as int, i + 1));
        i += 1;
    }
    assert(string_views(values@).subrange(start as int, i as int) =~= string_views(values@).skip(start as int));
    r
}

// ---------------------------------------------------------------------------
// Asset paths
// ---------------------------------------------------------------------------

#[derive(Clone, Debug)]
pub struct UnitBuyEntry {
    pub id: String,
    pub shared_form_ids: [Option<String>; 2],
}

#[derive(Clone, Debug)]
pub struct UnitBuy {
    pub units: Vec<UnitBuyEntry>,
}

#[derive(Clone, Debug, PartialEq, Eq)]
pub struct UnitAssetStem {
    pub asset_id: String,
    pub suffix: &'static str,
    pub shared: bool,
}

/// The id under which a unit form's images are stored: the id of the unit
/// whose form it shares (with suffix `m`), else its own id and form letter.
pub open spec fn spec_asset_stem(units: Seq<UnitBuyEntry>, id: Seq<char>, form: UtForm) -> Option<(Seq<char>, Seq<char>, bool)> {
    match parse_usize_spec(id) {
        None => None,
        Some(index) => if index >= units.len() || units[index as int].id@ != id {
            None
        } else {
            let entry = units[index as int];
            let shared = match form {
                UtForm::First => entry.shared_form_ids@[0],
                UtForm::Second => entry.shared_form_ids@[1],
                _ => None,
            };
            match shared {
                Some(s) => Some((s@, "m"@, true)),
                None => Some((id, spec_suffix(form), false)),
            }
        },
    }
}

pub fn resolve_asset_stem(unit_buy: &UnitBuy, id: &str, form: UtForm) -> (r: Option<UnitAssetStem>)
    ensures
        match r {
            Some(s) => spec_asset_stem(unit_buy.units@, id@, form) == Some((s.asset_id@, s.suffix@, s.shared)),
            None => spec_asset_stem(unit_buy.units@, id@, form) is None,
        },
{
    let id_chars = chars_of(id);
    let index = match parse_usize(id_chars.as_slice()) {
        Some(i) => i,
        None => {
            return None;
        },
    };
    if index >= unit_buy.units.len() {
        return None;
    }
    let entry = &unit_buy.units[index];
    let entry_id = chars_of(entry.id.as_str());
    if !crate::text::eq(entry_id.as_slice(), id_chars.as_slice()) {
        return None;
    }
    let shared: Option<&String> = match form {
        UtForm::First => entry.shared_form_ids[0].as_ref(),
        UtForm::Second => entry.shared_form_ids[1].as_ref(),
        _ => None,
    };
    match shared {
        Some(s) => Some(UnitAssetStem {
            asset_id: string_of(chars_of(s.as_str()).as_slice()),
            suffix: "m",
            shared: true,
        }),
        None => Some(UnitAssetStem { asset_id: string_of(id_chars.as_slice()), suffix: form.suffix(), shared: false }),
    }
}

/// The path of an origin image.
pub open spec fn spec_origin_path(units: Option<Seq<UnitBuyEntry>>, id: Seq<char>, request: OriginRequest) -> Option<Seq<char>> {
    if request.family == OriginFamily::Gacha {
        let variant = match request.variant {
            OriginVariant::Form(UtForm::First) => Some("f"@),
            OriginVariant::GachaMiddle => Some("m"@),
            OriginVariant::GachaThird => Some("z"@),
            OriginVariant::Form(_) => None,
        };
        match variant {
            Some(v) => Some("Image/gatyachara_"@ + id + "_"@ + v + ".png"@),
            None => None,
        }
    } else {
        match (request.variant, units) {
            (OriginVariant::Form(form), Some(u)) => match spec_asset_stem(u, id, form) {
                None => None,
                Some((asset_id, suffix, shared)) => if request.family == OriginFamily::Sprite {
                    Some("Number/"@ + asset_id + "_"@ + suffix + ".png"@)
                } else {
                    let tail = if shared {
                        "_m0"@ + (if form == UtForm::Second { "1"@ } else { "0"@ }) + ".png"@
                    } else if request.family == OriginFamily::Icon {
                        "_"@ + spec_suffix(form) + "00.png"@
                    } else {
                        "_"@ + spec_suffix(form) + ".png"@
                    };
                    let prefix = if request.family == OriginFamily::Icon {
                        "uni"@
                    } else {
                        "udi"@
                    };
                    Some("Unit/"@ + prefix + asset_id + tail)
                },
            },
            _ => None,
        }
    }
}

pub open spec fn units_of(unit_buy: Option<&UnitBuy>) -> Option<Seq<UnitBuyEntry>> {
    match unit_buy {
        Some(u) => Some(u.units@),
        None => None,
    }
}

pub fn resolve_origin_path(unit_buy: Option<&UnitBuy>, id: &str, request: OriginRequest) -> (r: Option<String>)
    ensures
        match r {
            Some(p) => spec_origin_path(units_of(unit_buy), id@, request) == Some(p@),
            None => spec_origin_path(units_of(unit_buy), id@, request) is None,
        },
{
    if request.family == OriginFamily::Gacha {
        let variant = match request.variant {
            OriginVariant::Form(UtForm::First) => "f",
            OriginVariant::GachaMiddle => "m",
            OriginVariant::GachaThird => "z",
            OriginVariant::Form(_) => {
                return None;
            },
        };
        let mut v = chars_of("Image/gatyachara_");
        append_str(&mut v, id);
        append_str(&mut v, "_");
        append_str(&mut v, variant);
        append_str(&mut v, ".png");
        return Some(string_of(v.as_slice()));
    }
    let form = match request.variant {
        OriginVariant::Form(form) => form,
        _ => {
            return None;
        },
    };
    let units = match unit_buy {
        Some(u) => u,
        None => {
            return None;
        },
    };
    let stem = match resolve_asset_stem(units, id, form) {
        Some(s) => s,
        None => {
            return None;
        },
    };
    if request.family == OriginFamily::Sprite {
        let mut v = chars_of("Number/");
        append_str(&mut v, stem.asset_id.as_str());
        append_str(&mut v, "_");
        append_str(&mut v, stem.suffix);
        append_str(&mut v, ".png");
        return Some(string_of(v.as_slice()));
    }
    let mut tail: Vec<char> = Vec::new();
    if stem.shared {
        append_str(&mut tail, "_m0");
        append_str(&mut tail, if form == UtForm::Second { "1" } else { "0" });
        append_str(&mut tail, ".png");
    } else if request.family == OriginFamily::Icon {
        append_str(&mut tail, "_");
        append_str(&mut tail, form.suffix());
        append_str(&mut tail, "00.png");
    } else {
        append_str(&mut tail, "_");
        append_str(&mut tail, form.suffix());
        append_str(&mut tail, ".png");
    }
    let mut v = chars_of("Unit/");
    append_str(&mut v, if request.family == OriginFamily::Icon { "uni" } else { "udi" });
    append_str(&mut v, stem.asset_id.as_str());
    append(&mut v, tail.as_slice());
    Some(string_of(v.as_slice()))
}

} // verus!
