//! Format invariants a translation must keep with its English source:
//! the number of `{}` placeholders, the number of newlines and the exact
//! backtick spans.
use vstd::prelude::*;
use crate::text::{chars_of, string_from_chars, push_str, push_decimal, decimal, strings_view, join_with};
use crate::json_map::{JsonMap, lookup};

verus! {

// ---------------------------------------------------------------------------
// Specification
// ---------------------------------------------------------------------------

/// Occurrences of `{}`, matched left to right without overlap.
pub open spec fn placeholder_count(s: Seq<char>) -> nat
    decreases s.len(),
{
    if s.len() < 2 {
        0
    } else if s[0] == '{' && s[1] == '}' {
        1 + placeholder_count(s.skip(2))
    } else {
        placeholder_count(s.drop_first())
    }
}

/// Occurrences of `\n`.
pub open spec fn newline_count(s: Seq<char>) -> nat
    decreases s.len(),
{
    if s.len() == 0 {
        0
    } else {
        newline_count(s.drop_last()) + if s.last() == '\n' { 1nat } else { 0nat }
    }
}

/// Reading left to right: the closed spans so far and the content of the
/// span still open, if any.
pub open spec fn span_state(s: Seq<char>) -> (Seq<Seq<char>>, Option<Seq<char>>)
    decreases s.len(),
{
    if s.len() == 0 {
        (Seq::empty(), None)
    } else {
        let (spans, open) = span_state(s.drop_last());
        let c = s.last();
        if c == '`' {
            match open {
                None => (spans, Some(Seq::empty())),
                Some(cur) => (spans.push(cur), None),
            }
        } else {
            match open {
                Some(cur) => (spans, Some(cur.push(c))),
                None => (spans, None),
            }
        }
    }
}

/// The contents of the closed backtick spans, in order; an unclosed
/// backtick is ignored.
pub open spec fn backtick_spans(s: Seq<char>) -> Seq<Seq<char>> {
    span_state(s).0
}

/// Why a translation was rejected.
#[allow(inconsistent_fields)]
pub enum Failure {
    MissingKey,
    Empty,
    Placeholders { expected: nat, found: nat },
    Newlines { expected: nat, found: nat },
    Backticks { expected: Seq<Seq<char>>, found: Seq<Seq<char>> },
}

/// The first invariant a translation breaks, checked in this order:
/// non-empty English must not become empty, then placeholders, newlines and
/// backtick spans must match.
pub open spec fn check_translation(en: Seq<char>, tr: Seq<char>) -> Option<Failure> {
    if en.len() > 0 && tr.len() == 0 {
        Some(Failure::Empty)
    } else if placeholder_count(en) != placeholder_count(tr) {
        Some(Failure::Placeholders { expected: placeholder_count(en), found: placeholder_count(tr) })
    } else if newline_count(en) != newline_count(tr) {
        Some(Failure::Newlines { expected: newline_count(en), found: newline_count(tr) })
    } else if backtick_spans(en) != backtick_spans(tr) {
        Some(Failure::Backticks { expected: backtick_spans(en), found: backtick_spans(tr) })
    } else {
        None
    }
}

// ---------------------------------------------------------------------------
// Errors
// ---------------------------------------------------------------------------

#[derive(Debug, Clone, PartialEq, Eq)]
#[allow(inconsistent_fields)]
pub enum ValidationError {
    MissingKey,
    EmptyTranslationNotAllowed,
    PlaceholderCountMismatch { expected: usize, found: usize },
    NewlineCountMismatch { expected: usize, found: usize },
    BacktickSpansMismatch { expected: Vec<String>, found: Vec<String> },
}

impl ValidationError {
    pub open spec fn model(&self) -> Failure {
        match self {
            ValidationError::MissingKey => Failure::MissingKey,
            ValidationError::EmptyTranslationNotAllowed => Failure::Empty,
            ValidationError::PlaceholderCountMismatch { expected, found } => Failure::Placeholders {
                expected: *expected as nat,
                found: *found as nat,
            },
            ValidationError::NewlineCountMismatch { expected, found } => Failure::Newlines {
                expected: *expected as nat,
                found: *found as nat,
            },
            ValidationError::BacktickSpansMismatch { expected, found } => Failure::Backticks {
                expected: strings_view(expected@),
                found: strings_view(found@),
            },
        }
    }
}

/// `Debug` rendering of a string: quoted, with `char::escape_debug` escapes.
pub uninterp spec fn debug_quoted(s: Seq<char>) -> Seq<char>;

/// Trusted: formatting a `&str` with `{:?}` gives its quoted, escaped form,
/// a function of the text alone.
#[verifier::external_body]
fn debug_quote(s: &str) -> (q: String)
    ensures
        q@ == debug_quoted(s@),
{
    format!("{:?}", s)
}

/// `Debug` rendering of a list of strings: `["a", "b"]`.
pub open spec fn debug_list(items: Seq<Seq<char>>) -> Seq<char> {
    "["@ + join_with(Seq::new(items.len(), |i: int| debug_quoted(items[i])), ", "@) + "]"@
}

/// The message of each failure.
pub open spec fn failure_message(f: Failure) -> Seq<char> {
    match f {
        Failure::MissingKey => "missing key in translation file"@,
        Failure::Empty => "translation is empty while English source is non-empty"@,
        Failure::Placeholders { expected, found } => "placeholder count mismatch for `{}`: expected "@
            + decimal(expected) + ", found "@ + decimal(found),
        Failure::Newlines { expected, found } => "newline count mismatch: expected "@ + decimal(
            expected,
        ) + ", found "@ + decimal(found),
        Failure::Backticks { expected, found } => "backtick spans mismatch: expected "@ + debug_list(
            expected,
        ) + ", found "@ + debug_list(found),
    }
}

fn debug_list_of(items: &Vec<String>) -> (s: String)
    ensures
        s@ == debug_list(strings_view(items@)),
{
    let mut quoted: Vec<String> = Vec::new();
    let mut i: usize = 0;
    while i < items.len()
        invariant
            i <= items.len(),
            strings_view(quoted@) == Seq::new(i as nat, |k: int| debug_quoted(items@[k]@)),
        decreases items.len() - i,
    {
        let q = debug_quote(items[i].as_str());
        let ghost before = quoted@;
        quoted.push(q);
        assert(quoted@ == before.push(q));
        assert(strings_view(quoted@) =~= strings_view(before).push(q@));
        i = i + 1;
        assert(strings_view(quoted@) =~= Seq::new(i as nat, |k: int| debug_quoted(items@[k]@)));
    }
    let mut s = "[".to_string();
    let inner = crate::text::join_strings(&quoted, ", ");
    push_str(&mut s, inner.as_str());
    push_str(&mut s, "]");
    assert(Seq::new(strings_view(items@).len(), |k: int| debug_quoted(strings_view(items@)[k]))
        =~= strings_view(quoted@));
    s
}

impl ValidationError {
    /// Human-readable description of the error.
    pub fn message(&self) -> (m: String)
        ensures
            m@ == failure_message(self.model()),
    {
        match self {
            ValidationError::MissingKey => "missing key in translation file".to_string(),
            ValidationError::EmptyTranslationNotAllowed => {
                "translation is empty while English source is non-empty".to_string()
            },
            ValidationError::PlaceholderCountMismatch { expected, found } => {
                let mut m = "placeholder count mismatch for `{}`: expected ".to_string();
                push_decimal(&mut m, *expected);
                push_str(&mut m, ", found ");
                push_decimal(&mut m, *found);
                m
            },
            ValidationError::NewlineCountMismatch { expected, found } => {
                let mut m = "newline count mismatch: expected ".to_string();
                push_decimal(&mut m, *expected);
                push_str(&mut m, ", found ");
                push_decimal(&mut m, *found);
                m
            },
            ValidationError::BacktickSpansMismatch { expected, found } => {
                let mut m = "backtick spans mismatch: expected ".to_string();
                let e = debug_list_of(expected);
                push_str(&mut m, e.as_str());
                push_str(&mut m, ", found ");
                let f = debug_list_of(found);
                push_str(&mut m, f.as_str());
                m
            },
        }
    }
}

/// A rejected key of a translation map.
#[derive(Debug, Clone, PartialEq, Eq)]
pub struct ValidationIssue {
    pub key: String,
    pub error: ValidationError,
}

// ---------------------------------------------------------------------------
// Counting and extraction
// ---------------------------------------------------------------------------

/// Number of `{}` placeholders.
pub fn count_placeholders_positional(s: &str) -> (n: usize)
    ensures
        n == placeholder_count(s@),
{
    let v = chars_of(s);
    let mut n: usize = 0;
    let mut i: usize = 0;
    assert(v@.skip(0) =~= v@);
    while i < v.len()
        invariant
            i <= v.len(),
            v@ == s@,
            n + placeholder_count(v@.skip(i as int)) == placeholder_count(v@),
            n <= i,
        decreases v.len() - i,
    {
        if i + 1 < v.len() && v[i] == '{' && v[i + 1] == '}' {
            assert(v@.skip(i as int).skip(2) =~= v@.skip(i + 2));
            n = n + 1;
            i = i + 2;
        } else {
            assert(v@.skip(i as int).drop_first() =~= v@.skip(i + 1));
            i = i + 1;
        }
    }
    n
}

/// Contents of the backtick spans, in order.
pub fn extract_backtick_spans(s: &str) -> (spans: Vec<String>)
    ensures
        strings_view(spans@) == backtick_spans(s@),
{
    let v = chars_of(s);
    let mut spans: Vec<String> = Vec::new();
    let mut open: Option<Vec<char>> = None;
    let mut i: usize = 0;
    while i < v.len()
        invariant
            i <= v.len(),
            v@ == s@,
            (strings_view(spans@), match open {
                Some(cur) => Some(cur@),
                None => None,
            }) == span_state(v@.take(i as int)),
        decreases v.len() - i,
    {
        let c = v[i];
        assert(v@.take(i + 1).drop_last() =~= v@.take(i as int));
        let ghost before = strings_view(spans@);
        if c == '`' {
            match open {
                None => {
                    open = Some(Vec::new());
                },
                Some(cur) => {
                    spans.push(string_from_chars(&cur));
                    assert(strings_view(spans@) =~= before.push(cur@));
                    open = None;
                },
            }
        } else {
            match open {
                Some(mut cur) => {
                    cur.push(c);
                    open = Some(cur);
                },
                None => {},
            }
        }
        i = i + 1;
    }
    assert(v@.take(v@.len() as int) =~= v@);
    spans
}

/// Number of newline characters.
pub fn count_newlines_normalized(s: &str) -> (n: usize)
    ensures
        n == newline_count(s@),
{
    let v = chars_of(s);
    let mut n: usize = 0;
    let mut i: usize = 0;
    while i < v.len()
        invariant
            i <= v.len(),
            v@ == s@,
            n == newline_count(v@.take(i as int)),
            n <= i,
        decreases v.len() - i,
    {
        assert(v@.take(i + 1).drop_last() =~= v@.take(i as int));
        if v[i] == '\n' {
            n = n + 1;
        }
        i = i + 1;
    }
    assert(v@.take(v@.len() as int) =~= v@);
    n
}

fn same_texts(a: &Vec<String>, b: &Vec<String>) -> (r: bool)
    ensures
        r == (strings_view(a@) == strings_view(b@)),
{
    if a.len() != b.len() {
        assert(strings_view(a@).len() != strings_view(b@).len());
        return false;
    }
    let mut i: usize = 0;
    while i < a.len()
        invariant
            i <= a.len() == b.len(),
            forall|j: int| 0 <= j < i ==> a@[j]@ == b@[j]@,
        decreases a.len() - i,
    {
        if a[i] != b[i] {
            assert(strings_view(a@)[i as int] != strings_view(b@)[i as int]);
            return false;
        }
        i = i + 1;
    }
    assert(strings_view(a@) =~= strings_view(b@));
    true
}

/// Checks a translation against its English source.
pub fn validate_translation(en: &str, tr: &str) -> (r: Result<(), ValidationError>)
    ensures
        match check_translation(en@, tr@) {
            None => r is Ok,
            Some(f) => r matches Err(e) && e.model() == f,
        },
{
    if !en.is_empty() && tr.is_empty() {
        return Err(ValidationError::EmptyTranslationNotAllowed);
    }

    let expected_placeholders = count_placeholders_positional(en);
    let found_placeholders = count_placeholders_positional(tr);
    if expected_placeholders != found_placeholders {
        return Err(
            ValidationError::PlaceholderCountMismatch {
                expected: expected_placeholders,
                found: found_placeholders,
            },
        );
    }

    let expected_newlines = count_newlines_normalized(en);
    let found_newlines = count_newlines_normalized(tr);
    if expected_newlines != found_newlines {
        return Err(
            ValidationError::NewlineCountMismatch {
                expected: expected_newlines,
                found: found_newlines,
            },
        );
    }

    let expected_backticks = extract_backtick_spans(en);
    let found_backticks = extract_backtick_spans(tr);
    if !same_texts(&expected_backticks, &found_backticks) {
        return Err(
            ValidationError::BacktickSpansMismatch {
                expected: expected_backticks,
                found: found_backticks,
            },
        );
    }

    Ok(())
}

// ---------------------------------------------------------------------------
// Whole maps
// ---------------------------------------------------------------------------

/// A rejected key and why.
pub open spec fn issue_model(issue: ValidationIssue) -> (Seq<char>, Failure) {
    (issue.key@, issue.error.model())
}

/// The issues of a translation map, English keys in order: a missing key,
/// or the first broken invariant of a present one.
pub open spec fn lang_map_issues(
    en: Seq<(Seq<char>, String)>,
    tr: Seq<(Seq<char>, String)>,
) -> Seq<(Seq<char>, Failure)>
    decreases en.len(),
{
    if en.len() == 0 {
        Seq::empty()
    } else {
        let (key, en_text) = en.last();
        lang_map_issues(en.drop_last(), tr) + match lookup(tr, key) {
            None => seq![(key, Failure::MissingKey)],
            Some(tr_text) => match check_translation(en_text@, tr_text@) {
                Some(f) => seq![(key, f)],
                None => Seq::empty(),
            },
        }
    }
}

/// Validates every English key against the translation map.
pub fn validate_lang_map(en_map: &JsonMap, tr_map: &JsonMap) -> (issues: Vec<ValidationIssue>)
    requires
        en_map.wf(),
        tr_map.wf(),
    ensures
        Seq::new(issues@.len(), |i: int| issue_model(issues@[i])) == lang_map_issues(
            en_map.pairs(),
            tr_map.pairs(),
        ),
{
    let mut issues: Vec<ValidationIssue> = Vec::new();
    let mut i: usize = 0;
    while i < en_map.len()
        invariant
            i <= en_map.pairs().len(),
            tr_map.wf(),
            Seq::new(issues@.len(), |k: int| issue_model(issues@[k])) == lang_map_issues(
                en_map.pairs().take(i as int),
                tr_map.pairs(),
            ),
        decreases en_map.pairs().len() - i,
    {
        let key = en_map.key_at(i);
        let en_value = en_map.value_at(i);
        let ghost before = Seq::new(issues@.len(), |k: int| issue_model(issues@[k]));
        assert(en_map.pairs().take(i + 1).drop_last() =~= en_map.pairs().take(i as int));
        assert(en_map.pairs().take(i + 1).last() == en_map.pairs()[i as int]);
        match tr_map.get(key.as_str()) {
            None => {
                issues.push(ValidationIssue { key: key.clone(), error: ValidationError::MissingKey });
                assert(Seq::new(issues@.len(), |k: int| issue_model(issues@[k])) =~= before.push(
                    (key@, Failure::MissingKey),
                ));
            },
            Some(tr_value) => {
                match validate_translation(en_value.as_str(), tr_value.as_str()) {
                    Err(error) => {
                        let ghost f = error.model();
                        issues.push(ValidationIssue { key: key.clone(), error });
                        assert(Seq::new(issues@.len(), |k: int| issue_model(issues@[k])) =~= before.push(
                            (key@, f),
                        ));
                    },
                    Ok(()) => {
                        assert(Seq::new(issues@.len(), |k: int| issue_model(issues@[k])) =~= before);
                    },
                }
            },
        }
        i = i + 1;
        assert(lang_map_issues(en_map.pairs().take(i as int), tr_map.pairs()) =~= Seq::new(
            issues@.len(),
            |k: int| issue_model(issues@[k]),
        ));
    }
    assert(en_map.pairs().take(en_map.pairs().len() as int) =~= en_map.pairs());
    issues
}

} // verus!
