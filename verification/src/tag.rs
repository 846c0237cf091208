//! Locale-tag canonicalization (`en-gb` -> `en-GB`, `zh-hant-tw` -> `zh-Hant-TW`,
//! `EN-us-U-ca-gregory` -> `en-US-u-ca-gregory`).
use vstd::prelude::*;
use vstd::utf8::encode_utf8;
use vstd::utf8::encode_scalar;
use crate::text::{lemma_char_vec_deep_view, unicode_whitespace, char_is_whitespace, string_push, ascii_upper, lower_seq, upper_seq, to_ascii_lower, to_ascii_upper, chars_of, push_chars};
use crate::id::I18nError;
use crate::profile::Direction;

verus! {

broadcast use lemma_char_vec_deep_view;

/// A canonicalized locale tag.
#[derive(Debug, Clone, PartialEq, Eq, Hash)]
pub struct I18nTag(String);

impl View for I18nTag {
    type V = Seq<char>;

    closed spec fn view(&self) -> Seq<char> {
        self.0@
    }
}

impl I18nTag {
    /// The canonical form of `value`; `EmptyTag` when it holds no subtag.
    pub fn new(value: &str) -> (r: Result<Self, I18nError>)
        ensures
            match r {
                Ok(t) => canonical_tag(value@) == Some(t@),
                Err(e) => canonical_tag(value@) is None && e is EmptyTag,
            },
    {
        match canonicalize_tag(value) {
            Ok(s) => Ok(I18nTag(s)),
            Err(e) => Err(e),
        }
    }

    pub fn as_str(&self) -> (s: &str)
        ensures
            s@ == self@,
    {
        self.0.as_str()
    }

    /// A second tag with the same text.
    pub fn duplicate(&self) -> (t: Self)
        ensures
            t == *self,
            t@ == self@,
    {
        I18nTag(self.0.clone())
    }

    /// Whether both tags have the same text.
    pub fn same_as(&self, other: &I18nTag) -> (r: bool)
        ensures
            r == (self@ == other@),
    {
        self.0 == other.0
    }

    /// Wraps text that is already canonical.
    pub(crate) fn from_canonical(s: String) -> (t: Self)
        ensures
            t@ == s@,
    {
        I18nTag(s)
    }
}

/// Canonicalizes a locale tag; same result as `I18nTag::new`.
pub fn normalize_tag(input: &str) -> (r: Result<I18nTag, I18nError>)
    ensures
        match r {
            Ok(t) => canonical_tag(input@) == Some(t@),
            Err(e) => canonical_tag(input@) is None && e is EmptyTag,
        },
{
    I18nTag::new(input)
}

// ---------------------------------------------------------------------------
// Specification
// ---------------------------------------------------------------------------

/// Leading whitespace removed.
pub open spec fn trim_start_spec(s: Seq<char>) -> Seq<char>
    decreases s.len(),
{
    if s.len() > 0 && unicode_whitespace(s[0]) {
        trim_start_spec(s.drop_first())
    } else {
        s
    }
}

/// Trailing whitespace removed.
pub open spec fn trim_end_spec(s: Seq<char>) -> Seq<char>
    decreases s.len(),
{
    if s.len() > 0 && unicode_whitespace(s.last()) {
        trim_end_spec(s.drop_last())
    } else {
        s
    }
}

/// `str::trim`: leading and trailing `White_Space` characters removed.
pub open spec fn trim_spec(s: Seq<char>) -> Seq<char> {
    trim_end_spec(trim_start_spec(s))
}

/// Splitting `s` on `sep` while reading left to right: the finished non-empty
/// pieces and the piece still being read.
pub open spec fn split_state(s: Seq<char>, sep: char) -> (Seq<Seq<char>>, Seq<char>)
    decreases s.len(),
{
    if s.len() == 0 {
        (Seq::empty(), Seq::empty())
    } else {
        let (done, cur) = split_state(s.drop_last(), sep);
        if s.last() == sep {
            (if cur.len() > 0 { done.push(cur) } else { done }, Seq::empty())
        } else {
            (done, cur.push(s.last()))
        }
    }
}

/// The non-empty pieces of `s` between occurrences of `sep`, in order
/// (`s.split(sep).filter(|p| !p.is_empty())`).
pub open spec fn nonempty_pieces(s: Seq<char>, sep: char) -> Seq<Seq<char>> {
    let (done, cur) = split_state(s, sep);
    if cur.len() > 0 {
        done.push(cur)
    } else {
        done
    }
}

/// Length in bytes of the UTF-8 encoding (`str::len`).
pub open spec fn byte_len(s: Seq<char>) -> nat {
    encode_utf8(s).len()
}

/// `part.eq_ignore_ascii_case("u")`.
pub open spec fn is_extension_marker(part: Seq<char>) -> bool {
    part == seq!['u'] || part == seq!['U']
}

/// First character upper-cased, the rest lower-cased (script subtags).
pub open spec fn title_case(part: Seq<char>) -> Seq<char> {
    seq![ascii_upper(part[0])] + lower_seq(part.drop_first())
}

/// Case convention for one subtag: the language subtag and every extension
/// subtag lower-case, a 4-byte subtag title-case, a subtag of at most 3 bytes
/// upper-case, anything longer lower-case.
pub open spec fn normalize_subtag(part: Seq<char>, in_extension: bool, is_first: bool) -> Seq<char> {
    if in_extension || is_first {
        lower_seq(part)
    } else if byte_len(part) == 4 {
        title_case(part)
    } else if byte_len(part) <= 3 {
        upper_seq(part)
    } else {
        lower_seq(part)
    }
}

/// Folding the subtags left to right: the canonical subtags so far and
/// whether the `u` extension marker has been seen.
pub open spec fn canonical_subtags_state(parts: Seq<Seq<char>>) -> (Seq<Seq<char>>, bool)
    decreases parts.len(),
{
    if parts.len() == 0 {
        (Seq::empty(), false)
    } else {
        let (acc, in_ext) = canonical_subtags_state(parts.drop_last());
        let part = parts.last();
        if !in_ext && is_extension_marker(part) {
            (acc.push(seq!['u']), true)
        } else {
            (acc.push(normalize_subtag(part, in_ext, acc.len() == 0)), in_ext)
        }
    }
}

pub open spec fn canonical_subtags(parts: Seq<Seq<char>>) -> Seq<Seq<char>> {
    canonical_subtags_state(parts).0
}

/// Pieces joined by `sep`.
pub open spec fn join_spec(parts: Seq<Seq<char>>, sep: char) -> Seq<char>
    decreases parts.len(),
{
    if parts.len() == 0 {
        Seq::empty()
    } else if parts.len() == 1 {
        parts[0]
    } else {
        join_spec(parts.drop_last(), sep).push(sep) + parts.last()
    }
}

/// The canonical subtags of a raw tag.
pub open spec fn tag_subtags(input: Seq<char>) -> Seq<Seq<char>> {
    canonical_subtags(nonempty_pieces(trim_spec(input), '-'))
}

/// The canonical form of a raw tag, or `None` when it has no subtag.
pub open spec fn canonical_tag(input: Seq<char>) -> Option<Seq<char>> {
    let subtags = tag_subtags(input);
    if subtags.len() == 0 {
        None
    } else {
        Some(join_spec(subtags, '-'))
    }
}

// ---------------------------------------------------------------------------
// Lemmas
// ---------------------------------------------------------------------------

proof fn lemma_encode_utf8_push(s: Seq<char>, c: char)
    ensures
        encode_utf8(s.push(c)) == encode_utf8(s) + encode_scalar(c as u32),
    decreases s.len(),
{
    if s.len() == 0 {
        assert(s.push(c).drop_first() =~= Seq::<char>::empty());
        assert(encode_utf8(Seq::<char>::empty()) =~= Seq::<u8>::empty());
        assert(encode_utf8(s.push(c)) =~= encode_scalar(c as u32));
    } else {
        lemma_encode_utf8_push(s.drop_first(), c);
        assert(s.push(c).drop_first() =~= s.drop_first().push(c));
        assert(encode_utf8(s.push(c)) =~= encode_scalar(s[0] as u32) + encode_utf8(
            s.drop_first().push(c),
        ));
    }
}

spec fn scalar_width(c: char) -> nat {
    encode_scalar(c as u32).len()
}

fn utf8_width(c: char) -> (w: usize)
    ensures
        w == scalar_width(c),
        1 <= w <= 4,
{
    let code: u32 = c as u32;
    if code <= 0x7F {
        1
    } else if code <= 0x7FF {
        2
    } else if code <= 0xFFFF {
        proof {
            vstd::utf8::char_is_scalar(c);
        }
        3
    } else {
        proof {
            vstd::utf8::char_is_scalar(c);
        }
        4
    }
}

/// `min(byte_len(part), 5)`: enough to tell a 4-byte subtag and a subtag of at
/// most 3 bytes from the others.
fn capped_byte_len(part: &Vec<char>) -> (n: usize)
    ensures
        n == if byte_len(part@) < 5 { byte_len(part@) } else { 5 },
{
    let mut n: usize = 0;
    let mut i: usize = 0;
    while i < part.len()
        invariant
            i <= part.len(),
            n == if byte_len(part@.take(i as int)) < 5 { byte_len(part@.take(i as int)) } else { 5 },
        decreases part.len() - i,
    {
        let w = utf8_width(part[i]);
        proof {
            assert(part@.take(i + 1) == part@.take(i as int).push(part@[i as int]));
            lemma_encode_utf8_push(part@.take(i as int), part@[i as int]);
        }
        if n < 5 {
            n = if n + w < 5 { n + w } else { 5 };
        }
        i = i + 1;
    }
    assert(part@.take(part@.len() as int) == part@);
    n
}

// ---------------------------------------------------------------------------
// Executable canonicalization
// ---------------------------------------------------------------------------

/// `input` with leading and trailing whitespace removed.
pub fn trim_chars(input: &Vec<char>) -> (r: Vec<char>)
    ensures
        r@ == trim_spec(input@),
{
    let mut lo: usize = 0;
    assert(input@.skip(0) == input@);
    while lo < input.len() && char_is_whitespace(input[lo])
        invariant
            lo <= input.len(),
            trim_start_spec(input@) == trim_start_spec(input@.skip(lo as int)),
        decreases input.len() - lo,
    {
        assert(input@.skip(lo as int).drop_first() == input@.skip(lo + 1));
        lo = lo + 1;
    }
    let ghost started = input@.skip(lo as int);
    assert(trim_start_spec(input@) == started);
    let mut hi: usize = input.len();
    while hi > lo && char_is_whitespace(input[hi - 1])
        invariant
            lo <= hi <= input.len(),
            started == input@.skip(lo as int),
            trim_end_spec(started) == trim_end_spec(input@.subrange(lo as int, hi as int)),
        decreases hi,
    {
        assert(input@.subrange(lo as int, hi as int).drop_last() == input@.subrange(
            lo as int,
            hi - 1,
        ));
        hi = hi - 1;
    }
    let mut r: Vec<char> = Vec::new();
    let mut i = lo;
    while i < hi
        invariant
            lo <= i <= hi <= input.len(),
            r@ == input@.subrange(lo as int, i as int),
        decreases hi - i,
    {
        r.push(input[i]);
        i = i + 1;
    }
    assert(input@.skip(lo as int) == input@.subrange(lo as int, input.len() as int));
    r
}

/// The non-empty pieces of `s` between occurrences of `sep`.
pub fn split_nonempty(s: &Vec<char>, sep: char) -> (parts: Vec<Vec<char>>)
    ensures
        parts.deep_view() == nonempty_pieces(s@, sep),
{
    let mut done: Vec<Vec<char>> = Vec::new();
    let mut cur: Vec<char> = Vec::new();
    let mut i: usize = 0;
    while i < s.len()
        invariant
            i <= s.len(),
            (done.deep_view(), cur@) == split_state(s@.take(i as int), sep),
        decreases s.len() - i,
    {
        let c = s[i];
        let ghost prev_done = done.deep_view();
        let ghost prev_cur = cur@;
        assert(s@.take(i + 1).drop_last() == s@.take(i as int));
        assert(s@.take(i + 1).last() == c);
        if c == sep {
            if cur.len() > 0 {
                let finished = cur;
                done.push(finished);
                assert(done.deep_view() =~= prev_done.push(prev_cur));
            }
            cur = Vec::new();
        } else {
            cur.push(c);
        }
        i = i + 1;
    }
    assert(s@.take(s@.len() as int) == s@);
    if cur.len() > 0 {
        done.push(cur);
    }
    done
}

fn lower_chars(part: &Vec<char>) -> (r: Vec<char>)
    ensures
        r@ == lower_seq(part@),
{
    let mut r: Vec<char> = Vec::new();
    let mut i: usize = 0;
    while i < part.len()
        invariant
            i <= part.len(),
            r@ == lower_seq(part@.take(i as int)),
        decreases part.len() - i,
    {
        let c = to_ascii_lower(part[i]);
        r.push(c);
        i = i + 1;
        assert(r@ =~= lower_seq(part@.take(i as int)));
    }
    assert(part@.take(part@.len() as int) == part@);
    r
}

fn upper_chars(part: &Vec<char>) -> (r: Vec<char>)
    ensures
        r@ == upper_seq(part@),
{
    let mut r: Vec<char> = Vec::new();
    let mut i: usize = 0;
    while i < part.len()
        invariant
            i <= part.len(),
            r@ == upper_seq(part@.take(i as int)),
        decreases part.len() - i,
    {
        let c = to_ascii_upper(part[i]);
        r.push(c);
        i = i + 1;
        assert(r@ =~= upper_seq(part@.take(i as int)));
    }
    assert(part@.take(part@.len() as int) == part@);
    r
}

fn title_chars(part: &Vec<char>) -> (r: Vec<char>)
    requires
        part.len() > 0,
    ensures
        r@ == title_case(part@),
{
    let mut r: Vec<char> = Vec::new();
    r.push(to_ascii_upper(part[0]));
    let mut i: usize = 1;
    while i < part.len()
        invariant
            1 <= i <= part.len(),
            r@ == seq![ascii_upper(part@[0])] + lower_seq(part@.subrange(1, i as int)),
        decreases part.len() - i,
    {
        let c = to_ascii_lower(part[i]);
        r.push(c);
        i = i + 1;
        assert(r@ =~= seq![ascii_upper(part@[0])] + lower_seq(part@.subrange(1, i as int)));
    }
    assert(part@.subrange(1, part@.len() as int) == part@.drop_first());
    r
}

fn normalize_subtag_exec(part: &Vec<char>, in_extension: bool, is_first: bool) -> (r: Vec<char>)
    requires
        part.len() > 0,
    ensures
        r@ == normalize_subtag(part@, in_extension, is_first),
{
    if in_extension || is_first {
        lower_chars(part)
    } else {
        let n = capped_byte_len(part);
        if n == 4 {
            title_chars(part)
        } else if n <= 3 {
            upper_chars(part)
        } else {
            lower_chars(part)
        }
    }
}

fn is_marker(part: &Vec<char>) -> (r: bool)
    ensures
        r == is_extension_marker(part@),
{
    if part.len() == 1 && (part[0] == 'u' || part[0] == 'U') {
        assert(part@ =~= seq![part@[0]]);
        true
    } else {
        false
    }
}

/// Applies the case conventions to every subtag.
pub fn canonicalize_subtags(parts: &Vec<Vec<char>>) -> (r: Vec<Vec<char>>)
    requires
        forall|i: int| 0 <= i < parts.len() ==> #[trigger] parts@[i]@.len() > 0,
    ensures
        r.deep_view() == canonical_subtags(parts.deep_view()),
{
    let mut acc: Vec<Vec<char>> = Vec::new();
    let mut in_extension = false;
    let mut i: usize = 0;
    while i < parts.len()
        invariant
            i <= parts.len(),
            forall|k: int| 0 <= k < parts.len() ==> #[trigger] parts@[k]@.len() > 0,
            (acc.deep_view(), in_extension) == canonical_subtags_state(
                parts.deep_view().take(i as int),
            ),
        decreases parts.len() - i,
    {
        let part = &parts[i];
        assert(parts.deep_view().take(i + 1).drop_last() == parts.deep_view().take(i as int));
        assert(parts.deep_view().take(i + 1).last() == part@);
        let ghost prev_acc = acc.deep_view();
        if !in_extension && is_marker(part) {
            in_extension = true;
            let mut marker: Vec<char> = Vec::new();
            marker.push('u');
            assert(marker@ =~= seq!['u']);
            acc.push(marker);
            assert(acc.deep_view() =~= prev_acc.push(seq!['u']));
        } else {
            let is_first = acc.len() == 0;
            let normalized = normalize_subtag_exec(part, in_extension, is_first);
            let ghost nv = normalized@;
            acc.push(normalized);
            assert(acc.deep_view() =~= prev_acc.push(nv));
        }
        i = i + 1;
    }
    assert(parts.deep_view().take(parts.len() as int) == parts.deep_view());
    acc
}

/// The pieces joined with `sep`.
pub fn join_chars(parts: &Vec<Vec<char>>, sep: char) -> (s: String)
    ensures
        s@ == join_spec(parts.deep_view(), sep),
{
    let mut s = String::new();
    let mut i: usize = 0;
    while i < parts.len()
        invariant
            i <= parts.len(),
            s@ == join_spec(parts.deep_view().take(i as int), sep),
        decreases parts.len() - i,
    {
        assert(parts.deep_view().take(i + 1).drop_last() == parts.deep_view().take(i as int));
        if i > 0 {
            string_push(&mut s, sep);
        }
        push_chars(&mut s, &parts[i]);
        i = i + 1;
    }
    assert(parts.deep_view().take(parts.len() as int) == parts.deep_view());
    s
}

/// Canonical form of a locale tag: whitespace trimmed, empty subtags
/// dropped, subtags re-cased; `EmptyTag` when nothing is left.
pub fn canonicalize_tag(input: &str) -> (r: Result<String, I18nError>)
    ensures
        match r {
            Ok(s) => canonical_tag(input@) == Some(s@),
            Err(e) => canonical_tag(input@) is None && e is EmptyTag,
        },
{
    let chars = chars_of(input);
    let raw = trim_chars(&chars);
    let parts = split_nonempty(&raw, '-');
    proof {
        lemma_pieces_nonempty(raw@, '-');
        assert forall|i: int| 0 <= i < parts.len() implies #[trigger] parts@[i]@.len() > 0 by {
            assert(parts@[i]@ == parts.deep_view()[i]);
        }
    }
    let subtags = canonicalize_subtags(&parts);
    if subtags.len() == 0 {
        Err(I18nError::EmptyTag)
    } else {
        Ok(join_chars(&subtags, '-'))
    }
}

proof fn lemma_split_state_nonempty(s: Seq<char>, sep: char)
    ensures
        forall|i: int|
            0 <= i < split_state(s, sep).0.len() ==> #[trigger] split_state(s, sep).0[i].len() > 0,
    decreases s.len(),
{
    if s.len() > 0 {
        lemma_split_state_nonempty(s.drop_last(), sep);
        let (done, cur) = split_state(s.drop_last(), sep);
        if s.last() == sep && cur.len() > 0 {
            assert forall|i: int| 0 <= i < done.push(cur).len() implies #[trigger] done.push(cur)[i].len() > 0 by {
                if i < done.len() {
                    assert(done.push(cur)[i] == done[i]);
                }
            }
        }
    }
}

proof fn lemma_pieces_nonempty(s: Seq<char>, sep: char)
    ensures
        forall|i: int|
            0 <= i < nonempty_pieces(s, sep).len() ==> #[trigger] nonempty_pieces(s, sep)[i].len()
                > 0,
{
    lemma_split_state_nonempty(s, sep);
}


// ---------------------------------------------------------------------------
// Subtag roles in a canonical tag
// ---------------------------------------------------------------------------

/// The subtags of a canonical tag.
pub open spec fn tag_pieces(tag: Seq<char>) -> Seq<Seq<char>> {
    nonempty_pieces(tag, '-')
}

/// Index of the first piece equal to `target` at or after `from`, or the
/// number of pieces when there is none.
pub open spec fn find_piece(ps: Seq<Seq<char>>, target: Seq<char>, from: int) -> int
    decreases ps.len() - from,
{
    if from >= ps.len() {
        ps.len() as int
    } else if ps[from] == target {
        from
    } else {
        find_piece(ps, target, from + 1)
    }
}

/// Index of the `u` extension marker, or the number of pieces.
pub open spec fn marker_index(ps: Seq<Seq<char>>) -> int {
    find_piece(ps, seq!['u'], 0)
}

/// The subtags before the extension.
pub open spec fn base_pieces(ps: Seq<Seq<char>>) -> Seq<Seq<char>> {
    ps.take(marker_index(ps))
}

/// The subtags after the extension marker.
pub open spec fn extension_pieces(ps: Seq<Seq<char>>) -> Seq<Seq<char>> {
    if marker_index(ps) < ps.len() {
        ps.skip(marker_index(ps) + 1)
    } else {
        Seq::empty()
    }
}

/// The language subtag (first subtag), empty when the tag starts with the extension.
pub open spec fn language_of(ps: Seq<Seq<char>>) -> Seq<char> {
    if marker_index(ps) > 0 {
        ps[0]
    } else {
        Seq::empty()
    }
}

/// Index of the first base subtag at or after `from` that has 2 or 3
/// characters, or `end` when there is none.
pub open spec fn find_region(ps: Seq<Seq<char>>, from: int, end: int) -> int
    decreases end - from,
{
    if from >= end {
        end
    } else if ps[from].len() == 2 || ps[from].len() == 3 {
        from
    } else {
        find_region(ps, from + 1, end)
    }
}

/// The region subtag: the first subtag after the language with 2 or 3 characters.
pub open spec fn region_of(ps: Seq<Seq<char>>) -> Option<Seq<char>> {
    let m = marker_index(ps);
    let r = find_region(ps, 1, m);
    if r < m {
        Some(ps[r])
    } else {
        None
    }
}

/// The extension value of `key`: the subtag right after the first extension
/// subtag equal to `key`.
pub open spec fn extension_value_of(exts: Seq<Seq<char>>, key: Seq<char>) -> Option<Seq<char>> {
    let j = find_piece(exts, key, 0);
    if j + 1 < exts.len() {
        Some(exts[j + 1])
    } else {
        None
    }
}

/// The parsed roles of the subtags of a tag.
pub struct TagDetails {
    pub language: String,
    pub region: Option<String>,
    pub extensions: Vec<String>,
}

pub open spec fn opt_chars(o: Option<String>) -> Option<Seq<char>> {
    match o {
        Some(s) => Some(s@),
        None => None,
    }
}

impl TagDetails {
    pub open spec fn extension_subtags(&self) -> Seq<Seq<char>> {
        Seq::new(self.extensions@.len(), |i: int| self.extensions@[i]@)
    }

    /// The details describe the subtags `ps`.
    pub open spec fn describes(&self, ps: Seq<Seq<char>>) -> bool {
        &&& self.language@ == language_of(ps)
        &&& opt_chars(self.region) == region_of(ps)
        &&& self.extension_subtags() == extension_pieces(ps)
    }
}

fn find_piece_exec(ps: &Vec<Vec<char>>, target: &Vec<char>, from: usize) -> (r: usize)
    requires
        from <= ps.len(),
    ensures
        r as int == find_piece(ps.deep_view(), target@, from as int),
        from <= r <= ps.len(),
{
    let mut i = from;
    while i < ps.len()
        invariant
            from <= i <= ps.len(),
            find_piece(ps.deep_view(), target@, from as int) == find_piece(
                ps.deep_view(),
                target@,
                i as int,
            ),
        decreases ps.len() - i,
    {
        if crate::text::chars_equal(&ps[i], target) {
            return i;
        }
        i = i + 1;
    }
    i
}

fn find_region_exec(ps: &Vec<Vec<char>>, from: usize, end: usize) -> (r: usize)
    requires
        from <= end <= ps.len(),
    ensures
        r as int == find_region(ps.deep_view(), from as int, end as int),
        from <= r <= end,
{
    let mut i = from;
    while i < end
        invariant
            from <= i <= end <= ps.len(),
            find_region(ps.deep_view(), from as int, end as int) == find_region(
                ps.deep_view(),
                i as int,
                end as int,
            ),
        decreases end - i,
    {
        if ps[i].len() == 2 || ps[i].len() == 3 {
            return i;
        }
        i = i + 1;
    }
    i
}

/// Splits a canonical tag into its language, region and extension subtags.
pub fn parse_tag_details(tag: &I18nTag) -> (d: TagDetails)
    ensures
        d.describes(tag_pieces(tag@)),
{
    let chars = chars_of(tag.as_str());
    let ps = split_nonempty(&chars, '-');
    let mut marker: Vec<char> = Vec::new();
    marker.push('u');
    assert(marker@ =~= seq!['u']);
    let m = find_piece_exec(&ps, &marker, 0);
    let language = if m > 0 {
        crate::text::string_from_chars(&ps[0])
    } else {
        String::new()
    };
    let region = if m > 1 {
        let r = find_region_exec(&ps, 1, m);
        if r < m {
            Some(crate::text::string_from_chars(&ps[r]))
        } else {
            None
        }
    } else {
        proof {
            assert(find_region(ps.deep_view(), 1, m as int) == m as int);
        }
        None
    };
    let mut extensions: Vec<String> = Vec::new();
    if m < ps.len() {
        let mut i = m + 1;
        while i < ps.len()
            invariant
                m < i <= ps.len(),
                Seq::new(extensions@.len(), |k: int| extensions@[k]@) == ps.deep_view().subrange(
                    m + 1,
                    i as int,
                ),
            decreases ps.len() - i,
        {
            let ghost before = Seq::new(extensions@.len(), |k: int| extensions@[k]@);
            let piece = crate::text::string_from_chars(&ps[i]);
            extensions.push(piece);
            assert(Seq::new(extensions@.len(), |k: int| extensions@[k]@) =~= before.push(
                ps.deep_view()[i as int],
            ));
            assert(ps.deep_view().subrange(m + 1, i + 1) =~= ps.deep_view().subrange(
                m + 1,
                i as int,
            ).push(ps.deep_view()[i as int]));
            i = i + 1;
        }
        assert(ps.deep_view().subrange(m + 1, ps.len() as int) =~= ps.deep_view().skip(m + 1));
    }
    let d = TagDetails { language, region, extensions };
    assert(d.extension_subtags() =~= extension_pieces(ps.deep_view()));
    d
}

/// The value of the extension key `key` (`ca`, `nu`, `tz`, `co`, `kf`, `unit`).
pub fn extension_value(details: &TagDetails, key: &str) -> (v: Option<String>)
    ensures
        opt_chars(v) == extension_value_of(details.extension_subtags(), key@),
{
    let key_chars = chars_of(key);
    let j = find_text(&details.extensions, &key_chars);
    if j < details.extensions.len() && j + 1 < details.extensions.len() {
        Some(details.extensions[j + 1].clone())
    } else {
        None
    }
}

/// Index of the first string spelling `target`, or the number of strings.
fn find_text(items: &Vec<String>, target: &Vec<char>) -> (r: usize)
    ensures
        r as int == find_piece(Seq::new(items@.len(), |i: int| items@[i]@), target@, 0),
        r <= items.len(),
{
    let ghost ps = Seq::new(items@.len(), |i: int| items@[i]@);
    let mut j: usize = 0;
    while j < items.len()
        invariant
            j <= items.len(),
            ps == Seq::new(items@.len(), |i: int| items@[i]@),
            find_piece(ps, target@, 0) == find_piece(ps, target@, j as int),
        decreases items.len() - j,
    {
        let piece = chars_of(items[j].as_str());
        assert(piece@ == ps[j as int]);
        if crate::text::chars_equal(&piece, target) {
            return j;
        }
        j = j + 1;
    }
    j
}

/// Whether the character vector spells the literal `lit`.
fn is_text(v: &Vec<char>, lit: &str) -> (r: bool)
    ensures
        r == (v@ == lit@),
{
    let l = chars_of(lit);
    crate::text::chars_equal(v, &l)
}

/// Languages written right to left.
pub open spec fn is_rtl_language(lang: Seq<char>) -> bool {
    lang == "ar"@ || lang == "fa"@ || lang == "he"@ || lang == "ur"@ || lang == "ps"@ || lang
        == "dv"@ || lang == "yi"@ || lang == "ug"@ || lang == "sd"@ || lang == "ckb"@
}

pub open spec fn direction_of_language(lang: Seq<char>) -> Direction {
    if is_rtl_language(lang) {
        Direction::Rtl
    } else {
        Direction::Ltr
    }
}

/// Writing direction of a language subtag.
pub fn direction_for_language(language: &String) -> (d: Direction)
    ensures
        d == direction_of_language(language@),
{
    let l = chars_of(language.as_str());
    if is_text(&l, "ar") || is_text(&l, "fa") || is_text(&l, "he") || is_text(&l, "ur")
        || is_text(&l, "ps") || is_text(&l, "dv") || is_text(&l, "yi") || is_text(&l, "ug")
        || is_text(&l, "sd") || is_text(&l, "ckb") {
        Direction::Rtl
    } else {
        Direction::Ltr
    }
}

/// Regions whose week starts on Sunday.
pub open spec fn is_sunday_region(r: Seq<char>) -> bool {
    r == "US"@ || r == "CA"@ || r == "JP"@ || r == "BR"@ || r == "MX"@ || r == "IN"@
}

/// Regions whose week starts on Saturday.
pub open spec fn is_saturday_region(r: Seq<char>) -> bool {
    r == "SA"@ || r == "AE"@ || r == "EG"@ || r == "OM"@ || r == "QA"@ || r == "KW"@ || r
        == "BH"@ || r == "IQ"@ || r == "JO"@ || r == "SY"@ || r == "DZ"@ || r == "SD"@ || r
        == "LY"@ || r == "IR"@ || r == "AF"@
}

/// Regions using a 12-hour clock.
pub open spec fn is_h12_region(r: Seq<char>) -> bool {
    r == "US"@ || r == "CA"@ || r == "AU"@ || r == "NZ"@ || r == "IN"@ || r == "PH"@ || r
        == "PK"@
}

pub open spec fn first_day_of(region: Option<Seq<char>>) -> Seq<char> {
    match region {
        Some(r) => if is_sunday_region(r) {
            "sun"@
        } else if is_saturday_region(r) {
            "sat"@
        } else {
            "mon"@
        },
        None => "mon"@,
    }
}

pub open spec fn hour_cycle_of(region: Option<Seq<char>>) -> Seq<char> {
    match region {
        Some(r) => if is_h12_region(r) {
            "h12"@
        } else {
            "h23"@
        },
        None => "h23"@,
    }
}

/// First day of the week for a region (`mon` when unknown).
pub fn lenient_first_day(region: Option<&str>) -> (d: &'static str)
    ensures
        d@ == first_day_of(match region {
            Some(r) => Some(r@),
            None => None,
        }),
{
    match region {
        Some(r) => {
            let l = chars_of(r);
            if is_text(&l, "US") || is_text(&l, "CA") || is_text(&l, "JP") || is_text(&l, "BR")
                || is_text(&l, "MX") || is_text(&l, "IN") {
                "sun"
            } else if is_text(&l, "SA") || is_text(&l, "AE") || is_text(&l, "EG") || is_text(
                &l,
                "OM",
            ) || is_text(&l, "QA") || is_text(&l, "KW") || is_text(&l, "BH") || is_text(&l, "IQ")
                || is_text(&l, "JO") || is_text(&l, "SY") || is_text(&l, "DZ") || is_text(
                &l,
                "SD",
            ) || is_text(&l, "LY") || is_text(&l, "IR") || is_text(&l, "AF") {
                "sat"
            } else {
                "mon"
            }
        },
        None => "mon",
    }
}

/// Hour cycle for a region (`h23` when unknown).
pub fn lenient_hour_cycle(region: Option<&str>) -> (c: &'static str)
    ensures
        c@ == hour_cycle_of(match region {
            Some(r) => Some(r@),
            None => None,
        }),
{
    match region {
        Some(r) => {
            let l = chars_of(r);
            if is_text(&l, "US") || is_text(&l, "CA") || is_text(&l, "AU") || is_text(&l, "NZ")
                || is_text(&l, "IN") || is_text(&l, "PH") || is_text(&l, "PK") {
                "h12"
            } else {
                "h23"
            }
        },
        None => "h23",
    }
}

/// The tag itself, then its base subtags cut back one at a time down to the
/// language (`en-GB-u-ca-x` -> `en-GB-u-ca-x`, `en-GB`, `en`).
pub open spec fn parent_chain_of(tag: Seq<char>) -> Seq<Seq<char>> {
    let base = base_pieces(tag_pieces(tag));
    seq![tag] + Seq::new(base.len(), |i: int| join_spec(base.take(base.len() - i), '-'))
}

/// The parents of a tag, most specific first.
pub fn build_parent_chain(tag: &I18nTag) -> (chain: Vec<I18nTag>)
    ensures
        Seq::new(chain@.len(), |i: int| chain@[i]@) == parent_chain_of(tag@),
{
    let chars = chars_of(tag.as_str());
    let ps = split_nonempty(&chars, '-');
    let mut marker: Vec<char> = Vec::new();
    marker.push('u');
    assert(marker@ =~= seq!['u']);
    let m = find_piece_exec(&ps, &marker, 0);
    let ghost base = base_pieces(ps.deep_view());
    let mut prefix: Vec<Vec<char>> = Vec::new();
    let mut chain: Vec<I18nTag> = Vec::new();
    chain.push(tag.duplicate());
    let mut k = m;
    while k > 0
        invariant
            k <= m <= ps.len(),
            base == ps.deep_view().take(m as int),
            chain@.len() == 1 + (m - k),
            chain@[0]@ == tag@,
            forall|i: int|
                1 <= i < chain@.len() ==> #[trigger] chain@[i]@ == join_spec(
                    base.take(base.len() - (i - 1)),
                    '-',
                ),
        decreases k,
    {
        let mut parts: Vec<Vec<char>> = Vec::new();
        let mut j: usize = 0;
        while j < k
            invariant
                j <= k <= m <= ps.len(),
                parts.deep_view() == ps.deep_view().take(j as int),
            decreases k - j,
        {
            let ghost before = parts.deep_view();
            parts.push(ps[j].clone());
            assert(parts.deep_view() =~= before.push(ps.deep_view()[j as int]));
            j = j + 1;
            assert(ps.deep_view().take(j as int) =~= before.push(ps.deep_view()[j - 1]));
        }
        assert(parts.deep_view() =~= base.take(k as int));
        let text = join_chars(&parts, '-');
        let ghost old_chain = chain@;
        chain.push(I18nTag::from_canonical(text));
        assert(base.len() - ((chain@.len() - 1) - 1) == k);
        k = k - 1;
    }
    let ghost expected = parent_chain_of(tag@);
    assert(Seq::new(chain@.len(), |i: int| chain@[i]@) =~= expected);
    chain
}
} // verus!
