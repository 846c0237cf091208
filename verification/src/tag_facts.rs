//! Facts about tag canonicalization: case conventions are stable, subtags
//! survive joining and splitting, and canonical subtags are their own
//! canonical form.
use vstd::prelude::*;
use vstd::utf8::encode_scalar;
use crate::text::{ascii_lower, ascii_upper, lower_seq, upper_seq, unicode_whitespace};
use crate::tag::{
    byte_len, title_case, normalize_subtag, is_extension_marker, canonical_subtags_state, join_spec,
    split_state, nonempty_pieces, trim_start_spec, trim_spec,
};

verus! {

/// A piece of a tag: not empty, without the separator.
pub open spec fn clean_piece(p: Seq<char>, sep: char) -> bool {
    p.len() > 0 && !p.contains(sep)
}

/// Every piece is clean.
pub open spec fn clean_pieces(ps: Seq<Seq<char>>, sep: char) -> bool {
    forall|i: int| 0 <= i < ps.len() ==> clean_piece(#[trigger] ps[i], sep)
}

proof fn lemma_width_case(c: char)
    ensures
        encode_scalar(ascii_lower(c) as u32).len() == encode_scalar(c as u32).len(),
        encode_scalar(ascii_upper(c) as u32).len() == encode_scalar(c as u32).len(),
{
}

proof fn lemma_byte_len_lower(s: Seq<char>)
    ensures
        byte_len(lower_seq(s)) == byte_len(s),
    decreases s.len(),
{
    if s.len() > 0 {
        lemma_byte_len_lower(s.drop_first());
        lemma_width_case(s[0]);
        assert(lower_seq(s).drop_first() =~= lower_seq(s.drop_first()));
    }
}

proof fn lemma_byte_len_upper(s: Seq<char>)
    ensures
        byte_len(upper_seq(s)) == byte_len(s),
    decreases s.len(),
{
    if s.len() > 0 {
        lemma_byte_len_upper(s.drop_first());
        lemma_width_case(s[0]);
        assert(upper_seq(s).drop_first() =~= upper_seq(s.drop_first()));
    }
}

proof fn lemma_byte_len_title(s: Seq<char>)
    requires
        s.len() > 0,
    ensures
        byte_len(title_case(s)) == byte_len(s),
{
    let t = title_case(s);
    lemma_byte_len_lower(s.drop_first());
    lemma_width_case(s[0]);
    assert(t.drop_first() =~= lower_seq(s.drop_first()));
}

/// A subtag in its case convention keeps it when normalized again, stays
/// clean, and is an extension marker only if it was one.
proof fn lemma_normalize_stable(part: Seq<char>, in_extension: bool, is_first: bool)
    requires
        clean_piece(part, '-'),
    ensures
        normalize_subtag(normalize_subtag(part, in_extension, is_first), in_extension, is_first) == normalize_subtag(
            part,
            in_extension,
            is_first,
        ),
        clean_piece(normalize_subtag(part, in_extension, is_first), '-'),
        is_extension_marker(normalize_subtag(part, in_extension, is_first)) ==> is_extension_marker(part),
{
    let n = normalize_subtag(part, in_extension, is_first);
    lemma_byte_len_lower(part);
    lemma_byte_len_upper(part);
    lemma_byte_len_title(part);
    let l = lower_seq(part);
    let u = upper_seq(part);
    let t = title_case(part);
    assert(lower_seq(l) =~= l);
    assert(upper_seq(u) =~= u);
    assert(t.drop_first() =~= lower_seq(part.drop_first()));
    assert(title_case(t) =~= t) by {
        assert(lower_seq(t.drop_first()) =~= t.drop_first());
    }
    assert(n.len() == part.len());
    assert(!n.contains('-')) by {
        if n.contains('-') {
            let i = choose|i: int| 0 <= i < n.len() && n[i] == '-';
            if i == 0 {
                assert(part[0] == '-');
            } else {
                assert(part[i] == '-');
            }
        }
    }
    if is_extension_marker(n) {
        assert(n.len() == 1);
        assert(n[0] == 'u' || n[0] == 'U');
        assert(part[0] == 'u' || part[0] == 'U');
        assert(part =~= seq![part[0]]);
    }
}

/// Canonical subtags are their own canonical form, and stay clean.
proof fn lemma_canonical_fixpoint(parts: Seq<Seq<char>>)
    requires
        clean_pieces(parts, '-'),
    ensures
        canonical_subtags_state(canonical_subtags_state(parts).0) == canonical_subtags_state(parts),
        clean_pieces(canonical_subtags_state(parts).0, '-'),
    decreases parts.len(),
{
    if parts.len() > 0 {
        let prev = parts.drop_last();
        assert(clean_pieces(prev, '-')) by {
            assert forall|i: int| 0 <= i < prev.len() implies clean_piece(#[trigger] prev[i], '-') by {
                assert(prev[i] == parts[i]);
            }
        }
        lemma_canonical_fixpoint(prev);
        let (acc, in_ext) = canonical_subtags_state(prev);
        let part = parts.last();
        assert(clean_piece(part, '-')) by {
            assert(parts[parts.len() - 1] == part);
        }
        if !in_ext && is_extension_marker(part) {
            let next = acc.push(seq!['u']);
            assert(next.drop_last() =~= acc);
            assert(seq!['u'] =~= seq!['u']);
            assert(clean_piece(seq!['u'], '-'));
            assert forall|i: int| 0 <= i < next.len() implies clean_piece(#[trigger] next[i], '-') by {
                if i < acc.len() {
                    assert(next[i] == acc[i]);
                }
            }
        } else {
            let n = normalize_subtag(part, in_ext, acc.len() == 0);
            lemma_normalize_stable(part, in_ext, acc.len() == 0);
            let next = acc.push(n);
            assert(next.drop_last() =~= acc);
            assert forall|i: int| 0 <= i < next.len() implies clean_piece(#[trigger] next[i], '-') by {
                if i < acc.len() {
                    assert(next[i] == acc[i]);
                }
            }
        }
    }
}

/// Reading text without the separator extends the piece being read.
proof fn lemma_split_append(prefix: Seq<char>, q: Seq<char>, sep: char)
    requires
        !q.contains(sep),
    ensures
        split_state(prefix + q, sep) == (split_state(prefix, sep).0, split_state(prefix, sep).1 + q),
    decreases q.len(),
{
    if q.len() == 0 {
        assert(prefix + q =~= prefix);
        assert(split_state(prefix, sep).1 + q =~= split_state(prefix, sep).1);
    } else {
        let q2 = q.drop_last();
        assert(!q2.contains(sep)) by {
            if q2.contains(sep) {
                let i = choose|i: int| 0 <= i < q2.len() && q2[i] == sep;
                assert(q[i] == sep);
            }
        }
        lemma_split_append(prefix, q2, sep);
        assert((prefix + q).drop_last() =~= prefix + q2);
        assert((prefix + q).last() == q.last());
        assert(q.last() != sep) by {
            assert(q[q.len() - 1] == q.last());
        }
        assert(split_state(prefix, sep).1 + q2 + seq![q.last()] =~= split_state(prefix, sep).1 + q);
        assert((split_state(prefix, sep).1 + q2).push(q.last()) =~= split_state(prefix, sep).1 + q);
    }
}

/// Splitting joined clean pieces: all but the last are finished, the last is
/// being read.
proof fn lemma_split_join(ps: Seq<Seq<char>>, sep: char)
    requires
        ps.len() > 0,
        clean_pieces(ps, sep),
    ensures
        split_state(join_spec(ps, sep), sep) == (ps.drop_last(), ps.last()),
    decreases ps.len(),
{
    if ps.len() == 1 {
        assert(clean_piece(ps[0], sep));
        lemma_split_append(Seq::<char>::empty(), ps[0], sep);
        assert(Seq::<char>::empty() + ps[0] =~= ps[0]);
        assert(Seq::<char>::empty() + ps[0] =~= ps[0]);
        assert(ps.drop_last() =~= Seq::<Seq<char>>::empty());
    } else {
        let prev = ps.drop_last();
        assert(clean_pieces(prev, sep)) by {
            assert forall|i: int| 0 <= i < prev.len() implies clean_piece(#[trigger] prev[i], sep) by {
                assert(prev[i] == ps[i]);
            }
        }
        lemma_split_join(prev, sep);
        let joined = join_spec(prev, sep);
        let pushed = joined.push(sep);
        assert(pushed.drop_last() =~= joined);
        assert(clean_piece(prev.last(), sep)) by {
            assert(prev[prev.len() - 1] == prev.last());
        }
        assert(prev.drop_last().push(prev.last()) =~= prev);
        assert(split_state(pushed, sep) == (prev, Seq::<char>::empty()));
        assert(clean_piece(ps.last(), sep)) by {
            assert(ps[ps.len() - 1] == ps.last());
        }
        lemma_split_append(pushed, ps.last(), sep);
        assert(Seq::<char>::empty() + ps.last() =~= ps.last());
    }
}

/// Joined clean pieces split back into the same pieces.
pub proof fn lemma_pieces_of_join(ps: Seq<Seq<char>>, sep: char)
    requires
        ps.len() > 0,
        clean_pieces(ps, sep),
    ensures
        nonempty_pieces(join_spec(ps, sep), sep) == ps,
{
    lemma_split_join(ps, sep);
    assert(clean_piece(ps.last(), sep)) by {
        assert(ps[ps.len() - 1] == ps.last());
    }
    assert(ps.drop_last().push(ps.last()) =~= ps);
}

proof fn lemma_split_state_clean(s: Seq<char>, sep: char)
    ensures
        clean_pieces(split_state(s, sep).0, sep),
        !split_state(s, sep).1.contains(sep),
    decreases s.len(),
{
    if s.len() > 0 {
        lemma_split_state_clean(s.drop_last(), sep);
        let (done, cur) = split_state(s.drop_last(), sep);
        if s.last() == sep {
            if cur.len() > 0 {
                let next = done.push(cur);
                assert forall|i: int| 0 <= i < next.len() implies clean_piece(#[trigger] next[i], sep) by {
                    if i < done.len() {
                        assert(next[i] == done[i]);
                    }
                }
            }
        } else {
            let c2 = cur.push(s.last());
            assert(!c2.contains(sep)) by {
                if c2.contains(sep) {
                    let i = choose|i: int| 0 <= i < c2.len() && c2[i] == sep;
                    if i < cur.len() {
                        assert(cur[i] == sep);
                    }
                }
            }
        }
    }
}

/// The pieces of a split are clean.
pub proof fn lemma_pieces_clean(s: Seq<char>, sep: char)
    ensures
        clean_pieces(nonempty_pieces(s, sep), sep),
{
    lemma_split_state_clean(s, sep);
    let (done, cur) = split_state(s, sep);
    if cur.len() > 0 {
        let next = done.push(cur);
        assert forall|i: int| 0 <= i < next.len() implies clean_piece(#[trigger] next[i], sep) by {
            if i < done.len() {
                assert(next[i] == done[i]);
            }
        }
    }
}

/// Canonical subtags of clean pieces are their own canonical subtags.
pub proof fn lemma_canonical_subtags_fixpoint(parts: Seq<Seq<char>>)
    requires
        clean_pieces(parts, '-'),
    ensures
        canonical_subtags_state(canonical_subtags_state(parts).0).0 == canonical_subtags_state(parts).0,
        clean_pieces(canonical_subtags_state(parts).0, '-'),
{
    lemma_canonical_fixpoint(parts);
}

/// A text whose ends are not whitespace is its own trim.
pub proof fn lemma_trim_keeps(t: Seq<char>)
    requires
        t.len() > 0,
        !unicode_whitespace(t[0]),
        !unicode_whitespace(t.last()),
    ensures
        trim_spec(t) == t,
{
    assert(trim_start_spec(t) == t);
}

} // verus!
