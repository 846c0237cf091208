//! What the canonical encoding of a profile keeps: every field can be read
//! back from it, so two profiles with the same encoding are the same profile.
use vstd::prelude::*;
use vstd::utf8::encode_utf8;
use crate::cbor::{
    profile_keys, profile_entries, optional_entry, ranked, lemma_profile_keys_ordered, canonical_profile_bytes,
    cbor_text_map, cbor_entries, cbor_text, cbor_head,
};
use crate::json_map::{lookup, lemma_lex_irreflexive, lemma_lookup_at};
use crate::profile::{ProfileModel, direction_text, Direction};

verus! {

/// The text a profile holds under the profile key at position `r`; `None`
/// for an absent optional field.
pub open spec fn field_text(p: ProfileModel, r: int) -> Option<Seq<char>> {
    if r == 0 {
        Some(p.calendar)
    } else if r == 1 {
        p.case_first
    } else if r == 2 {
        p.collation
    } else if r == 3 {
        p.currency
    } else if r == 4 {
        Some(seq![p.decimal_separator])
    } else if r == 5 {
        Some(direction_text(p.direction))
    } else if r == 6 {
        Some(p.first_day)
    } else if r == 7 {
        Some(p.hour_cycle)
    } else if r == 8 {
        Some(p.numbering_system)
    } else if r == 9 {
        Some(p.tag)
    } else if r == 10 {
        Some(p.timezone)
    } else {
        p.units
    }
}

/// The entries of the first `n` profile keys, in key order.
spec fn entries_upto(p: ProfileModel, n: nat) -> Seq<(Seq<char>, Seq<char>)>
    decreases n,
{
    if n == 0 {
        Seq::empty()
    } else {
        entries_upto(p, (n - 1) as nat) + optional_entry(profile_keys()[n - 1], field_text(p, n - 1))
    }
}

spec fn built(p: ProfileModel, entries: Seq<(Seq<char>, Seq<char>)>, ranks: Seq<int>, n: int) -> bool {
    &&& ranked(entries, ranks)
    &&& forall|i: int| 0 <= i < ranks.len() ==> field_text(p, #[trigger] ranks[i]) == Some(entries[i].1)
    &&& forall|i: int| 0 <= i < ranks.len() ==> #[trigger] ranks[i] < n
    &&& forall|x: int| 0 <= x < n ==> (ranks.contains(x) <==> #[trigger] field_text(p, x) is Some)
}

proof fn lemma_entries_upto(p: ProfileModel, n: nat) -> (ranks: Seq<int>)
    requires
        n <= 12,
    ensures
        built(p, entries_upto(p, n), ranks, n as int),
    decreases n,
{
    if n == 0 {
        let ranks = Seq::<int>::empty();
        assert(entries_upto(p, 0) =~= Seq::<(Seq<char>, Seq<char>)>::empty());
        ranks
    } else {
        let m = (n - 1) as nat;
        let before = lemma_entries_upto(p, m);
        let e = entries_upto(p, m);
        match field_text(p, m as int) {
            Some(v) => {
                let ranks = before.push(m as int);
                let e2 = e.push((profile_keys()[m as int], v));
                assert(entries_upto(p, n) =~= e2);
                assert forall|i: int| 0 <= i < ranks.len() implies 0 <= #[trigger] ranks[i] < profile_keys().len()
                    && e2[i].0 == profile_keys()[ranks[i]] by {
                    if i < before.len() {
                        assert(ranks[i] == before[i] && e2[i] == e[i]);
                    }
                }
                assert forall|i: int, j: int| 0 <= i < j < ranks.len() implies #[trigger] ranks[i] < #[trigger] ranks[j] by {
                    assert(ranks[i] == before[i]);
                    if j < before.len() {
                        assert(ranks[j] == before[j]);
                    }
                }
                assert forall|i: int| 0 <= i < ranks.len() implies field_text(p, #[trigger] ranks[i]) == Some(e2[i].1) by {
                    if i < before.len() {
                        assert(ranks[i] == before[i] && e2[i] == e[i]);
                    }
                }
                assert forall|i: int| 0 <= i < ranks.len() implies #[trigger] ranks[i] < n by {
                    if i < before.len() {
                        assert(ranks[i] == before[i]);
                    }
                }
                assert forall|x: int| 0 <= x < n implies (ranks.contains(x) <==> #[trigger] field_text(p, x) is Some) by {
                    if x < m {
                        if before.contains(x) {
                            let w = choose|w: int| 0 <= w < before.len() && before[w] == x;
                            assert(ranks[w] == x);
                        }
                        if ranks.contains(x) {
                            let w = choose|w: int| 0 <= w < ranks.len() && ranks[w] == x;
                            assert(w < before.len());
                            assert(before[w] == x);
                        }
                    } else {
                        assert(ranks[before.len() as int] == x);
                    }
                }
                ranks
            },
            None => {
                assert(entries_upto(p, n) =~= e);
                assert forall|x: int| 0 <= x < n implies (before.contains(x) <==> #[trigger] field_text(p, x) is Some) by {
                    if x == m && before.contains(x) {
                        let w = choose|w: int| 0 <= w < before.len() && before[w] == x;
                        assert(before[w] < m);
                    }
                }
                before
            },
        }
    }
}

proof fn lemma_keys_distinct(a: int, b: int)
    requires
        0 <= a < profile_keys().len(),
        0 <= b < profile_keys().len(),
        a != b,
    ensures
        profile_keys()[a] != profile_keys()[b],
{
    if a < b {
        lemma_profile_keys_ordered(a, b);
    } else {
        lemma_profile_keys_ordered(b, a);
    }
    lemma_lex_irreflexive(profile_keys()[a]);
}

proof fn lemma_profile_entries_upto(p: ProfileModel)
    ensures
        profile_entries(p) =~= entries_upto(p, 12),
{
    reveal_with_fuel(entries_upto, 13);
    let ks = profile_keys();
    assert(ks[0] == "calendar"@ && ks[1] == "case_first"@ && ks[2] == "collation"@ && ks[3] == "currency"@);
    assert(ks[4] == "decimal_separator"@ && ks[5] == "direction"@ && ks[6] == "first_day"@ && ks[7] == "hour_cycle"@);
    assert(ks[8] == "numbering_system"@ && ks[9] == "tag"@ && ks[10] == "timezone"@ && ks[11] == "units"@);
    assert(optional_entry(ks[0], field_text(p, 0)) =~= seq![("calendar"@, p.calendar)]);
    assert(entries_upto(p, 1) =~= seq![("calendar"@, p.calendar)]);
}

/// Each field of a profile is what its canonical entries hold under the
/// field's key: the text of a present field, nothing for an absent optional
/// field.
pub proof fn law_profile_entries_hold_the_fields(p: ProfileModel)
    ensures
        forall|r: int| 0 <= r < 12 ==> lookup(profile_entries(p), #[trigger] profile_keys()[r]) == field_text(p, r),
        lookup(profile_entries(p), "timezone"@) == Some(p.timezone),
        lookup(profile_entries(p), "tag"@) == Some(p.tag),
        lookup(profile_entries(p), "currency"@) == p.currency,
        lookup(profile_entries(p), "calendar"@) == Some(p.calendar),
        lookup(profile_entries(p), "numbering_system"@) == Some(p.numbering_system),
        lookup(profile_entries(p), "first_day"@) == Some(p.first_day),
        lookup(profile_entries(p), "hour_cycle"@) == Some(p.hour_cycle),
        lookup(profile_entries(p), "direction"@) == Some(direction_text(p.direction)),
        lookup(profile_entries(p), "decimal_separator"@) == Some(seq![p.decimal_separator]),
        lookup(profile_entries(p), "collation"@) == p.collation,
        lookup(profile_entries(p), "case_first"@) == p.case_first,
        lookup(profile_entries(p), "units"@) == p.units,
{
    lemma_profile_entries_upto(p);
    let entries = profile_entries(p);
    let ranks = lemma_entries_upto(p, 12);
    crate::cbor::law_profile_keys_ascend(p);
    assert forall|r: int| 0 <= r < 12 implies lookup(entries, #[trigger] profile_keys()[r]) == field_text(p, r) by {
        if ranks.contains(r) {
            let i = choose|i: int| 0 <= i < ranks.len() && ranks[i] == r;
            lemma_lookup_at(entries, i);
        } else {
            assert forall|j: int| 0 <= j < entries.len() implies #[trigger] entries[j].0 != profile_keys()[r] by {
                assert(ranks[j] != r);
                lemma_keys_distinct(ranks[j], r);
            }
        }
    }
    let ks = profile_keys();
    assert(ks[0] == "calendar"@ && ks[1] == "case_first"@ && ks[2] == "collation"@ && ks[3] == "currency"@);
    assert(ks[4] == "decimal_separator"@ && ks[5] == "direction"@ && ks[6] == "first_day"@ && ks[7] == "hour_cycle"@);
    assert(ks[8] == "numbering_system"@ && ks[9] == "tag"@ && ks[10] == "timezone"@ && ks[11] == "units"@);
}

/// Two profiles with the same canonical entries are the same profile.
pub proof fn law_profile_entries_determine_the_profile(p: ProfileModel, q: ProfileModel)
    requires
        profile_entries(p) == profile_entries(q),
    ensures
        p == q,
{
    law_profile_entries_hold_the_fields(p);
    law_profile_entries_hold_the_fields(q);
    let ks = profile_keys();
    assert(field_text(p, 4) == field_text(q, 4)) by {
        assert(lookup(profile_entries(p), ks[4]) == lookup(profile_entries(q), ks[4]));
    }
    assert(seq![p.decimal_separator][0] == seq![q.decimal_separator][0]);
    assert(direction_text(p.direction) == direction_text(q.direction));
    if p.direction != q.direction {
        reveal_strlit("ltr");
        reveal_strlit("rtl");
        assert(direction_text(Direction::Ltr)[0] != direction_text(Direction::Rtl)[0]);
    }
}

proof fn lemma_head_prefix(m: u8, a: u64, b: u64, x: Seq<u8>, y: Seq<u8>)
    requires
        m < 8,
        cbor_head(m, a) + x == cbor_head(m, b) + y,
    ensures
        a == b,
        x == y,
{
    let ha = cbor_head(m, a);
    let hb = cbor_head(m, b);
    let s = ha + x;
    assert(s[0] == ha[0]);
    assert((hb + y)[0] == hb[0]);
    if a < 24 {
        assert(ha[0] == m * 32 + a);
    }
    if b < 24 {
        assert(hb[0] == m * 32 + b);
    }
    if a != b {
        if a < 24 || b < 24 {
            assert(false);
        } else if a < 256 {
            assert(b < 256);
            assert(s[1] == ha[1] && s[1] == (hb + y)[1] && (hb + y)[1] == hb[1]);
            assert(a < 256 && b < 256 && a as u8 == b as u8 ==> a == b) by (bit_vector);
        } else if a < 65536 {
            assert(256 <= b < 65536);
            assert(s[1] == ha[1] && s[1] == (hb + y)[1] && (hb + y)[1] == hb[1]);
            assert(s[2] == ha[2] && s[2] == (hb + y)[2] && (hb + y)[2] == hb[2]);
            assert(a < 65536 && b < 65536 && (a >> 8u64) as u8 == (b >> 8u64) as u8 && a as u8 == b as u8 ==> a
                == b) by (bit_vector);
        } else if a < 0x1_0000_0000 {
            assert(65536 <= b < 0x1_0000_0000);
            assert forall|i: int| 1 <= i < 5 implies ha[i] == hb[i] by {
                assert(s[i] == ha[i] && s[i] == (hb + y)[i] && (hb + y)[i] == hb[i]);
            }
            assert(a < 0x1_0000_0000 && b < 0x1_0000_0000 && (a >> 24u64) as u8 == (b >> 24u64) as u8 && (a
                >> 16u64) as u8 == (b >> 16u64) as u8 && (a >> 8u64) as u8 == (b >> 8u64) as u8 && a as u8
                == b as u8 ==> a == b) by (bit_vector);
        } else {
            assert(b >= 0x1_0000_0000);
            assert forall|i: int| 1 <= i < 9 implies ha[i] == hb[i] by {
                assert(s[i] == ha[i] && s[i] == (hb + y)[i] && (hb + y)[i] == hb[i]);
            }
            assert((a >> 56u64) as u8 == (b >> 56u64) as u8 && (a >> 48u64) as u8 == (b >> 48u64) as u8 && (a
                >> 40u64) as u8 == (b >> 40u64) as u8 && (a >> 32u64) as u8 == (b >> 32u64) as u8 && (a >> 24u64) as u8
                == (b >> 24u64) as u8 && (a >> 16u64) as u8 == (b >> 16u64) as u8 && (a >> 8u64) as u8 == (b
                >> 8u64) as u8 && a as u8 == b as u8 ==> a == b) by (bit_vector);
        }
    }
    assert(x =~= s.skip(ha.len() as int));
    assert(y =~= (hb + y).skip(hb.len() as int));
}

/// A text whose UTF-8 length fits the 64-bit length of a CBOR head.
pub open spec fn text_fits(t: Seq<char>) -> bool {
    encode_utf8(t).len() < 0x1_0000_0000_0000_0000
}

/// Every key and value text of the entries fits, and so does their count.
pub open spec fn entries_fit(entries: Seq<(Seq<char>, Seq<char>)>) -> bool {
    &&& entries.len() < 0x1_0000_0000_0000_0000
    &&& forall|i: int| 0 <= i < entries.len() ==> text_fits(#[trigger] entries[i].0) && text_fits(entries[i].1)
}

proof fn lemma_text_prefix(s: Seq<char>, t: Seq<char>, x: Seq<u8>, y: Seq<u8>)
    requires
        text_fits(s),
        text_fits(t),
        cbor_text(s) + x == cbor_text(t) + y,
    ensures
        s == t,
        x == y,
{
    let us = encode_utf8(s);
    let ut = encode_utf8(t);
    assert(cbor_head(3, us.len() as u64) + (us + x) =~= cbor_text(s) + x);
    assert(cbor_head(3, ut.len() as u64) + (ut + y) =~= cbor_text(t) + y);
    lemma_head_prefix(3, us.len() as u64, ut.len() as u64, us + x, ut + y);
    assert(us =~= (us + x).take(us.len() as int));
    assert(ut =~= (ut + y).take(ut.len() as int));
    assert(x =~= (us + x).skip(us.len() as int));
    assert(y =~= (ut + y).skip(ut.len() as int));
    vstd::utf8::encode_utf8_decode_utf8(s);
    vstd::utf8::encode_utf8_decode_utf8(t);
}

proof fn lemma_entries_front(e: Seq<(Seq<char>, Seq<char>)>)
    requires
        e.len() > 0,
    ensures
        cbor_entries(e) =~= cbor_text(e[0].0) + cbor_text(e[0].1) + cbor_entries(e.drop_first()),
    decreases e.len(),
{
    if e.len() > 1 {
        lemma_entries_front(e.drop_last());
        assert(e.drop_last().drop_first() =~= e.drop_first().drop_last());
        assert(e.drop_last()[0] == e[0]);
        assert(e.drop_first().last() == e.last());
    } else {
        assert(e.drop_last() =~= Seq::<(Seq<char>, Seq<char>)>::empty());
        assert(e.drop_first() =~= Seq::<(Seq<char>, Seq<char>)>::empty());
    }
}

proof fn lemma_entries_prefix(e1: Seq<(Seq<char>, Seq<char>)>, e2: Seq<(Seq<char>, Seq<char>)>, x: Seq<u8>, y: Seq<u8>)
    requires
        e1.len() == e2.len(),
        entries_fit(e1),
        entries_fit(e2),
        cbor_entries(e1) + x == cbor_entries(e2) + y,
    ensures
        e1 == e2,
        x == y,
    decreases e1.len(),
{
    if e1.len() == 0 {
        assert(cbor_entries(e1) + x =~= x);
        assert(cbor_entries(e2) + y =~= y);
        assert(e1 =~= e2);
    } else {
        lemma_entries_front(e1);
        lemma_entries_front(e2);
        let r1 = e1.drop_first();
        let r2 = e2.drop_first();
        assert(text_fits(e1[0].0) && text_fits(e1[0].1));
        assert(text_fits(e2[0].0) && text_fits(e2[0].1));
        assert(cbor_text(e1[0].0) + (cbor_text(e1[0].1) + cbor_entries(r1) + x) =~= cbor_entries(e1) + x);
        assert(cbor_text(e2[0].0) + (cbor_text(e2[0].1) + cbor_entries(r2) + y) =~= cbor_entries(e2) + y);
        lemma_text_prefix(e1[0].0, e2[0].0, cbor_text(e1[0].1) + cbor_entries(r1) + x, cbor_text(e2[0].1)
            + cbor_entries(r2) + y);
        assert(cbor_text(e1[0].1) + (cbor_entries(r1) + x) =~= cbor_text(e1[0].1) + cbor_entries(r1) + x);
        assert(cbor_text(e2[0].1) + (cbor_entries(r2) + y) =~= cbor_text(e2[0].1) + cbor_entries(r2) + y);
        lemma_text_prefix(e1[0].1, e2[0].1, cbor_entries(r1) + x, cbor_entries(r2) + y);
        assert forall|i: int| 0 <= i < r1.len() implies text_fits(#[trigger] r1[i].0) && text_fits(r1[i].1) by {
            assert(r1[i] == e1[i + 1]);
        }
        assert forall|i: int| 0 <= i < r2.len() implies text_fits(#[trigger] r2[i].0) && text_fits(r2[i].1) by {
            assert(r2[i] == e2[i + 1]);
        }
        lemma_entries_prefix(r1, r2, x, y);
        assert(e1 =~= seq![e1[0]] + r1);
        assert(e2 =~= seq![e2[0]] + r2);
    }
}

/// Two CBOR text maps with the same bytes have the same entries.
pub proof fn lemma_text_map_injective(e1: Seq<(Seq<char>, Seq<char>)>, e2: Seq<(Seq<char>, Seq<char>)>)
    requires
        entries_fit(e1),
        entries_fit(e2),
        cbor_text_map(e1) == cbor_text_map(e2),
    ensures
        e1 == e2,
{
    let empty = Seq::<u8>::empty();
    lemma_head_prefix(5, e1.len() as u64, e2.len() as u64, cbor_entries(e1), cbor_entries(e2));
    assert(cbor_entries(e1) + empty =~= cbor_entries(e1));
    assert(cbor_entries(e2) + empty =~= cbor_entries(e2));
    lemma_entries_prefix(e1, e2, empty, empty);
}

proof fn lemma_utf8_len(t: Seq<char>)
    ensures
        encode_utf8(t).len() <= 4 * t.len(),
    decreases t.len(),
{
    if t.len() > 0 {
        lemma_utf8_len(t.drop_first());
    }
}

proof fn lemma_keys_fit(r: int)
    requires
        0 <= r < 12,
    ensures
        text_fits(profile_keys()[r]),
{
    reveal_strlit("calendar");
    reveal_strlit("case_first");
    reveal_strlit("collation");
    reveal_strlit("currency");
    reveal_strlit("decimal_separator");
    reveal_strlit("direction");
    reveal_strlit("first_day");
    reveal_strlit("hour_cycle");
    reveal_strlit("numbering_system");
    reveal_strlit("tag");
    reveal_strlit("timezone");
    reveal_strlit("units");
    lemma_utf8_len(profile_keys()[r]);
}

/// Every text field of a profile fits the 64-bit length of a CBOR head, as
/// the text of any string does.
pub open spec fn profile_fits(p: ProfileModel) -> bool {
    forall|r: int| 0 <= r < 12 ==> (#[trigger] field_text(p, r) matches Some(t) ==> text_fits(t))
}

proof fn lemma_profile_entries_fit(p: ProfileModel)
    requires
        profile_fits(p),
    ensures
        entries_fit(profile_entries(p)),
{
    lemma_profile_entries_upto(p);
    let entries = profile_entries(p);
    let ranks = lemma_entries_upto(p, 12);
    assert forall|i: int| 0 <= i < entries.len() implies text_fits(#[trigger] entries[i].0) && text_fits(entries[i].1) by {
        let r = ranks[i];
        lemma_keys_fit(r);
        assert(field_text(p, r) == Some(entries[i].1));
    }
}

/// The canonical bytes determine the profile: two profiles (their texts of
/// any length a string can have) with the same canonical encoding are the
/// same profile, so profiles differing in any field, the time zone among
/// them, are encoded differently.
pub proof fn law_canonical_bytes_determine_the_profile(p: ProfileModel, q: ProfileModel)
    requires
        profile_fits(p),
        profile_fits(q),
    ensures
        canonical_profile_bytes(p) == canonical_profile_bytes(q) <==> p == q,
{
    if canonical_profile_bytes(p) == canonical_profile_bytes(q) {
        lemma_profile_entries_fit(p);
        lemma_profile_entries_fit(q);
        lemma_text_map_injective(profile_entries(p), profile_entries(q));
        law_profile_entries_determine_the_profile(p, q);
    }
}

} // verus!
