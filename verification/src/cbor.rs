//! Canonical CBOR encoding of a resolved profile: a definite-length map of
//! text keys to text values, keys in ascending order.
use vstd::prelude::*;
use vstd::utf8::encode_utf8;
use crate::profile::{I18nProfile, ProfileModel, direction_text};
use crate::json_map::{lex_lt, lemma_lex_transitive};

verus! {

/// Head of a CBOR data item (RFC 8949, section 3): major type in the top 3
/// bits, then the argument in the shortest form.
pub open spec fn cbor_head(major: u8, value: u64) -> Seq<u8> {
    if value < 24 {
        seq![(major * 32 + value) as u8]
    } else if value < 256 {
        seq![(major * 32 + 24) as u8, value as u8]
    } else if value < 65536 {
        seq![(major * 32 + 25) as u8, (value >> 8u64) as u8, value as u8]
    } else if value < 0x1_0000_0000 {
        seq![
            (major * 32 + 26) as u8,
            (value >> 24u64) as u8,
            (value >> 16u64) as u8,
            (value >> 8u64) as u8,
            value as u8,
        ]
    } else {
        seq![
            (major * 32 + 27) as u8,
            (value >> 56u64) as u8,
            (value >> 48u64) as u8,
            (value >> 40u64) as u8,
            (value >> 32u64) as u8,
            (value >> 24u64) as u8,
            (value >> 16u64) as u8,
            (value >> 8u64) as u8,
            value as u8,
        ]
    }
}

/// A CBOR text string (major type 3) holding the UTF-8 bytes of `s`.
pub open spec fn cbor_text(s: Seq<char>) -> Seq<u8> {
    cbor_head(3, encode_utf8(s).len() as u64) + encode_utf8(s)
}

/// Key and value of each map entry, one after the other.
pub open spec fn cbor_entries(entries: Seq<(Seq<char>, Seq<char>)>) -> Seq<u8>
    decreases entries.len(),
{
    if entries.len() == 0 {
        Seq::empty()
    } else {
        cbor_entries(entries.drop_last()) + cbor_text(entries.last().0) + cbor_text(
            entries.last().1,
        )
    }
}

/// A CBOR map (major type 5) of text keys to text values.
pub open spec fn cbor_text_map(entries: Seq<(Seq<char>, Seq<char>)>) -> Seq<u8> {
    cbor_head(5, entries.len() as u64) + cbor_entries(entries)
}

pub open spec fn optional_entry(key: Seq<char>, value: Option<Seq<char>>) -> Seq<(Seq<char>, Seq<char>)> {
    match value {
        Some(v) => seq![(key, v)],
        None => Seq::empty(),
    }
}

/// The entries of a profile in ascending key order; absent optional fields
/// are left out.
pub open spec fn profile_entries(p: ProfileModel) -> Seq<(Seq<char>, Seq<char>)> {
    seq![("calendar"@, p.calendar)] + optional_entry("case_first"@, p.case_first)
        + optional_entry("collation"@, p.collation) + optional_entry("currency"@, p.currency)
        + seq![
        ("decimal_separator"@, seq![p.decimal_separator]),
        ("direction"@, direction_text(p.direction)),
        ("first_day"@, p.first_day),
        ("hour_cycle"@, p.hour_cycle),
        ("numbering_system"@, p.numbering_system),
        ("tag"@, p.tag),
        ("timezone"@, p.timezone),
    ] + optional_entry("units"@, p.units)
}

/// The canonical encoding of a profile.
pub open spec fn canonical_profile_bytes(p: ProfileModel) -> Seq<u8> {
    cbor_text_map(profile_entries(p))
}

fn push_bytes(buf: &mut Vec<u8>, bytes: &[u8])
    ensures
        final(buf)@ == old(buf)@ + bytes@,
{
    let mut i: usize = 0;
    while i < bytes.len()
        invariant
            i <= bytes.len(),
            buf@ == old(buf)@ + bytes@.take(i as int),
        decreases bytes.len() - i,
    {
        buf.push(bytes[i]);
        assert(bytes@.take(i + 1) == bytes@.take(i as int).push(bytes@[i as int]));
        i = i + 1;
    }
    assert(bytes@.take(bytes@.len() as int) == bytes@);
}

fn initial_byte(major: u8, low: u8) -> (b: u8)
    requires
        major < 8,
        low < 32,
    ensures
        b == (major * 32 + low) as u8,
{
    let b = (major << 5u8) | low;
    assert(b == (major * 32 + low) as u8) by (bit_vector)
        requires
            major < 8,
            low < 32,
            b == (major << 5u8) | low,
    ;
    b
}

/// Appends the head of a data item of major type `major` with argument `value`.
pub fn encode_unsigned(major: u8, value: u64, buf: &mut Vec<u8>)
    requires
        major < 8,
    ensures
        final(buf)@ == old(buf)@ + cbor_head(major, value),
{
    if value < 24 {
        buf.push(initial_byte(major, value as u8));
    } else if value < 256 {
        buf.push(initial_byte(major, 24));
        buf.push(value as u8);
    } else if value < 65_536 {
        buf.push(initial_byte(major, 25));
        buf.push((value >> 8u64) as u8);
        buf.push(value as u8);
    } else if value < 4_294_967_296 {
        buf.push(initial_byte(major, 26));
        buf.push((value >> 24u64) as u8);
        buf.push((value >> 16u64) as u8);
        buf.push((value >> 8u64) as u8);
        buf.push(value as u8);
    } else {
        buf.push(initial_byte(major, 27));
        buf.push((value >> 56u64) as u8);
        buf.push((value >> 48u64) as u8);
        buf.push((value >> 40u64) as u8);
        buf.push((value >> 32u64) as u8);
        buf.push((value >> 24u64) as u8);
        buf.push((value >> 16u64) as u8);
        buf.push((value >> 8u64) as u8);
        buf.push(value as u8);
    }
    assert(final(buf)@ =~= old(buf)@ + cbor_head(major, value));
}

/// Appends the header of a map with `len` entries.
pub fn encode_map_header(len: usize, buf: &mut Vec<u8>)
    ensures
        final(buf)@ == old(buf)@ + cbor_head(5, len as u64),
{
    encode_unsigned(5, len as u64, buf);
}

/// Appends `value` as a CBOR text string.
pub fn encode_text(value: &str, buf: &mut Vec<u8>)
    ensures
        final(buf)@ == old(buf)@ + cbor_text(value@),
{
    let bytes = value.as_bytes();
    encode_unsigned(3, bytes.len() as u64, buf);
    push_bytes(buf, bytes);
    assert(final(buf)@ =~= old(buf)@ + cbor_text(value@));
}

spec fn entries_view(entries: Seq<(&'static str, String)>) -> Seq<(Seq<char>, Seq<char>)> {
    Seq::new(entries.len(), |i: int| (entries[i].0@, entries[i].1@))
}

/// Canonical bytes of a profile: a CBOR map of its fields, keys ascending.
pub fn encode_canonical_profile(profile: &I18nProfile) -> (buf: Vec<u8>)
    ensures
        buf@ == canonical_profile_bytes(profile.model()),
{
    let mut entries: Vec<(&'static str, String)> = Vec::new();
    entries.push(("calendar", profile.calendar.clone()));
    if let Some(case_first) = &profile.case_first {
        entries.push(("case_first", case_first.clone()));
    }
    if let Some(collation) = &profile.collation {
        entries.push(("collation", collation.clone()));
    }
    if let Some(currency) = &profile.currency {
        entries.push(("currency", currency.clone()));
    }
    let mut separator = String::new();
    crate::text::string_push(&mut separator, profile.decimal_separator);
    entries.push(("decimal_separator", separator));
    entries.push(("direction", profile.direction.as_string()));
    entries.push(("first_day", profile.first_day.clone()));
    entries.push(("hour_cycle", profile.hour_cycle.clone()));
    entries.push(("numbering_system", profile.numbering_system.clone()));
    entries.push(("tag", profile.tag.as_str().to_string()));
    entries.push(("timezone", profile.timezone.clone()));
    if let Some(units) = &profile.units {
        entries.push(("units", units.clone()));
    }
    assert(entries_view(entries@) =~= profile_entries(profile.model()));

    let mut buf: Vec<u8> = Vec::new();
    encode_map_header(entries.len(), &mut buf);
    let mut i: usize = 0;
    while i < entries.len()
        invariant
            i <= entries.len(),
            buf@ == cbor_head(5, entries@.len() as u64) + cbor_entries(
                entries_view(entries@).take(i as int),
            ),
        decreases entries.len() - i,
    {
        let ghost before = buf@;
        encode_text(entries[i].0, &mut buf);
        encode_text(entries[i].1.as_str(), &mut buf);
        assert(entries_view(entries@).take(i + 1).drop_last() =~= entries_view(entries@).take(
            i as int,
        ));
        assert(buf@ =~= cbor_head(5, entries@.len() as u64) + cbor_entries(
            entries_view(entries@).take(i + 1),
        ));
        i = i + 1;
    }
    assert(entries_view(entries@).take(entries@.len() as int) =~= entries_view(entries@));
    buf
}


/// The profile keys in their canonical order.
pub open spec fn profile_keys() -> Seq<Seq<char>> {
    seq!["calendar"@, "case_first"@, "collation"@, "currency"@, "decimal_separator"@, "direction"@, "first_day"@, "hour_cycle"@, "numbering_system"@, "tag"@, "timezone"@, "units"@]
}

proof fn lemma_adjacent_keys_ordered()
    ensures
        lex_lt("calendar"@, "case_first"@),
        lex_lt("case_first"@, "collation"@),
        lex_lt("collation"@, "currency"@),
        lex_lt("currency"@, "decimal_separator"@),
        lex_lt("decimal_separator"@, "direction"@),
        lex_lt("direction"@, "first_day"@),
        lex_lt("first_day"@, "hour_cycle"@),
        lex_lt("hour_cycle"@, "numbering_system"@),
        lex_lt("numbering_system"@, "tag"@),
        lex_lt("tag"@, "timezone"@),
        lex_lt("timezone"@, "units"@),
{
    reveal_strlit("calendar");
    reveal_strlit("case_first");
    reveal_strlit("collation");
    reveal_strlit("currency");
    reveal_strlit("decimal_separator");
    reveal_strlit("direction");
    reveal_strlit("first_day");
    reveal_strlit("hour_cycle");
    reveal_strlit("numbering_system");
    reveal_strlit("tag");
    reveal_strlit("timezone");
    reveal_strlit("units");
    reveal_with_fuel(lex_lt, 4);
}

proof fn lemma_chain_ordered(ks: Seq<Seq<char>>, a: int, b: int)
    requires
        forall|i: int| 0 <= i < ks.len() - 1 ==> lex_lt(#[trigger] ks[i], ks[i + 1]),
        0 <= a < b < ks.len(),
    ensures
        lex_lt(ks[a], ks[b]),
    decreases b - a,
{
    if b > a + 1 {
        lemma_chain_ordered(ks, a, b - 1);
        lemma_lex_transitive(ks[a], ks[b - 1], ks[b]);
    }
}

/// The profile keys are strictly ascending.
pub proof fn lemma_profile_keys_ordered(a: int, b: int)
    requires
        0 <= a < b < profile_keys().len(),
    ensures
        lex_lt(profile_keys()[a], profile_keys()[b]),
{
    lemma_adjacent_keys_ordered();
    let ks = profile_keys();
    assert forall|i: int| 0 <= i < ks.len() - 1 implies lex_lt(#[trigger] ks[i], ks[i + 1]) by {
        if i == 0 {
            assert(ks[i] == "calendar"@ && ks[i + 1] == "case_first"@);
        }
        if i == 1 {
            assert(ks[i] == "case_first"@ && ks[i + 1] == "collation"@);
        }
        if i == 2 {
            assert(ks[i] == "collation"@ && ks[i + 1] == "currency"@);
        }
        if i == 3 {
            assert(ks[i] == "currency"@ && ks[i + 1] == "decimal_separator"@);
        }
        if i == 4 {
            assert(ks[i] == "decimal_separator"@ && ks[i + 1] == "direction"@);
        }
        if i == 5 {
            assert(ks[i] == "direction"@ && ks[i + 1] == "first_day"@);
        }
        if i == 6 {
            assert(ks[i] == "first_day"@ && ks[i + 1] == "hour_cycle"@);
        }
        if i == 7 {
            assert(ks[i] == "hour_cycle"@ && ks[i + 1] == "numbering_system"@);
        }
        if i == 8 {
            assert(ks[i] == "numbering_system"@ && ks[i + 1] == "tag"@);
        }
        if i == 9 {
            assert(ks[i] == "tag"@ && ks[i + 1] == "timezone"@);
        }
        if i == 10 {
            assert(ks[i] == "timezone"@ && ks[i + 1] == "units"@);
        }
    }
    lemma_chain_ordered(ks, a, b);
}

/// Entries whose keys sit at strictly increasing positions of the profile keys.
pub open spec fn ranked(entries: Seq<(Seq<char>, Seq<char>)>, ranks: Seq<int>) -> bool {
    &&& ranks.len() == entries.len()
    &&& forall|i: int| 0 <= i < ranks.len() ==> 0 <= #[trigger] ranks[i] < profile_keys().len()
        && entries[i].0 == profile_keys()[ranks[i]]
    &&& forall|i: int, j: int| 0 <= i < j < ranks.len() ==> #[trigger] ranks[i] < #[trigger] ranks[j]
}

proof fn lemma_ranked_sorted(entries: Seq<(Seq<char>, Seq<char>)>, ranks: Seq<int>)
    requires
        ranked(entries, ranks),
    ensures
        crate::json_map::sorted_keys(entries),
{
    assert forall|i: int, j: int| 0 <= i < j < entries.len() implies lex_lt(#[trigger] entries[i].0, #[trigger] entries[j].0) by {
        assert(ranks[i] < ranks[j]);
        lemma_profile_keys_ordered(ranks[i], ranks[j]);
    }
}

proof fn lemma_ranked_push(entries: Seq<(Seq<char>, Seq<char>)>, ranks: Seq<int>, value: Seq<char>, r: int)
    requires
        ranked(entries, ranks),
        0 <= r < profile_keys().len(),
        forall|i: int| 0 <= i < ranks.len() ==> #[trigger] ranks[i] < r,
    ensures
        ranked(entries.push((profile_keys()[r], value)), ranks.push(r)),
{
    let e2 = entries.push((profile_keys()[r], value));
    let r2 = ranks.push(r);
    assert forall|i: int| 0 <= i < r2.len() implies 0 <= #[trigger] r2[i] < profile_keys().len() && e2[i].0 == profile_keys()[r2[i]] by {
        if i < ranks.len() {
            assert(r2[i] == ranks[i]);
            assert(e2[i] == entries[i]);
        }
    }
    assert forall|i: int, j: int| 0 <= i < j < r2.len() implies #[trigger] r2[i] < #[trigger] r2[j] by {
        if j < ranks.len() {
            assert(r2[i] == ranks[i] && r2[j] == ranks[j]);
        } else {
            assert(r2[i] == ranks[i]);
        }
    }
}

proof fn lemma_ranked_optional(entries: Seq<(Seq<char>, Seq<char>)>, ranks: Seq<int>, value: Option<Seq<char>>, r: int) -> (out: Seq<int>)
    requires
        ranked(entries, ranks),
        0 <= r < profile_keys().len(),
        forall|i: int| 0 <= i < ranks.len() ==> #[trigger] ranks[i] < r,
    ensures
        ranked(entries + optional_entry(profile_keys()[r], value), out),
        forall|i: int| 0 <= i < out.len() ==> #[trigger] out[i] <= r,
{
    match value {
        Some(v) => {
            lemma_ranked_push(entries, ranks, v, r);
            assert(entries + optional_entry(profile_keys()[r], value) =~= entries.push((profile_keys()[r], v)));
            let out = ranks.push(r);
            assert forall|i: int| 0 <= i < out.len() implies #[trigger] out[i] <= r by {
                if i < ranks.len() {
                    assert(out[i] == ranks[i]);
                }
            }
            out
        },
        None => {
            assert(entries + optional_entry(profile_keys()[r], value) =~= entries);
            ranks
        },
    }
}

proof fn lemma_ranked_fixed(entries: Seq<(Seq<char>, Seq<char>)>, ranks: Seq<int>, value: Seq<char>, r: int) -> (out: Seq<int>)
    requires
        ranked(entries, ranks),
        0 <= r < profile_keys().len(),
        forall|i: int| 0 <= i < ranks.len() ==> #[trigger] ranks[i] < r,
    ensures
        ranked(entries.push((profile_keys()[r], value)), out),
        forall|i: int| 0 <= i < out.len() ==> #[trigger] out[i] <= r,
{
    lemma_ranked_push(entries, ranks, value, r);
    let out = ranks.push(r);
    assert forall|i: int| 0 <= i < out.len() implies #[trigger] out[i] <= r by {
        if i < ranks.len() {
            assert(out[i] == ranks[i]);
        }
    }
    out
}

/// The canonical encoding lists a profile's keys in strictly ascending
/// order, so it is the profile's fields sorted by key.
pub proof fn law_profile_keys_ascend(p: ProfileModel)
    ensures
        crate::json_map::sorted_keys(profile_entries(p)),
{
    let ks = profile_keys();
    assert(ks[0] == "calendar"@ && ks[1] == "case_first"@ && ks[2] == "collation"@ && ks[3] == "currency"@);
    assert(ks[4] == "decimal_separator"@ && ks[5] == "direction"@ && ks[6] == "first_day"@ && ks[7] == "hour_cycle"@);
    assert(ks[8] == "numbering_system"@ && ks[9] == "tag"@ && ks[10] == "timezone"@ && ks[11] == "units"@);
    let e0 = seq![("calendar"@, p.calendar)];
    let r0 = seq![0int];
    assert(ranked(e0, r0));
    let r1 = lemma_ranked_optional(e0, r0, p.case_first, 1);
    let e1 = e0 + optional_entry("case_first"@, p.case_first);
    let r2 = lemma_ranked_optional(e1, r1, p.collation, 2);
    let e2 = e1 + optional_entry("collation"@, p.collation);
    let r3 = lemma_ranked_optional(e2, r2, p.currency, 3);
    let e3 = e2 + optional_entry("currency"@, p.currency);
    let r4 = lemma_ranked_fixed(e3, r3, seq![p.decimal_separator], 4);
    let e4 = e3.push(("decimal_separator"@, seq![p.decimal_separator]));
    let r5 = lemma_ranked_fixed(e4, r4, direction_text(p.direction), 5);
    let e5 = e4.push(("direction"@, direction_text(p.direction)));
    let r6 = lemma_ranked_fixed(e5, r5, p.first_day, 6);
    let e6 = e5.push(("first_day"@, p.first_day));
    let r7 = lemma_ranked_fixed(e6, r6, p.hour_cycle, 7);
    let e7 = e6.push(("hour_cycle"@, p.hour_cycle));
    let r8 = lemma_ranked_fixed(e7, r7, p.numbering_system, 8);
    let e8 = e7.push(("numbering_system"@, p.numbering_system));
    let r9 = lemma_ranked_fixed(e8, r8, p.tag, 9);
    let e9 = e8.push(("tag"@, p.tag));
    let r10 = lemma_ranked_fixed(e9, r9, p.timezone, 10);
    let e10 = e9.push(("timezone"@, p.timezone));
    let r11 = lemma_ranked_optional(e10, r10, p.units, 11);
    let e11 = e10 + optional_entry("units"@, p.units);
    assert(profile_entries(p) =~= e11);
    lemma_ranked_sorted(e11, r11);
}

} // verus!
