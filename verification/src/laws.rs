//! Properties of the library as a whole, each proved over the specifications
//! that the operations' contracts use.
use vstd::prelude::*;
use crate::json_map::JsonMap;
use crate::state::{TranslatorState, key_state_of, backfilled_record};
use crate::validate::check_translation;
use crate::workflow::{
    manual_override, fresh_bot_translation, is_stale, missing_keys_of, stale_keys_of, batch_errors,
    item_errors, unexpected_key_errors, item_has_key,
};
use crate::session::{key_plan, KeyPlan};
use crate::resolver::{dedup_texts, fallback_chain_of};
use crate::tag::{parent_chain_of, trim_spec, trim_start_spec, trim_end_spec};
use crate::text::unicode_whitespace;
use crate::workflow::{lang_list, trimmed_nonempty, split_all};
use crate::tag::{canonical_tag, canonical_subtags, nonempty_pieces};
use crate::cache::{I18nCache, I18nCacheEntry};
use crate::resolver::{I18nRequest, resolved_model, chosen_tag_of, ext_of, missing_field_of};
use crate::profile::ResolveMode;
use crate::state::text_hash;
use crate::validate::{Failure, lang_map_issues, placeholder_count, newline_count, backtick_spans};
use crate::tag_facts::{lemma_pieces_clean, lemma_canonical_subtags_fixpoint, lemma_pieces_of_join, lemma_trim_keeps};

verus! {

/// A text is always a valid translation of itself: it has the same
/// placeholders, newlines and backtick spans, and is empty only when the
/// English text is.
pub proof fn law_text_is_valid_translation_of_itself(text: Seq<char>)
    ensures
        check_translation(text, text) is None,
{
}

/// A key cannot be both edited by hand and the bot's current translation.
pub proof fn law_manual_and_fresh_exclude_each_other(
    lang: Seq<char>,
    key: Seq<char>,
    english: Seq<char>,
    out_map: JsonMap,
    state: TranslatorState,
)
    ensures
        !(manual_override(lang, key, english, out_map, state) && fresh_bot_translation(lang, key, english, out_map, state)),
{
}

/// A translation run never asks for a key whose translation was edited by
/// hand for the current English text (unless manual edits may be
/// overwritten), nor for one that still holds the bot's translation of the
/// current English text.
pub proof fn law_kept_keys_are_not_retranslated(
    lang: Seq<char>,
    key: Seq<char>,
    english: Seq<char>,
    out_map: JsonMap,
    state: TranslatorState,
    overwrite_manual: bool,
)
    ensures
        !overwrite_manual && manual_override(lang, key, english, out_map, state) ==> key_plan(
            lang,
            key,
            english,
            out_map,
            state,
            overwrite_manual,
        ) == KeyPlan::KeepManual,
        fresh_bot_translation(lang, key, english, out_map, state) ==> key_plan(
            lang,
            key,
            english,
            out_map,
            state,
            overwrite_manual,
        ) == KeyPlan::KeepFresh,
        key_plan(lang, key, english, out_map, state, overwrite_manual) == KeyPlan::Lookup ==> !fresh_bot_translation(
            lang,
            key,
            english,
            out_map,
            state,
        ) && (overwrite_manual || !manual_override(lang, key, english, out_map, state)),
{
}

/// A key recorded from its English text and translation is not stale for
/// that English text.
pub proof fn law_backfilled_key_is_current(
    state: TranslatorState,
    lang: Seq<char>,
    key: Seq<char>,
    en_map: JsonMap,
    tr_map: JsonMap,
    engine: Seq<char>,
)
    requires
        key_state_of(state, lang, key) is Some,
        backfilled_record(key_state_of(state, lang, key)->0, en_map, tr_map, key, engine),
    ensures
        en_map.spec_contains(key),
        tr_map.spec_contains(key),
        !is_stale(state, lang, key, en_map.spec_get(key)->0@),
{
}

proof fn lemma_missing_not_translated(en: Seq<(Seq<char>, String)>, tr_map: JsonMap, x: Seq<char>)
    requires
        missing_keys_of(en, tr_map).contains(x),
    ensures
        !tr_map.spec_contains(x),
    decreases en.len(),
{
    if en.len() > 0 {
        let prev = missing_keys_of(en.drop_last(), tr_map);
        let i = choose|i: int| 0 <= i < missing_keys_of(en, tr_map).len() && missing_keys_of(en, tr_map)[i] == x;
        if i < prev.len() {
            assert(prev[i] == x);
            lemma_missing_not_translated(en.drop_last(), tr_map, x);
        }
    }
}

proof fn lemma_stale_translated(
    lang: Seq<char>,
    en: Seq<(Seq<char>, String)>,
    tr_map: JsonMap,
    state: TranslatorState,
    x: Seq<char>,
)
    requires
        stale_keys_of(lang, en, tr_map, state).contains(x),
    ensures
        tr_map.spec_contains(x),
    decreases en.len(),
{
    if en.len() > 0 {
        let prev = stale_keys_of(lang, en.drop_last(), tr_map, state);
        let i = choose|i: int|
            0 <= i < stale_keys_of(lang, en, tr_map, state).len() && stale_keys_of(lang, en, tr_map, state)[i] == x;
        if i < prev.len() {
            assert(prev[i] == x);
            lemma_stale_translated(lang, en.drop_last(), tr_map, state, x);
        }
    }
}

/// `status` never reports a key both as missing and as stale: a missing key
/// has no translation, a stale one has one.
pub proof fn law_missing_and_stale_are_disjoint(
    lang: Seq<char>,
    en: Seq<(Seq<char>, String)>,
    tr_map: JsonMap,
    state: TranslatorState,
    key: Seq<char>,
)
    ensures
        !(missing_keys_of(en, tr_map).contains(key) && stale_keys_of(lang, en, tr_map, state).contains(key)),
{
    if missing_keys_of(en, tr_map).contains(key) {
        lemma_missing_not_translated(en, tr_map, key);
        if stale_keys_of(lang, en, tr_map, state).contains(key) {
            lemma_stale_translated(lang, en, tr_map, state, key);
        }
    }
}

proof fn lemma_item_errors_empty(items: Seq<(String, String)>, reply: JsonMap, i: int)
    requires
        item_errors(items, reply).len() == 0,
        0 <= i < items.len(),
    ensures
        reply.spec_get(items[i].0@) matches Some(t) && check_translation(items[i].1@, t@) is None,
    decreases items.len(),
{
    if i < items.len() - 1 {
        assert(items.drop_last()[i] == items[i]);
        lemma_item_errors_empty(items.drop_last(), reply, i);
    }
}

proof fn lemma_unexpected_empty(pairs: Seq<(Seq<char>, String)>, items: Seq<(String, String)>, i: int)
    requires
        unexpected_key_errors(pairs, items).len() == 0,
        0 <= i < pairs.len(),
    ensures
        item_has_key(items, pairs[i].0),
    decreases pairs.len(),
{
    if i < pairs.len() - 1 {
        assert(pairs.drop_last()[i] == pairs[i]);
        lemma_unexpected_empty(pairs.drop_last(), items, i);
    }
}

/// A provider reply that passes the batch check answers every requested key
/// with a valid translation and holds no other key.
pub proof fn law_accepted_batch_is_complete(items: Seq<(String, String)>, reply: JsonMap)
    requires
        batch_errors(items, reply).len() == 0,
    ensures
        forall|i: int| 0 <= i < items.len() ==> (reply.spec_get(#[trigger] items[i].0@) matches Some(t)
            && check_translation(items[i].1@, t@) is None),
        forall|k: Seq<char>| reply.spec_contains(k) ==> item_has_key(items, k),
{
    assert forall|i: int| 0 <= i < items.len() implies (reply.spec_get(#[trigger] items[i].0@) matches Some(t)
        && check_translation(items[i].1@, t@) is None) by {
        lemma_item_errors_empty(items, reply, i);
    }
    assert forall|k: Seq<char>| reply.spec_contains(k) implies item_has_key(items, k) by {
        let i = choose|i: int| 0 <= i < reply.pairs().len() && #[trigger] reply.pairs()[i].0 == k;
        lemma_unexpected_empty(reply.pairs(), items, i);
    }
}


/// No text occurs twice.
pub open spec fn no_repeats(v: Seq<Seq<char>>) -> bool {
    forall|i: int, j: int| 0 <= i < j < v.len() ==> v[i] != v[j]
}

proof fn lemma_dedup(s: Seq<Seq<char>>)
    ensures
        forall|x: Seq<char>| dedup_texts(s).contains(x) <==> s.contains(x),
        no_repeats(dedup_texts(s)),
        s.len() > 0 ==> dedup_texts(s).len() > 0 && dedup_texts(s)[0] == s[0],
    decreases s.len(),
{
    if s.len() > 0 {
        let prev = s.drop_last();
        lemma_dedup(prev);
        let d = dedup_texts(prev);
        assert forall|x: Seq<char>| dedup_texts(s).contains(x) <==> s.contains(x) by {
            if s.contains(x) && x != s.last() {
                let i = choose|i: int| 0 <= i < s.len() && s[i] == x;
                assert(prev[i] == x);
            }
            if prev.contains(x) {
                let i = choose|i: int| 0 <= i < prev.len() && prev[i] == x;
                assert(s[i] == x);
            }
            assert(s[s.len() - 1] == s.last());
            if !d.contains(s.last()) {
                assert(d.push(s.last())[d.len() as int] == s.last());
                if d.push(s.last()).contains(x) && x != s.last() {
                    let i = choose|i: int| 0 <= i < d.len() + 1 && d.push(s.last())[i] == x;
                    assert(d[i] == x);
                }
                if d.contains(x) {
                    let i = choose|i: int| 0 <= i < d.len() && d[i] == x;
                    assert(d.push(s.last())[i] == x);
                }
            }
        }
        if prev.len() == 0 {
            assert(d.len() == 0);
        } else {
            assert(prev[0] == s[0]);
        }
    }
}

/// The fallback chain starts with the chosen tag, holds each of its parents
/// and the tenant default, and names no tag twice (a tenant default that is
/// also a parent appears once).
pub proof fn law_fallback_chain_shape(chosen: Seq<char>, tenant: Seq<char>)
    ensures
        fallback_chain_of(chosen, tenant).len() > 0,
        fallback_chain_of(chosen, tenant)[0] == chosen,
        fallback_chain_of(chosen, tenant).contains(tenant),
        forall|x: Seq<char>| #[trigger] parent_chain_of(chosen).contains(x) ==> fallback_chain_of(chosen, tenant).contains(x),
        no_repeats(fallback_chain_of(chosen, tenant)),
{
    let parents = parent_chain_of(chosen);
    assert(parents[0] == chosen);
    lemma_dedup(parents);
    let d = dedup_texts(parents);
    if !d.contains(tenant) {
        assert(d.push(tenant)[d.len() as int] == tenant);
        assert(d.push(tenant)[0] == d[0]);
        assert forall|x: Seq<char>| d.contains(x) implies d.push(tenant).contains(x) by {
            let i = choose|i: int| 0 <= i < d.len() && d[i] == x;
            assert(d.push(tenant)[i] == x);
        }
    }
}

proof fn lemma_trim_start_head(s: Seq<char>)
    ensures
        trim_start_spec(s).len() == 0 || !unicode_whitespace(trim_start_spec(s)[0]),
        trim_start_spec(trim_start_spec(s)) == trim_start_spec(s),
    decreases s.len(),
{
    if s.len() > 0 && unicode_whitespace(s[0]) {
        lemma_trim_start_head(s.drop_first());
    }
}

proof fn lemma_trim_end_tail(s: Seq<char>)
    ensures
        trim_end_spec(s).len() == 0 || !unicode_whitespace(trim_end_spec(s).last()),
        trim_end_spec(trim_end_spec(s)) == trim_end_spec(s),
        s.len() == 0 || !unicode_whitespace(s[0]) ==> trim_end_spec(s).len() == 0 || trim_end_spec(s)[0] == s[0],
    decreases s.len(),
{
    if s.len() > 0 && unicode_whitespace(s.last()) {
        lemma_trim_end_tail(s.drop_last());
        if s.drop_last().len() > 0 {
            assert(s.drop_last()[0] == s[0]);
        }
    }
}

/// Trimming twice trims no more than trimming once.
pub proof fn law_trim_is_idempotent(s: Seq<char>)
    ensures
        trim_spec(trim_spec(s)) == trim_spec(s),
{
    let a = trim_start_spec(s);
    lemma_trim_start_head(s);
    lemma_trim_end_tail(a);
    let t = trim_end_spec(a);
    if t.len() > 0 {
        assert(!unicode_whitespace(t[0]));
    }
    assert(trim_start_spec(t) == t);
    lemma_trim_end_tail(t);
}

proof fn lemma_trimmed_nonempty(pieces: Seq<Seq<char>>)
    ensures
        forall|i: int| 0 <= i < trimmed_nonempty(pieces).len() ==> (#[trigger] trimmed_nonempty(pieces)[i]).len() > 0
            && trim_spec(trimmed_nonempty(pieces)[i]) == trimmed_nonempty(pieces)[i],
    decreases pieces.len(),
{
    if pieces.len() > 0 {
        lemma_trimmed_nonempty(pieces.drop_last());
        law_trim_is_idempotent(pieces.last());
        let prev = trimmed_nonempty(pieces.drop_last());
        assert forall|i: int| 0 <= i < trimmed_nonempty(pieces).len() implies (#[trigger] trimmed_nonempty(pieces)[i]).len() > 0
            && trim_spec(trimmed_nonempty(pieces)[i]) == trimmed_nonempty(pieces)[i] by {
            if i < prev.len() {
                assert(trimmed_nonempty(pieces)[i] == prev[i]);
            }
        }
    }
}

/// Every language read from a comma-separated list is non-empty and has no
/// surrounding whitespace.
pub proof fn law_listed_langs_are_trimmed(langs: Seq<char>)
    ensures
        forall|i: int| 0 <= i < lang_list(langs).len() ==> (#[trigger] lang_list(langs)[i]).len() > 0 && trim_spec(
            lang_list(langs)[i],
        ) == lang_list(langs)[i],
{
    lemma_trimmed_nonempty(split_all(langs, ','));
}


/// Canonicalizing a canonical tag gives it back, when the canonical form
/// does not begin or end with whitespace.
pub proof fn law_canonical_tag_is_idempotent(input: Seq<char>)
    requires
        canonical_tag(input) matches Some(t) && t.len() > 0 && !unicode_whitespace(t[0]) && !unicode_whitespace(t.last()),
    ensures
        canonical_tag(canonical_tag(input)->0) == canonical_tag(input),
{
    let t = canonical_tag(input)->0;
    let parts = nonempty_pieces(trim_spec(input), '-');
    lemma_pieces_clean(trim_spec(input), '-');
    lemma_canonical_subtags_fixpoint(parts);
    let subs = canonical_subtags(parts);
    assert(t == crate::tag::join_spec(subs, '-'));
    lemma_pieces_of_join(subs, '-');
    lemma_trim_keeps(t);
    assert(nonempty_pieces(trim_spec(t), '-') == subs);
    assert(canonical_subtags(subs) == subs);
}

/// The position of the last occurrence of `k` in `keys`, or -1 when it does
/// not occur.
pub open spec fn last_position(keys: Seq<u128>, k: u128) -> int
    decreases keys.len(),
{
    if keys.len() == 0 {
        -1
    } else if keys.last() == k {
        keys.len() - 1
    } else {
        last_position(keys.drop_last(), k)
    }
}

proof fn lemma_last_position(keys: Seq<u128>, k: u128)
    ensures
        -1 <= last_position(keys, k) < keys.len(),
        keys.to_set().contains(k) ==> 0 <= last_position(keys, k),
        0 <= last_position(keys, k) ==> keys[last_position(keys, k)] == k,
    decreases keys.len(),
{
    if keys.len() > 0 {
        lemma_last_position(keys.drop_last(), k);
        if keys.last() != k && keys.to_set().contains(k) {
            let i = choose|i: int| 0 <= i < keys.len() && keys[i] == k;
            assert(keys.drop_last()[i] == k);
            assert(keys.drop_last().to_set().contains(k));
        }
    }
}

/// What a cache holds after the insertions of `keys` with `entries`, in
/// that order, into an empty cache of capacity `cap`.
spec fn cache_history(c: I18nCache, keys: Seq<u128>, entries: Seq<I18nCacheEntry>, cap: nat) -> bool {
    let seen = keys.to_set();
    &&& c.fresh()
    &&& c.last_stamp() == keys.len()
    &&& c.capacity() == cap
    &&& entries.len() == keys.len()
    &&& forall|k: u128| #[trigger] c.contents().contains_key(k) ==> seen.contains(k)
        && c.stamps()[k] == last_position(keys, k) + 1 && c.contents()[k] == entries[last_position(keys, k)]
    &&& c.contents().len() == if seen.len() <= cap { seen.len() } else { cap }
    &&& forall|gone: u128, kept: u128|
        #![trigger seen.contains(gone), c.contents().contains_key(kept)]
        seen.contains(gone) && !c.contents().contains_key(gone) && c.contents().contains_key(kept)
            ==> last_position(keys, gone) < last_position(keys, kept)
}

proof fn lemma_cache_history_step(
    c: I18nCache,
    after: I18nCache,
    keys: Seq<u128>,
    entries: Seq<I18nCacheEntry>,
    cap: nat,
    key: u128,
    entry: I18nCacheEntry,
)
    requires
        cache_history(c, keys, entries, cap),
        after.inserted(c, key, entry),
        keys.len() < u64::MAX,
    ensures
        cache_history(after, keys.push(key), entries.push(entry), cap),
{
    let keys2 = keys.push(key);
    let entries2 = entries.push(entry);
    let seen = keys.to_set();
    let seen2 = keys2.to_set();
    let grown = c.contents().insert(key, entry);
    assert(seen2 =~= seen.insert(key)) by {
        keys.lemma_push_to_set_commute(key);
    }
    assert(keys2.drop_last() =~= keys);
    assert forall|k: u128| k != key implies #[trigger] last_position(keys2, k) == last_position(keys, k) by {}
    assert(last_position(keys2, key) == keys.len());
    assert(seen.finite()) by {
        vstd::seq_lib::seq_to_set_is_finite(keys);
    }
    assert(c.contents().dom().subset_of(seen));
    assert(c.contents().dom().finite()) by {
        vstd::set_lib::lemma_set_subset_finite(seen, c.contents().dom());
    }
    assert forall|k: u128| #[trigger] after.contents().contains_key(k) implies seen2.contains(k)
        && after.stamps()[k] == last_position(keys2, k) + 1 && after.contents()[k] == entries2[last_position(keys2, k)] by {
        if k != key {
            lemma_last_position(keys, k);
            assert(entries2[last_position(keys, k)] == entries[last_position(keys, k)]);
        }
    }
    // the number of entries
    if c.contents().len() == seen.len() {
        vstd::set_lib::lemma_subset_equality(c.contents().dom(), seen);
        assert(grown.dom() =~= seen2);
    } else {
        assert(c.contents().len() == cap);
        assert(seen.len() > cap);
        vstd::set_lib::lemma_len_subset(c.contents().dom(), grown.dom());
        vstd::set_lib::lemma_len_subset(seen, seen2);
    }
    assert forall|gone: u128, kept: u128|
        #[trigger] seen2.contains(gone) && !after.contents().contains_key(gone) && #[trigger] after.contents().contains_key(kept)
        implies last_position(keys2, gone) < last_position(keys2, kept) by {
        lemma_last_position(keys, gone);
        lemma_last_position(keys, kept);
        if grown.contains_key(gone) {
            assert(gone != key);
        } else if kept != key {
            assert(seen.contains(gone) && c.contents().contains_key(kept));
        }
    }
}

proof fn lemma_cache_history(states: Seq<I18nCache>, keys: Seq<u128>, entries: Seq<I18nCacheEntry>, n: int)
    requires
        states.len() == keys.len() + 1,
        entries.len() == keys.len(),
        keys.len() < u64::MAX,
        0 <= n <= keys.len(),
        states[0].fresh(),
        states[0].contents().is_empty(),
        states[0].last_stamp() == 0,
        forall|i: int| 0 <= i < keys.len() ==> #[trigger] states[i + 1].inserted(states[i], keys[i], entries[i]),
    ensures
        cache_history(states[n], keys.take(n), entries.take(n), states[0].capacity()),
    decreases n,
{
    if n == 0 {
        assert(keys.take(0).to_set() =~= Set::<u128>::empty());
        assert(states[0].contents().dom() =~= Set::<u128>::empty());
    } else {
        lemma_cache_history(states, keys, entries, n - 1);
        let j = n - 1;
        assert(states[j + 1].inserted(states[j], keys[j], entries[j]));
        assert(states[j + 1] == states[n]);
        lemma_cache_history_step(
            states[n - 1],
            states[n],
            keys.take(n - 1),
            entries.take(n - 1),
            states[0].capacity(),
            keys[n - 1],
            entries[n - 1],
        );
        assert(keys.take(n - 1).push(keys[n - 1]) =~= keys.take(n));
        assert(entries.take(n - 1).push(entries[n - 1]) =~= entries.take(n));
    }
}

/// A cache built empty and then given a run of insertions (fewer than the
/// stamps can count) keeps the most recently inserted keys: as many distinct
/// keys as were inserted, up to its capacity; each kept key holds the entry
/// of its last insertion; and every inserted key that was evicted was last
/// inserted before every key that was kept. No stamp has wrapped, so the
/// next insertion is again kept. Looking entries up does not count as a use.
pub proof fn law_cache_keeps_most_recently_inserted(
    states: Seq<I18nCache>,
    keys: Seq<u128>,
    entries: Seq<I18nCacheEntry>,
)
    requires
        states.len() == keys.len() + 1,
        entries.len() == keys.len(),
        keys.len() < u64::MAX,
        states[0].fresh(),
        states[0].contents().is_empty(),
        states[0].last_stamp() == 0,
        forall|i: int| 0 <= i < keys.len() ==> #[trigger] states[i + 1].inserted(states[i], keys[i], entries[i]),
    ensures
        ({
            let last = states.last();
            let seen = keys.to_set();
            &&& last.fresh()
            &&& last.last_stamp() == keys.len()
            &&& last.contents().len() == if seen.len() <= states[0].capacity() {
                seen.len()
            } else {
                states[0].capacity()
            }
            &&& forall|k: u128| #[trigger] last.contents().contains_key(k) ==> seen.contains(k)
                && last.contents()[k] == entries[last_position(keys, k)]
            &&& forall|gone: u128, kept: u128|
                #![trigger seen.contains(gone), last.contents().contains_key(kept)]
                seen.contains(gone) && !last.contents().contains_key(gone) && last.contents().contains_key(kept)
                    ==> last_position(keys, gone) < last_position(keys, kept)
        }),
{
    let n = keys.len() as int;
    lemma_cache_history(states, keys, entries, n);
    assert(keys.take(n) =~= keys);
    assert(entries.take(n) =~= entries);
}

/// A request's own currency wins: whenever the request names a currency, the
/// resolved profile has exactly that currency, whatever the resolver's
/// default; the default is used only when the request names none.
pub proof fn law_request_currency_wins(req: I18nRequest, tenant: Seq<char>, default_currency: Option<Seq<char>>)
    ensures
        req.currency matches Some(c) ==> resolved_model(req, tenant, default_currency).currency == Some(c@),
        req.currency is None ==> resolved_model(req, tenant, default_currency).currency == default_currency,
{
}

/// The tag a request resolves to is its content tag, else its session tag,
/// else its user tag, else the tenant's; its time zone comes from the tag's
/// `tz` extension, else the request, else `UTC`; its calendar and numbering
/// system from the tag's extensions, else `gregory` and `latn`. A lenient
/// request never fails; a strict one fails exactly when the time zone, the
/// calendar or the numbering system is given by neither the tag nor (for
/// the time zone) the request.
pub proof fn law_resolution_precedence(req: I18nRequest, tenant: Seq<char>, default_currency: Option<Seq<char>>)
    ensures
        ({
            let m = resolved_model(req, tenant, default_currency);
            let tag = m.tag;
            &&& req.content_tag matches Some(t) ==> tag == t@
            &&& req.content_tag is None ==> (req.session_tag matches Some(t) ==> tag == t@)
            &&& req.content_tag is None && req.session_tag is None ==> (req.user_tag matches Some(t) ==> tag == t@)
            &&& req.content_tag is None && req.session_tag is None && req.user_tag is None ==> tag == tenant
            &&& ext_of(tag, "tz"@) matches Some(z) ==> m.timezone == z
            &&& ext_of(tag, "tz"@) is None ==> (req.timezone matches Some(z) ==> m.timezone == z@)
            &&& ext_of(tag, "tz"@) is None && req.timezone is None ==> m.timezone == "UTC"@
            &&& m.calendar == (match ext_of(tag, "ca"@) { Some(c) => c, None => "gregory"@ })
            &&& m.numbering_system == (match ext_of(tag, "nu"@) { Some(n) => n, None => "latn"@ })
        }),
        req.mode == ResolveMode::Lenient ==> missing_field_of(req, chosen_tag_of(req, tenant)) is None,
        req.mode == ResolveMode::Strict ==> (missing_field_of(req, chosen_tag_of(req, tenant)) is None <==> (
            (ext_of(chosen_tag_of(req, tenant), "tz"@) is Some || req.timezone is Some)
            && ext_of(chosen_tag_of(req, tenant), "ca"@) is Some && ext_of(chosen_tag_of(req, tenant), "nu"@) is Some)),
{
}

proof fn lemma_stale_member(
    lang: Seq<char>,
    en: Seq<(Seq<char>, String)>,
    tr_map: JsonMap,
    state: TranslatorState,
    k: Seq<char>,
)
    ensures
        stale_keys_of(lang, en, tr_map, state).contains(k) <==> exists|i: int|
            0 <= i < en.len() && #[trigger] en[i].0 == k && tr_map.spec_contains(k) && match key_state_of(state, lang, k) {
                None => true,
                Some(ks) => ks.last_english_hash@ != text_hash(en[i].1@),
            },
    decreases en.len(),
{
    if en.len() > 0 {
        let rest = en.drop_last();
        lemma_stale_member(lang, rest, tr_map, state, k);
        let head = stale_keys_of(lang, rest, tr_map, state);
        let whole = stale_keys_of(lang, en, tr_map, state);
        let last = en.last();
        let here = tr_map.spec_contains(last.0) && is_stale(state, lang, last.0, last.1@);
        if whole.contains(k) {
            let w = choose|w: int| 0 <= w < whole.len() && whole[w] == k;
            if w < head.len() {
                assert(head[w] == k);
                let i = choose|i: int|
                    0 <= i < rest.len() && #[trigger] rest[i].0 == k && tr_map.spec_contains(k) && match key_state_of(state, lang, k) {
                        None => true,
                        Some(ks) => ks.last_english_hash@ != text_hash(rest[i].1@),
                    };
                assert(en[i] == rest[i]);
            } else {
                assert(here && last.0 == k);
                assert(en[en.len() - 1].0 == k);
            }
        }
        if exists|i: int|
            0 <= i < en.len() && #[trigger] en[i].0 == k && tr_map.spec_contains(k) && match key_state_of(state, lang, k) {
                None => true,
                Some(ks) => ks.last_english_hash@ != text_hash(en[i].1@),
            } {
            let i = choose|i: int|
                0 <= i < en.len() && #[trigger] en[i].0 == k && tr_map.spec_contains(k) && match key_state_of(state, lang, k) {
                    None => true,
                    Some(ks) => ks.last_english_hash@ != text_hash(en[i].1@),
                };
            if i < rest.len() {
                assert(rest[i] == en[i]);
                let w = choose|w: int| 0 <= w < head.len() && head[w] == k;
                assert(whole[w] == k);
            } else {
                assert(here);
                assert(whole[head.len() as int] == k);
            }
        }
    }
}

proof fn lemma_missing_member(en: Seq<(Seq<char>, String)>, tr_map: JsonMap, k: Seq<char>)
    ensures
        missing_keys_of(en, tr_map).contains(k) <==> (exists|i: int| 0 <= i < en.len() && #[trigger] en[i].0 == k)
            && !tr_map.spec_contains(k),
    decreases en.len(),
{
    if en.len() > 0 {
        let rest = en.drop_last();
        lemma_missing_member(rest, tr_map, k);
        let head = missing_keys_of(rest, tr_map);
        let whole = missing_keys_of(en, tr_map);
        if whole.contains(k) {
            let w = choose|w: int| 0 <= w < whole.len() && whole[w] == k;
            if w < head.len() {
                assert(head[w] == k);
                let i = choose|i: int| 0 <= i < rest.len() && #[trigger] rest[i].0 == k;
                assert(en[i] == rest[i]);
            } else {
                assert(en[en.len() - 1].0 == k);
            }
        }
        if (exists|i: int| 0 <= i < en.len() && #[trigger] en[i].0 == k) && !tr_map.spec_contains(k) {
            let i = choose|i: int| 0 <= i < en.len() && #[trigger] en[i].0 == k;
            if i < rest.len() {
                assert(rest[i] == en[i]);
                let w = choose|w: int| 0 <= w < head.len() && head[w] == k;
                assert(whole[w] == k);
            } else {
                assert(whole[head.len() as int] == k);
            }
        }
    }
}

/// The status of a language: a key is reported missing exactly when it is
/// an English key without a translation, and stale exactly when it is an
/// English key with a translation whose state record is absent (the
/// translation was never made by the translator) or was made from another
/// English text.
pub proof fn law_status_lists_missing_and_stale_keys(
    lang: Seq<char>,
    en: Seq<(Seq<char>, String)>,
    tr_map: JsonMap,
    state: TranslatorState,
)
    ensures
        forall|k: Seq<char>| #[trigger] missing_keys_of(en, tr_map).contains(k) <==> (exists|i: int|
            0 <= i < en.len() && #[trigger] en[i].0 == k) && !tr_map.spec_contains(k),
        forall|k: Seq<char>| #[trigger] stale_keys_of(lang, en, tr_map, state).contains(k) <==> exists|i: int|
            0 <= i < en.len() && #[trigger] en[i].0 == k && tr_map.spec_contains(k) && match key_state_of(state, lang, k) {
                None => true,
                Some(ks) => ks.last_english_hash@ != text_hash(en[i].1@),
            },
        forall|i: int| #![trigger en[i]]
            0 <= i < en.len() && tr_map.spec_contains(en[i].0) && key_state_of(state, lang, en[i].0) is None
                ==> stale_keys_of(lang, en, tr_map, state).contains(en[i].0),
{
    assert forall|k: Seq<char>| #[trigger] missing_keys_of(en, tr_map).contains(k) <==> (exists|i: int|
        0 <= i < en.len() && #[trigger] en[i].0 == k) && !tr_map.spec_contains(k) by {
        lemma_missing_member(en, tr_map, k);
    }
    assert forall|k: Seq<char>| #[trigger] stale_keys_of(lang, en, tr_map, state).contains(k) <==> exists|i: int|
        0 <= i < en.len() && #[trigger] en[i].0 == k && tr_map.spec_contains(k) && match key_state_of(state, lang, k) {
            None => true,
            Some(ks) => ks.last_english_hash@ != text_hash(en[i].1@),
        } by {
        lemma_stale_member(lang, en, tr_map, state, k);
    }
    assert forall|i: int| #![trigger en[i]]
        0 <= i < en.len() && tr_map.spec_contains(en[i].0) && key_state_of(state, lang, en[i].0) is None
        implies stale_keys_of(lang, en, tr_map, state).contains(en[i].0) by {
        lemma_stale_member(lang, en, tr_map, state, en[i].0);
    }
}

/// A key whose state record was made from English text other than the
/// current one is neither a hand edit to keep nor a fresh bot translation:
/// it is planned for a cache lookup and retranslation, whatever the
/// overwrite setting. A key counts as a hand edit only when it has a
/// translation that differs from the bot's recorded one; with no record, or
/// no translation, it is planned for lookup.
pub proof fn law_changed_english_is_retranslated(
    lang: Seq<char>,
    key: Seq<char>,
    english: Seq<char>,
    out_map: JsonMap,
    state: TranslatorState,
    overwrite_manual: bool,
)
    ensures
        key_state_of(state, lang, key) matches Some(ks) && ks.last_english_hash@ != text_hash(english) ==> {
            &&& !manual_override(lang, key, english, out_map, state)
            &&& !fresh_bot_translation(lang, key, english, out_map, state)
            &&& key_plan(lang, key, english, out_map, state, overwrite_manual) == KeyPlan::Lookup
        },
        manual_override(lang, key, english, out_map, state) ==> (out_map.spec_get(key) matches Some(t)
            && key_state_of(state, lang, key) matches Some(ks) && ks.last_english_hash@ == text_hash(english)
            && text_hash(t@) != ks.last_bot_translation_hash@),
        key_state_of(state, lang, key) is None || out_map.spec_get(key) is None ==> key_plan(
            lang,
            key,
            english,
            out_map,
            state,
            overwrite_manual,
        ) == KeyPlan::Lookup,
{
}

proof fn lemma_issue_member(en: Seq<(Seq<char>, String)>, tr_map: JsonMap, k: Seq<char>, f: Failure)
    ensures
        lang_map_issues(en, tr_map.pairs()).contains((k, f)) <==> exists|i: int|
            0 <= i < en.len() && #[trigger] en[i].0 == k && match tr_map.spec_get(k) {
                None => f == Failure::MissingKey,
                Some(t) => check_translation(en[i].1@, t@) == Some(f),
            },
    decreases en.len(),
{
    if en.len() > 0 {
        let rest = en.drop_last();
        lemma_issue_member(rest, tr_map, k, f);
        let head = lang_map_issues(rest, tr_map.pairs());
        let whole = lang_map_issues(en, tr_map.pairs());
        if whole.contains((k, f)) {
            let w = choose|w: int| 0 <= w < whole.len() && whole[w] == (k, f);
            if w < head.len() {
                assert(head[w] == (k, f));
                let i = choose|i: int|
                    0 <= i < rest.len() && #[trigger] rest[i].0 == k && match tr_map.spec_get(k) {
                        None => f == Failure::MissingKey,
                        Some(t) => check_translation(rest[i].1@, t@) == Some(f),
                    };
                assert(en[i] == rest[i]);
            } else {
                assert(en[en.len() - 1].0 == k);
            }
        }
        if exists|i: int|
            0 <= i < en.len() && #[trigger] en[i].0 == k && match tr_map.spec_get(k) {
                None => f == Failure::MissingKey,
                Some(t) => check_translation(en[i].1@, t@) == Some(f),
            } {
            let i = choose|i: int|
                0 <= i < en.len() && #[trigger] en[i].0 == k && match tr_map.spec_get(k) {
                    None => f == Failure::MissingKey,
                    Some(t) => check_translation(en[i].1@, t@) == Some(f),
                };
            if i < rest.len() {
                assert(rest[i] == en[i]);
                let w = choose|w: int| 0 <= w < head.len() && head[w] == (k, f);
                assert(whole[w] == (k, f));
            } else {
                assert(whole[head.len() as int] == (k, f));
            }
        }
    }
}

/// A non-empty English text translated as the empty text fails validation
/// as empty.
pub proof fn law_empty_translation_of_text_fails(english: Seq<char>)
    requires
        english.len() > 0,
    ensures
        check_translation(english, Seq::empty()) == Some(Failure::Empty),
{
}

/// A translation passes validation exactly when it is non-empty (or the
/// English text is empty) and keeps the English text's number of `{}`
/// placeholders, its number of newlines and its backtick spans.
pub proof fn law_valid_translation_keeps_the_invariants(english: Seq<char>, translation: Seq<char>)
    ensures
        check_translation(english, translation) is None <==> {
            &&& english.len() == 0 || translation.len() > 0
            &&& placeholder_count(english) == placeholder_count(translation)
            &&& newline_count(english) == newline_count(translation)
            &&& backtick_spans(english) == backtick_spans(translation)
        },
{
}

/// Validating a language map reports, for each English key, a missing key
/// when the map has no translation of it, and otherwise exactly the failure
/// of checking its translation against its English text, if any; nothing
/// else is reported. In particular a non-empty English text translated as
/// empty is reported as empty.
pub proof fn law_validation_reports_each_failure(en: Seq<(Seq<char>, String)>, tr_map: JsonMap)
    ensures
        forall|k: Seq<char>, f: Failure| #[trigger] lang_map_issues(en, tr_map.pairs()).contains((k, f)) <==> exists|i: int|
            0 <= i < en.len() && #[trigger] en[i].0 == k && match tr_map.spec_get(k) {
                None => f == Failure::MissingKey,
                Some(t) => check_translation(en[i].1@, t@) == Some(f),
            },
        forall|i: int| #![trigger en[i]]
            0 <= i < en.len() && en[i].1@.len() > 0 && (tr_map.spec_get(en[i].0) matches Some(t) && t@.len() == 0)
                ==> lang_map_issues(en, tr_map.pairs()).contains((en[i].0, Failure::Empty)),
        forall|i: int| #![trigger en[i]]
            0 <= i < en.len() && tr_map.spec_get(en[i].0) is None ==> lang_map_issues(en, tr_map.pairs()).contains(
                (en[i].0, Failure::MissingKey),
            ),
{
    assert forall|k: Seq<char>, f: Failure| #[trigger] lang_map_issues(en, tr_map.pairs()).contains((k, f)) <==> exists|i: int|
        0 <= i < en.len() && #[trigger] en[i].0 == k && match tr_map.spec_get(k) {
            None => f == Failure::MissingKey,
            Some(t) => check_translation(en[i].1@, t@) == Some(f),
        } by {
        lemma_issue_member(en, tr_map, k, f);
    }
    assert forall|i: int| #![trigger en[i]]
        0 <= i < en.len() && en[i].1@.len() > 0 && (tr_map.spec_get(en[i].0) matches Some(t) && t@.len() == 0)
        implies lang_map_issues(en, tr_map.pairs()).contains((en[i].0, Failure::Empty)) by {
        let t = tr_map.spec_get(en[i].0)->0;
        assert(t@ =~= Seq::<char>::empty());
        lemma_issue_member(en, tr_map, en[i].0, Failure::Empty);
    }
    assert forall|i: int| #![trigger en[i]]
        0 <= i < en.len() && tr_map.spec_get(en[i].0) is None implies lang_map_issues(en, tr_map.pairs()).contains(
            (en[i].0, Failure::MissingKey),
        ) by {
        lemma_issue_member(en, tr_map, en[i].0, Failure::MissingKey);
    }
}

} // verus!
