//! Decisions of the translation workflow: which keys a run may keep, which
//! are missing or stale, how a provider batch is checked, and how the
//! command line is read before it is parsed.
use vstd::prelude::*;
use crate::json_map::{JsonMap, StrMap, lex_lt};
use crate::json_text::{json_object_text_of, json_object_text};
use crate::state::{now_epoch_secs, TranslatorState, key_state_of, text_hash, hash_text, lang_records, backfill_count, backfilled_record};
use crate::text::{join_with, strings_view, push_str, join_strings, starts_with, str_starts_with, chars_of, string_from_range};
use crate::validate::{check_translation, failure_message, validate_translation};
use crate::tag::{trim_spec, trim_chars};
use crate::text::string_from_chars;
use crate::paths::{path_parent, path_display, path_join, lang_file, lang_file_name, path_text, owned_path_text, joined_path_text, parent_path_text};
use std::path::{Path, PathBuf};

verus! {

/// Version of the validation rules; part of every cache key.
pub const RULES_VERSION: &'static str = "v1-placeholder-backtick-newline-exact";

/// Engine recorded in the state for translations the bot produced.
pub const ENGINE_TAG: &'static str = "codex-cli";

/// Whether two texts are equal.
pub fn str_eq(a: &str, b: &str) -> (r: bool)
    ensures
        r == (a@ == b@),
{
    a.to_string() == b.to_string()
}

// ---------------------------------------------------------------------------
// Per-key state checks
// ---------------------------------------------------------------------------

/// The existing translation was edited by hand: the state records the same
/// English text, but the translation no longer hashes to what the bot wrote.
pub open spec fn manual_override(
    lang: Seq<char>,
    key: Seq<char>,
    english: Seq<char>,
    out_map: JsonMap,
    state: TranslatorState,
) -> bool {
    match (out_map.spec_get(key), key_state_of(state, lang, key)) {
        (Some(existing), Some(ks)) => ks.last_english_hash@ == text_hash(english) && text_hash(existing@)
            != ks.last_bot_translation_hash@,
        _ => false,
    }
}

/// The existing translation is the bot's, made from the current English text.
pub open spec fn fresh_bot_translation(
    lang: Seq<char>,
    key: Seq<char>,
    english: Seq<char>,
    out_map: JsonMap,
    state: TranslatorState,
) -> bool {
    match (out_map.spec_get(key), key_state_of(state, lang, key)) {
        (Some(existing), Some(ks)) => ks.last_english_hash@ == text_hash(english) && ks.last_bot_translation_hash@
            == text_hash(existing@),
        _ => false,
    }
}

/// Whether the translation of `key` was edited by hand since the bot wrote it.
pub fn has_manual_override(
    lang: &str,
    key: &str,
    english_text: &str,
    out_map: &JsonMap,
    state: &TranslatorState,
) -> (r: bool)
    requires
        out_map.wf(),
        state.wf(),
    ensures
        r == manual_override(lang@, key@, english_text@, *out_map, *state),
{
    let existing = match out_map.get(key) {
        Some(t) => t,
        None => return false,
    };
    let key_state = match state.key_state(lang, key) {
        Some(ks) => ks,
        None => return false,
    };
    if !(key_state.last_english_hash == hash_text(english_text)) {
        return false;
    }
    !(hash_text(existing.as_str()) == key_state.last_bot_translation_hash)
}

/// Whether the translation of `key` is the bot's, for the current English text.
pub fn has_fresh_bot_translation(
    lang: &str,
    key: &str,
    english_text: &str,
    out_map: &JsonMap,
    state: &TranslatorState,
) -> (r: bool)
    requires
        out_map.wf(),
        state.wf(),
    ensures
        r == fresh_bot_translation(lang@, key@, english_text@, *out_map, *state),
{
    let existing = match out_map.get(key) {
        Some(t) => t,
        None => return false,
    };
    let key_state = match state.key_state(lang, key) {
        Some(ks) => ks,
        None => return false,
    };
    key_state.last_english_hash == hash_text(english_text) && key_state.last_bot_translation_hash
        == hash_text(existing.as_str())
}

// ---------------------------------------------------------------------------
// Status
// ---------------------------------------------------------------------------

/// Keys of a language that are missing, and keys whose recorded English text
/// is not the current one.
#[derive(Debug, PartialEq, Eq)]
pub struct StatusOutcome {
    pub missing_keys: Vec<String>,
    pub stale_keys: Vec<String>,
}

impl StatusOutcome {
    /// A language is in order when no key is missing or stale.
    pub fn is_clean(&self) -> (r: bool)
        ensures
            r == (self.missing_keys@.len() == 0 && self.stale_keys@.len() == 0),
    {
        self.missing_keys.len() == 0 && self.stale_keys.len() == 0
    }
}

/// A translated key is stale when no record exists or the record was made
/// from other English text.
pub open spec fn is_stale(state: TranslatorState, lang: Seq<char>, key: Seq<char>, english: Seq<char>) -> bool {
    match key_state_of(state, lang, key) {
        Some(ks) => ks.last_english_hash@ != text_hash(english),
        None => true,
    }
}

/// English keys, in order, that have no translation.
pub open spec fn missing_keys_of(en: Seq<(Seq<char>, String)>, tr_map: JsonMap) -> Seq<Seq<char>>
    decreases en.len(),
{
    if en.len() == 0 {
        Seq::empty()
    } else {
        missing_keys_of(en.drop_last(), tr_map) + if tr_map.spec_contains(en.last().0) {
            Seq::<Seq<char>>::empty()
        } else {
            seq![en.last().0]
        }
    }
}

/// English keys, in order, that have a translation that is stale.
pub open spec fn stale_keys_of(
    lang: Seq<char>,
    en: Seq<(Seq<char>, String)>,
    tr_map: JsonMap,
    state: TranslatorState,
) -> Seq<Seq<char>>
    decreases en.len(),
{
    if en.len() == 0 {
        Seq::empty()
    } else {
        stale_keys_of(lang, en.drop_last(), tr_map, state) + if tr_map.spec_contains(en.last().0)
            && is_stale(state, lang, en.last().0, en.last().1@) {
            seq![en.last().0]
        } else {
            Seq::<Seq<char>>::empty()
        }
    }
}

/// Missing and stale keys of a language, in English key order.
pub fn status_for_lang(lang: &str, en_map: &JsonMap, tr_map: &JsonMap, state: &TranslatorState) -> (outcome: StatusOutcome)
    requires
        en_map.wf(),
        tr_map.wf(),
        state.wf(),
    ensures
        strings_view(outcome.missing_keys@) == missing_keys_of(en_map.pairs(), *tr_map),
        strings_view(outcome.stale_keys@) == stale_keys_of(lang@, en_map.pairs(), *tr_map, *state),
{
    let mut missing_keys: Vec<String> = Vec::new();
    let mut stale_keys: Vec<String> = Vec::new();
    let n = en_map.len();
    let mut i: usize = 0;
    while i < n
        invariant
            n == en_map.pairs().len(),
            i <= n,
            en_map.wf(),
            tr_map.wf(),
            state.wf(),
            strings_view(missing_keys@) == missing_keys_of(en_map.pairs().take(i as int), *tr_map),
            strings_view(stale_keys@) == stale_keys_of(lang@, en_map.pairs().take(i as int), *tr_map, *state),
        decreases n - i,
    {
        let key = en_map.key_at(i);
        let en_text = en_map.value_at(i);
        assert(en_map.pairs().take(i + 1).drop_last() =~= en_map.pairs().take(i as int));
        let ghost old_missing = missing_keys@;
        let ghost old_stale = stale_keys@;
        if !tr_map.contains_key(key.as_str()) {
            missing_keys.push(key.clone());
            assert(strings_view(missing_keys@) =~= strings_view(old_missing).push(key@));
        } else {
            let en_hash = hash_text(en_text.as_str());
            let stale = match state.key_state(lang, key.as_str()) {
                Some(s) => !(s.last_english_hash == en_hash),
                None => true,
            };
            if stale {
                stale_keys.push(key.clone());
                assert(strings_view(stale_keys@) =~= strings_view(old_stale).push(key@));
            }
        }
        i = i + 1;
    }
    assert(en_map.pairs().take(n as int) =~= en_map.pairs());
    StatusOutcome { missing_keys, stale_keys }
}

/// Records, as the bot's, every English key of `lang` that is translated but
/// not recorded yet, stamped with `now` (seconds since the Unix epoch);
/// returns how many were added.
pub fn backfill_state_from_existing_translation_at(
    state: &mut TranslatorState,
    lang: &str,
    en_map: &JsonMap,
    tr_map: &JsonMap,
    now: u64,
) -> (added: usize)
    requires
        old(state).wf(),
        en_map.wf(),
        tr_map.wf(),
    ensures
        final(state).wf(),
        final(state).version == old(state).version,
        forall|l: Seq<char>, k: Seq<char>|
            l != lang@ ==> #[trigger] key_state_of(*final(state), l, k) == key_state_of(*old(state), l, k),
        forall|k: Seq<char>| #[trigger]
            key_state_of(*old(state), lang@, k) is Some ==> key_state_of(*final(state), lang@, k)
                == key_state_of(*old(state), lang@, k),
        forall|k: Seq<char>| #[trigger]
            key_state_of(*final(state), lang@, k) is Some && key_state_of(*old(state), lang@, k) is None
                ==> backfilled_record(key_state_of(*final(state), lang@, k)->0, *en_map, *tr_map, k, ENGINE_TAG@),
        forall|k: Seq<char>|
            key_state_of(*old(state), lang@, k) is None && en_map.spec_contains(k) && tr_map.spec_contains(k)
                ==> #[trigger] key_state_of(*final(state), lang@, k) is Some,
        forall|k: Seq<char>| #[trigger]
            key_state_of(*final(state), lang@, k) is Some && key_state_of(*old(state), lang@, k) is None
                ==> key_state_of(*final(state), lang@, k)->0.timestamp_epoch_secs == now,
        added == backfill_count(en_map.pairs(), lang_records(*old(state), lang@), tr_map.pairs()),
{
    state.backfill_missing_keys_from_maps_at(lang, en_map, tr_map, ENGINE_TAG, now)
}

/// Records, as the bot's, every English key of `lang` that is translated but
/// not recorded yet, stamped with the system clock (see
/// `backfill_state_from_existing_translation_at`); returns how many were added.
pub fn backfill_state_from_existing_translation(
    state: &mut TranslatorState,
    lang: &str,
    en_map: &JsonMap,
    tr_map: &JsonMap,
) -> (added: usize)
    requires
        old(state).wf(),
        en_map.wf(),
        tr_map.wf(),
    ensures
        final(state).wf(),
        final(state).version == old(state).version,
        forall|l: Seq<char>, k: Seq<char>|
            l != lang@ ==> #[trigger] key_state_of(*final(state), l, k) == key_state_of(*old(state), l, k),
        forall|k: Seq<char>| #[trigger]
            key_state_of(*old(state), lang@, k) is Some ==> key_state_of(*final(state), lang@, k)
                == key_state_of(*old(state), lang@, k),
        forall|k: Seq<char>| #[trigger]
            key_state_of(*final(state), lang@, k) is Some && key_state_of(*old(state), lang@, k) is None
                ==> backfilled_record(key_state_of(*final(state), lang@, k)->0, *en_map, *tr_map, k, ENGINE_TAG@),
        forall|k: Seq<char>|
            key_state_of(*old(state), lang@, k) is None && en_map.spec_contains(k) && tr_map.spec_contains(k)
                ==> #[trigger] key_state_of(*final(state), lang@, k) is Some,
        added == backfill_count(en_map.pairs(), lang_records(*old(state), lang@), tr_map.pairs()),
{
    backfill_state_from_existing_translation_at(state, lang, en_map, tr_map, now_epoch_secs())
}


// ---------------------------------------------------------------------------
// Provider batches
// ---------------------------------------------------------------------------

/// Some item of the batch has this key.
pub open spec fn item_has_key(items: Seq<(String, String)>, key: Seq<char>) -> bool {
    exists|i: int| 0 <= i < items.len() && #[trigger] items[i].0@ == key
}

/// The complaint about one requested item: its key is missing from the
/// reply, or its translation breaks an invariant of the English text.
pub open spec fn item_error(key: Seq<char>, english: Seq<char>, translated: JsonMap) -> Seq<Seq<char>> {
    match translated.spec_get(key) {
        None => seq!["missing key `"@ + key + "` in provider output"@],
        Some(tr) => match check_translation(english, tr@) {
            Some(f) => seq!["key `"@ + key + "`: "@ + failure_message(f)],
            None => Seq::empty(),
        },
    }
}

/// Complaints about the requested items, in request order.
pub open spec fn item_errors(items: Seq<(String, String)>, translated: JsonMap) -> Seq<Seq<char>>
    decreases items.len(),
{
    if items.len() == 0 {
        Seq::empty()
    } else {
        item_errors(items.drop_last(), translated) + item_error(items.last().0@, items.last().1@, translated)
    }
}

/// Complaints about reply keys nobody asked for, in key order.
pub open spec fn unexpected_key_errors(reply: Seq<(Seq<char>, String)>, items: Seq<(String, String)>) -> Seq<Seq<char>>
    decreases reply.len(),
{
    if reply.len() == 0 {
        Seq::empty()
    } else {
        unexpected_key_errors(reply.drop_last(), items) + if item_has_key(items, reply.last().0) {
            Seq::<Seq<char>>::empty()
        } else {
            seq!["unexpected key `"@ + reply.last().0 + "` in provider output"@]
        }
    }
}

/// Every complaint about a provider reply.
pub open spec fn batch_errors(items: Seq<(String, String)>, translated: JsonMap) -> Seq<Seq<char>> {
    item_errors(items, translated) + unexpected_key_errors(translated.pairs(), items)
}

fn item_key_present(items: &[(String, String)], key: &str) -> (r: bool)
    ensures
        r == item_has_key(items@, key@),
{
    let mut i: usize = 0;
    while i < items.len()
        invariant
            i <= items@.len(),
            forall|j: int| 0 <= j < i ==> items@[j].0@ != key@,
        decreases items@.len() - i,
    {
        if str_eq(items[i].0.as_str(), key) {
            assert(items@[i as int].0@ == key@);
            return true;
        }
        i = i + 1;
    }
    false
}

/// Checks a provider reply against the requested items: every item must be
/// answered with a valid translation, and no other key may appear. The
/// complaints are joined with `; `.
pub fn validate_batch(items: &[(String, String)], translated: &JsonMap) -> (r: Result<(), String>)
    requires
        translated.wf(),
    ensures
        batch_errors(items@, *translated).len() == 0 ==> r is Ok,
        batch_errors(items@, *translated).len() > 0 ==> (r matches Err(m) && m@ == join_with(
            batch_errors(items@, *translated),
            "; "@,
        )),
{
    let mut errors: Vec<String> = Vec::new();
    let mut i: usize = 0;
    while i < items.len()
        invariant
            i <= items@.len(),
            translated.wf(),
            strings_view(errors@) == item_errors(items@.take(i as int), *translated),
        decreases items@.len() - i,
    {
        let key = &items[i].0;
        let en_text = &items[i].1;
        assert(items@.take(i + 1).drop_last() =~= items@.take(i as int));
        let ghost before = errors@;
        match translated.get(key.as_str()) {
            None => {
                let mut m = "missing key `".to_string();
                push_str(&mut m, key.as_str());
                push_str(&mut m, "` in provider output");
                errors.push(m);
                assert(strings_view(errors@) =~= strings_view(before) + item_error(key@, en_text@, *translated));
            },
            Some(tr_text) => {
                match validate_translation(en_text.as_str(), tr_text.as_str()) {
                    Ok(()) => {
                        assert(strings_view(errors@) =~= strings_view(before) + item_error(key@, en_text@, *translated));
                    },
                    Err(err) => {
                        let mut m = "key `".to_string();
                        push_str(&mut m, key.as_str());
                        push_str(&mut m, "`: ");
                        let detail = err.message();
                        push_str(&mut m, detail.as_str());
                        errors.push(m);
                        assert(strings_view(errors@) =~= strings_view(before) + item_error(key@, en_text@, *translated));
                    },
                }
            },
        }
        i = i + 1;
    }
    assert(items@.take(items@.len() as int) =~= items@);
    let ghost first = strings_view(errors@);
    let n = translated.len();
    let mut j: usize = 0;
    while j < n
        invariant
            n == translated.pairs().len(),
            j <= n,
            translated.wf(),
            first == item_errors(items@, *translated),
            strings_view(errors@) == first + unexpected_key_errors(translated.pairs().take(j as int), items@),
        decreases n - j,
    {
        let key = translated.key_at(j);
        assert(translated.pairs().take(j + 1).drop_last() =~= translated.pairs().take(j as int));
        let ghost before = errors@;
        if !item_key_present(items, key.as_str()) {
            let mut m = "unexpected key `".to_string();
            push_str(&mut m, key.as_str());
            push_str(&mut m, "` in provider output");
            errors.push(m);
            assert(strings_view(errors@) =~= strings_view(before).push(m@));
        } else {
            assert(strings_view(errors@) =~= strings_view(before));
        }
        j = j + 1;
    }
    assert(translated.pairs().take(n as int) =~= translated.pairs());
    if errors.len() == 0 {
        return Ok(());
    }
    Err(join_strings(&errors, "; "))
}

// ---------------------------------------------------------------------------
// Command line, before parsing
// ---------------------------------------------------------------------------

/// The locale asked for with `--locale <L>` or `--locale=<L>`, scanning the
/// arguments from position `idx`; the first such flag wins.
pub open spec fn locale_flag_from(args: Seq<Seq<char>>, idx: int) -> Option<Seq<char>>
    decreases args.len() - idx,
{
    if idx < 0 || idx >= args.len() {
        None
    } else if args[idx] == "--locale"@ {
        if idx + 1 < args.len() {
            Some(args[idx + 1])
        } else {
            None
        }
    } else if starts_with(args[idx], "--locale="@) {
        Some(args[idx].skip("--locale="@.len() as int))
    } else {
        locale_flag_from(args, idx + 1)
    }
}

/// The locale requested on the command line (the program name at position 0
/// is skipped).
pub fn requested_locale_from_args(args: &[String]) -> (r: Option<String>)
    ensures
        match locale_flag_from(strings_view(args@), 1) {
            Some(l) => r matches Some(s) && s@ == l,
            None => r is None,
        },
{
    let ghost v = strings_view(args@);
    let mut idx: usize = 1;
    while idx < args.len()
        invariant
            1 <= idx,
            v == strings_view(args@),
            locale_flag_from(v, 1) == locale_flag_from(v, idx as int),
        decreases args@.len() - idx,
    {
        let token = &args[idx];
        if str_eq(token.as_str(), "--locale") {
            if idx + 1 < args.len() {
                return Some(args[idx + 1].clone());
            }
            return None;
        }
        if str_starts_with(token.as_str(), "--locale=") {
            proof {
                reveal_strlit("--locale=");
            }
            let chars = chars_of(token.as_str());
            return Some(string_from_range(&chars, 9, chars.len()));
        }
        idx = idx + 1;
    }
    None
}

/// Which command's help the user asked for.
#[derive(Debug, Clone, Copy, PartialEq, Eq, Structural)]
pub enum HelpTarget {
    TopLevel,
    Diff,
    Validate,
    Status,
    Translate,
}

/// The help page of a command word.
pub open spec fn command_help_target(token: Seq<char>) -> HelpTarget {
    if token == "diff"@ {
        HelpTarget::Diff
    } else if token == "validate"@ {
        HelpTarget::Validate
    } else if token == "status"@ {
        HelpTarget::Status
    } else if token == "translate"@ {
        HelpTarget::Translate
    } else {
        HelpTarget::TopLevel
    }
}

/// The help page for the first argument from `idx` that is not a flag,
/// skipping `--locale` with its value, `--locale=..`, and other flags.
pub open spec fn help_target_from(args: Seq<Seq<char>>, idx: int) -> HelpTarget
    decreases args.len() + 2 - idx,
{
    if idx < 0 || idx >= args.len() {
        HelpTarget::TopLevel
    } else if args[idx] == "--locale"@ {
        help_target_from(args, idx + 2)
    } else if starts_with(args[idx], "-"@) {
        help_target_from(args, idx + 1)
    } else {
        command_help_target(args[idx])
    }
}

/// The help page the command line asks for (position 0 is the program name).
pub fn help_target_from_args(args: &[String]) -> (t: HelpTarget)
    ensures
        t == help_target_from(strings_view(args@), 1),
{
    let ghost v = strings_view(args@);
    let mut idx: usize = 1;
    while idx < args.len()
        invariant
            1 <= idx,
            v == strings_view(args@),
            help_target_from(v, 1) == help_target_from(v, idx as int),
        decreases args@.len() - idx,
    {
        let token = args[idx].as_str();
        if str_eq(token, "--locale") {
            if args.len() - idx > 2 {
                idx = idx + 2;
            } else {
                assert(help_target_from(v, idx + 2) == HelpTarget::TopLevel);
                return HelpTarget::TopLevel;
            }
        } else if str_starts_with(token, "-") {
            idx = idx + 1;
        } else if str_eq(token, "diff") {
            return HelpTarget::Diff;
        } else if str_eq(token, "validate") {
            return HelpTarget::Validate;
        } else if str_eq(token, "status") {
            return HelpTarget::Status;
        } else if str_eq(token, "translate") {
            return HelpTarget::Translate;
        } else {
            return HelpTarget::TopLevel;
        }
    }
    HelpTarget::TopLevel
}

// ---------------------------------------------------------------------------
// Glossary
// ---------------------------------------------------------------------------

/// The glossary's part of the cache key: the hash of its compact JSON text,
/// or of the empty text when there is no glossary.
pub fn glossary_version(glossary: Option<&JsonMap>) -> (r: Result<String, String>)
    requires
        glossary matches Some(m) ==> m.wf(),
    ensures
        match glossary {
            None => r matches Ok(v) && v@ == text_hash(Seq::empty()),
            Some(m) => r matches Ok(v) && v@ == text_hash(json_object_text_of(m.pairs())),
        },
{
    let text = match glossary {
        Some(map) => match json_object_text(map) {
            Ok(t) => t,
            Err(e) => {
                let mut msg = "failed serializing glossary for cache key: ".to_string();
                push_str(&mut msg, e.as_str());
                return Err(msg);
            },
        },
        None => String::new(),
    };
    Ok(hash_text(text.as_str()))
}


// ---------------------------------------------------------------------------
// Target languages
// ---------------------------------------------------------------------------

/// `str::split` on `sep`, reading left to right: the finished pieces (empty
/// ones too) and the piece still being read.
pub open spec fn split_all_state(s: Seq<char>, sep: char) -> (Seq<Seq<char>>, Seq<char>)
    decreases s.len(),
{
    if s.len() == 0 {
        (Seq::empty(), Seq::empty())
    } else {
        let (done, cur) = split_all_state(s.drop_last(), sep);
        if s.last() == sep {
            (done.push(cur), Seq::empty())
        } else {
            (done, cur.push(s.last()))
        }
    }
}

/// The pieces of `s` between occurrences of `sep`, empty ones included.
pub open spec fn split_all(s: Seq<char>, sep: char) -> Seq<Seq<char>> {
    split_all_state(s, sep).0.push(split_all_state(s, sep).1)
}

/// The trimmed pieces that are not empty, in order.
pub open spec fn trimmed_nonempty(pieces: Seq<Seq<char>>) -> Seq<Seq<char>>
    decreases pieces.len(),
{
    if pieces.len() == 0 {
        Seq::empty()
    } else {
        trimmed_nonempty(pieces.drop_last()) + if trim_spec(pieces.last()).len() > 0 {
            seq![trim_spec(pieces.last())]
        } else {
            Seq::<Seq<char>>::empty()
        }
    }
}

/// The languages of a comma-separated list, trimmed, empty entries dropped.
pub open spec fn lang_list(langs: Seq<char>) -> Seq<Seq<char>> {
    trimmed_nonempty(split_all(langs, ','))
}

fn push_trimmed(out: &mut Vec<String>, piece: &Vec<char>)
    ensures
        strings_view(final(out)@) == strings_view(old(out)@) + if trim_spec(piece@).len() > 0 {
            seq![trim_spec(piece@)]
        } else {
            Seq::<Seq<char>>::empty()
        },
{
    let t = trim_chars(piece);
    let ghost before = out@;
    if t.len() > 0 {
        out.push(string_from_chars(&t));
        assert(strings_view(out@) =~= strings_view(before).push(t@));
    } else {
        assert(strings_view(out@) =~= strings_view(before));
    }
}

/// The languages named in a comma-separated list (`"fr, de ,"` gives
/// `fr`, `de`).
pub fn parse_lang_list(langs: &str) -> (r: Vec<String>)
    ensures
        strings_view(r@) == lang_list(langs@),
{
    let chars = chars_of(langs);
    let mut out: Vec<String> = Vec::new();
    let mut cur: Vec<char> = Vec::new();
    let mut i: usize = 0;
    while i < chars.len()
        invariant
            i <= chars@.len(),
            chars@ == langs@,
            strings_view(out@) == trimmed_nonempty(split_all_state(chars@.take(i as int), ',').0),
            cur@ == split_all_state(chars@.take(i as int), ',').1,
        decreases chars@.len() - i,
    {
        let c = chars[i];
        assert(chars@.take(i + 1).drop_last() =~= chars@.take(i as int));
        let ghost done = split_all_state(chars@.take(i as int), ',').0;
        if c == ',' {
            push_trimmed(&mut out, &cur);
            assert(done.push(cur@).drop_last() =~= done);
            cur = Vec::new();
            assert(cur@ =~= Seq::<char>::empty());
        } else {
            cur.push(c);
        }
        i = i + 1;
    }
    assert(chars@.take(chars@.len() as int) =~= chars@);
    let ghost done = split_all_state(chars@, ',').0;
    push_trimmed(&mut out, &cur);
    assert(done.push(cur@).drop_last() =~= done);
    out
}

/// Whether the list asks for every language (`all`, blanks around allowed).
pub fn requests_all_langs(langs: &str) -> (r: bool)
    ensures
        r == (trim_spec(langs@) == "all"@),
{
    let t = trim_chars(&chars_of(langs));
    let all = chars_of("all");
    crate::text::chars_equal(&t, &all)
}

/// Strictly ascending texts.
pub open spec fn strictly_ascending(v: Seq<Seq<char>>) -> bool {
    forall|i: int, j: int| 0 <= i < j < v.len() ==> lex_lt(#[trigger] v[i], #[trigger] v[j])
}

/// The texts of `items`, ascending, each once.
pub fn ascending_unique(items: &Vec<String>) -> (r: Vec<String>)
    ensures
        strictly_ascending(strings_view(r@)),
        forall|x: Seq<char>| strings_view(r@).contains(x) <==> strings_view(items@).contains(x),
{
    let mut set: StrMap<bool> = StrMap::new();
    let mut i: usize = 0;
    while i < items.len()
        invariant
            i <= items@.len(),
            set.wf(),
            forall|x: Seq<char>| set.spec_contains(x) <==> strings_view(items@).take(i as int).contains(x),
        decreases items@.len() - i,
    {
        let item = &items[i];
        assert(strings_view(items@).take(i + 1) =~= strings_view(items@).take(i as int).push(item@));
        let ghost prefix = strings_view(items@).take(i as int);
        set.insert(item.clone(), true);
        assert forall|x: Seq<char>| set.spec_contains(x) <==> prefix.push(item@).contains(x) by {
            if prefix.push(item@).contains(x) && x != item@ {
                let a = choose|a: int| 0 <= a < prefix.len() + 1 && prefix.push(item@)[a] == x;
                assert(prefix[a] == x);
            }
            if prefix.contains(x) {
                let a = choose|a: int| 0 <= a < prefix.len() && prefix[a] == x;
                assert(prefix.push(item@)[a] == x);
            }
            assert(prefix.push(item@)[prefix.len() as int] == item@);
        }
        i = i + 1;
    }
    assert(strings_view(items@).take(items@.len() as int) =~= strings_view(items@));
    let mut out: Vec<String> = Vec::new();
    let n = set.len();
    let mut j: usize = 0;
    while j < n
        invariant
            n == set.pairs().len(),
            j <= n,
            set.wf(),
            strings_view(out@) == Seq::new(j as nat, |k: int| set.pairs()[k].0),
        decreases n - j,
    {
        let ghost before = out@;
        let key = set.key_at(j).clone();
        out.push(key);
        assert(strings_view(out@) =~= strings_view(before).push(set.pairs()[j as int].0));
        assert(strings_view(out@) =~= Seq::new((j + 1) as nat, |k: int| set.pairs()[k].0));
        j = j + 1;
    }
    proof {
        let keys = Seq::new(n as nat, |k: int| set.pairs()[k].0);
        assert(strings_view(out@) == keys);
        assert forall|a: int, b: int| 0 <= a < b < keys.len() implies lex_lt(#[trigger] keys[a], #[trigger] keys[b]) by {
            assert(keys[a] == set.pairs()[a].0);
            assert(keys[b] == set.pairs()[b].0);
        }
        assert forall|x: Seq<char>| keys.contains(x) <==> set.spec_contains(x) by {
            if keys.contains(x) {
                let a = choose|a: int| 0 <= a < keys.len() && keys[a] == x;
                assert(set.pairs()[a].0 == x);
            }
            if set.spec_contains(x) {
                let a = choose|a: int| 0 <= a < set.pairs().len() && #[trigger] set.pairs()[a].0 == x;
                assert(keys[a] == x);
            }
        }
    }
    out
}

/// The languages of a directory's translation files, from their file stems:
/// every stem but `en`, ascending, each once.
pub fn select_stem_langs(stems: &Vec<String>) -> (r: Vec<String>)
    ensures
        strictly_ascending(strings_view(r@)),
        forall|x: Seq<char>|
            strings_view(r@).contains(x) <==> (strings_view(stems@).contains(x) && x != "en"@),
{
    let mut kept: Vec<String> = Vec::new();
    let mut i: usize = 0;
    while i < stems.len()
        invariant
            i <= stems@.len(),
            forall|x: Seq<char>|
                strings_view(kept@).contains(x) <==> (strings_view(stems@).take(i as int).contains(x) && x != "en"@),
        decreases stems@.len() - i,
    {
        let stem = &stems[i];
        let ghost prefix = strings_view(stems@).take(i as int);
        let ghost before = strings_view(kept@);
        assert(strings_view(stems@).take(i + 1) =~= prefix.push(stem@));
        if !str_eq(stem.as_str(), "en") {
            kept.push(stem.clone());
            assert(strings_view(kept@) =~= before.push(stem@));
        } else {
            assert(strings_view(kept@) =~= before);
        }
        assert forall|x: Seq<char>|
            strings_view(kept@).contains(x) <==> (prefix.push(stem@).contains(x) && x != "en"@) by {
            if prefix.push(stem@).contains(x) && x != stem@ {
                let a = choose|a: int| 0 <= a < prefix.len() + 1 && prefix.push(stem@)[a] == x;
                assert(prefix[a] == x);
            }
            if prefix.contains(x) {
                let a = choose|a: int| 0 <= a < prefix.len() && prefix[a] == x;
                assert(prefix.push(stem@)[a] == x);
            }
            if before.contains(x) {
                let a = choose|a: int| 0 <= a < before.len() && before[a] == x;
                assert(before.push(stem@)[a] == x);
            }
            if before.push(stem@).contains(x) && x != stem@ {
                let a = choose|a: int| 0 <= a < before.len() + 1 && before.push(stem@)[a] == x;
                assert(before[a] == x);
            }
            assert(prefix.push(stem@)[prefix.len() as int] == stem@);
            assert(before.push(stem@)[before.len() as int] == stem@);
        }
        i = i + 1;
    }
    assert(strings_view(stems@).take(stems@.len() as int) =~= strings_view(stems@));
    ascending_unique(&kept)
}

/// The translation file of `lang` beside the English file: `<lang>.json` in
/// the same directory. Fails when the English path has no parent.
pub fn lang_path_for(en_path: &Path, lang: &str) -> (r: Result<PathBuf, String>)
    ensures
        match parent_path_text(path_text(en_path)) {
            Some(parent) => r matches Ok(p) && owned_path_text(p) == joined_path_text(parent, lang_file_name(lang@)),
            None => r matches Err(m) && m@ == "`"@ + path_text(en_path) + "` has no parent directory"@,
        },
{
    match path_parent(en_path) {
        Some(parent) => {
            let name = lang_file(lang);
            Ok(path_join(parent, name.as_str()))
        },
        None => {
            let shown = path_display(en_path);
            let mut m = "`".to_string();
            push_str(&mut m, shown.as_str());
            push_str(&mut m, "` has no parent directory");
            assert(m@ == "`"@ + shown@ + "` has no parent directory"@);
            Err(m)
        },
    }
}

} // verus!
