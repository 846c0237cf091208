//! Translator state: for each language and key, the hashes of the English
//! text and of the bot translation it was last generated from.
use vstd::prelude::*;
use vstd::utf8::encode_utf8;
use crate::json_map::{StrMap, JsonMap, has_key, lookup, sorted_keys};
use crate::id::{blake3_digest, blake3_hash};
use crate::text::string_push;
use crate::paths::{path_join, as_path, path_text, owned_path_text, joined_path_text};
use std::path::{Path, PathBuf};

verus! {

/// Lower-case hexadecimal digit of a value below 16.
pub open spec fn hex_digit(d: nat) -> char {
    if d < 10 {
        (d + 48) as char
    } else {
        (d + 87) as char
    }
}

/// Lower-case hexadecimal rendering, two digits per byte.
pub open spec fn hex_lower(bytes: Seq<u8>) -> Seq<char>
    decreases bytes.len(),
{
    if bytes.len() == 0 {
        Seq::empty()
    } else {
        hex_lower(bytes.drop_last()).push(hex_digit((bytes.last() / 16) as nat)).push(
            hex_digit((bytes.last() % 16) as nat),
        )
    }
}

/// The state hash of a text: lower-case hex of the BLAKE3 digest of its UTF-8 bytes.
pub open spec fn text_hash(s: Seq<char>) -> Seq<char> {
    hex_lower(blake3_digest(encode_utf8(s)))
}

fn hex_char(d: u8) -> (c: char)
    requires
        d < 16,
    ensures
        c == hex_digit(d as nat),
{
    if d < 10 {
        (d + 48) as char
    } else {
        (d + 87) as char
    }
}

/// Lower-case hex of the BLAKE3 digest of the text.
pub fn hash_text(value: &str) -> (h: String)
    ensures
        h@ == text_hash(value@),
        h@.len() == 64,
{
    let digest = blake3_hash(value.as_bytes());
    let mut h = String::new();
    let mut i: usize = 0;
    while i < 32
        invariant
            i <= 32,
            digest@.len() == 32,
            h@ == hex_lower(digest@.take(i as int)),
            h@.len() == 2 * i,
        decreases 32 - i,
    {
        let b = digest[i];
        string_push(&mut h, hex_char(b / 16));
        string_push(&mut h, hex_char(b % 16));
        assert(digest@.take(i + 1).drop_last() =~= digest@.take(i as int));
        i = i + 1;
    }
    assert(digest@.take(32) =~= digest@);
    h
}

/// Trusted: `SystemTime::now().duration_since(UNIX_EPOCH)` in whole seconds,
/// `None` when the clock is before the epoch. Nothing is stated of the
/// value: it depends on the time.
#[verifier::external_body]
fn clock_secs_since_epoch() -> Option<u64> {
    std::time::SystemTime::now().duration_since(std::time::UNIX_EPOCH).ok().map(|d| d.as_secs())
}

/// The timestamp recorded for a clock reading: its seconds, or 0 for a clock
/// set before the epoch.
pub fn epoch_secs_or_zero(reading: Option<u64>) -> (secs: u64)
    ensures
        secs == match reading {
            Some(s) => s,
            None => 0,
        },
{
    match reading {
        Some(s) => s,
        None => 0,
    }
}

/// Seconds since the Unix epoch from the system clock, 0 when the clock is
/// before the epoch.
pub fn now_epoch_secs() -> u64 {
    epoch_secs_or_zero(clock_secs_since_epoch())
}

/// What the translator recorded for one key.
#[derive(Debug, Clone)]
pub struct KeyState {
    pub last_english_hash: String,
    pub last_bot_translation_hash: String,
    pub engine: String,
    pub timestamp_epoch_secs: u64,
}

/// Recorded keys of one language.
#[derive(Debug)]
pub struct LangState {
    pub keys: StrMap<KeyState>,
}

impl Default for LangState {
    fn default() -> (s: Self)
        ensures
            s.keys.wf(),
            s.keys.pairs().len() == 0,
    {
        LangState { keys: StrMap::new() }
    }
}

/// The translator's state file.
#[derive(Debug)]
pub struct TranslatorState {
    pub version: u32,
    pub langs: StrMap<LangState>,
}

impl Default for TranslatorState {
    /// Version 1, no languages.
    fn default() -> (s: Self)
        ensures
            s.wf(),
            s.version == 1,
            s.langs.pairs().len() == 0,
    {
        let s = TranslatorState { version: 1, langs: StrMap::new() };
        s
    }
}

/// The record of `key` in `lang`.
pub open spec fn key_state_of(state: TranslatorState, lang: Seq<char>, key: Seq<char>) -> Option<KeyState> {
    match state.langs.spec_get(lang) {
        Some(ls) => ls.keys.spec_get(key),
        None => None,
    }
}

/// Entries present in `en` whose key is recorded nowhere yet and has a translation.
pub open spec fn backfill_count(
    en: Seq<(Seq<char>, String)>,
    recorded: Seq<(Seq<char>, KeyState)>,
    tr: Seq<(Seq<char>, String)>,
) -> nat
    decreases en.len(),
{
    if en.len() == 0 {
        0
    } else {
        backfill_count(en.drop_last(), recorded, tr) + if !has_key(recorded, en.last().0)
            && has_key(tr, en.last().0) {
            1nat
        } else {
            0nat
        }
    }
}

/// A record made from an English text and its translation.
pub open spec fn backfilled_record(ks: KeyState, en: JsonMap, tr: JsonMap, key: Seq<char>, engine: Seq<char>) -> bool {
    match (en.spec_get(key), tr.spec_get(key)) {
        (Some(en_text), Some(tr_text)) => {
            &&& ks.last_english_hash@ == text_hash(en_text@)
            &&& ks.last_bot_translation_hash@ == text_hash(tr_text@)
            &&& ks.engine@ == engine
        },
        _ => false,
    }
}

/// The records of a language, in key order.
pub open spec fn lang_records(state: TranslatorState, lang: Seq<char>) -> Seq<(Seq<char>, KeyState)> {
    match state.langs.spec_get(lang) {
        Some(ls) => ls.keys.pairs(),
        None => Seq::empty(),
    }
}

impl TranslatorState {
    /// The state file, `.i18n/translator-state.json` under the repository root.
    pub fn default_path(repo_root: &Path) -> (r: PathBuf)
        ensures
            owned_path_text(r) == joined_path_text(
                joined_path_text(path_text(repo_root), ".i18n"@),
                "translator-state.json"@,
            ),
    {
        let dir = path_join(repo_root, ".i18n");
        path_join(as_path(&dir), "translator-state.json")
    }

    /// Every language's key map is in order.
    pub open spec fn wf(&self) -> bool {
        &&& self.langs.wf()
        &&& forall|l: Seq<char>| #[trigger] self.langs.spec_get(l) matches Some(ls) ==> ls.keys.wf()
    }

    /// The record of `key` in `lang`.
    pub fn key_state(&self, lang: &str, key: &str) -> (r: Option<&KeyState>)
        requires
            self.wf(),
        ensures
            match r {
                Some(ks) => key_state_of(*self, lang@, key@) == Some(*ks),
                None => key_state_of(*self, lang@, key@) is None,
            },
    {
        match self.langs.get(lang) {
            Some(lang_state) => lang_state.keys.get(key),
            None => None,
        }
    }

    /// Records, for a key of a language, the hashes of its English text and of
    /// the bot's translation of it, stamped with `now` (seconds since the
    /// Unix epoch); an earlier record of the key is replaced.
    pub fn set_key_state_at(
        &mut self,
        lang: &str,
        key: &str,
        last_english_hash: String,
        last_bot_translation_hash: String,
        engine: &str,
        now: u64,
    )
        requires
            old(self).wf(),
        ensures
            final(self).wf(),
            final(self).version == old(self).version,
            final(self).langs.spec_contains(lang@),
            key_state_of(*final(self), lang@, key@) matches Some(ks) && ks.last_english_hash
                == last_english_hash && ks.last_bot_translation_hash == last_bot_translation_hash
                && ks.engine@ == engine@ && ks.timestamp_epoch_secs == now,
            forall|l: Seq<char>, k: Seq<char>|
                (l != lang@ || k != key@) ==> #[trigger] key_state_of(*final(self), l, k)
                    == key_state_of(*old(self), l, k),
            forall|l: Seq<char>| #[trigger] final(self).langs.spec_contains(l) == (old(self).langs.spec_contains(l) || l == lang@),
    {
        let mut lang_state = match self.langs.remove(lang) {
            Some(ls) => ls,
            None => LangState::default(),
        };
        lang_state.keys.insert(
            key.to_string(),
            KeyState {
                last_english_hash,
                last_bot_translation_hash,
                engine: engine.to_string(),
                timestamp_epoch_secs: now,
            },
        );
        self.langs.insert(lang.to_string(), lang_state);
    }

    /// Records, for a key of a language, the hashes of its English text and of
    /// the bot's translation of it, stamped with the system clock (see
    /// `set_key_state_at`).
    pub fn set_key_state(
        &mut self,
        lang: &str,
        key: &str,
        last_english_hash: String,
        last_bot_translation_hash: String,
        engine: &str,
    )
        requires
            old(self).wf(),
        ensures
            final(self).wf(),
            final(self).version == old(self).version,
            final(self).langs.spec_contains(lang@),
            key_state_of(*final(self), lang@, key@) matches Some(ks) && ks.last_english_hash
                == last_english_hash && ks.last_bot_translation_hash == last_bot_translation_hash
                && ks.engine@ == engine@,
            forall|l: Seq<char>, k: Seq<char>|
                (l != lang@ || k != key@) ==> #[trigger] key_state_of(*final(self), l, k)
                    == key_state_of(*old(self), l, k),
            forall|l: Seq<char>| #[trigger] final(self).langs.spec_contains(l) == (old(self).langs.spec_contains(l) || l == lang@),
    {
        self.set_key_state_at(lang, key, last_english_hash, last_bot_translation_hash, engine, now_epoch_secs());
    }

    /// Records every English key that has a translation but no record yet,
    /// with the hashes of both texts, stamped with `now` (seconds since the
    /// Unix epoch), and returns how many were added.
    pub fn backfill_missing_keys_from_maps_at(
        &mut self,
        lang: &str,
        en_map: &JsonMap,
        tr_map: &JsonMap,
        engine: &str,
        now: u64,
    ) -> (added: usize)
        requires
            old(self).wf(),
            en_map.wf(),
            tr_map.wf(),
        ensures
            final(self).wf(),
            final(self).version == old(self).version,
            final(self).langs.spec_contains(lang@),
            forall|l: Seq<char>| #[trigger] final(self).langs.spec_contains(l) == (old(self).langs.spec_contains(l) || l == lang@),
            forall|l: Seq<char>, k: Seq<char>|
                l != lang@ ==> #[trigger] key_state_of(*final(self), l, k) == key_state_of(
                    *old(self),
                    l,
                    k,
                ),
            forall|k: Seq<char>| #[trigger]
                key_state_of(*old(self), lang@, k) is Some ==> key_state_of(*final(self), lang@, k)
                    == key_state_of(*old(self), lang@, k),
            forall|k: Seq<char>| #[trigger]
                key_state_of(*final(self), lang@, k) is Some && key_state_of(*old(self), lang@, k) is None
                    ==> backfilled_record(key_state_of(*final(self), lang@, k)->0, *en_map, *tr_map, k, engine@),
            forall|k: Seq<char>|
                key_state_of(*old(self), lang@, k) is None && en_map.spec_contains(k)
                    && tr_map.spec_contains(k) ==> #[trigger] key_state_of(*final(self), lang@, k) is Some,
            forall|k: Seq<char>| #[trigger]
                key_state_of(*final(self), lang@, k) is Some && key_state_of(*old(self), lang@, k) is None
                    ==> key_state_of(*final(self), lang@, k)->0.timestamp_epoch_secs == now,
            added == backfill_count(en_map.pairs(), lang_records(*old(self), lang@), tr_map.pairs()),
    {
        let ghost recorded = lang_records(*old(self), lang@);
        let mut lang_state = match self.langs.remove(lang) {
            Some(ls) => ls,
            None => LangState::default(),
        };
        assert(lang_state.keys.pairs() == recorded);
        let before = lang_state.keys.len();
        let mut i: usize = 0;
        while i < en_map.len()
            invariant
                i <= en_map.pairs().len(),
                en_map.wf(),
                tr_map.wf(),
                lang_state.keys.wf(),
                sorted_keys(recorded),
                lang_state.keys.pairs().len() == before + backfill_count(
                    en_map.pairs().take(i as int),
                    recorded,
                    tr_map.pairs(),
                ),
                before == recorded.len(),
                forall|k: Seq<char>| #[trigger]
                    has_key(recorded, k) ==> lang_state.keys.spec_get(k) == lookup(recorded, k),
                forall|k: Seq<char>| #[trigger]
                    lang_state.keys.spec_get(k) is Some && !has_key(recorded, k)
                        ==> backfilled_record(lang_state.keys.spec_get(k)->0, *en_map, *tr_map, k, engine@)
                        && lang_state.keys.spec_get(k)->0.timestamp_epoch_secs == now,
                forall|j: int| #![trigger en_map.pairs()[j]]
                    0 <= j < i && !has_key(recorded, en_map.pairs()[j].0)
                        && tr_map.spec_contains(en_map.pairs()[j].0) ==> lang_state.keys.spec_contains(
                        en_map.pairs()[j].0,
                    ),
                forall|j: int| #![trigger en_map.pairs()[j]]
                    i <= j < en_map.pairs().len() && !has_key(recorded, en_map.pairs()[j].0)
                        ==> !lang_state.keys.spec_contains(en_map.pairs()[j].0),
            decreases en_map.pairs().len() - i,
        {
            let key = en_map.key_at(i);
            let en_text = en_map.value_at(i);
            proof {
                assert(en_map.pairs().take(i + 1).drop_last() =~= en_map.pairs().take(i as int));
                crate::json_map::lemma_lookup_at(en_map.pairs(), i as int);
            }
            if !lang_state.keys.contains_key(key.as_str()) {
                match tr_map.get(key.as_str()) {
                    Some(translated_text) => {
                        let ks = KeyState {
                            last_english_hash: hash_text(en_text.as_str()),
                            last_bot_translation_hash: hash_text(translated_text.as_str()),
                            engine: engine.to_string(),
                            timestamp_epoch_secs: now,
                        };
                        lang_state.keys.insert(key.clone(), ks);
                        proof {
                            assert forall|j: int| #![trigger en_map.pairs()[j]]
                                i < j < en_map.pairs().len() && !has_key(recorded, en_map.pairs()[j].0)
                                    implies !lang_state.keys.spec_contains(en_map.pairs()[j].0) by {
                                crate::json_map::lemma_lex_irreflexive(key@);
                                assert(crate::json_map::lex_lt(en_map.pairs()[i as int].0, en_map.pairs()[j].0));
                            }
                        }
                    },
                    None => {},
                }
            }
            i = i + 1;
        }
        assert(en_map.pairs().take(en_map.pairs().len() as int) =~= en_map.pairs());
        let after = lang_state.keys.len();
        self.langs.insert(lang.to_string(), lang_state);
        proof {
            assert forall|k: Seq<char>|
                key_state_of(*old(self), lang@, k) is None && en_map.spec_contains(k)
                    && tr_map.spec_contains(k) implies #[trigger] key_state_of(*final(self), lang@, k) is Some by {
                let j = choose|j: int| 0 <= j < en_map.pairs().len() && #[trigger] en_map.pairs()[j].0 == k;
                assert(en_map.pairs()[j].0 == k);
            }
        }
        after - before
    }

    /// Records every English key that has a translation but no record yet,
    /// with the hashes of both texts, stamped with the system clock (see
    /// `backfill_missing_keys_from_maps_at`), and returns how many were added.
    pub fn backfill_missing_keys_from_maps(
        &mut self,
        lang: &str,
        en_map: &JsonMap,
        tr_map: &JsonMap,
        engine: &str,
    ) -> (added: usize)
        requires
            old(self).wf(),
            en_map.wf(),
            tr_map.wf(),
        ensures
            final(self).wf(),
            final(self).version == old(self).version,
            final(self).langs.spec_contains(lang@),
            forall|l: Seq<char>| #[trigger] final(self).langs.spec_contains(l) == (old(self).langs.spec_contains(l) || l == lang@),
            forall|l: Seq<char>, k: Seq<char>|
                l != lang@ ==> #[trigger] key_state_of(*final(self), l, k) == key_state_of(
                    *old(self),
                    l,
                    k,
                ),
            forall|k: Seq<char>| #[trigger]
                key_state_of(*old(self), lang@, k) is Some ==> key_state_of(*final(self), lang@, k)
                    == key_state_of(*old(self), lang@, k),
            forall|k: Seq<char>| #[trigger]
                key_state_of(*final(self), lang@, k) is Some && key_state_of(*old(self), lang@, k) is None
                    ==> backfilled_record(key_state_of(*final(self), lang@, k)->0, *en_map, *tr_map, k, engine@),
            forall|k: Seq<char>|
                key_state_of(*old(self), lang@, k) is None && en_map.spec_contains(k)
                    && tr_map.spec_contains(k) ==> #[trigger] key_state_of(*final(self), lang@, k) is Some,
            added == backfill_count(en_map.pairs(), lang_records(*old(self), lang@), tr_map.pairs()),
    {
        self.backfill_missing_keys_from_maps_at(lang, en_map, tr_map, engine, now_epoch_secs())
    }

}

} // verus!
