//! One language's translation run as a state machine. The session decides;
//! its driver looks entries up in the cache, calls the provider and stores
//! entries, and hands each result back as an event.
//!
//! Keys are visited in English key order. A key edited by hand (unless
//! manual edits may be overwritten) or still holding the bot's translation
//! of the current English text is kept. Otherwise a cached translation that
//! passes validation is taken; the rest is sent to the provider in batches,
//! each batch retried with feedback until its reply validates or the retries
//! run out.
use vstd::prelude::*;
use crate::json_map::JsonMap;
use crate::state::{TranslatorState, key_state_of, text_hash, hash_text};
use crate::store::{CacheStore, cache_key_of};
use crate::text::{push_str, push_decimal_succ, decimal, join_with};
use crate::validate::{check_translation, validate_translation};
use crate::workflow::{
    ENGINE_TAG, RULES_VERSION, manual_override, fresh_bot_translation, has_manual_override,
    has_fresh_bot_translation, batch_errors, validate_batch,
};

verus! {

/// Counters of a translation run.
#[derive(Debug, Clone, Copy, PartialEq, Eq, Structural)]
pub struct TranslateOutcome {
    /// Keys the provider translated.
    pub translated: usize,
    /// Keys kept from the state or taken from the cache.
    pub cache_hits: usize,
    /// Keys kept because they were edited by hand.
    pub manual_preserved: usize,
}

impl Default for TranslateOutcome {
    fn default() -> (o: Self)
        ensures
            o == (TranslateOutcome { translated: 0, cache_hits: 0, manual_preserved: 0 }),
    {
        TranslateOutcome { translated: 0, cache_hits: 0, manual_preserved: 0 }
    }
}

/// What becomes of a key before any cache or provider is asked.
#[derive(Debug, Clone, Copy, PartialEq, Eq, Structural)]
pub enum KeyPlan {
    /// Edited by hand: kept.
    KeepManual,
    /// The bot's translation of the current English text: kept.
    KeepFresh,
    /// Needs a cached or a new translation.
    Lookup,
}

/// The plan for a key.
pub open spec fn key_plan(
    lang: Seq<char>,
    key: Seq<char>,
    english: Seq<char>,
    out_map: JsonMap,
    state: TranslatorState,
    overwrite_manual: bool,
) -> KeyPlan {
    if !overwrite_manual && manual_override(lang, key, english, out_map, state) {
        KeyPlan::KeepManual
    } else if fresh_bot_translation(lang, key, english, out_map, state) {
        KeyPlan::KeepFresh
    } else {
        KeyPlan::Lookup
    }
}

/// Decides the plan for a key.
pub fn plan_key(
    lang: &str,
    key: &str,
    english_text: &str,
    out_map: &JsonMap,
    state: &TranslatorState,
    overwrite_manual: bool,
) -> (p: KeyPlan)
    requires
        out_map.wf(),
        state.wf(),
    ensures
        p == key_plan(lang@, key@, english_text@, *out_map, *state, overwrite_manual),
{
    if !overwrite_manual && has_manual_override(lang, key, english_text, out_map, state) {
        KeyPlan::KeepManual
    } else if has_fresh_bot_translation(lang, key, english_text, out_map, state) {
        KeyPlan::KeepFresh
    } else {
        KeyPlan::Lookup
    }
}

/// What the session reports to its driver after an event.
#[derive(Debug)]
pub enum TranslateAction {
    /// Nothing to do outside: advance again with `Proceed`.
    Continue,
    /// Read the cache entry under `cache_key`; answer with `CacheEntry`.
    LookupCache { cache_key: String },
    /// Ask the provider to translate `items`; answer with `ProviderReply`.
    CallProvider { items: Vec<(String, String)>, retry_feedback: Option<String> },
    /// Store `translation` under `cache_key`; answer with `CacheStored`.
    StoreCache { cache_key: String, translation: String },
    /// The run is complete.
    Done,
    /// The run failed with this message.
    Fail(String),
}

/// What the driver hands back to the session.
#[derive(Debug)]
pub enum TranslateEvent {
    /// Go on (after `Continue`, and to start).
    Proceed,
    /// The cache entry that was asked for, if any.
    CacheEntry(Option<String>),
    /// The provider's reply to the last request.
    ProviderReply(JsonMap),
    /// The entry was stored.
    CacheStored,
}

/// Where a session stands.
#[derive(Debug)]
pub enum Phase {
    /// Keys before `next` are decided.
    Classify { next: usize },
    /// Waiting for the cache entry of English key `index`.
    AwaitCache { index: usize },
    /// Waiting for the reply for the batch starting at `start`, asked for
    /// with `feedback` on a retry.
    AwaitReply { start: usize, attempt: usize, feedback: Option<String> },
    /// Waiting for the store of batch item `pos`, the accepted reply at hand.
    AwaitStore { start: usize, pos: usize, reply: JsonMap },
    /// All keys are done.
    Finished,
    /// The run failed with `message`.
    Failed { message: String },
}

/// The batch of pending items that starts at `start`.
pub open spec fn chunk_at(pending: Seq<(String, String)>, start: int, batch_size: int) -> Seq<(String, String)> {
    pending.subrange(start, if start + batch_size <= pending.len() { start + batch_size } else { pending.len() as int })
}

/// Feedback sent with a retried batch.
pub open spec fn retry_feedback_text(message: Seq<char>) -> Seq<char> {
    "You broke placeholders/backticks/newlines. Fix and return valid JSON only.\n"@ + message
}

/// The failure of a batch whose last attempt did not validate.
pub open spec fn exhausted_text(lang: Seq<char>, max_retries: nat, message: Seq<char>) -> Seq<char> {
    "translation validation failed for language `"@ + lang + "` after "@ + decimal(max_retries + 1)
        + " attempts: "@ + message
}

/// `key` is the key of one of the entries `en`.
pub open spec fn english_key(en: Seq<(String, String)>, key: Seq<char>) -> bool {
    exists|j: int| 0 <= j < en.len() && #[trigger] en[j].0@ == key
}

/// `translation` passes validation against the English text of an entry of
/// `en` with key `key`.
pub open spec fn validated_for(en: Seq<(String, String)>, key: Seq<char>, translation: String) -> bool {
    exists|j: int| 0 <= j < en.len() && #[trigger] en[j].0@ == key && check_translation(en[j].1@, translation@) is None
}

/// Against `initial`, `map` changed only keys of the entries `en`, and each
/// translation that changed passes validation against its English text.
pub open spec fn changes_validated(en: Seq<(String, String)>, initial: JsonMap, map: JsonMap) -> bool {
    &&& forall|k: Seq<char>| !english_key(en, k) ==> #[trigger] map.spec_get(k) == initial.spec_get(k)
    &&& forall|k: Seq<char>| #[trigger] map.spec_get(k) != initial.spec_get(k)
        ==> map.spec_get(k) is Some && validated_for(en, k, map.spec_get(k)->0)
}

/// The translation of `key` is current for the English text `english`: the
/// bot's translation of that text, or, when manual edits may not be
/// overwritten, a hand edit made since the bot translated that text.
pub open spec fn settled(
    lang: Seq<char>,
    key: Seq<char>,
    english: Seq<char>,
    out_map: JsonMap,
    state: TranslatorState,
    overwrite_manual: bool,
) -> bool {
    fresh_bot_translation(lang, key, english, out_map, state) || (!overwrite_manual && manual_override(
        lang,
        key,
        english,
        out_map,
        state,
    ))
}

/// No two entries share a key.
pub open spec fn keys_distinct(en: Seq<(String, String)>) -> bool {
    forall|i: int, j: int| 0 <= i < j < en.len() ==> #[trigger] en[i].0@ != #[trigger] en[j].0@
}

/// Each item of `items` has the key and text of an entry of `en`.
pub open spec fn drawn_from(en: Seq<(String, String)>, items: Seq<(String, String)>) -> bool {
    forall|i: int| 0 <= i < items.len() ==> exists|j: int| 0 <= j < en.len()
        && #[trigger] en[j].0@ == (#[trigger] items[i]).0@ && en[j].1@ == items[i].1@
}

/// A translation run of one language.
pub struct TranslateSession {
    lang: String,
    en: Vec<(String, String)>,
    glossary_version: String,
    batch_size: usize,
    max_retries: usize,
    overwrite_manual: bool,
    out_map: JsonMap,
    state: TranslatorState,
    outcome: TranslateOutcome,
    pending: Vec<(String, String)>,
    phase: Phase,
    initial: Ghost<JsonMap>,
}

impl TranslateSession {
    pub closed spec fn spec_lang(&self) -> Seq<char> {
        self.lang@
    }

    /// The English entries, in key order.
    pub closed spec fn spec_english(&self) -> Seq<(String, String)> {
        self.en@
    }

    pub closed spec fn spec_glossary_version(&self) -> Seq<char> {
        self.glossary_version@
    }

    pub closed spec fn spec_batch_size(&self) -> nat {
        self.batch_size as nat
    }

    pub closed spec fn spec_max_retries(&self) -> nat {
        self.max_retries as nat
    }

    pub closed spec fn spec_overwrite_manual(&self) -> bool {
        self.overwrite_manual
    }

    /// The translations so far.
    pub closed spec fn spec_out_map(&self) -> JsonMap {
        self.out_map
    }

    /// The translator state so far.
    pub closed spec fn spec_state(&self) -> TranslatorState {
        self.state
    }

    pub closed spec fn spec_outcome(&self) -> TranslateOutcome {
        self.outcome
    }

    /// Items waiting for the provider, in English key order.
    pub closed spec fn spec_pending(&self) -> Seq<(String, String)> {
        self.pending@
    }

    pub closed spec fn spec_phase(&self) -> Phase {
        self.phase
    }

    /// The translations the run started from.
    pub closed spec fn spec_initial_out_map(&self) -> JsonMap {
        self.initial@
    }

    /// The batch starting at `start`.
    pub open spec fn chunk(&self, start: int) -> Seq<(String, String)> {
        chunk_at(self.spec_pending(), start, self.spec_batch_size() as int)
    }

    /// The cache key of an English text in this run.
    pub open spec fn key_for(&self, english: Seq<char>) -> Seq<char> {
        cache_key_of(self.spec_lang(), english, self.spec_glossary_version(), RULES_VERSION@)
    }

    /// The invariant of a session, whatever its phase.
    pub closed spec fn base_wf(&self) -> bool {
        &&& self.out_map.wf()
        &&& self.state.wf()
        &&& self.batch_size > 0
        &&& self.pending@.len() <= self.en@.len()
        &&& self.outcome.translated <= self.pending@.len()
        &&& self.outcome.cache_hits + self.outcome.manual_preserved + self.pending@.len() <= self.en@.len()
        &&& drawn_from(self.en@, self.pending@)
        &&& keys_distinct(self.en@)
        &&& self.overwrite_manual ==> self.outcome.manual_preserved == 0
        &&& changes_validated(self.en@, self.initial@, self.out_map)
    }

    /// What holds of a session in phase `phase`.
    pub closed spec fn phase_ok(&self, phase: Phase) -> bool {
        match phase {
            Phase::Classify { next } => {
                &&& next <= self.en@.len()
                &&& self.outcome.cache_hits + self.outcome.manual_preserved + self.pending@.len() == next
                &&& self.outcome.translated == 0
                &&& forall|j: int| 0 <= j < next ==> self.covered(#[trigger] self.en@[j].0@, self.en@[j].1@, 0)
            },
            Phase::AwaitCache { index } => {
                &&& index < self.en@.len()
                &&& self.outcome.cache_hits + self.outcome.manual_preserved + self.pending@.len() == index
                &&& self.outcome.translated == 0
                &&& forall|j: int| 0 <= j < index ==> self.covered(#[trigger] self.en@[j].0@, self.en@[j].1@, 0)
            },
            Phase::AwaitReply { start, attempt, feedback } => {
                &&& start < self.pending@.len()
                &&& attempt <= self.max_retries
                &&& self.outcome.translated == start
                &&& self.outcome.cache_hits + self.outcome.manual_preserved + self.pending@.len() == self.en@.len()
                &&& forall|j: int| 0 <= j < self.en@.len() ==> self.covered(#[trigger] self.en@[j].0@, self.en@[j].1@, start as int)
            },
            Phase::AwaitStore { start, pos, reply } => {
                &&& start < self.pending@.len()
                &&& pos < self.chunk(start as int).len()
                &&& reply.wf()
                &&& batch_errors(self.chunk(start as int), reply).len() == 0
                &&& self.outcome.translated == start + pos + 1
                &&& self.outcome.cache_hits + self.outcome.manual_preserved + self.pending@.len() == self.en@.len()
                &&& forall|j: int| 0 <= j < self.en@.len() ==> self.covered(#[trigger] self.en@[j].0@, self.en@[j].1@, start + pos + 1)
            },
            Phase::Finished => {
                &&& self.outcome.translated == self.pending@.len()
                &&& self.outcome.cache_hits + self.outcome.manual_preserved + self.pending@.len() == self.en@.len()
                &&& forall|j: int| 0 <= j < self.en@.len() ==> settled(
                    self.lang@,
                    #[trigger] self.en@[j].0@,
                    self.en@[j].1@,
                    self.out_map,
                    self.state,
                    self.overwrite_manual,
                )
            },
            _ => true,
        }
    }

    /// The translation of `key` is current for `english`, or the key waits for
    /// one at pending position `from` or later.
    pub closed spec fn covered(&self, key: Seq<char>, english: Seq<char>, from: int) -> bool {
        settled(self.lang@, key, english, self.out_map, self.state, self.overwrite_manual)
            || exists|i: int| from <= i < self.pending@.len() && #[trigger] self.pending@[i].0@ == key
    }

    /// The invariant of a session.
    pub open spec fn wf(&self) -> bool {
        self.base_wf() && self.phase_ok(self.spec_phase())
    }

    /// A run over the entries of `en_map`, updating `out_map` and `state`.
    pub fn new(
        lang: &str,
        en_map: &JsonMap,
        out_map: JsonMap,
        state: TranslatorState,
        glossary_version: &str,
        batch_size: usize,
        max_retries: usize,
        overwrite_manual: bool,
    ) -> (s: Self)
        requires
            en_map.wf(),
            out_map.wf(),
            state.wf(),
            batch_size > 0,
        ensures
            s.wf(),
            s.spec_lang() == lang@,
            s.spec_glossary_version() == glossary_version@,
            s.spec_batch_size() == batch_size,
            s.spec_max_retries() == max_retries,
            s.spec_overwrite_manual() == overwrite_manual,
            s.spec_out_map() == out_map,
            s.spec_initial_out_map() == out_map,
            s.spec_state() == state,
            s.spec_outcome() == (TranslateOutcome { translated: 0, cache_hits: 0, manual_preserved: 0 }),
            s.spec_pending().len() == 0,
            s.spec_phase() == (Phase::Classify { next: 0 }),
            s.spec_english().len() == en_map.pairs().len(),
            forall|i: int| 0 <= i < en_map.pairs().len() ==> (#[trigger] s.spec_english()[i]).0@ == en_map.pairs()[i].0
                && s.spec_english()[i].1 == en_map.pairs()[i].1,
    {
        let mut en: Vec<(String, String)> = Vec::new();
        let n = en_map.len();
        let mut i: usize = 0;
        while i < n
            invariant
                n == en_map.pairs().len(),
                i <= n,
                en@.len() == i,
                forall|j: int| 0 <= j < i ==> (#[trigger] en@[j]).0@ == en_map.pairs()[j].0 && en@[j].1
                    == en_map.pairs()[j].1,
            decreases n - i,
        {
            en.push((en_map.key_at(i).clone(), en_map.value_at(i).clone()));
            i = i + 1;
        }
        proof {
            assert forall|a: int, b: int| 0 <= a < b < en@.len() implies #[trigger] en@[a].0@ != #[trigger] en@[b].0@ by {
                if en@[a].0@ == en@[b].0@ {
                    crate::json_map::lemma_sorted_unique(en_map.pairs(), a, b);
                }
            }
        }
        let ghost start_map = out_map;
        TranslateSession {
            lang: lang.to_string(),
            en,
            glossary_version: glossary_version.to_string(),
            batch_size,
            max_retries,
            overwrite_manual,
            out_map,
            state,
            outcome: TranslateOutcome::default(),
            pending: Vec::new(),
            phase: Phase::Classify { next: 0 },
            initial: Ghost(start_map),
        }
    }
}


/// The outcome with one more translated key.
pub open spec fn plus_translated(o: TranslateOutcome) -> TranslateOutcome {
    TranslateOutcome { translated: (o.translated + 1) as usize, cache_hits: o.cache_hits, manual_preserved: o.manual_preserved }
}

/// The outcome with one more key kept or taken from the cache.
pub open spec fn plus_cache_hit(o: TranslateOutcome) -> TranslateOutcome {
    TranslateOutcome { translated: o.translated, cache_hits: (o.cache_hits + 1) as usize, manual_preserved: o.manual_preserved }
}

/// The outcome with one more key kept as edited by hand.
pub open spec fn plus_manual(o: TranslateOutcome) -> TranslateOutcome {
    TranslateOutcome { translated: o.translated, cache_hits: o.cache_hits, manual_preserved: (o.manual_preserved + 1) as usize }
}

/// A batch without complaints answers every one of its keys.
pub proof fn lemma_answered(items: Seq<(String, String)>, reply: JsonMap, i: int)
    requires
        crate::workflow::item_errors(items, reply).len() == 0,
        0 <= i < items.len(),
    ensures
        reply.spec_get(items[i].0@) is Some,
        check_translation(items[i].1@, reply.spec_get(items[i].0@)->0@) is None,
    decreases items.len(),
{
    if i < items.len() - 1 {
        assert(items.drop_last()[i] == items[i]);
        lemma_answered(items.drop_last(), reply, i);
    }
}

impl TranslateSession {
    /// Same language, entries and settings.
    pub open spec fn same_run(&self, before: Self) -> bool {
        &&& self.spec_lang() == before.spec_lang()
        &&& self.spec_english() == before.spec_english()
        &&& self.spec_glossary_version() == before.spec_glossary_version()
        &&& self.spec_batch_size() == before.spec_batch_size()
        &&& self.spec_max_retries() == before.spec_max_retries()
        &&& self.spec_overwrite_manual() == before.spec_overwrite_manual()
        &&& self.spec_initial_out_map() == before.spec_initial_out_map()
    }

    /// Translations, state, counters and pending items are those of `before`.
    pub open spec fn same_progress(&self, before: Self) -> bool {
        &&& self.spec_out_map() == before.spec_out_map()
        &&& self.spec_state() == before.spec_state()
        &&& self.spec_outcome() == before.spec_outcome()
        &&& self.spec_pending() == before.spec_pending()
    }

    /// `self` holds what `before` held, with `translation` recorded as the
    /// bot's translation of `english` under `key`.
    pub open spec fn recorded(&self, before: Self, key: Seq<char>, english: Seq<char>, translation: String) -> bool {
        &&& self.spec_out_map().spec_get(key) == Some(translation)
        &&& forall|k: Seq<char>| k != key ==> #[trigger] self.spec_out_map().spec_get(k) == before.spec_out_map().spec_get(k)
        &&& key_state_of(self.spec_state(), before.spec_lang(), key) matches Some(ks)
        &&& ks.last_english_hash@ == text_hash(english)
        &&& ks.last_bot_translation_hash@ == text_hash(translation@)
        &&& ks.engine@ == ENGINE_TAG@
        &&& forall|l: Seq<char>, k: Seq<char>|
            (l != before.spec_lang() || k != key) ==> #[trigger] key_state_of(self.spec_state(), l, k) == key_state_of(
                before.spec_state(),
                l,
                k,
            )
    }

    /// `a` asks the provider for the batch at `start`, with `feedback`.
    pub open spec fn asks_provider(&self, start: int, feedback: Option<String>, a: TranslateAction) -> bool {
        a matches TranslateAction::CallProvider { items, retry_feedback } && items@ == self.chunk(start)
            && retry_feedback == feedback
    }

    /// `a` asks to store the translation `reply` gives for `item`.
    pub open spec fn asks_store(&self, item: (String, String), reply: JsonMap, a: TranslateAction) -> bool {
        a matches TranslateAction::StoreCache { cache_key, translation } && cache_key@ == self.key_for(item.1@)
            && reply.spec_get(item.0@) == Some(translation)
    }

    /// In phase `Classify { next }`: decide English key `next`; with every
    /// key decided, finish or ask for the first batch.
    pub open spec fn classify_step(&self, after: Self, next: int, a: TranslateAction) -> bool {
        let en = self.spec_english();
        if next < en.len() {
            let key = en[next].0@;
            let english = en[next].1@;
            &&& after.spec_out_map() == self.spec_out_map()
            &&& after.spec_state() == self.spec_state()
            &&& after.spec_pending() == self.spec_pending()
            &&& match key_plan(self.spec_lang(), key, english, self.spec_out_map(), self.spec_state(), self.spec_overwrite_manual()) {
                KeyPlan::KeepManual => {
                    &&& a is Continue
                    &&& after.spec_phase() == (Phase::Classify { next: (next + 1) as usize })
                    &&& after.spec_outcome() == plus_manual(self.spec_outcome())
                },
                KeyPlan::KeepFresh => {
                    &&& a is Continue
                    &&& after.spec_phase() == (Phase::Classify { next: (next + 1) as usize })
                    &&& after.spec_outcome() == plus_cache_hit(self.spec_outcome())
                },
                KeyPlan::Lookup => {
                    &&& a matches TranslateAction::LookupCache { cache_key } && cache_key@ == self.key_for(english)
                    &&& after.spec_phase() == (Phase::AwaitCache { index: next as usize })
                    &&& after.spec_outcome() == self.spec_outcome()
                },
            }
        } else if self.spec_pending().len() == 0 {
            &&& after.same_progress(*self)
            &&& after.spec_phase() == Phase::Finished
            &&& a is Done
        } else {
            &&& after.same_progress(*self)
            &&& after.spec_phase() == (Phase::AwaitReply { start: 0, attempt: 0, feedback: None })
            &&& self.asks_provider(0, None, a)
        }
    }

    /// In phase `AwaitCache { index }`, given the cache entry: a cached
    /// translation that validates is taken; otherwise the key waits for the
    /// provider.
    pub open spec fn cache_step(&self, after: Self, index: int, cached: Option<String>, a: TranslateAction) -> bool {
        let item = self.spec_english()[index];
        &&& a is Continue
        &&& after.spec_phase() == (Phase::Classify { next: (index + 1) as usize })
        &&& if cached is Some && check_translation(item.1@, cached->0@) is None {
            &&& after.recorded(*self, item.0@, item.1@, cached->0)
            &&& after.spec_outcome() == plus_cache_hit(self.spec_outcome())
            &&& after.spec_pending() == self.spec_pending()
        } else {
            &&& after.spec_out_map() == self.spec_out_map()
            &&& after.spec_state() == self.spec_state()
            &&& after.spec_outcome() == self.spec_outcome()
            &&& after.spec_pending() == self.spec_pending().push(item)
        }
    }

    /// In phase `AwaitReply { start, attempt, .. }`, given a reply: a reply
    /// without complaints is accepted and its first item recorded; otherwise
    /// the batch is asked again with the complaints as feedback, or, after
    /// the last retry, the run fails.
    pub open spec fn reply_step(&self, after: Self, start: int, attempt: int, reply: JsonMap, a: TranslateAction) -> bool {
        let chunk = self.chunk(start);
        let complaints = join_with(batch_errors(chunk, reply), "; "@);
        if batch_errors(chunk, reply).len() == 0 {
            let item = chunk[0];
            &&& after.recorded(*self, item.0@, item.1@, reply.spec_get(item.0@)->0)
            &&& after.spec_outcome() == plus_translated(self.spec_outcome())
            &&& after.spec_pending() == self.spec_pending()
            &&& after.spec_phase() == (Phase::AwaitStore { start: start as usize, pos: 0, reply })
            &&& self.asks_store(item, reply, a)
        } else if attempt == self.spec_max_retries() {
            let message = exhausted_text(self.spec_lang(), self.spec_max_retries(), complaints);
            &&& after.same_progress(*self)
            &&& after.spec_phase() matches Phase::Failed { message: m } && m@ == message
            &&& a matches TranslateAction::Fail(m) && m@ == message
        } else {
            &&& after.same_progress(*self)
            &&& after.spec_phase() matches Phase::AwaitReply { start: s2, attempt: a2, feedback: Some(f) }
                && s2 == start && a2 == attempt + 1 && f@ == retry_feedback_text(complaints)
            &&& a matches TranslateAction::CallProvider { items, retry_feedback: Some(f) } && items@ == chunk
                && f@ == retry_feedback_text(complaints)
        }
    }

    /// In phase `AwaitStore { start, pos, reply }`, once the entry is stored:
    /// record the next item of the batch, or ask for the next batch, or
    /// finish.
    pub open spec fn store_step(&self, after: Self, start: int, pos: int, reply: JsonMap, a: TranslateAction) -> bool {
        let chunk = self.chunk(start);
        if pos + 1 < chunk.len() {
            let item = chunk[pos + 1];
            &&& after.recorded(*self, item.0@, item.1@, reply.spec_get(item.0@)->0)
            &&& after.spec_outcome() == plus_translated(self.spec_outcome())
            &&& after.spec_pending() == self.spec_pending()
            &&& after.spec_phase() == (Phase::AwaitStore { start: start as usize, pos: (pos + 1) as usize, reply })
            &&& self.asks_store(item, reply, a)
        } else if start + chunk.len() < self.spec_pending().len() {
            &&& after.same_progress(*self)
            &&& after.spec_phase() == (Phase::AwaitReply { start: (start + chunk.len()) as usize, attempt: 0, feedback: None })
            &&& self.asks_provider(start + chunk.len(), None, a)
        } else {
            &&& after.same_progress(*self)
            &&& after.spec_phase() == Phase::Finished
            &&& a is Done
        }
    }

    fn chunk_end(&self, start: usize) -> (end: usize)
        requires
            self.base_wf(),
            start <= self.pending@.len(),
        ensures
            end == start + self.chunk(start as int).len(),
            end <= self.pending@.len(),
    {
        if self.pending.len() - start > self.batch_size {
            start + self.batch_size
        } else {
            self.pending.len()
        }
    }

    fn chunk_items(&self, start: usize) -> (items: Vec<(String, String)>)
        requires
            self.base_wf(),
            start <= self.pending@.len(),
        ensures
            items@ == self.chunk(start as int),
    {
        let end = self.chunk_end(start);
        let mut items: Vec<(String, String)> = Vec::new();
        let mut i = start;
        while i < end
            invariant
                start <= i <= end <= self.pending@.len(),
                items@ == self.pending@.subrange(start as int, i as int),
            decreases end - i,
        {
            let item = (self.pending[i].0.clone(), self.pending[i].1.clone());
            items.push(item);
            assert(items@ =~= self.pending@.subrange(start as int, i + 1));
            i = i + 1;
        }
        items
    }

    fn cache_key_for(&self, english: &str) -> (k: String)
        ensures
            k@ == self.key_for(english@),
    {
        CacheStore::cache_key(self.lang.as_str(), english, self.glossary_version.as_str(), RULES_VERSION)
    }

    /// Records `translation` as the bot's translation of `english` under `key`.
    fn record(&mut self, key: &String, english: &String, translation: String)
        requires
            old(self).base_wf(),
            exists|j: int| 0 <= j < old(self).en@.len() && #[trigger] old(self).en@[j].0@ == key@ && old(self).en@[j].1@ == english@,
            check_translation(english@, translation@) is None,
        ensures
            final(self).base_wf(),
            final(self).recorded(*old(self), key@, english@, translation),
            final(self).out_map.wf(),
            final(self).state.wf(),
            final(self).same_run(*old(self)),
            final(self).outcome == old(self).outcome,
            final(self).pending == old(self).pending,
            final(self).phase == old(self).phase,
    {
        let ghost before = *self;
        let ghost value = translation;
        let en_hash = hash_text(english.as_str());
        let tr_hash = hash_text(translation.as_str());
        self.out_map.insert(key.clone(), translation);
        self.state.set_key_state(self.lang.as_str(), key.as_str(), en_hash, tr_hash, ENGINE_TAG);
        proof {
            let j = choose|j: int| 0 <= j < before.en@.len() && #[trigger] before.en@[j].0@ == key@ && before.en@[j].1@ == english@;
            assert(self.en@[j].0@ == key@);
            assert forall|k: Seq<char>| !english_key(self.en@, k) implies #[trigger] self.out_map.spec_get(k)
                == self.initial@.spec_get(k) by {
                assert(k != key@);
            }
            assert forall|k: Seq<char>| #[trigger] self.out_map.spec_get(k) != self.initial@.spec_get(k)
                implies self.out_map.spec_get(k) is Some && validated_for(self.en@, k, self.out_map.spec_get(k)->0) by {
                if k == key@ {
                    assert(self.out_map.spec_get(k) == Some(value));
                } else {
                    assert(before.out_map.spec_get(k) == self.out_map.spec_get(k));
                }
            }
        }
    }

    /// Records the translation `reply` gives for item `pos` of the batch at
    /// `start`, and asks for it to be stored.
    fn record_from_reply(&mut self, start: usize, pos: usize, reply: JsonMap) -> (a: TranslateAction)
        requires
            old(self).base_wf(),
            start < old(self).pending@.len(),
            pos < old(self).chunk(start as int).len(),
            old(self).outcome.translated == start + pos,
            old(self).outcome.cache_hits + old(self).outcome.manual_preserved + old(self).pending@.len() == old(self).en@.len(),
            forall|j: int| 0 <= j < old(self).en@.len() ==> old(self).covered(#[trigger] old(self).en@[j].0@, old(self).en@[j].1@, start + pos),
            reply.wf(),
            batch_errors(old(self).chunk(start as int), reply).len() == 0,
        ensures
            final(self).wf(),
            final(self).same_run(*old(self)),
            final(self).recorded(*old(self), old(self).chunk(start as int)[pos as int].0@, old(self).chunk(start as int)[pos as int].1@,
                reply.spec_get(old(self).chunk(start as int)[pos as int].0@)->0),
            final(self).spec_outcome() == plus_translated(old(self).spec_outcome()),
            final(self).spec_pending() == old(self).spec_pending(),
            final(self).spec_phase() == (Phase::AwaitStore { start, pos, reply }),
            old(self).asks_store(old(self).chunk(start as int)[pos as int], reply, a),
    {
        let ghost chunk = self.chunk(start as int);
        let end = self.chunk_end(start);
        let idx = start + pos;
        assert(chunk[pos as int] == self.pending@[idx as int]);
        proof {
            lemma_answered(chunk, reply, pos as int);
        }
        let key = self.pending[idx].0.clone();
        let english = self.pending[idx].1.clone();
        let translation = match reply.get(key.as_str()) {
            Some(t) => t.clone(),
            None => {
                proof {
                    assert(false);
                }
                String::new()
            },
        };
        let cache_key = self.cache_key_for(english.as_str());
        let ghost before = *self;
        self.record(&key, &english, translation.clone());
        self.outcome.translated = self.outcome.translated + 1;
        self.phase = Phase::AwaitStore { start, pos, reply };
        proof {
            assert forall|j: int| 0 <= j < self.en@.len() implies self.covered(#[trigger] self.en@[j].0@, self.en@[j].1@, start + pos + 1) by {
                let k = self.en@[j].0@;
                let e = self.en@[j].1@;
                assert(before.covered(k, e, start + pos));
                if k == key@ {
                    let jj = choose|jj: int| 0 <= jj < before.en@.len() && #[trigger] before.en@[jj].0@ == (
                    #[trigger] before.pending@[idx as int]).0@ && before.en@[jj].1@ == before.pending@[idx as int].1@;
                    assert(jj == j);
                } else {
                    assert(self.out_map.spec_get(k) == before.out_map.spec_get(k));
                    assert(key_state_of(self.state, self.lang@, k) == key_state_of(before.state, before.lang@, k));
                    if !settled(before.lang@, k, e, before.out_map, before.state, before.overwrite_manual) {
                        let i = choose|i: int| start + pos <= i < before.pending@.len() && #[trigger] before.pending@[i].0@ == k;
                        assert(i != start + pos);
                        assert(self.pending@[i].0@ == k);
                    }
                }
            }
        }
        TranslateAction::StoreCache { cache_key, translation }
    }

    /// Advances the run by one event and says what the driver must do next.
    /// While keys are being decided every event means "go on"; in a phase
    /// that waits for a cache entry, a reply or a store, any other event (or
    /// a reply map whose keys are not in order) changes nothing, and the
    /// outstanding request is repeated.
    pub fn advance(&mut self, event: TranslateEvent) -> (a: TranslateAction)
        requires
            old(self).wf(),
        ensures
            final(self).wf(),
            final(self).same_run(*old(self)),
            match old(self).spec_phase() {
                Phase::Classify { next } => old(self).classify_step(*final(self), next as int, a),
                Phase::AwaitCache { index } => match event {
                    TranslateEvent::CacheEntry(cached) => old(self).cache_step(*final(self), index as int, cached, a),
                    _ => *final(self) == *old(self) && (a matches TranslateAction::LookupCache { cache_key }
                        && cache_key@ == old(self).key_for(old(self).spec_english()[index as int].1@)),
                },
                Phase::AwaitReply { start, attempt, feedback } => match event {
                    TranslateEvent::ProviderReply(reply) => if reply.wf() {
                        old(self).reply_step(*final(self), start as int, attempt as int, reply, a)
                    } else {
                        *final(self) == *old(self) && old(self).asks_provider(start as int, feedback, a)
                    },
                    _ => *final(self) == *old(self) && old(self).asks_provider(start as int, feedback, a),
                },
                Phase::AwaitStore { start, pos, reply } => match event {
                    TranslateEvent::CacheStored => old(self).store_step(*final(self), start as int, pos as int, reply, a),
                    _ => *final(self) == *old(self) && old(self).asks_store(old(self).chunk(start as int)[pos as int], reply, a),
                },
                Phase::Finished => *final(self) == *old(self) && a is Done,
                Phase::Failed { message } => *final(self) == *old(self) && (a matches TranslateAction::Fail(m) && m == message),
            },
    {
        let mut phase = Phase::Finished;
        std::mem::swap(&mut phase, &mut self.phase);
        match phase {
            Phase::Classify { next } => self.classify(next),
            Phase::AwaitCache { index } => match event {
                TranslateEvent::CacheEntry(cached) => self.take_cached(index, cached),
                _ => {
                    self.phase = Phase::AwaitCache { index };
                    let cache_key = self.cache_key_for(self.en[index].1.as_str());
                    TranslateAction::LookupCache { cache_key }
                },
            },
            Phase::AwaitReply { start, attempt, feedback } => {
                match event {
                    TranslateEvent::ProviderReply(reply) => {
                        if reply.is_well_formed() {
                            return self.take_reply(start, attempt, feedback, reply);
                        }
                    },
                    _ => {},
                }
                let items = self.chunk_items(start);
                let retry_feedback = match &feedback {
                    Some(f) => Some(f.clone()),
                    None => None,
                };
                self.phase = Phase::AwaitReply { start, attempt, feedback };
                TranslateAction::CallProvider { items, retry_feedback }
            },
            Phase::AwaitStore { start, pos, reply } => match event {
                TranslateEvent::CacheStored => self.after_store(start, pos, reply),
                _ => {
                    let idx = start + pos;
                    let ghost chunk = self.chunk(start as int);
                    assert(chunk[pos as int] == self.pending@[idx as int]);
                    proof {
                        lemma_answered(chunk, reply, pos as int);
                    }
                    let translation = match reply.get(self.pending[idx].0.as_str()) {
                        Some(t) => t.clone(),
                        None => {
                            proof {
                                assert(false);
                            }
                            String::new()
                        },
                    };
                    let cache_key = self.cache_key_for(self.pending[idx].1.as_str());
                    self.phase = Phase::AwaitStore { start, pos, reply };
                    TranslateAction::StoreCache { cache_key, translation }
                },
            },
            Phase::Finished => {
                self.phase = Phase::Finished;
                TranslateAction::Done
            },
            Phase::Failed { message } => {
                let m = message.clone();
                self.phase = Phase::Failed { message };
                TranslateAction::Fail(m)
            },
        }
    }

    fn classify(&mut self, next: usize) -> (a: TranslateAction)
        requires
            old(self).base_wf(),
            old(self).phase_ok(Phase::Classify { next }),
        ensures
            final(self).wf(),
            final(self).same_run(*old(self)),
            old(self).classify_step(*final(self), next as int, a),
    {
        if next < self.en.len() {
            let plan = plan_key(
                self.lang.as_str(),
                self.en[next].0.as_str(),
                self.en[next].1.as_str(),
                &self.out_map,
                &self.state,
                self.overwrite_manual,
            );
            match plan {
                KeyPlan::KeepManual => {
                    self.outcome.manual_preserved = self.outcome.manual_preserved + 1;
                    self.phase = Phase::Classify { next: next + 1 };
                    TranslateAction::Continue
                },
                KeyPlan::KeepFresh => {
                    self.outcome.cache_hits = self.outcome.cache_hits + 1;
                    self.phase = Phase::Classify { next: next + 1 };
                    TranslateAction::Continue
                },
                KeyPlan::Lookup => {
                    let cache_key = self.cache_key_for(self.en[next].1.as_str());
                    self.phase = Phase::AwaitCache { index: next };
                    TranslateAction::LookupCache { cache_key }
                },
            }
        } else if self.pending.len() == 0 {
            self.phase = Phase::Finished;
            TranslateAction::Done
        } else {
            let items = self.chunk_items(0);
            self.phase = Phase::AwaitReply { start: 0, attempt: 0, feedback: None };
            TranslateAction::CallProvider { items, retry_feedback: None }
        }
    }

    fn take_cached(&mut self, index: usize, cached: Option<String>) -> (a: TranslateAction)
        requires
            old(self).base_wf(),
            old(self).phase_ok(Phase::AwaitCache { index }),
        ensures
            final(self).wf(),
            final(self).same_run(*old(self)),
            old(self).cache_step(*final(self), index as int, cached, a),
    {
        let ghost item = self.en@[index as int];
        let total = self.en.len();
        assert(index + 1 <= total);
        let usable = match &cached {
            Some(c) => validate_translation(self.en[index].1.as_str(), c.as_str()).is_ok(),
            None => false,
        };
        let ghost before = *self;
        if usable {
            let translation = match cached {
                Some(c) => c,
                None => String::new(),
            };
            let key = self.en[index].0.clone();
            let english = self.en[index].1.clone();
            assert(self.en@[index as int].0@ == key@ && self.en@[index as int].1@ == english@);
            self.record(&key, &english, translation);
            self.outcome.cache_hits = self.outcome.cache_hits + 1;
        } else {
            let item = (self.en[index].0.clone(), self.en[index].1.clone());
            self.pending.push(item);
            proof {
                assert forall|i: int| 0 <= i < self.pending@.len() implies exists|j: int| 0 <= j < self.en@.len()
                    && #[trigger] self.en@[j].0@ == (#[trigger] self.pending@[i]).0@ && self.en@[j].1@ == self.pending@[i].1@ by {
                    if i < before.pending@.len() {
                        assert(self.pending@[i] == before.pending@[i]);
                    } else {
                        assert(self.en@[index as int].0@ == self.pending@[i].0@);
                    }
                }
            }
        }
        self.phase = Phase::Classify { next: index + 1 };
        proof {
            assert forall|j: int| 0 <= j < index + 1 implies self.covered(#[trigger] self.en@[j].0@, self.en@[j].1@, 0) by {
                let k = self.en@[j].0@;
                let e = self.en@[j].1@;
                if j == index {
                    if !usable {
                        assert(self.pending@[before.pending@.len() as int].0@ == k);
                    }
                } else {
                    assert(before.covered(k, e, 0));
                    assert(k != item.0@);
                    if usable {
                        assert(self.out_map.spec_get(k) == before.out_map.spec_get(k));
                        assert(key_state_of(self.state, self.lang@, k) == key_state_of(before.state, before.lang@, k));
                    }
                    if !settled(before.lang@, k, e, before.out_map, before.state, before.overwrite_manual) {
                        let i = choose|i: int| 0 <= i < before.pending@.len() && #[trigger] before.pending@[i].0@ == k;
                        assert(self.pending@[i].0@ == k);
                    }
                }
            }
        }
        TranslateAction::Continue
    }

    fn take_reply(&mut self, start: usize, attempt: usize, feedback: Option<String>, reply: JsonMap) -> (a: TranslateAction)
        requires
            old(self).base_wf(),
            old(self).phase_ok(Phase::AwaitReply { start, attempt, feedback }),
            reply.wf(),
        ensures
            final(self).wf(),
            final(self).same_run(*old(self)),
            old(self).reply_step(*final(self), start as int, attempt as int, reply, a),
    {
        let items = self.chunk_items(start);
        match validate_batch(items.as_slice(), &reply) {
            Ok(()) => self.record_from_reply(start, 0, reply),
            Err(message) => {
                if attempt == self.max_retries {
                    let mut m = "translation validation failed for language `".to_string();
                    push_str(&mut m, self.lang.as_str());
                    push_str(&mut m, "` after ");
                    push_decimal_succ(&mut m, self.max_retries);
                    push_str(&mut m, " attempts: ");
                    push_str(&mut m, message.as_str());
                    let shown = m.clone();
                    self.phase = Phase::Failed { message: m };
                    TranslateAction::Fail(shown)
                } else {
                    let mut f = "You broke placeholders/backticks/newlines. Fix and return valid JSON only.\n".to_string();
                    push_str(&mut f, message.as_str());
                    let sent = f.clone();
                    self.phase = Phase::AwaitReply { start, attempt: attempt + 1, feedback: Some(f) };
                    TranslateAction::CallProvider { items, retry_feedback: Some(sent) }
                }
            },
        }
    }

    fn after_store(&mut self, start: usize, pos: usize, reply: JsonMap) -> (a: TranslateAction)
        requires
            old(self).base_wf(),
            old(self).phase_ok(Phase::AwaitStore { start, pos, reply }),
        ensures
            final(self).wf(),
            final(self).same_run(*old(self)),
            old(self).store_step(*final(self), start as int, pos as int, reply, a),
    {
        let end = self.chunk_end(start);
        if start + pos + 1 < end {
            self.record_from_reply(start, pos + 1, reply)
        } else if end < self.pending.len() {
            let items = self.chunk_items(end);
            self.phase = Phase::AwaitReply { start: end, attempt: 0, feedback: None };
            TranslateAction::CallProvider { items, retry_feedback: None }
        } else {
            self.phase = Phase::Finished;
            TranslateAction::Done
        }
    }

    /// The phase the run is in.
    pub fn phase(&self) -> (p: &Phase)
        ensures
            *p == self.spec_phase(),
    {
        &self.phase
    }

    /// The counters so far.
    pub fn outcome(&self) -> (o: TranslateOutcome)
        ensures
            o == self.spec_outcome(),
    {
        self.outcome
    }

    /// The translations, the state and the counters, ending the session.
    /// Whatever the phase, keys outside the English entries keep the
    /// translation the run started with, and every translation the run
    /// changed passed validation against its English text; when manual edits
    /// may be overwritten, none was kept. A finished run has a translation
    /// for every English key, current for its English text (the bot's
    /// translation of that text, with both hashes recorded in the state, or a
    /// kept hand edit), and counted every key once: kept, taken from the
    /// cache, or translated.
    pub fn finish(self) -> (r: (JsonMap, TranslatorState, TranslateOutcome))
        ensures
            r.0 == self.spec_out_map(),
            r.1 == self.spec_state(),
            r.2 == self.spec_outcome(),
            self.wf() ==> changes_validated(self.spec_english(), self.spec_initial_out_map(), r.0),
            self.wf() && self.spec_overwrite_manual() ==> r.2.manual_preserved == 0,
            self.wf() && self.spec_phase() is Finished ==> {
                &&& forall|j: int| 0 <= j < self.spec_english().len() ==> r.0.spec_contains(#[trigger] self.spec_english()[j].0@)
                &&& forall|j: int| 0 <= j < self.spec_english().len() ==> settled(
                    self.spec_lang(),
                    #[trigger] self.spec_english()[j].0@,
                    self.spec_english()[j].1@,
                    r.0,
                    r.1,
                    self.spec_overwrite_manual(),
                )
                &&& r.2.translated + r.2.cache_hits + r.2.manual_preserved == self.spec_english().len()
            },
    {
        (self.out_map, self.state, self.outcome)
    }
}

} // verus!
