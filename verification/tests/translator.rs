use std::collections::HashMap;
use std::path::Path;

use greentic_i18n::help::{help_for_args, help_lines};
use greentic_i18n::json_map::JsonMap;
use greentic_i18n::paths::{default_i18n_dir, en_json, lang_json};
use greentic_i18n::session::{TranslateAction, TranslateEvent, TranslateOutcome, TranslateSession};
use greentic_i18n::state::{epoch_secs_or_zero, hash_text, now_epoch_secs, TranslatorState};
use greentic_i18n::store::CacheStore;
use greentic_i18n::validate::{ValidationError, ValidationIssue};
use greentic_i18n::workflow::{
    backfill_state_from_existing_translation, backfill_state_from_existing_translation_at, glossary_version, has_fresh_bot_translation,
    has_manual_override, help_target_from_args, lang_path_for, parse_lang_list, requested_locale_from_args,
    requests_all_langs, select_stem_langs, status_for_lang, validate_batch, HelpTarget, RULES_VERSION,
};

#[test]
fn status_reports_missing_and_stale_keys() {
    let mut en = JsonMap::new();
    en.insert("k1".to_string(), "Hello".to_string());
    en.insert("k2".to_string(), "Bye".to_string());

    let mut tr = JsonMap::new();
    tr.insert("k1".to_string(), "Bonjour".to_string());

    let mut state = TranslatorState::default();
    state.set_key_state("fr", "k1", hash_text("Old English"), hash_text("Bonjour"), "codex-cli");

    let outcome = status_for_lang("fr", &en, &tr, &state);
    assert_eq!(outcome.missing_keys, vec!["k2".to_string()]);
    assert_eq!(outcome.stale_keys, vec!["k1".to_string()]);
}

#[test]
fn status_reports_ok_when_hashes_match_and_keys_exist() {
    let mut en = JsonMap::new();
    en.insert("k1".to_string(), "Hello".to_string());

    let mut tr = JsonMap::new();
    tr.insert("k1".to_string(), "Bonjour".to_string());

    let mut state = TranslatorState::default();
    state.set_key_state("fr", "k1", hash_text("Hello"), hash_text("Bonjour"), "codex-cli");

    let outcome = status_for_lang("fr", &en, &tr, &state);
    assert!(outcome.missing_keys.is_empty());
    assert!(outcome.stale_keys.is_empty());
}

#[test]
fn backfill_state_marks_existing_translation_as_up_to_date() {
    let mut en = JsonMap::new();
    en.insert("k1".to_string(), "Hello".to_string());

    let mut tr = JsonMap::new();
    tr.insert("k1".to_string(), "Bonjour".to_string());

    let mut state = TranslatorState::default();
    let added = backfill_state_from_existing_translation(&mut state, "fr", &en, &tr);

    assert_eq!(added, 1);
    let outcome = status_for_lang("fr", &en, &tr, &state);
    assert!(outcome.missing_keys.is_empty());
    assert!(outcome.stale_keys.is_empty());
}

#[test]
fn backfill_state_does_not_overwrite_existing_state_entry() {
    let mut en = JsonMap::new();
    en.insert("k1".to_string(), "Hello".to_string());

    let mut tr = JsonMap::new();
    tr.insert("k1".to_string(), "Bonjour manuel".to_string());

    let mut state = TranslatorState::default();
    state.set_key_state("fr", "k1", hash_text("Hello"), hash_text("Bonjour bot"), "codex-cli");

    let added = backfill_state_from_existing_translation(&mut state, "fr", &en, &tr);

    assert_eq!(added, 0);
    let key_state = state.key_state("fr", "k1").expect("key state should exist");
    assert_eq!(key_state.last_bot_translation_hash, hash_text("Bonjour bot"));
}

#[test]
fn requested_locale_from_args_supports_both_forms() {
    assert_eq!(
        requested_locale_from_args(&["bin".to_string(), "--locale".to_string(), "nl".to_string()]),
        Some("nl".to_string())
    );
    assert_eq!(
        requested_locale_from_args(&["bin".to_string(), "--locale=fi".to_string()]),
        Some("fi".to_string())
    );
}

#[test]
fn help_target_skips_locale_flags_and_finds_command() {
    assert!(matches!(
        help_target_from_args(&[
            "bin".to_string(),
            "--locale".to_string(),
            "nl".to_string(),
            "status".to_string(),
            "--help".to_string(),
        ]),
        HelpTarget::Status
    ));
    assert!(matches!(
        help_target_from_args(&["bin".to_string(), "translate".to_string()]),
        HelpTarget::Translate
    ));
}

#[test]
fn lang_path_for_uses_sibling_json_file() {
    assert_eq!(
        lang_path_for(Path::new("en.json"), "fr").expect("sibling path should resolve"),
        Path::new("fr.json")
    );
}

#[test]
fn manual_and_fresh_helpers_detect_state_correctly() {
    let mut out = JsonMap::new();
    out.insert("hello".to_string(), "Bonjour manuel".to_string());

    let mut state = TranslatorState::default();
    state.set_key_state("fr", "hello", hash_text("Hello"), hash_text("Bonjour bot"), "codex-cli");

    assert!(has_manual_override("fr", "hello", "Hello", &out, &state));
    assert!(!has_fresh_bot_translation("fr", "hello", "Hello", &out, &state));

    out.insert("hello".to_string(), "Bonjour bot".to_string());
    assert!(has_fresh_bot_translation("fr", "hello", "Hello", &out, &state));
}

#[test]
fn validate_batch_reports_missing_and_unexpected_keys() {
    let items = vec![("hello".to_string(), "Hello {}".to_string())];
    let mut translated = JsonMap::new();
    translated.insert("extra".to_string(), "oops".to_string());
    let err = validate_batch(&items, &translated).expect_err("invalid batch should fail");
    assert!(err.contains("missing key `hello`"));
    assert!(err.contains("unexpected key `extra`"));
}

#[test]
fn glossary_version_changes_when_glossary_changes() {
    let mut glossary = JsonMap::new();
    glossary.insert("CLI".to_string(), "CLI".to_string());
    let first = glossary_version(Some(&glossary)).expect("version should hash");
    glossary.insert("Pack".to_string(), "Pack".to_string());
    let second = glossary_version(Some(&glossary)).expect("version should hash");
    assert_ne!(first, second);
}

#[test]
fn validate_batch_surfaces_validation_message() {
    let items = vec![("hello".to_string(), "Hello".to_string())];
    let mut translated = JsonMap::new();
    translated.insert("hello".to_string(), "".to_string());
    let err = validate_batch(&items, &translated).expect_err("empty translation should fail");
    assert!(err.contains(&ValidationError::EmptyTranslationNotAllowed.message()));
    assert_eq!(
        validate_batch(&items, &translated),
        Err(format!(
            "key `hello`: {}",
            ValidationError::EmptyTranslationNotAllowed.message()
        ))
    );
    let _issue = ValidationIssue {
        key: "hello".to_string(),
        error: ValidationError::EmptyTranslationNotAllowed,
    };
}

#[test]
fn path_helpers_use_repo_root_i18n_directory() {
    let root = Path::new("/repo");
    assert_eq!(default_i18n_dir(root), Path::new("/repo/i18n"));
    assert_eq!(en_json(root), Path::new("/repo/i18n/en.json"));
    assert_eq!(lang_json(root, "fr"), Path::new("/repo/i18n/fr.json"));
}

#[test]
fn default_path_points_to_repo_i18n_state_file() {
    assert_eq!(
        TranslatorState::default_path(Path::new("/repo")),
        Path::new("/repo/.i18n/translator-state.json")
    );
}

#[test]
fn backfill_only_adds_keys_that_exist_in_translation_map() {
    let mut state = TranslatorState::default();
    let mut en_map = JsonMap::new();
    en_map.insert("hello".to_string(), "Hello".to_string());
    en_map.insert("bye".to_string(), "Bye".to_string());
    let mut tr_map = JsonMap::new();
    tr_map.insert("hello".to_string(), "Bonjour".to_string());

    let added = state.backfill_missing_keys_from_maps("fr", &en_map, &tr_map, "codex-cli");
    assert_eq!(added, 1);
    assert!(state.key_state("fr", "hello").is_some());
    assert!(state.key_state("fr", "bye").is_none());
}

#[test]
fn cache_key_is_deterministic_and_input_sensitive() {
    let base = CacheStore::cache_key("fr", "Hello", "g1", "r1");
    assert_eq!(base, CacheStore::cache_key("fr", "Hello", "g1", "r1"));

    assert_ne!(base, CacheStore::cache_key("es", "Hello", "g1", "r1"));
    assert_ne!(base, CacheStore::cache_key("fr", "Goodbye", "g1", "r1"));
    assert_ne!(base, CacheStore::cache_key("fr", "Hello", "g2", "r1"));
    assert_ne!(base, CacheStore::cache_key("fr", "Hello", "g1", "r2"));
}

// ---------------------------------------------------------------------------
// A translation run, driven against an in-memory cache and a scripted provider
// ---------------------------------------------------------------------------

struct Run {
    out: JsonMap,
    state: TranslatorState,
    outcome: TranslateOutcome,
    provider_calls: usize,
    stored: Vec<(String, String)>,
}

fn drive(
    en: &JsonMap,
    out: JsonMap,
    state: TranslatorState,
    cache: &HashMap<String, String>,
    batch_size: usize,
    max_retries: usize,
    overwrite_manual: bool,
    mut provider: impl FnMut(usize, &[(String, String)], Option<&str>) -> JsonMap,
) -> Result<Run, String> {
    let gv = glossary_version(None).expect("glossary version");
    let mut session = TranslateSession::new("fr", en, out, state, &gv, batch_size, max_retries, overwrite_manual);
    let mut provider_calls = 0usize;
    let mut stored = Vec::new();
    let mut event = TranslateEvent::Proceed;
    loop {
        match session.advance(event) {
            TranslateAction::Continue => event = TranslateEvent::Proceed,
            TranslateAction::LookupCache { cache_key } => {
                event = TranslateEvent::CacheEntry(cache.get(&cache_key).cloned());
            }
            TranslateAction::CallProvider { items, retry_feedback } => {
                provider_calls += 1;
                event = TranslateEvent::ProviderReply(provider(provider_calls, &items, retry_feedback.as_deref()));
            }
            TranslateAction::StoreCache { cache_key, translation } => {
                stored.push((cache_key, translation));
                event = TranslateEvent::CacheStored;
            }
            TranslateAction::Done => break,
            TranslateAction::Fail(message) => return Err(message),
        }
    }
    let (out, state, outcome) = session.finish();
    Ok(Run { out, state, outcome, provider_calls, stored })
}

fn echo_provider(_call: usize, items: &[(String, String)], _feedback: Option<&str>) -> JsonMap {
    let mut out = JsonMap::new();
    for (key, _) in items {
        out.insert(key.clone(), format!("translated:{key}"));
    }
    out
}

#[test]
fn cache_hit_skips_provider_call() {
    let mut en = JsonMap::new();
    en.insert("hello".to_string(), "Hello {}".to_string());
    let gv = glossary_version(None).expect("glossary version");
    let mut cache = HashMap::new();
    cache.insert(
        CacheStore::cache_key("fr", "Hello {}", &gv, "v1-placeholder-backtick-newline-exact"),
        "Bonjour {}".to_string(),
    );
    let run = drive(&en, JsonMap::new(), TranslatorState::default(), &cache, 10, 2, false, echo_provider)
        .expect("translate should succeed");
    assert_eq!(run.provider_calls, 0);
    assert_eq!(run.outcome.cache_hits, 1);
    assert_eq!(run.outcome.translated, 0);
    assert_eq!(run.out.get("hello"), Some(&"Bonjour {}".to_string()));
    assert_eq!(RULES_VERSION, "v1-placeholder-backtick-newline-exact");
}

#[test]
fn manual_override_is_preserved_when_english_unchanged() {
    let mut en = JsonMap::new();
    en.insert("k".to_string(), "Hello".to_string());
    let mut out = JsonMap::new();
    out.insert("k".to_string(), "Bonjour manuel".to_string());
    let mut state = TranslatorState::default();
    state.set_key_state("fr", "k", hash_text("Hello"), hash_text("Bonjour bot"), "codex-cli");

    let run = drive(&en, out, state, &HashMap::new(), 10, 2, false, echo_provider)
        .expect("translate should succeed");
    assert_eq!(run.provider_calls, 0);
    assert_eq!(run.outcome.manual_preserved, 1);
    assert_eq!(run.out.get("k"), Some(&"Bonjour manuel".to_string()));
}

#[test]
fn fresh_state_skips_provider_call_without_cache() {
    let mut en = JsonMap::new();
    en.insert("k".to_string(), "Hello".to_string());
    let mut out = JsonMap::new();
    out.insert("k".to_string(), "Bonjour".to_string());
    let mut state = TranslatorState::default();
    state.set_key_state("fr", "k", hash_text("Hello"), hash_text("Bonjour"), "codex-cli");

    let run = drive(&en, out, state, &HashMap::new(), 10, 2, false, echo_provider)
        .expect("translate should succeed");
    assert_eq!(run.provider_calls, 0);
    assert_eq!(run.outcome.translated, 0);
    assert_eq!(run.out.get("k"), Some(&"Bonjour".to_string()));
}

#[test]
fn translate_retries_after_validation_failure() {
    let mut en = JsonMap::new();
    en.insert("hello".to_string(), "Hello {}".to_string());
    let flaky = |call: usize, items: &[(String, String)], _feedback: Option<&str>| {
        let mut out = JsonMap::new();
        for (key, _) in items {
            if call == 1 {
                out.insert(key.clone(), "broken".to_string());
            } else {
                out.insert(key.clone(), format!("translated:{key} {{}}"));
            }
        }
        out
    };
    let run = drive(&en, JsonMap::new(), TranslatorState::default(), &HashMap::new(), 10, 1, false, flaky)
        .expect("retry should eventually succeed");
    assert_eq!(run.provider_calls, 2);
    assert_eq!(run.outcome.translated, 1);
    assert_eq!(run.out.get("hello"), Some(&"translated:hello {}".to_string()));
    let key_state = run.state.key_state("fr", "hello").expect("state should be recorded");
    assert_eq!(key_state.last_english_hash, hash_text("Hello {}"));
    assert_eq!(key_state.last_bot_translation_hash, hash_text("translated:hello {}"));
    assert_eq!(key_state.engine, "codex-cli");
    assert_eq!(run.stored.len(), 1);
    assert_eq!(run.stored[0].1, "translated:hello {}");
}

#[test]
fn retries_send_feedback_and_give_up_after_the_last_attempt() {
    let mut en = JsonMap::new();
    en.insert("hello".to_string(), "Hello {}".to_string());
    let mut feedback_seen = Vec::new();
    let broken = |_call: usize, items: &[(String, String)], feedback: Option<&str>| {
        feedback_seen.push(feedback.map(|f| f.to_string()));
        let mut out = JsonMap::new();
        for (key, _) in items {
            out.insert(key.clone(), "broken".to_string());
        }
        out
    };
    let err = drive(&en, JsonMap::new(), TranslatorState::default(), &HashMap::new(), 10, 1, false, broken)
        .map(|_| ())
        .expect_err("a reply that never validates fails the run");
    assert_eq!(
        err,
        "translation validation failed for language `fr` after 2 attempts: key `hello`: placeholder count mismatch for `{}`: expected 1, found 0"
    );
    assert_eq!(feedback_seen.len(), 2);
    assert_eq!(feedback_seen[0], None);
    assert_eq!(
        feedback_seen[1].as_deref(),
        Some("You broke placeholders/backticks/newlines. Fix and return valid JSON only.\nkey `hello`: placeholder count mismatch for `{}`: expected 1, found 0")
    );
}

#[test]
fn batches_respect_the_batch_size() {
    let mut en = JsonMap::new();
    for key in ["a", "b", "c", "d", "e"] {
        en.insert(key.to_string(), format!("Text {key}"));
    }
    let mut sizes = Vec::new();
    let sized = |_call: usize, items: &[(String, String)], _feedback: Option<&str>| {
        sizes.push(items.len());
        echo_provider(0, items, None)
    };
    let run = drive(&en, JsonMap::new(), TranslatorState::default(), &HashMap::new(), 2, 0, false, sized)
        .expect("translate should succeed");
    assert_eq!(sizes, vec![2, 2, 1]);
    assert_eq!(run.outcome.translated, 5);
    assert_eq!(run.out.len(), 5);
    assert_eq!(run.out.get("e"), Some(&"translated:e".to_string()));
}

#[test]
fn overwrite_manual_sends_edited_keys_to_the_provider() {
    let mut en = JsonMap::new();
    en.insert("k".to_string(), "Hello".to_string());
    let mut out = JsonMap::new();
    out.insert("k".to_string(), "Bonjour manuel".to_string());
    let mut state = TranslatorState::default();
    state.set_key_state("fr", "k", hash_text("Hello"), hash_text("Bonjour bot"), "codex-cli");

    let run = drive(&en, out, state, &HashMap::new(), 10, 0, true, echo_provider)
        .expect("translate should succeed");
    assert_eq!(run.provider_calls, 1);
    assert_eq!(run.outcome.manual_preserved, 0);
    assert_eq!(run.out.get("k"), Some(&"translated:k".to_string()));
}

#[test]
fn invalid_cached_translation_is_not_used() {
    let mut en = JsonMap::new();
    en.insert("hello".to_string(), "Hello {}".to_string());
    let gv = glossary_version(None).expect("glossary version");
    let mut cache = HashMap::new();
    cache.insert(CacheStore::cache_key("fr", "Hello {}", &gv, RULES_VERSION), "Bonjour".to_string());
    let run = drive(&en, JsonMap::new(), TranslatorState::default(), &cache, 10, 0, false, |_c, items, _f| {
        let mut out = JsonMap::new();
        for (key, _) in items {
            out.insert(key.clone(), "Salut {}".to_string());
        }
        out
    })
    .expect("translate should succeed");
    assert_eq!(run.provider_calls, 1);
    assert_eq!(run.outcome.cache_hits, 0);
    assert_eq!(run.out.get("hello"), Some(&"Salut {}".to_string()));
}

#[test]
fn language_lists_are_trimmed_and_deduplicated() {
    assert_eq!(parse_lang_list("fr, de ,"), vec!["fr".to_string(), "de".to_string()]);
    assert_eq!(parse_lang_list(" , ,"), Vec::<String>::new());
    assert!(requests_all_langs(" all "));
    assert!(!requests_all_langs("all,fr"));
    let stems = vec!["fr".to_string(), "en".to_string(), "de".to_string(), "fr".to_string()];
    assert_eq!(select_stem_langs(&stems), vec!["de".to_string(), "fr".to_string()]);
}

#[test]
fn glossary_version_of_no_glossary_is_the_empty_hash() {
    assert_eq!(glossary_version(None).unwrap(), hash_text(""));
    let mut glossary = JsonMap::new();
    glossary.insert("CLI".to_string(), "CLI".to_string());
    assert_eq!(glossary_version(Some(&glossary)).unwrap(), hash_text("{\"CLI\":\"CLI\"}"));
}

#[test]
fn hash_text_is_lowercase_hex_of_blake3() {
    assert_eq!(
        hash_text(""),
        "af1349b9f5f9a1a6a0404dea36dcc9499bcb25c9adc112b7cc9a93cae41f3262"
    );
    assert_eq!(hash_text("abc").len(), 64);
}

#[test]
fn help_target_defaults_to_top_level() {
    assert!(matches!(help_target_from_args(&["bin".to_string()]), HelpTarget::TopLevel));
    assert!(matches!(
        help_target_from_args(&["bin".to_string(), "--locale=nl".to_string(), "diff".to_string()]),
        HelpTarget::Diff
    ));
    assert!(matches!(
        help_target_from_args(&["bin".to_string(), "unknown".to_string(), "status".to_string()]),
        HelpTarget::TopLevel
    ));
    assert!(matches!(
        help_target_from_args(&["bin".to_string(), "-h".to_string(), "validate".to_string()]),
        HelpTarget::Validate
    ));
    assert_eq!(requested_locale_from_args(&["bin".to_string(), "--locale".to_string()]), None);
    assert_eq!(requested_locale_from_args(&["--locale=xx".to_string()]), None);
}

#[test]
fn cache_entry_files_are_named_by_key() {
    assert_eq!(CacheStore::entry_file("abc"), "abc.json");
    let store = CacheStore::new(std::path::PathBuf::from("/tmp/cache"));
    assert_eq!(store.dir(), Path::new("/tmp/cache"));
}

#[test]
fn lang_path_for_needs_a_parent_directory() {
    assert_eq!(lang_path_for(Path::new("/"), "fr"), Err("`/` has no parent directory".to_string()));
    assert_eq!(
        lang_path_for(Path::new("/repo/i18n/en.json"), "pt-BR").unwrap(),
        Path::new("/repo/i18n/pt-BR.json")
    );
}

#[test]
fn a_finished_run_translates_every_english_key() {
    let mut en = JsonMap::new();
    en.insert("kept".to_string(), "Kept".to_string());
    en.insert("new".to_string(), "New {}".to_string());
    en.insert("cached".to_string(), "Cached".to_string());
    let mut out = JsonMap::new();
    out.insert("kept".to_string(), "Gardé".to_string());
    let mut state = TranslatorState::default();
    state.set_key_state("fr", "kept", hash_text("Kept"), hash_text("Gardé"), "codex-cli");
    let gv = glossary_version(None).unwrap();
    let mut cache = HashMap::new();
    cache.insert(CacheStore::cache_key("fr", "Cached", &gv, RULES_VERSION), "En cache".to_string());
    let run = drive(&en, out, state, &cache, 1, 0, false, |_c, items, _f| {
        let mut reply = JsonMap::new();
        for (key, _) in items {
            reply.insert(key.clone(), "Nouveau {}".to_string());
        }
        reply
    })
    .expect("translate should succeed");
    for key in ["kept", "new", "cached"] {
        assert!(run.out.get(key).is_some(), "{key} should have a translation");
    }
    assert_eq!(run.outcome.translated + run.outcome.cache_hits + run.outcome.manual_preserved, 3);
    assert_eq!(run.outcome.cache_hits, 2);
    assert_eq!(run.outcome.translated, 1);
    assert_eq!(run.stored.len(), 1);
    assert_eq!(run.stored[0].0, CacheStore::cache_key("fr", "New {}", &gv, RULES_VERSION));
}

#[test]
fn help_pages_list_their_lines() {
    let top = help_lines(HelpTarget::TopLevel);
    assert_eq!(top.len(), 14);
    assert_eq!(top[0].lead, "");
    assert_eq!(top[0].message_key, Some("cli.help.top.title"));
    assert_eq!(top[1].message_key, None);
    assert_eq!(top[5].lead, "  diff       ");
    assert_eq!(top[13].message_key, Some("cli.help.option.help"));
    let translate = help_lines(HelpTarget::Translate);
    assert_eq!(translate.len(), 17);
    assert_eq!(translate[10].lead, "      --max-retries <MAX_RETRIES> ");
    let status = help_for_args(&["bin".to_string(), "status".to_string(), "--help".to_string()]);
    assert_eq!(status[0].message_key, Some("cli.help.command.status"));
    assert_eq!(help_lines(HelpTarget::Diff).len(), 10);
    assert_eq!(help_lines(HelpTarget::Validate).len(), 9);
}

#[test]
fn unexpected_events_repeat_the_outstanding_request() {
    let mut en = JsonMap::new();
    en.insert("k".to_string(), "Hello".to_string());
    let mut session =
        TranslateSession::new("fr", &en, JsonMap::new(), TranslatorState::default(), "gv", 5, 0, false);
    let first = session.advance(TranslateEvent::Proceed);
    let key = match first {
        TranslateAction::LookupCache { cache_key } => cache_key,
        other => panic!("expected a cache lookup, got {other:?}"),
    };
    match session.advance(TranslateEvent::CacheStored) {
        TranslateAction::LookupCache { cache_key } => assert_eq!(cache_key, key),
        other => panic!("expected the lookup again, got {other:?}"),
    }
    assert_eq!(key, CacheStore::cache_key("fr", "Hello", "gv", RULES_VERSION));
}

#[test]
fn cache_keys_are_64_hex_digits_and_clock_failures_read_as_zero() {
    let key = CacheStore::cache_key("fr", "Hello", "g", "r");
    assert_eq!(key.len(), 64);
    assert!(key.chars().all(|c| c.is_ascii_hexdigit() && !c.is_ascii_uppercase()));
    assert_eq!(epoch_secs_or_zero(None), 0);
    assert_eq!(epoch_secs_or_zero(Some(42)), 42);
    assert!(now_epoch_secs() > 0);
}

#[test]
fn glossary_text_escapes_like_serde_json() {
    let mut glossary = JsonMap::new();
    glossary.insert("q\"uote".to_string(), "tab\there\u{1}".to_string());
    glossary.insert("a".to_string(), "b\\c".to_string());
    assert_eq!(
        glossary_version(Some(&glossary)).unwrap(),
        hash_text("{\"a\":\"b\\\\c\",\"q\\\"uote\":\"tab\\there\\u0001\"}")
    );
}

#[test]
fn the_largest_retry_count_is_accepted() {
    let mut en = JsonMap::new();
    en.insert("k".to_string(), "Hi".to_string());
    let run = drive(&en, JsonMap::new(), TranslatorState::default(), &HashMap::new(), 3, usize::MAX, false, echo_provider)
        .expect("translate should succeed");
    assert_eq!(run.outcome.translated, 1);
}

#[test]
fn keys_outside_the_english_map_keep_their_translation() {
    let mut en = JsonMap::new();
    en.insert("greet".to_string(), "Hello {}".to_string());
    let mut out = JsonMap::new();
    out.insert("legacy".to_string(), "Ancien".to_string());
    let run = drive(&en, out, TranslatorState::default(), &HashMap::new(), 10, 1, false, |_, items, _| {
        let mut reply = JsonMap::new();
        for (key, _) in items {
            reply.insert(key.clone(), "Bonjour {}".to_string());
        }
        reply
    })
    .expect("translate should succeed");
    assert_eq!(run.out.get("legacy"), Some(&"Ancien".to_string()));
    assert_eq!(run.out.get("greet"), Some(&"Bonjour {}".to_string()));
    assert_eq!(run.out.len(), 2);
}

#[test]
fn records_carry_the_given_timestamp() {
    let mut state = TranslatorState::default();
    state.set_key_state_at("fr", "k1", hash_text("Hello"), hash_text("Bonjour"), "codex-cli", 1_700_000_000);
    let ks = state.key_state("fr", "k1").expect("record");
    assert_eq!(ks.timestamp_epoch_secs, 1_700_000_000);
    assert_eq!(ks.engine, "codex-cli");
    state.set_key_state_at("fr", "k1", hash_text("Hello"), hash_text("Salut"), "codex-cli", 42);
    let ks = state.key_state("fr", "k1").expect("record");
    assert_eq!(ks.timestamp_epoch_secs, 42);
    assert_eq!(ks.last_bot_translation_hash, hash_text("Salut"));

    let mut en = JsonMap::new();
    en.insert("k2".to_string(), "Bye".to_string());
    let mut tr = JsonMap::new();
    tr.insert("k2".to_string(), "Au revoir".to_string());
    let added = backfill_state_from_existing_translation_at(&mut state, "fr", &en, &tr, 7);
    assert_eq!(added, 1);
    assert_eq!(state.key_state("fr", "k2").expect("backfilled").timestamp_epoch_secs, 7);
    assert_eq!(state.key_state("fr", "k1").expect("kept").timestamp_epoch_secs, 42);
}

#[test]
fn cache_dir_follows_xdg_then_home() {
    assert_eq!(
        CacheStore::dir_from_env(Some("/x"), Some("/h")),
        Path::new("/x").join("greentic").join("i18n-translator")
    );
    assert_eq!(
        CacheStore::dir_from_env(None, Some("/h")),
        Path::new("/h").join(".cache").join("greentic").join("i18n-translator")
    );
    assert_eq!(CacheStore::dir_from_env(None, None), Path::new(".i18n/cache"));
    assert!(CacheStore::dir_from_env(None, Some("/h")).ends_with("i18n-translator"));
}

#[test]
fn overwriting_manual_edits_keeps_none() {
    let mut en = JsonMap::new();
    en.insert("k".to_string(), "Hello".to_string());
    let mut out = JsonMap::new();
    out.insert("k".to_string(), "Salut (edited)".to_string());
    let mut state = TranslatorState::default();
    state.set_key_state("fr", "k", hash_text("Hello"), hash_text("Bonjour"), "codex-cli");
    let run = drive(&en, out, state, &HashMap::new(), 10, 0, true, |_, items, _| {
        let mut reply = JsonMap::new();
        for (key, _) in items {
            reply.insert(key.clone(), "Bonjour".to_string());
        }
        reply
    })
    .expect("translate should succeed");
    assert_eq!(run.outcome.manual_preserved, 0);
    assert_eq!(run.out.get("k"), Some(&"Bonjour".to_string()));
    let ks = run.state.key_state("fr", "k").expect("record");
    assert_eq!(ks.last_english_hash, hash_text("Hello"));
    assert_eq!(ks.last_bot_translation_hash, hash_text("Bonjour"));
}
