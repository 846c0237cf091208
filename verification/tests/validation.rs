use greentic_i18n::json_map::JsonMap;
use greentic_i18n::validate::{
    count_newlines_normalized, count_placeholders_positional, extract_backtick_spans, validate_lang_map,
    validate_translation, ValidationError, ValidationIssue,
};

#[test]
fn placeholder_mismatch_fails() {
    let err = validate_translation("raw:\n{}", "raw:\n").expect_err("placeholder mismatch should fail validation");
    assert_eq!(err, ValidationError::PlaceholderCountMismatch { expected: 1, found: 0 });
}

#[test]
fn backtick_span_exact_preservation_is_required() {
    let err = validate_translation("Use `--flag` now", "Utilisez `--drapeau` maintenant")
        .expect_err("changed backtick content should fail");
    assert_eq!(
        err,
        ValidationError::BacktickSpansMismatch {
            expected: vec!["--flag".to_string()],
            found: vec!["--drapeau".to_string()],
        }
    );
}

#[test]
fn newline_count_mismatch_fails() {
    let err = validate_translation("a\nb\n{}", "a b {}").expect_err("newline mismatch should fail validation");
    assert_eq!(err, ValidationError::NewlineCountMismatch { expected: 2, found: 0 });
}

#[test]
fn helper_extractors_work() {
    assert_eq!(count_placeholders_positional("{} a {}"), 2);
    assert_eq!(count_newlines_normalized("a\nb\n"), 2);
    assert_eq!(
        extract_backtick_spans("do `cmd --x` and `cmd --y`"),
        vec!["cmd --x".to_string(), "cmd --y".to_string()]
    );
}

#[test]
fn empty_translation_is_rejected_for_non_empty_english() {
    let err = validate_translation("hello", "").expect_err("empty translation should fail");
    assert_eq!(err, ValidationError::EmptyTranslationNotAllowed);
    assert_eq!(err.message(), "translation is empty while English source is non-empty");
}

#[test]
fn validate_lang_map_reports_missing_keys() {
    let mut en_map = JsonMap::new();
    en_map.insert("hello".to_string(), "Hello".to_string());
    let tr_map = JsonMap::new();

    assert_eq!(
        validate_lang_map(&en_map, &tr_map),
        vec![ValidationIssue { key: "hello".to_string(), error: ValidationError::MissingKey }]
    );
}

#[test]
fn a_text_is_a_valid_translation_of_itself() {
    for text in ["", "Hello {} `x`\nthere", "{}{}{", "`a` `b", "\r\n\n"] {
        assert_eq!(validate_translation(text, text), Ok(()));
    }
}

#[test]
fn messages_render_each_error() {
    assert_eq!(ValidationError::MissingKey.message(), "missing key in translation file");
    assert_eq!(
        ValidationError::PlaceholderCountMismatch { expected: 2, found: 10 }.message(),
        "placeholder count mismatch for `{}`: expected 2, found 10"
    );
    assert_eq!(
        ValidationError::NewlineCountMismatch { expected: 0, found: 3 }.message(),
        "newline count mismatch: expected 0, found 3"
    );
    assert_eq!(
        ValidationError::BacktickSpansMismatch {
            expected: vec!["a\"b".to_string()],
            found: vec![],
        }
        .message(),
        "backtick spans mismatch: expected [\"a\\\"b\"], found []"
    );
}

#[test]
fn counting_rules_handle_edge_cases() {
    assert_eq!(count_placeholders_positional("{{}}"), 1);
    assert_eq!(count_placeholders_positional("{}}{}"), 2);
    assert_eq!(count_newlines_normalized("a\r\nb\rc"), 1);
    assert_eq!(extract_backtick_spans("`open"), Vec::<String>::new());
    assert_eq!(extract_backtick_spans("``"), vec!["".to_string()]);
}

#[test]
fn validate_lang_map_reports_broken_translations_in_key_order() {
    let mut en_map = JsonMap::new();
    en_map.insert("b".to_string(), "B {}".to_string());
    en_map.insert("a".to_string(), "A\nA".to_string());
    en_map.insert("c".to_string(), "C".to_string());
    let mut tr_map = JsonMap::new();
    tr_map.insert("b".to_string(), "B".to_string());
    tr_map.insert("a".to_string(), "A A".to_string());
    tr_map.insert("c".to_string(), "Cé".to_string());
    assert_eq!(
        validate_lang_map(&en_map, &tr_map),
        vec![
            ValidationIssue {
                key: "a".to_string(),
                error: ValidationError::NewlineCountMismatch { expected: 1, found: 0 },
            },
            ValidationIssue {
                key: "b".to_string(),
                error: ValidationError::PlaceholderCountMismatch { expected: 1, found: 0 },
            },
        ]
    );
}
