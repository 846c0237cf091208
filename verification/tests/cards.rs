use std::path::PathBuf;

use greentic_i18n::cards::{
    bundle_map, card_key_prefix, card_prefix_for, determine_card_id, is_adaptive_card, manifest_locales,
    sanitize_key_part, translator_args, CardFacts, ExtractedString, TranslatorArg,
};
use greentic_i18n::json_text::{json_pretty_array_text, json_pretty_object_text};

fn extracted(key: &str, value: &str) -> ExtractedString {
    ExtractedString {
        key: key.to_string(),
        value: value.to_string(),
        source_file: PathBuf::from("cards/a.json"),
        json_path: "/body/0/text".to_string(),
    }
}

fn shown(args: &[TranslatorArg]) -> Vec<String> {
    args.iter()
        .map(|a| match a {
            TranslatorArg::Text(t) => t.clone(),
            TranslatorArg::File(p) => format!("<{}>", p.display()),
        })
        .collect()
}

fn facts(card_type: Option<&str>, has_body: bool, metadata_card_id: Option<&str>) -> CardFacts {
    CardFacts {
        is_object: true,
        card_type: card_type.map(|t| t.to_string()),
        has_body,
        has_actions: false,
        metadata_card_id: metadata_card_id.map(|t| t.to_string()),
    }
}

#[test]
fn test_sanitize_key_part() {
    assert_eq!(sanitize_key_part("my-card"), "my_card");
    assert_eq!(sanitize_key_part("My Card"), "my_card");
    assert_eq!(sanitize_key_part("card_123"), "card_123");
    assert_eq!(sanitize_key_part("Card.Name"), "card_name");
}

#[test]
fn test_determine_card_id_from_metadata() {
    let card = facts(Some("AdaptiveCard"), true, Some("my-custom-id"));
    let id = determine_card_id(&card, Some("some-filename"), "some-filename.json").unwrap();
    assert_eq!(id, "my_custom_id");
}

#[test]
fn test_determine_card_id_fallback_to_filename() {
    let card = facts(Some("AdaptiveCard"), true, None);
    let id = determine_card_id(&card, Some("my-card"), "cards/my-card.json").unwrap();
    assert_eq!(id, "my_card");
}

#[test]
fn card_id_needs_metadata_or_a_file_stem() {
    let card = facts(Some("AdaptiveCard"), true, None);
    assert_eq!(
        determine_card_id(&card, None, "cards/.."),
        Err("cannot determine card ID for cards/..".to_string())
    );
}

#[test]
fn adaptive_cards_are_recognized_by_type_or_members() {
    assert!(is_adaptive_card(&facts(Some("AdaptiveCard"), false, None)));
    assert!(is_adaptive_card(&facts(None, true, None)));
    assert!(!is_adaptive_card(&facts(Some("Other"), false, None)));
    let mut actions_only = facts(None, false, None);
    actions_only.has_actions = true;
    assert!(is_adaptive_card(&actions_only));
    let mut not_object = facts(Some("AdaptiveCard"), true, None);
    not_object.is_object = false;
    assert!(!is_adaptive_card(&not_object));
}

#[test]
fn key_prefix_joins_prefix_and_card_id() {
    assert_eq!(card_key_prefix("card", "welcome"), "card.welcome");
    assert_eq!(card_key_prefix("", "welcome"), "welcome");
}

#[test]
fn manifest_lists_sorted_unique_locales_with_en() {
    let locales = vec!["fr".to_string(), "de".to_string(), "fr".to_string()];
    assert_eq!(
        manifest_locales(&locales),
        vec!["de".to_string(), "en".to_string(), "fr".to_string()]
    );
    assert_eq!(manifest_locales(&[]), vec!["en".to_string()]);
    assert_eq!(manifest_locales(&["en".to_string()]), vec!["en".to_string()]);
}

#[test]
fn sanitize_handles_non_ascii_letters() {
    assert_eq!(sanitize_key_part("Été-Card"), "été_card");
    assert_eq!(sanitize_key_part("a/b c"), "a_b_c");
}

#[test]
fn card_files_yield_their_key_prefix() {
    let card = "{\"type\":\"AdaptiveCard\",\"greentic\":{\"cardId\":\"My-Card\"},\"body\":[]}";
    assert_eq!(card_prefix_for(card, Some("file"), "cards/file.json", "card"), Ok(Some("card.my_card".to_string())));
    let by_stem = "{\"actions\":[]}";
    assert_eq!(card_prefix_for(by_stem, Some("Welcome Screen"), "w.json", ""), Ok(Some("welcome_screen".to_string())));
    assert_eq!(card_prefix_for("{\"type\":\"Other\"}", Some("x"), "x.json", "card"), Ok(None));
    assert_eq!(card_prefix_for("[1,2]", Some("x"), "x.json", "card"), Ok(None));
    assert_eq!(card_prefix_for("{oops", Some("x"), "x.json", "card"), Err("invalid JSON in x.json".to_string()));
    assert_eq!(
        card_prefix_for("{\"body\":[]}", None, "cards/..", "card"),
        Err("cannot determine card ID for cards/..".to_string())
    );
}

#[test]
fn translator_is_run_with_the_language_the_bundle_and_the_glossary() {
    let with = translator_args("fr", PathBuf::from("/w/en.json"), Some(PathBuf::from("/w/glossary.json")));
    assert_eq!(
        shown(&with),
        vec!["translate", "--langs", "fr", "--en", "</w/en.json>", "--glossary", "</w/glossary.json>", "--auth-mode", "auto"]
    );
    let without = translator_args("de", PathBuf::from("/w/en.json"), None);
    assert_eq!(shown(&without), vec!["translate", "--langs", "de", "--en", "</w/en.json>", "--auth-mode", "auto"]);
}

#[test]
fn bundle_text_is_pretty_json_with_the_last_text_of_each_key() {
    let strings = vec![extracted("card.b.title", "Hi \"there\""), extracted("card.a.x", "A"), extracted("card.b.title", "Hello")];
    let text = json_pretty_object_text(&bundle_map(&strings));
    assert_eq!(text, "{\n  \"card.a.x\": \"A\",\n  \"card.b.title\": \"Hello\"\n}");
    assert_eq!(json_pretty_object_text(&bundle_map(&[])), "{}");
    let quoted = json_pretty_object_text(&bundle_map(&[extracted("k", "say \"hi\"\n")]));
    assert_eq!(quoted, "{\n  \"k\": \"say \\\"hi\\\"\\n\"\n}");
}

#[test]
fn manifest_text_lists_en_and_the_locales_in_order() {
    let locales = vec!["fr".to_string(), "de".to_string(), "fr".to_string()];
    assert_eq!(json_pretty_array_text(&manifest_locales(&locales)), "[\n  \"de\",\n  \"en\",\n  \"fr\"\n]");
    assert_eq!(json_pretty_array_text(&Vec::new()), "[]");
}

#[test]
fn test_to_json_bundle() {
    let strings = vec![
        ExtractedString {
            key: "card.title".to_string(),
            value: "Hello".to_string(),
            source_file: PathBuf::from("test.json"),
            json_path: "body[0].text".to_string(),
        },
        ExtractedString {
            key: "card.button".to_string(),
            value: "Click me".to_string(),
            source_file: PathBuf::from("test.json"),
            json_path: "actions[0].title".to_string(),
        },
    ];

    let bundle = bundle_map(&strings);
    assert_eq!(bundle.get("card.title"), Some(&"Hello".to_string()));
    assert_eq!(bundle.get("card.button"), Some(&"Click me".to_string()));
}
