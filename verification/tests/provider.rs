use greentic_i18n::codex::{AuthAction, AuthMode, CliAuthMode, CodexCliConfig, CodexCliProvider};
use greentic_i18n::json_map::JsonMap;

#[test]
fn prompt_builder_contains_validation_rules() {
    let items = vec![("k".to_string(), "raw:\n{}".to_string())];
    let prompt = CodexCliProvider::build_prompt("fr", &items, None, None);
    assert!(prompt.contains("same number of `{}` placeholders"));
    assert!(prompt.contains("Preserve backtick spans exactly"));
    assert!(prompt.contains("Keep exact newline count"));
    assert!(prompt.contains("\"k\": \"raw:\\n{}\""));
}

#[test]
fn parse_json_response_extracts_map() {
    let parsed = CodexCliProvider::parse_translation_response("{\"hello\":\"Bonjour\"}").expect("response should parse");
    assert_eq!(parsed.get("hello"), Some(&"Bonjour".to_string()));
}

#[test]
fn prompt_builder_renders_glossary_and_feedback() {
    let items = vec![("k".to_string(), "v".to_string())];
    let mut glossary = JsonMap::new();
    glossary.insert("CLI".to_string(), "CLI".to_string());
    let prompt = CodexCliProvider::build_prompt("de", &items, Some(&glossary), Some("bad output"));
    assert!(prompt.contains("Glossary"));
    assert!(prompt.contains("CLI => CLI"));
    assert!(prompt.contains("Previous output failed validation"));
    assert!(prompt.contains("bad output"));
}

#[test]
fn parse_json_response_rejects_non_string_values() {
    let err = CodexCliProvider::parse_translation_response("{\"hello\":1}").expect_err("non-string values should fail");
    assert!(err.contains("provider key `hello` is not a string"));
}

#[test]
fn prompt_is_laid_out_line_by_line() {
    let items = vec![("a".to_string(), "A".to_string()), ("b".to_string(), "B \"q\"".to_string())];
    let prompt = CodexCliProvider::build_prompt("nl", &items, None, None);
    let expected = "You translate English UI strings into target language.\n\
Target language: nl\n\
Rules:\n\
- Keep the exact same number of `{}` placeholders.\n\
- Preserve backtick spans exactly, including inner content.\n\
- Keep exact newline count.\n\
- Return JSON object only, mapping keys to translated strings.\n\
- Do not add explanations, markdown, or extra keys.\n\
Input JSON:\n\
{\n  \"a\": \"A\",\n  \"b\": \"B \\\"q\\\"\"\n}\n";
    assert_eq!(prompt, expected);
    let empty_glossary = JsonMap::new();
    let same = CodexCliProvider::build_prompt("nl", &items, Some(&empty_glossary), None);
    assert_eq!(same, expected);
}

#[test]
fn malformed_replies_are_rejected_with_a_reason() {
    let err = CodexCliProvider::parse_translation_response("not json").expect_err("not JSON");
    assert!(err.starts_with("provider did not return valid JSON: "));
    let err = CodexCliProvider::parse_translation_response("[\"x\"]").expect_err("not an object");
    assert_eq!(err, "provider JSON response must be an object");
    let err = CodexCliProvider::parse_translation_response("{\"a\":\"x\",\"b\":true,\"c\":null}")
        .expect_err("non-string value");
    assert_eq!(err, "provider key `b` is not a string");
    let ok = CodexCliProvider::parse_translation_response("{\"b\":\"2\",\"a\":\"1\"}").unwrap();
    assert_eq!(ok.len(), 2);
    assert_eq!(ok.key_at(0), "a");
}

#[test]
fn auth_modes_have_command_line_names() {
    assert_eq!(AuthMode::Auto.as_str(), "auto");
    assert_eq!(AuthMode::Browser.as_str(), "browser");
    assert_eq!(AuthMode::Device.as_str(), "device");
    assert_eq!(AuthMode::ApiKey.as_str(), "api-key");
    assert_eq!(AuthMode::from(CliAuthMode::ApiKey), AuthMode::ApiKey);
    assert_eq!(AuthMode::from(CliAuthMode::Auto), AuthMode::Auto);
}

#[test]
fn login_steps_follow_the_mode() {
    let auto = CodexCliProvider::new(CodexCliConfig { auth_mode: AuthMode::Auto, codex_home: None, api_key_stdin: false });
    assert_eq!(auto.first_auth_action(), AuthAction::CheckStatus);
    assert_eq!(auto.auth_after_status(true), AuthAction::Ready);
    assert_eq!(auto.auth_after_status(false), AuthAction::TryBrowser);
    assert_eq!(auto.auth_after_browser(true, false), AuthAction::Ready);
    assert_eq!(auto.auth_after_browser(false, true), AuthAction::LoginApiKey);
    assert_eq!(auto.auth_after_browser(false, false), AuthAction::Unavailable);
    assert_eq!(
        CodexCliProvider::auth_unavailable(),
        "codex auth unavailable: browser login failed and OPENAI_API_KEY is not set"
    );
    let stdin = CodexCliProvider::new(CodexCliConfig { auth_mode: AuthMode::Auto, codex_home: None, api_key_stdin: true });
    assert_eq!(stdin.auth_after_browser(false, false), AuthAction::LoginApiKey);
    let device = CodexCliProvider::new(CodexCliConfig { auth_mode: AuthMode::Device, codex_home: None, api_key_stdin: false });
    assert_eq!(device.first_auth_action(), AuthAction::LoginDevice);
    let key = CodexCliProvider::new(CodexCliConfig { auth_mode: AuthMode::ApiKey, codex_home: None, api_key_stdin: false });
    assert_eq!(key.first_auth_action(), AuthAction::LoginApiKey);
    let browser = CodexCliProvider::new(CodexCliConfig { auth_mode: AuthMode::Browser, codex_home: None, api_key_stdin: false });
    assert_eq!(browser.first_auth_action(), AuthAction::LoginBrowser);
}
