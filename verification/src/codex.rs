//! The Codex CLI translation provider: its settings, the prompt it sends, how
//! its JSON reply is read, and the order in which it tries to log in. Running
//! the `codex` program is left to the caller.
use vstd::prelude::*;
use std::path::PathBuf;
use crate::json_map::JsonMap;
use crate::json_text::{json_quote, json_string_literal};
use crate::text::push_str;

verus! {

/// How the provider logs in to Codex.
#[derive(Debug, Clone, Copy, PartialEq, Eq, Structural)]
pub enum AuthMode {
    Auto,
    Browser,
    Device,
    ApiKey,
}

impl AuthMode {
    /// The mode's name on the command line.
    pub open spec fn name(self) -> Seq<char> {
        match self {
            AuthMode::Auto => "auto"@,
            AuthMode::Browser => "browser"@,
            AuthMode::Device => "device"@,
            AuthMode::ApiKey => "api-key"@,
        }
    }

    /// The mode's name on the command line.
    pub fn as_str(self) -> (s: &'static str)
        ensures
            s@ == self.name(),
    {
        match self {
            AuthMode::Auto => "auto",
            AuthMode::Browser => "browser",
            AuthMode::Device => "device",
            AuthMode::ApiKey => "api-key",
        }
    }
}

/// The authentication modes offered by the translator's command line.
#[derive(Debug, Clone, Copy, PartialEq, Eq, Structural)]
pub enum CliAuthMode {
    Auto,
    Browser,
    Device,
    ApiKey,
}

/// The provider mode of a command-line mode: the one of the same name.
pub open spec fn provider_mode(value: CliAuthMode) -> AuthMode {
    match value {
        CliAuthMode::Auto => AuthMode::Auto,
        CliAuthMode::Browser => AuthMode::Browser,
        CliAuthMode::Device => AuthMode::Device,
        CliAuthMode::ApiKey => AuthMode::ApiKey,
    }
}

impl From<CliAuthMode> for AuthMode {
    fn from(value: CliAuthMode) -> (m: Self) {
        match value {
            CliAuthMode::Auto => AuthMode::Auto,
            CliAuthMode::Browser => AuthMode::Browser,
            CliAuthMode::Device => AuthMode::Device,
            CliAuthMode::ApiKey => AuthMode::ApiKey,
        }
    }
}

impl vstd::std_specs::convert::FromSpecImpl<CliAuthMode> for AuthMode {
    open spec fn obeys_from_spec() -> bool {
        true
    }

    open spec fn from_spec(value: CliAuthMode) -> Self {
        provider_mode(value)
    }
}

/// Settings of the Codex CLI provider.
#[derive(Debug)]
pub struct CodexCliConfig {
    pub auth_mode: AuthMode,
    pub codex_home: Option<PathBuf>,
    pub api_key_stdin: bool,
}

/// A provider that translates by running the Codex CLI.
#[derive(Debug)]
pub struct CodexCliProvider {
    config: CodexCliConfig,
}

/// A step of logging in.
#[derive(Debug, PartialEq, Eq, Structural)]
pub enum AuthAction {
    /// Run `codex login status`; report whether it succeeded.
    CheckStatus,
    /// Run `codex login` in the browser, as the chosen mode; its result is the result.
    LoginBrowser,
    /// Run `codex login --device-auth`; its result is the result.
    LoginDevice,
    /// Run `codex login --with-api-key`; its result is the result.
    LoginApiKey,
    /// Try `codex login` in the browser; report whether it succeeded.
    TryBrowser,
    /// Logged in.
    Ready,
    /// No way to log in.
    Unavailable,
}

/// The message when no login method is left.
pub open spec fn auth_unavailable_message() -> Seq<char> {
    "codex auth unavailable: browser login failed and OPENAI_API_KEY is not set"@
}

impl CodexCliProvider {
    pub closed spec fn spec_config(&self) -> CodexCliConfig {
        self.config
    }

    /// A provider with these settings.
    pub fn new(config: CodexCliConfig) -> (p: Self)
        ensures
            p.spec_config() == config,
    {
        CodexCliProvider { config }
    }

    /// The provider's settings.
    pub fn config(&self) -> (c: &CodexCliConfig)
        ensures
            *c == self.spec_config(),
    {
        &self.config
    }

    /// The first login step: an explicit mode logs in that way; `auto`
    /// checks first whether a login exists.
    pub fn first_auth_action(&self) -> (a: AuthAction)
        ensures
            a == match self.spec_config().auth_mode {
                AuthMode::ApiKey => AuthAction::LoginApiKey,
                AuthMode::Browser => AuthAction::LoginBrowser,
                AuthMode::Device => AuthAction::LoginDevice,
                AuthMode::Auto => AuthAction::CheckStatus,
            },
    {
        match self.config.auth_mode {
            AuthMode::ApiKey => AuthAction::LoginApiKey,
            AuthMode::Browser => AuthAction::LoginBrowser,
            AuthMode::Device => AuthAction::LoginDevice,
            AuthMode::Auto => AuthAction::CheckStatus,
        }
    }

    /// After `codex login status`: done when logged in, else try the browser.
    pub fn auth_after_status(&self, logged_in: bool) -> (a: AuthAction)
        ensures
            a == if logged_in { AuthAction::Ready } else { AuthAction::TryBrowser },
    {
        if logged_in {
            AuthAction::Ready
        } else {
            AuthAction::TryBrowser
        }
    }

    /// After the browser was tried: done when it worked; else the API key
    /// when one is given on stdin or set in the environment; else no way left.
    pub fn auth_after_browser(&self, browser_ok: bool, api_key_set: bool) -> (a: AuthAction)
        ensures
            a == if browser_ok {
                AuthAction::Ready
            } else if self.spec_config().api_key_stdin || api_key_set {
                AuthAction::LoginApiKey
            } else {
                AuthAction::Unavailable
            },
    {
        if browser_ok {
            AuthAction::Ready
        } else if self.config.api_key_stdin || api_key_set {
            AuthAction::LoginApiKey
        } else {
            AuthAction::Unavailable
        }
    }

    /// The message when no login method is left.
    pub fn auth_unavailable() -> (m: String)
        ensures
            m@ == auth_unavailable_message(),
    {
        "codex auth unavailable: browser login failed and OPENAI_API_KEY is not set".to_string()
    }
}

// ---------------------------------------------------------------------------
// Prompt
// ---------------------------------------------------------------------------

/// A text as a JSON string literal, or `""` when the serializer fails.
pub open spec fn quoted_or_empty(s: Seq<char>) -> Seq<char> {
    json_string_literal(s)
}

/// The fixed head of every prompt, up to and including the rules.
pub open spec fn prompt_head(lang: Seq<char>) -> Seq<char> {
    "You translate English UI strings into target language.\n"@ + "Target language: "@ + lang + "\n"@
        + "Rules:\n"@ + "- Keep the exact same number of `{}` placeholders.\n"@
        + "- Preserve backtick spans exactly, including inner content.\n"@
        + "- Keep exact newline count.\n"@ + "- Return JSON object only, mapping keys to translated strings.\n"@
        + "- Do not add explanations, markdown, or extra keys.\n"@
}

/// One line per glossary entry: `- term => preferred`.
pub open spec fn glossary_lines(pairs: Seq<(Seq<char>, String)>) -> Seq<char>
    decreases pairs.len(),
{
    if pairs.len() == 0 {
        Seq::empty()
    } else {
        glossary_lines(pairs.drop_last()) + "- "@ + pairs.last().0 + " => "@ + pairs.last().1@ + "\n"@
    }
}

/// The glossary section: present when a non-empty glossary is given.
pub open spec fn glossary_section(glossary: Option<JsonMap>) -> Seq<char> {
    match glossary {
        Some(g) => if g.pairs().len() > 0 {
            "Glossary (preferred terms):\n"@ + glossary_lines(g.pairs())
        } else {
            Seq::empty()
        },
        None => Seq::empty(),
    }
}

/// The feedback section: present on a retry.
pub open spec fn feedback_section(feedback: Option<Seq<char>>) -> Seq<char> {
    match feedback {
        Some(f) => "Previous output failed validation:\n"@ + f + "\n"@,
        None => Seq::empty(),
    }
}

/// The input line of item `i` of `n`: `  "key": "value"`, with a comma but
/// after the last.
pub open spec fn item_line(item: (String, String), last: bool) -> Seq<char> {
    "  "@ + quoted_or_empty(item.0@) + ": "@ + quoted_or_empty(item.1@) + (if last {
        Seq::<char>::empty()
    } else {
        ","@
    }) + "\n"@
}

/// The input lines of the first `n` items.
pub open spec fn item_lines(items: Seq<(String, String)>, n: int) -> Seq<char>
    decreases n,
{
    if n <= 0 {
        Seq::empty()
    } else {
        item_lines(items, n - 1) + item_line(items[n - 1], n == items.len())
    }
}

/// The whole prompt for a batch.
pub open spec fn prompt_text(
    lang: Seq<char>,
    items: Seq<(String, String)>,
    glossary: Option<JsonMap>,
    feedback: Option<Seq<char>>,
) -> Seq<char> {
    prompt_head(lang) + glossary_section(glossary) + feedback_section(feedback) + "Input JSON:\n"@ + "{\n"@
        + item_lines(items, items.len() as int) + "}\n"@
}

fn quote_or_empty(s: &str) -> (q: String)
    ensures
        q@ == quoted_or_empty(s@),
{
    match json_quote(s) {
        Ok(t) => t,
        Err(_) => "\"\"".to_string(),
    }
}

/// Options given by reference, as plain values.
pub open spec fn opt_text(o: Option<&str>) -> Option<Seq<char>> {
    match o {
        Some(s) => Some(s@),
        None => None,
    }
}

/// Options given by reference, as plain values.
pub open spec fn opt_map(o: Option<&JsonMap>) -> Option<JsonMap> {
    match o {
        Some(m) => Some(*m),
        None => None,
    }
}

impl CodexCliProvider {
    /// The prompt asking to translate `items` into `lang`: the rules, the
    /// glossary if any, the feedback on a retry, and the items as JSON.
    pub fn build_prompt(
        lang: &str,
        items: &[(String, String)],
        glossary: Option<&JsonMap>,
        retry_feedback: Option<&str>,
    ) -> (prompt: String)
        ensures
            prompt@ == prompt_text(lang@, items@, opt_map(glossary), opt_text(retry_feedback)),
    {
        let mut prompt = String::new();
        push_str(&mut prompt, "You translate English UI strings into target language.\n");
        push_str(&mut prompt, "Target language: ");
        push_str(&mut prompt, lang);
        push_str(&mut prompt, "\n");
        push_str(&mut prompt, "Rules:\n");
        push_str(&mut prompt, "- Keep the exact same number of `{}` placeholders.\n");
        push_str(&mut prompt, "- Preserve backtick spans exactly, including inner content.\n");
        push_str(&mut prompt, "- Keep exact newline count.\n");
        push_str(&mut prompt, "- Return JSON object only, mapping keys to translated strings.\n");
        push_str(&mut prompt, "- Do not add explanations, markdown, or extra keys.\n");
        assert(prompt@ =~= prompt_head(lang@));
        let ghost head = prompt@;

        match glossary {
            Some(g) => {
                if !g.is_empty() {
                    push_str(&mut prompt, "Glossary (preferred terms):\n");
                    let ghost start = prompt@;
                    let n = g.len();
                    let mut i: usize = 0;
                    while i < n
                        invariant
                            n == g.pairs().len(),
                            i <= n,
                            prompt@ == start + glossary_lines(g.pairs().take(i as int)),
                        decreases n - i,
                    {
                        assert(g.pairs().take(i + 1).drop_last() =~= g.pairs().take(i as int));
                        push_str(&mut prompt, "- ");
                        push_str(&mut prompt, g.key_at(i).as_str());
                        push_str(&mut prompt, " => ");
                        push_str(&mut prompt, g.value_at(i).as_str());
                        push_str(&mut prompt, "\n");
                        i = i + 1;
                        assert(prompt@ =~= start + glossary_lines(g.pairs().take(i as int)));
                    }
                    assert(g.pairs().take(n as int) =~= g.pairs());
                }
            },
            None => {},
        }
        assert(prompt@ =~= head + glossary_section(opt_map(glossary)));
        let ghost with_glossary = prompt@;

        match retry_feedback {
            Some(feedback) => {
                push_str(&mut prompt, "Previous output failed validation:\n");
                push_str(&mut prompt, feedback);
                push_str(&mut prompt, "\n");
            },
            None => {},
        }
        assert(prompt@ =~= with_glossary + feedback_section(opt_text(retry_feedback)));

        push_str(&mut prompt, "Input JSON:\n");
        push_str(&mut prompt, "{\n");
        let ghost before_items = prompt@;
        let mut idx: usize = 0;
        while idx < items.len()
            invariant
                idx <= items@.len(),
                prompt@ == before_items + item_lines(items@, idx as int),
            decreases items@.len() - idx,
        {
            let escaped_key = quote_or_empty(items[idx].0.as_str());
            let escaped_value = quote_or_empty(items[idx].1.as_str());
            push_str(&mut prompt, "  ");
            push_str(&mut prompt, escaped_key.as_str());
            push_str(&mut prompt, ": ");
            push_str(&mut prompt, escaped_value.as_str());
            if idx + 1 != items.len() {
                push_str(&mut prompt, ",");
            }
            push_str(&mut prompt, "\n");
            idx = idx + 1;
            assert(prompt@ =~= before_items + item_lines(items@, idx as int));
        }
        push_str(&mut prompt, "}\n");
        prompt
    }
}


// ---------------------------------------------------------------------------
// Reply
// ---------------------------------------------------------------------------

/// A JSON document as the reply reader sees it.
#[derive(Debug)]
pub enum JsonDocument {
    /// Not JSON; the parser's error text.
    Invalid(String),
    /// JSON, but not an object.
    NotObject,
    /// An object: its members in iteration order, the text of each string
    /// value, `None` for other values.
    Object(Vec<(String, Option<String>)>),
}

/// A parsed JSON document, as plain values.
pub enum JsonDocumentView {
    Invalid(Seq<char>),
    NotObject,
    Object(Seq<(Seq<char>, Option<Seq<char>>)>),
}

/// The text of an optional string.
pub open spec fn opt_string(o: Option<String>) -> Option<Seq<char>> {
    match o {
        Some(s) => Some(s@),
        None => None,
    }
}

impl View for JsonDocument {
    type V = JsonDocumentView;

    open spec fn view(&self) -> JsonDocumentView {
        match self {
            JsonDocument::Invalid(e) => JsonDocumentView::Invalid(e@),
            JsonDocument::NotObject => JsonDocumentView::NotObject,
            JsonDocument::Object(members) => JsonDocumentView::Object(
                Seq::new(members@.len(), |i: int| (members@[i].0@, opt_string(members@[i].1))),
            ),
        }
    }
}

/// What `serde_json::from_str` makes of a text, read as a `JsonDocument`.
pub uninterp spec fn json_document(raw: Seq<char>) -> JsonDocumentView;

/// Trusted: `serde_json::from_str` into a `serde_json::Value`, then
/// `Value::as_object` and `Value::as_str` on each member. The result is
/// `json_document` of the text; nothing more is stated of JSON syntax.
#[verifier::external_body]
pub(crate) fn parse_json_document(raw: &str) -> (d: JsonDocument)
    ensures
        d@ == json_document(raw@),
{
    match serde_json::from_str::<serde_json::Value>(raw) {
        Err(e) => JsonDocument::Invalid(e.to_string()),
        Ok(value) => match value.as_object() {
            None => JsonDocument::NotObject,
            Some(object) => JsonDocument::Object(
                object.iter().map(|(k, v)| (k.clone(), v.as_str().map(|t| t.to_string()))).collect(),
            ),
        },
    }
}

/// The first member, in order, whose value is not a string.
pub open spec fn first_non_string(members: Seq<(Seq<char>, Option<Seq<char>>)>) -> Option<Seq<char>>
    decreases members.len(),
{
    if members.len() == 0 {
        None
    } else if members[0].1 is None {
        Some(members[0].0)
    } else {
        first_non_string(members.drop_first())
    }
}

/// The key-to-text map of string members; a later member replaces an
/// earlier one of the same key.
pub open spec fn members_map(members: Seq<(Seq<char>, Option<Seq<char>>)>) -> Map<Seq<char>, Seq<char>>
    decreases members.len(),
{
    if members.len() == 0 {
        Map::empty()
    } else {
        let last = members.last();
        members_map(members.drop_last()).insert(last.0, last.1.unwrap())
    }
}

/// `map` holds exactly the entries of `m`.
pub open spec fn holds_exactly(map: JsonMap, m: Map<Seq<char>, Seq<char>>) -> bool {
    &&& forall|k: Seq<char>| #[trigger] map.spec_contains(k) == m.dom().contains(k)
    &&& forall|k: Seq<char>| #[trigger] map.spec_contains(k) ==> map.spec_get(k)->0@ == m[k]
}

/// What the provider's reply means: the translations, or why it is rejected.
pub open spec fn reply_result(doc: JsonDocumentView) -> Result<Map<Seq<char>, Seq<char>>, Seq<char>> {
    match doc {
        JsonDocumentView::Invalid(e) => Err("provider did not return valid JSON: "@ + e),
        JsonDocumentView::NotObject => Err("provider JSON response must be an object"@),
        JsonDocumentView::Object(members) => match first_non_string(members) {
            Some(key) => Err("provider key `"@ + key + "` is not a string"@),
            None => Ok(members_map(members)),
        },
    }
}

/// Reads a parsed reply: an object whose values are all strings becomes the
/// translation map.
pub fn translations_from_document(doc: JsonDocument) -> (r: Result<JsonMap, String>)
    ensures
        match reply_result(doc@) {
            Ok(m) => r matches Ok(map) && map.wf() && holds_exactly(map, m),
            Err(e) => r matches Err(msg) && msg@ == e,
        },
{
    match &doc {
        JsonDocument::Invalid(e) => {
            let mut msg = "provider did not return valid JSON: ".to_string();
            push_str(&mut msg, e.as_str());
            Err(msg)
        },
        JsonDocument::NotObject => Err("provider JSON response must be an object".to_string()),
        JsonDocument::Object(members) => {
            let ghost mv = Seq::new(members@.len(), |i: int| (members@[i].0@, opt_string(members@[i].1)));
            assert(doc@ == JsonDocumentView::Object(mv));
            let mut out = JsonMap::new();
            let mut i: usize = 0;
            assert(mv.skip(0) =~= mv);
            while i < members.len()
                invariant
                    i <= members@.len(),
                    mv == Seq::new(members@.len(), |j: int| (members@[j].0@, opt_string(members@[j].1))),
                    doc@ == JsonDocumentView::Object(mv),
                    out.wf(),
                    first_non_string(mv) == first_non_string(mv.skip(i as int)),
                    forall|j: int| 0 <= j < i ==> (#[trigger] mv[j]).1 is Some,
                    holds_exactly(out, members_map(mv.take(i as int))),
                decreases members@.len() - i,
            {
                assert(mv.skip(i as int)[0] == mv[i as int]);
                match &members[i].1 {
                    None => {
                        assert(mv[i as int].1 is None);
                        assert(first_non_string(mv.skip(i as int)) == Some(mv[i as int].0));
                        let mut msg = "provider key `".to_string();
                        push_str(&mut msg, members[i].0.as_str());
                        push_str(&mut msg, "` is not a string");
                        return Err(msg);
                    },
                    Some(text) => {
                        let ghost before = out;
                        out.insert(members[i].0.clone(), text.clone());
                        assert(mv.take(i + 1).drop_last() =~= mv.take(i as int));
                        assert(mv.skip(i as int).drop_first() =~= mv.skip(i + 1));
                        let ghost m = members_map(mv.take(i + 1));
                        assert(m == members_map(mv.take(i as int)).insert(members@[i as int].0@, text@));
                        assert forall|k: Seq<char>| #[trigger] out.spec_contains(k) == m.dom().contains(k) by {}
                        assert forall|k: Seq<char>| #[trigger] out.spec_contains(k) implies out.spec_get(k)->0@ == m[k] by {
                            if k != members@[i as int].0@ {
                                assert(before.spec_contains(k));
                            }
                        }
                    },
                }
                i = i + 1;
            }
            assert(mv.take(members@.len() as int) =~= mv);
            assert(mv.skip(members@.len() as int) =~= Seq::<(Seq<char>, Option<Seq<char>>)>::empty());
            Ok(out)
        },
    }
}

impl CodexCliProvider {
    /// Reads the provider's raw reply: it must be a JSON object whose values
    /// are all strings.
    pub fn parse_translation_response(raw: &str) -> (r: Result<JsonMap, String>)
        ensures
            match reply_result(json_document(raw@)) {
                Ok(m) => r matches Ok(map) && map.wf() && holds_exactly(map, m),
                Err(e) => r matches Err(msg) && msg@ == e,
            },
    {
        translations_from_document(parse_json_document(raw))
    }
}

} // verus!
