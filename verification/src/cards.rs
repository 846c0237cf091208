//! Adaptive Card extraction rules: which JSON documents are cards, how a
//! card's key prefix is chosen, and which locales a bundle manifest lists.
//! Walking directories and reading files is left to the caller, which hands
//! over each file's text.
use vstd::prelude::*;
use std::path::PathBuf;
use crate::profile::opt_text;
use crate::text::{lower_seq, push_str, string_push, strings_view};
use crate::workflow::{str_eq, strictly_ascending, ascending_unique};
use crate::json_map::JsonMap;

verus! {

/// Whether `c` is alphabetic or numeric in Unicode, as `char::is_alphanumeric` reports it.
pub uninterp spec fn unicode_alphanumeric(c: char) -> bool;

/// Trusted: `char::is_alphanumeric`, a fixed property of the character. For
/// ASCII it holds of the letters and digits only.
#[verifier::external_body]
pub(crate) fn char_is_alphanumeric(c: char) -> (r: bool)
    ensures
        r == unicode_alphanumeric(c),
        c <= '\x7f' ==> (r == (('a' <= c <= 'z') || ('A' <= c <= 'Z') || ('0' <= c <= '9'))),
{
    c.is_alphanumeric()
}

/// The Unicode lower-case form of a text, as `str::to_lowercase` gives it.
pub uninterp spec fn unicode_lowercase(s: Seq<char>) -> Seq<char>;

/// Trusted: `str::to_lowercase`, a function of the text alone; an ASCII text
/// is lowered letter by letter.
#[verifier::external_body]
pub(crate) fn str_to_lowercase(s: &str) -> (r: String)
    ensures
        r@ == unicode_lowercase(s@),
        (forall|i: int| 0 <= i < s@.len() ==> s@[i] <= '\x7f') ==> r@ == lower_seq(s@),
{
    s.to_lowercase()
}

/// Every character that is not alphanumeric or `_` replaced by `_`.
pub open spec fn key_chars(s: Seq<char>) -> Seq<char> {
    Seq::new(s.len(), |i: int| if unicode_alphanumeric(s[i]) || s[i] == '_' { s[i] } else { '_' })
}

/// An ASCII letter or digit.
pub open spec fn ascii_alphanumeric(c: char) -> bool {
    ('a' <= c <= 'z') || ('A' <= c <= 'Z') || ('0' <= c <= '9')
}

/// `key_chars` for an ASCII text.
pub open spec fn ascii_key_chars(s: Seq<char>) -> Seq<char> {
    Seq::new(s.len(), |i: int| if ascii_alphanumeric(s[i]) || s[i] == '_' { s[i] } else { '_' })
}

/// Every character is ASCII.
pub open spec fn all_ascii(s: Seq<char>) -> bool {
    forall|i: int| 0 <= i < s.len() ==> s[i] <= '\x7f'
}

/// A text made fit to be part of a key: non-alphanumeric characters other
/// than `_` become `_`, then the text is lower-cased.
pub open spec fn sanitized_key_part(s: Seq<char>) -> Seq<char> {
    unicode_lowercase(key_chars(s))
}

/// Makes a text fit to be part of a key (`"My Card"` gives `my_card`).
pub fn sanitize_key_part(s: &str) -> (r: String)
    ensures
        r@ == sanitized_key_part(s@),
        all_ascii(s@) ==> r@ == lower_seq(ascii_key_chars(s@)),
{
    let mut mapped = String::new();
    for c in iter: s.chars()
        invariant
            iter.seq() == s@,
            mapped@ == key_chars(s@).take(iter.index() as int),
            forall|j: int| 0 <= j < iter.index() && s@[j] <= '\x7f' ==> (unicode_alphanumeric(s@[j]) == ascii_alphanumeric(s@[j])),
    {
        let kept = if char_is_alphanumeric(c) || c == '_' {
            c
        } else {
            '_'
        };
        string_push(&mut mapped, kept);
        assert(mapped@ =~= key_chars(s@).take(iter.index() + 1));
    }
    assert(key_chars(s@).take(s@.len() as int) =~= key_chars(s@));
    proof {
        if all_ascii(s@) {
            assert(key_chars(s@) =~= ascii_key_chars(s@));
            assert(all_ascii(mapped@));
        }
    }
    str_to_lowercase(mapped.as_str())
}

/// What the extraction rules read of a JSON document.
#[derive(Debug)]
pub struct CardFacts {
    /// The document is a JSON object.
    pub is_object: bool,
    /// The object's `type`, when it is a string.
    pub card_type: Option<String>,
    /// The object has a `body` member.
    pub has_body: bool,
    /// The object has an `actions` member.
    pub has_actions: bool,
    /// `greentic.cardId`, when `greentic` is an object and `cardId` a string in it.
    pub metadata_card_id: Option<String>,
}

/// What the extraction rules read of a JSON document, as plain values.
pub struct CardFactsView {
    pub is_object: bool,
    pub card_type: Option<Seq<char>>,
    pub has_body: bool,
    pub has_actions: bool,
    pub metadata_card_id: Option<Seq<char>>,
}

impl View for CardFacts {
    type V = CardFactsView;

    open spec fn view(&self) -> CardFactsView {
        CardFactsView {
            is_object: self.is_object,
            card_type: opt_text(self.card_type),
            has_body: self.has_body,
            has_actions: self.has_actions,
            metadata_card_id: opt_text(self.metadata_card_id),
        }
    }
}

/// A document is an Adaptive Card when it is an object whose `type` is
/// `AdaptiveCard`, or that has a `body` or `actions` member.
pub open spec fn adaptive_card_view(facts: CardFactsView) -> bool {
    facts.is_object && (facts.card_type == Some("AdaptiveCard"@) || facts.has_body || facts.has_actions)
}

/// A document is an Adaptive Card when it is an object whose `type` is
/// `AdaptiveCard`, or that has a `body` or `actions` member.
pub open spec fn adaptive_card(facts: CardFacts) -> bool {
    adaptive_card_view(facts@)
}

/// Whether the document is an Adaptive Card.
pub fn is_adaptive_card(facts: &CardFacts) -> (r: bool)
    ensures
        r == adaptive_card(*facts),
{
    if !facts.is_object {
        return false;
    }
    let typed = match &facts.card_type {
        Some(t) => str_eq(t.as_str(), "AdaptiveCard"),
        None => false,
    };
    typed || facts.has_body || facts.has_actions
}

/// The message when a card has neither metadata nor a usable file name.
pub open spec fn no_card_id_message(shown_path: Seq<char>) -> Seq<char> {
    "cannot determine card ID for "@ + shown_path
}

/// The card's identifier: `greentic.cardId` if present, else the file stem
/// (relative to the cards directory), made fit for a key.
pub fn determine_card_id(facts: &CardFacts, file_stem: Option<&str>, shown_path: &str) -> (r: Result<String, String>)
    ensures
        match facts.metadata_card_id {
            Some(id) => r matches Ok(k) && k@ == sanitized_key_part(id@),
            None => match file_stem {
                Some(stem) => r matches Ok(k) && k@ == sanitized_key_part(stem@),
                None => r matches Err(m) && m@ == no_card_id_message(shown_path@),
            },
        },
{
    match &facts.metadata_card_id {
        Some(id) => Ok(sanitize_key_part(id.as_str())),
        None => match file_stem {
            Some(stem) => Ok(sanitize_key_part(stem)),
            None => {
                let mut m = "cannot determine card ID for ".to_string();
                push_str(&mut m, shown_path);
                Err(m)
            },
        },
    }
}

/// The key prefix of a card's strings: the configured prefix and the card
/// id joined by `.`, or the card id alone when no prefix is configured.
pub open spec fn card_prefix(prefix: Seq<char>, card_id: Seq<char>) -> Seq<char> {
    if prefix.len() == 0 {
        card_id
    } else {
        prefix + "."@ + card_id
    }
}

/// The key prefix of a card's strings.
pub fn card_key_prefix(prefix: &str, card_id: &str) -> (r: String)
    ensures
        r@ == card_prefix(prefix@, card_id@),
{
    if prefix.unicode_len() == 0 {
        return card_id.to_string();
    }
    let mut r = prefix.to_string();
    push_str(&mut r, ".");
    push_str(&mut r, card_id);
    r
}

/// The locales a bundle manifest lists: `en` and the given ones, ascending,
/// each once.
pub fn manifest_locales(locales: &[String]) -> (r: Vec<String>)
    ensures
        strictly_ascending(strings_view(r@)),
        forall|x: Seq<char>|
            strings_view(r@).contains(x) <==> (x == "en"@ || strings_view(locales@).contains(x)),
{
    let mut all: Vec<String> = Vec::new();
    all.push("en".to_string());
    let mut i: usize = 0;
    while i < locales.len()
        invariant
            i <= locales@.len(),
            strings_view(all@) == seq!["en"@] + strings_view(locales@).take(i as int),
        decreases locales@.len() - i,
    {
        let ghost before = all@;
        all.push(locales[i].clone());
        assert(strings_view(locales@).take(i + 1) =~= strings_view(locales@).take(i as int).push(locales@[i as int]@));
        assert(strings_view(all@) =~= strings_view(before).push(locales@[i as int]@));
        i = i + 1;
    }
    assert(strings_view(locales@).take(locales@.len() as int) =~= strings_view(locales@));
    let r = ascending_unique(&all);
    proof {
        let v = strings_view(all@);
        assert forall|x: Seq<char>| v.contains(x) <==> (x == "en"@ || strings_view(locales@).contains(x)) by {
            if x == "en"@ {
                assert(v[0] == x);
            }
            if strings_view(locales@).contains(x) {
                let j = choose|j: int| 0 <= j < locales@.len() && strings_view(locales@)[j] == x;
                assert(v[j + 1] == x);
            }
            if v.contains(x) {
                let j = choose|j: int| 0 <= j < v.len() && v[j] == x;
                if j > 0 {
                    assert(strings_view(locales@)[j - 1] == x);
                }
            }
        }
    }
    r
}


/// A translatable string found in a card.
#[derive(Debug)]
pub struct ExtractedString {
    /// The bundle key.
    pub key: String,
    /// The English text.
    pub value: String,
    /// The card file it came from.
    pub source_file: PathBuf,
    /// Where in the card document it stands.
    pub json_path: String,
}

/// The text a bundle holds under `key` after the strings: that of the last
/// string with this key.
pub open spec fn bundle_entry(strings: Seq<ExtractedString>, key: Seq<char>) -> Option<String>
    decreases strings.len(),
{
    if strings.len() == 0 {
        None
    } else if strings.last().key@ == key {
        Some(strings.last().value)
    } else {
        bundle_entry(strings.drop_last(), key)
    }
}

/// The bundle of extracted strings: each key with the text of its last
/// occurrence.
pub fn bundle_map(strings: &[ExtractedString]) -> (m: JsonMap)
    ensures
        m.wf(),
        forall|k: Seq<char>| #[trigger] m.spec_get(k) == bundle_entry(strings@, k),
{
    let mut m = JsonMap::new();
    let mut i: usize = 0;
    while i < strings.len()
        invariant
            i <= strings@.len(),
            m.wf(),
            forall|k: Seq<char>| #[trigger] m.spec_get(k) == bundle_entry(strings@.take(i as int), k),
        decreases strings@.len() - i,
    {
        m.insert(strings[i].key.clone(), strings[i].value.clone());
        assert(strings@.take(i + 1).drop_last() =~= strings@.take(i as int));
        assert(strings@.take(i + 1).last() == strings@[i as int]);
        i = i + 1;
    }
    assert(strings@.take(strings@.len() as int) =~= strings@);
    m
}

/// Settings of a card extraction run.
#[derive(Debug)]
pub struct ExtractConfig {
    /// Directory holding the Adaptive Card JSON files.
    pub cards_dir: PathBuf,
    /// The bundle file to write.
    pub output: PathBuf,
    /// Key prefix (for example `card`).
    pub prefix: String,
    /// Skip strings that already hold `$t()` patterns.
    pub skip_i18n_patterns: bool,
}

/// A card file as the extraction rules read it.
#[derive(Debug)]
pub enum CardDocument {
    /// Not JSON; the parser's error text.
    Invalid(String),
    /// JSON, with what the rules read of it.
    Parsed(CardFacts),
}

/// A card file as plain values.
pub enum CardDocumentView {
    Invalid(Seq<char>),
    Parsed(CardFactsView),
}

impl View for CardDocument {
    type V = CardDocumentView;

    open spec fn view(&self) -> CardDocumentView {
        match self {
            CardDocument::Invalid(e) => CardDocumentView::Invalid(e@),
            CardDocument::Parsed(f) => CardDocumentView::Parsed(f@),
        }
    }
}

/// What `serde_json::from_str` makes of a card file's text, read as a
/// `CardDocument`.
pub uninterp spec fn card_document(raw: Seq<char>) -> CardDocumentView;

/// Trusted: `serde_json::from_str` into a `serde_json::Value`, then
/// `Value::is_object`, `Value::get`, `Value::as_object` and `Value::as_str`
/// to read the members the rules look at. The result is `card_document` of
/// the text; nothing more is stated of JSON syntax.
#[verifier::external_body]
pub(crate) fn parse_card_document(raw: &str) -> (d: CardDocument)
    ensures
        d@ == card_document(raw@),
{
    match serde_json::from_str::<serde_json::Value>(raw) {
        Err(e) => CardDocument::Invalid(e.to_string()),
        Ok(v) => CardDocument::Parsed(CardFacts {
            is_object: v.is_object(),
            card_type: v.get("type").and_then(|t| t.as_str()).map(|t| t.to_string()),
            has_body: v.get("body").is_some(),
            has_actions: v.get("actions").is_some(),
            metadata_card_id: v.get("greentic").and_then(|g| g.as_object()).and_then(|g| g.get("cardId"))
                .and_then(|c| c.as_str()).map(|c| c.to_string()),
        }),
    }
}

/// The message when a card file is not JSON.
pub open spec fn invalid_card_message(shown_path: Seq<char>) -> Seq<char> {
    "invalid JSON in "@ + shown_path
}

/// What a card file yields: the key prefix of its strings when it is an
/// Adaptive Card, `None` when it is JSON but no card, or why it cannot be
/// used.
pub open spec fn card_prefix_result(
    doc: CardDocumentView,
    file_stem: Option<Seq<char>>,
    shown_path: Seq<char>,
    prefix: Seq<char>,
) -> Result<Option<Seq<char>>, Seq<char>> {
    match doc {
        CardDocumentView::Invalid(_) => Err(invalid_card_message(shown_path)),
        CardDocumentView::Parsed(facts) => if !adaptive_card_view(facts) {
            Ok(None)
        } else {
            match facts.metadata_card_id {
                Some(id) => Ok(Some(card_prefix(prefix, sanitized_key_part(id)))),
                None => match file_stem {
                    Some(stem) => Ok(Some(card_prefix(prefix, sanitized_key_part(stem)))),
                    None => Err(no_card_id_message(shown_path)),
                },
            }
        },
    }
}

/// Options given by reference, as plain values.
pub open spec fn opt_str(o: Option<&str>) -> Option<Seq<char>> {
    match o {
        Some(s) => Some(s@),
        None => None,
    }
}

/// Reads one card file: the key prefix of its strings (the configured prefix
/// and the card id), `None` for JSON that is no Adaptive Card, or an error
/// for text that is not JSON or a card without an id.
pub fn card_prefix_for(raw: &str, file_stem: Option<&str>, shown_path: &str, prefix: &str) -> (r: Result<
    Option<String>,
    String,
>)
    ensures
        match card_prefix_result(card_document(raw@), opt_str(file_stem), shown_path@, prefix@) {
            Ok(Some(p)) => r matches Ok(Some(s)) && s@ == p,
            Ok(None) => r matches Ok(None),
            Err(e) => r matches Err(m) && m@ == e,
        },
{
    match parse_card_document(raw) {
        CardDocument::Invalid(_) => {
            let mut m = "invalid JSON in ".to_string();
            push_str(&mut m, shown_path);
            Err(m)
        },
        CardDocument::Parsed(facts) => {
            if !is_adaptive_card(&facts) {
                return Ok(None);
            }
            match determine_card_id(&facts, file_stem, shown_path) {
                Ok(card_id) => Ok(Some(card_key_prefix(prefix, card_id.as_str()))),
                Err(m) => Err(m),
            }
        },
    }
}

/// One argument of the translator's command line: text, or a file path
/// passed as it is.
#[derive(Debug)]
pub enum TranslatorArg {
    Text(String),
    File(PathBuf),
}

/// A command-line argument, its text taken as characters.
pub enum TranslatorArgView {
    Text(Seq<char>),
    File(PathBuf),
}

impl View for TranslatorArg {
    type V = TranslatorArgView;

    open spec fn view(&self) -> TranslatorArgView {
        match self {
            TranslatorArg::Text(t) => TranslatorArgView::Text(t@),
            TranslatorArg::File(p) => TranslatorArgView::File(*p),
        }
    }
}

/// The translator's arguments for one language:
/// `translate --langs <lang> --en <bundle> [--glossary <file>] --auth-mode auto`.
pub open spec fn translator_command(lang: Seq<char>, en_bundle: PathBuf, glossary: Option<PathBuf>) -> Seq<TranslatorArgView> {
    seq![
        TranslatorArgView::Text("translate"@),
        TranslatorArgView::Text("--langs"@),
        TranslatorArgView::Text(lang),
        TranslatorArgView::Text("--en"@),
        TranslatorArgView::File(en_bundle),
    ] + match glossary {
        Some(g) => seq![TranslatorArgView::Text("--glossary"@), TranslatorArgView::File(g)],
        None => Seq::empty(),
    } + seq![TranslatorArgView::Text("--auth-mode"@), TranslatorArgView::Text("auto"@)]
}

/// The arguments that run the translator for `lang` on the English bundle,
/// with the glossary when there is one.
pub fn translator_args(lang: &str, en_bundle: PathBuf, glossary: Option<PathBuf>) -> (r: Vec<TranslatorArg>)
    ensures
        r@.map_values(|a: TranslatorArg| a@) == translator_command(lang@, en_bundle, glossary),
{
    let ghost en_spec = en_bundle;
    let ghost glossary_spec = glossary;
    let mut args: Vec<TranslatorArg> = Vec::new();
    args.push(TranslatorArg::Text("translate".to_string()));
    args.push(TranslatorArg::Text("--langs".to_string()));
    args.push(TranslatorArg::Text(lang.to_string()));
    args.push(TranslatorArg::Text("--en".to_string()));
    args.push(TranslatorArg::File(en_bundle));
    match glossary {
        Some(g) => {
            args.push(TranslatorArg::Text("--glossary".to_string()));
            args.push(TranslatorArg::File(g));
        },
        None => {},
    }
    args.push(TranslatorArg::Text("--auth-mode".to_string()));
    args.push(TranslatorArg::Text("auto".to_string()));
    assert(args@.map_values(|a: TranslatorArg| a@) =~= translator_command(lang@, en_spec, glossary_spec));
    args
}

} // verus!
