//! Locations of the translation files under a repository root.
use vstd::prelude::*;
use std::path::{Path, PathBuf};
use crate::text::push_str;

verus! {

/// Borrowed filesystem paths, carried through unchanged.
#[verifier::external_type_specification]
#[verifier::external_body]
pub struct ExPath(Path);

/// Owned filesystem paths, carried through unchanged.
#[verifier::external_type_specification]
#[verifier::external_body]
pub struct ExPathBuf(PathBuf);

/// The text of a borrowed path, as `Path::display` and
/// `Path::to_string_lossy` render it.
pub uninterp spec fn path_text(p: &Path) -> Seq<char>;

/// The text of an owned path, as `Path::display` and
/// `Path::to_string_lossy` render it.
pub uninterp spec fn owned_path_text(p: PathBuf) -> Seq<char>;

/// The text of `Path::join` of a path with the text `base` and the relative
/// or absolute path `part` (separator rules are the platform's).
pub uninterp spec fn joined_path_text(base: Seq<char>, part: Seq<char>) -> Seq<char>;

/// The text of `Path::parent` of a path with the text `p`; `None` when the
/// path ends in a root or prefix, or is empty.
pub uninterp spec fn parent_path_text(p: Seq<char>) -> Option<Seq<char>>;

/// Trusted: `Path::join`. The result's text is `joined_path_text` of the
/// base's text and the part; nothing more is stated of separators.
#[verifier::external_body]
pub(crate) fn path_join(base: &Path, part: &str) -> (r: PathBuf)
    ensures
        owned_path_text(r) == joined_path_text(path_text(base), part@),
{
    base.join(part)
}

/// Trusted: `PathBuf::as_path`, the borrowed form of an owned path, with the
/// same text.
#[verifier::external_body]
pub(crate) fn as_path(path: &PathBuf) -> (r: &Path)
    ensures
        path_text(r) == owned_path_text(*path),
{
    path.as_path()
}

/// Trusted: `Path::parent`, the path without its last component. Whether
/// there is one, and its text, are `parent_path_text` of the path's text.
#[verifier::external_body]
pub(crate) fn path_parent(path: &Path) -> (r: Option<&Path>)
    ensures
        match r {
            Some(q) => parent_path_text(path_text(path)) == Some(path_text(q)),
            None => parent_path_text(path_text(path)) is None,
        },
{
    path.parent()
}

/// Trusted: `Path::display` rendered to a string: the path's text.
#[verifier::external_body]
pub(crate) fn path_display(path: &Path) -> (r: String)
    ensures
        r@ == path_text(path),
{
    path.display().to_string()
}

/// Trusted: `PathBuf::from` of a string: the path holds the string's
/// characters unchanged, so its text is the string.
#[verifier::external_body]
pub(crate) fn path_from(text: &str) -> (r: PathBuf)
    ensures
        owned_path_text(r) == text@,
{
    PathBuf::from(text)
}

/// The file name of a language's translation file: the code and `.json`.
pub open spec fn lang_file_name(lang: Seq<char>) -> Seq<char> {
    lang + ".json"@
}

/// `<lang>.json`.
pub fn lang_file(lang: &str) -> (name: String)
    ensures
        name@ == lang_file_name(lang@),
{
    let mut name = lang.to_string();
    push_str(&mut name, ".json");
    name
}

/// The text of the `i18n` directory under a repository root with text `root`.
pub open spec fn i18n_dir_text(root: Seq<char>) -> Seq<char> {
    joined_path_text(root, "i18n"@)
}

/// The `i18n` directory under the repository root.
pub fn default_i18n_dir(repo_root: &Path) -> (r: PathBuf)
    ensures
        owned_path_text(r) == i18n_dir_text(path_text(repo_root)),
{
    path_join(repo_root, "i18n")
}

/// The English source file, `i18n/en.json` under the repository root.
pub fn en_json(repo_root: &Path) -> (r: PathBuf)
    ensures
        owned_path_text(r) == joined_path_text(i18n_dir_text(path_text(repo_root)), "en.json"@),
{
    let dir = default_i18n_dir(repo_root);
    path_join(as_path(&dir), "en.json")
}

/// A language's file, `i18n/<lang>.json` under the repository root.
pub fn lang_json(repo_root: &Path, lang: &str) -> (r: PathBuf)
    ensures
        owned_path_text(r) == joined_path_text(i18n_dir_text(path_text(repo_root)), lang_file_name(lang@)),
{
    let dir = default_i18n_dir(repo_root);
    let name = lang_file(lang);
    path_join(as_path(&dir), name.as_str())
}

} // verus!
