//! The on-disk translation cache: where it lives and how entries are keyed.
//! Reading and writing the entry files is left to the caller.
use vstd::prelude::*;
use std::path::PathBuf;
use crate::state::{hash_text, text_hash};
use crate::text::push_str;
use crate::paths::{as_path, owned_path_text, joined_path_text, path_from, path_join};

verus! {

/// The text a cache key hashes: language, English text, glossary version and
/// rules version, one per line.
pub open spec fn cache_seed(
    lang: Seq<char>,
    english: Seq<char>,
    glossary_version: Seq<char>,
    rules_version: Seq<char>,
) -> Seq<char> {
    lang + "\n"@ + english + "\n"@ + glossary_version + "\n"@ + rules_version
}

/// The cache key of a translation request.
pub open spec fn cache_key_of(
    lang: Seq<char>,
    english: Seq<char>,
    glossary_version: Seq<char>,
    rules_version: Seq<char>,
) -> Seq<char> {
    text_hash(cache_seed(lang, english, glossary_version, rules_version))
}

/// File name of a cache entry: its key and `.json`.
pub open spec fn entry_file_name(key: Seq<char>) -> Seq<char> {
    key + ".json"@
}

/// A directory of cached translations, one JSON file per key.
#[derive(Debug)]
pub struct CacheStore {
    dir: PathBuf,
}

impl CacheStore {
    /// The cache directory.
    pub closed spec fn spec_dir(&self) -> PathBuf {
        self.dir
    }

    /// A cache kept in `dir`.
    pub fn new(dir: PathBuf) -> (s: Self)
        ensures
            s.spec_dir() == dir,
    {
        CacheStore { dir }
    }

    /// The cache directory.
    pub fn dir(&self) -> (d: &PathBuf)
        ensures
            *d == self.spec_dir(),
    {
        &self.dir
    }

    /// The key under which a translation is cached: the hash of the request's
    /// language, English text, glossary version and rules version.
    pub fn cache_key(lang: &str, english_text: &str, glossary_version: &str, rules_version: &str) -> (k: String)
        ensures
            k@ == cache_key_of(lang@, english_text@, glossary_version@, rules_version@),
            k@.len() == 64,
    {
        let mut seed = lang.to_string();
        push_str(&mut seed, "\n");
        push_str(&mut seed, english_text);
        push_str(&mut seed, "\n");
        push_str(&mut seed, glossary_version);
        push_str(&mut seed, "\n");
        push_str(&mut seed, rules_version);
        hash_text(seed.as_str())
    }

    /// The cache directory chosen from the environment outside Windows and
    /// macOS: `$XDG_CACHE_HOME/greentic/i18n-translator` when `xdg` is set,
    /// else `$HOME/.cache/greentic/i18n-translator` when `home` is set, else
    /// `.i18n/cache`.
    pub fn dir_from_env(xdg: Option<&str>, home: Option<&str>) -> (r: PathBuf)
        ensures
            owned_path_text(r) == match xdg {
                Some(x) => joined_path_text(joined_path_text(x@, "greentic"@), "i18n-translator"@),
                None => match home {
                    Some(h) => joined_path_text(
                        joined_path_text(joined_path_text(h@, ".cache"@), "greentic"@),
                        "i18n-translator"@,
                    ),
                    None => ".i18n/cache"@,
                },
            },
    {
        match xdg {
            Some(x) => {
                let base = path_from(x);
                let dir = path_join(as_path(&base), "greentic");
                path_join(as_path(&dir), "i18n-translator")
            },
            None => match home {
                Some(h) => {
                    let base = path_from(h);
                    let hidden = path_join(as_path(&base), ".cache");
                    let dir = path_join(as_path(&hidden), "greentic");
                    path_join(as_path(&dir), "i18n-translator")
                },
                None => path_from(".i18n/cache"),
            },
        }
    }

    /// The file of the entry stored under `key`, in the cache directory.
    pub fn entry_path(&self, key: &str) -> (r: PathBuf)
        ensures
            owned_path_text(r) == joined_path_text(owned_path_text(self.spec_dir()), entry_file_name(key@)),
    {
        let name = CacheStore::entry_file(key);
        crate::paths::path_join(as_path(&self.dir), name.as_str())
    }

    /// The file name of the entry stored under `key`.
    pub fn entry_file(key: &str) -> (name: String)
        ensures
            name@ == entry_file_name(key@),
    {
        let mut name = key.to_string();
        push_str(&mut name, ".json");
        name
    }
}

} // verus!
