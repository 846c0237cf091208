//! The translator's command line, as parsed values.
use vstd::prelude::*;
use std::path::PathBuf;
use crate::codex::CliAuthMode;

verus! {

/// A parsed command line: the requested output locale and the command.
#[derive(Debug)]
pub struct Cli {
    pub locale: Option<String>,
    pub command: Command,
}

/// The translator's commands.
#[derive(Debug)]
pub enum Command {
    /// Keys added, removed and updated in the English file between two refs.
    Diff { base: String, head: String, en: PathBuf },
    /// Check translated files against the English format invariants.
    Validate { langs: String, en: PathBuf },
    /// Report missing and stale translations.
    Status { langs: String, en: PathBuf },
    /// Generate or update translations through the provider.
    Translate {
        langs: String,
        en: PathBuf,
        auth_mode: CliAuthMode,
        codex_home: Option<PathBuf>,
        batch_size: usize,
        max_retries: usize,
        glossary: Option<PathBuf>,
        api_key_stdin: bool,
        overwrite_manual: bool,
        cache_dir: Option<PathBuf>,
    },
}

} // verus!
