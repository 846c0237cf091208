//! Greentic localization core: locale-tag canonicalization, profile
//! resolution, canonical CBOR and profile identifiers, a bounded profile
//! cache, and the translation-workflow rules (validation, staleness and
//! state bookkeeping).
pub mod text;
pub mod id;
pub mod tag;
pub mod cbor;
pub mod cbor_facts;
pub mod profile;
pub mod resolver;
pub mod cache;
pub mod json_map;
pub mod validate;
pub mod state;
pub mod paths;
pub mod json_text;
pub mod workflow;
pub mod store;
pub mod session;
pub mod codex;
pub mod cards;
pub mod help;
pub mod commands;
pub mod tag_facts;
pub mod laws;
