//! Inventory of installed software resolved to upstream open-source projects.
//!
//! The library normalizes package homepage URLs into grouping keys, clusters
//! packages into upstream-project groups (with a one-hop ancestor merge for
//! sibling projects), fuses metadata contributed by enrichment backends under
//! first-writer-wins rules, and models a time-boxed enrichment cache. The
//! per-package-manager parsers work on the plain text their tools emit; the
//! commands, files and network calls themselves live outside the library.

pub mod cache;
pub mod config;
pub mod contribute;
pub mod discover;
pub mod enrich;
pub mod project;
pub mod report;
pub mod strutil;
