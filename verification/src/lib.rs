//! Query resolution core of a desktop quick-launcher.
//!
//! The library turns a typed query into a ranked list of actionable results,
//! drawing on several independently maintained snapshots: an index of
//! installed applications, a filesystem index, a snapshot of open windows,
//! and a usage-history store.  A calculator, a script runner with a strict
//! output contract, and an install-suggestion mode round out the providers.
//!
//! All indexes are snapshot-replaced, never patched in place; the query path
//! only reads them.  The surrounding process (I/O, watchers, process spawns)
//! lives outside this crate and hands plain values in.

pub mod config;
pub mod engine;
pub mod errors;
pub mod files;
pub mod history;
pub mod launcher;
pub mod math;
pub mod matcher;
pub mod rank;
pub mod scanner;
pub mod score;
pub mod scripts;
pub mod text;
pub mod windows;

pub use score::{usage_bonus, weighted_score};
pub use files::{rebuild, search_index};
pub use launcher::strip_field_codes;
pub use matcher::fuzzy_search;
pub use scanner::scan_desktop_entries;
