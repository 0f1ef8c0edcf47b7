//! Thumbnail generation and caching for a photo-gallery web site.
//!
//! The library decides which thumbnails are stale, derives thumbnail names,
//! builds the command lines for the external image tools, parses the probe
//! tool's output, plans a directory scan, and keeps the shared dimension
//! cache. All file-system access, process spawning and the watch loop live
//! in the surrounding application, which feeds this library plain values.
//!
//! Beside the gallery core, the library holds the site's signup-form
//! validation, date parsing and template form helpers. The rest of the web
//! application — HTTP routing, database access, mail delivery and their
//! data carriers — is deliberately not part of this crate.

pub mod cache;
pub mod commands;
pub mod config;
pub mod dates;
pub mod form;
pub mod forms;
pub mod listing;
pub mod media;
pub mod models;
pub mod probe;
pub mod record;
pub mod scan;
pub mod shared;
pub mod staleness;
pub mod strutil;
pub mod watcher;

pub use record::Thumb;
pub use staleness::{FileTimes, Freshness};
