//! An append-only archive of relay events.
//!
//! Events are admitted by a chain of policies, deduplicated against a
//! persistent index and appended, one JSON line each, to the archive file of
//! the current UTC day; the file of a day that has ended is compressed. The
//! same listener that takes events serves the archive files and a listing page.
//!
//! The library decides and the caller acts: whatever touches a file, a socket
//! or the clock is handed in as a plain value, and what is to be done comes back
//! as a plan. Every decision carries a contract that is proved.
//!
//! - [`policy`]: the admission policies and their chain
//! - [`index`]: the deduplication index
//! - [`writer`]: the rotating writer
//! - [`compactor`]: the compaction of a closed file
//! - [`db`]: the ingest coordinator and the archive directory
//! - [`http`]: the dispatch of requests, the responses and the listing page
//! - [`listing`], [`names`], [`numbers`], [`text`]: order, names, numbers and
//!   text as the others need them
use vstd::prelude::*;

pub mod compactor;
pub mod db;
pub mod event;
pub mod http;
pub mod index;
pub mod listing;
pub mod names;
pub mod numbers;
pub mod policy;
pub mod text;
pub mod writer;
