//! Acquisition and closure logic of a personal-archive crawler for a feed API:
//! listing pagination, envelope validation, reference extraction, bounded
//! breadth-first closure over cross-references, and the archive layout.

pub mod archive;
pub mod error;
pub mod json;
pub mod crawl;
pub mod listing;
pub mod refs;
pub mod response;
pub mod text;
