//! Demand-driven loading and path-aware navigation for hierarchical spatial
//! data.
//!
//! A [`Loader`] owns source-specific items and identity. A [`Reader`]
//! decorates a loader with typed reads. A [`Navigator`] turns a loader into
//! retainable [`Cursor`] values whose effective state is derived by the
//! format or application.

pub mod loader;
pub mod navigator;
pub mod reader;

pub use bytes::Bytes;
pub use loader::{ByteRange, Expansion, FetchRequest, FetchResponse, LoadOutcome, Loader};
pub use navigator::{Cursor, CursorExpansion, Navigator, PendingExpansion};
pub use reader::Reader;
