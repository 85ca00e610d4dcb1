//! The cache of assets on disk.
//!
//! An asset is kept under the name of its file id and revision. While it is downloaded it has a name
//! of its own; only when it is complete does it get its final name.

pub mod cleanup;
pub mod download;
pub mod fsutil;
pub mod store;

pub use cleanup::CacheCleanupResult;
pub use store::AssetStore;
