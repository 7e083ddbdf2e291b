//! Content indexing for a personal site: records loaded from structured files,
//! sorted by date and indexed by permalink, tag and year.

pub mod buckets;
pub mod date;
pub mod entry;
pub mod loader;
pub mod nav;
pub mod order;
pub mod scan;
pub mod slug;
pub mod text;

pub use date::Timestamp;
pub use entry::Entry;
pub use loader::EntryLoader;
pub use nav::Nav;
