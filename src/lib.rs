//! Checks whether a newer release of a package exists, with a version
//! ordering that understands pre-release tags and a time-bounded cache of
//! earlier answers.

pub mod cache;
pub mod checker;
pub mod outcome;
pub mod version;

pub use cache::{CacheEntry, CacheRecord, ResultCache};
pub use checker::{CheckStep, UpdateChecker, VersionInfo};
pub use outcome::{date_style, DateStyle, UpdateResult};
pub use version::{parse_version, standard_release};
