//! Dependency update resolution: version-range matching, a TTL cache of
//! registry answers, and the steps that turn both into update records.

pub mod cache;
pub mod types;
pub mod version;
pub mod registry;
pub mod resolver;
pub mod semver_utils;
pub mod target;
