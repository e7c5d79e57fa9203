//! Verified core of a release tool driven by conventional commit messages:
//! it classifies raw commit messages, groups them by type, decides the
//! semantic-version bump the batch implies, and renders a changelog.

pub mod conv;
pub mod data;
pub mod format;
pub mod repo;
pub mod text;
pub mod version;
