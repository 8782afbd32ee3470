//! Dependency freshness: for each dependency of a package manifest, how far the
//! requested version lags behind what the package registry offers.

pub mod error;
pub mod semver;
pub mod npm;
pub mod types;
pub mod order;
pub mod resolver;
pub mod batch;
pub mod manifest;
