//! Video frame filters.

pub mod crop;
pub mod scale;
