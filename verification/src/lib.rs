//! Verified core of the yoik download front end: URL classification, magnet
//! link construction, size labels, search-result filtering and ordering,
//! staging paths, stderr tails and the download plan for a submitted form.

pub mod text;
pub mod classify;
pub mod magnet;
pub mod size;
pub mod search;
pub mod staging;
pub mod stderr;
pub mod plan;
pub mod jobs;
