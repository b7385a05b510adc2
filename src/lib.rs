//! Analysis of HTTP Archive (HAR) captures: a typed document model, a
//! filtered and sorted overview of every entry, and extraction of request
//! and response bodies with optional expansion of nested private data.

pub mod body;
pub mod json;
pub mod listing;
pub mod model;
pub mod overview;
pub mod privacy;
pub mod text;
pub mod urls;
