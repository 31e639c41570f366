//! Analysis of public GitHub repositories: URL validation, technology
//! detection, licence, languages, dependencies and weaknesses, quality
//! scoring, the text handed to the language model and the per-client
//! request limit.

pub mod text;
pub mod ai;
pub mod analyzer;
pub mod git;
pub mod inventory;
pub mod models;
pub mod rate_limiter;
