//! Commit classification, link extraction, identity resolution and release
//! assembly for changelog generation.

pub mod error;
pub mod text;
pub mod pattern;
pub mod config;
pub mod commit;
pub mod preprocess;
pub mod release;
pub mod github;
pub mod template;
