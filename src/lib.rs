//! Feed aggregation core: item normalization, identity, seen-state tracking
//! and relative time phrases.

pub mod time_format;
pub mod timestamp;
pub mod item;
pub mod seen;
pub mod engine;
pub mod opml;
pub mod laws;
