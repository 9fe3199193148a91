//! Verified core of a media-splitting tool.
//!
//! The library turns two human-authored text formats — a chapter/marker
//! list and an SRT-style subtitle file — into structured time intervals,
//! and builds the per-(file, interval) segmentation requests that an
//! external cutting service executes. All parsing, interval derivation
//! and request construction is verified; the unverified shell around the
//! library performs the actual filesystem and process work.

pub mod clock;
pub mod errors;
pub mod parser;
pub mod split_video;
pub mod text;
pub mod util;
