//! Planning for an incremental lecture-recording pipeline: which rendition
//! to fetch, where to cut a recording at a silence, and which episodes still
//! need work.
pub mod artifacts;
pub mod error;
pub mod pipeline;
pub mod rendition;
pub mod silence;
pub mod split;
pub mod sync;
pub mod text;
