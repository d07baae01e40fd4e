//! Indexing and fuzzy search over a directory tree, and the small terminal
//! indicator shown while a scan runs.

pub mod loading_animation;
pub mod matcher;
pub mod order;
pub mod search;
pub mod search_results;
pub mod style;
pub mod text;
pub mod worker;
