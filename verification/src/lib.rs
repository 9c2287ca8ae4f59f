//! Core logic of a local screen-history recorder: deciding which captured
//! frames are new, laying out multi-monitor captures, indexing the text of a
//! frame, validating search queries and ranking search matches.

pub mod capture;
pub mod frame;
pub mod indexing;
pub mod layout;
pub mod model;
pub mod privacy;
pub mod stats;
pub mod text;
pub mod ranking;
pub mod retention;
pub mod search;
