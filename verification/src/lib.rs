//! Exam listings for university courses, gathered from two upstream sources,
//! merged by source priority and cached.
//!
//! The crate holds the rules of that pipeline: the record model and its
//! parsers, the two source adapters' parsing, the merge of their results and
//! the cache-aside protocol. Network and store traffic is left to the caller,
//! which hands in the text it received and carries out the actions it is
//! given.

pub mod cache;
pub mod error;
pub mod exam;
pub mod pattern;
pub mod scraper;
pub mod text;
