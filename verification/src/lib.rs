//! A small course-catalog query library.
//!
//! The backing store holds raw documents: lists of named fields whose values
//! may or may not have the shape a `Course` record needs.  The library
//! implements the whole read path over such documents: apply an equality
//! filter, group the surviving documents by their `cid` field, collect each
//! group's `taught_by` entries as a deduplicated set, and decode each group
//! into a `Course` record, silently dropping groups that do not decode.
//!
//! Fetching the documents from the store, HTTP routing and JSON transport
//! live outside the library; they hand plain values in and take plain
//! values back.

pub mod laws;
pub mod model;
pub mod query;

pub use model::Filter;
pub use model::RawDoc;
pub use model::Value;
pub use query::Course;
pub use query::fetch_courses;
