//! A query-plan rewrite pass for a log-search engine, together with the wire
//! codec for buffered ingestion entries.
//!
//! The engine exposes a full-text "contains" predicate (`match_all` and its
//! raw variants) that its storage layer cannot execute directly.  At query
//! planning time the [`rewrite::RewriteMatch`] rule replaces each such call,
//! found inside a filter node, by a disjunction of per-field substring
//! comparisons over the fields registered for the filter's table.
//!
//! The [`entry`] module gives the binary envelope in which ingestion requests
//! are buffered and retried, with an exact specification of the encoding.

pub mod entry;
pub mod expr;
pub mod plan;
pub mod rewrite;
