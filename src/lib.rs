//! Sorted merge lookup of sequence accessions in a reference table that maps
//! each accession to a taxonomic identifier and a gene identifier.
//!
//! The queries are sorted once and visited in ascending order; the table,
//! sorted by accession, is read once, row by row. Each comparison of the
//! current query with a row skips the row, reports a match, or reports the
//! query as not found.
pub mod laws;
pub mod line;
pub mod merge;
pub mod number;
pub mod order;
pub mod query;
pub mod record;

pub use line::{format_found, format_not_found};
pub use merge::{match_all, Event, Matcher};
pub use number::parse_number;
pub use order::compare;
pub use query::{parse_queries, sort_queries, split_lines};
pub use record::{parse_fields, parse_record, Record, RecordError};
