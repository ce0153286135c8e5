//! Batch validation of postal addresses against a geocoding lookup
//! service: records are read from a tab-separated table, one confidence
//! query per record is interpreted into a verdict, and every record is
//! re-emitted verbatim with one extra boolean column.
//!
//! The pipeline is a pure function of the data rows, the row-count limit
//! and the response bodies the service gave back; everything that touches
//! the outside world — files, the network, the clock — stays with the
//! caller, which feeds plain bytes in and writes plain bytes out.

pub mod driver;
pub mod output_name;
pub mod progress;
pub mod query;
pub mod record;
pub mod score;
pub mod split;
