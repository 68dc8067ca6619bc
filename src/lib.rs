//! Batch ingestion of tabular node and edge extracts into a property-graph
//! store: label reconciliation, value encoding, statement building and the
//! per-file load state machine, each with its contract proved.

pub mod text;
pub mod encode;
pub mod labels;
pub mod records;
pub mod batch;
pub mod engine;
pub mod schema;
