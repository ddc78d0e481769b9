//! Converts vendor XML descriptions of API subscriptions into normalized
//! YAML-ready documents grouped by control plane.
//!
//! The pipeline has three stages: parsing the XML event stream into source
//! application records, merging records that share a name (bulk flow only),
//! and projecting each record into an output document that classifies
//! environments into production and non-production blocks.

pub mod merge;
pub mod model;
pub mod parse;
pub mod pipeline;
pub mod project;
