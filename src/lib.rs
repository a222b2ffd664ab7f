//! A streaming-SQL planner: it turns a rewritten query graph of table scans,
//! projections, key extractions, windowed aggregates and sinks into a
//! logical dataflow program of operator nodes and typed edges, splitting each
//! tumbling-window aggregate into a partial and a final aggregation.

pub mod catalog;
pub mod cli;
pub mod connections;
pub mod mqtt;
pub mod planner;
pub mod program;
pub mod schema;
pub mod text;
pub mod udfs;
