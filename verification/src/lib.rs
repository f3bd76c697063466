//! Per-lap summaries of a fitness-activity export: a typed document model
//! with lenient decoding, flattening into sparse (timestamp, value) series,
//! and a duration-weighted averaging engine.

pub mod flatten;
pub mod parse;
pub mod report;
pub mod series;
pub mod timestamp;
