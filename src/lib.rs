//! Ingestion of OpenTelemetry export requests: routing, body accumulation,
//! protobuf decoding, attribute canonicalization and log-row projection.

pub mod proto;
pub mod render;
pub mod canonical;
pub mod project;
pub mod ingest;
