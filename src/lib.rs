//! Streaming ingestion of a sensor-network testbed's telemetry: line
//! reassembly across chunk boundaries, per-node header discovery on the serial
//! stream, routing of tagged records to typed rows, and the server stream's
//! delivery records.
pub mod fields;
pub mod lines;
pub mod records;
pub mod serial;
pub mod server;
