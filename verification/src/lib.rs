//! Decoding of S7 telemetry records and day-wise rotation of the log files
//! they are written to.

pub mod byte_stream;
pub mod calendar;
pub mod config;
pub mod file_logger;
pub mod record_decoder;
pub mod s7_log_record;
pub mod s7_types;
