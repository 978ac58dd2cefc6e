//! Output processors: consumers that normalize and deliver log lines.

pub mod elasticsearch;
