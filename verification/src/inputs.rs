//! Input processors: producers of serialized log lines.

pub mod random;
