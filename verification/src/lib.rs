//! Aggregation and decoding of kernel telemetry: fixed-layout counter
//! records, namespace-change events, a code-to-name catalog, ranked
//! per-syscall reports and sampled I/O series.

pub mod aggregate;
pub mod catalog;
pub mod event;
pub mod flags;
pub mod options;
pub mod record;
pub mod report;
pub mod resolver;
pub mod sampler;
pub mod stream;
pub mod table;
pub mod text;
pub mod wire;
