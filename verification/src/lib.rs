//! Translation core for an nginx-rtmp statistics exporter.
//!
//! The library turns one polled snapshot of an RTMP server's state, together
//! with a fixed per-stream metadata dictionary, into a fully determined set of
//! labeled gauge series. It owns the label-schema construction, the
//! viewer-versus-relay classification, the per-cycle reset discipline and the
//! derived aggregates; transport (HTTP, XML decoding, the text exposition
//! endpoint) lives outside.

pub mod context;
pub mod ip;
pub mod meta;
pub mod metrics;
pub mod xml;

pub use context::Context;
pub use ip::IpParsed;
pub use meta::{Format, MetaError, MetaFile};
pub use metrics::{GaugeVec, MetricContext};
