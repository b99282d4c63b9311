//! A dense-matrix multiplication engine built around per-cell dot-product
//! tasks: an orchestrator decomposes a product into one task per output
//! cell, each task is a row/column dot product, and the results are
//! reassembled into the output matrix by their carried indices.
//!
//! The `metrics` module holds two independent counter tables that
//! deployments of the engine use for bookkeeping; the engine itself
//! does not depend on them.

pub mod error;
pub mod matrix;
pub mod metrics;
pub mod text;
pub mod vector;

pub use error::MatrixError;
pub use matrix::assemble;
pub use matrix::multiply;
pub use matrix::process_task;
pub use matrix::Matrix;
pub use matrix::MsgInput;
pub use matrix::MsgOutput;
pub use metrics::amap::AmapMetrics;
pub use metrics::Metrics;
pub use metrics::MetricsError;
pub use vector::dot_product;
pub use vector::Vector;
