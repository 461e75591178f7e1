//! Ambient-noise reporting: raw sensor readings are normalised to one-byte
//! noise metrics, gathered into one-second windows, and each window is reduced
//! to the average of its loudest five percent.
//!
//! The library decides and computes; it reads no sensor and no clock and
//! sends nothing. Its caller runs the loops, hands it readings and times, and
//! carries out what it answers.
//!
//! - [`metric`]: from a raw reading to a noise metric.
//! - [`percentile`]: the top-percentile average, stated over multisets.
//! - [`heap`]: the max-heap the window is kept in.
//! - [`window`]: the metrics of one window and their reduction.
//! - [`aggregator`]: windows in time: when one closes and what it reports.
//! - [`sampler`]: pacing of the sampling loop.
//! - [`led`], [`connect`], [`credentials`]: bringing the network up.
//! - [`datagram`]: where and how a result is sent.

pub mod aggregator;
pub mod connect;
pub mod credentials;
pub mod datagram;
pub mod heap;
pub mod led;
pub mod metric;
pub mod percentile;
pub mod sampler;
pub mod window;
