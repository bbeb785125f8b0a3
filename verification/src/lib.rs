//! Digital signal processing core for AM demodulation of APT
//! weather-satellite recordings.
//!
//! The crate verifies the discrete structure of the pipeline: integer
//! GCD and rate-ratio reduction, window-length parity, the tap pattern
//! of the Hilbert design, and the index arithmetic of decimation,
//! convolution and rational resampling. The floating-point sample
//! arithmetic itself lives with the host program, which drives it from
//! the index plans and patterns proved here.

pub mod design;
pub mod err;
pub mod math;
pub mod resample;
pub mod signal;
pub mod window;
