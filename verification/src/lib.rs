//! Concurrent rendering pipeline of a stochastic ray tracer.
//!
//! The tracing itself works on floating-point samples and lives outside this
//! library; what is verified here is the discrete core of the render loop:
//! enumerating every pixel of the target image, shuffling them, partitioning
//! the shuffled sequence into per-worker slices and fixed-size batches, and
//! aggregating the traced batches into one RGBA byte buffer together with a
//! progress counter.  The central invariant is that every pixel of the image
//! is produced by exactly one worker exactly once, so no byte of the shared
//! buffer is ever written twice and the progress counter ends at exactly
//! `width * height`.

pub mod buffer;
pub mod pixel;
pub mod plan;
pub mod render;
mod rng;
