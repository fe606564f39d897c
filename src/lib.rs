//! Input preparation and timing bookkeeping for benchmarking an image
//! classifier under an inference engine.
//!
//! The library turns encoded image bytes into the channel-first sample
//! layout that the model consumes, and keeps the per-image timing tally of a
//! benchmark run as a state machine driven by the caller.

pub mod layout;
pub mod bitmap;
pub mod preprocess;
pub mod harness;
