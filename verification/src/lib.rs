//! The addressing core of a feedback delay effect.
//!
//! Ring buffers whose cursors wrap, jump and follow a delay length, the
//! delay line that a reverberation network is built from, and the ordered
//! pipeline that threads a stereo pair through its filters. Everything is
//! generic over the sample type: this crate decides where a sample is stored
//! and which one is read, never what its value means.

pub mod delay_engine;
pub mod error;
pub mod filter_pipeline;
pub mod filters;
pub mod ring;
