//! A stateful, chunk-by-chunk byte-stream transform stage and the pipeline
//! driver that runs it over an in-memory source.
//!
//! The stage ([`stage::Processor`]) lazily maps a sequence of byte-chunk
//! results into another such sequence, applying a caller-supplied transform
//! function to each chunk while threading a piece of state through successive
//! calls. The driver ([`pipeline::run_pipeline`]) feeds a recorded source
//! through the stage and collects the transformed bytes, stopping at the
//! first error.

pub mod laws;
pub mod pipeline;
pub mod stage;
