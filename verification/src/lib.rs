//! Core of a screen-streaming pipeline: capture-session lifecycle, GPU
//! staging-view bookkeeping, hardware-encoder frame pooling and timestamp
//! derivation, pacing-loop control, and the peer-session negotiation state
//! machine, together with the signaling wire codec.

use vstd::prelude::*;

pub mod capture;
pub mod display;
pub mod encoder;
pub mod negotiation;
pub mod pacing;
pub mod signal;
pub mod staging;
pub mod wire;

verus! {

/// Fault taxonomy of the pipeline: every fatal condition of a stage is one of
/// these, and each aborts the owning stage.
#[derive(Clone, Copy, PartialEq, Eq, Structural, Debug)]
pub enum Fault {
    /// Compositor or capture-device error.
    Capture,
    /// Copy or map error while staging a frame for CPU access.
    Readback,
    /// Encoder push or drain error.
    Encode,
    /// Delivery error from the active sink.
    Sink,
    /// Malformed or out-of-state signaling message.
    Signaling,
}

} // verus!
