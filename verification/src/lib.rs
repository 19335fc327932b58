//! Core of a software "plasma" renderer.
//!
//! The crate verifies the integer heart of the effect: the capped rolling
//! statistics windows, the degree/index reduction for the lookup tables, the
//! color-to-pixel derivation with its deliberate wraparound, the bottom-up
//! placement of strips into the frame, and the partition of a frame into
//! disjoint strips.  The driver around the crate owns the floating-point wave
//! evaluation, the threads and the presentation surface.

pub mod dispatch;
pub mod engine;
pub mod lookup;
pub mod stats;
