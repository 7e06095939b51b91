//! Goonj — acoustics engine: the integer and byte-level core.
//!
//! This crate holds the parts of the acoustics engine whose behaviour is
//! decided on integers and bytes: error values, the xorshift generator that
//! drives stochastic synthesis, velvet-noise pulse placement, 16-bit PCM WAV
//! encoding, grid bookkeeping for the wave solvers, the image-source
//! enumerations, Ambisonics channel counts and the feedback-delay-network
//! ring buffers. Each function is proved against its contract.

pub mod ambisonics;
pub mod diffusion;
pub mod dwm;
pub mod error;
pub mod fdn;
pub mod fdtd;
pub mod gfpe;
pub mod image_source;
pub mod rng;
pub mod velvet;
pub mod wav;

pub use error::{GoonjError, Result};
