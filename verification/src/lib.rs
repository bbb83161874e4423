//! Musician-facing time, pitch and mixing rules for a desktop audio runtime.
//!
//! This crate holds the parts of the runtime that are decided on integers,
//! bytes and names: note-name parsing, Tone-style time strings, the bus
//! table, insert-chain limits, voice accounting, sampler key choice, WAV
//! container parsing, the mix-slot table of the callback sink, the device
//! sink's queue, the transport's lifecycle, sequence slot placement, and the
//! stdio engine's commands and payloads.

use vstd::prelude::*;

pub mod limits;
pub mod text;
pub mod pitch;
pub mod time;
pub mod bus;
pub mod insert;
pub mod instrument;
pub mod wav;
pub mod stream;
pub mod transport;
pub mod device;
pub mod engine;
pub mod event;
pub mod message;


verus! {

/// Crate version string.
pub const VERSION: &'static str = "0.1.0";

} // verus!

pub use bus::{BusError, BusId, MixDest};
pub use instrument::{Drum, Sampler, Synth};
