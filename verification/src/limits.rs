//! Integer bounds shared by the runtime.

use vstd::prelude::*;

verus! {

/// Lowest MIDI note number.
pub const MIDI_MIN: u8 = 0;

/// Highest MIDI note number.
pub const MIDI_MAX: u8 = 127;

/// Lowest accepted tempo in beats per minute.
pub const BPM_MIN: u32 = 40;

/// Highest accepted tempo in beats per minute.
pub const BPM_MAX: u32 = 240;

/// Pulses per quarter note for the arrangement clock.
pub const DEFAULT_PPQ: u32 = 192;

/// Default PCM sample rate in Hz.
pub const DEFAULT_SAMPLE_RATE: u32 = 44100;

/// Default sink channel count (mono).
pub const DEFAULT_CHANNELS: u16 = 1;

/// Default polyphonic voice cap.
pub const DEFAULT_MAX_VOICES: u32 = 32;

/// Max playback inserts on one sink. Replacing the chain never grows in the callback.
pub const MAX_INSERTS: usize = 8;

/// Max extra named output buses on one sink (not counting implicit master).
pub const MAX_BUSES: usize = 8;

} // verus!
