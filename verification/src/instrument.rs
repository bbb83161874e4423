//! Instrument bookkeeping: polyphony caps, drum names, the sampler's key map
//! and its nearest-key choice.
//!
//! Rendering and mixing PCM is floating-point work done by the host; what an
//! instrument decides (whether a voice may start, which drum a name means,
//! which loaded key fills a missing pitch) is decided here.

use vstd::prelude::*;
use vstd::std_specs::hash::group_hash_axioms;
use vstd::string::StringSliceAdditionalSpecFns;

use std::collections::HashMap;

use crate::bus::ascii_lower;
use crate::limits::DEFAULT_MAX_VOICES;
use crate::pitch::{IntoNote, PitchError};

verus! {

broadcast use group_hash_axioms;

/// A trigger would exceed the polyphony cap.
#[derive(Debug, Clone, Copy, PartialEq, Eq)]
pub struct VoiceLimitExceeded;

/// One-shot additive voice: sample rate and polyphony accounting.
///
/// A voice is counted from its attack until its release.
#[derive(Debug)]
pub struct Synth {
    sample_rate: u32,
    max_voices: u32,
    active_voices: u32,
}

impl View for Synth {
    /// `(sample_rate, max_voices, active_voices)`.
    type V = (u32, u32, u32);

    closed spec fn view(&self) -> (u32, u32, u32) {
        (self.sample_rate, self.max_voices, self.active_voices)
    }
}

impl Synth {
    /// The counted voices never exceed the cap.
    pub open spec fn wf(&self) -> bool {
        self@.2 <= self@.1
    }

    /// [`DEFAULT_MAX_VOICES`] at `sample_rate`.
    pub fn new(sample_rate: u32) -> (r: Self)
        ensures
            r.wf(),
            r@ == (sample_rate, DEFAULT_MAX_VOICES, 0u32),
    {
        Self::with_max_voices(sample_rate, DEFAULT_MAX_VOICES)
    }

    /// Polyphonic cap `max_voices` at `sample_rate`.
    pub fn with_max_voices(sample_rate: u32, max_voices: u32) -> (r: Self)
        ensures
            r.wf(),
            r@ == (sample_rate, max_voices, 0u32),
    {
        Synth { sample_rate, max_voices, active_voices: 0 }
    }

    /// Sample rate the voice renders at.
    pub fn sample_rate(&self) -> (r: u32)
        ensures
            r == self@.0,
    {
        self.sample_rate
    }

    /// Voices currently counted toward the polyphony cap.
    pub fn active_voices(&self) -> (r: u32)
        ensures
            r == self@.2,
    {
        self.active_voices
    }

    /// Count one more voice, unless the cap is reached.
    pub fn acquire(&mut self) -> (r: Result<(), VoiceLimitExceeded>)
        ensures
            old(self).wf() ==> final(self).wf(),
            acquire_post(old(self)@.1, old(self)@.2, r is Ok, final(self)@.2),
            final(self)@.0 == old(self)@.0,
            final(self)@.1 == old(self)@.1,
    {
        if self.active_voices >= self.max_voices {
            return Err(VoiceLimitExceeded);
        }
        self.active_voices = self.active_voices + 1;
        Ok(())
    }

    /// Count one voice less; no-op at zero.
    pub fn release_voice(&mut self)
        ensures
            old(self).wf() ==> final(self).wf(),
            final(self)@.2 == release_count(old(self)@.2),
            final(self)@.0 == old(self)@.0,
            final(self)@.1 == old(self)@.1,
    {
        if self.active_voices > 0 {
            self.active_voices = self.active_voices - 1;
        }
    }

    /// Drop every counted voice. Already-mixed PCM is not silenced.
    pub fn release_all(&mut self)
        ensures
            old(self).wf() ==> final(self).wf(),
            final(self)@ == (old(self)@.0, old(self)@.1, 0u32),
    {
        self.active_voices = 0;
    }

    /// Validate `note` and count one voice less. Already-mixed PCM is not silenced.
    ///
    /// An invalid note is its `PitchError` and leaves the count unchanged.
    pub fn trigger_release<N: IntoNote>(&mut self, note: N) -> (r: Result<(), PitchError>)
        ensures
            old(self).wf() ==> final(self).wf(),
            r is Ok ==> exists|k: u8| note.note_outcome(Ok(k)),
            r matches Err(e) ==> note.note_outcome(Err(e)),
            r is Ok ==> final(self)@ == (old(self)@.0, old(self)@.1, release_count(old(self)@.2)),
            r is Err ==> final(self)@ == old(self)@,
    {
        let ghost n = note;
        match note.into_midi() {
            Ok(k) => {
                assert(n.note_outcome(Ok(k)));
                self.release_voice();
                Ok(())
            },
            Err(e) => Err(e),
        }
    }
}

/// What `acquire` does to a count `active` under cap `max`.
pub open spec fn acquire_post(max: u32, active: u32, ok: bool, active_after: u32) -> bool {
    if active >= max {
        !ok && active_after == active
    } else {
        ok && active_after == active + 1
    }
}

/// Count after releasing one voice.
pub open spec fn release_count(active: u32) -> u32 {
    if active > 0 {
        (active - 1) as u32
    } else {
        0
    }
}

/// A successful acquire followed by a release restores the count, and the
/// count never passes the cap once it starts at or below it.
pub proof fn lemma_voice_round_trip(max: u32, active: u32, ok: bool, after: u32)
    requires
        acquire_post(max, active, ok, after),
    ensures
        ok ==> release_count(after) == active,
        active <= max ==> after <= max,
{
}

/// Named drum voice.
#[derive(Debug, Clone, Copy, PartialEq, Eq)]
pub enum DrumVoice {
    Kick,
    Snare,
    Hat,
}

/// The ASCII-lowercased bytes of `b` equal `word`.
pub open spec fn lower_eq(b: Seq<u8>, word: Seq<u8>) -> bool {
    b.len() == word.len() && forall|k: int| 0 <= k < b.len() ==> ascii_lower(#[trigger] b[k]) == word[k]
}

/// Drum voice a name selects, in any ASCII case: `kick`, `snare`, `hat`,
/// `hi-hat`, `hihat`.
pub open spec fn drum_voice_spec(b: Seq<u8>) -> Option<DrumVoice> {
    if lower_eq(b, seq![107u8, 105u8, 99u8, 107u8]) {
        Some(DrumVoice::Kick)
    } else if lower_eq(b, seq![115u8, 110u8, 97u8, 114u8, 101u8]) {
        Some(DrumVoice::Snare)
    } else if lower_eq(b, seq![104u8, 97u8, 116u8]) || lower_eq(
        b,
        seq![104u8, 105u8, 45u8, 104u8, 97u8, 116u8],
    ) || lower_eq(b, seq![104u8, 105u8, 104u8, 97u8, 116u8]) {
        Some(DrumVoice::Hat)
    } else {
        None
    }
}

/// Whether `bytes`, ASCII-lowercased, equals `word`.
fn lower_equals(bytes: &[u8], word: &[u8]) -> (r: bool)
    ensures
        r == lower_eq(bytes@, word@),
{
    if bytes.len() != word.len() {
        return false;
    }
    let mut k: usize = 0;
    while k < bytes.len()
        invariant
            0 <= k <= bytes@.len(),
            bytes@.len() == word@.len(),
            forall|j: int| 0 <= j < k ==> ascii_lower(#[trigger] bytes@[j]) == word@[j],
        decreases bytes@.len() - k,
    {
        let b = bytes[k];
        let lower = if b >= 65 && b <= 90 {
            b + 32
        } else {
            b
        };
        if lower != word[k] {
            assert(ascii_lower(bytes@[k as int]) != word@[k as int]);
            return false;
        }
        k = k + 1;
    }
    true
}

/// Drum voice named by `name` (`kick`, `snare`, `hat`, `hi-hat`, `hihat`, any ASCII case).
pub fn drum_voice(name: &str) -> (r: Option<DrumVoice>)
    ensures
        r == drum_voice_spec(name.spec_bytes()),
{
    let bytes = name.as_bytes();
    let kick: [u8; 4] = [107, 105, 99, 107];
    let snare: [u8; 5] = [115, 110, 97, 114, 101];
    let hat: [u8; 3] = [104, 97, 116];
    let hi_hat: [u8; 6] = [104, 105, 45, 104, 97, 116];
    let hihat: [u8; 5] = [104, 105, 104, 97, 116];
    assert(kick@ == seq![107u8, 105u8, 99u8, 107u8]);
    assert(snare@ == seq![115u8, 110u8, 97u8, 114u8, 101u8]);
    assert(hat@ == seq![104u8, 97u8, 116u8]);
    assert(hi_hat@ == seq![104u8, 105u8, 45u8, 104u8, 97u8, 116u8]);
    assert(hihat@ == seq![104u8, 105u8, 104u8, 97u8, 116u8]);
    if lower_equals(bytes, kick.as_slice()) {
        Some(DrumVoice::Kick)
    } else if lower_equals(bytes, snare.as_slice()) {
        Some(DrumVoice::Snare)
    } else if lower_equals(bytes, hat.as_slice()) || lower_equals(bytes, hi_hat.as_slice())
        || lower_equals(bytes, hihat.as_slice()) {
        Some(DrumVoice::Hat)
    } else {
        None
    }
}

/// One-shot kick / snare / hat transients at a sample rate.
#[derive(Debug)]
pub struct Drum {
    sample_rate: u32,
}

impl Drum {
    /// Drum kit rendering at `sample_rate`.
    pub fn new(sample_rate: u32) -> (r: Self)
        ensures
            r.rate() == sample_rate,
    {
        Drum { sample_rate }
    }

    /// The sample rate hits render at.
    pub closed spec fn rate(&self) -> u32 {
        self.sample_rate
    }

    /// Sample rate hits render at.
    pub fn sample_rate(&self) -> (r: u32)
        ensures
            r == self.rate(),
    {
        self.sample_rate
    }

    /// Sixteenth-note steps in one bar: `numerator * 16 / denominator`.
    pub fn steps_per_bar(time_signature: (u32, u32)) -> (r: u32)
        requires
            time_signature.1 > 0,
            time_signature.0 * 16 <= u32::MAX,
        ensures
            r as int == (time_signature.0 * 16) as int / time_signature.1 as int,
    {
        let (numerator, denominator) = time_signature;
        numerator * 16 / denominator
    }
}

/// Next state of the drums' noise generator: the linear congruential step
/// `1103515245 * seed + 12345`, kept to 31 bits.
pub fn lcg_next(seed: u32) -> (r: u32)
    ensures
        r as int == (1103515245 * seed + 12345) % 0x8000_0000,
{
    let m = 1103515245u32.wrapping_mul(seed);
    let a = m.wrapping_add(12345);
    let r = a & 0x7FFF_FFFF;
    assert(m as int == (1103515245 * seed) % 0x1_0000_0000);
    assert(a as int == (m + 12345) % 0x1_0000_0000);
    assert(r as int == a % 0x8000_0000) by (bit_vector)
        requires
            r == a & 0x7FFF_FFFF,
    ;
    assert((((1103515245 * seed) % 0x1_0000_0000 + 12345) % 0x1_0000_0000) % 0x8000_0000 == (
    1103515245 * seed + 12345) % 0x8000_0000) by (nonlinear_arith);
    r
}

/// Distance between two MIDI keys.
pub open spec fn key_distance(a: u8, b: u8) -> int {
    if a >= b {
        a - b
    } else {
        b - a
    }
}

/// `k` is the loaded key nearest to `midi`, the lower one on a tie.
pub open spec fn is_nearest_key<S>(m: Map<u8, S>, midi: u8, k: u8) -> bool {
    m.contains_key(k) && forall|j: u8|
        #[trigger] m.contains_key(j) ==> key_distance(k, midi) < key_distance(j, midi) || (
        key_distance(k, midi) == key_distance(j, midi) && k <= j)
}

/// Note → sample map with a polyphony cap. `S` is the loaded sample data.
///
/// Missing pitches are filled from the nearest loaded key. `loop_flag`
/// records whether looping was asked for; playback plays each sample once.
#[derive(Debug)]
pub struct Sampler<S> {
    sample_rate: u32,
    max_voices: u32,
    active: u32,
    samples: HashMap<u8, S>,
    loop_flag: bool,
}

impl<S> Sampler<S> {
    /// The counted voices never exceed the cap.
    pub open spec fn wf(&self) -> bool {
        self.counts().2 <= self.counts().1
    }

    /// `(sample_rate, max_voices, active)`.
    pub closed spec fn counts(&self) -> (u32, u32, u32) {
        (self.sample_rate, self.max_voices, self.active)
    }

    /// Loaded samples by MIDI key.
    pub closed spec fn sample_map(&self) -> Map<u8, S> {
        self.samples@
    }

    /// Whether looping was requested.
    pub closed spec fn looping(&self) -> bool {
        self.loop_flag
    }

    /// Empty map, [`DEFAULT_MAX_VOICES`], at `sample_rate`.
    pub fn new(sample_rate: u32) -> (r: Self)
        ensures
            r.wf(),
            r.counts() == (sample_rate, DEFAULT_MAX_VOICES, 0u32),
            r.sample_map() == Map::<u8, S>::empty(),
            !r.looping(),
    {
        Self::with_max_voices(sample_rate, DEFAULT_MAX_VOICES)
    }

    /// Empty map with polyphonic cap `max_voices`.
    pub fn with_max_voices(sample_rate: u32, max_voices: u32) -> (r: Self)
        ensures
            r.wf(),
            r.counts() == (sample_rate, max_voices, 0u32),
            r.sample_map() == Map::<u8, S>::empty(),
            !r.looping(),
    {
        Sampler { sample_rate, max_voices, active: 0, samples: HashMap::new(), loop_flag: false }
    }

    /// Sample rate samples are stored at.
    pub fn sample_rate(&self) -> (r: u32)
        ensures
            r == self.counts().0,
    {
        self.sample_rate
    }

    /// Voices currently counted toward the polyphony cap.
    pub fn active_voices(&self) -> (r: u32)
        ensures
            r == self.counts().2,
    {
        self.active
    }

    /// Whether `loop` was requested. The held-loop mixer is not implemented.
    pub fn loop_flag(&self) -> (r: bool)
        ensures
            r == self.looping(),
    {
        self.loop_flag
    }

    /// MIDI keys currently mapped to loaded samples.
    pub fn samples(&self) -> (r: &HashMap<u8, S>)
        ensures
            r@ == self.sample_map(),
    {
        &self.samples
    }

    /// Store loaded sample data at `midi`, replacing any earlier sample there.
    pub fn store(&mut self, midi: u8, frames: S)
        ensures
            old(self).wf() ==> final(self).wf(),
            final(self).sample_map() == old(self).sample_map().insert(midi, frames),
            final(self).counts() == old(self).counts(),
            final(self).looping() == old(self).looping(),
    {
        self.samples.insert(midi, frames);
    }

    /// Count one more voice, unless the cap is reached.
    pub fn acquire(&mut self) -> (r: Result<(), VoiceLimitExceeded>)
        ensures
            old(self).wf() ==> final(self).wf(),
            acquire_post(old(self).counts().1, old(self).counts().2, r is Ok, final(self).counts().2),
            final(self).counts().0 == old(self).counts().0,
            final(self).counts().1 == old(self).counts().1,
            final(self).sample_map() == old(self).sample_map(),
            final(self).looping() == old(self).looping(),
    {
        if self.active >= self.max_voices {
            return Err(VoiceLimitExceeded);
        }
        self.active = self.active + 1;
        Ok(())
    }

    /// Count one voice less; no-op at zero.
    pub fn release_voice(&mut self)
        ensures
            old(self).wf() ==> final(self).wf(),
            final(self).counts() == (old(self).counts().0, old(self).counts().1, release_count(
                old(self).counts().2,
            )),
            final(self).sample_map() == old(self).sample_map(),
            final(self).looping() == old(self).looping(),
    {
        if self.active > 0 {
            self.active = self.active - 1;
        }
    }

    /// Drop every counted voice. Already-mixed PCM is not silenced.
    pub fn release_all(&mut self)
        ensures
            old(self).wf() ==> final(self).wf(),
            final(self).counts() == (old(self).counts().0, old(self).counts().1, 0u32),
            final(self).sample_map() == old(self).sample_map(),
            final(self).looping() == old(self).looping(),
    {
        self.active = 0;
    }

    /// Validate `note` and count one voice less.
    ///
    /// An invalid note is its `PitchError` and leaves the count unchanged.
    pub fn trigger_release<N: IntoNote>(&mut self, note: N) -> (r: Result<(), PitchError>)
        ensures
            old(self).wf() ==> final(self).wf(),
            r is Ok ==> exists|k: u8| note.note_outcome(Ok(k)),
            r matches Err(e) ==> note.note_outcome(Err(e)),
            r is Ok ==> final(self).counts() == (
                old(self).counts().0,
                old(self).counts().1,
                release_count(old(self).counts().2),
            ),
            r is Err ==> final(self).counts() == old(self).counts(),
            final(self).sample_map() == old(self).sample_map(),
            final(self).looping() == old(self).looping(),
    {
        let ghost n = note;
        match note.into_midi() {
            Ok(k) => {
                assert(n.note_outcome(Ok(k)));
                self.release_voice();
                Ok(())
            },
            Err(e) => Err(e),
        }
    }

    /// Loaded key that fills `midi`: `midi` itself when loaded, else the
    /// nearest key, the lower one on a tie. `None` when nothing is loaded.
    pub fn nearest_key(&self, midi: u8) -> (r: Option<u8>)
        ensures
            r matches Some(k) ==> is_nearest_key(self.sample_map(), midi, k),
            r is None ==> forall|j: u8| !(#[trigger] self.sample_map().contains_key(j)),
    {
        let mut d: u16 = 0;
        while d <= 255
            invariant
                0 <= d <= 256,
                forall|j: u8| #[trigger]
                    self.sample_map().contains_key(j) ==> key_distance(j, midi) >= d,
            decreases 256 - d,
        {
            if d <= midi as u16 {
                let lo = (midi as u16 - d) as u8;
                if self.samples.contains_key(&lo) {
                    assert(key_distance(lo, midi) == d);
                    return Some(lo);
                }
            }
            if midi as u16 + d <= 255 {
                let hi = (midi as u16 + d) as u8;
                if self.samples.contains_key(&hi) {
                    assert(key_distance(hi, midi) == d);
                    return Some(hi);
                }
            }
            d = d + 1;
        }
        None
    }
}

} // verus!
