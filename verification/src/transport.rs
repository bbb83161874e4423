//! Arrangement clock lifecycle owned by a runtime context.
//!
//! The tempo type `B` is carried, not computed with: the host validates and
//! converts tempos (they are real numbers); the clock decides when a written
//! tempo takes effect.

use vstd::prelude::*;

verus! {

/// Playhead lifecycle.
#[derive(Debug, Clone, Copy, PartialEq, Eq, Structural)]
pub enum TransportState {
    /// Clock is running.
    Started,
    /// Clock is idle; playhead is at zero.
    Stopped,
    /// Clock is held; playhead is kept.
    Paused,
}

/// A time signature with a zero numerator or denominator.
#[derive(Debug, Clone, Copy, PartialEq, Eq)]
pub struct InvalidTimeSignature;

/// A time signature: `(numerator, denominator)`, or a bare numerator counted
/// in quarter notes.
pub trait IntoTimeSignature: Sized {
    /// The `(numerator, denominator)` pair `self` stands for.
    spec fn signature_spec(&self) -> (u32, u32);

    /// The `(numerator, denominator)` pair.
    fn into_time_signature(self) -> (r: (u32, u32))
        ensures
            r == self.signature_spec(),
    ;
}

impl IntoTimeSignature for u32 {
    open spec fn signature_spec(&self) -> (u32, u32) {
        (*self, 4u32)
    }

    fn into_time_signature(self) -> (r: (u32, u32)) {
        (self, 4)
    }
}

impl IntoTimeSignature for (u32, u32) {
    open spec fn signature_spec(&self) -> (u32, u32) {
        *self
    }

    fn into_time_signature(self) -> (r: (u32, u32)) {
        self
    }
}

/// Arrangement clock: lifecycle, written tempo, tempo the running clock uses,
/// and time signature.
#[derive(Debug)]
pub struct Transport<B> {
    state: TransportState,
    bpm: B,
    clock_bpm: B,
    time_signature: (u32, u32),
}

/// Observable state of a clock.
pub struct ClockView<B> {
    pub state: TransportState,
    pub bpm: B,
    pub clock_bpm: B,
    pub time_signature: (u32, u32),
}

/// The clock after `start`: running; from stopped it takes the written tempo.
pub open spec fn started<B>(s: ClockView<B>) -> ClockView<B> {
    ClockView {
        state: TransportState::Started,
        clock_bpm: if s.state == TransportState::Stopped {
            s.bpm
        } else {
            s.clock_bpm
        },
        ..s
    }
}

/// The clock after `stop`: stopped, at the written tempo.
pub open spec fn stopped<B>(s: ClockView<B>) -> ClockView<B> {
    ClockView { state: TransportState::Stopped, clock_bpm: s.bpm, ..s }
}

/// The clock after `pause`: held if it was running, else unchanged.
pub open spec fn paused<B>(s: ClockView<B>) -> ClockView<B> {
    if s.state == TransportState::Started {
        ClockView { state: TransportState::Paused, ..s }
    } else {
        s
    }
}

/// The clock after writing tempo `bpm`.
pub open spec fn with_bpm<B>(s: ClockView<B>, bpm: B) -> ClockView<B> {
    ClockView {
        bpm,
        clock_bpm: if s.state == TransportState::Stopped {
            bpm
        } else {
            s.clock_bpm
        },
        ..s
    }
}

impl<B: Copy> Transport<B> {
    /// The clock's state.
    pub closed spec fn clock(&self) -> ClockView<B> {
        ClockView {
            state: self.state,
            bpm: self.bpm,
            clock_bpm: self.clock_bpm,
            time_signature: self.time_signature,
        }
    }

    /// A stopped clock runs at the written tempo; only a running or paused
    /// clock can lag behind a tempo written after it started.
    pub open spec fn wf(&self) -> bool {
        self.clock().state == TransportState::Stopped ==> self.clock().clock_bpm
            == self.clock().bpm
    }

    /// Stopped clock at tempo `bpm` in 4/4.
    pub fn new(bpm: B) -> (r: Self)
        ensures
            r.wf(),
            r.clock() == (ClockView {
                state: TransportState::Stopped,
                bpm,
                clock_bpm: bpm,
                time_signature: (4u32, 4u32),
            }),
    {
        Transport { state: TransportState::Stopped, bpm, clock_bpm: bpm, time_signature: (4, 4) }
    }

    /// Current lifecycle state.
    pub fn state(&self) -> (r: TransportState)
        ensures
            r == self.clock().state,
    {
        self.state
    }

    /// Written tempo.
    pub fn bpm(&self) -> (r: B)
        ensures
            r == self.clock().bpm,
    {
        self.bpm
    }

    /// Tempo the clock runs at: fixed from start until the clock stops.
    pub fn clock_bpm(&self) -> (r: B)
        ensures
            r == self.clock().clock_bpm,
    {
        self.clock_bpm
    }

    /// `(numerator, denominator)`.
    pub fn time_signature(&self) -> (r: (u32, u32))
        ensures
            r == self.clock().time_signature,
    {
        self.time_signature
    }

    /// Write the tempo. A stopped clock takes it at once; a running or paused
    /// clock takes it on its next start from stopped.
    pub fn set_bpm(&mut self, bpm: B)
        requires
            old(self).wf(),
        ensures
            final(self).wf(),
            final(self).clock() == with_bpm(old(self).clock(), bpm),
    {
        self.bpm = bpm;
        if self.state == TransportState::Stopped {
            self.clock_bpm = bpm;
        }
    }

    /// Set the time signature (a bare number `n` is `n/4`); a zero numerator
    /// or denominator is refused and nothing changes.
    pub fn set_time_signature<T: IntoTimeSignature>(&mut self, signature: T) -> (r: Result<
        (),
        InvalidTimeSignature,
    >)
        requires
            old(self).wf(),
        ensures
            final(self).wf(),
            ({
                let ts = signature.signature_spec();
                &&& ts.0 > 0 && ts.1 > 0 ==> r is Ok && final(self).clock() == (ClockView {
                    time_signature: ts,
                    ..old(self).clock()
                })
                &&& !(ts.0 > 0 && ts.1 > 0) ==> r is Err && final(self).clock() == old(
                    self,
                ).clock()
            }),
    {
        let time_signature = signature.into_time_signature();
        if time_signature.0 == 0 || time_signature.1 == 0 {
            return Err(InvalidTimeSignature);
        }
        self.time_signature = time_signature;
        Ok(())
    }

    /// Start the clock. Returns whether it was not already running; a clock
    /// started from stopped runs at the written tempo.
    pub fn start(&mut self) -> (r: bool)
        requires
            old(self).wf(),
        ensures
            final(self).wf(),
            r == (old(self).clock().state != TransportState::Started),
            final(self).clock() == started(old(self).clock()),
    {
        if self.state == TransportState::Started {
            return false;
        }
        if self.state == TransportState::Stopped {
            self.clock_bpm = self.bpm;
        }
        self.state = TransportState::Started;
        true
    }

    /// Stop the clock; it then runs at the written tempo.
    pub fn stop(&mut self)
        requires
            old(self).wf(),
        ensures
            final(self).wf(),
            final(self).clock() == stopped(old(self).clock()),
    {
        self.state = TransportState::Stopped;
        self.clock_bpm = self.bpm;
    }

    /// Hold a running clock. No-op unless started. Returns whether it paused.
    pub fn pause(&mut self) -> (r: bool)
        requires
            old(self).wf(),
        ensures
            final(self).wf(),
            r == (old(self).clock().state == TransportState::Started),
            final(self).clock() == paused(old(self).clock()),
    {
        if self.state != TransportState::Started {
            return false;
        }
        self.state = TransportState::Paused;
        true
    }

    /// Pause a running clock, start any other.
    pub fn toggle(&mut self) -> (r: TransportState)
        requires
            old(self).wf(),
        ensures
            final(self).wf(),
            r == final(self).clock().state,
            final(self).clock() == if old(self).clock().state == TransportState::Started {
                paused(old(self).clock())
            } else {
                started(old(self).clock())
            },
    {
        if self.state == TransportState::Started {
            self.pause();
        } else {
            self.start();
        }
        self.state
    }
}

/// Starting twice is starting once, and a running clock reports no change.
pub proof fn lemma_start_idempotent<B>(s: ClockView<B>)
    ensures
        started(started(s)) == started(s),
        started(s).state == TransportState::Started,
{
}

/// A tempo written while the clock runs leaves the running clock's tempo
/// alone, and is the clock's tempo after a stop and a start.
pub proof fn lemma_tempo_applies_on_next_start<B>(s: ClockView<B>, bpm: B)
    requires
        s.state != TransportState::Stopped,
    ensures
        with_bpm(s, bpm).clock_bpm == s.clock_bpm,
        started(stopped(with_bpm(s, bpm))).clock_bpm == bpm,
        started(stopped(with_bpm(s, bpm))).bpm == bpm,
{
}

/// Pausing is a no-op unless the clock runs; stopping always ends stopped at
/// the written tempo; toggling a stopped clock starts it.
pub proof fn lemma_lifecycle<B>(s: ClockView<B>)
    ensures
        s.state != TransportState::Started ==> paused(s) == s,
        s.state == TransportState::Started ==> paused(s).state == TransportState::Paused,
        stopped(s).state == TransportState::Stopped && stopped(s).clock_bpm == s.bpm,
        stopped(paused(s)) == stopped(s),
        started(paused(started(s))).state == TransportState::Started,
{
}

} // verus!
