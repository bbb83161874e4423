//! The system's default audio output device: its errors and the bookkeeping
//! of the frames queued for it.

use vstd::prelude::*;

verus! {

/// Failure opening, starting, or draining the system's default audio device.
#[derive(Debug, Clone, PartialEq, Eq)]
pub struct DeviceSinkError(String);

impl DeviceSinkError {
    /// Error carrying `message`.
    pub fn new(message: String) -> (r: Self)
        ensures
            r.text() == message@,
    {
        DeviceSinkError(message)
    }

    /// The message.
    pub closed spec fn text(&self) -> Seq<char> {
        self.0@
    }

    /// The message text.
    pub fn message(&self) -> (r: &str)
        ensures
            r@ == self.text(),
    {
        self.0.as_str()
    }
}


/// Queue bookkeeping of the device sink: a window of mono frames starting at
/// sample `base`, the device playhead, and the staging cursor used before the
/// stream plays. The host keeps the samples; this decides where they go.
#[derive(Debug, Clone, Copy, PartialEq, Eq)]
pub struct PlaybackCursor {
    queued: usize,
    base: usize,
    playback: usize,
    staging: usize,
    playing: bool,
    accepted: bool,
}

/// Observable state of a [`PlaybackCursor`].
pub struct PlaybackView {
    /// Frames held in the window.
    pub queued: usize,
    /// Sample at which the window starts.
    pub base: usize,
    /// Device playhead.
    pub playback: usize,
    /// Write position while not playing.
    pub staging: usize,
    pub playing: bool,
    pub accepted: bool,
}

/// Where a mix lands: skip `skip` leading frames of the input, then add
/// `len` frames at window index `start`; the window grows to `start + len`.
#[derive(Debug, Clone, Copy, PartialEq, Eq)]
pub struct MixPlacement {
    pub skip: usize,
    pub start: usize,
    pub len: usize,
}

/// Write position: the playhead while playing, else the staging cursor.
pub open spec fn write_cursor_of(v: PlaybackView) -> usize {
    if v.playing {
        v.playback
    } else {
        v.staging
    }
}

/// `a - b`, or zero when `b > a`.
pub open spec fn sat_sub(a: usize, b: usize) -> usize {
    if a >= b {
        (a - b) as usize
    } else {
        0
    }
}

/// `a + b`, saturating at `usize::MAX`.
pub open spec fn sat_add(a: usize, b: usize) -> usize {
    if a + b > usize::MAX {
        usize::MAX
    } else {
        (a + b) as usize
    }
}

/// Mixing `n` frames at `at` (the write position when `None`): frames before
/// the window are dropped; an empty window restarts at the earlier of the
/// playhead and `at`.
pub open spec fn mix_spec(v: PlaybackView, n: usize, at: Option<usize>) -> (
    PlaybackView,
    Option<MixPlacement>,
) {
    let at0 = match at {
        Some(a) => a,
        None => write_cursor_of(v),
    };
    let skip: usize = if at0 < v.base {
        if v.base - at0 < n {
            (v.base - at0) as usize
        } else {
            n
        }
    } else {
        0
    };
    let at1: usize = if at0 < v.base {
        v.base
    } else {
        at0
    };
    let rest = n - skip;
    if rest == 0 {
        (v, None)
    } else {
        let base: usize = if v.queued == 0 {
            if v.playback < at1 {
                v.playback
            } else {
                at1
            }
        } else {
            v.base
        };
        let start = (at1 - base) as usize;
        let needed = sat_add(start, rest as usize);
        (
            PlaybackView {
                base,
                queued: if v.queued < needed {
                    needed
                } else {
                    v.queued
                },
                accepted: true,
                ..v
            },
            Some(MixPlacement { skip, start, len: (needed - start) as usize }),
        )
    }
}

/// Window index of the sample at `cursor`, when the window holds it.
pub open spec fn index_in(v: PlaybackView, cursor: usize) -> Option<usize> {
    if v.base <= cursor && cursor - v.base < v.queued {
        Some((cursor - v.base) as usize)
    } else {
        None
    }
}

/// Frames mixed at or after the window's start are all kept: when the
/// playhead reaches `at + k`, the device reads window index `start + k`,
/// where the `k`-th mixed frame was added.
pub proof fn lemma_mixed_frames_are_played(v: PlaybackView, n: usize, at: usize, k: int)
    requires
        v.base <= at,
        0 <= k < n,
        at + n <= usize::MAX,
    ensures
        ({
            let (w, p) = mix_spec(v, n, Some(at));
            &&& p matches Some(pl) && pl.skip == 0 && pl.len == n
            &&& index_in(w, (at + k) as usize) == Some((p->0.start + k) as usize)
        }),
{
}

impl PlaybackCursor {
    /// Current state.
    pub closed spec fn view(&self) -> PlaybackView {
        PlaybackView {
            queued: self.queued,
            base: self.base,
            playback: self.playback,
            staging: self.staging,
            playing: self.playing,
            accepted: self.accepted,
        }
    }

    /// Empty window at sample zero, not playing, nothing accepted.
    pub fn new() -> (r: Self)
        ensures
            r.view() == (PlaybackView {
                queued: 0,
                base: 0,
                playback: 0,
                staging: 0,
                playing: false,
                accepted: false,
            }),
    {
        PlaybackCursor {
            queued: 0,
            base: 0,
            playback: 0,
            staging: 0,
            playing: false,
            accepted: false,
        }
    }

    /// Cursor with the given staging position, playhead and play state.
    pub fn with_cursors(staging: usize, playback: usize, playing: bool) -> (r: Self)
        ensures
            r.view() == (PlaybackView {
                queued: 0,
                base: 0,
                playback,
                staging,
                playing,
                accepted: false,
            }),
    {
        PlaybackCursor { queued: 0, base: 0, playback, staging, playing, accepted: false }
    }

    /// Frames held in the window.
    pub fn queued(&self) -> (r: usize)
        ensures
            r == self.view().queued,
    {
        self.queued
    }

    /// Sample at which the window starts.
    pub fn base_cursor(&self) -> (r: usize)
        ensures
            r == self.view().base,
    {
        self.base
    }

    /// Device playhead.
    pub fn playback_cursor(&self) -> (r: usize)
        ensures
            r == self.view().playback,
    {
        self.playback
    }

    /// Whether the stream is playing.
    pub fn is_playing(&self) -> (r: bool)
        ensures
            r == self.view().playing,
    {
        self.playing
    }

    /// Whether any audio or a start was accepted.
    pub fn accepted(&self) -> (r: bool)
        ensures
            r == self.view().accepted,
    {
        self.accepted
    }

    /// Mark accepted without mixing.
    pub fn mark_accepted(&mut self)
        ensures
            final(self).view() == (PlaybackView { accepted: true, ..old(self).view() }),
    {
        self.accepted = true;
    }

    /// The stream started playing: accepted from now on.
    pub fn begin_playing(&mut self)
        ensures
            final(self).view() == (PlaybackView {
                playing: true,
                accepted: true,
                ..old(self).view()
            }),
    {
        self.playing = true;
        self.accepted = true;
    }

    /// The stream paused or failed to start.
    pub fn stop_playing(&mut self)
        ensures
            final(self).view() == (PlaybackView { playing: false, ..old(self).view() }),
    {
        self.playing = false;
    }

    /// Write position: the playhead while playing, else the staging cursor.
    pub fn write_cursor(&self) -> (r: usize)
        ensures
            r == write_cursor_of(self.view()),
    {
        if self.playing {
            self.playback
        } else {
            self.staging
        }
    }

    /// End of everything queued: the window's end or the staging cursor.
    pub fn queued_end(&self) -> (r: usize)
        ensures
            r == if sat_add(self.view().base, self.view().queued) < self.view().staging {
                self.view().staging
            } else {
                sat_add(self.view().base, self.view().queued)
            },
    {
        let end = self.base.saturating_add(self.queued);
        if end < self.staging {
            self.staging
        } else {
            end
        }
    }

    /// Place `n` mono frames at `at` (the write position when `None`).
    /// `None` when nothing is left to add; the state is then unchanged.
    pub fn mix(&mut self, n: usize, at: Option<usize>) -> (r: Option<MixPlacement>)
        ensures
            (final(self).view(), r) == mix_spec(old(self).view(), n, at),
    {
        let mut at_sample = match at {
            Some(a) => a,
            None => self.write_cursor(),
        };
        let mut skip: usize = 0;
        if at_sample < self.base {
            skip = if self.base - at_sample < n {
                self.base - at_sample
            } else {
                n
            };
            at_sample = self.base;
        }
        let rest = n - skip;
        if rest == 0 {
            return None;
        }
        if self.queued == 0 {
            self.base = if self.playback < at_sample {
                self.playback
            } else {
                at_sample
            };
        }
        let start = at_sample - self.base;
        let needed = start.saturating_add(rest);
        if self.queued < needed {
            self.queued = needed;
        }
        self.accepted = true;
        Some(MixPlacement { skip, start, len: needed - start })
    }

    /// Mix `n` frames at the write position; before playing, the staging
    /// cursor moves past them.
    pub fn write(&mut self, n: usize) -> (r: Option<MixPlacement>)
        ensures
            ({
                let at = write_cursor_of(old(self).view());
                let (m, p) = mix_spec(old(self).view(), n, Some(at));
                r == p && final(self).view() == if old(self).view().playing {
                    m
                } else {
                    PlaybackView { staging: sat_add(at, n), ..m }
                }
            }),
    {
        let at = self.write_cursor();
        let r = self.mix(n, Some(at));
        if !self.playing {
            self.staging = at.saturating_add(n);
        }
        r
    }

    /// Window index of the sample at `cursor`, when the window holds it.
    pub fn sample_index(&self, cursor: usize) -> (r: Option<usize>)
        ensures
            r == self.sample_index_spec(cursor),
    {
        if cursor < self.base {
            return None;
        }
        let i = cursor - self.base;
        if i < self.queued {
            Some(i)
        } else {
            None
        }
    }

    /// Device callback took one frame: the index of its sample (silence
    /// when `None`), and the playhead moves on (saturating).
    pub fn take_frame(&mut self) -> (r: Option<usize>)
        ensures
            r == old(self).sample_index_spec(old(self).view().playback),
            final(self).view() == (PlaybackView {
                playback: sat_add(old(self).view().playback, 1),
                ..old(self).view()
            }),
    {
        let r = self.sample_index(self.playback);
        self.playback = self.playback.saturating_add(1);
        r
    }

    /// Window index of the sample at `cursor` (spec form of [`Self::sample_index`]).
    pub open spec fn sample_index_spec(&self, cursor: usize) -> Option<usize> {
        index_in(self.view(), cursor)
    }

    /// Once the playhead has passed the whole window, empty it and restart it
    /// at the playhead. Returns whether it was emptied.
    pub fn reclaim_consumed(&mut self) -> (r: bool)
        ensures
            r == (old(self).view().playback >= sat_add(old(self).view().base, old(self).view().queued)),
            final(self).view() == if r {
                PlaybackView { queued: 0, base: old(self).view().playback, ..old(self).view() }
            } else {
                old(self).view()
            },
    {
        if self.playback >= self.base.saturating_add(self.queued) {
            self.queued = 0;
            self.base = self.playback;
            true
        } else {
            false
        }
    }
}

} // verus!
