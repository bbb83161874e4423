//! Callback-sink bookkeeping: negotiated latency, the in-process mock stream,
//! and the fixed mix-command table that the audio callback reads.
//!
//! The table decides which slot a chunk of PCM goes to and when a slot's audio
//! has been played out; the host copies the samples and sums them.

use vstd::prelude::*;

use crate::bus::MixDest;
use crate::limits::DEFAULT_SAMPLE_RATE;

verus! {

/// Default period size in sample frames when no backend quantum is injected.
pub const DEFAULT_QUANTUM_FRAMES: usize = 256;

/// Mono frames stored in one preallocated mix slot.
pub const SLOT_FRAMES: usize = 4096;

/// Command / slot table size. Enqueue never grows this.
pub const SLOT_COUNT: usize = 64;

/// Negotiated stream latency from a period size: `floor(quantum * 1000 / rate)` ms.
pub fn latency_ms_from_quantum(sample_rate: u32, quantum_frames: usize) -> (r: u32)
    requires
        quantum_frames * 1000 <= u64::MAX,
    ensures
        sample_rate == 0 ==> r == 0,
        sample_rate > 0 ==> r == ((quantum_frames * 1000) as int / sample_rate as int) as u32,
{
    if sample_rate == 0 {
        0
    } else {
        (quantum_frames as u64 * 1000 / sample_rate as u64) as u32
    }
}

/// In-process stream: records lifecycle and callback calls, never shells out.
#[derive(Debug)]
pub struct MockStream {
    sample_rate: u32,
    quantum_frames: usize,
    open: bool,
    open_count: u32,
    spawn_attempts: Vec<String>,
    process_calls: usize,
    process_samples: usize,
}

/// What a mock stream records, spawn log aside.
pub struct MockStreamState {
    pub sample_rate: u32,
    pub quantum_frames: usize,
    pub open: bool,
    pub open_count: u32,
    pub process_calls: usize,
    pub process_samples: usize,
}

impl MockStream {
    /// Recorded state.
    pub closed spec fn state(&self) -> MockStreamState {
        MockStreamState {
            sample_rate: self.sample_rate,
            quantum_frames: self.quantum_frames,
            open: self.open,
            open_count: self.open_count,
            process_calls: self.process_calls,
            process_samples: self.process_samples,
        }
    }

    /// Subprocesses this stream started.
    pub closed spec fn spawned(&self) -> Seq<String> {
        self.spawn_attempts@
    }

    /// Closed mock stream with an explicit period size in frames.
    pub fn new(sample_rate: u32, quantum_frames: usize) -> (r: Self)
        ensures
            r.state() == (MockStreamState {
                sample_rate,
                quantum_frames,
                open: false,
                open_count: 0,
                process_calls: 0,
                process_samples: 0,
            }),
            r.spawned() == Seq::<String>::empty(),
    {
        MockStream {
            sample_rate,
            quantum_frames,
            open: false,
            open_count: 0,
            spawn_attempts: Vec::new(),
            process_calls: 0,
            process_samples: 0,
        }
    }

    /// Default rate and quantum.
    pub fn default_stream() -> (r: Self)
        ensures
            r.state() == (MockStreamState {
                sample_rate: DEFAULT_SAMPLE_RATE,
                quantum_frames: DEFAULT_QUANTUM_FRAMES,
                open: false,
                open_count: 0,
                process_calls: 0,
                process_samples: 0,
            }),
            r.spawned() == Seq::<String>::empty(),
    {
        Self::new(DEFAULT_SAMPLE_RATE, DEFAULT_QUANTUM_FRAMES)
    }

    /// Sample rate used to convert the quantum into milliseconds.
    pub fn sample_rate(&self) -> (r: u32)
        ensures
            r == self.state().sample_rate,
    {
        self.sample_rate
    }

    /// Interleaved samples processed across all callback invocations.
    pub fn process_samples(&self) -> (r: usize)
        ensures
            r == self.state().process_samples,
    {
        self.process_samples
    }

    /// Negotiated period size in sample frames.
    pub fn quantum_frames(&self) -> (r: usize)
        ensures
            r == self.state().quantum_frames,
    {
        self.quantum_frames
    }

    /// Stream latency from the quantum at the stream's sample rate.
    pub fn latency_ms(&self) -> (r: u32)
        requires
            self.state().quantum_frames * 1000 <= u64::MAX,
        ensures
            self.state().sample_rate == 0 ==> r == 0,
            self.state().sample_rate > 0 ==> r == ((self.state().quantum_frames * 1000) as int
                / self.state().sample_rate as int) as u32,
    {
        latency_ms_from_quantum(self.sample_rate, self.quantum_frames)
    }

    /// Open the persistent stream; already open is a no-op.
    pub fn open(&mut self)
        ensures
            final(self).state() == (MockStreamState {
                open: true,
                open_count: if old(self).state().open {
                    old(self).state().open_count
                } else if old(self).state().open_count == u32::MAX {
                    u32::MAX
                } else {
                    (old(self).state().open_count + 1) as u32
                },
                ..old(self).state()
            }),
            final(self).spawned() == old(self).spawned(),
    {
        if !self.open {
            self.open = true;
            self.open_count = self.open_count.saturating_add(1);
        }
    }

    /// Tear the stream down.
    pub fn close(&mut self)
        ensures
            final(self).state() == (MockStreamState { open: false, ..old(self).state() }),
            final(self).spawned() == old(self).spawned(),
    {
        self.open = false;
    }

    /// Whether the persistent stream is open.
    pub fn is_open(&self) -> (r: bool)
        ensures
            r == self.state().open,
    {
        self.open
    }

    /// How many times the stream went from closed to open.
    pub fn open_count(&self) -> (r: u32)
        ensures
            r == self.state().open_count,
    {
        self.open_count
    }

    /// Recorded subprocess names; this stream never spawns.
    pub fn spawn_attempts(&self) -> (r: &[String])
        ensures
            r@ == self.spawned(),
    {
        self.spawn_attempts.as_slice()
    }

    /// Number of process-callback invocations.
    pub fn process_calls(&self) -> (r: usize)
        ensures
            r == self.state().process_calls,
    {
        self.process_calls
    }

    /// Record one callback over `samples` interleaved samples (saturating counts).
    pub fn record_process(&mut self, samples: usize)
        ensures
            final(self).state() == (MockStreamState {
                process_calls: if old(self).state().process_calls == usize::MAX {
                    usize::MAX
                } else {
                    (old(self).state().process_calls + 1) as usize
                },
                process_samples: if old(self).state().process_samples + samples > usize::MAX {
                    usize::MAX
                } else {
                    (old(self).state().process_samples + samples) as usize
                },
                ..old(self).state()
            }),
            final(self).spawned() == old(self).spawned(),
    {
        self.process_calls = self.process_calls.saturating_add(1);
        self.process_samples = self.process_samples.saturating_add(samples);
    }
}

impl Default for MockStream {
    /// Closed mock stream at the default rate and quantum.
    fn default() -> (r: Self)
        ensures
            r.state() == (MockStreamState {
                sample_rate: DEFAULT_SAMPLE_RATE,
                quantum_frames: DEFAULT_QUANTUM_FRAMES,
                open: false,
                open_count: 0,
                process_calls: 0,
                process_samples: 0,
            }),
            r.spawned() == Seq::<String>::empty(),
    {
        MockStream::default_stream()
    }
}

/// One queued mix: `len` frames from slot `slot` at sample `at` onto `dest`.
#[derive(Clone, Copy, Debug, PartialEq, Eq)]
pub struct MixCmd {
    pub at: usize,
    pub len: usize,
    pub slot: usize,
    pub dest: MixDest,
}

/// `a + b`, saturating at `usize::MAX`.
pub open spec fn sat_add(a: usize, b: usize) -> usize {
    if a + b > usize::MAX {
        usize::MAX
    } else {
        (a + b) as usize
    }
}

/// First sample after a command's audio.
pub open spec fn cmd_end(c: MixCmd) -> usize {
    sat_add(c.at, c.len)
}

/// One copy of queued audio into a render chunk: `len` frames of slot `slot`
/// starting `src` frames into it, added at `dst` frames into the chunk, onto `dest`.
#[derive(Clone, Copy, Debug, PartialEq, Eq)]
pub struct MixSpan {
    pub slot: usize,
    pub dest: MixDest,
    pub src: usize,
    pub dst: usize,
    pub len: usize,
}

/// The part of command `c` that sounds in the chunk `[start, end)`, if any.
pub open spec fn span_of(c: MixCmd, start: usize, end: usize) -> Option<MixSpan> {
    if cmd_end(c) <= start || c.at >= end {
        None
    } else {
        let from: usize = if c.at < start {
            start
        } else {
            c.at
        };
        let to: usize = if cmd_end(c) < end {
            cmd_end(c)
        } else {
            end
        };
        Some(
            MixSpan {
                slot: c.slot,
                dest: c.dest,
                src: (from - c.at) as usize,
                dst: (from - start) as usize,
                len: (to - from) as usize,
            },
        )
    }
}

/// Spans of the occupied slots below `k` that sound in `[start, end)`, by slot.
pub open spec fn spans_upto(
    cmds: Seq<MixCmd>,
    occupied: Seq<bool>,
    start: usize,
    end: usize,
    k: int,
) -> Seq<MixSpan>
    decreases k,
{
    if k <= 0 {
        Seq::empty()
    } else {
        let prev = spans_upto(cmds, occupied, start, end, k - 1);
        if occupied[k - 1] && span_of(cmds[k - 1], start, end) is Some {
            prev.push(span_of(cmds[k - 1], start, end)->0)
        } else {
            prev
        }
    }
}

/// Every span of an occupied, well-formed slot reads inside that slot and
/// writes inside the chunk.
proof fn lemma_spans_in_bounds(
    cmds: Seq<MixCmd>,
    occupied: Seq<bool>,
    start: usize,
    n: usize,
    k: int,
)
    requires
        0 <= k <= SLOT_COUNT,
        cmds.len() == SLOT_COUNT,
        occupied.len() == SLOT_COUNT,
        forall|i: int|
            0 <= i < SLOT_COUNT && #[trigger] occupied[i] ==> cmds[i].slot == i && 0 < cmds[i].len
                <= SLOT_FRAMES,
    ensures
        forall|j: int|
            0 <= j < spans_upto(cmds, occupied, start, sat_add(start, n), k).len() ==> {
                let sp = #[trigger] spans_upto(cmds, occupied, start, sat_add(start, n), k)[j];
                sp.slot < k && sp.src + sp.len <= SLOT_FRAMES && sp.dst + sp.len <= n
            },
    decreases k,
{
    if k > 0 {
        lemma_spans_in_bounds(cmds, occupied, start, n, k - 1);
        let prev = spans_upto(cmds, occupied, start, sat_add(start, n), k - 1);
        let c = cmds[k - 1];
        if occupied[k - 1] && span_of(c, start, sat_add(start, n)) is Some {
            let sp = span_of(c, start, sat_add(start, n))->0;
            assert(c.slot == k - 1 && 0 < c.len <= SLOT_FRAMES);
            assert(sp.slot < k && sp.src + sp.len <= SLOT_FRAMES && sp.dst + sp.len <= n);
            assert(spans_upto(cmds, occupied, start, sat_add(start, n), k) == prev.push(sp));
        }
    }
}

/// `sp` mixes the part of `c` that sounds in the chunk `[start, end)`: it
/// comes from `c`'s slot onto `c`'s destination, it covers exactly the sample
/// times where `[c.at, cmd_end(c))` and `[start, end)` overlap, and the frame
/// it reads at each time is that time's frame of the command.
pub open spec fn span_plays(sp: MixSpan, c: MixCmd, start: usize, end: usize) -> bool {
    let first = if c.at < start {
        start as int
    } else {
        c.at as int
    };
    let last = if cmd_end(c) < end {
        cmd_end(c) as int
    } else {
        end as int
    };
    &&& sp.slot == c.slot
    &&& sp.dest == c.dest
    &&& start + sp.dst == first
    &&& start + sp.dst + sp.len == last
    &&& sp.src == start + sp.dst - c.at
}

/// `c` has audio in the chunk `[start, end)`.
pub open spec fn overlaps(c: MixCmd, start: usize, end: usize) -> bool {
    c.at < end && start < cmd_end(c)
}

/// A chunk plan lists the slots in increasing order, each at most once.
pub proof fn lemma_chunk_plan_slot_order(
    cmds: Seq<MixCmd>,
    occupied: Seq<bool>,
    start: usize,
    end: usize,
    k: int,
)
    requires
        0 <= k <= cmds.len(),
        k <= occupied.len(),
        forall|i: int| 0 <= i < k && #[trigger] occupied[i] ==> cmds[i].slot == i,
    ensures
        forall|j: int|
            0 <= j < spans_upto(cmds, occupied, start, end, k).len() ==> (#[trigger] spans_upto(
                cmds,
                occupied,
                start,
                end,
                k,
            )[j]).slot < k,
        forall|j1: int, j2: int|
            0 <= j1 < j2 < spans_upto(cmds, occupied, start, end, k).len() ==> (
            #[trigger] spans_upto(cmds, occupied, start, end, k)[j1]).slot < (
            #[trigger] spans_upto(cmds, occupied, start, end, k)[j2]).slot,
    decreases k,
{
    if k > 0 {
        lemma_chunk_plan_slot_order(cmds, occupied, start, end, k - 1);
        let prev = spans_upto(cmds, occupied, start, end, k - 1);
        let cur = spans_upto(cmds, occupied, start, end, k);
        if occupied[k - 1] && span_of(cmds[k - 1], start, end) is Some {
            assert(cur == prev.push(span_of(cmds[k - 1], start, end)->0));
            assert(cur[prev.len() as int].slot == k - 1);
        } else {
            assert(cur == prev);
        }
    }
}

/// What a chunk plan mixes: every occupied slot whose command has audio in the
/// chunk gets a span that plays that audio at its own times (a command that
/// starts inside the chunk is mixed from its first frame, at its offset into
/// the chunk), and every span in the plan is such a span of an occupied slot.
pub proof fn lemma_chunk_plan_mixes_overlaps(
    cmds: Seq<MixCmd>,
    occupied: Seq<bool>,
    start: usize,
    end: usize,
    k: int,
)
    requires
        0 <= k <= cmds.len(),
        k <= occupied.len(),
        start <= end,
    ensures
        forall|s: int|
            0 <= s < k && #[trigger] occupied[s] && overlaps(cmds[s], start, end) ==> exists|j: int|
                0 <= j < spans_upto(cmds, occupied, start, end, k).len() && span_plays(
                    #[trigger] spans_upto(cmds, occupied, start, end, k)[j],
                    cmds[s],
                    start,
                    end,
                ),
        forall|j: int|
            0 <= j < spans_upto(cmds, occupied, start, end, k).len() ==> exists|s: int|
                0 <= s < k && #[trigger] occupied[s] && overlaps(cmds[s], start, end) && span_plays(
                    #[trigger] spans_upto(cmds, occupied, start, end, k)[j],
                    cmds[s],
                    start,
                    end,
                ),
    decreases k,
{
    if k > 0 {
        lemma_chunk_plan_mixes_overlaps(cmds, occupied, start, end, k - 1);
        let prev = spans_upto(cmds, occupied, start, end, k - 1);
        let cur = spans_upto(cmds, occupied, start, end, k);
        let c = cmds[k - 1];
        if occupied[k - 1] && span_of(c, start, end) is Some {
            assert(cur == prev.push(span_of(c, start, end)->0));
            assert(span_plays(cur[prev.len() as int], c, start, end));
        } else {
            assert(cur == prev);
        }
        assert forall|s: int|
            0 <= s < k && #[trigger] occupied[s] && overlaps(cmds[s], start, end) implies exists|
                j: int,
            |
                0 <= j < cur.len() && span_plays(#[trigger] cur[j], cmds[s], start, end) by {
            if s == k - 1 {
                assert(span_of(c, start, end) is Some);
                assert(span_plays(cur[prev.len() as int], c, start, end));
            } else {
                let j = choose|j: int|
                    0 <= j < prev.len() && span_plays(#[trigger] prev[j], cmds[s], start, end);
                assert(cur[j] == prev[j]);
            }
        }
        assert forall|j: int| 0 <= j < cur.len() implies exists|s: int|
            0 <= s < k && #[trigger] occupied[s] && overlaps(cmds[s], start, end) && span_plays(
                #[trigger] cur[j],
                cmds[s],
                start,
                end,
            ) by {
            if j < prev.len() {
                let s = choose|s: int|
                    0 <= s < k - 1 && #[trigger] occupied[s] && overlaps(cmds[s], start, end)
                        && span_plays(prev[j], cmds[s], start, end);
                assert(cur[j] == prev[j]);
                assert(occupied[s]);
            } else {
                assert(occupied[k - 1]);
                assert(span_plays(cur[j], c, start, end));
            }
        }
    }
}

/// A queued command is planned in full in the chunk that spans exactly its
/// audio: the callback reads back every frame that was enqueued.
pub proof fn lemma_queued_audio_is_planned(
    cmds: Seq<MixCmd>,
    occupied: Seq<bool>,
    slot: int,
    at: usize,
    len: usize,
    dest: MixDest,
)
    requires
        cmds.len() == SLOT_COUNT,
        occupied.len() == SLOT_COUNT,
        0 <= slot < SLOT_COUNT,
        occupied[slot],
        cmds[slot] == (MixCmd { at, len, slot: slot as usize, dest }),
        0 < len,
        at + len <= usize::MAX,
    ensures
        spans_upto(cmds, occupied, at, sat_add(at, len), SLOT_COUNT as int).contains(
            MixSpan { slot: slot as usize, dest, src: 0, dst: 0, len },
        ),
{
    lemma_planned_from(cmds, occupied, slot, at, len, dest, SLOT_COUNT as int);
}

proof fn lemma_planned_from(
    cmds: Seq<MixCmd>,
    occupied: Seq<bool>,
    slot: int,
    at: usize,
    len: usize,
    dest: MixDest,
    k: int,
)
    requires
        cmds.len() == SLOT_COUNT,
        occupied.len() == SLOT_COUNT,
        0 <= slot < k <= SLOT_COUNT,
        occupied[slot],
        cmds[slot] == (MixCmd { at, len, slot: slot as usize, dest }),
        0 < len,
        at + len <= usize::MAX,
    ensures
        spans_upto(cmds, occupied, at, sat_add(at, len), k).contains(
            MixSpan { slot: slot as usize, dest, src: 0, dst: 0, len },
        ),
    decreases k,
{
    let sp = MixSpan { slot: slot as usize, dest, src: 0, dst: 0, len };
    let end = sat_add(at, len);
    let prev = spans_upto(cmds, occupied, at, end, k - 1);
    if k - 1 == slot {
        assert(span_of(cmds[slot], at, end) == Some(sp));
        assert(spans_upto(cmds, occupied, at, end, k) == prev.push(sp));
        assert(spans_upto(cmds, occupied, at, end, k)[prev.len() as int] == sp);
    } else {
        lemma_planned_from(cmds, occupied, slot, at, len, dest, k - 1);
        let j = choose|j: int| 0 <= j < prev.len() && prev[j] == sp;
        let all = spans_upto(cmds, occupied, at, end, k);
        if occupied[k - 1] && span_of(cmds[k - 1], at, end) is Some {
            assert(all == prev.push(span_of(cmds[k - 1], at, end)->0));
            assert(all[j] == sp);
        } else {
            assert(all == prev);
        }
    }
}

/// Index of the first free slot among the first `k`.
pub open spec fn first_free_below(o: Seq<bool>, k: int) -> Option<int>
    decreases k,
{
    if k <= 0 {
        None
    } else {
        match first_free_below(o, k - 1) {
            Some(i) => Some(i),
            None => if !o[k - 1] {
                Some(k - 1)
            } else {
                None
            },
        }
    }
}

/// Index of the first occupied slot among the first `k` whose audio has
/// been played out by `playback`.
pub open spec fn first_done_below(c: Seq<MixCmd>, o: Seq<bool>, playback: usize, k: int) -> Option<
    int,
>
    decreases k,
{
    if k <= 0 {
        None
    } else {
        match first_done_below(c, o, playback, k - 1) {
            Some(i) => Some(i),
            None => if o[k - 1] && cmd_end(c[k - 1]) <= playback {
                Some(k - 1)
            } else {
                None
            },
        }
    }
}

/// The slot a chunk goes to: the first free slot, else the first played-out one.
pub open spec fn alloc_choice(c: Seq<MixCmd>, o: Seq<bool>, playback: usize) -> Option<int> {
    match first_free_below(o, SLOT_COUNT as int) {
        Some(i) => Some(i),
        None => first_done_below(c, o, playback, SLOT_COUNT as int),
    }
}

/// Frames of the chunk that starts `off` frames into `len`.
pub open spec fn chunk_len(len: usize, off: int) -> int {
    if len - off < SLOT_FRAMES {
        len - off
    } else {
        SLOT_FRAMES as int
    }
}

/// The command a copy `(slot, offset, frames)` of a chunk queued at `at` onto `dest` stores.
pub open spec fn chunk_cmd(at: usize, dest: MixDest, c: MixCopy) -> MixCmd {
    MixCmd { at: sat_add(at, c.1), len: c.2, slot: c.0, dest }
}

/// Enqueuing `len` frames at `at` onto `dest`, from `off` frames in, on a table
/// with commands `c`, occupancy `o` and playback `playback`: each chunk of at
/// most [`SLOT_FRAMES`] goes to [`alloc_choice`]; at the first chunk with no
/// slot the rest is dropped. Gives the commands, the occupancy, and the
/// copies `(slot, offset, frames)` made.
pub open spec fn plan_from(
    c: Seq<MixCmd>,
    o: Seq<bool>,
    playback: usize,
    len: usize,
    at: usize,
    dest: MixDest,
    off: int,
) -> (Seq<MixCmd>, Seq<bool>, Seq<MixCopy>)
    decreases len - off,
{
    if off < 0 || off >= len {
        (c, o, Seq::empty())
    } else {
        match alloc_choice(c, o, playback) {
            None => (c, o, Seq::empty()),
            Some(i) => {
                let n = chunk_len(len, off);
                let cmd = MixCmd { at: sat_add(at, off as usize), len: n as usize, slot: i as usize, dest };
                let rest = plan_from(
                    c.update(i, cmd),
                    o.update(i, true),
                    playback,
                    len,
                    at,
                    dest,
                    off + n,
                );
                (rest.0, rest.1, seq![(i as usize, off as usize, n as usize)] + rest.2)
            },
        }
    }
}

/// Once a first match is found among a prefix, longer prefixes keep it.
proof fn lemma_first_free_keeps(o: Seq<bool>, k: int, j: int)
    requires
        k <= j,
        first_free_below(o, k) is Some,
    ensures
        first_free_below(o, j) == first_free_below(o, k),
    decreases j - k,
{
    if j > k {
        lemma_first_free_keeps(o, k, j - 1);
    }
}

proof fn lemma_first_done_keeps(c: Seq<MixCmd>, o: Seq<bool>, playback: usize, k: int, j: int)
    requires
        k <= j,
        first_done_below(c, o, playback, k) is Some,
    ensures
        first_done_below(c, o, playback, j) == first_done_below(c, o, playback, k),
    decreases j - k,
{
    if j > k {
        lemma_first_done_keeps(c, o, playback, k, j - 1);
    }
}

/// When the queued audio starts at or after playback and its end fits, every
/// chunk is live, so each keeps its own slot and command.
proof fn lemma_future_chunks_kept(
    r: Seq<MixCopy>,
    c: Seq<MixCmd>,
    o: Seq<bool>,
    playback: usize,
    len: usize,
    at: usize,
    dest: MixDest,
)
    requires
        playback <= at,
        at + len <= usize::MAX,
        forall|k: int|
            0 <= k < r.len() ==> (#[trigger] r[k]).1 < len && r[k].2 == chunk_len(len, r[k].1 as int),
        forall|k: int|
            0 <= k < r.len() && cmd_end(#[trigger] chunk_cmd(at, dest, r[k])) > playback ==> o[r[k].0 as int]
                && c[r[k].0 as int] == chunk_cmd(at, dest, r[k]) && forall|j: int|
                k < j < r.len() ==> (#[trigger] r[j]).0 != r[k].0,
    ensures
        forall|k: int|
            0 <= k < r.len() ==> o[(#[trigger] r[k]).0 as int] && c[r[k].0 as int] == chunk_cmd(
                at,
                dest,
                r[k],
            ) && forall|j: int| 0 <= j < r.len() && j != k ==> (#[trigger] r[j]).0 != r[k].0,
{
    assert forall|k: int| 0 <= k < r.len() implies cmd_end(#[trigger] chunk_cmd(at, dest, r[k]))
        > playback by {
        assert(r[k].2 > 0);
    }
    assert forall|k: int| 0 <= k < r.len() implies o[(#[trigger] r[k]).0 as int] && c[r[k].0 as int]
        == chunk_cmd(at, dest, r[k]) && forall|j: int| 0 <= j < r.len() && j != k ==> (
    #[trigger] r[j]).0 != r[k].0 by {
        assert(cmd_end(chunk_cmd(at, dest, r[k])) > playback);
        assert forall|j: int| 0 <= j < r.len() && j != k implies (#[trigger] r[j]).0 != r[k].0 by {
            if j < k {
                assert(cmd_end(chunk_cmd(at, dest, r[j])) > playback);
            }
        }
    }
}

/// Fixed table of [`SLOT_COUNT`] mix commands and the playback position.
///
/// A slot is live while it is occupied and its command ends after playback.
#[derive(Debug)]
pub struct MixTable {
    cmds: Vec<MixCmd>,
    occupied: Vec<bool>,
    playback: usize,
}

/// One planned copy of PCM: `(slot, source offset, frames)`.
pub type MixCopy = (usize, usize, usize);

impl MixTable {
    /// Commands by slot.
    pub closed spec fn cmds_view(&self) -> Seq<MixCmd> {
        self.cmds@
    }

    /// Occupancy by slot.
    pub closed spec fn occupied_view(&self) -> Seq<bool> {
        self.occupied@
    }

    /// Sample frames played so far.
    pub closed spec fn playback_view(&self) -> usize {
        self.playback
    }

    /// Exactly [`SLOT_COUNT`] slots; an occupied slot's command names that
    /// slot and fits in it.
    pub open spec fn wf(&self) -> bool {
        &&& self.cmds_view().len() == SLOT_COUNT
        &&& self.occupied_view().len() == SLOT_COUNT
        &&& forall|i: int|
            0 <= i < SLOT_COUNT && #[trigger] self.occupied_view()[i] ==> self.cmds_view()[i].slot
                == i && 0 < self.cmds_view()[i].len <= SLOT_FRAMES
    }

    /// Slot `i` holds audio that has not been played out.
    pub open spec fn live(&self, i: int) -> bool {
        self.occupied_view()[i] && cmd_end(self.cmds_view()[i]) > self.playback_view()
    }

    /// Empty table at playback 0.
    pub fn new() -> (r: Self)
        ensures
            r.wf(),
            r.playback_view() == 0,
            forall|i: int| 0 <= i < SLOT_COUNT ==> !(#[trigger] r.occupied_view()[i]),
    {
        let mut cmds: Vec<MixCmd> = Vec::new();
        let mut occupied: Vec<bool> = Vec::new();
        let mut i: usize = 0;
        while i < SLOT_COUNT
            invariant
                0 <= i <= SLOT_COUNT,
                cmds@.len() == i,
                occupied@.len() == i,
                forall|j: int| 0 <= j < i ==> !(#[trigger] occupied@[j]),
            decreases SLOT_COUNT - i,
        {
            cmds.push(MixCmd { at: 0, len: 0, slot: 0, dest: MixDest::Master });
            occupied.push(false);
            i = i + 1;
        }
        MixTable { cmds, occupied, playback: 0 }
    }

    /// Sample frames played so far.
    pub fn playback(&self) -> (r: usize)
        ensures
            r == self.playback_view(),
    {
        self.playback
    }

    /// Whether slot `i` holds a command.
    pub fn is_occupied(&self, i: usize) -> (r: bool)
        requires
            self.wf(),
            i < SLOT_COUNT,
        ensures
            r == self.occupied_view()[i as int],
    {
        self.occupied[i]
    }

    /// The command in slot `i`.
    pub fn cmd(&self, i: usize) -> (r: MixCmd)
        requires
            self.wf(),
            i < SLOT_COUNT,
        ensures
            r == self.cmds_view()[i as int],
    {
        self.cmds[i]
    }

    /// A slot to write into: the first free slot, else the first slot whose
    /// audio has been played out (freed here). Never a live slot.
    pub fn alloc_slot(&mut self) -> (r: Option<usize>)
        requires
            old(self).wf(),
        ensures
            final(self).wf(),
            final(self).cmds_view() == old(self).cmds_view(),
            final(self).playback_view() == old(self).playback_view(),
            match alloc_choice(
                old(self).cmds_view(),
                old(self).occupied_view(),
                old(self).playback_view(),
            ) {
                Some(i) => 0 <= i < SLOT_COUNT && r == Some(i as usize),
                None => r is None,
            },
            match r {
                Some(i) => i < SLOT_COUNT && !old(self).live(i as int)
                    && final(self).occupied_view() == old(self).occupied_view().update(i as int, false)
                    && if old(self).occupied_view()[i as int] {
                    (forall|j: int| 0 <= j < SLOT_COUNT ==> #[trigger] old(self).occupied_view()[j])
                        && (forall|j: int| 0 <= j < i ==> #[trigger] old(self).live(j))
                } else {
                    forall|j: int| 0 <= j < i ==> #[trigger] old(self).occupied_view()[j]
                },
                None => final(self).occupied_view() == old(self).occupied_view() && forall|j: int|
                    0 <= j < SLOT_COUNT ==> #[trigger] old(self).live(j),
            },
    {
        let mut i: usize = 0;
        while i < SLOT_COUNT
            invariant
                0 <= i <= SLOT_COUNT,
                self.wf(),
                *self == *old(self),
                forall|j: int| 0 <= j < i ==> #[trigger] self.occupied_view()[j],
                first_free_below(self.occupied_view(), i as int) is None,
            decreases SLOT_COUNT - i,
        {
            if !self.occupied[i] {
                proof {
                    lemma_first_free_keeps(self.occupied_view(), i + 1, SLOT_COUNT as int);
                }
                return Some(i);
            }
            i = i + 1;
        }
        let mut i: usize = 0;
        while i < SLOT_COUNT
            invariant
                0 <= i <= SLOT_COUNT,
                self.wf(),
                *self == *old(self),
                forall|j: int| 0 <= j < SLOT_COUNT ==> #[trigger] self.occupied_view()[j],
                forall|j: int| 0 <= j < i ==> #[trigger] self.live(j),
                first_free_below(self.occupied_view(), SLOT_COUNT as int) is None,
                first_done_below(
                    self.cmds_view(),
                    self.occupied_view(),
                    self.playback_view(),
                    i as int,
                ) is None,
            decreases SLOT_COUNT - i,
        {
            let c = self.cmds[i];
            let end = c.at.saturating_add(c.len);
            if end <= self.playback {
                proof {
                    lemma_first_done_keeps(
                        self.cmds_view(),
                        self.occupied_view(),
                        self.playback_view(),
                        i + 1,
                        SLOT_COUNT as int,
                    );
                }
                self.occupied.set(i, false);
                return Some(i);
            }
            i = i + 1;
        }
        None
    }

    /// Plan the copy of `len` frames to play at `at` onto `dest`, in chunks of
    /// [`SLOT_FRAMES`]. Each chunk takes a slot from [`Self::alloc_slot`]; when
    /// none is left the rest is dropped rather than overwriting live audio.
    ///
    /// Returns, per chunk placed, `(slot, source offset, frames)`; the host copies
    /// `frames[offset..offset + n]` into that slot's storage, in order.
    pub fn enqueue(&mut self, len: usize, at: usize, dest: MixDest) -> (r: Vec<MixCopy>)
        requires
            old(self).wf(),
        ensures
            final(self).wf(),
            final(self).playback_view() == old(self).playback_view(),
            ({
                let p = plan_from(
                    old(self).cmds_view(),
                    old(self).occupied_view(),
                    old(self).playback_view(),
                    len,
                    at,
                    dest,
                    0,
                );
                &&& final(self).cmds_view() == p.0
                &&& final(self).occupied_view() == p.1
                &&& r@ == p.2
            }),
            forall|i: int|
                0 <= i < SLOT_COUNT && #[trigger] old(self).live(i) ==> final(self).occupied_view()[i]
                    && final(self).cmds_view()[i] == old(self).cmds_view()[i],
            forall|k: int|
                0 <= k < r@.len() ==> (#[trigger] r@[k]).0 < SLOT_COUNT && r@[k].1 == k
                    * SLOT_FRAMES && r@[k].1 < len && r@[k].2 == chunk_len(len, r@[k].1 as int)
                    && !old(self).live(r@[k].0 as int),
            forall|i: int|
                0 <= i < SLOT_COUNT && (forall|k: int| 0 <= k < r@.len() ==> (#[trigger] r@[k]).0 != i)
                    ==> final(self).occupied_view()[i] == old(self).occupied_view()[i]
                    && final(self).cmds_view()[i] == old(self).cmds_view()[i],
            forall|k: int|
                0 <= k < r@.len() && cmd_end(#[trigger] chunk_cmd(at, dest, r@[k]))
                    > old(self).playback_view() ==> final(self).occupied_view()[r@[k].0 as int]
                    && final(self).cmds_view()[r@[k].0 as int] == chunk_cmd(at, dest, r@[k]) && forall|
                    j: int,
                | k < j < r@.len() ==> (#[trigger] r@[j]).0 != r@[k].0,
            old(self).playback_view() <= at && at + len <= usize::MAX ==> forall|k: int|
                0 <= k < r@.len() ==> final(self).occupied_view()[(#[trigger] r@[k]).0 as int]
                    && final(self).cmds_view()[r@[k].0 as int] == chunk_cmd(at, dest, r@[k])
                    && forall|j: int| 0 <= j < r@.len() && j != k ==> (#[trigger] r@[j]).0 != r@[k].0,
            r@.len() * SLOT_FRAMES >= len || forall|i: int|
                0 <= i < SLOT_COUNT ==> #[trigger] final(self).live(i),
    {
        let mut out: Vec<MixCopy> = Vec::new();
        let mut offset: usize = 0;
        let ghost start = *old(self);
        let ghost pb = old(self).playback_view();
        assert(out@ + plan_from(start.cmds_view(), start.occupied_view(), pb, len, at, dest, 0).2
            =~= plan_from(start.cmds_view(), start.occupied_view(), pb, len, at, dest, 0).2);
        while offset < len
            invariant
                self.wf(),
                self.playback_view() == pb,
                start == *old(self),
                pb == start.playback_view(),
                start.wf(),
                offset == if out@.len() * SLOT_FRAMES < len {
                    out@.len() * SLOT_FRAMES
                } else {
                    len as int
                },
                ({
                    let p0 = plan_from(
                        start.cmds_view(),
                        start.occupied_view(),
                        pb,
                        len,
                        at,
                        dest,
                        0,
                    );
                    let p = plan_from(
                        self.cmds_view(),
                        self.occupied_view(),
                        pb,
                        len,
                        at,
                        dest,
                        offset as int,
                    );
                    &&& p0.0 == p.0
                    &&& p0.1 == p.1
                    &&& p0.2 == out@ + p.2
                }),
                forall|i: int|
                    0 <= i < SLOT_COUNT && #[trigger] start.live(i) ==> self.occupied_view()[i]
                        && self.cmds_view()[i] == start.cmds_view()[i],
                forall|k: int|
                    0 <= k < out@.len() ==> (#[trigger] out@[k]).0 < SLOT_COUNT && out@[k].1 == k
                        * SLOT_FRAMES && out@[k].1 < len && out@[k].2 == chunk_len(
                        len,
                        out@[k].1 as int,
                    ) && !start.live(out@[k].0 as int),
                forall|i: int|
                    0 <= i < SLOT_COUNT && (forall|k: int|
                        0 <= k < out@.len() ==> (#[trigger] out@[k]).0 != i)
                        ==> self.occupied_view()[i] == start.occupied_view()[i]
                        && self.cmds_view()[i] == start.cmds_view()[i],
                forall|k: int|
                    0 <= k < out@.len() && cmd_end(#[trigger] chunk_cmd(at, dest, out@[k])) > pb
                        ==> self.occupied_view()[out@[k].0 as int] && self.cmds_view()[out@[k].0 as int]
                        == chunk_cmd(at, dest, out@[k]) && forall|j: int|
                        k < j < out@.len() ==> (#[trigger] out@[j]).0 != out@[k].0,
            decreases len - offset,
        {
            let n = if len - offset < SLOT_FRAMES {
                len - offset
            } else {
                SLOT_FRAMES
            };
            let ghost before = *self;
            let ghost done = out@;
            let slot = match self.alloc_slot() {
                Some(s) => s,
                None => {
                    assert forall|i: int| 0 <= i < SLOT_COUNT implies #[trigger] self.live(i) by {
                        assert(before.live(i));
                    }
                    assert(out@ + Seq::<MixCopy>::empty() =~= out@);
                    proof {
                        if pb <= at && at + len <= usize::MAX {
                            lemma_future_chunks_kept(
                                out@,
                                self.cmds_view(),
                                self.occupied_view(),
                                pb,
                                len,
                                at,
                                dest,
                            );
                        }
                    }
                    return out;
                },
            };
            proof {
                if exists|k: int| 0 <= k < done.len() && done[k].0 == slot {
                    let k = choose|k: int| 0 <= k < done.len() && done[k].0 == slot;
                    assert(!start.live(done[k].0 as int));
                } else {
                    assert(before.occupied_view()[slot as int] == start.occupied_view()[slot as int]);
                }
            }
            let cmd = MixCmd { at: at.saturating_add(offset), len: n, slot, dest };
            self.cmds.set(slot, cmd);
            self.occupied.set(slot, true);
            out.push((slot, offset, n));
            proof {
                assert(alloc_choice(before.cmds_view(), before.occupied_view(), pb) == Some(
                    slot as int,
                ));
                assert(chunk_len(len, offset as int) == n);
                assert(cmd == MixCmd { at: sat_add(at, offset), len: n, slot, dest });
                assert(self.occupied_view() =~= before.occupied_view().update(slot as int, true));
                assert(self.cmds_view() =~= before.cmds_view().update(slot as int, cmd));
                assert forall|i: int|
                    0 <= i < SLOT_COUNT && (forall|k: int|
                        0 <= k < out@.len() ==> (#[trigger] out@[k]).0 != i) implies self.occupied_view()[i]
                    == start.occupied_view()[i] && self.cmds_view()[i] == start.cmds_view()[i] by {
                    assert(out@[done.len() as int].0 != i);
                    assert forall|k: int| 0 <= k < done.len() implies (#[trigger] done[k]).0 != i by {
                        assert(out@[k] == done[k]);
                    }
                }
                assert(chunk_cmd(at, dest, out@[done.len() as int]) == cmd);
                let rest = plan_from(
                    self.cmds_view(),
                    self.occupied_view(),
                    pb,
                    len,
                    at,
                    dest,
                    offset + n,
                );
                assert(plan_from(
                    before.cmds_view(),
                    before.occupied_view(),
                    pb,
                    len,
                    at,
                    dest,
                    offset as int,
                ).2 == seq![(slot, offset, n)] + rest.2);
                assert(done + (seq![(slot, offset, n)] + rest.2) =~= out@ + rest.2);
                assert forall|k: int|
                    0 <= k < done.len() && cmd_end(#[trigger] chunk_cmd(at, dest, out@[k])) > pb
                        implies out@[k].0 != slot by {
                    assert(out@[k] == done[k]);
                    assert(before.live(done[k].0 as int));
                }
            }
            offset = offset + n;
        }
        assert(out@ + Seq::<MixCopy>::empty() =~= out@);
        proof {
            if pb <= at && at + len <= usize::MAX {
                lemma_future_chunks_kept(
                    out@,
                    self.cmds_view(),
                    self.occupied_view(),
                    pb,
                    len,
                    at,
                    dest,
                );
            }
        }
        out
    }

    /// What the callback adds for the `n` frames from sample `start`: one span
    /// per occupied slot whose audio overlaps them, in slot order.
    pub fn chunk_plan(&self, start: usize, n: usize) -> (r: Vec<MixSpan>)
        requires
            self.wf(),
        ensures
            r@ == spans_upto(
                self.cmds_view(),
                self.occupied_view(),
                start,
                sat_add(start, n),
                SLOT_COUNT as int,
            ),
            forall|j: int|
                0 <= j < r@.len() ==> (#[trigger] r@[j]).slot < SLOT_COUNT && r@[j].src + r@[j].len
                    <= SLOT_FRAMES && r@[j].dst + r@[j].len <= n,
            forall|s: int|
                0 <= s < SLOT_COUNT && #[trigger] self.occupied_view()[s] && overlaps(
                    self.cmds_view()[s],
                    start,
                    sat_add(start, n),
                ) ==> exists|j: int|
                    0 <= j < r@.len() && span_plays(
                        #[trigger] r@[j],
                        self.cmds_view()[s],
                        start,
                        sat_add(start, n),
                    ),
            forall|j: int|
                0 <= j < r@.len() ==> exists|s: int|
                    0 <= s < SLOT_COUNT && #[trigger] self.occupied_view()[s] && overlaps(
                        self.cmds_view()[s],
                        start,
                        sat_add(start, n),
                    ) && span_plays(#[trigger] r@[j], self.cmds_view()[s], start, sat_add(start, n)),
            forall|j1: int, j2: int|
                0 <= j1 < j2 < r@.len() ==> (#[trigger] r@[j1]).slot < (#[trigger] r@[j2]).slot,
    {
        let mut out: Vec<MixSpan> = Vec::new();
        self.chunk_plan_into(start, n, &mut out);
        out
    }

    /// [`Self::chunk_plan`] into `out`, which is cleared first; the audio
    /// callback passes a buffer of [`SLOT_COUNT`] capacity so that it does not
    /// allocate.
    pub fn chunk_plan_into(&self, start: usize, n: usize, out: &mut Vec<MixSpan>)
        requires
            self.wf(),
        ensures
            final(out)@ == spans_upto(
                self.cmds_view(),
                self.occupied_view(),
                start,
                sat_add(start, n),
                SLOT_COUNT as int,
            ),
            forall|j: int|
                0 <= j < final(out)@.len() ==> (#[trigger] final(out)@[j]).slot < SLOT_COUNT
                    && final(out)@[j].src + final(out)@[j].len <= SLOT_FRAMES && final(out)@[j].dst
                    + final(out)@[j].len <= n,
            forall|s: int|
                0 <= s < SLOT_COUNT && #[trigger] self.occupied_view()[s] && overlaps(
                    self.cmds_view()[s],
                    start,
                    sat_add(start, n),
                ) ==> exists|j: int|
                    0 <= j < final(out)@.len() && span_plays(
                        #[trigger] final(out)@[j],
                        self.cmds_view()[s],
                        start,
                        sat_add(start, n),
                    ),
            forall|j: int|
                0 <= j < final(out)@.len() ==> exists|s: int|
                    0 <= s < SLOT_COUNT && #[trigger] self.occupied_view()[s] && overlaps(
                        self.cmds_view()[s],
                        start,
                        sat_add(start, n),
                    ) && span_plays(#[trigger] final(out)@[j], self.cmds_view()[s], start, sat_add(start, n)),
            forall|j1: int, j2: int|
                0 <= j1 < j2 < final(out)@.len() ==> (#[trigger] final(out)@[j1]).slot < (#[trigger] final(out)@[j2]).slot,
    {
        proof {
            lemma_spans_in_bounds(
                self.cmds_view(),
                self.occupied_view(),
                start,
                n,
                SLOT_COUNT as int,
            );
        }
        out.clear();
        let end = start.saturating_add(n);
        let mut i: usize = 0;
        while i < SLOT_COUNT
            invariant
                0 <= i <= SLOT_COUNT,
                self.wf(),
                end == sat_add(start, n),
                out@ == spans_upto(self.cmds_view(), self.occupied_view(), start, end, i as int),
            decreases SLOT_COUNT - i,
        {
            if self.occupied[i] {
                let c = self.cmds[i];
                let c_end = c.at.saturating_add(c.len);
                if !(c_end <= start || c.at >= end) {
                    let from = if c.at < start {
                        start
                    } else {
                        c.at
                    };
                    let to = if c_end < end {
                        c_end
                    } else {
                        end
                    };
                    out.push(
                        MixSpan {
                            slot: c.slot,
                            dest: c.dest,
                            src: from - c.at,
                            dst: from - start,
                            len: to - from,
                        },
                    );
                }
            }
            i = i + 1;
        }
        proof {
            lemma_chunk_plan_mixes_overlaps(
                self.cmds_view(),
                self.occupied_view(),
                start,
                end,
                SLOT_COUNT as int,
            );
            lemma_chunk_plan_slot_order(
                self.cmds_view(),
                self.occupied_view(),
                start,
                end,
                SLOT_COUNT as int,
            );
        }
    }

    /// After the callback rendered up to sample `end`: free every slot whose
    /// audio ends by then, and move playback to `end`.
    pub fn retire(&mut self, end: usize)
        requires
            old(self).wf(),
        ensures
            final(self).wf(),
            final(self).playback_view() == end,
            final(self).cmds_view() == old(self).cmds_view(),
            forall|i: int|
                0 <= i < SLOT_COUNT ==> #[trigger] final(self).occupied_view()[i] == (old(
                    self,
                ).occupied_view()[i] && cmd_end(old(self).cmds_view()[i]) > end),
    {
        let mut i: usize = 0;
        while i < SLOT_COUNT
            invariant
                0 <= i <= SLOT_COUNT,
                self.wf(),
                self.cmds_view() == old(self).cmds_view(),
                self.playback_view() == old(self).playback_view(),
                forall|j: int|
                    0 <= j < i ==> #[trigger] self.occupied_view()[j] == (old(
                        self,
                    ).occupied_view()[j] && cmd_end(old(self).cmds_view()[j]) > end),
                forall|j: int|
                    i <= j < SLOT_COUNT ==> #[trigger] self.occupied_view()[j] == old(
                        self,
                    ).occupied_view()[j],
            decreases SLOT_COUNT - i,
        {
            if self.occupied[i] {
                let c = self.cmds[i];
                if c.at.saturating_add(c.len) <= end {
                    self.occupied.set(i, false);
                }
            }
            i = i + 1;
        }
        self.playback = end;
    }
}

/// Write position and acceptance of a callback sink.
#[derive(Debug, Clone, Copy, PartialEq, Eq)]
pub struct SinkCursor {
    write_cursor: usize,
    accepted: bool,
}

impl View for SinkCursor {
    /// `(write_cursor, accepted)`.
    type V = (usize, bool);

    closed spec fn view(&self) -> (usize, bool) {
        (self.write_cursor, self.accepted)
    }
}

impl SinkCursor {
    /// At sample zero, nothing accepted.
    pub fn new() -> (r: Self)
        ensures
            r@ == (0usize, false),
    {
        SinkCursor { write_cursor: 0, accepted: false }
    }

    /// Playhead in sample frames.
    pub fn write_cursor(&self) -> (r: usize)
        ensures
            r == self@.0,
    {
        self.write_cursor
    }

    /// Whether a mix, write, start or mark was accepted.
    pub fn accepted(&self) -> (r: bool)
        ensures
            r == self@.1,
    {
        self.accepted
    }

    /// Mark accepted without moving.
    pub fn mark_accepted(&mut self)
        ensures
            final(self)@ == (old(self)@.0, true),
    {
        self.accepted = true;
    }

    /// Where a mix lands: at `at`, or at the write cursor when `None`. The
    /// cursor stays; the sink is accepted.
    pub fn mix_at(&mut self, at: Option<usize>) -> (r: usize)
        ensures
            r == match at {
                Some(a) => a,
                None => old(self)@.0,
            },
            final(self)@ == (old(self)@.0, true),
    {
        self.accepted = true;
        match at {
            Some(a) => a,
            None => self.write_cursor,
        }
    }

    /// A write of `n` frames lands at the write cursor, which then moves past
    /// them (saturating); the sink is accepted. Returns where it lands.
    pub fn write(&mut self, n: usize) -> (r: usize)
        ensures
            r == old(self)@.0,
            final(self)@ == (sat_add(old(self)@.0, n), true),
    {
        let start = self.write_cursor;
        self.write_cursor = start.saturating_add(n);
        self.accepted = true;
        start
    }
}

} // verus!
