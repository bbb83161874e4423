use drywet::device::{MixPlacement, PlaybackCursor};

/// Applies the placements to a mono buffer the way the device sink does.
struct Mono {
    cursor: PlaybackCursor,
    mono: Vec<f32>,
}

impl Mono {
    fn new(cursor: PlaybackCursor) -> Self {
        Mono { cursor, mono: Vec::new() }
    }

    fn add(&mut self, frames: &[f32], p: Option<MixPlacement>) {
        if let Some(p) = p {
            if self.mono.len() < self.cursor.queued() {
                self.mono.resize(self.cursor.queued(), 0.0);
            }
            for k in 0..p.len {
                self.mono[p.start + k] += frames[p.skip + k];
            }
        }
    }

    fn mix(&mut self, frames: &[f32], at: Option<usize>) {
        let p = self.cursor.mix(frames.len(), at);
        self.add(frames, p);
    }

    fn write(&mut self, frames: &[f32]) {
        let p = self.cursor.write(frames.len());
        self.add(frames, p);
    }

    fn reclaim(&mut self) {
        if self.cursor.reclaim_consumed() {
            self.mono.clear();
        }
    }
}

#[test]
fn playback_stages_and_mixes_without_a_device() {
    let mut playback = Mono::new(PlaybackCursor::new());
    playback.mix(&[0.5, 0.25], Some(1));
    playback.write(&[0.0; 4]);
    assert_eq!(playback.mono, [0.0, 0.5, 0.25, 0.0]);
    assert_eq!(playback.cursor.write_cursor(), 4);
    assert_eq!(playback.cursor.queued_end(), 4);
}

#[test]
fn live_cursor_follows_device_playhead() {
    let mut playback = Mono::new(PlaybackCursor::with_cursors(100, 25, true));
    assert_eq!(playback.cursor.write_cursor(), 25);
    playback.mix(&[0.75], None);
    assert_eq!(playback.cursor.base_cursor(), 25);
    assert_eq!(playback.mono, [0.75]);
}

#[test]
fn consumed_audio_reuses_the_buffer_at_the_current_cursor() {
    let mut playback = Mono::new(PlaybackCursor::new());
    playback.mix(&[0.25; 128], Some(0));
    for _ in 0..128 {
        playback.cursor.take_frame();
    }
    assert_eq!(playback.cursor.playback_cursor(), 128);
    playback.reclaim();
    assert!(playback.mono.is_empty());
    assert_eq!(playback.cursor.base_cursor(), 128);

    playback.cursor.begin_playing();
    playback.mix(&[0.5], None);
    assert_eq!(playback.mono, [0.5]);
}

#[test]
fn frames_before_the_window_are_dropped() {
    let mut c = PlaybackCursor::with_cursors(0, 10, true);
    assert_eq!(c.mix(2, Some(10)), Some(MixPlacement { skip: 0, start: 0, len: 2 }));
    assert_eq!(c.mix(5, Some(8)), Some(MixPlacement { skip: 2, start: 0, len: 3 }));
    assert_eq!(c.queued(), 3);
    assert_eq!(c.mix(2, Some(3)), None);
    assert_eq!(c.mix(0, None), None);
}

#[test]
fn device_callback_reads_the_window() {
    let mut c = PlaybackCursor::new();
    assert!(!c.accepted());
    c.mix(2, Some(1));
    assert!(c.accepted());
    assert_eq!(c.take_frame(), Some(0));
    assert_eq!(c.take_frame(), Some(1));
    assert_eq!(c.take_frame(), Some(2));
    assert_eq!(c.take_frame(), None);
    assert!(c.reclaim_consumed());
    assert_eq!((c.queued(), c.base_cursor()), (0, 4));
    assert_eq!(c.sample_index(4), None);
}

#[test]
fn staging_cursor_only_moves_before_playing() {
    let mut c = PlaybackCursor::new();
    c.write(3);
    assert_eq!(c.write_cursor(), 3);
    c.begin_playing();
    assert!(c.is_playing());
    assert_eq!(c.write_cursor(), 0);
    c.write(2);
    assert_eq!(c.write_cursor(), 0);
    assert_eq!(c.queued_end(), 3);
    c.stop_playing();
    assert_eq!(c.write_cursor(), 3);
}
