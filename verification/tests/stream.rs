use drywet::bus::{BusTable, MixDest};
use drywet::stream::{
    latency_ms_from_quantum, MixCmd, MixSpan, MixTable, MockStream, SinkCursor,
    DEFAULT_QUANTUM_FRAMES, SLOT_COUNT, SLOT_FRAMES,
};

#[test]
fn latency_from_quantum() {
    assert_eq!(latency_ms_from_quantum(44100, 256), 5);
    assert_eq!(latency_ms_from_quantum(48000, 1024), 21);
    assert_eq!(latency_ms_from_quantum(48000, 48), 1);
    assert_eq!(latency_ms_from_quantum(0, 256), 0);
    assert_eq!(latency_ms_from_quantum(44100, 0), 0);
}

#[test]
fn mock_stream_lifecycle() {
    let mut s = MockStream::default_stream();
    assert_eq!(s.sample_rate(), 44100);
    assert_eq!(s.quantum_frames(), DEFAULT_QUANTUM_FRAMES);
    assert_eq!(s.latency_ms(), 5);
    assert!(!s.is_open());
    assert_eq!(s.open_count(), 0);
    s.open();
    s.open();
    assert!(s.is_open());
    assert_eq!(s.open_count(), 1);
    s.close();
    assert!(!s.is_open());
    s.open();
    assert_eq!(s.open_count(), 2);
    assert!(s.spawn_attempts().is_empty());
}

#[test]
fn mock_stream_records_callbacks() {
    let mut s = MockStream::new(48000, 128);
    assert_eq!(s.latency_ms(), 2);
    s.record_process(256);
    s.record_process(256);
    assert_eq!(s.process_calls(), 2);
    assert_eq!(s.process_samples(), 512);
}

#[test]
fn enqueue_splits_into_slot_sized_chunks() {
    let mut t = MixTable::new();
    let plan = t.enqueue(5000, 100, MixDest::Master);
    assert_eq!(plan, vec![(0, 0, SLOT_FRAMES), (1, SLOT_FRAMES, 5000 - SLOT_FRAMES)]);
    assert!(t.is_occupied(0) && t.is_occupied(1) && !t.is_occupied(2));
    assert_eq!(t.cmd(0), MixCmd { at: 100, len: SLOT_FRAMES, slot: 0, dest: MixDest::Master });
    assert_eq!(
        t.cmd(1),
        MixCmd { at: 100 + SLOT_FRAMES, len: 904, slot: 1, dest: MixDest::Master }
    );
}

#[test]
fn full_table_drops_instead_of_overwriting() {
    let mut t = MixTable::new();
    for i in 0..SLOT_COUNT {
        let plan = t.enqueue(10, 1000 + i, MixDest::Master);
        assert_eq!(plan, vec![(i, 0, 10)]);
    }
    let dropped = t.enqueue(10, 0, MixDest::Master);
    assert!(dropped.is_empty());
    for i in 0..SLOT_COUNT {
        assert_eq!(t.cmd(i).at, 1000 + i);
    }
}

#[test]
fn played_out_slots_are_reused() {
    let mut t = MixTable::new();
    for _ in 0..SLOT_COUNT {
        t.enqueue(10, 0, MixDest::Master);
    }
    t.retire(5);
    assert_eq!(t.playback(), 5);
    assert!(t.is_occupied(0));
    t.retire(10);
    assert!(!t.is_occupied(0));
    let plan = t.enqueue(3, 20, MixDest::Master);
    assert_eq!(plan, vec![(0, 0, 3)]);
    assert_eq!(t.cmd(0).at, 20);
}

#[test]
fn bus_destination_is_kept() {
    let mut t = MixTable::new();
    let mut buses: BusTable<u32> = BusTable::new();
    let id = buses.ensure("drums").unwrap();
    let dest = MixDest::Bus(id);
    let plan = t.enqueue(1, 7, dest);
    assert_eq!(plan.len(), 1);
    assert_eq!(t.cmd(plan[0].0).dest, dest);
}

#[test]
fn empty_enqueue_plans_nothing() {
    let mut t = MixTable::new();
    assert!(t.enqueue(0, 0, MixDest::Master).is_empty());
    assert!(!t.is_occupied(0));
}

#[test]
fn chunk_plan_clips_to_the_chunk() {
    let mut t = MixTable::new();
    t.enqueue(10, 5, MixDest::Master);
    t.enqueue(4, 20, MixDest::Master);
    let plan = t.chunk_plan(8, 8);
    assert_eq!(
        plan,
        vec![MixSpan { slot: 0, dest: MixDest::Master, src: 3, dst: 0, len: 7 }]
    );
    let plan = t.chunk_plan(0, 32);
    assert_eq!(
        plan,
        vec![
            MixSpan { slot: 0, dest: MixDest::Master, src: 0, dst: 5, len: 10 },
            MixSpan { slot: 1, dest: MixDest::Master, src: 0, dst: 20, len: 4 },
        ]
    );
    assert!(t.chunk_plan(15, 5).is_empty());
    t.retire(15);
    assert_eq!(t.chunk_plan(0, 32).len(), 1);
}

#[test]
fn pipewire_sink_latency_is_negotiated_not_hardcoded_80() {
    let backend = MockStream::new(44100, 256);
    let negotiated = latency_ms_from_quantum(44100, 256);
    assert_eq!(negotiated, 256 * 1000 / 44100);
    assert_eq!(negotiated, 5);
    assert_ne!(negotiated, 80);
    assert_eq!(backend.latency_ms(), negotiated);
    assert_eq!(backend.quantum_frames(), 256);

    let default_backend = MockStream::default_stream();
    let default_latency = latency_ms_from_quantum(44100, DEFAULT_QUANTUM_FRAMES);
    assert_eq!(default_backend.latency_ms(), default_latency);
    assert_ne!(default_backend.latency_ms(), 80);
}

#[test]
fn pipewire_sink_does_not_spawn_pw_cat() {
    let mut backend = MockStream::new(44100, DEFAULT_QUANTUM_FRAMES);
    backend.open();
    backend.record_process(3);
    backend.close();
    assert!(backend.spawn_attempts().is_empty());
    assert_eq!(backend.open_count(), 1);
}

#[test]
fn pipewire_sink_stop_keeps_stream_close_tears_down() {
    let mut backend = MockStream::new(44100, 256);
    assert!(!backend.is_open());
    backend.open();
    assert!(backend.is_open());
    assert_eq!(backend.open_count(), 1);
    backend.close();
    assert!(!backend.is_open());
}

#[test]
fn pipewire_sink_start_clock_is_idempotent() {
    let mut backend = MockStream::new(22050, DEFAULT_QUANTUM_FRAMES);
    backend.open();
    backend.open();
    assert!(backend.is_open());
    assert_eq!(backend.open_count(), 1);
}

#[test]
fn default_mock_stream_is_closed_at_default_rate() {
    let s = MockStream::default();
    assert_eq!(s.sample_rate(), 44100);
    assert_eq!(s.quantum_frames(), DEFAULT_QUANTUM_FRAMES);
    assert!(!s.is_open());
    assert_eq!(s.process_calls(), 0);
    assert_eq!(s.process_samples(), 0);
}

#[test]
fn three_frames_rendered_in_two_blocks() {
    let mut t = MixTable::new();
    assert_eq!(t.enqueue(3, 0, MixDest::Master), vec![(0, 0, 3)]);
    assert_eq!(
        t.chunk_plan(0, 2),
        vec![MixSpan { slot: 0, dest: MixDest::Master, src: 0, dst: 0, len: 2 }]
    );
    t.retire(2);
    assert!(t.is_occupied(0));
    assert_eq!(
        t.chunk_plan(2, 2),
        vec![MixSpan { slot: 0, dest: MixDest::Master, src: 2, dst: 0, len: 1 }]
    );
    t.retire(4);
    assert_eq!(t.playback(), 4);
    assert!((0..SLOT_COUNT).all(|i| !t.is_occupied(i)));
}

#[test]
fn every_chunk_keeps_its_command_and_other_slots_stay() {
    let mut t = MixTable::new();
    t.enqueue(1, 50, MixDest::Master);
    let plan = t.enqueue(2 * SLOT_FRAMES + 5, 100, MixDest::Master);
    assert_eq!(
        plan,
        vec![(1, 0, SLOT_FRAMES), (2, SLOT_FRAMES, SLOT_FRAMES), (3, 2 * SLOT_FRAMES, 5)]
    );
    for (k, &(slot, offset, n)) in plan.iter().enumerate() {
        assert_eq!(
            t.cmd(slot),
            MixCmd { at: 100 + offset, len: n, slot, dest: MixDest::Master }
        );
        assert_eq!(offset, k * SLOT_FRAMES);
    }
    assert_eq!(t.cmd(0), MixCmd { at: 50, len: 1, slot: 0, dest: MixDest::Master });
    assert!((4..SLOT_COUNT).all(|i| !t.is_occupied(i)));
}

#[test]
fn played_out_chunks_of_one_call_can_share_a_slot() {
    let mut t = MixTable::new();
    t.retire(10_000);
    for _ in 0..SLOT_COUNT {
        t.enqueue(1, 0, MixDest::Master);
    }
    assert!((0..SLOT_COUNT).all(|i| t.is_occupied(i)));
    let plan = t.enqueue(2 * SLOT_FRAMES, 0, MixDest::Master);
    assert_eq!(plan, vec![(0, 0, SLOT_FRAMES), (0, SLOT_FRAMES, SLOT_FRAMES)]);
    assert_eq!(
        t.cmd(0),
        MixCmd { at: SLOT_FRAMES, len: SLOT_FRAMES, slot: 0, dest: MixDest::Master }
    );
    assert_eq!(t.cmd(1), MixCmd { at: 0, len: 1, slot: 1, dest: MixDest::Master });
}

#[test]
fn sink_cursor_steps() {
    let mut c = SinkCursor::new();
    assert_eq!((c.write_cursor(), c.accepted()), (0, false));
    assert_eq!(c.mix_at(Some(7)), 7);
    assert!(c.accepted());
    assert_eq!(c.write(3), 0);
    assert_eq!(c.mix_at(None), 3);
    assert_eq!(c.write_cursor(), 3);
    let mut d = SinkCursor::new();
    d.write(usize::MAX - 1);
    d.write(5);
    assert_eq!(d.write_cursor(), usize::MAX);
}
