use drywet::transport::{InvalidTimeSignature, Transport, TransportState};

#[test]
fn new_transport_is_stopped_in_four_four() {
    let t: Transport<u32> = Transport::new(120);
    assert_eq!(t.state(), TransportState::Stopped);
    assert_eq!(t.bpm(), 120);
    assert_eq!(t.clock_bpm(), 120);
    assert_eq!(t.time_signature(), (4, 4));
}

#[test]
fn start_is_idempotent() {
    let mut t: Transport<u32> = Transport::new(100);
    assert!(t.start());
    assert!(!t.start());
    assert_eq!(t.state(), TransportState::Started);
}

#[test]
fn tempo_written_while_running_waits_for_restart() {
    let mut t: Transport<u32> = Transport::new(100);
    t.start();
    t.set_bpm(140);
    assert_eq!(t.bpm(), 140);
    assert_eq!(t.clock_bpm(), 100);
    t.pause();
    t.start();
    assert_eq!(t.clock_bpm(), 100);
    t.stop();
    assert_eq!(t.clock_bpm(), 140);
    t.start();
    assert_eq!(t.clock_bpm(), 140);
}

#[test]
fn tempo_written_while_stopped_applies_at_once() {
    let mut t: Transport<u32> = Transport::new(100);
    t.set_bpm(90);
    assert_eq!(t.clock_bpm(), 90);
}

#[test]
fn pause_only_holds_a_running_clock() {
    let mut t: Transport<u32> = Transport::new(100);
    assert!(!t.pause());
    assert_eq!(t.state(), TransportState::Stopped);
    t.start();
    assert!(t.pause());
    assert_eq!(t.state(), TransportState::Paused);
    assert!(!t.pause());
}

#[test]
fn toggle_alternates_start_and_pause() {
    let mut t: Transport<u32> = Transport::new(100);
    assert_eq!(t.toggle(), TransportState::Started);
    assert_eq!(t.toggle(), TransportState::Paused);
    assert_eq!(t.toggle(), TransportState::Started);
    t.stop();
    assert_eq!(t.state(), TransportState::Stopped);
}

#[test]
fn time_signature_rejects_zero() {
    let mut t: Transport<u32> = Transport::new(100);
    assert_eq!(t.set_time_signature((6u32, 8u32)), Ok(()));
    assert_eq!(t.time_signature(), (6, 8));
    assert_eq!(t.set_time_signature((0, 8)), Err(InvalidTimeSignature));
    assert_eq!(t.set_time_signature((3, 0)), Err(InvalidTimeSignature));
    assert_eq!(t.time_signature(), (6, 8));
}

#[test]
fn transport_state_start_stop_pause_toggle_and_playhead() {
    let mut t: Transport<f64> = Transport::new(120.0);
    assert_eq!(t.state(), TransportState::Stopped);
    t.start();
    assert_eq!(t.state(), TransportState::Started);
    t.pause();
    assert_eq!(t.state(), TransportState::Paused);
    t.toggle();
    assert_eq!(t.state(), TransportState::Started);
    t.stop();
    assert_eq!(t.state(), TransportState::Stopped);
}

#[test]
fn transport_state_start_is_idempotent_and_stop_keeps_sink_open() {
    let mut t: Transport<f64> = Transport::new(120.0);
    assert!(t.start());
    assert!(!t.start());
    assert_eq!(t.state(), TransportState::Started);
    t.stop();
    assert_eq!(t.state(), TransportState::Stopped);
}

#[test]
fn transport_state_defaults_bpm_and_signature() {
    let t: Transport<f64> = Transport::new(120.0);
    assert_eq!(t.bpm(), 120.0);
    assert_eq!(t.clock_bpm(), 120.0);
    assert_eq!(t.time_signature(), (4, 4));
}

#[test]
fn transport_state_bpm_written_while_started_applies_on_next_start() {
    let mut t: Transport<f64> = Transport::new(120.0);
    t.set_bpm(100.0);
    t.start();
    t.set_bpm(140.0);
    assert_eq!(t.bpm(), 140.0);
    assert_eq!(t.clock_bpm(), 100.0);
    t.stop();
    t.start();
    assert_eq!(t.bpm(), 140.0);
    assert_eq!(t.clock_bpm(), 140.0);
}

#[test]
fn transport_state_time_signature_int_and_pair() {
    let mut t: Transport<f64> = Transport::new(120.0);
    t.set_time_signature(4).unwrap();
    assert_eq!(t.time_signature(), (4, 4));
    t.set_time_signature((6, 8)).unwrap();
    assert_eq!(t.time_signature(), (6, 8));
    t.set_time_signature((4, 4)).unwrap();
    assert_eq!(t.time_signature(), (4, 4));
    assert_eq!(t.set_time_signature(0), Err(InvalidTimeSignature));
    assert_eq!(t.set_time_signature((0, 4)), Err(InvalidTimeSignature));
    assert_eq!(t.set_time_signature((4, 0)), Err(InvalidTimeSignature));
}

#[test]
fn transport_state_pause_is_noop_when_not_started() {
    let mut t: Transport<f64> = Transport::new(120.0);
    t.pause();
    assert_eq!(t.state(), TransportState::Stopped);
    t.start();
    t.pause();
    assert_eq!(t.state(), TransportState::Paused);
    t.pause();
    assert_eq!(t.state(), TransportState::Paused);
}

#[test]
fn transport_state_toggle_from_stopped_starts() {
    let mut t: Transport<f64> = Transport::new(120.0);
    t.toggle();
    assert_eq!(t.state(), TransportState::Started);
    t.toggle();
    assert_eq!(t.state(), TransportState::Paused);
}

#[test]
fn transport_state_stop_resets_playhead_from_paused() {
    let mut t: Transport<f64> = Transport::new(120.0);
    t.start();
    t.pause();
    t.stop();
    assert_eq!(t.state(), TransportState::Stopped);
}
