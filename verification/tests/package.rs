use drywet::limits::{
    BPM_MAX, BPM_MIN, DEFAULT_CHANNELS, DEFAULT_MAX_VOICES, DEFAULT_PPQ, DEFAULT_SAMPLE_RATE,
    MAX_BUSES, MAX_INSERTS, MIDI_MAX, MIDI_MIN,
};

#[test]
fn version_is_semver() {
    assert_eq!(drywet::VERSION, "0.1.0");
}

#[test]
fn pitch_constants() {
    assert_eq!((MIDI_MIN, MIDI_MAX), (0, 127));
    assert_eq!((BPM_MIN, BPM_MAX), (40, 240));
    assert_eq!(DEFAULT_PPQ, 192);
    assert_eq!(DEFAULT_SAMPLE_RATE, 44100);
    assert_eq!(DEFAULT_CHANNELS, 1);
    assert_eq!(DEFAULT_MAX_VOICES, 32);
    assert_eq!((MAX_INSERTS, MAX_BUSES), (8, 8));
}
