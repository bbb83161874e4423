use drywet::instrument::{drum_voice, lcg_next, DrumVoice, VoiceLimitExceeded};
use drywet::pitch::PitchError;
use drywet::{Drum, Sampler, Synth};

#[test]
fn drum_beat_grid_sixteenths() {
    assert_eq!(Drum::steps_per_bar((4, 4)), 16);
    assert_eq!(Drum::steps_per_bar((3, 4)), 12);
    assert_eq!(Drum::steps_per_bar((6, 8)), 12);
}

#[test]
fn drum_named_voices_and_unknown() {
    assert_eq!(drum_voice("kick"), Some(DrumVoice::Kick));
    assert_eq!(drum_voice("snare"), Some(DrumVoice::Snare));
    assert_eq!(drum_voice("SNARE"), Some(DrumVoice::Snare));
    assert_eq!(drum_voice("hat"), Some(DrumVoice::Hat));
    assert_eq!(drum_voice("cowbell"), None);
    assert_eq!(drum_voice("kick "), None);
    assert_eq!(Drum::new(22050).sample_rate(), 22050);
}

#[test]
fn drum_hat_aliases_and_noop_release() {
    assert_eq!(drum_voice("hi-hat"), Some(DrumVoice::Hat));
    assert_eq!(drum_voice("hihat"), Some(DrumVoice::Hat));
    assert_eq!(drum_voice("HiHat"), Some(DrumVoice::Hat));
}

#[test]
fn synth_polyphony_cap_and_release_all() {
    let mut synth = Synth::with_max_voices(44100, 2);
    assert_eq!(synth.acquire(), Ok(()));
    assert_eq!(synth.acquire(), Ok(()));
    assert_eq!(synth.acquire(), Err(VoiceLimitExceeded));
    assert_eq!(synth.active_voices(), 2);
    synth.release_all();
    assert_eq!(synth.active_voices(), 0);
    synth.release_voice();
    assert_eq!(synth.active_voices(), 0);
}

#[test]
fn synth_release_validates_the_note() {
    let mut synth = Synth::new(44100);
    assert_eq!(synth.sample_rate(), 44100);
    synth.acquire().unwrap();
    assert_eq!(
        synth.trigger_release("H4"),
        Err(PitchError::InvalidNote("H4".to_string()))
    );
    assert_eq!(synth.active_voices(), 1);
    assert_eq!(synth.trigger_release("A4"), Ok(()));
    assert_eq!(synth.active_voices(), 0);
}

#[test]
fn acquire_then_release_restores_the_count() {
    let mut synth = Synth::new(44100);
    synth.acquire().unwrap();
    let before = synth.active_voices();
    synth.acquire().unwrap();
    synth.release_voice();
    assert_eq!(synth.active_voices(), before);
}

#[test]
fn sampler_nearest_key_prefers_lower_on_tie() {
    let mut sampler: Sampler<&str> = Sampler::with_max_voices(44100, 1);
    assert_eq!(sampler.nearest_key(60), None);
    sampler.store(60, "C4");
    sampler.store(64, "E4");
    assert_eq!(sampler.nearest_key(60), Some(60));
    assert_eq!(sampler.nearest_key(62), Some(60));
    assert_eq!(sampler.nearest_key(63), Some(64));
    assert_eq!(sampler.nearest_key(0), Some(60));
    assert_eq!(sampler.nearest_key(127), Some(64));
    assert_eq!(sampler.samples()[&64], "E4");
    assert_eq!(sampler.samples().len(), 2);
}

#[test]
fn sampler_release_all_and_voice_cap() {
    let mut sampler: Sampler<Vec<i16>> = Sampler::with_max_voices(44100, 1);
    assert!(!sampler.loop_flag());
    sampler.acquire().unwrap();
    assert_eq!(sampler.active_voices(), 1);
    assert_eq!(sampler.acquire(), Err(VoiceLimitExceeded));
    sampler.trigger_release("C4").unwrap();
    assert_eq!(sampler.active_voices(), 0);
    sampler.acquire().unwrap();
    sampler.release_all();
    assert_eq!(sampler.active_voices(), 0);
    assert_eq!(Sampler::<u8>::new(22050).sample_rate(), 22050);
}

#[test]
fn drum_noise_sequence() {
    assert_eq!(lcg_next(1_234_567), 2026678708);
    assert_eq!(lcg_next(2026678708), 1074874845);
    assert_eq!(lcg_next(1074874845), 1238104402);
    assert_eq!(lcg_next(0), 12345);
    assert_eq!(lcg_next(u32::MAX), 1043980748);
}
