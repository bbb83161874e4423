use drywet::pitch::{clamp_midi, note_to_midi, parse_octave, IntoNote, PitchError};

#[test]
fn pitch_note_to_midi_scientific_and_int() {
    assert_eq!(note_to_midi("C4").unwrap(), 60);
    assert_eq!(note_to_midi("A4").unwrap(), 69);
    assert_eq!(note_to_midi("C#4").unwrap(), 61);
    assert_eq!(note_to_midi("Db4").unwrap(), 61);
    assert_eq!(note_to_midi(60).unwrap(), 60);
}

#[test]
fn pitch_note_to_midi_rejects_out_of_range() {
    assert!(note_to_midi(-1).is_err());
    assert!(note_to_midi(128).is_err());
    assert!(note_to_midi("H4").is_err());
}

#[test]
fn note_names_follow_octave_times_twelve_plus_class() {
    assert_eq!(note_to_midi("C-1"), Ok(0));
    assert_eq!(note_to_midi("G9"), Ok(127));
    assert_eq!(note_to_midi("B#4"), Ok(72));
    assert_eq!(note_to_midi("Cb4"), Ok(59));
    assert_eq!(note_to_midi("bb3"), Ok(58));
    assert_eq!(note_to_midi("e2"), Ok(40));
    assert_eq!(note_to_midi("  F#3\t"), Ok(54));
}

#[test]
fn note_name_errors_carry_the_input_or_the_value() {
    assert_eq!(
        note_to_midi("H4"),
        Err(PitchError::InvalidNote("H4".to_string()))
    );
    assert_eq!(note_to_midi(""), Err(PitchError::InvalidNote(String::new())));
    assert_eq!(note_to_midi("C"), Err(PitchError::InvalidNote("C".to_string())));
    assert_eq!(note_to_midi("C4x"), Err(PitchError::InvalidNote("C4x".to_string())));
    assert_eq!(note_to_midi("C-"), Err(PitchError::InvalidNote("C-".to_string())));
    assert_eq!(
        note_to_midi("C99999999999"),
        Err(PitchError::InvalidNote("C99999999999".to_string()))
    );
    assert_eq!(note_to_midi("G#9"), Err(PitchError::OutOfRange(128)));
    assert_eq!(note_to_midi("C-2"), Err(PitchError::OutOfRange(-12)));
    assert_eq!(
        note_to_midi("C2147483647"),
        Err(PitchError::OutOfRange(i32::MAX))
    );
    assert_eq!(
        note_to_midi("B178956969"),
        Err(PitchError::OutOfRange(i32::MAX))
    );
}

#[test]
fn integer_notes_pass_through_in_range() {
    for m in 0..=127 {
        assert_eq!(note_to_midi(m), Ok(m as u8));
    }
    assert_eq!(clamp_midi(-1), Err(PitchError::OutOfRange(-1)));
    assert_eq!(clamp_midi(128), Err(PitchError::OutOfRange(128)));
}

#[test]
fn string_and_borrowed_string_notes() {
    let owned = String::from("A4");
    assert_eq!((&owned).into_midi(), Ok(69));
    assert_eq!(owned.into_midi(), Ok(69));
}

#[test]
fn octave_text_with_sign() {
    assert_eq!(parse_octave(b"C-1", 1), Some(-1));
    assert_eq!(parse_octave(b"C42", 1), Some(42));
    assert_eq!(parse_octave(b"C", 1), None);
    assert_eq!(parse_octave(b"C-", 1), None);
    assert_eq!(parse_octave(b"C2147483648", 1), None);
    assert_eq!(parse_octave(b"C2147483647", 1), Some(i32::MAX));
}
