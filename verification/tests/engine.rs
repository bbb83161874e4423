use drywet::device::DeviceSinkError;
use drywet::engine::{command_of, Command};
use drywet::event::{flatten, SequenceEvent};

#[test]
fn commands_by_name() {
    assert_eq!(command_of(Some("warmup")), Command::Warmup);
    assert_eq!(command_of(Some("start")), Command::Start);
    assert_eq!(command_of(Some("stop")), Command::Stop);
    assert_eq!(command_of(Some("pause")), Command::Pause);
    assert_eq!(command_of(Some("resume")), Command::Resume);
    assert_eq!(command_of(Some("play-midi")), Command::PlayMidi);
    assert_eq!(command_of(Some("note-on")), Command::NoteOn);
    assert_eq!(command_of(Some("trigger_attack")), Command::NoteOn);
    assert_eq!(command_of(Some("note-off")), Command::NoteOff);
    assert_eq!(command_of(Some("trigger_release")), Command::NoteOff);
    assert_eq!(command_of(Some("bpm")), Command::Bpm);
    assert_eq!(command_of(Some("shutdown")), Command::Shutdown);
}

#[test]
fn unknown_and_missing_commands() {
    assert_eq!(command_of(Some("Start")), Command::Unknown);
    assert_eq!(command_of(Some("")), Command::Unknown);
    assert_eq!(command_of(None), Command::Unknown);
}

#[test]
fn device_error_keeps_message() {
    let e = DeviceSinkError::new("no default output device".to_string());
    assert_eq!(e.message(), "no default output device");
    assert_eq!(e.clone(), e);
}

#[test]
fn nested_sequence_group() {
    let g = SequenceEvent::group(vec![
        SequenceEvent::Value("C4".to_string()),
        SequenceEvent::Rest,
        SequenceEvent::group(vec![SequenceEvent::Value("E4".to_string())]),
    ]);
    match g {
        SequenceEvent::Group(inner) => {
            assert_eq!(inner.len(), 3);
            assert_eq!(inner[1], SequenceEvent::Rest);
            assert_eq!(
                inner[2],
                SequenceEvent::Group(vec![SequenceEvent::Value("E4".to_string())])
            );
        }
        other => panic!("expected a group, got {other:?}"),
    }
}

fn v(t: &str) -> SequenceEvent {
    SequenceEvent::Value(t.to_string())
}

#[test]
fn sequence_nested_list_subdivides_and_rests() {
    let events = vec![
        SequenceEvent::from("C4"),
        SequenceEvent::group(vec!["E4", "G4"]),
        SequenceEvent::from(None::<&str>),
        SequenceEvent::from("B4"),
    ];
    let slots = flatten(&events);
    let notes: Vec<&str> = slots.iter().map(|(_, note)| note.as_str()).collect();
    assert_eq!(notes, ["C4", "E4", "G4", "B4"]);
    assert_eq!(slots[0].0, vec![(0, 4)]);
    assert_eq!(slots[1].0, vec![(1, 4), (0, 2)]);
    assert_eq!(slots[2].0, vec![(1, 4), (1, 2)]);
    assert_eq!(slots[3].0, vec![(3, 4)]);
}

#[test]
fn flatten_deep_groups_and_empty() {
    assert!(flatten(&vec![]).is_empty());
    assert!(flatten(&vec![SequenceEvent::Rest, SequenceEvent::group(Vec::<SequenceEvent>::new())]).is_empty());
    let events = vec![SequenceEvent::group(vec![
        SequenceEvent::Rest,
        SequenceEvent::group(vec![v("a"), SequenceEvent::Rest, v("b")]),
    ])];
    assert_eq!(
        flatten(&events),
        vec![
            (vec![(0, 1), (1, 2), (0, 3)], "a".to_string()),
            (vec![(0, 1), (1, 2), (2, 3)], "b".to_string()),
        ]
    );
}

#[test]
fn sequence_events_clone_deeply() {
    let events = SequenceEvent::group(vec![
        v("C4"),
        SequenceEvent::Rest,
        SequenceEvent::group(vec![v("E4")]),
    ]);
    let copy = events.clone();
    assert_eq!(copy, events);
}

#[test]
fn sequence_events_from_values() {
    assert_eq!(SequenceEvent::from("C4".to_string()), v("C4"));
    assert_eq!(SequenceEvent::from("D4"), v("D4"));
    assert_eq!(SequenceEvent::from(&"F4".to_string()), v("F4"));
    assert_eq!(SequenceEvent::from(Some("A4")), v("A4"));
    assert_eq!(SequenceEvent::from(None::<&str>), SequenceEvent::Rest);
    let into: SequenceEvent = vec!["C4", "E4"].into();
    assert_eq!(into, SequenceEvent::Group(vec![v("C4"), v("E4")]));
    assert_eq!(SequenceEvent::from(None::<String>), SequenceEvent::Rest);
    assert_eq!(SequenceEvent::from(Some("E4".to_string())), v("E4"));
    assert_eq!(
        SequenceEvent::from(vec![v("G4"), SequenceEvent::Rest]),
        SequenceEvent::Group(vec![v("G4"), SequenceEvent::Rest])
    );
}
