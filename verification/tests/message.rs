use drywet::event::SequenceEvent;
use drywet::message::{
    duration_from_msg, get, get_text, instrument_request, json_to_note, json_to_time,
    loop_request, loop_setting, note_from_msg, parse_command_line, parse_part_events, parse_sequence_event,
    parse_sequence_events, part_request, sequence_request, time_from_msg, InstrumentRequest,
    JsonValue, LineError, MessageError, SamplerSource, TimeSpec,
};

fn s(t: &str) -> JsonValue {
    JsonValue::Str(t.to_string())
}

fn n(t: &str) -> JsonValue {
    JsonValue::Number(t.to_string())
}

fn obj(fields: Vec<(&str, JsonValue)>) -> JsonValue {
    JsonValue::Object(fields.into_iter().map(|(k, v)| (k.to_string(), v)).collect())
}

fn arr(items: Vec<JsonValue>) -> JsonValue {
    JsonValue::Array(items)
}

fn value(t: &str) -> SequenceEvent {
    SequenceEvent::Value(t.to_string())
}

#[test]
fn fields_by_name() {
    let msg = obj(vec![("cmd", s("start")), ("bpm", n("120")), ("cmd", s("stop"))]);
    assert_eq!(get_text(&msg, "cmd"), Some("start"));
    assert_eq!(get(&msg, "bpm"), Some(&n("120")));
    assert_eq!(get_text(&msg, "bpm"), None);
    assert_eq!(get(&msg, "missing"), None);
    assert_eq!(get(&s("cmd"), "cmd"), None);
}

#[test]
fn note_and_duration_defaults() {
    assert_eq!(note_from_msg(&obj(vec![])), "C4");
    assert_eq!(note_from_msg(&obj(vec![("note", s("E4"))])), "E4");
    assert_eq!(note_from_msg(&obj(vec![("note", n("64"))])), "64");
    assert_eq!(note_from_msg(&obj(vec![("note", JsonValue::Bool(true))])), "C4");
    assert_eq!(duration_from_msg(&obj(vec![])), TimeSpec::Text("8n".to_string()));
    assert_eq!(
        duration_from_msg(&obj(vec![("duration", s("4n"))])),
        TimeSpec::Text("4n".to_string())
    );
    assert_eq!(
        duration_from_msg(&obj(vec![("duration", n("0.25"))])),
        TimeSpec::Seconds("0.25".to_string())
    );
}

#[test]
fn times_and_event_values() {
    assert_eq!(time_from_msg(&obj(vec![])), Ok(None));
    assert_eq!(time_from_msg(&obj(vec![("time", JsonValue::Null)])), Ok(None));
    assert_eq!(
        time_from_msg(&obj(vec![("time", s("+8n"))])),
        Ok(Some(TimeSpec::Text("+8n".to_string())))
    );
    assert_eq!(
        time_from_msg(&obj(vec![("time", JsonValue::Bool(false))])),
        Err(MessageError::InvalidTime)
    );
    assert_eq!(json_to_time(&n("1.5")), Ok(TimeSpec::Seconds("1.5".to_string())));
    assert_eq!(json_to_time(&arr(vec![])), Err(MessageError::InvalidTime));
    assert_eq!(json_to_note(&s("G4")), Ok("G4".to_string()));
    assert_eq!(json_to_note(&n("60")), Ok("60".to_string()));
    assert_eq!(json_to_note(&JsonValue::Null), Err(MessageError::EventNull));
    assert_eq!(json_to_note(&JsonValue::Bool(true)), Err(MessageError::InvalidEventValue));
}

#[test]
fn nested_sequence_events() {
    let events = arr(vec![s("C4"), JsonValue::Null, arr(vec![s("E4"), n("67")])]);
    assert_eq!(
        parse_sequence_events(&events),
        Ok(vec![
            value("C4"),
            SequenceEvent::Rest,
            SequenceEvent::Group(vec![value("E4"), value("67")]),
        ])
    );
    assert_eq!(
        parse_sequence_event(&arr(vec![s("C4"), arr(vec![JsonValue::Bool(true)])])),
        Err(MessageError::InvalidSequenceEvent)
    );
    assert_eq!(parse_sequence_events(&s("C4")), Err(MessageError::EventsNotList));
}

#[test]
fn part_events_pairs_and_objects() {
    let events = arr(vec![
        arr(vec![s("0:0:0"), s("C4")]),
        obj(vec![("time", n("0.5")), ("note", s("E4"))]),
        obj(vec![("time", s("4n")), ("event", s("G4")), ("note", s("A4"))]),
    ]);
    assert_eq!(
        parse_part_events(&events),
        Ok(vec![
            (TimeSpec::Text("0:0:0".to_string()), "C4".to_string()),
            (TimeSpec::Seconds("0.5".to_string()), "E4".to_string()),
            (TimeSpec::Text("4n".to_string()), "G4".to_string()),
        ])
    );
    assert_eq!(
        parse_part_events(&arr(vec![arr(vec![s("0")])])),
        Err(MessageError::PartPairTooShort)
    );
    assert_eq!(
        parse_part_events(&arr(vec![obj(vec![("note", s("C4"))])])),
        Err(MessageError::PartMissingTime)
    );
    assert_eq!(
        parse_part_events(&arr(vec![obj(vec![("time", JsonValue::Bool(true))])])),
        Err(MessageError::PartMissingEvent)
    );
    assert_eq!(
        parse_part_events(&arr(vec![obj(vec![("time", JsonValue::Null), ("note", s("C4"))])])),
        Err(MessageError::InvalidTime)
    );
    assert_eq!(parse_part_events(&arr(vec![s("C4")])), Err(MessageError::InvalidPartEvent));
    assert_eq!(parse_part_events(&obj(vec![])), Err(MessageError::PartEventsNotList));
    assert_eq!(
        parse_part_events(&arr(vec![s("x"), arr(vec![])])),
        Err(MessageError::InvalidPartEvent)
    );
}

#[test]
fn transport_loop_flag() {
    assert_eq!(loop_setting(&obj(vec![])), Some(false));
    assert_eq!(loop_setting(&obj(vec![("loop", JsonValue::Null)])), Some(false));
    assert_eq!(loop_setting(&obj(vec![("loop", JsonValue::Bool(true))])), Some(true));
    assert_eq!(loop_setting(&obj(vec![("loop", obj(vec![]))])), None);
    assert_eq!(loop_setting(&obj(vec![("loop", n("0"))])), Some(true));
}

#[test]
fn warmup_instruments() {
    assert_eq!(instrument_request(&obj(vec![])), Ok(InstrumentRequest::Synth));
    assert_eq!(
        instrument_request(&obj(vec![("instrument", s("drum"))])),
        Ok(InstrumentRequest::Drum)
    );
    assert_eq!(
        instrument_request(&obj(vec![("instrument", n("3"))])),
        Ok(InstrumentRequest::Synth)
    );
    assert_eq!(
        instrument_request(&obj(vec![("instrument", s("piano"))])),
        Err(MessageError::UnknownInstrument("piano".to_string()))
    );
    assert_eq!(
        instrument_request(&obj(vec![
            ("instrument", s("sampler")),
            ("directory", s("/samples")),
            ("loop", JsonValue::Bool(true)),
            ("map", obj(vec![("C4", s("c4.wav"))])),
        ])),
        Ok(InstrumentRequest::Sampler {
            source: SamplerSource::Directory("/samples".to_string()),
            loop_flag: true
        })
    );
    assert_eq!(
        instrument_request(&obj(vec![
            ("instrument", s("sampler")),
            ("urls", obj(vec![("C4", s("c4.wav")), ("E4", s("e4.wav"))])),
        ])),
        Ok(InstrumentRequest::Sampler {
            source: SamplerSource::Pairs(
                vec![
                    ("C4".to_string(), "c4.wav".to_string()),
                    ("E4".to_string(), "e4.wav".to_string()),
                ],
                None
            ),
            loop_flag: false
        })
    );
    assert_eq!(
        instrument_request(&obj(vec![
            ("instrument", s("sampler")),
            ("map", obj(vec![("C4", s("c4.wav")), ("D4", n("1"))])),
        ])),
        Ok(InstrumentRequest::Sampler {
            source: SamplerSource::Pairs(
                vec![("C4".to_string(), "c4.wav".to_string())],
                Some("D4".to_string())
            ),
            loop_flag: false
        })
    );
    assert_eq!(
        instrument_request(&obj(vec![
            ("instrument", s("sampler")),
            ("map", s("not a map")),
            ("urls", obj(vec![("C4", s("c4.wav"))])),
        ])),
        Ok(InstrumentRequest::Sampler { source: SamplerSource::Pairs(vec![], None), loop_flag: false })
    );
}

#[test]
fn start_payloads() {
    let msg = obj(vec![
        ("sequence", obj(vec![("events", arr(vec![s("C4"), JsonValue::Null]))])),
        ("part", obj(vec![("events", arr(vec![arr(vec![n("0"), s("E4")])]))])),
        ("loop", obj(vec![("interval", s("2n"))])),
    ]);
    let seq = sequence_request(&msg).unwrap().unwrap();
    assert_eq!(seq.events, vec![value("C4"), SequenceEvent::Rest]);
    assert_eq!(seq.subdivision, "4n");
    assert_eq!(
        part_request(&msg),
        Ok(Some(vec![(TimeSpec::Seconds("0".to_string()), "E4".to_string())]))
    );
    assert_eq!(loop_request(&msg), Some("2n".to_string()));

    let bare = obj(vec![("sequence", obj(vec![("subdivision", s("8n"))])), ("loop", n("1"))]);
    let seq = sequence_request(&bare).unwrap().unwrap();
    assert!(seq.events.is_empty());
    assert_eq!(seq.subdivision, "8n");
    assert_eq!(part_request(&bare), Ok(None));
    assert_eq!(loop_request(&bare), None);
    assert_eq!(loop_request(&obj(vec![("loop", obj(vec![]))])), Some("4n".to_string()));

    let bad = obj(vec![("sequence", obj(vec![("events", s("C4"))]))]);
    assert_eq!(sequence_request(&bad), Err(MessageError::EventsNotList));
    assert_eq!(sequence_request(&obj(vec![("sequence", s("x"))])), Ok(None));
}

#[test]
fn command_lines_must_be_objects() {
    let msg = parse_command_line("{\"cmd\":\"start\",\"bpm\":120}").unwrap();
    assert_eq!(get_text(&msg, "cmd"), Some("start"));
    assert_eq!(get(&msg, "bpm"), Some(&n("120")));
    assert_eq!(parse_command_line("[1,2]"), Err(LineError::NotObject));
    assert_eq!(parse_command_line("\"start\""), Err(LineError::NotObject));
    assert!(matches!(parse_command_line("{\"cmd\":"), Err(LineError::Syntax(_))));
    let msg = parse_command_line("{\"note\":60.5,\"x\":[null,true]}").unwrap();
    assert_eq!(get(&msg, "note"), Some(&n("60.5")));
    assert_eq!(get(&msg, "x"), Some(&arr(vec![JsonValue::Null, JsonValue::Bool(true)])));
}

#[test]
fn sampler_pairs_stop_at_the_first_non_text_path() {
    assert_eq!(
        instrument_request(&obj(vec![
            ("instrument", s("sampler")),
            ("map", obj(vec![("A4", s("a.wav")), ("B4", n("1")), ("C5", s("c.wav"))])),
            ("loop", JsonValue::Bool(true)),
        ])),
        Ok(InstrumentRequest::Sampler {
            source: SamplerSource::Pairs(
                vec![("A4".to_string(), "a.wav".to_string())],
                Some("B4".to_string())
            ),
            loop_flag: true
        })
    );
}
