//! Reading the engine's JSON command lines: the fields each verb takes and
//! the sequence, part and loop payloads of `start`.
//!
//! A line is parsed by `serde_json` into a [`JsonValue`]; numbers keep their
//! JSON text, and the host converts seconds to real numbers itself.

use vstd::prelude::*;

use crate::event::SequenceEvent;
use crate::text::same_text;

verus! {

/// A parsed JSON value. Numbers keep their JSON text; an object keeps its
/// fields in order.
#[derive(Debug, PartialEq)]
pub enum JsonValue {
    Null,
    Bool(bool),
    Number(String),
    Str(String),
    Array(Vec<JsonValue>),
    Object(Vec<(String, JsonValue)>),
}

/// Why a command's payload was refused.
#[derive(Debug, Clone, PartialEq, Eq)]
pub enum MessageError {
    /// A time is neither text nor a number.
    InvalidTime,
    /// A part event's value is `null`.
    EventNull,
    /// A part event's value is neither text nor a number.
    InvalidEventValue,
    /// A sequence slot is neither `null`, text, a number nor a list.
    InvalidSequenceEvent,
    /// Sequence events are not a list.
    EventsNotList,
    /// Part events are not a list.
    PartEventsNotList,
    /// A `[time, event]` pair has fewer than two entries.
    PartPairTooShort,
    /// A part event object has no `time`.
    PartMissingTime,
    /// A part event object has neither `event` nor `note`.
    PartMissingEvent,
    /// A part event is neither a pair nor an object.
    InvalidPartEvent,
    /// A sampler map entry (named by its note) is not a path text; reported
    /// once the entries before it are loaded.
    SamplerPathNotString(String),
    /// The named instrument does not exist.
    UnknownInstrument(String),
}

/// A JSON value as `serde_json` parses it.
#[verifier::external_type_specification]
#[verifier::external_body]
pub struct ExSerdeJsonValue(serde_json::Value);

/// What `serde_json` makes of a text: the value, or its error message.
pub uninterp spec fn json_of(text: Seq<char>) -> Result<JsonValue, Seq<char>>;

/// `serde_json::from_str::<serde_json::Value>`, the value taken over one for
/// one as a [`JsonValue`] (numbers by their JSON text), the error by its
/// message. The contract claims only that the result is a function of the
/// text alone; what the parser accepts is not stated.
#[verifier::external_body]
fn parse_json_text(text: &str) -> (r: Result<JsonValue, String>)
    ensures
        match json_of(text@) {
            Ok(v) => r == Ok::<JsonValue, String>(v),
            Err(m) => r matches Err(e) && e@ == m,
        },
{
    match serde_json::from_str::<serde_json::Value>(text) {
        Ok(v) => Ok(json_value_of(v)),
        Err(e) => Err(e.to_string()),
    }
}

/// Takes a `serde_json::Value` over as a [`JsonValue`], variant for variant.
#[verifier::external_body]
fn json_value_of(v: serde_json::Value) -> JsonValue {
    match v {
        serde_json::Value::Null => JsonValue::Null,
        serde_json::Value::Bool(b) => JsonValue::Bool(b),
        serde_json::Value::Number(n) => JsonValue::Number(n.to_string()),
        serde_json::Value::String(t) => JsonValue::Str(t),
        serde_json::Value::Array(a) => JsonValue::Array(a.into_iter().map(json_value_of).collect()),
        serde_json::Value::Object(m) => JsonValue::Object(
            m.into_iter().map(|(k, x)| (k, json_value_of(x))).collect(),
        ),
    }
}

/// Why a command line was refused before any verb was read.
#[derive(Debug, Clone, PartialEq, Eq)]
pub enum LineError {
    /// Not JSON; the parser's message.
    Syntax(String),
    /// JSON, but not an object.
    NotObject,
}

/// Read one command line: it must be a JSON object.
pub fn parse_command_line(text: &str) -> (r: Result<JsonValue, LineError>)
    ensures
        match json_of(text@) {
            Ok(JsonValue::Object(f)) => r == Ok::<JsonValue, LineError>(JsonValue::Object(f)),
            Ok(_) => r == Err::<JsonValue, LineError>(LineError::NotObject),
            Err(m) => r matches Err(LineError::Syntax(e)) && e@ == m,
        },
{
    match parse_json_text(text) {
        Ok(v) => {
            if matches!(v, JsonValue::Object(_)) {
                Ok(v)
            } else {
                Err(LineError::NotObject)
            }
        },
        Err(m) => Err(LineError::Syntax(m)),
    }
}

/// `v` reads as a sequence slot.
pub open spec fn event_valid(v: JsonValue) -> bool
    decreases v,
{
    match v {
        JsonValue::Null => true,
        JsonValue::Str(_) => true,
        JsonValue::Number(_) => true,
        JsonValue::Array(items) => forall|i: int|
            0 <= i < items@.len() ==> event_valid(#[trigger] items@[i]),
        _ => false,
    }
}

/// `e` is the slot `v` reads as.
pub open spec fn event_of(v: JsonValue, e: SequenceEvent) -> bool
    decreases v,
{
    match v {
        JsonValue::Null => e is Rest,
        JsonValue::Str(s) => e matches SequenceEvent::Value(t) && t@ == s@,
        JsonValue::Number(n) => e matches SequenceEvent::Value(t) && t@ == n@,
        JsonValue::Array(items) => e matches SequenceEvent::Group(g) && g@.len() == items@.len()
            && forall|i: int| 0 <= i < items@.len() ==> event_of(#[trigger] items@[i], g@[i]),
        _ => false,
    }
}

/// Every value of `items` reads as a sequence slot.
pub open spec fn events_valid(items: Seq<JsonValue>) -> bool {
    forall|i: int| 0 <= i < items.len() ==> event_valid(#[trigger] items[i])
}

/// `es` are the slots `items` read as, one for one.
pub open spec fn events_of(items: Seq<JsonValue>, es: Seq<SequenceEvent>) -> bool {
    es.len() == items.len() && forall|i: int| 0 <= i < items.len() ==> event_of(#[trigger] items[i], es[i])
}

/// Read one sequence slot: `null` rests, text or a number is a value, a list
/// is a nested group.
pub fn parse_sequence_event(v: &JsonValue) -> (r: Result<SequenceEvent, MessageError>)
    ensures
        r is Ok <==> event_valid(*v),
        r matches Ok(e) ==> event_of(*v, e),
        r matches Err(err) ==> err == MessageError::InvalidSequenceEvent,
    decreases *v,
{
    match v {
        JsonValue::Null => Ok(SequenceEvent::Rest),
        JsonValue::Str(s) => Ok(SequenceEvent::Value(s.clone())),
        JsonValue::Number(n) => Ok(SequenceEvent::Value(n.clone())),
        JsonValue::Array(items) => {
            let mut inner: Vec<SequenceEvent> = Vec::new();
            let mut i: usize = 0;
            while i < items.len()
                invariant
                    0 <= i <= items@.len(),
                    inner@.len() == i,
                    *v == JsonValue::Array(*items),
                    forall|j: int| 0 <= j < i ==> event_valid(#[trigger] items@[j]),
                    forall|j: int| 0 <= j < i ==> event_of(#[trigger] items@[j], inner@[j]),
                decreases items@.len() - i,
            {
                proof {
                    assert(decreases_to!(*v => v->Array_0));
                    assert(decreases_to!(v->Array_0 => (v->Array_0)@));
                    assert(decreases_to!((v->Array_0)@ => (v->Array_0)@[i as int]));
                }
                match parse_sequence_event(&items[i]) {
                    Ok(e) => {
                        inner.push(e);
                    },
                    Err(err) => {
                        assert(!event_valid(items@[i as int]));
                        assert(!event_valid(*v));
                        return Err(err);
                    },
                }
                i = i + 1;
            }
            Ok(SequenceEvent::Group(inner))
        },
        _ => Err(MessageError::InvalidSequenceEvent),
    }
}

/// A time as a command writes it: Tone-style text, or seconds as a JSON number.
#[derive(Debug, Clone, PartialEq, Eq)]
pub enum TimeSpec {
    /// `"4n"`, `"1m"`, `"0:1:2"`, `"+8n"`, ...
    Text(String),
    /// The JSON text of a number of seconds.
    Seconds(String),
}

/// A written time, by its characters.
pub enum TimeWritten {
    Text(Seq<char>),
    Seconds(Seq<char>),
}

impl View for TimeSpec {
    type V = TimeWritten;

    open spec fn view(&self) -> TimeWritten {
        match self {
            TimeSpec::Text(t) => TimeWritten::Text(t@),
            TimeSpec::Seconds(n) => TimeWritten::Seconds(n@),
        }
    }
}

/// Where a sampler's samples come from.
#[derive(Debug, PartialEq, Eq)]
pub enum SamplerSource {
    /// Every `<note>.wav` file of a directory.
    Directory(String),
    /// `(note, path)` pairs in map order, up to the first entry whose path is
    /// not text; that entry's note, when there is one. The pairs are loaded in
    /// order before the entry is refused.
    Pairs(Vec<(String, String)>, Option<String>),
}

/// The live instrument a warmup asks for.
#[derive(Debug, PartialEq, Eq)]
pub enum InstrumentRequest {
    Synth,
    Drum,
    Sampler { source: SamplerSource, loop_flag: bool },
}

/// The sequence a start payload attaches: slots and the slot length.
#[derive(Debug, PartialEq, Eq)]
pub struct SequenceRequest {
    pub events: Vec<SequenceEvent>,
    pub subdivision: String,
}

/// Value of the first field named `key` among `fields[k..]`.
pub open spec fn field_from(fields: Seq<(String, JsonValue)>, key: Seq<char>, k: int) -> Option<
    JsonValue,
>
    decreases fields.len() - k,
{
    if k < 0 || k >= fields.len() {
        None
    } else if fields[k].0@ == key {
        Some(fields[k].1)
    } else {
        field_from(fields, key, k + 1)
    }
}

/// Value of the first field named `key`, when `v` is an object.
pub open spec fn field_spec(v: JsonValue, key: Seq<char>) -> Option<JsonValue> {
    match v {
        JsonValue::Object(fields) => field_from(fields@, key, 0),
        _ => None,
    }
}

/// The text of `o`, when it is a JSON string.
pub open spec fn text_of(o: Option<JsonValue>) -> Option<Seq<char>> {
    match o {
        Some(JsonValue::Str(s)) => Some(s@),
        _ => None,
    }
}

/// The value of a field named `key`.
pub fn get<'a>(v: &'a JsonValue, key: &str) -> (r: Option<&'a JsonValue>)
    ensures
        match field_spec(*v, key@) {
            Some(x) => r matches Some(y) && *y == x,
            None => r is None,
        },
{
    match v {
        JsonValue::Object(fields) => {
            let mut i: usize = 0;
            while i < fields.len()
                invariant
                    0 <= i <= fields@.len(),
                    *v == JsonValue::Object(*fields),
                    field_from(fields@, key@, 0) == field_from(fields@, key@, i as int),
                decreases fields@.len() - i,
            {
                if same_text(fields[i].0.as_str(), key) {
                    return Some(&fields[i].1);
                }
                i = i + 1;
            }
            None
        },
        _ => None,
    }
}

/// The text of a field named `key`, when it is a JSON string.
pub fn get_text<'a>(v: &'a JsonValue, key: &str) -> (r: Option<&'a str>)
    ensures
        match text_of(field_spec(*v, key@)) {
            Some(t) => r matches Some(s) && s@ == t,
            None => r is None,
        },
{
    match get(v, key) {
        Some(JsonValue::Str(s)) => Some(s.as_str()),
        _ => None,
    }
}

/// The note a command names: its text, or a number's JSON text; `C4` by default.
pub open spec fn note_spec(msg: JsonValue) -> Seq<char> {
    match field_spec(msg, "note"@) {
        Some(JsonValue::Str(s)) => s@,
        Some(JsonValue::Number(n)) => n@,
        _ => "C4"@,
    }
}

/// The note a command names (`note`), `C4` by default.
pub fn note_from_msg(msg: &JsonValue) -> (r: String)
    ensures
        r@ == note_spec(*msg),
{
    match get(msg, "note") {
        Some(JsonValue::Str(s)) => s.clone(),
        Some(JsonValue::Number(n)) => n.clone(),
        _ => "C4".to_owned(),
    }
}

/// The duration a command gives (`duration`), an eighth note by default.
pub open spec fn duration_spec(msg: JsonValue) -> TimeWritten {
    match field_spec(msg, "duration"@) {
        Some(JsonValue::Str(s)) => TimeWritten::Text(s@),
        Some(JsonValue::Number(n)) => TimeWritten::Seconds(n@),
        _ => TimeWritten::Text("8n"@),
    }
}

/// The duration a command gives (`duration`), `8n` by default.
pub fn duration_from_msg(msg: &JsonValue) -> (r: TimeSpec)
    ensures
        r@ == duration_spec(*msg),
{
    match get(msg, "duration") {
        Some(JsonValue::Str(s)) => TimeSpec::Text(s.clone()),
        Some(JsonValue::Number(n)) => TimeSpec::Seconds(n.clone()),
        _ => TimeSpec::Text("8n".to_owned()),
    }
}

/// A JSON value read as a time.
pub open spec fn time_spec(v: JsonValue) -> Result<TimeWritten, MessageError> {
    match v {
        JsonValue::Str(s) => Ok(TimeWritten::Text(s@)),
        JsonValue::Number(n) => Ok(TimeWritten::Seconds(n@)),
        _ => Err(MessageError::InvalidTime),
    }
}

/// `r` is `s` with the time taken by its view.
pub open spec fn same_time_result(r: Result<TimeSpec, MessageError>, s: Result<TimeWritten, MessageError>) -> bool {
    match s {
        Ok(t) => r matches Ok(x) && x@ == t,
        Err(e) => r == Err::<TimeSpec, MessageError>(e),
    }
}

/// Read a JSON value as a time: text or a number of seconds.
pub fn json_to_time(v: &JsonValue) -> (r: Result<TimeSpec, MessageError>)
    ensures
        same_time_result(r, time_spec(*v)),
{
    match v {
        JsonValue::Str(s) => Ok(TimeSpec::Text(s.clone())),
        JsonValue::Number(n) => Ok(TimeSpec::Seconds(n.clone())),
        _ => Err(MessageError::InvalidTime),
    }
}

/// The optional start time of a command (`time`); `null` counts as absent.
pub fn time_from_msg(msg: &JsonValue) -> (r: Result<Option<TimeSpec>, MessageError>)
    ensures
        match field_spec(*msg, "time"@) {
            None => r == Ok::<Option<TimeSpec>, MessageError>(None),
            Some(JsonValue::Null) => r == Ok::<Option<TimeSpec>, MessageError>(None),
            Some(v) => match time_spec(v) {
                Ok(t) => r matches Ok(Some(x)) && x@ == t,
                Err(e) => r == Err::<Option<TimeSpec>, MessageError>(e),
            },
        },
{
    match get(msg, "time") {
        None => Ok(None),
        Some(JsonValue::Null) => Ok(None),
        Some(v) => match json_to_time(v) {
            Ok(t) => Ok(Some(t)),
            Err(e) => Err(e),
        },
    }
}

/// A JSON value read as a part event's value.
pub open spec fn note_value_spec(v: JsonValue) -> Result<Seq<char>, MessageError> {
    match v {
        JsonValue::Str(s) => Ok(s@),
        JsonValue::Number(n) => Ok(n@),
        JsonValue::Null => Err(MessageError::EventNull),
        _ => Err(MessageError::InvalidEventValue),
    }
}

/// Read a part event's value: text, or a number's JSON text.
pub fn json_to_note(v: &JsonValue) -> (r: Result<String, MessageError>)
    ensures
        match note_value_spec(*v) {
            Ok(t) => r matches Ok(x) && x@ == t,
            Err(e) => r == Err::<String, MessageError>(e),
        },
{
    match v {
        JsonValue::Str(s) => Ok(s.clone()),
        JsonValue::Number(n) => Ok(n.clone()),
        JsonValue::Null => Err(MessageError::EventNull),
        _ => Err(MessageError::InvalidEventValue),
    }
}

/// A part event read as `(time, value)`: a `[time, value]` list, or an object
/// with `time` and `event` (or `note`).
pub open spec fn part_event_spec(e: JsonValue) -> Result<(TimeWritten, Seq<char>), MessageError> {
    match e {
        JsonValue::Array(pair) => if pair@.len() < 2 {
            Err(MessageError::PartPairTooShort)
        } else {
            match time_spec(pair@[0]) {
                Err(x) => Err(x),
                Ok(t) => match note_value_spec(pair@[1]) {
                    Err(x) => Err(x),
                    Ok(n) => Ok((t, n)),
                },
            }
        },
        JsonValue::Object(_) => match field_spec(e, "time"@) {
            None => Err(MessageError::PartMissingTime),
            Some(tv) => {
                let nv = if field_spec(e, "event"@) is Some {
                    field_spec(e, "event"@)
                } else {
                    field_spec(e, "note"@)
                };
                match nv {
                    None => Err(MessageError::PartMissingEvent),
                    Some(n) => match time_spec(tv) {
                        Err(x) => Err(x),
                        Ok(t) => match note_value_spec(n) {
                            Err(x) => Err(x),
                            Ok(v) => Ok((t, v)),
                        },
                    },
                }
            },
        },
        _ => Err(MessageError::InvalidPartEvent),
    }
}

/// The first `k` part events read in order; the first refusal wins.
pub open spec fn part_events_upto(items: Seq<JsonValue>, k: int) -> Result<
    Seq<(TimeWritten, Seq<char>)>,
    MessageError,
>
    decreases k,
{
    if k <= 0 {
        Ok(Seq::empty())
    } else {
        match part_events_upto(items, k - 1) {
            Err(e) => Err(e),
            Ok(s) => match part_event_spec(items[k - 1]) {
                Err(e) => Err(e),
                Ok(p) => Ok(s.push(p)),
            },
        }
    }
}

/// Part events by their written time and value text.
pub open spec fn part_view(v: Seq<(TimeSpec, String)>) -> Seq<(TimeWritten, Seq<char>)> {
    v.map_values(|p: (TimeSpec, String)| (p.0@, p.1@))
}

/// `r` is `s` with events taken by their view.
pub open spec fn same_parts_result(
    r: Result<Vec<(TimeSpec, String)>, MessageError>,
    s: Result<Seq<(TimeWritten, Seq<char>)>, MessageError>,
) -> bool {
    match s {
        Ok(p) => r matches Ok(x) && part_view(x@) == p,
        Err(e) => r == Err::<Vec<(TimeSpec, String)>, MessageError>(e),
    }
}

/// Read one part event.
fn parse_part_event(e: &JsonValue) -> (r: Result<(TimeSpec, String), MessageError>)
    ensures
        match part_event_spec(*e) {
            Ok(p) => r matches Ok(x) && x.0@ == p.0 && x.1@ == p.1,
            Err(err) => r == Err::<(TimeSpec, String), MessageError>(err),
        },
{
    match e {
        JsonValue::Array(pair) => {
            if pair.len() < 2 {
                return Err(MessageError::PartPairTooShort);
            }
            let t = match json_to_time(&pair[0]) {
                Ok(t) => t,
                Err(x) => {
                    return Err(x);
                },
            };
            let n = match json_to_note(&pair[1]) {
                Ok(n) => n,
                Err(x) => {
                    return Err(x);
                },
            };
            Ok((t, n))
        },
        JsonValue::Object(_) => {
            let tv = match get(e, "time") {
                Some(tv) => tv,
                None => {
                    return Err(MessageError::PartMissingTime);
                },
            };
            let nv = match get(e, "event") {
                Some(x) => x,
                None => match get(e, "note") {
                    Some(x) => x,
                    None => {
                        return Err(MessageError::PartMissingEvent);
                    },
                },
            };
            let t = match json_to_time(tv) {
                Ok(t) => t,
                Err(x) => {
                    return Err(x);
                },
            };
            let n = match json_to_note(nv) {
                Ok(n) => n,
                Err(x) => {
                    return Err(x);
                },
            };
            Ok((t, n))
        },
        _ => Err(MessageError::InvalidPartEvent),
    }
}

/// Read a part's events: a list of `[time, value]` pairs or
/// `{time, event | note}` objects, in order.
pub fn parse_part_events(v: &JsonValue) -> (r: Result<Vec<(TimeSpec, String)>, MessageError>)
    ensures
        match *v {
            JsonValue::Array(items) => same_parts_result(
                r,
                part_events_upto(items@, items@.len() as int),
            ),
            _ => r == Err::<Vec<(TimeSpec, String)>, MessageError>(MessageError::PartEventsNotList),
        },
{
    match v {
        JsonValue::Array(items) => {
            let mut out: Vec<(TimeSpec, String)> = Vec::new();
            let mut i: usize = 0;
            assert(part_view(out@) =~= Seq::empty());
            while i < items.len()
                invariant
                    0 <= i <= items@.len(),
                    *v == JsonValue::Array(*items),
                    part_events_upto(items@, i as int) == Ok::<
                        Seq<(TimeWritten, Seq<char>)>,
                        MessageError,
                    >(part_view(out@)),
                decreases items@.len() - i,
            {
                let ghost before = out@;
                match parse_part_event(&items[i]) {
                    Ok(p) => {
                        out.push(p);
                        assert(part_view(out@) =~= part_view(before).push((p.0@, p.1@)));
                    },
                    Err(x) => {
                        assert(part_events_upto(items@, i + 1) == Err::<
                            Seq<(TimeWritten, Seq<char>)>,
                            MessageError,
                        >(x));
                        let ghost k = i + 1;
                        assert forall|j: int| k <= j <= items@.len() implies part_events_upto(
                            items@,
                            j,
                        ) == Err::<Seq<(TimeWritten, Seq<char>)>, MessageError>(x) by {
                            lemma_part_error_sticks(items@, k, j);
                        }
                        return Err(x);
                    },
                }
                i = i + 1;
            }
            Ok(out)
        },
        _ => Err(MessageError::PartEventsNotList),
    }
}

/// Once a prefix is refused, every longer prefix is refused the same way.
proof fn lemma_part_error_sticks(items: Seq<JsonValue>, k: int, j: int)
    requires
        0 <= k <= j,
        part_events_upto(items, k) is Err,
    ensures
        part_events_upto(items, j) == part_events_upto(items, k),
    decreases j - k,
{
    if j > k {
        lemma_part_error_sticks(items, k, j - 1);
    }
}

/// Read a sequence's slots from a list.
pub fn parse_sequence_events(v: &JsonValue) -> (r: Result<Vec<SequenceEvent>, MessageError>)
    ensures
        match *v {
            JsonValue::Array(items) => match r {
                Ok(es) => events_valid(items@) && events_of(items@, es@),
                Err(e) => !events_valid(items@) && e == MessageError::InvalidSequenceEvent,
            },
            _ => r == Err::<Vec<SequenceEvent>, MessageError>(MessageError::EventsNotList),
        },
{
    match v {
        JsonValue::Array(items) => {
            let mut out: Vec<SequenceEvent> = Vec::new();
            let mut i: usize = 0;
            while i < items.len()
                invariant
                    0 <= i <= items@.len(),
                    *v == JsonValue::Array(*items),
                    out@.len() == i,
                    forall|j: int| 0 <= j < i ==> event_valid(#[trigger] items@[j]),
                    forall|j: int| 0 <= j < i ==> event_of(#[trigger] items@[j], out@[j]),
                decreases items@.len() - i,
            {
                match parse_sequence_event(&items[i]) {
                    Ok(e) => {
                        out.push(e);
                    },
                    Err(err) => {
                        assert(!event_valid(items@[i as int]));
                        return Err(err);
                    },
                }
                i = i + 1;
            }
            Ok(out)
        },
        _ => Err(MessageError::EventsNotList),
    }
}

/// What a command's `loop` asks of the transport loop: a flag sets it, an
/// object (a loop schedule) leaves it, absence or `null` clears it, and any
/// other value sets it.
pub open spec fn loop_setting_spec(msg: JsonValue) -> Option<bool> {
    match field_spec(msg, "loop"@) {
        Some(JsonValue::Bool(b)) => Some(b),
        Some(JsonValue::Object(_)) => None,
        Some(JsonValue::Null) => Some(false),
        None => Some(false),
        Some(_) => Some(true),
    }
}

/// The transport loop flag a command sets, if it sets one.
pub fn loop_setting(msg: &JsonValue) -> (r: Option<bool>)
    ensures
        r == loop_setting_spec(*msg),
        forall|b: bool| field_spec(*msg, "loop"@) == Some(JsonValue::Bool(b)) ==> r == Some(b),
        field_spec(*msg, "loop"@) is None ==> r == Some(false),
{
    match get(msg, "loop") {
        Some(JsonValue::Bool(b)) => Some(*b),
        Some(JsonValue::Object(_)) => None,
        Some(JsonValue::Null) => Some(false),
        None => Some(false),
        Some(_) => Some(true),
    }
}

/// A boolean `loop` field sets the transport loop to exactly that boolean, a
/// missing or `null` one switches it off, and an object leaves it as it is.
pub proof fn lemma_loop_setting_follows_field(msg: JsonValue)
    ensures
        forall|b: bool|
            field_spec(msg, "loop"@) == Some(JsonValue::Bool(b)) ==> loop_setting_spec(msg)
                == Some(b),
        field_spec(msg, "loop"@) is None ==> loop_setting_spec(msg) == Some(false),
        field_spec(msg, "loop"@) == Some(JsonValue::Null) ==> loop_setting_spec(msg) == Some(
            false,
        ),
        field_spec(msg, "loop"@) matches Some(JsonValue::Object(_)) ==> loop_setting_spec(msg)
            is None,
        loop_setting_spec(msg) == Some(true) ==> field_spec(msg, "loop"@) != Some(
            JsonValue::Bool(false),
        ),
{
}

/// The instrument a warmup names (`instrument`, when it is text), `synth` by default.
pub open spec fn instrument_name(msg: JsonValue) -> Seq<char> {
    match text_of(field_spec(msg, "instrument"@)) {
        Some(t) => t,
        None => "synth"@,
    }
}

/// The fields of the sampler map (`map`, else `urls`), when it is an object.
pub open spec fn sampler_map_fields(msg: JsonValue) -> Seq<(String, JsonValue)> {
    let m = if field_spec(msg, "map"@) is Some {
        field_spec(msg, "map"@)
    } else {
        field_spec(msg, "urls"@)
    };
    match m {
        Some(JsonValue::Object(fields)) => fields@,
        _ => Seq::empty(),
    }
}

/// The first `k` map entries as `(note, path)` pairs, stopping at the first
/// entry whose path is not text; that entry's note, when there is one.
pub open spec fn sampler_pairs_upto(fields: Seq<(String, JsonValue)>, k: int) -> (
    Seq<(Seq<char>, Seq<char>)>,
    Option<Seq<char>>,
)
    decreases k,
{
    if k <= 0 {
        (Seq::empty(), None)
    } else {
        let prev = sampler_pairs_upto(fields, k - 1);
        if prev.1 is Some {
            prev
        } else {
            match fields[k - 1].1 {
                JsonValue::Str(p) => (prev.0.push((fields[k - 1].0@, p@)), None),
                _ => (prev.0, Some(fields[k - 1].0@)),
            }
        }
    }
}

/// `(note, path)` pairs by their characters.
pub open spec fn pairs_view(v: Seq<(String, String)>) -> Seq<(Seq<char>, Seq<char>)> {
    v.map_values(|p: (String, String)| (p.0@, p.1@))
}

/// `r` is the sampler request of `msg`: a `directory` text wins, else the map
/// pairs; `loop` is the loop flag when it is a boolean.
pub open spec fn sampler_request_is(msg: JsonValue, r: Result<InstrumentRequest, MessageError>) -> bool {
    let loop_flag = match field_spec(msg, "loop"@) {
        Some(JsonValue::Bool(b)) => b,
        _ => false,
    };
    match text_of(field_spec(msg, "directory"@)) {
        Some(d) => r matches Ok(
            InstrumentRequest::Sampler { source: SamplerSource::Directory(x), loop_flag: l },
        ) && x@ == d && l == loop_flag,
        None => {
            let fields = sampler_map_fields(msg);
            let (pairs, refused) = sampler_pairs_upto(fields, fields.len() as int);
            r matches Ok(
                InstrumentRequest::Sampler { source: SamplerSource::Pairs(v, e), loop_flag: l },
            ) && pairs_view(v@) == pairs && l == loop_flag && match refused {
                None => e is None,
                Some(n) => e matches Some(x) && x@ == n,
            }
        },
    }
}

/// `r` is the instrument request of a warmup `msg`.
pub open spec fn instrument_request_is(msg: JsonValue, r: Result<InstrumentRequest, MessageError>) -> bool {
    let name = instrument_name(msg);
    if name == "synth"@ {
        r == Ok::<InstrumentRequest, MessageError>(InstrumentRequest::Synth)
    } else if name == "drum"@ {
        r == Ok::<InstrumentRequest, MessageError>(InstrumentRequest::Drum)
    } else if name == "sampler"@ {
        sampler_request_is(msg, r)
    } else {
        r matches Err(MessageError::UnknownInstrument(x)) && x@ == name
    }
}

/// Once a prefix of the map is refused, every longer prefix is refused the same way.
proof fn lemma_sampler_error_sticks(fields: Seq<(String, JsonValue)>, k: int, j: int)
    requires
        0 <= k <= j,
        sampler_pairs_upto(fields, k).1 is Some,
    ensures
        sampler_pairs_upto(fields, j) == sampler_pairs_upto(fields, k),
    decreases j - k,
{
    if j > k {
        lemma_sampler_error_sticks(fields, k, j - 1);
    }
}

/// `(note, path)` pairs of a sampler map object.
fn sampler_pairs(fields: &Vec<(String, JsonValue)>) -> (r: (Vec<(String, String)>, Option<String>))
    ensures
        pairs_view(r.0@) == sampler_pairs_upto(fields@, fields@.len() as int).0,
        match sampler_pairs_upto(fields@, fields@.len() as int).1 {
            None => r.1 is None,
            Some(n) => r.1 matches Some(x) && x@ == n,
        },
{
    let mut out: Vec<(String, String)> = Vec::new();
    let mut i: usize = 0;
    assert(pairs_view(out@) =~= Seq::empty());
    while i < fields.len()
        invariant
            0 <= i <= fields@.len(),
            sampler_pairs_upto(fields@, i as int).0 == pairs_view(out@),
            sampler_pairs_upto(fields@, i as int).1 is None,
        decreases fields@.len() - i,
    {
        let ghost before = out@;
        match &fields[i].1 {
            JsonValue::Str(p) => {
                out.push((fields[i].0.clone(), p.clone()));
                assert(pairs_view(out@) =~= pairs_view(before).push((fields@[i as int].0@, p@)));
            },
            _ => {
                let ghost k = i + 1;
                assert forall|j: int| k <= j <= fields@.len() implies sampler_pairs_upto(
                    fields@,
                    j,
                ) == sampler_pairs_upto(fields@, k) by {
                    lemma_sampler_error_sticks(fields@, k, j);
                }
                return (out, Some(fields[i].0.clone()));
            },
        }
        i = i + 1;
    }
    (out, None)
}

/// The live instrument a warmup asks for: `synth` (the default), `drum`, or
/// `sampler` from a `directory` or a `map` / `urls` object of note paths.
pub fn instrument_request(msg: &JsonValue) -> (r: Result<InstrumentRequest, MessageError>)
    ensures
        instrument_request_is(*msg, r),
{
    let name = match get_text(msg, "instrument") {
        Some(t) => t,
        None => "synth",
    };
    if same_text(name, "synth") {
        return Ok(InstrumentRequest::Synth);
    }
    if same_text(name, "drum") {
        return Ok(InstrumentRequest::Drum);
    }
    if !same_text(name, "sampler") {
        return Err(MessageError::UnknownInstrument(name.to_owned()));
    }
    let loop_flag = match get(msg, "loop") {
        Some(JsonValue::Bool(b)) => *b,
        _ => false,
    };
    if let Some(d) = get_text(msg, "directory") {
        return Ok(
            InstrumentRequest::Sampler { source: SamplerSource::Directory(d.to_owned()), loop_flag },
        );
    }
    let map = match get(msg, "map") {
        Some(m) => Some(m),
        None => get(msg, "urls"),
    };
    let empty: Vec<(String, JsonValue)> = Vec::new();
    let fields = match map {
        Some(JsonValue::Object(fields)) => fields,
        _ => &empty,
    };
    assert(fields@ == sampler_map_fields(*msg));
    let (pairs, refused) = sampler_pairs(fields);
    Ok(InstrumentRequest::Sampler { source: SamplerSource::Pairs(pairs, refused), loop_flag })
}

/// The `sequence` object of a start command, when there is one.
pub open spec fn sequence_field(msg: JsonValue) -> Option<JsonValue> {
    match field_spec(msg, "sequence"@) {
        Some(JsonValue::Object(f)) => Some(JsonValue::Object(f)),
        _ => None,
    }
}

/// The sequence a start command attaches: its `events` (none when absent)
/// and its `subdivision` text (a quarter note by default).
pub fn sequence_request(msg: &JsonValue) -> (r: Result<Option<SequenceRequest>, MessageError>)
    ensures
        match sequence_field(*msg) {
            None => r == Ok::<Option<SequenceRequest>, MessageError>(None),
            Some(spec) => {
                let sub = match text_of(field_spec(spec, "subdivision"@)) {
                    Some(t) => t,
                    None => "4n"@,
                };
                match field_spec(spec, "events"@) {
                    None => r matches Ok(Some(q)) && q.events@.len() == 0 && q.subdivision@ == sub,
                    Some(JsonValue::Array(items)) => match r {
                        Ok(Some(q)) => events_valid(items@) && events_of(items@, q.events@)
                            && q.subdivision@ == sub,
                        Ok(None) => false,
                        Err(e) => !events_valid(items@) && e == MessageError::InvalidSequenceEvent,
                    },
                    Some(_) => r == Err::<Option<SequenceRequest>, MessageError>(
                        MessageError::EventsNotList,
                    ),
                }
            },
        },
{
    let spec = match get(msg, "sequence") {
        Some(s) => s,
        None => {
            return Ok(None);
        },
    };
    if !matches!(spec, JsonValue::Object(_)) {
        return Ok(None);
    }
    let events = match get(spec, "events") {
        None => Vec::new(),
        Some(v) => match parse_sequence_events(v) {
            Ok(es) => es,
            Err(e) => {
                return Err(e);
            },
        },
    };
    let subdivision = match get_text(spec, "subdivision") {
        Some(t) => t.to_owned(),
        None => "4n".to_owned(),
    };
    Ok(Some(SequenceRequest { events, subdivision }))
}

/// The `part` object of a start command, when there is one.
pub open spec fn part_field(msg: JsonValue) -> Option<JsonValue> {
    match field_spec(msg, "part"@) {
        Some(JsonValue::Object(f)) => Some(JsonValue::Object(f)),
        _ => None,
    }
}

/// The part a start command attaches: its `events` (none when absent).
pub fn part_request(msg: &JsonValue) -> (r: Result<Option<Vec<(TimeSpec, String)>>, MessageError>)
    ensures
        match part_field(*msg) {
            None => r == Ok::<Option<Vec<(TimeSpec, String)>>, MessageError>(None),
            Some(spec) => match field_spec(spec, "events"@) {
                None => r matches Ok(Some(p)) && p@.len() == 0,
                Some(JsonValue::Array(items)) => match part_events_upto(items@, items@.len() as int) {
                    Ok(p) => r matches Ok(Some(x)) && part_view(x@) == p,
                    Err(e) => r == Err::<Option<Vec<(TimeSpec, String)>>, MessageError>(e),
                },
                Some(_) => r == Err::<Option<Vec<(TimeSpec, String)>>, MessageError>(
                    MessageError::PartEventsNotList,
                ),
            },
        },
{
    let spec = match get(msg, "part") {
        Some(s) => s,
        None => {
            return Ok(None);
        },
    };
    if !matches!(spec, JsonValue::Object(_)) {
        return Ok(None);
    }
    match get(spec, "events") {
        None => Ok(Some(Vec::new())),
        Some(v) => match parse_part_events(v) {
            Ok(p) => Ok(Some(p)),
            Err(e) => Err(e),
        },
    }
}

/// The interval of the loop a start command attaches (`loop` object's
/// `interval` text, a quarter note by default), when there is one.
pub fn loop_request(msg: &JsonValue) -> (r: Option<String>)
    ensures
        match field_spec(*msg, "loop"@) {
            Some(JsonValue::Object(f)) => {
                let spec = JsonValue::Object(f);
                r matches Some(x) && x@ == match text_of(field_spec(spec, "interval"@)) {
                    Some(t) => t,
                    None => "4n"@,
                }
            },
            _ => r is None,
        },
{
    match get(msg, "loop") {
        Some(spec) => match spec {
            JsonValue::Object(_) => match get_text(spec, "interval") {
                Some(t) => Some(t.to_owned()),
                None => Some("4n".to_owned()),
            },
            _ => None,
        },
        None => None,
    }
}

} // verus!
