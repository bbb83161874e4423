//! Verbs of the line-oriented stdio host: which command a line names.

use vstd::prelude::*;

use crate::text::same_text;

verus! {

/// A host command.
#[derive(Debug, Clone, Copy, PartialEq, Eq)]
pub enum Command {
    /// `warmup`: select the live instrument and open the clock.
    Warmup,
    /// `start`: tempo, loop and schedule payloads, then start the clock.
    Start,
    /// `stop`.
    Stop,
    /// `pause`.
    Pause,
    /// `resume`: start again.
    Resume,
    /// `play-midi`: one attack-release at the write cursor.
    PlayMidi,
    /// `note-on` / `trigger_attack`.
    NoteOn,
    /// `note-off` / `trigger_release`.
    NoteOff,
    /// `bpm`: write the tempo.
    Bpm,
    /// `shutdown`: dispose the clock and end the session.
    Shutdown,
    /// Anything else, or no `cmd` text.
    Unknown,
}

/// The command a `cmd` text names.
pub open spec fn command_spec(cmd: Option<Seq<char>>) -> Command {
    match cmd {
        None => Command::Unknown,
        Some(c) => if c == "warmup"@ {
            Command::Warmup
        } else if c == "start"@ {
            Command::Start
        } else if c == "stop"@ {
            Command::Stop
        } else if c == "pause"@ {
            Command::Pause
        } else if c == "resume"@ {
            Command::Resume
        } else if c == "play-midi"@ {
            Command::PlayMidi
        } else if c == "note-on"@ || c == "trigger_attack"@ {
            Command::NoteOn
        } else if c == "note-off"@ || c == "trigger_release"@ {
            Command::NoteOff
        } else if c == "bpm"@ {
            Command::Bpm
        } else if c == "shutdown"@ {
            Command::Shutdown
        } else {
            Command::Unknown
        },
    }
}

/// The command named by a line's `cmd` text (`None` when it has none).
pub fn command_of(cmd: Option<&str>) -> (r: Command)
    ensures
        r == command_spec(
            match cmd {
                Some(c) => Some(c@),
                None => None,
            },
        ),
{
    match cmd {
        None => Command::Unknown,
        Some(c) => {
            if same_text(c, "warmup") {
                Command::Warmup
            } else if same_text(c, "start") {
                Command::Start
            } else if same_text(c, "stop") {
                Command::Stop
            } else if same_text(c, "pause") {
                Command::Pause
            } else if same_text(c, "resume") {
                Command::Resume
            } else if same_text(c, "play-midi") {
                Command::PlayMidi
            } else if same_text(c, "note-on") || same_text(c, "trigger_attack") {
                Command::NoteOn
            } else if same_text(c, "note-off") || same_text(c, "trigger_release") {
                Command::NoteOff
            } else if same_text(c, "bpm") {
                Command::Bpm
            } else if same_text(c, "shutdown") {
                Command::Shutdown
            } else {
                Command::Unknown
            }
        },
    }
}

} // verus!
