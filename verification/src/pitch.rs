//! Scientific note names and MIDI note numbers.

use vstd::prelude::*;

use crate::limits::{MIDI_MAX, MIDI_MIN};
use crate::text::{
    all_digits, bounded_digits, digits_value, is_digit, parse_digits, trim_text, trimmed_bytes,
};

verus! {

/// Failure converting a note name or MIDI number.
#[derive(Debug, Clone, PartialEq, Eq)]
pub enum PitchError {
    /// String did not match scientific pitch notation (`C4`, `C#4`, `Db4`).
    InvalidNote(String),
    /// MIDI number was outside 0–127.
    OutOfRange(i32),
}

/// Pitch class of a note letter byte: C=0 D=2 E=4 F=5 G=7 A=9 B=11, either case.
pub open spec fn letter_pitch_class(b: u8) -> Option<int> {
    if b == 65 || b == 97 {
        Some(9)
    } else if b == 66 || b == 98 {
        Some(11)
    } else if b == 67 || b == 99 {
        Some(0)
    } else if b == 68 || b == 100 {
        Some(2)
    } else if b == 69 || b == 101 {
        Some(4)
    } else if b == 70 || b == 102 {
        Some(5)
    } else if b == 71 || b == 103 {
        Some(7)
    } else {
        None
    }
}

/// Octave text: optional `-`, then decimal digits whose value fits in `i32`.
pub open spec fn octave_value(o: Seq<u8>) -> Option<int> {
    if o.len() > 0 && o[0] == 45 {
        match bounded_digits(o.drop_first(), i32::MAX as nat) {
            Some(v) => Some(-v),
            None => None,
        }
    } else {
        match bounded_digits(o, i32::MAX as nat) {
            Some(v) => Some(v as int),
            None => None,
        }
    }
}

/// Number of bytes taken by the letter and its optional `#` / `b`.
pub open spec fn head_len(t: Seq<u8>) -> int {
    if t.len() > 1 && (t[1] == 35 || t[1] == 98) {
        2
    } else {
        1
    }
}

/// Semitone shift of the accidental: `#` raises, `b` lowers.
pub open spec fn accidental_shift(t: Seq<u8>) -> int {
    if t.len() > 1 && t[1] == 35 {
        1
    } else if t.len() > 1 && t[1] == 98 {
        -1
    } else {
        0
    }
}

/// `(octave, pitch class)` of a name matching `[A-Ga-g][#b]?-?[0-9]+`.
pub open spec fn note_parts(t: Seq<u8>) -> Option<(int, int)> {
    if t.len() == 0 {
        None
    } else {
        match letter_pitch_class(t[0]) {
            None => None,
            Some(pc) => match octave_value(t.subrange(head_len(t), t.len() as int)) {
                Some(o) => Some((o, pc + accidental_shift(t))),
                None => None,
            },
        }
    }
}

/// Value fits in `i32`.
pub open spec fn in_i32(v: int) -> bool {
    i32::MIN <= v <= i32::MAX
}

/// MIDI number of an octave and pitch class: `(octave + 1) * 12 + pc`.
pub open spec fn midi_of(o: int, pc: int) -> int {
    (o + 1) * 12 + pc
}

/// Every intermediate step of `(octave + 1) * 12 + pc` fits in `i32`.
pub open spec fn steps_fit(o: int, pc: int) -> bool {
    in_i32(o + 1) && in_i32((o + 1) * 12) && in_i32((o + 1) * 12 + pc)
}

/// `r` is what a MIDI number `v` gives: itself when in 0–127, else `OutOfRange(v)`.
pub open spec fn midi_result(v: int, r: Result<u8, PitchError>) -> bool {
    match r {
        Ok(m) => MIDI_MIN <= v <= MIDI_MAX && m as int == v,
        Err(PitchError::OutOfRange(x)) => !(MIDI_MIN <= v <= MIDI_MAX) && x as int == v,
        Err(PitchError::InvalidNote(_)) => false,
    }
}

/// `r` is what the note name `note` gives.
pub open spec fn scientific_result(note: Seq<char>, r: Result<u8, PitchError>) -> bool {
    match note_parts(trimmed_bytes(note)) {
        None => r matches Err(PitchError::InvalidNote(s)) && s@ == note,
        Some((o, pc)) => if steps_fit(o, pc) {
            midi_result(midi_of(o, pc), r)
        } else {
            r matches Err(PitchError::OutOfRange(x)) && x == i32::MAX
        },
    }
}

/// Scientific note name or integer MIDI number.
pub trait IntoNote: Sized {
    /// `r` is the conversion of `self` to a MIDI note.
    spec fn note_outcome(&self, r: Result<u8, PitchError>) -> bool;

    /// Convert to a MIDI note number (0–127).
    fn into_midi(self) -> (r: Result<u8, PitchError>)
        ensures
            self.note_outcome(r),
    ;
}

impl<'a> IntoNote for &'a str {
    open spec fn note_outcome(&self, r: Result<u8, PitchError>) -> bool {
        scientific_result((*self)@, r)
    }

    fn into_midi(self) -> (r: Result<u8, PitchError>) {
        parse_scientific(self)
    }
}

impl IntoNote for String {
    open spec fn note_outcome(&self, r: Result<u8, PitchError>) -> bool {
        scientific_result(self@, r)
    }

    fn into_midi(self) -> (r: Result<u8, PitchError>) {
        parse_scientific(self.as_str())
    }
}

impl<'a> IntoNote for &'a String {
    open spec fn note_outcome(&self, r: Result<u8, PitchError>) -> bool {
        scientific_result((*self)@, r)
    }

    fn into_midi(self) -> (r: Result<u8, PitchError>) {
        parse_scientific(self.as_str())
    }
}

impl IntoNote for i32 {
    open spec fn note_outcome(&self, r: Result<u8, PitchError>) -> bool {
        midi_result(*self as int, r)
    }

    fn into_midi(self) -> (r: Result<u8, PitchError>) {
        clamp_midi(self)
    }
}

/// Convert a scientific note name or MIDI number to a MIDI note (0–127).
///
/// Names follow `[A-Ga-g][#b]?-?[0-9]+` after trimming white space. Pitch class
/// is C=0 D=2 E=4 F=5 G=7 A=9 B=11, `#` raises a semitone, `b` lowers one.
/// MIDI is `(octave + 1) * 12 + pc`. Integers pass through if in range.
pub fn note_to_midi<N: IntoNote>(note: N) -> (r: Result<u8, PitchError>)
    ensures
        note.note_outcome(r),
{
    note.into_midi()
}

/// `midi` itself when in 0–127, else `OutOfRange(midi)`.
pub fn clamp_midi(midi: i32) -> (r: Result<u8, PitchError>)
    ensures
        midi_result(midi as int, r),
{
    if midi < MIDI_MIN as i32 || midi > MIDI_MAX as i32 {
        Err(PitchError::OutOfRange(midi))
    } else {
        Ok(midi as u8)
    }
}

/// Octave of `bytes[start..]`: optional `-`, then digits fitting in `i32`.
pub fn parse_octave(bytes: &[u8], start: usize) -> (r: Option<i32>)
    requires
        start <= bytes@.len(),
    ensures
        match octave_value(bytes@.subrange(start as int, bytes@.len() as int)) {
            Some(v) => r == Some(v as i32),
            None => r is None,
        },
{
    let ghost o = bytes@.subrange(start as int, bytes@.len() as int);
    if start == bytes.len() {
        return None;
    }
    if bytes[start] == 45 {
        assert(o.drop_first() =~= bytes@.subrange(start + 1, bytes@.len() as int));
        match parse_digits(bytes, start + 1, bytes.len(), i32::MAX as u64) {
            Some(v) => Some(-(v as i32)),
            None => None,
        }
    } else {
        match parse_digits(bytes, start, bytes.len(), i32::MAX as u64) {
            Some(v) => Some(v as i32),
            None => None,
        }
    }
}

/// Parse a scientific note name (`C4`, `C#4`, `Db4`, `a-1`) to a MIDI note.
pub fn parse_scientific(note: &str) -> (r: Result<u8, PitchError>)
    ensures
        scientific_result(note@, r),
{
    let trimmed = trim_text(note);
    let bytes = trimmed.as_bytes();
    let ghost t = bytes@;
    assert(t == trimmed_bytes(note@));
    if bytes.len() == 0 {
        return Err(PitchError::InvalidNote(note.to_owned()));
    }
    let first = bytes[0];
    let mut pc: i32 = if first == 65 || first == 97 {
        9
    } else if first == 66 || first == 98 {
        11
    } else if first == 67 || first == 99 {
        0
    } else if first == 68 || first == 100 {
        2
    } else if first == 69 || first == 101 {
        4
    } else if first == 70 || first == 102 {
        5
    } else if first == 71 || first == 103 {
        7
    } else {
        return Err(PitchError::InvalidNote(note.to_owned()));
    };
    let mut idx: usize = 1;
    if bytes.len() > 1 {
        if bytes[1] == 35 {
            pc = pc + 1;
            idx = 2;
        } else if bytes[1] == 98 {
            pc = pc - 1;
            idx = 2;
        }
    }
    assert(idx == head_len(t));
    assert(pc == letter_pitch_class(t[0]).unwrap() + accidental_shift(t));
    let octave = match parse_octave(bytes, idx) {
        Some(oct) => oct,
        None => {
            return Err(PitchError::InvalidNote(note.to_owned()));
        },
    };
    let ghost parts = note_parts(t);
    assert(parts == Some((octave as int, pc as int)));
    if octave == i32::MAX {
        return Err(PitchError::OutOfRange(i32::MAX));
    }
    let next = octave + 1;
    if next > 178956970 || next < -178956970 {
        return Err(PitchError::OutOfRange(i32::MAX));
    }
    let scaled = next * 12;
    if (pc > 0 && scaled > i32::MAX - pc) || (pc < 0 && scaled < i32::MIN - pc) {
        return Err(PitchError::OutOfRange(i32::MAX));
    }
    let midi = scaled + pc;
    clamp_midi(midi)
}

/// The byte of the `i`-th letter of `CDEFGAB`, lowercase when `lower`.
pub open spec fn scale_letter(i: int, lower: bool) -> u8 {
    let upper = seq![67u8, 68u8, 69u8, 70u8, 71u8, 65u8, 66u8][i];
    if lower {
        (upper + 32) as u8
    } else {
        upper
    }
}

/// The accidental text for a shift of `acc` semitones: `#`, `b` or nothing.
pub open spec fn accidental_text(acc: int) -> Seq<u8> {
    if acc == 1 {
        seq![35u8]
    } else if acc == -1 {
        seq![98u8]
    } else {
        Seq::empty()
    }
}

/// Octave text: an optional `-` and decimal digits.
pub open spec fn octave_text(neg: bool, digits: Seq<u8>) -> Seq<u8> {
    if neg {
        seq![45u8] + digits
    } else {
        digits
    }
}

/// A letter, an accidental and an octave are read as their octave and pitch class.
proof fn lemma_letter_note_parts(i: int, lower: bool, acc: int, neg: bool, digits: Seq<u8>)
    requires
        0 <= i < 7,
        -1 <= acc <= 1,
        digits.len() > 0,
        all_digits(digits),
        digits_value(digits) <= 1000,
    ensures
        note_parts(seq![scale_letter(i, lower)] + accidental_text(acc) + octave_text(neg, digits))
            == Some(
            (
                if neg {
                    -digits_value(digits)
                } else {
                    digits_value(digits) as int
                },
                seq![0int, 2int, 4int, 5int, 7int, 9int, 11int][i] + acc,
            ),
        ),
{
    let o = octave_text(neg, digits);
    let a = accidental_text(acc);
    let t = seq![scale_letter(i, lower)] + a + o;
    assert(is_digit(digits[0]));
    if neg {
        assert(o[0] == 45);
        assert(o.drop_first() =~= digits);
    } else {
        assert(o[0] == digits[0]);
    }
    assert(octave_value(o) == Some(
        if neg {
            -digits_value(digits)
        } else {
            digits_value(digits) as int
        },
    ));
    assert(t[0] == scale_letter(i, lower));
    if acc == 0 {
        assert(t[1] == o[0]);
        assert(head_len(t) == 1);
        assert(t.subrange(1, t.len() as int) =~= o);
    } else {
        assert(t[1] == a[0]);
        assert(head_len(t) == 2);
        assert(t.subrange(2, t.len() as int) =~= o);
    }
    assert(accidental_shift(t) == acc);
}

/// A note name made of one of the letters `C D E F G A B`, in either case, an
/// optional `#` (one semitone up) or `b` (one down), and an octave `k`
/// (`-1000..=1000`, in decimal with an optional `-`) converts to
/// `(k + 1) * 12` plus the letter's semitones above C (0, 2, 4, 5, 7, 9, 11)
/// and the accidental: upper- and lowercase names give the same number, `E4`
/// gives 64, `C#4` 61 and `a-1` 9; a number outside 0–127 is refused with
/// itself.
pub proof fn lemma_letter_names_convert(
    note: Seq<char>,
    r: Result<u8, PitchError>,
    i: int,
    lower: bool,
    acc: int,
    neg: bool,
    digits: Seq<u8>,
)
    requires
        0 <= i < 7,
        -1 <= acc <= 1,
        digits.len() > 0,
        all_digits(digits),
        digits_value(digits) <= 1000,
        trimmed_bytes(note) == seq![scale_letter(i, lower)] + accidental_text(acc) + octave_text(
            neg,
            digits,
        ),
        scientific_result(note, r),
    ensures
        ({
            let k = if neg {
                -digits_value(digits)
            } else {
                digits_value(digits) as int
            };
            let v = (k + 1) * 12 + seq![0int, 2int, 4int, 5int, 7int, 9int, 11int][i] + acc;
            if 0 <= v <= 127 {
                r == Ok::<u8, PitchError>(v as u8)
            } else {
                r == Err::<u8, PitchError>(PitchError::OutOfRange(v as i32))
            }
        }),
{
    lemma_letter_note_parts(i, lower, acc, neg, digits);
    let pc = seq![0int, 2int, 4int, 5int, 7int, 9int, 11int][i];
    assert(0 <= pc <= 11);
    let k = if neg {
        -digits_value(digits)
    } else {
        digits_value(digits) as int
    };
    assert(steps_fit(k, pc + acc));
}

/// Every in-range MIDI integer converts to itself, and every other integer is
/// rejected with itself as the reported value.
pub proof fn lemma_integer_notes_pass_through(v: i32, r: Result<u8, PitchError>)
    requires
        v.note_outcome(r),
    ensures
        0 <= v <= 127 ==> r == Ok::<u8, PitchError>(v as u8),
        !(0 <= v <= 127) ==> r == Err::<u8, PitchError>(PitchError::OutOfRange(v)),
{
}

} // verus!
