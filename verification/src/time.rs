//! Tone-style time strings: note values (`4n`, `8n.`, `8t`, `1m`, `+4n`) and
//! bars:beats:sixteenths (`1:2:0.5`).
//!
//! This module decides which strings are times and what they are made of;
//! turning them into seconds at a tempo is floating-point work done by the host.

use vstd::prelude::*;
use vstd::string::StringSliceAdditionalSpecFns;

use crate::text::{
    all_digits, bounded_digits, digits_value, find_byte, first_index, is_digit, lemma_first_index,
    parse_digits, split_text_at, trim_text, trimmed_bytes, all_digits_in,
};

verus! {

/// Byte of a plain note value unit (`4n`).
pub const UNIT_NOTE: u8 = 110;

/// Byte of a measure unit (`1m`).
pub const UNIT_MEASURE: u8 = 109;

/// Byte of a triplet unit (`8t`).
pub const UNIT_TRIPLET: u8 = 116;

/// A time string once classified.
#[derive(Debug, Clone, Copy, PartialEq, Eq)]
pub enum TimeText<'a> {
    /// `bars:beats:sixteenths`; the sixteenths text is `digits` or `digits.digits`.
    Bbs(u32, u32, &'a str),
    /// `(+)count unit (.)`: relative to now, count, unit byte (`n` / `m` / `t`), dotted.
    Note(bool, u32, u8, bool),
}

/// End of the run of digits in `t` that starts at `i`.
pub open spec fn digit_run_end(t: Seq<u8>, i: int) -> int
    decreases t.len() - i,
{
    if 0 <= i < t.len() && is_digit(t[i]) {
        digit_run_end(t, i + 1)
    } else {
        i
    }
}

/// A unit byte of a note value.
pub open spec fn is_unit(b: u8) -> bool {
    b == UNIT_NOTE || b == UNIT_MEASURE || b == UNIT_TRIPLET
}

/// Note value grammar `(\+)?([0-9]+)([nmt])(\.)?` with a count that fits in `u32`.
pub open spec fn note_spec(t: Seq<u8>) -> Option<(bool, u32, u8, bool)> {
    if t.len() == 0 {
        None
    } else {
        let relative = t[0] == 43;
        let ds: int = if relative {
            1
        } else {
            0
        };
        let de = digit_run_end(t, ds);
        match bounded_digits(t.subrange(ds, de), u32::MAX as nat) {
            None => None,
            Some(count) => if de >= t.len() || !is_unit(t[de]) {
                None
            } else if de + 1 == t.len() {
                Some((relative, count as u32, t[de], false))
            } else if t[de + 1] == 46 && de + 2 == t.len() {
                Some((relative, count as u32, t[de], true))
            } else {
                None
            },
        }
    }
}

/// Sixteenths grammar: `[0-9]+` or `[0-9]+\.[0-9]+`.
pub open spec fn decimal_ok(t: Seq<u8>) -> bool {
    let d = first_index(t, 46, 0);
    t.len() > 0 && if d < t.len() {
        d > 0 && d + 1 < t.len() && all_digits(t.subrange(0, d)) && all_digits(
            t.subrange(d + 1, t.len() as int),
        )
    } else {
        all_digits(t)
    }
}

/// `bars:beats:sixteenths`: bars, beats, and the byte where the sixteenths start.
pub open spec fn bbs_spec(t: Seq<u8>) -> Option<(u32, u32, int)> {
    let p1 = first_index(t, 58, 0);
    let p2 = first_index(t, 58, p1 + 1);
    if p1 >= t.len() || p2 >= t.len() || first_index(t, 58, p2 + 1) < t.len() {
        None
    } else {
        match (
            bounded_digits(t.subrange(0, p1), u32::MAX as nat),
            bounded_digits(t.subrange(p1 + 1, p2), u32::MAX as nat),
        ) {
            (Some(bars), Some(beats)) => if decimal_ok(t.subrange(p2 + 1, t.len() as int)) {
                Some((bars as u32, beats as u32, p2 + 1))
            } else {
                None
            },
            _ => None,
        }
    }
}

/// Decimal value of `text` when it is all digits and fits in `u32`.
pub fn parse_uint(text: &str) -> (r: Option<u32>)
    ensures
        match bounded_digits(text.spec_bytes(), u32::MAX as nat) {
            Some(v) => r == Some(v as u32),
            None => r is None,
        },
{
    let bytes = text.as_bytes();
    assert(bytes@.subrange(0, bytes@.len() as int) =~= bytes@);
    match parse_digits(bytes, 0, bytes.len(), u32::MAX as u64) {
        Some(v) => Some(v as u32),
        None => None,
    }
}

/// Whether `text` is a sixteenths count: `[0-9]+` or `[0-9]+\.[0-9]+`.
pub fn is_sixteenths(text: &str) -> (r: bool)
    ensures
        r == decimal_ok(text.spec_bytes()),
{
    let bytes = text.as_bytes();
    assert(bytes@.subrange(0, bytes@.len() as int) =~= bytes@);
    sixteenths_from(bytes, 0)
}

/// Whether `bytes[start..]` is a sixteenths count.
fn sixteenths_from(bytes: &[u8], start: usize) -> (r: bool)
    requires
        start <= bytes@.len(),
    ensures
        r == decimal_ok(bytes@.subrange(start as int, bytes@.len() as int)),
        r ==> start < bytes@.len() && is_digit(bytes@[start as int]),
{
    let ghost t = bytes@.subrange(start as int, bytes@.len() as int);
    if start == bytes.len() {
        return false;
    }
    let dot = find_byte(bytes, 46, start);
    proof {
        lemma_first_index(bytes@, 46, start as int);
        lemma_first_index(t, 46, 0);
        lemma_first_index_shift(bytes@, 46, start as int, 0);
    }
    assert(first_index(t, 46, 0) == dot - start);
    if dot < bytes.len() {
        if dot == start || dot + 1 >= bytes.len() {
            return false;
        }
        let whole = all_digits_in(bytes, start, dot);
        let frac = all_digits_in(bytes, dot + 1, bytes.len());
        assert(t.subrange(0, dot - start) =~= bytes@.subrange(start as int, dot as int));
        assert(t.subrange(dot - start + 1, t.len() as int) =~= bytes@.subrange(
            dot + 1,
            bytes@.len() as int,
        ));
        if whole && frac {
            assert(is_digit(bytes@.subrange(start as int, dot as int)[0]));
        }
        whole && frac
    } else {
        let all = all_digits_in(bytes, start, bytes.len());
        if all {
            assert(is_digit(t[0]));
        }
        all
    }
}

/// `first_index` in a suffix is `first_index` in the whole, shifted.
proof fn lemma_first_index_shift(b: Seq<u8>, c: u8, start: int, k: int)
    requires
        0 <= start <= b.len(),
        0 <= k <= b.len() - start,
    ensures
        first_index(b.subrange(start, b.len() as int), c, k) + start == first_index(b, c, start + k),
    decreases b.len() - start - k,
{
    let t = b.subrange(start, b.len() as int);
    if k < t.len() && t[k] != c {
        lemma_first_index_shift(b, c, start, k + 1);
    }
}

/// Note value: `(relative, count, unit, dotted)` of `(\+)?([0-9]+)([nmt])(\.)?`.
pub fn parse_note(text: &str) -> (r: Option<(bool, u32, u8, bool)>)
    ensures
        r == note_spec(text.spec_bytes()),
{
    let bytes = text.as_bytes();
    let ghost t = bytes@;
    if bytes.len() == 0 {
        return None;
    }
    let relative = bytes[0] == 43;
    let digits_start: usize = if relative {
        1
    } else {
        0
    };
    let mut idx = digits_start;
    while idx < bytes.len() && bytes[idx] >= 48 && bytes[idx] <= 57
        invariant
            digits_start <= idx <= bytes@.len(),
            digits_start <= 1,
            digit_run_end(t, digits_start as int) == digit_run_end(t, idx as int),
            t == bytes@,
        decreases bytes@.len() - idx,
    {
        idx = idx + 1;
    }
    assert(digit_run_end(t, idx as int) == idx);
    let count = match parse_digits(bytes, digits_start, idx, u32::MAX as u64) {
        Some(c) => c as u32,
        None => {
            return None;
        },
    };
    if idx >= bytes.len() {
        return None;
    }
    let unit = bytes[idx];
    if unit != UNIT_NOTE && unit != UNIT_MEASURE && unit != UNIT_TRIPLET {
        return None;
    }
    idx = idx + 1;
    if idx == bytes.len() {
        return Some((relative, count, unit, false));
    }
    if bytes[idx] == 46 && idx + 1 == bytes.len() {
        Some((relative, count, unit, true))
    } else {
        None
    }
}

/// `bars:beats:sixteenths`, the sixteenths still as text for the host to read.
pub fn parse_bbs<'a>(text: &'a str) -> (r: Option<(u32, u32, &'a str)>)
    ensures
        match bbs_spec(text.spec_bytes()) {
            Some((bars, beats, start)) => r matches Some((b, e, s)) && b == bars && e == beats
                && s.spec_bytes() == text.spec_bytes().subrange(
                start,
                text.spec_bytes().len() as int,
            ),
            None => r is None,
        },
{
    let bytes = text.as_bytes();
    let ghost t = bytes@;
    let p1 = find_byte(bytes, 58, 0);
    proof {
        lemma_first_index(t, 58, 0);
    }
    if p1 >= bytes.len() {
        return None;
    }
    let p2 = find_byte(bytes, 58, p1 + 1);
    proof {
        lemma_first_index(t, 58, p1 + 1);
    }
    if p2 >= bytes.len() {
        return None;
    }
    let p3 = find_byte(bytes, 58, p2 + 1);
    if p3 < bytes.len() {
        return None;
    }
    let bars = match parse_digits(bytes, 0, p1, u32::MAX as u64) {
        Some(v) => v as u32,
        None => {
            return None;
        },
    };
    let beats = match parse_digits(bytes, p1 + 1, p2, u32::MAX as u64) {
        Some(v) => v as u32,
        None => {
            return None;
        },
    };
    if !sixteenths_from(bytes, p2 + 1) {
        return None;
    }
    let (_, sixteenths) = split_text_at(text, p2 + 1);
    Some((bars, beats, sixteenths))
}

/// What a time string is, once white space is trimmed.
pub open spec fn time_text_spec(value: Seq<char>) -> Option<(bool, u32, u32, int, bool, u32, u8, bool)> {
    let t = trimmed_bytes(value);
    match bbs_spec(t) {
        Some((bars, beats, start)) => Some((true, bars, beats, start, false, 0, 0, false)),
        None => match note_spec(t) {
            None => None,
            Some((relative, count, unit, dotted)) => if count == 0 && unit != UNIT_MEASURE {
                None
            } else {
                Some((false, 0, 0, 0, relative, count, unit, dotted))
            },
        },
    }
}

/// Classify a time string: bars:beats:sixteenths first, then a note value.
///
/// `None` is an invalid time. A zero count is invalid for `n` and `t` units
/// (it would divide by zero) and valid for `m` (zero measures).
pub fn parse_time_text<'a>(value: &'a str) -> (r: Option<TimeText<'a>>)
    ensures
        match time_text_spec(value@) {
            None => r is None,
            Some((is_bbs, bars, beats, start, relative, count, unit, dotted)) => if is_bbs {
                r matches Some(TimeText::Bbs(b, e, s)) && b == bars && e == beats
                    && s.spec_bytes() == trimmed_bytes(value@).subrange(
                    start,
                    trimmed_bytes(value@).len() as int,
                )
            } else {
                r == Some(TimeText::Note(relative, count, unit, dotted))
            },
        },
{
    let text = trim_text(value);
    if let Some((bars, beats, sixteenths)) = parse_bbs(text) {
        return Some(TimeText::Bbs(bars, beats, sixteenths));
    }
    match parse_note(text) {
        None => None,
        Some((relative, count, unit, dotted)) => {
            if count == 0 && unit != UNIT_MEASURE {
                None
            } else {
                Some(TimeText::Note(relative, count, unit, dotted))
            }
        },
    }
}

/// The digit run that starts anywhere in `t[a..b)`, all digits before a
/// non-digit at `b`, ends at `b`.
proof fn lemma_digit_run_ends_at(t: Seq<u8>, a: int, b: int, i: int)
    requires
        0 <= a <= i <= b < t.len(),
        forall|j: int| a <= j < b ==> is_digit(#[trigger] t[j]),
        !is_digit(t[b]),
    ensures
        digit_run_end(t, i) == b,
    decreases b - i,
{
    if i < b {
        lemma_digit_run_ends_at(t, a, b, i + 1);
    }
}

/// A note value `(+)digits unit (.)` is read with the whole run of digits as
/// its count: for every digit string `d` whose value fits in `u32` and every
/// unit `n`, `m` or `t`, the time is that count of that unit (`16n` is sixteen
/// to the whole note, `12m` twelve measures), relative when it starts with
/// `+` and dotted when it ends with `.`; a zero count is refused for `n` and
/// `t` only.
pub proof fn lemma_note_value_counts(
    value: Seq<char>,
    relative: bool,
    d: Seq<u8>,
    u: u8,
    dotted: bool,
)
    requires
        d.len() > 0,
        all_digits(d),
        digits_value(d) <= u32::MAX,
        u == 110 || u == 109 || u == 116,
        trimmed_bytes(value) == (if relative {
            seq![43u8]
        } else {
            Seq::<u8>::empty()
        }) + d + seq![u] + (if dotted {
            seq![46u8]
        } else {
            Seq::<u8>::empty()
        }),
    ensures
        time_text_spec(value) == if digits_value(d) == 0 && u != 109 {
            None
        } else {
            Some((false, 0u32, 0u32, 0int, relative, digits_value(d) as u32, u, dotted))
        },
{
    let t = trimmed_bytes(value);
    let ds: int = if relative {
        1
    } else {
        0
    };
    let de = ds + d.len();
    assert(forall|j: int| 0 <= j < d.len() ==> t[ds + j] == d[j]);
    assert(forall|j: int| 0 <= j < d.len() ==> is_digit(#[trigger] d[j]));
    assert(t[de] == u);
    assert(forall|j: int| ds <= j < de ==> is_digit(#[trigger] t[j])) by {
        assert forall|j: int| ds <= j < de implies is_digit(#[trigger] t[j]) by {
            assert(t[ds + (j - ds)] == d[j - ds]);
        }
    }
    assert(!is_digit(t[de]));
    lemma_digit_run_ends_at(t, ds, de, ds);
    if relative {
        assert(t[0] == 43);
    } else {
        assert(t[0] == d[0]);
        assert(is_digit(d[0]));
    }
    assert(t.subrange(ds, de) =~= d);
    if dotted {
        assert(t[de + 1] == 46);
        assert(t.len() == de + 2);
    } else {
        assert(t.len() == de + 1);
    }
    assert(note_spec(t) == Some((relative, digits_value(d) as u32, u, dotted)));
    lemma_first_index(t, 58, 0);
    assert forall|j: int| 0 <= j < t.len() implies t[j] != 58 by {
        if j < ds {
        } else if j < de {
            assert(is_digit(t[j]));
        } else if j == de {
        } else {
            assert(t[j] == 46);
        }
    }
    assert(bbs_spec(t) is None);
}

/// The first `c` at or after `from` is at `at` when `t[at] == c` and no byte in
/// `[from, at)` is `c`.
proof fn lemma_first_index_at(t: Seq<u8>, c: u8, from: int, at: int)
    requires
        0 <= from <= at < t.len(),
        t[at] == c,
        forall|j: int| from <= j < at ==> t[j] != c,
    ensures
        first_index(t, c, from) == at,
{
    lemma_first_index(t, c, from);
}

/// There is no `c` at or after `from` when no byte there is `c`.
proof fn lemma_first_index_none(t: Seq<u8>, c: u8, from: int)
    requires
        0 <= from <= t.len(),
        forall|j: int| from <= j < t.len() ==> t[j] != c,
    ensures
        first_index(t, c, from) == t.len(),
{
    lemma_first_index(t, c, from);
}

/// `bars:beats:sixteenths` made of digit strings whose bars and beats fit in
/// `u32` is read as those two numbers, with the sixteenths (`digits` or
/// `digits.digits`) as the text after the second colon.
pub proof fn lemma_bbs_counts(
    value: Seq<char>,
    bars: Seq<u8>,
    beats: Seq<u8>,
    whole: Seq<u8>,
    frac: Option<Seq<u8>>,
)
    requires
        bars.len() > 0 && all_digits(bars) && digits_value(bars) <= u32::MAX,
        beats.len() > 0 && all_digits(beats) && digits_value(beats) <= u32::MAX,
        whole.len() > 0 && all_digits(whole),
        frac matches Some(f) ==> f.len() > 0 && all_digits(f),
        trimmed_bytes(value) == bars + seq![58u8] + beats + seq![58u8] + whole + match frac {
            Some(f) => seq![46u8] + f,
            None => Seq::<u8>::empty(),
        },
    ensures
        time_text_spec(value) == Some(
            (
                true,
                digits_value(bars) as u32,
                digits_value(beats) as u32,
                (bars.len() + beats.len() + 2) as int,
                false,
                0u32,
                0u8,
                false,
            ),
        ),
{
    let t = trimmed_bytes(value);
    let p1 = bars.len() as int;
    let p2 = p1 + 1 + beats.len();
    let st = p2 + 1;
    assert(forall|j: int| 0 <= j < p1 ==> t[j] == bars[j]);
    assert(forall|j: int| 0 <= j < beats.len() ==> t[p1 + 1 + j] == beats[j]);
    assert(forall|j: int| 0 <= j < whole.len() ==> t[st + j] == whole[j]);
    assert(t[p1] == 58 && t[p2] == 58);
    assert forall|j: int| 0 <= j < p1 implies t[j] != 58 by {
        assert(is_digit(bars[j]));
    }
    lemma_first_index_at(t, 58, 0, p1);
    assert forall|j: int| p1 + 1 <= j < p2 implies t[j] != 58 by {
        assert(t[p1 + 1 + (j - p1 - 1)] == beats[j - p1 - 1]);
        assert(is_digit(beats[j - p1 - 1]));
    }
    lemma_first_index_at(t, 58, p1 + 1, p2);
    let sx = t.subrange(st, t.len() as int);
    assert(sx =~= whole + match frac {
        Some(f) => seq![46u8] + f,
        None => Seq::<u8>::empty(),
    });
    assert forall|j: int| st <= j < t.len() implies t[j] != 58 by {
        assert(t[j] == sx[j - st]);
        if j - st < whole.len() {
            assert(is_digit(whole[j - st]));
        } else if j - st > whole.len() {
            let f = frac->0;
            assert(sx[j - st] == f[j - st - whole.len() - 1]);
            assert(is_digit(f[j - st - whole.len() - 1]));
        }
    }
    lemma_first_index_none(t, 58, p2 + 1);
    assert(t.subrange(0, p1) =~= bars);
    assert(t.subrange(p1 + 1, p2) =~= beats);
    assert forall|j: int| 0 <= j < whole.len() implies sx[j] != 46 by {
        assert(is_digit(whole[j]));
    }
    match frac {
        Some(f) => {
            assert(sx[whole.len() as int] == 46);
            lemma_first_index_at(sx, 46, 0, whole.len() as int);
            assert(sx.subrange(0, whole.len() as int) =~= whole);
            assert(sx.subrange(whole.len() as int + 1, sx.len() as int) =~= f);
        },
        None => {
            assert(sx =~= whole);
            lemma_first_index_none(sx, 46, 0);
        },
    }
    assert(decimal_ok(sx));
    assert(bbs_spec(t) == Some((digits_value(bars) as u32, digits_value(beats) as u32, st)));
}

} // verus!
