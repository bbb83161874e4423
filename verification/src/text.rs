//! Character- and byte-level helpers shared by the note, time and file-name grammars.

use vstd::prelude::*;
use vstd::string::StringSliceAdditionalSpecFns;
use vstd::utf8::{
    decode_utf8, encode_utf8, encode_utf8_decode_utf8, encode_utf8_valid_utf8, is_char_boundary, is_char_boundary_iff_not_is_continuation_byte,
    is_char_boundary_start_end_of_seq,
};

verus! {

/// Unicode `White_Space` code points, the set that `str::trim` strips.
pub open spec fn is_white_space(c: char) -> bool {
    let u = c as u32;
    (0x09 <= u <= 0x0D) || u == 0x20 || u == 0x85 || u == 0xA0 || u == 0x1680 || (0x2000 <= u
        <= 0x200A) || u == 0x2028 || u == 0x2029 || u == 0x202F || u == 0x205F || u == 0x3000
}

/// `s` without its leading white space.
pub open spec fn trim_start(s: Seq<char>) -> Seq<char>
    decreases s.len(),
{
    if s.len() > 0 && is_white_space(s[0]) {
        trim_start(s.drop_first())
    } else {
        s
    }
}

/// `s` without its trailing white space.
pub open spec fn trim_end(s: Seq<char>) -> Seq<char>
    decreases s.len(),
{
    if s.len() > 0 && is_white_space(s.last()) {
        trim_end(s.drop_last())
    } else {
        s
    }
}

/// `s` without leading and trailing white space.
pub open spec fn trimmed(s: Seq<char>) -> Seq<char> {
    trim_end(trim_start(s))
}

/// The UTF-8 bytes of `s` once trimmed: what the text grammars read.
pub open spec fn trimmed_bytes(s: Seq<char>) -> Seq<u8> {
    encode_utf8(trimmed(s))
}

/// `str::trim`: the slice of `s` without leading and trailing white space.
#[verifier::external_body]
pub(crate) fn trim_text(s: &str) -> (r: &str)
    ensures
        r@ == trimmed(s@),
{
    s.trim()
}

/// An ASCII decimal digit byte.
pub open spec fn is_digit(b: u8) -> bool {
    48 <= b <= 57
}

/// Every byte of `s` is an ASCII digit.
pub open spec fn all_digits(s: Seq<u8>) -> bool {
    forall|i: int| 0 <= i < s.len() ==> is_digit(#[trigger] s[i])
}

/// Decimal value of a digit string (most significant digit first).
pub open spec fn digits_value(s: Seq<u8>) -> nat
    decreases s.len(),
{
    if s.len() == 0 {
        0
    } else {
        10 * digits_value(s.drop_last()) + (s.last() - 48) as nat
    }
}

/// Value of a non-empty digit string, when it is at most `limit`.
pub open spec fn bounded_digits(s: Seq<u8>, limit: nat) -> Option<nat> {
    if s.len() > 0 && all_digits(s) && digits_value(s) <= limit {
        Some(digits_value(s))
    } else {
        None
    }
}

/// A digit string's value is at least the value of any of its prefixes.
pub proof fn lemma_digits_prefix_le(s: Seq<u8>, k: int)
    requires
        all_digits(s),
        0 <= k <= s.len(),
    ensures
        digits_value(s.subrange(0, k)) <= digits_value(s),
    decreases s.len(),
{
    if k < s.len() {
        assert(s.drop_last() =~= s.subrange(0, s.len() - 1));
        lemma_digits_prefix_le(s.drop_last(), k);
        assert(s.drop_last().subrange(0, k) =~= s.subrange(0, k));
    } else {
        assert(s.subrange(0, k) =~= s);
    }
}

/// Parse `bytes[start..end]` as an unsigned decimal no greater than `limit`.
///
/// `None` when the range is empty, holds a non-digit, or its value exceeds `limit`.
pub(crate) fn parse_digits(bytes: &[u8], start: usize, end: usize, limit: u64) -> (r: Option<u64>)
    requires
        start <= end <= bytes@.len(),
    ensures
        match bounded_digits(bytes@.subrange(start as int, end as int), limit as nat) {
            Some(v) => r == Some(v as u64),
            None => r is None,
        },
{
    let ghost s = bytes@.subrange(start as int, end as int);
    if start == end {
        return None;
    }
    let mut i = start;
    while i < end
        invariant
            start <= i <= end <= bytes@.len(),
            s == bytes@.subrange(start as int, end as int),
            forall|j: int| 0 <= j < i - start ==> is_digit(#[trigger] s[j]),
        decreases end - i,
    {
        if !(bytes[i] >= 48 && bytes[i] <= 57) {
            assert(!is_digit(s[i - start]));
            return None;
        }
        i = i + 1;
    }
    assert(all_digits(s));
    let mut acc: u64 = 0;
    let mut i = start;
    while i < end
        invariant
            start <= i <= end <= bytes@.len(),
            s == bytes@.subrange(start as int, end as int),
            all_digits(s),
            acc as nat == digits_value(s.subrange(0, i - start)),
            acc <= limit,
        decreases end - i,
    {
        assert(s[i - start] == bytes@[i as int]);
        assert(is_digit(s[i - start]));
        let d = (bytes[i] - 48) as u64;
        assert(s.subrange(0, i - start + 1).drop_last() =~= s.subrange(0, i - start));
        if d > limit || acc > (limit - d) / 10 {
            proof {
                lemma_digits_prefix_le(s, i - start + 1);
                assert(acc * 10 + d > limit) by (nonlinear_arith)
                    requires
                        d > limit || acc > (limit - d) / 10,
                        d <= limit ==> (limit - d) / 10 * 10 + 10 > limit - d,
                ;
            }
            return None;
        }
        assert(acc * 10 + d <= limit) by (nonlinear_arith)
            requires
                d <= limit,
                acc <= (limit - d) / 10,
                (limit - d) / 10 * 10 <= limit - d,
        ;
        acc = acc * 10 + d;
        i = i + 1;
    }
    assert(s.subrange(0, end - start) =~= s);
    Some(acc)
}

/// Whether every byte of `bytes[start..end]` is an ASCII digit.
pub(crate) fn all_digits_in(bytes: &[u8], start: usize, end: usize) -> (r: bool)
    requires
        start <= end <= bytes@.len(),
    ensures
        r == all_digits(bytes@.subrange(start as int, end as int)),
{
    let ghost s = bytes@.subrange(start as int, end as int);
    let mut i = start;
    while i < end
        invariant
            start <= i <= end <= bytes@.len(),
            s == bytes@.subrange(start as int, end as int),
            forall|j: int| 0 <= j < i - start ==> is_digit(#[trigger] s[j]),
        decreases end - i,
    {
        if !(bytes[i] >= 48 && bytes[i] <= 57) {
            assert(!is_digit(s[i - start]));
            return false;
        }
        i = i + 1;
    }
    true
}

/// Index of the first `c` in `t` at or after `from`, or `t.len()` when there is none.
pub open spec fn first_index(t: Seq<u8>, c: u8, from: int) -> int
    decreases t.len() - from,
{
    if from < 0 || from >= t.len() {
        t.len() as int
    } else if t[from] == c {
        from
    } else {
        first_index(t, c, from + 1)
    }
}

/// `first_index` lies in `[from, t.len()]` and nothing before it matches.
pub proof fn lemma_first_index(t: Seq<u8>, c: u8, from: int)
    requires
        0 <= from <= t.len(),
    ensures
        from <= first_index(t, c, from) <= t.len(),
        first_index(t, c, from) < t.len() ==> t[first_index(t, c, from)] == c,
        forall|k: int| from <= k < first_index(t, c, from) ==> t[k] != c,
    decreases t.len() - from,
{
    if from < t.len() && t[from] != c {
        lemma_first_index(t, c, from + 1);
    }
}

/// Find the first `c` in `bytes[from..]`, or `bytes.len()`.
pub(crate) fn find_byte(bytes: &[u8], c: u8, from: usize) -> (r: usize)
    requires
        from <= bytes@.len(),
    ensures
        r == first_index(bytes@, c, from as int),
{
    proof {
        lemma_first_index(bytes@, c, from as int);
    }
    let mut i = from;
    while i < bytes.len()
        invariant
            from <= i <= bytes@.len(),
            first_index(bytes@, c, from as int) == first_index(bytes@, c, i as int),
        decreases bytes@.len() - i,
    {
        if bytes[i] == c {
            return i;
        }
        i = i + 1;
    }
    i
}

/// Split `s` at byte `mid`, which is its end or the position of an ASCII byte.
pub(crate) fn split_text_at(s: &str, mid: usize) -> (r: (&str, &str))
    requires
        mid <= s.spec_bytes().len(),
        mid < s.spec_bytes().len() ==> s.spec_bytes()[mid as int] < 128,
    ensures
        r.0.spec_bytes() == s.spec_bytes().subrange(0, mid as int),
        r.1.spec_bytes() == s.spec_bytes().subrange(mid as int, s.spec_bytes().len() as int),
{
    proof {
        let b = s.spec_bytes();
        encode_utf8_valid_utf8(s@);
        is_char_boundary_start_end_of_seq(b);
        if mid < b.len() {
            is_char_boundary_iff_not_is_continuation_byte(b, mid as int);
        }
        assert(is_char_boundary(b, mid as int));
    }
    s.split_at(mid)
}

/// Whether two texts hold the same characters.
pub(crate) fn same_text(a: &str, b: &str) -> (r: bool)
    ensures
        r == (a@ == b@),
{
    let x = a.as_bytes();
    let y = b.as_bytes();
    assert(x@ == encode_utf8(a@));
    assert(y@ == encode_utf8(b@));
    proof {
        encode_utf8_decode_utf8(a@);
        encode_utf8_decode_utf8(b@);
    }
    if x.len() != y.len() {
        return false;
    }
    let mut i: usize = 0;
    while i < x.len()
        invariant
            0 <= i <= x@.len(),
            x@.len() == y@.len(),
            x@ == encode_utf8(a@),
            y@ == encode_utf8(b@),
            decode_utf8(x@) == a@,
            decode_utf8(y@) == b@,
            forall|j: int| 0 <= j < i ==> x@[j] == y@[j],
        decreases x@.len() - i,
    {
        if x[i] != y[i] {
            assert(x@[i as int] != y@[i as int]);
            assert(x@ != y@);
            assert(a@ != b@);
            return false;
        }
        i = i + 1;
    }
    assert(x@ =~= y@);
    true
}

} // verus!
