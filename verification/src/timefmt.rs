//! Lease timestamps: RFC 3339 parsing and the fixed display form
//! `YYYY-MM-DD HH:MM:SS`.

use vstd::prelude::*;
use crate::cidr::{digit_char, digit_val, is_digit};
use crate::strutil::spec_digit;

verus! {

/// The wall-clock fields of a lease timestamp. The offset of the RFC 3339
/// input is checked syntactically but not kept: the display shows the
/// timestamp in the clock it was written in.
#[derive(Debug, Clone, Copy, PartialEq, Eq, Structural)]
pub struct Timestamp {
    pub year: u32,
    pub month: u32,
    pub day: u32,
    pub hour: u32,
    pub minute: u32,
    pub second: u32,
}

/// A leap year of the Gregorian calendar.
pub open spec fn is_leap_year(y: int) -> bool {
    y % 4 == 0 && (y % 100 != 0 || y % 400 == 0)
}

/// The number of days of month `m` of year `y`.
pub open spec fn days_in_month(y: int, m: int) -> int {
    if m == 2 {
        if is_leap_year(y) {
            29
        } else {
            28
        }
    } else if m == 4 || m == 6 || m == 9 || m == 11 {
        30
    } else {
        31
    }
}

impl Timestamp {
    /// The fields form a real calendar date and a time of day, with a year
    /// that four digits can hold.
    pub open spec fn wf(self) -> bool {
        self.year <= 9999 && 1 <= self.month <= 12 && 1 <= self.day <= days_in_month(
            self.year as int,
            self.month as int,
        ) && self.hour <= 23 && self.minute <= 59 && self.second <= 59
    }
}

/// The value of the two digits at positions `i` and `i + 1`.
pub open spec fn two_val(s: Seq<char>, i: int) -> int {
    10 * digit_val(s[i]) + digit_val(s[i + 1])
}

/// The value of the four digits starting at position `i`.
pub open spec fn four_val(s: Seq<char>, i: int) -> int {
    1000 * digit_val(s[i]) + 100 * digit_val(s[i + 1]) + 10 * digit_val(s[i + 2]) + digit_val(
        s[i + 3],
    )
}

/// Digits at positions `i` and `i + 1`.
pub open spec fn digits2_at(s: Seq<char>, i: int) -> bool {
    is_digit(s[i]) && is_digit(s[i + 1])
}

/// A numeric UTC offset or `Z`, exactly filling the string from position
/// `i` on.
pub open spec fn offset_ok(s: Seq<char>, i: int) -> bool {
    (s.len() == i + 1 && (s[i] == 'Z' || s[i] == 'z')) || (s.len() == i + 6 && (s[i] == '+' || s[i]
        == '-') && digits2_at(s, i + 1) && s[i + 3] == ':' && digits2_at(s, i + 4) && two_val(
        s,
        i + 1,
    ) <= 23 && two_val(s, i + 4) <= 59)
}

/// Zero or more fractional-second digits from position `i` on, followed by
/// an offset.
pub open spec fn frac_then_offset(s: Seq<char>, i: int) -> bool
    decreases s.len() - i,
{
    offset_ok(s, i) || (0 <= i < s.len() && is_digit(s[i]) && frac_then_offset(s, i + 1))
}

/// The date and time fields read off an RFC 3339 string (meaningful when
/// `is_rfc3339` holds of it).
pub open spec fn spec_fields(s: Seq<char>) -> Timestamp {
    Timestamp {
        year: four_val(s, 0) as u32,
        month: two_val(s, 5) as u32,
        day: two_val(s, 8) as u32,
        hour: two_val(s, 11) as u32,
        minute: two_val(s, 14) as u32,
        second: two_val(s, 17) as u32,
    }
}

/// An RFC 3339 date-time: `YYYY-MM-DDTHH:MM:SS`, an optional fraction of a
/// second, and an offset (`Z` or `±HH:MM`), with every field in range.
pub open spec fn is_rfc3339(s: Seq<char>) -> bool {
    s.len() >= 20 && is_digit(s[0]) && is_digit(s[1]) && is_digit(s[2]) && is_digit(s[3]) && s[4]
        == '-' && digits2_at(s, 5) && s[7] == '-' && digits2_at(s, 8) && (s[10] == 'T' || s[10]
        == 't') && digits2_at(s, 11) && s[13] == ':' && digits2_at(s, 14) && s[16] == ':'
        && digits2_at(s, 17) && spec_fields(s).wf() && (offset_ok(s, 19) || (s[19] == '.' && s.len()
        > 20 && is_digit(s[20]) && frac_then_offset(s, 21)))
}

/// Decides whether the string from position `i` on is a well-formed offset.
fn check_offset(s: &str, i: usize) -> (r: bool)
    requires
        i <= s@.len(),
    ensures
        r == offset_ok(s@, i as int),
{
    let n = s.unicode_len();
    if n - i == 1 {
        let c = s.get_char(i);
        c == 'Z' || c == 'z'
    } else if n - i == 6 {
        let sign = s.get_char(i);
        if sign == '+' || sign == '-' {
            let h0 = s.get_char(i + 1);
            let h1 = s.get_char(i + 2);
            let m0 = s.get_char(i + 4);
            let m1 = s.get_char(i + 5);
            if digit_char(h0) && digit_char(h1) && s.get_char(i + 3) == ':' && digit_char(m0)
                && digit_char(m1) {
                let hours = (h0 as u32 - 48) * 10 + (h1 as u32 - 48);
                let minutes = (m0 as u32 - 48) * 10 + (m1 as u32 - 48);
                hours <= 23 && minutes <= 59
            } else {
                false
            }
        } else {
            false
        }
    } else {
        false
    }
}

/// Reads the two digits at positions `i` and `i + 1`.
fn read_two(s: &str, i: usize) -> (r: Option<u32>)
    requires
        i + 2 <= s@.len(),
        s@.len() <= usize::MAX,
    ensures
        match r {
            Some(v) => digits2_at(s@, i as int) && v == two_val(s@, i as int) && v <= 99,
            None => !digits2_at(s@, i as int),
        },
{
    let c0 = s.get_char(i);
    let c1 = s.get_char(i + 1);
    if digit_char(c0) && digit_char(c1) {
        Some((c0 as u32 - 48) * 10 + (c1 as u32 - 48))
    } else {
        None
    }
}

/// Parses an RFC 3339 date-time; yields its wall-clock fields, or nothing
/// when the string is not in that form.
pub fn parse_rfc3339(s: &str) -> (r: Option<Timestamp>)
    ensures
        r is Some <==> is_rfc3339(s@),
        r matches Some(t) ==> t == spec_fields(s@) && t.wf(),
{
    let n = s.unicode_len();
    if n < 20 {
        return None;
    }
    // year
    let c0 = s.get_char(0);
    let c1 = s.get_char(1);
    let c2 = s.get_char(2);
    let c3 = s.get_char(3);
    if !(digit_char(c0) && digit_char(c1) && digit_char(c2) && digit_char(c3)) {
        return None;
    }
    let year = (c0 as u32 - 48) * 1000 + (c1 as u32 - 48) * 100 + (c2 as u32 - 48) * 10 + (c3
        as u32 - 48);
    if s.get_char(4) != '-' {
        return None;
    }
    let month = match read_two(s, 5) {
        Some(v) => v,
        None => {
            return None;
        },
    };
    if s.get_char(7) != '-' {
        return None;
    }
    let day = match read_two(s, 8) {
        Some(v) => v,
        None => {
            return None;
        },
    };
    let sep = s.get_char(10);
    if !(sep == 'T' || sep == 't') {
        return None;
    }
    let hour = match read_two(s, 11) {
        Some(v) => v,
        None => {
            return None;
        },
    };
    if s.get_char(13) != ':' {
        return None;
    }
    let minute = match read_two(s, 14) {
        Some(v) => v,
        None => {
            return None;
        },
    };
    if s.get_char(16) != ':' {
        return None;
    }
    let second = match read_two(s, 17) {
        Some(v) => v,
        None => {
            return None;
        },
    };
    // field ranges
    if month < 1 || month > 12 || day < 1 || hour > 23 || minute > 59 || second > 59 {
        return None;
    }
    let leap = year % 4 == 0 && (year % 100 != 0 || year % 400 == 0);
    let max_day: u32 = if month == 2 {
        if leap {
            29
        } else {
            28
        }
    } else if month == 4 || month == 6 || month == 9 || month == 11 {
        30
    } else {
        31
    };
    if day > max_day {
        return None;
    }
    let t = Timestamp { year, month, day, hour, minute, second };
    proof {
        assert(t == spec_fields(s@));
        assert(t.wf());
    }
    // fraction and offset
    let tail_ok: bool = if s.get_char(19) == '.' {
        if n > 20 && digit_char(s.get_char(20)) {
            let mut j: usize = 21;
            while j < n && digit_char(s.get_char(j))
                invariant
                    21 <= j <= n == s@.len(),
                    frac_then_offset(s@, 21) == frac_then_offset(s@, j as int),
                decreases n - j,
            {
                proof {
                    assert(!offset_ok(s@, j as int));
                }
                j = j + 1;
            }
            check_offset(s, j)
        } else {
            false
        }
    } else {
        check_offset(s, 19)
    };
    if tail_ok {
        Some(t)
    } else {
        None
    }
}

/// `n` written with two digits.
pub open spec fn spec_two_digits(n: int) -> Seq<char> {
    seq![spec_digit(n / 10), spec_digit(n % 10)]
}

/// `n` written with four digits.
pub open spec fn spec_four_digits(n: int) -> Seq<char> {
    seq![
        spec_digit(n / 1000),
        spec_digit((n / 100) % 10),
        spec_digit((n / 10) % 10),
        spec_digit(n % 10),
    ]
}

/// The fixed display form of a timestamp: `YYYY-MM-DD HH:MM:SS`.
pub open spec fn spec_display(t: Timestamp) -> Seq<char> {
    spec_four_digits(t.year as int) + seq!['-'] + spec_two_digits(t.month as int) + seq!['-']
        + spec_two_digits(t.day as int) + seq![' '] + spec_two_digits(t.hour as int) + seq![':']
        + spec_two_digits(t.minute as int) + seq![':'] + spec_two_digits(t.second as int)
}

/// Appends `v` to `r` with two digits.
fn push_two_digits(r: &mut String, v: u32)
    requires
        v <= 99,
    ensures
        final(r)@ == old(r)@ + spec_two_digits(v as int),
{
    r.push(((48 + v / 10) as u8) as char);
    r.push(((48 + v % 10) as u8) as char);
    proof {
        assert(final(r)@ =~= old(r)@ + spec_two_digits(v as int));
    }
}

/// Renders a timestamp in the display form `YYYY-MM-DD HH:MM:SS`.
pub fn format_display(t: &Timestamp) -> (r: String)
    requires
        t.wf(),
    ensures
        r@ == spec_display(*t),
{
    let mut r = String::new();
    r.push(((48 + t.year / 1000) as u8) as char);
    r.push(((48 + (t.year / 100) % 10) as u8) as char);
    r.push(((48 + (t.year / 10) % 10) as u8) as char);
    r.push(((48 + t.year % 10) as u8) as char);
    proof {
        assert(r@ =~= spec_four_digits(t.year as int));
    }
    r.push('-');
    push_two_digits(&mut r, t.month);
    r.push('-');
    push_two_digits(&mut r, t.day);
    r.push(' ');
    push_two_digits(&mut r, t.hour);
    r.push(':');
    push_two_digits(&mut r, t.minute);
    r.push(':');
    push_two_digits(&mut r, t.second);
    proof {
        assert(r@ =~= spec_display(*t));
    }
    r
}

/// Rendering the fields parsed from an RFC 3339 string gives back its date
/// and its time of day, letter for letter, with the `T` replaced by a
/// space: the display is a faithful round trip of the input's wall clock.
pub proof fn lemma_display_round_trip(s: Seq<char>)
    requires
        is_rfc3339(s),
    ensures
        spec_display(spec_fields(s)) == s.subrange(0, 10) + seq![' '] + s.subrange(11, 19),
{
    let t = spec_fields(s);
    lemma_two_digit_val(s, 5);
    lemma_two_digit_val(s, 8);
    lemma_two_digit_val(s, 11);
    lemma_two_digit_val(s, 14);
    lemma_two_digit_val(s, 17);
    lemma_four_digit_val(s, 0);
    assert(spec_display(t) =~= s.subrange(0, 10) + seq![' '] + s.subrange(11, 19));
}

/// Two digit characters are recovered from their value.
proof fn lemma_two_digit_val(s: Seq<char>, i: int)
    requires
        digits2_at(s, i),
    ensures
        spec_two_digits(two_val(s, i)) == seq![s[i], s[i + 1]],
{
    let a = digit_val(s[i]);
    let b = digit_val(s[i + 1]);
    assert((10 * a + b) / 10 == a);
    assert((10 * a + b) % 10 == b);
    lemma_digit_roundtrip(s[i]);
    lemma_digit_roundtrip(s[i + 1]);
    assert(spec_two_digits(two_val(s, i)) =~= seq![s[i], s[i + 1]]);
}

/// Four digit characters are recovered from their value.
proof fn lemma_four_digit_val(s: Seq<char>, i: int)
    requires
        is_digit(s[i]),
        is_digit(s[i + 1]),
        is_digit(s[i + 2]),
        is_digit(s[i + 3]),
    ensures
        spec_four_digits(four_val(s, i)) == seq![s[i], s[i + 1], s[i + 2], s[i + 3]],
{
    let a = digit_val(s[i]);
    let b = digit_val(s[i + 1]);
    let c = digit_val(s[i + 2]);
    let d = digit_val(s[i + 3]);
    let v = 1000 * a + 100 * b + 10 * c + d;
    assert(v / 1000 == a && v / 100 == 10 * a + b && v / 10 == 100 * a + 10 * b + c && v % 10 == d)
        by (nonlinear_arith)
        requires
            v == 1000 * a + 100 * b + 10 * c + d,
            0 <= a <= 9,
            0 <= b <= 9,
            0 <= c <= 9,
            0 <= d <= 9,
    ;
    assert((10 * a + b) % 10 == b) by (nonlinear_arith)
        requires
            0 <= a <= 9,
            0 <= b <= 9,
    ;
    assert((100 * a + 10 * b + c) % 10 == c) by (nonlinear_arith)
        requires
            0 <= a <= 9,
            0 <= b <= 9,
            0 <= c <= 9,
    ;
    lemma_digit_roundtrip(s[i]);
    lemma_digit_roundtrip(s[i + 1]);
    lemma_digit_roundtrip(s[i + 2]);
    lemma_digit_roundtrip(s[i + 3]);
    assert(spec_four_digits(four_val(s, i)) =~= seq![s[i], s[i + 1], s[i + 2], s[i + 3]]);
}

/// Writing a digit's value gives back the digit.
proof fn lemma_digit_roundtrip(c: char)
    requires
        is_digit(c),
    ensures
        spec_digit(digit_val(c)) == c,
{
}

} // verus!
