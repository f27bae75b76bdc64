//! Syntactic validation of lease filters: an IPv4 address in dotted-quad
//! form, optionally followed by `/` and a prefix length (CIDR notation).

use vstd::prelude::*;

verus! {

/// A decimal digit.
pub open spec fn is_digit(c: char) -> bool {
    '0' <= c && c <= '9'
}

/// The value of a decimal digit.
pub open spec fn digit_val(c: char) -> int {
    c as int - '0' as int
}

/// How many decimal digits stand at position `i`, stopping before `end`.
pub open spec fn digits_until(s: Seq<char>, i: int, end: int) -> int
    decreases end - i,
{
    if i < end && 0 <= i < s.len() && is_digit(s[i]) {
        1 + digits_until(s, i + 1, end)
    } else {
        0
    }
}

/// The value of the `k` decimal digits starting at position `i`.
pub open spec fn num_val(s: Seq<char>, i: int, k: int) -> int
    decreases k,
{
    if k <= 0 {
        0
    } else {
        num_val(s, i, k - 1) * 10 + digit_val(s[i + k - 1])
    }
}

/// A well-formed address octet of `k` digits at position `i`: one to three
/// digits, no leading zero, value at most 255.
pub open spec fn octet_ok(s: Seq<char>, i: int, k: int) -> bool {
    1 <= k <= 3 && (k == 1 || s[i] != '0') && num_val(s, i, k) <= 255
}

/// `count` dot-separated octets exactly filling positions `i` up to `end`.
pub open spec fn is_ipv4_octets(s: Seq<char>, i: int, end: int, count: int) -> bool
    decreases count,
{
    let k = digits_until(s, i, end);
    if count <= 0 {
        false
    } else if count == 1 {
        octet_ok(s, i, k) && i + k == end
    } else {
        octet_ok(s, i, k) && i + k < end && s[i + k] == '.' && is_ipv4_octets(
            s,
            i + k + 1,
            end,
            count - 1,
        )
    }
}

/// A bare IPv4 address: four dot-separated octets and nothing else.
pub open spec fn is_ipv4_addr(s: Seq<char>) -> bool {
    is_ipv4_octets(s, 0, s.len() as int, 4)
}

/// The position of the first `/` at or after `i`, or the length of `s`.
pub open spec fn slash_pos(s: Seq<char>, i: int) -> int
    decreases s.len() - i,
{
    if 0 <= i < s.len() {
        if s[i] == '/' {
            i
        } else {
            slash_pos(s, i + 1)
        }
    } else {
        s.len() as int
    }
}

/// A prefix-length field exactly filling positions `i` up to `end`: one or
/// two digits, no leading zero, value at most 32.
pub open spec fn prefix_len_ok(s: Seq<char>, i: int, end: int) -> bool {
    let k = digits_until(s, i, end);
    1 <= k <= 2 && i + k == end && (k == 1 || s[i] != '0') && num_val(s, i, k) <= 32
}

/// IPv4 CIDR notation: an address, `/`, and a prefix length.
pub open spec fn is_ipv4_cidr(s: Seq<char>) -> bool {
    let p = slash_pos(s, 0);
    p < s.len() && is_ipv4_octets(s, 0, p, 4) && prefix_len_ok(s, p + 1, s.len() as int)
}

/// A syntactically acceptable non-empty lease filter: a bare IPv4 address
/// or IPv4 CIDR notation.
pub open spec fn is_valid_filter(s: Seq<char>) -> bool {
    is_ipv4_addr(s) || is_ipv4_cidr(s)
}

/// Every position covered by a run of octets holds a digit or a dot.
proof fn lemma_octets_chars(s: Seq<char>, i: int, end: int, count: int)
    requires
        is_ipv4_octets(s, i, end, count),
        0 <= i,
        end <= s.len(),
    ensures
        forall|j: int| i <= j < end ==> is_digit(s[j]) || s[j] == '.',
    decreases count,
{
    let k = digits_until(s, i, end);
    lemma_digits_until_digits(s, i, end);
    if count > 1 {
        lemma_octets_chars(s, i + k + 1, end, count - 1);
    }
}

/// The digits counted by `digits_until` really are digits, and fit before
/// `end`.
proof fn lemma_digits_until_digits(s: Seq<char>, i: int, end: int)
    ensures
        forall|j: int| i <= j < i + digits_until(s, i, end) ==> is_digit(s[j]),
        i <= end ==> i + digits_until(s, i, end) <= end,
        digits_until(s, i, end) >= 0,
    decreases end - i,
{
    if i < end && 0 <= i < s.len() && is_digit(s[i]) {
        lemma_digits_until_digits(s, i + 1, end);
    }
}

/// An address stands before the first slash, so the two readings of a valid
/// filter cannot overlap: a string with a slash is never a bare address,
/// and one without is never CIDR notation.
pub proof fn lemma_valid_filter_split(s: Seq<char>)
    ensures
        is_valid_filter(s) == {
            let p = slash_pos(s, 0);
            is_ipv4_octets(s, 0, p, 4) && (p == s.len() || prefix_len_ok(s, p + 1, s.len() as int))
        },
{
    let p = slash_pos(s, 0);
    lemma_slash_pos_range(s, 0);
    if p == s.len() {
        assert(!is_ipv4_cidr(s));
    } else {
        assert(s[p] == '/');
        if is_ipv4_addr(s) {
            lemma_octets_chars(s, 0, s.len() as int, 4);
            assert(is_digit(s[p]) || s[p] == '.');
            assert(false);
        }
    }
}

/// `slash_pos` points at a slash inside the string, or just past its end,
/// and nothing before it is a slash.
proof fn lemma_slash_pos_range(s: Seq<char>, i: int)
    requires
        0 <= i <= s.len(),
    ensures
        i <= slash_pos(s, i) <= s.len(),
        slash_pos(s, i) < s.len() ==> s[slash_pos(s, i)] == '/',
        forall|j: int| i <= j < slash_pos(s, i) ==> s[j] != '/',
    decreases s.len() - i,
{
    if i < s.len() && s[i] != '/' {
        lemma_slash_pos_range(s, i + 1);
    }
}

/// Decides `is_digit`.
pub fn digit_char(c: char) -> (r: bool)
    ensures
        r == is_digit(c),
{
    '0' <= c && c <= '9'
}

/// Counts the decimal digits of `s` from position `i`, stopping before
/// `end`.
fn scan_digits(s: &str, i: usize, end: usize) -> (k: usize)
    requires
        i <= end <= s@.len(),
    ensures
        k == digits_until(s@, i as int, end as int),
        i + k <= end,
{
    let mut j = i;
    while j < end && digit_char(s.get_char(j))
        invariant
            i <= j <= end <= s@.len(),
            digits_until(s@, i as int, end as int) == (j - i) + digits_until(
                s@,
                j as int,
                end as int,
            ),
            forall|m: int| i <= m < j ==> is_digit(s@[m]),
        decreases end - j,
    {
        j = j + 1;
    }
    proof {
        assert(digits_until(s@, j as int, end as int) == 0);
    }
    j - i
}

/// Reads an octet at position `i` (stopping before `end`); returns the
/// position just past it when it is well formed.
fn check_octet(s: &str, i: usize, end: usize) -> (r: Option<usize>)
    requires
        i <= end <= s@.len(),
    ensures
        match r {
            Some(next) => octet_ok(s@, i as int, digits_until(s@, i as int, end as int)) && next
                == i + digits_until(s@, i as int, end as int) && next <= end,
            None => !octet_ok(s@, i as int, digits_until(s@, i as int, end as int)),
        },
{
    let k = scan_digits(s, i, end);
    proof {
        lemma_digits_until_digits(s@, i as int, end as int);
    }
    if k == 0 || k > 3 {
        return None;
    }
    if k > 1 && s.get_char(i) == '0' {
        return None;
    }
    let v: u32 = if k == 1 {
        s.get_char(i) as u32 - 48
    } else if k == 2 {
        (s.get_char(i) as u32 - 48) * 10 + (s.get_char(i + 1) as u32 - 48)
    } else {
        (s.get_char(i) as u32 - 48) * 100 + (s.get_char(i + 1) as u32 - 48) * 10 + (s.get_char(
            i + 2,
        ) as u32 - 48)
    };
    proof {
        reveal_with_fuel(num_val, 4);
        assert(v == num_val(s@, i as int, k as int));
    }
    if v <= 255 {
        Some(i + k)
    } else {
        None
    }
}

/// Decides whether positions `start` up to `end` hold exactly four
/// dot-separated octets.
fn check_octets(s: &str, start: usize, end: usize) -> (r: bool)
    requires
        start <= end <= s@.len(),
    ensures
        r == is_ipv4_octets(s@, start as int, end as int, 4),
{
    let mut i = start;
    let mut count: usize = 4;
    loop
        invariant
            start <= i <= end <= s@.len(),
            1 <= count <= 4,
            is_ipv4_octets(s@, start as int, end as int, 4) == is_ipv4_octets(
                s@,
                i as int,
                end as int,
                count as int,
            ),
        decreases count,
    {
        match check_octet(s, i, end) {
            None => {
                return false;
            },
            Some(next) => {
                if count == 1 {
                    return next == end;
                }
                if next < end && s.get_char(next) == '.' {
                    i = next + 1;
                    count = count - 1;
                } else {
                    return false;
                }
            },
        }
    }
}

/// Decides whether the non-empty filter `s` is a bare IPv4 address or IPv4
/// CIDR notation.
pub fn valid_filter(s: &str) -> (r: bool)
    ensures
        r == is_valid_filter(s@),
{
    let n = s.unicode_len();
    let mut p: usize = 0;
    while p < n && s.get_char(p) != '/'
        invariant
            0 <= p <= n == s@.len(),
            slash_pos(s@, 0) == slash_pos(s@, p as int),
        decreases n - p,
    {
        p = p + 1;
    }
    proof {
        assert(slash_pos(s@, p as int) == p);
        lemma_valid_filter_split(s@);
    }
    if !check_octets(s, 0, p) {
        return false;
    }
    if p == n {
        return true;
    }
    let k = scan_digits(s, p + 1, n);
    proof {
        lemma_digits_until_digits(s@, p + 1, n as int);
    }
    if k == 0 || k > 2 {
        return false;
    }
    if p + 1 + k != n {
        return false;
    }
    if k == 2 && s.get_char(p + 1) == '0' {
        return false;
    }
    let v: u32 = if k == 1 {
        s.get_char(p + 1) as u32 - 48
    } else {
        (s.get_char(p + 1) as u32 - 48) * 10 + (s.get_char(p + 2) as u32 - 48)
    };
    proof {
        reveal_with_fuel(num_val, 3);
        assert(v == num_val(s@, p + 1, k as int));
    }
    v <= 32
}

} // verus!
