//! Parsing of delays (`738ms`, `53s`, `37m`, `21h`, `32d`) and of closed
//! ranges of delays (`8m..12m`) given on the command line.
use vstd::prelude::*;
use crate::delay::{Delay, DelayRange, NANOS_PER_SEC};
use crate::text::{all_digits, digits_value, is_digit, lemma_digits_value_grows, push_all};

verus! {

/// Unicode's White_Space characters, which `str::trim` removes.
pub open spec fn is_whitespace(c: char) -> bool {
    c == ' ' || ('\t' <= c <= '\r') || c == '\u{85}' || c == '\u{a0}' || c == '\u{1680}' || (
    '\u{2000}' <= c <= '\u{200a}') || c == '\u{2028}' || c == '\u{2029}' || c == '\u{202f}' || c
        == '\u{205f}' || c == '\u{3000}'
}

fn whitespace(c: char) -> (r: bool)
    ensures
        r == is_whitespace(c),
{
    c == ' ' || ('\t' <= c && c <= '\r') || c == '\u{85}' || c == '\u{a0}' || c == '\u{1680}' || (
    '\u{2000}' <= c && c <= '\u{200a}') || c == '\u{2028}' || c == '\u{2029}' || c == '\u{202f}'
        || c == '\u{205f}' || c == '\u{3000}'
}

/// Number of whitespace characters at the start of `s`.
pub open spec fn leading_space(s: Seq<char>) -> nat
    decreases s.len(),
{
    if s.len() > 0 && is_whitespace(s[0]) {
        1 + leading_space(s.drop_first())
    } else {
        0
    }
}

/// Number of whitespace characters at the end of `s`.
pub open spec fn trailing_space(s: Seq<char>) -> nat
    decreases s.len(),
{
    if s.len() > 0 && is_whitespace(s.last()) {
        1 + trailing_space(s.drop_last())
    } else {
        0
    }
}

/// `s` without its leading and trailing whitespace.
pub open spec fn trimmed(s: Seq<char>) -> Seq<char> {
    let t = s.subrange(leading_space(s) as int, s.len() as int);
    t.subrange(0, t.len() - trailing_space(t))
}

proof fn lemma_leading_space(s: Seq<char>, i: int)
    requires
        0 <= i <= s.len(),
        forall|j: int| 0 <= j < i ==> is_whitespace(#[trigger] s[j]),
        i < s.len() ==> !is_whitespace(s[i]),
    ensures
        leading_space(s) == i,
    decreases s.len(),
{
    if i > 0 {
        assert forall|j: int| 0 <= j < i - 1 implies is_whitespace(#[trigger] s.drop_first()[j]) by {
            assert(s.drop_first()[j] == s[j + 1]);
        }
        lemma_leading_space(s.drop_first(), i - 1);
    }
}

proof fn lemma_trailing_space(s: Seq<char>, i: int)
    requires
        0 <= i <= s.len(),
        forall|j: int| i <= j < s.len() ==> is_whitespace(#[trigger] s[j]),
        i > 0 ==> !is_whitespace(s[i - 1]),
    ensures
        trailing_space(s) == s.len() - i,
    decreases s.len(),
{
    if i < s.len() {
        assert forall|j: int| i <= j < s.len() - 1 implies is_whitespace(#[trigger] s.drop_last()[j]) by {
            assert(s.drop_last()[j] == s[j]);
        }
        lemma_trailing_space(s.drop_last(), i);
    }
}

/// `s` without its leading and trailing whitespace.
pub fn trim(s: &str) -> (r: String)
    ensures
        r@ == trimmed(s@),
{
    let n = s.unicode_len();
    let mut i: usize = 0;
    while i < n && whitespace(s.get_char(i))
        invariant
            n == s@.len(),
            i <= n,
            forall|j: int| 0 <= j < i ==> is_whitespace(#[trigger] s@[j]),
        decreases n - i,
    {
        i = i + 1;
    }
    proof {
        lemma_leading_space(s@, i as int);
    }
    let ghost t = s@.subrange(i as int, n as int);
    let mut e: usize = n;
    while e > i && whitespace(s.get_char(e - 1))
        invariant
            n == s@.len(),
            i <= e <= n,
            t == s@.subrange(i as int, n as int),
            forall|j: int| e - i <= j < t.len() ==> is_whitespace(#[trigger] t[j]),
        decreases e,
    {
        e = e - 1;
    }
    proof {
        lemma_trailing_space(t, e - i);
    }
    let r = String::from_str(s.substring_char(i, e));
    assert(r@ =~= trimmed(s@));
    r
}

/// Number of ASCII digits at the start of `s`.
pub open spec fn leading_digits(s: Seq<char>) -> nat
    decreases s.len(),
{
    if s.len() > 0 && is_digit(s[0]) {
        1 + leading_digits(s.drop_first())
    } else {
        0
    }
}

proof fn lemma_leading_digits(s: Seq<char>, i: int)
    requires
        0 <= i <= s.len(),
        forall|j: int| 0 <= j < i ==> is_digit(#[trigger] s[j]),
        i < s.len() ==> !is_digit(s[i]),
    ensures
        leading_digits(s) == i,
    decreases s.len(),
{
    if i > 0 {
        assert forall|j: int| 0 <= j < i - 1 implies is_digit(#[trigger] s.drop_first()[j]) by {
            assert(s.drop_first()[j] == s[j + 1]);
        }
        lemma_leading_digits(s.drop_first(), i - 1);
    }
}

/// Nanoseconds in one unit of a duration, for the units `ms`, `s`, `m`, `h`
/// and `d`.
pub open spec fn unit_nanos(u: Seq<char>) -> Option<nat> {
    if u == seq!['m', 's'] {
        Some(1000000)
    } else if u == seq!['s'] {
        Some(1000000000)
    } else if u == seq!['m'] {
        Some(60000000000)
    } else if u == seq!['h'] {
        Some(3600000000000)
    } else if u == seq!['d'] {
        Some(86400000000000)
    } else {
        None
    }
}

/// The longest span, in whole seconds, that a count of seconds, minutes,
/// hours or days may give: `i64::MAX` milliseconds.
pub const MAX_DELTA_SECS: u128 = 9223372036854775;

/// Why a delay or a range of delays could not be read. Each error that names
/// its input holds it trimmed.
#[derive(Clone, Debug, PartialEq, Eq)]
pub enum ParseError {
    /// Not a count followed by `ms`, `s`, `m`, `h` or `d`, or a span too long.
    InvalidDuration(String),
    /// A count beyond `i64::MAX`.
    NumberTooLarge,
    /// Not two delays joined by `..`.
    InvalidRangeSyntax(String),
    InvalidStartDuration(String),
    InvalidEndDuration(String),
    InvalidStartAndEndDurations(String),
}

/// The message of an error.
pub open spec fn message_of(e: ParseError) -> Seq<char> {
    match e {
        ParseError::InvalidDuration(a) => "invalid duration: "@ + a@,
        ParseError::NumberTooLarge => "number too large to fit in target type"@,
        ParseError::InvalidRangeSyntax(a) => "invalid range syntax: "@ + a@,
        ParseError::InvalidStartDuration(a) => "invalid start duration: "@ + a@,
        ParseError::InvalidEndDuration(a) => "invalid end duration: "@ + a@,
        ParseError::InvalidStartAndEndDurations(a) => "invalid start and end durations: "@ + a@,
    }
}

impl ParseError {
    /// The error in words.
    pub fn to_string(&self) -> (r: String)
        ensures
            r@ == message_of(*self),
    {
        let (head, arg) = match self {
            ParseError::InvalidDuration(a) => ("invalid duration: ", a.as_str()),
            ParseError::NumberTooLarge => ("number too large to fit in target type", ""),
            ParseError::InvalidRangeSyntax(a) => ("invalid range syntax: ", a.as_str()),
            ParseError::InvalidStartDuration(a) => ("invalid start duration: ", a.as_str()),
            ParseError::InvalidEndDuration(a) => ("invalid end duration: ", a.as_str()),
            ParseError::InvalidStartAndEndDurations(a) => (
                "invalid start and end durations: ",
                a.as_str(),
            ),
        };
        let mut r = String::from_str(head);
        push_all(&mut r, arg);
        proof {
            reveal_strlit("");
        }
        assert(r@ =~= message_of(*self));
        r
    }
}

/// Why a text is not a delay.
#[derive(Clone, Copy, Debug, PartialEq, Eq, Structural)]
pub enum DurationFault {
    /// Not a count and a unit, or a span too long.
    Format,
    /// A count beyond `i64::MAX`.
    TooLarge,
}

/// What reading `arg` as a delay gives: the delay in nanoseconds, or the fault.
pub open spec fn duration_of(arg: Seq<char>) -> Result<nat, DurationFault> {
    let t = trimmed(arg);
    let k = leading_digits(t);
    let unit = unit_nanos(t.subrange(k as int, t.len() as int));
    let amount = digits_value(t.subrange(0, k as int));
    if k == 0 || unit is None {
        Err(DurationFault::Format)
    } else if amount > i64::MAX {
        Err(DurationFault::TooLarge)
    } else if unit->0 != 1000000 && amount * unit->0 > MAX_DELTA_SECS * NANOS_PER_SEC {
        Err(DurationFault::Format)
    } else {
        Ok(amount * unit->0)
    }
}

/// The number that the first `k` characters of `t`, all digits, spell, when
/// it is at most `i64::MAX`.
fn parse_amount(t: &str, k: usize) -> (r: Option<u64>)
    requires
        k <= t@.len(),
        all_digits(t@.subrange(0, k as int)),
    ensures
        match r {
            Some(v) => v == digits_value(t@.subrange(0, k as int)) && v <= i64::MAX,
            None => digits_value(t@.subrange(0, k as int)) > i64::MAX,
        },
{
    let mut value: u64 = 0;
    let mut j: usize = 0;
    while j < k
        invariant
            k <= t@.len(),
            all_digits(t@.subrange(0, k as int)),
            j <= k,
            value == digits_value(t@.subrange(0, j as int)),
            value <= i64::MAX,
        decreases k - j,
    {
        let c = t.get_char(j);
        assert(t@.subrange(0, k as int)[j as int] == c);
        let d = (c as u32 - '0' as u32) as u64;
        assert(t@.subrange(0, j + 1).drop_last() =~= t@.subrange(0, j as int));
        if value > (i64::MAX as u64 - d) / 10 {
            proof {
                lemma_digits_value_grows(t@, j + 1, k as int);
            }
            return None;
        }
        value = value * 10 + d;
        j = j + 1;
    }
    Some(value)
}

/// Reads a delay: a count of ASCII digits followed by `ms`, `s`, `m`, `h` or
/// `d`, with whitespace around it.
pub fn parse_time_delta(arg: &str) -> (r: Result<Delay, ParseError>)
    ensures
        match duration_of(arg@) {
            Ok(n) => r is Ok && r->Ok_0@ == n,
            Err(DurationFault::Format) => {
                &&& r is Err
                &&& r->Err_0 is InvalidDuration
                &&& r->Err_0->InvalidDuration_0@ == trimmed(arg@)
            },
            Err(DurationFault::TooLarge) => r == Err::<Delay, ParseError>(ParseError::NumberTooLarge),
        },
{
    let t = trim(arg);
    let n = t.unicode_len();
    let mut k: usize = 0;
    while k < n && '0' <= t.as_str().get_char(k) && t.as_str().get_char(k) <= '9'
        invariant
            n == t@.len(),
            k <= n,
            forall|j: int| 0 <= j < k ==> is_digit(#[trigger] t@[j]),
        decreases n - k,
    {
        k = k + 1;
    }
    proof {
        lemma_leading_digits(t@, k as int);
        assert(all_digits(t@.subrange(0, k as int)));
    }
    let ghost unit = t@.subrange(k as int, n as int);
    let unit_len = n - k;
    let nanos: u128 = if unit_len == 2 && t.as_str().get_char(k) == 'm' && t.as_str().get_char(k + 1) == 's' {
        assert(unit =~= seq!['m', 's']);
        assert(unit_nanos(unit) == Some(1000000nat));
        1000000
    } else if unit_len == 1 && t.as_str().get_char(k) == 's' {
        assert(unit =~= seq!['s']);
        assert(unit != seq!['m', 's']);
        assert(unit_nanos(unit) == Some(1000000000nat));
        1000000000
    } else if unit_len == 1 && t.as_str().get_char(k) == 'm' {
        assert(unit =~= seq!['m']);
        assert(unit[0] == 'm' && seq!['s'][0] == 's' && seq!['m'][0] == 'm' && seq!['h'][0] == 'h');
        assert(unit != seq!['m', 's']);
        assert(unit != seq!['s']);
        assert(unit_nanos(unit) == Some(60000000000nat));
        60000000000
    } else if unit_len == 1 && t.as_str().get_char(k) == 'h' {
        assert(unit =~= seq!['h']);
        assert(unit[0] == 'h' && seq!['s'][0] == 's' && seq!['m'][0] == 'm' && seq!['h'][0] == 'h');
        assert(unit != seq!['m', 's']);
        assert(unit != seq!['s']);
        assert(unit != seq!['m']);
        assert(unit_nanos(unit) == Some(3600000000000nat));
        3600000000000
    } else if unit_len == 1 && t.as_str().get_char(k) == 'd' {
        assert(unit =~= seq!['d']);
        assert(unit[0] == 'd' && seq!['s'][0] == 's' && seq!['m'][0] == 'm' && seq!['h'][0] == 'h');
        assert(unit != seq!['m', 's']);
        assert(unit != seq!['s']);
        assert(unit != seq!['m']);
        assert(unit != seq!['h']);
        assert(unit_nanos(unit) == Some(86400000000000nat));
        86400000000000
    } else {
        proof {
            assert(unit.len() == unit_len);
            if unit_len == 2 {
                assert(unit[0] == t@[k as int] && unit[1] == t@[k + 1]);
                assert(unit != seq!['m', 's']);
            } else if unit_len == 1 {
                assert(unit[0] == t@[k as int]);
                assert(unit != seq!['s']);
                assert(unit != seq!['m']);
                assert(unit != seq!['h']);
                assert(unit != seq!['d']);
            }
            assert(unit_nanos(unit) is None);
        }
        0
    };
    assert(nanos != 0 ==> unit_nanos(unit) == Some(nanos as nat));
    if k == 0 || nanos == 0 {
        return Err(ParseError::InvalidDuration(t));
    }
    match parse_amount(t.as_str(), k) {
        None => Err(ParseError::NumberTooLarge),
        Some(amount) => {
            proof {
                assert(amount as u128 * nanos <= 9223372036854775807u128 * 86400000000000u128)
                    by (nonlinear_arith)
                    requires
                        amount <= i64::MAX,
                        nanos <= 86400000000000u128,
                ;
            }
            if nanos != 1000000 && amount as u128 * nanos > MAX_DELTA_SECS * NANOS_PER_SEC {
                Err(ParseError::InvalidDuration(t))
            } else {
                proof {
                    assert(amount as u128 * 1000000 <= 9223372036854775807u128 * 1000000)
                        by (nonlinear_arith)
                        requires
                            amount <= i64::MAX,
                    ;
                }
                Ok(Delay::from_nanos_u128(amount as u128 * nanos))
            }
        },
    }
}

pub open spec fn no_dots(s: Seq<char>) -> bool {
    forall|i: int| 0 <= i < s.len() ==> s[i] != '.'
}

/// The position of the first `.` of `s`, or its length when it has none.
pub open spec fn first_dot(s: Seq<char>) -> nat
    decreases s.len(),
{
    if s.len() == 0 || s[0] == '.' {
        0
    } else {
        1 + first_dot(s.drop_first())
    }
}

/// Where a range `<start>..<end>` splits: the end of its start and the
/// beginning of its end. The start has no `.` but maybe in its last
/// character, which is not whitespace; the end likewise at its first
/// character. Where both readings fit, the start takes the extra `.`.
pub open spec fn range_split(t: Seq<char>) -> Option<(int, int)> {
    let q = first_dot(t) as int;
    if q + 3 < t.len() && t[q + 1] == '.' && t[q + 2] == '.' && !is_whitespace(t[q + 3]) && no_dots(
        t.subrange(q + 4, t.len() as int),
    ) {
        Some((q + 1, q + 3))
    } else if 1 <= q && q + 2 < t.len() && !is_whitespace(t[q - 1]) && t[q + 1] == '.'
        && !is_whitespace(t[q + 2]) && no_dots(t.subrange(q + 3, t.len() as int)) {
        Some((q, q + 2))
    } else {
        None
    }
}

proof fn lemma_first_dot(s: Seq<char>, i: int)
    requires
        0 <= i <= s.len(),
        forall|j: int| 0 <= j < i ==> #[trigger] s[j] != '.',
        i < s.len() ==> s[i] == '.',
    ensures
        first_dot(s) == i,
    decreases s.len(),
{
    if i > 0 {
        assert forall|j: int| 0 <= j < i - 1 implies #[trigger] s.drop_first()[j] != '.' by {
            assert(s.drop_first()[j] == s[j + 1]);
        }
        lemma_first_dot(s.drop_first(), i - 1);
    }
}

/// Whether `t` has no `.` from position `from` on.
fn no_dots_from(t: &str, from: usize) -> (r: bool)
    requires
        from <= t@.len(),
    ensures
        r == no_dots(t@.subrange(from as int, t@.len() as int)),
{
    let n = t.unicode_len();
    let mut i: usize = from;
    while i < n
        invariant
            n == t@.len(),
            from <= i <= n,
            forall|j: int| from <= j < i ==> t@[j] != '.',
        decreases n - i,
    {
        if t.get_char(i) == '.' {
            assert(t@.subrange(from as int, n as int)[i - from] == '.');
            return false;
        }
        i = i + 1;
    }
    assert forall|j: int| 0 <= j < n - from implies t@.subrange(from as int, n as int)[j] != '.' by {
        assert(t@.subrange(from as int, n as int)[j] == t@[from + j]);
    }
    true
}

/// Reads a closed range of delays, `<start>..<end>`, with whitespace around
/// it; the start may exceed the end.
pub fn parse_time_delta_range(arg: &str) -> (r: Result<DelayRange, ParseError>)
    ensures
        ({
            let t = trimmed(arg@);
            match range_split(t) {
                None => {
                    &&& r is Err
                    &&& r->Err_0 is InvalidRangeSyntax
                    &&& r->Err_0->InvalidRangeSyntax_0@ == t
                },
                Some((i, j)) => {
                    let start = duration_of(t.subrange(0, i));
                    let end = duration_of(t.subrange(j, t.len() as int));
                    if start is Ok && end is Ok {
                        &&& r is Ok
                        &&& r->Ok_0.start@ == start->Ok_0
                        &&& r->Ok_0.end@ == end->Ok_0
                    } else if start is Ok {
                        &&& r is Err
                        &&& r->Err_0 is InvalidEndDuration
                        &&& r->Err_0->InvalidEndDuration_0@ == t
                    } else if end is Ok {
                        &&& r is Err
                        &&& r->Err_0 is InvalidStartDuration
                        &&& r->Err_0->InvalidStartDuration_0@ == t
                    } else {
                        &&& r is Err
                        &&& r->Err_0 is InvalidStartAndEndDurations
                        &&& r->Err_0->InvalidStartAndEndDurations_0@ == t
                    }
                },
            }
        }),
{
    let t = trim(arg);
    let ts = t.as_str();
    let n = ts.unicode_len();
    let mut q: usize = 0;
    while q < n && ts.get_char(q) != '.'
        invariant
            n == ts@.len(),
            q <= n,
            forall|j: int| 0 <= j < q ==> #[trigger] ts@[j] != '.',
        decreases n - q,
    {
        q = q + 1;
    }
    proof {
        lemma_first_dot(ts@, q as int);
    }
    let split: Option<(usize, usize)> = if n > 3 && q < n - 3 && ts.get_char(q + 1) == '.' && ts.get_char(q + 2)
        == '.' && !whitespace(ts.get_char(q + 3)) && no_dots_from(ts, q + 4) {
        Some((q + 1, q + 3))
    } else if 1 <= q && n > 2 && q < n - 2 && !whitespace(ts.get_char(q - 1)) && ts.get_char(q + 1) == '.'
        && !whitespace(ts.get_char(q + 2)) && no_dots_from(ts, q + 3) {
        Some((q, q + 2))
    } else {
        None
    };
    match split {
        None => Err(ParseError::InvalidRangeSyntax(t)),
        Some((i, j)) => {
            let start = parse_time_delta(ts.substring_char(0, i));
            let end = parse_time_delta(ts.substring_char(j, n));
            match (start, end) {
                (Ok(s), Ok(e)) => Ok(DelayRange::new(s, e)),
                (Ok(_), Err(_)) => Err(ParseError::InvalidEndDuration(t)),
                (Err(_), Ok(_)) => Err(ParseError::InvalidStartDuration(t)),
                (Err(_), Err(_)) => Err(ParseError::InvalidStartAndEndDurations(t)),
            }
        },
    }
}

} // verus!
