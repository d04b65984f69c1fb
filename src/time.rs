//! Time of day and validity windows of images.
use vstd::prelude::*;
use vstd::string::*;

use chrono::Timelike;

verus! {

/// Seconds in one day.
pub const SECS_PER_DAY: u32 = 86_400;

/// Nanoseconds in one second.
pub const NANOS_PER_SEC: u32 = 1_000_000_000;

/// A wall-clock time of day without a date: seconds since midnight and the
/// fraction of the second in nanoseconds. A fraction of one second or more
/// marks a leap second and is only allowed in the last second of a minute.
#[derive(Clone, Copy, Debug, PartialEq, Eq, Structural)]
pub struct TimeOfDay {
    pub secs: u32,
    pub frac: u32,
}

impl TimeOfDay {
    pub open spec fn wf(self) -> bool {
        &&& self.secs < SECS_PER_DAY
        &&& self.frac < 2 * NANOS_PER_SEC
        &&& self.frac >= NANOS_PER_SEC ==> self.secs % 60 == 59
    }

    /// Chronological order: by second, then by fraction.
    pub open spec fn spec_le(self, other: TimeOfDay) -> bool {
        self.secs < other.secs || (self.secs == other.secs && self.frac <= other.frac)
    }

    /// A time of day from its parts, if they form one.
    pub fn new(secs: u32, frac: u32) -> (r: Option<TimeOfDay>)
        ensures
            r == (if (TimeOfDay { secs, frac }).wf() {
                Some(TimeOfDay { secs, frac })
            } else {
                None
            }),
    {
        let t = TimeOfDay { secs, frac };
        if secs < SECS_PER_DAY && frac < 2 * NANOS_PER_SEC && (frac < NANOS_PER_SEC || secs % 60
            == 59) {
            Some(t)
        } else {
            None
        }
    }

    /// Midnight, the first instant of the day.
    pub fn min() -> (r: TimeOfDay)
        ensures
            r == (TimeOfDay { secs: 0, frac: 0 }),
            r.wf(),
    {
        TimeOfDay { secs: 0, frac: 0 }
    }

    /// The last representable instant of the day, inside the leap second.
    pub fn max() -> (r: TimeOfDay)
        ensures
            r == max_time(),
            r.wf(),
    {
        TimeOfDay { secs: SECS_PER_DAY - 1, frac: 2 * NANOS_PER_SEC - 1 }
    }

    /// Whether `self` is not later than `other`.
    pub fn le(&self, other: &TimeOfDay) -> (r: bool)
        ensures
            r == self.spec_le(*other),
    {
        self.secs < other.secs || (self.secs == other.secs && self.frac <= other.frac)
    }
}

pub open spec fn max_time() -> TimeOfDay {
    TimeOfDay { secs: (SECS_PER_DAY - 1) as u32, frac: (2 * NANOS_PER_SEC - 1) as u32 }
}

/// What chrono's `NaiveTime::parse_from_str` yields for a text and a format,
/// as seconds since midnight and the fraction of the second.
pub uninterp spec fn time_parse(s: Seq<char>, fmt: Seq<char>) -> Option<(u32, u32)>;

/// What chrono's `NaiveTime::format` writes for a time of day and a format.
pub uninterp spec fn time_format(t: (u32, u32), fmt: Seq<char>) -> Seq<char>;

/// Whether `c` has the Unicode property White_Space.
pub open spec fn is_white_space(c: char) -> bool {
    let u = c as u32;
    (0x9 <= u && u <= 0xd) || u == 0x20 || u == 0x85 || u == 0xa0 || u == 0x1680 || (0x2000 <= u
        && u <= 0x200a) || u == 0x2028 || u == 0x2029 || u == 0x202f || u == 0x205f || u == 0x3000
}

/// The text without its leading white space.
pub open spec fn trim_start(s: Seq<char>) -> Seq<char>
    decreases s.len(),
{
    if s.len() > 0 && is_white_space(s[0]) {
        trim_start(s.drop_first())
    } else {
        s
    }
}

/// The text without its trailing white space.
pub open spec fn trim_end(s: Seq<char>) -> Seq<char>
    decreases s.len(),
{
    if s.len() > 0 && is_white_space(s.last()) {
        trim_end(s.drop_last())
    } else {
        s
    }
}

/// The text without white space at either end.
pub open spec fn trimmed(s: Seq<char>) -> Seq<char> {
    trim_end(trim_start(s))
}

/// Relies on chrono's `NaiveTime::parse_from_str`, read back through
/// `Timelike::num_seconds_from_midnight` and `Timelike::nanosecond`; a
/// `NaiveTime` always holds a well-formed time of day.
#[verifier::external_body]
fn parse_time(s: &str, fmt: &str) -> (r: Option<TimeOfDay>)
    ensures
        time_parse(s@, fmt@) == (match r {
            Some(t) => Some((t.secs, t.frac)),
            None => None,
        }),
        r matches Some(t) ==> t.wf(),
{
    match chrono::NaiveTime::parse_from_str(s, fmt) {
        Ok(t) => Some(TimeOfDay { secs: t.num_seconds_from_midnight(), frac: t.nanosecond() }),
        Err(_) => None,
    }
}

/// Relies on chrono's `NaiveTime::from_num_seconds_from_midnight_opt`, which
/// accepts every well-formed time of day, and on `NaiveTime::format` with
/// one of the three formats of hours, minutes and seconds, which it always
/// writes.
#[verifier::external_body]
fn format_time(t: TimeOfDay, fmt: &str) -> (r: String)
    requires
        t.wf(),
        fmt@ == "%H:%M:%S"@ || fmt@ == "%H:%M"@ || fmt@ == "%H"@,
    ensures
        r@ == time_format((t.secs, t.frac), fmt@),
{
    let n = chrono::NaiveTime::from_num_seconds_from_midnight_opt(t.secs, t.frac).unwrap();
    n.format(fmt).to_string()
}

/// Relies on chrono's `NaiveTime + TimeDelta::hours(1)`: a leap second is left
/// for the next whole second, and the sum wraps around midnight.
#[verifier::external_body]
fn hour_later(t: TimeOfDay) -> (r: TimeOfDay)
    requires
        t.wf(),
    ensures
        r == hour_after(t),
{
    let n = chrono::NaiveTime::from_num_seconds_from_midnight_opt(t.secs, t.frac).unwrap();
    let m = n + chrono::TimeDelta::hours(1);
    TimeOfDay { secs: m.num_seconds_from_midnight(), frac: m.nanosecond() }
}

/// Relies on `str::trim`, which drops the characters with the Unicode
/// property White_Space from both ends.
#[verifier::external_body]
fn trim_text(s: &str) -> (r: &str)
    ensures
        r@ == trimmed(s@),
{
    s.trim()
}

/// Reads a decimal `u32`: an optional `+` and at least one ASCII digit, of a
/// value that fits.
fn parse_u32(s: &str) -> (r: Option<u32>)
    ensures
        r == decimal_u32(s@),
{
    let n = s.unicode_len();
    let start: usize = if n > 0 && s.get_char(0) == '+' {
        1
    } else {
        0
    };
    let ghost d = s@.subrange(start as int, n as int);
    assert(d =~= unsigned_part(s@));
    if start == n {
        return None;
    }
    let mut v: u32 = 0;
    let mut i: usize = start;
    assert(s@.subrange(start as int, start as int) =~= Seq::<char>::empty());
    while i < n
        invariant
            n == s@.len(),
            start <= i <= n,
            d == s@.subrange(start as int, n as int),
            d == unsigned_part(s@),
            forall|j: int| start <= j < i ==> is_digit(#[trigger] s@[j]),
            v == digits_value(s@.subrange(start as int, i as int)),
        decreases n - i,
    {
        let c = s.get_char(i);
        if !('0' <= c && c <= '9') {
            assert(s@[i as int] == c);
            assert(d[i - start] == s@[i as int]);
            assert(!is_digit(d[i - start]));
            assert(!all_digits(d));
            assert(decimal_u32(s@) is None);
            return None;
        }
        let digit = (c as u32) - ('0' as u32);
        let ghost next = s@.subrange(start as int, i + 1);
        assert(next.drop_last() =~= s@.subrange(start as int, i as int));
        assert(digits_value(next) == v * 10 + digit);
        if v > 429_496_729 || (v == 429_496_729 && digit > 5) {
            proof {
                if all_digits(d) {
                    lemma_digits_prefix(d, i + 1 - start);
                    assert(d.take(i + 1 - start) =~= next);
                    assert(digits_value(d) > u32::MAX);
                }
                assert(decimal_u32(s@) is None);
            }
            return None;
        }
        v = v * 10 + digit;
        i = i + 1;
    }
    assert(s@.subrange(start as int, i as int) =~= d);
    Some(v)
}

/// A number of decimal digits is at least the number its first digits give.
proof fn lemma_digits_prefix(s: Seq<char>, k: int)
    requires
        0 <= k <= s.len(),
        forall|j: int| 0 <= j < s.len() ==> is_digit(#[trigger] s[j]),
    ensures
        0 <= digits_value(s.take(k)) <= digits_value(s),
    decreases s.len(),
{
    if s.len() > 0 {
        let p = s.drop_last();
        assert forall|j: int| 0 <= j < p.len() implies is_digit(#[trigger] p[j]) by {
            assert(p[j] == s[j]);
        }
        assert(is_digit(s[s.len() - 1]));
        if k == s.len() {
            lemma_digits_prefix(p, p.len() as int);
            assert(p.take(p.len() as int) =~= p);
            assert(s.take(k) =~= s);
        } else {
            lemma_digits_prefix(p, k);
            lemma_digits_prefix(p, p.len() as int);
            assert(p.take(p.len() as int) =~= p);
            assert(p.take(k) =~= s.take(k));
        }
    } else {
        assert(s.take(k) =~= s);
    }
}

/// The end of the window that a single time opens: one hour later, or the
/// end of the day where that hour would run past midnight.
pub open spec fn single_end(t: TimeOfDay) -> TimeOfDay {
    if t.spec_le(hour_after(t)) {
        hour_after(t)
    } else {
        max_time()
    }
}

/// One hour later, wrapping around midnight; a leap second counts as the
/// second before it.
pub open spec fn hour_after(t: TimeOfDay) -> TimeOfDay {
    TimeOfDay {
        secs: ((t.secs + 3600) % (SECS_PER_DAY as int)) as u32,
        frac: if t.frac >= NANOS_PER_SEC {
            (t.frac - NANOS_PER_SEC) as u32
        } else {
            t.frac
        },
    }
}

pub open spec fn is_digit(c: char) -> bool {
    '0' <= c && c <= '9'
}

/// The value of a sequence of decimal digits.
pub open spec fn digits_value(s: Seq<char>) -> int
    decreases s.len(),
{
    if s.len() == 0 {
        0
    } else {
        digits_value(s.drop_last()) * 10 + (s.last() as int - '0' as int)
    }
}

/// The text without a leading `+`.
pub open spec fn unsigned_part(s: Seq<char>) -> Seq<char> {
    if s.len() > 0 && s[0] == '+' {
        s.drop_first()
    } else {
        s
    }
}

pub open spec fn all_digits(d: Seq<char>) -> bool {
    forall|i: int| 0 <= i < d.len() ==> is_digit(#[trigger] d[i])
}

/// A decimal `u32`: an optional `+` and at least one digit, of a value that fits.
pub open spec fn decimal_u32(s: Seq<char>) -> Option<u32> {
    let d = unsigned_part(s);
    if d.len() > 0 && all_digits(d) && digits_value(d) <= u32::MAX {
        Some(digits_value(d) as u32)
    } else {
        None
    }
}


/// A closed window `[start, end]` of the day in which an image may be shown.
/// `start` after `end` is allowed but reported by `check`.
#[derive(Clone, Copy, Debug, PartialEq, Eq, Structural)]
pub struct ValidTime {
    pub start: TimeOfDay,
    pub end: TimeOfDay,
}

/// Which bound of a window a piece of text was meant to give.
#[derive(Clone, Copy, Debug, PartialEq, Eq, Structural)]
pub enum TimePart {
    Start,
    End,
    Single,
}

/// Why a piece of text is no time of day.
#[derive(Clone, Copy, Debug, PartialEq, Eq, Structural)]
pub enum TextFault {
    /// A bare number that is no hour of the day.
    InvalidHour,
    /// Neither `HH:MM:SS`, `HH:MM` nor a bare number.
    InvalidTime,
}

/// A window that could not be read, with the piece of text at fault.
#[derive(Debug)]
pub struct TimeTextError {
    pub fault: TextFault,
    pub part: TimePart,
    pub text: String,
}

/// The window that spans the whole day, its last leap nanosecond included.
pub open spec fn all_day() -> ValidTime {
    ValidTime { start: TimeOfDay { secs: 0, frac: 0 }, end: max_time() }
}

/// The time of day that a piece of text gives: `HH:MM:SS`, `HH:MM`, or a bare
/// hour where `24` stands for the end of the day.
pub open spec fn time_of_text(s: Seq<char>) -> Result<TimeOfDay, TextFault> {
    if let Some(p) = time_parse(s, "%H:%M:%S"@) {
        Ok(TimeOfDay { secs: p.0, frac: p.1 })
    } else if let Some(p) = time_parse(s, "%H:%M"@) {
        Ok(TimeOfDay { secs: p.0, frac: p.1 })
    } else if let Some(h) = decimal_u32(s) {
        if h == 24 {
            Ok(max_time())
        } else if h < 24 {
            Ok(TimeOfDay { secs: (h * 3600) as u32, frac: 0 })
        } else {
            Err(TextFault::InvalidHour)
        }
    } else {
        Err(TextFault::InvalidTime)
    }
}

/// Whether `i` is the position of the first `-` in `s`.
pub open spec fn first_dash_at(s: Seq<char>, i: int) -> bool {
    &&& 0 <= i < s.len()
    &&& s[i] == '-'
    &&& forall|j: int| 0 <= j < i ==> s[j] != '-'
}

pub open spec fn has_dash(s: Seq<char>) -> bool {
    exists|i: int| 0 <= i < s.len() && s[i] == '-'
}

pub open spec fn first_dash(s: Seq<char>) -> int {
    choose|i: int| first_dash_at(s, i)
}

/// The window that a trimmed text gives: `*` for the whole day, `start-end`
/// split at the first `-`, or a single time that opens a window of one hour,
/// cut at the end of the day.
/// A failure names the fault, the part at fault and its text.
pub open spec fn window_of_text(s: Seq<char>) -> Result<ValidTime, (TextFault, TimePart, Seq<char>)> {
    if s == seq!['*'] {
        Ok(all_day())
    } else if has_dash(s) {
        let i = first_dash(s);
        match time_of_text(s.subrange(0, i)) {
            Err(f) => Err((f, TimePart::Start, s.subrange(0, i))),
            Ok(start) => match time_of_text(s.subrange(i + 1, s.len() as int)) {
                Err(f) => Err((f, TimePart::End, s.subrange(i + 1, s.len() as int))),
                Ok(end) => Ok(ValidTime { start, end }),
            },
        }
    } else {
        match time_of_text(s) {
            Err(f) => Err((f, TimePart::Single, s)),
            Ok(t) => Ok(ValidTime { start: t, end: single_end(t) }),
        }
    }
}

impl ValidTime {
    pub open spec fn wf(self) -> bool {
        self.start.wf() && self.end.wf()
    }

    pub open spec fn matches_spec(self, t: TimeOfDay) -> bool {
        self.start.spec_le(t) && t.spec_le(self.end)
    }

    /// The window from `start` to `end`, both included.
    pub fn new(start: TimeOfDay, end: TimeOfDay) -> (r: ValidTime)
        ensures
            r == (ValidTime { start, end }),
    {
        ValidTime { start, end }
    }

    /// The window that spans the whole day.
    pub fn all() -> (r: ValidTime)
        ensures
            r == all_day(),
            r.wf(),
    {
        ValidTime { start: TimeOfDay::min(), end: TimeOfDay::max() }
    }

    pub fn start(&self) -> (r: TimeOfDay)
        ensures
            r == self.start,
    {
        self.start
    }

    pub fn end(&self) -> (r: TimeOfDay)
        ensures
            r == self.end,
    {
        self.end
    }

    /// Whether `time` lies in the window, both bounds included.
    pub fn matches(&self, time: &TimeOfDay) -> (r: bool)
        ensures
            r == (self.start.spec_le(*time) && time.spec_le(self.end)),
    {
        self.start.le(time) && time.le(&self.end)
    }
}

/// The whole-day window matches every time of day, the last nanosecond of the
/// day included.
pub proof fn lemma_all_day_matches(t: TimeOfDay)
    requires
        t.wf(),
    ensures
        all_day().matches_spec(t),
{
}

/// Reads a time of day from a piece of text.
fn time_from_text(s: &str) -> (r: Result<TimeOfDay, TextFault>)
    ensures
        r == time_of_text(s@),
        r matches Ok(t) ==> t.wf(),
{
    if let Some(t) = parse_time(s, "%H:%M:%S") {
        Ok(t)
    } else if let Some(t) = parse_time(s, "%H:%M") {
        Ok(t)
    } else if let Some(h) = parse_u32(s) {
        if h == 24 {
            Ok(TimeOfDay::max())
        } else if h < 24 {
            Ok(TimeOfDay { secs: h * 3600, frac: 0 })
        } else {
            Err(TextFault::InvalidHour)
        }
    } else {
        Err(TextFault::InvalidTime)
    }
}

/// The position of the first `-` in `s`, if any.
fn find_dash(s: &str) -> (r: Option<usize>)
    ensures
        r matches Some(i) ==> first_dash_at(s@, i as int),
        r is None ==> !has_dash(s@),
{
    let n = s.unicode_len();
    let mut i: usize = 0;
    while i < n
        invariant
            n == s@.len(),
            i <= n,
            forall|j: int| 0 <= j < i ==> s@[j] != '-',
        decreases n - i,
    {
        if s.get_char(i) == '-' {
            return Some(i);
        }
        i = i + 1;
    }
    None
}

fn error_at(fault: TextFault, part: TimePart, text: &str) -> (r: TimeTextError)
    ensures
        r.fault == fault,
        r.part == part,
        r.text@ == text@,
{
    TimeTextError { fault, part, text: String::from_str(text) }
}

impl ValidTime {
    /// Reads a window from text: surrounding blanks are dropped, then `*`,
    /// `start-end` or a single time is taken, each time as `HH`, `HH:MM` or
    /// `HH:MM:SS`, where the hour `24` is the end of the day.
    pub fn parse(text: &str) -> (r: Result<ValidTime, TimeTextError>)
        ensures
            match window_of_text(trimmed(text@)) {
                Ok(w) => r == Ok::<ValidTime, TimeTextError>(w),
                Err((f, p, t)) => r matches Err(e) && e.fault == f && e.part == p && e.text@ == t,
            },
            r matches Ok(w) ==> w.wf(),
    {
        let s = trim_text(text);
        let n = s.unicode_len();
        if n == 1 && s.get_char(0) == '*' {
            assert(s@ =~= seq!['*']);
            return Ok(ValidTime::all());
        }
        assert(s@ != seq!['*']);
        match find_dash(s) {
            Some(i) => {
                proof {
                    let k = first_dash(s@);
                    assert(first_dash_at(s@, k));
                    assert(k == i as int) by {
                        if k < i as int {
                            assert(s@[k] != '-');
                        } else if (i as int) < k {
                            assert(s@[i as int] != '-');
                        }
                    }
                }
                let start_s = s.substring_char(0, i);
                let end_s = s.substring_char(i + 1, n);
                let start = match time_from_text(start_s) {
                    Ok(t) => t,
                    Err(f) => {
                        return Err(error_at(f, TimePart::Start, start_s));
                    },
                };
                let end = match time_from_text(end_s) {
                    Ok(t) => t,
                    Err(f) => {
                        return Err(error_at(f, TimePart::End, end_s));
                    },
                };
                Ok(ValidTime { start, end })
            },
            None => {
                match time_from_text(s) {
                    Ok(t) => {
                        let h = hour_later(t);
                        let end = if t.le(&h) {
                            h
                        } else {
                            TimeOfDay::max()
                        };
                        Ok(ValidTime { start: t, end })
                    },
                    Err(f) => Err(error_at(f, TimePart::Single, s)),
                }
            },
        }
    }
}


/// The shortest of `HH:MM:SS`, `HH:MM` and `HH` that leaves out only zeros.
pub open spec fn time_text(t: TimeOfDay) -> Seq<char> {
    if t.secs % 60 != 0 {
        time_format((t.secs, t.frac), "%H:%M:%S"@)
    } else if (t.secs / 60) % 60 != 0 {
        time_format((t.secs, t.frac), "%H:%M"@)
    } else {
        time_format((t.secs, t.frac), "%H"@)
    }
}

impl ValidTime {
    /// A time of day written as `HH:MM:SS`, `HH:MM` or `HH`, whichever drops
    /// only zeros.
    pub fn to_s(date: &TimeOfDay) -> (r: String)
        requires
            date.wf(),
        ensures
            r@ == time_text(*date),
    {
        if date.secs % 60 != 0 {
            format_time(*date, "%H:%M:%S")
        } else if (date.secs / 60) % 60 != 0 {
            format_time(*date, "%H:%M")
        } else {
            format_time(*date, "%H")
        }
    }

    /// The window written as `start-end`.
    pub fn to_string(&self) -> (r: String)
        requires
            self.wf(),
        ensures
            r@ == time_text(self.start) + "-"@ + time_text(self.end),
    {
        let mut r = Self::to_s(&self.start);
        r.append("-");
        let e = Self::to_s(&self.end);
        r.append(e.as_str());
        r
    }

    /// Reports a window whose start comes after its end.
    pub fn check(&self) -> (r: Result<(), String>)
        requires
            self.wf(),
        ensures
            r is Ok <==> self.start.spec_le(self.end),
            r matches Err(m) ==> m@ == "invalid time: "@ + time_text(self.start)
                + " must be before "@ + time_text(self.end),
    {
        if !self.start.le(&self.end) {
            let mut m = String::from_str("invalid time: ");
            let a = Self::to_s(&self.start);
            m.append(a.as_str());
            m.append(" must be before ");
            let b = Self::to_s(&self.end);
            m.append(b.as_str());
            Err(m)
        } else {
            Ok(())
        }
    }
}

} // verus!
