//! Local wall-clock timestamps: the calendar fields the store reads and
//! writes, their text forms, and a second count used to compare them.
use vstd::prelude::*;
use chrono::{Datelike, Timelike};
use crate::text::{digit_value, padded, pow10, push_char, push_padded};

verus! {

/// The earliest and latest years the clock can report.
pub const MIN_CLOCK_YEAR: i32 = -262143;
pub const MAX_CLOCK_YEAR: i32 = 262142;

/// A local date and time of day, without zone.
#[derive(Clone, Copy, Debug, PartialEq, Eq, Structural)]
pub struct LocalDateTime {
    pub year: i32,
    pub month: u8,
    pub day: u8,
    pub hour: u8,
    pub minute: u8,
    pub second: u8,
}

/// Proleptic Gregorian month lengths.
pub open spec fn days_in_month(year: int, month: int) -> int {
    if month == 2 {
        if (year % 4 == 0 && year % 100 != 0) || year % 400 == 0 { 29 } else { 28 }
    } else if month == 4 || month == 6 || month == 9 || month == 11 {
        30
    } else {
        31
    }
}

impl LocalDateTime {
    /// Fields in their ranges. A day up to 31 is accepted in any month; it
    /// then counts on into the next month, as in the store's own date arithmetic.
    pub open spec fn valid(&self) -> bool {
        &&& MIN_CLOCK_YEAR <= self.year <= MAX_CLOCK_YEAR
        &&& 1 <= self.month <= 12
        &&& 1 <= self.day <= 31
        &&& self.hour < 24
        &&& self.minute < 60
        &&& self.second < 60
    }

    /// A real calendar date, as the clock reports it.
    pub open spec fn calendar_date(&self) -> bool {
        &&& self.valid()
        &&& self.day <= days_in_month(self.year as int, self.month as int)
    }
}

/// Days since a fixed origin far before any representable year, by the
/// usual civil-calendar count with March as the first month of the year.
pub open spec fn day_number(year: int, month: int, day: int) -> int {
    let yy = year + 280000 - (if month <= 2 { 1int } else { 0int });
    let mm = if month > 2 { month - 3 } else { month + 9 };
    365 * yy + yy / 4 - yy / 100 + yy / 400 + (153 * mm + 2) / 5 + day - 1
}

/// Seconds since the same origin.
pub open spec fn epoch_seconds(t: LocalDateTime) -> int {
    day_number(t.year as int, t.month as int, t.day as int) * 86400 + t.hour * 3600 + t.minute * 60
        + t.second
}

/// The year as at least four digits, with a sign when negative.
pub open spec fn year_text(y: int) -> Seq<char> {
    if y < 0 {
        seq!['-'] + padded((-y) as nat, 4)
    } else {
        padded(y as nat, 4)
    }
}

/// `YYYY-MM-DD`, then `sep`, then `HH:MM:SS`.
pub open spec fn datetime_text(t: LocalDateTime, sep: char) -> Seq<char> {
    year_text(t.year as int) + seq!['-'] + padded(t.month as nat, 2) + seq!['-'] + padded(
        t.day as nat,
        2,
    ) + seq![sep] + padded(t.hour as nat, 2) + seq![':'] + padded(t.minute as nat, 2) + seq![':']
        + padded(t.second as nat, 2)
}

/// The store's timestamp form: `YYYY-MM-DD HH:MM:SS`.
pub open spec fn stamp_text(t: LocalDateTime) -> Seq<char> {
    datetime_text(t, ' ')
}

/// ISO-8601 with the zone offset: `YYYY-MM-DDTHH:MM:SS+HH:MM`.
pub open spec fn iso_offset_text(t: LocalDateTime, offset_secs: int) -> Seq<char> {
    let a = if offset_secs < 0 { -offset_secs } else { offset_secs };
    datetime_text(t, 'T') + seq![if offset_secs < 0 { '-' } else { '+' }] + padded(
        (a / 3600) as nat,
        2,
    ) + seq![':'] + padded(((a % 3600) / 60) as nat, 2)
}

/// The value of the `n` digits of `s` from `i`, if they are all digits.
pub open spec fn digits_at(s: Seq<char>, i: int, n: nat) -> Option<nat>
    decreases n,
{
    if n == 0 {
        Some(0)
    } else {
        match (digits_at(s, i, (n - 1) as nat), digit_value(s[i + n - 1])) {
            (Some(hi), Some(lo)) => Some(hi * 10 + lo),
            _ => None,
        }
    }
}

/// The timestamp that `s` writes, in one of the shapes `YYYY-MM-DD`,
/// `YYYY-MM-DD?HH:MM` or `YYYY-MM-DD?HH:MM:SS`, where `?` is `T` or a space.
pub open spec fn parse_spec(s: Seq<char>) -> Option<LocalDateTime> {
    if !(s.len() == 10 || s.len() == 16 || s.len() == 19) {
        None
    } else if s[4] != '-' || s[7] != '-' {
        None
    } else if s.len() > 10 && ((s[10] != 'T' && s[10] != ' ') || s[13] != ':') {
        None
    } else if s.len() == 19 && s[16] != ':' {
        None
    } else {
        let y = digits_at(s, 0, 4);
        let mo = digits_at(s, 5, 2);
        let d = digits_at(s, 8, 2);
        let h = if s.len() > 10 { digits_at(s, 11, 2) } else { Some(0nat) };
        let mi = if s.len() > 10 { digits_at(s, 14, 2) } else { Some(0nat) };
        let se = if s.len() == 19 { digits_at(s, 17, 2) } else { Some(0nat) };
        if y is None || mo is None || d is None || h is None || mi is None || se is None {
            None
        } else {
            let t = LocalDateTime {
                year: y.unwrap() as i32,
                month: mo.unwrap() as u8,
                day: d.unwrap() as u8,
                hour: h.unwrap() as u8,
                minute: mi.unwrap() as u8,
                second: se.unwrap() as u8,
            };
            if 1 <= mo.unwrap() <= 12 && 1 <= d.unwrap() <= 31 && h.unwrap() < 24 && mi.unwrap()
                < 60 && se.unwrap() < 60 {
                Some(t)
            } else {
                None
            }
        }
    }
}

proof fn lemma_digits_bound(s: Seq<char>, i: int, n: nat)
    requires
        digits_at(s, i, n) is Some,
    ensures
        digits_at(s, i, n).unwrap() < pow10(n),
    decreases n,
{
    if n > 0 {
        lemma_digits_bound(s, i, (n - 1) as nat);
        let hi = digits_at(s, i, (n - 1) as nat).unwrap();
        let lo = digit_value(s[i + n - 1]).unwrap();
        assert(hi * 10 + lo < 10 * pow10((n - 1) as nat)) by (nonlinear_arith)
            requires
                hi < pow10((n - 1) as nat),
                lo < 10,
        ;
    }
}

/// The digit value of the character at `i`, if it is an ASCII digit.
fn digit_at(s: &str, i: usize) -> (r: Option<u64>)
    requires
        i < s@.len(),
    ensures
        r is Some <==> digit_value(s@[i as int]) is Some,
        r is Some ==> r.unwrap() == digit_value(s@[i as int]).unwrap(),
{
    let c = s.get_char(i);
    if '0' <= c && c <= '9' {
        Some((c as u32 - '0' as u32) as u64)
    } else {
        None
    }
}

/// The value of the `n` digits from `i`, if all are digits.
fn number_at(s: &str, i: usize, n: usize) -> (r: Option<u64>)
    requires
        i + n <= s@.len(),
        i + n <= usize::MAX,
        n <= 4,
    ensures
        r is Some <==> digits_at(s@, i as int, n as nat) is Some,
        r is Some ==> r.unwrap() == digits_at(s@, i as int, n as nat).unwrap(),
{
    let mut acc: u64 = 0;
    let mut k: usize = 0;
    while k < n
        invariant
            k <= n,
            n <= 4,
            i + n <= usize::MAX,
            i + n <= s@.len(),
            digits_at(s@, i as int, k as nat) is Some,
            acc == digits_at(s@, i as int, k as nat).unwrap(),
            acc < pow10(k as nat),
            pow10(k as nat) <= 10000,
        decreases n - k,
    {
        let d = digit_at(s, i + k);
        match d {
            None => {
                proof {
                    lemma_digits_none_extends(s@, i as int, (k + 1) as nat, n as nat);
                }
                return None;
            },
            Some(v) => {
                proof {
                    assert(pow10((k + 1) as nat) == 10 * pow10(k as nat));
                    assert(acc * 10 + v < 10 * pow10(k as nat)) by (nonlinear_arith)
                        requires
                            acc < pow10(k as nat),
                            v < 10,
                    ;
                    if k + 1 <= 4 {
                        lemma_pow10_le((k + 1) as nat);
                    }
                }
                acc = acc * 10 + v;
            },
        }
        k = k + 1;
    }
    Some(acc)
}

proof fn lemma_pow10_le(k: nat)
    requires
        k <= 4,
    ensures
        pow10(k) <= 10000,
{
    reveal_with_fuel(pow10, 5);
}

proof fn lemma_digits_none_extends(s: Seq<char>, i: int, k: nat, n: nat)
    requires
        digits_at(s, i, k) is None,
        k <= n,
    ensures
        digits_at(s, i, n) is None,
    decreases n - k,
{
    if k < n {
        lemma_digits_none_extends(s, i, k + 1, n);
    }
}

/// Reads a timestamp in one of the shapes that `parse_spec` accepts.
pub fn parse_local_datetime(s: &str) -> (r: Option<LocalDateTime>)
    ensures
        r == parse_spec(s@),
        r is Some ==> r.unwrap().valid(),
{
    let n = s.unicode_len();
    if !(n == 10 || n == 16 || n == 19) {
        return None;
    }
    if s.get_char(4) != '-' || s.get_char(7) != '-' {
        return None;
    }
    if n > 10 {
        let sep = s.get_char(10);
        if (sep != 'T' && sep != ' ') || s.get_char(13) != ':' {
            return None;
        }
    }
    if n == 19 && s.get_char(16) != ':' {
        return None;
    }
    let y = number_at(s, 0, 4);
    let mo = number_at(s, 5, 2);
    let d = number_at(s, 8, 2);
    let h = if n > 10 { number_at(s, 11, 2) } else { Some(0u64) };
    let mi = if n > 10 { number_at(s, 14, 2) } else { Some(0u64) };
    let se = if n == 19 { number_at(s, 17, 2) } else { Some(0u64) };
    match (y, mo, d, h, mi, se) {
        (Some(y), Some(mo), Some(d), Some(h), Some(mi), Some(se)) => {
            proof {
                lemma_digits_bound(s@, 0, 4);
                lemma_pow10_le(4);
            }
            if 1 <= mo && mo <= 12 && 1 <= d && d <= 31 && h < 24 && mi < 60 && se < 60 {
                Some(
                    LocalDateTime {
                        year: y as i32,
                        month: mo as u8,
                        day: d as u8,
                        hour: h as u8,
                        minute: mi as u8,
                        second: se as u8,
                    },
                )
            } else {
                None
            }
        },
        _ => None,
    }
}

/// The day count of `day_number`, for the clock's range of years.
pub fn day_number_of(year: i32, month: u8, day: u8) -> (r: i64)
    requires
        MIN_CLOCK_YEAR <= year <= MAX_CLOCK_YEAR,
        1 <= month <= 12,
        1 <= day <= 31,
    ensures
        r == day_number(year as int, month as int, day as int),
        0 <= r < 300000000,
{
    let yy: i64 = year as i64 + 280000 - (if month <= 2 { 1i64 } else { 0i64 });
    let mm: i64 = if month > 2 { month as i64 - 3 } else { month as i64 + 9 };
    365 * yy + yy / 4 - yy / 100 + yy / 400 + (153 * mm + 2) / 5 + day as i64 - 1
}

/// The second count of `epoch_seconds`.
pub fn epoch_seconds_of(t: &LocalDateTime) -> (r: i64)
    requires
        t.valid(),
    ensures
        r == epoch_seconds(*t),
{
    let d = day_number_of(t.year, t.month, t.day);
    d * 86400 + t.hour as i64 * 3600 + t.minute as i64 * 60 + t.second as i64
}

/// A zone suffix at the end of a timestamp text: `Z` (or `z`) for UTC, or
/// `+HH:MM` / `-HH:MM` with at most 14 hours, as the number of characters it
/// takes and the offset in minutes east of UTC; `(0, None)` when there is none.
pub open spec fn zone_suffix(s: Seq<char>) -> (int, Option<i32>) {
    let n = s.len() as int;
    if n >= 1 && (s[n - 1] == 'Z' || s[n - 1] == 'z') {
        (1, Some(0i32))
    } else if n >= 6 && (s[n - 6] == '+' || s[n - 6] == '-') && s[n - 3] == ':' && digits_at(
        s,
        n - 5,
        2,
    ) is Some && digits_at(s, n - 2, 2) is Some && digits_at(s, n - 5, 2).unwrap() <= 14
        && digits_at(s, n - 2, 2).unwrap() <= 59 {
        let m = digits_at(s, n - 5, 2).unwrap() * 60 + digits_at(s, n - 2, 2).unwrap();
        (6, Some((if s[n - 6] == '-' { -m } else { m as int }) as i32))
    } else {
        (0, None)
    }
}

/// Every character of `s` from `from` up to `to` is an ASCII digit.
pub open spec fn all_digits(s: Seq<char>, from: int, to: int) -> bool {
    forall|i: int| from <= i < to ==> (#[trigger] digit_value(s[i])) is Some
}

/// `s` without fractional seconds: a `.` after `HH:MM:SS` and one or more
/// digits are dropped.
pub open spec fn strip_fraction(s: Seq<char>) -> Seq<char> {
    if s.len() > 20 && s[19] == '.' && all_digits(s, 20, s.len() as int) {
        s.subrange(0, 19)
    } else {
        s
    }
}

/// The timestamp a reminder text writes: a shape of `parse_spec`, seconds
/// possibly followed by a fraction, the whole possibly followed by a zone
/// suffix; with the zone's offset in minutes when one is given.
pub open spec fn parse_timestamp_spec(s: Seq<char>) -> Option<(LocalDateTime, Option<i32>)> {
    let (zl, zone) = zone_suffix(s);
    match parse_spec(strip_fraction(s.subrange(0, s.len() - zl))) {
        Some(t) => Some((t, zone)),
        None => None,
    }
}

/// The local time together with the zone's offset from UTC in seconds.
#[derive(Clone, Copy, Debug, PartialEq, Eq, Structural)]
pub struct LocalClock {
    pub at: LocalDateTime,
    pub offset_secs: i32,
}

impl LocalClock {
    pub open spec fn valid(&self) -> bool {
        self.at.valid() && -86400 < self.offset_secs < 86400
    }
}

/// Seconds on the UTC time line: a time read in its own zone, or a local
/// time at the local offset.
pub open spec fn instant_of(t: LocalDateTime, zone: Option<i32>, local_offset_secs: int) -> int {
    epoch_seconds(t) - match zone {
        Some(m) => m * 60,
        None => local_offset_secs,
    }
}

/// A reminder at `at` (in `zone`, or local), moved earlier by `before`
/// minutes, has come by `now`.
pub open spec fn timestamp_due(at: LocalDateTime, zone: Option<i32>, before: int, now: LocalClock) -> bool {
    instant_of(at, zone, now.offset_secs as int) - before * 60 <= epoch_seconds(now.at)
        - now.offset_secs
}

fn zone_suffix_exec(s: &str, n: usize) -> (r: (usize, Option<i32>))
    requires
        n == s@.len(),
    ensures
        r.0 as int == zone_suffix(s@).0,
        r.1 == zone_suffix(s@).1,
        r.0 <= n,
{
    if n >= 1 {
        let c = s.get_char(n - 1);
        if c == 'Z' || c == 'z' {
            return (1, Some(0));
        }
    }
    if n >= 6 {
        let sign = s.get_char(n - 6);
        if (sign == '+' || sign == '-') && s.get_char(n - 3) == ':' {
            let hh = number_at(s, n - 5, 2);
            let mm = number_at(s, n - 2, 2);
            match (hh, mm) {
                (Some(h), Some(m)) => {
                    if h <= 14 && m <= 59 {
                        let total: i32 = (h * 60 + m) as i32;
                        return (6, Some(if sign == '-' { -total } else { total }));
                    }
                },
                _ => {},
            }
        }
    }
    (0, None)
}

fn all_digits_exec(s: &str, from: usize, to: usize) -> (r: bool)
    requires
        from <= to <= s@.len(),
    ensures
        r == all_digits(s@, from as int, to as int),
{
    let mut i: usize = from;
    while i < to
        invariant
            from <= i <= to,
            to <= s@.len(),
            all_digits(s@, from as int, i as int),
        decreases to - i,
    {
        let c = s.get_char(i);
        if c < '0' || c > '9' {
            proof {
                assert(digit_value(s@[i as int]) is None);
            }
            return false;
        }
        i = i + 1;
    }
    true
}

/// Reads a reminder time; see `parse_timestamp_spec`.
pub fn parse_timestamp(s: &str) -> (r: Option<(LocalDateTime, Option<i32>)>)
    ensures
        r == parse_timestamp_spec(s@),
        r is Some ==> r.unwrap().0.valid(),
        r is Some && r.unwrap().1 is Some ==> -899 <= r.unwrap().1.unwrap() <= 899,
{
    let n = s.unicode_len();
    let (zl, zone) = zone_suffix_exec(s, n);
    let m = n - zl;
    let b = s.substring_char(0, m);
    let all = m > 20 && b.get_char(19) == '.' && all_digits_exec(b, 20, m);
    let base = if all { b.substring_char(0, 19) } else { b };
    proof {
        assert(base@ == strip_fraction(s@.subrange(0, s@.len() - zone_suffix(s@).0)));
    }
    match parse_local_datetime(base) {
        Some(t) => Some((t, zone)),
        None => None,
    }
}

/// Whether a reminder at `at` (in `zone`, or local), moved earlier by
/// `before` minutes, has come by `now`.
pub fn timestamp_due_exec(at: &LocalDateTime, zone: Option<i32>, before: i32, now: &LocalClock) -> (r: bool)
    requires
        at.valid(),
        now.valid(),
        zone is Some ==> -899 <= zone.unwrap() <= 899,
    ensures
        r == timestamp_due(*at, zone, before as int, *now),
{
    let a = epoch_seconds_of(at);
    let shift: i64 = match zone {
        Some(m) => m as i64 * 60,
        None => now.offset_secs as i64,
    };
    let b = epoch_seconds_of(&now.at);
    a - shift - before as i64 * 60 <= b - now.offset_secs as i64
}

fn push_two(s: &mut String, n: u8)
    ensures
        final(s)@ == old(s)@ + padded(n as nat, 2),
{
    push_padded(s, n as u64, 2);
}

fn push_year(s: &mut String, y: i32)
    ensures
        final(s)@ == old(s)@ + year_text(y as int),
{
    if y < 0 {
        push_char(s, '-');
        push_padded(s, (-(y as i64)) as u64, 4);
        proof {
            assert(s@ =~= old(s)@ + year_text(y as int));
        }
    } else {
        push_padded(s, y as u64, 4);
    }
}

fn push_datetime(s: &mut String, t: &LocalDateTime, sep: char)
    ensures
        final(s)@ == old(s)@ + datetime_text(*t, sep),
{
    let ghost s0 = s@;
    push_year(s, t.year);
    push_char(s, '-');
    push_two(s, t.month);
    push_char(s, '-');
    push_two(s, t.day);
    push_char(s, sep);
    push_two(s, t.hour);
    push_char(s, ':');
    push_two(s, t.minute);
    push_char(s, ':');
    push_two(s, t.second);
    proof {
        assert(s@ =~= s0 + datetime_text(*t, sep));
    }
}

/// The store's timestamp text for `t`.
pub fn stamp_of(t: &LocalDateTime) -> (r: String)
    ensures
        r@ == stamp_text(*t),
{
    let mut s = String::new();
    push_datetime(&mut s, t, ' ');
    proof {
        assert(s@ =~= stamp_text(*t));
    }
    s
}

/// ISO-8601 text with the zone offset, as the snapshot's export time.
pub fn iso_offset_of(t: &LocalDateTime, offset_secs: i32) -> (r: String)
    requires
        -86400 < offset_secs < 86400,
    ensures
        r@ == iso_offset_text(*t, offset_secs as int),
{
    let mut s = String::new();
    push_datetime(&mut s, t, 'T');
    let a: i32 = if offset_secs < 0 { -offset_secs } else { offset_secs };
    if offset_secs < 0 {
        push_char(&mut s, '-');
    } else {
        push_char(&mut s, '+');
    }
    push_padded(&mut s, (a / 3600) as u64, 2);
    push_char(&mut s, ':');
    push_padded(&mut s, ((a % 3600) / 60) as u64, 2);
    proof {
        assert(s@ =~= iso_offset_text(*t, offset_secs as int));
    }
    s
}

/// Relies on chrono's `From<SystemTime> for DateTime<Local>`, applied to
/// `SystemTime::now()`: the current time in the machine's zone, also when
/// the system clock reads before 1970 (where `Local::now` would stop),
/// read through `naive_local` as calendar fields (chrono keeps a date valid
/// within its year range and a time of day below 24:00:00, a leap second
/// showing as second 59) and through `offset().local_minus_utc()` as the
/// zone's offset in seconds, which chrono keeps under one day either way.
#[verifier::external_body]
fn clock_now() -> (r: (LocalDateTime, i32))
    ensures
        r.0.calendar_date(),
        -86400 < r.1 < 86400,
{
    let now = chrono::DateTime::<chrono::Local>::from(std::time::SystemTime::now());
    let t = now.naive_local();
    let fields = LocalDateTime {
        year: t.year(),
        month: t.month() as u8,
        day: t.day() as u8,
        hour: t.hour() as u8,
        minute: t.minute() as u8,
        second: t.second() as u8,
    };
    (fields, now.offset().local_minus_utc())
}

/// The current local time and the zone's offset from UTC in seconds.
pub fn local_now() -> (r: (LocalDateTime, i32))
    ensures
        r.0.valid(),
        r.0.calendar_date(),
        -86400 < r.1 < 86400,
{
    clock_now()
}

} // verus!
