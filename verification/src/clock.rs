//! Calendar and clock facts of the America/Chicago time zone, which come
//! from `chrono` and `chrono-tz`, and the text of a long date.

use vstd::prelude::*;
use chrono::Datelike;
use chrono::TimeZone;
use crate::text::string_of;

verus! {

/// The calendar date `(year, month, day)` in America/Chicago of an RFC 3339
/// timestamp, or `None` when the text is not RFC 3339 (as `chrono` and
/// `chrono-tz` compute it).
pub uninterp spec fn chicago_date_of(rfc3339: Seq<char>) -> Option<(int, int, int)>;

/// The instant of an RFC 3339 timestamp in whole seconds since the Unix
/// epoch (rounded down), or `None` when the text is not RFC 3339.
pub uninterp spec fn rfc3339_instant(text: Seq<char>) -> Option<int>;

/// The day, counted from January 1 of year 1 as day 1 in the proleptic
/// Gregorian calendar, that an instant (in seconds since the Unix epoch)
/// falls on in America/Chicago; `None` outside the calendar's range.
pub uninterp spec fn chicago_day_of(instant: int) -> Option<int>;

/// What a wall-clock time of a day in America/Chicago denotes.
pub uninterp spec fn chicago_wall_clock(day: int, hour: int, minute: int) -> WallClock;

/// The meaning of a local wall-clock time.
#[derive(Clone, Copy, Debug, PartialEq, Eq, Structural)]
pub enum WallClock {
    /// Exactly one instant, in seconds since the Unix epoch.
    Unique(i64),
    /// Two instants (the clock was set back).
    Ambiguous,
    /// No instant: the clock jumped over it, or the instant would lie
    /// outside `chrono`'s range.
    Skipped,
    /// The hour or minute is not a time of day.
    InvalidTime,
    /// The day is outside the calendar's range.
    InvalidDay,
}

/// `chrono`'s `DateTime::parse_from_rfc3339`, then `with_timezone` to
/// America/Chicago, read back as year, month and day. The contract claims that
/// the result is a function of the text alone, and that a month lies in 1..=12
/// and a day in 1..=31, as `Datelike` documents.
#[verifier::external_body]
pub(crate) fn chicago_date(rfc3339: &str) -> (r: Option<(i32, u32, u32)>)
    ensures
        match r {
            Some((y, m, d)) => chicago_date_of(rfc3339@) == Some((y as int, m as int, d as int))
                && 1 <= m <= 12 && 1 <= d <= 31,
            None => chicago_date_of(rfc3339@) is None,
        },
{
    let t = chrono::DateTime::parse_from_rfc3339(rfc3339).ok()?;
    let local = t.with_timezone(&chrono_tz::America::Chicago);
    Some((local.year(), local.month(), local.day()))
}

/// `chrono`'s `DateTime::parse_from_rfc3339` followed by `timestamp`. The
/// contract claims only that the result is a function of the text.
#[verifier::external_body]
pub(crate) fn rfc3339_seconds(text: &str) -> (r: Option<i64>)
    ensures
        match r {
            Some(s) => rfc3339_instant(text@) == Some(s as int),
            None => rfc3339_instant(text@) is None,
        },
{
    Some(chrono::DateTime::parse_from_rfc3339(text).ok()?.timestamp())
}

/// Instants (seconds since the Unix epoch) from one day after the start of
/// `chrono`'s dates (-262143-01-01T00:00:00Z, -8334601315200 seconds) on.
/// America/Chicago is never more than six hours behind UTC, so the local time
/// of such an instant stays inside `chrono`'s range. Later instants need no
/// bound: past `chrono`'s last instant (262142-12-31T23:59:59Z),
/// `from_timestamp` answers `None`, and local time there is earlier.
pub open spec fn in_clock_range(instant: int) -> bool {
    -8_334_601_228_800 <= instant
}

/// `chrono`'s `DateTime::from_timestamp`, `with_timezone` to
/// America/Chicago, `date_naive` and `num_days_from_ce`. The contract claims
/// that the result is a function of the instant, and that it fits in an `i32`,
/// the type `num_days_from_ce` returns. (`date_naive` panics when the local
/// time falls before `chrono`'s first date, hence the bound on the instant.)
#[verifier::external_body]
pub(crate) fn chicago_day(instant: i64) -> (r: Option<i64>)
    requires
        in_clock_range(instant as int),
    ensures
        match r {
            Some(d) => chicago_day_of(instant as int) == Some(d as int) && i32::MIN <= d
                <= i32::MAX,
            None => chicago_day_of(instant as int) is None,
        },
{
    let t = chrono::DateTime::from_timestamp(instant, 0)?;
    Some(t.with_timezone(&chrono_tz::America::Chicago).date_naive().num_days_from_ce() as i64)
}

/// `chrono`'s `NaiveDate::from_num_days_from_ce_opt` and `and_hms_opt`, then
/// `chrono-tz`'s `from_local_datetime` for America/Chicago, with its three
/// outcomes told apart. The contract claims only that the result is a function
/// of the arguments.
#[verifier::external_body]
pub(crate) fn chicago_local(day: i64, hour: u32, minute: u32) -> (r: WallClock)
    ensures
        r == chicago_wall_clock(day as int, hour as int, minute as int),
{
    let Some(date) = i32::try_from(day).ok().and_then(chrono::NaiveDate::from_num_days_from_ce_opt) else {
        return WallClock::InvalidDay;
    };
    let Some(local) = date.and_hms_opt(hour, minute, 0) else {
        return WallClock::InvalidTime;
    };
    match chrono_tz::America::Chicago.from_local_datetime(&local) {
        chrono::LocalResult::Single(t) => WallClock::Unique(t.timestamp()),
        chrono::LocalResult::Ambiguous(_, _) => WallClock::Ambiguous,
        chrono::LocalResult::None => WallClock::Skipped,
    }
}

/// The day of the week, counting Monday as 0, of a day counted from January 1
/// of year 1 (a Monday) as day 1.
pub open spec fn weekday_from_monday(day: int) -> int {
    (day - 1) % 7
}

/// Saturdays and Sundays.
pub open spec fn is_weekend(day: int) -> bool {
    weekday_from_monday(day) >= 5
}

/// The English name of a month.
pub open spec fn month_name(m: int) -> Seq<char> {
    if m == 1 {
        "January"@
    } else if m == 2 {
        "February"@
    } else if m == 3 {
        "March"@
    } else if m == 4 {
        "April"@
    } else if m == 5 {
        "May"@
    } else if m == 6 {
        "June"@
    } else if m == 7 {
        "July"@
    } else if m == 8 {
        "August"@
    } else if m == 9 {
        "September"@
    } else if m == 10 {
        "October"@
    } else if m == 11 {
        "November"@
    } else {
        "December"@
    }
}

/// The decimal digits of a natural number, without leading zeros.
pub open spec fn decimal(n: nat) -> Seq<char>
    decreases n,
{
    if n < 10 {
        seq![digit_char(n)]
    } else {
        decimal(n / 10).push(digit_char(n % 10))
    }
}

/// The ASCII digit of a number below ten.
pub open spec fn digit_char(n: nat) -> char {
    ((n % 10) + 48) as char
}

/// Left-pads a text with zeros to at least `width` characters.
pub open spec fn zero_pad(s: Seq<char>, width: nat) -> Seq<char> {
    if s.len() >= width {
        s
    } else {
        Seq::new((width - s.len()) as nat, |i: int| '0') + s
    }
}

/// `%Y`: the year, zero-padded to four digits, with a sign outside 0..=9999.
pub open spec fn year_text(y: int) -> Seq<char> {
    if 0 <= y <= 9999 {
        zero_pad(decimal(y as nat), 4)
    } else if y < 0 {
        seq!['-'] + zero_pad(decimal((-y) as nat), 4)
    } else {
        seq!['+'] + decimal(y as nat)
    }
}

/// `%B %-d, %Y`: a date such as "May 13, 2026".
pub open spec fn long_date_text(y: int, m: int, d: int) -> Seq<char> {
    month_name(m) + seq![' '] + decimal(d as nat) + ", "@ + year_text(y)
}

/// Appends the decimal digits of `n`.
pub(crate) fn push_decimal(out: &mut Vec<char>, n: u64)
    ensures
        final(out)@ == old(out)@ + decimal(n as nat),
    decreases n,
{
    if n >= 10 {
        push_decimal(out, n / 10);
    }
    let digit = ((n % 10) as u8 + 48u8) as char;
    out.push(digit);
    assert(digit == digit_char(n as nat));
}

fn push_str(out: &mut Vec<char>, s: &str)
    ensures
        final(out)@ == old(out)@ + s@,
{
    let cs = crate::text::chars_of(s);
    let mut i: usize = 0;
    let ghost start = out@;
    while i < cs.len()
        invariant
            cs@ == s@,
            i <= cs@.len(),
            out@ == start + cs@.take(i as int),
        decreases cs@.len() - i,
    {
        out.push(cs[i]);
        assert(cs@.take(i as int).push(cs@[i as int]) =~= cs@.take(i + 1));
        i = i + 1;
    }
    assert(cs@.take(cs@.len() as int) =~= cs@);
}

fn month_str(m: u32) -> (s: &'static str)
    ensures
        s@ == month_name(m as int),
{
    if m == 1 {
        "January"
    } else if m == 2 {
        "February"
    } else if m == 3 {
        "March"
    } else if m == 4 {
        "April"
    } else if m == 5 {
        "May"
    } else if m == 6 {
        "June"
    } else if m == 7 {
        "July"
    } else if m == 8 {
        "August"
    } else if m == 9 {
        "September"
    } else if m == 10 {
        "October"
    } else if m == 11 {
        "November"
    } else {
        "December"
    }
}

/// Appends `n` zero-padded to four digits.
fn push_padded4(out: &mut Vec<char>, n: u64)
    ensures
        final(out)@ == old(out)@ + zero_pad(decimal(n as nat), 4),
{
    let mut digits: Vec<char> = Vec::new();
    push_decimal(&mut digits, n);
    assert(digits@ =~= decimal(n as nat));
    let ghost start = out@;
    let mut k: usize = digits.len();
    while k < 4
        invariant
            digits@ == decimal(n as nat),
            digits@.len() <= k <= 4 || (k == digits@.len() && k >= 4),
            out@ == start + Seq::new((k - digits@.len()) as nat, |i: int| '0'),
        decreases 4 - k,
    {
        out.push('0');
        assert(Seq::new((k - digits@.len()) as nat, |i: int| '0').push('0') =~= Seq::new(
            (k + 1 - digits@.len()) as nat,
            |i: int| '0',
        ));
        k = k + 1;
    }
    let ghost mid = out@;
    let mut i: usize = 0;
    while i < digits.len()
        invariant
            i <= digits@.len(),
            out@ == mid + digits@.take(i as int),
        decreases digits@.len() - i,
    {
        out.push(digits[i]);
        assert(digits@.take(i as int).push(digits@[i as int]) =~= digits@.take(i + 1));
        i = i + 1;
    }
    assert(digits@.take(digits@.len() as int) =~= digits@);
    if digits.len() >= 4 {
        assert(Seq::new(0, |i: int| '0') + digits@ =~= digits@);
    }
    assert(out@ =~= start + zero_pad(decimal(n as nat), 4));
}

/// The text `%B %-d, %Y` of a calendar date, as `chrono` formats it.
pub fn long_date(y: i32, m: u32, d: u32) -> (s: String)
    ensures
        s@ == long_date_text(y as int, m as int, d as int),
{
    let mut out: Vec<char> = Vec::new();
    push_str(&mut out, month_str(m));
    out.push(' ');
    push_decimal(&mut out, d as u64);
    push_str(&mut out, ", ");
    if 0 <= y && y <= 9999 {
        push_padded4(&mut out, y as u64);
    } else if y < 0 {
        out.push('-');
        let a: i64 = -(y as i64);
        push_padded4(&mut out, a as u64);
    } else {
        out.push('+');
        push_decimal(&mut out, y as u64);
    }
    assert(out@ =~= long_date_text(y as int, m as int, d as int));
    string_of(out.as_slice())
}

/// The calendar's weeks: whether a day is a weekend day repeats every seven
/// days, and day 1 (January 1 of year 1, a Monday in the proleptic Gregorian
/// calendar that `num_days_from_ce` counts in) starts a week of five working
/// days, Monday to Friday, then Saturday and Sunday. Together these fix
/// exactly which days are weekend days.
pub proof fn lemma_weekend_days(d: int)
    ensures
        is_weekend(d) == is_weekend(d + 7),
        !is_weekend(1),
        !is_weekend(2),
        !is_weekend(3),
        !is_weekend(4),
        !is_weekend(5),
        is_weekend(6),
        is_weekend(7),
{
    assert((d + 7 - 1) % 7 == (d - 1) % 7) by (nonlinear_arith);
}

/// Each month's long date names that month in English: for every year and
/// day, month 1 reads "January <day>, <year>", ..., month 12 "December
/// <day>, <year>".
pub proof fn lemma_long_date_month_names(y: int, d: int)
    ensures
        long_date_text(y, 1, d) == "January "@ + decimal(d as nat) + ", "@ + year_text(y),
        long_date_text(y, 2, d) == "February "@ + decimal(d as nat) + ", "@ + year_text(y),
        long_date_text(y, 3, d) == "March "@ + decimal(d as nat) + ", "@ + year_text(y),
        long_date_text(y, 4, d) == "April "@ + decimal(d as nat) + ", "@ + year_text(y),
        long_date_text(y, 5, d) == "May "@ + decimal(d as nat) + ", "@ + year_text(y),
        long_date_text(y, 6, d) == "June "@ + decimal(d as nat) + ", "@ + year_text(y),
        long_date_text(y, 7, d) == "July "@ + decimal(d as nat) + ", "@ + year_text(y),
        long_date_text(y, 8, d) == "August "@ + decimal(d as nat) + ", "@ + year_text(y),
        long_date_text(y, 9, d) == "September "@ + decimal(d as nat) + ", "@ + year_text(y),
        long_date_text(y, 10, d) == "October "@ + decimal(d as nat) + ", "@ + year_text(y),
        long_date_text(y, 11, d) == "November "@ + decimal(d as nat) + ", "@ + year_text(y),
        long_date_text(y, 12, d) == "December "@ + decimal(d as nat) + ", "@ + year_text(y),
{
    let tail = decimal(d as nat) + ", "@ + year_text(y);
    reveal_strlit("January");
    reveal_strlit("January ");
    reveal_strlit("February");
    reveal_strlit("February ");
    reveal_strlit("March");
    reveal_strlit("March ");
    reveal_strlit("April");
    reveal_strlit("April ");
    reveal_strlit("May");
    reveal_strlit("May ");
    reveal_strlit("June");
    reveal_strlit("June ");
    reveal_strlit("July");
    reveal_strlit("July ");
    reveal_strlit("August");
    reveal_strlit("August ");
    reveal_strlit("September");
    reveal_strlit("September ");
    reveal_strlit("October");
    reveal_strlit("October ");
    reveal_strlit("November");
    reveal_strlit("November ");
    reveal_strlit("December");
    reveal_strlit("December ");
    assert(long_date_text(y, 1, d) =~= "January "@ + tail);
    assert(long_date_text(y, 2, d) =~= "February "@ + tail);
    assert(long_date_text(y, 3, d) =~= "March "@ + tail);
    assert(long_date_text(y, 4, d) =~= "April "@ + tail);
    assert(long_date_text(y, 5, d) =~= "May "@ + tail);
    assert(long_date_text(y, 6, d) =~= "June "@ + tail);
    assert(long_date_text(y, 7, d) =~= "July "@ + tail);
    assert(long_date_text(y, 8, d) =~= "August "@ + tail);
    assert(long_date_text(y, 9, d) =~= "September "@ + tail);
    assert(long_date_text(y, 10, d) =~= "October "@ + tail);
    assert(long_date_text(y, 11, d) =~= "November "@ + tail);
    assert(long_date_text(y, 12, d) =~= "December "@ + tail);
}

/// The number that decimal digits stand for.
pub open spec fn digits_value(s: Seq<char>) -> int
    decreases s.len(),
{
    if s.len() == 0 {
        0
    } else {
        digits_value(s.drop_last()) * 10 + (s.last() as int - 48)
    }
}

/// The decimal text of a number is made of digits `0`-`9`, has no leading
/// zero (but for 0 itself), and reads back as the number.
pub proof fn lemma_decimal_reads_back(n: nat)
    ensures
        decimal(n).len() >= 1,
        forall|i: int| 0 <= i < decimal(n).len() ==> '0' <= #[trigger] decimal(n)[i] <= '9',
        decimal(n)[0] != '0' || n == 0,
        digits_value(decimal(n)) == n,
    decreases n,
{
    if n >= 10 {
        lemma_decimal_reads_back(n / 10);
        let init = decimal(n / 10);
        assert(decimal(n).drop_last() =~= init);
        assert(decimal(n)[0] == init[0]);
        assert(digit_char(n % 10) as int == n % 10 + 48);
        assert(decimal(n).last() == digit_char(n % 10));
        assert((n / 10) * 10 + n % 10 == n) by (nonlinear_arith);
        assert(digits_value(decimal(n)) == digits_value(init) * 10 + (decimal(n).last() as int - 48));
        assert forall|i: int| 0 <= i < decimal(n).len() implies '0' <= #[trigger] decimal(n)[i] <= '9' by {
            if i < init.len() {
                assert(decimal(n)[i] == init[i]);
            }
        }
    } else {
        assert(digit_char(n) as int == n + 48);
        assert(decimal(n).drop_last() =~= Seq::<char>::empty());
        assert(decimal(n).last() == digit_char(n));
        assert(digits_value(decimal(n)) == digits_value(Seq::<char>::empty()) * 10 + (decimal(n).last() as int - 48));
    }
}

proof fn lemma_zeros_value(k: nat)
    ensures
        digits_value(Seq::new(k, |i: int| '0')) == 0,
    decreases k,
{
    if k > 0 {
        assert(Seq::new(k, |i: int| '0').drop_last() =~= Seq::new((k - 1) as nat, |i: int| '0'));
        lemma_zeros_value((k - 1) as nat);
    }
}

proof fn lemma_leading_zeros_value(k: nat, s: Seq<char>)
    ensures
        digits_value(Seq::new(k, |i: int| '0') + s) == digits_value(s),
    decreases s.len(),
{
    let z = Seq::new(k, |i: int| '0');
    if s.len() == 0 {
        assert(z + s =~= z);
        lemma_zeros_value(k);
    } else {
        lemma_leading_zeros_value(k, s.drop_last());
        assert((z + s).drop_last() =~= z + s.drop_last());
        assert((z + s).last() == s.last());
    }
}

proof fn lemma_decimal_len(n: nat)
    ensures
        n < 10 ==> decimal(n).len() == 1,
        n < 100 ==> decimal(n).len() <= 2,
        n < 1000 ==> decimal(n).len() <= 3,
        n < 10000 ==> decimal(n).len() <= 4,
    decreases n,
{
    if n >= 10 {
        lemma_decimal_len(n / 10);
    }
}

/// The year of a long date between 0 and 9999 is four digits that read back
/// as the year (zero-padded, as `%Y` writes it).
pub proof fn lemma_year_reads_back(y: int)
    requires
        0 <= y <= 9999,
    ensures
        year_text(y).len() == 4,
        forall|i: int| 0 <= i < 4 ==> '0' <= #[trigger] year_text(y)[i] <= '9',
        digits_value(year_text(y)) == y,
{
    let d = decimal(y as nat);
    lemma_decimal_reads_back(y as nat);
    lemma_decimal_len(y as nat);
    if d.len() < 4 {
        let k = (4 - d.len()) as nat;
        lemma_leading_zeros_value(k, d);
        let t = Seq::new(k, |i: int| '0') + d;
        assert forall|i: int| 0 <= i < 4 implies '0' <= #[trigger] year_text(y)[i] <= '9' by {
            if i >= k {
                assert(t[i] == d[i - k]);
            }
        }
    }
}

} // verus!
