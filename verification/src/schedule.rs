//! Time until a scheduled test: whole days left, a readable countdown, and
//! the one-week priority window.

use vstd::prelude::*;
use std::time::{Duration, SystemTime, SystemTimeError, UNIX_EPOCH};

verus! {

pub const MS_PER_MINUTE: i64 = 60_000;

pub const MS_PER_HOUR: i64 = 3_600_000;

pub const MS_PER_DAY: i64 = 86_400_000;

/// The last day of the priority window, counted from today.
pub const PRIORITY_WINDOW_DAYS: i32 = 7;

/// `a / b` rounded up to the next integer, for a positive `b`.
pub open spec fn ceil_div(a: int, b: int) -> int {
    if a % b == 0 {
        a / b
    } else {
        a / b + 1
    }
}

/// `n` held within the range of `i32`.
pub open spec fn clamp_to_i32(n: int) -> int {
    if n < i32::MIN {
        i32::MIN as int
    } else if n > i32::MAX {
        i32::MAX as int
    } else {
        n
    }
}

/// The days left until `scheduled`, seen from `now`, both in milliseconds:
/// the difference divided by the length of a day and rounded up, so that any
/// part of a day counts as a day. The count is zero at the scheduled moment
/// and zero or negative after it; it is held within the range of `i32`.
pub open spec fn days_remaining(scheduled: int, now: int) -> int {
    clamp_to_i32(ceil_div(scheduled - now, MS_PER_DAY as int))
}

/// A test is a priority when it lies ahead, at most a week away.
pub open spec fn in_priority_window(days: int) -> bool {
    0 < days <= PRIORITY_WINDOW_DAYS
}

/// The character of a decimal digit.
pub open spec fn digit_char(d: int) -> char {
    if d == 0 {
        '0'
    } else if d == 1 {
        '1'
    } else if d == 2 {
        '2'
    } else if d == 3 {
        '3'
    } else if d == 4 {
        '4'
    } else if d == 5 {
        '5'
    } else if d == 6 {
        '6'
    } else if d == 7 {
        '7'
    } else if d == 8 {
        '8'
    } else {
        '9'
    }
}

/// `n` written in decimal, without leading zeros.
pub open spec fn decimal(n: nat) -> Seq<char>
    decreases n,
{
    if n < 10 {
        seq![digit_char(n as int)]
    } else {
        decimal(n / 10).push(digit_char((n % 10) as int))
    }
}

/// The number that a string of decimal digits stands for.
pub open spec fn decimal_value(digits: Seq<char>) -> int
    decreases digits.len(),
{
    if digits.len() == 0 {
        0
    } else {
        10 * decimal_value(digits.drop_last()) + (digits.last() as u32 - '0' as u32)
    }
}

/// The text shown after the scheduled moment.
pub open spec fn passed_text() -> Seq<char> {
    "Test has passed"@
}

/// The countdown to `scheduled`, seen from `now`: whole days, then the hours
/// of the day that is left, then the minutes of the hour that is left, as
/// `"{days}d {hours}h {minutes}m"`. From the scheduled moment on it reads
/// "Test has passed".
pub open spec fn time_remaining_text(scheduled: int, now: int) -> Seq<char> {
    let diff = scheduled - now;
    if diff <= 0 {
        passed_text()
    } else {
        let days = (diff / MS_PER_DAY as int) as nat;
        let hours = ((diff % MS_PER_DAY as int) / MS_PER_HOUR as int) as nat;
        let minutes = ((diff % MS_PER_HOUR as int) / MS_PER_MINUTE as int) as nat;
        decimal(days).push('d').push(' ') + decimal(hours).push('h').push(' ') + decimal(
            minutes,
        ).push('m')
    }
}

/// What a reading of the clock stands for in milliseconds since the epoch:
/// `Ok` holds the distance of a clock at or after the epoch, `Err` that of a
/// clock before it. A distance out of the range of `i64` counts as the
/// nearest end of the range.
pub open spec fn timestamp_of(reading: Result<u128, u128>) -> int {
    match reading {
        Ok(ms) => if ms <= i64::MAX {
            ms as int
        } else {
            i64::MAX as int
        },
        Err(ms) => if ms <= i64::MAX {
            -(ms as int)
        } else {
            i64::MIN as int
        },
    }
}

/// The decimal writing of a number reads back as that number; it is never
/// empty, and begins with a zero only for zero itself.
pub proof fn lemma_decimal(n: nat)
    ensures
        decimal_value(decimal(n)) == n,
        decimal(n).len() >= 1,
        decimal(n)[0] == '0' <==> n == 0,
    decreases n,
{
    if n < 10 {
        assert(decimal(n).drop_last() =~= Seq::<char>::empty());
        assert(decimal_value(Seq::<char>::empty()) == 0);
    } else {
        lemma_decimal(n / 10);
        assert(decimal(n).drop_last() =~= decimal(n / 10));
    }
}

/// The day count is the ceiling of the difference in days: the least number
/// of whole days that reach the scheduled moment.
pub proof fn lemma_days_remaining_is_ceiling(scheduled: int, now: int)
    requires
        i32::MIN <= ceil_div(scheduled - now, MS_PER_DAY as int) <= i32::MAX,
    ensures
        days_remaining(scheduled, now) * MS_PER_DAY >= scheduled - now,
        (days_remaining(scheduled, now) - 1) * MS_PER_DAY < scheduled - now,
{
}

/// A test at or before the present reads "Test has passed", has no day left
/// and is no priority, however recent it is.
pub proof fn lemma_past_test(scheduled: int, now: int)
    requires
        scheduled <= now,
    ensures
        time_remaining_text(scheduled, now) == passed_text(),
        days_remaining(scheduled, now) <= 0,
        !in_priority_window(days_remaining(scheduled, now)),
{
}

/// A test ahead has at least one day left, and is a priority exactly when it
/// is at most seven days away.
pub proof fn lemma_future_test(scheduled: int, now: int)
    requires
        scheduled > now,
    ensures
        days_remaining(scheduled, now) >= 1,
        in_priority_window(days_remaining(scheduled, now)) <==> scheduled - now
            <= PRIORITY_WINDOW_DAYS * MS_PER_DAY,
{
}

/// A later test never has fewer days left.
pub proof fn lemma_days_remaining_monotonic(earlier: int, later: int, now: int)
    requires
        earlier <= later,
    ensures
        days_remaining(earlier, now) <= days_remaining(later, now),
{
}

/// A moment of the system clock.
#[verifier::external_type_specification]
#[verifier::external_body]
pub struct ExSystemTime(SystemTime);

/// What `SystemTime::duration_since` hands back for a moment that lies before
/// the one it is measured from.
#[verifier::external_type_specification]
#[verifier::external_body]
pub struct ExSystemTimeError(SystemTimeError);

/// `SystemTime::now` reads the system clock. Nothing is promised of the
/// moment that it hands back.
pub assume_specification[ SystemTime::now ]() -> SystemTime;

/// `SystemTime::duration_since` measures the time from `earlier` to `moment`,
/// or fails where `earlier` is the later of the two. Nothing is promised of
/// what it hands back.
pub assume_specification[ SystemTime::duration_since ](
    moment: &SystemTime,
    earlier: SystemTime,
) -> Result<Duration, SystemTimeError>;

/// `SystemTimeError::duration` is the time by which the second moment lies
/// after the first. Nothing is promised of it.
pub assume_specification[ SystemTimeError::duration ](error: &SystemTimeError) -> Duration;

/// `Duration::as_millis` is the length in whole milliseconds. Nothing is
/// promised of it.
pub assume_specification[ Duration::as_millis ](length: &Duration) -> u128;

/// The moment from which timestamps count: the constant `UNIX_EPOCH` of the
/// standard library, handed on as it is. Nothing is claimed of it.
#[verifier::external_body]
fn epoch() -> SystemTime {
    UNIX_EPOCH
}

/// The distance of the system clock from the epoch in milliseconds: `Ok` for
/// a clock at or after the epoch, `Err` for one before it.
fn read_clock() -> (reading: Result<u128, u128>) {
    match SystemTime::now().duration_since(epoch()) {
        Ok(elapsed) => Ok(elapsed.as_millis()),
        Err(before) => Err(before.duration().as_millis()),
    }
}

/// The timestamp that a reading of the clock stands for.
pub fn timestamp_from_reading(reading: Result<u128, u128>) -> (ms: i64)
    ensures
        ms == timestamp_of(reading),
{
    match reading {
        Ok(ms) => if ms <= 0x7fff_ffff_ffff_ffff {
            ms as i64
        } else {
            i64::MAX
        },
        Err(ms) => if ms <= 0x7fff_ffff_ffff_ffff {
            -(ms as i64)
        } else {
            i64::MIN
        },
    }
}

/// The present moment of the system clock in milliseconds since the epoch;
/// negative for a clock that is set before the epoch.
pub fn get_current_timestamp() -> (now: i64) {
    timestamp_from_reading(read_clock())
}

/// The days left until `scheduled_date`, seen from `now`.
pub fn days_remaining_at(scheduled_date: i64, now: i64) -> (days: i32)
    ensures
        days == days_remaining(scheduled_date as int, now as int),
{
    let day: i128 = 86_400_000;
    let diff: i128 = scheduled_date as i128 - now as i128;
    let exact: i128 = if diff > 0 {
        let whole = diff / day;
        if diff % day == 0 {
            whole
        } else {
            whole + 1
        }
    } else {
        let behind: i128 = -diff;
        -(behind / day)
    };
    assert(exact == ceil_div(diff as int, MS_PER_DAY as int));
    if exact < -0x8000_0000 {
        i32::MIN
    } else if exact > 0x7fff_ffff {
        i32::MAX
    } else {
        exact as i32
    }
}

/// Whether a test with `days` days left is a priority.
pub fn is_priority(days: i32) -> (r: bool)
    ensures
        r == in_priority_window(days as int),
{
    days > 0 && days <= PRIORITY_WINDOW_DAYS
}

/// Whether a test at `scheduled_date` is a priority, seen from `now`.
pub fn is_within_priority_window_at(scheduled_date: i64, now: i64) -> (r: bool)
    ensures
        r == in_priority_window(days_remaining(scheduled_date as int, now as int)),
{
    is_priority(days_remaining_at(scheduled_date, now))
}

fn digit_of(d: u128) -> (c: char)
    requires
        d < 10,
    ensures
        c == digit_char(d as int),
{
    if d == 0 {
        '0'
    } else if d == 1 {
        '1'
    } else if d == 2 {
        '2'
    } else if d == 3 {
        '3'
    } else if d == 4 {
        '4'
    } else if d == 5 {
        '5'
    } else if d == 6 {
        '6'
    } else if d == 7 {
        '7'
    } else if d == 8 {
        '8'
    } else {
        '9'
    }
}

/// Appends `n` in decimal to `out`.
pub fn push_decimal(out: &mut String, n: u128)
    ensures
        final(out)@ == old(out)@ + decimal(n as nat),
    decreases n,
{
    if n >= 10 {
        push_decimal(out, n / 10);
    }
    let ghost before = out@;
    out.push(digit_of(n % 10));
    assert(out@ =~= old(out)@ + decimal(n as nat));
}

/// The countdown to `scheduled_date`, seen from `now`.
pub fn format_time_remaining_at(scheduled_date: i64, now: i64) -> (text: String)
    ensures
        text@ == time_remaining_text(scheduled_date as int, now as int),
{
    let diff: i128 = scheduled_date as i128 - now as i128;
    if diff <= 0 {
        return "Test has passed".to_owned();
    }
    let left: u128 = diff as u128;
    let days: u128 = left / 86_400_000;
    let hours: u128 = (left % 86_400_000) / 3_600_000;
    let minutes: u128 = (left % 3_600_000) / 60_000;
    let mut text = String::new();
    push_decimal(&mut text, days);
    text.push('d');
    text.push(' ');
    push_decimal(&mut text, hours);
    text.push('h');
    text.push(' ');
    push_decimal(&mut text, minutes);
    text.push('m');
    assert(text@ =~= time_remaining_text(scheduled_date as int, now as int));
    text
}

/// The days left until `scheduled_date`, seen from the present moment of the
/// system clock.
pub fn get_days_remaining(scheduled_date: i64) -> (days: i32)
    ensures
        exists|now: i64| days == days_remaining(scheduled_date as int, now as int),
{
    let now = get_current_timestamp();
    days_remaining_at(scheduled_date, now)
}

/// The countdown to `scheduled_date`, seen from the present moment of the
/// system clock.
pub fn format_time_remaining(scheduled_date: i64) -> (text: String)
    ensures
        exists|now: i64| text@ == time_remaining_text(scheduled_date as int, now as int),
{
    let now = get_current_timestamp();
    format_time_remaining_at(scheduled_date, now)
}

/// Whether a test at `scheduled_date` is a priority, seen from the present
/// moment of the system clock.
pub fn is_within_priority_window(scheduled_date: i64) -> (r: bool)
    ensures
        exists|now: i64|
            r == in_priority_window(days_remaining(scheduled_date as int, now as int)),
{
    let now = get_current_timestamp();
    is_within_priority_window_at(scheduled_date, now)
}

} // verus!
