//! Time values: parsing of timestamps, dates and clock times (by chrono),
//! and the formatting of durations.
use vstd::prelude::*;
use chrono::{Datelike, Timelike};

verus! {

/// The instant that `chrono::DateTime::parse_from_rfc3339` reads from a
/// text, as seconds since the epoch and the sub-second nanoseconds.
pub uninterp spec fn rfc3339_instant(text: Seq<char>) -> Option<(i64, u32)>;

/// The day (counted from the common era) of the date that
/// `chrono::NaiveDate::parse_from_str` reads from a text with a format.
pub uninterp spec fn calendar_date(text: Seq<char>, format: Seq<char>) -> Option<i32>;

/// The time of day (seconds since midnight, nanoseconds) that
/// `chrono::NaiveTime::parse_from_str` reads from a text with a format.
pub uninterp spec fn clock_time(text: Seq<char>, format: Seq<char>) -> Option<(u32, u32)>;

/// Calls `DateTime::parse_from_rfc3339`; on success returns `timestamp()`
/// and `timestamp_subsec_nanos()` of the result. The parse is named, not
/// stated. The pair orders as the parsed `DateTime` values do (they compare
/// by instant).
#[verifier::external_body]
pub(crate) fn parse_rfc3339(text: &str) -> (r: Option<(i64, u32)>)
    ensures
        r == rfc3339_instant(text@),
{
    chrono::DateTime::parse_from_rfc3339(text).ok().map(
        |d| (d.timestamp(), d.timestamp_subsec_nanos()),
    )
}

/// Calls `NaiveDate::parse_from_str` with a format; on success returns
/// `num_days_from_ce()` of the date, which orders as dates do.
#[verifier::external_body]
pub(crate) fn parse_calendar_date(text: &str, format: &str) -> (r: Option<i32>)
    ensures
        r == calendar_date(text@, format@),
{
    chrono::NaiveDate::parse_from_str(text, format).ok().map(|d| d.num_days_from_ce())
}

/// Calls `NaiveTime::parse_from_str` with a format; on success returns
/// `num_seconds_from_midnight()` and `nanosecond()`, a pair that orders as
/// the times do.
#[verifier::external_body]
pub(crate) fn parse_clock_time(text: &str, format: &str) -> (r: Option<(u32, u32)>)
    ensures
        r == clock_time(text@, format@),
{
    chrono::NaiveTime::parse_from_str(text, format).ok().map(
        |t| (t.num_seconds_from_midnight(), t.nanosecond()),
    )
}

/// Reads the clock with `chrono::Utc::now` and formats the instant with
/// `to_rfc3339`. Nothing is stated of the result: it depends on the time.
#[verifier::external_body]
pub fn now_timestamp() -> String {
    chrono::Utc::now().to_rfc3339()
}

/// A number in decimal followed by a designator, or nothing when `show` is
/// false.
pub open spec fn designated(show: bool, n: nat, designator: char) -> Seq<char> {
    if show {
        crate::config::decimal_text(n).push(designator)
    } else {
        Seq::empty()
    }
}

/// ISO 8601 duration of a number of seconds: days, then a time part with
/// hours, minutes and seconds, each only when not zero; zero seconds are
/// written when there are neither hours nor minutes, and the time part is
/// left out only for whole days.
pub open spec fn iso8601_duration(total: nat) -> Seq<char> {
    let days = total / 86_400;
    let hours = (total % 86_400) / 3_600;
    let minutes = (total % 3_600) / 60;
    let seconds = total % 60;
    let time = if hours > 0 || minutes > 0 || seconds > 0 || days == 0 {
        seq!['T'] + designated(hours > 0, hours, 'H') + designated(minutes > 0, minutes, 'M')
            + designated(seconds > 0 || (hours == 0 && minutes == 0), seconds, 'S')
    } else {
        Seq::empty()
    };
    seq!['P'] + designated(days > 0, days, 'D') + time
}

/// Appends a number and a designator when asked.
fn push_designated(out: &mut Vec<char>, show: bool, n: u64, designator: char)
    ensures
        final(out)@ == old(out)@ + designated(show, n as nat, designator),
{
    if show {
        let d = crate::config::decimal_string(n);
        let ghost before = out@;
        let mut i: usize = 0;
        while i < d.len()
            invariant
                i <= d.len(),
                out@ == before + d@.take(i as int),
            decreases d.len() - i,
        {
            out.push(d[i]);
            assert(before + d@.take(i + 1) =~= (before + d@.take(i as int)).push(d@[i as int]));
            i += 1;
        }
        assert(d@.take(d.len() as int) =~= d@);
        out.push(designator);
        assert(out@ =~= before + d@.push(designator));
    } else {
        assert(out@ =~= out@ + Seq::<char>::empty());
    }
}

/// Formats a run time, given in whole seconds, as an ISO 8601 duration.
pub fn duration_to_iso8601(total_seconds: u64) -> (r: String)
    ensures
        r@ == iso8601_duration(total_seconds as nat),
{
    let days = total_seconds / 86_400;
    let mut seconds = total_seconds % 86_400;
    let hours = seconds / 3_600;
    seconds = seconds % 3_600;
    let minutes = seconds / 60;
    seconds = seconds % 60;
    assert(hours == (total_seconds % 86_400) / 3_600);
    assert(minutes == (total_seconds % 3_600) / 60) by (nonlinear_arith)
        requires
            minutes == ((total_seconds % 86_400) % 3_600) / 60,
    {
        assert((total_seconds % 86_400) % 3_600 == total_seconds % 3_600) by (nonlinear_arith);
    }
    assert(seconds == total_seconds % 60) by (nonlinear_arith)
        requires
            seconds == ((total_seconds % 86_400) % 3_600) % 60,
    {
        assert((total_seconds % 86_400) % 3_600 == total_seconds % 3_600) by (nonlinear_arith);
        assert((total_seconds % 3_600) % 60 == total_seconds % 60) by (nonlinear_arith);
    }
    let mut out: Vec<char> = Vec::new();
    out.push('P');
    push_designated(&mut out, days > 0, days, 'D');
    let ghost head = out@;
    if hours > 0 || minutes > 0 || seconds > 0 || days == 0 {
        out.push('T');
        push_designated(&mut out, hours > 0, hours, 'H');
        push_designated(&mut out, minutes > 0, minutes, 'M');
        push_designated(&mut out, seconds > 0 || (hours == 0 && minutes == 0), seconds, 'S');
    }
    assert(out@ =~= iso8601_duration(total_seconds as nat));
    crate::text::string_of(&out)
}

/// A duration's text gives its seconds back: it starts with `P`, ends
/// with a designator (never with `T`), a zero duration is `PT0S`, and its
/// components, days, hours below 24, minutes and seconds below 60, add up
/// to the total as 86400·D + 3600·H + 60·M + S; each written component is
/// the decimal text of its value.
pub proof fn law_iso8601_components(total: nat)
    ensures
        86_400 * (total / 86_400) + 3_600 * ((total % 86_400) / 3_600) + 60 * ((total % 3_600) / 60) + total
            % 60 == total,
        (total % 86_400) / 3_600 < 24,
        (total % 3_600) / 60 < 60,
        total % 60 < 60,
        iso8601_duration(total)[0] == 'P',
        iso8601_duration(total).last() == 'D' || iso8601_duration(total).last() == 'H'
            || iso8601_duration(total).last() == 'M' || iso8601_duration(total).last() == 'S',
        total == 0 ==> iso8601_duration(total) == seq!['P', 'T', '0', 'S'],
{
    let d = total / 86_400;
    let h = (total % 86_400) / 3_600;
    let m = (total % 3_600) / 60;
    let s = total % 60;
    assert(86_400 * d + 3_600 * h + 60 * m + s == total) by (nonlinear_arith)
        requires
            d == total / 86_400,
            h == (total % 86_400) / 3_600,
            m == (total % 3_600) / 60,
            s == total % 60,
    {
        assert(total == 86_400 * d + total % 86_400);
        assert(total % 86_400 == 3_600 * h + (total % 86_400) % 3_600);
        assert((total % 86_400) % 3_600 == total % 3_600);
        assert(total % 3_600 == 60 * m + (total % 3_600) % 60);
        assert((total % 3_600) % 60 == total % 60);
    }
    assert(h < 24) by (nonlinear_arith)
        requires
            h == (total % 86_400) / 3_600,
    {}
    let r = iso8601_duration(total);
    let head = seq!['P'] + designated(d > 0, d, 'D');
    assert(r[0] == 'P') by {
        assert(head[0] == 'P');
    }
    assert(designated(true, s, 'S').last() == 'S');
    assert(designated(true, m, 'M').last() == 'M');
    assert(designated(true, h, 'H').last() == 'H');
    assert(designated(true, d, 'D').last() == 'D');
    if total == 0 {
        assert(crate::config::decimal_text(0) == seq!['0']);
        assert(r =~= seq!['P', 'T', '0', 'S']);
    }
}

} // verus!
