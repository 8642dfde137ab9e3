//! Points in time: reading the clock and reading persisted timestamps.
use vstd::prelude::*;

use crate::text;

verus! {

/// A point on a time line: whole seconds since 1970-01-01T00:00:00 and the
/// nanoseconds within the second (above 999 999 999 during a leap second).
#[derive(Debug, Clone, Copy, PartialEq, Eq, Structural)]
pub struct Instant {
    pub secs: i64,
    pub nanos: u32,
}

/// Whether `a` lies strictly before `b`.
pub open spec fn earlier(a: Instant, b: Instant) -> bool {
    a.secs < b.secs || (a.secs == b.secs && a.nanos < b.nanos)
}

/// Whether `a` lies strictly before `b`.
pub fn is_earlier(a: &Instant, b: &Instant) -> (r: bool)
    ensures
        r == earlier(*a, *b),
{
    a.secs < b.secs || (a.secs == b.secs && a.nanos < b.nanos)
}

/// The point in time, on the UTC line, that an RFC 3339 text denotes.
pub uninterp spec fn rfc3339(text: Seq<char>) -> Option<Instant>;

/// The point in time that `text` denotes under the strftime-like format `fmt`,
/// on a line without an offset.
pub uninterp spec fn naive_time(text: Seq<char>, fmt: Seq<char>) -> Option<Instant>;

/// `chrono::DateTime::parse_from_rfc3339`: `Some` exactly for the texts that it
/// accepts, with the UTC seconds and subsecond nanoseconds of what it read.
#[verifier::external_body]
pub(crate) fn read_rfc3339(text: &str) -> (r: Option<Instant>)
    ensures
        r == rfc3339(text@),
{
    let read = chrono::DateTime::parse_from_rfc3339(text);
    read.ok().map(|d| Instant { secs: d.timestamp(), nanos: d.timestamp_subsec_nanos() })
}

/// `chrono::NaiveDateTime::parse_from_str`: `Some` exactly for the texts that it
/// accepts under `fmt`, with the seconds and subsecond nanoseconds of what it read.
#[verifier::external_body]
pub(crate) fn read_naive(text: &str, fmt: &str) -> (r: Option<Instant>)
    ensures
        r == naive_time(text@, fmt@),
{
    let read = chrono::NaiveDateTime::parse_from_str(text, fmt);
    read.ok().map(|n| n.and_utc()).map(
        |d| Instant { secs: d.timestamp(), nanos: d.timestamp_subsec_nanos() },
    )
}

/// How many seconds an offset from UTC stays below, either way.
pub const DAY: i64 = 86_400;

/// Whether a clock in some time zone can show `naive` at the point in time `i`:
/// an offset shifts it by whole seconds, and by less than a day.
pub open spec fn may_show(naive: Instant, i: Instant) -> bool {
    naive.secs - DAY < i.secs < naive.secs + DAY && i.nanos == naive.nanos
}

/// `chrono::Local.from_local_datetime(..).single()`: the point in time at which a
/// clock on this machine shows `naive`, where there is exactly one. Which one it
/// is, and whether there is one, depends on the time zone of the machine; in all
/// of them it lies less than a day from `naive`, at the same fraction of a second.
#[verifier::external_body]
pub(crate) fn local_instant(naive: Instant) -> (r: Option<Instant>)
    ensures
        r matches Some(i) ==> may_show(naive, i),
{
    let shown = chrono::DateTime::from_timestamp(naive.secs, naive.nanos)?.naive_utc();
    let d = chrono::TimeZone::from_local_datetime(&chrono::Local, &shown).single()?;
    Some(Instant { secs: d.timestamp(), nanos: d.timestamp_subsec_nanos() })
}

/// Whether `s` ends in an offset from UTC in hours and minutes, such as `-08:00`.
pub open spec fn ends_in_offset(s: Seq<char>) -> bool {
    let n = s.len() as int;
    &&& n >= 6
    &&& s[n - 6] == '+' || s[n - 6] == '-'
    &&& text::is_digit(s[n - 5]) && text::is_digit(s[n - 4])
    &&& s[n - 3] == ':'
    &&& text::is_digit(s[n - 2]) && text::is_digit(s[n - 1])
}

/// Whether `s` begins with a date and a time to the second, such as
/// `1996-12-19T16:39:57`.
pub open spec fn begins_with_time(s: Seq<char>) -> bool {
    &&& s.len() >= 19
    &&& forall|i: int|
        0 <= i < 19 ==> if i == 4 || i == 7 {
            #[trigger] s[i] == '-'
        } else if i == 10 {
            s[i] == 'T'
        } else if i == 13 || i == 16 {
            s[i] == ':'
        } else {
            text::is_digit(s[i])
        }
}

/// Whether `s` is a timestamp as the clock gives them: with an offset and, where
/// the year has four digits and no sign, a date and a time that are read back as
/// RFC 3339 unless the offset is a whole day.
pub open spec fn is_stamp(s: Seq<char>) -> bool {
    &&& s.len() >= 25
    &&& ends_in_offset(s)
    &&& text::is_digit(s[0]) ==> begins_with_time(s)
    &&& text::is_digit(s[0]) && !(s[s.len() - 5] == '2' && s[s.len() - 4] == '4') ==> rfc3339(
        s,
    ) is Some
}

/// The current timestamp in RFC 3339 with a UTC offset
/// (`chrono::Local::now().to_rfc3339()`). Which one it is depends on the clock
/// and the time zone. Whatever they are, the text ends in an offset of hours and
/// minutes. A year from 0 to 9999 is written in four digits, any other with a
/// sign; with four digits the date and the time follow in their fixed places, and
/// `chrono::DateTime::parse_from_rfc3339` accepts the text, unless the offset,
/// rounded to minutes, is the 24 hours that it does not take.
///
/// Legacy records may carry naive local timestamps (`YYYY-MM-DDTHH:MM:SS`);
/// those are preserved as they are, never rewritten with an invented offset.
#[verifier::external_body]
pub fn now_ts() -> (r: String)
    ensures
        is_stamp(r@),
{
    chrono::Local::now().to_rfc3339()
}

/// The format of the stamp that names a backup folder.
pub const STAMP_FORMAT: &'static str = "%Y%m%d-%H%M%S";

/// Whether `s` names a moment as [`STAMP_FORMAT`] does: the year, in four digits or
/// with a sign, the month, the day, a dash, and the hour, minute and second.
pub open spec fn names_moment(s: Seq<char>) -> bool {
    let n = s.len() as int;
    &&& n >= 15
    &&& s[n - 7] == '-'
    &&& forall|i: int| n - 6 <= i < n ==> text::is_digit(#[trigger] s[i])
    &&& forall|i: int| n - 11 <= i < n - 7 ==> text::is_digit(#[trigger] s[i])
    &&& forall|i: int| 1 <= i < n - 11 ==> text::is_digit(#[trigger] s[i])
    &&& text::is_digit(s[0]) || s[0] == '+' || s[0] == '-'
}

/// `chrono::Local::now().format(fmt)`: the current local time under a format.
/// Which one it is depends on the clock; under [`STAMP_FORMAT`] each part has its
/// fixed number of digits, but for a year outside 0 to 9999, which has a sign and
/// as many digits as it needs.
#[verifier::external_body]
pub(crate) fn now_as(fmt: &str) -> (r: String)
    requires
        fmt@ == STAMP_FORMAT@,
    ensures
        names_moment(r@),
{
    chrono::Local::now().format(fmt).to_string()
}

} // verus!
