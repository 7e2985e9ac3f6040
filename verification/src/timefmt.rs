//! Calendar and clock formatting: message timestamps rendered as "Today",
//! "Yesterday" or a date, and the host's uptime rendered in days, hours and
//! minutes. What only the time-zone database can answer — which local
//! calendar day an instant falls on — is asked of the outside crate; every
//! decision taken on the answer is verified.
use crate::strutil::{all_digits, ascii_chars_of, ascii_to_string, dec_bytes, dec_value};
use vstd::prelude::*;
use vstd::string::StringSliceAdditionalSpecFns;

verus! {

/// A local calendar date and time of day.
#[derive(PartialEq, Eq, Structural, Clone, Copy, Debug)]
pub struct DateParts {
    pub year: i32,
    pub month: u8,
    pub day: u8,
    pub hour: u8,
    pub minute: u8,
}

/// Relies on `chrono::DateTime::from_timestamp_millis` and `chrono::Local`:
/// the local calendar date and time of day of an instant. The time zone
/// comes from the environment, so only the documented field ranges are
/// assumed of the result; chrono confines dates to years within about
/// ±262144 of the common era.
#[verifier::external_body]
pub(crate) fn local_date_parts(millis: i64) -> (r: DateParts)
    ensures
        1 <= r.month <= 12,
        1 <= r.day <= 31,
        r.hour < 24,
        r.minute < 60,
        -262144 <= r.year <= 262144,
{
    let utc = chrono::DateTime::<chrono::Utc>::from_timestamp_millis(millis).unwrap_or(
        chrono::DateTime::<chrono::Utc>::UNIX_EPOCH,
    );
    let local = utc.with_timezone(&chrono::Local);
    DateParts {
        year: chrono::Datelike::year(&local),
        month: chrono::Datelike::month(&local) as u8,
        day: chrono::Datelike::day(&local) as u8,
        hour: chrono::Timelike::hour(&local) as u8,
        minute: chrono::Timelike::minute(&local) as u8,
    }
}

/// The instant (milliseconds since the epoch) an RFC 3339 timestamp names,
/// if the string is one; a function of the characters alone.
pub uninterp spec fn rfc3339_millis_of(s: Seq<char>) -> Option<i64>;

/// Relies on `chrono::DateTime::parse_from_rfc3339`: whether a string is a
/// valid RFC 3339 timestamp, and which instant it names, depend on the
/// characters alone.
#[verifier::external_body]
pub(crate) fn parse_rfc3339_millis(s: &str) -> (r: Option<i64>)
    ensures
        r == rfc3339_millis_of(s@),
{
    chrono::DateTime::parse_from_rfc3339(s).ok().map(|dt| dt.timestamp_millis())
}

/// The timestamp a stored record row yields: the parsed RFC 3339 instant,
/// or the current instant when the stored text does not parse.
pub open spec fn spec_row_timestamp(ts: Seq<char>, now_millis: i64) -> i64 {
    match rfc3339_millis_of(ts) {
        Some(t) => t,
        None => now_millis,
    }
}

/// Builds a message record from the fields a log row holds.
pub fn message_from_row(
    id: i64,
    author: String,
    content: String,
    timestamp: &str,
    now_millis: i64,
) -> (r: crate::messages::Message)
    ensures
        r.id == id,
        r.author == author,
        r.content == content,
        r.timestamp_millis == spec_row_timestamp(timestamp@, now_millis),
{
    let ts = match parse_rfc3339_millis(timestamp) {
        Some(t) => t,
        None => now_millis,
    };
    crate::messages::Message { id, author, content, timestamp_millis: ts }
}

/// The line shown beside a message: its instant and the current instant,
/// both taken to the local calendar, rendered by [`format_timestamp`].
pub fn smart_timestamp_line(ts_millis: i64, now_millis: i64) -> (r: String)
    ensures
        exists|msg: DateParts, today: DateParts| r@ == spec_smart_timestamp(msg, today),
{
    let msg = local_date_parts(ts_millis);
    let today = local_date_parts(now_millis);
    format_timestamp(msg, today)
}

/// The two ASCII digits of `n`, zero-padded.
pub open spec fn two_digits(n: u8) -> Seq<char> {
    seq![((48 + n / 10) as u8) as char, ((48 + n % 10) as u8) as char]
}

fn push_two_digits(n: u8, out: &mut Vec<u8>)
    requires
        n < 100,
    ensures
        final(out)@ == old(out)@ + seq![(48 + n / 10) as u8, (48 + n % 10) as u8],
{
    out.push(48 + n / 10);
    out.push(48 + n % 10);
    assert(out@ =~= old(out)@ + seq![(48 + n / 10) as u8, (48 + n % 10) as u8]);
}

/// `HH:MM`, zero-padded, as the message timestamps spell the time of day.
pub open spec fn spec_clock(hour: u8, minute: u8) -> Seq<char> {
    two_digits(hour) + seq![':'] + two_digits(minute)
}

pub fn format_clock(hour: u8, minute: u8) -> (r: String)
    requires
        hour < 100,
        minute < 100,
    ensures
        r@ == spec_clock(hour, minute),
{
    let mut buf: Vec<u8> = Vec::new();
    push_two_digits(hour, &mut buf);
    buf.push(58);
    push_two_digits(minute, &mut buf);
    let r = ascii_to_string(&buf);
    proof {
        assert(r@ =~= spec_clock(hour, minute));
    }
    r
}

pub open spec fn is_leap_year(y: int) -> bool {
    y % 4 == 0 && (y % 100 != 0 || y % 400 == 0)
}

/// Days in a month of the proleptic Gregorian calendar.
pub open spec fn days_in_month(y: int, m: int) -> int {
    if m == 2 {
        if is_leap_year(y) {
            29
        } else {
            28
        }
    } else if m == 4 || m == 6 || m == 9 || m == 11 {
        30
    } else {
        31
    }
}

/// Whether `a` names the calendar day immediately before `b`.
pub open spec fn is_prev_day(a: DateParts, b: DateParts) -> bool {
    if b.day > 1 {
        a.year == b.year && a.month == b.month && a.day == b.day - 1
    } else if b.month > 1 {
        a.year == b.year && a.month == b.month - 1 && a.day == days_in_month(
            b.year as int,
            b.month as int - 1,
        )
    } else {
        a.year == b.year - 1 && a.month == 12 && a.day == 31
    }
}

pub open spec fn same_day(a: DateParts, b: DateParts) -> bool {
    a.year == b.year && a.month == b.month && a.day == b.day
}

/// The decimal spelling of a signed number.
pub open spec fn dec_chars_signed(n: int) -> Seq<char> {
    if n < 0 {
        seq!['-'] + ascii_chars_of(dec_bytes((-n) as nat))
    } else {
        ascii_chars_of(dec_bytes(n as nat))
    }
}

/// The `String` spelling `n` in decimal.
pub fn i64_to_string(n: i64) -> (r: String)
    requires
        n > i64::MIN,
    ensures
        r@ == dec_chars_signed(n as int),
{
    if n < 0 {
        let mut buf: Vec<u8> = Vec::new();
        buf.push(45);
        let m = (-n) as u64;
        crate::strutil::push_dec(m, &mut buf);
        proof {
            crate::strutil::lemma_dec_bytes_ascii(m as nat);
            assert(buf@ =~= seq![45u8] + dec_bytes(m as nat));
            assert(ascii_chars_of(buf@) =~= dec_chars_signed(n as int));
        }
        ascii_to_string(&buf)
    } else {
        let r = crate::strutil::u64_to_string(n as u64);
        r
    }
}

/// How a message timestamp is shown next to the message: the time of day
/// prefixed with "Today" or "Yesterday" when the local calendar allows it,
/// and with the year and month otherwise.
pub open spec fn spec_smart_timestamp(msg: DateParts, today: DateParts) -> Seq<char> {
    let clock = spec_clock(msg.hour, msg.minute);
    if same_day(msg, today) {
        "Today, "@ + clock
    } else if is_prev_day(msg, today) {
        "Yesterday, "@ + clock
    } else {
        dec_chars_signed(msg.year as int) + "-"@ + two_digits(msg.month) + ", "@ + clock
    }
}

/// Formats a message's local date and time against today's local date.
pub fn format_timestamp(msg: DateParts, today: DateParts) -> (r: String)
    requires
        msg.hour < 100,
        msg.minute < 100,
        msg.month < 100,
        msg.year > i32::MIN,
    ensures
        r@ == spec_smart_timestamp(msg, today),
{
    let clock = format_clock(msg.hour, msg.minute);
    let mut out = String::new();
    if msg.year == today.year && msg.month == today.month && msg.day == today.day {
        out.append("Today, ");
        out.append(clock.as_str());
        proof {
            assert(out@ =~= spec_smart_timestamp(msg, today));
        }
        out
    } else {
        let prev = if today.day > 1 {
            msg.year == today.year && msg.month == today.month && msg.day == today.day - 1
        } else if today.month > 1 {
            let dim = days_in_month_exec(today.year, today.month - 1);
            msg.year == today.year && msg.month == today.month - 1 && msg.day == dim
        } else {
            (msg.year as i64) == (today.year as i64) - 1 && msg.month == 12 && msg.day == 31
        };
        if prev {
            out.append("Yesterday, ");
            out.append(clock.as_str());
            proof {
                assert(out@ =~= spec_smart_timestamp(msg, today));
            }
            out
        } else {
            let year = i64_to_string(msg.year as i64);
            let mut buf: Vec<u8> = Vec::new();
            push_two_digits(msg.month, &mut buf);
            let month = ascii_to_string(&buf);
            out.append(year.as_str());
            out.append("-");
            out.append(month.as_str());
            out.append(", ");
            out.append(clock.as_str());
            proof {
                assert(out@ =~= spec_smart_timestamp(msg, today));
            }
            out
        }
    }
}

fn days_in_month_exec(y: i32, m: u8) -> (r: u8)
    ensures
        r == days_in_month(y as int, m as int),
{
    if m == 2 {
        let leap = (y % 4 == 0) && (y % 100 != 0 || y % 400 == 0);
        if leap {
            29
        } else {
            28
        }
    } else if m == 4 || m == 6 || m == 9 || m == 11 {
        30
    } else {
        31
    }
}

/// The first whole number in the uptime file's text: the digits of its
/// first whitespace-separated token up to the decimal point, read as a
/// number, or zero when they are no number.
pub open spec fn spec_uptime_secs(b: Seq<u8>) -> int {
    let token = b.subrange(0, crate::identity::find_byte(b, 32));
    let digits = token.subrange(0, crate::identity::find_byte(token, 46));
    if digits.len() > 0 && all_digits(digits) && dec_value(digits) <= u64::MAX {
        dec_value(digits)
    } else {
        0
    }
}

/// Reads the whole seconds out of the uptime file's text.
pub fn parse_uptime_secs(s: &str) -> (r: u64)
    ensures
        r == spec_uptime_secs(s.spec_bytes()),
{
    let v = s.as_bytes();
    proof {
        crate::identity::lemma_find_byte(v@, 32);
        assert(v@.subrange(0, v@.len() as int) =~= v@);
    }
    let sp = crate::identity::find_byte_from(v, 32, 0);
    let token = crate::identity::copy_range(v, 0, sp);
    proof {
        crate::identity::lemma_find_byte(token@, 46);
        assert(token@.subrange(0, token@.len() as int) =~= token@);
    }
    let dot = crate::identity::find_byte_from(token.as_slice(), 46, 0);
    let digits = crate::identity::copy_range(token.as_slice(), 0, dot);
    match crate::strutil::parse_u64_dec(digits.as_slice()) {
        Some(n) => n,
        None => 0,
    }
}

/// The uptime line shown on the home page.
pub open spec fn spec_uptime_line(secs: u64) -> Seq<char> {
    "⏱ Host Uptime: "@ + ascii_chars_of(dec_bytes((secs as int / 86400) as nat)) + " days, "@
        + ascii_chars_of(dec_bytes(((secs as int % 86400) / 3600) as nat)) + " hours, "@
        + ascii_chars_of(dec_bytes(((secs as int % 3600) / 60) as nat)) + " minutes"@
}

/// Renders the host's uptime in days, hours and minutes.
pub fn format_uptime(secs: u64) -> (r: String)
    ensures
        r@ == spec_uptime_line(secs),
{
    let days = crate::strutil::u64_to_string(secs / 86400);
    let hours = crate::strutil::u64_to_string((secs % 86400) / 3600);
    let minutes = crate::strutil::u64_to_string((secs % 3600) / 60);
    let mut out = String::new();
    out.append("⏱ Host Uptime: ");
    out.append(days.as_str());
    out.append(" days, ");
    out.append(hours.as_str());
    out.append(" hours, ");
    out.append(minutes.as_str());
    out.append(" minutes");
    proof {
        assert(out@ =~= spec_uptime_line(secs));
    }
    out
}

} // verus!
