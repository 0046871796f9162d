//! Moments in time as the reports show them. The calendar arithmetic is the
//! `time` crate's; what is written around it is this library's.

use vstd::prelude::*;

use crate::model::Timestamp;
use crate::text::{dec, push_char, push_str};

verus! {

/// The calendar date (year, month, day) of a moment in its own UTC offset,
/// as the `time` crate computes it; `None` where the offset or the local
/// date is outside what the crate can represent.
pub uninterp spec fn local_calendar_date(unix_nanos: int, offset_secs: int) -> Option<(i32, u8, u8)>;

/// `OffsetDateTime::from_unix_timestamp_nanos`, `UtcOffset::from_whole_seconds`,
/// `checked_to_offset`, then `to_calendar_date`.
#[verifier::external_body]
fn calendar_date(at: Timestamp) -> (r: Option<(i32, u8, u8)>)
    ensures
        r == local_calendar_date(at.unix_nanos as int, at.offset_secs as int),
        r matches Some((y, m, d)) ==> -9999 <= y <= 9999 && 1 <= m <= 12 && 1 <= d <= 31,
{
    let t = match time::OffsetDateTime::from_unix_timestamp_nanos(at.unix_nanos) {
        Ok(t) => t,
        Err(_) => return None,
    };
    let offset = match time::UtcOffset::from_whole_seconds(at.offset_secs) {
        Ok(o) => o,
        Err(_) => return None,
    };
    match t.checked_to_offset(offset) {
        Some(local) => {
            let (y, m, d) = local.to_calendar_date();
            Some((y, u8::from(m), d))
        },
        None => None,
    }
}

/// The RFC 3339 text of a moment in its own UTC offset, as the `time` crate
/// writes it.
pub uninterp spec fn rfc3339_text(unix_nanos: int, offset_secs: int) -> Seq<char>;

/// `OffsetDateTime::format` with the RFC 3339 description, in the moment's
/// own offset (falling back to the moment's `Display` text should formatting
/// fail); empty for a moment or offset the `time` crate cannot represent.
#[verifier::external_body]
pub(crate) fn rfc3339(at: Timestamp) -> (r: String)
    ensures
        r@ == rfc3339_text(at.unix_nanos as int, at.offset_secs as int),
{
    let t = match time::OffsetDateTime::from_unix_timestamp_nanos(at.unix_nanos) {
        Ok(t) => t,
        Err(_) => return String::new(),
    };
    let offset = match time::UtcOffset::from_whole_seconds(at.offset_secs) {
        Ok(o) => o,
        Err(_) => return String::new(),
    };
    match t.checked_to_offset(offset) {
        Some(local) => local.format(&time::format_description::well_known::Rfc3339).unwrap_or_else(|_| local.to_string()),
        None => String::new(),
    }
}

/// The moment an RFC 3339 text names, as `OffsetDateTime::parse` with the
/// `Rfc3339` description reads it: nanoseconds since the Unix epoch and the
/// UTC offset in seconds; `None` for a text it refuses.
pub uninterp spec fn rfc3339_moment(text: Seq<char>) -> Option<(int, int)>;

/// Within ±10^21 nanoseconds of the epoch: true of every moment the `time`
/// crate can represent (years -9999 to 9999).
pub open spec fn in_time_range(t: Timestamp) -> bool {
    -1_000_000_000_000_000_000_000 < t.unix_nanos < 1_000_000_000_000_000_000_000
}

/// `OffsetDateTime::parse` with `Rfc3339`, kept as a [`Timestamp`] in the
/// offset the text gives.
#[verifier::external_body]
pub(crate) fn parse_rfc3339(text: &str) -> (r: Option<Timestamp>)
    ensures
        match rfc3339_moment(text@) {
            Some((n, o)) => r matches Some(t) && t.unix_nanos == n && t.offset_secs == o,
            None => r is None,
        },
        r matches Some(t) ==> in_time_range(t),
{
    match time::OffsetDateTime::parse(text, &time::format_description::well_known::Rfc3339) {
        Ok(t) => Some(Timestamp { unix_nanos: t.unix_timestamp_nanos(), offset_secs: t.offset().whole_seconds() }),
        Err(_) => None,
    }
}

/// A number written with at least `width` digits, zero-padded.
pub open spec fn padded(n: nat, width: nat) -> Seq<char>
    decreases width,
{
    if dec(n).len() >= width || width == 0 {
        dec(n)
    } else {
        seq!['0'] + padded(n, (width - 1) as nat)
    }
}

fn push_padded(out: &mut String, n: u64, width: usize)
    ensures
        final(out)@ == old(out)@ + padded(n as nat, width as nat),
    decreases width,
{
    let digits = crate::text::dec_chars(n);
    if digits.len() >= width || width == 0 {
        crate::text::push_chars(out, &digits);
    } else {
        push_char(out, '0');
        push_padded(out, n, width - 1);
        assert(out@ =~= old(out)@ + padded(n as nat, width as nat));
    }
}

/// `[year]-[month]-[day]`: the year zero-padded to four digits (signed when
/// negative), month and day to two.
pub open spec fn ymd_text(y: i32, m: u8, d: u8) -> Seq<char> {
    (if y < 0 { seq!['-'] + padded((-y) as nat, 4) } else { padded(y as nat, 4) })
        + "-"@ + padded(m as nat, 2) + "-"@ + padded(d as nat, 2)
}

pub open spec fn date_text(at: Timestamp) -> Seq<char> {
    match local_calendar_date(at.unix_nanos as int, at.offset_secs as int) {
        Some((y, m, d)) => ymd_text(y, m, d),
        None => seq![],
    }
}

/// The date of a moment in its own UTC offset as `YYYY-MM-DD`; empty for a
/// moment outside the representable years.
pub fn local_date(at: Timestamp) -> (r: String)
    ensures
        r@ == date_text(at),
{
    let mut date = String::new();
    match calendar_date(at) {
        Some((y, m, d)) => {
            if y < 0 {
                push_char(&mut date, '-');
                push_padded(&mut date, (-(y as i64)) as u64, 4);
            } else {
                push_padded(&mut date, y as u64, 4);
            }
            push_str(&mut date, "-");
            push_padded(&mut date, m as u64, 2);
            push_str(&mut date, "-");
            push_padded(&mut date, d as u64, 2);
            assert(date@ =~= ymd_text(y, m, d));
        },
        None => {
            assert(date@ =~= seq![]);
        },
    }
    date
}

} // verus!
