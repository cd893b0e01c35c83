//! Time: the clock, and the two ways a moment is written out, as a date in
//! words and as the date form IMAP searches take.
use vstd::prelude::*;
use crate::UtcTime;

verus! {

/// The current moment, by chrono's `Utc::now()`, as its `timestamp()` and
/// `timestamp_subsec_nanos()`. Nothing is claimed of the value: it is the
/// clock's.
#[verifier::external_body]
pub(crate) fn now_utc() -> UtcTime {
    let now = chrono::Utc::now();
    UtcTime { secs: now.timestamp(), nanos: now.timestamp_subsec_nanos() }
}

/// What chrono writes for the UTC moment `ts` (seconds since the epoch) in
/// the form "%B %-e, %Y", such as "March 4, 2025"; `None` where chrono
/// cannot represent the moment.
pub uninterp spec fn long_date_of(ts: i64) -> Option<Seq<char>>;

/// The UTC date of `ts` in words, by chrono's `DateTime::from_timestamp` and
/// `format("%B %-e, %Y")`. Claimed: the result is a function of `ts` alone
/// (`long_date_of`), `None` exactly where `from_timestamp` gives `None`.
#[verifier::external_body]
pub(crate) fn long_date(ts: i64) -> (r: Option<String>)
    ensures
        match r {
            Some(s) => long_date_of(ts) == Some(s@),
            None => long_date_of(ts) is None,
        },
{
    chrono::DateTime::from_timestamp(ts, 0).map(|d| d.format("%B %-e, %Y").to_string())
}

/// What chrono writes for the UTC moment `ts` in the form "%d-%b-%Y", such as
/// "04-Mar-2025"; `None` where chrono cannot represent the moment.
pub uninterp spec fn imap_date_of(ts: i64) -> Option<Seq<char>>;

/// The UTC date of `ts` as IMAP searches write it, by chrono's
/// `DateTime::from_timestamp` and `format("%d-%b-%Y")`. Claimed: the result
/// is a function of `ts` alone (`imap_date_of`).
#[verifier::external_body]
pub(crate) fn imap_date(ts: i64) -> (r: Option<String>)
    ensures
        match r {
            Some(s) => imap_date_of(ts) == Some(s@),
            None => imap_date_of(ts) is None,
        },
{
    chrono::DateTime::from_timestamp(ts, 0).map(|d| d.format("%d-%b-%Y").to_string())
}

} // verus!

verus! {

/// The moments whose RFC 3339 text chrono reads back as the same moment: a
/// year from 0 to 9999 (written with four digits) and no leap second.
pub open spec fn ordinary_time(secs: i64, nanos: u32) -> bool {
    -62167219200 <= secs <= 253402300799 && nanos < 1_000_000_000
}

/// What chrono's `to_rfc3339` writes for the UTC moment `secs` seconds and
/// `nanos` nanoseconds after the epoch, such as
/// "2025-03-04T08:00:00.250+00:00"; `None` where chrono cannot represent the
/// moment.
pub uninterp spec fn rfc3339_of(secs: i64, nanos: u32) -> Option<Seq<char>>;

/// The moment, as seconds and nanoseconds past them, that chrono reads from
/// the text `s` with the format "%+" (RFC 3339); `None` where it cannot read
/// it.
pub uninterp spec fn rfc3339_moment(s: Seq<char>) -> Option<(i64, u32)>;

/// The moment `t` in RFC 3339 form, by chrono's `DateTime::from_timestamp`
/// and `to_rfc3339`. Claimed: the result is a function of the moment alone
/// (`rfc3339_of`), and an ordinary moment (see `ordinary_time`) is written,
/// and chrono's `parse_from_str` with "%+" reads the text back as the same
/// moment: `from_timestamp` accepts every such moment, and the
/// text is "YYYY-MM-DDTHH:MM:SS" with a fraction of exactly 3, 6 or 9 digits
/// where the nanoseconds are not zero, and "+00:00".
#[verifier::external_body]
pub(crate) fn rfc3339_text(t: UtcTime) -> (r: Option<String>)
    ensures
        match r {
            Some(x) => rfc3339_of(t.secs, t.nanos) == Some(x@),
            None => rfc3339_of(t.secs, t.nanos) is None,
        },
        ordinary_time(t.secs, t.nanos) ==> r is Some,
        match r {
            Some(x) => ordinary_time(t.secs, t.nanos) ==> rfc3339_moment(x@) == Some(
                (t.secs, t.nanos),
            ),
            None => true,
        },
{
    chrono::DateTime::from_timestamp(t.secs, t.nanos).map(|d| d.to_rfc3339())
}

/// Reads the moment written in `s` (RFC 3339), by chrono's
/// `DateTime::parse_from_str(s, "%+")`, `timestamp` and
/// `timestamp_subsec_nanos`. Claimed: the result is a function of `s` alone
/// (`rfc3339_moment`).
#[verifier::external_body]
pub(crate) fn parse_rfc3339(s: &str) -> (r: Option<UtcTime>)
    ensures
        match r {
            Some(t) => rfc3339_moment(s@) == Some((t.secs, t.nanos)),
            None => rfc3339_moment(s@) is None,
        },
{
    chrono::DateTime::parse_from_str(s, "%+")
        .ok()
        .map(|d| UtcTime { secs: d.timestamp(), nanos: d.timestamp_subsec_nanos() })
}

} // verus!
