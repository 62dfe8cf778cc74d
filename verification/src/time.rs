use vstd::prelude::*;

verus! {

/// Timestamps are modelled as microseconds since the Unix epoch.
///
/// Any timestamp obtained from parsing an RFC 3339 string lies in this
/// range: the format carries a four-digit year and an offset of at most
/// 24 hours, so the value stays well inside these (generous) bounds.
/// The range is in turn far inside the span of datetimes that chrono can
/// represent, so a timestamp in range can always be formatted back.
pub const MIN_RFC3339_MICROS: i64 = -62_200_000_000_000_000;

pub const MAX_RFC3339_MICROS: i64 = 253_500_000_000_000_000;

pub open spec fn ts_in_range(t: int) -> bool {
    MIN_RFC3339_MICROS as int <= t <= MAX_RFC3339_MICROS as int
}

pub open spec fn opt_ts_in_range(o: Option<int>) -> bool {
    match o {
        Some(t) => ts_in_range(t),
        None => true,
    }
}

pub open spec fn opt_int(o: Option<i64>) -> Option<int> {
    match o {
        Some(t) => Some(t as int),
        None => None,
    }
}

pub fn ts_in_range_exec(t: i64) -> (b: bool)
    ensures
        b == ts_in_range(t as int),
{
    MIN_RFC3339_MICROS <= t && t <= MAX_RFC3339_MICROS
}

pub fn opt_ts_in_range_exec(o: &Option<i64>) -> (b: bool)
    ensures
        b == opt_ts_in_range(opt_int(*o)),
{
    match o {
        Some(t) => ts_in_range_exec(*t),
        None => true,
    }
}

/// The timestamp denoted by an RFC 3339 string, or `None` where the
/// string does not parse; a function of the characters alone.
pub uninterp spec fn rfc3339_micros_of(s: Seq<char>) -> Option<int>;

/// The canonical RFC 3339 rendering (UTC offset, `+00:00` suffix) of a
/// timestamp in range; a function of the timestamp alone.
pub uninterp spec fn rfc3339_text_of(t: int) -> Seq<char>;

/// Relies on chrono's `DateTime::parse_from_rfc3339` and
/// `timestamp_micros`: the result depends on the input string alone, and
/// a parsed value carries a four-digit year and a bounded offset, so its
/// timestamp lies within the stated range.
#[verifier::external_body]
pub(crate) fn parse_rfc3339_micros(s: &str) -> (r: Option<i64>)
    ensures
        opt_int(r) == rfc3339_micros_of(s@),
        r is Some ==> ts_in_range(r->0 as int),
{
    chrono::DateTime::parse_from_rfc3339(s).ok().map(|dt| dt.timestamp_micros())
}

/// Relies on chrono's `DateTime::<Utc>::from_timestamp_micros` (defined
/// for every timestamp in the stated range) and `to_rfc3339`: the
/// rendered text depends on the timestamp alone.
#[verifier::external_body]
pub(crate) fn format_rfc3339_micros(t: i64) -> (r: Option<String>)
    ensures
        ts_in_range(t as int) ==> r is Some,
        r is Some ==> r->0@ == rfc3339_text_of(t as int),
{
    chrono::DateTime::<chrono::Utc>::from_timestamp_micros(t).map(|dt| dt.to_rfc3339())
}

} // verus!
