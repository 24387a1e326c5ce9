//! Instants in time, read from and written as RFC 3339 text through chrono.
use vstd::prelude::*;

verus! {

/// Nanoseconds in one day.
pub const NANOS_PER_DAY: i128 = 86_400_000_000_000;

/// Seconds in one day.
pub const SECONDS_PER_DAY: i64 = 86_400;

/// An instant: whole seconds since the Unix epoch and the nanoseconds past
/// that second.
#[derive(Clone, Copy, Debug, PartialEq, Eq, Structural)]
pub struct Timestamp {
    pub secs: i64,
    pub nanos: u32,
}

/// The instant that chrono reads from an RFC 3339 text, as seconds and
/// nanoseconds since the epoch; `None` where the text is not RFC 3339.
pub uninterp spec fn rfc3339_instant(s: Seq<char>) -> Option<(i64, u32)>;

/// The RFC 3339 text that chrono writes for an instant in UTC; `None` where
/// the instant lies outside chrono's range.
pub uninterp spec fn rfc3339_text(secs: i64, nanos: u32) -> Option<Seq<char>>;

pub open spec fn instant_of(s: Seq<char>) -> Option<Timestamp> {
    match rfc3339_instant(s) {
        Some((secs, nanos)) => Some(Timestamp { secs, nanos }),
        None => None,
    }
}

/// Nanoseconds since the epoch.
pub open spec fn total_nanos(t: Timestamp) -> int {
    t.secs * 1_000_000_000 + t.nanos
}

pub open spec fn not_after(a: Timestamp, b: Timestamp) -> bool {
    total_nanos(a) <= total_nanos(b)
}

/// Whole days from `earlier` to `later`, and `0` where `later` does not come
/// after `earlier`.
pub open spec fn days_between(later: Timestamp, earlier: Timestamp) -> int {
    let d = total_nanos(later) - total_nanos(earlier);
    if d <= 0 {
        0
    } else {
        d / NANOS_PER_DAY as int
    }
}

/// Relies on chrono's `DateTime::parse_from_rfc3339`, `timestamp` and
/// `timestamp_subsec_nanos`: the instant that an RFC 3339 text denotes.
#[verifier::external_body]
pub(crate) fn parse_rfc3339(s: &str) -> (r: Option<Timestamp>)
    ensures
        r is Some <==> rfc3339_instant(s@) is Some,
        r is Some ==> rfc3339_instant(s@) == Some((r->Some_0.secs, r->Some_0.nanos)),
{
    match chrono::DateTime::parse_from_rfc3339(s) {
        Ok(dt) => Some(Timestamp { secs: dt.timestamp(), nanos: dt.timestamp_subsec_nanos() }),
        Err(_) => None,
    }
}

/// Relies on chrono's `DateTime::from_timestamp` and `to_rfc3339`: the RFC 3339
/// text of an instant in UTC.
#[verifier::external_body]
pub(crate) fn format_rfc3339(t: Timestamp) -> (r: Option<String>)
    ensures
        match r {
            Some(s) => rfc3339_text(t.secs, t.nanos) == Some(s@),
            None => rfc3339_text(t.secs, t.nanos) is None,
        },
{
    chrono::DateTime::from_timestamp(t.secs, t.nanos).map(|dt| dt.to_rfc3339())
}

/// Whole days from `earlier` to `later`, floored at zero.
pub fn days_since(later: Timestamp, earlier: Timestamp) -> (r: u64)
    ensures
        r == days_between(later, earlier),
{
    let a: i128 = later.secs as i128 * 1_000_000_000 + later.nanos as i128;
    let b: i128 = earlier.secs as i128 * 1_000_000_000 + earlier.nanos as i128;
    let d: i128 = a - b;
    if d <= 0 {
        0
    } else {
        assert(d / NANOS_PER_DAY < 0x1_0000_0000_0000_0000) by (nonlinear_arith)
            requires d <= 0x1_0000_0000_0000_0000 * 1_000_000_000 * 2, d > 0;
        (d / NANOS_PER_DAY) as u64
    }
}

/// Whether `a` comes no later than `b`.
pub fn is_not_after(a: Timestamp, b: Timestamp) -> (r: bool)
    ensures
        r == not_after(a, b),
{
    let x: i128 = a.secs as i128 * 1_000_000_000 + a.nanos as i128;
    let y: i128 = b.secs as i128 * 1_000_000_000 + b.nanos as i128;
    x <= y
}

/// The instant `days` whole days after `t`; `None` where the seconds overflow.
pub fn add_days(t: Timestamp, days: u64) -> (r: Option<Timestamp>)
    ensures
        match r {
            Some(u) => u.nanos == t.nanos && u.secs == t.secs + days * SECONDS_PER_DAY,
            None => !(i64::MIN <= t.secs + days * SECONDS_PER_DAY <= i64::MAX),
        },
{
    if days > 213_503_982_334_602 {
        assert(days * SECONDS_PER_DAY > 0x1_0000_0000_0000_0000) by (nonlinear_arith)
            requires days > 213_503_982_334_602u64, SECONDS_PER_DAY == 86_400i64;
        return None;
    }
    assert(days * SECONDS_PER_DAY <= 0x2_0000_0000_0000_0000) by (nonlinear_arith)
        requires days <= 213_503_982_334_602u64, SECONDS_PER_DAY == 86_400i64;
    let delta: i128 = days as i128 * SECONDS_PER_DAY as i128;
    let s: i128 = t.secs as i128 + delta;
    if s > i64::MAX as i128 {
        None
    } else {
        Some(Timestamp { secs: s as i64, nanos: t.nanos })
    }
}

} // verus!
