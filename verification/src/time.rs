//! Conversion of X.509 validity times to Unix-epoch seconds.
//!
//! A validity time arrives as a broken-down UTC instant (year, month, day,
//! hour, minute, second) together with the ASN.1 form it was encoded in
//! (UTCTime or GeneralizedTime). The conversion to an epoch integer is the
//! classic civil-calendar day count; it reads only the calendar fields, so
//! the two encodings of one instant yield one integer.

use vstd::prelude::*;

verus! {

/// A broken-down UTC instant, as decoded from a certificate's validity
/// field. `utc_form` records whether the ASN.1 encoding was UTCTime
/// (two-digit year, already widened per RFC 5280) or GeneralizedTime.
#[derive(Clone, Copy, Debug, PartialEq, Eq, Structural)]
pub struct TimeParts {
    pub utc_form: bool,
    pub year: i64,
    pub month: u8,
    pub day: u8,
    pub hour: u8,
    pub minute: u8,
    pub second: u8,
}

/// The calendar fields this conversion accepts: years of at most four
/// digits and fields within their calendar ranges. (A day of 29..=31 is
/// accepted for every month; the day count is monotone regardless.)
pub open spec fn parts_in_range(p: TimeParts) -> bool {
    &&& 1 <= p.year <= 9999
    &&& 1 <= p.month <= 12
    &&& 1 <= p.day <= 31
    &&& p.hour <= 23
    &&& p.minute <= 59
    &&& p.second <= 59
}

/// Days from 1970-01-01 to the civil date y-m-d, by era (400-year cycle)
/// counting; the standard `days_from_civil` computation.
pub open spec fn spec_days_from_civil(y: int, m: int, d: int) -> int {
    let yy = if m <= 2 { y - 1 } else { y };
    let era = yy / 400;
    let yoe = yy - era * 400;
    let mp = if m > 2 { m - 3 } else { m + 9 };
    let doy = (153 * mp + 2) / 5 + d - 1;
    let doe = yoe * 365 + yoe / 4 - yoe / 100 + doy;
    era * 146097 + doe - 719468
}

/// Seconds from the Unix epoch to the instant `p`, for in-range parts.
pub open spec fn spec_epoch_of(p: TimeParts) -> int {
    spec_days_from_civil(p.year as int, p.month as int, p.day as int) * 86400
        + p.hour * 3600 + p.minute * 60 + p.second
}

/// Computes the Unix-epoch second of a broken-down instant, rejecting
/// fields outside their calendar ranges.
pub fn epoch_of_parts(p: &TimeParts) -> (r: Result<i64, crate::error::ErrorReason>)
    ensures
        r matches Ok(e) ==> parts_in_range(*p) && e == spec_epoch_of(*p),
        r is Err <==> !parts_in_range(*p),
        r matches Err(e) ==> e matches crate::error::ErrorReason::CertificateParse,
{
    if !(1 <= p.year && p.year <= 9999 && 1 <= p.month && p.month <= 12
        && 1 <= p.day && p.day <= 31 && p.hour <= 23 && p.minute <= 59 && p.second <= 59) {
        return Err(crate::error::ErrorReason::CertificateParse);
    }
    let yy: u64 = if p.month <= 2 { (p.year - 1) as u64 } else { p.year as u64 };
    let era: u64 = yy / 400;
    let yoe: u64 = yy - era * 400;
    let mp: u64 = if p.month > 2 { (p.month - 3) as u64 } else { (p.month + 9) as u64 };
    let doy: u64 = (153 * mp + 2) / 5 + (p.day - 1) as u64;
    let doe: u64 = yoe * 365 + yoe / 4 - yoe / 100 + doy;
    let civil: u64 = era * 146097 + doe;
    let days: i64 = civil as i64 - 719468;
    let secs: i64 = days * 86400
        + (p.hour as i64) * 3600 + (p.minute as i64) * 60 + (p.second as i64);
    proof {
        assert(yy == if p.month <= 2 { p.year - 1 } else { p.year as int });
        assert(era == yy as int / 400);
        assert(days == spec_days_from_civil(p.year as int, p.month as int, p.day as int));
    }
    Ok(secs)
}

/// The epoch integer depends on the calendar fields alone: a UTCTime and a
/// GeneralizedTime that denote the same instant convert to the same value.
pub proof fn lemma_epoch_ignores_time_form(u: TimeParts, g: TimeParts)
    requires
        u.utc_form,
        !g.utc_form,
        u.year == g.year,
        u.month == g.month,
        u.day == g.day,
        u.hour == g.hour,
        u.minute == g.minute,
        u.second == g.second,
    ensures
        spec_epoch_of(u) == spec_epoch_of(g),
{
}

} // verus!
