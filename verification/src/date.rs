//! Dates for the `Date` header: the clock stays at the edge, behind one
//! trusted wrapper, and the calendar arithmetic and IMF-fixdate rendering
//! are verified against their spec-level mirror.
//!
//! The computation is the standard era-based civil-from-days calendar: an
//! era is 400 years of 146097 days, and the year, day of year and month
//! fall out of integer divisions. The few subtractions are floored at zero
//! so the rendering is total; for clock readings inside the format's range
//! the floors never engage.

use vstd::prelude::*;

use crate::grammar::SP;
use crate::{ascii_seq, lemma_lit_bytes};

verus! {

/// The last second the four-digit year format can carry:
/// 9999-12-31 23:59:59.
pub const MAX_DATE_SECONDS: u64 = 253402300799;

/// Relies on `std::time::SystemTime::now` and `duration_since`: the
/// seconds since the Unix epoch. Of the clock's reading itself nothing is
/// promised; a clock before the epoch reads as zero.
#[verifier::external_body]
fn now_unix_seconds() -> (r: u64) {
    match std::time::SystemTime::now().duration_since(std::time::UNIX_EPOCH) {
        Ok(d) => d.as_secs(),
        Err(_) => 0,
    }
}

/// The civil date of a day count since the epoch: year, month, day.
pub open spec fn civil_of_days(days: int) -> (int, int, int) {
    let doe = days + 719468;
    let era = doe / 146097;
    let doe_e = doe % 146097;
    let num = doe_e + doe_e / 36524;
    let sub = doe_e / 1460 + doe_e / 146096;
    let yoe = if num >= sub {
        (num - sub) / 365
    } else {
        0
    };
    let ydays = 365 * yoe + yoe / 4 - yoe / 100;
    let doy = if doe_e >= ydays {
        doe_e - ydays
    } else {
        0
    };
    let mp = (5 * doy + 2) / 153;
    let md = (153 * mp + 2) / 5;
    let day = if doy + 1 >= md {
        doy + 1 - md
    } else {
        1
    };
    let month = if mp < 10 {
        mp + 3
    } else {
        mp - 9
    };
    let year = if month <= 2 {
        yoe + era * 400 + 1
    } else {
        yoe + era * 400
    };
    (year, month, day)
}

/// The three-letter weekday name; day zero of the epoch is a Thursday.
pub open spec fn weekday_name(w: int) -> Seq<char> {
    if w == 0 {
        "Sun"@
    } else if w == 1 {
        "Mon"@
    } else if w == 2 {
        "Tue"@
    } else if w == 3 {
        "Wed"@
    } else if w == 4 {
        "Thu"@
    } else if w == 5 {
        "Fri"@
    } else {
        "Sat"@
    }
}

/// The three-letter month name, for months one to twelve.
pub open spec fn month_name(m: int) -> Seq<char> {
    if m == 2 {
        "Feb"@
    } else if m == 3 {
        "Mar"@
    } else if m == 4 {
        "Apr"@
    } else if m == 5 {
        "May"@
    } else if m == 6 {
        "Jun"@
    } else if m == 7 {
        "Jul"@
    } else if m == 8 {
        "Aug"@
    } else if m == 9 {
        "Sep"@
    } else if m == 10 {
        "Oct"@
    } else if m == 11 {
        "Nov"@
    } else if m == 12 {
        "Dec"@
    } else {
        "Jan"@
    }
}

/// A non-negative number's last two decimal digits, zero-padded.
pub open spec fn two_digits(n: int) -> Seq<u8> {
    seq![(48 + (n / 10) % 10) as u8, (48 + n % 10) as u8]
}

/// A non-negative number's last four decimal digits, zero-padded.
pub open spec fn four_digits(n: int) -> Seq<u8> {
    seq![(48 + (n / 1000) % 10) as u8, (48 + (n / 100) % 10) as u8] + two_digits(n)
}

/// The IMF-fixdate rendering of a Unix timestamp, for the `Date` header:
/// `Sun, 06 Nov 1994 08:49:37 GMT`.
pub open spec fn imf_fixdate(t: int) -> Seq<u8> {
    let days = t / 86400;
    let sod = t % 86400;
    let ymd = civil_of_days(days);
    ascii_seq(weekday_name((days + 4) % 7)) + seq![44u8, SP] + two_digits(ymd.2) + seq![SP]
        + ascii_seq(month_name(ymd.1)) + seq![SP] + four_digits(ymd.0) + seq![SP] + two_digits(
        sod / 3600,
    ) + seq![58u8] + two_digits((sod % 3600) / 60) + seq![58u8] + two_digits(sod % 60) + seq![SP]
        + ascii_seq(" GMT"@).skip(1)
}

/// Appends the two-digit rendering of `n`'s last two decimal digits.
fn push_two_digits(out: &mut Vec<u8>, n: u64)
    ensures
        final(out)@ == old(out)@ + two_digits(n as int),
{
    out.push(48 + ((n / 10) % 10) as u8);
    out.push(48 + (n % 10) as u8);
    proof {
        assert(final(out)@ =~= old(out)@ + two_digits(n as int));
    }
}

/// Renders a Unix timestamp as an IMF-fixdate, exactly as
/// [`imf_fixdate`] says.
#[verifier::loop_isolation(false)]
#[verifier::rlimit(60)]
pub fn format_imf_fixdate(t: u64) -> (r: Vec<u8>)
    requires
        t <= MAX_DATE_SECONDS,
    ensures
        r@ == imf_fixdate(t as int),
{
    proof {
        reveal_strlit("Sun");
        reveal_strlit("Mon");
        reveal_strlit("Tue");
        reveal_strlit("Wed");
        reveal_strlit("Thu");
        reveal_strlit("Fri");
        reveal_strlit("Sat");
        lemma_lit_bytes("Sun");
        lemma_lit_bytes("Mon");
        lemma_lit_bytes("Tue");
        lemma_lit_bytes("Wed");
        lemma_lit_bytes("Thu");
        lemma_lit_bytes("Fri");
        lemma_lit_bytes("Sat");
    }
    let days = t / 86400;
    let sod = t % 86400;
    let mut out: Vec<u8> = Vec::new();
    let wd = (days + 4) % 7;
    if wd == 0 {
        out.extend_from_slice("Sun".as_bytes());
    } else if wd == 1 {
        out.extend_from_slice("Mon".as_bytes());
    } else if wd == 2 {
        out.extend_from_slice("Tue".as_bytes());
    } else if wd == 3 {
        out.extend_from_slice("Wed".as_bytes());
    } else if wd == 4 {
        out.extend_from_slice("Thu".as_bytes());
    } else if wd == 5 {
        out.extend_from_slice("Fri".as_bytes());
    } else {
        out.extend_from_slice("Sat".as_bytes());
    }
    out.push(44);
    out.push(SP);
    let (year, month, day) = civil_parts(days);
    push_two_digits(&mut out, day);
    out.push(SP);
    push_month_name(&mut out, month);
    out.push(SP);
    out.push(48 + ((year / 1000) % 10) as u8);
    out.push(48 + ((year / 100) % 10) as u8);
    push_two_digits(&mut out, year);
    out.push(SP);
    push_two_digits(&mut out, sod / 3600);
    out.push(58);
    push_two_digits(&mut out, (sod % 3600) / 60);
    out.push(58);
    push_two_digits(&mut out, sod % 60);
    out.push(SP);
    out.push(71);  // G
    out.push(77);  // M
    out.push(84);  // T
    proof {
        reveal_strlit(" GMT");
        lemma_lit_bytes(" GMT");
        assert(ascii_seq(" GMT"@).skip(1) =~= seq![71u8, 77u8, 84u8]);
        assert(out@ =~= imf_fixdate(t as int));
    }
    out
}

/// The civil date of a day count, exactly as [`civil_of_days`] says.
fn civil_parts(days: u64) -> (r: (u64, u64, u64))
    requires
        days <= 2932896,
    ensures
        r.0 == civil_of_days(days as int).0,
        r.1 == civil_of_days(days as int).1,
        r.2 == civil_of_days(days as int).2,
{
    let doe = days + 719468;
    let era = doe / 146097;
    let doe_e = doe % 146097;
    let num = doe_e + doe_e / 36524;
    let sub = doe_e / 1460 + doe_e / 146096;
    let yoe = if num >= sub {
        (num - sub) / 365
    } else {
        0
    };
    let ydays = 365 * yoe + yoe / 4 - yoe / 100;
    let doy = if doe_e >= ydays {
        doe_e - ydays
    } else {
        0
    };
    let mp = (5 * doy + 2) / 153;
    let md = (153 * mp + 2) / 5;
    let day = if doy + 1 >= md {
        doy + 1 - md
    } else {
        1
    };
    let month = if mp < 10 {
        mp + 3
    } else {
        mp - 9
    };
    let year = if month <= 2 {
        yoe + era * 400 + 1
    } else {
        yoe + era * 400
    };
    (year, month, day)
}

/// Appends the three-letter month name for `month`.
fn push_month_name(out: &mut Vec<u8>, month: u64)
    ensures
        final(out)@ == old(out)@ + ascii_seq(month_name(month as int)),
{
    proof {
        reveal_strlit("Jan");
        reveal_strlit("Feb");
        reveal_strlit("Mar");
        reveal_strlit("Apr");
        reveal_strlit("May");
        reveal_strlit("Jun");
        reveal_strlit("Jul");
        reveal_strlit("Aug");
        reveal_strlit("Sep");
        reveal_strlit("Oct");
        reveal_strlit("Nov");
        reveal_strlit("Dec");
        lemma_lit_bytes("Jan");
        lemma_lit_bytes("Feb");
        lemma_lit_bytes("Mar");
        lemma_lit_bytes("Apr");
        lemma_lit_bytes("May");
        lemma_lit_bytes("Jun");
        lemma_lit_bytes("Jul");
        lemma_lit_bytes("Aug");
        lemma_lit_bytes("Sep");
        lemma_lit_bytes("Oct");
        lemma_lit_bytes("Nov");
        lemma_lit_bytes("Dec");
    }
    if month == 2 {
        out.extend_from_slice("Feb".as_bytes());
    } else if month == 3 {
        out.extend_from_slice("Mar".as_bytes());
    } else if month == 4 {
        out.extend_from_slice("Apr".as_bytes());
    } else if month == 5 {
        out.extend_from_slice("May".as_bytes());
    } else if month == 6 {
        out.extend_from_slice("Jun".as_bytes());
    } else if month == 7 {
        out.extend_from_slice("Jul".as_bytes());
    } else if month == 8 {
        out.extend_from_slice("Aug".as_bytes());
    } else if month == 9 {
        out.extend_from_slice("Sep".as_bytes());
    } else if month == 10 {
        out.extend_from_slice("Oct".as_bytes());
    } else if month == 11 {
        out.extend_from_slice("Nov".as_bytes());
    } else if month == 12 {
        out.extend_from_slice("Dec".as_bytes());
    } else {
        out.extend_from_slice("Jan".as_bytes());
    }
}

/// The current moment as IMF-fixdate bytes: some timestamp inside the
/// format's range, rendered by the verified formatter. (A clock past the
/// year 9999 reads as the last representable second.)
pub fn current_imf_date() -> (r: Vec<u8>)
    ensures
        exists|t: int| 0 <= t <= MAX_DATE_SECONDS && r@ == imf_fixdate(t),
{
    let now = now_unix_seconds();
    let t = if now > MAX_DATE_SECONDS {
        MAX_DATE_SECONDS
    } else {
        now
    };
    let r = format_imf_fixdate(t);
    proof {
        assert(0 <= t as int <= MAX_DATE_SECONDS && r@ == imf_fixdate(t as int));
    }
    r
}

} // verus!
