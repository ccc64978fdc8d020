//! When a contact was last online, as the line under its name says it: today, yesterday, or the date,
//! with the time, in Brasilia time.

use vstd::prelude::*;
use crate::dates::civil;
use crate::link::{clock_text, two_digits, clock_at};
use crate::text::{div_rem_euclid, chars_of, string_of, digit_char};

verus! {

/// Brasilia is three hours behind UTC.
pub const OFFSET_SECONDS: i64 = -10800;

/// (year, month, day) of `unix_seconds`, in UTC.
pub fn civil_date(unix_seconds: i64) -> (date: (i64, i64, i64))
    ensures
        (date.0 as int, date.1 as int, date.2 as int) == civil(unix_seconds as int / 86400),
        1 <= date.1 <= 12,
        1 <= date.2 <= 31,
{
    let (days, _) = div_rem_euclid(unix_seconds, 86400);
    let z: i64 = days + 719468;
    let (era, doe) = div_rem_euclid(z, 146097);
    let yoe: i64 = (doe - doe / 1460 + doe / 36524 - doe / 146096) / 365;
    assert(0 <= yoe <= 399) by (nonlinear_arith)
        requires
            0 <= doe < 146097,
            yoe == (doe - doe / 1460 + doe / 36524 - doe / 146096) / 365,
    ;
    let doy: i64 = doe - (365 * yoe + yoe / 4 - yoe / 100);
    assert(0 <= doy <= 365) by (nonlinear_arith)
        requires
            0 <= doe < 146097,
            yoe == (doe - doe / 1460 + doe / 36524 - doe / 146096) / 365,
            doy == doe - (365 * yoe + yoe / 4 - yoe / 100),
    ;
    let mp: i64 = (5 * doy + 2) / 153;
    assert(0 <= mp <= 11);
    let day: i64 = doy - (153 * mp + 2) / 5 + 1;
    assert(1 <= day <= 31) by (nonlinear_arith)
        requires
            0 <= doy <= 365,
            mp == (5 * doy + 2) / 153,
            day == doy - (153 * mp + 2) / 5 + 1,
    ;
    let month: i64 = if mp < 10 { mp + 3 } else { mp - 9 };
    assert(-0x1000_0000_0000 <= era <= 0x1000_0000_0000);
    let year: i64 = yoe + era * 400 + if month <= 2 { 1 } else { 0 };
    (year, month, day)
}

/// The days from the day of `seen` to the day of `now`, in Brasilia.
pub open spec fn days_between(now: int, seen: int) -> int {
    (now + OFFSET_SECONDS) / 86400 - (seen + OFFSET_SECONDS) / 86400
}

/// "visto por último hoje às HH:MM", "... ontem às HH:MM", or "... em dd/mm às HH:MM".
pub open spec fn last_seen(now: int, seen: int) -> Seq<char> {
    let time = clock_text(seen);
    let ago = days_between(now, seen);
    if ago <= 0 {
        "visto por último hoje às "@ + time
    } else if ago == 1 {
        "visto por último ontem às "@ + time
    } else {
        let (_, month, day) = civil((seen + OFFSET_SECONDS) / 86400);
        "visto por último em "@ + two_digits(day) + seq!['/'] + two_digits(month) + " às "@ + time
    }
}

/// When a contact was last online (`seen`), said at `now` (both seconds since 1970).
pub fn last_seen_text(now: i64, seen: i64) -> (text: String)
    requires
        now >= i64::MIN + 10800,
        seen >= i64::MIN + 10800,
    ensures
        text@ == last_seen(now as int, seen as int),
{
    let (today, _) = div_rem_euclid(now + OFFSET_SECONDS, 86400);
    let (that_day, _) = div_rem_euclid(seen + OFFSET_SECONDS, 86400);
    let ago: i64 = today - that_day;
    let time = clock_at(seen);
    let mut out: Vec<char>;
    if ago <= 0 {
        out = chars_of("visto por último hoje às ");
    } else if ago == 1 {
        out = chars_of("visto por último ontem às ");
    } else {
        let (_, month, day) = civil_date(seen + OFFSET_SECONDS);
        out = chars_of("visto por último em ");
        out.push(digit_char((day / 10) as u64));
        out.push(digit_char((day % 10) as u64));
        out.push('/');
        out.push(digit_char((month / 10) as u64));
        out.push(digit_char((month % 10) as u64));
        let mut at = chars_of(" às ");
        out.append(&mut at);
    }
    let mut clock = chars_of(time.as_str());
    out.append(&mut clock);
    assert(out@ =~= last_seen(now as int, seen as int));
    string_of(out.as_slice())
}

/// Whether moment `t` (seconds since 1970) falls on day `d` of Brasilia's calendar (days counted
/// from 1970-01-01, each from 03:00 UTC to 03:00 UTC the next day).
pub open spec fn on_brasilia_day(t: int, d: int) -> bool {
    d * 86400 + 10800 <= t < d * 86400 + 97200
}

proof fn lemma_brasilia_day(t: int, d: int)
    requires
        on_brasilia_day(t, d),
    ensures
        (t + OFFSET_SECONDS) / 86400 == d,
{
    assert((t - 10800) / 86400 == d) by (nonlinear_arith)
        requires d * 86400 <= t - 10800 < d * 86400 + 86400;
}

/// What the line says follows Brasilia's calendar: seen on the day it is now there (or a later
/// one), "hoje"; on the day before, "ontem"; earlier, the date of that day in Brasilia; always
/// with the time it was seen.
pub proof fn lemma_last_seen_by_brasilia_day(now: int, seen: int, d: int, k: int)
    requires
        on_brasilia_day(seen, d),
        on_brasilia_day(now, d + k),
    ensures
        k <= 0 ==> last_seen(now, seen) == "visto por último hoje às "@ + clock_text(seen),
        k == 1 ==> last_seen(now, seen) == "visto por último ontem às "@ + clock_text(seen),
        k >= 2 ==> last_seen(now, seen) == "visto por último em "@ + two_digits(civil(d).2) + seq!['/'] + two_digits(civil(d).1)
            + " às "@ + clock_text(seen),
{
    lemma_brasilia_day(seen, d);
    lemma_brasilia_day(now, d + k);
    assert(days_between(now, seen) == k);
}

} // verus!
