//! Calendar days as the chat screen shows them: the chip above a day's messages and the day in the
//! conversation list. Days are counted from 1970-01-01 in Brasilia time.

use vstd::prelude::*;
use crate::text::{digit, digit_char, string_of, div_rem_euclid};
use crate::link::{day_number, unix_seconds};

verus! {

pub const WEEKDAYS: [&'static str; 7] = ["DOMINGO", "SEGUNDA-FEIRA", "TERÇA-FEIRA", "QUARTA-FEIRA", "QUINTA-FEIRA", "SEXTA-FEIRA", "SÁBADO"];
pub const WEEKDAYS_SHORT: [&'static str; 7] = ["Dom", "Seg", "Ter", "Qua", "Qui", "Sex", "Sáb"];

/// (year, month, day) of a day count since 1970-01-01, in the proleptic Gregorian calendar (Howard
/// Hinnant's civil-from-days: 400-year eras of 146097 days, years that start on the first of March).
pub open spec fn civil(days: int) -> (int, int, int) {
    let z = days + 719468;
    let era = z / 146097;
    let doe = z % 146097;
    let yoe = (doe - doe / 1460 + doe / 36524 - doe / 146096) / 365;
    let doy = doe - (365 * yoe + yoe / 4 - yoe / 100);
    let mp = (5 * doy + 2) / 153;
    let day = doy - (153 * mp + 2) / 5 + 1;
    let month = if mp < 10 { mp + 3 } else { mp - 9 };
    (yoe + era * 400 + if month <= 2 { 1int } else { 0int }, month, day)
}

/// The number of days from 1970-01-01 to (`year`, `month`, `day`) (days-from-civil).
pub open spec fn days_from_civil(year: int, month: int, day: int) -> int {
    let y = if month <= 2 { year - 1 } else { year };
    let era = y / 400;
    let yoe = y - era * 400;
    let mp = if month > 2 { month - 3 } else { month + 9 };
    let doy = (153 * mp + 2) / 5 + day - 1;
    let doe = yoe * 365 + yoe / 4 - yoe / 100 + doy;
    era * 146097 + doe - 719468
}

/// (year, month, day) of a day count since 1970-01-01.
pub fn civil_date(days: u16) -> (date: (i64, i64, i64))
    ensures
        (date.0 as int, date.1 as int, date.2 as int) == civil(days as int),
        1 <= date.1 <= 12,
        1 <= date.2 <= 31,
        1970 <= date.0 <= 2150,
{
    let z: i64 = days as i64 + 719468;
    let era: i64 = z / 146097;
    let doe: i64 = z % 146097;
    assert(0 <= doe < 146097);
    let yoe: i64 = (doe - doe / 1460 + doe / 36524 - doe / 146096) / 365;
    assert(0 <= yoe <= 399) by (nonlinear_arith)
        requires
            0 <= doe < 146097,
            yoe == (doe - doe / 1460 + doe / 36524 - doe / 146096) / 365,
    ;
    let doy: i64 = doe - (365 * yoe + yoe / 4 - yoe / 100);
    assert(0 <= doy <= 365) by (nonlinear_arith)
        requires
            0 <= doe < 146097,
            yoe == (doe - doe / 1460 + doe / 36524 - doe / 146096) / 365,
            doy == doe - (365 * yoe + yoe / 4 - yoe / 100),
    ;
    let mp: i64 = (5 * doy + 2) / 153;
    assert(0 <= mp <= 11);
    let day: i64 = doy - (153 * mp + 2) / 5 + 1;
    assert(1 <= day <= 31) by (nonlinear_arith)
        requires
            0 <= doy <= 365,
            mp == (5 * doy + 2) / 153,
            day == doy - (153 * mp + 2) / 5 + 1,
    ;
    let month: i64 = if mp < 10 { mp + 3 } else { mp - 9 };
    let year: i64 = yoe + era * 400 + if month <= 2 { 1 } else { 0 };
    assert(era == 4 || era == 5);
    (year, month, day)
}

/// "dd/mm/aaaa" of a day.
pub open spec fn date_of(days: int) -> Seq<char> {
    let (year, month, day) = civil(days);
    seq![digit(day / 10), digit(day % 10), '/', digit(month / 10), digit(month % 10), '/',
        digit(year / 1000), digit(year / 100 % 10), digit(year / 10 % 10), digit(year % 10)]
}

/// "dd/mm/aaaa".
pub fn date_text(day: u16) -> (text: String)
    ensures
        text@ == date_of(day as int),
{
    let (year, month, date) = civil_date(day);
    let mut out: Vec<char> = Vec::new();
    out.push(digit_char((date / 10) as u64));
    out.push(digit_char((date % 10) as u64));
    out.push('/');
    out.push(digit_char((month / 10) as u64));
    out.push(digit_char((month % 10) as u64));
    out.push('/');
    out.push(digit_char((year / 1000) as u64));
    out.push(digit_char((year / 100 % 10) as u64));
    out.push(digit_char((year / 10 % 10) as u64));
    out.push(digit_char((year % 10) as u64));
    assert(out@ =~= date_of(day as int));
    string_of(out.as_slice())
}

/// How many days before `today` the day `day` is, 0 for today or a later day.
pub open spec fn days_ago(day: u16, today: u16) -> int {
    if today >= day { today - day } else { 0 }
}

/// The weekday of a day, 0 for Sunday (1970-01-01 was a Thursday).
pub open spec fn weekday(day: u16) -> int {
    (day + 4) % 7
}

/// The weekdays follow the calendar: day 0 (1970-01-01) was a Thursday (4, counting from Sunday
/// as 0), and each day is the weekday after the one before it.
pub proof fn lemma_weekday_calendar(day: u16)
    ensures
        weekday(0) == 4,
        0 <= weekday(day) < 7,
        day < 65535 ==> weekday((day + 1) as u16) == (weekday(day) + 1) % 7,
{
}

/// The chip above the messages of one day: HOJE, ONTEM, the weekday for the last week, else the date.
pub open spec fn chip_text(day: u16, today: u16) -> Seq<char> {
    let ago = days_ago(day, today);
    if ago == 0 {
        "HOJE"@
    } else if ago == 1 {
        "ONTEM"@
    } else if ago <= 6 {
        WEEKDAYS@[weekday(day)]@
    } else {
        date_of(day as int)
    }
}

/// The chip above the messages of `day`, on day `today`.
pub fn day_chip_on(day: u16, today: u16) -> (chip: String)
    ensures
        chip@ == chip_text(day, today),
{
    let ago: u16 = if today >= day { today - day } else { 0 };
    if ago == 0 {
        "HOJE".to_owned()
    } else if ago == 1 {
        "ONTEM".to_owned()
    } else if ago <= 6 {
        let name: &str = WEEKDAYS[((day as usize) + 4) % 7];
        name.to_owned()
    } else {
        date_text(day)
    }
}

/// What the conversation list shows for the last message: its time today, else Ontem, the weekday's
/// first letters for the last week, else the date.
pub open spec fn list_day_text(day: u16, clock: Seq<char>, today: u16) -> Seq<char> {
    let ago = days_ago(day, today);
    if ago == 0 {
        clock
    } else if ago == 1 {
        "Ontem"@
    } else if ago <= 6 {
        WEEKDAYS_SHORT@[weekday(day)]@
    } else {
        date_of(day as int)
    }
}

/// The list's day for a message of `day` at `clock`, on day `today`.
pub fn list_day_on(day: u16, clock: &str, today: u16) -> (shown: String)
    ensures
        shown@ == list_day_text(day, clock@, today),
{
    let ago: u16 = if today >= day { today - day } else { 0 };
    if ago == 0 {
        clock.to_owned()
    } else if ago == 1 {
        "Ontem".to_owned()
    } else if ago <= 6 {
        let name: &str = WEEKDAYS_SHORT[((day as usize) + 4) % 7];
        name.to_owned()
    } else {
        date_text(day)
    }
}

/// The day number of `unix_seconds` as the messages keep it (a `u16`, as `as` makes it).
pub open spec fn day_of_seconds(unix_seconds: int) -> u16 {
    day_number(unix_seconds) as u16
}

/// Today, in days since 1970-01-01 (Brasilia time).
pub fn today() -> (day: u16)
    ensures
        exists|now: int| 0 <= now <= i64::MAX && day == #[trigger] day_of_seconds(now),
{
    let seconds = unix_seconds();
    let now: i64 = if seconds > 0x7fff_ffff_ffff_ffff { 0x7fff_ffff_ffff_ffff } else { seconds as i64 };
    let (days, _) = div_rem_euclid(now - 10800, 86400);
    assert(days == day_number(now as int));
    let day: u16 = days as u16;
    assert(day == day_of_seconds(now as int));
    day
}

/// The chip above the messages of one day: HOJE, ONTEM, the weekday for the last week, else the date.
pub fn day_chip(day: u16) -> (chip: String)
    ensures
        exists|now: int| 0 <= now <= i64::MAX && chip@ == #[trigger] chip_text(day, day_of_seconds(now)),
{
    let today = today();
    day_chip_on(day, today)
}

/// What the conversation list shows for the last message, today.
pub fn list_day(day: u16, clock: &str) -> (shown: String)
    ensures
        exists|now: int| 0 <= now <= i64::MAX && shown@ == #[trigger] list_day_text(day, clock@, day_of_seconds(now)),
{
    let today = today();
    list_day_on(day, clock, today)
}

/// A day two to six days ago is shown by the name of its weekday: in full on its chip, by its
/// first letters in the conversation list.
pub proof fn lemma_last_week_by_weekday(day: u16, today: u16, clock: Seq<char>)
    requires
        2 <= today - day <= 6,
    ensures
        chip_text(day, today) == WEEKDAYS@[weekday(day)]@,
        list_day_text(day, clock, today) == WEEKDAYS_SHORT@[weekday(day)]@,
{
}

} // verus!
