use zapzap::presence::{civil_date, last_seen_text};

#[test]
fn civil_dates_are_right_across_leap_days() {
    assert_eq!(civil_date(0), (1970, 1, 1));
    assert_eq!(civil_date(951_782_400), (2000, 2, 29));
    assert_eq!(civil_date(1_789_916_400), (2026, 9, 20));
}

#[test]
fn last_seen_says_today_yesterday_or_the_date() {
    // 2026-09-20 12:00 Brasilia = 15:00 UTC.
    let now = 1_789_916_400;
    assert_eq!(last_seen_text(now, now - 3 * 3600), "visto por último hoje às 09:00");
    assert_eq!(last_seen_text(now, now - 26 * 3600), "visto por último ontem às 10:00");
    assert_eq!(last_seen_text(now, now - 10 * 86_400), "visto por último em 10/09 às 12:00");
}

#[test]
fn dates_before_1970_are_right_too() {
    assert_eq!(civil_date(-86_400), (1969, 12, 31));
    assert_eq!(civil_date(-1), (1969, 12, 31));
}

#[test]
fn a_moment_later_the_same_day_is_still_today() {
    let now = 1_789_916_400;
    assert_eq!(last_seen_text(now, now + 60), "visto por último hoje às 12:01");
}
