use piki::gui::timestamp::{timestamp_text, CalendarDay};

fn day(year: u32, month: u32, day: u32) -> CalendarDay {
    CalendarDay { year, month, day }
}

#[test]
fn today_and_yesterday_show_the_time() {
    let today = day(2026, 7, 3);
    let yesterday = Some(day(2026, 7, 2));
    assert_eq!(timestamp_text(today, 13, 8, today, yesterday), "Today 1:08 PM");
    assert_eq!(timestamp_text(today, 0, 5, today, yesterday), "Today 12:05 AM");
    assert_eq!(timestamp_text(day(2026, 7, 2), 9, 30, today, yesterday), "Yesterday 9:30 AM");
    assert_eq!(timestamp_text(day(2026, 7, 2), 12, 0, today, yesterday), "Yesterday 12:00 PM");
}

#[test]
fn older_days_show_the_date() {
    let today = day(2026, 7, 3);
    let yesterday = Some(day(2026, 7, 2));
    assert_eq!(timestamp_text(day(2026, 7, 1), 10, 0, today, yesterday), "Jul 1");
    assert_eq!(timestamp_text(day(2026, 12, 25), 10, 0, today, yesterday), "Dec 25");
    assert_eq!(timestamp_text(day(2025, 7, 3), 10, 0, today, yesterday), "2025-07-03");
    assert_eq!(timestamp_text(day(2025, 12, 31), 10, 0, day(2026, 1, 1), Some(day(2025, 12, 31))), "Yesterday 10:00 AM");
}
