use bazmail_core::ical::{parse, When};

const REAL: &str = "BEGIN:VCALENDAR\r\n\
VERSION:2.0\r\n\
PRODID:-//Apple Inc.//iOS 18.0//EN\r\n\
BEGIN:VTIMEZONE\r\n\
TZID:America/New_York\r\n\
BEGIN:DAYLIGHT\r\n\
TZNAME:EDT\r\n\
END:DAYLIGHT\r\n\
END:VTIMEZONE\r\n\
BEGIN:VEVENT\r\n\
UID:EVENT-1\r\n\
SUMMARY:Dentist\r\n\
LOCATION:12 High St\r\n\
DTSTART;TZID=America/New_York:20260917T090000\r\n\
DTEND;TZID=America/New_York:20260917T093000\r\n\
BEGIN:VALARM\r\n\
ACTION:DISPLAY\r\n\
DESCRIPTION:Reminder\r\n\
END:VALARM\r\n\
END:VEVENT\r\n\
END:VCALENDAR\r\n";

#[test]
fn reads_an_event_from_a_real_calendar() {
    let events = parse(REAL);
    assert_eq!(events.len(), 1, "one event, not one per BEGIN");
    let e = &events[0];
    assert_eq!(e.uid, "EVENT-1");
    assert_eq!(e.summary, "Dentist");
    assert_eq!(e.location.as_deref(), Some("12 High St"));
}

#[test]
fn a_timezone_block_is_not_an_event() {
    assert!(parse(REAL).iter().all(|e| e.uid == "EVENT-1"));
}

#[test]
fn an_alarm_does_not_overwrite_its_event() {
    assert_eq!(parse(REAL)[0].description, None);
}

#[test]
fn a_zoned_time_keeps_its_zone_rather_than_being_guessed_at() {
    let start = parse(REAL)[0].start.clone().unwrap();
    assert_eq!(
        start,
        When::Zoned {
            local: "20260917T090000".into(),
            tzid: "America/New_York".into()
        }
    );
}

#[test]
fn the_four_kinds_of_time_are_told_apart() {
    let raw = "BEGIN:VEVENT\r\nUID:A\r\nDTSTART;VALUE=DATE:20260917\r\nEND:VEVENT\r\n";
    assert_eq!(parse(raw)[0].start, Some(When::AllDay("20260917".into())));
    assert!(parse(raw)[0].start.as_ref().unwrap().is_all_day());

    let raw = "BEGIN:VEVENT\r\nUID:B\r\nDTSTART:20260917T130000Z\r\nEND:VEVENT\r\n";
    assert_eq!(parse(raw)[0].start, Some(When::Utc("20260917T130000Z".into())));

    let raw = "BEGIN:VEVENT\r\nUID:C\r\nDTSTART:20260917T090000\r\nEND:VEVENT\r\n";
    assert_eq!(
        parse(raw)[0].start,
        Some(When::Floating("20260917T090000".into()))
    );
}

#[test]
fn an_event_without_a_start_is_not_an_event() {
    let raw = "BEGIN:VEVENT\r\nUID:D\r\nSUMMARY:Nothing\r\nEND:VEVENT\r\n";
    assert!(parse(raw).is_empty());
}

#[test]
fn recurrence_is_kept_as_written() {
    let raw = "BEGIN:VEVENT\r\nUID:E\r\nDTSTART:20260917T090000Z\r\nRRULE:FREQ=WEEKLY;BYDAY=TH\r\nEND:VEVENT\r\n";
    assert_eq!(parse(raw)[0].rrule.as_deref(), Some("FREQ=WEEKLY;BYDAY=TH"));
}

#[test]
fn a_cancelled_event_still_exists() {
    let raw = "BEGIN:VEVENT\r\nUID:F\r\nDTSTART:20260917T090000Z\r\nSTATUS:CANCELLED\r\nEND:VEVENT\r\n";
    assert!(parse(raw)[0].cancelled);
}

#[test]
fn several_events_in_one_calendar() {
    let raw = format!(
        "BEGIN:VCALENDAR\r\n{}{}END:VCALENDAR\r\n",
        "BEGIN:VEVENT\r\nUID:1\r\nDTSTART:20260917T090000Z\r\nEND:VEVENT\r\n",
        "BEGIN:VEVENT\r\nUID:2\r\nDTSTART:20260918T090000Z\r\nEND:VEVENT\r\n",
    );
    assert_eq!(parse(&raw).len(), 2);
}

#[test]
fn escaped_text_comes_back_readable() {
    let raw = "BEGIN:VEVENT\r\nUID:G\r\nDTSTART:20260917T090000Z\r\nSUMMARY:Lunch\\, then a walk\r\nEND:VEVENT\r\n";
    assert_eq!(parse(raw)[0].summary, "Lunch, then a walk");
}

#[test]
fn an_end_and_a_duration_are_kept() {
    let raw = "BEGIN:VEVENT\r\nUID:H\r\nDTSTART:20260917T090000Z\r\nDURATION:PT1H\r\nEND:VEVENT\r\n";
    let e = &parse(raw)[0];
    assert_eq!(e.duration.as_deref(), Some("PT1H"));
    assert_eq!(e.end, None);
    let zoned = &parse(REAL)[0];
    assert_eq!(
        zoned.end,
        Some(When::Zoned {
            local: "20260917T093000".into(),
            tzid: "America/New_York".into()
        })
    );
}

#[test]
fn the_sort_key_drops_the_zone() {
    let w = When::Zoned {
        local: "20260917T090000".into(),
        tzid: "America/New_York".into(),
    };
    assert_eq!(w.sort_key(), "20260917T090000");
    assert!(!w.is_all_day());
}
