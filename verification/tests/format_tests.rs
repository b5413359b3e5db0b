use memcal::bytes::{format_i64, parse_i64};
use memcal::datetime::{format_compact, parse_compact, LocalTime};
use memcal::db::Store;
use memcal::ical::sync_ical_events;
use memcal::props::parse_line;
use memcal::zone::resolve_zone;

fn doc(lines: &[&str]) -> Vec<u8> {
    let mut s = String::new();
    for l in lines {
        s.push_str(l);
        s.push_str("\r\n");
    }
    s.into_bytes()
}

#[test]
fn decimal_formatting_and_parsing() {
    assert_eq!(format_i64(0), b"0".to_vec());
    assert_eq!(format_i64(42), b"42".to_vec());
    assert_eq!(format_i64(-5), b"-5".to_vec());
    assert_eq!(format_i64(i64::MIN), b"-9223372036854775808".to_vec());
    assert_eq!(parse_i64(&b"12".to_vec()), Some(12));
    assert_eq!(parse_i64(&b"+7".to_vec()), Some(7));
    assert_eq!(parse_i64(&b"-5".to_vec()), Some(-5));
    assert_eq!(parse_i64(&b"9223372036854775807".to_vec()), Some(i64::MAX));
    assert_eq!(parse_i64(&b"9223372036854775808".to_vec()), None);
    assert_eq!(parse_i64(&b"-9223372036854775808".to_vec()), Some(i64::MIN));
    assert_eq!(parse_i64(&b"".to_vec()), None);
    assert_eq!(parse_i64(&b"+".to_vec()), None);
    assert_eq!(parse_i64(&b"1x".to_vec()), None);
    assert_eq!(parse_i64(&format_i64(-123456789)), Some(-123456789));
}

#[test]
fn compact_datetime_parsing() {
    let t = parse_compact(&b"20240101T100000".to_vec()).unwrap();
    assert_eq!(
        t,
        LocalTime { year: 2024, month: 1, day: 1, hour: 10, minute: 0, second: 0 },
    );
    assert_eq!(format_compact(&t), b"20240101T100000".to_vec());
    assert!(parse_compact(&b"not-a-date".to_vec()).is_none());
    assert!(parse_compact(&b"20240230T100000".to_vec()).is_none());
    assert!(parse_compact(&b"20240101T250000".to_vec()).is_none());
    assert!(parse_compact(&b"20240101 100000".to_vec()).is_none());
    // A leap day parses in a leap year only.
    assert!(parse_compact(&b"20240229T000000".to_vec()).is_some());
    assert!(parse_compact(&b"20230229T000000".to_vec()).is_none());
}

#[test]
fn zone_resolution_falls_back_to_utc() {
    assert_eq!(resolve_zone(&None), b"Etc/UTC".to_vec());
    assert_eq!(resolve_zone(&Some(b"America/New_York".to_vec())), b"America/New_York".to_vec());
    assert_eq!(resolve_zone(&Some(b"Not/AZone".to_vec())), b"UTC".to_vec());
    assert_eq!(resolve_zone(&Some(b"UTC".to_vec())), b"UTC".to_vec());
}

#[test]
fn content_line_parsing() {
    let p = parse_line(&b"DTSTART;TZID=Europe/Paris:20240101T100000".to_vec()).unwrap();
    assert_eq!(p.name, b"DTSTART".to_vec());
    assert_eq!(p.params.len(), 1);
    assert_eq!(p.params[0].key, b"TZID".to_vec());
    assert_eq!(p.params[0].value, b"Europe/Paris".to_vec());
    assert_eq!(p.value, b"20240101T100000".to_vec());

    let q = parse_line(&b"SUMMARY:a:b".to_vec()).unwrap();
    assert_eq!(q.name, b"SUMMARY".to_vec());
    assert_eq!(q.value, b"a:b".to_vec());

    assert!(parse_line(&b"NOCOLON".to_vec()).is_none());
    assert!(parse_line(&b":emptyname".to_vec()).is_none());
    assert!(parse_line(&b"X;NOEQ:v".to_vec()).is_none());
}

#[test]
fn folded_lines_and_optional_fields() {
    let mut store = Store::init_db();
    let d = doc(&[
        "BEGIN:VCALENDAR",
        "VERSION:2.0",
        "BEGIN:VEVENT",
        "UID:u1",
        "DTSTAMP:20231231T120000",
        "DTSTART:20240101T100000",
        "DTEND:20240101T110000",
        "SUMMARY:Long",
        " er summary",
        "LOCATION:Room 5",
        "ORGANIZER;CN=Ada:mailto:ada@example.com",
        "SEQUENCE:3",
        "STATUS:CONFIRMED",
        "END:VEVENT",
        "END:VCALENDAR",
    ]);
    sync_ical_events(&mut store, 1, &d).unwrap();
    let events = store.get_events_for_feed(1);
    assert_eq!(events.len(), 1);
    let e = &events[0];
    assert_eq!(e.summary, b"Longer summary".to_vec());
    assert_eq!(e.location, Some(b"Room 5".to_vec()));
    assert_eq!(e.organizer, Some(b"mailto:ada@example.com".to_vec()));
    assert_eq!(e.organizer_cn, Some(b"Ada".to_vec()));
    assert_eq!(e.sequence, Some(3));
    assert_eq!(e.status, Some(b"CONFIRMED".to_vec()));
    assert_eq!(e.description, Some(b"".to_vec()));
}

#[test]
fn sequence_that_does_not_parse_is_dropped() {
    let mut store = Store::init_db();
    let d = doc(&[
        "BEGIN:VCALENDAR",
        "BEGIN:VEVENT",
        "UID:u1",
        "DTSTAMP:20231231T120000",
        "DTSTART:20240101T100000",
        "DTEND:20240101T110000",
        "SUMMARY:S",
        "SEQUENCE:three",
        "END:VEVENT",
        "END:VCALENDAR",
    ]);
    sync_ical_events(&mut store, 1, &d).unwrap();
    let events = store.get_events_for_feed(1);
    assert_eq!(events[0].sequence, None);
}

#[test]
fn calendar_defaults_and_timezone_block() {
    let mut store = Store::init_db();
    let d = doc(&[
        "BEGIN:VCALENDAR",
        "X-WR-CALNAME:My feed",
        "BEGIN:VTIMEZONE",
        "TZID:America/New_York",
        "BEGIN:DAYLIGHT",
        "DTSTART:19700308T020000",
        "TZOFFSETFROM:-0500",
        "TZOFFSETTO:-0400",
        "RRULE:FREQ=YEARLY;BYMONTH=3;BYDAY=2SU",
        "TZNAME:EDT",
        "END:DAYLIGHT",
        "BEGIN:STANDARD",
        "DTSTART:19701101T020000",
        "TZOFFSETFROM:-0400",
        "TZOFFSETTO:-0500",
        "TZNAME:EST",
        "END:STANDARD",
        "END:VTIMEZONE",
        "END:VCALENDAR",
    ]);
    sync_ical_events(&mut store, 9, &d).unwrap();
    let cal = store.get_calendar(9).unwrap();
    assert_eq!(cal.version, b"2.0".to_vec());
    assert_eq!(cal.cal_scale, b"GREGORIAN".to_vec());
    assert_eq!(cal.prod_id, b"".to_vec());
    assert_eq!(cal.name, Some(b"My feed".to_vec()));
    assert_eq!(cal.tz_id, b"America/New_York".to_vec());
    assert_eq!(cal.daylight_tzname, Some(b"EDT".to_vec()));
    assert_eq!(cal.daylight_rrule, Some(b"FREQ=YEARLY;BYMONTH=3;BYDAY=2SU".to_vec()));
    assert_eq!(cal.standard_tzname, Some(b"EST".to_vec()));
    assert_eq!(cal.standard_dtstart, Some(b"19701101T020000".to_vec()));
    assert_eq!(cal.daylight_tzoffsetto, Some(b"-0400".to_vec()));
}
