use memcal::db::Store;
use memcal::generate::generate_document;
use memcal::ical::sync_ical_events;

fn doc(lines: &[&str]) -> Vec<u8> {
    let mut s = String::new();
    for l in lines {
        s.push_str(l);
        s.push_str("\r\n");
    }
    s.into_bytes()
}

#[test]
fn generated_document_has_expected_shape() {
    let mut store = Store::init_db();
    let d = doc(&[
        "BEGIN:VCALENDAR",
        "VERSION:2.0",
        "PRODID:-//relay//test//EN",
        "BEGIN:VEVENT",
        "UID:abc",
        "DTSTAMP;TZID=America/New_York:20231231T120000",
        "DTSTART;TZID=America/New_York:20240101T100000",
        "DTEND;TZID=America/New_York:20240101T110000",
        "SUMMARY:Standup",
        "END:VEVENT",
        "END:VCALENDAR",
    ]);
    sync_ical_events(&mut store, 1, &d).unwrap();
    let body = generate_document(&store, 1).unwrap();
    let text = String::from_utf8(body).unwrap();
    let expected = "BEGIN:VCALENDAR\r\n\
        VERSION:2.0\r\n\
        CALSCALE:GREGORIAN\r\n\
        PRODID:-//relay//test//EN\r\n\
        BEGIN:VTIMEZONE\r\n\
        TZID:Etc/UTC\r\n\
        BEGIN:DAYLIGHT\r\n\
        END:DAYLIGHT\r\n\
        BEGIN:STANDARD\r\n\
        END:STANDARD\r\n\
        END:VTIMEZONE\r\n\
        BEGIN:VEVENT\r\n\
        UID:abc\r\n\
        DTSTAMP;TZID=America/New_York:20231231T120000\r\n\
        DTSTART;TZID=America/New_York:20240101T100000\r\n\
        DTEND;TZID=America/New_York:20240101T110000\r\n\
        SUMMARY:Standup\r\n\
        DESCRIPTION:\r\n\
        END:VEVENT\r\n\
        END:VCALENDAR\r\n";
    assert_eq!(text, expected);
}

#[test]
fn generated_document_reparses_to_the_same_events() {
    let mut store = Store::init_db();
    let d = doc(&[
        "BEGIN:VCALENDAR",
        "VERSION:2.0",
        "PRODID:p",
        "BEGIN:VTIMEZONE",
        "TZID:Europe/Paris",
        "BEGIN:DAYLIGHT",
        "TZNAME:CEST",
        "END:DAYLIGHT",
        "BEGIN:STANDARD",
        "TZNAME:CET",
        "END:STANDARD",
        "END:VTIMEZONE",
        "BEGIN:VEVENT",
        "UID:one",
        "DTSTAMP;TZID=Europe/Paris:20240101T090000",
        "DTSTART;TZID=Europe/Paris:20240105T140000",
        "DTEND;TZID=Europe/Paris:20240105T150000",
        "SUMMARY:Repas",
        "LOCATION:Salle A",
        "ORGANIZER;CN=Chef:mailto:chef@example.com",
        "SEQUENCE:2",
        "STATUS:CONFIRMED",
        "END:VEVENT",
        "BEGIN:VEVENT",
        "UID:two",
        "DTSTAMP:20240101T090000",
        "DTSTART:20240106T100000",
        "DTEND:20240106T110000",
        "SUMMARY:Autre",
        "END:VEVENT",
        "END:VCALENDAR",
    ]);
    sync_ical_events(&mut store, 1, &d).unwrap();
    let first = store.get_events_for_feed(1);
    let body = generate_document(&store, 1).unwrap();

    // Feed the generated document to a fresh store, as a new subscription.
    let mut second_store = Store::init_db();
    sync_ical_events(&mut second_store, 5, &body).unwrap();
    let second = second_store.get_events_for_feed(5);

    assert_eq!(second.len(), first.len());
    for (a, b) in first.iter().zip(second.iter()) {
        assert_eq!(a.start_time.instant, b.start_time.instant);
        assert_eq!(a.start_time.zone, b.start_time.zone);
        assert_eq!(a.end_time.instant, b.end_time.instant);
        assert_eq!(a.end_time.zone, b.end_time.zone);
        assert_eq!(a.summary, b.summary);
        assert_eq!(a.description, b.description);
        assert_eq!(a.location, b.location);
        assert_eq!(a.uid, b.uid);
        assert_eq!(a.dtstamp.instant, b.dtstamp.instant);
        assert_eq!(a.organizer, b.organizer);
        assert_eq!(a.organizer_cn, b.organizer_cn);
        assert_eq!(a.sequence, b.sequence);
        assert_eq!(a.status, b.status);
    }

    let cal = second_store.get_calendar(5).unwrap();
    assert_eq!(cal.tz_id, b"Europe/Paris".to_vec());
    assert_eq!(cal.daylight_tzname, Some(b"CEST".to_vec()));
    assert_eq!(cal.standard_tzname, Some(b"CET".to_vec()));
}

#[test]
fn deleting_one_event_keeps_the_rest() {
    let mut store = Store::init_db();
    store.add_feed(3, &b"http://u".to_vec(), &b"tok".to_vec()).unwrap();
    let d = doc(&[
        "BEGIN:VCALENDAR",
        "BEGIN:VEVENT",
        "UID:a",
        "DTSTAMP:20240101T000000",
        "DTSTART:20240102T100000",
        "DTEND:20240102T110000",
        "SUMMARY:A",
        "END:VEVENT",
        "BEGIN:VEVENT",
        "UID:b",
        "DTSTAMP:20240101T000000",
        "DTSTART:20240103T100000",
        "DTEND:20240103T110000",
        "SUMMARY:B",
        "END:VEVENT",
        "END:VCALENDAR",
    ]);
    sync_ical_events(&mut store, 3, &d).unwrap();
    let events = store.get_events_for_feed(3);
    assert_eq!(events.len(), 2);
    let gone = events[0].id;
    let kept = events[1].id;
    let payload = memcal::api::DeleteFeedRequest { method: Some(b"DELETE".to_vec()) };
    let r = memcal::api::delete_event(
        &mut store,
        3,
        gone,
        &b"tok".to_vec(),
        &b"POST".to_vec(),
        &payload,
    );
    assert_eq!(r, Ok(true));
    let after = store.get_events_for_feed(3);
    assert_eq!(after.len(), 1);
    assert_eq!(after[0].id, kept);
}
