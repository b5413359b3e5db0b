use memcal::api::{add_feed, delete_feed, AddFeedRequest, ApiError, DeleteFeedRequest};
use memcal::db::Store;
use memcal::ical::{sync_all_feeds, sync_ical_events, FetchedFeed};
use memcal::SyncError;

fn doc(lines: &[&str]) -> Vec<u8> {
    let mut s = String::new();
    for l in lines {
        s.push_str(l);
        s.push_str("\r\n");
    }
    s.into_bytes()
}

fn standup_doc(summary: &str) -> Vec<u8> {
    doc(&[
        "BEGIN:VCALENDAR",
        "VERSION:2.0",
        "PRODID:-//relay//test//EN",
        "BEGIN:VEVENT",
        "UID:abc",
        "DTSTAMP;TZID=America/New_York:20231231T120000",
        "DTSTART;TZID=America/New_York:20240101T100000",
        "DTEND;TZID=America/New_York:20240101T110000",
        &format!("SUMMARY:{}", summary),
        "END:VEVENT",
        "END:VCALENDAR",
    ])
}

#[test]
fn first_sync_inserts_one_event() {
    let mut store = Store::init_db();
    store.add_feed(1, &b"http://u".to_vec(), &b"t".to_vec()).unwrap();
    sync_ical_events(&mut store, 1, &standup_doc("Standup")).unwrap();
    let events = store.get_events_for_feed(1);
    assert_eq!(events.len(), 1);
    assert_eq!(events[0].summary, b"Standup".to_vec());
    assert_eq!(events[0].uid, b"abc".to_vec());
    assert_eq!(events[0].start_time.zone, b"America/New_York".to_vec());
    // 2024-01-01 10:00 in New York is 15:00 UTC.
    assert_eq!(events[0].start_time.instant, 1704121200);
    assert_eq!(events[0].end_time.instant, 1704124800);
}

#[test]
fn second_sync_updates_in_place() {
    let mut store = Store::init_db();
    store.add_feed(1, &b"http://u".to_vec(), &b"t".to_vec()).unwrap();
    sync_ical_events(&mut store, 1, &standup_doc("Standup")).unwrap();
    let before = store.get_events_for_feed(1);
    sync_ical_events(&mut store, 1, &standup_doc("Standup (moved)")).unwrap();
    let after = store.get_events_for_feed(1);
    assert_eq!(after.len(), 1);
    assert_eq!(after[0].summary, b"Standup (moved)".to_vec());
    assert_eq!(after[0].id, before[0].id);
    assert_eq!(after[0].start_time.instant, before[0].start_time.instant);
    assert_eq!(after[0].end_time.instant, before[0].end_time.instant);
}

#[test]
fn removed_upstream_event_is_remembered() {
    let mut store = Store::init_db();
    store.add_feed(1, &b"http://u".to_vec(), &b"t".to_vec()).unwrap();
    sync_ical_events(&mut store, 1, &standup_doc("Standup")).unwrap();
    sync_ical_events(&mut store, 1, &standup_doc("Standup (moved)")).unwrap();
    let empty = doc(&["BEGIN:VCALENDAR", "VERSION:2.0", "END:VCALENDAR"]);
    sync_ical_events(&mut store, 1, &empty).unwrap();
    let events = store.get_events_for_feed(1);
    assert_eq!(events.len(), 1);
    assert_eq!(events[0].summary, b"Standup (moved)".to_vec());
    let again = store.get_events_for_feed(1);
    assert_eq!(again.len(), 1);
}

#[test]
fn unchanged_document_synced_twice_is_idempotent() {
    let mut store = Store::init_db();
    store.add_feed(1, &b"http://u".to_vec(), &b"t".to_vec()).unwrap();
    let d = standup_doc("Standup");
    sync_ical_events(&mut store, 1, &d).unwrap();
    let first = store.get_events_for_feed(1);
    sync_ical_events(&mut store, 1, &d).unwrap();
    let second = store.get_events_for_feed(1);
    assert_eq!(second.len(), first.len());
    assert_eq!(second[0].id, first[0].id);
    assert_eq!(second[0].summary, first[0].summary);
    assert_eq!(second[0].dtstamp.instant, first[0].dtstamp.instant);
}

#[test]
fn malformed_dtstart_fails_whole_sync_and_keeps_prior_state() {
    let mut store = Store::init_db();
    store.add_feed(1, &b"http://u".to_vec(), &b"t".to_vec()).unwrap();
    sync_ical_events(&mut store, 1, &standup_doc("Standup")).unwrap();
    let bad = doc(&[
        "BEGIN:VCALENDAR",
        "VERSION:2.0",
        "BEGIN:VEVENT",
        "UID:other",
        "DTSTAMP;TZID=America/New_York:20231231T120000",
        "DTSTART;TZID=America/New_York:not-a-date",
        "DTEND;TZID=America/New_York:20240101T110000",
        "SUMMARY:Broken",
        "END:VEVENT",
        "END:VCALENDAR",
    ]);
    let r = sync_ical_events(&mut store, 1, &bad);
    assert_eq!(r, Err(SyncError::InvalidTemporalValue));
    let events = store.get_events_for_feed(1);
    assert_eq!(events.len(), 1);
    assert_eq!(events[0].summary, b"Standup".to_vec());
}

#[test]
fn missing_dtend_is_missing_required_field() {
    let mut store = Store::init_db();
    let bad = doc(&[
        "BEGIN:VCALENDAR",
        "BEGIN:VEVENT",
        "DTSTAMP:20231231T120000",
        "DTSTART:20240101T100000",
        "SUMMARY:NoEnd",
        "END:VEVENT",
        "END:VCALENDAR",
    ]);
    let r = sync_ical_events(&mut store, 1, &bad);
    assert_eq!(r, Err(SyncError::MissingRequiredField));
}

#[test]
fn document_without_calendar_root_is_parse_error() {
    let mut store = Store::init_db();
    let r = sync_ical_events(&mut store, 1, &b"hello world".to_vec());
    assert_eq!(r, Err(SyncError::ParseError));
    let r2 = sync_ical_events(&mut store, 1, &doc(&["BEGIN:VCALENDAR", "VERSION:2.0"]));
    assert_eq!(r2, Err(SyncError::ParseError));
}

#[test]
fn zone_fallback_to_utc() {
    let mut store = Store::init_db();
    let d = doc(&[
        "BEGIN:VCALENDAR",
        "BEGIN:VEVENT",
        "UID:u1",
        "DTSTAMP:20231231T120000",
        "DTSTART:20240101T100000",
        "DTEND;TZID=Not/AZone:20240101T110000",
        "SUMMARY:Fallback",
        "END:VEVENT",
        "END:VCALENDAR",
    ]);
    sync_ical_events(&mut store, 1, &d).unwrap();
    let events = store.get_events_for_feed(1);
    assert_eq!(events.len(), 1);
    // No zone parameter: the default Etc/UTC; unrecognized parameter: UTC.
    assert_eq!(events[0].start_time.zone, b"Etc/UTC".to_vec());
    assert_eq!(events[0].end_time.zone, b"UTC".to_vec());
    // Both denote the same wall clock read as UTC.
    assert_eq!(events[0].start_time.instant, 1704103200);
    assert_eq!(events[0].end_time.instant, 1704106800);
}

#[test]
fn events_are_served_most_recent_first() {
    let mut store = Store::init_db();
    let d = doc(&[
        "BEGIN:VCALENDAR",
        "BEGIN:VEVENT",
        "UID:early",
        "DTSTAMP:20231231T120000",
        "DTSTART:20240101T100000",
        "DTEND:20240101T110000",
        "SUMMARY:Early",
        "END:VEVENT",
        "BEGIN:VEVENT",
        "UID:late",
        "DTSTAMP:20231231T120000",
        "DTSTART:20240301T100000",
        "DTEND:20240301T110000",
        "SUMMARY:Late",
        "END:VEVENT",
        "END:VCALENDAR",
    ]);
    sync_ical_events(&mut store, 1, &d).unwrap();
    let events = store.get_events_for_feed(1);
    assert_eq!(events.len(), 2);
    assert_eq!(events[0].summary, b"Late".to_vec());
    assert_eq!(events[1].summary, b"Early".to_vec());
    assert!(events[0].start_time.instant >= events[1].start_time.instant);
}

#[test]
fn sweep_continues_past_failures() {
    let mut store = Store::init_db();
    store.add_feed(1, &b"http://a".to_vec(), &b"t".to_vec()).unwrap();
    store.add_feed(2, &b"http://b".to_vec(), &b"t".to_vec()).unwrap();
    store.add_feed(3, &b"http://c".to_vec(), &b"t".to_vec()).unwrap();
    let items = vec![
        FetchedFeed { feed_id: 1, document: None },
        FetchedFeed { feed_id: 2, document: Some(b"garbage".to_vec()) },
        FetchedFeed { feed_id: 3, document: Some(standup_doc("Standup")) },
    ];
    let results = sync_all_feeds(&mut store, &items);
    assert_eq!(results.len(), 3);
    assert_eq!(results[0], Err(SyncError::FetchError));
    assert_eq!(results[1], Err(SyncError::ParseError));
    assert_eq!(results[2], Ok(()));
    assert_eq!(store.get_events_for_feed(3).len(), 1);
}

#[test]
fn identifier_exhaustion_fails_only_inserts() {
    let mut store = Store::init_db();
    sync_ical_events(&mut store, 1, &standup_doc("Standup")).unwrap();
    // No identifier left: a document that would insert is turned away
    // whole, but re-synchronizing the same events only updates in place
    // and still succeeds.
    store.next_event_id = i64::MAX;
    let fresh = doc(&[
        "BEGIN:VCALENDAR",
        "BEGIN:VEVENT",
        "UID:new",
        "DTSTAMP:20231231T120000",
        "DTSTART:20240201T100000",
        "DTEND:20240201T110000",
        "SUMMARY:New",
        "END:VEVENT",
        "END:VCALENDAR",
    ]);
    assert_eq!(sync_ical_events(&mut store, 1, &fresh), Err(SyncError::StorageError));
    assert_eq!(store.get_events_for_feed(1).len(), 1);
    assert_eq!(sync_ical_events(&mut store, 1, &standup_doc("Standup (late)")), Ok(()));
    let events = store.get_events_for_feed(1);
    assert_eq!(events.len(), 1);
    assert_eq!(events[0].summary, b"Standup (late)".to_vec());
}

#[test]
fn api_add_feed_builds_links_and_rejects_duplicates() {
    let mut store = Store::init_db();
    let req = AddFeedRequest { url: b"http://u".to_vec() };
    let resp = add_feed(&mut store, 42, &b"secret".to_vec(), &req).unwrap();
    assert_eq!(resp.url, b"/feed/42".to_vec());
    assert_eq!(resp.manage_token, b"secret".to_vec());
    assert_eq!(resp.manage_url, b"/feed/42/secret".to_vec());
    let dup = add_feed(&mut store, 42, &b"other".to_vec(), &req);
    assert!(matches!(dup, Err(SyncError::StorageError)));
}

#[test]
fn api_delete_feed_checks_method_and_token() {
    let mut store = Store::init_db();
    let req = AddFeedRequest { url: b"http://u".to_vec() };
    add_feed(&mut store, 7, &b"secret".to_vec(), &req).unwrap();
    sync_ical_events(&mut store, 7, &standup_doc("Standup")).unwrap();

    let get = b"GET".to_vec();
    let del = b"DELETE".to_vec();
    let no_override = DeleteFeedRequest { method: None };

    let r = delete_feed(&mut store, 7, &b"secret".to_vec(), &get, &no_override);
    assert_eq!(r, Err(ApiError::MethodNotAllowed));

    let r = delete_feed(&mut store, 8, &b"secret".to_vec(), &del, &no_override);
    assert_eq!(r, Err(ApiError::NotFound));

    let r = delete_feed(&mut store, 7, &b"wrong".to_vec(), &del, &no_override);
    assert_eq!(r, Err(ApiError::Unauthorized));
    assert_eq!(store.get_events_for_feed(7).len(), 1);

    let form = DeleteFeedRequest { method: Some(b"DELETE".to_vec()) };
    let r = delete_feed(&mut store, 7, &b"secret".to_vec(), &get, &form);
    assert_eq!(r, Ok(true));
    assert_eq!(store.get_events_for_feed(7).len(), 0);
    assert!(store.get_feed(7).is_none());
    assert!(store.get_calendar(7).is_none());
}

#[test]
fn lazy_population_needs_sync_first() {
    let mut store = Store::init_db();
    store.add_feed(1, &b"http://u".to_vec(), &b"t".to_vec()).unwrap();
    assert!(memcal::ical::needs_initial_sync(&store, 1));
    assert!(memcal::generate::generate_document(&store, 1).is_none());
    sync_ical_events(&mut store, 1, &standup_doc("Standup")).unwrap();
    assert!(!memcal::ical::needs_initial_sync(&store, 1));
    assert!(memcal::generate::generate_document(&store, 1).is_some());
}

#[test]
fn alarm_blocks_are_skipped_not_fatal() {
    let mut store = Store::init_db();
    let d = doc(&[
        "BEGIN:VCALENDAR",
        "VERSION:2.0",
        "BEGIN:VEVENT",
        "UID:with-alarm",
        "DTSTAMP:20231231T120000",
        "DTSTART:20240101T100000",
        "DTEND:20240101T110000",
        "SUMMARY:Has alarm",
        "BEGIN:VALARM",
        "ACTION:DISPLAY",
        "DESCRIPTION:Ring",
        "TRIGGER:-PT10M",
        "END:VALARM",
        "STATUS:CONFIRMED",
        "END:VEVENT",
        "END:VCALENDAR",
    ]);
    sync_ical_events(&mut store, 1, &d).unwrap();
    let events = store.get_events_for_feed(1);
    assert_eq!(events.len(), 1);
    assert_eq!(events[0].summary, b"Has alarm".to_vec());
    // The alarm's own lines never leak into the event.
    assert_eq!(events[0].description, Some(b"".to_vec()));
    // Lines after the alarm still belong to the event.
    assert_eq!(events[0].status, Some(b"CONFIRMED".to_vec()));
}

#[test]
fn unknown_components_are_skipped_not_fatal() {
    let mut store = Store::init_db();
    let d = doc(&[
        "BEGIN:VCALENDAR",
        "BEGIN:VTODO",
        "UID:todo-1",
        "SUMMARY:Not an event",
        "END:VTODO",
        "BEGIN:VTIMEZONE",
        "TZID:Etc/UTC",
        "BEGIN:X-CUSTOM",
        "X-PROP:ignored",
        "END:X-CUSTOM",
        "END:VTIMEZONE",
        "BEGIN:VEVENT",
        "UID:real",
        "DTSTAMP:20231231T120000",
        "DTSTART:20240101T100000",
        "DTEND:20240101T110000",
        "SUMMARY:Real",
        "BEGIN:VALARM",
        "BEGIN:X-NESTED",
        "END:X-NESTED",
        "END:VALARM",
        "END:VEVENT",
        "END:VCALENDAR",
    ]);
    sync_ical_events(&mut store, 1, &d).unwrap();
    let events = store.get_events_for_feed(1);
    assert_eq!(events.len(), 1);
    assert_eq!(events[0].summary, b"Real".to_vec());
    // An unclosed envelope is still a parse error.
    let unclosed = doc(&["BEGIN:VCALENDAR", "BEGIN:VEVENT", "END:VCALENDAR"]);
    let mut other = Store::init_db();
    assert_eq!(
        sync_ical_events(&mut other, 1, &unclosed),
        Err(SyncError::ParseError)
    );
}
