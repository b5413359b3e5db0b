//! The merge store: feeds, one calendar row per feed, and events keyed by
//! their natural key. Synchronization only ever inserts or updates events —
//! nothing here deletes a row except the explicit deletion operations.

use vstd::prelude::*;
use crate::bytes::{bytes_eq, clone_bytes};
use crate::zone::{ZonedTime, ZonedTimeView};
use crate::SyncError;

verus! {

/// A subscribed feed.
#[derive(Debug)]
pub struct Feed {
    pub id: i64,
    pub url: Vec<u8>,
    pub manage_token: Vec<u8>,
}

#[verifier::ext_equal]
pub struct FeedView {
    pub id: int,
    pub url: Seq<u8>,
    pub manage_token: Seq<u8>,
}

impl View for Feed {
    type V = FeedView;

    open spec fn view(&self) -> FeedView {
        FeedView { id: self.id as int, url: self.url@, manage_token: self.manage_token@ }
    }
}

impl Feed {
    /// Copy a feed record.
    pub fn duplicate(&self) -> (r: Feed)
        ensures
            r@ == self@,
    {
        Feed {
            id: self.id,
            url: clone_bytes(&self.url),
            manage_token: clone_bytes(&self.manage_token),
        }
    }
}

/// A stored event.
#[derive(Debug)]
pub struct Event {
    pub id: i64,
    pub feed_id: i64,
    pub summary: Vec<u8>,
    pub description: Option<Vec<u8>>,
    pub start_time: ZonedTime,
    pub end_time: ZonedTime,
    pub location: Option<Vec<u8>>,
    pub uid: Vec<u8>,
    pub dtstamp: ZonedTime,
    pub organizer: Option<Vec<u8>>,
    pub organizer_cn: Option<Vec<u8>>,
    pub sequence: Option<i64>,
    pub status: Option<Vec<u8>>,
}

#[verifier::ext_equal]
pub struct EventView {
    pub id: int,
    pub feed_id: int,
    pub summary: Seq<u8>,
    pub description: Option<Seq<u8>>,
    pub start_time: ZonedTimeView,
    pub end_time: ZonedTimeView,
    pub location: Option<Seq<u8>>,
    pub uid: Seq<u8>,
    pub dtstamp: ZonedTimeView,
    pub organizer: Option<Seq<u8>>,
    pub organizer_cn: Option<Seq<u8>>,
    pub sequence: Option<int>,
    pub status: Option<Seq<u8>>,
}

/// The view of an optional byte vector.
pub open spec fn opt_bytes_view(o: Option<Vec<u8>>) -> Option<Seq<u8>> {
    match o {
        Some(v) => Some(v@),
        None => None,
    }
}

/// The view of an optional signed integer.
pub open spec fn opt_i64_view(o: Option<i64>) -> Option<int> {
    match o {
        Some(v) => Some(v as int),
        None => None,
    }
}

impl View for Event {
    type V = EventView;

    open spec fn view(&self) -> EventView {
        EventView {
            id: self.id as int,
            feed_id: self.feed_id as int,
            summary: self.summary@,
            description: opt_bytes_view(self.description),
            start_time: self.start_time@,
            end_time: self.end_time@,
            location: opt_bytes_view(self.location),
            uid: self.uid@,
            dtstamp: self.dtstamp@,
            organizer: opt_bytes_view(self.organizer),
            organizer_cn: opt_bytes_view(self.organizer_cn),
            sequence: opt_i64_view(self.sequence),
            status: opt_bytes_view(self.status),
        }
    }
}

/// An event's natural key: the identity that merge upserts on.
#[verifier::ext_equal]
pub ghost struct NatKey {
    pub feed_id: int,
    pub start_instant: int,
    pub start_zone: Seq<u8>,
    pub end_instant: int,
    pub end_zone: Seq<u8>,
}

impl EventView {
    /// The natural key of this event.
    pub open spec fn key(self) -> NatKey {
        NatKey {
            feed_id: self.feed_id,
            start_instant: self.start_time.instant,
            start_zone: self.start_time.zone,
            end_instant: self.end_time.instant,
            end_zone: self.end_time.zone,
        }
    }

    /// The stored timestamps are well formed.
    pub open spec fn wf(self) -> bool {
        &&& self.start_time.wf()
        &&& self.end_time.wf()
        &&& self.dtstamp.wf()
    }

    /// This event with the mutable fields taken from `e`: everything except
    /// the identifier, the owning feed and the start and end times.
    pub open spec fn updated_from(self, e: EventView) -> EventView {
        EventView {
            id: self.id,
            feed_id: self.feed_id,
            start_time: self.start_time,
            end_time: self.end_time,
            summary: e.summary,
            description: e.description,
            location: e.location,
            uid: e.uid,
            dtstamp: e.dtstamp,
            organizer: e.organizer,
            organizer_cn: e.organizer_cn,
            sequence: e.sequence,
            status: e.status,
        }
    }

    /// This event under a newly assigned identifier.
    pub open spec fn with_id(self, id: int) -> EventView {
        EventView { id, ..self }
    }
}

/// The calendar envelope stored for one feed, with the timezone transition
/// texts preserved verbatim.
#[derive(Debug)]
pub struct CalendarRow {
    pub feed_id: i64,
    pub version: Vec<u8>,
    pub prod_id: Vec<u8>,
    pub cal_scale: Vec<u8>,
    pub name: Option<Vec<u8>>,
    pub tz_id: Vec<u8>,
    pub daylight_dtstart: Option<Vec<u8>>,
    pub daylight_tzoffsetfrom: Option<Vec<u8>>,
    pub daylight_tzoffsetto: Option<Vec<u8>>,
    pub daylight_rrule: Option<Vec<u8>>,
    pub daylight_tzname: Option<Vec<u8>>,
    pub standard_dtstart: Option<Vec<u8>>,
    pub standard_tzoffsetfrom: Option<Vec<u8>>,
    pub standard_tzoffsetto: Option<Vec<u8>>,
    pub standard_rrule: Option<Vec<u8>>,
    pub standard_tzname: Option<Vec<u8>>,
}

#[verifier::ext_equal]
pub struct CalendarRowView {
    pub feed_id: int,
    pub version: Seq<u8>,
    pub prod_id: Seq<u8>,
    pub cal_scale: Seq<u8>,
    pub name: Option<Seq<u8>>,
    pub tz_id: Seq<u8>,
    pub daylight_dtstart: Option<Seq<u8>>,
    pub daylight_tzoffsetfrom: Option<Seq<u8>>,
    pub daylight_tzoffsetto: Option<Seq<u8>>,
    pub daylight_rrule: Option<Seq<u8>>,
    pub daylight_tzname: Option<Seq<u8>>,
    pub standard_dtstart: Option<Seq<u8>>,
    pub standard_tzoffsetfrom: Option<Seq<u8>>,
    pub standard_tzoffsetto: Option<Seq<u8>>,
    pub standard_rrule: Option<Seq<u8>>,
    pub standard_tzname: Option<Seq<u8>>,
}

impl View for CalendarRow {
    type V = CalendarRowView;

    open spec fn view(&self) -> CalendarRowView {
        CalendarRowView {
            feed_id: self.feed_id as int,
            version: self.version@,
            prod_id: self.prod_id@,
            cal_scale: self.cal_scale@,
            name: opt_bytes_view(self.name),
            tz_id: self.tz_id@,
            daylight_dtstart: opt_bytes_view(self.daylight_dtstart),
            daylight_tzoffsetfrom: opt_bytes_view(self.daylight_tzoffsetfrom),
            daylight_tzoffsetto: opt_bytes_view(self.daylight_tzoffsetto),
            daylight_rrule: opt_bytes_view(self.daylight_rrule),
            daylight_tzname: opt_bytes_view(self.daylight_tzname),
            standard_dtstart: opt_bytes_view(self.standard_dtstart),
            standard_tzoffsetfrom: opt_bytes_view(self.standard_tzoffsetfrom),
            standard_tzoffsetto: opt_bytes_view(self.standard_tzoffsetto),
            standard_rrule: opt_bytes_view(self.standard_rrule),
            standard_tzname: opt_bytes_view(self.standard_tzname),
        }
    }
}

/// Copy an optional byte vector.
fn clone_opt_bytes(o: &Option<Vec<u8>>) -> (r: Option<Vec<u8>>)
    ensures
        opt_bytes_view(r) == opt_bytes_view(*o),
{
    match o {
        Some(v) => Some(clone_bytes(v)),
        None => None,
    }
}

impl CalendarRow {
    /// Copy a calendar row.
    pub fn duplicate(&self) -> (r: CalendarRow)
        ensures
            r@ == self@,
    {
        CalendarRow {
            feed_id: self.feed_id,
            version: clone_bytes(&self.version),
            prod_id: clone_bytes(&self.prod_id),
            cal_scale: clone_bytes(&self.cal_scale),
            name: clone_opt_bytes(&self.name),
            tz_id: clone_bytes(&self.tz_id),
            daylight_dtstart: clone_opt_bytes(&self.daylight_dtstart),
            daylight_tzoffsetfrom: clone_opt_bytes(&self.daylight_tzoffsetfrom),
            daylight_tzoffsetto: clone_opt_bytes(&self.daylight_tzoffsetto),
            daylight_rrule: clone_opt_bytes(&self.daylight_rrule),
            daylight_tzname: clone_opt_bytes(&self.daylight_tzname),
            standard_dtstart: clone_opt_bytes(&self.standard_dtstart),
            standard_tzoffsetfrom: clone_opt_bytes(&self.standard_tzoffsetfrom),
            standard_tzoffsetto: clone_opt_bytes(&self.standard_tzoffsetto),
            standard_rrule: clone_opt_bytes(&self.standard_rrule),
            standard_tzname: clone_opt_bytes(&self.standard_tzname),
        }
    }
}

impl Event {
    /// Copy an event record.
    pub fn duplicate(&self) -> (r: Event)
        ensures
            r@ == self@,
    {
        Event {
            id: self.id,
            feed_id: self.feed_id,
            summary: clone_bytes(&self.summary),
            description: clone_opt_bytes(&self.description),
            start_time: self.start_time.duplicate(),
            end_time: self.end_time.duplicate(),
            location: clone_opt_bytes(&self.location),
            uid: clone_bytes(&self.uid),
            dtstamp: self.dtstamp.duplicate(),
            organizer: clone_opt_bytes(&self.organizer),
            organizer_cn: clone_opt_bytes(&self.organizer_cn),
            sequence: self.sequence,
            status: clone_opt_bytes(&self.status),
        }
    }
}

/// The views of stored event, feed and calendar lists.
pub open spec fn ev_views(evs: Vec<Event>) -> Seq<EventView> {
    evs@.map_values(|e: Event| e@)
}

pub open spec fn feed_views(fs: Vec<Feed>) -> Seq<FeedView> {
    fs@.map_values(|f: Feed| f@)
}

pub open spec fn cal_views(cs: Vec<CalendarRow>) -> Seq<CalendarRowView> {
    cs@.map_values(|c: CalendarRow| c@)
}

/// The first index at or after `i` whose event has natural key `k`, or the
/// length when no event has it.
pub open spec fn find_key_from(evs: Seq<EventView>, k: NatKey, i: int) -> int
    decreases evs.len() - i,
{
    if i < 0 || i >= evs.len() {
        evs.len() as int
    } else if evs[i].key() == k {
        i
    } else {
        find_key_from(evs, k, i + 1)
    }
}

/// `find_key_from` returns the position whose event has the key when no
/// earlier position does.
pub proof fn lemma_find_key_unique(evs: Seq<EventView>, k: NatKey, i: int, pos: int)
    requires
        0 <= i <= pos < evs.len(),
        evs[pos].key() == k,
        forall|j: int| i <= j < pos ==> evs[j].key() != k,
    ensures
        find_key_from(evs, k, i) == pos,
    decreases pos - i,
{
    if i < pos {
        lemma_find_key_unique(evs, k, i + 1, pos);
    }
}

pub proof fn lemma_find_key_from_props(evs: Seq<EventView>, k: NatKey, i: int)
    requires
        0 <= i <= evs.len(),
    ensures
        i <= find_key_from(evs, k, i) <= evs.len(),
        find_key_from(evs, k, i) < evs.len() ==> evs[find_key_from(evs, k, i)].key() == k,
        forall|j: int| i <= j < find_key_from(evs, k, i) ==> evs[j].key() != k,
    decreases evs.len() - i,
{
    if i < evs.len() && evs[i].key() != k {
        lemma_find_key_from_props(evs, k, i + 1);
    }
}

/// The first index at or after `i` whose calendar row belongs to `feed_id`,
/// or the length when none does.
pub open spec fn find_cal_from(cs: Seq<CalendarRowView>, feed_id: int, i: int) -> int
    decreases cs.len() - i,
{
    if i < 0 || i >= cs.len() {
        cs.len() as int
    } else if cs[i].feed_id == feed_id {
        i
    } else {
        find_cal_from(cs, feed_id, i + 1)
    }
}

pub proof fn lemma_find_cal_from_props(cs: Seq<CalendarRowView>, feed_id: int, i: int)
    requires
        0 <= i <= cs.len(),
    ensures
        i <= find_cal_from(cs, feed_id, i) <= cs.len(),
        find_cal_from(cs, feed_id, i) < cs.len() ==> cs[find_cal_from(cs, feed_id, i)].feed_id
            == feed_id,
        forall|j: int| i <= j < find_cal_from(cs, feed_id, i) ==> cs[j].feed_id != feed_id,
    decreases cs.len() - i,
{
    if i < cs.len() && cs[i].feed_id != feed_id {
        lemma_find_cal_from_props(cs, feed_id, i + 1);
    }
}

/// What replacing a feed's calendar row means: an existing row for the feed
/// is replaced in full; otherwise the row is appended.
pub open spec fn upsert_calendar_spec(cs: Seq<CalendarRowView>, c: CalendarRowView) -> Seq<
    CalendarRowView,
> {
    let i = find_cal_from(cs, c.feed_id, 0);
    if i < cs.len() {
        cs.update(i, c)
    } else {
        cs.push(c)
    }
}

/// What one upsert means: the first event with a matching natural key takes
/// the incoming mutable fields and keeps its identifier; with no match the
/// incoming event is appended under the fresh identifier.
pub open spec fn upsert_event_spec(evs: Seq<EventView>, e: EventView, fresh_id: int) -> Seq<
    EventView,
> {
    let i = find_key_from(evs, e.key(), 0);
    if i < evs.len() {
        evs.update(i, evs[i].updated_from(e))
    } else {
        evs.push(e.with_id(fresh_id))
    }
}

/// The store of one deployment: all feeds, their calendar envelopes and
/// their events, and the next identifier to assign to an inserted event.
#[derive(Debug)]
pub struct Store {
    pub feeds: Vec<Feed>,
    pub calendars: Vec<CalendarRow>,
    pub events: Vec<Event>,
    pub next_event_id: i64,
}

#[verifier::ext_equal]
pub struct StoreView {
    pub feeds: Seq<FeedView>,
    pub calendars: Seq<CalendarRowView>,
    pub events: Seq<EventView>,
    pub next_event_id: int,
}

impl View for Store {
    type V = StoreView;

    open spec fn view(&self) -> StoreView {
        StoreView {
            feeds: feed_views(self.feeds),
            calendars: cal_views(self.calendars),
            events: ev_views(self.events),
            next_event_id: self.next_event_id as int,
        }
    }
}

impl StoreView {
    /// The store's invariant: feed identifiers are unique, each feed has at
    /// most one calendar row, events are unique by natural key and by
    /// identifier, every event is well formed, and every stored event
    /// identifier is below the next one to be assigned.
    pub open spec fn inv(self) -> bool {
        &&& forall|i: int, j: int|
            0 <= i < j < self.feeds.len() ==> self.feeds[i].id != self.feeds[j].id
        &&& forall|i: int, j: int|
            0 <= i < j < self.calendars.len() ==> self.calendars[i].feed_id
                != self.calendars[j].feed_id
        &&& forall|i: int, j: int|
            0 <= i < j < self.events.len() ==> self.events[i].key() != self.events[j].key()
        &&& forall|i: int, j: int|
            0 <= i < j < self.events.len() ==> self.events[i].id != self.events[j].id
        &&& forall|i: int|
            0 <= i < self.events.len() ==> (#[trigger] self.events[i]).wf() && 1
                <= self.events[i].id < self.next_event_id
        &&& 1 <= self.next_event_id <= i64::MAX
    }
}

/// Every element of a filtered sequence is an element of the sequence it
/// was filtered from.
pub proof fn lemma_filter_membership<A>(s: Seq<A>, pred: spec_fn(A) -> bool)
    ensures
        forall|i: int|
            0 <= i < s.filter(pred).len() ==> exists|j: int|
                0 <= j < s.len() && #[trigger] s.filter(pred)[i] == s[j],
    decreases s.len(),
{
    reveal_with_fuel(Seq::filter, 2);
    if s.len() > 0 {
        let d = s.drop_last();
        lemma_filter_membership(d, pred);
        assert forall|i: int| 0 <= i < s.filter(pred).len() implies exists|j: int|
            0 <= j < s.len() && #[trigger] s.filter(pred)[i] == s[j] by {
            if i < d.filter(pred).len() {
                assert(s.filter(pred)[i] == d.filter(pred)[i]);
                let j = choose|j: int| 0 <= j < d.len() && d.filter(pred)[i] == d[j];
                assert(s.filter(pred)[i] == s[j]);
            } else {
                assert(s.filter(pred)[i] == s.last());
                assert(s.filter(pred)[i] == s[s.len() - 1]);
            }
        }
    }
}

/// Filtering keeps a pairwise-distinct key distinct.
pub proof fn lemma_filter_unique<A, K>(s: Seq<A>, pred: spec_fn(A) -> bool, keyf: spec_fn(A) -> K)
    requires
        forall|i: int, j: int| 0 <= i < j < s.len() ==> keyf(s[i]) != keyf(s[j]),
    ensures
        forall|i: int, j: int|
            0 <= i < j < s.filter(pred).len() ==> keyf(s.filter(pred)[i]) != keyf(
                s.filter(pred)[j],
            ),
    decreases s.len(),
{
    reveal_with_fuel(Seq::filter, 2);
    if s.len() > 0 {
        let d = s.drop_last();
        lemma_filter_unique(d, pred, keyf);
        lemma_filter_membership(d, pred);
        if pred(s.last()) {
            assert(s.filter(pred) == d.filter(pred).push(s.last()));
            assert forall|i: int, j: int|
                0 <= i < j < s.filter(pred).len() implies keyf(s.filter(pred)[i]) != keyf(
                s.filter(pred)[j],
            ) by {
                if j == s.filter(pred).len() - 1 {
                    let w = choose|w: int| 0 <= w < d.len() && d.filter(pred)[i] == d[w];
                    assert(keyf(s[w]) != keyf(s[s.len() - 1]));
                } else {
                    assert(s.filter(pred)[i] == d.filter(pred)[i]);
                    assert(s.filter(pred)[j] == d.filter(pred)[j]);
                }
            }
        }
    }
}

/// The store invariant, assembled from a prior state whose feed and
/// calendar lists carry over and explicit facts about the event list.
pub proof fn lemma_store_inv_from(o: StoreView, s: StoreView)
    requires
        o.inv(),
        s.feeds =~= o.feeds,
        s.calendars =~= o.calendars,
        forall|i: int, j: int|
            0 <= i < j < s.events.len() ==> s.events[i].key() != s.events[j].key(),
        forall|i: int, j: int| 0 <= i < j < s.events.len() ==> s.events[i].id != s.events[j].id,
        forall|i: int|
            0 <= i < s.events.len() ==> (#[trigger] s.events[i]).wf() && 1 <= s.events[i].id
                < s.next_event_id,
        1 <= s.next_event_id <= i64::MAX,
    ensures
        s.inv(),
{
    assert forall|i: int, j: int|
        0 <= i < j < s.feeds.len() implies s.feeds[i].id != s.feeds[j].id by {
        assert(s.feeds[i] == o.feeds[i]);
        assert(s.feeds[j] == o.feeds[j]);
        assert(o.feeds[i].id != o.feeds[j].id);
    }
    assert forall|i: int, j: int|
        0 <= i < j < s.calendars.len() implies s.calendars[i].feed_id != s.calendars[j].feed_id by {
        assert(s.calendars[i] == o.calendars[i]);
        assert(s.calendars[j] == o.calendars[j]);
        assert(o.calendars[i].feed_id != o.calendars[j].feed_id);
    }
}

/// The store invariant, assembled from a prior state whose feed and event
/// lists carry over and explicit facts about the calendar list.
pub proof fn lemma_store_inv_cals(o: StoreView, s: StoreView)
    requires
        o.inv(),
        s.feeds =~= o.feeds,
        s.events =~= o.events,
        s.next_event_id == o.next_event_id,
        forall|i: int, j: int|
            0 <= i < j < s.calendars.len() ==> s.calendars[i].feed_id != s.calendars[j].feed_id,
    ensures
        s.inv(),
{
    assert forall|i: int, j: int|
        0 <= i < j < s.feeds.len() implies s.feeds[i].id != s.feeds[j].id by {
        assert(s.feeds[i] == o.feeds[i]);
        assert(s.feeds[j] == o.feeds[j]);
        assert(o.feeds[i].id != o.feeds[j].id);
    }
    assert forall|i: int, j: int|
        0 <= i < j < s.events.len() implies s.events[i].key() != s.events[j].key()
        && s.events[i].id != s.events[j].id by {
        assert(s.events[i] == o.events[i]);
        assert(s.events[j] == o.events[j]);
        assert(o.events[i].key() != o.events[j].key());
        assert(o.events[i].id != o.events[j].id);
    }
    assert forall|i: int|
        0 <= i < s.events.len() implies (#[trigger] s.events[i]).wf() && 1 <= s.events[i].id
        < s.next_event_id by {
        assert(s.events[i] == o.events[i]);
        assert(o.events[i].wf() && 1 <= o.events[i].id < o.next_event_id);
    }
}

/// Whether two events share a natural key.
fn same_key(a: &Event, b: &Event) -> (r: bool)
    ensures
        r == (a@.key() == b@.key()),
{
    let r = a.feed_id == b.feed_id && a.start_time.instant == b.start_time.instant
        && a.end_time.instant == b.end_time.instant && bytes_eq(&a.start_time.zone, &b.start_time.zone)
        && bytes_eq(&a.end_time.zone, &b.end_time.zone);
    proof {
        if r {
            assert(a@.key() == b@.key());
        } else {
            assert(a@.key() != b@.key());
        }
    }
    r
}

impl Store {
    /// Create an empty store: three empty tables and the first event
    /// identifier to hand out.
    pub fn init_db() -> (r: Store)
        ensures
            r@.inv(),
            r@.feeds.len() == 0,
            r@.calendars.len() == 0,
            r@.events.len() == 0,
    {
        let s = Store { feeds: Vec::new(), calendars: Vec::new(), events: Vec::new(), next_event_id: 1 };
        proof {
            assert(s@.feeds =~= Seq::<FeedView>::empty());
            assert(s@.calendars =~= Seq::<CalendarRowView>::empty());
            assert(s@.events =~= Seq::<EventView>::empty());
        }
        s
    }

    /// All feeds, in insertion order.
    pub fn get_all_feeds(&self) -> (r: Vec<Feed>)
        ensures
            feed_views(r) == self@.feeds,
    {
        let mut out: Vec<Feed> = Vec::new();
        let mut i: usize = 0;
        proof {
            assert(feed_views(out) =~= self@.feeds.take(0));
        }
        while i < self.feeds.len()
            invariant
                0 <= i <= self.feeds@.len(),
                feed_views(out) == self@.feeds.take(i as int),
            decreases self.feeds@.len() - i,
        {
            let ghost before = feed_views(out);
            out.push(self.feeds[i].duplicate());
            proof {
                assert(feed_views(out) =~= before.push(self@.feeds[i as int]));
                assert(self@.feeds.take(i + 1) =~= self@.feeds.take(i as int).push(
                    self@.feeds[i as int],
                ));
            }
            i += 1;
        }
        proof {
            assert(self@.feeds.take(self.feeds@.len() as int) =~= self@.feeds);
        }
        out
    }

    /// Insert a feed under a caller-chosen identifier; an identifier already
    /// present is a storage error, and the store is unchanged.
    pub fn add_feed(&mut self, id: i64, url: &Vec<u8>, manage_token: &Vec<u8>) -> (r: Result<
        (),
        SyncError,
    >)
        requires
            old(self)@.inv(),
        ensures
            final(self)@.inv(),
            final(self)@.calendars == old(self)@.calendars,
            final(self)@.events == old(self)@.events,
            final(self)@.next_event_id == old(self)@.next_event_id,
            match r {
                Ok(()) => (forall|i: int|
                    0 <= i < old(self)@.feeds.len() ==> old(self)@.feeds[i].id != id)
                    && final(self)@.feeds == old(self)@.feeds.push(
                    FeedView { id: id as int, url: url@, manage_token: manage_token@ },
                ),
                Err(e) => e == SyncError::StorageError && (exists|i: int|
                    0 <= i < old(self)@.feeds.len() && old(self)@.feeds[i].id == id)
                    && final(self)@.feeds == old(self)@.feeds,
            },
    {
        let mut i: usize = 0;
        while i < self.feeds.len()
            invariant
                0 <= i <= self.feeds@.len(),
                forall|j: int| 0 <= j < i ==> self@.feeds[j].id != id,
                self@ == old(self)@,
                old(self)@.inv(),
            decreases self.feeds@.len() - i,
        {
            if self.feeds[i].id == id {
                proof {
                    assert(0 <= (i as int) && (i as int) < old(self)@.feeds.len() && old(
                        self,
                    )@.feeds[i as int].id == id as int);
                }
                return Err(SyncError::StorageError);
            }
            i += 1;
        }
        let ghost before = self@.feeds;
        self.feeds.push(
            Feed { id, url: clone_bytes(url), manage_token: clone_bytes(manage_token) },
        );
        proof {
            assert(feed_views(self.feeds) =~= before.push(
                FeedView { id: id as int, url: url@, manage_token: manage_token@ },
            ));
        }
        Ok(())
    }

    /// The feed with this identifier, if any.
    pub fn get_feed(&self, id: i64) -> (r: Option<Feed>)
        requires
            self@.inv(),
        ensures
            match r {
                Some(f) => exists|i: int|
                    0 <= i < self@.feeds.len() && self@.feeds[i] == f@ && f@.id == id,
                None => forall|i: int| 0 <= i < self@.feeds.len() ==> self@.feeds[i].id != id,
            },
    {
        let mut i: usize = 0;
        while i < self.feeds.len()
            invariant
                0 <= i <= self.feeds@.len(),
                forall|j: int| 0 <= j < i ==> self@.feeds[j].id != id,
            decreases self.feeds@.len() - i,
        {
            if self.feeds[i].id == id {
                let f = self.feeds[i].duplicate();
                proof {
                    assert(self@.feeds[i as int] == f@);
                }
                return Some(f);
            }
            i += 1;
        }
        None
    }

    /// Remove the feed with this identifier. Only the feed list changes.
    pub fn delete_feed(&mut self, id: i64)
        requires
            old(self)@.inv(),
        ensures
            final(self)@.inv(),
            final(self)@.feeds == old(self)@.feeds.filter(|f: FeedView| f.id != id),
            final(self)@.calendars == old(self)@.calendars,
            final(self)@.events == old(self)@.events,
            final(self)@.next_event_id == old(self)@.next_event_id,
    {
        let ghost p = |f: FeedView| f.id != id;
        let mut out: Vec<Feed> = Vec::new();
        let mut i: usize = 0;
        proof {
            reveal_with_fuel(Seq::filter, 2);
            assert(self@.feeds.take(0) =~= Seq::<FeedView>::empty());
            assert(feed_views(out) =~= self@.feeds.take(0).filter(p));
        }
        while i < self.feeds.len()
            invariant
                0 <= i <= self.feeds@.len(),
                self@ == old(self)@,
                old(self)@.inv(),
                p == (|f: FeedView| f.id != id),
                feed_views(out) == self@.feeds.take(i as int).filter(p),
            decreases self.feeds@.len() - i,
        {
            let ghost pre = self@.feeds.take(i as int);
            proof {
                reveal_with_fuel(Seq::filter, 2);
                assert(self@.feeds.take(i + 1).drop_last() =~= pre);
                assert(self@.feeds.take(i + 1).last() == self@.feeds[i as int]);
            }
            if self.feeds[i].id != id {
                let ghost before = feed_views(out);
                out.push(self.feeds[i].duplicate());
                proof {
                    reveal_with_fuel(Seq::filter, 2);
                    assert(feed_views(out) =~= before.push(self@.feeds[i as int]));
                    assert(feed_views(out) == self@.feeds.take(i + 1).filter(p));
                }
            } else {
                proof {
                    reveal_with_fuel(Seq::filter, 2);
                    assert(self@.feeds.take(i + 1).filter(p) == pre.filter(p));
                }
            }
            i += 1;
        }
        proof {
            assert(self@.feeds.take(self.feeds@.len() as int) =~= self@.feeds);
        }
        self.feeds = out;
        proof {
            lemma_filter_unique(old(self)@.feeds, p, |f: FeedView| f.id);
        }
    }

    /// Merge one event by its natural key: an event with the same key takes
    /// the incoming mutable fields and keeps its identifier and its start and
    /// end; otherwise the event is inserted under a fresh identifier. The
    /// only failure is identifier exhaustion on insert; nothing is ever
    /// deleted here.
    pub fn add_event(&mut self, event: Event) -> (r: Result<(), SyncError>)
        requires
            old(self)@.inv(),
            event@.wf(),
        ensures
            final(self)@.inv(),
            final(self)@.feeds == old(self)@.feeds,
            final(self)@.calendars == old(self)@.calendars,
            match r {
                Ok(()) => {
                    &&& final(self)@.events == upsert_event_spec(
                        old(self)@.events,
                        event@,
                        old(self)@.next_event_id,
                    )
                    &&& final(self)@.next_event_id == (
                    if find_key_from(old(self)@.events, event@.key(), 0) < old(
                        self,
                    )@.events.len() {
                        old(self)@.next_event_id
                    } else {
                        old(self)@.next_event_id + 1
                    })
                },
                Err(e) => {
                    &&& e == SyncError::StorageError
                    &&& find_key_from(old(self)@.events, event@.key(), 0) == old(
                        self,
                    )@.events.len()
                    &&& old(self)@.next_event_id == i64::MAX
                    &&& final(self)@ == old(self)@
                },
            },
    {
        match upsert_into(&mut self.events, event, self.next_event_id) {
            Some(n2) => {
                self.next_event_id = n2;
                proof {
                    lemma_store_inv_from(old(self)@, self@);
                }
                Ok(())
            },
            None => {
                proof {
                    assert(self@ =~~= old(self)@);
                }
                Err(SyncError::StorageError)
            },
        }
    }

    /// Replace this feed's calendar row in full, inserting it if the feed
    /// has none yet.
    pub fn add_calendar(&mut self, calendar: CalendarRow)
        requires
            old(self)@.inv(),
        ensures
            final(self)@.inv(),
            final(self)@.feeds == old(self)@.feeds,
            final(self)@.events == old(self)@.events,
            final(self)@.next_event_id == old(self)@.next_event_id,
            final(self)@.calendars == upsert_calendar_spec(old(self)@.calendars, calendar@),
    {
        let ghost cs = cal_views(self.calendars);
        let ghost cv = calendar@;
        let mut i: usize = 0;
        while i < self.calendars.len()
            invariant
                0 <= i <= self.calendars@.len(),
                self@ == old(self)@,
                old(self)@.inv(),
                cv == calendar@,
                cs == cal_views(self.calendars),
                forall|j: int| 0 <= j < i ==> cs[j].feed_id != cv.feed_id,
            decreases self.calendars@.len() - i,
        {
            if self.calendars[i].feed_id == calendar.feed_id {
                proof {
                    lemma_find_cal_unique(cs, cv.feed_id, 0, i as int);
                }
                self.calendars.set(i, calendar);
                proof {
                    let s = self@;
                    assert(s.calendars =~= cs.update(i as int, cv));
                    assert(cv.feed_id == cs[i as int].feed_id);
                    assert forall|a: int, b: int|
                        0 <= a < b < s.calendars.len() implies s.calendars[a].feed_id
                        != s.calendars[b].feed_id by {
                        assert(s.calendars[a] == (if a == i as int {
                            cv
                        } else {
                            cs[a]
                        }));
                        assert(s.calendars[b] == (if b == i as int {
                            cv
                        } else {
                            cs[b]
                        }));
                        assert(cs[a].feed_id != cs[b].feed_id);
                    }
                    lemma_store_inv_cals(old(self)@, s);
                }
                return ;
            }
            i += 1;
        }
        proof {
            lemma_find_cal_from_props(cs, cv.feed_id, 0);
        }
        self.calendars.push(calendar);
        proof {
            let s = self@;
            assert(s.calendars =~= cs.push(cv));
            assert forall|a: int, b: int|
                0 <= a < b < s.calendars.len() implies s.calendars[a].feed_id != s.calendars[b].feed_id by {
                assert(s.calendars[a] == (if a < cs.len() {
                    cs[a]
                } else {
                    cv
                }));
                assert(s.calendars[b] == (if b < cs.len() {
                    cs[b]
                } else {
                    cv
                }));
                if b == s.calendars.len() - 1 {
                    assert(cs[a].feed_id != cv.feed_id);
                } else {
                    assert(cs[a].feed_id != cs[b].feed_id);
                }
            }
            lemma_store_inv_cals(old(self)@, s);
        }
    }

    /// The calendar row of this feed, if one was ever stored.
    pub fn get_calendar(&self, feed_id: i64) -> (r: Option<CalendarRow>)
        requires
            self@.inv(),
        ensures
            match r {
                Some(c) => {
                    &&& find_cal_from(self@.calendars, feed_id as int, 0) < self@.calendars.len()
                    &&& c@ == self@.calendars[find_cal_from(self@.calendars, feed_id as int, 0)]
                    &&& c@.feed_id == feed_id
                },
                None => find_cal_from(self@.calendars, feed_id as int, 0)
                    == self@.calendars.len(),
            },
    {
        let ghost cs = self@.calendars;
        let mut i: usize = 0;
        while i < self.calendars.len()
            invariant
                0 <= i <= self.calendars@.len(),
                cs == self@.calendars,
                forall|j: int| 0 <= j < i ==> cs[j].feed_id != feed_id,
            decreases self.calendars@.len() - i,
        {
            if self.calendars[i].feed_id == feed_id {
                proof {
                    lemma_find_cal_unique(cs, feed_id as int, 0, i as int);
                }
                return Some(self.calendars[i].duplicate());
            }
            i += 1;
        }
        proof {
            lemma_find_cal_from_props(cs, feed_id as int, 0);
        }
        None
    }

    /// Remove this feed's calendar row. Only the calendar list changes.
    pub fn delete_calendar(&mut self, feed_id: i64)
        requires
            old(self)@.inv(),
        ensures
            final(self)@.inv(),
            final(self)@.calendars == old(self)@.calendars.filter(
                |c: CalendarRowView| c.feed_id != feed_id,
            ),
            final(self)@.feeds == old(self)@.feeds,
            final(self)@.events == old(self)@.events,
            final(self)@.next_event_id == old(self)@.next_event_id,
    {
        let ghost p = |c: CalendarRowView| c.feed_id != feed_id;
        let mut out: Vec<CalendarRow> = Vec::new();
        let mut i: usize = 0;
        proof {
            reveal_with_fuel(Seq::filter, 2);
            assert(self@.calendars.take(0) =~= Seq::<CalendarRowView>::empty());
            assert(cal_views(out) =~= self@.calendars.take(0).filter(p));
        }
        while i < self.calendars.len()
            invariant
                0 <= i <= self.calendars@.len(),
                self@ == old(self)@,
                old(self)@.inv(),
                p == (|c: CalendarRowView| c.feed_id != feed_id),
                cal_views(out) == self@.calendars.take(i as int).filter(p),
            decreases self.calendars@.len() - i,
        {
            let ghost pre = self@.calendars.take(i as int);
            proof {
                reveal_with_fuel(Seq::filter, 2);
                assert(self@.calendars.take(i + 1).drop_last() =~= pre);
                assert(self@.calendars.take(i + 1).last() == self@.calendars[i as int]);
            }
            if self.calendars[i].feed_id != feed_id {
                let ghost before = cal_views(out);
                out.push(self.calendars[i].duplicate());
                proof {
                    reveal_with_fuel(Seq::filter, 2);
                    assert(cal_views(out) =~= before.push(self@.calendars[i as int]));
                    assert(cal_views(out) == self@.calendars.take(i + 1).filter(p));
                }
            } else {
                proof {
                    reveal_with_fuel(Seq::filter, 2);
                    assert(self@.calendars.take(i + 1).filter(p) == pre.filter(p));
                }
            }
            i += 1;
        }
        proof {
            assert(self@.calendars.take(self.calendars@.len() as int) =~= self@.calendars);
        }
        self.calendars = out;
        proof {
            let s = self@;
            let keyf = |c: CalendarRowView| c.feed_id;
            assert forall|a: int, b: int|
                0 <= a < b < old(self)@.calendars.len() implies keyf(old(self)@.calendars[a])
                != keyf(old(self)@.calendars[b]) by {
                assert(old(self)@.calendars[a].feed_id != old(self)@.calendars[b].feed_id);
            }
            lemma_filter_unique(old(self)@.calendars, p, keyf);
            let fc = old(self)@.calendars.filter(p);
            assert forall|a: int, b: int|
                0 <= a < b < s.calendars.len() implies s.calendars[a].feed_id != s.calendars[b].feed_id by {
                assert(s.calendars[a] == fc[a]);
                assert(s.calendars[b] == fc[b]);
                assert(keyf(fc[a]) != keyf(fc[b]));
            }
            lemma_store_inv_cals(old(self)@, s);
        }
    }
}

/// Copy an event list.
pub fn clone_events(evs: &Vec<Event>) -> (r: Vec<Event>)
    ensures
        ev_views(r) == ev_views(*evs),
{
    let mut out: Vec<Event> = Vec::new();
    let mut i: usize = 0;
    proof {
        assert(ev_views(out) =~= ev_views(*evs).take(0));
    }
    while i < evs.len()
        invariant
            0 <= i <= evs@.len(),
            ev_views(out) == ev_views(*evs).take(i as int),
        decreases evs@.len() - i,
    {
        let ghost before = ev_views(out);
        out.push(evs[i].duplicate());
        proof {
            assert(ev_views(out) =~= before.push(ev_views(*evs)[i as int]));
            assert(ev_views(*evs).take(i + 1) =~= ev_views(*evs).take(i as int).push(
                ev_views(*evs)[i as int],
            ));
        }
        i += 1;
    }
    proof {
        assert(ev_views(*evs).take(evs@.len() as int) =~= ev_views(*evs));
    }
    out
}

/// Merge one event into a bare event list by natural key, under the next
/// free identifier: the staging step behind every event merge. `None`
/// comes exactly when an insert is needed and the identifier space is
/// exhausted, and then the list is unchanged.
pub fn upsert_into(events: &mut Vec<Event>, event: Event, next_id: i64) -> (r: Option<i64>)
    requires
        forall|a: int, b: int|
            0 <= a < b < ev_views(*old(events)).len() ==> ev_views(*old(events))[a].key()
                != ev_views(*old(events))[b].key(),
        forall|a: int, b: int|
            0 <= a < b < ev_views(*old(events)).len() ==> ev_views(*old(events))[a].id
                != ev_views(*old(events))[b].id,
        forall|a: int|
            0 <= a < ev_views(*old(events)).len() ==> (#[trigger] ev_views(*old(events))[a]).wf()
                && 1 <= ev_views(*old(events))[a].id < next_id,
        1 <= next_id <= i64::MAX,
        event@.wf(),
    ensures
        match r {
            Some(n2) => {
                &&& ev_views(*final(events)) == upsert_event_spec(
                    ev_views(*old(events)),
                    event@,
                    next_id as int,
                )
                &&& n2 as int == (if find_key_from(
                    ev_views(*old(events)),
                    event@.key(),
                    0,
                ) < ev_views(*old(events)).len() {
                    next_id as int
                } else {
                    next_id + 1
                })
                &&& forall|a: int, b: int|
                    0 <= a < b < ev_views(*final(events)).len() ==> ev_views(*final(events))[a].key()
                        != ev_views(*final(events))[b].key()
                &&& forall|a: int, b: int|
                    0 <= a < b < ev_views(*final(events)).len() ==> ev_views(*final(events))[a].id
                        != ev_views(*final(events))[b].id
                &&& forall|a: int|
                    0 <= a < ev_views(*final(events)).len() ==> (#[trigger] ev_views(
                        *final(events),
                    )[a]).wf() && 1 <= ev_views(*final(events))[a].id < n2 as int
                &&& 1 <= n2 as int <= i64::MAX
            },
            None => {
                &&& find_key_from(ev_views(*old(events)), event@.key(), 0) == ev_views(
                    *old(events),
                ).len()
                &&& next_id == i64::MAX
                &&& ev_views(*final(events)) == ev_views(*old(events))
            },
        },
{
    let ghost evs = ev_views(*old(events));
    let ghost evv = event@;
    let ghost k = event@.key();
    let mut i: usize = 0;
    while i < events.len()
        invariant
            0 <= i <= events@.len(),
            ev_views(*events) == evs,
            evs == ev_views(*old(events)),
            forall|a: int, b: int| 0 <= a < b < evs.len() ==> evs[a].key() != evs[b].key(),
            forall|a: int, b: int| 0 <= a < b < evs.len() ==> evs[a].id != evs[b].id,
            forall|a: int|
                0 <= a < evs.len() ==> (#[trigger] evs[a]).wf() && 1 <= evs[a].id
                    < next_id,
            1 <= next_id <= i64::MAX,
            evv == event@,
            evv.wf(),
            k == evv.key(),
            forall|j: int| 0 <= j < i ==> evs[j].key() != k,
        decreases events@.len() - i,
    {
        if same_key(&events[i], &event) {
            proof {
                lemma_find_key_unique(evs, k, 0, i as int);
            }
            let oid = events[i].id;
            let ofid = events[i].feed_id;
            let ost = events[i].start_time.duplicate();
            let oen = events[i].end_time.duplicate();
            let updated = Event {
                id: oid,
                feed_id: ofid,
                start_time: ost,
                end_time: oen,
                summary: event.summary,
                description: event.description,
                location: event.location,
                uid: event.uid,
                dtstamp: event.dtstamp,
                organizer: event.organizer,
                organizer_cn: event.organizer_cn,
                sequence: event.sequence,
                status: event.status,
            };
            let ghost updv = evs[i as int].updated_from(evv);
            proof {
                assert(updated@ == updv);
            }
            events.set(i, updated);
            proof {
                let now = ev_views(*events);
                assert(now =~= evs.update(i as int, updv));
                assert(updv.key() == evs[i as int].key());
                assert(updv.wf());
                assert(evs[i as int].wf() && 1 <= evs[i as int].id < next_id);
                assert forall|a: int, b: int|
                    0 <= a < b < now.len() implies now[a].key() != now[b].key() && now[a].id
                    != now[b].id by {
                    assert(now[a] == (if a == i as int {
                        updv
                    } else {
                        evs[a]
                    }));
                    assert(now[b] == (if b == i as int {
                        updv
                    } else {
                        evs[b]
                    }));
                    assert(evs[a].key() != evs[b].key());
                    assert(evs[a].id != evs[b].id);
                }
                assert forall|a: int|
                    0 <= a < now.len() implies (#[trigger] now[a]).wf() && 1 <= now[a].id
                    < next_id by {
                    assert(now[a] == (if a == i as int {
                        updv
                    } else {
                        evs[a]
                    }));
                    assert(evs[a].wf() && 1 <= evs[a].id < next_id);
                }
            }
            return Some(next_id);
        }
        i += 1;
    }
    proof {
        lemma_find_key_from_props(evs, k, 0);
        assert(find_key_from(evs, k, 0) == evs.len());
    }
    if next_id == i64::MAX {
        return None;
    }
    let ghost newv = evv.with_id(next_id as int);
    let mut stored = event;
    stored.id = next_id;
    proof {
        assert(stored@ == newv);
    }
    events.push(stored);
    proof {
        let now = ev_views(*events);
        assert(now =~= evs.push(newv));
        assert(newv.wf());
        assert(newv.key() == k);
        assert(newv.id == next_id as int);
        assert forall|a: int, b: int|
            0 <= a < b < now.len() implies now[a].key() != now[b].key() && now[a].id
            != now[b].id by {
            assert(now[a] == (if a < evs.len() {
                evs[a]
            } else {
                newv
            }));
            assert(now[b] == (if b < evs.len() {
                evs[b]
            } else {
                newv
            }));
            if b == now.len() - 1 {
                assert(evs[a].key() != k);
                assert(evs[a].wf() && 1 <= evs[a].id < next_id);
            } else {
                assert(evs[a].key() != evs[b].key());
                assert(evs[a].id != evs[b].id);
            }
        }
        assert forall|a: int|
            0 <= a < now.len() implies (#[trigger] now[a]).wf() && 1 <= now[a].id < next_id
            + 1 by {
            assert(now[a] == (if a < evs.len() {
                evs[a]
            } else {
                newv
            }));
            if a < now.len() - 1 {
                assert(evs[a].wf() && 1 <= evs[a].id < next_id);
            }
        }
    }
    Some(next_id + 1)
}

/// Sorted by start instant, most recent first.
pub open spec fn sorted_desc(evs: Seq<EventView>) -> bool {
    forall|i: int, j: int|
        0 <= i < j < evs.len() ==> evs[i].start_time.instant >= evs[j].start_time.instant
}

impl Store {
    /// This feed's events, most recently starting first.
    pub fn get_events_for_feed(&self, feed_id: i64) -> (r: Vec<Event>)
        requires
            self@.inv(),
        ensures
            sorted_desc(ev_views(r)),
            ev_views(r).to_multiset() == self@.events.filter(
                |e: EventView| e.feed_id == feed_id,
            ).to_multiset(),
            forall|i: int|
                0 <= i < ev_views(r).len() ==> (#[trigger] ev_views(r)[i]).wf() && ev_views(
                    r,
                )[i].feed_id == feed_id,
    {
        broadcast use vstd::seq_lib::group_to_multiset_ensures;

        let ghost p = |e: EventView| e.feed_id == feed_id;
        let ghost evs = self@.events;
        let mut out: Vec<Event> = Vec::new();
        let mut i: usize = 0;
        proof {
            reveal_with_fuel(Seq::filter, 2);
            assert(evs.take(0) =~= Seq::<EventView>::empty());
            assert(ev_views(out) =~= Seq::<EventView>::empty());
        }
        while i < self.events.len()
            invariant
                0 <= i <= self.events@.len(),
                evs == self@.events,
                p == (|e: EventView| e.feed_id == feed_id),
                sorted_desc(ev_views(out)),
                ev_views(out).to_multiset() == evs.take(i as int).filter(p).to_multiset(),
                self@.inv(),
                forall|a: int|
                    0 <= a < ev_views(out).len() ==> (#[trigger] ev_views(out)[a]).wf()
                        && ev_views(out)[a].feed_id == feed_id,
            decreases self.events@.len() - i,
        {
            broadcast use vstd::seq_lib::group_to_multiset_ensures;

            let ghost pre = evs.take(i as int);
            proof {
                reveal_with_fuel(Seq::filter, 2);
                assert(evs.take(i + 1).drop_last() =~= pre);
                assert(evs.take(i + 1).last() == evs[i as int]);
            }
            if self.events[i].feed_id == feed_id {
                let e = self.events[i].duplicate();
                let ghost ev = evs[i as int];
                let mut j: usize = 0;
                while j < out.len() && out[j].start_time.instant >= e.start_time.instant
                    invariant
                        0 <= j <= out@.len(),
                        e@ == ev,
                        forall|a: int|
                            0 <= a < j ==> ev_views(out)[a].start_time.instant
                                >= ev.start_time.instant,
                        sorted_desc(ev_views(out)),
                    decreases out@.len() - j,
                {
                    j += 1;
                }
                let ghost before = ev_views(out);
                out.insert(j, e);
                proof {
                    assert(ev_views(out) =~= before.insert(j as int, ev));
                    let now = ev_views(out);
                    assert forall|a: int, b: int|
                        0 <= a < b < now.len() implies now[a].start_time.instant
                        >= now[b].start_time.instant by {
                        assert(now[a] == (if a < j as int {
                            before[a]
                        } else if a == j as int {
                            ev
                        } else {
                            before[a - 1]
                        }));
                        assert(now[b] == (if b < j as int {
                            before[b]
                        } else if b == j as int {
                            ev
                        } else {
                            before[b - 1]
                        }));
                        if j < before.len() && j as int <= b {
                            assert(before[j as int].start_time.instant < ev.start_time.instant);
                        }
                    }
                    assert(now.remove(j as int) =~= before);
                    assert(now.remove(j as int).to_multiset() =~= now.to_multiset().remove(
                        now[j as int],
                    ));
                    assert(now.to_multiset().contains(ev)) by {
                        assert(now[j as int] == ev);
                        assert(now.contains(ev));
                    }
                    assert(now.to_multiset() =~= before.to_multiset().insert(ev));
                    assert(ev.wf()) by {
                        assert(self@.events[i as int].wf());
                    }
                    assert forall|a: int|
                        0 <= a < now.len() implies (#[trigger] now[a]).wf() && now[a].feed_id
                        == feed_id by {
                        assert(now[a] == (if a < j as int {
                            before[a]
                        } else if a == j as int {
                            ev
                        } else {
                            before[a - 1]
                        }));
                    }
                    assert(evs.take(i + 1).filter(p) =~= pre.filter(p).push(ev));
                    assert(pre.filter(p).push(ev).to_multiset() =~= pre.filter(
                        p,
                    ).to_multiset().insert(ev));
                }
            } else {
                proof {
                    reveal_with_fuel(Seq::filter, 2);
                    assert(evs.take(i + 1).filter(p) == pre.filter(p));
                }
            }
            i += 1;
        }
        proof {
            assert(evs.take(self.events@.len() as int) =~= evs);
        }
        out
    }

    /// Remove every event of this feed. Only the event list changes.
    pub fn delete_events_for_feed(&mut self, feed_id: i64)
        requires
            old(self)@.inv(),
        ensures
            final(self)@.inv(),
            final(self)@.events == old(self)@.events.filter(|e: EventView| e.feed_id != feed_id),
            final(self)@.feeds == old(self)@.feeds,
            final(self)@.calendars == old(self)@.calendars,
            final(self)@.next_event_id == old(self)@.next_event_id,
    {
        let ghost p = |e: EventView| e.feed_id != feed_id;
        let mut out: Vec<Event> = Vec::new();
        let mut i: usize = 0;
        proof {
            reveal_with_fuel(Seq::filter, 2);
            assert(self@.events.take(0) =~= Seq::<EventView>::empty());
            assert(ev_views(out) =~= self@.events.take(0).filter(p));
        }
        while i < self.events.len()
            invariant
                0 <= i <= self.events@.len(),
                self@ == old(self)@,
                old(self)@.inv(),
                p == (|e: EventView| e.feed_id != feed_id),
                ev_views(out) == self@.events.take(i as int).filter(p),
            decreases self.events@.len() - i,
        {
            let ghost pre = self@.events.take(i as int);
            proof {
                reveal_with_fuel(Seq::filter, 2);
                assert(self@.events.take(i + 1).drop_last() =~= pre);
                assert(self@.events.take(i + 1).last() == self@.events[i as int]);
            }
            if self.events[i].feed_id != feed_id {
                let ghost before = ev_views(out);
                out.push(self.events[i].duplicate());
                proof {
                    reveal_with_fuel(Seq::filter, 2);
                    assert(ev_views(out) =~= before.push(self@.events[i as int]));
                    assert(ev_views(out) == self@.events.take(i + 1).filter(p));
                }
            } else {
                proof {
                    reveal_with_fuel(Seq::filter, 2);
                    assert(self@.events.take(i + 1).filter(p) == pre.filter(p));
                }
            }
            i += 1;
        }
        proof {
            assert(self@.events.take(self.events@.len() as int) =~= self@.events);
        }
        self.events = out;
        proof {
            lemma_store_inv_filtered_events(old(self)@, self@, p);
        }
    }

    /// Remove the single event with this identifier. Only the event list
    /// changes.
    pub fn delete_event(&mut self, event_id: i64)
        requires
            old(self)@.inv(),
        ensures
            final(self)@.inv(),
            final(self)@.events == old(self)@.events.filter(|e: EventView| e.id != event_id),
            final(self)@.feeds == old(self)@.feeds,
            final(self)@.calendars == old(self)@.calendars,
            final(self)@.next_event_id == old(self)@.next_event_id,
    {
        let ghost p = |e: EventView| e.id != event_id;
        let mut out: Vec<Event> = Vec::new();
        let mut i: usize = 0;
        proof {
            reveal_with_fuel(Seq::filter, 2);
            assert(self@.events.take(0) =~= Seq::<EventView>::empty());
            assert(ev_views(out) =~= self@.events.take(0).filter(p));
        }
        while i < self.events.len()
            invariant
                0 <= i <= self.events@.len(),
                self@ == old(self)@,
                old(self)@.inv(),
                p == (|e: EventView| e.id != event_id),
                ev_views(out) == self@.events.take(i as int).filter(p),
            decreases self.events@.len() - i,
        {
            let ghost pre = self@.events.take(i as int);
            proof {
                reveal_with_fuel(Seq::filter, 2);
                assert(self@.events.take(i + 1).drop_last() =~= pre);
                assert(self@.events.take(i + 1).last() == self@.events[i as int]);
            }
            if self.events[i].id != event_id {
                let ghost before = ev_views(out);
                out.push(self.events[i].duplicate());
                proof {
                    reveal_with_fuel(Seq::filter, 2);
                    assert(ev_views(out) =~= before.push(self@.events[i as int]));
                    assert(ev_views(out) == self@.events.take(i + 1).filter(p));
                }
            } else {
                proof {
                    reveal_with_fuel(Seq::filter, 2);
                    assert(self@.events.take(i + 1).filter(p) == pre.filter(p));
                }
            }
            i += 1;
        }
        proof {
            assert(self@.events.take(self.events@.len() as int) =~= self@.events);
        }
        self.events = out;
        proof {
            lemma_store_inv_filtered_events(old(self)@, self@, p);
        }
    }
}

/// The store invariant after the event list is narrowed to a filtered copy
/// of a prior state's.
pub proof fn lemma_store_inv_filtered_events(o: StoreView, s: StoreView, p: spec_fn(EventView) -> bool)
    requires
        o.inv(),
        s.feeds =~= o.feeds,
        s.calendars =~= o.calendars,
        s.next_event_id == o.next_event_id,
        s.events =~= o.events.filter(p),
    ensures
        s.inv(),
{
    lemma_filter_unique(o.events, p, |e: EventView| e.key());
    lemma_filter_unique(o.events, p, |e: EventView| e.id);
    lemma_filter_membership(o.events, p);
    let fe = o.events.filter(p);
    let keyk = |e: EventView| e.key();
    let keyi = |e: EventView| e.id;
    assert forall|a: int, b: int|
        0 <= a < b < s.events.len() implies s.events[a].key() != s.events[b].key()
        && s.events[a].id != s.events[b].id by {
        assert(s.events[a] == fe[a]);
        assert(s.events[b] == fe[b]);
        assert(keyk(fe[a]) != keyk(fe[b]));
        assert(keyi(fe[a]) != keyi(fe[b]));
    }
    assert forall|a: int|
        0 <= a < s.events.len() implies (#[trigger] s.events[a]).wf() && 1 <= s.events[a].id
        < s.next_event_id by {
        assert(s.events[a] == fe[a]);
        let j = choose|j: int| 0 <= j < o.events.len() && fe[a] == o.events[j];
        assert(o.events[j].wf() && 1 <= o.events[j].id < o.next_event_id);
    }
    assert forall|i: int, j: int|
        0 <= i < j < s.feeds.len() implies s.feeds[i].id != s.feeds[j].id by {
        assert(s.feeds[i] == o.feeds[i]);
        assert(s.feeds[j] == o.feeds[j]);
        assert(o.feeds[i].id != o.feeds[j].id);
    }
    assert forall|i: int, j: int|
        0 <= i < j < s.calendars.len() implies s.calendars[i].feed_id != s.calendars[j].feed_id by {
        assert(s.calendars[i] == o.calendars[i]);
        assert(s.calendars[j] == o.calendars[j]);
        assert(o.calendars[i].feed_id != o.calendars[j].feed_id);
    }
}

/// `find_cal_from` returns the position whose row belongs to the feed when
/// no earlier position does.
pub proof fn lemma_find_cal_unique(cs: Seq<CalendarRowView>, feed_id: int, i: int, pos: int)
    requires
        0 <= i <= pos < cs.len(),
        cs[pos].feed_id == feed_id,
        forall|j: int| i <= j < pos ==> cs[j].feed_id != feed_id,
    ensures
        find_cal_from(cs, feed_id, i) == pos,
    decreases pos - i,
{
    if i < pos {
        lemma_find_cal_unique(cs, feed_id, i + 1, pos);
    }
}

} // verus!
