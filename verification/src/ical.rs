//! One feed's synchronization: parse the fetched document, normalize every
//! event up front, then merge the calendar envelope and each event — all or
//! nothing, and never deleting. A sweep runs it for every feed, continuing
//! past individual failures.

use vstd::prelude::*;
use crate::db::{
    Store, StoreView, EventView, upsert_calendar_spec, upsert_event_spec, find_key_from,
    upsert_into, clone_events, ev_views,
};
use crate::document::{IcalDocument, parse_document_spec, parse_components};
use crate::lines::{split_logical_lines, parse_all_lines};
use crate::normalize::{
    normalize_events, normalize_events_spec, calendar_row_spec, build_calendar_row, norm_views,
};
use crate::SyncError;

verus! {

/// Parse a whole upstream document. `None` comes exactly when a logical
/// line is malformed or the lines do not form a calendar envelope.
pub fn parse_document(text: &Vec<u8>) -> (r: Option<IcalDocument>)
    ensures
        match r {
            Some(d) => parse_document_spec(text@) == Some(d@),
            None => parse_document_spec(text@) is None,
        },
{
    let lines = split_logical_lines(text);
    match parse_all_lines(&lines) {
        Some(ps) => parse_components(&ps),
        None => None,
    }
}

/// What merging a normalized batch means: each event is upserted in
/// document order; the identifier counter advances once per insertion.
pub open spec fn merge_events_spec(evs: Seq<EventView>, batch: Seq<EventView>, next_id: int) -> (
    Seq<EventView>,
    int,
)
    decreases batch.len(),
{
    if batch.len() == 0 {
        (evs, next_id)
    } else {
        let merged = upsert_event_spec(evs, batch[0], next_id);
        let next2 = if find_key_from(evs, batch[0].key(), 0) < evs.len() {
            next_id
        } else {
            next_id + 1
        };
        merge_events_spec(merged, batch.drop_first(), next2)
    }
}

/// What one feed's synchronization does to the store, and its result: a
/// document without a calendar envelope is a parse error; a failing event
/// normalization fails the whole sync; a merge that would exhaust the
/// identifier space is a storage error; otherwise the calendar row is
/// replaced and every event merged, in document order. On any failure the
/// store keeps its prior state, bit for bit.
pub open spec fn sync_spec(s: StoreView, feed_id: int, doc: Seq<u8>) -> (
    StoreView,
    Result<(), SyncError>,
) {
    match parse_document_spec(doc) {
        None => (s, Err(SyncError::ParseError)),
        Some(d) => match normalize_events_spec(feed_id, d.events) {
            Err(e) => (s, Err(e)),
            Ok(batch) => {
                match try_merge(s.events, batch, s.next_event_id) {
                    None => (s, Err(SyncError::StorageError)),
                    Some(m) => (
                        StoreView {
                            feeds: s.feeds,
                            calendars: upsert_calendar_spec(
                                s.calendars,
                                calendar_row_spec(feed_id, d),
                            ),
                            events: m.0,
                            next_event_id: m.1,
                        },
                        Ok(()),
                    ),
                }
            },
        },
    }
}

/// What merging means when the identifier space can run out: as
/// `merge_events_spec`, except that an insert with no identifier left
/// fails the whole merge.
pub open spec fn try_merge(evs: Seq<EventView>, batch: Seq<EventView>, next_id: int) -> Option<
    (Seq<EventView>, int),
>
    decreases batch.len(),
{
    if batch.len() == 0 {
        Some((evs, next_id))
    } else {
        let i = find_key_from(evs, batch[0].key(), 0);
        if i < evs.len() {
            try_merge(upsert_event_spec(evs, batch[0], next_id), batch.drop_first(), next_id)
        } else if next_id < i64::MAX {
            try_merge(upsert_event_spec(evs, batch[0], next_id), batch.drop_first(), next_id + 1)
        } else {
            None
        }
    }
}

/// A merge that does not run out of identifiers is the plain merge.
pub proof fn lemma_try_merge_eq(evs: Seq<EventView>, batch: Seq<EventView>, next_id: int)
    requires
        try_merge(evs, batch, next_id) is Some,
    ensures
        try_merge(evs, batch, next_id) == Some(merge_events_spec(evs, batch, next_id)),
    decreases batch.len(),
{
    if batch.len() > 0 {
        let i = find_key_from(evs, batch[0].key(), 0);
        let merged = upsert_event_spec(evs, batch[0], next_id);
        if i < evs.len() {
            lemma_try_merge_eq(merged, batch.drop_first(), next_id);
        } else {
            lemma_try_merge_eq(merged, batch.drop_first(), next_id + 1);
        }
    }
}

/// Synchronize one feed from an already-fetched upstream document.
pub fn sync_ical_events(store: &mut Store, feed_id: i64, document: &Vec<u8>) -> (r: Result<
    (),
    SyncError,
>)
    requires
        old(store)@.inv(),
    ensures
        final(store)@.inv(),
        final(store)@ == sync_spec(old(store)@, feed_id as int, document@).0,
        r == sync_spec(old(store)@, feed_id as int, document@).1,
{
    let doc = match parse_document(document) {
        Some(d) => d,
        None => {
            return Err(SyncError::ParseError);
        },
    };
    let batch = match normalize_events(feed_id, &doc.events) {
        Ok(b) => b,
        Err(e) => {
            return Err(e);
        },
    };
    let ghost batchv = norm_views(batch);
    let ghost e0 = store@.events;
    let ghost n0 = store@.next_event_id;
    let mut scratch = clone_events(&store.events);
    let mut next = store.next_event_id;
    proof {
        assert(batchv.skip(0) =~= batchv);
    }
    let mut j: usize = 0;
    while j < batch.len()
        invariant
            0 <= j <= batch@.len(),
            store@ == old(store)@,
            old(store)@.inv(),
            batchv == norm_views(batch),
            batchv.len() == batch@.len(),
            forall|i: int| 0 <= i < batchv.len() ==> (#[trigger] batchv[i]).wf(),
            e0 == old(store)@.events,
            n0 == old(store)@.next_event_id,
            parse_document_spec(document@) == Some(doc@),
            normalize_events_spec(feed_id as int, doc@.events) == Ok::<Seq<EventView>, SyncError>(
                batchv,
            ),
            forall|a: int, b: int|
                0 <= a < b < ev_views(scratch).len() ==> ev_views(scratch)[a].key() != ev_views(
                    scratch,
                )[b].key(),
            forall|a: int, b: int|
                0 <= a < b < ev_views(scratch).len() ==> ev_views(scratch)[a].id != ev_views(
                    scratch,
                )[b].id,
            forall|a: int|
                0 <= a < ev_views(scratch).len() ==> (#[trigger] ev_views(scratch)[a]).wf() && 1
                    <= ev_views(scratch)[a].id < next as int,
            1 <= next as int <= i64::MAX,
            try_merge(e0, batchv, n0) == try_merge(
                ev_views(scratch),
                batchv.skip(j as int),
                next as int,
            ),
        decreases batch@.len() - j,
    {
        proof {
            assert(batchv.skip(j as int)[0] == batchv[j as int]);
            assert(batchv.skip(j as int).drop_first() =~= batchv.skip(j + 1));
            assert(batchv[j as int].wf());
        }
        let ghost cur = ev_views(scratch);
        let e = batch[j].duplicate();
        match upsert_into(&mut scratch, e, next) {
            Some(n2) => {
                proof {
                    if find_key_from(cur, batchv[j as int].key(), 0) < cur.len() {
                        assert(try_merge(cur, batchv.skip(j as int), next as int) == try_merge(
                            upsert_event_spec(cur, batchv[j as int], next as int),
                            batchv.skip(j + 1),
                            next as int,
                        ));
                    } else {
                        assert(n2 as int == next + 1);
                        assert(next < i64::MAX);
                        assert(try_merge(cur, batchv.skip(j as int), next as int) == try_merge(
                            upsert_event_spec(cur, batchv[j as int], next as int),
                            batchv.skip(j + 1),
                            next + 1,
                        ));
                    }
                }
                next = n2;
            },
            None => {
                proof {
                    assert(try_merge(cur, batchv.skip(j as int), next as int) is None);
                    assert(try_merge(e0, batchv, n0) is None);
                }
                return Err(SyncError::StorageError);
            },
        }
        j += 1;
    }
    proof {
        assert(batchv.skip(batchv.len() as int) =~= Seq::<EventView>::empty());
        assert(try_merge(e0, batchv, n0) == Some((ev_views(scratch), next as int)));
    }
    let cal = build_calendar_row(feed_id, &doc);
    store.add_calendar(cal);
    let ghost mid = store@;
    store.events = scratch;
    store.next_event_id = next;
    proof {
        crate::db::lemma_store_inv_from(mid, store@);
        assert(final(store)@ =~~= sync_spec(old(store)@, feed_id as int, document@).0);
    }
    Ok(())
}

/// The on-demand trigger's decision: a read request must synchronize
/// first exactly when the feed has no stored calendar row — it has never
/// synchronized successfully.
pub fn needs_initial_sync(store: &Store, feed_id: i64) -> (r: bool)
    requires
        store@.inv(),
    ensures
        r == (crate::db::find_cal_from(store@.calendars, feed_id as int, 0)
            == store@.calendars.len()),
{
    match store.get_calendar(feed_id) {
        Some(_) => false,
        None => true,
    }
}

/// One feed's fetched upstream document, or nothing when the fetch failed.
pub struct FetchedFeed {
    pub feed_id: i64,
    pub document: Option<Vec<u8>>,
}

#[verifier::ext_equal]
pub struct FetchedFeedView {
    pub feed_id: int,
    pub document: Option<Seq<u8>>,
}

impl View for FetchedFeed {
    type V = FetchedFeedView;

    open spec fn view(&self) -> FetchedFeedView {
        FetchedFeedView {
            feed_id: self.feed_id as int,
            document: crate::db::opt_bytes_view(self.document),
        }
    }
}

/// The views of a fetch list.
pub open spec fn fetched_views(fs: Vec<FetchedFeed>) -> Seq<FetchedFeedView> {
    fs@.map_values(|f: FetchedFeed| f@)
}

/// What one sweep over fetched feeds does: each feed is synchronized in
/// turn — a failed fetch becomes `FetchError` — and one result is recorded
/// per feed; a failure never stops the sweep.
pub open spec fn sweep_spec(s: StoreView, items: Seq<FetchedFeedView>) -> (
    StoreView,
    Seq<Result<(), SyncError>>,
)
    decreases items.len(),
{
    if items.len() == 0 {
        (s, Seq::empty())
    } else {
        let head = match items[0].document {
            None => (s, Err(SyncError::FetchError)),
            Some(doc) => sync_spec(s, items[0].feed_id, doc),
        };
        let rest = sweep_spec(head.0, items.drop_first());
        (rest.0, seq![head.1] + rest.1)
    }
}

/// Synchronize every fetched feed, in order, recording each feed's outcome
/// and never letting one feed's failure halt its siblings.
pub fn sync_all_feeds(store: &mut Store, items: &Vec<FetchedFeed>) -> (r: Vec<
    Result<(), SyncError>,
>)
    requires
        old(store)@.inv(),
    ensures
        final(store)@.inv(),
        final(store)@ == sweep_spec(old(store)@, fetched_views(*items)).0,
        r@ == sweep_spec(old(store)@, fetched_views(*items)).1,
{
    let ghost whole = fetched_views(*items);
    let mut results: Vec<Result<(), SyncError>> = Vec::new();
    proof {
        assert(whole.skip(0) =~= whole);
        match sweep_spec(store@, whole) {
            (_, rs) => {
                assert(results@ + rs =~= rs);
            },
        }
    }
    let mut k: usize = 0;
    while k < items.len()
        invariant
            0 <= k <= items@.len(),
            whole == fetched_views(*items),
            whole.len() == items@.len(),
            store@.inv(),
            sweep_spec(old(store)@, whole).0 == sweep_spec(store@, whole.skip(k as int)).0,
            sweep_spec(old(store)@, whole).1 == results@ + sweep_spec(
                store@,
                whole.skip(k as int),
            ).1,
        decreases items@.len() - k,
    {
        proof {
            assert(whole.skip(k as int)[0] == whole[k as int]);
            assert(whole.skip(k as int).drop_first() =~= whole.skip(k + 1));
        }
        let ghost pre = store@;
        let item = &items[k];
        let outcome: Result<(), SyncError> = match &item.document {
            Some(doc) => sync_ical_events(store, item.feed_id, doc),
            None => Err(SyncError::FetchError),
        };
        let ghost head = match whole[k as int].document {
            None => (pre, Err::<(), SyncError>(SyncError::FetchError)),
            Some(doc) => sync_spec(pre, whole[k as int].feed_id, doc),
        };
        proof {
            assert(store@ == head.0);
            assert(outcome == head.1);
        }
        let ghost before = results@;
        results.push(outcome);
        proof {
            assert(results@ =~= before.push(outcome));
            let rest = sweep_spec(store@, whole.skip(k + 1));
            assert(before + (seq![outcome] + rest.1) =~= results@ + rest.1);
        }
        k += 1;
    }
    proof {
        assert(whole.skip(whole.len() as int) =~= Seq::<FetchedFeedView>::empty());
        assert(results@ + Seq::<Result<(), SyncError>>::empty() =~= results@);
    }
    results
}

} // verus!
