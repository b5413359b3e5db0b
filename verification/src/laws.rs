//! The engine's central guarantees, stated and proved over the
//! synchronization and merge specifications: memory (no sync ever loses a
//! stored event), idempotence of re-synchronizing an unchanged document,
//! update-in-place for a matching natural key, and the whole-sync round
//! trip of a document this library generated.

use vstd::prelude::*;
use crate::db::{
    EventView, StoreView, CalendarRowView, NatKey, upsert_event_spec, upsert_calendar_spec,
    find_key_from, find_cal_from, lemma_find_key_from_props, lemma_find_key_unique,
    lemma_find_cal_from_props, lemma_find_cal_unique,
};
use crate::document::parse_document_spec;
use crate::ical::{merge_events_spec, sync_spec, try_merge, lemma_try_merge_eq};
use crate::normalize::{normalize_events_spec, calendar_row_spec};
use crate::roundtrip::{
    reparse_ok, emit_ok, cal_emit_ok, event_bodies, gen_tz_view,
    lemma_generated_document_reparses, lemma_normalize_generated_batch, lemma_calendar_reparse,
};
use crate::generate::{gen_doc_lines, cal_level_lines};
use crate::lines::render_doc_spec;
use crate::document::DocView;

verus! {

/// The normalized batch a document yields for a feed; empty when the
/// document does not parse or an event does not normalize.
pub open spec fn doc_batch(feed_id: int, doc: Seq<u8>) -> Seq<EventView> {
    match parse_document_spec(doc) {
        Some(d) => match normalize_events_spec(feed_id, d.events) {
            Ok(b) => b,
            Err(_) => Seq::empty(),
        },
        None => Seq::empty(),
    }
}

/// An upsert of one event with a different natural key keeps a stored
/// event exactly as it was.
proof fn lemma_upsert_preserves(evs: Seq<EventView>, b: EventView, fresh_id: int, e: EventView)
    requires
        evs.contains(e),
        b.key() != e.key(),
    ensures
        upsert_event_spec(evs, b, fresh_id).contains(e),
{
    let i = choose|i: int| 0 <= i < evs.len() && evs[i] == e;
    let j = find_key_from(evs, b.key(), 0);
    lemma_find_key_from_props(evs, b.key(), 0);
    let u = upsert_event_spec(evs, b, fresh_id);
    if j < evs.len() {
        assert(evs[j].key() == b.key());
        assert(j != i);
        assert(u[i] == e);
    } else {
        assert(u[i] == e);
    }
}

/// Merging a batch in which a stored event's natural key never appears
/// keeps that event exactly as it was.
proof fn lemma_merge_preserves(
    evs: Seq<EventView>,
    batch: Seq<EventView>,
    next_id: int,
    e: EventView,
)
    requires
        evs.contains(e),
        forall|k: int| 0 <= k < batch.len() ==> (#[trigger] batch[k]).key() != e.key(),
    ensures
        merge_events_spec(evs, batch, next_id).0.contains(e),
    decreases batch.len(),
{
    if batch.len() > 0 {
        lemma_upsert_preserves(evs, batch[0], next_id, e);
        let merged = upsert_event_spec(evs, batch[0], next_id);
        let next2 = if find_key_from(evs, batch[0].key(), 0) < evs.len() {
            next_id
        } else {
            next_id + 1
        };
        assert forall|k: int|
            0 <= k < batch.drop_first().len() implies (#[trigger] batch.drop_first()[k]).key()
            != e.key() by {
            assert(batch.drop_first()[k] == batch[k + 1]);
        }
        lemma_merge_preserves(merged, batch.drop_first(), next2, e);
    }
}

/// The memory guarantee: an event stored before a sync cycle whose natural
/// key does not appear in the upstream document during that cycle is still
/// stored, unmodified, after the cycle — whether the cycle succeeded or
/// failed.
pub proof fn lemma_memory_invariant(s: StoreView, feed_id: int, doc: Seq<u8>, e: EventView)
    requires
        s.events.contains(e),
        forall|k: int|
            0 <= k < doc_batch(feed_id, doc).len() ==> (#[trigger] doc_batch(feed_id, doc)[k]).key()
                != e.key(),
    ensures
        sync_spec(s, feed_id, doc).0.events.contains(e),
{
    match parse_document_spec(doc) {
        None => {},
        Some(d) => {
            match normalize_events_spec(feed_id, d.events) {
                Err(_) => {},
                Ok(batch) => {
                    assert(batch == doc_batch(feed_id, doc));
                    match try_merge(s.events, batch, s.next_event_id) {
                        None => {},
                        Some(_) => {
                            lemma_try_merge_eq(s.events, batch, s.next_event_id);
                            lemma_merge_preserves(s.events, batch, s.next_event_id, e);
                        },
                    }
                },
            }
        },
    }
}

/// Update-in-place: when an incoming event shares a stored event's natural
/// key, the merge updates the stored row's mutable fields, keeps its
/// identifier and its start and end times, leaves every other row as it
/// was, and adds no row.
pub proof fn lemma_update_in_place(
    evs: Seq<EventView>,
    incoming: EventView,
    fresh_id: int,
    i: int,
)
    requires
        forall|a: int, b: int| 0 <= a < b < evs.len() ==> evs[a].key() != evs[b].key(),
        0 <= i < evs.len(),
        evs[i].key() == incoming.key(),
    ensures
        upsert_event_spec(evs, incoming, fresh_id).len() == evs.len(),
        upsert_event_spec(evs, incoming, fresh_id)[i].id == evs[i].id,
        upsert_event_spec(evs, incoming, fresh_id)[i].start_time == evs[i].start_time,
        upsert_event_spec(evs, incoming, fresh_id)[i].end_time == evs[i].end_time,
        upsert_event_spec(evs, incoming, fresh_id)[i].summary == incoming.summary,
        upsert_event_spec(evs, incoming, fresh_id)[i].description == incoming.description,
        upsert_event_spec(evs, incoming, fresh_id)[i].location == incoming.location,
        upsert_event_spec(evs, incoming, fresh_id)[i].uid == incoming.uid,
        upsert_event_spec(evs, incoming, fresh_id)[i].dtstamp == incoming.dtstamp,
        upsert_event_spec(evs, incoming, fresh_id)[i].organizer == incoming.organizer,
        upsert_event_spec(evs, incoming, fresh_id)[i].organizer_cn == incoming.organizer_cn,
        upsert_event_spec(evs, incoming, fresh_id)[i].sequence == incoming.sequence,
        upsert_event_spec(evs, incoming, fresh_id)[i].status == incoming.status,
        forall|j: int|
            0 <= j < evs.len() && j != i ==> upsert_event_spec(evs, incoming, fresh_id)[j]
                == evs[j],
{
    assert forall|j: int| 0 <= j < i implies evs[j].key() != incoming.key() by {
        assert(evs[j].key() != evs[i].key());
    }
    lemma_find_key_unique(evs, incoming.key(), 0, i);
}

/// The first stored event with this key already carries the incoming
/// event's mutable fields.
pub open spec fn settled_for(evs: Seq<EventView>, b: EventView) -> bool {
    let i = find_key_from(evs, b.key(), 0);
    i < evs.len() && evs[i].updated_from(b) == evs[i]
}

/// An upsert settles its own event.
proof fn lemma_upsert_settles(evs: Seq<EventView>, b: EventView, fresh_id: int)
    ensures
        settled_for(upsert_event_spec(evs, b, fresh_id), b),
{
    let j = find_key_from(evs, b.key(), 0);
    lemma_find_key_from_props(evs, b.key(), 0);
    let u = upsert_event_spec(evs, b, fresh_id);
    if j < evs.len() {
        assert forall|p: int| 0 <= p < j implies u[p].key() != b.key() by {
            assert(u[p] == evs[p]);
        }
        assert(u[j].key() == b.key());
        lemma_find_key_unique(u, b.key(), 0, j);
        assert(u[j].updated_from(b) == u[j]);
    } else {
        assert forall|p: int| 0 <= p < evs.len() implies u[p].key() != b.key() by {
            assert(u[p] == evs[p]);
        }
        assert(u[evs.len() as int].key() == b.key());
        lemma_find_key_unique(u, b.key(), 0, evs.len() as int);
        assert(u[evs.len() as int].updated_from(b) == u[evs.len() as int]);
    }
}

/// An upsert under a different key does not unsettle an event.
proof fn lemma_upsert_settled_preserved(
    evs: Seq<EventView>,
    b: EventView,
    fresh_id: int,
    x: EventView,
)
    requires
        settled_for(evs, x),
        b.key() != x.key(),
    ensures
        settled_for(upsert_event_spec(evs, b, fresh_id), x),
{
    let i = find_key_from(evs, x.key(), 0);
    lemma_find_key_from_props(evs, x.key(), 0);
    let j = find_key_from(evs, b.key(), 0);
    lemma_find_key_from_props(evs, b.key(), 0);
    let u = upsert_event_spec(evs, b, fresh_id);
    if j < evs.len() {
        assert(evs[j].key() == b.key());
        assert(j != i);
        assert(u[i] == evs[i]);
        assert forall|p: int| 0 <= p < i implies u[p].key() != x.key() by {
            if p == j {
                assert(u[p].key() == evs[p].key());
            } else {
                assert(u[p] == evs[p]);
            }
        }
        assert(u[i].key() == x.key());
        lemma_find_key_unique(u, x.key(), 0, i);
    } else {
        assert(u[i] == evs[i]);
        assert forall|p: int| 0 <= p < i implies u[p].key() != x.key() by {
            assert(u[p] == evs[p]);
        }
        lemma_find_key_unique(u, x.key(), 0, i);
    }
}

/// A merge whose batch avoids an event's key does not unsettle it.
proof fn lemma_merge_settled_preserved(
    evs: Seq<EventView>,
    batch: Seq<EventView>,
    next_id: int,
    x: EventView,
)
    requires
        settled_for(evs, x),
        forall|k: int| 0 <= k < batch.len() ==> (#[trigger] batch[k]).key() != x.key(),
    ensures
        settled_for(merge_events_spec(evs, batch, next_id).0, x),
    decreases batch.len(),
{
    if batch.len() > 0 {
        lemma_upsert_settled_preserved(evs, batch[0], next_id, x);
        let merged = upsert_event_spec(evs, batch[0], next_id);
        let next2 = if find_key_from(evs, batch[0].key(), 0) < evs.len() {
            next_id
        } else {
            next_id + 1
        };
        assert forall|k: int|
            0 <= k < batch.drop_first().len() implies (#[trigger] batch.drop_first()[k]).key()
            != x.key() by {
            assert(batch.drop_first()[k] == batch[k + 1]);
        }
        lemma_merge_settled_preserved(merged, batch.drop_first(), next2, x);
    }
}

/// Merging a batch every member of which is already settled changes
/// nothing.
proof fn lemma_merge_noop(evs: Seq<EventView>, batch: Seq<EventView>, next_id: int)
    requires
        forall|k: int| 0 <= k < batch.len() ==> settled_for(evs, #[trigger] batch[k]),
    ensures
        merge_events_spec(evs, batch, next_id) == (evs, next_id),
    decreases batch.len(),
{
    if batch.len() > 0 {
        assert(settled_for(evs, batch[0]));
        let i = find_key_from(evs, batch[0].key(), 0);
        lemma_find_key_from_props(evs, batch[0].key(), 0);
        assert(0 <= i < evs.len());
        assert(evs[i].updated_from(batch[0]) == evs[i]);
        assert(evs.update(i, evs[i].updated_from(batch[0])) =~= evs);
        assert forall|k: int|
            0 <= k < batch.drop_first().len() implies settled_for(
            evs,
            #[trigger] batch.drop_first()[k],
        ) by {
            assert(batch.drop_first()[k] == batch[k + 1]);
        }
        lemma_merge_noop(evs, batch.drop_first(), next_id);
    }
}



/// Some row carries this natural key.
pub open spec fn key_present(evs: Seq<EventView>, k: NatKey) -> bool {
    exists|p: int| 0 <= p < evs.len() && (#[trigger] evs[p]).key() == k
}

/// Upserting never removes a key's presence.
proof fn lemma_upsert_keeps_presence(evs: Seq<EventView>, b: EventView, fresh_id: int, k: NatKey)
    requires
        key_present(evs, k),
    ensures
        key_present(upsert_event_spec(evs, b, fresh_id), k),
{
    let p = choose|p: int| 0 <= p < evs.len() && (#[trigger] evs[p]).key() == k;
    let j = find_key_from(evs, b.key(), 0);
    lemma_find_key_from_props(evs, b.key(), 0);
    let u = upsert_event_spec(evs, b, fresh_id);
    assert(u[p].key() == k);
}

/// After an upsert, the upserted event's key is present.
proof fn lemma_upsert_adds_presence(evs: Seq<EventView>, b: EventView, fresh_id: int)
    ensures
        key_present(upsert_event_spec(evs, b, fresh_id), b.key()),
{
    let j = find_key_from(evs, b.key(), 0);
    lemma_find_key_from_props(evs, b.key(), 0);
    let u = upsert_event_spec(evs, b, fresh_id);
    if j < evs.len() {
        assert(u[j].key() == b.key());
    } else {
        assert(u[evs.len() as int].key() == b.key());
    }
}

/// After a merge, every batch key is present.
proof fn lemma_merge_all_keys_present(evs: Seq<EventView>, batch: Seq<EventView>, next_id: int)
    ensures
        forall|k: int|
            0 <= k < batch.len() ==> key_present(
                merge_events_spec(evs, batch, next_id).0,
                (#[trigger] batch[k]).key(),
            ),
    decreases batch.len(),
{
    if batch.len() > 0 {
        let merged = upsert_event_spec(evs, batch[0], next_id);
        let next2 = if find_key_from(evs, batch[0].key(), 0) < evs.len() {
            next_id
        } else {
            next_id + 1
        };
        lemma_merge_all_keys_present(merged, batch.drop_first(), next2);
        lemma_upsert_adds_presence(evs, batch[0], next_id);
        lemma_merge_keeps_presence(merged, batch.drop_first(), next2, batch[0].key());
        assert(merge_events_spec(evs, batch, next_id) == merge_events_spec(
            merged,
            batch.drop_first(),
            next2,
        ));
        assert forall|k: int|
            0 <= k < batch.len() implies key_present(
            merge_events_spec(evs, batch, next_id).0,
            (#[trigger] batch[k]).key(),
        ) by {
            if k > 0 {
                assert(batch.drop_first()[k - 1] == batch[k]);
                assert(key_present(
                    merge_events_spec(merged, batch.drop_first(), next2).0,
                    batch.drop_first()[k - 1].key(),
                ));
            } else {
                assert(key_present(
                    merge_events_spec(merged, batch.drop_first(), next2).0,
                    batch[0].key(),
                ));
            }
        }
    }
}

/// Merging never removes a key's presence.
proof fn lemma_merge_keeps_presence(
    evs: Seq<EventView>,
    batch: Seq<EventView>,
    next_id: int,
    k: NatKey,
)
    requires
        key_present(evs, k),
    ensures
        key_present(merge_events_spec(evs, batch, next_id).0, k),
    decreases batch.len(),
{
    if batch.len() > 0 {
        lemma_upsert_keeps_presence(evs, batch[0], next_id, k);
        let merged = upsert_event_spec(evs, batch[0], next_id);
        let next2 = if find_key_from(evs, batch[0].key(), 0) < evs.len() {
            next_id
        } else {
            next_id + 1
        };
        lemma_merge_keeps_presence(merged, batch.drop_first(), next2, k);
        assert(merge_events_spec(evs, batch, next_id) == merge_events_spec(
            merged,
            batch.drop_first(),
            next2,
        ));
    }
}

/// Upserting keeps natural keys pairwise distinct.
proof fn lemma_upsert_unique_keys(evs: Seq<EventView>, b: EventView, fresh_id: int)
    requires
        forall|a: int, c: int| 0 <= a < c < evs.len() ==> evs[a].key() != evs[c].key(),
    ensures
        forall|a: int, c: int|
            0 <= a < c < upsert_event_spec(evs, b, fresh_id).len() ==> upsert_event_spec(
                evs,
                b,
                fresh_id,
            )[a].key() != upsert_event_spec(evs, b, fresh_id)[c].key(),
{
    let j = find_key_from(evs, b.key(), 0);
    lemma_find_key_from_props(evs, b.key(), 0);
    let u = upsert_event_spec(evs, b, fresh_id);
    assert forall|a: int, c: int|
        0 <= a < c < u.len() implies u[a].key() != u[c].key() by {
        if j < evs.len() {
            assert(u[a].key() == evs[a].key());
            assert(u[c].key() == evs[c].key());
        } else {
            if c == u.len() - 1 {
                assert(u[a].key() == evs[a].key());
                assert(evs[a].key() != b.key());
            } else {
                assert(u[a].key() == evs[a].key());
                assert(u[c].key() == evs[c].key());
            }
        }
    }
}

/// Merging keeps natural keys pairwise distinct.
proof fn lemma_merge_unique_keys(evs: Seq<EventView>, batch: Seq<EventView>, next_id: int)
    requires
        forall|a: int, c: int| 0 <= a < c < evs.len() ==> evs[a].key() != evs[c].key(),
    ensures
        forall|a: int, c: int|
            0 <= a < c < merge_events_spec(evs, batch, next_id).0.len() ==> merge_events_spec(
                evs,
                batch,
                next_id,
            ).0[a].key() != merge_events_spec(evs, batch, next_id).0[c].key(),
    decreases batch.len(),
{
    if batch.len() > 0 {
        lemma_upsert_unique_keys(evs, batch[0], next_id);
        let merged = upsert_event_spec(evs, batch[0], next_id);
        let next2 = if find_key_from(evs, batch[0].key(), 0) < evs.len() {
            next_id
        } else {
            next_id + 1
        };
        lemma_merge_unique_keys(merged, batch.drop_first(), next2);
        assert(merge_events_spec(evs, batch, next_id) == merge_events_spec(
            merged,
            batch.drop_first(),
            next2,
        ));
        assert forall|a: int, c: int|
            0 <= a < c < merge_events_spec(evs, batch, next_id).0.len() implies merge_events_spec(
            evs,
            batch,
            next_id,
        ).0[a].key() != merge_events_spec(evs, batch, next_id).0[c].key() by {
            assert(merge_events_spec(merged, batch.drop_first(), next2).0[a].key()
                != merge_events_spec(merged, batch.drop_first(), next2).0[c].key());
        }
    }
}

/// Whether no later batch entry shares this entry's key.
pub open spec fn last_with_key(batch: Seq<EventView>, k: int) -> bool {
    forall|j: int| k < j < batch.len() ==> batch[j].key() != batch[k].key()
}

/// After a merge, every batch entry that is the last of its key is
/// settled: the row under its key carries exactly its mutable fields.
proof fn lemma_merge_settles_last(evs: Seq<EventView>, batch: Seq<EventView>, next_id: int)
    ensures
        forall|k: int|
            0 <= k < batch.len() && last_with_key(batch, k) ==> settled_for(
                merge_events_spec(evs, batch, next_id).0,
                #[trigger] batch[k],
            ),
    decreases batch.len(),
{
    if batch.len() > 0 {
        let merged = upsert_event_spec(evs, batch[0], next_id);
        let next2 = if find_key_from(evs, batch[0].key(), 0) < evs.len() {
            next_id
        } else {
            next_id + 1
        };
        lemma_merge_settles_last(merged, batch.drop_first(), next2);
        assert forall|k: int|
            0 <= k < batch.len() && last_with_key(batch, k) implies settled_for(
            merge_events_spec(evs, batch, next_id).0,
            #[trigger] batch[k],
        ) by {
            if k == 0 {
                lemma_upsert_settles(evs, batch[0], next_id);
                assert forall|j: int|
                    0 <= j < batch.drop_first().len() implies (#[trigger] batch.drop_first()[
                    j]).key() != batch[0].key() by {
                    assert(batch.drop_first()[j] == batch[j + 1]);
                }
                lemma_merge_settled_preserved(merged, batch.drop_first(), next2, batch[0]);
            } else {
                assert(batch.drop_first()[k - 1] == batch[k]);
                assert(last_with_key(batch.drop_first(), k - 1)) by {
                    assert(forall|j: int|
                        k - 1 < j < batch.drop_first().len()
                            ==> #[trigger] batch.drop_first()[j] == batch[j + 1]);
                }
            }
        }
    }
}

/// A merge whose every key is already present converges to any state that
/// agrees on the rows no remaining entry will write, provided the last
/// write of each key is already in place there.
proof fn lemma_merge_converges(
    target: Seq<EventView>,
    cur: Seq<EventView>,
    rest: Seq<EventView>,
    next_id: int,
)
    requires
        cur.len() == target.len(),
        forall|p: int|
            0 <= p < cur.len() ==> (#[trigger] cur[p]).id == target[p].id && cur[p].feed_id
                == target[p].feed_id && cur[p].start_time == target[p].start_time && cur[p].end_time
                == target[p].end_time,
        forall|a: int, c: int| 0 <= a < c < target.len() ==> target[a].key() != target[c].key(),
        forall|p: int|
            0 <= p < cur.len() && cur[p] != target[p] ==> exists|k: int|
                0 <= k < rest.len() && (#[trigger] rest[k]).key() == (#[trigger] cur[p]).key(),
        forall|k: int| 0 <= k < rest.len() ==> key_present(cur, (#[trigger] rest[k]).key()),
        forall|k: int|
            0 <= k < rest.len() && last_with_key(rest, k) ==> settled_for(
                target,
                #[trigger] rest[k],
            ),
    ensures
        merge_events_spec(cur, rest, next_id) == (target, next_id),
    decreases rest.len(),
{
    assert forall|p: int| 0 <= p < cur.len() implies (#[trigger] cur[p]).key()
        == target[p].key() by {}
    if rest.len() == 0 {
        assert forall|p: int| 0 <= p < cur.len() implies cur[p] == target[p] by {}
        assert(cur =~= target);
    } else {
        let b0 = rest[0];
        assert(key_present(cur, b0.key()));
        let p0 = choose|p: int| 0 <= p < cur.len() && (#[trigger] cur[p]).key() == b0.key();
        assert forall|q: int| 0 <= q < p0 implies cur[q].key() != b0.key() by {
            if cur[q].key() == b0.key() {
                assert(target[q].key() == target[p0].key());
            }
        }
        lemma_find_key_unique(cur, b0.key(), 0, p0);
        let nxt = upsert_event_spec(cur, b0, next_id);
        assert(nxt == cur.update(p0, cur[p0].updated_from(b0)));
        let rest2 = rest.drop_first();
        assert(forall|j: int| 0 <= j < rest2.len() ==> #[trigger] rest2[j] == rest[j + 1]);
        assert forall|p: int|
            0 <= p < nxt.len() && nxt[p] != target[p] implies exists|k: int|
            0 <= k < rest2.len() && (#[trigger] rest2[k]).key() == (#[trigger] nxt[p]).key() by {
            if p == p0 {
                if last_with_key(rest, 0) {
                    assert(settled_for(target, b0));
                    let i = find_key_from(target, b0.key(), 0);
                    lemma_find_key_from_props(target, b0.key(), 0);
                    assert forall|q: int| 0 <= q < p0 implies target[q].key() != b0.key() by {
                        assert(target[q].key() == cur[q].key());
                    }
                    lemma_find_key_unique(target, b0.key(), 0, p0);
                    assert(target[p0].updated_from(b0) == target[p0]);
                    assert(nxt[p0] == target[p0]);
                } else {
                    let j = choose|j: int|
                        0 < j < rest.len() && (#[trigger] rest[j]).key() == b0.key();
                    assert(rest2[j - 1].key() == nxt[p0].key());
                }
            } else {
                assert(nxt[p] == cur[p]);
                assert(cur[p] != target[p]);
                let k = choose|k: int|
                    0 <= k < rest.len() && (#[trigger] rest[k]).key() == cur[p].key();
                if k == 0 {
                    assert(cur[p].key() == b0.key());
                    assert(target[p].key() == target[p0].key());
                    assert(false);
                } else {
                    assert(rest2[k - 1].key() == nxt[p].key());
                }
            }
        }
        assert forall|k: int|
            0 <= k < rest2.len() implies key_present(nxt, (#[trigger] rest2[k]).key()) by {
            assert(rest2[k] == rest[k + 1]);
            assert(key_present(cur, rest[k + 1].key()));
            let p = choose|p: int|
                0 <= p < cur.len() && (#[trigger] cur[p]).key() == rest[k + 1].key();
            assert(nxt[p].key() == rest[k + 1].key());
        }
        assert forall|k: int|
            0 <= k < rest2.len() && last_with_key(rest2, k) implies settled_for(
            target,
            #[trigger] rest2[k],
        ) by {
            assert(rest2[k] == rest[k + 1]);
            assert(last_with_key(rest, k + 1)) by {
                assert(forall|j: int|
                    k + 1 < j < rest.len() ==> #[trigger] rest[j] == rest2[j - 1]);
            }
        }
        assert forall|p: int|
            0 <= p < nxt.len() implies (#[trigger] nxt[p]).id == target[p].id && nxt[p].feed_id
            == target[p].feed_id && nxt[p].start_time == target[p].start_time && nxt[p].end_time
            == target[p].end_time by {
            if p != p0 {
                assert(nxt[p] == cur[p]);
            }
        }
        lemma_merge_converges(target, nxt, rest2, next_id);
        assert(merge_events_spec(cur, rest, next_id) == merge_events_spec(nxt, rest2, next_id));
    }
}

/// Replacing a feed's calendar row twice with the same row is the same as
/// replacing it once.
proof fn lemma_upsert_calendar_idempotent(cs: Seq<CalendarRowView>, c: CalendarRowView)
    ensures
        upsert_calendar_spec(upsert_calendar_spec(cs, c), c) == upsert_calendar_spec(cs, c),
{
    let i = find_cal_from(cs, c.feed_id, 0);
    lemma_find_cal_from_props(cs, c.feed_id, 0);
    let u = upsert_calendar_spec(cs, c);
    if i < cs.len() {
        assert forall|p: int| 0 <= p < i implies u[p].feed_id != c.feed_id by {
            assert(u[p] == cs[p]);
        }
        assert(u[i].feed_id == c.feed_id);
        lemma_find_cal_unique(u, c.feed_id, 0, i);
        assert(u.update(i, c) =~= u);
    } else {
        assert forall|p: int| 0 <= p < cs.len() implies u[p].feed_id != c.feed_id by {
            assert(u[p] == cs[p]);
        }
        assert(u[cs.len() as int].feed_id == c.feed_id);
        lemma_find_cal_unique(u, c.feed_id, 0, cs.len() as int);
        assert(u.update(cs.len() as int, c) =~= u);
    }
}

/// A merge whose every key is already present never inserts: it cannot
/// run out of identifiers and the counter stands still.
proof fn lemma_try_merge_all_present(evs: Seq<EventView>, batch: Seq<EventView>, next_id: int)
    requires
        forall|k: int| 0 <= k < batch.len() ==> key_present(evs, (#[trigger] batch[k]).key()),
    ensures
        try_merge(evs, batch, next_id) == Some(
            (merge_events_spec(evs, batch, next_id).0, next_id),
        ),
    decreases batch.len(),
{
    if batch.len() > 0 {
        assert(key_present(evs, batch[0].key()));
        let p = choose|p: int| 0 <= p < evs.len() && (#[trigger] evs[p]).key() == batch[0].key();
        lemma_find_key_from_props(evs, batch[0].key(), 0);
        assert(find_key_from(evs, batch[0].key(), 0) < evs.len());
        let merged = upsert_event_spec(evs, batch[0], next_id);
        assert forall|k: int|
            0 <= k < batch.drop_first().len() implies key_present(
            merged,
            (#[trigger] batch.drop_first()[k]).key(),
        ) by {
            assert(batch.drop_first()[k] == batch[k + 1]);
            lemma_upsert_keeps_presence(evs, batch[0], next_id, batch[k + 1].key());
        }
        lemma_try_merge_all_present(merged, batch.drop_first(), next_id);
    }
}

/// Idempotent merge: synchronizing the same unchanged upstream document
/// twice in a row succeeds again and leaves the store exactly as the first
/// synchronization left it — no new event rows and identical field values.
/// The second merge only updates rows in place, so it cannot run out of
/// identifiers; duplicate natural keys within the document are covered.
pub proof fn lemma_idempotent_merge(s: StoreView, feed_id: int, doc: Seq<u8>)
    requires
        s.inv(),
        sync_spec(s, feed_id, doc).1 is Ok,
    ensures
        sync_spec(sync_spec(s, feed_id, doc).0, feed_id, doc).1 is Ok,
        sync_spec(sync_spec(s, feed_id, doc).0, feed_id, doc).0 == sync_spec(s, feed_id, doc).0,
{
    let d = parse_document_spec(doc).unwrap();
    let batch = match normalize_events_spec(feed_id, d.events) {
        Ok(b) => b,
        Err(_) => Seq::empty(),
    };
    assert(batch == doc_batch(feed_id, doc));
    lemma_try_merge_eq(s.events, batch, s.next_event_id);
    let s1 = sync_spec(s, feed_id, doc).0;
    let m = merge_events_spec(s.events, batch, s.next_event_id);
    assert(s1.events == m.0 && s1.next_event_id == m.1);
    lemma_merge_unique_keys(s.events, batch, s.next_event_id);
    lemma_merge_all_keys_present(s.events, batch, s.next_event_id);
    lemma_merge_settles_last(s.events, batch, s.next_event_id);
    lemma_try_merge_all_present(m.0, batch, s1.next_event_id);
    lemma_merge_converges(m.0, m.0, batch, s1.next_event_id);
    lemma_upsert_calendar_idempotent(s.calendars, calendar_row_spec(feed_id, d));
    let s2 = sync_spec(s1, feed_id, doc).0;
    assert(s2 =~~= s1);
}


/// The whole-sync round trip: fetching back the very document this
/// library generated for a feed and synchronizing it again succeeds and
/// leaves the store exactly as it was — every natural key and every
/// mutable field of the feed's events, and its calendar row, are
/// reproduced. `evs` is any list of the feed's stored events, as the
/// generator serves them.
pub proof fn lemma_sync_round_trip(s: StoreView, g: int, evs: Seq<EventView>)
    requires
        s.inv(),
        find_cal_from(s.calendars, g, 0) < s.calendars.len(),
        cal_emit_ok(s.calendars[find_cal_from(s.calendars, g, 0)]),
        forall|k: int|
            0 <= k < evs.len() ==> s.events.contains(#[trigger] evs[k]) && evs[k].feed_id == g
                && emit_ok(evs[k]) && reparse_ok(evs[k]),
    ensures
        sync_spec(
            s,
            g,
            render_doc_spec(gen_doc_lines(s.calendars[find_cal_from(s.calendars, g, 0)], evs)),
        ).1 == Ok::<(), crate::SyncError>(()),
        sync_spec(
            s,
            g,
            render_doc_spec(gen_doc_lines(s.calendars[find_cal_from(s.calendars, g, 0)], evs)),
        ).0 == s,
{
    let ci = find_cal_from(s.calendars, g, 0);
    let c = s.calendars[ci];
    lemma_find_cal_from_props(s.calendars, g, 0);
    assert(c.feed_id == g);
    let docb = render_doc_spec(gen_doc_lines(c, evs));
    assert forall|i: int|
        0 <= i < evs.len() implies (#[trigger] evs[i]).wf() && emit_ok(evs[i]) && reparse_ok(
        evs[i],
    ) by {
        assert(reparse_ok(evs[i]));
    }
    lemma_generated_document_reparses(c, evs);
    let dv = DocView {
        cal_props: cal_level_lines(c),
        timezones: seq![gen_tz_view(c)],
        events: event_bodies(evs),
    };
    assert(parse_document_spec(docb) == Some(dv));
    lemma_normalize_generated_batch(g, evs);
    let batch = evs.map_values(|e: EventView| e.with_id(0));
    assert(normalize_events_spec(g, dv.events) == Ok::<Seq<EventView>, crate::SyncError>(batch));
    assert forall|k: int|
        0 <= k < batch.len() implies key_present(s.events, (#[trigger] batch[k]).key())
        && settled_for(s.events, batch[k]) by {
        assert(batch[k] == evs[k].with_id(0));
        assert(batch[k].key() == evs[k].key());
        assert(s.events.contains(evs[k]));
        let p = choose|p: int| 0 <= p < s.events.len() && s.events[p] == evs[k];
        assert(s.events[p].key() == batch[k].key());
        assert(key_present(s.events, batch[k].key()));
        let q = find_key_from(s.events, batch[k].key(), 0);
        lemma_find_key_from_props(s.events, batch[k].key(), 0);
        assert(q < s.events.len());
        if q != p {
            assert(s.events[q].key() != s.events[p].key());
        }
        assert(q == p);
        assert(evs[k].updated_from(evs[k].with_id(0)) =~~= evs[k]);
        assert(s.events[q].updated_from(batch[k]) == s.events[q]);
    }
    lemma_try_merge_all_present(s.events, batch, s.next_event_id);
    lemma_merge_noop(s.events, batch, s.next_event_id);
    lemma_calendar_reparse(g, c, event_bodies(evs));
    assert(calendar_row_spec(g, dv) == (CalendarRowView { feed_id: g, ..c }));
    assert((CalendarRowView { feed_id: g, ..c }) =~~= c);
    assert forall|p: int| 0 <= p < ci implies s.calendars[p].feed_id != c.feed_id by {}
    lemma_find_cal_unique(s.calendars, c.feed_id, 0, ci);
    assert(upsert_calendar_spec(s.calendars, c) == s.calendars.update(ci, c));
    assert(s.calendars.update(ci, c) =~= s.calendars);
    assert(sync_spec(s, g, docb).0 =~~= s);
}

} // verus!

