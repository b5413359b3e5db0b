//! The decision logic behind the subscription endpoints: creating a feed
//! and answering with its links, and the authorized deletion paths. The
//! surrounding transport hands in plain values and performs the I/O.

use vstd::prelude::*;
use crate::bytes::{clone_bytes, format_i64, i64_dec, push_bytes, bytes_eq};
use crate::db::Store;
use crate::SyncError;

verus! {

/// A subscription request: the upstream document's address.
#[derive(Debug)]
pub struct AddFeedRequest {
    pub url: Vec<u8>,
}

/// The answer to a subscription: where the feed is served, the secret that
/// authorizes managing it, and the management address.
#[derive(Debug)]
pub struct AddFeedResponse {
    pub url: Vec<u8>,
    pub manage_token: Vec<u8>,
    pub manage_url: Vec<u8>,
}

/// A deletion request: the method override a form may carry.
#[derive(Debug)]
pub struct DeleteFeedRequest {
    pub method: Option<Vec<u8>>,
}

/// The text `/feed/`.
pub open spec fn feed_prefix() -> Seq<u8> {
    seq![47u8, 102u8, 101u8, 101u8, 100u8, 47u8]
}

/// The serving path of a feed, `/feed/<id>`.
pub open spec fn feed_path(id: int) -> Seq<u8> {
    feed_prefix() + i64_dec(id)
}

/// The management path of a feed, `/feed/<id>/<token>`.
pub open spec fn manage_path(id: int, token: Seq<u8>) -> Seq<u8> {
    feed_path(id) + seq![47u8] + token
}

fn feed_prefix_bytes() -> (r: Vec<u8>)
    ensures
        r@ == feed_prefix(),
{
    let mut v: Vec<u8> = Vec::new();
    v.push(47);
    v.push(102);
    v.push(101);
    v.push(101);
    v.push(100);
    v.push(47);
    assert(v@ =~= feed_prefix());
    v
}

/// Build the serving path of a feed.
pub fn feed_path_bytes(id: i64) -> (r: Vec<u8>)
    ensures
        r@ == feed_path(id as int),
{
    let mut v = feed_prefix_bytes();
    let mut d = format_i64(id);
    v.append(&mut d);
    v
}

/// Build the management path of a feed.
pub fn manage_path_bytes(id: i64, token: &Vec<u8>) -> (r: Vec<u8>)
    ensures
        r@ == manage_path(id as int, token@),
{
    let mut v = feed_path_bytes(id);
    v.push(47);
    push_bytes(&mut v, token);
    proof {
        assert(v@ =~= manage_path(id as int, token@));
    }
    v
}

/// Register a feed under a fresh identifier and management secret, both
/// chosen by the caller, and answer with its links. An identifier already
/// in use is a storage error, and the store is unchanged.
pub fn add_feed(store: &mut Store, feed_id: i64, manage_token: &Vec<u8>, req: &AddFeedRequest)
    -> (r: Result<AddFeedResponse, SyncError>)
    requires
        old(store)@.inv(),
    ensures
        final(store)@.inv(),
        final(store)@.calendars == old(store)@.calendars,
        final(store)@.events == old(store)@.events,
        final(store)@.next_event_id == old(store)@.next_event_id,
        match r {
            Ok(resp) => {
                &&& (forall|i: int|
                    0 <= i < old(store)@.feeds.len() ==> old(store)@.feeds[i].id != feed_id)
                &&& final(store)@.feeds == old(store)@.feeds.push(
                    crate::db::FeedView {
                        id: feed_id as int,
                        url: req.url@,
                        manage_token: manage_token@,
                    },
                )
                &&& resp.url@ == feed_path(feed_id as int)
                &&& resp.manage_token@ == manage_token@
                &&& resp.manage_url@ == manage_path(feed_id as int, manage_token@)
            },
            Err(e) => {
                &&& e == SyncError::StorageError
                &&& (exists|i: int|
                    0 <= i < old(store)@.feeds.len() && old(store)@.feeds[i].id == feed_id)
                &&& final(store)@.feeds == old(store)@.feeds
            },
        },
{
    match store.add_feed(feed_id, &req.url, manage_token) {
        Ok(()) => Ok(
            AddFeedResponse {
                url: feed_path_bytes(feed_id),
                manage_token: clone_bytes(manage_token),
                manage_url: manage_path_bytes(feed_id, manage_token),
            },
        ),
        Err(e) => Err(e),
    }
}

/// Why a deletion request was refused.
#[derive(Clone, Copy, Debug, PartialEq, Eq, Structural)]
pub enum ApiError {
    /// Neither the request method nor the form override is `DELETE`.
    MethodNotAllowed,
    /// No feed has this identifier.
    NotFound,
    /// The management secret does not match.
    Unauthorized,
}

/// The text `DELETE`.
pub open spec fn method_delete() -> Seq<u8> {
    seq![68u8, 69u8, 76u8, 69u8, 84u8, 69u8]
}

fn method_delete_bytes() -> (r: Vec<u8>)
    ensures
        r@ == method_delete(),
{
    let mut v: Vec<u8> = Vec::new();
    v.push(68);
    v.push(69);
    v.push(76);
    v.push(69);
    v.push(84);
    v.push(69);
    assert(v@ =~= method_delete());
    v
}

/// The method a deletion acts under: a form's override wins over the
/// transport method.
pub open spec fn effective_method(payload: Option<Seq<u8>>, method: Seq<u8>) -> Seq<u8> {
    match payload {
        Some(m) => m,
        None => method,
    }
}

/// Whether the feed exists and its stored management secret matches.
pub open spec fn feed_authorized(s: crate::db::StoreView, feed_id: int, token: Seq<u8>) -> bool {
    exists|i: int|
        0 <= i < s.feeds.len() && s.feeds[i].id == feed_id && #[trigger] s.feeds[i].manage_token
            == token
}

/// Delete a whole feed on an authorized request: its events, its calendar
/// row, then the feed itself — the only path that ever removes rows, apart
/// from single-event deletion. Returns whether the caller was a form (and
/// should be redirected). Refusals leave the store unchanged: a method
/// other than `DELETE` first, then an unknown feed, then a wrong secret.
pub fn delete_feed(
    store: &mut Store,
    feed_id: i64,
    manage_token: &Vec<u8>,
    method: &Vec<u8>,
    payload: &DeleteFeedRequest,
) -> (r: Result<bool, ApiError>)
    requires
        old(store)@.inv(),
    ensures
        final(store)@.inv(),
        match r {
            Ok(is_form) => {
                &&& effective_method(crate::db::opt_bytes_view(payload.method), method@)
                    == method_delete()
                &&& is_form == (payload.method is Some)
                &&& feed_authorized(old(store)@, feed_id as int, manage_token@)
                &&& final(store)@.events == old(store)@.events.filter(
                    |e: crate::db::EventView| e.feed_id != feed_id,
                )
                &&& final(store)@.calendars == old(store)@.calendars.filter(
                    |c: crate::db::CalendarRowView| c.feed_id != feed_id,
                )
                &&& final(store)@.feeds == old(store)@.feeds.filter(
                    |f: crate::db::FeedView| f.id != feed_id,
                )
                &&& final(store)@.next_event_id == old(store)@.next_event_id
            },
            Err(e) => {
                &&& final(store)@ == old(store)@
                &&& match e {
                    ApiError::MethodNotAllowed => effective_method(
                        crate::db::opt_bytes_view(payload.method),
                        method@,
                    ) != method_delete(),
                    ApiError::NotFound => effective_method(
                        crate::db::opt_bytes_view(payload.method),
                        method@,
                    ) == method_delete() && (forall|i: int|
                        0 <= i < old(store)@.feeds.len() ==> old(store)@.feeds[i].id != feed_id),
                    ApiError::Unauthorized => effective_method(
                        crate::db::opt_bytes_view(payload.method),
                        method@,
                    ) == method_delete() && !feed_authorized(
                        old(store)@,
                        feed_id as int,
                        manage_token@,
                    ) && (exists|i: int|
                        0 <= i < old(store)@.feeds.len() && old(store)@.feeds[i].id == feed_id),
                }
            },
        },
{
    let is_form = payload.method.is_some();
    let effective: Vec<u8> = match &payload.method {
        Some(m) => clone_bytes(m),
        None => clone_bytes(method),
    };
    if !bytes_eq(&effective, &method_delete_bytes()) {
        return Err(ApiError::MethodNotAllowed);
    }
    let feed = match store.get_feed(feed_id) {
        Some(f) => f,
        None => {
            return Err(ApiError::NotFound);
        },
    };
    if !bytes_eq(&feed.manage_token, manage_token) {
        proof {
            let s = store@;
            assert forall|i: int|
                0 <= i < s.feeds.len() && s.feeds[i].id == feed_id as int implies #[trigger] s.feeds[i].manage_token
                != manage_token@ by {
                let j = choose|j: int|
                    0 <= j < s.feeds.len() && s.feeds[j] == feed@ && feed@.id == feed_id;
                assert(s.feeds[i].id == s.feeds[j].id);
                if i != j {
                    assert(s.feeds[i].id != s.feeds[j].id);
                }
            }
        }
        return Err(ApiError::Unauthorized);
    }
    proof {
        let s0 = old(store)@;
        let j = choose|j: int|
            0 <= j < s0.feeds.len() && s0.feeds[j] == feed@ && feed@.id == feed_id;
        assert(s0.feeds[j].manage_token == manage_token@);
        assert(feed_authorized(s0, feed_id as int, manage_token@));
    }
    store.delete_events_for_feed(feed_id);
    store.delete_calendar(feed_id);
    store.delete_feed(feed_id);
    Ok(is_form)
}

/// Delete one event of a feed on an authorized request, by its stored
/// identifier. The refusals mirror whole-feed deletion.
pub fn delete_event(
    store: &mut Store,
    feed_id: i64,
    event_id: i64,
    manage_token: &Vec<u8>,
    method: &Vec<u8>,
    payload: &DeleteFeedRequest,
) -> (r: Result<bool, ApiError>)
    requires
        old(store)@.inv(),
    ensures
        final(store)@.inv(),
        match r {
            Ok(is_form) => {
                &&& effective_method(crate::db::opt_bytes_view(payload.method), method@)
                    == method_delete()
                &&& is_form == (payload.method is Some)
                &&& feed_authorized(old(store)@, feed_id as int, manage_token@)
                &&& final(store)@.events == old(store)@.events.filter(
                    |e: crate::db::EventView| e.id != event_id,
                )
                &&& final(store)@.calendars == old(store)@.calendars
                &&& final(store)@.feeds == old(store)@.feeds
                &&& final(store)@.next_event_id == old(store)@.next_event_id
            },
            Err(e) => {
                &&& final(store)@ == old(store)@
                &&& match e {
                    ApiError::MethodNotAllowed => effective_method(
                        crate::db::opt_bytes_view(payload.method),
                        method@,
                    ) != method_delete(),
                    ApiError::NotFound => effective_method(
                        crate::db::opt_bytes_view(payload.method),
                        method@,
                    ) == method_delete() && (forall|i: int|
                        0 <= i < old(store)@.feeds.len() ==> old(store)@.feeds[i].id != feed_id),
                    ApiError::Unauthorized => effective_method(
                        crate::db::opt_bytes_view(payload.method),
                        method@,
                    ) == method_delete() && !feed_authorized(
                        old(store)@,
                        feed_id as int,
                        manage_token@,
                    ) && (exists|i: int|
                        0 <= i < old(store)@.feeds.len() && old(store)@.feeds[i].id == feed_id),
                }
            },
        },
{
    let is_form = payload.method.is_some();
    let effective: Vec<u8> = match &payload.method {
        Some(m) => clone_bytes(m),
        None => clone_bytes(method),
    };
    if !bytes_eq(&effective, &method_delete_bytes()) {
        return Err(ApiError::MethodNotAllowed);
    }
    let feed = match store.get_feed(feed_id) {
        Some(f) => f,
        None => {
            return Err(ApiError::NotFound);
        },
    };
    if !bytes_eq(&feed.manage_token, manage_token) {
        proof {
            let s = store@;
            assert forall|i: int|
                0 <= i < s.feeds.len() && s.feeds[i].id == feed_id as int implies #[trigger] s.feeds[i].manage_token
                != manage_token@ by {
                let j = choose|j: int|
                    0 <= j < s.feeds.len() && s.feeds[j] == feed@ && feed@.id == feed_id;
                assert(s.feeds[i].id == s.feeds[j].id);
                if i != j {
                    assert(s.feeds[i].id != s.feeds[j].id);
                }
            }
        }
        return Err(ApiError::Unauthorized);
    }
    proof {
        let s0 = old(store)@;
        let j = choose|j: int|
            0 <= j < s0.feeds.len() && s0.feeds[j] == feed@ && feed@.id == feed_id;
        assert(s0.feeds[j].manage_token == manage_token@);
        assert(feed_authorized(s0, feed_id as int, manage_token@));
    }
    store.delete_event(event_id);
    Ok(is_form)
}

} // verus!
