//! From the parsed document model to stored records: property lookup,
//! calendar-envelope extraction, and normalization of each event's loosely
//! typed text into a zone-aware record.

use vstd::prelude::*;
use crate::bytes::{find_from, find_byte, clone_bytes, sub_bytes, parse_i64, parse_i64_spec};
use crate::datetime::{parse_compact, parse_compact_spec};
use crate::db::{CalendarRow, CalendarRowView, Event, EventView, opt_bytes_view};
use crate::document::{IcalDocument, DocView};
use crate::names::{
    nm_version, nm_prodid, nm_calscale, nm_calname, nm_tzid, nm_dtstart, nm_dtend, nm_dtstamp,
    nm_tzoffsetfrom, nm_tzoffsetto, nm_rrule, nm_tzname, nm_summary, nm_description, nm_location,
    nm_uid, nm_organizer, nm_cn, nm_sequence, nm_status, v_version, v_prodid, v_calscale,
    v_calname, v_tzid, v_dtstart, v_dtend, v_dtstamp, v_tzoffsetfrom, v_tzoffsetto, v_rrule,
    v_tzname, v_summary, v_description, v_location, v_uid, v_organizer, v_cn, v_sequence,
    v_status,
};
use crate::props::{Property, PropertyView, ParamView, prop_views};
use crate::zone::{ZonedTime, ZonedTimeView, resolved_zone, local_instant, make_zoned, etc_utc};
use crate::SyncError;
use crate::bytes::bytes_eq;

verus! {

/// The first property of this name, in document order.
pub open spec fn find_prop_spec(ps: Seq<PropertyView>, name: Seq<u8>) -> Option<PropertyView>
    decreases ps.len(),
{
    if ps.len() == 0 {
        None
    } else if ps[0].name == name {
        Some(ps[0])
    } else {
        find_prop_spec(ps.drop_first(), name)
    }
}

/// The first parameter of this key, in order.
pub open spec fn find_param_spec(ps: Seq<ParamView>, key: Seq<u8>) -> Option<ParamView>
    decreases ps.len(),
{
    if ps.len() == 0 {
        None
    } else if ps[0].key == key {
        Some(ps[0])
    } else {
        find_param_spec(ps.drop_first(), key)
    }
}

/// A parameter's first value: the text before its first comma.
pub open spec fn first_chunk(v: Seq<u8>) -> Seq<u8> {
    v.take(find_from(v, 44, 0))
}

/// The value of the first property of this name, if present.
pub open spec fn opt_value(ps: Seq<PropertyView>, name: Seq<u8>) -> Option<Seq<u8>> {
    match find_prop_spec(ps, name) {
        Some(p) => Some(p.value),
        None => None,
    }
}

/// An optional value, or a default.
pub open spec fn value_or(v: Option<Seq<u8>>, default: Seq<u8>) -> Seq<u8> {
    match v {
        Some(x) => x,
        None => default,
    }
}

/// Find the first property of this name.
pub fn find_prop<'a>(ps: &'a Vec<Property>, name: &Vec<u8>) -> (r: Option<&'a Property>)
    ensures
        match r {
            Some(p) => find_prop_spec(prop_views(*ps), name@) == Some(p@),
            None => find_prop_spec(prop_views(*ps), name@) is None,
        },
{
    let ghost whole = prop_views(*ps);
    proof {
        assert(whole.skip(0) =~= whole);
    }
    let mut i: usize = 0;
    while i < ps.len()
        invariant
            0 <= i <= ps@.len(),
            whole == prop_views(*ps),
            find_prop_spec(whole, name@) == find_prop_spec(whole.skip(i as int), name@),
        decreases ps@.len() - i,
    {
        proof {
            assert(whole.skip(i as int)[0] == whole[i as int]);
            assert(whole.skip(i as int).drop_first() =~= whole.skip(i + 1));
        }
        if bytes_eq(&ps[i].name, name) {
            return Some(&ps[i]);
        }
        i += 1;
    }
    proof {
        assert(whole.skip(whole.len() as int) =~= Seq::<PropertyView>::empty());
    }
    None
}

/// Find the first parameter of this key.
pub fn find_param<'a>(ps: &'a Vec<crate::props::Param>, key: &Vec<u8>) -> (r: Option<
    &'a crate::props::Param,
>)
    ensures
        match r {
            Some(p) => find_param_spec(crate::props::param_views(*ps), key@) == Some(p@),
            None => find_param_spec(crate::props::param_views(*ps), key@) is None,
        },
{
    let ghost whole = crate::props::param_views(*ps);
    proof {
        assert(whole.skip(0) =~= whole);
    }
    let mut i: usize = 0;
    while i < ps.len()
        invariant
            0 <= i <= ps@.len(),
            whole == crate::props::param_views(*ps),
            find_param_spec(whole, key@) == find_param_spec(whole.skip(i as int), key@),
        decreases ps@.len() - i,
    {
        proof {
            assert(whole.skip(i as int)[0] == whole[i as int]);
            assert(whole.skip(i as int).drop_first() =~= whole.skip(i + 1));
        }
        if bytes_eq(&ps[i].key, key) {
            return Some(&ps[i]);
        }
        i += 1;
    }
    proof {
        assert(whole.skip(whole.len() as int) =~= Seq::<ParamView>::empty());
    }
    None
}

/// Copy a value's first comma-separated chunk.
fn take_first_chunk(v: &Vec<u8>) -> (r: Vec<u8>)
    ensures
        r@ == first_chunk(v@),
{
    let c = find_byte(v, 44, 0);
    proof {
        crate::bytes::lemma_find_from_props(v@, 44, 0);
    }
    sub_bytes(v, 0, c)
}

/// Copy the value of the first property of this name, if present.
fn copy_opt_value(ps: &Vec<Property>, name: &Vec<u8>) -> (r: Option<Vec<u8>>)
    ensures
        opt_bytes_view(r) == opt_value(prop_views(*ps), name@),
{
    match find_prop(ps, name) {
        Some(p) => Some(clone_bytes(&p.value)),
        None => None,
    }
}

/// Copy the value of the first property of this name, or a default.
fn copy_value_or(ps: &Vec<Property>, name: &Vec<u8>, default: Vec<u8>) -> (r: Vec<u8>)
    ensures
        r@ == value_or(opt_value(prop_views(*ps), name@), default@),
{
    match find_prop(ps, name) {
        Some(p) => clone_bytes(&p.value),
        None => default,
    }
}

/// What the calendar envelope of a parsed document means: `VERSION`,
/// `PRODID` and `CALSCALE` take documented defaults, the display name is
/// optional, and the first timezone component's identifier and first
/// `DAYLIGHT` and `STANDARD` transitions are copied verbatim.
pub open spec fn calendar_row_spec(feed_id: int, d: DocView) -> CalendarRowView {
    CalendarRowView {
        feed_id,
        version: value_or(opt_value(d.cal_props, nm_version()), default_version()),
        prod_id: value_or(opt_value(d.cal_props, nm_prodid()), Seq::empty()),
        cal_scale: value_or(opt_value(d.cal_props, nm_calscale()), default_calscale()),
        name: opt_value(d.cal_props, nm_calname()),
        tz_id: (if d.timezones.len() > 0 {
            value_or(opt_value(d.timezones[0].props, nm_tzid()), etc_utc())
        } else {
            etc_utc()
        }),
        daylight_dtstart: tz_sub_value(d, true, nm_dtstart()),
        daylight_tzoffsetfrom: tz_sub_value(d, true, nm_tzoffsetfrom()),
        daylight_tzoffsetto: tz_sub_value(d, true, nm_tzoffsetto()),
        daylight_rrule: tz_sub_value(d, true, nm_rrule()),
        daylight_tzname: tz_sub_value(d, true, nm_tzname()),
        standard_dtstart: tz_sub_value(d, false, nm_dtstart()),
        standard_tzoffsetfrom: tz_sub_value(d, false, nm_tzoffsetfrom()),
        standard_tzoffsetto: tz_sub_value(d, false, nm_tzoffsetto()),
        standard_rrule: tz_sub_value(d, false, nm_rrule()),
        standard_tzname: tz_sub_value(d, false, nm_tzname()),
    }
}

/// The text `2.0`, the default calendar version.
pub open spec fn default_version() -> Seq<u8> {
    seq![50u8, 46u8, 48u8]
}

/// The text `GREGORIAN`, the default calendar scale.
pub open spec fn default_calscale() -> Seq<u8> {
    seq![71u8, 82u8, 69u8, 71u8, 79u8, 82u8, 73u8, 65u8, 78u8]
}

/// A property value out of the first timezone's daylight or standard
/// transition, if the document has one.
pub open spec fn tz_sub_value(d: DocView, daylight: bool, name: Seq<u8>) -> Option<Seq<u8>> {
    if d.timezones.len() > 0 {
        let sub = if daylight {
            d.timezones[0].daylight
        } else {
            d.timezones[0].standard
        };
        match sub {
            Some(ps) => opt_value(ps, name),
            None => None,
        }
    } else {
        None
    }
}

fn v_default_version() -> (r: Vec<u8>)
    ensures
        r@ == default_version(),
{
    let mut v: Vec<u8> = Vec::new();
    v.push(50);
    v.push(46);
    v.push(48);
    assert(v@ =~= default_version());
    v
}

fn v_default_calscale() -> (r: Vec<u8>)
    ensures
        r@ == default_calscale(),
{
    let mut v: Vec<u8> = Vec::new();
    v.push(71);
    v.push(82);
    v.push(69);
    v.push(71);
    v.push(79);
    v.push(82);
    v.push(73);
    v.push(65);
    v.push(78);
    assert(v@ =~= default_calscale());
    v
}

fn v_etc_utc() -> (r: Vec<u8>)
    ensures
        r@ == etc_utc(),
{
    let mut v: Vec<u8> = Vec::new();
    v.push(69);
    v.push(116);
    v.push(99);
    v.push(47);
    v.push(85);
    v.push(84);
    v.push(67);
    assert(v@ =~= etc_utc());
    v
}

fn copy_tz_sub_value(d: &IcalDocument, daylight: bool, name: &Vec<u8>) -> (r: Option<Vec<u8>>)
    ensures
        opt_bytes_view(r) == tz_sub_value(d@, daylight, name@),
{
    if d.timezones.len() > 0 {
        let sub = if daylight {
            &d.timezones[0].daylight
        } else {
            &d.timezones[0].standard
        };
        match sub {
            Some(ps) => copy_opt_value(ps, name),
            None => None,
        }
    } else {
        None
    }
}

/// Extract the calendar envelope of a parsed document for one feed.
pub fn build_calendar_row(feed_id: i64, d: &IcalDocument) -> (r: CalendarRow)
    ensures
        r@ == calendar_row_spec(feed_id as int, d@),
{
    let tz_id: Vec<u8> = if d.timezones.len() > 0 {
        copy_value_or(&d.timezones[0].props, &v_tzid(), v_etc_utc())
    } else {
        v_etc_utc()
    };
    CalendarRow {
        feed_id,
        version: copy_value_or(&d.cal_props, &v_version(), v_default_version()),
        prod_id: copy_value_or(&d.cal_props, &v_prodid(), Vec::new()),
        cal_scale: copy_value_or(&d.cal_props, &v_calscale(), v_default_calscale()),
        name: copy_opt_value(&d.cal_props, &v_calname()),
        tz_id,
        daylight_dtstart: copy_tz_sub_value(d, true, &v_dtstart()),
        daylight_tzoffsetfrom: copy_tz_sub_value(d, true, &v_tzoffsetfrom()),
        daylight_tzoffsetto: copy_tz_sub_value(d, true, &v_tzoffsetto()),
        daylight_rrule: copy_tz_sub_value(d, true, &v_rrule()),
        daylight_tzname: copy_tz_sub_value(d, true, &v_tzname()),
        standard_dtstart: copy_tz_sub_value(d, false, &v_dtstart()),
        standard_tzoffsetfrom: copy_tz_sub_value(d, false, &v_tzoffsetfrom()),
        standard_tzoffsetto: copy_tz_sub_value(d, false, &v_tzoffsetto()),
        standard_rrule: copy_tz_sub_value(d, false, &v_rrule()),
        standard_tzname: copy_tz_sub_value(d, false, &v_tzname()),
    }
}

/// The zone parameter of a date-time property: the first value of its first
/// parameter, however the parameter is keyed.
pub open spec fn zone_param_spec(p: PropertyView) -> Option<Seq<u8>> {
    if p.params.len() > 0 {
        Some(first_chunk(p.params[0].value))
    } else {
        None
    }
}

/// What normalizing one mandatory date-time property means: the property
/// must be present (`MissingRequiredField`), its value must be a valid
/// compact date-time, and the wall-clock time must denote an unambiguous
/// instant in the resolved zone (else `InvalidTemporalValue`).
pub open spec fn norm_time_spec(props: Seq<PropertyView>, name: Seq<u8>) -> Result<
    ZonedTimeView,
    SyncError,
> {
    match find_prop_spec(props, name) {
        None => Err(SyncError::MissingRequiredField),
        Some(p) => match parse_compact_spec(p.value) {
            None => Err(SyncError::InvalidTemporalValue),
            Some(lt) => {
                let z = resolved_zone(zone_param_spec(p));
                match local_instant(lt, z) {
                    Some(ii) => Ok(ZonedTimeView { local: lt, zone: z, instant: ii }),
                    None => Err(SyncError::InvalidTemporalValue),
                }
            },
        },
    }
}

/// Normalize one mandatory date-time property of an event.
pub fn norm_time(props: &Vec<Property>, name: &Vec<u8>) -> (r: Result<ZonedTime, SyncError>)
    ensures
        match r {
            Ok(z) => norm_time_spec(prop_views(*props), name@) == Ok::<ZonedTimeView, SyncError>(
                z@,
            ) && z@.wf(),
            Err(e) => norm_time_spec(prop_views(*props), name@) == Err::<ZonedTimeView, SyncError>(
                e,
            ),
        },
{
    let p = match find_prop(props, name) {
        Some(p) => p,
        None => {
            return Err(SyncError::MissingRequiredField);
        },
    };
    let lt = match parse_compact(&p.value) {
        Some(lt) => lt,
        None => {
            return Err(SyncError::InvalidTemporalValue);
        },
    };
    let zparam: Option<Vec<u8>> = if p.params.len() > 0 {
        Some(take_first_chunk(&p.params[0].value))
    } else {
        None
    };
    proof {
        assert(zparam.deep_view() =~~= zone_param_spec(p@));
    }
    match make_zoned(lt, &zparam) {
        Some(z) => Ok(z),
        None => Err(SyncError::InvalidTemporalValue),
    }
}

/// What normalizing one event's property list means: `DTSTART`, `DTEND` and
/// `DTSTAMP` are mandatory and normalized in that order; the text fields
/// take their documented defaults; `SEQUENCE` is kept only when it parses
/// as a signed 64-bit number.
pub open spec fn normalize_event_spec(feed_id: int, props: Seq<PropertyView>) -> Result<
    EventView,
    SyncError,
> {
    match norm_time_spec(props, nm_dtstart()) {
        Err(e) => Err(e),
        Ok(start) => match norm_time_spec(props, nm_dtend()) {
            Err(e) => Err(e),
            Ok(end) => match norm_time_spec(props, nm_dtstamp()) {
                Err(e) => Err(e),
                Ok(stamp) => Ok(
                    EventView {
                        id: 0,
                        feed_id,
                        summary: value_or(opt_value(props, nm_summary()), Seq::empty()),
                        description: Some(
                            value_or(opt_value(props, nm_description()), Seq::empty()),
                        ),
                        start_time: start,
                        end_time: end,
                        location: opt_value(props, nm_location()),
                        uid: value_or(opt_value(props, nm_uid()), Seq::empty()),
                        dtstamp: stamp,
                        organizer: opt_value(props, nm_organizer()),
                        organizer_cn: organizer_cn_spec(props),
                        sequence: sequence_spec(props),
                        status: opt_value(props, nm_status()),
                    },
                ),
            },
        },
    }
}

/// The first value of the `CN` parameter of the first `ORGANIZER` property.
pub open spec fn organizer_cn_spec(props: Seq<PropertyView>) -> Option<Seq<u8>> {
    match find_prop_spec(props, nm_organizer()) {
        Some(p) => match find_param_spec(p.params, nm_cn()) {
            Some(pm) => Some(first_chunk(pm.value)),
            None => None,
        },
        None => None,
    }
}

/// The `SEQUENCE` value when it parses as a signed 64-bit number.
pub open spec fn sequence_spec(props: Seq<PropertyView>) -> Option<int> {
    match find_prop_spec(props, nm_sequence()) {
        Some(p) => parse_i64_spec(p.value),
        None => None,
    }
}

/// Normalize one event's property list into a stored record (under the
/// placeholder identifier that insertion replaces).
pub fn normalize_event(feed_id: i64, props: &Vec<Property>) -> (r: Result<Event, SyncError>)
    ensures
        match r {
            Ok(e) => normalize_event_spec(feed_id as int, prop_views(*props)) == Ok::<
                EventView,
                SyncError,
            >(e@) && e@.wf(),
            Err(er) => normalize_event_spec(feed_id as int, prop_views(*props)) == Err::<
                EventView,
                SyncError,
            >(er),
        },
{
    let start_time = match norm_time(props, &v_dtstart()) {
        Ok(z) => z,
        Err(e) => {
            return Err(e);
        },
    };
    let end_time = match norm_time(props, &v_dtend()) {
        Ok(z) => z,
        Err(e) => {
            return Err(e);
        },
    };
    let dtstamp = match norm_time(props, &v_dtstamp()) {
        Ok(z) => z,
        Err(e) => {
            return Err(e);
        },
    };
    let organizer_cn: Option<Vec<u8>> = match find_prop(props, &v_organizer()) {
        Some(p) => match find_param(&p.params, &v_cn()) {
            Some(pm) => Some(take_first_chunk(&pm.value)),
            None => None,
        },
        None => None,
    };
    let sequence: Option<i64> = match find_prop(props, &v_sequence()) {
        Some(p) => parse_i64(&p.value),
        None => None,
    };
    let e = Event {
        id: 0,
        feed_id,
        summary: copy_value_or(props, &v_summary(), Vec::new()),
        description: Some(copy_value_or(props, &v_description(), Vec::new())),
        start_time,
        end_time,
        location: copy_opt_value(props, &v_location()),
        uid: copy_value_or(props, &v_uid(), Vec::new()),
        dtstamp,
        organizer: copy_opt_value(props, &v_organizer()),
        organizer_cn,
        sequence,
        status: copy_opt_value(props, &v_status()),
    };
    Ok(e)
}

/// What normalizing a whole batch of events means: the first failing event
/// fails the batch.
pub open spec fn normalize_events_spec(feed_id: int, evs: Seq<Seq<PropertyView>>) -> Result<
    Seq<EventView>,
    SyncError,
>
    decreases evs.len(),
{
    if evs.len() == 0 {
        Ok(Seq::empty())
    } else {
        match normalize_event_spec(feed_id, evs[0]) {
            Ok(e) => match normalize_events_spec(feed_id, evs.drop_first()) {
                Ok(r) => Ok(seq![e] + r),
                Err(er) => Err(er),
            },
            Err(er) => Err(er),
        }
    }
}

/// The views of a normalized event list.
pub open spec fn norm_views(evs: Vec<Event>) -> Seq<EventView> {
    evs@.map_values(|e: Event| e@)
}

/// Normalize every event of a parsed document, all or nothing: the staging
/// buffer that a later merge commits.
pub fn normalize_events(feed_id: i64, evs: &Vec<Vec<Property>>) -> (r: Result<
    Vec<Event>,
    SyncError,
>)
    ensures
        match r {
            Ok(out) => {
                &&& normalize_events_spec(feed_id as int, crate::document::event_views(*evs))
                    == Ok::<Seq<EventView>, SyncError>(norm_views(out))
                &&& forall|i: int| 0 <= i < norm_views(out).len() ==> (#[trigger] norm_views(
                    out,
                )[i]).wf()
            },
            Err(er) => normalize_events_spec(feed_id as int, crate::document::event_views(*evs))
                == Err::<Seq<EventView>, SyncError>(er),
        },
{
    let ghost whole = crate::document::event_views(*evs);
    let mut out: Vec<Event> = Vec::new();
    proof {
        assert(whole.skip(0) =~= whole);
        assert(norm_views(out) =~= Seq::<EventView>::empty());
        match normalize_events_spec(feed_id as int, whole) {
            Ok(r) => {
                assert(norm_views(out) + r =~= r);
            },
            Err(_) => {},
        }
    }
    let mut k: usize = 0;
    while k < evs.len()
        invariant
            0 <= k <= evs@.len(),
            whole == crate::document::event_views(*evs),
            whole.len() == evs@.len(),
            forall|i: int| 0 <= i < norm_views(out).len() ==> (#[trigger] norm_views(out)[i]).wf(),
            match normalize_events_spec(feed_id as int, whole.skip(k as int)) {
                Ok(r) => normalize_events_spec(feed_id as int, whole) == Ok::<
                    Seq<EventView>,
                    SyncError,
                >(norm_views(out) + r),
                Err(er) => normalize_events_spec(feed_id as int, whole) == Err::<
                    Seq<EventView>,
                    SyncError,
                >(er),
            },
        decreases evs@.len() - k,
    {
        proof {
            assert(whole.skip(k as int)[0] == whole[k as int]);
            assert(whole.skip(k as int).drop_first() =~= whole.skip(k + 1));
        }
        match normalize_event(feed_id, &evs[k]) {
            Ok(e) => {
                let ghost before = norm_views(out);
                let ghost evv = e@;
                out.push(e);
                proof {
                    assert(norm_views(out) =~= before.push(evv));
                    match normalize_events_spec(feed_id as int, whole.skip(k + 1)) {
                        Ok(r) => {
                            assert(before + (seq![evv] + r) =~= norm_views(out) + r);
                        },
                        Err(_) => {},
                    }
                    assert forall|i: int|
                        0 <= i < norm_views(out).len() implies (#[trigger] norm_views(
                        out,
                    )[i]).wf() by {
                        if i < before.len() {
                            assert(before[i].wf());
                        } else {
                            assert(norm_views(out)[i] == evv);
                        }
                    }
                }
            },
            Err(er) => {
                return Err(er);
            },
        }
        k += 1;
    }
    proof {
        assert(whole.skip(whole.len() as int) =~= Seq::<Seq<PropertyView>>::empty());
        assert(norm_views(out) + Seq::<EventView>::empty() =~= norm_views(out));
    }
    Ok(out)
}

} // verus!
