//! The document generator: deterministic reconstruction of a calendar
//! document from the stored calendar envelope and events. Optional fields
//! are emitted only when their source value was present.

use vstd::prelude::*;
use crate::bytes::{clone_bytes, format_i64, i64_dec};
use crate::datetime::{format_compact, format_compact_spec};
use crate::db::{
    Store, CalendarRow, CalendarRowView, Event, EventView, ev_views, sorted_desc, find_cal_from,
};
use crate::lines::{render_doc, render_doc_spec};
use crate::names::{
    nm_begin, nm_end, nm_vcalendar, nm_vtimezone, nm_daylight, nm_standard, nm_vevent, nm_version,
    nm_prodid, nm_calscale, nm_calname, nm_tzid, nm_dtstart, nm_dtend, nm_dtstamp,
    nm_tzoffsetfrom, nm_tzoffsetto, nm_rrule, nm_tzname, nm_summary, nm_description, nm_location,
    nm_uid, nm_organizer, nm_cn, nm_sequence, nm_status, v_begin, v_end, v_vcalendar,
    v_vtimezone, v_daylight, v_standard, v_vevent, v_version, v_prodid, v_calscale, v_calname,
    v_tzid, v_dtstart, v_dtend, v_dtstamp, v_tzoffsetfrom, v_tzoffsetto, v_rrule, v_tzname,
    v_summary, v_description, v_location, v_uid, v_organizer, v_cn, v_sequence, v_status,
};
use crate::props::{Property, PropertyView, Param, ParamView, prop_views, param_views};
use crate::zone::{ZonedTime, ZonedTimeView};

verus! {

/// A property without parameters.
pub open spec fn sprop(name: Seq<u8>, value: Seq<u8>) -> PropertyView {
    PropertyView { name, params: Seq::empty(), value }
}

/// An optional property: one line when the value was present, none when
/// it was absent.
pub open spec fn opt_prop(name: Seq<u8>, v: Option<Seq<u8>>) -> Seq<PropertyView> {
    match v {
        Some(x) => seq![sprop(name, x)],
        None => Seq::empty(),
    }
}

/// A date-time property: the wall-clock text in the value, the zone in a
/// `TZID` parameter.
pub open spec fn tprop(name: Seq<u8>, z: ZonedTimeView) -> PropertyView {
    PropertyView {
        name,
        params: seq![ParamView { key: nm_tzid(), value: z.zone }],
        value: format_compact_spec(z.local),
    }
}

/// The calendar-level property lines of a generated envelope.
pub open spec fn cal_level_lines(c: CalendarRowView) -> Seq<PropertyView> {
    seq![
        sprop(nm_version(), c.version),
        sprop(nm_calscale(), c.cal_scale),
        sprop(nm_prodid(), c.prod_id),
    ] + opt_prop(nm_calname(), c.name)
}

/// The lines of the generated `DAYLIGHT` transition.
pub open spec fn day_lines(c: CalendarRowView) -> Seq<PropertyView> {
    opt_prop(nm_dtstart(), c.daylight_dtstart) + opt_prop(
        nm_tzoffsetfrom(),
        c.daylight_tzoffsetfrom,
    ) + opt_prop(nm_tzoffsetto(), c.daylight_tzoffsetto) + opt_prop(nm_rrule(), c.daylight_rrule)
        + opt_prop(nm_tzname(), c.daylight_tzname)
}

/// The lines of the generated `STANDARD` transition.
pub open spec fn std_lines(c: CalendarRowView) -> Seq<PropertyView> {
    opt_prop(nm_dtstart(), c.standard_dtstart) + opt_prop(
        nm_tzoffsetfrom(),
        c.standard_tzoffsetfrom,
    ) + opt_prop(nm_tzoffsetto(), c.standard_tzoffsetto) + opt_prop(nm_rrule(), c.standard_rrule)
        + opt_prop(nm_tzname(), c.standard_tzname)
}

/// The lines of the generated timezone block.
pub open spec fn tz_block_lines(c: CalendarRowView) -> Seq<PropertyView> {
    seq![sprop(nm_begin(), nm_vtimezone())] + seq![sprop(nm_tzid(), c.tz_id)] + seq![
        sprop(nm_begin(), nm_daylight()),
    ] + day_lines(c) + seq![sprop(nm_end(), nm_daylight())] + seq![
        sprop(nm_begin(), nm_standard()),
    ] + std_lines(c) + seq![sprop(nm_end(), nm_standard())] + seq![
        sprop(nm_end(), nm_vtimezone()),
    ]
}

/// The envelope lines of a generated document: calendar properties, then
/// one `VTIMEZONE` with its `DAYLIGHT` and `STANDARD` transitions.
pub open spec fn cal_props_spec(c: CalendarRowView) -> Seq<PropertyView> {
    seq![sprop(nm_begin(), nm_vcalendar())] + cal_level_lines(c) + tz_block_lines(c)
}

/// The `ORGANIZER` line: with a `CN` parameter when a display name is
/// stored, without one otherwise.
pub open spec fn organizer_prop(e: EventView) -> Seq<PropertyView> {
    match e.organizer {
        Some(org) => seq![
            PropertyView {
                name: nm_organizer(),
                params: (match e.organizer_cn {
                    Some(cn) => seq![ParamView { key: nm_cn(), value: cn }],
                    None => Seq::empty(),
                }),
                value: org,
            },
        ],
        None => Seq::empty(),
    }
}

/// The lines of one generated event: mandatory identity and time fields,
/// then each optional field only when present.
pub open spec fn event_props_spec(e: EventView) -> Seq<PropertyView> {
    seq![
        sprop(nm_begin(), nm_vevent()),
        sprop(nm_uid(), e.uid),
        tprop(nm_dtstamp(), e.dtstamp),
        tprop(nm_dtstart(), e.start_time),
        tprop(nm_dtend(), e.end_time),
        sprop(nm_summary(), e.summary),
        sprop(
            nm_description(),
            (match e.description {
                Some(d) => d,
                None => Seq::empty(),
            }),
        ),
    ] + opt_prop(nm_location(), e.location) + organizer_prop(e) + (match e.sequence {
        Some(n) => seq![sprop(nm_sequence(), i64_dec(n))],
        None => Seq::<PropertyView>::empty(),
    }) + opt_prop(nm_status(), e.status) + seq![sprop(nm_end(), nm_vevent())]
}

/// The event lines of a generated document, in the given order.
pub open spec fn events_props_spec(evs: Seq<EventView>) -> Seq<PropertyView>
    decreases evs.len(),
{
    if evs.len() == 0 {
        Seq::empty()
    } else {
        event_props_spec(evs[0]) + events_props_spec(evs.drop_first())
    }
}

/// Every line of a generated document.
pub open spec fn gen_doc_lines(c: CalendarRowView, evs: Seq<EventView>) -> Seq<PropertyView> {
    cal_props_spec(c) + events_props_spec(evs) + seq![sprop(nm_end(), nm_vcalendar())]
}

/// `events_props_spec` distributes over concatenation.
pub proof fn lemma_events_props_concat(a: Seq<EventView>, b: Seq<EventView>)
    ensures
        events_props_spec(a + b) == events_props_spec(a) + events_props_spec(b),
    decreases a.len(),
{
    if a.len() == 0 {
        assert(a + b =~= b);
        assert(events_props_spec(a) =~= Seq::<PropertyView>::empty());
        assert(events_props_spec(a) + events_props_spec(b) =~= events_props_spec(b));
    } else {
        assert((a + b).drop_first() =~= a.drop_first() + b);
        lemma_events_props_concat(a.drop_first(), b);
        assert((a + b)[0] == a[0]);
        assert(event_props_spec(a[0]) + (events_props_spec(a.drop_first()) + events_props_spec(b))
            =~= events_props_spec(a) + events_props_spec(b));
    }
}

/// Build a property without parameters.
fn mk_prop(name: Vec<u8>, value: Vec<u8>) -> (r: Property)
    ensures
        r@ == sprop(name@, value@),
{
    let r = Property { name, params: Vec::new(), value };
    proof {
        assert(param_views(r.params) =~= Seq::<ParamView>::empty());
    }
    r
}

/// Push one optional property.
fn push_opt(out: &mut Vec<Property>, name: Vec<u8>, v: &Option<Vec<u8>>)
    ensures
        prop_views(*final(out)) == prop_views(*old(out)) + opt_prop(
            name@,
            crate::db::opt_bytes_view(*v),
        ),
{
    let ghost before = prop_views(*old(out));
    match v {
        Some(x) => {
            out.push(mk_prop(name, clone_bytes(x)));
            proof {
                assert(prop_views(*out) =~= before + opt_prop(
                    name@,
                    crate::db::opt_bytes_view(*v),
                ));
            }
        },
        None => {
            proof {
                assert(prop_views(*out) =~= before + opt_prop(
                    name@,
                    crate::db::opt_bytes_view(*v),
                ));
            }
        },
    }
}

/// Build a date-time property.
fn mk_tprop(name: Vec<u8>, z: &ZonedTime) -> (r: Property)
    requires
        z@.wf(),
    ensures
        r@ == tprop(name@, z@),
{
    let mut params: Vec<Param> = Vec::new();
    params.push(Param { key: v_tzid(), value: clone_bytes(&z.zone) });
    let r = Property { name, params, value: format_compact(&z.local) };
    proof {
        assert(param_views(r.params) =~= seq![ParamView { key: nm_tzid(), value: z@.zone }]);
    }
    r
}

/// Generate the document lines of one stored event.
#[verifier::rlimit(30)]
fn push_event_props(out: &mut Vec<Property>, e: &Event)
    requires
        e@.wf(),
    ensures
        prop_views(*final(out)) == prop_views(*old(out)) + event_props_spec(e@),
{
    let ghost before = prop_views(*old(out));
    out.push(mk_prop(v_begin(), v_vevent()));
    out.push(mk_prop(v_uid(), clone_bytes(&e.uid)));
    out.push(mk_tprop(v_dtstamp(), &e.dtstamp));
    out.push(mk_tprop(v_dtstart(), &e.start_time));
    out.push(mk_tprop(v_dtend(), &e.end_time));
    out.push(mk_prop(v_summary(), clone_bytes(&e.summary)));
    let desc: Vec<u8> = match &e.description {
        Some(d) => clone_bytes(d),
        None => Vec::new(),
    };
    out.push(mk_prop(v_description(), desc));
    let ghost head = before + seq![
        sprop(nm_begin(), nm_vevent()),
        sprop(nm_uid(), e@.uid),
        tprop(nm_dtstamp(), e@.dtstamp),
        tprop(nm_dtstart(), e@.start_time),
        tprop(nm_dtend(), e@.end_time),
        sprop(nm_summary(), e@.summary),
        sprop(
            nm_description(),
            (match e@.description {
                Some(d) => d,
                None => Seq::empty(),
            }),
        ),
    ];
    proof {
        assert(prop_views(*out) =~= head);
    }
    push_opt(out, v_location(), &e.location);
    match &e.organizer {
        Some(org) => {
            let mut params: Vec<Param> = Vec::new();
            match &e.organizer_cn {
                Some(cn) => {
                    params.push(Param { key: v_cn(), value: clone_bytes(cn) });
                },
                None => {},
            }
            let ghost op = PropertyView {
                name: nm_organizer(),
                params: (match e@.organizer_cn {
                    Some(cn) => seq![ParamView { key: nm_cn(), value: cn }],
                    None => Seq::empty(),
                }),
                value: org@,
            };
            proof {
                assert(param_views(params) =~= op.params);
            }
            let ghost mid = prop_views(*out);
            out.push(Property { name: v_organizer(), params, value: clone_bytes(org) });
            proof {
                assert(prop_views(*out) =~= mid + organizer_prop(e@));
            }
        },
        None => {
            proof {
                assert(organizer_prop(e@) =~= Seq::<PropertyView>::empty());
                assert(prop_views(*out) =~= prop_views(*out) + organizer_prop(e@));
            }
        },
    }
    match &e.sequence {
        Some(n) => {
            let ghost mid = prop_views(*out);
            out.push(mk_prop(v_sequence(), format_i64(*n)));
            proof {
                assert(prop_views(*out) =~= mid + seq![sprop(nm_sequence(), i64_dec(e@.sequence.unwrap()))]);
            }
        },
        None => {},
    }
    push_opt(out, v_status(), &e.status);
    let ghost mid2 = prop_views(*out);
    out.push(mk_prop(v_end(), v_vevent()));
    proof {
        assert(prop_views(*out) =~= mid2 + seq![sprop(nm_end(), nm_vevent())]);
        assert(prop_views(*out) =~= before + event_props_spec(e@));
    }
}

/// Append the calendar-level property lines.
#[verifier::rlimit(50)]
fn push_cal_level(out: &mut Vec<Property>, cal: &CalendarRow)
    ensures
        prop_views(*final(out)) == prop_views(*old(out)) + cal_level_lines(cal@),
{
    let ghost p0 = prop_views(*old(out));
    out.push(mk_prop(v_version(), clone_bytes(&cal.version)));
    out.push(mk_prop(v_calscale(), clone_bytes(&cal.cal_scale)));
    out.push(mk_prop(v_prodid(), clone_bytes(&cal.prod_id)));
    let ghost p1 = p0 + seq![
        sprop(nm_version(), cal@.version),
        sprop(nm_calscale(), cal@.cal_scale),
        sprop(nm_prodid(), cal@.prod_id),
    ];
    proof {
        assert(prop_views(*out) =~= p1);
    }
    push_opt(out, v_calname(), &cal.name);
    proof {
        assert(prop_views(*out) == p1 + opt_prop(nm_calname(), cal@.name));
        assert(prop_views(*out) =~= p0 + cal_level_lines(cal@));
    }
}

/// Append the `DAYLIGHT` transition's property lines.
#[verifier::rlimit(50)]
fn push_day_lines(out: &mut Vec<Property>, cal: &CalendarRow)
    ensures
        prop_views(*final(out)) == prop_views(*old(out)) + day_lines(cal@),
{
    let ghost p0 = prop_views(*old(out));
    push_opt(out, v_dtstart(), &cal.daylight_dtstart);
    push_opt(out, v_tzoffsetfrom(), &cal.daylight_tzoffsetfrom);
    push_opt(out, v_tzoffsetto(), &cal.daylight_tzoffsetto);
    push_opt(out, v_rrule(), &cal.daylight_rrule);
    push_opt(out, v_tzname(), &cal.daylight_tzname);
    proof {
        assert(prop_views(*out) == p0 + opt_prop(nm_dtstart(), cal@.daylight_dtstart) + opt_prop(
            nm_tzoffsetfrom(),
            cal@.daylight_tzoffsetfrom,
        ) + opt_prop(nm_tzoffsetto(), cal@.daylight_tzoffsetto) + opt_prop(
            nm_rrule(),
            cal@.daylight_rrule,
        ) + opt_prop(nm_tzname(), cal@.daylight_tzname));
        assert(prop_views(*out) =~= p0 + day_lines(cal@));
    }
}

/// Append the `STANDARD` transition's property lines.
#[verifier::rlimit(50)]
fn push_std_lines(out: &mut Vec<Property>, cal: &CalendarRow)
    ensures
        prop_views(*final(out)) == prop_views(*old(out)) + std_lines(cal@),
{
    let ghost p0 = prop_views(*old(out));
    push_opt(out, v_dtstart(), &cal.standard_dtstart);
    push_opt(out, v_tzoffsetfrom(), &cal.standard_tzoffsetfrom);
    push_opt(out, v_tzoffsetto(), &cal.standard_tzoffsetto);
    push_opt(out, v_rrule(), &cal.standard_rrule);
    push_opt(out, v_tzname(), &cal.standard_tzname);
    proof {
        assert(prop_views(*out) == p0 + opt_prop(nm_dtstart(), cal@.standard_dtstart) + opt_prop(
            nm_tzoffsetfrom(),
            cal@.standard_tzoffsetfrom,
        ) + opt_prop(nm_tzoffsetto(), cal@.standard_tzoffsetto) + opt_prop(
            nm_rrule(),
            cal@.standard_rrule,
        ) + opt_prop(nm_tzname(), cal@.standard_tzname));
        assert(prop_views(*out) =~= p0 + std_lines(cal@));
    }
}

/// Append the whole timezone block.
#[verifier::rlimit(50)]
fn push_tz_block(out: &mut Vec<Property>, cal: &CalendarRow)
    ensures
        prop_views(*final(out)) == prop_views(*old(out)) + tz_block_lines(cal@),
{
    let ghost p0 = prop_views(*old(out));
    out.push(mk_prop(v_begin(), v_vtimezone()));
    out.push(mk_prop(v_tzid(), clone_bytes(&cal.tz_id)));
    out.push(mk_prop(v_begin(), v_daylight()));
    let ghost p1 = p0 + seq![sprop(nm_begin(), nm_vtimezone())] + seq![
        sprop(nm_tzid(), cal@.tz_id),
    ] + seq![sprop(nm_begin(), nm_daylight())];
    proof {
        assert(prop_views(*out) =~= p1);
    }
    push_day_lines(out, cal);
    out.push(mk_prop(v_end(), v_daylight()));
    out.push(mk_prop(v_begin(), v_standard()));
    let ghost p2 = p1 + day_lines(cal@) + seq![sprop(nm_end(), nm_daylight())] + seq![
        sprop(nm_begin(), nm_standard()),
    ];
    proof {
        assert(prop_views(*out) =~= p2);
    }
    push_std_lines(out, cal);
    out.push(mk_prop(v_end(), v_standard()));
    out.push(mk_prop(v_end(), v_vtimezone()));
    proof {
        assert(prop_views(*out) =~= p2 + std_lines(cal@) + seq![sprop(nm_end(), nm_standard())]
            + seq![sprop(nm_end(), nm_vtimezone())]);
        assert(prop_views(*out) =~= p0 + tz_block_lines(cal@));
    }
}

/// Generate the envelope lines of a document.
#[verifier::rlimit(50)]
fn build_envelope_lines(cal: &CalendarRow) -> (r: Vec<Property>)
    ensures
        prop_views(r) == cal_props_spec(cal@),
{
    let mut out: Vec<Property> = Vec::new();
    proof {
        assert(prop_views(out) =~= Seq::<PropertyView>::empty());
    }
    out.push(mk_prop(v_begin(), v_vcalendar()));
    let ghost g1 = seq![sprop(nm_begin(), nm_vcalendar())];
    proof {
        assert(prop_views(out) =~= g1);
    }
    push_cal_level(&mut out, cal);
    push_tz_block(&mut out, cal);
    proof {
        assert(prop_views(out) == g1 + cal_level_lines(cal@) + tz_block_lines(cal@));
        assert(prop_views(out) == cal_props_spec(cal@));
    }
    out
}

/// Generate every line of a calendar document from a stored envelope and
/// its events.
#[verifier::rlimit(30)]
pub fn generate_lines(cal: &CalendarRow, events: &Vec<Event>) -> (r: Vec<Property>)
    requires
        forall|i: int| 0 <= i < ev_views(*events).len() ==> (#[trigger] ev_views(*events)[i]).wf(),
    ensures
        prop_views(r) == gen_doc_lines(cal@, ev_views(*events)),
{
    let mut out: Vec<Property> = build_envelope_lines(cal);
    let ghost evsv = ev_views(*events);
    let mut i: usize = 0;
    proof {
        assert(events_props_spec(evsv.take(0)) =~= Seq::<PropertyView>::empty());
        assert(prop_views(out) =~= cal_props_spec(cal@) + events_props_spec(evsv.take(0)));
    }
    while i < events.len()
        invariant
            0 <= i <= events@.len(),
            evsv == ev_views(*events),
            evsv.len() == events@.len(),
            forall|k: int| 0 <= k < evsv.len() ==> (#[trigger] evsv[k]).wf(),
            prop_views(out) == cal_props_spec(cal@) + events_props_spec(evsv.take(i as int)),
        decreases events@.len() - i,
    {
        let ghost pre = evsv.take(i as int);
        proof {
            assert(evsv[i as int].wf());
            assert(events[i as int]@ == evsv[i as int]);
        }
        push_event_props(&mut out, &events[i]);
        proof {
            lemma_events_props_concat(pre, seq![evsv[i as int]]);
            assert(seq![evsv[i as int]].drop_first() =~= Seq::<EventView>::empty());
            assert(events_props_spec(Seq::<EventView>::empty()) =~= Seq::<PropertyView>::empty());
            assert(events_props_spec(seq![evsv[i as int]]) =~= event_props_spec(evsv[i as int]));
            assert(evsv.take(i + 1) =~= pre + seq![evsv[i as int]]);
            assert(prop_views(out) =~= cal_props_spec(cal@) + events_props_spec(evsv.take(i + 1)));
        }
        i += 1;
    }
    proof {
        assert(evsv.take(events@.len() as int) =~= evsv);
    }
    let ghost mid = prop_views(out);
    out.push(mk_prop(v_end(), v_vcalendar()));
    proof {
        assert(prop_views(out) =~= mid + seq![sprop(nm_end(), nm_vcalendar())]);
        assert(prop_views(out) =~= gen_doc_lines(cal@, evsv));
    }
    out
}

/// Generate a feed's calendar document from stored state, served as
/// `text/calendar`. `None` comes exactly when the feed has no stored
/// calendar envelope — it has never synchronized successfully.
pub fn generate_document(store: &Store, feed_id: i64) -> (r: Option<Vec<u8>>)
    requires
        store@.inv(),
    ensures
        match r {
            Some(b) => {
                &&& find_cal_from(store@.calendars, feed_id as int, 0) < store@.calendars.len()
                &&& exists|evs: Seq<EventView>|
                    {
                        &&& sorted_desc(evs)
                        &&& evs.to_multiset() == store@.events.filter(
                            |e: EventView| e.feed_id == feed_id,
                        ).to_multiset()
                        &&& b@ == render_doc_spec(
                            gen_doc_lines(
                                store@.calendars[find_cal_from(
                                    store@.calendars,
                                    feed_id as int,
                                    0,
                                )],
                                evs,
                            ),
                        )
                    }
            },
            None => find_cal_from(store@.calendars, feed_id as int, 0) == store@.calendars.len(),
        },
{
    let cal = match store.get_calendar(feed_id) {
        Some(c) => c,
        None => {
            return None;
        },
    };
    let events = store.get_events_for_feed(feed_id);
    let lines = generate_lines(&cal, &events);
    let b = render_doc(&lines);
    proof {
        let evs = ev_views(events);
        assert(sorted_desc(evs) && evs.to_multiset() == store@.events.filter(
            |e: EventView| e.feed_id == feed_id,
        ).to_multiset() && b@ == render_doc_spec(
            gen_doc_lines(
                store@.calendars[find_cal_from(store@.calendars, feed_id as int, 0)],
                evs,
            ),
        ));
    }
    Some(b)
}

} // verus!
