//! The round-trip guarantee: a document generated from stored state, fed
//! back through the document parser and the normalizer, reproduces the
//! stored events — their natural keys and their mutable fields.

use vstd::prelude::*;
use crate::bytes::{lemma_find_from_none, lemma_dec_round_trip, i64_dec};
use crate::datetime::lemma_compact_round_trip;
use crate::db::EventView;
use crate::generate::{
    sprop, opt_prop, tprop, event_props_spec, organizer_prop, cal_level_lines, day_lines,
    std_lines, tz_block_lines,
};
use crate::names::{
    nm_begin, nm_end, nm_vevent, nm_uid, nm_dtstamp, nm_dtstart, nm_dtend, nm_summary,
    nm_description, nm_location, nm_organizer, nm_cn, nm_sequence, nm_status, nm_tzid,
};
use crate::normalize::{
    find_prop_spec, find_param_spec, first_chunk, opt_value, zone_param_spec,
    norm_time_spec, normalize_event_spec, organizer_cn_spec, sequence_spec,
};
use crate::props::{PropertyView, ParamView, free_of};
use crate::zone::{resolved_zone, local_instant};
use crate::SyncError;

verus! {

/// The lines between `BEGIN:VEVENT` and `END:VEVENT` of a generated event.
pub open spec fn event_body_spec(e: EventView) -> Seq<PropertyView> {
    seq![
        sprop(nm_uid(), e.uid),
        tprop(nm_dtstamp(), e.dtstamp),
        tprop(nm_dtstart(), e.start_time),
        tprop(nm_dtend(), e.end_time),
        sprop(nm_summary(), e.summary),
        sprop(
            nm_description(),
            (match e.description {
                Some(d) => d,
                None => Seq::empty(),
            }),
        ),
    ] + opt_prop(nm_location(), e.location) + organizer_prop(e) + (match e.sequence {
        Some(n) => seq![sprop(nm_sequence(), i64_dec(n))],
        None => Seq::<PropertyView>::empty(),
    }) + opt_prop(nm_status(), e.status)
}

/// A generated event block is its body wrapped in `BEGIN` and `END` lines.
pub proof fn lemma_event_block_shape(e: EventView)
    ensures
        event_props_spec(e) == seq![sprop(nm_begin(), nm_vevent())] + event_body_spec(e) + seq![
            sprop(nm_end(), nm_vevent()),
        ],
{
    assert(event_props_spec(e) =~= seq![sprop(nm_begin(), nm_vevent())] + event_body_spec(e)
        + seq![sprop(nm_end(), nm_vevent())]);
}

/// Property lookup distributes over concatenation: the left part wins.
pub proof fn lemma_find_prop_concat(a: Seq<PropertyView>, b: Seq<PropertyView>, n: Seq<u8>)
    ensures
        find_prop_spec(a + b, n) == (match find_prop_spec(a, n) {
            Some(p) => Some(p),
            None => find_prop_spec(b, n),
        }),
    decreases a.len(),
{
    if a.len() == 0 {
        assert(a + b =~= b);
    } else {
        assert((a + b)[0] == a[0]);
        assert((a + b).drop_first() =~= a.drop_first() + b);
        lemma_find_prop_concat(a.drop_first(), b, n);
    }
}

/// Lookup in an optional property line.
pub proof fn lemma_find_opt_prop(name: Seq<u8>, v: Option<Seq<u8>>, n: Seq<u8>)
    ensures
        find_prop_spec(opt_prop(name, v), n) == (if name == n {
            match v {
                Some(x) => Some(sprop(name, x)),
                None => None::<PropertyView>,
            }
        } else {
            None::<PropertyView>
        }),
{
    reveal_with_fuel(find_prop_spec, 3);
    match v {
        Some(x) => {
            assert(opt_prop(name, v)[0] == sprop(name, x));
            assert(opt_prop(name, v).drop_first() =~= Seq::<PropertyView>::empty());
            assert(find_prop_spec(Seq::<PropertyView>::empty(), n) is None);
        },
        None => {
            assert(opt_prop(name, v) =~= Seq::<PropertyView>::empty());
        },
    }
}

/// The iCalendar keywords this proof walks past are pairwise distinct; the
/// pairs of equal length are told apart by one byte.
proof fn lemma_names_distinct()
    ensures
        nm_dtstamp() != nm_dtstart(),
        nm_dtstamp() != nm_summary(),
        nm_dtstart() != nm_summary(),
        nm_location() != nm_sequence(),
        nm_uid() != nm_end(),
        nm_dtend() != nm_begin(),
{
    assert(nm_dtstamp()[5] != nm_dtstart()[5]);
    assert(nm_dtstamp()[0] != nm_summary()[0]);
    assert(nm_dtstart()[0] != nm_summary()[0]);
    assert(nm_location()[0] != nm_sequence()[0]);
    assert(nm_uid()[0] != nm_end()[0]);
    assert(nm_dtend()[0] != nm_begin()[0]);
}

/// What a stored event must look like for its generated block to reparse
/// to it exactly: well-formed timestamps, the always-written description,
/// a display name only beside an organizer, a first-chunk-clean display
/// name, and a representable sequence number.
pub open spec fn reparse_ok(e: EventView) -> bool {
    &&& e.wf()
    &&& e.description is Some
    &&& (e.organizer is None ==> e.organizer_cn is None)
    &&& (match e.organizer_cn {
        Some(cn) => free_of(cn, 44),
        None => true,
    })
    &&& (match e.sequence {
        Some(n) => i64::MIN <= n <= i64::MAX,
        None => true,
    })
}

/// A comma-free text is its own first chunk.
proof fn lemma_first_chunk_id(v: Seq<u8>)
    requires
        free_of(v, 44),
    ensures
        first_chunk(v) == v,
{
    lemma_find_from_none(v, 44, 0);
    assert(v.take(v.len() as int) =~= v);
}

/// Normalizing a generated date-time line recovers the stored timestamp.
proof fn lemma_tprop_reparse(name: Seq<u8>, z: crate::zone::ZonedTimeView)
    requires
        z.wf(),
    ensures
        ({
            let p = tprop(name, z);
            {
                &&& zone_param_spec(p) == Some(z.zone)
                &&& crate::datetime::parse_compact_spec(p.value) == Some(z.local)
                &&& resolved_zone(Some(z.zone)) == z.zone
                &&& local_instant(z.local, z.zone) == Some(z.instant)
            }
        }),
{
    let p = tprop(name, z);
    assert(p.params[0].value == z.zone);
    assert(free_of(z.zone, 44));
    lemma_first_chunk_id(z.zone);
    lemma_compact_round_trip(z.local);
}

/// The per-event round trip: normalizing the body of a generated event
/// block yields the stored event again, under the placeholder identifier
/// that a merge replaces.
#[verifier::rlimit(60)]
pub proof fn lemma_event_reparse(e: EventView)
    requires
        reparse_ok(e),
    ensures
        normalize_event_spec(e.feed_id, event_body_spec(e)) == Ok::<EventView, SyncError>(
            e.with_id(0),
        ),
{
    reveal_with_fuel(find_prop_spec, 10);
    lemma_names_distinct();
    let body = event_body_spec(e);
    let fixed = seq![
        sprop(nm_uid(), e.uid),
        tprop(nm_dtstamp(), e.dtstamp),
        tprop(nm_dtstart(), e.start_time),
        tprop(nm_dtend(), e.end_time),
        sprop(nm_summary(), e.summary),
        sprop(
            nm_description(),
            (match e.description {
                Some(d) => d,
                None => Seq::empty(),
            }),
        ),
    ];
    let bloc = opt_prop(nm_location(), e.location);
    let borg = organizer_prop(e);
    let bseq = (match e.sequence {
        Some(n) => seq![sprop(nm_sequence(), i64_dec(n))],
        None => Seq::<PropertyView>::empty(),
    });
    let bst = opt_prop(nm_status(), e.status);
    assert(body == fixed + bloc + borg + bseq + bst);

    // Lookups by name, segment by segment.
    assert forall|n: Seq<u8>| true implies #[trigger] find_prop_spec(body, n) == (
    match find_prop_spec(fixed, n) {
        Some(p) => Some(p),
        None => match find_prop_spec(bloc, n) {
            Some(p) => Some(p),
            None => match find_prop_spec(borg, n) {
                Some(p) => Some(p),
                None => match find_prop_spec(bseq, n) {
                    Some(p) => Some(p),
                    None => find_prop_spec(bst, n),
                },
            },
        },
    }) by {
        lemma_find_prop_concat(fixed + bloc + borg + bseq, bst, n);
        lemma_find_prop_concat(fixed + bloc + borg, bseq, n);
        lemma_find_prop_concat(fixed + bloc, borg, n);
        lemma_find_prop_concat(fixed, bloc, n);
    }

    // The three date-time lines.
    lemma_tprop_reparse(nm_dtstamp(), e.dtstamp);
    lemma_tprop_reparse(nm_dtstart(), e.start_time);
    lemma_tprop_reparse(nm_dtend(), e.end_time);
    assert(find_prop_spec(fixed, nm_dtstart()) == Some(tprop(nm_dtstart(), e.start_time)));
    assert(find_prop_spec(fixed, nm_dtend()) == Some(tprop(nm_dtend(), e.end_time)));
    assert(find_prop_spec(fixed, nm_dtstamp()) == Some(tprop(nm_dtstamp(), e.dtstamp)));
    assert(norm_time_spec(body, nm_dtstart()) == Ok::<crate::zone::ZonedTimeView, SyncError>(
        e.start_time,
    )) by {
        assert(crate::zone::ZonedTimeView {
            local: e.start_time.local,
            zone: e.start_time.zone,
            instant: e.start_time.instant,
        } =~~= e.start_time);
    }
    assert(norm_time_spec(body, nm_dtend()) == Ok::<crate::zone::ZonedTimeView, SyncError>(
        e.end_time,
    )) by {
        assert(crate::zone::ZonedTimeView {
            local: e.end_time.local,
            zone: e.end_time.zone,
            instant: e.end_time.instant,
        } =~~= e.end_time);
    }
    assert(norm_time_spec(body, nm_dtstamp()) == Ok::<crate::zone::ZonedTimeView, SyncError>(
        e.dtstamp,
    )) by {
        assert(crate::zone::ZonedTimeView {
            local: e.dtstamp.local,
            zone: e.dtstamp.zone,
            instant: e.dtstamp.instant,
        } =~~= e.dtstamp);
    }

    // The text fields.
    assert(find_prop_spec(fixed, nm_summary()) == Some(sprop(nm_summary(), e.summary)));
    assert(opt_value(body, nm_summary()) == Some(e.summary));
    assert(find_prop_spec(fixed, nm_description()) == Some(
        sprop(
            nm_description(),
            (match e.description {
                Some(d) => d,
                None => Seq::empty(),
            }),
        ),
    ));
    assert(find_prop_spec(fixed, nm_uid()) == Some(sprop(nm_uid(), e.uid)));
    assert(opt_value(body, nm_uid()) == Some(e.uid));

    // The optional fields, present or absent.
    assert(find_prop_spec(fixed, nm_location()) is None);
    lemma_find_opt_prop(nm_location(), e.location, nm_location());
    match e.location {
        Some(loc) => {
            assert(opt_value(body, nm_location()) == Some(loc));
        },
        None => {
            assert(find_prop_spec(bloc, nm_location()) is None);
            assert(find_prop_spec(borg, nm_location()) is None);
            assert(find_prop_spec(bseq, nm_location()) is None);
            lemma_find_opt_prop(nm_status(), e.status, nm_location());
            assert(opt_value(body, nm_location()) is None);
        },
    }

    assert(find_prop_spec(fixed, nm_organizer()) is None);
    lemma_find_opt_prop(nm_location(), e.location, nm_organizer());
    match e.organizer {
        Some(org) => {
            let op = borg[0];
            assert(find_prop_spec(borg, nm_organizer()) == Some(op));
            assert(opt_value(body, nm_organizer()) == Some(org));
            match e.organizer_cn {
                Some(cn) => {
                    assert(op.params[0] == ParamView { key: nm_cn(), value: cn });
                    assert(find_param_spec(op.params, nm_cn()) == Some(
                        ParamView { key: nm_cn(), value: cn },
                    ));
                    lemma_first_chunk_id(cn);
                    assert(organizer_cn_spec(body) == Some(cn));
                },
                None => {
                    assert(op.params =~= Seq::<ParamView>::empty());
                    assert(find_param_spec(op.params, nm_cn()) is None);
                    assert(organizer_cn_spec(body) is None);
                },
            }
        },
        None => {
            assert(borg =~= Seq::<PropertyView>::empty());
            assert(find_prop_spec(borg, nm_organizer()) is None);
            assert(find_prop_spec(bseq, nm_organizer()) is None);
            lemma_find_opt_prop(nm_status(), e.status, nm_organizer());
            assert(opt_value(body, nm_organizer()) is None);
            assert(organizer_cn_spec(body) is None);
        },
    }

    assert(find_prop_spec(fixed, nm_sequence()) is None);
    lemma_find_opt_prop(nm_location(), e.location, nm_sequence());
    match e.organizer {
        Some(_) => {
            assert(borg[0].name == nm_organizer());
            assert(find_prop_spec(borg, nm_sequence()) is None) by {
                assert(borg.drop_first() =~= Seq::<PropertyView>::empty());
            }
        },
        None => {
            assert(borg =~= Seq::<PropertyView>::empty());
        },
    }
    match e.sequence {
        Some(n) => {
            assert(bseq[0] == sprop(nm_sequence(), i64_dec(n)));
            assert(find_prop_spec(bseq, nm_sequence()) == Some(sprop(nm_sequence(), i64_dec(n))))
                by {
                assert(bseq.drop_first() =~= Seq::<PropertyView>::empty());
            }
            lemma_dec_round_trip(n);
            assert(sequence_spec(body) == Some(n));
        },
        None => {
            assert(find_prop_spec(bseq, nm_sequence()) is None);
            lemma_find_opt_prop(nm_status(), e.status, nm_sequence());
            assert(sequence_spec(body) is None);
        },
    }

    assert(find_prop_spec(fixed, nm_status()) is None);
    lemma_find_opt_prop(nm_location(), e.location, nm_status());
    match e.organizer {
        Some(_) => {
            assert(find_prop_spec(borg, nm_status()) is None) by {
                assert(borg.drop_first() =~= Seq::<PropertyView>::empty());
            }
        },
        None => {},
    }
    match e.sequence {
        Some(n) => {
            assert(find_prop_spec(bseq, nm_status()) is None) by {
                assert(bseq.drop_first() =~= Seq::<PropertyView>::empty());
            }
        },
        None => {},
    }
    lemma_find_opt_prop(nm_status(), e.status, nm_status());
    match e.status {
        Some(st) => {
            assert(opt_value(body, nm_status()) == Some(st));
        },
        None => {
            assert(opt_value(body, nm_status()) is None);
        },
    }

    // Assemble.
    match normalize_event_spec(e.feed_id, body) {
        Ok(out) => {
            assert(out =~~= e.with_id(0));
        },
        Err(_) => {
            assert(false);
        },
    }
}

/// Neither a `BEGIN` nor an `END` line.
pub open spec fn is_plain(l: PropertyView) -> bool {
    !crate::document::is_begin(l) && !crate::document::is_end(l)
}

/// All lines of a sequence are plain.
pub open spec fn all_plain(ls: Seq<PropertyView>) -> bool {
    forall|i: int| 0 <= i < ls.len() ==> is_plain(#[trigger] ls[i])
}

/// Running the grouping pass from position `k` is running it on the
/// remaining lines.
proof fn lemma_run_skip(ls: Seq<PropertyView>, k: int, m: crate::document::Machine)
    requires
        0 <= k <= ls.len(),
    ensures
        crate::document::run_machine(ls, k, m) == crate::document::run_machine(
            ls.skip(k),
            0,
            m,
        ),
    decreases ls.len() - k,
{
    if k == ls.len() {
        assert(ls.skip(k) =~= Seq::<PropertyView>::empty());
    } else {
        let m2 = crate::document::step(m, ls[k]);
        lemma_run_skip(ls, k + 1, m2);
        assert(ls.skip(k)[0] == ls[k]);
        lemma_run_skip(ls.skip(k), 1, m2);
        assert(ls.skip(k).skip(1) =~= ls.skip(k + 1));
    }
}

/// Running the pass over a concatenation runs it over each part in turn.
proof fn lemma_run_concat(a: Seq<PropertyView>, b: Seq<PropertyView>, m: crate::document::Machine)
    ensures
        crate::document::run_machine(a + b, 0, m) == crate::document::run_machine(
            b,
            0,
            crate::document::run_machine(a, 0, m),
        ),
    decreases a.len(),
{
    if a.len() == 0 {
        assert(a + b =~= b);
    } else {
        let m2 = crate::document::step(m, a[0]);
        assert((a + b)[0] == a[0]);
        lemma_run_skip(a + b, 1, m2);
        assert((a + b).skip(1) =~= a.drop_first() + b);
        lemma_run_concat(a.drop_first(), b, m2);
        lemma_run_skip(a, 1, m2);
        assert(a.skip(1) =~= a.drop_first());
    }
}

/// In a collecting state, plain lines are appended to the state's list and
/// nothing else changes.
proof fn lemma_run_plain(ls: Seq<PropertyView>, m: crate::document::Machine)
    requires
        all_plain(ls),
        m.mode == crate::document::Mode::Cal || m.mode == crate::document::Mode::Tz || m.mode
            == crate::document::Mode::TzDay || m.mode == crate::document::Mode::TzStd || m.mode
            == crate::document::Mode::Ev,
    ensures
        crate::document::run_machine(ls, 0, m) == (match m.mode {
            crate::document::Mode::Cal => crate::document::Machine {
                cal_props: m.cal_props + ls,
                ..m
            },
            crate::document::Mode::Tz => crate::document::Machine {
                tz_props: m.tz_props + ls,
                ..m
            },
            crate::document::Mode::TzDay => crate::document::Machine { sub: m.sub + ls, ..m },
            crate::document::Mode::TzStd => crate::document::Machine { sub: m.sub + ls, ..m },
            crate::document::Mode::Ev => crate::document::Machine { ev: m.ev + ls, ..m },
            _ => m,
        }),
    decreases ls.len(),
{
    if ls.len() == 0 {
        assert(m.cal_props + ls =~= m.cal_props);
        assert(m.tz_props + ls =~= m.tz_props);
        assert(m.sub + ls =~= m.sub);
        assert(m.ev + ls =~= m.ev);
        assert(crate::document::run_machine(ls, 0, m) =~~= (match m.mode {
            crate::document::Mode::Cal => crate::document::Machine {
                cal_props: m.cal_props + ls,
                ..m
            },
            crate::document::Mode::Tz => crate::document::Machine {
                tz_props: m.tz_props + ls,
                ..m
            },
            crate::document::Mode::TzDay => crate::document::Machine { sub: m.sub + ls, ..m },
            crate::document::Mode::TzStd => crate::document::Machine { sub: m.sub + ls, ..m },
            crate::document::Mode::Ev => crate::document::Machine { ev: m.ev + ls, ..m },
            _ => m,
        }));
    } else {
        assert(is_plain(ls[0]));
        let m2 = crate::document::step(m, ls[0]);
        assert(all_plain(ls.drop_first())) by {
            assert(forall|i: int|
                0 <= i < ls.drop_first().len() ==> #[trigger] ls.drop_first()[i] == ls[i + 1]);
        }
        lemma_run_plain(ls.drop_first(), m2);
        lemma_run_skip(ls, 1, m2);
        assert(ls.skip(1) =~= ls.drop_first());
        assert(crate::document::run_machine(ls, 0, m) =~~= (match m.mode {
            crate::document::Mode::Cal => crate::document::Machine {
                cal_props: m.cal_props + ls,
                ..m
            },
            crate::document::Mode::Tz => crate::document::Machine {
                tz_props: m.tz_props + ls,
                ..m
            },
            crate::document::Mode::TzDay => crate::document::Machine { sub: m.sub + ls, ..m },
            crate::document::Mode::TzStd => crate::document::Machine { sub: m.sub + ls, ..m },
            crate::document::Mode::Ev => crate::document::Machine { ev: m.ev + ls, ..m },
            _ => m,
        })) by {
            assert(m.cal_props.push(ls[0]) + ls.drop_first() =~= m.cal_props + ls);
            assert(m.tz_props.push(ls[0]) + ls.drop_first() =~= m.tz_props + ls);
            assert(m.sub.push(ls[0]) + ls.drop_first() =~= m.sub + ls);
            assert(m.ev.push(ls[0]) + ls.drop_first() =~= m.ev + ls);
        }
    }
}

/// The property names this library writes are never `BEGIN` or `END`; the
/// component names it writes are pairwise distinct.
proof fn lemma_gen_names_plain()
    ensures
        crate::names::nm_version() != nm_begin() && crate::names::nm_version() != nm_end(),
        crate::names::nm_calscale() != nm_begin() && crate::names::nm_calscale() != nm_end(),
        crate::names::nm_prodid() != nm_begin() && crate::names::nm_prodid() != nm_end(),
        crate::names::nm_calname() != nm_begin() && crate::names::nm_calname() != nm_end(),
        nm_tzid() != nm_begin() && nm_tzid() != nm_end(),
        nm_dtstart() != nm_begin() && nm_dtstart() != nm_end(),
        crate::names::nm_tzoffsetfrom() != nm_begin() && crate::names::nm_tzoffsetfrom()
            != nm_end(),
        crate::names::nm_tzoffsetto() != nm_begin() && crate::names::nm_tzoffsetto() != nm_end(),
        crate::names::nm_rrule() != nm_begin() && crate::names::nm_rrule() != nm_end(),
        crate::names::nm_tzname() != nm_begin() && crate::names::nm_tzname() != nm_end(),
        nm_uid() != nm_begin() && nm_uid() != nm_end(),
        nm_dtstamp() != nm_begin() && nm_dtstamp() != nm_end(),
        nm_dtend() != nm_begin() && nm_dtend() != nm_end(),
        nm_summary() != nm_begin() && nm_summary() != nm_end(),
        nm_description() != nm_begin() && nm_description() != nm_end(),
        nm_location() != nm_begin() && nm_location() != nm_end(),
        nm_organizer() != nm_begin() && nm_organizer() != nm_end(),
        nm_sequence() != nm_begin() && nm_sequence() != nm_end(),
        nm_status() != nm_begin() && nm_status() != nm_end(),
        crate::names::nm_vcalendar() != crate::names::nm_vtimezone(),
        crate::names::nm_daylight() != crate::names::nm_standard(),
        crate::names::nm_vevent() != crate::names::nm_vtimezone(),
        crate::names::nm_vevent() != crate::names::nm_vcalendar(),
        crate::names::nm_vevent() != crate::names::nm_daylight(),
        crate::names::nm_vevent() != crate::names::nm_standard(),
{
    assert(crate::names::nm_rrule()[0] != nm_begin()[0]);
    assert(nm_dtend()[0] != nm_begin()[0]);
    assert(nm_uid()[0] != nm_end()[0]);
    assert(crate::names::nm_vcalendar()[1] != crate::names::nm_vtimezone()[1]);
    assert(crate::names::nm_daylight()[0] != crate::names::nm_standard()[0]);
}

/// Plainness of a concatenation.
proof fn lemma_plain_concat(a: Seq<PropertyView>, b: Seq<PropertyView>)
    requires
        all_plain(a),
        all_plain(b),
    ensures
        all_plain(a + b),
{
    assert forall|i: int| 0 <= i < (a + b).len() implies is_plain(#[trigger] (a + b)[i]) by {
        if i < a.len() {
            assert((a + b)[i] == a[i]);
        } else {
            assert((a + b)[i] == b[i - a.len()]);
        }
    }
}

/// Every line of a generated event body is plain.
proof fn lemma_event_body_plain(e: EventView)
    ensures
        all_plain(event_body_spec(e)),
{
    lemma_gen_names_plain();
    let fixed = seq![
        sprop(nm_uid(), e.uid),
        tprop(nm_dtstamp(), e.dtstamp),
        tprop(nm_dtstart(), e.start_time),
        tprop(nm_dtend(), e.end_time),
        sprop(nm_summary(), e.summary),
        sprop(
            nm_description(),
            (match e.description {
                Some(d) => d,
                None => Seq::empty(),
            }),
        ),
    ];
    let bloc = opt_prop(nm_location(), e.location);
    let borg = organizer_prop(e);
    let bseq = (match e.sequence {
        Some(n) => seq![sprop(nm_sequence(), i64_dec(n))],
        None => Seq::<PropertyView>::empty(),
    });
    let bst = opt_prop(nm_status(), e.status);
    assert(all_plain(fixed)) by {
        assert forall|i: int| 0 <= i < fixed.len() implies is_plain(#[trigger] fixed[i]) by {
            assert(fixed[0].name == nm_uid());
            assert(fixed[1].name == nm_dtstamp());
            assert(fixed[2].name == nm_dtstart());
            assert(fixed[3].name == nm_dtend());
            assert(fixed[4].name == nm_summary());
            assert(fixed[5].name == nm_description());
        }
    }
    assert(all_plain(bloc));
    assert(all_plain(borg));
    assert(all_plain(bseq));
    assert(all_plain(bst));
    lemma_plain_concat(fixed, bloc);
    lemma_plain_concat(fixed + bloc, borg);
    lemma_plain_concat(fixed + bloc + borg, bseq);
    lemma_plain_concat(fixed + bloc + borg + bseq, bst);
}

/// Running one line of the pass.
proof fn lemma_run_one(l: PropertyView, m: crate::document::Machine)
    ensures
        crate::document::run_machine(seq![l], 0, m) == crate::document::step(m, l),
{
    reveal_with_fuel(crate::document::run_machine, 3);
}

/// A generated event block, grouped from inside the envelope: the body is
/// recorded as one more event and the pass returns to the envelope.
proof fn lemma_run_event_block(e: EventView, m: crate::document::Machine)
    requires
        m.mode == crate::document::Mode::Cal,
    ensures
        crate::document::run_machine(event_props_spec(e), 0, m) == (crate::document::Machine {
            events: m.events.push(event_body_spec(e)),
            ev: Seq::empty(),
            ..m
        }),
{
    lemma_gen_names_plain();
    lemma_event_block_shape(e);
    let lb = seq![sprop(nm_begin(), crate::names::nm_vevent())];
    let le = seq![sprop(nm_end(), crate::names::nm_vevent())];
    let body = event_body_spec(e);
    assert(event_props_spec(e) == lb + body + le);
    lemma_run_concat(lb + body, le, m);
    lemma_run_concat(lb, body, m);
    lemma_run_one(lb[0], m);
    let m1 = crate::document::step(m, lb[0]);
    assert(m1 == crate::document::Machine {
        mode: crate::document::Mode::Ev,
        ev: Seq::empty(),
        ..m
    });
    lemma_event_body_plain(e);
    lemma_run_plain(body, m1);
    let m2 = crate::document::run_machine(body, 0, m1);
    assert(m2 == crate::document::Machine { ev: Seq::empty() + body, ..m1 });
    lemma_run_one(le[0], m2);
    let m3 = crate::document::step(m2, le[0]);
    assert(Seq::<PropertyView>::empty() + body =~= body);
    assert(m3 =~~= crate::document::Machine {
        events: m.events.push(body),
        ev: Seq::empty(),
        ..m
    });
}

/// The generated event bodies, in order.
pub open spec fn event_bodies(evs: Seq<EventView>) -> Seq<Seq<PropertyView>> {
    evs.map_values(|e: EventView| event_body_spec(e))
}

/// Grouping all generated event blocks records each body in order.
proof fn lemma_run_events(evs: Seq<EventView>, m: crate::document::Machine)
    requires
        m.mode == crate::document::Mode::Cal,
        m.ev == Seq::<PropertyView>::empty(),
    ensures
        crate::document::run_machine(crate::generate::events_props_spec(evs), 0, m)
            == (crate::document::Machine { events: m.events + event_bodies(evs), ..m }),
    decreases evs.len(),
{
    if evs.len() == 0 {
        assert(crate::generate::events_props_spec(evs) =~= Seq::<PropertyView>::empty());
        assert(m.events + event_bodies(evs) =~= m.events);
        assert(crate::document::run_machine(crate::generate::events_props_spec(evs), 0, m)
            =~~= crate::document::Machine { events: m.events + event_bodies(evs), ..m });
    } else {
        assert(crate::generate::events_props_spec(evs) == event_props_spec(evs[0])
            + crate::generate::events_props_spec(evs.drop_first()));
        lemma_run_concat(
            event_props_spec(evs[0]),
            crate::generate::events_props_spec(evs.drop_first()),
            m,
        );
        lemma_run_event_block(evs[0], m);
        let m1 = crate::document::Machine {
            events: m.events.push(event_body_spec(evs[0])),
            ev: Seq::empty(),
            ..m
        };
        lemma_run_events(evs.drop_first(), m1);
        assert(m.events.push(event_body_spec(evs[0])) + event_bodies(evs.drop_first())
            =~= m.events + event_bodies(evs)) by {
            assert(event_bodies(evs)[0] == event_body_spec(evs[0]));
            assert(forall|i: int|
                0 <= i < evs.drop_first().len() ==> #[trigger] event_bodies(evs.drop_first())[i]
                    == event_bodies(evs)[i + 1]);
        }
        assert(crate::document::run_machine(crate::generate::events_props_spec(evs), 0, m)
            =~~= crate::document::Machine { events: m.events + event_bodies(evs), ..m });
    }
}

/// The timezone component a generated envelope groups back into.
pub open spec fn gen_tz_view(c: crate::db::CalendarRowView) -> crate::document::TzCompView {
    crate::document::TzCompView {
        props: seq![sprop(nm_tzid(), c.tz_id)],
        daylight: Some(day_lines(c)),
        standard: Some(std_lines(c)),
    }
}

/// Every line of a generated daylight transition is plain.
proof fn lemma_day_lines_plain(c: crate::db::CalendarRowView)
    ensures
        all_plain(day_lines(c)),
{
    lemma_gen_names_plain();
    assert forall|i: int| 0 <= i < day_lines(c).len() implies is_plain(
        #[trigger] day_lines(c)[i],
    ) by {
        let dl = day_lines(c);
        assert(dl[i].name == nm_dtstart() || dl[i].name == crate::names::nm_tzoffsetfrom()
            || dl[i].name == crate::names::nm_tzoffsetto() || dl[i].name
            == crate::names::nm_rrule() || dl[i].name == crate::names::nm_tzname());
    }
}

proof fn lemma_std_lines_plain(c: crate::db::CalendarRowView)
    ensures
        all_plain(std_lines(c)),
{
    lemma_gen_names_plain();
    assert forall|i: int| 0 <= i < std_lines(c).len() implies is_plain(
        #[trigger] std_lines(c)[i],
    ) by {
        let sl = std_lines(c);
        assert(sl[i].name == nm_dtstart() || sl[i].name == crate::names::nm_tzoffsetfrom()
            || sl[i].name == crate::names::nm_tzoffsetto() || sl[i].name
            == crate::names::nm_rrule() || sl[i].name == crate::names::nm_tzname());
    }
}

/// Grouping the generated timezone block from the calendar level records
/// one timezone component and returns to the calendar level.
#[verifier::rlimit(100)]
proof fn lemma_run_tz_block(c: crate::db::CalendarRowView, m: crate::document::Machine)
    requires
        m.mode == crate::document::Mode::Cal,
    ensures
        crate::document::run_machine(tz_block_lines(c), 0, m) == (crate::document::Machine {
            tz_props: Seq::empty(),
            tz_day: None,
            tz_std: None,
            sub: Seq::empty(),
            timezones: m.timezones.push(gen_tz_view(c)),
            ..m
        }),
{
    lemma_gen_names_plain();
    lemma_day_lines_plain(c);
    lemma_std_lines_plain(c);
    let bvtz = seq![sprop(nm_begin(), crate::names::nm_vtimezone())];
    let tzl = seq![sprop(nm_tzid(), c.tz_id)];
    let bday = seq![sprop(nm_begin(), crate::names::nm_daylight())];
    let eday = seq![sprop(nm_end(), crate::names::nm_daylight())];
    let bstd = seq![sprop(nm_begin(), crate::names::nm_standard())];
    let estd = seq![sprop(nm_end(), crate::names::nm_standard())];
    let evtz = seq![sprop(nm_end(), crate::names::nm_vtimezone())];
    let dl = day_lines(c);
    let sl = std_lines(c);
    lemma_run_concat(bvtz + tzl + bday + dl + eday + bstd + sl + estd, evtz, m);
    lemma_run_concat(bvtz + tzl + bday + dl + eday + bstd + sl, estd, m);
    lemma_run_concat(bvtz + tzl + bday + dl + eday + bstd, sl, m);
    lemma_run_concat(bvtz + tzl + bday + dl + eday, bstd, m);
    lemma_run_concat(bvtz + tzl + bday + dl, eday, m);
    lemma_run_concat(bvtz + tzl + bday, dl, m);
    lemma_run_concat(bvtz + tzl, bday, m);
    lemma_run_concat(bvtz, tzl, m);
    lemma_run_one(bvtz[0], m);
    let m3 = crate::document::step(m, bvtz[0]);
    assert(all_plain(tzl));
    lemma_run_plain(tzl, m3);
    let m4 = crate::document::run_machine(tzl, 0, m3);
    lemma_run_one(bday[0], m4);
    let m5 = crate::document::step(m4, bday[0]);
    lemma_run_plain(dl, m5);
    let m6 = crate::document::run_machine(dl, 0, m5);
    lemma_run_one(eday[0], m6);
    let m7 = crate::document::step(m6, eday[0]);
    lemma_run_one(bstd[0], m7);
    let m8 = crate::document::step(m7, bstd[0]);
    lemma_run_plain(sl, m8);
    let m9 = crate::document::run_machine(sl, 0, m8);
    lemma_run_one(estd[0], m9);
    let m10 = crate::document::step(m9, estd[0]);
    lemma_run_one(evtz[0], m10);
    let m11 = crate::document::step(m10, evtz[0]);
    assert(Seq::<PropertyView>::empty() + tzl =~= tzl);
    assert(Seq::<PropertyView>::empty() + dl =~= dl);
    assert(Seq::<PropertyView>::empty() + sl =~= sl);
    assert(m11 =~~= (crate::document::Machine {
        tz_props: Seq::empty(),
        tz_day: None,
        tz_std: None,
        sub: Seq::empty(),
        timezones: m.timezones.push(gen_tz_view(c)),
        ..m
    }));
    assert(crate::document::run_machine(tz_block_lines(c), 0, m) == m11);
}

/// Grouping a generated envelope: the pass ends back at the calendar
/// level, having recorded the calendar properties and one timezone.
#[verifier::rlimit(100)]
proof fn lemma_run_envelope(c: crate::db::CalendarRowView)
    ensures
        crate::document::run_machine(
            crate::generate::cal_props_spec(c),
            0,
            crate::document::init_machine(),
        ) == (crate::document::Machine {
            mode: crate::document::Mode::Cal,
            cal_props: cal_level_lines(c),
            timezones: seq![gen_tz_view(c)],
            events: Seq::empty(),
            tz_props: Seq::empty(),
            tz_day: None,
            tz_std: None,
            sub: Seq::empty(),
            ev: Seq::empty(),
            skip_depth: 0,
            skip_return: crate::document::Mode::Top,
        }),
{
    lemma_gen_names_plain();
    let m0 = crate::document::init_machine();
    let bvcal = seq![sprop(nm_begin(), crate::names::nm_vcalendar())];
    let cl = cal_level_lines(c);
    let whole = bvcal + cl + tz_block_lines(c);
    lemma_run_concat(bvcal + cl, tz_block_lines(c), m0);
    lemma_run_concat(bvcal, cl, m0);
    lemma_run_one(bvcal[0], m0);
    let m1 = crate::document::step(m0, bvcal[0]);
    assert(all_plain(cl)) by {
        assert forall|i: int| 0 <= i < cl.len() implies is_plain(#[trigger] cl[i]) by {
            if i < 3 {
                assert(cl[0].name == crate::names::nm_version());
                assert(cl[1].name == crate::names::nm_calscale());
                assert(cl[2].name == crate::names::nm_prodid());
            } else {
                assert(cl[i].name == crate::names::nm_calname());
            }
        }
    }
    lemma_run_plain(cl, m1);
    let m2 = crate::document::run_machine(cl, 0, m1);
    lemma_run_tz_block(c, m2);
    let m11 = crate::document::run_machine(tz_block_lines(c), 0, m2);
    assert(Seq::<PropertyView>::empty() + cl =~= cl);
    assert(Seq::<crate::document::TzCompView>::empty().push(gen_tz_view(c)) =~= seq![
        gen_tz_view(c),
    ]);
    assert(m11 =~~= (crate::document::Machine {
        mode: crate::document::Mode::Cal,
        cal_props: cal_level_lines(c),
        timezones: seq![gen_tz_view(c)],
        events: Seq::empty(),
        tz_props: Seq::empty(),
        tz_day: None,
        tz_std: None,
        sub: Seq::empty(),
        ev: Seq::empty(),
        skip_depth: 0,
        skip_return: crate::document::Mode::Top,
    }));
}

/// Grouping a whole generated document succeeds and yields the calendar
/// properties, the one timezone component, and each event's body lines.
pub proof fn lemma_parse_generated_components(
    c: crate::db::CalendarRowView,
    evs: Seq<EventView>,
)
    ensures
        crate::document::parse_components_spec(crate::generate::gen_doc_lines(c, evs)) == Some(
            crate::document::DocView {
                cal_props: cal_level_lines(c),
                timezones: seq![gen_tz_view(c)],
                events: event_bodies(evs),
            },
        ),
{
    lemma_gen_names_plain();
    let m0 = crate::document::init_machine();
    let env = crate::generate::cal_props_spec(c);
    let evl = crate::generate::events_props_spec(evs);
    let fin = seq![sprop(nm_end(), crate::names::nm_vcalendar())];
    let whole = crate::generate::gen_doc_lines(c, evs);
    assert(whole == env + evl + fin);
    lemma_run_concat(env + evl, fin, m0);
    lemma_run_concat(env, evl, m0);
    lemma_run_envelope(c);
    let m1 = crate::document::run_machine(env, 0, m0);
    lemma_run_events(evs, m1);
    let m2 = crate::document::run_machine(evl, 0, m1);
    lemma_run_one(fin[0], m2);
    let m3 = crate::document::step(m2, fin[0]);
    assert(m3.mode == crate::document::Mode::Done);
    assert(Seq::<Seq<PropertyView>>::empty() + event_bodies(evs) =~= event_bodies(evs));
    assert(crate::document::machine_doc(m3) =~~= (crate::document::DocView {
        cal_props: cal_level_lines(c),
        timezones: seq![gen_tz_view(c)],
        events: event_bodies(evs),
    }));
}


/// A value text free of line terminators.
pub open spec fn text_ok(s: Seq<u8>) -> bool {
    free_of(s, 13) && free_of(s, 10)
}

pub open spec fn opt_text_ok(v: Option<Seq<u8>>) -> bool {
    match v {
        Some(x) => text_ok(x),
        None => true,
    }
}

/// A property name as this library writes them.
pub open spec fn name_ok(n: Seq<u8>) -> bool {
    &&& n.len() > 0
    &&& free_of(n, 58)
    &&& free_of(n, 59)
    &&& free_of(n, 13)
    &&& free_of(n, 10)
    &&& n[0] != 32
    &&& n[0] != 9
}

/// The compact date-time text holds digits and the `T` separator only.
proof fn lemma_format_text_ok(t: crate::datetime::LocalTime)
    requires
        t.valid(),
    ensures
        text_ok(crate::datetime::format_compact_spec(t)),
{
    let s = crate::datetime::format_compact_spec(t);
    assert forall|i: int| 0 <= i < s.len() implies s[i] != 13 && s[i] != 10 by {
        if i == 0 {
            assert(s[0] != 13 && s[0] != 10);
        }
        else if i == 1 {
            assert(s[1] != 13 && s[1] != 10);
        }
        else if i == 2 {
            assert(s[2] != 13 && s[2] != 10);
        }
        else if i == 3 {
            assert(s[3] != 13 && s[3] != 10);
        }
        else if i == 4 {
            assert(s[4] != 13 && s[4] != 10);
        }
        else if i == 5 {
            assert(s[5] != 13 && s[5] != 10);
        }
        else if i == 6 {
            assert(s[6] != 13 && s[6] != 10);
        }
        else if i == 7 {
            assert(s[7] != 13 && s[7] != 10);
        }
        else if i == 8 {
            assert(s[8] != 13 && s[8] != 10);
        }
        else if i == 9 {
            assert(s[9] != 13 && s[9] != 10);
        }
        else if i == 10 {
            assert(s[10] != 13 && s[10] != 10);
        }
        else if i == 11 {
            assert(s[11] != 13 && s[11] != 10);
        }
        else if i == 12 {
            assert(s[12] != 13 && s[12] != 10);
        }
        else if i == 13 {
            assert(s[13] != 13 && s[13] != 10);
        }
        else if i == 14 {
            assert(s[14] != 13 && s[14] != 10);
        }
    }
}

/// A decimal rendering holds digits and at most a sign.
proof fn lemma_i64_dec_text_ok(n: int)
    ensures
        text_ok(i64_dec(n)),
{
    if n >= 0 {
        crate::bytes::lemma_u64_dec_props(n);
        assert forall|i: int| 0 <= i < i64_dec(n).len() implies i64_dec(n)[i] != 13 && i64_dec(
            n,
        )[i] != 10 by {
            assert(crate::bytes::is_digit(crate::bytes::u64_dec(n)[i]));
        }
    } else {
        crate::bytes::lemma_u64_dec_props(-n);
        assert forall|i: int| 0 <= i < i64_dec(n).len() implies i64_dec(n)[i] != 13 && i64_dec(
            n,
        )[i] != 10 by {
            if i > 0 {
                assert(i64_dec(n)[i] == crate::bytes::u64_dec(-n)[i - 1]);
                assert(crate::bytes::is_digit(crate::bytes::u64_dec(-n)[i - 1]));
            }
        }
    }
}

/// What a stored event's text fields must look like for its generated
/// lines to be well-formed content lines.
pub open spec fn emit_ok(e: EventView) -> bool {
    &&& text_ok(e.summary)
    &&& text_ok(e.uid)
    &&& opt_text_ok(e.description)
    &&& opt_text_ok(e.location)
    &&& opt_text_ok(e.organizer)
    &&& opt_text_ok(e.status)
    &&& (match e.organizer_cn {
        Some(cn) => free_of(cn, 58) && free_of(cn, 59) && free_of(cn, 13) && free_of(cn, 10),
        None => true,
    })
}

/// What a stored calendar row's text fields must look like for its
/// generated lines to be well-formed content lines.
pub open spec fn cal_emit_ok(c: crate::db::CalendarRowView) -> bool {
    &&& text_ok(c.version)
    &&& text_ok(c.prod_id)
    &&& text_ok(c.cal_scale)
    &&& text_ok(c.tz_id)
    &&& opt_text_ok(c.name)
    &&& opt_text_ok(c.daylight_dtstart)
    &&& opt_text_ok(c.daylight_tzoffsetfrom)
    &&& opt_text_ok(c.daylight_tzoffsetto)
    &&& opt_text_ok(c.daylight_rrule)
    &&& opt_text_ok(c.daylight_tzname)
    &&& opt_text_ok(c.standard_dtstart)
    &&& opt_text_ok(c.standard_tzoffsetfrom)
    &&& opt_text_ok(c.standard_tzoffsetto)
    &&& opt_text_ok(c.standard_rrule)
    &&& opt_text_ok(c.standard_tzname)
}

/// Every keyword this library writes is a well-formed property name, and
/// the parameter keys carry no `=`.
proof fn lemma_gen_names_ok()
    ensures
        name_ok(nm_begin()),
        name_ok(nm_end()),
        name_ok(crate::names::nm_version()),
        name_ok(crate::names::nm_calscale()),
        name_ok(crate::names::nm_prodid()),
        name_ok(crate::names::nm_calname()),
        name_ok(nm_tzid()),
        name_ok(nm_dtstart()),
        name_ok(nm_dtend()),
        name_ok(nm_dtstamp()),
        name_ok(crate::names::nm_tzoffsetfrom()),
        name_ok(crate::names::nm_tzoffsetto()),
        name_ok(crate::names::nm_rrule()),
        name_ok(crate::names::nm_tzname()),
        name_ok(nm_uid()),
        name_ok(nm_summary()),
        name_ok(nm_description()),
        name_ok(nm_location()),
        name_ok(nm_organizer()),
        name_ok(nm_sequence()),
        name_ok(nm_status()),
        free_of(nm_tzid(), 61),
        free_of(nm_cn(), 61),
        free_of(nm_cn(), 58),
        free_of(nm_cn(), 59),
        free_of(nm_cn(), 13),
        free_of(nm_cn(), 10),
        text_ok(crate::names::nm_vcalendar()),
        text_ok(crate::names::nm_vtimezone()),
        text_ok(crate::names::nm_daylight()),
        text_ok(crate::names::nm_standard()),
        text_ok(nm_vevent()),
{
}

/// Every line of a sequence is a well-formed content line.
pub open spec fn all_wf(ls: Seq<PropertyView>) -> bool {
    forall|i: int| 0 <= i < ls.len() ==> (#[trigger] ls[i]).wf()
}

proof fn lemma_wf_concat(a: Seq<PropertyView>, b: Seq<PropertyView>)
    requires
        all_wf(a),
        all_wf(b),
    ensures
        all_wf(a + b),
{
    assert forall|i: int| 0 <= i < (a + b).len() implies (#[trigger] (a + b)[i]).wf() by {
        if i < a.len() {
            assert((a + b)[i] == a[i]);
        } else {
            assert((a + b)[i] == b[i - a.len()]);
        }
    }
}

/// A plain property line is well formed when its name and value are.
proof fn lemma_sprop_wf(n: Seq<u8>, v: Seq<u8>)
    requires
        name_ok(n),
        text_ok(v),
    ensures
        sprop(n, v).wf(),
{
    assert(forall|i: int| 0 <= i < 0 ==> (#[trigger] sprop(n, v).params[i]).wf());
}

/// A generated date-time line is well formed.
proof fn lemma_tprop_wf(n: Seq<u8>, z: crate::zone::ZonedTimeView)
    requires
        name_ok(n),
        z.wf(),
    ensures
        tprop(n, z).wf(),
{
    lemma_gen_names_ok();
    lemma_format_text_ok(z.local);
    let p = tprop(n, z);
    assert(p.params[0].wf());
    assert forall|i: int| 0 <= i < p.params.len() implies (#[trigger] p.params[i]).wf() by {
        assert(p.params[i] == p.params[0]);
    }
}

/// An optional generated line is well formed.
proof fn lemma_opt_prop_wf(n: Seq<u8>, v: Option<Seq<u8>>)
    requires
        name_ok(n),
        opt_text_ok(v),
    ensures
        all_wf(opt_prop(n, v)),
{
    match v {
        Some(x) => {
            lemma_sprop_wf(n, x);
            assert forall|i: int| 0 <= i < opt_prop(n, v).len() implies (#[trigger] opt_prop(
                n,
                v,
            )[i]).wf() by {
                assert(opt_prop(n, v)[i] == sprop(n, x));
            }
        },
        None => {},
    }
}

/// Every line of a generated event block is well formed.
#[verifier::rlimit(60)]
proof fn lemma_event_lines_wf(e: EventView)
    requires
        e.wf(),
        emit_ok(e),
    ensures
        all_wf(event_props_spec(e)),
{
    lemma_gen_names_ok();
    let fixed = seq![
        sprop(nm_begin(), nm_vevent()),
        sprop(nm_uid(), e.uid),
        tprop(nm_dtstamp(), e.dtstamp),
        tprop(nm_dtstart(), e.start_time),
        tprop(nm_dtend(), e.end_time),
        sprop(nm_summary(), e.summary),
        sprop(
            nm_description(),
            (match e.description {
                Some(d) => d,
                None => Seq::empty(),
            }),
        ),
    ];
    assert(all_wf(fixed)) by {
        lemma_sprop_wf(nm_begin(), nm_vevent());
        lemma_sprop_wf(nm_uid(), e.uid);
        lemma_tprop_wf(nm_dtstamp(), e.dtstamp);
        lemma_tprop_wf(nm_dtstart(), e.start_time);
        lemma_tprop_wf(nm_dtend(), e.end_time);
        lemma_sprop_wf(nm_summary(), e.summary);
        match e.description {
            Some(d) => {
                lemma_sprop_wf(nm_description(), d);
            },
            None => {
                lemma_sprop_wf(nm_description(), Seq::empty());
            },
        }
        assert forall|i: int| 0 <= i < fixed.len() implies (#[trigger] fixed[i]).wf() by {
            assert(fixed[0].wf() && fixed[1].wf() && fixed[2].wf() && fixed[3].wf()
                && fixed[4].wf() && fixed[5].wf() && fixed[6].wf());
        }
    }
    lemma_opt_prop_wf(nm_location(), e.location);
    let borg = organizer_prop(e);
    assert(all_wf(borg)) by {
        match e.organizer {
            Some(org) => {
                let op = borg[0];
                assert(op.wf()) by {
                    match e.organizer_cn {
                        Some(cn) => {
                            assert(op.params[0].wf());
                            assert forall|i: int|
                                0 <= i < op.params.len() implies (#[trigger] op.params[i]).wf()
                                by {
                                assert(op.params[i] == op.params[0]);
                            }
                        },
                        None => {},
                    }
                }
                assert forall|i: int| 0 <= i < borg.len() implies (#[trigger] borg[i]).wf() by {
                    assert(borg[i] == op);
                }
            },
            None => {},
        }
    }
    let bseq = (match e.sequence {
        Some(n) => seq![sprop(nm_sequence(), i64_dec(n))],
        None => Seq::<PropertyView>::empty(),
    });
    assert(all_wf(bseq)) by {
        match e.sequence {
            Some(n) => {
                lemma_i64_dec_text_ok(n);
                lemma_sprop_wf(nm_sequence(), i64_dec(n));
                assert forall|i: int| 0 <= i < bseq.len() implies (#[trigger] bseq[i]).wf() by {
                    assert(bseq[i] == sprop(nm_sequence(), i64_dec(n)));
                }
            },
            None => {},
        }
    }
    lemma_opt_prop_wf(nm_status(), e.status);
    let fin = seq![sprop(nm_end(), nm_vevent())];
    assert(all_wf(fin)) by {
        lemma_sprop_wf(nm_end(), nm_vevent());
        assert forall|i: int| 0 <= i < fin.len() implies (#[trigger] fin[i]).wf() by {
            assert(fin[i] == sprop(nm_end(), nm_vevent()));
        }
    }
    lemma_wf_concat(fixed, opt_prop(nm_location(), e.location));
    lemma_wf_concat(fixed + opt_prop(nm_location(), e.location), borg);
    lemma_wf_concat(fixed + opt_prop(nm_location(), e.location) + borg, bseq);
    lemma_wf_concat(
        fixed + opt_prop(nm_location(), e.location) + borg + bseq,
        opt_prop(nm_status(), e.status),
    );
    lemma_wf_concat(
        fixed + opt_prop(nm_location(), e.location) + borg + bseq + opt_prop(
            nm_status(),
            e.status,
        ),
        fin,
    );
}

/// Every line of a generated envelope is well formed.
#[verifier::rlimit(60)]
proof fn lemma_cal_lines_wf(c: crate::db::CalendarRowView)
    requires
        cal_emit_ok(c),
    ensures
        all_wf(crate::generate::cal_props_spec(c)),
{
    lemma_gen_names_ok();
    let bvcal = seq![sprop(nm_begin(), crate::names::nm_vcalendar())];
    assert(all_wf(bvcal)) by {
        lemma_sprop_wf(nm_begin(), crate::names::nm_vcalendar());
        assert forall|i: int| 0 <= i < bvcal.len() implies (#[trigger] bvcal[i]).wf() by {
            assert(bvcal[i] == bvcal[0]);
        }
    }
    let cl3 = seq![
        sprop(crate::names::nm_version(), c.version),
        sprop(crate::names::nm_calscale(), c.cal_scale),
        sprop(crate::names::nm_prodid(), c.prod_id),
    ];
    assert(all_wf(cl3)) by {
        lemma_sprop_wf(crate::names::nm_version(), c.version);
        lemma_sprop_wf(crate::names::nm_calscale(), c.cal_scale);
        lemma_sprop_wf(crate::names::nm_prodid(), c.prod_id);
        assert forall|i: int| 0 <= i < cl3.len() implies (#[trigger] cl3[i]).wf() by {
            assert(cl3[0].wf() && cl3[1].wf() && cl3[2].wf());
        }
    }
    lemma_opt_prop_wf(crate::names::nm_calname(), c.name);
    lemma_wf_concat(cl3, opt_prop(crate::names::nm_calname(), c.name));
    assert(all_wf(cal_level_lines(c)));
    let tz3 = seq![
        sprop(nm_begin(), crate::names::nm_vtimezone()),
        sprop(nm_tzid(), c.tz_id),
        sprop(nm_begin(), crate::names::nm_daylight()),
        sprop(nm_end(), crate::names::nm_daylight()),
        sprop(nm_begin(), crate::names::nm_standard()),
        sprop(nm_end(), crate::names::nm_standard()),
        sprop(nm_end(), crate::names::nm_vtimezone()),
    ];
    assert(all_wf(tz3)) by {
        lemma_sprop_wf(nm_begin(), crate::names::nm_vtimezone());
        lemma_sprop_wf(nm_tzid(), c.tz_id);
        lemma_sprop_wf(nm_begin(), crate::names::nm_daylight());
        lemma_sprop_wf(nm_end(), crate::names::nm_daylight());
        lemma_sprop_wf(nm_begin(), crate::names::nm_standard());
        lemma_sprop_wf(nm_end(), crate::names::nm_standard());
        lemma_sprop_wf(nm_end(), crate::names::nm_vtimezone());
        assert forall|i: int| 0 <= i < tz3.len() implies (#[trigger] tz3[i]).wf() by {
            assert(tz3[0].wf() && tz3[1].wf() && tz3[2].wf() && tz3[3].wf() && tz3[4].wf()
                && tz3[5].wf() && tz3[6].wf());
        }
    }
    assert(all_wf(day_lines(c))) by {
        lemma_opt_prop_wf(nm_dtstart(), c.daylight_dtstart);
        lemma_opt_prop_wf(crate::names::nm_tzoffsetfrom(), c.daylight_tzoffsetfrom);
        lemma_opt_prop_wf(crate::names::nm_tzoffsetto(), c.daylight_tzoffsetto);
        lemma_opt_prop_wf(crate::names::nm_rrule(), c.daylight_rrule);
        lemma_opt_prop_wf(crate::names::nm_tzname(), c.daylight_tzname);
        lemma_wf_concat(opt_prop(nm_dtstart(), c.daylight_dtstart), opt_prop(
            crate::names::nm_tzoffsetfrom(),
            c.daylight_tzoffsetfrom,
        ));
        lemma_wf_concat(opt_prop(nm_dtstart(), c.daylight_dtstart) + opt_prop(
            crate::names::nm_tzoffsetfrom(),
            c.daylight_tzoffsetfrom,
        ), opt_prop(crate::names::nm_tzoffsetto(), c.daylight_tzoffsetto));
        lemma_wf_concat(opt_prop(nm_dtstart(), c.daylight_dtstart) + opt_prop(
            crate::names::nm_tzoffsetfrom(),
            c.daylight_tzoffsetfrom,
        ) + opt_prop(crate::names::nm_tzoffsetto(), c.daylight_tzoffsetto), opt_prop(
            crate::names::nm_rrule(),
            c.daylight_rrule,
        ));
        lemma_wf_concat(opt_prop(nm_dtstart(), c.daylight_dtstart) + opt_prop(
            crate::names::nm_tzoffsetfrom(),
            c.daylight_tzoffsetfrom,
        ) + opt_prop(crate::names::nm_tzoffsetto(), c.daylight_tzoffsetto) + opt_prop(
            crate::names::nm_rrule(),
            c.daylight_rrule,
        ), opt_prop(crate::names::nm_tzname(), c.daylight_tzname));
    }
    assert(all_wf(std_lines(c))) by {
        lemma_opt_prop_wf(nm_dtstart(), c.standard_dtstart);
        lemma_opt_prop_wf(crate::names::nm_tzoffsetfrom(), c.standard_tzoffsetfrom);
        lemma_opt_prop_wf(crate::names::nm_tzoffsetto(), c.standard_tzoffsetto);
        lemma_opt_prop_wf(crate::names::nm_rrule(), c.standard_rrule);
        lemma_opt_prop_wf(crate::names::nm_tzname(), c.standard_tzname);
        lemma_wf_concat(opt_prop(nm_dtstart(), c.standard_dtstart), opt_prop(
            crate::names::nm_tzoffsetfrom(),
            c.standard_tzoffsetfrom,
        ));
        lemma_wf_concat(opt_prop(nm_dtstart(), c.standard_dtstart) + opt_prop(
            crate::names::nm_tzoffsetfrom(),
            c.standard_tzoffsetfrom,
        ), opt_prop(crate::names::nm_tzoffsetto(), c.standard_tzoffsetto));
        lemma_wf_concat(opt_prop(nm_dtstart(), c.standard_dtstart) + opt_prop(
            crate::names::nm_tzoffsetfrom(),
            c.standard_tzoffsetfrom,
        ) + opt_prop(crate::names::nm_tzoffsetto(), c.standard_tzoffsetto), opt_prop(
            crate::names::nm_rrule(),
            c.standard_rrule,
        ));
        lemma_wf_concat(opt_prop(nm_dtstart(), c.standard_dtstart) + opt_prop(
            crate::names::nm_tzoffsetfrom(),
            c.standard_tzoffsetfrom,
        ) + opt_prop(crate::names::nm_tzoffsetto(), c.standard_tzoffsetto) + opt_prop(
            crate::names::nm_rrule(),
            c.standard_rrule,
        ), opt_prop(crate::names::nm_tzname(), c.standard_tzname));
    }
    assert(all_wf(tz_block_lines(c))) by {
        assert forall|i: int|
            0 <= i < tz_block_lines(c).len() implies (#[trigger] tz_block_lines(c)[i]).wf() by {
            let t = tz_block_lines(c);
            let dl = day_lines(c);
            let sl = std_lines(c);
            if i == 0 {
                assert(t[i] == tz3[0]);
            } else if i == 1 {
                assert(t[i] == tz3[1]);
            } else if i == 2 {
                assert(t[i] == tz3[2]);
            } else if i < 3 + dl.len() {
                assert(t[i] == dl[i - 3]);
            } else if i == 3 + dl.len() {
                assert(t[i] == tz3[3]);
            } else if i == 4 + dl.len() {
                assert(t[i] == tz3[4]);
            } else if i < 5 + dl.len() + sl.len() {
                assert(t[i] == sl[i - 5 - dl.len()]);
            } else if i == 5 + dl.len() + sl.len() {
                assert(t[i] == tz3[5]);
            } else {
                assert(t[i] == tz3[6]);
            }
        }
    }
    lemma_wf_concat(bvcal, cal_level_lines(c));
    lemma_wf_concat(bvcal + cal_level_lines(c), tz_block_lines(c));
}

/// Every line of the generated event blocks is well formed.
proof fn lemma_events_lines_wf(evs: Seq<EventView>)
    requires
        forall|i: int|
            0 <= i < evs.len() ==> (#[trigger] evs[i]).wf() && emit_ok(evs[i]),
    ensures
        all_wf(crate::generate::events_props_spec(evs)),
    decreases evs.len(),
{
    if evs.len() == 0 {
    } else {
        assert(evs[0].wf() && emit_ok(evs[0]));
        lemma_event_lines_wf(evs[0]);
        assert(forall|i: int|
            0 <= i < evs.drop_first().len() ==> #[trigger] evs.drop_first()[i] == evs[i + 1]);
        lemma_events_lines_wf(evs.drop_first());
        lemma_wf_concat(
            event_props_spec(evs[0]),
            crate::generate::events_props_spec(evs.drop_first()),
        );
    }
}

/// Every line of a whole generated document is well formed.
pub proof fn lemma_gen_lines_wf(c: crate::db::CalendarRowView, evs: Seq<EventView>)
    requires
        cal_emit_ok(c),
        forall|i: int|
            0 <= i < evs.len() ==> (#[trigger] evs[i]).wf() && emit_ok(evs[i]),
    ensures
        all_wf(crate::generate::gen_doc_lines(c, evs)),
{
    lemma_gen_names_ok();
    lemma_cal_lines_wf(c);
    lemma_events_lines_wf(evs);
    let fin = seq![sprop(nm_end(), crate::names::nm_vcalendar())];
    assert(all_wf(fin)) by {
        lemma_sprop_wf(nm_end(), crate::names::nm_vcalendar());
        assert forall|i: int| 0 <= i < fin.len() implies (#[trigger] fin[i]).wf() by {
            assert(fin[i] == fin[0]);
        }
    }
    lemma_wf_concat(
        crate::generate::cal_props_spec(c),
        crate::generate::events_props_spec(evs),
    );
    lemma_wf_concat(
        crate::generate::cal_props_spec(c) + crate::generate::events_props_spec(evs),
        fin,
    );
}

/// The round trip of a whole generated document: rendering the stored
/// state and parsing the text back yields one event body per stored event,
/// and normalizing each body reproduces the stored event — its natural key
/// and every mutable field — under the placeholder identifier that a merge
/// replaces.
pub proof fn lemma_generated_document_reparses(
    c: crate::db::CalendarRowView,
    evs: Seq<EventView>,
)
    requires
        cal_emit_ok(c),
        forall|i: int|
            0 <= i < evs.len() ==> (#[trigger] evs[i]).wf() && emit_ok(evs[i]) && reparse_ok(
                evs[i],
            ),
    ensures
        crate::document::parse_document_spec(
            crate::lines::render_doc_spec(crate::generate::gen_doc_lines(c, evs)),
        ) == Some(
            crate::document::DocView {
                cal_props: cal_level_lines(c),
                timezones: seq![gen_tz_view(c)],
                events: event_bodies(evs),
            },
        ),
        forall|i: int|
            0 <= i < evs.len() ==> normalize_event_spec(
                (#[trigger] evs[i]).feed_id,
                event_bodies(evs)[i],
            ) == Ok::<EventView, SyncError>(evs[i].with_id(0)),
{
    lemma_gen_lines_wf(c, evs);
    crate::lines::lemma_doc_round_trip(crate::generate::gen_doc_lines(c, evs));
    lemma_parse_generated_components(c, evs);
    assert forall|i: int|
        0 <= i < evs.len() implies normalize_event_spec(
        (#[trigger] evs[i]).feed_id,
        event_bodies(evs)[i],
    ) == Ok::<EventView, SyncError>(evs[i].with_id(0)) by {
        assert(event_bodies(evs)[i] == event_body_spec(evs[i]));
        assert(reparse_ok(evs[i]));
        lemma_event_reparse(evs[i]);
    }
}

/// The values stored in a generated transition's lines.
#[verifier::rlimit(100)]
proof fn lemma_day_lines_values(c: crate::db::CalendarRowView)
    ensures
        opt_value(day_lines(c), nm_dtstart()) == c.daylight_dtstart,
        opt_value(day_lines(c), crate::names::nm_tzoffsetfrom()) == c.daylight_tzoffsetfrom,
        opt_value(day_lines(c), crate::names::nm_tzoffsetto()) == c.daylight_tzoffsetto,
        opt_value(day_lines(c), crate::names::nm_rrule()) == c.daylight_rrule,
        opt_value(day_lines(c), crate::names::nm_tzname()) == c.daylight_tzname,
{
    assert(day_lines(c) == opt_prop(nm_dtstart(), c.daylight_dtstart) + opt_prop(crate::names::nm_tzoffsetfrom(), c.daylight_tzoffsetfrom) + opt_prop(crate::names::nm_tzoffsetto(), c.daylight_tzoffsetto) + opt_prop(crate::names::nm_rrule(), c.daylight_rrule) + opt_prop(crate::names::nm_tzname(), c.daylight_tzname));
    lemma_find_prop_concat(opt_prop(nm_dtstart(), c.daylight_dtstart) + opt_prop(crate::names::nm_tzoffsetfrom(), c.daylight_tzoffsetfrom) + opt_prop(crate::names::nm_tzoffsetto(), c.daylight_tzoffsetto) + opt_prop(crate::names::nm_rrule(), c.daylight_rrule), opt_prop(crate::names::nm_tzname(), c.daylight_tzname), nm_dtstart());
    lemma_find_prop_concat(opt_prop(nm_dtstart(), c.daylight_dtstart) + opt_prop(crate::names::nm_tzoffsetfrom(), c.daylight_tzoffsetfrom) + opt_prop(crate::names::nm_tzoffsetto(), c.daylight_tzoffsetto), opt_prop(crate::names::nm_rrule(), c.daylight_rrule), nm_dtstart());
    lemma_find_prop_concat(opt_prop(nm_dtstart(), c.daylight_dtstart) + opt_prop(crate::names::nm_tzoffsetfrom(), c.daylight_tzoffsetfrom), opt_prop(crate::names::nm_tzoffsetto(), c.daylight_tzoffsetto), nm_dtstart());
    lemma_find_prop_concat(opt_prop(nm_dtstart(), c.daylight_dtstart), opt_prop(crate::names::nm_tzoffsetfrom(), c.daylight_tzoffsetfrom), nm_dtstart());
    lemma_find_opt_prop(nm_dtstart(), c.daylight_dtstart, nm_dtstart());
    lemma_find_opt_prop(crate::names::nm_tzoffsetfrom(), c.daylight_tzoffsetfrom, nm_dtstart());
    lemma_find_opt_prop(crate::names::nm_tzoffsetto(), c.daylight_tzoffsetto, nm_dtstart());
    lemma_find_opt_prop(crate::names::nm_rrule(), c.daylight_rrule, nm_dtstart());
    lemma_find_opt_prop(crate::names::nm_tzname(), c.daylight_tzname, nm_dtstart());
    lemma_find_prop_concat(opt_prop(nm_dtstart(), c.daylight_dtstart) + opt_prop(crate::names::nm_tzoffsetfrom(), c.daylight_tzoffsetfrom) + opt_prop(crate::names::nm_tzoffsetto(), c.daylight_tzoffsetto) + opt_prop(crate::names::nm_rrule(), c.daylight_rrule), opt_prop(crate::names::nm_tzname(), c.daylight_tzname), crate::names::nm_tzoffsetfrom());
    lemma_find_prop_concat(opt_prop(nm_dtstart(), c.daylight_dtstart) + opt_prop(crate::names::nm_tzoffsetfrom(), c.daylight_tzoffsetfrom) + opt_prop(crate::names::nm_tzoffsetto(), c.daylight_tzoffsetto), opt_prop(crate::names::nm_rrule(), c.daylight_rrule), crate::names::nm_tzoffsetfrom());
    lemma_find_prop_concat(opt_prop(nm_dtstart(), c.daylight_dtstart) + opt_prop(crate::names::nm_tzoffsetfrom(), c.daylight_tzoffsetfrom), opt_prop(crate::names::nm_tzoffsetto(), c.daylight_tzoffsetto), crate::names::nm_tzoffsetfrom());
    lemma_find_prop_concat(opt_prop(nm_dtstart(), c.daylight_dtstart), opt_prop(crate::names::nm_tzoffsetfrom(), c.daylight_tzoffsetfrom), crate::names::nm_tzoffsetfrom());
    lemma_find_opt_prop(nm_dtstart(), c.daylight_dtstart, crate::names::nm_tzoffsetfrom());
    lemma_find_opt_prop(crate::names::nm_tzoffsetfrom(), c.daylight_tzoffsetfrom, crate::names::nm_tzoffsetfrom());
    lemma_find_opt_prop(crate::names::nm_tzoffsetto(), c.daylight_tzoffsetto, crate::names::nm_tzoffsetfrom());
    lemma_find_opt_prop(crate::names::nm_rrule(), c.daylight_rrule, crate::names::nm_tzoffsetfrom());
    lemma_find_opt_prop(crate::names::nm_tzname(), c.daylight_tzname, crate::names::nm_tzoffsetfrom());
    lemma_find_prop_concat(opt_prop(nm_dtstart(), c.daylight_dtstart) + opt_prop(crate::names::nm_tzoffsetfrom(), c.daylight_tzoffsetfrom) + opt_prop(crate::names::nm_tzoffsetto(), c.daylight_tzoffsetto) + opt_prop(crate::names::nm_rrule(), c.daylight_rrule), opt_prop(crate::names::nm_tzname(), c.daylight_tzname), crate::names::nm_tzoffsetto());
    lemma_find_prop_concat(opt_prop(nm_dtstart(), c.daylight_dtstart) + opt_prop(crate::names::nm_tzoffsetfrom(), c.daylight_tzoffsetfrom) + opt_prop(crate::names::nm_tzoffsetto(), c.daylight_tzoffsetto), opt_prop(crate::names::nm_rrule(), c.daylight_rrule), crate::names::nm_tzoffsetto());
    lemma_find_prop_concat(opt_prop(nm_dtstart(), c.daylight_dtstart) + opt_prop(crate::names::nm_tzoffsetfrom(), c.daylight_tzoffsetfrom), opt_prop(crate::names::nm_tzoffsetto(), c.daylight_tzoffsetto), crate::names::nm_tzoffsetto());
    lemma_find_prop_concat(opt_prop(nm_dtstart(), c.daylight_dtstart), opt_prop(crate::names::nm_tzoffsetfrom(), c.daylight_tzoffsetfrom), crate::names::nm_tzoffsetto());
    lemma_find_opt_prop(nm_dtstart(), c.daylight_dtstart, crate::names::nm_tzoffsetto());
    lemma_find_opt_prop(crate::names::nm_tzoffsetfrom(), c.daylight_tzoffsetfrom, crate::names::nm_tzoffsetto());
    lemma_find_opt_prop(crate::names::nm_tzoffsetto(), c.daylight_tzoffsetto, crate::names::nm_tzoffsetto());
    lemma_find_opt_prop(crate::names::nm_rrule(), c.daylight_rrule, crate::names::nm_tzoffsetto());
    lemma_find_opt_prop(crate::names::nm_tzname(), c.daylight_tzname, crate::names::nm_tzoffsetto());
    lemma_find_prop_concat(opt_prop(nm_dtstart(), c.daylight_dtstart) + opt_prop(crate::names::nm_tzoffsetfrom(), c.daylight_tzoffsetfrom) + opt_prop(crate::names::nm_tzoffsetto(), c.daylight_tzoffsetto) + opt_prop(crate::names::nm_rrule(), c.daylight_rrule), opt_prop(crate::names::nm_tzname(), c.daylight_tzname), crate::names::nm_rrule());
    lemma_find_prop_concat(opt_prop(nm_dtstart(), c.daylight_dtstart) + opt_prop(crate::names::nm_tzoffsetfrom(), c.daylight_tzoffsetfrom) + opt_prop(crate::names::nm_tzoffsetto(), c.daylight_tzoffsetto), opt_prop(crate::names::nm_rrule(), c.daylight_rrule), crate::names::nm_rrule());
    lemma_find_prop_concat(opt_prop(nm_dtstart(), c.daylight_dtstart) + opt_prop(crate::names::nm_tzoffsetfrom(), c.daylight_tzoffsetfrom), opt_prop(crate::names::nm_tzoffsetto(), c.daylight_tzoffsetto), crate::names::nm_rrule());
    lemma_find_prop_concat(opt_prop(nm_dtstart(), c.daylight_dtstart), opt_prop(crate::names::nm_tzoffsetfrom(), c.daylight_tzoffsetfrom), crate::names::nm_rrule());
    lemma_find_opt_prop(nm_dtstart(), c.daylight_dtstart, crate::names::nm_rrule());
    lemma_find_opt_prop(crate::names::nm_tzoffsetfrom(), c.daylight_tzoffsetfrom, crate::names::nm_rrule());
    lemma_find_opt_prop(crate::names::nm_tzoffsetto(), c.daylight_tzoffsetto, crate::names::nm_rrule());
    lemma_find_opt_prop(crate::names::nm_rrule(), c.daylight_rrule, crate::names::nm_rrule());
    lemma_find_opt_prop(crate::names::nm_tzname(), c.daylight_tzname, crate::names::nm_rrule());
    lemma_find_prop_concat(opt_prop(nm_dtstart(), c.daylight_dtstart) + opt_prop(crate::names::nm_tzoffsetfrom(), c.daylight_tzoffsetfrom) + opt_prop(crate::names::nm_tzoffsetto(), c.daylight_tzoffsetto) + opt_prop(crate::names::nm_rrule(), c.daylight_rrule), opt_prop(crate::names::nm_tzname(), c.daylight_tzname), crate::names::nm_tzname());
    lemma_find_prop_concat(opt_prop(nm_dtstart(), c.daylight_dtstart) + opt_prop(crate::names::nm_tzoffsetfrom(), c.daylight_tzoffsetfrom) + opt_prop(crate::names::nm_tzoffsetto(), c.daylight_tzoffsetto), opt_prop(crate::names::nm_rrule(), c.daylight_rrule), crate::names::nm_tzname());
    lemma_find_prop_concat(opt_prop(nm_dtstart(), c.daylight_dtstart) + opt_prop(crate::names::nm_tzoffsetfrom(), c.daylight_tzoffsetfrom), opt_prop(crate::names::nm_tzoffsetto(), c.daylight_tzoffsetto), crate::names::nm_tzname());
    lemma_find_prop_concat(opt_prop(nm_dtstart(), c.daylight_dtstart), opt_prop(crate::names::nm_tzoffsetfrom(), c.daylight_tzoffsetfrom), crate::names::nm_tzname());
    lemma_find_opt_prop(nm_dtstart(), c.daylight_dtstart, crate::names::nm_tzname());
    lemma_find_opt_prop(crate::names::nm_tzoffsetfrom(), c.daylight_tzoffsetfrom, crate::names::nm_tzname());
    lemma_find_opt_prop(crate::names::nm_tzoffsetto(), c.daylight_tzoffsetto, crate::names::nm_tzname());
    lemma_find_opt_prop(crate::names::nm_rrule(), c.daylight_rrule, crate::names::nm_tzname());
    lemma_find_opt_prop(crate::names::nm_tzname(), c.daylight_tzname, crate::names::nm_tzname());
}

/// The values stored in a generated transition's lines.
#[verifier::rlimit(100)]
proof fn lemma_std_lines_values(c: crate::db::CalendarRowView)
    ensures
        opt_value(std_lines(c), nm_dtstart()) == c.standard_dtstart,
        opt_value(std_lines(c), crate::names::nm_tzoffsetfrom()) == c.standard_tzoffsetfrom,
        opt_value(std_lines(c), crate::names::nm_tzoffsetto()) == c.standard_tzoffsetto,
        opt_value(std_lines(c), crate::names::nm_rrule()) == c.standard_rrule,
        opt_value(std_lines(c), crate::names::nm_tzname()) == c.standard_tzname,
{
    assert(std_lines(c) == opt_prop(nm_dtstart(), c.standard_dtstart) + opt_prop(crate::names::nm_tzoffsetfrom(), c.standard_tzoffsetfrom) + opt_prop(crate::names::nm_tzoffsetto(), c.standard_tzoffsetto) + opt_prop(crate::names::nm_rrule(), c.standard_rrule) + opt_prop(crate::names::nm_tzname(), c.standard_tzname));
    lemma_find_prop_concat(opt_prop(nm_dtstart(), c.standard_dtstart) + opt_prop(crate::names::nm_tzoffsetfrom(), c.standard_tzoffsetfrom) + opt_prop(crate::names::nm_tzoffsetto(), c.standard_tzoffsetto) + opt_prop(crate::names::nm_rrule(), c.standard_rrule), opt_prop(crate::names::nm_tzname(), c.standard_tzname), nm_dtstart());
    lemma_find_prop_concat(opt_prop(nm_dtstart(), c.standard_dtstart) + opt_prop(crate::names::nm_tzoffsetfrom(), c.standard_tzoffsetfrom) + opt_prop(crate::names::nm_tzoffsetto(), c.standard_tzoffsetto), opt_prop(crate::names::nm_rrule(), c.standard_rrule), nm_dtstart());
    lemma_find_prop_concat(opt_prop(nm_dtstart(), c.standard_dtstart) + opt_prop(crate::names::nm_tzoffsetfrom(), c.standard_tzoffsetfrom), opt_prop(crate::names::nm_tzoffsetto(), c.standard_tzoffsetto), nm_dtstart());
    lemma_find_prop_concat(opt_prop(nm_dtstart(), c.standard_dtstart), opt_prop(crate::names::nm_tzoffsetfrom(), c.standard_tzoffsetfrom), nm_dtstart());
    lemma_find_opt_prop(nm_dtstart(), c.standard_dtstart, nm_dtstart());
    lemma_find_opt_prop(crate::names::nm_tzoffsetfrom(), c.standard_tzoffsetfrom, nm_dtstart());
    lemma_find_opt_prop(crate::names::nm_tzoffsetto(), c.standard_tzoffsetto, nm_dtstart());
    lemma_find_opt_prop(crate::names::nm_rrule(), c.standard_rrule, nm_dtstart());
    lemma_find_opt_prop(crate::names::nm_tzname(), c.standard_tzname, nm_dtstart());
    lemma_find_prop_concat(opt_prop(nm_dtstart(), c.standard_dtstart) + opt_prop(crate::names::nm_tzoffsetfrom(), c.standard_tzoffsetfrom) + opt_prop(crate::names::nm_tzoffsetto(), c.standard_tzoffsetto) + opt_prop(crate::names::nm_rrule(), c.standard_rrule), opt_prop(crate::names::nm_tzname(), c.standard_tzname), crate::names::nm_tzoffsetfrom());
    lemma_find_prop_concat(opt_prop(nm_dtstart(), c.standard_dtstart) + opt_prop(crate::names::nm_tzoffsetfrom(), c.standard_tzoffsetfrom) + opt_prop(crate::names::nm_tzoffsetto(), c.standard_tzoffsetto), opt_prop(crate::names::nm_rrule(), c.standard_rrule), crate::names::nm_tzoffsetfrom());
    lemma_find_prop_concat(opt_prop(nm_dtstart(), c.standard_dtstart) + opt_prop(crate::names::nm_tzoffsetfrom(), c.standard_tzoffsetfrom), opt_prop(crate::names::nm_tzoffsetto(), c.standard_tzoffsetto), crate::names::nm_tzoffsetfrom());
    lemma_find_prop_concat(opt_prop(nm_dtstart(), c.standard_dtstart), opt_prop(crate::names::nm_tzoffsetfrom(), c.standard_tzoffsetfrom), crate::names::nm_tzoffsetfrom());
    lemma_find_opt_prop(nm_dtstart(), c.standard_dtstart, crate::names::nm_tzoffsetfrom());
    lemma_find_opt_prop(crate::names::nm_tzoffsetfrom(), c.standard_tzoffsetfrom, crate::names::nm_tzoffsetfrom());
    lemma_find_opt_prop(crate::names::nm_tzoffsetto(), c.standard_tzoffsetto, crate::names::nm_tzoffsetfrom());
    lemma_find_opt_prop(crate::names::nm_rrule(), c.standard_rrule, crate::names::nm_tzoffsetfrom());
    lemma_find_opt_prop(crate::names::nm_tzname(), c.standard_tzname, crate::names::nm_tzoffsetfrom());
    lemma_find_prop_concat(opt_prop(nm_dtstart(), c.standard_dtstart) + opt_prop(crate::names::nm_tzoffsetfrom(), c.standard_tzoffsetfrom) + opt_prop(crate::names::nm_tzoffsetto(), c.standard_tzoffsetto) + opt_prop(crate::names::nm_rrule(), c.standard_rrule), opt_prop(crate::names::nm_tzname(), c.standard_tzname), crate::names::nm_tzoffsetto());
    lemma_find_prop_concat(opt_prop(nm_dtstart(), c.standard_dtstart) + opt_prop(crate::names::nm_tzoffsetfrom(), c.standard_tzoffsetfrom) + opt_prop(crate::names::nm_tzoffsetto(), c.standard_tzoffsetto), opt_prop(crate::names::nm_rrule(), c.standard_rrule), crate::names::nm_tzoffsetto());
    lemma_find_prop_concat(opt_prop(nm_dtstart(), c.standard_dtstart) + opt_prop(crate::names::nm_tzoffsetfrom(), c.standard_tzoffsetfrom), opt_prop(crate::names::nm_tzoffsetto(), c.standard_tzoffsetto), crate::names::nm_tzoffsetto());
    lemma_find_prop_concat(opt_prop(nm_dtstart(), c.standard_dtstart), opt_prop(crate::names::nm_tzoffsetfrom(), c.standard_tzoffsetfrom), crate::names::nm_tzoffsetto());
    lemma_find_opt_prop(nm_dtstart(), c.standard_dtstart, crate::names::nm_tzoffsetto());
    lemma_find_opt_prop(crate::names::nm_tzoffsetfrom(), c.standard_tzoffsetfrom, crate::names::nm_tzoffsetto());
    lemma_find_opt_prop(crate::names::nm_tzoffsetto(), c.standard_tzoffsetto, crate::names::nm_tzoffsetto());
    lemma_find_opt_prop(crate::names::nm_rrule(), c.standard_rrule, crate::names::nm_tzoffsetto());
    lemma_find_opt_prop(crate::names::nm_tzname(), c.standard_tzname, crate::names::nm_tzoffsetto());
    lemma_find_prop_concat(opt_prop(nm_dtstart(), c.standard_dtstart) + opt_prop(crate::names::nm_tzoffsetfrom(), c.standard_tzoffsetfrom) + opt_prop(crate::names::nm_tzoffsetto(), c.standard_tzoffsetto) + opt_prop(crate::names::nm_rrule(), c.standard_rrule), opt_prop(crate::names::nm_tzname(), c.standard_tzname), crate::names::nm_rrule());
    lemma_find_prop_concat(opt_prop(nm_dtstart(), c.standard_dtstart) + opt_prop(crate::names::nm_tzoffsetfrom(), c.standard_tzoffsetfrom) + opt_prop(crate::names::nm_tzoffsetto(), c.standard_tzoffsetto), opt_prop(crate::names::nm_rrule(), c.standard_rrule), crate::names::nm_rrule());
    lemma_find_prop_concat(opt_prop(nm_dtstart(), c.standard_dtstart) + opt_prop(crate::names::nm_tzoffsetfrom(), c.standard_tzoffsetfrom), opt_prop(crate::names::nm_tzoffsetto(), c.standard_tzoffsetto), crate::names::nm_rrule());
    lemma_find_prop_concat(opt_prop(nm_dtstart(), c.standard_dtstart), opt_prop(crate::names::nm_tzoffsetfrom(), c.standard_tzoffsetfrom), crate::names::nm_rrule());
    lemma_find_opt_prop(nm_dtstart(), c.standard_dtstart, crate::names::nm_rrule());
    lemma_find_opt_prop(crate::names::nm_tzoffsetfrom(), c.standard_tzoffsetfrom, crate::names::nm_rrule());
    lemma_find_opt_prop(crate::names::nm_tzoffsetto(), c.standard_tzoffsetto, crate::names::nm_rrule());
    lemma_find_opt_prop(crate::names::nm_rrule(), c.standard_rrule, crate::names::nm_rrule());
    lemma_find_opt_prop(crate::names::nm_tzname(), c.standard_tzname, crate::names::nm_rrule());
    lemma_find_prop_concat(opt_prop(nm_dtstart(), c.standard_dtstart) + opt_prop(crate::names::nm_tzoffsetfrom(), c.standard_tzoffsetfrom) + opt_prop(crate::names::nm_tzoffsetto(), c.standard_tzoffsetto) + opt_prop(crate::names::nm_rrule(), c.standard_rrule), opt_prop(crate::names::nm_tzname(), c.standard_tzname), crate::names::nm_tzname());
    lemma_find_prop_concat(opt_prop(nm_dtstart(), c.standard_dtstart) + opt_prop(crate::names::nm_tzoffsetfrom(), c.standard_tzoffsetfrom) + opt_prop(crate::names::nm_tzoffsetto(), c.standard_tzoffsetto), opt_prop(crate::names::nm_rrule(), c.standard_rrule), crate::names::nm_tzname());
    lemma_find_prop_concat(opt_prop(nm_dtstart(), c.standard_dtstart) + opt_prop(crate::names::nm_tzoffsetfrom(), c.standard_tzoffsetfrom), opt_prop(crate::names::nm_tzoffsetto(), c.standard_tzoffsetto), crate::names::nm_tzname());
    lemma_find_prop_concat(opt_prop(nm_dtstart(), c.standard_dtstart), opt_prop(crate::names::nm_tzoffsetfrom(), c.standard_tzoffsetfrom), crate::names::nm_tzname());
    lemma_find_opt_prop(nm_dtstart(), c.standard_dtstart, crate::names::nm_tzname());
    lemma_find_opt_prop(crate::names::nm_tzoffsetfrom(), c.standard_tzoffsetfrom, crate::names::nm_tzname());
    lemma_find_opt_prop(crate::names::nm_tzoffsetto(), c.standard_tzoffsetto, crate::names::nm_tzname());
    lemma_find_opt_prop(crate::names::nm_rrule(), c.standard_rrule, crate::names::nm_tzname());
    lemma_find_opt_prop(crate::names::nm_tzname(), c.standard_tzname, crate::names::nm_tzname());
}

/// The envelope round trip: extracting the calendar row from the
/// re-parsed generated document reproduces the stored row, under the feed
/// the new subscription belongs to.
#[verifier::rlimit(100)]
pub proof fn lemma_calendar_reparse(
    feed_id: int,
    c: crate::db::CalendarRowView,
    evs: Seq<Seq<PropertyView>>,
)
    ensures
        crate::normalize::calendar_row_spec(
            feed_id,
            crate::document::DocView {
                cal_props: cal_level_lines(c),
                timezones: seq![gen_tz_view(c)],
                events: evs,
            },
        ) == (crate::db::CalendarRowView { feed_id, ..c }),
{
    reveal_with_fuel(find_prop_spec, 8);
    let cl3 = seq![
        sprop(crate::names::nm_version(), c.version),
        sprop(crate::names::nm_calscale(), c.cal_scale),
        sprop(crate::names::nm_prodid(), c.prod_id),
    ];
    let on = opt_prop(crate::names::nm_calname(), c.name);
    assert(cal_level_lines(c) == cl3 + on);
    lemma_find_prop_concat(cl3, on, crate::names::nm_version());
    lemma_find_prop_concat(cl3, on, crate::names::nm_calscale());
    lemma_find_prop_concat(cl3, on, crate::names::nm_prodid());
    lemma_find_prop_concat(cl3, on, crate::names::nm_calname());
    lemma_find_opt_prop(crate::names::nm_calname(), c.name, crate::names::nm_calname());
    assert(opt_value(cal_level_lines(c), crate::names::nm_version()) == Some(c.version));
    assert(opt_value(cal_level_lines(c), crate::names::nm_calscale()) == Some(c.cal_scale));
    assert(opt_value(cal_level_lines(c), crate::names::nm_prodid()) == Some(c.prod_id));
    assert(opt_value(cal_level_lines(c), crate::names::nm_calname()) == c.name);
    assert(opt_value(gen_tz_view(c).props, nm_tzid()) == Some(c.tz_id));
    lemma_day_lines_values(c);
    lemma_std_lines_values(c);
    assert(crate::normalize::calendar_row_spec(
        feed_id,
        crate::document::DocView {
            cal_props: cal_level_lines(c),
            timezones: seq![gen_tz_view(c)],
            events: evs,
        },
    ) =~~= (crate::db::CalendarRowView { feed_id, ..c }));
}


/// Events that the normalizer produced are structurally ready for the
/// round trip: the description is always written, and a display name only
/// ever accompanies an organizer.
pub proof fn lemma_normalized_shape(feed_id: int, props: Seq<PropertyView>, e: EventView)
    requires
        normalize_event_spec(feed_id, props) == Ok::<EventView, SyncError>(e),
    ensures
        e.description is Some,
        e.organizer is None ==> e.organizer_cn is None,
{
    match find_prop_spec(props, nm_organizer()) {
        Some(_) => {},
        None => {},
    }
}


/// Normalizing every generated event body recovers the stored events, in
/// order, under the placeholder identifier.
pub proof fn lemma_normalize_generated_batch(g: int, evs: Seq<EventView>)
    requires
        forall|i: int|
            0 <= i < evs.len() ==> reparse_ok(#[trigger] evs[i]) && evs[i].feed_id == g,
    ensures
        crate::normalize::normalize_events_spec(g, event_bodies(evs)) == Ok::<
            Seq<EventView>,
            SyncError,
        >(evs.map_values(|e: EventView| e.with_id(0))),
    decreases evs.len(),
{
    let bodies = event_bodies(evs);
    let out = evs.map_values(|e: EventView| e.with_id(0));
    if evs.len() == 0 {
        assert(bodies.len() == 0);
        assert(out =~= Seq::<EventView>::empty());
    } else {
        assert(bodies[0] == event_body_spec(evs[0]));
        assert(reparse_ok(evs[0]));
        lemma_event_reparse(evs[0]);
        assert(normalize_event_spec(g, bodies[0]) == Ok::<EventView, SyncError>(
            evs[0].with_id(0),
        ));
        assert(forall|i: int|
            0 <= i < evs.drop_first().len() ==> #[trigger] evs.drop_first()[i] == evs[i + 1]);
        lemma_normalize_generated_batch(g, evs.drop_first());
        assert(bodies.drop_first() =~= event_bodies(evs.drop_first()));
        assert(seq![evs[0].with_id(0)] + evs.drop_first().map_values(
            |e: EventView| e.with_id(0),
        ) =~= out);
    }
}

} // verus!
