//! Grouping of content lines into the calendar document model: the
//! `VCALENDAR` envelope, its `VTIMEZONE` components with their `DAYLIGHT`
//! and `STANDARD` transitions, and its `VEVENT` components.

use vstd::prelude::*;
use crate::bytes::bytes_eq;
use crate::names::{
    nm_begin, nm_end, nm_vcalendar, nm_vtimezone, nm_daylight, nm_standard, nm_vevent, v_begin,
    v_end, v_vcalendar, v_vtimezone, v_daylight, v_standard, v_vevent,
};
use crate::props::{Property, PropertyView, prop_views};

verus! {

/// One `VTIMEZONE` component: its own properties and the properties of its
/// first `DAYLIGHT` and first `STANDARD` transition, when present.
#[derive(Debug)]
pub struct TzComp {
    pub props: Vec<Property>,
    pub daylight: Option<Vec<Property>>,
    pub standard: Option<Vec<Property>>,
}

#[verifier::ext_equal]
pub struct TzCompView {
    pub props: Seq<PropertyView>,
    pub daylight: Option<Seq<PropertyView>>,
    pub standard: Option<Seq<PropertyView>>,
}

/// The views of an optional property list.
pub open spec fn opt_prop_views(o: Option<Vec<Property>>) -> Option<Seq<PropertyView>> {
    match o {
        Some(v) => Some(prop_views(v)),
        None => None,
    }
}

impl View for TzComp {
    type V = TzCompView;

    open spec fn view(&self) -> TzCompView {
        TzCompView {
            props: prop_views(self.props),
            daylight: opt_prop_views(self.daylight),
            standard: opt_prop_views(self.standard),
        }
    }
}

/// The parsed document: calendar-level properties, timezone components in
/// order, and the property list of each event in order.
#[derive(Debug)]
pub struct IcalDocument {
    pub cal_props: Vec<Property>,
    pub timezones: Vec<TzComp>,
    pub events: Vec<Vec<Property>>,
}

#[verifier::ext_equal]
pub struct DocView {
    pub cal_props: Seq<PropertyView>,
    pub timezones: Seq<TzCompView>,
    pub events: Seq<Seq<PropertyView>>,
}

/// The views of a timezone component list.
pub open spec fn tz_views(ts: Vec<TzComp>) -> Seq<TzCompView> {
    ts@.map_values(|t: TzComp| t@)
}

/// The views of an event list.
pub open spec fn event_views(evs: Vec<Vec<Property>>) -> Seq<Seq<PropertyView>> {
    evs@.map_values(|e: Vec<Property>| prop_views(e))
}

impl View for IcalDocument {
    type V = DocView;

    open spec fn view(&self) -> DocView {
        DocView {
            cal_props: prop_views(self.cal_props),
            timezones: tz_views(self.timezones),
            events: event_views(self.events),
        }
    }
}

/// Where in the document the grouping pass stands.
#[derive(Clone, Copy, Debug, PartialEq, Eq, Structural)]
pub enum Mode {
    /// Before `BEGIN:VCALENDAR`.
    Top,
    /// Directly inside the calendar envelope.
    Cal,
    /// Inside a `VTIMEZONE` component.
    Tz,
    /// Inside a `DAYLIGHT` transition.
    TzDay,
    /// Inside a `STANDARD` transition.
    TzStd,
    /// Inside a `VEVENT` component.
    Ev,
    /// Inside a component this library does not model (an alarm, a to-do):
    /// its lines are dropped and the pass resumes where it left off.
    Skip,
    /// After `END:VCALENDAR`; the rest of the document is ignored.
    Done,
    /// The document is not a well-formed calendar.
    Failed,
}

/// The grouping pass's whole state.
#[verifier::ext_equal]
pub ghost struct Machine {
    pub mode: Mode,
    pub cal_props: Seq<PropertyView>,
    pub timezones: Seq<TzCompView>,
    pub events: Seq<Seq<PropertyView>>,
    pub tz_props: Seq<PropertyView>,
    pub tz_day: Option<Seq<PropertyView>>,
    pub tz_std: Option<Seq<PropertyView>>,
    pub sub: Seq<PropertyView>,
    pub ev: Seq<PropertyView>,
    pub skip_depth: int,
    pub skip_return: Mode,
}

pub open spec fn is_begin(l: PropertyView) -> bool {
    l.name == nm_begin()
}

pub open spec fn is_end(l: PropertyView) -> bool {
    l.name == nm_end()
}

pub open spec fn init_machine() -> Machine {
    Machine {
        mode: Mode::Top,
        cal_props: Seq::empty(),
        timezones: Seq::empty(),
        events: Seq::empty(),
        tz_props: Seq::empty(),
        tz_day: None,
        tz_std: None,
        sub: Seq::empty(),
        ev: Seq::empty(),
        skip_depth: 0,
        skip_return: Mode::Top,
    }
}

pub open spec fn fail(m: Machine) -> Machine {
    Machine { mode: Mode::Failed, ..m }
}

/// One grouping step: what one content line does to the state.
pub open spec fn step(m: Machine, l: PropertyView) -> Machine {
    match m.mode {
        Mode::Top => {
            if is_begin(l) && l.value == nm_vcalendar() {
                Machine { mode: Mode::Cal, ..m }
            } else {
                fail(m)
            }
        },
        Mode::Cal => {
            if is_begin(l) {
                if l.value == nm_vtimezone() {
                    Machine {
                        mode: Mode::Tz,
                        tz_props: Seq::empty(),
                        tz_day: None,
                        tz_std: None,
                        ..m
                    }
                } else if l.value == nm_vevent() {
                    Machine { mode: Mode::Ev, ev: Seq::empty(), ..m }
                } else {
                    Machine { mode: Mode::Skip, skip_depth: 0, skip_return: Mode::Cal, ..m }
                }
            } else if is_end(l) {
                if l.value == nm_vcalendar() {
                    Machine { mode: Mode::Done, ..m }
                } else {
                    fail(m)
                }
            } else {
                Machine { cal_props: m.cal_props.push(l), ..m }
            }
        },
        Mode::Tz => {
            if is_begin(l) {
                if l.value == nm_daylight() {
                    Machine { mode: Mode::TzDay, sub: Seq::empty(), ..m }
                } else if l.value == nm_standard() {
                    Machine { mode: Mode::TzStd, sub: Seq::empty(), ..m }
                } else {
                    Machine { mode: Mode::Skip, skip_depth: 0, skip_return: Mode::Tz, ..m }
                }
            } else if is_end(l) {
                if l.value == nm_vtimezone() {
                    Machine {
                        mode: Mode::Cal,
                        timezones: m.timezones.push(
                            TzCompView {
                                props: m.tz_props,
                                daylight: m.tz_day,
                                standard: m.tz_std,
                            },
                        ),
                        tz_props: Seq::empty(),
                        tz_day: None,
                        tz_std: None,
                        ..m
                    }
                } else {
                    fail(m)
                }
            } else {
                Machine { tz_props: m.tz_props.push(l), ..m }
            }
        },
        Mode::TzDay => {
            if is_end(l) && l.value == nm_daylight() {
                Machine {
                    mode: Mode::Tz,
                    tz_day: if m.tz_day is None {
                        Some(m.sub)
                    } else {
                        m.tz_day
                    },
                    sub: Seq::empty(),
                    ..m
                }
            } else if is_begin(l) {
                Machine { mode: Mode::Skip, skip_depth: 0, skip_return: Mode::TzDay, ..m }
            } else if is_end(l) {
                fail(m)
            } else {
                Machine { sub: m.sub.push(l), ..m }
            }
        },
        Mode::TzStd => {
            if is_end(l) && l.value == nm_standard() {
                Machine {
                    mode: Mode::Tz,
                    tz_std: if m.tz_std is None {
                        Some(m.sub)
                    } else {
                        m.tz_std
                    },
                    sub: Seq::empty(),
                    ..m
                }
            } else if is_begin(l) {
                Machine { mode: Mode::Skip, skip_depth: 0, skip_return: Mode::TzStd, ..m }
            } else if is_end(l) {
                fail(m)
            } else {
                Machine { sub: m.sub.push(l), ..m }
            }
        },
        Mode::Ev => {
            if is_end(l) && l.value == nm_vevent() {
                Machine { mode: Mode::Cal, events: m.events.push(m.ev), ev: Seq::empty(), ..m }
            } else if is_begin(l) {
                Machine { mode: Mode::Skip, skip_depth: 0, skip_return: Mode::Ev, ..m }
            } else if is_end(l) {
                fail(m)
            } else {
                Machine { ev: m.ev.push(l), ..m }
            }
        },
        Mode::Skip => {
            if is_begin(l) {
                Machine { skip_depth: m.skip_depth + 1, ..m }
            } else if is_end(l) {
                if m.skip_depth == 0 {
                    Machine { mode: m.skip_return, ..m }
                } else {
                    Machine { skip_depth: m.skip_depth - 1, ..m }
                }
            } else {
                m
            }
        },
        Mode::Done => m,
        Mode::Failed => m,
    }
}

/// Run the grouping pass from line `k` on.
pub open spec fn run_machine(ls: Seq<PropertyView>, k: int, m: Machine) -> Machine
    decreases ls.len() - k,
{
    if k < 0 || k >= ls.len() {
        m
    } else {
        run_machine(ls, k + 1, step(m, ls[k]))
    }
}

pub open spec fn machine_doc(m: Machine) -> DocView {
    DocView { cal_props: m.cal_props, timezones: m.timezones, events: m.events }
}

/// What grouping a line sequence means: the run must end in `Done` — the
/// envelope was opened and closed — else the document has no valid
/// calendar root.
pub open spec fn parse_components_spec(ls: Seq<PropertyView>) -> Option<DocView> {
    let m = run_machine(ls, 0, init_machine());
    if m.mode == Mode::Done {
        Some(machine_doc(m))
    } else {
        None
    }
}

/// What parsing a whole document's bytes means.
pub open spec fn parse_document_spec(s: Seq<u8>) -> Option<DocView> {
    match crate::lines::doc_props_spec(s) {
        Some(ps) => parse_components_spec(ps),
        None => None,
    }
}

/// A failed run stays failed.
pub proof fn lemma_failed_stays(ls: Seq<PropertyView>, k: int, m: Machine)
    requires
        m.mode == Mode::Failed,
    ensures
        run_machine(ls, k, m) == m,
    decreases ls.len() - k,
{
    if 0 <= k < ls.len() {
        lemma_failed_stays(ls, k + 1, m);
    }
}

/// Group parsed content lines into the document model. `None` comes exactly
/// when the lines do not form a well-formed calendar envelope.
#[verifier::rlimit(30)]
pub fn parse_components(ps: &Vec<Property>) -> (r: Option<IcalDocument>)
    ensures
        match r {
            Some(d) => parse_components_spec(prop_views(*ps)) == Some(d@),
            None => parse_components_spec(prop_views(*ps)) is None,
        },
{
    let ghost lsv = prop_views(*ps);
    let mut mode = Mode::Top;
    let mut cal_props: Vec<Property> = Vec::new();
    let mut timezones: Vec<TzComp> = Vec::new();
    let mut events: Vec<Vec<Property>> = Vec::new();
    let mut tz_props: Vec<Property> = Vec::new();
    let mut tz_day: Option<Vec<Property>> = None;
    let mut tz_std: Option<Vec<Property>> = None;
    let mut sub: Vec<Property> = Vec::new();
    let mut ev: Vec<Property> = Vec::new();
    let mut skip_depth: usize = 0;
    let mut skip_return = Mode::Top;
    proof {
        assert(prop_views(cal_props) =~= Seq::<PropertyView>::empty());
        assert(tz_views(timezones) =~= Seq::<TzCompView>::empty());
        assert(event_views(events) =~= Seq::<Seq<PropertyView>>::empty());
        assert(prop_views(tz_props) =~= Seq::<PropertyView>::empty());
        assert(prop_views(sub) =~= Seq::<PropertyView>::empty());
        assert(prop_views(ev) =~= Seq::<PropertyView>::empty());
    }
    let mut k: usize = 0;
    while k < ps.len()
        invariant
            0 <= k <= ps@.len(),
            lsv == prop_views(*ps),
            lsv.len() == ps@.len(),
            run_machine(lsv, 0, init_machine()) == run_machine(
                lsv,
                k as int,
                Machine {
                    mode,
                    cal_props: prop_views(cal_props),
                    timezones: tz_views(timezones),
                    events: event_views(events),
                    tz_props: prop_views(tz_props),
                    tz_day: opt_prop_views(tz_day),
                    tz_std: opt_prop_views(tz_std),
                    sub: prop_views(sub),
                    ev: prop_views(ev),
                    skip_depth: skip_depth as int,
                    skip_return,
                },
            ),
            skip_depth <= k,
        decreases ps@.len() - k,
    {
        let ghost before = Machine {
            mode,
            cal_props: prop_views(cal_props),
            timezones: tz_views(timezones),
            events: event_views(events),
            tz_props: prop_views(tz_props),
            tz_day: opt_prop_views(tz_day),
            tz_std: opt_prop_views(tz_std),
            sub: prop_views(sub),
            ev: prop_views(ev),
            skip_depth: skip_depth as int,
            skip_return,
        };
        let l = &ps[k];
        proof {
            assert(lsv[k as int] == l@);
        }
        let begin_name = v_begin();
        let end_name = v_end();
        let l_begin = bytes_eq(&l.name, &begin_name);
        let l_end = bytes_eq(&l.name, &end_name);
        match mode {
            Mode::Top => {
                if l_begin && bytes_eq(&l.value, &v_vcalendar()) {
                    mode = Mode::Cal;
                } else {
                    mode = Mode::Failed;
                }
            },
            Mode::Cal => {
                if l_begin {
                    if bytes_eq(&l.value, &v_vtimezone()) {
                        mode = Mode::Tz;
                        tz_props = Vec::new();
                        tz_day = None;
                        tz_std = None;
                        proof {
                            assert(prop_views(tz_props) =~= Seq::<PropertyView>::empty());
                        }
                    } else if bytes_eq(&l.value, &v_vevent()) {
                        mode = Mode::Ev;
                        ev = Vec::new();
                        proof {
                            assert(prop_views(ev) =~= Seq::<PropertyView>::empty());
                        }
                    } else {
                        skip_return = Mode::Cal;
                        skip_depth = 0;
                        mode = Mode::Skip;
                    }
                } else if l_end {
                    if bytes_eq(&l.value, &v_vcalendar()) {
                        mode = Mode::Done;
                    } else {
                        mode = Mode::Failed;
                    }
                } else {
                    let ghost cbefore = prop_views(cal_props);
                    cal_props.push(l.duplicate());
                    proof {
                        assert(prop_views(cal_props) =~= cbefore.push(l@));
                    }
                }
            },
            Mode::Tz => {
                if l_begin {
                    if bytes_eq(&l.value, &v_daylight()) {
                        mode = Mode::TzDay;
                        sub = Vec::new();
                        proof {
                            assert(prop_views(sub) =~= Seq::<PropertyView>::empty());
                        }
                    } else if bytes_eq(&l.value, &v_standard()) {
                        mode = Mode::TzStd;
                        sub = Vec::new();
                        proof {
                            assert(prop_views(sub) =~= Seq::<PropertyView>::empty());
                        }
                    } else {
                        skip_return = Mode::Tz;
                        skip_depth = 0;
                        mode = Mode::Skip;
                    }
                } else if l_end {
                    if bytes_eq(&l.value, &v_vtimezone()) {
                        mode = Mode::Cal;
                        let ghost tbefore = tz_views(timezones);
                        let comp = TzComp { props: tz_props, daylight: tz_day, standard: tz_std };
                        let ghost compv = comp@;
                        timezones.push(comp);
                        tz_props = Vec::new();
                        tz_day = None;
                        tz_std = None;
                        proof {
                            assert(tz_views(timezones) =~= tbefore.push(compv));
                            assert(prop_views(tz_props) =~= Seq::<PropertyView>::empty());
                        }
                    } else {
                        mode = Mode::Failed;
                    }
                } else {
                    let ghost tpbefore = prop_views(tz_props);
                    tz_props.push(l.duplicate());
                    proof {
                        assert(prop_views(tz_props) =~= tpbefore.push(l@));
                    }
                }
            },
            Mode::TzDay => {
                if l_end && bytes_eq(&l.value, &v_daylight()) {
                    mode = Mode::Tz;
                    if tz_day.is_none() {
                        tz_day = Some(sub);
                    }
                    sub = Vec::new();
                    proof {
                        assert(prop_views(sub) =~= Seq::<PropertyView>::empty());
                    }
                } else if l_begin {
                    skip_return = Mode::TzDay;
                    skip_depth = 0;
                    mode = Mode::Skip;
                } else if l_end {
                    mode = Mode::Failed;
                } else {
                    let ghost sbefore = prop_views(sub);
                    sub.push(l.duplicate());
                    proof {
                        assert(prop_views(sub) =~= sbefore.push(l@));
                    }
                }
            },
            Mode::TzStd => {
                if l_end && bytes_eq(&l.value, &v_standard()) {
                    mode = Mode::Tz;
                    if tz_std.is_none() {
                        tz_std = Some(sub);
                    }
                    sub = Vec::new();
                    proof {
                        assert(prop_views(sub) =~= Seq::<PropertyView>::empty());
                    }
                } else if l_begin {
                    skip_return = Mode::TzStd;
                    skip_depth = 0;
                    mode = Mode::Skip;
                } else if l_end {
                    mode = Mode::Failed;
                } else {
                    let ghost sbefore = prop_views(sub);
                    sub.push(l.duplicate());
                    proof {
                        assert(prop_views(sub) =~= sbefore.push(l@));
                    }
                }
            },
            Mode::Ev => {
                if l_end && bytes_eq(&l.value, &v_vevent()) {
                    mode = Mode::Cal;
                    let ghost ebefore = event_views(events);
                    let ghost evv = prop_views(ev);
                    events.push(ev);
                    ev = Vec::new();
                    proof {
                        assert(event_views(events) =~= ebefore.push(evv));
                        assert(prop_views(ev) =~= Seq::<PropertyView>::empty());
                    }
                } else if l_begin {
                    skip_return = Mode::Ev;
                    skip_depth = 0;
                    mode = Mode::Skip;
                } else if l_end {
                    mode = Mode::Failed;
                } else {
                    let ghost ebefore = prop_views(ev);
                    ev.push(l.duplicate());
                    proof {
                        assert(prop_views(ev) =~= ebefore.push(l@));
                    }
                }
            },
            Mode::Skip => {
                if l_begin {
                    skip_depth = skip_depth + 1;
                } else if l_end {
                    if skip_depth == 0 {
                        mode = skip_return;
                    } else {
                        skip_depth = skip_depth - 1;
                    }
                }
            },
            Mode::Done => {},
            Mode::Failed => {},
        }
        proof {
            let after = Machine {
                mode,
                cal_props: prop_views(cal_props),
                timezones: tz_views(timezones),
                events: event_views(events),
                tz_props: prop_views(tz_props),
                tz_day: opt_prop_views(tz_day),
                tz_std: opt_prop_views(tz_std),
                sub: prop_views(sub),
                ev: prop_views(ev),
                skip_depth: skip_depth as int,
                skip_return,
            };
            assert(after == step(before, lsv[k as int]));
        }
        k += 1;
    }
    if let Mode::Done = mode {
        let d = IcalDocument { cal_props, timezones, events };
        proof {
            assert(run_machine(lsv, lsv.len() as int, run_machine(lsv, 0, init_machine()))
                == run_machine(lsv, 0, init_machine()));
        }
        Some(d)
    } else {
        None
    }
}

} // verus!
