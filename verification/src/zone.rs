//! Zone resolution and wall-clock normalization: a zone identifier is looked
//! up in the IANA-style zone table, falling back to UTC, and a wall-clock
//! time is interpreted in the resolved zone to obtain an instant.

use vstd::prelude::*;
use crate::datetime::LocalTime;
use chrono::TimeZone;
use chrono_tz::Tz;

verus! {

/// The canonical zone identifier that a zone name resolves to, or `None`
/// for a name the zone table does not know.
pub uninterp spec fn zone_id_of(name: Seq<u8>) -> Option<Seq<u8>>;

/// The shape of every canonical zone identifier: plain name text, free of
/// the iCalendar delimiter bytes (`:`, `;`, `,`) and of line terminators.
pub open spec fn zone_text_ok(s: Seq<u8>) -> bool {
    forall|i: int|
        0 <= i < s.len() ==> s[i] != 58 && s[i] != 59 && s[i] != 44 && s[i] != 13 && s[i] != 10
}

/// The instant (seconds since the epoch) at which a wall-clock time occurs
/// in a zone, or `None` when the zone is unknown or the wall-clock time is
/// absent or ambiguous in it.
pub uninterp spec fn instant_of(
    year: int,
    month: int,
    day: int,
    hour: int,
    minute: int,
    second: int,
    zone: Seq<u8>,
) -> Option<int>;

/// `instant_of` applied to the fields of a wall-clock time.
pub open spec fn local_instant(t: LocalTime, zone: Seq<u8>) -> Option<int> {
    instant_of(
        t.year as int,
        t.month as int,
        t.day as int,
        t.hour as int,
        t.minute as int,
        t.second as int,
        zone,
    )
}

/// Relies on chrono_tz's `Tz::from_str` and `Tz::name`: lookup is an exact
/// match against the compiled-in zone table, and `name` returns the zone's
/// canonical identifier, which the same table maps back to the same zone;
/// every identifier in that table is made of name characters only, free of
/// delimiter bytes and line terminators.
#[verifier::external_body]
fn lookup_zone(name: &Vec<u8>) -> (r: Option<Vec<u8>>)
    ensures
        match r {
            Some(z) => zone_id_of(name@) == Some(z@) && zone_id_of(z@) == Some(z@)
                && zone_text_ok(z@),
            None => zone_id_of(name@) is None,
        },
{
    let s = std::str::from_utf8(name).ok()?;
    let tz: Tz = s.parse().ok()?;
    Some(tz.name().as_bytes().to_vec())
}

/// Relies on chrono_tz's `Tz::UTC.name()`, which is the text `UTC`; the zone
/// table maps that identifier back to the UTC zone.
#[verifier::external_body]
fn utc_zone() -> (r: Vec<u8>)
    ensures
        r@ == utc_name(),
        zone_id_of(r@) == Some(r@),
        zone_text_ok(r@),
{
    Tz::UTC.name().as_bytes().to_vec()
}

/// Relies on chrono's `TimeZone::from_local_datetime` for a `chrono_tz::Tz`:
/// the wall-clock time is interpreted in the zone using the compiled-in zone
/// table, a function of the arguments alone; `single` yields the instant
/// only when the wall-clock time exists unambiguously in the zone.
#[verifier::external_body]
fn wall_clock_instant(t: &LocalTime, zone: &Vec<u8>) -> (r: Option<i64>)
    ensures
        match r {
            Some(v) => instant_of(
                t.year as int,
                t.month as int,
                t.day as int,
                t.hour as int,
                t.minute as int,
                t.second as int,
                zone@,
            ) == Some(v as int),
            None => instant_of(
                t.year as int,
                t.month as int,
                t.day as int,
                t.hour as int,
                t.minute as int,
                t.second as int,
                zone@,
            ) is None,
        },
{
    let s = std::str::from_utf8(zone).ok()?;
    let tz: Tz = s.parse().ok()?;
    let date = chrono::NaiveDate::from_ymd_opt(t.year as i32, t.month, t.day)?;
    let time = chrono::NaiveTime::from_hms_opt(t.hour, t.minute, t.second)?;
    let dt = chrono::NaiveDateTime::new(date, time);
    tz.from_local_datetime(&dt).single().map(|z| z.timestamp())
}

/// The text `UTC`.
pub open spec fn utc_name() -> Seq<u8> {
    seq![85u8, 84u8, 67u8]
}

/// The text `Etc/UTC`, the default zone identifier for a property that
/// carries no zone parameter.
pub open spec fn etc_utc() -> Seq<u8> {
    seq![69u8, 116u8, 99u8, 47u8, 85u8, 84u8, 67u8]
}

fn etc_utc_bytes() -> (r: Vec<u8>)
    ensures
        r@ == etc_utc(),
{
    let mut v: Vec<u8> = Vec::new();
    v.push(69);
    v.push(116);
    v.push(99);
    v.push(47);
    v.push(85);
    v.push(84);
    v.push(67);
    assert(v@ =~= etc_utc());
    v
}

/// The zone a property's zone parameter resolves to: the parameter's value,
/// or `Etc/UTC` when there is none, canonicalized through the zone table,
/// with the UTC zone standing in for an unrecognized identifier.
pub open spec fn resolved_zone(param: Option<Seq<u8>>) -> Seq<u8> {
    let name = match param {
        Some(p) => p,
        None => etc_utc(),
    };
    match zone_id_of(name) {
        Some(z) => z,
        None => utc_name(),
    }
}

/// Resolve an optional zone parameter to a canonical zone identifier; a
/// missing or unrecognized identifier falls back to UTC rather than failing.
pub fn resolve_zone(param: &Option<Vec<u8>>) -> (r: Vec<u8>)
    ensures
        r@ == resolved_zone(param.deep_view()),
        zone_id_of(r@) == Some(r@),
        zone_text_ok(r@),
{
    let name: Vec<u8> = match param {
        Some(p) => p.clone(),
        None => etc_utc_bytes(),
    };
    proof {
        assert(name@ =~= match param.deep_view() {
            Some(p) => p,
            None => etc_utc(),
        });
    }
    match lookup_zone(&name) {
        Some(z) => z,
        None => utc_zone(),
    }
}

/// A zoned instant: the wall-clock time as written in the source document,
/// the canonical zone it was interpreted in, and the instant it denotes.
#[derive(Debug)]
pub struct ZonedTime {
    pub local: LocalTime,
    pub zone: Vec<u8>,
    pub instant: i64,
}

#[verifier::ext_equal]
pub struct ZonedTimeView {
    pub local: LocalTime,
    pub zone: Seq<u8>,
    pub instant: int,
}

impl View for ZonedTime {
    type V = ZonedTimeView;

    open spec fn view(&self) -> ZonedTimeView {
        ZonedTimeView { local: self.local, zone: self.zone@, instant: self.instant as int }
    }
}

impl ZonedTimeView {
    /// The wall-clock time is a valid calendar time, the zone is a canonical
    /// identifier, and the instant is the one the zone table assigns to this
    /// wall-clock time in this zone.
    pub open spec fn wf(self) -> bool {
        &&& self.local.valid()
        &&& zone_id_of(self.zone) == Some(self.zone)
        &&& zone_text_ok(self.zone)
        &&& local_instant(self.local, self.zone) == Some(self.instant)
        &&& i64::MIN <= self.instant <= i64::MAX
    }
}

impl ZonedTime {
    /// Copy a zoned instant.
    pub fn duplicate(&self) -> (r: ZonedTime)
        ensures
            r@ == self@,
    {
        let z = self.zone.clone();
        proof {
            assert(z@ =~= self.zone@);
        }
        ZonedTime { local: self.local, zone: z, instant: self.instant }
    }
}

/// Interpret a valid wall-clock time in the zone an optional zone parameter
/// resolves to. `None` comes exactly when the zone table gives this
/// wall-clock time no unambiguous instant in the resolved zone.
pub fn make_zoned(local: LocalTime, param: &Option<Vec<u8>>) -> (r: Option<ZonedTime>)
    requires
        local.valid(),
    ensures
        match r {
            Some(z) => {
                &&& z@.wf()
                &&& z@.local == local
                &&& z@.zone == resolved_zone(param.deep_view())
            },
            None => local_instant(local, resolved_zone(param.deep_view())) is None,
        },
{
    let zone = resolve_zone(param);
    match wall_clock_instant(&local, &zone) {
        Some(i) => Some(ZonedTime { local, zone, instant: i }),
        None => None,
    }
}

} // verus!
