//! The iCalendar keywords this library reads and writes, as byte
//! sequences: one specification-level constant and one executable builder
//! for each.

use vstd::prelude::*;

verus! {
/// The text `BEGIN`.
pub open spec fn nm_begin() -> Seq<u8> {
    seq![66u8, 69u8, 71u8, 73u8, 78u8]
}

/// Build the text `BEGIN`.
pub fn v_begin() -> (r: Vec<u8>)
    ensures
        r@ == nm_begin(),
{
    let mut v: Vec<u8> = Vec::new();
    v.push(66);
    v.push(69);
    v.push(71);
    v.push(73);
    v.push(78);
    assert(v@ =~= nm_begin());
    v
}

/// The text `END`.
pub open spec fn nm_end() -> Seq<u8> {
    seq![69u8, 78u8, 68u8]
}

/// Build the text `END`.
pub fn v_end() -> (r: Vec<u8>)
    ensures
        r@ == nm_end(),
{
    let mut v: Vec<u8> = Vec::new();
    v.push(69);
    v.push(78);
    v.push(68);
    assert(v@ =~= nm_end());
    v
}

/// The text `VCALENDAR`.
pub open spec fn nm_vcalendar() -> Seq<u8> {
    seq![86u8, 67u8, 65u8, 76u8, 69u8, 78u8, 68u8, 65u8, 82u8]
}

/// Build the text `VCALENDAR`.
pub fn v_vcalendar() -> (r: Vec<u8>)
    ensures
        r@ == nm_vcalendar(),
{
    let mut v: Vec<u8> = Vec::new();
    v.push(86);
    v.push(67);
    v.push(65);
    v.push(76);
    v.push(69);
    v.push(78);
    v.push(68);
    v.push(65);
    v.push(82);
    assert(v@ =~= nm_vcalendar());
    v
}

/// The text `VTIMEZONE`.
pub open spec fn nm_vtimezone() -> Seq<u8> {
    seq![86u8, 84u8, 73u8, 77u8, 69u8, 90u8, 79u8, 78u8, 69u8]
}

/// Build the text `VTIMEZONE`.
pub fn v_vtimezone() -> (r: Vec<u8>)
    ensures
        r@ == nm_vtimezone(),
{
    let mut v: Vec<u8> = Vec::new();
    v.push(86);
    v.push(84);
    v.push(73);
    v.push(77);
    v.push(69);
    v.push(90);
    v.push(79);
    v.push(78);
    v.push(69);
    assert(v@ =~= nm_vtimezone());
    v
}

/// The text `DAYLIGHT`.
pub open spec fn nm_daylight() -> Seq<u8> {
    seq![68u8, 65u8, 89u8, 76u8, 73u8, 71u8, 72u8, 84u8]
}

/// Build the text `DAYLIGHT`.
pub fn v_daylight() -> (r: Vec<u8>)
    ensures
        r@ == nm_daylight(),
{
    let mut v: Vec<u8> = Vec::new();
    v.push(68);
    v.push(65);
    v.push(89);
    v.push(76);
    v.push(73);
    v.push(71);
    v.push(72);
    v.push(84);
    assert(v@ =~= nm_daylight());
    v
}

/// The text `STANDARD`.
pub open spec fn nm_standard() -> Seq<u8> {
    seq![83u8, 84u8, 65u8, 78u8, 68u8, 65u8, 82u8, 68u8]
}

/// Build the text `STANDARD`.
pub fn v_standard() -> (r: Vec<u8>)
    ensures
        r@ == nm_standard(),
{
    let mut v: Vec<u8> = Vec::new();
    v.push(83);
    v.push(84);
    v.push(65);
    v.push(78);
    v.push(68);
    v.push(65);
    v.push(82);
    v.push(68);
    assert(v@ =~= nm_standard());
    v
}

/// The text `VEVENT`.
pub open spec fn nm_vevent() -> Seq<u8> {
    seq![86u8, 69u8, 86u8, 69u8, 78u8, 84u8]
}

/// Build the text `VEVENT`.
pub fn v_vevent() -> (r: Vec<u8>)
    ensures
        r@ == nm_vevent(),
{
    let mut v: Vec<u8> = Vec::new();
    v.push(86);
    v.push(69);
    v.push(86);
    v.push(69);
    v.push(78);
    v.push(84);
    assert(v@ =~= nm_vevent());
    v
}

/// The text `VERSION`.
pub open spec fn nm_version() -> Seq<u8> {
    seq![86u8, 69u8, 82u8, 83u8, 73u8, 79u8, 78u8]
}

/// Build the text `VERSION`.
pub fn v_version() -> (r: Vec<u8>)
    ensures
        r@ == nm_version(),
{
    let mut v: Vec<u8> = Vec::new();
    v.push(86);
    v.push(69);
    v.push(82);
    v.push(83);
    v.push(73);
    v.push(79);
    v.push(78);
    assert(v@ =~= nm_version());
    v
}

/// The text `PRODID`.
pub open spec fn nm_prodid() -> Seq<u8> {
    seq![80u8, 82u8, 79u8, 68u8, 73u8, 68u8]
}

/// Build the text `PRODID`.
pub fn v_prodid() -> (r: Vec<u8>)
    ensures
        r@ == nm_prodid(),
{
    let mut v: Vec<u8> = Vec::new();
    v.push(80);
    v.push(82);
    v.push(79);
    v.push(68);
    v.push(73);
    v.push(68);
    assert(v@ =~= nm_prodid());
    v
}

/// The text `CALSCALE`.
pub open spec fn nm_calscale() -> Seq<u8> {
    seq![67u8, 65u8, 76u8, 83u8, 67u8, 65u8, 76u8, 69u8]
}

/// Build the text `CALSCALE`.
pub fn v_calscale() -> (r: Vec<u8>)
    ensures
        r@ == nm_calscale(),
{
    let mut v: Vec<u8> = Vec::new();
    v.push(67);
    v.push(65);
    v.push(76);
    v.push(83);
    v.push(67);
    v.push(65);
    v.push(76);
    v.push(69);
    assert(v@ =~= nm_calscale());
    v
}

/// The text `X-WR-CALNAME`.
pub open spec fn nm_calname() -> Seq<u8> {
    seq![88u8, 45u8, 87u8, 82u8, 45u8, 67u8, 65u8, 76u8, 78u8, 65u8, 77u8, 69u8]
}

/// Build the text `X-WR-CALNAME`.
pub fn v_calname() -> (r: Vec<u8>)
    ensures
        r@ == nm_calname(),
{
    let mut v: Vec<u8> = Vec::new();
    v.push(88);
    v.push(45);
    v.push(87);
    v.push(82);
    v.push(45);
    v.push(67);
    v.push(65);
    v.push(76);
    v.push(78);
    v.push(65);
    v.push(77);
    v.push(69);
    assert(v@ =~= nm_calname());
    v
}

/// The text `TZID`.
pub open spec fn nm_tzid() -> Seq<u8> {
    seq![84u8, 90u8, 73u8, 68u8]
}

/// Build the text `TZID`.
pub fn v_tzid() -> (r: Vec<u8>)
    ensures
        r@ == nm_tzid(),
{
    let mut v: Vec<u8> = Vec::new();
    v.push(84);
    v.push(90);
    v.push(73);
    v.push(68);
    assert(v@ =~= nm_tzid());
    v
}

/// The text `DTSTART`.
pub open spec fn nm_dtstart() -> Seq<u8> {
    seq![68u8, 84u8, 83u8, 84u8, 65u8, 82u8, 84u8]
}

/// Build the text `DTSTART`.
pub fn v_dtstart() -> (r: Vec<u8>)
    ensures
        r@ == nm_dtstart(),
{
    let mut v: Vec<u8> = Vec::new();
    v.push(68);
    v.push(84);
    v.push(83);
    v.push(84);
    v.push(65);
    v.push(82);
    v.push(84);
    assert(v@ =~= nm_dtstart());
    v
}

/// The text `DTEND`.
pub open spec fn nm_dtend() -> Seq<u8> {
    seq![68u8, 84u8, 69u8, 78u8, 68u8]
}

/// Build the text `DTEND`.
pub fn v_dtend() -> (r: Vec<u8>)
    ensures
        r@ == nm_dtend(),
{
    let mut v: Vec<u8> = Vec::new();
    v.push(68);
    v.push(84);
    v.push(69);
    v.push(78);
    v.push(68);
    assert(v@ =~= nm_dtend());
    v
}

/// The text `DTSTAMP`.
pub open spec fn nm_dtstamp() -> Seq<u8> {
    seq![68u8, 84u8, 83u8, 84u8, 65u8, 77u8, 80u8]
}

/// Build the text `DTSTAMP`.
pub fn v_dtstamp() -> (r: Vec<u8>)
    ensures
        r@ == nm_dtstamp(),
{
    let mut v: Vec<u8> = Vec::new();
    v.push(68);
    v.push(84);
    v.push(83);
    v.push(84);
    v.push(65);
    v.push(77);
    v.push(80);
    assert(v@ =~= nm_dtstamp());
    v
}

/// The text `TZOFFSETFROM`.
pub open spec fn nm_tzoffsetfrom() -> Seq<u8> {
    seq![84u8, 90u8, 79u8, 70u8, 70u8, 83u8, 69u8, 84u8, 70u8, 82u8, 79u8, 77u8]
}

/// Build the text `TZOFFSETFROM`.
pub fn v_tzoffsetfrom() -> (r: Vec<u8>)
    ensures
        r@ == nm_tzoffsetfrom(),
{
    let mut v: Vec<u8> = Vec::new();
    v.push(84);
    v.push(90);
    v.push(79);
    v.push(70);
    v.push(70);
    v.push(83);
    v.push(69);
    v.push(84);
    v.push(70);
    v.push(82);
    v.push(79);
    v.push(77);
    assert(v@ =~= nm_tzoffsetfrom());
    v
}

/// The text `TZOFFSETTO`.
pub open spec fn nm_tzoffsetto() -> Seq<u8> {
    seq![84u8, 90u8, 79u8, 70u8, 70u8, 83u8, 69u8, 84u8, 84u8, 79u8]
}

/// Build the text `TZOFFSETTO`.
pub fn v_tzoffsetto() -> (r: Vec<u8>)
    ensures
        r@ == nm_tzoffsetto(),
{
    let mut v: Vec<u8> = Vec::new();
    v.push(84);
    v.push(90);
    v.push(79);
    v.push(70);
    v.push(70);
    v.push(83);
    v.push(69);
    v.push(84);
    v.push(84);
    v.push(79);
    assert(v@ =~= nm_tzoffsetto());
    v
}

/// The text `RRULE`.
pub open spec fn nm_rrule() -> Seq<u8> {
    seq![82u8, 82u8, 85u8, 76u8, 69u8]
}

/// Build the text `RRULE`.
pub fn v_rrule() -> (r: Vec<u8>)
    ensures
        r@ == nm_rrule(),
{
    let mut v: Vec<u8> = Vec::new();
    v.push(82);
    v.push(82);
    v.push(85);
    v.push(76);
    v.push(69);
    assert(v@ =~= nm_rrule());
    v
}

/// The text `TZNAME`.
pub open spec fn nm_tzname() -> Seq<u8> {
    seq![84u8, 90u8, 78u8, 65u8, 77u8, 69u8]
}

/// Build the text `TZNAME`.
pub fn v_tzname() -> (r: Vec<u8>)
    ensures
        r@ == nm_tzname(),
{
    let mut v: Vec<u8> = Vec::new();
    v.push(84);
    v.push(90);
    v.push(78);
    v.push(65);
    v.push(77);
    v.push(69);
    assert(v@ =~= nm_tzname());
    v
}

/// The text `SUMMARY`.
pub open spec fn nm_summary() -> Seq<u8> {
    seq![83u8, 85u8, 77u8, 77u8, 65u8, 82u8, 89u8]
}

/// Build the text `SUMMARY`.
pub fn v_summary() -> (r: Vec<u8>)
    ensures
        r@ == nm_summary(),
{
    let mut v: Vec<u8> = Vec::new();
    v.push(83);
    v.push(85);
    v.push(77);
    v.push(77);
    v.push(65);
    v.push(82);
    v.push(89);
    assert(v@ =~= nm_summary());
    v
}

/// The text `DESCRIPTION`.
pub open spec fn nm_description() -> Seq<u8> {
    seq![68u8, 69u8, 83u8, 67u8, 82u8, 73u8, 80u8, 84u8, 73u8, 79u8, 78u8]
}

/// Build the text `DESCRIPTION`.
pub fn v_description() -> (r: Vec<u8>)
    ensures
        r@ == nm_description(),
{
    let mut v: Vec<u8> = Vec::new();
    v.push(68);
    v.push(69);
    v.push(83);
    v.push(67);
    v.push(82);
    v.push(73);
    v.push(80);
    v.push(84);
    v.push(73);
    v.push(79);
    v.push(78);
    assert(v@ =~= nm_description());
    v
}

/// The text `LOCATION`.
pub open spec fn nm_location() -> Seq<u8> {
    seq![76u8, 79u8, 67u8, 65u8, 84u8, 73u8, 79u8, 78u8]
}

/// Build the text `LOCATION`.
pub fn v_location() -> (r: Vec<u8>)
    ensures
        r@ == nm_location(),
{
    let mut v: Vec<u8> = Vec::new();
    v.push(76);
    v.push(79);
    v.push(67);
    v.push(65);
    v.push(84);
    v.push(73);
    v.push(79);
    v.push(78);
    assert(v@ =~= nm_location());
    v
}

/// The text `UID`.
pub open spec fn nm_uid() -> Seq<u8> {
    seq![85u8, 73u8, 68u8]
}

/// Build the text `UID`.
pub fn v_uid() -> (r: Vec<u8>)
    ensures
        r@ == nm_uid(),
{
    let mut v: Vec<u8> = Vec::new();
    v.push(85);
    v.push(73);
    v.push(68);
    assert(v@ =~= nm_uid());
    v
}

/// The text `ORGANIZER`.
pub open spec fn nm_organizer() -> Seq<u8> {
    seq![79u8, 82u8, 71u8, 65u8, 78u8, 73u8, 90u8, 69u8, 82u8]
}

/// Build the text `ORGANIZER`.
pub fn v_organizer() -> (r: Vec<u8>)
    ensures
        r@ == nm_organizer(),
{
    let mut v: Vec<u8> = Vec::new();
    v.push(79);
    v.push(82);
    v.push(71);
    v.push(65);
    v.push(78);
    v.push(73);
    v.push(90);
    v.push(69);
    v.push(82);
    assert(v@ =~= nm_organizer());
    v
}

/// The text `CN`.
pub open spec fn nm_cn() -> Seq<u8> {
    seq![67u8, 78u8]
}

/// Build the text `CN`.
pub fn v_cn() -> (r: Vec<u8>)
    ensures
        r@ == nm_cn(),
{
    let mut v: Vec<u8> = Vec::new();
    v.push(67);
    v.push(78);
    assert(v@ =~= nm_cn());
    v
}

/// The text `SEQUENCE`.
pub open spec fn nm_sequence() -> Seq<u8> {
    seq![83u8, 69u8, 81u8, 85u8, 69u8, 78u8, 67u8, 69u8]
}

/// Build the text `SEQUENCE`.
pub fn v_sequence() -> (r: Vec<u8>)
    ensures
        r@ == nm_sequence(),
{
    let mut v: Vec<u8> = Vec::new();
    v.push(83);
    v.push(69);
    v.push(81);
    v.push(85);
    v.push(69);
    v.push(78);
    v.push(67);
    v.push(69);
    assert(v@ =~= nm_sequence());
    v
}

/// The text `STATUS`.
pub open spec fn nm_status() -> Seq<u8> {
    seq![83u8, 84u8, 65u8, 84u8, 85u8, 83u8]
}

/// Build the text `STATUS`.
pub fn v_status() -> (r: Vec<u8>)
    ensures
        r@ == nm_status(),
{
    let mut v: Vec<u8> = Vec::new();
    v.push(83);
    v.push(84);
    v.push(65);
    v.push(84);
    v.push(85);
    v.push(83);
    assert(v@ =~= nm_status());
    v
}

} // verus!
