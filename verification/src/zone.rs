//! Instants, time zones and the text forms of dates, as chrono and chrono-tz
//! give them. Everything the schedule logic needs from a zone database is
//! asked here, of plain values: a zone is named, never held.
use vstd::prelude::*;
use chrono::{Datelike, Offset, TimeZone, Timelike};
use crate::calendar::{Date, Time, valid_ymd};
use crate::clock::two_digits;

verus! {

/// The earliest and latest UTC instants chrono can hold, in seconds since the epoch.
pub const UTC_MIN_SECS: i64 = -8334601315200;

pub const UTC_MAX_SECS: i64 = 8210266876799;

/// An instant, with the UTC offset it is shown at: chrono's `DateTime<FixedOffset>`.
#[derive(Clone, Copy, Debug, PartialEq, Eq, Structural)]
pub struct Stamp {
    /// Whole seconds since 1970-01-01T00:00:00Z.
    pub secs: i64,
    pub nanos: u32,
    /// Seconds east of UTC.
    pub offset: i32,
}

pub open spec fn utc_ok(secs: int) -> bool {
    UTC_MIN_SECS <= secs <= UTC_MAX_SECS
}

impl Stamp {
    /// Representable by chrono, with a day to spare at either end of the calendar.
    pub open spec fn wf(self) -> bool {
        &&& UTC_MIN_SECS + 86400 <= self.secs <= UTC_MAX_SECS - 86400
        &&& self.nanos < 1_000_000_000
        &&& -86400 < self.offset < 86400
    }

    /// The same instant: offsets do not take part, as with chrono's `==` on `DateTime`.
    pub open spec fn same_instant(self, other: Stamp) -> bool {
        self.secs == other.secs && self.nanos == other.nanos
    }

    /// Strictly earlier.
    pub open spec fn earlier(self, other: Stamp) -> bool {
        self.secs < other.secs || (self.secs == other.secs && self.nanos < other.nanos)
    }
}

/// `%Y-%m-%d` for a year of four digits.
pub open spec fn ymd_canon(y: int, m: int, d: int) -> Seq<char> {
    two_digits(y / 100) + two_digits(y % 100) + seq!['-'] + two_digits(m) + seq!['-'] + two_digits(d)
}

/// `%H:%M`.
pub open spec fn hm_canon(h: int, m: int) -> Seq<char> {
    two_digits(h) + seq![':'] + two_digits(m)
}

/// What `NaiveDate::parse_from_str(s, "%Y-%m-%d")` reads from a string.
pub uninterp spec fn ymd_read(s: Seq<char>) -> Option<(i32, u32, u32)>;

/// `NaiveDate::parse_from_str(s, "%Y-%m-%d")`. What it accepts is chrono's
/// business; what comes back is always a real date, and the canonical
/// four-digit spelling of a date reads back as that date.
#[verifier::external_body]
pub(crate) fn read_ymd(s: &str) -> (r: Option<Date>)
    ensures
        r == (match ymd_read(s@) {
            Some((y, m, d)) => Some(Date { year: y, month: m, day: d }),
            None => None,
        }),
        r matches Some(d) ==> d.wf(),
        forall|y: int, m: int, d: int|
            0 <= y <= 9999 && valid_ymd(y, m, d) && s@ == #[trigger] ymd_canon(y, m, d) ==> r
                == Some(Date { year: y as i32, month: m as u32, day: d as u32 }),
{
    match chrono::NaiveDate::parse_from_str(s, "%Y-%m-%d") {
        Ok(x) => Some(Date { year: x.year(), month: x.month(), day: x.day() }),
        Err(_) => None,
    }
}

/// What `NaiveTime::parse_from_str(s, "%H:%M")` reads from a string.
pub uninterp spec fn hm_read(s: Seq<char>) -> Option<(u32, u32)>;

/// `NaiveTime::parse_from_str(s, "%H:%M")`: a real time of day, and the
/// two-digit spelling of a time reads back as that time.
#[verifier::external_body]
pub(crate) fn read_hm(s: &str) -> (r: Option<Time>)
    ensures
        r == (match hm_read(s@) {
            Some((h, m)) => Some(Time { hour: h, minute: m }),
            None => None,
        }),
        r matches Some(t) ==> t.wf(),
        forall|h: int, m: int|
            0 <= h < 24 && 0 <= m < 60 && s@ == #[trigger] hm_canon(h, m) ==> r == Some(
                Time { hour: h as u32, minute: m as u32 },
            ),
{
    match chrono::NaiveTime::parse_from_str(s, "%H:%M") {
        Ok(t) => Some(Time { hour: t.hour(), minute: t.minute() }),
        Err(_) => None,
    }
}

/// `NaiveDate`'s `Display`, as chrono writes it.
pub uninterp spec fn ymd_text(y: i32, m: u32, d: u32) -> Seq<char>;

/// `NaiveDate`'s `Display`: `%Y-%m-%d`, the year as four digits when it has
/// at most four.
#[verifier::external_body]
pub(crate) fn date_text(d: &Date) -> (r: String)
    requires
        d.wf(),
    ensures
        r@ == ymd_text(d.year, d.month, d.day),
        0 <= d.year <= 9999 ==> r@ == ymd_canon(d.year as int, d.month as int, d.day as int),
{
    chrono::NaiveDate::from_ymd_opt(d.year, d.month, d.day).unwrap().to_string()
}

/// Whether chrono-tz knows a zone by this exact name.
pub uninterp spec fn tz_known(name: Seq<char>) -> bool;

/// `name.parse::<chrono_tz::Tz>().is_ok()`: names are matched exactly, and
/// `UTC` is one of them.
#[verifier::external_body]
pub(crate) fn zone_known(name: &str) -> (r: bool)
    ensures
        r == tz_known(name@),
        name@ == "UTC"@ ==> r,
{
    name.parse::<chrono_tz::Tz>().is_ok()
}

/// Every instant a wall clock maps to in a zone, earliest first, each with the
/// zone's offset there: one normally, two in a repeated hour, none in a skipped one.
pub uninterp spec fn tz_local(zone: Seq<char>, y: i32, m: u32, d: u32, minute: u32) -> Seq<(i64, i32)>;

/// `Tz::from_local_datetime` for a date and a minute of the day. chrono
/// returns a single instant, an ambiguous pair as (earliest, latest), or none;
/// every instant it returns is one chrono can hold.
#[verifier::external_body]
pub(crate) fn local_instants(zone: &str, d: &Date, minute: u32) -> (r: Vec<(i64, i32)>)
    requires
        tz_known(zone@),
        d.wf(),
        minute < 1440,
    ensures
        r@ == tz_local(zone@, d.year, d.month, d.day, minute),
        r.len() <= 2,
        r.len() == 2 ==> r@[0].0 < r@[1].0,
        forall|k: int| 0 <= k < r.len() ==> utc_ok((#[trigger] r@[k]).0 as int),
{
    let tz: chrono_tz::Tz = zone.parse().unwrap();
    let local = chrono::NaiveDate::from_ymd_opt(d.year, d.month, d.day).unwrap().and_hms_opt(
        minute / 60,
        minute % 60,
        0,
    ).unwrap();
    match tz.from_local_datetime(&local) {
        chrono::LocalResult::Single(a) => vec![(a.timestamp(), a.offset().fix().local_minus_utc())],
        chrono::LocalResult::Ambiguous(a, b) => vec![
            (a.timestamp(), a.offset().fix().local_minus_utc()),
            (b.timestamp(), b.offset().fix().local_minus_utc()),
        ],
        chrono::LocalResult::None => vec![],
    }
}

/// A zone's offset from UTC at an instant.
pub uninterp spec fn tz_offset(zone: Seq<char>, secs: i64) -> i32;

/// `Tz::offset_from_utc_datetime(..).fix()`: never fails for an instant chrono can hold.
#[verifier::external_body]
pub(crate) fn offset_at(zone: &str, secs: i64) -> (r: i32)
    requires
        tz_known(zone@),
        utc_ok(secs as int),
    ensures
        r == tz_offset(zone@, secs),
        -86400 < r < 86400,
{
    let tz: chrono_tz::Tz = zone.parse().unwrap();
    let at = chrono::DateTime::from_timestamp(secs, 0).unwrap();
    tz.offset_from_utc_datetime(&at.naive_utc()).fix().local_minus_utc()
}

/// An instant some seconds later, with the zone's offset there.
pub uninterp spec fn tz_shift(zone: Seq<char>, secs: i64, by: i64) -> Option<(i64, i32)>;

/// `DateTime<Tz>::checked_add_signed`: `None` past the end of the calendar.
#[verifier::external_body]
pub(crate) fn shift(zone: &str, secs: i64, by: i64) -> (r: Option<(i64, i32)>)
    requires
        tz_known(zone@),
        utc_ok(secs as int),
        -86400 <= by <= 86400,
    ensures
        r == tz_shift(zone@, secs, by),
        r matches Some((t, o)) ==> t == secs + by && utc_ok(t as int),
{
    let tz: chrono_tz::Tz = zone.parse().unwrap();
    let at = chrono::DateTime::from_timestamp(secs, 0).unwrap().with_timezone(&tz);
    at.checked_add_signed(chrono::Duration::seconds(by)).map(
        |x| (x.timestamp(), x.offset().fix().local_minus_utc()),
    )
}

/// What `DateTime::parse_from_rfc3339` reads from a string.
pub uninterp spec fn rfc3339_read(s: Seq<char>) -> Option<(i64, u32, i32)>;

/// `DateTime::parse_from_rfc3339`: an instant chrono can hold, with the offset
/// written. A leap second (`:60`) comes back as a nanosecond count of one
/// second or more, so the count is only known to lie under two seconds.
#[verifier::external_body]
pub(crate) fn read_stamp(s: &str) -> (r: Option<Stamp>)
    ensures
        r == (match rfc3339_read(s@) {
            Some((t, n, o)) => Some(Stamp { secs: t, nanos: n, offset: o }),
            None => None,
        }),
        r matches Some(st) ==> utc_ok(st.secs as int) && st.nanos < 2_000_000_000 && -86400
            < st.offset < 86400,
{
    match chrono::DateTime::parse_from_rfc3339(s) {
        Ok(x) => Some(
            Stamp {
                secs: x.timestamp(),
                nanos: x.timestamp_subsec_nanos(),
                offset: x.offset().local_minus_utc(),
            },
        ),
        Err(_) => None,
    }
}

/// An RFC 3339 instant as the library keeps one: a leap second, whose
/// nanosecond count runs past a whole second, is not one.
pub open spec fn instant_read(s: Seq<char>) -> Option<(i64, u32, i32)> {
    match rfc3339_read(s) {
        Some(x) => if x.1 < 1_000_000_000 {
            Some(x)
        } else {
            None
        },
        None => None,
    }
}

/// Read an RFC 3339 instant, refusing a leap second.
pub fn read_instant(s: &str) -> (r: Option<Stamp>)
    ensures
        r == (match instant_read(s@) {
            Some((t, n, o)) => Some(Stamp { secs: t, nanos: n, offset: o }),
            None => None,
        }),
        r matches Some(st) ==> utc_ok(st.secs as int) && st.nanos < 1_000_000_000 && -86400
            < st.offset < 86400,
{
    match read_stamp(s) {
        Some(st) => if st.nanos < 1_000_000_000 {
            Some(st)
        } else {
            None
        },
        None => None,
    }
}

/// What `DateTime::to_rfc3339` writes for an instant at an offset.
pub uninterp spec fn rfc3339_text(secs: i64, nanos: u32, offset: i32) -> Seq<char>;

/// `DateTime<FixedOffset>::to_rfc3339`. Written with a whole-minute offset and
/// a local year of four digits (0000 to 9999), the text reads back as the same
/// stamp; other years are written with a sign and five or more digits, which
/// the reader does not take.
#[verifier::external_body]
pub(crate) fn stamp_text(st: &Stamp) -> (r: String)
    requires
        st.wf(),
    ensures
        r@ == rfc3339_text(st.secs, st.nanos, st.offset),
        st.offset % 60 == 0 && -62_167_219_200 <= st.secs + st.offset < 253_402_300_800 ==> rfc3339_read(r@)
            == Some((st.secs, st.nanos, st.offset)),
{
    let off = chrono::FixedOffset::east_opt(st.offset).unwrap();
    chrono::DateTime::from_timestamp(st.secs, st.nanos).unwrap().with_timezone(&off).to_rfc3339()
}

/// What `{:?}` writes for a string.
pub uninterp spec fn debug_text(s: Seq<char>) -> Seq<char>;

/// `str`'s `Debug`: the text in double quotes, with quotes, backslashes and
/// control characters escaped. Plain printable ASCII without those comes out
/// as itself between the quotes.
#[verifier::external_body]
pub(crate) fn quoted(s: &str) -> (r: String)
    ensures
        r@ == debug_text(s@),
        (forall|i: int|
            0 <= i < s@.len() ==> ' ' <= #[trigger] s@[i] <= '~' && s@[i] != '"' && s@[i] != '\\')
            ==> r@ == seq!['"'] + s@ + seq!['"'],
{
    format!("{s:?}")
}

/// A time zone chrono-tz knows, held by its name.
#[derive(Debug)]
pub struct Zone {
    name: String,
}

impl Zone {
    #[verifier::type_invariant]
    spec fn known(self) -> bool {
        tz_known(self.name@)
    }

    /// The zone of this exact name, if chrono-tz has one.
    pub fn named(name: &str) -> (r: Option<Zone>)
        ensures
            r is Some == tz_known(name@),
            r matches Some(z) ==> z@ == name@,
            name@ == "UTC"@ ==> r is Some,
    {
        if zone_known(name) {
            Some(Zone { name: name.to_owned() })
        } else {
            None
        }
    }

    /// Its name, which chrono-tz knows.
    pub fn name(&self) -> (r: &str)
        ensures
            r@ == self@,
            tz_known(r@),
    {
        proof {
            use_type_invariant(self);
        }
        self.name.as_str()
    }
}

impl Clone for Zone {
    fn clone(&self) -> (r: Zone)
        ensures
            r@ == self@,
    {
        proof {
            use_type_invariant(self);
        }
        Zone { name: self.name.clone() }
    }
}

impl View for Zone {
    type V = Seq<char>;

    closed spec fn view(&self) -> Seq<char> {
        self.name@
    }
}

} // verus!
