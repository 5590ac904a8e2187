//! Expanding stored rules and one-off blocks into the days of a window.
//!
//! Total: for any stored state it returns a window of days, and whatever it
//! cannot show is reported in the window's diagnostics rather than dropped.
use vstd::prelude::*;
use crate::calendar::{Date, MAX_YEAR, date_plus, days_in, days_in_month, plus, weekday, add_days, weekday_num};
use crate::model::{
    Day, DayV, Diagnostic, DiagnosticV, Origin, Placement, PlacementV, Week, WeekV, note, note_v,
    warn, warn_v,
};
use crate::place::{place, place_spec, clock_text};
use crate::compose::hhmm;
use crate::rules::{RawRule, Rule, RuleV, as_date, diags_v, rule_opt_v, validate, validate_spec};
use crate::text::{chars_of, opt_str, string_of};
use crate::zone::{
    Stamp, Zone, date_text, debug_text, offset_at, quoted, read_instant, instant_read, read_ymd, tz_known,
    tz_offset, utc_ok, ymd_read, ymd_text,
};

verus! {

/// A one-off block exactly as stored.
#[derive(Clone, Debug)]
pub struct StoredRow {
    pub id: String,
    pub item_id: String,
    pub starts_at: String,
    pub ends_at: String,
    /// `oneoff` or `moved`.
    pub origin: String,
    pub moved_from: Option<String>,
}

/// Everything the store holds that a window is made from, as read.
#[derive(Clone, Debug)]
pub struct Snapshot {
    pub rules: Vec<RawRule>,
    /// Why the rules could not be read, when they could not.
    pub rules_error: Option<String>,
    pub placements: Vec<StoredRow>,
    /// The one-off blocks could not be read.
    pub placements_unreadable: bool,
}

/// A one-off block with readable times, shown in the viewing zone.
pub struct Stored {
    pub id: String,
    pub item_id: String,
    pub starts_at: Stamp,
    pub ends_at: Stamp,
    pub origin: Origin,
    pub moved_from: Option<Date>,
    /// The day it starts on, in the viewing zone.
    pub day: Option<Date>,
}

pub struct StoredV {
    pub id: Seq<char>,
    pub item_id: Seq<char>,
    pub starts_at: Stamp,
    pub ends_at: Stamp,
    pub origin: Origin,
    pub moved_from: Option<Date>,
    pub day: Option<Date>,
}

impl View for Stored {
    type V = StoredV;

    open spec fn view(&self) -> StoredV {
        StoredV {
            id: self.id@,
            item_id: self.item_id@,
            starts_at: self.starts_at,
            ends_at: self.ends_at,
            origin: self.origin,
            moved_from: self.moved_from,
            day: self.day,
        }
    }
}

pub open spec fn epoch() -> Date {
    Date { year: 1970, month: 1, day: 1 }
}

/// The calendar day of an instant at its offset.
pub open spec fn local_day(st: Stamp) -> Option<Date> {
    plus(epoch(), ((st.secs + st.offset) / 86400) as i64)
}

/// A one-off block read from its row, or a warning when its times are unreadable.
pub open spec fn stored_spec(row: StoredRow, viewing: Seq<char>) -> (Option<StoredV>, Seq<DiagnosticV>) {
    match (instant_read(row.starts_at@), instant_read(row.ends_at@)) {
        (Some(a), Some(b)) => {
            let s = Stamp { secs: a.0, nanos: a.1, offset: tz_offset(viewing, a.0) };
            (
                Some(
                    StoredV {
                        id: row.id@,
                        item_id: row.item_id@,
                        starts_at: s,
                        ends_at: Stamp { secs: b.0, nanos: b.1, offset: tz_offset(viewing, b.0) },
                        origin: if row.origin@ == "moved"@ {
                            Origin::Moved
                        } else {
                            Origin::OneOff
                        },
                        moved_from: match row.moved_from {
                            Some(m) => match ymd_read(m@) {
                                Some(t) => Some(as_date(t)),
                                None => None,
                            },
                            None => None,
                        },
                        day: local_day(s),
                    },
                ),
                Seq::empty(),
            )
        },
        _ => (
            None,
            seq![
                warn_v(
                    row.item_id@,
                    "Could not place a one-off block: unreadable time "@ + debug_text(
                        row.starts_at@,
                    ),
                ),
            ],
        ),
    }
}

pub open spec fn stored_all(rows: Seq<StoredRow>, viewing: Seq<char>) -> (Seq<StoredV>, Seq<DiagnosticV>)
    decreases rows.len(),
{
    if rows.len() == 0 {
        (Seq::empty(), Seq::empty())
    } else {
        let (ss, ws) = stored_all(rows.drop_last(), viewing);
        let (s, w) = stored_spec(rows.last(), viewing);
        (
            match s {
                Some(x) => ss.push(x),
                None => ss,
            },
            ws + w,
        )
    }
}

pub open spec fn validate_all(raws: Seq<RawRule>, viewing: Seq<char>) -> (Seq<RuleV>, Seq<DiagnosticV>)
    decreases raws.len(),
{
    if raws.len() == 0 {
        (Seq::empty(), Seq::empty())
    } else {
        let (rs, ws) = validate_all(raws.drop_last(), viewing);
        let (r, w) = validate_spec(raws.last(), viewing);
        (
            match r {
                Some(x) => rs.push(x),
                None => rs,
            },
            ws + w,
        )
    }
}

/// Whether a rule falls on a day of the month: a day the month does not have
/// lands on its last day.
pub open spec fn month_hit(m: u32, d: Date) -> bool {
    let last = days_in_month(d.year as int, d.month as int);
    d.day == (if m as int <= last {
        m as int
    } else {
        last
    })
}

/// Whether a rule has an occurrence on a day.
pub open spec fn occurs(r: RuleV, d: Date) -> bool {
    &&& !d.lt(r.from)
    &&& !(r.until is Some && r.until.unwrap().lt(d))
    &&& match r.monthday {
        Some(m) => month_hit(m, d),
        None => r.days.contains(weekday(d)),
    }
    &&& !r.except.contains(d)
}

pub open spec fn unplaced_message(r: RuleV, d: Date) -> Seq<char> {
    "Could not place "@ + ymd_text(d.year, d.month, d.day) + " "@ + hhmm(r.start) + " in "@ + r.zone
        + " \u{2014} occurrence skipped"@
}

/// A rule's block on a day, its instants shown in the viewing zone.
pub open spec fn rule_placement(r: RuleV, d: Date, s: (i64, i32), e: (i64, i32), viewing: Seq<char>) -> PlacementV {
    PlacementV {
        id: "plc_"@ + ymd_text(d.year, d.month, d.day) + "_"@ + r.item_id,
        item_id: r.item_id,
        starts_at: Stamp { secs: s.0, nanos: 0, offset: tz_offset(viewing, s.0) },
        ends_at: Stamp { secs: e.0, nanos: 0, offset: tz_offset(viewing, e.0) },
        origin: Origin::Recurrence,
        moved_from: None,
        pinned_tz: r.pinned_tz,
        // By offset at that instant, not by name: two names for one clock are
        // not foreign to each other.
        foreign: r.pinned_tz is Some && s.1 != tz_offset(viewing, s.0),
    }
}

/// What one rule puts on one day, and what it has to say about it.
pub open spec fn rule_day(r: RuleV, d: Date, viewing: Seq<char>) -> (Option<PlacementV>, Seq<DiagnosticV>) {
    if !occurs(r, d) {
        (None, Seq::empty())
    } else {
        match place_spec(r.zone, d, r.start, r.end) {
            None => (None, seq![warn_v(r.item_id, unplaced_message(r, d))]),
            Some((s, e, n)) => (
                Some(rule_placement(r, d, s, e, viewing)),
                match n {
                    Some(t) => seq![warn_v(r.item_id, t)],
                    None => Seq::empty(),
                },
            ),
        }
    }
}

pub open spec fn rules_day(rs: Seq<RuleV>, d: Date, viewing: Seq<char>) -> (Seq<PlacementV>, Seq<DiagnosticV>)
    decreases rs.len(),
{
    if rs.len() == 0 {
        (Seq::empty(), Seq::empty())
    } else {
        let (ps, ws) = rules_day(rs.drop_last(), d, viewing);
        let (p, w) = rule_day(rs.last(), d, viewing);
        (
            match p {
                Some(x) => ps.push(x),
                None => ps,
            },
            ws + w,
        )
    }
}

/// A stored block as it appears on its day. A one-off is a fixed instant; it
/// is never foreign.
pub open spec fn stored_placement(s: StoredV) -> PlacementV {
    PlacementV {
        id: s.id,
        item_id: s.item_id,
        starts_at: s.starts_at,
        ends_at: s.ends_at,
        origin: s.origin,
        moved_from: s.moved_from,
        pinned_tz: None,
        foreign: false,
    }
}

/// The stored blocks starting on a day, in stored order.
pub open spec fn stored_day(ss: Seq<StoredV>, d: Date) -> Seq<PlacementV>
    decreases ss.len(),
{
    if ss.len() == 0 {
        Seq::empty()
    } else {
        let rest = stored_day(ss.drop_last(), d);
        if ss.last().day == Some(d) {
            rest.push(stored_placement(ss.last()))
        } else {
            rest
        }
    }
}

/// Both ends are instants chrono can hold, shown at an offset within a day.
pub open spec fn stamp_ok(st: Stamp) -> bool {
    utc_ok(st.secs as int) && st.nanos < 1_000_000_000 && -86400 < st.offset < 86400
}

pub open spec fn stamps_ok(p: PlacementV) -> bool {
    stamp_ok(p.starts_at) && stamp_ok(p.ends_at)
}

pub open spec fn all_stamps_ok(s: Seq<PlacementV>) -> bool {
    forall|k: int| 0 <= k < s.len() ==> stamps_ok(#[trigger] s[k])
}

pub open spec fn stored_stamps_ok(s: StoredV) -> bool {
    stamp_ok(s.starts_at) && stamp_ok(s.ends_at)
}

/// Lexicographic order of strings, as `String`'s `Ord` compares them.
pub open spec fn str_lt(a: Seq<char>, b: Seq<char>) -> bool
    decreases a.len(),
{
    if a.len() == 0 {
        b.len() > 0
    } else if b.len() == 0 {
        false
    } else if a[0] != b[0] {
        a[0] < b[0]
    } else {
        str_lt(a.drop_first(), b.drop_first())
    }
}

/// Strictly earlier on the day: by start, then by item.
pub open spec fn before_p(a: PlacementV, b: PlacementV) -> bool {
    a.starts_at.earlier(b.starts_at) || (a.starts_at.same_instant(b.starts_at) && str_lt(
        a.item_id,
        b.item_id,
    ))
}

/// Insert after everything not later than it.
pub open spec fn insert_p(x: PlacementV, s: Seq<PlacementV>) -> Seq<PlacementV>
    decreases s.len(),
{
    if s.len() == 0 {
        seq![x]
    } else if before_p(x, s[0]) {
        seq![x] + s
    } else {
        seq![s[0]] + insert_p(x, s.drop_first())
    }
}

/// In order of start, then item; blocks that tie keep their order (a stable sort).
pub open spec fn sort_p(s: Seq<PlacementV>) -> Seq<PlacementV>
    decreases s.len(),
{
    if s.len() == 0 {
        Seq::empty()
    } else {
        insert_p(s.last(), sort_p(s.drop_last()))
    }
}

/// A day's blocks, and the warnings that placing them raised.
pub open spec fn day_spec(rs: Seq<RuleV>, ss: Seq<StoredV>, d: Date, viewing: Seq<char>) -> (Seq<PlacementV>, Seq<DiagnosticV>) {
    let (ps, ws) = rules_day(rs, d, viewing);
    (sort_p(ps + stored_day(ss, d)), ws)
}

/// The days from offset `k` of the window on, up to seven in all, stopping at
/// the end of the calendar.
pub open spec fn days_from(rs: Seq<RuleV>, ss: Seq<StoredV>, start: Date, viewing: Seq<char>, k: int) -> (Seq<DayV>, Seq<DiagnosticV>)
    decreases 7 - k,
{
    if k < 0 || k >= 7 {
        (Seq::empty(), Seq::empty())
    } else {
        match plus(start, k as i64) {
            None => (Seq::empty(), Seq::empty()),
            Some(d) => {
                let (ps, ws) = day_spec(rs, ss, d, viewing);
                let (rest, rw) = days_from(rs, ss, start, viewing, k + 1);
                (seq![DayV { date: d, placements: ps }] + rest, ws + rw)
            },
        }
    }
}

/// The window starting on `start`, after whatever `lead` already had to say.
pub open spec fn expand_spec(snap: Snapshot, start: Date, viewing: Seq<char>, lead: Seq<DiagnosticV>) -> WeekV {
    let (raws, rw) = match snap.rules_error {
        Some(e) => (Seq::empty(), seq![note_v("Could not read the schedule: "@ + e@)]),
        None => (snap.rules@, Seq::empty()),
    };
    let (rules, vw) = validate_all(raws, viewing);
    let (stored, sw) = if snap.placements_unreadable {
        (Seq::empty(), seq![note_v("Could not read one-off blocks"@)])
    } else {
        stored_all(snap.placements@, viewing)
    };
    let (days, dw) = days_from(rules, stored, start, viewing, 0);
    WeekV { anchor: start, viewing_tz: viewing, days, diagnostics: lead + rw + vw + sw + dw }
}

/// The last day a seven-day window can start on.
pub open spec fn latest_start() -> Date {
    Date { year: MAX_YEAR, month: 12, day: 25 }
}

/// A start past the last one that fits is moved back to it, and that is said.
pub open spec fn clamp_spec(anchor: Date, what: Seq<char>) -> (Date, Seq<DiagnosticV>) {
    if latest_start().lt(anchor) {
        (
            latest_start(),
            seq![
                note_v(
                    what + ymd_text(anchor.year, anchor.month, anchor.day)
                        + " is past the end of the calendar; showing "@ + ymd_text(
                        latest_start().year,
                        latest_start().month,
                        latest_start().day,
                    ),
                ),
            ],
        )
    } else {
        (anchor, Seq::empty())
    }
}

/// The Monday of the (clamped) anchor's week; the anchor itself within six days
/// of the start of the calendar, where no earlier Monday exists.
pub open spec fn monday_spec(anchor: Date) -> (Date, Seq<DiagnosticV>) {
    let (c, w) = clamp_spec(anchor, "Week starting "@);
    (
        match plus(c, (0 - weekday(c)) as i64) {
            Some(m) => m,
            None => c,
        },
        w,
    )
}

pub open spec fn week_spec(snap: Snapshot, anchor: Date, viewing: Seq<char>) -> WeekV {
    let (start, w) = monday_spec(anchor);
    expand_spec(snap, start, viewing, w)
}

pub open spec fn days_spec(snap: Snapshot, anchor: Date, viewing: Seq<char>) -> WeekV {
    let (start, w) = clamp_spec(anchor, "Days starting "@);
    expand_spec(snap, start, viewing, w)
}


proof fn lemma_shift_div(x: int, k: int)
    ensures
        (x + 86400 * k) / 86400 == x / 86400 + k,
{
    vstd::arithmetic::div_mod::lemma_fundamental_div_mod(x, 86400);
    let q = x / 86400;
    let r = x % 86400;
    vstd::arithmetic::div_mod::lemma_mod_bound(x, 86400);
    assert(x + 86400 * k == 86400 * (q + k) + r) by (nonlinear_arith)
        requires
            x == 86400 * q + r,
    ;
    vstd::arithmetic::div_mod::lemma_div_multiples_vanish_fancy(q + k, r, 86400);
}

/// The calendar day of an instant at its offset.
pub fn local_day_of(st: &Stamp) -> (r: Option<Date>)
    requires
        utc_ok(st.secs as int),
        -86400 < st.offset < 86400,
    ensures
        r == local_day(*st),
        r matches Some(d) ==> d.wf(),
{
    let x: i64 = st.secs + st.offset as i64;
    let shifted: i64 = x + 8_640_000_000_000;
    let q: i64 = shifted / 86400 - 100_000_000;
    proof {
        lemma_shift_div(x as int, 100_000_000);
        assert(86400 * 100_000_000 == 8_640_000_000_000);
    }
    assert(q == (x as int) / 86400);
    let e = Date { year: 1970, month: 1, day: 1 };
    add_days(&e, q)
}

pub open spec fn stored_opt_v(s: Option<Stored>) -> Option<StoredV> {
    match s {
        Some(x) => Some(x@),
        None => None,
    }
}

/// Read a one-off block from its row, warning when its times are unreadable.
#[verifier::rlimit(40)]
fn read_stored(row: &StoredRow, viewing: &str, diags: &mut Vec<Diagnostic>) -> (r: Option<Stored>)
    requires
        tz_known(viewing@),
    ensures
        stored_opt_v(r) == stored_spec(*row, viewing@).0,
        diags_v(final(diags)@) == diags_v(old(diags)@) + stored_spec(*row, viewing@).1,
        r matches Some(x) ==> stored_stamps_ok(x@),
{
    match (read_instant(row.starts_at.as_str()), read_instant(row.ends_at.as_str())) {
        (Some(a), Some(b)) => {
            let s = Stamp { secs: a.secs, nanos: a.nanos, offset: offset_at(viewing, a.secs) };
            let e = Stamp { secs: b.secs, nanos: b.nanos, offset: offset_at(viewing, b.secs) };
            let moved = String::from_str("moved");
            let origin = if row.origin == moved {
                Origin::Moved
            } else {
                Origin::OneOff
            };
            let moved_from = match &row.moved_from {
                Some(m) => read_ymd(m.as_str()),
                None => None,
            };
            let day = local_day_of(&s);
            assert(diags_v(diags@) =~= diags_v(diags@) + Seq::<DiagnosticV>::empty());
            Some(
                Stored {
                    id: row.id.clone(),
                    item_id: row.item_id.clone(),
                    starts_at: s,
                    ends_at: e,
                    origin,
                    moved_from,
                    day,
                },
            )
        },
        _ => {
            let ghost before = diags_v(diags@);
            let mut m = String::from_str("Could not place a one-off block: unreadable time ");
            m.append(quoted(row.starts_at.as_str()).as_str());
            warn(diags, row.item_id.as_str(), m);
            assert(diags_v(diags@) =~= before + stored_spec(*row, viewing@).1);
            None
        },
    }
}

fn contains_day(v: &Vec<u32>, x: u32) -> (r: bool)
    ensures
        r == v@.contains(x),
{
    let mut i: usize = 0;
    while i < v.len()
        invariant
            i <= v.len(),
            forall|k: int| 0 <= k < i ==> v@[k] != x,
        decreases v.len() - i,
    {
        if v[i] == x {
            assert(v@[i as int] == x);
            return true;
        }
        i = i + 1;
    }
    false
}

pub fn contains_date(v: &Vec<Date>, x: &Date) -> (r: bool)
    ensures
        r == v@.contains(*x),
{
    let mut i: usize = 0;
    while i < v.len()
        invariant
            i <= v.len(),
            forall|k: int| 0 <= k < i ==> v@[k] != *x,
        decreases v.len() - i,
    {
        if v[i].same(x) {
            assert(v@[i as int] == *x);
            return true;
        }
        i = i + 1;
    }
    false
}

/// Whether a rule has an occurrence on a day.
pub fn occurs_on(r: &Rule, d: &Date) -> (b: bool)
    requires
        r@.wf(),
        d.wf(),
    ensures
        b == occurs(r@, *d),
{
    if d.before(&r.from) {
        return false;
    }
    if let Some(u) = r.until {
        if u.before(d) {
            return false;
        }
    }
    let hit = match r.monthday {
        Some(m) => {
            let last = days_in(d.year, d.month);
            d.day == (if m <= last {
                m
            } else {
                last
            })
        },
        None => contains_day(&r.days, weekday_num(d)),
    };
    hit && !contains_date(&r.except, d)
}

pub open spec fn placement_opt_v(p: Option<Placement>) -> Option<PlacementV> {
    match p {
        Some(x) => Some(x@),
        None => None,
    }
}

fn clone_opt(o: &Option<String>) -> (r: Option<String>)
    ensures
        opt_str(r) == opt_str(*o),
{
    match o {
        Some(s) => Some(s.clone()),
        None => None,
    }
}

/// What one rule puts on one day, warning when it cannot be placed or when
/// placing it needed explaining.
#[verifier::rlimit(40)]
pub fn rule_day_of(r: &Rule, d: &Date, viewing: &str, diags: &mut Vec<Diagnostic>) -> (p: Option<Placement>)
    requires
        r@.wf(),
        d.wf(),
        tz_known(viewing@),
    ensures
        placement_opt_v(p) == rule_day(r@, *d, viewing@).0,
        diags_v(final(diags)@) == diags_v(old(diags)@) + rule_day(r@, *d, viewing@).1,
        p matches Some(x) ==> stamps_ok(x@),
{
    let ghost before = diags_v(diags@);
    if !occurs_on(r, d) {
        assert(diags_v(diags@) =~= before + Seq::<DiagnosticV>::empty());
        return None;
    }
    match place(r.zone.as_str(), d, r.start, r.end) {
        None => {
            let mut m = String::from_str("Could not place ");
            m.append(date_text(d).as_str());
            m.append(" ");
            m.append(string_of(&crate::compose::hhmm_of(r.start)).as_str());
            m.append(" in ");
            m.append(r.zone.as_str());
            m.append(" \u{2014} occurrence skipped");
            warn(diags, r.item_id.as_str(), m);
            assert(diags_v(diags@) =~= before + rule_day(r@, *d, viewing@).1);
            None
        },
        Some(l) => {
            match l.note {
                Some(n) => {
                    warn(diags, r.item_id.as_str(), n);
                    assert(diags_v(diags@) =~= before + rule_day(r@, *d, viewing@).1);
                },
                None => {
                    assert(diags_v(diags@) =~= before + rule_day(r@, *d, viewing@).1);
                },
            }
            let so = offset_at(viewing, l.starts.0);
            let eo = offset_at(viewing, l.ends.0);
            let mut id = String::from_str("plc_");
            id.append(date_text(d).as_str());
            id.append("_");
            id.append(r.item_id.as_str());
            let p = Placement {
                id,
                item_id: r.item_id.clone(),
                starts_at: Stamp { secs: l.starts.0, nanos: 0, offset: so },
                ends_at: Stamp { secs: l.ends.0, nanos: 0, offset: eo },
                origin: Origin::Recurrence,
                moved_from: None,
                pinned_tz: clone_opt(&r.pinned_tz),
                foreign: r.pinned_tz.is_some() && l.starts.1 != so,
            };
            assert(p@ == rule_placement(r@, *d, l.starts, l.ends, viewing@));
            Some(p)
        },
    }
}

fn stored_placement_of(s: &Stored) -> (p: Placement)
    ensures
        p@ == stored_placement(s@),
        stored_stamps_ok(s@) ==> stamps_ok(p@),
{
    Placement {
        id: s.id.clone(),
        item_id: s.item_id.clone(),
        starts_at: s.starts_at,
        ends_at: s.ends_at,
        origin: s.origin,
        moved_from: s.moved_from,
        pinned_tz: None,
        foreign: false,
    }
}

pub fn str_before(a: &str, b: &str) -> (r: bool)
    ensures
        r == str_lt(a@, b@),
{
    let x = chars_of(a);
    let y = chars_of(b);
    let mut i: usize = 0;
    assert(a@.skip(0) =~= a@);
    assert(b@.skip(0) =~= b@);
    while i < x.len() && i < y.len() && x[i] == y[i]
        invariant
            i <= x.len(),
            i <= y.len(),
            x@ == a@,
            y@ == b@,
            str_lt(a@, b@) == str_lt(a@.skip(i as int), b@.skip(i as int)),
        decreases x.len() - i,
    {
        let ghost (xs, ys) = (a@.skip(i as int), b@.skip(i as int));
        assert(xs.drop_first() =~= a@.skip(i + 1));
        assert(ys.drop_first() =~= b@.skip(i + 1));
        i = i + 1;
    }
    let ghost (xs, ys) = (a@.skip(i as int), b@.skip(i as int));
    if i == x.len() {
        assert(xs.len() == 0);
        i < y.len()
    } else if i == y.len() {
        assert(ys.len() == 0);
        false
    } else {
        assert(xs[0] == x@[i as int] && ys[0] == y@[i as int]);
        let (p, q) = (x[i], y[i]);
        p < q
    }
}

fn before_of(a: &Placement, b: &Placement) -> (r: bool)
    ensures
        r == before_p(a@, b@),
{
    if a.starts_at.secs != b.starts_at.secs {
        return a.starts_at.secs < b.starts_at.secs;
    }
    if a.starts_at.nanos != b.starts_at.nanos {
        return a.starts_at.nanos < b.starts_at.nanos;
    }
    str_before(a.item_id.as_str(), b.item_id.as_str())
}

pub open spec fn views(v: Seq<Placement>) -> Seq<PlacementV> {
    v.map_values(|p: Placement| p@)
}

proof fn lemma_insert_p_at(x: PlacementV, s: Seq<PlacementV>, j: int)
    requires
        0 <= j <= s.len(),
        forall|k: int| 0 <= k < j ==> !before_p(x, #[trigger] s[k]),
        j < s.len() ==> before_p(x, s[j]),
    ensures
        insert_p(x, s) == s.take(j) + seq![x] + s.skip(j),
    decreases s.len(),
{
    if s.len() == 0 {
        assert(s.take(j) + seq![x] + s.skip(j) =~= seq![x]);
    } else if j == 0 {
        assert(s.take(0) + seq![x] + s.skip(0) =~= seq![x] + s);
    } else {
        let t = s.drop_first();
        assert forall|k: int| 0 <= k < j - 1 implies !before_p(x, #[trigger] t[k]) by {
            assert(t[k] == s[k + 1]);
        }
        lemma_insert_p_at(x, t, j - 1);
        assert(seq![s[0]] + (t.take(j - 1) + seq![x] + t.skip(j - 1)) =~= s.take(j) + seq![x]
            + s.skip(j));
    }
}

/// Insert a block after every block not later than it.
fn insert_placement(v: &mut Vec<Placement>, x: Placement)
    ensures
        views(final(v)@) == insert_p(x@, views(old(v)@)),
        all_stamps_ok(views(old(v)@)) && stamps_ok(x@) ==> all_stamps_ok(views(final(v)@)),
{
    let ghost s = views(v@);
    let mut j: usize = 0;
    while j < v.len() && !before_of(&x, &v[j])
        invariant
            j <= v.len(),
            s == views(v@),
            forall|k: int| 0 <= k < j ==> !before_p(x@, #[trigger] s[k]),
        decreases v.len() - j,
    {
        assert(s[j as int] == v@[j as int]@);
        j = j + 1;
    }
    proof {
        if j < v.len() {
            assert(s[j as int] == v@[j as int]@);
        }
        lemma_insert_p_at(x@, s, j as int);
    }
    let ghost xv = x@;
    v.insert(j, x);
    assert(views(v@) =~= s.take(j as int) + seq![xv] + s.skip(j as int));
    proof {
        if all_stamps_ok(s) && stamps_ok(xv) {
            assert forall|k: int| 0 <= k < views(v@).len() implies stamps_ok(#[trigger] views(v@)[k]) by {
                if k < j {
                    assert(views(v@)[k] == s[k]);
                } else if k > j {
                    assert(views(v@)[k] == s[k - 1]);
                }
            }
        }
    }
}

proof fn lemma_sort_p_push(s: Seq<PlacementV>, x: PlacementV)
    ensures
        sort_p(s.push(x)) == insert_p(x, sort_p(s)),
{
    assert(s.push(x).drop_last() =~= s);
}

/// A day's blocks, in order, and the warnings that placing them raised.
#[verifier::rlimit(40)]
pub fn day_of(rules: &Vec<Rule>, stored: &Vec<Stored>, d: &Date, viewing: &str, diags: &mut Vec<Diagnostic>) -> (r: Vec<Placement>)
    requires
        forall|k: int| 0 <= k < rules.len() ==> (#[trigger] rules@[k])@.wf(),
        forall|k: int| 0 <= k < stored.len() ==> stored_stamps_ok((#[trigger] stored@[k])@),
        d.wf(),
        tz_known(viewing@),
    ensures
        all_stamps_ok(views(r@)),
        views(r@) == day_spec(rules@.map_values(|x: Rule| x@), stored@.map_values(|x: Stored| x@), *d, viewing@).0,
        diags_v(final(diags)@) == diags_v(old(diags)@) + day_spec(
            rules@.map_values(|x: Rule| x@),
            stored@.map_values(|x: Stored| x@),
            *d,
            viewing@,
        ).1,
{
    let ghost rs = rules@.map_values(|x: Rule| x@);
    let ghost ss = stored@.map_values(|x: Stored| x@);
    let ghost start = diags_v(diags@);
    let mut out: Vec<Placement> = Vec::new();
    let mut i: usize = 0;
    assert(views(out@) =~= sort_p(rules_day(rs.take(0), *d, viewing@).0));
    assert(diags_v(diags@) =~= start + rules_day(rs.take(0), *d, viewing@).1);
    while i < rules.len()
        invariant
            i <= rules.len(),
            rs == rules@.map_values(|x: Rule| x@),
            forall|k: int| 0 <= k < rules.len() ==> (#[trigger] rules@[k])@.wf(),
            d.wf(),
            tz_known(viewing@),
            views(out@) == sort_p(rules_day(rs.take(i as int), *d, viewing@).0),
            diags_v(diags@) == start + rules_day(rs.take(i as int), *d, viewing@).1,
            all_stamps_ok(views(out@)),
        decreases rules.len() - i,
    {
        assert(rs.take(i + 1).drop_last() =~= rs.take(i as int));
        assert(rs.take(i + 1).last() == rules@[i as int]@);
        let ghost prev = rules_day(rs.take(i as int), *d, viewing@);
        let p = rule_day_of(&rules[i], d, viewing, diags);
        match p {
            Some(x) => {
                proof {
                    lemma_sort_p_push(prev.0, x@);
                }
                insert_placement(&mut out, x);
            },
            None => {},
        }
        assert(diags_v(diags@) =~= start + rules_day(rs.take(i + 1), *d, viewing@).1);
        i = i + 1;
    }
    assert(rs.take(rules.len() as int) =~= rs);
    let ghost base = rules_day(rs, *d, viewing@).0;
    let mut j: usize = 0;
    assert(base + stored_day(ss.take(0), *d) =~= base);
    while j < stored.len()
        invariant
            j <= stored.len(),
            ss == stored@.map_values(|x: Stored| x@),
            views(out@) == sort_p(base + stored_day(ss.take(j as int), *d)),
            all_stamps_ok(views(out@)),
            forall|k: int| 0 <= k < stored.len() ==> stored_stamps_ok((#[trigger] stored@[k])@),
        decreases stored.len() - j,
    {
        assert(ss.take(j + 1).drop_last() =~= ss.take(j as int));
        assert(ss.take(j + 1).last() == stored@[j as int]@);
        let st = &stored[j];
        let hit = match st.day {
            Some(x) => x.same(d),
            None => false,
        };
        if hit {
            let p = stored_placement_of(st);
            proof {
                let prev = base + stored_day(ss.take(j as int), *d);
                lemma_sort_p_push(prev, p@);
                assert(prev.push(p@) =~= base + stored_day(ss.take(j + 1), *d));
            }
            insert_placement(&mut out, p);
        } else {
            assert(base + stored_day(ss.take(j + 1), *d) =~= base + stored_day(ss.take(j as int), *d));
        }
        j = j + 1;
    }
    assert(ss.take(stored.len() as int) =~= ss);
    out
}

fn validate_rules(raws: &Vec<RawRule>, viewing: &str, diags: &mut Vec<Diagnostic>) -> (r: Vec<Rule>)
    requires
        tz_known(viewing@),
    ensures
        r@.map_values(|x: Rule| x@) == validate_all(raws@, viewing@).0,
        diags_v(final(diags)@) == diags_v(old(diags)@) + validate_all(raws@, viewing@).1,
        forall|k: int| 0 <= k < r.len() ==> (#[trigger] r@[k])@.wf(),
{
    let ghost start = diags_v(diags@);
    let mut out: Vec<Rule> = Vec::new();
    let mut i: usize = 0;
    assert(out@.map_values(|x: Rule| x@) =~= validate_all(raws@.take(0), viewing@).0);
    assert(diags_v(diags@) =~= start + validate_all(raws@.take(0), viewing@).1);
    while i < raws.len()
        invariant
            i <= raws.len(),
            tz_known(viewing@),
            out@.map_values(|x: Rule| x@) == validate_all(raws@.take(i as int), viewing@).0,
            diags_v(diags@) == start + validate_all(raws@.take(i as int), viewing@).1,
            forall|k: int| 0 <= k < out.len() ==> (#[trigger] out@[k])@.wf(),
        decreases raws.len() - i,
    {
        assert(raws@.take(i + 1).drop_last() =~= raws@.take(i as int));
        assert(raws@.take(i + 1).last() == raws@[i as int]);
        let ghost prev = out@.map_values(|x: Rule| x@);
        match validate(&raws[i], viewing, diags) {
            Some(rule) => {
                let ghost rv = rule@;
                out.push(rule);
                assert(out@.map_values(|x: Rule| x@) =~= prev.push(rv));
            },
            None => {},
        }
        assert(diags_v(diags@) =~= start + validate_all(raws@.take(i + 1), viewing@).1);
        i = i + 1;
    }
    assert(raws@.take(raws.len() as int) =~= raws@);
    out
}

fn read_all_stored(rows: &Vec<StoredRow>, viewing: &str, diags: &mut Vec<Diagnostic>) -> (r: Vec<Stored>)
    requires
        tz_known(viewing@),
    ensures
        r@.map_values(|x: Stored| x@) == stored_all(rows@, viewing@).0,
        diags_v(final(diags)@) == diags_v(old(diags)@) + stored_all(rows@, viewing@).1,
        forall|k: int| 0 <= k < r.len() ==> stored_stamps_ok((#[trigger] r@[k])@),
{
    let ghost start = diags_v(diags@);
    let mut out: Vec<Stored> = Vec::new();
    let mut i: usize = 0;
    assert(out@.map_values(|x: Stored| x@) =~= stored_all(rows@.take(0), viewing@).0);
    assert(diags_v(diags@) =~= start + stored_all(rows@.take(0), viewing@).1);
    while i < rows.len()
        invariant
            i <= rows.len(),
            tz_known(viewing@),
            out@.map_values(|x: Stored| x@) == stored_all(rows@.take(i as int), viewing@).0,
            diags_v(diags@) == start + stored_all(rows@.take(i as int), viewing@).1,
            forall|k: int| 0 <= k < out.len() ==> stored_stamps_ok((#[trigger] out@[k])@),
        decreases rows.len() - i,
    {
        assert(rows@.take(i + 1).drop_last() =~= rows@.take(i as int));
        assert(rows@.take(i + 1).last() == rows@[i as int]);
        let ghost prev = out@.map_values(|x: Stored| x@);
        match read_stored(&rows[i], viewing, diags) {
            Some(st) => {
                let ghost sv = st@;
                out.push(st);
                assert(out@.map_values(|x: Stored| x@) =~= prev.push(sv));
            },
            None => {},
        }
        assert(diags_v(diags@) =~= start + stored_all(rows@.take(i + 1), viewing@).1);
        i = i + 1;
    }
    assert(rows@.take(rows.len() as int) =~= rows@);
    out
}

pub open spec fn days_v(v: Seq<Day>) -> Seq<DayV> {
    v.map_values(|d: Day| d@)
}

/// The window of up to seven days from `start`, after the warnings already in `diags`.
#[verifier::rlimit(40)]
fn expand(snap: &Snapshot, start: Date, viewing: &Zone, diags: Vec<Diagnostic>) -> (w: Week)
    requires
        start.wf(),
    ensures
        w@ == expand_spec(*snap, start, viewing@, diags_v(diags@)),
        start.le(latest_start()) ==> w.days.len() == 7,
        forall|k: int| 0 <= k < w.days.len() ==> plus(start, k as i64) == Some(#[trigger] w.days@[k].date),
        w.days.len() > 0 ==> w.days@[0].date == start,
        forall|k: int| 0 <= k < w.days.len() - 1 ==> plus(#[trigger] w.days@[k].date, 1) == Some(w.days@[k + 1].date),
        forall|k: int| 0 <= k < w.days.len() ==> all_stamps_ok(#[trigger] days_v(w.days@)[k].placements),
{
    let zone = viewing.name();
    let ghost lead = diags_v(diags@);
    let mut diags = diags;
    let empty_rules: Vec<RawRule> = Vec::new();
    let raws = match &snap.rules_error {
        Some(e) => {
            let mut m = String::from_str("Could not read the schedule: ");
            m.append(e.as_str());
            note(&mut diags, m);
            &empty_rules
        },
        None => &snap.rules,
    };
    let ghost after_read = diags_v(diags@);
    let rules = validate_rules(raws, zone, &mut diags);
    let stored = if snap.placements_unreadable {
        note(&mut diags, String::from_str("Could not read one-off blocks"));
        Vec::new()
    } else {
        read_all_stored(&snap.placements, zone, &mut diags)
    };
    let ghost rs = rules@.map_values(|x: Rule| x@);
    let ghost ss = stored@.map_values(|x: Stored| x@);
    assert(ss == (if snap.placements_unreadable {
        Seq::<StoredV>::empty()
    } else {
        stored_all(snap.placements@, viewing@).0
    }));
    let ghost pre = diags_v(diags@);
    let ghost total = days_from(rs, ss, start, viewing@, 0);
    let mut days: Vec<Day> = Vec::new();
    let mut k: i64 = 0;
    assert(days_v(days@) + days_from(rs, ss, start, viewing@, 0).0 =~= total.0);
    assert(diags_v(diags@) + days_from(rs, ss, start, viewing@, 0).1 =~= pre + total.1);
    while k < 7
        invariant
            0 <= k <= 7,
            start.wf(),
            tz_known(zone@),
            zone@ == viewing@,
            rs == rules@.map_values(|x: Rule| x@),
            ss == stored@.map_values(|x: Stored| x@),
            forall|j: int| 0 <= j < rules.len() ==> (#[trigger] rules@[j])@.wf(),
            total == days_from(rs, ss, start, viewing@, 0),
            total.0 == days_v(days@) + days_from(rs, ss, start, viewing@, k as int).0,
            start.le(latest_start()) ==> days.len() == k,
            k < 7 ==> days.len() == k,
            days.len() <= k,
            forall|j: int| 0 <= j < days.len() ==> plus(start, j as i64) == Some(#[trigger] days@[j].date),
            forall|j: int| 0 <= j < days.len() ==> plus(#[trigger] days@[j].date, 1) == plus(start, (j + 1) as i64),
            days.len() > 0 ==> days@[0].date == start,
            forall|j: int| 0 <= j < days.len() ==> all_stamps_ok(#[trigger] days_v(days@)[j].placements),
            forall|j: int| 0 <= j < stored.len() ==> stored_stamps_ok((#[trigger] stored@[j])@),
            pre + total.1 == diags_v(diags@) + days_from(rs, ss, start, viewing@, k as int).1,
        decreases 7 - k,
    {
        match add_days(&start, k) {
            None => {
                assert(days_from(rs, ss, start, viewing@, 7).0 =~= Seq::<DayV>::empty());
                assert(total.0 =~= days_v(days@) + days_from(rs, ss, start, viewing@, 7).0);
                assert(pre + total.1 =~= diags_v(diags@) + days_from(rs, ss, start, viewing@, 7).1);
                k = 7;
            },
            Some(d) => {
                let ghost before_days = days_v(days@);
                let ghost before_diags = diags_v(diags@);
                let ps = day_of(&rules, &stored, &d, zone, &mut diags);
                let day = Day { date: d, placements: ps };
                let ghost dv = day@;
                assert(date_plus(d.year, d.month, d.day, 1) == date_plus(start.year, start.month, start.day, (k + 1) as i64));
                days.push(day);
                assert(days_v(days@) =~= before_days.push(dv));
                assert(total.0 =~= days_v(days@) + days_from(rs, ss, start, viewing@, k + 1).0);
                assert(pre + total.1 =~= diags_v(diags@) + days_from(rs, ss, start, viewing@, k + 1).1);
                k = k + 1;
            },
        }
    }
    assert(days_from(rs, ss, start, viewing@, 7).0 =~= Seq::<DayV>::empty());
    assert(total.0 =~= days_v(days@));
    assert(diags_v(diags@) =~= pre + total.1);
    assert forall|j: int| 0 <= j < days.len() - 1 implies plus(#[trigger] days@[j].date, 1) == Some(days@[j + 1].date) by {
        assert(plus(days@[j].date, 1) == plus(start, (j + 1) as i64));
        assert(plus(start, (j + 1) as i64) == Some(days@[j + 1].date));
    }
    let w = Week { anchor: start, viewing_tz: zone.to_owned(), days, diagnostics: diags };
    assert(w@.diagnostics =~= expand_spec(*snap, start, viewing@, lead).diagnostics);
    w
}

fn clamp(anchor: Date, what: &str, diags: &mut Vec<Diagnostic>) -> (r: Date)
    requires
        anchor.wf(),
    ensures
        r == clamp_spec(anchor, what@).0,
        diags_v(final(diags)@) == diags_v(old(diags)@) + clamp_spec(anchor, what@).1,
        r.wf(),
        r.le(latest_start()),
{
    let latest = Date { year: MAX_YEAR, month: 12, day: 25 };
    if latest.before(&anchor) {
        let mut m = String::from_str(what);
        m.append(date_text(&anchor).as_str());
        m.append(" is past the end of the calendar; showing ");
        m.append(date_text(&latest).as_str());
        let ghost before = diags_v(diags@);
        note(diags, m);
        assert(diags_v(diags@) =~= before + clamp_spec(anchor, what@).1);
        latest
    } else {
        assert(diags_v(diags@) =~= diags_v(diags@) + Seq::<DiagnosticV>::empty());
        anchor
    }
}

/// The calendar week (Monday first) holding `anchor`, as seen from `viewing`.
///
/// Total: for any stored state it returns the week, and whatever it cannot
/// show is said in the week's diagnostics.
pub fn get_week(snap: &Snapshot, anchor: Date, viewing: &Zone) -> (w: Week)
    requires
        anchor.wf(),
    ensures
        w@ == week_spec(*snap, anchor, viewing@),
        w.days.len() == 7,
        forall|k: int| 0 <= k < 7 ==> plus(w.anchor, k as i64) == Some(#[trigger] w.days@[k].date),
        w.days@[0].date == w.anchor,
        forall|k: int| 0 <= k < 6 ==> plus(#[trigger] w.days@[k].date, 1) == Some(w.days@[k + 1].date),
        (Date { year: crate::calendar::MIN_YEAR, month: 1, day: 7 }).le(anchor) ==> weekday(w.anchor) == 0,
        (Date { year: crate::calendar::MIN_YEAR, month: 1, day: 7 }).le(anchor) && anchor.le(latest_start())
            ==> plus(w.anchor, weekday(anchor) as i64) == Some(anchor),
        w.anchor.le(anchor),
        forall|k: int| 0 <= k < w.days.len() ==> all_stamps_ok(#[trigger] days_v(w.days@)[k].placements),
{
    let mut diags: Vec<Diagnostic> = Vec::new();
    let c = clamp(anchor, "Week starting ", &mut diags);
    let back = weekday_num(&c);
    let monday = match add_days(&c, 0 - back as i64) {
        Some(m) => m,
        None => c,
    };
    assert(diags_v(diags@) =~= monday_spec(anchor).1);
    expand(snap, monday, viewing, diags)
}

/// Seven days starting exactly on `anchor`, as seen from `viewing`.
pub fn get_days(snap: &Snapshot, anchor: Date, viewing: &Zone) -> (w: Week)
    requires
        anchor.wf(),
    ensures
        w@ == days_spec(*snap, anchor, viewing@),
        w.days.len() == 7,
        forall|k: int| 0 <= k < 7 ==> plus(w.anchor, k as i64) == Some(#[trigger] w.days@[k].date),
        w.days@[0].date == w.anchor,
        forall|k: int| 0 <= k < 6 ==> plus(#[trigger] w.days@[k].date, 1) == Some(w.days@[k + 1].date),
        anchor.le(latest_start()) ==> w.anchor == anchor,
        forall|k: int| 0 <= k < w.days.len() ==> all_stamps_ok(#[trigger] days_v(w.days@)[k].placements),
{
    let mut diags: Vec<Diagnostic> = Vec::new();
    let c = clamp(anchor, "Days starting ", &mut diags);
    assert(diags_v(diags@) =~= clamp_spec(anchor, "Days starting "@).1);
    expand(snap, c, viewing, diags)
}

/// A rule that is dropped from the render is always reported, under its item.
pub proof fn law_dropped_rule_is_reported(raw: RawRule, viewing: Seq<char>)
    ensures
        validate_spec(raw, viewing).0 is None ==> exists|k: int|
            0 <= k < validate_spec(raw, viewing).1.len() && (#[trigger] validate_spec(
                raw,
                viewing,
            ).1[k]).item_id == Some(raw.item_id@),
{
    let ws = validate_spec(raw, viewing).1;
    if validate_spec(raw, viewing).0 is None {
        assert(ws.len() > 0);
        assert(ws[ws.len() - 1].item_id == Some(raw.item_id@));
    }
}

/// A rule kept on system time because its zone is unknown is reported too.
pub proof fn law_unknown_zone_is_reported(raw: RawRule, viewing: Seq<char>)
    requires
        raw.tz matches Some(n) && !tz_known(n@),
    ensures
        validate_spec(raw, viewing).0 matches Some(r) ==> r.zone == viewing && r.pinned_tz is None
            && exists|k: int|
            0 <= k < validate_spec(raw, viewing).1.len() && (#[trigger] validate_spec(
                raw,
                viewing,
            ).1[k]).item_id == Some(raw.item_id@),
{
    let (r, ws) = validate_spec(raw, viewing);
    if r is Some {
        let id = raw.item_id@;
        let from = as_date(ymd_read(raw.from_date@).unwrap());
        let w1 = crate::rules::until_of(raw).1;
        let w2 = crate::rules::zone_of(raw, viewing).2;
        let w3 = crate::rules::excepts(id, crate::text::split_on(raw.except_on@, ',')).1;
        assert(ws == w1 + w2 + w3);
        assert(w2.len() == 1);
        assert(ws[w1.len() as int] == w2[0]);
    }
}

/// A one-off block whose times cannot be read is reported, never dropped in silence.
pub proof fn law_unreadable_block_is_reported(row: StoredRow, viewing: Seq<char>)
    ensures
        stored_spec(row, viewing).0 is None ==> stored_spec(row, viewing).1.len() == 1
            && stored_spec(row, viewing).1[0].item_id == Some(row.item_id@),
{
}

/// Ordered by start: no block on a day starts before one listed ahead of it.
pub open spec fn in_start_order(s: Seq<PlacementV>) -> bool {
    forall|i: int, j: int| 0 <= i < j < s.len() ==> !(#[trigger] s[j].starts_at).earlier(#[trigger] s[i].starts_at)
}

proof fn lemma_insert_in_order(x: PlacementV, s: Seq<PlacementV>)
    requires
        in_start_order(s),
    ensures
        in_start_order(insert_p(x, s)),
        insert_p(x, s).to_multiset() == s.to_multiset().insert(x),
    decreases s.len(),
{
    broadcast use vstd::seq_lib::group_to_multiset_ensures;

    let r = insert_p(x, s);
    if s.len() == 0 {
        assert(r =~= seq![x]);
        assert(seq![x] =~= Seq::<PlacementV>::empty().push(x));
    } else if before_p(x, s[0]) {
        assert(r =~= seq![x] + s);
        assert forall|i: int, j: int| 0 <= i < j < r.len() implies !(#[trigger] r[j].starts_at).earlier(
            #[trigger] r[i].starts_at,
        ) by {
            if i == 0 {
                assert(r[j] == s[j - 1]);
                if j - 1 > 0 {
                    assert(!s[j - 1].starts_at.earlier(s[0].starts_at));
                }
            } else {
                assert(r[i] == s[i - 1] && r[j] == s[j - 1]);
            }
        }
        vstd::seq_lib::lemma_multiset_commutative(seq![x], s);
        assert(seq![x] =~= Seq::<PlacementV>::empty().push(x));
    } else {
        let t = s.drop_first();
        assert forall|i: int, j: int| 0 <= i < j < t.len() implies !(#[trigger] t[j].starts_at).earlier(
            #[trigger] t[i].starts_at,
        ) by {
            assert(t[i] == s[i + 1] && t[j] == s[j + 1]);
        }
        lemma_insert_in_order(x, t);
        let rt = insert_p(x, t);
        assert(r =~= seq![s[0]] + rt);
        assert forall|i: int, j: int| 0 <= i < j < r.len() implies !(#[trigger] r[j].starts_at).earlier(
            #[trigger] r[i].starts_at,
        ) by {
            if i == 0 {
                assert(r[j] == rt[j - 1]);
                assert(rt.to_multiset().count(rt[j - 1]) > 0);
                assert(t.to_multiset().insert(x).count(rt[j - 1]) > 0);
                if rt[j - 1] != x {
                    assert(t.to_multiset().count(rt[j - 1]) > 0);
                    assert(t.contains(rt[j - 1]));
                    let m = choose|m: int| 0 <= m < t.len() && t[m] == rt[j - 1];
                    assert(t[m] == s[m + 1]);
                }
            } else {
                assert(r[i] == rt[i - 1] && r[j] == rt[j - 1]);
            }
        }
        vstd::seq_lib::lemma_multiset_commutative(seq![s[0]], rt);
        vstd::seq_lib::lemma_multiset_commutative(seq![s[0]], t);
        assert(s =~= seq![s[0]] + t);
    }
}

/// Every rule that reads renders, whatever the others are: the rules kept are
/// exactly those that read on their own, and each one dropped is reported
/// under its item.
pub proof fn law_each_rule_stands_alone(raws: Seq<RawRule>, viewing: Seq<char>)
    ensures
        forall|r: RuleV|
            #[trigger] validate_all(raws, viewing).0.contains(r) <==> exists|i: int|
                0 <= i < raws.len() && #[trigger] validate_spec(raws[i], viewing).0 == Some(r),
        forall|i: int|
            0 <= i < raws.len() && (#[trigger] validate_spec(raws[i], viewing)).0 is None ==> exists|k: int|
                0 <= k < validate_all(raws, viewing).1.len() && (#[trigger] validate_all(raws, viewing).1[k]).item_id
                    == Some(raws[i].item_id@),
    decreases raws.len(),
{
    if raws.len() > 0 {
        let init = raws.drop_last();
        law_each_rule_stands_alone(init, viewing);
        let (rs, ws) = validate_all(init, viewing);
        let (rs2, ws2) = validate_all(raws, viewing);
        let last = raws.len() - 1;
        assert forall|r: RuleV| #[trigger] rs2.contains(r) <==> exists|i: int|
            0 <= i < raws.len() && #[trigger] validate_spec(raws[i], viewing).0 == Some(r) by {
            if rs2.contains(r) {
                let k = choose|k: int| 0 <= k < rs2.len() && rs2[k] == r;
                if k < rs.len() {
                    assert(rs2[k] == rs[k]);
                    assert(rs.contains(r));
                    let i = choose|i: int| 0 <= i < init.len() && #[trigger] validate_spec(init[i], viewing).0 == Some(r);
                    assert(raws[i] == init[i]);
                } else {
                    assert(validate_spec(raws[last], viewing).0 == Some(r));
                }
            }
            if exists|i: int| 0 <= i < raws.len() && #[trigger] validate_spec(raws[i], viewing).0 == Some(r) {
                let i = choose|i: int| 0 <= i < raws.len() && #[trigger] validate_spec(raws[i], viewing).0 == Some(r);
                if i < last {
                    assert(init[i] == raws[i]);
                    assert(validate_spec(init[i], viewing).0 == Some(r));
                    assert(rs.contains(r));
                    let k = choose|k: int| 0 <= k < rs.len() && rs[k] == r;
                    assert(rs2[k] == rs[k]);
                } else {
                    assert(rs2[rs2.len() - 1] == r);
                }
            }
        }
        assert forall|i: int|
            0 <= i < raws.len() && (#[trigger] validate_spec(raws[i], viewing)).0 is None implies exists|k: int|
                0 <= k < ws2.len() && (#[trigger] ws2[k]).item_id == Some(raws[i].item_id@) by {
            if i < last {
                assert(init[i] == raws[i]);
                assert(validate_spec(init[i], viewing).0 is None);
                let k = choose|k: int| 0 <= k < ws.len() && (#[trigger] ws[k]).item_id == Some(init[i].item_id@);
                assert(ws2[k] == ws[k]);
            } else {
                law_dropped_rule_is_reported(raws[i], viewing);
                let w = validate_spec(raws[i], viewing).1;
                let k = choose|k: int| 0 <= k < w.len() && (#[trigger] w[k]).item_id == Some(raws[i].item_id@);
                assert(ws2[ws.len() + k] == w[k]);
            }
        }
    }
}

/// Every one-off block that reads is kept, whatever the others are, and each
/// sits on the day its start falls on in the viewing zone.
pub proof fn law_each_one_off_stands_alone(rows: Seq<StoredRow>, viewing: Seq<char>)
    ensures
        forall|x: StoredV|
            #[trigger] stored_all(rows, viewing).0.contains(x) <==> exists|i: int|
                0 <= i < rows.len() && #[trigger] stored_spec(rows[i], viewing).0 == Some(x),
        forall|k: int|
            0 <= k < stored_all(rows, viewing).0.len() ==> (#[trigger] stored_all(rows, viewing).0[k]).day
                == local_day(stored_all(rows, viewing).0[k].starts_at),
    decreases rows.len(),
{
    if rows.len() > 0 {
        let init = rows.drop_last();
        law_each_one_off_stands_alone(init, viewing);
        let ss = stored_all(init, viewing).0;
        let ss2 = stored_all(rows, viewing).0;
        let last = rows.len() - 1;
        assert forall|x: StoredV| #[trigger] ss2.contains(x) <==> exists|i: int|
            0 <= i < rows.len() && #[trigger] stored_spec(rows[i], viewing).0 == Some(x) by {
            if ss2.contains(x) {
                let k = choose|k: int| 0 <= k < ss2.len() && ss2[k] == x;
                if k < ss.len() {
                    assert(ss2[k] == ss[k]);
                    assert(ss.contains(x));
                    let i = choose|i: int| 0 <= i < init.len() && #[trigger] stored_spec(init[i], viewing).0 == Some(x);
                    assert(rows[i] == init[i]);
                } else {
                    assert(stored_spec(rows[last], viewing).0 == Some(x));
                }
            }
            if exists|i: int| 0 <= i < rows.len() && #[trigger] stored_spec(rows[i], viewing).0 == Some(x) {
                let i = choose|i: int| 0 <= i < rows.len() && #[trigger] stored_spec(rows[i], viewing).0 == Some(x);
                if i < last {
                    assert(init[i] == rows[i]);
                    assert(stored_spec(init[i], viewing).0 == Some(x));
                    assert(ss.contains(x));
                    let k = choose|k: int| 0 <= k < ss.len() && ss[k] == x;
                    assert(ss2[k] == ss[k]);
                } else {
                    assert(ss2[ss2.len() - 1] == x);
                }
            }
        }
        assert forall|k: int| 0 <= k < ss2.len() implies (#[trigger] ss2[k]).day == local_day(ss2[k].starts_at) by {
            if k < ss.len() {
                assert(ss2[k] == ss[k]);
            }
        }
    }
}

/// When a rule puts a block on a day: never before its first date nor after
/// its last, never on a cancelled date, and only on one of its weekdays (a
/// weekly rule) or on its day of the month, the month's last day standing in
/// for a day the month lacks (a monthly rule). On such a day it always does,
/// once its hours can be placed.
pub proof fn law_a_rule_falls_only_on_its_days(r: RuleV, d: Date, viewing: Seq<char>)
    ensures
        rule_day(r, d, viewing).0 is Some <==> {
            &&& !d.lt(r.from)
            &&& (r.until matches Some(u) ==> !u.lt(d))
            &&& !r.except.contains(d)
            &&& match r.monthday {
                Some(m) => d.day == if m as int <= days_in_month(d.year as int, d.month as int) {
                    m as int
                } else {
                    days_in_month(d.year as int, d.month as int)
                },
                None => r.days.contains(weekday(d)),
            }
            &&& place_spec(r.zone, d, r.start, r.end) is Some
        },
{
}

/// A block some rule puts on day `d`: one does when it occurs on `d` and its
/// hours can be placed there.
pub open spec fn rule_block(x: PlacementV, rs: Seq<RuleV>, d: Date, viewing: Seq<char>) -> bool {
    exists|i: int| 0 <= i < rs.len() && #[trigger] rule_day(rs[i], d, viewing).0 == Some(x)
}

/// A one-off block whose start falls on day `d` in the viewing zone.
pub open spec fn one_off_block(x: PlacementV, ss: Seq<StoredV>, d: Date) -> bool {
    exists|j: int| 0 <= j < ss.len() && (#[trigger] ss[j]).day == Some(d) && x == stored_placement(ss[j])
}

proof fn lemma_rules_day_members(rs: Seq<RuleV>, d: Date, viewing: Seq<char>)
    ensures
        forall|x: PlacementV| #[trigger] rules_day(rs, d, viewing).0.contains(x) <==> rule_block(x, rs, d, viewing),
    decreases rs.len(),
{
    if rs.len() > 0 {
        let init = rs.drop_last();
        lemma_rules_day_members(init, d, viewing);
        let ps = rules_day(init, d, viewing).0;
        let out = rules_day(rs, d, viewing).0;
        let p = rule_day(rs.last(), d, viewing).0;
        assert forall|x: PlacementV| #[trigger] out.contains(x) <==> rule_block(x, rs, d, viewing) by {
            if out.contains(x) {
                let k = choose|k: int| 0 <= k < out.len() && out[k] == x;
                if k < ps.len() {
                    assert(out[k] == ps[k]);
                    assert(ps.contains(x));
                    let i = choose|i: int| 0 <= i < init.len() && #[trigger] rule_day(init[i], d, viewing).0 == Some(x);
                    assert(rs[i] == init[i]);
                } else {
                    assert(rule_day(rs[rs.len() - 1], d, viewing).0 == Some(x));
                }
            }
            if rule_block(x, rs, d, viewing) {
                let i = choose|i: int| 0 <= i < rs.len() && #[trigger] rule_day(rs[i], d, viewing).0 == Some(x);
                if i < init.len() {
                    assert(init[i] == rs[i]);
                    assert(rule_block(x, init, d, viewing));
                    assert(ps.contains(x));
                    let k = choose|k: int| 0 <= k < ps.len() && ps[k] == x;
                    assert(out[k] == ps[k]);
                } else {
                    assert(out[out.len() - 1] == x);
                }
            }
        }
    }
}

proof fn lemma_stored_day_members(ss: Seq<StoredV>, d: Date)
    ensures
        forall|x: PlacementV| #[trigger] stored_day(ss, d).contains(x) <==> one_off_block(x, ss, d),
    decreases ss.len(),
{
    if ss.len() > 0 {
        let init = ss.drop_last();
        lemma_stored_day_members(init, d);
        let ps = stored_day(init, d);
        let out = stored_day(ss, d);
        assert forall|x: PlacementV| #[trigger] out.contains(x) <==> one_off_block(x, ss, d) by {
            if out.contains(x) {
                let k = choose|k: int| 0 <= k < out.len() && out[k] == x;
                if k < ps.len() {
                    assert(out[k] == ps[k]);
                    assert(ps.contains(x));
                    let j = choose|j: int| 0 <= j < init.len() && (#[trigger] init[j]).day == Some(d) && x == stored_placement(init[j]);
                    assert(ss[j] == init[j]);
                } else {
                    assert(ss[ss.len() - 1].day == Some(d));
                }
            }
            if one_off_block(x, ss, d) {
                let j = choose|j: int| 0 <= j < ss.len() && (#[trigger] ss[j]).day == Some(d) && x == stored_placement(ss[j]);
                if j < init.len() {
                    assert(init[j] == ss[j]);
                    assert(one_off_block(x, init, d));
                    assert(ps.contains(x));
                    let k = choose|k: int| 0 <= k < ps.len() && ps[k] == x;
                    assert(out[k] == ps[k]);
                } else {
                    assert(out[out.len() - 1] == x);
                }
            }
        }
    }
}

/// How many of the rules put a block on day `d`.
pub open spec fn rules_placed(rs: Seq<RuleV>, d: Date, viewing: Seq<char>) -> nat
    decreases rs.len(),
{
    if rs.len() == 0 {
        0
    } else {
        rules_placed(rs.drop_last(), d, viewing) + if rule_day(rs.last(), d, viewing).0 is Some {
            1nat
        } else {
            0nat
        }
    }
}

/// How many one-off blocks start on day `d`.
pub open spec fn one_offs_on(ss: Seq<StoredV>, d: Date) -> nat
    decreases ss.len(),
{
    if ss.len() == 0 {
        0
    } else {
        one_offs_on(ss.drop_last(), d) + if ss.last().day == Some(d) {
            1nat
        } else {
            0nat
        }
    }
}

proof fn lemma_day_counts(rs: Seq<RuleV>, ss: Seq<StoredV>, d: Date, viewing: Seq<char>)
    ensures
        rules_day(rs, d, viewing).0.len() == rules_placed(rs, d, viewing),
        stored_day(ss, d).len() == one_offs_on(ss, d),
    decreases rs.len() + ss.len(),
{
    if rs.len() > 0 {
        lemma_day_counts(rs.drop_last(), ss, d, viewing);
    } else if ss.len() > 0 {
        lemma_day_counts(rs, ss.drop_last(), d, viewing);
    }
}

/// What a day holds, and nothing else: each rule's block when the rule occurs
/// on that day (from its first date, to its last if it has one, on one of its
/// weekdays or its day of the month, and not excepted) and its hours can be
/// placed there; and each one-off block whose start falls on that day in the
/// viewing zone. Each rule puts at most one block there, a recurrence block
/// named for the day and its item and shown at the viewing zone's offsets, so
/// the day holds as many blocks as rules that fall on it, plus its one-offs.
pub proof fn law_a_day_holds_its_blocks(rs: Seq<RuleV>, ss: Seq<StoredV>, d: Date, viewing: Seq<char>)
    ensures
        forall|x: PlacementV|
            #[trigger] day_spec(rs, ss, d, viewing).0.contains(x) <==> (rule_block(x, rs, d, viewing)
                || one_off_block(x, ss, d)),
        forall|r: RuleV|
            #[trigger] rule_day(r, d, viewing).0 is Some <==> occurs(r, d) && place_spec(r.zone, d, r.start, r.end) is Some,
        forall|r: RuleV|
            (#[trigger] rule_day(r, d, viewing).0) matches Some(x) ==> x.origin == Origin::Recurrence && x.item_id
                == r.item_id && x.id == "plc_"@ + ymd_text(d.year, d.month, d.day) + "_"@ + r.item_id
                && x.starts_at.offset == tz_offset(viewing, x.starts_at.secs) && x.ends_at.offset == tz_offset(
                viewing,
                x.ends_at.secs,
            ),
        day_spec(rs, ss, d, viewing).0.len() == rules_placed(rs, d, viewing) + one_offs_on(ss, d),
{
    broadcast use vstd::seq_lib::group_to_multiset_ensures;

    lemma_day_counts(rs, ss, d, viewing);
    lemma_rules_day_members(rs, d, viewing);
    lemma_stored_day_members(ss, d);
    let a = rules_day(rs, d, viewing).0;
    let b = stored_day(ss, d);
    let all = a + b;
    law_day_sorted_and_complete(all);
    vstd::seq_lib::to_multiset_len(all);
    vstd::seq_lib::to_multiset_len(sort_p(all));
    assert(day_spec(rs, ss, d, viewing).0 == sort_p(all));
    assert forall|x: PlacementV| #[trigger] day_spec(rs, ss, d, viewing).0.contains(x) <==> (rule_block(x, rs, d, viewing)
        || one_off_block(x, ss, d)) by {
        assert(day_spec(rs, ss, d, viewing).0 == sort_p(all));
        vstd::seq_lib::to_multiset_contains(sort_p(all), x);
        vstd::seq_lib::to_multiset_contains(all, x);
        assert(sort_p(all).contains(x) <==> all.contains(x));
        if all.contains(x) {
            let k = choose|k: int| 0 <= k < all.len() && all[k] == x;
            if k < a.len() {
                assert(a[k] == all[k]);
                assert(a.contains(x));
            } else {
                assert(b[k - a.len()] == all[k]);
                assert(b.contains(x));
            }
        }
        if a.contains(x) {
            let k = choose|k: int| 0 <= k < a.len() && a[k] == x;
            assert(all[k] == a[k]);
        }
        if b.contains(x) {
            let k = choose|k: int| 0 <= k < b.len() && b[k] == x;
            assert(all[a.len() + k] == b[k]);
        }
    }
}

/// A day's blocks come out in start order, and none is lost or repeated:
/// the sorted list holds exactly the blocks that went in.
pub proof fn law_day_sorted_and_complete(s: Seq<PlacementV>)
    ensures
        in_start_order(sort_p(s)),
        sort_p(s).to_multiset() == s.to_multiset(),
    decreases s.len(),
{
    broadcast use vstd::seq_lib::group_to_multiset_ensures;

    if s.len() > 0 {
        law_day_sorted_and_complete(s.drop_last());
        lemma_insert_in_order(s.last(), sort_p(s.drop_last()));
        assert(s =~= s.drop_last().push(s.last()));
    }
}
/// Where the window's days start: where it was asked to, or else yesterday,
/// so the rolling view shows the day just gone, today and the five after.
pub fn window_start(anchor: Option<Date>, today: Date) -> (r: Date)
    requires
        today.wf(),
    ensures
        r == match anchor {
            Some(a) => a,
            None => match plus(today, -1i64) {
                Some(y) => y,
                None => today,
            },
        },
{
    match anchor {
        Some(a) => a,
        None => match add_days(&today, -1) {
            Some(y) => y,
            None => today,
        },
    }
}

} // verus!
