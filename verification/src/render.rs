//! Text for people: dates and times as they are read back, the replies the
//! chat front end sends, and the reminders it pushes.
use vstd::prelude::*;
use crate::bot::{fmt_mins, mins_text};
use crate::calendar::{Date, plus, add_days, weekday, weekday_num};
use crate::clock::two_digits;
use crate::command::ListScope;
use crate::compose::{dec, dec_of, two_of};
use crate::expand::{local_day, local_day_of};
use crate::model::{Week, WeekV};
use crate::notify::{Kind, Notice, NoticeV};
use crate::place::clock_text;
use crate::store::Item;
use crate::text::{opt_str, string_of};
use crate::notify::find_item;
use crate::parse::{Parsed, ParsedV};
use crate::zone::{Stamp, Zone, tz_known, debug_text, offset_at, quoted, tz_offset, utc_ok, ymd_text, date_text};

verus! {

pub open spec fn weekday_abbr(i: u32) -> Seq<char> {
    if i == 0 {
        "Mon"@
    } else if i == 1 {
        "Tue"@
    } else if i == 2 {
        "Wed"@
    } else if i == 3 {
        "Thu"@
    } else if i == 4 {
        "Fri"@
    } else if i == 5 {
        "Sat"@
    } else {
        "Sun"@
    }
}

pub open spec fn month_abbr(m: u32) -> Seq<char> {
    if m == 1 {
        "Jan"@
    } else if m == 2 {
        "Feb"@
    } else if m == 3 {
        "Mar"@
    } else if m == 4 {
        "Apr"@
    } else if m == 5 {
        "May"@
    } else if m == 6 {
        "Jun"@
    } else if m == 7 {
        "Jul"@
    } else if m == 8 {
        "Aug"@
    } else if m == 9 {
        "Sep"@
    } else if m == 10 {
        "Oct"@
    } else if m == 11 {
        "Nov"@
    } else {
        "Dec"@
    }
}

/// `%a %d %b`: `Wed 02 Sep`.
pub open spec fn day_label_spec(d: Date) -> Seq<char> {
    weekday_abbr(weekday(d)) + " "@ + two_digits(d.day as int) + " "@ + month_abbr(d.month)
}

fn weekday_abbr_of(i: u32) -> (r: &'static str)
    ensures
        r@ == weekday_abbr(i),
{
    if i == 0 {
        "Mon"
    } else if i == 1 {
        "Tue"
    } else if i == 2 {
        "Wed"
    } else if i == 3 {
        "Thu"
    } else if i == 4 {
        "Fri"
    } else if i == 5 {
        "Sat"
    } else {
        "Sun"
    }
}

fn month_abbr_of(m: u32) -> (r: &'static str)
    ensures
        r@ == month_abbr(m),
{
    if m == 1 {
        "Jan"
    } else if m == 2 {
        "Feb"
    } else if m == 3 {
        "Mar"
    } else if m == 4 {
        "Apr"
    } else if m == 5 {
        "May"
    } else if m == 6 {
        "Jun"
    } else if m == 7 {
        "Jul"
    } else if m == 8 {
        "Aug"
    } else if m == 9 {
        "Sep"
    } else if m == 10 {
        "Oct"
    } else if m == 11 {
        "Nov"
    } else {
        "Dec"
    }
}

/// A day as `Wed 02 Sep`.
pub fn day_label(d: &Date) -> (r: String)
    requires
        d.wf(),
    ensures
        r@ == day_label_spec(*d),
{
    let mut s = String::from_str(weekday_abbr_of(weekday_num(d)));
    s.append(" ");
    s.append(string_of(&two_of(d.day)).as_str());
    s.append(" ");
    s.append(month_abbr_of(d.month));
    s
}

/// The wall clock, `%H:%M`, of an instant at its offset.
pub open spec fn clock_of(st: Stamp) -> Seq<char> {
    clock_text(st.secs + st.offset)
}

pub fn clock_label(st: &Stamp) -> (r: String)
    requires
        utc_ok(st.secs as int),
        -86400 < st.offset < 86400,
    ensures
        r@ == clock_of(*st),
{
    crate::place::clock_text_pub(st.secs + st.offset as i64)
}

/// An instant as seen in a zone: `Wed 02 Sep 17:00`.
pub open spec fn when_label(secs: i64, zone: Seq<char>) -> Seq<char> {
    let local = Stamp { secs, nanos: 0, offset: tz_offset(zone, secs) };
    match local_day(local) {
        Some(d) => day_label_spec(d) + " "@ + clock_of(local),
        None => clock_of(local),
    }
}

/// The day an instant falls on in a zone.
pub open spec fn day_in(secs: i64, zone: Seq<char>) -> Option<Date> {
    local_day(Stamp { secs, nanos: 0, offset: tz_offset(zone, secs) })
}

pub fn when_label_of(secs: i64, zone: &Zone) -> (r: String)
    requires
        utc_ok(secs as int),
    ensures
        r@ == when_label(secs, zone@),
{
    let name = zone.name();
    let local = Stamp { secs, nanos: 0, offset: offset_at(name, secs) };
    match local_day_of(&local) {
        Some(d) => {
            let mut s = day_label(&d);
            s.append(" ");
            s.append(clock_label(&local).as_str());
            s
        },
        None => clock_label(&local),
    }
}

fn day_in_of(secs: i64, zone: &Zone) -> (r: Option<Date>)
    requires
        utc_ok(secs as int),
    ensures
        r == day_in(secs, zone@),
        r matches Some(d) ==> d.wf(),
{
    let name = zone.name();
    let local = Stamp { secs, nanos: 0, offset: offset_at(name, secs) };
    local_day_of(&local)
}

/// Whole minutes until an instant, rounded up, never below zero: a reminder
/// fired at nine and a half minutes says ten.
pub open spec fn minutes_until(at: Stamp, now: Stamp) -> int {
    let total = (at.secs - now.secs) * 1_000_000_000 + (at.nanos - now.nanos);
    let whole = if total >= 0 {
        total / 1_000_000_000
    } else {
        -((-total) / 1_000_000_000)
    };
    if whole <= 0 {
        0
    } else {
        (whole + 59) / 60
    }
}

/// One reminder, as a person reads it.
pub open spec fn describe_spec(n: NoticeV, now: Stamp, zone: Seq<char>) -> Seq<char> {
    let mins = minutes_until(n.at, now);
    let head = match n.kind {
        Kind::Block => "in "@ + dec(mins as nat) + " min \u{2014} "@ + n.title,
        Kind::Deadline => "due in "@ + dec(mins as nat) + " min \u{2014} "@ + n.title,
    };
    let starts = Stamp { secs: n.at.secs, nanos: 0, offset: tz_offset(zone, n.at.secs) };
    let when = match n.ends {
        Some(e) => "\n"@ + clock_of(starts) + "-"@ + clock_of(
            Stamp { secs: e.secs, nanos: 0, offset: tz_offset(zone, e.secs) },
        ),
        None => "\nby "@ + clock_of(starts),
    };
    let place = match n.location {
        Some(l) => " \u{b7} "@ + l,
        None => Seq::empty(),
    };
    head + when + place
}

fn dec_i64(n: i64) -> (r: String)
    requires
        0 <= n,
    ensures
        r@ == dec(n as nat),
    decreases n,
{
    if n < 10 {
        let mut v: Vec<char> = Vec::new();
        v.push(((n + 48) as u8) as char);
        assert(v@ =~= dec(n as nat));
        string_of(&v)
    } else {
        let mut s = dec_i64(n / 10);
        let mut v: Vec<char> = Vec::new();
        v.push((((n % 10) + 48) as u8) as char);
        s.append(string_of(&v).as_str());
        assert(s@ =~= dec(n as nat));
        s
    }
}

/// One reminder, as a person reads it.
pub fn describe(n: &Notice, now: Stamp, zone: &Zone) -> (r: String)
    requires
        utc_ok(n.at.secs as int),
        n.ends matches Some(e) ==> utc_ok(e.secs as int),
        utc_ok(now.secs as int),
        n.at.nanos < 1_000_000_000,
        now.nanos < 1_000_000_000,
    ensures
        r@ == describe_spec(n@, now, zone@),
{
    let name = zone.name();
    let total: i128 = (n.at.secs as i128 - now.secs as i128) * 1_000_000_000 + (n.at.nanos as i128
        - now.nanos as i128);
    let whole: i128 = if total >= 0 {
        total / 1_000_000_000
    } else {
        -((-total) / 1_000_000_000)
    };
    let mins: i64 = if whole <= 0 {
        0
    } else {
        ((whole + 59) / 60) as i64
    };
    assert(mins == minutes_until(n.at, now));
    let mut out = match n.kind {
        Kind::Block => String::from_str("in "),
        Kind::Deadline => String::from_str("due in "),
    };
    out.append(dec_i64(mins).as_str());
    out.append(" min \u{2014} ");
    out.append(n.title.as_str());
    let starts = Stamp { secs: n.at.secs, nanos: 0, offset: offset_at(name, n.at.secs) };
    match n.ends {
        Some(e) => {
            out.append("\n");
            out.append(clock_label(&starts).as_str());
            out.append("-");
            let ends = Stamp { secs: e.secs, nanos: 0, offset: offset_at(name, e.secs) };
            out.append(clock_label(&ends).as_str());
        },
        None => {
            out.append("\nby ");
            out.append(clock_label(&starts).as_str());
        },
    }
    match &n.location {
        Some(l) => {
            out.append(" \u{b7} ");
            out.append(l.as_str());
        },
        None => {},
    }
    out
}


/// Pieces joined by a separator.
pub open spec fn joined(s: Seq<Seq<char>>, sep: Seq<char>) -> Seq<char>
    decreases s.len(),
{
    if s.len() == 0 {
        Seq::empty()
    } else if s.len() == 1 {
        s[0]
    } else {
        joined(s.drop_last(), sep) + sep + s.last()
    }
}

pub fn join_with(v: &Vec<String>, sep: &str) -> (r: String)
    ensures
        r@ == joined(v@.map_values(|s: String| s@), sep@),
{
    let ghost vs = v@.map_values(|s: String| s@);
    let mut out = String::new();
    let mut i: usize = 0;
    while i < v.len()
        invariant
            i <= v.len(),
            vs == v@.map_values(|s: String| s@),
            out@ == joined(vs.take(i as int), sep@),
        decreases v.len() - i,
    {
        assert(vs.take(i + 1).drop_last() =~= vs.take(i as int));
        assert(vs.take(i + 1).last() == v@[i as int]@);
        if i == 0 {
            assert(vs.take(1) =~= seq![vs[0]]);
        }
        if i > 0 {
            out.append(sep);
        }
        out.append(v[i].as_str());
        i = i + 1;
        assert(out@ =~= joined(vs.take(i as int), sep@));
    }
    assert(vs.take(v.len() as int) =~= vs);
    out
}

/// How far a list reaches: the last day it shows, or no limit. `None` when a
/// week from today lies past the end of the calendar.
pub open spec fn horizon_of(scope: ListScope, today: Date) -> Option<Option<Date>> {
    match scope {
        ListScope::Today => Some(Some(today)),
        ListScope::Week => match plus(today, 7) {
            Some(d) => Some(Some(d)),
            None => None,
        },
        ListScope::All => Some(None),
    }
}

/// Due by the end of the limit's day (so overdue counts), or anything when there is no limit.
pub open spec fn within(it: Item, limit: Option<Date>, zone: Seq<char>) -> bool {
    match limit {
        None => true,
        Some(l) => match it.due_at {
            Some(d) => match day_in(d.secs, zone) {
                Some(x) => x.le(l),
                None => false,
            },
            None => false,
        },
    }
}

pub open spec fn shown(items: Seq<Item>, limit: Option<Date>, zone: Seq<char>) -> Seq<Item>
    decreases items.len(),
{
    if items.len() == 0 {
        Seq::empty()
    } else if within(items.last(), limit, zone) {
        shown(items.drop_last(), limit, zone).push(items.last())
    } else {
        shown(items.drop_last(), limit, zone)
    }
}

pub open spec fn undated(items: Seq<Item>) -> nat
    decreases items.len(),
{
    if items.len() == 0 {
        0
    } else {
        undated(items.drop_last()) + if items.last().due_at is None {
            1nat
        } else {
            0nat
        }
    }
}

/// One line of a list: the title, its day, its estimate.
pub open spec fn list_line(it: Item, zone: Seq<char>) -> Seq<char> {
    "\u{b7} "@ + it.title@ + match it.due_at {
        Some(d) => match day_in(d.secs, zone) {
            Some(x) => "  ("@ + day_label_spec(x) + ")"@,
            None => Seq::empty(),
        },
        None => Seq::empty(),
    } + match it.estimate_min {
        Some(m) => "  ~"@ + mins_text(m),
        None => Seq::empty(),
    } + "\n"@
}

pub open spec fn list_lines(items: Seq<Item>, zone: Seq<char>) -> Seq<char>
    decreases items.len(),
{
    if items.len() == 0 {
        Seq::empty()
    } else {
        list_lines(items.drop_last(), zone) + list_line(items.last(), zone)
    }
}

/// The reply to `list`, `today` or `list week`, over the open listed items.
pub open spec fn list_reply_spec(scope: ListScope, items: Seq<Item>, today: Date, zone: Seq<char>) -> Option<Seq<char>> {
    match horizon_of(scope, today) {
        None => None,
        Some(limit) => {
            let sh = shown(items, limit, zone);
            if sh.len() == 0 {
                Some(
                    match scope {
                        ListScope::Today => "nothing due today"@,
                        ListScope::Week => "nothing due this week"@,
                        ListScope::All => "nothing open"@,
                    },
                )
            } else {
                let heading = match scope {
                    ListScope::Today => "due today"@,
                    ListScope::Week => "due this week"@,
                    ListScope::All => "open"@,
                };
                let tail = if scope != ListScope::All && undated(items) > 0 {
                    "\n("@ + dec(undated(items)) + " with no date \u{2014} send `list` for everything)"@
                } else {
                    Seq::empty()
                };
                Some(heading + ":\n"@ + list_lines(sh, zone) + tail)
            }
        },
    }
}

fn list_line_of(it: &Item, zone: &Zone) -> (r: String)
    requires
        it.due_at matches Some(d) ==> utc_ok(d.secs as int),
    ensures
        r@ == list_line(*it, zone@),
{
    let mut out = String::from_str("\u{b7} ");
    out.append(it.title.as_str());
    if let Some(d) = it.due_at {
        if let Some(x) = day_in_of(d.secs, zone) {
            out.append("  (");
            out.append(day_label(&x).as_str());
            out.append(")");
        }
    }
    if let Some(m) = it.estimate_min {
        out.append("  ~");
        out.append(fmt_mins(m).as_str());
    }
    out.append("\n");
    out
}

/// The reply to a list command, over the open listed items, as seen in `zone`.
/// `None` exactly when a week from today lies past the end of the calendar.
#[verifier::rlimit(40)]
pub fn list_reply(scope: ListScope, items: &Vec<Item>, today: Date, zone: &Zone) -> (r: Option<String>)
    requires
        today.wf(),
        forall|k: int| 0 <= k < items.len() ==> ((#[trigger] items@[k]).due_at matches Some(d) ==> utc_ok(d.secs as int)),
    ensures
        opt_str(r) == list_reply_spec(scope, items@, today, zone@),
{
    let limit = match scope {
        ListScope::Today => Some(today),
        ListScope::Week => match add_days(&today, 7) {
            Some(d) => Some(d),
            None => {
                return None;
            },
        },
        ListScope::All => None,
    };
    let mut lines = String::new();
    let mut n_shown: usize = 0;
    let mut n_undated: usize = 0;
    let mut i: usize = 0;
    while i < items.len()
        invariant
            i <= items.len(),
            horizon_of(scope, today) == Some(limit),
            forall|k: int| 0 <= k < items.len() ==> ((#[trigger] items@[k]).due_at matches Some(d) ==> utc_ok(d.secs as int)),
            limit matches Some(l) ==> l.wf(),
            lines@ == list_lines(shown(items@.take(i as int), limit, zone@), zone@),
            n_shown == shown(items@.take(i as int), limit, zone@).len(),
            n_undated == undated(items@.take(i as int)),
            n_shown <= i,
            n_undated <= i,
        decreases items.len() - i,
    {
        let it = &items[i];
        assert(items@.take(i + 1).drop_last() =~= items@.take(i as int));
        assert(items@.take(i + 1).last() == *it);
        let keep = match limit {
            None => true,
            Some(l) => match it.due_at {
                Some(d) => match day_in_of(d.secs, zone) {
                    Some(x) => !l.before(&x),
                    None => false,
                },
                None => false,
            },
        };
        assert(keep == within(*it, limit, zone@));
        let ghost before = lines@;
        if keep {
            lines.append(list_line_of(it, zone).as_str());
            n_shown = n_shown + 1;
        }
        let ghost sh = shown(items@.take(i as int), limit, zone@);
        assert(sh.push(*it).drop_last() =~= sh);
        assert(sh.push(*it).last() == *it);
        assert(lines@ =~= list_lines(shown(items@.take(i + 1), limit, zone@), zone@));
        if it.due_at.is_none() {
            n_undated = n_undated + 1;
        }
        i = i + 1;
    }
    assert(items@.take(items.len() as int) =~= items@);
    if n_shown == 0 {
        return Some(
            String::from_str(
                match scope {
                    ListScope::Today => "nothing due today",
                    ListScope::Week => "nothing due this week",
                    ListScope::All => "nothing open",
                },
            ),
        );
    }
    let mut out = String::from_str(
        match scope {
            ListScope::Today => "due today",
            ListScope::Week => "due this week",
            ListScope::All => "open",
        },
    );
    out.append(":\n");
    out.append(lines.as_str());
    if scope != ListScope::All && n_undated > 0 {
        out.append("\n(");
        out.append(crate::import::dec_usize(n_undated).as_str());
        out.append(" with no date \u{2014} send `list` for everything)");
    }
    Some(out)
}

/// The title an item is shown by, or its id when it is gone.
pub open spec fn title_for(items: Seq<Item>, id: Seq<char>) -> Seq<char> {
    match find_item(items, id, 0) {
        Some(it) => it.title@,
        None => id,
    }
}

pub open spec fn week_day_text(day: crate::model::DayV, items: Seq<Item>) -> Seq<char> {
    "\n"@ + day_label_spec(day.date) + "\n"@ + (if day.placements.len() == 0 {
        "  \u{2014}\n"@
    } else {
        Seq::empty()
    }) + placement_lines(day.placements, items)
}

pub open spec fn placement_lines(ps: Seq<crate::model::PlacementV>, items: Seq<Item>) -> Seq<char>
    decreases ps.len(),
{
    if ps.len() == 0 {
        Seq::empty()
    } else {
        let p = ps.last();
        placement_lines(ps.drop_last(), items) + "  "@ + clock_of(p.starts_at) + "-"@ + clock_of(
            p.ends_at,
        ) + "  "@ + title_for(items, p.item_id) + "\n"@
    }
}

pub open spec fn week_days_text(days: Seq<crate::model::DayV>, items: Seq<Item>) -> Seq<char>
    decreases days.len(),
{
    if days.len() == 0 {
        Seq::empty()
    } else {
        week_days_text(days.drop_last(), items) + week_day_text(days.last(), items)
    }
}

pub open spec fn notes_text(ds: Seq<crate::model::DiagnosticV>) -> Seq<char>
    decreases ds.len(),
{
    if ds.len() == 0 {
        Seq::empty()
    } else {
        notes_text(ds.drop_last()) + "\nnote: "@ + ds.last().message + "\n"@
    }
}

/// The reply to `week`.
pub open spec fn week_reply_spec(w: WeekV, items: Seq<Item>) -> Seq<char> {
    "week of "@ + ymd_text(w.anchor.year, w.anchor.month, w.anchor.day) + "\n"@ + week_days_text(w.days, items)
        + notes_text(w.diagnostics)
}

fn title_of(items: &Vec<Item>, id: &str) -> (r: String)
    ensures
        r@ == title_for(items@, id@),
{
    let mut k: usize = 0;
    while k < items.len()
        invariant
            k <= items.len(),
            find_item(items@, id@, 0) == find_item(items@, id@, k as int),
        decreases items.len() - k,
    {
        if items[k].id.as_str().to_owned() == id.to_owned() {
            return items[k].title.clone();
        }
        k = k + 1;
    }
    id.to_owned()
}

fn day_text_of(day: &crate::model::Day, items: &Vec<Item>) -> (r: String)
    requires
        day.date.wf(),
        crate::expand::all_stamps_ok(day@.placements),
    ensures
        r@ == week_day_text(day@, items@),
{
    let ghost dayv = day@;
    let mut out = String::from_str("\n");
    out.append(day_label(&day.date).as_str());
    out.append("\n");
    if day.placements.len() == 0 {
        out.append("  \u{2014}\n");
    }
    let ghost mid = out@;
    let mut j: usize = 0;
    while j < day.placements.len()
        invariant
            j <= day.placements.len(),
            dayv == day@,
            crate::expand::all_stamps_ok(dayv.placements),
            out@ == mid + placement_lines(dayv.placements.take(j as int), items@),
        decreases day.placements.len() - j,
    {
        let p = &day.placements[j];
        assert(dayv.placements[j as int] == p@);
        assert(crate::expand::stamps_ok(dayv.placements[j as int]));
        assert(dayv.placements.take(j + 1).drop_last() =~= dayv.placements.take(j as int));
        out.append("  ");
        out.append(clock_label(&p.starts_at).as_str());
        out.append("-");
        out.append(clock_label(&p.ends_at).as_str());
        out.append("  ");
        out.append(title_of(items, p.item_id.as_str()).as_str());
        out.append("\n");
        j = j + 1;
    }
    assert(dayv.placements.take(day.placements.len() as int) =~= dayv.placements);
    out
}

/// The reply to `week`: each day, its blocks with their titles, and any notes.
#[verifier::rlimit(40)]
pub fn week_reply(w: &Week, items: &Vec<Item>) -> (r: String)
    requires
        w.anchor.wf(),
        forall|k: int| 0 <= k < w.days.len() ==> (#[trigger] w.days@[k]).date.wf(),
        forall|k: int| 0 <= k < w.days.len() ==> crate::expand::all_stamps_ok(#[trigger] crate::expand::days_v(w.days@)[k].placements),
    ensures
        r@ == week_reply_spec(w@, items@),
{
    let ghost dv = crate::expand::days_v(w.days@);
    let mut out = String::from_str("week of ");
    out.append(date_text(&w.anchor).as_str());
    out.append("\n");
    let ghost head = out@;
    let mut i: usize = 0;
    while i < w.days.len()
        invariant
            i <= w.days.len(),
            dv == crate::expand::days_v(w.days@),
            forall|k: int| 0 <= k < w.days.len() ==> (#[trigger] w.days@[k]).date.wf(),
            forall|k: int| 0 <= k < w.days.len() ==> crate::expand::all_stamps_ok(#[trigger] dv[k].placements),
            out@ == head + week_days_text(dv.take(i as int), items@),
        decreases w.days.len() - i,
    {
        let day = &w.days[i];
        assert(dv[i as int] == day@);
        assert(dv.take(i + 1).drop_last() =~= dv.take(i as int));
        out.append(day_text_of(day, items).as_str());
        i = i + 1;
    }
    assert(dv.take(w.days.len() as int) =~= dv);
    let ghost upto = out@;
    let ghost gv = w@.diagnostics;
    let mut k: usize = 0;
    while k < w.diagnostics.len()
        invariant
            k <= w.diagnostics.len(),
            gv == w@.diagnostics,
            out@ == upto + notes_text(gv.take(k as int)),
        decreases w.diagnostics.len() - k,
    {
        assert(gv.take(k + 1).drop_last() =~= gv.take(k as int));
        assert(gv[k as int] == w.diagnostics@[k as int]@);
        out.append("\nnote: ");
        out.append(w.diagnostics[k].message.as_str());
        out.append("\n");
        k = k + 1;
    }
    assert(gv.take(w.diagnostics.len() as int) =~= gv);
    out
}

/// What `done: <text>` comes to.
#[derive(Clone, Debug, PartialEq)]
pub enum DoneStep {
    /// Nothing matched; say this.
    Nothing(String),
    /// Exactly one matched: tick it off (for `on`, when it repeats) and say `reply`.
    Tick { id: String, on: Option<Date>, reply: String },
    /// Several matched; say this.
    Ambiguous(String),
}

pub open spec fn match_lines(ms: Seq<Item>) -> Seq<char>
    decreases ms.len(),
{
    if ms.len() == 0 {
        Seq::empty()
    } else {
        match_lines(ms.drop_last()) + "\u{b7} "@ + ms.last().title@ + "\n"@
    }
}

/// `done: <text>` against the items it matches: a repeat is ticked off for
/// today's occurrence only; more than one match asks to be more specific,
/// naming at most ten.
pub open spec fn done_step_ok(prefix: Seq<char>, matches: Seq<Item>, today: Date, r: DoneStep) -> bool {
    if matches.len() == 0 {
        r == DoneStep::Nothing(r->Nothing_0) && r->Nothing_0@ == "nothing matches "@ + debug_text(prefix)
    } else if matches.len() == 1 {
        &&& r is Tick
        &&& r->id@ == matches[0].id@
        &&& r->on == (if matches[0].recurs { Some(today) } else { None })
        &&& r->reply@ == "done: "@ + matches[0].title@
    } else {
        &&& r is Ambiguous
        &&& r->Ambiguous_0@ == debug_text(prefix) + " matches "@ + dec(matches.len()) + ":\n"@
            + match_lines(matches.take(if matches.len() < 10 { matches.len() as int } else { 10 }))
            + "\nbe more specific"@
    }
}

#[verifier::rlimit(40)]
pub fn done_step(prefix: &str, matches: &Vec<Item>, today: Date) -> (r: DoneStep)
    ensures
        done_step_ok(prefix@, matches@, today, r),
{
    if matches.len() == 0 {
        let mut m = String::from_str("nothing matches ");
        m.append(quoted(prefix).as_str());
        return DoneStep::Nothing(m);
    }
    if matches.len() == 1 {
        let it = &matches[0];
        let mut reply = String::from_str("done: ");
        reply.append(it.title.as_str());
        return DoneStep::Tick {
            id: it.id.clone(),
            on: if it.recurs {
                Some(today)
            } else {
                None
            },
            reply,
        };
    }
    let mut m = quoted(prefix);
    m.append(" matches ");
    m.append(crate::import::dec_usize(matches.len()).as_str());
    m.append(":\n");
    let shown_n: usize = if matches.len() < 10 { matches.len() } else { 10 };
    let ghost head = m@;
    let mut i: usize = 0;
    while i < shown_n
        invariant
            i <= shown_n,
            shown_n <= matches.len(),
            m@ == head + match_lines(matches@.take(i as int)),
        decreases shown_n - i,
    {
        assert(matches@.take(i + 1).drop_last() =~= matches@.take(i as int));
        m.append("\u{b7} ");
        m.append(matches[i].title.as_str());
        m.append("\n");
        i = i + 1;
    }
    m.append("\nbe more specific");
    assert(matches@.take(shown_n as int) =~= matches@.take(if matches.len() < 10 { matches.len() as int } else { 10 }));
    DoneStep::Ambiguous(m)
}

/// What was made of a capture: its title, when it is due, how it repeats, its estimate.
pub open spec fn added_text(lead: Seq<char>, it: Item, byday: Seq<Seq<char>>, zone: Seq<char>) -> Seq<char> {
    lead + ": "@ + it.title@ + match it.due_at {
        Some(d) => "\ndue "@ + when_label(d.secs, zone),
        None => Seq::empty(),
    } + (if it.recurs {
        "\nrepeats "@ + joined(byday, ", "@)
    } else {
        Seq::empty()
    }) + match it.estimate_min {
        Some(m) => "\nestimate "@ + mins_text(m),
        None => Seq::empty(),
    }
}

/// What was made of a capture, after `lead` (`added`, `filed as it was`).
pub fn added_reply(lead: &str, it: &Item, byday: &Vec<String>, zone: &Zone) -> (r: String)
    requires
        it.due_at matches Some(d) ==> utc_ok(d.secs as int),
    ensures
        r@ == added_text(lead@, *it, byday@.map_values(|s: String| s@), zone@),
{
    let mut out = String::from_str(lead);
    out.append(": ");
    out.append(it.title.as_str());
    if let Some(d) = it.due_at {
        out.append("\ndue ");
        out.append(when_label_of(d.secs, zone).as_str());
    }
    if it.recurs {
        out.append("\nrepeats ");
        out.append(join_with(byday, ", ").as_str());
    }
    if let Some(m) = it.estimate_min {
        out.append("\nestimate ");
        out.append(fmt_mins(m).as_str());
    }
    out
}

/// The reply to a capture sent whole: what was made of it, a hint when nothing
/// in it was read as a detail, and the estimate ratio once there is one to give.
pub open spec fn capture_text(it: Item, p: ParsedV, phrase: Option<Seq<char>>, zone: Seq<char>) -> Seq<char> {
    added_text("added"@, it, p.byday, zone) + (if p.consumed.len() == 0 {
        "\n\n(no syntax recognised \u{2014} saved as plain text. send `help` for the syntax)"@
    } else {
        Seq::empty()
    }) + match phrase {
        Some(ph) => "\n\nfyi: things take "@ + ph + " than you estimate"@,
        None => Seq::empty(),
    }
}

pub fn capture_reply(it: &Item, p: &Parsed, phrase: Option<&str>, zone: &Zone) -> (r: String)
    requires
        it.due_at matches Some(d) ==> utc_ok(d.secs as int),
    ensures
        r@ == capture_text(
            *it,
            p@,
            match phrase {
                Some(x) => Some(x@),
                None => None,
            },
            zone@,
        ),
{
    let mut out = added_reply("added", it, &p.byday, zone);
    if p.consumed.len() == 0 {
        out.append("\n\n(no syntax recognised \u{2014} saved as plain text. send `help` for the syntax)");
    }
    if let Some(ph) = phrase {
        out.append("\n\nfyi: things take ");
        out.append(ph);
        out.append(" than you estimate");
    }
    out
}

/// The estimate ratio in a sentence, or why there is none yet.
pub open spec fn stats_line_spec(s: crate::stats::Stats) -> Seq<char> {
    match s.phrase {
        Some(p) => p@ + " than you estimate  (from "@ + dec(s.n as nat) + " items)"@,
        None => if s.n == 0 {
            "nothing timed against an estimate yet"@
        } else {
            "not enough data yet \u{2014} "@ + dec(s.n as nat)
                + " item(s) timed, need 5 before this means anything"@
        },
    }
}

pub fn stats_line(s: &crate::stats::Stats) -> (r: String)
    ensures
        r@ == stats_line_spec(*s),
{
    match &s.phrase {
        Some(p) => {
            let mut out = p.clone();
            out.append(" than you estimate  (from ");
            out.append(crate::import::dec_usize(s.n).as_str());
            out.append(" items)");
            out
        },
        None => if s.n == 0 {
            String::from_str("nothing timed against an estimate yet")
        } else {
            let mut out = String::from_str("not enough data yet \u{2014} ");
            out.append(crate::import::dec_usize(s.n).as_str());
            out.append(" item(s) timed, need 5 before this means anything");
            out
        },
    }
}

/// One open item on the command line: `  [ ] title  due Wed 02 Sep  ~1h`.
pub open spec fn open_line_spec(it: Item, zone: Seq<char>) -> Seq<char> {
    "  [ ] "@ + it.title@ + match it.due_at {
        Some(d) => match day_in(d.secs, zone) {
            Some(x) => "  due "@ + day_label_spec(x),
            None => Seq::empty(),
        },
        None => Seq::empty(),
    } + match it.estimate_min {
        Some(m) => "  ~"@ + mins_text(m),
        None => Seq::empty(),
    }
}

pub fn open_line(it: &Item, zone: &Zone) -> (r: String)
    requires
        it.due_at matches Some(d) ==> utc_ok(d.secs as int),
    ensures
        r@ == open_line_spec(*it, zone@),
{
    let mut out = String::from_str("  [ ] ");
    out.append(it.title.as_str());
    if let Some(d) = it.due_at {
        if let Some(x) = day_in_of(d.secs, zone) {
            out.append("  due ");
            out.append(day_label(&x).as_str());
        }
    }
    if let Some(m) = it.estimate_min {
        out.append("  ~");
        out.append(fmt_mins(m).as_str());
    }
    out
}

/// One block of `sched week`: its times, its title, and the zone it is fixed
/// to when that zone shows a different clock.
pub open spec fn block_line_spec(p: crate::model::PlacementV, items: Seq<Item>) -> Seq<char> {
    "      "@ + clock_of(p.starts_at) + "-"@ + clock_of(p.ends_at) + "  "@ + title_for(items, p.item_id)
        + " "@ + if p.foreign {
        match p.pinned_tz {
            Some(z) => z,
            None => Seq::empty(),
        }
    } else {
        Seq::empty()
    }
}

pub fn block_line(p: &crate::model::Placement, items: &Vec<Item>) -> (r: String)
    requires
        crate::expand::stamps_ok(p@),
    ensures
        r@ == block_line_spec(p@, items@),
{
    let mut out = String::from_str("      ");
    out.append(clock_label(&p.starts_at).as_str());
    out.append("-");
    out.append(clock_label(&p.ends_at).as_str());
    out.append("  ");
    out.append(title_of(items, p.item_id.as_str()).as_str());
    out.append(" ");
    if p.foreign {
        if let Some(z) = &p.pinned_tz {
            out.append(z.as_str());
        }
    }
    out
}

/// Add a date to a stored exception list: the pieces trimmed, blanks dropped,
/// the date appended unless it is already there, joined by commas.
pub open spec fn with_exception(existing: Seq<char>, date: Seq<char>) -> Seq<char> {
    let ds = crate::store::tag_list(crate::text::split_on(existing, ','));
    crate::store::comma_join(if ds.contains(date) { ds } else { ds.push(date) })
}

pub fn add_exception(existing: &str, date: &str) -> (r: String)
    ensures
        r@ == with_exception(existing@, date@),
{
    let mut ds = crate::store::split_tags(existing);
    let ghost dv = ds@.map_values(|s: String| s@);
    let mut found = false;
    let mut i: usize = 0;
    while i < ds.len()
        invariant
            i <= ds.len(),
            dv == ds@.map_values(|s: String| s@),
            found == exists|k: int| 0 <= k < i && dv[k] == date@,
        decreases ds.len() - i,
    {
        assert(dv[i as int] == ds@[i as int]@);
        if ds[i].as_str().to_owned() == date.to_owned() {
            found = true;
        }
        i = i + 1;
        assert(found == exists|k: int| 0 <= k < i && dv[k] == date@) by {
            if dv[i - 1] == date@ {
                assert(0 <= i - 1 < i && dv[i - 1] == date@);
            }
        }
    }
    assert(found == dv.contains(date@));
    if !found {
        ds.push(date.to_owned());
        assert(ds@.map_values(|s: String| s@) =~= dv.push(date@));
    }
    crate::store::join_commas(&ds)
}

/// The machine's zone when chrono-tz knows its name, else UTC, which it
/// always knows.
pub fn pick_zone(machine: Option<&str>) -> (r: Option<Zone>)
    ensures
        match machine {
            Some(n) => if tz_known(n@) {
                r matches Some(z) && z@ == n@
            } else {
                r matches Some(z) ==> z@ == "UTC"@
            },
            None => r matches Some(z) ==> z@ == "UTC"@,
        },
        r is Some,
{
    if let Some(n) = machine {
        if let Some(z) = Zone::named(n) {
            return Some(z);
        }
    }
    Zone::named("UTC")
}
/// `names` appended to `have`, each unless already there.
pub open spec fn add_new(have: Seq<Seq<char>>, names: Seq<Seq<char>>) -> Seq<Seq<char>>
    decreases names.len(),
{
    if names.len() == 0 {
        have
    } else {
        let before = add_new(have, names.drop_last());
        if before.contains(names.last()) {
            before
        } else {
            before.push(names.last())
        }
    }
}

/// The places travelled between, offered whether or not anything uses them.
pub open spec fn travel_zones() -> Seq<Seq<char>> {
    seq!["America/Chicago"@, "Europe/Paris"@, "Asia/Beirut"@]
}

fn add_names(out: &mut Vec<String>, names: &Vec<String>)
    ensures
        final(out)@.map_values(|s: String| s@) == add_new(
            old(out)@.map_values(|s: String| s@),
            names@.map_values(|s: String| s@),
        ),
{
    let ghost start = out@.map_values(|s: String| s@);
    let ghost ns = names@.map_values(|s: String| s@);
    let mut i: usize = 0;
    while i < names.len()
        invariant
            i <= names.len(),
            ns == names@.map_values(|s: String| s@),
            out@.map_values(|s: String| s@) == add_new(start, ns.take(i as int)),
        decreases names.len() - i,
    {
        let ghost cur = out@.map_values(|s: String| s@);
        assert(ns.take(i + 1).drop_last() =~= ns.take(i as int));
        assert(ns.take(i + 1).last() == names@[i as int]@);
        let mut found = false;
        let mut j: usize = 0;
        while j < out.len()
            invariant
                j <= out.len(),
                i < names.len(),
                cur == out@.map_values(|s: String| s@),
                found == exists|k: int| 0 <= k < j && cur[k] == names@[i as int]@,
            decreases out.len() - j,
        {
            assert(cur[j as int] == out@[j as int]@);
            if out[j] == names[i] {
                found = true;
            }
            j = j + 1;
        }
        assert(found == cur.contains(names@[i as int]@)) by {
            if cur.contains(names@[i as int]@) {
                let k = choose|k: int| 0 <= k < cur.len() && cur[k] == names@[i as int]@;
                assert(cur[k] == names@[i as int]@);
            }
        }
        if !found {
            out.push(names[i].clone());
            assert(out@.map_values(|s: String| s@) =~= cur.push(names@[i as int]@));
        }
        i = i + 1;
    }
    assert(ns.take(names.len() as int) =~= ns);
}

/// Zones offered in the picker: where you are now, then the places travelled
/// between, then the ones rules already use, each once.
pub fn zone_choices(here: &Zone, in_use: &Vec<String>) -> (r: Vec<String>)
    ensures
        r@.map_values(|s: String| s@) == add_new(
            add_new(seq![here@], travel_zones()),
            in_use@.map_values(|s: String| s@),
        ),
{
    let mut out: Vec<String> = Vec::new();
    out.push(here.name().to_owned());
    let mut travel: Vec<String> = Vec::new();
    travel.push(String::from_str("America/Chicago"));
    travel.push(String::from_str("Europe/Paris"));
    travel.push(String::from_str("Asia/Beirut"));
    assert(out@.map_values(|s: String| s@) =~= seq![here@]);
    assert(travel@.map_values(|s: String| s@) =~= travel_zones());
    add_names(&mut out, &travel);
    add_names(&mut out, in_use);
    out
}

} // verus!
