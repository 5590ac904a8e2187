//! The window shows yesterday, today and the five after, so seven days can
//! start on any day of the week.

use ms_core::calendar::Date;
use ms_core::rules::RawRule;
use ms_core::{get_days, get_week, Snapshot, Stamp, Zone};
use chrono::{DateTime, Datelike, FixedOffset, NaiveDate};

/// An instant read from RFC 3339 text.
fn parse_stamp(s: &str) -> Option<Stamp> {
    let t = DateTime::parse_from_rfc3339(s).ok()?;
    Some(Stamp { secs: t.timestamp(), nanos: t.timestamp_subsec_nanos(), offset: t.offset().local_minus_utc() })
}

/// A calendar date read from `YYYY-MM-DD` text.
fn parse_ymd(s: &str) -> Option<Date> {
    let n = NaiveDate::parse_from_str(s, "%Y-%m-%d").ok()?;
    Some(Date { year: n.year(), month: n.month(), day: n.day() })
}

/// A date some days later.
fn plus_days(d: &Date, n: i64) -> Option<Date> {
    let x = NaiveDate::from_ymd_opt(d.year, d.month, d.day)?.checked_add_signed(chrono::Duration::days(n))?;
    Some(Date { year: x.year(), month: x.month(), day: x.day() })
}

/// An instant written as RFC 3339 text in its own offset.
fn rfc3339(st: &Stamp) -> String {
    let off = FixedOffset::east_opt(st.offset).unwrap();
    DateTime::from_timestamp(st.secs, st.nanos).unwrap().with_timezone(&off).to_rfc3339()
}

fn d(s: &str) -> Date {
    parse_ymd(s).unwrap()
}

fn zone(name: &str) -> Zone {
    Zone::named(name).unwrap()
}

fn empty_store() -> Snapshot {
    Snapshot { rules: Vec::new(), rules_error: None, placements: Vec::new(), placements_unreadable: false }
}

/// A weekly rule as the store holds it, written directly so these tests
/// exercise expansion rather than any insert path.
fn add_recurring(db: &mut Snapshot, id: &str, byday: &str, start: &str, end: &str, from: &str, tz: Option<&str>) {
    db.rules.push(RawRule {
        item_id: id.to_string(),
        byday: byday.to_string(),
        monthday: None,
        start_time: start.to_string(),
        end_time: end.to_string(),
        tz: tz.map(str::to_string),
        from_date: from.to_string(),
        until_date: None,
        except_on: String::new(),
    });
}

fn rule_mut<'a>(db: &'a mut Snapshot, id: &str) -> &'a mut RawRule {
    db.rules.iter_mut().find(|r| r.item_id == id).unwrap()
}

fn rfc(st: &Stamp) -> String {
    rfc3339(st)
}

fn hm(st: &Stamp) -> String {
    ms_core::render::clock_label(st)
}

fn minutes(p: &ms_core::Placement) -> i64 {
    (p.ends_at.secs - p.starts_at.secs) / 60
}

fn stamp(s: &str) -> Stamp {
    parse_stamp(s).unwrap()
}

/// Store a typed line the way the store does: the item's rule, if it repeats,
/// becomes a stored rule under a fresh id.
fn add_from_text_in(db: &mut Snapshot, text: &str, today: Date, now: Stamp, zone: &Zone) -> ms_core::NewItem {
    let item = ms_core::plan_from_text(text, today, now, zone).expect("inside the calendar");
    if let Some(rule) = &item.rule {
        db.rules.push(RawRule {
            item_id: format!("itm_{}", db.rules.len()),
            byday: rule.byday.clone(),
            monthday: rule.monthday.map(|m| m as i64),
            start_time: rule.start_time.clone(),
            end_time: rule.end_time.clone(),
            tz: rule.tz.clone(),
            from_date: rule.from_date.clone(),
            until_date: None,
            except_on: String::new(),
        });
    }
    item
}

fn now() -> Stamp {
    stamp("2026-08-31T12:00:00Z")
}

#[test]
fn a_window_starts_exactly_where_it_is_asked_to() {
    let db = empty_store();
    let week = get_days(&db, d("2026-09-09"), &zone("America/Chicago"));
    let dates: Vec<Date> = week.days.iter().map(|x| x.date).collect();
    assert_eq!(dates.len(), 7);
    assert_eq!(dates[0], d("2026-09-09"), "no snapping back to Monday");
    for pair in dates.windows(2) {
        assert_eq!(Some(pair[1]), plus_days(&pair[0], 1), "consecutive days: {dates:?}");
    }
    assert_eq!(week.anchor, d("2026-09-09"));
}

#[test]
fn a_repeat_lands_on_its_own_days_whatever_the_window_starts_on() {
    let mut db = empty_store();
    add_from_text_in(&mut db, "PHYS201 every mon wed 10:30-12:00", d("2026-08-31"), now(), &zone("America/Chicago"));
    let week = get_days(&db, d("2026-09-08"), &zone("America/Chicago"));
    let counts: Vec<usize> = week.days.iter().map(|x| x.placements.len()).collect();
    assert_eq!(counts, vec![0, 1, 0, 0, 0, 0, 1]);
}

#[test]
fn get_week_still_snaps_to_monday() {
    let db = empty_store();
    assert_eq!(get_week(&db, d("2026-09-09"), &zone("America/Chicago")).days[0].date, d("2026-09-07"));
}

#[test]
fn a_window_at_either_end_of_the_calendar_is_clamped_not_a_panic() {
    let db = empty_store();
    let late = get_days(&db, Date { year: 262142, month: 12, day: 31 }, &zone("America/Chicago"));
    assert_eq!(late.days.len(), 7);
    assert!(!late.diagnostics.is_empty(), "the clamp is reported, not silent");
    assert_eq!(get_days(&db, Date { year: -262143, month: 1, day: 1 }, &zone("America/Chicago")).days.len(), 7);
}

#[test]
fn the_window_starts_yesterday_unless_asked() {
    let today = ms_core::calendar::Date { year: 2026, month: 9, day: 1 };
    assert_eq!(ms_core::expand::window_start(None, today), ms_core::calendar::Date { year: 2026, month: 8, day: 31 });
    let asked = ms_core::calendar::Date { year: 2026, month: 12, day: 25 };
    assert_eq!(ms_core::expand::window_start(Some(asked), today), asked);
}
