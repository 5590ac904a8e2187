//! Repeating once a month, on the same day of the month.
//!
//! A day a month does not have -- the 31st in September, the 30th in
//! February -- lands on that month's last day rather than skipping the month:
//! a bill due "on the 31st" is still due in a thirty-day month.

use ms_core::calendar::{Date, Time};
use ms_core::compose::{self, Fields};
use ms_core::rules::RawRule;
use ms_core::{get_days, parse, Snapshot, Stamp, Zone};
use chrono::{DateTime, Datelike, FixedOffset, NaiveDate};

/// An instant read from RFC 3339 text.
fn parse_stamp(s: &str) -> Option<Stamp> {
    let t = DateTime::parse_from_rfc3339(s).ok()?;
    Some(Stamp { secs: t.timestamp(), nanos: t.timestamp_subsec_nanos(), offset: t.offset().local_minus_utc() })
}

/// A calendar date read from `YYYY-MM-DD` text.
fn parse_ymd(s: &str) -> Option<Date> {
    let n = NaiveDate::parse_from_str(s, "%Y-%m-%d").ok()?;
    Some(Date { year: n.year(), month: n.month(), day: n.day() })
}

/// A date some days later.
fn plus_days(d: &Date, n: i64) -> Option<Date> {
    let x = NaiveDate::from_ymd_opt(d.year, d.month, d.day)?.checked_add_signed(chrono::Duration::days(n))?;
    Some(Date { year: x.year(), month: x.month(), day: x.day() })
}

/// An instant written as RFC 3339 text in its own offset.
fn rfc3339(st: &Stamp) -> String {
    let off = FixedOffset::east_opt(st.offset).unwrap();
    DateTime::from_timestamp(st.secs, st.nanos).unwrap().with_timezone(&off).to_rfc3339()
}

fn d(s: &str) -> Date {
    parse_ymd(s).unwrap()
}

fn zone(name: &str) -> Zone {
    Zone::named(name).unwrap()
}

fn empty_store() -> Snapshot {
    Snapshot { rules: Vec::new(), rules_error: None, placements: Vec::new(), placements_unreadable: false }
}

/// A weekly rule as the store holds it, written directly so these tests
/// exercise expansion rather than any insert path.
fn add_recurring(db: &mut Snapshot, id: &str, byday: &str, start: &str, end: &str, from: &str, tz: Option<&str>) {
    db.rules.push(RawRule {
        item_id: id.to_string(),
        byday: byday.to_string(),
        monthday: None,
        start_time: start.to_string(),
        end_time: end.to_string(),
        tz: tz.map(str::to_string),
        from_date: from.to_string(),
        until_date: None,
        except_on: String::new(),
    });
}

fn rule_mut<'a>(db: &'a mut Snapshot, id: &str) -> &'a mut RawRule {
    db.rules.iter_mut().find(|r| r.item_id == id).unwrap()
}

fn rfc(st: &Stamp) -> String {
    rfc3339(st)
}

fn hm(st: &Stamp) -> String {
    ms_core::render::clock_label(st)
}

fn minutes(p: &ms_core::Placement) -> i64 {
    (p.ends_at.secs - p.starts_at.secs) / 60
}

fn stamp(s: &str) -> Stamp {
    parse_stamp(s).unwrap()
}

/// Store a typed line the way the store does: the item's rule, if it repeats,
/// becomes a stored rule under a fresh id.
fn add_from_text_in(db: &mut Snapshot, text: &str, today: Date, now: Stamp, zone: &Zone) -> ms_core::NewItem {
    let item = ms_core::plan_from_text(text, today, now, zone).expect("inside the calendar");
    if let Some(rule) = &item.rule {
        db.rules.push(RawRule {
            item_id: format!("itm_{}", db.rules.len()),
            byday: rule.byday.clone(),
            monthday: rule.monthday.map(|m| m as i64),
            start_time: rule.start_time.clone(),
            end_time: rule.end_time.clone(),
            tz: rule.tz.clone(),
            from_date: rule.from_date.clone(),
            until_date: None,
            except_on: String::new(),
        });
    }
    item
}

/// A Monday, and the 31st -- which is what makes the clamping cases bite.
fn today() -> Date {
    d("2026-08-31")
}

fn now() -> Stamp {
    stamp("2026-08-31T12:00:00Z")
}

/// Every date in [from, to] that has a block on it.
fn occurrences(db: &Snapshot, from: &str, to: &str) -> Vec<Date> {
    let (mut start, end) = (d(from), d(to));
    let mut out = Vec::new();
    let key = |x: &Date| (x.year, x.month, x.day);
    while key(&start) <= key(&end) {
        for day in get_days(db, start, &zone("America/Chicago")).days {
            if key(&day.date) <= key(&end) && !day.placements.is_empty() && !out.contains(&day.date) {
                out.push(day.date);
            }
        }
        start = plus_days(&start, 7).unwrap();
    }
    out
}

#[test]
fn monthly_with_a_date_repeats_on_that_day_of_the_month() {
    let p = parse("rent monthly 01/10/2026", today());
    assert_eq!(p.title, "rent");
    assert!(p.repeats);
    assert_eq!(p.monthday, Some(1));
    assert_eq!(p.repeat_from, Some(d("2026-10-01")), "starts on the date given");
    assert!(p.byday.is_empty(), "not a weekly rule");
    assert_eq!(p.due, None, "a repeat has no single deadline");
}

#[test]
fn monthly_without_a_date_uses_todays_day_of_the_month() {
    let p = parse("water the plants monthly", today());
    assert_eq!(p.title, "water the plants");
    assert!(p.repeats);
    assert_eq!(p.monthday, Some(31));
    assert_eq!(p.repeat_from, None, "no date was given; the caller decides where it starts");
}

#[test]
fn prose_containing_the_word_is_left_alone() {
    let p = parse("read the monthly report", today());
    assert_eq!(p.title, "read the monthly report", "not at the end, so not a detail");
    assert!(!p.repeats);
}

#[test]
fn a_monthly_block_lands_once_a_month_and_not_before_it_starts() {
    let mut db = empty_store();
    add_from_text_in(&mut db, "rent monthly 01/10/2026 09:00", today(), now(), &zone("America/Chicago"));
    assert_eq!(
        occurrences(&db, "2026-09-01", "2026-12-31"),
        vec![d("2026-10-01"), d("2026-11-01"), d("2026-12-01")],
    );
}

#[test]
fn a_day_the_month_does_not_have_lands_on_its_last_day() {
    let mut db = empty_store();
    add_from_text_in(&mut db, "bills monthly 31/08/2026 09:00", today(), now(), &zone("America/Chicago"));
    assert_eq!(
        occurrences(&db, "2026-08-01", "2027-03-31"),
        vec![
            d("2026-08-31"), d("2026-09-30"), d("2026-10-31"), d("2026-11-30"),
            d("2026-12-31"), d("2027-01-31"), d("2027-02-28"), d("2027-03-31"),
        ],
    );
}

#[test]
fn monthly_round_trips_through_the_composer() {
    let f = Fields {
        title: "rent".into(),
        monthly: true,
        date: Some(d("2026-10-01")),
        at: Some(Time { hour: 9, minute: 0 }),
        ..Fields::default()
    };
    let text = compose::line(&f);
    assert!(text.contains("monthly"), "{text:?}");
    let p = parse(&text, today());
    assert_eq!(p.title, "rent", "{text:?}");
    assert_eq!(p.monthday, Some(1), "{text:?}");
    assert_eq!(p.repeat_from, Some(d("2026-10-01")), "{text:?}");
}

/// Contradictory, so the explicit cadence wins and the weekdays are dropped,
/// rather than producing a rule that means neither.
#[test]
fn monthly_beats_weekdays() {
    let p = parse("x every tue monthly", today());
    assert_eq!(p.monthday, Some(31));
    assert!(p.byday.is_empty(), "{:?}", p.byday);
}

/// The example the help text gives. A written-out date followed by a time
/// used to lose both the day and the time.
#[test]
fn the_help_example_is_read_whole() {
    let p = parse("rent monthly 1 oct 9am", today());
    assert_eq!(p.title, "rent");
    assert_eq!(p.monthday, Some(1));
    assert_eq!(p.at, Some(Time { hour: 9, minute: 0 }));
}
