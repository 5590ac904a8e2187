use ms_core::calendar::Date;
use ms_core::rules::RawRule;
use ms_core::{get_week, Snapshot, Stamp, Zone};
use chrono::{DateTime, Datelike, FixedOffset, NaiveDate};

/// A calendar date read from `YYYY-MM-DD` text.
fn parse_ymd(s: &str) -> Option<Date> {
    let n = NaiveDate::parse_from_str(s, "%Y-%m-%d").ok()?;
    Some(Date { year: n.year(), month: n.month(), day: n.day() })
}

/// An instant written as RFC 3339 text in its own offset.
fn rfc3339(st: &Stamp) -> String {
    let off = FixedOffset::east_opt(st.offset).unwrap();
    DateTime::from_timestamp(st.secs, st.nanos).unwrap().with_timezone(&off).to_rfc3339()
}

fn d(s: &str) -> Date {
    parse_ymd(s).unwrap()
}

fn zone(name: &str) -> Zone {
    Zone::named(name).unwrap()
}

fn empty_store() -> Snapshot {
    Snapshot { rules: Vec::new(), rules_error: None, placements: Vec::new(), placements_unreadable: false }
}

/// A weekly rule as the store holds it, written directly so these tests
/// exercise expansion rather than any insert path.
fn add_recurring(db: &mut Snapshot, id: &str, byday: &str, start: &str, end: &str, from: &str, tz: Option<&str>) {
    db.rules.push(RawRule {
        item_id: id.to_string(),
        byday: byday.to_string(),
        monthday: None,
        start_time: start.to_string(),
        end_time: end.to_string(),
        tz: tz.map(str::to_string),
        from_date: from.to_string(),
        until_date: None,
        except_on: String::new(),
    });
}

fn rule_mut<'a>(db: &'a mut Snapshot, id: &str) -> &'a mut RawRule {
    db.rules.iter_mut().find(|r| r.item_id == id).unwrap()
}

fn rfc(st: &Stamp) -> String {
    rfc3339(st)
}

fn hm(st: &Stamp) -> String {
    ms_core::render::clock_label(st)
}

fn minutes(p: &ms_core::Placement) -> i64 {
    (p.ends_at.secs - p.starts_at.secs) / 60
}

// A deleted item's rule goes with it: the store cascades the delete, so the
// rule is simply not among the rows read.
#[test]
fn probe_a_deleted_item_stops_rendering() {
    let mut db = empty_store();
    add_recurring(&mut db, "gone", "mon", "09:00", "10:00", "2026-08-01", None);
    db.rules.retain(|r| r.item_id != "gone");

    let week = get_week(&db, d("2026-08-31"), &zone("America/Chicago"));
    assert!(week.days[0].placements.is_empty(), "orphaned rule still renders");
}

// B1: an event spanning the fall-back hour keeps both its length and its times.
#[test]
fn probe_b1_fall_back_keeps_both_duration_and_labels() {
    let mut db = empty_store();
    add_recurring(&mut db, "night", "sun", "01:30", "02:30", "2026-01-01", Some("America/Chicago"));

    let week = get_week(&db, d("2026-10-26"), &zone("America/Chicago"));
    let p = &week.days[6].placements[0];

    let mins = minutes(p);
    assert_eq!(mins, 60, "01:30-02:30 is an hour, got {mins} min");
    assert_eq!(hm(&p.starts_at), "01:30");
    assert_eq!(hm(&p.ends_at), "02:30", "the tile must read what was written");
}

// The mirror case: an event ending inside the repeated hour.
#[test]
fn probe_b3_event_ending_in_the_repeated_hour() {
    let mut db = empty_store();
    add_recurring(&mut db, "late", "sun", "00:30", "01:30", "2026-01-01", Some("America/Chicago"));

    let week = get_week(&db, d("2026-10-26"), &zone("America/Chicago"));
    let p = &week.days[6].placements[0];

    assert_eq!(minutes(p), 60);
    assert_eq!(hm(&p.starts_at), "00:30");
    assert_eq!(hm(&p.ends_at), "01:30");
}

// B2: an event wholly inside the spring-forward gap must not become zero-length.
#[test]
fn probe_b2_spring_gap_not_zero_length() {
    let mut db = empty_store();
    add_recurring(&mut db, "ghost", "sun", "02:00", "02:30", "2026-01-01", Some("America/Chicago"));

    let week = get_week(&db, d("2026-03-02"), &zone("America/Chicago"));
    let p = &week.days[6].placements[0];
    let mins = minutes(p);
    assert!(mins > 0, "placement collapsed to {mins} minutes");
}

// C: a non-Monday anchor must not silently produce a misaligned week.
#[test]
fn probe_c_non_monday_anchor_is_normalised() {
    let mut db = empty_store();
    add_recurring(&mut db, "math210", "mon", "09:00", "10:00", "2026-08-01", None);

    let week = get_week(&db, d("2026-09-02"), &zone("America/Chicago"));
    assert_eq!(week.days[0].date, d("2026-08-31"), "week should start on Monday");
}

// D: an unreadable store must report, not return a silently empty week.
#[test]
fn probe_d_unreadable_store_reports() {
    let mut db = empty_store();
    db.rules_error = Some("no such table: recurrence".to_string());

    let week = get_week(&db, d("2026-08-31"), &zone("America/Chicago"));
    assert_eq!(week.days.len(), 7, "still total");
    assert!(!week.diagnostics.is_empty(), "an unreadable store must be reported, not silent");
}

// E: a malformed except_on entry should be reported.
#[test]
fn probe_e_malformed_except_entry_reports() {
    let mut db = empty_store();
    add_recurring(&mut db, "math210", "mon", "09:00", "10:00", "2026-08-01", None);
    rule_mut(&mut db, "math210").except_on = "not-a-date".to_string();

    let week = get_week(&db, d("2026-08-31"), &zone("America/Chicago"));
    assert_eq!(week.days[0].placements.len(), 1, "rest of the rule still expands");
    assert!(!week.diagnostics.is_empty(), "malformed exception entry must be reported");
}

// F: "total for any input" includes the ends of the calendar.
#[test]
fn probe_f_extreme_anchor_does_not_panic() {
    let mut db = empty_store();
    add_recurring(&mut db, "math210", "mon", "09:00", "10:00", "2026-08-01", None);

    let late = get_week(&db, Date { year: 262142, month: 12, day: 31 }, &zone("America/Chicago"));
    assert_eq!(late.days.len(), 7);
    let early = get_week(&db, Date { year: -262143, month: 1, day: 1 }, &zone("America/Chicago"));
    assert_eq!(early.days.len(), 7);
}

// G: an alias naming the same zone is not "foreign".
#[test]
fn probe_g_zone_alias_is_not_foreign() {
    let mut db = empty_store();
    add_recurring(&mut db, "math210", "mon", "09:00", "10:00", "2026-08-01", Some("US/Central"));

    let week = get_week(&db, d("2026-08-31"), &zone("America/Chicago"));
    let p = &week.days[0].placements[0];
    assert!(!p.foreign, "US/Central is America/Chicago; marking it foreign is a false alarm");
}

// H: a duplicated weekday must not double-book the same item.
#[test]
fn probe_h_repeated_weekday_places_once() {
    let mut db = empty_store();
    add_recurring(&mut db, "math210", "mon,mon,MON", "09:00", "10:00", "2026-08-01", None);

    let week = get_week(&db, d("2026-08-31"), &zone("America/Chicago"));
    assert_eq!(week.days[0].placements.len(), 1);
}
