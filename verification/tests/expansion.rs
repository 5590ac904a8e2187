use ms_core::calendar::Date;
use ms_core::rules::RawRule;
use ms_core::{get_week, Snapshot, Stamp, StoredRow, Zone};
use chrono::{DateTime, Datelike, FixedOffset, NaiveDate};

/// A calendar date read from `YYYY-MM-DD` text.
fn parse_ymd(s: &str) -> Option<Date> {
    let n = NaiveDate::parse_from_str(s, "%Y-%m-%d").ok()?;
    Some(Date { year: n.year(), month: n.month(), day: n.day() })
}

/// An instant written as RFC 3339 text in its own offset.
fn rfc3339(st: &Stamp) -> String {
    let off = FixedOffset::east_opt(st.offset).unwrap();
    DateTime::from_timestamp(st.secs, st.nanos).unwrap().with_timezone(&off).to_rfc3339()
}

fn d(s: &str) -> Date {
    parse_ymd(s).unwrap()
}

fn zone(name: &str) -> Zone {
    Zone::named(name).unwrap()
}

fn empty_store() -> Snapshot {
    Snapshot { rules: Vec::new(), rules_error: None, placements: Vec::new(), placements_unreadable: false }
}

/// A weekly rule as the store holds it, written directly so these tests
/// exercise expansion rather than any insert path.
fn add_recurring(db: &mut Snapshot, id: &str, byday: &str, start: &str, end: &str, from: &str, tz: Option<&str>) {
    db.rules.push(RawRule {
        item_id: id.to_string(),
        byday: byday.to_string(),
        monthday: None,
        start_time: start.to_string(),
        end_time: end.to_string(),
        tz: tz.map(str::to_string),
        from_date: from.to_string(),
        until_date: None,
        except_on: String::new(),
    });
}

fn rule_mut<'a>(db: &'a mut Snapshot, id: &str) -> &'a mut RawRule {
    db.rules.iter_mut().find(|r| r.item_id == id).unwrap()
}

fn rfc(st: &Stamp) -> String {
    rfc3339(st)
}

fn hm(st: &Stamp) -> String {
    ms_core::render::clock_label(st)
}

fn minutes(p: &ms_core::Placement) -> i64 {
    (p.ends_at.secs - p.starts_at.secs) / 60
}

fn set_except(db: &mut Snapshot, id: &str, csv: &str) {
    rule_mut(db, id).except_on = csv.to_string();
}

fn set_until(db: &mut Snapshot, id: &str, until: &str) {
    rule_mut(db, id).until_date = Some(until.to_string());
}

/// A one-off block, checked as storing one is.
fn add_placement(db: &mut Snapshot, id: &str, item_id: &str, starts_at: &str, ends_at: &str) {
    ms_core::store::check_block(starts_at, ends_at).unwrap();
    db.placements.push(StoredRow {
        id: id.to_string(),
        item_id: item_id.to_string(),
        starts_at: starts_at.to_string(),
        ends_at: ends_at.to_string(),
        origin: "oneoff".to_string(),
        moved_from: None,
    });
}

#[test]
fn weekly_rule_places_only_on_its_days() {
    let mut db = empty_store();
    add_recurring(&mut db, "math210", "mon,wed", "09:00", "10:15", "2026-08-01", Some("America/Chicago"));

    let week = get_week(&db, d("2026-08-31"), &zone("America/Chicago"));

    let counts: Vec<usize> = week.days.iter().map(|day| day.placements.len()).collect();
    assert_eq!(counts, vec![1, 0, 1, 0, 0, 0, 0], "expected placements on Mon and Wed only");
}

#[test]
fn pinned_item_is_emitted_in_the_viewing_zone() {
    let mut db = empty_store();
    add_recurring(&mut db, "math210", "wed", "12:00", "13:00", "2026-08-01", Some("America/Chicago"));

    let week = get_week(&db, d("2026-08-31"), &zone("Asia/Beirut"));
    let p = &week.days[2].placements[0];

    assert_eq!(rfc(&p.starts_at), "2026-09-02T20:00:00+03:00");
    assert!(p.foreign, "pinned to a zone other than the viewing zone");
    assert_eq!(p.pinned_tz.as_deref(), Some("America/Chicago"));
}

#[test]
fn systime_item_keeps_its_wall_clock_in_every_zone() {
    let mut db = empty_store();
    add_recurring(&mut db, "wake", "mon", "08:00", "08:30", "2026-08-01", None);

    let austin = get_week(&db, d("2026-08-31"), &zone("America/Chicago"));
    let beirut = get_week(&db, d("2026-08-31"), &zone("Asia/Beirut"));

    assert_eq!(rfc(&austin.days[0].placements[0].starts_at), "2026-08-31T08:00:00-05:00");
    assert_eq!(rfc(&beirut.days[0].placements[0].starts_at), "2026-08-31T08:00:00+03:00");
    assert_ne!(austin.days[0].placements[0].starts_at.secs, beirut.days[0].placements[0].starts_at.secs);
    assert!(!austin.days[0].placements[0].foreign);
}

#[test]
fn unknown_zone_falls_back_to_systime_and_reports() {
    let mut db = empty_store();
    add_recurring(&mut db, "ghost", "mon", "09:00", "10:00", "2026-08-01", Some("Mars/Olympus"));

    let week = get_week(&db, d("2026-08-31"), &zone("America/Chicago"));

    assert_eq!(week.days[0].placements.len(), 1, "rule must still render");
    assert_eq!(rfc(&week.days[0].placements[0].starts_at), "2026-08-31T09:00:00-05:00");
    assert_eq!(week.diagnostics.len(), 1);
    assert!(
        week.diagnostics[0].message.contains("Mars/Olympus"),
        "diagnostic should name the bad zone, got: {}",
        week.diagnostics[0].message
    );
    assert_eq!(week.diagnostics[0].item_id.as_deref(), Some("ghost"));
}

#[test]
fn except_on_suppresses_that_date_only() {
    let mut db = empty_store();
    add_recurring(&mut db, "math210", "mon,wed", "09:00", "10:15", "2026-08-01", None);
    set_except(&mut db, "math210", "2026-09-02");

    let week = get_week(&db, d("2026-08-31"), &zone("America/Chicago"));

    let counts: Vec<usize> = week.days.iter().map(|day| day.placements.len()).collect();
    assert_eq!(counts, vec![1, 0, 0, 0, 0, 0, 0], "Wednesday excepted, Monday untouched");
    assert!(week.diagnostics.is_empty(), "excepting a date is not a diagnostic");
}

#[test]
fn spring_forward_gap_shifts_to_first_valid_instant() {
    let mut db = empty_store();
    add_recurring(&mut db, "early", "sun", "02:30", "03:30", "2026-01-01", Some("America/Chicago"));

    let week = get_week(&db, d("2026-03-02"), &zone("America/Chicago"));
    let sunday = &week.days[6];

    assert_eq!(sunday.date, d("2026-03-08"));
    assert_eq!(sunday.placements.len(), 1, "a nonexistent local time must not delete the item");
    assert_eq!(rfc(&sunday.placements[0].starts_at), "2026-03-08T03:00:00-05:00");
    assert!(
        week.diagnostics.iter().any(|x| x.message.contains("does not exist")),
        "the shift must be reported, got: {:?}",
        week.diagnostics
    );
}

#[test]
fn fall_back_prefers_the_reading_that_matches_what_was_written() {
    let mut db = empty_store();
    add_recurring(&mut db, "night", "sun", "01:30", "02:30", "2026-01-01", Some("America/Chicago"));

    let week = get_week(&db, d("2026-10-26"), &zone("America/Chicago"));
    let p = &week.days[6].placements[0];

    assert_eq!(rfc(&p.starts_at), "2026-11-01T01:30:00-06:00", "the second 01:30");
    assert_eq!(rfc(&p.ends_at), "2026-11-01T02:30:00-06:00");
    assert_eq!(minutes(p), 60);
    assert!(
        week.diagnostics.iter().any(|x| x.message.contains("clock change")),
        "the clock change should still be reported, got: {:?}",
        week.diagnostics
    );
}

#[test]
fn fall_back_uses_the_earlier_reading_when_both_fit() {
    let mut db = empty_store();
    add_recurring(&mut db, "inside", "sun", "01:10", "01:40", "2026-01-01", Some("America/Chicago"));

    let week = get_week(&db, d("2026-10-26"), &zone("America/Chicago"));
    let p = &week.days[6].placements[0];

    assert_eq!(rfc(&p.starts_at), "2026-11-01T01:10:00-05:00", "the first 01:10");
    assert_eq!(minutes(p), 30);
}

#[test]
fn get_week_is_total_over_corrupt_data() {
    let mut db = empty_store();
    add_recurring(&mut db, "ok", "mon", "09:00", "10:00", "2026-08-01", None);
    add_recurring(&mut db, "bad_date", "mon", "09:00", "10:00", "not-a-date", None);
    add_recurring(&mut db, "bad_time", "mon", "9 oclock", "whenever", "2026-08-01", None);
    add_recurring(&mut db, "empty_days", "", "09:00", "10:00", "2026-08-01", None);
    add_recurring(&mut db, "junk_days", "funday,mon", "11:00", "12:00", "2026-08-01", None);
    add_recurring(&mut db, "bad_zone", "mon", "13:00", "14:00", "2026-08-01", Some(""));
    set_except(&mut db, "ok", "garbage,2026-09-07,,also-garbage");

    let week = get_week(&db, d("2026-08-31"), &zone("America/Chicago"));

    assert_eq!(week.days.len(), 7, "always exactly 7 days");
    assert_eq!(week.days[0].date, d("2026-08-31"));
    assert_eq!(week.days[6].date, d("2026-09-06"));

    let ids: Vec<&str> = week.days[0].placements.iter().map(|p| p.item_id.as_str()).collect();
    assert_eq!(ids, vec!["ok", "junk_days", "bad_zone"], "good rules survive bad neighbours");

    for id in ["bad_date", "bad_time", "bad_zone"] {
        assert!(
            week.diagnostics.iter().any(|x| x.item_id.as_deref() == Some(id)),
            "no diagnostic for {id}: {:?}", week.diagnostics
        );
    }
}

#[test]
fn rule_with_no_usable_weekdays_reports_itself() {
    let mut db = empty_store();
    add_recurring(&mut db, "nowhere", "", "09:00", "10:00", "2026-08-01", None);
    add_recurring(&mut db, "nonsense", "funday,caturday", "09:00", "10:00", "2026-08-01", None);

    let week = get_week(&db, d("2026-08-31"), &zone("America/Chicago"));

    assert!(week.days.iter().all(|day| day.placements.is_empty()));
    for id in ["nowhere", "nonsense"] {
        assert!(
            week.diagnostics.iter().any(|x| x.item_id.as_deref() == Some(id)),
            "no diagnostic for {id}: {:?}", week.diagnostics
        );
    }
}

#[test]
fn end_before_start_is_skipped_and_reported() {
    let mut db = empty_store();
    add_recurring(&mut db, "backwards", "mon", "14:00", "09:00", "2026-08-01", None);
    add_recurring(&mut db, "zero_length", "mon", "14:00", "14:00", "2026-08-01", None);

    let week = get_week(&db, d("2026-08-31"), &zone("America/Chicago"));

    assert!(week.days[0].placements.is_empty(), "a negative or zero span is not renderable");
    for id in ["backwards", "zero_length"] {
        assert!(
            week.diagnostics.iter().any(|x| x.item_id.as_deref() == Some(id)),
            "no diagnostic for {id}: {:?}", week.diagnostics
        );
    }
}

#[test]
fn until_date_bounds_the_series() {
    let mut db = empty_store();
    add_recurring(&mut db, "term", "mon,wed,fri", "09:00", "10:00", "2026-08-01", None);
    set_until(&mut db, "term", "2026-09-02");

    let week = get_week(&db, d("2026-08-31"), &zone("America/Chicago"));

    let counts: Vec<usize> = week.days.iter().map(|day| day.placements.len()).collect();
    assert_eq!(counts, vec![1, 0, 1, 0, 0, 0, 0], "Friday is past until_date");
    assert!(week.diagnostics.is_empty(), "an ended series is not a problem");
}

#[test]
fn until_before_from_is_skipped_and_reported() {
    let mut db = empty_store();
    add_recurring(&mut db, "impossible", "mon", "09:00", "10:00", "2026-08-01", None);
    set_until(&mut db, "impossible", "2026-07-01");

    let week = get_week(&db, d("2026-08-31"), &zone("America/Chicago"));

    assert!(week.days.iter().all(|day| day.placements.is_empty()));
    assert!(
        week.diagnostics.iter().any(|x| x.item_id.as_deref() == Some("impossible")),
        "contradictory range must be reported, got: {:?}", week.diagnostics
    );
}

#[test]
fn overlapping_rules_both_render_in_start_order() {
    let mut db = empty_store();
    add_recurring(&mut db, "later", "mon", "09:30", "10:30", "2026-08-01", None);
    add_recurring(&mut db, "earlier", "mon", "09:00", "10:00", "2026-08-01", None);

    let week = get_week(&db, d("2026-08-31"), &zone("America/Chicago"));

    let ids: Vec<&str> = week.days[0].placements.iter().map(|p| p.item_id.as_str()).collect();
    assert_eq!(ids, vec!["earlier", "later"], "sorted by start, both present");
    assert!(week.diagnostics.is_empty(), "an overlap is not a diagnostic");
}

#[test]
fn a_one_off_placement_appears_on_its_day() {
    let mut db = empty_store();
    add_placement(&mut db, "p1", "pset", "2026-09-01T13:00:00-05:00", "2026-09-01T15:00:00-05:00");

    let week = get_week(&db, d("2026-08-31"), &zone("America/Chicago"));
    let counts: Vec<usize> = week.days.iter().map(|day| day.placements.len()).collect();
    assert_eq!(counts, vec![0, 1, 0, 0, 0, 0, 0]);

    let p = &week.days[1].placements[0];
    assert_eq!(p.item_id, "pset");
    assert_eq!(hm(&p.starts_at), "13:00");
    assert_eq!(hm(&p.ends_at), "15:00");
    assert_eq!(p.origin, ms_core::Origin::OneOff);
}

#[test]
fn one_offs_and_repeats_share_the_day_in_start_order() {
    let mut db = empty_store();
    add_recurring(&mut db, "class", "tue", "09:00", "10:00", "2026-08-01", None);
    add_placement(&mut db, "p1", "pset", "2026-09-01T08:00:00-05:00", "2026-09-01T08:30:00-05:00");

    let week = get_week(&db, d("2026-08-31"), &zone("America/Chicago"));
    let ids: Vec<&str> = week.days[1].placements.iter().map(|p| p.item_id.as_str()).collect();
    assert_eq!(ids, vec!["pset", "class"], "sorted by start, both present");
}

#[test]
fn a_placement_with_an_unreadable_time_is_reported_not_dropped_silently() {
    let mut db = empty_store();
    db.placements.push(StoredRow {
        id: "p1".into(),
        item_id: "pset".into(),
        starts_at: "whenever".into(),
        ends_at: "later".into(),
        origin: "oneoff".into(),
        moved_from: None,
    });

    let week = get_week(&db, d("2026-08-31"), &zone("America/Chicago"));
    assert_eq!(week.days.len(), 7);
    assert!(!week.diagnostics.is_empty(), "must say it could not be placed");
}

#[test]
fn a_block_that_ends_before_it_starts_is_refused() {
    assert_eq!(
        ms_core::store::check_block("2026-09-01T15:00:00-05:00", "2026-09-01T13:00:00-05:00"),
        Err("a block must end after it starts".to_string())
    );
    assert_eq!(
        ms_core::store::check_block("soon", "2026-09-01T13:00:00-05:00"),
        Err("times must be RFC3339".to_string())
    );
    assert_eq!(ms_core::store::check_block("2026-09-01T13:00:00Z", "2026-09-01T13:00:01Z"), Ok(()));
}

#[test]
fn a_moved_block_keeps_where_it_came_from() {
    let mut db = empty_store();
    db.placements.push(StoredRow {
        id: "p1".into(),
        item_id: "class".into(),
        starts_at: "2026-09-02T09:00:00-05:00".into(),
        ends_at: "2026-09-02T10:00:00-05:00".into(),
        origin: "moved".into(),
        moved_from: Some("2026-09-01".into()),
    });
    let week = get_week(&db, d("2026-08-31"), &zone("America/Chicago"));
    let p = &week.days[2].placements[0];
    assert_eq!(p.origin, ms_core::Origin::Moved);
    assert_eq!(p.moved_from, Some(d("2026-09-01")));
    assert!(!p.foreign);
}

/// A leap second reads as RFC 3339 but is no instant the week keeps: the block
/// is reported, not placed.
#[test]
fn a_block_stored_at_a_leap_second_is_reported() {
    let mut db = empty_store();
    db.placements.push(StoredRow {
        id: "p1".into(),
        item_id: "pset".into(),
        starts_at: "2016-12-31T23:59:60Z".into(),
        ends_at: "2017-01-01T01:00:00Z".into(),
        origin: "oneoff".into(),
        moved_from: None,
    });
    let week = get_week(&db, d("2016-12-26"), &zone("UTC"));
    assert!(week.days.iter().all(|day| day.placements.is_empty()));
    assert_eq!(week.diagnostics.len(), 1, "{:?}", week.diagnostics);
    assert_eq!(week.diagnostics[0].item_id.as_deref(), Some("pset"));
}

/// The week starts on the Monday on or before the day asked for.
#[test]
fn the_week_starts_on_the_nearest_monday_before() {
    let db = empty_store();
    for (asked, monday) in [("2026-09-06", "2026-08-31"), ("2026-08-31", "2026-08-31"), ("2026-09-02", "2026-08-31")] {
        let week = get_week(&db, d(asked), &zone("America/Chicago"));
        assert_eq!(week.anchor, d(monday), "{asked}");
        assert_eq!(week.days[0].date, d(monday));
    }
}

/// A rule that cannot be read is dropped and reported, and the others still render.
#[test]
fn one_bad_rule_does_not_take_the_others_with_it() {
    let mut db = empty_store();
    add_recurring(&mut db, "bad", "mon", "25:00", "26:00", "2026-08-01", None);
    add_recurring(&mut db, "good", "mon", "09:00", "10:00", "2026-08-01", None);
    let week = get_week(&db, d("2026-08-31"), &zone("America/Chicago"));
    let monday: Vec<&str> = week.days[0].placements.iter().map(|p| p.item_id.as_str()).collect();
    assert_eq!(monday, vec!["good"]);
    assert!(week.diagnostics.iter().any(|g| g.item_id.as_deref() == Some("bad")));
    assert!(week.days[0].placements[0].id.starts_with("plc_2026-08-31_good"));
}
