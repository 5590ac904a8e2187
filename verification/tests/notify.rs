//! What gets pushed, and -- more importantly -- what does not.

use ms_core::calendar::Date;
use ms_core::rules::RawRule;
use ms_core::store::item_of_row;
use ms_core::{already_sent, due_soon, mark_sent, prune_sent, Item, Kind, NewItem, Notice, Sent, Snapshot, Stamp, StoredRow, Zone};
use chrono::{DateTime, Datelike, FixedOffset, NaiveDate};

const LEAD: i64 = 10;

/// An instant read from RFC 3339 text.
fn parse_stamp(s: &str) -> Option<Stamp> {
    let t = DateTime::parse_from_rfc3339(s).ok()?;
    Some(Stamp { secs: t.timestamp(), nanos: t.timestamp_subsec_nanos(), offset: t.offset().local_minus_utc() })
}

/// A calendar date read from `YYYY-MM-DD` text.
fn parse_ymd(s: &str) -> Option<Date> {
    let n = NaiveDate::parse_from_str(s, "%Y-%m-%d").ok()?;
    Some(Date { year: n.year(), month: n.month(), day: n.day() })
}

/// An instant written as RFC 3339 text in its own offset.
fn rfc3339(st: &Stamp) -> String {
    let off = FixedOffset::east_opt(st.offset).unwrap();
    DateTime::from_timestamp(st.secs, st.nanos).unwrap().with_timezone(&off).to_rfc3339()
}

fn d(s: &str) -> Date {
    parse_ymd(s).unwrap()
}

fn zone(name: &str) -> Zone {
    Zone::named(name).unwrap()
}

fn empty_store() -> Snapshot {
    Snapshot { rules: Vec::new(), rules_error: None, placements: Vec::new(), placements_unreadable: false }
}

fn stamp(s: &str) -> Stamp {
    parse_stamp(s).unwrap()
}

/// What the store keeps for a typed line: the item as read back, and its
/// rule among the stored rules.
struct Store {
    items: Vec<Item>,
    rules: Snapshot,
    done: Vec<ms_core::Completion>,
}

fn new_store() -> Store {
    Store { items: Vec::new(), rules: empty_store(), done: Vec::new() }
}

fn add_from_text_in(db: &mut Store, text: &str, today: Date, now: Stamp, zone: &Zone) -> Item {
    let plan: NewItem = ms_core::plan_from_text(text, today, now, zone).expect("inside the calendar");
    let id = format!("itm_{}", db.items.len());
    if let Some(rule) = &plan.rule {
        db.rules.rules.push(RawRule {
            item_id: id.clone(),
            byday: rule.byday.clone(),
            monthday: rule.monthday.map(|m| m as i64),
            start_time: rule.start_time.clone(),
            end_time: rule.end_time.clone(),
            tz: rule.tz.clone(),
            from_date: rule.from_date.clone(),
            until_date: None,
            except_on: String::new(),
        });
    }
    if let Some((start, end)) = &plan.block {
        db.rules.placements.push(StoredRow {
            id: format!("plc_{}", db.rules.placements.len()),
            item_id: id.clone(),
            starts_at: rfc3339(start),
            ends_at: rfc3339(end),
            origin: "oneoff".to_string(),
            moved_from: None,
        });
    }
    let due = plan.due_at.map(|d| rfc3339(&d));
    let item = item_of_row(
        id,
        plan.title.clone(),
        &plan.tags,
        plan.category.clone(),
        plan.location.clone(),
        plan.listed as i64,
        due.as_deref(),
        plan.estimate_min.map(|m| m as i64),
        &rfc3339(&now),
        "self".to_string(),
        None,
        plan.rule.is_some() as i64,
    );
    db.items.push(item.clone());
    item
}

fn set_done(db: &mut Store, id: &str, done: bool, on: Option<Date>) {
    let at = parse_stamp("2026-09-01T12:00:00Z").unwrap();
    ms_core::set_done(&mut db.done, id, done, on, at);
    let it = db.items.iter_mut().find(|i| i.id == id).unwrap();
    it.done_on = ms_core::store::done_dates(&db.done, id);
    it.completed = ms_core::store::ticked(&db.done, id);
}


fn utc(s: &str) -> Stamp {
    stamp(s)
}

fn chicago() -> Zone {
    zone("America/Chicago")
}

/// Capture a line the way every front door does, at a fixed instant.
fn add(db: &mut Store, text: &str, today: &str, now: &str) -> Item {
    add_from_text_in(db, text, d(today), utc(now), &chicago())
}

fn soon(db: &Store, now: &str) -> Vec<Notice> {
    due_soon(&db.rules, &db.items, utc(now), LEAD * 60, &chicago()).expect("inside the calendar")
}

fn same_instant(a: &Stamp, b: &Stamp) -> bool {
    a.secs == b.secs && a.nanos == b.nanos
}

// Austin is UTC-5 in September, so 09:00 local is 14:00Z.

#[test]
fn a_block_inside_the_window_is_announced() {
    let mut db = new_store();
    add(&mut db, "standup on 09/09/2026 09:00", "2026-09-08", "2026-09-08T12:00:00Z");

    let out = soon(&db, "2026-09-09T13:52:00Z");
    assert_eq!(out.len(), 1, "expected one notice, got {out:?}");
    assert_eq!(out[0].title, "standup");
    assert_eq!(out[0].kind, Kind::Block);
    assert!(same_instant(&out[0].at, &utc("2026-09-09T14:00:00Z")));
}

#[test]
fn a_block_beyond_the_window_is_not() {
    let mut db = new_store();
    add(&mut db, "standup on 09/09/2026 09:00", "2026-09-08", "2026-09-08T12:00:00Z");

    assert!(soon(&db, "2026-09-09T13:30:00Z").is_empty(), "38 minutes out is not soon");
}

#[test]
fn a_block_already_begun_is_not_announced() {
    let mut db = new_store();
    add(&mut db, "standup on 09/09/2026 09:00", "2026-09-08", "2026-09-08T12:00:00Z");

    assert!(soon(&db, "2026-09-09T14:00:00Z").is_empty(), "it has started; that is not news");
    assert!(soon(&db, "2026-09-09T14:05:00Z").is_empty());
}

#[test]
fn a_recurring_class_is_announced_on_each_occurrence() {
    let mut db = new_store();
    add(&mut db, "PHYS201 every wed 10:30-12:00 @Hall 2.106", "2026-09-08", "2026-09-08T12:00:00Z");

    // 10:30 Austin is 15:30Z.
    let first = soon(&db, "2026-09-09T15:22:00Z");
    assert_eq!(first.len(), 1, "got {first:?}");
    assert_eq!(first[0].title, "PHYS201");
    assert_eq!(first[0].location.as_deref(), Some("Hall 2.106"));

    let next = soon(&db, "2026-09-16T15:22:00Z");
    assert_eq!(next.len(), 1);
    assert_ne!(first[0].key, next[0].key, "each occurrence needs its own key");
}

#[test]
fn a_ticked_occurrence_is_not_announced() {
    let mut db = new_store();
    let item = add(&mut db, "PHYS201 every wed 10:30-12:00", "2026-09-08", "2026-09-08T12:00:00Z");
    set_done(&mut db, &item.id, true, Some(d("2026-09-09")));

    assert!(soon(&db, "2026-09-09T15:22:00Z").is_empty(), "already done this week");
    assert_eq!(soon(&db, "2026-09-16T15:22:00Z").len(), 1, "next week is still open");
}

#[test]
fn a_deadline_in_the_list_is_announced() {
    let mut db = new_store();
    add(&mut db, "lab report due 09/09/2026 17:00", "2026-09-08", "2026-09-08T12:00:00Z");

    let out = soon(&db, "2026-09-09T21:55:00Z");
    assert_eq!(out.len(), 1, "got {out:?}");
    assert_eq!(out[0].kind, Kind::Deadline);
    assert_eq!(out[0].ends, None);
}

#[test]
fn a_ticked_deadline_is_not() {
    let mut db = new_store();
    let item = add(&mut db, "lab report due 09/09/2026 17:00", "2026-09-08", "2026-09-08T12:00:00Z");
    set_done(&mut db, &item.id, true, None);

    assert!(soon(&db, "2026-09-09T21:55:00Z").is_empty());
}

#[test]
fn the_window_reaches_across_the_week_boundary() {
    let mut db = new_store();
    // Monday 00:05 Austin = 05:05Z Monday.
    add(&mut db, "early flight on 14/09/2026 00:05", "2026-09-08", "2026-09-08T12:00:00Z");

    // Sunday 23:57 Austin = Monday 04:57Z, still inside the previous week.
    let out = soon(&db, "2026-09-14T04:57:00Z");
    assert_eq!(out.len(), 1, "expanding only the current week would miss this: {out:?}");
}

#[test]
fn nothing_scheduled_means_nothing_to_say() {
    let mut db = new_store();
    add(&mut db, "renew parking", "2026-09-08", "2026-09-08T12:00:00Z");
    assert!(soon(&db, "2026-09-09T13:52:00Z").is_empty(), "an undated task has no moment");
}

#[test]
fn a_sent_notice_is_remembered_and_pruned() {
    let mut log: Vec<Sent> = Vec::new();
    let now = utc("2026-09-09T13:52:00Z");
    let day = 86_400;
    assert!(!already_sent(&log, "k"));

    mark_sent(&mut log, "k", now);
    assert!(already_sent(&log, "k"));
    mark_sent(&mut log, "k", now);
    assert!(already_sent(&log, "k"), "marking twice is not an error");
    assert_eq!(log.len(), 1, "one row per key");

    let earlier = Stamp { secs: now.secs - day, ..now };
    let later = Stamp { secs: now.secs + day, ..now };
    assert_eq!(prune_sent(&mut log, earlier), 0, "not old enough");
    assert!(already_sent(&log, "k"));
    assert_eq!(prune_sent(&mut log, later), 1);
    assert!(!already_sent(&log, "k"));
}

/// Any lead is taken, a long one too: a deadline ten and a half days out is
/// announced by an eleven-day lead, and not by a ten-day one.
#[test]
fn a_long_lead_reaches_as_far_as_it_says() {
    let mut db = new_store();
    add(&mut db, "essay due 18/09/2026 17:00", "2026-09-08", "2026-09-08T12:00:00Z");
    let now = utc("2026-09-08T12:00:00Z");
    let eleven_days = 11 * 86_400;
    let ns = due_soon(&db.rules, &db.items, now, eleven_days, &chicago()).expect("inside the calendar");
    assert_eq!(ns.len(), 1, "got {ns:?}");
    assert!(ns[0].at.secs > now.secs && ns[0].at.secs <= now.secs + eleven_days);
    let ten_days = 10 * 86_400;
    assert!(due_soon(&db.rules, &db.items, now, ten_days, &chicago()).unwrap().is_empty());
}
