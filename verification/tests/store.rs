//! What the store decides: how a typed line becomes an item and its rule,
//! which items a filter keeps, and when something counts as done.

use ms_core::calendar::Date;
use ms_core::rules::RawRule;
use ms_core::store::{item_of_row, select};
use ms_core::{get_week, Filter, Item, NewItem, Snapshot, Stamp, Zone};
use chrono::{DateTime, Datelike, FixedOffset, NaiveDate, Offset, TimeZone};

/// A zone's offset from UTC, in seconds, at an instant.
fn offset_in(zone: &str, secs: i64) -> i32 {
    let tz: chrono_tz::Tz = zone.parse().unwrap();
    let at = DateTime::from_timestamp(secs, 0).unwrap();
    tz.offset_from_utc_datetime(&at.naive_utc()).fix().local_minus_utc()
}

/// An instant read from RFC 3339 text.
fn parse_stamp(s: &str) -> Option<Stamp> {
    let t = DateTime::parse_from_rfc3339(s).ok()?;
    Some(Stamp { secs: t.timestamp(), nanos: t.timestamp_subsec_nanos(), offset: t.offset().local_minus_utc() })
}

/// A calendar date read from `YYYY-MM-DD` text.
fn parse_ymd(s: &str) -> Option<Date> {
    let n = NaiveDate::parse_from_str(s, "%Y-%m-%d").ok()?;
    Some(Date { year: n.year(), month: n.month(), day: n.day() })
}

/// An instant written as RFC 3339 text in its own offset.
fn rfc3339(st: &Stamp) -> String {
    let off = FixedOffset::east_opt(st.offset).unwrap();
    DateTime::from_timestamp(st.secs, st.nanos).unwrap().with_timezone(&off).to_rfc3339()
}

fn d(s: &str) -> Date {
    parse_ymd(s).unwrap()
}

fn zone(name: &str) -> Zone {
    Zone::named(name).unwrap()
}

fn empty_store() -> Snapshot {
    Snapshot { rules: Vec::new(), rules_error: None, placements: Vec::new(), placements_unreadable: false }
}

/// A weekly rule as the store holds it, written directly so these tests
/// exercise expansion rather than any insert path.
fn add_recurring(db: &mut Snapshot, id: &str, byday: &str, start: &str, end: &str, from: &str, tz: Option<&str>) {
    db.rules.push(RawRule {
        item_id: id.to_string(),
        byday: byday.to_string(),
        monthday: None,
        start_time: start.to_string(),
        end_time: end.to_string(),
        tz: tz.map(str::to_string),
        from_date: from.to_string(),
        until_date: None,
        except_on: String::new(),
    });
}

fn rule_mut<'a>(db: &'a mut Snapshot, id: &str) -> &'a mut RawRule {
    db.rules.iter_mut().find(|r| r.item_id == id).unwrap()
}

fn rfc(st: &Stamp) -> String {
    rfc3339(st)
}

fn hm(st: &Stamp) -> String {
    ms_core::render::clock_label(st)
}

fn minutes(p: &ms_core::Placement) -> i64 {
    (p.ends_at.secs - p.starts_at.secs) / 60
}

fn stamp(s: &str) -> Stamp {
    parse_stamp(s).unwrap()
}

fn today() -> Date {
    Date { year: 2026, month: 8, day: 31 }
}

fn now() -> Stamp {
    stamp("2026-08-31T12:00:00Z")
}

/// What the store keeps for a typed line: the item as read back, and its
/// rule among the stored rules.
struct Store {
    items: Vec<Item>,
    rules: Snapshot,
    done: Vec<ms_core::Completion>,
}

fn new_store() -> Store {
    Store { items: Vec::new(), rules: empty_store(), done: Vec::new() }
}

fn add_from_text_in(db: &mut Store, text: &str, today: Date, now: Stamp, zone: &Zone) -> Item {
    let plan: NewItem = ms_core::plan_from_text(text, today, now, zone).expect("inside the calendar");
    let id = format!("itm_{}", db.items.len());
    if let Some(rule) = &plan.rule {
        db.rules.rules.push(RawRule {
            item_id: id.clone(),
            byday: rule.byday.clone(),
            monthday: rule.monthday.map(|m| m as i64),
            start_time: rule.start_time.clone(),
            end_time: rule.end_time.clone(),
            tz: rule.tz.clone(),
            from_date: rule.from_date.clone(),
            until_date: None,
            except_on: String::new(),
        });
    }
    let due = plan.due_at.map(|d| rfc3339(&d));
    let item = item_of_row(
        id,
        plan.title.clone(),
        &plan.tags,
        plan.category.clone(),
        plan.location.clone(),
        plan.listed as i64,
        due.as_deref(),
        plan.estimate_min.map(|m| m as i64),
        &rfc3339(&now),
        "self".to_string(),
        None,
        plan.rule.is_some() as i64,
    );
    db.items.push(item.clone());
    item
}

fn add_from_text(db: &mut Store, text: &str, today: Date, now: Stamp) -> Item {
    add_from_text_in(db, text, today, now, &zone("America/Chicago"))
}

fn rule_of<'a>(db: &'a Store, id: &str) -> &'a RawRule {
    db.rules.rules.iter().find(|r| r.item_id == id).unwrap()
}

fn set_done(db: &mut Store, id: &str, done: bool, on: Option<Date>) {
    let at = parse_stamp("2026-09-01T12:00:00Z").unwrap();
    ms_core::set_done(&mut db.done, id, done, on, at);
    let it = db.items.iter_mut().find(|i| i.id == id).unwrap();
    it.done_on = ms_core::store::done_dates(&db.done, id);
    it.completed = ms_core::store::ticked(&db.done, id);
}

fn get_items(db: &Store, f: &Filter) -> Vec<Item> {
    select(db.items.clone(), f)
}

/// The wall clock of an instant in a zone.
fn clock_in(st: &Stamp, z: &Zone) -> String {
    let off = offset_in(z.name(), st.secs);
    hm(&Stamp { secs: st.secs, nanos: 0, offset: off })
}

fn day_in(st: &Stamp, z: &Zone) -> Date {
    let off = offset_in(z.name(), st.secs);
    ms_core::expand::local_day_of(&Stamp { secs: st.secs, nanos: 0, offset: off }).unwrap()
}

#[test]
fn a_typed_line_becomes_an_item() {
    let mut db = new_store();
    let item = add_from_text(&mut db, "math hw fri ~2h #math", today(), now());

    assert_eq!(item.title, "math hw");
    assert_eq!(item.estimate_min, Some(120));
    assert_eq!(item.tags, vec!["math"]);
    assert!(item.listed);
    assert!(!item.recurs);
    assert_eq!(item.source, "self");
    assert_eq!(item.external_id, None);
    assert!(item.due_at.is_some());
}

#[test]
fn a_repeating_line_also_creates_its_rule() {
    let mut db = new_store();
    let item = add_from_text(&mut db, "MATH210 every mon wed 9:00-10:15", today(), now());

    assert_eq!(item.title, "MATH210");
    assert!(item.recurs);
    assert!(!item.listed, "a block stays out of the to-do list");

    let r = rule_of(&db, &item.id);
    assert_eq!(r.byday, "mon,wed");
    assert_eq!((r.start_time.as_str(), r.end_time.as_str()), ("09:00", "10:15"));
}

#[test]
fn a_known_tag_sets_the_colour_category() {
    let mut db = new_store();
    let body = add_from_text(&mut db, "swim every tue 18:00-19:00 #body", today(), now());
    assert_eq!(body.category.as_deref(), Some("body"));

    let math = add_from_text(&mut db, "problem set fri #math", today(), now());
    assert_eq!(math.category, None, "not one of the four");
    assert_eq!(math.tags, vec!["math"], "still a tag");
}

#[test]
fn items_can_be_listed_and_filtered() {
    let mut db = new_store();
    add_from_text(&mut db, "renew parking", today(), now());
    add_from_text(&mut db, "MATH210 every mon 9:00-10:15", today(), now());

    assert_eq!(get_items(&db, &Filter::default()).len(), 2);

    let listed = get_items(&db, &Filter { listed: Some(true), ..Default::default() });
    assert_eq!(listed.len(), 1);
    assert_eq!(listed[0].title, "renew parking");

    let repeating = get_items(&db, &Filter { recurs: Some(true), ..Default::default() });
    assert_eq!(repeating.len(), 1);
    assert_eq!(repeating[0].title, "MATH210");
}

#[test]
fn completion_is_per_occurrence_for_repeating_items() {
    let mut db = new_store();
    let trash = add_from_text(&mut db, "trash every tue 20:00", today(), now());

    let d1 = Date { year: 2026, month: 9, day: 1 };
    let d2 = Date { year: 2026, month: 9, day: 8 };
    set_done(&mut db, &trash.id, true, Some(d1));

    let again = get_items(&db, &Filter::default());
    let it = again.iter().find(|i| i.id == trash.id).unwrap();
    assert_eq!(it.done_on, vec![d1], "only that week is done");
    assert!(!it.done_on.contains(&d2), "next week is still outstanding");
}

#[test]
fn a_one_off_completes_without_a_date() {
    let mut db = new_store();
    let item = add_from_text(&mut db, "renew parking", today(), now());

    set_done(&mut db, &item.id, true, None);
    let done = get_items(&db, &Filter { done: Some(true), ..Default::default() });
    assert_eq!(done.len(), 1);

    set_done(&mut db, &item.id, false, None);
    let open = get_items(&db, &Filter { done: Some(false), ..Default::default() });
    assert_eq!(open.len(), 1, "un-ticking restores it");
}

#[test]
fn a_repeating_item_reopens_for_the_next_occurrence() {
    let mut db = new_store();
    let trash = add_from_text(&mut db, "trash every tue 20:00", today(), now());
    let this_week = Date { year: 2026, month: 9, day: 1 };
    let next_week = Date { year: 2026, month: 9, day: 8 };

    set_done(&mut db, &trash.id, true, Some(this_week));

    let open_now = get_items(&db, &Filter { done: Some(false), on: Some(this_week), ..Default::default() });
    assert!(!open_now.iter().any(|i| i.id == trash.id), "done for this Tuesday");

    let open_next = get_items(&db, &Filter { done: Some(false), on: Some(next_week), ..Default::default() });
    assert!(open_next.iter().any(|i| i.id == trash.id), "but open again next Tuesday");
}

#[test]
fn a_finished_one_off_stays_finished() {
    let mut db = new_store();
    let item = add_from_text(&mut db, "renew parking", today(), now());
    set_done(&mut db, &item.id, true, None);

    for day in [Date { year: 2026, month: 9, day: 1 }, Date { year: 2026, month: 12, day: 1 }] {
        let open = get_items(&db, &Filter { done: Some(false), on: Some(day), ..Default::default() });
        assert!(!open.iter().any(|i| i.id == item.id), "a one-off does not come back on {day:?}");
    }
}

#[test]
fn a_new_repeat_is_pinned_to_the_zone_it_was_created_in() {
    let mut db = new_store();
    let item = add_from_text_in(&mut db, "MATH210 every mon 9:00-10:15", today(), now(), &zone("America/Chicago"));
    assert_eq!(rule_of(&db, &item.id).tz.as_deref(), Some("America/Chicago"), "fixed to where you made it");
}

#[test]
fn a_floating_repeat_stores_no_zone() {
    let mut db = new_store();
    let item = add_from_text_in(&mut db, "wake up daily 08:00 #floating", today(), now(), &zone("America/Chicago"));
    assert_eq!(rule_of(&db, &item.id).tz, None, "follows the machine");
}

#[test]
fn fixed_and_floating_diverge_after_you_travel() {
    let mut db = new_store();
    add_from_text_in(&mut db, "MATH210 every mon 12:00-13:00", today(), now(), &zone("America/Chicago"));
    add_from_text_in(&mut db, "wake up every mon 08:00-08:30 #floating", today(), now(), &zone("America/Chicago"));

    let seen_from_beirut = get_week(&db.rules, today(), &zone("Asia/Beirut"));
    let mut by_title: Vec<(String, String)> = seen_from_beirut.days[0]
        .placements
        .iter()
        .map(|p| {
            let t = db.items.iter().find(|i| i.id == p.item_id).unwrap().title.clone();
            (t, hm(&p.starts_at))
        })
        .collect();
    by_title.sort();

    assert_eq!(
        by_title,
        vec![
            ("MATH210".to_string(), "20:00".to_string()),
            ("wake up".to_string(), "08:00".to_string()),
        ]
    );
}

#[test]
fn the_zone_can_be_changed_afterwards() {
    assert_eq!(ms_core::store::check_zone(None), Ok(()), "switched to floating");
    assert_eq!(ms_core::store::check_zone(Some("Asia/Beirut")), Ok(()));
}

#[test]
fn an_unknown_zone_is_refused_rather_than_stored() {
    let refused = ms_core::store::check_zone(Some("Mars/Olympus"));
    assert!(refused.is_err());
    assert_eq!(refused, Err("\"Mars/Olympus\" is not a known time zone".to_string()));
}

#[test]
fn a_completed_one_off_reports_itself_as_done() {
    let mut db = new_store();
    let item = add_from_text(&mut db, "renew parking", today(), now());
    assert!(!item.completed);

    set_done(&mut db, &item.id, true, None);
    let after = db.items.iter().find(|i| i.id == item.id).unwrap().clone();
    assert!(after.completed, "a ticked one-off must say so");
    assert!(after.is_done(None));

    let all = get_items(&db, &Filter::default());
    assert!(all.iter().find(|i| i.id == item.id).unwrap().completed);

    set_done(&mut db, &item.id, false, None);
    assert!(!db.items.iter().find(|i| i.id == item.id).unwrap().completed);
}

#[test]
fn a_repeating_item_reports_done_per_occurrence() {
    let mut db = new_store();
    let item = add_from_text(&mut db, "trash every tue 20:00", today(), now());
    let d1 = Date { year: 2026, month: 9, day: 1 };
    let d2 = Date { year: 2026, month: 9, day: 8 };

    set_done(&mut db, &item.id, true, Some(d1));
    let after = db.items.iter().find(|i| i.id == item.id).unwrap();

    assert!(after.is_done(Some(d1)));
    assert!(!after.is_done(Some(d2)), "next week is still open");
}

#[test]
fn a_location_is_kept_not_just_stripped() {
    let mut db = new_store();
    let item = add_from_text_in(
        &mut db, "PHYS201 every monday wednesday 10:30-12:00p @Hall 2.106", today(), now(), &zone("America/Chicago"),
    );

    assert_eq!(item.title, "PHYS201");
    assert_eq!(item.location.as_deref(), Some("Hall 2.106"));
}

#[test]
fn a_due_time_is_local_not_utc() {
    let mut db = new_store();
    let chicago = zone("America/Chicago");
    let item = add_from_text_in(&mut db, "math hw fri 5pm", today(), now(), &chicago);

    let due = item.due_at.expect("has a due date");
    assert_eq!(clock_in(&due, &chicago), "17:00", "5pm means 5pm where you are");
    assert_eq!(hm(&due), "22:00");
}

#[test]
fn a_deadline_with_no_time_lands_at_the_end_of_the_local_day() {
    let mut db = new_store();
    let chicago = zone("America/Chicago");
    let item = add_from_text_in(&mut db, "essay fri", today(), now(), &chicago);
    assert_eq!(clock_in(&item.due_at.unwrap(), &chicago), "23:59");
}

#[test]
fn a_weekday_whose_time_has_passed_means_next_week() {
    let mut db = new_store();
    let chicago = zone("America/Chicago");
    // today() is Monday 2026-08-31; it is already 18:00 in Austin.
    let evening = stamp("2026-08-31T18:00:00-05:00");

    let past = add_from_text_in(&mut db, "gym mon 10am", today(), evening, &chicago);
    assert_eq!(day_in(&past.due_at.unwrap(), &chicago), Date { year: 2026, month: 9, day: 7 }, "10am Monday has gone; it means next Monday");

    let later = add_from_text_in(&mut db, "gym mon 11pm", today(), evening, &chicago);
    assert_eq!(day_in(&later.due_at.unwrap(), &chicago), Date { year: 2026, month: 8, day: 31 });
}

#[test]
fn an_explicit_past_date_is_not_moved() {
    let mut db = new_store();
    let chicago = zone("America/Chicago");
    let item = add_from_text_in(&mut db, "rent 1/8/2026", today(), now(), &chicago);
    assert_eq!(day_in(&item.due_at.unwrap(), &chicago), Date { year: 2026, month: 8, day: 1 });
}

#[test]
fn on_with_a_time_puts_an_hour_on_the_week() {
    let plan = ms_core::plan_from_text("standup on friday 9am", today(), now(), &zone("America/Chicago")).unwrap();
    let (s, e) = plan.block.expect("an hour on the week");
    assert_eq!(Some(s), plan.due_at);
    assert_eq!(e.secs - s.secs, 3600);
    assert!(plan.listed, "and still tickable");
    let essay = ms_core::plan_from_text("essay due friday", today(), now(), &zone("America/Chicago")).unwrap();
    assert_eq!(essay.block, None);
}

#[test]
fn a_monthly_repeat_starts_on_its_date() {
    let plan = ms_core::plan_from_text("rent monthly 01/10/2026 09:00", today(), now(), &zone("America/Chicago")).unwrap();
    let rule = plan.rule.expect("a rule");
    assert_eq!(rule.byday, "");
    assert_eq!(rule.monthday, Some(1));
    assert_eq!(rule.from_date, "2026-10-01");
    assert_eq!((rule.start_time.as_str(), rule.end_time.as_str()), ("09:00", "10:00"));
    assert_eq!(plan.due_at, None, "a repeat has no single deadline");
}

#[test]
fn a_prefix_picks_titles_whatever_the_case() {
    let mut db = new_store();
    add_from_text(&mut db, "Math hw", today(), now());
    add_from_text(&mut db, "mathematics reading", today(), now());
    add_from_text(&mut db, "renew parking", today(), now());
    let hits = ms_core::find_by_prefix(db.items.clone(), "  MATH ");
    let titles: Vec<&str> = hits.iter().map(|i| i.title.as_str()).collect();
    assert_eq!(titles, vec!["Math hw", "mathematics reading"]);
    assert!(ms_core::find_by_prefix(db.items.clone(), "zzz").is_empty());
}

#[test]
fn stored_tags_are_trimmed_and_blanks_dropped() {
    assert_eq!(ms_core::store::split_tags(" math, ,work,"), vec!["math", "work"]);
    assert_eq!(ms_core::store::split_tags(""), Vec::<String>::new());
}

#[test]
fn an_unreadable_stored_instant_reads_as_the_epoch() {
    assert_eq!(ms_core::store::parse_ts("garbage"), Stamp { secs: 0, nanos: 0, offset: 0 });
    assert_eq!(ms_core::store::parse_ts("1970-01-01T00:01:00+01:00").secs, -3540);
}

#[test]
fn ticking_writes_one_row_per_key_and_clearing_reports_whether_it_removed_one() {
    let mut rows: Vec<ms_core::Completion> = Vec::new();
    let at = stamp("2026-09-01T12:00:00Z");
    let tue = d("2026-09-01");
    let wed = d("2026-09-02");
    assert!(ms_core::set_done(&mut rows, "a", true, Some(tue), at));
    assert!(ms_core::set_done(&mut rows, "a", true, Some(tue), at), "ticking again still writes");
    assert!(ms_core::set_done(&mut rows, "a", true, Some(wed), at));
    assert!(ms_core::set_done(&mut rows, "b", true, None, at));
    assert_eq!(rows.len(), 3, "one row per item and key");
    assert_eq!(rows[2].done_at, "2026-09-01T12:00:00+00:00");

    assert!(ms_core::set_done(&mut rows, "a", false, Some(tue), at));
    assert!(!ms_core::set_done(&mut rows, "a", false, Some(tue), at), "nothing left to clear");
    assert_eq!(ms_core::store::done_dates(&rows, "a"), vec![wed]);
    assert!(ms_core::store::ticked(&rows, "b"));
    assert!(ms_core::store::done_dates(&rows, "b").is_empty(), "the item's own key is not a date");
    assert!(!ms_core::store::ticked(&rows, "c"));
}

#[test]
fn list_today_keeps_what_is_due_by_the_end_of_the_day_in_utc() {
    let today_ = d("2026-09-02");
    let due = |s: &str| {
        let mut it = item_of_row(
            s.to_string(), s.to_string(), "", None, None, 1, Some(s), None, "2026-08-01T00:00:00Z", "self".to_string(), None, 0,
        );
        it.title = s.to_string();
        it
    };
    let items = vec![
        due("2026-09-01T10:00:00Z"),
        due("2026-09-02T23:59:59Z"),
        due("2026-09-02T23:59:59.500Z"),
        due("2026-09-03T00:00:00Z"),
    ];
    let kept: Vec<String> = ms_core::store::due_today(items, today_).into_iter().map(|i| i.title).collect();
    assert_eq!(kept, vec!["2026-09-01T10:00:00Z", "2026-09-02T23:59:59Z"]);
}

#[test]
fn a_tick_without_a_date_is_for_today_when_it_repeats() {
    let t = d("2026-09-02");
    let other = d("2026-09-09");
    assert_eq!(ms_core::store::occurrence_for(true, None, t), Some(t));
    assert_eq!(ms_core::store::occurrence_for(false, None, t), None);
    assert_eq!(ms_core::store::occurrence_for(false, Some(other), t), Some(other));
}

#[test]
fn a_one_off_remembers_when_it_was_ticked() {
    let mut rows: Vec<ms_core::Completion> = Vec::new();
    let at = stamp("2026-09-01T12:00:00Z");
    ms_core::set_done(&mut rows, "a", true, None, at);
    ms_core::set_done(&mut rows, "b", true, Some(d("2026-09-01")), at);
    let when = ms_core::store::completed_at(&rows, "a").unwrap();
    assert_eq!((when.secs, when.nanos), (at.secs, at.nanos));
    assert!(ms_core::store::completed_at(&rows, "b").is_none(), "an occurrence is not the item");
}
