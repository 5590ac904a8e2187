//! Bulk import keyed on a caller-owned `external_id`: a re-run is a no-op, a
//! corrected record updates in place, and a refused batch writes nothing.

use ms_core::calendar::Date;
use ms_core::rules::RawRule;
use ms_core::store::{item_of_row, select};
use ms_core::{import, import_with_ids, new_keys, Filter, ImportRecord, ImportRepeat, Item, NewItem, Snapshot, Stamp, Zone};
use chrono::{DateTime, Datelike, FixedOffset, NaiveDate};

/// An instant read from RFC 3339 text.
fn parse_stamp(s: &str) -> Option<Stamp> {
    let t = DateTime::parse_from_rfc3339(s).ok()?;
    Some(Stamp { secs: t.timestamp(), nanos: t.timestamp_subsec_nanos(), offset: t.offset().local_minus_utc() })
}

/// A calendar date read from `YYYY-MM-DD` text.
fn parse_ymd(s: &str) -> Option<Date> {
    let n = NaiveDate::parse_from_str(s, "%Y-%m-%d").ok()?;
    Some(Date { year: n.year(), month: n.month(), day: n.day() })
}

/// An instant written as RFC 3339 text in its own offset.
fn rfc3339(st: &Stamp) -> String {
    let off = FixedOffset::east_opt(st.offset).unwrap();
    DateTime::from_timestamp(st.secs, st.nanos).unwrap().with_timezone(&off).to_rfc3339()
}

fn d(s: &str) -> Date {
    parse_ymd(s).unwrap()
}

fn zone(name: &str) -> Zone {
    Zone::named(name).unwrap()
}

fn empty_store() -> Snapshot {
    Snapshot { rules: Vec::new(), rules_error: None, placements: Vec::new(), placements_unreadable: false }
}

fn stamp(s: &str) -> Stamp {
    parse_stamp(s).unwrap()
}

/// What the store keeps for a typed line: the item as read back, and its
/// rule among the stored rules.
struct Store {
    items: Vec<Item>,
    rules: Snapshot,
}

fn new_store() -> Store {
    Store { items: Vec::new(), rules: empty_store() }
}

fn add_from_text_in(db: &mut Store, text: &str, today: Date, now: Stamp, zone: &Zone) -> Item {
    let plan: NewItem = ms_core::plan_from_text(text, today, now, zone).expect("inside the calendar");
    let id = format!("itm_{}", db.items.len());
    if let Some(rule) = &plan.rule {
        db.rules.rules.push(RawRule {
            item_id: id.clone(),
            byday: rule.byday.clone(),
            monthday: rule.monthday.map(|m| m as i64),
            start_time: rule.start_time.clone(),
            end_time: rule.end_time.clone(),
            tz: rule.tz.clone(),
            from_date: rule.from_date.clone(),
            until_date: None,
            except_on: String::new(),
        });
    }
    let due = plan.due_at.map(|d| rfc3339(&d));
    let item = item_of_row(
        id,
        plan.title.clone(),
        &plan.tags,
        plan.category.clone(),
        plan.location.clone(),
        plan.listed as i64,
        due.as_deref(),
        plan.estimate_min.map(|m| m as i64),
        &rfc3339(&now),
        "self".to_string(),
        None,
        plan.rule.is_some() as i64,
    );
    db.items.push(item.clone());
    item
}


fn get_items(db: &Store, f: &Filter) -> Vec<Item> {
    select(db.items.clone(), f)
}

fn import_into(db: &mut Store, batch: &[ImportRecord], now: Stamp) -> Result<ms_core::ImportOutcome, String> {
    import(&mut db.items, &mut db.rules.rules, &batch.to_vec(), now)
}

fn noon() -> Stamp {
    stamp("2026-08-31T12:00:00Z")
}

fn rec(ext: &str, title: &str) -> ImportRecord {
    ImportRecord {
        external_id: ext.into(),
        title: title.into(),
        due_at: Some("2026-09-04T23:59:00-05:00".into()),
        estimate_min: Some(120),
        tags: vec!["math".into()],
        location: None,
        repeat: None,
    }
}

/// The failure that produced the predecessor's duplicate tasks was a fresh
/// uuid on every agent call. Agents retry; the same import must be a no-op.
#[test]
fn importing_the_same_records_twice_changes_nothing() {
    let mut db = new_store();
    let batch = vec![rec("canvas:1", "STAT240 problem set"), rec("canvas:2", "MATH210 lab")];

    let first = import_into(&mut db, &batch, noon()).unwrap();
    assert_eq!((first.added, first.updated), (2, 0));
    let after_first = get_items(&db, &Filter::default());

    let second = import_into(&mut db, &batch, noon()).unwrap();
    assert_eq!((second.added, second.updated), (0, 2), "recognised, not re-added");

    assert_eq!(get_items(&db, &Filter::default()).len(), 2, "still two items");
    assert_eq!(get_items(&db, &Filter::default()), after_first, "and exactly as they were");
}

#[test]
fn a_corrected_record_updates_in_place() {
    let mut db = new_store();
    import_into(&mut db, &[rec("canvas:1", "STAT240 problem set")], noon()).unwrap();

    let mut fixed = rec("canvas:1", "STAT240 problem set (revised)");
    fixed.due_at = Some("2026-09-06T23:59:00-05:00".into());
    import_into(&mut db, &[fixed], noon()).unwrap();

    let items = get_items(&db, &Filter::default());
    assert_eq!(items.len(), 1, "no rival row");
    assert_eq!(items[0].title, "STAT240 problem set (revised)");
    assert_eq!(items[0].source, "import");
}

/// Without a caller-owned key there is nothing to recognise a repeat by, so
/// the record is refused rather than silently duplicated later.
#[test]
fn a_record_without_an_external_id_is_refused_and_nothing_is_written() {
    let mut db = new_store();
    let mut bad = rec("", "no key");
    bad.external_id = String::new();

    let batch = vec![rec("canvas:1", "fine"), bad, rec("canvas:3", "also fine")];
    let err = import_into(&mut db, &batch, noon()).unwrap_err();

    assert!(err.contains("external_id"), "error should name the problem: {err}");
    assert!(
        get_items(&db, &Filter::default()).is_empty(),
        "a partial import is worse than none: the whole batch must roll back"
    );
}

#[test]
fn imports_never_touch_what_you_typed_yourself() {
    let mut db = new_store();
    let today = d("2026-08-31");
    add_from_text_in(&mut db, "STAT240 problem set", today, noon(), &zone("America/Chicago"));
    let mine = db.items[0].clone();

    import_into(&mut db, &[rec("canvas:1", "STAT240 problem set")], noon()).unwrap();

    let items = get_items(&db, &Filter::default());
    assert_eq!(items.len(), 2, "same title, different provenance, both kept");
    assert_eq!(items.iter().filter(|i| i.source == "self").count(), 1);
    assert_eq!(items.iter().filter(|i| i.external_id.is_none()).count(), 1);
    assert_eq!(db.items[0], mine, "the typed item is exactly as it was");
}

/// A class timetable is the main thing an agent imports, and it is recurring.
/// Without this the agent has to fall back to `add`, which duplicates on every
/// re-run -- the exact failure `import` exists to prevent.
#[test]
fn a_recurring_class_can_be_imported_and_re_imported() {
    let mut db = new_store();
    let class = ImportRecord {
        external_id: "gcal:phys201".into(),
        title: "PHYS201".into(),
        due_at: None,
        estimate_min: None,
        tags: vec!["class".into()],
        location: Some("Hall 2.106".into()),
        repeat: Some(ImportRepeat {
            byday: vec!["mon".into(), "wed".into()],
            start_time: "10:30".into(),
            end_time: "12:00".into(),
            tz: Some("America/Chicago".into()),
        }),
    };

    let first = import_into(&mut db, std::slice::from_ref(&class), noon()).unwrap();
    assert_eq!((first.added, first.updated), (1, 0));

    let items = get_items(&db, &Filter::default());
    assert_eq!(items.len(), 1);
    assert!(items[0].recurs, "imported as a repeat, not a one-off");
    assert!(!items[0].listed, "a timetabled class does not belong in the to-do list");
    assert_eq!(items[0].location.as_deref(), Some("Hall 2.106"));

    let rule = db.rules.rules.iter().find(|r| r.item_id == items[0].id).unwrap();
    assert_eq!(rule.byday, "mon,wed");
    assert_eq!(rule.start_time, "10:30");
    assert_eq!(rule.tz.as_deref(), Some("America/Chicago"));

    // Re-running must not add a second class, nor a second rule.
    let second = import_into(&mut db, &[class], noon()).unwrap();
    assert_eq!((second.added, second.updated), (0, 1));
    assert_eq!(get_items(&db, &Filter::default()).len(), 1);
    assert_eq!(db.rules.rules.len(), 1, "one rule, not two");
}

/// Dropping the repeat on a later import turns it back into a plain item --
/// a class that was cancelled should not keep appearing on the week.
#[test]
fn removing_the_repeat_on_re_import_clears_the_rule() {
    let mut db = new_store();
    let mut r = ImportRecord {
        external_id: "gcal:x".into(),
        title: "seminar".into(),
        due_at: None,
        estimate_min: None,
        tags: vec![],
        location: None,
        repeat: Some(ImportRepeat {
            byday: vec!["fri".into()],
            start_time: "15:00".into(),
            end_time: "16:00".into(),
            tz: None,
        }),
    };
    import_into(&mut db, std::slice::from_ref(&r), noon()).unwrap();
    assert!(get_items(&db, &Filter::default())[0].recurs);

    r.repeat = None;
    import_into(&mut db, &[r], noon()).unwrap();
    assert!(!get_items(&db, &Filter::default())[0].recurs, "rule removed");
    assert!(db.rules.rules.is_empty());
}

#[test]
fn an_unknown_zone_refuses_the_batch_and_names_it() {
    let mut db = new_store();
    let mut r = rec("gcal:y", "lab");
    r.repeat = Some(ImportRepeat { byday: vec!["tue".into()], start_time: "09:00".into(), end_time: "10:00".into(), tz: Some("CT".into()) });
    let err = import_into(&mut db, &[rec("gcal:ok", "fine"), r], noon()).unwrap_err();
    assert_eq!(err, "record 1 (\"lab\") has unknown time zone \"CT\"; nothing was imported");
    assert!(db.items.is_empty() && db.rules.rules.is_empty());
}

#[test]
fn a_repeat_on_no_days_and_a_blank_title_are_refused() {
    let mut db = new_store();
    let mut r = rec("gcal:z", "gym");
    r.repeat = Some(ImportRepeat { byday: vec![], start_time: "09:00".into(), end_time: "10:00".into(), tz: None });
    assert_eq!(
        import_into(&mut db, &[r], noon()).unwrap_err(),
        "record 0 (\"gym\") repeats on no days; nothing was imported"
    );
    assert_eq!(
        import_into(&mut db, &[rec("k", "   ")], noon()).unwrap_err(),
        "record 0 has an empty title; nothing was imported"
    );
}

#[test]
fn a_key_repeated_within_one_batch_is_one_item_holding_the_last_record() {
    let mut db = new_store();
    let out = import_into(&mut db, &[rec("k", "first"), rec("k", "second")], noon()).unwrap();
    assert_eq!((out.added, out.updated), (1, 1));
    assert_eq!(db.items.len(), 1);
    assert_eq!(db.items[0].title, "second");
    assert!(db.items[0].id.starts_with("itm_") && db.items[0].id.len() == 36);
}

#[test]
fn a_new_id_is_the_prefix_and_thirty_two_hex_digits() {
    let a = ms_core::new_id();
    let b = ms_core::new_id();
    assert!(a.starts_with("itm_"));
    assert_eq!(a.len(), 36);
    assert!(a[4..].chars().all(|c| c.is_ascii_hexdigit() && !c.is_ascii_uppercase()));
    assert_ne!(a, b);
}

#[test]
fn ids_are_wanted_only_for_new_keys_and_a_taken_one_refuses_the_batch() {
    let mut db = new_store();
    let batch = vec![rec("canvas:1", "STAT240 problem set"), rec("canvas:2", "MATH210 lab")];
    assert_eq!(new_keys(&db.items, &batch), 2);
    let ids = vec!["itm_a".to_string(), "itm_b".to_string()];
    let o = import_with_ids(&mut db.items, &mut db.rules.rules, &batch, &ids, noon()).unwrap();
    assert_eq!((o.added, o.updated), (2, 0));
    assert_eq!(db.items[0].id, "itm_a");
    assert_eq!(db.items[1].id, "itm_b");

    // Every key is held now: nothing to draw, and the re-run succeeds.
    assert_eq!(new_keys(&db.items, &batch), 0);
    let o = import_with_ids(&mut db.items, &mut db.rules.rules, &batch, &Vec::new(), noon()).unwrap();
    assert_eq!((o.added, o.updated), (0, 2));

    // A new key given an id already in the store refuses the whole batch.
    let more = vec![rec("canvas:1", "renamed"), rec("canvas:3", "essay")];
    assert_eq!(new_keys(&db.items, &more), 1);
    let err = import_with_ids(&mut db.items, &mut db.rules.rules, &more, &vec!["itm_a".to_string()], noon());
    assert_eq!(err.unwrap_err(), "UNIQUE constraint failed: items.id");
    assert_eq!(db.items.len(), 2);
    assert_eq!(db.items[0].title, "STAT240 problem set", "nothing was written");

    // A key repeated within the batch wants one id, not two.
    let twice = vec![rec("canvas:4", "a"), rec("canvas:4", "b")];
    assert_eq!(new_keys(&db.items, &twice), 1);
}
