//! Telegram capture: a terse line is completed one question at a time, and
//! nothing typed is ever lost. These drive whole conversations through the
//! same decision function the bot runs, threading its state as the bot does.

use ms_core::bot::{converse, Action, Pending};
use ms_core::calendar::Date;
use ms_core::render::{added_reply, capture_reply, list_reply};
use ms_core::rules::RawRule;
use ms_core::store::{item_of_row, select};
use ms_core::{help_text, interpret, Command, Filter, Item, NewItem, Snapshot, Stamp, Zone};
use chrono::{DateTime, FixedOffset};

/// An instant read from RFC 3339 text.
fn parse_stamp(s: &str) -> Option<Stamp> {
    let t = DateTime::parse_from_rfc3339(s).ok()?;
    Some(Stamp { secs: t.timestamp(), nanos: t.timestamp_subsec_nanos(), offset: t.offset().local_minus_utc() })
}

/// An instant written as RFC 3339 text in its own offset.
fn rfc3339(st: &Stamp) -> String {
    let off = FixedOffset::east_opt(st.offset).unwrap();
    DateTime::from_timestamp(st.secs, st.nanos).unwrap().with_timezone(&off).to_rfc3339()
}

fn zone(name: &str) -> Zone {
    Zone::named(name).unwrap()
}

fn empty_store() -> Snapshot {
    Snapshot { rules: Vec::new(), rules_error: None, placements: Vec::new(), placements_unreadable: false }
}

fn stamp(s: &str) -> Stamp {
    parse_stamp(s).unwrap()
}

/// What the store keeps for a typed line: the item as read back, and its
/// rule among the stored rules.
struct Store {
    items: Vec<Item>,
    rules: Snapshot,
}

fn new_store() -> Store {
    Store { items: Vec::new(), rules: empty_store() }
}

fn add_from_text_in(db: &mut Store, text: &str, today: Date, now: Stamp, zone: &Zone) -> Item {
    let plan: NewItem = ms_core::plan_from_text(text, today, now, zone).expect("inside the calendar");
    let id = format!("itm_{}", db.items.len());
    if let Some(rule) = &plan.rule {
        db.rules.rules.push(RawRule {
            item_id: id.clone(),
            byday: rule.byday.clone(),
            monthday: rule.monthday.map(|m| m as i64),
            start_time: rule.start_time.clone(),
            end_time: rule.end_time.clone(),
            tz: rule.tz.clone(),
            from_date: rule.from_date.clone(),
            until_date: None,
            except_on: String::new(),
        });
    }
    let due = plan.due_at.map(|d| rfc3339(&d));
    let item = item_of_row(
        id,
        plan.title.clone(),
        &plan.tags,
        plan.category.clone(),
        plan.location.clone(),
        plan.listed as i64,
        due.as_deref(),
        plan.estimate_min.map(|m| m as i64),
        &rfc3339(&now),
        "self".to_string(),
        None,
        plan.rule.is_some() as i64,
    );
    db.items.push(item.clone());
    item
}


fn get_items(db: &Store, f: &Filter) -> Vec<Item> {
    select(db.items.clone(), f)
}

fn today() -> Date {
    Date { year: 2026, month: 9, day: 8 }
}

fn now() -> Stamp {
    stamp("2026-09-08T15:00:00Z")
}

fn chicago() -> Zone {
    zone("America/Chicago")
}

/// Store a capture and describe what was made of it.
fn commit(db: &mut Store, text: &str, lead: &str) -> String {
    let item = add_from_text_in(db, text, today(), now(), &chicago());
    let p = ms_core::parse(text, today());
    added_reply(lead, &item, &p.byday, &chicago())
}

fn handle(db: &mut Store, text: &str) -> String {
    match interpret(text, today()) {
        Command::Help => help_text(),
        Command::List(scope) => {
            let open = get_items(db, &Filter { listed: Some(true), done: Some(false), on: Some(today()), ..Default::default() });
            list_reply(scope, &open, today(), &chicago()).unwrap()
        }
        Command::Capture(p) => {
            if p.title.trim().is_empty() {
                return "nothing to add".into();
            }
            let item = add_from_text_in(db, text, today(), now(), &chicago());
            capture_reply(&item, &p, None, &chicago())
        }
        _ => String::new(),
    }
}

/// Drive a whole exchange, returning what the bot said each time.
fn talk(db: &mut Store, lines: &[&str]) -> Vec<String> {
    let mut pending: Option<Pending> = None;
    let mut said = Vec::new();
    for line in lines {
        let (next, actions) = converse(pending.take(), line, today());
        pending = next;
        let parts: Vec<String> = actions
            .into_iter()
            .map(|a| match a {
                Action::Say(s) => s,
                Action::Commit { text, lead } => commit(db, &text, &lead),
                Action::Handle(t) => handle(db, &t),
            })
            .collect();
        said.push(parts.join("\n\n"));
    }
    said
}

fn titles(db: &Store) -> Vec<String> {
    get_items(db, &Filter::default()).into_iter().map(|i| i.title).collect()
}

#[test]
fn a_complete_line_is_never_questioned() {
    let mut db = new_store();
    let said = talk(&mut db, &["gym fri 6am ~1h"]);
    assert!(said[0].starts_with("added"), "asked something it did not need to: {said:?}");
    assert_eq!(titles(&db), vec!["gym"]);
}

#[test]
fn a_bare_title_is_asked_for_each_missing_thing_in_turn() {
    let mut db = new_store();
    let said = talk(&mut db, &["dentist", "friday", "9am", "30m"]);
    assert!(said[0].contains("when"), "first question: {:?}", said[0]);
    assert!(said[1].contains("time"), "second question: {:?}", said[1]);
    assert!(said[2].contains("how long"), "third question: {:?}", said[2]);
    assert!(said[3].starts_with("added"), "then files it: {:?}", said[3]);

    let items = get_items(&db, &Filter::default());
    assert_eq!(items.len(), 1, "one item, not one per answer");
    assert_eq!(items[0].title, "dentist");
    assert_eq!(items[0].estimate_min, Some(30));
    assert!(items[0].due_at.is_some(), "the date answer stuck");
}

#[test]
fn an_answer_that_says_more_than_was_asked_skips_ahead() {
    let mut db = new_store();
    let said = talk(&mut db, &["dentist", "friday 9am"]);
    assert!(said[0].contains("when"));
    // Time came with the date, so the next question is length, not time.
    assert!(said[1].contains("how long"), "should have skipped the time: {:?}", said[1]);
}

#[test]
fn skipping_moves_on_and_never_asks_twice() {
    let mut db = new_store();
    let said = talk(&mut db, &["renew parking", "-", "-", "-"]);
    assert!(said[0].contains("when"));
    assert!(said[1].contains("time"));
    assert!(said[2].contains("how long"));
    assert!(said[3].starts_with("added"), "skipping everything still files it: {:?}", said[3]);
    assert_eq!(titles(&db), vec!["renew parking"]);
}

#[test]
fn cancel_drops_the_draft_and_writes_nothing() {
    let mut db = new_store();
    let said = talk(&mut db, &["dentist", "cancel"]);
    assert!(said[1].starts_with("dropped"), "{:?}", said[1]);
    assert!(titles(&db).is_empty(), "nothing should have been written");
}

/// The promise that matters: an answer the bot cannot read must not lose
/// the thing being captured.
#[test]
fn an_unreadable_answer_files_the_draft_rather_than_losing_it() {
    let mut db = new_store();
    let said = talk(&mut db, &["dentist", "sometime soonish"]);
    assert!(said[1].contains("filed as it was"), "{:?}", said[1]);
    assert!(titles(&db).contains(&"dentist".to_string()), "the draft survived");
}

/// An answer that happens to read as a date is taken as one, even if it
/// looks like a fresh thought.
#[test]
fn an_answer_containing_a_date_is_treated_as_the_answer() {
    let mut db = new_store();
    talk(&mut db, &["dentist", "buy milk tomorrow", "-", "-"]);
    let all = titles(&db);
    assert_eq!(all.len(), 1, "it merges rather than splitting: {all:?}");
    assert!(all[0].starts_with("dentist"), "{all:?}");
}

#[test]
fn a_repeat_is_never_asked_for_a_date() {
    let mut db = new_store();
    let said = talk(&mut db, &["trash every tue 20:00"]);
    assert!(said[0].starts_with("added"), "a repeat needs nothing else: {:?}", said[0]);
}

#[test]
fn a_time_range_answers_both_time_and_length() {
    let mut db = new_store();
    let said = talk(&mut db, &["seminar", "friday", "14:00-15:30"]);
    assert!(said[2].starts_with("added"), "a range needs no length question: {:?}", said[2]);
}

#[test]
fn commands_still_work_and_do_not_start_a_ladder() {
    let mut db = new_store();
    let said = talk(&mut db, &["help", "list"]);
    assert!(said[0].contains("Type what you want"), "{:?}", said[0]);
    assert!(!said[1].contains("when?"), "list is not a capture: {:?}", said[1]);
}

#[test]
fn a_monthly_repeat_is_asked_which_day() {
    let mut db = new_store();
    let said = talk(&mut db, &["pay rent monthly", "1 oct", "-"]);
    assert!(said[0].contains("when"), "{:?}", said[0]);
    assert!(said[1].contains("time"), "{:?}", said[1]);
    assert!(said[2].starts_with("added"), "{:?}", said[2]);
    let items = get_items(&db, &Filter::default());
    assert_eq!(items.len(), 1);
    assert!(items[0].recurs, "it repeats");
}

#[test]
fn skipping_the_day_of_a_monthly_repeat_still_files_it() {
    let mut db = new_store();
    let said = talk(&mut db, &["pay rent monthly", "-", "-"]);
    assert!(said[2].starts_with("added"), "{:?}", said[2]);
    assert!(get_items(&db, &Filter::default())[0].recurs);
}

#[test]
fn the_token_is_read_from_the_settings_file() {
    assert_eq!(ms_core::bot::token_in("token = \"123:abc\"\n").as_deref(), Some("123:abc"));
    assert_eq!(ms_core::bot::token_in("# settings\n  token=xyz  \r\nother = 1").as_deref(), Some("xyz"));
    assert_eq!(ms_core::bot::token_in("token = \"\"\ntoken = second").as_deref(), Some("second"), "an empty value gives none");
    assert_eq!(ms_core::bot::token_in("name = bot\n"), None);
    assert_eq!(ms_core::bot::token_in(""), None);
}
