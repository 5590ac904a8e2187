//! What the window's editors decide: setting or clearing a repeat, and which
//! zones the picker offers.

use ms_core::calendar::Date;
use ms_core::import::set_recurrence;
use ms_core::render::zone_choices;
use ms_core::{RawRule, Zone};

fn zone(name: &str) -> Zone {
    Zone::named(name).unwrap()
}

fn today() -> Date {
    Date { year: 2026, month: 9, day: 1 }
}

#[test]
fn a_new_repeat_is_fixed_to_the_current_zone_from_today() {
    let mut rules: Vec<RawRule> = Vec::new();
    set_recurrence(&mut rules, &"itm_1".to_string(), &vec!["mon".into(), "wed".into()], "09:00", "10:15", None, &zone("Europe/Paris"), today());
    assert_eq!(rules.len(), 1);
    let r = &rules[0];
    assert_eq!(r.byday, "mon,wed");
    assert_eq!((r.start_time.as_str(), r.end_time.as_str()), ("09:00", "10:15"));
    assert_eq!(r.tz.as_deref(), Some("Europe/Paris"));
    assert_eq!(r.from_date, "2026-09-01");
    assert_eq!(r.monthday, None);
}

#[test]
fn editing_a_repeat_keeps_its_zone_start_and_cancelled_dates() {
    let mut rules = vec![RawRule {
        item_id: "itm_1".into(),
        byday: "mon".into(),
        monthday: None,
        start_time: "09:00".into(),
        end_time: "10:00".into(),
        tz: Some("America/Chicago".into()),
        from_date: "2026-01-05".into(),
        until_date: None,
        except_on: "2026-02-02".into(),
    }];
    set_recurrence(&mut rules, &"itm_1".to_string(), &vec![], "08:00", "09:00", Some(15), &zone("Asia/Beirut"), today());
    assert_eq!(rules.len(), 1);
    let r = &rules[0];
    assert_eq!((r.byday.as_str(), r.monthday), ("", Some(15)));
    assert_eq!(r.start_time, "08:00");
    assert_eq!(r.tz.as_deref(), Some("America/Chicago"), "the zone it was fixed to stays");
    assert_eq!((r.from_date.as_str(), r.except_on.as_str()), ("2026-01-05", "2026-02-02"));
}

#[test]
fn no_days_and_no_day_of_the_month_clears_the_repeat() {
    let mut rules: Vec<RawRule> = Vec::new();
    set_recurrence(&mut rules, &"itm_1".to_string(), &vec!["fri".into()], "15:00", "16:00", None, &zone("UTC"), today());
    set_recurrence(&mut rules, &"itm_2".to_string(), &vec!["sat".into()], "15:00", "16:00", None, &zone("UTC"), today());
    set_recurrence(&mut rules, &"itm_1".to_string(), &vec![], "15:00", "16:00", None, &zone("UTC"), today());
    assert_eq!(rules.len(), 1);
    assert_eq!(rules[0].item_id, "itm_2", "only that item's rule goes");
}

#[test]
fn the_picker_offers_here_then_the_travel_zones_then_those_in_use_each_once() {
    let offered = zone_choices(&zone("Europe/Paris"), &vec!["Asia/Tokyo".into(), "America/Chicago".into(), "Asia/Tokyo".into()]);
    assert_eq!(offered, vec!["Europe/Paris", "America/Chicago", "Asia/Beirut", "Asia/Tokyo"]);
}
