//! Timing work: one session at a time, what a stop records, and what happens
//! to sessions left running.

use ms_core::{active_session, start_with_id, sweep_stale_sessions, timer_start, timer_stop, Session, Stamp};
use chrono::{DateTime};

/// An instant read from RFC 3339 text.
fn parse_stamp(s: &str) -> Option<Stamp> {
    let t = DateTime::parse_from_rfc3339(s).ok()?;
    Some(Stamp { secs: t.timestamp(), nanos: t.timestamp_subsec_nanos(), offset: t.offset().local_minus_utc() })
}

fn t(h: u32, m: u32) -> Stamp {
    parse_stamp(&format!("2026-09-01T{h:02}:{m:02}:00Z")).unwrap()
}

fn same(a: &Stamp, b: &Stamp) -> bool {
    a.secs == b.secs && a.nanos == b.nanos
}

#[test]
fn a_timer_records_the_interval_it_ran_for() {
    let mut db: Vec<Session> = Vec::new();

    let started = timer_start(&mut db, "stat240", None, t(13, 0)).unwrap();
    assert!(started.stopped.is_none(), "nothing was running");
    assert_eq!(started.started.item_id, "stat240");
    assert_eq!(started.started.ended_at, None, "a running session has no end");

    let stopped = timer_stop(&mut db, &started.started.id, t(14, 30)).unwrap();
    assert!(same(&stopped.started_at, &t(13, 0)));
    assert!(same(&stopped.ended_at.unwrap(), &t(14, 30)));
    assert_eq!((stopped.ended_at.unwrap().secs - stopped.started_at.secs) / 60, 90);
}

#[test]
fn only_one_timer_runs_and_starting_another_reports_what_it_stopped() {
    let mut db: Vec<Session> = Vec::new();

    let first = timer_start(&mut db, "stat240", None, t(13, 0)).unwrap().started;
    let second = timer_start(&mut db, "math210", None, t(13, 45)).unwrap();

    let stopped = second.stopped.expect("the running timer must be stopped, not silently abandoned");
    assert_eq!(stopped.id, first.id);
    assert!(same(&stopped.ended_at.unwrap(), &t(13, 45)), "banked at the moment the next one began");

    let now_running = active_session(&db).expect("the new one is running");
    assert_eq!(now_running.item_id, "math210");
}

#[test]
fn a_session_outlives_the_placement_it_was_started_from() {
    let mut db: Vec<Session> = Vec::new();

    // Generated placements have no row at all; the id is derived.
    let s = timer_start(&mut db, "stat240", Some("plc_2026-09-01_stat240"), t(13, 0)).unwrap().started;
    let stopped = timer_stop(&mut db, &s.id, t(14, 0)).unwrap();

    assert_eq!(stopped.item_id, "stat240", "the durable link survives");
    assert_eq!(stopped.placement_id.as_deref(), Some("plc_2026-09-01_stat240"));
}

/// A crash or a forgotten stop leaves a session open forever, which would
/// poison the one number the app exists to produce.
#[test]
fn sessions_left_running_too_long_are_quarantined_not_counted_or_deleted() {
    let mut db: Vec<Session> = Vec::new();
    let stale = timer_start(&mut db, "stat240", None, t(1, 0)).unwrap().started;

    // 13 hours later, on startup.
    let swept = sweep_stale_sessions(&mut db, t(14, 0));

    assert_eq!(swept.len(), 1, "the stale session should be surfaced");
    assert_eq!(swept[0].id, stale.id);
    assert!(swept[0].discarded);

    // Never silently deleted: the user gets to correct it.
    assert_eq!(db.iter().filter(|s| s.id == stale.id).count(), 1, "quarantined, not destroyed");

    // And it no longer looks like something is running.
    assert!(active_session(&db).is_none());
}

#[test]
fn a_session_running_a_normal_length_of_time_is_left_alone() {
    let mut db: Vec<Session> = Vec::new();
    timer_start(&mut db, "stat240", None, t(9, 0)).unwrap();

    let swept = sweep_stale_sessions(&mut db, t(11, 0));

    assert!(swept.is_empty(), "two hours is a plausible work session");
    assert!(active_session(&db).is_some(), "still running");
}

#[test]
fn stopping_twice_is_harmless() {
    let mut db: Vec<Session> = Vec::new();
    let s = timer_start(&mut db, "stat240", None, t(9, 0)).unwrap().started;
    assert!(timer_stop(&mut db, &s.id, t(10, 0)).is_some());
    let after_first = db.clone();
    assert!(timer_stop(&mut db, &s.id, t(11, 0)).is_none(), "nothing was running");
    assert_eq!(db, after_first, "and nothing changed");
    assert!(timer_stop(&mut db, "ses_nonexistent", t(11, 0)).is_none());
}

#[test]
fn session_ids_are_fresh_and_prefixed() {
    let mut db: Vec<Session> = Vec::new();
    let a = timer_start(&mut db, "x", None, t(9, 0)).unwrap().started;
    let b = timer_start(&mut db, "y", None, t(9, 5)).unwrap().started;
    assert!(a.id.starts_with("ses_") && a.id.len() == 36);
    assert_ne!(a.id, b.id);
    assert_eq!(db.len(), 2, "starting never deletes");
}

#[test]
fn the_cutoff_is_twelve_hours_exactly() {
    let mut db: Vec<Session> = Vec::new();
    timer_start(&mut db, "x", None, t(1, 0)).unwrap();
    assert!(sweep_stale_sessions(&mut db, t(13, 0)).is_empty(), "exactly twelve hours is not yet stale");
    assert_eq!(sweep_stale_sessions(&mut db, t(13, 1)).len(), 1);
}

#[test]
fn a_start_under_a_taken_id_is_refused_after_the_stop() {
    let mut db: Vec<Session> = Vec::new();
    let first = start_with_id(&mut db, "ses_a".to_string(), "stat240", None, t(13, 0)).unwrap();
    assert_eq!(first.started.id, "ses_a");
    assert!(first.stopped.is_none());

    let refused = start_with_id(&mut db, "ses_a".to_string(), "math210", None, t(14, 0));
    assert_eq!(refused.unwrap_err(), "UNIQUE constraint failed: sessions.id");
    assert_eq!(db.len(), 1, "nothing was started");
    assert!(db[0].ended_at.is_some(), "the stop stands");

    let second = start_with_id(&mut db, "ses_b".to_string(), "math210", Some("plc_1"), t(15, 0)).unwrap();
    assert!(second.stopped.is_none(), "nothing was running any more");
    assert_eq!(second.started.placement_id.as_deref(), Some("plc_1"));
    assert_eq!(db.len(), 2);
}
