//! The estimate ratio, over what the store hands over: one sample per item
//! with an estimate, carrying its finished, non-discarded time.

use ms_core::stats::MIN_CONFIDENT;
use ms_core::{stats, Sample};

/// An item with an estimate, worked for `actual_min` in finished sessions.
fn worked(samples: &mut Vec<Sample>, tags: &str, estimate_min: u32, actual_min: u64) {
    samples.push(Sample { tags: tags.to_string(), estimate_min, actual_secs: actual_min * 60 });
}

/// The median of the per-item ratios, not the ratio of the summed totals: one
/// outsized job must not redefine a typical day.
#[test]
fn one_huge_overrun_does_not_swamp_the_typical_case() {
    let mut db = Vec::new();
    for _ in 0..20 {
        worked(&mut db, "", 30, 30); // dead on
    }
    worked(&mut db, "", 60, 600); // ten times over

    let s = stats(&db, None);

    assert_eq!(s.n, 21);
    // Ratio of totals would be 1200/660 = +82%. The median says what a normal
    // task actually costs.
    assert_eq!(s.pct_over, Some(0), "median of per-item ratios, not of totals");
}

#[test]
fn the_ratio_reads_as_a_sentence() {
    let mut db = Vec::new();
    for _ in 0..5 {
        worked(&mut db, "math", 60, 78); // 30% over
    }

    let s = stats(&db, Some("math"));

    assert_eq!(s.n, 5);
    assert_eq!(s.pct_over, Some(30));
    assert_eq!(s.phrase.as_deref(), Some("30% longer"));
    assert!(s.confident);
    assert_eq!(s.tag.as_deref(), Some("math"));
}

#[test]
fn finishing_early_reads_as_shorter() {
    let mut db = Vec::new();
    for _ in 0..5 {
        worked(&mut db, "", 60, 30);
    }

    let s = stats(&db, None);
    assert_eq!(s.pct_over, Some(-50));
    assert_eq!(s.phrase.as_deref(), Some("50% shorter"));
}

/// Below five samples the number is withheld rather than hedged.
#[test]
fn too_few_samples_withholds_the_phrase() {
    let mut db = Vec::new();
    for _ in 0..3 {
        worked(&mut db, "", 60, 120);
    }

    let s = stats(&db, None);
    assert_eq!(s.n, 3);
    assert_eq!(s.pct_over, Some(100), "still computed");
    assert_eq!(s.phrase, None, "but not stated");
    assert!(!s.confident);
}

#[test]
fn nothing_measured_yet_says_nothing() {
    let s = stats(&Vec::new(), None);
    assert_eq!(s.n, 0);
    assert_eq!(s.pct_over, None);
    assert_eq!(s.phrase, None);
}

/// A quarantined session never reaches the number: its item has no finished
/// time at all, so it is no sample.
#[test]
fn quarantined_sessions_are_excluded() {
    let mut db = Vec::new();
    for _ in 0..5 {
        worked(&mut db, "", 60, 60);
    }
    // A sixth item whose only timer was left running overnight and swept.
    worked(&mut db, "", 60, 0);

    let st = stats(&db, None);
    assert_eq!(st.n, 5, "the quarantined item contributes nothing");
    assert_eq!(st.pct_over, Some(0));
}

#[test]
fn a_tag_is_matched_whole_and_without_regard_to_case() {
    let mut db = Vec::new();
    worked(&mut db, "aftermath", 60, 120);
    worked(&mut db, " Math , work", 60, 90);
    let s = stats(&db, Some("math"));
    assert_eq!(s.n, 1, "\"math\" is not inside \"aftermath\"");
    assert_eq!(s.pct_over, Some(50));
}

#[test]
fn an_even_count_takes_the_mean_of_the_middle_two() {
    let mut db = Vec::new();
    worked(&mut db, "", 60, 60); // 1.0
    worked(&mut db, "", 60, 90); // 1.5
    worked(&mut db, "", 60, 120); // 2.0
    worked(&mut db, "", 60, 30); // 0.5
    // sorted 0.5, 1.0, 1.5, 2.0: median 1.25
    assert_eq!(stats(&db, None).pct_over, Some(25));
}

#[test]
fn a_half_percent_rounds_away_from_zero() {
    let mut db = Vec::new();
    // 201 s over 200 s... as minutes: estimate 200 min, worked 201 min: +0.5%
    db.push(Sample { tags: String::new(), estimate_min: 200, actual_secs: 201 * 60 });
    assert_eq!(stats(&db, None).pct_over, Some(1));
    let mut db = Vec::new();
    db.push(Sample { tags: String::new(), estimate_min: 200, actual_secs: 199 * 60 });
    assert_eq!(stats(&db, None).pct_over, Some(-1));
}

#[test]
fn five_samples_are_the_threshold() {
    assert_eq!(MIN_CONFIDENT, 5);
    let mut db = Vec::new();
    for _ in 0..4 {
        worked(&mut db, "", 60, 60);
    }
    assert!(!stats(&db, None).confident);
    worked(&mut db, "", 60, 60);
    assert!(stats(&db, None).confident);
    assert_eq!(stats(&db, None).phrase.as_deref(), Some("0% longer"));
}

#[test]
fn samples_come_from_finished_unquarantined_sessions_of_estimated_items() {

    let at = |h: i64| ms_core::Stamp { secs: 1_788_264_000 + h * 3600, nanos: 0, offset: 0 };
    let item = |id: &str, est: Option<u32>| {
        ms_core::store::item_of_row(
            id.to_string(),
            id.to_string(),
            "math, study",
            None,
            None,
            1,
            None,
            est.map(|m| m as i64),
            "2026-08-01T00:00:00Z",
            "self".to_string(),
            None,
            0,
        )
    };
    let session = |item_id: &str, from: i64, to: Option<i64>, discarded: bool| ms_core::Session {
        id: format!("ses_{item_id}_{from}"),
        item_id: item_id.to_string(),
        placement_id: None,
        started_at: at(from),
        ended_at: to.map(at),
        discarded,
    };
    let items: Vec<ms_core::Item> = vec![item("a", Some(60)), item("b", None), item("c", Some(30)), item("d", Some(0))];
    let sessions = vec![
        session("a", 0, Some(1), false),
        session("a", 2, Some(4), false),
        session("a", 5, Some(9), true),  // quarantined: not counted
        session("a", 10, None, false),   // still running: not counted
        session("b", 0, Some(1), false), // no estimate
        session("d", 0, Some(1), false), // a zero estimate is no estimate
    ];
    assert_eq!(ms_core::timer::spent_secs(&sessions, "a"), 3 * 3600);
    assert_eq!(ms_core::timer::spent_secs(&sessions, "c"), 0);

    let s = ms_core::stats::samples_of(&items, &sessions);
    assert_eq!(s.len(), 1, "only a has both an estimate and time worked");
    assert_eq!(s[0].tags, "math,study");
    assert_eq!(s[0].estimate_min, 60);
    assert_eq!(s[0].actual_secs, 3 * 3600);
}

/// The count is of measured samples only, and the phrase waits for five.
#[test]
fn the_count_is_of_what_was_measured() {
    let mut samples = Vec::new();
    for _ in 0..4 {
        worked(&mut samples, "math", 60, 90);
    }
    worked(&mut samples, "math", 0, 90);
    let s = stats(&samples, None);
    assert_eq!(s.n, 4);
    assert!(!s.confident && s.phrase.is_none() && s.pct_over.is_some());
    worked(&mut samples, "math", 60, 90);
    let s = stats(&samples, None);
    assert_eq!(s.n, 5);
    assert!(s.confident && s.phrase.is_some());
}
