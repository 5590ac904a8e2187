//! Property test for the totality guarantee: get_week never panics and never
//! returns more than a week, for arbitrary stored data and arbitrary anchors.
//!
//! Deterministic: SEED is fixed and recorded so a failure is reproducible.

use chrono::{Datelike, NaiveDate};
use chrono_tz::TZ_VARIANTS;
use ms_core::calendar::Date;
use ms_core::{get_week, RawRule, Snapshot, Zone};

const SEED: u64 = 0x5EED_1234_ABCD_0001;
const CASES: usize = 4000;

/// xorshift64*, so the test carries no dependency and stays reproducible.
struct Rng(u64);
impl Rng {
    fn next(&mut self) -> u64 {
        let mut x = self.0;
        x ^= x >> 12;
        x ^= x << 25;
        x ^= x >> 27;
        self.0 = x;
        x.wrapping_mul(0x2545_F491_4F6C_DD1D)
    }
    fn pick<'a>(&mut self, xs: &[&'a str]) -> &'a str {
        xs[(self.next() % xs.len() as u64) as usize]
    }
}

const BYDAYS: &[&str] = &["mon", "mon,wed", "", "funday", "MON,tue", ",,,", "sun,sun", "mon,,wed", "\u{1F642}"];
const TIMES: &[&str] = &["09:00", "00:00", "23:59", "2:30", "25:00", "", "abc", "09:60", "-1:00", "02:30"];
const DATES: &[&str] = &["2026-08-01", "1900-01-01", "9999-12-31", "", "not-a-date", "2026-02-30", "0000-01-01"];
const ZONES: &[&str] = &["America/Chicago", "Europe/Paris", "Asia/Beirut", "US/Central", "Mars/Olympus", "", "UTC"];
const EXCEPTS: &[&str] = &["", "2026-09-02", "garbage", "2026-09-02,junk,", ",,", "2026-13-45"];

#[test]
fn get_week_never_panics_on_arbitrary_data() {
    let mut rng = Rng(SEED);
    let zones: Vec<&str> = TZ_VARIANTS.iter().map(|z| z.name()).collect();

    for case in 0..CASES {
        let mut db = Snapshot { rules: Vec::new(), rules_error: None, placements: Vec::new(), placements_unreadable: false };

        for i in 0..(rng.next() % 4) {
            let until: Option<&str> = if rng.next() % 2 == 0 { None } else { Some(rng.pick(DATES)) };
            let byday = rng.pick(BYDAYS);
            let start = rng.pick(TIMES);
            let end = rng.pick(TIMES);
            let tz = rng.pick(ZONES);
            let from = rng.pick(DATES);
            let except = rng.pick(EXCEPTS);
            db.rules.push(RawRule {
                item_id: format!("i{i}"),
                byday: byday.to_string(),
                monthday: None,
                start_time: start.to_string(),
                end_time: end.to_string(),
                tz: Some(tz.to_string()),
                from_date: from.to_string(),
                until_date: until.map(str::to_string),
                except_on: except.to_string(),
            });
        }

        // Anchors across the whole representable calendar, including the edges.
        let anchor = match rng.next() % 10 {
            0 => NaiveDate::MAX,
            1 => NaiveDate::MIN,
            2 => NaiveDate::MAX - chrono::Duration::days((rng.next() % 9) as i64),
            3 => NaiveDate::MIN + chrono::Duration::days((rng.next() % 9) as i64),
            _ => NaiveDate::from_num_days_from_ce_opt((rng.next() % 3_000_000) as i32 - 500_000)
                .unwrap_or(NaiveDate::MAX),
        };
        let anchor = Date { year: anchor.year(), month: anchor.month(), day: anchor.day() };
        let viewing = Zone::named(zones[(rng.next() % zones.len() as u64) as usize]).unwrap();

        let week = get_week(&db, anchor, &viewing);

        assert!(week.days.len() <= 7, "case {case}: {} days", week.days.len());
        for day in &week.days {
            for p in &day.placements {
                let (s, e) = (&p.starts_at, &p.ends_at);
                assert!((e.secs, e.nanos) >= (s.secs, s.nanos), "case {case}: negative span");
            }
        }
    }
}
