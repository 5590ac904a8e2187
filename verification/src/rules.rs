//! Recurrence rules: read once from their stored text, checked, and either
//! kept (possibly degraded, with a warning) or dropped with a warning. A rule
//! that cannot be shown is never dropped in silence.
use vstd::prelude::*;
use crate::calendar::{Date, Time, days_in_month};
use crate::compose::{dec, dec_of};
use crate::model::{Diagnostic, DiagnosticV, warn, warn_v};
use crate::text::{
    chars_of, lower, lower_vec, opt_str, split_chars, split_on, string_of, trim, trim_chars,
};
use crate::zone::{
    debug_text, hm_read, quoted, read_hm, read_ymd, tz_known, ymd_read, ymd_text, zone_known,
    date_text,
};

verus! {

/// A recurrence row exactly as stored. Any field may be malformed.
#[derive(Clone, Debug)]
pub struct RawRule {
    pub item_id: String,
    /// Comma-separated weekday codes, `mon` to `sun`.
    pub byday: String,
    /// Set for a monthly repeat: the day of the month it falls on.
    pub monthday: Option<i64>,
    pub start_time: String,
    pub end_time: String,
    /// The zone the rule is fixed to; `None` follows the machine.
    pub tz: Option<String>,
    pub from_date: String,
    pub until_date: Option<String>,
    /// Comma-separated dates on which the rule does not occur.
    pub except_on: String,
}

/// A stored rule by value.
pub struct RawRuleV {
    pub item_id: Seq<char>,
    pub byday: Seq<char>,
    pub monthday: Option<i64>,
    pub start_time: Seq<char>,
    pub end_time: Seq<char>,
    pub tz: Option<Seq<char>>,
    pub from_date: Seq<char>,
    pub until_date: Option<Seq<char>>,
    pub except_on: Seq<char>,
}

impl View for RawRule {
    type V = RawRuleV;

    open spec fn view(&self) -> RawRuleV {
        RawRuleV {
            item_id: self.item_id@,
            byday: self.byday@,
            monthday: self.monthday,
            start_time: self.start_time@,
            end_time: self.end_time@,
            tz: opt_str(self.tz),
            from_date: self.from_date@,
            until_date: opt_str(self.until_date),
            except_on: self.except_on@,
        }
    }
}

/// Stored rules by value.
pub open spec fn rules_v(v: Seq<RawRule>) -> Seq<RawRuleV> {
    v.map_values(|r: RawRule| r@)
}

/// A rule that survived validation and can be expanded without failing.
#[derive(Clone, Debug)]
pub struct Rule {
    pub item_id: String,
    /// Weekdays it falls on, Monday 0.
    pub days: Vec<u32>,
    /// For a monthly repeat, the day of the month (1 to 31).
    pub monthday: Option<u32>,
    pub start: Time,
    pub end: Time,
    /// The zone its wall clock is read in: its own, or the viewing zone.
    pub zone: String,
    /// `None` = follows the machine.
    pub pinned_tz: Option<String>,
    pub from: Date,
    pub until: Option<Date>,
    pub except: Vec<Date>,
}

pub struct RuleV {
    pub item_id: Seq<char>,
    pub days: Seq<u32>,
    pub monthday: Option<u32>,
    pub start: Time,
    pub end: Time,
    pub zone: Seq<char>,
    pub pinned_tz: Option<Seq<char>>,
    pub from: Date,
    pub until: Option<Date>,
    pub except: Seq<Date>,
}

impl View for Rule {
    type V = RuleV;

    open spec fn view(&self) -> RuleV {
        RuleV {
            item_id: self.item_id@,
            days: self.days@,
            monthday: self.monthday,
            start: self.start,
            end: self.end,
            zone: self.zone@,
            pinned_tz: opt_str(self.pinned_tz),
            from: self.from,
            until: self.until,
            except: self.except@,
        }
    }
}

impl RuleV {
    /// What expansion relies on: a real window of the day, real dates, a weekday
    /// or a day of the month to fall on, and a zone chrono-tz knows.
    pub open spec fn wf(self) -> bool {
        &&& self.start.wf() && self.end.wf()
        &&& self.start.minutes() < self.end.minutes()
        &&& self.from.wf()
        &&& (self.until matches Some(u) ==> u.wf())
        &&& forall|k: int| 0 <= k < self.days.len() ==> #[trigger] self.days[k] < 7
        &&& (self.monthday matches Some(m) ==> 1 <= m <= 31)
        &&& tz_known(self.zone)
    }
}

/// The weekday a three-letter code names, Monday 0.
pub open spec fn code_day(s: Seq<char>) -> Option<u32> {
    if s == seq!['m', 'o', 'n'] {
        Some(0)
    } else if s == seq!['t', 'u', 'e'] {
        Some(1)
    } else if s == seq!['w', 'e', 'd'] {
        Some(2)
    } else if s == seq!['t', 'h', 'u'] {
        Some(3)
    } else if s == seq!['f', 'r', 'i'] {
        Some(4)
    } else if s == seq!['s', 'a', 't'] {
        Some(5)
    } else if s == seq!['s', 'u', 'n'] {
        Some(6)
    } else {
        None
    }
}

/// The usable weekdays among comma-separated pieces, trimmed and lower-cased,
/// in the order written; anything else is passed over.
pub open spec fn codes(ps: Seq<Seq<char>>) -> Seq<u32>
    decreases ps.len(),
{
    if ps.len() == 0 {
        Seq::empty()
    } else {
        let rest = codes(ps.drop_last());
        match code_day(lower(trim(ps.last()))) {
            Some(c) => rest.push(c),
            None => rest,
        }
    }
}

pub open spec fn except_warning(entry: Seq<char>) -> Seq<char> {
    "Ignored unreadable exception date "@ + debug_text(entry)
        + " \u{2014} that occurrence will still appear"@
}

/// The exception dates among comma-separated pieces, and a warning for each
/// piece that is not empty and is not a date.
pub open spec fn excepts(id: Seq<char>, ps: Seq<Seq<char>>) -> (Seq<Date>, Seq<DiagnosticV>)
    decreases ps.len(),
{
    if ps.len() == 0 {
        (Seq::empty(), Seq::empty())
    } else {
        let (ds, ws) = excepts(id, ps.drop_last());
        let e = trim(ps.last());
        if e.len() == 0 {
            (ds, ws)
        } else {
            match ymd_read(e) {
                Some((y, m, d)) => (ds.push(Date { year: y, month: m, day: d }), ws),
                None => (ds, ws.push(warn_v(id, except_warning(e)))),
            }
        }
    }
}

pub open spec fn as_date(t: (i32, u32, u32)) -> Date {
    Date { year: t.0, month: t.1, day: t.2 }
}

pub open spec fn as_time(t: (u32, u32)) -> Time {
    Time { hour: t.0, minute: t.1 }
}

/// An end date, if one is written: blank means open-ended, and so does an
/// unreadable one, with a warning, since the series itself still exists.
pub open spec fn until_of(raw: RawRule) -> (Option<Date>, Seq<DiagnosticV>) {
    match raw.until_date {
        None => (None, Seq::empty()),
        Some(u) => if trim(u@).len() == 0 {
            (None, Seq::empty())
        } else {
            match ymd_read(u@) {
                Some(t) => (Some(as_date(t)), Seq::empty()),
                None => (
                    None,
                    seq![
                        warn_v(
                            raw.item_id@,
                            "Unreadable until_date "@ + debug_text(u@)
                                + " \u{2014} treated as open-ended"@,
                        ),
                    ],
                ),
            }
        },
    }
}

/// `i64`'s `Display`.
pub open spec fn signed_text(n: int) -> Seq<char> {
    if n < 0 {
        seq!['-'] + dec((-n) as nat)
    } else {
        dec(n as nat)
    }
}

/// The zone the rule is read in, what it is pinned to, and a warning for a zone
/// nobody knows: that degrades to the viewing zone rather than vanishing.
pub open spec fn zone_of(raw: RawRule, viewing: Seq<char>) -> (Seq<char>, Option<Seq<char>>, Seq<DiagnosticV>) {
    match raw.tz {
        None => (viewing, None, Seq::empty()),
        Some(n) => if tz_known(n@) {
            (n@, Some(n@), Seq::empty())
        } else {
            (
                viewing,
                None,
                seq![
                    warn_v(
                        raw.item_id@,
                        "Unknown time zone "@ + debug_text(n@)
                            + " \u{2014} shown on system time instead"@,
                    ),
                ],
            )
        },
    }
}

/// Why a rule with readable dates and times never occurs, if it does not.
pub open spec fn cadence_problem(raw: RawRule) -> Option<Seq<char>> {
    match raw.monthday {
        Some(m) => if 1 <= m <= 31 {
            None
        } else {
            Some("Recurrence never occurs: there is no day "@ + signed_text(m as int) + " in a month"@)
        },
        None => if codes(split_on(raw.byday@, ',')).len() == 0 {
            Some("Recurrence never occurs: no usable weekday in "@ + debug_text(raw.byday@))
        } else {
            None
        },
    }
}

/// What validating a stored rule gives: the rule, unless it cannot be shown at
/// all, and every warning about it, in the order they arise.
pub open spec fn validate_spec(raw: RawRule, viewing: Seq<char>) -> (Option<RuleV>, Seq<DiagnosticV>) {
    let id = raw.item_id@;
    match ymd_read(raw.from_date@) {
        None => (
            None,
            seq![warn_v(id, "Recurrence skipped: unreadable from_date "@ + debug_text(raw.from_date@))],
        ),
        Some(f) => {
            let from = as_date(f);
            let (until, w1) = until_of(raw);
            if until is Some && until.unwrap().lt(from) {
                let u = until.unwrap();
                (
                    None,
                    w1.push(
                        warn_v(
                            id,
                            "Recurrence skipped: until_date "@ + ymd_text(u.year, u.month, u.day)
                                + " precedes from_date "@ + ymd_text(from.year, from.month, from.day),
                        ),
                    ),
                )
            } else {
                match (hm_read(raw.start_time@), hm_read(raw.end_time@)) {
                    (Some(s), Some(e)) => if as_time(e).minutes() <= as_time(s).minutes() {
                        (
                            None,
                            w1.push(
                                warn_v(
                                    id,
                                    "Recurrence skipped: end "@ + raw.end_time@ + " is not after start "@
                                        + raw.start_time@,
                                ),
                            ),
                        )
                    } else {
                        match cadence_problem(raw) {
                            Some(msg) => (None, w1.push(warn_v(id, msg))),
                            None => {
                                let (zone, pinned, w2) = zone_of(raw, viewing);
                                let (ex, w3) = excepts(id, split_on(raw.except_on@, ','));
                                (
                                    Some(
                                        RuleV {
                                            item_id: id,
                                            days: match raw.monthday {
                                                Some(_) => Seq::empty(),
                                                None => codes(split_on(raw.byday@, ',')),
                                            },
                                            monthday: match raw.monthday {
                                                Some(m) => Some(m as u32),
                                                None => None,
                                            },
                                            start: as_time(s),
                                            end: as_time(e),
                                            zone,
                                            pinned_tz: pinned,
                                            from,
                                            until,
                                            except: ex,
                                        },
                                    ),
                                    w1 + w2 + w3,
                                )
                            },
                        }
                    },
                    _ => (
                        None,
                        w1.push(
                            warn_v(
                                id,
                                "Recurrence skipped: unreadable time range "@ + debug_text(
                                    raw.start_time@,
                                ) + "-"@ + debug_text(raw.end_time@),
                            ),
                        ),
                    ),
                }
            }
        },
    }
}

/// The view of a list of warnings.
pub open spec fn diags_v(v: Seq<Diagnostic>) -> Seq<DiagnosticV> {
    v.map_values(|d: Diagnostic| d@)
}

fn code_day_of(s: &Vec<char>) -> (r: Option<u32>)
    ensures
        r == code_day(s@),
{
    if s.len() != 3 {
        return None;
    }
    let (a, b, c) = (s[0], s[1], s[2]);
    assert(s@ =~= seq![a, b, c]);
    if a == 'm' && b == 'o' && c == 'n' {
        Some(0)
    } else if a == 't' && b == 'u' && c == 'e' {
        Some(1)
    } else if a == 'w' && b == 'e' && c == 'd' {
        Some(2)
    } else if a == 't' && b == 'h' && c == 'u' {
        Some(3)
    } else if a == 'f' && b == 'r' && c == 'i' {
        Some(4)
    } else if a == 's' && b == 'a' && c == 't' {
        Some(5)
    } else if a == 's' && b == 'u' && c == 'n' {
        Some(6)
    } else {
        None
    }
}

/// The weekdays named in a comma-separated list, in the order written.
pub fn weekday_codes(byday: &str) -> (r: Vec<u32>)
    ensures
        r@ == codes(split_on(byday@, ',')),
        forall|k: int| 0 <= k < r.len() ==> #[trigger] r@[k] < 7,
{
    let parts = split_chars(&chars_of(byday), ',');
    let ghost ps = split_on(byday@, ',');
    let mut out: Vec<u32> = Vec::new();
    let mut i: usize = 0;
    while i < parts.len()
        invariant
            i <= parts.len(),
            parts@.map_values(|v: Vec<char>| v@) == ps,
            out@ == codes(ps.take(i as int)),
            forall|k: int| 0 <= k < out.len() ==> #[trigger] out@[k] < 7,
        decreases parts.len() - i,
    {
        assert(ps.take(i + 1).drop_last() =~= ps.take(i as int));
        assert(ps.take(i + 1).last() == parts@[i as int]@);
        let piece = lower_vec(&trim_chars(&parts[i]));
        match code_day_of(&piece) {
            Some(c) => out.push(c),
            None => {},
        }
        i = i + 1;
    }
    assert(ps.take(parts.len() as int) =~= ps);
    out
}

/// The exception dates in a comma-separated list, warning about each
/// non-empty piece that is not a date.
pub fn except_dates(id: &str, csv: &str, diags: &mut Vec<Diagnostic>) -> (r: Vec<Date>)
    ensures
        r@ == excepts(id@, split_on(csv@, ',')).0,
        diags_v(final(diags)@) == diags_v(old(diags)@) + excepts(id@, split_on(csv@, ',')).1,
        forall|k: int| 0 <= k < r.len() ==> (#[trigger] r@[k]).wf(),
{
    let parts = split_chars(&chars_of(csv), ',');
    let ghost ps = split_on(csv@, ',');
    let ghost start = diags_v(diags@);
    let mut out: Vec<Date> = Vec::new();
    let mut i: usize = 0;
    while i < parts.len()
        invariant
            i <= parts.len(),
            parts@.map_values(|v: Vec<char>| v@) == ps,
            out@ == excepts(id@, ps.take(i as int)).0,
            diags_v(diags@) == start + excepts(id@, ps.take(i as int)).1,
            forall|k: int| 0 <= k < out.len() ==> (#[trigger] out@[k]).wf(),
        decreases parts.len() - i,
    {
        assert(ps.take(i + 1).drop_last() =~= ps.take(i as int));
        assert(ps.take(i + 1).last() == parts@[i as int]@);
        let e = trim_chars(&parts[i]);
        if e.len() > 0 {
            let text = string_of(&e);
            match read_ymd(text.as_str()) {
                Some(d) => {
                    out.push(d);
                },
                None => {
                    let mut m = String::from_str("Ignored unreadable exception date ");
                    m.append(quoted(text.as_str()).as_str());
                    m.append(" \u{2014} that occurrence will still appear");
                    warn(diags, id, m);
                    assert(diags_v(diags@) =~= start + excepts(id@, ps.take(i + 1)).1);
                },
            }
        }
        i = i + 1;
    }
    assert(ps.take(parts.len() as int) =~= ps);
    out
}

pub open spec fn rule_opt_v(r: Option<Rule>) -> Option<RuleV> {
    match r {
        Some(x) => Some(x@),
        None => None,
    }
}

fn read_until(raw: &RawRule, diags: &mut Vec<Diagnostic>) -> (r: Option<Date>)
    ensures
        r == until_of(*raw).0,
        diags_v(final(diags)@) == diags_v(old(diags)@) + until_of(*raw).1,
        r matches Some(d) ==> d.wf(),
{
    match &raw.until_date {
        None => {
            assert(diags_v(diags@) =~= diags_v(diags@) + Seq::<DiagnosticV>::empty());
            None
        },
        Some(u) => {
            let t = trim_chars(&chars_of(u.as_str()));
            if t.len() == 0 {
                assert(diags_v(diags@) =~= diags_v(diags@) + Seq::<DiagnosticV>::empty());
                return None;
            }
            match read_ymd(u.as_str()) {
                Some(d) => {
                    assert(diags_v(diags@) =~= diags_v(diags@) + Seq::<DiagnosticV>::empty());
                    Some(d)
                },
                None => {
                    let ghost before = diags_v(diags@);
                    let mut m = String::from_str("Unreadable until_date ");
                    m.append(quoted(u.as_str()).as_str());
                    m.append(" \u{2014} treated as open-ended");
                    warn(diags, raw.item_id.as_str(), m);
                    assert(diags_v(diags@) =~= before + until_of(*raw).1);
                    None
                },
            }
        },
    }
}

fn rule_zone(raw: &RawRule, viewing: &str, diags: &mut Vec<Diagnostic>) -> (r: (String, Option<String>))
    requires
        tz_known(viewing@),
    ensures
        (r.0@, opt_str(r.1)) == (zone_of(*raw, viewing@).0, zone_of(*raw, viewing@).1),
        diags_v(final(diags)@) == diags_v(old(diags)@) + zone_of(*raw, viewing@).2,
        tz_known(r.0@),
{
    match &raw.tz {
        None => {
            assert(diags_v(diags@) =~= diags_v(diags@) + Seq::<DiagnosticV>::empty());
            (viewing.to_owned(), None)
        },
        Some(n) => {
            if zone_known(n.as_str()) {
                assert(diags_v(diags@) =~= diags_v(diags@) + Seq::<DiagnosticV>::empty());
                (n.clone(), Some(n.clone()))
            } else {
                let ghost before = diags_v(diags@);
                let mut m = String::from_str("Unknown time zone ");
                m.append(quoted(n.as_str()).as_str());
                m.append(" \u{2014} shown on system time instead");
                warn(diags, raw.item_id.as_str(), m);
                assert(diags_v(diags@) =~= before + zone_of(*raw, viewing@).2);
                (viewing.to_owned(), None)
            }
        },
    }
}

fn signed_text_of(n: i64) -> (r: String)
    ensures
        r@ == signed_text(n as int),
{
    if n < 0 {
        let mag: u64 = if n == i64::MIN { 9223372036854775808u64 } else { (-n) as u64 };
        let mut s = String::from_str("-");
        proof {
            reveal_strlit("-");
        }
        s.append(string_of(&dec_of_u64(mag)).as_str());
        assert(s@ =~= signed_text(n as int));
        s
    } else {
        string_of(&dec_of_u64(n as u64))
    }
}

fn dec_of_u64(n: u64) -> (r: Vec<char>)
    ensures
        r@ == dec(n as nat),
    decreases n,
{
    if n < 10 {
        let mut v: Vec<char> = Vec::new();
        v.push(((n + 48) as u8) as char);
        assert(v@ =~= dec(n as nat));
        v
    } else {
        let mut v = dec_of_u64(n / 10);
        v.push((((n % 10) + 48) as u8) as char);
        v
    }
}

fn cadence_problem_of(raw: &RawRule, days: &Vec<u32>) -> (r: Option<String>)
    requires
        days@ == codes(split_on(raw.byday@, ',')),
    ensures
        opt_str(r) == cadence_problem(*raw),
{
    match raw.monthday {
        Some(m) => if 1 <= m && m <= 31 {
            None
        } else {
            let mut s = String::from_str("Recurrence never occurs: there is no day ");
            s.append(signed_text_of(m).as_str());
            s.append(" in a month");
            Some(s)
        },
        None => if days.len() == 0 {
            let mut s = String::from_str("Recurrence never occurs: no usable weekday in ");
            s.append(quoted(raw.byday.as_str()).as_str());
            Some(s)
        } else {
            None
        },
    }
}

/// Check a stored rule once, before any day is expanded, so a bad rule reports
/// a single warning rather than one per day. `None` drops the rule from the
/// render; degrading (an unknown zone, say) keeps it and still warns.
#[verifier::rlimit(40)]
pub fn validate(raw: &RawRule, viewing: &str, diags: &mut Vec<Diagnostic>) -> (r: Option<Rule>)
    requires
        tz_known(viewing@),
    ensures
        rule_opt_v(r) == validate_spec(*raw, viewing@).0,
        diags_v(final(diags)@) == diags_v(old(diags)@) + validate_spec(*raw, viewing@).1,
        r matches Some(x) ==> x@.wf(),
{
    let id = raw.item_id.as_str();
    let ghost start = diags_v(diags@);
    let from = match read_ymd(raw.from_date.as_str()) {
        Some(f) => f,
        None => {
            let mut m = String::from_str("Recurrence skipped: unreadable from_date ");
            m.append(quoted(raw.from_date.as_str()).as_str());
            warn(diags, id, m);
            assert(diags_v(diags@) =~= start + validate_spec(*raw, viewing@).1);
            return None;
        },
    };
    let until = read_until(raw, diags);
    let ghost after_until = diags_v(diags@);
    if let Some(u) = until {
        if u.before(&from) {
            let mut m = String::from_str("Recurrence skipped: until_date ");
            m.append(date_text(&u).as_str());
            m.append(" precedes from_date ");
            m.append(date_text(&from).as_str());
            warn(diags, id, m);
            assert(diags_v(diags@) =~= start + validate_spec(*raw, viewing@).1);
            return None;
        }
    }
    let (start_t, end_t) = match (read_hm(raw.start_time.as_str()), read_hm(raw.end_time.as_str())) {
        (Some(s), Some(e)) => (s, e),
        _ => {
            let mut m = String::from_str("Recurrence skipped: unreadable time range ");
            m.append(quoted(raw.start_time.as_str()).as_str());
            m.append("-");
            m.append(quoted(raw.end_time.as_str()).as_str());
            warn(diags, id, m);
            assert(diags_v(diags@) =~= start + validate_spec(*raw, viewing@).1);
            return None;
        },
    };
    if end_t.hour * 60 + end_t.minute <= start_t.hour * 60 + start_t.minute {
        let mut m = String::from_str("Recurrence skipped: end ");
        m.append(raw.end_time.as_str());
        m.append(" is not after start ");
        m.append(raw.start_time.as_str());
        warn(diags, id, m);
        assert(diags_v(diags@) =~= start + validate_spec(*raw, viewing@).1);
        return None;
    }
    let weekdays = weekday_codes(raw.byday.as_str());
    if let Some(msg) = cadence_problem_of(raw, &weekdays) {
        warn(diags, id, msg);
        assert(diags_v(diags@) =~= start + validate_spec(*raw, viewing@).1);
        return None;
    }
    let (zone, pinned_tz) = rule_zone(raw, viewing, diags);
    let except = except_dates(id, raw.except_on.as_str(), diags);
    let (days, monthday) = match raw.monthday {
        Some(m) => (Vec::new(), Some(m as u32)),
        None => (weekdays, None),
    };
    let rule = Rule {
        item_id: raw.item_id.clone(),
        days,
        monthday,
        start: start_t,
        end: end_t,
        zone,
        pinned_tz,
        from,
        until,
        except,
    };
    proof {
        assert(rule@.days =~= validate_spec(*raw, viewing@).0.unwrap().days);
    }
    assert(diags_v(diags@) =~= start + validate_spec(*raw, viewing@).1);
    Some(rule)
}

} // verus!
