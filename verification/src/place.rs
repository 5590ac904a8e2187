//! Putting a block of wall-clock time onto real instants in a zone.
//!
//! Usually a time of day is one instant. Twice a year it is two (the repeated
//! hour) or none (the skipped hour), and both happen in real schedules.
use vstd::prelude::*;
use crate::calendar::{Date, Time, plus, add_days};
use crate::compose::{dec, dec_of, hhmm, hhmm_of, two_of};
use crate::clock::two_digits;
use crate::text::string_of;
use crate::zone::{
    tz_local, tz_shift, tz_known, utc_ok, ymd_text, local_instants, shift, date_text,
};

verus! {

/// The skipped-hour walk: minute by minute from `step` to a day ahead, the
/// first wall clock that maps to exactly one instant. Nothing when the walk
/// runs off the end of the calendar or finds none.
pub open spec fn probe(zone: Seq<char>, d: Date, minute: int, step: int) -> Seq<(i64, i32)>
    decreases 1441 - step,
{
    if step < 1 || step > 1440 {
        Seq::empty()
    } else {
        let total = minute + step;
        let next = if total < 1440 {
            Some((d, total))
        } else {
            match plus(d, 1) {
                Some(d2) => Some((d2, total - 1440)),
                None => None,
            }
        };
        match next {
            None => Seq::empty(),
            Some((d2, mm)) => {
                let c = tz_local(zone, d2.year, d2.month, d2.day, mm as u32);
                if c.len() == 1 {
                    c
                } else {
                    probe(zone, d, minute, step + 1)
                }
            },
        }
    }
}

/// Every instant a wall clock maps to, earliest first; in a skipped hour, the
/// first instant after it that exists.
pub open spec fn candidates(zone: Seq<char>, d: Date, minute: int) -> Seq<(i64, i32)> {
    let c = tz_local(zone, d.year, d.month, d.day, minute as u32);
    if c.len() > 0 {
        c
    } else {
        probe(zone, d, minute, 1)
    }
}

/// The length written, in seconds.
pub open spec fn written(start: Time, end: Time) -> int {
    (end.minutes() - start.minutes()) * 60
}

/// The first end, from `j` on, that lies exactly `w` seconds after `s`.
pub open spec fn find_end(s: (i64, i32), ends: Seq<(i64, i32)>, w: int, j: int) -> Option<int>
    decreases ends.len() - j,
{
    if j < 0 || j >= ends.len() {
        None
    } else if ends[j].0 - s.0 == w {
        Some(j)
    } else {
        find_end(s, ends, w, j + 1)
    }
}

/// The first pairing, by start and then by end, that spans exactly `w` seconds.
pub open spec fn find_pair(starts: Seq<(i64, i32)>, ends: Seq<(i64, i32)>, w: int, i: int) -> Option<
    (int, int),
>
    decreases starts.len() - i,
{
    if i < 0 || i >= starts.len() {
        None
    } else {
        match find_end(starts[i], ends, w, 0) {
            Some(j) => Some((i, j)),
            None => find_pair(starts, ends, w, i + 1),
        }
    }
}

/// `%H:%M` of the wall clock `x` seconds after a midnight.
pub open spec fn clock_text(x: int) -> Seq<char> {
    let t = x % 86400;
    two_digits(t / 3600) + seq![':'] + two_digits((t % 3600) / 60)
}

pub open spec fn clock_change_note(zone: Seq<char>, d: Date, start: Time, end: Time) -> Seq<char> {
    ymd_text(d.year, d.month, d.day) + " "@ + hhmm(start) + "-"@ + hhmm(end)
        + " falls in a clock change in "@ + zone + "; kept at "@ + dec(
        (end.minutes() - start.minutes()) as nat,
    ) + " minutes"@
}

pub open spec fn skipped_note(zone: Seq<char>, d: Date, start: Time, s: (i64, i32)) -> Seq<char> {
    ymd_text(d.year, d.month, d.day) + " "@ + hhmm(start) + " does not exist in "@ + zone
        + " (clocks skip forward) \u{2014} moved to "@ + clock_text(s.0 + s.1)
}

/// Where a block lands: its start, its end, and a note when that needed saying.
///
/// On the night the clocks go back, "01:30-02:30" has two readings; the pair
/// whose elapsed time matches what was written keeps both the written times
/// and the written length, the earliest such pair first. With no such pair the
/// times were skipped rather than repeated: the block starts at the first
/// instant that exists, keeps its length, and says where it moved to.
pub open spec fn place_spec(zone: Seq<char>, d: Date, start: Time, end: Time) -> Option<
    ((i64, i32), (i64, i32), Option<Seq<char>>),
> {
    let w = written(start, end);
    let ss = candidates(zone, d, start.minutes());
    let es = candidates(zone, d, end.minutes());
    if ss.len() == 0 {
        None
    } else {
        match find_pair(ss, es, w, 0) {
            Some((i, j)) => Some(
                (
                    ss[i],
                    es[j],
                    if ss.len() > 1 || es.len() > 1 {
                        Some(clock_change_note(zone, d, start, end))
                    } else {
                        None
                    },
                ),
            ),
            None => match tz_shift(zone, ss[0].0, w as i64) {
                None => None,
                Some(e) => Some((ss[0], e, Some(skipped_note(zone, d, start, ss[0])))),
            },
        }
    }
}

/// What every list of instants from the zone database satisfies.
pub open spec fn instants_ok(c: Seq<(i64, i32)>) -> bool {
    &&& c.len() <= 2
    &&& forall|k: int| 0 <= k < c.len() ==> utc_ok((#[trigger] c[k]).0 as int)
}

/// Every instant a wall clock maps to in a zone, earliest first.
pub fn candidates_of(zone: &str, d: &Date, minute: u32) -> (r: Vec<(i64, i32)>)
    requires
        tz_known(zone@),
        d.wf(),
        minute < 1440,
    ensures
        r@ == candidates(zone@, *d, minute as int),
        instants_ok(r@),
{
    let c = local_instants(zone, d, minute);
    if c.len() > 0 {
        return c;
    }
    let mut step: u32 = 1;
    while step <= 1440
        invariant
            1 <= step <= 1441,
            tz_known(zone@),
            d.wf(),
            minute < 1440,
            tz_local(zone@, d.year, d.month, d.day, minute).len() == 0,
            candidates(zone@, *d, minute as int) == probe(zone@, *d, minute as int, step as int),
        decreases 1441 - step,
    {
        let total = minute + step;
        let (day, mm) = if total < 1440 {
            (*d, total)
        } else {
            match add_days(d, 1) {
                Some(d2) => (d2, total - 1440),
                None => {
                    return Vec::new();
                },
            }
        };
        let c = local_instants(zone, &day, mm);
        if c.len() == 1 {
            return c;
        }
        step = step + 1;
    }
    Vec::new()
}

/// Where a block actually sits, and whether that needed explaining.
pub struct Landed {
    pub starts: (i64, i32),
    pub ends: (i64, i32),
    pub note: Option<String>,
}

pub open spec fn landed_v(l: Option<Landed>) -> Option<((i64, i32), (i64, i32), Option<Seq<char>>)> {
    match l {
        Some(x) => Some(
            (
                x.starts,
                x.ends,
                match x.note {
                    Some(n) => Some(n@),
                    None => None,
                },
            ),
        ),
        None => None,
    }
}

fn clock_text_of(x: i64) -> (r: String)
    requires
        -8_600_000_000_000 <= x <= 9_000_000_000_000,
    ensures
        r@ == clock_text(x as int),
{
    let shifted: i64 = x + 8_640_000_000_000;
    let t: i64 = shifted % 86400;
    proof {
        vstd::arithmetic::div_mod::lemma_mod_multiples_vanish(100_000_000, x as int, 86400);
        assert(86400 * 100_000_000 == 8_640_000_000_000);
    }
    assert(t == (x as int) % 86400);
    let h = two_of((t / 3600) as u32);
    let m = two_of(((t % 3600) / 60) as u32);
    let mut out = string_of(&h);
    proof {
        reveal_strlit(":");
    }
    out.append(":");
    out.append(string_of(&m).as_str());
    assert(out@ =~= clock_text(x as int));
    out
}

/// `%H:%M` of the wall clock `x` seconds after a midnight.
pub fn clock_text_pub(x: i64) -> (r: String)
    requires
        -8_600_000_000_000 <= x <= 9_000_000_000_000,
    ensures
        r@ == clock_text(x as int),
{
    clock_text_of(x)
}

fn hm_string(t: Time) -> (r: String)
    requires
        t.wf(),
    ensures
        r@ == hhmm(t),
{
    string_of(&hhmm_of(t))
}

/// Place a block on a day in a zone, keeping the written times and the written length.
pub fn place(zone: &str, d: &Date, start: Time, end: Time) -> (r: Option<Landed>)
    requires
        tz_known(zone@),
        d.wf(),
        start.wf(),
        end.wf(),
        start.minutes() < end.minutes(),
    ensures
        landed_v(r) == place_spec(zone@, *d, start, end),
        r matches Some(l) ==> utc_ok(l.starts.0 as int) && utc_ok(l.ends.0 as int),
        r matches Some(l) ==> l.ends.0 - l.starts.0 == written(start, end),
{
    let w: i64 = ((end.hour * 60 + end.minute - (start.hour * 60 + start.minute)) * 60) as i64;
    assert(w == written(start, end));
    let starts = candidates_of(zone, d, start.hour * 60 + start.minute);
    let ends = candidates_of(zone, d, end.hour * 60 + end.minute);
    if starts.len() == 0 {
        return None;
    }
    let ghost ss = starts@;
    let ghost es = ends@;
    let mut i: usize = 0;
    while i < starts.len()
        invariant
            i <= starts.len(),
            ss == starts@,
            es == ends@,
            instants_ok(ss),
            instants_ok(es),
            d.wf(),
            start.wf(),
            end.wf(),
            start.minutes() < end.minutes(),
            w == written(start, end),
            ss == candidates(zone@, *d, start.minutes()),
            es == candidates(zone@, *d, end.minutes()),
            find_pair(ss, es, w as int, 0) == find_pair(ss, es, w as int, i as int),
        decreases starts.len() - i,
    {
        let s = starts[i];
        let mut j: usize = 0;
        while j < ends.len()
            invariant
                i < starts.len(),
                j <= ends.len(),
                ss == starts@,
                es == ends@,
                s == ss[i as int],
                instants_ok(ss),
                instants_ok(es),
                d.wf(),
                start.wf(),
                end.wf(),
                start.minutes() < end.minutes(),
                w == written(start, end),
                ss == candidates(zone@, *d, start.minutes()),
                es == candidates(zone@, *d, end.minutes()),
                find_pair(ss, es, w as int, 0) == find_pair(ss, es, w as int, i as int),
                find_end(s, es, w as int, 0) == find_end(s, es, w as int, j as int),
            decreases ends.len() - j,
        {
            let e = ends[j];
            if e.0 - s.0 == w {
                let note = if starts.len() > 1 || ends.len() > 1 {
                    let mut m = date_text(d);
                    m.append(" ");
                    m.append(hm_string(start).as_str());
                    m.append("-");
                    m.append(hm_string(end).as_str());
                    m.append(" falls in a clock change in ");
                    m.append(zone);
                    m.append("; kept at ");
                    let mins = end.hour * 60 + end.minute - (start.hour * 60 + start.minute);
                    m.append(string_of(&dec_of(mins)).as_str());
                    m.append(" minutes");
                    assert(m@ =~= clock_change_note(zone@, *d, start, end));
                    Some(m)
                } else {
                    None
                };
                assert(match note {
                    Some(n) => Some(n@),
                    None => None::<Seq<char>>,
                } == (if ss.len() > 1 || es.len() > 1 {
                    Some(clock_change_note(zone@, *d, start, end))
                } else {
                    None
                }));
                assert(find_end(s, es, w as int, j as int) == Some(j as int));
                assert(find_pair(ss, es, w as int, i as int) == Some((i as int, j as int)));
                return Some(Landed { starts: s, ends: e, note });
            }
            j = j + 1;
        }
        i = i + 1;
    }
    let s = starts[0];
    match shift(zone, s.0, w) {
        None => None,
        Some(e) => {
            let mut m = date_text(d);
            m.append(" ");
            m.append(hm_string(start).as_str());
            m.append(" does not exist in ");
            m.append(zone);
            m.append(" (clocks skip forward) \u{2014} moved to ");
            m.append(clock_text_of(s.0 + s.1 as i64).as_str());
            assert(m@ =~= skipped_note(zone@, *d, start, s));
            Some(Landed { starts: s, ends: e, note: Some(m) })
        },
    }
}

} // verus!
