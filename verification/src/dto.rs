//! What the window is sent: items, blocks and weeks flattened to text and
//! numbers, with the item behind each block looked up once.
use vstd::prelude::*;
use crate::calendar::{Date, Time};
use crate::compose::{hhmm, hhmm_of};
use crate::expand::stamp_ok;
use crate::model::{Day, Origin, Placement, Week};
use crate::notify::find_item;
use crate::parse::Parsed;
use crate::stats::Stats;
use crate::store::Item;
use crate::text::{chars_of, opt_str, split_chars, split_on, string_of, trim, trim_chars};
use crate::timer::Session;
use crate::zone::{Stamp, date_text, rfc3339_text, stamp_text, ymd_text};

verus! {

#[derive(Clone, Debug, PartialEq)]
pub struct ItemDto {
    pub id: String,
    pub title: String,
    pub tags: Vec<String>,
    pub category: Option<String>,
    pub location: Option<String>,
    pub listed: bool,
    pub due_at: Option<String>,
    pub estimate_min: Option<u32>,
    pub recurs: bool,
    pub done: bool,
    pub done_on: Vec<String>,
    pub completed_at: Option<String>,
    pub source: String,
    pub external_id: Option<String>,
    /// Banked seconds across finished, non-discarded sessions.
    pub spent_sec: i64,
}

#[derive(Clone, Debug, PartialEq)]
pub struct PlacementDto {
    pub id: String,
    pub item_id: String,
    pub title: String,
    pub category: Option<String>,
    pub location: Option<String>,
    pub starts_at: String,
    pub ends_at: String,
    pub origin: String,
    pub pinned_tz: Option<String>,
    pub foreign: bool,
    pub recurs: bool,
    pub done: bool,
}

#[derive(Clone, Debug, PartialEq)]
pub struct DayDto {
    pub date: String,
    pub placements: Vec<PlacementDto>,
}

#[derive(Clone, Debug, PartialEq)]
pub struct WeekDto {
    pub anchor: String,
    pub viewing_tz: String,
    pub days: Vec<DayDto>,
    pub diagnostics: Vec<DiagDto>,
}

#[derive(Clone, Debug, PartialEq)]
pub struct DiagDto {
    pub item_id: Option<String>,
    pub message: String,
}

#[derive(Clone, Debug, PartialEq)]
pub struct AddResult {
    pub item: ItemDto,
    /// Tokens the parser recognised. Empty means the line was saved as plain
    /// text, which is worth telling the user.
    pub consumed: Vec<String>,
    pub byday: Vec<String>,
    pub span: Option<(String, String)>,
    pub location: Option<String>,
}

#[derive(Clone, Debug, PartialEq)]
pub struct SessionDto {
    pub id: String,
    pub item_id: String,
    pub title: String,
    pub started_at: String,
    pub estimate_min: Option<u32>,
    pub spent_sec: i64,
}

#[derive(Clone, Debug, PartialEq)]
pub struct StatsDto {
    pub tag: Option<String>,
    pub n: usize,
    pub pct_over: Option<i32>,
    pub phrase: Option<String>,
    pub confident: bool,
}

#[derive(Clone, Debug, PartialEq)]
pub struct RecurrenceDto {
    pub byday: Vec<String>,
    pub start_time: String,
    pub end_time: String,
    pub tz: Option<String>,
    pub except_on: Vec<String>,
    /// Day of the month for a monthly rule; `None` for a weekly one.
    pub monthday: Option<u32>,
}

pub open spec fn stamp_text_of(s: Stamp) -> Seq<char> {
    rfc3339_text(s.secs, s.nanos, s.offset)
}

pub open spec fn opt_stamp_text(o: Option<Stamp>) -> Option<Seq<char>> {
    match o {
        Some(s) => Some(stamp_text_of(s)),
        None => None,
    }
}

fn clone_opt(o: &Option<String>) -> (r: Option<String>)
    ensures
        opt_str(r) == opt_str(*o),
{
    match o {
        Some(s) => Some(s.clone()),
        None => None,
    }
}

fn opt_stamp(o: &Option<Stamp>) -> (r: Option<String>)
    requires
        o matches Some(s) ==> s.wf(),
    ensures
        opt_str(r) == opt_stamp_text(*o),
{
    match o {
        Some(s) => Some(stamp_text(s)),
        None => None,
    }
}

fn clone_strings(v: &Vec<String>) -> (r: Vec<String>)
    ensures
        r@.map_values(|s: String| s@) == v@.map_values(|s: String| s@),
{
    let mut out: Vec<String> = Vec::new();
    let mut i: usize = 0;
    while i < v.len()
        invariant
            i <= v.len(),
            out@.map_values(|s: String| s@) == v@.map_values(|s: String| s@).take(i as int),
        decreases v.len() - i,
    {
        let ghost before = out@.map_values(|s: String| s@);
        out.push(v[i].clone());
        assert(out@.map_values(|s: String| s@) =~= before.push(v@[i as int]@));
        assert(v@.map_values(|s: String| s@).take(i + 1) =~= v@.map_values(|s: String| s@).take(i as int).push(v@[i as int]@));
        i = i + 1;
    }
    assert(v@.map_values(|s: String| s@).take(v.len() as int) =~= v@.map_values(|s: String| s@));
    out
}

/// What a stamp must be for its text to be written.
pub open spec fn item_stamps_ok(i: Item) -> bool {
    &&& (i.due_at matches Some(d) ==> d.wf())
    &&& (i.completed_at matches Some(d) ==> d.wf())
    &&& forall|k: int| 0 <= k < i.done_on.len() ==> (#[trigger] i.done_on@[k]).wf()
}

/// An item as the window shows it, done or not for the occurrence on `on`.
#[verifier::rlimit(40)]
pub fn item_dto(i: &Item, on: Option<Date>, spent_sec: i64) -> (r: ItemDto)
    requires
        item_stamps_ok(*i),
    ensures
        r.id@ == i.id@,
        r.title@ == i.title@,
        r.tags@.map_values(|s: String| s@) == i.tags@.map_values(|s: String| s@),
        opt_str(r.category) == opt_str(i.category),
        opt_str(r.location) == opt_str(i.location),
        r.listed == i.listed,
        opt_str(r.due_at) == opt_stamp_text(i.due_at),
        r.estimate_min == i.estimate_min,
        r.recurs == i.recurs,
        r.done == i.done(on),
        r.done_on@.map_values(|s: String| s@) == i.done_on@.map_values(|d: Date| ymd_text(d.year, d.month, d.day)),
        opt_str(r.completed_at) == opt_stamp_text(i.completed_at),
        r.source@ == i.source@,
        opt_str(r.external_id) == opt_str(i.external_id),
        r.spent_sec == spent_sec,
{
    let mut done_on: Vec<String> = Vec::new();
    let mut k: usize = 0;
    while k < i.done_on.len()
        invariant
            k <= i.done_on.len(),
            forall|j: int| 0 <= j < i.done_on.len() ==> (#[trigger] i.done_on@[j]).wf(),
            done_on@.map_values(|s: String| s@) == i.done_on@.map_values(|d: Date| ymd_text(d.year, d.month, d.day)).take(k as int),
        decreases i.done_on.len() - k,
    {
        let d = i.done_on[k];
        let t = date_text(&d);
        let ghost before = done_on@.map_values(|s: String| s@);
        let ghost tv = t@;
        done_on.push(t);
        assert(done_on@.map_values(|s: String| s@) =~= before.push(tv));
        assert(i.done_on@.map_values(|d: Date| ymd_text(d.year, d.month, d.day)).take(k + 1) =~= i.done_on@.map_values(|d: Date| ymd_text(d.year, d.month, d.day)).take(k as int).push(tv));
        k = k + 1;
    }
    assert(i.done_on@.map_values(|d: Date| ymd_text(d.year, d.month, d.day)).take(i.done_on.len() as int) =~= i.done_on@.map_values(|d: Date| ymd_text(d.year, d.month, d.day)));
    ItemDto {
        id: i.id.clone(),
        title: i.title.clone(),
        tags: clone_strings(&i.tags),
        category: clone_opt(&i.category),
        location: clone_opt(&i.location),
        listed: i.listed,
        due_at: opt_stamp(&i.due_at),
        estimate_min: i.estimate_min,
        recurs: i.recurs,
        done: i.is_done(on),
        done_on,
        completed_at: opt_stamp(&i.completed_at),
        source: i.source.clone(),
        external_id: clone_opt(&i.external_id),
        spent_sec,
    }
}

pub open spec fn origin_text(o: Origin) -> Seq<char> {
    match o {
        Origin::Recurrence => "recurrence"@,
        Origin::OneOff => "oneoff"@,
        Origin::Moved => "moved"@,
    }
}

fn origin_name(o: Origin) -> (r: &'static str)
    ensures
        r@ == origin_text(o),
{
    match o {
        Origin::Recurrence => "recurrence",
        Origin::OneOff => "oneoff",
        Origin::Moved => "moved",
    }
}

/// A block as the window shows it, with the item behind it; done when that
/// item is ticked off for this day.
pub fn placement_dto(p: &Placement, date: Date, items: &Vec<Item>) -> (r: PlacementDto)
    requires
        p.starts_at.wf(),
        p.ends_at.wf(),
    ensures
        r.id@ == p.id@,
        r.item_id@ == p.item_id@,
        r.title@ == match find_item(items@, p.item_id@, 0) {
            Some(it) => it.title@,
            None => p.item_id@,
        },
        opt_str(r.category) == match find_item(items@, p.item_id@, 0) {
            Some(it) => opt_str(it.category),
            None => None,
        },
        opt_str(r.location) == match find_item(items@, p.item_id@, 0) {
            Some(it) => opt_str(it.location),
            None => None,
        },
        r.starts_at@ == stamp_text_of(p.starts_at),
        r.ends_at@ == stamp_text_of(p.ends_at),
        r.origin@ == origin_text(p.origin),
        opt_str(r.pinned_tz) == opt_str(p.pinned_tz),
        r.foreign == p.foreign,
        r.recurs == match find_item(items@, p.item_id@, 0) {
            Some(it) => it.recurs,
            None => false,
        },
        r.done == match find_item(items@, p.item_id@, 0) {
            Some(it) => it.done_on@.contains(date),
            None => false,
        },
{
    let found = crate::notify::find_item_of(items, p.item_id.as_str());
    let (title, category, location, recurs, done) = match found {
        Some(j) => {
            let it = &items[j];
            let done = crate::expand::contains_date(&it.done_on, &date);
            (it.title.clone(), clone_opt(&it.category), clone_opt(&it.location), it.recurs, done)
        },
        None => (p.item_id.clone(), None, None, false, false),
    };
    PlacementDto {
        id: p.id.clone(),
        item_id: p.item_id.clone(),
        title,
        category,
        location,
        starts_at: stamp_text(&p.starts_at),
        ends_at: stamp_text(&p.ends_at),
        origin: String::from_str(origin_name(p.origin)),
        pinned_tz: clone_opt(&p.pinned_tz),
        foreign: p.foreign,
        recurs,
        done,
    }
}

/// A warning as the window shows it.
pub fn diag_dto(d: &crate::model::Diagnostic) -> (r: DiagDto)
    ensures
        opt_str(r.item_id) == opt_str(d.item_id),
        r.message@ == d.message@,
{
    DiagDto { item_id: clone_opt(&d.item_id), message: d.message.clone() }
}

/// A window of days as the app shows it.
#[verifier::rlimit(40)]
pub fn week_dto(w: &Week, items: &Vec<Item>) -> (r: WeekDto)
    requires
        w.anchor.wf(),
        forall|k: int| 0 <= k < w.days.len() ==> (#[trigger] w.days@[k]).date.wf(),
        forall|k: int, j: int|
            0 <= k < w.days.len() && 0 <= j < w.days@[k].placements.len() ==> (
            #[trigger] w.days@[k].placements@[j]).starts_at.wf() && w.days@[k].placements@[j].ends_at.wf(),
    ensures
        r.anchor@ == ymd_text(w.anchor.year, w.anchor.month, w.anchor.day),
        r.viewing_tz@ == w.viewing_tz@,
        r.days.len() == w.days.len(),
        forall|k: int| 0 <= k < r.days.len() ==> {
            &&& (#[trigger] r.days@[k]).date@ == ymd_text(w.days@[k].date.year, w.days@[k].date.month, w.days@[k].date.day)
            &&& r.days@[k].placements.len() == w.days@[k].placements.len()
            &&& forall|j: int| 0 <= j < r.days@[k].placements.len() ==> (#[trigger] r.days@[k].placements@[j]).id@ == w.days@[k].placements@[j].id@
        },
        r.diagnostics.len() == w.diagnostics.len(),
        forall|k: int| 0 <= k < r.diagnostics.len() ==> (#[trigger] r.diagnostics@[k]).message@ == w.diagnostics@[k].message@,
{
    let mut days: Vec<DayDto> = Vec::new();
    let mut i: usize = 0;
    while i < w.days.len()
        invariant
            i <= w.days.len(),
            days.len() == i,
            forall|k: int| 0 <= k < w.days.len() ==> (#[trigger] w.days@[k]).date.wf(),
            forall|k: int, j: int|
                0 <= k < w.days.len() && 0 <= j < w.days@[k].placements.len() ==> (
                #[trigger] w.days@[k].placements@[j]).starts_at.wf() && w.days@[k].placements@[j].ends_at.wf(),
            forall|k: int| 0 <= k < i ==> {
                &&& (#[trigger] days@[k]).date@ == ymd_text(w.days@[k].date.year, w.days@[k].date.month, w.days@[k].date.day)
                &&& days@[k].placements.len() == w.days@[k].placements.len()
                &&& forall|j: int| 0 <= j < days@[k].placements.len() ==> (#[trigger] days@[k].placements@[j]).id@ == w.days@[k].placements@[j].id@
            },
        decreases w.days.len() - i,
    {
        let day = &w.days[i];
        let mut ps: Vec<PlacementDto> = Vec::new();
        let mut j: usize = 0;
        while j < day.placements.len()
            invariant
                j <= day.placements.len(),
                ps.len() == j,
                i < w.days.len(),
                *day == w.days@[i as int],
                forall|x: int| 0 <= x < day.placements.len() ==> (#[trigger] day.placements@[x]).starts_at.wf() && day.placements@[x].ends_at.wf(),
                forall|x: int| 0 <= x < j ==> (#[trigger] ps@[x]).id@ == day.placements@[x].id@,
            decreases day.placements.len() - j,
        {
            ps.push(placement_dto(&day.placements[j], day.date, items));
            j = j + 1;
        }
        days.push(DayDto { date: date_text(&day.date), placements: ps });
        i = i + 1;
    }
    let mut diagnostics: Vec<DiagDto> = Vec::new();
    let mut k: usize = 0;
    while k < w.diagnostics.len()
        invariant
            k <= w.diagnostics.len(),
            diagnostics.len() == k,
            forall|x: int| 0 <= x < k ==> (#[trigger] diagnostics@[x]).message@ == w.diagnostics@[x].message@,
        decreases w.diagnostics.len() - k,
    {
        diagnostics.push(diag_dto(&w.diagnostics[k]));
        k = k + 1;
    }
    WeekDto { anchor: date_text(&w.anchor), viewing_tz: w.viewing_tz.clone(), days, diagnostics }
}

/// What adding a line reports back: the item, and what the parser made of the line.
pub fn add_result(item: ItemDto, p: &Parsed) -> (r: AddResult)
    requires
        p.span matches Some(ab) ==> ab.0.wf() && ab.1.wf(),
    ensures
        r.item == item,
        r.consumed@.map_values(|s: String| s@) == p@.consumed,
        r.byday@.map_values(|s: String| s@) == p@.byday,
        match r.span {
            Some((a, b)) => p.span matches Some(ab) && a@ == hhmm(ab.0) && b@ == hhmm(ab.1),
            None => p.span is None,
        },
        opt_str(r.location) == p@.location,
{
    AddResult {
        item,
        consumed: clone_strings(&p.consumed),
        byday: clone_strings(&p.byday),
        span: match p.span {
            Some((a, b)) => Some((string_of(&hhmm_of(a)), string_of(&hhmm_of(b)))),
            None => None,
        },
        location: clone_opt(&p.location),
    }
}

/// A running session as the window shows it, with its item's title and estimate.
pub fn session_dto(s: &Session, item: Option<&Item>, spent_sec: i64) -> (r: SessionDto)
    requires
        s.started_at.wf(),
    ensures
        r.id@ == s.id@,
        r.item_id@ == s.item_id@,
        r.title@ == match item {
            Some(it) => it.title@,
            None => Seq::empty(),
        },
        r.started_at@ == stamp_text_of(s.started_at),
        r.estimate_min == match item {
            Some(it) => it.estimate_min,
            None => None,
        },
        r.spent_sec == spent_sec,
{
    SessionDto {
        id: s.id.clone(),
        item_id: s.item_id.clone(),
        title: match item {
            Some(it) => it.title.clone(),
            None => String::new(),
        },
        started_at: stamp_text(&s.started_at),
        estimate_min: match item {
            Some(it) => it.estimate_min,
            None => None,
        },
        spent_sec,
    }
}

pub fn stats_dto(s: Stats) -> (r: StatsDto)
    ensures
        r.tag == s.tag,
        r.n == s.n,
        r.pct_over == s.pct_over,
        r.phrase == s.phrase,
        r.confident == s.confident,
{
    StatsDto { tag: s.tag, n: s.n, pct_over: s.pct_over, phrase: s.phrase, confident: s.confident }
}

/// The weekday codes of a stored rule: empty pieces dropped, nothing trimmed.
pub open spec fn nonblank(ps: Seq<Seq<char>>) -> Seq<Seq<char>>
    decreases ps.len(),
{
    if ps.len() == 0 {
        Seq::empty()
    } else if ps.last().len() > 0 {
        nonblank(ps.drop_last()).push(ps.last())
    } else {
        nonblank(ps.drop_last())
    }
}

fn nonblank_pieces(csv: &str) -> (r: Vec<String>)
    ensures
        r@.map_values(|s: String| s@) == nonblank(split_on(csv@, ',')),
{
    let parts = split_chars(&chars_of(csv), ',');
    let ghost ps = split_on(csv@, ',');
    let mut out: Vec<String> = Vec::new();
    let mut i: usize = 0;
    while i < parts.len()
        invariant
            i <= parts.len(),
            parts@.map_values(|v: Vec<char>| v@) == ps,
            out@.map_values(|s: String| s@) == nonblank(ps.take(i as int)),
        decreases parts.len() - i,
    {
        assert(ps.take(i + 1).drop_last() =~= ps.take(i as int));
        assert(ps.take(i + 1).last() == parts@[i as int]@);
        if parts[i].len() > 0 {
            let ghost before = out@.map_values(|s: String| s@);
            let s = string_of(&parts[i]);
            out.push(s);
            assert(out@.map_values(|s: String| s@) =~= before.push(parts@[i as int]@));
        }
        i = i + 1;
    }
    assert(ps.take(parts.len() as int) =~= ps);
    out
}

/// A stored rule as the editor shows it.
pub fn recurrence_dto(
    byday: &str,
    start_time: String,
    end_time: String,
    tz: Option<String>,
    except_on: &str,
    monthday: Option<u32>,
) -> (r: RecurrenceDto)
    ensures
        r.byday@.map_values(|s: String| s@) == nonblank(split_on(byday@, ',')),
        r.start_time == start_time,
        r.end_time == end_time,
        r.tz == tz,
        r.except_on@.map_values(|s: String| s@) == crate::store::tag_list(split_on(except_on@, ',')),
        r.monthday == monthday,
{
    RecurrenceDto {
        byday: nonblank_pieces(byday),
        start_time,
        end_time,
        tz,
        except_on: crate::store::split_tags(except_on),
        monthday,
    }
}

} // verus!
