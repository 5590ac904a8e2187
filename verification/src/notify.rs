//! What is about to happen, said once.
//!
//! A notice is keyed by occurrence and instant, so moving a block announces it
//! again while asking twice does not; anything already begun, or already ticked
//! off, is not announced.
use vstd::prelude::*;
use crate::calendar::{Date, plus, add_days, weekday, weekday_num};
use crate::expand::{
    Snapshot, get_week, week_spec, days_v, all_stamps_ok, stamp_ok, stamps_ok, local_day, str_before,
    str_lt,
};
use crate::model::{DayV, PlacementV, Week};
use crate::store::Item;
use crate::text::opt_str;
use crate::zone::{
    Stamp, Zone, UTC_MAX_SECS, UTC_MIN_SECS, offset_at, rfc3339_text, stamp_text, tz_offset, utc_ok,
};

verus! {

#[derive(Clone, Copy, Debug, PartialEq, Eq, Structural)]
pub enum Kind {
    /// An hour on the week: a class, a meeting, anything with a start.
    Block,
    /// A deadline in the to-do list.
    Deadline,
}

#[derive(Clone, Debug, PartialEq)]
pub struct Notice {
    pub key: String,
    pub kind: Kind,
    pub title: String,
    pub location: Option<String>,
    /// In UTC.
    pub at: Stamp,
    /// Blocks know when they end; a deadline is a point.
    pub ends: Option<Stamp>,
}

pub struct NoticeV {
    pub key: Seq<char>,
    pub kind: Kind,
    pub title: Seq<char>,
    pub location: Option<Seq<char>>,
    pub at: Stamp,
    pub ends: Option<Stamp>,
}

impl View for Notice {
    type V = NoticeV;

    open spec fn view(&self) -> NoticeV {
        NoticeV {
            key: self.key@,
            kind: self.kind,
            title: self.title@,
            location: opt_str(self.location),
            at: self.at,
            ends: self.ends,
        }
    }
}

/// The same instant in UTC.
pub open spec fn utc(st: Stamp) -> Stamp {
    Stamp { secs: st.secs, nanos: st.nanos, offset: 0 }
}

/// Every block of a run of days, each with its day, in order.
pub open spec fn entries(days: Seq<DayV>) -> Seq<(Date, PlacementV)>
    decreases days.len(),
{
    if days.len() == 0 {
        Seq::empty()
    } else {
        entries(days.drop_last()) + days.last().placements.map_values(
            |p: PlacementV| (days.last().date, p),
        )
    }
}

/// The first item with this id.
pub open spec fn find_item(items: Seq<Item>, id: Seq<char>, k: int) -> Option<Item>
    decreases items.len() - k,
{
    if k < 0 || k >= items.len() {
        None
    } else if items[k].id@ == id {
        Some(items[k])
    } else {
        find_item(items, id, k + 1)
    }
}

/// Inside the window `(now, horizon]`.
pub open spec fn in_window(at: Stamp, now: Stamp, horizon: Stamp) -> bool {
    now.earlier(at) && !horizon.earlier(at)
}

pub open spec fn block_notice(p: PlacementV, it: Item) -> NoticeV {
    let start = utc(p.starts_at);
    NoticeV {
        key: p.id + "@"@ + rfc3339_text(start.secs, start.nanos, 0),
        kind: Kind::Block,
        title: it.title@,
        location: opt_str(it.location),
        at: start,
        ends: Some(utc(p.ends_at)),
    }
}

/// The blocks starting in the window, for items that exist and are not done
/// on that day, and for each the item and instant it announces.
pub open spec fn block_pass(es: Seq<(Date, PlacementV)>, items: Seq<Item>, now: Stamp, horizon: Stamp) -> (Seq<NoticeV>, Seq<(Seq<char>, i64, u32)>)
    decreases es.len(),
{
    if es.len() == 0 {
        (Seq::empty(), Seq::empty())
    } else {
        let (ns, placed) = block_pass(es.drop_last(), items, now, horizon);
        let (d, p) = es.last();
        let start = utc(p.starts_at);
        if !in_window(start, now, horizon) {
            (ns, placed)
        } else {
            match find_item(items, p.item_id, 0) {
                None => (ns, placed),
                Some(it) => if it.done(Some(d)) {
                    (ns, placed)
                } else {
                    (ns.push(block_notice(p, it)), placed.push((p.item_id, start.secs, start.nanos)))
                },
            }
        }
    }
}

pub open spec fn deadline_notice(it: Item, due: Stamp) -> NoticeV {
    NoticeV {
        key: "due_"@ + it.id@ + "@"@ + rfc3339_text(due.secs, due.nanos, 0),
        kind: Kind::Deadline,
        title: it.title@,
        location: opt_str(it.location),
        at: due,
        ends: None,
    }
}

/// The deadlines falling due in the window, for listed items not yet done and
/// not already announced as a block at the same instant.
pub open spec fn deadline_pass(items: Seq<Item>, now: Stamp, horizon: Stamp, placed: Seq<(Seq<char>, i64, u32)>) -> Seq<NoticeV>
    decreases items.len(),
{
    if items.len() == 0 {
        Seq::empty()
    } else {
        let rest = deadline_pass(items.drop_last(), now, horizon, placed);
        let it = items.last();
        match it.due_at {
            None => rest,
            Some(due) => if !it.listed || it.completed || !in_window(due, now, horizon) {
                rest
            } else if placed.contains((it.id@, due.secs, due.nanos)) {
                rest
            } else {
                rest.push(deadline_notice(it, due))
            },
        }
    }
}

/// Earlier first; at the same instant, by key.
pub open spec fn notice_before(a: NoticeV, b: NoticeV) -> bool {
    a.at.earlier(b.at) || (a.at.same_instant(b.at) && crate::expand::str_lt(a.key, b.key))
}

pub open spec fn insert_n(x: NoticeV, s: Seq<NoticeV>) -> Seq<NoticeV>
    decreases s.len(),
{
    if s.len() == 0 {
        seq![x]
    } else if notice_before(x, s[0]) {
        seq![x] + s
    } else {
        seq![s[0]] + insert_n(x, s.drop_first())
    }
}

/// Sorted by instant, then key; ties keep their order.
pub open spec fn sort_n(s: Seq<NoticeV>) -> Seq<NoticeV>
    decreases s.len(),
{
    if s.len() == 0 {
        Seq::empty()
    } else {
        insert_n(s.last(), sort_n(s.drop_last()))
    }
}

/// Each run of notices with one key kept once.
pub open spec fn dedup_keys(s: Seq<NoticeV>) -> Seq<NoticeV>
    decreases s.len(),
{
    if s.len() == 0 {
        Seq::empty()
    } else if s.len() >= 2 && s.last().key == s[s.len() - 2].key {
        dedup_keys(s.drop_last())
    } else {
        dedup_keys(s.drop_last()).push(s.last())
    }
}

/// Everything starting or falling due in `(now, now + lead]`, over the week of
/// `now` (in `zone`) and the week after, since the window can cross a Monday.
/// `None` exactly when one of those weeks lies past the end of the calendar.
pub open spec fn due_soon_spec(snap: Snapshot, items: Seq<Item>, now: Stamp, lead: i64, zone: Seq<char>) -> Option<Seq<NoticeV>> {
    let horizon = Stamp { secs: (now.secs + lead) as i64, nanos: now.nanos, offset: 0 };
    match local_day(Stamp { secs: now.secs, nanos: now.nanos, offset: tz_offset(zone, now.secs) }) {
        None => None,
        Some(today) => match plus(today, (0 - weekday(today)) as i64) {
            None => None,
            Some(monday) => match plus(monday, 7) {
                None => None,
                Some(next) => {
                    let es = entries(week_spec(snap, monday, zone).days) + entries(
                        week_spec(snap, next, zone).days,
                    );
                    let (blocks, placed) = block_pass(es, items, utc(now), horizon);
                    let deadlines = deadline_pass(items, utc(now), horizon, placed);
                    Some(dedup_keys(sort_n(blocks + deadlines)))
                },
            },
        },
    }
}


pub open spec fn notices_v(v: Seq<Notice>) -> Seq<NoticeV> {
    v.map_values(|n: Notice| n@)
}

pub open spec fn placed_v(v: Seq<(String, i64, u32)>) -> Seq<(Seq<char>, i64, u32)> {
    v.map_values(|x: (String, i64, u32)| (x.0@, x.1, x.2))
}

pub fn find_item_of(items: &Vec<Item>, id: &str) -> (r: Option<usize>)
    ensures
        match r {
            Some(k) => k < items.len() && find_item(items@, id@, 0) == Some(items@[k as int]),
            None => find_item(items@, id@, 0) is None,
        },
{
    let mut k: usize = 0;
    while k < items.len()
        invariant
            k <= items.len(),
            find_item(items@, id@, 0) == find_item(items@, id@, k as int),
        decreases items.len() - k,
    {
        let same = items[k].id.as_str().to_owned() == id.to_owned();
        if same {
            return Some(k);
        }
        k = k + 1;
    }
    None
}

fn earlier_of(a: &Stamp, b: &Stamp) -> (r: bool)
    ensures
        r == a.earlier(*b),
{
    a.secs < b.secs || (a.secs == b.secs && a.nanos < b.nanos)
}

/// The window's bounds keep every instant in it a day inside the calendar.
pub open spec fn window_ok(now: Stamp, horizon: Stamp) -> bool {
    &&& UTC_MIN_SECS + 86400 <= now.secs
    &&& horizon.secs <= UTC_MAX_SECS - 86400
    &&& now.nanos < 1_000_000_000
}

fn key_text(prefix: &str, st: &Stamp) -> (r: String)
    requires
        st.wf(),
    ensures
        r@ == prefix@ + "@"@ + rfc3339_text(st.secs, st.nanos, st.offset),
{
    let mut k = String::from_str(prefix);
    k.append("@");
    k.append(stamp_text(st).as_str());
    k
}

#[verifier::rlimit(40)]
fn block_scan(
    week: &Week,
    items: &Vec<Item>,
    now: Stamp,
    horizon: Stamp,
    ns: &mut Vec<Notice>,
    placed: &mut Vec<(String, i64, u32)>,
    Ghost(pre): Ghost<Seq<(Date, PlacementV)>>,
)
    requires
        window_ok(now, horizon),
        forall|k: int| 0 <= k < week.days.len() ==> all_stamps_ok(#[trigger] days_v(week.days@)[k].placements),
        (notices_v(old(ns)@), placed_v(old(placed)@)) == block_pass(pre, items@, now, horizon),
    ensures
        (notices_v(final(ns)@), placed_v(final(placed)@)) == block_pass(
            pre + entries(days_v(week.days@)),
            items@,
            now,
            horizon,
        ),
{
    let ghost dv = days_v(week.days@);
    let mut i: usize = 0;
    assert(dv.take(0) =~= Seq::<DayV>::empty());
    assert(pre + entries(dv.take(0)) =~= pre);
    while i < week.days.len()
        invariant
            i <= week.days.len(),
            dv == days_v(week.days@),
            window_ok(now, horizon),
            forall|k: int| 0 <= k < week.days.len() ==> all_stamps_ok(#[trigger] days_v(week.days@)[k].placements),
            (notices_v(ns@), placed_v(placed@)) == block_pass(pre + entries(dv.take(i as int)), items@, now, horizon),
        decreases week.days.len() - i,
    {
        let day = &week.days[i];
        let ghost dayv = dv[i as int];
        assert(dayv == day@);
        let ghost base = pre + entries(dv.take(i as int));
        let mut j: usize = 0;
        assert(base + dayv.placements.take(0).map_values(|p: PlacementV| (dayv.date, p)) =~= base);
        while j < day.placements.len()
            invariant
                j <= day.placements.len(),
                dayv == day@,
                all_stamps_ok(dayv.placements),
                window_ok(now, horizon),
                (notices_v(ns@), placed_v(placed@)) == block_pass(
                    base + dayv.placements.take(j as int).map_values(|p: PlacementV| (dayv.date, p)),
                    items@,
                    now,
                    horizon,
                ),
            decreases day.placements.len() - j,
        {
            let p = &day.placements[j];
            let ghost es = base + dayv.placements.take(j as int).map_values(|p: PlacementV| (dayv.date, p));
            let ghost es1 = base + dayv.placements.take(j + 1).map_values(|p: PlacementV| (dayv.date, p));
            assert(es1.drop_last() =~= es);
            assert(dayv.placements[j as int] == p@);
            assert(es1.last() == (day.date, p@));
            assert(stamps_ok(dayv.placements[j as int]));
            let start = Stamp { secs: p.starts_at.secs, nanos: p.starts_at.nanos, offset: 0 };
            if earlier_of(&now, &start) && !earlier_of(&horizon, &start) {
                match find_item_of(items, p.item_id.as_str()) {
                    None => {},
                    Some(k) => {
                        let it = &items[k];
                        if !it.is_done(Some(day.date)) {
                            let key = key_text(p.id.as_str(), &start);
                            let n = Notice {
                                key,
                                kind: Kind::Block,
                                title: it.title.clone(),
                                location: match &it.location {
                                    Some(l) => Some(l.clone()),
                                    None => None,
                                },
                                at: start,
                                ends: Some(Stamp { secs: p.ends_at.secs, nanos: p.ends_at.nanos, offset: 0 }),
                            };
                            let ghost nv = n@;
                            let ghost before_n = notices_v(ns@);
                            let ghost before_p = placed_v(placed@);
                            ns.push(n);
                            placed.push((p.item_id.clone(), start.secs, start.nanos));
                            assert(notices_v(ns@) =~= before_n.push(nv));
                            assert(placed_v(placed@) =~= before_p.push((p@.item_id, start.secs, start.nanos)));
                            assert(nv == block_notice(p@, items@[k as int]));
                        }
                    },
                }
            }
            j = j + 1;
        }
        assert(dayv.placements.take(day.placements.len() as int) =~= dayv.placements);
        assert(dv.take(i + 1).drop_last() =~= dv.take(i as int));
        assert(entries(dv.take(i + 1)) == entries(dv.take(i as int)) + dayv.placements.map_values(
            |p: PlacementV| (dayv.date, p),
        ));
        assert(pre + entries(dv.take(i + 1)) =~= base + dayv.placements.map_values(
            |p: PlacementV| (dayv.date, p),
        ));
        i = i + 1;
    }
    assert(dv.take(week.days.len() as int) =~= dv);
}

fn contains_placed(placed: &Vec<(String, i64, u32)>, id: &str, secs: i64, nanos: u32) -> (r: bool)
    ensures
        r == placed_v(placed@).contains((id@, secs, nanos)),
{
    let mut k: usize = 0;
    while k < placed.len()
        invariant
            k <= placed.len(),
            forall|m: int| 0 <= m < k ==> placed_v(placed@)[m] != (id@, secs, nanos),
        decreases placed.len() - k,
    {
        let e = &placed[k];
        if e.1 == secs && e.2 == nanos && e.0.as_str().to_owned() == id.to_owned() {
            assert(placed_v(placed@)[k as int] == (id@, secs, nanos));
            return true;
        }
        k = k + 1;
    }
    false
}

fn deadline_scan(
    items: &Vec<Item>,
    now: Stamp,
    horizon: Stamp,
    placed: &Vec<(String, i64, u32)>,
    ns: &mut Vec<Notice>,
)
    requires
        window_ok(now, horizon),
        forall|k: int| 0 <= k < items.len() ==> ((#[trigger] items@[k]).due_at matches Some(d) ==> d.nanos < 1_000_000_000),
    ensures
        notices_v(final(ns)@) == notices_v(old(ns)@) + deadline_pass(items@, now, horizon, placed_v(placed@)),
{
    let ghost start = notices_v(ns@);
    let ghost pv = placed_v(placed@);
    let mut i: usize = 0;
    assert(start + deadline_pass(items@.take(0), now, horizon, pv) =~= start);
    while i < items.len()
        invariant
            i <= items.len(),
            pv == placed_v(placed@),
            window_ok(now, horizon),
            forall|k: int| 0 <= k < items.len() ==> ((#[trigger] items@[k]).due_at matches Some(d) ==> d.nanos < 1_000_000_000),
            notices_v(ns@) == start + deadline_pass(items@.take(i as int), now, horizon, pv),
        decreases items.len() - i,
    {
        assert(items@.take(i + 1).drop_last() =~= items@.take(i as int));
        assert(items@.take(i + 1).last() == items@[i as int]);
        let it = &items[i];
        if let Some(due) = it.due_at {
            if it.listed && !it.completed && earlier_of(&now, &due) && !earlier_of(&horizon, &due)
                && !contains_placed(placed, it.id.as_str(), due.secs, due.nanos) {
                let mut key = String::from_str("due_");
                key.append(it.id.as_str());
                let key = key_text(key.as_str(), &Stamp { secs: due.secs, nanos: due.nanos, offset: 0 });
                let n = Notice {
                    key,
                    kind: Kind::Deadline,
                    title: it.title.clone(),
                    location: match &it.location {
                        Some(l) => Some(l.clone()),
                        None => None,
                    },
                    at: due,
                    ends: None,
                };
                let ghost nv = n@;
                let ghost before = notices_v(ns@);
                ns.push(n);
                assert(notices_v(ns@) =~= before.push(nv));
                assert(nv.key == deadline_notice(*it, due).key);
            }
        }
        assert(notices_v(ns@) =~= start + deadline_pass(items@.take(i + 1), now, horizon, pv));
        i = i + 1;
    }
    assert(items@.take(items.len() as int) =~= items@);
}

fn notice_before_of(a: &Notice, b: &Notice) -> (r: bool)
    ensures
        r == notice_before(a@, b@),
{
    if a.at.secs != b.at.secs {
        return a.at.secs < b.at.secs;
    }
    if a.at.nanos != b.at.nanos {
        return a.at.nanos < b.at.nanos;
    }
    str_before(a.key.as_str(), b.key.as_str())
}

proof fn lemma_insert_n_at(x: NoticeV, s: Seq<NoticeV>, j: int)
    requires
        0 <= j <= s.len(),
        forall|k: int| 0 <= k < j ==> !notice_before(x, #[trigger] s[k]),
        j < s.len() ==> notice_before(x, s[j]),
    ensures
        insert_n(x, s) == s.take(j) + seq![x] + s.skip(j),
    decreases s.len(),
{
    if s.len() == 0 {
        assert(s.take(j) + seq![x] + s.skip(j) =~= seq![x]);
    } else if j == 0 {
        assert(s.take(0) + seq![x] + s.skip(0) =~= seq![x] + s);
    } else {
        let t = s.drop_first();
        assert forall|k: int| 0 <= k < j - 1 implies !notice_before(x, #[trigger] t[k]) by {
            assert(t[k] == s[k + 1]);
        }
        lemma_insert_n_at(x, t, j - 1);
        assert(seq![s[0]] + (t.take(j - 1) + seq![x] + t.skip(j - 1)) =~= s.take(j) + seq![x]
            + s.skip(j));
    }
}

fn insert_notice(v: &mut Vec<Notice>, x: Notice)
    ensures
        notices_v(final(v)@) == insert_n(x@, notices_v(old(v)@)),
{
    let ghost s = notices_v(v@);
    let mut j: usize = 0;
    while j < v.len() && !notice_before_of(&x, &v[j])
        invariant
            j <= v.len(),
            s == notices_v(v@),
            forall|k: int| 0 <= k < j ==> !notice_before(x@, #[trigger] s[k]),
        decreases v.len() - j,
    {
        assert(s[j as int] == v@[j as int]@);
        j = j + 1;
    }
    proof {
        if j < v.len() {
            assert(s[j as int] == v@[j as int]@);
        }
        lemma_insert_n_at(x@, s, j as int);
    }
    let ghost xv = x@;
    v.insert(j, x);
    assert(notices_v(v@) =~= s.take(j as int) + seq![xv] + s.skip(j as int));
}

fn sort_notices(v: Vec<Notice>) -> (r: Vec<Notice>)
    ensures
        notices_v(r@) == sort_n(notices_v(v@)),
{
    let ghost all = notices_v(v@);
    let n = v.len();
    let mut rest = v;
    let mut out: Vec<Notice> = Vec::new();
    let mut i: usize = 0;
    while rest.len() > 0
        invariant
            n == all.len(),
            i + rest.len() == all.len(),
            notices_v(rest@) == all.skip(i as int),
            notices_v(out@) == sort_n(all.take(i as int)),
        decreases rest.len(),
    {
        let ghost old_rest = rest@;
        let x = rest.remove(0);
        assert(rest@ =~= old_rest.skip(1));
        assert(notices_v(old_rest)[0] == old_rest[0]@);
        assert(all.skip(i as int)[0] == all[i as int]);
        assert(all.take(i + 1).drop_last() =~= all.take(i as int));
        assert(x@ == all[i as int]);
        insert_notice(&mut out, x);
        i = i + 1;
        assert(notices_v(rest@) =~= notices_v(old_rest).skip(1));
        assert(notices_v(rest@) =~= all.skip(i as int));
    }
    assert(all.take(i as int) =~= all);
    out
}

fn dedup_notices(v: Vec<Notice>) -> (r: Vec<Notice>)
    ensures
        notices_v(r@) == dedup_keys(notices_v(v@)),
{
    let ghost all = notices_v(v@);
    let n = v.len();
    let mut rest = v;
    let mut out: Vec<Notice> = Vec::new();
    let mut last_key: Option<String> = None;
    let mut i: usize = 0;
    while rest.len() > 0
        invariant
            n == all.len(),
            i + rest.len() == all.len(),
            notices_v(rest@) == all.skip(i as int),
            notices_v(out@) == dedup_keys(all.take(i as int)),
            match last_key {
                Some(k) => i > 0 && k@ == all[i - 1].key,
                None => i == 0,
            },
        decreases rest.len(),
    {
        let ghost old_rest = rest@;
        let x = rest.remove(0);
        assert(rest@ =~= old_rest.skip(1));
        assert(notices_v(old_rest)[0] == old_rest[0]@);
        assert(all.skip(i as int)[0] == all[i as int]);
        assert(all.take(i + 1).drop_last() =~= all.take(i as int));
        assert(x@ == all[i as int]);
        let repeat = match &last_key {
            Some(k) => k.as_str().to_owned() == x.key.as_str().to_owned(),
            None => false,
        };
        let key = x.key.clone();
        if !repeat {
            let ghost before = notices_v(out@);
            let ghost xv = x@;
            out.push(x);
            assert(notices_v(out@) =~= before.push(xv));
        }
        last_key = Some(key);
        i = i + 1;
        assert(notices_v(rest@) =~= notices_v(old_rest).skip(1));
        assert(notices_v(rest@) =~= all.skip(i as int));
    }
    assert(all.take(i as int) =~= all);
    out
}

/// Everything starting or falling due in `(now, now + lead]`: blocks on this
/// week and next (as seen from `zone`), then deadlines of listed items not yet
/// done and not already announced as a block at the same instant; by time,
/// each key once. `None` exactly when next week lies past the end of the calendar.
#[verifier::rlimit(40)]
pub fn due_soon(snap: &Snapshot, items: &Vec<Item>, now: Stamp, lead_secs: i64, zone: &Zone) -> (r: Option<Vec<Notice>>)
    requires
        UTC_MIN_SECS + 8 * 86400 <= now.secs <= UTC_MAX_SECS - 8 * 86400,
        now.nanos < 1_000_000_000,
        UTC_MIN_SECS <= now.secs + lead_secs <= UTC_MAX_SECS - 86400,
        forall|k: int| 0 <= k < items.len() ==> ((#[trigger] items@[k]).due_at matches Some(d) ==> d.nanos < 1_000_000_000),
    ensures
        match r {
            Some(v) => due_soon_spec(*snap, items@, now, lead_secs, zone@) == Some(notices_v(v@)),
            None => due_soon_spec(*snap, items@, now, lead_secs, zone@) is None,
        },
{
    let name = zone.name();
    let off = offset_at(name, now.secs);
    let local = Stamp { secs: now.secs, nanos: now.nanos, offset: off };
    let today = match crate::expand::local_day_of(&local) {
        Some(t) => t,
        None => {
            return None;
        },
    };
    let back = weekday_num(&today);
    let monday = match add_days(&today, 0 - back as i64) {
        Some(m) => m,
        None => {
            return None;
        },
    };
    let next = match add_days(&monday, 7) {
        Some(m) => m,
        None => {
            return None;
        },
    };
    let w1 = get_week(snap, monday, zone);
    let w2 = get_week(snap, next, zone);
    let horizon = Stamp { secs: now.secs + lead_secs, nanos: now.nanos, offset: 0 };
    let now_utc = Stamp { secs: now.secs, nanos: now.nanos, offset: 0 };
    let mut ns: Vec<Notice> = Vec::new();
    let mut placed: Vec<(String, i64, u32)> = Vec::new();
    assert(notices_v(ns@) =~= Seq::<NoticeV>::empty());
    assert(placed_v(placed@) =~= Seq::<(Seq<char>, i64, u32)>::empty());
    block_scan(&w1, items, now_utc, horizon, &mut ns, &mut placed, Ghost(Seq::empty()));
    let ghost e1 = entries(days_v(w1.days@));
    assert(Seq::<(Date, PlacementV)>::empty() + e1 =~= e1);
    block_scan(&w2, items, now_utc, horizon, &mut ns, &mut placed, Ghost(e1));
    let ghost blocks = notices_v(ns@);
    deadline_scan(items, now_utc, horizon, &placed, &mut ns);
    let sorted = sort_notices(ns);
    let out = dedup_notices(sorted);
    proof {
        assert(w1@.days == week_spec(*snap, monday, zone@).days);
        assert(days_v(w1.days@) == w1@.days);
        assert(days_v(w2.days@) == w2@.days);
    }
    Some(out)
}
/// A notice already sent, by its key, and when.
#[derive(Clone, Debug, PartialEq)]
pub struct Sent {
    pub key: String,
    /// In UTC.
    pub sent_at: Stamp,
}

/// The notice `key` has been sent.
pub open spec fn was_sent(log: Seq<Sent>, key: Seq<char>) -> bool {
    exists|k: int| 0 <= k < log.len() && (#[trigger] log[k]).key@ == key
}

/// Has this notice gone out already?
pub fn already_sent(log: &Vec<Sent>, key: &str) -> (r: bool)
    ensures
        r == was_sent(log@, key@),
{
    let want = key.to_owned();
    let mut i: usize = 0;
    while i < log.len()
        invariant
            i <= log.len(),
            want@ == key@,
            forall|k: int| 0 <= k < i ==> (#[trigger] log@[k]).key@ != key@,
        decreases log.len() - i,
    {
        if log[i].key == want {
            return true;
        }
        i = i + 1;
    }
    false
}

/// Record that a notice went out at `now`. One row per key: marking again
/// moves its time, and is not an error.
pub fn mark_sent(log: &mut Vec<Sent>, key: &str, now: Stamp)
    ensures
        final(log)@.len() >= 1,
        final(log)@.last().key@ == key@,
        final(log)@.last().sent_at == utc(now),
        forall|k: int| 0 <= k < final(log)@.len() - 1 ==> (#[trigger] final(log)@[k]).key@ != key@,
        forall|k: int| 0 <= k < final(log)@.len() - 1 ==> old(log)@.contains(#[trigger] final(log)@[k]),
        forall|x: Seq<char>| x != key@ ==> (was_sent(final(log)@, x) == was_sent(old(log)@, x)),
        forall|k: int|
            0 <= k < old(log)@.len() && (#[trigger] old(log)@[k]).key@ != key@ ==> final(log)@.contains(old(log)@[k]),
{
    let want = key.to_owned();
    let ghost all = log@;
    let mut i: usize = 0;
    while i < log.len()
        invariant
            i <= log.len(),
            want@ == key@,
            forall|k: int| 0 <= k < i ==> (#[trigger] log@[k]).key@ != key@,
            forall|k: int| 0 <= k < log.len() ==> all.contains(#[trigger] log@[k]),
            forall|k: int| 0 <= k < all.len() && (#[trigger] all[k]).key@ != key@ ==> log@.contains(all[k]),
        decreases log.len() - i,
    {
        if log[i].key == want {
            let ghost before = log@;
            log.remove(i);
            assert forall|k: int| 0 <= k < log.len() implies all.contains(#[trigger] log@[k]) by {
                if k < i {
                    assert(log@[k] == before[k]);
                } else {
                    assert(log@[k] == before[k + 1]);
                }
            }
            assert forall|k: int| 0 <= k < all.len() && (#[trigger] all[k]).key@ != key@ implies log@.contains(all[k]) by {
                let j = choose|j: int| 0 <= j < before.len() && before[j] == all[k];
                if j < i {
                    assert(log@[j] == before[j]);
                } else {
                    assert(j != i);
                    assert(log@[j - 1] == before[j]);
                }
            }
        } else {
            i = i + 1;
        }
    }
    let ghost mid = log@;
    log.push(Sent { key: want, sent_at: Stamp { secs: now.secs, nanos: now.nanos, offset: 0 } });
    assert forall|k: int| 0 <= k < log@.len() - 1 implies all.contains(#[trigger] log@[k]) by {
        assert(log@[k] == mid[k]);
    }
    assert forall|k: int|
        0 <= k < all.len() && (#[trigger] all[k]).key@ != key@ implies log@.contains(all[k]) by {
        let j = choose|j: int| 0 <= j < mid.len() && mid[j] == all[k];
        assert(log@[j] == mid[j]);
    }
    assert forall|x: Seq<char>| x != key@ implies (was_sent(log@, x) == was_sent(all, x)) by {
        if was_sent(log@, x) {
            let k = choose|k: int| 0 <= k < log@.len() && (#[trigger] log@[k]).key@ == x;
            assert(k < mid.len());
            assert(all.contains(mid[k]));
        }
        if was_sent(all, x) {
            let k = choose|k: int| 0 <= k < all.len() && (#[trigger] all[k]).key@ == x;
            assert(log@.contains(all[k]));
        }
    }
}

/// Drop the rows sent before `before`: a key is only consulted while its
/// occurrence is still to come, so anything older is dead weight. Says how
/// many went; the rest stay, in order.
pub fn prune_sent(log: &mut Vec<Sent>, before: Stamp) -> (r: usize)
    ensures
        final(log)@ == old(log)@.filter(|x: Sent| !x.sent_at.earlier(before)),
        r == old(log)@.len() - final(log)@.len(),
{
    let ghost all = log@;
    let mut kept: Vec<Sent> = Vec::new();
    let n = log.len();
    let mut i: usize = 0;
    while log.len() > 0
        invariant
            n == all.len(),
            i + log.len() == n,
            log@ == all.skip(i as int),
            kept@ == all.take(i as int).filter(|x: Sent| !x.sent_at.earlier(before)),
            kept.len() <= i,
        decreases log.len(),
    {
        let ghost rest = log@;
        let x = log.remove(0);
        assert(log@ =~= all.skip(i + 1));
        assert(x == all[i as int]);
        assert(all.take(i + 1).drop_last() =~= all.take(i as int));
        reveal(Seq::filter);
        if !(x.sent_at.secs < before.secs || (x.sent_at.secs == before.secs && x.sent_at.nanos < before.nanos)) {
            kept.push(x);
        }
        i = i + 1;
    }
    assert(all.take(n as int) =~= all);
    let gone = n - kept.len();
    *log = kept;
    gone
}

/// Every notice falls in the window.
pub open spec fn all_in_window(ns: Seq<NoticeV>, now: Stamp, horizon: Stamp) -> bool {
    forall|k: int| 0 <= k < ns.len() ==> in_window((#[trigger] ns[k]).at, now, horizon)
}

proof fn lemma_blocks_in_window(es: Seq<(Date, PlacementV)>, items: Seq<Item>, now: Stamp, horizon: Stamp)
    ensures
        all_in_window(block_pass(es, items, now, horizon).0, now, horizon),
    decreases es.len(),
{
    if es.len() > 0 {
        lemma_blocks_in_window(es.drop_last(), items, now, horizon);
        let prev = block_pass(es.drop_last(), items, now, horizon).0;
        let out = block_pass(es, items, now, horizon).0;
        assert forall|k: int| 0 <= k < out.len() implies in_window((#[trigger] out[k]).at, now, horizon) by {
            if k < prev.len() {
                assert(out[k] == prev[k]);
            }
        }
    }
}

proof fn lemma_deadlines_in_window(items: Seq<Item>, now: Stamp, horizon: Stamp, placed: Seq<(Seq<char>, i64, u32)>)
    ensures
        all_in_window(deadline_pass(items, now, horizon, placed), now, horizon),
    decreases items.len(),
{
    if items.len() > 0 {
        lemma_deadlines_in_window(items.drop_last(), now, horizon, placed);
        let prev = deadline_pass(items.drop_last(), now, horizon, placed);
        let out = deadline_pass(items, now, horizon, placed);
        assert forall|k: int| 0 <= k < out.len() implies in_window((#[trigger] out[k]).at, now, horizon) by {
            if k < prev.len() {
                assert(out[k] == prev[k]);
            }
        }
    }
}

/// Inserting puts `x` in and keeps everything else.
proof fn lemma_insert_members(x: NoticeV, s: Seq<NoticeV>)
    ensures
        insert_n(x, s).len() == s.len() + 1,
        forall|k: int|
            0 <= k < insert_n(x, s).len() ==> #[trigger] insert_n(x, s)[k] == x || s.contains(
                insert_n(x, s)[k],
            ),
    decreases s.len(),
{
    if s.len() > 0 && !notice_before(x, s[0]) {
        lemma_insert_members(x, s.drop_first());
        let rest = insert_n(x, s.drop_first());
        let out = insert_n(x, s);
        assert forall|k: int| 0 <= k < out.len() implies #[trigger] out[k] == x || s.contains(out[k]) by {
            if k == 0 {
                assert(out[0] == s[0]);
            } else {
                assert(out[k] == rest[k - 1]);
                if rest[k - 1] != x {
                    let j = choose|j: int| 0 <= j < s.drop_first().len() && s.drop_first()[j] == rest[k - 1];
                    assert(s[j + 1] == out[k]);
                }
            }
        }
    } else if s.len() > 0 {
        let out = insert_n(x, s);
        assert forall|k: int| 0 <= k < out.len() implies #[trigger] out[k] == x || s.contains(out[k]) by {
            if k > 0 {
                assert(out[k] == s[k - 1]);
            }
        }
    } else {
        assert(insert_n(x, s)[0] == x);
    }
}

/// Sorting adds nothing.
proof fn lemma_sort_members(s: Seq<NoticeV>)
    ensures
        forall|k: int| 0 <= k < sort_n(s).len() ==> s.contains(#[trigger] sort_n(s)[k]),
    decreases s.len(),
{
    if s.len() > 0 {
        let prev = sort_n(s.drop_last());
        lemma_sort_members(s.drop_last());
        lemma_insert_members(s.last(), prev);
        let out = sort_n(s);
        assert forall|k: int| 0 <= k < out.len() implies s.contains(#[trigger] out[k]) by {
            if out[k] == s.last() {
                assert(s[s.len() - 1] == out[k]);
            } else {
                let j = choose|j: int| 0 <= j < prev.len() && prev[j] == out[k];
                let i = choose|i: int| 0 <= i < s.drop_last().len() && s.drop_last()[i] == prev[j];
                assert(s[i] == out[k]);
            }
        }
    }
}

/// Dropping repeated keys adds nothing.
proof fn lemma_dedup_members(s: Seq<NoticeV>)
    ensures
        forall|k: int| 0 <= k < dedup_keys(s).len() ==> s.contains(#[trigger] dedup_keys(s)[k]),
    decreases s.len(),
{
    if s.len() > 0 {
        let prev = dedup_keys(s.drop_last());
        lemma_dedup_members(s.drop_last());
        let out = dedup_keys(s);
        assert forall|k: int| 0 <= k < out.len() implies s.contains(#[trigger] out[k]) by {
            if k < prev.len() {
                assert(out[k] == prev[k]);
                let i = choose|i: int| 0 <= i < s.drop_last().len() && s.drop_last()[i] == prev[k];
                assert(s[i] == out[k]);
            } else {
                assert(out[k] == s.last());
                assert(s[s.len() - 1] == out[k]);
            }
        }
    }
}

/// What holds of every notice before sorting holds after sorting and dropping
/// repeated keys.
proof fn lemma_sorted_members(s: Seq<NoticeV>)
    ensures
        forall|k: int|
            0 <= k < dedup_keys(sort_n(s)).len() ==> s.contains(#[trigger] dedup_keys(sort_n(s))[k]),
{
    lemma_sort_members(s);
    lemma_dedup_members(sort_n(s));
    let out = dedup_keys(sort_n(s));
    assert forall|k: int| 0 <= k < out.len() implies s.contains(#[trigger] out[k]) by {
        let j = choose|j: int| 0 <= j < sort_n(s).len() && sort_n(s)[j] == out[k];
        assert(s.contains(sort_n(s)[j]));
    }
}

/// What is announced is about to happen: every notice starts, or falls due,
/// after `now` and no later than `lead` seconds on. Nothing already begun is
/// announced.
pub proof fn law_notices_fall_in_the_window(snap: Snapshot, items: Seq<Item>, now: Stamp, lead: i64, zone: Seq<char>)
    ensures
        due_soon_spec(snap, items, now, lead, zone) matches Some(ns) ==> all_in_window(
            ns,
            utc(now),
            Stamp { secs: (now.secs + lead) as i64, nanos: now.nanos, offset: 0 },
        ),
{
    let horizon = Stamp { secs: (now.secs + lead) as i64, nanos: now.nanos, offset: 0 };
    if let Some(today) = local_day(Stamp { secs: now.secs, nanos: now.nanos, offset: tz_offset(zone, now.secs) }) {
        if let Some(monday) = plus(today, (0 - weekday(today)) as i64) {
            if let Some(next) = plus(monday, 7) {
                let es = entries(week_spec(snap, monday, zone).days) + entries(week_spec(snap, next, zone).days);
                let (blocks, placed) = block_pass(es, items, utc(now), horizon);
                let deadlines = deadline_pass(items, utc(now), horizon, placed);
                lemma_blocks_in_window(es, items, utc(now), horizon);
                lemma_deadlines_in_window(items, utc(now), horizon, placed);
                let all = blocks + deadlines;
                assert forall|k: int| 0 <= k < all.len() implies in_window((#[trigger] all[k]).at, utc(now), horizon) by {
                    if k < blocks.len() {
                        assert(all[k] == blocks[k]);
                    } else {
                        assert(all[k] == deadlines[k - blocks.len()]);
                    }
                }
                lemma_sorted_members(all);
                let out = dedup_keys(sort_n(all));
                assert forall|k: int| 0 <= k < out.len() implies in_window((#[trigger] out[k]).at, utc(now), horizon) by {
                    let j = choose|j: int| 0 <= j < all.len() && all[j] == out[k];
                    assert(in_window(all[j].at, utc(now), horizon));
                }
            }
        }
    }
}

/// A block notice for an entry whose item exists and is not ticked off on that day.
pub open spec fn open_block(n: NoticeV, e: (Date, PlacementV), items: Seq<Item>) -> bool {
    match find_item(items, e.1.item_id, 0) {
        Some(it) => !it.done(Some(e.0)) && n == block_notice(e.1, it),
        None => false,
    }
}

/// A deadline notice for a listed item not yet completed.
pub open spec fn open_deadline(n: NoticeV, it: Item) -> bool {
    match it.due_at {
        Some(due) => it.listed && !it.completed && n == deadline_notice(it, due),
        None => false,
    }
}

/// A notice for something still to do: a block among `es` or a deadline among `items`.
pub open spec fn still_open(n: NoticeV, es: Seq<(Date, PlacementV)>, items: Seq<Item>) -> bool {
    open_block_among(n, es, items) || open_deadline_among(n, items)
}

/// The blocks `due_soon` looks through: this week and next, as seen from `zone`.
pub open spec fn watched(snap: Snapshot, now: Stamp, zone: Seq<char>) -> Option<Seq<(Date, PlacementV)>> {
    match local_day(Stamp { secs: now.secs, nanos: now.nanos, offset: tz_offset(zone, now.secs) }) {
        None => None,
        Some(today) => match plus(today, (0 - weekday(today)) as i64) {
            None => None,
            Some(monday) => match plus(monday, 7) {
                None => None,
                Some(next) => Some(
                    entries(week_spec(snap, monday, zone).days) + entries(week_spec(snap, next, zone).days),
                ),
            },
        },
    }
}

/// An open block among `es`.
pub open spec fn open_block_among(n: NoticeV, es: Seq<(Date, PlacementV)>, items: Seq<Item>) -> bool {
    exists|i: int| 0 <= i < es.len() && #[trigger] open_block(n, es[i], items)
}

/// An open deadline among `items`.
pub open spec fn open_deadline_among(n: NoticeV, items: Seq<Item>) -> bool {
    exists|j: int| 0 <= j < items.len() && #[trigger] open_deadline(n, items[j])
}

/// Every notice is an open block among `es`.
pub open spec fn all_open_blocks(ns: Seq<NoticeV>, es: Seq<(Date, PlacementV)>, items: Seq<Item>) -> bool {
    forall|k: int| 0 <= k < ns.len() ==> #[trigger] open_block_among(ns[k], es, items)
}

/// Every notice is an open deadline among `items`.
pub open spec fn all_open_deadlines(ns: Seq<NoticeV>, items: Seq<Item>) -> bool {
    forall|k: int| 0 <= k < ns.len() ==> #[trigger] open_deadline_among(ns[k], items)
}

proof fn lemma_blocks_open(es: Seq<(Date, PlacementV)>, items: Seq<Item>, now: Stamp, horizon: Stamp)
    ensures
        all_open_blocks(block_pass(es, items, now, horizon).0, es, items),
    decreases es.len(),
{
    if es.len() > 0 {
        let init = es.drop_last();
        lemma_blocks_open(init, items, now, horizon);
        let prev = block_pass(init, items, now, horizon).0;
        let out = block_pass(es, items, now, horizon).0;
        assert forall|k: int| 0 <= k < out.len() implies #[trigger] open_block_among(out[k], es, items) by {
            if k < prev.len() {
                assert(out[k] == prev[k]);
                assert(open_block_among(prev[k], init, items));
                let i = choose|i: int| 0 <= i < init.len() && #[trigger] open_block(prev[k], init[i], items);
                assert(es[i] == init[i]);
                assert(open_block(out[k], es[i], items));
            } else {
                assert(open_block(out[k], es[es.len() - 1], items));
            }
        }
    }
}

proof fn lemma_deadlines_open(items: Seq<Item>, now: Stamp, horizon: Stamp, placed: Seq<(Seq<char>, i64, u32)>, all: Seq<Item>)
    requires
        items.len() <= all.len(),
        forall|j: int| 0 <= j < items.len() ==> items[j] == all[j],
    ensures
        all_open_deadlines(deadline_pass(items, now, horizon, placed), all),
    decreases items.len(),
{
    if items.len() > 0 {
        let init = items.drop_last();
        lemma_deadlines_open(init, now, horizon, placed, all);
        let prev = deadline_pass(init, now, horizon, placed);
        let out = deadline_pass(items, now, horizon, placed);
        assert forall|k: int| 0 <= k < out.len() implies #[trigger] open_deadline_among(out[k], all) by {
            if k < prev.len() {
                assert(out[k] == prev[k]);
                assert(open_deadline_among(prev[k], all));
            } else {
                assert(all[items.len() - 1] == items.last());
                assert(open_deadline(out[k], all[items.len() - 1]));
            }
        }
    }
}

/// Nothing already ticked off is announced: each notice is a block of this
/// week or next whose item is not done on that day, or the deadline of a
/// listed item not yet completed.
pub proof fn law_nothing_ticked_off_is_announced(snap: Snapshot, items: Seq<Item>, now: Stamp, lead: i64, zone: Seq<char>)
    ensures
        due_soon_spec(snap, items, now, lead, zone) matches Some(ns) ==> (watched(snap, now, zone) matches Some(es)
            && forall|k: int| 0 <= k < ns.len() ==> still_open(#[trigger] ns[k], es, items)),
{
    let horizon = Stamp { secs: (now.secs + lead) as i64, nanos: now.nanos, offset: 0 };
    if let Some(today) = local_day(Stamp { secs: now.secs, nanos: now.nanos, offset: tz_offset(zone, now.secs) }) {
        if let Some(monday) = plus(today, (0 - weekday(today)) as i64) {
            if let Some(next) = plus(monday, 7) {
                let es = entries(week_spec(snap, monday, zone).days) + entries(week_spec(snap, next, zone).days);
                let (blocks, placed) = block_pass(es, items, utc(now), horizon);
                let deadlines = deadline_pass(items, utc(now), horizon, placed);
                lemma_blocks_open(es, items, utc(now), horizon);
                lemma_deadlines_open(items, utc(now), horizon, placed, items);
                let all = blocks + deadlines;
                lemma_sorted_members(all);
                let out = dedup_keys(sort_n(all));
                assert forall|k: int| 0 <= k < out.len() implies still_open(#[trigger] out[k], es, items) by {
                    let j = choose|j: int| 0 <= j < all.len() && all[j] == out[k];
                    if j < blocks.len() {
                        assert(all[j] == blocks[j]);
                        assert(open_block_among(blocks[j], es, items));
                    } else {
                        assert(all[j] == deadlines[j - blocks.len()]);
                        assert(open_deadline_among(deadlines[j - blocks.len()], items));
                    }
                }
            }
        }
    }
}


/// Earliest first.
pub open spec fn in_time_order(ns: Seq<NoticeV>) -> bool {
    forall|i: int, j: int| 0 <= i < j < ns.len() ==> !(#[trigger] ns[j].at).earlier(#[trigger] ns[i].at)
}

/// No two neighbours share a key.
pub open spec fn neighbours_differ(ns: Seq<NoticeV>) -> bool {
    forall|i: int| 0 <= i < ns.len() - 1 ==> (#[trigger] ns[i]).key != ns[i + 1].key
}

proof fn lemma_insert_in_time_order(x: NoticeV, s: Seq<NoticeV>)
    requires
        in_time_order(s),
    ensures
        in_time_order(insert_n(x, s)),
    decreases s.len(),
{
    lemma_insert_members(x, s);
    let out = insert_n(x, s);
    if s.len() > 0 && !notice_before(x, s[0]) {
        let tail = s.drop_first();
        assert(in_time_order(tail)) by {
            assert forall|i: int, j: int| 0 <= i < j < tail.len() implies !(#[trigger] tail[j].at).earlier(
                #[trigger] tail[i].at,
            ) by {
                assert(tail[i] == s[i + 1] && tail[j] == s[j + 1]);
            }
        }
        lemma_insert_in_time_order(x, tail);
        lemma_insert_members(x, tail);
        let rest = insert_n(x, tail);
        assert forall|i: int, j: int| 0 <= i < j < out.len() implies !(#[trigger] out[j].at).earlier(
            #[trigger] out[i].at,
        ) by {
            if i == 0 {
                assert(out[0] == s[0]);
                assert(out[j] == rest[j - 1]);
                if rest[j - 1] != x {
                    let k = choose|k: int| 0 <= k < tail.len() && tail[k] == rest[j - 1];
                    assert(tail[k] == s[k + 1]);
                }
            } else {
                assert(out[i] == rest[i - 1] && out[j] == rest[j - 1]);
            }
        }
    } else if s.len() > 0 {
        assert forall|i: int, j: int| 0 <= i < j < out.len() implies !(#[trigger] out[j].at).earlier(
            #[trigger] out[i].at,
        ) by {
            if i == 0 {
                assert(out[0] == x);
                assert(out[j] == s[j - 1]);
                if j - 1 > 0 {
                    assert(!s[j - 1].at.earlier(s[0].at));
                }
            } else {
                assert(out[i] == s[i - 1] && out[j] == s[j - 1]);
            }
        }
    }
}

proof fn lemma_sort_in_time_order(s: Seq<NoticeV>)
    ensures
        in_time_order(sort_n(s)),
    decreases s.len(),
{
    if s.len() > 0 {
        lemma_sort_in_time_order(s.drop_last());
        lemma_insert_in_time_order(s.last(), sort_n(s.drop_last()));
    }
}

#[verifier::rlimit(60)]
proof fn lemma_dedup_order(s: Seq<NoticeV>)
    requires
        in_time_order(s),
    ensures
        in_time_order(dedup_keys(s)),
        neighbours_differ(dedup_keys(s)),
        s.len() > 0 ==> dedup_keys(s).len() > 0 && dedup_keys(s).last().key == s.last().key,
    decreases s.len(),
{
    if s.len() > 0 {
        let init = s.drop_last();
        assert(in_time_order(init)) by {
            assert forall|i: int, j: int| 0 <= i < j < init.len() implies !(#[trigger] init[j].at).earlier(
                #[trigger] init[i].at,
            ) by {
                assert(init[i] == s[i] && init[j] == s[j]);
            }
        }
        lemma_dedup_order(init);
        lemma_dedup_members(init);
        let prev = dedup_keys(init);
        let out = dedup_keys(s);
        if !(s.len() >= 2 && s.last().key == s[s.len() - 2].key) {
            assert(out == prev.push(s.last()));
            assert forall|i: int, j: int| 0 <= i < j < out.len() implies !(#[trigger] out[j].at).earlier(
                #[trigger] out[i].at,
            ) by {
                assert(out[i] == prev[i]);
                if j < prev.len() {
                    assert(out[j] == prev[j]);
                } else {
                    let k = choose|k: int| 0 <= k < init.len() && init[k] == prev[i];
                    assert(init[k] == s[k]);
                    assert(out[j] == s[s.len() - 1]);
                }
            }
            assert forall|i: int| 0 <= i < out.len() - 1 implies (#[trigger] out[i]).key != out[i + 1].key by {
                assert(out[i] == prev[i]);
                if i + 1 < prev.len() {
                    assert(out[i + 1] == prev[i + 1]);
                } else {
                    assert(prev.last().key == init.last().key);
                    assert(init.last() == s[s.len() - 2]);
                }
            }
        } else {
            assert(init.last() == s[s.len() - 2]);
        }
    }
}

proof fn lemma_sorted_once(all: Seq<NoticeV>)
    ensures
        in_time_order(dedup_keys(sort_n(all))),
        neighbours_differ(dedup_keys(sort_n(all))),
{
    lemma_sort_in_time_order(all);
    lemma_dedup_order(sort_n(all));
}

/// The notices come earliest first, and no two neighbours share a key: a
/// notice is said once however many ways it was found.
#[verifier::rlimit(60)]
pub proof fn law_notices_in_time_order(snap: Snapshot, items: Seq<Item>, now: Stamp, lead: i64, zone: Seq<char>)
    ensures
        due_soon_spec(snap, items, now, lead, zone) matches Some(ns) ==> in_time_order(ns) && neighbours_differ(ns),
{
    let horizon = Stamp { secs: (now.secs + lead) as i64, nanos: now.nanos, offset: 0 };
    if let Some(today) = local_day(Stamp { secs: now.secs, nanos: now.nanos, offset: tz_offset(zone, now.secs) }) {
        if let Some(monday) = plus(today, (0 - weekday(today)) as i64) {
            if let Some(next) = plus(monday, 7) {
                let es = entries(week_spec(snap, monday, zone).days) + entries(week_spec(snap, next, zone).days);
                let (blocks, placed) = block_pass(es, items, utc(now), horizon);
                let deadlines = deadline_pass(items, utc(now), horizon, placed);
                lemma_sorted_once(blocks + deadlines);
                assert(due_soon_spec(snap, items, now, lead, zone) == Some(dedup_keys(sort_n(blocks + deadlines))));
            }
        }
    }
}


/// A block notice spans its block: it starts when some placement of this week
/// or next starts and ends when that same placement ends, both in UTC; a
/// deadline notice is a point in time with no end.
pub proof fn law_a_block_notice_spans_its_block(snap: Snapshot, items: Seq<Item>, now: Stamp, lead: i64, zone: Seq<char>)
    ensures
        due_soon_spec(snap, items, now, lead, zone) matches Some(ns) ==> (watched(snap, now, zone) matches Some(es)
            && forall|k: int|
            0 <= k < ns.len() ==> match (#[trigger] ns[k]).kind {
                Kind::Block => exists|i: int|
                    0 <= i < es.len() && ns[k].at == (Stamp {
                        secs: (#[trigger] es[i]).1.starts_at.secs,
                        nanos: es[i].1.starts_at.nanos,
                        offset: 0,
                    }) && ns[k].ends == Some(
                        Stamp { secs: es[i].1.ends_at.secs, nanos: es[i].1.ends_at.nanos, offset: 0 },
                    ),
                Kind::Deadline => ns[k].ends is None,
            }),
{
    law_nothing_ticked_off_is_announced(snap, items, now, lead, zone);
    if let Some(ns) = due_soon_spec(snap, items, now, lead, zone) {
        let es = watched(snap, now, zone).unwrap();
        assert forall|k: int| 0 <= k < ns.len() implies match (#[trigger] ns[k]).kind {
            Kind::Block => exists|i: int|
                0 <= i < es.len() && ns[k].at == (Stamp {
                    secs: (#[trigger] es[i]).1.starts_at.secs,
                    nanos: es[i].1.starts_at.nanos,
                    offset: 0,
                }) && ns[k].ends == Some(
                    Stamp { secs: es[i].1.ends_at.secs, nanos: es[i].1.ends_at.nanos, offset: 0 },
                ),
            Kind::Deadline => ns[k].ends is None,
        } by {
            assert(still_open(ns[k], es, items));
            if open_block_among(ns[k], es, items) {
                let i = choose|i: int| 0 <= i < es.len() && #[trigger] open_block(ns[k], es[i], items);
                assert(open_block(ns[k], es[i], items));
            } else {
                let j = choose|j: int| 0 <= j < items.len() && #[trigger] open_deadline(ns[k], items[j]);
                assert(open_deadline(ns[k], items[j]));
            }
        }
    }
}

} // verus!
