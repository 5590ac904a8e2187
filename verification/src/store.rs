//! Items as the store holds them, and what the store decides about them: how
//! a typed line becomes an item (and its rule, and its block), which items a
//! filter keeps, and which edits are refused before anything is written.
use vstd::prelude::*;
use crate::calendar::{Date, Time, MAX_YEAR, plus, add_days};
use crate::compose::{hhmm, hhmm_of};
use crate::parse::{Parsed, ParsedV, parse, parse_view, parsed_ok};
use crate::stats::same_ignoring_case;
use crate::text::{
    push_char, lower_char, string_from, chars_of, join, lower, lower_vec, opt_str, split_chars, split_on, string_of, trim, trim_chars,
};
use crate::zone::{
    Stamp, Zone, date_text, read_ymd, rfc3339_text, stamp_text, ymd_read, debug_text, quoted, read_stamp, rfc3339_read, tz_known, tz_local,
    utc_ok, ymd_text, zone_known, local_instants,
};

verus! {

#[derive(Clone, Debug, PartialEq)]
pub struct Item {
    pub id: String,
    pub title: String,
    pub tags: Vec<String>,
    pub category: Option<String>,
    /// Where it happens: `@Hall 2.106`. Parsed off the title, so it must be
    /// stored or the user loses something they deliberately typed.
    pub location: Option<String>,
    pub listed: bool,
    /// An instant, kept in UTC.
    pub due_at: Option<Stamp>,
    pub estimate_min: Option<u32>,
    pub recurs: bool,
    /// Occurrence dates ticked off. A one-off's completion is stored under an
    /// empty key and deliberately does not appear here: see `completed`.
    pub done_on: Vec<Date>,
    /// Ticked off at all: the one-off case, or any occurrence of a repeat.
    pub completed: bool,
    /// When the item itself (not one occurrence) was ticked off.
    pub completed_at: Option<Stamp>,
    pub created_at: Stamp,
    pub source: String,
    pub external_id: Option<String>,
}

impl Item {
    /// Done for one occurrence, or for the item itself when it does not repeat.
    pub open spec fn done(&self, on: Option<Date>) -> bool {
        if self.recurs && on is Some {
            self.done_on@.contains(on.unwrap())
        } else {
            self.completed
        }
    }

    /// Done for one occurrence, or for the item itself when it does not repeat.
    pub fn is_done(&self, on: Option<Date>) -> (r: bool)
        ensures
            r == self.done(on),
    {
        match (self.recurs, on) {
            (true, Some(d)) => {
                let mut i: usize = 0;
                while i < self.done_on.len()
                    invariant
                        i <= self.done_on.len(),
                        self.recurs,
                        on == Some(d),
                        forall|k: int| 0 <= k < i ==> self.done_on@[k] != d,
                    decreases self.done_on.len() - i,
                {
                    if self.done_on[i].same(&d) {
                        assert(self.done_on@[i as int] == d);
                        assert(self.done_on@.contains(d));
                        return true;
                    }
                    i = i + 1;
                }
                false
            },
            _ => self.completed,
        }
    }
}

/// An item by value.
pub struct ItemV {
    pub id: Seq<char>,
    pub title: Seq<char>,
    pub tags: Seq<Seq<char>>,
    pub category: Option<Seq<char>>,
    pub location: Option<Seq<char>>,
    pub listed: bool,
    pub due_at: Option<Stamp>,
    pub estimate_min: Option<u32>,
    pub recurs: bool,
    pub done_on: Seq<Date>,
    pub completed: bool,
    pub completed_at: Option<Stamp>,
    pub created_at: Stamp,
    pub source: Seq<char>,
    pub external_id: Option<Seq<char>>,
}

impl View for Item {
    type V = ItemV;

    open spec fn view(&self) -> ItemV {
        ItemV {
            id: self.id@,
            title: self.title@,
            tags: self.tags@.map_values(|t: String| t@),
            category: opt_str(self.category),
            location: opt_str(self.location),
            listed: self.listed,
            due_at: self.due_at,
            estimate_min: self.estimate_min,
            recurs: self.recurs,
            done_on: self.done_on@,
            completed: self.completed,
            completed_at: self.completed_at,
            created_at: self.created_at,
            source: self.source@,
            external_id: opt_str(self.external_id),
        }
    }
}

/// Items by value.
pub open spec fn items_v(v: Seq<Item>) -> Seq<ItemV> {
    v.map_values(|i: Item| i@)
}

pub open spec fn is_hex_lower(c: char) -> bool {
    ('0' <= c && c <= '9') || ('a' <= c && c <= 'f')
}

/// Thirty-two lower-case hexadecimal digits.
pub open spec fn random_digits(s: Seq<char>) -> bool {
    s.len() == 32 && forall|i: int| 0 <= i < 32 ==> is_hex_lower(#[trigger] s[i])
}

/// `uuid::Uuid::new_v4`, written by its `simple` formatter: thirty-two
/// lower-case hexadecimal digits drawn from the system's random source. Which
/// digits is left unsaid; the call panics only if that source fails.
#[verifier::external_body]
fn random_uuid_digits() -> (s: String)
    ensures
        random_digits(s@),
{
    uuid::Uuid::new_v4().simple().to_string()
}

/// A fresh, random id: the prefix and thirty-two hexadecimal digits.
pub open spec fn fresh_id(prefix: Seq<char>, s: Seq<char>) -> bool {
    s.len() == prefix.len() + 32 && s.take(prefix.len() as int) == prefix && random_digits(
        s.skip(prefix.len() as int),
    )
}

/// The prefix of an item's id.
pub open spec fn item_prefix() -> Seq<char> {
    seq!['i', 't', 'm', '_']
}

/// The prefix of a block's id.
pub open spec fn placement_prefix() -> Seq<char> {
    seq!['p', 'l', 'c', '_']
}

pub(crate) fn prefixed(prefix: &[char]) -> (r: String)
    ensures
        fresh_id(prefix@, r@),
{
    let digits = random_uuid_digits();
    let tail = chars_of(digits.as_str());
    let mut out = string_from(prefix);
    let mut i: usize = 0;
    while i < tail.len()
        invariant
            i <= tail.len(),
            tail@ == digits@,
            out@ == prefix@ + tail@.take(i as int),
        decreases tail.len() - i,
    {
        push_char(&mut out, tail[i]);
        assert(tail@.take(i + 1) =~= tail@.take(i as int).push(tail@[i as int]));
        i = i + 1;
    }
    assert(tail@.take(i as int) =~= tail@);
    assert(out@.take(prefix@.len() as int) =~= prefix@);
    assert(out@.skip(prefix@.len() as int) =~= digits@);
    out
}

/// A new item's id: `itm_` and thirty-two random hexadecimal digits.
pub fn new_id() -> (r: String)
    ensures
        fresh_id(item_prefix(), r@),
{
    let r = prefixed(&['i', 't', 'm', '_']);
    assert(['i', 't', 'm', '_']@ =~= item_prefix());
    r
}

/// A new block's id: `plc_` and thirty-two random hexadecimal digits.
pub fn new_placement_id() -> (r: String)
    ensures
        fresh_id(placement_prefix(), r@),
{
    let r = prefixed(&['p', 'l', 'c', '_']);
    assert(['p', 'l', 'c', '_']@ =~= placement_prefix());
    r
}

/// Which items a listing keeps; `None` leaves that property open.
#[derive(Clone, Debug)]
pub struct Filter {
    pub listed: Option<bool>,
    pub recurs: Option<bool>,
    pub tag: Option<String>,
    pub done: Option<bool>,
    /// Which occurrence `done` refers to. A repeating item ticked off last
    /// Tuesday is open again this Tuesday, so asking "is it done?" without a
    /// date would retire it for good. Ignored for one-offs.
    pub on: Option<Date>,
}

impl Default for Filter {
    fn default() -> (r: Filter)
        ensures
            r.listed is None && r.recurs is None && r.tag is None && r.done is None && r.on is None,
    {
        Filter { listed: None, recurs: None, tag: None, done: None, on: None }
    }
}

/// Whether a filter keeps an item.
pub open spec fn keeps(f: Filter, it: Item) -> bool {
    &&& (f.listed matches Some(w) ==> it.listed == w)
    &&& (f.recurs matches Some(w) ==> it.recurs == w)
    &&& (f.done matches Some(w) ==> it.done(f.on) == w)
    &&& (f.tag matches Some(want) ==> exists|k: int|
        0 <= k < it.tags.len() && same_ignoring_case(#[trigger] it.tags@[k]@, want@))
}

fn same_case_insensitive(a: &str, b: &str) -> (r: bool)
    ensures
        r == same_ignoring_case(a@, b@),
{
    let x = chars_of(a);
    let y = chars_of(b);
    let lx = lower_vec(&x);
    let ly = lower_vec(&y);
    if lx.len() != ly.len() {
        return false;
    }
    let mut i: usize = 0;
    while i < lx.len()
        invariant
            i <= lx.len(),
            lx.len() == ly.len(),
            lx@ == lower(a@),
            ly@ == lower(b@),
            forall|k: int| 0 <= k < i ==> lx@[k] == ly@[k],
        decreases lx.len() - i,
    {
        if lx[i] != ly[i] {
            assert(lx@[i as int] != ly@[i as int]);
            assert(lx@ != ly@);
            return false;
        }
        i = i + 1;
    }
    assert(lx@ =~= ly@);
    true
}

/// Whether a filter keeps an item.
pub fn keep(f: &Filter, it: &Item) -> (r: bool)
    ensures
        r == keeps(*f, *it),
{
    if let Some(w) = f.listed {
        if it.listed != w {
            return false;
        }
    }
    if let Some(w) = f.recurs {
        if it.recurs != w {
            return false;
        }
    }
    if let Some(w) = f.done {
        if it.is_done(f.on) != w {
            return false;
        }
    }
    match &f.tag {
        None => true,
        Some(want) => {
            let mut i: usize = 0;
            while i < it.tags.len()
                invariant
                    i <= it.tags.len(),
                    f.tag == Some(*want),
                    f.listed matches Some(w) ==> it.listed == w,
                    f.recurs matches Some(w) ==> it.recurs == w,
                    f.done matches Some(w) ==> it.done(f.on) == w,
                    forall|k: int| 0 <= k < i ==> !same_ignoring_case(#[trigger] it.tags@[k]@, want@),
                decreases it.tags.len() - i,
            {
                if same_case_insensitive(it.tags[i].as_str(), want.as_str()) {
                    assert(same_ignoring_case(it.tags@[i as int]@, want@));
                    return true;
                }
                i = i + 1;
            }
            false
        },
    }
}

/// The items a filter keeps, in their order.
pub open spec fn kept(f: Filter, s: Seq<Item>) -> Seq<Item>
    decreases s.len(),
{
    if s.len() == 0 {
        Seq::empty()
    } else if keeps(f, s.last()) {
        kept(f, s.drop_last()).push(s.last())
    } else {
        kept(f, s.drop_last())
    }
}

/// The items a filter keeps, in their order.
pub fn select(items: Vec<Item>, f: &Filter) -> (r: Vec<Item>)
    ensures
        r@ == kept(*f, items@),
{
    let ghost all = items@;
    let n = items.len();
    let mut rest = items;
    let mut out: Vec<Item> = Vec::new();
    let mut i: usize = 0;
    while rest.len() > 0
        invariant
            n == all.len(),
            i + rest.len() == all.len(),
            rest@ == all.skip(i as int),
            out@ == kept(*f, all.take(i as int)),
        decreases rest.len(),
    {
        let it = rest.remove(0);
        assert(all.take(i + 1).drop_last() =~= all.take(i as int));
        assert(it == all[i as int]);
        if keep(f, &it) {
            out.push(it);
        }
        i = i + 1;
        assert(rest@ =~= all.skip(i as int));
    }
    assert(all.take(i as int) =~= all);
    out
}

/// A title starts with what was typed, ignoring ASCII case; what was typed is trimmed first.
pub open spec fn title_starts(title: Seq<char>, prefix: Seq<char>) -> bool {
    let needle = lower(trim(prefix));
    needle.len() <= title.len() && lower(title).take(needle.len() as int) == needle
}

pub open spec fn prefix_hits(s: Seq<Item>, prefix: Seq<char>) -> Seq<Item>
    decreases s.len(),
{
    if s.len() == 0 {
        Seq::empty()
    } else if title_starts(s.last().title@, prefix) {
        prefix_hits(s.drop_last(), prefix).push(s.last())
    } else {
        prefix_hits(s.drop_last(), prefix)
    }
}

fn starts_with_prefix(title: &str, needle: &Vec<char>) -> (r: bool)
    ensures
        r == (needle@.len() <= title@.len() && lower(title@).take(needle@.len() as int) == needle@),
{
    let t = lower_vec(&chars_of(title));
    if needle.len() > t.len() {
        return false;
    }
    let mut i: usize = 0;
    while i < needle.len()
        invariant
            i <= needle.len(),
            needle.len() <= t.len(),
            t@ == lower(title@),
            forall|k: int| 0 <= k < i ==> t@[k] == needle@[k],
        decreases needle.len() - i,
    {
        if t[i] != needle[i] {
            assert(lower(title@).take(needle@.len() as int)[i as int] != needle@[i as int]);
            return false;
        }
        i = i + 1;
    }
    assert(lower(title@).take(needle@.len() as int) =~= needle@);
    true
}

/// The items whose title starts with `prefix`, case-insensitively, in order:
/// what `done: <text>` picks from, so the whole title need not be typed.
pub fn find_by_prefix(items: Vec<Item>, prefix: &str) -> (r: Vec<Item>)
    ensures
        r@ == prefix_hits(items@, prefix@),
{
    let needle = lower_vec(&trim_chars(&chars_of(prefix)));
    let ghost all = items@;
    let n = items.len();
    let mut rest = items;
    let mut out: Vec<Item> = Vec::new();
    let mut i: usize = 0;
    while rest.len() > 0
        invariant
            n == all.len(),
            i + rest.len() == all.len(),
            rest@ == all.skip(i as int),
            needle@ == lower(trim(prefix@)),
            out@ == prefix_hits(all.take(i as int), prefix@),
        decreases rest.len(),
    {
        let it = rest.remove(0);
        assert(all.take(i + 1).drop_last() =~= all.take(i as int));
        assert(it == all[i as int]);
        if starts_with_prefix(it.title.as_str(), &needle) {
            out.push(it);
        }
        i = i + 1;
        assert(rest@ =~= all.skip(i as int));
    }
    assert(all.take(i as int) =~= all);
    out
}

/// The tags of a stored comma-separated list: trimmed, blanks dropped.
pub open spec fn tag_list(ps: Seq<Seq<char>>) -> Seq<Seq<char>>
    decreases ps.len(),
{
    if ps.len() == 0 {
        Seq::empty()
    } else {
        let rest = tag_list(ps.drop_last());
        let t = trim(ps.last());
        if t.len() > 0 {
            rest.push(t)
        } else {
            rest
        }
    }
}

/// The tags of a stored comma-separated list: trimmed, blanks dropped.
pub fn split_tags(csv: &str) -> (r: Vec<String>)
    ensures
        r@.map_values(|s: String| s@) == tag_list(split_on(csv@, ',')),
{
    let parts = split_chars(&chars_of(csv), ',');
    let ghost ps = split_on(csv@, ',');
    let mut out: Vec<String> = Vec::new();
    let mut i: usize = 0;
    while i < parts.len()
        invariant
            i <= parts.len(),
            parts@.map_values(|v: Vec<char>| v@) == ps,
            out@.map_values(|s: String| s@) == tag_list(ps.take(i as int)),
        decreases parts.len() - i,
    {
        assert(ps.take(i + 1).drop_last() =~= ps.take(i as int));
        assert(ps.take(i + 1).last() == parts@[i as int]@);
        let t = trim_chars(&parts[i]);
        if t.len() > 0 {
            let ghost before = out@.map_values(|s: String| s@);
            let s = string_of(&t);
            out.push(s);
            assert(out@.map_values(|s: String| s@) =~= before.push(t@));
        }
        i = i + 1;
    }
    assert(ps.take(parts.len() as int) =~= ps);
    out
}

/// `join(",")` of a list of tags.
pub open spec fn comma_join(s: Seq<Seq<char>>) -> Seq<char>
    decreases s.len(),
{
    if s.len() == 0 {
        Seq::empty()
    } else if s.len() == 1 {
        s[0]
    } else {
        comma_join(s.drop_last()) + seq![','] + s.last()
    }
}

pub fn join_commas(v: &Vec<String>) -> (r: String)
    ensures
        r@ == comma_join(v@.map_values(|s: String| s@)),
{
    let ghost vs = v@.map_values(|s: String| s@);
    let mut out = String::new();
    let mut i: usize = 0;
    while i < v.len()
        invariant
            i <= v.len(),
            vs == v@.map_values(|s: String| s@),
            out@ == comma_join(vs.take(i as int)),
        decreases v.len() - i,
    {
        assert(vs.take(i + 1).drop_last() =~= vs.take(i as int));
        assert(vs.take(i + 1).last() == v@[i as int]@);
        if i == 0 {
            assert(vs.take(1) =~= seq![vs[0]]);
        }
        proof {
            reveal_strlit(",");
        }
        if i > 0 {
            out.append(",");
        }
        out.append(v[i].as_str());
        i = i + 1;
        assert(out@ =~= comma_join(vs.take(i as int)));
    }
    assert(vs.take(v.len() as int) =~= vs);
    out
}

/// The key a completion is stored under: the occurrence's date, or empty for
/// the item itself.
pub fn completion_key(on: Option<Date>) -> (r: String)
    requires
        on matches Some(d) ==> d.wf(),
    ensures
        r@ == match on {
            Some(d) => ymd_text(d.year, d.month, d.day),
            None => Seq::empty(),
        },
{
    match on {
        Some(d) => date_text(&d),
        None => String::new(),
    }
}

/// A stored instant read back in UTC; an unreadable one reads as the epoch.
pub open spec fn stamp_or_epoch(s: Seq<char>) -> Stamp {
    match rfc3339_read(s) {
        Some((t, n, _)) => Stamp { secs: t, nanos: n, offset: 0 },
        None => Stamp { secs: 0, nanos: 0, offset: 0 },
    }
}

/// A stored instant read back in UTC; an unreadable one reads as the epoch.
pub fn parse_ts(s: &str) -> (r: Stamp)
    ensures
        r == stamp_or_epoch(s@),
        utc_ok(r.secs as int),
{
    match read_stamp(s) {
        Some(st) => Stamp { secs: st.secs, nanos: st.nanos, offset: 0 },
        None => Stamp { secs: 0, nanos: 0, offset: 0 },
    }
}

/// An item read back from its stored row, before its completions are known.
#[verifier::rlimit(40)]
pub fn item_of_row(
    id: String,
    title: String,
    tags: &str,
    category: Option<String>,
    location: Option<String>,
    listed: i64,
    due_at: Option<&str>,
    estimate_min: Option<i64>,
    created_at: &str,
    source: String,
    external_id: Option<String>,
    rules: i64,
) -> (r: Item)
    ensures
        r.id == id,
        r.title == title,
        r.tags@.map_values(|s: String| s@) == tag_list(split_on(tags@, ',')),
        r.category == category,
        r.location == location,
        r.listed == (listed != 0),
        r.due_at == match due_at {
            Some(d) => Some(stamp_or_epoch(d@)),
            None => None,
        },
        r.estimate_min == match estimate_min {
            Some(v) => Some(v as u32),
            None => None,
        },
        r.created_at == stamp_or_epoch(created_at@),
        r.source == source,
        r.external_id == external_id,
        r.recurs == (rules != 0),
        r.done_on@.len() == 0,
        !r.completed,
        r.completed_at is None,
{
    Item {
        id,
        title,
        tags: split_tags(tags),
        category,
        location,
        listed: listed != 0,
        due_at: match due_at {
            Some(d) => Some(parse_ts(d)),
            None => None,
        },
        estimate_min: match estimate_min {
            Some(v) => Some(v as u32),
            None => None,
        },
        recurs: rules != 0,
        done_on: Vec::new(),
        completed: false,
        completed_at: None,
        created_at: parse_ts(created_at),
        source,
        external_id,
    }
}

/// Why a zone cannot be set on a repeat: an unknown name is refused rather
/// than stored, since expansion would quietly show it on system time.
pub open spec fn zone_refusal(tz: Option<Seq<char>>) -> Option<Seq<char>> {
    match tz {
        Some(n) => if tz_known(n) {
            None
        } else {
            Some(debug_text(n) + " is not a known time zone"@)
        },
        None => None,
    }
}

pub fn check_zone(tz: Option<&str>) -> (r: Result<(), String>)
    ensures
        match r {
            Ok(()) => zone_refusal(
                match tz {
                    Some(t) => Some(t@),
                    None => None,
                },
            ) is None,
            Err(e) => zone_refusal(
                match tz {
                    Some(t) => Some(t@),
                    None => None,
                },
            ) == Some(e@),
        },
{
    match tz {
        Some(name) => if zone_known(name) {
            Ok(())
        } else {
            let mut m = quoted(name);
            m.append(" is not a known time zone");
            Err(m)
        },
        None => Ok(()),
    }
}

/// Why a block cannot be stored with these times, if it cannot.
pub open spec fn block_refusal(starts: Seq<char>, ends: Seq<char>) -> Option<Seq<char>> {
    match (rfc3339_read(starts), rfc3339_read(ends)) {
        (Some(s), Some(e)) => if e.0 < s.0 || (e.0 == s.0 && e.1 <= s.1) {
            Some("a block must end after it starts"@)
        } else {
            None
        },
        _ => Some("times must be RFC3339"@),
    }
}

/// Check the two ends of a block before it is stored or moved: both must read
/// as RFC 3339, and it must end after it starts.
pub fn check_block(starts_at: &str, ends_at: &str) -> (r: Result<(), String>)
    ensures
        match r {
            Ok(()) => block_refusal(starts_at@, ends_at@) is None,
            Err(e) => block_refusal(starts_at@, ends_at@) == Some(e@),
        },
{
    match (read_stamp(starts_at), read_stamp(ends_at)) {
        (Some(s), Some(e)) => if e.secs < s.secs || (e.secs == s.secs && e.nanos <= s.nanos) {
            Err(String::from_str("a block must end after it starts"))
        } else {
            Ok(())
        },
        _ => Err(String::from_str("times must be RFC3339")),
    }
}

/// What resolving a wall clock to an instant came to.
#[derive(Clone, Copy, Debug, PartialEq, Eq, Structural)]
pub enum Resolved {
    /// The instant, in seconds since the epoch.
    At(i64),
    /// No instant within three hours after it exists.
    Missing,
    /// The search ran past the last day of the calendar.
    PastEnd,
}

/// The skipped-hour search: minute by minute for three hours, the first wall
/// clock that maps to exactly one instant.
pub open spec fn walk(zone: Seq<char>, d: Date, minute: int, m: int) -> Resolved
    decreases 181 - m,
{
    if m < 1 || m > 180 {
        Resolved::Missing
    } else {
        let total = minute + m;
        let c = if total < 1440 {
            Some(tz_local(zone, d.year, d.month, d.day, total as u32))
        } else {
            match plus(d, 1) {
                Some(d2) => Some(tz_local(zone, d2.year, d2.month, d2.day, (total - 1440) as u32)),
                None => None,
            }
        };
        match c {
            None => Resolved::PastEnd,
            Some(c) => if c.len() == 1 {
                Resolved::At(c[0].0)
            } else {
                walk(zone, d, minute, m + 1)
            },
        }
    }
}

/// A wall clock in a zone as a real instant: the only one, the earlier of two
/// in a repeated hour, or in a skipped hour the first that exists after it.
pub open spec fn resolve(zone: Seq<char>, d: Date, t: Time) -> Resolved {
    let c = tz_local(zone, d.year, d.month, d.day, t.minutes() as u32);
    if c.len() > 0 {
        Resolved::At(c[0].0)
    } else {
        walk(zone, d, t.minutes(), 1)
    }
}

/// Resolve a wall clock in a zone to a real instant.
pub fn local_instant(zone: &Zone, d: &Date, t: Time) -> (r: Resolved)
    requires
        d.wf(),
        t.wf(),
    ensures
        r == resolve(zone@, *d, t),
        r matches Resolved::At(x) ==> utc_ok(x as int),
{
    let name = zone.name();
    let minute = t.hour * 60 + t.minute;
    let c = local_instants(name, d, minute);
    if c.len() > 0 {
        return Resolved::At(c[0].0);
    }
    let mut m: u32 = 1;
    while m <= 180
        invariant
            1 <= m <= 181,
            d.wf(),
            tz_known(name@),
            name@ == zone@,
            minute == t.minutes(),
            minute < 1440,
            resolve(zone@, *d, t) == walk(zone@, *d, minute as int, m as int),
        decreases 181 - m,
    {
        let total = minute + m;
        let c = if total < 1440 {
            local_instants(name, d, total)
        } else {
            match add_days(d, 1) {
                Some(d2) => local_instants(name, &d2, total - 1440),
                None => {
                    return Resolved::PastEnd;
                },
            }
        };
        if c.len() == 1 {
            return Resolved::At(c[0].0);
        }
        m = m + 1;
    }
    Resolved::Missing
}

/// Deadlines land at the end of the day; nobody means midnight.
pub open spec fn default_due() -> Time {
    Time { hour: 23, minute: 59 }
}

/// A repeat given only a point time starts here, for an hour.
pub open spec fn default_start() -> Time {
    Time { hour: 9, minute: 0 }
}

/// A weekday named alone means the next one still to come.
pub open spec fn from_weekday(p: ParsedV) -> bool {
    !p.repeats && p.byday.len() == 1
}

/// When an item is due, as an instant; `None` inside means it has no due time
/// (no date, or a wall clock that does not exist); the outer `None` means the
/// date arithmetic ran past the end of the calendar.
pub open spec fn due_spec(p: ParsedV, zone: Seq<char>, now: Stamp) -> Option<Option<i64>> {
    match p.due {
        None => Some(None),
        Some(d) => {
            let t = match p.at {
                Some(a) => a,
                None => default_due(),
            };
            match resolve(zone, d, t) {
                Resolved::PastEnd => None,
                Resolved::Missing => Some(None),
                Resolved::At(w) => if from_weekday(p) && (Stamp { secs: w, nanos: 0, offset: 0 }).earlier(now) {
                    match plus(d, 7) {
                        None => None,
                        Some(d7) => match resolve(zone, d7, t) {
                            Resolved::PastEnd => None,
                            Resolved::Missing => Some(None),
                            Resolved::At(w2) => Some(Some(w2)),
                        },
                    }
                } else {
                    Some(Some(w))
                },
            }
        },
    }
}

/// A repeat's rule as it is to be stored.
#[derive(Clone, Debug, PartialEq)]
pub struct NewRule {
    /// Weekday codes joined by commas; empty for a monthly repeat.
    pub byday: String,
    pub monthday: Option<u32>,
    pub start_time: String,
    pub end_time: String,
    /// The zone it is fixed to; `None` follows the machine.
    pub tz: Option<String>,
    pub from_date: String,
}

/// An item as it is to be stored, with its rule and its block, if any.
#[derive(Clone, Debug, PartialEq)]
pub struct NewItem {
    pub title: String,
    /// Joined by commas.
    pub tags: String,
    pub category: Option<String>,
    pub location: Option<String>,
    pub listed: bool,
    pub due_at: Option<Stamp>,
    pub estimate_min: Option<u32>,
    pub rule: Option<NewRule>,
    /// An hour on the week for something said to happen "on" a day at a time.
    pub block: Option<(Stamp, Stamp)>,
}

/// An hour later on the clock, wrapping past midnight as a time of day does.
pub open spec fn hour_later(t: Time) -> Time {
    Time { hour: ((t.hour + 1) % 24) as u32, minute: t.minute }
}

/// The window a repeat occupies: its range, or an hour from its time (or 09:00).
pub open spec fn rule_window(p: ParsedV) -> (Time, Time) {
    match p.span {
        Some(ab) => ab,
        None => {
            let a = match p.at {
                Some(a) => a,
                None => default_start(),
            };
            (a, hour_later(a))
        },
    }
}

/// The rule a repeating line makes, if it makes one.
pub open spec fn rule_spec(p: ParsedV, today: Date, zone: Seq<char>) -> Option<
    (Seq<char>, Option<u32>, Seq<char>, Seq<char>, Option<Seq<char>>, Seq<char>),
> {
    if p.repeats && (p.byday.len() > 0 || p.monthday is Some) {
        let (a, b) = rule_window(p);
        let from = match p.repeat_from {
            Some(d) => d,
            None => today,
        };
        Some(
            (
                comma_join(p.byday),
                p.monthday,
                hhmm(a),
                hhmm(b),
                if p.pinned {
                    Some(zone)
                } else {
                    None
                },
                ymd_text(from.year, from.month, from.day),
            ),
        )
    } else {
        None
    }
}

pub open spec fn rule_v(r: NewRule) -> (Seq<char>, Option<u32>, Seq<char>, Seq<char>, Option<Seq<char>>, Seq<char>) {
    (r.byday@, r.monthday, r.start_time@, r.end_time@, opt_str(r.tz), r.from_date@)
}

/// An item from a parsed line: what is stored is what was read. `None` exactly
/// when placing its deadline ran past the end of the calendar.
pub open spec fn plan_spec(p: ParsedV, today: Date, now: Stamp, zone: Seq<char>, r: Option<NewItem>) -> bool {
    match due_spec(p, zone, now) {
        None => r is None,
        Some(due) => match r {
            None => false,
            Some(it) => {
                &&& it.title@ == p.title
                &&& it.tags@ == comma_join(p.tags)
                &&& opt_str(it.category) == p.category
                &&& opt_str(it.location) == p.location
                &&& it.listed == p.listed
                &&& it.due_at == match due {
                    Some(w) => Some(Stamp { secs: w, nanos: 0, offset: 0 }),
                    None => None,
                }
                &&& it.estimate_min == p.estimate_min
                &&& match it.rule {
                    Some(x) => rule_spec(p, today, zone) == Some(rule_v(x)),
                    None => rule_spec(p, today, zone) is None,
                }
                &&& it.block == (if p.scheduled && !p.repeats && due is Some {
                    let w = due.unwrap();
                    Some(
                        (
                            Stamp { secs: w, nanos: 0, offset: 0 },
                            Stamp { secs: (w + 3600) as i64, nanos: 0, offset: 0 },
                        ),
                    )
                } else {
                    None
                })
            },
        },
    }
}

#[verifier::rlimit(40)]
fn due_of(p: &Parsed, zone: &Zone, now: Stamp) -> (r: Option<Option<i64>>)
    requires
        parsed_ok(p@),
    ensures
        r == due_spec(p@, zone@, now),
        r matches Some(Some(w)) ==> utc_ok(w as int),
{
    match p.due {
        None => Some(None),
        Some(d) => {
            let t = match p.at {
                Some(a) => a,
                None => Time { hour: 23, minute: 59 },
            };
            match local_instant(zone, &d, t) {
                Resolved::PastEnd => None,
                Resolved::Missing => Some(None),
                Resolved::At(w) => {
                    let from_weekday = !p.repeats && p.byday.len() == 1;
                    let earlier = w < now.secs || (w == now.secs && 0 < now.nanos);
                    if from_weekday && earlier {
                        match add_days(&d, 7) {
                            None => None,
                            Some(d7) => match local_instant(zone, &d7, t) {
                                Resolved::PastEnd => None,
                                Resolved::Missing => Some(None),
                                Resolved::At(w2) => Some(Some(w2)),
                            },
                        }
                    } else {
                        Some(Some(w))
                    }
                },
            }
        },
    }
}

pub fn clone_opt_string(o: &Option<String>) -> (r: Option<String>)
    ensures
        opt_str(r) == opt_str(*o),
{
    match o {
        Some(s) => Some(s.clone()),
        None => None,
    }
}

fn rule_of(p: &Parsed, today: Date, zone: &Zone) -> (r: Option<NewRule>)
    requires
        parsed_ok(p@),
        today.wf(),
    ensures
        match r {
            Some(x) => rule_spec(p@, today, zone@) == Some(rule_v(x)),
            None => rule_spec(p@, today, zone@) is None,
        },
{
    if !(p.repeats && (p.byday.len() > 0 || p.monthday.is_some())) {
        return None;
    }
    let (a, b) = match p.span {
        Some(ab) => ab,
        None => {
            let a = match p.at {
                Some(a) => a,
                None => Time { hour: 9, minute: 0 },
            };
            (a, Time { hour: (a.hour + 1) % 24, minute: a.minute })
        },
    };
    let from = match p.repeat_from {
        Some(d) => d,
        None => today,
    };
    let tz = if p.pinned {
        Some(zone.name().to_owned())
    } else {
        None
    };
    Some(
        NewRule {
            byday: join_commas(&p.byday),
            monthday: p.monthday,
            start_time: string_of(&hhmm_of(a)),
            end_time: string_of(&hhmm_of(b)),
            tz,
            from_date: date_text(&from),
        },
    )
}

/// Turn a parsed line into the item to store, resolving its deadline in `zone`
/// and fixing any repeat to that zone unless it floats. `None` exactly when
/// placing the deadline ran past the end of the calendar.
#[verifier::rlimit(40)]
pub fn plan(p: &Parsed, today: Date, now: Stamp, zone: &Zone) -> (r: Option<NewItem>)
    requires
        parsed_ok(p@),
        today.wf(),
    ensures
        plan_spec(p@, today, now, zone@, r),
{
    let due = match due_of(p, zone, now) {
        None => {
            return None;
        },
        Some(d) => d,
    };
    let block = if p.scheduled && !p.repeats && due.is_some() {
        let w = due.unwrap();
        Some(
            (
                Stamp { secs: w, nanos: 0, offset: 0 },
                Stamp { secs: w + 3600, nanos: 0, offset: 0 },
            ),
        )
    } else {
        None
    };
    Some(
        NewItem {
            title: p.title.clone(),
            tags: join_commas(&p.tags),
            category: clone_opt_string(&p.category),
            location: clone_opt_string(&p.location),
            listed: p.listed,
            due_at: match due {
                Some(w) => Some(Stamp { secs: w, nanos: 0, offset: 0 }),
                None => None,
            },
            estimate_min: p.estimate_min,
            rule: rule_of(p, today, zone),
            block,
        },
    )
}

/// Read a typed line and decide what to store: never rejects text, since
/// whatever is not read as a detail becomes the title.
pub fn plan_from_text(text: &str, today: Date, now: Stamp, zone: &Zone) -> (r: Option<NewItem>)
    requires
        today.wf(),
    ensures
        plan_spec(parse_view(text@, today), today, now, zone@, r),
{
    let p = parse(text, today);
    plan(&p, today, now, zone)
}

/// A completion as the store keeps it: at most one per item and key, the key
/// being the occurrence's date or empty for the item itself.
#[derive(Clone, Debug, PartialEq)]
pub struct Completion {
    pub item_id: String,
    pub on_date: String,
    pub done_at: String,
}

pub struct CompletionV {
    pub item_id: Seq<char>,
    pub on_date: Seq<char>,
    pub done_at: Seq<char>,
}

impl View for Completion {
    type V = CompletionV;

    open spec fn view(&self) -> CompletionV {
        CompletionV { item_id: self.item_id@, on_date: self.on_date@, done_at: self.done_at@ }
    }
}

pub open spec fn completions_v(rows: Seq<Completion>) -> Seq<CompletionV> {
    rows.map_values(|c: Completion| c@)
}

/// The key a completion is stored under, by value.
pub open spec fn key_of(on: Option<Date>) -> Seq<char> {
    match on {
        Some(d) => ymd_text(d.year, d.month, d.day),
        None => Seq::empty(),
    }
}

/// The first `n` rows, less those of this item under this key.
pub open spec fn rows_without(rows: Seq<CompletionV>, id: Seq<char>, key: Seq<char>, n: nat) -> Seq<CompletionV>
    decreases n,
{
    if n == 0 {
        Seq::empty()
    } else {
        let rest = rows_without(rows, id, key, (n - 1) as nat);
        if rows[n - 1].item_id == id && rows[n - 1].on_date == key {
            rest
        } else {
            rest.push(rows[n - 1])
        }
    }
}

/// The rows after ticking an item (for one occurrence, or itself) on or off:
/// any row under that key goes, and a ticked one comes back stamped `at`.
pub open spec fn ticked_rows(rows: Seq<CompletionV>, id: Seq<char>, key: Seq<char>, done: bool, at: Seq<char>) -> Seq<CompletionV> {
    let kept = rows_without(rows, id, key, rows.len());
    if done {
        kept.push(CompletionV { item_id: id, on_date: key, done_at: at })
    } else {
        kept
    }
}

/// Some row of this item under this key.
pub open spec fn has_row(rows: Seq<CompletionV>, id: Seq<char>, key: Seq<char>) -> bool {
    exists|k: int| 0 <= k < rows.len() && (#[trigger] rows[k]).item_id == id && rows[k].on_date == key
}

/// Tick off one occurrence, or the item itself when `on` is `None`, or clear
/// it. Completions are kept by item and date, so finishing this week's chore
/// does not finish it for good. Says whether a row was written or removed:
/// ticking always writes one; clearing removes one only if it was there.
pub fn set_done(rows: &mut Vec<Completion>, id: &str, done: bool, on: Option<Date>, now: Stamp) -> (changed: bool)
    requires
        on matches Some(d) ==> d.wf(),
        now.wf(),
    ensures
        completions_v(final(rows)@) == ticked_rows(
            completions_v(old(rows)@),
            id@,
            key_of(on),
            done,
            rfc3339_text(now.secs, now.nanos, 0),
        ),
        changed == (done || has_row(completions_v(old(rows)@), id@, key_of(on))),
{
    let key = completion_key(on);
    let want = id.to_owned();
    let ghost all = completions_v(rows@);
    let mut kept: Vec<Completion> = Vec::new();
    let mut found = false;
    let n = rows.len();
    let mut i: usize = 0;
    while rows.len() > 0
        invariant
            n == all.len(),
            i + rows.len() == n,
            completions_v(rows@) == all.skip(i as int),
            completions_v(kept@) == rows_without(all, want@, key@, i as nat),
            want@ == id@,
            key@ == key_of(on),
            found == exists|k: int| 0 <= k < i && (#[trigger] all[k]).item_id == id@ && all[k].on_date == key_of(on),
        decreases rows.len(),
    {
        let ghost before = rows@;
        let c = rows.remove(0);
        assert(rows@ =~= before.skip(1));
        assert(completions_v(rows@) =~= completions_v(before).skip(1));
        assert(completions_v(rows@) =~= all.skip(i + 1));
        assert(c@ == all[i as int]) by {
            assert(completions_v(before)[0] == before[0]@);
        };
        if c.item_id == want && c.on_date == key {
            found = true;
        } else {
            let ghost kv = completions_v(kept@);
            kept.push(c);
            assert(completions_v(kept@) =~= kv.push(all[i as int]));
        }
        i = i + 1;
    }
    if done {
        let ghost kv = completions_v(kept@);
        kept.push(Completion { item_id: want, on_date: key, done_at: stamp_text(&Stamp { secs: now.secs, nanos: now.nanos, offset: 0 }) });
        assert(completions_v(kept@) =~= kv.push(
            CompletionV { item_id: id@, on_date: key_of(on), done_at: rfc3339_text(now.secs, now.nanos, 0) },
        ));
    }
    *rows = kept;
    done || found
}

/// The dates an item was ticked off for, in the order the rows come; keys
/// that do not read as a date (the item's own) are left out.
pub open spec fn done_dates_of(rows: Seq<CompletionV>, id: Seq<char>, n: nat) -> Seq<Date>
    decreases n,
{
    if n == 0 {
        Seq::empty()
    } else {
        let rest = done_dates_of(rows, id, (n - 1) as nat);
        if rows[n - 1].item_id == id {
            match ymd_read(rows[n - 1].on_date) {
                Some((y, m, d)) => rest.push(Date { year: y, month: m, day: d }),
                None => rest,
            }
        } else {
            rest
        }
    }
}

/// The dates an item was ticked off for, in the order the rows come.
pub fn done_dates(rows: &Vec<Completion>, id: &str) -> (r: Vec<Date>)
    ensures
        r@ == done_dates_of(completions_v(rows@), id@, rows.len() as nat),
{
    let ghost all = completions_v(rows@);
    let want = id.to_owned();
    let mut out: Vec<Date> = Vec::new();
    let mut i: usize = 0;
    while i < rows.len()
        invariant
            i <= rows.len(),
            all == completions_v(rows@),
            want@ == id@,
            out@ == done_dates_of(all, id@, i as nat),
        decreases rows.len() - i,
    {
        assert(all[i as int] == rows@[i as int]@);
        if rows[i].item_id == want {
            match read_ymd(rows[i].on_date.as_str()) {
                Some(d) => out.push(d),
                None => {},
            }
        }
        i = i + 1;
    }
    out
}

/// Ticked off at all: some completion row, for an occurrence or the item.
pub fn ticked(rows: &Vec<Completion>, id: &str) -> (r: bool)
    ensures
        r == exists|k: int| 0 <= k < rows.len() && (#[trigger] rows@[k]).item_id@ == id@,
{
    let want = id.to_owned();
    let mut i: usize = 0;
    while i < rows.len()
        invariant
            i <= rows.len(),
            want@ == id@,
            forall|k: int| 0 <= k < i ==> (#[trigger] rows@[k]).item_id@ != id@,
        decreases rows.len() - i,
    {
        if rows[i].item_id == want {
            return true;
        }
        i = i + 1;
    }
    false
}

proof fn lemma_rows_without(rows: Seq<CompletionV>, id: Seq<char>, key: Seq<char>, n: nat, id2: Seq<char>, key2: Seq<char>)
    requires
        n <= rows.len(),
    ensures
        has_row(rows_without(rows, id, key, n), id2, key2) == ((id2 != id || key2 != key) && exists|k: int|
            0 <= k < n && (#[trigger] rows[k]).item_id == id2 && rows[k].on_date == key2),
    decreases n,
{
    if n > 0 {
        let m = (n - 1) as nat;
        lemma_rows_without(rows, id, key, m, id2, key2);
        let rest = rows_without(rows, id, key, m);
        let out = rows_without(rows, id, key, n);
        if has_row(out, id2, key2) {
            let k = choose|k: int| 0 <= k < out.len() && (#[trigger] out[k]).item_id == id2 && out[k].on_date == key2;
            if k < rest.len() {
                assert(out[k] == rest[k]);
                assert(has_row(rest, id2, key2));
            } else {
                assert(out[k] == rows[m as int]);
            }
        }
        if (id2 != id || key2 != key) && exists|k: int| 0 <= k < n && (#[trigger] rows[k]).item_id == id2 && rows[k].on_date == key2 {
            let k = choose|k: int| 0 <= k < n && (#[trigger] rows[k]).item_id == id2 && rows[k].on_date == key2;
            if k < m {
                let j = choose|j: int| 0 <= j < rest.len() && (#[trigger] rest[j]).item_id == id2 && rest[j].on_date == key2;
                assert(out[j] == rest[j]);
            } else {
                assert(out[rest.len() as int] == rows[m as int]);
            }
        }
    }
}

/// Ticking is kept per item and occurrence: ticking an item for one key (a
/// date, or the item itself) on or off sets that key as asked and leaves every
/// other key, of this item or any other, as it was.
pub proof fn law_ticking_one_occurrence_leaves_the_others(
    rows: Seq<CompletionV>,
    id: Seq<char>,
    key: Seq<char>,
    done: bool,
    at: Seq<char>,
    other_id: Seq<char>,
    other_key: Seq<char>,
)
    ensures
        has_row(ticked_rows(rows, id, key, done, at), id, key) == done,
        (other_id != id || other_key != key) ==> has_row(ticked_rows(rows, id, key, done, at), other_id, other_key)
            == has_row(rows, other_id, other_key),
{
    lemma_rows_without(rows, id, key, rows.len() as nat, id, key);
    lemma_rows_without(rows, id, key, rows.len() as nat, other_id, other_key);
    let kept = rows_without(rows, id, key, rows.len() as nat);
    let out = ticked_rows(rows, id, key, done, at);
    if done {
        assert(out[kept.len() as int].item_id == id);
        if has_row(out, other_id, other_key) && (other_id != id || other_key != key) {
            let k = choose|k: int| 0 <= k < out.len() && (#[trigger] out[k]).item_id == other_id && out[k].on_date == other_key;
            assert(k < kept.len());
            assert(out[k] == kept[k]);
        }
        if has_row(kept, other_id, other_key) {
            let k = choose|k: int| 0 <= k < kept.len() && (#[trigger] kept[k]).item_id == other_id && kept[k].on_date == other_key;
            assert(out[k] == kept[k]);
        }
    }
}

/// When the item itself (not one occurrence) was ticked off: the stamp of its
/// row under the empty key, read back in UTC, if there is one.
pub fn completed_at(rows: &Vec<Completion>, id: &str) -> (r: Option<Stamp>)
    ensures
        match r {
            Some(t) => exists|k: int|
                0 <= k < rows.len() && (#[trigger] rows@[k]).item_id@ == id@ && rows@[k].on_date@.len() == 0
                    && t == stamp_or_epoch(rows@[k].done_at@),
            None => forall|k: int|
                0 <= k < rows.len() ==> !((#[trigger] rows@[k]).item_id@ == id@ && rows@[k].on_date@.len() == 0),
        },
{
    let want = id.to_owned();
    let mut i: usize = 0;
    while i < rows.len()
        invariant
            i <= rows.len(),
            want@ == id@,
            forall|k: int| 0 <= k < i ==> !((#[trigger] rows@[k]).item_id@ == id@ && rows@[k].on_date@.len() == 0),
        decreases rows.len() - i,
    {
        if rows[i].item_id == want && rows[i].on_date.unicode_len() == 0 {
            return Some(parse_ts(rows[i].done_at.as_str()));
        }
        i = i + 1;
    }
    None
}

/// Due by the end of `today` read in UTC, 23:59:59: what `sched list --today`
/// keeps, overdue items included. An instant with a fraction of a second is
/// past a whole second, so it is taken at the next one.
pub open spec fn due_by_end_of(it: Item, today: Date) -> bool {
    match it.due_at {
        None => false,
        Some(d) => {
            let s = d.secs + if d.nanos > 0 {
                1int
            } else {
                0int
            };
            &&& utc_ok(s)
            &&& match crate::expand::local_day(Stamp { secs: s as i64, nanos: 0, offset: 0 }) {
                Some(x) => x.le(today),
                None => false,
            }
        },
    }
}

/// The items due by the end of today (UTC), overdue ones included, in order.
pub fn due_today(items: Vec<Item>, today: Date) -> (r: Vec<Item>)
    ensures
        r@ == items@.filter(|it: Item| due_by_end_of(it, today)),
{
    let ghost all = items@;
    let n = items.len();
    let mut rest = items;
    let mut out: Vec<Item> = Vec::new();
    let mut i: usize = 0;
    while rest.len() > 0
        invariant
            n == all.len(),
            i + rest.len() == n,
            rest@ == all.skip(i as int),
            out@ == all.take(i as int).filter(|it: Item| due_by_end_of(it, today)),
        decreases rest.len(),
    {
        let it = rest.remove(0);
        assert(rest@ =~= all.skip(i + 1));
        assert(it == all[i as int]);
        assert(all.take(i + 1).drop_last() =~= all.take(i as int));
        reveal(Seq::filter);
        let keep = match it.due_at {
            None => false,
            Some(d) => {
                let bump: i64 = if d.nanos > 0 { 1 } else { 0 };
                if d.secs < crate::zone::UTC_MIN_SECS - bump || d.secs > crate::zone::UTC_MAX_SECS - bump {
                    false
                } else {
                    match crate::expand::local_day_of(&Stamp { secs: d.secs + bump, nanos: 0, offset: 0 }) {
                        Some(x) => {
                            let k = !today.before(&x);
                            assert(k == x.le(today));
                            k
                        },
                        None => false,
                    }
                }
            },
        };
        assert(keep == due_by_end_of(it, today));
        if keep {
            out.push(it);
        }
        i = i + 1;
    }
    assert(all.take(n as int) =~= all);
    out
}

/// Which occurrence a tick is for: the date asked for; else, for a repeat,
/// today's, since a repeat is never ticked off for good; a one-off is ticked
/// for itself.
pub fn occurrence_for(recurs: bool, asked: Option<Date>, today: Date) -> (r: Option<Date>)
    ensures
        r == match asked {
            Some(d) => Some(d),
            None => if recurs {
                Some(today)
            } else {
                None
            },
        },
{
    match asked {
        Some(d) => Some(d),
        None => if recurs {
            Some(today)
        } else {
            None
        },
    }
}


/// A typed line is never refused: one with no date is always stored, title as
/// read, and one with a date is refused only when resolving that date runs
/// past the last day of the calendar.
pub proof fn law_capture_is_never_refused(input: Seq<char>, today: Date, now: Stamp, zone: Seq<char>, r: Option<NewItem>)
    requires
        plan_spec(parse_view(input, today), today, now, zone, r),
    ensures
        parse_view(input, today).due is None ==> r is Some,
        r matches Some(it) ==> it.title@ == parse_view(input, today).title,
        r is None ==> parse_view(input, today).due is Some && due_spec(parse_view(input, today), zone, now) is None,
{
}


/// The title begins with the typed text, letter for letter and ignoring ASCII
/// case: each of the trimmed text's characters, lower-cased, is the title's
/// character at the same place, lower-cased.
pub open spec fn begins_with(title: Seq<char>, typed: Seq<char>) -> bool {
    let needle = trim(typed);
    &&& needle.len() <= title.len()
    &&& forall|i: int| 0 <= i < needle.len() ==> lower_char(#[trigger] title[i]) == lower_char(needle[i])
}

/// Ticking off by title finds exactly the items whose title begins with what
/// was typed (not merely contains it), in their order.
pub proof fn law_prefix_means_the_start(items: Seq<Item>, prefix: Seq<char>)
    ensures
        prefix_hits(items, prefix) == items.filter(|it: Item| begins_with(it.title@, prefix)),
    decreases items.len(),
{
    reveal(Seq::filter);
    if items.len() > 0 {
        law_prefix_means_the_start(items.drop_last(), prefix);
        let t = items.last().title@;
        let needle = lower(trim(prefix));
        if needle.len() <= t.len() {
            if title_starts(t, prefix) {
                assert forall|i: int| 0 <= i < trim(prefix).len() implies lower_char(#[trigger] t[i]) == lower_char(
                    trim(prefix)[i],
                ) by {
                    assert(lower(t).take(needle.len() as int)[i] == needle[i]);
                }
            }
            if begins_with(t, prefix) {
                assert(lower(t).take(needle.len() as int) =~= needle);
            }
        }
    }
}

} // verus!
