//! The capture grammar: one line of text in, the details it names out.
//!
//! Details are read from the end of the line, right to left, and reading stops
//! at the first word that is not one; everything before it is the title. So a
//! line never fails to parse, no word is ever dropped, and prose that merely
//! contains a date-shaped word is left alone.
use vstd::prelude::*;
use crate::calendar::{Date, Time, valid_ymd, date_from_ymd, weekday, weekday_num, plus, add_days, MAX_YEAR};
use crate::grammar::{
    Token, recognise, recognise_word, time_of, time_from, span_of, span_from, day_word,
    day_word_of, year_word, year_word_of, tok_ok, lemma_time_of_wf, lemma_recognise_ok,
    lemma_recognise_no_filler,
};
use crate::text::{
    lower, lower_vec, join, join_words, words, split_words, chars_of, string_of, string_from,
    strings_of, same_chars, opt_str, slice_of, is_ws, is_whitespace, lead_ws, lemma_lead_ws, lead_count, lemma_lead_count, plain_word, lemma_words_join, lemma_words_are_words, lemma_join_front, lemma_lead_count_run,
};
use crate::words::{
    meridiem, meridiem_of, month_index, month_index_of, filler_kind, filler_kind_of,
    category_index, category_index_of, clock_word, clock_word_of,
};

verus! {

/// What reading a line turned up.
#[derive(Clone, Debug, PartialEq)]
pub struct Parsed {
    pub title: String,
    /// The words read as details, in the order they were typed.
    pub consumed: Vec<String>,
    pub estimate_min: Option<u32>,
    pub at: Option<Time>,
    /// Weekday codes, Monday first.
    pub byday: Vec<String>,
    pub due: Option<Date>,
    /// Stated by a keyword (`every`, `daily`, `monthly`, a plural weekday) or by
    /// naming several weekdays; never inferred otherwise.
    pub repeats: bool,
    /// Day of the month a monthly repeat falls on.
    pub monthday: Option<u32>,
    /// The date a monthly repeat was given, if one was.
    pub repeat_from: Option<Date>,
    pub span: Option<(Time, Time)>,
    /// Belongs in the to-do list.
    pub listed: bool,
    /// Takes a block of time on the week.
    pub scheduled: bool,
    pub tags: Vec<String>,
    /// The one tag that is also a colour category, if any.
    pub category: Option<String>,
    pub location: Option<String>,
    pub priority: bool,
    /// Fixed to the zone it was created in; false means it follows the machine.
    pub pinned: bool,
}

/// The mathematical reading of a line.
pub struct ParsedV {
    pub title: Seq<char>,
    pub consumed: Seq<Seq<char>>,
    pub estimate_min: Option<u32>,
    pub at: Option<Time>,
    pub byday: Seq<Seq<char>>,
    pub due: Option<Date>,
    pub repeats: bool,
    pub monthday: Option<u32>,
    pub repeat_from: Option<Date>,
    pub span: Option<(Time, Time)>,
    pub listed: bool,
    pub scheduled: bool,
    pub tags: Seq<Seq<char>>,
    pub category: Option<Seq<char>>,
    pub location: Option<Seq<char>>,
    pub priority: bool,
    pub pinned: bool,
}

impl View for Parsed {
    type V = ParsedV;

    open spec fn view(&self) -> ParsedV {
        ParsedV {
            title: self.title@,
            consumed: self.consumed@.map_values(|s: String| s@),
            estimate_min: self.estimate_min,
            at: self.at,
            byday: self.byday@.map_values(|s: String| s@),
            due: self.due,
            repeats: self.repeats,
            monthday: self.monthday,
            repeat_from: self.repeat_from,
            span: self.span,
            listed: self.listed,
            scheduled: self.scheduled,
            tags: self.tags@.map_values(|s: String| s@),
            category: opt_str(self.category),
            location: opt_str(self.location),
            priority: self.priority,
            pinned: self.pinned,
        }
    }
}

// ---- the state of a right-to-left read -----------------------------------

pub struct ScanV {
    pub estimate: Option<u32>,
    pub at: Option<Time>,
    /// Weekdays named so far, as a set of bits.
    pub days: u32,
    pub due: Option<Date>,
    pub repeats: bool,
    pub monthly: bool,
    pub span: Option<(Time, Time)>,
    /// Tags in the order first met reading leftwards.
    pub tags: Seq<Seq<char>>,
    pub pinned: bool,
    pub due_kw: bool,
    pub on_kw: bool,
}

pub struct Scan {
    pub estimate: Option<u32>,
    pub at: Option<Time>,
    pub days: u32,
    pub due: Option<Date>,
    pub repeats: bool,
    pub monthly: bool,
    pub span: Option<(Time, Time)>,
    pub tags: Vec<Vec<char>>,
    pub pinned: bool,
    pub due_kw: bool,
    pub on_kw: bool,
}

impl View for Scan {
    type V = ScanV;

    open spec fn view(&self) -> ScanV {
        ScanV {
            estimate: self.estimate,
            at: self.at,
            days: self.days,
            due: self.due,
            repeats: self.repeats,
            monthly: self.monthly,
            span: self.span,
            tags: self.tags@.map_values(|w: Vec<char>| w@),
            pinned: self.pinned,
            due_kw: self.due_kw,
            on_kw: self.on_kw,
        }
    }
}

pub open spec fn start_state() -> ScanV {
    ScanV {
        estimate: None,
        at: None,
        days: 0,
        due: None,
        repeats: false,
        monthly: false,
        span: None,
        tags: Seq::empty(),
        pinned: true,
        due_kw: false,
        on_kw: false,
    }
}

/// The first date with this day and month on or after `today`.
pub open spec fn next_day_month(today: Date, day: u32, month: u32) -> Option<Date> {
    let this_year = Date { year: today.year, month, day };
    let next_year = Date { year: (today.year + 1) as i32, month, day };
    if valid_ymd(today.year as int, month as int, day as int) && today.le(this_year) {
        Some(this_year)
    } else if valid_ymd(today.year + 1, month as int, day as int) && today.le(next_year) {
        Some(next_year)
    } else {
        None
    }
}

/// The first date on or after `today` that falls on weekday `i`.
pub open spec fn next_weekday(today: Date, i: u32) -> Option<Date> {
    plus(today, ((i - weekday(today)) % 7) as i64)
}

/// What one detail does to what has been read so far. Reading right to left, a
/// repeated detail of one kind leaves the leftmost value in place.
pub open spec fn apply(st: ScanV, tok: Token, raw: Seq<char>, today: Date) -> ScanV {
    match tok {
        Token::Days(m) => ScanV { days: st.days | m, ..st },
        Token::Plural(m) => ScanV { days: st.days | m, repeats: true, ..st },
        Token::Time(t) => ScanV { at: Some(t), ..st },
        Token::Span(a, b) => ScanV { span: Some((a, b)), ..st },
        Token::Estimate(m) => ScanV { estimate: Some(m), ..st },
        Token::Relative(k) => ScanV {
            due: if k == 0 { Some(today) } else { plus(today, 1) },
            ..st
        },
        Token::Date(d) => ScanV { due: Some(d), ..st },
        Token::DayMonth(d, m) => ScanV { due: next_day_month(today, d, m), ..st },
        Token::Every => ScanV { repeats: true, ..st },
        Token::Daily => ScanV { repeats: true, days: st.days | 0x7f, ..st },
        Token::Monthly => ScanV { repeats: true, monthly: true, ..st },
        Token::Tag => {
            let t = lower(raw.subrange(if raw.len() >= 1 { 1 } else { 0 }, raw.len() as int));
            if st.tags.contains(t) {
                st
            } else {
                ScanV { tags: st.tags.push(t), ..st }
            }
        },
        Token::Zone(p) => ScanV { pinned: p, ..st },
        Token::Filler(k) => if k == 1 {
            ScanV { due_kw: true, ..st }
        } else if k == 2 {
            ScanV { on_kw: true, ..st }
        } else {
            st
        },
    }
}

/// The detail that ends the first `end` words, and how many words it takes.
/// A filler word counts only once something to its right has been read.
#[verifier::opaque]
pub open spec fn step(ws: Seq<Seq<char>>, end: int, today: Date) -> Option<(int, Token)> {
    if end <= 0 || end > ws.len() {
        None
    } else {
        let w1 = lower(ws[end - 1]);
        let w2 = if end >= 2 { lower(ws[end - 2]) } else { Seq::<char>::empty() };
        let w3 = if end >= 3 { lower(ws[end - 3]) } else { Seq::<char>::empty() };
        if end >= 2 && meridiem(w1) is Some && time_of(w2 + w1) is Some {
            Some((2, Token::Time(time_of(w2 + w1)->0)))
        } else if end >= 3 && year_word(w1) is Some && day_word(w2) is Some && month_index(w3) is Some
            && valid_ymd(year_word(w1)->0 as int, month_index(w3)->0 as int, day_word(w2)->0 as int) {
            Some(
                (
                    3,
                    Token::Date(
                        Date {
                            year: year_word(w1)->0 as i32,
                            month: month_index(w3)->0,
                            day: day_word(w2)->0,
                        },
                    ),
                ),
            )
        } else if end >= 3 && year_word(w1) is Some && month_index(w2) is Some && day_word(w3) is Some
            && valid_ymd(year_word(w1)->0 as int, month_index(w2)->0 as int, day_word(w3)->0 as int) {
            Some(
                (
                    3,
                    Token::Date(
                        Date {
                            year: year_word(w1)->0 as i32,
                            month: month_index(w2)->0,
                            day: day_word(w3)->0,
                        },
                    ),
                ),
            )
        } else if end >= 2 && day_word(w1) is Some && month_index(w2) is Some {
            Some((2, Token::DayMonth(day_word(w1)->0, month_index(w2)->0)))
        } else if end >= 2 && month_index(w1) is Some && day_word(w2) is Some {
            Some((2, Token::DayMonth(day_word(w2)->0, month_index(w1)->0)))
        } else if recognise(ws[end - 1]) is Some {
            Some((1, recognise(ws[end - 1])->0))
        } else if end < ws.len() && filler_kind(w1) is Some {
            Some((1, Token::Filler(filler_kind(w1)->0)))
        } else {
            None
        }
    }
}

/// Read details leftwards from `end` until a word is not one: where reading
/// stopped, and what it found.
pub open spec fn scan(ws: Seq<Seq<char>>, end: int, st: ScanV, today: Date) -> (int, ScanV)
    decreases end,
{
    if end <= 0 || end > ws.len() {
        (end, st)
    } else {
        match step(ws, end, today) {
            None => (end, st),
            Some((n, tok)) => if 1 <= n <= end {
                scan(ws, end - n, apply(st, tok, ws[end - 1], today), today)
            } else {
                (end, st)
            },
        }
    }
}

// ---- the location, read before anything else ------------------------------

/// A word a place does not run past: a tag, or a time.
pub open spec fn place_stop(w: Seq<char>) -> bool {
    ||| w.len() > 0 && w[0] == '#'
    ||| time_of(lower(w)) is Some
    ||| span_of(lower(w)) is Some
    ||| clock_word(lower(w)) is Some
}

/// `@place`, or a bare `@` with a word after it. An `@` inside a word is not one.
pub open spec fn is_marker(ws: Seq<Seq<char>>, i: int) -> bool {
    ||| ws[i].len() > 1 && ws[i][0] == '@'
    ||| ws[i] == seq!['@'] && i + 1 < ws.len()
}

pub open spec fn first_marker(ws: Seq<Seq<char>>, i: int) -> int
    decreases ws.len() - i,
{
    if i >= ws.len() {
        ws.len() as int
    } else if is_marker(ws, i) {
        i
    } else {
        first_marker(ws, i + 1)
    }
}

pub open spec fn first_stop(ws: Seq<Seq<char>>, i: int) -> int
    decreases ws.len() - i,
{
    if i >= ws.len() {
        ws.len() as int
    } else if place_stop(ws[i]) {
        i
    } else {
        first_stop(ws, i + 1)
    }
}

/// Take a `@place` out of the words: it runs over spaces until a tag or a time.
pub open spec fn split_location(ws: Seq<Seq<char>>) -> (Seq<Seq<char>>, Option<Seq<char>>) {
    let at = first_marker(ws, 0);
    if at >= ws.len() {
        (ws, None)
    } else {
        let first = if ws[at].len() > 1 { ws[at].drop_first() } else { ws[at + 1] };
        let rest = if ws[at].len() > 1 { at + 1 } else { at + 2 };
        let stop = first_stop(ws, rest);
        (
            ws.subrange(0, at) + ws.subrange(stop, ws.len() as int),
            Some(join(seq![first] + ws.subrange(rest, stop))),
        )
    }
}

// ---- putting the reading together ----------------------------------------

/// A title with its leading `!` marks and the space after them removed.
pub open spec fn strip_bang(t: Seq<char>) -> Seq<char> {
    let a = t.skip(lead_count(t, '!') as int);
    a.skip(lead_ws(a) as int)
}

pub open spec fn has_day(mask: u32, i: int) -> bool {
    (mask >> (i as u32)) & 1u32 == 1u32
}

pub open spec fn day_code(i: int) -> Seq<char> {
    if i == 0 {
        seq!['m', 'o', 'n']
    } else if i == 1 {
        seq!['t', 'u', 'e']
    } else if i == 2 {
        seq!['w', 'e', 'd']
    } else if i == 3 {
        seq!['t', 'h', 'u']
    } else if i == 4 {
        seq!['f', 'r', 'i']
    } else if i == 5 {
        seq!['s', 'a', 't']
    } else {
        seq!['s', 'u', 'n']
    }
}

/// Codes of the weekdays in a set, Monday first, among the first `n` days.
pub open spec fn codes(mask: u32, n: int) -> Seq<Seq<char>>
    decreases n,
{
    if n <= 0 {
        Seq::empty()
    } else {
        codes(mask, n - 1) + if has_day(mask, n - 1) {
            seq![day_code(n - 1)]
        } else {
            Seq::empty()
        }
    }
}

pub open spec fn first_day(mask: u32, i: int) -> u32
    decreases 7 - i,
{
    if i >= 7 {
        7
    } else if has_day(mask, i) {
        i as u32
    } else {
        first_day(mask, i + 1)
    }
}

pub open spec fn first_category(tags: Seq<Seq<char>>) -> Option<Seq<char>>
    decreases tags.len(),
{
    if tags.len() == 0 {
        None
    } else if category_index(tags[0]) is Some {
        Some(tags[0])
    } else {
        first_category(tags.drop_first())
    }
}

pub open spec fn finish(
    head: Seq<Seq<char>>,
    location: Option<Seq<char>>,
    end: int,
    st: ScanV,
    today: Date,
) -> ParsedV {
    let title0 = join(head.subrange(0, end));
    let stripped = strip_bang(title0);
    let priority = title0.len() >= 2 && title0[0] == '!' && title0[1] == '!' && stripped.len() > 0;
    let mask = if st.monthly { 0u32 } else { st.days };
    let byday = codes(mask, 7);
    let repeats = st.repeats || byday.len() > 1;
    let due = if repeats {
        None
    } else if st.due is None && byday.len() == 1 {
        next_weekday(today, first_day(mask, 0))
    } else {
        st.due
    };
    let tags = st.tags.reverse();
    ParsedV {
        title: if priority { stripped } else { title0 },
        consumed: head.subrange(end, head.len() as int),
        estimate_min: st.estimate,
        at: st.at,
        byday,
        due,
        repeats,
        monthday: if !st.monthly {
            None
        } else {
            match st.due {
                Some(d) => Some(d.day),
                None => Some(today.day),
            }
        },
        repeat_from: if st.monthly { st.due } else { None },
        span: st.span,
        listed: if st.due_kw || st.on_kw { true } else { st.span is None },
        scheduled: if st.due_kw {
            false
        } else if st.on_kw {
            st.at is Some || st.span is Some
        } else {
            st.span is Some
        },
        tags,
        category: first_category(tags),
        location,
        priority,
        pinned: st.pinned,
    }
}

/// What a line means, read against `today`.
#[verifier::opaque]
pub open spec fn parse_view(input: Seq<char>, today: Date) -> ParsedV {
    let (head, location) = split_location(words(input));
    let (end, st) = scan(head, head.len() as int, start_state(), today);
    finish(head, location, end, st, today)
}


// ---- reading, executably ---------------------------------------------------

pub fn next_day_month_from(today: &Date, day: u32, month: u32) -> (r: Option<Date>)
    requires
        today.wf(),
    ensures
        r == next_day_month(*today, day, month),
{
    if let Some(d) = date_from_ymd(today.year, month, day) {
        if !d.before(today) {
            return Some(d);
        }
    }
    if let Some(d) = date_from_ymd(today.year + 1, month, day) {
        if !d.before(today) {
            return Some(d);
        }
    }
    None
}

pub fn concat(a: &Vec<char>, b: &Vec<char>) -> (r: Vec<char>)
    ensures
        r@ == a@ + b@,
{
    let mut out = slice_of(a, 0, a.len());
    assert(out@ =~= a@);
    let mut i: usize = 0;
    while i < b.len()
        invariant
            i <= b.len(),
            out@ == a@ + b@.subrange(0, i as int),
        decreases b.len() - i,
    {
        out.push(b[i]);
        i = i + 1;
        assert(a@ + b@.subrange(0, i as int) =~= (a@ + b@.subrange(0, i - 1)).push(b@[i - 1]));
    }
    assert(b@.subrange(0, b.len() as int) =~= b@);
    out
}

fn add_tag(tags: &mut Vec<Vec<char>>, t: Vec<char>)
    ensures
        ({
            let before = old(tags)@.map_values(|w: Vec<char>| w@);
            final(tags)@.map_values(|w: Vec<char>| w@) == if before.contains(t@) {
                before
            } else {
                before.push(t@)
            }
        }),
{
    let ghost before = tags@.map_values(|w: Vec<char>| w@);
    let mut i: usize = 0;
    while i < tags.len()
        invariant
            i <= tags.len(),
            before == tags@.map_values(|w: Vec<char>| w@),
            forall|j: int| 0 <= j < i ==> before[j] != t@,
        decreases tags.len() - i,
    {
        assert(before[i as int] == tags@[i as int]@);
        if same_chars(&tags[i], &t) {
            assert(before.contains(t@));
            return;
        }
        i = i + 1;
    }
    assert(!before.contains(t@));
    let ghost tv = t@;
    tags.push(t);
    assert(tags@.map_values(|w: Vec<char>| w@) =~= before.push(tv));
}

pub fn apply_token(st: &mut Scan, tok: Token, raw: &Vec<char>, today: &Date)
    requires
        today.wf(),
        tok_ok(tok),
        scan_ok(old(st)@),
    ensures
        final(st)@ == apply(old(st)@, tok, raw@, *today),
        scan_ok(final(st)@),
{
    match tok {
        Token::Days(m) => {
            st.days = st.days | m;
        },
        Token::Plural(m) => {
            st.days = st.days | m;
            st.repeats = true;
        },
        Token::Time(t) => {
            st.at = Some(t);
        },
        Token::Span(a, b) => {
            st.span = Some((a, b));
        },
        Token::Estimate(m) => {
            st.estimate = Some(m);
        },
        Token::Relative(k) => {
            st.due = if k == 0 { Some(*today) } else { add_days(today, 1) };
        },
        Token::Date(d) => {
            st.due = Some(d);
        },
        Token::DayMonth(d, m) => {
            st.due = next_day_month_from(today, d, m);
        },
        Token::Every => {
            st.repeats = true;
        },
        Token::Daily => {
            st.repeats = true;
            st.days = st.days | 0x7f;
        },
        Token::Monthly => {
            st.repeats = true;
            st.monthly = true;
        },
        Token::Tag => {
            let from: usize = if raw.len() >= 1 { 1 } else { 0 };
            let body = slice_of(raw, from, raw.len());
            let t = lower_vec(&body);
            add_tag(&mut st.tags, t);
        },
        Token::Zone(p) => {
            st.pinned = p;
        },
        Token::Filler(k) => {
            if k == 1 {
                st.due_kw = true;
            } else if k == 2 {
                st.on_kw = true;
            }
        },
    }
}

#[verifier::rlimit(40)]
pub fn step_at(ws: &Vec<Vec<char>>, end: usize, today: &Date) -> (r: Option<(usize, Token)>)
    requires
        today.wf(),
        end <= ws.len(),
    ensures
        ({
            let sv = step(ws@.map_values(|w: Vec<char>| w@), end as int, *today);
            match r {
                Some((n, tok)) => sv == Some((n as int, tok)) && 1 <= n <= end,
                None => sv is None,
            }
        }),
{
    reveal(step);
    let ghost wv = ws@.map_values(|w: Vec<char>| w@);
    if end == 0 {
        return None;
    }
    assert(wv[end - 1] == ws@[end - 1]@);
    let w1 = lower_vec(&ws[end - 1]);
    let empty: Vec<char> = Vec::new();
    let w2 = if end >= 2 {
        assert(wv[end - 2] == ws@[end - 2]@);
        lower_vec(&ws[end - 2])
    } else {
        slice_of(&empty, 0, 0)
    };
    let w3 = if end >= 3 {
        assert(wv[end - 3] == ws@[end - 3]@);
        lower_vec(&ws[end - 3])
    } else {
        slice_of(&empty, 0, 0)
    };
    assert(w2@ == (if end >= 2 { lower(wv[end - 2]) } else { Seq::<char>::empty() }));
    assert(w3@ == (if end >= 3 { lower(wv[end - 3]) } else { Seq::<char>::empty() }));
    if end >= 2 && meridiem_of(&w1).is_some() {
        let joined = concat(&w2, &w1);
        if let Some(t) = time_from(&joined) {
            return Some((2, Token::Time(t)));
        }
    }
    let y1 = year_word_of(&w1);
    let d1 = day_word_of(&w1);
    let m1 = month_index_of(&w1);
    let d2 = day_word_of(&w2);
    let m2 = month_index_of(&w2);
    let d3 = day_word_of(&w3);
    let m3 = month_index_of(&w3);
    if end >= 3 {
        if let (Some(y), Some(d), Some(m)) = (y1, d2, m3) {
            if let Some(date) = date_from_ymd(y as i32, m, d) {
                return Some((3, Token::Date(date)));
            }
        }
        if let (Some(y), Some(m), Some(d)) = (y1, m2, d3) {
            if let Some(date) = date_from_ymd(y as i32, m, d) {
                return Some((3, Token::Date(date)));
            }
        }
    }
    if end >= 2 {
        if let (Some(d), Some(m)) = (d1, m2) {
            return Some((2, Token::DayMonth(d, m)));
        }
        if let (Some(m), Some(d)) = (m1, d2) {
            return Some((2, Token::DayMonth(d, m)));
        }
    }
    if let Some(tok) = recognise_word(&ws[end - 1]) {
        return Some((1, tok));
    }
    if end < ws.len() {
        if let Some(k) = filler_kind_of(&w1) {
            return Some((1, Token::Filler(k)));
        }
    }
    None
}

pub fn place_stop_word(w: &Vec<char>) -> (r: bool)
    ensures
        r == place_stop(w@),
{
    if w.len() > 0 && w[0] == '#' {
        return true;
    }
    let t = lower_vec(w);
    time_from(&t).is_some() || span_from(&t).is_some() || clock_word_of(&t).is_some()
}

pub proof fn lemma_first_marker(ws: Seq<Seq<char>>, i: int)
    requires
        0 <= i <= ws.len(),
    ensures
        i <= first_marker(ws, i) <= ws.len(),
        first_marker(ws, i) < ws.len() ==> is_marker(ws, first_marker(ws, i)),
    decreases ws.len() - i,
{
    if i < ws.len() && !is_marker(ws, i) {
        lemma_first_marker(ws, i + 1);
    }
}

pub proof fn lemma_first_stop(ws: Seq<Seq<char>>, i: int)
    requires
        0 <= i <= ws.len(),
    ensures
        i <= first_stop(ws, i) <= ws.len(),
    decreases ws.len() - i,
{
    if i < ws.len() && !place_stop(ws[i]) {
        lemma_first_stop(ws, i + 1);
    }
}

/// Take the `@place` out of a line's words.
pub fn split_location_of(ws: Vec<Vec<char>>) -> (r: (Vec<Vec<char>>, Option<String>))
    ensures
        ({
            let (h, l) = split_location(ws@.map_values(|w: Vec<char>| w@));
            r.0@.map_values(|w: Vec<char>| w@) == h && opt_str(r.1) == l
        }),
{
    let ghost wv = ws@.map_values(|w: Vec<char>| w@);
    let n = ws.len();
    let mut at: usize = 0;
    while at < n
        invariant
            at <= n == ws.len(),
            wv == ws@.map_values(|w: Vec<char>| w@),
            first_marker(wv, 0) == first_marker(wv, at as int),
        ensures
            at <= n,
            first_marker(wv, 0) == first_marker(wv, at as int),
            at < n ==> is_marker(wv, at as int),
        decreases n - at,
    {
        assert(wv[at as int] == ws@[at as int]@);
        let w = &ws[at];
        let marker = (w.len() > 1 && w[0] == '@') || (w.len() == 1 && w[0] == '@' && at + 1 < n);
        proof {
            if w.len() == 1 && w@[0] == '@' {
                assert(w@ =~= seq!['@']);
            }
        }
        if marker {
            break;
        }
        at = at + 1;
    }
    if at >= n {
        return (ws, None);
    }
    assert(first_marker(wv, 0) == at as int);
    assert(wv[at as int] == ws@[at as int]@);
    let (first, rest): (Vec<char>, usize) = if ws[at].len() > 1 {
        let f = slice_of(&ws[at], 1, ws[at].len());
        assert(f@ =~= wv[at as int].drop_first());
        (f, at + 1)
    } else {
        assert(wv[at + 1] == ws@[at + 1]@);
        (slice_of(&ws[at + 1], 0, ws[at + 1].len()), at + 2)
    };
    assert(ws@[at + 1]@.subrange(0, ws@[at + 1]@.len() as int) =~= ws@[at + 1]@);
    let mut stop: usize = rest;
    proof { lemma_first_stop(wv, rest as int); }
    while stop < n
        invariant
            rest <= stop <= n == ws.len(),
            wv == ws@.map_values(|w: Vec<char>| w@),
            first_stop(wv, rest as int) == first_stop(wv, stop as int),
        ensures
            rest <= stop <= n,
            first_stop(wv, rest as int) == first_stop(wv, stop as int),
            stop < n ==> place_stop(wv[stop as int]),
        decreases n - stop,
    {
        assert(wv[stop as int] == ws@[stop as int]@);
        if place_stop_word(&ws[stop]) {
            break;
        }
        stop = stop + 1;
    }
    assert(first_stop(wv, rest as int) == stop as int);
    // the place: the first piece, then the words up to the stop
    let mut pieces: Vec<Vec<char>> = Vec::new();
    let ghost fv = first@;
    pieces.push(first);
    let mut k: usize = rest;
    while k < stop
        invariant
            rest <= k <= stop <= n == ws.len(),
            wv == ws@.map_values(|w: Vec<char>| w@),
            pieces@.map_values(|w: Vec<char>| w@) == seq![fv] + wv.subrange(rest as int, k as int),
        decreases stop - k,
    {
        let piece = slice_of(&ws[k], 0, ws[k].len());
        assert(piece@ =~= wv[k as int]);
        let ghost pv = pieces@.map_values(|w: Vec<char>| w@);
        pieces.push(piece);
        assert(pieces@.map_values(|w: Vec<char>| w@) =~= pv.push(wv[k as int]));
        assert(seq![fv] + wv.subrange(rest as int, k + 1) =~= (seq![fv] + wv.subrange(rest as int, k as int)).push(wv[k as int]));
        k = k + 1;
    }
    let place = join_words(&pieces, 0, pieces.len());
    assert(pieces@.map_values(|w: Vec<char>| w@).subrange(0, pieces.len() as int) =~= pieces@.map_values(|w: Vec<char>| w@));
    // the head: what came before the marker and what follows the place
    let mut head: Vec<Vec<char>> = Vec::new();
    let mut j: usize = 0;
    while j < n
        invariant
            j <= n == ws.len(),
            at < n,
            stop <= n,
            at < stop,
            wv == ws@.map_values(|w: Vec<char>| w@),
            head@.map_values(|w: Vec<char>| w@) == wv.subrange(0, if j < at { j as int } else { at as int })
                + wv.subrange(stop as int, if j < stop { stop as int } else { j as int }),
        decreases n - j,
    {
        if j < at || j >= stop {
            let piece = slice_of(&ws[j], 0, ws[j].len());
            assert(piece@ =~= wv[j as int]);
            let ghost hv = head@.map_values(|w: Vec<char>| w@);
            head.push(piece);
            assert(head@.map_values(|w: Vec<char>| w@) =~= hv.push(wv[j as int]));
        }
        j = j + 1;
        assert(head@.map_values(|w: Vec<char>| w@) =~= wv.subrange(0, if j < at { j as int } else { at as int })
                + wv.subrange(stop as int, if j < stop { stop as int } else { j as int }));
    }
    (head, Some(string_of(&place)))
}


/// The title with leading `!` marks and the space after them removed.
pub fn strip_bang_of(t: &Vec<char>) -> (r: Vec<char>)
    ensures
        r@ == strip_bang(t@),
{
    let mut i: usize = 0;
    while i < t.len() && t[i] == '!'
        invariant
            i <= t.len(),
            forall|j: int| 0 <= j < i ==> t@[j] == '!',
        decreases t.len() - i,
    {
        i = i + 1;
    }
    proof { lemma_lead_count(t@, '!', i as int); }
    let a = slice_of(t, i, t.len());
    assert(a@ =~= t@.skip(i as int));
    let mut k: usize = 0;
    while k < a.len() && is_whitespace(a[k])
        invariant
            k <= a.len(),
            forall|j: int| 0 <= j < k ==> is_ws(a@[j]),
        decreases a.len() - k,
    {
        k = k + 1;
    }
    proof { lemma_lead_ws(a@, k as int); }
    let r = slice_of(&a, k, a.len());
    assert(r@ =~= a@.skip(k as int));
    r
}

fn day_code_string(i: u32) -> (r: String)
    ensures
        r@ == day_code(i as int),
{
    if i == 0 {
        string_from(&['m', 'o', 'n'])
    } else if i == 1 {
        string_from(&['t', 'u', 'e'])
    } else if i == 2 {
        string_from(&['w', 'e', 'd'])
    } else if i == 3 {
        string_from(&['t', 'h', 'u'])
    } else if i == 4 {
        string_from(&['f', 'r', 'i'])
    } else if i == 5 {
        string_from(&['s', 'a', 't'])
    } else {
        string_from(&['s', 'u', 'n'])
    }
}

/// Put together what the read found.
#[verifier::rlimit(40)]
/// No day from `j` on is in a mask whose first day from `j` is none.
proof fn lemma_first_day_none(mask: u32, j: int)
    requires
        0 <= j <= 7,
        first_day(mask, j) == 7,
    ensures
        forall|k: int| j <= k < 7 ==> !has_day(mask, k),
    decreases 7 - j,
{
    if j < 7 {
        lemma_first_day_none(mask, j + 1);
    }
}

/// A mask with none of its first `n` days gives no codes for them.
proof fn lemma_no_codes(mask: u32, n: int)
    requires
        0 <= n <= 7,
        forall|k: int| 0 <= k < n ==> !has_day(mask, k),
    ensures
        codes(mask, n).len() == 0,
    decreases n,
{
    if n > 0 {
        lemma_no_codes(mask, n - 1);
    }
}

/// The next day, from `today` on, that falls on weekday `i` (Monday 0):
/// today itself when it is one, and never more than six days on (it is
/// `today` plus a step of 0 to 6 days).
pub fn next_weekday_from(today: &Date, i: u32) -> (r: Option<Date>)
    requires
        today.wf(),
        i < 7,
    ensures
        r == next_weekday(*today, i),
        r matches Some(d) ==> {
            &&& d.wf()
            &&& weekday(d) == i
            &&& !d.lt(*today)
            &&& (weekday(*today) == i ==> d == *today)
            &&& 0 <= (i - weekday(*today)) % 7 < 7
        },
        today.le(Date { year: MAX_YEAR, month: 12, day: 24 }) ==> r is Some,
{
    let w = weekday_num(today);
    let ahead = ((i + 7 - w) % 7) as i64;
    assert(ahead == ((i - w) % 7) as i64);
    let r = add_days(today, ahead);
    proof {
        if let Some(d) = r {
            assert((w + (i + 7 - w) % 7) % 7 == i);
        }
    }
    r
}

pub fn finish_of(
    head: &Vec<Vec<char>>,
    location: Option<String>,
    end: usize,
    st: Scan,
    today: &Date,
) -> (r: Parsed)
    requires
        end <= head.len(),
        today.wf(),
        scan_ok(st@),
    ensures
        r@ == finish(head@.map_values(|w: Vec<char>| w@), opt_str(location), end as int, st@, *today),
        parsed_ok(r@),
{
    let ghost hv = head@.map_values(|w: Vec<char>| w@);
    let title0 = join_words(head, 0, end);
    let stripped = strip_bang_of(&title0);
    let priority = title0.len() >= 2 && title0[0] == '!' && title0[1] == '!' && stripped.len() > 0;
    let title = if priority { string_of(&stripped) } else { string_of(&title0) };
    let consumed = strings_of(head, end, head.len());
    let mask: u32 = if st.monthly { 0 } else { st.days };
    let mut byday: Vec<String> = Vec::new();
    let mut i: u32 = 0;
    while i < 7
        invariant
            i <= 7,
            byday@.map_values(|s: String| s@) == codes(mask, i as int),
        decreases 7 - i,
    {
        if (mask >> i) & 1u32 == 1u32 {
            let c = day_code_string(i);
            let ghost bv = byday@.map_values(|s: String| s@);
            let ghost cv = c@;
            byday.push(c);
            assert(byday@.map_values(|s: String| s@) =~= bv.push(cv));
        }
        i = i + 1;
        assert(codes(mask, i as int) == codes(mask, i - 1) + if has_day(mask, i - 1) {
            seq![day_code(i - 1)]
        } else {
            Seq::empty()
        });
        assert(byday@.map_values(|s: String| s@) =~= codes(mask, i as int));
    }
    let mut first: u32 = 0;
    while first < 7 && (mask >> first) & 1u32 != 1u32
        invariant
            first <= 7,
            first_day(mask, 0) == first_day(mask, first as int),
        decreases 7 - first,
    {
        first = first + 1;
    }
    let repeats = st.repeats || byday.len() > 1;
    let due = if repeats {
        None
    } else if st.due.is_none() && byday.len() == 1 {
        proof {
            if first == 7 {
                lemma_first_day_none(mask, 0);
                lemma_no_codes(mask, 7);
            }
        }
        next_weekday_from(today, first)
    } else {
        st.due
    };
    let (monthday, repeat_from) = if !st.monthly {
        (None, None)
    } else {
        match st.due {
            Some(d) => (Some(d.day), Some(d)),
            None => (Some(today.day), None),
        }
    };
    let ghost tv = st.tags@.map_values(|w: Vec<char>| w@);
    let mut tags: Vec<String> = Vec::new();
    let mut k: usize = st.tags.len();
    while k > 0
        invariant
            k <= st.tags.len(),
            tv == st.tags@.map_values(|w: Vec<char>| w@),
            tags@.map_values(|s: String| s@) == tv.reverse().subrange(0, tv.len() - k),
        decreases k,
    {
        k = k - 1;
        let t = string_of(&st.tags[k]);
        assert(t@ == tv[k as int]);
        let ghost before = tags@.map_values(|s: String| s@);
        let ghost t_v = t@;
        tags.push(t);
        assert(tags@.map_values(|s: String| s@) =~= before.push(t_v));
        assert(tv.reverse().subrange(0, tv.len() - k) =~= tv.reverse().subrange(0, tv.len() - k - 1).push(tv[k as int]));
    }
    let ghost fin = tv.reverse();
    assert(tags@.map_values(|s: String| s@) =~= fin);
    let mut category: Option<String> = None;
    let mut c: usize = 0;
    while c < tags.len()
        invariant_except_break
            category is None,
        invariant
            c <= tags.len(),
            fin == tags@.map_values(|s: String| s@),
            first_category(fin) == first_category(fin.skip(c as int)),
        ensures
            opt_str(category) == first_category(fin),
        decreases tags.len() - c,
    {
        let lc = chars_of(tags[c].as_str());
        assert(fin.skip(c as int)[0] == tags@[c as int]@);
        assert(fin.skip(c as int).drop_first() =~= fin.skip(c + 1));
        if category_index_of(&lc).is_some() {
            category = Some(string_of(&lc));
            assert(opt_str(category) == Some(lc@));
            break;
        }
        c = c + 1;
        if c == tags.len() {
            assert(fin.skip(c as int) =~= Seq::<Seq<char>>::empty());
        }
    }
    let listed = if st.due_kw || st.on_kw { true } else { st.span.is_none() };
    let scheduled = if st.due_kw {
        false
    } else if st.on_kw {
        st.at.is_some() || st.span.is_some()
    } else {
        st.span.is_some()
    };
    Parsed {
        title,
        consumed,
        estimate_min: st.estimate,
        at: st.at,
        byday,
        due,
        repeats,
        monthday,
        repeat_from,
        span: st.span,
        listed,
        scheduled,
        tags,
        category,
        location,
        priority,
        pinned: st.pinned,
    }
}

/// Read a typed line. Never fails: whatever is not a detail is the title.
pub fn parse(input: &str, today: Date) -> (r: Parsed)
    requires
        today.wf(),
    ensures
        r@ == parse_view(input@, today),
        parsed_ok(r@),
{
    let chars = chars_of(input);
    parse_chars(&chars, today)
}

#[verifier::rlimit(40)]
pub fn parse_chars(chars: &Vec<char>, today: Date) -> (r: Parsed)
    requires
        today.wf(),
    ensures
        r@ == parse_view(chars@, today),
        parsed_ok(r@),
{
    reveal(parse_view);
    let ws = split_words(chars);
    let (head, location) = split_location_of(ws);
    let ghost hv = head@.map_values(|w: Vec<char>| w@);
    let mut st = Scan {
        estimate: None,
        at: None,
        days: 0,
        due: None,
        repeats: false,
        monthly: false,
        span: None,
        tags: Vec::new(),
        pinned: true,
        due_kw: false,
        on_kw: false,
    };
    assert(st.tags@.map_values(|w: Vec<char>| w@) =~= Seq::<Seq<char>>::empty());
    assert(st@ == start_state());
    let mut end: usize = head.len();
    let mut done = false;
    while !done && end > 0
        invariant
            end <= head.len(),
            hv == head@.map_values(|w: Vec<char>| w@),
            today.wf(),
            scan(hv, end as int, st@, today) == scan(hv, hv.len() as int, start_state(), today),
            done ==> step(hv, end as int, today) is None,
            scan_ok(st@),
        decreases 2 * end + if done { 0int } else { 1int },
    {
        match step_at(&head, end, &today) {
            None => {
                done = true;
            },
            Some((n, tok)) => {
                proof {
                    lemma_step_ok(hv, end as int, today);
                }
                assert(hv[end - 1] == head@[end - 1]@);
                apply_token(&mut st, tok, &head[end - 1], &today);
                end = end - n;
            },
        }
    }
    assert(scan(hv, end as int, st@, today) == (end as int, st@));
    finish_of(&head, location, end, st, &today)
}


/// The dates and times read are real ones, and a day of the month is one.
pub open spec fn parsed_ok(p: ParsedV) -> bool {
    &&& (p.due matches Some(d) ==> d.wf())
    &&& (p.at matches Some(t) ==> t.wf())
    &&& (p.span matches Some(ab) ==> ab.0.wf() && ab.1.wf())
    &&& (p.repeat_from matches Some(d) ==> d.wf())
    &&& (p.monthday matches Some(m) ==> 1 <= m <= 31)
}

/// What the scan has read so far holds only real dates and times.
pub open spec fn scan_ok(st: ScanV) -> bool {
    &&& (st.due matches Some(d) ==> d.wf())
    &&& (st.at matches Some(t) ==> t.wf())
    &&& (st.span matches Some(ab) ==> ab.0.wf() && ab.1.wf())
}

pub proof fn lemma_step_ok(ws: Seq<Seq<char>>, end: int, today: Date)
    ensures
        step(ws, end, today) matches Some((n, tok)) ==> tok_ok(tok),
{
    reveal(step);
    if 0 < end <= ws.len() {
        let w1 = lower(ws[end - 1]);
        let w2 = if end >= 2 { lower(ws[end - 2]) } else { Seq::<char>::empty() };
        lemma_time_of_wf(w2 + w1);
        lemma_recognise_ok(ws[end - 1]);
    }
}
proof fn lemma_scan_end(ws: Seq<Seq<char>>, end: int, st: ScanV, today: Date)
    requires
        0 <= end <= ws.len(),
    ensures
        0 <= scan(ws, end, st, today).0 <= end,
    decreases end,
{
    if end > 0 {
        match step(ws, end, today) {
            None => {},
            Some((n, tok)) => if 1 <= n <= end {
                lemma_scan_end(ws, end - n, apply(st, tok, ws[end - 1], today), today);
            },
        }
    }
}

/// Nothing typed is lost: the words of a line, less its place, are the
/// title's words followed by the details that were read, and the title is
/// those words as typed (less a leading `!!` when something is left after it).
/// Reading never fails.
pub proof fn law_nothing_is_lost(input: Seq<char>, today: Date)
    ensures
        ({
            let head = split_location(words(input)).0;
            let p = parse_view(input, today);
            exists|end: int|
                0 <= end <= head.len() && #[trigger] head.subrange(end, head.len() as int) == p.consumed
                    && p.title == if p.priority {
                    strip_bang(join(head.subrange(0, end)))
                } else {
                    join(head.subrange(0, end))
                }
        }),
{
    reveal(parse_view);
    let head = split_location(words(input)).0;
    lemma_scan_end(head, head.len() as int, start_state(), today);
    let end = scan(head, head.len() as int, start_state(), today).0;
    assert(head.subrange(end, head.len() as int) == parse_view(input, today).consumed);
}


/// No weekday code stands for two days.
proof fn lemma_day_codes_differ(a: int, b: int)
    requires
        0 <= a < b < 7,
    ensures
        day_code(a) != day_code(b),
{
    assert(day_code(a)[0] != day_code(b)[0] || day_code(a)[1] != day_code(b)[1]);
}

/// The days of a mask below `n`, as their indices, in order.
pub open spec fn code_indices(mask: u32, n: int) -> Seq<int>
    decreases n,
{
    if n <= 0 {
        Seq::empty()
    } else {
        code_indices(mask, n - 1) + if has_day(mask, n - 1) {
            seq![n - 1]
        } else {
            Seq::empty()
        }
    }
}

proof fn lemma_codes_in_order(mask: u32, n: int)
    requires
        0 <= n <= 7,
    ensures
        codes(mask, n).len() == code_indices(mask, n).len(),
        codes(mask, n).len() <= n,
        forall|i: int|
            0 <= i < codes(mask, n).len() ==> 0 <= #[trigger] code_indices(mask, n)[i] < n && codes(mask, n)[i]
                == day_code(code_indices(mask, n)[i]),
        forall|i: int, j: int|
            0 <= i < j < codes(mask, n).len() ==> #[trigger] code_indices(mask, n)[i] < #[trigger] code_indices(
                mask,
                n,
            )[j],
    decreases n,
{
    if n > 0 {
        lemma_codes_in_order(mask, n - 1);
        let c = codes(mask, n - 1);
        let x = code_indices(mask, n - 1);
        let c2 = codes(mask, n);
        let x2 = code_indices(mask, n);
        assert forall|i: int| 0 <= i < c2.len() implies 0 <= #[trigger] x2[i] < n && c2[i] == day_code(x2[i]) by {
            if i < c.len() {
                assert(x2[i] == x[i] && c2[i] == c[i]);
            }
        }
        assert forall|i: int, j: int| 0 <= i < j < c2.len() implies #[trigger] x2[i] < #[trigger] x2[j] by {
            if j < c.len() {
                assert(x2[i] == x[i] && x2[j] == x[j]);
            } else {
                assert(x2[i] == x[i]);
            }
        }
    }
}

/// Recurrence is stated, never inferred: two or more weekdays mean a repeat,
/// and a repeat carries no due date. The weekdays come out Monday first, each
/// once; and the colour category is the first tag that names one.
pub proof fn law_recurrence_is_stated(input: Seq<char>, today: Date)
    ensures
        ({
            let p = parse_view(input, today);
            &&& p.byday.len() > 1 ==> p.repeats
            &&& p.repeats ==> p.due is None
            &&& p.category == first_category(p.tags)
            &&& p.byday.len() <= 7
            &&& exists|ix: Seq<int>|
                #![trigger ix.len()]
                ix.len() == p.byday.len() && (forall|i: int|
                    0 <= i < ix.len() ==> 0 <= #[trigger] ix[i] < 7 && p.byday[i] == day_code(ix[i]))
                    && forall|i: int, j: int| 0 <= i < j < ix.len() ==> #[trigger] ix[i] < #[trigger] ix[j]
            &&& forall|i: int, j: int|
                0 <= i < j < p.byday.len() ==> #[trigger] p.byday[i] != #[trigger] p.byday[j]
        }),
{
    reveal(parse_view);
    let head = split_location(words(input)).0;
    let st = scan(head, head.len() as int, start_state(), today).1;
    let mask = if st.monthly { 0u32 } else { st.days };
    lemma_codes_in_order(mask, 7);
    let p = parse_view(input, today);
    let ix = code_indices(mask, 7);
    assert(p.byday == codes(mask, 7));
    assert forall|i: int| 0 <= i < ix.len() implies 0 <= #[trigger] ix[i] < 7 && p.byday[i] == day_code(ix[i]) by {}
    assert forall|i: int, j: int| 0 <= i < j < p.byday.len() implies #[trigger] p.byday[i] != #[trigger] p.byday[j] by {
        assert(ix[i] < ix[j]);
        lemma_day_codes_differ(ix[i], ix[j]);
    }
    assert(ix.len() == p.byday.len());
}


/// A line's words with a priority mark taken off the first: its leading `!`s
/// go, and the word with them when nothing else is left of it.
pub open spec fn unbang(ws: Seq<Seq<char>>) -> Seq<Seq<char>> {
    if ws.len() == 0 {
        ws
    } else {
        let r = ws[0].skip(lead_count(ws[0], '!') as int);
        if r.len() > 0 {
            ws.update(0, r)
        } else {
            ws.drop_first()
        }
    }
}

/// The title read with a priority mark is the words left once the mark is off.
proof fn lemma_unbang_title(front: Seq<Seq<char>>)
    requires
        front.len() > 0,
        forall|k: int| 0 <= k < front.len() ==> plain_word(#[trigger] front[k]),
        strip_bang(join(front)).len() > 0,
    ensures
        words(strip_bang(join(front))) == unbang(front),
{
    let w0 = front[0];
    assert(plain_word(front[0]));
    let b = lead_count(w0, '!');
    lemma_lead_count_run(w0, '!');
    let r = w0.skip(b as int);
    let t = join(front);
    if front.len() == 1 {
        assert(t == w0);
        if r.len() > 0 {
            assert(!is_ws(w0[b as int]));
            lemma_lead_ws(r, 0);
            assert(strip_bang(t) =~= r);
            assert forall|k: int| 0 <= k < seq![r].len() implies plain_word(#[trigger] seq![r][k]) by {
                assert forall|i: int| 0 <= i < r.len() implies !is_ws(#[trigger] r[i]) by {
                    assert(r[i] == w0[b + i]);
                }
            }
            lemma_words_join(seq![r]);
            assert(join(seq![r]) == r);
            assert(unbang(front) =~= seq![r]);
        } else {
            lemma_lead_ws(r, 0);
            assert(strip_bang(t).len() == 0);
        }
    } else {
        let rest = front.drop_first();
        assert forall|k: int| 0 <= k < rest.len() implies plain_word(#[trigger] rest[k]) by {
            assert(rest[k] == front[k + 1]);
        }
        lemma_join_front(front);
        let j = join(rest);
        assert(t == w0 + seq![' '] + j);
        assert(plain_word(rest[0]));
        if rest.len() >= 2 {
            lemma_join_front(rest);
        } else {
            assert(j == rest[0]);
        }
        assert(j.len() > 0 && j[0] == rest[0][0]);
        assert(!is_ws(j[0]));
        if r.len() > 0 {
            assert(t[b as int] == w0[b as int]);
            assert forall|i: int| 0 <= i < b implies t[i] == '!' by {
                assert(t[i] == w0[i]);
            }
            lemma_lead_count(t, '!', b as int);
            let u = t.skip(b as int);
            assert(u =~= r + seq![' '] + j);
            assert(!is_ws(u[0])) by {
                assert(u[0] == w0[b as int]);
            }
            lemma_lead_ws(u, 0);
            assert(strip_bang(t) =~= u);
            let f2 = front.update(0, r);
            assert(plain_word(f2[0])) by {
                assert forall|i: int| 0 <= i < r.len() implies !is_ws(#[trigger] r[i]) by {
                    assert(r[i] == w0[b + i]);
                }
            }
            assert forall|k: int| 0 <= k < f2.len() implies plain_word(#[trigger] f2[k]) by {
                if k > 0 {
                    assert(f2[k] == front[k]);
                }
            }
            lemma_join_front(f2);
            assert(f2.drop_first() =~= rest);
            lemma_words_join(f2);
            assert(unbang(front) == f2);
        } else {
            assert(b == w0.len());
            assert forall|i: int| 0 <= i < b implies t[i] == '!' by {
                assert(t[i] == w0[i]);
            }
            assert(t[b as int] == ' ');
            lemma_lead_count(t, '!', b as int);
            let u = t.skip(b as int);
            assert(u =~= seq![' '] + j);
            assert(is_ws(u[0]));
            assert(u[1] == j[0]);
            lemma_lead_ws(u, 1);
            assert(strip_bang(t) =~= j);
            lemma_words_join(rest);
            assert(unbang(front) == rest);
        }
    }
}

/// Nothing typed is lost, word for word: in a line without a place, the
/// title's words followed by the details that were read are the line's words,
/// none lost, added or moved; a line marked with `!!` loses only the mark (and
/// its word, when the word was nothing but the mark).
pub proof fn law_words_are_kept(input: Seq<char>, today: Date)
    requires
        split_location(words(input)).1 is None,
    ensures
        ({
            let p = parse_view(input, today);
            &&& !p.priority ==> words(p.title) + p.consumed == words(input)
            &&& p.priority ==> words(p.title) + p.consumed == unbang(words(input))
        }),
{
    reveal(parse_view);
    let ws = words(input);
    let head = split_location(ws).0;
    assert(first_marker(ws, 0) >= ws.len());
    assert(head == ws);
    lemma_scan_end(head, head.len() as int, start_state(), today);
    let end = scan(head, head.len() as int, start_state(), today).0;
    let p = parse_view(input, today);
    lemma_words_are_words(input);
    let front = head.subrange(0, end);
    let tail = head.subrange(end, head.len() as int);
    assert forall|k: int| 0 <= k < front.len() implies plain_word(#[trigger] front[k]) by {
        assert(front[k] == ws[k]);
    }
    lemma_words_join(front);
    assert(front + tail =~= ws);
    if !p.priority {
        assert(p.title == join(front));
    } else {
        assert(p.title == strip_bang(join(front)));
        assert(front.len() > 0);
        lemma_unbang_title(front);
        assert(unbang(front) + tail =~= unbang(ws));
    }
}


/// Neither `due` nor `on`, in any case.
pub open spec fn no_kind_word(ws: Seq<Seq<char>>) -> bool {
    forall|k: int|
        0 <= k < ws.len() ==> filler_kind(lower(#[trigger] ws[k])) != Some(1u32) && filler_kind(lower(ws[k]))
            != Some(2u32)
}

proof fn lemma_scan_no_kind(ws: Seq<Seq<char>>, end: int, st: ScanV, today: Date)
    requires
        0 <= end <= ws.len(),
        !st.due_kw && !st.on_kw,
        no_kind_word(ws),
    ensures
        !scan(ws, end, st, today).1.due_kw && !scan(ws, end, st, today).1.on_kw,
    decreases end,
{
    reveal(step);
    if end > 0 {
        match step(ws, end, today) {
            None => {},
            Some((n, tok)) => if 1 <= n <= end {
                lemma_recognise_no_filler(ws[end - 1]);
                assert(filler_kind(lower(ws[end - 1])) != Some(1u32));
                let next = apply(st, tok, ws[end - 1], today);
                assert(!next.due_kw && !next.on_kw);
                lemma_scan_no_kind(ws, end - n, next, today);
            },
        }
    }
}

/// Without `due` or `on`, what kind of thing a line is follows from its time
/// alone: a time range makes it a block, and anything else goes in the
/// to-do list.
pub proof fn law_listed_unless_a_span(input: Seq<char>, today: Date)
    requires
        no_kind_word(words(input)),
    ensures
        parse_view(input, today).listed == (parse_view(input, today).span is None),
{
    reveal(parse_view);
    let ws = words(input);
    let head = split_location(ws).0;
    let at = first_marker(ws, 0);
    lemma_first_marker(ws, 0);
    assert forall|k: int| 0 <= k < head.len() implies filler_kind(lower(#[trigger] head[k])) != Some(1u32)
        && filler_kind(lower(head[k])) != Some(2u32) by {
        if at < ws.len() {
            let rest = if ws[at].len() > 1 { at + 1 } else { at + 2 };
            let stop = first_stop(ws, rest);
            lemma_first_stop(ws, rest);
            if k < at {
                assert(head[k] == ws[k]);
            } else {
                assert(head[k] == ws[stop + k - at]);
            }
        } else {
            assert(head[k] == ws[k]);
        }
    }
    lemma_scan_no_kind(head, head.len() as int, start_state(), today);
}


/// A date written as a day and a month is the first such date on or after
/// today: it has that day and month, is never in the past, and no valid date
/// with that day and month falls between today and it. Only when neither this
/// year's nor next year's is valid and still to come is there none.
pub proof fn law_day_month_is_the_next_one(today: Date, day: u32, month: u32)
    requires
        today.wf(),
    ensures
        next_day_month(today, day, month) matches Some(d) ==> {
            &&& d.day == day && d.month == month
            &&& valid_ymd(d.year as int, month as int, day as int)
            &&& !d.lt(today)
            &&& forall|e: Date|
                e.day == day && e.month == month && valid_ymd(e.year as int, month as int, day as int) && !e.lt(
                    today,
                ) ==> !e.lt(d)
        },
        next_day_month(today, day, month) is None ==> forall|y: int|
            (y == today.year || y == today.year + 1) && valid_ymd(y, month as int, day as int) ==> (Date {
                year: y as i32,
                month,
                day,
            }).lt(today),
{
}

} // verus!
