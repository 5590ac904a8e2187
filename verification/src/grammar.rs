//! What a single word of a captured line can mean, read on its own.
use vstd::prelude::*;
use crate::calendar::{Date, Time, valid_ymd, date_from_ymd};
use crate::words::{
    weekday_index, weekday_index_of, plural_weekday_index, plural_weekday_index_of, keyword,
    keyword_of, clock_word, clock_word_of, zone_marker, zone_marker_of,
};
use crate::text::{
    ends_with, ends_with_lit, ends_with_one, slice_of, split_on, split_chars, has_char, contains_char, parse_u32,
    parse_u32_of, all_digits, digits_val, is_digit, lower, lower_vec,
};

verus! {

/// What a trailing word (or short run of words) turned out to mean.
#[derive(Clone, Copy, Debug)]
pub enum Token {
    /// Weekdays named, as a set: bit `i` is weekday `i`, Monday being 0.
    Days(u32),
    /// A weekday in the plural: the day, and that it repeats.
    Plural(u32),
    Time(Time),
    Span(Time, Time),
    Estimate(u32),
    /// Days from today: 0 is today, 1 tomorrow.
    Relative(u32),
    Date(Date),
    /// Day and month with the year left open.
    DayMonth(u32, u32),
    Every,
    Daily,
    Monthly,
    /// A `#tag`; its text is the lower-cased word after the `#`.
    Tag,
    /// `#fixed` (true) or `#floating` (false).
    Zone(bool),
    /// A filler word: 1 is `due`, 2 is `on`, 0 any other.
    Filler(u32),
}

pub open spec fn bit(i: u32) -> u32 {
    1u32 << i
}

// ---- times -------------------------------------------------------------

/// The body of a time and the hours its meridiem adds; 24 marks a 24-hour form.
pub open spec fn strip_meridiem(t: Seq<char>) -> (Seq<char>, u32) {
    if ends_with(t, seq!['p', '.', 'm', '.']) {
        (t.subrange(0, t.len() - 4), 12)
    } else if ends_with(t, seq!['p', 'm']) {
        (t.subrange(0, t.len() - 2), 12)
    } else if ends_with(t, seq!['p']) {
        (t.subrange(0, t.len() - 1), 12)
    } else if ends_with(t, seq!['a', '.', 'm', '.']) {
        (t.subrange(0, t.len() - 4), 0)
    } else if ends_with(t, seq!['a', 'm']) {
        (t.subrange(0, t.len() - 2), 0)
    } else if ends_with(t, seq!['a']) {
        (t.subrange(0, t.len() - 1), 0)
    } else {
        (t, 24)
    }
}

/// `h`, `h:mm` or `h:mm:ss`: hour, minute, and whether a colon was written.
/// Seconds are read and ignored.
pub open spec fn clock_parts(body: Seq<char>) -> Option<(u32, u32, bool)> {
    let parts = split_on(body, ':');
    if parts.len() == 1 {
        match parse_u32(parts[0]) {
            Some(h) => Some((h, 0, false)),
            None => None,
        }
    } else if parts.len() == 2 {
        match (parse_u32(parts[0]), parse_u32(parts[1])) {
            (Some(h), Some(m)) => Some((h, m, true)),
            _ => None,
        }
    } else if parts.len() == 3 {
        match (parse_u32(parts[0]), parse_u32(parts[1]), parse_u32(parts[2])) {
            (Some(h), Some(m), Some(sec)) => if sec <= 59 {
                Some((h, m, true))
            } else {
                None
            },
            _ => None,
        }
    } else {
        None
    }
}

/// `5pm`, `5p`, `8p.m.`, `5:30pm`, `17:00`, `20:00:00`. Bare digits are not a time.
pub open spec fn time_of(t: Seq<char>) -> Option<Time> {
    let (body, shift) = strip_meridiem(t);
    match clock_parts(body) {
        None => None,
        Some((h, m, colon)) => if m > 59 {
            None
        } else if shift == 24 {
            if !colon || h > 23 {
                None
            } else {
                Some(Time { hour: h, minute: m })
            }
        } else if h == 0 || h > 12 {
            None
        } else {
            Some(Time { hour: ((h % 12) + shift) as u32, minute: m })
        },
    }
}

pub fn time_from(t: &Vec<char>) -> (r: Option<Time>)
    ensures
        r == time_of(t@),
        r matches Some(x) ==> x.wf(),
{
    let ghost sm = strip_meridiem(t@);
    let (cut, shift): (usize, u32) = if ends_with_lit(t, &['p', '.', 'm', '.']) {
        (4, 12)
    } else if ends_with_lit(t, &['p', 'm']) {
        (2, 12)
    } else if ends_with_one(t, 'p') {
        (1, 12)
    } else if ends_with_lit(t, &['a', '.', 'm', '.']) {
        (4, 0)
    } else if ends_with_lit(t, &['a', 'm']) {
        (2, 0)
    } else if ends_with_one(t, 'a') {
        (1, 0)
    } else {
        (0, 24)
    };
    proof {
        if cut == 0 {
            assert(t@.subrange(0, t.len() as int) =~= t@);
        }
        assert(sm.1 == shift);
        assert(sm.0 =~= t@.subrange(0, t.len() - cut));
    }
    let body = slice_of(t, 0, t.len() - cut);
    let parts = split_chars(&body, ':');
    let ghost ps = parts@.map_values(|w: Vec<char>| w@);
    assert(ps.len() == parts.len());
    let (h, m, colon): (u32, u32, bool) = if parts.len() == 1 {
        assert(ps[0] == parts[0]@);
        match parse_u32_of(&parts[0]) {
            Some(h) => (h, 0, false),
            None => return None,
        }
    } else if parts.len() == 2 {
        assert(ps[0] == parts[0]@ && ps[1] == parts[1]@);
        match (parse_u32_of(&parts[0]), parse_u32_of(&parts[1])) {
            (Some(h), Some(m)) => (h, m, true),
            _ => return None,
        }
    } else if parts.len() == 3 {
        assert(ps[0] == parts[0]@ && ps[1] == parts[1]@ && ps[2] == parts[2]@);
        match (parse_u32_of(&parts[0]), parse_u32_of(&parts[1]), parse_u32_of(&parts[2])) {
            (Some(h), Some(m), Some(sec)) => {
                if sec > 59 {
                    return None;
                }
                (h, m, true)
            },
            _ => return None,
        }
    } else {
        return None;
    };
    if m > 59 {
        return None;
    }
    if shift == 24 {
        if !colon || h > 23 {
            return None;
        }
        Some(Time { hour: h, minute: m })
    } else {
        if h == 0 || h > 12 {
            return None;
        }
        Some(Time { hour: (h % 12) + shift, minute: m })
    }
}

/// `9:00-10:15`, `9:30a-11a`: two times joined by one dash.
pub open spec fn span_of(t: Seq<char>) -> Option<(Time, Time)> {
    let parts = split_on(t, '-');
    if parts.len() == 2 {
        match (time_of(parts[0]), time_of(parts[1])) {
            (Some(a), Some(b)) => Some((a, b)),
            _ => None,
        }
    } else {
        None
    }
}

pub fn span_from(t: &Vec<char>) -> (r: Option<(Time, Time)>)
    ensures
        r == span_of(t@),
        r matches Some((a, b)) ==> a.wf() && b.wf(),
{
    let parts = split_chars(t, '-');
    let ghost ps = parts@.map_values(|w: Vec<char>| w@);
    assert(ps.len() == parts.len());
    if parts.len() != 2 {
        return None;
    }
    assert(ps[0] == parts[0]@ && ps[1] == parts[1]@);
    match (time_from(&parts[0]), time_from(&parts[1])) {
        (Some(a), Some(b)) => Some((a, b)),
        _ => None,
    }
}

// ---- dates -------------------------------------------------------------

pub open spec fn date_sep(t: Seq<char>) -> Option<char> {
    if has_char(t, '-') {
        Some('-')
    } else if has_char(t, '/') {
        Some('/')
    } else if has_char(t, '.') {
        Some('.')
    } else {
        None
    }
}

pub open spec fn full_date(y: int, m: u32, d: u32) -> Option<Token> {
    if valid_ymd(y, m as int, d as int) {
        Some(Token::Date(Date { year: y as i32, month: m, day: d }))
    } else {
        None
    }
}

/// Day first, then month, unless the second number cannot be a month.
pub open spec fn day_month(a: u32, b: u32) -> (u32, u32) {
    if b > 12 {
        (b, a)
    } else {
        (a, b)
    }
}

/// A written date: `2026-09-15`, `2/9/2026`, `2-9-2026`, `2.9.2026`, `02/09/26`,
/// or `2/9` with the year left open. Three-part forms need a two- or four-digit
/// year last (or a four-digit year first), so `1-2-3` is not a date; a dash
/// between two numbers is a range, so `2-9` is not one either.
pub open spec fn date_of(t: Seq<char>) -> Option<Token> {
    match date_sep(t) {
        None => None,
        Some(sep) => {
            let parts = split_on(t, sep);
            if parts.len() == 3 {
                match (parse_u32(parts[0]), parse_u32(parts[1]), parse_u32(parts[2])) {
                    (Some(a), Some(b), Some(c)) => if parts[0].len() == 4 {
                        full_date(a as int, b, c)
                    } else if parts[2].len() == 4 || parts[2].len() == 2 {
                        let year: int = if parts[2].len() == 4 { c as int } else { 2000 + c };
                        full_date(year, day_month(a, b).1, day_month(a, b).0)
                    } else {
                        None
                    },
                    _ => None,
                }
            } else if parts.len() == 2 && sep != '-' {
                match (parse_u32(parts[0]), parse_u32(parts[1])) {
                    (Some(a), Some(b)) => {
                        let (day, month) = day_month(a, b);
                        if 1 <= month <= 12 && 1 <= day <= 31 {
                            Some(Token::DayMonth(day, month))
                        } else {
                            None
                        }
                    },
                    _ => None,
                }
            } else {
                None
            }
        },
    }
}

pub fn full_date_from(y: u32, m: u32, d: u32) -> (r: Option<Token>)
    requires
        y <= 10099,
    ensures
        r == full_date(y as int, m, d),
{
    match date_from_ymd(y as i32, m, d) {
        Some(x) => Some(Token::Date(x)),
        None => None,
    }
}

pub fn date_from(t: &Vec<char>) -> (r: Option<Token>)
    ensures
        r == date_of(t@),
{
    let sep = if contains_char(t, '-') {
        '-'
    } else if contains_char(t, '/') {
        '/'
    } else if contains_char(t, '.') {
        '.'
    } else {
        return None;
    };
    assert(date_sep(t@) == Some(sep));
    let parts = split_chars(t, sep);
    let ghost ps = parts@.map_values(|w: Vec<char>| w@);
    assert(ps.len() == parts.len());
    if parts.len() == 3 {
        assert(ps[0] == parts[0]@ && ps[1] == parts[1]@ && ps[2] == parts[2]@);
        match (parse_u32_of(&parts[0]), parse_u32_of(&parts[1]), parse_u32_of(&parts[2])) {
            (Some(a), Some(b), Some(c)) => {
                if parts[0].len() == 4 {
                    proof { lemma_short_number(parts[0]@); }
                    full_date_from(a, b, c)
                } else if parts[2].len() == 4 || parts[2].len() == 2 {
                    proof { lemma_short_number(parts[2]@); }
                    let year: u32 = if parts[2].len() == 4 { c } else { 2000 + c };
                    let (day, month) = if b > 12 { (b, a) } else { (a, b) };
                    full_date_from(year, month, day)
                } else {
                    None
                }
            },
            _ => None,
        }
    } else if parts.len() == 2 && sep != '-' {
        assert(ps[0] == parts[0]@ && ps[1] == parts[1]@);
        match (parse_u32_of(&parts[0]), parse_u32_of(&parts[1])) {
            (Some(a), Some(b)) => {
                let (day, month) = if b > 12 { (b, a) } else { (a, b) };
                if 1 <= month && month <= 12 && 1 <= day && day <= 31 {
                    Some(Token::DayMonth(day, month))
                } else {
                    None
                }
            },
            _ => None,
        }
    } else {
        None
    }
}

/// A number written with at most four characters is at most 9999.
pub proof fn lemma_short_number(s: Seq<char>)
    requires
        s.len() <= 4,
    ensures
        parse_u32(s) matches Some(v) ==> v < pow10(s.len()) && v <= 9999,
        s.len() == 2 ==> (parse_u32(s) matches Some(v) ==> v <= 99),
{
    let body = if s.len() > 0 && s[0] == '+' { s.drop_first() } else { s };
    if body.len() > 0 && all_digits(body) {
        lemma_digits_bound(body);
        lemma_pow10_mono(body.len(), s.len());
        lemma_pow10_mono(s.len(), 4);
        reveal_with_fuel(pow10, 5);
    }
}

pub proof fn lemma_pow10_mono(a: nat, b: nat)
    requires
        a <= b,
    ensures
        pow10(a) <= pow10(b),
        pow10(a) >= 1,
    decreases b,
{
    if a < b {
        lemma_pow10_mono(a, (b - 1) as nat);
    } else if a > 0 {
        lemma_pow10_mono((a - 1) as nat, (a - 1) as nat);
    }
}

pub proof fn lemma_digits_bound(s: Seq<char>)
    requires
        all_digits(s),
    ensures
        digits_val(s) < pow10(s.len()),
    decreases s.len(),
{
    if s.len() > 0 {
        assert(all_digits(s.drop_last())) by {
            assert forall|i: int| 0 <= i < s.drop_last().len() implies is_digit(#[trigger] s.drop_last()[i]) by {
                assert(s.drop_last()[i] == s[i]);
            }
        }
        lemma_digits_bound(s.drop_last());
        assert(is_digit(s[s.len() - 1]));
    }
}

pub open spec fn pow10(n: nat) -> nat
    decreases n,
{
    if n == 0 {
        1
    } else {
        10 * pow10((n - 1) as nat)
    }
}

// ---- estimates ---------------------------------------------------------

/// Decimal hours as whole minutes, rounded half up: `2` is 120, `1.5` is 90.
/// Up to six places after the point; a zero amount is not an estimate.
pub open spec fn hours_of(s: Seq<char>) -> Option<u32> {
    let b = if s.len() > 0 && s[0] == '+' { s.drop_first() } else { s };
    let parts = split_on(b, '.');
    let ip = parts[0];
    let fp = if parts.len() == 2 { parts[1] } else { Seq::<char>::empty() };
    if parts.len() > 2 || !all_digits(ip) || !all_digits(fp) || ip.len() + fp.len() == 0
        || fp.len() > 6 {
        None
    } else if digits_val(ip) == 0 && digits_val(fp) == 0 {
        None
    } else {
        let k = pow10(fp.len());
        let mins = 60 * digits_val(ip) + (120 * digits_val(fp) + k) / (2 * k);
        Some(if mins > u32::MAX { u32::MAX } else { mins as u32 })
    }
}

/// `~2h`, `~1.5h`, `~90m`.
pub open spec fn estimate_of(t: Seq<char>) -> Option<u32> {
    if t.len() < 2 || t[0] != '~' {
        None
    } else {
        let body = t.drop_first();
        if body.last() == 'h' {
            hours_of(body.drop_last())
        } else if body.last() == 'm' {
            match parse_u32(body.drop_last()) {
                Some(m) => if m > 0 {
                    Some(m)
                } else {
                    None
                },
                None => None,
            }
        } else {
            None
        }
    }
}

/// Digits read with a ceiling: the value, or the ceiling if it is larger.
pub fn capped_digits(s: &Vec<char>, cap: u64) -> (r: u64)
    requires
        all_digits(s@),
        cap <= 0x1_0000_0000_0000,
    ensures
        r as nat == if digits_val(s@) > cap { cap as nat } else { digits_val(s@) },
{
    let mut acc: u64 = 0;
    let mut i: usize = 0;
    while i < s.len()
        invariant
            i <= s.len(),
            all_digits(s@),
            cap <= 0x1_0000_0000_0000,
            acc as nat == if digits_val(s@.subrange(0, i as int)) > cap {
                cap as nat
            } else {
                digits_val(s@.subrange(0, i as int))
            },
        decreases s.len() - i,
    {
        let ghost pre = s@.subrange(0, i as int);
        let ghost next = s@.subrange(0, i + 1);
        assert(next.drop_last() =~= pre);
        assert(is_digit(s@[i as int]));
        let d = ((s[i] as u32) - ('0' as u32)) as u64;
        assert(digits_val(next) == digits_val(pre) * 10 + d);
        if acc >= cap {
            acc = cap;
        } else {
            let v = acc * 10 + d;
            acc = if v > cap { cap } else { v };
        }
        i = i + 1;
    }
    assert(s@.subrange(0, s.len() as int) =~= s@);
    acc
}

pub fn all_digits_from(s: &Vec<char>) -> (r: bool)
    ensures
        r == all_digits(s@),
{
    let mut i: usize = 0;
    while i < s.len()
        invariant
            i <= s.len(),
            forall|j: int| 0 <= j < i ==> is_digit(s@[j]),
        decreases s.len() - i,
    {
        if !('0' <= s[i] && s[i] <= '9') {
            return false;
        }
        i = i + 1;
    }
    true
}

pub fn hours_from(s: &Vec<char>) -> (r: Option<u32>)
    ensures
        r == hours_of(s@),
{
    let from: usize = if s.len() > 0 && s[0] == '+' { 1 } else { 0 };
    let b = slice_of(s, from, s.len());
    assert(b@ == (if s@.len() > 0 && s@[0] == '+' { s@.drop_first() } else { s@ })) by {
        if from == 0 {
            assert(s@.subrange(0, s.len() as int) =~= s@);
        } else {
            assert(s@.subrange(1, s.len() as int) =~= s@.drop_first());
        }
    }
    let parts = split_chars(&b, '.');
    let ghost ps = parts@.map_values(|w: Vec<char>| w@);
    assert(ps.len() == parts.len());
    if parts.len() > 2 {
        return None;
    }
    assert(ps[0] == parts[0]@);
    let ip = &parts[0];
    let empty: Vec<char> = Vec::new();
    let fp = if parts.len() == 2 {
        assert(ps[1] == parts[1]@);
        &parts[1]
    } else {
        assert(empty@ =~= Seq::<char>::empty());
        &empty
    };
    if !all_digits_from(ip) || !all_digits_from(fp) || (ip.len() == 0 && fp.len() == 0) || fp.len() > 6 {
        return None;
    }
    proof { lemma_digits_bound(fp@); }
    let f = capped_digits(fp, 1_000_000);
    let i = capped_digits(ip, 10_000_000_000);
    if i == 0 && f == 0 {
        return None;
    }
    let mut k: u64 = 1;
    let mut j: usize = 0;
    while j < fp.len()
        invariant
            j <= fp.len() <= 6,
            k == pow10(j as nat),
        decreases fp.len() - j,
    {
        proof {
            lemma_pow10_mono(j as nat, 5);
            reveal_with_fuel(pow10, 6);
        }
        k = k * 10;
        j = j + 1;
    }
    proof {
        lemma_pow10_mono(fp.len() as nat, 6);
        reveal_with_fuel(pow10, 7);
    }
    assert(f < k);
    let frac = (120 * f + k) / (2 * k);
    assert(frac <= 60) by (nonlinear_arith)
        requires
            f < k,
            frac == (120 * f + k) / (2 * k),
            k >= 1,
    ;
    let mins = 60 * i + frac;
    if mins > 0xffff_ffff {
        Some(0xffff_ffff)
    } else {
        Some(mins as u32)
    }
}

pub fn estimate_from(t: &Vec<char>) -> (r: Option<u32>)
    ensures
        r == estimate_of(t@),
{
    if t.len() < 2 || t[0] != '~' {
        return None;
    }
    let last = t[t.len() - 1];
    let inner = slice_of(t, 1, t.len() - 1);
    assert(inner@ == t@.drop_first().drop_last());
    assert(t@.drop_first().last() == last);
    if last == 'h' {
        hours_from(&inner)
    } else if last == 'm' {
        match parse_u32_of(&inner) {
            Some(m) => if m > 0 {
                Some(m)
            } else {
                None
            },
            None => None,
        }
    } else {
        None
    }
}


// ---- weekdays, tags and the whole word --------------------------------

/// The weekdays named by slash-separated parts, as a set; `None` if any part is not one.
pub open spec fn list_mask(parts: Seq<Seq<char>>) -> Option<u32>
    decreases parts.len(),
{
    if parts.len() == 0 {
        Some(0)
    } else {
        match (list_mask(parts.drop_last()), weekday_index(parts.last())) {
            (Some(m), Some(i)) => Some(m | bit(i)),
            _ => None,
        }
    }
}

/// `fri`, `friday`, `tues`, or several joined by slashes: `mon/wed/fri`.
pub open spec fn days_of(t: Seq<char>) -> Option<u32> {
    match weekday_index(t) {
        Some(i) => Some(bit(i)),
        None => if has_char(t, '/') && split_on(t, '/').len() >= 2 {
            list_mask(split_on(t, '/'))
        } else {
            None
        },
    }
}

pub fn days_from(t: &Vec<char>) -> (r: Option<u32>)
    ensures
        r == days_of(t@),
{
    match weekday_index_of(t) {
        Some(i) => return Some(1u32 << i),
        None => {},
    }
    if !contains_char(t, '/') {
        return None;
    }
    let parts = split_chars(t, '/');
    let ghost ps = parts@.map_values(|w: Vec<char>| w@);
    assert(ps.len() == parts.len());
    if parts.len() < 2 {
        return None;
    }
    let mut mask: u32 = 0;
    let mut k: usize = 0;
    while k < parts.len()
        invariant
            k <= parts.len(),
            ps == parts@.map_values(|w: Vec<char>| w@),
            ps == split_on(t@, '/'),
            weekday_index(t@) is None,
            list_mask(ps.subrange(0, k as int)) == Some(mask),
        decreases parts.len() - k,
    {
        assert(ps.subrange(0, k + 1).drop_last() =~= ps.subrange(0, k as int));
        assert(ps[k as int] == parts[k as int]@);
        match weekday_index_of(&parts[k]) {
            Some(i) => {
                mask = mask | (1u32 << i);
            },
            None => {
                proof {
                    lemma_list_mask_none(ps, k as int);
                    assert(weekday_index(t@) is None);
                    assert(ps == split_on(t@, '/'));
                }
                return None;
            },
        }
        k = k + 1;
    }
    assert(ps.subrange(0, parts.len() as int) =~= ps);
    Some(mask)
}

/// A part that is not a weekday spoils the whole list.
pub proof fn lemma_list_mask_none(ps: Seq<Seq<char>>, k: int)
    requires
        0 <= k < ps.len(),
        weekday_index(ps[k]) is None,
    ensures
        list_mask(ps) is None,
    decreases ps.len(),
{
    if k < ps.len() - 1 {
        lemma_list_mask_none(ps.drop_last(), k);
    }
}

/// A `#tag`, or one of the placement markers.
pub open spec fn tag_of(raw: Seq<char>) -> Option<Token> {
    if raw.len() >= 2 && raw[0] == '#' {
        match zone_marker(lower(raw.drop_first())) {
            Some(p) => Some(Token::Zone(p)),
            None => Some(Token::Tag),
        }
    } else {
        None
    }
}

/// Minutes past midnight as a time.
pub open spec fn time_at(mins: u32) -> Time {
    Time { hour: mins / 60, minute: mins % 60 }
}

/// What one word means on its own, if anything. Tags are read from the word as
/// typed; everything else ignores case.
pub open spec fn recognise(raw: Seq<char>) -> Option<Token> {
    match tag_of(raw) {
        Some(tok) => Some(tok),
        None => {
            let t = lower(raw);
            if days_of(t) is Some {
                Some(Token::Days(days_of(t)->0))
            } else if plural_weekday_index(t) is Some {
                Some(Token::Plural(bit(plural_weekday_index(t)->0)))
            } else if keyword(t) is Some {
                let k = keyword(t)->0;
                Some(
                    if k == 0 {
                        Token::Every
                    } else if k == 1 {
                        Token::Daily
                    } else if k == 2 {
                        Token::Monthly
                    } else if k == 3 {
                        Token::Relative(0)
                    } else {
                        Token::Relative(1)
                    },
                )
            } else if clock_word(t) is Some {
                Some(Token::Time(time_at(clock_word(t)->0)))
            } else if span_of(t) is Some {
                let ab = span_of(t)->0;
                Some(Token::Span(ab.0, ab.1))
            } else if time_of(t) is Some {
                Some(Token::Time(time_of(t)->0))
            } else if date_of(t) is Some {
                date_of(t)
            } else if estimate_of(t) is Some {
                Some(Token::Estimate(estimate_of(t)->0))
            } else {
                None
            }
        },
    }
}

pub fn recognise_word(raw: &Vec<char>) -> (r: Option<Token>)
    ensures
        r == recognise(raw@),
{
    if raw.len() >= 2 && raw[0] == '#' {
        let body = slice_of(raw, 1, raw.len());
        assert(body@ =~= raw@.drop_first());
        let lb = lower_vec(&body);
        return match zone_marker_of(&lb) {
            Some(p) => Some(Token::Zone(p)),
            None => Some(Token::Tag),
        };
    }
    let t = lower_vec(raw);
    if let Some(m) = days_from(&t) {
        return Some(Token::Days(m));
    }
    if let Some(i) = plural_weekday_index_of(&t) {
        return Some(Token::Plural(1u32 << i));
    }
    if let Some(k) = keyword_of(&t) {
        return Some(
            if k == 0 {
                Token::Every
            } else if k == 1 {
                Token::Daily
            } else if k == 2 {
                Token::Monthly
            } else if k == 3 {
                Token::Relative(0)
            } else {
                Token::Relative(1)
            },
        );
    }
    if let Some(mins) = clock_word_of(&t) {
        return Some(Token::Time(Time { hour: mins / 60, minute: mins % 60 }));
    }
    if let Some((a, b)) = span_from(&t) {
        return Some(Token::Span(a, b));
    }
    if let Some(x) = time_from(&t) {
        return Some(Token::Time(x));
    }
    let d = date_from(&t);
    if d.is_some() {
        return d;
    }
    if let Some(m) = estimate_from(&t) {
        return Some(Token::Estimate(m));
    }
    None
}

// ---- written-out dates: `2 Sep`, `Sep 2, 2026`, `2nd September` -------

/// A day of the month as written beside a month name: `2`, `2nd`, `2,`.
pub open spec fn day_word(t: Seq<char>) -> Option<u32> {
    let a = if t.len() > 0 && t.last() == ',' { t.drop_last() } else { t };
    let b = if ends_with(a, seq!['s', 't']) || ends_with(a, seq!['n', 'd']) || ends_with(
        a,
        seq!['r', 'd'],
    ) || ends_with(a, seq!['t', 'h']) {
        a.subrange(0, a.len() - 2)
    } else {
        a
    };
    if 1 <= b.len() <= 2 && all_digits(b) && 1 <= digits_val(b) <= 31 {
        Some(digits_val(b) as u32)
    } else {
        None
    }
}

pub fn day_word_of(t: &Vec<char>) -> (r: Option<u32>)
    ensures
        r == day_word(t@),
        r matches Some(d) ==> 1 <= d <= 31,
{
    let a = if t.len() > 0 && t[t.len() - 1] == ',' {
        slice_of(t, 0, t.len() - 1)
    } else {
        slice_of(t, 0, t.len())
    };
    assert(a@ == (if t@.len() > 0 && t@.last() == ',' { t@.drop_last() } else { t@ })) by {
        assert(t@.subrange(0, t.len() as int) =~= t@);
    }
    let b = if ends_with_lit(&a, &['s', 't']) || ends_with_lit(&a, &['n', 'd']) || ends_with_lit(
        &a,
        &['r', 'd'],
    ) || ends_with_lit(&a, &['t', 'h']) {
        slice_of(&a, 0, a.len() - 2)
    } else {
        slice_of(&a, 0, a.len())
    };
    assert(a@.subrange(0, a.len() as int) =~= a@);
    if b.len() < 1 || b.len() > 2 || !all_digits_from(&b) {
        return None;
    }
    proof {
        lemma_digits_bound(b@);
        reveal_with_fuel(pow10, 3);
    }
    let v = capped_digits(&b, 100) as u32;
    if 1 <= v && v <= 31 {
        Some(v)
    } else {
        None
    }
}

/// A four-digit year.
pub open spec fn year_word(t: Seq<char>) -> Option<u32> {
    if t.len() == 4 && all_digits(t) {
        Some(digits_val(t) as u32)
    } else {
        None
    }
}

pub fn year_word_of(t: &Vec<char>) -> (r: Option<u32>)
    ensures
        r == year_word(t@),
        r matches Some(y) ==> y <= 9999,
{
    if t.len() != 4 || !all_digits_from(t) {
        return None;
    }
    proof {
        lemma_digits_bound(t@);
        reveal_with_fuel(pow10, 5);
    }
    Some(capped_digits(t, 10000) as u32)
}


/// A token's times are times of day and its dates are real dates.
pub open spec fn tok_ok(tok: Token) -> bool {
    match tok {
        Token::Time(t) => t.wf(),
        Token::Span(a, b) => a.wf() && b.wf(),
        Token::Date(d) => d.wf(),
        _ => true,
    }
}

pub proof fn lemma_time_of_wf(t: Seq<char>)
    ensures
        time_of(t) matches Some(x) ==> x.wf(),
{
}

/// Whatever a word is read as holds only real times and dates.
pub proof fn lemma_recognise_ok(raw: Seq<char>)
    ensures
        recognise(raw) matches Some(tok) ==> tok_ok(tok),
{
    let t = lower(raw);
    lemma_time_of_wf(t);
    let parts = split_on(t, '-');
    if parts.len() == 2 {
        lemma_time_of_wf(parts[0]);
        lemma_time_of_wf(parts[1]);
    }
}
/// A word on its own is never a filler word (those only count beside a detail).
pub proof fn lemma_recognise_no_filler(raw: Seq<char>)
    ensures
        !(recognise(raw) matches Some(Token::Filler(_))),
{
    let t = lower(raw);
    if tag_of(raw) is None && days_of(t) is None && plural_weekday_index(t) is None && keyword(t) is None
        && clock_word(t) is None && span_of(t) is None && time_of(t) is None && date_of(t) is Some {
        assert(!(date_of(t) matches Some(Token::Filler(_))));
    }
}

} // verus!
