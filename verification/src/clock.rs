//! Clock times as people read them: 12-hour and compact. Display only.
use vstd::prelude::*;
use crate::calendar::Time;
use crate::text::push_char;

verus! {

pub open spec fn digit(d: int) -> char {
    ((d + 48) as u32) as char
}

/// A number below 100 without padding.
pub open spec fn num(n: int) -> Seq<char> {
    if n < 10 {
        seq![digit(n)]
    } else {
        seq![digit(n / 10), digit(n % 10)]
    }
}

pub open spec fn two_digits(n: int) -> Seq<char> {
    seq![digit(n / 10), digit(n % 10)]
}

pub open spec fn hour12(h: int) -> int {
    if h % 12 == 0 {
        12
    } else {
        h % 12
    }
}

pub open spec fn meridiem_of(h: int) -> Seq<char> {
    if h < 12 {
        seq!['a', 'm']
    } else {
        seq!['p', 'm']
    }
}

/// 15:30 is "3:30pm", 15:00 "3pm", noon "12pm", midnight "12am".
pub open spec fn time12_view(t: Time) -> Seq<char> {
    num(hour12(t.hour as int)) + (if t.minute == 0 {
        Seq::empty()
    } else {
        seq![':'] + two_digits(t.minute as int)
    }) + meridiem_of(t.hour as int)
}

fn digit_char(d: u32) -> (r: char)
    requires
        d < 10,
    ensures
        r == digit(d as int),
{
    ((d + 48) as u8) as char
}

pub fn time12(t: Time) -> (r: String)
    requires
        t.wf(),
    ensures
        r@ == time12_view(t),
{
    let h12: u32 = if t.hour % 12 == 0 { 12 } else { t.hour % 12 };
    let mut out = String::new();
    if h12 >= 10 {
        push_char(&mut out, digit_char(h12 / 10));
    }
    push_char(&mut out, digit_char(h12 % 10));
    assert(out@ =~= num(hour12(t.hour as int)));
    let ghost head = out@;
    if t.minute != 0 {
        push_char(&mut out, ':');
        push_char(&mut out, digit_char(t.minute / 10));
        push_char(&mut out, digit_char(t.minute % 10));
    }
    let ghost mid = out@;
    if t.hour < 12 {
        push_char(&mut out, 'a');
    } else {
        push_char(&mut out, 'p');
    }
    push_char(&mut out, 'm');
    assert(out@ =~= time12_view(t));
    out
}

/// "2–5pm", "10:30am–12pm": the meridiem is written once when both ends share it.
pub open spec fn range12_view(start: Time, end: Time) -> Seq<char> {
    let a = time12_view(start);
    let b = time12_view(end);
    if (start.hour < 12) == (end.hour < 12) {
        a.subrange(0, a.len() - 2) + seq!['\u{2013}'] + b
    } else {
        a + seq!['\u{2013}'] + b
    }
}

pub fn range12(start: Time, end: Time) -> (r: String)
    requires
        start.wf(),
        end.wf(),
    ensures
        r@ == range12_view(start, end),
{
    let a = time12(start);
    let b = time12(end);
    let ac = crate::text::chars_of(a.as_str());
    let bc = crate::text::chars_of(b.as_str());
    let cut = if (start.hour < 12) == (end.hour < 12) { ac.len() - 2 } else { ac.len() };
    let mut out = String::new();
    let mut i: usize = 0;
    while i < cut
        invariant
            i <= cut <= ac.len(),
            out@ == ac@.subrange(0, i as int),
        decreases cut - i,
    {
        push_char(&mut out, ac[i]);
        i = i + 1;
    }
    push_char(&mut out, '\u{2013}');
    let ghost pre = out@;
    let mut j: usize = 0;
    while j < bc.len()
        invariant
            j <= bc.len(),
            out@ == pre + bc@.subrange(0, j as int),
        decreases bc.len() - j,
    {
        push_char(&mut out, bc[j]);
        j = j + 1;
        assert(pre + bc@.subrange(0, j as int) =~= (pre + bc@.subrange(0, j - 1)).push(bc@[j - 1]));
    }
    assert(bc@.subrange(0, bc.len() as int) =~= bc@);
    assert(ac@.subrange(0, ac.len() as int) =~= ac@);
    out
}

} // verus!
