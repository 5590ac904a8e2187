//! The fixed vocabulary of the capture grammar.
use vstd::prelude::*;
use crate::text::is_word;

verus! {

/// A weekday by code, name or common abbreviation; Monday is 0.
pub open spec fn weekday_index(t: Seq<char>) -> Option<u32> {
    if t == seq!['m', 'o', 'n'] || t == seq!['m', 'o', 'n', 'd', 'a', 'y'] {
        Some(0)
    } else if t == seq!['t', 'u', 'e'] || t == seq!['t', 'u', 'e', 's'] || t == seq!['t', 'u', 'e', 's', 'd', 'a', 'y'] {
        Some(1)
    } else if t == seq!['w', 'e', 'd'] || t == seq!['w', 'e', 'd', 's'] || t == seq!['w', 'e', 'd', 'n', 'e', 's', 'd', 'a', 'y'] {
        Some(2)
    } else if t == seq!['t', 'h', 'u'] || t == seq!['t', 'h', 'u', 'r'] || t == seq!['t', 'h', 'u', 'r', 's'] || t == seq!['t', 'h', 'u', 'r', 's', 'd', 'a', 'y'] {
        Some(3)
    } else if t == seq!['f', 'r', 'i'] || t == seq!['f', 'r', 'i', 'd', 'a', 'y'] {
        Some(4)
    } else if t == seq!['s', 'a', 't'] || t == seq!['s', 'a', 't', 'u', 'r', 'd', 'a', 'y'] {
        Some(5)
    } else if t == seq!['s', 'u', 'n'] || t == seq!['s', 'u', 'n', 'd', 'a', 'y'] {
        Some(6)
    } else {
        None
    }
}

pub fn weekday_index_of(t: &Vec<char>) -> (r: Option<u32>)
    ensures
        r == weekday_index(t@),
{
    if is_word(t, &['m', 'o', 'n']) || is_word(t, &['m', 'o', 'n', 'd', 'a', 'y']) {
        Some(0)
    } else if is_word(t, &['t', 'u', 'e']) || is_word(t, &['t', 'u', 'e', 's']) || is_word(t, &['t', 'u', 'e', 's', 'd', 'a', 'y']) {
        Some(1)
    } else if is_word(t, &['w', 'e', 'd']) || is_word(t, &['w', 'e', 'd', 's']) || is_word(t, &['w', 'e', 'd', 'n', 'e', 's', 'd', 'a', 'y']) {
        Some(2)
    } else if is_word(t, &['t', 'h', 'u']) || is_word(t, &['t', 'h', 'u', 'r']) || is_word(t, &['t', 'h', 'u', 'r', 's']) || is_word(t, &['t', 'h', 'u', 'r', 's', 'd', 'a', 'y']) {
        Some(3)
    } else if is_word(t, &['f', 'r', 'i']) || is_word(t, &['f', 'r', 'i', 'd', 'a', 'y']) {
        Some(4)
    } else if is_word(t, &['s', 'a', 't']) || is_word(t, &['s', 'a', 't', 'u', 'r', 'd', 'a', 'y']) {
        Some(5)
    } else if is_word(t, &['s', 'u', 'n']) || is_word(t, &['s', 'u', 'n', 'd', 'a', 'y']) {
        Some(6)
    } else {
        None
    }
}

/// A weekday in the plural (`mondays`), which says it repeats.
pub open spec fn plural_weekday_index(t: Seq<char>) -> Option<u32> {
    if t == seq!['m', 'o', 'n', 'd', 'a', 'y', 's'] {
        Some(0)
    } else if t == seq!['t', 'u', 'e', 's', 'd', 'a', 'y', 's'] {
        Some(1)
    } else if t == seq!['w', 'e', 'd', 'n', 'e', 's', 'd', 'a', 'y', 's'] {
        Some(2)
    } else if t == seq!['t', 'h', 'u', 'r', 's', 'd', 'a', 'y', 's'] {
        Some(3)
    } else if t == seq!['f', 'r', 'i', 'd', 'a', 'y', 's'] {
        Some(4)
    } else if t == seq!['s', 'a', 't', 'u', 'r', 'd', 'a', 'y', 's'] {
        Some(5)
    } else if t == seq!['s', 'u', 'n', 'd', 'a', 'y', 's'] {
        Some(6)
    } else {
        None
    }
}

pub fn plural_weekday_index_of(t: &Vec<char>) -> (r: Option<u32>)
    ensures
        r == plural_weekday_index(t@),
{
    if is_word(t, &['m', 'o', 'n', 'd', 'a', 'y', 's']) {
        Some(0)
    } else if is_word(t, &['t', 'u', 'e', 's', 'd', 'a', 'y', 's']) {
        Some(1)
    } else if is_word(t, &['w', 'e', 'd', 'n', 'e', 's', 'd', 'a', 'y', 's']) {
        Some(2)
    } else if is_word(t, &['t', 'h', 'u', 'r', 's', 'd', 'a', 'y', 's']) {
        Some(3)
    } else if is_word(t, &['f', 'r', 'i', 'd', 'a', 'y', 's']) {
        Some(4)
    } else if is_word(t, &['s', 'a', 't', 'u', 'r', 'd', 'a', 'y', 's']) {
        Some(5)
    } else if is_word(t, &['s', 'u', 'n', 'd', 'a', 'y', 's']) {
        Some(6)
    } else {
        None
    }
}

/// A month by name or abbreviation; January is 1.
pub open spec fn month_index(t: Seq<char>) -> Option<u32> {
    if t == seq!['j', 'a', 'n'] || t == seq!['j', 'a', 'n', 'u', 'a', 'r', 'y'] {
        Some(1)
    } else if t == seq!['f', 'e', 'b'] || t == seq!['f', 'e', 'b', 'r', 'u', 'a', 'r', 'y'] {
        Some(2)
    } else if t == seq!['m', 'a', 'r'] || t == seq!['m', 'a', 'r', 'c', 'h'] {
        Some(3)
    } else if t == seq!['a', 'p', 'r'] || t == seq!['a', 'p', 'r', 'i', 'l'] {
        Some(4)
    } else if t == seq!['m', 'a', 'y'] {
        Some(5)
    } else if t == seq!['j', 'u', 'n'] || t == seq!['j', 'u', 'n', 'e'] {
        Some(6)
    } else if t == seq!['j', 'u', 'l'] || t == seq!['j', 'u', 'l', 'y'] {
        Some(7)
    } else if t == seq!['a', 'u', 'g'] || t == seq!['a', 'u', 'g', 'u', 's', 't'] {
        Some(8)
    } else if t == seq!['s', 'e', 'p'] || t == seq!['s', 'e', 'p', 't'] || t == seq!['s', 'e', 'p', 't', 'e', 'm', 'b', 'e', 'r'] {
        Some(9)
    } else if t == seq!['o', 'c', 't'] || t == seq!['o', 'c', 't', 'o', 'b', 'e', 'r'] {
        Some(10)
    } else if t == seq!['n', 'o', 'v'] || t == seq!['n', 'o', 'v', 'e', 'm', 'b', 'e', 'r'] {
        Some(11)
    } else if t == seq!['d', 'e', 'c'] || t == seq!['d', 'e', 'c', 'e', 'm', 'b', 'e', 'r'] {
        Some(12)
    } else {
        None
    }
}

pub fn month_index_of(t: &Vec<char>) -> (r: Option<u32>)
    ensures
        r == month_index(t@),
{
    if is_word(t, &['j', 'a', 'n']) || is_word(t, &['j', 'a', 'n', 'u', 'a', 'r', 'y']) {
        Some(1)
    } else if is_word(t, &['f', 'e', 'b']) || is_word(t, &['f', 'e', 'b', 'r', 'u', 'a', 'r', 'y']) {
        Some(2)
    } else if is_word(t, &['m', 'a', 'r']) || is_word(t, &['m', 'a', 'r', 'c', 'h']) {
        Some(3)
    } else if is_word(t, &['a', 'p', 'r']) || is_word(t, &['a', 'p', 'r', 'i', 'l']) {
        Some(4)
    } else if is_word(t, &['m', 'a', 'y']) {
        Some(5)
    } else if is_word(t, &['j', 'u', 'n']) || is_word(t, &['j', 'u', 'n', 'e']) {
        Some(6)
    } else if is_word(t, &['j', 'u', 'l']) || is_word(t, &['j', 'u', 'l', 'y']) {
        Some(7)
    } else if is_word(t, &['a', 'u', 'g']) || is_word(t, &['a', 'u', 'g', 'u', 's', 't']) {
        Some(8)
    } else if is_word(t, &['s', 'e', 'p']) || is_word(t, &['s', 'e', 'p', 't']) || is_word(t, &['s', 'e', 'p', 't', 'e', 'm', 'b', 'e', 'r']) {
        Some(9)
    } else if is_word(t, &['o', 'c', 't']) || is_word(t, &['o', 'c', 't', 'o', 'b', 'e', 'r']) {
        Some(10)
    } else if is_word(t, &['n', 'o', 'v']) || is_word(t, &['n', 'o', 'v', 'e', 'm', 'b', 'e', 'r']) {
        Some(11)
    } else if is_word(t, &['d', 'e', 'c']) || is_word(t, &['d', 'e', 'c', 'e', 'm', 'b', 'e', 'r']) {
        Some(12)
    } else {
        None
    }
}

/// Words that sit between a task and its details: 1 is `due`, 2 is `on`, 0 the rest.
pub open spec fn filler_kind(t: Seq<char>) -> Option<u32> {
    if t == seq!['d', 'u', 'e'] {
        Some(1)
    } else if t == seq!['o', 'n'] {
        Some(2)
    } else if t == seq!['a', 't'] || t == seq!['b', 'y'] || t == seq!['f', 'r', 'o', 'm'] {
        Some(0)
    } else {
        None
    }
}

pub fn filler_kind_of(t: &Vec<char>) -> (r: Option<u32>)
    ensures
        r == filler_kind(t@),
{
    if is_word(t, &['d', 'u', 'e']) {
        Some(1)
    } else if is_word(t, &['o', 'n']) {
        Some(2)
    } else if is_word(t, &['a', 't']) || is_word(t, &['b', 'y']) || is_word(t, &['f', 'r', 'o', 'm']) {
        Some(0)
    } else {
        None
    }
}

/// Single-word keywords: 0 `every`, 1 `daily`, 2 `monthly`, 3 `today`, 4 `tomorrow`.
pub open spec fn keyword(t: Seq<char>) -> Option<u32> {
    if t == seq!['e', 'v', 'e', 'r', 'y'] || t == seq!['w', 'e', 'e', 'k', 'l', 'y'] {
        Some(0)
    } else if t == seq!['d', 'a', 'i', 'l', 'y'] || t == seq!['e', 'v', 'e', 'r', 'y', 'd', 'a', 'y'] {
        Some(1)
    } else if t == seq!['m', 'o', 'n', 't', 'h', 'l', 'y'] {
        Some(2)
    } else if t == seq!['t', 'o', 'd', 'a', 'y'] {
        Some(3)
    } else if t == seq!['t', 'o', 'm', 'o', 'r', 'r', 'o', 'w'] {
        Some(4)
    } else {
        None
    }
}

pub fn keyword_of(t: &Vec<char>) -> (r: Option<u32>)
    ensures
        r == keyword(t@),
{
    if is_word(t, &['e', 'v', 'e', 'r', 'y']) || is_word(t, &['w', 'e', 'e', 'k', 'l', 'y']) {
        Some(0)
    } else if is_word(t, &['d', 'a', 'i', 'l', 'y']) || is_word(t, &['e', 'v', 'e', 'r', 'y', 'd', 'a', 'y']) {
        Some(1)
    } else if is_word(t, &['m', 'o', 'n', 't', 'h', 'l', 'y']) {
        Some(2)
    } else if is_word(t, &['t', 'o', 'd', 'a', 'y']) {
        Some(3)
    } else if is_word(t, &['t', 'o', 'm', 'o', 'r', 'r', 'o', 'w']) {
        Some(4)
    } else {
        None
    }
}

/// Times said in words, as minutes past midnight.
pub open spec fn clock_word(t: Seq<char>) -> Option<u32> {
    if t == seq!['n', 'o', 'o', 'n'] || t == seq!['m', 'i', 'd', 'd', 'a', 'y'] {
        Some(720)
    } else if t == seq!['m', 'i', 'd', 'n', 'i', 'g', 'h', 't'] {
        Some(0)
    } else {
        None
    }
}

pub fn clock_word_of(t: &Vec<char>) -> (r: Option<u32>)
    ensures
        r == clock_word(t@),
{
    if is_word(t, &['n', 'o', 'o', 'n']) || is_word(t, &['m', 'i', 'd', 'd', 'a', 'y']) {
        Some(720)
    } else if is_word(t, &['m', 'i', 'd', 'n', 'i', 'g', 'h', 't']) {
        Some(0)
    } else {
        None
    }
}

/// Tags that say where an item sits instead of what it is about.
pub open spec fn zone_marker(t: Seq<char>) -> Option<bool> {
    if t == seq!['f', 'i', 'x', 'e', 'd'] || t == seq!['p', 'i', 'n', 'n', 'e', 'd'] {
        Some(true)
    } else if t == seq!['f', 'l', 'o', 'a', 't', 'i', 'n', 'g'] || t == seq!['f', 'l', 'o', 'a', 't'] || t == seq!['s', 'y', 's', 't', 'i', 'm', 'e'] {
        Some(false)
    } else {
        None
    }
}

pub fn zone_marker_of(t: &Vec<char>) -> (r: Option<bool>)
    ensures
        r == zone_marker(t@),
{
    if is_word(t, &['f', 'i', 'x', 'e', 'd']) || is_word(t, &['p', 'i', 'n', 'n', 'e', 'd']) {
        Some(true)
    } else if is_word(t, &['f', 'l', 'o', 'a', 't', 'i', 'n', 'g']) || is_word(t, &['f', 'l', 'o', 'a', 't']) || is_word(t, &['s', 'y', 's', 't', 'i', 'm', 'e']) {
        Some(false)
    } else {
        None
    }
}

/// A meridiem written as its own word: 12 for the afternoon, 0 for the morning.
pub open spec fn meridiem(t: Seq<char>) -> Option<u32> {
    if t == seq!['p', 'm'] || t == seq!['p', '.', 'm', '.'] {
        Some(12)
    } else if t == seq!['a', 'm'] || t == seq!['a', '.', 'm', '.'] {
        Some(0)
    } else {
        None
    }
}

pub fn meridiem_of(t: &Vec<char>) -> (r: Option<u32>)
    ensures
        r == meridiem(t@),
{
    if is_word(t, &['p', 'm']) || is_word(t, &['p', '.', 'm', '.']) {
        Some(12)
    } else if is_word(t, &['a', 'm']) || is_word(t, &['a', '.', 'm', '.']) {
        Some(0)
    } else {
        None
    }
}

/// The four tags that are also colours.
pub open spec fn category_index(t: Seq<char>) -> Option<u32> {
    if t == seq!['w', 'o', 'r', 'k'] {
        Some(0)
    } else if t == seq!['l', 'i', 'f', 'e'] {
        Some(1)
    } else if t == seq!['b', 'o', 'd', 'y'] {
        Some(2)
    } else if t == seq!['s', 'o', 'c', 'i', 'a', 'l'] {
        Some(3)
    } else {
        None
    }
}

pub fn category_index_of(t: &Vec<char>) -> (r: Option<u32>)
    ensures
        r == category_index(t@),
{
    if is_word(t, &['w', 'o', 'r', 'k']) {
        Some(0)
    } else if is_word(t, &['l', 'i', 'f', 'e']) {
        Some(1)
    } else if is_word(t, &['b', 'o', 'd', 'y']) {
        Some(2)
    } else if is_word(t, &['s', 'o', 'c', 'i', 'a', 'l']) {
        Some(3)
    } else {
        None
    }
}

} // verus!
