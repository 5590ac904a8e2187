//! Characters, words and digits: the pieces every other module reads text with.
use vstd::prelude::*;

verus! {

/// `char::is_whitespace`: the Unicode White_Space property.
pub open spec fn is_ws(c: char) -> bool {
    ||| c == ' ' || c == '\t' || c == '\n' || c == '\r'
    ||| c == '\u{0B}' || c == '\u{0C}' || c == '\u{85}' || c == '\u{A0}'
    ||| c == '\u{1680}' || ('\u{2000}' <= c && c <= '\u{200A}')
    ||| c == '\u{2028}' || c == '\u{2029}' || c == '\u{202F}' || c == '\u{205F}'
    ||| c == '\u{3000}'
}

pub fn is_whitespace(c: char) -> (r: bool)
    ensures r == is_ws(c),
{
    c == ' ' || c == '\t' || c == '\n' || c == '\r' || c == '\u{0B}' || c == '\u{0C}'
        || c == '\u{85}' || c == '\u{A0}' || c == '\u{1680}' || ('\u{2000}' <= c && c
        <= '\u{200A}') || c == '\u{2028}' || c == '\u{2029}' || c == '\u{202F}' || c
        == '\u{205F}' || c == '\u{3000}'
}

/// ASCII lower-casing of one character; everything else is left alone.
pub open spec fn lower_char(c: char) -> char {
    if 'A' <= c && c <= 'Z' {
        ((c as u32) + 32) as char
    } else {
        c
    }
}

pub open spec fn lower(s: Seq<char>) -> Seq<char> {
    s.map_values(|c: char| lower_char(c))
}

pub fn to_lower_char(c: char) -> (r: char)
    ensures r == lower_char(c),
{
    if 'A' <= c && c <= 'Z' {
        ((c as u8) + 32) as char
    } else {
        c
    }
}


/// `String::push` from std: appends one character.
#[verifier::external_body]
pub(crate) fn push_char(s: &mut String, c: char)
    ensures
        final(s)@ == old(s)@.push(c),
{
    s.push(c);
}

/// The characters of a string, in order.
pub fn chars_of(s: &str) -> (r: Vec<char>)
    ensures
        r@ == s@,
{
    let n = s.unicode_len();
    let mut out: Vec<char> = Vec::new();
    let mut i: usize = 0;
    while i < n
        invariant
            n == s@.len(),
            i <= n,
            out@ == s@.subrange(0, i as int),
        decreases n - i,
    {
        out.push(s.get_char(i));
        i = i + 1;
    }
    out
}

/// A string holding exactly these characters.
pub fn string_of(v: &Vec<char>) -> (r: String)
    ensures
        r@ == v@,
{
    let mut out = String::new();
    let mut i: usize = 0;
    while i < v.len()
        invariant
            i <= v.len(),
            out@ == v@.subrange(0, i as int),
        decreases v.len() - i,
    {
        push_char(&mut out, v[i]);
        i = i + 1;
    }
    out
}

pub fn lower_vec(v: &Vec<char>) -> (r: Vec<char>)
    ensures
        r@ == lower(v@),
{
    let mut out: Vec<char> = Vec::new();
    let mut i: usize = 0;
    while i < v.len()
        invariant
            i <= v.len(),
            out@ == lower(v@.subrange(0, i as int)),
        decreases v.len() - i,
    {
        out.push(to_lower_char(v[i]));
        i = i + 1;
        assert(lower(v@.subrange(0, i as int)) =~= lower(v@.subrange(0, i - 1)).push(lower_char(v@[i - 1])));
    }
    assert(v@.subrange(0, v.len() as int) =~= v@);
    out
}

/// Words left to right, as `str::split_whitespace` yields them: the completed
/// words of the first `n` characters and the word still being read.
pub open spec fn split_acc(s: Seq<char>, n: nat) -> (Seq<Seq<char>>, Seq<char>)
    decreases n,
{
    if n == 0 {
        (Seq::empty(), Seq::empty())
    } else {
        let (ws, cur) = split_acc(s, (n - 1) as nat);
        let c = s[n - 1];
        if is_ws(c) {
            if cur.len() > 0 {
                (ws.push(cur), Seq::empty())
            } else {
                (ws, Seq::empty())
            }
        } else {
            (ws, cur.push(c))
        }
    }
}

/// A word as `words` gives one: not empty, and no whitespace in it.
pub open spec fn plain_word(w: Seq<char>) -> bool {
    w.len() > 0 && forall|i: int| 0 <= i < w.len() ==> !is_ws(#[trigger] w[i])
}

/// Reading the first `n` characters looks at nothing past them.
pub proof fn lemma_split_prefix(s: Seq<char>, t: Seq<char>, n: nat)
    requires
        n <= s.len(),
        n <= t.len(),
        forall|i: int| 0 <= i < n ==> s[i] == t[i],
    ensures
        split_acc(s, n) == split_acc(t, n),
    decreases n,
{
    if n > 0 {
        lemma_split_prefix(s, t, (n - 1) as nat);
    }
}

/// Reading a word's characters after a break builds it up as the current word.
pub proof fn lemma_split_word(s: Seq<char>, n: nat, w: Seq<char>, ws: Seq<Seq<char>>, i: nat)
    requires
        split_acc(s, n) == (ws, Seq::<char>::empty()),
        n + w.len() <= s.len(),
        i <= w.len(),
        forall|k: int| 0 <= k < w.len() ==> s[n + k] == w[k] && !is_ws(#[trigger] w[k]),
    ensures
        split_acc(s, n + i) == (ws, w.take(i as int)),
    decreases i,
{
    if i > 0 {
        lemma_split_word(s, n, w, ws, (i - 1) as nat);
        assert(s[n + i - 1] == w[i - 1]);
        assert(w.take((i - 1) as int).push(w[i - 1]) =~= w.take(i as int));
    } else {
        assert(w.take(0) =~= Seq::<char>::empty());
    }
}

/// Joining words with single spaces and splitting again gives the words back.
pub proof fn lemma_words_join(ws: Seq<Seq<char>>)
    requires
        forall|k: int| 0 <= k < ws.len() ==> plain_word(#[trigger] ws[k]),
    ensures
        words(join(ws)) == ws,
        ws.len() > 0 ==> split_acc(join(ws), join(ws).len()) == (ws.drop_last(), ws.last()),
    decreases ws.len(),
{
    if ws.len() == 1 {
        let w = ws[0];
        assert(plain_word(ws[0]));
        lemma_split_word(w, 0, w, Seq::empty(), w.len());
        assert(w.take(w.len() as int) =~= w);
        assert(ws.drop_last() =~= Seq::<Seq<char>>::empty());
        assert(Seq::<Seq<char>>::empty().push(w) =~= ws);
    } else if ws.len() > 1 {
        let init = ws.drop_last();
        let w = ws.last();
        assert(plain_word(ws[ws.len() - 1]));
        assert forall|k: int| 0 <= k < init.len() implies plain_word(#[trigger] init[k]) by {
            assert(init[k] == ws[k]);
        }
        lemma_words_join(init);
        let a = join(init);
        let s = join(ws);
        assert(s == a + seq![' '] + w);
        lemma_split_prefix(s, a, a.len());
        assert(plain_word(init[init.len() - 1]));
        assert(split_acc(s, (a.len() + 1) as nat) == (init.drop_last().push(init.last()), Seq::<char>::empty()));
        assert(init.drop_last().push(init.last()) =~= init);
        assert forall|k: int| 0 <= k < w.len() implies s[a.len() + 1 + k] == w[k] && !is_ws(#[trigger] w[k]) by {}
        lemma_split_word(s, (a.len() + 1) as nat, w, init, w.len());
        assert(w.take(w.len() as int) =~= w);
        assert(init.push(w) =~= ws);
    }
}

/// Joining two or more words puts the first in front, then a space.
pub proof fn lemma_join_front(ws: Seq<Seq<char>>)
    requires
        ws.len() >= 2,
    ensures
        join(ws) == ws[0] + seq![' '] + join(ws.drop_first()),
    decreases ws.len(),
{
    let dl = ws.drop_last();
    if ws.len() == 2 {
        assert(dl.len() == 1 && join(dl) == ws[0]);
        assert(ws.drop_first().len() == 1);
        assert(join(ws.drop_first()) == ws[1]);
    } else {
        lemma_join_front(dl);
        assert(dl[0] == ws[0]);
        assert(ws.drop_first().drop_last() =~= dl.drop_first());
        assert(ws.drop_first().last() == ws.last());
        assert(join(ws) =~= ws[0] + seq![' '] + join(ws.drop_first()));
    }
}

/// The leading run of `c`: how long it is, and what stops it.
pub proof fn lemma_lead_count_run(t: Seq<char>, c: char)
    ensures
        lead_count(t, c) <= t.len(),
        forall|j: int| 0 <= j < lead_count(t, c) ==> t[j] == c,
        lead_count(t, c) == t.len() || t[lead_count(t, c) as int] != c,
    decreases t.len(),
{
    if t.len() > 0 && t[0] == c {
        lemma_lead_count_run(t.drop_first(), c);
        assert forall|j: int| 0 <= j < lead_count(t, c) implies t[j] == c by {
            if j > 0 {
                assert(t[j] == t.drop_first()[j - 1]);
            }
        }
        if lead_count(t, c) < t.len() {
            assert(t[lead_count(t, c) as int] == t.drop_first()[lead_count(t, c) - 1]);
        }
    }
}

/// Every word `words` gives is a word.
pub proof fn lemma_words_are_words(s: Seq<char>)
    ensures
        forall|k: int| 0 <= k < words(s).len() ==> plain_word(#[trigger] words(s)[k]),
{
    lemma_split_acc_words(s, s.len());
    let (ws, cur) = split_acc(s, s.len());
    if cur.len() > 0 {
        assert forall|k: int| 0 <= k < words(s).len() implies plain_word(#[trigger] words(s)[k]) by {
            if k < ws.len() {
                assert(words(s)[k] == ws[k]);
            }
        }
    }
}

proof fn lemma_split_acc_words(s: Seq<char>, n: nat)
    requires
        n <= s.len(),
    ensures
        forall|k: int| 0 <= k < split_acc(s, n).0.len() ==> plain_word(#[trigger] split_acc(s, n).0[k]),
        forall|i: int| 0 <= i < split_acc(s, n).1.len() ==> !is_ws(#[trigger] split_acc(s, n).1[i]),
    decreases n,
{
    if n > 0 {
        lemma_split_acc_words(s, (n - 1) as nat);
        let (ws, cur) = split_acc(s, (n - 1) as nat);
        let (ws2, cur2) = split_acc(s, n);
        assert forall|k: int| 0 <= k < ws2.len() implies plain_word(#[trigger] ws2[k]) by {
            if k < ws.len() {
                assert(ws2[k] == ws[k]);
            } else {
                assert(ws2[k] == cur);
            }
        }
        assert forall|i: int| 0 <= i < cur2.len() implies !is_ws(#[trigger] cur2[i]) by {
            if i < cur.len() {
                assert(cur2[i] == cur[i]);
            }
        }
    }
}

pub open spec fn words(s: Seq<char>) -> Seq<Seq<char>> {
    let (ws, cur) = split_acc(s, s.len());
    if cur.len() > 0 {
        ws.push(cur)
    } else {
        ws
    }
}

pub fn split_words(s: &Vec<char>) -> (r: Vec<Vec<char>>)
    ensures
        r@.map_values(|w: Vec<char>| w@) == words(s@),
{
    let mut out: Vec<Vec<char>> = Vec::new();
    let mut cur: Vec<char> = Vec::new();
    let mut i: usize = 0;
    while i < s.len()
        invariant
            i <= s.len(),
            (out@.map_values(|w: Vec<char>| w@), cur@) == split_acc(s@, i as nat),
        decreases s.len() - i,
    {
        let c = s[i];
        if is_whitespace(c) {
            if cur.len() > 0 {
                let done = cur;
                cur = Vec::new();
                out.push(done);
                assert(out@.map_values(|w: Vec<char>| w@) =~= split_acc(s@, i as nat).0.push(done@));
            }
        } else {
            cur.push(c);
        }
        i = i + 1;
    }
    if cur.len() > 0 {
        let done = cur;
        out.push(done);
        assert(out@.map_values(|w: Vec<char>| w@) =~= split_acc(s@, s.len() as nat).0.push(done@));
    }
    out
}

/// Words joined by single spaces, as `[&str]::join(" ")`.
pub open spec fn join(ws: Seq<Seq<char>>) -> Seq<char>
    decreases ws.len(),
{
    if ws.len() == 0 {
        Seq::empty()
    } else if ws.len() == 1 {
        ws[0]
    } else {
        join(ws.drop_last()) + seq![' '] + ws.last()
    }
}

pub fn join_words(ws: &Vec<Vec<char>>, from: usize, to: usize) -> (r: Vec<char>)
    requires
        from <= to <= ws.len(),
    ensures
        r@ == join(ws@.map_values(|w: Vec<char>| w@).subrange(from as int, to as int)),
{
    let ghost all = ws@.map_values(|w: Vec<char>| w@);
    let mut out: Vec<char> = Vec::new();
    let mut i: usize = from;
    while i < to
        invariant
            from <= i <= to <= ws.len(),
            all == ws@.map_values(|w: Vec<char>| w@),
            out@ == join(all.subrange(from as int, i as int)),
        decreases to - i,
    {
        if i > from {
            out.push(' ');
        }
        let w = &ws[i];
        let mut j: usize = 0;
        let ghost before = out@;
        while j < w.len()
            invariant
                j <= w.len(),
                out@ == before + w@.subrange(0, j as int),
            decreases w.len() - j,
        {
            out.push(w[j]);
            j = j + 1;
        }
        proof {
            let part = all.subrange(from as int, i + 1);
            assert(part.drop_last() =~= all.subrange(from as int, i as int));
            assert(w@.subrange(0, w.len() as int) =~= w@);
            if i > from {
                assert(out@ =~= join(part.drop_last()) + seq![' '] + part.last());
            } else {
                assert(out@ =~= part[0]);
            }
        }
        i = i + 1;
    }
    out
}


/// Whether a word is exactly this literal.
pub fn is_word(w: &Vec<char>, lit: &[char]) -> (r: bool)
    ensures
        r == (w@ == lit@),
{
    if w.len() != lit.len() {
        return false;
    }
    let mut i: usize = 0;
    while i < w.len()
        invariant
            i <= w.len(),
            w.len() == lit@.len(),
            forall|j: int| 0 <= j < i ==> w@[j] == lit@[j],
        decreases w.len() - i,
    {
        if w[i] != lit[i] {
            return false;
        }
        i = i + 1;
    }
    assert(w@ =~= lit@);
    true
}

pub open spec fn ends_with(s: Seq<char>, suf: Seq<char>) -> bool {
    s.len() >= suf.len() && s.subrange(s.len() - suf.len(), s.len() as int) == suf
}

pub fn ends_with_lit(w: &Vec<char>, lit: &[char]) -> (r: bool)
    ensures
        r == ends_with(w@, lit@),
{
    if w.len() < lit.len() {
        return false;
    }
    let off = w.len() - lit.len();
    let mut i: usize = 0;
    while i < lit.len()
        invariant
            i <= lit.len(),
            off == w.len() - lit@.len(),
            forall|j: int| 0 <= j < i ==> w@[off + j] == lit@[j],
        decreases lit.len() - i,
    {
        if w[off + i] != lit[i] {
            assert(w@.subrange(off as int, w.len() as int)[i as int] == w@[off + i]);
            return false;
        }
        i = i + 1;
    }
    assert(w@.subrange(off as int, w.len() as int) =~= lit@);
    true
}

pub fn ends_with_one(w: &Vec<char>, c: char) -> (r: bool)
    ensures
        r == ends_with(w@, seq![c]),
{
    if w.len() == 0 {
        return false;
    }
    let last = w[w.len() - 1];
    assert(w@.subrange(w.len() - 1, w.len() as int)[0] == last);
    if last == c {
        assert(w@.subrange(w.len() - 1, w.len() as int) =~= seq![c]);
    }
    last == c
}

/// The characters `from..to` of a word.
pub fn slice_of(w: &Vec<char>, from: usize, to: usize) -> (r: Vec<char>)
    requires
        from <= to <= w.len(),
    ensures
        r@ == w@.subrange(from as int, to as int),
{
    let mut out: Vec<char> = Vec::new();
    let mut i: usize = from;
    while i < to
        invariant
            from <= i <= to <= w.len(),
            out@ == w@.subrange(from as int, i as int),
        decreases to - i,
    {
        out.push(w[i]);
        i = i + 1;
    }
    out
}

pub open spec fn has_char(s: Seq<char>, c: char) -> bool {
    exists|i: int| 0 <= i < s.len() && s[i] == c
}

pub fn contains_char(s: &Vec<char>, c: char) -> (r: bool)
    ensures
        r == has_char(s@, c),
{
    let mut i: usize = 0;
    while i < s.len()
        invariant
            i <= s.len(),
            forall|j: int| 0 <= j < i ==> s@[j] != c,
        decreases s.len() - i,
    {
        if s[i] == c {
            return true;
        }
        i = i + 1;
    }
    false
}

/// The pieces between separators, as `str::split(c)` yields them (empty pieces kept):
/// the completed pieces of the first `n` characters and the piece still being read.
pub open spec fn split_on_acc(s: Seq<char>, c: char, n: nat) -> (Seq<Seq<char>>, Seq<char>)
    decreases n,
{
    if n == 0 {
        (Seq::empty(), Seq::empty())
    } else {
        let (ps, cur) = split_on_acc(s, c, (n - 1) as nat);
        if s[n - 1] == c {
            (ps.push(cur), Seq::empty())
        } else {
            (ps, cur.push(s[n - 1]))
        }
    }
}

pub open spec fn split_on(s: Seq<char>, c: char) -> Seq<Seq<char>> {
    let (ps, cur) = split_on_acc(s, c, s.len());
    ps.push(cur)
}

pub fn split_chars(s: &Vec<char>, c: char) -> (r: Vec<Vec<char>>)
    ensures
        r@.map_values(|w: Vec<char>| w@) == split_on(s@, c),
{
    let mut out: Vec<Vec<char>> = Vec::new();
    let mut cur: Vec<char> = Vec::new();
    let mut i: usize = 0;
    while i < s.len()
        invariant
            i <= s.len(),
            (out@.map_values(|w: Vec<char>| w@), cur@) == split_on_acc(s@, c, i as nat),
        decreases s.len() - i,
    {
        if s[i] == c {
            let done = cur;
            cur = Vec::new();
            out.push(done);
            assert(out@.map_values(|w: Vec<char>| w@) =~= split_on_acc(s@, c, i as nat).0.push(done@));
        } else {
            cur.push(s[i]);
        }
        i = i + 1;
    }
    let done = cur;
    out.push(done);
    assert(out@.map_values(|w: Vec<char>| w@) =~= split_on_acc(s@, c, s.len() as nat).0.push(done@));
    out
}

pub open spec fn is_digit(c: char) -> bool {
    '0' <= c && c <= '9'
}

pub open spec fn all_digits(s: Seq<char>) -> bool {
    forall|i: int| 0 <= i < s.len() ==> is_digit(#[trigger] s[i])
}

/// The value of a run of decimal digits.
pub open spec fn digits_val(s: Seq<char>) -> nat
    decreases s.len(),
{
    if s.len() == 0 {
        0
    } else {
        digits_val(s.drop_last()) * 10 + ((s.last() as int) - ('0' as int)) as nat
    }
}

pub proof fn lemma_digits_prefix(s: Seq<char>, k: int)
    requires
        0 <= k <= s.len(),
        all_digits(s),
    ensures
        digits_val(s.subrange(0, k)) <= digits_val(s),
    decreases s.len() - k,
{
    if k < s.len() {
        lemma_digits_prefix(s, k + 1);
        let p = s.subrange(0, k + 1);
        assert(p.drop_last() =~= s.subrange(0, k));
        assert(is_digit(s[k]));
    } else {
        assert(s.subrange(0, k) =~= s);
    }
}

/// `str::parse::<u32>`: an optional `+`, then one or more digits, in range.
pub open spec fn parse_u32(s: Seq<char>) -> Option<u32> {
    let body = if s.len() > 0 && s[0] == '+' { s.drop_first() } else { s };
    if body.len() > 0 && all_digits(body) && digits_val(body) <= u32::MAX {
        Some(digits_val(body) as u32)
    } else {
        None
    }
}

/// Digits only, then the value if it fits.
pub fn digits_value(s: &Vec<char>, from: usize) -> (r: Option<u32>)
    requires
        from <= s.len(),
    ensures
        ({
            let body = s@.subrange(from as int, s.len() as int);
            r == (if all_digits(body) && digits_val(body) <= u32::MAX {
                Some(digits_val(body) as u32)
            } else {
                None
            })
        }),
{
    let ghost body = s@.subrange(from as int, s.len() as int);
    let mut acc: u64 = 0;
    let mut i: usize = from;
    while i < s.len()
        invariant
            from <= i <= s.len(),
            body == s@.subrange(from as int, s.len() as int),
            all_digits(s@.subrange(from as int, i as int)),
            acc == digits_val(s@.subrange(from as int, i as int)),
            acc <= u32::MAX,
        decreases s.len() - i,
    {
        let c = s[i];
        let ghost pre = s@.subrange(from as int, i as int);
        let ghost next = s@.subrange(from as int, i + 1);
        assert(next.drop_last() =~= pre);
        if !('0' <= c && c <= '9') {
            assert(body[i - from] == c);
            return None;
        }
        assert(all_digits(next));
        acc = acc * 10 + ((c as u32) - ('0' as u32)) as u64;
        assert(acc == digits_val(next));
        if acc > 0xffff_ffff {
            proof {
                if all_digits(body) {
                    assert(body.subrange(0, i + 1 - from) =~= next);
                    lemma_digits_prefix(body, i + 1 - from);
                }
            }
            return None;
        }
        i = i + 1;
    }
    assert(s@.subrange(from as int, s.len() as int) =~= body);
    Some(acc as u32)
}

pub fn parse_u32_of(s: &Vec<char>) -> (r: Option<u32>)
    ensures
        r == parse_u32(s@),
{
    let from: usize = if s.len() > 0 && s[0] == '+' { 1 } else { 0 };
    proof {
        if from == 1 {
            assert(s@.drop_first() =~= s@.subrange(1, s.len() as int));
        } else {
            assert(s@ =~= s@.subrange(0, s.len() as int));
        }
    }
    if from == s.len() {
        return None;
    }
    digits_value(s, from)
}


/// A string spelled by a literal.
pub fn string_from(lit: &[char]) -> (r: String)
    ensures
        r@ == lit@,
{
    let mut out = String::new();
    let mut i: usize = 0;
    while i < lit.len()
        invariant
            i <= lit.len(),
            out@ == lit@.subrange(0, i as int),
        decreases lit.len() - i,
    {
        push_char(&mut out, lit[i]);
        i = i + 1;
    }
    assert(lit@.subrange(0, lit.len() as int) =~= lit@);
    out
}

/// Words `from..to`, each as a string.
pub fn strings_of(ws: &Vec<Vec<char>>, from: usize, to: usize) -> (r: Vec<String>)
    requires
        from <= to <= ws.len(),
    ensures
        r@.map_values(|s: String| s@) == ws@.map_values(|w: Vec<char>| w@).subrange(
            from as int,
            to as int,
        ),
{
    let ghost all = ws@.map_values(|w: Vec<char>| w@);
    let mut out: Vec<String> = Vec::new();
    let mut i: usize = from;
    while i < to
        invariant
            from <= i <= to <= ws.len(),
            all == ws@.map_values(|w: Vec<char>| w@),
            out@.map_values(|s: String| s@) == all.subrange(from as int, i as int),
        decreases to - i,
    {
        let s = string_of(&ws[i]);
        assert(all[i as int] == ws@[i as int]@);
        let ghost prev = out@;
        let ghost sv = s@;
        out.push(s);
        assert(out@ == prev.push(s));
        assert(out@.map_values(|s: String| s@) =~= prev.map_values(|s: String| s@).push(sv));
        assert(all.subrange(from as int, i + 1) =~= all.subrange(from as int, i as int).push(all[i as int]));
        i = i + 1;
    }
    out
}

pub fn same_chars(a: &Vec<char>, b: &Vec<char>) -> (r: bool)
    ensures
        r == (a@ == b@),
{
    if a.len() != b.len() {
        return false;
    }
    let mut i: usize = 0;
    while i < a.len()
        invariant
            i <= a.len(),
            a.len() == b.len(),
            forall|j: int| 0 <= j < i ==> a@[j] == b@[j],
        decreases a.len() - i,
    {
        if a[i] != b[i] {
            return false;
        }
        i = i + 1;
    }
    assert(a@ =~= b@);
    true
}

pub open spec fn opt_str(o: Option<String>) -> Option<Seq<char>> {
    match o {
        Some(s) => Some(s@),
        None => None,
    }
}

pub open spec fn lead_ws(s: Seq<char>) -> nat
    decreases s.len(),
{
    if s.len() > 0 && is_ws(s[0]) {
        1 + lead_ws(s.drop_first())
    } else {
        0
    }
}

pub proof fn lemma_lead_ws(t: Seq<char>, i: int)
    requires
        0 <= i <= t.len(),
        forall|j: int| 0 <= j < i ==> is_ws(t[j]),
        i == t.len() || !is_ws(t[i]),
    ensures
        lead_ws(t) == i,
    decreases i,
{
    if i > 0 {
        let d = t.drop_first();
        assert forall|j: int| 0 <= j < i - 1 implies is_ws(d[j]) by {
            assert(d[j] == t[j + 1]);
        }
        if i - 1 < d.len() {
            assert(d[i - 1] == t[i]);
        }
        lemma_lead_ws(d, i - 1);
    }
}

pub open spec fn trail_ws(s: Seq<char>) -> nat
    decreases s.len(),
{
    if s.len() > 0 && is_ws(s.last()) {
        1 + trail_ws(s.drop_last())
    } else {
        0
    }
}

/// `str::trim`: without leading and trailing whitespace.
pub open spec fn trim(s: Seq<char>) -> Seq<char> {
    let a = s.skip(lead_ws(s) as int);
    a.subrange(0, a.len() - trail_ws(a))
}

pub proof fn lemma_trail_ws(t: Seq<char>, i: int)
    requires
        0 <= i <= t.len(),
        forall|j: int| t.len() - i <= j < t.len() ==> is_ws(t[j]),
        i == t.len() || !is_ws(t[t.len() - i - 1]),
    ensures
        trail_ws(t) == i,
    decreases i,
{
    if i > 0 {
        let d = t.drop_last();
        assert forall|j: int| d.len() - (i - 1) <= j < d.len() implies is_ws(d[j]) by {
            assert(d[j] == t[j]);
        }
        if i - 1 < d.len() {
            assert(d[d.len() - (i - 1) - 1] == t[t.len() - i - 1]);
        }
        lemma_trail_ws(d, i - 1);
    }
}

pub fn trim_chars(s: &Vec<char>) -> (r: Vec<char>)
    ensures
        r@ == trim(s@),
{
    let mut i: usize = 0;
    while i < s.len() && is_whitespace(s[i])
        invariant
            i <= s.len(),
            forall|j: int| 0 <= j < i ==> is_ws(s@[j]),
        decreases s.len() - i,
    {
        i = i + 1;
    }
    proof { lemma_lead_ws(s@, i as int); }
    let a = slice_of(s, i, s.len());
    assert(a@ =~= s@.skip(i as int));
    let mut k: usize = 0;
    while k < a.len() && is_whitespace(a[a.len() - 1 - k])
        invariant
            k <= a.len(),
            forall|j: int| a.len() - k <= j < a.len() ==> is_ws(a@[j]),
        decreases a.len() - k,
    {
        k = k + 1;
    }
    proof { lemma_trail_ws(a@, k as int); }
    slice_of(&a, 0, a.len() - k)
}

/// Nothing but whitespace.
pub fn is_blank(s: &str) -> (r: bool)
    ensures
        r == (trim(s@).len() == 0),
{
    trim_chars(&chars_of(s)).len() == 0
}


pub open spec fn lead_count(s: Seq<char>, c: char) -> nat
    decreases s.len(),
{
    if s.len() > 0 && s[0] == c {
        1 + lead_count(s.drop_first(), c)
    } else {
        0
    }
}

pub proof fn lemma_lead_count(t: Seq<char>, c: char, i: int)
    requires
        0 <= i <= t.len(),
        forall|j: int| 0 <= j < i ==> t[j] == c,
        i == t.len() || t[i] != c,
    ensures
        lead_count(t, c) == i,
    decreases i,
{
    if i > 0 {
        let d = t.drop_first();
        assert forall|j: int| 0 <= j < i - 1 implies d[j] == c by {
            assert(d[j] == t[j + 1]);
        }
        if i - 1 < d.len() {
            assert(d[i - 1] == t[i]);
        }
        lemma_lead_count(d, c, i - 1);
    }
}

/// How many times `c` starts the word.
pub fn lead_count_of(t: &Vec<char>, c: char) -> (r: usize)
    ensures
        r == lead_count(t@, c),
        r <= t.len(),
{
    let mut i: usize = 0;
    while i < t.len() && t[i] == c
        invariant
            i <= t.len(),
            forall|j: int| 0 <= j < i ==> t@[j] == c,
        decreases t.len() - i,
    {
        i = i + 1;
    }
    proof { lemma_lead_count(t@, c, i as int); }
    i
}

} // verus!
