//! Turning fields back into a line of the capture grammar: the inverse of
//! `parse`. Nothing composed here reaches the store directly; the line goes
//! through the same path as anything typed by hand.
use vstd::prelude::*;
use crate::calendar::{Date, Time};
use crate::clock::{digit, two_digits};
use crate::text::{
    all_digits, digits_val, has_char, is_digit, split_on_acc, push_char, chars_of, trim, trim_chars, lead_count_of, lead_count, opt_str, join, string_of,
};

verus! {

#[derive(Clone, Copy, Debug, PartialEq, Eq, Default, Structural)]
pub enum Kind {
    /// A deadline: says "due", lands in the list.
    #[default]
    Task,
    /// Says "on": takes an hour on the week, and stays tickable.
    Block,
}

#[derive(Clone, Debug, PartialEq, Eq, Default)]
pub struct Fields {
    pub title: String,
    pub priority: bool,
    /// Weekday codes as the parser spells them: `mon`, `tue`, ...
    pub repeat: Vec<String>,
    /// Once a month, on the day of `date` (or of today).
    pub monthly: bool,
    pub kind: Kind,
    pub date: Option<Date>,
    pub at: Option<Time>,
    /// Present only with `at`; together they make a range.
    pub span_end: Option<Time>,
    pub estimate_min: Option<u32>,
    pub tag: Option<String>,
    pub place: Option<String>,
}

pub struct FieldsV {
    pub title: Seq<char>,
    pub priority: bool,
    pub repeat: Seq<Seq<char>>,
    pub monthly: bool,
    pub kind: Kind,
    pub date: Option<Date>,
    pub at: Option<Time>,
    pub span_end: Option<Time>,
    pub estimate_min: Option<u32>,
    pub tag: Option<Seq<char>>,
    pub place: Option<Seq<char>>,
}

impl View for Fields {
    type V = FieldsV;

    open spec fn view(&self) -> FieldsV {
        FieldsV {
            title: self.title@,
            priority: self.priority,
            repeat: self.repeat@.map_values(|s: String| s@),
            monthly: self.monthly,
            kind: self.kind,
            date: self.date,
            at: self.at,
            span_end: self.span_end,
            estimate_min: self.estimate_min,
            tag: opt_str(self.tag),
            place: opt_str(self.place),
        }
    }
}

/// Decimal digits of a number, as `u32`'s `Display` writes them.
pub open spec fn dec(n: nat) -> Seq<char>
    decreases n,
{
    if n < 10 {
        seq![digit(n as int)]
    } else {
        dec(n / 10).push(digit((n % 10) as int))
    }
}

pub fn dec_of(n: u32) -> (r: Vec<char>)
    ensures
        r@ == dec(n as nat),
    decreases n,
{
    if n < 10 {
        let mut v: Vec<char> = Vec::new();
        v.push(((n + 48) as u8) as char);
        assert(v@ =~= seq![digit(n as int)]);
        v
    } else {
        let mut v = dec_of(n / 10);
        v.push((((n % 10) + 48) as u8) as char);
        v
    }
}

/// `%H:%M`.
pub open spec fn hhmm(t: Time) -> Seq<char> {
    two_digits(t.hour as int) + seq![':'] + two_digits(t.minute as int)
}

/// Whole hours read as hours, everything else as minutes: one spelling per value.
pub open spec fn estimate_text(m: u32) -> Seq<char> {
    if m >= 60 && m % 60 == 0 {
        seq!['~'] + dec((m / 60) as nat) + seq!['h']
    } else {
        seq!['~'] + dec(m as nat) + seq!['m']
    }
}

/// `%d/%m/%Y` as chrono formats a date.
pub uninterp spec fn date_dmy(y: i32, m: u32, d: u32) -> Seq<char>;

/// `NaiveDate::format("%d/%m/%Y")`: day and month zero-padded to two digits and
/// the year to four; a year outside 0..=9999 is written as chrono writes it.
#[verifier::external_body]
pub(crate) fn format_dmy(d: &Date) -> (r: String)
    requires
        d.wf(),
    ensures
        r@ == date_dmy(d.year, d.month, d.day),
        0 <= d.year <= 9999 ==> r@ == two_digits(d.day as int) + seq!['/'] + two_digits(
            d.month as int,
        ) + seq!['/'] + two_digits((d.year / 100) as int) + two_digits((d.year % 100) as int),
{
    chrono::NaiveDate::from_ymd_opt(d.year, d.month, d.day).unwrap().format("%d/%m/%Y").to_string()
}

/// Append a space and a piece, unless the piece is empty.
pub open spec fn push_piece(out: Seq<char>, s: Seq<char>) -> Seq<char> {
    if s.len() > 0 {
        out + seq![' '] + s
    } else {
        out
    }
}

/// A tag or place, trimmed, with its marker written once.
pub open spec fn marked(o: Option<Seq<char>>, c: char) -> Seq<char> {
    match o {
        None => Seq::empty(),
        Some(s) => {
            let t = trim(s);
            if t.len() == 0 {
                Seq::empty()
            } else {
                seq![c] + t.skip(lead_count(t, c) as int)
            }
        },
    }
}

/// The opening: the priority marker, then the trimmed title.
pub open spec fn head(f: FieldsV) -> Seq<char> {
    (if f.priority { seq!['!', '!', ' '] } else { Seq::empty() }) + trim(f.title)
}

/// The word that says how the date is meant: the repeat, `monthly`, `due` or `on`.
pub open spec fn kind_piece(f: FieldsV) -> Seq<char> {
    if f.repeat.len() > 0 {
        seq!['e', 'v', 'e', 'r', 'y', ' '] + join(f.repeat)
    } else if f.monthly {
        seq!['m', 'o', 'n', 't', 'h', 'l', 'y']
    } else if f.date is Some {
        match f.kind {
            Kind::Task => seq!['d', 'u', 'e'],
            Kind::Block => seq!['o', 'n'],
        }
    } else {
        Seq::empty()
    }
}

/// The date, day first, unless a weekly repeat leaves no single date.
pub open spec fn date_piece(f: FieldsV) -> Seq<char> {
    match f.date {
        Some(d) => if f.repeat.len() == 0 {
            date_dmy(d.year, d.month, d.day)
        } else {
            Seq::empty()
        },
        None => Seq::empty(),
    }
}

/// The time, or the range when an end is given.
pub open spec fn time_piece(f: FieldsV) -> Seq<char> {
    match f.at {
        Some(a) => match f.span_end {
            Some(e) => hhmm(a) + seq!['-'] + hhmm(e),
            None => hhmm(a),
        },
        None => Seq::empty(),
    }
}

pub open spec fn estimate_piece(f: FieldsV) -> Seq<char> {
    match f.estimate_min {
        Some(m) => estimate_text(m),
        None => Seq::empty(),
    }
}

/// The line the parser will read back as these fields: the pieces in a fixed
/// order, each after one space, the empty ones left out.
pub open spec fn line_view(f: FieldsV) -> Seq<char> {
    let s1 = push_piece(head(f), kind_piece(f));
    let s2 = push_piece(s1, date_piece(f));
    let s3 = push_piece(s2, time_piece(f));
    let s4 = push_piece(s3, estimate_piece(f));
    let s5 = push_piece(s4, marked(f.tag, '#'));
    push_piece(s5, marked(f.place, '@'))
}

fn push_all(out: &mut String, v: &Vec<char>)
    ensures
        final(out)@ == old(out)@ + v@,
{
    let ghost start = out@;
    let mut i: usize = 0;
    while i < v.len()
        invariant
            i <= v.len(),
            out@ == start + v@.subrange(0, i as int),
        decreases v.len() - i,
    {
        push_char(out, v[i]);
        i = i + 1;
        assert(start + v@.subrange(0, i as int) =~= (start + v@.subrange(0, i - 1)).push(v@[i - 1]));
    }
    assert(v@.subrange(0, v.len() as int) =~= v@);
}

fn push_piece_of(out: &mut String, v: &Vec<char>)
    ensures
        final(out)@ == push_piece(old(out)@, v@),
{
    if v.len() > 0 {
        push_char(out, ' ');
        push_all(out, v);
    }
}

fn lit(l: &[char]) -> (r: Vec<char>)
    ensures
        r@ == l@,
{
    let mut v: Vec<char> = Vec::new();
    let mut i: usize = 0;
    while i < l.len()
        invariant
            i <= l.len(),
            v@ == l@.subrange(0, i as int),
        decreases l.len() - i,
    {
        v.push(l[i]);
        i = i + 1;
    }
    assert(l@.subrange(0, l.len() as int) =~= l@);
    v
}

pub fn two_of(n: u32) -> (r: Vec<char>)
    requires
        n < 100,
    ensures
        r@ == two_digits(n as int),
{
    let mut v: Vec<char> = Vec::new();
    v.push(((n / 10 + 48) as u8) as char);
    v.push(((n % 10 + 48) as u8) as char);
    assert(v@ =~= two_digits(n as int));
    v
}

pub fn hhmm_of(t: Time) -> (r: Vec<char>)
    requires
        t.wf(),
    ensures
        r@ == hhmm(t),
{
    let mut v = two_of(t.hour);
    v.push(':');
    let m = two_of(t.minute);
    let ghost before = v@;
    let mut i: usize = 0;
    while i < m.len()
        invariant
            i <= m.len(),
            v@ == before + m@.subrange(0, i as int),
        decreases m.len() - i,
    {
        v.push(m[i]);
        i = i + 1;
        assert(before + m@.subrange(0, i as int) =~= (before + m@.subrange(0, i - 1)).push(m@[i - 1]));
    }
    assert(m@.subrange(0, m.len() as int) =~= m@);
    v
}

fn marked_of(o: &Option<String>, c: char) -> (r: Vec<char>)
    ensures
        r@ == marked(opt_str(*o), c),
{
    match o {
        None => Vec::new(),
        Some(s) => {
            let t = trim_chars(&chars_of(s.as_str()));
            if t.len() == 0 {
                return Vec::new();
            }
            let k = lead_count_of(&t, c);
            let mut v: Vec<char> = Vec::new();
            v.push(c);
            let ghost before = v@;
            let mut i: usize = k;
            while i < t.len()
                invariant
                    k <= i <= t.len(),
                    v@ == before + t@.subrange(k as int, i as int),
                decreases t.len() - i,
            {
                v.push(t[i]);
                i = i + 1;
                assert(before + t@.subrange(k as int, i as int) =~= (before + t@.subrange(k as int, i - 1)).push(t@[i - 1]));
            }
            assert(t@.subrange(k as int, t.len() as int) =~= t@.skip(k as int));
            assert(before =~= seq![c]);
            v
        },
    }
}

fn append(v: &mut Vec<char>, w: &Vec<char>)
    ensures
        final(v)@ == old(v)@ + w@,
{
    let ghost start = v@;
    let mut i: usize = 0;
    while i < w.len()
        invariant
            i <= w.len(),
            v@ == start + w@.subrange(0, i as int),
        decreases w.len() - i,
    {
        v.push(w[i]);
        i = i + 1;
        assert(start + w@.subrange(0, i as int) =~= (start + w@.subrange(0, i - 1)).push(w@[i - 1]));
    }
    assert(w@.subrange(0, w.len() as int) =~= w@);
}

fn kind_piece_of(f: &Fields) -> (r: Vec<char>)
    ensures
        r@ == kind_piece(f@),
{
    if f.repeat.len() > 0 {
        let mut words: Vec<Vec<char>> = Vec::new();
        let mut i: usize = 0;
        while i < f.repeat.len()
            invariant
                i <= f.repeat.len(),
                words@.map_values(|w: Vec<char>| w@) == f@.repeat.subrange(0, i as int),
            decreases f.repeat.len() - i,
        {
            let w = chars_of(f.repeat[i].as_str());
            let ghost wv = words@.map_values(|w: Vec<char>| w@);
            let ghost w_v = w@;
            words.push(w);
            assert(words@.map_values(|w: Vec<char>| w@) =~= wv.push(w_v));
            assert(f@.repeat.subrange(0, i + 1) =~= f@.repeat.subrange(0, i as int).push(f.repeat@[i as int]@));
            i = i + 1;
        }
        let joined = crate::text::join_words(&words, 0, words.len());
        assert(words@.map_values(|w: Vec<char>| w@).subrange(0, words.len() as int) =~= f@.repeat);
        let mut piece = lit(&['e', 'v', 'e', 'r', 'y', ' ']);
        append(&mut piece, &joined);
        piece
    } else if f.monthly {
        lit(&['m', 'o', 'n', 't', 'h', 'l', 'y'])
    } else if f.date.is_some() {
        match f.kind {
            Kind::Task => lit(&['d', 'u', 'e']),
            Kind::Block => lit(&['o', 'n']),
        }
    } else {
        Vec::new()
    }
}

fn date_piece_of(f: &Fields) -> (r: Vec<char>)
    requires
        f.date matches Some(d) ==> d.wf(),
    ensures
        r@ == date_piece(f@),
{
    match &f.date {
        Some(d) => if f.repeat.len() == 0 {
            let s = format_dmy(d);
            chars_of(s.as_str())
        } else {
            Vec::new()
        },
        None => Vec::new(),
    }
}

fn time_piece_of(f: &Fields) -> (r: Vec<char>)
    requires
        f.at matches Some(a) ==> a.wf(),
        f.span_end matches Some(e) ==> e.wf(),
    ensures
        r@ == time_piece(f@),
{
    match f.at {
        Some(a) => match f.span_end {
            Some(e) => {
                let mut piece = hhmm_of(a);
                piece.push('-');
                append(&mut piece, &hhmm_of(e));
                piece
            },
            None => hhmm_of(a),
        },
        None => Vec::new(),
    }
}

fn estimate_piece_of(f: &Fields) -> (r: Vec<char>)
    ensures
        r@ == estimate_piece(f@),
{
    match f.estimate_min {
        Some(m) => {
            let mut piece: Vec<char> = Vec::new();
            piece.push('~');
            let (n, unit) = if m >= 60 && m % 60 == 0 { (m / 60, 'h') } else { (m, 'm') };
            append(&mut piece, &dec_of(n));
            piece.push(unit);
            assert(piece@ =~= estimate_text(m));
            piece
        },
        None => Vec::new(),
    }
}

/// Build a line the parser will read back as these fields.
#[verifier::rlimit(40)]
pub fn line(f: &Fields) -> (r: String)
    requires
        f.date matches Some(d) ==> d.wf(),
        f.at matches Some(a) ==> a.wf(),
        f.span_end matches Some(e) ==> e.wf(),
    ensures
        r@ == line_view(f@),
{
    let mut out = String::new();
    if f.priority {
        push_char(&mut out, '!');
        push_char(&mut out, '!');
        push_char(&mut out, ' ');
    }
    let title = trim_chars(&chars_of(f.title.as_str()));
    push_all(&mut out, &title);
    assert(out@ =~= head(f@));
    push_piece_of(&mut out, &kind_piece_of(f));
    push_piece_of(&mut out, &date_piece_of(f));
    push_piece_of(&mut out, &time_piece_of(f));
    push_piece_of(&mut out, &estimate_piece_of(f));
    push_piece_of(&mut out, &marked_of(&f.tag, '#'));
    push_piece_of(&mut out, &marked_of(&f.place, '@'));
    out
}

/// A number written out is digits that read back as the number.
pub proof fn lemma_dec_reads_back(n: nat)
    ensures
        dec(n).len() > 0,
        all_digits(dec(n)),
        digits_val(dec(n)) == n,
        !has_char(dec(n), '.'),
    decreases n,
{
    if n < 10 {
        let s = dec(n);
        assert(s.drop_last() =~= Seq::<char>::empty());
        assert((digit(n as int) as int) == n + 48);
        assert(digits_val(Seq::<char>::empty()) == 0);
        assert(s.last() == digit(n as int));
        assert(digits_val(s) == digits_val(s.drop_last()) * 10 + ((s.last() as int) - ('0' as int)) as nat);
        if has_char(s, '.') {
            let k = choose|k: int| 0 <= k < s.len() && s[k] == '.';
            assert(s[k] == digit(n as int));
        }
    } else {
        lemma_dec_reads_back(n / 10);
        let s = dec(n);
        assert(s.drop_last() =~= dec(n / 10));
        assert((digit((n % 10) as int) as int) == (n % 10) + 48);
        assert(s.last() == digit((n % 10) as int));
        assert(digits_val(s) == digits_val(s.drop_last()) * 10 + ((s.last() as int) - ('0' as int)) as nat);
        assert forall|i: int| 0 <= i < s.len() implies is_digit(#[trigger] s[i]) by {
            if i < s.len() - 1 {
                assert(s[i] == dec(n / 10)[i]);
            }
        }
        if has_char(s, '.') {
            let k = choose|k: int| 0 <= k < s.len() && s[k] == '.';
            if k < s.len() - 1 {
                assert(s[k] == dec(n / 10)[k]);
            }
        }
    }
}

proof fn lemma_split_without(s: Seq<char>, c: char, n: nat)
    requires
        n <= s.len(),
        !has_char(s, c),
    ensures
        split_on_acc(s, c, n) == (Seq::<Seq<char>>::empty(), s.take(n as int)),
    decreases n,
{
    if n > 0 {
        lemma_split_without(s, c, (n - 1) as nat);
        assert(s[n - 1] != c);
        assert(s.take(n - 1).push(s[n - 1]) =~= s.take(n as int));
    }
}

/// An estimate the composer writes reads back as the same number of minutes:
/// whole hours as `~2h`, anything else as `~90m`.
pub proof fn law_estimate_reads_back(m: u32)
    requires
        m > 0,
    ensures
        crate::grammar::estimate_of(estimate_text(m)) == Some(m),
{
    let t = estimate_text(m);
    if m >= 60 && m % 60 == 0 {
        let h = (m / 60) as nat;
        lemma_dec_reads_back(h);
        let ds = dec(h);
        assert(t.drop_first() =~= ds.push('h'));
        assert(t.drop_first().drop_last() =~= ds);
        lemma_split_without(ds, '.', ds.len());
        assert(ds.take(ds.len() as int) =~= ds);
        assert(crate::text::split_on(ds, '.') =~= seq![ds]);
        assert(is_digit(ds[0]));
        assert(crate::grammar::pow10(0) == 1);
        assert(all_digits(Seq::<char>::empty()));
        assert(digits_val(Seq::<char>::empty()) == 0);
        assert(h > 0);
        assert(60 * h == m);
        assert(ds[0] != '+');
        let parts = crate::text::split_on(ds, '.');
        assert(parts.len() == 1 && parts[0] == ds);
        assert(crate::grammar::pow10(Seq::<char>::empty().len()) == 1);
        assert(digits_val(ds) == h);
        assert((120 * 0 + 1) / (2 * 1) == 0int) by (nonlinear_arith);
        let mins = 60 * digits_val(ds) + (120 * digits_val(Seq::<char>::empty()) + 1) / (2 * 1);
        assert(mins == m);
        assert(crate::grammar::hours_of(ds) == Some(m));
        assert(t.len() >= 2 && t[0] == '~');
        assert(t.drop_first().last() == 'h');
    } else {
        lemma_dec_reads_back(m as nat);
        let ds = dec(m as nat);
        assert(t.drop_first() =~= ds.push('m'));
        assert(t.drop_first().drop_last() =~= ds);
        assert(is_digit(ds[0]));
        assert(crate::text::parse_u32(ds) == Some(m));
        assert(t.len() >= 2 && t[0] == '~');
        assert(t.drop_first().last() == 'm');
    }
}

/// Two pieces with a separator between them, neither holding it, split back
/// into those two pieces.
proof fn lemma_split_two(a: Seq<char>, b: Seq<char>, c: char)
    requires
        !has_char(a, c),
        !has_char(b, c),
    ensures
        crate::text::split_on(a + seq![c] + b, c) == seq![a, b],
{
    let s = a + seq![c] + b;
    assert(s.take(a.len() as int) =~= a);
    assert forall|n: nat| n <= a.len() implies #[trigger] split_on_acc(s, c, n) == (
    Seq::<Seq<char>>::empty(),
    a.take(n as int),
    ) by {
        lemma_split_prefix(s, a, c, n);
    }
    assert(a.take(a.len() as int) =~= a);
    assert(s[a.len() as int] == c);
    assert(split_on_acc(s, c, a.len()) == (Seq::<Seq<char>>::empty(), a));
    assert(Seq::<Seq<char>>::empty().push(a) =~= seq![a]);
    assert(split_on_acc(s, c, (a.len() + 1) as nat) == (seq![a], Seq::<char>::empty()));
    lemma_split_rest(s, a, b, c, b.len() as nat);
    assert(b.take(b.len() as int) =~= b);
    assert(s.len() == a.len() + 1 + b.len());
    assert(seq![a].push(b) =~= seq![a, b]);
}

proof fn lemma_split_prefix(s: Seq<char>, a: Seq<char>, c: char, n: nat)
    requires
        n <= a.len() <= s.len(),
        a == s.take(a.len() as int),
        !has_char(a, c),
    ensures
        split_on_acc(s, c, n) == (Seq::<Seq<char>>::empty(), a.take(n as int)),
    decreases n,
{
    if n > 0 {
        lemma_split_prefix(s, a, c, (n - 1) as nat);
        assert(s[n - 1] == a[n - 1]);
        assert(a[n - 1] != c);
        assert(a.take(n - 1).push(a[n - 1]) =~= a.take(n as int));
    }
}

proof fn lemma_split_rest(s: Seq<char>, a: Seq<char>, b: Seq<char>, c: char, k: nat)
    requires
        s == a + seq![c] + b,
        k <= b.len(),
        !has_char(b, c),
        split_on_acc(s, c, (a.len() + 1) as nat) == (seq![a], Seq::<char>::empty()),
    ensures
        split_on_acc(s, c, (a.len() + 1 + k) as nat) == (seq![a], b.take(k as int)),
    decreases k,
{
    if k > 0 {
        lemma_split_rest(s, a, b, c, (k - 1) as nat);
        assert(s[(a.len() + k) as int] == b[k - 1]);
        assert(b[k - 1] != c);
        assert(b.take(k - 1).push(b[k - 1]) =~= b.take(k as int));
    } else {
        assert(b.take(0) =~= Seq::<char>::empty());
    }
}

/// Two digits, zero-padded, read back as the number below a hundred.
proof fn lemma_two_digits(n: int)
    requires
        0 <= n < 100,
    ensures
        crate::text::parse_u32(two_digits(n)) == Some(n as u32),
        !has_char(two_digits(n), ':'),
        !has_char(two_digits(n), '-'),
        is_digit(two_digits(n).last()),
{
    let s = two_digits(n);
    assert((digit(n / 10) as int) == n / 10 + 48);
    assert((digit(n % 10) as int) == n % 10 + 48);
    assert(s.drop_last() =~= seq![digit(n / 10)]);
    assert(s.drop_last().drop_last() =~= Seq::<char>::empty());
    assert(digits_val(Seq::<char>::empty()) == 0);
    assert(digits_val(s.drop_last()) == n / 10);
    assert(digits_val(s) == n);
    assert(all_digits(s)) by {
        assert forall|i: int| 0 <= i < s.len() implies is_digit(#[trigger] s[i]) by {}
    }
    if has_char(s, ':') {
        let k = choose|k: int| 0 <= k < s.len() && s[k] == ':';
    }
    if has_char(s, '-') {
        let k = choose|k: int| 0 <= k < s.len() && s[k] == '-';
    }
}

proof fn lemma_hhmm(t: Time)
    requires
        t.wf(),
    ensures
        crate::grammar::time_of(hhmm(t)) == Some(t),
        !has_char(hhmm(t), '-'),
{
    let (a, b) = (two_digits(t.hour as int), two_digits(t.minute as int));
    lemma_two_digits(t.hour as int);
    lemma_two_digits(t.minute as int);
    let s = hhmm(t);
    assert(s =~= a + seq![':'] + b);
    lemma_split_two(a, b, ':');
    let last = s.last();
    assert(last == b.last());
    assert(is_digit(last));
    assert(!crate::text::ends_with(s, seq!['p', '.', 'm', '.'])) by {
        if crate::text::ends_with(s, seq!['p', '.', 'm', '.']) {
            assert(s.subrange(s.len() - 4, s.len() as int)[3] == last);
        }
    }
    assert(!crate::text::ends_with(s, seq!['p', 'm'])) by {
        if crate::text::ends_with(s, seq!['p', 'm']) {
            assert(s.subrange(s.len() - 2, s.len() as int)[1] == last);
        }
    }
    assert(!crate::text::ends_with(s, seq!['p'])) by {
        if crate::text::ends_with(s, seq!['p']) {
            assert(s.subrange(s.len() - 1, s.len() as int)[0] == last);
        }
    }
    assert(!crate::text::ends_with(s, seq!['a', '.', 'm', '.'])) by {
        if crate::text::ends_with(s, seq!['a', '.', 'm', '.']) {
            assert(s.subrange(s.len() - 4, s.len() as int)[3] == last);
        }
    }
    assert(!crate::text::ends_with(s, seq!['a', 'm'])) by {
        if crate::text::ends_with(s, seq!['a', 'm']) {
            assert(s.subrange(s.len() - 2, s.len() as int)[1] == last);
        }
    }
    assert(!crate::text::ends_with(s, seq!['a'])) by {
        if crate::text::ends_with(s, seq!['a']) {
            assert(s.subrange(s.len() - 1, s.len() as int)[0] == last);
        }
    }
    if has_char(s, '-') {
        let k = choose|k: int| 0 <= k < s.len() && s[k] == '-';
        if k < a.len() {
            assert(s[k] == a[k]);
        } else if k > a.len() {
            assert(s[k] == b[k - a.len() - 1]);
        }
    }
}

/// A time the composer writes, `HH:MM`, reads back as that time.
pub proof fn law_time_reads_back(t: Time)
    requires
        t.wf(),
    ensures
        crate::grammar::time_of(hhmm(t)) == Some(t),
{
    lemma_hhmm(t);
}

/// A range the composer writes, `HH:MM-HH:MM`, reads back as that range.
pub proof fn law_range_reads_back(a: Time, b: Time)
    requires
        a.wf(),
        b.wf(),
    ensures
        crate::grammar::span_of(hhmm(a) + seq!['-'] + hhmm(b)) == Some((a, b)),
{
    let (x, y) = (hhmm(a), hhmm(b));
    lemma_hhmm(a);
    lemma_hhmm(b);
    lemma_split_two(x, y, '-');
    let parts = crate::text::split_on(x + seq!['-'] + y, '-');
    assert(parts.len() == 2 && parts[0] == x && parts[1] == y);
}


/// An hour from 1 to 12 as `time12` writes it reads back as that number, and
/// holds no colon.
proof fn lemma_num_reads_back(n: int)
    requires
        1 <= n <= 12,
    ensures
        crate::text::parse_u32(crate::clock::num(n)) == Some(n as u32),
        !has_char(crate::clock::num(n), ':'),
        crate::clock::num(n).len() > 0,
{
    if n >= 10 {
        lemma_two_digits(n);
        assert(crate::clock::num(n) == two_digits(n));
    } else {
        let s = crate::clock::num(n);
        assert(s =~= seq![digit(n)]);
        assert((digit(n) as int) == n + 48);
        assert(s.drop_last() =~= Seq::<char>::empty());
        assert(digits_val(Seq::<char>::empty()) == 0);
        assert(digits_val(s) == n);
        assert(all_digits(s)) by {
            assert forall|i: int| 0 <= i < s.len() implies is_digit(#[trigger] s[i]) by {}
        }
        if has_char(s, ':') {
            let k = choose|k: int| 0 <= k < s.len() && s[k] == ':';
        }
    }
}

/// Every time shown on the 12-hour clock (`3:30pm`, `12am`) reads back as
/// itself.
pub proof fn law_time12_reads_back(t: Time)
    requires
        t.wf(),
    ensures
        crate::grammar::time_of(crate::clock::time12_view(t)) == Some(t),
{
    let h = crate::clock::hour12(t.hour as int);
    let hs = crate::clock::num(h);
    lemma_num_reads_back(h);
    let mer = crate::clock::meridiem_of(t.hour as int);
    let body = if t.minute == 0 {
        hs
    } else {
        hs + seq![':'] + two_digits(t.minute as int)
    };
    let s = crate::clock::time12_view(t);
    assert(s =~= body + mer);
    assert(body.len() > 0);
    assert(is_digit(body.last())) by {
        if t.minute == 0 {
            if h >= 10 {
                assert(hs == two_digits(h));
                lemma_two_digits(h);
            } else {
                assert(hs.last() == digit(h));
            }
        } else {
            lemma_two_digits(t.minute as int);
            assert(body.last() == two_digits(t.minute as int).last());
        }
    }
    assert(s.subrange(s.len() - 2, s.len() as int) =~= mer);
    assert(s.subrange(0, s.len() - 2) =~= body);
    assert(!crate::text::ends_with(s, seq!['p', '.', 'm', '.'])) by {
        if crate::text::ends_with(s, seq!['p', '.', 'm', '.']) {
            assert(s.subrange(s.len() - 4, s.len() as int)[3] == s[s.len() - 1]);
            assert(s.subrange(s.len() - 4, s.len() as int)[1] == s[s.len() - 3]);
            assert(s[s.len() - 3] == body.last());
        }
    }
    assert(!crate::text::ends_with(s, seq!['a', '.', 'm', '.'])) by {
        if crate::text::ends_with(s, seq!['a', '.', 'm', '.']) {
            assert(s.subrange(s.len() - 4, s.len() as int)[3] == s[s.len() - 1]);
        }
    }
    assert(!crate::text::ends_with(s, seq!['p'])) by {
        if crate::text::ends_with(s, seq!['p']) {
            assert(s.subrange(s.len() - 1, s.len() as int)[0] == s[s.len() - 1]);
        }
    }
    if t.hour < 12 {
        assert(!crate::text::ends_with(s, seq!['p', 'm']));
        assert(crate::text::ends_with(s, seq!['a', 'm']));
    } else {
        assert(crate::text::ends_with(s, seq!['p', 'm']));
    }
    assert(crate::grammar::strip_meridiem(s).0 == body);
    if t.minute == 0 {
        lemma_split_without(body, ':', body.len());
        assert(body.take(body.len() as int) =~= body);
        assert(crate::text::split_on(body, ':') =~= seq![body]);
    } else {
        lemma_two_digits(t.minute as int);
        lemma_split_two(hs, two_digits(t.minute as int), ':');
    }
}

} // verus!
