//! The Telegram conversation, as decisions: what a message means given what
//! the chat was last asked, and what to say or do about it. Sending, storing
//! and the clock are the caller's.
//!
//! A line with no date is easy to fire off and then forget, so a capture that
//! is missing something is completed one question at a time: each answer is
//! appended to the line and the whole line re-read, so there is no second
//! grammar, and an answer that says more than was asked fills both.
use vstd::prelude::*;
use crate::calendar::Date;
use crate::command::{Command, CommandV, interpret, interpret_view};
use crate::compose::{dec, dec_of};
use crate::parse::{Parsed, ParsedV, parse, parse_view};
use crate::text::{chars_of, is_blank, lower, lower_vec, split_chars, split_on, string_of, trim, trim_chars};

verus! {

/// What a half-finished capture is still missing, in the order it is asked for.
#[derive(Clone, Copy, Debug, PartialEq, Eq, Structural)]
pub enum Slot {
    Date,
    Time,
    Length,
}

pub open spec fn question_text(s: Slot) -> Seq<char> {
    match s {
        Slot::Date => "when? (a date, or - to skip)"@,
        Slot::Time => "what time? (- to skip)"@,
        Slot::Length => "how long? (- to skip)"@,
    }
}

impl Slot {
    pub fn question(self) -> (r: &'static str)
        ensures
            r@ == question_text(self),
    {
        match self {
            Slot::Date => "when? (a date, or - to skip)",
            Slot::Time => "what time? (- to skip)",
            Slot::Length => "how long? (- to skip)",
        }
    }
}

pub open spec fn skip_word(t: Seq<char>) -> bool {
    t == seq!['-'] || t == seq!['s', 'k', 'i', 'p'] || t == seq!['n', 'o', 'n', 'e'] || t == seq!['n', 'o']
}

pub open spec fn cancel_word(t: Seq<char>) -> bool {
    t == seq!['c', 'a', 'n', 'c', 'e', 'l'] || t == seq!['s', 't', 'o', 'p'] || t
        == seq!['f', 'o', 'r', 'g', 'e', 't', ' ', 'i', 't']
}

fn is_lit(v: &Vec<char>, l: &[char]) -> (r: bool)
    ensures
        r == (v@ == l@),
{
    if v.len() != l.len() {
        return false;
    }
    let mut i: usize = 0;
    while i < v.len()
        invariant
            i <= v.len(),
            v.len() == l.len(),
            forall|k: int| 0 <= k < i ==> v@[k] == l@[k],
        decreases v.len() - i,
    {
        if v[i] != l[i] {
            return false;
        }
        i = i + 1;
    }
    assert(v@ =~= l@);
    true
}

/// An answer that passes on the question.
pub fn is_skip(t: &str) -> (r: bool)
    ensures
        r == skip_word(t@),
{
    let v = chars_of(t);
    let r = is_lit(&v, &['-']) || is_lit(&v, &['s', 'k', 'i', 'p']) || is_lit(&v, &['n', 'o', 'n', 'e'])
        || is_lit(&v, &['n', 'o']);
    proof {
        assert(['-']@ =~= seq!['-']);
        assert(['s', 'k', 'i', 'p']@ =~= seq!['s', 'k', 'i', 'p']);
        assert(['n', 'o', 'n', 'e']@ =~= seq!['n', 'o', 'n', 'e']);
        assert(['n', 'o']@ =~= seq!['n', 'o']);
    }
    r
}

/// An answer that drops the capture altogether.
pub fn is_cancel(t: &str) -> (r: bool)
    ensures
        r == cancel_word(t@),
{
    let v = chars_of(t);
    let r = is_lit(&v, &['c', 'a', 'n', 'c', 'e', 'l']) || is_lit(&v, &['s', 't', 'o', 'p']) || is_lit(
        &v,
        &['f', 'o', 'r', 'g', 'e', 't', ' ', 'i', 't'],
    );
    proof {
        assert(['c', 'a', 'n', 'c', 'e', 'l']@ =~= seq!['c', 'a', 'n', 'c', 'e', 'l']);
        assert(['s', 't', 'o', 'p']@ =~= seq!['s', 't', 'o', 'p']);
        assert(['f', 'o', 'r', 'g', 'e', 't', ' ', 'i', 't']@ =~= seq!['f', 'o', 'r', 'g', 'e', 't', ' ', 'i', 't']);
    }
    r
}

/// The next thing worth asking about, or none when nothing is left. A repeat
/// has no single date, and a range already says both when and how long.
pub open spec fn next_slot_spec(p: ParsedV, skipped: Seq<Slot>) -> Option<Slot> {
    let undated_month = p.monthday is Some && p.repeat_from is None;
    if ((p.due is None && !p.repeats) || undated_month) && !skipped.contains(Slot::Date) {
        Some(Slot::Date)
    } else if p.at is None && p.span is None && !skipped.contains(Slot::Time) {
        Some(Slot::Time)
    } else if p.estimate_min is None && p.span is None && !p.repeats && !skipped.contains(Slot::Length) {
        Some(Slot::Length)
    } else {
        None
    }
}

/// Whether an answer supplied what was asked for. For a monthly repeat only
/// a real date answers "when": it already repeats before one is given.
pub open spec fn slot_filled_spec(p: ParsedV, slot: Slot) -> bool {
    match slot {
        Slot::Date => p.due is Some || p.repeat_from is Some || (p.repeats && p.monthday is None),
        Slot::Time => p.at is Some || p.span is Some,
        Slot::Length => p.estimate_min is Some || p.span is Some,
    }
}

fn has_slot(v: &Vec<Slot>, s: Slot) -> (r: bool)
    ensures
        r == v@.contains(s),
{
    let mut i: usize = 0;
    while i < v.len()
        invariant
            i <= v.len(),
            forall|k: int| 0 <= k < i ==> v@[k] != s,
        decreases v.len() - i,
    {
        if v[i] == s {
            assert(v@[i as int] == s);
            return true;
        }
        i = i + 1;
    }
    false
}

pub fn next_slot(p: &Parsed, skipped: &Vec<Slot>) -> (r: Option<Slot>)
    ensures
        r == next_slot_spec(p@, skipped@),
{
    let undated_month = p.monthday.is_some() && p.repeat_from.is_none();
    if ((p.due.is_none() && !p.repeats) || undated_month) && !has_slot(skipped, Slot::Date) {
        return Some(Slot::Date);
    }
    if p.at.is_none() && p.span.is_none() && !has_slot(skipped, Slot::Time) {
        return Some(Slot::Time);
    }
    if p.estimate_min.is_none() && p.span.is_none() && !p.repeats && !has_slot(skipped, Slot::Length) {
        return Some(Slot::Length);
    }
    None
}

pub fn slot_filled(p: &Parsed, slot: Slot) -> (r: bool)
    ensures
        r == slot_filled_spec(p@, slot),
{
    match slot {
        Slot::Date => p.due.is_some() || p.repeat_from.is_some() || (p.repeats && p.monthday.is_none()),
        Slot::Time => p.at.is_some() || p.span.is_some(),
        Slot::Length => p.estimate_min.is_some() || p.span.is_some(),
    }
}

/// A capture being completed one answer at a time. `text` is always a line of
/// the grammar.
#[derive(Clone, Debug, PartialEq)]
pub struct Pending {
    pub text: String,
    pub asked: Slot,
    pub skipped: Vec<Slot>,
}

pub struct PendingV {
    pub text: Seq<char>,
    pub asked: Slot,
    pub skipped: Seq<Slot>,
}

impl View for Pending {
    type V = PendingV;

    open spec fn view(&self) -> PendingV {
        PendingV { text: self.text@, asked: self.asked, skipped: self.skipped@ }
    }
}

/// What the caller is to do, in order; what each says is joined by a blank line.
#[derive(Clone, Debug, PartialEq)]
pub enum Action {
    /// Say this.
    Say(String),
    /// Store this line as a capture, and say what was made of it after `lead`.
    Commit { text: String, lead: String },
    /// Act on this line as a command (or a complete capture) and say the result.
    Handle(String),
}

pub enum ActionV {
    Say(Seq<char>),
    Commit { text: Seq<char>, lead: Seq<char> },
    Handle(Seq<char>),
}

impl View for Action {
    type V = ActionV;

    open spec fn view(&self) -> ActionV {
        match self {
            Action::Say(s) => ActionV::Say(s@),
            Action::Commit { text, lead } => ActionV::Commit { text: text@, lead: lead@ },
            Action::Handle(s) => ActionV::Handle(s@),
        }
    }
}

pub open spec fn actions_v(v: Seq<Action>) -> Seq<ActionV> {
    v.map_values(|a: Action| a@)
}

pub open spec fn pending_opt_v(p: Option<Pending>) -> Option<PendingV> {
    match p {
        Some(x) => Some(x@),
        None => None,
    }
}

/// Ask the next question, or file the line when nothing is left to ask.
pub open spec fn advance_spec(text: Seq<char>, skipped: Seq<Slot>, today: Date) -> (Option<PendingV>, Seq<ActionV>) {
    match next_slot_spec(parse_view(text, today), skipped) {
        Some(slot) => (
            Some(PendingV { text, asked: slot, skipped }),
            seq![ActionV::Say(question_text(slot))],
        ),
        None => (None, seq![ActionV::Commit { text, lead: "added"@ }]),
    }
}

/// A message with nothing pending: a capture that is missing something starts
/// the questions; anything else is acted on as it is.
pub open spec fn fresh_spec(text: Seq<char>, today: Date) -> (Option<PendingV>, Seq<ActionV>) {
    match interpret_view(text, today) {
        CommandV::Capture(p) => if trim(p.title).len() > 0 && next_slot_spec(p, Seq::empty()) is Some {
            advance_spec(text, Seq::empty(), today)
        } else {
            (None, seq![ActionV::Handle(text)])
        },
        _ => (None, seq![ActionV::Handle(text)]),
    }
}

/// The answer appended to the draft: a length needs its `~`, the other answers
/// are grammar already.
pub open spec fn addition(asked: Slot, answer: Seq<char>) -> Seq<char> {
    if asked == Slot::Length && !(answer.len() > 0 && answer[0] == '~') {
        seq!['~'] + answer
    } else {
        answer
    }
}

/// One message, given what this chat was last asked. An answer that does not
/// answer never loses either message: the draft is filed as it was, and the
/// message is read afresh.
pub open spec fn converse_spec(pending: Option<PendingV>, text: Seq<char>, today: Date) -> (Option<PendingV>, Seq<ActionV>) {
    match pending {
        None => fresh_spec(text, today),
        Some(f) => {
            let t = lower(trim(text));
            if cancel_word(t) {
                (None, seq![ActionV::Say("dropped: "@ + parse_view(f.text, today).title)])
            } else if skip_word(t) {
                advance_spec(f.text, f.skipped.push(f.asked), today)
            } else {
                let combined = f.text + seq![' '] + addition(f.asked, trim(text));
                if slot_filled_spec(parse_view(combined, today), f.asked) {
                    advance_spec(combined, f.skipped.push(f.asked), today)
                } else {
                    let (np, acts) = fresh_spec(text, today);
                    (np, seq![ActionV::Commit { text: f.text, lead: "filed as it was"@ }] + acts)
                }
            }
        },
    }
}

fn advance(text: String, skipped: Vec<Slot>, today: Date) -> (r: (Option<Pending>, Vec<Action>))
    requires
        today.wf(),
    ensures
        (pending_opt_v(r.0), actions_v(r.1@)) == advance_spec(text@, skipped@, today),
{
    let p = parse(text.as_str(), today);
    match next_slot(&p, &skipped) {
        Some(slot) => {
            let q = String::from_str(slot.question());
            let mut acts: Vec<Action> = Vec::new();
            acts.push(Action::Say(q));
            let ghost qv = question_text(slot);
            assert(actions_v(acts@) =~= seq![ActionV::Say(qv)]);
            (Some(Pending { text, asked: slot, skipped }), acts)
        },
        None => {
            let mut acts: Vec<Action> = Vec::new();
            let ghost tv = text@;
            acts.push(Action::Commit { text, lead: String::from_str("added") });
            assert(actions_v(acts@) =~= seq![ActionV::Commit { text: tv, lead: "added"@ }]);
            (None, acts)
        },
    }
}

fn fresh(text: &str, today: Date) -> (r: (Option<Pending>, Vec<Action>))
    requires
        today.wf(),
    ensures
        (pending_opt_v(r.0), actions_v(r.1@)) == fresh_spec(text@, today),
{
    let handle = |t: &str| -> (r: (Option<Pending>, Vec<Action>))
        ensures
            r.0 is None,
            actions_v(r.1@) == seq![ActionV::Handle(t@)],
        {
            let mut acts: Vec<Action> = Vec::new();
            acts.push(Action::Handle(t.to_owned()));
            assert(actions_v(acts@) =~= seq![ActionV::Handle(t@)]);
            (None, acts)
        };
    match interpret(text, today) {
        Command::Capture(p) => {
            let empty: Vec<Slot> = Vec::new();
            assert(empty@ =~= Seq::<Slot>::empty());
            if trim_chars(&chars_of(p.title.as_str())).len() > 0 && next_slot(&p, &empty).is_some() {
                advance(text.to_owned(), empty, today)
            } else {
                handle(text)
            }
        },
        _ => handle(text),
    }
}

/// Decide what one message means, given what this chat was last asked: what
/// to ask next, if anything, and what to do and say now.
#[verifier::rlimit(40)]
pub fn converse(pending: Option<Pending>, text: &str, today: Date) -> (r: (Option<Pending>, Vec<Action>))
    requires
        today.wf(),
    ensures
        (pending_opt_v(r.0), actions_v(r.1@)) == converse_spec(pending_opt_v(pending), text@, today),
{
    match pending {
        None => fresh(text, today),
        Some(f) => {
            let trimmed = trim_chars(&chars_of(text));
            let t = lower_vec(&trimmed);
            let ts = string_of(&t);
            if is_cancel(ts.as_str()) {
                let title = parse(f.text.as_str(), today).title;
                let mut m = String::from_str("dropped: ");
                m.append(title.as_str());
                let mut acts: Vec<Action> = Vec::new();
                let ghost mv = m@;
                acts.push(Action::Say(m));
                assert(actions_v(acts@) =~= seq![ActionV::Say(mv)]);
                return (None, acts);
            }
            let mut skipped = f.skipped;
            if is_skip(ts.as_str()) {
                skipped.push(f.asked);
                return advance(f.text, skipped, today);
            }
            let answer = string_of(&trimmed);
            let mut combined = f.text.clone();
            combined.append(" ");
            let tilde_needed = f.asked == Slot::Length && !(trimmed.len() > 0 && trimmed[0] == '~');
            if tilde_needed {
                combined.append("~");
            }
            combined.append(answer.as_str());
            proof {
                reveal_strlit(" ");
                reveal_strlit("~");
            }
            assert(combined@ =~= f.text@ + seq![' '] + addition(f.asked, trim(text@)));
            let reparsed = parse(combined.as_str(), today);
            if slot_filled(&reparsed, f.asked) {
                skipped.push(f.asked);
                return advance(combined, skipped, today);
            }
            let (np, rest) = fresh(text, today);
            let mut acts: Vec<Action> = Vec::new();
            let ghost dv = f.text@;
            acts.push(Action::Commit { text: f.text, lead: String::from_str("filed as it was") });
            let ghost first = actions_v(acts@);
            let ghost restv = actions_v(rest@);
            let mut rest = rest;
            acts.append(&mut rest);
            assert(actions_v(acts@) =~= first + restv);
            assert(first =~= seq![ActionV::Commit { text: dv, lead: "filed as it was"@ }]);
            (np, acts)
        },
    }
}

/// Minutes as a short duration: `2h`, `1h30m`, `45m`.
pub open spec fn mins_text(m: u32) -> Seq<char> {
    if m % 60 == 0 {
        dec((m / 60) as nat) + seq!['h']
    } else if m > 60 {
        dec((m / 60) as nat) + seq!['h'] + dec((m % 60) as nat) + seq!['m']
    } else {
        dec(m as nat) + seq!['m']
    }
}

pub fn fmt_mins(m: u32) -> (r: String)
    ensures
        r@ == mins_text(m),
{
    proof {
        reveal_strlit("h");
        reveal_strlit("m");
    }
    if m % 60 == 0 {
        let mut s = string_of(&dec_of(m / 60));
        s.append("h");
        s
    } else if m > 60 {
        let mut s = string_of(&dec_of(m / 60));
        s.append("h");
        s.append(string_of(&dec_of(m % 60)).as_str());
        s.append("m");
        s
    } else {
        let mut s = string_of(&dec_of(m));
        s.append("m");
        s
    }
}

/// At most `limit` characters: Telegram caps a message, so a longer one is cut.
pub fn clip(text: &str, limit: usize) -> (r: String)
    ensures
        r@ == (if text@.len() > limit {
            text@.take(limit as int)
        } else {
            text@
        }),
{
    let v = chars_of(text);
    if v.len() <= limit {
        return text.to_owned();
    }
    let mut out: Vec<char> = Vec::new();
    let mut i: usize = 0;
    while i < limit
        invariant
            i <= limit,
            limit < v.len(),
            out@ == v@.take(i as int),
        decreases limit - i,
    {
        out.push(v[i]);
        i = i + 1;
        assert(out@ =~= v@.take(i as int));
    }
    string_of(&out)
}

/// Leading spaces and equals signs dropped.
pub open spec fn past_equals(s: Seq<char>) -> Seq<char>
    decreases s.len(),
{
    if s.len() > 0 && (s[0] == ' ' || s[0] == '=') {
        past_equals(s.drop_first())
    } else {
        s
    }
}

/// Leading double quotes dropped.
pub open spec fn past_quotes(s: Seq<char>) -> Seq<char>
    decreases s.len(),
{
    if s.len() > 0 && s[0] == '"' {
        past_quotes(s.drop_first())
    } else {
        s
    }
}

/// Trailing double quotes dropped.
pub open spec fn before_quotes(s: Seq<char>) -> Seq<char>
    decreases s.len(),
{
    if s.len() > 0 && s.last() == '"' {
        before_quotes(s.drop_last())
    } else {
        s
    }
}

/// The token a line of the bot's settings gives, if it gives one: a line that,
/// trimmed, starts with `token`, then spaces or `=`, then the value, trimmed
/// and without surrounding double quotes. An empty value gives none.
pub open spec fn token_of_line(line: Seq<char>) -> Option<Seq<char>> {
    let t = trim(line);
    if t.len() >= 5 && t.take(5) == seq!['t', 'o', 'k', 'e', 'n'] {
        let v = before_quotes(past_quotes(trim(past_equals(t.skip(5)))));
        if v.len() > 0 {
            Some(v)
        } else {
            None
        }
    } else {
        None
    }
}

/// The first token given by the lines from `k` on.
pub open spec fn token_from(lines: Seq<Seq<char>>, k: int) -> Option<Seq<char>>
    decreases lines.len() - k,
{
    if k < 0 || k >= lines.len() {
        None
    } else {
        match token_of_line(lines[k]) {
            Some(v) => Some(v),
            None => token_from(lines, k + 1),
        }
    }
}

fn drop_equals(v: &Vec<char>, from: usize) -> (r: usize)
    requires
        from <= v.len(),
    ensures
        from <= r <= v.len(),
        past_equals(v@.skip(from as int)) == v@.skip(r as int),
    decreases v.len() - from,
{
    if from < v.len() && (v[from] == ' ' || v[from] == '=') {
        assert(v@.skip(from as int).drop_first() =~= v@.skip(from + 1));
        drop_equals(v, from + 1)
    } else {
        from
    }
}

fn unquoted(v: &Vec<char>) -> (r: Vec<char>)
    ensures
        r@ == before_quotes(past_quotes(v@)),
{
    let mut a: usize = 0;
    assert(v@.skip(0) =~= v@);
    while a < v.len() && v[a] == '"'
        invariant
            a <= v.len(),
            past_quotes(v@) == past_quotes(v@.skip(a as int)),
        decreases v.len() - a,
    {
        assert(v@.skip(a as int).drop_first() =~= v@.skip(a + 1));
        a = a + 1;
    }
    assert(past_quotes(v@.skip(a as int)) == v@.skip(a as int));
    let mut b: usize = v.len();
    while b > a && v[b - 1] == '"'
        invariant
            a <= b <= v.len(),
            before_quotes(v@.skip(a as int)) == before_quotes(v@.subrange(a as int, b as int)),
        decreases b - a,
    {
        assert(v@.subrange(a as int, b as int).drop_last() =~= v@.subrange(a as int, b - 1));
        b = b - 1;
    }
    assert(v@.skip(a as int) =~= v@.subrange(a as int, v.len() as int));
    assert(before_quotes(v@.subrange(a as int, b as int)) == v@.subrange(a as int, b as int));
    crate::text::slice_of(v, a, b)
}

/// The bot's token from its settings file: the first line that gives one.
pub fn token_in(text: &str) -> (r: Option<String>)
    ensures
        match r {
            Some(v) => token_from(split_on(text@, '\n'), 0) == Some(v@),
            None => token_from(split_on(text@, '\n'), 0) is None,
        },
{
    let lines = split_chars(&chars_of(text), '\n');
    let ghost ls = split_on(text@, '\n');
    let mut k: usize = 0;
    while k < lines.len()
        invariant
            k <= lines.len(),
            lines@.map_values(|l: Vec<char>| l@) == ls,
            ls == split_on(text@, '\n'),
            token_from(ls, 0) == token_from(ls, k as int),
        decreases lines.len() - k,
    {
        assert(ls[k as int] == lines@[k as int]@);
        let t = trim_chars(&lines[k]);
        if t.len() >= 5 && t[0] == 't' && t[1] == 'o' && t[2] == 'k' && t[3] == 'e' && t[4] == 'n' {
            assert(t@.take(5) =~= seq!['t', 'o', 'k', 'e', 'n']);
            let from = drop_equals(&t, 5);
            let rest = crate::text::slice_of(&t, from, t.len());
            assert(rest@ =~= t@.skip(from as int));
            let tr = trim_chars(&rest);
            let v = unquoted(&tr);
            assert(past_equals(t@.skip(5)) == rest@);
            assert(v@ == before_quotes(past_quotes(trim(past_equals(t@.skip(5))))));
            if v.len() > 0 {
                assert(token_of_line(ls[k as int]) == Some(v@));
                assert(ls.len() == lines@.len());
                assert(token_from(ls, k as int) == Some(v@));
                return Some(string_of(&v));
            }
        } else {
            assert(!(t@.len() >= 5 && t@.take(5) == seq!['t', 'o', 'k', 'e', 'n'])) by {
                if t@.len() >= 5 && t@.take(5) == seq!['t', 'o', 'k', 'e', 'n'] {
                    assert(t@[0] == t@.take(5)[0]);
                    assert(t@[1] == t@.take(5)[1]);
                    assert(t@[2] == t@.take(5)[2]);
                    assert(t@[3] == t@.take(5)[3]);
                    assert(t@[4] == t@.take(5)[4]);
                }
            }
        }
        k = k + 1;
    }
    None
}

/// The refusal of a capture with nothing to title it: a line that is blank,
/// or all details.
pub fn nothing_to_add(title: &str) -> (r: Option<String>)
    ensures
        match r {
            Some(m) => trim(title@).len() == 0 && m@ == "nothing to add"@,
            None => trim(title@).len() > 0,
        },
{
    if is_blank(title) {
        Some(String::from_str("nothing to add"))
    } else {
        None
    }
}

} // verus!
