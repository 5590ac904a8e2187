//! Typed input, wherever it arrives from: a command, or something to capture.
use vstd::prelude::*;
use crate::calendar::Date;
use crate::parse::{Parsed, ParsedV, parse_chars, parse_view};
use crate::text::{chars_of, trim, trim_chars, lower, lower_vec, is_word, is_ws, is_whitespace, slice_of, string_of};

verus! {

/// How much of the list to show.
#[derive(Clone, Copy, Debug, PartialEq, Eq, Structural)]
pub enum ListScope {
    /// Due today or already overdue.
    Today,
    /// Due within the next seven days.
    Week,
    /// Everything still open, dated or not.
    All,
}

#[derive(Clone, Debug, PartialEq)]
pub enum Command {
    Help,
    List(ListScope),
    Week,
    /// Mark done by title prefix.
    Done(String),
    Capture(Parsed),
}

pub enum CommandV {
    Help,
    List(ListScope),
    Week,
    Done(Seq<char>),
    Capture(ParsedV),
}

impl View for Command {
    type V = CommandV;

    open spec fn view(&self) -> CommandV {
        match self {
            Command::Help => CommandV::Help,
            Command::List(s) => CommandV::List(*s),
            Command::Week => CommandV::Week,
            Command::Done(s) => CommandV::Done(s@),
            Command::Capture(p) => CommandV::Capture(p@),
        }
    }
}

/// The command a whole (trimmed, lower-cased, slash-less) line names, if any.
pub open spec fn command_word(l: Seq<char>) -> Option<CommandV> {
    if l == seq!['h', 'e', 'l', 'p'] || l == seq!['?'] || l == seq!['h'] || l == seq![
        's',
        't',
        'a',
        'r',
        't',
    ] || l == seq!['h', 'i'] || l == seq!['h', 'e', 'l', 'l', 'o'] {
        Some(CommandV::Help)
    } else if l == seq!['l', 'i', 's', 't'] || l == seq!['l', 'i', 's', 't', ' ', 'a', 'l', 'l'] {
        Some(CommandV::List(ListScope::All))
    } else if l == seq!['l', 'i', 's', 't', ' ', 't', 'o', 'd', 'a', 'y'] || l == seq![
        't',
        'o',
        'd',
        'a',
        'y',
    ] {
        Some(CommandV::List(ListScope::Today))
    } else if l == seq!['l', 'i', 's', 't', ' ', 'w', 'e', 'e', 'k'] {
        Some(CommandV::List(ListScope::Week))
    } else if l == seq!['w', 'e', 'e', 'k'] {
        Some(CommandV::Week)
    } else {
        None
    }
}

/// Characters after a leading `done:` or `done` that a space follows.
pub open spec fn done_prefix(l: Seq<char>) -> Option<int> {
    if l.len() > 5 && l.subrange(0, 5) == seq!['d', 'o', 'n', 'e', ':'] && is_ws(l[5]) {
        Some(5)
    } else if l.len() > 4 && l.subrange(0, 4) == seq!['d', 'o', 'n', 'e'] && is_ws(l[4]) {
        Some(4)
    } else {
        None
    }
}

pub open spec fn interpret_view(input: Seq<char>, today: Date) -> CommandV {
    let text = trim(input);
    let bare = if text.len() > 0 && text[0] == '/' { text.drop_first() } else { text };
    let l = lower(bare);
    match command_word(l) {
        Some(c) => c,
        None => match done_prefix(l) {
            Some(k) => CommandV::Done(trim(bare.skip(k))),
            None => CommandV::Capture(parse_view(text, today)),
        },
    }
}

/// Single entry point for typed input: the Telegram bot, the CLI, the window.
pub fn interpret(input: &str, today: Date) -> (r: Command)
    requires
        today.wf(),
    ensures
        r@ == interpret_view(input@, today),
{
    let chars = chars_of(input);
    let text = trim_chars(&chars);
    let bare = if text.len() > 0 && text[0] == '/' {
        slice_of(&text, 1, text.len())
    } else {
        slice_of(&text, 0, text.len())
    };
    assert(bare@ == (if text@.len() > 0 && text@[0] == '/' { text@.drop_first() } else { text@ })) by {
        assert(text@.subrange(0, text.len() as int) =~= text@);
        if text@.len() > 0 {
            assert(text@.subrange(1, text.len() as int) =~= text@.drop_first());
        }
    }
    let l = lower_vec(&bare);
    let one = l.len() == 1 && (l[0] == '?' || l[0] == 'h');
    proof {
        if l@.len() == 1 {
            assert(l@ =~= seq![l@[0]]);
        }
    }
    if is_word(&l, &['h', 'e', 'l', 'p']) || one
        || is_word(&l, &['s', 't', 'a', 'r', 't']) || is_word(&l, &['h', 'i']) || is_word(
        &l,
        &['h', 'e', 'l', 'l', 'o'],
    ) {
        return Command::Help;
    }
    if is_word(&l, &['l', 'i', 's', 't']) || is_word(&l, &['l', 'i', 's', 't', ' ', 'a', 'l', 'l']) {
        return Command::List(ListScope::All);
    }
    if is_word(&l, &['l', 'i', 's', 't', ' ', 't', 'o', 'd', 'a', 'y']) || is_word(
        &l,
        &['t', 'o', 'd', 'a', 'y'],
    ) {
        return Command::List(ListScope::Today);
    }
    if is_word(&l, &['l', 'i', 's', 't', ' ', 'w', 'e', 'e', 'k']) {
        return Command::List(ListScope::Week);
    }
    if is_word(&l, &['w', 'e', 'e', 'k']) {
        return Command::Week;
    }
    assert(command_word(l@) is None);
    let k: usize = if l.len() > 5 && l[0] == 'd' && l[1] == 'o' && l[2] == 'n' && l[3] == 'e' && l[4]
        == ':' && is_whitespace(l[5]) {
        assert(l@.subrange(0, 5) =~= seq!['d', 'o', 'n', 'e', ':']);
        5
    } else if l.len() > 4 && l[0] == 'd' && l[1] == 'o' && l[2] == 'n' && l[3] == 'e' && is_whitespace(l[4]) {
        assert(l@.subrange(0, 4) =~= seq!['d', 'o', 'n', 'e']);
        proof {
            if l@.len() > 5 && l@.subrange(0, 5) == seq!['d', 'o', 'n', 'e', ':'] {
                assert(l@.subrange(0, 5)[4] == l@[4]);
            }
        }
        4
    } else {
        proof {
            if l@.len() > 5 && l@.subrange(0, 5) == seq!['d', 'o', 'n', 'e', ':'] {
                assert(l@.subrange(0, 5)[0] == l@[0] && l@.subrange(0, 5)[1] == l@[1] && l@.subrange(0, 5)[2] == l@[2] && l@.subrange(0, 5)[3] == l@[3] && l@.subrange(0, 5)[4] == l@[4]);
            }
            if l@.len() > 4 && l@.subrange(0, 4) == seq!['d', 'o', 'n', 'e'] {
                assert(l@.subrange(0, 4)[0] == l@[0] && l@.subrange(0, 4)[1] == l@[1] && l@.subrange(0, 4)[2] == l@[2] && l@.subrange(0, 4)[3] == l@[3]);
            }
        }
        0
    };
    if k > 0 {
        let rest = slice_of(&bare, k, bare.len());
        assert(rest@ =~= bare@.skip(k as int));
        let t = trim_chars(&rest);
        return Command::Done(string_of(&t));
    }
    Command::Capture(parse_chars(&text, today))
}

/// The one description of the syntax, printed by `help`, the CLI and the bot.
pub const HELP_TEXT: &'static str = "Type what you want to remember. Plain text always works:

> renew parking

Add details on the end. Anything the parser does not recognise stays
in the title, so ordinary sentences are safe.

  when        fri · friday · tues · mondays · tomorrow · today
              2 sep · 2 September 2026 · Sep 2
              2026-09-15 · 2-9-2026 · 2/9 · 2.9.26   (day first)
  time        5pm · 5 pm · 5p · 17:00 · noon · midnight
  a block     9:00-10:15 · 10:30-12:00p   (scheduled; kept out of the list)
  kind        due fri      → a task with a deadline
              on fri 9am   → an hour on the week, still tickable
  repeating   every        (say it plainly; one weekday is enough)
              mondays      (the plural says it too)
              daily        (every day of the week)
  estimate    ~2h · ~90m · ~1.5h
  tag         #math        (#work #life #body #social also set the colour)
  place       @Hall 2.106   (runs to the end of the line, spaces and all)
  travel      #floating    (follows this machine; otherwise it stays fixed
                            to the zone you created it in)
  important   !! in front

> math hw fri 5pm ~2h #math
> trash every tue 20:00
> PHYS201 every monday wednesday 10:30-12:00p @Hall 2.106
> gym every mon wed fri ~1h #body
> wake up daily 08:00 #floating
> pick up a friend from the airport 2 Sep 2026 8:00 pm
> dentist 14 october 9:30 am
> lab report due wed by 11:59 pm
> standup on friday 9am
> gym mon/wed/fri 6am
> !! renew parking tomorrow

Commands:

  help          this text
  list          everything still open
  list today    due today or overdue
  list week     due in the next seven days
  week          this week's schedule
  done: <text>  tick off the first task matching <text>

Leave things out and you are asked for them one at a time — when, what
time, how long — and `-` skips any of them. A complete line is never
questioned, so the asking is the price of being terse rather than a tax
on every capture. Send `cancel` to drop a half-finished one.

Ten minutes before anything on the week starts, or anything in the list
falls due, this chat gets a reminder. Nothing to switch on — it pushes to
whoever last spoke to it.
";

pub fn help_text() -> (r: String)
    ensures
        r@ == HELP_TEXT@,
{
    String::from_str(HELP_TEXT)
}

} // verus!
