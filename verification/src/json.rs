//! Machine-readable output: items, weeks and the estimate ratio as JSON text.
use vstd::prelude::*;
use crate::compose::dec;
use crate::expand::{all_stamps_ok, days_v};
use crate::import::dec_usize;
use crate::model::{Day, DayV, DiagnosticV, PlacementV, Week, WeekV};
use crate::rules::signed_text;
use crate::stats::Stats;
use crate::store::Item;
use crate::text::{chars_of, opt_str, string_of};
use crate::zone::{Stamp, date_text, rfc3339_text, stamp_text, ymd_text};

verus! {

/// One character as it stands inside a JSON string here: backslash, quote and
/// newline escaped, everything else as itself.
pub open spec fn esc_char(c: char) -> Seq<char> {
    if c == '\\' {
        seq!['\\', '\\']
    } else if c == '"' {
        seq!['\\', '"']
    } else if c == '\n' {
        seq!['\\', 'n']
    } else {
        seq![c]
    }
}

pub open spec fn esc_spec(s: Seq<char>) -> Seq<char>
    decreases s.len(),
{
    if s.len() == 0 {
        Seq::empty()
    } else {
        esc_spec(s.drop_last()) + esc_char(s.last())
    }
}

/// Escape text for a JSON string.
pub fn esc(s: &str) -> (r: String)
    ensures
        r@ == esc_spec(s@),
{
    let v = chars_of(s);
    let mut out: Vec<char> = Vec::new();
    let mut i: usize = 0;
    while i < v.len()
        invariant
            i <= v.len(),
            v@ == s@,
            out@ == esc_spec(s@.take(i as int)),
        decreases v.len() - i,
    {
        let c = v[i];
        assert(s@.take(i + 1).drop_last() =~= s@.take(i as int));
        assert(s@.take(i + 1).last() == c);
        if c == '\\' {
            out.push('\\');
            out.push('\\');
        } else if c == '"' {
            out.push('\\');
            out.push('"');
        } else if c == '\n' {
            out.push('\\');
            out.push('n');
        } else {
            out.push(c);
        }
        i = i + 1;
        assert(out@ =~= esc_spec(s@.take(i as int)));
    }
    assert(s@.take(v.len() as int) =~= s@);
    string_of(&out)
}

/// A JSON string, or `null`.
pub open spec fn json_opt(v: Option<Seq<char>>) -> Seq<char> {
    match v {
        Some(s) => seq!['"'] + esc_spec(s) + seq!['"'],
        None => "null"@,
    }
}

pub fn json_opt_str(v: Option<&str>) -> (r: String)
    ensures
        r@ == json_opt(
            match v {
                Some(s) => Some(s@),
                None => None,
            },
        ),
{
    match v {
        Some(s) => {
            let mut out = String::from_str("\"");
            out.append(esc(s).as_str());
            out.append("\"");
            proof {
                reveal_strlit("\"");
            }
            out
        },
        None => String::from_str("null"),
    }
}

pub open spec fn bool_text(b: bool) -> Seq<char> {
    if b {
        "true"@
    } else {
        "false"@
    }
}

fn bool_json(b: bool) -> (r: &'static str)
    ensures
        r@ == bool_text(b),
{
    if b {
        "true"
    } else {
        "false"
    }
}

/// The tags as a JSON array's contents.
pub open spec fn tags_json(ts: Seq<Seq<char>>) -> Seq<char>
    decreases ts.len(),
{
    if ts.len() == 0 {
        Seq::empty()
    } else if ts.len() == 1 {
        seq!['"'] + esc_spec(ts[0]) + seq!['"']
    } else {
        tags_json(ts.drop_last()) + seq![','] + seq!['"'] + esc_spec(ts.last()) + seq!['"']
    }
}

pub open spec fn item_json_spec(i: Item) -> Seq<char> {
    "{\"id\":\""@ + esc_spec(i.id@) + "\",\"title\":\""@ + esc_spec(i.title@) + "\",\"tags\":["@
        + tags_json(i.tags@.map_values(|t: String| t@)) + "],\"category\":"@ + json_opt(
        opt_str(i.category),
    ) + ",\"location\":"@ + json_opt(opt_str(i.location)) + ",\"listed\":"@ + bool_text(i.listed)
        + ",\"due_at\":"@ + json_opt(
        match i.due_at {
            Some(d) => Some(rfc3339_text(d.secs, d.nanos, d.offset)),
            None => None,
        },
    ) + ",\"estimate_min\":"@ + match i.estimate_min {
        Some(m) => dec(m as nat),
        None => "null"@,
    } + ",\"recurs\":"@ + bool_text(i.recurs) + ",\"done\":"@ + bool_text(i.completed)
        + ",\"source\":\""@ + esc_spec(i.source@) + "\",\"external_id\":"@ + json_opt(
        opt_str(i.external_id),
    ) + "}"@
}

fn tags_json_of(v: &Vec<String>) -> (r: String)
    ensures
        r@ == tags_json(v@.map_values(|t: String| t@)),
{
    let ghost vs = v@.map_values(|t: String| t@);
    let mut out = String::new();
    let mut i: usize = 0;
    while i < v.len()
        invariant
            i <= v.len(),
            vs == v@.map_values(|t: String| t@),
            out@ == tags_json(vs.take(i as int)),
        decreases v.len() - i,
    {
        assert(vs.take(i + 1).drop_last() =~= vs.take(i as int));
        assert(vs.take(i + 1).last() == v@[i as int]@);
        if i == 0 {
            assert(vs.take(1) =~= seq![vs[0]]);
        }
        proof {
            reveal_strlit(",");
            reveal_strlit("\"");
        }
        if i > 0 {
            out.append(",");
        }
        out.append("\"");
        out.append(esc(v[i].as_str()).as_str());
        out.append("\"");
        i = i + 1;
        assert(out@ =~= tags_json(vs.take(i as int)));
    }
    assert(vs.take(v.len() as int) =~= vs);
    out
}

fn opt_ref(o: &Option<String>) -> (r: Option<&str>)
    ensures
        match r {
            Some(s) => o.is_some() && s@ == o.unwrap()@,
            None => o.is_none(),
        },
{
    match o {
        Some(s) => Some(s.as_str()),
        None => None,
    }
}

/// An item as JSON, as `sched --json` prints it.
#[verifier::rlimit(40)]
pub fn item_json(i: &Item) -> (r: String)
    requires
        i.due_at matches Some(d) ==> d.wf(),
    ensures
        r@ == item_json_spec(*i),
{
    let mut out = String::from_str("{\"id\":\"");
    out.append(esc(i.id.as_str()).as_str());
    out.append("\",\"title\":\"");
    out.append(esc(i.title.as_str()).as_str());
    out.append("\",\"tags\":[");
    out.append(tags_json_of(&i.tags).as_str());
    out.append("],\"category\":");
    out.append(json_opt_str(opt_ref(&i.category)).as_str());
    out.append(",\"location\":");
    out.append(json_opt_str(opt_ref(&i.location)).as_str());
    out.append(",\"listed\":");
    out.append(bool_json(i.listed));
    out.append(",\"due_at\":");
    let due = match i.due_at {
        Some(d) => Some(stamp_text(&d)),
        None => None,
    };
    out.append(json_opt_str(opt_ref(&due)).as_str());
    out.append(",\"estimate_min\":");
    match i.estimate_min {
        Some(m) => out.append(string_of(&crate::compose::dec_of(m)).as_str()),
        None => out.append("null"),
    }
    out.append(",\"recurs\":");
    out.append(bool_json(i.recurs));
    out.append(",\"done\":");
    out.append(bool_json(i.completed));
    out.append(",\"source\":\"");
    out.append(esc(i.source.as_str()).as_str());
    out.append("\",\"external_id\":");
    out.append(json_opt_str(opt_ref(&i.external_id)).as_str());
    out.append("}");
    out
}

pub open spec fn placement_json(p: PlacementV) -> Seq<char> {
    "{\"id\":\""@ + esc_spec(p.id) + "\",\"item_id\":\""@ + esc_spec(p.item_id) + "\",\"starts_at\":\""@
        + rfc3339_text(p.starts_at.secs, p.starts_at.nanos, p.starts_at.offset) + "\",\"ends_at\":\""@
        + rfc3339_text(p.ends_at.secs, p.ends_at.nanos, p.ends_at.offset) + "\",\"foreign\":"@ + bool_text(
        p.foreign,
    ) + ",\"pinned_tz\":"@ + json_opt(p.pinned_tz) + "}"@
}

/// Pieces separated by commas.
pub open spec fn commas(s: Seq<Seq<char>>) -> Seq<char>
    decreases s.len(),
{
    if s.len() == 0 {
        Seq::empty()
    } else if s.len() == 1 {
        s[0]
    } else {
        commas(s.drop_last()) + seq![','] + s.last()
    }
}

pub open spec fn day_json(d: DayV) -> Seq<char> {
    "{\"date\":\""@ + ymd_text(d.date.year, d.date.month, d.date.day) + "\",\"placements\":["@ + commas(
        d.placements.map_values(|p: PlacementV| placement_json(p)),
    ) + "]}"@
}

pub open spec fn diag_json(d: DiagnosticV) -> Seq<char> {
    "{\"item_id\":"@ + json_opt(d.item_id) + ",\"message\":\""@ + esc_spec(d.message) + "\"}"@
}

pub open spec fn week_json_spec(w: WeekV) -> Seq<char> {
    "{\"anchor\":\""@ + ymd_text(w.anchor.year, w.anchor.month, w.anchor.day) + "\",\"viewing_tz\":\""@
        + w.viewing_tz + "\",\"days\":["@ + commas(w.days.map_values(|d: DayV| day_json(d)))
        + "],\"diagnostics\":["@ + commas(w.diagnostics.map_values(|d: DiagnosticV| diag_json(d)))
        + "]}"@
}

/// Shown with a day to spare either side of the calendar, as JSON needs.
pub open spec fn stamps_wf(p: PlacementV) -> bool {
    p.starts_at.wf() && p.ends_at.wf()
}

fn placement_json_of(p: &crate::model::Placement) -> (r: String)
    requires
        stamps_wf(p@),
    ensures
        r@ == placement_json(p@),
{
    let mut out = String::from_str("{\"id\":\"");
    out.append(esc(p.id.as_str()).as_str());
    out.append("\",\"item_id\":\"");
    out.append(esc(p.item_id.as_str()).as_str());
    out.append("\",\"starts_at\":\"");
    out.append(stamp_text(&p.starts_at).as_str());
    out.append("\",\"ends_at\":\"");
    out.append(stamp_text(&p.ends_at).as_str());
    out.append("\",\"foreign\":");
    out.append(bool_json(p.foreign));
    out.append(",\"pinned_tz\":");
    out.append(json_opt_str(opt_ref(&p.pinned_tz)).as_str());
    out.append("}");
    out
}

fn day_json_of(d: &Day) -> (r: String)
    requires
        d.date.wf(),
        forall|k: int| 0 <= k < d.placements.len() ==> stamps_wf(#[trigger] d.placements@[k]@),
    ensures
        r@ == day_json(d@),
{
    let ghost ps = d@.placements;
    let ghost js = ps.map_values(|p: PlacementV| placement_json(p));
    let mut inner = String::new();
    let mut i: usize = 0;
    while i < d.placements.len()
        invariant
            i <= d.placements.len(),
            ps == d@.placements,
            js == ps.map_values(|p: PlacementV| placement_json(p)),
            forall|k: int| 0 <= k < d.placements.len() ==> stamps_wf(#[trigger] d.placements@[k]@),
            inner@ == commas(js.take(i as int)),
        decreases d.placements.len() - i,
    {
        assert(js.take(i + 1).drop_last() =~= js.take(i as int));
        assert(ps[i as int] == d.placements@[i as int]@);
        assert(js.take(i + 1).last() == placement_json(d.placements@[i as int]@));
        if i == 0 {
            assert(js.take(1) =~= seq![js[0]]);
        }
        proof {
            reveal_strlit(",");
        }
        if i > 0 {
            inner.append(",");
        }
        inner.append(placement_json_of(&d.placements[i]).as_str());
        i = i + 1;
        assert(inner@ =~= commas(js.take(i as int)));
    }
    assert(js.take(d.placements.len() as int) =~= js);
    let mut out = String::from_str("{\"date\":\"");
    out.append(date_text(&d.date).as_str());
    out.append("\",\"placements\":[");
    out.append(inner.as_str());
    out.append("]}");
    out
}

fn diag_json_of(d: &crate::model::Diagnostic) -> (r: String)
    ensures
        r@ == diag_json(d@),
{
    let mut out = String::from_str("{\"item_id\":");
    out.append(json_opt_str(opt_ref(&d.item_id)).as_str());
    out.append(",\"message\":\"");
    out.append(esc(d.message.as_str()).as_str());
    out.append("\"}");
    out
}

/// A week as JSON, as `sched week --json` prints it.
#[verifier::rlimit(40)]
pub fn week_json(w: &Week) -> (r: String)
    requires
        w.anchor.wf(),
        forall|k: int| 0 <= k < w.days.len() ==> (#[trigger] w.days@[k]).date.wf(),
        forall|k: int, j: int|
            0 <= k < w.days.len() && 0 <= j < w.days@[k].placements.len() ==> stamps_wf(
                #[trigger] w.days@[k].placements@[j]@,
            ),
    ensures
        r@ == week_json_spec(w@),
{
    let ghost dj = w@.days.map_values(|d: DayV| day_json(d));
    let mut days = String::new();
    let mut i: usize = 0;
    while i < w.days.len()
        invariant
            i <= w.days.len(),
            dj == w@.days.map_values(|d: DayV| day_json(d)),
            forall|k: int| 0 <= k < w.days.len() ==> (#[trigger] w.days@[k]).date.wf(),
            forall|k: int, j: int|
                0 <= k < w.days.len() && 0 <= j < w.days@[k].placements.len() ==> stamps_wf(
                    #[trigger] w.days@[k].placements@[j]@,
                ),
            days@ == commas(dj.take(i as int)),
        decreases w.days.len() - i,
    {
        assert(dj.take(i + 1).drop_last() =~= dj.take(i as int));
        assert(w@.days[i as int] == w.days@[i as int]@);
        if i == 0 {
            assert(dj.take(1) =~= seq![dj[0]]);
        }
        proof {
            reveal_strlit(",");
        }
        if i > 0 {
            days.append(",");
        }
        let d = &w.days[i];
        assert forall|j: int| 0 <= j < d.placements.len() implies stamps_wf(#[trigger] d.placements@[j]@) by {
            assert(stamps_wf(w.days@[i as int].placements@[j]@));
        }
        days.append(day_json_of(d).as_str());
        i = i + 1;
        assert(days@ =~= commas(dj.take(i as int)));
    }
    assert(dj.take(w.days.len() as int) =~= dj);
    let ghost gj = w@.diagnostics.map_values(|d: DiagnosticV| diag_json(d));
    let mut diags = String::new();
    let mut k: usize = 0;
    while k < w.diagnostics.len()
        invariant
            k <= w.diagnostics.len(),
            gj == w@.diagnostics.map_values(|d: DiagnosticV| diag_json(d)),
            diags@ == commas(gj.take(k as int)),
        decreases w.diagnostics.len() - k,
    {
        assert(gj.take(k + 1).drop_last() =~= gj.take(k as int));
        assert(w@.diagnostics[k as int] == w.diagnostics@[k as int]@);
        if k == 0 {
            assert(gj.take(1) =~= seq![gj[0]]);
        }
        proof {
            reveal_strlit(",");
        }
        if k > 0 {
            diags.append(",");
        }
        diags.append(diag_json_of(&w.diagnostics[k]).as_str());
        k = k + 1;
        assert(diags@ =~= commas(gj.take(k as int)));
    }
    assert(gj.take(w.diagnostics.len() as int) =~= gj);
    let mut out = String::from_str("{\"anchor\":\"");
    out.append(date_text(&w.anchor).as_str());
    out.append("\",\"viewing_tz\":\"");
    out.append(w.viewing_tz.as_str());
    out.append("\",\"days\":[");
    out.append(days.as_str());
    out.append("],\"diagnostics\":[");
    out.append(diags.as_str());
    out.append("]}");
    out
}

pub open spec fn stats_json_spec(s: Stats) -> Seq<char> {
    "{\"tag\":"@ + json_opt(opt_str(s.tag)) + ",\"n\":"@ + dec(s.n as nat) + ",\"pct_over\":"@
        + match s.pct_over {
        Some(v) => signed_text(v as int),
        None => "null"@,
    } + ",\"phrase\":"@ + json_opt(opt_str(s.phrase)) + ",\"confident\":"@ + bool_text(s.confident)
        + "}"@
}

fn signed_i32(v: i32) -> (r: String)
    ensures
        r@ == signed_text(v as int),
{
    if v < 0 {
        let mut s = String::from_str("-");
        proof {
            reveal_strlit("-");
        }
        let mag: u32 = (-(v as i64)) as u32;
        s.append(string_of(&crate::compose::dec_of(mag)).as_str());
        assert(s@ =~= signed_text(v as int));
        s
    } else {
        string_of(&crate::compose::dec_of(v as u32))
    }
}

/// The estimate ratio as JSON, as `sched stats --json` prints it.
pub fn stats_json(s: &Stats) -> (r: String)
    ensures
        r@ == stats_json_spec(*s),
{
    let mut out = String::from_str("{\"tag\":");
    out.append(json_opt_str(opt_ref(&s.tag)).as_str());
    out.append(",\"n\":");
    out.append(dec_usize(s.n).as_str());
    out.append(",\"pct_over\":");
    match s.pct_over {
        Some(v) => out.append(signed_i32(v).as_str()),
        None => out.append("null"),
    }
    out.append(",\"phrase\":");
    out.append(json_opt_str(opt_ref(&s.phrase)).as_str());
    out.append(",\"confident\":");
    out.append(bool_json(s.confident));
    out.append("}");
    out
}

} // verus!
