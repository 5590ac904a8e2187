//! What a rendered week is made of.
use vstd::prelude::*;
use crate::calendar::Date;
use crate::text::opt_str;
use crate::zone::Stamp;

verus! {

#[derive(Clone, Copy, Debug, PartialEq, Eq, Structural)]
pub enum Origin {
    Recurrence,
    OneOff,
    Moved,
}

#[derive(Clone, Copy, Debug, PartialEq, Eq, Structural)]
pub enum Level {
    Warn,
}

/// One block of time on one day, its instants shown in the viewing zone.
#[derive(Clone, Debug, PartialEq)]
pub struct Placement {
    pub id: String,
    pub item_id: String,
    pub starts_at: Stamp,
    pub ends_at: Stamp,
    pub origin: Origin,
    pub moved_from: Option<Date>,
    pub pinned_tz: Option<String>,
    pub foreign: bool,
}

pub struct PlacementV {
    pub id: Seq<char>,
    pub item_id: Seq<char>,
    pub starts_at: Stamp,
    pub ends_at: Stamp,
    pub origin: Origin,
    pub moved_from: Option<Date>,
    pub pinned_tz: Option<Seq<char>>,
    pub foreign: bool,
}

impl View for Placement {
    type V = PlacementV;

    open spec fn view(&self) -> PlacementV {
        PlacementV {
            id: self.id@,
            item_id: self.item_id@,
            starts_at: self.starts_at,
            ends_at: self.ends_at,
            origin: self.origin,
            moved_from: self.moved_from,
            pinned_tz: opt_str(self.pinned_tz),
            foreign: self.foreign,
        }
    }
}

/// Something the week could not show as stored, said rather than hidden.
#[derive(Clone, Debug, PartialEq)]
pub struct Diagnostic {
    pub level: Level,
    pub item_id: Option<String>,
    pub message: String,
}

pub struct DiagnosticV {
    pub level: Level,
    pub item_id: Option<Seq<char>>,
    pub message: Seq<char>,
}

impl View for Diagnostic {
    type V = DiagnosticV;

    open spec fn view(&self) -> DiagnosticV {
        DiagnosticV { level: self.level, item_id: opt_str(self.item_id), message: self.message@ }
    }
}

/// A warning about one item.
pub open spec fn warn_v(item_id: Seq<char>, message: Seq<char>) -> DiagnosticV {
    DiagnosticV { level: Level::Warn, item_id: Some(item_id), message }
}

/// A warning about the week as a whole.
pub open spec fn note_v(message: Seq<char>) -> DiagnosticV {
    DiagnosticV { level: Level::Warn, item_id: None, message }
}

/// Record a warning about one item.
pub fn warn(diags: &mut Vec<Diagnostic>, item_id: &str, message: String)
    ensures
        final(diags)@.map_values(|d: Diagnostic| d@) == old(diags)@.map_values(
            |d: Diagnostic| d@,
        ).push(warn_v(item_id@, message@)),
{
    let ghost before = diags@.map_values(|d: Diagnostic| d@);
    let d = Diagnostic { level: Level::Warn, item_id: Some(item_id.to_owned()), message };
    diags.push(d);
    assert(diags@.map_values(|d: Diagnostic| d@) =~= before.push(warn_v(item_id@, message@)));
}

/// Record a warning about the week as a whole.
pub fn note(diags: &mut Vec<Diagnostic>, message: String)
    ensures
        final(diags)@.map_values(|d: Diagnostic| d@) == old(diags)@.map_values(
            |d: Diagnostic| d@,
        ).push(note_v(message@)),
{
    let ghost before = diags@.map_values(|d: Diagnostic| d@);
    let d = Diagnostic { level: Level::Warn, item_id: None, message };
    diags.push(d);
    assert(diags@.map_values(|d: Diagnostic| d@) =~= before.push(note_v(message@)));
}

#[derive(Clone, Debug, PartialEq)]
pub struct Day {
    pub date: Date,
    pub placements: Vec<Placement>,
}

pub struct DayV {
    pub date: Date,
    pub placements: Seq<PlacementV>,
}

impl View for Day {
    type V = DayV;

    open spec fn view(&self) -> DayV {
        DayV { date: self.date, placements: self.placements@.map_values(|p: Placement| p@) }
    }
}

#[derive(Clone, Debug, PartialEq)]
pub struct Week {
    pub anchor: Date,
    pub viewing_tz: String,
    pub days: Vec<Day>,
    pub diagnostics: Vec<Diagnostic>,
}

pub struct WeekV {
    pub anchor: Date,
    pub viewing_tz: Seq<char>,
    pub days: Seq<DayV>,
    pub diagnostics: Seq<DiagnosticV>,
}

impl View for Week {
    type V = WeekV;

    open spec fn view(&self) -> WeekV {
        WeekV {
            anchor: self.anchor,
            viewing_tz: self.viewing_tz@,
            days: self.days@.map_values(|d: Day| d@),
            diagnostics: self.diagnostics@.map_values(|d: Diagnostic| d@),
        }
    }
}

} // verus!
