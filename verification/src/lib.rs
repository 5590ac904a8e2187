//! Capture, schedule and time a week: the parser for typed lines, the rules
//! that expand into blocks on days, and the decisions the front ends share.
pub mod text;
pub mod calendar;
pub mod words;
pub mod grammar;
pub mod parse;
pub mod command;
pub mod clock;
pub mod zone;
pub mod model;
pub mod compose;
pub mod stats;
pub mod rules;
pub mod place;
pub mod expand;
pub mod store;
pub mod import;
pub mod upsert;
pub mod notify;
pub mod timer;
pub mod bot;
pub mod render;
pub mod json;
pub mod dto;

pub use command::{help_text, interpret, Command, ListScope};
pub use compose::{Fields, Kind as ComposeKind};
pub use expand::{get_days, get_week, Snapshot, StoredRow};
pub use import::{check_batch, import, import_with_ids, new_keys, ImportOutcome, ImportRecord, ImportRepeat};
pub use model::{Day, Diagnostic, Level, Origin, Placement, Week};
pub use notify::{already_sent, due_soon, mark_sent, prune_sent, Kind, Notice, Sent};
pub use parse::{parse, Parsed};
pub use rules::RawRule;
pub use stats::{stats, Sample, Stats};
pub use store::{find_by_prefix, new_id, plan_from_text, set_done, Completion, Filter, Item, NewItem, NewRule};
pub use timer::{active_session, start_with_id, sweep_stale_sessions, timer_start, timer_stop, Session, Started};
pub use zone::{Stamp, Zone};
