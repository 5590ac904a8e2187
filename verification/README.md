# ms_core

A weekly planner's core, written in Verus: the grammar that turns a typed line
into an item, the recurrence rules that expand into blocks on the days of a
week, the store's decisions (filters, completions, imports), the timer, the
statistics, and what the Telegram bot and the window say.

## Layout

- `src/` — the verified library. Every function carries a contract, and the
  properties that span several functions stand as public `law_*` proof
  functions beside the code they speak of:
  - `parse`, `grammar`, `words`, `text` — the capture line, read from its end;
  - `calendar`, `zone`, `clock` — dates, instants and zones;
  - `rules`, `place`, `expand`, `model` — recurrence and the week view;
  - `store`, `import`, `upsert` — items, completions and imports;
  - `timer`, `stats`, `notify` — sessions, estimates against time spent, and
    what is about to happen;
  - `command`, `compose`, `bot`, `render`, `json`, `dto` — what the front ends
    read and write.
  chrono, chrono-tz, uuid and the few std calls vstd does not specify are
  made through small trusted wrappers
  (`#[verifier::external_body]`), each beside the code that uses it, with a
  doc comment saying what its contract claims of the outside function.
- `tests/` — the test suite, run against the compiled library.
- `app/` — the unverified shell: the `sched` command line, SQLite storage,
  the Telegram loop, serde copies of the library's records, and the window's
  command layer.
