# wremind

The engine of a small desktop reminder companion: reminders and their
schedules (intervals, daily and weekly times, one-time instants), the
daemon's scheduling tick, the show queue, configuration, persistence
decisions and character loading — written in Verus, with every public
function carrying a contract that Verus proves.

Layout:

- `src/` — the verified library. `recurrence` computes due times
  (time zones and DST through `chrono-tz`), `runner` holds the scheduler
  tick and daemon decisions, `queue` the bounded FIFO of walks, `store`
  the recovery rules for `reminders.json`, `config`, `character`,
  `commands` (what the CLI commands compute), `menu` (the menu bar's texts
  and toggles), `util`/`text`/`time` the
  parsing and formatting underneath. Public `law_*` proof functions state
  the properties that span several functions (duplicate prevention, a
  quiet second tick, clock-rollback clamping, FIFO order, id freshness).
- `tests/` — tests run against the compiled library.
- `app/` — the `dribble` program: CLI, daemon loop, IPC socket, files,
  JSON shapes and the renderer process.
