# codex_cost_meter

Usage accounting, title composition and scheduling rules for Codex rollouts,
written in Verus: every public function in `src/` carries a contract that
Verus proves (a few private helpers are checked only for safety and
termination), and the laws the tool relies on across calls are stated as proof
functions beside the code they speak of.

Layout:

- `src/` — the verified library: parsing of rollout records and session
  indexes (`jsonl`, `discovery`, `analyze`, `session`), token and cost
  accounting (`analysis`, `tally`, `totals`, `pricing`), task-tree and
  project resolution (`tree`, `threads`, `related`, `project`, `report`),
  task titles (`title`, `title_laws`), the updater and its scheduler
  (`update`, `schedule`, `install`, `linux`, `macos`, `windows`, `platform`),
  command-line values and dates (`cli`, `date_filter`), and text helpers
  (`text`, `words`, `sort`, `keyed`, `output`, `progress`).
- `tests/` — tests of the library on concrete values.
- `app/` — the command itself: argument parsing, file, database and process
  I/O, and the floating-point cost arithmetic, around the library.

Calls into `time`, `jiff` and the standard library that the library cannot
verify stand behind small trusted wrappers whose contracts say what the
outside documentation promises.
