# screen_wake_clock

Estimates when a workday ends from macOS display wake events and keeps a small
work-hours journal.

- `src/` is the verified library: times and dates (`clock`), text handling
  (`text`), the configuration and its checks (`config`), choosing events from
  the power log and estimating the end time (`schedule`), the daily record and
  its reminder (`record`), the history listing (`history`) and the monthly
  summary (`monthly`).  Every function there carries a contract that is
  proved; the few calls into `chrono` and `std::path` go through trusted
  wrappers whose contracts say what is assumed of them.
- `app/` is the `wake-clock` command: it reads the power log, the clock, the
  configuration and the record files, and hands plain values to the library.
- `tests/` exercises the library on concrete values.
