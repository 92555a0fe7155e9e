# vocal_time_counter

A Discord bot that counts the time members spend in voice channels: in total,
and while muted, deafened, streaming or on camera; it ranks members and channels
and reports server-wide totals.

- `src/` is the verified library (Verus): the store and its views (`model`),
  millisecond arithmetic and the clock (`clock`), voice-state changes
  (`voice`), the tracker that records them (`handler`), the ranking (`ranking`),
  text formatting (`text`), the command replies (`commands`), parsing of the
  configured server id (`config`), and the proved properties (`laws`, and
  `accounting` for the soundness of the per-state totals over whole updates).
- `app/` is the bot around it: gateway events, slash commands, the JSON store
  on disk and the environment.
- `tests/` runs the library on concrete cases.
