# harvest_replay

Deterministic replay for durable workflows. A workflow run records what it did as
a history of events. When the run is driven again, each command the workflow
issues is matched against that history, so that results which were already
computed are given back and only what is new is executed.

`src/` is the library, verified with Verus:

- `event`, `types`, `json`, `ids`, `text`: recorded events and what they hold.
- `kinds`, `scan`, `search`: how the matcher tells events apart and looks ahead.
- `replay`: the state of a replay as a mathematical value, and how it moves;
  `moves`: what those moves keep.
- `origin`: what a history says before the first command.
- `matcher`: `HistoryMatcher`, the executable counterpart of a replay state.
- `activity`, `child`, `external`, `marker`, `signal`, `signal_race`, `timer`,
  `update`, `status`: one family of commands or queries each. Every command has a
  contract that gives the next state and the outcome as a function of the state
  before it.
- `laws`, `signal_laws`, `kept_signals`, `race_laws`, `external_laws`,
  `marker_laws`, `origin_laws`: what holds of the matcher as a whole.

`tests/` runs the library; `app/` converts instants to and from `chrono`.
