# gantt_planner

A terminal Gantt-chart planner. Projects hold tasks with durations,
progress, manual start dates and dependencies; a scheduler places the
tasks on the calendar; commands add, delete, move and edit tasks, with
undo and redo; keys drive everything.

- `src/` is the planning core, verified with Verus: the data model
  (`model`), calendar days (`date`), the scheduler (`schedule`),
  renumbering (`remap`), text and number handling (`text`), the planner's
  state and commands (`app`), navigation (`nav`), field editing
  (`editing`), key handling (`keys`), what the screen decides rather than
  draws (`display`), and the laws that tie the commands together (`laws`).
- `app/` is the terminal program around it: reading and writing
  `projects.json` with serde, drawing with ratatui, and reading keys with
  crossterm.
- `tests/` runs the library on concrete planners.
