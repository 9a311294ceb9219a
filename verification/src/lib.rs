//! The planning core of a terminal Gantt-chart planner: projects made of
//! tasks with durations and dependencies, a scheduler that places each task
//! on the calendar, the editing commands that change a project, an undo and
//! redo history, and the key handling that drives all of it.
pub mod date;
pub mod model;
pub mod schedule;
pub mod remap;
pub mod text;
pub mod app;
pub mod nav;
pub mod editing;
pub mod keys;
pub mod display;
pub mod laws;
