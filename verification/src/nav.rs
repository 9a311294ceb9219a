//! Moving the cursor: between the project fields and the task rows, and
//! between the columns of the task table.
use vstd::prelude::*;
use crate::app::{App, AppModel, FocusArea, ProjectField, TaskField};

verus! {

/// The column to the right, cyclically.
pub open spec fn next_field(f: TaskField) -> TaskField {
    match f {
        TaskField::Name => TaskField::AssignedTo,
        TaskField::AssignedTo => TaskField::StartDate,
        TaskField::StartDate => TaskField::Duration,
        TaskField::Duration => TaskField::Progress,
        TaskField::Progress => TaskField::Dependencies,
        TaskField::Dependencies => TaskField::Name,
    }
}

/// The column to the left, cyclically.
pub open spec fn previous_field(f: TaskField) -> TaskField {
    match f {
        TaskField::Name => TaskField::Dependencies,
        TaskField::AssignedTo => TaskField::Name,
        TaskField::StartDate => TaskField::AssignedTo,
        TaskField::Duration => TaskField::StartDate,
        TaskField::Progress => TaskField::Duration,
        TaskField::Dependencies => TaskField::Progress,
    }
}

impl AppModel {
    /// The state after moving up.
    pub open spec fn navigated_up(self) -> AppModel {
        match self.focus_area {
            FocusArea::Project(ProjectField::WeekToShow) => AppModel {
                focus_area: FocusArea::Project(ProjectField::StartDate),
                ..self
            },
            FocusArea::Project(ProjectField::StartDate) => AppModel {
                focus_area: FocusArea::Project(ProjectField::Name),
                ..self
            },
            FocusArea::Tasks => match self.selected {
                Some(sel) => if sel == 0 {
                    AppModel { selected: None, focus_area: FocusArea::Project(ProjectField::WeekToShow), ..self }
                } else {
                    AppModel { selected: Some((sel - 1) as usize), ..self }
                },
                None => self,
            },
            _ => self,
        }
    }

    /// The state after moving down.
    pub open spec fn navigated_down(self) -> AppModel {
        match self.focus_area {
            FocusArea::Project(ProjectField::Name) => AppModel {
                focus_area: FocusArea::Project(ProjectField::StartDate),
                ..self
            },
            FocusArea::Project(ProjectField::StartDate) => AppModel {
                focus_area: FocusArea::Project(ProjectField::WeekToShow),
                ..self
            },
            FocusArea::Project(ProjectField::WeekToShow) => if self.tasks().len() > 0 {
                AppModel { focus_area: FocusArea::Tasks, selected: Some(0), ..self }
            } else {
                self
            },
            FocusArea::Tasks => match self.selected {
                Some(sel) => if sel < self.tasks().len() - 1 {
                    AppModel { selected: Some((sel + 1) as usize), ..self }
                } else {
                    self
                },
                None => self,
            },
        }
    }

    /// Moving down does not panic: with a row selected there is a task.
    pub open spec fn can_navigate_down(self) -> bool {
        self.task_row_selected() ==> self.tasks().len() > 0
    }

    /// The state after moving one column right (only in the task table).
    pub open spec fn with_next_field(self) -> AppModel {
        if self.focus_area == FocusArea::Tasks {
            AppModel { selected_task_field: next_field(self.selected_task_field), ..self }
        } else {
            self
        }
    }

    /// The state after moving one column left (only in the task table).
    pub open spec fn with_previous_field(self) -> AppModel {
        if self.focus_area == FocusArea::Tasks {
            AppModel { selected_task_field: previous_field(self.selected_task_field), ..self }
        } else {
            self
        }
    }

    /// The state after jumping to the first task.
    pub open spec fn at_top(self) -> AppModel {
        if self.tasks().len() > 0 {
            AppModel { selected: Some(0), focus_area: FocusArea::Tasks, ..self }
        } else {
            self
        }
    }

    /// The state after jumping to the last task.
    pub open spec fn at_bottom(self) -> AppModel {
        if self.tasks().len() > 0 {
            AppModel { selected: Some((self.tasks().len() - 1) as usize), focus_area: FocusArea::Tasks, ..self }
        } else {
            self
        }
    }
}

/// Moves the cursor up: from a project field to the one above, or to the
/// row above (from the first row, to the project's week field).
pub fn navigate_up(app: &mut App)
    ensures
        final(app)@ == old(app)@.navigated_up(),
{
    match app.focus_area {
        FocusArea::Project(ProjectField::WeekToShow) => app.focus_area = FocusArea::Project(ProjectField::StartDate),
        FocusArea::Project(ProjectField::StartDate) => app.focus_area = FocusArea::Project(ProjectField::Name),
        FocusArea::Tasks => {
            if let Some(selected) = app.selected {
                if selected == 0 {
                    app.selected = None;
                    app.focus_area = FocusArea::Project(ProjectField::WeekToShow);
                } else {
                    app.selected = Some(selected - 1);
                }
            }
        },
        _ => {},
    }
}

/// Moves the cursor down: from a project field to the one below (from the
/// week field, to the first task, if any), or to the row below.
pub fn navigate_down(app: &mut App)
    requires
        old(app)@.wf(),
        old(app)@.can_navigate_down(),
    ensures
        final(app)@ == old(app)@.navigated_down(),
{
    match app.focus_area {
        FocusArea::Project(ProjectField::Name) => app.focus_area = FocusArea::Project(ProjectField::StartDate),
        FocusArea::Project(ProjectField::StartDate) => app.focus_area = FocusArea::Project(ProjectField::WeekToShow),
        FocusArea::Project(ProjectField::WeekToShow) => {
            if app.get_current_project().tasks.len() > 0 {
                app.focus_area = FocusArea::Tasks;
                app.selected = Some(0);
            }
        },
        FocusArea::Tasks => {
            if let Some(selected) = app.selected {
                if selected < app.get_current_project().tasks.len() - 1 {
                    app.selected = Some(selected + 1);
                }
            }
        },
    }
}

/// Moves to the next column of the task table, cyclically.
pub fn select_next_field(app: &mut App)
    ensures
        final(app)@ == old(app)@.with_next_field(),
{
    if app.focus_area == FocusArea::Tasks {
        app.selected_task_field = match app.selected_task_field {
            TaskField::Name => TaskField::AssignedTo,
            TaskField::AssignedTo => TaskField::StartDate,
            TaskField::StartDate => TaskField::Duration,
            TaskField::Duration => TaskField::Progress,
            TaskField::Progress => TaskField::Dependencies,
            TaskField::Dependencies => TaskField::Name,
        };
    }
}

/// Moves to the previous column of the task table, cyclically.
pub fn select_previous_field(app: &mut App)
    ensures
        final(app)@ == old(app)@.with_previous_field(),
{
    if app.focus_area == FocusArea::Tasks {
        app.selected_task_field = match app.selected_task_field {
            TaskField::Name => TaskField::Dependencies,
            TaskField::AssignedTo => TaskField::Name,
            TaskField::StartDate => TaskField::AssignedTo,
            TaskField::Duration => TaskField::StartDate,
            TaskField::Progress => TaskField::Duration,
            TaskField::Dependencies => TaskField::Progress,
        };
    }
}

/// Jumps to the first task, if there is one.
pub fn go_to_top(app: &mut App)
    requires
        old(app)@.wf(),
    ensures
        final(app)@ == old(app)@.at_top(),
{
    if app.get_current_project().tasks.len() > 0 {
        app.selected = Some(0);
        app.focus_area = FocusArea::Tasks;
    }
}

/// Jumps to the last task, if there is one.
pub fn go_to_bottom(app: &mut App)
    requires
        old(app)@.wf(),
    ensures
        final(app)@ == old(app)@.at_bottom(),
{
    if app.get_current_project().tasks.len() > 0 {
        let last_index = app.get_current_project().tasks.len() - 1;
        app.selected = Some(last_index);
        app.focus_area = FocusArea::Tasks;
    }
}

} // verus!
